use std::collections::HashMap;

use vstd::prelude::*;

use crate::database::empty_remotes;
use crate::ids::{EpisodeId, MovieId, SeriesId};
use crate::remote::{episode_as_series, RemoteEpisodeId, RemoteSeriesId};
use crate::remote_map::{lemma_pairs_map_at, lemma_remote_less_order, remote_less, sorted_keys, RemoteMap};

verus! {

broadcast use {vstd::std_specs::hash::group_hash_axioms, vstd::seq_lib::group_seq_properties};

/// The remote identifiers known for one local identifier, as exported.
#[derive(Clone, Debug)]
pub enum RemoteIds {
    /// The remote identifiers of a series.
    Series { uuid: SeriesId, remotes: Vec<RemoteSeriesId> },
    /// The remote identifiers of a movie.
    Movies { uuid: MovieId, remotes: Vec<RemoteSeriesId> },
    /// The remote identifiers of an episode.
    Episode { uuid: EpisodeId, remotes: Vec<RemoteEpisodeId> },
}

/// The same identifier seen as an episode identifier.
pub open spec fn series_as_episode(r: RemoteSeriesId) -> RemoteEpisodeId {
    match r {
        RemoteSeriesId::Tvdb { id } => RemoteEpisodeId::Tvdb { id },
        RemoteSeriesId::Tmdb { id } => RemoteEpisodeId::Tmdb { id },
        RemoteSeriesId::Imdb { id } => RemoteEpisodeId::Imdb { id },
    }
}

/// The same identifier seen as an episode identifier.
pub fn as_episode(r: &RemoteSeriesId) -> (e: RemoteEpisodeId)
    ensures
        e == series_as_episode(*r),
        episode_as_series(e) == *r,
{
    match *r {
        RemoteSeriesId::Tvdb { id } => RemoteEpisodeId::Tvdb { id },
        RemoteSeriesId::Tmdb { id } => RemoteEpisodeId::Tmdb { id },
        RemoteSeriesId::Imdb { id } => RemoteEpisodeId::Imdb { id },
    }
}

/// The owners of the groups strictly increase.
pub open spec fn owners_increase(g: Seq<(u128, Seq<RemoteSeriesId>)>) -> bool {
    forall|a: int, b: int| 0 <= a < b < g.len() ==> #[trigger] g[a].0 < #[trigger] g[b].0
}

/// No group is empty.
pub open spec fn groups_nonempty(g: Seq<(u128, Seq<RemoteSeriesId>)>) -> bool {
    forall|a: int| 0 <= a < g.len() ==> (#[trigger] g[a]).1.len() > 0
}

/// The members of each group strictly increase.
pub open spec fn members_increase(g: Seq<(u128, Seq<RemoteSeriesId>)>) -> bool {
    forall|a: int, j: int, k: int|
        0 <= a < g.len() && 0 <= j < k < g[a].1.len() ==> remote_less(#[trigger] g[a].1[j], #[trigger] g[a].1[k])
}

/// Each member of a group comes from a pair with that owner.
pub open spec fn members_from(p: Seq<(RemoteSeriesId, u128)>, g: Seq<(u128, Seq<RemoteSeriesId>)>) -> bool {
    forall|a: int, j: int|
        0 <= a < g.len() && 0 <= j < g[a].1.len() ==> p.contains((#[trigger] g[a].1[j], g[a].0))
}

/// The group of owner `x.1` holds `x.0`.
pub open spec fn in_groups(g: Seq<(u128, Seq<RemoteSeriesId>)>, x: (RemoteSeriesId, u128)) -> bool {
    exists|a: int| 0 <= a < g.len() && g[a].0 == x.1 && g[a].1.contains(x.0)
}

/// Each pair is in the group of its owner.
pub open spec fn pairs_grouped(p: Seq<(RemoteSeriesId, u128)>, g: Seq<(u128, Seq<RemoteSeriesId>)>) -> bool {
    forall|i: int| 0 <= i < p.len() ==> in_groups(g, #[trigger] p[i])
}

/// `g` groups the pairs `p` (remote identifier, owner) by owner: owners
/// strictly increase, each group is non-empty with strictly increasing
/// members, each member comes from a pair with that owner, and each pair
/// is in the group of its owner.
pub open spec fn grouped(p: Seq<(RemoteSeriesId, u128)>, g: Seq<(u128, Seq<RemoteSeriesId>)>) -> bool {
    &&& owners_increase(g)
    &&& groups_nonempty(g)
    &&& members_increase(g)
    &&& members_from(p, g)
    &&& pairs_grouped(p, g)
}

/// Groups as a sequence of plain values.
pub open spec fn groups_view(g: Seq<(u128, Vec<RemoteSeriesId>)>) -> Seq<(u128, Seq<RemoteSeriesId>)> {
    g.map_values(|x: (u128, Vec<RemoteSeriesId>)| (x.0, x.1@))
}

/// Adding a pair whose owner has a group, and whose remote identifier sorts
/// after every member, extends that group.
proof fn lemma_group_extend(
    p: Seq<(RemoteSeriesId, u128)>,
    g: Seq<(u128, Seq<RemoteSeriesId>)>,
    pos: int,
    r: RemoteSeriesId,
)
    requires
        grouped(p, g),
        0 <= pos < g.len(),
        forall|a: int, j: int| 0 <= a < g.len() && 0 <= j < g[a].1.len() ==> remote_less(#[trigger] g[a].1[j], r),
    ensures
        grouped(p.push((r, g[pos].0)), g.update(pos, (g[pos].0, g[pos].1.push(r)))),
{
    let o = g[pos].0;
    let np = p.push((r, o));
    let ng = g.update(pos, (o, g[pos].1.push(r)));
    assert forall|a: int, b: int| 0 <= a < b < ng.len() implies #[trigger] ng[a].0 < #[trigger] ng[b].0 by {
        assert(g[a].0 < g[b].0);
    }
    assert forall|a: int| 0 <= a < ng.len() implies (#[trigger] ng[a]).1.len() > 0 by {
        assert(g[a].1.len() > 0);
    }
    assert forall|a: int, j: int, k: int|
        0 <= a < ng.len() && 0 <= j < k < ng[a].1.len() implies remote_less(
        #[trigger] ng[a].1[j],
        #[trigger] ng[a].1[k],
    ) by {
        if a == pos && k == g[a].1.len() {
            assert(remote_less(g[a].1[j], r));
        } else {
            assert(remote_less(g[a].1[j], g[a].1[k]));
        }
    }
    assert forall|a: int, j: int| 0 <= a < ng.len() && 0 <= j < ng[a].1.len() implies np.contains(
        (#[trigger] ng[a].1[j], ng[a].0),
    ) by {
        if a == pos && j == g[a].1.len() {
            assert(np[p.len() as int] == (ng[a].1[j], ng[a].0));
        } else {
            assert(ng[a].1[j] == g[a].1[j]);
            assert(p.contains((g[a].1[j], g[a].0)));
            let i = choose|i: int| 0 <= i < p.len() && p[i] == (g[a].1[j], g[a].0);
            assert(np[i] == p[i]);
        }
    }
    assert forall|i: int| 0 <= i < np.len() implies in_groups(ng, #[trigger] np[i]) by {
        if i == p.len() {
            assert(ng[pos].1[g[pos].1.len() as int] == r);
            assert(ng[pos].1.contains(r));
        } else {
            assert(np[i] == p[i]);
            assert(in_groups(g, p[i]));
            let a = choose|a: int| 0 <= a < g.len() && g[a].0 == p[i].1 && g[a].1.contains(p[i].0);
            let j = choose|j: int| 0 <= j < g[a].1.len() && g[a].1[j] == p[i].0;
            assert(ng[a].1[j] == g[a].1[j]);
            assert(ng[a].1.contains(p[i].0));
        }
    }
}

proof fn lemma_start_owners(g: Seq<(u128, Seq<RemoteSeriesId>)>, pos: int, r: RemoteSeriesId, o: u128)
    requires
        owners_increase(g),
        0 <= pos <= g.len(),
        forall|a: int| 0 <= a < pos ==> #[trigger] g[a].0 < o,
        forall|a: int| pos <= a < g.len() ==> o < #[trigger] g[a].0,
    ensures
        owners_increase(g.insert(pos, (o, seq![r]))),
{
    let ng = g.insert(pos, (o, seq![r]));
    assert forall|a: int, b: int| 0 <= a < b < ng.len() implies #[trigger] ng[a].0 < #[trigger] ng[b].0 by {
        if a < pos && b > pos {
            assert(ng[b] == g[b - 1]);
        } else if a > pos {
            assert(ng[a] == g[a - 1] && ng[b] == g[b - 1]);
            assert(g[a - 1].0 < g[b - 1].0);
        } else if b < pos {
            assert(g[a].0 < g[b].0);
        } else if a == pos {
            assert(ng[b] == g[b - 1]);
        }
    }
}

proof fn lemma_start_members(g: Seq<(u128, Seq<RemoteSeriesId>)>, pos: int, r: RemoteSeriesId, o: u128)
    requires
        groups_nonempty(g),
        members_increase(g),
        0 <= pos <= g.len(),
    ensures
        groups_nonempty(g.insert(pos, (o, seq![r]))),
        members_increase(g.insert(pos, (o, seq![r]))),
{
    let ng = g.insert(pos, (o, seq![r]));
    assert forall|a: int| 0 <= a < ng.len() implies (#[trigger] ng[a]).1.len() > 0 by {
        if a < pos {
            assert(g[a].1.len() > 0);
        } else if a > pos {
            assert(g[a - 1].1.len() > 0);
        }
    }
    assert forall|a: int, j: int, k: int|
        0 <= a < ng.len() && 0 <= j < k < ng[a].1.len() implies remote_less(
        #[trigger] ng[a].1[j],
        #[trigger] ng[a].1[k],
    ) by {
        if a < pos {
            assert(remote_less(g[a].1[j], g[a].1[k]));
        } else if a > pos {
            assert(ng[a] == g[a - 1]);
            assert(remote_less(g[a - 1].1[j], g[a - 1].1[k]));
        }
    }
}

proof fn lemma_start_from(
    p: Seq<(RemoteSeriesId, u128)>,
    g: Seq<(u128, Seq<RemoteSeriesId>)>,
    pos: int,
    r: RemoteSeriesId,
    o: u128,
)
    requires
        members_from(p, g),
        0 <= pos <= g.len(),
    ensures
        members_from(p.push((r, o)), g.insert(pos, (o, seq![r]))),
{
    let np = p.push((r, o));
    let ng = g.insert(pos, (o, seq![r]));
    assert forall|a: int, j: int| 0 <= a < ng.len() && 0 <= j < ng[a].1.len() implies np.contains(
        (#[trigger] ng[a].1[j], ng[a].0),
    ) by {
        if a == pos {
            assert(np[p.len() as int] == (ng[a].1[j], ng[a].0));
        } else {
            let b = if a < pos { a } else { a - 1 };
            assert(ng[a] == g[b]);
            assert(g[b].1[j] == ng[a].1[j]);
            assert(p.contains((g[b].1[j], g[b].0)));
            let i = choose|i: int| 0 <= i < p.len() && p[i] == (g[b].1[j], g[b].0);
            assert(np[i] == p[i]);
        }
    }
}

proof fn lemma_start_pairs(
    p: Seq<(RemoteSeriesId, u128)>,
    g: Seq<(u128, Seq<RemoteSeriesId>)>,
    pos: int,
    r: RemoteSeriesId,
    o: u128,
)
    requires
        pairs_grouped(p, g),
        0 <= pos <= g.len(),
    ensures
        pairs_grouped(p.push((r, o)), g.insert(pos, (o, seq![r]))),
{
    let np = p.push((r, o));
    let ng = g.insert(pos, (o, seq![r]));
    assert forall|i: int| 0 <= i < np.len() implies in_groups(ng, #[trigger] np[i]) by {
        if i == p.len() {
            assert(ng[pos].1[0] == r);
            assert(ng[pos].1.contains(r));
        } else {
            assert(np[i] == p[i]);
            assert(in_groups(g, p[i]));
            let a = choose|a: int| 0 <= a < g.len() && g[a].0 == p[i].1 && g[a].1.contains(p[i].0);
            let b = if a < pos { a } else { a + 1 };
            assert(ng[b] == g[a]);
        }
    }
}

/// Adding a pair whose owner has no group adds a group at the place that
/// keeps owners increasing.
proof fn lemma_group_start(
    p: Seq<(RemoteSeriesId, u128)>,
    g: Seq<(u128, Seq<RemoteSeriesId>)>,
    pos: int,
    r: RemoteSeriesId,
    o: u128,
)
    requires
        grouped(p, g),
        0 <= pos <= g.len(),
        forall|a: int| 0 <= a < pos ==> #[trigger] g[a].0 < o,
        forall|a: int| pos <= a < g.len() ==> o < #[trigger] g[a].0,
    ensures
        grouped(p.push((r, o)), g.insert(pos, (o, seq![r]))),
{
    lemma_start_owners(g, pos, r, o);
    lemma_start_members(g, pos, r, o);
    lemma_start_from(p, g, pos, r, o);
    lemma_start_pairs(p, g, pos, r, o);
}

/// Group pairs (remote identifier, owner), given in strictly increasing
/// order of remote identifier, by owner.
fn group_by_owner(p: &Vec<(RemoteSeriesId, u128)>) -> (g: Vec<(u128, Vec<RemoteSeriesId>)>)
    requires
        forall|i: int, j: int| 0 <= i < j < p@.len() ==> remote_less(#[trigger] p@[i].0, #[trigger] p@[j].0),
    ensures
        grouped(p@, groups_view(g@)),
{
    let mut g: Vec<(u128, Vec<RemoteSeriesId>)> = Vec::new();
    let mut i: usize = 0;
    assert(groups_view(g@) =~= Seq::<(u128, Seq<RemoteSeriesId>)>::empty());
    while i < p.len()
        invariant
            i <= p@.len(),
            forall|x: int, y: int| 0 <= x < y < p@.len() ==> remote_less(#[trigger] p@[x].0, #[trigger] p@[y].0),
            grouped(p@.take(i as int), groups_view(g@)),
        decreases p@.len() - i,
    {
        let ghost gv = groups_view(g@);
        let ghost pt = p@.take(i as int);
        let (r, o) = p[i];
        let mut pos: usize = 0;
        let mut found = false;
        while pos < g.len()
            invariant_except_break
                !found,
            invariant
                pos <= g@.len(),
                forall|a: int| 0 <= a < pos ==> #[trigger] g@[a].0 < o,
            ensures
                pos <= g@.len(),
                forall|a: int| 0 <= a < pos ==> #[trigger] g@[a].0 < o,
                found ==> pos < g@.len() && g@[pos as int].0 == o,
                !found ==> pos == g@.len() || g@[pos as int].0 > o,
            decreases g@.len() - pos,
        {
            if g[pos].0 == o {
                found = true;
                break;
            }
            if g[pos].0 > o {
                break;
            }
            pos = pos + 1;
        }
        proof {
            assert(p@.take(i + 1) =~= pt.push((r, o)));
            assert forall|a: int, j: int| 0 <= a < gv.len() && 0 <= j < gv[a].1.len() implies remote_less(
                #[trigger] gv[a].1[j],
                r,
            ) by {
                assert(pt.contains((gv[a].1[j], gv[a].0)));
                let x = choose|x: int| 0 <= x < pt.len() && pt[x] == (gv[a].1[j], gv[a].0);
                assert(pt[x] == p@[x]);
                assert(remote_less(p@[x].0, p@[i as int].0));
            }
        }
        if found {
            let (u, mut members) = g.remove(pos);
            members.push(r);
            g.insert(pos, (u, members));
            proof {
                assert(gv[pos as int].0 == o);
                lemma_group_extend(pt, gv, pos as int, r);
                assert(groups_view(g@) =~= gv.update(pos as int, (gv[pos as int].0, gv[pos as int].1.push(r))));
            }
        } else {
            let mut members: Vec<RemoteSeriesId> = Vec::new();
            members.push(r);
            g.insert(pos, (o, members));
            proof {
                assert forall|a: int| pos <= a < gv.len() implies o < #[trigger] gv[a].0 by {
                    if a > pos {
                        assert(gv[pos as int].0 < gv[a].0);
                    }
                }
                lemma_group_start(pt, gv, pos as int, r, o);
                assert(groups_view(g@) =~= gv.insert(pos as int, (o, seq![r])));
            }
        }
        i = i + 1;
    }
    assert(p@.take(p@.len() as int) =~= p@);
    g
}

/// What the remote database records.
pub struct RemotesModel {
    /// The series that each remote identifier stands for.
    pub series: Map<RemoteSeriesId, SeriesId>,
    /// The movie that each remote identifier stands for.
    pub movies: Map<RemoteSeriesId, MovieId>,
    /// The episode that each remote identifier stands for.
    pub episodes: Map<RemoteEpisodeId, EpisodeId>,
    /// The remote identifiers recorded for each series.
    pub by_series: Map<SeriesId, Set<RemoteSeriesId>>,
    /// The remote identifiers recorded for each movie.
    pub by_movie: Map<MovieId, Set<RemoteSeriesId>>,
}

/// Database of remote identifiers.
pub struct RemotesDatabase {
    series: RemoteMap<SeriesId>,
    movies: RemoteMap<MovieId>,
    episodes: RemoteMap<EpisodeId>,
    by_series: HashMap<u128, RemoteMap<()>>,
    by_movie: HashMap<u128, RemoteMap<()>>,
}

/// An index of sets, each seen as its set of keys.
pub open spec fn set_index(m: HashMap<u128, RemoteMap<()>>) -> Map<u128, Set<RemoteSeriesId>> {
    Map::new(|k: u128| m@.contains_key(k), |k: u128| m@[k]@.dom())
}

/// Every set in the index keeps its invariant.
pub open spec fn set_index_wf(m: HashMap<u128, RemoteMap<()>>) -> bool {
    forall|k: u128| #[trigger] m@.contains_key(k) ==> m@[k].wf()
}

/// `m` with `r` added to the set of `k`.
pub open spec fn index_add(m: Map<u128, Set<RemoteSeriesId>>, k: u128, r: RemoteSeriesId) -> Map<
    u128,
    Set<RemoteSeriesId>,
> {
    m.insert(k, if m.contains_key(k) { m[k].insert(r) } else { set![r] })
}

fn set_index_add(index: &mut HashMap<u128, RemoteMap<()>>, k: u128, r: RemoteSeriesId)
    requires
        set_index_wf(*old(index)),
    ensures
        set_index_wf(*final(index)),
        set_index(*final(index)) == index_add(set_index(*old(index)), k, r),
{
    let ghost before = set_index(*index);
    let mut set = match index.remove(&k) {
        Some(set) => set,
        None => RemoteMap::new(),
    };
    let _ = set.insert(r, ());
    index.insert(k, set);
    proof {
        if before.contains_key(k) {
            assert(set@.dom() =~= before[k].insert(r));
        } else {
            assert(set@.dom() =~= set![r]);
        }
    }
    assert(set_index(*index) =~= index_add(before, k, r));
}

/// The sorted members of the set of `k`.
fn set_index_members(index: &HashMap<u128, RemoteMap<()>>, k: u128) -> (r: Vec<RemoteSeriesId>)
    requires
        set_index_wf(*index),
    ensures
        r@.to_set() == (if set_index(*index).contains_key(k) {
            set_index(*index)[k]
        } else {
            Set::<RemoteSeriesId>::empty()
        }),
        forall|i: int, j: int| 0 <= i < j < r@.len() ==> remote_less(#[trigger] r@[i], #[trigger] r@[j]),
{
    let mut out: Vec<RemoteSeriesId> = Vec::new();
    match index.get(&k) {
        None => {
            assert(out@.to_set() =~= Set::<RemoteSeriesId>::empty());
        },
        Some(set) => {
            let ghost l = set.entries();
            let mut i: usize = 0;
            while i < set.len()
                invariant
                    l == set.entries(),
                    sorted_keys(l),
                    i <= l.len(),
                    out@.len() == i,
                    forall|j: int| 0 <= j < i ==> out@[j] == #[trigger] l[j].0,
                decreases l.len() - i,
            {
                let (r, _) = set.entry(i);
                out.push(*r);
                i = i + 1;
            }
            proof {
                set.lemma_view();
                assert(out@.to_set() =~= set@.dom()) by {
                    assert forall|q: RemoteSeriesId| out@.to_set().contains(q) implies set@.dom().contains(q) by {
                        let j = choose|j: int| 0 <= j < out@.len() && out@[j] == q;
                        assert(out@[j] == l[j].0);
                    }
                    assert forall|q: RemoteSeriesId| set@.dom().contains(q) implies out@.to_set().contains(q) by {
                        assert(set@.contains_key(q));
                        let j = choose|j: int| 0 <= j < l.len() && l[j].0 == q;
                        assert(out@[j] == q);
                    }
                }
                assert forall|a: int, b: int| 0 <= a < b < out@.len() implies remote_less(
                    #[trigger] out@[a],
                    #[trigger] out@[b],
                ) by {
                    assert(out@[a] == l[a].0 && out@[b] == l[b].0);
                }
            }
        },
    }
    out
}

/// A local identifier, with the 128 bits of its UUID.
pub trait LocalId: Copy {
    /// The bits of the identifier.
    spec fn bits_spec(&self) -> u128;

    /// The bits of the identifier.
    fn bits(&self) -> (r: u128)
        ensures
            r == self.bits_spec(),
    ;
}

impl LocalId for SeriesId {
    open spec fn bits_spec(&self) -> u128 {
        self.0
    }

    fn bits(&self) -> (r: u128) {
        self.0
    }
}

impl LocalId for MovieId {
    open spec fn bits_spec(&self) -> u128 {
        self.0
    }

    fn bits(&self) -> (r: u128) {
        self.0
    }
}

impl LocalId for EpisodeId {
    open spec fn bits_spec(&self) -> u128 {
        self.0
    }

    fn bits(&self) -> (r: u128) {
        self.0
    }
}

/// Remote identifiers and the bits of their owners, in key order.
fn map_pairs<V: LocalId>(m: &RemoteMap<V>) -> (p: Vec<(RemoteSeriesId, u128)>)
    requires
        m.wf(),
    ensures
        p@.len() == m.entries().len(),
        forall|i: int| 0 <= i < p@.len() ==> #[trigger] p@[i] == (m.entries()[i].0, m.entries()[i].1.bits_spec()),
        forall|i: int, j: int| 0 <= i < j < p@.len() ==> remote_less(#[trigger] p@[i].0, #[trigger] p@[j].0),
{
    let mut p: Vec<(RemoteSeriesId, u128)> = Vec::new();
    let mut i: usize = 0;
    while i < m.len()
        invariant
            m.wf(),
            i <= m.entries().len(),
            p@.len() == i,
            forall|j: int| 0 <= j < i ==> #[trigger] p@[j] == (m.entries()[j].0, m.entries()[j].1.bits_spec()),
        decreases m.entries().len() - i,
    {
        let (r, v) = m.entry(i);
        let o = v.bits();
        p.push((*r, o));
        i = i + 1;
    }
    proof {
        assert forall|a: int, b: int| 0 <= a < b < p@.len() implies remote_less(#[trigger] p@[a].0, #[trigger] p@[b].0) by {
            assert(p@[a].0 == m.entries()[a].0 && p@[b].0 == m.entries()[b].0);
        }
    }
    p
}

/// A remote identifier map seen through the bits of its owners.
pub open spec fn owner_bits<V: LocalId>(m: Map<RemoteSeriesId, V>) -> Map<RemoteSeriesId, u128> {
    m.map_values(|v: V| v.bits_spec())
}

/// `g` is the export of map `m`: the remote identifiers grouped by owner,
/// owners strictly increasing, each group non-empty and strictly increasing,
/// and every identifier of `m` in the group of its owner.
pub open spec fn export_of(m: Map<RemoteSeriesId, u128>, g: Seq<(u128, Seq<RemoteSeriesId>)>) -> bool {
    &&& owners_increase(g)
    &&& groups_nonempty(g)
    &&& members_increase(g)
    &&& forall|a: int, j: int|
        0 <= a < g.len() && 0 <= j < g[a].1.len() ==> m.contains_key(#[trigger] g[a].1[j]) && m[g[a].1[j]]
            == g[a].0
    &&& forall|r: RemoteSeriesId| #[trigger] m.contains_key(r) ==> in_groups(g, (r, m[r]))
}

/// An episode map keyed by the identifiers seen as series identifiers.
pub open spec fn episodes_by_series_key(m: Map<RemoteEpisodeId, EpisodeId>) -> Map<RemoteSeriesId, EpisodeId> {
    Map::new(|r: RemoteSeriesId| m.contains_key(series_as_episode(r)), |r: RemoteSeriesId| m[series_as_episode(r)])
}

/// An exported record as plain values.
pub enum RemoteIdsModel {
    Series { uuid: SeriesId, remotes: Seq<RemoteSeriesId> },
    Movies { uuid: MovieId, remotes: Seq<RemoteSeriesId> },
    Episode { uuid: EpisodeId, remotes: Seq<RemoteEpisodeId> },
}

pub open spec fn remote_ids_model(x: RemoteIds) -> RemoteIdsModel {
    match x {
        RemoteIds::Series { uuid, remotes } => RemoteIdsModel::Series { uuid, remotes: remotes@ },
        RemoteIds::Movies { uuid, remotes } => RemoteIdsModel::Movies { uuid, remotes: remotes@ },
        RemoteIds::Episode { uuid, remotes } => RemoteIdsModel::Episode { uuid, remotes: remotes@ },
    }
}

/// Exported records as plain values.
pub open spec fn records_model(r: Seq<RemoteIds>) -> Seq<RemoteIdsModel> {
    r.map_values(|x: RemoteIds| remote_ids_model(x))
}

proof fn lemma_records_push(s: Seq<RemoteIds>, x: RemoteIds)
    ensures
        records_model(s.push(x)) == records_model(s).push(remote_ids_model(x)),
{
    assert(records_model(s.push(x)) =~= records_model(s).push(remote_ids_model(x)));
}

pub open spec fn series_records(g: Seq<(u128, Seq<RemoteSeriesId>)>) -> Seq<RemoteIdsModel> {
    g.map_values(|x: (u128, Seq<RemoteSeriesId>)| RemoteIdsModel::Series { uuid: SeriesId(x.0), remotes: x.1 })
}

pub open spec fn movie_records(g: Seq<(u128, Seq<RemoteSeriesId>)>) -> Seq<RemoteIdsModel> {
    g.map_values(|x: (u128, Seq<RemoteSeriesId>)| RemoteIdsModel::Movies { uuid: MovieId(x.0), remotes: x.1 })
}

pub open spec fn episode_records(g: Seq<(u128, Seq<RemoteSeriesId>)>) -> Seq<RemoteIdsModel> {
    g.map_values(
        |x: (u128, Seq<RemoteSeriesId>)|
            RemoteIdsModel::Episode {
                uuid: EpisodeId(x.0),
                remotes: x.1.map_values(|r: RemoteSeriesId| series_as_episode(r)),
            },
    )
}

/// The grouping of the pairs of a sorted map is its export.
proof fn lemma_export_of<V: LocalId>(m: &RemoteMap<V>, p: Seq<(RemoteSeriesId, u128)>, g: Seq<(u128, Seq<RemoteSeriesId>)>)
    requires
        m.wf(),
        p.len() == m.entries().len(),
        forall|i: int| 0 <= i < p.len() ==> #[trigger] p[i] == (m.entries()[i].0, m.entries()[i].1.bits_spec()),
        grouped(p, g),
    ensures
        export_of(owner_bits(m@), g),
{
    m.lemma_view();
    let b = owner_bits(m@);
    assert forall|a: int, j: int| 0 <= a < g.len() && 0 <= j < g[a].1.len() implies b.contains_key(
        #[trigger] g[a].1[j],
    ) && b[g[a].1[j]] == g[a].0 by {
        assert(p.contains((g[a].1[j], g[a].0)));
        let i = choose|i: int| 0 <= i < p.len() && p[i] == (g[a].1[j], g[a].0);
        assert(p[i] == (m.entries()[i].0, m.entries()[i].1.bits_spec()));
        assert(m@.contains_key(m.entries()[i].0));
    }
    assert forall|r: RemoteSeriesId| #[trigger] b.contains_key(r) implies in_groups(g, (r, b[r])) by {
        assert(m@.contains_key(r));
        let i = choose|i: int| 0 <= i < m.entries().len() && m.entries()[i].0 == r;
        assert(p[i] == (m.entries()[i].0, m.entries()[i].1.bits_spec()));
        assert(in_groups(g, p[i]));
    }
}

fn series_record(x: (u128, Vec<RemoteSeriesId>)) -> (r: RemoteIds)
    ensures
        remote_ids_model(r) == (RemoteIdsModel::Series { uuid: SeriesId(x.0), remotes: x.1@ }),
{
    RemoteIds::Series { uuid: SeriesId(x.0), remotes: x.1 }
}

fn movie_record(x: (u128, Vec<RemoteSeriesId>)) -> (r: RemoteIds)
    ensures
        remote_ids_model(r) == (RemoteIdsModel::Movies { uuid: MovieId(x.0), remotes: x.1@ }),
{
    RemoteIds::Movies { uuid: MovieId(x.0), remotes: x.1 }
}

fn episode_record(x: (u128, Vec<RemoteSeriesId>)) -> (r: RemoteIds)
    ensures
        remote_ids_model(r) == (RemoteIdsModel::Episode {
            uuid: EpisodeId(x.0),
            remotes: x.1@.map_values(|r: RemoteSeriesId| series_as_episode(r)),
        }),
{
    let mut remotes: Vec<RemoteEpisodeId> = Vec::new();
    let mut i: usize = 0;
    while i < x.1.len()
        invariant
            i <= x.1@.len(),
            remotes@ == x.1@.take(i as int).map_values(|r: RemoteSeriesId| series_as_episode(r)),
        decreases x.1@.len() - i,
    {
        remotes.push(as_episode(&x.1[i]));
        i = i + 1;
        assert(remotes@ =~= x.1@.take(i as int).map_values(|r: RemoteSeriesId| series_as_episode(r)));
    }
    assert(x.1@.take(i as int) =~= x.1@);
    RemoteIds::Episode { uuid: EpisodeId(x.0), remotes }
}

/// The local identifier of the first of `ids` that `m` knows.
pub open spec fn first_known<K, V>(ids: Seq<K>, m: Map<K, V>) -> Option<V>
    decreases ids.len(),
{
    if ids.len() == 0 {
        None
    } else if m.contains_key(ids[0]) {
        Some(m[ids[0]])
    } else {
        first_known(ids.drop_first(), m)
    }
}

proof fn lemma_first_known_step<K, V>(ids: Seq<K>, m: Map<K, V>, i: int)
    requires
        0 <= i < ids.len(),
        forall|j: int| 0 <= j < i ==> !m.contains_key(#[trigger] ids[j]),
    ensures
        first_known(ids, m) == first_known(ids.skip(i), m),
    decreases i,
{
    if i > 0 {
        assert(ids.skip(1) =~= ids.drop_first());
        lemma_first_known_step(ids.drop_first(), m, i - 1);
        assert(ids.drop_first().skip(i - 1) =~= ids.skip(i));
    } else {
        assert(ids.skip(0) =~= ids);
    }
}

proof fn lemma_first_known_none<K, V>(ids: Seq<K>, m: Map<K, V>)
    requires
        forall|j: int| 0 <= j < ids.len() ==> !m.contains_key(#[trigger] ids[j]),
    ensures
        first_known(ids, m) is None,
    decreases ids.len(),
{
    if ids.len() > 0 {
        assert forall|j: int| 0 <= j < ids.drop_first().len() implies !m.contains_key(#[trigger] ids.drop_first()[j]) by {
            assert(ids.drop_first()[j] == ids[j + 1]);
        }
        lemma_first_known_none(ids.drop_first(), m);
    }
}

/// `r` is an export of the database `m`: the series, then the movies, then
/// the episodes, each grouped by local identifier.
pub open spec fn remotes_export_of(m: RemotesModel, r: Seq<RemoteIdsModel>) -> bool {
    exists|gs: Seq<(u128, Seq<RemoteSeriesId>)>, gm: Seq<(u128, Seq<RemoteSeriesId>)>, ge: Seq<(u128, Seq<RemoteSeriesId>)>|
        {
            &&& export_of(owner_bits(m.series), gs)
            &&& export_of(owner_bits(m.movies), gm)
            &&& export_of(owner_bits(episodes_by_series_key(m.episodes)), ge)
            &&& r == series_records(gs) + movie_records(gm) + episode_records(ge)
        }
}

/// Database of remote identifiers.
impl RemotesDatabase {
    /// What the database records.
    pub closed spec fn view(&self) -> RemotesModel {
        RemotesModel {
            series: self.series@,
            movies: self.movies@,
            episodes: Map::new(
                |e: RemoteEpisodeId| self.episodes@.contains_key(episode_as_series(e)),
                |e: RemoteEpisodeId| self.episodes@[episode_as_series(e)],
            ),
            by_series: Map::new(
                |s: SeriesId| set_index(self.by_series).contains_key(s.0),
                |s: SeriesId| set_index(self.by_series)[s.0],
            ),
            by_movie: Map::new(
                |s: MovieId| set_index(self.by_movie).contains_key(s.0),
                |s: MovieId| set_index(self.by_movie)[s.0],
            ),
        }
    }

    /// The invariant of the database.
    pub closed spec fn wf(&self) -> bool {
        &&& self.series.wf()
        &&& self.movies.wf()
        &&& self.episodes.wf()
        &&& set_index_wf(self.by_series)
        &&& set_index_wf(self.by_movie)
    }

    /// An empty database.
    pub fn new() -> (db: RemotesDatabase)
        ensures
            db.wf(),
            db.view().series == Map::<RemoteSeriesId, SeriesId>::empty(),
            db.view().movies == Map::<RemoteSeriesId, MovieId>::empty(),
            db.view().episodes == Map::<RemoteEpisodeId, EpisodeId>::empty(),
            db.view().by_series == Map::<SeriesId, Set<RemoteSeriesId>>::empty(),
            db.view().by_movie == Map::<MovieId, Set<RemoteSeriesId>>::empty(),
    {
        let db = RemotesDatabase {
            series: RemoteMap::new(),
            movies: RemoteMap::new(),
            episodes: RemoteMap::new(),
            by_series: HashMap::new(),
            by_movie: HashMap::new(),
        };
        assert(db.view().episodes =~= Map::<RemoteEpisodeId, EpisodeId>::empty());
        assert(db.view().by_series =~= Map::<SeriesId, Set<RemoteSeriesId>>::empty());
        assert(db.view().by_movie =~= Map::<MovieId, Set<RemoteSeriesId>>::empty());
        db
    }

    /// The series that a remote identifier stands for.
    pub fn get_series(&self, remote_id: &RemoteSeriesId) -> (r: Option<SeriesId>)
        requires
            self.wf(),
        ensures
            r == (if self.view().series.contains_key(*remote_id) {
                Some(self.view().series[*remote_id])
            } else {
                None
            }),
    {
        match self.series.get(remote_id) {
            Some(id) => Some(*id),
            None => None,
        }
    }

    /// The movie that a remote identifier stands for.
    pub fn get_movie(&self, remote_id: &RemoteSeriesId) -> (r: Option<MovieId>)
        requires
            self.wf(),
        ensures
            r == (if self.view().movies.contains_key(*remote_id) {
                Some(self.view().movies[*remote_id])
            } else {
                None
            }),
    {
        match self.movies.get(remote_id) {
            Some(id) => Some(*id),
            None => None,
        }
    }

    /// The series that a remote identifier stands for.
    pub fn find_series_by_remote(&self, remote_id: RemoteSeriesId) -> (r: Option<SeriesId>)
        requires
            self.wf(),
        ensures
            r == (if self.view().series.contains_key(remote_id) {
                Some(self.view().series[remote_id])
            } else {
                None
            }),
    {
        self.get_series(&remote_id)
    }

    /// The movie that a remote identifier stands for.
    pub fn find_movie_by_remote(&self, remote_id: RemoteSeriesId) -> (r: Option<MovieId>)
        requires
            self.wf(),
        ensures
            r == (if self.view().movies.contains_key(remote_id) {
                Some(self.view().movies[remote_id])
            } else {
                None
            }),
    {
        self.get_movie(&remote_id)
    }

    /// The episode that a remote identifier stands for.
    pub fn find_episode_by_remote(&self, remote_id: RemoteEpisodeId) -> (r: Option<EpisodeId>)
        requires
            self.wf(),
        ensures
            r == (if self.view().episodes.contains_key(remote_id) {
                Some(self.view().episodes[remote_id])
            } else {
                None
            }),
    {
        match self.episodes.get(&remote_id.as_series()) {
            Some(id) => Some(*id),
            None => None,
        }
    }

    /// The remote identifiers recorded for a series, in order.
    pub fn get_by_series(&self, series_id: &SeriesId) -> (r: Vec<RemoteSeriesId>)
        requires
            self.wf(),
        ensures
            r@.to_set() == (if self.view().by_series.contains_key(*series_id) {
                self.view().by_series[*series_id]
            } else {
                Set::<RemoteSeriesId>::empty()
            }),
            forall|i: int, j: int| 0 <= i < j < r@.len() ==> remote_less(#[trigger] r@[i], #[trigger] r@[j]),
    {
        set_index_members(&self.by_series, series_id.0)
    }

    /// The remote identifiers recorded for a movie, in order.
    pub fn get_by_movie(&self, movie_id: &MovieId) -> (r: Vec<RemoteSeriesId>)
        requires
            self.wf(),
        ensures
            r@.to_set() == (if self.view().by_movie.contains_key(*movie_id) {
                self.view().by_movie[*movie_id]
            } else {
                Set::<RemoteSeriesId>::empty()
            }),
            forall|i: int, j: int| 0 <= i < j < r@.len() ==> remote_less(#[trigger] r@[i], #[trigger] r@[j]),
    {
        set_index_members(&self.by_movie, movie_id.0)
    }

    /// Record that `remote_id` stands for `series_id`; returns whether that
    /// changed what it stood for.
    pub fn insert_series(&mut self, remote_id: RemoteSeriesId, series_id: SeriesId) -> (r: bool)
        requires
            old(self).wf(),
        ensures
            final(self).wf(),
            r == !(old(self).view().series.contains_key(remote_id) && old(self).view().series[remote_id]
                == series_id),
            final(self).view().series == old(self).view().series.insert(remote_id, series_id),
            final(self).view().by_series == old(self).view().by_series.insert(
                series_id,
                if old(self).view().by_series.contains_key(series_id) {
                    old(self).view().by_series[series_id].insert(remote_id)
                } else {
                    set![remote_id]
                },
            ),
            final(self).view().movies == old(self).view().movies,
            final(self).view().episodes == old(self).view().episodes,
            final(self).view().by_movie == old(self).view().by_movie,
    {
        let replaced = self.series.insert(remote_id, series_id);
        set_index_add(&mut self.by_series, series_id.0, remote_id);
        proof {
            let ob = old(self).view().by_series;
            assert(self.view().by_series =~= ob.insert(
                series_id,
                if ob.contains_key(series_id) {
                    ob[series_id].insert(remote_id)
                } else {
                    set![remote_id]
                },
            ));
            assert(self.view().episodes =~= old(self).view().episodes);
            assert(self.view().by_movie =~= old(self).view().by_movie);
        }
        match replaced {
            Some(id) => id != series_id,
            None => true,
        }
    }

    /// Record that `remote_id` stands for `movie_id`; returns whether that
    /// changed what it stood for.
    pub fn insert_movie(&mut self, remote_id: RemoteSeriesId, movie_id: MovieId) -> (r: bool)
        requires
            old(self).wf(),
        ensures
            final(self).wf(),
            r == !(old(self).view().movies.contains_key(remote_id) && old(self).view().movies[remote_id]
                == movie_id),
            final(self).view().movies == old(self).view().movies.insert(remote_id, movie_id),
            final(self).view().by_movie == old(self).view().by_movie.insert(
                movie_id,
                if old(self).view().by_movie.contains_key(movie_id) {
                    old(self).view().by_movie[movie_id].insert(remote_id)
                } else {
                    set![remote_id]
                },
            ),
            final(self).view().series == old(self).view().series,
            final(self).view().episodes == old(self).view().episodes,
            final(self).view().by_series == old(self).view().by_series,
    {
        let replaced = self.movies.insert(remote_id, movie_id);
        set_index_add(&mut self.by_movie, movie_id.0, remote_id);
        proof {
            let ob = old(self).view().by_movie;
            assert(self.view().by_movie =~= ob.insert(
                movie_id,
                if ob.contains_key(movie_id) {
                    ob[movie_id].insert(remote_id)
                } else {
                    set![remote_id]
                },
            ));
            assert(self.view().episodes =~= old(self).view().episodes);
            assert(self.view().by_series =~= old(self).view().by_series);
        }
        match replaced {
            Some(id) => id != movie_id,
            None => true,
        }
    }

    /// Record that `remote_id` stands for `episode_id`; returns whether that
    /// changed what it stood for.
    pub fn insert_episode(&mut self, remote_id: RemoteEpisodeId, episode_id: EpisodeId) -> (r: bool)
        requires
            old(self).wf(),
        ensures
            final(self).wf(),
            r == !(old(self).view().episodes.contains_key(remote_id) && old(self).view().episodes[remote_id]
                == episode_id),
            final(self).view().episodes == old(self).view().episodes.insert(remote_id, episode_id),
            final(self).view().series == old(self).view().series,
            final(self).view().movies == old(self).view().movies,
            final(self).view().by_series == old(self).view().by_series,
            final(self).view().by_movie == old(self).view().by_movie,
    {
        let key = remote_id.as_series();
        let replaced = self.episodes.insert(key, episode_id);
        proof {
            let oe = old(self).view().episodes;
            assert forall|e: RemoteEpisodeId| #[trigger] self.view().episodes.contains_key(e) <==> oe.insert(
                remote_id,
                episode_id,
            ).contains_key(e) by {
                if episode_as_series(e) == key {
                    assert(e == remote_id) by {
                        assert(series_as_episode(episode_as_series(e)) == e);
                        assert(series_as_episode(episode_as_series(remote_id)) == remote_id);
                    }
                }
            }
            assert forall|e: RemoteEpisodeId| #[trigger] self.view().episodes.contains_key(e) implies self.view().episodes[e]
                == oe.insert(remote_id, episode_id)[e] by {
                if episode_as_series(e) == key {
                    assert(e == remote_id) by {
                        assert(series_as_episode(episode_as_series(e)) == e);
                        assert(series_as_episode(episode_as_series(remote_id)) == remote_id);
                    }
                }
            }
            assert(self.view().episodes =~= oe.insert(remote_id, episode_id));
            assert(self.view().by_series =~= old(self).view().by_series);
            assert(self.view().by_movie =~= old(self).view().by_movie);
        }
        match replaced {
            Some(id) => id != episode_id,
            None => true,
        }
    }

    /// The series of the first of `ids` that is known.
    pub fn lookup_series(&self, ids: &[RemoteSeriesId]) -> (r: Option<SeriesId>)
        requires
            self.wf(),
        ensures
            r == first_known(ids@, self.view().series),
    {
        let mut i: usize = 0;
        while i < ids.len()
            invariant
                self.wf(),
                i <= ids@.len(),
                forall|j: int| 0 <= j < i ==> !self.view().series.contains_key(#[trigger] ids@[j]),
            decreases ids@.len() - i,
        {
            if let Some(id) = self.get_series(&ids[i]) {
                proof {
                    lemma_first_known_step(ids@, self.view().series, i as int);
                }
                return Some(id);
            }
            i = i + 1;
        }
        proof {
            lemma_first_known_none(ids@, self.view().series);
        }
        None
    }

    /// The movie of the first of `ids` that is known.
    pub fn lookup_movie(&self, ids: &[RemoteSeriesId]) -> (r: Option<MovieId>)
        requires
            self.wf(),
        ensures
            r == first_known(ids@, self.view().movies),
    {
        let mut i: usize = 0;
        while i < ids.len()
            invariant
                self.wf(),
                i <= ids@.len(),
                forall|j: int| 0 <= j < i ==> !self.view().movies.contains_key(#[trigger] ids@[j]),
            decreases ids@.len() - i,
        {
            if let Some(id) = self.get_movie(&ids[i]) {
                proof {
                    lemma_first_known_step(ids@, self.view().movies, i as int);
                }
                return Some(id);
            }
            i = i + 1;
        }
        proof {
            lemma_first_known_none(ids@, self.view().movies);
        }
        None
    }

    /// The episode of the first of `ids` that is known.
    pub fn lookup_episode(&self, ids: &[RemoteEpisodeId]) -> (r: Option<EpisodeId>)
        requires
            self.wf(),
        ensures
            r == first_known(ids@, self.view().episodes),
    {
        let mut i: usize = 0;
        while i < ids.len()
            invariant
                self.wf(),
                i <= ids@.len(),
                forall|j: int| 0 <= j < i ==> !self.view().episodes.contains_key(#[trigger] ids@[j]),
            decreases ids@.len() - i,
        {
            if let Some(id) = self.find_episode_by_remote(ids[i]) {
                proof {
                    lemma_first_known_step(ids@, self.view().episodes, i as int);
                }
                return Some(id);
            }
            i = i + 1;
        }
        proof {
            lemma_first_known_none(ids@, self.view().episodes);
        }
        None
    }

    /// Export the contents of the database: the series, then the movies,
    /// then the episodes, each grouped by local identifier.
    pub fn export(&self) -> (r: Vec<RemoteIds>)
        requires
            self.wf(),
        ensures
            remotes_export_of(self.view(), records_model(r@)),
    {
        let ps = map_pairs(&self.series);
        let pm = map_pairs(&self.movies);
        let pe = map_pairs(&self.episodes);
        let gs = group_by_owner(&ps);
        let gm = group_by_owner(&pm);
        let ge = group_by_owner(&pe);
        proof {
            lemma_export_of(&self.series, ps@, groups_view(gs@));
            lemma_export_of(&self.movies, pm@, groups_view(gm@));
            lemma_export_of(&self.episodes, pe@, groups_view(ge@));
            assert forall|r: RemoteSeriesId| episode_as_series(series_as_episode(r)) == r by {}
            assert(episodes_by_series_key(self.view().episodes) =~= self.episodes@);
        }
        let ghost want = series_records(groups_view(gs@)) + movie_records(groups_view(gm@)) + episode_records(
            groups_view(ge@),
        );
        let mut out: Vec<RemoteIds> = Vec::new();
        let ghost n1 = gs@.len();
        let ghost n2 = gm@.len();
        let mut gs = gs;
        let mut gm = gm;
        let mut ge = ge;
        let ghost gs0 = gs@;
        let ghost gm0 = gm@;
        let ghost ge0 = ge@;
        let mut i: usize = 0;
        let ns = gs.len();
        while i < ns
            invariant
                ns == gs0.len(),
                i <= ns,
                gs@ == gs0.skip(i as int),
                records_model(out@) == series_records(groups_view(gs0)).take(i as int),
            decreases ns - i,
        {
            let x = gs.remove(0);
            assert(x == gs0[i as int]);
            let rec = series_record(x);
            assert(remote_ids_model(rec) == series_records(groups_view(gs0))[i as int]);
            proof {
                lemma_records_push(out@, rec);
            }
            out.push(rec);
            i = i + 1;
            assert(gs@ =~= gs0.skip(i as int));
            assert(records_model(out@) =~= series_records(groups_view(gs0)).take(i as int));
        }
        let ghost done1 = records_model(out@);
        assert(done1 =~= series_records(groups_view(gs0)));
        let mut i: usize = 0;
        let nm = gm.len();
        while i < nm
            invariant
                nm == gm0.len(),
                i <= nm,
                gm@ == gm0.skip(i as int),
                records_model(out@) == done1 + movie_records(groups_view(gm0)).take(i as int),
            decreases nm - i,
        {
            let x = gm.remove(0);
            assert(x == gm0[i as int]);
            let rec = movie_record(x);
            assert(remote_ids_model(rec) == movie_records(groups_view(gm0))[i as int]);
            proof {
                lemma_records_push(out@, rec);
            }
            out.push(rec);
            i = i + 1;
            assert(gm@ =~= gm0.skip(i as int));
            assert(records_model(out@) =~= done1 + movie_records(groups_view(gm0)).take(i as int));
        }
        let ghost done2 = records_model(out@);
        assert(done2 =~= done1 + movie_records(groups_view(gm0)));
        let mut i: usize = 0;
        let ne = ge.len();
        while i < ne
            invariant
                ne == ge0.len(),
                i <= ne,
                ge@ == ge0.skip(i as int),
                records_model(out@) == done2 + episode_records(groups_view(ge0)).take(i as int),
            decreases ne - i,
        {
            let x = ge.remove(0);
            assert(x == ge0[i as int]);
            let rec = episode_record(x);
            assert(remote_ids_model(rec) == episode_records(groups_view(ge0))[i as int]);
            proof {
                lemma_records_push(out@, rec);
            }
            out.push(rec);
            i = i + 1;
            assert(ge@ =~= ge0.skip(i as int));
            assert(records_model(out@) =~= done2 + episode_records(groups_view(ge0)).take(i as int));
        }
        assert(records_model(out@) =~= want);
        out
    }
}

/// The database after recording that `r` stands for series `id`.
pub open spec fn series_remote_added(m: RemotesModel, r: RemoteSeriesId, id: SeriesId) -> RemotesModel {
    RemotesModel {
        series: m.series.insert(r, id),
        by_series: m.by_series.insert(
            id,
            if m.by_series.contains_key(id) {
                m.by_series[id].insert(r)
            } else {
                set![r]
            },
        ),
        ..m
    }
}

/// The database after recording that `r` stands for movie `id`.
pub open spec fn movie_remote_added(m: RemotesModel, r: RemoteSeriesId, id: MovieId) -> RemotesModel {
    RemotesModel {
        movies: m.movies.insert(r, id),
        by_movie: m.by_movie.insert(
            id,
            if m.by_movie.contains_key(id) {
                m.by_movie[id].insert(r)
            } else {
                set![r]
            },
        ),
        ..m
    }
}

/// The database after recording that `r` stands for episode `id`.
pub open spec fn episode_remote_added(m: RemotesModel, r: RemoteEpisodeId, id: EpisodeId) -> RemotesModel {
    RemotesModel { episodes: m.episodes.insert(r, id), ..m }
}

/// The database after recording each remote identifier of a record, in
/// order.
pub open spec fn record_applied(m: RemotesModel, rec: RemoteIdsModel) -> RemotesModel
    decreases (match rec {
        RemoteIdsModel::Series { remotes, .. } => remotes.len(),
        RemoteIdsModel::Movies { remotes, .. } => remotes.len(),
        RemoteIdsModel::Episode { remotes, .. } => remotes.len(),
    }),
{
    match rec {
        RemoteIdsModel::Series { uuid, remotes } => if remotes.len() == 0 {
            m
        } else {
            series_remote_added(
                record_applied(m, RemoteIdsModel::Series { uuid, remotes: remotes.drop_last() }),
                remotes.last(),
                uuid,
            )
        },
        RemoteIdsModel::Movies { uuid, remotes } => if remotes.len() == 0 {
            m
        } else {
            movie_remote_added(
                record_applied(m, RemoteIdsModel::Movies { uuid, remotes: remotes.drop_last() }),
                remotes.last(),
                uuid,
            )
        },
        RemoteIdsModel::Episode { uuid, remotes } => if remotes.len() == 0 {
            m
        } else {
            episode_remote_added(
                record_applied(m, RemoteIdsModel::Episode { uuid, remotes: remotes.drop_last() }),
                remotes.last(),
                uuid,
            )
        },
    }
}

/// The database after applying each record, in order.
pub open spec fn records_applied(m: RemotesModel, recs: Seq<RemoteIdsModel>) -> RemotesModel
    decreases recs.len(),
{
    if recs.len() == 0 {
        m
    } else {
        record_applied(records_applied(m, recs.drop_last()), recs.last())
    }
}

impl RemotesDatabase {
    /// Record what one exported record holds.
    pub fn import_record(&mut self, rec: RemoteIds)
        requires
            old(self).wf(),
        ensures
            final(self).wf(),
            final(self).view() == record_applied(old(self).view(), remote_ids_model(rec)),
    {
        match rec {
            RemoteIds::Series { uuid, remotes } => {
                let mut i: usize = 0;
                while i < remotes.len()
                    invariant
                        self.wf(),
                        i <= remotes@.len(),
                        self.view() == record_applied(
                            old(self).view(),
                            RemoteIdsModel::Series { uuid, remotes: remotes@.take(i as int) },
                        ),
                    decreases remotes@.len() - i,
                {
                    let ghost before = self.view();
                    let _ = self.insert_series(remotes[i], uuid);
                    proof {
                        assert(remotes@.take(i + 1).drop_last() =~= remotes@.take(i as int));
                        assert(self.view() == series_remote_added(before, remotes@[i as int], uuid));
                    }
                    i = i + 1;
                }
                assert(remotes@.take(i as int) =~= remotes@);
            },
            RemoteIds::Movies { uuid, remotes } => {
                let mut i: usize = 0;
                while i < remotes.len()
                    invariant
                        self.wf(),
                        i <= remotes@.len(),
                        self.view() == record_applied(
                            old(self).view(),
                            RemoteIdsModel::Movies { uuid, remotes: remotes@.take(i as int) },
                        ),
                    decreases remotes@.len() - i,
                {
                    let ghost before = self.view();
                    let _ = self.insert_movie(remotes[i], uuid);
                    proof {
                        assert(remotes@.take(i + 1).drop_last() =~= remotes@.take(i as int));
                        assert(self.view() == movie_remote_added(before, remotes@[i as int], uuid));
                    }
                    i = i + 1;
                }
                assert(remotes@.take(i as int) =~= remotes@);
            },
            RemoteIds::Episode { uuid, remotes } => {
                let mut i: usize = 0;
                while i < remotes.len()
                    invariant
                        self.wf(),
                        i <= remotes@.len(),
                        self.view() == record_applied(
                            old(self).view(),
                            RemoteIdsModel::Episode { uuid, remotes: remotes@.take(i as int) },
                        ),
                    decreases remotes@.len() - i,
                {
                    let ghost before = self.view();
                    let _ = self.insert_episode(remotes[i], uuid);
                    proof {
                        assert(remotes@.take(i + 1).drop_last() =~= remotes@.take(i as int));
                        assert(self.view() == episode_remote_added(before, remotes@[i as int], uuid));
                    }
                    i = i + 1;
                }
                assert(remotes@.take(i as int) =~= remotes@);
            },
        }
    }

    /// Record what each exported record holds, in order.
    pub fn import(&mut self, records: Vec<RemoteIds>)
        requires
            old(self).wf(),
        ensures
            final(self).wf(),
            final(self).view() == records_applied(old(self).view(), records_model(records@)),
    {
        let ghost orig = records@;
        let ghost all = records_model(orig);
        let mut records = records;
        let n: usize = records.len();
        assert(orig.len() == n);
        let mut i: usize = 0;
        assert(all.take(0) =~= Seq::<RemoteIdsModel>::empty());
        while records.len() > 0
            invariant
                self.wf(),
                all == records_model(orig),
                records@ == orig.skip(i as int),
                i <= orig.len(),
                orig.len() <= usize::MAX,
                self.view() == records_applied(old(self).view(), all.take(i as int)),
            decreases records@.len(),
        {
            let rec = records.remove(0);
            proof {
                assert(rec == orig[i as int]);
                assert(all.take(i + 1).drop_last() =~= all.take(i as int));
            }
            self.import_record(rec);
            i = i + 1;
            proof {
                assert(records@ =~= orig.skip(i as int));
            }
        }
        assert(all.take(i as int) =~= all);
    }
}

/// Whether any group holds the remote identifier.
pub open spec fn in_any_group(g: Seq<(u128, Seq<RemoteSeriesId>)>, r: RemoteSeriesId) -> bool {
    exists|a: int| 0 <= a < g.len() && #[trigger] g[a].1.contains(r)
}

proof fn lemma_contains_push<A>(s: Seq<A>, x: A, k: A)
    ensures
        s.push(x).contains(k) <==> (s.contains(k) || k == x),
{
    if s.contains(k) {
        let i = choose|i: int| 0 <= i < s.len() && s[i] == k;
        assert(s.push(x)[i] == k);
    }
    if k == x {
        assert(s.push(x)[s.len() as int] == k);
    }
    if s.push(x).contains(k) {
        let i = choose|i: int| 0 <= i < s.push(x).len() && s.push(x)[i] == k;
        if i < s.len() {
            assert(s[i] == k);
        }
    }
}

proof fn lemma_records_append(m: RemotesModel, s: Seq<RemoteIdsModel>, t: Seq<RemoteIdsModel>)
    ensures
        records_applied(m, s + t) == records_applied(records_applied(m, s), t),
    decreases t.len(),
{
    if t.len() == 0 {
        assert(s + t =~= s);
    } else {
        lemma_records_append(m, s, t.drop_last());
        assert((s + t).drop_last() =~= s + t.drop_last());
        assert((s + t).last() == t.last());
    }
}

proof fn lemma_series_record(m: RemotesModel, uuid: SeriesId, remotes: Seq<RemoteSeriesId>)
    ensures
        record_applied(m, RemoteIdsModel::Series { uuid, remotes }).movies == m.movies,
        record_applied(m, RemoteIdsModel::Series { uuid, remotes }).episodes == m.episodes,
        forall|k: RemoteSeriesId|
            #[trigger] record_applied(m, RemoteIdsModel::Series { uuid, remotes }).series.contains_key(k)
                <==> (m.series.contains_key(k) || remotes.contains(k)),
        forall|k: RemoteSeriesId|
            #[trigger] record_applied(m, RemoteIdsModel::Series { uuid, remotes }).series.contains_key(k)
                ==> record_applied(m, RemoteIdsModel::Series { uuid, remotes }).series[k] == if remotes.contains(k) {
                uuid
            } else {
                m.series[k]
            },
    decreases remotes.len(),
{
    if remotes.len() > 0 {
        let d = remotes.drop_last();
        lemma_series_record(m, uuid, d);
        assert(remotes =~= d.push(remotes.last()));
        assert forall|k: RemoteSeriesId| remotes.contains(k) <==> (d.contains(k) || k == remotes.last()) by {
            lemma_contains_push(d, remotes.last(), k);
        }
    }
}

proof fn lemma_movie_record(m: RemotesModel, uuid: MovieId, remotes: Seq<RemoteSeriesId>)
    ensures
        record_applied(m, RemoteIdsModel::Movies { uuid, remotes }).series == m.series,
        record_applied(m, RemoteIdsModel::Movies { uuid, remotes }).episodes == m.episodes,
        forall|k: RemoteSeriesId|
            #[trigger] record_applied(m, RemoteIdsModel::Movies { uuid, remotes }).movies.contains_key(k)
                <==> (m.movies.contains_key(k) || remotes.contains(k)),
        forall|k: RemoteSeriesId|
            #[trigger] record_applied(m, RemoteIdsModel::Movies { uuid, remotes }).movies.contains_key(k)
                ==> record_applied(m, RemoteIdsModel::Movies { uuid, remotes }).movies[k] == if remotes.contains(k) {
                uuid
            } else {
                m.movies[k]
            },
    decreases remotes.len(),
{
    if remotes.len() > 0 {
        let d = remotes.drop_last();
        lemma_movie_record(m, uuid, d);
        assert(remotes =~= d.push(remotes.last()));
        assert forall|k: RemoteSeriesId| remotes.contains(k) <==> (d.contains(k) || k == remotes.last()) by {
            lemma_contains_push(d, remotes.last(), k);
        }
    }
}

proof fn lemma_episode_record(m: RemotesModel, uuid: EpisodeId, remotes: Seq<RemoteEpisodeId>)
    ensures
        record_applied(m, RemoteIdsModel::Episode { uuid, remotes }).series == m.series,
        record_applied(m, RemoteIdsModel::Episode { uuid, remotes }).movies == m.movies,
        forall|k: RemoteEpisodeId|
            #[trigger] record_applied(m, RemoteIdsModel::Episode { uuid, remotes }).episodes.contains_key(k)
                <==> (m.episodes.contains_key(k) || remotes.contains(k)),
        forall|k: RemoteEpisodeId|
            #[trigger] record_applied(m, RemoteIdsModel::Episode { uuid, remotes }).episodes.contains_key(k)
                ==> record_applied(m, RemoteIdsModel::Episode { uuid, remotes }).episodes[k] == if remotes.contains(k) {
                uuid
            } else {
                m.episodes[k]
            },
    decreases remotes.len(),
{
    if remotes.len() > 0 {
        let d = remotes.drop_last();
        lemma_episode_record(m, uuid, d);
        assert(remotes =~= d.push(remotes.last()));
        assert forall|k: RemoteEpisodeId| remotes.contains(k) <==> (d.contains(k) || k == remotes.last()) by {
            lemma_contains_push(d, remotes.last(), k);
        }
    }
}

/// Each member of each group has the group's owner in `bits`.
pub open spec fn members_owned(g: Seq<(u128, Seq<RemoteSeriesId>)>, bits: Map<RemoteSeriesId, u128>) -> bool {
    forall|a: int, j: int|
        0 <= a < g.len() && 0 <= j < g[a].1.len() ==> bits.contains_key(#[trigger] g[a].1[j]) && bits[g[a].1[j]]
            == g[a].0
}

proof fn lemma_group_member(g: Seq<(u128, Seq<RemoteSeriesId>)>, bits: Map<RemoteSeriesId, u128>, a: int, k: RemoteSeriesId)
    requires
        members_owned(g, bits),
        0 <= a < g.len(),
        g[a].1.contains(k),
    ensures
        bits.contains_key(k),
        bits[k] == g[a].0,
{
    let j = choose|j: int| 0 <= j < g[a].1.len() && g[a].1[j] == k;
    assert(bits.contains_key(g[a].1[j]));
}

proof fn lemma_drop_last_groups(g: Seq<(u128, Seq<RemoteSeriesId>)>, bits: Map<RemoteSeriesId, u128>, k: RemoteSeriesId)
    requires
        g.len() > 0,
        members_owned(g, bits),
    ensures
        members_owned(g.drop_last(), bits),
        in_any_group(g, k) <==> (in_any_group(g.drop_last(), k) || g.last().1.contains(k)),
{
    let p = g.drop_last();
    assert forall|a: int, j: int| 0 <= a < p.len() && 0 <= j < p[a].1.len() implies bits.contains_key(
        #[trigger] p[a].1[j],
    ) && bits[p[a].1[j]] == p[a].0 by {
        assert(p[a] == g[a]);
    }
    if in_any_group(g, k) {
        let a = choose|a: int| 0 <= a < g.len() && #[trigger] g[a].1.contains(k);
        if a < p.len() {
            assert(p[a] == g[a]);
        }
    }
    if in_any_group(p, k) {
        let a = choose|a: int| 0 <= a < p.len() && #[trigger] p[a].1.contains(k);
        assert(p[a] == g[a]);
    }
    if g.last().1.contains(k) {
        assert(g[g.len() - 1].1.contains(k));
    }
}

proof fn lemma_series_records(m: RemotesModel, g: Seq<(u128, Seq<RemoteSeriesId>)>, bits: Map<RemoteSeriesId, u128>)
    requires
        members_owned(g, bits),
    ensures
        records_applied(m, series_records(g)).movies == m.movies,
        records_applied(m, series_records(g)).episodes == m.episodes,
        forall|k: RemoteSeriesId|
            #[trigger] records_applied(m, series_records(g)).series.contains_key(k) <==> (m.series.contains_key(k)
                || in_any_group(g, k)),
        forall|k: RemoteSeriesId|
            #[trigger] records_applied(m, series_records(g)).series.contains_key(k) ==> records_applied(
                m,
                series_records(g),
            ).series[k] == if in_any_group(g, k) {
                SeriesId(bits[k])
            } else {
                m.series[k]
            },
    decreases g.len(),
{
    if g.len() > 0 {
        let p = g.drop_last();
        let last = g.last();
        assert forall|k: RemoteSeriesId| true implies (in_any_group(g, k) <==> (in_any_group(p, k)
            || last.1.contains(k))) by {
            lemma_drop_last_groups(g, bits, k);
        }
        lemma_drop_last_groups(g, bits, last.1.first());
        lemma_series_records(m, p, bits);
        assert(series_records(g).drop_last() =~= series_records(p));
        let x = records_applied(m, series_records(p));
        lemma_series_record(x, SeriesId(last.0), last.1);
        assert forall|k: RemoteSeriesId| last.1.contains(k) implies bits[k] == last.0 by {
            lemma_group_member(g, bits, g.len() - 1, k);
        }
    }
}

proof fn lemma_movie_records(m: RemotesModel, g: Seq<(u128, Seq<RemoteSeriesId>)>, bits: Map<RemoteSeriesId, u128>)
    requires
        members_owned(g, bits),
    ensures
        records_applied(m, movie_records(g)).series == m.series,
        records_applied(m, movie_records(g)).episodes == m.episodes,
        forall|k: RemoteSeriesId|
            #[trigger] records_applied(m, movie_records(g)).movies.contains_key(k) <==> (m.movies.contains_key(k)
                || in_any_group(g, k)),
        forall|k: RemoteSeriesId|
            #[trigger] records_applied(m, movie_records(g)).movies.contains_key(k) ==> records_applied(
                m,
                movie_records(g),
            ).movies[k] == if in_any_group(g, k) {
                MovieId(bits[k])
            } else {
                m.movies[k]
            },
    decreases g.len(),
{
    if g.len() > 0 {
        let p = g.drop_last();
        let last = g.last();
        assert forall|k: RemoteSeriesId| true implies (in_any_group(g, k) <==> (in_any_group(p, k)
            || last.1.contains(k))) by {
            lemma_drop_last_groups(g, bits, k);
        }
        lemma_drop_last_groups(g, bits, last.1.first());
        lemma_movie_records(m, p, bits);
        assert(movie_records(g).drop_last() =~= movie_records(p));
        let x = records_applied(m, movie_records(p));
        lemma_movie_record(x, MovieId(last.0), last.1);
        assert forall|k: RemoteSeriesId| last.1.contains(k) implies bits[k] == last.0 by {
            lemma_group_member(g, bits, g.len() - 1, k);
        }
    }
}

proof fn lemma_as_episode_contains(s: Seq<RemoteSeriesId>, e: RemoteEpisodeId)
    ensures
        s.map_values(|r: RemoteSeriesId| series_as_episode(r)).contains(e) <==> s.contains(
            episode_as_series(e),
        ),
{
    let t = s.map_values(|r: RemoteSeriesId| series_as_episode(r));
    if t.contains(e) {
        let i = choose|i: int| 0 <= i < t.len() && t[i] == e;
        assert(s[i] == episode_as_series(e));
    }
    if s.contains(episode_as_series(e)) {
        let i = choose|i: int| 0 <= i < s.len() && s[i] == episode_as_series(e);
        assert(t[i] == e);
    }
}

proof fn lemma_episode_records(m: RemotesModel, g: Seq<(u128, Seq<RemoteSeriesId>)>, bits: Map<RemoteSeriesId, u128>)
    requires
        members_owned(g, bits),
    ensures
        records_applied(m, episode_records(g)).series == m.series,
        records_applied(m, episode_records(g)).movies == m.movies,
        forall|e: RemoteEpisodeId|
            #[trigger] records_applied(m, episode_records(g)).episodes.contains_key(e) <==> (
            m.episodes.contains_key(e) || in_any_group(g, episode_as_series(e))),
        forall|e: RemoteEpisodeId|
            #[trigger] records_applied(m, episode_records(g)).episodes.contains_key(e) ==> records_applied(
                m,
                episode_records(g),
            ).episodes[e] == if in_any_group(g, episode_as_series(e)) {
                EpisodeId(bits[episode_as_series(e)])
            } else {
                m.episodes[e]
            },
    decreases g.len(),
{
    if g.len() > 0 {
        let p = g.drop_last();
        let last = g.last();
        assert forall|k: RemoteSeriesId| true implies (in_any_group(g, k) <==> (in_any_group(p, k)
            || last.1.contains(k))) by {
            lemma_drop_last_groups(g, bits, k);
        }
        lemma_drop_last_groups(g, bits, last.1.first());
        lemma_episode_records(m, p, bits);
        assert(episode_records(g).drop_last() =~= episode_records(p));
        let x = records_applied(m, episode_records(p));
        let remotes = last.1.map_values(|r: RemoteSeriesId| series_as_episode(r));
        lemma_episode_record(x, EpisodeId(last.0), remotes);
        assert forall|e: RemoteEpisodeId| remotes.contains(e) <==> last.1.contains(episode_as_series(e)) by {
            lemma_as_episode_contains(last.1, e);
        }
        assert forall|k: RemoteSeriesId| last.1.contains(k) implies bits[k] == last.0 by {
            lemma_group_member(g, bits, g.len() - 1, k);
        }
    }
}

proof fn lemma_export_members(m: Map<RemoteSeriesId, u128>, g: Seq<(u128, Seq<RemoteSeriesId>)>)
    requires
        export_of(m, g),
    ensures
        members_owned(g, m),
        forall|k: RemoteSeriesId| #[trigger] m.contains_key(k) <==> in_any_group(g, k),
{
    assert forall|k: RemoteSeriesId| #[trigger] m.contains_key(k) <==> in_any_group(g, k) by {
        if m.contains_key(k) {
            assert(in_groups(g, (k, m[k])));
            let a = choose|a: int| 0 <= a < g.len() && g[a].0 == m[k] && g[a].1.contains(k);
            assert(g[a].1.contains(k));
        }
        if in_any_group(g, k) {
            let a = choose|a: int| 0 <= a < g.len() && #[trigger] g[a].1.contains(k);
            let j = choose|j: int| 0 <= j < g[a].1.len() && g[a].1[j] == k;
            assert(m.contains_key(g[a].1[j]));
        }
    }
}

/// Importing an export of a remote database into an empty one gives back which series, movie
/// and episode each remote identifier stands for.
pub proof fn lemma_export_import_roundtrip(m: RemotesModel, r: Seq<RemoteIdsModel>)
    requires
        remotes_export_of(m, r),
    ensures
        records_applied(empty_remotes(), r).series == m.series,
        records_applied(empty_remotes(), r).movies == m.movies,
        records_applied(empty_remotes(), r).episodes == m.episodes,
{
    let (gs, gm, ge) = choose|gs: Seq<(u128, Seq<RemoteSeriesId>)>, gm: Seq<(u128, Seq<RemoteSeriesId>)>, ge: Seq<(u128, Seq<RemoteSeriesId>)>|
        {
            &&& export_of(owner_bits(m.series), gs)
            &&& export_of(owner_bits(m.movies), gm)
            &&& export_of(owner_bits(episodes_by_series_key(m.episodes)), ge)
            &&& r == series_records(gs) + movie_records(gm) + episode_records(ge)
        };
    let bs = owner_bits(m.series);
    let bm = owner_bits(m.movies);
    let be = owner_bits(episodes_by_series_key(m.episodes));
    lemma_export_members(bs, gs);
    lemma_export_members(bm, gm);
    lemma_export_members(be, ge);
    let e0 = empty_remotes();
    lemma_records_append(e0, series_records(gs) + movie_records(gm), episode_records(ge));
    lemma_records_append(e0, series_records(gs), movie_records(gm));
    let x1 = records_applied(e0, series_records(gs));
    let x2 = records_applied(x1, movie_records(gm));
    let x3 = records_applied(x2, episode_records(ge));
    lemma_series_records(e0, gs, bs);
    lemma_movie_records(x1, gm, bm);
    lemma_episode_records(x2, ge, be);
    assert forall|k: RemoteSeriesId| #[trigger] x1.series.contains_key(k) implies x1.series[k] == m.series[k] by {
        assert(bs.contains_key(k));
        assert(SeriesId(bs[k]) == m.series[k]);
    }
    assert forall|k: RemoteSeriesId| #[trigger] x1.series.contains_key(k) <==> m.series.contains_key(k) by {
        assert(bs.contains_key(k) <==> m.series.contains_key(k));
        assert(!e0.series.contains_key(k));
    }
    assert(x1.series =~= m.series);
    assert forall|k: RemoteSeriesId| #[trigger] x2.movies.contains_key(k) implies x2.movies[k] == m.movies[k] by {
        assert(bm.contains_key(k));
        assert(MovieId(bm[k]) == m.movies[k]);
    }
    assert forall|k: RemoteSeriesId| #[trigger] x2.movies.contains_key(k) <==> m.movies.contains_key(k) by {
        assert(bm.contains_key(k) <==> m.movies.contains_key(k));
        assert(!x1.movies.contains_key(k));
    }
    assert(x2.movies =~= m.movies);
    assert forall|e: RemoteEpisodeId| #[trigger] x3.episodes.contains_key(e) <==> m.episodes.contains_key(e) by {
        assert(series_as_episode(episode_as_series(e)) == e);
        assert(be.contains_key(episode_as_series(e)) <==> m.episodes.contains_key(e));
    }
    assert forall|e: RemoteEpisodeId| #[trigger] x3.episodes.contains_key(e) implies x3.episodes[e]
        == m.episodes[e] by {
        assert(series_as_episode(episode_as_series(e)) == e);
        assert(be.contains_key(episode_as_series(e)));
        assert(EpisodeId(be[episode_as_series(e)]) == m.episodes[e]);
    }
    assert(x3.episodes =~= m.episodes);
    assert(r == series_records(gs) + movie_records(gm) + episode_records(ge));
}

} // verus!
