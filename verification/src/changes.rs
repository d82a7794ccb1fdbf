use std::collections::HashSet;

use vstd::prelude::*;
use vstd::std_specs::iter::IteratorSpec;

use crate::ids::SeriesId;

verus! {

broadcast use {vstd::std_specs::hash::group_hash_axioms, vstd::seq_lib::group_seq_properties};

/// The members of a set of numbers, each once, in the set's own order.
fn set_members(s: &HashSet<u128>) -> (r: Vec<u128>)
    ensures
        r@.to_set() == s@,
        r@.no_duplicates(),
{
    let mut out: Vec<u128> = Vec::new();
    let ghost keys = IteratorSpec::remaining(&vstd::std_specs::hash::spec_hash_keys_iter(s));
    for x in it: s.iter()
        invariant
            it.seq() == keys,
            out@.len() == it.index(),
            it.index() <= keys.len(),
            forall|i: int| 0 <= i < out@.len() ==> out@[i] == *keys[i],
    {
        out.push(*x);
    }
    assert(out@.len() == keys.len());
    assert(out@ =~= keys.unref());
    out
}

/// A part of the database that has changed and is to be saved.
#[derive(Clone, Copy, PartialEq, Eq, Structural, Debug)]
pub enum Change {
    /// Configuration file has changed.
    Config,
    /// Synchronization change.
    Sync,
    /// Watched list has changed.
    Watched,
    /// Pending list has changed.
    Pending,
    /// Series list has changed.
    Series,
    /// Remotes list has changed.
    Remotes,
    /// Task queue has changed.
    Queue,
    /// Schedule changed.
    Schedule,
}

/// The slot of a change in a set of changes.
pub open spec fn change_slot(c: Change) -> int {
    match c {
        Change::Config => 0,
        Change::Sync => 1,
        Change::Watched => 2,
        Change::Pending => 3,
        Change::Series => 4,
        Change::Remotes => 5,
        Change::Queue => 6,
        Change::Schedule => 7,
    }
}

fn slot(c: Change) -> (r: usize)
    ensures
        r == change_slot(c),
        r < 8,
{
    match c {
        Change::Config => 0,
        Change::Sync => 1,
        Change::Watched => 2,
        Change::Pending => 3,
        Change::Series => 4,
        Change::Remotes => 5,
        Change::Queue => 6,
        Change::Schedule => 7,
    }
}

/// Changes to save, and series whose episodes and seasons are to be saved
/// or removed.
pub struct Changes {
    /// Set of changes, one flag per kind.
    set: [bool; 8],
    /// Series removed.
    remove: HashSet<u128>,
    /// Series added.
    add: HashSet<u128>,
}

/// What a set of changes holds.
pub struct ChangesModel {
    pub set: Set<Change>,
    pub remove: Set<u128>,
    pub add: Set<u128>,
}

impl ChangesModel {
    /// No series is marked both as added and as removed.
    pub open spec fn marks_apart(self) -> bool {
        self.add.disjoint(self.remove)
    }
}

impl Changes {
    /// What the changes hold.
    pub closed spec fn view(&self) -> ChangesModel {
        ChangesModel {
            set: Set::new(|c: Change| self.set@[change_slot(c)]),
            remove: self.remove@,
            add: self.add@,
        }
    }

    /// No changes.
    pub fn new() -> (c: Changes)
        ensures
            c.view().set == Set::<Change>::empty(),
            c.view().remove == Set::<u128>::empty(),
            c.view().add == Set::<u128>::empty(),
            c.view().marks_apart(),
    {
        let c = Changes { set: [false; 8], remove: HashSet::new(), add: HashSet::new() };
        assert(c.view().set =~= Set::<Change>::empty());
        c
    }

    /// Mark a change.
    pub fn change(&mut self, change: Change)
        ensures
            final(self).view().set == old(self).view().set.insert(change),
            final(self).view().remove == old(self).view().remove,
            final(self).view().add == old(self).view().add,
    {
        let i = slot(change);
        self.set[i] = true;
        proof {
            assert forall|c: Change| change_slot(c) == change_slot(change) implies c == change by {}
        }
        assert(self.view().set =~= old(self).view().set.insert(change));
    }

    /// Test if we contain the given change.
    pub fn contains(&self, change: Change) -> (r: bool)
        ensures
            r == self.view().set.contains(change),
    {
        self.set[slot(change)]
    }

    /// Whether anything is to be saved.
    pub fn has_changes(&self) -> (r: bool)
        ensures
            r == (self.view().set != Set::<Change>::empty() || self.view().remove != Set::<u128>::empty()
                || self.view().add != Set::<u128>::empty()),
    {
        let mut any = false;
        let mut i: usize = 0;
        while i < 8
            invariant
                i <= 8,
                any == exists|j: int| 0 <= j < i && self.set@[j],
            decreases 8 - i,
        {
            if self.set[i] {
                any = true;
            }
            i = i + 1;
        }
        proof {
            let all = [Change::Config, Change::Sync, Change::Watched, Change::Pending, Change::Series,
                Change::Remotes, Change::Queue, Change::Schedule];
            if any {
                let j = choose|j: int| 0 <= j < 8 && self.set@[j];
                let c = if j == 0 {
                    Change::Config
                } else if j == 1 {
                    Change::Sync
                } else if j == 2 {
                    Change::Watched
                } else if j == 3 {
                    Change::Pending
                } else if j == 4 {
                    Change::Series
                } else if j == 5 {
                    Change::Remotes
                } else if j == 6 {
                    Change::Queue
                } else {
                    Change::Schedule
                };
                assert(self.view().set.contains(c));
            } else {
                assert(self.view().set =~= Set::<Change>::empty());
            }
        }
        any || !self.remove.is_empty() || !self.add.is_empty()
    }

    /// Mark a series as added: its episodes and seasons are to be saved,
    /// and no longer removed.
    pub fn add_series(&mut self, id: &SeriesId)
        ensures
            final(self).view().set == old(self).view().set.insert(Change::Series),
            final(self).view().remove == old(self).view().remove.remove(id.0),
            final(self).view().add == old(self).view().add.insert(id.0),
            old(self).view().marks_apart() ==> final(self).view().marks_apart(),
    {
        proof {
            if self.view().marks_apart() {
                lemma_marks_stay_disjoint(self.view().add, self.view().remove, id.0);
            }
        }
        self.change(Change::Series);
        self.remove.remove(&id.0);
        self.add.insert(id.0);
    }

    /// Mark a series for removal: its episodes and seasons are to be
    /// removed, and no longer saved.
    pub fn remove_series(&mut self, id: &SeriesId)
        ensures
            final(self).view().set == old(self).view().set.insert(Change::Series),
            final(self).view().add == old(self).view().add.remove(id.0),
            final(self).view().remove == old(self).view().remove.insert(id.0),
            old(self).view().marks_apart() ==> final(self).view().marks_apart(),
    {
        proof {
            if self.view().marks_apart() {
                lemma_marks_stay_disjoint(self.view().add, self.view().remove, id.0);
            }
        }
        self.change(Change::Series);
        self.add.remove(&id.0);
        self.remove.insert(id.0);
    }

    /// Take the changes out, leaving none.
    pub fn take(&mut self) -> (r: Changes)
        ensures
            r.view() == old(self).view(),
            final(self).view().set == Set::<Change>::empty(),
            final(self).view().remove == Set::<u128>::empty(),
            final(self).view().add == Set::<u128>::empty(),
            final(self).view().marks_apart(),
    {
        let set = self.set;
        let mut remove: HashSet<u128> = HashSet::new();
        std::mem::swap(&mut remove, &mut self.remove);
        let mut add: HashSet<u128> = HashSet::new();
        std::mem::swap(&mut add, &mut self.add);
        self.set = [false; 8];
        assert(self.view().set =~= Set::<Change>::empty());
        let r = Changes { set, remove, add };
        assert(r.view().set =~= old(self).view().set);
        r
    }

    /// The series removed, each once.
    pub fn removed(&self) -> (r: Vec<SeriesId>)
        ensures
            id_bits(r@).to_set() == self.view().remove,
            id_bits(r@).no_duplicates(),
    {
        ids_of(&set_members(&self.remove))
    }

    /// The series added, each once.
    pub fn added(&self) -> (r: Vec<SeriesId>)
        ensures
            id_bits(r@).to_set() == self.view().add,
            id_bits(r@).no_duplicates(),
    {
        ids_of(&set_members(&self.add))
    }
}

/// The bits of each id.
pub open spec fn id_bits(s: Seq<SeriesId>) -> Seq<u128> {
    s.map_values(|x: SeriesId| x.0)
}

proof fn lemma_id_bits_push(s: Seq<SeriesId>, x: SeriesId)
    ensures
        id_bits(s.push(x)) == id_bits(s).push(x.0),
{
    assert(id_bits(s.push(x)) =~= id_bits(s).push(x.0));
}

fn ids_of(v: &Vec<u128>) -> (r: Vec<SeriesId>)
    ensures
        id_bits(r@) == v@,
{
    let mut out: Vec<SeriesId> = Vec::new();
    let mut i: usize = 0;
    assert(id_bits(out@) =~= v@.take(0));
    while i < v.len()
        invariant
            i <= v@.len(),
            id_bits(out@) == v@.take(i as int),
        decreases v@.len() - i,
    {
        proof {
            lemma_id_bits_push(out@, SeriesId(v@[i as int]));
        }
        out.push(SeriesId(v[i]));
        i = i + 1;
        assert(id_bits(out@) =~= v@.take(i as int));
    }
    assert(v@.take(i as int) =~= v@);
    out
}

/// Marking a series as added, or as removed, keeps the added and the removed series apart: the
/// series ends up in the one set it was last marked for. With `Changes::new`, which starts both
/// empty, and `take`, which leaves both empty, the two sets are apart in every state.
pub proof fn lemma_marks_stay_disjoint(add: Set<u128>, remove: Set<u128>, id: u128)
    requires
        add.disjoint(remove),
    ensures
        add.insert(id).disjoint(remove.remove(id)),
        add.remove(id).disjoint(remove.insert(id)),
{
}

} // verus!
