//! The older form of a remote identifier: a map with a `remote` key naming the service and an
//! `id` key holding the identifier, a number for `tvdb` and `tmdb` and a string for `imdb`.

use vstd::prelude::*;

use crate::raw::{zero_padded, Raw};
use crate::remote::{episode_as_series, RemoteEpisodeId, RemoteSeriesId};

verus! {

/// A value in the map form, as far as reading an identifier needs it.
#[derive(Clone, Debug)]
pub enum LegacyValue {
    /// A number that is a non-negative integer.
    Number(u64),
    /// A string, by its UTF-8 bytes.
    Text(Vec<u8>),
    /// Anything else: a negative or fractional number, a boolean, null, a list or a map.
    Other,
}

/// Why the map form of a remote identifier was refused.
#[derive(Clone, Copy, PartialEq, Eq, Structural, Debug)]
pub enum LegacyIdError {
    /// A key other than `remote` and `id`.
    UnsupportedKey,
    /// The value of `remote` is not a string.
    RemoteNotText,
    /// The map lacks `remote` or `id`.
    MissingRemoteOrId,
    /// The `id` does not fit the service: not a `u32` number for `tvdb` and `tmdb`, not a string
    /// for `imdb`.
    InvalidId,
    /// The `imdb` identifier is longer than 16 bytes.
    ImdbOverflow,
    /// The `remote` names no known service.
    UnknownKind,
}

/// The bytes of the key `remote`.
pub open spec fn remote_key() -> Seq<u8> {
    seq![114u8, 101u8, 109u8, 111u8, 116u8, 101u8]
}

/// The bytes of the key `id`.
pub open spec fn id_key() -> Seq<u8> {
    seq![105u8, 100u8]
}

/// The service and the identifier that the entries give, read in order: a later entry for the
/// same key replaces an earlier one; the first unknown key, or a `remote` that is not a string,
/// refuses the map.
pub open spec fn legacy_fields(e: Seq<(Vec<u8>, LegacyValue)>) -> Result<
    (Option<Seq<u8>>, Option<LegacyValue>),
    LegacyIdError,
>
    decreases e.len(),
{
    if e.len() == 0 {
        Ok((None, None))
    } else {
        match legacy_fields(e.drop_last()) {
            Err(x) => Err(x),
            Ok((remote, id)) => {
                let key = e.last().0@;
                let value = e.last().1;
                if key == remote_key() {
                    match value {
                        LegacyValue::Text(t) => Ok((Some(t@), id)),
                        _ => Err(LegacyIdError::RemoteNotText),
                    }
                } else if key == id_key() {
                    Ok((remote, Some(value)))
                } else {
                    Err(LegacyIdError::UnsupportedKey)
                }
            },
        }
    }
}

/// Whether `r` is what the service `remote` and the identifier `id` give.
pub open spec fn legacy_choice(
    remote: Seq<u8>,
    id: LegacyValue,
    r: Result<RemoteSeriesId, LegacyIdError>,
) -> bool {
    if remote == seq![116u8, 109u8, 100u8, 98u8] {
        match id {
            LegacyValue::Number(n) => if n <= u32::MAX {
                r == Ok::<RemoteSeriesId, LegacyIdError>(RemoteSeriesId::Tmdb { id: n as u32 })
            } else {
                r == Err::<RemoteSeriesId, LegacyIdError>(LegacyIdError::InvalidId)
            },
            _ => r == Err::<RemoteSeriesId, LegacyIdError>(LegacyIdError::InvalidId),
        }
    } else if remote == seq![116u8, 118u8, 100u8, 98u8] {
        match id {
            LegacyValue::Number(n) => if n <= u32::MAX {
                r == Ok::<RemoteSeriesId, LegacyIdError>(RemoteSeriesId::Tvdb { id: n as u32 })
            } else {
                r == Err::<RemoteSeriesId, LegacyIdError>(LegacyIdError::InvalidId)
            },
            _ => r == Err::<RemoteSeriesId, LegacyIdError>(LegacyIdError::InvalidId),
        }
    } else if remote == seq![105u8, 109u8, 100u8, 98u8] {
        match id {
            LegacyValue::Text(t) => if t@.len() <= 16 {
                r matches Ok(RemoteSeriesId::Imdb { id }) && id@ == zero_padded(t@, 16)
            } else {
                r == Err::<RemoteSeriesId, LegacyIdError>(LegacyIdError::ImdbOverflow)
            },
            _ => r == Err::<RemoteSeriesId, LegacyIdError>(LegacyIdError::InvalidId),
        }
    } else {
        r == Err::<RemoteSeriesId, LegacyIdError>(LegacyIdError::UnknownKind)
    }
}

/// Whether `r` is what reading the map entries `e` gives.
pub open spec fn legacy_series(
    e: Seq<(Vec<u8>, LegacyValue)>,
    r: Result<RemoteSeriesId, LegacyIdError>,
) -> bool {
    match legacy_fields(e) {
        Err(x) => r == Err::<RemoteSeriesId, LegacyIdError>(x),
        Ok((Some(remote), Some(id))) => legacy_choice(remote, id, r),
        Ok(_) => r == Err::<RemoteSeriesId, LegacyIdError>(LegacyIdError::MissingRemoteOrId),
    }
}

/// A refusal in a prefix of the entries refuses the whole map.
proof fn lemma_refusal_stays(e: Seq<(Vec<u8>, LegacyValue)>, k: int)
    requires
        0 <= k <= e.len(),
        legacy_fields(e.take(k)) is Err,
    ensures
        legacy_fields(e) == legacy_fields(e.take(k)),
    decreases e.len(),
{
    if k == e.len() {
        assert(e.take(k) =~= e);
    } else {
        assert(e.drop_last().take(k) =~= e.take(k));
        lemma_refusal_stays(e.drop_last(), k);
    }
}

/// Whether two byte slices hold the same bytes.
fn same_bytes(a: &[u8], b: &[u8]) -> (r: bool)
    ensures
        r == (a@ == b@),
{
    if a.len() != b.len() {
        return false;
    }
    let mut i: usize = 0;
    while i < a.len()
        invariant
            i <= a@.len() == b@.len(),
            forall|q: int| 0 <= q < i ==> a@[q] == b@[q],
        decreases a@.len() - i,
    {
        if a[i] != b[i] {
            return false;
        }
        i = i + 1;
    }
    assert(a@ =~= b@);
    true
}

/// The service and identifier of the entries in exec form: the index of the entry that gave
/// each.
pub open spec fn fields_at(
    e: Seq<(Vec<u8>, LegacyValue)>,
    remote_at: Option<usize>,
    id_at: Option<usize>,
) -> (Option<Seq<u8>>, Option<LegacyValue>) {
    (
        match remote_at {
            Some(j) => match e[j as int].1 {
                LegacyValue::Text(t) => Some(t@),
                _ => None,
            },
            None => None,
        },
        match id_at {
            Some(j) => Some(e[j as int].1),
            None => None,
        },
    )
}

fn choose_series(remote: &[u8], id: &LegacyValue) -> (r: Result<RemoteSeriesId, LegacyIdError>)
    ensures
        legacy_choice(remote@, *id, r),
{
    let tmdb: [u8; 4] = [116u8, 109u8, 100u8, 98u8];
    let tvdb: [u8; 4] = [116u8, 118u8, 100u8, 98u8];
    let imdb: [u8; 4] = [105u8, 109u8, 100u8, 98u8];
    assert(tmdb@ == seq![116u8, 109u8, 100u8, 98u8]);
    assert(tvdb@ == seq![116u8, 118u8, 100u8, 98u8]);
    assert(imdb@ == seq![105u8, 109u8, 100u8, 98u8]);
    if same_bytes(remote, tmdb.as_slice()) {
        match id {
            LegacyValue::Number(n) => if *n <= 0xffff_ffffu64 {
                Ok(RemoteSeriesId::Tmdb { id: *n as u32 })
            } else {
                Err(LegacyIdError::InvalidId)
            },
            _ => Err(LegacyIdError::InvalidId),
        }
    } else if same_bytes(remote, tvdb.as_slice()) {
        match id {
            LegacyValue::Number(n) => if *n <= 0xffff_ffffu64 {
                Ok(RemoteSeriesId::Tvdb { id: *n as u32 })
            } else {
                Err(LegacyIdError::InvalidId)
            },
            _ => Err(LegacyIdError::InvalidId),
        }
    } else if same_bytes(remote, imdb.as_slice()) {
        match id {
            LegacyValue::Text(t) => match Raw::<16>::new(t.as_slice()) {
                Some(raw) => Ok(RemoteSeriesId::Imdb { id: raw }),
                None => Err(LegacyIdError::ImdbOverflow),
            },
            _ => Err(LegacyIdError::InvalidId),
        }
    } else {
        Err(LegacyIdError::UnknownKind)
    }
}

impl RemoteSeriesId {
    /// Read a series identifier from the entries of its older map form, in the order they
    /// stand: `remote` names the service and `id` holds the identifier.
    pub fn from_legacy(entries: &Vec<(Vec<u8>, LegacyValue)>) -> (r: Result<
        RemoteSeriesId,
        LegacyIdError,
    >)
        ensures
            legacy_series(entries@, r),
    {
        let key_remote: [u8; 6] = [114u8, 101u8, 109u8, 111u8, 116u8, 101u8];
        let key_id: [u8; 2] = [105u8, 100u8];
        assert(key_remote@ == remote_key());
        assert(key_id@ == id_key());
        let ghost e = entries@;
        let mut remote_at: Option<usize> = None;
        let mut id_at: Option<usize> = None;
        let mut i: usize = 0;
        assert(e.take(0) =~= Seq::<(Vec<u8>, LegacyValue)>::empty());
        while i < entries.len()
            invariant
                e == entries@,
                i <= e.len(),
                key_remote@ == remote_key(),
                key_id@ == id_key(),
                remote_at matches Some(j) ==> j < i && e[j as int].1 is Text,
                id_at matches Some(j) ==> j < i,
                legacy_fields(e.take(i as int)) == Ok::<
                    (Option<Seq<u8>>, Option<LegacyValue>),
                    LegacyIdError,
                >(fields_at(e, remote_at, id_at)),
            decreases e.len() - i,
        {
            assert(e.take(i + 1).drop_last() =~= e.take(i as int));
            let key = entries[i].0.as_slice();
            if same_bytes(key, key_remote.as_slice()) {
                match &entries[i].1 {
                    LegacyValue::Text(_) => {
                        remote_at = Some(i);
                    },
                    _ => {
                        proof {
                            lemma_refusal_stays(e, i + 1);
                        }
                        return Err(LegacyIdError::RemoteNotText);
                    },
                }
            } else if same_bytes(key, key_id.as_slice()) {
                id_at = Some(i);
            } else {
                proof {
                    lemma_refusal_stays(e, i + 1);
                }
                return Err(LegacyIdError::UnsupportedKey);
            }
            i = i + 1;
        }
        assert(e.take(i as int) =~= e);
        match (remote_at, id_at) {
            (Some(a), Some(b)) => match &entries[a].1 {
                LegacyValue::Text(t) => choose_series(t.as_slice(), &entries[b].1),
                _ => Err(LegacyIdError::MissingRemoteOrId),
            },
            _ => Err(LegacyIdError::MissingRemoteOrId),
        }
    }
}

impl RemoteEpisodeId {
    /// Read an episode identifier from the entries of its older map form, as
    /// `RemoteSeriesId::from_legacy` reads a series identifier.
    pub fn from_legacy(entries: &Vec<(Vec<u8>, LegacyValue)>) -> (r: Result<
        RemoteEpisodeId,
        LegacyIdError,
    >)
        ensures
            legacy_series(
                entries@,
                match r {
                    Ok(e) => Ok(episode_as_series(e)),
                    Err(e) => Err(e),
                },
            ),
    {
        match RemoteSeriesId::from_legacy(entries) {
            Ok(RemoteSeriesId::Tvdb { id }) => Ok(RemoteEpisodeId::Tvdb { id }),
            Ok(RemoteSeriesId::Tmdb { id }) => Ok(RemoteEpisodeId::Tmdb { id }),
            Ok(RemoteSeriesId::Imdb { id }) => Ok(RemoteEpisodeId::Imdb { id }),
            Err(e) => Err(e),
        }
    }
}

} // verus!
