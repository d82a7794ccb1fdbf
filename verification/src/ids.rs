use vstd::prelude::*;

verus! {

/// Draws a fresh version-4 UUID with `uuid::Uuid::new_v4` and hands out its
/// 128 bits. The value is random: nothing is stated about it.
#[verifier::external_body]
pub(crate) fn random_uuid() -> u128 {
    uuid::Uuid::new_v4().as_u128()
}

/// Identifier of a series: the 128 bits of a UUID.
#[derive(Clone, Copy, PartialEq, Eq, Structural, Debug, Hash, PartialOrd, Ord)]
pub struct SeriesId(pub u128);

/// Identifier of an episode: the 128 bits of a UUID.
#[derive(Clone, Copy, PartialEq, Eq, Structural, Debug, Hash, PartialOrd, Ord)]
pub struct EpisodeId(pub u128);

/// Identifier of a movie: the 128 bits of a UUID.
#[derive(Clone, Copy, PartialEq, Eq, Structural, Debug, Hash, PartialOrd, Ord)]
pub struct MovieId(pub u128);

/// Identifier of a queued task: the 128 bits of a UUID.
#[derive(Clone, Copy, PartialEq, Eq, Structural, Debug, Hash, PartialOrd, Ord)]
pub struct TaskId(pub u128);

/// Identifier of a watch record: the 128 bits of a UUID.
#[derive(Clone, Copy, PartialEq, Eq, Structural, Debug, Hash, PartialOrd, Ord)]
pub struct WatchedId(pub u128);

impl SeriesId {
    /// Generate a new random series identifier.
    pub fn random() -> SeriesId {
        SeriesId(random_uuid())
    }

    /// Get the underlying uuid bits.
    pub fn id(&self) -> (r: u128)
        ensures
            r == self.0,
    {
        self.0
    }
}

impl EpisodeId {
    /// Generate a new random episode identifier.
    pub fn random() -> EpisodeId {
        EpisodeId(random_uuid())
    }
}

impl MovieId {
    /// Generate a new random movie identifier.
    pub fn random() -> MovieId {
        MovieId(random_uuid())
    }

    /// Get the underlying uuid bits.
    pub fn id(&self) -> (r: u128)
        ensures
            r == self.0,
    {
        self.0
    }
}

impl TaskId {
    /// Generate a new random task identifier.
    pub fn random() -> TaskId {
        TaskId(random_uuid())
    }
}

impl WatchedId {
    /// Generate a new random watch identifier.
    pub fn random() -> WatchedId {
        WatchedId(random_uuid())
    }
}

} // verus!
