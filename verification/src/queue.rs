use std::collections::{HashMap, VecDeque};

use arrayvec::ArrayVec;
use vstd::prelude::*;
use vstd::std_specs::cmp::PartialEqSpecImpl;

use crate::ids::{SeriesId, TaskId};
use crate::remote::{RemoteMovieId, RemoteSeriesId};
use crate::time::Timestamp;

verus! {

broadcast use {vstd::std_specs::hash::group_hash_axioms, vstd::seq_lib::group_seq_properties};

/// Number of milliseconds of delay to add by default to scheduled tasks.
pub const DELAY_MILLIS: i64 = 5000;

/// The current task status.
#[derive(Clone, Copy, PartialEq, Eq, Structural, Debug)]
pub enum TaskStatus {
    /// Task is pending.
    Pending,
    /// Task is currently running.
    Running,
}

/// Something that at most one queued task may be about at a time.
#[derive(Clone, Copy, Debug, Hash)]
#[allow(inconsistent_fields)]
pub enum TaskRef {
    /// Task to download series data.
    Series { series_id: SeriesId },
    /// Task to add a series by a remote identifier.
    RemoteSeries { remote_id: RemoteSeriesId },
    /// Task to add download a movie by a remote identifier.
    RemoteMovie { remote_id: RemoteMovieId },
}

impl PartialEq for TaskRef {
    fn eq(&self, other: &Self) -> (r: bool) {
        match (self, other) {
            (TaskRef::Series { series_id: a }, TaskRef::Series { series_id: b }) => *a == *b,
            (TaskRef::RemoteSeries { remote_id: a }, TaskRef::RemoteSeries { remote_id: b }) => *a
                == *b,
            (TaskRef::RemoteMovie { remote_id: a }, TaskRef::RemoteMovie { remote_id: b }) => *a
                == *b,
            _ => false,
        }
    }
}

impl Eq for TaskRef {
}

impl PartialEqSpecImpl for TaskRef {
    open spec fn obeys_eq_spec() -> bool {
        true
    }

    open spec fn eq_spec(&self, other: &Self) -> bool {
        *self == *other
    }
}

/// The kind of work a task does.
#[derive(Clone, Copy, Debug)]
#[allow(inconsistent_fields)]
pub enum TaskKind {
    /// Check for updates.
    CheckForUpdates {
        series_id: SeriesId,
        remote_id: RemoteSeriesId,
        last_modified: Option<Timestamp>,
    },
    /// Task to download series data.
    DownloadSeries {
        series_id: SeriesId,
        remote_id: RemoteSeriesId,
        last_modified: Option<Timestamp>,
        force: bool,
    },
    /// Task to add a series by a remote identifier.
    DownloadSeriesByRemoteId { remote_id: RemoteSeriesId },
    /// Task to add download a movie by a remote identifier.
    DownloadMovieByRemoteId { remote_id: RemoteMovieId },
}

/// What a task of the given kind is about.
pub open spec fn refs_of(kind: TaskKind) -> Seq<TaskRef> {
    match kind {
        TaskKind::CheckForUpdates { series_id, remote_id, .. } => seq![
            TaskRef::Series { series_id },
            TaskRef::RemoteSeries { remote_id },
        ],
        TaskKind::DownloadSeries { series_id, remote_id, .. } => seq![
            TaskRef::Series { series_id },
            TaskRef::RemoteSeries { remote_id },
        ],
        TaskKind::DownloadSeriesByRemoteId { remote_id } => seq![
            TaskRef::RemoteSeries { remote_id },
        ],
        TaskKind::DownloadMovieByRemoteId { remote_id } => seq![TaskRef::RemoteMovie { remote_id }],
    }
}

/// A task in a queue.
#[derive(Clone, Copy, Debug)]
pub struct Task {
    /// The identifier of the task.
    pub id: TaskId,
    /// The kind of the task.
    pub kind: TaskKind,
    /// When the task is scheduled for.
    pub scheduled: Option<Timestamp>,
}

/// A task that has been completed, and when.
#[derive(Clone, Copy, Debug)]
pub struct CompletedTask {
    pub at: Timestamp,
    pub task: Task,
}

#[verifier::external_type_specification]
#[verifier::external_body]
#[verifier::reject_recursive_types(T)]
pub struct ExArrayVec<T, const CAP: usize>(ArrayVec<T, CAP>);

/// The elements of an `ArrayVec` of task references, in order.
pub uninterp spec fn array_vec_items(v: ArrayVec<TaskRef, 2>) -> Seq<TaskRef>;

/// `ArrayVec::new`: a vector with no elements.
#[verifier::external_body]
fn refs_new() -> (v: ArrayVec<TaskRef, 2>)
    ensures
        array_vec_items(v) == Seq::<TaskRef>::empty(),
{
    ArrayVec::new()
}

/// `ArrayVec::push`: appends an element; it panics when the vector is full,
/// so a full vector is excluded.
#[verifier::external_body]
fn refs_push(v: &mut ArrayVec<TaskRef, 2>, r: TaskRef)
    requires
        array_vec_items(*old(v)).len() < 2,
    ensures
        array_vec_items(*final(v)) == array_vec_items(*old(v)).push(r),
{
    v.push(r)
}

/// `ArrayVec::as_slice`: the elements as a slice.
#[verifier::external_body]
fn refs_as_slice(v: &ArrayVec<TaskRef, 2>) -> (s: &[TaskRef])
    ensures
        s@ == array_vec_items(*v),
{
    v.as_slice()
}

impl TaskKind {
    /// What the task is about; no two queued tasks may share one of these.
    pub fn task_refs(&self) -> (r: ArrayVec<TaskRef, 2>)
        ensures
            array_vec_items(r) == refs_of(*self),
    {
        let mut ids = refs_new();
        match *self {
            TaskKind::CheckForUpdates { series_id, remote_id, .. } => {
                refs_push(&mut ids, TaskRef::Series { series_id });
                refs_push(&mut ids, TaskRef::RemoteSeries { remote_id });
            },
            TaskKind::DownloadSeries { series_id, remote_id, .. } => {
                refs_push(&mut ids, TaskRef::Series { series_id });
                refs_push(&mut ids, TaskRef::RemoteSeries { remote_id });
            },
            TaskKind::DownloadSeriesByRemoteId { remote_id, .. } => {
                refs_push(&mut ids, TaskRef::RemoteSeries { remote_id });
            },
            TaskKind::DownloadMovieByRemoteId { remote_id } => {
                refs_push(&mut ids, TaskRef::RemoteMovie { remote_id });
            },
        }
        assert(array_vec_items(ids) =~= refs_of(*self));
        ids
    }
}

/// Whether the task involves the given series.
pub open spec fn task_is_series(t: Task, id: SeriesId) -> bool {
    match t.kind {
        TaskKind::DownloadSeries { series_id, .. } => series_id == id,
        TaskKind::CheckForUpdates { series_id, .. } => series_id == id,
        TaskKind::DownloadSeriesByRemoteId { .. } => false,
        TaskKind::DownloadMovieByRemoteId { .. } => false,
    }
}

impl Task {
    /// Test if task involves the given series.
    pub fn is_series(&self, id: &SeriesId) -> (r: bool)
        ensures
            r == task_is_series(*self, *id),
    {
        match &self.kind {
            TaskKind::DownloadSeries { series_id, .. } => *series_id == *id,
            TaskKind::CheckForUpdates { series_id, .. } => *series_id == *id,
            TaskKind::DownloadSeriesByRemoteId { .. } => false,
            TaskKind::DownloadMovieByRemoteId { .. } => false,
        }
    }
}

/// The map that an association list with distinct keys stands for.
pub open spec fn assoc_map(l: Seq<(TaskRef, TaskId)>) -> Map<TaskRef, TaskId>
    decreases l.len(),
{
    if l.len() == 0 {
        Map::empty()
    } else {
        assoc_map(l.drop_last()).insert(l.last().0, l.last().1)
    }
}

/// No key occurs twice in the list.
pub open spec fn unique_keys(l: Seq<(TaskRef, TaskId)>) -> bool {
    forall|i: int, j: int| 0 <= i < j < l.len() ==> l[i].0 != l[j].0
}

proof fn lemma_assoc_lookup(l: Seq<(TaskRef, TaskId)>)
    requires
        unique_keys(l),
    ensures
        forall|k: TaskRef| #[trigger]
            assoc_map(l).contains_key(k) <==> exists|i: int| 0 <= i < l.len() && l[i].0 == k,
        forall|i: int| 0 <= i < l.len() ==> #[trigger] assoc_map(l)[l[i].0] == l[i].1,
    decreases l.len(),
{
    if l.len() > 0 {
        let p = l.drop_last();
        let n = l.len() - 1;
        assert(unique_keys(p));
        lemma_assoc_lookup(p);
        assert(assoc_map(l) == assoc_map(p).insert(l[n].0, l[n].1));
        assert forall|k: TaskRef| #[trigger]
            assoc_map(l).contains_key(k) <==> exists|i: int| 0 <= i < l.len() && l[i].0 == k by {
            if k == l[n].0 {
                assert(assoc_map(l).contains_key(k));
                assert(0 <= n < l.len() && l[n].0 == k);
            } else {
                if assoc_map(l).contains_key(k) {
                    assert(assoc_map(p).contains_key(k));
                    let i = choose|i: int| 0 <= i < p.len() && p[i].0 == k;
                    assert(l[i] == p[i]);
                    assert(0 <= i < l.len() && l[i].0 == k);
                }
                if exists|i: int| 0 <= i < l.len() && l[i].0 == k {
                    let i = choose|i: int| 0 <= i < l.len() && l[i].0 == k;
                    assert(i != n);
                    assert(p[i] == l[i]);
                    assert(assoc_map(p).contains_key(k));
                }
            }
        }
        assert forall|i: int| 0 <= i < l.len() implies #[trigger] assoc_map(l)[l[i].0] == l[i].1 by {
            if i < n {
                assert(p[i] == l[i]);
                assert(l[i].0 != l[n].0);
                assert(assoc_map(p)[p[i].0] == p[i].1);
            }
        }
    }
}

proof fn lemma_assoc_remove(l: Seq<(TaskRef, TaskId)>, i: int)
    requires
        unique_keys(l),
        0 <= i < l.len(),
    ensures
        unique_keys(l.remove(i)),
        assoc_map(l.remove(i)) == assoc_map(l).remove(l[i].0),
{
    let r = l.remove(i);
    assert(unique_keys(r)) by {
        assert forall|a: int, b: int| 0 <= a < b < r.len() implies r[a].0 != r[b].0 by {
            let a2 = if a < i { a } else { a + 1 };
            let b2 = if b < i { b } else { b + 1 };
            assert(r[a] == l[a2] && r[b] == l[b2]);
        }
    }
    lemma_assoc_lookup(l);
    lemma_assoc_lookup(r);
    assert forall|k: TaskRef| #[trigger] assoc_map(r).contains_key(k) <==> assoc_map(l).remove(
        l[i].0,
    ).contains_key(k) by {
        if exists|j: int| 0 <= j < r.len() && r[j].0 == k {
            let j = choose|j: int| 0 <= j < r.len() && r[j].0 == k;
            let j2 = if j < i { j } else { j + 1 };
            assert(r[j] == l[j2]);
        }
        if assoc_map(l).remove(l[i].0).contains_key(k) {
            let j = choose|j: int| 0 <= j < l.len() && l[j].0 == k;
            assert(j != i);
            let j2 = if j < i { j } else { j - 1 };
            assert(r[j2] == l[j]);
        }
    }
    assert forall|k: TaskRef| #[trigger] assoc_map(r).contains_key(k) implies assoc_map(r)[k]
        == assoc_map(l)[k] by {
        let j = choose|j: int| 0 <= j < r.len() && r[j].0 == k;
        let j2 = if j < i { j } else { j + 1 };
        assert(r[j] == l[j2]);
        assert(assoc_map(r)[r[j].0] == r[j].1);
        assert(assoc_map(l)[l[j2].0] == l[j2].1);
    }
    assert(assoc_map(r) =~= assoc_map(l).remove(l[i].0));
}

/// Index of the entry with key `k`, if any.
fn assoc_find(l: &Vec<(TaskRef, TaskId)>, k: &TaskRef) -> (r: Option<usize>)
    requires
        unique_keys(l@),
    ensures
        r matches Some(i) ==> i < l@.len() && l@[i as int].0 == *k,
        r is None ==> !assoc_map(l@).contains_key(*k),
{
    proof {
        lemma_assoc_lookup(l@);
    }
    let mut i: usize = 0;
    while i < l.len()
        invariant
            i <= l@.len(),
            forall|j: int| 0 <= j < i ==> l@[j].0 != *k,
        decreases l@.len() - i,
    {
        if l[i].0 == *k {
            return Some(i);
        }
        i = i + 1;
    }
    None
}

/// The map with every one of `refs` taken out.
pub open spec fn remove_refs(m: Map<TaskRef, TaskId>, refs: Seq<TaskRef>) -> Map<TaskRef, TaskId> {
    Map::new(|r: TaskRef| m.contains_key(r) && !refs.contains(r), |r: TaskRef| m[r])
}

/// The map with every one of `refs` pointing at `id`.
pub open spec fn insert_refs(m: Map<TaskRef, TaskId>, refs: Seq<TaskRef>, id: TaskId) -> Map<
    TaskRef,
    TaskId,
> {
    Map::new(
        |r: TaskRef| m.contains_key(r) || refs.contains(r),
        |r: TaskRef|
            if refs.contains(r) {
                id
            } else {
                m[r]
            },
    )
}

/// Whether one of `refs` is already claimed by a queued task.
pub open spec fn any_registered(m: Map<TaskRef, TaskId>, refs: Seq<TaskRef>) -> bool {
    exists|i: int| 0 <= i < refs.len() && m.contains_key(#[trigger] refs[i])
}

/// The state of a queue, as seen by its contracts.
pub struct QueueModel {
    /// Status of each task that the queue knows of.
    pub status: Map<TaskId, TaskStatus>,
    /// Which task claims each reference.
    pub task_ids: Map<TaskRef, TaskId>,
    /// Tasks waiting to run, first to run first.
    pub pending: Seq<Task>,
    /// Tasks that are running.
    pub running: Seq<Task>,
    /// Completed tasks, most recent first.
    pub completed: Seq<CompletedTask>,
    /// Whether the queue was changed since this was last taken.
    pub modified: bool,
}

/// Queue of scheduled actions.
pub struct Queue {
    /// Status of known tasks, by task identifier.
    status: HashMap<u128, TaskStatus>,
    /// Which task claims each reference.
    task_ids: Vec<(TaskRef, TaskId)>,
    /// Items in the download queue.
    pending: VecDeque<Task>,
    /// Collection of running tasks.
    running: Vec<Task>,
    /// Completed tasks.
    completed: VecDeque<CompletedTask>,
    /// Test if queue has been locally modified.
    modified: bool,
}

impl View for Queue {
    type V = QueueModel;

    closed spec fn view(&self) -> QueueModel {
        QueueModel {
            status: Map::new(
                |id: TaskId| self.status@.contains_key(id.0),
                |id: TaskId| self.status@[id.0],
            ),
            task_ids: assoc_map(self.task_ids@),
            pending: self.pending@,
            running: self.running@,
            completed: self.completed@,
            modified: self.modified,
        }
    }
}

/// The running tasks without the one with the given identifier.
pub open spec fn without_task(s: Seq<Task>, id: TaskId) -> Seq<Task> {
    s.filter(|t: Task| t.id != id)
}

impl Queue {
    /// The queue's internal invariant: no reference is claimed twice.
    pub closed spec fn wf(&self) -> bool {
        unique_keys(self.task_ids@)
    }

    /// An empty queue.
    pub fn new() -> (q: Queue)
        ensures
            q@.status == Map::<TaskId, TaskStatus>::empty(),
            q@.task_ids == Map::<TaskRef, TaskId>::empty(),
            q@.pending == Seq::<Task>::empty(),
            q@.running == Seq::<Task>::empty(),
            q@.completed == Seq::<CompletedTask>::empty(),
            !q@.modified,
            q.wf(),
    {
        let q = Queue {
            status: HashMap::new(),
            task_ids: Vec::new(),
            pending: VecDeque::new(),
            running: Vec::new(),
            completed: VecDeque::new(),
            modified: false,
        };
        assert(q@.status =~= Map::<TaskId, TaskStatus>::empty());
        assert(q@.task_ids =~= Map::<TaskRef, TaskId>::empty());
        q
    }

    /// The status of the task that claims `id`, if any.
    pub fn status(&self, id: TaskRef) -> (r: Option<TaskStatus>)
        requires
            self.wf(),
        ensures
            r == (if self@.task_ids.contains_key(id) && self@.status.contains_key(
                self@.task_ids[id],
            ) {
                Some(self@.status[self@.task_ids[id]])
            } else {
                None
            }),
    {
        proof {
            lemma_assoc_lookup(self.task_ids@);
        }
        let i = match assoc_find(&self.task_ids, &id) {
            Some(i) => i,
            None => return None,
        };
        let task_id = self.task_ids[i].1;
        match self.status.get(&task_id.0) {
            Some(s) => Some(*s),
            None => None,
        }
    }

    /// Whether one of `refs` is claimed.
    fn any_claimed(&self, refs: &[TaskRef]) -> (r: bool)
        requires
            self.wf(),
        ensures
            r == any_registered(self@.task_ids, refs@),
    {
        let mut i: usize = 0;
        while i < refs.len()
            invariant
                i <= refs@.len(),
                unique_keys(self.task_ids@),
                forall|j: int| 0 <= j < i ==> !self@.task_ids.contains_key(#[trigger] refs@[j]),
            decreases refs@.len() - i,
        {
            if assoc_find(&self.task_ids, &refs[i]).is_some() {
                proof {
                    lemma_assoc_lookup(self.task_ids@);
                }
                assert(self@.task_ids.contains_key(refs@[i as int]));
                return true;
            }
            i = i + 1;
        }
        false
    }

    /// Removes every one of `refs` from the claims.
    fn release_refs(&mut self, refs: &[TaskRef])
        requires
            old(self).wf(),
        ensures
            final(self).wf(),
            final(self)@ == (QueueModel {
                task_ids: remove_refs(old(self)@.task_ids, refs@),
                ..old(self)@
            }),
    {
        let ghost start = self@;
        let mut i: usize = 0;
        assert(remove_refs(start.task_ids, refs@.take(0)) =~= start.task_ids);
        while i < refs.len()
            invariant
                i <= refs@.len(),
                self.wf(),
                self@ == (QueueModel {
                    task_ids: remove_refs(start.task_ids, refs@.take(i as int)),
                    ..start
                }),
            decreases refs@.len() - i,
        {
            let ghost before = self.task_ids@;
            if let Some(idx) = assoc_find(&self.task_ids, &refs[i]) {
                proof {
                    lemma_assoc_remove(before, idx as int);
                }
                self.task_ids.remove(idx);
            }
            proof {
                assert(refs@.take(i + 1) =~= refs@.take(i as int).push(refs@[i as int]));
                assert(remove_refs(start.task_ids, refs@.take(i + 1)) =~= remove_refs(
                    start.task_ids,
                    refs@.take(i as int),
                ).remove(refs@[i as int]));
                if !assoc_map(before).contains_key(refs@[i as int]) {
                    assert(assoc_map(before).remove(refs@[i as int]) =~= assoc_map(before));
                }
            }
            i = i + 1;
        }
        assert(refs@.take(refs@.len() as int) =~= refs@);
    }

    /// Claims every one of `refs` for `id`; none of them may be claimed yet.
    fn claim_refs(&mut self, refs: &[TaskRef], id: TaskId)
        requires
            old(self).wf(),
            !any_registered(old(self)@.task_ids, refs@),
            refs@.len() <= 2,
            refs@.len() == 2 ==> refs@[0] != refs@[1],
        ensures
            final(self).wf(),
            final(self)@ == (QueueModel {
                task_ids: insert_refs(old(self)@.task_ids, refs@, id),
                ..old(self)@
            }),
    {
        let ghost start = self@;
        let mut i: usize = 0;
        assert(insert_refs(start.task_ids, refs@.take(0), id) =~= start.task_ids);
        while i < refs.len()
            invariant
                i <= refs@.len() <= 2,
                refs@.len() == 2 ==> refs@[0] != refs@[1],
                !any_registered(start.task_ids, refs@),
                self.wf(),
                self@ == (QueueModel {
                    task_ids: insert_refs(start.task_ids, refs@.take(i as int), id),
                    ..start
                }),
            decreases refs@.len() - i,
        {
            let ghost before = self.task_ids@;
            let r = refs[i];
            proof {
                lemma_assoc_lookup(before);
                assert(!start.task_ids.contains_key(refs@[i as int]));
                assert(!refs@.take(i as int).contains(r)) by {
                    if i == 1 {
                        assert(refs@.take(1)[0] == refs@[0]);
                    }
                }
                assert(!assoc_map(before).contains_key(r));
            }
            self.task_ids.push((r, id));
            proof {
                let after = self.task_ids@;
                assert(after.drop_last() =~= before);
                assert(unique_keys(after)) by {
                    assert forall|a: int, b: int| 0 <= a < b < after.len() implies after[a].0
                        != after[b].0 by {
                        if b == after.len() - 1 {
                            assert(after[a] == before[a]);
                        }
                    }
                }
                assert(refs@.take(i + 1) =~= refs@.take(i as int).push(r));
                assert(insert_refs(start.task_ids, refs@.take(i + 1), id) =~= insert_refs(
                    start.task_ids,
                    refs@.take(i as int),
                    id,
                ).insert(r, id));
            }
            i = i + 1;
        }
        assert(refs@.take(refs@.len() as int) =~= refs@);
    }

    /// Mark the given task as completed. Returns its status if the queue
    /// knew of it, in which case what it claims is released and it is
    /// recorded as completed at `now`.
    pub fn complete(&mut self, now: &Timestamp, task: Task) -> (r: Option<TaskStatus>)
        requires
            old(self).wf(),
        ensures
            final(self).wf(),
            r == (if old(self)@.status.contains_key(task.id) {
                Some(old(self)@.status[task.id])
            } else {
                None
            }),
            final(self)@.running == without_task(old(self)@.running, task.id),
            final(self)@.pending == old(self)@.pending,
            final(self)@.modified == old(self)@.modified,
            r is Some ==> {
                &&& final(self)@.status == old(self)@.status.remove(task.id)
                &&& final(self)@.task_ids == remove_refs(old(self)@.task_ids, refs_of(task.kind))
                &&& final(self)@.completed == seq![CompletedTask { at: *now, task }]
                    + old(self)@.completed
            },
            r is None ==> {
                &&& final(self)@.status == old(self)@.status
                &&& final(self)@.task_ids == old(self)@.task_ids
                &&& final(self)@.completed == old(self)@.completed
            },
    {
        let ghost start = self@;
        let mut kept: Vec<Task> = Vec::new();
        let mut i: usize = 0;
        while i < self.running.len()
            invariant
                i <= self.running@.len(),
                self@ == start,
                self.wf(),
                kept@ == without_task(self.running@.take(i as int), task.id),
            decreases self.running@.len() - i,
        {
            let t = self.running[i];
            proof {
                let p = self.running@.take(i as int);
                assert(self.running@.take(i + 1) =~= p.push(t));
                reveal_with_fuel(Seq::filter, 1);
                assert(p.push(t).drop_last() =~= p);
            }
            if t.id != task.id {
                kept.push(t);
            }
            i = i + 1;
        }
        assert(self.running@.take(self.running@.len() as int) =~= self.running@);
        self.running = kept;
        let removed = self.status.remove(&task.id.0);
        let status = match removed {
            Some(s) => s,
            None => {
                assert(self@.status =~= start.status);
                return None;
            },
        };
        let refs = task.kind.task_refs();
        self.release_refs(refs_as_slice(&refs));
        self.completed.push_front(CompletedTask { at: *now, task });
        assert(self@.status =~= start.status.remove(task.id));
        assert(self@.completed =~= seq![CompletedTask { at: *now, task }] + start.completed);
        Some(status)
    }

    /// Running tasks.
    pub fn running(&self) -> (r: &[Task])
        ensures
            r@ == self@.running,
    {
        self.running.as_slice()
    }

    /// Pending tasks, first to run first.
    pub fn pending(&self) -> (r: Vec<Task>)
        ensures
            r@ == self@.pending,
    {
        let mut out = Vec::new();
        let mut i: usize = 0;
        while i < self.pending.len()
            invariant
                i <= self.pending@.len(),
                out@ == self.pending@.take(i as int),
            decreases self.pending@.len() - i,
        {
            out.push(self.pending[i]);
            i = i + 1;
            assert(out@ =~= self.pending@.take(i as int));
        }
        assert(self.pending@.take(i as int) =~= self.pending@);
        out
    }

    /// Completed tasks, most recent first.
    pub fn completed(&self) -> (r: Vec<CompletedTask>)
        ensures
            r@ == self@.completed,
    {
        let mut out = Vec::new();
        let mut i: usize = 0;
        while i < self.completed.len()
            invariant
                i <= self.completed@.len(),
                out@ == self.completed@.take(i as int),
            decreases self.completed@.len() - i,
        {
            out.push(self.completed[i]);
            i = i + 1;
            assert(out@ =~= self.completed@.take(i as int));
        }
        assert(self.completed@.take(i as int) =~= self.completed@);
        out
    }

    /// Take if the queue has been modified.
    pub fn take_modified(&mut self) -> (r: bool)
        requires
            old(self).wf(),
        ensures
            final(self).wf(),
            r == old(self)@.modified,
            final(self)@ == (QueueModel { modified: false, ..old(self)@ }),
    {
        let r = self.modified;
        self.modified = false;
        r
    }

    /// Get the next task from the queue: the first pending one, when it is
    /// due at `now` or is the one that `timed_out` names. It moves to the
    /// running tasks.
    pub fn next_task(&mut self, now: &Timestamp, timed_out: Option<TaskId>) -> (r: Option<Task>)
        requires
            old(self).wf(),
        ensures
            final(self).wf(),
            ({
                let q = old(self)@;
                if q.pending.len() > 0 && (timed_out == Some(q.pending[0].id) || !(
                q.pending[0].scheduled matches Some(s) && s.millis > now.millis)) {
                    &&& r == Some(q.pending[0])
                    &&& final(self)@ == (QueueModel {
                        status: q.status.insert(q.pending[0].id, TaskStatus::Running),
                        pending: q.pending.drop_first(),
                        running: q.running.push(q.pending[0]),
                        ..q
                    })
                } else {
                    &&& r is None
                    &&& final(self)@ == q
                }
            }),
    {
        let ghost start = self@;
        if self.pending.len() == 0 {
            return None;
        }
        let task = self.pending[0];
        let is_timed_out = match timed_out {
            Some(id) => id == task.id,
            None => false,
        };
        let not_due = match task.scheduled {
            Some(s) => s.millis > now.millis,
            None => false,
        };
        if !is_timed_out && not_due {
            return None;
        }
        let task = self.pending.pop_front().unwrap();
        self.status.insert(task.id.0, TaskStatus::Running);
        self.running.push(task);
        assert(self@.status =~= start.status.insert(task.id, TaskStatus::Running));
        Some(task)
    }

    /// How many whole seconds remain until the first pending task is due
    /// (zero when it has no schedule or is overdue), and its identifier.
    pub fn next_sleep(&self, now: &Timestamp) -> (r: Option<(u64, TaskId)>)
        ensures
            self@.pending.len() == 0 ==> r is None,
            self@.pending.len() > 0 ==> r == Some(
                (
                    match self@.pending[0].scheduled {
                        Some(s) => if s.millis > now.millis {
                            ((s.millis - now.millis) / 1000) as u64
                        } else {
                            0u64
                        },
                        None => 0u64,
                    },
                    self@.pending[0].id,
                ),
            ),
    {
        if self.pending.len() == 0 {
            return None;
        }
        let task = self.pending[0];
        let id = task.id;
        let scheduled = match task.scheduled {
            Some(s) => s,
            None => return Some((0, id)),
        };
        if scheduled.millis > now.millis {
            let diff: i128 = scheduled.millis as i128 - now.millis as i128;
            let seconds = (diff / 1000) as u64;
            Some((seconds, id))
        } else {
            Some((0, id))
        }
    }

    /// Remove every pending task that `predicate` selects, with its status
    /// and its claims; returns how many were removed. The predicate is asked
    /// once about each pending task, in order.
    pub fn remove_tasks_by<P: Fn(&Task) -> bool>(&mut self, predicate: P) -> (r: usize)
        requires
            old(self).wf(),
            forall|t: &Task| #[trigger] predicate.requires((t,)),
        ensures
            final(self).wf(),
            exists|mask: Seq<bool>|
                {
                    &&& mask.len() == old(self)@.pending.len()
                    &&& forall|i: int|
                        0 <= i < mask.len() ==> #[trigger] predicate.ensures(
                            (&old(self)@.pending[i],),
                            mask[i],
                        )
                    &&& r == count_true(mask)
                    &&& final(self)@ == #[trigger] removed_by(old(self)@, mask)
                },
    {
        let ghost start = self@;
        let ghost mut mask: Seq<bool> = Seq::empty();
        let mut kept: VecDeque<Task> = VecDeque::new();
        let mut removed: usize = 0;
        let n = self.pending.len();
        let mut i: usize = 0;
        assert(start.pending.take(0) =~= Seq::<Task>::empty());
        assert(removed_by(start, mask).status =~= start.status);
        assert(removed_by(start, mask).task_ids =~= start.task_ids);
        while i < n
            invariant
                n == start.pending.len(),
                i <= n,
                self.wf(),
                forall|t: &Task| #[trigger] predicate.requires((t,)),
                self.pending@ == start.pending,
                mask.len() == i,
                forall|j: int|
                    0 <= j < i ==> #[trigger] predicate.ensures((&start.pending[j],), mask[j]),
                removed == count_true(mask),
                removed <= i,
                kept@ == kept_tasks(start.pending.take(i as int), mask),
                self@.status == removed_by(
                    QueueModel { pending: start.pending.take(i as int), ..start },
                    mask,
                ).status,
                self@.task_ids == removed_by(
                    QueueModel { pending: start.pending.take(i as int), ..start },
                    mask,
                ).task_ids,
                self@.running == start.running,
                self@.completed == start.completed,
                self@.modified == start.modified,
            decreases n - i,
        {
            let t = self.pending[i];
            let hit = predicate(&t);
            let ghost prev_mask = mask;
            let ghost prev_status = self@.status;
            let ghost prev_ids = self@.task_ids;
            proof {
                mask = mask.push(hit);
            }
            let ghost p0 = start.pending.take(i as int);
            let ghost p1 = start.pending.take(i + 1);
            assert(p1 =~= p0.push(t));
            assert(p1.drop_last() =~= p0);
            assert(mask.drop_last() =~= prev_mask);
            if hit {
                let ghost hs = self.status@;
                self.status.remove(&t.id.0);
                assert(self.status@ == hs.remove(t.id.0));
                assert forall|id: TaskId| #[trigger] self@.status.contains_key(id) <==> (
                prev_status.contains_key(id) && id != t.id) by {
                    if id.0 == t.id.0 {
                        assert(id == t.id);
                    }
                }
                let ghost after_remove = self@.status;
                assert forall|id: TaskId| #[trigger] after_remove.contains_key(id) implies after_remove[id] == prev_status[id] by {
                    assert(id.0 != t.id.0);
                    assert(self.status@[id.0] == hs[id.0]);
                }
                let refs = t.kind.task_refs();
                self.release_refs(refs_as_slice(&refs));
                removed = removed + 1;
                proof {
                    assert(removes_id(p1, mask, t.id)) by {
                        assert(p1[i as int].id == t.id);
                    }
                    assert forall|id: TaskId| #[trigger]
                        removes_id(p1, mask, id) <==> removes_id(p0, prev_mask, id) || id == t.id by {
                        if removes_id(p1, mask, id) && id != t.id {
                            let j = choose|j: int|
                                0 <= j < p1.len() && j < mask.len() && mask[j] && #[trigger] p1[j].id
                                    == id;
                            assert(j != i);
                            assert(p0[j] == p1[j]);
                        }
                        if removes_id(p0, prev_mask, id) {
                            let j = choose|j: int|
                                0 <= j < p0.len() && j < prev_mask.len() && prev_mask[j]
                                    && #[trigger] p0[j].id == id;
                            assert(p1[j] == p0[j]);
                        }
                    }
                    assert forall|r: TaskRef| #[trigger]
                        removes_ref(p1, mask, r) <==> removes_ref(p0, prev_mask, r) || refs_of(
                            t.kind,
                        ).contains(r) by {
                        if removes_ref(p1, mask, r) && !refs_of(t.kind).contains(r) {
                            let j = choose|j: int|
                                0 <= j < p1.len() && j < mask.len() && mask[j] && #[trigger] refs_of(
                                    p1[j].kind,
                                ).contains(r);
                            assert(j != i);
                            assert(p0[j] == p1[j]);
                        }
                        if removes_ref(p0, prev_mask, r) {
                            let j = choose|j: int|
                                0 <= j < p0.len() && j < prev_mask.len() && prev_mask[j]
                                    && #[trigger] refs_of(p0[j].kind).contains(r);
                            assert(p1[j] == p0[j]);
                        }
                        if refs_of(t.kind).contains(r) {
                            assert(p1[i as int] == t);
                        }
                    }
                    let target = removed_by(QueueModel { pending: p1, ..start }, mask).status;
                    let before = removed_by(QueueModel { pending: p0, ..start }, prev_mask).status;
                    assert(prev_status == before);
                    assert forall|id: TaskId| #[trigger] self@.status.contains_key(id) <==> target.contains_key(id) by {
                        assert(removes_id(p1, mask, id) <==> removes_id(p0, prev_mask, id) || id == t.id);
                    }
                    assert forall|id: TaskId| #[trigger] self@.status.contains_key(id) implies self@.status[id] == target[id] by {
                        assert(self@.status == after_remove);
                        assert(after_remove.contains_key(id));
                        assert(prev_status.contains_key(id));
                        assert(before[id] == start.status[id]);
                        assert(target[id] == start.status[id]);
                    }
                    assert(self@.status =~= target);
                    assert(self@.task_ids =~= removed_by(QueueModel { pending: p1, ..start }, mask).task_ids);
                }
            } else {
                kept.push_back(t);
                proof {
                    assert forall|id: TaskId| #[trigger]
                        removes_id(p1, mask, id) <==> removes_id(p0, prev_mask, id) by {
                        if removes_id(p1, mask, id) {
                            let j = choose|j: int|
                                0 <= j < p1.len() && j < mask.len() && mask[j] && #[trigger] p1[j].id
                                    == id;
                            assert(j != i);
                            assert(p0[j] == p1[j]);
                        }
                        if removes_id(p0, prev_mask, id) {
                            let j = choose|j: int|
                                0 <= j < p0.len() && j < prev_mask.len() && prev_mask[j]
                                    && #[trigger] p0[j].id == id;
                            assert(p1[j] == p0[j]);
                        }
                    }
                    assert forall|r: TaskRef| #[trigger]
                        removes_ref(p1, mask, r) <==> removes_ref(p0, prev_mask, r) by {
                        if removes_ref(p1, mask, r) {
                            let j = choose|j: int|
                                0 <= j < p1.len() && j < mask.len() && mask[j] && #[trigger] refs_of(
                                    p1[j].kind,
                                ).contains(r);
                            assert(j != i);
                            assert(p0[j] == p1[j]);
                        }
                        if removes_ref(p0, prev_mask, r) {
                            let j = choose|j: int|
                                0 <= j < p0.len() && j < prev_mask.len() && prev_mask[j]
                                    && #[trigger] refs_of(p0[j].kind).contains(r);
                            assert(p1[j] == p0[j]);
                        }
                    }
                    assert(self@.status =~= removed_by(QueueModel { pending: p1, ..start }, mask).status);
                    assert(self@.task_ids =~= removed_by(QueueModel { pending: p1, ..start }, mask).task_ids);
                }
            }
            i = i + 1;
        }
        assert(start.pending.take(n as int) =~= start.pending);
        self.pending = kept;
        self.modified = self.modified || removed > 0;
        assert(self@ == removed_by(start, mask));
        removed
    }

    /// Push a task to the front of the queue, to run without delay. Nothing
    /// happens, and `false` is returned, when what it is about is already
    /// claimed by a queued task.
    pub fn push_without_delay(&mut self, kind: TaskKind) -> (r: bool)
        requires
            old(self).wf(),
        ensures
            final(self).wf(),
            r == !any_registered(old(self)@.task_ids, refs_of(kind)),
            !r ==> final(self)@ == old(self)@,
            r ==> exists|id: TaskId| final(self)@ == #[trigger] pushed_front(old(self)@, kind, id),
    {
        let ghost start = self@;
        let refs = kind.task_refs();
        let slice = refs_as_slice(&refs);
        if self.any_claimed(slice) {
            return false;
        }
        let id = TaskId::random();
        self.status.insert(id.0, TaskStatus::Pending);
        self.claim_refs(slice, id);
        self.pending.push_front(Task { id, kind, scheduled: None });
        self.modified = true;
        assert(self@.status =~= start.status.insert(id, TaskStatus::Pending));
        assert(self@.pending =~= seq![Task { id, kind, scheduled: None }] + start.pending);
        assert(self@ == pushed_front(start, kind, id));
        true
    }

    /// Push a task to the back of the queue, scheduled `DELAY_MILLIS` after
    /// the last pending task, or after `now` when that has no schedule or
    /// there is none. Nothing happens when what it is about is already
    /// claimed by a queued task.
    pub fn push(&mut self, now: &Timestamp, kind: TaskKind)
        requires
            old(self).wf(),
            schedule_base(old(self)@.pending, *now).millis <= i64::MAX - DELAY_MILLIS,
        ensures
            final(self).wf(),
            any_registered(old(self)@.task_ids, refs_of(kind)) ==> final(self)@ == old(self)@,
            !any_registered(old(self)@.task_ids, refs_of(kind)) ==> exists|id: TaskId|
                final(self)@ == #[trigger] pushed_back(old(self)@, *now, kind, id),
            !any_registered(old(self)@.task_ids, refs_of(kind)) ==> {
                &&& final(self)@.pending.len() == old(self)@.pending.len() + 1
                &&& final(self)@.pending.take(old(self)@.pending.len() as int) == old(self)@.pending
                &&& final(self)@.pending.last().kind == kind
                &&& (old(self)@.pending.len() > 0 && old(self)@.pending.last().scheduled is Some)
                    ==> final(self)@.pending.last().scheduled == Some(
                    Timestamp {
                        millis: (old(self)@.pending.last().scheduled.unwrap().millis + DELAY_MILLIS) as i64,
                    },
                )
                &&& (old(self)@.pending.len() == 0 || old(self)@.pending.last().scheduled is None)
                    ==> final(self)@.pending.last().scheduled == Some(
                    Timestamp { millis: (now.millis + DELAY_MILLIS) as i64 },
                )
            },
    {
        let ghost start = self@;
        let refs = kind.task_refs();
        let slice = refs_as_slice(&refs);
        if self.any_claimed(slice) {
            return;
        }
        let id = TaskId::random();
        self.claim_refs(slice, id);
        self.status.insert(id.0, TaskStatus::Pending);
        let n = self.pending.len();
        let base = if n == 0 {
            *now
        } else {
            match self.pending[n - 1].scheduled {
                Some(s) => s,
                None => *now,
            }
        };
        let task = Task { id, kind, scheduled: Some(Timestamp { millis: base.millis + DELAY_MILLIS }) };
        self.pending.push_back(task);
        self.modified = true;
        assert(self@.status =~= start.status.insert(id, TaskStatus::Pending));
        assert(self@ == pushed_back(start, *now, kind, id));
        proof {
            lemma_push_spaces_tasks(start, *now, kind, id);
        }
    }
}

/// The pending tasks whose entry in `mask` is `false`, in order.
pub open spec fn kept_tasks(p: Seq<Task>, mask: Seq<bool>) -> Seq<Task>
    decreases p.len(),
{
    if p.len() == 0 || mask.len() == 0 {
        Seq::empty()
    } else if mask.last() {
        kept_tasks(p.drop_last(), mask.drop_last())
    } else {
        kept_tasks(p.drop_last(), mask.drop_last()).push(p.last())
    }
}

/// How many entries of `mask` are `true`.
pub open spec fn count_true(mask: Seq<bool>) -> nat
    decreases mask.len(),
{
    if mask.len() == 0 {
        0
    } else {
        count_true(mask.drop_last()) + if mask.last() {
            1nat
        } else {
            0nat
        }
    }
}

/// Whether a task with identifier `id` is among those that `mask` selects.
pub open spec fn removes_id(p: Seq<Task>, mask: Seq<bool>, id: TaskId) -> bool {
    exists|i: int| 0 <= i < p.len() && i < mask.len() && mask[i] && #[trigger] p[i].id == id
}

/// Whether `r` is claimed by one of the tasks that `mask` selects.
pub open spec fn removes_ref(p: Seq<Task>, mask: Seq<bool>, r: TaskRef) -> bool {
    exists|i: int|
        0 <= i < p.len() && i < mask.len() && mask[i] && #[trigger] refs_of(p[i].kind).contains(r)
}

/// The queue after the pending tasks that `mask` selects are removed, with
/// their status and their claims.
pub open spec fn removed_by(q: QueueModel, mask: Seq<bool>) -> QueueModel {
    QueueModel {
        status: Map::new(
            |id: TaskId| q.status.contains_key(id) && !removes_id(q.pending, mask, id),
            |id: TaskId| q.status[id],
        ),
        task_ids: Map::new(
            |r: TaskRef| q.task_ids.contains_key(r) && !removes_ref(q.pending, mask, r),
            |r: TaskRef| q.task_ids[r],
        ),
        pending: kept_tasks(q.pending, mask),
        modified: q.modified || count_true(mask) > 0,
        ..q
    }
}

/// The queue after a task of `kind` with identifier `id` is pushed to the
/// front, to run without delay.
pub open spec fn pushed_front(q: QueueModel, kind: TaskKind, id: TaskId) -> QueueModel {
    QueueModel {
        status: q.status.insert(id, TaskStatus::Pending),
        task_ids: insert_refs(q.task_ids, refs_of(kind), id),
        pending: seq![Task { id, kind, scheduled: None }] + q.pending,
        modified: true,
        ..q
    }
}

/// The queue after a task of `kind` with identifier `id` is pushed to the
/// back, scheduled `DELAY_MILLIS` after the last pending task or `now`.
pub open spec fn pushed_back(q: QueueModel, now: Timestamp, kind: TaskKind, id: TaskId) -> QueueModel {
    QueueModel {
        status: q.status.insert(id, TaskStatus::Pending),
        task_ids: insert_refs(q.task_ids, refs_of(kind), id),
        pending: q.pending.push(
            Task {
                id,
                kind,
                scheduled: Some(
                    Timestamp { millis: (schedule_base(q.pending, now).millis + DELAY_MILLIS) as i64 },
                ),
            },
        ),
        modified: true,
        ..q
    }
}

/// The time that a newly pushed task is scheduled after: the schedule of the
/// last pending task, or `now` when it has none or nothing is pending.
pub open spec fn schedule_base(pending: Seq<Task>, now: Timestamp) -> Timestamp {
    if pending.len() > 0 && pending.last().scheduled is Some {
        pending.last().scheduled.unwrap()
    } else {
        now
    }
}

} // verus!

verus! {

/// Once a task is pushed, each reference it is about is claimed by it and
/// reports `Pending`, so pushing the same kind of task again is refused.
pub proof fn lemma_push_claims(q: QueueModel, now: Timestamp, kind: TaskKind, id: TaskId)
    requires
        !any_registered(q.task_ids, refs_of(kind)),
    ensures
        ({
            let back = pushed_back(q, now, kind, id);
            let front = pushed_front(q, kind, id);
            &&& forall|i: int|
                0 <= i < refs_of(kind).len() ==> {
                    &&& back.task_ids.contains_key(#[trigger] refs_of(kind)[i])
                    &&& back.task_ids[refs_of(kind)[i]] == id
                    &&& front.task_ids.contains_key(refs_of(kind)[i])
                    &&& front.task_ids[refs_of(kind)[i]] == id
                }
            &&& back.status[id] == TaskStatus::Pending
            &&& front.status[id] == TaskStatus::Pending
            &&& any_registered(back.task_ids, refs_of(kind))
            &&& any_registered(front.task_ids, refs_of(kind))
        }),
{
    let back = pushed_back(q, now, kind, id);
    let front = pushed_front(q, kind, id);
    assert forall|i: int| 0 <= i < refs_of(kind).len() implies {
        &&& back.task_ids.contains_key(#[trigger] refs_of(kind)[i])
        &&& back.task_ids[refs_of(kind)[i]] == id
        &&& front.task_ids.contains_key(refs_of(kind)[i])
        &&& front.task_ids[refs_of(kind)[i]] == id
    } by {
        assert(refs_of(kind).contains(refs_of(kind)[i]));
    }
    assert(back.task_ids.contains_key(refs_of(kind)[0]));
    assert(front.task_ids.contains_key(refs_of(kind)[0]));
}

/// Completing a task releases everything it was about, so a task of the
/// same kind can be pushed again.
pub proof fn lemma_complete_releases(m: Map<TaskRef, TaskId>, kind: TaskKind)
    ensures
        !any_registered(remove_refs(m, refs_of(kind)), refs_of(kind)),
{
    assert forall|i: int| 0 <= i < refs_of(kind).len() implies !remove_refs(m, refs_of(kind)).contains_key(
        #[trigger] refs_of(kind)[i],
    ) by {
        assert(refs_of(kind).contains(refs_of(kind)[i]));
    }
}

/// A task handed out by `next_task` is running: completing it afterwards
/// reports `Running` and drops it from the running tasks.
pub proof fn lemma_dispatch_then_complete(q: QueueModel)
    requires
        q.pending.len() > 0,
    ensures
        ({
            let t = q.pending[0];
            let d = QueueModel {
                status: q.status.insert(t.id, TaskStatus::Running),
                pending: q.pending.drop_first(),
                running: q.running.push(t),
                ..q
            };
            &&& d.status.contains_key(t.id)
            &&& d.status[t.id] == TaskStatus::Running
            &&& !without_task(d.running, t.id).contains(t)
        }),
{
    let t = q.pending[0];
    let r = q.running.push(t);
    if without_task(r, t.id).contains(t) {
        let f = without_task(r, t.id);
        let i = choose|i: int| 0 <= i < f.len() && f[i] == t;
        r.lemma_filter_pred(|x: Task| x.id != t.id, i);
    }
}

/// A task pushed to the back waits `DELAY_MILLIS` after the last pending task when that one is
/// scheduled, and after `now` when nothing scheduled is pending, so that pushed tasks are spaced
/// out; the tasks already pending keep their places.
pub proof fn lemma_push_spaces_tasks(q: QueueModel, now: Timestamp, kind: TaskKind, id: TaskId)
    requires
        q.pending.len() > 0 && q.pending.last().scheduled is Some ==> q.pending.last().scheduled.unwrap().millis
            <= i64::MAX - DELAY_MILLIS,
        q.pending.len() == 0 || q.pending.last().scheduled is None ==> now.millis <= i64::MAX - DELAY_MILLIS,
    ensures
        ({
            let p = pushed_back(q, now, kind, id).pending;
            &&& p.len() == q.pending.len() + 1
            &&& p.take(q.pending.len() as int) == q.pending
            &&& p.last().kind == kind
            &&& p.last().id == id
            &&& (q.pending.len() > 0 && q.pending.last().scheduled is Some) ==> p.last().scheduled
                == Some(Timestamp { millis: (q.pending.last().scheduled.unwrap().millis + DELAY_MILLIS) as i64 })
            &&& (q.pending.len() == 0 || q.pending.last().scheduled is None) ==> p.last().scheduled
                == Some(Timestamp { millis: (now.millis + DELAY_MILLIS) as i64 })
        }),
{
    let p = pushed_back(q, now, kind, id).pending;
    assert(p.take(q.pending.len() as int) =~= q.pending);
}

} // verus!
