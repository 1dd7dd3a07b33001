//! What is known of each task: its latest turn, its activity and whether it
//! needs continuation.

use vstd::prelude::*;

use crate::clock::Micros;
use crate::keyed::{
    assoc_map, find_key, has_key, keys_unique, lemma_assoc_at, lemma_assoc_push,
    lemma_assoc_remove, lemma_assoc_update,
};
use crate::text::{owned, trim};

verus! {

/// How many tasks a snapshot list shows at most.
pub const MAX_SNAPSHOTS: usize = 100;

/// The state of a task as shown to the user.
#[derive(Debug, Clone, Copy, PartialEq, Eq, Structural)]
pub enum TaskState {
    Running,
    WaitingContinuation,
    CompletedWithOutput,
    Idle,
    Unknown,
    Unavailable,
}

/// Whether the channel to the desktop app can carry a continuation.
#[derive(Debug, Clone, Copy, PartialEq, Eq, Structural)]
pub enum ChannelStatus {
    Ready,
    Unavailable,
    Unsupported,
    Unknown,
}

/// What is shown of one task.
#[derive(Debug)]
pub struct TaskSnapshot {
    pub task_id: String,
    pub task_name: Option<String>,
    pub project_path: Option<String>,
    pub state: TaskState,
    pub latest_turn_id: Option<String>,
    pub last_activity_at: Option<Micros>,
    pub continuation_count: u32,
    pub pending_failure: Option<String>,
    pub channel_status: ChannelStatus,
}

/// The characters of an optional string.
pub open spec fn opt_view(o: Option<String>) -> Option<Seq<char>> {
    match o {
        Some(s) => Some(s@),
        None => None,
    }
}

/// A copy of an optional string.
pub fn clone_opt(o: &Option<String>) -> (r: Option<String>)
    ensures
        opt_view(r) == opt_view(*o),
{
    match o {
        Some(s) => Some(s.clone()),
        None => None,
    }
}

/// What a [`TaskSnapshot`] holds.
pub struct SnapshotView {
    pub task_id: Seq<char>,
    pub task_name: Option<Seq<char>>,
    pub project_path: Option<Seq<char>>,
    pub state: TaskState,
    pub latest_turn_id: Option<Seq<char>>,
    pub last_activity_at: Option<Micros>,
    pub continuation_count: u32,
    pub pending_failure: Option<Seq<char>>,
    pub channel_status: ChannelStatus,
}

impl View for TaskSnapshot {
    type V = SnapshotView;

    open spec fn view(&self) -> SnapshotView {
        SnapshotView {
            task_id: self.task_id@,
            task_name: opt_view(self.task_name),
            project_path: opt_view(self.project_path),
            state: self.state,
            latest_turn_id: opt_view(self.latest_turn_id),
            last_activity_at: self.last_activity_at,
            continuation_count: self.continuation_count,
            pending_failure: opt_view(self.pending_failure),
            channel_status: self.channel_status,
        }
    }
}

impl TaskSnapshot {
    /// A copy of this snapshot.
    pub fn duplicate(&self) -> (r: TaskSnapshot)
        ensures
            r@ == self@,
    {
        TaskSnapshot {
            task_id: self.task_id.clone(),
            task_name: clone_opt(&self.task_name),
            project_path: clone_opt(&self.project_path),
            state: self.state,
            latest_turn_id: clone_opt(&self.latest_turn_id),
            last_activity_at: self.last_activity_at,
            continuation_count: self.continuation_count,
            pending_failure: clone_opt(&self.pending_failure),
            channel_status: self.channel_status,
        }
    }
}

/// A task as the registry holds it.
#[derive(Debug)]
pub struct TaskRecord {
    pub snapshot: TaskSnapshot,
    pub latest_started_at: Option<Micros>,
}

/// What a [`TaskRecord`] holds.
pub struct RecordView {
    pub snapshot: SnapshotView,
    pub latest_started_at: Option<Micros>,
}

impl View for TaskRecord {
    type V = RecordView;

    open spec fn view(&self) -> RecordView {
        RecordView { snapshot: self.snapshot@, latest_started_at: self.latest_started_at }
    }
}

impl TaskRecord {
    fn duplicate(&self) -> (r: TaskRecord)
        ensures
            r@ == self@,
    {
        TaskRecord { snapshot: self.snapshot.duplicate(), latest_started_at: self.latest_started_at }
    }
}

/// The record of a task seen for the first time.
pub open spec fn fresh_record(task_id: Seq<char>) -> RecordView {
    RecordView {
        snapshot: SnapshotView {
            task_id,
            task_name: None,
            project_path: None,
            state: TaskState::Idle,
            latest_turn_id: None,
            last_activity_at: None,
            continuation_count: 0,
            pending_failure: None,
            channel_status: ChannelStatus::Unknown,
        },
        latest_started_at: None,
    }
}

/// Tasks by id.
pub type Tasks = Map<Seq<char>, RecordView>;

/// The tasks with `task_id` present, as a fresh record if it was not.
pub open spec fn touched(m: Tasks, task_id: Seq<char>) -> Tasks {
    if m.dom().contains(task_id) {
        m
    } else {
        m.insert(task_id, fresh_record(task_id))
    }
}

/// The record of `task_id`, fresh if there is none.
pub open spec fn record_of(m: Tasks, task_id: Seq<char>) -> RecordView {
    touched(m, task_id)[task_id]
}

/// The tasks after the snapshot of `task_id` is replaced by `f`'s.
pub open spec fn with_snapshot(m: Tasks, task_id: Seq<char>, s: SnapshotView) -> Tasks {
    m.insert(task_id, RecordView { snapshot: s, ..record_of(m, task_id) })
}

/// After a task was named: a blank name is ignored.
pub open spec fn after_set_name(m: Tasks, task_id: Seq<char>, name: Seq<char>) -> Tasks {
    let n = crate::text::trimmed(name);
    if n.len() == 0 {
        m
    } else {
        with_snapshot(
            m,
            task_id,
            SnapshotView { task_name: Some(n), ..record_of(m, task_id).snapshot },
        )
    }
}

/// After a task's project path was set: a blank path is ignored.
pub open spec fn after_set_project_path(m: Tasks, task_id: Seq<char>, path: Seq<char>) -> Tasks {
    let p = crate::text::trimmed(path);
    if p.len() == 0 {
        m
    } else {
        with_snapshot(
            m,
            task_id,
            SnapshotView { project_path: Some(p), ..record_of(m, task_id).snapshot },
        )
    }
}

/// Whether a start at `started` is older than the latest start recorded.
pub open spec fn older_than_latest_start(r: RecordView, at: Micros) -> bool {
    r.latest_started_at matches Some(s) && s > at
}

/// After a turn started at `at`: ignored (but the task is known) when a later
/// start is recorded; otherwise the task is running that turn.
pub open spec fn after_started(m: Tasks, task_id: Seq<char>, turn_id: Seq<char>, at: Micros) -> Tasks {
    let r = record_of(m, task_id);
    if older_than_latest_start(r, at) {
        touched(m, task_id)
    } else {
        m.insert(
            task_id,
            RecordView {
                snapshot: SnapshotView {
                    latest_turn_id: Some(turn_id),
                    last_activity_at: Some(at),
                    state: TaskState::Running,
                    pending_failure: None,
                    ..r.snapshot
                },
                latest_started_at: Some(at),
            },
        )
    }
}

/// The snapshot after the turn `turn_id` ended at `at` in state `state`.
pub open spec fn ended(
    s: SnapshotView,
    turn_id: Seq<char>,
    at: Micros,
    state: TaskState,
    pending: Option<Seq<char>>,
) -> SnapshotView {
    SnapshotView {
        latest_turn_id: Some(turn_id),
        last_activity_at: Some(at),
        state,
        pending_failure: pending,
        ..s
    }
}

/// After a turn completed normally at `at`: ignored (but the task is known)
/// when a later start is recorded; otherwise the task is idle.
pub open spec fn after_completed(m: Tasks, task_id: Seq<char>, turn_id: Seq<char>, at: Micros) -> Tasks {
    let r = record_of(m, task_id);
    if older_than_latest_start(r, at) {
        touched(m, task_id)
    } else {
        with_snapshot(m, task_id, ended(r.snapshot, turn_id, at, TaskState::Idle, None))
    }
}

/// After a turn ended at `at` in `state`, with `pending` as the failure that
/// waits for handling.
pub open spec fn after_ended(
    m: Tasks,
    task_id: Seq<char>,
    turn_id: Seq<char>,
    at: Micros,
    state: TaskState,
    pending: Option<Seq<char>>,
) -> Tasks {
    with_snapshot(m, task_id, ended(record_of(m, task_id).snapshot, turn_id, at, state, pending))
}

/// The map from keys to texts that a list of pairs with distinct keys stands
/// for.
pub open spec fn text_map(s: Seq<(String, String)>) -> Map<Seq<char>, Seq<char>> {
    Map::new(|k: Seq<char>| assoc_map(s).dom().contains(k), |k: Seq<char>| assoc_map(s)[k]@)
}

/// Sets the text of `key` in a list of pairs with distinct keys.
pub fn set_text_entry(entries: &mut Vec<(String, String)>, key: &str, value: String)
    requires
        keys_unique(old(entries)@),
    ensures
        keys_unique(final(entries)@),
        text_map(final(entries)@) == text_map(old(entries)@).insert(key@, value@),
{
    match find_key(entries, key) {
        Some(i) => {
            let k = entries[i].0.clone();
            proof {
                lemma_assoc_update(entries@, i as int, k, value);
            }
            entries.set(i, (k, value));
        },
        None => {
            let k = owned(key);
            proof {
                lemma_assoc_push(entries@, k, value);
            }
            entries.push((k, value));
        },
    }
    assert(text_map(entries@) =~= text_map(old(entries)@).insert(key@, value@));
}

/// A record named from `names`, when its task is listed there.
pub open spec fn renamed(r: RecordView, names: Map<Seq<char>, Seq<char>>) -> RecordView {
    if names.dom().contains(r.snapshot.task_id) {
        RecordView {
            snapshot: SnapshotView { task_name: Some(names[r.snapshot.task_id]), ..r.snapshot },
            ..r
        }
    } else {
        r
    }
}

/// A record given its project path from `paths`, when its task is listed there.
pub open spec fn relocated(r: RecordView, paths: Map<Seq<char>, Seq<char>>) -> RecordView {
    if paths.dom().contains(r.snapshot.task_id) {
        RecordView {
            snapshot: SnapshotView { project_path: Some(paths[r.snapshot.task_id]), ..r.snapshot },
            ..r
        }
    } else {
        r
    }
}

/// A record showing the channel status `status`.
pub open spec fn with_channel(r: RecordView, status: ChannelStatus) -> RecordView {
    RecordView { snapshot: SnapshotView { channel_status: status, ..r.snapshot }, ..r }
}

/// The activity order of snapshots: no activity comes first, then by time.
pub open spec fn activity_lt(a: Option<Micros>, b: Option<Micros>) -> bool {
    match (a, b) {
        (None, Some(_)) => true,
        (Some(x), Some(y)) => x < y,
        _ => false,
    }
}

/// Of a list of snapshots shown for the tasks `m`: each shows a distinct task
/// as it is, they run from most to least recently active, and no task left out
/// was more recently active than one shown.
pub open spec fn shows_most_active(m: Tasks, shown: Seq<TaskSnapshot>) -> bool {
    &&& forall|a: int|
        0 <= a < shown.len() ==> m.dom().contains(#[trigger] shown[a]@.task_id)
            && m[shown[a]@.task_id].snapshot == shown[a]@
    &&& forall|a: int, b: int|
        0 <= a < shown.len() && 0 <= b < shown.len() && a != b ==> #[trigger] shown[a]@.task_id
            != #[trigger] shown[b]@.task_id
    &&& forall|a: int, b: int|
        0 <= a < b < shown.len() ==> !activity_lt(
            #[trigger] shown[a]@.last_activity_at,
            #[trigger] shown[b]@.last_activity_at,
        )
    &&& forall|k: Seq<char>, a: int|
        m.dom().contains(k) && 0 <= a < shown.len() && !(exists|b: int|
            0 <= b < shown.len() && #[trigger] shown[b]@.task_id == k) ==> !activity_lt(
            #[trigger] shown[a]@.last_activity_at,
            #[trigger] m[k].snapshot.last_activity_at,
        )
}

/// Whether activity `a` comes before activity `b`.
fn activity_less(a: Option<Micros>, b: Option<Micros>) -> (r: bool)
    ensures
        r == activity_lt(a, b),
{
    match (a, b) {
        (None, Some(_)) => true,
        (Some(x), Some(y)) => x < y,
        _ => false,
    }
}

/// The position of a most recently active snapshot.
fn most_active(v: &Vec<TaskSnapshot>) -> (r: usize)
    requires
        v@.len() > 0,
    ensures
        r < v@.len(),
        forall|j: int| 0 <= j < v@.len() ==> !activity_lt(
            v@[r as int]@.last_activity_at,
            #[trigger] v@[j]@.last_activity_at,
        ),
{
    let mut best: usize = 0;
    let mut i: usize = 1;
    while i < v.len()
        invariant
            1 <= i <= v@.len(),
            best < i,
            forall|j: int| 0 <= j < i ==> !activity_lt(
                v@[best as int]@.last_activity_at,
                #[trigger] v@[j]@.last_activity_at,
            ),
        decreases v@.len() - i,
    {
        if activity_less(v[best].last_activity_at, v[i].last_activity_at) {
            best = i;
        }
        i += 1;
    }
    best
}

/// The tasks known to the watcher.
#[derive(Debug)]
pub struct TaskRegistry {
    pub tasks: Vec<(String, TaskRecord)>,
}

/// The tasks that a list of records stands for.
pub open spec fn tasks_view(s: Seq<(String, TaskRecord)>) -> Tasks {
    Map::new(
        |k: Seq<char>| assoc_map(s).dom().contains(k),
        |k: Seq<char>| assoc_map(s)[k]@,
    )
}

/// Each task is held once, under its own id.
pub open spec fn records_wf(s: Seq<(String, TaskRecord)>) -> bool {
    &&& keys_unique(s)
    &&& forall|i: int| 0 <= i < s.len() ==> #[trigger] s[i].1.snapshot.task_id@ == s[i].0@
}

/// A list whose records are those of `orig`, each changed by `f`, keeps its
/// keys and stands for `orig`'s tasks each changed by `f`.
proof fn lemma_pointwise(
    orig: Seq<(String, TaskRecord)>,
    now: Seq<(String, TaskRecord)>,
    f: spec_fn(RecordView) -> RecordView,
)
    requires
        records_wf(orig),
        orig.len() == now.len(),
        forall|j: int| 0 <= j < now.len() ==> #[trigger] now[j].0@ == orig[j].0@,
        forall|j: int| 0 <= j < now.len() ==> #[trigger] now[j].1@ == f(orig[j].1@),
        forall|r: RecordView| #[trigger] f(r).snapshot.task_id == r.snapshot.task_id,
    ensures
        records_wf(now),
        tasks_view(now) == Map::new(
            |k: Seq<char>| tasks_view(orig).dom().contains(k),
            |k: Seq<char>| f(tasks_view(orig)[k]),
        ),
{
    assert forall|a: int, b: int|
        0 <= a < now.len() && 0 <= b < now.len() && a != b implies #[trigger] now[a].0@
        != #[trigger] now[b].0@ by {
        assert(orig[a].0@ != orig[b].0@);
    }
    assert forall|i: int| 0 <= i < now.len() implies #[trigger] now[i].1.snapshot.task_id@
        == now[i].0@ by {
        assert(now[i].1@ == f(orig[i].1@));
        assert(f(orig[i].1@).snapshot.task_id == orig[i].1@.snapshot.task_id);
        assert(orig[i].1.snapshot.task_id@ == orig[i].0@);
    }
    assert forall|k: Seq<char>| #[trigger] has_key(now, k) == has_key(orig, k) by {
        if has_key(now, k) {
            let j = choose|j: int| 0 <= j < now.len() && #[trigger] now[j].0@ == k;
            assert(orig[j].0@ == k);
        }
        if has_key(orig, k) {
            let j = choose|j: int| 0 <= j < orig.len() && #[trigger] orig[j].0@ == k;
            assert(now[j].0@ == k);
        }
    }
    let target = Map::new(
        |k: Seq<char>| tasks_view(orig).dom().contains(k),
        |k: Seq<char>| f(tasks_view(orig)[k]),
    );
    assert forall|k: Seq<char>| #[trigger] tasks_view(now).dom().contains(k) implies tasks_view(
        now,
    )[k] == target[k] by {
        let j = choose|j: int| 0 <= j < now.len() && #[trigger] now[j].0@ == k;
        lemma_assoc_at(now, j);
        assert(orig[j].0@ == k);
        lemma_assoc_at(orig, j);
    }
    assert(tasks_view(now).dom() =~= target.dom());
    assert(tasks_view(now) =~= target);
}

impl View for TaskRegistry {
    type V = Tasks;

    open spec fn view(&self) -> Tasks {
        tasks_view(self.tasks@)
    }
}

impl Default for TaskRegistry {
    fn default() -> (r: TaskRegistry)
        ensures
            r.wf(),
            r@ == Map::<Seq<char>, RecordView>::empty(),
    {
        TaskRegistry::new()
    }
}

impl TaskRegistry {
    /// Each task is held once, under its own id.
    pub open spec fn wf(&self) -> bool {
        records_wf(self.tasks@)
    }

    /// An empty registry.
    pub fn new() -> (r: TaskRegistry)
        ensures
            r.wf(),
            r@ == Map::<Seq<char>, RecordView>::empty(),
    {
        let r = TaskRegistry { tasks: Vec::new() };
        assert(r@ =~= Map::<Seq<char>, RecordView>::empty());
        r
    }

    proof fn lemma_view_at(&self, i: int)
        requires
            self.wf(),
            0 <= i < self.tasks@.len(),
        ensures
            self@.dom().contains(self.tasks@[i].0@),
            self@[self.tasks@[i].0@] == self.tasks@[i].1@,
    {
        lemma_assoc_at(self.tasks@, i);
    }

    /// The position of `task_id`'s record, creating a fresh one if needed.
    fn record_index(&mut self, task_id: &str) -> (i: usize)
        requires
            old(self).wf(),
        ensures
            final(self).wf(),
            final(self)@ == touched(old(self)@, task_id@),
            i < final(self).tasks@.len(),
            final(self).tasks@[i as int].0@ == task_id@,
    {
        match find_key(&self.tasks, task_id) {
            Some(i) => {
                proof {
                    self.lemma_view_at(i as int);
                }
                i
            },
            None => {
                let key = owned(task_id);
                let record = TaskRecord {
                    snapshot: TaskSnapshot {
                        task_id: owned(task_id),
                        task_name: None,
                        project_path: None,
                        state: TaskState::Idle,
                        latest_turn_id: None,
                        last_activity_at: None,
                        continuation_count: 0,
                        pending_failure: None,
                        channel_status: ChannelStatus::Unknown,
                    },
                    latest_started_at: None,
                };
                let ghost before = self.tasks@;
                proof {
                    lemma_assoc_push(self.tasks@, key, record);
                }
                self.tasks.push((key, record));
                proof {
                    assert(!self@.dom().contains(task_id@) ==> true);
                    assert(!old(self)@.dom().contains(task_id@));
                    assert(self@ =~= old(self)@.insert(task_id@, fresh_record(task_id@)));
                }
                (self.tasks.len() - 1)
            },
        }
    }

    /// Stores `record` at position `i`.
    fn put(&mut self, i: usize, record: TaskRecord)
        requires
            old(self).wf(),
            i < old(self).tasks@.len(),
            record.snapshot.task_id@ == old(self).tasks@[i as int].0@,
        ensures
            final(self).wf(),
            final(self)@ == old(self)@.insert(old(self).tasks@[i as int].0@, record@),
    {
        let key = self.tasks[i].0.clone();
        proof {
            lemma_assoc_update(self.tasks@, i as int, key, record);
        }
        self.tasks.set(i, (key, record));
        proof {
            assert(self@ =~= old(self)@.insert(old(self).tasks@[i as int].0@, record@));
        }
    }

    /// Names a task; a blank name is ignored.
    pub fn set_name(&mut self, task_id: &str, task_name: &str)
        requires
            old(self).wf(),
        ensures
            final(self).wf(),
            final(self)@ == after_set_name(old(self)@, task_id@, task_name@),
    {
        let name = trim(task_name);
        if !name.as_str().is_empty() {
            let i = self.record_index(task_id);
            proof {
                self.lemma_view_at(i as int);
            }
            let mut record = self.tasks[i].1.duplicate();
            record.snapshot.task_name = Some(name);
            self.put(i, record);
        }
    }

    /// Sets a task's project path; a blank path is ignored.
    pub fn set_project_path(&mut self, task_id: &str, project_path: &str)
        requires
            old(self).wf(),
        ensures
            final(self).wf(),
            final(self)@ == after_set_project_path(old(self)@, task_id@, project_path@),
    {
        let path = trim(project_path);
        if !path.as_str().is_empty() {
            let i = self.record_index(task_id);
            proof {
                self.lemma_view_at(i as int);
            }
            let mut record = self.tasks[i].1.duplicate();
            record.snapshot.project_path = Some(path);
            self.put(i, record);
        }
    }

    /// Replaces the record at `i` by a copy changed as the caller wishes.
    fn record_copy(&self, i: usize) -> (r: TaskRecord)
        requires
            self.wf(),
            i < self.tasks@.len(),
        ensures
            r@ == self.tasks@[i as int].1@,
            r@ == self@[self.tasks@[i as int].0@],
            self@.dom().contains(self.tasks@[i as int].0@),
    {
        proof {
            self.lemma_view_at(i as int);
        }
        self.tasks[i].1.duplicate()
    }

    /// Gives every task named in `task_names` that name.
    pub fn sync_names(&mut self, task_names: &Vec<(String, String)>)
        requires
            old(self).wf(),
            keys_unique(task_names@),
        ensures
            final(self).wf(),
            final(self)@ == Map::new(
                |k: Seq<char>| old(self)@.dom().contains(k),
                |k: Seq<char>| renamed(old(self)@[k], text_map(task_names@)),
            ),
    {
        let ghost orig = self.tasks@;
        let ghost names = text_map(task_names@);
        let mut i: usize = 0;
        while i < self.tasks.len()
            invariant
                records_wf(orig),
                keys_unique(task_names@),
                names == text_map(task_names@),
                self.tasks@.len() == orig.len(),
                i <= orig.len(),
                forall|j: int| 0 <= j < orig.len() ==> #[trigger] self.tasks@[j].0@ == orig[j].0@,
                forall|j: int| 0 <= j < i ==> #[trigger] self.tasks@[j].1@ == renamed(orig[j].1@, names),
                forall|j: int| i <= j < orig.len() ==> #[trigger] self.tasks@[j] == orig[j],
            decreases orig.len() - i,
        {
            let ghost prev = self.tasks@;
            assert(self.tasks@[i as int] == orig[i as int]);
            assert(orig[i as int].1.snapshot.task_id@ == orig[i as int].0@);
            match find_key(task_names, self.tasks[i].0.as_str()) {
                Some(n) => {
                    proof {
                        lemma_assoc_at(task_names@, n as int);
                        assert(names.dom().contains(orig[i as int].1@.snapshot.task_id));
                        assert(names[orig[i as int].1@.snapshot.task_id] == task_names@[n as int].1@);
                    }
                    let mut record = self.tasks[i].1.duplicate();
                    record.snapshot.task_name = Some(task_names[n].1.clone());
                    let key = self.tasks[i].0.clone();
                    self.tasks.set(i, (key, record));
                    assert(self.tasks@[i as int].1@ == renamed(orig[i as int].1@, names));
                },
                None => {
                    assert(!names.dom().contains(orig[i as int].1@.snapshot.task_id));
                    assert(self.tasks@[i as int].1@ == renamed(orig[i as int].1@, names));
                },
            }
            assert forall|j: int| 0 <= j < i + 1 implies #[trigger] self.tasks@[j].1@ == renamed(
                orig[j].1@,
                names,
            ) by {
                if j < i {
                    assert(self.tasks@[j] == prev[j]);
                    assert(prev[j].1@ == self.tasks@[j].1@);
                }
            }
            i += 1;
        }
        proof {
            lemma_pointwise(orig, self.tasks@, |r: RecordView| renamed(r, names));
        }
    }

    /// Gives every task listed in `project_paths` that project path.
    pub fn sync_project_paths(&mut self, project_paths: &Vec<(String, String)>)
        requires
            old(self).wf(),
            keys_unique(project_paths@),
        ensures
            final(self).wf(),
            final(self)@ == Map::new(
                |k: Seq<char>| old(self)@.dom().contains(k),
                |k: Seq<char>| relocated(old(self)@[k], text_map(project_paths@)),
            ),
    {
        let ghost orig = self.tasks@;
        let ghost paths = text_map(project_paths@);
        let mut i: usize = 0;
        while i < self.tasks.len()
            invariant
                records_wf(orig),
                keys_unique(project_paths@),
                paths == text_map(project_paths@),
                self.tasks@.len() == orig.len(),
                i <= orig.len(),
                forall|j: int| 0 <= j < orig.len() ==> #[trigger] self.tasks@[j].0@ == orig[j].0@,
                forall|j: int| 0 <= j < i ==> #[trigger] self.tasks@[j].1@ == relocated(orig[j].1@, paths),
                forall|j: int| i <= j < orig.len() ==> #[trigger] self.tasks@[j] == orig[j],
            decreases orig.len() - i,
        {
            let ghost prev = self.tasks@;
            assert(self.tasks@[i as int] == orig[i as int]);
            assert(orig[i as int].1.snapshot.task_id@ == orig[i as int].0@);
            match find_key(project_paths, self.tasks[i].0.as_str()) {
                Some(n) => {
                    proof {
                        lemma_assoc_at(project_paths@, n as int);
                        assert(paths.dom().contains(orig[i as int].1@.snapshot.task_id));
                        assert(paths[orig[i as int].1@.snapshot.task_id] == project_paths@[n as int].1@);
                    }
                    let mut record = self.tasks[i].1.duplicate();
                    record.snapshot.project_path = Some(project_paths[n].1.clone());
                    let key = self.tasks[i].0.clone();
                    self.tasks.set(i, (key, record));
                    assert(self.tasks@[i as int].1@ == relocated(orig[i as int].1@, paths));
                },
                None => {
                    assert(!paths.dom().contains(orig[i as int].1@.snapshot.task_id));
                    assert(self.tasks@[i as int].1@ == relocated(orig[i as int].1@, paths));
                },
            }
            assert forall|j: int| 0 <= j < i + 1 implies #[trigger] self.tasks@[j].1@ == relocated(
                orig[j].1@,
                paths,
            ) by {
                if j < i {
                    assert(self.tasks@[j] == prev[j]);
                    assert(prev[j].1@ == self.tasks@[j].1@);
                }
            }
            i += 1;
        }
        proof {
            lemma_pointwise(orig, self.tasks@, |r: RecordView| relocated(r, paths));
        }
    }

    /// The name of `task_id`, if it has one.
    pub fn task_name(&self, task_id: &str) -> (r: Option<&str>)
        requires
            self.wf(),
        ensures
            match r {
                Some(n) => self@.dom().contains(task_id@) && self@[task_id@].snapshot.task_name
                    == Some(n@),
                None => !self@.dom().contains(task_id@) || self@[task_id@].snapshot.task_name
                    is None,
            },
    {
        match find_key(&self.tasks, task_id) {
            Some(i) => {
                proof {
                    self.lemma_view_at(i as int);
                }
                match &self.tasks[i].1.snapshot.task_name {
                    Some(n) => Some(n.as_str()),
                    None => None,
                }
            },
            None => None,
        }
    }

    /// Records that the turn `turn_id` of `task_id` started at `started_at`.
    /// A start older than the latest one recorded is ignored.
    pub fn started(&mut self, task_id: &str, turn_id: &str, started_at: Micros)
        requires
            old(self).wf(),
        ensures
            final(self).wf(),
            final(self)@ == after_started(old(self)@, task_id@, turn_id@, started_at),
    {
        let i = self.record_index(task_id);
        let mut record = self.record_copy(i);
        match record.latest_started_at {
            Some(latest) => {
                if latest > started_at {
                    return;
                }
            },
            None => {},
        }
        record.latest_started_at = Some(started_at);
        record.snapshot.latest_turn_id = Some(owned(turn_id));
        record.snapshot.last_activity_at = Some(started_at);
        record.snapshot.state = TaskState::Running;
        record.snapshot.pending_failure = None;
        self.put(i, record);
        proof {
            assert(final(self)@ =~= after_started(old(self)@, task_id@, turn_id@, started_at)) by {
                assert(touched(old(self)@, task_id@).insert(task_id@, record@) =~= old(
                    self,
                )@.insert(task_id@, record@));
            }
        }
    }

    /// Records that the turn `turn_id` of `task_id` completed normally at
    /// `completed_at`. A completion older than the latest start is ignored.
    pub fn completed(&mut self, task_id: &str, turn_id: &str, completed_at: Micros)
        requires
            old(self).wf(),
        ensures
            final(self).wf(),
            final(self)@ == after_completed(old(self)@, task_id@, turn_id@, completed_at),
    {
        let i = self.record_index(task_id);
        let mut record = self.record_copy(i);
        match record.latest_started_at {
            Some(latest) => {
                if latest > completed_at {
                    return;
                }
            },
            None => {},
        }
        record.snapshot.latest_turn_id = Some(owned(turn_id));
        record.snapshot.last_activity_at = Some(completed_at);
        record.snapshot.state = TaskState::Idle;
        record.snapshot.pending_failure = None;
        self.put(i, record);
        proof {
            assert(touched(old(self)@, task_id@).insert(task_id@, record@) =~= old(self)@.insert(
                task_id@,
                record@,
            ));
        }
    }

    /// Marks the turn `turn_id` of `task_id` as ended at `at` in `state`, with
    /// the turn pending when `pending` holds.
    fn end_turn(&mut self, task_id: &str, turn_id: &str, at: Micros, state: TaskState, pending: bool)
        requires
            old(self).wf(),
        ensures
            final(self).wf(),
            final(self)@ == after_ended(
                old(self)@,
                task_id@,
                turn_id@,
                at,
                state,
                if pending {
                    Some(turn_id@)
                } else {
                    None
                },
            ),
    {
        let i = self.record_index(task_id);
        let mut record = self.record_copy(i);
        record.snapshot.latest_turn_id = Some(owned(turn_id));
        record.snapshot.last_activity_at = Some(at);
        record.snapshot.state = state;
        record.snapshot.pending_failure = if pending {
            Some(owned(turn_id))
        } else {
            None
        };
        self.put(i, record);
        proof {
            assert(touched(old(self)@, task_id@).insert(task_id@, record@) =~= old(self)@.insert(
                task_id@,
                record@,
            ));
        }
    }

    /// Records that the turn failed for capacity and waits for continuation.
    pub fn failure_waiting(&mut self, task_id: &str, turn_id: &str, completed_at: Micros)
        requires
            old(self).wf(),
        ensures
            final(self).wf(),
            final(self)@ == after_ended(
                old(self)@,
                task_id@,
                turn_id@,
                completed_at,
                TaskState::WaitingContinuation,
                Some(turn_id@),
            ),
    {
        self.end_turn(task_id, turn_id, completed_at, TaskState::WaitingContinuation, true)
    }

    /// Records that the turn failed for capacity but still answered.
    pub fn completed_with_output(&mut self, task_id: &str, turn_id: &str, completed_at: Micros)
        requires
            old(self).wf(),
        ensures
            final(self).wf(),
            final(self)@ == after_ended(
                old(self)@,
                task_id@,
                turn_id@,
                completed_at,
                TaskState::CompletedWithOutput,
                None,
            ),
    {
        self.end_turn(task_id, turn_id, completed_at, TaskState::CompletedWithOutput, false)
    }

    /// Records that the turn needs the user's review.
    pub fn unknown(&mut self, task_id: &str, turn_id: &str, completed_at: Micros)
        requires
            old(self).wf(),
        ensures
            final(self).wf(),
            final(self)@ == after_ended(
                old(self)@,
                task_id@,
                turn_id@,
                completed_at,
                TaskState::Unknown,
                Some(turn_id@),
            ),
    {
        self.end_turn(task_id, turn_id, completed_at, TaskState::Unknown, true)
    }

    /// Records that the turn must be continued by hand.
    pub fn unavailable(&mut self, task_id: &str, turn_id: &str, at: Micros)
        requires
            old(self).wf(),
        ensures
            final(self).wf(),
            final(self)@ == after_ended(
                old(self)@,
                task_id@,
                turn_id@,
                at,
                TaskState::Unavailable,
                Some(turn_id@),
            ),
    {
        self.end_turn(task_id, turn_id, at, TaskState::Unavailable, true)
    }

    /// Records that a continuation started the turn `turn_id`.
    pub fn sent(&mut self, task_id: &str, turn_id: &str, at: Micros)
        requires
            old(self).wf(),
        ensures
            final(self).wf(),
            final(self)@ == after_ended(
                old(self)@,
                task_id@,
                turn_id@,
                at,
                TaskState::Running,
                None,
            ),
    {
        self.end_turn(task_id, turn_id, at, TaskState::Running, false)
    }

    /// Sets the channel status shown for `task_id`.
    pub fn set_channel_status(&mut self, task_id: &str, status: ChannelStatus)
        requires
            old(self).wf(),
        ensures
            final(self).wf(),
            final(self)@ == with_snapshot(
                old(self)@,
                task_id@,
                SnapshotView {
                    channel_status: status,
                    ..record_of(old(self)@, task_id@).snapshot
                },
            ),
    {
        let i = self.record_index(task_id);
        let mut record = self.record_copy(i);
        record.snapshot.channel_status = status;
        self.put(i, record);
        proof {
            assert(touched(old(self)@, task_id@).insert(task_id@, record@) =~= old(self)@.insert(
                task_id@,
                record@,
            ));
        }
    }

    /// Sets the channel status shown for every task.
    pub fn set_all_channel_status(&mut self, status: ChannelStatus)
        requires
            old(self).wf(),
        ensures
            final(self).wf(),
            final(self)@ == Map::new(
                |k: Seq<char>| old(self)@.dom().contains(k),
                |k: Seq<char>| with_channel(old(self)@[k], status),
            ),
    {
        let ghost orig = self.tasks@;
        let mut i: usize = 0;
        while i < self.tasks.len()
            invariant
                records_wf(orig),
                self.tasks@.len() == orig.len(),
                i <= orig.len(),
                forall|j: int| 0 <= j < orig.len() ==> #[trigger] self.tasks@[j].0@ == orig[j].0@,
                forall|j: int| 0 <= j < i ==> #[trigger] self.tasks@[j].1@ == with_channel(orig[j].1@, status),
                forall|j: int| i <= j < orig.len() ==> #[trigger] self.tasks@[j] == orig[j],
            decreases orig.len() - i,
        {
            let ghost prev = self.tasks@;
            assert(self.tasks@[i as int] == orig[i as int]);
            let mut record = self.tasks[i].1.duplicate();
            record.snapshot.channel_status = status;
            let key = self.tasks[i].0.clone();
            self.tasks.set(i, (key, record));
            assert(self.tasks@[i as int].1@ == with_channel(orig[i as int].1@, status));
            assert forall|j: int| 0 <= j < i + 1 implies #[trigger] self.tasks@[j].1@ == with_channel(
                orig[j].1@,
                status,
            ) by {
                if j < i {
                    assert(self.tasks@[j] == prev[j]);
                    assert(prev[j].1@ == self.tasks@[j].1@);
                }
            }
            i += 1;
        }
        proof {
            lemma_pointwise(orig, self.tasks@, |r: RecordView| with_channel(r, status));
        }
    }

    /// When the latest recorded turn of `task_id` started.
    pub fn latest_started_at(&self, task_id: &str) -> (r: Option<Micros>)
        requires
            self.wf(),
        ensures
            r == if self@.dom().contains(task_id@) {
                self@[task_id@].latest_started_at
            } else {
                None
            },
    {
        match find_key(&self.tasks, task_id) {
            Some(i) => {
                proof {
                    self.lemma_view_at(i as int);
                }
                self.tasks[i].1.latest_started_at
            },
            None => None,
        }
    }

    /// Forgets `task_id`; true when it was known. It returns with its next
    /// activity.
    pub fn dismiss(&mut self, task_id: &str) -> (r: bool)
        requires
            old(self).wf(),
        ensures
            final(self).wf(),
            r == old(self)@.dom().contains(task_id@),
            final(self)@ == old(self)@.remove(task_id@),
    {
        match find_key(&self.tasks, task_id) {
            Some(i) => {
                proof {
                    self.lemma_view_at(i as int);
                    lemma_assoc_remove(self.tasks@, i as int);
                    let t = self.tasks@.remove(i as int);
                    assert forall|j: int| 0 <= j < t.len() implies #[trigger] t[j].1.snapshot.task_id@
                        == t[j].0@ by {
                        let j2 = if j < i { j } else { j + 1 };
                        assert(t[j] == self.tasks@[j2]);
                    }
                }
                self.tasks.remove(i);
                proof {
                    assert(self@ =~= old(self)@.remove(task_id@));
                }
                true
            },
            None => {
                assert(old(self)@.remove(task_id@) =~= old(self)@);
                false
            },
        }
    }

    /// The snapshots of the most recently active tasks, most recent first; at
    /// most [`MAX_SNAPSHOTS`] of them.
    pub fn snapshots(&self) -> (r: Vec<TaskSnapshot>)
        requires
            self.wf(),
        ensures
            r@.len() == if self.tasks@.len() <= MAX_SNAPSHOTS {
                self.tasks@.len() as int
            } else {
                MAX_SNAPSHOTS as int
            },
            shows_most_active(self@, r@),
    {
        let mut rest: Vec<TaskSnapshot> = Vec::new();
        let mut i: usize = 0;
        while i < self.tasks.len()
            invariant
                self.wf(),
                i <= self.tasks@.len(),
                rest@.len() == i,
                forall|j: int| 0 <= j < i ==> #[trigger] rest@[j]@ == self.tasks@[j].1.snapshot@,
            decreases self.tasks@.len() - i,
        {
            rest.push(self.tasks[i].1.snapshot.duplicate());
            i += 1;
        }
        proof {
            assert forall|a: int, b: int|
                0 <= a < rest@.len() && 0 <= b < rest@.len() && a != b implies #[trigger] rest@[a]@.task_id
                != #[trigger] rest@[b]@.task_id by {
                assert(self.tasks@[a].1.snapshot.task_id@ == self.tasks@[a].0@);
                assert(self.tasks@[b].1.snapshot.task_id@ == self.tasks@[b].0@);
            }
            assert forall|a: int| 0 <= a < rest@.len() implies self@.dom().contains(
                #[trigger] rest@[a]@.task_id,
            ) && self@[rest@[a]@.task_id].snapshot == rest@[a]@ by {
                assert(self.tasks@[a].1.snapshot.task_id@ == self.tasks@[a].0@);
                self.lemma_view_at(a);
            }
            assert forall|k: Seq<char>| #[trigger] self@.dom().contains(k) implies exists|a: int|
                0 <= a < rest@.len() && #[trigger] rest@[a]@.task_id == k by {
                let a = choose|a: int| 0 <= a < self.tasks@.len() && #[trigger] self.tasks@[a].0@ == k;
                assert(self.tasks@[a].1.snapshot.task_id@ == self.tasks@[a].0@);
                assert(rest@[a]@.task_id == k);
            }
        }
        let mut out: Vec<TaskSnapshot> = Vec::new();
        while out.len() < MAX_SNAPSHOTS && rest.len() > 0
            invariant
                out@.len() + rest@.len() == self.tasks@.len(),
                out@.len() <= MAX_SNAPSHOTS,
                forall|a: int| 0 <= a < out@.len() ==> self@.dom().contains(
                    #[trigger] out@[a]@.task_id,
                ) && self@[out@[a]@.task_id].snapshot == out@[a]@,
                forall|a: int| 0 <= a < rest@.len() ==> self@.dom().contains(
                    #[trigger] rest@[a]@.task_id,
                ) && self@[rest@[a]@.task_id].snapshot == rest@[a]@,
                forall|a: int, b: int|
                    0 <= a < out@.len() && 0 <= b < out@.len() && a != b ==> #[trigger] out@[a]@.task_id
                        != #[trigger] out@[b]@.task_id,
                forall|a: int, b: int|
                    0 <= a < rest@.len() && 0 <= b < rest@.len() && a != b
                        ==> #[trigger] rest@[a]@.task_id != #[trigger] rest@[b]@.task_id,
                forall|a: int, b: int|
                    0 <= a < out@.len() && 0 <= b < rest@.len() ==> #[trigger] out@[a]@.task_id
                        != #[trigger] rest@[b]@.task_id,
                forall|k: Seq<char>| #[trigger]
                    self@.dom().contains(k) ==> (exists|a: int|
                        0 <= a < out@.len() && #[trigger] out@[a]@.task_id == k) || (exists|a: int|
                        0 <= a < rest@.len() && #[trigger] rest@[a]@.task_id == k),
                forall|a: int, b: int|
                    0 <= a < b < out@.len() ==> !activity_lt(
                        #[trigger] out@[a]@.last_activity_at,
                        #[trigger] out@[b]@.last_activity_at,
                    ),
                forall|a: int, b: int|
                    0 <= a < out@.len() && 0 <= b < rest@.len() ==> !activity_lt(
                        #[trigger] out@[a]@.last_activity_at,
                        #[trigger] rest@[b]@.last_activity_at,
                    ),
            decreases rest@.len(),
        {
            let m = most_active(&rest);
            let ghost before_rest = rest@;
            let ghost before_out = out@;
            let picked = rest.remove(m);
            out.push(picked);
            proof {
                assert forall|k: Seq<char>| #[trigger] self@.dom().contains(k) implies (exists|a: int|
                    0 <= a < out@.len() && #[trigger] out@[a]@.task_id == k) || (exists|a: int|
                    0 <= a < rest@.len() && #[trigger] rest@[a]@.task_id == k) by {
                    if exists|a: int| 0 <= a < before_out.len() && #[trigger] before_out[a]@.task_id == k {
                        let a = choose|a: int| 0 <= a < before_out.len() && #[trigger] before_out[a]@.task_id == k;
                        assert(out@[a] == before_out[a]);
                    } else {
                        let a = choose|a: int| 0 <= a < before_rest.len() && #[trigger] before_rest[a]@.task_id == k;
                        if a == m {
                            assert(out@[before_out.len() as int]@.task_id == k);
                        } else if a < m {
                            assert(rest@[a] == before_rest[a]);
                        } else {
                            assert(rest@[a - 1] == before_rest[a]);
                        }
                    }
                }
                assert forall|a: int, b: int|
                    0 <= a < out@.len() && 0 <= b < rest@.len() implies #[trigger] out@[a]@.task_id
                    != #[trigger] rest@[b]@.task_id by {
                    let b2 = if b < m { b } else { b + 1 };
                    assert(rest@[b] == before_rest[b2]);
                    if a < before_out.len() {
                        assert(out@[a] == before_out[a]);
                    }
                }
                assert forall|a: int, b: int|
                    0 <= a < out@.len() && 0 <= b < rest@.len() implies !activity_lt(
                    #[trigger] out@[a]@.last_activity_at,
                    #[trigger] rest@[b]@.last_activity_at,
                ) by {
                    let b2 = if b < m { b } else { b + 1 };
                    assert(rest@[b] == before_rest[b2]);
                    if a < before_out.len() {
                        assert(out@[a] == before_out[a]);
                    }
                }
                assert forall|a: int, b: int|
                    0 <= a < b < out@.len() implies !activity_lt(
                    #[trigger] out@[a]@.last_activity_at,
                    #[trigger] out@[b]@.last_activity_at,
                ) by {
                    assert(out@[a] == before_out[a]);
                    if b < before_out.len() {
                        assert(out@[b] == before_out[b]);
                    }
                }
                assert forall|a: int, b: int|
                    0 <= a < out@.len() && 0 <= b < out@.len() && a != b implies #[trigger] out@[a]@.task_id
                    != #[trigger] out@[b]@.task_id by {
                    if a < before_out.len() {
                        assert(out@[a] == before_out[a]);
                    }
                    if b < before_out.len() {
                        assert(out@[b] == before_out[b]);
                    }
                }
                assert forall|a: int, b: int|
                    0 <= a < rest@.len() && 0 <= b < rest@.len() && a != b implies #[trigger] rest@[a]@.task_id
                    != #[trigger] rest@[b]@.task_id by {
                    let a2 = if a < m { a } else { a + 1 };
                    let b2 = if b < m { b } else { b + 1 };
                    assert(rest@[a] == before_rest[a2]);
                    assert(rest@[b] == before_rest[b2]);
                }
                assert forall|a: int| 0 <= a < rest@.len() implies self@.dom().contains(
                    #[trigger] rest@[a]@.task_id,
                ) && self@[rest@[a]@.task_id].snapshot == rest@[a]@ by {
                    let a2 = if a < m { a } else { a + 1 };
                    assert(rest@[a] == before_rest[a2]);
                }
                assert forall|a: int| 0 <= a < out@.len() implies self@.dom().contains(
                    #[trigger] out@[a]@.task_id,
                ) && self@[out@[a]@.task_id].snapshot == out@[a]@ by {
                    if a < before_out.len() {
                        assert(out@[a] == before_out[a]);
                    }
                }
            }
        }
        proof {
            assert forall|k: Seq<char>, a: int|
                self@.dom().contains(k) && 0 <= a < out@.len() && !(exists|b: int|
                    0 <= b < out@.len() && #[trigger] out@[b]@.task_id == k) implies !activity_lt(
                #[trigger] out@[a]@.last_activity_at,
                #[trigger] self@[k].snapshot.last_activity_at,
            ) by {
                let b = choose|b: int| 0 <= b < rest@.len() && #[trigger] rest@[b]@.task_id == k;
                assert(self@[rest@[b]@.task_id].snapshot == rest@[b]@);
            }
        }
        out
    }
}

/// A completion older than the task's latest start leaves the task as it was.
pub proof fn law_stale_completion_ignored(m: Tasks, task_id: Seq<char>, turn_id: Seq<char>, at: Micros)
    requires
        older_than_latest_start(record_of(m, task_id), at),
    ensures
        after_completed(m, task_id, turn_id, at) == touched(m, task_id),
        after_completed(m, task_id, turn_id, at)[task_id] == record_of(m, task_id),
{
}

/// A turn that starts and then completes normally leaves its task idle with
/// nothing pending.
pub proof fn law_start_then_completion_is_idle(
    m: Tasks,
    task_id: Seq<char>,
    turn_id: Seq<char>,
    started_at: Micros,
    completed_at: Micros,
)
    requires
        !older_than_latest_start(record_of(m, task_id), started_at),
        started_at <= completed_at,
    ensures
        ({
            let done = after_completed(
                after_started(m, task_id, turn_id, started_at),
                task_id,
                turn_id,
                completed_at,
            );
            &&& done[task_id].snapshot.state == TaskState::Idle
            &&& done[task_id].snapshot.pending_failure is None
            &&& done[task_id].snapshot.latest_turn_id == Some(turn_id)
        }),
{
}

/// The latest start of a task never moves back.
pub proof fn law_latest_start_never_decreases(
    m: Tasks,
    task_id: Seq<char>,
    turn_id: Seq<char>,
    at: Micros,
    earlier: Micros,
)
    requires
        record_of(m, task_id).latest_started_at == Some(earlier),
    ensures
        after_started(m, task_id, turn_id, at)[task_id].latest_started_at matches Some(t) && t
            >= earlier,
{
}

/// A dismissed task comes back with its next start.
pub proof fn law_dismissed_task_returns(m: Tasks, task_id: Seq<char>, turn_id: Seq<char>, at: Micros)
    ensures
        !m.remove(task_id).dom().contains(task_id),
        after_started(m.remove(task_id), task_id, turn_id, at).dom().contains(task_id),
        after_started(m.remove(task_id), task_id, turn_id, at)[task_id].snapshot.latest_turn_id
            == Some(turn_id),
        after_started(m.remove(task_id), task_id, turn_id, at)[task_id].snapshot.state
            == TaskState::Running,
{
}

/// A start that is not older than the task's latest start shows the task
/// running that turn, whatever it showed before, with nothing pending; the
/// other tasks are untouched.
pub proof fn law_start_shows_task_running(
    m: Tasks,
    task_id: Seq<char>,
    turn_id: Seq<char>,
    at: Micros,
    other: Seq<char>,
)
    requires
        !older_than_latest_start(record_of(m, task_id), at),
    ensures
        after_started(m, task_id, turn_id, at).dom().contains(task_id),
        after_started(m, task_id, turn_id, at)[task_id].snapshot.state == TaskState::Running,
        after_started(m, task_id, turn_id, at)[task_id].snapshot.latest_turn_id == Some(turn_id),
        after_started(m, task_id, turn_id, at)[task_id].snapshot.last_activity_at == Some(at),
        after_started(m, task_id, turn_id, at)[task_id].snapshot.pending_failure is None,
        after_started(m, task_id, turn_id, at)[task_id].latest_started_at == Some(at),
        after_started(m, task_id, turn_id, at)[task_id].snapshot.task_id == record_of(
            m,
            task_id,
        ).snapshot.task_id,
        other != task_id && m.dom().contains(other) ==> after_started(
            m,
            task_id,
            turn_id,
            at,
        ).dom().contains(other) && after_started(m, task_id, turn_id, at)[other] == m[other],
{
}

/// A normal completion that is not older than the task's latest start shows
/// the task idle after that turn, with nothing pending; its latest start is
/// kept.
pub proof fn law_completion_shows_task_idle(
    m: Tasks,
    task_id: Seq<char>,
    turn_id: Seq<char>,
    at: Micros,
)
    requires
        !older_than_latest_start(record_of(m, task_id), at),
    ensures
        after_completed(m, task_id, turn_id, at).dom().contains(task_id),
        after_completed(m, task_id, turn_id, at)[task_id].snapshot.state == TaskState::Idle,
        after_completed(m, task_id, turn_id, at)[task_id].snapshot.latest_turn_id == Some(turn_id),
        after_completed(m, task_id, turn_id, at)[task_id].snapshot.last_activity_at == Some(at),
        after_completed(m, task_id, turn_id, at)[task_id].snapshot.pending_failure is None,
        after_completed(m, task_id, turn_id, at)[task_id].latest_started_at == record_of(
            m,
            task_id,
        ).latest_started_at,
{
}

} // verus!
