//! The watcher's decisions: what each session event does to the tasks, to the
//! record of handled failures, and to the queue of failures waiting for
//! continuation.

use vstd::prelude::*;

use crate::classifier::CapacityDecision;
use crate::clock::{now_micros, Micros};
use crate::events::{EventView, FailureEvent, FailureView, SessionEvent, DEFAULT_RETRY_MESSAGE};
use crate::keyed::{
    find_key, keys_unique, lemma_assoc_at, lemma_view_set_push, lemma_view_set_remove, view_set,
    views_unique,
};
use crate::policy::{chain_count, noted, reset, EventKey, PolicyState, PolicyView};
use crate::state::{
    law_completion_shows_task_idle, law_start_shows_task_running, older_than_latest_start, record_of, after_completed, after_ended, after_set_name, after_set_project_path, after_started, text_map,
    TaskRegistry, TaskState, Tasks,
};
use crate::text::{owned, str_eq};

verus! {

/// How far back, in microseconds, the first look at the records reaches:
/// ten minutes.
pub const CATCH_UP_MICROS: i64 = 600_000_000;

/// A handled-failure key: task and turn.
pub type Key = (Seq<char>, Seq<char>);

/// What the watcher's decisions depend on and change.
pub struct WatcherView {
    pub registry: Tasks,
    pub policy: PolicyView,
    pub pending: Seq<FailureView>,
    pub pending_keys: Set<Key>,
    pub task_names: Map<Seq<char>, Seq<char>>,
    pub task_project_paths: Map<Seq<char>, Seq<char>>,
    pub policy_dirty: bool,
    pub initial_cutoff: Option<Micros>,
    pub retry: Seq<char>,
}

/// The watcher over the session records under `root`.
pub struct SessionWatcher {
    pub root: String,
    pub registry: TaskRegistry,
    pub policy: PolicyState,
    pub offsets: Vec<(String, u64)>,
    pub partial_lines: Vec<(String, String)>,
    pub known_files: Vec<String>,
    pub pending: Vec<FailureEvent>,
    pub pending_keys: Vec<EventKey>,
    pub task_names: Vec<(String, String)>,
    pub task_project_paths: Vec<(String, String)>,
    pub policy_dirty: bool,
    pub initial_cutoff: Option<Micros>,
    pub retry_message: String,
}

/// The first look at the records of a watcher started at `now`: it reaches
/// back [`CATCH_UP_MICROS`].
pub open spec fn startup_cutoff(now: Micros) -> Option<Micros> {
    Some((now - CATCH_UP_MICROS) as i64)
}

/// Whether two watchers read the same files from the same places: their root,
/// read offsets, partial lines and known files are alike.
pub open spec fn same_files(a: SessionWatcher, b: SessionWatcher) -> bool {
    &&& a.root == b.root
    &&& a.offsets == b.offsets
    &&& a.partial_lines == b.partial_lines
    &&& a.known_files == b.known_files
}

/// The views of a list of failures.
pub open spec fn failure_views(s: Seq<FailureEvent>) -> Seq<FailureView> {
    s.map_values(|f: FailureEvent| f@)
}

impl View for SessionWatcher {
    type V = WatcherView;

    open spec fn view(&self) -> WatcherView {
        WatcherView {
            registry: self.registry@,
            policy: self.policy@,
            pending: failure_views(self.pending@),
            pending_keys: view_set(self.pending_keys@),
            task_names: text_map(self.task_names@),
            task_project_paths: text_map(self.task_project_paths@),
            policy_dirty: self.policy_dirty,
            initial_cutoff: self.initial_cutoff,
            retry: self.retry_message@,
        }
    }
}

// ---------------------------------------------------------------------------
// The decisions, stated over the model
// ---------------------------------------------------------------------------

/// The watcher after the failures `keys` are recorded as handled: the policy
/// needs saving when one of them was new.
pub open spec fn mark_only(w: WatcherView, keys: Set<Key>) -> WatcherView {
    WatcherView {
        policy: PolicyView { processed: w.policy.processed.union(keys), ..w.policy },
        policy_dirty: w.policy_dirty || exists|k: Key|
            keys.contains(k) && !#[trigger] w.policy.processed.contains(k),
        ..w
    }
}

/// The watcher after the failures `keys` leave the queue's key set and are
/// recorded as handled.
pub open spec fn settle(w: WatcherView, keys: Set<Key>) -> WatcherView {
    mark_only(WatcherView { pending_keys: w.pending_keys.difference(keys), ..w }, keys)
}

/// The keys of the queued failures of `task_id` that completed before `at`.
pub open spec fn superseded_keys(p: Seq<FailureView>, task_id: Seq<char>, at: Micros) -> Set<Key> {
    Set::new(
        |k: Key|
            exists|i: int|
                0 <= i < p.len() && #[trigger] p[i].key == k && p[i].key.0 == task_id
                    && p[i].completed_at < at,
    )
}

/// The keys of the queued failures of `task_id`.
pub open spec fn task_keys(p: Seq<FailureView>, task_id: Seq<char>) -> Set<Key> {
    Set::new(|k: Key| exists|i: int| 0 <= i < p.len() && #[trigger] p[i].key == k && k.0 == task_id)
}

/// The queue without the failures whose key is in `keys`.
pub open spec fn drop_keys(p: Seq<FailureView>, keys: Set<Key>) -> Seq<FailureView>
    decreases p.len(),
{
    if p.len() == 0 {
        p
    } else if keys.contains(p.last().key) {
        drop_keys(p.drop_last(), keys)
    } else {
        drop_keys(p.drop_last(), keys).push(p.last())
    }
}

/// The queue without the failures of `task_id`.
pub open spec fn drop_task(p: Seq<FailureView>, task_id: Seq<char>) -> Seq<FailureView>
    decreases p.len(),
{
    if p.len() == 0 {
        p
    } else if p.last().key.0 == task_id {
        drop_task(p.drop_last(), task_id)
    } else {
        drop_task(p.drop_last(), task_id).push(p.last())
    }
}

/// The watcher after the queued failures of `task_id` older than `at` are
/// dropped as superseded and recorded as handled.
pub open spec fn superseded(w: WatcherView, task_id: Seq<char>, at: Micros) -> WatcherView {
    let keys = superseded_keys(w.pending, task_id, at);
    settle(WatcherView { pending: drop_keys(w.pending, keys), ..w }, keys)
}

/// The watcher after all queued failures of `task_id` are dropped and recorded
/// as handled.
pub open spec fn cancelled(w: WatcherView, task_id: Seq<char>) -> WatcherView {
    let keys = task_keys(w.pending, task_id);
    settle(WatcherView { pending: drop_task(w.pending, task_id), ..w }, keys)
}

/// The watcher after an automatic turn is noted; the policy needs saving when
/// the task's count changed.
pub open spec fn noted_turn(w: WatcherView, task_id: Seq<char>, turn_id: Seq<char>) -> WatcherView {
    let p = noted(w.policy, task_id, turn_id);
    WatcherView {
        policy: p,
        policy_dirty: w.policy_dirty || chain_count(p.chains, task_id) != chain_count(
            w.policy.chains,
            task_id,
        ),
        ..w
    }
}

/// The watcher after a task's count is cleared, if it had one.
pub open spec fn chain_cleared(w: WatcherView, task_id: Seq<char>) -> WatcherView {
    if chain_count(w.policy.chains, task_id) > 0 {
        WatcherView { policy: reset(w.policy, task_id), policy_dirty: true, ..w }
    } else {
        w
    }
}

/// The watcher with the task's known name and project path applied.
pub open spec fn named(w: WatcherView, task_id: Seq<char>) -> WatcherView {
    let r1 = if w.task_names.dom().contains(task_id) {
        after_set_name(w.registry, task_id, w.task_names[task_id])
    } else {
        w.registry
    };
    let r2 = if w.task_project_paths.dom().contains(task_id) {
        after_set_project_path(r1, task_id, w.task_project_paths[task_id])
    } else {
        r1
    };
    WatcherView { registry: r2, ..w }
}

/// When the latest recorded turn of a task started.
pub open spec fn latest_start(m: Tasks, task_id: Seq<char>) -> Option<Micros> {
    if m.dom().contains(task_id) {
        m[task_id].latest_started_at
    } else {
        None
    }
}

/// The watcher with its registry replaced.
pub open spec fn with_registry(w: WatcherView, registry: Tasks) -> WatcherView {
    WatcherView { registry, ..w }
}

/// What a failure does to the watcher.
pub open spec fn failure_handled(w: WatcherView, f: FailureView) -> WatcherView {
    let (task_id, turn_id) = f.key;
    if w.policy.processed.contains(f.key) || (latest_start(w.registry, task_id) matches Some(s)
        && s > f.completed_at) {
        mark_only(w, set![f.key])
    } else {
        match f.decision {
            CapacityDecision::Eligible => {
                let registry = after_ended(
                    w.registry,
                    task_id,
                    turn_id,
                    f.completed_at,
                    TaskState::WaitingContinuation,
                    Some(turn_id),
                );
                if w.pending_keys.contains(f.key) {
                    with_registry(w, registry)
                } else {
                    WatcherView {
                        registry,
                        pending: w.pending.push(f),
                        pending_keys: w.pending_keys.insert(f.key),
                        ..w
                    }
                }
            },
            CapacityDecision::CompletedWithOutput => {
                let w2 = mark_only(w, set![f.key]);
                with_registry(
                    w2,
                    after_ended(
                        w2.registry,
                        task_id,
                        turn_id,
                        f.completed_at,
                        TaskState::CompletedWithOutput,
                        None,
                    ),
                )
            },
            CapacityDecision::Unknown => {
                let w2 = mark_only(w, set![f.key]);
                with_registry(
                    w2,
                    after_ended(
                        w2.registry,
                        task_id,
                        turn_id,
                        f.completed_at,
                        TaskState::Unknown,
                        Some(turn_id),
                    ),
                )
            },
            CapacityDecision::NotCapacity => w,
        }
    }
}

/// What one session event does to the watcher. Before the first look at the
/// records is over, events older than the cutoff are ignored.
pub open spec fn handled(w: WatcherView, e: EventView) -> WatcherView {
    if w.initial_cutoff matches Some(c) && e.occurred_at() < c {
        w
    } else {
        let w1 = named(w, e.task());
        match e {
            EventView::Started { task_id, turn_id, started_at } => superseded(
                with_registry(w1, after_started(w1.registry, task_id, turn_id, started_at)),
                task_id,
                started_at,
            ),
            EventView::UserMessage { task_id, turn_id, automatic, at } => if automatic {
                noted_turn(w1, task_id, turn_id)
            } else {
                let w3 = cancelled(chain_cleared(w1, task_id), task_id);
                with_registry(w3, after_started(w3.registry, task_id, turn_id, at))
            },
            EventView::Completed { task_id, turn_id, completed_at } => {
                let w2 = superseded(w1, task_id, completed_at);
                with_registry(w2, after_completed(w2.registry, task_id, turn_id, completed_at))
            },
            EventView::Failure(f) => failure_handled(w1, f),
        }
    }
}

/// The watcher after the policy was saved.
pub open spec fn saved(w: WatcherView) -> WatcherView {
    WatcherView { policy_dirty: false, ..w }
}

/// The watcher after its first look at the records is over.
pub open spec fn cutoff_cleared(w: WatcherView) -> WatcherView {
    WatcherView { initial_cutoff: None, ..w }
}

/// The watcher with another queue key set.
pub open spec fn with_pending_keys(w: WatcherView, keys: Set<Key>) -> WatcherView {
    WatcherView { pending_keys: keys, ..w }
}

/// The watcher after a failure is put back in the queue, unless its key is
/// queued.
pub open spec fn requeued(w: WatcherView, f: FailureView) -> WatcherView {
    if w.pending_keys.contains(f.key) {
        w
    } else {
        WatcherView { pending: w.pending.push(f), pending_keys: w.pending_keys.insert(f.key), ..w }
    }
}

/// The keys of some failures.
pub open spec fn keys_of(s: Seq<FailureView>) -> Set<Key> {
    Set::new(|k: Key| exists|i: int| 0 <= i < s.len() && #[trigger] s[i].key == k)
}

/// The watcher with its queue taken and the keys `keys` gone from the key set.
pub open spec fn emptied(w: WatcherView, keys: Set<Key>) -> WatcherView {
    WatcherView { pending: Seq::empty(), pending_keys: w.pending_keys.difference(keys), ..w }
}

/// The position of the first failure with the earliest completion.
pub open spec fn first_earliest(s: Seq<FailureView>) -> int
    decreases s.len(),
{
    if s.len() <= 1 {
        0
    } else {
        let j = first_earliest(s.drop_last());
        if s.last().completed_at < s[j].completed_at {
            s.len() - 1
        } else {
            j
        }
    }
}

/// The failures ordered by completion time, earliest first; failures that
/// completed at the same time keep their order.
pub open spec fn by_completion(s: Seq<FailureView>) -> Seq<FailureView>
    decreases s.len(),
{
    if s.len() == 0 {
        s
    } else {
        let m = first_earliest(s);
        if 0 <= m < s.len() {
            seq![s[m]] + by_completion(s.remove(m))
        } else {
            s
        }
    }
}

proof fn lemma_first_earliest_bounds(s: Seq<FailureView>)
    requires
        s.len() > 0,
    ensures
        0 <= first_earliest(s) < s.len(),
    decreases s.len(),
{
    if s.len() > 1 {
        lemma_first_earliest_bounds(s.drop_last());
    }
}

// ---------------------------------------------------------------------------
// The watcher
// ---------------------------------------------------------------------------

impl SessionWatcher {
    /// The collections hold no key twice. That the queue agrees with its key
    /// set is not part of it: a failure recorded as continued while still
    /// queued leaves its key out of the set and the failure in the queue (see
    /// [`key_agrees`] and [`queue_agrees`]).
    pub open spec fn wf(&self) -> bool {
        &&& self.registry.wf()
        &&& self.policy.wf()
        &&& keys_unique(self.offsets@)
        &&& keys_unique(self.partial_lines@)
        &&& views_unique(self.pending_keys@)
        &&& keys_unique(self.task_names@)
        &&& keys_unique(self.task_project_paths@)
    }

    /// A watcher whose first look at the records reaches back
    /// [`CATCH_UP_MICROS`] before `now`, continuing tasks with `retry`.
    pub fn new_at(root: String, policy: PolicyState, retry: &str, now: Micros) -> (r: SessionWatcher)
        requires
            policy.wf(),
        ensures
            r.wf(),
            r.root@ == root@,
            r@.registry == Map::<Seq<char>, crate::state::RecordView>::empty(),
            r@.policy == policy@,
            r@.pending == Seq::<FailureView>::empty(),
            r@.pending_keys == Set::<Key>::empty(),
            r@.task_names == Map::<Seq<char>, Seq<char>>::empty(),
            r@.task_project_paths == Map::<Seq<char>, Seq<char>>::empty(),
            !r@.policy_dirty,
            r@.initial_cutoff == Some(
                if now >= i64::MIN + CATCH_UP_MICROS {
                    (now - CATCH_UP_MICROS) as i64
                } else {
                    i64::MIN
                },
            ),
            r@.retry == retry@,
            queue_agrees(r@),
            r.offsets@.len() == 0,
            r.partial_lines@.len() == 0,
            r.known_files@.len() == 0,
    {
        let cutoff = if now >= i64::MIN + CATCH_UP_MICROS {
            now - CATCH_UP_MICROS
        } else {
            i64::MIN
        };
        let r = SessionWatcher {
            root,
            registry: TaskRegistry::new(),
            policy,
            offsets: Vec::new(),
            partial_lines: Vec::new(),
            known_files: Vec::new(),
            pending: Vec::new(),
            pending_keys: Vec::new(),
            task_names: Vec::new(),
            task_project_paths: Vec::new(),
            policy_dirty: false,
            initial_cutoff: Some(cutoff),
            retry_message: owned(retry),
        };
        assert(r@.pending =~= Seq::<FailureView>::empty());
        assert(r@.pending_keys =~= Set::<Key>::empty());
        proof {
            lemma_keys_of_empty(r@.pending);
        }
        assert(r@.task_names =~= Map::<Seq<char>, Seq<char>>::empty());
        assert(r@.task_project_paths =~= Map::<Seq<char>, Seq<char>>::empty());
        r
    }

    /// A watcher over `root` that starts from `policy`; its first look reaches
    /// back ten minutes from now.
    pub fn new(root: String, policy: PolicyState) -> (r: SessionWatcher)
        requires
            policy.wf(),
        ensures
            r.wf(),
            r.root@ == root@,
            r@.registry == Map::<Seq<char>, crate::state::RecordView>::empty(),
            r@.policy == policy@,
            r@.pending == Seq::<FailureView>::empty(),
            r@.pending_keys == Set::<Key>::empty(),
            r@.task_names == Map::<Seq<char>, Seq<char>>::empty(),
            r@.task_project_paths == Map::<Seq<char>, Seq<char>>::empty(),
            !r@.policy_dirty,
            exists|now: Micros| now >= 0 && #[trigger] startup_cutoff(now) == r@.initial_cutoff,
            r@.retry == DEFAULT_RETRY_MESSAGE@,
            queue_agrees(r@),
            r.offsets@.len() == 0,
            r.partial_lines@.len() == 0,
            r.known_files@.len() == 0,
    {
        let now = now_micros();
        let r = SessionWatcher::new_at(root, policy, DEFAULT_RETRY_MESSAGE, now);
        assert(startup_cutoff(now) == r@.initial_cutoff);
        r
    }

    /// Whether the policy changed since it was last saved.
    pub fn policy_is_dirty(&self) -> (r: bool)
        ensures
            r == self@.policy_dirty,
    {
        self.policy_dirty
    }

    /// Notes that the policy was saved.
    pub fn mark_policy_saved(&mut self)
        ensures
            final(self)@ == saved(old(self)@),
            final(self).wf() == old(self).wf(),
            final(self).offsets == old(self).offsets,
            final(self).partial_lines == old(self).partial_lines,
            final(self).known_files == old(self).known_files,
            final(self).root == old(self).root,
    {
        self.policy_dirty = false;
    }

    /// Continues tasks with `message` from now on.
    pub fn set_retry_message(&mut self, message: &str)
        ensures
            final(self)@ == (WatcherView { retry: message@, ..old(self)@ }),
            final(self).wf() == old(self).wf(),
            final(self).root == old(self).root,
            final(self).offsets == old(self).offsets,
            final(self).partial_lines == old(self).partial_lines,
            final(self).known_files == old(self).known_files,
    {
        self.retry_message = owned(message);
    }

    /// Records the failures `keys` as handled.
    fn mark_processed(&mut self, key: EventKey)
        requires
            old(self).wf(),
        ensures
            final(self).wf(),
            final(self)@ == mark_only(old(self)@, set![key@]),
            final(self).pending == old(self).pending,
            final(self).pending_keys == old(self).pending_keys,
            final(self).registry == old(self).registry,
            final(self).offsets == old(self).offsets,
            final(self).partial_lines == old(self).partial_lines,
            final(self).known_files == old(self).known_files,
            final(self).root == old(self).root,
    {
        let ghost k = key@;
        if self.policy.mark_processed(key) {
            self.policy_dirty = true;
            assert(set![k].contains(k) && !old(self)@.policy.processed.contains(k));
        } else {
            assert forall|q: Key| set![k].contains(q) implies old(
                self,
            )@.policy.processed.contains(q) by {}
        }
        assert(old(self)@.policy.processed.insert(k) =~= old(self)@.policy.processed.union(
            set![k],
        ));
    }

    /// Removes `key` from the queue's key set.
    fn forget_pending_key(&mut self, key: &EventKey)
        requires
            old(self).wf(),
        ensures
            final(self).wf(),
            final(self)@ == with_pending_keys(old(self)@, old(self)@.pending_keys.remove(key@)),
            final(self).pending == old(self).pending,
            final(self).offsets == old(self).offsets,
            final(self).partial_lines == old(self).partial_lines,
            final(self).known_files == old(self).known_files,
            final(self).root == old(self).root,
    {
        let mut i: usize = 0;
        while i < self.pending_keys.len()
            invariant
                *self == *old(self),
                old(self).wf(),
                i <= self.pending_keys@.len(),
                forall|j: int| 0 <= j < i ==> self.pending_keys@[j]@ != key@,
            decreases self.pending_keys@.len() - i,
        {
            if self.pending_keys[i].same(key) {
                proof {
                    lemma_view_set_remove(self.pending_keys@, i as int);
                }
                self.pending_keys.remove(i);
                return;
            }
            i += 1;
        }
        assert(view_set(self.pending_keys@).remove(key@) =~= view_set(self.pending_keys@));
    }

    /// Adds `key` to the queue's key set; true when it was not there.
    fn insert_pending_key(&mut self, key: &EventKey) -> (r: bool)
        requires
            old(self).wf(),
        ensures
            final(self).wf(),
            r == !old(self)@.pending_keys.contains(key@),
            final(self)@ == with_pending_keys(old(self)@, old(self)@.pending_keys.insert(key@)),
            final(self).pending == old(self).pending,
            final(self).offsets == old(self).offsets,
            final(self).partial_lines == old(self).partial_lines,
            final(self).known_files == old(self).known_files,
            final(self).root == old(self).root,
    {
        let mut i: usize = 0;
        while i < self.pending_keys.len()
            invariant
                *self == *old(self),
                old(self).wf(),
                i <= self.pending_keys@.len(),
                forall|j: int| 0 <= j < i ==> self.pending_keys@[j]@ != key@,
            decreases self.pending_keys@.len() - i,
        {
            if self.pending_keys[i].same(key) {
                assert(view_set(self.pending_keys@).insert(key@) =~= view_set(self.pending_keys@));
                return false;
            }
            i += 1;
        }
        let k = key.duplicate();
        proof {
            lemma_view_set_push(self.pending_keys@, k);
        }
        self.pending_keys.push(k);
        true
    }

    /// Puts a taken failure back in the queue, unless its key is queued.
    pub fn requeue(&mut self, event: FailureEvent)
        requires
            old(self).wf(),
        ensures
            same_files(*old(self), *final(self)),
            final(self).wf(),
            final(self)@ == requeued(old(self)@, event@),
            queue_agrees(old(self)@) ==> queue_agrees(final(self)@),
    {
        proof {
            if queue_agrees(old(self)@) {
                law_queue_agreement_kept_by_taking(old(self)@, event@);
            }
        }
        if self.insert_pending_key(&event.key) {
            let ghost before = self.pending@;
            self.pending.push(event);
            assert(failure_views(self.pending@) =~= failure_views(before).push(event@));
        } else {
            assert(old(self)@.pending_keys.insert(event.key@) =~= old(self)@.pending_keys);
        }
    }

    /// Records that a failure was continued: its key leaves the queue's key set
    /// and it is handled.
    pub fn mark_sent(&mut self, event: &FailureEvent)
        requires
            old(self).wf(),
        ensures
            same_files(*old(self), *final(self)),
            final(self).wf(),
            final(self)@ == settle(old(self)@, set![event.key@]),
            queue_agrees(old(self)@) && !old(self)@.pending_keys.contains(event.key@) ==> queue_agrees(
                final(self)@,
            ),
    {
        proof {
            if queue_agrees(old(self)@) {
                law_queue_agreement_kept_by_taking(old(self)@, event@);
            }
        }
        self.forget_pending_key(&event.key);
        self.mark_processed(event.key.duplicate());
        assert(old(self)@.pending_keys.remove(event.key@) =~= old(self)@.pending_keys.difference(
            set![event.key@],
        ));
    }

    /// Records that a failure was left to the user: its key leaves the queue's
    /// key set and it is handled.
    pub fn mark_manual(&mut self, event: &FailureEvent)
        requires
            old(self).wf(),
        ensures
            same_files(*old(self), *final(self)),
            final(self).wf(),
            final(self)@ == settle(old(self)@, set![event.key@]),
            queue_agrees(old(self)@) && !old(self)@.pending_keys.contains(event.key@) ==> queue_agrees(
                final(self)@,
            ),
    {
        self.mark_sent(event)
    }

    /// Records that the turn `turn_id` of `task_id` was started automatically.
    pub fn note_automatic_turn(&mut self, task_id: &str, turn_id: &str)
        requires
            old(self).wf(),
        ensures
            final(self).wf(),
            final(self)@ == noted_turn(old(self)@, task_id@, turn_id@),
            final(self).offsets == old(self).offsets,
            final(self).partial_lines == old(self).partial_lines,
            final(self).known_files == old(self).known_files,
            final(self).root == old(self).root,
    {
        let before = self.policy.chain_failures(task_id);
        self.policy.note_automatic_turn(task_id, turn_id);
        if self.policy.chain_failures(task_id) != before {
            self.policy_dirty = true;
        }
    }

    /// Drops `key` from the queue's key set and records it as handled.
    fn settle_key(&mut self, key: &EventKey)
        requires
            old(self).wf(),
        ensures
            final(self).wf(),
            final(self)@ == settle(old(self)@, set![key@]),
            final(self).pending == old(self).pending,
            final(self).offsets == old(self).offsets,
            final(self).partial_lines == old(self).partial_lines,
            final(self).known_files == old(self).known_files,
            final(self).root == old(self).root,
    {
        self.forget_pending_key(key);
        self.mark_processed(key.duplicate());
        assert(old(self)@.pending_keys.remove(key@) =~= old(self)@.pending_keys.difference(
            set![key@],
        ));
    }

    /// Settles each key of `keys` in turn.
    fn settle_keys(&mut self, keys: &Vec<EventKey>)
        requires
            old(self).wf(),
        ensures
            final(self).wf(),
            final(self)@ == settle(old(self)@, view_set(keys@)),
            final(self).offsets == old(self).offsets,
            final(self).partial_lines == old(self).partial_lines,
            final(self).known_files == old(self).known_files,
            final(self).root == old(self).root,
    {
        let mut j: usize = 0;
        proof {
            assert(view_set(keys@.take(0)) =~= Set::<Key>::empty());
            lemma_settle_empty(self@);
        }
        while j < keys.len()
            invariant
                self.wf(),
                j <= keys@.len(),
                self@ == settle(old(self)@, view_set(keys@.take(j as int))),
                self.offsets == old(self).offsets,
                self.partial_lines == old(self).partial_lines,
                self.known_files == old(self).known_files,
                self.root == old(self).root,
            decreases keys@.len() - j,
        {
            let ghost a = view_set(keys@.take(j as int));
            self.settle_key(&keys[j]);
            proof {
                lemma_settle_twice(old(self)@, a, set![keys@[j as int]@]);
                assert(keys@.take(j + 1) =~= keys@.take(j as int).push(keys@[j as int]));
                assert forall|k: Key| #[trigger] view_set(keys@.take(j + 1)).contains(k) == a.union(
                    set![keys@[j as int]@],
                ).contains(k) by {
                    let t = keys@.take(j + 1);
                    if view_set(t).contains(k) {
                        let i = choose|i: int| 0 <= i < t.len() && #[trigger] t[i]@ == k;
                        if i < j {
                            assert(keys@.take(j as int)[i] == t[i]);
                        }
                    }
                    if a.contains(k) {
                        let i = choose|i: int| 0 <= i < j && #[trigger] keys@.take(j as int)[i]@ == k;
                        assert(t[i] == keys@.take(j as int)[i]);
                    }
                    if k == keys@[j as int]@ {
                        assert(t[j as int]@ == k);
                    }
                }
                assert(view_set(keys@.take(j + 1)) =~= a.union(set![keys@[j as int]@]));
            }
            j += 1;
        }
        assert(keys@.take(keys@.len() as int) =~= keys@);
    }

    /// The keys of the queued failures of `task_id`, only those that completed
    /// before `before` when it is given.
    fn collect_keys(&self, task_id: &str, before: Option<Micros>) -> (r: Vec<EventKey>)
        ensures
            view_set(r@) == match before {
                Some(at) => superseded_keys(self@.pending, task_id@, at),
                None => task_keys(self@.pending, task_id@),
            },
    {
        let ghost p = self@.pending;
        let ghost target = match before {
            Some(at) => superseded_keys(p, task_id@, at),
            None => task_keys(p, task_id@),
        };
        let mut r: Vec<EventKey> = Vec::new();
        let mut i: usize = 0;
        while i < self.pending.len()
            invariant
                p == failure_views(self.pending@),
                i <= p.len(),
                forall|k: Key| #[trigger] view_set(r@).contains(k) == (exists|j: int|
                    0 <= j < i && #[trigger] p[j].key == k && k.0 == task_id@ && match before {
                        Some(at) => p[j].completed_at < at,
                        None => true,
                    }),
            decreases p.len() - i,
        {
            let f = &self.pending[i];
            let wanted = str_eq(f.key.task_id.as_str(), task_id) && match before {
                Some(at) => f.completed_at < at,
                None => true,
            };
            let ghost before_r = r@;
            if wanted {
                r.push(f.key.duplicate());
            }
            proof {
                assert forall|k: Key| #[trigger] view_set(r@).contains(k) == (exists|j: int|
                    0 <= j < i + 1 && #[trigger] p[j].key == k && k.0 == task_id@ && match before {
                        Some(at) => p[j].completed_at < at,
                        None => true,
                    }) by {
                    if view_set(r@).contains(k) {
                        let q = choose|q: int| 0 <= q < r@.len() && #[trigger] r@[q]@ == k;
                        if q < before_r.len() {
                            assert(r@[q] == before_r[q]);
                            assert(view_set(before_r).contains(k));
                        } else {
                            assert(p[i as int].key == k);
                        }
                    }
                    if exists|j: int|
                        0 <= j < i + 1 && #[trigger] p[j].key == k && k.0 == task_id@ && match before {
                            Some(at) => p[j].completed_at < at,
                            None => true,
                        } {
                        let j = choose|j: int|
                            0 <= j < i + 1 && #[trigger] p[j].key == k && k.0 == task_id@ && match before {
                                Some(at) => p[j].completed_at < at,
                                None => true,
                            };
                        if j < i {
                            assert(view_set(before_r).contains(k));
                            let q = choose|q: int| 0 <= q < before_r.len() && #[trigger] before_r[q]@ == k;
                            assert(r@[q] == before_r[q]);
                        } else {
                            assert(r@[before_r.len() as int]@ == k);
                        }
                    }
                }
            }
            i += 1;
        }
        proof {
            assert forall|k: Key| #[trigger] view_set(r@).contains(k) == target.contains(k) by {
                match before {
                    Some(at) => {
                        if target.contains(k) {
                            let j = choose|j: int|
                                0 <= j < p.len() && #[trigger] p[j].key == k && p[j].key.0 == task_id@
                                    && p[j].completed_at < at;
                            assert(p[j].key == k);
                        }
                    },
                    None => {},
                }
            }
            assert(view_set(r@) =~= target);
        }
        r
    }

    /// Drops from the queue the failures of `task_id` that completed before
    /// `newer_at`, recording them as handled.
    pub fn clear_superseded(&mut self, task_id: &str, newer_at: Micros)
        requires
            old(self).wf(),
        ensures
            final(self).wf(),
            final(self)@ == superseded(old(self)@, task_id@, newer_at),
            final(self).offsets == old(self).offsets,
            final(self).partial_lines == old(self).partial_lines,
            final(self).known_files == old(self).known_files,
            final(self).root == old(self).root,
    {
        let keys = self.collect_keys(task_id, Some(newer_at));
        let ghost ks = view_set(keys@);
        if keys.len() == 0 {
            proof {
                assert(ks =~= Set::<Key>::empty());
                lemma_drop_no_keys(self@.pending, ks);
                lemma_settle_empty(self@);
                assert(WatcherView { pending: drop_keys(self@.pending, ks), ..self@ } == self@);
            }
            return;
        }
        let mut kept: Vec<FailureEvent> = Vec::new();
        let mut old_pending: Vec<FailureEvent> = Vec::new();
        std::mem::swap(&mut old_pending, &mut self.pending);
        let ghost p = failure_views(old_pending@);
        let ghost swapped = *self;
        let mut i: usize = 0;
        while i < old_pending.len()
            invariant
                *self == swapped,
                p == failure_views(old_pending@),
                i <= p.len(),
                ks == view_set(keys@),
                failure_views(kept@) == drop_keys(p.take(i as int), ks),
            decreases p.len() - i,
        {
            let ghost before = failure_views(kept@);
            proof {
                assert(p.take(i + 1).drop_last() =~= p.take(i as int));
            }
            if !contains_key(&keys, &old_pending[i].key) {
                kept.push(old_pending[i].duplicate());
            }
            assert(failure_views(kept@) =~= drop_keys(p.take(i + 1), ks));
            i += 1;
        }
        assert(p.take(p.len() as int) =~= p);
        self.pending = kept;
        proof {
            assert(self@ == WatcherView { pending: drop_keys(p, ks), ..old(self)@ });
        }
        self.settle_keys(&keys);
    }

    /// Drops every queued failure of `task_id`, recording them as handled.
    fn cancel_task(&mut self, task_id: &str)
        requires
            old(self).wf(),
        ensures
            final(self).wf(),
            final(self)@ == cancelled(old(self)@, task_id@),
            final(self).offsets == old(self).offsets,
            final(self).partial_lines == old(self).partial_lines,
            final(self).known_files == old(self).known_files,
            final(self).root == old(self).root,
    {
        let keys = self.collect_keys(task_id, None);
        let ghost ks = view_set(keys@);
        let mut kept: Vec<FailureEvent> = Vec::new();
        let mut old_pending: Vec<FailureEvent> = Vec::new();
        std::mem::swap(&mut old_pending, &mut self.pending);
        let ghost p = failure_views(old_pending@);
        let ghost swapped = *self;
        let mut i: usize = 0;
        while i < old_pending.len()
            invariant
                *self == swapped,
                p == failure_views(old_pending@),
                i <= p.len(),
                failure_views(kept@) == drop_task(p.take(i as int), task_id@),
            decreases p.len() - i,
        {
            proof {
                assert(p.take(i + 1).drop_last() =~= p.take(i as int));
            }
            if !str_eq(old_pending[i].key.task_id.as_str(), task_id) {
                kept.push(old_pending[i].duplicate());
            }
            assert(failure_views(kept@) =~= drop_task(p.take(i + 1), task_id@));
            i += 1;
        }
        assert(p.take(p.len() as int) =~= p);
        self.pending = kept;
        proof {
            assert(self@ == WatcherView { pending: drop_task(p, task_id@), ..old(self)@ });
        }
        self.settle_keys(&keys);
    }

    /// Applies the known name and project path of `task_id` to its record.
    fn apply_names(&mut self, task_id: &str)
        requires
            old(self).wf(),
        ensures
            final(self).wf(),
            final(self)@ == named(old(self)@, task_id@),
            final(self).offsets == old(self).offsets,
            final(self).partial_lines == old(self).partial_lines,
            final(self).known_files == old(self).known_files,
            final(self).root == old(self).root,
    {
        match find_key(&self.task_names, task_id) {
            Some(i) => {
                proof {
                    lemma_assoc_at(self.task_names@, i as int);
                }
                let name = self.task_names[i].1.clone();
                self.registry.set_name(task_id, name.as_str());
            },
            None => {},
        }
        match find_key(&self.task_project_paths, task_id) {
            Some(i) => {
                proof {
                    lemma_assoc_at(self.task_project_paths@, i as int);
                }
                let path = self.task_project_paths[i].1.clone();
                self.registry.set_project_path(task_id, path.as_str());
            },
            None => {},
        }
    }

    /// What a failure does.
    fn handle_failure(&mut self, event: FailureEvent)
        requires
            old(self).wf(),
        ensures
            final(self).wf(),
            final(self)@ == failure_handled(old(self)@, event@),
            final(self).offsets == old(self).offsets,
            final(self).partial_lines == old(self).partial_lines,
            final(self).known_files == old(self).known_files,
            final(self).root == old(self).root,
    {
        let newer = match self.registry.latest_started_at(event.key.task_id.as_str()) {
            Some(at) => at > event.completed_at,
            None => false,
        };
        if self.policy.is_processed(&event.key) || newer {
            self.mark_processed(event.key);
            return;
        }
        match event.decision {
            CapacityDecision::Eligible => {
                self.registry.failure_waiting(
                    event.key.task_id.as_str(),
                    event.key.turn_id.as_str(),
                    event.completed_at,
                );
                let ghost keys_before = self@.pending_keys;
                if self.insert_pending_key(&event.key) {
                    let ghost before = self.pending@;
                    self.pending.push(event);
                    assert(failure_views(self.pending@) =~= failure_views(before).push(event@));
                } else {
                    assert(keys_before.insert(event.key@) =~= keys_before);
                }
            },
            CapacityDecision::CompletedWithOutput => {
                self.mark_processed(event.key.duplicate());
                self.registry.completed_with_output(
                    event.key.task_id.as_str(),
                    event.key.turn_id.as_str(),
                    event.completed_at,
                );
            },
            CapacityDecision::Unknown => {
                self.mark_processed(event.key.duplicate());
                self.registry.unknown(
                    event.key.task_id.as_str(),
                    event.key.turn_id.as_str(),
                    event.completed_at,
                );
            },
            CapacityDecision::NotCapacity => {},
        }
    }

    /// Applies one session event.
    pub fn handle(&mut self, event: SessionEvent)
        requires
            old(self).wf(),
        ensures
            final(self).wf(),
            final(self)@ == handled(old(self)@, event@),
            queue_agrees(old(self)@) ==> queue_agrees(final(self)@),
            final(self).offsets == old(self).offsets,
            final(self).partial_lines == old(self).partial_lines,
            final(self).known_files == old(self).known_files,
            final(self).root == old(self).root,
    {
        proof {
            if queue_agrees(old(self)@) {
                law_queue_agreement_kept(old(self)@, event@);
            }
        }
        match self.initial_cutoff {
            Some(cutoff) => {
                if event.occurred_at() < cutoff {
                    return;
                }
            },
            None => {},
        }
        self.apply_names(event.task_id().as_str());
        match event {
            SessionEvent::Started { task_id, turn_id, started_at } => {
                self.registry.started(task_id.as_str(), turn_id.as_str(), started_at);
                self.clear_superseded(task_id.as_str(), started_at);
            },
            SessionEvent::UserMessage { task_id, turn_id, automatic, at } => {
                if automatic {
                    self.note_automatic_turn(task_id.as_str(), turn_id.as_str());
                } else {
                    if self.policy.chain_failures(task_id.as_str()) > 0 {
                        self.policy.reset_chain(task_id.as_str());
                        self.policy_dirty = true;
                    }
                    self.cancel_task(task_id.as_str());
                    self.registry.started(task_id.as_str(), turn_id.as_str(), at);
                }
            },
            SessionEvent::Completed { task_id, turn_id, completed_at } => {
                self.clear_superseded(task_id.as_str(), completed_at);
                self.registry.completed(task_id.as_str(), turn_id.as_str(), completed_at);
            },
            SessionEvent::Failure(failure) => {
                self.handle_failure(failure);
            },
        }
    }

    /// Takes the queued failures, earliest completion first.
    pub fn take_candidates(&mut self) -> (r: Vec<FailureEvent>)
        requires
            old(self).wf(),
        ensures
            same_files(*old(self), *final(self)),
            final(self).wf(),
            failure_views(r@) == by_completion(old(self)@.pending),
            final(self)@ == emptied(old(self)@, keys_of(failure_views(r@))),
            queue_agrees(old(self)@) ==> queue_agrees(final(self)@),
    {
        proof {
            if queue_agrees(old(self)@) {
                law_queue_agreement_kept_by_taking(old(self)@, vstd::pervasive::arbitrary());
            }
        }
        let mut rest: Vec<FailureEvent> = Vec::new();
        std::mem::swap(&mut rest, &mut self.pending);
        let ghost orig = failure_views(rest@);
        let ghost swapped = *self;
        assert(same_files(*old(self), swapped));
        let mut out: Vec<FailureEvent> = Vec::new();
        while rest.len() > 0
            invariant
                *self == swapped,
                same_files(*old(self), swapped),
                failure_views(out@) + by_completion(failure_views(rest@)) == by_completion(orig),
            decreases rest@.len(),
        {
            let ghost rv = failure_views(rest@);
            let m = first_earliest_index(&rest);
            proof {
                lemma_first_earliest_bounds(rv);
                assert(rv.remove(m as int) =~= failure_views(rest@.remove(m as int)));
            }
            let e = rest.remove(m);
            let ghost before_out = failure_views(out@);
            out.push(e);
            proof {
                assert(failure_views(out@) =~= before_out.push(e@));
                assert(by_completion(rv) == seq![rv[m as int]] + by_completion(rv.remove(m as int)));
                assert(failure_views(out@) + by_completion(failure_views(rest@)) =~= before_out
                    + by_completion(rv));
            }
        }
        assert(failure_views(rest@) =~= Seq::<FailureView>::empty());
        assert(failure_views(out@) =~= by_completion(orig));
        let ghost keys_before = self@.pending_keys;
        let mut i: usize = 0;
        assert(keys_of(failure_views(out@).take(0)) =~= Set::<Key>::empty());
        assert(keys_before.difference(keys_of(failure_views(out@).take(0))) =~= keys_before);
        assert(failure_views(self.pending@) =~= Seq::<FailureView>::empty());
        while i < out.len()
            invariant
                self.wf(),
                i <= out@.len(),
                self.pending@.len() == 0,
                same_files(*old(self), *self),
                self@ == emptied(old(self)@, keys_of(failure_views(out@).take(i as int))),
                keys_before == old(self)@.pending_keys,
            decreases out@.len() - i,
        {
            self.forget_pending_key(&out[i].key);
            i += 1;
            proof {
                let fv = failure_views(out@);
                assert(fv.take(i as int) =~= fv.take(i - 1).push(fv[i - 1]));
                assert forall|k: Key| #[trigger] keys_of(fv.take(i as int)).contains(k) == keys_of(
                    fv.take(i - 1),
                ).insert(fv[i - 1].key).contains(k) by {
                    if keys_of(fv.take(i as int)).contains(k) {
                        let j = choose|j: int| 0 <= j < i && #[trigger] fv.take(i as int)[j].key == k;
                        if j < i - 1 {
                            assert(fv.take(i - 1)[j] == fv.take(i as int)[j]);
                        }
                    }
                    if keys_of(fv.take(i - 1)).contains(k) {
                        let j = choose|j: int| 0 <= j < i - 1 && #[trigger] fv.take(i - 1)[j].key == k;
                        assert(fv.take(i as int)[j] == fv.take(i - 1)[j]);
                    }
                    if k == fv[i - 1].key {
                        assert(fv.take(i as int)[i - 1].key == k);
                    }
                }
                assert(keys_of(fv.take(i as int)) =~= keys_of(fv.take(i - 1)).insert(fv[i - 1].key));
                assert(keys_before.difference(keys_of(fv.take(i - 1))).remove(fv[i - 1].key)
                    =~= keys_before.difference(keys_of(fv.take(i as int))));
            }
        }
        assert(failure_views(out@).take(out@.len() as int) =~= failure_views(out@));
        assert(self@.pending =~= Seq::<FailureView>::empty());
        out
    }
}

proof fn lemma_settle_empty(w: WatcherView)
    ensures
        settle(w, Set::<Key>::empty()) == w,
{
    assert(w.pending_keys.difference(Set::<Key>::empty()) =~= w.pending_keys);
    assert(w.policy.processed.union(Set::<Key>::empty()) =~= w.policy.processed);
}

proof fn lemma_settle_twice(w: WatcherView, a: Set<Key>, b: Set<Key>)
    ensures
        settle(settle(w, a), b) == settle(w, a.union(b)),
{
    assert(w.pending_keys.difference(a).difference(b) =~= w.pending_keys.difference(a.union(b)));
    assert(w.policy.processed.union(a).union(b) =~= w.policy.processed.union(a.union(b)));
    let d1 = w.policy_dirty || exists|k: Key| a.contains(k) && !#[trigger] w.policy.processed.contains(k);
    let pa = w.policy.processed.union(a);
    let d2 = d1 || exists|k: Key| b.contains(k) && !#[trigger] pa.contains(k);
    let d3 = w.policy_dirty || exists|k: Key| a.union(b).contains(k) && !#[trigger] w.policy.processed.contains(k);
    if d3 && !w.policy_dirty {
        let k = choose|k: Key| a.union(b).contains(k) && !#[trigger] w.policy.processed.contains(k);
        if !a.contains(k) {
            assert(b.contains(k) && !pa.contains(k));
        }
    }
    if d2 && !d1 {
        let k = choose|k: Key| b.contains(k) && !#[trigger] pa.contains(k);
        assert(a.union(b).contains(k));
    }
    assert(d2 == d3);
}

proof fn lemma_drop_no_keys(p: Seq<FailureView>, keys: Set<Key>)
    requires
        keys == Set::<Key>::empty(),
    ensures
        drop_keys(p, keys) == p,
    decreases p.len(),
{
    if p.len() > 0 {
        lemma_drop_no_keys(p.drop_last(), keys);
        assert(p.drop_last().push(p.last()) =~= p);
    }
}

/// Whether `key` is among `keys`.
fn contains_key(keys: &Vec<EventKey>, key: &EventKey) -> (r: bool)
    ensures
        r == view_set(keys@).contains(key@),
{
    let mut i: usize = 0;
    while i < keys.len()
        invariant
            i <= keys@.len(),
            forall|j: int| 0 <= j < i ==> keys@[j]@ != key@,
        decreases keys@.len() - i,
    {
        if keys[i].same(key) {
            return true;
        }
        i += 1;
    }
    false
}

/// The position of the first failure with the earliest completion.
fn first_earliest_index(v: &Vec<FailureEvent>) -> (r: usize)
    requires
        v@.len() > 0,
    ensures
        r as int == first_earliest(failure_views(v@)),
{
    let ghost s = failure_views(v@);
    let mut best: usize = 0;
    let mut i: usize = 1;
    proof {
        assert(s.take(1).len() == 1);
    }
    while i < v.len()
        invariant
            1 <= i <= v@.len(),
            s == failure_views(v@),
            best as int == first_earliest(s.take(i as int)),
            best < i,
        decreases v@.len() - i,
    {
        proof {
            assert(s.take(i + 1).drop_last() =~= s.take(i as int));
            assert(s.take(i + 1).last() == s[i as int]);
            assert(s.take(i + 1)[best as int] == s[best as int]);
        }
        if v[i].completed_at < v[best].completed_at {
            best = i;
        }
        i += 1;
    }
    assert(s.take(v@.len() as int) =~= s);
    best
}

// ---------------------------------------------------------------------------
// Laws
// ---------------------------------------------------------------------------

proof fn lemma_drop_keys_sub(p: Seq<FailureView>, keys: Set<Key>)
    ensures
        forall|i: int|
            0 <= i < drop_keys(p, keys).len() ==> !keys.contains((#[trigger] drop_keys(p, keys)[i]).key)
                && exists|j: int| 0 <= j < p.len() && #[trigger] p[j] == drop_keys(p, keys)[i],
    decreases p.len(),
{
    if p.len() > 0 {
        let q = p.drop_last();
        lemma_drop_keys_sub(q, keys);
        let r = drop_keys(q, keys);
        let d = drop_keys(p, keys);
        if keys.contains(p.last().key) {
            assert(d == r);
        } else {
            assert(d == r.push(p.last()));
        }
        assert forall|i: int| 0 <= i < d.len() implies !keys.contains((#[trigger] d[i]).key) && exists|
            j: int,
        | 0 <= j < p.len() && #[trigger] p[j] == d[i] by {
            if i < r.len() {
                assert(d[i] == r[i]);
                let j = choose|j: int| 0 <= j < q.len() && #[trigger] q[j] == r[i];
                assert(p[j] == q[j]);
            } else {
                assert(d[i] == p.last());
                assert(p[p.len() - 1] == d[i]);
            }
        }
    }
}

proof fn lemma_drop_task_sub(p: Seq<FailureView>, task_id: Seq<char>)
    ensures
        forall|i: int|
            0 <= i < drop_task(p, task_id).len() ==> (#[trigger] drop_task(p, task_id)[i]).key.0 != task_id
                && exists|j: int| 0 <= j < p.len() && #[trigger] p[j] == drop_task(p, task_id)[i],
    decreases p.len(),
{
    if p.len() > 0 {
        let q = p.drop_last();
        lemma_drop_task_sub(q, task_id);
        let r = drop_task(q, task_id);
        let d = drop_task(p, task_id);
        if p.last().key.0 == task_id {
            assert(d == r);
        } else {
            assert(d == r.push(p.last()));
        }
        assert forall|i: int| 0 <= i < d.len() implies (#[trigger] d[i]).key.0 != task_id && exists|
            j: int,
        | 0 <= j < p.len() && #[trigger] p[j] == d[i] by {
            if i < r.len() {
                assert(d[i] == r[i]);
                let j = choose|j: int| 0 <= j < q.len() && #[trigger] q[j] == r[i];
                assert(p[j] == q[j]);
            } else {
                assert(d[i] == p.last());
                assert(p[p.len() - 1] == d[i]);
            }
        }
    }
}

/// Every queued failure is eligible for continuation.
pub open spec fn all_eligible(p: Seq<FailureView>) -> bool {
    forall|i: int| 0 <= i < p.len() ==> (#[trigger] p[i]).decision == CapacityDecision::Eligible
}

/// While the first look at the records is not over, an event older than the
/// cutoff changes nothing.
pub proof fn law_old_events_ignored_at_startup(w: WatcherView, e: EventView)
    requires
        w.initial_cutoff matches Some(c) && e.occurred_at() < c,
    ensures
        handled(w, e) == w,
{
}

/// A failure already handled is never queued again.
pub proof fn law_handled_failure_not_queued_again(w: WatcherView, f: FailureView)
    requires
        w.policy.processed.contains(f.key),
    ensures
        handled(w, EventView::Failure(f)).pending == w.pending,
        handled(w, EventView::Failure(f)).policy.processed.contains(f.key),
{
}

/// A failure after which the turn still answered, or whose record does not
/// say, is never queued; it is recorded as handled.
pub proof fn law_only_eligible_failures_queued(w: WatcherView, f: FailureView)
    requires
        f.decision != CapacityDecision::Eligible,
    ensures
        handled(w, EventView::Failure(f)).pending == w.pending,
        f.decision != CapacityDecision::NotCapacity && !(w.initial_cutoff matches Some(c)
            && f.completed_at < c) ==> handled(w, EventView::Failure(f)).policy.processed.contains(
            f.key,
        ),
{
}

/// Every event keeps the queue to eligible failures.
pub proof fn law_queue_holds_only_eligible_failures(w: WatcherView, e: EventView)
    requires
        all_eligible(w.pending),
    ensures
        all_eligible(handled(w, e).pending),
{
    if !(w.initial_cutoff matches Some(c) && e.occurred_at() < c) {
        let w1 = named(w, e.task());
        match e {
            EventView::Started { task_id, turn_id, started_at } => {
                let w2 = with_registry(w1, after_started(w1.registry, task_id, turn_id, started_at));
                let d = drop_keys(w2.pending, superseded_keys(w2.pending, task_id, started_at));
                lemma_drop_keys_sub(w2.pending, superseded_keys(w2.pending, task_id, started_at));
                assert forall|i: int| 0 <= i < d.len() implies (#[trigger] d[i]).decision
                    == CapacityDecision::Eligible by {
                    let j = choose|j: int| 0 <= j < w2.pending.len() && #[trigger] w2.pending[j] == d[i];
                }
            },
            EventView::UserMessage { task_id, turn_id, automatic, at } => {
                if !automatic {
                    let w2 = chain_cleared(w1, task_id);
                    let d = drop_task(w2.pending, task_id);
                    lemma_drop_task_sub(w2.pending, task_id);
                    assert forall|i: int| 0 <= i < d.len() implies (#[trigger] d[i]).decision
                        == CapacityDecision::Eligible by {
                        let j = choose|j: int| 0 <= j < w2.pending.len() && #[trigger] w2.pending[j] == d[i];
                    }
                }
            },
            EventView::Completed { task_id, turn_id, completed_at } => {
                let d = drop_keys(w1.pending, superseded_keys(w1.pending, task_id, completed_at));
                lemma_drop_keys_sub(w1.pending, superseded_keys(w1.pending, task_id, completed_at));
                assert forall|i: int| 0 <= i < d.len() implies (#[trigger] d[i]).decision
                    == CapacityDecision::Eligible by {
                    let j = choose|j: int| 0 <= j < w1.pending.len() && #[trigger] w1.pending[j] == d[i];
                }
            },
            EventView::Failure(f) => {
                let w2 = failure_handled(w1, f);
                assert forall|i: int| 0 <= i < w2.pending.len() implies (#[trigger] w2.pending[i]).decision
                    == CapacityDecision::Eligible by {
                    if i < w1.pending.len() {
                        assert(w2.pending[i] == w1.pending[i]);
                    }
                }
            },
        }
    }
}

/// A message the user sends by hand cancels the task's queued failures,
/// records them as handled, and clears the task's count of automatic
/// continuations.
pub proof fn law_manual_message_cancels_and_resets(
    w: WatcherView,
    task_id: Seq<char>,
    turn_id: Seq<char>,
    at: Micros,
)
    requires
        !(w.initial_cutoff matches Some(c) && at < c),
    ensures
        ({
            let after = handled(
                w,
                EventView::UserMessage { task_id, turn_id, automatic: false, at },
            );
            &&& forall|i: int| 0 <= i < after.pending.len() ==> (#[trigger] after.pending[i]).key.0
                != task_id
            &&& chain_count(after.policy.chains, task_id) == 0
            &&& forall|i: int|
                0 <= i < w.pending.len() && (#[trigger] w.pending[i]).key.0 == task_id
                    ==> after.policy.processed.contains(w.pending[i].key)
        }),
{
    let w1 = named(w, task_id);
    let w2 = chain_cleared(w1, task_id);
    lemma_drop_task_sub(w2.pending, task_id);
    assert forall|i: int|
        0 <= i < w.pending.len() && (#[trigger] w.pending[i]).key.0 == task_id implies task_keys(
        w2.pending,
        task_id,
    ).contains(w.pending[i].key) by {
        assert(w2.pending[i] == w.pending[i]);
    }
}

/// Newer activity of a task drops its queued failures that completed before
/// it.
pub proof fn law_newer_activity_supersedes_queued_failures(
    w: WatcherView,
    task_id: Seq<char>,
    turn_id: Seq<char>,
    at: Micros,
)
    requires
        !(w.initial_cutoff matches Some(c) && at < c),
    ensures
        ({
            let after = handled(w, EventView::Started { task_id, turn_id, started_at: at });
            forall|i: int|
                0 <= i < after.pending.len() ==> !((#[trigger] after.pending[i]).key.0 == task_id
                    && after.pending[i].completed_at < at)
        }),
{
    let w1 = named(w, task_id);
    let w2 = with_registry(w1, after_started(w1.registry, task_id, turn_id, at));
    let keys = superseded_keys(w2.pending, task_id, at);
    lemma_drop_keys_sub(w2.pending, keys);
    let d = drop_keys(w2.pending, keys);
    assert forall|i: int| 0 <= i < d.len() implies !((#[trigger] d[i]).key.0 == task_id
        && d[i].completed_at < at) by {
        let j = choose|j: int| 0 <= j < w2.pending.len() && #[trigger] w2.pending[j] == d[i];
        if d[i].key.0 == task_id && d[i].completed_at < at {
            assert(keys.contains(w2.pending[j].key));
        }
    }
}

proof fn lemma_first_earliest_min(s: Seq<FailureView>)
    requires
        s.len() > 0,
    ensures
        forall|j: int|
            0 <= j < s.len() ==> s[first_earliest(s)].completed_at <= #[trigger] s[j].completed_at,
    decreases s.len(),
{
    lemma_first_earliest_bounds(s);
    if s.len() > 1 {
        let d = s.drop_last();
        lemma_first_earliest_min(d);
        lemma_first_earliest_bounds(d);
        let j0 = first_earliest(d);
        assert(s[j0] == d[j0]);
        assert forall|j: int| 0 <= j < s.len() implies s[first_earliest(s)].completed_at
            <= #[trigger] s[j].completed_at by {
            if j < s.len() - 1 {
                assert(s[j] == d[j]);
            }
        }
    }
}

/// The candidates come out as the queued failures rearranged, each once,
/// in order of completion time, earliest first.
pub proof fn law_candidates_sorted_permutation(s: Seq<FailureView>)
    ensures
        by_completion(s).len() == s.len(),
        by_completion(s).to_multiset() == s.to_multiset(),
        forall|i: int, j: int|
            0 <= i <= j < s.len() ==> #[trigger] by_completion(s)[i].completed_at
                <= #[trigger] by_completion(s)[j].completed_at,
    decreases s.len(),
{
    broadcast use vstd::seq_lib::group_to_multiset_ensures;
    broadcast use vstd::multiset::group_multiset_axioms;

    if s.len() > 0 {
        lemma_first_earliest_bounds(s);
        lemma_first_earliest_min(s);
        let m = first_earliest(s);
        let x = s[m];
        let rest = s.remove(m);
        law_candidates_sorted_permutation(rest);
        let b = by_completion(rest);
        let r = by_completion(s);
        assert(r == seq![x] + b);
        vstd::seq_lib::lemma_multiset_commutative(seq![x], b);
        assert(seq![x] =~= Seq::<FailureView>::empty().push(x));
        assert(s.to_multiset() =~= rest.to_multiset().insert(x)) by {
            assert(rest.to_multiset() == s.to_multiset().remove(x));
            assert(s.to_multiset().count(x) > 0);
        }
        assert(r.to_multiset() =~= s.to_multiset());
        assert forall|k: int| 0 <= k < b.len() implies x.completed_at <= #[trigger] b[k].completed_at by {
            assert(b.contains(b[k]));
            assert(rest.to_multiset().count(b[k]) > 0);
            assert(rest.contains(b[k]));
            let idx = choose|idx: int| 0 <= idx < rest.len() && rest[idx] == b[k];
            if idx < m {
                assert(rest[idx] == s[idx]);
            } else {
                assert(rest[idx] == s[idx + 1]);
            }
        }
        assert forall|i: int, j: int| 0 <= i <= j < s.len() implies #[trigger] r[i].completed_at
            <= #[trigger] r[j].completed_at by {
            if i == 0 {
                if j > 0 {
                    assert(r[j] == b[j - 1]);
                }
            } else {
                assert(r[i] == b[i - 1]);
                assert(r[j] == b[j - 1]);
                assert(b[i - 1].completed_at <= b[j - 1].completed_at);
            }
        }
    }
}

/// Taking the candidates empties the queue, so taking again gives nothing;
/// a taken failure put back is queued again, alone.
pub proof fn law_taken_failure_can_be_requeued(w: WatcherView, i: int)
    requires
        0 <= i < by_completion(w.pending).len(),
    ensures
        ({
            let t = by_completion(w.pending);
            let e = emptied(w, keys_of(t));
            &&& e.pending.len() == 0
            &&& by_completion(e.pending).len() == 0
            &&& requeued(e, t[i]).pending == seq![t[i]]
        }),
{
    let t = by_completion(w.pending);
    let e = emptied(w, keys_of(t));
    assert(keys_of(t).contains(t[i].key));
    assert(!e.pending_keys.contains(t[i].key));
    assert(Seq::<FailureView>::empty().push(t[i]) =~= seq![t[i]]);
}

/// The watcher after the failures `s` are put back in the queue one after
/// another.
pub open spec fn requeued_all(w: WatcherView, s: Seq<FailureView>) -> WatcherView
    decreases s.len(),
{
    if s.len() == 0 {
        w
    } else {
        requeued(requeued_all(w, s.drop_last()), s.last())
    }
}

proof fn lemma_requeued_taken(w: WatcherView, n: int)
    requires
        0 <= n <= by_completion(w.pending).len(),
    ensures
        ({
            let t = by_completion(w.pending);
            let e = emptied(w, keys_of(t));
            let back = requeued_all(e, t.take(n));
            &&& keys_of(back.pending) == keys_of(t.take(n))
            &&& back.pending_keys == e.pending_keys.union(keys_of(t.take(n)))
            &&& back.policy == w.policy
            &&& back.registry == w.registry
        }),
    decreases n,
{
    let t = by_completion(w.pending);
    let e = emptied(w, keys_of(t));
    if n == 0 {
        lemma_keys_of_empty(t.take(0));
        lemma_keys_of_empty(e.pending);
        assert(e.pending_keys.union(keys_of(t.take(0))) =~= e.pending_keys);
    } else {
        lemma_requeued_taken(w, n - 1);
        let x = t[n - 1];
        assert(t.take(n).drop_last() =~= t.take(n - 1));
        assert(t.take(n).last() == x);
        assert(t.take(n - 1).push(x) =~= t.take(n));
        lemma_keys_of_push(t.take(n - 1), x);
        let prev = requeued_all(e, t.take(n - 1));
        assert(keys_of(t).contains(x.key));
        assert(!e.pending_keys.contains(x.key));
        if prev.pending_keys.contains(x.key) {
            assert(keys_of(t.take(n - 1)).contains(x.key));
            assert(keys_of(t.take(n - 1)).insert(x.key) =~= keys_of(t.take(n - 1)));
        } else {
            lemma_keys_of_push(prev.pending, x);
            assert(e.pending_keys.union(keys_of(t.take(n - 1))).insert(x.key) =~= e.pending_keys.union(
                keys_of(t.take(n - 1)).insert(x.key),
            ));
        }
    }
}

/// Candidates put back one after another, as while continuation is paused,
/// all come back at the next take: it holds a failure of each of their keys
/// and of no other, and neither the handled failures nor the tasks changed.
pub proof fn law_taken_failures_come_back(w: WatcherView, n: int)
    requires
        0 <= n <= by_completion(w.pending).len(),
    ensures
        ({
            let t = by_completion(w.pending);
            let back = requeued_all(emptied(w, keys_of(t)), t.take(n));
            &&& keys_of(by_completion(back.pending)) == keys_of(t.take(n))
            &&& back.policy == w.policy
            &&& back.registry == w.registry
        }),
{
    let t = by_completion(w.pending);
    let back = requeued_all(emptied(w, keys_of(t)), t.take(n));
    lemma_requeued_taken(w, n);
    law_candidates_sorted_permutation(back.pending);
    lemma_keys_of_same_items(by_completion(back.pending), back.pending);
}

/// A single failure ordered by completion is itself.
pub proof fn lemma_by_completion_single(x: FailureView)
    ensures
        by_completion(seq![x]) == seq![x],
{
    let s = seq![x];
    assert(first_earliest(s) == 0);
    assert(s.remove(0) =~= Seq::<FailureView>::empty());
    assert(by_completion(s.remove(0)) == Seq::<FailureView>::empty());
    assert(seq![s[0]] + Seq::<FailureView>::empty() =~= s);
}

// ---------------------------------------------------------------------------
// The queue and its key set
// ---------------------------------------------------------------------------

/// No key is queued twice.
pub open spec fn keys_distinct(p: Seq<FailureView>) -> bool {
    forall|i: int, j: int|
        0 <= i < p.len() && 0 <= j < p.len() && i != j ==> #[trigger] p[i].key != #[trigger] p[j].key
}

/// The queue agrees with its key set: no key is queued twice, and the key set
/// holds exactly the keys queued.
pub open spec fn queue_agrees(w: WatcherView) -> bool {
    keys_distinct(w.pending) && w.pending_keys == keys_of(w.pending)
}

/// How many queued failures carry the key `k`.
pub open spec fn key_count(s: Seq<FailureView>, k: Key) -> nat
    decreases s.len(),
{
    if s.len() == 0 {
        0
    } else {
        key_count(s.drop_last(), k) + if s.last().key == k {
            1nat
        } else {
            0nat
        }
    }
}

/// The queue agrees with its key set on the key `k`: it holds one failure of
/// `k` when the key set holds `k`, and none otherwise.
pub open spec fn key_agrees(w: WatcherView, k: Key) -> bool {
    key_count(w.pending, k) == if w.pending_keys.contains(k) {
        1nat
    } else {
        0nat
    }
}

proof fn lemma_key_count_push(s: Seq<FailureView>, x: FailureView, k: Key)
    ensures
        key_count(s.push(x), k) == key_count(s, k) + if x.key == k {
            1nat
        } else {
            0nat
        },
{
    assert(s.push(x).drop_last() =~= s);
}

proof fn lemma_key_count_concat(a: Seq<FailureView>, b: Seq<FailureView>, k: Key)
    ensures
        key_count(a + b, k) == key_count(a, k) + key_count(b, k),
    decreases b.len(),
{
    if b.len() == 0 {
        assert(a + b =~= a);
    } else {
        lemma_key_count_concat(a, b.drop_last(), k);
        assert((a + b).drop_last() =~= a + b.drop_last());
        assert((a + b).last() == b.last());
    }
}

proof fn lemma_key_count_remove(s: Seq<FailureView>, m: int, k: Key)
    requires
        0 <= m < s.len(),
    ensures
        key_count(s, k) == key_count(s.remove(m), k) + if s[m].key == k {
            1nat
        } else {
            0nat
        },
{
    let a = s.take(m);
    let b = s.skip(m + 1);
    assert(s =~= a.push(s[m]) + b);
    assert(s.remove(m) =~= a + b);
    lemma_key_count_concat(a.push(s[m]), b, k);
    lemma_key_count_concat(a, b, k);
    lemma_key_count_push(a, s[m], k);
}

/// Ordering the queue by completion keeps how many failures carry each key.
proof fn lemma_key_count_by_completion(s: Seq<FailureView>, k: Key)
    ensures
        key_count(by_completion(s), k) == key_count(s, k),
    decreases s.len(),
{
    if s.len() > 0 {
        lemma_first_earliest_bounds(s);
        let m = first_earliest(s);
        lemma_key_count_by_completion(s.remove(m), k);
        lemma_key_count_concat(seq![s[m]], by_completion(s.remove(m)), k);
        assert(seq![s[m]] =~= Seq::<FailureView>::empty().push(s[m]));
        lemma_key_count_push(Seq::<FailureView>::empty(), s[m], k);
        lemma_key_count_remove(s, m, k);
    }
}

proof fn lemma_keys_of_empty(s: Seq<FailureView>)
    requires
        s.len() == 0,
    ensures
        keys_of(s) == Set::<Key>::empty(),
{
    assert(keys_of(s) =~= Set::<Key>::empty());
}

proof fn lemma_keys_of_push(s: Seq<FailureView>, x: FailureView)
    ensures
        keys_of(s.push(x)) == keys_of(s).insert(x.key),
{
    let t = s.push(x);
    assert forall|k: Key| #[trigger] keys_of(t).contains(k) == keys_of(s).insert(x.key).contains(k) by {
        if keys_of(t).contains(k) {
            let i = choose|i: int| 0 <= i < t.len() && #[trigger] t[i].key == k;
            if i < s.len() {
                assert(s[i] == t[i]);
            }
        }
        if keys_of(s).contains(k) {
            let i = choose|i: int| 0 <= i < s.len() && #[trigger] s[i].key == k;
            assert(t[i] == s[i]);
        }
        if k == x.key {
            assert(t[s.len() as int] == x);
        }
    }
    assert(keys_of(t) =~= keys_of(s).insert(x.key));
}

proof fn lemma_keys_distinct_push(s: Seq<FailureView>, x: FailureView)
    requires
        keys_distinct(s),
        !keys_of(s).contains(x.key),
    ensures
        keys_distinct(s.push(x)),
{
    let t = s.push(x);
    assert forall|i: int, j: int| 0 <= i < t.len() && 0 <= j < t.len() && i != j implies #[trigger] t[i].key
        != #[trigger] t[j].key by {
        if i < s.len() && j < s.len() {
            assert(t[i] == s[i]);
            assert(t[j] == s[j]);
        } else if i < s.len() {
            assert(t[i] == s[i]);
            assert(t[j] == x);
        } else {
            assert(t[j] == s[j]);
            assert(t[i] == x);
        }
    }
}

proof fn lemma_keys_distinct_last(s: Seq<FailureView>)
    requires
        keys_distinct(s),
        s.len() > 0,
    ensures
        keys_distinct(s.drop_last()),
        !keys_of(s.drop_last()).contains(s.last().key),
        keys_of(s) == keys_of(s.drop_last()).insert(s.last().key),
{
    let d = s.drop_last();
    assert(d.push(s.last()) =~= s);
    lemma_keys_of_push(d, s.last());
    assert forall|i: int, j: int| 0 <= i < d.len() && 0 <= j < d.len() && i != j implies #[trigger] d[i].key
        != #[trigger] d[j].key by {
        assert(d[i] == s[i]);
        assert(d[j] == s[j]);
    }
    if keys_of(d).contains(s.last().key) {
        let i = choose|i: int| 0 <= i < d.len() && #[trigger] d[i].key == s.last().key;
        assert(s[i] == d[i]);
        assert(s[s.len() - 1] == s.last());
    }
}

proof fn lemma_drop_keys_agrees(p: Seq<FailureView>, keys: Set<Key>)
    requires
        keys_distinct(p),
    ensures
        keys_distinct(drop_keys(p, keys)),
        keys_of(drop_keys(p, keys)) == keys_of(p).difference(keys),
    decreases p.len(),
{
    if p.len() == 0 {
        lemma_keys_of_empty(p);
        assert(keys_of(p).difference(keys) =~= Set::<Key>::empty());
    } else {
        let d = p.drop_last();
        let l = p.last();
        lemma_keys_distinct_last(p);
        lemma_drop_keys_agrees(d, keys);
        let q = drop_keys(d, keys);
        if keys.contains(l.key) {
            assert(keys_of(p).difference(keys) =~= keys_of(d).difference(keys));
        } else {
            lemma_keys_of_push(q, l);
            lemma_keys_distinct_push(q, l);
            assert(keys_of(p).difference(keys) =~= keys_of(d).difference(keys).insert(l.key));
        }
    }
}

proof fn lemma_drop_task_agrees(p: Seq<FailureView>, task_id: Seq<char>)
    requires
        keys_distinct(p),
    ensures
        keys_distinct(drop_task(p, task_id)),
        keys_of(drop_task(p, task_id)) == keys_of(p).difference(task_keys(p, task_id)),
    decreases p.len(),
{
    if p.len() == 0 {
        lemma_keys_of_empty(p);
        assert(keys_of(p).difference(task_keys(p, task_id)) =~= Set::<Key>::empty());
    } else {
        let d = p.drop_last();
        let l = p.last();
        lemma_keys_distinct_last(p);
        lemma_drop_task_agrees(d, task_id);
        let q = drop_task(d, task_id);
        assert(p[p.len() - 1] == l);
        assert forall|k: Key| #[trigger] task_keys(p, task_id).contains(k) == (task_keys(
            d,
            task_id,
        ).contains(k) || (k == l.key && k.0 == task_id)) by {
            if task_keys(p, task_id).contains(k) {
                let i = choose|i: int| 0 <= i < p.len() && #[trigger] p[i].key == k && k.0 == task_id;
                if i < d.len() {
                    assert(d[i] == p[i]);
                }
            }
            if task_keys(d, task_id).contains(k) {
                let i = choose|i: int| 0 <= i < d.len() && #[trigger] d[i].key == k && k.0 == task_id;
                assert(p[i] == d[i]);
            }
        }
        if l.key.0 == task_id {
            assert(keys_of(p).difference(task_keys(p, task_id)) =~= keys_of(d).difference(
                task_keys(d, task_id),
            ));
        } else {
            lemma_keys_of_push(q, l);
            lemma_keys_distinct_push(q, l);
            assert(keys_of(p).difference(task_keys(p, task_id)) =~= keys_of(d).difference(
                task_keys(d, task_id),
            ).insert(l.key));
        }
    }
}

/// Every event keeps the queue in agreement with its key set.
pub proof fn law_queue_agreement_kept(w: WatcherView, e: EventView)
    requires
        queue_agrees(w),
    ensures
        queue_agrees(handled(w, e)),
{
    if !(w.initial_cutoff matches Some(c) && e.occurred_at() < c) {
        let w1 = named(w, e.task());
        match e {
            EventView::Started { task_id, turn_id, started_at } => {
                let w2 = with_registry(w1, after_started(w1.registry, task_id, turn_id, started_at));
                lemma_drop_keys_agrees(w2.pending, superseded_keys(w2.pending, task_id, started_at));
            },
            EventView::UserMessage { task_id, turn_id, automatic, at } => {
                if !automatic {
                    let w2 = chain_cleared(w1, task_id);
                    lemma_drop_task_agrees(w2.pending, task_id);
                }
            },
            EventView::Completed { task_id, turn_id, completed_at } => {
                lemma_drop_keys_agrees(w1.pending, superseded_keys(w1.pending, task_id, completed_at));
            },
            EventView::Failure(f) => {
                if !w1.pending_keys.contains(f.key) {
                    lemma_keys_of_push(w1.pending, f);
                    lemma_keys_distinct_push(w1.pending, f);
                }
            },
        }
    }
}

/// A failure that may be continued is queued once, however often its record
/// is read: after reading it twice the next candidates hold exactly one
/// failure with its key, its task waits for continuation with this turn
/// pending, and the record of handled failures is as it was. This holds
/// wherever the queue agrees with its key set on that key.
pub proof fn law_failure_queued_once(w: WatcherView, f: FailureView)
    requires
        key_agrees(w, f.key),
        f.decision == CapacityDecision::Eligible,
        !w.policy.processed.contains(f.key),
        !(w.initial_cutoff matches Some(c) && f.completed_at < c),
        !(latest_start(w.registry, f.key.0) matches Some(s) && s > f.completed_at),
    ensures
        ({
            let once = handled(w, EventView::Failure(f));
            let twice = handled(once, EventView::Failure(f));
            &&& key_count(by_completion(twice.pending), f.key) == 1
            &&& twice.pending_keys.contains(f.key)
            &&& key_agrees(twice, f.key)
            &&& twice.policy == w.policy
            &&& twice.registry[f.key.0].snapshot.state == TaskState::WaitingContinuation
            &&& twice.registry[f.key.0].snapshot.latest_turn_id == Some(f.key.1)
            &&& twice.registry[f.key.0].snapshot.pending_failure == Some(f.key.1)
            &&& twice.registry[f.key.0].snapshot.last_activity_at == Some(f.completed_at)
        }),
{
    let e = EventView::Failure(f);
    let once = handled(w, e);
    let w1 = named(w, f.key.0);
    assert(latest_start(w1.registry, f.key.0) == latest_start(w.registry, f.key.0));
    if !w.pending_keys.contains(f.key) {
        lemma_key_count_push(w1.pending, f, f.key);
    }
    assert(once.pending_keys.contains(f.key));
    assert(key_count(once.pending, f.key) == 1);
    let twice = handled(once, e);
    let o1 = named(once, f.key.0);
    assert(o1.pending == once.pending);
    assert(twice.pending == once.pending);
    lemma_key_count_by_completion(twice.pending, f.key);
}

/// Where the queue agrees with its key set, it does so on every key.
pub proof fn law_agreement_on_every_key(w: WatcherView, k: Key)
    requires
        queue_agrees(w),
    ensures
        key_agrees(w, k),
{
    lemma_key_count_distinct(w.pending, k);
}

proof fn lemma_key_count_distinct(s: Seq<FailureView>, k: Key)
    requires
        keys_distinct(s),
    ensures
        key_count(s, k) == if keys_of(s).contains(k) {
            1nat
        } else {
            0nat
        },
    decreases s.len(),
{
    if s.len() == 0 {
        lemma_keys_of_empty(s);
    } else {
        lemma_keys_distinct_last(s);
        lemma_key_count_distinct(s.drop_last(), k);
    }
}

proof fn lemma_keys_of_same_items(a: Seq<FailureView>, b: Seq<FailureView>)
    requires
        a.to_multiset() == b.to_multiset(),
    ensures
        keys_of(a) == keys_of(b),
{
    broadcast use vstd::seq_lib::group_to_multiset_ensures;

    assert forall|k: Key| #[trigger] keys_of(a).contains(k) == keys_of(b).contains(k) by {
        if keys_of(a).contains(k) {
            let i = choose|i: int| 0 <= i < a.len() && #[trigger] a[i].key == k;
            assert(a.contains(a[i]));
            assert(a.to_multiset().count(a[i]) > 0);
            assert(b.to_multiset().count(a[i]) > 0);
            assert(b.contains(a[i]));
            let j = choose|j: int| 0 <= j < b.len() && b[j] == a[i];
            assert(b[j].key == k);
        }
        if keys_of(b).contains(k) {
            let i = choose|i: int| 0 <= i < b.len() && #[trigger] b[i].key == k;
            assert(b.contains(b[i]));
            assert(b.to_multiset().count(b[i]) > 0);
            assert(a.to_multiset().count(b[i]) > 0);
            assert(a.contains(b[i]));
            let j = choose|j: int| 0 <= j < a.len() && a[j] == b[i];
            assert(a[j].key == k);
        }
    }
    assert(keys_of(a) =~= keys_of(b));
}

/// Taking the candidates, putting one back, and recording a failure that is
/// not queued as handled each keep the queue in agreement with its key set.
pub proof fn law_queue_agreement_kept_by_taking(w: WatcherView, f: FailureView)
    requires
        queue_agrees(w),
    ensures
        queue_agrees(emptied(w, keys_of(by_completion(w.pending)))),
        queue_agrees(requeued(w, f)),
        !w.pending_keys.contains(f.key) ==> queue_agrees(settle(w, set![f.key])),
{
    law_candidates_sorted_permutation(w.pending);
    lemma_keys_of_same_items(by_completion(w.pending), w.pending);
    let e = emptied(w, keys_of(by_completion(w.pending)));
    lemma_keys_of_empty(e.pending);
    assert(e.pending_keys =~= Set::<Key>::empty());
    if !w.pending_keys.contains(f.key) {
        lemma_keys_of_push(w.pending, f);
        lemma_keys_distinct_push(w.pending, f);
        assert(w.pending_keys.difference(set![f.key]) =~= w.pending_keys);
    }
}

/// A completed turn of a task with no later recorded start shows the task
/// idle after that turn, with nothing pending; the record of handled
/// failures keeps at least what it had.
pub proof fn law_completed_event_shows_task_idle(
    w: WatcherView,
    task_id: Seq<char>,
    turn_id: Seq<char>,
    completed_at: Micros,
)
    requires
        !(w.initial_cutoff matches Some(c) && completed_at < c),
        !older_than_latest_start(record_of(w.registry, task_id), completed_at),
    ensures
        ({
            let after = handled(w, EventView::Completed { task_id, turn_id, completed_at });
            &&& after.registry.dom().contains(task_id)
            &&& after.registry[task_id].snapshot.state == TaskState::Idle
            &&& after.registry[task_id].snapshot.latest_turn_id == Some(turn_id)
            &&& after.registry[task_id].snapshot.last_activity_at == Some(completed_at)
            &&& after.registry[task_id].snapshot.pending_failure is None
            &&& w.policy.processed.subset_of(after.policy.processed)
        }),
{
    let w1 = named(w, task_id);
    assert(record_of(w1.registry, task_id).latest_started_at == record_of(
        w.registry,
        task_id,
    ).latest_started_at);
    let w2 = superseded(w1, task_id, completed_at);
    assert(w2.registry == w1.registry);
    law_completion_shows_task_idle(w2.registry, task_id, turn_id, completed_at);
}

/// A start of a task with no later recorded start shows the task running
/// that turn, with nothing pending.
pub proof fn law_started_event_shows_task_running(
    w: WatcherView,
    task_id: Seq<char>,
    turn_id: Seq<char>,
    started_at: Micros,
)
    requires
        !(w.initial_cutoff matches Some(c) && started_at < c),
        !older_than_latest_start(record_of(w.registry, task_id), started_at),
    ensures
        ({
            let after = handled(w, EventView::Started { task_id, turn_id, started_at });
            &&& after.registry.dom().contains(task_id)
            &&& after.registry[task_id].snapshot.state == TaskState::Running
            &&& after.registry[task_id].snapshot.latest_turn_id == Some(turn_id)
            &&& after.registry[task_id].snapshot.last_activity_at == Some(started_at)
            &&& after.registry[task_id].snapshot.pending_failure is None
        }),
{
    let w1 = named(w, task_id);
    assert(record_of(w1.registry, task_id).latest_started_at == record_of(
        w.registry,
        task_id,
    ).latest_started_at);
    law_start_shows_task_running(w1.registry, task_id, turn_id, started_at, task_id);
}

} // verus!
