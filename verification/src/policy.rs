//! Which failures have been handled, which turns were started automatically,
//! and how many automatic continuations each task has had in a row.

use vstd::prelude::*;

use crate::keyed::{
    assoc_map, find_key, find_string, has_key, keys_unique, lemma_assoc_at, lemma_assoc_push,
    lemma_has_key_push, lemma_view_set_len, lemma_view_set_snoc,
    lemma_assoc_remove, lemma_assoc_update, lemma_view_set_push, lemma_view_set_remove, view_set,
    views_unique,
};
use crate::text::{
    lemma_seq_lt_irreflexive, lemma_seq_lt_transitive, owned, seq_lt, str_eq, str_lt,
};

verus! {

/// The most automatic turns remembered after trimming.
pub const MAX_AUTOMATIC_TURNS: usize = 10_000;

/// One failed turn of one task: what deduplication is keyed by.
#[derive(Debug, Clone, PartialEq, Eq, Hash)]
pub struct EventKey {
    pub task_id: String,
    pub turn_id: String,
}

impl View for EventKey {
    type V = (Seq<char>, Seq<char>);

    open spec fn view(&self) -> (Seq<char>, Seq<char>) {
        (self.task_id@, self.turn_id@)
    }
}

impl EventKey {
    /// A key for the turn `turn_id` of the task `task_id`.
    pub fn new(task_id: &str, turn_id: &str) -> (r: EventKey)
        ensures
            r@ == (task_id@, turn_id@),
    {
        EventKey { task_id: owned(task_id), turn_id: owned(turn_id) }
    }

    /// A copy of this key.
    pub fn duplicate(&self) -> (r: EventKey)
        ensures
            r@ == self@,
    {
        EventKey { task_id: self.task_id.clone(), turn_id: self.turn_id.clone() }
    }

    /// Whether two keys name the same turn of the same task.
    pub fn same(&self, other: &EventKey) -> (r: bool)
        ensures
            r == (self@ == other@),
    {
        str_eq(self.task_id.as_str(), other.task_id.as_str()) && str_eq(
            self.turn_id.as_str(),
            other.turn_id.as_str(),
        )
    }
}

/// Order of keys: by task, then by turn.
pub open spec fn key_lt(a: (Seq<char>, Seq<char>), b: (Seq<char>, Seq<char>)) -> bool {
    seq_lt(a.0, b.0) || (a.0 == b.0 && seq_lt(a.1, b.1))
}

proof fn lemma_key_lt_transitive(a: (Seq<char>, Seq<char>), b: (Seq<char>, Seq<char>), c: (
    Seq<char>,
    Seq<char>,
))
    requires
        key_lt(a, b),
        key_lt(b, c),
    ensures
        key_lt(a, c),
{
    if seq_lt(a.0, b.0) && seq_lt(b.0, c.0) {
        lemma_seq_lt_transitive(a.0, b.0, c.0);
    } else if seq_lt(a.0, b.0) {
    } else if seq_lt(b.0, c.0) {
    } else {
        lemma_seq_lt_transitive(a.1, b.1, c.1);
    }
}

fn key_less(a: &EventKey, b: &EventKey) -> (r: bool)
    ensures
        r == key_lt(a@, b@),
{
    str_lt(a.task_id.as_str(), b.task_id.as_str()) || (str_eq(
        a.task_id.as_str(),
        b.task_id.as_str(),
    ) && str_lt(a.turn_id.as_str(), b.turn_id.as_str()))
}

/// The record of handled failures and automatic continuations.
pub struct PolicyState {
    pub processed: Vec<EventKey>,
    pub automatic_turns: Vec<String>,
    pub automatic_chain_failures: Vec<(String, u32)>,
}

/// What a [`PolicyState`] holds: the handled failures, the turns started
/// automatically, and each task's count of consecutive automatic continuations.
pub struct PolicyView {
    pub processed: Set<(Seq<char>, Seq<char>)>,
    pub automatic_turns: Set<Seq<char>>,
    pub chains: Map<Seq<char>, u32>,
}

impl View for PolicyState {
    type V = PolicyView;

    open spec fn view(&self) -> PolicyView {
        PolicyView {
            processed: view_set(self.processed@),
            automatic_turns: view_set(self.automatic_turns@),
            chains: assoc_map(self.automatic_chain_failures@),
        }
    }
}

/// The consecutive automatic continuations of a task; zero when none is
/// recorded.
pub open spec fn chain_count(chains: Map<Seq<char>, u32>, task_id: Seq<char>) -> u32 {
    if chains.dom().contains(task_id) {
        chains[task_id]
    } else {
        0
    }
}

/// The state after the failure `key` is recorded as handled.
pub open spec fn marked(p: PolicyView, key: (Seq<char>, Seq<char>)) -> PolicyView {
    PolicyView { processed: p.processed.insert(key), ..p }
}

/// The state after the turn `turn_id` of `task_id` is recorded as automatic:
/// a turn seen for the first time adds one to the task's count (which stops at
/// `u32::MAX`); a turn seen before changes nothing.
pub open spec fn noted(p: PolicyView, task_id: Seq<char>, turn_id: Seq<char>) -> PolicyView {
    if p.automatic_turns.contains(turn_id) {
        p
    } else {
        let c = chain_count(p.chains, task_id);
        PolicyView {
            automatic_turns: p.automatic_turns.insert(turn_id),
            chains: p.chains.insert(
                task_id,
                if c < u32::MAX {
                    (c + 1) as u32
                } else {
                    c
                },
            ),
            ..p
        }
    }
}

/// The state after a task's count is cleared.
pub open spec fn reset(p: PolicyView, task_id: Seq<char>) -> PolicyView {
    PolicyView { chains: p.chains.remove(task_id), ..p }
}

/// Of a set trimmed to `kept`: every element dropped from `all` comes before
/// every element kept.
pub open spec fn keeps_greatest_keys(
    all: Set<(Seq<char>, Seq<char>)>,
    kept: Set<(Seq<char>, Seq<char>)>,
) -> bool {
    &&& kept.subset_of(all)
    &&& forall|k: (Seq<char>, Seq<char>), d: (Seq<char>, Seq<char>)|
        kept.contains(k) && all.contains(d) && !kept.contains(d) ==> #[trigger] key_lt(d, k)
            || !#[trigger] key_lt(k, d)
}

/// Of a set of strings trimmed to `kept`: every string dropped from `all` comes
/// before every string kept.
pub open spec fn keeps_greatest_strings(all: Set<Seq<char>>, kept: Set<Seq<char>>) -> bool {
    &&& kept.subset_of(all)
    &&& forall|k: Seq<char>, d: Seq<char>|
        kept.contains(k) && all.contains(d) && !kept.contains(d) ==> !#[trigger] seq_lt(k, d)
            || #[trigger] seq_lt(d, k)
}

impl PolicyState {
    /// No handled failure, automatic turn or task count is held twice.
    pub open spec fn wf(&self) -> bool {
        &&& views_unique(self.processed@)
        &&& views_unique(self.automatic_turns@)
        &&& keys_unique(self.automatic_chain_failures@)
    }

    /// An empty record.
    pub fn new() -> (r: PolicyState)
        ensures
            r.wf(),
            r@.processed == Set::<(Seq<char>, Seq<char>)>::empty(),
            r@.automatic_turns == Set::<Seq<char>>::empty(),
            r@.chains == Map::<Seq<char>, u32>::empty(),
    {
        let r = PolicyState {
            processed: Vec::new(),
            automatic_turns: Vec::new(),
            automatic_chain_failures: Vec::new(),
        };
        assert(r@.processed =~= Set::<(Seq<char>, Seq<char>)>::empty());
        assert(r@.automatic_turns =~= Set::<Seq<char>>::empty());
        assert(r@.chains =~= Map::<Seq<char>, u32>::empty());
        r
    }

    /// A record holding the given handled failures, automatic turns and
    /// counts, each once; of a task counted twice the first count is kept.
    pub fn restore(
        processed: &Vec<EventKey>,
        turns: &Vec<String>,
        chains: &Vec<(String, u32)>,
    ) -> (r: PolicyState)
        ensures
            r.wf(),
            r@.processed == view_set(processed@),
            r@.automatic_turns == view_set(turns@),
            forall|k: Seq<char>| #[trigger] r@.chains.dom().contains(k) <==> has_key(chains@, k),
            keys_unique(chains@) ==> r@.chains == assoc_map(chains@),
            (PolicyState {
                processed: *processed,
                automatic_turns: *turns,
                automatic_chain_failures: *chains,
            }).wf() ==> r@ == (PolicyState {
                processed: *processed,
                automatic_turns: *turns,
                automatic_chain_failures: *chains,
            })@,
    {
        let mut out = PolicyState::new();
        let mut i: usize = 0;
        assert(view_set(processed@.take(0)) =~= Set::<(Seq<char>, Seq<char>)>::empty());
        while i < processed.len()
            invariant
                out.wf(),
                i <= processed@.len(),
                out@.processed == view_set(processed@.take(i as int)),
                out@.automatic_turns == Set::<Seq<char>>::empty(),
                out@.chains == Map::<Seq<char>, u32>::empty(),
            decreases processed@.len() - i,
        {
            proof {
                assert(processed@.take(i + 1) =~= processed@.take(i as int).push(processed@[i as int]));
                lemma_view_set_snoc(processed@.take(i as int), processed@[i as int]);
            }
            out.mark_processed(processed[i].duplicate());
            i += 1;
        }
        assert(processed@.take(i as int) =~= processed@);
        let mut j: usize = 0;
        assert(view_set(turns@.take(0)) =~= Set::<Seq<char>>::empty());
        while j < turns.len()
            invariant
                out.wf(),
                j <= turns@.len(),
                out@.processed == view_set(processed@),
                out@.automatic_turns == view_set(turns@.take(j as int)),
                out@.chains == Map::<Seq<char>, u32>::empty(),
            decreases turns@.len() - j,
        {
            proof {
                assert(turns@.take(j + 1) =~= turns@.take(j as int).push(turns@[j as int]));
                lemma_view_set_snoc(turns@.take(j as int), turns@[j as int]);
            }
            match find_string(&out.automatic_turns, turns[j].as_str()) {
                Some(_) => {
                    assert(view_set(out.automatic_turns@).insert(turns@[j as int]@) =~= view_set(
                        out.automatic_turns@,
                    ));
                },
                None => {
                    let t = turns[j].clone();
                    proof {
                        lemma_view_set_push(out.automatic_turns@, t);
                    }
                    out.automatic_turns.push(t);
                },
            }
            j += 1;
        }
        assert(turns@.take(j as int) =~= turns@);
        let mut m: usize = 0;
        assert(assoc_map(out.automatic_chain_failures@) =~= assoc_map(chains@.take(0)));
        assert forall|k: Seq<char>| has_key(out.automatic_chain_failures@, k) <==> has_key(
            chains@.take(0),
            k,
        ) by {
            assert(!out@.chains.dom().contains(k));
        }
        while m < chains.len()
            invariant
                out.wf(),
                m <= chains@.len(),
                out@.processed == view_set(processed@),
                out@.automatic_turns == view_set(turns@),
                forall|k: Seq<char>| has_key(out.automatic_chain_failures@, k) <==> has_key(
                    chains@.take(m as int),
                    k,
                ),
                keys_unique(chains@) ==> assoc_map(out.automatic_chain_failures@) == assoc_map(
                    chains@.take(m as int),
                ),
            decreases chains@.len() - m,
        {
            let ghost pre = chains@.take(m as int);
            let ghost next = chains@.take(m + 1);
            assert(next =~= pre.push(chains@[m as int]));
            let key = chains[m].0.clone();
            let count = chains[m].1;
            proof {
                lemma_has_key_push(pre, chains@[m as int]);
                if keys_unique(chains@) {
                    assert(keys_unique(pre));
                    assert(!has_key(pre, key@)) by {
                        if has_key(pre, key@) {
                            let a = choose|a: int| 0 <= a < pre.len() && #[trigger] pre[a].0@ == key@;
                            assert(chains@[a].0@ == chains@[m as int].0@);
                        }
                    }
                    lemma_assoc_push(pre, chains@[m as int].0, count);
                }
            }
            let ghost before = out.automatic_chain_failures@;
            match find_key(&out.automatic_chain_failures, key.as_str()) {
                Some(_) => {},
                None => {
                    proof {
                        lemma_assoc_push(before, key, count);
                        lemma_has_key_push(before, (key, count));
                    }
                    out.automatic_chain_failures.push((key, count));
                    assert(out.automatic_chain_failures@ == before.push((key, count)));
                },
            }
            m += 1;
        }
        assert(chains@.take(m as int) =~= chains@);
        out
    }

    fn find_processed(&self, key: &EventKey) -> (r: Option<usize>)
        ensures
            match r {
                Some(i) => i < self.processed@.len() && self.processed@[i as int]@ == key@,
                None => !self@.processed.contains(key@),
            },
    {
        let mut i: usize = 0;
        while i < self.processed.len()
            invariant
                i <= self.processed@.len(),
                forall|j: int| 0 <= j < i ==> self.processed@[j]@ != key@,
            decreases self.processed@.len() - i,
        {
            if self.processed[i].same(key) {
                return Some(i);
            }
            i += 1;
        }
        None
    }

    /// Whether the failure `key` has been handled.
    pub fn is_processed(&self, key: &EventKey) -> (r: bool)
        ensures
            r == self@.processed.contains(key@),
    {
        self.find_processed(key).is_some()
    }

    /// Records the failure `key` as handled; true when it was not recorded
    /// before.
    pub fn mark_processed(&mut self, key: EventKey) -> (r: bool)
        requires
            old(self).wf(),
        ensures
            final(self).wf(),
            r == !old(self)@.processed.contains(key@),
            final(self)@ == marked(old(self)@, key@),
    {
        if self.find_processed(&key).is_some() {
            assert(self@.processed.insert(key@) =~= self@.processed);
            return false;
        }
        proof {
            lemma_view_set_push(self.processed@, key);
        }
        self.processed.push(key);
        true
    }

    /// Records that the turn `turn_id` of `task_id` was started automatically;
    /// a turn recorded for the first time adds one to the task's count.
    pub fn note_automatic_turn(&mut self, task_id: &str, turn_id: &str)
        requires
            old(self).wf(),
        ensures
            final(self).wf(),
            final(self)@ == noted(old(self)@, task_id@, turn_id@),
    {
        if find_string(&self.automatic_turns, turn_id).is_some() {
            return;
        }
        let turn = owned(turn_id);
        proof {
            lemma_view_set_push(self.automatic_turns@, turn);
        }
        self.automatic_turns.push(turn);
        match find_key(&self.automatic_chain_failures, task_id) {
            Some(i) => {
                let c = self.automatic_chain_failures[i].1;
                let next = if c < u32::MAX {
                    c + 1
                } else {
                    c
                };
                let k = self.automatic_chain_failures[i].0.clone();
                proof {
                    lemma_assoc_at(self.automatic_chain_failures@, i as int);
                    lemma_assoc_update(self.automatic_chain_failures@, i as int, k, next);
                }
                self.automatic_chain_failures.set(i, (k, next));
            },
            None => {
                let k = owned(task_id);
                proof {
                    lemma_assoc_push(self.automatic_chain_failures@, k, 1u32);
                }
                self.automatic_chain_failures.push((k, 1));
            },
        }
    }

    /// Whether the turn `turn_id` was started automatically.
    pub fn is_automatic_turn(&self, turn_id: &str) -> (r: bool)
        ensures
            r == self@.automatic_turns.contains(turn_id@),
    {
        find_string(&self.automatic_turns, turn_id).is_some()
    }

    /// The consecutive automatic continuations of `task_id`.
    pub fn chain_failures(&self, task_id: &str) -> (r: u32)
        requires
            self.wf(),
        ensures
            r == chain_count(self@.chains, task_id@),
    {
        match find_key(&self.automatic_chain_failures, task_id) {
            Some(i) => {
                proof {
                    lemma_assoc_at(self.automatic_chain_failures@, i as int);
                }
                self.automatic_chain_failures[i].1
            },
            None => 0,
        }
    }

    /// Clears the consecutive count of `task_id`.
    pub fn reset_chain(&mut self, task_id: &str)
        requires
            old(self).wf(),
        ensures
            final(self).wf(),
            final(self)@ == reset(old(self)@, task_id@),
    {
        match find_key(&self.automatic_chain_failures, task_id) {
            Some(i) => {
                proof {
                    lemma_assoc_remove(self.automatic_chain_failures@, i as int);
                }
                self.automatic_chain_failures.remove(i);
            },
            None => {
                assert(assoc_map(self.automatic_chain_failures@).remove(task_id@) =~= assoc_map(
                    self.automatic_chain_failures@,
                ));
            },
        }
    }

    /// Keeps at most `max_processed` handled failures, those greatest in the
    /// order of task and turn, and at most [`MAX_AUTOMATIC_TURNS`] automatic
    /// turns, the greatest.
    pub fn trim(&mut self, max_processed: usize)
        requires
            old(self).wf(),
        ensures
            final(self).wf(),
            final(self)@.chains == old(self)@.chains,
            final(self).processed@.len() == if old(self).processed@.len() <= max_processed {
                old(self).processed@.len() as int
            } else {
                max_processed as int
            },
            keeps_greatest_keys(old(self)@.processed, final(self)@.processed),
            final(self).automatic_turns@.len() == if old(self).automatic_turns@.len()
                <= MAX_AUTOMATIC_TURNS {
                old(self).automatic_turns@.len() as int
            } else {
                MAX_AUTOMATIC_TURNS as int
            },
            keeps_greatest_strings(old(self)@.automatic_turns, final(self)@.automatic_turns),
            final(self)@.processed.len() == if old(self)@.processed.len() <= max_processed {
                old(self)@.processed.len()
            } else {
                max_processed as nat
            },
            old(self)@.processed.len() <= max_processed
                ==> final(self)@.processed == old(self)@.processed,
            final(self)@.automatic_turns.len() == if old(self)@.automatic_turns.len()
                <= MAX_AUTOMATIC_TURNS {
                old(self)@.automatic_turns.len()
            } else {
                MAX_AUTOMATIC_TURNS as nat
            },
            old(self)@.automatic_turns.len() <= MAX_AUTOMATIC_TURNS
                ==> final(self)@.automatic_turns == old(self)@.automatic_turns,
    {
        keep_greatest_keys(&mut self.processed, max_processed);
        keep_greatest_strings(&mut self.automatic_turns, MAX_AUTOMATIC_TURNS);
        proof {
            lemma_view_set_len(old(self).processed@);
            lemma_view_set_len(self.processed@);
            lemma_view_set_len(old(self).automatic_turns@);
            lemma_view_set_len(self.automatic_turns@);
            if old(self).processed@.len() <= max_processed {
                vstd::set_lib::lemma_subset_equality(self@.processed, old(self)@.processed);
            }
            if old(self).automatic_turns@.len() <= MAX_AUTOMATIC_TURNS {
                vstd::set_lib::lemma_subset_equality(
                    self@.automatic_turns,
                    old(self)@.automatic_turns,
                );
            }
        }
    }
}

impl Default for PolicyState {
    fn default() -> (r: PolicyState)
        ensures
            r.wf(),
            r@.processed == Set::<(Seq<char>, Seq<char>)>::empty(),
            r@.automatic_turns == Set::<Seq<char>>::empty(),
            r@.chains == Map::<Seq<char>, u32>::empty(),
    {
        PolicyState::new()
    }
}

/// The position of a least key.
fn least_key(v: &Vec<EventKey>) -> (r: usize)
    requires
        v@.len() > 0,
    ensures
        r < v@.len(),
        forall|j: int| 0 <= j < v@.len() ==> !key_lt(#[trigger] v@[j]@, v@[r as int]@),
{
    let mut best: usize = 0;
    let mut i: usize = 1;
    proof {
        lemma_seq_lt_irreflexive(v@[0]@.0);
        lemma_seq_lt_irreflexive(v@[0]@.1);
    }
    while i < v.len()
        invariant
            1 <= i <= v@.len(),
            best < i,
            forall|j: int| 0 <= j < i ==> !key_lt(#[trigger] v@[j]@, v@[best as int]@),
        decreases v@.len() - i,
    {
        if key_less(&v[i], &v[best]) {
            proof {
                assert forall|j: int| 0 <= j < i + 1 implies !key_lt(
                    #[trigger] v@[j]@,
                    v@[i as int]@,
                ) by {
                    if j < i && key_lt(v@[j]@, v@[i as int]@) {
                        lemma_key_lt_transitive(v@[j]@, v@[i as int]@, v@[best as int]@);
                    }
                    if j == i {
                        lemma_seq_lt_irreflexive(v@[i as int]@.0);
                        lemma_seq_lt_irreflexive(v@[i as int]@.1);
                    }
                }
            }
            best = i;
        }
        i += 1;
    }
    best
}

/// Removes least keys until at most `keep` remain.
fn keep_greatest_keys(v: &mut Vec<EventKey>, keep: usize)
    requires
        views_unique(old(v)@),
    ensures
        views_unique(final(v)@),
        final(v)@.len() == if old(v)@.len() <= keep {
            old(v)@.len() as int
        } else {
            keep as int
        },
        keeps_greatest_keys(view_set(old(v)@), view_set(final(v)@)),
{
    let ghost all = view_set(v@);
    while v.len() > keep
        invariant
            views_unique(v@),
            all == view_set(old(v)@),
            view_set(v@).subset_of(all),
            forall|k: (Seq<char>, Seq<char>), d: (Seq<char>, Seq<char>)|
                view_set(v@).contains(k) && all.contains(d) && !view_set(v@).contains(d)
                    ==> #[trigger] key_lt(d, k) || !#[trigger] key_lt(k, d),
            old(v)@.len() <= keep ==> v@ == old(v)@,
            old(v)@.len() > keep ==> v@.len() >= keep,
        decreases v@.len(),
    {
        let m = least_key(v);
        let ghost before = v@;
        let ghost least = v@[m as int]@;
        proof {
            lemma_view_set_remove(v@, m as int);
        }
        v.remove(m);
        proof {
            assert forall|k: (Seq<char>, Seq<char>), d: (Seq<char>, Seq<char>)|
                view_set(v@).contains(k) && all.contains(d) && !view_set(v@).contains(
                    d,
                ) implies #[trigger] key_lt(d, k) || !#[trigger] key_lt(k, d) by {
                if d != least {
                    assert(view_set(before).contains(k));
                } else {
                    let j = choose|j: int| 0 <= j < before.len() && #[trigger] before[j]@ == k;
                    assert(!key_lt(before[j]@, least));
                }
            }
        }
    }
}

/// The position of a least string.
fn least_string(v: &Vec<String>) -> (r: usize)
    requires
        v@.len() > 0,
    ensures
        r < v@.len(),
        forall|j: int| 0 <= j < v@.len() ==> !seq_lt(#[trigger] v@[j]@, v@[r as int]@),
{
    let mut best: usize = 0;
    let mut i: usize = 1;
    proof {
        lemma_seq_lt_irreflexive(v@[0]@);
    }
    while i < v.len()
        invariant
            1 <= i <= v@.len(),
            best < i,
            forall|j: int| 0 <= j < i ==> !seq_lt(#[trigger] v@[j]@, v@[best as int]@),
        decreases v@.len() - i,
    {
        if str_lt(v[i].as_str(), v[best].as_str()) {
            proof {
                assert forall|j: int| 0 <= j < i + 1 implies !seq_lt(
                    #[trigger] v@[j]@,
                    v@[i as int]@,
                ) by {
                    if j < i && seq_lt(v@[j]@, v@[i as int]@) {
                        lemma_seq_lt_transitive(v@[j]@, v@[i as int]@, v@[best as int]@);
                    }
                    if j == i {
                        lemma_seq_lt_irreflexive(v@[i as int]@);
                    }
                }
            }
            best = i;
        }
        i += 1;
    }
    best
}

/// Removes least strings until at most `keep` remain.
fn keep_greatest_strings(v: &mut Vec<String>, keep: usize)
    requires
        views_unique(old(v)@),
    ensures
        views_unique(final(v)@),
        final(v)@.len() == if old(v)@.len() <= keep {
            old(v)@.len() as int
        } else {
            keep as int
        },
        keeps_greatest_strings(view_set(old(v)@), view_set(final(v)@)),
{
    let ghost all = view_set(v@);
    while v.len() > keep
        invariant
            views_unique(v@),
            all == view_set(old(v)@),
            view_set(v@).subset_of(all),
            forall|k: Seq<char>, d: Seq<char>|
                view_set(v@).contains(k) && all.contains(d) && !view_set(v@).contains(d)
                    ==> !#[trigger] seq_lt(k, d) || #[trigger] seq_lt(d, k),
            old(v)@.len() <= keep ==> v@ == old(v)@,
            old(v)@.len() > keep ==> v@.len() >= keep,
        decreases v@.len(),
    {
        let m = least_string(v);
        let ghost before = v@;
        let ghost least = v@[m as int]@;
        proof {
            lemma_view_set_remove(v@, m as int);
        }
        v.remove(m);
        proof {
            assert forall|k: Seq<char>, d: Seq<char>|
                view_set(v@).contains(k) && all.contains(d) && !view_set(v@).contains(
                    d,
                ) implies !#[trigger] seq_lt(k, d) || #[trigger] seq_lt(d, k) by {
                if d != least {
                    assert(view_set(before).contains(k));
                } else {
                    let j = choose|j: int| 0 <= j < before.len() && #[trigger] before[j]@ == k;
                    assert(!seq_lt(before[j]@, least));
                }
            }
        }
    }
}

/// A handled failure stays handled, and handling it again changes nothing.
pub proof fn law_mark_processed_idempotent(p: PolicyView, key: (Seq<char>, Seq<char>))
    ensures
        marked(p, key).processed.contains(key),
        marked(marked(p, key), key) == marked(p, key),
{
    assert(marked(marked(p, key), key).processed =~= marked(p, key).processed);
}

/// An automatic turn is counted once, however often it is seen.
pub proof fn law_automatic_turn_counted_once(p: PolicyView, task_id: Seq<char>, turn_id: Seq<
    char,
>)
    ensures
        noted(p, task_id, turn_id).automatic_turns.contains(turn_id),
        noted(noted(p, task_id, turn_id), task_id, turn_id) == noted(p, task_id, turn_id),
{
}

/// A new automatic turn adds one to its task's count and leaves every other
/// task's count as it was.
pub proof fn law_new_automatic_turn_adds_one(
    p: PolicyView,
    task_id: Seq<char>,
    turn_id: Seq<char>,
    other: Seq<char>,
)
    requires
        !p.automatic_turns.contains(turn_id),
        chain_count(p.chains, task_id) < u32::MAX,
        other != task_id,
    ensures
        chain_count(noted(p, task_id, turn_id).chains, task_id) == chain_count(p.chains, task_id)
            + 1,
        chain_count(noted(p, task_id, turn_id).chains, other) == chain_count(p.chains, other),
{
}

/// After a reset a task's count is zero; other tasks keep theirs.
pub proof fn law_reset_clears_only_that_task(p: PolicyView, task_id: Seq<char>, other: Seq<char>)
    requires
        other != task_id,
    ensures
        chain_count(reset(p, task_id).chains, task_id) == 0,
        chain_count(reset(p, task_id).chains, other) == chain_count(p.chains, other),
{
}

} // verus!
