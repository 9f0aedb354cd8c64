//! Hierarchical scoped timing.
//!
//! A `TimerTree` measures the wall-clock duration of a named operation and
//! of arbitrarily nested sub-operations inside it.  Spans are kept in an
//! arena indexed by creation order; a stack of indices tracks the chain of
//! currently open spans, so the most recently opened, not-yet-closed span
//! receives the next opened child.  Opening clamps the clock reading to be
//! no earlier than the latest reading already recorded, so every span's
//! duration is non-negative and a parent's duration covers each child's.

use crate::clock::clock_micros;
use vstd::prelude::*;

verus! {

/// An in-memory tree of named timing spans.
///
/// The span opened first (index 0) is the root; `total_time` reports its
/// duration once it has closed.  All columns are indexed by span index:
/// `names[i]` is the label of span `i`, `starts[i]` its start reading,
/// `elapsed[i]` its duration once closed (`None` while open), and
/// `parent[i]` the span that was active when `i` was opened (`None` only
/// for the root).  `active` is the stack of open span indices, outermost
/// first, and `last_time` the latest clamped clock reading.
pub struct TimerTree {
    pub names: Vec<String>,
    pub starts: Vec<u64>,
    pub elapsed: Vec<Option<u64>>,
    pub parent: Vec<Option<usize>>,
    pub active: Vec<usize>,
    pub last_time: u64,
}

/// A clock reading clamped to be no earlier than the latest one recorded.
pub open spec fn clamp(last: u64, now: u64) -> u64 {
    if now > last {
        now
    } else {
        last
    }
}

impl TimerTree {
    /// Whether span `i` is on the stack of open spans.
    pub open spec fn on_stack(self, i: int) -> bool {
        exists|k: int| 0 <= k < self.active@.len() && self.active@[k] == i
    }

    /// The moment at which a closed span ended.
    pub open spec fn span_end(self, i: int) -> int {
        self.starts@[i] + self.elapsed@[i]->0
    }

    /// Structural and timing invariant of the tree.
    pub open spec fn wf(self) -> bool {
        let n = self.names@.len();
        &&& self.starts@.len() == n
        &&& self.elapsed@.len() == n
        &&& self.parent@.len() == n
        &&& forall|k: int| 0 <= k < self.active@.len() ==> #[trigger] self.active@[k] < n
        &&& forall|k1: int, k2: int|
            0 <= k1 < k2 < self.active@.len() ==> #[trigger] self.active@[k1] < #[trigger] self.active@[k2]
        &&& self.active@.len() > 0 ==> self.active@[0] == 0
        &&& forall|i: int| 0 <= i < n ==> (self.elapsed@[i] is None <==> self.on_stack(i))
        &&& n > 0 ==> self.parent@[0] is None
        &&& forall|i: int|
            1 <= i < n ==> #[trigger] self.parent@[i] is Some && self.parent@[i]->0 < i
        &&& forall|k: int|
            1 <= k < self.active@.len() ==> #[trigger] self.parent@[self.active@[k] as int] == Some(
                self.active@[k - 1],
            )
        &&& forall|i: int| 0 <= i < n ==> #[trigger] self.starts@[i] <= self.last_time
        &&& forall|i: int|
            0 <= i < n && self.elapsed@[i] is Some ==> #[trigger] self.span_end(i)
                <= self.last_time
        &&& forall|i: int|
            1 <= i < n ==> #[trigger] self.starts@[self.parent@[i]->0 as int] <= self.starts@[i]
        &&& forall|i: int|
            1 <= i < n && self.elapsed@[#[trigger] self.parent@[i]->0 as int] is Some
                ==> self.elapsed@[i] is Some && self.span_end(i) <= self.span_end(
                self.parent@[i]->0 as int,
            )
    }

    /// Whether a further span may be opened: an enclosing span is still
    /// open, or nothing has been opened yet (the root is still to come).
    pub open spec fn can_open(self) -> bool {
        self.active@.len() > 0 || self.names@.len() == 0
    }

    /// The duration of the root span, zero while it has not closed.
    pub open spec fn total_spec(self) -> nat {
        if self.elapsed@.len() > 0 && self.elapsed@[0] is Some {
            self.elapsed@[0]->0 as nat
        } else {
            0
        }
    }
}

/// How one `open` call at clock reading `now` changes the tree: a new span
/// labelled `name` is appended to the arena as a child of the active span
/// (as the root if none is active), starts at the clamped reading, and
/// becomes the new active span.
pub open spec fn is_open_step(pre: TimerTree, post: TimerTree, name: Seq<char>, now: u64) -> bool {
    let t = clamp(pre.last_time, now);
    let n = pre.names@.len() as int;
    &&& post.names@.len() == n + 1
    &&& post.names@.subrange(0, n) == pre.names@
    &&& post.names@[n]@ == name
    &&& post.starts@ == pre.starts@.push(t)
    &&& post.elapsed@ == pre.elapsed@.push(None)
    &&& post.parent@ == pre.parent@.push(
        if pre.active@.len() > 0 {
            Some(pre.active@.last())
        } else {
            None
        },
    )
    &&& post.active@ == pre.active@.push(n as usize)
    &&& post.last_time == t
}

/// How one `close` call at clock reading `now` changes the tree: the
/// active span's duration becomes the clamped reading minus its start,
/// and its parent becomes the active span again.
pub open spec fn is_close_step(pre: TimerTree, post: TimerTree, now: u64) -> bool {
    let t = clamp(pre.last_time, now);
    let top = pre.active@.last() as int;
    &&& post.names@ == pre.names@
    &&& post.starts@ == pre.starts@
    &&& post.elapsed@ == pre.elapsed@.update(top, Some((t - pre.starts@[top]) as u64))
    &&& post.parent@ == pre.parent@
    &&& post.active@ == pre.active@.drop_last()
    &&& post.last_time == t
}

impl Default for TimerTree {
    /// An empty tree: no spans, nothing active.
    fn default() -> (r: Self)
        ensures
            r.wf(),
            r.names@.len() == 0,
            r.active@.len() == 0,
            r.last_time == 0,
    {
        TimerTree {
            names: Vec::new(),
            starts: Vec::new(),
            elapsed: Vec::new(),
            parent: Vec::new(),
            active: Vec::new(),
            last_time: 0,
        }
    }
}

impl TimerTree {
    /// Opens a span labelled `name` at the given clock reading.
    pub fn open_at(&mut self, name: String, now: u64)
        requires
            old(self).wf(),
            old(self).can_open(),
            old(self).names@.len() < usize::MAX,
            name@.len() > 0,
        ensures
            final(self).wf(),
            is_open_step(*old(self), *final(self), name@, now),
    {
        let t = if now > self.last_time {
            now
        } else {
            self.last_time
        };
        let idx = self.names.len();
        let par: Option<usize> = if self.active.len() > 0 {
            Some(self.active[self.active.len() - 1])
        } else {
            None
        };
        self.names.push(name);
        self.starts.push(t);
        self.elapsed.push(None);
        self.parent.push(par);
        self.active.push(idx);
        self.last_time = t;
        proof {
            let pre = *old(self);
            let post = *self;
            let n = pre.names@.len() as int;
            assert(post.names@.subrange(0, n) =~= pre.names@);
            assert forall|k1: int, k2: int| 0 <= k1 < k2 < post.active@.len() implies
                #[trigger] post.active@[k1] < #[trigger] post.active@[k2] by {
                if k2 < pre.active@.len() {
                } else {
                    assert(post.active@[k2] == n as usize);
                    assert(pre.active@[k1] < n);
                }
            }
            assert forall|i: int| 0 <= i < post.names@.len() implies (post.elapsed@[i] is None
                <==> post.on_stack(i)) by {
                if i < n {
                    assert(post.elapsed@[i] == pre.elapsed@[i]);
                    if pre.on_stack(i) {
                        let k = choose|k: int|
                            0 <= k < pre.active@.len() && pre.active@[k] == i;
                        assert(post.active@[k] == i);
                        assert(post.on_stack(i));
                    }
                    if post.on_stack(i) {
                        let k = choose|k: int|
                            0 <= k < post.active@.len() && post.active@[k] == i;
                        assert(post.active@[post.active@.len() - 1] == n as usize);
                        assert(k < pre.active@.len());
                        assert(pre.on_stack(i));
                    }
                } else {
                    assert(post.active@[post.active@.len() - 1] == i);
                    assert(post.on_stack(i));
                }
            }
            assert forall|k: int| 1 <= k < post.active@.len() implies
                #[trigger] post.parent@[post.active@[k] as int] == Some(post.active@[k - 1]) by {
                if k < post.active@.len() - 1 {
                    assert(post.active@[k] == pre.active@[k]);
                    assert(pre.active@[k] < n);
                } else {
                    assert(post.active@[k] == n as usize);
                    assert(post.active@[k - 1] == pre.active@.last());
                }
            }
            assert forall|i: int|
                0 <= i < post.names@.len() && post.elapsed@[i] is Some implies
                #[trigger] post.span_end(i) <= post.last_time by {
                assert(i < n);
                assert(post.elapsed@[i] == pre.elapsed@[i]);
                assert(post.starts@[i] == pre.starts@[i]);
                assert(pre.span_end(i) <= pre.last_time);
            }
            assert forall|i: int|
                1 <= i < post.names@.len() && post.elapsed@[#[trigger] post.parent@[i]->0 as int]
                    is Some implies post.elapsed@[i] is Some && post.span_end(i) <= post.span_end(
                post.parent@[i]->0 as int,
            ) by {
                let p = post.parent@[i]->0 as int;
                if i < n {
                    assert(post.parent@[i] == pre.parent@[i]);
                    assert(p < i);
                    assert(post.elapsed@[p] == pre.elapsed@[p]);
                    assert(post.elapsed@[i] == pre.elapsed@[i]);
                    assert(post.starts@[p] == pre.starts@[p]);
                    assert(post.starts@[i] == pre.starts@[i]);
                } else {
                    assert(pre.active@.len() > 0);
                    assert(post.parent@[i] == Some(pre.active@.last()));
                    assert(pre.on_stack(pre.active@.last() as int)) by {
                        assert(pre.active@[pre.active@.len() - 1] == pre.active@.last());
                    }
                    assert(pre.elapsed@[p] is None);
                    assert(post.elapsed@[p] == pre.elapsed@[p]);
                    assert(false);
                }
            }
        }
    }

    /// Closes the currently active span at the given clock reading.
    pub fn close_at(&mut self, now: u64)
        requires
            old(self).wf(),
            old(self).active@.len() > 0,
        ensures
            final(self).wf(),
            is_close_step(*old(self), *final(self), now),
    {
        let t = if now > self.last_time {
            now
        } else {
            self.last_time
        };
        let top = self.active[self.active.len() - 1];
        let start = self.starts[top];
        self.elapsed[top] = Some(t - start);
        self.active.pop();
        self.last_time = t;
        proof {
            let pre = *old(self);
            let post = *self;
            let topi = top as int;
            let m = pre.active@.len() as int;
            assert(post.active@ =~= pre.active@.drop_last());
            assert(pre.active@[m - 1] == top);
            // The closed span was the deepest open one, so nothing left on
            // the stack is it, and everything left on the stack stays open.
            assert forall|i: int| 0 <= i < post.names@.len() implies (post.elapsed@[i] is None
                <==> post.on_stack(i)) by {
                if i == topi {
                    assert(post.elapsed@[i] is Some);
                    if post.on_stack(i) {
                        let k = choose|k: int|
                            0 <= k < post.active@.len() && post.active@[k] == i;
                        assert(pre.active@[k] == i);
                        assert(k < m - 1);
                        assert(pre.active@[k] < pre.active@[m - 1]);
                        assert(false);
                    }
                } else {
                    assert(post.elapsed@[i] == pre.elapsed@[i]);
                    if pre.on_stack(i) {
                        let k = choose|k: int|
                            0 <= k < pre.active@.len() && pre.active@[k] == i;
                        assert(k != m - 1);
                        assert(post.active@[k] == i);
                        assert(post.on_stack(i));
                    }
                    if post.on_stack(i) {
                        let k = choose|k: int|
                            0 <= k < post.active@.len() && post.active@[k] == i;
                        assert(pre.active@[k] == i);
                        assert(pre.on_stack(i));
                    }
                    if pre.elapsed@[i] is None {
                        assert(pre.on_stack(i));
                    }
                }
            }
            assert forall|i: int|
                0 <= i < post.names@.len() && post.elapsed@[i] is Some implies
                #[trigger] post.span_end(i) <= post.last_time by {
                if i == topi {
                    assert(post.span_end(i) == t);
                } else {
                    assert(post.elapsed@[i] == pre.elapsed@[i]);
                    assert(pre.span_end(i) <= pre.last_time);
                    assert(post.span_end(i) == pre.span_end(i));
                }
            }
            // Every child of the closed span was already closed — an open
            // child would sit above its parent on the stack, and the closed
            // span was the stack's top — and ended no later than now.
            assert forall|i: int|
                1 <= i < post.names@.len() && post.elapsed@[#[trigger] post.parent@[i]->0 as int]
                    is Some implies post.elapsed@[i] is Some && post.span_end(i) <= post.span_end(
                post.parent@[i]->0 as int,
            ) by {
                let p = post.parent@[i]->0 as int;
                if p == topi && i != topi {
                    if pre.elapsed@[i] is None {
                        assert(pre.on_stack(i));
                        let k = choose|k: int|
                            0 <= k < pre.active@.len() && pre.active@[k] == i;
                        if k == 0 {
                            assert(pre.active@[0] == 0);
                            assert(pre.parent@[0] is None);
                            assert(false);
                        } else {
                            assert(pre.parent@[pre.active@[k] as int] == Some(pre.active@[k - 1]));
                            assert(pre.parent@[i] == Some(pre.active@[k - 1]));
                            assert(pre.parent@[i]->0 == top);
                            assert(pre.active@[k - 1] == top);
                            if k - 1 < m - 1 {
                                assert(pre.active@[k - 1] < pre.active@[m - 1]);
                                assert(false);
                            }
                            assert(k == m);
                            assert(false);
                        }
                    }
                    assert(post.elapsed@[i] == pre.elapsed@[i]);
                    assert(post.span_end(i) == pre.span_end(i));
                    assert(pre.span_end(i) <= pre.last_time);
                    assert(post.span_end(topi) == t);
                } else if i == topi {
                    assert(pre.on_stack(topi));
                    assert(p < topi);
                    if pre.elapsed@[p] is Some {
                        assert(pre.elapsed@[topi] is Some);
                        assert(false);
                    }
                    assert(post.elapsed@[p] == pre.elapsed@[p]);
                    assert(false);
                } else {
                    assert(post.elapsed@[i] == pre.elapsed@[i]);
                    assert(post.elapsed@[p] == pre.elapsed@[p]);
                }
            }
        }
    }

    /// Opens a span labelled `name` at the current wall-clock reading.
    pub fn open(&mut self, name: String)
        requires
            old(self).wf(),
            old(self).can_open(),
            old(self).names@.len() < usize::MAX,
            name@.len() > 0,
        ensures
            final(self).wf(),
            exists|now: u64| is_open_step(*old(self), *final(self), name@, now),
    {
        let now = clock_micros();
        self.open_at(name, now);
        proof {
            assert(is_open_step(*old(self), *self, name@, now));
        }
    }

    /// Closes the currently active span at the current wall-clock reading.
    pub fn close(&mut self)
        requires
            old(self).wf(),
            old(self).active@.len() > 0,
        ensures
            final(self).wf(),
            exists|now: u64| is_close_step(*old(self), *final(self), now),
    {
        let now = clock_micros();
        self.close_at(now);
        proof {
            assert(is_close_step(*old(self), *self, now));
        }
    }

    /// How many spans are currently open.
    pub fn open_spans(&self) -> (r: usize)
        ensures
            r == self.active@.len(),
    {
        self.active.len()
    }

    /// How many spans the tree holds.
    pub fn span_count(&self) -> (r: usize)
        ensures
            r == self.names@.len(),
    {
        self.names.len()
    }

    /// The elapsed duration of the root span, in microseconds.  Zero while
    /// the root span has not closed; callers should read it only after the
    /// measured block has fully exited.
    pub fn total_time(&self) -> (r: u64)
        ensures
            r as nat == self.total_spec(),
    {
        if self.elapsed.len() > 0 {
            match self.elapsed[0] {
                Some(e) => e,
                None => 0,
            }
        } else {
            0
        }
    }
}

/// A chain of spans each of which is the parent of the next.
pub open spec fn is_chain(t: TimerTree, path: Seq<int>) -> bool {
    &&& forall|k: int| 0 <= k < path.len() ==> 0 <= #[trigger] path[k] < t.names@.len()
    &&& forall|k: int|
        1 <= k < path.len() ==> #[trigger] t.parent@[path[k]] is Some && t.parent@[path[k]]->0
            as int == path[k - 1]
}

/// A closed span's duration covers each of its children's: the child
/// started no earlier and ended no later, so its duration is no larger,
/// and both durations are non-negative.
pub proof fn lemma_parent_covers_child(t: TimerTree, c: int)
    requires
        t.wf(),
        1 <= c < t.names@.len(),
        t.elapsed@[t.parent@[c]->0 as int] is Some,
    ensures
        t.elapsed@[c] is Some,
        t.elapsed@[c]->0 <= t.elapsed@[t.parent@[c]->0 as int]->0,
{
    let p = t.parent@[c]->0 as int;
    assert(t.starts@[p] <= t.starts@[c]);
    assert(t.span_end(c) <= t.span_end(p));
}

/// Along any parent chain whose outermost span is closed, every inner
/// span is closed too and the outermost span's duration covers each inner
/// one's.  In particular the root span's total, once the root has closed,
/// is at least any single descendant's duration, and at least zero.
pub proof fn lemma_outer_covers_inner(t: TimerTree, path: Seq<int>)
    requires
        t.wf(),
        path.len() >= 1,
        is_chain(t, path),
        t.elapsed@[path[0]] is Some,
    ensures
        t.elapsed@[path.last()] is Some,
        t.elapsed@[path.last()]->0 <= t.elapsed@[path[0]]->0,
    decreases path.len(),
{
    if path.len() > 1 {
        let prefix = path.drop_last();
        assert(is_chain(t, prefix));
        assert(prefix[0] == path[0]);
        lemma_outer_covers_inner(t, prefix);
        let c = path.last();
        let q = path[path.len() - 2];
        assert(prefix.last() == q);
        assert(t.parent@[c] is Some && t.parent@[c]->0 as int == q);
        assert(t.elapsed@[q] is Some);
        assert(c >= 1) by {
            assert(t.parent@[c] is Some ==> c != 0 || t.parent@[0] is None);
            if c == 0 {
                assert(t.parent@[0] is None);
            }
        }
        lemma_parent_covers_child(t, c);
    }
}

/// Opening a child span inside a currently open parent and closing the
/// child before the parent leaves the parent open and active again, so a
/// following `open` attaches a sibling: both spans end up children of the
/// same parent, in opening order.
pub proof fn lemma_sibling_after_nested_close(
    t0: TimerTree,
    t1: TimerTree,
    t2: TimerTree,
    t3: TimerTree,
    n1: Seq<char>,
    s1: u64,
    e1: u64,
    n2: Seq<char>,
    s2: u64,
)
    requires
        t0.wf(),
        t0.active@.len() > 0,
        t0.names@.len() < usize::MAX,
        is_open_step(t0, t1, n1, s1),
        is_close_step(t1, t2, e1),
        is_open_step(t2, t3, n2, s2),
    ensures
        t2.active@ == t0.active@,
        t2.elapsed@[t0.active@.last() as int] is None,
        t1.parent@[t0.names@.len() as int] == Some(t0.active@.last()),
        t3.parent@[t2.names@.len() as int] == Some(t0.active@.last()),
        t2.names@.len() == t0.names@.len() + 1,
{
    let parent = t0.active@.last() as int;
    let child = t0.names@.len() as int;
    assert(t1.active@ == t0.active@.push(child as usize));
    assert(t1.active@.drop_last() =~= t0.active@);
    assert(t2.active@ == t0.active@);
    assert(t0.on_stack(parent)) by {
        assert(t0.active@[t0.active@.len() - 1] == t0.active@.last());
    }
    assert(t0.elapsed@[parent] is None);
    assert(t1.elapsed@ == t0.elapsed@.push(None));
    assert(parent < t0.elapsed@.len());
    assert(t1.elapsed@[parent] is None);
    assert(t1.active@.last() == child as usize);
    assert(t1.active@.last() as int == child);
    assert(t2.elapsed@ == t1.elapsed@.update(
        child,
        Some((clamp(t1.last_time, e1) - t1.starts@[child]) as u64),
    ));
    assert(parent < child);
    assert(t2.elapsed@[parent] is None);
    assert(t2.active@.last() == t0.active@.last());
}

} // verus!
