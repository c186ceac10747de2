use vstd::prelude::*;
use crate::order::{Order, OrderModel};

verus! {

// The orchestrator's shared state: the queue of jobs awaiting dispatch and
// the set of jobs being moved.  The two polling loops themselves — discover
// folders, dispatch jobs — run outside the library and drive these verified
// transitions; everything they decide about the queues is decided here.

/// The mathematical value of the orchestrator state: the pending queue, in
/// FIFO order, and the running set.
pub struct WatcherModel {
    pub pending: Seq<OrderModel>,
    pub running: Seq<OrderModel>,
}

/// The models of a sequence of orders, in order.
pub open spec fn orders_of(s: Seq<Order>) -> Seq<OrderModel> {
    s.map_values(|o: Order| o@)
}

/// Whether some order in `s` has root path `root`.
pub open spec fn has_root(s: Seq<OrderModel>, root: Seq<char>) -> bool {
    exists|i: int| 0 <= i < s.len() && (#[trigger] s[i]).root == root
}

/// No two orders in `s` share a root path.
pub open spec fn no_dup_roots(s: Seq<OrderModel>) -> bool {
    forall|i: int, j: int|
        0 <= i < j < s.len() ==> (#[trigger] s[i]).root != (#[trigger] s[j]).root
}

/// How many orders in `s` have root path `root`.
pub open spec fn root_count(s: Seq<OrderModel>, root: Seq<char>) -> int
    decreases s.len(),
{
    if s.len() == 0 {
        0
    } else {
        (if s.first().root == root {
            1int
        } else {
            0int
        }) + root_count(s.drop_first(), root)
    }
}

/// A sequence without `root` counts it zero times.
proof fn lemma_root_count_zero(s: Seq<OrderModel>, root: Seq<char>)
    requires
        !has_root(s, root),
    ensures
        root_count(s, root) == 0,
    decreases s.len(),
{
    if s.len() > 0 {
        assert(s[0].root != root);
        let t = s.drop_first();
        assert forall|i: int| 0 <= i < t.len() implies (#[trigger] t[i]).root != root by {
            assert(t[i] == s[i + 1]);
        }
        lemma_root_count_zero(t, root);
    }
}

/// Under pairwise-distinct roots, no root is counted twice.
pub proof fn lemma_no_dup_root_count(s: Seq<OrderModel>, root: Seq<char>)
    requires
        no_dup_roots(s),
    ensures
        root_count(s, root) <= 1,
    decreases s.len(),
{
    if s.len() > 0 {
        let t = s.drop_first();
        assert forall|i: int, j: int| 0 <= i < j < t.len() implies (#[trigger] t[i]).root != (
        #[trigger] t[j]).root by {
            assert(t[i] == s[i + 1]);
            assert(t[j] == s[j + 1]);
        }
        lemma_no_dup_root_count(t, root);
        if s[0].root == root {
            assert forall|i: int| 0 <= i < t.len() implies (#[trigger] t[i]).root != root by {
                assert(t[i] == s[i + 1]);
            }
            lemma_root_count_zero(t, root);
        }
    }
}

/// The predicate that keeps the orders whose root differs from `root`.
pub open spec fn keep_other(root: Seq<char>) -> spec_fn(OrderModel) -> bool {
    |o: OrderModel| o.root != root
}

/// The orchestrator state: the FIFO queue of resolved jobs awaiting
/// dispatch, and the set of jobs currently being moved.  A root path never
/// stands twice in either structure.
#[derive(Debug)]
pub struct Watcher {
    pending_downloads: Vec<Order>,
    running_downloads: Vec<Order>,
}

impl View for Watcher {
    type V = WatcherModel;

    closed spec fn view(&self) -> WatcherModel {
        WatcherModel {
            pending: orders_of(self.pending_downloads@),
            running: orders_of(self.running_downloads@),
        }
    }
}

impl Watcher {
    /// Both structures hold pairwise-distinct root paths.
    pub open spec fn wf(self) -> bool {
        no_dup_roots(self@.pending) && no_dup_roots(self@.running)
    }

    /// A fresh orchestrator state with empty queues.
    pub fn new() -> (r: Watcher)
        ensures
            r@.pending.len() == 0,
            r@.running.len() == 0,
            r.wf(),
    {
        let r = Watcher { pending_downloads: Vec::new(), running_downloads: Vec::new() };
        proof {
            assert(r@.pending =~= Seq::<OrderModel>::empty());
            assert(r@.running =~= Seq::<OrderModel>::empty());
        }
        r
    }

    /// Whether the discovery loop may enqueue a job for this root: no job
    /// with the same root is pending or running.
    pub fn should_enqueue(&self, job: &Order) -> (r: bool)
        ensures
            r == (!has_root(self@.pending, job@.root) && !has_root(self@.running, job@.root)),
    {
        let in_pending = contains_root(&self.pending_downloads, job);
        let in_running = contains_root(&self.running_downloads, job);
        !in_pending && !in_running
    }

    /// Appends a job to the pending queue, unless its root is already
    /// pending: then nothing changes — the same folder is never queued
    /// twice.
    pub fn push_pending(&mut self, job: Order)
        requires
            old(self).wf(),
        ensures
            final(self).wf(),
            final(self)@.running == old(self)@.running,
            if has_root(old(self)@.pending, job@.root) {
                final(self)@.pending == old(self)@.pending
            } else {
                final(self)@.pending == old(self)@.pending.push(job@)
            },
    {
        if contains_root(&self.pending_downloads, &job) {
            return;
        }
        self.pending_downloads.push(job);
        proof {
            assert(self@.pending =~= old(self)@.pending.push(job@));
            assert forall|i: int, j: int| 0 <= i < j < self@.pending.len() implies (
            #[trigger] self@.pending[i]).root != (#[trigger] self@.pending[j]).root by {
                if j == self@.pending.len() - 1 {
                    assert(!has_root(old(self)@.pending, job@.root));
                }
            }
        }
    }

    /// Removes and returns the head of the pending queue: strict FIFO.
    pub fn get_pending(&mut self) -> (r: Option<Order>)
        requires
            old(self).wf(),
        ensures
            final(self).wf(),
            final(self)@.running == old(self)@.running,
            match r {
                Some(j) => old(self)@.pending.len() > 0 && j@ == old(self)@.pending[0]
                    && final(self)@.pending == old(self)@.pending.drop_first(),
                None => old(self)@.pending.len() == 0
                    && final(self)@.pending == old(self)@.pending,
            },
    {
        if self.pending_downloads.is_empty() {
            return None;
        }
        let j = self.pending_downloads.remove(0);
        proof {
            assert(self@.pending =~= old(self)@.pending.drop_first());
            assert forall|a: int, b: int| 0 <= a < b < self@.pending.len() implies (
            #[trigger] self@.pending[a]).root != (#[trigger] self@.pending[b]).root by {
                assert(self@.pending[a] == old(self)@.pending[a + 1]);
                assert(self@.pending[b] == old(self)@.pending[b + 1]);
            }
        }
        Some(j)
    }

    /// Inserts a job into the running set, unless its root is already
    /// running: then nothing changes.
    pub fn insert_running(&mut self, job: Order)
        requires
            old(self).wf(),
        ensures
            final(self).wf(),
            final(self)@.pending == old(self)@.pending,
            if has_root(old(self)@.running, job@.root) {
                final(self)@.running == old(self)@.running
            } else {
                final(self)@.running == old(self)@.running.push(job@)
            },
    {
        if contains_root(&self.running_downloads, &job) {
            return;
        }
        self.running_downloads.push(job);
        proof {
            assert(self@.running =~= old(self)@.running.push(job@));
            assert forall|i: int, j: int| 0 <= i < j < self@.running.len() implies (
            #[trigger] self@.running[i]).root != (#[trigger] self@.running[j]).root by {
                if j == self@.running.len() - 1 {
                    assert(!has_root(old(self)@.running, job@.root));
                }
            }
        }
    }

    /// Discards every running job that shares the given job's root.
    pub fn remove_from_running(&mut self, job: &Order)
        requires
            old(self).wf(),
        ensures
            final(self).wf(),
            final(self)@.pending == old(self)@.pending,
            final(self)@.running == old(self)@.running.filter(keep_other(job@.root)),
    {
        let ghost m = self@.running;
        let n = self.running_downloads.len();
        let mut kept: Vec<Order> = Vec::new();
        let mut i: usize = 0;
        proof {
            assert(orders_of(kept@) =~= Seq::<OrderModel>::empty());
            assert(m.take(0).filter(keep_other(job@.root)) =~= Seq::<OrderModel>::empty()) by {
                reveal(Seq::filter);
                assert(m.take(0) =~= Seq::<OrderModel>::empty());
            }
        }
        while i < n
            invariant
                0 <= i <= n,
                n == self.running_downloads@.len(),
                self@.running == m,
                self@.pending == old(self)@.pending,
                orders_of(kept@) == m.take(i as int).filter(keep_other(job@.root)),
            decreases n - i,
        {
            let ghost kept_pre = orders_of(kept@);
            proof {
                let prefix = m.take(i + 1 as int);
                assert(prefix.drop_last() =~= m.take(i as int));
                assert(prefix.last() == m[i as int]);
                reveal(Seq::filter);
            }
            let keep = {
                let p = self.running_downloads[i].get_root_path();
                let q = job.get_root_path();
                !(p == q)
            };
            if keep {
                let c = self.running_downloads[i].clone();
                kept.push(c);
                proof {
                    assert(orders_of(kept@) =~= kept_pre.push(m[i as int]));
                }
            }
            i = i + 1;
        }
        proof {
            assert(m.take(n as int) =~= m);
        }
        self.running_downloads = kept;
        proof {
            let f = m.filter(keep_other(job@.root));
            broadcast use vstd::seq_lib::group_filter_ensures;

            assert forall|a: int, b: int| 0 <= a < b < f.len() implies (#[trigger] f[a]).root != (
            #[trigger] f[b]).root by {
                lemma_filter_of_no_dup(m, keep_other(job@.root), a, b);
            }
        }
    }

    /// Settles a dispatched job: a successfully moved job leaves the
    /// running set; a failed one stays there untouched.
    pub fn finish_job(&mut self, job: &Order, success: bool)
        requires
            old(self).wf(),
        ensures
            final(self).wf(),
            final(self)@.pending == old(self)@.pending,
            if success {
                final(self)@.running == old(self)@.running.filter(keep_other(job@.root))
            } else {
                final(self)@.running == old(self)@.running
            },
    {
        if success {
            self.remove_from_running(job);
        }
    }
}

/// Two distinct positions of a filtered sequence come from two distinct
/// positions of the original, so pairwise-distinct roots survive filtering.
proof fn lemma_filter_of_no_dup(
    s: Seq<OrderModel>,
    pred: spec_fn(OrderModel) -> bool,
    a: int,
    b: int,
)
    requires
        no_dup_roots(s),
        0 <= a < b < s.filter(pred).len(),
    ensures
        s.filter(pred)[a].root != s.filter(pred)[b].root,
    decreases s.len(),
{
    reveal(Seq::filter);
    if s.len() > 0 {
        let t = s.drop_last();
        assert forall|i: int, j: int| 0 <= i < j < t.len() implies (#[trigger] t[i]).root != (
        #[trigger] t[j]).root by {
            assert(t[i] == s[i]);
            assert(t[j] == s[j]);
        }
        let f = s.filter(pred);
        let ft = t.filter(pred);
        if pred(s.last()) {
            assert(f == ft.push(s.last()));
            if b < f.len() - 1 {
                lemma_filter_of_no_dup(t, pred, a, b);
            } else {
                // `b` is the appended last element; `a` stands in the
                // filtered prefix, which is drawn from the prefix itself.
                lemma_filter_element_of(t, pred, a);
                let w = choose|w: int| 0 <= w < t.len() && t[w] == ft[a];
                assert(s[w] == t[w]);
                assert(s[w].root != s.last().root);
            }
        } else {
            lemma_filter_of_no_dup(t, pred, a, b);
        }
    }
}

/// Every element of a filtered sequence stands somewhere in the original.
proof fn lemma_filter_element_of(s: Seq<OrderModel>, pred: spec_fn(OrderModel) -> bool, a: int)
    requires
        0 <= a < s.filter(pred).len(),
    ensures
        exists|w: int| 0 <= w < s.len() && s[w] == s.filter(pred)[a],
    decreases s.len(),
{
    reveal(Seq::filter);
    if s.len() > 0 {
        let t = s.drop_last();
        let ft = t.filter(pred);
        if pred(s.last()) && a == s.filter(pred).len() - 1 {
            assert(s[s.len() - 1] == s.filter(pred)[a]);
        } else {
            lemma_filter_element_of(t, pred, a);
            let w = choose|w: int| 0 <= w < t.len() && t[w] == ft[a];
            assert(s[w] == t[w]);
        }
    }
}

/// Whether any order in the list shares the given job's root path.
fn contains_root(v: &Vec<Order>, job: &Order) -> (r: bool)
    ensures
        r == has_root(orders_of(v@), job@.root),
{
    let root = job.get_root_path();
    let n = v.len();
    let mut i: usize = 0;
    while i < n
        invariant
            0 <= i <= n,
            n == v@.len(),
            root@ == job@.root,
            forall|k: int| 0 <= k < i ==> (#[trigger] orders_of(v@)[k]).root != job@.root,
        decreases n - i,
    {
        let p = v[i].get_root_path();
        if p == root {
            proof {
                assert(orders_of(v@)[i as int] == v@[i as int]@);
            }
            return true;
        }
        i = i + 1;
    }
    false
}

} // verus!
