use vstd::prelude::*;
use vstd::string::StringExecFns;
use crate::error::CustomError;

verus! {

/// How many full sweeps over the pool an acquisition performs before it
/// fails with a pool-exhausted error.
pub const SWEEP_ATTEMPTS: u64 = 5;

/// How many failed connection attempts pool construction tolerates once at
/// least one session is live.
pub const CONN_RETRY_ATTEMPTS: u64 = 5;

/// One slot handing out one session: `pre[i]` free, handed out exactly that
/// slot, and nothing else touched.
pub open spec fn hands_out(pre: Seq<bool>, post: Seq<bool>, i: int) -> bool {
    &&& 0 <= i < pre.len()
    &&& !pre[i]
    &&& post == pre.update(i, true)
}

/// Two consecutive hand-outs can never yield the same slot: the first one
/// leaves its slot marked in use, and a hand-out requires a free slot.
pub proof fn lemma_no_double_handout(s1: Seq<bool>, s2: Seq<bool>, s3: Seq<bool>, i: int, j: int)
    requires
        hands_out(s1, s2, i),
        hands_out(s2, s3, j),
    ensures
        i != j,
{
    assert(s2[i]);
}

/// The occupancy of the fixed pool of sessions: one flag per live session,
/// true while the session is handed out to a user.  The size never changes
/// after construction.
pub struct Pool {
    in_use: Vec<bool>,
}

/// What one full sweep decides: hand out the first free slot found, sweep
/// again if every slot was busy and attempts remain, or give up.
pub enum AcquireDecision {
    UseConnection(usize),
    SweepAgain,
    PoolExhausted,
}

/// One step of the bounded-retry acquisition discipline: `found` is what a
/// full non-blocking sweep over the sessions returned, `sweeps_done` how many
/// full sweeps came back empty before it.
pub fn acquire_step(sweeps_done: u64, found: Option<usize>) -> (r: AcquireDecision)
    requires
        sweeps_done < SWEEP_ATTEMPTS,
    ensures
        match found {
            Some(i) => r == AcquireDecision::UseConnection(i),
            None => if sweeps_done + 1 < SWEEP_ATTEMPTS {
                r == AcquireDecision::SweepAgain
            } else {
                r == AcquireDecision::PoolExhausted
            },
        },
{
    match found {
        Some(i) => AcquireDecision::UseConnection(i),
        None => {
            if sweeps_done + 1 < SWEEP_ATTEMPTS {
                AcquireDecision::SweepAgain
            } else {
                AcquireDecision::PoolExhausted
            }
        },
    }
}

impl Pool {
    /// The occupancy flags, one per session.
    pub closed spec fn slots(self) -> Seq<bool> {
        self.in_use@
    }

    /// A pool of `size` live sessions, all free.
    pub fn with_size(size: usize) -> (r: Pool)
        ensures
            r.slots().len() == size,
            forall|k: int| 0 <= k < size ==> !r.slots()[k],
    {
        let mut in_use: Vec<bool> = Vec::new();
        let mut k: usize = 0;
        while k < size
            invariant
                0 <= k <= size,
                in_use@.len() == k,
                forall|m: int| 0 <= m < k ==> !in_use@[m],
            decreases size - k,
        {
            in_use.push(false);
            k = k + 1;
        }
        Pool { in_use }
    }

    /// How many sessions the pool holds.
    pub fn len(&self) -> (r: usize)
        ensures
            r == self.slots().len(),
    {
        self.in_use.len()
    }

    /// One full non-blocking sweep: hands out the first free session, or
    /// reports that every session is busy and changes nothing.
    pub fn sweep(&mut self) -> (r: Option<usize>)
        ensures
            match r {
                Some(i) => hands_out(old(self).slots(), final(self).slots(), i as int)
                    && (forall|k: int| 0 <= k < i ==> old(self).slots()[k]),
                None => final(self).slots() == old(self).slots() && (forall|k: int|
                    0 <= k < old(self).slots().len() ==> old(self).slots()[k]),
            },
    {
        let n = self.in_use.len();
        let mut k: usize = 0;
        while k < n
            invariant
                0 <= k <= n,
                n == self.in_use@.len(),
                self.in_use@ == old(self).in_use@,
                forall|m: int| 0 <= m < k ==> self.in_use@[m],
            decreases n - k,
        {
            if !self.in_use[k] {
                self.in_use[k] = true;
                proof {
                    assert(self.in_use@ =~= old(self).in_use@.update(k as int, true));
                }
                return Some(k);
            }
            k = k + 1;
        }
        None
    }

    /// Marks a handed-out session free again.
    pub fn release(&mut self, i: usize)
        requires
            i < old(self).slots().len(),
        ensures
            final(self).slots() == old(self).slots().update(i as int, false),
    {
        self.in_use[i] = false;
        proof {
            assert(self.in_use@ =~= old(self).in_use@.update(i as int, false));
        }
    }

    /// Acquires a free session with the bounded-retry discipline, reporting
    /// how many full sweeps ran: a free session is handed out on the first
    /// sweep, and under full contention the acquisition fails with a
    /// pool-exhausted protocol error after exactly `SWEEP_ATTEMPTS` sweeps.
    pub fn acquire_free_counted(&mut self) -> (r: (Result<usize, CustomError>, u64))
        ensures
            match r.0 {
                Ok(i) => hands_out(old(self).slots(), final(self).slots(), i as int) && (
                forall|k: int| 0 <= k < i ==> old(self).slots()[k]) && r.1 == 1,
                Err(e) => final(self).slots() == old(self).slots() && (forall|k: int|
                    0 <= k < old(self).slots().len() ==> old(self).slots()[k]) && r.1
                    == SWEEP_ATTEMPTS && e is Ftp,
            },
    {
        let mut sweeps_done: u64 = 0;
        loop
            invariant
                0 <= sweeps_done <= SWEEP_ATTEMPTS,
                self.in_use@ == old(self).in_use@,
                sweeps_done > 0 ==> forall|k: int|
                    0 <= k < old(self).slots().len() ==> old(self).slots()[k],
            ensures
                sweeps_done == SWEEP_ATTEMPTS,
                self.in_use@ == old(self).in_use@,
                forall|k: int| 0 <= k < old(self).slots().len() ==> old(self).slots()[k],
            decreases SWEEP_ATTEMPTS - sweeps_done,
        {
            if sweeps_done >= SWEEP_ATTEMPTS {
                break;
            }
            let found = self.sweep();
            match acquire_step(sweeps_done, found) {
                AcquireDecision::UseConnection(i) => {
                    proof {
                        if sweeps_done > 0 {
                            assert(old(self).slots()[i as int]);
                        }
                    }
                    return (Ok(i), sweeps_done + 1);
                },
                AcquireDecision::SweepAgain => {
                    sweeps_done = sweeps_done + 1;
                },
                AcquireDecision::PoolExhausted => {
                    sweeps_done = sweeps_done + 1;
                    break;
                },
            }
        }
        (Err(CustomError::Ftp(String::from_str("all connections are busy"))), SWEEP_ATTEMPTS)
    }

    /// Acquires a free session, or fails with a pool-exhausted protocol
    /// error once every session stayed busy for the whole bounded retry.
    pub fn get_free_connection(&mut self) -> (r: Result<usize, CustomError>)
        ensures
            match r {
                Ok(i) => hands_out(old(self).slots(), final(self).slots(), i as int) && (
                forall|k: int| 0 <= k < i ==> old(self).slots()[k]),
                Err(e) => final(self).slots() == old(self).slots() && (forall|k: int|
                    0 <= k < old(self).slots().len() ==> old(self).slots()[k]) && e is Ftp,
            },
    {
        let (r, _attempts) = self.acquire_free_counted();
        r
    }
}

/// The construction loop of the pool, one connection attempt at a time: it
/// keeps attempting until the configured count is reached, except that once
/// at least one session is live, more than `CONN_RETRY_ATTEMPTS` failures
/// make it settle for the sessions it has.
pub struct PoolBuilder {
    pub target: usize,
    pub established: usize,
    pub failures: u64,
}

impl PoolBuilder {
    /// The builder never overshoots its target and needs a target of at
    /// least one session.
    pub open spec fn wf(self) -> bool {
        self.established <= self.target && self.target >= 1
    }

    /// Whether construction is over: the target is reached, or the failure
    /// budget is spent while at least one session is live.
    pub open spec fn done(self) -> bool {
        self.established == self.target || (self.established >= 1 && self.failures
            > CONN_RETRY_ATTEMPTS)
    }

    /// Starts building a pool of `target` sessions.
    pub fn new(target: usize) -> (r: PoolBuilder)
        requires
            target >= 1,
        ensures
            r.wf(),
            r.target == target,
            r.established == 0,
            r.failures == 0,
            !r.done(),
    {
        PoolBuilder { target, established: 0, failures: 0 }
    }

    /// Records the outcome of one connection attempt.
    pub fn step(&mut self, connected: bool)
        requires
            old(self).wf(),
            !old(self).done(),
        ensures
            final(self).wf(),
            final(self).target == old(self).target,
            connected ==> final(self).established == old(self).established + 1
                && final(self).failures == old(self).failures,
            !connected ==> final(self).established == old(self).established
                && final(self).failures == (if old(self).failures <= CONN_RETRY_ATTEMPTS {
                    old(self).failures + 1
                } else {
                    old(self).failures as int
                }),
    {
        if connected {
            self.established = self.established + 1;
        } else {
            if self.failures <= CONN_RETRY_ATTEMPTS {
                self.failures = self.failures + 1;
            }
        }
    }

    /// Whether construction is over.
    pub fn is_done(&self) -> (r: bool)
        ensures
            r == self.done(),
    {
        self.established == self.target || (self.established >= 1 && self.failures
            > CONN_RETRY_ATTEMPTS)
    }

    /// The finished pool: one free slot per live session.
    pub fn into_pool(self) -> (r: Pool)
        requires
            self.wf(),
            self.done(),
        ensures
            r.slots().len() == self.established,
            forall|k: int| 0 <= k < r.slots().len() ==> !r.slots()[k],
            1 <= r.slots().len() <= self.target,
    {
        proof {
            lemma_pool_size_bounds(self);
        }
        Pool::with_size(self.established)
    }
}

/// Pool construction yields between one and the configured number of live
/// sessions: it never finishes empty and never overshoots.
pub proof fn lemma_pool_size_bounds(b: PoolBuilder)
    requires
        b.wf(),
        b.done(),
    ensures
        1 <= b.established <= b.target,
{
}

/// Once one session is live, construction still running means the failure
/// budget is not spent: it stops after at most `CONN_RETRY_ATTEMPTS + 1`
/// failures past the first live session.
pub proof fn lemma_bounded_construction(b: PoolBuilder)
    requires
        b.wf(),
        b.established >= 1,
        !b.done(),
    ensures
        b.failures <= CONN_RETRY_ATTEMPTS,
{
}

/// Every step of construction is one connection attempt, successful or
/// not: once one session is live, a construction still running has made
/// fewer attempts than its target plus the failure budget — it never
/// blocks beyond that bound.
pub proof fn lemma_construction_attempts_bounded(b: PoolBuilder)
    requires
        b.wf(),
        b.established >= 1,
        !b.done(),
    ensures
        b.established + b.failures < b.target + CONN_RETRY_ATTEMPTS,
{
    lemma_bounded_construction(b);
}

} // verus!
