use vstd::prelude::*;

verus! {

// The health controller's periodic sweep runs outside the library: each
// tick it tries a non-blocking acquisition of every session and probes the
// ones it got.  What it does with each outcome is decided here.

/// What the health sweep does with one session.
#[derive(Debug, Clone, Copy, PartialEq, Eq, Structural)]
pub enum HealthAction {
    SkipBusy,
    Healthy,
    Reconnect,
}

/// The action for one probe outcome: a session that could not be acquired
/// is skipped this tick, a session that answered the probe is left alone,
/// a session that failed it is reconnected in place.
pub open spec fn health_action_of(probe: Option<bool>) -> HealthAction {
    match probe {
        None => HealthAction::SkipBusy,
        Some(true) => HealthAction::Healthy,
        Some(false) => HealthAction::Reconnect,
    }
}

/// Decides what to do with one session: `None` means its lock was not
/// free, `Some(ok)` the result of its liveness probe.
pub fn health_action(probe: Option<bool>) -> (r: HealthAction)
    ensures
        r == health_action_of(probe),
{
    match probe {
        None => HealthAction::SkipBusy,
        Some(true) => HealthAction::Healthy,
        Some(false) => HealthAction::Reconnect,
    }
}

/// Decides one whole health sweep: the action for every session of the
/// pool, from what its non-blocking acquisition and probe returned.
pub fn plan_health_sweep(probes: &Vec<Option<bool>>) -> (r: Vec<HealthAction>)
    ensures
        r@.len() == probes@.len(),
        forall|i: int| 0 <= i < probes@.len() ==> r@[i] == health_action_of(#[trigger] probes@[i]),
{
    let n = probes.len();
    let mut r: Vec<HealthAction> = Vec::new();
    let mut i: usize = 0;
    while i < n
        invariant
            0 <= i <= n,
            n == probes@.len(),
            r@.len() == i,
            forall|k: int| 0 <= k < i ==> r@[k] == health_action_of(#[trigger] probes@[k]),
        decreases n - i,
    {
        r.push(health_action(probes[i]));
        i = i + 1;
    }
    r
}

} // verus!
