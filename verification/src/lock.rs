//! What to do with a lock that a panicking holder has left poisoned.
use vstd::prelude::*;

verus! {

/// How an attempt to take a lock ended. Either way the guard has been handed out; `Poisoned`
/// says that an earlier holder panicked while it held the lock.
pub enum LockOutcome<G> {
    Acquired(G),
    Poisoned(G),
}

impl<G> LockOutcome<G> {
    /// The guard that came with the outcome.
    pub open spec fn guard(self) -> G {
        match self {
            LockOutcome::Acquired(guard) => guard,
            LockOutcome::Poisoned(guard) => guard,
        }
    }
}

/// The guard held by everything that retains the primary context.
///
/// A poisoned lock is recovered rather than propagated: the guard protects nothing but
/// bookkeeping, and refusing to hand it out after one failure would turn that one failure into
/// every later user failing as well.
pub fn primary_context_guard<G>(outcome: LockOutcome<G>) -> (guard: G)
    ensures
        guard == outcome.guard(),
{
    match outcome {
        LockOutcome::Acquired(guard) => guard,
        LockOutcome::Poisoned(guard) => guard,
    }
}

/// The guard that is given is the one that came with the lock, poisoned or not.
pub proof fn guard_is_recovered<G>(came: G, acquired: G, recovered: G)
    requires
        call_ensures(primary_context_guard::<G>, (LockOutcome::Acquired(came),), acquired),
        call_ensures(primary_context_guard::<G>, (LockOutcome::Poisoned(came),), recovered),
    ensures
        acquired == came,
        recovered == came,
{
}

} // verus!
