use vstd::prelude::*;

use crate::lock::LockAcquisition;

verus! {

/// The name of the kernel mutex that backs the named lock `name` on Windows:
/// `Global\<name>`, visible across all sessions of the machine.
pub open spec fn mutex_name_spec(name: Seq<char>) -> Seq<char> {
    "Global\\"@ + name
}

/// The name of the kernel mutex for the named lock `name`.
pub fn mutex_name(name: &str) -> (r: String)
    ensures
        r@ == mutex_name_spec(name@),
        r@ == "Global\\"@ + name@,
        r@.len() == name@.len() + 7,
        r@.subrange(7, r@.len() as int) == name@,
{
    proof {
        reveal_strlit("Global\\");
    }
    let r = String::from_str("Global\\").concat(name);
    assert(r@.subrange(7, r@.len() as int) =~= name@);
    r
}

/// The mutex name is the literal prefix followed by the whole lock name, so
/// distinct lock names never share a kernel mutex.
pub proof fn lemma_mutex_names_distinct(a: Seq<char>, b: Seq<char>)
    ensures
        mutex_name_spec(a) == "Global\\"@ + a,
        mutex_name_spec(a).len() == a.len() + 7,
        mutex_name_spec(a).subrange(7, mutex_name_spec(a).len() as int) == a,
        a != b ==> mutex_name_spec(a) != mutex_name_spec(b),
{
    reveal_strlit("Global\\");
    let p = "Global\\"@;
    assert((p + a).subrange(7, (p + a).len() as int) =~= a);
    assert((p + b).subrange(7, (p + b).len() as int) =~= b);
}

/// What a wait on the named mutex answered.
#[derive(Debug, Clone, Copy, PartialEq, Eq, Structural)]
pub enum WaitResult {
    /// The mutex was signaled: it is now owned.
    Signaled,
    /// The previous owner terminated without releasing it: it is now owned.
    Abandoned,
    /// The timeout elapsed: another owner holds it.
    TimedOut,
    /// The wait failed.
    Failed,
}

/// Why an acquire of the named mutex failed.
#[derive(Debug, Clone, Copy, PartialEq, Eq, Structural)]
pub enum WaitFailure {
    /// A non-blocking acquire found the mutex held (an I/O error of kind
    /// `WouldBlock`).
    WouldBlock,
    /// The wait failed; the cause is the last OS error.
    LastOsError,
}

/// The outcome of an acquire of the named mutex from the wait's answer.
pub open spec fn wait_outcome_spec(r: WaitResult, blocking: bool) -> Result<
    LockAcquisition,
    WaitFailure,
> {
    match r {
        WaitResult::Signaled => Ok(LockAcquisition::Normal),
        WaitResult::Abandoned => Ok(LockAcquisition::Abandoned),
        WaitResult::TimedOut => if blocking {
            Err(WaitFailure::LastOsError)
        } else {
            Err(WaitFailure::WouldBlock)
        },
        WaitResult::Failed => Err(WaitFailure::LastOsError),
    }
}

/// Decides an acquire of the named mutex: owned (normally or from an
/// abandoned owner), held elsewhere (only a non-blocking wait times out), or
/// failed.
pub fn wait_outcome(r: WaitResult, blocking: bool) -> (o: Result<LockAcquisition, WaitFailure>)
    ensures
        o == wait_outcome_spec(r, blocking),
{
    match r {
        WaitResult::Signaled => Ok(LockAcquisition::Normal),
        WaitResult::Abandoned => Ok(LockAcquisition::Abandoned),
        WaitResult::TimedOut => if blocking {
            Err(WaitFailure::LastOsError)
        } else {
            Err(WaitFailure::WouldBlock)
        },
        WaitResult::Failed => Err(WaitFailure::LastOsError),
    }
}

/// An abandoned mutex is still acquired, by either kind of wait: the next
/// waiter succeeds and learns that the owner died.
pub proof fn lemma_abandoned_is_acquired(blocking: bool)
    ensures
        wait_outcome_spec(WaitResult::Abandoned, blocking) == Ok::<LockAcquisition, WaitFailure>(
            LockAcquisition::Abandoned,
        ),
{
}

/// Only a non-blocking wait reports the mutex as held elsewhere.
pub proof fn lemma_would_block_only_without_blocking(r: WaitResult)
    ensures
        wait_outcome_spec(r, true) != Err::<LockAcquisition, WaitFailure>(WaitFailure::WouldBlock),
{
}

} // verus!
