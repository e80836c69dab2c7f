use vstd::prelude::*;

use crate::error::{os_failure_error, Error};
use crate::name::{
    components_key, is_valid_name, key_from_name, lock_file_path, path_key, temp_dir_view,
    validate_name,
};

verus! {

/// How the OS-level lock was obtained.
///
/// A named mutex may be abandoned when its previous owner terminated without
/// releasing it; a file lock never is.
#[derive(Debug, Clone, Copy, PartialEq, Eq, Structural)]
pub enum LockAcquisition {
    /// Acquired normally.
    Normal,
    /// Acquired from an owner that terminated without releasing it.
    Abandoned,
}

/// Permission to take the OS-level lock, granted by a claim of the free
/// thread latch of one state (whose key it carries). Only [`Lock::lock`] and
/// [`Lock::try_lock`] make one, and [`LockState::finish_acquire`] of the same
/// state consumes it, so every guard comes from exactly one granted claim.
pub struct Claim {
    key: String,
    blocking: bool,
}

impl Claim {
    /// The key of the state whose latch was claimed.
    pub closed spec fn key(&self) -> Seq<char> {
        self.key@
    }

    /// The key of the state whose latch was claimed.
    pub fn path(&self) -> (p: &str)
        ensures
            p@ == self.key(),
    {
        self.key.as_str()
    }

    /// Whether the claim was made by a blocking acquire.
    pub closed spec fn is_blocking(&self) -> bool {
        self.blocking
    }
}

/// What the blocking step of the thread latch decided.
pub enum ClaimStep {
    /// The latch was free and is now claimed: go on to the OS-level lock.
    Claimed(Claim),
    /// The latch is held: wait for a release, then step again.
    MustWait,
}

/// Whether a claim of the thread latch is granted: exactly when the latch is
/// free. A blocking claim that is not granted waits; a non-blocking one fails.
pub open spec fn claim_granted(held: bool) -> bool {
    !held
}

/// The latch once the OS-level acquire has answered: kept when the OS lock was
/// obtained, released when it was not.
pub open spec fn settle_claim(held: bool, os_acquired: bool) -> bool {
    if os_acquired {
        held
    } else {
        false
    }
}

/// The error of an acquire whose OS-level lock failed with `e`: a blocking
/// acquire reports the I/O error; a non-blocking one reports `WouldBlock`
/// when the OS said the lock is held elsewhere.
pub open spec fn acquire_error(blocking: bool, e: std::io::Error) -> Error {
    if blocking {
        Error::Io(e)
    } else {
        os_failure_error(e)
    }
}

/// A handle for a named lock: the path of its lock file. Clones, and every
/// handle whose path has the same components, reach the same [`LockState`]
/// through the process's registry.
#[derive(Debug)]
pub struct Lock {
    key: String,
}

impl Clone for Lock {
    /// Another handle for the same lock file.
    fn clone(&self) -> (r: Self)
        ensures
            r.key() == self.key(),
    {
        Lock { key: self.key.clone() }
    }
}

/// The state that one process keeps for one named lock, shared by all of its
/// handles: the registry key of its lock file (its path components) and the
/// thread latch, which is held while a claim or a guard for this lock exists
/// in the process.
///
/// The OS-level lock keeps other processes out, the latch keeps other threads
/// out. The methods are the decisions of an acquire and of a release; the
/// caller makes the OS calls and the waits between them.
#[derive(Debug)]
pub struct LockState {
    key: String,
    held: bool,
}

/// Proof that an acquire on one state (whose key it carries) succeeded;
/// given back to [`LockState::release`] of that state.
#[derive(Debug)]
pub struct LockGuard {
    key: String,
    abandoned: bool,
}

impl LockGuard {
    /// The key of the state that the guard holds.
    pub closed spec fn key(&self) -> Seq<char> {
        self.key@
    }

    /// The key of the state that the guard holds.
    pub fn path(&self) -> (p: &str)
        ensures
            p@ == self.key(),
    {
        self.key.as_str()
    }

    /// Whether the OS-level lock was taken over from an abandoned owner.
    pub closed spec fn abandoned(&self) -> bool {
        self.abandoned
    }

    /// Whether the OS-level lock was taken over from an owner that terminated
    /// without releasing it.
    pub fn is_abandoned(&self) -> (r: bool)
        ensures
            r == self.abandoned(),
    {
        self.abandoned
    }
}

impl Lock {
    /// The lock file's path.
    pub closed spec fn key(&self) -> Seq<char> {
        self.key@
    }

    /// A handle for the named lock `name`, whose lock file lies in the temp
    /// dir (`temp_dir`, the value of `TMPDIR`, or `/tmp` when it is unset).
    ///
    /// Fails with `InvalidName` exactly when the name is empty or holds `\0`,
    /// `/` or `\`.
    pub fn new(name: &str, temp_dir: Option<&str>) -> (r: Result<Lock, Error>)
        ensures
            r is Ok <==> is_valid_name(name@),
            r is Err ==> r == Err::<Lock, Error>(Error::InvalidName),
            r matches Ok(l) ==> l.key() == lock_file_path(temp_dir_view(temp_dir), name@),
            name@.len() > 0 && (forall|i: int|
                0 <= i < name@.len() ==> #[trigger] name@[i] != '\0' && name@[i] != '/'
                    && name@[i] != '\\') ==> r is Ok,
            (exists|i: int|
                0 <= i < name@.len() && (#[trigger] name@[i] == '\0' || name@[i] == '/'
                    || name@[i] == '\\')) ==> r == Err::<Lock, Error>(Error::InvalidName),
    {
        match validate_name(name) {
            Ok(()) => Ok(Lock { key: key_from_name(temp_dir, name) }),
            Err(e) => Err(e),
        }
    }

    /// A handle for a lock at an explicit path: no `.lock` suffix, no temp dir.
    pub fn with_path(path: &str) -> (l: Lock)
        ensures
            l.key() == path@,
    {
        Lock { key: String::from_str(path) }
    }

    /// The key of the lock: the path of its lock file.
    pub fn path(&self) -> (p: &str)
        ensures
            p@ == self.key(),
    {
        self.key.as_str()
    }

    /// The registry key of this handle's lock file: its path components.
    pub fn registry_key(&self) -> (k: String)
        ensures
            k@ == components_key(self.key()),
    {
        path_key(self.key.as_str())
    }

    /// A fresh shared state for this handle's lock file, with the latch free.
    pub fn new_state(&self) -> (s: LockState)
        ensures
            s.key() == components_key(self.key()),
            !s.is_held(),
    {
        LockState { key: self.registry_key(), held: false }
    }

    /// The blocking latch step on this lock's shared state: claims the latch
    /// when it is free, and otherwise asks the caller to wait for a release.
    pub fn lock(&self, state: &mut LockState) -> (step: ClaimStep)
        requires
            old(state).key() == components_key(self.key()),
        ensures
            step is Claimed <==> claim_granted(old(state).is_held()),
            step matches ClaimStep::Claimed(c) ==> c.is_blocking() && c.key() == old(state).key(),
            final(state).is_held(),
            final(state).key() == old(state).key(),
    {
        if state.held {
            ClaimStep::MustWait
        } else {
            state.held = true;
            ClaimStep::Claimed(Claim { key: state.key.clone(), blocking: true })
        }
    }

    /// The non-blocking latch step on this lock's shared state: claims the
    /// latch when it is free, and otherwise fails with `WouldBlock`, leaving
    /// the latch as it was.
    pub fn try_lock(&self, state: &mut LockState) -> (r: Result<Claim, Error>)
        requires
            old(state).key() == components_key(self.key()),
        ensures
            r is Ok <==> claim_granted(old(state).is_held()),
            r matches Ok(c) ==> !c.is_blocking() && c.key() == old(state).key(),
            r is Err ==> r == Err::<Claim, Error>(Error::WouldBlock),
            final(state).is_held(),
            final(state).key() == old(state).key(),
    {
        if state.held {
            Err(Error::WouldBlock)
        } else {
            state.held = true;
            Ok(Claim { key: state.key.clone(), blocking: false })
        }
    }
}

impl LockState {
    /// The lock file's path.
    pub closed spec fn key(&self) -> Seq<char> {
        self.key@
    }

    /// Whether the thread latch is held.
    pub closed spec fn is_held(&self) -> bool {
        self.held
    }

    /// The key of the lock: the path of its lock file.
    pub fn path(&self) -> (p: &str)
        ensures
            p@ == self.key(),
    {
        self.key.as_str()
    }

    /// Whether a claim or a guard for this lock exists in the process.
    pub fn held(&self) -> (r: bool)
        ensures
            r == self.is_held(),
    {
        self.held
    }

    /// Settles a granted claim with the answer of the OS-level acquire.
    ///
    /// When the OS lock was obtained the acquire succeeds and the latch stays
    /// held. Otherwise the latch is released (the caller wakes one waiter);
    /// a blocking acquire then fails with the I/O error, a non-blocking one
    /// with `WouldBlock` when the OS reported the lock as held elsewhere and
    /// with the I/O error otherwise.
    pub fn finish_acquire(
        &mut self,
        claim: Claim,
        outcome: Result<LockAcquisition, std::io::Error>,
    ) -> (r: Result<LockGuard, Error>)
        requires
            old(self).is_held(),
            claim.key() == old(self).key(),
        ensures
            final(self).is_held() == settle_claim(old(self).is_held(), outcome is Ok),
            final(self).key() == old(self).key(),
            outcome matches Ok(a) ==> r matches Ok(g) && g.abandoned() == (a
                == LockAcquisition::Abandoned) && g.key() == old(self).key(),
            outcome matches Err(e) ==> r == Err::<LockGuard, Error>(
                acquire_error(claim.is_blocking(), e),
            ),
    {
        match outcome {
            Ok(acquisition) => {
                let abandoned = match acquisition {
                    LockAcquisition::Normal => false,
                    LockAcquisition::Abandoned => true,
                };
                Ok(LockGuard { key: claim.key, abandoned })
            },
            Err(e) => {
                self.held = false;
                if claim.blocking {
                    Err(Error::Io(e))
                } else {
                    Err(Error::from_os_error(e))
                }
            },
        }
    }

    /// Takes back a guard once its OS-level lock has been released, and frees
    /// the latch; the caller wakes one waiter.
    pub fn release(&mut self, guard: LockGuard)
        requires
            old(self).is_held(),
            guard.key() == old(self).key(),
        ensures
            !final(self).is_held(),
            final(self).key() == old(self).key(),
    {
        self.held = false;
    }
}

/// An event on one state's thread latch: a claim (blocking or not), the
/// settlement of a granted claim by the OS-level acquire, or the release of a
/// guard.
pub enum LatchEvent {
    Claim,
    Acquired,
    Failed,
    Release,
}

/// A state's latch together with the claims and guards outstanding for it.
pub struct LatchModel {
    pub held: bool,
    pub claims: nat,
    pub guards: nat,
}

/// Whether an event can happen: a claim always can (it is granted or not);
/// settling needs a claim of this state and a held latch, as
/// [`LockState::finish_acquire`] requires; a release needs a guard of this
/// state and a held latch, as [`LockState::release`] requires.
pub open spec fn latch_allows(m: LatchModel, e: LatchEvent) -> bool {
    match e {
        LatchEvent::Claim => true,
        LatchEvent::Acquired | LatchEvent::Failed => m.held && m.claims > 0,
        LatchEvent::Release => m.held && m.guards > 0,
    }
}

/// What an event does, as the contracts of [`Lock::lock`], [`Lock::try_lock`],
/// [`LockState::finish_acquire`] and [`LockState::release`] state it.
pub open spec fn latch_step(m: LatchModel, e: LatchEvent) -> LatchModel {
    match e {
        LatchEvent::Claim => if claim_granted(m.held) {
            LatchModel { held: true, claims: m.claims + 1, guards: m.guards }
        } else {
            m
        },
        LatchEvent::Acquired => LatchModel {
            held: settle_claim(m.held, true),
            claims: (m.claims - 1) as nat,
            guards: m.guards + 1,
        },
        LatchEvent::Failed => LatchModel {
            held: settle_claim(m.held, false),
            claims: (m.claims - 1) as nat,
            guards: m.guards,
        },
        LatchEvent::Release => LatchModel {
            held: false,
            claims: m.claims,
            guards: (m.guards - 1) as nat,
        },
    }
}

/// The latch after a run of events from a fresh state, or `None` when some
/// event could not happen.
pub open spec fn latch_run(events: Seq<LatchEvent>) -> Option<LatchModel>
    decreases events.len(),
{
    if events.len() == 0 {
        Some(LatchModel { held: false, claims: 0, guards: 0 })
    } else {
        match latch_run(events.drop_last()) {
            Some(m) => if latch_allows(m, events.last()) {
                Some(latch_step(m, events.last()))
            } else {
                None
            },
            None => None,
        }
    }
}

/// The lock is mutually exclusive and not re-entrant: whatever the events on
/// one state, at most one claim or guard for it is outstanding, and the latch
/// is held exactly while one is. So a second claim is refused (or waits)
/// until the guard is released or the acquire has failed, and at most one
/// guard per state exists at a time.
pub proof fn lemma_one_holder_at_a_time(events: Seq<LatchEvent>)
    ensures
        latch_run(events) matches Some(m) ==> m.claims + m.guards <= 1 && (m.held <==> m.claims
            + m.guards == 1),
    decreases events.len(),
{
    if events.len() > 0 {
        lemma_one_holder_at_a_time(events.drop_last());
    }
}

/// Once a guard is released, or an OS-level acquire has failed, the latch is
/// free and the next claim, blocking or not, is granted: waiting threads can
/// proceed and nothing stays locked by a failure.
pub proof fn lemma_release_and_failure_reopen(held: bool)
    ensures
        claim_granted(false),
        claim_granted(settle_claim(held, false)),
{
}

/// A blocking acquire never fails with `WouldBlock` or `InvalidName`: a held
/// latch makes it wait, and a failed OS-level lock is reported as I/O.
pub proof fn lemma_blocking_fails_only_with_io(e: std::io::Error)
    ensures
        acquire_error(true, e) == Error::Io(e),
        !(acquire_error(true, e) is WouldBlock),
{
}

/// A non-blocking acquire fails only with `WouldBlock` or with the I/O error
/// that the OS reported.
pub proof fn lemma_non_blocking_errors(e: std::io::Error)
    ensures
        acquire_error(false, e) is WouldBlock || acquire_error(false, e) == Error::Io(e),
{
}

} // verus!
