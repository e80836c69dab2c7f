use ipc_lock::{ClaimStep, Error, Lock, LockAcquisition, LockGuard, LockState, Lookup, Registry};

/// One process's view of its named locks: the registry, which maps each key
/// to the index of its shared state, and the states themselves.
struct Process {
    registry: Registry<usize>,
    states: Vec<LockState>,
}

impl Process {
    fn new() -> Self {
        Process { registry: Registry::new(), states: Vec::new() }
    }

    /// Opens a handle for `name`.
    fn open(&mut self, name: &str) -> Result<Lock, Error> {
        let lock = Lock::new(name, Some("/tmp"))?;
        self.attach(&lock)?;
        Ok(lock)
    }

    /// Registers the shared state for the handle's key, or finds it.
    fn attach(&mut self, lock: &Lock) -> Result<usize, Error> {
        match self.registry.lookup(lock.registry_key(), |i| Some(*i)) {
            Lookup::Live(index) => Ok(index),
            Lookup::Vacant(vacancy) => {
                let index = self.states.len();
                self.states.push(lock.new_state());
                self.registry.register(vacancy, &index, |i| *i);
                Ok(index)
            }
        }
    }

    /// The shared state that a handle reaches.
    fn state(&self, lock: &Lock) -> usize {
        *self.registry.get(&lock.registry_key()).expect("registered")
    }

    /// A non-blocking acquire whose OS-level lock is granted.
    fn try_lock(&mut self, lock: &Lock) -> Result<LockGuard, Error> {
        let index = self.state(lock);
        let state = &mut self.states[index];
        let claim = lock.try_lock(state)?;
        state.finish_acquire(claim, Ok(LockAcquisition::Normal))
    }

    /// A blocking acquire whose OS-level lock is granted; `None` where the
    /// caller would have to wait.
    fn lock(&mut self, lock: &Lock) -> Option<Result<LockGuard, Error>> {
        let index = self.state(lock);
        let state = &mut self.states[index];
        match lock.lock(state) {
            ClaimStep::Claimed(claim) => {
                Some(state.finish_acquire(claim, Ok(LockAcquisition::Normal)))
            },
            ClaimStep::MustWait => None,
        }
    }

    /// Drops a guard: the OS-level lock is released, then the latch.
    fn release(&mut self, lock: &Lock, guard: LockGuard) {
        let index = self.state(lock);
        self.states[index].release(guard);
    }
}

fn would_block<T>(r: &Result<T, Error>) -> bool {
    matches!(r, Err(Error::WouldBlock))
}

#[test]
fn shared_state() -> Result<(), Error> {
    let mut p = Process::new();
    let name = "shared-state";
    let a = p.open(name)?;
    let b = p.open(name)?;

    {
        let g = p.try_lock(&a)?;
        assert!(would_block(&p.try_lock(&a)));
        assert!(would_block(&p.try_lock(&b)));
        p.release(&a, g);
    }
    let _g = p.try_lock(&b)?;
    Ok(())
}

#[test]
fn clone_shares_state() -> Result<(), Error> {
    let mut p = Process::new();
    let original = p.open("clone-shares-state")?;
    let cloned = original.clone();

    let guard = p.try_lock(&original)?;
    assert!(would_block(&p.try_lock(&cloned)));
    p.release(&original, guard);
    let _g = p.try_lock(&cloned)?;
    Ok(())
}

#[test]
fn guard_outlives_lock() -> Result<(), Error> {
    let mut p = Process::new();
    let name = "guard-outlives-lock";
    let a = p.open(name)?;
    let b = p.open(name)?;

    let guard = p.try_lock(&a)?;
    assert!(would_block(&p.try_lock(&b)));

    drop(a); // drop the handle — NOT the guard
    assert!(
        would_block(&p.try_lock(&b)),
        "lock should still be held after Lock handle is dropped"
    );

    p.release(&b, guard);
    let _g = p.try_lock(&b)?;
    Ok(())
}

#[test]
fn try_lock_succeeds_when_free() -> Result<(), Error> {
    let mut p = Process::new();
    let lock = p.open("try-lock-succeeds-when-free")?;
    let _guard = p.try_lock(&lock)?;
    Ok(())
}

#[test]
fn distinct_names_are_independent() -> Result<(), Error> {
    let mut p = Process::new();
    let a = p.open("distinct-a")?;
    let b = p.open("distinct-b")?;
    assert_ne!(p.state(&a), p.state(&b));

    let _guard_a = p.lock(&a).expect("should not wait")?;
    let _guard_b = p.lock(&b).expect("should not wait, different OS keys")?;
    Ok(())
}

#[test]
fn try_lock_fails_while_held_by_same_thread() -> Result<(), Error> {
    let mut p = Process::new();
    let lock = p.open("same-thread")?;

    let _guard = p.lock(&lock).expect("free lock")?;
    assert!(
        would_block(&p.try_lock(&lock)),
        "same-thread re-entry should be rejected"
    );
    Ok(())
}

#[test]
fn lock_waits_while_held_and_proceeds_after_release() -> Result<(), Error> {
    let mut p = Process::new();
    let lock = p.open("waits")?;
    let guard = p.lock(&lock).expect("free lock")?;
    assert!(p.lock(&lock).is_none(), "a second blocking acquire must wait");
    p.release(&lock, guard);
    assert!(p.lock(&lock).is_some(), "after the release the waiter proceeds");
    Ok(())
}

#[test]
fn invalid_names() {
    for bad in ["", "a/b", "a\\b", "a\0b"] {
        assert!(
            matches!(Lock::new(bad, None), Err(Error::InvalidName)),
            "expected InvalidName for {bad:?}"
        );
    }
}

#[test]
fn valid_names() -> Result<(), Error> {
    let mut p = Process::new();
    for good in ["my app", "my-app", "my_app", "my.app", "123"] {
        let lock = p.open(good)?;
        let _guard = p.try_lock(&lock)?;
    }
    Ok(())
}

#[test]
fn error_display() {
    assert_eq!(
        Error::InvalidName.to_string(),
        "invalid lock name: must be non-empty and contain no '\\0', '/', or '\\'"
    );
    assert_eq!(
        Error::WouldBlock.to_string(),
        "lock is currently held by another thread or process"
    );
    assert!(
        Error::Io(std::io::Error::new(std::io::ErrorKind::Other, "boom"))
            .to_string()
            .contains("I/O error"),
        "Io error should mention I/O"
    );
}

#[test]
fn error_source() {
    let io_err = std::io::Error::new(std::io::ErrorKind::Other, "boom");
    let err = Error::Io(io_err);
    assert!(err.source().is_some(), "Io error should have a source");
    assert!(Error::InvalidName.source().is_none());
    assert!(Error::WouldBlock.source().is_none());
}

fn assert_send_sync<T: Send + Sync>() {}
fn assert_clone_debug<T: Clone + std::fmt::Debug>() {}

#[test]
fn trait_bounds() {
    assert_send_sync::<Lock>();
    assert_send_sync::<LockGuard>();
    assert_clone_debug::<Lock>();
}

#[test]
fn with_path_handles_share_state() -> Result<(), Error> {
    let mut p = Process::new();
    let path = "/tmp/ipc-lock-test-with-path";
    let a = Lock::with_path(path);
    let b = Lock::with_path(path);
    p.attach(&a)?;
    p.attach(&b)?;
    assert_eq!(p.states[p.state(&a)].path(), path);

    let _guard = p.try_lock(&a)?;
    assert!(
        would_block(&p.try_lock(&b)),
        "two handles for the same path should share state"
    );
    Ok(())
}

#[test]
fn paths_with_same_components_share_state() -> Result<(), Error> {
    let mut p = Process::new();
    let a = Lock::with_path("/tmp//ipc-lock-same/./x.lock");
    let b = Lock::with_path("/tmp/ipc-lock-same/x.lock/");
    p.attach(&a)?;
    p.attach(&b)?;
    assert_eq!(p.state(&a), p.state(&b));
    let _guard = p.try_lock(&a)?;
    assert!(would_block(&p.try_lock(&b)));
    Ok(())
}
