use ipc_lock::{
    key_from_name, path_key, validate_name, ClaimStep, Error, Lock, LockAcquisition, Lookup, Registry,
};

#[test]
fn lock_file_lies_in_temp_dir() {
    assert_eq!(key_from_name(Some("/var/tmp"), "my-app"), "/var/tmp/my-app.lock");
    assert_eq!(key_from_name(Some("/var/tmp/"), "my-app"), "/var/tmp/my-app.lock");
    assert_eq!(key_from_name(None, "my-app"), "/tmp/my-app.lock");
    assert_eq!(key_from_name(Some(""), "my-app"), "my-app.lock");
}

#[test]
fn new_uses_lock_file_path() {
    let lock = Lock::new("x", Some("/run/user")).unwrap();
    assert_eq!(lock.path(), "/run/user/x.lock");
    let state = lock.new_state();
    assert_eq!(state.path(), "/run/user/x.lock");
    assert!(!state.held());
}

#[test]
fn with_path_keeps_path() {
    let lock = Lock::with_path("/srv/app/lockfile");
    assert_eq!(lock.path(), "/srv/app/lockfile");
}

#[test]
fn with_path_of_lock_file_is_same_key() {
    let by_name = Lock::new("same", Some("/tmp")).unwrap();
    let by_path = Lock::with_path(&key_from_name(Some("/tmp"), "same"));
    assert_eq!(by_name.path(), by_path.path());
}

#[test]
fn distinct_names_give_distinct_paths() {
    let a = Lock::new("a", None).unwrap();
    let b = Lock::new("b", None).unwrap();
    assert_ne!(a.path(), b.path());
}

#[test]
fn validate_name_cases() {
    assert!(validate_name("ok").is_ok());
    assert!(matches!(validate_name(""), Err(Error::InvalidName)));
    assert!(matches!(validate_name("x/y"), Err(Error::InvalidName)));
    assert!(validate_name("é-ü").is_ok());
}

#[test]
fn failed_os_acquire_reopens_claim() {
    let lock = Lock::new("fail", None).unwrap();
    let mut state = lock.new_state();
    let claim = lock.try_lock(&mut state).unwrap();
    let r = state.finish_acquire(claim, Err(std::io::Error::from(std::io::ErrorKind::WouldBlock)));
    assert!(matches!(r, Err(Error::WouldBlock)));
    assert!(!state.held());
    let claim = lock.try_lock(&mut state).unwrap();
    let r = state.finish_acquire(claim, Err(std::io::Error::new(std::io::ErrorKind::Other, "boom")));
    assert!(matches!(r, Err(Error::Io(_))));
    assert!(!state.held());
}

#[test]
fn blocking_acquire_fails_only_with_io() {
    let lock = Lock::new("blocking", None).unwrap();
    let mut state = lock.new_state();
    let claim = match lock.lock(&mut state) {
        ClaimStep::Claimed(c) => c,
        ClaimStep::MustWait => panic!("free latch"),
    };
    let r = state.finish_acquire(claim, Err(std::io::Error::from(std::io::ErrorKind::WouldBlock)));
    match r {
        Err(Error::Io(e)) => assert_eq!(e.kind(), std::io::ErrorKind::WouldBlock),
        _ => panic!("a blocking acquire reports the I/O error"),
    }
    assert!(!state.held());
}

#[test]
fn abandoned_acquire_is_reported() {
    let lock = Lock::new("abandoned", None).unwrap();
    let mut state = lock.new_state();
    let claim = lock.try_lock(&mut state).unwrap();
    let g = state.finish_acquire(claim, Ok(LockAcquisition::Abandoned)).unwrap();
    assert!(g.is_abandoned());
    assert!(state.held());
    assert!(matches!(lock.try_lock(&mut state), Err(Error::WouldBlock)));
    state.release(g);
    let claim = lock.try_lock(&mut state).unwrap();
    let g = state.finish_acquire(claim, Ok(LockAcquisition::Normal)).unwrap();
    assert!(!g.is_abandoned());
}

#[test]
fn registry_reuses_live_and_replaces_dead_entries() {
    let mut reg: Registry<u32> = Registry::new();
    let k = String::from("/tmp/k.lock");
    let vacancy = match reg.lookup(k.clone(), |_| None::<u32>) {
        Lookup::Vacant(v) => v,
        Lookup::Live(_) => panic!("empty table"),
    };
    assert_eq!(vacancy.key_str(), "/tmp/k.lock");
    reg.register(vacancy, &1, |s| *s);
    assert_eq!(reg.get(&k), Some(&1));
    // A live entry is reused: no vacancy, so nothing is opened.
    assert!(matches!(reg.lookup(k.clone(), |w| Some(*w)), Lookup::Live(1)));
    // A dead entry gives a vacancy, and a fresh state replaces it.
    match reg.lookup(k.clone(), |_| None::<u32>) {
        Lookup::Vacant(v) => reg.register(v, &2, |s| *s),
        Lookup::Live(_) => panic!("dead entry"),
    }
    assert_eq!(reg.get(&k), Some(&2));
    // Other keys are untouched.
    assert_eq!(reg.get(&String::from("/tmp/other.lock")), None);
}

#[test]
fn path_keys_follow_components() {
    assert_eq!(path_key("/tmp/x.lock"), "/tmp/x.lock");
    assert_eq!(path_key("/tmp//x.lock"), "/tmp/x.lock");
    assert_eq!(path_key("/tmp/./x.lock/"), "/tmp/x.lock");
    assert_eq!(path_key("./a/b"), "./a/b");
    assert_eq!(path_key("."), ".");
    assert_eq!(path_key("./"), ".");
    assert_eq!(path_key("a/./b//"), "a/b");
    assert_eq!(path_key("../a"), "../a");
    assert_eq!(path_key(""), "");
    assert_eq!(path_key("//"), "/");
    assert_eq!(path_key(".a"), ".a");
}

#[test]
fn clone_keeps_the_path() {
    let a = Lock::new("cloned", Some("/tmp")).unwrap();
    let b = a.clone();
    assert_eq!(a.path(), b.path());
    assert_eq!(a.registry_key(), b.registry_key());
}

#[test]
fn claims_and_guards_carry_their_state() {
    let lock = Lock::with_path("/tmp//carry.lock");
    let mut state = lock.new_state();
    assert_eq!(state.path(), "/tmp/carry.lock");
    let claim = lock.try_lock(&mut state).unwrap();
    assert_eq!(claim.path(), state.path());
    let guard = state.finish_acquire(claim, Ok(LockAcquisition::Normal)).unwrap();
    assert_eq!(guard.path(), state.path());
    state.release(guard);
    assert!(!state.held());
}

#[test]
fn from_os_failure_maps_kind() {
    let e = Error::from_os_failure(std::io::Error::new(std::io::ErrorKind::Other, "x"), true);
    assert!(matches!(e, Error::WouldBlock));
    let e = Error::from_os_failure(std::io::Error::new(std::io::ErrorKind::Other, "x"), false);
    assert!(matches!(e, Error::Io(_)));
    let e: Error = std::io::Error::new(std::io::ErrorKind::Other, "y").into();
    assert!(matches!(e, Error::Io(_)));
}

#[test]
fn from_os_error_tells_would_block_apart() {
    let e = Error::from_os_error(std::io::Error::from(std::io::ErrorKind::WouldBlock));
    assert!(matches!(e, Error::WouldBlock));
    let e = Error::from_os_error(std::io::Error::from(std::io::ErrorKind::PermissionDenied));
    match e {
        Error::Io(inner) => assert_eq!(inner.kind(), std::io::ErrorKind::PermissionDenied),
        _ => panic!("expected an I/O error"),
    }
}
