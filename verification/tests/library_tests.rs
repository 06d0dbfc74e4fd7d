use dynffi::error::FfiError;
use dynffi::library::ExternalLibs;

const LIBC_PATH: &str = "/lib/x86_64-linux-gnu/libc.so.6";
const LIBM_PATH: &str = "/lib/x86_64-linux-gnu/libm.so.6";

#[test]
fn opening_the_same_path_twice_yields_the_same_handle() {
    let mut cache = ExternalLibs::new();
    let path = String::from(LIBC_PATH);
    let first = cache.open(&path).unwrap();
    let second = cache.open(&path).unwrap();
    assert_eq!(first, second);
    assert_eq!(cache.get_lib(first).unwrap().get_pointer(), first);
}

#[test]
fn reopening_after_close_yields_a_fresh_handle() {
    let mut cache = ExternalLibs::new();
    let path = String::from(LIBC_PATH);
    let first = cache.open(&path).unwrap();
    assert!(cache.is_open(first));
    cache.close(first);
    assert!(!cache.is_open(first));
    let second = cache.open(&path).unwrap();
    assert_ne!(first, second);
    assert!(cache.is_open(second));
}

#[test]
fn distinct_paths_get_distinct_handles() {
    let mut cache = ExternalLibs::new();
    let libc = cache.open(&String::from(LIBC_PATH)).unwrap();
    let libm = cache.open(&String::from(LIBM_PATH)).unwrap();
    assert_ne!(libc, libm);
    // neither open disturbs the other's entry
    assert_eq!(cache.open(&String::from(LIBC_PATH)).unwrap(), libc);
    assert_eq!(cache.open(&String::from(LIBM_PATH)).unwrap(), libm);
}

#[test]
fn opening_a_missing_library_is_a_load_error_naming_the_path() {
    let mut cache = ExternalLibs::new();
    let path = String::from("/definitely/not/a/real/library.so");
    match cache.open(&path) {
        Err(FfiError::LoadError { path: p, message }) => {
            assert_eq!(p, path);
            assert!(!message.is_empty());
        }
        other => panic!("expected LoadError, got {other:?}"),
    }
    // a failed open leaves no cache entry behind
    assert!(cache.open(&path).is_err());
}

#[test]
fn closing_is_idempotent_and_unknown_handles_are_a_no_op() {
    let mut cache = ExternalLibs::new();
    let id = cache.open(&String::from(LIBC_PATH)).unwrap();
    cache.close(id);
    cache.close(id);
    cache.close(4242);
    assert!(!cache.is_open(id));
}

#[test]
fn closed_entries_keep_their_identity_and_path() {
    let mut cache = ExternalLibs::new();
    let id = cache.open(&String::from(LIBC_PATH)).unwrap();
    cache.close(id);
    let entry = cache.get_lib(id).unwrap();
    assert!(entry.is_closed());
    assert_eq!(entry.path_name().as_str(), LIBC_PATH);
    assert_eq!(entry.get_pointer(), id);
}
