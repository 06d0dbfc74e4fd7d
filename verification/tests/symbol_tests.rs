use dynffi::error::FfiError;
use dynffi::library::ExternalLibs;
use dynffi::symbol::{record_lookup, resolve_begin, ResolveStep, SymbolResolver};

const LIBC_PATH: &str = "/lib/x86_64-linux-gnu/libc.so.6";

#[test]
fn memo_answers_after_one_record() {
    let mut syms = SymbolResolver::new();
    let name = String::from("strlen");
    assert_eq!(syms.cached(1, &name), None);
    syms.record(1, &name, 0x1234);
    assert_eq!(syms.cached(1, &name), Some(0x1234));
    // other pairs are untouched
    assert_eq!(syms.cached(1, &String::from("strcpy")), None);
    assert_eq!(syms.cached(2, &name), None);
}

#[test]
fn invalidating_a_library_drops_only_its_entries() {
    let mut syms = SymbolResolver::new();
    syms.record(1, &String::from("strlen"), 10);
    syms.record(1, &String::from("strcpy"), 11);
    syms.record(2, &String::from("strlen"), 20);
    syms.invalidate_library(1);
    assert_eq!(syms.cached(1, &String::from("strlen")), None);
    assert_eq!(syms.cached(1, &String::from("strcpy")), None);
    assert_eq!(syms.cached(2, &String::from("strlen")), Some(20));
}

#[test]
fn resolving_on_a_closed_library_fails() {
    let mut libs = ExternalLibs::new();
    let syms = SymbolResolver::new();
    let id = libs.open(&String::from(LIBC_PATH)).unwrap();
    libs.close(id);
    assert_eq!(
        resolve_begin(&libs, &syms, id, &String::from("strlen")),
        Err(FfiError::LibraryClosed)
    );
    // an identity never issued is treated the same way
    assert_eq!(
        resolve_begin(&libs, &syms, 999, &String::from("strlen")),
        Err(FfiError::LibraryClosed)
    );
}

#[test]
fn resolution_is_memoized_per_library_and_name() {
    let mut libs = ExternalLibs::new();
    let mut syms = SymbolResolver::new();
    let id = libs.open(&String::from(LIBC_PATH)).unwrap();
    let name = String::from("strlen");
    assert_eq!(
        resolve_begin(&libs, &syms, id, &name),
        Ok(ResolveStep::NeedsLookup)
    );
    // the embedding program performs the native lookup and records it
    let addr = record_lookup(&mut syms, id, &name, Some(0x7f00)).unwrap();
    assert_eq!(addr, 0x7f00);
    assert_eq!(
        resolve_begin(&libs, &syms, id, &name),
        Ok(ResolveStep::Cached(0x7f00))
    );
}

#[test]
fn an_absent_symbol_is_symbol_not_found_and_nothing_is_memoized() {
    let mut syms = SymbolResolver::new();
    let name = String::from("definitely_not_a_real_symbol");
    let r = record_lookup(&mut syms, 1, &name, None);
    match r {
        Err(FfiError::SymbolNotFound { name: n }) => assert_eq!(n, name),
        other => panic!("expected SymbolNotFound, got {other:?}"),
    }
    assert_eq!(syms.cached(1, &name), None);
}
