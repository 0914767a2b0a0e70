use clingo::{check, CallbackState, ClingoError, ClingoErrorCode, Error, SolveResult, Symbol};
use std::cell::Cell;

fn runtime(msg: &str) -> ClingoError {
    ClingoError { code: ClingoErrorCode::Runtime, message: Some(msg.to_string()) }
}

#[test]
fn clingo_error_text() {
    assert_eq!(runtime("parse failed").to_string(), "clingo Runtime: parse failed");
    let e = ClingoError { code: ClingoErrorCode::BadAlloc, message: None };
    assert_eq!(e.to_string(), "clingo BadAlloc");
}

#[test]
fn error_text() {
    assert_eq!(Error::NulByte(2).to_string(), "nul byte found in provided data at position: 2");
    assert_eq!(Error::NulByte(0).to_string(), "nul byte found in provided data at position: 0");
    assert_eq!(
        Error::Clingo(runtime("x")).to_string(),
        "clingo Runtime: x"
    );
    let s = Symbol::id("a", true).unwrap();
    assert_eq!(Error::TypeMismatch(s).to_string(), "type mismatch: cannot read a");
}

#[test]
fn from_clingo_error() {
    let e: Error = runtime("boom").into();
    match e {
        Error::Clingo(c) => {
            assert_eq!(c.code, ClingoErrorCode::Runtime);
            assert_eq!(c.message.as_deref(), Some("boom"));
        }
        other => panic!("unexpected {other:?}"),
    }
}

#[test]
fn check_reads_the_error_only_on_failure() {
    let reads = Cell::new(0);
    let ok = check(true, || {
        reads.set(reads.get() + 1);
        runtime("never")
    });
    assert!(ok.is_ok());
    assert_eq!(reads.get(), 0);
    let failed = check(false, || {
        reads.set(reads.get() + 1);
        runtime("failed")
    });
    assert_eq!(failed.unwrap_err().message.as_deref(), Some("failed"));
    assert_eq!(reads.get(), 1);
}

#[test]
fn callback_controls_the_search() {
    let mut state = CallbackState::new();
    assert!(state.on_model(Ok(true)));
    assert!(!state.on_model(Ok(false)));
    assert!(state.error.is_none());
    assert!(!state.on_model(Err(Error::NulByte(1))));
    assert!(matches!(state.error, Some(Error::NulByte(1))));
}

#[test]
fn callback_error_takes_priority() {
    let mut state = CallbackState::new();
    state.on_model(Err(Error::NulByte(3)));
    let r = state.finish(false, false, 1, || runtime("clingo failed too"));
    assert!(matches!(r, Err(Error::NulByte(3))));
}

#[test]
fn solve_outcome_without_callback_error() {
    let r = CallbackState::new().finish(true, true, 1 | 4, || runtime("unused"));
    assert_eq!(r.unwrap(), SolveResult::from_bitset(5));
    let r = CallbackState::new().finish(false, true, 1, || runtime("get failed"));
    match r {
        Err(Error::Clingo(e)) => assert_eq!(e.message.as_deref(), Some("get failed")),
        other => panic!("unexpected {other:?}"),
    }
    let r = CallbackState::new().finish(true, false, 1, || runtime("close failed"));
    match r {
        Err(Error::Clingo(e)) => assert_eq!(e.message.as_deref(), Some("close failed")),
        other => panic!("unexpected {other:?}"),
    }
}

#[test]
fn only_model_events_reach_the_callback() {
    let calls = std::cell::Cell::new(0);
    let mut state = CallbackState::new();
    let r = state.on_event(1, || {
        calls.set(calls.get() + 1);
        Ok(false)
    });
    assert_eq!(r, None);
    assert_eq!(calls.get(), 0);
    let r = state.on_event(0, || {
        calls.set(calls.get() + 1);
        Ok(false)
    });
    assert_eq!(r, Some(false));
    assert_eq!(calls.get(), 1);
    assert_eq!(state.on_event(0, || Ok(true)), Some(true));
    assert!(state.error.is_none());
    assert_eq!(state.on_event(0, || Err(Error::NulByte(2))), Some(false));
    assert!(matches!(state.error, Some(Error::NulByte(2))));
}
