use clingo::{ClingoErrorCode, ExternalType, ShowType, SolveResult, SymbolType, TruthValue, Warning};

#[test]
fn truth_values() {
    assert_eq!(TruthValue::Free.to_raw(), 0);
    assert_eq!(TruthValue::True.to_raw(), 1);
    assert_eq!(TruthValue::False.to_raw(), 2);
}

#[test]
fn warnings() {
    assert_eq!(Warning::from_raw(0), Warning::OperationUndefined);
    assert_eq!(Warning::from_raw(1), Warning::RuntimeError);
    assert_eq!(Warning::from_raw(2), Warning::AtomUndefined);
    assert_eq!(Warning::from_raw(3), Warning::FileIncluded);
    assert_eq!(Warning::from_raw(4), Warning::VariableUnbounded);
    assert_eq!(Warning::from_raw(5), Warning::GlobalVariable);
    assert_eq!(Warning::from_raw(6), Warning::Other);
    assert_eq!(Warning::from_raw(-3), Warning::Other);
}

#[test]
fn external_types() {
    assert_eq!(ExternalType::from_raw(0), ExternalType::Free);
    assert_eq!(ExternalType::from_raw(1), ExternalType::True);
    assert_eq!(ExternalType::from_raw(2), ExternalType::False);
    assert_eq!(ExternalType::from_raw(3), ExternalType::Release);
    assert_eq!(ExternalType::from_raw(42), ExternalType::Free);
}

#[test]
fn error_codes() {
    assert_eq!(ClingoErrorCode::from_raw(1), ClingoErrorCode::Runtime);
    assert_eq!(ClingoErrorCode::from_raw(2), ClingoErrorCode::Logic);
    assert_eq!(ClingoErrorCode::from_raw(3), ClingoErrorCode::BadAlloc);
    assert_eq!(ClingoErrorCode::from_raw(0), ClingoErrorCode::Unknown);
    assert_eq!(ClingoErrorCode::from_raw(4), ClingoErrorCode::Unknown);
}

#[test]
fn symbol_types() {
    assert_eq!(SymbolType::from_raw(0), SymbolType::Infimum);
    assert_eq!(SymbolType::from_raw(1), SymbolType::Number);
    assert_eq!(SymbolType::from_raw(4), SymbolType::String);
    assert_eq!(SymbolType::from_raw(5), SymbolType::Function);
    assert_eq!(SymbolType::from_raw(7), SymbolType::Supremum);
}

#[test]
fn show_types() {
    assert_eq!(ShowType::Shown.to_bitset(), 2);
    assert_eq!(ShowType::Atoms.to_bitset(), 4);
    assert_eq!(ShowType::Terms.to_bitset(), 8);
    assert_eq!(ShowType::Theory.to_bitset(), 16);
    assert_eq!(ShowType::All.to_bitset(), 31);
}

#[test]
fn solve_result_bits() {
    let r = SolveResult::from_bitset(1 | 4);
    assert_eq!(
        r,
        SolveResult { satisfiable: true, unsatisfiable: false, exhausted: true, interrupted: false }
    );
    let r = SolveResult::from_bitset(2 | 8);
    assert_eq!(
        r,
        SolveResult { satisfiable: false, unsatisfiable: true, exhausted: false, interrupted: true }
    );
    let r = SolveResult::from_bitset(0);
    assert!(!r.satisfiable && !r.unsatisfiable && !r.exhausted && !r.interrupted);
    let r = SolveResult::from_bitset(0xffff_fff0);
    assert!(!r.satisfiable && !r.unsatisfiable && !r.exhausted && !r.interrupted);
}
