use clingo::{Atom, ExternalType, GroundStatement, Literal, ObserverState, Sign, Symbol};

fn id(name: &str) -> Symbol {
    Symbol::id(name, true).unwrap()
}

#[test]
fn rules_resolve_output_atoms() {
    let mut obs = ObserverState::new();
    obs.record_rule(false, vec![1], vec![2, -3]);
    obs.record_output_atom(1, id("a"));
    obs.record_output_atom(2, id("b"));
    let stmts = obs.into_statements();
    assert_eq!(stmts.len(), 3);
    assert_eq!(
        stmts[0],
        GroundStatement::Rule {
            choice: false,
            head: vec![Atom::Symbol(id("a"))],
            body: vec![Literal(Sign::Pos, Atom::Symbol(id("b"))), Literal(Sign::Neg, Atom::Aux(3))],
        }
    );
    assert_eq!(stmts[1], GroundStatement::OutputAtom { symbol: id("a"), atom: Atom::Symbol(id("a")) });
    assert_eq!(stmts[2], GroundStatement::OutputAtom { symbol: id("b"), atom: Atom::Symbol(id("b")) });
}

#[test]
fn weight_rules_minimize_and_externals() {
    let mut obs = ObserverState::new();
    obs.record_weight_rule(true, vec![4], 2, vec![(5, 1), (-6, 3)]);
    obs.record_minimize(1, vec![(-5, 7)]);
    obs.record_external(6, ExternalType::False);
    obs.record_output_atom(6, id("e"));
    let stmts = obs.into_statements();
    assert_eq!(
        stmts[0],
        GroundStatement::WeightRule {
            choice: true,
            head: vec![Atom::Aux(4)],
            lower_bound: 2,
            body: vec![
                (Literal(Sign::Pos, Atom::Aux(5)), 1),
                (Literal(Sign::Neg, Atom::Symbol(id("e"))), 3),
            ],
        }
    );
    assert_eq!(
        stmts[1],
        GroundStatement::Minimize {
            priority: 1,
            literals: vec![(Literal(Sign::Neg, Atom::Aux(5)), 7)],
        }
    );
    assert_eq!(
        stmts[2],
        GroundStatement::External { atom: Atom::Symbol(id("e")), external_type: ExternalType::False }
    );
}

#[test]
fn later_output_report_wins() {
    let mut obs = ObserverState::new();
    obs.record_rule(true, vec![1], vec![]);
    obs.record_output_atom(1, id("x"));
    obs.record_output_atom(1, id("y"));
    let stmts = obs.into_statements();
    assert_eq!(
        stmts[0],
        GroundStatement::Rule { choice: true, head: vec![Atom::Symbol(id("y"))], body: vec![] }
    );
}

#[test]
fn literal_zero_is_positive() {
    let mut obs = ObserverState::new();
    obs.record_rule(false, vec![], vec![0]);
    let stmts = obs.into_statements();
    assert_eq!(
        stmts[0],
        GroundStatement::Rule { choice: false, head: vec![], body: vec![Literal(Sign::Pos, Atom::Aux(0))] }
    );
}

#[test]
fn nothing_observed() {
    assert!(ObserverState::new().into_statements().is_empty());
}
