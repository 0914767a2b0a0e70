use std::collections::HashMap;
use vstd::prelude::*;

use crate::symbol::Symbol;

verus! {

broadcast use vstd::std_specs::hash::group_hash_axioms;

/// A single statement in the ground program.
#[derive(Debug, PartialEq, Eq)]
pub enum GroundStatement<At = Atom, Lit = Literal> {
    /// A normal or choice rule.
    Rule { choice: bool, head: Vec<At>, body: Vec<Lit> },
    /// A weight rule (used for aggregates).
    WeightRule { choice: bool, head: Vec<At>, lower_bound: i32, body: Vec<(Lit, i32)> },
    /// A minimize statement.
    Minimize { priority: i32, literals: Vec<(Lit, i32)> },
    /// An external atom declaration.
    External { atom: At, external_type: ExternalType },
    /// The symbol of an output atom.
    OutputAtom { symbol: Symbol, atom: At },
}

/// A statement as the grounder reports it: atoms and literals are the
/// grounder's integers.
pub type RawStatement = GroundStatement<u32, i32>;

/// The sign of a literal.
#[derive(Debug, Clone, Copy, PartialEq, Eq, Hash, Structural)]
pub enum Sign {
    Pos,
    Neg,
}

/// A ground atom, either a user-visible symbol or an auxiliary grounder atom.
#[derive(Debug, PartialEq, Eq, Hash)]
pub enum Atom {
    Symbol(Symbol),
    Aux(u32),
}

/// A signed ground atom.
#[derive(Debug, PartialEq, Eq, Hash)]
pub struct Literal(pub Sign, pub Atom);

/// The type of an external atom declaration.
#[derive(Debug, Clone, Copy, PartialEq, Eq, Structural)]
pub enum ExternalType {
    Free,
    True,
    False,
    Release,
}

impl ExternalType {
    /// The declaration type for a raw external type of clingo's C interface
    /// (0 free, 1 true, 2 false, 3 release); any other code reads as free.
    pub open spec fn spec_from_raw(t: i32) -> ExternalType {
        if t == 1 {
            ExternalType::True
        } else if t == 2 {
            ExternalType::False
        } else if t == 3 {
            ExternalType::Release
        } else {
            ExternalType::Free
        }
    }

    /// The declaration type for a raw external type of clingo's C interface.
    pub fn from_raw(t: i32) -> (r: ExternalType)
        ensures
            r == ExternalType::spec_from_raw(t),
    {
        if t == 0 {
            ExternalType::Free
        } else if t == 1 {
            ExternalType::True
        } else if t == 2 {
            ExternalType::False
        } else if t == 3 {
            ExternalType::Release
        } else {
            ExternalType::Free
        }
    }
}

/// The external types 0 to 3 are four different declaration types; every
/// other code reads as free, as 0 does.
pub proof fn lemma_external_codes(a: i32, b: i32)
    ensures
        0 <= a <= 3 && 0 <= b <= 3 && a != b ==> ExternalType::spec_from_raw(a)
            != ExternalType::spec_from_raw(b),
        !(0 <= a <= 3) ==> ExternalType::spec_from_raw(a) == ExternalType::spec_from_raw(0),
{
}

/// `a` is what the grounder atom `raw` stands for, given the symbols of the
/// output atoms: the symbol of `raw` if it is an output atom, else an
/// auxiliary atom with the same number.
pub open spec fn resolves_atom(names: Map<u32, Symbol>, raw: u32, a: Atom) -> bool {
    match a {
        Atom::Symbol(s) => names.contains_key(raw) && s@ == names[raw]@,
        Atom::Aux(n) => !names.contains_key(raw) && n == raw,
    }
}

/// `l` is what the grounder literal `raw` stands for: a non-negative
/// literal is the positive atom of that number, a negative one the negated
/// atom of its absolute value.
pub open spec fn resolves_literal(names: Map<u32, Symbol>, raw: i32, l: Literal) -> bool {
    if raw >= 0 {
        l.0 == Sign::Pos && resolves_atom(names, raw as u32, l.1)
    } else {
        l.0 == Sign::Neg && resolves_atom(names, (-raw) as u32, l.1)
    }
}

/// Each atom of `atoms` resolves from the raw atom at the same position.
pub open spec fn resolves_atoms(names: Map<u32, Symbol>, raw: Seq<u32>, atoms: Seq<Atom>) -> bool {
    &&& atoms.len() == raw.len()
    &&& forall|i: int| 0 <= i < raw.len() ==> resolves_atom(names, raw[i], #[trigger] atoms[i])
}

/// Each literal of `lits` resolves from the raw literal at the same position.
pub open spec fn resolves_literals(names: Map<u32, Symbol>, raw: Seq<i32>, lits: Seq<Literal>) -> bool {
    &&& lits.len() == raw.len()
    &&& forall|i: int| 0 <= i < raw.len() ==> resolves_literal(names, raw[i], #[trigger] lits[i])
}

/// Each weighted literal resolves from the raw one at the same position,
/// with the same weight.
pub open spec fn resolves_weighted(
    names: Map<u32, Symbol>,
    raw: Seq<(i32, i32)>,
    lits: Seq<(Literal, i32)>,
) -> bool {
    &&& lits.len() == raw.len()
    &&& forall|i: int|
        0 <= i < raw.len() ==> resolves_literal(names, raw[i].0, (#[trigger] lits[i]).0) && lits[i].1
            == raw[i].1
}

/// `s` is the statement `raw` with its atoms and literals resolved.
pub open spec fn resolves_statement(names: Map<u32, Symbol>, raw: RawStatement, s: GroundStatement) -> bool {
    match (raw, s) {
        (
            GroundStatement::Rule { choice: c0, head: h0, body: b0 },
            GroundStatement::Rule { choice: c1, head: h1, body: b1 },
        ) => c0 == c1 && resolves_atoms(names, h0@, h1@) && resolves_literals(names, b0@, b1@),
        (
            GroundStatement::WeightRule { choice: c0, head: h0, lower_bound: l0, body: b0 },
            GroundStatement::WeightRule { choice: c1, head: h1, lower_bound: l1, body: b1 },
        ) => c0 == c1 && l0 == l1 && resolves_atoms(names, h0@, h1@) && resolves_weighted(
            names,
            b0@,
            b1@,
        ),
        (
            GroundStatement::Minimize { priority: p0, literals: w0 },
            GroundStatement::Minimize { priority: p1, literals: w1 },
        ) => p0 == p1 && resolves_weighted(names, w0@, w1@),
        (
            GroundStatement::External { atom: a0, external_type: t0 },
            GroundStatement::External { atom: a1, external_type: t1 },
        ) => t0 == t1 && resolves_atom(names, a0, a1),
        (
            GroundStatement::OutputAtom { symbol: s0, atom: a0 },
            GroundStatement::OutputAtom { symbol: s1, atom: a1 },
        ) => s0@ == s1@ && resolves_atom(names, a0, a1),
        _ => false,
    }
}

/// Whether two atoms are the same: the same symbol, or the same auxiliary
/// atom.
pub open spec fn same_atom(a: Atom, b: Atom) -> bool {
    match (a, b) {
        (Atom::Symbol(x), Atom::Symbol(y)) => x@ == y@,
        (Atom::Aux(m), Atom::Aux(n)) => m == n,
        _ => false,
    }
}

/// A grounder literal and its negation stand for the same atom, the first
/// positively and the second negatively.
pub proof fn lemma_literal_negation(names: Map<u32, Symbol>, raw: i32, l: Literal, m: Literal)
    requires
        raw > 0,
        resolves_literal(names, raw, l),
        resolves_literal(names, -raw as i32, m),
    ensures
        l.0 == Sign::Pos,
        m.0 == Sign::Neg,
        same_atom(l.1, m.1),
{
}

/// No literal of these raw literals is `i32::MIN`, which has no absolute
/// value in `i32`.
pub open spec fn literals_in_range(raw: Seq<i32>) -> bool {
    forall|i: int| 0 <= i < raw.len() ==> #[trigger] raw[i] != i32::MIN
}

/// No weighted literal of these has the literal `i32::MIN`.
pub open spec fn weighted_in_range(raw: Seq<(i32, i32)>) -> bool {
    forall|i: int| 0 <= i < raw.len() ==> (#[trigger] raw[i]).0 != i32::MIN
}

/// No literal of the statement is `i32::MIN`.
pub open spec fn statement_in_range(s: RawStatement) -> bool {
    match s {
        GroundStatement::Rule { body, .. } => literals_in_range(body@),
        GroundStatement::WeightRule { body, .. } => weighted_in_range(body@),
        GroundStatement::Minimize { literals, .. } => weighted_in_range(literals@),
        GroundStatement::External { .. } => true,
        GroundStatement::OutputAtom { .. } => true,
    }
}

/// What an observer of the grounder has seen so far: the statements of the
/// ground program, and the symbols of the output atoms.
pub struct ObserverState {
    statements: Vec<RawStatement>,
    atom_map: HashMap<u32, Symbol>,
}

impl ObserverState {
    /// The statements seen so far, in the order they were reported.
    pub closed spec fn statements(&self) -> Seq<RawStatement> {
        self.statements@
    }

    /// The symbols of the output atoms seen so far.
    pub closed spec fn names(&self) -> Map<u32, Symbol> {
        self.atom_map@
    }

    /// Every recorded literal has an absolute value in `i32`.
    pub closed spec fn wf(&self) -> bool {
        forall|i: int|
            0 <= i < self.statements@.len() ==> statement_in_range(#[trigger] self.statements@[i])
    }

    /// An observer that has seen nothing.
    pub fn new() -> (r: ObserverState)
        ensures
            r.wf(),
            r.statements() == Seq::<RawStatement>::empty(),
            r.names() == Map::<u32, Symbol>::empty(),
    {
        ObserverState { statements: Vec::new(), atom_map: HashMap::new() }
    }

    /// Record a statement.
    fn record(&mut self, s: RawStatement)
        requires
            old(self).wf(),
            statement_in_range(s),
        ensures
            final(self).wf(),
            final(self).statements() == old(self).statements().push(s),
            final(self).names() == old(self).names(),
    {
        self.statements.push(s);
    }

    /// Record a normal or choice rule.
    pub fn record_rule(&mut self, choice: bool, head: Vec<u32>, body: Vec<i32>)
        requires
            old(self).wf(),
            literals_in_range(body@),
        ensures
            final(self).wf(),
            final(self).statements() == old(self).statements().push(
                GroundStatement::Rule { choice, head, body },
            ),
            final(self).names() == old(self).names(),
    {
        self.record(GroundStatement::Rule { choice, head, body });
    }

    /// Record a weight rule.
    pub fn record_weight_rule(
        &mut self,
        choice: bool,
        head: Vec<u32>,
        lower_bound: i32,
        body: Vec<(i32, i32)>,
    )
        requires
            old(self).wf(),
            weighted_in_range(body@),
        ensures
            final(self).wf(),
            final(self).statements() == old(self).statements().push(
                GroundStatement::WeightRule { choice, head, lower_bound, body },
            ),
            final(self).names() == old(self).names(),
    {
        self.record(GroundStatement::WeightRule { choice, head, lower_bound, body });
    }

    /// Record a minimize statement.
    pub fn record_minimize(&mut self, priority: i32, literals: Vec<(i32, i32)>)
        requires
            old(self).wf(),
            weighted_in_range(literals@),
        ensures
            final(self).wf(),
            final(self).statements() == old(self).statements().push(
                GroundStatement::Minimize { priority, literals },
            ),
            final(self).names() == old(self).names(),
    {
        self.record(GroundStatement::Minimize { priority, literals });
    }

    /// Record an external atom declaration.
    pub fn record_external(&mut self, atom: u32, external_type: ExternalType)
        requires
            old(self).wf(),
        ensures
            final(self).wf(),
            final(self).statements() == old(self).statements().push(
                GroundStatement::External { atom, external_type },
            ),
            final(self).names() == old(self).names(),
    {
        self.record(GroundStatement::External { atom, external_type });
    }

    /// Record the symbol of an output atom: the statement is kept, and the
    /// atom stands for the symbol from now on (a later report for the same
    /// atom replaces an earlier one).
    pub fn record_output_atom(&mut self, atom: u32, symbol: Symbol)
        requires
            old(self).wf(),
        ensures
            final(self).wf(),
            final(self).statements().len() == old(self).statements().len() + 1,
            forall|i: int|
                0 <= i < old(self).statements().len() ==> #[trigger] final(self).statements()[i]
                    == old(self).statements()[i],
            ({
                let s = final(self).statements().last();
                &&& s is OutputAtom
                &&& s->OutputAtom_symbol@ == symbol@
                &&& s->OutputAtom_atom == atom
            }),
            final(self).names() == old(self).names().insert(atom, symbol),
    {
        let copy = symbol.duplicate();
        self.record(GroundStatement::OutputAtom { symbol: copy, atom });
        self.atom_map.insert(atom, symbol);
    }

    /// What the grounder atom `raw` stands for.
    fn resolve_atom(&self, raw: u32) -> (r: Atom)
        ensures
            resolves_atom(self.names(), raw, r),
    {
        match self.atom_map.get(&raw) {
            Some(sym) => Atom::Symbol(sym.duplicate()),
            None => Atom::Aux(raw),
        }
    }

    /// What the grounder literal `raw` stands for.
    fn resolve_literal(&self, raw: i32) -> (r: Literal)
        requires
            raw != i32::MIN,
        ensures
            resolves_literal(self.names(), raw, r),
    {
        if raw >= 0 {
            Literal(Sign::Pos, self.resolve_atom(raw as u32))
        } else {
            Literal(Sign::Neg, self.resolve_atom((-raw) as u32))
        }
    }

    fn resolve_atoms(&self, raw: &Vec<u32>) -> (r: Vec<Atom>)
        ensures
            resolves_atoms(self.names(), raw@, r@),
    {
        let mut r: Vec<Atom> = Vec::new();
        let mut i: usize = 0;
        while i < raw.len()
            invariant
                i <= raw@.len(),
                r@.len() == i,
                forall|j: int| 0 <= j < i ==> resolves_atom(self.names(), raw@[j], #[trigger] r@[j]),
            decreases raw@.len() - i,
        {
            r.push(self.resolve_atom(raw[i]));
            i = i + 1;
        }
        r
    }

    fn resolve_literals(&self, raw: &Vec<i32>) -> (r: Vec<Literal>)
        requires
            literals_in_range(raw@),
        ensures
            resolves_literals(self.names(), raw@, r@),
    {
        let mut r: Vec<Literal> = Vec::new();
        let mut i: usize = 0;
        while i < raw.len()
            invariant
                literals_in_range(raw@),
                i <= raw@.len(),
                r@.len() == i,
                forall|j: int|
                    0 <= j < i ==> resolves_literal(self.names(), raw@[j], #[trigger] r@[j]),
            decreases raw@.len() - i,
        {
            assert(raw@[i as int] != i32::MIN);
            r.push(self.resolve_literal(raw[i]));
            i = i + 1;
        }
        r
    }

    fn resolve_weighted(&self, raw: &Vec<(i32, i32)>) -> (r: Vec<(Literal, i32)>)
        requires
            weighted_in_range(raw@),
        ensures
            resolves_weighted(self.names(), raw@, r@),
    {
        let mut r: Vec<(Literal, i32)> = Vec::new();
        let mut i: usize = 0;
        while i < raw.len()
            invariant
                weighted_in_range(raw@),
                i <= raw@.len(),
                r@.len() == i,
                forall|j: int|
                    0 <= j < i ==> resolves_literal(self.names(), raw@[j].0, (#[trigger] r@[j]).0)
                        && r@[j].1 == raw@[j].1,
            decreases raw@.len() - i,
        {
            let (l, w) = raw[i];
            assert(raw@[i as int].0 != i32::MIN);
            r.push((self.resolve_literal(l), w));
            i = i + 1;
        }
        r
    }

    fn resolve_statement(&self, s: &RawStatement) -> (r: GroundStatement)
        requires
            statement_in_range(*s),
        ensures
            resolves_statement(self.names(), *s, r),
    {
        match s {
            GroundStatement::Rule { choice, head, body } => GroundStatement::Rule {
                choice: *choice,
                head: self.resolve_atoms(head),
                body: self.resolve_literals(body),
            },
            GroundStatement::WeightRule { choice, head, lower_bound, body } =>
                GroundStatement::WeightRule {
                choice: *choice,
                head: self.resolve_atoms(head),
                lower_bound: *lower_bound,
                body: self.resolve_weighted(body),
            },
            GroundStatement::Minimize { priority, literals } => GroundStatement::Minimize {
                priority: *priority,
                literals: self.resolve_weighted(literals),
            },
            GroundStatement::External { atom, external_type } => GroundStatement::External {
                atom: self.resolve_atom(*atom),
                external_type: *external_type,
            },
            GroundStatement::OutputAtom { symbol, atom } => GroundStatement::OutputAtom {
                symbol: symbol.duplicate(),
                atom: self.resolve_atom(*atom),
            },
        }
    }

    /// The statements seen, in order, with every grounder atom replaced by
    /// its symbol when it is an output atom and kept as an auxiliary atom
    /// otherwise.
    pub fn into_statements(self) -> (r: Vec<GroundStatement>)
        requires
            self.wf(),
        ensures
            r@.len() == self.statements().len(),
            forall|i: int|
                0 <= i < r@.len() ==> resolves_statement(
                    self.names(),
                    self.statements()[i],
                    #[trigger] r@[i],
                ),
    {
        let mut r: Vec<GroundStatement> = Vec::new();
        let mut i: usize = 0;
        while i < self.statements.len()
            invariant
                self.wf(),
                i <= self.statements@.len(),
                r@.len() == i,
                forall|j: int|
                    0 <= j < i ==> resolves_statement(
                        self.names(),
                        self.statements@[j],
                        #[trigger] r@[j],
                    ),
            decreases self.statements@.len() - i,
        {
            assert(statement_in_range(self.statements@[i as int]));
            r.push(self.resolve_statement(&self.statements[i]));
            i = i + 1;
        }
        r
    }
}

} // verus!
