use vstd::prelude::*;

use crate::error::Error;
use crate::symbol::{has_nul, terms, Symbol, SymbolType, SymbolValue, Term};

verus! {

/// A function symbol with a statically known arity.
#[derive(Debug, Clone, PartialEq, Eq)]
pub struct Fun<Args>(pub String, pub Args);

/// A function symbol without arguments (a symbolic constant).
pub type F0 = Fun<()>;

/// The constant `name`.
pub fn f0(name: &str) -> (r: F0)
    ensures
        r.0@ == name@,
{
    Fun(name.to_owned(), ())
}

/// Values that can be read from, and written as, a single symbol. Reading
/// (`from_symbol`) and writing (`to_symbol`) are one trait; there is no
/// separate `FromSymbol` trait.
pub trait Symbolic: Sized {
    /// Whether `t` has the shape of a value of this type.
    spec fn decodes(t: Term) -> bool;

    /// Whether `self` is the value that reading `t` gives.
    spec fn represents(&self, t: Term) -> bool;

    /// Whether `self` can be written as a symbol (no name or string of it
    /// holds a zero byte).
    spec fn encodable(&self) -> bool;

    /// The term that writing `self` gives.
    spec fn encode(&self) -> Term;

    /// Read a value from a symbol; `None` when the symbol has another shape.
    fn from_symbol(sym: Symbol) -> (r: Option<Self>)
        ensures
            r is Some <==> Self::decodes(sym@),
            r matches Some(x) ==> x.represents(sym@),
    ;

    /// Read a value from a symbol; a symbol of another shape gives a type
    /// mismatch error that holds it.
    fn from_symbol_result(sym: Symbol) -> (r: Result<Self, Error>)
        ensures
            r is Ok <==> Self::decodes(sym@),
            r matches Ok(x) ==> x.represents(sym@),
            r matches Err(e) ==> e is TypeMismatch && e->TypeMismatch_0@ == sym@,
    {
        let copy = sym.duplicate();
        match Self::from_symbol(sym) {
            Some(x) => Ok(x),
            None => Err(Error::TypeMismatch(copy)),
        }
    }

    /// Write the value as a symbol.
    fn to_symbol(&self) -> (r: Symbol)
        requires
            self.encodable(),
        ensures
            r@ == self.encode(),
    ;

    /// Reading back what was written succeeds and gives the value again.
    proof fn lemma_round_trip(&self)
        requires
            self.encodable(),
        ensures
            Self::decodes(self.encode()),
            self.represents(self.encode()),
    ;

    /// Reading is determined by the term: two values read from the same
    /// term write the same term.
    proof fn lemma_represents_unique(&self, other: &Self, t: Term)
        requires
            self.represents(t),
            other.represents(t),
        ensures
            self.encode() == other.encode(),
    ;
}

/// Values that can be read from, and written as, a list of symbols (the
/// arguments of a function symbol). Reading (`from_symbols`) and writing
/// (`to_symbols`) are one trait; there is no separate `FromSymbols` trait.
pub trait SymbolicArgs: Sized {
    /// Whether `ts` has the shape of a value of this type.
    spec fn decodes_all(ts: Seq<Term>) -> bool;

    /// Whether `self` is the value that reading `ts` gives.
    spec fn represents_all(&self, ts: Seq<Term>) -> bool;

    /// Whether `self` can be written as symbols.
    spec fn encodable_all(&self) -> bool;

    /// The terms that writing `self` gives.
    spec fn encode_all(&self) -> Seq<Term>;

    /// Read a value from a list of symbols; `None` on a length or shape
    /// mismatch.
    fn from_symbols(syms: Vec<Symbol>) -> (r: Option<Self>)
        ensures
            r is Some <==> Self::decodes_all(terms(syms@)),
            r matches Some(x) ==> x.represents_all(terms(syms@)),
    ;

    /// Write the value as a list of symbols.
    fn to_symbols(&self) -> (r: Vec<Symbol>)
        requires
            self.encodable_all(),
        ensures
            terms(r@) == self.encode_all(),
    ;

    /// Reading back what was written succeeds and gives the value again.
    proof fn lemma_round_trip_all(&self)
        requires
            self.encodable_all(),
        ensures
            Self::decodes_all(self.encode_all()),
            self.represents_all(self.encode_all()),
    ;

    /// Reading is determined by the terms: two values read from the same
    /// terms write the same terms.
    proof fn lemma_represents_all_unique(&self, other: &Self, ts: Seq<Term>)
        requires
            self.represents_all(ts),
            other.represents_all(ts),
        ensures
            self.encode_all() == other.encode_all(),
    ;
}

/// A type whose values are function symbols of one fixed name and arity.
pub trait SymbolicFun: Symbolic {
    /// The name and arity of the symbols of this type.
    spec fn spec_signature() -> (Seq<char>, nat);

    /// The name and arity of the symbols of this type.
    fn signature() -> (r: (&'static str, usize))
        ensures
            r.0@ == Self::spec_signature().0,
            r.1 == Self::spec_signature().1,
    ;
}

impl Symbolic for Symbol {
    open spec fn decodes(t: Term) -> bool {
        true
    }

    open spec fn represents(&self, t: Term) -> bool {
        self@ == t
    }

    open spec fn encodable(&self) -> bool {
        true
    }

    open spec fn encode(&self) -> Term {
        self@
    }

    fn from_symbol(sym: Symbol) -> (r: Option<Self>) {
        Some(sym)
    }

    fn to_symbol(&self) -> (r: Symbol) {
        self.duplicate()
    }

    proof fn lemma_round_trip(&self) {
    }

    proof fn lemma_represents_unique(&self, other: &Self, t: Term) {
    }
}

impl Symbolic for i32 {
    open spec fn decodes(t: Term) -> bool {
        t is Number
    }

    open spec fn represents(&self, t: Term) -> bool {
        t == Term::Number(*self)
    }

    open spec fn encodable(&self) -> bool {
        true
    }

    open spec fn encode(&self) -> Term {
        Term::Number(*self)
    }

    fn from_symbol(sym: Symbol) -> (r: Option<Self>) {
        sym.as_number()
    }

    fn to_symbol(&self) -> (r: Symbol) {
        Symbol::number(*self)
    }

    proof fn lemma_round_trip(&self) {
    }

    proof fn lemma_represents_unique(&self, other: &Self, t: Term) {
    }
}

impl Symbolic for String {
    open spec fn decodes(t: Term) -> bool {
        t is Str
    }

    open spec fn represents(&self, t: Term) -> bool {
        t == Term::Str(self@)
    }

    open spec fn encodable(&self) -> bool {
        !has_nul(self@)
    }

    open spec fn encode(&self) -> Term {
        Term::Str(self@)
    }

    fn from_symbol(sym: Symbol) -> (r: Option<Self>) {
        match sym.into_value() {
            SymbolValue::String(s) => Some(s),
            _ => None,
        }
    }

    fn to_symbol(&self) -> (r: Symbol) {
        Symbol::string(self.as_str()).unwrap()
    }

    proof fn lemma_round_trip(&self) {
    }

    proof fn lemma_represents_unique(&self, other: &Self, t: Term) {
    }
}

impl<Args: SymbolicArgs> Symbolic for Fun<Args> {
    open spec fn decodes(t: Term) -> bool {
        t is Function && Args::decodes_all(t->args)
    }

    open spec fn represents(&self, t: Term) -> bool {
        &&& t is Function
        &&& t->name == self.0@
        &&& self.1.represents_all(t->args)
    }

    open spec fn encodable(&self) -> bool {
        !has_nul(self.0@) && self.1.encodable_all()
    }

    open spec fn encode(&self) -> Term {
        Term::Function { name: self.0@, args: self.1.encode_all(), positive: true }
    }

    fn from_symbol(sym: Symbol) -> (r: Option<Self>) {
        match sym.into_value() {
            SymbolValue::Function { name, arguments, .. } => match Args::from_symbols(arguments) {
                Some(args) => Some(Fun(name, args)),
                None => None,
            },
            _ => None,
        }
    }

    fn to_symbol(&self) -> (r: Symbol) {
        let args = self.1.to_symbols();
        Symbol::function(self.0.as_str(), args.as_slice(), true).unwrap()
    }

    proof fn lemma_round_trip(&self) {
        self.1.lemma_round_trip_all();
    }

    proof fn lemma_represents_unique(&self, other: &Self, t: Term) {
        self.1.lemma_represents_all_unique(&other.1, t->args);
    }
}

impl<T: Symbolic> SymbolicArgs for T {
    open spec fn decodes_all(ts: Seq<Term>) -> bool {
        ts.len() == 1 && T::decodes(ts[0])
    }

    open spec fn represents_all(&self, ts: Seq<Term>) -> bool {
        ts.len() == 1 && self.represents(ts[0])
    }

    open spec fn encodable_all(&self) -> bool {
        self.encodable()
    }

    open spec fn encode_all(&self) -> Seq<Term> {
        seq![self.encode()]
    }

    fn from_symbols(syms: Vec<Symbol>) -> (r: Option<Self>) {
        let mut syms = syms;
        if syms.len() == 1 {
            let s = syms.pop().unwrap();
            T::from_symbol(s)
        } else {
            None
        }
    }

    fn to_symbols(&self) -> (r: Vec<Symbol>) {
        let mut v: Vec<Symbol> = Vec::new();
        v.push(self.to_symbol());
        assert(terms(v@) =~= seq![self.encode()]);
        v
    }

    proof fn lemma_round_trip_all(&self) {
        self.lemma_round_trip();
    }

    proof fn lemma_represents_all_unique(&self, other: &Self, ts: Seq<Term>) {
        self.lemma_represents_unique(other, ts[0]);
    }
}

/// A single value is read from exactly one symbol, and written as exactly
/// one: a list of any other length does not read as a `T`, and a list of
/// one symbol reads as the `T` that the symbol reads as.
pub proof fn lemma_single_value_args<T: Symbolic>(x: T, ts: Seq<Term>)
    ensures
        <T as SymbolicArgs>::decodes_all(ts) ==> ts.len() == 1,
        ts.len() == 1 ==> (<T as SymbolicArgs>::decodes_all(ts) <==> T::decodes(ts[0])),
        x.represents_all(ts) ==> ts.len() == 1,
        ts.len() == 1 ==> (x.represents_all(ts) <==> x.represents(ts[0])),
        x.encode_all().len() == 1,
        x.encode_all()[0] == x.encode(),
        x.encodable_all() == x.encodable(),
{
}

impl SymbolicArgs for () {
    open spec fn decodes_all(ts: Seq<Term>) -> bool {
        ts.len() == 0
    }

    open spec fn represents_all(&self, ts: Seq<Term>) -> bool {
        ts.len() == 0
    }

    open spec fn encodable_all(&self) -> bool {
        true
    }

    open spec fn encode_all(&self) -> Seq<Term> {
        Seq::empty()
    }

    fn from_symbols(syms: Vec<Symbol>) -> (r: Option<Self>) {
        if syms.len() == 0 {
            Some(())
        } else {
            None
        }
    }

    fn to_symbols(&self) -> (r: Vec<Symbol>) {
        let v: Vec<Symbol> = Vec::new();
        assert(terms(v@) =~= Seq::<Term>::empty());
        v
    }

    proof fn lemma_round_trip_all(&self) {
    }

    proof fn lemma_represents_all_unique(&self, other: &Self, ts: Seq<Term>) {
    }
}

impl<A: Symbolic> SymbolicArgs for (A,) {
    open spec fn decodes_all(ts: Seq<Term>) -> bool {
        &&& ts.len() == 1
        &&& A::decodes(ts[0])
    }

    open spec fn represents_all(&self, ts: Seq<Term>) -> bool {
        &&& ts.len() == 1
        &&& self.0.represents(ts[0])
    }

    open spec fn encodable_all(&self) -> bool {
        &&& self.0.encodable()
    }

    open spec fn encode_all(&self) -> Seq<Term> {
        seq![self.0.encode()]
    }

    fn from_symbols(syms: Vec<Symbol>) -> (r: Option<Self>) {
        let mut syms = syms;
        if syms.len() != 1 {
            return None;
        }
        let ghost ts = terms(syms@);
        let s0 = syms.pop().unwrap();
        assert(s0@ == ts[0]);
        let av = match A::from_symbol(s0) {
            Some(x) => x,
            None => return None,
        };
        Some((av,))
    }

    fn to_symbols(&self) -> (r: Vec<Symbol>) {
        let mut v: Vec<Symbol> = Vec::new();
        v.push(self.0.to_symbol());
        assert(terms(v@) =~= self.encode_all());
        v
    }

    proof fn lemma_round_trip_all(&self) {
        self.0.lemma_round_trip();
    }

    proof fn lemma_represents_all_unique(&self, other: &Self, ts: Seq<Term>) {
        self.0.lemma_represents_unique(&other.0, ts[0]);
    }
}

impl<A: Symbolic, B: Symbolic> SymbolicArgs for (A, B) {
    open spec fn decodes_all(ts: Seq<Term>) -> bool {
        &&& ts.len() == 2
        &&& A::decodes(ts[0])
        &&& B::decodes(ts[1])
    }

    open spec fn represents_all(&self, ts: Seq<Term>) -> bool {
        &&& ts.len() == 2
        &&& self.0.represents(ts[0])
        &&& self.1.represents(ts[1])
    }

    open spec fn encodable_all(&self) -> bool {
        &&& self.0.encodable()
        &&& self.1.encodable()
    }

    open spec fn encode_all(&self) -> Seq<Term> {
        seq![self.0.encode(), self.1.encode()]
    }

    fn from_symbols(syms: Vec<Symbol>) -> (r: Option<Self>) {
        let mut syms = syms;
        if syms.len() != 2 {
            return None;
        }
        let ghost ts = terms(syms@);
        let s1 = syms.pop().unwrap();
        let s0 = syms.pop().unwrap();
        assert(s0@ == ts[0] && s1@ == ts[1]);
        let av = match A::from_symbol(s0) {
            Some(x) => x,
            None => return None,
        };
        let bv = match B::from_symbol(s1) {
            Some(x) => x,
            None => return None,
        };
        Some((av, bv))
    }

    fn to_symbols(&self) -> (r: Vec<Symbol>) {
        let mut v: Vec<Symbol> = Vec::new();
        v.push(self.0.to_symbol());
        v.push(self.1.to_symbol());
        assert(terms(v@) =~= self.encode_all());
        v
    }

    proof fn lemma_round_trip_all(&self) {
        self.0.lemma_round_trip();
        self.1.lemma_round_trip();
    }

    proof fn lemma_represents_all_unique(&self, other: &Self, ts: Seq<Term>) {
        self.0.lemma_represents_unique(&other.0, ts[0]);
        self.1.lemma_represents_unique(&other.1, ts[1]);
    }
}

impl<A: Symbolic, B: Symbolic, C: Symbolic> SymbolicArgs for (A, B, C) {
    open spec fn decodes_all(ts: Seq<Term>) -> bool {
        &&& ts.len() == 3
        &&& A::decodes(ts[0])
        &&& B::decodes(ts[1])
        &&& C::decodes(ts[2])
    }

    open spec fn represents_all(&self, ts: Seq<Term>) -> bool {
        &&& ts.len() == 3
        &&& self.0.represents(ts[0])
        &&& self.1.represents(ts[1])
        &&& self.2.represents(ts[2])
    }

    open spec fn encodable_all(&self) -> bool {
        &&& self.0.encodable()
        &&& self.1.encodable()
        &&& self.2.encodable()
    }

    open spec fn encode_all(&self) -> Seq<Term> {
        seq![self.0.encode(), self.1.encode(), self.2.encode()]
    }

    fn from_symbols(syms: Vec<Symbol>) -> (r: Option<Self>) {
        let mut syms = syms;
        if syms.len() != 3 {
            return None;
        }
        let ghost ts = terms(syms@);
        let s2 = syms.pop().unwrap();
        let s1 = syms.pop().unwrap();
        let s0 = syms.pop().unwrap();
        assert(s0@ == ts[0] && s1@ == ts[1] && s2@ == ts[2]);
        let av = match A::from_symbol(s0) {
            Some(x) => x,
            None => return None,
        };
        let bv = match B::from_symbol(s1) {
            Some(x) => x,
            None => return None,
        };
        let cv = match C::from_symbol(s2) {
            Some(x) => x,
            None => return None,
        };
        Some((av, bv, cv))
    }

    fn to_symbols(&self) -> (r: Vec<Symbol>) {
        let mut v: Vec<Symbol> = Vec::new();
        v.push(self.0.to_symbol());
        v.push(self.1.to_symbol());
        v.push(self.2.to_symbol());
        assert(terms(v@) =~= self.encode_all());
        v
    }

    proof fn lemma_round_trip_all(&self) {
        self.0.lemma_round_trip();
        self.1.lemma_round_trip();
        self.2.lemma_round_trip();
    }

    proof fn lemma_represents_all_unique(&self, other: &Self, ts: Seq<Term>) {
        self.0.lemma_represents_unique(&other.0, ts[0]);
        self.1.lemma_represents_unique(&other.1, ts[1]);
        self.2.lemma_represents_unique(&other.2, ts[2]);
    }
}

impl<A: Symbolic, B: Symbolic, C: Symbolic, D: Symbolic> SymbolicArgs for (A, B, C, D) {
    open spec fn decodes_all(ts: Seq<Term>) -> bool {
        &&& ts.len() == 4
        &&& A::decodes(ts[0])
        &&& B::decodes(ts[1])
        &&& C::decodes(ts[2])
        &&& D::decodes(ts[3])
    }

    open spec fn represents_all(&self, ts: Seq<Term>) -> bool {
        &&& ts.len() == 4
        &&& self.0.represents(ts[0])
        &&& self.1.represents(ts[1])
        &&& self.2.represents(ts[2])
        &&& self.3.represents(ts[3])
    }

    open spec fn encodable_all(&self) -> bool {
        &&& self.0.encodable()
        &&& self.1.encodable()
        &&& self.2.encodable()
        &&& self.3.encodable()
    }

    open spec fn encode_all(&self) -> Seq<Term> {
        seq![self.0.encode(), self.1.encode(), self.2.encode(), self.3.encode()]
    }

    fn from_symbols(syms: Vec<Symbol>) -> (r: Option<Self>) {
        let mut syms = syms;
        if syms.len() != 4 {
            return None;
        }
        let ghost ts = terms(syms@);
        let s3 = syms.pop().unwrap();
        let s2 = syms.pop().unwrap();
        let s1 = syms.pop().unwrap();
        let s0 = syms.pop().unwrap();
        assert(s0@ == ts[0] && s1@ == ts[1] && s2@ == ts[2] && s3@ == ts[3]);
        let av = match A::from_symbol(s0) {
            Some(x) => x,
            None => return None,
        };
        let bv = match B::from_symbol(s1) {
            Some(x) => x,
            None => return None,
        };
        let cv = match C::from_symbol(s2) {
            Some(x) => x,
            None => return None,
        };
        let dv = match D::from_symbol(s3) {
            Some(x) => x,
            None => return None,
        };
        Some((av, bv, cv, dv))
    }

    fn to_symbols(&self) -> (r: Vec<Symbol>) {
        let mut v: Vec<Symbol> = Vec::new();
        v.push(self.0.to_symbol());
        v.push(self.1.to_symbol());
        v.push(self.2.to_symbol());
        v.push(self.3.to_symbol());
        assert(terms(v@) =~= self.encode_all());
        v
    }

    proof fn lemma_round_trip_all(&self) {
        self.0.lemma_round_trip();
        self.1.lemma_round_trip();
        self.2.lemma_round_trip();
        self.3.lemma_round_trip();
    }

    proof fn lemma_represents_all_unique(&self, other: &Self, ts: Seq<Term>) {
        self.0.lemma_represents_unique(&other.0, ts[0]);
        self.1.lemma_represents_unique(&other.1, ts[1]);
        self.2.lemma_represents_unique(&other.2, ts[2]);
        self.3.lemma_represents_unique(&other.3, ts[3]);
    }
}

impl<A: Symbolic, B: Symbolic, C: Symbolic, D: Symbolic, E: Symbolic> SymbolicArgs for (A, B, C, D, E) {
    open spec fn decodes_all(ts: Seq<Term>) -> bool {
        &&& ts.len() == 5
        &&& A::decodes(ts[0])
        &&& B::decodes(ts[1])
        &&& C::decodes(ts[2])
        &&& D::decodes(ts[3])
        &&& E::decodes(ts[4])
    }

    open spec fn represents_all(&self, ts: Seq<Term>) -> bool {
        &&& ts.len() == 5
        &&& self.0.represents(ts[0])
        &&& self.1.represents(ts[1])
        &&& self.2.represents(ts[2])
        &&& self.3.represents(ts[3])
        &&& self.4.represents(ts[4])
    }

    open spec fn encodable_all(&self) -> bool {
        &&& self.0.encodable()
        &&& self.1.encodable()
        &&& self.2.encodable()
        &&& self.3.encodable()
        &&& self.4.encodable()
    }

    open spec fn encode_all(&self) -> Seq<Term> {
        seq![self.0.encode(), self.1.encode(), self.2.encode(), self.3.encode(), self.4.encode()]
    }

    fn from_symbols(syms: Vec<Symbol>) -> (r: Option<Self>) {
        let mut syms = syms;
        if syms.len() != 5 {
            return None;
        }
        let ghost ts = terms(syms@);
        let s4 = syms.pop().unwrap();
        let s3 = syms.pop().unwrap();
        let s2 = syms.pop().unwrap();
        let s1 = syms.pop().unwrap();
        let s0 = syms.pop().unwrap();
        assert(s0@ == ts[0] && s1@ == ts[1] && s2@ == ts[2] && s3@ == ts[3] && s4@ == ts[4]);
        let av = match A::from_symbol(s0) {
            Some(x) => x,
            None => return None,
        };
        let bv = match B::from_symbol(s1) {
            Some(x) => x,
            None => return None,
        };
        let cv = match C::from_symbol(s2) {
            Some(x) => x,
            None => return None,
        };
        let dv = match D::from_symbol(s3) {
            Some(x) => x,
            None => return None,
        };
        let ev = match E::from_symbol(s4) {
            Some(x) => x,
            None => return None,
        };
        Some((av, bv, cv, dv, ev))
    }

    fn to_symbols(&self) -> (r: Vec<Symbol>) {
        let mut v: Vec<Symbol> = Vec::new();
        v.push(self.0.to_symbol());
        v.push(self.1.to_symbol());
        v.push(self.2.to_symbol());
        v.push(self.3.to_symbol());
        v.push(self.4.to_symbol());
        assert(terms(v@) =~= self.encode_all());
        v
    }

    proof fn lemma_round_trip_all(&self) {
        self.0.lemma_round_trip();
        self.1.lemma_round_trip();
        self.2.lemma_round_trip();
        self.3.lemma_round_trip();
        self.4.lemma_round_trip();
    }

    proof fn lemma_represents_all_unique(&self, other: &Self, ts: Seq<Term>) {
        self.0.lemma_represents_unique(&other.0, ts[0]);
        self.1.lemma_represents_unique(&other.1, ts[1]);
        self.2.lemma_represents_unique(&other.2, ts[2]);
        self.3.lemma_represents_unique(&other.3, ts[3]);
        self.4.lemma_represents_unique(&other.4, ts[4]);
    }
}

impl<A: Symbolic, B: Symbolic, C: Symbolic, D: Symbolic, E: Symbolic, F: Symbolic> SymbolicArgs for (A, B, C, D, E, F) {
    open spec fn decodes_all(ts: Seq<Term>) -> bool {
        &&& ts.len() == 6
        &&& A::decodes(ts[0])
        &&& B::decodes(ts[1])
        &&& C::decodes(ts[2])
        &&& D::decodes(ts[3])
        &&& E::decodes(ts[4])
        &&& F::decodes(ts[5])
    }

    open spec fn represents_all(&self, ts: Seq<Term>) -> bool {
        &&& ts.len() == 6
        &&& self.0.represents(ts[0])
        &&& self.1.represents(ts[1])
        &&& self.2.represents(ts[2])
        &&& self.3.represents(ts[3])
        &&& self.4.represents(ts[4])
        &&& self.5.represents(ts[5])
    }

    open spec fn encodable_all(&self) -> bool {
        &&& self.0.encodable()
        &&& self.1.encodable()
        &&& self.2.encodable()
        &&& self.3.encodable()
        &&& self.4.encodable()
        &&& self.5.encodable()
    }

    open spec fn encode_all(&self) -> Seq<Term> {
        seq![self.0.encode(), self.1.encode(), self.2.encode(), self.3.encode(), self.4.encode(), self.5.encode()]
    }

    fn from_symbols(syms: Vec<Symbol>) -> (r: Option<Self>) {
        let mut syms = syms;
        if syms.len() != 6 {
            return None;
        }
        let ghost ts = terms(syms@);
        let s5 = syms.pop().unwrap();
        let s4 = syms.pop().unwrap();
        let s3 = syms.pop().unwrap();
        let s2 = syms.pop().unwrap();
        let s1 = syms.pop().unwrap();
        let s0 = syms.pop().unwrap();
        assert(s0@ == ts[0] && s1@ == ts[1] && s2@ == ts[2] && s3@ == ts[3] && s4@ == ts[4] && s5@ == ts[5]);
        let av = match A::from_symbol(s0) {
            Some(x) => x,
            None => return None,
        };
        let bv = match B::from_symbol(s1) {
            Some(x) => x,
            None => return None,
        };
        let cv = match C::from_symbol(s2) {
            Some(x) => x,
            None => return None,
        };
        let dv = match D::from_symbol(s3) {
            Some(x) => x,
            None => return None,
        };
        let ev = match E::from_symbol(s4) {
            Some(x) => x,
            None => return None,
        };
        let fv = match F::from_symbol(s5) {
            Some(x) => x,
            None => return None,
        };
        Some((av, bv, cv, dv, ev, fv))
    }

    fn to_symbols(&self) -> (r: Vec<Symbol>) {
        let mut v: Vec<Symbol> = Vec::new();
        v.push(self.0.to_symbol());
        v.push(self.1.to_symbol());
        v.push(self.2.to_symbol());
        v.push(self.3.to_symbol());
        v.push(self.4.to_symbol());
        v.push(self.5.to_symbol());
        assert(terms(v@) =~= self.encode_all());
        v
    }

    proof fn lemma_round_trip_all(&self) {
        self.0.lemma_round_trip();
        self.1.lemma_round_trip();
        self.2.lemma_round_trip();
        self.3.lemma_round_trip();
        self.4.lemma_round_trip();
        self.5.lemma_round_trip();
    }

    proof fn lemma_represents_all_unique(&self, other: &Self, ts: Seq<Term>) {
        self.0.lemma_represents_unique(&other.0, ts[0]);
        self.1.lemma_represents_unique(&other.1, ts[1]);
        self.2.lemma_represents_unique(&other.2, ts[2]);
        self.3.lemma_represents_unique(&other.3, ts[3]);
        self.4.lemma_represents_unique(&other.4, ts[4]);
        self.5.lemma_represents_unique(&other.5, ts[5]);
    }
}

impl<A: Symbolic, B: Symbolic, C: Symbolic, D: Symbolic, E: Symbolic, F: Symbolic, G: Symbolic> SymbolicArgs for (A, B, C, D, E, F, G) {
    open spec fn decodes_all(ts: Seq<Term>) -> bool {
        &&& ts.len() == 7
        &&& A::decodes(ts[0])
        &&& B::decodes(ts[1])
        &&& C::decodes(ts[2])
        &&& D::decodes(ts[3])
        &&& E::decodes(ts[4])
        &&& F::decodes(ts[5])
        &&& G::decodes(ts[6])
    }

    open spec fn represents_all(&self, ts: Seq<Term>) -> bool {
        &&& ts.len() == 7
        &&& self.0.represents(ts[0])
        &&& self.1.represents(ts[1])
        &&& self.2.represents(ts[2])
        &&& self.3.represents(ts[3])
        &&& self.4.represents(ts[4])
        &&& self.5.represents(ts[5])
        &&& self.6.represents(ts[6])
    }

    open spec fn encodable_all(&self) -> bool {
        &&& self.0.encodable()
        &&& self.1.encodable()
        &&& self.2.encodable()
        &&& self.3.encodable()
        &&& self.4.encodable()
        &&& self.5.encodable()
        &&& self.6.encodable()
    }

    open spec fn encode_all(&self) -> Seq<Term> {
        seq![self.0.encode(), self.1.encode(), self.2.encode(), self.3.encode(), self.4.encode(), self.5.encode(), self.6.encode()]
    }

    fn from_symbols(syms: Vec<Symbol>) -> (r: Option<Self>) {
        let mut syms = syms;
        if syms.len() != 7 {
            return None;
        }
        let ghost ts = terms(syms@);
        let s6 = syms.pop().unwrap();
        let s5 = syms.pop().unwrap();
        let s4 = syms.pop().unwrap();
        let s3 = syms.pop().unwrap();
        let s2 = syms.pop().unwrap();
        let s1 = syms.pop().unwrap();
        let s0 = syms.pop().unwrap();
        assert(s0@ == ts[0] && s1@ == ts[1] && s2@ == ts[2] && s3@ == ts[3] && s4@ == ts[4] && s5@ == ts[5] && s6@ == ts[6]);
        let av = match A::from_symbol(s0) {
            Some(x) => x,
            None => return None,
        };
        let bv = match B::from_symbol(s1) {
            Some(x) => x,
            None => return None,
        };
        let cv = match C::from_symbol(s2) {
            Some(x) => x,
            None => return None,
        };
        let dv = match D::from_symbol(s3) {
            Some(x) => x,
            None => return None,
        };
        let ev = match E::from_symbol(s4) {
            Some(x) => x,
            None => return None,
        };
        let fv = match F::from_symbol(s5) {
            Some(x) => x,
            None => return None,
        };
        let gv = match G::from_symbol(s6) {
            Some(x) => x,
            None => return None,
        };
        Some((av, bv, cv, dv, ev, fv, gv))
    }

    fn to_symbols(&self) -> (r: Vec<Symbol>) {
        let mut v: Vec<Symbol> = Vec::new();
        v.push(self.0.to_symbol());
        v.push(self.1.to_symbol());
        v.push(self.2.to_symbol());
        v.push(self.3.to_symbol());
        v.push(self.4.to_symbol());
        v.push(self.5.to_symbol());
        v.push(self.6.to_symbol());
        assert(terms(v@) =~= self.encode_all());
        v
    }

    proof fn lemma_round_trip_all(&self) {
        self.0.lemma_round_trip();
        self.1.lemma_round_trip();
        self.2.lemma_round_trip();
        self.3.lemma_round_trip();
        self.4.lemma_round_trip();
        self.5.lemma_round_trip();
        self.6.lemma_round_trip();
    }

    proof fn lemma_represents_all_unique(&self, other: &Self, ts: Seq<Term>) {
        self.0.lemma_represents_unique(&other.0, ts[0]);
        self.1.lemma_represents_unique(&other.1, ts[1]);
        self.2.lemma_represents_unique(&other.2, ts[2]);
        self.3.lemma_represents_unique(&other.3, ts[3]);
        self.4.lemma_represents_unique(&other.4, ts[4]);
        self.5.lemma_represents_unique(&other.5, ts[5]);
        self.6.lemma_represents_unique(&other.6, ts[6]);
    }
}

impl<A: Symbolic, B: Symbolic, C: Symbolic, D: Symbolic, E: Symbolic, F: Symbolic, G: Symbolic, H: Symbolic> SymbolicArgs for (A, B, C, D, E, F, G, H) {
    open spec fn decodes_all(ts: Seq<Term>) -> bool {
        &&& ts.len() == 8
        &&& A::decodes(ts[0])
        &&& B::decodes(ts[1])
        &&& C::decodes(ts[2])
        &&& D::decodes(ts[3])
        &&& E::decodes(ts[4])
        &&& F::decodes(ts[5])
        &&& G::decodes(ts[6])
        &&& H::decodes(ts[7])
    }

    open spec fn represents_all(&self, ts: Seq<Term>) -> bool {
        &&& ts.len() == 8
        &&& self.0.represents(ts[0])
        &&& self.1.represents(ts[1])
        &&& self.2.represents(ts[2])
        &&& self.3.represents(ts[3])
        &&& self.4.represents(ts[4])
        &&& self.5.represents(ts[5])
        &&& self.6.represents(ts[6])
        &&& self.7.represents(ts[7])
    }

    open spec fn encodable_all(&self) -> bool {
        &&& self.0.encodable()
        &&& self.1.encodable()
        &&& self.2.encodable()
        &&& self.3.encodable()
        &&& self.4.encodable()
        &&& self.5.encodable()
        &&& self.6.encodable()
        &&& self.7.encodable()
    }

    open spec fn encode_all(&self) -> Seq<Term> {
        seq![self.0.encode(), self.1.encode(), self.2.encode(), self.3.encode(), self.4.encode(), self.5.encode(), self.6.encode(), self.7.encode()]
    }

    fn from_symbols(syms: Vec<Symbol>) -> (r: Option<Self>) {
        let mut syms = syms;
        if syms.len() != 8 {
            return None;
        }
        let ghost ts = terms(syms@);
        let s7 = syms.pop().unwrap();
        let s6 = syms.pop().unwrap();
        let s5 = syms.pop().unwrap();
        let s4 = syms.pop().unwrap();
        let s3 = syms.pop().unwrap();
        let s2 = syms.pop().unwrap();
        let s1 = syms.pop().unwrap();
        let s0 = syms.pop().unwrap();
        assert(s0@ == ts[0] && s1@ == ts[1] && s2@ == ts[2] && s3@ == ts[3] && s4@ == ts[4] && s5@ == ts[5] && s6@ == ts[6] && s7@ == ts[7]);
        let av = match A::from_symbol(s0) {
            Some(x) => x,
            None => return None,
        };
        let bv = match B::from_symbol(s1) {
            Some(x) => x,
            None => return None,
        };
        let cv = match C::from_symbol(s2) {
            Some(x) => x,
            None => return None,
        };
        let dv = match D::from_symbol(s3) {
            Some(x) => x,
            None => return None,
        };
        let ev = match E::from_symbol(s4) {
            Some(x) => x,
            None => return None,
        };
        let fv = match F::from_symbol(s5) {
            Some(x) => x,
            None => return None,
        };
        let gv = match G::from_symbol(s6) {
            Some(x) => x,
            None => return None,
        };
        let hv = match H::from_symbol(s7) {
            Some(x) => x,
            None => return None,
        };
        Some((av, bv, cv, dv, ev, fv, gv, hv))
    }

    fn to_symbols(&self) -> (r: Vec<Symbol>) {
        let mut v: Vec<Symbol> = Vec::new();
        v.push(self.0.to_symbol());
        v.push(self.1.to_symbol());
        v.push(self.2.to_symbol());
        v.push(self.3.to_symbol());
        v.push(self.4.to_symbol());
        v.push(self.5.to_symbol());
        v.push(self.6.to_symbol());
        v.push(self.7.to_symbol());
        assert(terms(v@) =~= self.encode_all());
        v
    }

    proof fn lemma_round_trip_all(&self) {
        self.0.lemma_round_trip();
        self.1.lemma_round_trip();
        self.2.lemma_round_trip();
        self.3.lemma_round_trip();
        self.4.lemma_round_trip();
        self.5.lemma_round_trip();
        self.6.lemma_round_trip();
        self.7.lemma_round_trip();
    }

    proof fn lemma_represents_all_unique(&self, other: &Self, ts: Seq<Term>) {
        self.0.lemma_represents_unique(&other.0, ts[0]);
        self.1.lemma_represents_unique(&other.1, ts[1]);
        self.2.lemma_represents_unique(&other.2, ts[2]);
        self.3.lemma_represents_unique(&other.3, ts[3]);
        self.4.lemma_represents_unique(&other.4, ts[4]);
        self.5.lemma_represents_unique(&other.5, ts[5]);
        self.6.lemma_represents_unique(&other.6, ts[6]);
        self.7.lemma_represents_unique(&other.7, ts[7]);
    }
}

impl<A: Symbolic, B: Symbolic, C: Symbolic, D: Symbolic, E: Symbolic, F: Symbolic, G: Symbolic, H: Symbolic, I: Symbolic> SymbolicArgs for (A, B, C, D, E, F, G, H, I) {
    open spec fn decodes_all(ts: Seq<Term>) -> bool {
        &&& ts.len() == 9
        &&& A::decodes(ts[0])
        &&& B::decodes(ts[1])
        &&& C::decodes(ts[2])
        &&& D::decodes(ts[3])
        &&& E::decodes(ts[4])
        &&& F::decodes(ts[5])
        &&& G::decodes(ts[6])
        &&& H::decodes(ts[7])
        &&& I::decodes(ts[8])
    }

    open spec fn represents_all(&self, ts: Seq<Term>) -> bool {
        &&& ts.len() == 9
        &&& self.0.represents(ts[0])
        &&& self.1.represents(ts[1])
        &&& self.2.represents(ts[2])
        &&& self.3.represents(ts[3])
        &&& self.4.represents(ts[4])
        &&& self.5.represents(ts[5])
        &&& self.6.represents(ts[6])
        &&& self.7.represents(ts[7])
        &&& self.8.represents(ts[8])
    }

    open spec fn encodable_all(&self) -> bool {
        &&& self.0.encodable()
        &&& self.1.encodable()
        &&& self.2.encodable()
        &&& self.3.encodable()
        &&& self.4.encodable()
        &&& self.5.encodable()
        &&& self.6.encodable()
        &&& self.7.encodable()
        &&& self.8.encodable()
    }

    open spec fn encode_all(&self) -> Seq<Term> {
        seq![self.0.encode(), self.1.encode(), self.2.encode(), self.3.encode(), self.4.encode(), self.5.encode(), self.6.encode(), self.7.encode(), self.8.encode()]
    }

    fn from_symbols(syms: Vec<Symbol>) -> (r: Option<Self>) {
        let mut syms = syms;
        if syms.len() != 9 {
            return None;
        }
        let ghost ts = terms(syms@);
        let s8 = syms.pop().unwrap();
        let s7 = syms.pop().unwrap();
        let s6 = syms.pop().unwrap();
        let s5 = syms.pop().unwrap();
        let s4 = syms.pop().unwrap();
        let s3 = syms.pop().unwrap();
        let s2 = syms.pop().unwrap();
        let s1 = syms.pop().unwrap();
        let s0 = syms.pop().unwrap();
        assert(s0@ == ts[0] && s1@ == ts[1] && s2@ == ts[2] && s3@ == ts[3] && s4@ == ts[4] && s5@ == ts[5] && s6@ == ts[6] && s7@ == ts[7] && s8@ == ts[8]);
        let av = match A::from_symbol(s0) {
            Some(x) => x,
            None => return None,
        };
        let bv = match B::from_symbol(s1) {
            Some(x) => x,
            None => return None,
        };
        let cv = match C::from_symbol(s2) {
            Some(x) => x,
            None => return None,
        };
        let dv = match D::from_symbol(s3) {
            Some(x) => x,
            None => return None,
        };
        let ev = match E::from_symbol(s4) {
            Some(x) => x,
            None => return None,
        };
        let fv = match F::from_symbol(s5) {
            Some(x) => x,
            None => return None,
        };
        let gv = match G::from_symbol(s6) {
            Some(x) => x,
            None => return None,
        };
        let hv = match H::from_symbol(s7) {
            Some(x) => x,
            None => return None,
        };
        let iv = match I::from_symbol(s8) {
            Some(x) => x,
            None => return None,
        };
        Some((av, bv, cv, dv, ev, fv, gv, hv, iv))
    }

    fn to_symbols(&self) -> (r: Vec<Symbol>) {
        let mut v: Vec<Symbol> = Vec::new();
        v.push(self.0.to_symbol());
        v.push(self.1.to_symbol());
        v.push(self.2.to_symbol());
        v.push(self.3.to_symbol());
        v.push(self.4.to_symbol());
        v.push(self.5.to_symbol());
        v.push(self.6.to_symbol());
        v.push(self.7.to_symbol());
        v.push(self.8.to_symbol());
        assert(terms(v@) =~= self.encode_all());
        v
    }

    proof fn lemma_round_trip_all(&self) {
        self.0.lemma_round_trip();
        self.1.lemma_round_trip();
        self.2.lemma_round_trip();
        self.3.lemma_round_trip();
        self.4.lemma_round_trip();
        self.5.lemma_round_trip();
        self.6.lemma_round_trip();
        self.7.lemma_round_trip();
        self.8.lemma_round_trip();
    }

    proof fn lemma_represents_all_unique(&self, other: &Self, ts: Seq<Term>) {
        self.0.lemma_represents_unique(&other.0, ts[0]);
        self.1.lemma_represents_unique(&other.1, ts[1]);
        self.2.lemma_represents_unique(&other.2, ts[2]);
        self.3.lemma_represents_unique(&other.3, ts[3]);
        self.4.lemma_represents_unique(&other.4, ts[4]);
        self.5.lemma_represents_unique(&other.5, ts[5]);
        self.6.lemma_represents_unique(&other.6, ts[6]);
        self.7.lemma_represents_unique(&other.7, ts[7]);
        self.8.lemma_represents_unique(&other.8, ts[8]);
    }
}

impl<A: Symbolic, B: Symbolic, C: Symbolic, D: Symbolic, E: Symbolic, F: Symbolic, G: Symbolic, H: Symbolic, I: Symbolic, J: Symbolic> SymbolicArgs for (A, B, C, D, E, F, G, H, I, J) {
    open spec fn decodes_all(ts: Seq<Term>) -> bool {
        &&& ts.len() == 10
        &&& A::decodes(ts[0])
        &&& B::decodes(ts[1])
        &&& C::decodes(ts[2])
        &&& D::decodes(ts[3])
        &&& E::decodes(ts[4])
        &&& F::decodes(ts[5])
        &&& G::decodes(ts[6])
        &&& H::decodes(ts[7])
        &&& I::decodes(ts[8])
        &&& J::decodes(ts[9])
    }

    open spec fn represents_all(&self, ts: Seq<Term>) -> bool {
        &&& ts.len() == 10
        &&& self.0.represents(ts[0])
        &&& self.1.represents(ts[1])
        &&& self.2.represents(ts[2])
        &&& self.3.represents(ts[3])
        &&& self.4.represents(ts[4])
        &&& self.5.represents(ts[5])
        &&& self.6.represents(ts[6])
        &&& self.7.represents(ts[7])
        &&& self.8.represents(ts[8])
        &&& self.9.represents(ts[9])
    }

    open spec fn encodable_all(&self) -> bool {
        &&& self.0.encodable()
        &&& self.1.encodable()
        &&& self.2.encodable()
        &&& self.3.encodable()
        &&& self.4.encodable()
        &&& self.5.encodable()
        &&& self.6.encodable()
        &&& self.7.encodable()
        &&& self.8.encodable()
        &&& self.9.encodable()
    }

    open spec fn encode_all(&self) -> Seq<Term> {
        seq![self.0.encode(), self.1.encode(), self.2.encode(), self.3.encode(), self.4.encode(), self.5.encode(), self.6.encode(), self.7.encode(), self.8.encode(), self.9.encode()]
    }

    fn from_symbols(syms: Vec<Symbol>) -> (r: Option<Self>) {
        let mut syms = syms;
        if syms.len() != 10 {
            return None;
        }
        let ghost ts = terms(syms@);
        let s9 = syms.pop().unwrap();
        let s8 = syms.pop().unwrap();
        let s7 = syms.pop().unwrap();
        let s6 = syms.pop().unwrap();
        let s5 = syms.pop().unwrap();
        let s4 = syms.pop().unwrap();
        let s3 = syms.pop().unwrap();
        let s2 = syms.pop().unwrap();
        let s1 = syms.pop().unwrap();
        let s0 = syms.pop().unwrap();
        assert(s0@ == ts[0] && s1@ == ts[1] && s2@ == ts[2] && s3@ == ts[3] && s4@ == ts[4] && s5@ == ts[5] && s6@ == ts[6] && s7@ == ts[7] && s8@ == ts[8] && s9@ == ts[9]);
        let av = match A::from_symbol(s0) {
            Some(x) => x,
            None => return None,
        };
        let bv = match B::from_symbol(s1) {
            Some(x) => x,
            None => return None,
        };
        let cv = match C::from_symbol(s2) {
            Some(x) => x,
            None => return None,
        };
        let dv = match D::from_symbol(s3) {
            Some(x) => x,
            None => return None,
        };
        let ev = match E::from_symbol(s4) {
            Some(x) => x,
            None => return None,
        };
        let fv = match F::from_symbol(s5) {
            Some(x) => x,
            None => return None,
        };
        let gv = match G::from_symbol(s6) {
            Some(x) => x,
            None => return None,
        };
        let hv = match H::from_symbol(s7) {
            Some(x) => x,
            None => return None,
        };
        let iv = match I::from_symbol(s8) {
            Some(x) => x,
            None => return None,
        };
        let jv = match J::from_symbol(s9) {
            Some(x) => x,
            None => return None,
        };
        Some((av, bv, cv, dv, ev, fv, gv, hv, iv, jv))
    }

    fn to_symbols(&self) -> (r: Vec<Symbol>) {
        let mut v: Vec<Symbol> = Vec::new();
        v.push(self.0.to_symbol());
        v.push(self.1.to_symbol());
        v.push(self.2.to_symbol());
        v.push(self.3.to_symbol());
        v.push(self.4.to_symbol());
        v.push(self.5.to_symbol());
        v.push(self.6.to_symbol());
        v.push(self.7.to_symbol());
        v.push(self.8.to_symbol());
        v.push(self.9.to_symbol());
        assert(terms(v@) =~= self.encode_all());
        v
    }

    proof fn lemma_round_trip_all(&self) {
        self.0.lemma_round_trip();
        self.1.lemma_round_trip();
        self.2.lemma_round_trip();
        self.3.lemma_round_trip();
        self.4.lemma_round_trip();
        self.5.lemma_round_trip();
        self.6.lemma_round_trip();
        self.7.lemma_round_trip();
        self.8.lemma_round_trip();
        self.9.lemma_round_trip();
    }

    proof fn lemma_represents_all_unique(&self, other: &Self, ts: Seq<Term>) {
        self.0.lemma_represents_unique(&other.0, ts[0]);
        self.1.lemma_represents_unique(&other.1, ts[1]);
        self.2.lemma_represents_unique(&other.2, ts[2]);
        self.3.lemma_represents_unique(&other.3, ts[3]);
        self.4.lemma_represents_unique(&other.4, ts[4]);
        self.5.lemma_represents_unique(&other.5, ts[5]);
        self.6.lemma_represents_unique(&other.6, ts[6]);
        self.7.lemma_represents_unique(&other.7, ts[7]);
        self.8.lemma_represents_unique(&other.8, ts[8]);
        self.9.lemma_represents_unique(&other.9, ts[9]);
    }
}

impl<A: Symbolic, B: Symbolic, C: Symbolic, D: Symbolic, E: Symbolic, F: Symbolic, G: Symbolic, H: Symbolic, I: Symbolic, J: Symbolic, K: Symbolic> SymbolicArgs for (A, B, C, D, E, F, G, H, I, J, K) {
    open spec fn decodes_all(ts: Seq<Term>) -> bool {
        &&& ts.len() == 11
        &&& A::decodes(ts[0])
        &&& B::decodes(ts[1])
        &&& C::decodes(ts[2])
        &&& D::decodes(ts[3])
        &&& E::decodes(ts[4])
        &&& F::decodes(ts[5])
        &&& G::decodes(ts[6])
        &&& H::decodes(ts[7])
        &&& I::decodes(ts[8])
        &&& J::decodes(ts[9])
        &&& K::decodes(ts[10])
    }

    open spec fn represents_all(&self, ts: Seq<Term>) -> bool {
        &&& ts.len() == 11
        &&& self.0.represents(ts[0])
        &&& self.1.represents(ts[1])
        &&& self.2.represents(ts[2])
        &&& self.3.represents(ts[3])
        &&& self.4.represents(ts[4])
        &&& self.5.represents(ts[5])
        &&& self.6.represents(ts[6])
        &&& self.7.represents(ts[7])
        &&& self.8.represents(ts[8])
        &&& self.9.represents(ts[9])
        &&& self.10.represents(ts[10])
    }

    open spec fn encodable_all(&self) -> bool {
        &&& self.0.encodable()
        &&& self.1.encodable()
        &&& self.2.encodable()
        &&& self.3.encodable()
        &&& self.4.encodable()
        &&& self.5.encodable()
        &&& self.6.encodable()
        &&& self.7.encodable()
        &&& self.8.encodable()
        &&& self.9.encodable()
        &&& self.10.encodable()
    }

    open spec fn encode_all(&self) -> Seq<Term> {
        seq![self.0.encode(), self.1.encode(), self.2.encode(), self.3.encode(), self.4.encode(), self.5.encode(), self.6.encode(), self.7.encode(), self.8.encode(), self.9.encode(), self.10.encode()]
    }

    fn from_symbols(syms: Vec<Symbol>) -> (r: Option<Self>) {
        let mut syms = syms;
        if syms.len() != 11 {
            return None;
        }
        let ghost ts = terms(syms@);
        let s10 = syms.pop().unwrap();
        let s9 = syms.pop().unwrap();
        let s8 = syms.pop().unwrap();
        let s7 = syms.pop().unwrap();
        let s6 = syms.pop().unwrap();
        let s5 = syms.pop().unwrap();
        let s4 = syms.pop().unwrap();
        let s3 = syms.pop().unwrap();
        let s2 = syms.pop().unwrap();
        let s1 = syms.pop().unwrap();
        let s0 = syms.pop().unwrap();
        assert(s0@ == ts[0] && s1@ == ts[1] && s2@ == ts[2] && s3@ == ts[3] && s4@ == ts[4] && s5@ == ts[5] && s6@ == ts[6] && s7@ == ts[7] && s8@ == ts[8] && s9@ == ts[9] && s10@ == ts[10]);
        let av = match A::from_symbol(s0) {
            Some(x) => x,
            None => return None,
        };
        let bv = match B::from_symbol(s1) {
            Some(x) => x,
            None => return None,
        };
        let cv = match C::from_symbol(s2) {
            Some(x) => x,
            None => return None,
        };
        let dv = match D::from_symbol(s3) {
            Some(x) => x,
            None => return None,
        };
        let ev = match E::from_symbol(s4) {
            Some(x) => x,
            None => return None,
        };
        let fv = match F::from_symbol(s5) {
            Some(x) => x,
            None => return None,
        };
        let gv = match G::from_symbol(s6) {
            Some(x) => x,
            None => return None,
        };
        let hv = match H::from_symbol(s7) {
            Some(x) => x,
            None => return None,
        };
        let iv = match I::from_symbol(s8) {
            Some(x) => x,
            None => return None,
        };
        let jv = match J::from_symbol(s9) {
            Some(x) => x,
            None => return None,
        };
        let kv = match K::from_symbol(s10) {
            Some(x) => x,
            None => return None,
        };
        Some((av, bv, cv, dv, ev, fv, gv, hv, iv, jv, kv))
    }

    fn to_symbols(&self) -> (r: Vec<Symbol>) {
        let mut v: Vec<Symbol> = Vec::new();
        v.push(self.0.to_symbol());
        v.push(self.1.to_symbol());
        v.push(self.2.to_symbol());
        v.push(self.3.to_symbol());
        v.push(self.4.to_symbol());
        v.push(self.5.to_symbol());
        v.push(self.6.to_symbol());
        v.push(self.7.to_symbol());
        v.push(self.8.to_symbol());
        v.push(self.9.to_symbol());
        v.push(self.10.to_symbol());
        assert(terms(v@) =~= self.encode_all());
        v
    }

    proof fn lemma_round_trip_all(&self) {
        self.0.lemma_round_trip();
        self.1.lemma_round_trip();
        self.2.lemma_round_trip();
        self.3.lemma_round_trip();
        self.4.lemma_round_trip();
        self.5.lemma_round_trip();
        self.6.lemma_round_trip();
        self.7.lemma_round_trip();
        self.8.lemma_round_trip();
        self.9.lemma_round_trip();
        self.10.lemma_round_trip();
    }

    proof fn lemma_represents_all_unique(&self, other: &Self, ts: Seq<Term>) {
        self.0.lemma_represents_unique(&other.0, ts[0]);
        self.1.lemma_represents_unique(&other.1, ts[1]);
        self.2.lemma_represents_unique(&other.2, ts[2]);
        self.3.lemma_represents_unique(&other.3, ts[3]);
        self.4.lemma_represents_unique(&other.4, ts[4]);
        self.5.lemma_represents_unique(&other.5, ts[5]);
        self.6.lemma_represents_unique(&other.6, ts[6]);
        self.7.lemma_represents_unique(&other.7, ts[7]);
        self.8.lemma_represents_unique(&other.8, ts[8]);
        self.9.lemma_represents_unique(&other.9, ts[9]);
        self.10.lemma_represents_unique(&other.10, ts[10]);
    }
}

impl<A: Symbolic, B: Symbolic, C: Symbolic, D: Symbolic, E: Symbolic, F: Symbolic, G: Symbolic, H: Symbolic, I: Symbolic, J: Symbolic, K: Symbolic, L: Symbolic> SymbolicArgs for (A, B, C, D, E, F, G, H, I, J, K, L) {
    open spec fn decodes_all(ts: Seq<Term>) -> bool {
        &&& ts.len() == 12
        &&& A::decodes(ts[0])
        &&& B::decodes(ts[1])
        &&& C::decodes(ts[2])
        &&& D::decodes(ts[3])
        &&& E::decodes(ts[4])
        &&& F::decodes(ts[5])
        &&& G::decodes(ts[6])
        &&& H::decodes(ts[7])
        &&& I::decodes(ts[8])
        &&& J::decodes(ts[9])
        &&& K::decodes(ts[10])
        &&& L::decodes(ts[11])
    }

    open spec fn represents_all(&self, ts: Seq<Term>) -> bool {
        &&& ts.len() == 12
        &&& self.0.represents(ts[0])
        &&& self.1.represents(ts[1])
        &&& self.2.represents(ts[2])
        &&& self.3.represents(ts[3])
        &&& self.4.represents(ts[4])
        &&& self.5.represents(ts[5])
        &&& self.6.represents(ts[6])
        &&& self.7.represents(ts[7])
        &&& self.8.represents(ts[8])
        &&& self.9.represents(ts[9])
        &&& self.10.represents(ts[10])
        &&& self.11.represents(ts[11])
    }

    open spec fn encodable_all(&self) -> bool {
        &&& self.0.encodable()
        &&& self.1.encodable()
        &&& self.2.encodable()
        &&& self.3.encodable()
        &&& self.4.encodable()
        &&& self.5.encodable()
        &&& self.6.encodable()
        &&& self.7.encodable()
        &&& self.8.encodable()
        &&& self.9.encodable()
        &&& self.10.encodable()
        &&& self.11.encodable()
    }

    open spec fn encode_all(&self) -> Seq<Term> {
        seq![self.0.encode(), self.1.encode(), self.2.encode(), self.3.encode(), self.4.encode(), self.5.encode(), self.6.encode(), self.7.encode(), self.8.encode(), self.9.encode(), self.10.encode(), self.11.encode()]
    }

    fn from_symbols(syms: Vec<Symbol>) -> (r: Option<Self>) {
        let mut syms = syms;
        if syms.len() != 12 {
            return None;
        }
        let ghost ts = terms(syms@);
        let s11 = syms.pop().unwrap();
        let s10 = syms.pop().unwrap();
        let s9 = syms.pop().unwrap();
        let s8 = syms.pop().unwrap();
        let s7 = syms.pop().unwrap();
        let s6 = syms.pop().unwrap();
        let s5 = syms.pop().unwrap();
        let s4 = syms.pop().unwrap();
        let s3 = syms.pop().unwrap();
        let s2 = syms.pop().unwrap();
        let s1 = syms.pop().unwrap();
        let s0 = syms.pop().unwrap();
        assert(s0@ == ts[0] && s1@ == ts[1] && s2@ == ts[2] && s3@ == ts[3] && s4@ == ts[4] && s5@ == ts[5] && s6@ == ts[6] && s7@ == ts[7] && s8@ == ts[8] && s9@ == ts[9] && s10@ == ts[10] && s11@ == ts[11]);
        let av = match A::from_symbol(s0) {
            Some(x) => x,
            None => return None,
        };
        let bv = match B::from_symbol(s1) {
            Some(x) => x,
            None => return None,
        };
        let cv = match C::from_symbol(s2) {
            Some(x) => x,
            None => return None,
        };
        let dv = match D::from_symbol(s3) {
            Some(x) => x,
            None => return None,
        };
        let ev = match E::from_symbol(s4) {
            Some(x) => x,
            None => return None,
        };
        let fv = match F::from_symbol(s5) {
            Some(x) => x,
            None => return None,
        };
        let gv = match G::from_symbol(s6) {
            Some(x) => x,
            None => return None,
        };
        let hv = match H::from_symbol(s7) {
            Some(x) => x,
            None => return None,
        };
        let iv = match I::from_symbol(s8) {
            Some(x) => x,
            None => return None,
        };
        let jv = match J::from_symbol(s9) {
            Some(x) => x,
            None => return None,
        };
        let kv = match K::from_symbol(s10) {
            Some(x) => x,
            None => return None,
        };
        let lv = match L::from_symbol(s11) {
            Some(x) => x,
            None => return None,
        };
        Some((av, bv, cv, dv, ev, fv, gv, hv, iv, jv, kv, lv))
    }

    fn to_symbols(&self) -> (r: Vec<Symbol>) {
        let mut v: Vec<Symbol> = Vec::new();
        v.push(self.0.to_symbol());
        v.push(self.1.to_symbol());
        v.push(self.2.to_symbol());
        v.push(self.3.to_symbol());
        v.push(self.4.to_symbol());
        v.push(self.5.to_symbol());
        v.push(self.6.to_symbol());
        v.push(self.7.to_symbol());
        v.push(self.8.to_symbol());
        v.push(self.9.to_symbol());
        v.push(self.10.to_symbol());
        v.push(self.11.to_symbol());
        assert(terms(v@) =~= self.encode_all());
        v
    }

    proof fn lemma_round_trip_all(&self) {
        self.0.lemma_round_trip();
        self.1.lemma_round_trip();
        self.2.lemma_round_trip();
        self.3.lemma_round_trip();
        self.4.lemma_round_trip();
        self.5.lemma_round_trip();
        self.6.lemma_round_trip();
        self.7.lemma_round_trip();
        self.8.lemma_round_trip();
        self.9.lemma_round_trip();
        self.10.lemma_round_trip();
        self.11.lemma_round_trip();
    }

    proof fn lemma_represents_all_unique(&self, other: &Self, ts: Seq<Term>) {
        self.0.lemma_represents_unique(&other.0, ts[0]);
        self.1.lemma_represents_unique(&other.1, ts[1]);
        self.2.lemma_represents_unique(&other.2, ts[2]);
        self.3.lemma_represents_unique(&other.3, ts[3]);
        self.4.lemma_represents_unique(&other.4, ts[4]);
        self.5.lemma_represents_unique(&other.5, ts[5]);
        self.6.lemma_represents_unique(&other.6, ts[6]);
        self.7.lemma_represents_unique(&other.7, ts[7]);
        self.8.lemma_represents_unique(&other.8, ts[8]);
        self.9.lemma_represents_unique(&other.9, ts[9]);
        self.10.lemma_represents_unique(&other.10, ts[10]);
        self.11.lemma_represents_unique(&other.11, ts[11]);
    }
}


/// Turn a vector of exactly `N` elements into an array.
#[verifier::external_body]
fn vec_into_array<T, const N: usize>(v: Vec<T>) -> (r: [T; N])
    requires
        v@.len() == N,
    ensures
        r@ == v@,
{
    let r: Option<[T; N]> = v.try_into().ok();
    r.unwrap()
}

impl<T: Symbolic, const N: usize> SymbolicArgs for [T; N] {
    open spec fn decodes_all(ts: Seq<Term>) -> bool {
        &&& ts.len() == N
        &&& forall|i: int| 0 <= i < N ==> T::decodes(#[trigger] ts[i])
    }

    open spec fn represents_all(&self, ts: Seq<Term>) -> bool {
        &&& ts.len() == N
        &&& forall|i: int| 0 <= i < N ==> (#[trigger] self@[i]).represents(ts[i])
    }

    open spec fn encodable_all(&self) -> bool {
        forall|i: int| 0 <= i < N ==> (#[trigger] self@[i]).encodable()
    }

    open spec fn encode_all(&self) -> Seq<Term> {
        Seq::new(N as nat, |i: int| self@[i].encode())
    }

    fn from_symbols(syms: Vec<Symbol>) -> (r: Option<Self>) {
        if syms.len() != N {
            return None;
        }
        let ghost ts = terms(syms@);
        let mut rest = syms;
        let mut out: Vec<T> = Vec::new();
        let mut i: usize = 0;
        while i < N
            invariant
                ts == terms(syms@),
                ts.len() == N,
                i <= N,
                out@.len() == i,
                terms(rest@) == ts.subrange(i as int, N as int),
                forall|j: int| 0 <= j < i ==> T::decodes(#[trigger] ts[j]),
                forall|j: int| 0 <= j < i ==> (#[trigger] out@[j]).represents(ts[j]),
            decreases N - i,
        {
            let ghost before = rest@;
            assert(terms(before).len() == before.len());
            assert(terms(before)[0] == ts[i as int]);
            let s = rest.remove(0);
            assert(s@ == ts[i as int]);
            assert forall|k: int| 0 <= k < rest@.len() implies #[trigger] terms(rest@)[k] == ts[i + 1 + k] by {
                assert(rest@[k] == before[k + 1]);
                assert(terms(before)[k + 1] == ts[i + 1 + k]);
            }
            assert(terms(rest@) =~= ts.subrange(i + 1, N as int));
            match T::from_symbol(s) {
                Some(x) => {
                    out.push(x);
                },
                None => {
                    assert(!T::decodes(ts[i as int]));
                    return None;
                },
            }
            i = i + 1;
        }
        Some(vec_into_array(out))
    }

    fn to_symbols(&self) -> (r: Vec<Symbol>) {
        let mut v: Vec<Symbol> = Vec::new();
        let mut i: usize = 0;
        while i < N
            invariant
                i <= N,
                v@.len() == i,
                self.encodable_all(),
                forall|j: int| 0 <= j < i ==> (#[trigger] v@[j])@ == self@[j].encode(),
            decreases N - i,
        {
            assert(self@[i as int].encodable());
            v.push(self[i].to_symbol());
            i = i + 1;
        }
        assert(terms(v@) =~= self.encode_all());
        v
    }

    proof fn lemma_round_trip_all(&self) {
        assert forall|i: int| 0 <= i < N implies T::decodes(#[trigger] self.encode_all()[i])
            && self@[i].represents(self.encode_all()[i]) by {
            self@[i].lemma_round_trip();
        }
    }

    proof fn lemma_represents_all_unique(&self, other: &Self, ts: Seq<Term>) {
        assert forall|i: int| 0 <= i < N implies #[trigger] self@[i].encode() == other@[i].encode() by {
            self@[i].lemma_represents_unique(&other@[i], ts[i]);
        }
        assert(self.encode_all() =~= other.encode_all());
    }
}

impl Symbol {
    /// View this symbol as a positive function whose arguments read as
    /// `Args`. Returns `None` if it is not a function, is negative, or its
    /// arguments have another shape.
    pub fn as_fun<Args: SymbolicArgs>(&self) -> (r: Option<Fun<Args>>)
        ensures
            r is Some <==> (self@ is Function && self@->positive && Args::decodes_all(self@->args)),
            r matches Some(f) ==> f.0@ == self@->name && f.1.represents_all(self@->args),
    {
        if self.symbol_type() != SymbolType::Function || self.is_positive() != Some(true) {
            return None;
        }
        match self.duplicate().into_value() {
            SymbolValue::Function { name, arguments, .. } => match Args::from_symbols(arguments) {
                Some(args) => Some(Fun(name, args)),
                None => None,
            },
            _ => None,
        }
    }
}

/// Whether `t` is a positive function atom named `name` whose arguments read
/// as `Args`.
pub open spec fn selects<Args: SymbolicArgs>(t: Term, name: Seq<char>) -> bool {
    &&& t is Function
    &&& t->positive
    &&& t->name == name
    &&& Args::decodes_all(t->args)
}

/// The atoms of `ts` that `selects` keeps, in order.
pub open spec fn selected<Args: SymbolicArgs>(ts: Seq<Term>, name: Seq<char>) -> Seq<Term> {
    ts.filter(|t: Term| selects::<Args>(t, name))
}

/// The arguments, read as `Args`, of those atoms that are positive functions
/// named `name` with arguments of that shape, in their order in `atoms`.
pub fn atoms_named<Args: SymbolicArgs>(atoms: Vec<Symbol>, name: &str) -> (r: Vec<Args>)
    ensures
        r@.len() == selected::<Args>(terms(atoms@), name@).len(),
        forall|i: int|
            0 <= i < r@.len() ==> (#[trigger] r@[i]).represents_all(
                selected::<Args>(terms(atoms@), name@)[i]->args,
            ),
{
    let ghost ts = terms(atoms@);
    let mut out: Vec<Args> = Vec::new();
    let mut i: usize = 0;
    while i < atoms.len()
        invariant
            ts == terms(atoms@),
            i <= atoms@.len(),
            out@.len() == selected::<Args>(ts.subrange(0, i as int), name@).len(),
            forall|j: int|
                0 <= j < out@.len() ==> (#[trigger] out@[j]).represents_all(
                    selected::<Args>(ts.subrange(0, i as int), name@)[j]->args,
                ),
        decreases atoms@.len() - i,
    {
        let ghost prefix = ts.subrange(0, i as int);
        let ghost t = ts[i as int];
        assert(ts.subrange(0, i + 1) =~= prefix.push(t));
        proof {
            prefix.lemma_filter_push(t, |x: Term| selects::<Args>(x, name@));
        }
        let sym = &atoms[i];
        assert(sym@ == t);
        let matches_name = match sym.name() {
            Some(n) => n.to_owned() == name.to_owned(),
            None => false,
        };
        if matches_name {
            match sym.as_fun::<Args>() {
                Some(f) => {
                    out.push(f.1);
                },
                None => {},
            }
        }
        i = i + 1;
    }
    assert(ts.subrange(0, i as int) =~= ts);
    out
}

} // verus!
