use vstd::prelude::*;
use vstd::utf8::encode_utf8;

use crate::config::{all_digits, digits_value, lemma_decimal_digits};
use crate::error::{ClingoError, Error};
use crate::text::{decimal, digit_char, push_char, push_decimal, push_text};

verus! {

/// The mathematical meaning of a symbol: a ground term of a logic program.
pub enum Term {
    Infimum,
    Number(i32),
    Str(Seq<char>),
    Function { name: Seq<char>, args: Seq<Term>, positive: bool },
    Supremum,
}

/// The type of a clingo symbol.
#[derive(Debug, Clone, Copy, PartialEq, Eq, Structural)]
pub enum SymbolType {
    Infimum,
    Number,
    String,
    Function,
    Supremum,
}

impl SymbolType {
    /// The type for a raw symbol type of clingo's C interface (0 infimum,
    /// 1 number, 4 string, 5 function, 7 supremum).
    pub open spec fn spec_from_raw(t: i32) -> SymbolType {
        if t == 0 {
            SymbolType::Infimum
        } else if t == 1 {
            SymbolType::Number
        } else if t == 4 {
            SymbolType::String
        } else if t == 5 {
            SymbolType::Function
        } else {
            SymbolType::Supremum
        }
    }

    /// Whether `t` is a raw symbol type of clingo's C interface.
    pub open spec fn is_raw(t: i32) -> bool {
        t == 0 || t == 1 || t == 4 || t == 5 || t == 7
    }

    /// The type for a raw symbol type of clingo's C interface.
    pub fn from_raw(t: i32) -> (r: SymbolType)
        requires
            SymbolType::is_raw(t),
        ensures
            r == SymbolType::spec_from_raw(t),
    {
        if t == 0 {
            SymbolType::Infimum
        } else if t == 1 {
            SymbolType::Number
        } else if t == 4 {
            SymbolType::String
        } else if t == 5 {
            SymbolType::Function
        } else {
            SymbolType::Supremum
        }
    }
}

impl Term {
    /// The type of the term.
    pub open spec fn kind(self) -> SymbolType {
        match self {
            Term::Infimum => SymbolType::Infimum,
            Term::Number(_) => SymbolType::Number,
            Term::Str(_) => SymbolType::String,
            Term::Function { .. } => SymbolType::Function,
            Term::Supremum => SymbolType::Supremum,
        }
    }

    /// The number of arguments of a function term.
    pub open spec fn arity(self) -> nat
        recommends
            self is Function,
    {
        self->args.len()
    }
}

/// The accessors agree with the type of a symbol: exactly a number has a
/// number, exactly a string has a string, and exactly a function has a
/// name, arguments and a sign.
pub proof fn lemma_accessors_follow_type(t: Term)
    ensures
        (t.kind() == SymbolType::Number) == (t is Number),
        (t.kind() == SymbolType::String) == (t is Str),
        (t.kind() == SymbolType::Function) == (t is Function),
        (t.kind() == SymbolType::Infimum) == (t is Infimum),
        (t.kind() == SymbolType::Supremum) == (t is Supremum),
{
}

/// The UTF-8 bytes of a piece of text.
pub open spec fn utf8_bytes(s: Seq<char>) -> Seq<u8> {
    encode_utf8(s)
}

/// Whether the UTF-8 encoding of `s` holds a zero byte.
pub open spec fn has_nul(s: Seq<char>) -> bool {
    exists|i: int| 0 <= i < utf8_bytes(s).len() && utf8_bytes(s)[i] == 0
}

/// `p` is the byte offset of the first zero byte in the UTF-8 encoding of `s`.
pub open spec fn first_nul_at(s: Seq<char>, p: int) -> bool {
    &&& 0 <= p < utf8_bytes(s).len()
    &&& utf8_bytes(s)[p] == 0
    &&& forall|j: int| 0 <= j < p ==> utf8_bytes(s)[j] != 0
}

/// The outcome of checking a name or string for a zero byte: success when
/// it has none, otherwise the error that gives the first one's offset.
pub open spec fn nul_checked<T>(s: Seq<char>, r: Result<T, Error>) -> bool {
    match r {
        Ok(_) => !has_nul(s),
        Err(e) => e is NulByte && first_nul_at(s, e->NulByte_0 as int),
    }
}

/// Find the byte offset of the first zero byte of `s`, if any.
pub fn find_nul(s: &str) -> (r: Option<usize>)
    ensures
        match r {
            None => !has_nul(s@),
            Some(p) => first_nul_at(s@, p as int),
        },
{
    let bytes = s.as_bytes();
    let n = bytes.len();
    let mut i: usize = 0;
    while i < n
        invariant
            n == bytes@.len(),
            bytes@ == utf8_bytes(s@),
            i <= n,
            forall|j: int| 0 <= j < i ==> bytes@[j] != 0,
        decreases n - i,
    {
        if bytes[i] == 0 {
            return Some(i);
        }
        i = i + 1;
    }
    None
}

/// A character as it appears inside a quoted string: newline, backslash and
/// double quote are escaped with a backslash.
pub open spec fn escape(c: char) -> Seq<char> {
    if c == '\n' {
        seq!['\\', 'n']
    } else if c == '\\' {
        seq!['\\', '\\']
    } else if c == '"' {
        seq!['\\', '"']
    } else {
        seq![c]
    }
}

/// The characters of a string with each one escaped.
pub open spec fn quote(s: Seq<char>) -> Seq<char>
    decreases s.len(),
{
    if s.len() == 0 {
        Seq::empty()
    } else {
        quote(s.drop_last()) + escape(s.last())
    }
}

/// The decimal notation of an integer, with a leading `-` when negative.
pub open spec fn int_text(n: i32) -> Seq<char> {
    if n < 0 {
        seq!['-'] + decimal((-n) as nat)
    } else {
        decimal(n as nat)
    }
}

/// A number symbol prints as its decimal notation: a non-negative number as
/// one or more digits, without a leading zero unless it is zero, that
/// denote it; a negative number as `-` followed by such digits for its
/// absolute value.
pub proof fn lemma_number_text(n: i32)
    ensures
        n >= 0 ==> {
            let t = render(Term::Number(n));
            &&& t.len() > 0
            &&& all_digits(t)
            &&& digits_value(t) == n
            &&& t[0] == '0' ==> t.len() == 1
        },
        n < 0 ==> {
            let t = render(Term::Number(n));
            &&& t.len() > 1
            &&& t[0] == '-'
            &&& all_digits(t.drop_first())
            &&& digits_value(t.drop_first()) == -(n as int)
            &&& t[1] != '0'
        },
{
    if n >= 0 {
        lemma_decimal_digits(n as nat);
        let d = decimal(n as nat);
        if d[0] == '0' && d.len() > 1 {
            assert(n == 0);
            assert(d == seq![digit_char(0)]);
        }
    } else {
        let m = (-(n as int)) as nat;
        lemma_decimal_digits(m);
        let t = render(Term::Number(n));
        assert(t == seq!['-'] + decimal(m));
        assert(t.drop_first() =~= decimal(m));
        assert(t[1] == decimal(m)[0]);
    }
}

/// The text of a term, as clingo prints it.
pub open spec fn render(t: Term) -> Seq<char>
    decreases t,
{
    match t {
        Term::Infimum => seq!['#', 'i', 'n', 'f'],
        Term::Supremum => seq!['#', 's', 'u', 'p'],
        Term::Number(n) => int_text(n),
        Term::Str(s) => seq!['"'] + quote(s) + seq!['"'],
        Term::Function { name, args, positive } => {
            let sign = if positive {
                Seq::empty()
            } else {
                seq!['-']
            };
            if args.len() == 0 {
                sign + if name.len() > 0 {
                    name
                } else {
                    seq!['(', ')']
                }
            } else {
                let comma = if args.len() == 1 && name.len() == 0 {
                    seq![',']
                } else {
                    Seq::empty()
                };
                sign + name + seq!['('] + render_args(args) + comma + seq![')']
            }
        },
    }
}

/// The texts of terms, separated by commas.
pub open spec fn render_args(args: Seq<Term>) -> Seq<char>
    decreases args,
{
    if args.len() == 0 {
        Seq::empty()
    } else if args.len() == 1 {
        render(args[0])
    } else {
        render_args(args.subrange(0, args.len() - 1)) + seq![','] + render(args[args.len() - 1])
    }
}

/// A symbol broken into its typed components.
#[derive(Debug, PartialEq, Eq, Hash)]
pub enum SymbolValue {
    Infimum,
    Number(i32),
    String(String),
    Function { name: String, arguments: Vec<Symbol>, positive: bool },
    Supremum,
}

/// A logic-program symbol.
///
/// A symbol is an immutable value: the infimum `#inf`, the supremum `#sup`, an
/// integer, a string, or a (possibly classically negated) function with a
/// name and argument symbols. The constructors refuse names and strings that
/// hold a zero byte.
#[derive(Debug, PartialEq, Eq, Hash)]
pub struct Symbol {
    value: SymbolValue,
}

/// The terms of a sequence of symbols.
pub open spec fn terms(s: Seq<Symbol>) -> Seq<Term> {
    Seq::new(s.len(), |i: int| s[i]@)
}

impl SymbolValue {
    /// The term these components describe.
    pub open spec fn view(&self) -> Term {
        match self {
            SymbolValue::Infimum => Term::Infimum,
            SymbolValue::Number(n) => Term::Number(*n),
            SymbolValue::String(s) => Term::Str(s@),
            SymbolValue::Function { name, arguments, positive } => Term::Function {
                name: name@,
                args: terms(arguments@),
                positive: *positive,
            },
            SymbolValue::Supremum => Term::Supremum,
        }
    }
}

impl Symbol {
    /// The term this symbol denotes.
    pub closed spec fn view(&self) -> Term
        decreases self,
    {
        match &self.value {
            SymbolValue::Infimum => Term::Infimum,
            SymbolValue::Number(n) => Term::Number(*n),
            SymbolValue::String(s) => Term::Str(s@),
            SymbolValue::Function { name, arguments, positive } => Term::Function {
                name: name@,
                args: Seq::new(
                    arguments@.len(),
                    |i: int|
                        if 0 <= i < arguments@.len() {
                            arguments@[i].view()
                        } else {
                            Term::Infimum
                        },
                ),
                positive: *positive,
            },
            SymbolValue::Supremum => Term::Supremum,
        }
    }

    /// The components of a symbol describe the same term as the symbol.
    proof fn lemma_value_view(&self)
        ensures
            self.value@ == self@,
    {
        if let SymbolValue::Function { name, arguments, positive } = &self.value {
            assert(self@->args =~= terms(arguments@));
        }
    }

    /// Build a symbol from components that satisfy the symbol invariant.
    fn from_value(value: SymbolValue) -> (r: Symbol)
        ensures
            r@ == value@,
    {
        let r = Symbol { value };
        proof {
            r.lemma_value_view();
        }
        r
    }

    /// A copy of this symbol.
    pub(crate) fn duplicate(&self) -> (r: Symbol)
        ensures
            r@ == self@,
        decreases self,
    {
        proof {
            self.lemma_value_view();
        }
        let value = match &self.value {
            SymbolValue::Infimum => SymbolValue::Infimum,
            SymbolValue::Number(n) => SymbolValue::Number(*n),
            SymbolValue::String(s) => SymbolValue::String(s.clone()),
            SymbolValue::Function { name, arguments, positive } => {
                let mut args: Vec<Symbol> = Vec::new();
                let mut i: usize = 0;
                while i < arguments.len()
                    invariant
                        i <= arguments.len(),
                        args@.len() == i,
                        forall|j: int| 0 <= j < i ==> #[trigger] args@[j]@ == arguments@[j]@,
                        self.value == (SymbolValue::Function {
                            name: *name,
                            arguments: *arguments,
                            positive: *positive,
                        }),
                    decreases arguments.len() - i,
                {
                    proof {
                        assert(decreases_to!(*self => self.value));
                        assert(decreases_to!(self.value => self.value->Function_arguments));
                        assert(decreases_to!(self.value => *arguments));
                        assert(decreases_to!(*arguments => arguments@));
                        assert(decreases_to!(arguments@ => arguments@[i as int]));
                    }
                    let a = arguments[i].duplicate();
                    args.push(a);
                    i = i + 1;
                }
                assert(terms(args@) =~= terms(arguments@));
                SymbolValue::Function { name: name.clone(), arguments: args, positive: *positive }
            },
            SymbolValue::Supremum => SymbolValue::Supremum,
        };
        Symbol::from_value(value)
    }

    /// Create a number symbol.
    pub fn number(n: i32) -> (r: Symbol)
        ensures
            r@ == Term::Number(n),
    {
        Symbol { value: SymbolValue::Number(n) }
    }

    /// The `#inf` symbol.
    pub fn infimum() -> (r: Symbol)
        ensures
            r@ == Term::Infimum,
    {
        Symbol { value: SymbolValue::Infimum }
    }

    /// The `#sup` symbol.
    pub fn supremum() -> (r: Symbol)
        ensures
            r@ == Term::Supremum,
    {
        Symbol { value: SymbolValue::Supremum }
    }

    /// Create a string symbol.
    ///
    /// Fails with [`Error::NulByte`] when `s` holds a zero byte.
    pub fn string(s: &str) -> (r: Result<Symbol, Error>)
        ensures
            nul_checked(s@, r),
            r matches Ok(sym) ==> sym@ == Term::Str(s@),
    {
        match find_nul(s) {
            Some(p) => Err(Error::NulByte(p)),
            None => Ok(Symbol { value: SymbolValue::String(s.to_owned()) }),
        }
    }

    /// Create a symbolic constant (a function without arguments).
    ///
    /// `positive` controls the classical negation sign: `true` for `a`,
    /// `false` for `-a`. Fails with [`Error::NulByte`] when `name` holds a
    /// zero byte.
    pub fn id(name: &str, positive: bool) -> (r: Result<Symbol, Error>)
        ensures
            nul_checked(name@, r),
            r matches Ok(sym) ==> sym@ == (Term::Function {
                name: name@,
                args: Seq::empty(),
                positive,
            }),
    {
        match find_nul(name) {
            Some(p) => Err(Error::NulByte(p)),
            None => {
                let value = SymbolValue::Function {
                    name: name.to_owned(),
                    arguments: Vec::new(),
                    positive,
                };
                let r = Symbol::from_value(value);
                assert(r@->args =~= Seq::<Term>::empty());
                Ok(r)
            },
        }
    }

    /// Create a function symbol.
    ///
    /// `positive` controls the classical negation sign. Fails with
    /// [`Error::NulByte`] when `name` holds a zero byte.
    pub fn function(name: &str, args: &[Symbol], positive: bool) -> (r: Result<Symbol, Error>)
        ensures
            nul_checked(name@, r),
            r matches Ok(sym) ==> sym@ == (Term::Function {
                name: name@,
                args: terms(args@),
                positive,
            }),
    {
        match find_nul(name) {
            Some(p) => Err(Error::NulByte(p)),
            None => {
                let arguments = copy_all(args);
                let value = SymbolValue::Function { name: name.to_owned(), arguments, positive };
                let r = Symbol::from_value(value);
                Ok(r)
            },
        }
    }

    /// Get the type of this symbol.
    pub fn symbol_type(&self) -> (r: SymbolType)
        ensures
            r == self@.kind(),
    {
        proof {
            self.lemma_value_view();
        }
        match &self.value {
            SymbolValue::Infimum => SymbolType::Infimum,
            SymbolValue::Number(_) => SymbolType::Number,
            SymbolValue::String(_) => SymbolType::String,
            SymbolValue::Function { .. } => SymbolType::Function,
            SymbolValue::Supremum => SymbolType::Supremum,
        }
    }

    /// Get the integer value. Returns `None` if not a number symbol.
    pub fn as_number(&self) -> (r: Option<i32>)
        ensures
            r == (match self@ {
                Term::Number(n) => Some(n),
                _ => None,
            }),
    {
        proof {
            self.lemma_value_view();
        }
        match &self.value {
            SymbolValue::Number(n) => Some(*n),
            _ => None,
        }
    }

    /// Get the name of a function symbol. Returns `None` if not a function.
    pub fn name(&self) -> (r: Option<&str>)
        ensures
            r is Some <==> self@ is Function,
            r matches Some(n) ==> n@ == self@->name,
    {
        proof {
            self.lemma_value_view();
        }
        match &self.value {
            SymbolValue::Function { name, .. } => Some(name.as_str()),
            _ => None,
        }
    }

    /// Get the string value. Returns `None` if not a string symbol.
    pub fn as_string(&self) -> (r: Option<&str>)
        ensures
            r is Some <==> self@ is Str,
            r matches Some(s) ==> s@ == self@->Str_0,
    {
        proof {
            self.lemma_value_view();
        }
        match &self.value {
            SymbolValue::String(s) => Some(s.as_str()),
            _ => None,
        }
    }

    /// Get the arguments of a function symbol. Returns `None` if not a function.
    pub fn arguments(&self) -> (r: Option<Vec<Symbol>>)
        ensures
            r is Some <==> self@ is Function,
            r matches Some(args) ==> terms(args@) == self@->args,
    {
        proof {
            self.lemma_value_view();
        }
        match &self.value {
            SymbolValue::Function { arguments, .. } => Some(copy_all(arguments.as_slice())),
            _ => None,
        }
    }

    /// The number of arguments of a function symbol. Returns `None` if not a
    /// function.
    pub fn arity(&self) -> (r: Option<usize>)
        ensures
            r is Some <==> self@ is Function,
            r matches Some(n) ==> n == self@.arity(),
    {
        proof {
            self.lemma_value_view();
        }
        match &self.value {
            SymbolValue::Function { arguments, .. } => Some(arguments.len()),
            _ => None,
        }
    }

    /// Whether this function symbol is positive (no classical negation sign).
    /// Returns `None` if not a function.
    pub fn is_positive(&self) -> (r: Option<bool>)
        ensures
            r is Some <==> self@ is Function,
            r matches Some(p) ==> p == self@->positive,
    {
        proof {
            self.lemma_value_view();
        }
        match &self.value {
            SymbolValue::Function { positive, .. } => Some(*positive),
            _ => None,
        }
    }

    /// Append the text of this symbol to `out`.
    fn write(&self, out: &mut String)
        ensures
            final(out)@ == old(out)@ + render(self@),
        decreases self,
    {
        proof {
            self.lemma_value_view();
        }
        match &self.value {
            SymbolValue::Infimum => {
                push_text(out, "#inf");
                proof {
                    reveal_strlit("#inf");
                }
            },
            SymbolValue::Supremum => {
                push_text(out, "#sup");
                proof {
                    reveal_strlit("#sup");
                }
            },
            SymbolValue::Number(n) => {
                write_i32(out, *n);
            },
            SymbolValue::String(s) => {
                push_char(out, '"');
                write_quoted(out, s.as_str());
                push_char(out, '"');
            },
            SymbolValue::Function { name, arguments, positive } => {
                let ghost args = self@->args;
                assert(args == terms(arguments@));
                if !*positive {
                    push_char(out, '-');
                }
                if arguments.len() == 0 {
                    if !name.as_str().is_empty() {
                        push_text(out, name.as_str());
                    } else {
                        push_char(out, '(');
                        push_char(out, ')');
                    }
                } else {
                    push_text(out, name.as_str());
                    push_char(out, '(');
                    let ghost start = out@;
                    let mut i: usize = 0;
                    while i < arguments.len()
                        invariant
                            i <= arguments@.len(),
                            args == terms(arguments@),
                            out@ == start + render_args(args.subrange(0, i as int)),
                            self.value == (SymbolValue::Function {
                                name: *name,
                                arguments: *arguments,
                                positive: *positive,
                            }),
                        decreases arguments@.len() - i,
                    {
                        let ghost sub = args.subrange(0, i + 1);
                        assert(sub.subrange(0, i as int) =~= args.subrange(0, i as int));
                        assert(sub[i as int] == arguments@[i as int]@);
                        if i > 0 {
                            push_char(out, ',');
                        } else {
                            assert(args.subrange(0, 0) =~= Seq::<Term>::empty());
                        }
                        proof {
                            assert(decreases_to!(*self => self.value));
                            assert(decreases_to!(self.value => self.value->Function_arguments));
                            assert(decreases_to!(self.value => *arguments));
                            assert(decreases_to!(*arguments => arguments@));
                            assert(decreases_to!(arguments@ => arguments@[i as int]));
                        }
                        arguments[i].write(out);
                        i = i + 1;
                    }
                    assert(args.subrange(0, arguments@.len() as int) =~= args);
                    if arguments.len() == 1 && name.as_str().is_empty() {
                        push_char(out, ',');
                    }
                    push_char(out, ')');
                }
            },
        }
        assert(final(out)@ =~= old(out)@ + render(self@));
    }

    /// The text of this symbol, as clingo prints it: `#inf`, `#sup`, the
    /// decimal number, the quoted string with `\n`, `\\` and `\"` escaped,
    /// or the function as `-name(arg,...)` (no sign when positive, no
    /// parentheses without arguments, `()` for an empty name, and a
    /// trailing comma for a tuple of one element).
    pub fn to_string_lossy(&self) -> (r: Result<String, ClingoError>)
        ensures
            r matches Ok(s) && s@ == render(self@),
    {
        let mut out = String::new();
        self.write(&mut out);
        assert(out@ =~= render(self@));
        Ok(out)
    }

    /// Break the symbol into its typed components.
    pub fn value(&self) -> (r: SymbolValue)
        ensures
            r@ == self@,
    {
        self.duplicate().into_value()
    }

    /// Break the symbol into its typed components, consuming it.
    pub(crate) fn into_value(self) -> (r: SymbolValue)
        ensures
            r@ == self@,
    {
        proof {
            self.lemma_value_view();
        }
        self.value
    }
}

/// Append the decimal notation of `n` to `out`.
fn write_i32(out: &mut String, n: i32)
    ensures
        final(out)@ == old(out)@ + int_text(n),
{
    if n < 0 {
        push_char(out, '-');
        let m: u32 = if n == i32::MIN {
            2147483648u32
        } else {
            (-n) as u32
        };
        push_decimal(out, m as usize);
        assert(final(out)@ =~= old(out)@ + int_text(n));
    } else {
        push_decimal(out, n as usize);
    }
}

/// Append the characters of `s`, each escaped, to `out`.
fn write_quoted(out: &mut String, s: &str)
    ensures
        final(out)@ == old(out)@ + quote(s@),
{
    let cs = crate::text::chars_of(s);
    let ghost start = out@;
    let mut i: usize = 0;
    while i < cs.len()
        invariant
            cs@ == s@,
            i <= cs@.len(),
            out@ == start + quote(cs@.subrange(0, i as int)),
        decreases cs@.len() - i,
    {
        let c = cs[i];
        assert(cs@.subrange(0, i + 1).drop_last() =~= cs@.subrange(0, i as int));
        if c == '\n' {
            push_char(out, '\\');
            push_char(out, 'n');
        } else if c == '\\' {
            push_char(out, '\\');
            push_char(out, '\\');
        } else if c == '"' {
            push_char(out, '\\');
            push_char(out, '"');
        } else {
            push_char(out, c);
        }
        assert(out@ =~= start + quote(cs@.subrange(0, i + 1)));
        i = i + 1;
    }
    assert(cs@.subrange(0, i as int) =~= s@);
}

/// Copies of a slice of symbols.
pub(crate) fn copy_all(s: &[Symbol]) -> (r: Vec<Symbol>)
    ensures
        terms(r@) == terms(s@),
{
    let mut out: Vec<Symbol> = Vec::new();
    let mut i: usize = 0;
    while i < s.len()
        invariant
            i <= s@.len(),
            out@.len() == i,
            forall|j: int| 0 <= j < i ==> #[trigger] out@[j]@ == s@[j]@,
        decreases s@.len() - i,
    {
        out.push(s[i].duplicate());
        i = i + 1;
    }
    assert(terms(out@) =~= terms(s@));
    out
}

impl Clone for Symbol {
    fn clone(&self) -> (r: Symbol)
        ensures
            r@ == self@,
    {
        self.duplicate()
    }
}

} // verus!
