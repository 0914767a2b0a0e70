use vstd::prelude::*;

use crate::naming::{snake_case, to_snake_case};
use crate::symbol::{terms, Symbol, Term};
use crate::text::{decimal, push_decimal, push_text};

verus! {

// Reading symbols into derived types.

/// Whether `t` is a positive function with this name and number of
/// arguments: the shape of a symbol that a struct of that predicate reads.
pub open spec fn is_struct_symbol(t: Term, name: Seq<char>, arity: nat) -> bool {
    &&& t is Function
    &&& t->positive
    &&& t->name == name
    &&& t->args.len() == arity
}

/// Whether the function term `t` has the name and number of arguments of
/// the variant `v`.
pub open spec fn matches_variant(t: Term, v: (String, usize)) -> bool {
    v.0@ == t->name && v.1 == t->args.len()
}

/// Whether the text of `a` equals the text of `b`.
fn same_text(a: &str, b: &str) -> (r: bool)
    ensures
        r == (a@ == b@),
{
    a.to_owned() == b.to_owned()
}

/// The arguments of `sym` when it is a positive function named `name` with
/// `arity` arguments; `None` otherwise.
pub fn struct_arguments(sym: &Symbol, name: &str, arity: usize) -> (r: Option<Vec<Symbol>>)
    ensures
        r is Some <==> is_struct_symbol(sym@, name@, arity as nat),
        r matches Some(v) ==> terms(v@) == sym@->args,
{
    match (sym.name(), sym.is_positive(), sym.arity()) {
        (Some(n), Some(true), Some(k)) => {
            if k == arity && same_text(n, name) {
                sym.arguments()
            } else {
                None
            }
        },
        _ => None,
    }
}

/// The first variant whose name and number of arguments `sym` has, with
/// the arguments of `sym`, when `sym` is a positive function; `None` when
/// it is not or no variant matches.
pub fn enum_variant(sym: &Symbol, variants: &Vec<(String, usize)>) -> (r: Option<(usize, Vec<Symbol>)>)
    ensures
        r is Some <==> (sym@ is Function && sym@->positive && exists|k: int|
            0 <= k < variants@.len() && #[trigger] matches_variant(sym@, variants@[k])),
        r matches Some((k, v)) ==> {
            &&& k < variants@.len()
            &&& matches_variant(sym@, variants@[k as int])
            &&& forall|j: int| 0 <= j < k ==> !#[trigger] matches_variant(sym@, variants@[j])
            &&& terms(v@) == sym@->args
        },
{
    match (sym.name(), sym.is_positive(), sym.arity()) {
        (Some(n), Some(true), Some(arity)) => {
            let mut k: usize = 0;
            while k < variants.len()
                invariant
                    sym@ is Function,
                    sym@->positive,
                    n@ == sym@->name,
                    arity == sym@->args.len(),
                    k <= variants@.len(),
                    forall|j: int| 0 <= j < k ==> !#[trigger] matches_variant(sym@, variants@[j]),
                decreases variants@.len() - k,
            {
                let v = &variants[k];
                if v.1 == arity && same_text(v.0.as_str(), n) {
                    assert(matches_variant(sym@, variants@[k as int]));
                    return match sym.arguments() {
                        Some(args) => Some((k, args)),
                        None => None,
                    };
                }
                k = k + 1;
            }
            None
        },
        _ => None,
    }
}

/// Reading back what a derived struct impl writes: the positive function
/// of the struct's name with the fields' symbols as arguments is a symbol of
/// that struct, and `struct_arguments` gives those arguments back.
pub proof fn lemma_struct_round_trip(name: Seq<char>, args: Seq<Term>)
    ensures
        is_struct_symbol(Term::Function { name, args, positive: true }, name, args.len()),
        (Term::Function { name, args, positive: true })->args == args,
{
}

/// No two variants have the same name and number of arguments.
pub open spec fn distinct_variants(vs: Seq<(String, usize)>) -> bool {
    forall|j: int, k: int|
        0 <= j < k < vs.len() ==> !(#[trigger] vs[j].0@ == #[trigger] vs[k].0@ && vs[j].1 == vs[k].1)
}

/// Reading back what a derived enum impl writes: when no two variants share
/// a name and number of arguments, the positive function of variant `k`'s
/// name with as many arguments as it has fields matches variant `k` and no
/// other, so `enum_variant` picks `k` and gives the arguments back.
pub proof fn lemma_enum_round_trip(vs: Seq<(String, usize)>, k: int, args: Seq<Term>)
    requires
        distinct_variants(vs),
        0 <= k < vs.len(),
        args.len() == vs[k].1,
    ensures
        matches_variant(Term::Function { name: vs[k].0@, args, positive: true }, vs[k]),
        forall|j: int|
            0 <= j < vs.len() && #[trigger] matches_variant(
                Term::Function { name: vs[k].0@, args, positive: true },
                vs[j],
            ) ==> j == k,
{
    let t = Term::Function { name: vs[k].0@, args, positive: true };
    assert forall|j: int|
        0 <= j < vs.len() && #[trigger] matches_variant(t, vs[j]) implies j == k by {
        if j < k {
            assert(!(vs[j].0@ == vs[k].0@ && vs[j].1 == vs[k].1));
        } else if k < j {
            assert(!(vs[k].0@ == vs[j].0@ && vs[k].1 == vs[j].1));
        }
    }
}

// The shape of a type, and the impl that is derived for it.

/// The fields of a struct or of an enum variant.
pub enum Fields {
    /// No fields.
    Unit,
    /// This many fields without names.
    Unnamed(usize),
    /// Fields with these names, in order.
    Named(Vec<String>),
}

/// The shape of a type that `Symbolic` is derived for.
pub enum Shape {
    /// A struct of this name with these fields.
    Struct { name: String, fields: Fields },
    /// An enum of this name with these variants, in order.
    Enum { name: String, variants: Vec<(String, Fields)> },
}

impl Fields {
    /// The number of fields.
    pub open spec fn count(&self) -> nat {
        match self {
            Fields::Unit => 0,
            Fields::Unnamed(k) => *k as nat,
            Fields::Named(ns) => ns@.len(),
        }
    }
}

/// `piece`, `n` times.
pub open spec fn repeat_text(n: nat, piece: Seq<char>) -> Seq<char>
    decreases n,
{
    if n == 0 {
        Seq::empty()
    } else {
        repeat_text((n - 1) as nat, piece) + piece
    }
}

/// `pre`, the index and `post`, for each index below `k`.
pub open spec fn index_list(k: nat, pre: Seq<char>, post: Seq<char>) -> Seq<char>
    decreases k,
{
    if k == 0 {
        Seq::empty()
    } else {
        index_list((k - 1) as nat, pre, post) + pre + decimal((k - 1) as nat) + post
    }
}

/// `pre`, the name and `post`, for each name of `ns`.
pub open spec fn name_list(ns: Seq<String>, pre: Seq<char>, post: Seq<char>) -> Seq<char>
    decreases ns.len(),
{
    if ns.len() == 0 {
        Seq::empty()
    } else {
        name_list(ns.drop_last(), pre, post) + pre + ns.last()@ + post
    }
}

/// The expression that builds the value at `path` from the arguments, read
/// one by one in the order of the fields.
pub open spec fn construct_text(path: Seq<char>, f: Fields) -> Seq<char> {
    match f {
        Fields::Unit => path,
        Fields::Unnamed(k) => path + "("@ + repeat_text(
            k as nat,
            "Symbolic::from_symbol(args.next()?)?, "@,
        ) + ")"@,
        Fields::Named(ns) => path + " { "@ + name_list(
            ns@,
            ""@,
            ": Symbolic::from_symbol(args.next()?)?, "@,
        ) + "}"@,
    }
}

/// The pattern that binds the fields of the variant at `path`: `f0`, `f1`,
/// ... for unnamed fields, the field names for named ones.
pub open spec fn pattern_text(path: Seq<char>, f: Fields) -> Seq<char> {
    match f {
        Fields::Unit => path,
        Fields::Unnamed(k) => path + "("@ + index_list(k as nat, "f"@, ", "@) + ")"@,
        Fields::Named(ns) => path + " { "@ + name_list(ns@, ""@, ", "@) + "}"@,
    }
}

/// The symbols of the fields of `self`, in order.
pub open spec fn struct_items(f: Fields) -> Seq<char> {
    match f {
        Fields::Unit => Seq::empty(),
        Fields::Unnamed(k) => index_list(k as nat, "self."@, ".to_symbol(), "@),
        Fields::Named(ns) => name_list(ns@, "self."@, ".to_symbol(), "@),
    }
}

/// The symbols of the fields that `pattern_text` binds, in order.
pub open spec fn bound_items(f: Fields) -> Seq<char> {
    match f {
        Fields::Unit => Seq::empty(),
        Fields::Unnamed(k) => index_list(k as nat, "f"@, ".to_symbol(), "@),
        Fields::Named(ns) => name_list(ns@, ""@, ".to_symbol(), "@),
    }
}

/// The expression that writes the positive function `func` with the
/// argument symbols `items`.
pub open spec fn symbol_text(func: Seq<char>, items: Seq<char>) -> Seq<char> {
    "clingo::Symbol::function(\""@ + func + "\", &["@ + items + "], true).unwrap()"@
}

/// The impl for a struct of this name and these fields: its predicate is
/// the snake-case form of the name, with one argument per field.
pub open spec fn struct_text(name: Seq<char>, f: Fields) -> Seq<char> {
    let func = snake_case(name);
    "#[allow(unused_mut, unused_variables)]\nimpl Symbolic for "@ + name
        + " {\n    fn from_symbol(sym: clingo::Symbol) -> Option<Self> {\n        let mut args = clingo::deriving::struct_arguments(&sym, \""@
        + func + "\", "@ + decimal(f.count()) + ")?.into_iter();\n        Some("@ + construct_text(
        name,
        f,
    ) + ")\n    }\n    fn to_symbol(&self) -> clingo::Symbol {\n        "@ + symbol_text(
        func,
        struct_items(f),
    ) + "\n    }\n}\n"@
}

/// The table of the variants' predicates: name and number of arguments.
pub open spec fn variant_entries(vs: Seq<(String, Fields)>) -> Seq<char>
    decreases vs.len(),
{
    if vs.len() == 0 {
        Seq::empty()
    } else {
        variant_entries(vs.drop_last()) + "(String::from(\""@ + snake_case(vs.last().0@) + "\"), "@
            + decimal(vs.last().1.count()) + "), "@
    }
}

/// The arms that build the variant of each index of the table.
pub open spec fn from_arms(name: Seq<char>, vs: Seq<(String, Fields)>) -> Seq<char>
    decreases vs.len(),
{
    if vs.len() == 0 {
        Seq::empty()
    } else {
        from_arms(name, vs.drop_last()) + "            "@ + decimal((vs.len() - 1) as nat)
            + " => Some("@ + construct_text(name + "::"@ + vs.last().0@, vs.last().1) + "),\n"@
    }
}

/// The arms that write each variant as its predicate.
pub open spec fn to_arms(name: Seq<char>, vs: Seq<(String, Fields)>) -> Seq<char>
    decreases vs.len(),
{
    if vs.len() == 0 {
        Seq::empty()
    } else {
        to_arms(name, vs.drop_last()) + "            "@ + pattern_text(
            name + "::"@ + vs.last().0@,
            vs.last().1,
        ) + " => "@ + symbol_text(snake_case(vs.last().0@), bound_items(vs.last().1)) + ",\n"@
    }
}

/// The impl for an enum of this name and these variants: each variant is
/// the predicate named by the snake-case form of the variant's name, with
/// one argument per field; a symbol reads as the first variant whose name
/// and number of arguments it has.
pub open spec fn enum_text(name: Seq<char>, vs: Seq<(String, Fields)>) -> Seq<char> {
    "#[allow(unused_mut, unused_variables)]\nimpl Symbolic for "@ + name
        + " {\n    fn from_symbol(sym: clingo::Symbol) -> Option<Self> {\n        let variants: Vec<(String, usize)> = vec!["@
        + variant_entries(vs)
        + "];\n        let (k, args) = clingo::deriving::enum_variant(&sym, &variants)?;\n        let mut args = args.into_iter();\n        match k {\n"@
        + from_arms(name, vs)
        + "            _ => None,\n        }\n    }\n    fn to_symbol(&self) -> clingo::Symbol {\n        match self {\n"@
        + to_arms(name, vs) + "        }\n    }\n}\n"@
}

/// The text of the `Symbolic` impl derived for a type of this shape.
pub open spec fn spec_derive_text(shape: Shape) -> Seq<char> {
    match shape {
        Shape::Struct { name, fields } => struct_text(name@, fields),
        Shape::Enum { name, variants } => enum_text(name@, variants@),
    }
}

/// The number of fields.
fn field_count(f: &Fields) -> (r: usize)
    ensures
        r == f.count(),
{
    match f {
        Fields::Unit => 0,
        Fields::Unnamed(k) => *k,
        Fields::Named(ns) => ns.len(),
    }
}

/// Append `piece`, `n` times.
fn write_repeat(out: &mut String, n: usize, piece: &str)
    ensures
        final(out)@ == old(out)@ + repeat_text(n as nat, piece@),
{
    let ghost start = out@;
    let mut i: usize = 0;
    while i < n
        invariant
            i <= n,
            out@ == start + repeat_text(i as nat, piece@),
        decreases n - i,
    {
        push_text(out, piece);
        i = i + 1;
        assert(out@ =~= start + repeat_text(i as nat, piece@));
    }
}

/// Append `pre`, the index and `post`, for each index below `k`.
fn write_index_list(out: &mut String, k: usize, pre: &str, post: &str)
    ensures
        final(out)@ == old(out)@ + index_list(k as nat, pre@, post@),
{
    let ghost start = out@;
    let mut i: usize = 0;
    while i < k
        invariant
            i <= k,
            out@ == start + index_list(i as nat, pre@, post@),
        decreases k - i,
    {
        push_text(out, pre);
        push_decimal(out, i);
        push_text(out, post);
        i = i + 1;
        assert(out@ =~= start + index_list(i as nat, pre@, post@));
    }
}

/// Append `pre`, the name and `post`, for each name of `ns`.
fn write_name_list(out: &mut String, ns: &Vec<String>, pre: &str, post: &str)
    ensures
        final(out)@ == old(out)@ + name_list(ns@, pre@, post@),
{
    let ghost start = out@;
    let mut i: usize = 0;
    while i < ns.len()
        invariant
            i <= ns@.len(),
            out@ == start + name_list(ns@.subrange(0, i as int), pre@, post@),
        decreases ns@.len() - i,
    {
        assert(ns@.subrange(0, i + 1).drop_last() =~= ns@.subrange(0, i as int));
        push_text(out, pre);
        push_text(out, ns[i].as_str());
        push_text(out, post);
        i = i + 1;
        assert(out@ =~= start + name_list(ns@.subrange(0, i as int), pre@, post@));
    }
    assert(ns@.subrange(0, i as int) =~= ns@);
}

/// Append the expression that builds the value at `path`.
fn write_construct(out: &mut String, path: &str, f: &Fields)
    ensures
        final(out)@ == old(out)@ + construct_text(path@, *f),
{
    push_text(out, path);
    match f {
        Fields::Unit => {},
        Fields::Unnamed(k) => {
            push_text(out, "(");
            write_repeat(out, *k, "Symbolic::from_symbol(args.next()?)?, ");
            push_text(out, ")");
        },
        Fields::Named(ns) => {
            push_text(out, " { ");
            write_name_list(out, ns, "", ": Symbolic::from_symbol(args.next()?)?, ");
            push_text(out, "}");
        },
    }
    assert(final(out)@ =~= old(out)@ + construct_text(path@, *f));
}

/// Append the pattern that binds the fields of the variant at `path`.
fn write_pattern(out: &mut String, path: &str, f: &Fields)
    ensures
        final(out)@ == old(out)@ + pattern_text(path@, *f),
{
    push_text(out, path);
    match f {
        Fields::Unit => {},
        Fields::Unnamed(k) => {
            push_text(out, "(");
            write_index_list(out, *k, "f", ", ");
            push_text(out, ")");
        },
        Fields::Named(ns) => {
            push_text(out, " { ");
            write_name_list(out, ns, "", ", ");
            push_text(out, "}");
        },
    }
    assert(final(out)@ =~= old(out)@ + pattern_text(path@, *f));
}

/// The symbols of the fields of `self`.
fn struct_items_of(f: &Fields) -> (r: String)
    ensures
        r@ == struct_items(*f),
{
    let mut out = String::new();
    match f {
        Fields::Unit => {},
        Fields::Unnamed(k) => write_index_list(&mut out, *k, "self.", ".to_symbol(), "),
        Fields::Named(ns) => write_name_list(&mut out, ns, "self.", ".to_symbol(), "),
    }
    assert(out@ =~= struct_items(*f));
    out
}

/// The symbols of the fields that the pattern binds.
fn bound_items_of(f: &Fields) -> (r: String)
    ensures
        r@ == bound_items(*f),
{
    let mut out = String::new();
    match f {
        Fields::Unit => {},
        Fields::Unnamed(k) => write_index_list(&mut out, *k, "f", ".to_symbol(), "),
        Fields::Named(ns) => write_name_list(&mut out, ns, "", ".to_symbol(), "),
    }
    assert(out@ =~= bound_items(*f));
    out
}

/// Append the expression that writes the function `func` with `items`.
fn write_symbol(out: &mut String, func: &str, items: &str)
    ensures
        final(out)@ == old(out)@ + symbol_text(func@, items@),
{
    push_text(out, "clingo::Symbol::function(\"");
    push_text(out, func);
    push_text(out, "\", &[");
    push_text(out, items);
    push_text(out, "], true).unwrap()");
    assert(final(out)@ =~= old(out)@ + symbol_text(func@, items@));
}

/// The path `name::variant`.
fn variant_path(name: &str, variant: &str) -> (r: String)
    ensures
        r@ == name@ + "::"@ + variant@,
{
    let mut out = String::new();
    push_text(&mut out, name);
    push_text(&mut out, "::");
    push_text(&mut out, variant);
    assert(out@ =~= name@ + "::"@ + variant@);
    out
}

/// The impl for a struct.
fn struct_derive(name: &str, f: &Fields) -> (r: String)
    ensures
        r@ == struct_text(name@, *f),
{
    let func = to_snake_case(name);
    let items = struct_items_of(f);
    let mut out = String::new();
    push_text(&mut out, "#[allow(unused_mut, unused_variables)]\nimpl Symbolic for ");
    push_text(&mut out, name);
    push_text(
        &mut out,
        " {\n    fn from_symbol(sym: clingo::Symbol) -> Option<Self> {\n        let mut args = clingo::deriving::struct_arguments(&sym, \"",
    );
    push_text(&mut out, func.as_str());
    push_text(&mut out, "\", ");
    push_decimal(&mut out, field_count(f));
    push_text(&mut out, ")?.into_iter();\n        Some(");
    write_construct(&mut out, name, f);
    push_text(&mut out, ")\n    }\n    fn to_symbol(&self) -> clingo::Symbol {\n        ");
    write_symbol(&mut out, func.as_str(), items.as_str());
    push_text(&mut out, "\n    }\n}\n");
    assert(out@ =~= struct_text(name@, *f));
    out
}

/// Append the table of the variants' predicates.
fn write_variant_entries(out: &mut String, vs: &Vec<(String, Fields)>)
    ensures
        final(out)@ == old(out)@ + variant_entries(vs@),
{
    let ghost start = out@;
    let mut i: usize = 0;
    while i < vs.len()
        invariant
            i <= vs@.len(),
            out@ == start + variant_entries(vs@.subrange(0, i as int)),
        decreases vs@.len() - i,
    {
        let ghost sub = vs@.subrange(0, i + 1);
        assert(sub.drop_last() =~= vs@.subrange(0, i as int));
        assert(sub.last() == vs@[i as int]);
        let v = &vs[i];
        let func = to_snake_case(v.0.as_str());
        push_text(out, "(String::from(\"");
        push_text(out, func.as_str());
        push_text(out, "\"), ");
        push_decimal(out, field_count(&v.1));
        push_text(out, "), ");
        i = i + 1;
        assert(out@ =~= start + variant_entries(vs@.subrange(0, i as int)));
    }
    assert(vs@.subrange(0, i as int) =~= vs@);
}

/// Append the arms that build each variant.
fn write_from_arms(out: &mut String, name: &str, vs: &Vec<(String, Fields)>)
    ensures
        final(out)@ == old(out)@ + from_arms(name@, vs@),
{
    let ghost start = out@;
    let mut i: usize = 0;
    while i < vs.len()
        invariant
            i <= vs@.len(),
            out@ == start + from_arms(name@, vs@.subrange(0, i as int)),
        decreases vs@.len() - i,
    {
        let ghost sub = vs@.subrange(0, i + 1);
        assert(sub.drop_last() =~= vs@.subrange(0, i as int));
        assert(sub.last() == vs@[i as int]);
        let v = &vs[i];
        let path = variant_path(name, v.0.as_str());
        push_text(out, "            ");
        push_decimal(out, i);
        push_text(out, " => Some(");
        write_construct(out, path.as_str(), &v.1);
        push_text(out, "),\n");
        i = i + 1;
        assert(out@ =~= start + from_arms(name@, vs@.subrange(0, i as int)));
    }
    assert(vs@.subrange(0, i as int) =~= vs@);
}

/// Append the arms that write each variant.
fn write_to_arms(out: &mut String, name: &str, vs: &Vec<(String, Fields)>)
    ensures
        final(out)@ == old(out)@ + to_arms(name@, vs@),
{
    let ghost start = out@;
    let mut i: usize = 0;
    while i < vs.len()
        invariant
            i <= vs@.len(),
            out@ == start + to_arms(name@, vs@.subrange(0, i as int)),
        decreases vs@.len() - i,
    {
        let ghost sub = vs@.subrange(0, i + 1);
        assert(sub.drop_last() =~= vs@.subrange(0, i as int));
        assert(sub.last() == vs@[i as int]);
        let v = &vs[i];
        let path = variant_path(name, v.0.as_str());
        let func = to_snake_case(v.0.as_str());
        let items = bound_items_of(&v.1);
        push_text(out, "            ");
        write_pattern(out, path.as_str(), &v.1);
        push_text(out, " => ");
        write_symbol(out, func.as_str(), items.as_str());
        push_text(out, ",\n");
        i = i + 1;
        assert(out@ =~= start + to_arms(name@, vs@.subrange(0, i as int)));
    }
    assert(vs@.subrange(0, i as int) =~= vs@);
}

/// The impl for an enum.
fn enum_derive(name: &str, vs: &Vec<(String, Fields)>) -> (r: String)
    ensures
        r@ == enum_text(name@, vs@),
{
    let mut out = String::new();
    push_text(&mut out, "#[allow(unused_mut, unused_variables)]\nimpl Symbolic for ");
    push_text(&mut out, name);
    push_text(
        &mut out,
        " {\n    fn from_symbol(sym: clingo::Symbol) -> Option<Self> {\n        let variants: Vec<(String, usize)> = vec![",
    );
    write_variant_entries(&mut out, vs);
    push_text(
        &mut out,
        "];\n        let (k, args) = clingo::deriving::enum_variant(&sym, &variants)?;\n        let mut args = args.into_iter();\n        match k {\n",
    );
    write_from_arms(&mut out, name, vs);
    push_text(
        &mut out,
        "            _ => None,\n        }\n    }\n    fn to_symbol(&self) -> clingo::Symbol {\n        match self {\n",
    );
    write_to_arms(&mut out, name, vs);
    push_text(&mut out, "        }\n    }\n}\n");
    assert(out@ =~= enum_text(name@, vs@));
    out
}

/// The text of the `Symbolic` impl derived for a type of this shape.
pub fn derive_text(shape: &Shape) -> (r: String)
    ensures
        r@ == spec_derive_text(*shape),
{
    match shape {
        Shape::Struct { name, fields } => struct_derive(name.as_str(), fields),
        Shape::Enum { name, variants } => enum_derive(name.as_str(), variants),
    }
}


// What the derived impl writes for each field and variant.

/// The pieces, each followed by `sep`.
pub open spec fn each_followed(pieces: Seq<Seq<char>>, sep: Seq<char>) -> Seq<char>
    decreases pieces.len(),
{
    if pieces.len() == 0 {
        Seq::empty()
    } else {
        each_followed(pieces.drop_last(), sep) + pieces.last() + sep
    }
}

/// The variable that the pattern of a variant binds for field `i`: `f0`,
/// `f1`, ... for fields without names, the field's name otherwise.
pub open spec fn bound_var(f: Fields, i: int) -> Seq<char> {
    match f {
        Fields::Unit => Seq::empty(),
        Fields::Unnamed(_) => "f"@ + decimal(i as nat),
        Fields::Named(ns) => ns@[i]@,
    }
}

/// How `self.` reaches field `i`: its index for fields without names, its
/// name otherwise.
pub open spec fn field_access(f: Fields, i: int) -> Seq<char> {
    match f {
        Fields::Unit => Seq::empty(),
        Fields::Unnamed(_) => decimal(i as nat),
        Fields::Named(ns) => ns@[i]@,
    }
}

proof fn lemma_each_followed_eq(a: Seq<Seq<char>>, b: Seq<Seq<char>>, sep: Seq<char>)
    requires
        a =~= b,
    ensures
        each_followed(a, sep) == each_followed(b, sep),
{
}

proof fn lemma_index_list_each(k: nat, pre: Seq<char>, mid: Seq<char>, sep: Seq<char>)
    ensures
        index_list(k, pre, mid + sep) == each_followed(
            Seq::new(k, |i: int| pre + decimal(i as nat) + mid),
            sep,
        ),
    decreases k,
{
    if k > 0 {
        lemma_index_list_each((k - 1) as nat, pre, mid, sep);
        let ps = Seq::new(k, |i: int| pre + decimal(i as nat) + mid);
        assert(ps.drop_last() =~= Seq::new((k - 1) as nat, |i: int| pre + decimal(i as nat) + mid));
        assert(index_list(k, pre, mid + sep) =~= each_followed(ps, sep));
    }
}

proof fn lemma_name_list_each(ns: Seq<String>, pre: Seq<char>, mid: Seq<char>, sep: Seq<char>)
    ensures
        name_list(ns, pre, mid + sep) == each_followed(
            Seq::new(ns.len(), |i: int| pre + ns[i]@ + mid),
            sep,
        ),
    decreases ns.len(),
{
    if ns.len() > 0 {
        let init = ns.drop_last();
        lemma_name_list_each(init, pre, mid, sep);
        let ps = Seq::new(ns.len(), |i: int| pre + ns[i]@ + mid);
        assert(ps.drop_last() =~= Seq::new(init.len(), |i: int| pre + init[i]@ + mid));
        assert(name_list(ns, pre, mid + sep) =~= each_followed(ps, sep));
    }
}

proof fn lemma_repeat_each(n: nat, piece: Seq<char>, sep: Seq<char>)
    ensures
        repeat_text(n, piece + sep) == each_followed(Seq::new(n, |i: int| piece), sep),
    decreases n,
{
    if n > 0 {
        lemma_repeat_each((n - 1) as nat, piece, sep);
        let ps = Seq::new(n, |i: int| piece);
        assert(ps.drop_last() =~= Seq::new((n - 1) as nat, |i: int| piece));
        assert(repeat_text(n, piece + sep) =~= each_followed(ps, sep));
    }
}

/// The derived `to_symbol` of a variant binds one variable per field, in
/// field order, and writes one argument per field: the symbol of the
/// variable bound for that field.
pub proof fn lemma_variant_written(path: Seq<char>, f: Fields)
    ensures
        bound_items(f) == each_followed(
            Seq::new(f.count(), |i: int| bound_var(f, i) + ".to_symbol()"@),
            ", "@,
        ),
        f is Unnamed ==> pattern_text(path, f) == path + "("@ + each_followed(
            Seq::new(f.count(), |i: int| bound_var(f, i)),
            ", "@,
        ) + ")"@,
        f is Named ==> pattern_text(path, f) == path + " { "@ + each_followed(
            Seq::new(f.count(), |i: int| bound_var(f, i)),
            ", "@,
        ) + "}"@,
        f is Unit ==> pattern_text(path, f) == path && bound_items(f).len() == 0,
{
    reveal_strlit(".to_symbol(), ");
    reveal_strlit(".to_symbol()");
    reveal_strlit(", ");
    reveal_strlit("");
    reveal_strlit("f");
    assert(".to_symbol(), "@ =~= ".to_symbol()"@ + ", "@);
    assert(", "@ =~= ""@ + ", "@);
    match f {
        Fields::Unit => {
            assert(each_followed(Seq::new(0, |i: int| bound_var(f, i) + ".to_symbol()"@), ", "@)
                =~= Seq::<char>::empty());
        },
        Fields::Unnamed(k) => {
            lemma_index_list_each(k as nat, "f"@, ".to_symbol()"@, ", "@);
            lemma_index_list_each(k as nat, "f"@, ""@, ", "@);
            lemma_each_followed_eq(
                Seq::new(k as nat, |i: int| "f"@ + decimal(i as nat) + ".to_symbol()"@),
                Seq::new(f.count(), |i: int| bound_var(f, i) + ".to_symbol()"@),
                ", "@,
            );
            lemma_each_followed_eq(
                Seq::new(k as nat, |i: int| "f"@ + decimal(i as nat) + ""@),
                Seq::new(f.count(), |i: int| bound_var(f, i)),
                ", "@,
            );
        },
        Fields::Named(ns) => {
            lemma_name_list_each(ns@, ""@, ".to_symbol()"@, ", "@);
            lemma_name_list_each(ns@, ""@, ""@, ", "@);
            lemma_each_followed_eq(
                Seq::new(ns@.len(), |i: int| ""@ + ns@[i]@ + ".to_symbol()"@),
                Seq::new(f.count(), |i: int| bound_var(f, i) + ".to_symbol()"@),
                ", "@,
            );
            lemma_each_followed_eq(
                Seq::new(ns@.len(), |i: int| ""@ + ns@[i]@ + ""@),
                Seq::new(f.count(), |i: int| bound_var(f, i)),
                ", "@,
            );
        },
    }
}

/// The derived `to_symbol` of a struct writes one argument per field, in
/// field order: the symbol of that field of `self`.
pub proof fn lemma_struct_written(f: Fields)
    ensures
        struct_items(f) == each_followed(
            Seq::new(f.count(), |i: int| "self."@ + field_access(f, i) + ".to_symbol()"@),
            ", "@,
        ),
{
    reveal_strlit(".to_symbol(), ");
    reveal_strlit(".to_symbol()");
    reveal_strlit(", ");
    assert(".to_symbol(), "@ =~= ".to_symbol()"@ + ", "@);
    match f {
        Fields::Unit => {
            assert(each_followed(
                Seq::new(0, |i: int| "self."@ + field_access(f, i) + ".to_symbol()"@),
                ", "@,
            ) =~= Seq::<char>::empty());
        },
        Fields::Unnamed(k) => {
            lemma_index_list_each(k as nat, "self."@, ".to_symbol()"@, ", "@);
            lemma_each_followed_eq(
                Seq::new(k as nat, |i: int| "self."@ + decimal(i as nat) + ".to_symbol()"@),
                Seq::new(f.count(), |i: int| "self."@ + field_access(f, i) + ".to_symbol()"@),
                ", "@,
            );
        },
        Fields::Named(ns) => {
            lemma_name_list_each(ns@, "self."@, ".to_symbol()"@, ", "@);
            lemma_each_followed_eq(
                Seq::new(ns@.len(), |i: int| "self."@ + ns@[i]@ + ".to_symbol()"@),
                Seq::new(f.count(), |i: int| "self."@ + field_access(f, i) + ".to_symbol()"@),
                ", "@,
            );
        },
    }
}

/// The derived `from_symbol` builds the value from one argument per field,
/// read in field order.
pub proof fn lemma_value_read(path: Seq<char>, f: Fields)
    ensures
        f is Unit ==> construct_text(path, f) == path,
        f is Unnamed ==> construct_text(path, f) == path + "("@ + each_followed(
            Seq::new(f.count(), |i: int| "Symbolic::from_symbol(args.next()?)?"@),
            ", "@,
        ) + ")"@,
        f is Named ==> construct_text(path, f) == path + " { "@ + each_followed(
            Seq::new(
                f.count(),
                |i: int| f->Named_0@[i]@ + ": Symbolic::from_symbol(args.next()?)?"@,
            ),
            ", "@,
        ) + "}"@,
{
    reveal_strlit("Symbolic::from_symbol(args.next()?)?, ");
    reveal_strlit("Symbolic::from_symbol(args.next()?)?");
    reveal_strlit(": Symbolic::from_symbol(args.next()?)?, ");
    reveal_strlit(": Symbolic::from_symbol(args.next()?)?");
    reveal_strlit(", ");
    reveal_strlit("");
    assert("Symbolic::from_symbol(args.next()?)?, "@ =~= "Symbolic::from_symbol(args.next()?)?"@
        + ", "@);
    assert(": Symbolic::from_symbol(args.next()?)?, "@ =~= ": Symbolic::from_symbol(args.next()?)?"@
        + ", "@);
    match f {
        Fields::Unit => {},
        Fields::Unnamed(k) => {
            lemma_repeat_each(k as nat, "Symbolic::from_symbol(args.next()?)?"@, ", "@);
        },
        Fields::Named(ns) => {
            lemma_name_list_each(ns@, ""@, ": Symbolic::from_symbol(args.next()?)?"@, ", "@);
            lemma_each_followed_eq(
                Seq::new(ns@.len(), |i: int| ""@ + ns@[i]@ + ": Symbolic::from_symbol(args.next()?)?"@),
                Seq::new(
                    f.count(),
                    |i: int| f->Named_0@[i]@ + ": Symbolic::from_symbol(args.next()?)?"@,
                ),
                ", "@,
            );
        },
    }
}

/// The entry of the derived variant table for a variant: the snake-case
/// form of its name and its number of fields.
pub open spec fn table_entry(v: (String, Fields)) -> Seq<char> {
    "(String::from(\""@ + snake_case(v.0@) + "\"), "@ + decimal(v.1.count()) + ")"@
}

/// The variant table of a derived enum has one entry per variant, in
/// order, giving the variant's predicate name and as many arguments as the
/// variant has fields; so the symbol that the derived `to_symbol` writes
/// for a variant matches that variant's entry (see `lemma_enum_round_trip`).
pub proof fn lemma_variant_table(vs: Seq<(String, Fields)>)
    ensures
        variant_entries(vs) == each_followed(Seq::new(vs.len(), |k: int| table_entry(vs[k])), ", "@),
    decreases vs.len(),
{
    reveal_strlit("), ");
    reveal_strlit(")");
    reveal_strlit(", ");
    assert("), "@ =~= ")"@ + ", "@);
    let es = Seq::new(vs.len(), |k: int| table_entry(vs[k]));
    if vs.len() > 0 {
        let init = vs.drop_last();
        lemma_variant_table(init);
        assert(es.drop_last() =~= Seq::new(init.len(), |k: int| table_entry(init[k])));
        assert(variant_entries(vs) =~= each_followed(es, ", "@));
    } else {
        assert(variant_entries(vs) =~= each_followed(es, ", "@));
    }
}


/// The arm of the derived `from_symbol` for variant `k`: table index `k`
/// builds variant `k` from its fields.
pub open spec fn read_arm(name: Seq<char>, vs: Seq<(String, Fields)>, k: int) -> Seq<char> {
    "            "@ + decimal(k as nat) + " => Some("@ + construct_text(name + "::"@ + vs[k].0@, vs[k].1)
        + ")"@
}

/// The arm of the derived `to_symbol` for variant `k`: it writes the
/// positive function named by the snake-case form of the variant's name,
/// with the symbols of the fields it binds.
pub open spec fn write_arm(name: Seq<char>, vs: Seq<(String, Fields)>, k: int) -> Seq<char> {
    "            "@ + pattern_text(name + "::"@ + vs[k].0@, vs[k].1) + " => "@ + symbol_text(
        snake_case(vs[k].0@),
        bound_items(vs[k].1),
    )
}

/// The derived `from_symbol` of an enum has one arm per variant, in order,
/// and the arm for table index `k` builds variant `k`; the derived
/// `to_symbol` has one arm per variant, in order, writing that variant's
/// predicate. With `lemma_variant_table`, the entry, the reading arm and
/// the writing arm of each variant agree on its index, name and arity.
pub proof fn lemma_enum_arms(name: Seq<char>, vs: Seq<(String, Fields)>)
    ensures
        from_arms(name, vs) == each_followed(
            Seq::new(vs.len(), |k: int| read_arm(name, vs, k)),
            ",\n"@,
        ),
        to_arms(name, vs) == each_followed(
            Seq::new(vs.len(), |k: int| write_arm(name, vs, k)),
            ",\n"@,
        ),
    decreases vs.len(),
{
    reveal_strlit("),\n");
    reveal_strlit(")");
    reveal_strlit(",\n");
    assert("),\n"@ =~= ")"@ + ",\n"@);
    let rs = Seq::new(vs.len(), |k: int| read_arm(name, vs, k));
    let ws = Seq::new(vs.len(), |k: int| write_arm(name, vs, k));
    if vs.len() > 0 {
        let init = vs.drop_last();
        lemma_enum_arms(name, init);
        assert(rs.drop_last() =~= Seq::new(init.len(), |k: int| read_arm(name, init, k)));
        assert(ws.drop_last() =~= Seq::new(init.len(), |k: int| write_arm(name, init, k)));
        assert(from_arms(name, vs) =~= each_followed(rs, ",\n"@));
        assert(to_arms(name, vs) =~= each_followed(ws, ",\n"@));
    } else {
        assert(from_arms(name, vs) =~= each_followed(rs, ",\n"@));
        assert(to_arms(name, vs) =~= each_followed(ws, ",\n"@));
    }
}

} // verus!
