use vstd::prelude::*;

use crate::text::{chars_of, push_char};

verus! {

/// Whether `c` has the Unicode `Uppercase` property (`char::is_uppercase`).
pub uninterp spec fn spec_is_uppercase(c: char) -> bool;

/// The first character of the lowercase mapping of `c` (the first item of
/// `char::to_lowercase`).
pub uninterp spec fn spec_lowercase(c: char) -> char;

/// Whether `c` is an ASCII character.
pub open spec fn is_ascii_char(c: char) -> bool {
    (c as u32) < 128
}

/// Whether `c` is one of the ASCII letters `A` to `Z`.
pub open spec fn is_ascii_upper(c: char) -> bool {
    65 <= (c as u32) <= 90
}

/// The ASCII lowercase form of `c`: `A` to `Z` become `a` to `z`, every
/// other character stays.
pub open spec fn ascii_lower(c: char) -> char {
    if is_ascii_upper(c) {
        ((c as u32) + 32) as char
    } else {
        c
    }
}

/// Whether `c` has the Unicode `Uppercase` property (`char::is_uppercase`).
/// Among ASCII characters exactly `A` to `Z` have it.
#[verifier::external_body]
fn is_uppercase(c: char) -> (r: bool)
    ensures
        r == spec_is_uppercase(c),
        is_ascii_char(c) ==> (r <==> is_ascii_upper(c)),
{
    c.is_uppercase()
}

/// The first character of the lowercase mapping of `c` (the first item of
/// `char::to_lowercase`, which yields `c` itself when it has no lowercase
/// mapping). Among ASCII characters only `A` to `Z` have one: `a` to `z`.
#[verifier::external_body]
fn lowercase(c: char) -> (r: char)
    ensures
        r == spec_lowercase(c),
        is_ascii_char(c) ==> r == ascii_lower(c),
{
    c.to_lowercase().next().unwrap()
}

/// The snake-case form of the characters `cs`, given for each of them
/// whether it is uppercase and its lowercase form: every uppercase character
/// is replaced by its lowercase form, preceded by `_` unless it is the first
/// character.
pub open spec fn snake_case_with(cs: Seq<char>, upper: Seq<bool>, lower: Seq<char>) -> Seq<char>
    decreases cs.len(),
{
    if cs.len() == 0 {
        Seq::empty()
    } else {
        let prev = snake_case_with(cs.drop_last(), upper.drop_last(), lower.drop_last());
        let i = cs.len() - 1;
        if upper[i] {
            if i > 0 {
                prev.push('_').push(lower[i])
            } else {
                prev.push(lower[i])
            }
        } else {
            prev.push(cs[i])
        }
    }
}

/// The snake-case form of an identifier.
pub open spec fn snake_case(s: Seq<char>) -> Seq<char> {
    snake_case_with(
        s,
        Seq::new(s.len(), |i: int| spec_is_uppercase(s[i])),
        Seq::new(s.len(), |i: int| spec_lowercase(s[i])),
    )
}

/// The snake-case form of the characters `cs`, given for each of them
/// whether it is uppercase and its lowercase form.
pub fn snake_case_from(cs: &Vec<char>, upper: &Vec<bool>, lower: &Vec<char>) -> (r: String)
    requires
        upper@.len() == cs@.len(),
        lower@.len() == cs@.len(),
    ensures
        r@ == snake_case_with(cs@, upper@, lower@),
{
    let mut result = String::new();
    let mut i: usize = 0;
    while i < cs.len()
        invariant
            upper@.len() == cs@.len(),
            lower@.len() == cs@.len(),
            i <= cs@.len(),
            result@ == snake_case_with(
                cs@.subrange(0, i as int),
                upper@.subrange(0, i as int),
                lower@.subrange(0, i as int),
            ),
        decreases cs@.len() - i,
    {
        assert(cs@.subrange(0, i + 1).drop_last() =~= cs@.subrange(0, i as int));
        assert(upper@.subrange(0, i + 1).drop_last() =~= upper@.subrange(0, i as int));
        assert(lower@.subrange(0, i + 1).drop_last() =~= lower@.subrange(0, i as int));
        if upper[i] {
            if i > 0 {
                push_char(&mut result, '_');
            }
            push_char(&mut result, lower[i]);
        } else {
            push_char(&mut result, cs[i]);
        }
        i = i + 1;
    }
    assert(cs@.subrange(0, i as int) =~= cs@);
    assert(upper@.subrange(0, i as int) =~= upper@);
    assert(lower@.subrange(0, i as int) =~= lower@);
    result
}

/// The snake-case form of an ASCII identifier.
pub open spec fn ascii_snake_case(s: Seq<char>) -> Seq<char> {
    snake_case_with(
        s,
        Seq::new(s.len(), |i: int| is_ascii_upper(s[i])),
        Seq::new(s.len(), |i: int| ascii_lower(s[i])),
    )
}

/// Convert a PascalCase identifier to snake_case (`MyPred` becomes
/// `my_pred`): the predicate name of a type of that name.
pub fn to_snake_case(s: &str) -> (r: String)
    ensures
        r@ == snake_case(s@),
        (forall|i: int| 0 <= i < s@.len() ==> is_ascii_char(#[trigger] s@[i])) ==> r@
            == ascii_snake_case(s@),
{
    let cs = chars_of(s);
    let mut upper: Vec<bool> = Vec::new();
    let mut lower: Vec<char> = Vec::new();
    let mut i: usize = 0;
    while i < cs.len()
        invariant
            cs@ == s@,
            i <= cs@.len(),
            upper@.len() == i,
            lower@.len() == i,
            forall|j: int| 0 <= j < i ==> #[trigger] upper@[j] == spec_is_uppercase(cs@[j]),
            forall|j: int| 0 <= j < i ==> #[trigger] lower@[j] == spec_lowercase(cs@[j]),
            forall|j: int|
                0 <= j < i && is_ascii_char(cs@[j]) ==> (#[trigger] upper@[j] <==> is_ascii_upper(
                    cs@[j],
                )),
            forall|j: int|
                0 <= j < i && is_ascii_char(cs@[j]) ==> #[trigger] lower@[j] == ascii_lower(cs@[j]),
        decreases cs@.len() - i,
    {
        upper.push(is_uppercase(cs[i]));
        lower.push(lowercase(cs[i]));
        i = i + 1;
    }
    assert(upper@ =~= Seq::new(s@.len(), |j: int| spec_is_uppercase(s@[j])));
    assert(lower@ =~= Seq::new(s@.len(), |j: int| spec_lowercase(s@[j])));
    proof {
        if forall|j: int| 0 <= j < s@.len() ==> is_ascii_char(#[trigger] s@[j]) {
            assert(upper@ =~= Seq::new(s@.len(), |j: int| is_ascii_upper(s@[j])));
            assert(lower@ =~= Seq::new(s@.len(), |j: int| ascii_lower(s@[j])));
        }
    }
    snake_case_from(&cs, &upper, &lower)
}


/// Whether every character of `s` is ASCII.
pub open spec fn is_ascii_text(s: Seq<char>) -> bool {
    forall|i: int| 0 <= i < s.len() ==> is_ascii_char(#[trigger] s[i])
}

/// Whether no character of `s` is one of `A` to `Z`.
pub open spec fn has_no_ascii_upper(s: Seq<char>) -> bool {
    forall|i: int| 0 <= i < s.len() ==> !is_ascii_upper(#[trigger] s[i])
}

/// The number of characters of `s` after the first that are `A` to `Z`.
pub open spec fn inner_capitals(s: Seq<char>) -> nat
    decreases s.len(),
{
    if s.len() == 0 {
        0
    } else {
        inner_capitals(s.drop_last()) + if s.len() > 1 && is_ascii_upper(s.last()) {
            1nat
        } else {
            0nat
        }
    }
}

/// The snake-case form of a nonempty ASCII identifier extends that of the
/// identifier without its last character by what the last character becomes.
proof fn lemma_ascii_snake_step(s: Seq<char>)
    requires
        s.len() > 0,
    ensures
        ascii_snake_case(s) == {
            let prev = ascii_snake_case(s.drop_last());
            let c = s.last();
            if is_ascii_upper(c) {
                if s.len() > 1 {
                    prev.push('_').push(ascii_lower(c))
                } else {
                    prev.push(ascii_lower(c))
                }
            } else {
                prev.push(c)
            }
        },
{
    let init = s.drop_last();
    assert(Seq::new(s.len(), |i: int| is_ascii_upper(s[i])).drop_last() =~= Seq::new(
        init.len(),
        |i: int| is_ascii_upper(init[i]),
    ));
    assert(Seq::new(s.len(), |i: int| ascii_lower(s[i])).drop_last() =~= Seq::new(
        init.len(),
        |i: int| ascii_lower(init[i]),
    ));
}

/// The lowercase form of an ASCII capital is an ASCII character that is no
/// capital.
proof fn lemma_ascii_lower(c: char)
    requires
        is_ascii_char(c),
    ensures
        is_ascii_char(ascii_lower(c)),
        !is_ascii_upper(ascii_lower(c)),
        !is_ascii_upper(c) ==> ascii_lower(c) == c,
{
    if is_ascii_upper(c) {
        let x: u32 = ((c as u32) + 32) as u32;
        assert(97 <= x <= 122);
        assert(((x as char) as u32) == x);
    }
}

/// An ASCII identifier without capitals is its own snake-case form.
pub proof fn lemma_ascii_snake_case_fixed(s: Seq<char>)
    requires
        is_ascii_text(s),
        has_no_ascii_upper(s),
    ensures
        ascii_snake_case(s) == s,
    decreases s.len(),
{
    if s.len() > 0 {
        lemma_ascii_snake_case_fixed(s.drop_last());
        lemma_ascii_snake_step(s);
        assert(!is_ascii_upper(s[s.len() - 1]));
        assert(s.drop_last().push(s.last()) =~= s);
    } else {
        assert(ascii_snake_case(s) =~= s);
    }
}

/// The snake-case form of an ASCII identifier is ASCII and has no capitals;
/// it is one character longer than the identifier for each capital after
/// the first character; and it is its own snake-case form.
pub proof fn lemma_ascii_snake_case_laws(s: Seq<char>)
    requires
        is_ascii_text(s),
    ensures
        is_ascii_text(ascii_snake_case(s)),
        has_no_ascii_upper(ascii_snake_case(s)),
        ascii_snake_case(s).len() == s.len() + inner_capitals(s),
        ascii_snake_case(ascii_snake_case(s)) == ascii_snake_case(s),
    decreases s.len(),
{
    if s.len() > 0 {
        let init = s.drop_last();
        lemma_ascii_snake_case_laws(init);
        lemma_ascii_snake_step(s);
        let c = s.last();
        assert(is_ascii_char(s[s.len() - 1]));
        lemma_ascii_lower(c);
        assert('_' as u32 == 95);
        let r = ascii_snake_case(s);
        let prev = ascii_snake_case(init);
        assert forall|i: int| 0 <= i < r.len() implies is_ascii_char(#[trigger] r[i])
            && !is_ascii_upper(r[i]) by {
            if i < prev.len() {
                assert(r[i] == prev[i]);
            }
        }
    } else {
        assert(ascii_snake_case(s) =~= Seq::<char>::empty());
    }
    lemma_ascii_snake_case_fixed(ascii_snake_case(s));
}

} // verus!
