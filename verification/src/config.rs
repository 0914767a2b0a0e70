use vstd::prelude::*;

use vstd::utf8::{decode_utf8, encode_utf8, encode_utf8_decode_utf8, encode_utf8_valid_utf8, valid_utf8};

use crate::text::{chars_of, decimal, digit_char, spec_utf8_lossy, string_of, utf8_lossy};

verus! {

/// One step of a dot-separated configuration path: an array index or a map
/// key.
#[derive(Debug, Clone, PartialEq, Eq)]
pub enum PathSegment {
    Index(usize),
    Key(String),
}

/// The pieces of `s` between the occurrences of `sep`, from left to right
/// (as `str::split` gives them: `""` gives one empty piece, and two
/// adjacent separators give an empty piece between them).
pub open spec fn split(s: Seq<char>, sep: char) -> Seq<Seq<char>>
    decreases s.len(),
{
    if s.len() == 0 {
        seq![Seq::empty()]
    } else {
        let r = split(s.drop_last(), sep);
        if s.last() == sep {
            r.push(Seq::empty())
        } else {
            r.update(r.len() - 1, r.last().push(s.last()))
        }
    }
}

/// Whether `c` is an ASCII decimal digit.
pub open spec fn is_digit(c: char) -> bool {
    '0' <= c && c <= '9'
}

/// The number that a sequence of decimal digits denotes.
pub open spec fn digits_value(s: Seq<char>) -> nat
    decreases s.len(),
{
    if s.len() == 0 {
        0
    } else {
        digits_value(s.drop_last()) * 10 + ((s.last() as int - '0' as int) as nat)
    }
}

/// What parsing `s` as a `usize` gives (as `str::parse::<usize>` does): an
/// optional `+` followed by at least one decimal digit, denoting a number
/// no greater than `usize::MAX`.
pub open spec fn parse_usize(s: Seq<char>) -> Option<usize> {
    let d = unsigned_digits(s);
    if d.len() > 0 && all_digits(d) && digits_value(d) <= usize::MAX {
        Some(digits_value(d) as usize)
    } else {
        None
    }
}

/// `s` without a leading `+`, if it has one.
pub open spec fn unsigned_digits(s: Seq<char>) -> Seq<char> {
    if s.len() > 0 && s[0] == '+' {
        s.drop_first()
    } else {
        s
    }
}

/// Whether every character of `s` is a decimal digit.
pub open spec fn all_digits(s: Seq<char>) -> bool {
    forall|i: int| 0 <= i < s.len() ==> is_digit(#[trigger] s[i])
}

/// `seg` is the path step that the piece `s` of a path stands for: an index
/// when `s` parses as a `usize`, otherwise the key `s`.
pub open spec fn segment_matches(seg: PathSegment, s: Seq<char>) -> bool {
    match parse_usize(s) {
        Some(n) => seg == PathSegment::Index(n),
        None => seg is Key && seg->Key_0@ == s,
    }
}

/// `digits_value` capped at `usize::MAX + 1`.
pub open spec fn capped_value(s: Seq<char>) -> int {
    if digits_value(s) > usize::MAX {
        usize::MAX + 1
    } else {
        digits_value(s) as int
    }
}

/// Parse one piece of a path as a `usize`.
fn parse_index(s: &Vec<char>) -> (r: Option<usize>)
    ensures
        r == parse_usize(s@),
{
    let n = s.len();
    let start: usize = if n > 0 && s[0] == '+' {
        1
    } else {
        0
    };
    let ghost d = unsigned_digits(s@);
    assert(d =~= s@.subrange(start as int, n as int));
    if start == n {
        return None;
    }
    let mut acc: u128 = 0;
    let mut i: usize = start;
    while i < n
        invariant
            start <= i <= n,
            n == s@.len(),
            d == unsigned_digits(s@),
            d =~= s@.subrange(start as int, n as int),
            forall|j: int| start <= j < i ==> is_digit(#[trigger] s@[j]),
            acc == capped_value(s@.subrange(start as int, i as int)),
        decreases n - i,
    {
        let c = s[i];
        if !('0' <= c && c <= '9') {
            assert(!is_digit(d[i - start]));
            return None;
        }
        let digit = (c as u32 - '0' as u32) as u128;
        let ghost prev = s@.subrange(start as int, i as int);
        let ghost next = s@.subrange(start as int, i + 1);
        assert(next.drop_last() =~= prev);
        assert(next.last() == c);
        if acc > usize::MAX as u128 {
            assert(digits_value(next) >= digits_value(prev));
        } else {
            acc = acc * 10 + digit;
            if acc > usize::MAX as u128 {
                acc = usize::MAX as u128 + 1;
            }
        }
        i = i + 1;
    }
    assert(s@.subrange(start as int, n as int) =~= d);
    if acc > usize::MAX as u128 {
        None
    } else {
        Some(acc as usize)
    }
}

/// The path step for one piece of a path.
fn parse_segment(s: &Vec<char>) -> (r: PathSegment)
    ensures
        segment_matches(r, s@),
{
    match parse_index(s) {
        Some(n) => PathSegment::Index(n),
        None => PathSegment::Key(string_of(s)),
    }
}

/// Break a dot-separated configuration path such as `"solve.models"` or
/// `"solver.0.heuristic"` into its steps: each piece between dots is an
/// array index when it parses as a `usize`, otherwise a map key.
pub fn parse_path(path: &str) -> (r: Vec<PathSegment>)
    ensures
        r@.len() == split(path@, '.').len(),
        forall|i: int|
            0 <= i < r@.len() ==> segment_matches(#[trigger] r@[i], split(path@, '.')[i]),
{
    let cs = chars_of(path);
    let mut done: Vec<PathSegment> = Vec::new();
    let mut current: Vec<char> = Vec::new();
    let mut i: usize = 0;
    while i < cs.len()
        invariant
            cs@ == path@,
            i <= cs@.len(),
            done@.len() + 1 == split(cs@.subrange(0, i as int), '.').len(),
            current@ == split(cs@.subrange(0, i as int), '.').last(),
            forall|j: int|
                0 <= j < done@.len() ==> segment_matches(
                    #[trigger] done@[j],
                    split(cs@.subrange(0, i as int), '.')[j],
                ),
        decreases cs@.len() - i,
    {
        let ghost prefix = cs@.subrange(0, i as int);
        let ghost next = cs@.subrange(0, i + 1);
        assert(next.drop_last() =~= prefix);
        assert(next.last() == cs@[i as int]);
        let c = cs[i];
        if c == '.' {
            let seg = parse_segment(&current);
            done.push(seg);
            current = Vec::new();
            assert(current@ =~= Seq::<char>::empty());
        } else {
            current.push(c);
        }
        i = i + 1;
    }
    let seg = parse_segment(&current);
    done.push(seg);
    assert(cs@.subrange(0, cs@.len() as int) =~= cs@);
    done
}

/// The character of a digit is a digit of that value.
proof fn lemma_digit_char(d: nat)
    requires
        d < 10,
    ensures
        is_digit(digit_char(d)),
        digit_char(d) as int - '0' as int == d,
{
}

/// The decimal notation of `m` is one or more digits, without a leading
/// zero unless `m` is zero, and denotes `m`.
pub proof fn lemma_decimal_digits(m: nat)
    ensures
        all_digits(decimal(m)),
        digits_value(decimal(m)) == m,
        decimal(m).len() > 0,
        is_digit(decimal(m)[0]),
        decimal(m)[0] == '0' ==> m == 0,
    decreases m,
{
    if m < 10 {
        lemma_digit_char(m);
        assert(decimal(m).drop_last() =~= Seq::<char>::empty());
        assert(digits_value(decimal(m)) == digits_value(Seq::<char>::empty()) * 10 + ((digit_char(m) as int - '0' as int) as nat));
    } else {
        lemma_digit_char(m % 10);
        lemma_decimal_digits(m / 10);
        let d = decimal(m);
        assert(d.drop_last() =~= decimal(m / 10));
        assert(d[0] == decimal(m / 10)[0]);
        assert(d.last() == digit_char(m % 10));
        assert(digits_value(d) == digits_value(decimal(m / 10)) * 10 + ((d.last() as int - '0' as int) as nat));
        assert(digits_value(d) == (m / 10) * 10 + m % 10);
        assert(m == (m / 10) * 10 + m % 10);
    }
}

/// A piece of a path that is the decimal notation of a `usize` is an index.
pub proof fn lemma_decimal_piece_is_index(n: usize)
    ensures
        parse_usize(decimal(n as nat)) == Some(n),
{
    lemma_decimal_digits(n as nat);
}

/// The bytes of a configuration value in the buffer that clingo filled:
/// all but the last, which is the terminating zero byte.
pub open spec fn value_bytes(buf: Seq<u8>) -> Seq<u8> {
    if buf.len() > 0 {
        buf.drop_last()
    } else {
        buf
    }
}

/// The text of a configuration value from the buffer that clingo filled
/// (its size counts the terminating zero byte): the last byte is dropped
/// and the rest decoded as UTF-8, invalid sequences replaced as
/// `String::from_utf8_lossy` replaces them.
pub fn value_text(buf: Vec<u8>) -> (r: String)
    ensures
        r@ == spec_utf8_lossy(value_bytes(buf@)),
        valid_utf8(value_bytes(buf@)) ==> r@ == decode_utf8(value_bytes(buf@)),
{
    let mut buf = buf;
    let ghost before = buf@;
    let _ = buf.pop();
    assert(buf@ == value_bytes(before));
    utf8_lossy(buf.as_slice())
}

/// A value held as its UTF-8 bytes followed by the terminating zero byte
/// reads back as the same text.
pub proof fn lemma_value_text_round_trip(s: Seq<char>)
    ensures
        value_bytes(encode_utf8(s).push(0)) == encode_utf8(s),
        valid_utf8(encode_utf8(s)),
        decode_utf8(encode_utf8(s)) == s,
{
    encode_utf8_valid_utf8(s);
    encode_utf8_decode_utf8(s);
    assert(encode_utf8(s).push(0).drop_last() =~= encode_utf8(s));
}

} // verus!
