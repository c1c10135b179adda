//! Character-level helpers shared by the parsers and renderers: whitespace,
//! trimming, decimal numbers, and conversions between `str`/`String` and
//! sequences of `char`.

use vstd::prelude::*;

verus! {

/// The Unicode `White_Space` property, the set that `char::is_whitespace`
/// documents.
pub open spec fn is_space(c: char) -> bool {
    ||| ('\u{9}' <= c && c <= '\u{d}')
    ||| c == ' '
    ||| c == '\u{85}'
    ||| c == '\u{a0}'
    ||| c == '\u{1680}'
    ||| ('\u{2000}' <= c && c <= '\u{200a}')
    ||| c == '\u{2028}'
    ||| c == '\u{2029}'
    ||| c == '\u{202f}'
    ||| c == '\u{205f}'
    ||| c == '\u{3000}'
}

/// Whether `c` is Unicode whitespace.
pub fn is_whitespace(c: char) -> (r: bool)
    ensures
        r == is_space(c),
{
    ('\u{9}' <= c && c <= '\u{d}') || c == ' ' || c == '\u{85}' || c == '\u{a0}' || c
        == '\u{1680}' || ('\u{2000}' <= c && c <= '\u{200a}') || c == '\u{2028}' || c
        == '\u{2029}' || c == '\u{202f}' || c == '\u{205f}' || c == '\u{3000}'
}

/// Number of whitespace characters at the start of `s`.
pub open spec fn lead_spaces(s: Seq<char>) -> nat
    decreases s.len(),
{
    if s.len() > 0 && is_space(s[0]) {
        1 + lead_spaces(s.drop_first())
    } else {
        0
    }
}

/// Number of whitespace characters at the end of `s`.
pub open spec fn trail_spaces(s: Seq<char>) -> nat
    decreases s.len(),
{
    if s.len() > 0 && is_space(s.last()) {
        1 + trail_spaces(s.drop_last())
    } else {
        0
    }
}

/// `s` without its leading and trailing whitespace (what `str::trim` gives).
pub open spec fn trim(s: Seq<char>) -> Seq<char> {
    let t = s.skip(lead_spaces(s) as int);
    t.take(t.len() - trail_spaces(t))
}

pub proof fn lemma_lead_bound(s: Seq<char>)
    ensures
        lead_spaces(s) <= s.len(),
    decreases s.len(),
{
    if s.len() > 0 && is_space(s[0]) {
        lemma_lead_bound(s.drop_first());
    }
}

/// A string whose first and last characters are not whitespace is its own
/// trim.
pub proof fn lemma_trim_fixed(s: Seq<char>)
    requires
        s.len() > 0,
        !is_space(s[0]),
        !is_space(s.last()),
    ensures
        trim(s) == s,
{
    assert(lead_spaces(s) == 0);
    assert(s.skip(0) =~= s);
    assert(trail_spaces(s) == 0);
    assert(s.take(s.len() as int) =~= s);
}

/// The characters of `s` from `a` up to `b`.
pub fn copy_range(s: &[char], a: usize, b: usize) -> (r: Vec<char>)
    requires
        a <= b <= s@.len(),
    ensures
        r@ == s@.subrange(a as int, b as int),
{
    let mut r: Vec<char> = Vec::new();
    let mut i: usize = a;
    while i < b
        invariant
            a <= i <= b <= s@.len(),
            r@ == s@.subrange(a as int, i as int),
        decreases b - i,
    {
        r.push(s[i]);
        i = i + 1;
        assert(r@ =~= s@.subrange(a as int, i as int));
    }
    r
}

/// Index of the first character of `s` that is not whitespace.
fn lead_end(s: &[char]) -> (i: usize)
    ensures
        i == lead_spaces(s@),
{
    let mut i: usize = 0;
    proof {
        assert(s@.skip(0) =~= s@);
    }
    while i < s.len() && is_whitespace(s[i])
        invariant
            i <= s@.len(),
            lead_spaces(s@) == i + lead_spaces(s@.skip(i as int)),
        decreases s@.len() - i,
    {
        proof {
            assert(s@.skip(i as int).drop_first() =~= s@.skip(i + 1));
        }
        i = i + 1;
    }
    proof {
        if i == s.len() {
            assert(s@.skip(i as int).len() == 0);
        }
    }
    i
}

/// Number of whitespace characters at the end of `s[..end]`.
fn trail_count(s: &[char], start: usize) -> (k: usize)
    requires
        start <= s@.len(),
    ensures
        k == trail_spaces(s@.skip(start as int)),
        k <= s@.len() - start,
{
    let mut j: usize = s.len();
    proof {
        assert(s@.skip(start as int).take((s@.len() - start) as int) =~= s@.skip(start as int));
    }
    while j > start && is_whitespace(s[j - 1])
        invariant
            start <= j <= s@.len(),
            trail_spaces(s@.skip(start as int)) == (s@.len() - j) + trail_spaces(
                s@.skip(start as int).take(j - start),
            ),
        decreases j,
    {
        proof {
            let t = s@.skip(start as int).take(j - start);
            assert(t.last() == s@[j - 1]);
            assert(t.drop_last() =~= s@.skip(start as int).take(j - 1 - start));
        }
        j = j - 1;
    }
    proof {
        if j == start {
            assert(s@.skip(start as int).take(0).len() == 0);
        } else {
            assert(s@.skip(start as int).take(j - start).last() == s@[j - 1]);
        }
    }
    s.len() - j
}

/// `s` with leading and trailing whitespace removed.
pub fn trim_chars(s: &[char]) -> (r: Vec<char>)
    ensures
        r@ == trim(s@),
{
    let a = lead_end(s);
    proof {
        lemma_lead_bound(s@);
    }
    let k = trail_count(s, a);
    let b = s.len() - k;
    let r = copy_range(s, a, b);
    proof {
        assert(r@ =~= trim(s@));
    }
    r
}

/// The characters of `s`, in order.
pub fn chars_of(s: &str) -> (r: Vec<char>)
    ensures
        r@ == s@,
{
    broadcast use vstd::string::group_string_axioms;

    let mut r: Vec<char> = Vec::new();
    for c in it: s.chars()
        invariant
            it.seq() == s@,
            r@ == it.seq().take(it.index() as int),
    {
        r.push(c);
    }
    r
}

/// The string made of the characters `v`, in order.
#[verifier::external_body]
pub fn string_of(v: &[char]) -> (r: String)
    ensures
        r@ == v@,
{
    String::from_iter(v)
}

/// The ASCII digit for `d`.
pub open spec fn digit_char(d: int) -> char {
    if d == 0 {
        '0'
    } else if d == 1 {
        '1'
    } else if d == 2 {
        '2'
    } else if d == 3 {
        '3'
    } else if d == 4 {
        '4'
    } else if d == 5 {
        '5'
    } else if d == 6 {
        '6'
    } else if d == 7 {
        '7'
    } else if d == 8 {
        '8'
    } else {
        '9'
    }
}

/// Whether `c` is an ASCII decimal digit.
pub open spec fn is_digit(c: char) -> bool {
    '0' <= c && c <= '9'
}

/// The value of the ASCII decimal digit `c`.
pub open spec fn digit_value(c: char) -> int {
    (c as int) - ('0' as int)
}

/// The decimal representation of `n`, without leading zeros.
pub open spec fn decimal(n: nat) -> Seq<char>
    decreases n,
{
    if n < 10 {
        seq![digit_char(n as int)]
    } else {
        decimal(n / 10).push(digit_char((n % 10) as int))
    }
}

fn digit_to_char(d: u32) -> (c: char)
    requires
        d < 10,
    ensures
        c == digit_char(d as int),
{
    if d == 0 {
        '0'
    } else if d == 1 {
        '1'
    } else if d == 2 {
        '2'
    } else if d == 3 {
        '3'
    } else if d == 4 {
        '4'
    } else if d == 5 {
        '5'
    } else if d == 6 {
        '6'
    } else if d == 7 {
        '7'
    } else if d == 8 {
        '8'
    } else {
        '9'
    }
}

/// Appends the decimal representation of `n` to `out`.
pub fn push_decimal(n: u32, out: &mut Vec<char>)
    ensures
        final(out)@ == old(out)@ + decimal(n as nat),
    decreases n,
{
    if n >= 10 {
        push_decimal(n / 10, out);
    }
    out.push(digit_to_char(n % 10));
    proof {
        if n >= 10 {
            assert(old(out)@ + decimal(n as nat) =~= old(out)@ + decimal((n / 10) as nat) + seq![
                digit_char((n % 10) as int),
            ]);
        }
    }
}

/// Why a string is not a `u32`, as `std` names the cases.
#[derive(Copy, Clone, Debug, PartialEq, Eq, Structural)]
pub enum IntError {
    Empty,
    InvalidDigit,
    PosOverflow,
}

/// Reads the decimal digits `d` on top of the value `acc` read so far, as
/// `u32::from_str` does: the first character that is not a digit, or the
/// first digit that takes the value past `u32::MAX`, decides the error.
pub open spec fn digits_value(d: Seq<char>, acc: int) -> Result<u32, IntError>
    decreases d.len(),
{
    if d.len() == 0 {
        Ok(acc as u32)
    } else if !is_digit(d[0]) {
        Err(IntError::InvalidDigit)
    } else if acc * 10 + digit_value(d[0]) > u32::MAX {
        Err(IntError::PosOverflow)
    } else {
        digits_value(d.drop_first(), acc * 10 + digit_value(d[0]))
    }
}

/// What `s.parse::<u32>()` gives: an optional leading `+`, then decimal
/// digits.
pub open spec fn parse_u32(s: Seq<char>) -> Result<u32, IntError> {
    if s.len() == 0 {
        Err(IntError::Empty)
    } else if s.len() == 1 && (s[0] == '+' || s[0] == '-') {
        Err(IntError::InvalidDigit)
    } else if s[0] == '+' {
        digits_value(s.drop_first(), 0)
    } else {
        digits_value(s, 0)
    }
}

/// The message that `std` displays for each kind of error.
pub open spec fn int_error_text(e: IntError) -> Seq<char> {
    match e {
        IntError::Empty => "cannot parse integer from empty string"@,
        IntError::InvalidDigit => "invalid digit found in string"@,
        IntError::PosOverflow => "number too large to fit in target type"@,
    }
}

/// Reads `s` as a `u32` (an optional `+`, then decimal digits).
pub fn parse_u32_chars(s: &[char]) -> (r: Result<u32, IntError>)
    ensures
        r == parse_u32(s@),
{
    if s.len() == 0 {
        return Err(IntError::Empty);
    }
    if s.len() == 1 && (s[0] == '+' || s[0] == '-') {
        return Err(IntError::InvalidDigit);
    }
    let mut i: usize = if s[0] == '+' {
        1
    } else {
        0
    };
    let ghost d = s@.skip(i as int);
    proof {
        if s[0] == '+' {
            assert(d =~= s@.drop_first());
        } else {
            assert(d =~= s@);
        }
    }
    let mut acc: u32 = 0;
    while i < s.len()
        invariant
            1 <= s@.len(),
            i <= s@.len(),
            parse_u32(s@) == digits_value(s@.skip(i as int), acc as int),
        decreases s@.len() - i,
    {
        let c = s[i];
        proof {
            assert(s@.skip(i as int)[0] == c);
            assert(s@.skip(i as int).drop_first() =~= s@.skip(i + 1));
        }
        if !('0' <= c && c <= '9') {
            return Err(IntError::InvalidDigit);
        }
        let v = (c as u32) - ('0' as u32);
        let next: u64 = acc as u64 * 10 + v as u64;
        if next > 0xffff_ffff {
            return Err(IntError::PosOverflow);
        }
        acc = next as u32;
        i = i + 1;
    }
    proof {
        assert(s@.skip(i as int).len() == 0);
    }
    Ok(acc)
}

/// The text that `std` displays for an integer parse error.
pub fn int_error_message(e: IntError) -> (r: String)
    ensures
        r@ == int_error_text(e),
{
    match e {
        IntError::Empty => String::from_str("cannot parse integer from empty string"),
        IntError::InvalidDigit => String::from_str("invalid digit found in string"),
        IntError::PosOverflow => String::from_str("number too large to fit in target type"),
    }
}

/// Reading back the decimal representation of `n`, followed by `rest`,
/// continues with the value `n`.
pub proof fn lemma_digits_of_decimal(n: nat, rest: Seq<char>)
    requires
        n <= u32::MAX,
    ensures
        digits_value(decimal(n) + rest, 0) == digits_value(rest, n as int),
    decreases n,
{
    if n < 10 {
        let s = decimal(n) + rest;
        assert(s[0] == digit_char(n as int));
        assert(s.drop_first() =~= rest);
        assert(digit_value(digit_char(n as int)) == n);
    } else {
        let d = digit_char((n % 10) as int);
        lemma_digits_of_decimal(n / 10, seq![d] + rest);
        assert(decimal(n) + rest =~= decimal(n / 10) + (seq![d] + rest));
        let s = seq![d] + rest;
        assert(s[0] == d);
        assert(s.drop_first() =~= rest);
        assert(digit_value(d) == n % 10);
    }
}

/// The decimal representation of `n` starts and ends with a digit.
pub proof fn lemma_decimal_digits(n: nat)
    ensures
        decimal(n).len() >= 1,
        is_digit(decimal(n)[0]),
        is_digit(decimal(n).last()),
        forall|i: int| 0 <= i < decimal(n).len() ==> is_digit(#[trigger] decimal(n)[i]),
    decreases n,
{
    if n >= 10 {
        lemma_decimal_digits(n / 10);
    }
}

/// The parts one after the other.
pub open spec fn concat<A>(parts: Seq<Seq<A>>) -> Seq<A>
    decreases parts.len(),
{
    if parts.len() == 0 {
        Seq::empty()
    } else {
        concat(parts.drop_last()) + parts.last()
    }
}

/// The parts one after the other, with `sep` between each two.
pub open spec fn join_with<A>(parts: Seq<Seq<A>>, sep: Seq<A>) -> Seq<A>
    decreases parts.len(),
{
    if parts.len() == 0 {
        Seq::empty()
    } else if parts.len() == 1 {
        parts[0]
    } else {
        join_with(parts.drop_last(), sep) + sep + parts.last()
    }
}

/// The views of a list of strings.
pub open spec fn views(v: Seq<String>) -> Seq<Seq<char>> {
    v.map_values(|s: String| s@)
}

/// Appends the characters of `s` to `out`.
pub fn push_str_chars(out: &mut Vec<char>, s: &str)
    ensures
        final(out)@ == old(out)@ + s@,
{
    let mut cs = chars_of(s);
    out.append(&mut cs);
}

} // verus!
