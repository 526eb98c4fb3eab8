//! Text helpers shared by the command, login and output code: characters of
//! strings, whitespace trimming and splitting, decimal rendering and integer
//! parsing with the rules of Rust's `FromStr` for integers.

use vstd::prelude::*;
use vstd::string::*;
use vstd::utf8::*;

verus! {

/// Unicode `White_Space`, the property that `char::is_whitespace` tests.
pub open spec fn is_white_space(c: char) -> bool {
    ||| ('\u{9}' <= c && c <= '\u{d}')
    ||| c == ' '
    ||| c == '\u{85}'
    ||| c == '\u{a0}'
    ||| c == '\u{1680}'
    ||| ('\u{2000}' <= c && c <= '\u{200a}')
    ||| c == '\u{2028}'
    ||| c == '\u{2029}'
    ||| c == '\u{202f}'
    ||| c == '\u{205f}'
    ||| c == '\u{3000}'
}

/// `String::push`: appends one character.
#[verifier::external_body]
fn string_push(s: &mut String, c: char)
    ensures
        final(s)@ == old(s)@.push(c),
{
    s.push(c)
}

/// What `String::from_utf8_lossy` makes of `bytes`: the decoded text, with
/// each invalid sequence replaced by U+FFFD.
pub uninterp spec fn utf8_lossy(bytes: Seq<u8>) -> Seq<char>;

/// `String::from_utf8_lossy(..).into_owned()`: the text that `bytes`
/// encode, with U+FFFD in place of each invalid sequence. Its documentation
/// promises that valid UTF-8 is decoded unchanged; the replacement rule for
/// invalid input is named, not stated.
#[verifier::external_body]
pub(crate) fn from_utf8_lossy(bytes: &[u8]) -> (s: String)
    ensures
        s@ == utf8_lossy(bytes@),
        valid_utf8(bytes@) ==> s@ == decode_utf8(bytes@),
{
    String::from_utf8_lossy(bytes).into_owned()
}

/// Whether `c` is a white-space character.
pub fn is_whitespace(c: char) -> (b: bool)
    ensures
        b == is_white_space(c),
{
    ('\u{9}' <= c && c <= '\u{d}') || c == ' ' || c == '\u{85}' || c == '\u{a0}' || c == '\u{1680}'
        || ('\u{2000}' <= c && c <= '\u{200a}') || c == '\u{2028}' || c == '\u{2029}'
        || c == '\u{202f}' || c == '\u{205f}' || c == '\u{3000}'
}

/// The characters of `s`.
pub fn chars_of(s: &str) -> (v: Vec<char>)
    ensures
        v@ == s@,
{
    let mut v: Vec<char> = Vec::new();
    for c in it: s.chars()
        invariant
            v@ == it.seq().take(it.index() as int),
            it.seq() == s@,
    {
        v.push(c);
    }
    assert(v@ =~= s@);
    v
}

/// A `String` holding the characters `v[from..to]`.
pub fn string_of(v: &[char], from: usize, to: usize) -> (s: String)
    requires
        from <= to <= v@.len(),
    ensures
        s@ == v@.subrange(from as int, to as int),
{
    let mut s = String::new();
    let mut i = from;
    while i < to
        invariant
            from <= i <= to <= v@.len(),
            s@ == v@.subrange(from as int, i as int),
        decreases to - i,
    {
        string_push(&mut s, v[i]);
        assert(v@.subrange(from as int, i + 1) =~= v@.subrange(from as int, i as int).push(v@[i as int]));
        i = i + 1;
    }
    s
}

/// Appends one character to `s`.
pub fn push_char(s: &mut String, c: char)
    ensures
        final(s)@ == old(s)@.push(c),
{
    string_push(s, c)
}

/// Index of the first character of `s` that is not white space, or `s.len()`.
pub open spec fn trim_start_index(s: Seq<char>) -> int
    decreases s.len(),
{
    if s.len() == 0 || !is_white_space(s[0]) {
        0
    } else {
        1 + trim_start_index(s.drop_first())
    }
}

/// One past the index of the last character of `s` that is not white space,
/// or 0.
pub open spec fn trim_end_index(s: Seq<char>) -> int
    decreases s.len(),
{
    if s.len() == 0 || !is_white_space(s.last()) {
        s.len() as int
    } else {
        trim_end_index(s.drop_last())
    }
}

/// `s` without leading and trailing white space, as `str::trim` returns it.
pub open spec fn trimmed(s: Seq<char>) -> Seq<char> {
    let e = trim_end_index(s);
    let t = s.subrange(0, e);
    t.subrange(trim_start_index(t), e)
}

proof fn lemma_trim_start_bound(s: Seq<char>)
    ensures
        0 <= trim_start_index(s) <= s.len(),
        forall|i: int| 0 <= i < trim_start_index(s) ==> is_white_space(#[trigger] s[i]),
        trim_start_index(s) < s.len() ==> !is_white_space(s[trim_start_index(s)]),
    decreases s.len(),
{
    if s.len() > 0 && is_white_space(s[0]) {
        lemma_trim_start_bound(s.drop_first());
        assert forall|i: int| 0 <= i < trim_start_index(s) implies is_white_space(#[trigger] s[i]) by {
            if i > 0 {
                assert(s[i] == s.drop_first()[i - 1]);
            }
        }
    }
}

proof fn lemma_trim_end_bound(s: Seq<char>)
    ensures
        0 <= trim_end_index(s) <= s.len(),
        forall|i: int| trim_end_index(s) <= i < s.len() ==> is_white_space(#[trigger] s[i]),
        trim_end_index(s) > 0 ==> !is_white_space(s[trim_end_index(s) - 1]),
    decreases s.len(),
{
    if s.len() > 0 && is_white_space(s.last()) {
        lemma_trim_end_bound(s.drop_last());
        assert forall|i: int| trim_end_index(s) <= i < s.len() implies is_white_space(#[trigger] s[i]) by {
            if i < s.len() - 1 {
                assert(s[i] == s.drop_last()[i]);
            }
        }
        if trim_end_index(s) > 0 {
            assert(s[trim_end_index(s) - 1] == s.drop_last()[trim_end_index(s) - 1]);
        }
    }
}

/// The index computed by scanning `s` from the front.
proof fn lemma_trim_start_scan(s: Seq<char>, i: int)
    requires
        0 <= i <= s.len(),
        forall|j: int| 0 <= j < i ==> is_white_space(#[trigger] s[j]),
        i == s.len() || !is_white_space(s[i]),
    ensures
        trim_start_index(s) == i,
    decreases i,
{
    if i > 0 {
        assert forall|j: int| 0 <= j < i - 1 implies is_white_space(#[trigger] s.drop_first()[j]) by {
            assert(s.drop_first()[j] == s[j + 1]);
        }
        if i - 1 < s.drop_first().len() {
            assert(s.drop_first()[i - 1] == s[i]);
        }
        lemma_trim_start_scan(s.drop_first(), i - 1);
        assert(is_white_space(s[0]));
    }
}

/// The index computed by scanning `s` from the back.
proof fn lemma_trim_end_scan(s: Seq<char>, e: int)
    requires
        0 <= e <= s.len(),
        forall|j: int| e <= j < s.len() ==> is_white_space(#[trigger] s[j]),
        e == 0 || !is_white_space(s[e - 1]),
    ensures
        trim_end_index(s) == e,
    decreases s.len() - e,
{
    if e < s.len() {
        assert(is_white_space(s.last()));
        assert forall|j: int| e <= j < s.drop_last().len() implies is_white_space(#[trigger] s.drop_last()[j]) by {
            assert(s.drop_last()[j] == s[j]);
        }
        if e > 0 {
            assert(s.drop_last()[e - 1] == s[e - 1]);
        }
        lemma_trim_end_scan(s.drop_last(), e);
    }
}

/// The bounds `[a, b)` of `v[from..to]` without leading and trailing white
/// space.
pub fn trim_bounds(v: &[char], from: usize, to: usize) -> (r: (usize, usize))
    requires
        from <= to <= v@.len(),
    ensures
        from <= r.0 <= r.1 <= to,
        v@.subrange(r.0 as int, r.1 as int) == trimmed(v@.subrange(from as int, to as int)),
{
    let ghost s = v@.subrange(from as int, to as int);
    let mut e = to;
    while e > from && is_whitespace(v[e - 1])
        invariant
            from <= e <= to <= v@.len(),
            s == v@.subrange(from as int, to as int),
            forall|j: int| e - from <= j < s.len() ==> is_white_space(#[trigger] s[j]),
        decreases e - from,
    {
        e = e - 1;
    }
    proof {
        lemma_trim_end_scan(s, e - from);
    }
    let ghost t = s.subrange(0, e - from);
    let mut b = from;
    while b < e && is_whitespace(v[b])
        invariant
            from <= b <= e <= to <= v@.len(),
            t == v@.subrange(from as int, e as int),
            forall|j: int| 0 <= j < b - from ==> is_white_space(#[trigger] t[j]),
        decreases e - b,
    {
        b = b + 1;
    }
    proof {
        lemma_trim_start_scan(t, b - from);
        assert(v@.subrange(b as int, e as int) =~= t.subrange(b - from, e - from));
    }
    (b, e)
}

/// `s` without leading and trailing white space.
pub fn trim(s: &str) -> (t: String)
    ensures
        t@ == trimmed(s@),
{
    let v = chars_of(s);
    let (a, b) = trim_bounds(v.as_slice(), 0, v.len());
    proof {
        assert(v@.subrange(0, v@.len() as int) =~= v@);
    }
    string_of(v.as_slice(), a, b)
}

/// The value of a decimal digit character.
pub open spec fn digit_value(c: char) -> int {
    c as int - '0' as int
}

/// Whether `c` is one of `0` to `9`.
pub open spec fn is_digit(c: char) -> bool {
    '0' <= c && c <= '9'
}

/// Whether every character of `s` is a decimal digit.
pub open spec fn all_digits(s: Seq<char>) -> bool {
    forall|i: int| 0 <= i < s.len() ==> is_digit(#[trigger] s[i])
}

/// The value of the decimal numeral `s`.
pub open spec fn decimal_value(s: Seq<char>) -> int
    decreases s.len(),
{
    if s.len() == 0 {
        0
    } else {
        decimal_value(s.drop_last()) * 10 + digit_value(s.last())
    }
}

/// The integer that Rust's `FromStr` for an integer type reads from `s`
/// before its range is checked: an optional `+` (or `-` when `signed`) and
/// one or more decimal digits. `None` when `s` has another shape.
pub open spec fn numeral_value(s: Seq<char>, signed: bool) -> Option<int> {
    if s.len() >= 2 && s[0] == '+' && all_digits(s.drop_first()) {
        Some(decimal_value(s.drop_first()))
    } else if signed && s.len() >= 2 && s[0] == '-' && all_digits(s.drop_first()) {
        Some(-decimal_value(s.drop_first()))
    } else if s.len() >= 1 && all_digits(s) {
        Some(decimal_value(s))
    } else {
        None
    }
}

/// Why parsing an integer failed; the kinds of `std::num::IntErrorKind`
/// that integer parsing produces.
#[derive(Clone, Copy, Debug, PartialEq, Eq, Structural)]
pub enum ParseIntFailure {
    Empty,
    InvalidDigit,
    PosOverflow,
    NegOverflow,
}

/// The outcome of parsing `s` as an integer in `[lo, hi]`, as Rust's
/// `FromStr` for the integer type of that range reports it.
pub open spec fn parse_int_spec(s: Seq<char>, signed: bool, lo: int, hi: int) -> Result<
    int,
    ParseIntFailure,
> {
    if s.len() == 0 {
        Err(ParseIntFailure::Empty)
    } else {
        match numeral_value(s, signed) {
            None => Err(ParseIntFailure::InvalidDigit),
            Some(v) => if v > hi {
                Err(ParseIntFailure::PosOverflow)
            } else if v < lo {
                Err(ParseIntFailure::NegOverflow)
            } else {
                Ok(v)
            },
        }
    }
}

/// The message that `std::num::ParseIntError` displays for each kind.
pub open spec fn parse_failure_text(f: ParseIntFailure) -> Seq<char> {
    match f {
        ParseIntFailure::Empty => "cannot parse integer from empty string"@,
        ParseIntFailure::InvalidDigit => "invalid digit found in string"@,
        ParseIntFailure::PosOverflow => "number too large to fit in target type"@,
        ParseIntFailure::NegOverflow => "number too small to fit in target type"@,
    }
}

impl ParseIntFailure {
    /// The message that `std::num::ParseIntError` displays for this kind.
    pub fn message(&self) -> (m: &'static str)
        ensures
            m@ == parse_failure_text(*self),
    {
        match self {
            ParseIntFailure::Empty => "cannot parse integer from empty string",
            ParseIntFailure::InvalidDigit => "invalid digit found in string",
            ParseIntFailure::PosOverflow => "number too large to fit in target type",
            ParseIntFailure::NegOverflow => "number too small to fit in target type",
        }
    }
}

proof fn lemma_decimal_nonneg(s: Seq<char>)
    requires
        all_digits(s),
    ensures
        decimal_value(s) >= 0,
    decreases s.len(),
{
    if s.len() > 0 {
        lemma_decimal_nonneg(s.drop_last());
    }
}

/// Reads the numeral `v[from..to]` of digits only, with the value range
/// `[lo, hi]` (`lo <= 0 <= hi`), negated when `negative`.
fn read_digits(v: &[char], from: usize, to: usize, negative: bool, lo: i128, hi: i128) -> (r: Result<
    i128,
    ParseIntFailure,
>)
    requires
        from < to <= v@.len(),
        all_digits(v@.subrange(from as int, to as int)),
        i64::MIN <= lo <= 0 <= hi <= u64::MAX,
    ensures
        ({
            let d = decimal_value(v@.subrange(from as int, to as int));
            let x = if negative {
                -d
            } else {
                d
            };
            match r {
                Ok(n) => lo <= x <= hi && n == x,
                Err(e) => (x > hi && e == ParseIntFailure::PosOverflow) || (x < lo && e
                    == ParseIntFailure::NegOverflow),
            }
        }),
{
    let mut acc: i128 = 0;
    let mut i = from;
    let limit: i128 = if negative {
        -lo
    } else {
        hi
    };
    while i < to
        invariant
            from <= i <= to <= v@.len(),
            all_digits(v@.subrange(from as int, to as int)),
            0 <= limit <= u64::MAX,
            limit == (if negative {
                -lo
            } else {
                hi as int
            }),
            acc as int == decimal_value(v@.subrange(from as int, i as int)),
            0 <= acc <= limit,
        decreases to - i,
    {
        let c = v[i];
        proof {
            assert(v@.subrange(from as int, to as int)[i - from] == c);
            assert(v@.subrange(from as int, i + 1).drop_last() =~= v@.subrange(from as int, i as int));
        }
        let d = (c as u32 - '0' as u32) as i128;
        acc = acc * 10 + d;
        i = i + 1;
        if acc > limit {
            proof {
                lemma_rest_not_smaller(v@, from as int, i as int, to as int);
            }
            return if negative {
                Err(ParseIntFailure::NegOverflow)
            } else {
                Err(ParseIntFailure::PosOverflow)
            };
        }
    }
    if negative {
        Ok(-acc)
    } else {
        Ok(acc)
    }
}

/// Extending a numeral with more digits never makes its value smaller.
proof fn lemma_rest_not_smaller(v: Seq<char>, from: int, i: int, to: int)
    requires
        0 <= from <= i <= to <= v.len(),
        all_digits(v.subrange(from, to)),
    ensures
        decimal_value(v.subrange(from, to)) >= decimal_value(v.subrange(from, i)),
    decreases to - i,
{
    if i < to {
        lemma_rest_not_smaller(v, from, i + 1, to);
        assert(v.subrange(from, i + 1).drop_last() =~= v.subrange(from, i));
        assert(v.subrange(from, to)[i - from] == v[i]);
        assert(all_digits(v.subrange(from, i)));
        lemma_decimal_nonneg(v.subrange(from, i));
    }
}

/// Parses `s` as an integer in `[lo, hi]`, accepting a leading `-` only when
/// `signed`, with the rules and error kinds of Rust's `FromStr` for integers.
pub fn parse_int(s: &str, signed: bool, lo: i128, hi: i128) -> (r: Result<i128, ParseIntFailure>)
    requires
        i64::MIN <= lo <= 0 <= hi <= u64::MAX,
    ensures
        match r {
            Ok(n) => parse_int_spec(s@, signed, lo as int, hi as int) == Ok::<int, ParseIntFailure>(
                n as int,
            ),
            Err(e) => parse_int_spec(s@, signed, lo as int, hi as int) == Err::<int, ParseIntFailure>(
                e,
            ),
        },
{
    let v = chars_of(s);
    let n = v.len();
    if n == 0 {
        return Err(ParseIntFailure::Empty);
    }
    let first = v[0];
    let (start, negative) = if first == '+' && n >= 2 {
        (1usize, false)
    } else if signed && first == '-' && n >= 2 {
        (1usize, true)
    } else {
        (0usize, false)
    };
    let mut i = start;
    while i < n
        invariant
            start <= i <= n == v@.len(),
            n >= 1,
            v@ == s@,
            start == (if (v@[0] == '+' && n >= 2) || (signed && v@[0] == '-' && n >= 2) {
                1int
            } else {
                0int
            }),
            negative == (!(v@[0] == '+' && n >= 2) && signed && v@[0] == '-' && n >= 2),
            forall|j: int| start <= j < i ==> is_digit(#[trigger] v@[j]),
        decreases n - i,
    {
        if !('0' <= v[i] && v[i] <= '9') {
            proof {
                let w = v@.subrange(start as int, n as int);
                assert(w[i - start] == v@[i as int]);
                assert(!all_digits(w));
                if start == 0 {
                    assert(w =~= v@);
                } else {
                    assert(w =~= v@.drop_first());
                }
            }
            return Err(ParseIntFailure::InvalidDigit);
        }
        i = i + 1;
    }
    proof {
        let w = v@.subrange(start as int, n as int);
        assert forall|j: int| 0 <= j < w.len() implies is_digit(#[trigger] w[j]) by {
            assert(w[j] == v@[j + start]);
        }
        if start == 0 {
            assert(w =~= v@);
        } else {
            assert(w =~= v@.drop_first());
        }
    }
    read_digits(v.as_slice(), start, n, negative, lo, hi)
}

/// The decimal numeral of `n`, without leading zeros (`"0"` for zero).
pub open spec fn decimal_string(n: nat) -> Seq<char>
    decreases n,
{
    if n < 10 {
        seq![digit_char(n)]
    } else {
        decimal_string(n / 10).push(digit_char(n % 10))
    }
}

/// The digit character for `d < 10`.
pub open spec fn digit_char(d: nat) -> char {
    (('0' as nat) + d) as char
}

/// `n` in decimal, with a leading `-` when negative, as `Display` prints
/// integers.
pub open spec fn signed_decimal_string(n: int) -> Seq<char> {
    if n < 0 {
        seq!['-'].add(decimal_string((-n) as nat))
    } else {
        decimal_string(n as nat)
    }
}

/// Appends the decimal numeral of `n` to `out`.
pub fn push_decimal(out: &mut String, n: u64)
    ensures
        final(out)@ == old(out)@ + decimal_string(n as nat),
    decreases n,
{
    if n >= 10 {
        push_decimal(out, n / 10);
    }
    let d = (n % 10) as u32;
    let c = char_from_digit(d);
    push_char(out, c);
    proof {
        if n >= 10 {
            assert(decimal_string(n as nat) == decimal_string((n / 10) as nat).push(digit_char((n % 10) as nat)));
        }
    }
}

/// The character of digit `d`.
fn char_from_digit(d: u32) -> (c: char)
    requires
        d < 10,
    ensures
        c == digit_char(d as nat),
{
    match d {
        0 => '0',
        1 => '1',
        2 => '2',
        3 => '3',
        4 => '4',
        5 => '5',
        6 => '6',
        7 => '7',
        8 => '8',
        _ => '9',
    }
}

/// `n` in decimal.
pub fn u64_to_string(n: u64) -> (s: String)
    ensures
        s@ == decimal_string(n as nat),
{
    let mut s = String::new();
    push_decimal(&mut s, n);
    s
}

/// `n` in decimal, with a leading `-` when negative.
pub fn i64_to_string(n: i64) -> (s: String)
    ensures
        s@ == signed_decimal_string(n as int),
{
    let mut s = String::new();
    if n < 0 {
        push_char(&mut s, '-');
        let m: u64 = if n == i64::MIN {
            9223372036854775808u64
        } else {
            (-n) as u64
        };
        push_decimal(&mut s, m);
    } else {
        push_decimal(&mut s, n as u64);
    }
    s
}

} // verus!
