//! Character-level text utilities shared by the parsers and report builders.
use vstd::prelude::*;

verus! {

/// Appends one character to a `String` (`String::push`).
/// Trusted: the new contents are the old contents followed by `c`.
#[verifier::external_body]
pub(crate) fn push_char(s: &mut String, c: char)
    ensures
        final(s)@ == old(s)@.push(c),
{
    s.push(c);
}

/// The ASCII digit character for a value below ten.
pub open spec fn digit_char(d: nat) -> char {
    ((d + 48) as u32) as char
}

/// The decimal representation of a natural number, most significant digit
/// first, without leading zeros (`0` is written `"0"`).
pub open spec fn decimal(n: nat) -> Seq<char>
    decreases n,
{
    if n < 10 {
        seq![digit_char(n)]
    } else {
        decimal(n / 10).push(digit_char(n % 10))
    }
}

/// The number that a string of decimal digits denotes.
pub open spec fn digits_value(s: Seq<char>) -> int
    decreases s.len(),
{
    if s.len() == 0 {
        0
    } else {
        digits_value(s.drop_last()) * 10 + (s.last() as int - 48)
    }
}

/// The decimal representation of `n` is a non-empty string of the digits
/// `0` to `9` that denotes `n`, with no leading zero unless `n` is 0.
pub proof fn lemma_decimal_denotes(n: nat)
    ensures
        decimal(n).len() > 0,
        forall|i: int| 0 <= i < decimal(n).len() ==> '0' <= #[trigger] decimal(n)[i] <= '9',
        digits_value(decimal(n)) == n,
        decimal(n)[0] == '0' ==> n == 0,
    decreases n,
{
    let d = (n % 10) as nat;
    assert(digit_char(d) as int == d + 48);
    if n >= 10 {
        let q = (n / 10) as nat;
        lemma_decimal_denotes(q);
        let s = decimal(n);
        assert(s == decimal(q).push(digit_char(d)));
        assert(s.drop_last() =~= decimal(q));
        assert(n == q * 10 + d) by (nonlinear_arith)
            requires
                q == n / 10,
                d == n % 10,
        ;
        assert forall|i: int| 0 <= i < s.len() implies '0' <= #[trigger] s[i] <= '9' by {
            if i < s.len() - 1 {
                assert(s[i] == decimal(q)[i]);
            }
        }
        assert(s[0] == decimal(q)[0]);
        assert(digits_value(s) == digits_value(decimal(q)) * 10 + (digit_char(d) as int - 48));
    } else {
        let s = decimal(n);
        assert(s.drop_last() =~= Seq::<char>::empty());
        assert(digits_value(s) == digits_value(Seq::<char>::empty()) * 10 + (digit_char(d) as int - 48));
    }
}

/// Appends the decimal representation of `n` to `s`.
pub fn push_decimal(s: &mut String, n: u64)
    ensures
        final(s)@ == old(s)@ + decimal(n as nat),
    decreases n,
{
    if n >= 10 {
        push_decimal(s, n / 10);
    }
    let d: u64 = n % 10;
    let c: char = ((d as u8) + 48u8) as char;
    assert(c == digit_char((n % 10) as nat));
    push_char(s, c);
    proof {
        if n >= 10 {
            assert(decimal(n as nat) == decimal((n / 10) as nat).push(digit_char((n % 10) as nat)));
        } else {
            assert(decimal(n as nat) == seq![digit_char(n as nat)]);
        }
    }
}

/// The decimal representation of `n` as a new `String`.
pub fn decimal_string(n: u64) -> (r: String)
    ensures
        r@ == decimal(n as nat),
{
    let mut s = String::new();
    push_decimal(&mut s, n);
    assert(s@ =~= decimal(n as nat));
    s
}


/// Unicode `White_Space` (what `char::is_whitespace`, `str::trim`,
/// `split_whitespace` and the regular-expression class `\s` use).
pub open spec fn is_white_space(c: char) -> bool {
    let v = c as u32;
    (0x9 <= v && v <= 0xd) || v == 0x20 || v == 0x85 || v == 0xa0 || v == 0x1680 || (0x2000 <= v
        && v <= 0x200a) || v == 0x2028 || v == 0x2029 || v == 0x202f || v == 0x205f || v == 0x3000
}

/// Unicode general category `Decimal_Number` (`Nd`), the regular-expression
/// class `\d`.
pub open spec fn is_decimal_digit(c: char) -> bool {
    let v = c as u32;
           (0x30 <= v && v <= 0x39)
        || (0x660 <= v && v <= 0x669)
        || (0x6f0 <= v && v <= 0x6f9)
        || (0x7c0 <= v && v <= 0x7c9)
        || (0x966 <= v && v <= 0x96f)
        || (0x9e6 <= v && v <= 0x9ef)
        || (0xa66 <= v && v <= 0xa6f)
        || (0xae6 <= v && v <= 0xaef)
        || (0xb66 <= v && v <= 0xb6f)
        || (0xbe6 <= v && v <= 0xbef)
        || (0xc66 <= v && v <= 0xc6f)
        || (0xce6 <= v && v <= 0xcef)
        || (0xd66 <= v && v <= 0xd6f)
        || (0xde6 <= v && v <= 0xdef)
        || (0xe50 <= v && v <= 0xe59)
        || (0xed0 <= v && v <= 0xed9)
        || (0xf20 <= v && v <= 0xf29)
        || (0x1040 <= v && v <= 0x1049)
        || (0x1090 <= v && v <= 0x1099)
        || (0x17e0 <= v && v <= 0x17e9)
        || (0x1810 <= v && v <= 0x1819)
        || (0x1946 <= v && v <= 0x194f)
        || (0x19d0 <= v && v <= 0x19d9)
        || (0x1a80 <= v && v <= 0x1a89)
        || (0x1a90 <= v && v <= 0x1a99)
        || (0x1b50 <= v && v <= 0x1b59)
        || (0x1bb0 <= v && v <= 0x1bb9)
        || (0x1c40 <= v && v <= 0x1c49)
        || (0x1c50 <= v && v <= 0x1c59)
        || (0xa620 <= v && v <= 0xa629)
        || (0xa8d0 <= v && v <= 0xa8d9)
        || (0xa900 <= v && v <= 0xa909)
        || (0xa9d0 <= v && v <= 0xa9d9)
        || (0xa9f0 <= v && v <= 0xa9f9)
        || (0xaa50 <= v && v <= 0xaa59)
        || (0xabf0 <= v && v <= 0xabf9)
        || (0xff10 <= v && v <= 0xff19)
        || (0x104a0 <= v && v <= 0x104a9)
        || (0x10d30 <= v && v <= 0x10d39)
        || (0x10d40 <= v && v <= 0x10d49)
        || (0x11066 <= v && v <= 0x1106f)
        || (0x110f0 <= v && v <= 0x110f9)
        || (0x11136 <= v && v <= 0x1113f)
        || (0x111d0 <= v && v <= 0x111d9)
        || (0x112f0 <= v && v <= 0x112f9)
        || (0x11450 <= v && v <= 0x11459)
        || (0x114d0 <= v && v <= 0x114d9)
        || (0x11650 <= v && v <= 0x11659)
        || (0x116c0 <= v && v <= 0x116c9)
        || (0x116d0 <= v && v <= 0x116e3)
        || (0x11730 <= v && v <= 0x11739)
        || (0x118e0 <= v && v <= 0x118e9)
        || (0x11950 <= v && v <= 0x11959)
        || (0x11bf0 <= v && v <= 0x11bf9)
        || (0x11c50 <= v && v <= 0x11c59)
        || (0x11d50 <= v && v <= 0x11d59)
        || (0x11da0 <= v && v <= 0x11da9)
        || (0x11f50 <= v && v <= 0x11f59)
        || (0x16130 <= v && v <= 0x16139)
        || (0x16a60 <= v && v <= 0x16a69)
        || (0x16ac0 <= v && v <= 0x16ac9)
        || (0x16b50 <= v && v <= 0x16b59)
        || (0x16d70 <= v && v <= 0x16d79)
        || (0x1ccf0 <= v && v <= 0x1ccf9)
        || (0x1d7ce <= v && v <= 0x1d7ff)
        || (0x1e140 <= v && v <= 0x1e149)
        || (0x1e2f0 <= v && v <= 0x1e2f9)
        || (0x1e4f0 <= v && v <= 0x1e4f9)
        || (0x1e5f1 <= v && v <= 0x1e5fa)
        || (0x1e950 <= v && v <= 0x1e959)
        || (0x1fbf0 <= v && v <= 0x1fbf9)
}

/// Classes of characters that the scanners below recognise.
#[derive(Clone, Copy, PartialEq, Eq, Debug)]
pub enum CharClass {
    WhiteSpace,
    NonWhiteSpace,
    DecimalDigit,
    AsciiUpper,
    NotNewline,
    NotSpace,
    TreePrefix,
    NotComma,
    /// `^`, `~`, `=`, `>` or `<`
    ComparisonOperator,
    /// `^`, `~` or `=`
    RequirementOperator,
}

pub open spec fn in_class(k: CharClass, c: char) -> bool {
    match k {
        CharClass::WhiteSpace => is_white_space(c),
        CharClass::NonWhiteSpace => !is_white_space(c),
        CharClass::DecimalDigit => is_decimal_digit(c),
        CharClass::AsciiUpper => 'A' <= c && c <= 'Z',
        CharClass::NotNewline => c != '\n',
        CharClass::NotSpace => c != ' ',
        CharClass::TreePrefix => is_white_space(c) || c == '\u{2502}' || c == '\u{251c}' || c
            == '\u{2514}' || c == '\u{2500}',
        CharClass::NotComma => c != ',',
        CharClass::ComparisonOperator => c == '^' || c == '~' || c == '=' || c == '>' || c == '<',
        CharClass::RequirementOperator => c == '^' || c == '~' || c == '=',
    }
}

/// Computes `is_white_space(c)`.
fn white_space(c: char) -> (r: bool)
    ensures
        r == is_white_space(c),
{
    let v = c as u32;
    (0x9 <= v && v <= 0xd) || v == 0x20 || v == 0x85 || v == 0xa0 || v == 0x1680 || (0x2000 <= v
        && v <= 0x200a) || v == 0x2028 || v == 0x2029 || v == 0x202f || v == 0x205f || v == 0x3000
}

/// Computes `is_decimal_digit(c)`.
fn decimal_digit(c: char) -> (r: bool)
    ensures
        r == is_decimal_digit(c),
{
    let v = c as u32;

           (0x30 <= v && v <= 0x39)
        || (0x660 <= v && v <= 0x669)
        || (0x6f0 <= v && v <= 0x6f9)
        || (0x7c0 <= v && v <= 0x7c9)
        || (0x966 <= v && v <= 0x96f)
        || (0x9e6 <= v && v <= 0x9ef)
        || (0xa66 <= v && v <= 0xa6f)
        || (0xae6 <= v && v <= 0xaef)
        || (0xb66 <= v && v <= 0xb6f)
        || (0xbe6 <= v && v <= 0xbef)
        || (0xc66 <= v && v <= 0xc6f)
        || (0xce6 <= v && v <= 0xcef)
        || (0xd66 <= v && v <= 0xd6f)
        || (0xde6 <= v && v <= 0xdef)
        || (0xe50 <= v && v <= 0xe59)
        || (0xed0 <= v && v <= 0xed9)
        || (0xf20 <= v && v <= 0xf29)
        || (0x1040 <= v && v <= 0x1049)
        || (0x1090 <= v && v <= 0x1099)
        || (0x17e0 <= v && v <= 0x17e9)
        || (0x1810 <= v && v <= 0x1819)
        || (0x1946 <= v && v <= 0x194f)
        || (0x19d0 <= v && v <= 0x19d9)
        || (0x1a80 <= v && v <= 0x1a89)
        || (0x1a90 <= v && v <= 0x1a99)
        || (0x1b50 <= v && v <= 0x1b59)
        || (0x1bb0 <= v && v <= 0x1bb9)
        || (0x1c40 <= v && v <= 0x1c49)
        || (0x1c50 <= v && v <= 0x1c59)
        || (0xa620 <= v && v <= 0xa629)
        || (0xa8d0 <= v && v <= 0xa8d9)
        || (0xa900 <= v && v <= 0xa909)
        || (0xa9d0 <= v && v <= 0xa9d9)
        || (0xa9f0 <= v && v <= 0xa9f9)
        || (0xaa50 <= v && v <= 0xaa59)
        || (0xabf0 <= v && v <= 0xabf9)
        || (0xff10 <= v && v <= 0xff19)
        || (0x104a0 <= v && v <= 0x104a9)
        || (0x10d30 <= v && v <= 0x10d39)
        || (0x10d40 <= v && v <= 0x10d49)
        || (0x11066 <= v && v <= 0x1106f)
        || (0x110f0 <= v && v <= 0x110f9)
        || (0x11136 <= v && v <= 0x1113f)
        || (0x111d0 <= v && v <= 0x111d9)
        || (0x112f0 <= v && v <= 0x112f9)
        || (0x11450 <= v && v <= 0x11459)
        || (0x114d0 <= v && v <= 0x114d9)
        || (0x11650 <= v && v <= 0x11659)
        || (0x116c0 <= v && v <= 0x116c9)
        || (0x116d0 <= v && v <= 0x116e3)
        || (0x11730 <= v && v <= 0x11739)
        || (0x118e0 <= v && v <= 0x118e9)
        || (0x11950 <= v && v <= 0x11959)
        || (0x11bf0 <= v && v <= 0x11bf9)
        || (0x11c50 <= v && v <= 0x11c59)
        || (0x11d50 <= v && v <= 0x11d59)
        || (0x11da0 <= v && v <= 0x11da9)
        || (0x11f50 <= v && v <= 0x11f59)
        || (0x16130 <= v && v <= 0x16139)
        || (0x16a60 <= v && v <= 0x16a69)
        || (0x16ac0 <= v && v <= 0x16ac9)
        || (0x16b50 <= v && v <= 0x16b59)
        || (0x16d70 <= v && v <= 0x16d79)
        || (0x1ccf0 <= v && v <= 0x1ccf9)
        || (0x1d7ce <= v && v <= 0x1d7ff)
        || (0x1e140 <= v && v <= 0x1e149)
        || (0x1e2f0 <= v && v <= 0x1e2f9)
        || (0x1e4f0 <= v && v <= 0x1e4f9)
        || (0x1e5f1 <= v && v <= 0x1e5fa)
        || (0x1e950 <= v && v <= 0x1e959)
        || (0x1fbf0 <= v && v <= 0x1fbf9)
}

/// Whether `c` belongs to class `k`.
pub fn char_in_class(k: CharClass, c: char) -> (r: bool)
    ensures
        r == in_class(k, c),
{
    match k {
        CharClass::WhiteSpace => white_space(c),
        CharClass::NonWhiteSpace => !white_space(c),
        CharClass::DecimalDigit => decimal_digit(c),
        CharClass::AsciiUpper => 'A' <= c && c <= 'Z',
        CharClass::NotNewline => c != '\n',
        CharClass::NotSpace => c != ' ',
        CharClass::TreePrefix => white_space(c) || c == '\u{2502}' || c == '\u{251c}' || c
            == '\u{2514}' || c == '\u{2500}',
        CharClass::NotComma => c != ',',
        CharClass::ComparisonOperator => c == '^' || c == '~' || c == '=' || c == '>' || c == '<',
        CharClass::RequirementOperator => c == '^' || c == '~' || c == '=',
    }
}

/// End of the maximal run of class-`k` characters of `s` that starts at `i`
/// (`i` itself when `s[i]` is not in the class or `i` is past the end).
pub open spec fn span(s: Seq<char>, i: int, k: CharClass) -> int
    decreases s.len() - i,
{
    if 0 <= i < s.len() && in_class(k, s[i]) {
        span(s, i + 1, k)
    } else {
        i
    }
}

/// Start of the maximal run of class-`k` characters of `s` that ends just
/// before `j`.
pub open spec fn rspan(s: Seq<char>, j: int, k: CharClass) -> int
    decreases j,
{
    if 0 < j <= s.len() && in_class(k, s[j - 1]) {
        rspan(s, j - 1, k)
    } else {
        j
    }
}

pub proof fn lemma_span(s: Seq<char>, i: int, k: CharClass)
    requires
        0 <= i <= s.len(),
    ensures
        i <= span(s, i, k) <= s.len(),
        forall|j: int| i <= j < span(s, i, k) ==> in_class(k, #[trigger] s[j]),
        span(s, i, k) < s.len() ==> !in_class(k, s[span(s, i, k)]),
    decreases s.len() - i,
{
    if i < s.len() && in_class(k, s[i]) {
        lemma_span(s, i + 1, k);
    }
}

/// A run of class-`k` characters from `i` to `e` that stops at `e` (the
/// end of `s`, or a character outside the class) is the maximal run:
/// `span(s, i, k) == e`.
pub proof fn lemma_span_is(s: Seq<char>, i: int, e: int, k: CharClass)
    requires
        0 <= i <= e <= s.len(),
        forall|j: int| i <= j < e ==> in_class(k, #[trigger] s[j]),
        e == s.len() || !in_class(k, s[e]),
    ensures
        span(s, i, k) == e,
    decreases e - i,
{
    if i < e {
        lemma_span_is(s, i + 1, e, k);
    }
}

pub proof fn lemma_rspan(s: Seq<char>, j: int, k: CharClass)
    requires
        0 <= j <= s.len(),
    ensures
        0 <= rspan(s, j, k) <= j,
        forall|m: int| rspan(s, j, k) <= m < j ==> in_class(k, #[trigger] s[m]),
        rspan(s, j, k) > 0 ==> !in_class(k, s[rspan(s, j, k) - 1]),
    decreases j,
{
    if j > 0 && in_class(k, s[j - 1]) {
        lemma_rspan(s, j - 1, k);
    }
}

/// Computes `span(s, i, k)`.
pub fn scan(s: &Vec<char>, i: usize, k: CharClass) -> (e: usize)
    requires
        i <= s.len(),
    ensures
        e == span(s@, i as int, k),
        i <= e <= s.len(),
{
    let mut e = i;
    while e < s.len() && char_in_class(k, s[e])
        invariant
            i <= e <= s.len(),
            span(s@, e as int, k) == span(s@, i as int, k),
        decreases s.len() - e,
    {
        e = e + 1;
    }
    e
}

/// Computes `rspan(s, j, k)`.
pub fn rscan(s: &Vec<char>, j: usize, k: CharClass) -> (b: usize)
    requires
        j <= s.len(),
    ensures
        b == rspan(s@, j as int, k),
        b <= j,
{
    let mut b = j;
    while b > 0 && char_in_class(k, s[b - 1])
        invariant
            b <= j <= s.len(),
            rspan(s@, b as int, k) == rspan(s@, j as int, k),
        decreases b,
    {
        b = b - 1;
    }
    b
}

/// Start of `trim(s)` within `s`.
pub open spec fn trim_start_index(s: Seq<char>) -> int {
    span(s, 0, CharClass::WhiteSpace)
}

/// End of `trim(s)` within `s`.
pub open spec fn trim_end_index(s: Seq<char>) -> int {
    let lo = trim_start_index(s);
    let hi = rspan(s, s.len() as int, CharClass::WhiteSpace);
    if hi < lo {
        lo
    } else {
        hi
    }
}

/// `s` without leading and trailing white space (`str::trim`).
pub open spec fn trim(s: Seq<char>) -> Seq<char> {
    s.subrange(trim_start_index(s), trim_end_index(s))
}

/// Computes the bounds of `trim(s@)`.
pub fn trim_bounds(s: &Vec<char>) -> (r: (usize, usize))
    ensures
        r.0 == trim_start_index(s@),
        r.1 == trim_end_index(s@),
        r.0 <= r.1 <= s.len(),
{
    let lo = scan(s, 0, CharClass::WhiteSpace);
    let hi = rscan(s, s.len(), CharClass::WhiteSpace);
    if hi < lo {
        (lo, lo)
    } else {
        (lo, hi)
    }
}

/// The characters of a string slice.
pub fn chars_of(s: &str) -> (r: Vec<char>)
    ensures
        r@ == s@,
{
    let mut out: Vec<char> = Vec::new();
    for c in it: s.chars()
        invariant
            out@ == it.seq().take(it.index()),
            it.seq() == s@,
    {
        out.push(c);
    }
    out
}

/// A `String` holding `s[lo..hi]`.
pub fn string_of(s: &Vec<char>, lo: usize, hi: usize) -> (r: String)
    requires
        lo <= hi <= s.len(),
    ensures
        r@ == s@.subrange(lo as int, hi as int),
{
    let mut out = String::new();
    let mut i = lo;
    while i < hi
        invariant
            lo <= i <= hi <= s.len(),
            out@ == s@.subrange(lo as int, i as int),
        decreases hi - i,
    {
        push_char(&mut out, s[i]);
        i = i + 1;
        assert(out@ =~= s@.subrange(lo as int, i as int));
    }
    out
}

/// Whether `pat` occurs in `s` starting at position `i`.
pub open spec fn occurs_at(s: Seq<char>, i: int, pat: Seq<char>) -> bool {
    0 <= i && i + pat.len() <= s.len() && s.subrange(i, i + pat.len()) == pat
}

/// Whether `pat` occurs anywhere in `s` (`str::contains`).
pub open spec fn contains_seq(s: Seq<char>, pat: Seq<char>) -> bool {
    exists|i: int| occurs_at(s, i, pat)
}

/// Computes `occurs_at(s@, i, pat@)`.
pub fn matches_at(s: &Vec<char>, i: usize, pat: &Vec<char>) -> (r: bool)
    ensures
        r == occurs_at(s@, i as int, pat@),
{
    if i > s.len() || pat.len() > s.len() - i {
        return false;
    }
    let mut j: usize = 0;
    while j < pat.len()
        invariant
            j <= pat.len(),
            i + pat.len() <= s.len(),
            forall|m: int| 0 <= m < j ==> s@[i + m] == pat@[m],
        decreases pat.len() - j,
    {
        if s[i + j] != pat[j] {
            assert(s@.subrange(i as int, i + pat.len())[j as int] != pat@[j as int]);
            return false;
        }
        j = j + 1;
    }
    assert(s@.subrange(i as int, i + pat.len()) =~= pat@);
    true
}

/// Computes `contains_seq(s@, pat@)`.
pub fn contains(s: &Vec<char>, pat: &Vec<char>) -> (r: bool)
    ensures
        r == contains_seq(s@, pat@),
{
    if pat.len() == 0 {
        assert(occurs_at(s@, 0, pat@)) by {
            assert(s@.subrange(0, 0) =~= pat@);
        }
        return true;
    }
    let mut i: usize = 0;
    while i < s.len()
        invariant
            i <= s.len(),
            pat.len() > 0,
            forall|m: int| 0 <= m < i ==> !occurs_at(s@, m, pat@),
        decreases s.len() - i,
    {
        if matches_at(s, i, pat) {
            return true;
        }
        i = i + 1;
    }
    assert forall|m: int| !occurs_at(s@, m, pat@) by {
        if 0 <= m < i {
        }
    }
    false
}

/// Whether the characters of `s@` contain those of the literal `pat`.
pub fn contains_str(s: &Vec<char>, pat: &str) -> (r: bool)
    ensures
        r == contains_seq(s@, pat@),
{
    let p = chars_of(pat);
    contains(s, &p)
}

/// `s` without one trailing carriage return.
pub open spec fn strip_cr(s: Seq<char>) -> Seq<char> {
    if s.len() > 0 && s.last() == '\r' {
        s.drop_last()
    } else {
        s
    }
}

/// The lines of `s[start..]`, as `str::lines` gives them: pieces separated by
/// `'\n'`, each without its `"\n"` or `"\r\n"` terminator, with no empty
/// piece after a final `'\n'`.
pub open spec fn lines_from(s: Seq<char>, start: int) -> Seq<Seq<char>>
    decreases s.len() - start,
{
    if start < 0 || start >= s.len() {
        Seq::empty()
    } else {
        let e = span(s, start, CharClass::NotNewline);
        proof {
            lemma_span(s, start, CharClass::NotNewline);
        }
        if e >= s.len() {
            seq![s.subrange(start, s.len() as int)]
        } else {
            seq![strip_cr(s.subrange(start, e))] + lines_from(s, e + 1)
        }
    }
}

/// The lines of `s` (`str::lines`).
pub open spec fn text_lines(s: Seq<char>) -> Seq<Seq<char>> {
    lines_from(s, 0)
}

/// A copy of `s[lo..hi]`.
pub fn slice_vec(s: &Vec<char>, lo: usize, hi: usize) -> (r: Vec<char>)
    requires
        lo <= hi <= s.len(),
    ensures
        r@ == s@.subrange(lo as int, hi as int),
{
    let mut out: Vec<char> = Vec::new();
    let mut i = lo;
    while i < hi
        invariant
            lo <= i <= hi <= s.len(),
            out@ == s@.subrange(lo as int, i as int),
        decreases hi - i,
    {
        out.push(s[i]);
        i = i + 1;
        assert(out@ =~= s@.subrange(lo as int, i as int));
    }
    out
}

/// The character sequences held by a vector of character vectors.
pub open spec fn views_of(v: Seq<Vec<char>>) -> Seq<Seq<char>> {
    v.map_values(|x: Vec<char>| x@)
}

/// Splits `s` into its lines.
pub fn split_lines(s: &Vec<char>) -> (r: Vec<Vec<char>>)
    ensures
        views_of(r@) == text_lines(s@),
{
    let mut out: Vec<Vec<char>> = Vec::new();
    let mut start: usize = 0;
    assert(views_of(out@) + lines_from(s@, 0) =~= lines_from(s@, 0));
    while start < s.len()
        invariant
            start <= s.len(),
            views_of(out@) + lines_from(s@, start as int) == lines_from(s@, 0),
        decreases s.len() - start,
    {
        let e = scan(s, start, CharClass::NotNewline);
        let ghost before = views_of(out@);
        if e >= s.len() {
            let line = slice_vec(s, start, s.len());
            out.push(line);
            assert(views_of(out@) =~= before + seq![s@.subrange(start as int, s.len() as int)]);
            assert(lines_from(s@, s.len() as int) =~= Seq::<Seq<char>>::empty());
            assert(views_of(out@) + lines_from(s@, s.len() as int) =~= before + lines_from(
                s@,
                start as int,
            ));
            start = s.len();
        } else {
            let mut hi = e;
            if hi > start && s[hi - 1] == '\r' {
                hi = hi - 1;
            }
            let line = slice_vec(s, start, hi);
            assert(line@ =~= strip_cr(s@.subrange(start as int, e as int)));
            out.push(line);
            assert(views_of(out@) =~= before + seq![strip_cr(s@.subrange(start as int, e as int))]);
            assert(views_of(out@) + lines_from(s@, e + 1) =~= before + lines_from(
                s@,
                start as int,
            ));
            start = e + 1;
        }
    }
    assert(lines_from(s@, start as int) =~= Seq::<Seq<char>>::empty());
    assert(views_of(out@) =~= text_lines(s@));
    out
}

/// The first white-space-separated token of `s` (the first item of
/// `split_whitespace`), or `None` when `s` holds only white space.
pub open spec fn first_token(s: Seq<char>) -> Option<Seq<char>> {
    let b = span(s, 0, CharClass::WhiteSpace);
    if b >= s.len() {
        None
    } else {
        Some(s.subrange(b, span(s, b, CharClass::NonWhiteSpace)))
    }
}

/// The first token of a text made of white space `w`, a word `word` (no
/// white space in it) and a rest that is empty or starts with white space
/// is the whole word.
pub proof fn lemma_first_token_of(w: Seq<char>, word: Seq<char>, rest: Seq<char>)
    requires
        forall|j: int| 0 <= j < w.len() ==> is_white_space(#[trigger] w[j]),
        word.len() > 0,
        forall|j: int| 0 <= j < word.len() ==> !is_white_space(#[trigger] word[j]),
        rest.len() == 0 || is_white_space(rest[0]),
    ensures
        first_token(w + word + rest) == Some(word),
{
    let s = w + word + rest;
    let a = w.len() as int;
    let b = a + word.len();
    assert forall|j: int| 0 <= j < a implies in_class(CharClass::WhiteSpace, #[trigger] s[j]) by {
        assert(s[j] == w[j]);
    }
    assert(s[a] == word[0]);
    lemma_span_is(s, 0, a, CharClass::WhiteSpace);
    assert forall|j: int| a <= j < b implies in_class(CharClass::NonWhiteSpace, #[trigger] s[j]) by {
        assert(s[j] == word[j - a]);
    }
    if rest.len() > 0 {
        assert(s[b] == rest[0]);
    }
    lemma_span_is(s, a, b, CharClass::NonWhiteSpace);
    assert(s.subrange(a, b) =~= word);
}

/// Bounds of `first_token(s@)` within `s`, when there is one.
pub fn first_token_bounds(s: &Vec<char>) -> (r: Option<(usize, usize)>)
    ensures
        r is None <==> first_token(s@) is None,
        r matches Some((b, e)) ==> b <= e <= s.len() && first_token(s@) == Some(
            s@.subrange(b as int, e as int),
        ),
{
    let b = scan(s, 0, CharClass::WhiteSpace);
    if b >= s.len() {
        None
    } else {
        let e = scan(s, b, CharClass::NonWhiteSpace);
        Some((b, e))
    }
}

/// Whether two character vectors hold the same characters.
pub fn same_chars(a: &Vec<char>, b: &Vec<char>) -> (r: bool)
    ensures
        r == (a@ == b@),
{
    if a.len() != b.len() {
        return false;
    }
    let mut i: usize = 0;
    while i < a.len()
        invariant
            i <= a.len(),
            a.len() == b.len(),
            forall|j: int| 0 <= j < i ==> a@[j] == b@[j],
        decreases a.len() - i,
    {
        if a[i] != b[i] {
            return false;
        }
        i = i + 1;
    }
    assert(a@ =~= b@);
    true
}

/// Whether `x` is among the vectors of `v`.
pub fn contains_chars(v: &Vec<Vec<char>>, x: &Vec<char>) -> (r: bool)
    ensures
        r == views_of(v@).contains(x@),
{
    let mut i: usize = 0;
    while i < v.len()
        invariant
            i <= v.len(),
            forall|j: int| 0 <= j < i ==> v@[j]@ != x@,
        decreases v.len() - i,
    {
        if same_chars(&v[i], x) {
            assert(views_of(v@)[i as int] == x@);
            return true;
        }
        i = i + 1;
    }
    assert forall|j: int| 0 <= j < views_of(v@).len() implies views_of(v@)[j] != x@ by {
        assert(views_of(v@)[j] == v@[j]@);
    }
    false
}

/// `s` with repeated items removed, keeping first occurrences in order.
pub open spec fn distinct<T>(s: Seq<T>) -> Seq<T>
    decreases s.len(),
{
    if s.len() == 0 {
        Seq::empty()
    } else {
        let d = distinct(s.drop_last());
        if d.contains(s.last()) {
            d
        } else {
            d.push(s.last())
        }
    }
}

/// `distinct(s)` holds no repeated item and exactly the items of `s`.
pub proof fn lemma_distinct<T>(s: Seq<T>)
    ensures
        distinct(s).no_duplicates(),
        distinct(s).to_set() == s.to_set(),
        distinct(s).len() == s.to_set().len(),
    decreases s.len(),
{
    if s.len() == 0 {
        assert(distinct(s).to_set() =~= s.to_set());
    } else {
        lemma_distinct(s.drop_last());
        let d = distinct(s.drop_last());
        let x = s.last();
        assert forall|a: T| s.contains(a) <==> (s.drop_last().contains(a) || a == x) by {
            if s.contains(a) {
                let k = choose|k: int| 0 <= k < s.len() && s[k] == a;
                if k < s.len() - 1 {
                    assert(s.drop_last()[k] == a);
                }
            }
            if s.drop_last().contains(a) {
                let k = choose|k: int| 0 <= k < s.drop_last().len() && s.drop_last()[k] == a;
                assert(s[k] == a);
            }
            if a == x {
                assert(s[s.len() - 1] == a);
            }
        }
        assert(d.to_set().contains(x) == d.contains(x));
        if d.contains(x) {
            assert(distinct(s) == d);
            assert(distinct(s).to_set() =~= s.to_set()) by {
                assert forall|a: T| d.to_set().contains(a) <==> s.to_set().contains(a) by {
                    assert(d.to_set().contains(a) <==> s.drop_last().to_set().contains(a));
                }
            }
        } else {
            let p = d.push(x);
            assert(distinct(s) == p);
            assert forall|a: T| p.contains(a) <==> (d.contains(a) || a == x) by {
                if p.contains(a) {
                    let k = choose|k: int| 0 <= k < p.len() && p[k] == a;
                    if k < d.len() {
                        assert(d[k] == a);
                    }
                }
                if d.contains(a) {
                    let k = choose|k: int| 0 <= k < d.len() && d[k] == a;
                    assert(p[k] == a);
                }
                if a == x {
                    assert(p[d.len() as int] == a);
                }
            }
            assert(p.to_set() =~= s.to_set()) by {
                assert forall|a: T| p.to_set().contains(a) <==> s.to_set().contains(a) by {
                    assert(d.to_set().contains(a) <==> s.drop_last().to_set().contains(a));
                }
            }
            assert forall|i: int, j: int| 0 <= i < p.len() && 0 <= j < p.len() && i != j implies p[i]
                != p[j] by {
                if i == d.len() as int {
                    assert(d.contains(p[j]));
                } else if j == d.len() as int {
                    assert(d.contains(p[i]));
                }
            }
        }
    }
    distinct(s).unique_seq_to_set();
}
proof fn lemma_span_before_newline(a: Seq<char>, s: Seq<char>, i: int)
    requires
        0 <= i <= a.len(),
        a.len() < s.len(),
        s[a.len() as int] == '\n',
        forall|j: int| 0 <= j < a.len() ==> s[j] == a[j],
    ensures
        span(s, i, CharClass::NotNewline) == if span(a, i, CharClass::NotNewline) < a.len() {
            span(a, i, CharClass::NotNewline)
        } else {
            a.len() as int
        },
    decreases a.len() - i,
{
    lemma_span(a, i, CharClass::NotNewline);
    if i < a.len() && in_class(CharClass::NotNewline, a[i]) {
        lemma_span_before_newline(a, s, i + 1);
    }
}

proof fn lemma_span_shift(p: Seq<char>, q: Seq<char>, j: int, k: CharClass)
    requires
        0 <= j <= q.len(),
    ensures
        span(p + q, p.len() + j, k) == p.len() + span(q, j, k),
    decreases q.len() - j,
{
    if j < q.len() {
        assert((p + q)[p.len() + j] == q[j]);
        if in_class(k, q[j]) {
            lemma_span_shift(p, q, j + 1, k);
        }
    }
}

proof fn lemma_lines_shift(p: Seq<char>, q: Seq<char>, j: int)
    requires
        0 <= j <= q.len(),
    ensures
        lines_from(p + q, p.len() + j) == lines_from(q, j),
    decreases q.len() - j,
{
    let s = p + q;
    if j < q.len() {
        lemma_span_shift(p, q, j, CharClass::NotNewline);
        lemma_span(q, j, CharClass::NotNewline);
        let e = span(q, j, CharClass::NotNewline);
        assert(s.subrange(p.len() + j, p.len() + e) =~= q.subrange(j, e));
        assert(s.subrange(p.len() + j, s.len() as int) =~= q.subrange(j, q.len() as int));
        if e < q.len() {
            lemma_lines_shift(p, q, e + 1);
        }
    }
}

/// The lines that an empty or newline-terminated text leaves before a
/// further line break: one empty line.
pub open spec fn break_gap(a: Seq<char>) -> Seq<Seq<char>> {
    if a.len() == 0 || a.last() == '\n' {
        seq![Seq::<char>::empty()]
    } else {
        Seq::empty()
    }
}

proof fn lemma_lines_concat_from(a: Seq<char>, b: Seq<char>, start: int)
    requires
        a.len() == 0 || a.last() != '\r',
        0 <= start <= a.len(),
        start == 0 || a[start - 1] == '\n',
    ensures
        lines_from(a + seq!['\n'] + b, start) == lines_from(a, start) + break_gap(a) + text_lines(b),
    decreases a.len() - start,
{
    let s = a + seq!['\n'] + b;
    let n = a.len() as int;
    let p = a + seq!['\n'];
    assert(s == p + b);
    assert(forall|j: int| 0 <= j < n ==> s[j] == a[j]);
    assert(s[n] == '\n');
    lemma_lines_shift(p, b, 0);
    assert(lines_from(s, n + 1) == text_lines(b));
    if start == n {
        assert(span(s, n, CharClass::NotNewline) == n);
        assert(s.subrange(n, n) =~= Seq::<char>::empty());
        assert(strip_cr(Seq::<char>::empty()) =~= Seq::<char>::empty());
        assert(break_gap(a) =~= seq![Seq::<char>::empty()]);
        assert(lines_from(a, n) =~= Seq::<Seq<char>>::empty());
        assert(lines_from(s, n) =~= seq![Seq::<char>::empty()] + lines_from(s, n + 1));
        assert(lines_from(s, start) =~= lines_from(a, start) + break_gap(a) + text_lines(b));
    } else {
        lemma_span_before_newline(a, s, start);
        lemma_span(a, start, CharClass::NotNewline);
        let e = span(a, start, CharClass::NotNewline);
        if e < n {
            assert(s.subrange(start, e) =~= a.subrange(start, e));
            lemma_lines_concat_from(a, b, e + 1);
            assert(lines_from(s, start) =~= lines_from(a, start) + break_gap(a) + text_lines(b));
        } else {
            assert(a[n - 1] != '\n');
            assert(break_gap(a) =~= Seq::<Seq<char>>::empty());
            assert(s.subrange(start, n) =~= a.subrange(start, n));
            assert(strip_cr(a.subrange(start, n)) =~= a.subrange(start, n));
            assert(lines_from(s, start) =~= lines_from(a, start) + break_gap(a) + text_lines(b));
        }
    }
}

/// The lines of two texts joined by a line break are the lines of the first,
/// then one empty line when the first is empty or ends with a line break,
/// then the lines of the second (unless the first ends with a carriage
/// return, which would join the break).
pub proof fn lemma_lines_concat(a: Seq<char>, b: Seq<char>)
    requires
        a.len() == 0 || a.last() != '\r',
    ensures
        text_lines(a + seq!['\n'] + b) == text_lines(a) + break_gap(a) + text_lines(b),
{
    lemma_lines_concat_from(a, b, 0);
}

} // verus!
