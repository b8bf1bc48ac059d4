//! Character-level helpers: key ordering, decimal rendering and parsing,
//! whitespace trimming.

use vstd::prelude::*;
use vstd::string::*;

verus! {

/// Appends one character (`String::push`).
#[verifier::external_body]
pub(crate) fn push_char(s: &mut String, c: char)
    ensures
        final(s)@ == old(s)@.push(c),
{
    s.push(c);
}

/// Strict lexicographic order on character sequences, comparing code points
/// (the order of `str`'s `Ord`, since UTF-8 preserves code point order).
pub open spec fn chars_lt(a: Seq<char>, b: Seq<char>) -> bool
    decreases a.len(),
{
    if a.len() == 0 {
        b.len() > 0
    } else if b.len() == 0 {
        false
    } else if a[0] != b[0] {
        (a[0] as int) < (b[0] as int)
    } else {
        chars_lt(a.drop_first(), b.drop_first())
    }
}

/// No sequence is below itself.
pub proof fn lemma_chars_lt_irreflexive(a: Seq<char>)
    ensures
        !chars_lt(a, a),
    decreases a.len(),
{
    if a.len() > 0 {
        lemma_chars_lt_irreflexive(a.drop_first());
    }
}

/// Two sequences are not each below the other.
pub proof fn lemma_chars_lt_asymmetric(a: Seq<char>, b: Seq<char>)
    ensures
        !(chars_lt(a, b) && chars_lt(b, a)),
    decreases a.len(),
{
    if a.len() > 0 && b.len() > 0 && a[0] == b[0] {
        lemma_chars_lt_asymmetric(a.drop_first(), b.drop_first());
    }
}

/// The order is transitive.
pub proof fn lemma_chars_lt_transitive(a: Seq<char>, b: Seq<char>, c: Seq<char>)
    requires
        chars_lt(a, b),
        chars_lt(b, c),
    ensures
        chars_lt(a, c),
    decreases a.len(),
{
    if a.len() > 0 && b.len() > 0 && c.len() > 0 && a[0] == b[0] && b[0] == c[0] {
        lemma_chars_lt_transitive(a.drop_first(), b.drop_first(), c.drop_first());
    }
}

/// Two different sequences are ordered one way or the other.
pub proof fn lemma_chars_lt_total(a: Seq<char>, b: Seq<char>)
    ensures
        a != b ==> chars_lt(a, b) || chars_lt(b, a),
    decreases a.len(),
{
    if a.len() > 0 && b.len() > 0 && a[0] == b[0] {
        lemma_chars_lt_total(a.drop_first(), b.drop_first());
        if a.drop_first() == b.drop_first() {
            assert(a =~= seq![a[0]] + a.drop_first());
            assert(b =~= seq![b[0]] + b.drop_first());
        }
    } else if a.len() == 0 && b.len() == 0 {
        assert(a =~= b);
    } else if a.len() > 0 && b.len() > 0 {
        assert((a[0] as int) != (b[0] as int));
    }
}

/// Strips a common prefix of length `i` from both sides of the order.
proof fn lemma_chars_lt_skip(a: Seq<char>, b: Seq<char>, i: int)
    requires
        0 <= i < a.len(),
        i < b.len(),
        a[i] == b[i],
    ensures
        chars_lt(a.skip(i), b.skip(i)) == chars_lt(a.skip(i + 1), b.skip(i + 1)),
{
    assert(a.skip(i).drop_first() =~= a.skip(i + 1));
    assert(b.skip(i).drop_first() =~= b.skip(i + 1));
}

/// Decides `chars_lt(a@, b@)`.
pub fn str_lt(a: &str, b: &str) -> (r: bool)
    ensures
        r == chars_lt(a@, b@),
{
    let la = a.unicode_len();
    let lb = b.unicode_len();
    let mut i: usize = 0;
    assert(a@.skip(0) =~= a@);
    assert(b@.skip(0) =~= b@);
    while i < la && i < lb
        invariant
            la == a@.len(),
            lb == b@.len(),
            i <= la,
            i <= lb,
            chars_lt(a@, b@) == chars_lt(a@.skip(i as int), b@.skip(i as int)),
        decreases la - i,
    {
        let ca = a.get_char(i);
        let cb = b.get_char(i);
        if ca != cb {
            assert(a@.skip(i as int)[0] == ca);
            assert(b@.skip(i as int)[0] == cb);
            return ca < cb;
        }
        proof {
            lemma_chars_lt_skip(a@, b@, i as int);
        }
        i = i + 1;
    }
    assert(a@.skip(i as int).len() == la - i);
    assert(b@.skip(i as int).len() == lb - i);
    i == la && i < lb
}

/// Decides `a@ == b@`.
pub fn str_eq(a: &str, b: &str) -> (r: bool)
    ensures
        r == (a@ == b@),
{
    let la = a.unicode_len();
    let lb = b.unicode_len();
    if la != lb {
        return false;
    }
    let mut i: usize = 0;
    while i < la
        invariant
            la == a@.len(),
            lb == b@.len(),
            la == lb,
            i <= la,
            forall|j: int| 0 <= j < i ==> a@[j] == b@[j],
        decreases la - i,
    {
        if a.get_char(i) != b.get_char(i) {
            return false;
        }
        i = i + 1;
    }
    assert(a@ =~= b@);
    true
}


/// The decimal digit character for `d < 10`.
pub open spec fn digit_char(d: nat) -> char {
    (48 + d) as char
}

/// Decimal rendering of a natural number, without sign or leading zeros
/// (what `to_string` gives for an unsigned integer).
pub open spec fn decimal(n: nat) -> Seq<char>
    decreases n,
{
    if n < 10 {
        seq![digit_char(n)]
    } else {
        decimal(n / 10).push(digit_char(n % 10))
    }
}

proof fn lemma_decimal_len(n: nat)
    ensures
        decimal(n).len() >= 1,
        n >= 10 ==> decimal(n).len() >= 2,
    decreases n,
{
    if n >= 10 {
        lemma_decimal_len(n / 10);
    }
}

/// Different numbers have different decimal renderings, so generated
/// request ids never repeat.
pub proof fn law_decimal_injective(n: nat, m: nat)
    requires
        decimal(n) == decimal(m),
    ensures
        n == m,
    decreases n,
{
    lemma_decimal_len(n);
    lemma_decimal_len(m);
    if n < 10 && m < 10 {
        assert(decimal(n)[0] == digit_char(n));
        assert(decimal(m)[0] == digit_char(m));
        assert((digit_char(n) as int) == 48 + n);
        assert((digit_char(m) as int) == 48 + m);
    } else if n >= 10 && m >= 10 {
        let a = decimal(n);
        let b = decimal(m);
        assert(a.last() == digit_char(n % 10));
        assert(b.last() == digit_char(m % 10));
        assert((digit_char(n % 10) as int) == 48 + n % 10);
        assert((digit_char(m % 10) as int) == 48 + m % 10);
        assert(a.drop_last() =~= decimal(n / 10));
        assert(b.drop_last() =~= decimal(m / 10));
        law_decimal_injective(n / 10, m / 10);
        assert(n == (n / 10) * 10 + n % 10) by (nonlinear_arith);
        assert(m == (m / 10) * 10 + m % 10) by (nonlinear_arith);
    } else if n < 10 {
        assert(decimal(n).len() == 1);
    } else {
        assert(decimal(m).len() == 1);
    }
}

/// Appends the decimal rendering of `n`.
pub fn push_decimal(s: &mut String, n: u64)
    ensures
        final(s)@ == old(s)@ + decimal(n as nat),
    decreases n,
{
    if n >= 10 {
        push_decimal(s, n / 10);
    }
    let d: u8 = (n % 10) as u8;
    let c: char = (48u8 + d) as char;
    assert(c == digit_char((n % 10) as nat));
    push_char(s, c);
    proof {
        if n >= 10 {
            assert(decimal(n as nat) == decimal((n / 10) as nat).push(digit_char((n % 10) as nat)));
        }
    }
    assert(final(s)@ =~= old(s)@ + decimal(n as nat));
}

/// The decimal rendering of `n` as a new string.
pub fn u64_to_decimal(n: u64) -> (r: String)
    ensures
        r@ == decimal(n as nat),
{
    let mut s = String::new();
    push_decimal(&mut s, n);
    assert(s@ =~= decimal(n as nat));
    s
}

/// Why text is not an unsigned integer of the wanted width; the kinds that
/// `u16::from_str` can report.
#[derive(Clone, Copy, Debug, PartialEq, Eq)]
pub enum IntErrorKind {
    Empty,
    InvalidDigit,
    PosOverflow,
}

/// `c` is an ASCII decimal digit.
pub open spec fn is_digit(c: char) -> bool {
    48 <= (c as int) <= 57
}

/// The value of an ASCII decimal digit.
pub open spec fn digit_value(c: char) -> int {
    (c as int) - 48
}

/// Reads decimal digits left to right into `acc`, failing on the first
/// non-digit or as soon as the value leaves `u16`.
pub open spec fn parse_digits_u16(s: Seq<char>, acc: int) -> Result<u16, IntErrorKind>
    decreases s.len(),
{
    if s.len() == 0 {
        Ok(acc as u16)
    } else if !is_digit(s[0]) {
        Err(IntErrorKind::InvalidDigit)
    } else if acc * 10 + digit_value(s[0]) > 65535 {
        Err(IntErrorKind::PosOverflow)
    } else {
        parse_digits_u16(s.drop_first(), acc * 10 + digit_value(s[0]))
    }
}

/// What `s.parse::<u16>()` gives: an optional leading `+`, then at least one
/// decimal digit.
pub open spec fn parse_u16_spec(s: Seq<char>) -> Result<u16, IntErrorKind> {
    if s.len() == 0 {
        Err(IntErrorKind::Empty)
    } else if s.len() == 1 && (s[0] == '+' || s[0] == '-') {
        Err(IntErrorKind::InvalidDigit)
    } else if s[0] == '+' {
        parse_digits_u16(s.drop_first(), 0)
    } else {
        parse_digits_u16(s, 0)
    }
}

/// Parses an unsigned 16-bit decimal number as `str::parse::<u16>` does.
pub fn parse_u16(s: &str) -> (r: Result<u16, IntErrorKind>)
    ensures
        r == parse_u16_spec(s@),
{
    let len = s.unicode_len();
    if len == 0 {
        return Err(IntErrorKind::Empty);
    }
    let first = s.get_char(0);
    if len == 1 && (first == '+' || first == '-') {
        return Err(IntErrorKind::InvalidDigit);
    }
    let mut i: usize = if first == '+' { 1 } else { 0 };
    let ghost start = i as int;
    let mut acc: u32 = 0;
    assert(s@.skip(start) =~= if first == '+' { s@.drop_first() } else { s@ });
    while i < len
        invariant
            len == s@.len(),
            start <= i <= len,
            acc <= 65535,
            parse_u16_spec(s@) == parse_digits_u16(s@.skip(i as int), acc as int),
            s@.len() > 0,
            !(s@.len() == 1 && (s@[0] == '+' || s@[0] == '-')),
            parse_u16_spec(s@) == parse_digits_u16(s@.skip(start), 0),
        decreases len - i,
    {
        let c = s.get_char(i);
        assert(s@.skip(i as int)[0] == c);
        assert(s@.skip(i as int).drop_first() =~= s@.skip(i + 1));
        if !('0' <= c && c <= '9') {
            return Err(IntErrorKind::InvalidDigit);
        }
        let d: u32 = (c as u32) - 48;
        assert(d as int == digit_value(c));
        let next: u32 = acc * 10 + d;
        if next > 65535 {
            return Err(IntErrorKind::PosOverflow);
        }
        acc = next;
        i = i + 1;
    }
    assert(s@.skip(i as int).len() == 0);
    Ok(acc as u16)
}

/// Reading digits one more character at the end continues from the value of
/// the shorter text.
proof fn lemma_parse_digits_push(s: Seq<char>, c: char, acc: int)
    requires
        0 <= acc <= 65535,
    ensures
        parse_digits_u16(s.push(c), acc) == (match parse_digits_u16(s, acc) {
            Ok(v) => parse_digits_u16(seq![c], v as int),
            Err(e) => Err(e),
        }),
    decreases s.len(),
{
    if s.len() == 0 {
        assert(s.push(c) =~= seq![c]);
    } else {
        assert(s.push(c).drop_first() =~= s.drop_first().push(c));
        assert(s.push(c)[0] == s[0]);
        if is_digit(s[0]) && acc * 10 + digit_value(s[0]) <= 65535 {
            lemma_parse_digits_push(s.drop_first(), c, acc * 10 + digit_value(s[0]));
        }
    }
}

/// Rendering a value of `u16` in decimal and parsing it gives it back.
pub proof fn law_parse_u16_of_decimal(n: u16)
    ensures
        parse_u16_spec(decimal(n as nat)) == Ok::<u16, IntErrorKind>(n),
{
    lemma_parse_digits_of_decimal(n as nat);
    lemma_decimal_first_is_digit(n as nat);
}

proof fn lemma_decimal_first_is_digit(n: nat)
    ensures
        decimal(n).len() > 0,
        is_digit(decimal(n)[0]),
    decreases n,
{
    if n >= 10 {
        lemma_decimal_first_is_digit(n / 10);
    }
}

proof fn lemma_parse_digits_of_decimal(n: nat)
    requires
        n <= 65535,
    ensures
        parse_digits_u16(decimal(n), 0) == Ok::<u16, IntErrorKind>(n as u16),
    decreases n,
{
    if n < 10 {
        let s = decimal(n);
        assert(s.drop_first() =~= Seq::<char>::empty());
        assert(is_digit(digit_char(n)) && digit_value(digit_char(n)) == n);
        assert(parse_digits_u16(s.drop_first(), n as int) == Ok::<u16, IntErrorKind>(n as u16));
    } else {
        lemma_parse_digits_of_decimal(n / 10);
        lemma_parse_digits_push(decimal(n / 10), digit_char(n % 10), 0);
        let t = seq![digit_char(n % 10)];
        assert(t.drop_first() =~= Seq::<char>::empty());
        assert(is_digit(digit_char(n % 10)) && digit_value(digit_char(n % 10)) == n % 10);
        assert((n / 10) * 10 + n % 10 == n) by (nonlinear_arith);
        assert(((n / 10) as u16) as int == n / 10);
        assert(decimal(n) == decimal(n / 10).push(digit_char(n % 10)));
        assert(parse_digits_u16(t.drop_first(), n as int) == Ok::<u16, IntErrorKind>(n as u16));
        assert(parse_digits_u16(t, (n / 10) as int) == Ok::<u16, IntErrorKind>(n as u16));
    }
}


/// The Unicode `White_Space` property, which `char::is_whitespace` tests.
pub open spec fn is_whitespace(c: char) -> bool {
    let v = c as int;
    (9 <= v <= 13) || v == 32 || v == 0x85 || v == 0xA0 || v == 0x1680 || (0x2000 <= v <= 0x200A)
        || v == 0x2028 || v == 0x2029 || v == 0x202F || v == 0x205F || v == 0x3000
}

/// Decides `is_whitespace(c)`.
pub fn char_is_whitespace(c: char) -> (r: bool)
    ensures
        r == is_whitespace(c),
{
    let v: u32 = c as u32;
    assert(v as int == c as int);
    (9 <= v && v <= 13) || v == 32 || v == 0x85 || v == 0xA0 || v == 0x1680 || (0x2000 <= v
        && v <= 0x200A) || v == 0x2028 || v == 0x2029 || v == 0x202F || v == 0x205F || v
        == 0x3000
}

/// `s` with leading and trailing white space removed (`str::trim`): the
/// part from `lo` to `hi` where `lo` is the first non-space position and
/// `hi` one past the last one.
pub open spec fn is_trim_of(s: Seq<char>, t: Seq<char>) -> bool {
    exists|lo: int, hi: int|
        #![trigger s.subrange(lo, hi)]
        0 <= lo <= hi <= s.len() && t == s.subrange(lo, hi) && (forall|k: int|
            0 <= k < lo ==> is_whitespace(#[trigger] s[k])) && (forall|k: int|
            hi <= k < s.len() ==> is_whitespace(#[trigger] s[k])) && (lo < hi ==> !is_whitespace(
            s[lo]) && !is_whitespace(s[hi - 1]))
    }

/// The text of `s` without its leading and trailing white space.
pub fn trim(s: &str) -> (r: String)
    ensures
        is_trim_of(s@, r@),
{
    let len = s.unicode_len();
    let mut lo: usize = 0;
    while lo < len
        invariant
            len == s@.len(),
            lo <= len,
            forall|k: int| 0 <= k < lo ==> is_whitespace(#[trigger] s@[k]),
        ensures
            lo <= len,
            forall|k: int| 0 <= k < lo ==> is_whitespace(#[trigger] s@[k]),
            lo < len ==> !is_whitespace(s@[lo as int]),
        decreases len - lo,
    {
        if !char_is_whitespace(s.get_char(lo)) {
            break;
        }
        lo = lo + 1;
    }
    let mut hi: usize = len;
    while hi > lo
        invariant
            len == s@.len(),
            lo <= hi <= len,
            forall|k: int| hi <= k < len ==> is_whitespace(#[trigger] s@[k]),
        ensures
            lo <= hi <= len,
            forall|k: int| hi <= k < len ==> is_whitespace(#[trigger] s@[k]),
            lo < hi ==> !is_whitespace(s@[hi - 1]),
        decreases hi,
    {
        if !char_is_whitespace(s.get_char(hi - 1)) {
            break;
        }
        hi = hi - 1;
    }
    let r = s.substring_char(lo, hi).to_owned();
    assert(r@ == s@.subrange(lo as int, hi as int));
    assert(lo < hi ==> lo < len);
    r
}

/// A text has one trimmed form.
pub proof fn lemma_trim_unique_pair(s: Seq<char>, t: Seq<char>)
    requires
        is_trim_of(s, t),
    ensures
        forall|u: Seq<char>| #[trigger] is_trim_of(s, u) ==> u == t,
{
    let (lo1, hi1) = choose|lo: int, hi: int|
        #![trigger s.subrange(lo, hi)]
        0 <= lo <= hi <= s.len() && t == s.subrange(lo, hi) && (forall|k: int|
            0 <= k < lo ==> is_whitespace(#[trigger] s[k])) && (forall|k: int|
            hi <= k < s.len() ==> is_whitespace(#[trigger] s[k])) && (lo < hi ==> !is_whitespace(
            s[lo]) && !is_whitespace(s[hi - 1]));
    assert forall|u: Seq<char>| #[trigger] is_trim_of(s, u) implies u == t by {
        let (lo2, hi2) = choose|lo: int, hi: int|
            #![trigger s.subrange(lo, hi)]
            0 <= lo <= hi <= s.len() && u == s.subrange(lo, hi) && (forall|k: int|
                0 <= k < lo ==> is_whitespace(#[trigger] s[k])) && (forall|k: int|
                hi <= k < s.len() ==> is_whitespace(#[trigger] s[k])) && (lo < hi ==> !is_whitespace(
                s[lo]) && !is_whitespace(s[hi - 1]));
        if lo1 < hi1 && lo2 < hi2 {
            if lo1 < lo2 {
                assert(is_whitespace(s[lo1]));
            }
            if lo2 < lo1 {
                assert(is_whitespace(s[lo2]));
            }
            if hi1 < hi2 {
                assert(is_whitespace(s[hi2 - 1]));
            }
            if hi2 < hi1 {
                assert(is_whitespace(s[hi1 - 1]));
            }
        } else if lo1 < hi1 {
            if lo1 < lo2 {
                assert(is_whitespace(s[lo1]));
            } else {
                assert(is_whitespace(s[lo1]));
            }
        } else if lo2 < hi2 {
            if lo2 < lo1 {
                assert(is_whitespace(s[lo2]));
            } else {
                assert(is_whitespace(s[lo2]));
            }
        } else {
            assert(t =~= Seq::<char>::empty());
            assert(u =~= Seq::<char>::empty());
        }
    }
}

/// Decimal rendering of an integer, with a leading `-` when negative.
pub open spec fn signed_decimal(i: int) -> Seq<char> {
    if i < 0 {
        seq!['-'] + decimal((-i) as nat)
    } else {
        decimal(i as nat)
    }
}

/// Appends the decimal rendering of `n` (what `to_string` gives).
pub fn push_signed_decimal(s: &mut String, n: i64)
    ensures
        final(s)@ == old(s)@ + signed_decimal(n as int),
{
    if n < 0 {
        push_char(s, '-');
        let m: u64 = (0i128 - (n as i128)) as u64;
        assert(m as int == -(n as int));
        push_decimal(s, m);
        assert(final(s)@ =~= old(s)@ + signed_decimal(n as int));
    } else {
        push_decimal(s, n as u64);
    }
}

} // verus!
