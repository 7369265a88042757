//! Decimal numbers and small text operations on strings, with their meaning
//! stated over sequences of characters.

use vstd::prelude::*;
use vstd::string::*;

verus! {

/// An ASCII decimal digit.
pub open spec fn is_digit(c: char) -> bool {
    '0' <= c && c <= '9'
}

/// The value of an ASCII decimal digit.
pub open spec fn digit_value(c: char) -> nat {
    (c as int - '0' as int) as nat
}

/// Every character of `s` is an ASCII decimal digit.
pub open spec fn all_digits(s: Seq<char>) -> bool {
    forall|i: int| 0 <= i < s.len() ==> is_digit(#[trigger] s[i])
}

/// The number written by the decimal digits `s` (most significant first).
pub open spec fn digits_value(s: Seq<char>) -> nat
    decreases s.len(),
{
    if s.len() == 0 {
        0
    } else {
        10 * digits_value(s.drop_last()) + digit_value(s.last())
    }
}

/// The digits of an unsigned number as written: one leading `+` is allowed.
pub open spec fn unsigned_digits(s: Seq<char>) -> Seq<char> {
    if s.len() > 0 && s[0] == '+' {
        s.drop_first()
    } else {
        s
    }
}

/// What parsing `s` as an unsigned integer whose largest value is `max`
/// gives: an optional `+`, then one or more ASCII digits, whose value is at
/// most `max`. Nothing else (no sign `-`, no space) is accepted.
pub open spec fn parse_unsigned(s: Seq<char>, max: nat) -> Option<nat> {
    let d = unsigned_digits(s);
    if d.len() > 0 && all_digits(d) && digits_value(d) <= max {
        Some(digits_value(d))
    } else {
        None
    }
}

/// The character of the decimal digit `d` (`d < 10`).
pub open spec fn digit_char(d: nat) -> char {
    ('0' as int + d) as char
}

/// The shortest decimal writing of `n`: no sign, no leading zero.
pub open spec fn decimal(n: nat) -> Seq<char>
    decreases n,
{
    if n < 10 {
        seq![digit_char(n)]
    } else {
        decimal(n / 10).push(digit_char(n % 10))
    }
}

fn char_is_digit(c: char) -> (r: bool)
    ensures
        r == is_digit(c),
{
    '0' <= c && c <= '9'
}

/// Parses `s` as an unsigned integer no larger than `max`, as `str::parse`
/// does for the unsigned integer types.
pub fn parse_bounded(s: &str, max: u32) -> (r: Option<u32>)
    ensures
        match r {
            Some(v) => parse_unsigned(s@, max as nat) == Some(v as nat),
            None => parse_unsigned(s@, max as nat) is None,
        },
{
    let len = s.unicode_len();
    let mut start: usize = 0;
    if len > 0 && s.get_char(0) == '+' {
        start = 1;
    }
    let ghost d = unsigned_digits(s@);
    assert(d == s@.subrange(start as int, len as int));
    if start == len {
        return None;
    }
    let mut acc: u64 = 0;
    let mut over = false;
    let mut i = start;
    while i < len
        invariant
            start <= i <= len,
            len == s@.len(),
            d == s@.subrange(start as int, len as int),
            d == unsigned_digits(s@),
            all_digits(s@.subrange(start as int, i as int)),
            !over ==> acc == digits_value(s@.subrange(start as int, i as int)) && acc <= max,
            over ==> digits_value(s@.subrange(start as int, i as int)) > max,
        decreases len - i,
    {
        let c = s.get_char(i);
        if !char_is_digit(c) {
            assert(d[i - start] == c);
            assert(!is_digit(d[i - start]));
            assert(!all_digits(d));
            return None;
        }
        let ghost pre = s@.subrange(start as int, i as int);
        let ghost next = s@.subrange(start as int, i + 1);
        assert(next.drop_last() == pre);
        assert(next.last() == c);
        let dv = (c as u32 - '0' as u32) as u64;
        assert(dv == digit_value(c));
        if !over {
            let v = acc * 10 + dv;
            if v > max as u64 {
                over = true;
            } else {
                acc = v;
            }
        }
        assert(all_digits(next)) by {
            assert forall|j: int| 0 <= j < next.len() implies is_digit(#[trigger] next[j]) by {
                if j < pre.len() {
                    assert(next[j] == pre[j]);
                }
            }
        }
        i = i + 1;
    }
    assert(s@.subrange(start as int, len as int) == d);
    if over {
        None
    } else {
        Some(acc as u32)
    }
}

/// Parses `s` as a `u32`.
pub fn parse_u32(s: &str) -> (r: Option<u32>)
    ensures
        match r {
            Some(v) => parse_unsigned(s@, u32::MAX as nat) == Some(v as nat),
            None => parse_unsigned(s@, u32::MAX as nat) is None,
        },
{
    parse_bounded(s, u32::MAX)
}

/// Parses `s` as a `u16`.
pub fn parse_u16(s: &str) -> (r: Option<u16>)
    ensures
        match r {
            Some(v) => parse_unsigned(s@, u16::MAX as nat) == Some(v as nat),
            None => parse_unsigned(s@, u16::MAX as nat) is None,
        },
{
    match parse_bounded(s, 65535) {
        Some(v) => Some(v as u16),
        None => None,
    }
}

/// The one-character text of the decimal digit `d`.
fn digit_text(d: u32) -> (r: &'static str)
    requires
        d < 10,
    ensures
        r@ == seq![digit_char(d as nat)],
{
    let digits = "0123456789";
    proof {
        reveal_strlit("0123456789");
    }
    let r = digits.substring_char(d as usize, d as usize + 1);
    assert(digits@[d as int] == digit_char(d as nat));
    assert(r@ =~= seq![digit_char(d as nat)]);
    r
}

/// Writes `n` in decimal, as `to_string` does for the unsigned integer types.
pub fn decimal_string(n: u32) -> (r: String)
    ensures
        r@ == decimal(n as nat),
    decreases n,
{
    if n < 10 {
        String::from_str(digit_text(n))
    } else {
        let mut r = decimal_string(n / 10);
        r.append(digit_text(n % 10));
        r
    }
}

/// The decimal writing of a number is all digits, has no leading `+`, and
/// reads back as that number.
proof fn lemma_decimal_digits(n: nat)
    ensures
        decimal(n).len() > 0,
        all_digits(decimal(n)),
        decimal(n)[0] != '+',
        digits_value(decimal(n)) == n,
    decreases n,
{
    if n < 10 {
        assert(decimal(n).drop_last() =~= Seq::<char>::empty());
        assert(digit_value(digit_char(n)) == n);
        assert(digits_value(Seq::<char>::empty()) == 0);
        assert(digits_value(decimal(n)) == 10 * digits_value(decimal(n).drop_last()) + digit_value(decimal(n).last()));
    } else {
        assert(digit_value(digit_char(n % 10)) == n % 10);
        assert(10 * (n / 10) + n % 10 == n) by (nonlinear_arith);
        lemma_decimal_digits(n / 10);
        let d = decimal(n);
        assert(d.drop_last() =~= decimal(n / 10));
        assert(d.last() == digit_char(n % 10));
        assert(digits_value(d) == 10 * digits_value(d.drop_last()) + digit_value(d.last()));
        assert forall|i: int| 0 <= i < d.len() implies is_digit(#[trigger] d[i]) by {
            if i < d.len() - 1 {
                assert(d[i] == decimal(n / 10)[i]);
            }
        }
    }
}

/// The decimal writing of a number holds only digits.
pub proof fn lemma_decimal_all_digits(n: nat)
    ensures
        all_digits(decimal(n)),
{
    lemma_decimal_digits(n);
}

/// Reading back the decimal writing of a number `n <= max` gives `n`.
pub proof fn law_decimal_round_trip(n: nat, max: nat)
    requires
        n <= max,
    ensures
        parse_unsigned(decimal(n), max) == Some(n),
{
    lemma_decimal_digits(n);
}

/// `i` is the position of the one and only `sep` in `s`.
pub open spec fn only_sep_at(s: Seq<char>, sep: char, i: int) -> bool {
    &&& 0 <= i < s.len()
    &&& s[i] == sep
    &&& forall|j: int| 0 <= j < s.len() && j != i ==> s[j] != sep
}

/// The two pieces of `s` around `sep` when `sep` occurs exactly once in `s`
/// (that is, when splitting `s` at `sep` gives exactly two pieces).
pub open spec fn two_fields(s: Seq<char>, sep: char) -> Option<(Seq<char>, Seq<char>)> {
    if exists|i: int| only_sep_at(s, sep, i) {
        let i = choose|i: int| only_sep_at(s, sep, i);
        Some((s.take(i), s.skip(i + 1)))
    } else {
        None
    }
}

/// A number read is never above the limit; one digit alone reads as its
/// value; and one more digit at the end of a number read `v` gives `10 v`
/// plus that digit, as long as the limit allows it.
pub proof fn law_parse_digits(s: Seq<char>, d: char, max: nat)
    requires
        is_digit(d),
    ensures
        parse_unsigned(s, max) is Some ==> parse_unsigned(s, max)->Some_0 <= max,
        digit_value(d) <= max ==> parse_unsigned(seq![d], max) == Some(digit_value(d)),
        digit_value(d) < 10,
        (parse_unsigned(s, max) is Some && s[0] != '+' && 10 * parse_unsigned(s, max)->Some_0 + digit_value(d) <= max)
            ==> parse_unsigned(s.push(d), max) == Some(10 * parse_unsigned(s, max)->Some_0 + digit_value(d)),
        (parse_unsigned(s, max) is Some && s[0] != '+' && 10 * parse_unsigned(s, max)->Some_0 + digit_value(d) > max)
            ==> parse_unsigned(s.push(d), max) is None,
{
    assert(seq![d].drop_last() =~= Seq::<char>::empty());
    assert(digits_value(seq![d]) == 10 * digits_value(Seq::<char>::empty()) + digit_value(d));
    if parse_unsigned(s, max) is Some && s[0] != '+' {
        let t = s.push(d);
        assert(unsigned_digits(t) == t);
        assert(unsigned_digits(s) == s);
        assert(t.drop_last() =~= s);
        assert(all_digits(t)) by {
            assert forall|i: int| 0 <= i < t.len() implies is_digit(#[trigger] t[i]) by {
                if i < s.len() {
                    assert(t[i] == s[i]);
                }
            }
        }
    }
}

/// A leading `+` is allowed once: `+` before a text that does not itself
/// begin with `+` reads as that text does; a text that begins with `-`, an
/// empty text and `+` alone are never numbers.
pub proof fn law_parse_signs(s: Seq<char>, max: nat)
    ensures
        s.len() > 0 && s[0] != '+' ==> parse_unsigned(seq!['+'] + s, max) == parse_unsigned(s, max),
        s.len() > 0 && s[0] == '-' ==> parse_unsigned(s, max) is None,
        parse_unsigned(Seq::<char>::empty(), max) is None,
        parse_unsigned(seq!['+'], max) is None,
{
    if s.len() > 0 && s[0] != '+' {
        assert((seq!['+'] + s).drop_first() =~= s);
    }
    if s.len() > 0 && s[0] == '-' {
        assert(unsigned_digits(s) == s);
        assert(!is_digit(s[0]));
    }
    assert(seq!['+'].drop_first() =~= Seq::<char>::empty());
}

/// The decimal writing of a number is made of digits and has no leading zero,
/// except for zero itself, which is written `0`.
pub proof fn law_decimal_canonical(n: nat)
    ensures
        all_digits(decimal(n)),
        decimal(n).len() > 0,
        n > 0 ==> decimal(n)[0] != '0',
        n == 0 ==> decimal(n) == seq!['0'],
    decreases n,
{
    lemma_decimal_digits(n);
    if n >= 10 {
        law_decimal_canonical(n / 10);
        assert(decimal(n)[0] == decimal(n / 10)[0]);
    }
}

proof fn lemma_find_trim_start(s: Seq<char>, a: int) -> (r: int)
    requires
        0 <= a <= s.len(),
        forall|i: int| 0 <= i < a ==> is_white_space(#[trigger] s[i]),
    ensures
        is_trim_start(s, r),
    decreases s.len() - a,
{
    if a < s.len() && is_white_space(s[a]) {
        lemma_find_trim_start(s, a + 1)
    } else {
        a
    }
}

proof fn lemma_find_trim_end(s: Seq<char>, a: int, b: int) -> (r: int)
    requires
        0 <= a <= b <= s.len(),
        forall|i: int| b <= i < s.len() ==> is_white_space(#[trigger] s[i]),
    ensures
        is_trim_end(s, a, r),
    decreases b,
{
    if b > a && is_white_space(s[b - 1]) {
        lemma_find_trim_end(s, a, b - 1)
    } else {
        b
    }
}

/// The trimmed text is a piece of the text, white space lies all around it,
/// and it neither begins nor ends with white space.
pub proof fn law_trimmed_shape(s: Seq<char>)
    ensures
        exists|a: int|
            0 <= a && a + trimmed(s).len() <= s.len() && #[trigger] s.subrange(a, a + trimmed(s).len()) == trimmed(s)
                && (forall|i: int| 0 <= i < a ==> is_white_space(#[trigger] s[i]))
                && (forall|i: int| a + trimmed(s).len() <= i < s.len() ==> is_white_space(#[trigger] s[i])),
        trimmed(s).len() > 0 ==> !is_white_space(trimmed(s)[0]) && !is_white_space(trimmed(s).last()),
{
    let a = lemma_find_trim_start(s, 0);
    let b = lemma_find_trim_end(s, a, s.len() as int);
    let ca = choose|x: int| is_trim_start(s, x);
    assert(ca == a) by {
        if ca < a {
            assert(is_white_space(s[ca]));
        } else if ca > a {
            assert(is_white_space(s[a]));
        }
    }
    let cb = choose|y: int| is_trim_end(s, a, y);
    assert(cb == b) by {
        if cb < b {
            assert(is_white_space(s[b - 1]));
        } else if cb > b {
            assert(is_white_space(s[cb - 1]));
        }
    }
    assert(trimmed(s) == s.subrange(a, b));
    assert(s.subrange(a, a + trimmed(s).len()) == trimmed(s));
}

/// The two fields of `s` around `sep` put back together with `sep` give `s`,
/// and neither field holds `sep`; and `s` has two such fields whenever it
/// holds `sep` exactly once.
pub proof fn law_two_fields(s: Seq<char>, sep: char)
    ensures
        two_fields(s, sep) is Some ==> ({
            let (a, b) = two_fields(s, sep)->Some_0;
            &&& a + seq![sep] + b == s
            &&& !a.contains(sep)
            &&& !b.contains(sep)
        }),
        forall|i: int| #[trigger] only_sep_at(s, sep, i) ==> two_fields(s, sep) == Some((s.take(i), s.skip(i + 1))),
{
    if two_fields(s, sep) is Some {
        let i = choose|i: int| only_sep_at(s, sep, i);
        let a = s.take(i);
        let b = s.skip(i + 1);
        assert(a + seq![sep] + b =~= s);
        assert(!a.contains(sep)) by {
            if a.contains(sep) {
                let j = choose|j: int| 0 <= j < a.len() && a[j] == sep;
                assert(s[j] == sep);
            }
        }
        assert(!b.contains(sep)) by {
            if b.contains(sep) {
                let j = choose|j: int| 0 <= j < b.len() && b[j] == sep;
                assert(s[j + i + 1] == sep);
            }
        }
    }
    assert forall|i: int| #[trigger] only_sep_at(s, sep, i) implies two_fields(s, sep) == Some((s.take(i), s.skip(i + 1))) by {
        let c = choose|c: int| only_sep_at(s, sep, c);
        assert(c == i);
    }
}

/// Splits `s` at `sep`, when `sep` occurs exactly once in it.
pub fn split_two(s: &str, sep: char) -> (r: Option<(String, String)>)
    ensures
        match r {
            Some((a, b)) => two_fields(s@, sep) == Some((a@, b@)),
            None => two_fields(s@, sep) is None,
        },
{
    let len = s.unicode_len();
    let mut found: Option<usize> = None;
    let mut i: usize = 0;
    while i < len
        invariant
            i <= len,
            len == s@.len(),
            match found {
                Some(k) => k < i && s@[k as int] == sep && forall|j: int|
                    0 <= j < i && j != k ==> s@[j] != sep,
                None => forall|j: int| 0 <= j < i ==> s@[j] != sep,
            },
        decreases len - i,
    {
        let c = s.get_char(i);
        if c == sep {
            match found {
                Some(k) => {
                    assert forall|w: int| !only_sep_at(s@, sep, w) by {
                        if only_sep_at(s@, sep, w) {
                            assert(s@[k as int] == sep);
                            assert(s@[i as int] == sep);
                        }
                    }
                    return None;
                },
                None => {
                    found = Some(i);
                },
            }
        }
        i = i + 1;
    }
    match found {
        Some(k) => {
            assert(only_sep_at(s@, sep, k as int));
            let a = String::from_str(s.substring_char(0, k));
            let b = String::from_str(s.substring_char(k + 1, len));
            assert(a@ =~= s@.take(k as int));
            assert(b@ =~= s@.skip(k + 1));
            Some((a, b))
        },
        None => {
            assert forall|w: int| !only_sep_at(s@, sep, w) by {
                if only_sep_at(s@, sep, w) {
                    assert(s@[w] == sep);
                }
            }
            None
        },
    }
}

/// A character with the Unicode `White_Space` property.
pub open spec fn is_white_space(c: char) -> bool {
    ||| '\u{9}' <= c && c <= '\u{d}'
    ||| c == ' '
    ||| c == '\u{85}'
    ||| c == '\u{a0}'
    ||| c == '\u{1680}'
    ||| '\u{2000}' <= c && c <= '\u{200a}'
    ||| c == '\u{2028}'
    ||| c == '\u{2029}'
    ||| c == '\u{202f}'
    ||| c == '\u{205f}'
    ||| c == '\u{3000}'
}

fn char_is_white_space(c: char) -> (r: bool)
    ensures
        r == is_white_space(c),
{
    ('\u{9}' <= c && c <= '\u{d}') || c == ' ' || c == '\u{85}' || c == '\u{a0}' || c == '\u{1680}'
        || ('\u{2000}' <= c && c <= '\u{200a}') || c == '\u{2028}' || c == '\u{2029}' || c
        == '\u{202f}' || c == '\u{205f}' || c == '\u{3000}'
}

/// `a` is where the text of `s` begins once leading white space is dropped.
pub open spec fn is_trim_start(s: Seq<char>, a: int) -> bool {
    &&& 0 <= a <= s.len()
    &&& forall|i: int| 0 <= i < a ==> is_white_space(#[trigger] s[i])
    &&& a == s.len() || !is_white_space(s[a])
}

/// `b` is where the text of `s` from `a` ends once trailing white space is dropped.
pub open spec fn is_trim_end(s: Seq<char>, a: int, b: int) -> bool {
    &&& a <= b <= s.len()
    &&& forall|i: int| b <= i < s.len() ==> is_white_space(#[trigger] s[i])
    &&& b == a || !is_white_space(s[b - 1])
}

/// `s` without its leading and trailing white space.
pub open spec fn trimmed(s: Seq<char>) -> Seq<char> {
    let a = choose|a: int| is_trim_start(s, a);
    let b = choose|b: int| is_trim_end(s, a, b);
    s.subrange(a, b)
}

/// Drops the leading and trailing white space of `s`, as `str::trim` does.
pub fn trim(s: &str) -> (r: String)
    ensures
        r@ == trimmed(s@),
{
    let len = s.unicode_len();
    let mut a: usize = 0;
    while a < len && char_is_white_space(s.get_char(a))
        invariant
            a <= len,
            len == s@.len(),
            forall|i: int| 0 <= i < a ==> is_white_space(#[trigger] s@[i]),
        decreases len - a,
    {
        a = a + 1;
    }
    assert(is_trim_start(s@, a as int));
    let mut b: usize = len;
    while b > a && char_is_white_space(s.get_char(b - 1))
        invariant
            a <= b <= len,
            len == s@.len(),
            forall|i: int| b <= i < len ==> is_white_space(#[trigger] s@[i]),
        decreases b,
    {
        b = b - 1;
    }
    assert(is_trim_end(s@, a as int, b as int));
    let ghost ca = choose|x: int| is_trim_start(s@, x);
    assert(ca == a) by {
        if ca < a {
            assert(is_white_space(s@[ca]));
        } else if ca > a {
            assert(is_white_space(s@[a as int]));
        }
    }
    let ghost cb = choose|y: int| is_trim_end(s@, a as int, y);
    assert(cb == b) by {
        if cb < b {
            assert(is_white_space(s@[b - 1]));
        } else if cb > b {
            assert(is_white_space(s@[cb - 1]));
        }
    }
    let r = String::from_str(s.substring_char(a, b));
    r
}

/// `a` followed by `b`.
pub fn joined(a: &str, b: &str) -> (r: String)
    ensures
        r@ == a@ + b@,
{
    let mut r = String::from_str(a);
    r.append(b);
    r
}

/// Whether `a` and `b` hold the same characters.
pub fn same_text(a: &str, b: &str) -> (r: bool)
    ensures
        r == (a@ == b@),
{
    let n = a.unicode_len();
    if n != b.unicode_len() {
        return false;
    }
    let mut i: usize = 0;
    while i < n
        invariant
            i <= n,
            n == a@.len(),
            n == b@.len(),
            forall|j: int| 0 <= j < i ==> a@[j] == b@[j],
        decreases n - i,
    {
        if a.get_char(i) != b.get_char(i) {
            return false;
        }
        i = i + 1;
    }
    assert(a@ =~= b@);
    true
}

} // verus!
