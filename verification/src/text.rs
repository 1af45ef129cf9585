//! Sequences of characters and bytes: searching, trimming, numbers in decimal
//! and hexadecimal notation, and the conversions between `String`, `Vec<char>`
//! and UTF-8 bytes that the parsers of this crate are built on.

use vstd::prelude::*;
use vstd::slice::{slice_subrange, slice_to_vec};
use vstd::std_specs::iter::IteratorSpec;
use vstd::string::*;
use vstd::utf8::*;

verus! {

/// `String::push` appends one character to the end of the string.
pub assume_specification[ String::push ](s: &mut String, ch: char)
    ensures
        final(s)@ == old(s)@.push(ch),
;

/// Index of the first occurrence of `x` in `s`, or `s.len()` where `s` holds no `x`.
pub open spec fn position<T>(s: Seq<T>, x: T) -> int {
    match s.index_of_first(x) {
        Some(i) => i,
        None => s.len() as int,
    }
}

/// Index of the last occurrence of `x` in `s`.
pub open spec fn last_position<T>(s: Seq<T>, x: T) -> Option<int> {
    s.index_of_last(x)
}

/// What `position` returns: the least index that holds `x`, or the length.
pub proof fn lemma_position<T>(s: Seq<T>, x: T)
    ensures
        0 <= position(s, x) <= s.len(),
        position(s, x) < s.len() ==> s[position(s, x)] == x,
        forall|j: int| 0 <= j < position(s, x) ==> s[j] != x,
        position(s, x) == s.len() <==> !s.contains(x),
{
    s.index_of_first_ensures(x);
}

/// An index with nothing equal to `x` before it, which holds `x` or is the
/// length, is `position(s, x)`.
pub proof fn lemma_position_is<T>(s: Seq<T>, x: T, i: int)
    requires
        0 <= i <= s.len(),
        forall|j: int| 0 <= j < i ==> s[j] != x,
        i < s.len() ==> s[i] == x,
    ensures
        position(s, x) == i,
{
    lemma_position(s, x);
    let p = position(s, x);
    if p < i {
        assert(s[p] != x);
    } else if i < p {
        assert(s[i] != x);
    }
}

/// An index that holds `x`, with nothing equal to `x` after it, is
/// `last_position(s, x)`; a sequence without `x` has none.
pub proof fn lemma_last_position_is<T>(s: Seq<T>, x: T, found: Option<int>)
    requires
        match found {
            Some(i) => 0 <= i < s.len() && s[i] == x && forall|j: int|
                i < j < s.len() ==> s[j] != x,
            None => forall|j: int| 0 <= j < s.len() ==> s[j] != x,
        },
    ensures
        last_position(s, x) == found,
{
    s.index_of_last_ensures(x);
    match found {
        Some(i) => {
            assert(s.contains(x));
            let p = s.index_of_last(x).unwrap();
            if p < i {
                assert(s[i] != x);
            } else if i < p {
                assert(s[p] != x);
            }
        },
        None => {
            if s.contains(x) {
                let p = s.index_of_last(x).unwrap();
                assert(s[p] != x);
            }
        },
    }
}

/// Finds the first `c` in `s`; returns `s.len()` where there is none.
pub fn find_char(s: &[char], c: char) -> (at: usize)
    ensures
        at == position(s@, c),
{
    let mut i: usize = 0;
    while i < s.len() && s[i] != c
        invariant
            i <= s.len(),
            forall|j: int| 0 <= j < i ==> s@[j] != c,
        decreases s.len() - i,
    {
        i += 1;
    }
    proof {
        lemma_position_is(s@, c, i as int);
    }
    i
}

/// Finds the first byte `b` in `s`; returns `s.len()` where there is none.
pub fn find_byte(s: &[u8], b: u8) -> (at: usize)
    ensures
        at == position(s@, b),
{
    let mut i: usize = 0;
    while i < s.len() && s[i] != b
        invariant
            i <= s.len(),
            forall|j: int| 0 <= j < i ==> s@[j] != b,
        decreases s.len() - i,
    {
        i += 1;
    }
    proof {
        lemma_position_is(s@, b, i as int);
    }
    i
}

/// Finds the last `c` in `s`.
pub fn rfind_char(s: &[char], c: char) -> (at: Option<usize>)
    ensures
        match at {
            Some(i) => last_position(s@, c) == Some(i as int) && i < s@.len() && s@[i as int] == c,
            None => last_position(s@, c).is_none(),
        },
{
    let mut i: usize = s.len();
    while i > 0 && s[i - 1] != c
        invariant
            i <= s.len(),
            forall|j: int| i <= j < s.len() ==> s@[j] != c,
        decreases i,
    {
        i -= 1;
    }
    if i > 0 {
        proof {
            lemma_last_position_is(s@, c, Some(i - 1));
        }
        Some(i - 1)
    } else {
        proof {
            lemma_last_position_is(s@, c, None);
        }
        None
    }
}

/// The characters of `s`, in order.
pub fn chars_of(s: &str) -> (out: Vec<char>)
    ensures
        out@ == s@,
{
    broadcast use vstd::string::group_string_axioms;

    let mut out: Vec<char> = Vec::new();
    let mut it = s.chars();
    loop
        invariant
            it.obeys_prophetic_iter_laws(),
            it.decrease() is Some,
            out@ + it.remaining() == s@,
        ensures
            out@ == s@,
        decreases it.decrease()->0,
    {
        match it.next() {
            Some(c) => {
                out.push(c);
            },
            None => {
                break ;
            },
        }
    }
    out
}

/// The string made of the characters of `s`, in order.
pub fn string_of(s: &[char]) -> (out: String)
    ensures
        out@ == s@,
{
    let mut out = String::new();
    let mut i: usize = 0;
    while i < s.len()
        invariant
            i <= s.len(),
            out@ == s@.take(i as int),
        decreases s.len() - i,
    {
        out.push(s[i]);
        i += 1;
    }
    out
}

/// Whether `prefix` stands at the start of `s`.
pub fn starts_with(s: &[char], prefix: &str) -> (yes: bool)
    ensures
        yes == prefix@.is_prefix_of(s@),
{
    let p = chars_of(prefix);
    if p.len() > s.len() {
        return false;
    }
    let mut i: usize = 0;
    while i < p.len()
        invariant
            i <= p.len() <= s.len(),
            p@ == prefix@,
            forall|j: int| 0 <= j < i ==> s@[j] == p@[j],
        decreases p.len() - i,
    {
        if s[i] != p[i] {
            assert(s@.subrange(0, p@.len() as int)[i as int] != p@[i as int]);
            return false;
        }
        i += 1;
    }
    assert(p@ =~= s@.subrange(0, p@.len() as int));
    true
}

/// Whether two strings hold the same characters.
pub fn same_text(a: &str, b: &str) -> (same: bool)
    ensures
        same == (a@ == b@),
{
    broadcast use vstd::string::group_string_axioms;

    let mut ia = a.chars();
    let mut ib = b.chars();
    let ghost mut done: int = 0;
    loop
        invariant
            ia.obeys_prophetic_iter_laws(),
            ib.obeys_prophetic_iter_laws(),
            ia.decrease() is Some,
            0 <= done <= a@.len(),
            done <= b@.len(),
            ia.remaining() == a@.skip(done),
            ib.remaining() == b@.skip(done),
            forall|i: int| 0 <= i < done ==> a@[i] == b@[i],
        decreases ia.decrease()->0,
    {
        let ca = ia.next();
        let cb = ib.next();
        match (ca, cb) {
            (Some(x), Some(y)) => {
                assert(x == a@[done] && y == b@[done]);
                if x != y {
                    return false;
                }
                proof {
                    assert(a@.skip(done).drop_first() =~= a@.skip(done + 1));
                    assert(b@.skip(done).drop_first() =~= b@.skip(done + 1));
                    done = done + 1;
                }
            },
            (None, None) => {
                assert(a@ =~= b@);
                return true;
            },
            _ => {
                return false;
            },
        }
    }
}

/// The code of `c`, with the ASCII capitals moved onto the small letters.
pub open spec fn lower_code(c: char) -> int {
    if 'A' <= c && c <= 'Z' {
        c as int + 32
    } else {
        c as int
    }
}

/// Equality of two texts but for the case of their ASCII letters.
pub open spec fn eq_ignore_case(a: Seq<char>, b: Seq<char>) -> bool {
    &&& a.len() == b.len()
    &&& forall|i: int| 0 <= i < a.len() ==> lower_code(a[i]) == lower_code(b[i])
}

fn lower_code_of(c: char) -> (code: u32)
    ensures
        code == lower_code(c),
{
    if 'A' <= c && c <= 'Z' {
        c as u32 + 32
    } else {
        c as u32
    }
}

/// Compares two strings without regard to the case of their ASCII letters.
pub fn same_ignoring_case(a: &str, b: &str) -> (same: bool)
    ensures
        same == eq_ignore_case(a@, b@),
{
    broadcast use vstd::string::group_string_axioms;

    let mut ia = a.chars();
    let mut ib = b.chars();
    let ghost mut done: int = 0;
    loop
        invariant
            ia.obeys_prophetic_iter_laws(),
            ib.obeys_prophetic_iter_laws(),
            ia.decrease() is Some,
            0 <= done <= a@.len(),
            done <= b@.len(),
            ia.remaining() == a@.skip(done),
            ib.remaining() == b@.skip(done),
            forall|i: int| 0 <= i < done ==> lower_code(a@[i]) == lower_code(b@[i]),
        decreases ia.decrease()->0,
    {
        let ca = ia.next();
        let cb = ib.next();
        match (ca, cb) {
            (Some(x), Some(y)) => {
                assert(x == a@[done] && y == b@[done]);
                if lower_code_of(x) != lower_code_of(y) {
                    return false;
                }
                proof {
                    assert(a@.skip(done).drop_first() =~= a@.skip(done + 1));
                    assert(b@.skip(done).drop_first() =~= b@.skip(done + 1));
                    done = done + 1;
                }
            },
            (None, None) => {
                return true;
            },
            _ => {
                return false;
            },
        }
    }
}

/// The characters that `char::is_whitespace` accepts.
pub open spec fn is_space(c: char) -> bool {
    ||| c == ' '
    ||| ('\t' <= c && c <= '\r')
    ||| c == '\u{85}'
    ||| c == '\u{a0}'
    ||| c == '\u{1680}'
    ||| ('\u{2000}' <= c && c <= '\u{200a}')
    ||| c == '\u{2028}'
    ||| c == '\u{2029}'
    ||| c == '\u{202f}'
    ||| c == '\u{205f}'
    ||| c == '\u{3000}'
}

/// `s` without the white space at its start.
pub open spec fn trim_start(s: Seq<char>) -> Seq<char>
    decreases s.len(),
{
    if s.len() > 0 && is_space(s[0]) {
        trim_start(s.drop_first())
    } else {
        s
    }
}

/// `s` without the white space at its end.
pub open spec fn trim_end(s: Seq<char>) -> Seq<char>
    decreases s.len(),
{
    if s.len() > 0 && is_space(s.last()) {
        trim_end(s.drop_last())
    } else {
        s
    }
}

/// `s` without the white space at either end.
pub open spec fn trim(s: Seq<char>) -> Seq<char> {
    trim_end(trim_start(s))
}

proof fn lemma_trim_start(s: Seq<char>, a: int)
    requires
        0 <= a <= s.len(),
        forall|j: int| 0 <= j < a ==> is_space(s[j]),
        a < s.len() ==> !is_space(s[a]),
    ensures
        trim_start(s) == s.skip(a),
    decreases a,
{
    if a == 0 {
        assert(s.skip(0) =~= s);
    } else {
        lemma_trim_start(s.drop_first(), a - 1);
        assert(s.drop_first().skip(a - 1) =~= s.skip(a));
    }
}

proof fn lemma_trim_end(s: Seq<char>, b: int)
    requires
        0 <= b <= s.len(),
        forall|j: int| b <= j < s.len() ==> is_space(s[j]),
        b > 0 ==> !is_space(s[b - 1]),
    ensures
        trim_end(s) == s.take(b),
    decreases s.len() - b,
{
    if b == s.len() {
        assert(s.take(b) =~= s);
    } else {
        lemma_trim_end(s.drop_last(), b);
        assert(s.drop_last().take(b) =~= s.take(b));
    }
}

fn is_space_char(c: char) -> (yes: bool)
    ensures
        yes == is_space(c),
{
    c == ' ' || ('\t' <= c && c <= '\r') || c == '\u{85}' || c == '\u{a0}' || c == '\u{1680}' || (
    '\u{2000}' <= c && c <= '\u{200a}') || c == '\u{2028}' || c == '\u{2029}' || c == '\u{202f}'
        || c == '\u{205f}' || c == '\u{3000}'
}

/// The part of `s` between the white space at its two ends.
pub fn trimmed(s: &[char]) -> (out: &[char])
    ensures
        out@ == trim(s@),
{
    let mut a: usize = 0;
    while a < s.len() && is_space_char(s[a])
        invariant
            a <= s.len(),
            forall|j: int| 0 <= j < a ==> is_space(s@[j]),
        decreases s.len() - a,
    {
        a += 1;
    }
    let mut b: usize = s.len();
    while b > a && is_space_char(s[b - 1])
        invariant
            a <= b <= s.len(),
            forall|j: int| b <= j < s.len() ==> is_space(s@[j]),
        decreases b,
    {
        b -= 1;
    }
    proof {
        lemma_trim_start(s@, a as int);
        lemma_trim_end(s@.skip(a as int), b - a);
        assert(s@.skip(a as int).take(b - a) =~= s@.subrange(a as int, b as int));
    }
    slice_subrange(s, a, b)
}

/// The part of `s` before the white space at its end.
pub fn trimmed_end(s: &[char]) -> (out: &[char])
    ensures
        out@ == trim_end(s@),
{
    let mut b: usize = s.len();
    while b > 0 && is_space_char(s[b - 1])
        invariant
            b <= s.len(),
            forall|j: int| b <= j < s.len() ==> is_space(s@[j]),
        decreases b,
    {
        b -= 1;
    }
    proof {
        lemma_trim_end(s@, b as int);
    }
    slice_subrange(s, 0, b)
}

/// The value of `c` as a digit in the given radix, which is at most 16.
pub open spec fn digit_of(c: char, radix: nat) -> Option<nat> {
    let value: int = if '0' <= c && c <= '9' {
        c as int - '0' as int
    } else if 'a' <= c && c <= 'f' {
        c as int - 'a' as int + 10
    } else if 'A' <= c && c <= 'F' {
        c as int - 'A' as int + 10
    } else {
        16
    };
    if value < radix {
        Some(value as nat)
    } else {
        None
    }
}

/// Whether `s` is a number of the given radix: one digit or more, and
/// nothing but digits.
pub open spec fn is_number(s: Seq<char>, radix: nat) -> bool {
    &&& s.len() > 0
    &&& forall|i: int| 0 <= i < s.len() ==> digit_of(#[trigger] s[i], radix).is_some()
}

/// The number that the digits of `s` denote in the given radix.
pub open spec fn number_value(s: Seq<char>, radix: nat) -> nat
    decreases s.len(),
{
    if s.len() == 0 {
        0
    } else {
        number_value(s.drop_last(), radix) * radix + digit_of(s.last(), radix).unwrap_or(0)
    }
}

/// What `parse_number` returns: the value of a number that is at most `max`.
pub open spec fn bounded_number(s: Seq<char>, radix: nat, max: nat) -> Option<nat> {
    if is_number(s, radix) && number_value(s, radix) <= max {
        Some(number_value(s, radix))
    } else {
        None
    }
}

/// The value of a number is at least the value of each of its prefixes.
pub proof fn lemma_number_value_grows(s: Seq<char>, radix: nat, k: int)
    requires
        0 <= k <= s.len(),
        radix >= 1,
    ensures
        number_value(s.take(k), radix) <= number_value(s, radix),
    decreases s.len(),
{
    if k == s.len() {
        assert(s.take(k) =~= s);
    } else {
        lemma_number_value_grows(s.drop_last(), radix, k);
        assert(s.drop_last().take(k) =~= s.take(k));
        let v = number_value(s.drop_last(), radix);
        assert(v <= v * radix) by (nonlinear_arith)
            requires
                radix >= 1,
                v >= 0,
        ;
    }
}

fn digit_of_char(c: char, radix: u32) -> (digit: Option<u32>)
    requires
        radix <= 16,
    ensures
        match digit {
            Some(d) => digit_of(c, radix as nat) == Some(d as nat),
            None => digit_of(c, radix as nat).is_none(),
        },
{
    let value: u32 = if '0' <= c && c <= '9' {
        c as u32 - '0' as u32
    } else if 'a' <= c && c <= 'f' {
        c as u32 - 'a' as u32 + 10
    } else if 'A' <= c && c <= 'F' {
        c as u32 - 'A' as u32 + 10
    } else {
        16
    };
    if value < radix {
        Some(value)
    } else {
        None
    }
}

/// Reads `s` as a number of the given radix. Returns `None` where `s` is no
/// such number, or denotes more than `max`.
pub fn parse_number(s: &[char], radix: u32, max: u64) -> (value: Option<u64>)
    requires
        1 <= radix <= 16,
    ensures
        match value {
            Some(v) => bounded_number(s@, radix as nat, max as nat) == Some(v as nat),
            None => bounded_number(s@, radix as nat, max as nat).is_none(),
        },
{
    if s.len() == 0 {
        return None;
    }
    let mut acc: u64 = 0;
    let mut i: usize = 0;
    while i < s.len()
        invariant
            i <= s.len(),
            1 <= radix <= 16,
            acc <= max,
            acc == number_value(s@.take(i as int), radix as nat),
            forall|j: int| 0 <= j < i ==> digit_of(#[trigger] s@[j], radix as nat).is_some(),
        decreases s.len() - i,
    {
        let digit = match digit_of_char(s[i], radix) {
            Some(d) => d,
            None => {
                return None;
            },
        };
        assert(acc * radix <= u64::MAX * 16) by (nonlinear_arith)
            requires
                acc <= u64::MAX,
                radix <= 16,
        ;
        let wide: u128 = acc as u128 * radix as u128 + digit as u128;
        proof {
            assert(s@.take(i + 1).drop_last() =~= s@.take(i as int));
            assert(number_value(s@.take(i + 1), radix as nat) == wide);
        }
        if wide > max as u128 {
            proof {
                lemma_number_value_grows(s@, radix as nat, i + 1);
            }
            return None;
        }
        acc = wide as u64;
        i += 1;
    }
    proof {
        assert(s@.take(s@.len() as int) =~= s@);
    }
    Some(acc)
}

/// The character that writes the digit `d`, a number below ten.
pub open spec fn decimal_digit(d: nat) -> char {
    ('0' as u8 + d) as u8 as char
}

/// The decimal numeral of `n`, without leading zeros.
pub open spec fn decimal_digits(n: nat) -> Seq<char>
    decreases n,
{
    if n < 10 {
        seq![decimal_digit(n)]
    } else {
        decimal_digits(n / 10).push(decimal_digit(n % 10))
    }
}

/// The decimal numeral of a number is a number, and denotes it.
pub proof fn lemma_decimal_digits_value(n: nat)
    ensures
        is_number(decimal_digits(n), 10),
        number_value(decimal_digits(n), 10) == n,
    decreases n,
{
    let s = decimal_digits(n);
    if n < 10 {
        assert(s.drop_last() =~= Seq::<char>::empty());
        assert(number_value(s.drop_last(), 10) == 0);
        assert(s.last() == decimal_digit(n));
        assert(digit_of(decimal_digit(n), 10) == Some(n));
    } else {
        lemma_decimal_digits_value(n / 10);
        assert(s.drop_last() =~= decimal_digits(n / 10));
        assert(s.last() == decimal_digit(n % 10));
        assert(digit_of(decimal_digit(n % 10), 10) == Some(n % 10));
        assert forall|i: int| 0 <= i < s.len() implies digit_of(#[trigger] s[i], 10).is_some() by {
            if i < s.len() - 1 {
                assert(s[i] == decimal_digits(n / 10)[i]);
            }
        }
    }
}

/// Appends the decimal numeral of `n` to `out`.
pub fn push_decimal(out: &mut String, n: u64)
    ensures
        final(out)@ == old(out)@ + decimal_digits(n as nat),
    decreases n,
{
    if n >= 10 {
        push_decimal(out, n / 10);
    }
    let d: u8 = (n % 10) as u8;
    out.push((48u8 + d) as char);
    proof {
        if n >= 10 {
            assert(final(out)@ =~= old(out)@ + decimal_digits(n as nat));
        } else {
            assert(final(out)@ =~= old(out)@ + decimal_digits(n as nat));
        }
    }
}

/// The character that writes the digit `d`, a number below sixteen, in
/// hexadecimal notation with capital letters.
pub open spec fn hex_digit(d: nat) -> char {
    if d < 10 {
        ('0' as u8 + d) as u8 as char
    } else {
        ('A' as u8 + d - 10) as u8 as char
    }
}

/// The bytes of `bytes` in hexadecimal notation with capital letters, two
/// digits for each byte.
pub open spec fn hex_upper(bytes: Seq<u8>) -> Seq<char> {
    Seq::new(
        2 * bytes.len(),
        |i: int|
            if i % 2 == 0 {
                hex_digit((bytes[i / 2] / 16) as nat)
            } else {
                hex_digit((bytes[i / 2] % 16) as nat)
            },
    )
}

fn hex_digit_of(d: u8) -> (c: char)
    requires
        d < 16,
    ensures
        c == hex_digit(d as nat),
{
    if d < 10 {
        (48u8 + d) as char
    } else {
        (55u8 + d) as char
    }
}

/// Writes `bytes` in hexadecimal notation with capital letters.
pub fn to_hex_upper(bytes: &[u8]) -> (out: String)
    ensures
        out@ == hex_upper(bytes@),
{
    let mut out = String::new();
    let mut i: usize = 0;
    while i < bytes.len()
        invariant
            i <= bytes.len(),
            out@ == hex_upper(bytes@.take(i as int)),
        decreases bytes.len() - i,
    {
        let b = bytes[i];
        out.push(hex_digit_of(b / 16));
        out.push(hex_digit_of(b % 16));
        proof {
            assert(out@ =~= hex_upper(bytes@.take(i + 1)));
        }
        i += 1;
    }
    proof {
        assert(bytes@.take(bytes@.len() as int) =~= bytes@);
    }
    out
}

/// The text that `bytes` encode in UTF-8, where they encode one.
pub open spec fn utf8_text(bytes: Seq<u8>) -> Option<Seq<char>> {
    if valid_utf8(bytes) {
        Some(decode_utf8(bytes))
    } else {
        None
    }
}

/// `String::from_utf8` accepts the bytes that are valid UTF-8, and no others;
/// the string it returns then holds the characters that the bytes encode.
#[verifier::external_body]
fn string_from_utf8(bytes: Vec<u8>) -> (text: Option<String>)
    ensures
        match text {
            Some(s) => utf8_text(bytes@) == Some(s@),
            None => utf8_text(bytes@).is_none(),
        },
{
    match String::from_utf8(bytes) {
        Ok(s) => Some(s),
        Err(_) => None,
    }
}

/// Decodes `bytes` as UTF-8. Returns `None` where they are not valid UTF-8.
pub fn text_of(bytes: &[u8]) -> (text: Option<String>)
    ensures
        match text {
            Some(s) => utf8_text(bytes@) == Some(s@),
            None => utf8_text(bytes@).is_none(),
        },
{
    string_from_utf8(slice_to_vec(bytes))
}

} // verus!
