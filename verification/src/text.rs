//! Building and reading text: decimal and hexadecimal numerals, joining, line counting.

use vstd::prelude::*;
use vstd::string::{StrSliceExecFns, StringExecFns};

verus! {

/// The character that stands for the digit `d`, with lower-case letters above nine.
pub open spec fn digit_char(d: int) -> char {
    if d == 0 {
        '0'
    } else if d == 1 {
        '1'
    } else if d == 2 {
        '2'
    } else if d == 3 {
        '3'
    } else if d == 4 {
        '4'
    } else if d == 5 {
        '5'
    } else if d == 6 {
        '6'
    } else if d == 7 {
        '7'
    } else if d == 8 {
        '8'
    } else if d == 9 {
        '9'
    } else if d == 10 {
        'a'
    } else if d == 11 {
        'b'
    } else if d == 12 {
        'c'
    } else if d == 13 {
        'd'
    } else if d == 14 {
        'e'
    } else {
        'f'
    }
}

/// The decimal numeral of `n`, without leading zeros.
pub open spec fn decimal(n: nat) -> Seq<char>
    decreases n,
{
    if n < 10 {
        seq![digit_char(n as int)]
    } else {
        decimal(n / 10).push(digit_char((n % 10) as int))
    }
}

/// The decimal numeral of `n`, with a leading minus sign where it is negative.
pub open spec fn signed_decimal(n: int) -> Seq<char> {
    if n < 0 {
        "-"@ + decimal((-n) as nat)
    } else {
        decimal(n as nat)
    }
}

/// Two lower-case hexadecimal digits.
pub open spec fn hex_byte(b: u8) -> Seq<char> {
    seq![digit_char((b / 16) as int), digit_char((b % 16) as int)]
}

/// Two lower-case hexadecimal digits for each byte, in order.
pub open spec fn hex_digits(bytes: Seq<u8>) -> Seq<char>
    decreases bytes.len(),
{
    if bytes.len() == 0 {
        Seq::empty()
    } else {
        hex_digits(bytes.drop_last()) + hex_byte(bytes.last())
    }
}

/// The pieces in order, with `sep` between each two.
pub open spec fn joined(parts: Seq<Seq<char>>, sep: Seq<char>) -> Seq<char>
    decreases parts.len(),
{
    if parts.len() == 0 {
        Seq::empty()
    } else if parts.len() == 1 {
        parts[0]
    } else {
        joined(parts.drop_last(), sep) + sep + parts.last()
    }
}

/// What each of the strings holds.
pub open spec fn texts(parts: Seq<String>) -> Seq<Seq<char>> {
    parts.map_values(|s: String| s@)
}

/// The text of one digit below sixteen.
pub fn digit_text(d: u8) -> (r: &'static str)
    requires
        d < 16,
    ensures
        r@ == seq![digit_char(d as int)],
{
    proof {
        reveal_strlit("0");
        reveal_strlit("1");
        reveal_strlit("2");
        reveal_strlit("3");
        reveal_strlit("4");
        reveal_strlit("5");
        reveal_strlit("6");
        reveal_strlit("7");
        reveal_strlit("8");
        reveal_strlit("9");
        reveal_strlit("a");
        reveal_strlit("b");
        reveal_strlit("c");
        reveal_strlit("d");
        reveal_strlit("e");
        reveal_strlit("f");
    }
    match d {
        0 => "0",
        1 => "1",
        2 => "2",
        3 => "3",
        4 => "4",
        5 => "5",
        6 => "6",
        7 => "7",
        8 => "8",
        9 => "9",
        10 => "a",
        11 => "b",
        12 => "c",
        13 => "d",
        14 => "e",
        _ => "f",
    }
}

/// Writes `n` in decimal.
pub fn decimal_text(n: u128) -> (r: String)
    ensures
        r@ == decimal(n as nat),
    decreases n,
{
    let mut out: String = if n < 10 {
        String::new()
    } else {
        decimal_text(n / 10)
    };
    let ghost before = out@;
    out.append(digit_text((n % 10) as u8));
    proof {
        assert(before + seq![digit_char((n % 10) as int)] =~= before.push(
            digit_char((n % 10) as int),
        ));
        if n < 10 {
            assert(out@ =~= seq![digit_char(n as int)]);
        }
    }
    out
}

/// Writes `n` in decimal, with a leading minus sign where it is negative.
pub fn signed_decimal_text(n: i128) -> (r: String)
    ensures
        r@ == signed_decimal(n as int),
{
    if n >= 0 {
        decimal_text(n as u128)
    } else {
        let magnitude: u128 = (-(n + 1)) as u128 + 1;
        "-".to_string().concat(decimal_text(magnitude).as_str())
    }
}

/// Writes one byte as two lower-case hexadecimal digits.
pub fn hex_byte_text(b: u8) -> (r: String)
    ensures
        r@ == hex_byte(b),
{
    let mut out: String = String::new();
    out.append(digit_text(b / 16));
    out.append(digit_text(b % 16));
    assert(out@ =~= hex_byte(b));
    out
}

/// Joins the pieces with `sep` between each two.
pub fn join(parts: &Vec<String>, sep: &str) -> (r: String)
    ensures
        r@ == joined(texts(parts@), sep@),
{
    let mut out: String = String::new();
    let mut i: usize = 0;
    while i < parts.len()
        invariant
            i <= parts.len(),
            out@ == joined(texts(parts@).take(i as int), sep@),
        decreases parts.len() - i,
    {
        let ghost done = texts(parts@).take(i as int);
        let ghost next = texts(parts@).take(i + 1);
        proof {
            assert(next.drop_last() =~= done);
            assert(next.last() == parts@[i as int]@);
        }
        if i > 0 {
            out.append(sep);
        }
        out.append(parts[i].as_str());
        proof {
            if i == 0 {
                assert(out@ =~= next[0]);
            }
        }
        i = i + 1;
    }
    assert(texts(parts@).take(parts@.len() as int) =~= texts(parts@));
    out
}

/// Whether two texts hold the same characters.
pub fn same_text(a: &str, b: &str) -> (r: bool)
    ensures
        r == (a@ == b@),
{
    a.to_owned() == b.to_owned()
}

/// Whether `a` comes before `b` by their characters from the `i`-th on: by the first in which they
/// differ, or the shorter text first.
pub open spec fn before_from(a: Seq<char>, b: Seq<char>, i: nat) -> bool
    decreases a.len() - i,
{
    if i >= b.len() {
        false
    } else if i >= a.len() {
        true
    } else if a[i as int] != b[i as int] {
        (a[i as int] as int) < (b[i as int] as int)
    } else {
        before_from(a, b, i + 1)
    }
}

/// Whether `a` comes before `b` in the order of their characters.
pub open spec fn comes_before(a: Seq<char>, b: Seq<char>) -> bool {
    before_from(a, b, 0)
}

/// Whether each of the texts comes before the next ones.
pub open spec fn ascending(parts: Seq<Seq<char>>) -> bool {
    forall|i: int, j: int|
        0 <= i < j < parts.len() ==> comes_before(#[trigger] parts[i], #[trigger] parts[j])
}

proof fn lemma_not_before_itself(a: Seq<char>, i: nat)
    ensures
        !before_from(a, a, i),
    decreases a.len() - i,
{
    if i < a.len() {
        lemma_not_before_itself(a, i + 1);
    }
}

proof fn lemma_before_chain(a: Seq<char>, b: Seq<char>, c: Seq<char>, i: nat)
    requires
        before_from(a, b, i),
        before_from(b, c, i),
    ensures
        before_from(a, c, i),
    decreases a.len() - i,
{
    if i < a.len() && a[i as int] == b[i as int] && b[i as int] == c[i as int] {
        lemma_before_chain(a, b, c, i + 1);
    }
}

proof fn lemma_either_before(a: Seq<char>, b: Seq<char>, i: nat)
    requires
        a != b,
        i <= a.len(),
        i <= b.len(),
        forall|j: int| 0 <= j < i ==> a[j] == b[j],
    ensures
        before_from(a, b, i) || before_from(b, a, i),
    decreases a.len() - i,
{
    if i < a.len() && i < b.len() {
        if a[i as int] == b[i as int] {
            lemma_either_before(a, b, i + 1);
        }
    } else if a.len() == b.len() {
        assert(a =~= b);
    }
}

/// The order of texts is total: no text comes before itself, of two different ones one comes before
/// the other, and what comes before a text comes before all that follow it.
pub proof fn law_texts_are_ordered(a: Seq<char>, b: Seq<char>, c: Seq<char>)
    ensures
        !comes_before(a, a),
        a != b ==> comes_before(a, b) || comes_before(b, a),
        comes_before(a, b) && comes_before(b, c) ==> comes_before(a, c),
{
    lemma_not_before_itself(a, 0);
    if a != b {
        lemma_either_before(a, b, 0);
    }
    if comes_before(a, b) && comes_before(b, c) {
        lemma_before_chain(a, b, c, 0);
    }
}

/// Two ascending lists of the same texts are the same list.
pub proof fn law_ascending_lists_are_equal(a: Seq<Seq<char>>, b: Seq<Seq<char>>)
    requires
        ascending(a),
        ascending(b),
        forall|k: Seq<char>| #[trigger] a.contains(k) <==> b.contains(k),
    ensures
        a == b,
    decreases a.len(),
{
    if a.len() == 0 {
        if b.len() > 0 {
            assert(b.contains(b[0]));
            assert(a.contains(b[0]));
        }
    } else {
        assert(a.contains(a.last()));
        assert(b.contains(a.last()));
        assert(b.contains(b.last()));
        assert(a.contains(b.last()));
        let i = choose|i: int| 0 <= i < b.len() && b[i] == a.last();
        let j = choose|j: int| 0 <= j < a.len() && a[j] == b.last();
        law_texts_are_ordered(a.last(), b.last(), a.last());
        assert(a.last() == b.last());
        let x = a.drop_last();
        let y = b.drop_last();
        assert forall|k: Seq<char>| #[trigger] x.contains(k) <==> y.contains(k) by {
            lemma_all_but_last(a, k);
            lemma_all_but_last(b, k);
        }
        law_ascending_lists_are_equal(x, y);
        assert(a =~= x.push(a.last()));
        assert(b =~= y.push(b.last()));
    }
}

proof fn lemma_all_but_last(a: Seq<Seq<char>>, k: Seq<char>)
    requires
        a.len() > 0,
        ascending(a),
    ensures
        a.drop_last().contains(k) <==> a.contains(k) && k != a.last(),
{
    let x = a.drop_last();
    if x.contains(k) {
        let i = choose|i: int| 0 <= i < x.len() && x[i] == k;
        assert(a[i] == k);
        assert(comes_before(a[i], a[a.len() - 1]));
        law_texts_are_ordered(k, k, k);
    }
    if a.contains(k) && k != a.last() {
        let i = choose|i: int| 0 <= i < a.len() && a[i] == k;
        assert(x[i] == k);
    }
}

/// Whether a text comes before another in the order of their characters.
pub fn is_before(a: &str, b: &str) -> (r: bool)
    ensures
        r == comes_before(a@, b@),
{
    let n: usize = a.unicode_len();
    let m: usize = b.unicode_len();
    let mut i: usize = 0;
    while i < n && i < m
        invariant
            n == a@.len(),
            m == b@.len(),
            i <= n,
            i <= m,
            comes_before(a@, b@) == before_from(a@, b@, i as nat),
        decreases n - i,
    {
        let x: u32 = a.get_char(i) as u32;
        let y: u32 = b.get_char(i) as u32;
        if x != y {
            return x < y;
        }
        i = i + 1;
    }
    i < m
}

/// Whether a text begins with another.
pub open spec fn begins_with(text: Seq<char>, start: Seq<char>) -> bool {
    text.len() >= start.len() && text.subrange(0, start.len() as int) == start
}

/// Whether a text begins with another.
pub fn starts_with(text: &str, start: &str) -> (r: bool)
    ensures
        r == begins_with(text@, start@),
{
    let n: usize = start.unicode_len();
    if text.unicode_len() < n {
        return false;
    }
    same_text(text.substring_char(0, n), start)
}

/// The value of a decimal digit.
pub open spec fn digit_value(c: char) -> nat {
    (c as int - '0' as int) as nat
}

/// Whether each character is a decimal digit.
pub open spec fn all_digits(s: Seq<char>) -> bool {
    forall|i: int| 0 <= i < s.len() ==> '0' <= #[trigger] s[i] <= '9'
}

/// The number that a decimal numeral stands for.
pub open spec fn numeral_value(s: Seq<char>) -> nat
    decreases s.len(),
{
    if s.len() == 0 {
        0
    } else {
        10 * numeral_value(s.drop_last()) + digit_value(s.last())
    }
}

/// The number below 65536 that a text stands for: decimal digits behind an optional plus sign.
pub open spec fn small_number(s: Seq<char>) -> Option<u16> {
    let digits = if s.len() > 0 && s[0] == '+' {
        s.subrange(1, s.len() as int)
    } else {
        s
    };
    if digits.len() > 0 && all_digits(digits) && numeral_value(digits) <= 0xffff {
        Some(numeral_value(digits) as u16)
    } else {
        None
    }
}

proof fn lemma_numeral_grows(s: Seq<char>, n: int)
    requires
        all_digits(s),
        0 <= n <= s.len(),
    ensures
        numeral_value(s.take(n)) <= numeral_value(s),
    decreases s.len() - n,
{
    if n < s.len() {
        lemma_numeral_grows(s, n + 1);
        assert(s.take(n + 1).drop_last() =~= s.take(n));
    } else {
        assert(s.take(n) =~= s);
    }
}

/// Reads a number below 65536: decimal digits behind an optional plus sign.
pub fn parse_u16(s: &str) -> (r: Option<u16>)
    ensures
        r == small_number(s@),
{
    let len: usize = s.unicode_len();
    let start: usize = if len > 0 && s.get_char(0) == '+' {
        1
    } else {
        0
    };
    let ghost digits = if s@.len() > 0 && s@[0] == '+' {
        s@.subrange(1, s@.len() as int)
    } else {
        s@
    };
    assert(digits =~= s@.subrange(start as int, len as int));
    if start == len {
        return None;
    }
    let mut value: u32 = 0;
    let mut i: usize = start;
    assert(digits.take(0).len() == 0);
    while i < len
        invariant
            start <= i <= len,
            len == s@.len(),
            digits == s@.subrange(start as int, len as int),
            small_number(s@) == (if digits.len() > 0 && all_digits(digits) && numeral_value(digits)
                <= 0xffff {
                Some(numeral_value(digits) as u16)
            } else {
                None
            }),
            forall|j: int| 0 <= j < i - start ==> '0' <= #[trigger] digits[j] <= '9',
            value == numeral_value(digits.take(i - start)),
            value <= 0xffff,
        decreases len - i,
    {
        let c = s.get_char(i);
        assert(digits[i - start] == c);
        if c < '0' || c > '9' {
            return None;
        }
        let ghost before = digits.take(i - start);
        assert(digits.take(i + 1 - start).drop_last() =~= before);
        value = value * 10 + (c as u32 - '0' as u32);
        i = i + 1;
        if value > 0xffff {
            proof {
                if all_digits(digits) {
                    lemma_numeral_grows(digits, i - start);
                }
            }
            return None;
        }
    }
    assert(digits.take(len - start) =~= digits);
    Some(value as u16)
}

proof fn lemma_decimal_reads_back(n: nat)
    ensures
        decimal(n).len() > 0,
        all_digits(decimal(n)),
        numeral_value(decimal(n)) == n,
    decreases n,
{
    let d = decimal(n);
    if n < 10 {
        assert(numeral_value(d.drop_last()) == 0);
        assert(d.last() == digit_char(n as int));
    } else {
        lemma_decimal_reads_back(n / 10);
        assert(d.drop_last() =~= decimal(n / 10));
    }
}

/// The decimal numeral of a number is made of digits that name it, without leading zeros.
pub proof fn law_numerals_name_their_numbers(n: nat)
    ensures
        decimal(n).len() > 0,
        all_digits(decimal(n)),
        numeral_value(decimal(n)) == n,
        n > 0 ==> decimal(n)[0] != '0',
        n == 0 ==> decimal(n).len() == 1,
    decreases n,
{
    lemma_decimal_reads_back(n);
    if n >= 10 {
        law_numerals_name_their_numbers(n / 10);
        assert(decimal(n)[0] == decimal(n / 10)[0]);
    }
}

/// A number below 65536 that was written in decimal is read back.
pub proof fn law_numbers_read_back(n: u16)
    ensures
        small_number(decimal(n as nat)) == Some(n),
{
    lemma_decimal_reads_back(n as nat);
    assert('0' <= decimal(n as nat)[0] <= '9');
}

/// Whether a character is white space.
pub open spec fn is_white(c: char) -> bool {
    ||| '\t' <= c <= '\r'
    ||| c == ' '
    ||| c == '\u{85}'
    ||| c == '\u{a0}'
    ||| c == '\u{1680}'
    ||| '\u{2000}' <= c <= '\u{200a}'
    ||| c == '\u{2028}'
    ||| c == '\u{2029}'
    ||| c == '\u{202f}'
    ||| c == '\u{205f}'
    ||| c == '\u{3000}'
}

/// The text without the white space at its end.
pub open spec fn trimmed(s: Seq<char>) -> Seq<char>
    decreases s.len(),
{
    if s.len() > 0 && is_white(s.last()) {
        trimmed(s.drop_last())
    } else {
        s
    }
}

fn white(c: char) -> (r: bool)
    ensures
        r == is_white(c),
{
    ('\t' <= c && c <= '\r') || c == ' ' || c == '\u{85}' || c == '\u{a0}' || c == '\u{1680}' || (
    '\u{2000}' <= c && c <= '\u{200a}') || c == '\u{2028}' || c == '\u{2029}' || c == '\u{202f}' || c
        == '\u{205f}' || c == '\u{3000}'
}

/// The text without the white space at its end.
pub fn trim_end(s: &str) -> (r: &str)
    ensures
        r@ == trimmed(s@),
{
    let mut n: usize = s.unicode_len();
    assert(s@.subrange(0, n as int) =~= s@);
    while n > 0 && white(s.get_char(n - 1))
        invariant
            n <= s@.len(),
            trimmed(s@) == trimmed(s@.subrange(0, n as int)),
        decreases n,
    {
        assert(s@.subrange(0, n as int).drop_last() =~= s@.subrange(0, n - 1));
        n = n - 1;
    }
    s.substring_char(0, n)
}

} // verus!
