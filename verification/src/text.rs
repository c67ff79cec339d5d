//! Small verified helpers for byte strings and their textual forms.
//!
//! Everything here is stated over `Seq<u8>` and `Seq<char>`: comparison of
//! fixed-size keys, lowercase hexadecimal, and unsigned decimal numbers.

use vstd::prelude::*;
use vstd::string::*;

use crate::sources::push_char;

verus! {

/// Lexicographic order on byte strings: `a` sorts strictly before `b`.
pub open spec fn lex_less(a: Seq<u8>, b: Seq<u8>) -> bool
    decreases a.len(),
{
    if b.len() == 0 {
        false
    } else if a.len() == 0 {
        true
    } else if a[0] != b[0] {
        a[0] < b[0]
    } else {
        lex_less(a.drop_first(), b.drop_first())
    }
}

/// The lowercase hexadecimal digit for a value below sixteen.
pub open spec fn hex_digit_spec(n: int) -> char {
    if n == 0 {
        '0'
    } else if n == 1 {
        '1'
    } else if n == 2 {
        '2'
    } else if n == 3 {
        '3'
    } else if n == 4 {
        '4'
    } else if n == 5 {
        '5'
    } else if n == 6 {
        '6'
    } else if n == 7 {
        '7'
    } else if n == 8 {
        '8'
    } else if n == 9 {
        '9'
    } else if n == 10 {
        'a'
    } else if n == 11 {
        'b'
    } else if n == 12 {
        'c'
    } else if n == 13 {
        'd'
    } else if n == 14 {
        'e'
    } else {
        'f'
    }
}

/// The value of a lowercase hexadecimal digit, if `c` is one.
pub open spec fn hex_value_spec(c: char) -> Option<int> {
    if c == '0' {
        Some(0int)
    } else if c == '1' {
        Some(1int)
    } else if c == '2' {
        Some(2int)
    } else if c == '3' {
        Some(3int)
    } else if c == '4' {
        Some(4int)
    } else if c == '5' {
        Some(5int)
    } else if c == '6' {
        Some(6int)
    } else if c == '7' {
        Some(7int)
    } else if c == '8' {
        Some(8int)
    } else if c == '9' {
        Some(9int)
    } else if c == 'a' {
        Some(10int)
    } else if c == 'b' {
        Some(11int)
    } else if c == 'c' {
        Some(12int)
    } else if c == 'd' {
        Some(13int)
    } else if c == 'e' {
        Some(14int)
    } else if c == 'f' {
        Some(15int)
    } else {
        None
    }
}

/// Two hexadecimal digits per byte, high nibble first.
pub open spec fn hex_of(bytes: Seq<u8>) -> Seq<char> {
    Seq::new(
        2 * bytes.len(),
        |i: int|
            if i % 2 == 0 {
                hex_digit_spec(bytes[i / 2] as int / 16)
            } else {
                hex_digit_spec(bytes[i / 2] as int % 16)
            },
    )
}

/// Whether `text` is an even number of lowercase hexadecimal digits.
pub open spec fn is_hex(text: Seq<char>) -> bool {
    &&& text.len() % 2 == 0
    &&& forall|i: int| 0 <= i < text.len() ==> (#[trigger] hex_value_spec(text[i])) is Some
}

/// The bytes that a hexadecimal text stands for.
pub open spec fn unhex_of(text: Seq<char>) -> Seq<u8> {
    Seq::new(
        text.len() / 2,
        |i: int|
            (hex_value_spec(text[2 * i])->0 * 16 + hex_value_spec(text[2 * i + 1])->0) as u8,
    )
}

/// The decimal digit character for a value below ten.
pub open spec fn digit_char_spec(d: int) -> char {
    hex_digit_spec(if 0 <= d <= 9 { d } else { 9 })
}

/// The value of a decimal digit character, if `c` is one.
pub open spec fn digit_value_spec(c: char) -> Option<int> {
    match hex_value_spec(c) {
        Some(v) => if v <= 9 { Some(v) } else { None },
        None => None,
    }
}

/// The shortest decimal representation of `n`.
pub open spec fn decimal_of(n: nat) -> Seq<char>
    decreases n,
{
    if n < 10 {
        seq![digit_char_spec(n as int)]
    } else {
        decimal_of(n / 10).push(digit_char_spec((n % 10) as int))
    }
}

/// Whether every character of `text` is a decimal digit.
pub open spec fn all_digits(text: Seq<char>) -> bool {
    forall|i: int| 0 <= i < text.len() ==> (#[trigger] digit_value_spec(text[i])) is Some
}

/// The number that a string of decimal digits denotes; the empty string denotes zero.
pub open spec fn digits_value(text: Seq<char>) -> nat
    decreases text.len(),
{
    if text.len() == 0 {
        0
    } else {
        (digits_value(text.drop_last()) * 10 + digit_value_spec(text.last()).unwrap_or(0)) as nat
    }
}

/// What [`parse_decimal`] accepts: an optional `+`, then at least one digit,
/// denoting a number that fits in 64 bits.
pub open spec fn parse_decimal_spec(text: Seq<char>) -> Option<u64> {
    let body = if text.len() > 0 && text[0] == '+' {
        text.skip(1)
    } else {
        text
    };
    if body.len() > 0 && all_digits(body) && digits_value(body) <= u64::MAX {
        Some(digits_value(body) as u64)
    } else {
        None
    }
}

/// Compares two keys of the same fixed size byte by byte.
pub fn bytes_equal<const N: usize>(a: &[u8; N], b: &[u8; N]) -> (same: bool)
    ensures
        same == (a@ == b@),
{
    let mut i: usize = 0;
    while i < N
        invariant
            i <= N,
            a@.len() == N,
            b@.len() == N,
            forall|j: int| 0 <= j < i ==> a@[j] == b@[j],
        decreases N - i,
    {
        if a[i] != b[i] {
            return false;
        }
        i += 1;
    }
    assert(a@ =~= b@);
    true
}

proof fn lemma_lex_less_common_prefix(a: Seq<u8>, b: Seq<u8>, k: int)
    requires
        a.len() == b.len(),
        0 <= k <= a.len(),
        forall|j: int| 0 <= j < k ==> a[j] == b[j],
    ensures
        lex_less(a, b) == lex_less(a.skip(k), b.skip(k)),
    decreases k,
{
    if k == 0 {
        assert(a.skip(0) =~= a);
        assert(b.skip(0) =~= b);
    } else {
        let a1 = a.drop_first();
        let b1 = b.drop_first();
        lemma_lex_less_common_prefix(a1, b1, k - 1);
        assert(a1.skip(k - 1) =~= a.skip(k));
        assert(b1.skip(k - 1) =~= b.skip(k));
    }
}

/// Nothing sorts before itself, and two strings never sort before each other.
pub proof fn lemma_lex_asymmetric(a: Seq<u8>, b: Seq<u8>)
    ensures
        !lex_less(a, a),
        lex_less(a, b) ==> !lex_less(b, a),
    decreases a.len(),
{
    if a.len() > 0 {
        lemma_lex_asymmetric(a.drop_first(), a.drop_first());
        if b.len() > 0 {
            lemma_lex_asymmetric(a.drop_first(), b.drop_first());
        }
    }
}

/// The lexicographic order is transitive, and so is its complement: what
/// does not sort after `b`, while `b` does not sort after `c`, does not sort
/// after `c`.
pub proof fn lemma_lex_transitive(a: Seq<u8>, b: Seq<u8>, c: Seq<u8>)
    ensures
        lex_less(a, b) && lex_less(b, c) ==> lex_less(a, c),
        lex_less(c, a) ==> lex_less(b, a) || lex_less(c, b),
    decreases a.len(),
{
    if a.len() > 0 && b.len() > 0 && c.len() > 0 {
        lemma_lex_transitive(a.drop_first(), b.drop_first(), c.drop_first());
    }
}

/// Decides the lexicographic order of two keys of the same fixed size.
pub fn bytes_less<const N: usize>(a: &[u8; N], b: &[u8; N]) -> (less: bool)
    ensures
        less == lex_less(a@, b@),
{
    let mut i: usize = 0;
    while i < N
        invariant
            i <= N,
            a@.len() == N,
            b@.len() == N,
            forall|j: int| 0 <= j < i ==> a@[j] == b@[j],
        decreases N - i,
    {
        if a[i] != b[i] {
            proof {
                lemma_lex_less_common_prefix(a@, b@, i as int);
            }
            return a[i] < b[i];
        }
        i += 1;
    }
    proof {
        lemma_lex_less_common_prefix(a@, b@, N as int);
    }
    false
}

/// The lowercase hexadecimal digit of a nibble; values above fifteen give `f`.
pub fn hex_digit(n: u8) -> (c: char)
    ensures
        c == hex_digit_spec(n as int),
        n < 16 ==> hex_value_spec(c) == Some(n as int),
{
    if n == 0 {
        '0'
    } else if n == 1 {
        '1'
    } else if n == 2 {
        '2'
    } else if n == 3 {
        '3'
    } else if n == 4 {
        '4'
    } else if n == 5 {
        '5'
    } else if n == 6 {
        '6'
    } else if n == 7 {
        '7'
    } else if n == 8 {
        '8'
    } else if n == 9 {
        '9'
    } else if n == 10 {
        'a'
    } else if n == 11 {
        'b'
    } else if n == 12 {
        'c'
    } else if n == 13 {
        'd'
    } else if n == 14 {
        'e'
    } else {
        'f'
    }
}

/// The value of a lowercase hexadecimal digit.
pub fn hex_value(c: char) -> (v: Option<u8>)
    ensures
        match v {
            Some(n) => hex_value_spec(c) == Some(n as int) && n < 16,
            None => hex_value_spec(c) is None,
        },
{
    if c == '0' {
        Some(0)
    } else if c == '1' {
        Some(1)
    } else if c == '2' {
        Some(2)
    } else if c == '3' {
        Some(3)
    } else if c == '4' {
        Some(4)
    } else if c == '5' {
        Some(5)
    } else if c == '6' {
        Some(6)
    } else if c == '7' {
        Some(7)
    } else if c == '8' {
        Some(8)
    } else if c == '9' {
        Some(9)
    } else if c == 'a' {
        Some(10)
    } else if c == 'b' {
        Some(11)
    } else if c == 'c' {
        Some(12)
    } else if c == 'd' {
        Some(13)
    } else if c == 'e' {
        Some(14)
    } else if c == 'f' {
        Some(15)
    } else {
        None
    }
}

/// Collects a string from its characters.
pub fn string_from_chars(chars: &Vec<char>) -> (text: String)
    ensures
        text@ == chars@,
{
    let mut text = String::new();
    let mut i: usize = 0;
    while i < chars.len()
        invariant
            i <= chars.len(),
            text@ == chars@.take(i as int),
        decreases chars.len() - i,
    {
        push_char(&mut text, chars[i]);
        i += 1;
    }
    text
}

/// The characters of a string, in order.
pub fn chars_of(text: &str) -> (chars: Vec<char>)
    ensures
        chars@ == text@,
{
    let mut chars: Vec<char> = Vec::new();
    for c in it: text.chars()
        invariant
            it.seq() == text@,
            chars@ == it.seq().take(it.index()),
    {
        chars.push(c);
    }
    chars
}

/// Appends the two hexadecimal digits of every byte of `bytes` to `out`.
pub fn push_hex(out: &mut Vec<char>, bytes: &[u8])
    ensures
        final(out)@ == old(out)@ + hex_of(bytes@),
{
    let ghost before = out@;
    let mut i: usize = 0;
    while i < bytes.len()
        invariant
            i <= bytes.len(),
            out@ == before + hex_of(bytes@.take(i as int)),
        decreases bytes.len() - i,
    {
        let b = bytes[i];
        out.push(hex_digit(b / 16));
        out.push(hex_digit(b % 16));
        i += 1;
    }
}

/// Renders bytes as lowercase hexadecimal text.
pub fn bytes_to_hex(bytes: &[u8]) -> (text: String)
    ensures
        text@ == hex_of(bytes@),
{
    let mut chars: Vec<char> = Vec::new();
    push_hex(&mut chars, bytes);
    string_from_chars(&chars)
}

/// Reads `2 * count` hexadecimal digits of `chars` starting at `start`.
///
/// Returns the bytes they stand for, or `None` when the text is too short or
/// holds a character that is no lowercase hexadecimal digit.
pub fn read_hex(chars: &Vec<char>, start: usize, count: usize) -> (bytes: Option<Vec<u8>>)
    requires
        start + 2 * count <= usize::MAX,
    ensures
        bytes is Some <==> start + 2 * count <= chars@.len() && is_hex(
            chars@.subrange(start as int, start + 2 * count),
        ),
        bytes matches Some(b) ==> b@ == unhex_of(chars@.subrange(start as int, start + 2 * count)),
{
    if start + 2 * count > chars.len() {
        return None;
    }
    let ghost window = chars@.subrange(start as int, start + 2 * count);
    let mut bytes: Vec<u8> = Vec::new();
    let mut i: usize = 0;
    while i < count
        invariant
            i <= count,
            start + 2 * count <= chars.len(),
            window == chars@.subrange(start as int, start + 2 * count),
            bytes@.len() == i,
            forall|j: int| 0 <= j < 2 * i ==> (#[trigger] hex_value_spec(window[j])) is Some,
            forall|j: int| 0 <= j < i ==> bytes@[j] == unhex_of(window)[j],
        decreases count - i,
    {
        let hi = hex_value(chars[start + 2 * i]);
        let lo = hex_value(chars[start + 2 * i + 1]);
        assert(window[2 * i as int] == chars@[start + 2 * i]);
        assert(window[2 * i + 1] == chars@[start + 2 * i + 1]);
        match (hi, lo) {
            (Some(h), Some(l)) => {
                bytes.push(h * 16 + l);
            },
            _ => {
                assert(!is_hex(window)) by {
                }
                return None;
            },
        }
        i += 1;
    }
    Some(bytes)
}

/// Hexadecimal text decodes to the bytes it was made from.
pub proof fn lemma_hex_round_trip(bytes: Seq<u8>)
    ensures
        is_hex(hex_of(bytes)),
        unhex_of(hex_of(bytes)) == bytes,
{
    let text = hex_of(bytes);
}

/// The decimal digit character of a value below ten; larger values give `9`.
pub fn digit_char(d: u8) -> (c: char)
    ensures
        c == digit_char_spec(d as int),
        d < 10 ==> digit_value_spec(c) == Some(d as int),
{
    if d <= 9 {
        hex_digit(d)
    } else {
        '9'
    }
}

/// The value of a decimal digit character.
pub fn digit_value(c: char) -> (v: Option<u8>)
    ensures
        match v {
            Some(n) => digit_value_spec(c) == Some(n as int) && n < 10,
            None => digit_value_spec(c) is None,
        },
{
    match hex_value(c) {
        Some(n) => if n <= 9 {
            Some(n)
        } else {
            None
        },
        None => None,
    }
}

/// Appends the decimal representation of `n` to `out`.
pub fn push_decimal(out: &mut Vec<char>, n: u64)
    ensures
        final(out)@ == old(out)@ + decimal_of(n as nat),
{
    let ghost before = out@;
    let at = out.len();
    let mut m = n;
    while m >= 10
        invariant
            at == before.len(),
            at <= out@.len(),
            out@.take(at as int) == before,
            decimal_of(n as nat) == decimal_of(m as nat) + out@.skip(at as int),
        decreases m,
    {
        let d = digit_char((m % 10) as u8);
        out.insert(at, d);
        m = m / 10;
    }
    let d = digit_char(m as u8);
    out.insert(at, d);
}

/// Renders `n` in decimal.
pub fn u64_to_decimal(n: u64) -> (text: String)
    ensures
        text@ == decimal_of(n as nat),
{
    let mut chars: Vec<char> = Vec::new();
    push_decimal(&mut chars, n);
    string_from_chars(&chars)
}

proof fn lemma_digits_value_prefix(text: Seq<char>, k: int)
    requires
        0 <= k <= text.len(),
    ensures
        digits_value(text.take(k)) <= digits_value(text),
    decreases text.len() - k,
{
    if k == text.len() {
        assert(text.take(k) =~= text);
    } else {
        lemma_digits_value_prefix(text, k + 1);
        let longer = text.take(k + 1);
        assert(longer.drop_last() =~= text.take(k));
    }
}

/// Parses an unsigned decimal number, with an optional leading `+`.
pub fn parse_decimal(text: &str) -> (value: Option<u64>)
    ensures
        value == parse_decimal_spec(text@),
{
    let chars = chars_of(text);
    let start: usize = if chars.len() > 0 && chars[0] == '+' {
        1
    } else {
        0
    };
    let ghost body = chars@.skip(start as int);
    if chars.len() == start {
        return None;
    }
    let mut acc: u64 = 0;
    let mut i: usize = start;
    while i < chars.len()
        invariant
            start <= i <= chars.len(),
            start < chars.len(),
            chars@ == text@,
            start == (if text@.len() > 0 && text@[0] == '+' {
                1int
            } else {
                0int
            }),
            body == chars@.skip(start as int),
            all_digits(body.take(i - start)),
            acc == digits_value(body.take(i - start)),
        decreases chars.len() - i,
    {
        let ghost seen = body.take(i - start);
        let ghost next = body.take(i - start + 1);
        assert(next.drop_last() =~= seen);
        assert(next.last() == chars@[i as int]);
        match digit_value(chars[i]) {
            None => {
                assert(!all_digits(body)) by {
                }
                return None;
            },
            Some(d) => {
                assert(all_digits(next)) by {
                    assert forall|j: int| 0 <= j < next.len() implies (#[trigger] digit_value_spec(
                        next[j],
                    )) is Some by {
                    }
                }
                if acc > (u64::MAX - d as u64) / 10 {
                    proof {
                        lemma_digits_value_prefix(body, i - start + 1);
                        assert(body =~= if text@.len() > 0 && text@[0] == '+' {
                            text@.skip(1)
                        } else {
                            text@
                        });
                    }
                    return None;
                }
                acc = acc * 10 + d as u64;
            },
        }
        i += 1;
    }
    assert(body.take(chars.len() - start) =~= body);
    assert(body =~= if text@.len() > 0 && text@[0] == '+' {
        text@.skip(1)
    } else {
        text@
    });
    Some(acc)
}

/// Whether two strings hold the same characters.
pub fn same_text(a: &str, b: &str) -> (same: bool)
    ensures
        same == (a@ == b@),
{
    let left = chars_of(a);
    let right = chars_of(b);
    if left.len() != right.len() {
        return false;
    }
    let mut i: usize = 0;
    while i < left.len()
        invariant
            i <= left.len(),
            left@ == a@,
            right@ == b@,
            left@.len() == right@.len(),
            forall|j: int| 0 <= j < i ==> left@[j] == right@[j],
        decreases left.len() - i,
    {
        if left[i] != right[i] {
            return false;
        }
        i += 1;
    }
    assert(left@ =~= right@);
    true
}

proof fn lemma_decimal_digits(n: nat)
    ensures
        decimal_of(n).len() > 0,
        all_digits(decimal_of(n)),
        digits_value(decimal_of(n)) == n,
        decimal_of(n)[0] != '+',
    decreases n,
{
    if n < 10 {
        let text = decimal_of(n);
        assert(digits_value(text.drop_last()) == 0);
    } else {
        lemma_decimal_digits(n / 10);
        let head = decimal_of(n / 10);
        let text = decimal_of(n);
        assert(text.drop_last() =~= head);
    }
}

/// Parsing the decimal representation of a number gives the number back.
pub proof fn lemma_decimal_round_trip(n: u64)
    ensures
        parse_decimal_spec(decimal_of(n as nat)) == Some(n),
{
    lemma_decimal_digits(n as nat);
}

} // verus!
