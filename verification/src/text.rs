//! Strings as sequences of characters, searching in them, and decimal numbers.
use vstd::prelude::*;
use vstd::slice::slice_subrange;
use vstd::utf8::{decode_utf8, encode_utf8_decode_utf8, valid_utf8};

verus! {

/// `String::push`: appends one character.
pub assume_specification[ String::push ](s: &mut String, c: char)
    ensures
        final(s)@ == old(s)@.push(c),
;

/// The characters of `s`.
pub fn chars_of(s: &str) -> (v: Vec<char>)
    ensures
        v@ == s@,
{
    let mut v: Vec<char> = Vec::new();
    for c in it: s.chars()
        invariant
            it.seq() == s@,
            v@ == it.seq().take(it.index() as int),
    {
        v.push(c);
        assert(v@ =~= it.seq().take(it.index() + 1));
    }
    assert(v@ =~= s@);
    v
}

/// The Unicode scalar value of `c`.
pub fn char_code(c: char) -> (n: u32)
    ensures
        n == c as nat,
{
    c as u32
}

/// The string made of `chars`.
pub fn string_of(chars: &[char]) -> (s: String)
    ensures
        s@ == chars@,
{
    let mut s = String::new();
    let mut i: usize = 0;
    while i < chars.len()
        invariant
            i <= chars@.len(),
            s@ == chars@.take(i as int),
        decreases chars@.len() - i,
    {
        s.push(chars[i]);
        i += 1;
        assert(s@ =~= chars@.take(i as int));
    }
    assert(s@ =~= chars@);
    s
}

/// What `String::from_utf8_lossy` makes of `bytes` that are not UTF-8.
pub uninterp spec fn replaced_utf8(bytes: Seq<u8>) -> Seq<char>;

/// The text that `bytes` encode, where whatever is not UTF-8 is replaced.
pub open spec fn utf8_lossy(bytes: Seq<u8>) -> Seq<char> {
    if valid_utf8(bytes) {
        decode_utf8(bytes)
    } else {
        replaced_utf8(bytes)
    }
}

/// `String::from_utf8_lossy`: bytes that are valid UTF-8 give the text they encode; in other
/// bytes, whatever is not UTF-8 is replaced.
#[verifier::external_body]
pub(crate) fn string_from_utf8_lossy(bytes: &[u8]) -> (s: String)
    ensures
        valid_utf8(bytes@) ==> s@ == decode_utf8(bytes@),
        !valid_utf8(bytes@) ==> s@ == replaced_utf8(bytes@),
{
    String::from_utf8_lossy(bytes).into_owned()
}

/// `String::from_utf8`: bytes that are valid UTF-8 give the text they encode, others give
/// nothing.
#[verifier::external_body]
pub(crate) fn string_from_utf8(bytes: Vec<u8>) -> (r: Option<String>)
    ensures
        match r {
            Some(s) => valid_utf8(bytes@) && s@ == decode_utf8(bytes@),
            None => !valid_utf8(bytes@),
        },
{
    String::from_utf8(bytes).ok()
}

/// Where `x` first occurs in `s`, or the length of `s` if it does not.
pub open spec fn position<T>(s: Seq<T>, x: T) -> int
    decreases s.len(),
{
    if s.len() == 0 || s[0] == x {
        0
    } else {
        1 + position(s.skip(1), x)
    }
}

/// The first index that holds `x` is the position of `x`.
pub proof fn position_is<T>(s: Seq<T>, x: T, i: int)
    requires
        0 <= i <= s.len(),
        i < s.len() ==> s[i] == x,
        forall|j: int| 0 <= j < i ==> s[j] != x,
    ensures
        position(s, x) == i,
    decreases s.len(),
{
    if i > 0 {
        assert(s[0] != x);
        assert forall|j: int| 0 <= j < i - 1 implies s.skip(1)[j] != x by {
            assert(s[j + 1] != x);
        }
        position_is(s.skip(1), x, i - 1);
    }
}

/// The position of `x` is the first index that holds it.
pub proof fn position_bounds<T>(s: Seq<T>, x: T)
    ensures
        0 <= position(s, x) <= s.len(),
        position(s, x) < s.len() ==> s[position(s, x)] == x,
        forall|j: int| 0 <= j < position(s, x) ==> s[j] != x,
    decreases s.len(),
{
    if s.len() > 0 && s[0] != x {
        position_bounds(s.skip(1), x);
        assert forall|j: int| 0 <= j < position(s, x) implies s[j] != x by {
            if j > 0 {
                assert(s.skip(1)[j - 1] != x);
            }
        }
    }
}

/// Where the byte `x` first occurs in `s`, or the length of `s`.
pub fn byte_position(s: &[u8], x: u8) -> (i: usize)
    ensures
        i == position(s@, x),
        i <= s@.len(),
{
    let mut i: usize = 0;
    while i < s.len() && s[i] != x
        invariant
            i <= s@.len(),
            forall|j: int| 0 <= j < i ==> s@[j] != x,
        decreases s@.len() - i,
    {
        i += 1;
    }
    proof {
        position_is(s@, x, i as int);
    }
    i
}

/// Where the character `x` first occurs in `s`, or the length of `s`.
pub fn char_position(s: &[char], x: char) -> (i: usize)
    ensures
        i == position(s@, x),
        i <= s@.len(),
{
    let mut i: usize = 0;
    while i < s.len() && s[i] != x
        invariant
            i <= s@.len(),
            forall|j: int| 0 <= j < i ==> s@[j] != x,
        decreases s@.len() - i,
    {
        i += 1;
    }
    proof {
        position_is(s@, x, i as int);
    }
    i
}

/// Whether two byte strings are the same.
pub fn bytes_eq(a: &[u8], b: &[u8]) -> (r: bool)
    ensures
        r == (a@ == b@),
{
    if a.len() != b.len() {
        return false;
    }
    let mut i: usize = 0;
    while i < a.len()
        invariant
            a@.len() == b@.len(),
            i <= a@.len(),
            forall|j: int| 0 <= j < i ==> a@[j] == b@[j],
        decreases a@.len() - i,
    {
        if a[i] != b[i] {
            return false;
        }
        i += 1;
    }
    assert(a@ =~= b@);
    true
}

/// Whether two strings are the same.
pub fn text_eq(a: &str, b: &str) -> (r: bool)
    ensures
        r == (a@ == b@),
{
    let r = bytes_eq(a.as_bytes(), b.as_bytes());
    proof {
        if r {
            encode_utf8_decode_utf8(a@);
            encode_utf8_decode_utf8(b@);
        }
    }
    r
}

/// What stands behind the first `n` items of `s`.
pub fn tail(s: &[char], n: usize) -> (r: &[char])
    requires
        n <= s@.len(),
    ensures
        r@ == s@.skip(n as int),
{
    let r = slice_subrange(s, n, s.len());
    assert(r@ =~= s@.skip(n as int));
    r
}

/// The first `n` items of `s`.
pub fn head(s: &[char], n: usize) -> (r: &[char])
    requires
        n <= s@.len(),
    ensures
        r@ == s@.take(n as int),
{
    let r = slice_subrange(s, 0, n);
    assert(r@ =~= s@.take(n as int));
    r
}

/// Whether `c` is white space.
pub open spec fn is_space(c: char) -> bool {
    let n = c as int;
    9 <= n <= 13 || n == 32 || n == 0x85 || n == 0xa0 || n == 0x1680 || 0x2000 <= n <= 0x200a || n
        == 0x2028 || n == 0x2029 || n == 0x202f || n == 0x205f || n == 0x3000
}

/// `s` without the white space at its start.
pub open spec fn trimmed_start(s: Seq<char>) -> Seq<char>
    decreases s.len(),
{
    if s.len() > 0 && is_space(s[0]) {
        trimmed_start(s.skip(1))
    } else {
        s
    }
}

/// `s` without the white space at its end.
pub open spec fn trimmed_end(s: Seq<char>) -> Seq<char>
    decreases s.len(),
{
    if s.len() > 0 && is_space(s.last()) {
        trimmed_end(s.drop_last())
    } else {
        s
    }
}

/// `s` without the white space around it.
pub open spec fn trimmed(s: Seq<char>) -> Seq<char> {
    trimmed_end(trimmed_start(s))
}

pub(crate) fn space(c: char) -> (r: bool)
    ensures
        r == is_space(c),
{
    let n: u32 = char_code(c);
    (n >= 9 && n <= 13) || n == 32 || n == 0x85 || n == 0xa0 || n == 0x1680 || (n >= 0x2000 && n
        <= 0x200a) || n == 0x2028 || n == 0x2029 || n == 0x202f || n == 0x205f || n == 0x3000
}

/// `s` without the white space around it.
pub fn trim(s: &[char]) -> (r: &[char])
    ensures
        r@ == trimmed(s@),
{
    let mut r = s;
    while r.len() > 0 && space(r[0])
        invariant
            trimmed_start(s@) == trimmed_start(r@),
        decreases r@.len(),
    {
        r = tail(r, 1);
    }
    let ghost started = r@;
    while r.len() > 0 && space(r[r.len() - 1])
        invariant
            trimmed_end(started) == trimmed_end(r@),
        decreases r@.len(),
    {
        let shorter = head(r, r.len() - 1);
        assert(shorter@ =~= r@.drop_last());
        r = shorter;
    }
    r
}

/// The character for the digit `d`.
pub open spec fn digit_char(d: nat) -> char {
    (d + 48) as char
}

/// The decimal digits of `n`, without leading zeros.
pub open spec fn decimal(n: nat) -> Seq<char>
    decreases n,
{
    if n < 10 {
        seq![digit_char(n)]
    } else {
        decimal(n / 10).push(digit_char(n % 10))
    }
}

/// Appends the decimal digits of `n` to `out`.
pub fn push_decimal(out: &mut String, n: u64)
    ensures
        final(out)@ == old(out)@ + decimal(n as nat),
    decreases n,
{
    if n >= 10 {
        push_decimal(out, n / 10);
    }
    let digit: u8 = (n % 10) as u8;
    out.push((digit + 48) as char);
    assert(out@ =~= old(out)@ + decimal(n as nat));
}

/// Whether `c` is one of `0` to `9`.
pub open spec fn is_digit(c: char) -> bool {
    48 <= c as nat <= 57
}

/// The number that the digits of `s` spell.
pub open spec fn digits_value(s: Seq<char>) -> nat
    decreases s.len(),
{
    if s.len() == 0 {
        0
    } else {
        digits_value(s.drop_last()) * 10 + (s.last() as nat - 48) as nat
    }
}

/// `s` without a leading plus sign.
pub open spec fn without_plus(s: Seq<char>) -> Seq<char> {
    if s.len() > 0 && s[0] == '+' {
        s.skip(1)
    } else {
        s
    }
}

/// The number that `s` spells, if it is at most `max`: an optional plus sign, then one or more
/// digits and nothing else.
pub open spec fn unsigned_value(s: Seq<char>, max: nat) -> Option<nat> {
    let d = without_plus(s);
    if d.len() > 0 && (forall|i: int| 0 <= i < d.len() ==> is_digit(#[trigger] d[i]))
        && digits_value(d) <= max {
        Some(digits_value(d))
    } else {
        None
    }
}

proof fn prefix_value_is_smaller(d: Seq<char>, i: int)
    requires
        0 <= i <= d.len(),
    ensures
        digits_value(d.take(i)) <= digits_value(d),
    decreases d.len() - i,
{
    if i < d.len() {
        prefix_value_is_smaller(d, i + 1);
        assert(d.take(i + 1).drop_last() =~= d.take(i));
    } else {
        assert(d.take(i) =~= d);
    }
}

/// Reads an unsigned decimal number of at most `max`.
pub fn parse_unsigned(s: &[char], max: u64) -> (r: Option<u64>)
    requires
        max <= u32::MAX,
    ensures
        match r {
            Some(n) => unsigned_value(s@, max as nat) == Some(n as nat),
            None => unsigned_value(s@, max as nat) is None,
        },
{
    let ghost d = without_plus(s@);
    let start: usize = if s.len() > 0 && s[0] == '+' {
        1
    } else {
        0
    };
    assert(d =~= s@.skip(start as int));
    if start == s.len() {
        return None;
    }
    let mut n: u64 = 0;
    let mut i: usize = start;
    while i < s.len()
        invariant
            start <= i <= s@.len(),
            d == s@.skip(start as int),
            max <= u32::MAX,
            n <= max,
            n == digits_value(d.take(i - start)),
            forall|j: int| 0 <= j < i - start ==> is_digit(#[trigger] d[j]),
            d == without_plus(s@),
        decreases s@.len() - i,
    {
        let c: char = s[i];
        assert(d[i - start] == c);
        let code: u32 = char_code(c);
        if code < 48 || code > 57 {
            assert(!is_digit(d[i - start]));
            return None;
        }
        n = n * 10 + (code - 48) as u64;
        i += 1;
        assert(d.take(i - start).drop_last() =~= d.take(i - start - 1));
        if n > max {
            proof {
                prefix_value_is_smaller(d, i - start);
            }
            return None;
        }
    }
    assert(d.take(i - start) =~= d);
    Some(n)
}

pub(crate) proof fn decimal_spells_its_number(n: nat)
    ensures
        decimal(n).len() > 0,
        forall|i: int| 0 <= i < decimal(n).len() ==> is_digit(#[trigger] decimal(n)[i]),
        digits_value(decimal(n)) == n,
    decreases n,
{
    if n >= 10 {
        decimal_spells_its_number(n / 10);
        assert(decimal(n).drop_last() =~= decimal(n / 10));
    } else {
        assert(decimal(n).drop_last() =~= Seq::<char>::empty());
        assert(digits_value(Seq::<char>::empty()) == 0);
    }
}

/// Reading the decimal digits of a number gives the number back.
pub proof fn decimal_round_trip(n: nat, max: nat)
    requires
        n <= max,
    ensures
        unsigned_value(decimal(n), max) == Some(n),
{
    decimal_spells_its_number(n);
    assert(is_digit(decimal(n)[0]));
}

} // verus!
