//! Percent-encoding, and the `key=value&key=value` form of a URL's query.
use crate::text::{
    position, position_bounds, position_is, string_from_utf8, string_from_utf8_lossy, utf8_lossy,
};
use std::borrow::Cow;
use url::form_urlencoded;
use vstd::prelude::*;
use vstd::utf8::{
    decode_utf8, encode_utf8, encode_utf8_decode_utf8, encode_utf8_valid_utf8,
    is_ascii_chars_encode_utf8, valid_utf8,
};

verus! {

/// The value of a hexadecimal digit, in either case.
pub open spec fn hex_value(b: u8) -> Option<u8> {
    if 48 <= b <= 57 {
        Some((b - 48) as u8)
    } else if 65 <= b <= 70 {
        Some((b - 55) as u8)
    } else if 97 <= b <= 102 {
        Some((b - 87) as u8)
    } else {
        None
    }
}

/// Whether `s` starts with a percent sign and two hexadecimal digits.
pub open spec fn starts_escaped(s: Seq<u8>) -> bool {
    s.len() >= 3 && s[0] == 37 && hex_value(s[1]) is Some && hex_value(s[2]) is Some
}

/// `s` where every percent sign that two hexadecimal digits follow is replaced, with them, by
/// the byte that they spell.
pub open spec fn percent_decoded(s: Seq<u8>) -> Seq<u8>
    decreases s.len(),
{
    if s.len() == 0 {
        Seq::empty()
    } else if starts_escaped(s) {
        seq![(hex_value(s[1])->0 * 16 + hex_value(s[2])->0) as u8] + percent_decoded(s.skip(3))
    } else {
        seq![s[0]] + percent_decoded(s.skip(1))
    }
}

/// `percent_encoding::percent_decode`: replaces every percent sign that two hexadecimal digits
/// follow, with them, by the byte that they spell.
#[verifier::external_body]
fn percent_decode(data: &[u8]) -> (v: Vec<u8>)
    ensures
        v@ == percent_decoded(data@),
{
    Cow::<[u8]>::from(percent_encoding::percent_decode(data)).into_owned()
}

/// The text that `text` percent-encodes, where whatever is not UTF-8 is replaced.
pub open spec fn text_decoded(text: Seq<char>) -> Seq<char> {
    utf8_lossy(percent_decoded(encode_utf8(text)))
}

/// The text that `text` percent-encodes, where whatever is not UTF-8 is replaced.
pub fn percent_decode_lossy(text: &str) -> (s: String)
    ensures
        s@ == text_decoded(text@),
{
    let bytes = percent_decode(text.as_bytes());
    string_from_utf8_lossy(bytes.as_slice())
}

/// The text that `text` percent-encodes, if it is UTF-8.
pub fn percent_decode_utf8(text: &str) -> (r: Option<String>)
    ensures
        ({
            let bytes = percent_decoded(encode_utf8(text@));
            match r {
                Some(s) => valid_utf8(bytes) && s@ == decode_utf8(bytes),
                None => !valid_utf8(bytes),
            }
        }),
{
    string_from_utf8(percent_decode(text.as_bytes()))
}

/// The digit for `n`, with capital letters.
pub open spec fn hex_char(n: int) -> char {
    if n < 10 {
        (48 + n) as char
    } else {
        (55 + n) as char
    }
}

/// A percent sign and the two digits of `b`.
pub open spec fn escaped(b: u8) -> Seq<char> {
    seq!['%', hex_char(b as int / 16), hex_char(b as int % 16)]
}

/// `percent_encoding::percent_encode_byte`: a percent sign and the two hexadecimal digits of
/// `b`, with capital letters.
#[verifier::external_body]
fn percent_encode_byte(b: u8) -> (s: &'static str)
    ensures
        s@ == escaped(b),
{
    percent_encoding::percent_encode_byte(b)
}

/// The parts of a URL that have to be encoded differently.
#[derive(Debug, Clone, Copy, PartialEq, Eq, Structural)]
pub enum UrlPart {
    /// The credential before the host.
    Userinfo,
    /// The label behind the hash sign.
    Fragment,
}

/// Whether a byte has to be escaped in a part of a URL: control characters and everything that
/// is not ASCII, the percent sign, and the characters that would end the part or are not allowed
/// in it.
pub open spec fn must_escape(part: UrlPart, b: u8) -> bool {
    ||| b < 32 || b >= 127
    // space " % < > `
    ||| b == 32 || b == 34 || b == 37 || b == 60 || b == 62 || b == 96
    // # / : ? @ [ \ ] ^ { | }
    ||| part is Userinfo && (b == 35 || b == 47 || b == 58 || b == 63 || b == 64 || 91 <= b <= 94
        || 123 <= b <= 125)
}

/// `s` with every byte escaped that has to be.
pub open spec fn percent_encoded(part: UrlPart, s: Seq<u8>) -> Seq<char>
    decreases s.len(),
{
    if s.len() == 0 {
        Seq::empty()
    } else {
        percent_encoded(part, s.drop_last()) + if must_escape(part, s.last()) {
            escaped(s.last())
        } else {
            seq![s.last() as char]
        }
    }
}

/// Escapes every byte of `value` that has to be.
pub fn percent_encode(part: UrlPart, value: &str) -> (r: String)
    ensures
        r@ == percent_encoded(part, encode_utf8(value@)),
{
    let bytes = value.as_bytes();
    let mut r = String::new();
    let mut i: usize = 0;
    assert(r@ =~= percent_encoded(part, bytes@.take(0)));
    while i < bytes.len()
        invariant
            i <= bytes@.len(),
            r@ == percent_encoded(part, bytes@.take(i as int)),
        decreases bytes@.len() - i,
    {
        let b: u8 = bytes[i];
        let userinfo = match part {
            UrlPart::Userinfo => true,
            UrlPart::Fragment => false,
        };
        assert(bytes@.take(i + 1).drop_last() =~= bytes@.take(i as int));
        let ghost before = r@;
        if b < 32 || b >= 127 || b == 32 || b == 34 || b == 37 || b == 60 || b == 62 || b == 96 || (
        userinfo && (b == 35 || b == 47 || b == 58 || b == 63 || b == 64 || (b >= 91 && b <= 94) || (
        b >= 123 && b <= 125))) {
            r.append(percent_encode_byte(b));
        } else {
            r.push(b as char);
            assert(r@ =~= before + seq![b as char]);
        }
        i += 1;
    }
    assert(bytes@.take(i as int) =~= bytes@);
    r
}

/// `s` with a space for every plus sign.
pub open spec fn plus_replaced(s: Seq<u8>) -> Seq<u8> {
    s.map_values(
        |b: u8|
            if b == 43 {
                32u8
            } else {
                b
            },
    )
}

/// The text that a key or a value of a query stands for.
pub open spec fn form_decoded(s: Seq<u8>) -> Seq<char> {
    utf8_lossy(percent_decoded(plus_replaced(s)))
}

/// The key and the value of one piece of a query: the key ends at the first `=`.
pub open spec fn form_pair(piece: Seq<u8>) -> (Seq<char>, Seq<char>) {
    let i = position(piece, 61u8);
    (
        form_decoded(piece.take(i)),
        if i < piece.len() {
            form_decoded(piece.skip(i + 1))
        } else {
            form_decoded(Seq::empty())
        },
    )
}

/// The pairs of a query: one for every piece between two `&` that is not empty.
pub open spec fn form_pairs(s: Seq<u8>) -> Seq<(Seq<char>, Seq<char>)>
    decreases s.len(),
{
    if s.len() == 0 {
        Seq::empty()
    } else {
        let i = position(s, 38u8);
        let piece = s.take(i);
        let rest = if 0 <= i < s.len() {
            form_pairs(s.skip(i + 1))
        } else {
            Seq::empty()
        };
        if piece.len() == 0 {
            rest
        } else {
            seq![form_pair(piece)] + rest
        }
    }
}

/// `url::form_urlencoded::parse`: the pairs of a query. The pieces between two `&` that are not
/// empty are cut at their first `=`; in both parts a plus sign stands for a space, escapes are
/// decoded, and whatever is not UTF-8 is replaced.
#[verifier::external_body]
pub(crate) fn form_parse(query: &[u8]) -> (pairs: Vec<(String, String)>)
    ensures
        pairs@.map_values(|p: (String, String)| (p.0@, p.1@)) == form_pairs(query@),
{
    form_urlencoded::parse(query).into_owned().collect()
}

/// Whether a byte stands for itself in a query: `*`, `-`, `.`, `_`, digits and letters.
pub open spec fn form_unchanged(b: u8) -> bool {
    b == 42 || b == 45 || b == 46 || b == 95 || 48 <= b <= 57 || 65 <= b <= 90 || 97 <= b <= 122
}

/// How `s` is written in a query: a space as a plus sign, and whatever does not stand for
/// itself as an escape.
pub open spec fn form_encoded(s: Seq<u8>) -> Seq<char>
    decreases s.len(),
{
    if s.len() == 0 {
        Seq::empty()
    } else {
        (if form_unchanged(s[0]) {
            seq![s[0] as char]
        } else if s[0] == 32 {
            seq!['+']
        } else {
            escaped(s[0])
        }) + form_encoded(s.skip(1))
    }
}

/// `query` with one pair more.
pub open spec fn pair_appended(
    query: Seq<char>,
    name: Seq<char>,
    value: Seq<char>,
) -> Seq<char> {
    query + (if query.len() > 0 {
        seq!['&']
    } else {
        Seq::empty()
    }) + form_encoded(encode_utf8(name)) + seq!['='] + form_encoded(encode_utf8(value))
}

/// `url::form_urlencoded::Serializer::append_pair` on a serializer for `query`: the pair goes to
/// the end, behind an `&` if there is something before it.
#[verifier::external_body]
pub(crate) fn append_pair(query: String, name: &str, value: &str) -> (r: String)
    ensures
        r@ == pair_appended(query@, name@, value@),
{
    let mut serializer = form_urlencoded::Serializer::new(query);
    serializer.append_pair(name, value);
    serializer.finish()
}

pub(crate) proof fn encoding_distributes(a: Seq<char>, b: Seq<char>)
    ensures
        encode_utf8(a + b) == encode_utf8(a) + encode_utf8(b),
    decreases a.len(),
{
    if a.len() == 0 {
        assert(a + b =~= b);
        assert(encode_utf8(a) + encode_utf8(b) =~= encode_utf8(b));
    } else {
        assert((a + b).drop_first() =~= a.drop_first() + b);
        encoding_distributes(a.drop_first(), b);
        assert(encode_utf8(a + b) =~= encode_utf8(a) + encode_utf8(b));
    }
}

pub(crate) proof fn ascii_char_is_its_byte(b: u8)
    requires
        b < 128,
    ensures
        encode_utf8(seq![b as char]) == seq![b],
{
    let text = seq![b as char];
    is_ascii_chars_encode_utf8(text);
    assert(encode_utf8(text) =~= seq![b]);
}

proof fn escape_bytes(b: u8)
    ensures
        ({
            let e = encode_utf8(escaped(b));
            &&& e.len() == 3
            &&& e[0] == 37
            &&& hex_value(e[1]) == Some((b / 16) as u8)
            &&& hex_value(e[2]) == Some((b % 16) as u8)
            &&& forall|i: int| 0 <= i < 3 ==> #[trigger] e[i] != 38 && e[i] != 61 && e[i] != 43
        }),
{
    let text = escaped(b);
    is_ascii_chars_encode_utf8(text);
    assert(text[0] == '%');
    assert(text[1] == hex_char(b as int / 16));
    assert(text[2] == hex_char(b as int % 16));
}

/// Decoding an escape gives the byte that was escaped, and what follows it is decoded on its
/// own.
pub(crate) proof fn escapes_decode(b: u8, rest: Seq<u8>)
    ensures
        percent_decoded(encode_utf8(escaped(b)) + rest) == seq![b] + percent_decoded(rest),
{
    escape_bytes(b);
    let s = encode_utf8(escaped(b)) + rest;
    assert(starts_escaped(s));
    assert(s.skip(3) =~= rest);
    assert(b as int / 16 * 16 + b as int % 16 == b);
}

pub(crate) proof fn plain_bytes_decode(b: u8, rest: Seq<u8>)
    requires
        b != 37,
    ensures
        percent_decoded(seq![b] + rest) == seq![b] + percent_decoded(rest),
{
    assert((seq![b] + rest).skip(1) =~= rest);
}

/// How one byte is written in a part of a URL.
pub open spec fn encoded_byte(part: UrlPart, b: u8) -> Seq<char> {
    if must_escape(part, b) {
        escaped(b)
    } else {
        seq![b as char]
    }
}

proof fn percent_encoded_front(part: UrlPart, s: Seq<u8>)
    requires
        s.len() > 0,
    ensures
        percent_encoded(part, s) == encoded_byte(part, s[0]) + percent_encoded(part, s.skip(1)),
    decreases s.len(),
{
    if s.len() == 1 {
        assert(s.drop_last() =~= Seq::<u8>::empty());
        assert(s.skip(1) =~= Seq::<u8>::empty());
        assert(percent_encoded(part, s) =~= encoded_byte(part, s[0]) + percent_encoded(
            part,
            s.skip(1),
        ));
    } else {
        percent_encoded_front(part, s.drop_last());
        assert(s.drop_last().skip(1) =~= s.skip(1).drop_last());
        assert(percent_encoded(part, s) =~= encoded_byte(part, s[0]) + percent_encoded(
            part,
            s.skip(1),
        ));
    }
}

/// Decoding what was encoded for a URL gives it back, and what follows it is decoded on its own.
pub proof fn percent_round_trip(part: UrlPart, s: Seq<u8>, rest: Seq<u8>)
    ensures
        percent_decoded(encode_utf8(percent_encoded(part, s)) + rest) == s + percent_decoded(rest),
    decreases s.len(),
{
    if s.len() == 0 {
        assert(encode_utf8(percent_encoded(part, s)) + rest =~= rest);
        assert(s + percent_decoded(rest) =~= percent_decoded(rest));
    } else {
        let b = s[0];
        let first = encoded_byte(part, b);
        let later = percent_encoded(part, s.skip(1));
        let tail = encode_utf8(later) + rest;
        percent_encoded_front(part, s);
        encoding_distributes(first, later);
        assert(encode_utf8(percent_encoded(part, s)) + rest =~= encode_utf8(first) + tail);
        percent_round_trip(part, s.skip(1), rest);
        if must_escape(part, b) {
            escapes_decode(b, tail);
        } else {
            ascii_char_is_its_byte(b);
            plain_bytes_decode(b, tail);
        }
        assert(s + percent_decoded(rest) =~= seq![b] + (s.skip(1) + percent_decoded(rest)));
    }
}

/// A text that was encoded for a URL is decoded to what it was.
pub proof fn texts_survive_encoding(part: UrlPart, text: Seq<char>)
    ensures
        text_decoded(percent_encoded(part, encode_utf8(text))) == text,
{
    let bytes = encode_utf8(text);
    let nothing = Seq::<u8>::empty();
    let e = encode_utf8(percent_encoded(part, bytes));
    percent_round_trip(part, bytes, nothing);
    assert(e + nothing =~= e);
    assert(bytes + percent_decoded(nothing) =~= bytes);
    encode_utf8_valid_utf8(text);
    encode_utf8_decode_utf8(text);
}

/// How one byte is written in a query.
pub open spec fn form_byte(b: u8) -> Seq<char> {
    if form_unchanged(b) {
        seq![b as char]
    } else if b == 32 {
        seq!['+']
    } else {
        escaped(b)
    }
}

proof fn form_byte_bytes(b: u8)
    ensures
        ({
            let e = encode_utf8(form_byte(b));
            &&& e.len() > 0
            &&& forall|i: int| 0 <= i < e.len() ==> #[trigger] e[i] != 38 && e[i] != 61
            &&& forall|rest: Seq<u8>|
                percent_decoded(#[trigger] (plus_replaced(e) + rest)) == seq![b] + percent_decoded(
                    rest,
                )
        }),
{
    let e = encode_utf8(form_byte(b));
    if form_unchanged(b) {
        ascii_char_is_its_byte(b);
        assert(plus_replaced(e) =~= seq![b]);
        assert forall|rest: Seq<u8>| percent_decoded(#[trigger] (plus_replaced(e) + rest)) == seq![
            b,
        ] + percent_decoded(rest) by {
            plain_bytes_decode(b, rest);
        }
    } else if b == 32 {
        ascii_char_is_its_byte(43);
        assert(seq!['+'] =~= seq![43u8 as char]);
        assert(plus_replaced(e) =~= seq![32u8]);
        assert forall|rest: Seq<u8>| percent_decoded(#[trigger] (plus_replaced(e) + rest)) == seq![
            b,
        ] + percent_decoded(rest) by {
            plain_bytes_decode(b, rest);
        }
    } else {
        escape_bytes(b);
        assert(plus_replaced(e) =~= e);
        assert forall|rest: Seq<u8>| percent_decoded(#[trigger] (plus_replaced(e) + rest)) == seq![
            b,
        ] + percent_decoded(rest) by {
            escapes_decode(b, rest);
        }
    }
}

proof fn form_text_decodes(s: Seq<u8>)
    ensures
        ({
            let e = encode_utf8(form_encoded(s));
            &&& percent_decoded(plus_replaced(e)) == s
            &&& forall|i: int| 0 <= i < e.len() ==> #[trigger] e[i] != 38 && e[i] != 61
        }),
    decreases s.len(),
{
    let e = encode_utf8(form_encoded(s));
    if s.len() == 0 {
        assert(plus_replaced(e) =~= Seq::<u8>::empty());
        assert(percent_decoded(plus_replaced(e)) =~= s);
    } else {
        let first = encode_utf8(form_byte(s[0]));
        let later = encode_utf8(form_encoded(s.skip(1)));
        encoding_distributes(form_byte(s[0]), form_encoded(s.skip(1)));
        assert(e == first + later);
        form_byte_bytes(s[0]);
        form_text_decodes(s.skip(1));
        assert(plus_replaced(e) =~= plus_replaced(first) + plus_replaced(later));
        assert(seq![s[0]] + s.skip(1) =~= s);
        assert forall|i: int| 0 <= i < e.len() implies #[trigger] e[i] != 38 && e[i] != 61 by {
            if i < first.len() {
                assert(e[i] == first[i]);
            } else {
                assert(e[i] == later[i - first.len()]);
            }
        }
    }
}

proof fn appended_piece_is_last(q: Seq<u8>, piece: Seq<u8>)
    requires
        q.len() > 0,
        piece.len() > 0,
        !piece.contains(38u8),
    ensures
        form_pairs(q + seq![38u8] + piece) == form_pairs(q).push(form_pair(piece)),
    decreases q.len(),
{
    let s = q + seq![38u8] + piece;
    let i = position(q, 38u8);
    position_bounds(q, 38u8);
    assert forall|j: int| 0 <= j < i implies s[j] != 38u8 by {
        assert(s[j] == q[j]);
    }
    position_is(s, 38u8, i);
    assert(s.take(i) =~= q.take(i));
    let first = s.take(i);
    if i < q.len() {
        let rest = q.skip(i + 1);
        assert(s.skip(i + 1) =~= rest + seq![38u8] + piece);
        if rest.len() > 0 {
            appended_piece_is_last(rest, piece);
        } else {
            assert(s.skip(i + 1) =~= seq![38u8] + piece);
            let t = s.skip(i + 1);
            position_is(t, 38u8, 0);
            assert(t.skip(1) =~= piece);
            single_piece(piece);
            assert(form_pairs(t) == form_pairs(piece));
            assert(form_pairs(rest).push(form_pair(piece)) =~= seq![form_pair(piece)]);
        }
        if first.len() > 0 {
            assert(seq![form_pair(first)] + form_pairs(rest).push(form_pair(piece)) =~= (seq![
                form_pair(first),
            ] + form_pairs(rest)).push(form_pair(piece)));
        }
    } else {
        assert(first =~= q);
        assert(s.skip(i + 1) =~= piece);
        single_piece(piece);
        assert(seq![form_pair(q)] + seq![form_pair(piece)] =~= form_pairs(q).push(
            form_pair(piece),
        )) by {
            assert(q.take(i) =~= q);
            assert(form_pairs(q) =~= seq![form_pair(q)]);
        }
    }
}

proof fn single_piece(piece: Seq<u8>)
    requires
        piece.len() > 0,
        !piece.contains(38u8),
    ensures
        form_pairs(piece) == seq![form_pair(piece)],
{
    let n = piece.len() as int;
    assert forall|j: int| 0 <= j < n implies piece[j] != 38u8 by {
        assert(piece.contains(piece[j]));
    }
    position_is(piece, 38u8, n);
    assert(piece.take(n) =~= piece);
    assert(seq![form_pair(piece)] + Seq::<(Seq<char>, Seq<char>)>::empty() =~= seq![
        form_pair(piece),
    ]);
}

/// A pair that was appended to a query is read back behind the pairs that were there, with the
/// name and the value that it was written with.
pub proof fn query_round_trip(query: Seq<char>, name: Seq<char>, value: Seq<char>)
    ensures
        form_pairs(encode_utf8(pair_appended(query, name, value))) == form_pairs(
            encode_utf8(query),
        ).push((name, value)),
{
    let n = encode_utf8(form_encoded(encode_utf8(name)));
    let v = encode_utf8(form_encoded(encode_utf8(value)));
    let piece = n + seq![61u8] + v;
    form_text_decodes(encode_utf8(name));
    form_text_decodes(encode_utf8(value));
    ascii_char_is_its_byte(61);
    ascii_char_is_its_byte(38);
    assert(seq!['='] =~= seq![61u8 as char]);
    assert(seq!['&'] =~= seq![38u8 as char]);
    let separator = if query.len() > 0 {
        seq!['&']
    } else {
        Seq::empty()
    };
    encoding_distributes(query, separator);
    encoding_distributes(query + separator, form_encoded(encode_utf8(name)));
    encoding_distributes(query + separator + form_encoded(encode_utf8(name)), seq!['=']);
    encoding_distributes(
        query + separator + form_encoded(encode_utf8(name)) + seq!['='],
        form_encoded(encode_utf8(value)),
    );
    let q = encode_utf8(query);
    let all = encode_utf8(pair_appended(query, name, value));
    assert(all =~= q + encode_utf8(separator) + piece);
    assert(!piece.contains(38u8)) by {
        assert forall|i: int| 0 <= i < piece.len() implies piece[i] != 38u8 by {
            if i < n.len() {
                assert(piece[i] == n[i]);
            } else if i > n.len() {
                assert(piece[i] == v[i - n.len() - 1]);
            }
        }
    }
    assert(form_pair(piece) == (name, value)) by {
        assert forall|i: int| 0 <= i < n.len() implies piece[i] != 61u8 by {
            assert(piece[i] == n[i]);
        }
        position_is(piece, 61u8, n.len() as int);
        assert(piece.take(n.len() as int) =~= n);
        assert(piece.skip(n.len() as int + 1) =~= v);
        encode_utf8_valid_utf8(name);
        encode_utf8_valid_utf8(value);
        encode_utf8_decode_utf8(name);
        encode_utf8_decode_utf8(value);
    }
    if query.len() > 0 {
        assert(q.len() > 0) by {
            if q.len() == 0 {
                encode_utf8_decode_utf8(query);
                assert(q =~= Seq::<u8>::empty());
            }
        }
        appended_piece_is_last(q, piece);
    } else {
        assert(query =~= Seq::<char>::empty());
        assert(q =~= Seq::<u8>::empty());
        assert(all =~= piece);
        single_piece(piece);
        assert(form_pairs(q).push((name, value)) =~= seq![(name, value)]);
    }
}

} // verus!
