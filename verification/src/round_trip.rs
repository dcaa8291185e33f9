//! That the URL that is written for a configuration is read as that configuration.
use crate::address::{
    bracketed, host_and_port, host_text, ipv4_text, ipv6_text, port_of, AddressView,
};
use crate::identity::{parsed_uuid, uuid_text};
use crate::parse_url::{
    all_plain, behind_last, brackets_crossed, config_of, config_url, delimiter_position, fragment_marks,
    has_part, has_zone, host_marks, is_delimiter, is_plain, is_plain_url, label_of, parsed_url,
    percent_escaped, query_marks, query_of, split_authority, split_userinfo, url_authority,
    url_config, url_query, userinfo_marks, userinfo_password, with_pair, with_pairs,
    without_scheme, written_url, zone_fragment, zone_host, zone_port, zone_server, ConfigView,
    QueryView, UrlErrorView, UrlHostView, UrlPartsView, DEFAULT_PORT,
};
use crate::percent::{
    ascii_char_is_its_byte, encoding_distributes, escaped, escapes_decode, form_byte, form_encoded,
    form_pairs, hex_char, must_escape, pair_appended, percent_decoded, percent_encoded,
    plain_bytes_decode, query_round_trip, text_decoded, texts_survive_encoding, UrlPart,
};
use crate::text::{
    decimal, decimal_round_trip, decimal_spells_its_number, is_digit, is_space, position,
    position_bounds, position_is, trimmed, unsigned_value,
};
use vstd::prelude::*;
use vstd::utf8::{
    encode_scalar, encode_utf8, encode_utf8_decode_utf8, encode_utf8_valid_utf8,
    has_width_1_encoding, has_width_2_encoding, has_width_3_encoding, last_continuation_byte,
    leading_byte_width_1, leading_byte_width_2, leading_byte_width_3, leading_byte_width_4,
    second_last_continuation_byte, third_last_continuation_byte,
};

verus! {

/// Whether the text of a client id is read as that client id.
pub open spec fn reads_back(client_id: Option<Seq<u8>>) -> bool {
    client_id matches Some(id) ==> parsed_uuid(uuid_text(id)) == Ok::<Seq<u8>, uuid::Error>(id)
}

proof fn position_behind<T>(a: Seq<T>, b: Seq<T>, x: T)
    requires
        !a.contains(x),
    ensures
        position(a + b, x) == a.len() + position(b, x),
        0 <= position(b, x) <= b.len(),
{
    let s = a + b;
    let i = a.len() + position(b, x);
    position_bounds(b, x);
    assert forall|j: int| 0 <= j < i implies s[j] != x by {
        if j < a.len() {
            assert(a.contains(a[j]));
        } else {
            assert(s[j] == b[j - a.len()]);
        }
    }
    position_is(s, x, i);
}

proof fn delimiter_behind(a: Seq<char>, b: Seq<char>)
    requires
        forall|i: int| 0 <= i < a.len() ==> !is_delimiter(#[trigger] a[i]),
        b.len() > 0 ==> is_delimiter(b[0]),
    ensures
        delimiter_position(a + b) == a.len(),
    decreases a.len(),
{
    if a.len() == 0 {
        assert(a + b =~= b);
    } else {
        assert((a + b).skip(1) =~= a.skip(1) + b);
        assert((a + b)[0] == a[0]);
        assert forall|i: int| 0 <= i < a.skip(1).len() implies !is_delimiter(#[trigger] a.skip(1)[i])
            by {
            assert(a.skip(1)[i] == a[i + 1]);
        }
        delimiter_behind(a.skip(1), b);
    }
}

proof fn other_chars_avoid(c: char, x: u8)
    requires
        x < 128,
        c != x as char,
    ensures
        !encode_scalar(c as u32).contains(x),
{
    let n = c as u32;
    if has_width_1_encoding(n) {
        assert(leading_byte_width_1(n) == n as u8 && n < 128) by (bit_vector)
            requires
                has_width_1_encoding(n),
        ;
    } else if has_width_2_encoding(n) {
        assert(leading_byte_width_2(n) >= 128 && last_continuation_byte(n) >= 128) by (bit_vector);
    } else if has_width_3_encoding(n) {
        assert(leading_byte_width_3(n) >= 128 && second_last_continuation_byte(n) >= 128
            && last_continuation_byte(n) >= 128) by (bit_vector);
    } else {
        assert(leading_byte_width_4(n) >= 128 && third_last_continuation_byte(n) >= 128
            && second_last_continuation_byte(n) >= 128 && last_continuation_byte(n) >= 128)
            by (bit_vector);
    }
}

proof fn absent_chars_are_absent_bytes(s: Seq<char>, x: u8)
    requires
        x < 128,
        !s.contains(x as char),
    ensures
        !encode_utf8(s).contains(x),
    decreases s.len(),
{
    if s.len() > 0 {
        let rest = s.drop_first();
        assert(s.contains(s[0]));
        other_chars_avoid(s[0], x);
        if rest.contains(x as char) {
            let i = choose|i: int| 0 <= i < rest.len() && rest[i] == x as char;
            assert(s[i + 1] == x as char);
        }
        absent_chars_are_absent_bytes(rest, x);
        let e = encode_utf8(s);
        let first = encode_scalar(s[0] as u32);
        if e.contains(x) {
            let i = choose|i: int| 0 <= i < e.len() && e[i] == x;
            if i < first.len() {
                assert(first.contains(first[i]));
            } else {
                assert(encode_utf8(rest)[i - first.len()] == x);
            }
        }
    }
}

proof fn plain_text_decodes(s: Seq<u8>, rest: Seq<u8>)
    requires
        !s.contains(37u8),
    ensures
        percent_decoded(s + rest) == s + percent_decoded(rest),
    decreases s.len(),
{
    if s.len() == 0 {
        assert(s + rest =~= rest);
        assert(s + percent_decoded(rest) =~= percent_decoded(rest));
    } else {
        let later = s.skip(1);
        assert(s.contains(s[0]));
        if later.contains(37u8) {
            let i = choose|i: int| 0 <= i < later.len() && later[i] == 37u8;
            assert(s[i + 1] == 37u8);
        }
        plain_text_decodes(later, rest);
        plain_bytes_decode(s[0], later + rest);
        assert(s + rest =~= seq![s[0]] + (later + rest));
        assert(seq![s[0]] + (later + percent_decoded(rest)) =~= s + percent_decoded(rest));
    }
}

/// How one character of a host is written in a URL.
spec fn host_piece(c: char) -> Seq<char> {
    if c == '%' {
        "%25"@
    } else {
        seq![c]
    }
}

proof fn percent_escaped_front(s: Seq<char>)
    requires
        s.len() > 0,
    ensures
        percent_escaped(s) == host_piece(s[0]) + percent_escaped(s.skip(1)),
    decreases s.len(),
{
    if s.len() == 1 {
        assert(s.drop_last() =~= Seq::<char>::empty());
        assert(s.skip(1) =~= Seq::<char>::empty());
        assert(percent_escaped(s) =~= host_piece(s[0]) + percent_escaped(s.skip(1)));
    } else {
        percent_escaped_front(s.drop_last());
        assert(s.drop_last().skip(1) =~= s.skip(1).drop_last());
        assert(percent_escaped(s) =~= host_piece(s[0]) + percent_escaped(s.skip(1)));
    }
}

proof fn escaped_hosts_decode(s: Seq<char>)
    ensures
        percent_decoded(encode_utf8(percent_escaped(s))) == encode_utf8(s),
    decreases s.len(),
{
    if s.len() == 0 {
        assert(percent_decoded(encode_utf8(percent_escaped(s))) =~= encode_utf8(s));
    } else {
        let c = s[0];
        let rest = s.skip(1);
        percent_escaped_front(s);
        encoding_distributes(host_piece(c), percent_escaped(rest));
        escaped_hosts_decode(rest);
        assert(seq![c] + rest =~= s);
        encoding_distributes(seq![c], rest);
        if c == '%' {
            reveal_strlit("%25");
            assert("%25"@ =~= escaped(37));
            escapes_decode(37, encode_utf8(percent_escaped(rest)));
            ascii_char_is_its_byte(37);
            assert(seq![c] =~= seq![37u8 as char]);
        } else {
            assert(!seq![c].contains(37u8 as char));
            absent_chars_are_absent_bytes(seq![c], 37);
            plain_text_decodes(encode_utf8(seq![c]), encode_utf8(percent_escaped(rest)));
        }
    }
}

/// Whether `c` can stand in a host between square brackets.
spec fn host_char(c: char) -> bool {
    c != ']' && c != '/' && c != '?' && c != '#' && c != '@'
}

proof fn escaped_hosts_are_hosts(s: Seq<char>)
    requires
        forall|i: int| 0 <= i < s.len() ==> host_char(#[trigger] s[i]),
    ensures
        forall|i: int|
            0 <= i < percent_escaped(s).len() ==> host_char(#[trigger] percent_escaped(s)[i]),
    decreases s.len(),
{
    reveal_strlit("%25");
    if s.len() > 0 {
        let h = percent_escaped(s);
        let earlier = percent_escaped(s.drop_last());
        escaped_hosts_are_hosts(s.drop_last());
        assert(host_char(s.last()));
        assert forall|i: int| 0 <= i < h.len() implies host_char(#[trigger] h[i]) by {
            if i < earlier.len() {
                assert(h[i] == earlier[i]);
            } else {
                assert(h[i] == host_piece(s.last())[i - earlier.len()]);
            }
        }
    }
}

proof fn escaped_hosts_hold_escapes(s: Seq<char>)
    requires
        s.contains('%'),
    ensures
        has_part(percent_escaped(s), "%25"@),
        percent_escaped(s).contains('%'),
    decreases s.len(),
{
    reveal_strlit("%25");
    let h = percent_escaped(s);
    let earlier = percent_escaped(s.drop_last());
    if s.last() == '%' {
        let i = earlier.len() as int;
        assert(h.skip(i) =~= "%25"@);
        assert("%25"@.is_prefix_of(h.skip(i)));
        assert(h[i] == '%');
    } else {
        let k = choose|k: int| 0 <= k < s.len() && s[k] == '%';
        assert(s.drop_last()[k] == '%');
        escaped_hosts_hold_escapes(s.drop_last());
        let i = choose|i: int|
            0 <= i <= earlier.len() && #[trigger] "%25"@.is_prefix_of(earlier.skip(i));
        assert(earlier.skip(i).len() >= 3);
        assert forall|j: int| 0 <= j < 3 implies h.skip(i)[j] == "%25"@[j] by {
            assert(earlier.skip(i)[j] == "%25"@[j]);
        }
        assert("%25"@.is_prefix_of(h.skip(i)));
        let j = choose|j: int| 0 <= j < earlier.len() && earlier[j] == '%';
        assert(h[j] == '%');
    }
}

/// Whether `c` can stand in an encoded query.
spec fn query_char(c: char) -> bool {
    is_plain(c, query_marks())
}

proof fn encoded_pairs_are_queries(s: Seq<u8>)
    ensures
        forall|i: int| 0 <= i < form_encoded(s).len() ==> query_char(#[trigger] form_encoded(s)[i]),
    decreases s.len(),
{
    if s.len() > 0 {
        let e = form_encoded(s);
        let later = form_encoded(s.skip(1));
        let first = form_byte(s[0]);
        encoded_pairs_are_queries(s.skip(1));
        assert forall|i: int| 0 <= i < e.len() implies query_char(#[trigger] e[i]) by {
            if i < first.len() {
                assert(e[i] == first[i]);
                assert(first.len() == 3 ==> first[0] == '%' && first[1] == hex_char(
                    s[0] as int / 16,
                ) && first[2] == hex_char(s[0] as int % 16));
            } else {
                assert(e[i] == later[i - first.len()]);
            }
        }
    }
}

proof fn appending_keeps_queries(query: Seq<char>, name: Seq<char>, value: Seq<char>)
    requires
        forall|i: int| 0 <= i < query.len() ==> query_char(#[trigger] query[i]),
    ensures
        ({
            let all = pair_appended(query, name, value);
            forall|i: int| 0 <= i < all.len() ==> query_char(#[trigger] all[i])
        }),
{
    encoded_pairs_are_queries(encode_utf8(name));
    encoded_pairs_are_queries(encode_utf8(value));
}

proof fn queries_are_read_back(c: ConfigView)
    requires
        reads_back(c.client_id),
    ensures
        ({
            let query = url_query(c);
            let pairs = form_pairs(encode_utf8(query));
            &&& forall|i: int| 0 <= i < query.len() ==> query_char(#[trigger] query[i])
            &&& with_pairs(pairs, pairs.len()) == Ok::<QueryView, UrlErrorView>(
                QueryView { sni: c.sni, insecure: c.insecure, client_id: c.client_id },
            )
        }),
{
    reveal_strlit("sni");
    reveal_strlit("insecure");
    reveal_strlit("client_id");
    reveal_strlit("password");
    reveal_strlit("1");
    let none = Seq::<char>::empty();
    let nothing = Seq::<(Seq<char>, Seq<char>)>::empty();
    assert(form_pairs(encode_utf8(none)) =~= nothing);
    let (sni, sni_pairs) = match c.sni {
        Some(sni) => {
            query_round_trip(none, "sni"@, sni);
            appending_keeps_queries(none, "sni"@, sni);
            (pair_appended(none, "sni"@, sni), nothing.push(("sni"@, sni)))
        },
        None => (none, nothing),
    };
    assert(form_pairs(encode_utf8(sni)) == sni_pairs);
    assert(with_pairs(sni_pairs, sni_pairs.len()) == Ok::<QueryView, UrlErrorView>(
        QueryView { sni: c.sni, insecure: false, client_id: None },
    )) by {
        reveal_with_fuel(with_pairs, 3);
        assert("sni"@.len() != "password"@.len());
    }
    let (insecure, insecure_pairs) = if c.insecure {
        query_round_trip(sni, "insecure"@, "1"@);
        appending_keeps_queries(sni, "insecure"@, "1"@);
        (pair_appended(sni, "insecure"@, "1"@), sni_pairs.push(("insecure"@, "1"@)))
    } else {
        (sni, sni_pairs)
    };
    assert(form_pairs(encode_utf8(insecure)) == insecure_pairs);
    assert(with_pairs(insecure_pairs, insecure_pairs.len()) == Ok::<QueryView, UrlErrorView>(
        QueryView { sni: c.sni, insecure: c.insecure, client_id: None },
    )) by {
        if c.insecure {
            earlier_pairs_decide(sni_pairs, ("insecure"@, "1"@));
            assert("insecure"@[0] != "password"@[0]);
            assert("insecure"@.len() != "sni"@.len());
        }
    }
    if let Some(id) = c.client_id {
        let text = uuid_text(id);
        query_round_trip(insecure, "client_id"@, text);
        appending_keeps_queries(insecure, "client_id"@, text);
        earlier_pairs_decide(insecure_pairs, ("client_id"@, text));
        assert("client_id"@.len() != "password"@.len());
        assert("client_id"@.len() != "sni"@.len());
        assert("client_id"@.len() != "insecure"@.len());
        assert(text.len() > 0);
    }
}

proof fn earlier_pairs_decide(pairs: Seq<(Seq<char>, Seq<char>)>, last: (Seq<char>, Seq<char>))
    requires
        with_pairs(pairs, pairs.len()) is Ok,
    ensures
        with_pairs(pairs.push(last), pairs.len() + 1) == with_pair(
            with_pairs(pairs, pairs.len())->Ok_0,
            last.0,
            last.1,
        ),
{
    same_front_same_query(pairs, pairs.push(last), pairs.len());
}

proof fn same_front_same_query(
    a: Seq<(Seq<char>, Seq<char>)>,
    b: Seq<(Seq<char>, Seq<char>)>,
    n: nat,
)
    requires
        n <= a.len(),
        n <= b.len(),
        forall|i: int| 0 <= i < n ==> a[i] == b[i],
    ensures
        with_pairs(a, n) == with_pairs(b, n),
    decreases n,
{
    if n > 0 {
        same_front_same_query(a, b, (n - 1) as nat);
        assert(a[n - 1] == b[n - 1]);
    }
}

proof fn credentials_are_plain(bytes: Seq<u8>)
    ensures
        ({
            let e = percent_encoded(UrlPart::Userinfo, bytes);
            &&& e.len() >= bytes.len()
            &&& forall|i: int|
                0 <= i < e.len() ==> #[trigger] e[i] != '@' && e[i] != ':' && !is_delimiter(e[i])
        }),
    decreases bytes.len(),
{
    if bytes.len() > 0 {
        let e = percent_encoded(UrlPart::Userinfo, bytes);
        let b = bytes.last();
        let earlier = percent_encoded(UrlPart::Userinfo, bytes.drop_last());
        credentials_are_plain(bytes.drop_last());
        assert forall|i: int| 0 <= i < e.len() implies #[trigger] e[i] != '@' && e[i] != ':'
            && !is_delimiter(e[i]) by {
            if i < earlier.len() {
                assert(e[i] == earlier[i]);
            } else if must_escape(UrlPart::Userinfo, b) {
                let piece = escaped(b);
                assert(e[i] == piece[i - earlier.len()]);
                assert(piece[0] == '%' && piece[1] == hex_char(b as int / 16) && piece[2]
                    == hex_char(b as int % 16));
            } else {
                assert(e[i] == b as char);
            }
        }
    }
}

proof fn labels_hold_no_space(bytes: Seq<u8>)
    ensures
        ({
            let e = percent_encoded(UrlPart::Fragment, bytes);
            &&& e.len() >= bytes.len()
            &&& forall|i: int| 0 <= i < e.len() ==> !is_space(#[trigger] e[i])
        }),
    decreases bytes.len(),
{
    if bytes.len() > 0 {
        let e = percent_encoded(UrlPart::Fragment, bytes);
        let b = bytes.last();
        let earlier = percent_encoded(UrlPart::Fragment, bytes.drop_last());
        labels_hold_no_space(bytes.drop_last());
        assert forall|i: int| 0 <= i < e.len() implies !is_space(#[trigger] e[i]) by {
            if i < earlier.len() {
                assert(e[i] == earlier[i]);
            } else if must_escape(UrlPart::Fragment, b) {
                let piece = escaped(b);
                assert(e[i] == piece[i - earlier.len()]);
                assert(piece[0] == '%' && piece[1] == hex_char(b as int / 16) && piece[2]
                    == hex_char(b as int % 16));
            } else {
                assert(e[i] == b as char);
            }
        }
    }
}

/// What a URL ends with: its query and its label.
spec fn url_tail(query: Seq<char>, label: Option<Seq<char>>) -> Seq<char> {
    (if query.len() > 0 {
        "/?"@ + query
    } else {
        Seq::empty()
    }) + match label {
        Some(name) => seq!['#'] + percent_encoded(UrlPart::Fragment, encode_utf8(name)),
        None => Seq::empty(),
    }
}

/// Whether a label is not empty, if there is one: an empty label is none.
pub open spec fn is_shown(label: Option<Seq<char>>) -> bool {
    label matches Some(name) ==> name.len() > 0
}

proof fn tails_are_read_back(query: Seq<char>, label: Option<Seq<char>>)
    requires
        forall|i: int| 0 <= i < query.len() ==> query_char(#[trigger] query[i]),
        is_shown(label),
    ensures
        query_of(url_tail(query, label)) == query,
        label_of(zone_fragment(url_tail(query, label))) == label,
        url_tail(query, label).len() > 0 ==> is_delimiter(url_tail(query, label)[0]),
{
    reveal_strlit("/?");
    let tail = url_tail(query, label);
    let none = Seq::<char>::empty();
    let q = if query.len() > 0 {
        "/?"@ + query
    } else {
        none
    };
    let fragment = match label {
        Some(name) => seq!['#'] + percent_encoded(UrlPart::Fragment, encode_utf8(name)),
        None => none,
    };
    assert(tail == q + fragment);
    assert(!q.contains('#')) by {
        assert forall|i: int| 0 <= i < q.len() implies q[i] != '#' by {
            if i >= 2 {
                assert(q[i] == query[i - 2]);
            }
        }
    }
    position_behind(q, fragment, '#');
    if fragment.len() > 0 {
        position_is(fragment, '#', 0);
    }
    assert(tail.take(q.len() as int) =~= q);
    if query.len() > 0 {
        position_is(q, '?', 1);
        assert(q.skip(2) =~= query);
    } else {
        assert(query =~= none);
        assert(position(q, '?') == 0);
    }
    if let Some(name) = label {
        let e = percent_encoded(UrlPart::Fragment, encode_utf8(name));
        assert(tail.skip(q.len() as int + 1) =~= e);
        labels_hold_no_space(encode_utf8(name));
        assert(encode_utf8(name).len() > 0) by {
            assert(encode_scalar(name[0] as u32).len() > 0);
        }
        assert(!is_space(e[0]) && !is_space(e[e.len() - 1]));
        assert(trimmed(e) == e);
        texts_survive_encoding(UrlPart::Fragment, name);
    }
}

/// What stands before the host of a URL.
spec fn credential(password: Seq<char>) -> Seq<char> {
    if password.len() > 0 {
        percent_encoded(UrlPart::Userinfo, encode_utf8(password)) + seq!['@']
    } else {
        Seq::empty()
    }
}

proof fn url_is_its_parts(c: ConfigView)
    ensures
        without_scheme(config_url(c)) == Some(
            credential(c.password) + url_authority(c.server) + url_tail(
                url_query(c),
                c.display_name,
            ),
        ),
{
    let rest = credential(c.password) + url_authority(c.server) + url_tail(
        url_query(c),
        c.display_name,
    );
    assert(config_url(c) =~= "anytls://"@ + rest);
    assert("anytls://"@.is_prefix_of(config_url(c)));
    assert(config_url(c).skip("anytls://"@.len() as int) =~= rest);
}

proof fn authority_is_cut_out(password: Seq<char>, a: Seq<char>, tail: Seq<char>)
    requires
        forall|i: int| 0 <= i < a.len() ==> !is_delimiter(#[trigger] a[i]),
        tail.len() > 0 ==> is_delimiter(tail[0]),
    ensures
        split_authority(credential(password) + a + tail) == (credential(password) + a, tail),
{
    let cred = credential(password);
    let front = cred + a;
    credentials_are_plain(encode_utf8(password));
    assert forall|i: int| 0 <= i < front.len() implies !is_delimiter(#[trigger] front[i]) by {
        if i >= cred.len() {
            assert(front[i] == a[i - cred.len()]);
        } else if i < cred.len() - 1 {
            assert(front[i] == percent_encoded(UrlPart::Userinfo, encode_utf8(password))[i]);
        }
    }
    delimiter_behind(front, tail);
    assert((front + tail).take(front.len() as int) =~= front);
    assert((front + tail).skip(front.len() as int) =~= tail);
}

proof fn credential_is_cut_off(password: Seq<char>, a: Seq<char>)
    requires
        !a.contains('@'),
    ensures
        behind_last(credential(password) + a, '@') == a,
        split_userinfo(credential(password) + a).1 == a,
        userinfo_password(split_userinfo(credential(password) + a).0) == password,
{
    let none = Seq::<char>::empty();
    let e = percent_encoded(UrlPart::Userinfo, encode_utf8(password));
    let front = credential(password) + a;
    credentials_are_plain(encode_utf8(password));
    texts_survive_encoding(UrlPart::Userinfo, password);
    position_behind(a, none, '@');
    assert(a + none =~= a);
    assert(behind_last(a, '@') == a);
    position_is(e, ':', e.len() as int);
    assert(e.take(e.len() as int) =~= e);
    if password.len() > 0 {
        let n = e.len() as int;
        assert(front[n] == '@');
        assert forall|j: int| 0 <= j < n implies front[j] != '@' by {
            assert(front[j] == e[j]);
        }
        position_is(front, '@', n);
        assert(front.skip(n + 1) =~= a);
        assert(behind_last(front, '@') == behind_last(front.skip(n + 1), '@'));
        assert(front.take(n) =~= e);
        assert(userinfo_password(e) == text_decoded(e.take(n)));
    } else {
        assert(password =~= none);
        assert(e =~= none);
        assert(front =~= a);
        assert(userinfo_password(none) == text_decoded(e));
    }
}

/// The authority of a server whose host is written as `host` between square brackets.
spec fn zone_authority(host: Seq<char>, port: u16) -> Seq<char> {
    if port == DEFAULT_PORT {
        bracketed(host)
    } else {
        host_and_port(bracketed(host), port)
    }
}

proof fn digit_is_no_mark(c: char)
    requires
        is_digit(c),
    ensures
        host_char(c),
        c != '%',
{
}

proof fn zone_authorities_are_plain(host: Seq<char>, port: u16)
    requires
        forall|i: int| 0 <= i < host.len() ==> host_char(#[trigger] host[i]),
    ensures
        ({
            let a = zone_authority(host, port);
            let end = host.len() as int + 1;
            &&& forall|i: int| 0 <= i < a.len() ==> !is_delimiter(#[trigger] a[i])
            &&& !a.contains('@')
            &&& end < a.len()
            &&& position(a, '[') == 0
            &&& position(a, ']') == end
            &&& a.subrange(1, end) == host
        }),
{
    let a = zone_authority(host, port);
    let end = host.len() as int + 1;
    let digits = decimal(port as nat);
    decimal_spells_its_number(port as nat);
    let shown = bracketed(host);
    assert(a.take(shown.len() as int) =~= shown);
    assert forall|i: int| 0 <= i < a.len() implies #[trigger] a[i] != '@' && !is_delimiter(a[i])
        by {
        if 1 <= i <= host.len() {
            assert(a[i] == host[i - 1]);
        } else if i > host.len() + 2 {
            assert(a[i] == digits[i - host.len() - 3]);
            digit_is_no_mark(a[i]);
        }
    }
    assert forall|i: int| 0 <= i < end implies a[i] != ']' by {
        if i > 0 {
            assert(a[i] == host[i - 1]);
        }
    }
    assert(a[0] == '[' && a[end] == ']');
    position_is(a, '[', 0);
    position_is(a, ']', end);
    assert(a.subrange(1, end) =~= host);
}

proof fn ports_are_read_back(host: Seq<char>, port: u16)
    ensures
        zone_port(zone_authority(host, port).skip(host.len() as int + 2)) == Some(port),
{
    let after = zone_authority(host, port).skip(host.len() as int + 2);
    if port == DEFAULT_PORT {
        assert(after =~= Seq::<char>::empty());
    } else {
        let digits = decimal(port as nat);
        decimal_round_trip(port as nat, 65535);
        assert(after =~= seq![':'] + digits);
        assert(after.skip(1) =~= digits);
    }
}

proof fn zone_hosts_are_read_back(name: Seq<char>, port: u16)
    requires
        name.contains('%'),
    ensures
        zone_server(zone_host(percent_escaped(name)), port) == AddressView::DomainAddress(
            name,
            port,
        ),
{
    escaped_hosts_hold_escapes(name);
    escaped_hosts_decode(name);
    encode_utf8_valid_utf8(name);
    encode_utf8_decode_utf8(name);
}

proof fn escaped_hosts_keep_colons(s: Seq<char>)
    requires
        s.contains(':'),
    ensures
        percent_escaped(s).contains(':'),
    decreases s.len(),
{
    let h = percent_escaped(s);
    let earlier = percent_escaped(s.drop_last());
    if s.last() == ':' {
        assert(h[earlier.len() as int] == ':');
    } else {
        let k = choose|k: int| 0 <= k < s.len() && s[k] == ':';
        assert(s.drop_last()[k] == ':');
        escaped_hosts_keep_colons(s.drop_last());
        let j = choose|j: int| 0 <= j < earlier.len() && earlier[j] == ':';
        assert(h[j] == ':');
    }
}

/// Whether `name` is an IPv6 address with a zone, as far as a URL can tell: it holds a colon and
/// a percent sign, and nothing that would end the host.
pub open spec fn is_zone_host(name: Seq<char>) -> bool {
    &&& name.contains(':')
    &&& name.contains('%')
    &&& forall|i: int|
        0 <= i < name.len() ==> #[trigger] name[i] != ']' && name[i] != '/' && name[i] != '?'
            && name[i] != '#' && name[i] != '@'
}

proof fn zones_are_seen(host: Seq<char>, port: u16)
    requires
        forall|i: int| 0 <= i < host.len() ==> host_char(#[trigger] host[i]),
        host.contains('%'),
    ensures
        ({
            let a = zone_authority(host, port);
            let len = position(a.skip(position(a, '[')), ']');
            &&& len < a.skip(position(a, '[')).len()
            &&& a.skip(position(a, '[')).take(len).contains('%')
        }),
{
    let a = zone_authority(host, port);
    let end = host.len() as int + 1;
    zone_authorities_are_plain(host, port);
    assert(a.skip(0) =~= a);
    let i = choose|i: int| 0 <= i < host.len() && host[i] == '%';
    assert(a.take(end)[i + 1] == a.subrange(1, end)[i]);
}

/// A configuration whose host has a zone is read back from its URL as it was, whatever its
/// password and its label.
pub proof fn zone_url_round_trip(c: ConfigView)
    requires
        c.server matches AddressView::DomainAddress(name, _) && is_zone_host(name),
        is_shown(c.display_name),
        reads_back(c.client_id),
    ensures
        has_zone(config_url(c)),
        !brackets_crossed(config_url(c)),
        url_config(config_url(c)) == Ok::<ConfigView, UrlErrorView>(c),
{
    let name = c.server->DomainAddress_0;
    let port = c.server->DomainAddress_1;
    let host = percent_escaped(name);
    let a = zone_authority(host, port);
    let tail = url_tail(url_query(c), c.display_name);
    url_is_its_parts(c);
    escaped_hosts_keep_colons(name);
    assert(url_authority(c.server) == a);
    assert(forall|i: int| 0 <= i < host.len() ==> host_char(#[trigger] host[i])) by {
        escaped_hosts_are_hosts(name);
    }
    assert(host.contains('%')) by {
        escaped_hosts_hold_escapes(name);
    }
    queries_are_read_back(c);
    tails_are_read_back(url_query(c), c.display_name);
    zone_authorities_are_plain(host, port);
    authority_is_cut_out(c.password, a, tail);
    credential_is_cut_off(c.password, a);
    zones_are_seen(host, port);
    assert(has_zone(config_url(c)));
    ports_are_read_back(host, port);
    zone_hosts_are_read_back(name, port);
}

/// The host of a parsed URL as text.
pub open spec fn shown_host(host: UrlHostView) -> Option<Seq<char>> {
    match host {
        UrlHostView::Domain(name) => Some(name),
        UrlHostView::Ipv4(ip) => Some(ipv4_text(ip)),
        UrlHostView::Ipv6(ip) => Some(ipv6_text(ip)),
        UrlHostView::Missing => None,
    }
}

/// Whether the parts of a URL stand for what its writer put in: the scheme, the host and the
/// port, the query as it is, and the password and the label in an encoded form.
pub open spec fn stands_for(parts: UrlPartsView, c: ConfigView) -> bool {
    &&& parts.scheme == "anytls"@
    &&& shown_host(parts.host) == Some(host_text(c.server))
    &&& parts.port == if port_of(c.server) == DEFAULT_PORT {
        None
    } else {
        Some(port_of(c.server))
    }
    &&& text_decoded(parts.username) == c.password
    &&& parts.username.len() == 0 ==> parts.password is None
    &&& match parts.query {
        Some(query) => query == url_query(c),
        None => url_query(c).len() == 0,
    }
    &&& match parts.fragment {
        Some(f) => c.display_name == Some(text_decoded(f)),
        None => c.display_name is None,
    }
}

/// Whether two configurations agree: they name the same host and port, and are otherwise the
/// same.
pub open spec fn agree(a: ConfigView, b: ConfigView) -> bool {
    &&& host_text(a.server) == host_text(b.server)
    &&& port_of(a.server) == port_of(b.server)
    &&& a == (ConfigView { server: a.server, ..b })
}

proof fn plain_hosts_stay(s: Seq<char>)
    requires
        !s.contains('%'),
    ensures
        percent_escaped(s) == s,
    decreases s.len(),
{
    if s.len() > 0 {
        let front = s.drop_last();
        if front.contains('%') {
            let i = choose|i: int| 0 <= i < front.len() && front[i] == '%';
            assert(s[i] == '%');
        }
        assert(s.contains(s.last()));
        plain_hosts_stay(front);
        assert(front + seq![s.last()] =~= s);
    } else {
        assert(percent_escaped(s) =~= s);
    }
}

/// Whether `name` is a host without a zone, and nothing in it would end the host.
pub open spec fn is_plain_host(name: Seq<char>) -> bool {
    forall|i: int|
        0 <= i < name.len() ==> #[trigger] name[i] != '%' && name[i] != '/' && name[i] != '?'
            && name[i] != '#' && name[i] != '@'
}

proof fn plain_authorities_are_plain(server: AddressView)
    requires
        is_plain_host(host_text(server)),
    ensures
        ({
            let a = url_authority(server);
            forall|i: int|
                0 <= i < a.len() ==> #[trigger] a[i] != '%' && a[i] != '@' && !is_delimiter(a[i])
        }),
{
    let host = host_text(server);
    let a = url_authority(server);
    let digits = decimal(port_of(server) as nat);
    decimal_spells_its_number(port_of(server) as nat);
    plain_hosts_stay(host);
    let shown = if server is Ipv6Address || host.contains(':') {
        bracketed(host)
    } else {
        host
    };
    assert forall|i: int| 0 <= i < shown.len() implies #[trigger] shown[i] != '%' && shown[i] != '@'
        && !is_delimiter(shown[i]) by {
        if shown.len() == host.len() {
            assert(shown[i] == host[i]);
        } else if 1 <= i <= host.len() {
            assert(shown[i] == host[i - 1]);
        }
    }
    assert forall|i: int| 0 <= i < a.len() implies #[trigger] a[i] != '%' && a[i] != '@'
        && !is_delimiter(a[i]) by {
        if i < shown.len() {
            assert(a[i] == shown[i]);
        } else if i > shown.len() {
            assert(a[i] == digits[i - shown.len() - 1]);
            digit_is_no_mark(a[i]);
        }
    }
}

proof fn no_zone_is_seen(c: ConfigView)
    requires
        is_plain_host(host_text(c.server)),
        is_shown(c.display_name),
        reads_back(c.client_id),
    ensures
        !has_zone(config_url(c)),
{
    let a = url_authority(c.server);
    let tail = url_tail(url_query(c), c.display_name);
    url_is_its_parts(c);
    queries_are_read_back(c);
    tails_are_read_back(url_query(c), c.display_name);
    plain_authorities_are_plain(c.server);
    authority_is_cut_out(c.password, a, tail);
    credential_is_cut_off(c.password, a);
    let start = position(a, '[');
    position_bounds(a, '[');
    let inner = a.skip(start);
    position_bounds(inner, ']');
    let shown = inner.take(position(inner, ']'));
    if shown.contains('%') {
        let i = choose|i: int| 0 <= i < shown.len() && shown[i] == '%';
        assert(a[start + i] == '%');
    }
}

/// A configuration whose host has no zone is read back from its URL as it was, whatever its
/// password and its label, if `Url::parse` takes the URL apart into what was put into it. A host
/// that is given by the text of an IP address is read as that IP address.
pub proof fn plain_url_round_trip(c: ConfigView, parts: UrlPartsView)
    requires
        is_plain_host(host_text(c.server)),
        is_shown(c.display_name),
        reads_back(c.client_id),
        parsed_url(config_url(c)) == Ok::<UrlPartsView, url::ParseError>(parts),
        stands_for(parts, c),
    ensures
        url_config(config_url(c)) matches Ok(read) && agree(read, c),
{
    no_zone_is_seen(c);
    queries_are_read_back(c);
    let none = Seq::<char>::empty();
    if parts.username.len() == 0 {
        assert(parts.username =~= none);
    }
    if parts.query is None {
        assert(url_query(c) =~= none);
    }
}

/// Whether the host of `server` can stand in a URL without a zone: it is a name of plain
/// characters, or the text of an IPv6 address.
pub open spec fn is_known_host(server: AddressView) -> bool {
    match server {
        AddressView::Ipv6Address(ip, _) => ip.len() == 16 && is_plain_host(ipv6_text(ip)),
        _ => {
            let host = host_text(server);
            ||| host.len() > 0 && all_plain(host, host_marks())
            ||| is_plain_host(host) && host.contains(':') && exists|ip: Seq<u8>|
                ip.len() == 16 && #[trigger] ipv6_text(ip) == host
        },
    }
}

/// Whether a configuration is read back from its URL: the host can stand in a URL, the label is
/// not empty if there is one, the client id is read from its text, and the URL is not so long
/// that its length could not be counted in thirty-two bits.
pub open spec fn survives(c: ConfigView) -> bool {
    &&& is_shown(c.display_name)
    &&& reads_back(c.client_id)
    &&& {
        ||| c.server matches AddressView::DomainAddress(name, _) && is_zone_host(name)
        ||| is_known_host(c.server) && 3 * config_url(c).len() < u32::MAX
    }
}

/// What the URL of a configuration without a zone is put together from.
pub open spec fn written_parts(c: ConfigView) -> UrlPartsView {
    let host = host_text(c.server);
    UrlPartsView {
        scheme: "anytls"@,
        host: if c.server is Ipv6Address || host.contains(':') {
            UrlHostView::Ipv6(
                choose|ip: Seq<u8>| ip.len() == 16 && #[trigger] ipv6_text(ip) == host,
            )
        } else {
            UrlHostView::Domain(host)
        },
        port: if port_of(c.server) == DEFAULT_PORT {
            None
        } else {
            Some(port_of(c.server))
        },
        username: percent_encoded(UrlPart::Userinfo, encode_utf8(c.password)),
        password: None,
        query: if url_query(c).len() > 0 {
            Some(url_query(c))
        } else {
            None
        },
        fragment: match c.display_name {
            Some(name) => Some(percent_encoded(UrlPart::Fragment, encode_utf8(name))),
            None => None,
        },
    }
}

pub(crate) proof fn zones_are_read_back(c: ConfigView)
    requires
        survives(c),
        has_zone(config_url(c)),
    ensures
        url_config(config_url(c)) matches Ok(read) && agree(read, c),
{
    if c.server is DomainAddress && is_zone_host(c.server->DomainAddress_0) {
        zone_url_round_trip(c);
    } else {
        known_hosts_are_plain(c.server);
        no_zone_is_seen(c);
    }
}

proof fn known_hosts_are_plain(server: AddressView)
    requires
        is_known_host(server),
    ensures
        is_plain_host(host_text(server)),
{
    let host = host_text(server);
    let marks = host_marks();
    assert(marks[0] == '#' && marks[1] == '%' && marks[2] == '/' && marks[6] == '?' && marks[7]
        == '@');
    if host.len() > 0 && all_plain(host, marks) {
        assert forall|i: int| 0 <= i < host.len() implies #[trigger] host[i] != '%' && host[i]
            != '/' && host[i] != '?' && host[i] != '#' && host[i] != '@' by {
            assert(is_plain(host[i], marks));
        }
    }
}

proof fn labels_are_plain(bytes: Seq<u8>)
    ensures
        all_plain(percent_encoded(UrlPart::Fragment, bytes), fragment_marks()),
    decreases bytes.len(),
{
    if bytes.len() > 0 {
        let e = percent_encoded(UrlPart::Fragment, bytes);
        let b = bytes.last();
        let earlier = percent_encoded(UrlPart::Fragment, bytes.drop_last());
        labels_are_plain(bytes.drop_last());
        assert forall|i: int| 0 <= i < e.len() implies is_plain(
            #[trigger] e[i],
            fragment_marks(),
        ) by {
            if i < earlier.len() {
                assert(e[i] == earlier[i]);
            } else if must_escape(UrlPart::Fragment, b) {
                let piece = escaped(b);
                assert(e[i] == piece[i - earlier.len()]);
                assert(piece[0] == '%' && piece[1] == hex_char(b as int / 16) && piece[2]
                    == hex_char(b as int % 16));
            } else {
                assert(e[i] == b as char);
            }
        }
    }
}

proof fn passwords_are_plain(bytes: Seq<u8>)
    ensures
        all_plain(percent_encoded(UrlPart::Userinfo, bytes), userinfo_marks()),
    decreases bytes.len(),
{
    if bytes.len() > 0 {
        let e = percent_encoded(UrlPart::Userinfo, bytes);
        let b = bytes.last();
        let earlier = percent_encoded(UrlPart::Userinfo, bytes.drop_last());
        passwords_are_plain(bytes.drop_last());
        assert forall|i: int| 0 <= i < e.len() implies is_plain(
            #[trigger] e[i],
            userinfo_marks(),
        ) by {
            if i < earlier.len() {
                assert(e[i] == earlier[i]);
            } else if must_escape(UrlPart::Userinfo, b) {
                let piece = escaped(b);
                assert(e[i] == piece[i - earlier.len()]);
                assert(piece[0] == '%' && piece[1] == hex_char(b as int / 16) && piece[2]
                    == hex_char(b as int % 16));
            } else {
                assert(e[i] == b as char);
            }
        }
    }
}

#[verifier::rlimit(40)]
#[verifier::spinoff_prover]
pub(crate) proof fn plain_urls_are_written_from_parts(c: ConfigView)
    requires
        survives(c),
        !has_zone(config_url(c)),
    ensures
        is_plain_host(host_text(c.server)),
        is_plain_url(written_parts(c)),
        config_url(c) == written_url(written_parts(c)),
        forall|parts: UrlPartsView|
            text_decoded(parts.username) == text_decoded(written_parts(c).username) && parts == (
            UrlPartsView { username: parts.username, ..written_parts(c) }) ==> #[trigger] stands_for(
                parts,
                c,
            ),
{
    let u = written_parts(c);
    let host = host_text(c.server);
    if c.server is DomainAddress && is_zone_host(c.server->DomainAddress_0) {
        zone_url_round_trip(c);
    }
    known_hosts_are_plain(c.server);
    plain_hosts_stay(host);
    if !(c.server is Ipv6Address) && all_plain(host, host_marks()) {
        assert(!host.contains(':')) by {
            assert(host_marks()[3] == ':');
            if host.contains(':') {
                let i = choose|i: int| 0 <= i < host.len() && host[i] == ':';
                assert(is_plain(host[i], host_marks()));
            }
        }
    }
    if let AddressView::Ipv6Address(ip, _) = c.server {
        assert(ipv6_text(ip) == host);
    }
    queries_are_read_back(c);
    passwords_are_plain(encode_utf8(c.password));
    texts_survive_encoding(UrlPart::Userinfo, c.password);
    credentials_are_plain(encode_utf8(c.password));
    if c.password.len() > 0 {
        assert(encode_utf8(c.password).len() > 0) by {
            assert(encode_scalar(c.password[0] as u32).len() > 0);
        }
    } else {
        assert(c.password =~= Seq::<char>::empty());
        assert(u.username =~= Seq::<char>::empty());
    }
    if let Some(name) = c.display_name {
        labels_are_plain(encode_utf8(name));
        texts_survive_encoding(UrlPart::Fragment, name);
    }
    assert(config_url(c) =~= written_url(u));
}

/// The URL that is written for a configuration can be read: its brackets are not crossed.
pub proof fn written_urls_can_be_read(c: ConfigView)
    requires
        survives(c),
    ensures
        has_zone(config_url(c)) ==> !brackets_crossed(config_url(c)),
{
    if c.server is DomainAddress && is_zone_host(c.server->DomainAddress_0) {
        zone_url_round_trip(c);
    } else {
        known_hosts_are_plain(c.server);
        no_zone_is_seen(c);
    }
}

/// A zone URL, piece by piece: the credentials, of which the second may be missing, the host
/// between square brackets, the port, the query and the fragment, each of which may be missing.
pub struct ZoneUrl {
    pub credentials: Option<(Seq<char>, Option<Seq<char>>)>,
    pub host: Seq<char>,
    pub port: Option<Seq<char>>,
    pub slash: bool,
    pub query: Option<Seq<char>>,
    pub fragment: Option<Seq<char>>,
}

/// The first piece of `z`, up to the `@`.
pub open spec fn credentials_text(z: ZoneUrl) -> Seq<char> {
    match z.credentials {
        None => Seq::empty(),
        Some((first, None)) => first + seq!['@'],
        Some((first, Some(second))) => first + seq![':'] + second + seq!['@'],
    }
}

/// The host and the port of `z`.
pub open spec fn host_piece_text(z: ZoneUrl) -> Seq<char> {
    seq!['['] + z.host + seq![']'] + match z.port {
        Some(port) => seq![':'] + port,
        None => Seq::empty(),
    }
}

/// What stands behind the host and the port of `z`.
pub open spec fn tail_text(z: ZoneUrl) -> Seq<char> {
    (if z.slash {
        seq!['/']
    } else {
        Seq::empty()
    }) + (match z.query {
        Some(query) => seq!['?'] + query,
        None => Seq::empty(),
    }) + (match z.fragment {
        Some(f) => seq!['#'] + f,
        None => Seq::empty(),
    })
}

/// The whole URL.
pub open spec fn zone_url_text(z: ZoneUrl) -> Seq<char> {
    "anytls://"@ + (credentials_text(z) + host_piece_text(z) + tail_text(z))
}

/// Whether `s` has no character that ends the credentials.
pub open spec fn is_credential(s: Seq<char>) -> bool {
    !s.contains('@') && !s.contains('/') && !s.contains('?') && !s.contains('#')
}

/// Whether no piece of `z` holds what would end it.
pub open spec fn is_sound(z: ZoneUrl) -> bool {
    &&& z.credentials matches Some((first, second)) ==> is_credential(first) && !first.contains(':')
        && (second matches Some(second) ==> is_credential(second))
    &&& is_credential(z.host) && !z.host.contains('[') && !z.host.contains(']')
    &&& z.host.contains('%')
    &&& z.port matches Some(port) ==> is_credential(port)
    &&& z.query matches Some(query) ==> !query.contains('#')
}

proof fn zone_tails_are_taken_apart(z: ZoneUrl)
    requires
        is_sound(z),
    ensures
        ({
            let tail = tail_text(z);
            &&& tail.len() > 0 ==> is_delimiter(tail[0])
            &&& query_of(tail) == if z.query is Some {
                z.query->0
            } else {
                Seq::empty()
            }
            &&& zone_fragment(tail) == if z.fragment is Some {
                Some(trimmed(z.fragment->0))
            } else {
                None
            }
        }),
{
    let none = Seq::<char>::empty();
    let tail = tail_text(z);
    let slash = if z.slash {
        seq!['/']
    } else {
        none
    };
    let q = match z.query {
        Some(query) => seq!['?'] + query,
        None => none,
    };
    let f = match z.fragment {
        Some(f) => seq!['#'] + f,
        None => none,
    };
    let front = slash + q;
    assert(tail == front + f);
    assert(!front.contains('#')) by {
        assert forall|i: int| 0 <= i < front.len() implies front[i] != '#' by {
            if z.query is Some && i > slash.len() {
                let query = z.query->0;
                assert(front[i] == query[i - slash.len() - 1]);
                assert(query.contains(query[i - slash.len() - 1]));
            }
        }
    }
    position_behind(front, f, '#');
    if z.fragment is Some {
        position_is(f, '#', 0);
        assert(tail.skip(front.len() as int + 1) =~= z.fragment->0);
    }
    assert(tail.take(front.len() as int) =~= front);
    if z.query is Some {
        position_is(front, '?', slash.len() as int);
        assert(front.skip(slash.len() as int + 1) =~= z.query->0);
    } else {
        position_is(front, '?', front.len() as int);
    }
}

proof fn zone_hosts_are_cut_out(z: ZoneUrl)
    requires
        is_sound(z),
    ensures
        ({
            let a = host_piece_text(z);
            let end = z.host.len() as int + 1;
            &&& forall|i: int| 0 <= i < a.len() ==> #[trigger] a[i] != '@' && !is_delimiter(a[i])
            &&& end < a.len()
            &&& position(a, '[') == 0
            &&& position(a, ']') == end
            &&& a.subrange(1, end) == z.host
            &&& a.skip(0).take(end).contains('%')
            &&& zone_port(a.skip(end + 1)) == match z.port {
                Some(port) => match unsigned_value(port, 65535) {
                    Some(n) => Some(n as u16),
                    None => None,
                },
                None => Some(443),
            }
        }),
{
    let a = host_piece_text(z);
    let host = z.host;
    let end = host.len() as int + 1;
    if let Some(port) = z.port {
        assert(a.skip(end + 1) =~= seq![':'] + port);
        assert(a.skip(end + 1).skip(1) =~= port);
    } else {
        assert(a.skip(end + 1) =~= Seq::<char>::empty());
    }
    assert forall|i: int| 0 <= i < a.len() implies #[trigger] a[i] != '@' && !is_delimiter(a[i])
        by {
        if 1 <= i <= host.len() {
            assert(a[i] == host[i - 1]);
            assert(host.contains(host[i - 1]));
        } else if i > host.len() + 2 {
            let port = z.port->0;
            assert(a[i] == port[i - host.len() - 3]);
            assert(port.contains(port[i - host.len() - 3]));
        }
    }
    assert forall|i: int| 0 <= i < end implies a[i] != ']' by {
        if i > 0 {
            assert(a[i] == host[i - 1]);
            assert(host.contains(host[i - 1]));
        }
    }
    assert(a[0] == '[' && a[end] == ']');
    position_is(a, '[', 0);
    position_is(a, ']', end);
    assert(a.subrange(1, end) =~= host);
    let i = choose|i: int| 0 <= i < host.len() && host[i] == '%';
    assert(a.skip(0).take(end)[i + 1] == host[i]);
}

proof fn zone_credentials_are_cut_off(z: ZoneUrl, a: Seq<char>)
    requires
        is_sound(z),
        forall|i: int| 0 <= i < a.len() ==> #[trigger] a[i] != '@',
    ensures
        ({
            let authority = credentials_text(z) + a;
            &&& forall|i: int|
                0 <= i < credentials_text(z).len() ==> !is_delimiter(
                    #[trigger] credentials_text(z)[i],
                )
            &&& behind_last(authority, '@') == a
            &&& split_userinfo(authority).1 == a
            &&& userinfo_password(split_userinfo(authority).0) == text_decoded(
                match z.credentials {
                    None => Seq::empty(),
                    Some((first, second)) => if first.len() == 0 && second is Some {
                        second->0
                    } else {
                        first
                    },
                },
            )
        }),
{
    let none = Seq::<char>::empty();
    let authority = credentials_text(z) + a;
    assert(!a.contains('@'));
    position_behind(a, none, '@');
    assert(a + none =~= a);
    match z.credentials {
        None => {
            assert(authority =~= a);
            position_is(none, ':', 0);
            assert(none.take(0) =~= none);
        },
        Some((first, second)) => {
            let u = match second {
                None => first,
                Some(second) => first + seq![':'] + second,
            };
            let n = u.len() as int;
            assert(credentials_text(z) =~= u + seq!['@']);
            assert forall|i: int| 0 <= i < n implies #[trigger] u[i] != '@' && !is_delimiter(u[i])
                by {
                if i < first.len() {
                    assert(first.contains(first[i]));
                } else if i > first.len() {
                    assert(second->0.contains(second->0[i - first.len() - 1]));
                }
            }
            assert forall|j: int| 0 <= j < n implies authority[j] != '@' by {
                assert(authority[j] == u[j]);
            }
            position_is(authority, '@', n);
            assert(authority.take(n) =~= u);
            assert(authority.skip(n + 1) =~= a);
            assert(behind_last(authority, '@') == behind_last(authority.skip(n + 1), '@'));
            assert forall|j: int| 0 <= j < first.len() implies u[j] != ':' by {
                assert(first.contains(first[j]));
            }
            position_is(u, ':', first.len() as int);
            assert(u.take(first.len() as int) =~= first);
            if first.len() == 0 && second is Some {
                assert(u.skip(1) =~= second->0);
            }
        },
    }
}

/// A URL whose host has a zone is read piece by piece: the server has the host, decoded if it
/// holds an encoded percent sign, and the port, or port 443 if there is none; the password is
/// the first credential, or the second if the first is empty, decoded; the query says what its
/// pairs say, and the fragment is the label. A port that is no number up to 65535 is an error.
pub proof fn zone_urls_are_read_piece_by_piece(z: ZoneUrl)
    requires
        is_sound(z),
    ensures
        ({
            let port = match z.port {
                Some(port) => match unsigned_value(port, 65535) {
                    Some(n) => Some(n as u16),
                    None => None,
                },
                None => Some(443),
            };
            let credential = match z.credentials {
                None => Seq::empty(),
                Some((first, second)) => if first.len() == 0 && second is Some {
                    second->0
                } else {
                    first
                },
            };
            let query = if z.query is Some {
                z.query->0
            } else {
                Seq::empty()
            };
            let url = zone_url_text(z);
            &&& has_zone(url)
            &&& !brackets_crossed(url)
            &&& url_config(url) == match port {
                None => Err(UrlErrorView::InvalidPort),
                Some(port) => config_of(
                    if has_part(z.host, "%25"@) {
                        zone_server(text_decoded(z.host), port)
                    } else {
                        AddressView::DomainAddress(z.host, port)
                    },
                    text_decoded(credential),
                    form_pairs(encode_utf8(query)),
                    if z.fragment is Some {
                        Some(trimmed(z.fragment->0))
                    } else {
                        None
                    },
                ),
            }
        }),
{
    let a = host_piece_text(z);
    let tail = tail_text(z);
    let cred = credentials_text(z);
    let url = zone_url_text(z);
    let front = cred + a;
    zone_tails_are_taken_apart(z);
    zone_hosts_are_cut_out(z);
    zone_credentials_are_cut_off(z, a);
    assert("anytls://"@.is_prefix_of(url));
    assert(url.skip("anytls://"@.len() as int) =~= front + tail);
    assert forall|i: int| 0 <= i < front.len() implies !is_delimiter(#[trigger] front[i]) by {
        if i < cred.len() {
            assert(front[i] == cred[i]);
        } else {
            assert(front[i] == a[i - cred.len()]);
        }
    }
    delimiter_behind(front, tail);
    assert((front + tail).take(front.len() as int) =~= front);
    assert((front + tail).skip(front.len() as int) =~= tail);
    assert(a.skip(0) =~= a);
}

} // verus!
