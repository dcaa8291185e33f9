//! The URLs that are written for configurations, piece by piece: what comes first, what is left
//! out, and what is escaped.
use crate::address::{host_text, AddressView};
use crate::identity::uuid_text;
use crate::parse_url::{
    behind_last, brackets_crossed, config_url, delimiter_position, has_part, has_zone,
    parsed_socket, parsed_url, parts_config, percent_escaped, url_config, url_query,
    without_scheme, zone_server, ConfigView, UrlErrorView,
};
use crate::percent::{form_pairs, pair_appended, percent_encoded, query_round_trip, UrlPart};
use crate::text::{decimal, position, position_bounds, position_is};
use vstd::prelude::*;
use vstd::utf8::encode_utf8;

verus! {

/// The digit for `n`: a number, or a capital letter from ten on.
pub open spec fn capital_digit(n: int) -> char {
    seq!['0', '1', '2', '3', '4', '5', '6', '7', '8', '9', 'A', 'B', 'C', 'D', 'E', 'F'][n]
}

/// Whether `c` cannot stand for itself in a label.
pub open spec fn is_not_for_labels(c: char) -> bool {
    c < ' ' || c > '~' || c == ' ' || c == '"' || c == '%' || c == '<' || c == '>' || c == '`'
}

/// Whether `c` cannot stand for itself in a credential.
pub open spec fn is_not_for_credentials(c: char) -> bool {
    is_not_for_labels(c) || c == '#' || c == '/' || c == ':' || c == '?' || c == '@' || c == '['
        || c == '\\' || c == ']' || c == '^' || c == '{' || c == '|' || c == '}'
}

/// A byte that cannot stand for itself in a part of a URL is written as a percent sign and its
/// two hexadecimal digits, and every other as it is. What stands before a byte or behind it does
/// not matter.
pub proof fn bytes_are_escaped_one_by_one(part: UrlPart, before: Seq<u8>, b: u8)
    ensures
        ({
            let bad = if part is Userinfo {
                is_not_for_credentials(b as char)
            } else {
                is_not_for_labels(b as char)
            };
            let shown = if bad {
                seq!['%', capital_digit(b as int / 16), capital_digit(b as int % 16)]
            } else {
                seq![b as char]
            };
            percent_encoded(part, before.push(b)) == percent_encoded(part, before) + shown
        }),
        percent_encoded(part, Seq::empty()).len() == 0,
{
    assert(before.push(b).drop_last() =~= before);
    let (high, low) = (b as int / 16, b as int % 16);
    assert(0 <= high < 16 && 0 <= low < 16);
    assert(capital_digit(high) == crate::percent::hex_char(high));
    assert(capital_digit(low) == crate::percent::hex_char(low));
}

/// The percent sign of a host is escaped, and nothing else of it is.
pub proof fn percent_signs_of_hosts_are_escaped(before: Seq<char>, c: char)
    ensures
        percent_escaped(before.push('%')) == percent_escaped(before) + seq!['%', '2', '5'],
        c != '%' ==> percent_escaped(before.push(c)) == percent_escaped(before).push(c),
        percent_escaped(Seq::empty()).len() == 0,
{
    reveal_strlit("%25");
    assert(before.push('%').drop_last() =~= before);
    assert(before.push(c).drop_last() =~= before);
    assert("%25"@ =~= seq!['%', '2', '5']);
    assert(percent_escaped(before) + seq![c] =~= percent_escaped(before).push(c));
}

/// The label of a configuration comes last in its URL, behind a hash sign, and changes nothing
/// before it.
pub proof fn labels_come_last(c: ConfigView, name: Seq<char>)
    requires
        c.display_name is None,
    ensures
        config_url(ConfigView { display_name: Some(name), ..c }) == config_url(c) + seq!['#']
            + percent_encoded(UrlPart::Fragment, encode_utf8(name)),
{
    let labelled = ConfigView { display_name: Some(name), ..c };
    assert(url_query(labelled) == url_query(c));
    assert(config_url(labelled) =~= config_url(c) + seq!['#'] + percent_encoded(
        UrlPart::Fragment,
        encode_utf8(name),
    ));
}

/// The password of a configuration comes first in its URL, before an `@`, and changes nothing
/// behind it.
pub proof fn passwords_come_first(c: ConfigView, password: Seq<char>)
    requires
        c.password.len() == 0,
        password.len() > 0,
    ensures
        "anytls://"@.is_prefix_of(config_url(c)),
        config_url(ConfigView { password, ..c }) == "anytls://"@ + percent_encoded(
            UrlPart::Userinfo,
            encode_utf8(password),
        ) + seq!['@'] + config_url(c).skip(9),
{
    reveal_strlit("anytls://");
    let with = ConfigView { password, ..c };
    assert(url_query(with) == url_query(c));
    assert(config_url(c).subrange(0, 9) =~= "anytls://"@);
    assert(config_url(with) =~= "anytls://"@ + percent_encoded(
        UrlPart::Userinfo,
        encode_utf8(password),
    ) + seq!['@'] + config_url(c).skip(9));
}

/// The query of a configuration comes behind the server, a slash and a question mark, if it says
/// anything.
pub proof fn queries_come_behind_the_server(c: ConfigView)
    requires
        c.display_name is None,
    ensures
        ({
            let plain = ConfigView { sni: None, insecure: false, client_id: None, ..c };
            let says_something = c.sni is Some || c.insecure || c.client_id is Some;
            config_url(c) == if says_something {
                config_url(plain) + "/?"@ + url_query(c)
            } else {
                config_url(plain)
            }
        }),
{
    let plain = ConfigView { sni: None, insecure: false, client_id: None, ..c };
    assert(url_query(plain).len() == 0);
    if c.sni is Some || c.insecure || c.client_id is Some {
        assert(url_query(c).len() > 0);
        assert(config_url(c) =~= config_url(plain) + "/?"@ + url_query(c));
    } else {
        assert(config_url(c) =~= config_url(plain));
    }
}

/// The query of a configuration says what the configuration has and nothing else: the server
/// name, that certificates are not checked, and the client id, in this order.
pub proof fn queries_say_what_is_set(c: ConfigView)
    ensures
        ({
            let nothing = Seq::<(Seq<char>, Seq<char>)>::empty();
            let sni = match c.sni {
                Some(name) => seq![("sni"@, name)],
                None => nothing,
            };
            let insecure = if c.insecure {
                seq![("insecure"@, "1"@)]
            } else {
                nothing
            };
            let id = match c.client_id {
                Some(id) => seq![("client_id"@, uuid_text(id))],
                None => nothing,
            };
            form_pairs(encode_utf8(url_query(c))) == sni + insecure + id
        }),
{
    let none = Seq::<char>::empty();
    let nothing = Seq::<(Seq<char>, Seq<char>)>::empty();
    assert(form_pairs(encode_utf8(none)) =~= nothing);
    let (first, first_pairs) = match c.sni {
        Some(name) => {
            query_round_trip(none, "sni"@, name);
            (pair_appended(none, "sni"@, name), seq![("sni"@, name)])
        },
        None => (none, nothing),
    };
    assert(form_pairs(encode_utf8(first)) =~= first_pairs);
    let (second, second_pairs) = if c.insecure {
        query_round_trip(first, "insecure"@, "1"@);
        (pair_appended(first, "insecure"@, "1"@), first_pairs + seq![("insecure"@, "1"@)])
    } else {
        (first, first_pairs + nothing)
    };
    assert(form_pairs(encode_utf8(second)) =~= second_pairs);
    match c.client_id {
        Some(id) => {
            query_round_trip(second, "client_id"@, uuid_text(id));
            assert(form_pairs(encode_utf8(url_query(c))) =~= second_pairs + seq![
                ("client_id"@, uuid_text(id)),
            ]);
        },
        None => {
            assert(form_pairs(encode_utf8(url_query(c))) =~= second_pairs + nothing);
        },
    }
}

/// The URL of a configuration that has nothing but a server is the scheme and the host, and the
/// port unless it is 443. An IPv6 address stands in square brackets, and so does a name with a
/// colon in it.
pub proof fn servers_are_shown(c: ConfigView, port: u16)
    requires
        c.password.len() == 0,
        c.sni is None,
        !c.insecure,
        c.client_id is None,
        c.display_name is None,
        port == match c.server {
            AddressView::Ipv4Address(_, p) => p,
            AddressView::Ipv6Address(_, p) => p,
            AddressView::DomainAddress(_, p) => p,
        },
    ensures
        ({
            let host = percent_escaped(host_text(c.server));
            let shown = if c.server is Ipv6Address || host.contains(':') {
                seq!['['] + host + seq![']']
            } else {
                host
            };
            config_url(c) == if port == 443 {
                "anytls://"@ + shown
            } else {
                "anytls://"@ + shown + seq![':'] + decimal(port as nat)
            }
        }),
{
    let host = percent_escaped(host_text(c.server));
    let shown = if c.server is Ipv6Address || host.contains(':') {
        seq!['['] + host + seq![']']
    } else {
        host
    };
    assert(url_query(c).len() == 0);
    if port == 443 {
        assert(config_url(c) =~= "anytls://"@ + shown);
    } else {
        assert(config_url(c) =~= "anytls://"@ + shown + seq![':'] + decimal(port as nat));
    }
}

proof fn delimiters_stand_inside(s: Seq<char>)
    ensures
        0 <= delimiter_position(s) <= s.len(),
    decreases s.len(),
{
    if s.len() > 0 {
        delimiters_stand_inside(s.skip(1));
    }
}

proof fn what_is_behind_is_part(s: Seq<char>, mark: char, c: char)
    requires
        behind_last(s, mark).contains(c),
    ensures
        s.contains(c),
    decreases s.len(),
{
    let i = position(s, mark);
    position_bounds(s, mark);
    if i < s.len() {
        let rest = s.skip(i + 1);
        what_is_behind_is_part(rest, mark, c);
        let k = choose|k: int| 0 <= k < rest.len() && rest[k] == c;
        assert(s[k + i + 1] == c);
    }
}

/// A URL without a percent sign, or without square brackets around it, has no zone. It is what
/// `Url::parse` makes of it: its parts, or the error.
pub proof fn urls_without_a_zone_are_parsed(url: Seq<char>)
    requires
        !url.contains('%') || !url.contains('[') || !url.contains(']'),
    ensures
        !has_zone(url),
        url_config(url) == match parsed_url(url) {
            Ok(parts) => parts_config(parts),
            Err(e) => Err(UrlErrorView::Malformed(e)),
        },
{
    reveal_strlit("anytls://");
    if has_zone(url) {
        let rest = match without_scheme(url) {
            Some(rest) => rest,
            None => url,
        };
        delimiters_stand_inside(rest);
        let authority = rest.take(delimiter_position(rest));
        let host = behind_last(authority, '@');
        let start = position(host, '[');
        position_bounds(host, '[');
        let inner = host.skip(start);
        position_bounds(inner, ']');
        let len = position(inner, ']');
        assert(host[start] == '[');
        assert(host[start + len] == inner[len]);
        let shown = inner.take(len);
        let k = choose|k: int| 0 <= k < shown.len() && shown[k] == '%';
        assert(host[start + k] == '%');
        assert forall|c: char| host.contains(c) implies url.contains(c) by {
            what_is_behind_is_part(authority, '@', c);
            let i = choose|i: int| 0 <= i < authority.len() && authority[i] == c;
            assert(rest[i] == c);
            if without_scheme(url) is Some {
                assert(url[i + 9] == c);
            } else {
                assert(url[i] == c);
            }
        }
        assert(host.contains('[') && host.contains(']') && host.contains('%'));
    }
}

/// The server of a host between square brackets: a host with a zone goes by its name, and one
/// without goes by its IPv6 address if it is one, and by its name if it is not. An IPv6 address
/// is nineteen bytes: its type, the address and the port.
pub proof fn hosts_with_a_zone_go_by_name(host: Seq<char>, port: u16)
    ensures
        ({
            let shown = seq!['['] + host + seq![']', ':'] + decimal(port as nat);
            let server = zone_server(host, port);
            &&& host.contains('%') || parsed_socket(shown) is None ==> server
                == AddressView::DomainAddress(host, port)
            &&& parsed_socket(shown) matches Some(v) ==> !host.contains('%') && v.len() == 19
                ==> server == AddressView::Ipv6Address(
                v.subrange(1, 17),
                (v[17] * 256 + v[18]) as u16,
            )
        }),
{
    let shown = seq!['['] + host + seq![']', ':'] + decimal(port as nat);
    assert(shown =~= seq!['['] + host + seq![']'] + seq![':'] + decimal(port as nat));
    if let Some(v) = parsed_socket(shown) {
        if v.len() == 19 {
            assert(v.skip(17)[0] == v[17] && v.skip(17)[1] == v[18]);
        }
    }
}

/// A URL whose host has a zone is refused if it has another scheme.
pub proof fn zones_need_the_scheme(url: Seq<char>)
    requires
        has_zone(url),
        !"anytls://"@.is_prefix_of(url),
    ensures
        url_config(url) == Err::<ConfigView, UrlErrorView>(UrlErrorView::Scheme),
{
}

/// A text occurs in another if that one is the text with something before it and something behind
/// it.
pub proof fn parts_stand_between(before: Seq<char>, part: Seq<char>, behind: Seq<char>, s: Seq<char>)
    ensures
        has_part(before + part + behind, part),
        has_part(s, part) ==> exists|i: int|
            0 <= i <= s.len() - part.len() && s == #[trigger] s.take(i) + part + s.skip(
                i + part.len(),
            ),
{
    let whole = before + part + behind;
    let tail = whole.skip(before.len() as int);
    assert(tail.subrange(0, part.len() as int) =~= part);
    assert(part.is_prefix_of(tail));
    if has_part(s, part) {
        let i = choose|i: int| 0 <= i <= s.len() && #[trigger] part.is_prefix_of(s.skip(i));
        let rest = s.skip(i);
        assert(rest.subrange(0, part.len() as int) =~= part);
        assert(s =~= s.take(i) + part + s.skip(i + part.len()));
    }
}

/// Whether `s` has no character that divides the front of a URL.
pub open spec fn divides_nothing(s: Seq<char>) -> bool {
    forall|i: int|
        0 <= i < s.len() ==> (#[trigger] s[i]) != '/' && s[i] != '?' && s[i] != '#' && s[i] != '@'
            && s[i] != '[' && s[i] != ']'
}

proof fn authorities_end_nowhere(s: Seq<char>)
    requires
        forall|i: int| 0 <= i < s.len() ==> (#[trigger] s[i]) != '/' && s[i] != '?' && s[i] != '#',
    ensures
        delimiter_position(s) == s.len(),
    decreases s.len(),
{
    if s.len() > 0 {
        let rest = s.skip(1);
        assert forall|i: int| 0 <= i < rest.len() implies (#[trigger] rest[i]) != '/' && rest[i]
            != '?' && rest[i] != '#' by {
            assert(rest[i] == s[i + 1]);
        }
        authorities_end_nowhere(rest);
        assert(s[0] != '/' && s[0] != '?' && s[0] != '#');
    }
}

/// The brackets of a URL are crossed if the host would have to start behind a closing bracket,
/// and they are not if they come in order.
pub proof fn brackets_are_crossed_or_not(first: Seq<char>, second: Seq<char>, third: Seq<char>)
    requires
        divides_nothing(first),
        divides_nothing(second),
        divides_nothing(third),
    ensures
        brackets_crossed("anytls://"@ + (first + seq![']'] + second + seq!['['] + third)),
        !brackets_crossed("anytls://"@ + (first + seq!['['] + second + seq![']'] + third)),
{
    reveal_strlit("anytls://");
    let scheme = "anytls://"@;
    let crossed = first + seq![']'] + second + seq!['['] + third;
    let right = first + seq!['['] + second + seq![']'] + third;
    let (a, b) = (first.len() as int, (first.len() + second.len()) as int + 1);
    assert((scheme + crossed).subrange(0, 9) =~= scheme);
    assert((scheme + right).subrange(0, 9) =~= scheme);
    assert((scheme + crossed).skip(9) =~= crossed);
    assert((scheme + right).skip(9) =~= right);
    assert forall|i: int| 0 <= i < crossed.len() && i != a && i != b implies {
        let c = #[trigger] crossed[i];
        c != '/' && c != '?' && c != '#' && c != '@' && c != '[' && c != ']' && right[i] == c
    } by {
        if i < a {
            assert(crossed[i] == first[i]);
        } else if i < b {
            assert(crossed[i] == second[i - a - 1]);
        } else {
            assert(crossed[i] == third[i - b - 1]);
        }
    }
    assert(crossed[a] == ']' && crossed[b] == '[' && right[a] == '[' && right[b] == ']');
    assert(forall|i: int|
        0 <= i < right.len() && i != a && i != b ==> (#[trigger] right[i]) == crossed[i]);
    authorities_end_nowhere(crossed);
    authorities_end_nowhere(right);
    assert(crossed.take(crossed.len() as int) =~= crossed);
    assert(right.take(right.len() as int) =~= right);
    position_is(crossed, '@', crossed.len() as int);
    position_is(right, '@', right.len() as int);
    position_is(crossed, ']', a);
    position_is(crossed, '[', b);
    position_is(right, '[', a);
    position_is(right, ']', b);
}

} // verus!
