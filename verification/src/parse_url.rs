//! `anytls://` URLs, which hold what a client needs to reach a server.
use crate::address::{
    authority_text, bracketed, format_authority, has_char, host_and_port, host_text, in_brackets,
    ipv6_text, port_of, with_port, Address, AddressView,
};
use crate::identity::{parse_uuid, parsed_uuid, uuid_text, uuid_to_text};
use crate::percent::{
    append_pair, form_pairs, form_parse, pair_appended, percent_decode_lossy, percent_encode,
    percent_encoded, text_decoded, UrlPart,
};
use crate::round_trip::{
    agree, plain_url_round_trip, plain_urls_are_written_from_parts, reads_back, survives,
    written_parts, zones_are_read_back,
};
use crate::text::{
    char_position, chars_of, decimal, head, parse_unsigned, position, position_bounds, string_of, tail,
    text_eq, trim, trimmed, unsigned_value,
};
use crate::wire;
use socks5_impl::protocol;
use url::Url;
use vstd::prelude::*;
use vstd::slice::slice_subrange;
use vstd::utf8::encode_utf8;

verus! {

/// The port of a server that a URL does not name.
pub const DEFAULT_PORT: u16 = 443;

/// `url::ParseError`, what is wrong with a URL.
#[verifier::external_type_specification]
#[verifier::external_body]
pub struct ExParseError(url::ParseError);

/// The host of a parsed URL.
#[derive(Debug)]
pub enum UrlHost {
    Domain(String),
    Ipv4([u8; 4]),
    Ipv6([u8; 16]),
    Missing,
}

/// The mathematical value of a [`UrlHost`].
pub enum UrlHostView {
    Domain(Seq<char>),
    Ipv4(Seq<u8>),
    Ipv6(Seq<u8>),
    Missing,
}

impl View for UrlHost {
    type V = UrlHostView;

    open spec fn view(&self) -> UrlHostView {
        match self {
            UrlHost::Domain(name) => UrlHostView::Domain(name@),
            UrlHost::Ipv4(ip) => UrlHostView::Ipv4(ip@),
            UrlHost::Ipv6(ip) => UrlHostView::Ipv6(ip@),
            UrlHost::Missing => UrlHostView::Missing,
        }
    }
}

/// The parts of a parsed URL.
#[derive(Debug)]
pub struct UrlParts {
    pub scheme: String,
    pub host: UrlHost,
    pub port: Option<u16>,
    pub username: String,
    pub password: Option<String>,
    pub query: Option<String>,
    pub fragment: Option<String>,
}

/// The mathematical value of [`UrlParts`].
pub struct UrlPartsView {
    pub scheme: Seq<char>,
    pub host: UrlHostView,
    pub port: Option<u16>,
    pub username: Seq<char>,
    pub password: Option<Seq<char>>,
    pub query: Option<Seq<char>>,
    pub fragment: Option<Seq<char>>,
}

/// The mathematical value of an optional string.
pub open spec fn optional(s: Option<String>) -> Option<Seq<char>> {
    match s {
        Some(s) => Some(s@),
        None => None,
    }
}

impl View for UrlParts {
    type V = UrlPartsView;

    open spec fn view(&self) -> UrlPartsView {
        UrlPartsView {
            scheme: self.scheme@,
            host: self.host@,
            port: self.port,
            username: self.username@,
            password: optional(self.password),
            query: optional(self.query),
            fragment: optional(self.fragment),
        }
    }
}

/// What `Url::parse` makes of `text`: the parts of the URL, or what is wrong.
pub uninterp spec fn parsed_url(text: Seq<char>) -> Result<UrlPartsView, url::ParseError>;

/// The URL of the scheme `anytls` that is put together from `u`, without a second credential.
pub open spec fn written_url(u: UrlPartsView) -> Seq<char> {
    "anytls://"@ + (if u.username.len() > 0 {
        u.username + seq!['@']
    } else {
        Seq::empty()
    }) + (match u.host {
        UrlHostView::Ipv6(ip) => bracketed(ipv6_text(ip)),
        UrlHostView::Domain(name) => name,
        _ => Seq::empty(),
    }) + (match u.port {
        Some(port) => seq![':'] + decimal(port as nat),
        None => Seq::empty(),
    }) + (match u.query {
        Some(query) => "/?"@ + query,
        None => Seq::empty(),
    }) + (match u.fragment {
        Some(f) => seq!['#'] + f,
        None => Seq::empty(),
    })
}

/// Whether `c` is an ASCII character that can be seen and none of `marks`.
pub open spec fn is_plain(c: char, marks: Seq<char>) -> bool {
    '!' <= c <= '~' && !marks.contains(c)
}

/// Whether every character of `s` can be seen and is none of `marks`.
pub open spec fn all_plain(s: Seq<char>, marks: Seq<char>) -> bool {
    forall|i: int| 0 <= i < s.len() ==> is_plain(#[trigger] s[i], marks)
}

/// What cannot stand in the credential of a URL.
pub open spec fn userinfo_marks() -> Seq<char> {
    seq!['"', '#', '/', ':', '<', '>', '?', '@', '[', '\\', ']', '^', '`', '{', '|', '}']
}

/// What cannot stand in the name of a host.
pub open spec fn host_marks() -> Seq<char> {
    seq!['#', '%', '/', ':', '<', '>', '?', '@', '[', '\\', ']', '^', '|']
}

/// What cannot stand in a query.
pub open spec fn query_marks() -> Seq<char> {
    seq!['"', '#', '<', '>']
}

/// What cannot stand in a fragment.
pub open spec fn fragment_marks() -> Seq<char> {
    seq!['"', '<', '>', '`']
}

/// Whether nothing in the parts `u` of a URL would end the part or have to be escaped in it, and
/// the URL is short enough for its length to be counted in thirty-two bits, also where a
/// character is escaped by three.
pub open spec fn is_plain_url(u: UrlPartsView) -> bool {
    &&& u.scheme == "anytls"@
    &&& all_plain(u.username, userinfo_marks())
    &&& u.password is None
    &&& match u.host {
        UrlHostView::Ipv6(ip) => ip.len() == 16,
        UrlHostView::Domain(name) => name.len() > 0 && all_plain(name, host_marks()),
        _ => false,
    }
    &&& u.query matches Some(query) ==> all_plain(query, query_marks())
    &&& u.fragment matches Some(f) ==> all_plain(f, fragment_marks())
    &&& 3 * written_url(u).len() < u32::MAX
}

/// Whether `r` holds the parts from which the URL `text` is put together, if these are plain,
/// but for what is escaped in its credential besides: that decodes to the same.
pub open spec fn is_taken_apart(text: Seq<char>, r: Result<UrlParts, url::ParseError>) -> bool {
    forall|u: UrlPartsView|
        is_plain_url(u) && text == #[trigger] written_url(u) ==> (r matches Ok(parts)
            && text_decoded(parts@.username) == text_decoded(u.username) && parts@ == (
        UrlPartsView { username: parts@.username, ..u }))
}

/// `url::Url::parse`: the parts of the URL `text`, as the accessors of `Url` give them, or what
/// is wrong with it. A URL that is put together from plain parts is taken apart into those
/// parts. `Url` escapes `;` and `=` in a credential, which changes nothing once it is decoded.
#[verifier::external_body]
fn parse_url(text: &str) -> (r: Result<UrlParts, url::ParseError>)
    ensures
        match r {
            Ok(parts) => parsed_url(text@) == Ok::<UrlPartsView, url::ParseError>(parts@),
            Err(e) => parsed_url(text@) == Err::<UrlPartsView, url::ParseError>(e),
        },
        is_taken_apart(text@, r),
{
    let u = Url::parse(text)?;
    let host = match u.host() {
        Some(url::Host::Domain(name)) => UrlHost::Domain(name.to_owned()),
        Some(url::Host::Ipv4(ip)) => UrlHost::Ipv4(ip.octets()),
        Some(url::Host::Ipv6(ip)) => UrlHost::Ipv6(ip.octets()),
        None => UrlHost::Missing,
    };
    let (scheme, username) = (u.scheme().to_owned(), u.username().to_owned());
    let password = u.password().map(String::from);
    let query = u.query().map(String::from);
    let fragment = u.fragment().map(String::from);
    Ok(UrlParts { scheme, host, port: u.port(), username, password, query, fragment })
}

/// The bytes of the socket address that `text` spells, if it spells one.
pub uninterp spec fn parsed_socket(text: Seq<char>) -> Option<Seq<u8>>;

/// `str::parse` to a socket address: the bytes of the address that `text` spells, as
/// `socks5_impl::protocol::Address` writes them. What starts with a square bracket is an IPv6
/// address or nothing.
#[verifier::external_body]
fn parse_socket(text: &str) -> (r: Option<Vec<u8>>)
    ensures
        match r {
            Some(v) => parsed_socket(text@) == Some(v@) && (text@.len() > 0 && text@[0] == '['
                ==> v@.len() == 19 && v@[0] == 4),
            None => parsed_socket(text@) is None,
        },
{
    let socket = text.parse().ok()?;
    Some(protocol::Address::SocketAddress(socket).into())
}

/// What is wrong with an AnyTLS URL.
#[derive(Debug)]
pub enum UrlError {
    /// The URL does not start with `anytls://`.
    Scheme,
    /// There is no host.
    MissingHost,
    /// An IPv6 host is not closed by a square bracket.
    InvalidIpv6Host,
    /// The port is not a number of sixteen bits.
    InvalidPort,
    /// It is not a URL.
    Malformed(url::ParseError),
    /// The password stands in the query.
    PasswordInQuery,
    /// The query says something about `insecure` other than `0` or `1`.
    InvalidInsecure(String),
    /// The query holds a client id that is not a UUID.
    InvalidClientId(uuid::Error),
}

/// The mathematical value of a [`UrlError`].
pub enum UrlErrorView {
    Scheme,
    MissingHost,
    InvalidIpv6Host,
    InvalidPort,
    Malformed(url::ParseError),
    PasswordInQuery,
    InvalidInsecure(Seq<char>),
    InvalidClientId(uuid::Error),
}

impl View for UrlError {
    type V = UrlErrorView;

    open spec fn view(&self) -> UrlErrorView {
        match self {
            UrlError::Scheme => UrlErrorView::Scheme,
            UrlError::MissingHost => UrlErrorView::MissingHost,
            UrlError::InvalidIpv6Host => UrlErrorView::InvalidIpv6Host,
            UrlError::InvalidPort => UrlErrorView::InvalidPort,
            UrlError::Malformed(e) => UrlErrorView::Malformed(*e),
            UrlError::PasswordInQuery => UrlErrorView::PasswordInQuery,
            UrlError::InvalidInsecure(s) => UrlErrorView::InvalidInsecure(s@),
            UrlError::InvalidClientId(e) => UrlErrorView::InvalidClientId(*e),
        }
    }
}

/// What a client needs to reach a server.
#[derive(Debug)]
pub struct ClientRuntimeConfig {
    pub server: Address,
    pub password: String,
    pub sni: Option<String>,
    pub client_id: Option<[u8; 16]>,
    pub insecure: bool,
    pub display_name: Option<String>,
}

/// The mathematical value of a [`ClientRuntimeConfig`].
pub struct ConfigView {
    pub server: AddressView,
    pub password: Seq<char>,
    pub sni: Option<Seq<char>>,
    pub client_id: Option<Seq<u8>>,
    pub insecure: bool,
    pub display_name: Option<Seq<char>>,
}

/// The mathematical value of an optional client id.
pub open spec fn optional_id(id: Option<[u8; 16]>) -> Option<Seq<u8>> {
    match id {
        Some(id) => Some(id@),
        None => None,
    }
}

impl View for ClientRuntimeConfig {
    type V = ConfigView;

    open spec fn view(&self) -> ConfigView {
        ConfigView {
            server: self.server@,
            password: self.password@,
            sni: optional(self.sni),
            client_id: optional_id(self.client_id),
            insecure: self.insecure,
            display_name: optional(self.display_name),
        }
    }
}

impl Default for ClientRuntimeConfig {
    fn default() -> (c: ClientRuntimeConfig)
        ensures
            c@ == (ConfigView {
                server: AddressView::Ipv4Address(seq![0u8, 0, 0, 0], 0),
                password: Seq::empty(),
                sni: None,
                client_id: None,
                insecure: false,
                display_name: None,
            }),
    {
        let password = String::new();
        assert(password@ =~= Seq::<char>::empty());
        ClientRuntimeConfig {
            server: Address::unspecified(),
            password,
            sni: None,
            client_id: None,
            insecure: false,
            display_name: None,
        }
    }
}

/// What the query of a URL says.
pub struct QueryView {
    pub sni: Option<Seq<char>>,
    pub insecure: bool,
    pub client_id: Option<Seq<u8>>,
}

/// What the query says after one pair more. Keys that mean nothing are passed over, and a later
/// pair replaces an earlier one.
pub open spec fn with_pair(q: QueryView, key: Seq<char>, value: Seq<char>) -> Result<
    QueryView,
    UrlErrorView,
> {
    if key == "password"@ {
        Err(UrlErrorView::PasswordInQuery)
    } else if key == "sni"@ {
        Ok(QueryView { sni: Some(value), ..q })
    } else if key == "insecure"@ {
        if value == "1"@ {
            Ok(QueryView { insecure: true, ..q })
        } else if value == "0"@ {
            Ok(QueryView { insecure: false, ..q })
        } else {
            Err(UrlErrorView::InvalidInsecure(value))
        }
    } else if key == "client_id"@ && value.len() > 0 {
        match parsed_uuid(value) {
            Ok(id) => Ok(QueryView { client_id: Some(id), ..q }),
            Err(e) => Err(UrlErrorView::InvalidClientId(e)),
        }
    } else {
        Ok(q)
    }
}

/// What the first `n` pairs of a query say, or the first thing that is wrong with them.
pub open spec fn with_pairs(pairs: Seq<(Seq<char>, Seq<char>)>, n: nat) -> Result<
    QueryView,
    UrlErrorView,
>
    decreases n,
{
    if n == 0 {
        Ok(QueryView { sni: None, insecure: false, client_id: None })
    } else {
        match with_pairs(pairs, (n - 1) as nat) {
            Ok(q) => with_pair(q, pairs[n - 1].0, pairs[n - 1].1),
            Err(e) => Err(e),
        }
    }
}

/// The label that a fragment stands for, if it is not empty.
pub open spec fn label_of(fragment: Option<Seq<char>>) -> Option<Seq<char>> {
    match fragment {
        Some(f) => {
            let label = text_decoded(f);
            if label.len() > 0 {
                Some(label)
            } else {
                None
            }
        },
        None => None,
    }
}

/// The configuration for a server, a password, a query with these pairs and a fragment.
pub open spec fn config_of(
    server: AddressView,
    password: Seq<char>,
    pairs: Seq<(Seq<char>, Seq<char>)>,
    fragment: Option<Seq<char>>,
) -> Result<ConfigView, UrlErrorView> {
    match with_pairs(pairs, pairs.len()) {
        Ok(q) => Ok(
            ConfigView {
                server,
                password,
                sni: q.sni,
                client_id: q.client_id,
                insecure: q.insecure,
                display_name: label_of(fragment),
            },
        ),
        Err(e) => Err(e),
    }
}

/// Whether `r` is the outcome `expected`.
pub open spec fn is_outcome(
    r: Result<ClientRuntimeConfig, UrlError>,
    expected: Result<ConfigView, UrlErrorView>,
) -> bool {
    match r {
        Ok(c) => expected == Ok::<ConfigView, UrlErrorView>(c@),
        Err(e) => expected == Err::<ConfigView, UrlErrorView>(e@),
    }
}

/// The configuration for a server, a password, a query and a fragment.
pub fn build_client_runtime_config(
    server: Address,
    password: String,
    query: &str,
    fragment: Option<&str>,
) -> (r: Result<ClientRuntimeConfig, UrlError>)
    ensures
        is_outcome(
            r,
            config_of(
                server@,
                password@,
                form_pairs(encode_utf8(query@)),
                match fragment {
                    Some(f) => Some(f@),
                    None => None,
                },
            ),
        ),
{
    let pairs = form_parse(query.as_bytes());
    build_from_pairs(server, password, pairs.as_slice(), fragment)
}

/// The configuration for a server, a password, the pairs of a query and a fragment.
pub fn build_from_pairs(
    server: Address,
    password: String,
    pairs: &[(String, String)],
    fragment: Option<&str>,
) -> (r: Result<ClientRuntimeConfig, UrlError>)
    ensures
        is_outcome(
            r,
            config_of(
                server@,
                password@,
                pairs@.map_values(|p: (String, String)| (p.0@, p.1@)),
                match fragment {
                    Some(f) => Some(f@),
                    None => None,
                },
            ),
        ),
{
    let ghost all = pairs@.map_values(|p: (String, String)| (p.0@, p.1@));
    let display_name = match fragment {
        Some(f) => {
            let label = percent_decode_lossy(f);
            let empty = label.as_str().is_empty();
            assert(empty == (label@.len() == 0));
            if empty {
                None
            } else {
                Some(label)
            }
        },
        None => None,
    };
    let mut sni: Option<String> = None;
    let mut insecure = false;
    let mut client_id: Option<[u8; 16]> = None;
    let mut i: usize = 0;
    let ghost label = match fragment {
        Some(f) => Some(f@),
        None => None,
    };
    while i < pairs.len()
        invariant
            i <= pairs@.len(),
            all == pairs@.map_values(|p: (String, String)| (p.0@, p.1@)),
            label == match fragment {
                Some(f) => Some(f@),
                None => None,
            },
            with_pairs(all, i as nat) == Ok::<QueryView, UrlErrorView>(
                QueryView { sni: optional(sni), insecure, client_id: optional_id(client_id) },
            ),
        decreases pairs@.len() - i,
    {
        let ghost q = with_pairs(all, i as nat)->Ok_0;
        let key = pairs[i].0.as_str();
        let value = pairs[i].1.as_str();
        assert(all[i as int] == (key@, value@));
        let ghost step = with_pair(q, key@, value@);
        assert(with_pairs(all, (i + 1) as nat) == step);
        i += 1;
        if text_eq(key, "password") {
            proof {
                first_error_decides(all, i as nat, all.len());
            }
            return Err(UrlError::PasswordInQuery);
        } else if text_eq(key, "sni") {
            sni = Some(value.to_owned());
        } else if text_eq(key, "insecure") {
            if text_eq(value, "1") {
                insecure = true;
            } else if text_eq(value, "0") {
                insecure = false;
            } else {
                proof {
                    first_error_decides(all, i as nat, all.len());
                }
                return Err(UrlError::InvalidInsecure(value.to_owned()));
            }
        } else if text_eq(key, "client_id") {
            let empty = value.is_empty();
            assert(empty == (value@.len() == 0));
            if !empty {
                match parse_uuid(value) {
                    Ok(id) => {
                        client_id = Some(id);
                    },
                    Err(e) => {
                        proof {
                            first_error_decides(all, i as nat, all.len());
                        }
                        return Err(UrlError::InvalidClientId(e));
                    },
                }
            }
        }
    }
    Ok(ClientRuntimeConfig { server, password, sni, client_id, insecure, display_name })
}

proof fn first_error_decides(pairs: Seq<(Seq<char>, Seq<char>)>, k: nat, n: nat)
    requires
        k <= n,
        with_pairs(pairs, k) is Err,
    ensures
        with_pairs(pairs, n) == with_pairs(pairs, k),
    decreases n,
{
    if k < n {
        first_error_decides(pairs, k, (n - 1) as nat);
    }
}

/// What stands behind `anytls://`, if `url` starts with it.
pub open spec fn without_scheme(url: Seq<char>) -> Option<Seq<char>> {
    if "anytls://"@.is_prefix_of(url) {
        Some(url.skip("anytls://"@.len() as int))
    } else {
        None
    }
}

/// Whether `c` ends the authority of a URL.
pub open spec fn is_delimiter(c: char) -> bool {
    c == '/' || c == '?' || c == '#'
}

/// Where the first delimiter stands in `s`, or the length of `s` if there is none.
pub open spec fn delimiter_position(s: Seq<char>) -> int
    decreases s.len(),
{
    if s.len() == 0 || is_delimiter(s[0]) {
        0
    } else {
        1 + delimiter_position(s.skip(1))
    }
}

/// `s` behind the last `c`, or all of `s` if there is none.
pub open spec fn behind_last(s: Seq<char>, c: char) -> Seq<char>
    decreases s.len(),
{
    let i = position(s, c);
    if 0 <= i < s.len() {
        behind_last(s.skip(i + 1), c)
    } else {
        s
    }
}

/// Whether the host of `url` is an IPv6 address with a zone: behind the last `@` of its
/// authority stands a percent sign between square brackets.
pub open spec fn has_zone(url: Seq<char>) -> bool {
    let rest = match without_scheme(url) {
        Some(rest) => rest,
        None => url,
    };
    let host = behind_last(rest.take(delimiter_position(rest)), '@');
    let start = position(host, '[');
    let len = position(host.skip(start), ']');
    start < host.len() && len < host.skip(start).len() && host.skip(start).take(len).contains('%')
}

/// The authority at the front of `s`, up to the first delimiter, and what stands behind it.
pub open spec fn split_authority(s: Seq<char>) -> (Seq<char>, Seq<char>) {
    (s.take(delimiter_position(s)), s.skip(delimiter_position(s)))
}

/// What stands before the first `@` of an authority, and what stands behind it; without one,
/// nothing stands before it. An `@` of the password itself is escaped.
pub open spec fn split_userinfo(authority: Seq<char>) -> (Seq<char>, Seq<char>) {
    let i = position(authority, '@');
    if i < authority.len() {
        (authority.take(i), authority.skip(i + 1))
    } else {
        (Seq::empty(), authority)
    }
}

/// Whether a closing square bracket of `url` stands where its host would have to start: such a
/// URL has no host that could be cut out.
pub open spec fn brackets_crossed(url: Seq<char>) -> bool {
    match without_scheme(url) {
        Some(rest) => {
            let s = split_userinfo(split_authority(rest).0).1;
            position(s, ']') < s.len() && position(s, '[') < s.len() && position(s, ']')
                < position(s, '[')
        },
        None => false,
    }
}

/// Whether `needle` occurs in `s`.
pub open spec fn has_part(s: Seq<char>, needle: Seq<char>) -> bool {
    exists|i: int| 0 <= i <= s.len() && #[trigger] needle.is_prefix_of(s.skip(i))
}

/// The host that stands between square brackets, decoded if it holds an encoded percent sign.
pub open spec fn zone_host(s: Seq<char>) -> Seq<char> {
    if has_part(s, "%25"@) {
        text_decoded(s)
    } else {
        s
    }
}

/// The port that follows a host in an authority, or `None` if it is not one.
pub open spec fn zone_port(after: Seq<char>) -> Option<u16> {
    if after.len() > 0 && after[0] == ':' {
        match unsigned_value(after.skip(1), 65535) {
            Some(port) => Some(port as u16),
            None => None,
        }
    } else {
        Some(DEFAULT_PORT)
    }
}

/// The password in a userinfo: what stands before the first colon, or behind it if nothing
/// stands before it, decoded.
pub open spec fn userinfo_password(s: Seq<char>) -> Seq<char> {
    let i = position(s, ':');
    text_decoded(
        if i == 0 && s.len() > 0 {
            s.skip(1)
        } else {
            s.take(i)
        },
    )
}

/// The query in what follows an authority: behind the first question mark, up to the hash sign.
/// What stands behind the hash sign is no query.
pub open spec fn query_of(rest: Seq<char>) -> Seq<char> {
    let s = rest.take(position(rest, '#'));
    let i = position(s, '?');
    if i < s.len() {
        s.skip(i + 1)
    } else {
        Seq::empty()
    }
}

/// The fragment in what follows an authority: behind the first hash sign, without white space
/// around it.
pub open spec fn zone_fragment(rest: Seq<char>) -> Option<Seq<char>> {
    let i = position(rest, '#');
    if i < rest.len() {
        Some(trimmed(rest.skip(i + 1)))
    } else {
        None
    }
}

/// The address of a bracketed host: a host with a zone goes by its name, and so does one that
/// is not an IPv6 address.
pub open spec fn zone_server(host: Seq<char>, port: u16) -> AddressView {
    if host.contains('%') {
        AddressView::DomainAddress(host, port)
    } else {
        match parsed_socket(host_and_port(bracketed(host), port)) {
            Some(v) => AddressView::Ipv6Address(
                v.subrange(1, 17),
                wire::be_u16(v.skip(17)) as u16,
            ),
            None => AddressView::DomainAddress(host, port),
        }
    }
}

/// What a URL comes to whose host has a zone.
pub open spec fn zone_config(url: Seq<char>) -> Result<ConfigView, UrlErrorView> {
    match without_scheme(url) {
        None => Err(UrlErrorView::Scheme),
        Some(s) => {
            let (authority, tail) = split_authority(s);
            let (userinfo, rest) = split_userinfo(authority);
            let start = position(rest, '[');
            let end = position(rest, ']');
            if start >= rest.len() {
                Err(UrlErrorView::MissingHost)
            } else if end >= rest.len() {
                Err(UrlErrorView::InvalidIpv6Host)
            } else {
                match zone_port(rest.skip(end + 1)) {
                    None => Err(UrlErrorView::InvalidPort),
                    Some(port) => config_of(
                        zone_server(zone_host(rest.subrange(start + 1, end)), port),
                        userinfo_password(userinfo),
                        form_pairs(encode_utf8(query_of(tail))),
                        zone_fragment(tail),
                    ),
                }
            }
        },
    }
}

/// What a parsed URL comes to.
pub open spec fn parts_config(u: UrlPartsView) -> Result<ConfigView, UrlErrorView> {
    let port = match u.port {
        Some(port) => port,
        None => DEFAULT_PORT,
    };
    let password = text_decoded(
        if u.username.len() > 0 {
            u.username
        } else {
            match u.password {
                Some(p) => p,
                None => Seq::empty(),
            }
        },
    );
    let query = match u.query {
        Some(q) => q,
        None => Seq::empty(),
    };
    let pairs = form_pairs(encode_utf8(query));
    if u.scheme != "anytls"@ {
        Err(UrlErrorView::Scheme)
    } else {
        match u.host {
            UrlHostView::Domain(name) => config_of(
                AddressView::DomainAddress(name, port),
                password,
                pairs,
                u.fragment,
            ),
            UrlHostView::Ipv4(ip) => config_of(
                AddressView::Ipv4Address(ip, port),
                password,
                pairs,
                u.fragment,
            ),
            UrlHostView::Ipv6(ip) => config_of(
                AddressView::Ipv6Address(ip, port),
                password,
                pairs,
                u.fragment,
            ),
            UrlHostView::Missing => Err(UrlErrorView::MissingHost),
        }
    }
}

/// What an AnyTLS URL comes to.
pub open spec fn url_config(url: Seq<char>) -> Result<ConfigView, UrlErrorView> {
    if has_zone(url) {
        zone_config(url)
    } else {
        match parsed_url(url) {
            Ok(u) => parts_config(u),
            Err(e) => Err(UrlErrorView::Malformed(e)),
        }
    }
}

/// Whether `s` starts with `prefix`.
fn starts_with(s: &[char], prefix: &[char]) -> (r: bool)
    ensures
        r == prefix@.is_prefix_of(s@),
{
    if prefix.len() > s.len() {
        return false;
    }
    let mut i: usize = 0;
    while i < prefix.len()
        invariant
            i <= prefix@.len() <= s@.len(),
            forall|j: int| 0 <= j < i ==> s@[j] == prefix@[j],
        decreases prefix@.len() - i,
    {
        if s[i] != prefix[i] {
            assert(s@.subrange(0, prefix@.len() as int)[i as int] != prefix@[i as int]);
            return false;
        }
        i += 1;
    }
    assert(s@.subrange(0, prefix@.len() as int) =~= prefix@);
    true
}

fn strip_scheme(url: &[char]) -> (r: Option<&[char]>)
    ensures
        match r {
            Some(rest) => without_scheme(url@) == Some(rest@),
            None => without_scheme(url@) is None,
        },
{
    let scheme = chars_of("anytls://");
    if starts_with(url, scheme.as_slice()) {
        Some(tail(url, scheme.len()))
    } else {
        None
    }
}

fn find_delimiter(s: &[char]) -> (i: usize)
    ensures
        i == delimiter_position(s@),
        i <= s@.len(),
{
    let mut i: usize = 0;
    assert(s@.skip(0) =~= s@);
    while i < s.len() && !(s[i] == '/' || s[i] == '?' || s[i] == '#')
        invariant
            i <= s@.len(),
            delimiter_position(s@) == i + delimiter_position(s@.skip(i as int)),
        decreases s@.len() - i,
    {
        assert(s@.skip(i as int).skip(1) =~= s@.skip(i + 1));
        i += 1;
    }
    i
}

fn after_last(s: &[char], c: char) -> (r: &[char])
    ensures
        r@ == behind_last(s@, c),
{
    let mut rest = s;
    let mut i: usize = char_position(rest, c);
    while i < rest.len()
        invariant
            i == position(rest@, c),
            i <= rest@.len(),
            behind_last(s@, c) == behind_last(rest@, c),
        decreases rest@.len(),
    {
        rest = tail(rest, i + 1);
        i = char_position(rest, c);
    }
    rest
}

fn holds_char(s: &[char], c: char) -> (r: bool)
    ensures
        r == s@.contains(c),
{
    let i: usize = char_position(s, c);
    proof {
        position_bounds(s@, c);
        if i < s@.len() {
            assert(s@.contains(s@[i as int]));
        }
    }
    i < s.len()
}

fn holds_part(s: &[char], needle: &[char]) -> (r: bool)
    ensures
        r == has_part(s@, needle@),
{
    let mut i: usize = 0;
    while i <= s.len()
        invariant
            i <= s@.len() + 1,
            forall|j: int| 0 <= j < i ==> !#[trigger] needle@.is_prefix_of(s@.skip(j)),
        decreases s@.len() + 1 - i,
    {
        if starts_with(tail(s, i), needle) {
            return true;
        }
        if i == s.len() {
            return false;
        }
        i += 1;
    }
    false
}

/// Whether the host of `raw_url` is an IPv6 address with a zone.
pub fn is_anytls_ipv6_zone_url(raw_url: &str) -> (r: bool)
    ensures
        r == has_zone(raw_url@),
{
    let chars = chars_of(raw_url);
    let rest = match strip_scheme(chars.as_slice()) {
        Some(rest) => rest,
        None => chars.as_slice(),
    };
    let host = after_last(head(rest, find_delimiter(rest)), '@');
    let start: usize = char_position(host, '[');
    if start >= host.len() {
        return false;
    }
    let inner = tail(host, start);
    let len: usize = char_position(inner, ']');
    if len >= inner.len() {
        return false;
    }
    holds_char(head(inner, len), '%')
}

/// Whether the square brackets of `raw_url` stand the wrong way round, so that no host can be
/// cut out.
pub fn has_crossed_brackets(raw_url: &str) -> (r: bool)
    ensures
        r == brackets_crossed(raw_url@),
{
    let chars = chars_of(raw_url);
    match strip_scheme(chars.as_slice()) {
        Some(rest) => {
            let (_userinfo, s) = cut_userinfo(head(rest, find_delimiter(rest)));
            let open: usize = char_position(s, '[');
            let close: usize = char_position(s, ']');
            close < s.len() && open < s.len() && close < open
        },
        None => false,
    }
}

fn cut_userinfo(authority: &[char]) -> (r: (&[char], &[char]))
    ensures
        (r.0@, r.1@) == split_userinfo(authority@),
{
    let i: usize = char_position(authority, '@');
    if i < authority.len() {
        (head(authority, i), tail(authority, i + 1))
    } else {
        let none = head(authority, 0);
        assert(none@ =~= Seq::<char>::empty());
        (none, authority)
    }
}

fn decoded_host(s: &[char]) -> (host: String)
    ensures
        host@ == zone_host(s@),
{
    let text = string_of(s);
    let escape = chars_of("%25");
    if holds_part(s, escape.as_slice()) {
        percent_decode_lossy(text.as_str())
    } else {
        text
    }
}

fn port_in(after: &[char]) -> (r: Option<u16>)
    ensures
        r == zone_port(after@),
{
    if after.len() > 0 && after[0] == ':' {
        match parse_unsigned(tail(after, 1), 65535) {
            Some(port) => Some(port as u16),
            None => None,
        }
    } else {
        Some(DEFAULT_PORT)
    }
}

fn password_in(userinfo: &[char]) -> (password: String)
    ensures
        password@ == userinfo_password(userinfo@),
{
    let i: usize = char_position(userinfo, ':');
    let encoded = if i == 0 && userinfo.len() > 0 {
        string_of(tail(userinfo, 1))
    } else {
        string_of(head(userinfo, i))
    };
    percent_decode_lossy(encoded.as_str())
}

fn query_in(rest: &[char]) -> (query: String)
    ensures
        query@ == query_of(rest@),
{
    let s = head(rest, char_position(rest, '#'));
    let i: usize = char_position(s, '?');
    if i < s.len() {
        string_of(tail(s, i + 1))
    } else {
        let nothing = String::new();
        assert(nothing@ =~= Seq::<char>::empty());
        nothing
    }
}

fn fragment_in(rest: &[char]) -> (r: Option<String>)
    ensures
        optional(r) == zone_fragment(rest@),
{
    let i: usize = char_position(rest, '#');
    if i < rest.len() {
        Some(string_of(trim(tail(rest, i + 1))))
    } else {
        None
    }
}

fn server_for(host: String, port: u16) -> (a: Address)
    ensures
        a@ == zone_server(host@, port),
{
    if has_char(host.as_str(), '%') {
        return Address::DomainAddress(host, port);
    }
    let text = with_port(in_brackets(host.as_str()), port);
    assert(text@.len() > 0 && text@[0] == '[');
    match parse_socket(text.as_str()) {
        Some(v) => {
            let ip: [u8; 16] = [
                v[1], v[2], v[3], v[4], v[5], v[6], v[7], v[8], v[9], v[10], v[11], v[12], v[13],
                v[14], v[15], v[16],
            ];
            assert(ip@ =~= v@.subrange(1, 17));
            let port: u16 = wire::u16_from_be(v[17], v[18]);
            assert(port == wire::be_u16(v@.skip(17)));
            Address::Ipv6Address(ip, port)
        },
        None => Address::DomainAddress(host, port),
    }
}

/// The configuration in a URL whose host is an IPv6 address with a zone.
pub fn parse_anytls_url_ipv6_zone(raw_url: &str) -> (r: Result<ClientRuntimeConfig, UrlError>)
    requires
        !brackets_crossed(raw_url@),
    ensures
        is_outcome(r, zone_config(raw_url@)),
{
    let chars = chars_of(raw_url);
    let s = match strip_scheme(chars.as_slice()) {
        Some(s) => s,
        None => {
            return Err(UrlError::Scheme);
        },
    };
    let n: usize = find_delimiter(s);
    let behind = tail(s, n);
    let (userinfo, rest) = cut_userinfo(head(s, n));
    let start: usize = char_position(rest, '[');
    if start >= rest.len() {
        return Err(UrlError::MissingHost);
    }
    let end: usize = char_position(rest, ']');
    if end >= rest.len() {
        return Err(UrlError::InvalidIpv6Host);
    }
    proof {
        position_bounds(rest@, '[');
        position_bounds(rest@, ']');
    }
    let host = decoded_host(slice_subrange(rest, start + 1, end));
    let port: u16 = match port_in(tail(rest, end + 1)) {
        Some(port) => port,
        None => {
            return Err(UrlError::InvalidPort);
        },
    };
    let password = password_in(userinfo);
    let query = query_in(behind);
    let fragment = fragment_in(behind);
    let server = server_for(host, port);
    match fragment {
        Some(f) => build_client_runtime_config(server, password, query.as_str(), Some(f.as_str())),
        None => build_client_runtime_config(server, password, query.as_str(), None),
    }
}

/// The configuration in a URL that was taken apart.
pub fn config_from_parts(parts: UrlParts) -> (r: Result<ClientRuntimeConfig, UrlError>)
    ensures
        is_outcome(r, parts_config(parts@)),
{
    if !text_eq(parts.scheme.as_str(), "anytls") {
        return Err(UrlError::Scheme);
    }
    let port: u16 = match parts.port {
        Some(port) => port,
        None => DEFAULT_PORT,
    };
    let server = match parts.host {
        UrlHost::Domain(name) => Address::DomainAddress(name, port),
        UrlHost::Ipv4(ip) => Address::Ipv4Address(ip, port),
        UrlHost::Ipv6(ip) => Address::Ipv6Address(ip, port),
        UrlHost::Missing => {
            return Err(UrlError::MissingHost);
        },
    };
    let nothing = String::new();
    assert(nothing@ =~= Seq::<char>::empty());
    let unnamed = parts.username.as_str().is_empty();
    assert(unnamed == (parts.username@.len() == 0));
    let encoded = if unnamed {
        match parts.password {
            Some(password) => password,
            None => nothing.clone(),
        }
    } else {
        parts.username
    };
    let password = percent_decode_lossy(encoded.as_str());
    let query = match parts.query {
        Some(query) => query,
        None => nothing,
    };
    match parts.fragment {
        Some(f) => build_client_runtime_config(server, password, query.as_str(), Some(f.as_str())),
        None => build_client_runtime_config(server, password, query.as_str(), None),
    }
}

/// The configuration in an AnyTLS URL. A URL that was written for a configuration is read as that
/// configuration.
pub fn parse_anytls_url(raw_url: &str) -> (r: Result<ClientRuntimeConfig, UrlError>)
    requires
        has_zone(raw_url@) ==> !brackets_crossed(raw_url@),
    ensures
        is_outcome(r, url_config(raw_url@)),
        forall|c: ConfigView|
            survives(c) && raw_url@ == #[trigger] config_url(c) ==> (r matches Ok(read) && agree(
                read@,
                c,
            )),
{
    if is_anytls_ipv6_zone_url(raw_url) {
        proof {
            assert forall|c: ConfigView| survives(c) && raw_url@ == #[trigger] config_url(c) implies (
            url_config(raw_url@) matches Ok(read) && agree(read, c)) by {
                zones_are_read_back(c);
            }
        }
        return parse_anytls_url_ipv6_zone(raw_url);
    }
    match parse_url(raw_url) {
        Ok(parts) => {
            proof {
                assert forall|c: ConfigView|
                    survives(c) && raw_url@ == #[trigger] config_url(c) implies (url_config(
                    raw_url@,
                ) matches Ok(read) && agree(read, c)) by {
                    plain_urls_are_written_from_parts(c);
                    assert(raw_url@ == written_url(written_parts(c)));
                    plain_url_round_trip(c, parts@);
                }
            }
            config_from_parts(parts)
        },
        Err(e) => {
            proof {
                assert forall|c: ConfigView| raw_url@ == #[trigger] config_url(c) implies !survives(
                    c,
                ) by {
                    if survives(c) {
                        plain_urls_are_written_from_parts(c);
                        assert(raw_url@ == written_url(written_parts(c)));
                    }
                }
            }
            Err(UrlError::Malformed(e))
        },
    }
}

/// `s` with `%25` for every percent sign.
pub open spec fn percent_escaped(s: Seq<char>) -> Seq<char>
    decreases s.len(),
{
    if s.len() == 0 {
        Seq::empty()
    } else {
        percent_escaped(s.drop_last()) + if s.last() == '%' {
            "%25"@
        } else {
            seq![s.last()]
        }
    }
}

/// The host and port of a server in a URL: whatever holds a colon stands in square brackets,
/// and the default port is left out.
pub open spec fn url_authority(a: AddressView) -> Seq<char> {
    let host = percent_escaped(host_text(a));
    let shown = if a is Ipv6Address || host.contains(':') {
        bracketed(host)
    } else {
        host
    };
    if port_of(a) == DEFAULT_PORT {
        shown
    } else {
        host_and_port(shown, port_of(a))
    }
}

/// The query of a URL.
pub open spec fn url_query(c: ConfigView) -> Seq<char> {
    let none = Seq::<char>::empty();
    let sni = match c.sni {
        Some(sni) => pair_appended(none, "sni"@, sni),
        None => none,
    };
    let insecure = if c.insecure {
        pair_appended(sni, "insecure"@, "1"@)
    } else {
        sni
    };
    match c.client_id {
        Some(id) => pair_appended(insecure, "client_id"@, uuid_text(id)),
        None => insecure,
    }
}

/// The URL that holds a configuration.
pub open spec fn config_url(c: ConfigView) -> Seq<char> {
    let query = url_query(c);
    "anytls://"@ + (if c.password.len() > 0 {
        percent_encoded(UrlPart::Userinfo, encode_utf8(c.password)) + seq!['@']
    } else {
        Seq::empty()
    }) + url_authority(c.server) + (if query.len() > 0 {
        "/?"@ + query
    } else {
        Seq::empty()
    }) + match c.display_name {
        Some(name) => seq!['#'] + percent_encoded(UrlPart::Fragment, encode_utf8(name)),
        None => Seq::empty(),
    }
}

/// `value` as the credential of a URL.
pub fn percent_encode_userinfo(value: &str) -> (s: String)
    ensures
        s@ == percent_encoded(UrlPart::Userinfo, encode_utf8(value@)),
{
    percent_encode(UrlPart::Userinfo, value)
}

/// `value` as the label of a URL.
pub fn percent_encode_fragment(value: &str) -> (s: String)
    ensures
        s@ == percent_encoded(UrlPart::Fragment, encode_utf8(value@)),
{
    percent_encode(UrlPart::Fragment, value)
}

fn escape_percent(text: &str) -> (s: String)
    ensures
        s@ == percent_escaped(text@),
{
    let chars = chars_of(text);
    let mut s = String::new();
    let mut i: usize = 0;
    assert(s@ =~= percent_escaped(chars@.take(0)));
    while i < chars.len()
        invariant
            i <= chars@.len(),
            s@ == percent_escaped(chars@.take(i as int)),
        decreases chars@.len() - i,
    {
        let ghost before = s@;
        assert(chars@.take(i + 1).drop_last() =~= chars@.take(i as int));
        if chars[i] == '%' {
            s.append("%25");
        } else {
            s.push(chars[i]);
            assert(s@ =~= before + seq![chars@[i as int]]);
        }
        i += 1;
    }
    assert(chars@.take(i as int) =~= text@);
    s
}

fn authority_in_url(server: &Address) -> (s: String)
    ensures
        s@ == url_authority(server@),
{
    let host = server.domain();
    let host = escape_percent(host.as_str());
    let shown = if server.is_ipv6() || has_char(host.as_str(), ':') {
        in_brackets(host.as_str())
    } else {
        host
    };
    if server.port() == DEFAULT_PORT {
        shown
    } else {
        with_port(shown, server.port())
    }
}

impl ClientRuntimeConfig {
    /// The server as the authority of a URL.
    pub fn authority(&self) -> (s: String)
        ensures
            s@ == authority_text(self.server@),
    {
        format_authority(&self.server)
    }

    /// The name that the server has to show a certificate for: the one that is asked for, or else
    /// its host.
    pub fn server_name(&self) -> (s: String)
        ensures
            s@ == match self@.sni {
                Some(sni) => sni,
                None => host_text(self@.server),
            },
    {
        match &self.sni {
            Some(sni) => sni.clone(),
            None => self.server.domain(),
        }
    }

    fn query_in_url(&self) -> (query: String)
        ensures
            query@ == url_query(self@),
            reads_back(self@.client_id),
    {
        let mut query = String::new();
        assert(query@ =~= Seq::<char>::empty());
        if let Some(sni) = &self.sni {
            query = append_pair(query, "sni", sni.as_str());
        }
        if self.insecure {
            query = append_pair(query, "insecure", "1");
        }
        if let Some(client_id) = &self.client_id {
            let id = uuid_to_text(client_id);
            query = append_pair(query, "client_id", id.as_str());
        }
        query
    }

    /// The URL that holds this configuration. The client id in it can be read back.
    pub fn to_anytls_url(&self) -> (uri: String)
        ensures
            uri@ == config_url(self@),
            reads_back(self@.client_id),
    {
        let mut uri = "anytls://".to_owned();
        let open = self.password.as_str().is_empty();
        assert(open == (self.password@.len() == 0));
        if !open {
            let credential = percent_encode_userinfo(self.password.as_str());
            uri.append(credential.as_str());
            uri.push('@');
        }
        let ghost credential = if self@.password.len() > 0 {
            percent_encoded(UrlPart::Userinfo, encode_utf8(self@.password)) + seq!['@']
        } else {
            Seq::empty()
        };
        assert(uri@ =~= "anytls://"@ + credential);
        let authority = authority_in_url(&self.server);
        uri.append(authority.as_str());
        let query = self.query_in_url();
        let plain = query.as_str().is_empty();
        assert(plain == (query@.len() == 0));
        if !plain {
            uri.append("/?");
            uri.append(query.as_str());
        }
        let ghost middle = if query@.len() > 0 {
            "/?"@ + query@
        } else {
            Seq::empty()
        };
        assert(uri@ =~= "anytls://"@ + credential + authority@ + middle);
        if let Some(display_name) = &self.display_name {
            uri.push('#');
            let label = percent_encode_fragment(display_name.as_str());
            uri.append(label.as_str());
        }
        assert(uri@ =~= config_url(self@));
        uri
    }
}

} // verus!
