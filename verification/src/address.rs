//! Addresses of destinations, as SOCKS5 writes them.
use crate::error::ErrorKind;
use crate::text::{char_position, chars_of, decimal, position_bounds, push_decimal, string_from_utf8};
use crate::wire;
use socks5_impl::protocol;
use socks5_impl::protocol::StreamOperation;
use vstd::prelude::*;
use vstd::slice::{slice_subrange, slice_to_vec};
use vstd::utf8::{
    decode_utf8, decode_utf8_encode_utf8, encode_utf8, encode_utf8_decode_utf8,
    encode_utf8_valid_utf8, valid_utf8,
};

verus! {

/// A host and a port.
#[derive(Debug)]
pub enum Address {
    /// A host by its IPv4 address.
    Ipv4Address([u8; 4], u16),
    /// A host by its IPv6 address.
    Ipv6Address([u8; 16], u16),
    /// A host by its name.
    DomainAddress(String, u16),
}

/// The mathematical value of an [`Address`].
pub enum AddressView {
    Ipv4Address(Seq<u8>, u16),
    Ipv6Address(Seq<u8>, u16),
    DomainAddress(Seq<char>, u16),
}

impl View for Address {
    type V = AddressView;

    open spec fn view(&self) -> AddressView {
        match self {
            Address::Ipv4Address(ip, port) => AddressView::Ipv4Address(ip@, *port),
            Address::Ipv6Address(ip, port) => AddressView::Ipv6Address(ip@, *port),
            Address::DomainAddress(name, port) => AddressView::DomainAddress(name@, *port),
        }
    }
}

impl Clone for Address {
    fn clone(&self) -> (a: Address)
        ensures
            a@ == self@,
    {
        match self {
            Address::Ipv4Address(ip, port) => Address::Ipv4Address(*ip, *port),
            Address::Ipv6Address(ip, port) => Address::Ipv6Address(*ip, *port),
            Address::DomainAddress(name, port) => Address::DomainAddress(name.clone(), *port),
        }
    }
}

/// Whether `a` can be written: its IP address has the right length, and its name fits the
/// length byte.
pub open spec fn is_writable(a: AddressView) -> bool {
    match a {
        AddressView::Ipv4Address(ip, _) => ip.len() == 4,
        AddressView::Ipv6Address(ip, _) => ip.len() == 16,
        AddressView::DomainAddress(name, _) => encode_utf8(name).len() <= 255,
    }
}

/// The bytes of `a`: its type, then the IP address or the length and the name, then the port.
pub open spec fn address_bytes(a: AddressView) -> Seq<u8> {
    match a {
        AddressView::Ipv4Address(ip, port) => seq![1u8] + ip + wire::u16_be(port),
        AddressView::Ipv6Address(ip, port) => seq![4u8] + ip + wire::u16_be(port),
        AddressView::DomainAddress(name, port) => seq![3u8, encode_utf8(name).len() as u8]
            + encode_utf8(name) + wire::u16_be(port),
    }
}

/// The port that stands at `i`.
pub open spec fn port_at(s: Seq<u8>, i: int) -> u16 {
    wire::be_u16(s.skip(i)) as u16
}

/// The address at the front of `s` and how many bytes it takes, or why there is none: `s` ends
/// before it does, its type is unknown, or its name is not UTF-8.
pub open spec fn front_address(s: Seq<u8>) -> Result<(AddressView, nat), ErrorKind> {
    if s.len() == 0 {
        Err(ErrorKind::UnexpectedEof)
    } else if s[0] == 1 {
        if s.len() < 7 {
            Err(ErrorKind::UnexpectedEof)
        } else {
            Ok((AddressView::Ipv4Address(s.subrange(1, 5), port_at(s, 5)), 7))
        }
    } else if s[0] == 4 {
        if s.len() < 19 {
            Err(ErrorKind::UnexpectedEof)
        } else {
            Ok((AddressView::Ipv6Address(s.subrange(1, 17), port_at(s, 17)), 19))
        }
    } else if s[0] == 3 {
        if s.len() < 2 || s.len() < 4 + s[1] {
            Err(ErrorKind::UnexpectedEof)
        } else {
            let name = s.subrange(2, 2 + s[1]);
            if valid_utf8(name) {
                Ok(
                    (
                        AddressView::DomainAddress(decode_utf8(name), port_at(s, 2 + s[1])),
                        (4 + s[1]) as nat,
                    ),
                )
            } else {
                Err(ErrorKind::InvalidData)
            }
        }
    } else {
        Err(ErrorKind::InvalidInput)
    }
}

/// `socks5_impl::protocol::Address::write_to_buf` by way of its conversion to bytes: the type
/// of the address, the IP address or the length and the name, and the port.
#[verifier::external_body]
fn write_address(a: &Address) -> (v: Vec<u8>)
    requires
        is_writable(a@),
    ensures
        v@ == address_bytes(a@),
{
    let address = match a {
        Address::Ipv4Address(ip, port) => protocol::Address::SocketAddress((*ip, *port).into()),
        Address::Ipv6Address(ip, port) => protocol::Address::SocketAddress((*ip, *port).into()),
        Address::DomainAddress(name, port) => {
            protocol::Address::DomainAddress(name.as_str().into(), *port)
        },
    };
    address.into()
}

/// `socks5_impl::protocol::Address::retrieve_from_stream`: reads the address at the front of
/// `data` and gives back its bytes, or the kind of the error.
#[verifier::external_body]
fn retrieve_address(data: &[u8]) -> (r: Result<Vec<u8>, ErrorKind>)
    ensures
        match r {
            Ok(v) => front_address(data@) matches Ok((_, n)) && v@ == data@.take(n as int),
            Err(kind) => front_address(data@) == Err::<(AddressView, nat), ErrorKind>(kind),
        },
{
    let mut rest = data;
    match protocol::Address::retrieve_from_stream(&mut rest) {
        Ok(address) => Ok(address.into()),
        Err(e) => Err(match e.kind() {
            std::io::ErrorKind::UnexpectedEof => ErrorKind::UnexpectedEof,
            std::io::ErrorKind::InvalidData => ErrorKind::InvalidData,
            _ => ErrorKind::InvalidInput,
        }),
    }
}

/// The text of the IPv6 address `ip`.
pub uninterp spec fn ipv6_text(ip: Seq<u8>) -> Seq<char>;

/// `socks5_impl::protocol::Address::domain` on an IPv6 address: the text of the address.
#[verifier::external_body]
fn ipv6_to_text(ip: &[u8; 16]) -> (s: String)
    ensures
        s@ == ipv6_text(ip@),
{
    protocol::Address::SocketAddress((*ip, 0).into()).domain()
}

/// The text of the IPv4 address `ip`.
pub open spec fn ipv4_text(ip: Seq<u8>) -> Seq<char> {
    decimal(ip[0] as nat) + seq!['.'] + decimal(ip[1] as nat) + seq!['.'] + decimal(ip[2] as nat)
        + seq!['.'] + decimal(ip[3] as nat)
}

/// The host of `a` as text.
pub open spec fn host_text(a: AddressView) -> Seq<char> {
    match a {
        AddressView::Ipv4Address(ip, _) => ipv4_text(ip),
        AddressView::Ipv6Address(ip, _) => ipv6_text(ip),
        AddressView::DomainAddress(name, _) => name,
    }
}

/// The port of `a`.
pub open spec fn port_of(a: AddressView) -> u16 {
    match a {
        AddressView::Ipv4Address(_, port) => port,
        AddressView::Ipv6Address(_, port) => port,
        AddressView::DomainAddress(_, port) => port,
    }
}

/// A host and a port with a colon between them.
pub open spec fn host_and_port(host: Seq<char>, port: u16) -> Seq<char> {
    host + seq![':'] + decimal(port as nat)
}

/// A host in square brackets.
pub open spec fn bracketed(host: Seq<char>) -> Seq<char> {
    seq!['['] + host + seq![']']
}

/// `a` as text: an IPv6 address stands in square brackets.
pub open spec fn address_text(a: AddressView) -> Seq<char> {
    host_and_port(
        if a is Ipv6Address {
            bracketed(host_text(a))
        } else {
            host_text(a)
        },
        port_of(a),
    )
}

/// `a` as the authority of a URL: whatever holds a colon stands in square brackets.
pub open spec fn authority_text(a: AddressView) -> Seq<char> {
    host_and_port(
        if a is Ipv6Address || (a is DomainAddress && host_text(a).contains(':')) {
            bracketed(host_text(a))
        } else {
            host_text(a)
        },
        port_of(a),
    )
}

/// Whether `c` occurs in `s`.
pub(crate) fn has_char(s: &str, c: char) -> (r: bool)
    ensures
        r == s@.contains(c),
{
    let chars = chars_of(s);
    let i: usize = char_position(chars.as_slice(), c);
    proof {
        position_bounds(s@, c);
        if i < s@.len() {
            assert(s@.contains(s@[i as int]));
        }
    }
    i < chars.len()
}

/// `host` in square brackets.
pub(crate) fn in_brackets(host: &str) -> (s: String)
    ensures
        s@ == bracketed(host@),
{
    let mut s = String::new();
    s.push('[');
    s.append(host);
    s.push(']');
    assert(s@ =~= bracketed(host@));
    s
}

/// `host` and `port` with a colon between them.
pub(crate) fn with_port(host: String, port: u16) -> (s: String)
    ensures
        s@ == host_and_port(host@, port),
{
    let mut s = host;
    s.push(':');
    push_decimal(&mut s, port as u64);
    assert(s@ =~= host_and_port(host@, port));
    s
}

impl Address {
    /// The address of no host.
    pub fn unspecified() -> (a: Address)
        ensures
            a@ == AddressView::Ipv4Address(seq![0u8, 0, 0, 0], 0),
    {
        let ip: [u8; 4] = [0, 0, 0, 0];
        assert(ip@ =~= seq![0u8, 0, 0, 0]);
        Address::Ipv4Address(ip, 0)
    }

    /// The port.
    pub fn port(&self) -> (p: u16)
        ensures
            p == port_of(self@),
    {
        match self {
            Address::Ipv4Address(_, port) => *port,
            Address::Ipv6Address(_, port) => *port,
            Address::DomainAddress(_, port) => *port,
        }
    }

    /// Whether the host is given by its IPv6 address.
    pub fn is_ipv6(&self) -> (b: bool)
        ensures
            b == self@ is Ipv6Address,
    {
        match self {
            Address::Ipv6Address(_, _) => true,
            _ => false,
        }
    }

    /// The host as text.
    pub fn domain(&self) -> (s: String)
        ensures
            s@ == host_text(self@),
    {
        match self {
            Address::Ipv4Address(ip, _) => {
                let mut s = String::new();
                push_decimal(&mut s, ip[0] as u64);
                s.push('.');
                push_decimal(&mut s, ip[1] as u64);
                s.push('.');
                push_decimal(&mut s, ip[2] as u64);
                s.push('.');
                push_decimal(&mut s, ip[3] as u64);
                assert(s@ =~= ipv4_text(ip@));
                s
            },
            Address::Ipv6Address(ip, _) => ipv6_to_text(ip),
            Address::DomainAddress(name, _) => name.clone(),
        }
    }

    /// The address as text.
    pub fn to_string(&self) -> (s: String)
        ensures
            s@ == address_text(self@),
    {
        let host = self.domain();
        let host = if self.is_ipv6() {
            in_brackets(host.as_str())
        } else {
            host
        };
        with_port(host, self.port())
    }

    /// The bytes of the address.
    pub fn to_bytes(&self) -> (v: Vec<u8>)
        requires
            is_writable(self@),
        ensures
            v@ == address_bytes(self@),
    {
        write_address(self)
    }

    /// The address at the front of `data` and how many bytes it takes.
    pub fn from_bytes(data: &[u8]) -> (r: Result<(Address, usize), ErrorKind>)
        ensures
            match r {
                Ok((a, n)) => front_address(data@) == Ok::<(AddressView, nat), ErrorKind>(
                    (a@, n as nat),
                ),
                Err(kind) => front_address(data@) == Err::<(AddressView, nat), ErrorKind>(kind),
            },
    {
        match retrieve_address(data) {
            Ok(v) => Ok((Self::from_own_bytes(v.as_slice(), data), v.len())),
            Err(kind) => Err(kind),
        }
    }

    fn from_own_bytes(v: &[u8], data: &[u8]) -> (a: Address)
        requires
            front_address(data@) matches Ok((_, n)) && v@ == data@.take(n as int),
        ensures
            front_address(data@) matches Ok((expected, _)) && a@ == expected,
    {
        let n: usize = v.len();
        let port: u16 = wire::u16_from_be(v[n - 2], v[n - 1]);
        assert(port == port_at(data@, n - 2)) by {
            assert(data@.skip(n - 2)[0] == v@[n - 2] && data@.skip(n - 2)[1] == v@[n - 1]);
        }
        if v[0] == 1 {
            let ip: [u8; 4] = [v[1], v[2], v[3], v[4]];
            assert(ip@ =~= data@.subrange(1, 5));
            Address::Ipv4Address(ip, port)
        } else if v[0] == 4 {
            let ip: [u8; 16] = [
                v[1], v[2], v[3], v[4], v[5], v[6], v[7], v[8], v[9], v[10], v[11], v[12], v[13],
                v[14], v[15], v[16],
            ];
            assert(ip@ =~= data@.subrange(1, 17));
            Address::Ipv6Address(ip, port)
        } else {
            let name = slice_to_vec(slice_subrange(v, 2, n - 2));
            assert(name@ =~= data@.subrange(2, 2 + data@[1]));
            match string_from_utf8(name) {
                Some(text) => Address::DomainAddress(text, port),
                None => Address::DomainAddress(String::new(), port),
            }
        }
    }
}

/// `address` as the authority of a URL.
pub fn format_authority(address: &Address) -> (s: String)
    ensures
        s@ == authority_text(address@),
{
    match address {
        Address::DomainAddress(name, port) => {
            let host = if has_char(name.as_str(), ':') {
                in_brackets(name.as_str())
            } else {
                name.clone()
            };
            with_port(host, *port)
        },
        _ => address.to_string(),
    }
}

/// Reading a written address gives the address back, whatever follows it.
pub proof fn address_round_trip(a: AddressView, rest: Seq<u8>)
    requires
        is_writable(a),
    ensures
        front_address(address_bytes(a) + rest) == Ok::<(AddressView, nat), ErrorKind>(
            (a, address_bytes(a).len()),
        ),
{
    let s = address_bytes(a) + rest;
    let n = address_bytes(a).len() as int;
    let port = port_of(a);
    assert(s.skip(n - 2) =~= wire::u16_be(port) + rest);
    wire::u16_round_trip(port, rest);
    match a {
        AddressView::Ipv4Address(ip, _) => {
            assert(s.subrange(1, 5) =~= ip);
        },
        AddressView::Ipv6Address(ip, _) => {
            assert(s.subrange(1, 17) =~= ip);
        },
        AddressView::DomainAddress(name, _) => {
            let bytes = encode_utf8(name);
            assert(s[1] == bytes.len() as u8);
            assert(s.subrange(2, 2 + s[1]) =~= bytes);
            encode_utf8_valid_utf8(name);
            encode_utf8_decode_utf8(name);
        },
    }
}

/// An address that was read can be written, and its bytes are those it was read from.
pub proof fn read_addresses_are_writable(s: Seq<u8>)
    requires
        front_address(s) is Ok,
    ensures
        ({
            let (a, n) = front_address(s)->Ok_0;
            is_writable(a) && n <= s.len() && address_bytes(a) == s.take(n as int)
        }),
{
    let (a, n) = front_address(s)->Ok_0;
    let port = port_of(a);
    wire::u16_bytes_round_trip(port, s.skip(n - 2));
    assert(s.skip(n - 2).take(2) =~= s.subrange(n - 2, n as int));
    if let AddressView::DomainAddress(name, _) = a {
        decode_utf8_encode_utf8(s.subrange(2, 2 + s[1]));
        assert(encode_utf8(name) == s.subrange(2, 2 + s[1]));
    }
    assert(address_bytes(a) =~= s.take(n as int));
}

} // verus!
