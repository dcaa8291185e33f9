//! UDP packets inside a stream.
//!
//! A client opens a stream to a sentinel destination and sends a request: a mode byte and an
//! address. In datagram mode every packet carries its own destination; in connected mode the
//! destination of the request holds for all of them.
use crate::address::{
    address_bytes, address_round_trip, front_address, is_writable, Address, AddressView,
};
use crate::error::{ErrorKind, IoError};
use crate::text::{decimal, push_decimal, text_eq};
use crate::wire;
use vstd::prelude::*;
use vstd::slice::{slice_subrange, slice_to_vec};
use vstd::std_specs::convert::FromSpecImpl;

verus! {

/// The name of the destination that announces UDP packets.
pub const V2_MAGIC_ADDRESS: &'static str = "sp.v2.udp-over-tcp.arpa";

/// How the packets of a stream are addressed.
#[derive(Clone, Copy, Debug, PartialEq, Eq, Structural)]
pub enum UotMode {
    /// Every packet carries its destination.
    Datagram,
    /// All packets go to the destination of the request.
    Connected,
}

/// The byte for a mode.
pub open spec fn mode_byte(mode: UotMode) -> u8 {
    match mode {
        UotMode::Datagram => 0,
        UotMode::Connected => 1,
    }
}

impl UotMode {
    /// The mode for a byte.
    pub fn try_from(value: u8) -> (r: Result<UotMode, IoError>)
        ensures
            match r {
                Ok(mode) => value == mode_byte(mode),
                Err(e) => value > 1 && e@ == (
                    ErrorKind::InvalidData,
                    "invalid UOT mode: "@ + decimal(value as nat),
                ),
            },
    {
        match value {
            0 => Ok(UotMode::Datagram),
            1 => Ok(UotMode::Connected),
            other => {
                let mut message = "invalid UOT mode: ".to_owned();
                push_decimal(&mut message, other as u64);
                Err(IoError { kind: ErrorKind::InvalidData, message })
            },
        }
    }
}

impl FromSpecImpl<UotMode> for u8 {
    open spec fn obeys_from_spec() -> bool {
        true
    }

    open spec fn from_spec(mode: UotMode) -> u8 {
        mode_byte(mode)
    }
}

impl From<UotMode> for u8 {
    fn from(mode: UotMode) -> (b: u8) {
        match mode {
            UotMode::Datagram => 0,
            UotMode::Connected => 1,
        }
    }
}

/// What a client asks for at the start of a stream of packets.
#[derive(Debug)]
pub struct UotRequest {
    pub mode: UotMode,
    pub destination: Address,
}

impl Clone for UotRequest {
    fn clone(&self) -> (r: UotRequest)
        ensures
            r.mode == self.mode,
            r.destination@ == self.destination@,
    {
        UotRequest { mode: self.mode, destination: self.destination.clone() }
    }
}

impl UotRequest {
    /// A request for packets to `destination`.
    pub fn new(mode: UotMode, destination: Address) -> (r: UotRequest)
        ensures
            r.mode == mode,
            r.destination == destination,
    {
        UotRequest { mode, destination }
    }
}

/// The destination that announces UDP packets.
pub fn request_destination() -> (a: Address)
    ensures
        a@ == AddressView::DomainAddress(V2_MAGIC_ADDRESS@, 0),
{
    Address::DomainAddress(V2_MAGIC_ADDRESS.to_owned(), 0)
}

/// Whether `a` announces UDP packets.
pub open spec fn announces_packets(a: AddressView) -> bool {
    a matches AddressView::DomainAddress(name, _) && name == V2_MAGIC_ADDRESS@
}

/// Whether `address` announces UDP packets.
pub fn is_request_destination(address: &Address) -> (r: bool)
    ensures
        r == announces_packets(address@),
{
    match address {
        Address::DomainAddress(name, _) => text_eq(name.as_str(), V2_MAGIC_ADDRESS),
        _ => false,
    }
}

/// The destination that announces UDP packets.
pub fn uot_sentinel_destination() -> (a: Address)
    ensures
        a@ == AddressView::DomainAddress(V2_MAGIC_ADDRESS@, 0),
{
    request_destination()
}

/// Whether `address` announces UDP packets.
pub fn uot_is_sentinel_destination(address: &Address) -> (r: bool)
    ensures
        r == announces_packets(address@),
{
    is_request_destination(address)
}

/// The bytes of a request.
pub open spec fn request_bytes(mode: UotMode, destination: AddressView) -> Seq<u8> {
    seq![mode_byte(mode)] + address_bytes(destination)
}

/// The bytes of a packet that carries its destination.
pub open spec fn datagram_bytes(destination: AddressView, payload: Seq<u8>) -> Seq<u8> {
    address_bytes(destination) + connected_bytes(payload)
}

/// The bytes of a packet that does not carry its destination.
pub open spec fn connected_bytes(payload: Seq<u8>) -> Seq<u8> {
    wire::u16_be(payload.len() as u16) + payload
}

/// The bytes of `request`.
pub fn encode_request(request: &UotRequest) -> (v: Vec<u8>)
    requires
        is_writable(request.destination@),
    ensures
        v@ == request_bytes(request.mode, request.destination@),
{
    let destination = request.destination.to_bytes();
    let mut buf = wire::buffer_with_capacity(destination.len().saturating_add(1));
    wire::put_u8(&mut buf, u8::from(request.mode));
    wire::put_slice(&mut buf, destination.as_slice());
    assert(wire::buffered(buf) =~= request_bytes(request.mode, request.destination@));
    buffer_to_vec(buf)
}

/// The bytes of a buffer.
fn buffer_to_vec(buf: bytes::BytesMut) -> (v: Vec<u8>)
    ensures
        v@ == wire::buffered(buf),
{
    let frozen = wire::freeze(buf);
    let v = slice_to_vec(wire::bytes_as_slice(&frozen));
    assert(v@ =~= wire::content(frozen));
    v
}

/// The request at the front of `s` and how many bytes it takes, or why there is none.
pub open spec fn front_request(s: Seq<u8>) -> Result<((UotMode, AddressView), nat), ErrorKind> {
    if s.len() == 0 {
        Err(ErrorKind::UnexpectedEof)
    } else if s[0] > 1 {
        Err(ErrorKind::InvalidData)
    } else {
        let mode = if s[0] == 0 {
            UotMode::Datagram
        } else {
            UotMode::Connected
        };
        match front_address(s.skip(1)) {
            Ok((a, n)) => Ok(((mode, a), n + 1)),
            Err(kind) => Err(kind),
        }
    }
}

/// The payload at the front of `s`, behind its length, and how many bytes both take.
pub open spec fn front_payload(s: Seq<u8>) -> Result<(Seq<u8>, nat), ErrorKind> {
    if s.len() < 2 || s.len() < 2 + wire::be_u16(s) {
        Err(ErrorKind::UnexpectedEof)
    } else {
        Ok((s.subrange(2, 2 + wire::be_u16(s)), (2 + wire::be_u16(s)) as nat))
    }
}

/// The packet with its destination at the front of `s` and how many bytes it takes, or why
/// there is none.
pub open spec fn front_datagram(s: Seq<u8>) -> Result<((AddressView, Seq<u8>), nat), ErrorKind> {
    match front_address(s) {
        Ok((a, n)) => match front_payload(s.skip(n as int)) {
            Ok((payload, m)) => Ok(((a, payload), n + m)),
            Err(kind) => Err(kind),
        },
        Err(kind) => Err(kind),
    }
}

/// Reads the request at the front of `data`, and says how many bytes it takes. Data that ends
/// too early is reported as an unexpected end.
pub fn read_request(data: &[u8]) -> (r: Result<(UotRequest, usize), ErrorKind>)
    ensures
        match r {
            Ok((request, n)) => front_request(data@) == Ok::<
                ((UotMode, AddressView), nat),
                ErrorKind,
            >(((request.mode, request.destination@), n as nat)),
            Err(kind) => front_request(data@) == Err::<((UotMode, AddressView), nat), ErrorKind>(
                kind,
            ),
        },
{
    if data.len() == 0 {
        return Err(ErrorKind::UnexpectedEof);
    }
    let mode = match UotMode::try_from(data[0]) {
        Ok(mode) => mode,
        Err(e) => {
            return Err(e.kind);
        },
    };
    let rest = slice_subrange(data, 1, data.len());
    assert(rest@ =~= data@.skip(1));
    match Address::from_bytes(rest) {
        Ok((destination, n)) => {
            proof {
                crate::address::read_addresses_are_writable(rest@);
            }
            Ok((UotRequest { mode, destination }, n + 1))
        },
        Err(kind) => Err(kind),
    }
}

/// The bytes of a packet to `destination`. A payload that the length field cannot announce is
/// refused.
pub fn encode_datagram_packet(destination: &Address, payload: &[u8]) -> (r: Result<Vec<u8>, IoError>)
    requires
        payload@.len() <= u16::MAX ==> is_writable(destination@),
    ensures
        match r {
            Ok(v) => payload@.len() <= u16::MAX && v@ == datagram_bytes(destination@, payload@),
            Err(e) => payload@.len() > u16::MAX && e@ == (
                ErrorKind::InvalidInput,
                "UOT packet too large"@,
            ),
        },
{
    if payload.len() > 0xffff {
        return Err(IoError::new(ErrorKind::InvalidInput, "UOT packet too large"));
    }
    let address = destination.to_bytes();
    let capacity: usize = address.len().saturating_add(payload.len()).saturating_add(2);
    let mut buf = wire::buffer_with_capacity(capacity);
    wire::put_slice(&mut buf, address.as_slice());
    wire::put_u16(&mut buf, payload.len() as u16);
    wire::put_slice(&mut buf, payload);
    assert(wire::buffered(buf) =~= datagram_bytes(destination@, payload@));
    Ok(buffer_to_vec(buf))
}

/// The bytes of a packet in connected mode. A payload that the length field cannot announce is
/// refused.
pub fn encode_connected_packet(payload: &[u8]) -> (r: Result<Vec<u8>, IoError>)
    ensures
        match r {
            Ok(v) => payload@.len() <= u16::MAX && v@ == connected_bytes(payload@),
            Err(e) => payload@.len() > u16::MAX && e@ == (
                ErrorKind::InvalidInput,
                "UOT packet too large"@,
            ),
        },
{
    if payload.len() > 0xffff {
        return Err(IoError::new(ErrorKind::InvalidInput, "UOT packet too large"));
    }
    let mut buf = wire::buffer_with_capacity(payload.len().saturating_add(2));
    wire::put_u16(&mut buf, payload.len() as u16);
    wire::put_slice(&mut buf, payload);
    assert(wire::buffered(buf) =~= connected_bytes(payload@));
    Ok(buffer_to_vec(buf))
}

/// Reads the packet in connected mode at the front of `data`, and says how many bytes it takes.
/// Data that ends too early is reported as an unexpected end.
pub fn read_connected_packet(data: &[u8]) -> (r: Result<(Vec<u8>, usize), ErrorKind>)
    ensures
        match r {
            Ok((payload, n)) => front_payload(data@) == Ok::<(Seq<u8>, nat), ErrorKind>(
                (payload@, n as nat),
            ),
            Err(kind) => front_payload(data@) == Err::<(Seq<u8>, nat), ErrorKind>(kind),
        },
{
    if data.len() < 2 {
        return Err(ErrorKind::UnexpectedEof);
    }
    let mut rest = data;
    let len: usize = wire::get_u16(&mut rest) as usize;
    if rest.len() < len {
        return Err(ErrorKind::UnexpectedEof);
    }
    let payload = slice_to_vec(slice_subrange(rest, 0, len));
    assert(payload@ =~= data@.subrange(2, 2 + len));
    Ok((payload, len + 2))
}

/// Reads the packet with its destination at the front of `data`, and says how many bytes it
/// takes. Data that ends too early is reported as an unexpected end.
pub fn read_datagram_packet(data: &[u8]) -> (r: Result<((Address, Vec<u8>), usize), ErrorKind>)
    ensures
        match r {
            Ok(((destination, payload), n)) => front_datagram(data@) == Ok::<
                ((AddressView, Seq<u8>), nat),
                ErrorKind,
            >(((destination@, payload@), n as nat)),
            Err(kind) => front_datagram(data@) == Err::<((AddressView, Seq<u8>), nat), ErrorKind>(
                kind,
            ),
        },
{
    match Address::from_bytes(data) {
        Ok((destination, n)) => {
            proof {
                crate::address::read_addresses_are_writable(data@);
            }
            let rest = slice_subrange(data, n, data.len());
            assert(rest@ =~= data@.skip(n as int));
            match read_connected_packet(rest) {
                Ok((payload, m)) => Ok(((destination, payload), n + m)),
                Err(kind) => Err(kind),
            }
        },
        Err(kind) => Err(kind),
    }
}

/// The bytes of a packet. In connected mode a packet has no destination of its own, and in
/// datagram mode it has to have one.
pub fn uot_encode_packet(mode: UotMode, destination: Option<&Address>, payload: &[u8]) -> (r:
    Result<Vec<u8>, IoError>)
    requires
        mode is Datagram && payload@.len() <= u16::MAX ==> (destination matches Some(a)
            ==> is_writable(a@)),
    ensures
        match (mode, destination) {
            (UotMode::Datagram, Some(a)) => match r {
                Ok(v) => payload@.len() <= u16::MAX && v@ == datagram_bytes(a@, payload@),
                Err(e) => payload@.len() > u16::MAX && e@ == (
                    ErrorKind::InvalidInput,
                    "UOT packet too large"@,
                ),
            },
            (UotMode::Connected, None) => match r {
                Ok(v) => payload@.len() <= u16::MAX && v@ == connected_bytes(payload@),
                Err(e) => payload@.len() > u16::MAX && e@ == (
                    ErrorKind::InvalidInput,
                    "UOT packet too large"@,
                ),
            },
            (UotMode::Connected, Some(_)) => r matches Err(e) && e@ == (
                ErrorKind::InvalidInput,
                "connected UOT packets carry no destination"@,
            ),
            (UotMode::Datagram, None) => r matches Err(e) && e@ == (
                ErrorKind::InvalidInput,
                "datagram UOT packets need a destination"@,
            ),
        },
{
    match (mode, destination) {
        (UotMode::Datagram, Some(a)) => encode_datagram_packet(a, payload),
        (UotMode::Connected, None) => encode_connected_packet(payload),
        (UotMode::Connected, Some(_)) => Err(
            IoError::new(ErrorKind::InvalidInput, "connected UOT packets carry no destination"),
        ),
        (UotMode::Datagram, None) => Err(
            IoError::new(ErrorKind::InvalidInput, "datagram UOT packets need a destination"),
        ),
    }
}

/// Reads the request at the front of `data`, and says how many bytes it takes.
pub fn uot_get_request_from_stream(data: &[u8]) -> (r: Result<(UotRequest, usize), ErrorKind>)
    ensures
        match r {
            Ok((request, n)) => front_request(data@) == Ok::<
                ((UotMode, AddressView), nat),
                ErrorKind,
            >(((request.mode, request.destination@), n as nat)),
            Err(kind) => front_request(data@) == Err::<((UotMode, AddressView), nat), ErrorKind>(
                kind,
            ),
        },
{
    read_request(data)
}

/// The mathematical value of an optional address.
pub open spec fn optional_address(a: Option<Address>) -> Option<AddressView> {
    match a {
        Some(a) => Some(a@),
        None => None,
    }
}

/// The packet at the front of `s` and how many bytes it takes, or why there is none. In datagram
/// mode a packet carries its destination.
pub open spec fn front_packet(mode: UotMode, s: Seq<u8>) -> Result<
    ((Option<AddressView>, Seq<u8>), nat),
    ErrorKind,
> {
    match mode {
        UotMode::Datagram => match front_datagram(s) {
            Ok(((a, payload), n)) => Ok(((Some(a), payload), n)),
            Err(kind) => Err(kind),
        },
        UotMode::Connected => match front_payload(s) {
            Ok((payload, n)) => Ok(((None, payload), n)),
            Err(kind) => Err(kind),
        },
    }
}

/// Reads the packet at the front of `data`, and says how many bytes it takes.
pub fn uot_get_packet_from_stream(mode: UotMode, data: &[u8]) -> (r: Result<
    ((Option<Address>, Vec<u8>), usize),
    ErrorKind,
>)
    ensures
        match r {
            Ok(((destination, payload), n)) => front_packet(mode, data@) == Ok::<
                ((Option<AddressView>, Seq<u8>), nat),
                ErrorKind,
            >(((optional_address(destination), payload@), n as nat)),
            Err(kind) => front_packet(mode, data@) == Err::<
                ((Option<AddressView>, Seq<u8>), nat),
                ErrorKind,
            >(kind),
        },
{
    match mode {
        UotMode::Datagram => match read_datagram_packet(data) {
            Ok(((destination, payload), n)) => Ok(((Some(destination), payload), n)),
            Err(kind) => Err(kind),
        },
        UotMode::Connected => match read_connected_packet(data) {
            Ok((payload, n)) => Ok(((None, payload), n)),
            Err(kind) => Err(kind),
        },
    }
}

/// Reading back an encoded request gives the request, whatever follows it.
pub proof fn request_round_trip(mode: UotMode, destination: AddressView, rest: Seq<u8>)
    requires
        is_writable(destination),
    ensures
        front_request(request_bytes(mode, destination) + rest) == Ok::<
            ((UotMode, AddressView), nat),
            ErrorKind,
        >(((mode, destination), request_bytes(mode, destination).len())),
{
    let s = request_bytes(mode, destination) + rest;
    assert(s.skip(1) =~= address_bytes(destination) + rest);
    address_round_trip(destination, rest);
}

/// Reading back an encoded packet in connected mode gives its payload, whatever follows it.
pub proof fn connected_packet_round_trip(payload: Seq<u8>, rest: Seq<u8>)
    requires
        payload.len() <= u16::MAX,
    ensures
        front_payload(connected_bytes(payload) + rest) == Ok::<(Seq<u8>, nat), ErrorKind>(
            (payload, connected_bytes(payload).len()),
        ),
{
    let s = connected_bytes(payload) + rest;
    assert(s =~= wire::u16_be(payload.len() as u16) + (payload + rest));
    wire::u16_round_trip(payload.len() as u16, payload + rest);
    assert(s.subrange(2, 2 + payload.len() as int) =~= payload);
}

/// Reading back an encoded packet with its destination gives both, whatever follows it.
pub proof fn datagram_packet_round_trip(
    destination: AddressView,
    payload: Seq<u8>,
    rest: Seq<u8>,
)
    requires
        is_writable(destination),
        payload.len() <= u16::MAX,
    ensures
        front_datagram(datagram_bytes(destination, payload) + rest) == Ok::<
            ((AddressView, Seq<u8>), nat),
            ErrorKind,
        >(((destination, payload), datagram_bytes(destination, payload).len())),
{
    let s = datagram_bytes(destination, payload) + rest;
    let tail = connected_bytes(payload) + rest;
    let n = address_bytes(destination).len();
    assert(s =~= address_bytes(destination) + tail);
    address_round_trip(destination, tail);
    assert(s.skip(n as int) =~= tail);
    connected_packet_round_trip(payload, rest);
}

} // verus!
