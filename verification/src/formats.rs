//! The bytes and the texts of the protocol, spelt out: what stands at which place in a frame, an
//! address, a request for packets and a packet, and how numbers and addresses look as text.
use crate::address::{
    address_bytes, address_text, authority_text, front_address, host_text, ipv6_text, is_writable,
    AddressView,
};
use crate::client::MAX_ATTEMPTS;
use crate::engine::{synack_frame, ACKNOWLEDGING_VERSION};
use crate::error::ErrorKind;
use crate::frame::{
    frame_bytes, front_frame, header_at_front, FrameView, CMD_ALERT, CMD_FIN, CMD_HEART_REQUEST,
    CMD_HEART_RESPONSE, CMD_PSH, CMD_SERVER_SETTINGS, CMD_SETTINGS, CMD_SYN, CMD_SYNACK,
    CMD_UPDATE_PADDING_SCHEME, CMD_WASTE, HEADER_OVERHEAD_SIZE,
};
use crate::server::{front_destination, whole_destination, DestinationView, AUTH_PREAMBLE_LEN};
use crate::session::DEFAULT_SID;
use crate::stream::{fin_frame, push_frame, syn_frame, SYNACK_TIMEOUT_SECS};
use crate::text::{decimal, unsigned_value};
use crate::uot::{
    announces_packets, connected_bytes, datagram_bytes, front_datagram, front_packet, front_payload,
    front_request, request_bytes, UotMode,
};
use crate::users::PASSWORD_HASH_LEN;
use vstd::prelude::*;
use vstd::utf8::{decode_utf8, encode_utf8, valid_utf8};

verus! {

/// Each kind of frame has a number of its own.
pub proof fn commands_have_their_numbers()
    ensures
        CMD_WASTE == 0,
        CMD_SYN == 1,
        CMD_PSH == 2,
        CMD_FIN == 3,
        CMD_SETTINGS == 4,
        CMD_ALERT == 5,
        CMD_UPDATE_PADDING_SCHEME == 6,
        CMD_SYNACK == 7,
        CMD_HEART_REQUEST == 8,
        CMD_HEART_RESPONSE == 9,
        CMD_SERVER_SETTINGS == 10,
{
}

/// The sizes and the limits of the protocol: the header of a frame, the digest of a password and
/// the preamble with which a client authenticates, how often a stream is tried, and how many
/// seconds it may take to be acknowledged.
pub proof fn limits_have_their_numbers()
    ensures
        HEADER_OVERHEAD_SIZE == 7,
        PASSWORD_HASH_LEN == 32,
        AUTH_PREAMBLE_LEN == 34,
        MAX_ATTEMPTS == 3,
        SYNACK_TIMEOUT_SECS == 3,
        ACKNOWLEDGING_VERSION == 2,
        DEFAULT_SID == 1,
{
}

/// The frames of a stream carry its id. The one that opens it and the one that ends a half of it
/// carry nothing else, and the one that acknowledges it carries why it failed, if it did.
pub proof fn stream_frames_carry_their_id(sid: u32, data: Seq<u8>, message: Seq<char>)
    ensures
        syn_frame(sid) == (FrameView { cmd: 1, sid, data: Seq::empty() }),
        push_frame(sid, data) == (FrameView { cmd: 2, sid, data }),
        fin_frame(sid) == (FrameView { cmd: 3, sid, data: Seq::empty() }),
        synack_frame(sid, message).cmd == 7,
        synack_frame(sid, message).sid == sid,
        synack_frame(sid, message).data == encode_utf8(message),
{
}

/// A frame on the wire is its command, the id of its stream in four bytes and the length of its
/// payload in two, the most significant first, and then its payload.
pub proof fn frames_are_laid_out(f: FrameView)
    ensures
        ({
            let s = frame_bytes(f);
            &&& s.len() == 7 + f.data.len()
            &&& s[0] == f.cmd
            &&& s[1] * 16777216 + s[2] * 65536 + s[3] * 256 + s[4] == f.sid
            &&& s[5] * 256 + s[6] == f.data.len() % 65536
            &&& s.skip(7) == f.data
        }),
{
    let s = frame_bytes(f);
    assert(s.skip(7) =~= f.data);
}

/// The frame at the front of `s` is complete once the payload is there that its header
/// announces.
pub proof fn frames_are_complete_with_their_payload(s: Seq<u8>)
    ensures
        s.len() < 7 ==> front_frame(s) is None,
        s.len() >= 7 ==> {
            let n = s[5] * 256 + s[6];
            &&& s.len() < 7 + n ==> front_frame(s) is None
            &&& s.len() >= 7 + n ==> (front_frame(s) matches Some(f) && f.cmd == s[0] && f.sid
                == s[1] * 16777216 + s[2] * 65536 + s[3] * 256 + s[4] && f.data == s.subrange(
                7,
                7 + n,
            ))
            &&& header_at_front(s).0 == s[0]
            &&& header_at_front(s).1 == s[1] * 16777216 + s[2] * 65536 + s[3] * 256 + s[4]
            &&& header_at_front(s).2 == n
        },
{
    if s.len() >= 7 {
        let id = s.skip(1);
        let len = s.skip(5);
        assert(id[0] == s[1] && id[1] == s[2] && id[2] == s[3] && id[3] == s[4]);
        assert(len[0] == s[5] && len[1] == s[6]);
    }
}

/// The bytes of an address that are none of `host` and `port`: what stands before the host.
pub open spec fn address_front(a: AddressView) -> Seq<u8> {
    match a {
        AddressView::Ipv4Address(_, _) => seq![1u8],
        AddressView::Ipv6Address(_, _) => seq![4u8],
        AddressView::DomainAddress(name, _) => seq![3u8, encode_utf8(name).len() as u8],
    }
}

/// The host of an address in bytes.
pub open spec fn host_bytes(a: AddressView) -> Seq<u8> {
    match a {
        AddressView::Ipv4Address(ip, _) => ip,
        AddressView::Ipv6Address(ip, _) => ip,
        AddressView::DomainAddress(name, _) => encode_utf8(name),
    }
}

/// The port of an address.
pub open spec fn port(a: AddressView) -> u16 {
    match a {
        AddressView::Ipv4Address(_, p) => p,
        AddressView::Ipv6Address(_, p) => p,
        AddressView::DomainAddress(_, p) => p,
    }
}

/// An address in bytes is its type, the length of the host if that is a name, the host, and the
/// port, the most significant byte first.
pub proof fn addresses_are_laid_out(a: AddressView)
    requires
        is_writable(a),
    ensures
        ({
            let s = address_bytes(a);
            let front = address_front(a);
            let host = host_bytes(a);
            let n = (front.len() + host.len()) as int;
            &&& s.len() == n + 2
            &&& s.take(front.len() as int) == front
            &&& s.subrange(front.len() as int, n) == host
            &&& s[n] * 256 + s[n + 1] == port(a)
        }),
{
    let s = address_bytes(a);
    let front = address_front(a);
    let host = host_bytes(a);
    assert(s.take(front.len() as int) =~= front);
    assert(s.subrange(front.len() as int, (front.len() + host.len()) as int) =~= host);
}

proof fn addresses_are_read_back(a: AddressView, rest: Seq<u8>)
    requires
        is_writable(a),
    ensures
        front_address(address_bytes(a) + rest) == Ok::<(AddressView, nat), ErrorKind>(
            (a, address_bytes(a).len()),
        ),
{
    crate::address::address_round_trip(a, rest);
}

/// An address that is cut short is an unexpected end, wherever it is cut, and a type that is none
/// of the three is invalid.
pub proof fn incomplete_addresses_are_ends(a: AddressView, k: int, s: Seq<u8>)
    requires
        is_writable(a),
        0 <= k < address_bytes(a).len(),
    ensures
        front_address(address_bytes(a).take(k)) == Err::<(AddressView, nat), ErrorKind>(
            ErrorKind::UnexpectedEof,
        ),
        s.len() > 0 && s[0] != 1 && s[0] != 3 && s[0] != 4 ==> front_address(s) == Err::<
            (AddressView, nat),
            ErrorKind,
        >(ErrorKind::InvalidInput),
{
    let bytes = address_bytes(a);
    let cut = bytes.take(k);
    if k > 0 {
        assert(cut[0] == bytes[0]);
    }
    if k > 1 {
        assert(cut[1] == bytes[1]);
    }
}

/// A name that is not UTF-8 is no address.
pub proof fn names_are_utf8(name: Seq<u8>, high: u8, low: u8, rest: Seq<u8>)
    requires
        name.len() <= 255,
    ensures
        front_address(seq![3u8, name.len() as u8] + name + seq![high, low] + rest) == if valid_utf8(
            name,
        ) {
            Ok::<(AddressView, nat), ErrorKind>(
                (
                    AddressView::DomainAddress(decode_utf8(name), (high * 256 + low) as u16),
                    name.len() + 4,
                ),
            )
        } else {
            Err(ErrorKind::InvalidData)
        },
{
    let s = seq![3u8, name.len() as u8] + name + seq![high, low] + rest;
    let n = name.len() as int;
    assert(s[1] == n);
    assert(s.subrange(2, 2 + n) =~= name);
    assert(s.skip(2 + n)[0] == high && s.skip(2 + n)[1] == low);
}

/// A stream tells its destination as soon as all of it is there. Until then it tells how many
/// bytes it takes, as far as that is known: one for the type, two for the type and the length of
/// a name, and all of the address once these are known.
pub proof fn destinations_tell_what_they_need(a: AddressView, k: int, s: Seq<u8>)
    requires
        is_writable(a),
        0 <= k < address_bytes(a).len(),
    ensures
        front_destination(address_bytes(a).take(k)) == DestinationView::NeedMore(
            if k == 0 {
                1
            } else if k == 1 && a is DomainAddress {
                2
            } else {
                address_bytes(a).len()
            },
        ),
        whole_destination(address_bytes(a).take(k)) == Err::<
            (Seq<char>, nat),
            (ErrorKind, Seq<char>),
        >((ErrorKind::UnexpectedEof, "Stream closed"@)),
        s.len() > 0 && s[0] != 1 && s[0] != 3 && s[0] != 4 ==> front_destination(s) is Unsupported
            && whole_destination(s) == Err::<(Seq<char>, nat), (ErrorKind, Seq<char>)>(
            (ErrorKind::Other, "Unsupported address type"@),
        ),
{
    let bytes = address_bytes(a);
    let cut = bytes.take(k);
    if k > 0 {
        assert(cut[0] == bytes[0]);
    }
    if k > 1 {
        assert(cut[1] == bytes[1]);
    }
}

/// A request for packets is a byte that says how they are addressed and the destination: zero
/// where every packet carries its own, one where all go to that of the request.
pub proof fn requests_are_laid_out(destination: AddressView, rest: Seq<u8>)
    requires
        is_writable(destination),
    ensures
        request_bytes(UotMode::Datagram, destination) == seq![0u8] + address_bytes(destination),
        request_bytes(UotMode::Connected, destination) == seq![1u8] + address_bytes(destination),
        front_request(seq![0u8] + address_bytes(destination) + rest) == Ok::<
            ((UotMode, AddressView), nat),
            ErrorKind,
        >(((UotMode::Datagram, destination), 1 + address_bytes(destination).len())),
        front_request(seq![1u8] + address_bytes(destination) + rest) == Ok::<
            ((UotMode, AddressView), nat),
            ErrorKind,
        >(((UotMode::Connected, destination), 1 + address_bytes(destination).len())),
{
    addresses_are_read_back(destination, rest);
    let datagram = seq![0u8] + address_bytes(destination) + rest;
    let connected = seq![1u8] + address_bytes(destination) + rest;
    assert(datagram.skip(1) =~= address_bytes(destination) + rest);
    assert(connected.skip(1) =~= address_bytes(destination) + rest);
}

/// A request that is cut short is an unexpected end, and one whose first byte is neither zero nor
/// one is invalid, whatever follows it.
pub proof fn incomplete_requests_are_ends(
    mode: UotMode,
    destination: AddressView,
    k: int,
    s: Seq<u8>,
)
    requires
        is_writable(destination),
        0 <= k <= address_bytes(destination).len(),
    ensures
        front_request(request_bytes(mode, destination).take(k)) == Err::<
            ((UotMode, AddressView), nat),
            ErrorKind,
        >(ErrorKind::UnexpectedEof),
        s.len() > 0 && s[0] > 1 ==> front_request(s) == Err::<
            ((UotMode, AddressView), nat),
            ErrorKind,
        >(ErrorKind::InvalidData),
{
    let bytes = request_bytes(mode, destination);
    let cut = bytes.take(k);
    if k > 0 {
        assert(cut[0] == bytes[0]);
        assert(cut.skip(1) =~= address_bytes(destination).take(k - 1));
        incomplete_addresses_are_ends(destination, k - 1, s);
    }
}

/// A packet is the length of its payload in two bytes, the most significant first, and its
/// payload. Where packets carry their destination, it comes before them.
pub proof fn packets_are_laid_out(destination: AddressView, payload: Seq<u8>, rest: Seq<u8>)
    requires
        is_writable(destination),
        payload.len() <= 65535,
    ensures
        ({
            let s = connected_bytes(payload);
            let n = (2 + payload.len()) as nat;
            let all = address_bytes(destination).len() + n;
            &&& s.len() == n
            &&& s[0] * 256 + s[1] == payload.len()
            &&& s.skip(2) == payload
            &&& datagram_bytes(destination, payload) == address_bytes(destination) + s
            &&& front_packet(UotMode::Connected, s + rest) == Ok::<
                ((Option<AddressView>, Seq<u8>), nat),
                ErrorKind,
            >(((None, payload), n))
            &&& front_packet(UotMode::Datagram, address_bytes(destination) + s + rest) == Ok::<
                ((Option<AddressView>, Seq<u8>), nat),
                ErrorKind,
            >(((Some(destination), payload), all))
        }),
{
    let s = connected_bytes(payload);
    let a = address_bytes(destination);
    assert(s.skip(2) =~= payload);
    assert((s + rest).subrange(2, 2 + payload.len() as int) =~= payload);
    addresses_are_read_back(destination, s + rest);
    assert(a + s + rest =~= a + (s + rest));
    assert((a + (s + rest)).skip(a.len() as int) =~= s + rest);
}

/// A packet that is cut short is an unexpected end, wherever it is cut.
pub proof fn incomplete_packets_are_ends(destination: AddressView, payload: Seq<u8>, k: int)
    requires
        is_writable(destination),
        payload.len() <= 65535,
    ensures
        0 <= k < connected_bytes(payload).len() ==> front_payload(connected_bytes(payload).take(k))
            == Err::<(Seq<u8>, nat), ErrorKind>(ErrorKind::UnexpectedEof),
        0 <= k < datagram_bytes(destination, payload).len() ==> front_datagram(
            datagram_bytes(destination, payload).take(k),
        ) == Err::<((AddressView, Seq<u8>), nat), ErrorKind>(ErrorKind::UnexpectedEof),
{
    let a = address_bytes(destination);
    let s = connected_bytes(payload);
    let all = datagram_bytes(destination, payload);
    if 0 <= k < s.len() && k >= 2 {
        assert(s.take(k)[0] == s[0] && s.take(k)[1] == s[1]);
    }
    if 0 <= k < all.len() {
        let cut = all.take(k);
        if k < a.len() {
            assert(cut =~= a.take(k));
            incomplete_addresses_are_ends(destination, k, cut);
        } else {
            let m = k - a.len();
            assert(cut =~= a + s.take(m));
            addresses_are_read_back(destination, s.take(m));
            assert((a + s.take(m)).skip(a.len() as int) =~= s.take(m));
            if m >= 2 {
                assert(s.take(m)[0] == s[0] && s.take(m)[1] == s[1]);
            }
        }
    }
}

/// A stream announces packets by a certain name, whatever the port; no IP address does.
pub proof fn packets_are_announced_by_name(name: Seq<char>, ip: Seq<u8>, port: u16)
    ensures
        announces_packets(AddressView::DomainAddress("sp.v2.udp-over-tcp.arpa"@, port)),
        announces_packets(AddressView::DomainAddress(name, port)) ==> name
            == "sp.v2.udp-over-tcp.arpa"@,
        !announces_packets(AddressView::Ipv4Address(ip, port)),
        !announces_packets(AddressView::Ipv6Address(ip, port)),
{
}

/// The number that digits spell.
pub open spec fn spelt(digits: Seq<char>) -> nat
    decreases digits.len(),
{
    if digits.len() == 0 {
        0
    } else {
        spelt(digits.drop_last()) * 10 + (digits.last() as nat - 48) as nat
    }
}

/// Whether `s` is one digit or more.
pub open spec fn is_number(s: Seq<char>) -> bool {
    s.len() > 0 && forall|i: int| 0 <= i < s.len() ==> 48 <= #[trigger] s[i] as nat <= 57
}

proof fn spelt_is_the_value(digits: Seq<char>)
    ensures
        spelt(digits) == crate::text::digits_value(digits),
    decreases digits.len(),
{
    if digits.len() > 0 {
        spelt_is_the_value(digits.drop_last());
    }
}

/// A number as text is its digits, without zeros before them.
pub proof fn numbers_are_spelt_out(n: nat)
    ensures
        is_number(decimal(n)),
        spelt(decimal(n)) == n,
        n > 0 ==> decimal(n)[0] != '0',
        n == 0 ==> decimal(n) == seq!['0'],
    decreases n,
{
    if n >= 10 {
        numbers_are_spelt_out(n / 10);
        assert(decimal(n).drop_last() =~= decimal(n / 10));
        assert(decimal(n)[0] == decimal(n / 10)[0]);
    } else {
        reveal_with_fuel(spelt, 2);
        assert(decimal(n).drop_last() =~= Seq::<char>::empty());
    }
}

/// A text is a number of at most `max` if it is one digit or more, with a plus sign before them
/// or without, and they spell such a number.
pub proof fn numbers_are_read(digits: Seq<char>, max: nat)
    ensures
        ({
            let value = if is_number(digits) && spelt(digits) <= max {
                Some(spelt(digits))
            } else {
                None
            };
            &&& unsigned_value(seq!['+'] + digits, max) == value
            &&& digits.len() > 0 && digits[0] != '+' ==> unsigned_value(digits, max) == value
            &&& digits.len() == 0 ==> unsigned_value(digits, max) is None
        }),
{
    spelt_is_the_value(digits);
    assert((seq!['+'] + digits).skip(1) =~= digits);
}

/// An IPv4 address as text is its four numbers with dots between them. A host comes before its
/// port, with a colon between them; an IPv6 address stands in square brackets there, and in a URL
/// a name with a colon in it does, too.
pub proof fn addresses_are_spelt_out(ip: Seq<u8>, name: Seq<char>, port: u16)
    ensures
        ({
            let v4 = AddressView::Ipv4Address(ip, port);
            let v6 = AddressView::Ipv6Address(ip, port);
            let named = AddressView::DomainAddress(name, port);
            let dot = seq!['.'];
            let end = seq![':'] + decimal(port as nat);
            let shown = decimal(ip[0] as nat) + dot + decimal(ip[1] as nat) + dot + decimal(
                ip[2] as nat,
            ) + dot + decimal(ip[3] as nat);
            &&& host_text(v4) == shown
            &&& host_text(v6) == ipv6_text(ip)
            &&& host_text(named) == name
            &&& address_text(v4) == shown + end
            &&& address_text(v6) == seq!['['] + ipv6_text(ip) + seq![']'] + end
            &&& address_text(named) == name + end
            &&& authority_text(v4) == shown + end
            &&& authority_text(v6) == seq!['['] + ipv6_text(ip) + seq![']'] + end
            &&& authority_text(named) == if name.contains(':') {
                seq!['['] + name + seq![']'] + end
            } else {
                name + end
            }
        }),
{
    let v4 = AddressView::Ipv4Address(ip, port);
    let v6 = AddressView::Ipv6Address(ip, port);
    let named = AddressView::DomainAddress(name, port);
    let dot = seq!['.'];
    let end = seq![':'] + decimal(port as nat);
    let shown = decimal(ip[0] as nat) + dot + decimal(ip[1] as nat) + dot + decimal(ip[2] as nat)
        + dot + decimal(ip[3] as nat);
    assert(address_text(v4) =~= shown + end);
    assert(address_text(v6) =~= seq!['['] + ipv6_text(ip) + seq![']'] + end);
    assert(address_text(named) =~= name + end);
    assert(authority_text(v4) =~= shown + end);
    assert(authority_text(v6) =~= seq!['['] + ipv6_text(ip) + seq![']'] + end);
    if name.contains(':') {
        assert(authority_text(named) =~= seq!['['] + name + seq![']'] + end);
    } else {
        assert(authority_text(named) =~= name + end);
    }
}

/// The destination that a stream tells is its host, without square brackets, and its port, with a
/// colon between them. Bytes of a name that are not UTF-8 are replaced.
pub proof fn destinations_are_spelt_out(a: AddressView, rest: Seq<u8>)
    requires
        is_writable(a),
    ensures
        front_destination(address_bytes(a) + rest) == DestinationView::Ready(
            host_text(a) + seq![':'] + decimal(port(a) as nat),
            address_bytes(a).len(),
        ),
{
    crate::server::destinations_are_read_as_written(a, rest);
}

} // verus!
