//! What a server decides: who may connect, where a stream goes, and which key it shows.
use crate::address::{
    address_bytes, address_text, host_and_port, host_text, ipv4_text, ipv6_text, is_writable,
    port_of, with_port, Address, AddressView,
};
use crate::error::{is_logical_stream_end, ErrorKind, IoError};
use crate::text::{
    bytes_eq, char_position, chars_of, position_bounds, string_from_utf8_lossy, string_of, trim,
    trimmed, utf8_lossy,
};
use crate::uot::{announces_packets, uot_is_sentinel_destination};
use crate::users::{PasswordHash, PASSWORD_HASH_LEN};
use crate::wire;
use vstd::prelude::*;
use vstd::slice::slice_subrange;
use vstd::utf8::{encode_utf8, encode_utf8_decode_utf8, encode_utf8_valid_utf8};

verus! {

/// How many bytes a client sends to authenticate: the digest of its password and the length of
/// the padding that follows.
pub const AUTH_PREAMBLE_LEN: usize = 34;

/// How much padding follows the preamble of a client, or `None` if its digest is not
/// `password_hash`.
pub fn check_preamble(preamble: &[u8], password_hash: &PasswordHash) -> (r: Option<u16>)
    requires
        preamble@.len() == AUTH_PREAMBLE_LEN,
    ensures
        match r {
            Some(padding) => preamble@.take(32) == password_hash@ && padding == wire::be_u16(
                preamble@.skip(32),
            ),
            None => preamble@.take(32) != password_hash@,
        },
{
    let digest = slice_subrange(preamble, 0, PASSWORD_HASH_LEN);
    assert(digest@ =~= preamble@.take(32));
    if !bytes_eq(digest, password_hash.as_slice()) {
        return None;
    }
    let padding: u16 = wire::u16_from_be(preamble[32], preamble[33]);
    assert(padding == wire::be_u16(preamble@.skip(32)));
    Some(padding)
}

/// The digest that a client presents, and how much padding follows its preamble.
pub fn split_preamble(preamble: &[u8]) -> (r: (&[u8], u16))
    requires
        preamble@.len() == AUTH_PREAMBLE_LEN,
    ensures
        r.0@ == preamble@.take(32),
        r.1 == wire::be_u16(preamble@.skip(32)),
{
    let digest = slice_subrange(preamble, 0, PASSWORD_HASH_LEN);
    assert(digest@ =~= preamble@.take(32));
    let padding: u16 = wire::u16_from_be(preamble[32], preamble[33]);
    assert(padding == wire::be_u16(preamble@.skip(32)));
    (digest, padding)
}

/// How a server tells its users apart.
#[derive(Debug, Clone, Copy, PartialEq, Eq, Structural)]
pub enum ServeMode {
    /// Not at all: they share one password.
    SharedPassword,
    /// By the client ids that a panel names; they share one password.
    PanelSync,
    /// By their passwords.
    MultiUser,
}

/// How a server tells its users apart, given what is configured. The two ways to serve more than
/// one user exclude each other, and a shared password must not be empty.
pub fn choose_mode(panel: bool, multi_user: bool, password: &str) -> (r: Result<ServeMode, IoError>)
    ensures
        match r {
            Ok(mode) => !(panel && multi_user) && (multi_user || password@.len() > 0) && mode
                == if multi_user {
                ServeMode::MultiUser
            } else if panel {
                ServeMode::PanelSync
            } else {
                ServeMode::SharedPassword
            },
            Err(e) => if panel && multi_user {
                e@ == (
                    ErrorKind::InvalidInput,
                    "panel sync and multi-user mode are mutually exclusive"@,
                )
            } else {
                !multi_user && password@.len() == 0 && e@ == (
                    ErrorKind::InvalidInput,
                    "Please set password"@,
                )
            },
        },
{
    if panel && multi_user {
        return Err(
            IoError::new(
                ErrorKind::InvalidInput,
                "panel sync and multi-user mode are mutually exclusive",
            ),
        );
    }
    if multi_user {
        return Ok(ServeMode::MultiUser);
    }
    let unset = password.is_empty();
    assert(unset == (password@.len() == 0));
    if unset {
        return Err(IoError::new(ErrorKind::InvalidInput, "Please set password"));
    }
    if panel {
        Ok(ServeMode::PanelSync)
    } else {
        Ok(ServeMode::SharedPassword)
    }
}

/// Where a stream goes.
#[derive(Debug)]
pub enum StreamRoute {
    /// It carries UDP packets.
    Uot,
    /// It is relayed to a TCP destination.
    Tcp(String),
}

/// Where a stream with the destination `destination` goes.
pub fn route_stream(destination: &Address) -> (r: StreamRoute)
    ensures
        match r {
            StreamRoute::Uot => announces_packets(destination@),
            StreamRoute::Tcp(text) => !announces_packets(destination@) && text@ == address_text(
                destination@,
            ),
        },
{
    if uot_is_sentinel_destination(destination) {
        StreamRoute::Uot
    } else {
        StreamRoute::Tcp(destination.to_string())
    }
}

/// Whether a handler ends quietly after `err`: the session is over or the peer ended the stream.
pub fn ends_quietly(session_closed: bool, err: &IoError) -> (b: bool)
    ensures
        b == (session_closed || err.kind is UnexpectedEof || err.kind is BrokenPipe),
{
    session_closed || is_logical_stream_end(err)
}

/// What reading the destination of a stream comes to.
#[derive(Debug)]
pub enum DestinationStep {
    /// At least this many bytes are needed.
    NeedMore(usize),
    /// The type of the address is unknown.
    Unsupported,
    /// The destination as text, and how many bytes it took.
    Ready(String, usize),
}

/// The mathematical value of a [`DestinationStep`].
pub enum DestinationView {
    NeedMore(nat),
    Unsupported,
    Ready(Seq<char>, nat),
}

impl View for DestinationStep {
    type V = DestinationView;

    open spec fn view(&self) -> DestinationView {
        match self {
            DestinationStep::NeedMore(n) => DestinationView::NeedMore(*n as nat),
            DestinationStep::Unsupported => DestinationView::Unsupported,
            DestinationStep::Ready(text, n) => DestinationView::Ready(text@, *n as nat),
        }
    }
}

/// The destination at the front of `s`: a type byte, the IP address or the length and the name,
/// and the port. The host is shown as it is, without square brackets, and whatever is not UTF-8
/// in a name is replaced.
pub open spec fn front_destination(s: Seq<u8>) -> DestinationView {
    if s.len() == 0 {
        DestinationView::NeedMore(1)
    } else if s[0] == 1 {
        if s.len() < 7 {
            DestinationView::NeedMore(7)
        } else {
            DestinationView::Ready(
                host_and_port(ipv4_text(s.subrange(1, 5)), wire::be_u16(s.skip(5)) as u16),
                7,
            )
        }
    } else if s[0] == 3 {
        if s.len() < 2 {
            DestinationView::NeedMore(2)
        } else if s.len() < 4 + s[1] {
            DestinationView::NeedMore((4 + s[1]) as nat)
        } else {
            DestinationView::Ready(
                host_and_port(
                    utf8_lossy(s.subrange(2, 2 + s[1])),
                    wire::be_u16(s.skip(2 + s[1])) as u16,
                ),
                (4 + s[1]) as nat,
            )
        }
    } else if s[0] == 4 {
        if s.len() < 19 {
            DestinationView::NeedMore(19)
        } else {
            DestinationView::Ready(
                host_and_port(ipv6_text(s.subrange(1, 17)), wire::be_u16(s.skip(17)) as u16),
                19,
            )
        }
    } else {
        DestinationView::Unsupported
    }
}

/// Reads the destination at the front of `data`.
pub fn read_destination(data: &[u8]) -> (r: DestinationStep)
    ensures
        r@ == front_destination(data@),
{
    if data.len() == 0 {
        return DestinationStep::NeedMore(1);
    }
    if data[0] == 1 {
        if data.len() < 7 {
            return DestinationStep::NeedMore(7);
        }
        let ip: [u8; 4] = [data[1], data[2], data[3], data[4]];
        assert(ip@ =~= data@.subrange(1, 5));
        let port: u16 = wire::u16_from_be(data[5], data[6]);
        assert(port == wire::be_u16(data@.skip(5)));
        let host = Address::Ipv4Address(ip, port).domain();
        return DestinationStep::Ready(with_port(host, port), 7);
    }
    if data[0] == 3 {
        if data.len() < 2 {
            return DestinationStep::NeedMore(2);
        }
        let len: usize = data[1] as usize;
        if data.len() < 4 + len {
            return DestinationStep::NeedMore(4 + len);
        }
        let name = slice_subrange(data, 2, 2 + len);
        assert(name@ =~= data@.subrange(2, 2 + data@[1]));
        let port: u16 = wire::u16_from_be(data[2 + len], data[3 + len]);
        assert(port == wire::be_u16(data@.skip(2 + data@[1])));
        return DestinationStep::Ready(with_port(string_from_utf8_lossy(name), port), 4 + len);
    }
    if data[0] == 4 {
        if data.len() < 19 {
            return DestinationStep::NeedMore(19);
        }
        let ip: [u8; 16] = [
            data[1], data[2], data[3], data[4], data[5], data[6], data[7], data[8], data[9],
            data[10], data[11], data[12], data[13], data[14], data[15], data[16],
        ];
        assert(ip@ =~= data@.subrange(1, 17));
        let port: u16 = wire::u16_from_be(data[17], data[18]);
        assert(port == wire::be_u16(data@.skip(17)));
        let host = Address::Ipv6Address(ip, port).domain();
        return DestinationStep::Ready(with_port(host, port), 19);
    }
    DestinationStep::Unsupported
}

/// The destination of a stream that brings nothing behind `s`, and how many bytes it takes.
pub open spec fn whole_destination(s: Seq<u8>) -> Result<
    (Seq<char>, nat),
    (ErrorKind, Seq<char>),
> {
    match front_destination(s) {
        DestinationView::Ready(text, n) => Ok((text, n)),
        DestinationView::NeedMore(_) => Err((ErrorKind::UnexpectedEof, "Stream closed"@)),
        DestinationView::Unsupported => Err((ErrorKind::Other, "Unsupported address type"@)),
    }
}

/// The destination at the front of `data` where nothing follows `data`: the stream has ended, or
/// nothing more is needed. A destination that is cut short by the end of the stream is an error.
pub fn destination_at_end(data: &[u8]) -> (r: Result<(String, usize), IoError>)
    ensures
        match r {
            Ok((text, n)) => whole_destination(data@) == Ok::<
                (Seq<char>, nat),
                (ErrorKind, Seq<char>),
            >((text@, n as nat)),
            Err(e) => whole_destination(data@) == Err::<
                (Seq<char>, nat),
                (ErrorKind, Seq<char>),
            >(e@),
        },
{
    match read_destination(data) {
        DestinationStep::Ready(text, n) => Ok((text, n)),
        DestinationStep::NeedMore(_) => Err(IoError::new(ErrorKind::UnexpectedEof, "Stream closed")),
        DestinationStep::Unsupported => Err(IoError::other("Unsupported address type")),
    }
}

/// A destination does not depend on what follows it, nor on the pieces in which it arrives: once
/// it is known, or known to be unsupported, it stays that way, and as long as it is not known,
/// more bytes are needed than are there. So a reader that stops as soon as the destination is
/// known finds what it would find in the whole stream.
pub proof fn destinations_are_known_for_good(a: Seq<u8>, b: Seq<u8>)
    ensures
        match front_destination(a) {
            DestinationView::NeedMore(n) => n > a.len(),
            _ => front_destination(a + b) == front_destination(a) && whole_destination(a + b)
                == whole_destination(a),
        },
{
    let whole = a + b;
    match front_destination(a) {
        DestinationView::NeedMore(_) => {},
        DestinationView::Unsupported => {},
        DestinationView::Ready(_, n) => {
            assert(whole[0] == a[0]);
            if a[0] == 1 {
                assert(whole.subrange(1, 5) =~= a.subrange(1, 5));
                assert(whole.skip(5)[0] == a.skip(5)[0] && whole.skip(5)[1] == a.skip(5)[1]);
            } else if a[0] == 3 {
                let i = 2 + a[1];
                assert(whole[1] == a[1]);
                assert(whole.subrange(2, i) =~= a.subrange(2, i));
                assert(whole.skip(i)[0] == a.skip(i)[0] && whole.skip(i)[1] == a.skip(i)[1]);
            } else {
                assert(whole.subrange(1, 17) =~= a.subrange(1, 17));
                assert(whole.skip(17)[0] == a.skip(17)[0] && whole.skip(17)[1] == a.skip(17)[1]);
            }
        },
    }
}

/// Which of the private keys in a file a server uses.
#[derive(Debug, Clone, Copy, PartialEq, Eq, Structural)]
pub enum KeyChoice {
    /// The first key in PKCS#8 form.
    Pkcs8,
    /// The first key in RSA form.
    Rsa,
}

/// Which key a server uses, given how many keys of either form and how many certificates its
/// files hold.
pub fn choose_key(pkcs8_keys: usize, rsa_keys: usize, certs: usize) -> (r: Result<
    KeyChoice,
    IoError,
>)
    ensures
        match r {
            Ok(choice) => certs > 0 && choice == if pkcs8_keys > 0 {
                KeyChoice::Pkcs8
            } else {
                KeyChoice::Rsa
            } && (pkcs8_keys > 0 || rsa_keys > 0),
            Err(e) => if pkcs8_keys == 0 && rsa_keys == 0 {
                e@ == (
                    ErrorKind::Other,
                    "failed to parse private key as PKCS#8 or RSA"@,
                )
            } else {
                certs == 0 && e@ == (ErrorKind::Other, "failed to parse cert PEM"@)
            },
        },
{
    if pkcs8_keys == 0 && rsa_keys == 0 {
        return Err(IoError::other("failed to parse private key as PKCS#8 or RSA"));
    }
    if certs == 0 {
        return Err(IoError::other("failed to parse cert PEM"));
    }
    if pkcs8_keys > 0 {
        Ok(KeyChoice::Pkcs8)
    } else {
        Ok(KeyChoice::Rsa)
    }
}

/// The versions of the Internet Protocol.
#[derive(Debug, Clone, Copy, PartialEq, Eq, Structural)]
pub enum IpVersion {
    V4,
    V6,
}

/// The address in the reply of a service that tells a host its public address, if it looks like
/// one of the version that was asked for.
pub fn public_ip_in(reply: &str, version: IpVersion) -> (r: Option<String>)
    ensures
        ({
            let ip = trimmed(reply@);
            let fits = match version {
                IpVersion::V4 => ip.contains('.') && !ip.contains(':'),
                IpVersion::V6 => ip.contains(':'),
            };
            match r {
                Some(text) => fits && text@ == ip,
                None => !fits,
            }
        }),
{
    let chars = chars_of(reply);
    let ip = trim(chars.as_slice());
    let dot: usize = char_position(ip, '.');
    let colon: usize = char_position(ip, ':');
    proof {
        position_bounds(ip@, '.');
        position_bounds(ip@, ':');
        if dot < ip@.len() {
            assert(ip@.contains(ip@[dot as int]));
        }
        if colon < ip@.len() {
            assert(ip@.contains(ip@[colon as int]));
        }
    }
    let fits = match version {
        IpVersion::V4 => dot < ip.len() && colon >= ip.len(),
        IpVersion::V6 => colon < ip.len(),
    };
    if fits {
        Some(string_of(ip))
    } else {
        None
    }
}

/// The destination that a client writes as an address is the destination that the server reads:
/// the same host and port, and as many bytes as were written.
pub proof fn destinations_are_read_as_written(a: AddressView, rest: Seq<u8>)
    requires
        is_writable(a),
    ensures
        front_destination(address_bytes(a) + rest) == DestinationView::Ready(
            host_and_port(host_text(a), port_of(a)),
            address_bytes(a).len(),
        ),
{
    let s = address_bytes(a) + rest;
    let n = address_bytes(a).len() as int;
    let port = port_of(a);
    assert(s.skip(n - 2) =~= wire::u16_be(port) + rest);
    wire::u16_round_trip(port, rest);
    match a {
        AddressView::Ipv4Address(ip, _) => {
            assert(s.subrange(1, 5) =~= ip);
        },
        AddressView::Ipv6Address(ip, _) => {
            assert(s.subrange(1, 17) =~= ip);
        },
        AddressView::DomainAddress(name, _) => {
            let bytes = encode_utf8(name);
            assert(s[1] == bytes.len() as u8);
            assert(s.subrange(2, 2 + s[1]) =~= bytes);
            encode_utf8_valid_utf8(name);
            encode_utf8_decode_utf8(name);
        },
    }
}

} // verus!
