use anytls::address::Address;
use anytls::error::{ErrorKind, IoError};
use anytls::relay::{on_connect, ConnectStep, Relay, RelayAction, RelayEvent};
use anytls::server::{
    check_preamble, choose_key, choose_mode, destination_at_end, ends_quietly, public_ip_in, read_destination,
    route_stream, split_preamble, DestinationStep, IpVersion, KeyChoice, ServeMode, StreamRoute,
    AUTH_PREAMBLE_LEN,
};
use anytls::stream_relay::{on_stream_connect, StreamConnectStep, StreamRelay, StreamRelayAction};
use anytls::uot::uot_sentinel_destination;
use anytls::users::hash_password;

fn preamble(password: &str, padding: u16) -> Vec<u8> {
    let mut bytes = hash_password(password).to_vec();
    bytes.extend_from_slice(&padding.to_be_bytes());
    bytes
}

#[test]
fn preamble_is_digest_and_padding_length() {
    let bytes = preamble("pw", 0x0102);
    assert_eq!(bytes.len(), AUTH_PREAMBLE_LEN);
    assert_eq!(check_preamble(&bytes, &hash_password("pw")), Some(258));
    assert_eq!(check_preamble(&bytes, &hash_password("other")), None);
    let (digest, padding) = split_preamble(&bytes);
    assert_eq!((digest, padding), (&hash_password("pw")[..], 258));
}

#[test]
fn streams_go_to_their_destinations() {
    assert!(matches!(route_stream(&uot_sentinel_destination()), StreamRoute::Uot));
    let route = route_stream(&Address::DomainAddress("example.com".to_string(), 443));
    assert!(matches!(route, StreamRoute::Tcp(text) if text == "example.com:443"));
}

#[test]
fn orderly_ends_are_quiet() {
    let error = |kind: ErrorKind| IoError::new(kind, "x");
    assert!(ends_quietly(false, &error(ErrorKind::UnexpectedEof)));
    assert!(ends_quietly(false, &error(ErrorKind::BrokenPipe)));
    assert!(!ends_quietly(false, &error(ErrorKind::Other)));
    assert!(ends_quietly(true, &error(ErrorKind::Other)));
}

#[test]
fn destinations_are_read_byte_by_byte() {
    let cases = [
        (Address::Ipv4Address([8, 8, 4, 4], 53), "8.8.4.4:53"),
        (Address::DomainAddress("example.com".to_string(), 443), "example.com:443"),
        (Address::Ipv6Address([0, 0, 0, 0, 0, 0, 0, 0, 0, 0, 0, 0, 0, 0, 0, 1], 80), "::1:80"),
    ];
    for (address, expected) in cases {
        let bytes = address.to_bytes();
        let mut have = 0;
        loop {
            match read_destination(&bytes[..have]) {
                DestinationStep::NeedMore(n) => {
                    assert!(have < n && n <= bytes.len());
                    have = n;
                }
                DestinationStep::Ready(text, n) => {
                    assert_eq!((text.as_str(), n), (expected, bytes.len()));
                    break;
                }
                DestinationStep::Unsupported => panic!("known type"),
            }
        }
    }
    assert!(matches!(read_destination(&[9]), DestinationStep::Unsupported));
    let lossy = [3, 2, b'a', 0xff, 0, 80];
    assert!(matches!(read_destination(&lossy), DestinationStep::Ready(text, 6) if text == "a\u{fffd}:80"));
}

#[test]
fn keys_in_pkcs8_form_come_first() {
    assert_eq!(choose_key(1, 1, 1).unwrap(), KeyChoice::Pkcs8);
    assert_eq!(choose_key(0, 2, 1).unwrap(), KeyChoice::Rsa);
    assert_eq!(choose_key(0, 0, 1).unwrap_err().message, "failed to parse private key as PKCS#8 or RSA");
    assert_eq!(choose_key(1, 0, 0).unwrap_err().message, "failed to parse cert PEM");
}

#[test]
fn public_addresses_have_to_fit_their_version() {
    assert_eq!(public_ip_in(" 1.2.3.4\n", IpVersion::V4).as_deref(), Some("1.2.3.4"));
    assert_eq!(public_ip_in("::1", IpVersion::V4), None);
    assert_eq!(public_ip_in("::ffff:1.2.3.4", IpVersion::V4), None);
    assert_eq!(public_ip_in("2001:db8::1", IpVersion::V6).as_deref(), Some("2001:db8::1"));
    assert_eq!(public_ip_in("<html>", IpVersion::V6), None);
}

#[test]
fn relay_stops_one_direction_at_an_end() {
    let mut relay = Relay::new();
    assert_eq!(relay.on_event(RelayEvent::ClientData), RelayAction::WriteOutbound);
    assert_eq!(relay.on_event(RelayEvent::ClientEnd), RelayAction::ShutdownOutbound);
    assert_eq!(relay.on_event(RelayEvent::ClientData), RelayAction::Ignore);
    assert_eq!(relay.on_event(RelayEvent::OutboundData), RelayAction::WriteClient);
    assert!(!relay.is_finished());
    assert_eq!(relay.on_event(RelayEvent::OutboundEnd), RelayAction::SendFin);
    assert_eq!(relay.on_event(RelayEvent::OutboundEnd), RelayAction::Ignore);
    assert!(relay.is_finished());
}

#[test]
fn relay_stops_altogether_at_a_failure() {
    for (event, action) in [
        (RelayEvent::ClientFailed, RelayAction::ShutdownOutbound),
        (RelayEvent::OutboundWriteFailed, RelayAction::ShutdownOutbound),
        (RelayEvent::OutboundFailed, RelayAction::Ignore),
        (RelayEvent::ClientWriteFailed, RelayAction::Ignore),
    ] {
        let mut relay = Relay::new();
        assert_eq!(relay.on_event(event), action);
        assert!(relay.is_finished());
    }
}

#[test]
fn ways_to_serve_several_users_exclude_each_other() {
    assert_eq!(choose_mode(false, false, "pw").unwrap(), ServeMode::SharedPassword);
    assert_eq!(choose_mode(true, false, "pw").unwrap(), ServeMode::PanelSync);
    assert_eq!(choose_mode(false, true, "").unwrap(), ServeMode::MultiUser);
    assert_eq!(choose_mode(true, true, "pw").unwrap_err().kind, ErrorKind::InvalidInput);
    assert_eq!(choose_mode(false, false, "").unwrap_err().message, "Please set password");
}

#[test]
fn clients_are_told_whether_their_destination_was_reached() {
    let steps = on_connect(Ok(()));
    assert!(matches!(steps.as_slice(), [ConnectStep::ReportSuccess, ConnectStep::Relay]));
    let steps = on_connect(Err("connection refused".to_string()));
    match steps.as_slice() {
        [ConnectStep::ReportFailure(told), ConnectStep::Terminate, ConnectStep::Fail(error)] => {
            assert_eq!(told, "connection refused");
            assert_eq!(error, "connection refused");
        }
        other => panic!("unexpected steps {other:?}"),
    }
}

#[test]
fn destinations_that_are_cut_short_are_errors() {
    let whole: [&[u8]; 3] = [
        &[1, 127, 0, 0, 1, 0x1f, 0x90],
        &[3, 4, b'h', b'o', b's', b't', 0, 80],
        &[4, 0, 0, 0, 0, 0, 0, 0, 0, 0, 0, 0, 0, 0, 0, 0, 1, 1, 187],
    ];
    let texts = ["127.0.0.1:8080", "host:80", "::1:443"];
    for (bytes, expected) in whole.iter().zip(texts) {
        for n in 0..bytes.len() {
            let error = destination_at_end(&bytes[..n]).unwrap_err();
            assert_eq!((error.kind, error.message.as_str()), (ErrorKind::UnexpectedEof, "Stream closed"));
        }
        let (text, n) = destination_at_end(bytes).unwrap();
        assert_eq!((text.as_str(), n), (expected, bytes.len()));
        let mut longer = bytes.to_vec();
        longer.extend_from_slice(b"more");
        assert_eq!(destination_at_end(&longer).unwrap(), (text, n));
    }
    let error = destination_at_end(&[2, 1, 1]).unwrap_err();
    assert_eq!((error.kind, error.message.as_str()), (ErrorKind::Other, "Unsupported address type"));
}

#[test]
fn streams_close_when_their_destination_is_not_reached() {
    let steps = on_stream_connect(Ok(()));
    assert!(matches!(steps.as_slice(), [StreamConnectStep::ReportSuccess, StreamConnectStep::Relay]));
    let steps = on_stream_connect(Err("connection refused".to_string()));
    assert!(matches!(
        steps.as_slice(),
        [StreamConnectStep::CloseStream, StreamConnectStep::Fail(e)] if e == "connection refused"
    ));
}

#[test]
fn directions_of_a_stream_relay_end_on_their_own() {
    let up = [RelayEvent::ClientEnd, RelayEvent::ClientFailed, RelayEvent::OutboundWriteFailed];
    let down = [RelayEvent::OutboundEnd, RelayEvent::OutboundFailed, RelayEvent::ClientWriteFailed];
    for (first, second) in up.iter().zip(down) {
        let mut relay = StreamRelay::new();
        assert_eq!(relay.on_event(RelayEvent::ClientData), StreamRelayAction::WriteOutbound);
        assert_eq!(relay.on_event(*first), StreamRelayAction::ShutdownOutbound);
        assert_eq!(relay.on_event(*first), StreamRelayAction::Ignore);
        assert_eq!(relay.on_event(RelayEvent::ClientData), StreamRelayAction::Ignore);
        assert!(relay.down && !relay.is_finished());
        assert_eq!(relay.on_event(RelayEvent::OutboundData), StreamRelayAction::WriteClient);
        assert_eq!(relay.on_event(second), StreamRelayAction::CloseStream);
        assert_eq!(relay.on_event(second), StreamRelayAction::Ignore);
        assert_eq!(relay.on_event(RelayEvent::OutboundData), StreamRelayAction::Ignore);
        assert!(relay.is_finished());

        let mut relay = StreamRelay::new();
        assert_eq!(relay.on_event(second), StreamRelayAction::CloseStream);
        assert_eq!(relay.on_event(RelayEvent::ClientData), StreamRelayAction::WriteOutbound);
        assert_eq!(relay.on_event(*first), StreamRelayAction::ShutdownOutbound);
    }
}
