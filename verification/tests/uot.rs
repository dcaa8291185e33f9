use anytls::address::Address;
use anytls::error::ErrorKind;
use anytls::uot::{
    encode_request, is_request_destination, request_destination, uot_encode_packet,
    uot_get_packet_from_stream, uot_get_request_from_stream, uot_is_sentinel_destination,
    uot_sentinel_destination, UotMode, UotRequest, V2_MAGIC_ADDRESS,
};

#[test]
fn request_round_trip_preserves_connect_flag_and_destination() {
    let request = UotRequest::new(UotMode::Connected, Address::DomainAddress("dns.example".into(), 53));

    let bytes: Vec<u8> = encode_request(&request);
    let (decoded, read) = uot_get_request_from_stream(&bytes).expect("request should decode");

    assert_eq!(decoded.mode, UotMode::Connected);
    assert_eq!(decoded.destination.to_string(), request.destination.to_string());
    assert_eq!(read, bytes.len());
}

#[test]
fn non_connect_packet_round_trip_preserves_destination_and_payload() {
    let destination = Address::DomainAddress("example.com".into(), 443);
    let payload = b"uot-payload";

    let bytes = uot_encode_packet(UotMode::Datagram, Some(&destination), payload).expect("frame should encode");
    let ((decoded_destination, decoded_payload), _) =
        uot_get_packet_from_stream(UotMode::Datagram, &bytes).expect("frame should decode");

    assert_eq!(decoded_destination.unwrap().to_string(), destination.to_string());
    assert_eq!(decoded_payload, payload);
}

#[test]
fn connected_packet_round_trip_preserves_payload() {
    let payload = b"uot-connected-payload";

    let bytes = uot_encode_packet(UotMode::Connected, None, payload).expect("connected frame should encode");
    let ((_, decoded_payload), _) =
        uot_get_packet_from_stream(UotMode::Connected, &bytes).expect("connected frame should decode");

    assert_eq!(decoded_payload, payload);
}

#[test]
fn connected_packet_rejects_destination_argument() {
    let destination = Address::DomainAddress("example.com".into(), 443);
    let error = uot_encode_packet(UotMode::Connected, Some(&destination), b"payload")
        .expect_err("connected-mode packets must reject per-packet destinations");

    assert_eq!(error.kind, ErrorKind::InvalidInput);
}

#[test]
fn magic_destination_matches_server_uot_route_predicate() {
    assert!(uot_is_sentinel_destination(&uot_sentinel_destination()));
    assert!(!uot_is_sentinel_destination(&Address::DomainAddress("example.com".into(), 443)));
}

#[test]
fn connected_mode_requests_are_distinguishable_from_datagram_mode() {
    let request = UotRequest::new(UotMode::Connected, Address::DomainAddress("dns.example".into(), 53));

    assert_eq!(
        request.mode,
        UotMode::Connected,
        "connected-mode UOT requests should be distinguishable"
    );

    assert_ne!(
        request.mode,
        UotMode::Datagram,
        "connected and datagram modes should not collapse to the same state"
    );
}

#[test]
fn modes_are_single_bytes() {
    assert_eq!(u8::from(UotMode::Datagram), 0);
    assert_eq!(u8::from(UotMode::Connected), 1);
    assert_eq!(UotMode::try_from(1).unwrap(), UotMode::Connected);
    assert_eq!(UotMode::try_from(0).unwrap(), UotMode::Datagram);
    assert_eq!(UotMode::try_from(2).unwrap_err().kind, ErrorKind::InvalidData);
}

#[test]
fn any_port_of_the_magic_host_announces_packets() {
    assert!(is_request_destination(&request_destination()));
    assert!(is_request_destination(&Address::DomainAddress(V2_MAGIC_ADDRESS.to_string(), 9)));
    assert!(!is_request_destination(&Address::Ipv4Address([1, 2, 3, 4], 9)));
}

#[test]
fn request_is_the_mode_and_the_address() {
    let request = UotRequest::new(UotMode::Datagram, Address::Ipv4Address([127, 0, 0, 1], 0x1234));
    let bytes = encode_request(&request);
    assert_eq!(bytes, vec![0, 1, 127, 0, 0, 1, 0x12, 0x34]);
    assert_eq!(uot_get_request_from_stream(&[7, 1, 0]).unwrap_err(), ErrorKind::InvalidData);
    assert_eq!(uot_get_request_from_stream(&bytes[..5]).unwrap_err(), ErrorKind::UnexpectedEof);
    assert_eq!(uot_get_request_from_stream(&[]).unwrap_err(), ErrorKind::UnexpectedEof);
}

#[test]
fn packets_are_length_prefixed() {
    let bytes = uot_encode_packet(UotMode::Connected, None, b"abc").unwrap();
    assert_eq!(bytes, b"\x00\x03abc");
    let mut two = bytes.clone();
    two.extend_from_slice(b"\x00\x01z");
    let ((_, payload), read) = uot_get_packet_from_stream(UotMode::Connected, &two).unwrap();
    assert_eq!((payload, read), (b"abc".to_vec(), 5));
    assert_eq!(uot_get_packet_from_stream(UotMode::Connected, &two[..4]).unwrap_err(), ErrorKind::UnexpectedEof);
}

#[test]
fn packets_have_to_fit_and_need_their_destination() {
    let large = vec![0u8; 65_536];
    let error = uot_encode_packet(UotMode::Connected, None, &large).unwrap_err();
    assert_eq!((error.kind, error.message.as_str()), (ErrorKind::InvalidInput, "UOT packet too large"));
    assert!(uot_encode_packet(UotMode::Connected, None, &large[1..]).is_ok());
    assert_eq!(uot_encode_packet(UotMode::Datagram, None, b"x").unwrap_err().kind, ErrorKind::InvalidInput);
}

#[test]
fn addresses_are_written_and_read() {
    let v6 = [0xfe, 0x80, 0, 0, 0, 0, 0, 0, 0, 0, 0, 0, 0xab, 0xcd, 0x12, 0x34];
    let addresses = [
        (Address::Ipv4Address([1, 2, 3, 4], 80), "1.2.3.4:80", 7),
        (Address::Ipv6Address(v6, 443), "[fe80::abcd:1234]:443", 19),
        (Address::DomainAddress("example.com".to_string(), 65_535), "example.com:65535", 15),
    ];
    for (address, text, len) in addresses {
        assert_eq!(address.to_string(), text);
        let mut bytes = address.to_bytes();
        assert_eq!(bytes.len(), len);
        bytes.push(9);
        let (read, n) = Address::from_bytes(&bytes).expect("address");
        assert_eq!((read.to_string().as_str(), n), (text, len));
        assert_eq!(Address::from_bytes(&bytes[..len - 1]).unwrap_err(), ErrorKind::UnexpectedEof);
    }
    assert_eq!(Address::from_bytes(&[2, 0, 0]).unwrap_err(), ErrorKind::InvalidInput);
    assert_eq!(Address::from_bytes(&[3, 1, 0xff, 0, 0]).unwrap_err(), ErrorKind::InvalidData);
    assert_eq!(Address::DomainAddress("h".to_string(), 258).to_bytes(), vec![3, 1, b'h', 1, 2]);
}
