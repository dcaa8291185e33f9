use anytls::audit::{ends_head, is_connect, request_of, Audit};

fn upload(n: usize) -> Vec<u8> {
    let mut data = vec![20, 3, 3, 0, 1, 1];
    data.resize(n, 0);
    data
}

#[test]
fn certain_sizes_give_a_handshake_away() {
    for (up, down, expected) in [
        (650, 170, true),
        (750, 180, true),
        (700, 3000, true),
        (700, 7500, true),
        (649, 175, false),
        (751, 175, false),
        (700, 181, false),
        (700, 7501, false),
    ] {
        let mut audit = Audit::new();
        assert!(!audit.on_upload(&upload(up)));
        audit.on_download(down);
        assert_eq!(audit.on_upload(b"next"), expected, "{up} up and {down} down");
    }
}

#[test]
fn connections_are_judged_only_once() {
    let mut audit = Audit::new();
    assert!(!audit.on_upload(b"hello"));
    audit.on_download(9);
    assert!(!audit.on_upload(&upload(300)));
    assert!(!audit.on_upload(&[0; 400]));
    audit.on_download(100);
    audit.on_download(75);
    assert!(audit.on_upload(b"x"));
    let settled = audit;
    audit.on_download(175);
    assert!(!audit.on_upload(&upload(700)));
    assert_eq!(audit, settled);
}

#[test]
fn request_lines_are_split_at_white_space() {
    let (method, target) = request_of("CONNECT  example.com:443 HTTP/1.1\r\n");
    assert_eq!((method.as_str(), target.as_str()), ("CONNECT", "example.com:443"));
    let (method, target) = request_of(" \r\n");
    assert_eq!((method.as_str(), target.as_str()), ("", ""));
    assert!(is_connect("connEct"));
    assert!(!is_connect("CONNECTS"));
    assert!(!is_connect("GET"));
}

#[test]
fn heads_end_with_an_empty_line() {
    assert!(ends_head("\r\n"));
    assert!(ends_head("\n"));
    assert!(ends_head(""));
    assert!(!ends_head("Host: x\r\n"));
}
