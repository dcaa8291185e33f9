use anytls::address::{format_authority, Address};
use anytls::parse_url::{
    config_from_parts, has_crossed_brackets, is_anytls_ipv6_zone_url, parse_anytls_url,
    percent_encode_fragment, percent_encode_userinfo, ClientRuntimeConfig, UrlError, UrlHost,
    UrlParts,
};
use anytls::percent::{percent_decode_lossy, percent_decode_utf8};

#[test]
fn parses_anytls_url_with_userinfo_and_query_params() {
    let raw_url = "anytls://mypassword@example.com?sni=example.com&insecure=1#node%201";
    let config = parse_anytls_url(raw_url).expect("URL should parse");

    assert_eq!(config.server.domain(), "example.com");
    assert_eq!(config.server.port(), 443);
    assert_eq!(config.password, "mypassword");
    assert_eq!(config.sni.as_deref(), Some("example.com"));
    assert!(config.insecure);
    assert_eq!(config.display_name.as_deref(), Some("node 1"));
    assert_eq!(config.authority(), "example.com:443");
}

#[test]
fn rejects_password_query_parameter() {
    let raw_url = "anytls://letmein@example.com/?password=bad&key=val";
    assert!(parse_anytls_url(raw_url).is_err());
}

#[test]
fn parses_anytls_url_with_ipv6_host_without_port() {
    let raw_url = "anytls://[fe80::abcd:1234]/?sni=real.example.com";
    let config = parse_anytls_url(raw_url).expect("URL should parse");

    assert_eq!(config.server.domain(), "fe80::abcd:1234");
    assert_eq!(config.server.port(), 443);
    assert_eq!(config.sni.as_deref(), Some("real.example.com"));
    assert!(!config.insecure);
}

#[test]
fn parses_anytls_url_with_ipv6_host_and_port() {
    let raw_url = "anytls://[fe80::abcd:1234]:8080/?sni=real.example.com";
    let config = parse_anytls_url(raw_url).expect("URL should parse");

    assert_eq!(config.server.domain(), "fe80::abcd:1234");
    assert_eq!(config.server.port(), 8080);
    assert_eq!(config.sni.as_deref(), Some("real.example.com"));
}

#[test]
fn parses_anytls_url_with_auth_and_ipv6_host_without_port() {
    let raw_url = "anytls://letmein@[fe80::abcd:1234]/?sni=real.example.com";
    let config = parse_anytls_url(raw_url).expect("URL should parse");

    assert_eq!(config.server.domain(), "fe80::abcd:1234");
    assert_eq!(config.server.port(), 443);
    assert_eq!(config.password, "letmein");
    assert_eq!(config.sni.as_deref(), Some("real.example.com"));
}

#[test]
fn parses_anytls_url_with_auth_and_ipv6_host_and_port() {
    let raw_url = "anytls://letmein@[fe80::abcd:1234]:8080/?sni=real.example.com";
    let config = parse_anytls_url(raw_url).expect("URL should parse");

    assert_eq!(config.server.domain(), "fe80::abcd:1234");
    assert_eq!(config.server.port(), 8080);
    assert_eq!(config.password, "letmein");
    assert_eq!(config.sni.as_deref(), Some("real.example.com"));
}

#[test]
fn parses_anytls_url_with_auth_and_ipv6_zone_id() {
    let raw_url = "anytls://letmein@[fe80::abcd:1234%eth0]:8080/?sni=real.example.com";
    let config = parse_anytls_url(raw_url).expect("URL should parse");

    assert_eq!(config.server.domain(), "fe80::abcd:1234%eth0");
    assert_eq!(config.server.port(), 8080);
    assert_eq!(config.password, "letmein");
    assert_eq!(config.sni.as_deref(), Some("real.example.com"));
}

#[test]
fn parses_anytls_url_with_query_containing_at_sign() {
    let raw_url = "anytls://letmein@[fe80::abcd:1234%eth0]:8080/?sni=real@example.com";
    let config = parse_anytls_url(raw_url).expect("URL should parse");

    assert_eq!(config.server.domain(), "fe80::abcd:1234%eth0");
    assert_eq!(config.server.port(), 8080);
    assert_eq!(config.password, "letmein");
    assert_eq!(config.sni.as_deref(), Some("real@example.com"));
    assert!(!config.insecure);
}

#[test]
fn parses_anytls_url_with_query_and_fragment_after_ipv6_zone_id() {
    let raw_url = "anytls://letmein@[fe80::abcd:1234%eth0]:8080/?key1=dfsdf&key2=werwrwerwre#frag";
    let config = parse_anytls_url(raw_url).expect("URL should parse");

    assert_eq!(config.server.domain(), "fe80::abcd:1234%eth0");
    assert_eq!(config.server.port(), 8080);
    assert_eq!(config.password, "letmein");
    assert_eq!(config.sni.as_deref(), None);
    assert_eq!(config.display_name.as_deref(), Some("frag"));
}

#[test]
fn parses_anytls_url_with_encoded_ipv6_zone_id() {
    let raw_url = "anytls://[fe80::abcd:1234%25eth0]:8080/?sni=real.example.com";
    let config = parse_anytls_url(raw_url).expect("URL should parse");

    assert_eq!(config.server.domain(), "fe80::abcd:1234%eth0");
    assert_eq!(config.server.port(), 8080);
    assert_eq!(config.sni.as_deref(), Some("real.example.com"));
    assert!(!config.insecure);
}

#[test]
fn parses_anytls_url_dup() {
    let raw_url = "anytls://mypassword@example.com:943?#node%201";
    let config = parse_anytls_url(raw_url).expect("URL should parse");

    assert_eq!(config.server.domain(), "example.com");
    assert_eq!(config.server.port(), 943);
    assert_eq!(config.password, "mypassword");
    assert_eq!(config.display_name.as_deref(), Some("node 1"));
}

#[test]
fn to_anytls_url_includes_dup() {
    let config = ClientRuntimeConfig {
        server: Address::DomainAddress(String::from("example.com"), 443),
        password: "mypassword".to_string(),
        sni: Some("example.com".to_string()),
        insecure: true,
        display_name: Some("node 1".to_string()),
        ..Default::default()
    };

    let uri = config.to_anytls_url();
    assert!(uri.contains("insecure=1"));
    assert!(uri.ends_with("#node%201"));
}

#[test]
fn to_anytls_url_skips_empty_password() {
    let config = ClientRuntimeConfig {
        server: Address::DomainAddress(String::from("example.com"), 443),
        sni: Some("example.com".to_string()),
        ..Default::default()
    };

    let uri = config.to_anytls_url();
    assert_eq!(uri, "anytls://example.com/?sni=example.com");
}

#[test]
fn to_anytls_url_omits_default_port_for_ipv6() {
    let config = ClientRuntimeConfig {
        server: Address::DomainAddress(String::from("fe80::abcd:1234"), 443),
        password: "mypassword".to_string(),
        sni: Some("real.example.com".to_string()),
        ..Default::default()
    };

    let uri = config.to_anytls_url();
    assert_eq!(uri, "anytls://mypassword@[fe80::abcd:1234]/?sni=real.example.com");
}

#[test]
fn to_anytls_url_encodes_ipv6_zone_id() {
    let config = ClientRuntimeConfig {
        server: Address::DomainAddress(String::from("fe80::abcd:1234%eth0"), 8080),
        password: "mypassword".to_string(),
        sni: Some("real.example.com".to_string()),
        ..Default::default()
    };

    let uri = config.to_anytls_url();
    assert!(uri.contains("[fe80::abcd:1234%25eth0]:8080"));
    assert!(uri.contains("sni=real.example.com"));
}

#[test]
fn parses_auth_from_username_and_defaults_port_443() {
    let raw_url = "anytls://mypassword@example.com?sni=example.com&foo=bar&insecure=0";
    let config = parse_anytls_url(raw_url).expect("URL should parse");

    assert_eq!(config.server.domain(), "example.com");
    assert_eq!(config.server.port(), 443);
    assert_eq!(config.password, "mypassword");
    assert_eq!(config.sni.as_deref(), Some("example.com"));
    assert!(!config.insecure);
    assert_eq!(config.display_name.as_deref(), None);
    assert_eq!(config.authority(), "example.com:443");
}

#[test]
fn each_mistake_has_its_error() {
    let error = |url: &str| parse_anytls_url(url).unwrap_err();
    assert!(matches!(error("https://example.com"), UrlError::Scheme));
    assert!(matches!(error("anytls://x@/?y"), UrlError::Malformed(_)));
    assert!(matches!(error("not a url"), UrlError::Malformed(_)));
    assert!(matches!(error("anytls:opaque"), UrlError::MissingHost));
    assert!(matches!(error("anytls://[fe80::1%eth0]:70000/"), UrlError::InvalidPort));
    assert!(matches!(error("anytls://a@h/?password=x"), UrlError::PasswordInQuery));
    assert!(matches!(error("anytls://a@h/?insecure=yes"), UrlError::InvalidInsecure(v) if v == "yes"));
    assert!(matches!(error("anytls://a@h/?client_id=zz"), UrlError::InvalidClientId(_)));
}

#[test]
fn client_ids_are_uuids() {
    let url = "anytls://a@h/?client_id=0123456789ABCDEF0123456789abcdef";
    let config = parse_anytls_url(url).expect("URL should parse");
    let id = config.client_id.expect("client id");
    assert_eq!(id[..4], [0x01, 0x23, 0x45, 0x67]);
    assert_eq!(config.to_anytls_url(), "anytls://a@h/?client_id=01234567-89ab-cdef-0123-456789abcdef");
    assert!(parse_anytls_url("anytls://a@h/?client_id=").unwrap().client_id.is_none());
}

#[test]
fn urls_are_taken_apart_before_they_are_read() {
    let parts = UrlParts {
        scheme: "anytls".to_string(),
        host: UrlHost::Ipv4([10, 0, 0, 1]),
        port: None,
        username: String::new(),
        password: Some("pw".to_string()),
        query: None,
        fragment: Some(String::new()),
    };
    let config = config_from_parts(parts).expect("configuration");
    assert_eq!(config.authority(), "10.0.0.1:443");
    assert_eq!(config.password, "pw");
    assert_eq!(config.display_name, None);
}

#[test]
fn zones_are_recognised() {
    assert!(is_anytls_ipv6_zone_url("anytls://[fe80::1%eth0]/"));
    assert!(!is_anytls_ipv6_zone_url("anytls://[fe80::1]/"));
    assert!(!is_anytls_ipv6_zone_url("https://[fe80::1%eth0]/"));
    assert!(has_crossed_brackets("anytls://]fe80::1%eth0["));
    assert!(!has_crossed_brackets("anytls://[fe80::1%eth0]/"));
}

#[test]
fn queries_are_form_encoded() {
    let config = ClientRuntimeConfig {
        server: Address::DomainAddress("h".to_string(), 1),
        sni: Some("a b&c=d+\u{e9}*-._~".to_string()),
        ..Default::default()
    };
    let uri = config.to_anytls_url();
    assert_eq!(uri, "anytls://h:1/?sni=a+b%26c%3Dd%2B%C3%A9*-._%7E");
    assert_eq!(parse_anytls_url(&uri).unwrap().sni, config.sni);
}

#[test]
fn escapes_are_percent_signs_and_two_digits() {
    assert_eq!(percent_encode_userinfo("a@b:c/\u{e9}"), "a%40b%3Ac%2F%C3%A9");
    assert_eq!(percent_encode_userinfo("100%?#"), "100%25%3F%23");
    assert_eq!(percent_encode_fragment("a@b <c>"), "a@b%20%3Cc%3E");
    assert_eq!(percent_encode_fragment("50%/:"), "50%25/:");
    assert_eq!(percent_decode_lossy("a%40b%zz%ff"), "a@b%zz\u{fffd}");
    assert_eq!(percent_decode_utf8("%C3%A9").as_deref(), Some("\u{e9}"));
    assert_eq!(percent_decode_utf8("%C3"), None);
}

#[test]
fn authorities_have_brackets_where_they_need_them() {
    assert_eq!(format_authority(&Address::DomainAddress("h".to_string(), 80)), "h:80");
    assert_eq!(format_authority(&Address::DomainAddress("fe80::1%lo".to_string(), 80)), "[fe80::1%lo]:80");
    let mut v6 = [0u8; 16];
    v6[15] = 1;
    assert_eq!(format_authority(&Address::Ipv6Address(v6, 80)), "[::1]:80");
}

#[test]
fn configurations_with_a_zone_survive_their_url() {
    let mut id = [0u8; 16];
    id[0] = 0xab;
    let config = ClientRuntimeConfig {
        server: Address::DomainAddress("fe80::abcd:1234%eth0".to_string(), 8080),
        password: "mypassword".to_string(),
        sni: Some("real@example.com #1".to_string()),
        client_id: Some(id),
        insecure: true,
        display_name: Some("my node? 100%".to_string()),
    };
    let read = parse_anytls_url(&config.to_anytls_url()).expect("URL should parse");
    assert_eq!(read.server.domain(), config.server.domain());
    assert_eq!(read.server.port(), 8080);
    assert_eq!(read.password, config.password);
    assert_eq!(read.sni, config.sni);
    assert_eq!(read.client_id, config.client_id);
    assert!(read.insecure);
    assert_eq!(read.display_name, config.display_name);
}

#[test]
fn server_name_is_the_host_unless_one_is_asked_for() {
    let plain = parse_anytls_url("anytls://pw@example.com").unwrap();
    assert_eq!(plain.server_name(), "example.com");
    let asked = parse_anytls_url("anytls://pw@example.com/?sni=other.example").unwrap();
    assert_eq!(asked.server_name(), "other.example");
}

#[test]
fn passwords_are_decoded() {
    let plain = parse_anytls_url("anytls://p%40ss@example.com/").expect("URL should parse");
    assert_eq!(plain.password, "p@ss");
    assert_eq!(plain.server.domain(), "example.com");
    assert_eq!(plain.server.port(), 443);
    let zone = parse_anytls_url("anytls://p%40s%2Fs@[fe80::1%eth0]/").expect("URL should parse");
    assert_eq!(zone.password, "p@s/s");
    let second = parse_anytls_url("anytls://:p%25w@example.com").expect("URL should parse");
    assert_eq!(second.password, "p%w");
}

#[test]
fn passwords_end_at_an_at_sign_of_the_authority() {
    let url = "anytls://[fe80::abcd:1234%eth0]:8080/?sni=real@example.com";
    let config = parse_anytls_url(url).expect("URL should parse");
    assert_eq!(config.password, "");
    assert_eq!(config.server.domain(), "fe80::abcd:1234%eth0");
    assert_eq!(config.server.port(), 8080);
    assert_eq!(config.sni.as_deref(), Some("real@example.com"));
    assert!(!has_crossed_brackets(url));
    let two = parse_anytls_url("anytls://a@b@[fe80::1%eth0]").expect("URL should parse");
    assert_eq!(two.password, "a");
    assert_eq!(two.server.domain(), "fe80::1%eth0");
    assert!(!has_crossed_brackets("anytls://x@[fe80::1%eth0]/#]["));
}

#[test]
fn labels_are_decoded_once() {
    for host in ["example.com", "[fe80::1%eth0]"] {
        let config = parse_anytls_url(&format!("anytls://pw@{host}/#50%2525")).unwrap();
        assert_eq!(config.display_name.as_deref(), Some("50%25"));
    }
}

#[test]
fn labels_hold_no_query() {
    for host in ["example.com", "[fe80::1%eth0]"] {
        let config = parse_anytls_url(&format!("anytls://pw@{host}/#a?insecure=1")).unwrap();
        assert!(!config.insecure);
        assert_eq!(config.display_name.as_deref(), Some("a?insecure=1"));
    }
}

#[test]
fn delimiters_in_a_password_are_escaped() {
    let config = ClientRuntimeConfig {
        server: Address::DomainAddress("example.com".to_string(), 443),
        password: "a/b".to_string(),
        ..Default::default()
    };
    let uri = config.to_anytls_url();
    assert_eq!(uri, "anytls://a%2Fb@example.com");
    assert_eq!(parse_anytls_url(&uri).unwrap().password, "a/b");
}

#[test]
fn any_password_and_any_label_survive_their_url() {
    let texts = ["a/b:c@d?e#f", "100%", "%41%zz", " [x] {y} ", "\u{e9}\u{1f600}", "\"<>`^|", "%3=;%"];
    for host in ["example.com", "fe80::1%eth0", "::1", "10.0.0.1", "2001:db8::a0", "::ffff:1.2.3.4"] {
        for text in texts {
            for port in [443, 8443] {
                let config = ClientRuntimeConfig {
                    server: Address::DomainAddress(host.to_string(), port),
                    password: text.to_string(),
                    sni: Some(text.to_string()),
                    display_name: Some(text.to_string()),
                    ..Default::default()
                };
                let read = parse_anytls_url(&config.to_anytls_url()).expect("URL should parse");
                assert_eq!(read.server.domain(), host);
                assert_eq!(read.server.port(), port);
                assert_eq!(read.password, text);
                assert_eq!(read.sni.as_deref(), Some(text));
                assert_eq!(read.display_name.as_deref(), Some(text));
                assert!(!read.insecure);
            }
        }
    }
}

#[test]
fn every_visible_character_survives_its_url() {
    for c in '!'..='~' {
        let text = format!("a{c}b");
        let host = if "#%/:<>?@[\\]^|".contains(c) { "Host".to_string() } else { format!("h{c}H") };
        let config = ClientRuntimeConfig {
            server: Address::DomainAddress(host.clone(), 0),
            password: text.clone(),
            sni: Some(text.clone()),
            client_id: Some([c as u8; 16]),
            insecure: true,
            display_name: Some(text.clone()),
        };
        let read = parse_anytls_url(&config.to_anytls_url()).expect("URL should parse");
        assert_eq!((read.server.domain(), read.server.port()), (host, 0));
        assert_eq!(read.password, text);
        assert_eq!(read.sni, config.sni);
        assert_eq!(read.client_id, config.client_id);
        assert_eq!(read.display_name, config.display_name);
        assert!(read.insecure);
    }
    for n in 0..16 {
        let mut ip = [0u8; 16];
        ip[n] = 0xf0;
        ip[15 - n] |= 1;
        let config = ClientRuntimeConfig { server: Address::Ipv6Address(ip, 443), ..Default::default() };
        let read = parse_anytls_url(&config.to_anytls_url()).expect("URL should parse");
        assert!(matches!(read.server, Address::Ipv6Address(read_ip, 443) if read_ip == ip));
    }
}
