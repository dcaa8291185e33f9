use anytls::settings::StringMap;

#[test]
fn settings_are_written_one_per_line() {
    let mut map = StringMap::new();
    map.insert("v", "2");
    map.insert("client", "x");
    map.insert("v", "3");
    assert_eq!(map.to_bytes(), b"v=3\nclient=x".to_vec());
}

#[test]
fn settings_are_read_back() {
    let map = StringMap::from_bytes(b"v=2\nnonsense\nk=a=b\nv=7");
    assert_eq!(map.get("v"), Some(&b"7"[..]));
    assert_eq!(map.get("k"), Some(&b"a=b"[..]));
    assert_eq!(map.get("nonsense"), None);
    assert_eq!(map.version(), Some(7));
}

#[test]
fn versions_are_small_decimal_numbers() {
    assert_eq!(StringMap::from_bytes(b"v=+12").version(), Some(12));
    assert_eq!(StringMap::from_bytes(b"v=255").version(), Some(255));
    assert_eq!(StringMap::from_bytes(b"v=256").version(), None);
    assert_eq!(StringMap::from_bytes(b"v=").version(), None);
    assert_eq!(StringMap::from_bytes(b"v=2x").version(), None);
    assert_eq!(StringMap::from_bytes(b"w=2").version(), None);
}

#[test]
fn written_settings_are_read_as_they_were() {
    let mut map = StringMap::new();
    map.insert("v", "2");
    map.insert("client", "anytls/0.3.0");
    map.insert("note", "a=b");
    let read = StringMap::from_bytes(&map.to_bytes());
    assert_eq!(read.to_bytes(), map.to_bytes());
    assert_eq!(read.get("note"), Some(&b"a=b"[..]));
}
