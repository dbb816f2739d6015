use rename_device::{normalize, MacAddress, ResolveError};

#[test]
fn normalize_gives_lowercase_canonical_text() {
    let mac = normalize("AA:BB:CC:DD:EE:1F").unwrap();
    assert_eq!(mac.to_canonical_string(), "aa:bb:cc:dd:ee:1f");
    assert_eq!(mac.octets(), [0xaa, 0xbb, 0xcc, 0xdd, 0xee, 0x1f]);
}

#[test]
fn normalize_is_idempotent() {
    let once = normalize("aA:Bb:0c:9D:e0:1F").unwrap();
    let text = once.to_canonical_string();
    assert_eq!(text, "aa:bb:0c:9d:e0:1f");
    let twice = normalize(&text).unwrap();
    assert_eq!(once, twice);
    assert_eq!(twice.to_canonical_string(), text);
}

#[test]
fn normalize_keeps_canonical_text() {
    let mac = normalize("00:11:22:33:44:55").unwrap();
    assert_eq!(mac.to_canonical_string(), "00:11:22:33:44:55");
    assert_eq!(mac.octets(), [0x00, 0x11, 0x22, 0x33, 0x44, 0x55]);
}

#[test]
fn normalize_reads_each_digit() {
    let mac = normalize("01:23:45:67:89:ab").unwrap();
    assert_eq!(mac.octets(), [0x01, 0x23, 0x45, 0x67, 0x89, 0xab]);
    let mac = normalize("CD:EF:cd:ef:0A:a0").unwrap();
    assert_eq!(mac.octets(), [0xcd, 0xef, 0xcd, 0xef, 0x0a, 0xa0]);
}

#[test]
fn normalize_rejects_wrong_group_count() {
    assert_eq!(normalize("aa:bb:cc:dd:ee"), Err(ResolveError::InvalidMacFormat));
    assert_eq!(normalize("aa:bb:cc:dd:ee:ff:00"), Err(ResolveError::InvalidMacFormat));
    assert_eq!(normalize(""), Err(ResolveError::InvalidMacFormat));
}

#[test]
fn normalize_rejects_non_hex_characters() {
    assert_eq!(normalize("aa:bb:cc:dd:ee:fg"), Err(ResolveError::InvalidMacFormat));
    assert_eq!(normalize("zz:bb:cc:dd:ee:ff"), Err(ResolveError::InvalidMacFormat));
    assert_eq!(normalize("+a:bb:cc:dd:ee:ff"), Err(ResolveError::InvalidMacFormat));
    assert_eq!(normalize("aa:bb:cc:dd:ee:f\u{e9}"), Err(ResolveError::InvalidMacFormat));
}

#[test]
fn normalize_rejects_wrong_separator() {
    assert_eq!(normalize("aa-bb-cc-dd-ee-ff"), Err(ResolveError::InvalidMacFormat));
    assert_eq!(normalize("aa:bb:cc:dd:ee-ff"), Err(ResolveError::InvalidMacFormat));
    assert_eq!(normalize("aa bb cc dd ee ff"), Err(ResolveError::InvalidMacFormat));
}

#[test]
fn normalize_rejects_other_shapes() {
    assert_eq!(normalize("aabbccddeeff"), Err(ResolveError::InvalidMacFormat));
    assert_eq!(normalize("a:b:c:d:e:f"), Err(ResolveError::InvalidMacFormat));
    assert_eq!(normalize("1:2:3:4:5:6:7:8:9"), Err(ResolveError::InvalidMacFormat));
    assert_eq!(normalize("aa:bb:cc:dd:ee:f:"), Err(ResolveError::InvalidMacFormat));
    assert_eq!(normalize(" aa:bb:cc:dd:ee:ff"), Err(ResolveError::InvalidMacFormat));
    assert_eq!(normalize("aa:bb:cc:dd:ee:ff "), Err(ResolveError::InvalidMacFormat));
    assert_eq!(normalize("aaa:bb:cc:dd:ee:f"), Err(ResolveError::InvalidMacFormat));
}

#[test]
fn canonical_text_pads_and_lowers() {
    let mac = MacAddress::from_octets([0x00, 0x0a, 0xa0, 0xff, 0x1f, 0xf1]);
    assert_eq!(mac.to_canonical_string(), "00:0a:a0:ff:1f:f1");
}

#[test]
fn canonical_text_round_trips() {
    let mac = MacAddress::from_octets([0xde, 0xad, 0xbe, 0xef, 0x00, 0x01]);
    let again = normalize(&mac.to_canonical_string()).unwrap();
    assert_eq!(again.octets(), [0xde, 0xad, 0xbe, 0xef, 0x00, 0x01]);
    assert_eq!(mac, again);
}

#[test]
fn addresses_compare_by_octets() {
    let lower = normalize("aa:bb:cc:dd:ee:ff").unwrap();
    let upper = normalize("AA:BB:CC:DD:EE:FF").unwrap();
    let other = normalize("aa:bb:cc:dd:ee:fe").unwrap();
    assert!(lower == upper);
    assert!(lower != other);
    assert_eq!(lower.to_canonical_string(), upper.to_canonical_string());
    assert_ne!(lower.to_canonical_string(), other.to_canonical_string());
}

#[test]
fn from_octets_keeps_the_octets() {
    let mac = MacAddress::from_octets([1, 2, 3, 4, 5, 6]);
    assert_eq!(mac.octets(), [1, 2, 3, 4, 5, 6]);
}
