use rename_device::{find_device_name, normalize, DeviceName};

fn found(text: &str, target: &str) -> Option<String> {
    let mac = normalize(target).unwrap();
    find_device_name(text, &mac).map(|name: DeviceName| name.as_str().to_string())
}

#[test]
fn cmdline_hint_gives_the_name() {
    assert_eq!(
        found("ifname=unit_test_1:aa:bb:cc:dd:ee:1f", "aa:bb:cc:dd:ee:1f"),
        Some("unit_test_1".to_string())
    );
}

#[test]
fn cmdline_without_matching_hint_gives_nothing() {
    assert_eq!(found("ifname=unit_test_1:aa:bb:cc:dd:ee:1f", "aa:bb:cc:dd:ee:2f"), None);
    assert_eq!(found("", "aa:bb:cc:dd:ee:1f"), None);
    assert_eq!(found("root=/dev/sda1 ro quiet", "aa:bb:cc:dd:ee:1f"), None);
}

#[test]
fn cmdline_hint_among_other_tokens() {
    let text = "BOOT_IMAGE=/vmlinuz root=/dev/sda1 ifname=lan0:AA:BB:CC:DD:EE:1F ro quiet\n";
    assert_eq!(found(text, "aa:bb:cc:dd:ee:1f"), Some("lan0".to_string()));
}

#[test]
fn cmdline_compares_addresses_without_case() {
    assert_eq!(found("ifname=up:Aa:bB:CC:dd:EE:1f", "AA:BB:cc:DD:ee:1F"), Some("up".to_string()));
}

#[test]
fn cmdline_first_matching_hint_wins() {
    let text = "ifname=other:00:11:22:33:44:55 ifname=first:aa:bb:cc:dd:ee:1f \
                ifname=second:aa:bb:cc:dd:ee:1f";
    assert_eq!(found(text, "aa:bb:cc:dd:ee:1f"), Some("first".to_string()));
    assert_eq!(found(text, "00:11:22:33:44:55"), Some("other".to_string()));
}

#[test]
fn cmdline_malformed_address_is_no_hint() {
    assert_eq!(found("ifname=lan0:aa:bb:cc:dd:ee", "aa:bb:cc:dd:ee:1f"), None);
    assert_eq!(found("ifname=lan0:aa:bb:cc:dd:ee:1", "aa:bb:cc:dd:ee:1f"), None);
    assert_eq!(found("ifname=lan0:aa:bb:cc:dd:ee:zz", "aa:bb:cc:dd:ee:1f"), None);
    assert_eq!(found("ifname=lan0:aa-bb-cc-dd-ee-1f", "aa:bb:cc:dd:ee:1f"), None);
    assert_eq!(
        found(
            "ifname=bad:aa:bb:cc:dd:ee:zz ifname=good:aa:bb:cc:dd:ee:1f",
            "aa:bb:cc:dd:ee:1f"
        ),
        Some("good".to_string())
    );
}

#[test]
fn cmdline_name_has_one_to_fifteen_characters() {
    assert_eq!(
        found("ifname=correct_if_name:aa:bb:cc:dd:ee:1f", "aa:bb:cc:dd:ee:1f"),
        Some("correct_if_name".to_string())
    );
    assert_eq!(found("ifname=sixteen_chars_xx:aa:bb:cc:dd:ee:1f", "aa:bb:cc:dd:ee:1f"), None);
    assert_eq!(found("ifname=:aa:bb:cc:dd:ee:1f", "aa:bb:cc:dd:ee:1f"), None);
    assert_eq!(found("ifname=x:aa:bb:cc:dd:ee:1f", "aa:bb:cc:dd:ee:1f"), Some("x".to_string()));
}

#[test]
fn cmdline_name_does_not_start_with_whitespace() {
    assert_eq!(found("ifname= lan0:aa:bb:cc:dd:ee:1f", "aa:bb:cc:dd:ee:1f"), None);
    assert_eq!(
        found("ifname=my lan:aa:bb:cc:dd:ee:1f", "aa:bb:cc:dd:ee:1f"),
        Some("my lan".to_string())
    );
}

#[test]
fn cmdline_key_is_case_sensitive() {
    assert_eq!(found("IFNAME=lan0:aa:bb:cc:dd:ee:1f", "aa:bb:cc:dd:ee:1f"), None);
    assert_eq!(found("ifname:lan0:aa:bb:cc:dd:ee:1f", "aa:bb:cc:dd:ee:1f"), None);
}

#[test]
fn cmdline_hint_may_be_followed_by_anything() {
    assert_eq!(
        found("ifname=lan0:aa:bb:cc:dd:ee:1f:99", "aa:bb:cc:dd:ee:1f"),
        Some("lan0".to_string())
    );
}

#[test]
fn cmdline_key_inside_a_name() {
    assert_eq!(
        found("ifname=aifname=b:aa:bb:cc:dd:ee:1f", "aa:bb:cc:dd:ee:1f"),
        Some("aifname=b".to_string())
    );
}
