use rename_device::{extract, normalize, parse_line, ConfigEntry};

fn named(content: &str, target: &str) -> Option<String> {
    let mac = normalize(target).unwrap();
    extract(content, &mac).unwrap().map(|name| name.as_str().to_string())
}

fn device(line: &str) -> Option<String> {
    match parse_line(line).unwrap() {
        ConfigEntry::Device(name) => Some(name.as_str().to_string()),
        _ => None,
    }
}

fn hwaddr(line: &str) -> Option<[u8; 6]> {
    match parse_line(line).unwrap() {
        ConfigEntry::Hwaddr(mac) => Some(mac.octets()),
        _ => None,
    }
}

#[test]
fn config_file_with_matching_address_gives_the_device() {
    let content = "HWADDR=AA:BB:CC:DD:EE:3F\nDEVICE=correct_if_name\n";
    assert_eq!(named(content, "aa:bb:cc:dd:ee:3f"), Some("correct_if_name".to_string()));
}

#[test]
fn config_file_with_other_address_gives_nothing() {
    let content = "HWADDR=AA:BB:CC:DD:EE:3F\nDEVICE=correct_if_name\n";
    assert_eq!(named(content, "aa:bb:cc:dd:ee:40"), None);
}

#[test]
fn config_file_without_address_gives_nothing() {
    assert_eq!(named("DEVICE=correct_if_name\n", "aa:bb:cc:dd:ee:3f"), None);
    assert_eq!(named("DEVICE=correct_if_name\nHWADDR=\n", "aa:bb:cc:dd:ee:3f"), None);
    assert_eq!(named("", "aa:bb:cc:dd:ee:3f"), None);
}

#[test]
fn config_file_without_device_gives_nothing() {
    assert_eq!(named("HWADDR=AA:BB:CC:DD:EE:3F\n", "aa:bb:cc:dd:ee:3f"), None);
    assert_eq!(named("HWADDR=AA:BB:CC:DD:EE:3F\nDEVICE=\n", "aa:bb:cc:dd:ee:3f"), None);
}

#[test]
fn config_file_order_of_lines_does_not_matter() {
    let content = "# comment\nDEVICE=lan0\nBOOTPROTO=dhcp\nHWADDR=aa:bb:cc:dd:ee:3f\nONBOOT=yes";
    assert_eq!(named(content, "aa:bb:cc:dd:ee:3f"), Some("lan0".to_string()));
}

#[test]
fn config_file_last_occurrence_wins() {
    let content = "DEVICE=first\nHWADDR=00:11:22:33:44:55\nDEVICE=second\nHWADDR=aa:bb:cc:dd:ee:3f\n";
    assert_eq!(named(content, "aa:bb:cc:dd:ee:3f"), Some("second".to_string()));
    assert_eq!(named(content, "00:11:22:33:44:55"), None);
}

#[test]
fn config_file_invalid_later_line_does_not_replace() {
    let content = "DEVICE=lan0\nHWADDR=aa:bb:cc:dd:ee:3f\nDEVICE=\nHWADDR=zz\n";
    assert_eq!(named(content, "aa:bb:cc:dd:ee:3f"), Some("lan0".to_string()));
}

#[test]
fn config_file_with_carriage_returns() {
    let content = "HWADDR=AA:BB:CC:DD:EE:3F\r\nDEVICE=lan0\r\n";
    assert_eq!(named(content, "aa:bb:cc:dd:ee:3f"), Some("lan0".to_string()));
}

#[test]
fn config_file_without_final_line_feed() {
    assert_eq!(
        named("HWADDR=AA:BB:CC:DD:EE:3F\nDEVICE=lan0", "aa:bb:cc:dd:ee:3f"),
        Some("lan0".to_string())
    );
    assert_eq!(
        named("DEVICE=lan0\nHWADDR=AA:BB:CC:DD:EE:3F", "aa:bb:cc:dd:ee:3f"),
        Some("lan0".to_string())
    );
}

#[test]
fn config_file_with_empty_lines() {
    assert_eq!(
        named("\n\nHWADDR=AA:BB:CC:DD:EE:3F\n\n\nDEVICE=lan0\n\n", "aa:bb:cc:dd:ee:3f"),
        Some("lan0".to_string())
    );
}

#[test]
fn line_with_device() {
    assert_eq!(device("DEVICE=correct_if_name"), Some("correct_if_name".to_string()));
    assert_eq!(device("DEVICE=x"), Some("x".to_string()));
}

#[test]
fn line_with_leading_whitespace() {
    assert_eq!(device("  \tDEVICE=lan0"), Some("lan0".to_string()));
    assert_eq!(hwaddr(" \u{a0}HWADDR=00:01:02:03:04:05"), Some([0, 1, 2, 3, 4, 5]));
}

#[test]
fn line_device_stops_at_colon_and_at_fifteen() {
    assert_eq!(device("DEVICE=eth0:1"), Some("eth0".to_string()));
    assert_eq!(device("DEVICE=sixteen_chars_xx"), Some("sixteen_chars_x".to_string()));
    assert_eq!(device("DEVICE=lan0 # uplink"), Some("lan0 # uplink".to_string()));
}

#[test]
fn line_device_needs_a_name() {
    assert_eq!(device("DEVICE="), None);
    assert_eq!(device("DEVICE= lan0"), None);
    assert_eq!(device("DEVICE=:lan0"), None);
    assert_eq!(device("DEVICE =lan0"), None);
    assert_eq!(device("device=lan0"), None);
    assert_eq!(device("#DEVICE=lan0"), None);
    assert_eq!(device("XDEVICE=lan0"), None);
}

#[test]
fn line_with_hwaddr() {
    assert_eq!(hwaddr("HWADDR=AA:BB:CC:DD:EE:3F"), Some([0xaa, 0xbb, 0xcc, 0xdd, 0xee, 0x3f]));
    assert_eq!(hwaddr("HWADDR=aa:bb:cc:dd:ee:3f # eth"), Some([0xaa, 0xbb, 0xcc, 0xdd, 0xee, 0x3f]));
}

#[test]
fn line_hwaddr_needs_an_address() {
    assert_eq!(hwaddr("HWADDR="), None);
    assert_eq!(hwaddr("HWADDR=aa:bb:cc:dd:ee"), None);
    assert_eq!(hwaddr("HWADDR=aa-bb-cc-dd-ee-3f"), None);
    assert_eq!(hwaddr("HWADDR= aa:bb:cc:dd:ee:3f"), None);
    assert_eq!(hwaddr("HWADDR=\"aa:bb:cc:dd:ee:3f\""), None);
    assert_eq!(hwaddr("hwaddr=aa:bb:cc:dd:ee:3f"), None);
    assert_eq!(hwaddr("MACADDR=aa:bb:cc:dd:ee:3f"), None);
}

#[test]
fn line_other() {
    assert!(matches!(parse_line("").unwrap(), ConfigEntry::Other));
    assert!(matches!(parse_line("   ").unwrap(), ConfigEntry::Other));
    assert!(matches!(parse_line("ONBOOT=yes").unwrap(), ConfigEntry::Other));
    assert!(matches!(parse_line("DEVIC").unwrap(), ConfigEntry::Other));
}
