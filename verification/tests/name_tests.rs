use rename_device::{is_kernel_style, DeviceName, ResolveError};

#[test]
fn kernel_style_names() {
    assert!(is_kernel_style("eth0"));
    assert!(!is_kernel_style("eth0a"));
    assert!(!is_kernel_style("lan0"));
}

#[test]
fn kernel_style_needs_digits_only() {
    assert!(is_kernel_style("eth12"));
    assert!(!is_kernel_style("eth12a"));
    assert!(!is_kernel_style("eth"));
    assert!(!is_kernel_style(""));
    assert!(!is_kernel_style("et"));
    assert!(!is_kernel_style("ETH0"));
    assert!(!is_kernel_style("xeth0"));
    assert!(!is_kernel_style("eth 0"));
    assert!(!is_kernel_style("eth0 "));
    assert!(!is_kernel_style("eth-1"));
    assert!(is_kernel_style("eth0123456789"));
    assert!(!is_kernel_style("eth\u{0661}"));
}

#[test]
fn device_name_accepts_one_to_fifteen_characters() {
    assert_eq!(DeviceName::new("a").unwrap().as_str(), "a");
    assert_eq!(DeviceName::new("correct_if_name").unwrap().as_str(), "correct_if_name");
    assert_eq!(DeviceName::new("wan uplink").unwrap().as_str(), "wan uplink");
    assert_eq!(DeviceName::new("\u{e9}t\u{e9}0123456789ab").unwrap().as_str().chars().count(), 15);
}

#[test]
fn device_name_rejects_bad_text() {
    assert_eq!(DeviceName::new("").unwrap_err(), ResolveError::MalformedName);
    assert_eq!(DeviceName::new("sixteen_chars_xx").unwrap_err(), ResolveError::MalformedName);
    assert_eq!(DeviceName::new("eth0:1").unwrap_err(), ResolveError::MalformedName);
    assert_eq!(DeviceName::new(":eth0").unwrap_err(), ResolveError::MalformedName);
    assert_eq!(DeviceName::new(" eth0").unwrap_err(), ResolveError::MalformedName);
    assert_eq!(DeviceName::new("\teth0").unwrap_err(), ResolveError::MalformedName);
    assert_eq!(DeviceName::new("\u{a0}eth0").unwrap_err(), ResolveError::MalformedName);
    assert_eq!(DeviceName::new("\u{3000}eth0").unwrap_err(), ResolveError::MalformedName);
}

#[test]
fn device_name_knows_kernel_style() {
    assert!(DeviceName::new("eth7").unwrap().is_kernel_style());
    assert!(!DeviceName::new("lan7").unwrap().is_kernel_style());
}

#[test]
fn device_names_compare_by_text() {
    let a = DeviceName::new("lan0").unwrap();
    let b = DeviceName::new("lan0").unwrap();
    let c = DeviceName::new("lan1").unwrap();
    assert!(a == b);
    assert!(a != c);
    assert!(a.clone() == a);
}
