use client_hw_info::hardware::parse_pci_id;
use client_hw_info::parse::parse_i32;
use client_hw_info::software::{collect_software_info, version_from_output};
use client_hw_info::system::collect_system_info;
use client_hw_info::text::{contains, same_text};

#[test]
fn version_prefers_standard_output() {
    assert_eq!(
        version_from_output(true, "Docker version 27.0.3\n", "warning"),
        Some("Docker version 27.0.3".to_string())
    );
    assert_eq!(
        version_from_output(true, "  \n", "amd-smi 24.6\n"),
        Some("amd-smi 24.6".to_string())
    );
    assert_eq!(version_from_output(true, "", " \t"), None);
    assert_eq!(version_from_output(false, "Docker version 27.0.3", ""), None);
}

#[test]
fn software_defaults_to_empty() {
    let s = collect_software_info(Some("Docker version 27.0.3".to_string()), None, None);
    assert_eq!(s.docker, "Docker version 27.0.3");
    assert_eq!(s.nvidia, "");
    assert_eq!(s.amd, "");
}

#[test]
fn system_defaults_to_empty_os() {
    let s = collect_system_info(None, "6.8.0".to_string());
    assert_eq!(s.os, "");
    assert_eq!(s.kernel, "6.8.0");
    let t = collect_system_info(Some("Linux 24.04 Ubuntu".to_string()), "6.8.0".to_string());
    assert_eq!(t.os, "Linux 24.04 Ubuntu");
}

#[test]
fn numbers_parse_like_std() {
    assert_eq!(parse_i32("1000"), Some(1000));
    assert_eq!(parse_i32("-1"), Some(-1));
    assert_eq!(parse_i32("+7"), Some(7));
    assert_eq!(parse_i32("2147483647"), Some(i32::MAX));
    assert_eq!(parse_i32("-2147483648"), Some(i32::MIN));
    assert_eq!(parse_i32("2147483648"), None);
    assert_eq!(parse_i32("-2147483649"), None);
    assert_eq!(parse_i32("-"), None);
    assert_eq!(parse_i32(""), None);
    assert_eq!(parse_i32("1 "), None);
    assert_eq!(parse_pci_id("ffff"), Some(0xffff));
    assert_eq!(parse_pci_id("aB"), Some(0xab));
    assert_eq!(parse_pci_id("g"), None);
    for s in ["0", "12", "-5", "+9", "99999999999", "abc"] {
        assert_eq!(parse_i32(s), s.parse::<i32>().ok());
        assert_eq!(parse_pci_id(s), u16::from_str_radix(s, 16).ok());
    }
}

#[test]
fn text_helpers() {
    assert!(same_text("abc", "abc"));
    assert!(!same_text("abc", "abd"));
    assert!(contains("enp3s0", "en"));
    assert!(contains("en", "en"));
    assert!(!contains("eth0", "en"));
    assert!(contains("abc", ""));
}
