use repscout::sanitize::sanitize_input;
use repscout::domain::is_valid_domain;
use repscout::ip::{is_valid_ipv4, is_valid_ipv6};

#[test]
fn accepts_ipv4_trimmed_unchanged() {
    assert_eq!(sanitize_input("8.8.8.8").as_deref(), Some("8.8.8.8"));
    assert_eq!(sanitize_input("  8.8.8.8  ").as_deref(), Some("8.8.8.8"));
    assert_eq!(sanitize_input("\t192.168.0.1\n").as_deref(), Some("192.168.0.1"));
    assert_eq!(sanitize_input("255.255.255.255").as_deref(), Some("255.255.255.255"));
    assert_eq!(sanitize_input("0.0.0.0").as_deref(), Some("0.0.0.0"));
}

#[test]
fn accepts_ipv6_trimmed_unchanged() {
    assert_eq!(sanitize_input("::1").as_deref(), Some("::1"));
    assert_eq!(sanitize_input(" :: ").as_deref(), Some("::"));
    assert_eq!(sanitize_input("2001:db8::1").as_deref(), Some("2001:db8::1"));
    assert_eq!(sanitize_input("1:2:3:4:5:6:7:8").as_deref(), Some("1:2:3:4:5:6:7:8"));
    assert_eq!(sanitize_input("::ffff:1.2.3.4").as_deref(), Some("::ffff:1.2.3.4"));
    assert_eq!(sanitize_input("1:2:3:4:5:6:1.2.3.4").as_deref(), Some("1:2:3:4:5:6:1.2.3.4"));
    assert_eq!(sanitize_input("fe80::").as_deref(), Some("fe80::"));
}

#[test]
fn rejects_out_of_range_octets() {
    assert_eq!(sanitize_input("999.999.1.1"), None);
    assert_eq!(sanitize_input("999.1.1.1"), None);
    assert_eq!(sanitize_input("256.1.1.1"), None);
    assert_eq!(sanitize_input("1.2.3.256"), None);
    assert_eq!(sanitize_input("1234.1.1.1"), None);
}

#[test]
fn rejects_malformed_quads() {
    assert_eq!(sanitize_input("1.2.3"), None);
    assert_eq!(sanitize_input("1.2.3.4.5"), None);
    assert_eq!(sanitize_input("01.2.3.4"), None);
    assert_eq!(sanitize_input("1..2.3"), None);
    assert_eq!(sanitize_input("1.2.3."), None);
}

#[test]
fn rejects_malformed_ipv6() {
    assert_eq!(sanitize_input("1:2:3:4:5:6:7:8:9"), None);
    assert_eq!(sanitize_input("1::2::3"), None);
    assert_eq!(sanitize_input(":::"), None);
    assert_eq!(sanitize_input("1:2:3:4:5:6:7::8"), None);
    assert_eq!(sanitize_input("12345::"), None);
    assert_eq!(sanitize_input("g::1"), None);
    assert_eq!(sanitize_input(":1:2:3:4:5:6:7"), None);
}

#[test]
fn accepts_domains() {
    assert_eq!(sanitize_input("example.com").as_deref(), Some("example.com"));
    assert_eq!(sanitize_input("EXAMPLE.COM").as_deref(), Some("EXAMPLE.COM"));
    assert_eq!(sanitize_input("  example.com  ").as_deref(), Some("example.com"));
    assert_eq!(sanitize_input("a.b-c.org").as_deref(), Some("a.b-c.org"));
    assert_eq!(sanitize_input("talosintelligence.com").as_deref(), Some("talosintelligence.com"));
    assert_eq!(sanitize_input("sub.domain.example.net").as_deref(), Some("sub.domain.example.net"));
}

#[test]
fn rejects_non_domains() {
    assert_eq!(sanitize_input("localhost"), None);
    assert_eq!(sanitize_input("a..b.com"), None);
    assert_eq!(sanitize_input("-a.com"), None);
    assert_eq!(sanitize_input("a-.com"), None);
    assert_eq!(sanitize_input("not a domain"), None);
    assert_eq!(sanitize_input(""), None);
    assert_eq!(sanitize_input("   "), None);
    assert_eq!(sanitize_input("a.123"), None);
    assert_eq!(sanitize_input("example.c"), None);
}

#[test]
fn label_length_limits() {
    let label63 = "a".repeat(63);
    let label64 = "a".repeat(64);
    assert!(is_valid_domain(&format!("{}.com", label63)));
    assert!(!is_valid_domain(&format!("{}.com", label64)));
}

#[test]
fn ipv4_checker_details() {
    assert!(is_valid_ipv4("0.0.0.0"));
    assert!(is_valid_ipv4("10.20.30.40"));
    assert!(!is_valid_ipv4("10.20.30"));
    assert!(!is_valid_ipv4("10.020.30.40"));
    assert!(!is_valid_ipv4("300.1.1.1"));
    assert!(!is_valid_ipv4("1.2.3.4 "));
}

#[test]
fn ipv6_checker_details() {
    assert!(is_valid_ipv6("::"));
    assert!(is_valid_ipv6("1::"));
    assert!(is_valid_ipv6("::8:9"));
    assert!(is_valid_ipv6("abcd:ef01:2345:6789:abcd:ef01:2345:6789"));
    assert!(!is_valid_ipv6("1.2.3.4"));
    assert!(!is_valid_ipv6("1:2"));
    assert!(!is_valid_ipv6("1:::8"));
}
