use platypus::error::DomainErrorKind;
use platypus::network::{
    domain_is_subdomain_of, domain_labels, ends_with_dot_suffix, domain_tld, ipv4_is_broadcast, ipv4_is_link_local,
    ipv4_is_loopback, ipv4_is_private, ipv4_is_unspecified, ipv4_octets, ipv6_is_ipv4_mapped,
    ipv6_is_loopback, ipv6_is_unspecified, ipv6_octets, ipv6_segments, port_is_dynamic,
    port_is_ephemeral, port_is_privileged, port_is_registered, port_is_well_known,
    validate_domain_label, ValidDomainName, ValidIpv4, ValidIpv6, ValidPort,
};

fn v4(s: &str) -> Result<(), platypus::DomainError> {
    ValidIpv4::check(&s.to_string())
}

fn v6(s: &str) -> Result<(), platypus::DomainError> {
    ValidIpv6::check(&s.to_string())
}

fn dom(s: &str) -> Result<(), platypus::DomainError> {
    ValidDomainName::check(&s.to_string())
}

// IPv4

#[test]
fn valid_simple_ipv4() {
    assert!(v4("192.168.1.1").is_ok());
}

#[test]
fn valid_all_zeros() {
    assert!(v4("0.0.0.0").is_ok());
}

#[test]
fn valid_all_255() {
    assert!(v4("255.255.255.255").is_ok());
}

#[test]
fn network_valid_loopback() {
    assert!(v4("127.0.0.1").is_ok());
    assert!(v6("::1").is_ok());
}

#[test]
fn valid_class_a_private() {
    assert!(v4("10.0.0.1").is_ok());
}

#[test]
fn valid_class_b_private() {
    assert!(v4("172.16.0.1").is_ok());
}

#[test]
fn valid_class_c_private() {
    assert!(v4("192.168.0.1").is_ok());
}

#[test]
fn network_invalid_empty() {
    let err = v4("").unwrap_err();
    assert!(matches!(err.reason, DomainErrorKind::Empty));
    let err = v6("").unwrap_err();
    assert!(matches!(err.reason, DomainErrorKind::Empty));
    let err = dom("").unwrap_err();
    assert!(matches!(err.reason, DomainErrorKind::Empty));
}

#[test]
fn invalid_octet_too_high() {
    assert!(v4("256.0.0.0").is_err());
}

#[test]
fn invalid_too_few_octets() {
    assert!(v4("1.2.3").is_err());
}

#[test]
fn invalid_too_many_octets() {
    assert!(v4("1.2.3.4.5").is_err());
}

#[test]
fn invalid_letters() {
    assert!(v4("abc.def.ghi.jkl").is_err());
}

#[test]
fn network_invalid_negative() {
    assert!(v4("-1.0.0.0").is_err());
}

#[test]
fn network_invalid_spaces() {
    assert!(v4("192.168.1. 1").is_err());
}

#[test]
fn ipv4_leading_zeros_rejected() {
    assert!(v4("01.2.3.4").is_err());
    assert!(v4("1.2.3.00").is_err());
    assert!(v4("1.2.3.0").is_ok());
    assert!(v4("1.2.3.1234").is_err());
    assert!(v4("1.2.3.4 ").is_err());
    assert!(v4("1..3.4").is_err());
}

#[test]
fn network_ext_to_std() {
    assert_eq!(ipv4_octets("192.168.1.1"), [192, 168, 1, 1]);
    assert_eq!(ipv6_segments("::1"), [0, 0, 0, 0, 0, 0, 0, 1]);
}

#[test]
fn network_ext_is_loopback() {
    assert!(ipv4_is_loopback("127.0.0.1"));
    assert!(!ipv4_is_loopback("192.168.1.1"));
    assert!(ipv6_is_loopback("::1"));
    assert!(!ipv6_is_loopback("2001:db8::1"));
}

#[test]
fn ext_is_private() {
    assert!(ipv4_is_private("10.0.0.1"));
    assert!(ipv4_is_private("172.16.0.1"));
    assert!(ipv4_is_private("192.168.1.1"));
    assert!(!ipv4_is_private("8.8.8.8"));
    assert!(ipv4_is_private("172.31.255.255"));
    assert!(!ipv4_is_private("172.32.0.0"));
}

#[test]
fn ext_is_link_local() {
    assert!(ipv4_is_link_local("169.254.1.1"));
    assert!(!ipv4_is_link_local("192.168.1.1"));
}

#[test]
fn ext_is_broadcast() {
    assert!(ipv4_is_broadcast("255.255.255.255"));
    assert!(!ipv4_is_broadcast("192.168.1.1"));
}

#[test]
fn network_ext_is_unspecified() {
    assert!(ipv4_is_unspecified("0.0.0.0"));
    assert!(!ipv4_is_unspecified("192.168.1.1"));
    assert!(ipv6_is_unspecified("::"));
    assert!(!ipv6_is_unspecified("::1"));
}

#[test]
fn ext_octets() {
    assert_eq!(ipv4_octets("192.168.1.1"), [192, 168, 1, 1]);
}

#[test]
fn network_error_includes_format_name() {
    assert_eq!(v4("invalid").unwrap_err().format_name, "IPv4 address");
    assert_eq!(v6("invalid").unwrap_err().format_name, "IPv6 address");
    assert_eq!(dom("-invalid.com").unwrap_err().format_name, "domain name");
    assert_eq!(ValidPort::check(&0).unwrap_err().format_name, "port");
}

#[test]
fn network_error_includes_example() {
    assert_eq!(v4("invalid").unwrap_err().example, "192.168.1.1");
    assert_eq!(v6("invalid").unwrap_err().example, "2001:db8::1");
    assert_eq!(dom("-invalid.com").unwrap_err().example, "example.com");
    assert_eq!(ValidPort::check(&0).unwrap_err().example, "8080");
}

#[test]
fn network_description_returns_expected() {
    assert_eq!(ValidIpv4::description(), "RFC 791 IPv4 address");
    assert_eq!(ValidIpv6::description(), "RFC 4291 IPv6 address");
    assert_eq!(ValidDomainName::description(), "RFC 1035 domain name");
    assert_eq!(ValidPort::description(), "TCP/UDP port number (1-65535)");
}

// IPv6

#[test]
fn valid_unspecified() {
    assert!(v6("::").is_ok());
}

#[test]
fn valid_compressed() {
    assert!(v6("2001:db8::1").is_ok());
}

#[test]
fn valid_full() {
    assert!(v6("2001:0db8:0000:0000:0000:0000:0000:0001").is_ok());
}

#[test]
fn valid_mixed_case() {
    assert!(v6("2001:DB8::1").is_ok());
}

#[test]
fn valid_link_local() {
    assert!(v6("fe80::1").is_ok());
}

#[test]
fn valid_ipv4_mapped() {
    assert!(v6("::ffff:192.168.1.1").is_ok());
}

#[test]
fn invalid_triple_colon() {
    assert!(v6(":::").is_err());
}

#[test]
fn invalid_too_many_groups() {
    assert!(v6("1:2:3:4:5:6:7:8:9").is_err());
}

#[test]
fn invalid_invalid_hex() {
    assert!(v6("2001:db8::g").is_err());
}

#[test]
fn invalid_group_too_long() {
    assert!(v6("12345::1").is_err());
}

#[test]
fn ipv6_grammar_edges() {
    assert!(v6("1:2:3:4:5:6:7:8").is_ok());
    assert!(v6("1:2:3:4:5:6:1.2.3.4").is_ok());
    assert!(v6("1::2:3:4:5:6:7").is_ok());
    assert!(v6("1::2:3:4:5:6:7:8").is_err());
    assert!(v6("1.2.3.4::").is_err());
    assert!(v6("::1.2.3.4").is_ok());
    assert!(v6("1:2").is_err());
    assert!(v6(":1::").is_err());
    assert!(v6("1::").is_ok());
    assert_eq!(
        ipv6_segments("::ffff:192.168.1.1"),
        [0, 0, 0, 0, 0, 0xffff, 0xc0a8, 0x0101]
    );
    assert_eq!(ipv6_segments("1::2"), [1, 0, 0, 0, 0, 0, 0, 2]);
}

#[test]
fn ext_is_ipv4_mapped() {
    assert!(ipv6_is_ipv4_mapped("::ffff:192.168.1.1"));
    assert!(!ipv6_is_ipv4_mapped("2001:db8::1"));
}

#[test]
fn ext_segments() {
    let segments = ipv6_segments("2001:db8::1");
    assert_eq!(segments[0], 0x2001);
    assert_eq!(segments[1], 0x0db8);
    assert_eq!(segments[7], 0x0001);
}

#[test]
fn ipv6_octets_are_big_endian() {
    let o = ipv6_octets("2001:db8::1");
    assert_eq!(o[0], 0x20);
    assert_eq!(o[1], 0x01);
    assert_eq!(o[2], 0x0d);
    assert_eq!(o[3], 0xb8);
    assert_eq!(o[15], 0x01);
}

// Domain names

#[test]
fn valid_simple() {
    assert!(dom("example.com").is_ok());
}

#[test]
fn valid_subdomain() {
    assert!(dom("sub.example.com").is_ok());
}

#[test]
fn valid_multiple_subdomains() {
    assert!(dom("a.b.c.example.com").is_ok());
}

#[test]
fn network_valid_localhost() {
    assert!(dom("localhost").is_ok());
}

#[test]
fn valid_co_uk() {
    assert!(dom("example.co.uk").is_ok());
}

#[test]
fn valid_with_numbers() {
    assert!(dom("example123.com").is_ok());
}

#[test]
fn valid_starting_with_number() {
    assert!(dom("123example.com").is_ok());
}

#[test]
fn valid_with_hyphen() {
    assert!(dom("my-example.com").is_ok());
}

#[test]
fn valid_short_labels() {
    assert!(dom("a.b").is_ok());
}

#[test]
fn valid_with_trailing_dot() {
    assert!(dom("example.com.").is_ok());
}

#[test]
fn invalid_starting_with_hyphen() {
    assert!(dom("-example.com").is_err());
}

#[test]
fn invalid_ending_with_hyphen() {
    assert!(dom("example-.com").is_err());
}

#[test]
fn invalid_space() {
    let err = dom("exam ple.com").unwrap_err();
    assert!(matches!(
        err.reason,
        DomainErrorKind::InvalidCharacter { char: ' ', position: 4 }
    ));
}

#[test]
fn invalid_underscore() {
    assert!(dom("exam_ple.com").is_err());
}

#[test]
fn invalid_double_dot() {
    let err = dom("example..com").unwrap_err();
    match err.reason {
        DomainErrorKind::InvalidComponent { component, reason } => {
            assert_eq!(component, "label");
            assert_eq!(reason, "cannot be empty");
        }
        _ => panic!("Expected InvalidComponent error"),
    }
}

#[test]
fn invalid_too_long_total() {
    let long_domain = format!("{}.com", "a".repeat(250));
    let err = dom(&long_domain).unwrap_err();
    assert!(matches!(err.reason, DomainErrorKind::TooLong { .. }));
}

#[test]
fn invalid_too_long_label() {
    let long_label = format!("{}.com", "a".repeat(64));
    let err = dom(&long_label).unwrap_err();
    match err.reason {
        DomainErrorKind::InvalidComponent { reason, .. } => {
            assert_eq!(
                reason,
                format!("'{}' exceeds 63 characters (has 64)", "a".repeat(64))
            );
        }
        _ => panic!("Expected InvalidComponent error"),
    }
}

#[test]
fn label_messages() {
    let err = validate_domain_label("-ab", "-ab.com").unwrap_err();
    assert_eq!(err.value, "-ab.com");
    match err.reason {
        DomainErrorKind::InvalidComponent { reason, .. } => {
            assert_eq!(reason, "'-ab' must start with letter or digit");
        }
        _ => panic!("Expected InvalidComponent error"),
    }
    let err = validate_domain_label("ab-", "ab-.com").unwrap_err();
    match err.reason {
        DomainErrorKind::InvalidComponent { reason, .. } => {
            assert_eq!(reason, "'ab-' cannot end with hyphen");
        }
        _ => panic!("Expected InvalidComponent error"),
    }
    assert!(validate_domain_label("a-b", "a-b").is_ok());
}

#[test]
fn ext_labels() {
    assert_eq!(domain_labels("sub.example.com"), vec!["sub", "example", "com"]);
    assert_eq!(domain_labels("example.com."), vec!["example", "com"]);
}

#[test]
fn ext_tld() {
    assert_eq!(domain_tld("sub.example.com"), Some("com"));
}

#[test]
fn ext_is_subdomain_of() {
    assert!(domain_is_subdomain_of("api.example.com", "example.com"));
    assert!(!domain_is_subdomain_of("api.example.com", "other.com"));
    assert!(domain_is_subdomain_of("API.Example.com", "EXAMPLE.COM"));
    assert!(!domain_is_subdomain_of("example.com", "example.com"));
    assert!(!domain_is_subdomain_of("badexample.com", "example.com"));
}

// Ports

#[test]
fn valid_port_1() {
    assert!(ValidPort::check(&1).is_ok());
}

#[test]
fn valid_port_80() {
    assert!(ValidPort::check(&80).is_ok());
}

#[test]
fn valid_port_443() {
    assert!(ValidPort::check(&443).is_ok());
}

#[test]
fn valid_port_8080() {
    assert!(ValidPort::check(&8080).is_ok());
}

#[test]
fn valid_port_max() {
    assert!(ValidPort::check(&65535).is_ok());
}

#[test]
fn invalid_port_0() {
    let err = ValidPort::check(&0).unwrap_err();
    assert_eq!(err.value, "0");
}

#[test]
fn ext_is_privileged() {
    assert!(port_is_privileged(80));
    assert!(!port_is_privileged(8080));
}

#[test]
fn ext_is_well_known() {
    assert!(port_is_well_known(443));
    assert!(!port_is_well_known(8443));
}

#[test]
fn ext_is_registered() {
    assert!(port_is_registered(3306));
    assert!(!port_is_registered(80));
    assert!(!port_is_registered(50000));
}

#[test]
fn ext_is_dynamic() {
    assert!(port_is_dynamic(50000));
    assert!(!port_is_dynamic(8080));
}

#[test]
fn ext_is_ephemeral() {
    assert!(port_is_ephemeral(60000));
}

#[test]
fn port_range_boundary_1023() {
    assert!(port_is_privileged(1023));
    assert!(!port_is_registered(1023));
}

#[test]
fn port_range_boundary_1024() {
    assert!(!port_is_privileged(1024));
    assert!(port_is_registered(1024));
}

#[test]
fn port_range_boundary_49151() {
    assert!(port_is_registered(49151));
    assert!(!port_is_dynamic(49151));
}

#[test]
fn port_range_boundary_49152() {
    assert!(!port_is_registered(49152));
    assert!(port_is_dynamic(49152));
}

#[test]
fn every_port_in_exactly_one_range() {
    for p in 1..=65535u16 {
        let n = [port_is_privileged(p), port_is_registered(p), port_is_dynamic(p)]
            .iter()
            .filter(|b| **b)
            .count();
        assert_eq!(n, 1);
    }
}

#[test]
fn labels_join_back_to_the_domain() {
    for d in ["sub.example.com", "example.com.", "a..b", "x"] {
        let joined = domain_labels(d).join(".");
        assert_eq!(joined, d.strip_suffix('.').unwrap_or(d));
        assert!(domain_labels(d).iter().all(|l| !l.contains('.')));
    }
}

#[test]
fn no_domain_is_its_own_subdomain() {
    for d in ["example.com", "A.b.C", "x", ""] {
        assert!(!domain_is_subdomain_of(d, d));
    }
}

#[test]
fn valid_domain_means_valid_labels() {
    let d = "mail.Example-1.org.";
    assert!(ValidDomainName::check(&d.to_string()).is_ok());
    for l in domain_labels(d) {
        assert!(validate_domain_label(l, d).is_ok());
    }
    let bad = "ok.-bad.com";
    assert!(ValidDomainName::check(&bad.to_string()).is_err());
    assert!(validate_domain_label("-bad", bad).is_err());
}

#[test]
fn label_with_hyphens_at_positions_three_and_four_is_reserved() {
    let err = validate_domain_label("ab--cd", "ab--cd.com").unwrap_err();
    assert_eq!(err.value, "ab--cd.com");
    match err.reason {
        DomainErrorKind::InvalidComponent { component, reason } => {
            assert_eq!(component, "label");
            assert_eq!(reason, "'ab--cd' cannot have hyphens in positions 3-4 (reserved for IDN)");
        }
        _ => panic!("Expected InvalidComponent error"),
    }
    assert!(ValidDomainName::check(&"xn--bcher-kva.example".to_string()).is_err());
    assert!(validate_domain_label("a--b", "a--b").is_ok());
    assert!(validate_domain_label("12--3", "12--3").is_err());
    assert!(validate_domain_label("a-b--c", "a-b--c").is_ok());
    assert!(validate_domain_label("ab-", "ab-").is_err());
    assert!(validate_domain_label("abc--", "abc--").is_err());
    assert!(validate_domain_label("a--", "a--").is_err());
}

#[test]
fn dot_suffix_on_given_text() {
    assert!(ends_with_dot_suffix("api.example.com", "example.com"));
    assert!(!ends_with_dot_suffix("badexample.com", "example.com"));
    assert!(!ends_with_dot_suffix("example.com", "example.com"));
    assert!(ends_with_dot_suffix("a.", ""));
    assert!(!ends_with_dot_suffix("API.example.com", "Example.com"));
}
