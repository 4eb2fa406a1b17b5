use vopono::digits::{parse_u32, u32_to_dec};
use vopono::error::VoponoError;
use vopono::net::{get_allocated_ip_addresses, Ipv4Net};
use vopono::procs::{check_process_running, get_all_running_pids};

#[test]
fn parse_u32_plain() {
    assert_eq!(parse_u32("12"), Some(12));
    assert_eq!(parse_u32("0"), Some(0));
    assert_eq!(parse_u32("007"), Some(7));
    assert_eq!(parse_u32("+12"), Some(12));
    assert_eq!(parse_u32("4294967295"), Some(u32::MAX));
}

#[test]
fn parse_u32_rejects() {
    assert_eq!(parse_u32(""), None);
    assert_eq!(parse_u32("+"), None);
    assert_eq!(parse_u32("x"), None);
    assert_eq!(parse_u32("12x"), None);
    assert_eq!(parse_u32("-3"), None);
    assert_eq!(parse_u32("4294967296"), None);
    assert_eq!(parse_u32("1 2"), None);
}

#[test]
fn decimal_printing() {
    assert_eq!(u32_to_dec(0).as_str(), "0");
    assert_eq!(u32_to_dec(7).as_str(), "7");
    assert_eq!(u32_to_dec(1234).as_str(), "1234");
    assert_eq!(u32_to_dec(u32::MAX).as_str(), "4294967295");
}

#[test]
fn pid_probe_exact_match() {
    assert!(check_process_running("1234\n", 1234));
    assert!(check_process_running("  1234  \n", 1234));
    assert!(check_process_running("1234", 1234));
}

#[test]
fn pid_probe_no_prefix_or_substring_match() {
    assert!(!check_process_running("12345\n", 1234));
    assert!(!check_process_running("1234\n", 12345));
    assert!(!check_process_running("1234\n", 123));
    assert!(!check_process_running("234\n", 1234));
    assert!(!check_process_running("", 1234));
    assert!(!check_process_running("\n1234\n", 1234));
    assert!(!check_process_running("1234 cmd\n", 1234));
}

#[test]
fn all_pids_parsed_in_order() {
    let r = get_all_running_pids("  1\n 23\n\n456\n").unwrap();
    assert_eq!(r, vec![1, 23, 456]);
}

#[test]
fn all_pids_empty_listing() {
    let r = get_all_running_pids("").unwrap();
    assert_eq!(r, Vec::<u32>::new());
}

#[test]
fn all_pids_bad_line_is_error() {
    assert_eq!(
        get_all_running_pids("1\nabc\n3\n"),
        Err(VoponoError::ParseFailed)
    );
}

#[test]
fn scans_veth_addresses() {
    let out = "5: veth0@if2: <BROADCAST> mtu 1500\n    inet 10.200.1.1/24 scope global veth0\n\
               7: veth1@if2: <BROADCAST> mtu 1500\n    inet 10.200.3.1/24 scope global veth1\n";
    let nets = get_allocated_ip_addresses(out).unwrap();
    assert_eq!(
        nets,
        vec![
            Ipv4Net { a: 10, b: 200, c: 1, d: 1, prefix: 24 },
            Ipv4Net { a: 10, b: 200, c: 3, d: 1, prefix: 24 },
        ]
    );
}

#[test]
fn scan_without_matches_is_empty() {
    assert_eq!(get_allocated_ip_addresses("").unwrap(), Vec::new());
    assert_eq!(
        get_allocated_ip_addresses("nothing like an address here\n").unwrap(),
        Vec::new()
    );
    // Four-digit runs never match the scanned pattern: the occurrence is
    // skipped, not an error.
    assert_eq!(
        get_allocated_ip_addresses("inet 1234.5.6.7/8\n").unwrap(),
        Vec::new()
    );
}

#[test]
fn scan_requires_whitespace_after_inet() {
    assert_eq!(get_allocated_ip_addresses("inet10.200.1.1/24").unwrap(), Vec::new());
    assert_eq!(
        get_allocated_ip_addresses("inet\t \t10.200.1.1/24").unwrap(),
        vec![Ipv4Net { a: 10, b: 200, c: 1, d: 1, prefix: 24 }]
    );
}

#[test]
fn malformed_matched_address_is_hard_error() {
    assert_eq!(
        get_allocated_ip_addresses("inet 999.0.0.1/24"),
        Err(VoponoError::ParseFailed)
    );
    assert_eq!(
        get_allocated_ip_addresses("inet 10.0.0.1/99"),
        Err(VoponoError::ParseFailed)
    );
    // A leading zero in an octet is not a well-formed address.
    assert_eq!(
        get_allocated_ip_addresses("inet 010.0.0.1/24"),
        Err(VoponoError::ParseFailed)
    );
}

#[test]
fn prefix_keeps_two_digits() {
    // The pattern takes at most two prefix digits; a third stays behind in
    // the text.
    assert_eq!(
        get_allocated_ip_addresses("inet 10.0.0.1/123").unwrap(),
        vec![Ipv4Net { a: 10, b: 0, c: 0, d: 1, prefix: 12 }]
    );
    // A leading zero is fine in the prefix.
    assert_eq!(
        get_allocated_ip_addresses("inet 10.0.0.1/08").unwrap(),
        vec![Ipv4Net { a: 10, b: 0, c: 0, d: 1, prefix: 8 }]
    );
}
