use netprobe::input::{ip_targets, ParseError};

fn targets(spec: &str) -> Vec<Vec<u8>> {
    ip_targets(spec.as_bytes()).unwrap()
}

fn texts(spec: &str) -> Vec<String> {
    targets(spec).into_iter().map(|t| String::from_utf8(t).unwrap()).collect()
}

#[test]
fn cidr_30_excludes_network_and_broadcast() {
    assert_eq!(texts("10.0.0.0/30"), vec!["10.0.0.1", "10.0.0.2"]);
}

#[test]
fn cidr_31_and_32_keep_whole_block() {
    assert_eq!(texts("10.0.0.0/31"), vec!["10.0.0.0", "10.0.0.1"]);
    assert_eq!(texts("10.0.0.5/32"), vec!["10.0.0.5"]);
}

#[test]
fn cidr_24_has_254_hosts_no_duplicates() {
    let hosts = texts("192.168.1.0/24");
    assert_eq!(hosts.len(), 254);
    assert_eq!(hosts[0], "192.168.1.1");
    assert_eq!(hosts[253], "192.168.1.254");
    for i in 0..hosts.len() {
        for j in (i + 1)..hosts.len() {
            assert_ne!(hosts[i], hosts[j]);
        }
    }
}

#[test]
fn cidr_address_part_allows_leading_zeros() {
    assert_eq!(texts("010.0.0.1/30"), vec!["10.0.0.1", "10.0.0.2"]);
}

#[test]
fn cidr_v6_enumerates_whole_block() {
    assert_eq!(texts("fd00::/126"), vec!["fd00::", "fd00::1", "fd00::2", "fd00::3"]);
}

#[test]
fn range_v4_is_inclusive_and_ascending() {
    assert_eq!(texts("10.0.0.5-10.0.0.7"), vec!["10.0.0.5", "10.0.0.6", "10.0.0.7"]);
}

#[test]
fn range_endpoints_are_trimmed() {
    assert_eq!(texts("10.0.0.5 - 10.0.0.6"), vec!["10.0.0.5", "10.0.0.6"]);
}

#[test]
fn range_reversed_is_empty() {
    assert_eq!(texts("10.0.0.7-10.0.0.5"), Vec::<String>::new());
}

#[test]
fn range_v6_is_inclusive_and_ascending() {
    assert_eq!(texts("::1-::3"), vec!["::1", "::2", "::3"]);
}

#[test]
fn single_addresses_pass_through_canonically() {
    assert_eq!(texts("10.0.0.1"), vec!["10.0.0.1"]);
    assert_eq!(texts("::1"), vec!["::1"]);
    assert_eq!(texts("fd00:0:0:0:0:0:0:1"), vec!["fd00::1"]);
}

#[test]
fn single_address_grammar_is_strict() {
    assert_eq!(ip_targets(b"010.0.0.1"), Err(ParseError::BadAddress));
    assert_eq!(ip_targets(b"10.0.0.256"), Err(ParseError::BadAddress));
    assert_eq!(ip_targets(b""), Err(ParseError::BadAddress));
}

#[test]
fn malformed_cidr_is_fatal() {
    assert_eq!(ip_targets(b"not-a-cidr/xyz"), Err(ParseError::BadCidr));
    assert_eq!(ip_targets(b"10.0.0.0/33"), Err(ParseError::BadCidr));
    assert_eq!(ip_targets(b"256.0.0.1/24"), Err(ParseError::BadCidr));
    assert_eq!(ip_targets(b"10.0.0.0/"), Err(ParseError::BadCidr));
}

#[test]
fn malformed_range_is_fatal() {
    assert_eq!(ip_targets(b"10.0.0.1-banana"), Err(ParseError::BadRange));
    assert_eq!(ip_targets(b"banana-10.0.0.1"), Err(ParseError::BadRange));
    assert_eq!(ip_targets(b"::1-10.0.0.1"), Err(ParseError::BadRange));
}

#[test]
fn oversized_expansion_is_refused() {
    assert_eq!(ip_targets(b"::/0"), Err(ParseError::TooLarge));
}

#[test]
fn range_at_the_top_of_the_family() {
    assert_eq!(
        texts("255.255.255.254-255.255.255.255"),
        vec!["255.255.255.254", "255.255.255.255"]
    );
}

#[test]
fn cidr_v6_shortest_block() {
    assert_eq!(texts("::/127"), vec!["::", "::1"]);
    assert_eq!(texts("::1/128"), vec!["::1"]);
}

#[test]
fn single_v4_mapped_address() {
    assert_eq!(texts("::ffff:10.0.0.1"), vec!["::ffff:10.0.0.1"]);
}

#[test]
fn prefix_grammar_is_two_digits_at_most() {
    assert_eq!(ip_targets(b"10.0.0.0/031"), Err(ParseError::BadCidr));
    assert_eq!(texts("0.0.0.0/30"), vec!["0.0.0.1", "0.0.0.2"]);
}
