use etr::addrfam::{
    choose_preferred, family_available, first_routable, order_by_family, order_udp_target,
    probe_bind_address, AddrPref, Candidates,
};
use etr::forward::datagram_peer_addr;
use etr::net::SocketAddr;

/// The socket address that `s` writes as `address:port`, IPv6 in brackets.
fn v4(s: &str) -> SocketAddr {
    let (ip, port) = s.rsplit_once(':').unwrap();
    let ip = ip.trim_start_matches('[').trim_end_matches(']');
    datagram_peer_addr(ip, port.parse().unwrap()).unwrap()
}

#[test]
fn from_flags_maps_each_combination() {
    assert_eq!(AddrPref::from_flags(false, false), AddrPref::Auto);
    assert_eq!(AddrPref::from_flags(true, false), AddrPref::Ipv4);
    assert_eq!(AddrPref::from_flags(false, true), AddrPref::Ipv6);
    // clap rejects both; if constructed directly, IPv6 wins deterministically.
    assert_eq!(AddrPref::from_flags(true, true), AddrPref::Ipv6);
}

#[test]
fn from_config_accepts_aliases_and_falls_back_to_auto() {
    assert_eq!(AddrPref::from_config(Some("ipv4")), AddrPref::Ipv4);
    assert_eq!(AddrPref::from_config(Some(" V4 ")), AddrPref::Ipv4);
    assert_eq!(AddrPref::from_config(Some("inet6")), AddrPref::Ipv6);
    assert_eq!(AddrPref::from_config(Some("IPv6")), AddrPref::Ipv6);
    assert_eq!(AddrPref::from_config(Some("auto")), AddrPref::Auto);
    // A typo must degrade to today's behaviour, not to the wrong family.
    assert_eq!(AddrPref::from_config(Some("ipv46")), AddrPref::Auto);
    assert_eq!(AddrPref::from_config(None), AddrPref::Auto);
}

#[test]
fn or_only_substitutes_for_auto() {
    assert_eq!(AddrPref::Auto.or(AddrPref::Ipv6), AddrPref::Ipv6);
    assert_eq!(AddrPref::Ipv4.or(AddrPref::Ipv6), AddrPref::Ipv4);
    assert_eq!(AddrPref::Ipv6.or(AddrPref::Ipv4), AddrPref::Ipv6);
}

#[test]
fn wire_round_trips_and_ignores_unknown_values() {
    assert_eq!(AddrPref::Auto.wire(), None);
    assert_eq!(
        AddrPref::from_wire(AddrPref::Ipv4.wire().unwrap()),
        AddrPref::Ipv4
    );
    assert_eq!(
        AddrPref::from_wire(AddrPref::Ipv6.wire().unwrap()),
        AddrPref::Ipv6
    );
    // Forward compatibility: an unknown value must not select a family.
    assert_eq!(AddrPref::from_wire("46"), AddrPref::Auto);
    assert_eq!(AddrPref::from_wire(""), AddrPref::Auto);
}

#[test]
fn ssh_flag_matches_the_preference() {
    assert_eq!(AddrPref::Auto.ssh_flag(), None);
    assert_eq!(AddrPref::Ipv4.ssh_flag(), Some("-4"));
    assert_eq!(AddrPref::Ipv6.ssh_flag(), Some("-6"));
}

#[test]
fn order_by_family_puts_the_preferred_family_first() {
    let addrs = vec![v4("[::1]:22"), v4("127.0.0.1:22"), v4("[fe80::1]:22")];

    let v4_first = order_by_family(&addrs, AddrPref::Ipv4);
    assert!(v4_first[0].is_ipv4());
    assert_eq!(v4_first.len(), 3);

    let v6_first = order_by_family(&addrs, AddrPref::Ipv6);
    assert!(v6_first[0].is_ipv6());
    assert!(v6_first[2].is_ipv4());
}

#[test]
fn order_by_family_is_stable_within_a_family() {
    let addrs = vec![v4("[::1]:22"), v4("[fe80::1]:22"), v4("127.0.0.1:22")];
    let ordered = order_by_family(&addrs, AddrPref::Ipv6);
    // Relative order of the two IPv6 entries must be the resolver's.
    assert_eq!(ordered[0], addrs[0]);
    assert_eq!(ordered[1], addrs[1]);
}

#[test]
fn order_by_family_auto_is_identity() {
    let addrs = vec![v4("[::1]:22"), v4("127.0.0.1:22")];
    assert_eq!(order_by_family(&addrs, AddrPref::Auto), addrs);
}

#[test]
fn order_by_family_handles_single_family_and_empty_input() {
    let only_v4 = vec![v4("127.0.0.1:22"), v4("10.0.0.1:22")];
    assert_eq!(order_by_family(&only_v4, AddrPref::Ipv6), only_v4);
    assert!(order_by_family(&[], AddrPref::Ipv4).is_empty());
}

#[test]
fn first_routable_finds_loopback_and_rejects_nothing_to_probe() {
    let addrs = vec![v4("127.0.0.1:9")];
    assert_eq!(first_routable(&addrs, &[true]), Some(v4("127.0.0.1:9")));
    assert_eq!(first_routable(&addrs, &[false]), None);
    assert_eq!(first_routable(&[], &[]), None);
}

#[test]
fn first_routable_skips_what_cannot_be_reached() {
    let addrs = vec![v4("[::1]:22"), v4("127.0.0.1:22"), v4("10.0.0.1:22")];
    assert_eq!(first_routable(&addrs, &[false, true, true]), Some(addrs[1]));
}

#[test]
fn choose_preferred_falls_back_to_the_first_candidate() {
    let addrs = vec![v4("[::1]:22"), v4("127.0.0.1:22")];
    assert_eq!(choose_preferred(&addrs, &[false, false]), Some(addrs[0]));
    assert_eq!(choose_preferred(&addrs, &[false, true]), Some(addrs[1]));
    assert_eq!(choose_preferred(&[], &[]), None);
}

#[test]
fn udp_targets_prefer_ipv6_unless_told_otherwise() {
    let addrs = vec![v4("127.0.0.1:53"), v4("[::1]:53")];
    assert_eq!(order_udp_target(&addrs, AddrPref::Auto), vec![addrs[1], addrs[0]]);
    assert_eq!(order_udp_target(&addrs, AddrPref::Ipv4), addrs);
}

#[test]
fn family_available_looks_at_every_address() {
    let addrs = vec![v4("127.0.0.1:22")];
    assert!(!family_available(&addrs, AddrPref::Auto));
    assert!(family_available(&addrs, AddrPref::Ipv4));
    assert!(!family_available(&addrs, AddrPref::Ipv6));
    assert!(!family_available(&[], AddrPref::Ipv4));
}

#[test]
fn ordering_keeps_every_address() {
    let addrs = vec![v4("1.1.1.1:1"), v4("[::1]:2"), v4("2.2.2.2:3"), v4("[::2]:4")];
    let ordered = order_by_family(&addrs, AddrPref::Ipv6);
    assert_eq!(ordered, vec![addrs[1], addrs[3], addrs[0], addrs[2]]);
}

#[test]
fn probes_bind_the_family_of_the_target() {
    assert_eq!(probe_bind_address(&v4("[::1]:22")), "[::]:0");
    assert_eq!(probe_bind_address(&v4("127.0.0.1:22")), "0.0.0.0:0");
}

#[test]
fn preference_names_and_default() {
    assert_eq!(AddrPref::default(), AddrPref::Auto);
    assert_eq!(AddrPref::Ipv4.as_str(), "ipv4");
    assert_eq!(AddrPref::Ipv6.as_str(), "ipv6");
    assert_eq!(AddrPref::Auto.as_str(), "auto");
}

#[test]
fn test_cli_flag_beats_config_address_family() {
    assert_eq!(
        AddrPref::from_flags(true, false).or(AddrPref::from_config(Some("ipv6"))),
        AddrPref::Ipv4
    );
    assert_eq!(
        AddrPref::from_flags(false, false).or(AddrPref::from_config(Some("ipv6"))),
        AddrPref::Ipv6
    );
}

#[test]
fn candidates_are_tried_one_after_the_other() {
    let four = v4("192.0.2.1:80");
    let six = v4("[2001:db8::1]:80");
    let mut c = Candidates::new(&[four, six], AddrPref::Ipv6);
    assert_eq!(c.take_next(), Some(six));
    assert_eq!(c.take_next(), Some(four));
    assert_eq!(c.take_next(), None);
    assert_eq!(c.take_next(), None);
    assert_eq!(Candidates::new(&[], AddrPref::Auto).take_next(), None);
}
