use sql_lineage::ip::{
    checked_parsenet4, contains_one4, each_of_kind4, each_of_kind6, hosts4, is_benchmarking6,
    is_ipv4_mapped, is_loopback6, is_multicast6, is_unicast6, is_unicast_link_local,
    is_unique_local, is_unspecified6, of_kind4, parsenet4, to_ipv6_mapped, Kind4, Kind6,
};

fn ip(a: u8, b: u8, c: u8, d: u8) -> u32 {
    u32::from_be_bytes([a, b, c, d])
}

/// The bytes of the address with the eight groups `groups`.
fn ip6(groups: [u16; 8]) -> Vec<u8> {
    groups.iter().flat_map(|g| g.to_be_bytes()).collect()
}

/// The first and the last address of a kind, and the addresses just before
/// and just after them.
fn ends_are_kept(kind: Kind4, first: u32, last: u32) {
    assert!(of_kind4(kind, first), "{kind:?} {first:#x}");
    assert!(of_kind4(kind, last), "{kind:?} {last:#x}");
    assert!(of_kind4(kind, first + (last - first) / 2), "{kind:?}");
    if first > 0 {
        assert!(!of_kind4(kind, first - 1), "{kind:?} {first:#x}");
    }
    if last < u32::MAX {
        assert!(!of_kind4(kind, last + 1), "{kind:?} {last:#x}");
    }
}

#[test]
fn kinds_of_ipv4_addresses_by_their_ranges() {
    ends_are_kept(Kind4::Unspecified, ip(0, 0, 0, 0), ip(0, 0, 0, 0));
    ends_are_kept(Kind4::Broadcast, ip(255, 255, 255, 255), ip(255, 255, 255, 255));
    ends_are_kept(Kind4::Loopback, ip(127, 0, 0, 0), ip(127, 255, 255, 255));
    ends_are_kept(Kind4::Private, ip(10, 0, 0, 0), ip(10, 255, 255, 255));
    ends_are_kept(Kind4::Private, ip(172, 16, 0, 0), ip(172, 31, 255, 255));
    ends_are_kept(Kind4::Private, ip(192, 168, 0, 0), ip(192, 168, 255, 255));
    ends_are_kept(Kind4::LinkLocal, ip(169, 254, 0, 0), ip(169, 254, 255, 255));
    ends_are_kept(Kind4::Multicast, ip(224, 0, 0, 0), ip(239, 255, 255, 255));
    ends_are_kept(Kind4::Documentation, ip(192, 0, 2, 0), ip(192, 0, 2, 255));
    ends_are_kept(Kind4::Documentation, ip(198, 51, 100, 0), ip(198, 51, 100, 255));
    ends_are_kept(Kind4::Documentation, ip(203, 0, 113, 0), ip(203, 0, 113, 255));
    ends_are_kept(Kind4::Shared, ip(100, 64, 0, 0), ip(100, 127, 255, 255));
    ends_are_kept(Kind4::Benchmarking, ip(198, 18, 0, 0), ip(198, 19, 255, 255));
    ends_are_kept(Kind4::Reserved, ip(240, 0, 0, 0), ip(255, 255, 255, 254));
}

#[test]
fn a_list_of_ipv4_addresses_is_judged_address_by_address() {
    let xs = [ip(127, 0, 0, 1), ip(8, 8, 8, 8), ip(10, 1, 2, 3), ip(127, 255, 0, 9)];
    assert_eq!(each_of_kind4(Kind4::Loopback, &xs), vec![true, false, false, true]);
    assert_eq!(each_of_kind4(Kind4::Private, &xs), vec![false, false, true, false]);
    assert_eq!(each_of_kind4(Kind4::Multicast, &xs), vec![false; 4]);
    assert_eq!(each_of_kind4(Kind4::Loopback, &[]), Vec::<bool>::new());
}

#[test]
fn kinds_of_ipv6_addresses_one_by_one() {
    assert_eq!(is_unspecified6(&ip6([0; 8])), vec![true]);
    assert_eq!(is_unspecified6(&ip6([0, 0, 0, 0, 0, 0, 0, 1])), vec![false]);
    assert_eq!(is_unspecified6(&ip6([1, 0, 0, 0, 0, 0, 0, 0])), vec![false]);
    assert_eq!(is_loopback6(&ip6([0, 0, 0, 0, 0, 0, 0, 1])), vec![true]);
    assert_eq!(is_loopback6(&ip6([0, 0, 0, 0, 0, 0, 0, 2])), vec![false]);
    assert_eq!(is_loopback6(&ip6([0, 0, 0, 0, 0, 0, 0, 0x0101])), vec![false]);
    assert_eq!(is_loopback6(&ip6([1, 0, 0, 0, 0, 0, 0, 1])), vec![false]);
    assert_eq!(is_multicast6(&ip6([0xff00, 0, 0, 0, 0, 0, 0, 0])), vec![true]);
    assert_eq!(is_multicast6(&ip6([0xff02, 0, 0, 0, 0, 0, 0, 1])), vec![true]);
    assert_eq!(is_multicast6(&ip6([0xfeff, 0, 0, 0, 0, 0, 0, 1])), vec![false]);
    assert_eq!(is_unicast6(&ip6([0xfeff, 0, 0, 0, 0, 0, 0, 1])), vec![true]);
    assert_eq!(is_unicast6(&ip6([0xffff, 0, 0, 0, 0, 0, 0, 1])), vec![false]);
    assert_eq!(is_unicast_link_local(&ip6([0xfe80, 0, 0, 0, 0, 0, 0, 1])), vec![true]);
    assert_eq!(is_unicast_link_local(&ip6([0xfebf, 0xffff, 0, 0, 0, 0, 0, 1])), vec![true]);
    assert_eq!(is_unicast_link_local(&ip6([0xfec0, 0, 0, 0, 0, 0, 0, 1])), vec![false]);
    assert_eq!(is_unicast_link_local(&ip6([0xfe7f, 0xffff, 0, 0, 0, 0, 0, 1])), vec![false]);
    assert_eq!(is_unicast_link_local(&ip6([0xff80, 0, 0, 0, 0, 0, 0, 1])), vec![false]);
    assert_eq!(is_unique_local(&ip6([0xfc00, 0, 0, 0, 0, 0, 0, 0])), vec![true]);
    assert_eq!(is_unique_local(&ip6([0xfdff, 0xffff, 0, 0, 0, 0, 0, 1])), vec![true]);
    assert_eq!(is_unique_local(&ip6([0xfe00, 0, 0, 0, 0, 0, 0, 1])), vec![false]);
    assert_eq!(is_unique_local(&ip6([0xfbff, 0xffff, 0, 0, 0, 0, 0, 1])), vec![false]);
    assert_eq!(is_ipv4_mapped(&ip6([0, 0, 0, 0, 0, 0xffff, 0x0a00, 1])), vec![true]);
    assert_eq!(is_ipv4_mapped(&ip6([0, 0, 0, 0, 0, 0xfffe, 0x0a00, 1])), vec![false]);
    assert_eq!(is_ipv4_mapped(&ip6([0, 0, 0, 0, 1, 0xffff, 0x0a00, 1])), vec![false]);
    assert_eq!(is_benchmarking6(&ip6([0x2001, 2, 0, 0, 0, 0, 0, 7])), vec![true]);
    assert_eq!(is_benchmarking6(&ip6([0x2001, 2, 0, 0xffff, 0xffff, 0, 0, 7])), vec![true]);
    assert_eq!(is_benchmarking6(&ip6([0x2001, 2, 1, 0, 0, 0, 0, 0])), vec![false]);
    assert_eq!(is_benchmarking6(&ip6([0x2001, 3, 0, 0, 0, 0, 0, 0])), vec![false]);
    assert_eq!(is_benchmarking6(&ip6([0x2001, 0x0202, 0, 0, 0, 0, 0, 0])), vec![false]);
}

#[test]
fn a_run_of_bytes_is_judged_address_by_address() {
    let mut bytes = ip6([0xff02, 0, 0, 0, 0, 0, 0, 1]);
    bytes.extend(ip6([0, 0, 0, 0, 0, 0, 0, 1]));
    bytes.extend(ip6([0xfd00, 0, 0, 0, 0, 0, 0, 1]));
    assert_eq!(each_of_kind6(Kind6::Multicast, &bytes), vec![true, false, false]);
    assert_eq!(each_of_kind6(Kind6::Loopback, &bytes), vec![false, true, false]);
    assert_eq!(each_of_kind6(Kind6::UniqueLocal, &bytes), vec![false, false, true]);
    assert_eq!(each_of_kind6(Kind6::Unicast, &bytes), vec![false, true, true]);
}

#[test]
fn bytes_after_the_last_whole_address_are_passed_over() {
    let mut bytes = vec![0u8; 16];
    bytes.extend([0u8; 15]);
    assert_eq!(is_unspecified6(&bytes), vec![true]);
    bytes.push(1);
    assert_eq!(is_unspecified6(&bytes), vec![true, false]);
    assert_eq!(is_loopback6(&bytes), vec![false, true]);
    assert_eq!(is_loopback6(&[]), Vec::<bool>::new());
}

#[test]
fn ipv4_addresses_as_ipv6_addresses() {
    let xs = [0x0102_0304u32, 0, 0xffff_ffff, 0xc0a8_0001];
    let mut expected = ip6([0, 0, 0, 0, 0, 0xffff, 0x0102, 0x0304]);
    expected.extend(ip6([0, 0, 0, 0, 0, 0xffff, 0, 0]));
    expected.extend(ip6([0, 0, 0, 0, 0, 0xffff, 0xffff, 0xffff]));
    expected.extend(ip6([0, 0, 0, 0, 0, 0xffff, 0xc0a8, 0x0001]));
    assert_eq!(to_ipv6_mapped(&xs), expected);
    assert_eq!(to_ipv6_mapped(&xs[..1]), vec![0, 0, 0, 0, 0, 0, 0, 0, 0, 0, 255, 255, 1, 2, 3, 4]);
    assert_eq!(is_ipv4_mapped(&to_ipv6_mapped(&xs)), vec![true; 4]);
    assert_eq!(to_ipv6_mapped(&[]), Vec::<u8>::new());
}

#[test]
fn addresses_in_networks() {
    let addr = [ip(192, 168, 1, 77), ip(10, 0, 0, 0), ip(1, 2, 3, 4), ip(9, 9, 9, 9), ip(7, 7, 7, 7)];
    let pref = [24u8, 8, 32, 0, 31, 16];
    assert_eq!(
        contains_one4(&addr, &pref, ip(192, 168, 1, 0)),
        vec![true, false, false, true, false]
    );
    assert_eq!(
        contains_one4(&addr, &pref, ip(192, 168, 1, 255)),
        vec![true, false, false, true, false]
    );
    assert_eq!(
        contains_one4(&addr, &pref, ip(192, 168, 2, 0)),
        vec![false, false, false, true, false]
    );
    assert_eq!(
        contains_one4(&addr, &pref, ip(10, 255, 255, 255)),
        vec![false, true, false, true, false]
    );
    assert_eq!(contains_one4(&addr, &pref, ip(1, 2, 3, 4)), vec![false, false, true, true, false]);
    assert_eq!(contains_one4(&addr, &pref, ip(1, 2, 3, 5)), vec![false, false, false, true, false]);
    assert_eq!(contains_one4(&addr, &pref, ip(7, 7, 7, 6)), vec![false, false, false, true, true]);
    assert_eq!(contains_one4(&addr, &pref, ip(7, 7, 7, 8)), vec![false, false, false, true, false]);
    assert_eq!(contains_one4(&addr[..2], &pref, 0), vec![false, false]);
    assert_eq!(contains_one4(&[], &pref, 0), Vec::<bool>::new());
}

#[test]
fn hosts_of_networks() {
    let addr = [ip(192, 168, 1, 77), ip(1, 2, 3, 4), ip(7, 7, 7, 7), ip(10, 0, 0, 9)];
    let pref = [29u8, 32, 31, 30];
    let (hosts, offsets) = hosts4(&addr, &pref);
    assert_eq!(
        hosts,
        vec![
            ip(192, 168, 1, 73),
            ip(192, 168, 1, 74),
            ip(192, 168, 1, 75),
            ip(192, 168, 1, 76),
            ip(192, 168, 1, 77),
            ip(192, 168, 1, 78),
            ip(1, 2, 3, 4),
            ip(7, 7, 7, 6),
            ip(7, 7, 7, 7),
            ip(10, 0, 0, 9),
            ip(10, 0, 0, 10),
        ]
    );
    assert_eq!(offsets, vec![0, 6, 7, 9, 11]);
    let (hosts, offsets) = hosts4(&[ip(10, 1, 2, 3)], &[24]);
    assert_eq!(hosts.len(), 254);
    assert_eq!((hosts[0], hosts[253]), (ip(10, 1, 2, 1), ip(10, 1, 2, 254)));
    assert_eq!(offsets, vec![0, 254]);
    assert_eq!(hosts4(&[], &[]), (vec![], vec![0]));
}

/// The texts as one run of bytes, and the offsets at which each begins and
/// ends.
fn run_of(texts: &[&str]) -> (Vec<u32>, Vec<u8>) {
    let mut offsets = vec![0u32];
    let mut data = Vec::new();
    for text in texts {
        data.extend(text.as_bytes());
        offsets.push(data.len() as u32);
    }
    (offsets, data)
}

#[test]
fn networks_are_read_from_texts() {
    let (offsets, data) = run_of(&["192.168.1.77/24", "10.0.0.0/8", "1.2.3.4/32", "0.0.0.0/0"]);
    let expected = (
        vec![ip(192, 168, 1, 77), ip(10, 0, 0, 0), ip(1, 2, 3, 4), ip(0, 0, 0, 0)],
        vec![24u8, 8, 32, 0],
    );
    assert_eq!(parsenet4(&offsets, &data), expected);
    assert_eq!(checked_parsenet4(&offsets, &data), Some(expected));
    assert_eq!(parsenet4(&[0], &[]), (vec![], vec![]));
    assert_eq!(checked_parsenet4(&[7], &[]), Some((vec![], vec![])));
}

#[test]
fn texts_that_write_no_network_are_refused() {
    for text in ["", "1.2.3.4", "1.2.3.4/33", "1.2.3/24", "256.1.1.1/8", "1.2.3.4/", "a.b.c.d/8",
        "1.2.3.4/8 ", "1.2.3.4/008", "::1/64"]
    {
        let (offsets, data) = run_of(&["10.0.0.0/8", text]);
        assert_eq!(checked_parsenet4(&offsets, &data), None, "{text:?}");
    }
    let (offsets, data) = run_of(&["10.0.0.0/8"]);
    assert_eq!(checked_parsenet4(&[], &data), None);
    assert_eq!(checked_parsenet4(&[0, 11], &data), None);
    assert_eq!(checked_parsenet4(&[5, 0], &data), None);
    assert_eq!(checked_parsenet4(&[0, 10, 5], &data), None);
    assert_eq!(checked_parsenet4(&offsets, &[0xff; 10]), None);
    assert_eq!(checked_parsenet4(&offsets, &data), Some((vec![ip(10, 0, 0, 0)], vec![8])));
}
