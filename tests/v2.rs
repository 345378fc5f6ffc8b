use ip_lpm::prefix::{netmask_v4, netmask_v6};
use ip_lpm::{IPNet, Ipv4Prefix, Ipv6Prefix, PrefixTable, V2};
use ipnet::{IpNet, Ipv4Net, Ipv6Net};

fn v4(s: &str) -> Ipv4Prefix {
    let n: Ipv4Net = s.parse().unwrap();
    Ipv4Prefix::new(u32::from(n.addr()), n.prefix_len()).unwrap()
}

fn v6(s: &str) -> Ipv6Prefix {
    let n: Ipv6Net = s.parse().unwrap();
    Ipv6Prefix::new(u128::from(n.addr()), n.prefix_len()).unwrap()
}

#[test]
fn test_v2() {
    let mut tblv4 = V2::<u32, i32>::new();
    let mut tblv6 = V2::<u128, i32>::new();

    let addrs = vec![
        ("192.168.12.0/24", 24),
        ("192.168.12.230/32", 32),
        ("1.1.0.0/16", 16),
        ("fd00::/16", 16),
        ("642E:ABCE:5A25:B54D:49E3:9FD8::/64", 64),
    ];

    for (addr, value) in addrs.iter() {
        let addr: IpNet = addr.parse().unwrap();
        if let IpNet::V4(v) = addr {
            tblv4.insert(v4(&v.to_string()), *value);
        } else if let IpNet::V6(v) = addr {
            tblv6.insert(v6(&v.to_string()), *value);
        }
    }

    assert_eq!(tblv4.get_lpm(v4("192.168.12.230/32")), Some(&32));
    assert_eq!(tblv4.get_lpm(v4("192.168.12.100/32")), Some(&24));
    assert_eq!(tblv4.get_lpm(v4("1.1.1.1/32")), Some(&16));
    assert_eq!(tblv4.get_lpm(v4("1.2.1.1/32")), None);
    assert_eq!(tblv6.get_lpm(v6("fd00:fd00::/128")), Some(&16));
    assert_eq!(tblv6.get_lpm(v6("fd00:fd01::/128")), Some(&16));
    assert_eq!(tblv6.get_lpm(v6("fd01:fd00::/128")), None);
    assert_eq!(
        tblv6.get_lpm(v6("642E:ABCE:5A25:B54D:49E3:9FD8:70A2:6A20/128")),
        Some(&64)
    );
    assert_eq!(
        tblv6.get_lpm(v6("642E:ABCE:5A25:B54E:49E3:9FD8:70A2:6A20/128")),
        None
    );
}

#[test]
fn longer_prefix_wins_in_any_insert_order() {
    let mut a = V2::<u32, i32>::new();
    a.insert(v4("10.0.0.0/8"), 8);
    a.insert(v4("10.1.0.0/16"), 16);
    a.insert(v4("10.1.2.0/24"), 24);
    let mut b = V2::<u32, i32>::new();
    b.insert(v4("10.1.2.0/24"), 24);
    b.insert(v4("10.1.0.0/16"), 16);
    b.insert(v4("10.0.0.0/8"), 8);
    for (q, want) in [
        ("10.1.2.3/32", Some(24)),
        ("10.1.3.3/32", Some(16)),
        ("10.2.3.3/32", Some(8)),
        ("11.0.0.1/32", None),
    ] {
        assert_eq!(a.get_lpm(v4(q)).copied(), want);
        assert_eq!(b.get_lpm(v4(q)).copied(), want);
    }
}

#[test]
fn lookup_of_a_network_takes_no_longer_prefix() {
    let mut t = V2::<u32, i32>::new();
    t.insert(v4("10.0.0.0/8"), 8);
    t.insert(v4("10.1.0.0/16"), 16);
    assert_eq!(t.get_lpm(v4("10.1.0.0/12")), Some(&8));
    assert_eq!(t.get_lpm(v4("10.1.0.0/16")), Some(&16));
    assert_eq!(t.get_lpm(v4("10.1.0.0/7")), None);
}

#[test]
fn overwrite_returns_previous_value() {
    let mut t = V2::<u32, i32>::new();
    assert_eq!(t.insert(v4("172.16.0.0/12"), 1), None);
    assert_eq!(t.insert(v4("172.16.0.0/12"), 2), Some(1));
    assert_eq!(t.get_lpm(v4("172.20.1.1/32")), Some(&2));
    let mut t6 = V2::<u128, i32>::new();
    assert_eq!(t6.insert(v6("2001:db8::/32"), 1), None);
    assert_eq!(t6.insert(v6("2001:db8::/32"), 2), Some(1));
    assert_eq!(t6.get_lpm(v6("2001:db8::1/128")), Some(&2));
}

#[test]
fn host_bits_are_ignored_on_insert() {
    let mut t = V2::<u32, i32>::new();
    assert_eq!(t.insert(Ipv4Prefix { addr: 0xC0A8_0CFF, len: 24 }, 1), None);
    assert_eq!(t.insert(Ipv4Prefix { addr: 0xC0A8_0C00, len: 24 }, 2), Some(1));
    assert_eq!(t.get_lpm(v4("192.168.12.7/32")), Some(&2));
    assert_eq!(t.get_lpm(v4("192.168.13.7/32")), None);
    let mut t6 = V2::<u128, i32>::new();
    assert_eq!(t6.insert(Ipv6Prefix { addr: 0xfd00_1234 << 96, len: 16 }, 1), None);
    assert_eq!(t6.insert(Ipv6Prefix { addr: 0xfd00 << 112, len: 16 }, 2), Some(1));
}

#[test]
fn default_route_catches_everything_else() {
    let mut t = V2::<u32, i32>::new();
    t.insert(v4("0.0.0.0/0"), 0);
    t.insert(v4("192.168.0.0/16"), 16);
    assert_eq!(t.get_lpm(v4("8.8.8.8/32")), Some(&0));
    assert_eq!(t.get_lpm(v4("255.255.255.255/32")), Some(&0));
    assert_eq!(t.get_lpm(v4("192.168.1.1/32")), Some(&16));
    let mut t6 = V2::<u128, i32>::new();
    t6.insert(v6("::/0"), 0);
    assert_eq!(t6.get_lpm(v6("2001:db8::1/128")), Some(&0));
}

#[test]
fn full_length_prefix_matches_only_itself() {
    let mut t = V2::<u32, i32>::new();
    t.insert(v4("10.0.0.0/31"), 31);
    t.insert(v4("10.0.0.1/32"), 32);
    assert_eq!(t.get_lpm(v4("10.0.0.1/32")), Some(&32));
    assert_eq!(t.get_lpm(v4("10.0.0.0/32")), Some(&31));
    let mut t6 = V2::<u128, i32>::new();
    t6.insert(v6("2001:db8::/127"), 127);
    t6.insert(v6("2001:db8::1/128"), 128);
    assert_eq!(t6.get_lpm(v6("2001:db8::1/128")), Some(&128));
    assert_eq!(t6.get_lpm(v6("2001:db8::/128")), Some(&127));
    assert_eq!(t6.get_lpm(v6("2001:db8::2/128")), None);
}

#[test]
fn empty_table_matches_nothing() {
    let t = V2::<u128, i32>::new();
    assert_eq!(t.get_lpm(v6("::/0")), None);
    assert_eq!(t.get_lpm(v6("::1/128")), None);
}

#[test]
fn prefix_lengths_past_the_width_are_rejected() {
    assert_eq!(Ipv4Prefix::new(0, 33), None);
    assert_eq!(Ipv4Prefix::new(7, 32), Some(Ipv4Prefix { addr: 7, len: 32 }));
    assert_eq!(Ipv6Prefix::new(0, 129), None);
    assert_eq!(Ipv6Prefix::new(7, 128), Some(Ipv6Prefix { addr: 7, len: 128 }));
}

#[test]
fn netmasks_and_network_bits() {
    assert_eq!(netmask_v4(0), 0);
    assert_eq!(netmask_v4(24), 0xFFFF_FF00);
    assert_eq!(netmask_v4(32), u32::MAX);
    assert_eq!(netmask_v6(0), 0);
    assert_eq!(netmask_v6(16), 0xFFFF << 112);
    assert_eq!(netmask_v6(128), u128::MAX);
    assert_eq!(
        Ipv4Prefix { addr: 0xC0A8_0CE6, len: 24 }.network_and_prefix(),
        (0xC0A8_0C00, 24)
    );
    assert_eq!(
        Ipv6Prefix { addr: u128::MAX, len: 64 }.network_and_prefix(),
        (u128::MAX << 64, 64)
    );
}
