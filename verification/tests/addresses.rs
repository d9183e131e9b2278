//! Addresses and their text.

use wtfi2::addr::{
    ip_from_str, ip_to_string, is_link_local, parse_ip, parse_v4, parse_v6, v4_to_string,
    v6_to_string, IpAddr, Ipv4Addr, Ipv6Addr,
};

fn shown(s: &str) -> Option<String> {
    ip_from_str(s).map(ip_to_string)
}

#[test]
fn an_address_reads_back_what_it_writes() {
    for s in [
        "0.0.0.0",
        "192.168.0.1",
        "255.255.255.255",
        "::",
        "::1",
        "fe80::1",
        "2606:4700:4700::1111",
        "2001:db8:0:1:1:1:1:1",
        "2001:db8::1:0:0:1",
        "::ffff:10.0.0.1",
        "1:2:3:4:5:6:7:8",
        "1:2:3:4:5:6:7::",
    ] {
        let again = shown(s).unwrap();
        assert_eq!(shown(&again), Some(again.clone()), "{s}");
    }
    assert_eq!(shown("192.168.0.1").as_deref(), Some("192.168.0.1"));
    assert_eq!(shown("fe80:0:0:0:0:0:0:1").as_deref(), Some("fe80::1"));
    assert_eq!(shown("2001:DB8::A").as_deref(), Some("2001:db8::a"));
    assert_eq!(shown("::ffff:10.0.0.1").as_deref(), Some("::ffff:10.0.0.1"));
}

#[test]
fn the_longest_run_of_zeros_is_left_out() {
    assert_eq!(
        v6_to_string(Ipv6Addr::new(1, 0, 0, 2, 0, 0, 0, 3)),
        "1:0:0:2::3"
    );
    assert_eq!(
        v6_to_string(Ipv6Addr::new(1, 0, 0, 2, 3, 0, 0, 4)),
        "1::2:3:0:0:4"
    );
    assert_eq!(
        v6_to_string(Ipv6Addr::new(1, 0, 2, 3, 4, 5, 6, 7)),
        "1:0:2:3:4:5:6:7"
    );
    assert_eq!(v6_to_string(Ipv6Addr::new(0, 0, 0, 0, 0, 0, 0, 0)), "::");
    assert_eq!(v4_to_string(Ipv4Addr::new(10, 0, 0, 255)), "10.0.0.255");
}

#[test]
fn what_is_no_address_is_refused() {
    for s in [
        "",
        "1.2.3",
        "1.2.3.4.5",
        "256.1.1.1",
        "01.2.3.4",
        "1.2.3.4 ",
        "::1%en0",
        "1:2:3:4:5:6:7",
        "1:2:3:4:5:6:7:8:9",
        "1::2::3",
        "12345::",
        ":::",
        "g::1",
    ] {
        assert_eq!(ip_from_str(s), None, "{s}");
    }
    let chars: Vec<char> = "::1".chars().collect();
    assert_eq!(parse_v4(&chars), None);
    assert_eq!(
        parse_v6(&chars),
        Some(Ipv6Addr::new(0, 0, 0, 0, 0, 0, 0, 1))
    );
    assert_eq!(
        parse_ip(&chars),
        Some(IpAddr::V6(Ipv6Addr::new(0, 0, 0, 0, 0, 0, 0, 1)))
    );
}

#[test]
fn addresses_are_told_apart_by_their_range() {
    let ip = |s: &str| ip_from_str(s).unwrap();
    assert!(is_link_local(ip("fe80::1")));
    assert!(is_link_local(ip("febf::1")));
    assert!(!is_link_local(ip("fec0::1")));
    assert!(ip("100.64.0.1").is_shared_space());
    assert!(ip("100.127.255.255").is_shared_space());
    assert!(!ip("100.128.0.0").is_shared_space());
    assert!(ip("::1").is_ipv6());
    assert!(!ip("1.1.1.1").is_ipv6());
    assert!(Ipv4Addr::new(169, 254, 3, 4).is_link_local());
    assert!(!Ipv4Addr::new(169, 255, 3, 4).is_link_local());
    assert_eq!(Ipv4Addr::new(1, 2, 3, 4).to_bits(), 0x0102_0304);
}
