//! Reading the output of the macOS tools.

use wtfi2::addr::{ip_from_str, ip_to_string, v4_to_string, v6_to_string, IpAddr};
use wtfi2::platform::macos::{
    classify_failure, classify_lowered, describe_vpn, detect_tunnel, is_scoped, link_from_profiler,
    mark_tunnel, other_link, parse_airport, parse_channel, parse_ifconfig_addrs,
    parse_ifconfig_inet, parse_netmask_prefix, parse_resolvers, parse_route, parse_signal_noise,
    primary_from_ports, route_from_tool, route_or_fallback, spawn_failure, tool_output,
    vendor_from_ip, vendor_from_lowered, vendor_from_processes, wifi_device, MacOs,
};
use wtfi2::platform::{PlatformError, RouteInfo};

fn ip(s: &str) -> IpAddr {
    ip_from_str(s).unwrap()
}

const ROUTE: &str = "   route to: default
  destination: default
     mask: default
  gateway: 192.168.0.1
interface: en0
    flags: <UP,GATEWAY,DONE,STATIC,PRCLONING,GLOBAL>
   recvpipe  sendpipe  ssthresh  rtt,msec    rttvar  hopcount      mtu     expire
     0         0         0         0         0         0      1500         0 ";

const AIRPORT: &str = "          Current Network Information:
        <redacted>:
          PHY Mode: 802.11ac
          Channel: 40 (5GHz, 80MHz)
          Country Code: JP
          Network Type: Infrastructure
          Security: WPA2 Personal
          Signal / Noise: -50 dBm / -88 dBm
          Transmit Rate: 585
          MCS Index: 7
      Other Local Wi-Fi Networks:";

/// Real `scutil --dns` shape: a default block, then a scoped one that a
/// VPN or a search domain installs.
const DNS: &str = "DNS configuration

resolver #1
  nameserver[0] : 192.168.0.1
  nameserver[1] : 192.168.0.1
  flags    : Request A records
  reach    : 0x00020002 (Reachable,Directly Reachable Address)

resolver #2
  domain   : corp.internal
  nameserver[0] : 10.99.0.53
  flags    : Scoped, Request A records";

#[test]
fn a_tool_that_could_not_run_is_unknown_not_an_outage() {
    let e = classify_failure("route", "route: socket: Operation not permitted\n");
    assert!(
        matches!(e, PlatformError::Command(_)),
        "a denied socket is a failure to observe, got {e:?}"
    );
    assert_eq!(
        e.message(),
        "command failed: route: socket: Operation not permitted",
        "the tool's own name prefix must not be repeated"
    );
}

#[test]
fn a_lookup_that_found_nothing_is_a_network_fact() {
    // `route` queried the table successfully; the table was empty. That is
    // genuinely "you have no route", not "we couldn't look".
    assert!(matches!(
        classify_failure("route", "route: writing to routing socket: not in table\n"),
        PlatformError::NoNetwork
    ));
}

#[test]
fn an_unrecognised_failure_stays_unknown() {
    // Conservative on purpose: a wrong `Command` reads as "we couldn't
    // tell", while a wrong `NoNetwork` reads as a confident, false outage.
    assert!(matches!(
        classify_failure("scutil", "scutil: something entirely new\n"),
        PlatformError::Command(_)
    ));
}

#[test]
fn a_failure_with_no_stderr_still_names_the_command() {
    assert!(
        classify_failure("system_profiler", "")
            .message()
            .contains("system_profiler")
    );
}

#[test]
fn route_parses_gateway_iface_mtu() {
    let r = parse_route(ROUTE).unwrap();
    assert_eq!(ip_to_string(r.gateway.unwrap()), "192.168.0.1");
    assert_eq!(r.interface, "en0");
    assert_eq!(r.mtu, Some(1500));
}

#[test]
fn airport_parses_signal_and_channel() {
    let l = parse_airport(AIRPORT);
    assert_eq!(l.rssi_dbm, Some(-50));
    assert_eq!(l.noise_dbm, Some(-88));
    assert_eq!(l.snr_db(), Some(38));
    assert_eq!(l.channel, Some(40));
    assert_eq!(l.band.as_deref(), Some("5GHz"));
    assert_eq!(l.width_mhz, Some(80));
    assert_eq!(l.phy_mode.as_deref(), Some("802.11ac"));
    assert_eq!(l.tx_rate_mbps, Some(585));
    assert!(l.is_wifi);
    assert!(l.ssid.is_none(), "redacted SSID must stay None");
}

/// A neighbour's network is none of ours, not even one that is laid out like the
/// current one.
#[test]
fn what_the_neighbours_run_changes_nothing() {
    let shown = format!("{AIRPORT}\n");
    let with_neighbours = format!(
        "{shown}        next door:
          Channel: 1 (2GHz, 20MHz)
          Signal / Noise: -90 dBm / -91 dBm
          Current Network Information:
          Transmit Rate: 1
"
    );
    let (alone, among) = (parse_airport(&shown), parse_airport(&with_neighbours));
    assert_eq!(among.rssi_dbm, Some(-50));
    assert_eq!(among.channel, Some(40));
    assert_eq!(among.tx_rate_mbps, Some(585));
    assert_eq!(format!("{alone:?}"), format!("{among:?}"));
}

/// Real `ifconfig en0` output from this machine.
const IFCONFIG: &str = "en0: flags=8863<UP,BROADCAST,SMART,RUNNING,SIMPLEX,MULTICAST> mtu 1500
	options=6460<TSO4,TSO6,CHANNEL_IO,PARTIAL_CSUM,ZEROINVERT_CSUM>
	ether de:f9:c5:de:6e:4f
	inet6 fe80::1859:1d30:acf0:1c1%en0 prefixlen 64 secured scopeid 0xb
	inet 192.168.0.15 netmask 0xffffff00 broadcast 192.168.0.255
	nd6 options=201<PERFORMNUD,DAD>";

#[test]
fn ifconfig_addrs_parse_v4_with_prefix() {
    let a = parse_ifconfig_addrs(IFCONFIG);
    let (ip, prefix) = a.v4.unwrap();
    assert_eq!(v4_to_string(ip), "192.168.0.15");
    assert_eq!(prefix, 24, "0xffffff00 is a /24");
    assert!(
        a.v6.is_empty(),
        "the fe80:: every interface carries is not an address the network gave you"
    );
}

#[test]
fn ifconfig_addrs_keep_routable_v6() {
    let text = "en0: flags=8863 mtu 1500\n\
                \tinet6 fe80::1%en0 prefixlen 64 scopeid 0xb\n\
                \tinet6 2001:db8::5 prefixlen 64 autoconf";
    let a = parse_ifconfig_addrs(text);
    assert_eq!(a.v6.len(), 1);
    assert_eq!(v6_to_string(a.v6[0]), "2001:db8::5");
}

#[test]
fn ifconfig_addrs_detect_a_self_assigned_lease() {
    let text = "en0: flags=8863 mtu 1500\n\tinet 169.254.13.7 netmask 0xffff0000";
    assert!(parse_ifconfig_addrs(text).is_self_assigned());
    assert!(!parse_ifconfig_addrs(IFCONFIG).is_self_assigned());
}

#[test]
fn netmask_prefixes_parse_in_both_forms() {
    assert_eq!(parse_netmask_prefix("0xffffff00"), Some(24));
    assert_eq!(parse_netmask_prefix("255.255.0.0"), Some(16));
    assert_eq!(parse_netmask_prefix("0xffffffff"), Some(32));
    assert_eq!(parse_netmask_prefix("0x00000000"), Some(0));
    // Non-contiguous: there is no prefix length, and inventing one would
    // silently misjudge which addresses share the subnet.
    assert_eq!(parse_netmask_prefix("0xff00ff00"), None);
    assert_eq!(parse_netmask_prefix("nonsense"), None);
}

#[test]
fn a_missing_netmask_claims_nothing_about_the_subnet() {
    // /32 contains only the host, so `v4_contains` answers "no" rather
    // than guessing that the gateway is reachable.
    let a = parse_ifconfig_addrs("en0: flags=8863\n\tinet 192.168.0.15");
    assert_eq!(a.v4.unwrap().1, 32);
    assert_eq!(a.v4_contains(ip("192.168.0.1")), Some(false));
}

#[test]
fn resolvers_dedup() {
    let r = parse_resolvers(DNS);
    assert_eq!(r.nameservers.len(), 1);
    assert_eq!(ip_to_string(r.nameservers[0]), "192.168.0.1");
}

/// A scoped resolver only answers for names under its own domain, never
/// for the public name the bench queries. Naming it would let the DNS hop
/// confidently report a resolver that was never measured.
#[test]
fn scoped_resolvers_are_not_named_as_the_system_resolver() {
    let r = parse_resolvers(DNS);
    assert!(
        !r.nameservers
            .iter()
            .any(|ip| ip_to_string(*ip) == "10.99.0.53"),
        "a domain-scoped resolver must not be listed: {:?}",
        r.nameservers
    );
}

#[test]
fn a_scoped_flag_alone_is_enough_to_exclude_a_block() {
    let text = "resolver #1\n  nameserver[0] : 1.1.1.1\n\n\
                resolver #2\n  nameserver[0] : 10.0.0.53\n  flags    : Scoped";
    let r = parse_resolvers(text);
    assert_eq!(r.nameservers.len(), 1);
    assert_eq!(ip_to_string(r.nameservers[0]), "1.1.1.1");
}

#[test]
fn route_strips_ipv6_zone() {
    let text = "      gateway: fe80::1%en0\n    interface: en0";
    let r = parse_route(text).unwrap();
    assert_eq!(ip_to_string(r.gateway.unwrap()), "fe80::1");
    assert_eq!(r.gateway_zone.as_deref(), Some("en0"));
}

#[test]
fn ifconfig_inet_parsed() {
    let text = "utun4: flags=8051<UP,POINTOPOINT,RUNNING,MULTICAST> mtu 1400\n\
                \tinet 100.86.1.2 --> 100.86.1.2 netmask 0xffffffff\n\
                \tinet6 fe80::1%utun4 prefixlen 64";
    assert_eq!(ip_to_string(parse_ifconfig_inet(text).unwrap()), "100.86.1.2");
}

#[test]
fn ifconfig_prefers_ipv4_over_ipv6() {
    // Link-local v6 comes first in the output, but IPv4 must still win.
    let text = "utun4: flags=8051 mtu 1400\n\
                \tinet6 fe80::1%utun4 prefixlen 64\n\
                \tinet 100.86.1.2 --> 100.86.1.2 netmask 0xffffffff\n\
                \tinet6 fd7a:115c:a1e0::1 prefixlen 48";
    assert_eq!(ip_to_string(parse_ifconfig_inet(text).unwrap()), "100.86.1.2");
}

#[test]
fn ifconfig_falls_back_to_global_ipv6() {
    // IPv6-only tunnel: skip the link-local, keep the global address.
    let text = "utun6: flags=8051 mtu 1400\n\
                \tinet6 fe80::abcd%utun6 prefixlen 64 scopeid 0x1d\n\
                \tinet6 fd7a:115c:a1e0::53 prefixlen 48";
    assert_eq!(
        ip_to_string(parse_ifconfig_inet(text).unwrap()),
        "fd7a:115c:a1e0::53"
    );
}

#[test]
fn ifconfig_link_local_only_is_none() {
    let text = "utun7: flags=8051 mtu 1400\n\tinet6 fe80::1%utun7 prefixlen 64";
    assert_eq!(parse_ifconfig_inet(text), None);
}

#[test]
fn vendor_detects_tailscale_cgnat() {
    assert_eq!(
        vendor_from_ip(ip("100.86.1.2")),
        Some("Tailscale")
    );
    // A plain private-range tunnel address stays unlabelled.
    assert_eq!(vendor_from_ip(ip("10.8.0.2")), None);
}

#[test]
fn vendor_detects_client_processes() {
    let ps = "/usr/sbin/cfprefsd\n\
              /Applications/Mullvad VPN.app/Contents/Resources/mullvad-daemon\n\
              /usr/libexec/wifid";
    assert_eq!(vendor_from_processes(ps), Some("Mullvad"));
    // A vendor with its own daemon wins over the generic engine it's built on.
    assert_eq!(
        vendor_from_processes("/usr/local/bin/tailscaled --state=/x"),
        Some("Tailscale")
    );
    assert_eq!(
        vendor_from_processes("/usr/sbin/openvpn --config x.ovpn"),
        Some("OpenVPN")
    );
    // No VPN client running → no label.
    assert_eq!(
        vendor_from_processes("/usr/sbin/bluetoothd\n/usr/libexec/nsurlsessiond"),
        None
    );
}

#[test]
fn detect_tunnel_finds_utun() {
    let nwi = "Network information\n\n\
               IPv4 network interface information\n\
               \t  en0 : flags : 0x5 (IPv4,DNS)\n\
               \tutun4 : flags : 0x5 (IPv4,DNS)\n\n\
               \tNetwork interfaces: en0 utun4";
    assert_eq!(detect_tunnel(nwi).as_deref(), Some("utun4"));
}

#[test]
fn wifi_device_parsed() {
    let text = "Hardware Port: Ethernet\nDevice: en5\n\n\
                Hardware Port: Wi-Fi\nDevice: en0\nEthernet Address: aa:bb";
    assert_eq!(wifi_device(text).as_deref(), Some("en0"));
}

/// What tools complain of is recognised whatever its case.
#[test]
fn complaints_are_read_in_any_case() {
    assert!(matches!(
        classify_failure("route", "route: NOT IN TABLE"),
        PlatformError::NoNetwork
    ));
    assert!(matches!(
        classify_lowered("route", "route: NOT IN TABLE", "route: not in table"),
        PlatformError::NoNetwork
    ));
    assert_eq!(
        classify_lowered("route", "\n  route: Socket Denied \n", "route: socket denied").message(),
        classify_failure("route", "\n  route: Socket Denied \n").message()
    );
    assert!(matches!(
        spawn_failure("scutil", "not found"),
        PlatformError::Command(c) if c == "scutil: not found"
    ));
}

#[test]
fn a_tool_that_says_something_has_run() {
    let text = |r: Result<String, PlatformError>| r.map_err(|e| e.message());
    assert_eq!(
        text(tool_output("ps", true, String::new(), "noise")),
        Ok(String::new())
    );
    assert_eq!(
        text(tool_output("ps", false, "a daemon\n".to_string(), "noise")),
        Ok("a daemon\n".to_string())
    );
    assert_eq!(
        text(tool_output("ps", false, " \n".to_string(), "ps: denied")),
        Err(spawn_failure("ps", "denied").message())
    );
}

#[test]
fn the_ipv6_route_counts_where_there_is_no_ipv4_one() {
    let six = || {
        Ok(RouteInfo {
            interface: "en1".to_string(),
            ..Default::default()
        })
    };
    let four = || {
        Ok(RouteInfo {
            interface: "en0".to_string(),
            ..Default::default()
        })
    };
    let name = |r: Result<RouteInfo, PlatformError>| r.map(|i| i.interface).ok();
    assert_eq!(name(route_or_fallback(four(), six())).as_deref(), Some("en0"));
    assert_eq!(
        name(route_or_fallback(Err(PlatformError::NoNetwork), six())).as_deref(),
        Some("en1")
    );
    let both = route_or_fallback(
        Err(PlatformError::Command("route: denied".to_string())),
        Err(PlatformError::NoNetwork),
    );
    assert!(matches!(both, Err(PlatformError::Command(_))));
    let passed = route_from_tool(Err(PlatformError::Command("route: denied".to_string())));
    assert!(matches!(passed, Err(PlatformError::Command(_))));
    let empty = route_from_tool(Ok(String::new()));
    assert!(empty.is_err());
}

#[test]
fn an_unread_tunnel_is_not_an_absent_one() {
    let mut info = RouteInfo::default();
    mark_tunnel(&mut info, Err(PlatformError::Command("scutil: x".to_string())));
    assert!(info.tunnel_unreadable);
    assert!(!info.tunnel_active);

    let mut info = RouteInfo::default();
    mark_tunnel(&mut info, Ok("no tunnels here".to_string()));
    assert!(!info.tunnel_unreadable);
    assert!(!info.tunnel_active);
}

#[test]
fn a_vendor_is_named_by_its_daemon_before_its_range() {
    let ifconfig = "utun4: flags=8051\n\tinet 100.101.102.103 --> 100.101.102.103\n";
    let by_range = describe_vpn("utun4".to_string(), Some(ifconfig.to_string()), None);
    assert_eq!(by_range.vendor.as_deref(), Some("Tailscale"));
    assert_eq!(by_range.local_ip, Some(ip("100.101.102.103")));
    let by_daemon = describe_vpn(
        "utun4".to_string(),
        Some(ifconfig.to_string()),
        Some("/Applications/MULLVAD VPN.app\nwireguard-go".to_string()),
    );
    assert_eq!(by_daemon.vendor.as_deref(), Some("Mullvad"));
    let unknown = describe_vpn("utun4".to_string(), None, Some("zsh".to_string()));
    assert_eq!(unknown.vendor, None);
    assert!(unknown.active);
    assert_eq!(vendor_from_lowered("nordvpnd"), Some("NordVPN"));
    assert_eq!(vendor_from_processes("NordVPNd"), Some("NordVPN"));
    assert_eq!(vendor_from_lowered("NordVPNd"), None);
}

#[test]
fn a_mask_is_as_long_as_its_ones() {
    assert_eq!(parse_netmask_prefix("0xffffff00"), Some(24));
    assert_eq!(parse_netmask_prefix("0xffffffff"), Some(32));
    assert_eq!(parse_netmask_prefix("0x0"), Some(0));
    assert_eq!(parse_netmask_prefix("0xff00ff00"), None);
    assert_eq!(parse_netmask_prefix("255.255.240.0"), Some(20));
    assert_eq!(parse_netmask_prefix("255.0.255.0"), None);
    assert_eq!(parse_netmask_prefix("0xfff"), None);
    assert_eq!(parse_netmask_prefix("mask"), None);
}

#[test]
fn another_link_is_not_graded_by_the_wifi_card() {
    let ports = "Hardware Port: Wi-Fi\nDevice: en0\n".to_string();
    let wired = other_link(Ok(ports.clone()), "en5").unwrap();
    assert_eq!(wired.interface, "en5");
    assert!(!wired.is_wifi);
    assert!(other_link(Ok(ports.clone()), "en0").is_none());
    assert!(other_link(Err(PlatformError::NoNetwork), "en5").is_none());
    assert_eq!(primary_from_ports(&ports).ok().as_deref(), Some("en0"));
    assert!(primary_from_ports("").is_err());
    assert_eq!(link_from_profiler("", "en0").interface, "en0");
}

#[test]
fn a_signal_comes_with_its_noise() {
    assert_eq!(parse_signal_noise("-60 dBm / -92 dBm"), (Some(-60), Some(-92)));
    assert_eq!(parse_signal_noise("unknown"), (None, None));
    let (number, band, width) = parse_channel("40 (5GHz, 80MHz)");
    assert_eq!(number, Some(40));
    assert_eq!(band.as_deref(), Some("5GHz"));
    assert_eq!(width, Some(80));
}

/// Scoped resolvers answer for one interface, not for the machine.
#[test]
fn a_scoped_resolver_is_told_by_its_flags() {
    assert!(is_scoped("flags    : Scoped, Request A records"));
    assert!(!is_scoped("flags    : Request A records"));
    let _ = MacOs::new();
}

#[test]
fn nameservers_are_named_once() {
    let text = "DNS configuration\n\nresolver #1\n  nameserver[0] : 192.168.0.1\n  nameserver[1] : 1.1.1.1\n  flags    : Request A records\n\nresolver #2\n  nameserver[0] : 192.168.0.1\n  flags    : Request A records\n";
    let r = parse_resolvers(text);
    assert_eq!(r.nameservers, vec![ip("192.168.0.1"), ip("1.1.1.1")]);
}

#[test]
fn link_local_addresses_are_not_the_hosts() {
    let text = "en0: flags=8863<UP> mtu 1500\n\tinet6 fe80::1%en0 prefixlen 64 scopeid 0x4\n\tinet6 2001:db8::7 prefixlen 64\n\tinet 192.168.0.15 netmask 0xffffff00 broadcast 192.168.0.255\n";
    let a = parse_ifconfig_addrs(text);
    assert_eq!(a.v6.len(), 1);
    assert_eq!(v6_to_string(a.v6[0]), "2001:db8::7");
    assert_eq!(a.v4.map(|(_, prefix)| prefix), Some(24));
}
