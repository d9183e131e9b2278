//! Platform abstraction layer.
//!
//! Each OS provides a [`Platform`] implementation that gathers raw, low-level
//! network facts (link telemetry, default route, resolvers). The probe engine
//! consumes these facts and never touches OS-specific commands directly, so a
//! new OS only needs a new `Platform` impl — nothing above this layer changes.

use crate::addr::{IpAddr, Ipv4Addr, Ipv6Addr};
use crate::model::path;
use crate::text;
use vstd::arithmetic::power2;
use vstd::prelude::*;

pub mod corewlan;
pub mod macos;
pub mod unsupported;

verus! {

broadcast use vstd::string::group_string_axioms;

/// Why wtfi refuses to probe on the OS of this name, or `None` when it is
/// supported. macOS is the only OS with a module today.
pub fn unsupported_os(os: &str) -> (r: Option<&'static str>)
    ensures
        match r {
            None => os@ == "macos"@,
            Some(why) => os@ != "macos"@ && why@
                == "wtfi has no platform module for this OS yet — macOS only for now"@,
        },
{
    if text::str_eq(os, "macos") {
        None
    } else {
        Some("wtfi has no platform module for this OS yet — macOS only for now")
    }
}

/// Physical / link-layer (L2) facts about the active Wi-Fi interface.
#[derive(Debug, Clone)]
pub struct LinkInfo {
    /// Interface name backing the default route, e.g. `en0`.
    pub interface: String,
    /// SSID, or `None` when the OS redacts it (missing Location permission).
    pub ssid: Option<String>,
    /// BSSID (AP MAC), or `None` when redacted.
    pub bssid: Option<String>,
    /// Received signal strength in dBm (negative; closer to 0 is stronger).
    pub rssi_dbm: Option<i32>,
    /// Noise floor in dBm.
    pub noise_dbm: Option<i32>,
    /// Channel number.
    pub channel: Option<u32>,
    /// Channel band label, e.g. `5GHz`.
    pub band: Option<String>,
    /// Channel width in MHz.
    pub width_mhz: Option<u32>,
    /// PHY mode, e.g. `802.11ax`.
    pub phy_mode: Option<String>,
    /// Security type, e.g. `WPA3 Personal`.
    pub security: Option<String>,
    /// Negotiated transmit rate in Mbps.
    pub tx_rate_mbps: Option<u32>,
    /// False when a wired/other link is active instead of Wi-Fi.
    pub is_wifi: bool,
}

/// What link-layer facts say.
#[verifier::ext_equal]
pub struct LinkView {
    pub interface: Seq<char>,
    pub ssid: Option<Seq<char>>,
    pub bssid: Option<Seq<char>>,
    pub rssi_dbm: Option<i32>,
    pub noise_dbm: Option<i32>,
    pub channel: Option<u32>,
    pub band: Option<Seq<char>>,
    pub width_mhz: Option<u32>,
    pub phy_mode: Option<Seq<char>>,
    pub security: Option<Seq<char>>,
    pub tx_rate_mbps: Option<u32>,
    pub is_wifi: bool,
}

impl View for LinkInfo {
    type V = LinkView;

    open spec fn view(&self) -> LinkView {
        LinkView {
            interface: self.interface@,
            ssid: path::opt_text(self.ssid),
            bssid: path::opt_text(self.bssid),
            rssi_dbm: self.rssi_dbm,
            noise_dbm: self.noise_dbm,
            channel: self.channel,
            band: path::opt_text(self.band),
            width_mhz: self.width_mhz,
            phy_mode: path::opt_text(self.phy_mode),
            security: path::opt_text(self.security),
            tx_rate_mbps: self.tx_rate_mbps,
            is_wifi: self.is_wifi,
        }
    }
}

/// A link of which nothing is known.
pub open spec fn no_link() -> LinkView {
    LinkView {
        interface: seq![],
        ssid: None,
        bssid: None,
        rssi_dbm: None,
        noise_dbm: None,
        channel: None,
        band: None,
        width_mhz: None,
        phy_mode: None,
        security: None,
        tx_rate_mbps: None,
        is_wifi: false,
    }
}

impl Default for LinkInfo {
    fn default() -> (r: Self)
        ensures
            r@ == no_link(),
    {
        LinkInfo {
            interface: String::new(),
            ssid: None,
            bssid: None,
            rssi_dbm: None,
            noise_dbm: None,
            channel: None,
            band: None,
            width_mhz: None,
            phy_mode: None,
            security: None,
            tx_rate_mbps: None,
            is_wifi: false,
        }
    }
}

impl LinkView {
    /// Signal-to-noise ratio in dB, when both values are known.
    pub open spec fn snr(self) -> Option<i64> {
        match (self.rssi_dbm, self.noise_dbm) {
            (Some(s), Some(n)) => Some((s - n) as i64),
            _ => None,
        }
    }
}

impl LinkInfo {
    /// Signal-to-noise ratio in dB, when both values are known.
    pub fn snr_db(&self) -> (r: Option<i64>)
        ensures
            r == self@.snr(),
    {
        match (self.rssi_dbm, self.noise_dbm) {
            (Some(s), Some(n)) => Some(s as i64 - n as i64),
            _ => None,
        }
    }
}

/// Default-route (L3) facts.
#[derive(Debug, Clone)]
pub struct RouteInfo {
    pub interface: String,
    pub gateway: Option<IpAddr>,
    /// Scope/zone id for a link-local IPv6 gateway (e.g. `en0` in `fe80::1%en0`).
    pub gateway_zone: Option<String>,
    pub mtu: Option<u32>,
    /// True when a VPN/tunnel interface (utun/tailscale) owns a route.
    pub tunnel_active: bool,
    pub tunnel_iface: Option<String>,
    /// True when the tunnel lookup itself failed, so `tunnel_active == false`
    /// means "we couldn't tell" rather than "there is no tunnel".
    ///
    /// The distinction matters downstream: a dead full-tunnel VPN looks
    /// exactly like an ISP outage, and the only thing that stops wtfi blaming
    /// the ISP for it is knowing the tunnel is there. Silently treating an
    /// unreadable tunnel as an absent one hands back the confident wrong
    /// answer the fault codes exist to prevent.
    pub tunnel_unreadable: bool,
}

/// What default-route facts say.
#[verifier::ext_equal]
pub struct RouteView {
    pub interface: Seq<char>,
    pub gateway: Option<IpAddr>,
    pub gateway_zone: Option<Seq<char>>,
    pub mtu: Option<u32>,
    pub tunnel_active: bool,
    pub tunnel_iface: Option<Seq<char>>,
    pub tunnel_unreadable: bool,
}

impl View for RouteInfo {
    type V = RouteView;

    open spec fn view(&self) -> RouteView {
        RouteView {
            interface: self.interface@,
            gateway: self.gateway,
            gateway_zone: path::opt_text(self.gateway_zone),
            mtu: self.mtu,
            tunnel_active: self.tunnel_active,
            tunnel_iface: path::opt_text(self.tunnel_iface),
            tunnel_unreadable: self.tunnel_unreadable,
        }
    }
}

/// A route of which nothing is known.
pub open spec fn no_route() -> RouteView {
    RouteView {
        interface: seq![],
        gateway: None,
        gateway_zone: None,
        mtu: None,
        tunnel_active: false,
        tunnel_iface: None,
        tunnel_unreadable: false,
    }
}

impl Default for RouteInfo {
    fn default() -> (r: Self)
        ensures
            r@ == no_route(),
    {
        RouteInfo {
            interface: String::new(),
            gateway: None,
            gateway_zone: None,
            mtu: None,
            tunnel_active: false,
            tunnel_iface: None,
            tunnel_unreadable: false,
        }
    }
}

/// Addresses configured on an interface.
///
/// Separate from [`RouteInfo`] because it answers a different question: the
/// route says where traffic goes, this says whether you were given a place to
/// send it *from*. A machine with a self-assigned `169.254` address has an
/// interface, a link and often a gateway entry, and still cannot talk to
/// anything — a state the route alone cannot describe.
#[derive(Debug, Clone)]
pub struct AddrInfo {
    /// IPv4 address and its prefix length, e.g. `192.168.0.15/24`.
    pub v4: Option<(Ipv4Addr, u8)>,
    /// Routable IPv6 addresses. Link-local `fe80::` is excluded: every
    /// interface has one whether or not the network works.
    pub v6: Vec<Ipv6Addr>,
}

impl Default for AddrInfo {
    fn default() -> (r: Self)
        ensures
            r.v4 is None,
            r.v6@ == Seq::<Ipv6Addr>::empty(),
    {
        AddrInfo { v4: None, v6: Vec::new() }
    }
}

/// Two addresses agree in their first `prefix` bits.
pub open spec fn same_subnet(a: Ipv4Addr, b: Ipv4Addr, prefix: nat) -> bool {
    let size = power2::pow2((32 - prefix) as nat);
    a.bits() / size == b.bits() / size
}

/// A prefix length, no longer than an address.
pub open spec fn prefix_bits(prefix: u8) -> nat {
    if prefix < 32 {
        prefix as nat
    } else {
        32
    }
}

impl AddrInfo {
    /// The IPv4 address is one that autoconfiguration handed out.
    pub open spec fn self_assigned(self) -> bool {
        self.v4 matches Some((ip, _)) && ip.link_local()
    }

    /// True when IPv4 autoconfiguration took over because DHCP never answered
    /// (RFC 3927, `169.254.0.0/16`). The interface looks configured and can
    /// reach nothing.
    pub fn is_self_assigned(&self) -> (r: bool)
        ensures
            r == self.self_assigned(),
    {
        match self.v4 {
            Some((ip, _)) => ip.is_link_local(),
            None => false,
        }
    }

    /// The configured IPv4 subnet holds `other`, where both are IPv4.
    pub open spec fn holds(self, other: IpAddr) -> Option<bool> {
        match (self.v4, other) {
            (Some((ip, prefix)), IpAddr::V4(o)) => Some(same_subnet(ip, o, prefix_bits(prefix))),
            _ => None,
        }
    }

    /// Whether `other` falls inside the configured IPv4 subnet. A gateway that
    /// doesn't is unreachable no matter how healthy it is.
    pub fn v4_contains(&self, other: IpAddr) -> (r: Option<bool>)
        ensures
            r == self.holds(other),
    {
        match (self.v4, other) {
            (Some((ip, prefix)), IpAddr::V4(o)) => {
                let a: u32 = ip.to_bits();
                let b: u32 = o.to_bits();
                // A shift by 32 is none. A /0 holds everything.
                if prefix == 0 {
                    proof {
                        power2::lemma2_to64();
                        let size = power2::pow2(32);
                        assert(a as nat / size == 0) by (nonlinear_arith)
                            requires
                                size == 0x1_0000_0000,
                                a < 0x1_0000_0000,
                        ;
                        assert(b as nat / size == 0) by (nonlinear_arith)
                            requires
                                size == 0x1_0000_0000,
                                b < 0x1_0000_0000,
                        ;
                    }
                    return Some(true);
                }
                let p: u8 = if prefix < 32 {
                    prefix
                } else {
                    32
                };
                let shift: u32 = 32 - p as u32;
                proof {
                    vstd::bits::lemma_u32_shr_is_div(a, shift);
                    vstd::bits::lemma_u32_shr_is_div(b, shift);
                }
                Some(a >> shift == b >> shift)
            },
            _ => None,
        }
    }
}

/// Resolver configuration facts.
#[derive(Debug, Clone)]
pub struct ResolverInfo {
    pub nameservers: Vec<IpAddr>,
}

impl Default for ResolverInfo {
    fn default() -> (r: Self)
        ensures
            r.nameservers@ == Seq::<IpAddr>::empty(),
    {
        ResolverInfo { nameservers: Vec::new() }
    }
}

/// VPN / overlay-tunnel facts. Distinct from [`RouteInfo::tunnel_active`],
/// which only says *whether* a tunnel exists; this describes it.
#[derive(Debug, Clone)]
pub struct VpnInfo {
    /// True when a tunnel interface is part of the active network state.
    pub active: bool,
    /// Tunnel interface backing it, e.g. `utun4`.
    pub interface: Option<String>,
    /// The tunnel-assigned local address, when configured.
    pub local_ip: Option<IpAddr>,
    /// Best-effort vendor label inferred from the tunnel address, e.g.
    /// `Tailscale` for the 100.64.0.0/10 CGNAT range. `None` when unknown.
    pub vendor: Option<String>,
}

/// What tunnel facts say.
#[verifier::ext_equal]
pub struct VpnView {
    pub active: bool,
    pub interface: Option<Seq<char>>,
    pub local_ip: Option<IpAddr>,
    pub vendor: Option<Seq<char>>,
}

impl View for VpnInfo {
    type V = VpnView;

    open spec fn view(&self) -> VpnView {
        VpnView {
            active: self.active,
            interface: path::opt_text(self.interface),
            local_ip: self.local_ip,
            vendor: path::opt_text(self.vendor),
        }
    }
}

/// No tunnel.
pub open spec fn no_vpn() -> VpnView {
    VpnView { active: false, interface: None, local_ip: None, vendor: None }
}

impl Default for VpnInfo {
    fn default() -> (r: Self)
        ensures
            r@ == no_vpn(),
    {
        VpnInfo { active: false, interface: None, local_ip: None, vendor: None }
    }
}

/// Errors from platform data acquisition.
#[derive(Debug)]
pub enum PlatformError {
    /// A required command was not found or failed to spawn.
    Command(String),
    /// The command ran but its output could not be parsed as expected.
    Parse(String),
    /// No default route / no active network.
    NoNetwork,
    /// No platform module for this OS. Distinct from `NoNetwork`: the network
    /// may well be fine, wtfi just can't see it here.
    Unsupported,
}

/// What an error says.
pub enum ErrorView {
    Command(Seq<char>),
    Parse(Seq<char>),
    NoNetwork,
    Unsupported,
}

impl View for PlatformError {
    type V = ErrorView;

    open spec fn view(&self) -> ErrorView {
        match self {
            PlatformError::Command(c) => ErrorView::Command(c@),
            PlatformError::Parse(m) => ErrorView::Parse(m@),
            PlatformError::NoNetwork => ErrorView::NoNetwork,
            PlatformError::Unsupported => ErrorView::Unsupported,
        }
    }
}

impl ErrorView {
    /// The error in words.
    pub open spec fn words(self) -> Seq<char> {
        match self {
            ErrorView::Command(c) => "command failed: "@ + c,
            ErrorView::Parse(m) => "parse error: "@ + m,
            ErrorView::NoNetwork => "no active network / default route"@,
            ErrorView::Unsupported => "unsupported platform: no module for this OS"@,
        }
    }
}

impl PlatformError {
    /// The error in words.
    pub fn message(&self) -> (r: String)
        ensures
            r@ == self@.words(),
    {
        match self {
            PlatformError::Command(c) => text::cat2("command failed: ", c.as_str()),
            PlatformError::Parse(m) => text::cat2("parse error: ", m.as_str()),
            PlatformError::NoNetwork => "no active network / default route".to_string(),
            PlatformError::Unsupported => "unsupported platform: no module for this OS".to_string(),
        }
    }
}

/// OS-specific gatherer of raw network facts.
pub trait Platform: Send + Sync {
    /// Resolve the default route (gateway + interface + MTU).
    fn route(&self) -> Result<RouteInfo, PlatformError>;

    /// Gather link-layer telemetry for the given interface.
    fn link(&self, interface: &str) -> Result<LinkInfo, PlatformError>;

    /// Read the addresses configured on an interface.
    fn addrs(&self, interface: &str) -> Result<AddrInfo, PlatformError>;

    /// The interface to inspect when there is no default route to name one.
    /// Without this, the state worth diagnosing most — a link that came up but
    /// never got an address — would be the state wtfi cannot look at.
    fn primary_interface(&self) -> Result<String, PlatformError>;

    /// Read the configured DNS resolvers.
    fn resolvers(&self) -> Result<ResolverInfo, PlatformError>;

    /// Describe the active VPN/overlay tunnel, if any. An inactive result
    /// (`VpnInfo::active == false`) is normal, not an error.
    fn vpn(&self) -> Result<VpnInfo, PlatformError>;
}

// ---- laws ----

proof fn lemma_bits_bound(a: Ipv4Addr)
    ensures
        a.bits() < 0x1_0000_0000,
{
}

/// Every address is inside its own subnet, however long the prefix.
pub proof fn an_address_is_in_its_own_subnet(info: AddrInfo, ip: Ipv4Addr, prefix: u8)
    requires
        info.v4 == Some((ip, prefix)),
    ensures
        info.holds(IpAddr::V4(ip)) == Some(true),
{
}

/// A prefix of no bits holds every IPv4 address.
pub proof fn an_empty_prefix_holds_everything(info: AddrInfo, ip: Ipv4Addr, other: Ipv4Addr)
    requires
        info.v4 == Some((ip, 0u8)),
    ensures
        info.holds(IpAddr::V4(other)) == Some(true),
{
    power2::lemma2_to64();
    lemma_bits_bound(ip);
    lemma_bits_bound(other);
    let size = power2::pow2(32);
    let a = ip.bits();
    let b = other.bits();
    assert(a / size == 0 && b / size == 0) by (nonlinear_arith)
        requires
            size == 0x1_0000_0000,
            a < 0x1_0000_0000,
            b < 0x1_0000_0000,
    ;
}

/// A prefix of all bits holds its own address and no other.
pub proof fn a_full_prefix_holds_only_itself(
    info: AddrInfo,
    ip: Ipv4Addr,
    prefix: u8,
    other: Ipv4Addr,
)
    requires
        info.v4 == Some((ip, prefix)),
        prefix >= 32,
    ensures
        info.holds(IpAddr::V4(other)) == Some(ip == other),
{
    power2::lemma2_to64();
    assert(ip.bits() / 1 == ip.bits() && other.bits() / 1 == other.bits());
    if ip.bits() == other.bits() {
        assert(ip.a == other.a);
        assert(ip.b == other.b);
        assert(ip.c == other.c);
    }
}

/// A prefix of whole octets holds exactly the addresses that begin with them.
pub proof fn whole_octets_are_compared(info: AddrInfo, ip: Ipv4Addr, prefix: u8, other: Ipv4Addr)
    requires
        info.v4 == Some((ip, prefix)),
    ensures
        prefix == 24 ==> info.holds(IpAddr::V4(other)) == Some(
            ip.a == other.a && ip.b == other.b && ip.c == other.c,
        ),
        prefix == 16 ==> info.holds(IpAddr::V4(other)) == Some(ip.a == other.a && ip.b == other.b),
        prefix == 8 ==> info.holds(IpAddr::V4(other)) == Some(ip.a == other.a),
{
    power2::lemma2_to64();
    lemma_leading_octets(ip);
    lemma_leading_octets(other);
}

proof fn lemma_leading_octets(v: Ipv4Addr)
    ensures
        v.bits() / 0x100 == v.a * 0x1_0000 + v.b * 0x100 + v.c,
        v.bits() / 0x1_0000 == v.a * 0x100 + v.b,
        v.bits() / 0x100_0000 == v.a,
{
}

/// What a subnet holds, a wider one around it holds too.
pub proof fn a_wider_subnet_holds_more(a: Ipv4Addr, b: Ipv4Addr, long: nat, short: nat)
    requires
        short <= long <= 32,
        same_subnet(a, b, long),
    ensures
        same_subnet(a, b, short),
{
    let fine = power2::pow2((32 - long) as nat);
    let step = power2::pow2((long - short) as nat);
    let coarse = power2::pow2((32 - short) as nat);
    power2::lemma_pow2_adds((32 - long) as nat, (long - short) as nat);
    power2::lemma_pow2_pos((32 - long) as nat);
    power2::lemma_pow2_pos((long - short) as nat);
    vstd::arithmetic::div_mod::lemma_div_denominator(a.bits() as int, fine as int, step as int);
    vstd::arithmetic::div_mod::lemma_div_denominator(b.bits() as int, fine as int, step as int);
    assert(coarse == fine * step);
}

/// Only IPv4 addresses are compared with an IPv4 subnet.
pub proof fn only_ipv4_has_a_subnet(info: AddrInfo, other: IpAddr)
    ensures
        info.holds(other) is None <==> info.v4 is None || other is V6,
{
}

} // verus!
