//! macOS platform facts.
//!
//! Reads the output of first-party read-only tools that work **without sudo**
//! on macOS 26 (Tahoe):
//!
//! - `route -n get default` — gateway, interface, MTU
//! - `system_profiler SPAirPortDataType` — RSSI, noise, channel, PHY, security
//! - `scutil --dns` — configured resolvers
//!
//! Note: since macOS 14 the OS redacts SSID/BSSID unless the calling app holds
//! Location permission, so those fields are best-effort. RSSI/noise are not
//! redacted, which is what actually matters for signal diagnosis.

use crate::addr;
use crate::addr::{IpAddr, Ipv4Addr, Ipv6Addr};
use crate::model::path;
use crate::number;
use crate::platform;
use crate::platform::{AddrInfo, LinkInfo, PlatformError, ResolverInfo, RouteInfo, VpnInfo};
use crate::text;
use vstd::arithmetic::power2;
use vstd::prelude::*;
use vstd::slice::slice_subrange;

verus! {

broadcast use vstd::string::group_string_axioms;

/// The macOS module.
#[derive(Debug, Clone, Copy, PartialEq, Eq, Structural)]
pub struct MacOs;

impl MacOs {
    /// The macOS module.
    pub fn new() -> (r: Self)
        ensures
            r == MacOs,
    {
        MacOs
    }
}

impl Default for MacOs {
    fn default() -> (r: Self)
        ensures
            r == MacOs,
    {
        Self::new()
    }
}

// ---- running tools ----

/// `str::to_lowercase` of these characters.
pub uninterp spec fn lowercase(s: Seq<char>) -> Seq<char>;

/// Calls `str::to_lowercase`. The result depends on the text alone; which
/// character becomes which is the Unicode standard's business and left unsaid.
#[verifier::external_body]
fn lowered(s: &str) -> (r: String)
    ensures
        r@ == lowercase(s@),
{
    s.to_lowercase()
}

/// The result of running a tool, by what it says.
pub open spec fn result_view<T: View>(r: Result<T, PlatformError>) -> Result<T::V, platform::ErrorView> {
    match r {
        Ok(t) => Ok(t@),
        Err(e) => Err(e@),
    }
}

/// The first of these lines that is not blank, trimmed.
pub open spec fn first_line(lines: Seq<Seq<char>>) -> Option<Seq<char>>
    decreases lines.len(),
{
    if lines.len() == 0 {
        None
    } else if text::trim(lines[0]).len() > 0 {
        Some(text::trim(lines[0]))
    } else {
        first_line(lines.skip(1))
    }
}

/// What a tool complained of, without the name that it put in front.
pub open spec fn complaint(cmd: Seq<char>, stderr: Seq<char>) -> Seq<char> {
    let detail = match first_line(text::lines(stderr)) {
        Some(l) => l,
        None => "no output"@,
    };
    text::trim(
        match text::after_prefix(detail, cmd + ": "@) {
            Some(rest) => rest,
            None => detail,
        },
    )
}

/// What a tool that failed without output means, given its complaint and the
/// same in lower case.
pub open spec fn failure(
    cmd: Seq<char>,
    stderr: Seq<char>,
    low: Seq<char>,
) -> platform::ErrorView {
    if text::contains(low, "not in table"@) || text::contains(low, "no such process"@) {
        platform::ErrorView::NoNetwork
    } else {
        platform::ErrorView::Command(cmd + ": "@ + complaint(cmd, stderr))
    }
}

fn first_line_of<'a>(lines: &Vec<&'a [char]>) -> (r: Option<&'a [char]>)
    ensures
        text::slice_view(r) == first_line(text::views(lines@)),
{
    let ghost all = text::views(lines@);
    let mut i: usize = 0;
    assert(all.skip(0) == all);
    while i < lines.len()
        invariant
            i <= lines@.len(),
            all == text::views(lines@),
            first_line(all) == first_line(all.skip(i as int)),
        decreases lines@.len() - i,
    {
        assert(all[i as int] == lines@[i as int]@);
        assert(all.skip(i as int).skip(1) == all.skip(i + 1));
        let t = text::trimmed(lines[i]);
        if t.len() > 0 {
            return Some(t);
        }
        i += 1;
    }
    None
}

/// Tell "the tool ran and found nothing" apart from "the tool never got going",
/// given its complaint and the same in lower case.
pub fn classify_lowered(cmd: &str, stderr: &str, low: &str) -> (r: PlatformError)
    ensures
        r@ == failure(cmd@, stderr@, low@),
{
    let low_chars = text::chars_of(low);
    // `route -n get default` with no matching route: it queried the routing
    // table successfully and the table had nothing.
    if text::has(low_chars.as_slice(), "not in table") || text::has(
        low_chars.as_slice(),
        "no such process",
    ) {
        return PlatformError::NoNetwork;
    }
    let chars = text::chars_of(stderr);
    let lines = text::lines_of(chars.as_slice());
    let none = text::chars_of("no output");
    let detail = match first_line_of(&lines) {
        Some(l) => l,
        None => none.as_slice(),
    };
    // These tools already prefix their own name onto their complaints; saying
    // it twice ("route: route: socket: …") just reads like a bug.
    let name = text::cat2(cmd, ": ");
    let bare = match text::strip_prefix(detail, name.as_str()) {
        Some(rest) => rest,
        None => detail,
    };
    let body = text::string_of(text::trimmed(bare));
    PlatformError::Command(text::cat3(cmd, ": ", body.as_str()))
}

/// Tell "the tool ran and found nothing" apart from "the tool never got going".
///
/// Only the first is a fact about the network. The classification is
/// deliberately narrow: an unrecognised failure becomes [`PlatformError::Command`]
/// — "we could not see" — because that reads as unknown, while a wrong
/// [`PlatformError::NoNetwork`] reads as a confident, false outage.
pub fn classify_failure(cmd: &str, stderr: &str) -> (r: PlatformError)
    ensures
        r@ == failure(cmd@, stderr@, lowercase(stderr@)),
{
    let low = lowered(stderr);
    classify_lowered(cmd, stderr, low.as_str())
}

/// What the run of a read-only system tool comes to: its output, or why there
/// is none.
///
/// A tool that *refused to run* says nothing about the network, and reporting
/// that refusal as an outage is how wtfi ends up blaming a working connection
/// for its own blindness. So a non-zero exit with nothing on stdout is an
/// error here, carrying what the tool complained about.
///
/// A non-zero exit *with* output is still a success: several of these tools
/// report a perfectly good answer and then exit non-zero (`route` does it for
/// a lookup that found nothing), and that answer is one we want.
pub fn tool_output(cmd: &str, success: bool, stdout: String, stderr: &str) -> (r: Result<
    String,
    PlatformError,
>)
    ensures
        result_view(r) == (if !success && text::trim(stdout@).len() == 0 {
            Err(failure(cmd@, stderr@, lowercase(stderr@)))
        } else {
            Ok(stdout@)
        }),
{
    let chars = text::chars_of(stdout.as_str());
    if !success && text::trimmed(chars.as_slice()).len() == 0 {
        return Err(classify_failure(cmd, stderr));
    }
    Ok(stdout)
}

/// The error for a tool that could not be spawned.
pub fn spawn_failure(cmd: &str, reason: &str) -> (r: PlatformError)
    ensures
        r@ == platform::ErrorView::Command(cmd@ + ": "@ + reason@),
{
    PlatformError::Command(text::cat3(cmd, ": ", reason))
}

// ---- route ----

/// What has been read of a routing-table entry: the facts, and the columns of
/// the statistics whose row has not come yet.
#[verifier::ext_equal]
pub struct RouteState {
    pub info: platform::RouteView,
    pub header: Option<Seq<Seq<char>>>,
}

/// A gateway and its zone. A link-local IPv6 gateway carries one: `fe80::1%en0`.
pub open spec fn gateway_zone(s: Seq<char>) -> (Option<IpAddr>, Option<Seq<char>>) {
    match text::split_at_char(s, '%') {
        Some((a, z)) => (addr::ip_value(a), Some(z)),
        None => (addr::ip_value(s), None),
    }
}

/// What one more line says of the route.
pub open spec fn route_step(st: RouteState, line: Seq<char>) -> RouteState {
    let t = text::trim(line);
    let info = st.info;
    if let Some(rest) = text::after_prefix(t, "gateway:"@) {
        let (gateway, gateway_zone) = gateway_zone(text::trim(rest));
        RouteState { info: platform::RouteView { gateway, gateway_zone, ..info }, ..st }
    } else if let Some(rest) = text::after_prefix(t, "interface:"@) {
        RouteState { info: platform::RouteView { interface: text::trim(rest), ..info }, ..st }
    } else if text::starts_with(t, "recvpipe"@) {
        RouteState { header: Some(text::words(t)), ..st }
    } else {
        match st.header {
            // The single data row directly under the stats header.
            Some(cols) if text::words(t).len() == cols.len() => {
                let i = text::index_among(cols, "mtu"@);
                let mtu = if i < cols.len() {
                    number::u32_value(text::words(t)[i])
                } else {
                    info.mtu
                };
                RouteState { info: platform::RouteView { mtu, ..info }, header: None }
            },
            _ => st,
        }
    }
}

/// What these lines say of the route.
pub open spec fn route_lines(lines: Seq<Seq<char>>) -> RouteState
    decreases lines.len(),
{
    if lines.len() == 0 {
        RouteState { info: platform::no_route(), header: None }
    } else {
        route_step(route_lines(lines.drop_last()), lines.last())
    }
}

/// The default route in the output of `route -n get default`; without an
/// interface there is none.
pub open spec fn route_value(s: Seq<char>) -> Result<platform::RouteView, platform::ErrorView> {
    let info = route_lines(text::lines(s)).info;
    if info.interface.len() == 0 {
        Err(platform::ErrorView::NoNetwork)
    } else {
        Ok(info)
    }
}

fn read_gateway(info: &mut RouteInfo, rest: &[char])
    ensures
        final(info)@ == (platform::RouteView {
            gateway: gateway_zone(text::trim(rest@)).0,
            gateway_zone: gateway_zone(text::trim(rest@)).1,
            ..old(info)@
        }),
{
    let t = text::trimmed(rest);
    match text::split_once_char(t, '%') {
        Some((a, z)) => {
            info.gateway = addr::parse_ip(a);
            info.gateway_zone = Some(text::string_of(z));
        },
        None => {
            info.gateway = addr::parse_ip(t);
            info.gateway_zone = None;
        },
    }
}

/// Several optional lists of words.
pub open spec fn header_view(h: Option<Vec<&[char]>>) -> Option<Seq<Seq<char>>> {
    match h {
        Some(v) => Some(text::views(v@)),
        None => None,
    }
}

/// Reads the default route out of `route -n get default`.
pub fn parse_route(output: &str) -> (r: Result<RouteInfo, PlatformError>)
    ensures
        result_view(r) == route_value(output@),
{
    let chars = text::chars_of(output);
    let lines = text::lines_of(chars.as_slice());
    let ghost all = text::views(lines@);
    let mut info = RouteInfo::default();
    let mut header: Option<Vec<&[char]>> = None;
    let mut i: usize = 0;
    while i < lines.len()
        invariant
            i <= lines@.len(),
            all == text::views(lines@),
            route_lines(all.take(i as int)) == (RouteState {
                info: info@,
                header: header_view(header),
            }),
        decreases lines@.len() - i,
    {
        assert(all.take(i + 1).drop_last() == all.take(i as int));
        assert(all[i as int] == lines@[i as int]@);
        let t = text::trimmed(lines[i]);
        i += 1;
        if let Some(rest) = text::strip_prefix(t, "gateway:") {
            read_gateway(&mut info, rest);
        } else if let Some(rest) = text::strip_prefix(t, "interface:") {
            info.interface = text::string_of(text::trimmed(rest));
        } else if text::has_prefix(t, "recvpipe") {
            header = Some(text::words_of(t));
        } else {
            let vals = text::words_of(t);
            let row = match &header {
                Some(cols) => {
                    assert(text::views(cols@).len() == cols@.len());
                    assert(text::views(vals@).len() == vals@.len());
                    if vals.len() == cols.len() {
                        let k: usize = text::position_among(cols, "mtu");
                        if k < vals.len() {
                            assert(text::views(vals@)[k as int] == vals@[k as int]@);
                            info.mtu = number::read_u32(vals[k]);
                        }
                        true
                    } else {
                        false
                    }
                },
                None => false,
            };
            if row {
                header = None;
            }
        }
    }
    assert(all.take(i as int) == all);
    if info.interface.as_str().is_empty() {
        return Err(PlatformError::NoNetwork);
    }
    Ok(info)
}

/// Reads the default route out of what a lookup came to.
pub fn route_from_tool(output: Result<String, PlatformError>) -> (r: Result<
    RouteInfo,
    PlatformError,
>)
    ensures
        match output {
            Ok(t) => result_view(r) == route_value(t@),
            Err(e) => r == Err::<RouteInfo, PlatformError>(e),
        },
{
    match output {
        Ok(t) => parse_route(t.as_str()),
        Err(e) => Err(e),
    }
}

/// The default route out of both tables. The IPv6 one only counts where the
/// IPv4 one has nothing, so an IPv6-only network isn't reported as fully
/// offline.
///
/// When neither has a route, the IPv4 failure is reported, not the IPv6 one:
/// if `route` could not run at all, that has to reach the caller as "we could
/// not look" rather than being laundered into "you are offline".
pub fn route_or_fallback(
    v4: Result<RouteInfo, PlatformError>,
    v6: Result<RouteInfo, PlatformError>,
) -> (r: Result<RouteInfo, PlatformError>)
    ensures
        r == (if v4 is Ok || v6 is Err {
            v4
        } else {
            v6
        }),
{
    match v4 {
        Ok(i) => Ok(i),
        Err(e) => match v6 {
            Ok(i) => Ok(i),
            Err(_) => Err(e),
        },
    }
}

/// A route with what the tunnel lookup came to. A failed lookup is not the
/// same as "no tunnel".
pub open spec fn with_tunnel(
    info: platform::RouteView,
    nwi: Result<Seq<char>, platform::ErrorView>,
) -> platform::RouteView {
    match nwi {
        Err(_) => platform::RouteView { tunnel_unreadable: true, ..info },
        Ok(t) => match tunnel_iface(text::lines(t)) {
            Some(iface) => platform::RouteView {
                tunnel_active: true,
                tunnel_iface: Some(iface),
                ..info
            },
            None => info,
        },
    }
}

/// Record what the tunnel lookup (`scutil --nwi`) came to, so a dead
/// full-tunnel VPN can't be silently reclassified as an ISP outage on the
/// strength of a `scutil` that never ran.
pub fn mark_tunnel(info: &mut RouteInfo, nwi: Result<String, PlatformError>)
    ensures
        final(info)@ == with_tunnel(old(info)@, result_view(nwi)),
{
    match nwi {
        Err(_) => {
            info.tunnel_unreadable = true;
        },
        Ok(t) => {
            if let Some(iface) = detect_tunnel(t.as_str()) {
                info.tunnel_active = true;
                info.tunnel_iface = Some(iface);
            }
        },
    }
}

// ---- interfaces ----

/// The device of the Wi-Fi port in these lines; `in_wifi` says whether the port
/// they start in is one.
pub open spec fn wifi_port(lines: Seq<Seq<char>>, in_wifi: bool) -> Option<Seq<char>>
    decreases lines.len(),
{
    if lines.len() == 0 {
        None
    } else {
        let t = text::trim(lines[0]);
        let rest = lines.skip(1);
        if let Some(port) = text::after_prefix(t, "Hardware Port:"@) {
            wifi_port(rest, text::trim(port) == "Wi-Fi"@ || text::trim(port) == "AirPort"@)
        } else {
            match text::after_prefix(t, "Device:"@) {
                Some(dev) if in_wifi => Some(text::trim(dev)),
                _ => wifi_port(rest, in_wifi),
            }
        }
    }
}

/// Parse the Wi-Fi device name from `networksetup -listallhardwareports`.
///
/// ```text
/// Hardware Port: Wi-Fi
/// Device: en0
/// ```
pub fn wifi_device(output: &str) -> (r: Option<String>)
    ensures
        path::opt_text(r) == wifi_port(text::lines(output@), false),
{
    let chars = text::chars_of(output);
    let lines = text::lines_of(chars.as_slice());
    let ghost all = text::views(lines@);
    let mut in_wifi = false;
    let mut i: usize = 0;
    assert(all.skip(0) == all);
    while i < lines.len()
        invariant
            i <= lines@.len(),
            all == text::views(lines@),
            all == text::lines(output@),
            wifi_port(all, false) == wifi_port(all.skip(i as int), in_wifi),
        decreases lines@.len() - i,
    {
        assert(all[i as int] == lines@[i as int]@);
        assert(all.skip(i as int).skip(1) == all.skip(i + 1));
        let t = text::trimmed(lines[i]);
        i += 1;
        if let Some(port) = text::strip_prefix(t, "Hardware Port:") {
            let name = text::trimmed(port);
            in_wifi = text::text_is(name, "Wi-Fi") || text::text_is(name, "AirPort");
        } else if in_wifi {
            if let Some(dev) = text::strip_prefix(t, "Device:") {
                return Some(text::string_of(text::trimmed(dev)));
            }
        }
    }
    None
}

/// The interface to inspect when there is no default route to name one.
pub fn primary_from_ports(output: &str) -> (r: Result<String, PlatformError>)
    ensures
        result_view(r) == (match wifi_port(text::lines(output@), false) {
            Some(dev) => Ok(dev),
            None => Err(platform::ErrorView::Parse("no Wi-Fi hardware port"@)),
        }),
{
    match wifi_device(output) {
        Some(dev) => Ok(dev),
        None => Err(PlatformError::Parse("no Wi-Fi hardware port".to_string())),
    }
}

/// What stands before the first colon of a line.
pub open spec fn line_key(line: Seq<char>) -> Seq<char> {
    text::trim(text::pieces(text::trim(line), ':')[0])
}

/// The name of a tunnel interface.
pub open spec fn names_tunnel(w: Seq<char>) -> bool {
    text::starts_with(w, "utun"@) || text::starts_with(w, "tun"@) || text::starts_with(w, "tap"@)
}

/// The first tunnel interface that heads one of these lines.
pub open spec fn tunnel_iface(lines: Seq<Seq<char>>) -> Option<Seq<char>>
    decreases lines.len(),
{
    if lines.len() == 0 {
        None
    } else if names_tunnel(line_key(lines[0])) {
        Some(line_key(lines[0]))
    } else {
        tunnel_iface(lines.skip(1))
    }
}

fn first_piece<'a>(s: &'a [char], c: char) -> (r: &'a [char])
    ensures
        r@ == text::pieces(s@, c)[0],
{
    let i: usize = text::position(s, c);
    let r = slice_subrange(s, 0, i);
    assert(r@ == s@.take(i as int));
    assert(i == s@.len() ==> s@.take(i as int) == s@);
    r
}

/// The first active tunnel interface in `scutil --nwi`. With multiple
/// concurrent tunnels this reports only one; the common case is a single VPN.
pub fn detect_tunnel(nwi: &str) -> (r: Option<String>)
    ensures
        path::opt_text(r) == tunnel_iface(text::lines(nwi@)),
{
    let chars = text::chars_of(nwi);
    let lines = text::lines_of(chars.as_slice());
    let ghost all = text::views(lines@);
    let mut i: usize = 0;
    assert(all.skip(0) == all);
    while i < lines.len()
        invariant
            i <= lines@.len(),
            all == text::views(lines@),
            all == text::lines(nwi@),
            tunnel_iface(all) == tunnel_iface(all.skip(i as int)),
        decreases lines@.len() - i,
    {
        assert(all[i as int] == lines@[i as int]@);
        assert(all.skip(i as int).skip(1) == all.skip(i + 1));
        let w = text::trimmed(first_piece(text::trimmed(lines[i]), ':'));
        if text::has_prefix(w, "utun") || text::has_prefix(w, "tun") || text::has_prefix(w, "tap") {
            return Some(text::string_of(w));
        }
        i += 1;
    }
    None
}

// ---- link ----

/// `40 (5GHz, 80MHz)`: band and width among the parts in brackets.
pub open spec fn channel_parts(parts: Seq<Seq<char>>) -> (Option<Seq<char>>, Option<u32>)
    decreases parts.len(),
{
    if parts.len() == 0 {
        (None, None)
    } else {
        let (band, width) = channel_parts(parts.drop_last());
        let p = text::trim(parts.last());
        if text::ends_with(p, "GHz"@) {
            (Some(p), width)
        } else {
            match text::before_suffix(p, "MHz"@) {
                Some(w) => (band, number::u32_value(text::trim(w))),
                None => (band, width),
            }
        }
    }
}

/// The number that a text begins with, as a word.
pub open spec fn leading_u32(s: Seq<char>) -> Option<u32> {
    match text::first_word(s) {
        Some(w) => number::u32_value(w),
        None => None,
    }
}

/// The signed number that a text begins with, as a word.
pub open spec fn leading_i32(s: Seq<char>) -> Option<i32> {
    match text::first_word(s) {
        Some(w) => number::i32_value(w),
        None => None,
    }
}

/// Channel, band and width.
pub open spec fn channel_value(v: Seq<char>) -> (Option<u32>, Option<Seq<char>>, Option<u32>) {
    let (band, width) = match text::split_at_char(v, '(') {
        Some((_, r)) => channel_parts(text::pieces(text::trim_end_of(r, ')'), ',')),
        None => (None, None),
    };
    (leading_u32(v), band, width)
}

fn read_parts(parts: &Vec<&[char]>) -> (r: (Option<String>, Option<u32>))
    ensures
        (path::opt_text(r.0), r.1) == channel_parts(text::views(parts@)),
{
    let ghost all = text::views(parts@);
    let mut band: Option<String> = None;
    let mut width: Option<u32> = None;
    let mut i: usize = 0;
    while i < parts.len()
        invariant
            i <= parts@.len(),
            all == text::views(parts@),
            (path::opt_text(band), width) == channel_parts(all.take(i as int)),
        decreases parts@.len() - i,
    {
        assert(all.take(i + 1).drop_last() == all.take(i as int));
        assert(all[i as int] == parts@[i as int]@);
        let p = text::trimmed(parts[i]);
        i += 1;
        if text::strip_suffix(p, "GHz").is_some() {
            band = Some(text::string_of(p));
        } else if let Some(w) = text::strip_suffix(p, "MHz") {
            width = number::read_u32(text::trimmed(w));
        }
    }
    assert(all.take(i as int) == all);
    (band, width)
}

fn read_leading_u32(s: &[char]) -> (r: Option<u32>)
    ensures
        r == leading_u32(s@),
{
    match text::word_of(s) {
        Some(w) => number::read_u32(w),
        None => None,
    }
}

fn read_leading_i32(s: &[char]) -> (r: Option<i32>)
    ensures
        r == leading_i32(s@),
{
    match text::word_of(s) {
        Some(w) => number::read_i32(w),
        None => None,
    }
}

fn read_channel(v: &[char]) -> (r: (Option<u32>, Option<String>, Option<u32>))
    ensures
        (r.0, path::opt_text(r.1), r.2) == channel_value(v@),
{
    let num = read_leading_u32(v);
    match text::split_once_char(v, '(') {
        Some((_, rest)) => {
            let parts = text::split(text::trim_right_of(rest, ')'), ',');
            let (band, width) = read_parts(&parts);
            (num, band, width)
        },
        None => (num, None, None),
    }
}

/// `40 (5GHz, 80MHz)` -> (Some(40), Some("5GHz"), Some(80))
pub fn parse_channel(v: &str) -> (r: (Option<u32>, Option<String>, Option<u32>))
    ensures
        (r.0, path::opt_text(r.1), r.2) == channel_value(v@),
{
    let chars = text::chars_of(v);
    read_channel(chars.as_slice())
}

/// Signal and noise: the numbers that begin the first two parts between
/// slashes.
pub open spec fn signal_noise(v: Seq<char>) -> (Option<i32>, Option<i32>) {
    let ps = text::pieces(v, '/');
    (
        leading_i32(ps[0]),
        if ps.len() > 1 {
            leading_i32(ps[1])
        } else {
            None
        },
    )
}

fn read_signal_noise(v: &[char]) -> (r: (Option<i32>, Option<i32>))
    ensures
        r == signal_noise(v@),
{
    let ps = text::split(v, '/');
    assert(text::views(ps@).len() == ps@.len());
    assert(text::views(ps@)[0] == ps@[0]@);
    let sig = read_leading_i32(ps[0]);
    let noise = if ps.len() > 1 {
        assert(text::views(ps@)[1] == ps@[1]@);
        read_leading_i32(ps[1])
    } else {
        None
    };
    (sig, noise)
}

/// `-50 dBm / -88 dBm` -> (Some(-50), Some(-88))
pub fn parse_signal_noise(v: &str) -> (r: (Option<i32>, Option<i32>))
    ensures
        r == signal_noise(v@),
{
    let chars = text::chars_of(v);
    read_signal_noise(chars.as_slice())
}

/// What a `key: value` line of the current network adds to the link facts.
pub open spec fn airport_field(
    info: platform::LinkView,
    k: Seq<char>,
    v: Seq<char>,
) -> platform::LinkView {
    if k == "PHY Mode"@ {
        platform::LinkView { phy_mode: Some(v), ..info }
    } else if k == "Security"@ {
        platform::LinkView { security: Some(v), ..info }
    } else if k == "Transmit Rate"@ {
        platform::LinkView { tx_rate_mbps: number::u32_value(v), ..info }
    } else if k == "Channel"@ {
        let (channel, band, width_mhz) = channel_value(v);
        platform::LinkView { channel, band, width_mhz, is_wifi: true, ..info }
    } else if k == "Signal / Noise"@ {
        let (rssi_dbm, noise_dbm) = signal_noise(v);
        platform::LinkView { rssi_dbm, noise_dbm, is_wifi: true, ..info }
    } else if v.len() == 0 && k == "<redacted>"@ {
        platform::LinkView { is_wifi: true, ..info }
    } else if v.len() == 0 && k.len() > 0 {
        platform::LinkView { ssid: Some(k), is_wifi: true, ..info }
    } else {
        info
    }
}

/// What these lines add to the link facts. Only the section on the current
/// network counts; `in_current` says whether the lines start in it.
pub open spec fn airport_lines(
    lines: Seq<Seq<char>>,
    in_current: bool,
    info: platform::LinkView,
) -> platform::LinkView
    decreases lines.len(),
{
    if lines.len() == 0 {
        info
    } else {
        let t = text::trim(lines[0]);
        let rest = lines.skip(1);
        if t == "Current Network Information:"@ {
            airport_lines(rest, true, info)
        } else if t == "Other Local Wi-Fi Networks:"@ {
            info
        } else {
            match text::split_at_char(t, ':') {
                Some((k, v)) if in_current => airport_lines(
                    rest,
                    true,
                    airport_field(info, text::trim(k), text::trim(v)),
                ),
                _ => airport_lines(rest, in_current, info),
            }
        }
    }
}

fn read_field(info: &mut LinkInfo, k: &[char], v: &[char])
    ensures
        final(info)@ == airport_field(old(info)@, k@, v@),
{
    if text::text_is(k, "PHY Mode") {
        info.phy_mode = Some(text::string_of(v));
    } else if text::text_is(k, "Security") {
        info.security = Some(text::string_of(v));
    } else if text::text_is(k, "Transmit Rate") {
        info.tx_rate_mbps = number::read_u32(v);
    } else if text::text_is(k, "Channel") {
        let (ch, band, width) = read_channel(v);
        info.channel = ch;
        info.band = band;
        info.width_mhz = width;
        info.is_wifi = true;
    } else if text::text_is(k, "Signal / Noise") {
        let (s, n) = read_signal_noise(v);
        info.rssi_dbm = s;
        info.noise_dbm = n;
        info.is_wifi = true;
    } else if v.len() == 0 && text::text_is(k, "<redacted>") {
        info.is_wifi = true;
    } else if v.len() == 0 && k.len() > 0 {
        // The SSID is the block header key (`SSID:` with nothing after it).
        // macOS renders it as `<redacted>:` without Location permission.
        info.ssid = Some(text::string_of(k));
        info.is_wifi = true;
    }
}

/// Reads the current Wi-Fi link out of `system_profiler SPAirPortDataType`.
pub fn parse_airport(output: &str) -> (r: LinkInfo)
    ensures
        r@ == airport_lines(text::lines(output@), false, platform::no_link()),
{
    let chars = text::chars_of(output);
    let lines = text::lines_of(chars.as_slice());
    let ghost all = text::views(lines@);
    let mut info = LinkInfo::default();
    let mut in_current = false;
    let mut i: usize = 0;
    assert(all.skip(0) == all);
    while i < lines.len()
        invariant
            i <= lines@.len(),
            all == text::views(lines@),
            all == text::lines(output@),
            airport_lines(all, false, platform::no_link()) == airport_lines(
                all.skip(i as int),
                in_current,
                info@,
            ),
        decreases lines@.len() - i,
    {
        assert(all[i as int] == lines@[i as int]@);
        assert(all.skip(i as int).skip(1) == all.skip(i + 1));
        let t = text::trimmed(lines[i]);
        i += 1;
        if text::text_is(t, "Current Network Information:") {
            in_current = true;
        } else if text::text_is(t, "Other Local Wi-Fi Networks:") {
            return info;
        } else if in_current {
            if let Some((k, v)) = text::split_once_char(t, ':') {
                read_field(&mut info, text::trimmed(k), text::trimmed(v));
            }
        }
    }
    info
}

/// Nothing is read behind a line that heads the neighbouring networks.
proof fn lemma_heading_ends(
    lines: Seq<Seq<char>>,
    more: Seq<Seq<char>>,
    i: int,
    in_current: bool,
    info: platform::LinkView,
)
    requires
        0 <= i < lines.len(),
        text::trim(lines[i]) == "Other Local Wi-Fi Networks:"@,
    ensures
        airport_lines(lines + more, in_current, info) == airport_lines(lines, in_current, info),
    decreases lines.len(),
{
    reveal_strlit("Current Network Information:");
    reveal_strlit("Other Local Wi-Fi Networks:");
    let t = text::trim(lines[0]);
    let rest = lines.skip(1);
    assert((lines + more)[0] == lines[0]);
    assert((lines + more).skip(1) =~= rest + more);
    if t == "Current Network Information:"@ {
        assert(t.len() != "Other Local Wi-Fi Networks:"@.len());
        assert(rest[i - 1] == lines[i]);
        lemma_heading_ends(rest, more, i - 1, true, info);
    } else if t != "Other Local Wi-Fi Networks:"@ {
        assert(rest[i - 1] == lines[i]);
        match text::split_at_char(t, ':') {
            Some((k, v)) if in_current => {
                let read = airport_field(info, text::trim(k), text::trim(v));
                lemma_heading_ends(rest, more, i - 1, true, read);
            },
            _ => {
                lemma_heading_ends(rest, more, i - 1, in_current, info);
            },
        }
    }
}

/// What follows the heading of the neighbouring networks never changes what is
/// read: once some line of `shown` is that heading, any text behind `shown` is
/// left alone.
pub proof fn the_neighbouring_networks_are_left_alone(
    shown: Seq<char>,
    following: Seq<char>,
    heading: int,
)
    requires
        shown.len() > 0,
        shown.last() == '\n',
        0 <= heading < text::lines(shown).len(),
        text::trim(text::lines(shown)[heading]) == "Other Local Wi-Fi Networks:"@,
    ensures
        airport_lines(text::lines(shown + following), false, platform::no_link())
            == airport_lines(text::lines(shown), false, platform::no_link()),
{
    text::lemma_lines_behind(shown, following);
    lemma_heading_ends(
        text::lines(shown),
        text::lines(following),
        heading,
        false,
        platform::no_link(),
    );
}

/// A link that is not the Wi-Fi one, when that can be told without reading the
/// Wi-Fi card: `ports` is what lists the hardware ports, if it could be read.
///
/// `system_profiler SPAirPortDataType` always describes the Wi-Fi card,
/// regardless of which interface owns the default route. If the route isn't
/// the Wi-Fi device (e.g. wired Ethernet with Wi-Fi still idle), the link must
/// not be graded by the Wi-Fi signal.
pub fn other_link(ports: Result<String, PlatformError>, interface: &str) -> (r: Option<LinkInfo>)
    ensures
        ({
            let device = match ports {
                Ok(t) => wifi_port(text::lines(t@), false),
                Err(_) => None,
            };
            match r {
                Some(info) => device is Some && device->0 != interface@ && info@ == (
                platform::LinkView { interface: interface@, ..platform::no_link() }),
                None => device is None || device->0 == interface@,
            }
        }),
{
    match ports {
        Ok(t) => match wifi_device(t.as_str()) {
            Some(dev) => if text::str_eq(dev.as_str(), interface) {
                None
            } else {
                let mut info = LinkInfo::default();
                info.interface = interface.to_string();
                Some(info)
            },
            None => None,
        },
        Err(_) => None,
    }
}

/// The Wi-Fi link as `system_profiler` describes it, the fallback when
/// CoreWLAN yields nothing (rare / unusual setups).
pub fn link_from_profiler(output: &str, interface: &str) -> (r: LinkInfo)
    ensures
        r@ == (platform::LinkView {
            interface: interface@,
            ..airport_lines(text::lines(output@), false, platform::no_link())
        }),
{
    let mut info = parse_airport(output);
    info.interface = interface.to_string();
    info
}

// ---- addresses ----

/// An address token, without any `%zone` scope suffix (`fe80::1%utun4`).
pub open spec fn zoneless(tok: Seq<char>) -> Option<IpAddr> {
    addr::ip_value(text::pieces(tok, '%')[0])
}

/// The address that a text begins with.
pub open spec fn leading_addr(s: Seq<char>) -> Option<IpAddr> {
    match text::first_word(s) {
        Some(w) => zoneless(w),
        None => None,
    }
}

/// Parse an address token, dropping any `%zone` scope suffix (`fe80::1%utun4`).
pub fn parse_addr(tok: &[char]) -> (r: Option<IpAddr>)
    ensures
        r == zoneless(tok@),
{
    addr::parse_ip(first_piece(tok, '%'))
}

fn read_leading_addr(s: &[char]) -> (r: Option<IpAddr>)
    ensures
        r == leading_addr(s@),
{
    match text::word_of(s) {
        Some(w) => parse_addr(w),
        None => None,
    }
}

/// The local address of a tunnel in these lines: the first IPv4 one, else the
/// routable IPv6 one found first, which `fallback` holds if it came before.
pub open spec fn tunnel_addr(lines: Seq<Seq<char>>, fallback: Option<IpAddr>) -> Option<IpAddr>
    decreases lines.len(),
{
    if lines.len() == 0 {
        fallback
    } else {
        let t = text::trim(lines[0]);
        let rest = lines.skip(1);
        if let Some(after) = text::after_prefix(t, "inet "@) {
            match leading_addr(after) {
                Some(ip) => Some(ip),
                None => tunnel_addr(rest, fallback),
            }
        } else {
            match text::after_prefix(t, "inet6 "@) {
                Some(after) if fallback is None => match leading_addr(after) {
                    Some(ip) if !ip.link_local() => tunnel_addr(rest, Some(ip)),
                    _ => tunnel_addr(rest, fallback),
                },
                _ => tunnel_addr(rest, fallback),
            }
        }
    }
}

/// Pull the tunnel's local address out of `ifconfig <iface>`, preferring IPv4.
///
/// Falls back to a global IPv6 address for IPv6-only tunnels, skipping the
/// `fe80::` link-local that every interface carries (which says nothing about
/// the tunnel). Any `%zone` scope suffix is stripped before parsing.
///
/// ```text
/// utun4: flags=8051<UP,POINTOPOINT,RUNNING,MULTICAST> mtu 1400
///     inet 100.86.1.2 --> 100.86.1.2 netmask 0xffffffff
/// ```
pub fn parse_ifconfig_inet(output: &str) -> (r: Option<IpAddr>)
    ensures
        r == tunnel_addr(text::lines(output@), None),
{
    let chars = text::chars_of(output);
    let lines = text::lines_of(chars.as_slice());
    let ghost all = text::views(lines@);
    let mut fallback: Option<IpAddr> = None;
    let mut i: usize = 0;
    assert(all.skip(0) == all);
    while i < lines.len()
        invariant
            i <= lines@.len(),
            all == text::views(lines@),
            all == text::lines(output@),
            tunnel_addr(all, None) == tunnel_addr(all.skip(i as int), fallback),
        decreases lines@.len() - i,
    {
        assert(all[i as int] == lines@[i as int]@);
        assert(all.skip(i as int).skip(1) == all.skip(i + 1));
        let t = text::trimmed(lines[i]);
        i += 1;
        if let Some(rest) = text::strip_prefix(t, "inet ") {
            if let Some(ip) = read_leading_addr(rest) {
                return Some(ip); // IPv4 wins outright.
            }
        } else if fallback.is_none() {
            if let Some(rest) = text::strip_prefix(t, "inet6 ") {
                if let Some(ip) = read_leading_addr(rest) {
                    if !addr::is_link_local(ip) {
                        fallback = Some(ip);
                    }
                }
            }
        }
    }
    fallback
}

/// What addresses say.
#[verifier::ext_equal]
pub struct AddrState {
    pub v4: Option<(Ipv4Addr, u8)>,
    pub v6: Seq<Ipv6Addr>,
}

/// The mask of a prefix of `p` bits: that many set from the top.
pub open spec fn mask_of(p: nat) -> nat {
    (0x1_0000_0000 - power2::pow2((32 - p) as nat)) as nat
}

/// The number of bits that a contiguous mask sets; any other mask has none.
pub open spec fn prefix_of(mask: nat) -> Option<u8> {
    if exists|p: nat| p <= 32 && mask == #[trigger] mask_of(p) {
        Some((choose|p: nat| p <= 32 && mask == #[trigger] mask_of(p)) as u8)
    } else {
        None
    }
}

/// The prefix length of a mask in hexadecimal or in dotted form.
pub open spec fn netmask_value(tok: Seq<char>) -> Option<u8> {
    match text::after_prefix(tok, "0x"@) {
        Some(hex) => match number::unsigned_value(hex, 16, u32::MAX as nat) {
            Some(mask) => prefix_of(mask),
            None => None,
        },
        None => match addr::v4_value(tok) {
            Some(mask) => prefix_of(mask.bits()),
            None => None,
        },
    }
}

/// Different prefixes have different masks.
proof fn lemma_masks_differ(p: nat, q: nat)
    requires
        p <= 32,
        q <= 32,
        mask_of(p) == mask_of(q),
    ensures
        p == q,
{
    power2::lemma2_to64();
    if p < q {
        power2::lemma_pow2_strictly_increases((32 - q) as nat, (32 - p) as nat);
        lemma_pow2_bound((32 - p) as nat);
    } else if q < p {
        power2::lemma_pow2_strictly_increases((32 - p) as nat, (32 - q) as nat);
        lemma_pow2_bound((32 - q) as nat);
    }
}

proof fn lemma_pow2_bound(e: nat)
    requires
        e <= 32,
    ensures
        power2::pow2(e) <= 0x1_0000_0000,
{
    power2::lemma2_to64();
    if e < 32 {
        power2::lemma_pow2_strictly_increases(e, 32);
    }
}

/// The prefix length of a mask is the number of bits that it sets.
pub proof fn a_mask_gives_back_its_prefix(p: nat)
    requires
        p <= 32,
    ensures
        prefix_of(mask_of(p)) == Some(p as u8),
{
    let q = choose|q: nat| q <= 32 && mask_of(p) == #[trigger] mask_of(q);
    lemma_masks_differ(p, q);
}

fn prefix_length(mask: u32) -> (r: Option<u8>)
    ensures
        r == prefix_of(mask as nat),
{
    let mut size: u64 = 0x1_0000_0000;
    let mut p: u8 = 0;
    proof {
        power2::lemma2_to64();
    }
    loop
        invariant
            p <= 32,
            size == power2::pow2((32 - p) as nat),
            size <= 0x1_0000_0000,
            forall|q: nat| q < p ==> mask != #[trigger] mask_of(q),
        decreases 32 - p,
    {
        if mask as u64 == 0x1_0000_0000 - size {
            proof {
                assert(mask == mask_of(p as nat));
                a_mask_gives_back_its_prefix(p as nat);
            }
            return Some(p);
        }
        assert(mask != mask_of(p as nat));
        if p == 32 {
            return None;
        }
        proof {
            power2::lemma_pow2_unfold((32 - p) as nat);
        }
        size = size / 2;
        p += 1;
    }
}

fn read_netmask(tok: &[char]) -> (r: Option<u8>)
    ensures
        r == netmask_value(tok@),
{
    match text::strip_prefix(tok, "0x") {
        Some(hex) => match number::read_unsigned(hex, 16, u32::MAX) {
            Some(mask) => prefix_length(mask),
            None => None,
        },
        None => match addr::parse_v4(tok) {
            Some(mask) => prefix_length(mask.to_bits()),
            None => None,
        },
    }
}

/// `0xffffff00` (or the dotted form) to a prefix length.
///
/// The mask is rejected unless its set bits are contiguous from the top: a
/// non-contiguous mask has no prefix length, and inventing one would silently
/// misjudge which addresses share the subnet.
pub fn parse_netmask_prefix(tok: &str) -> (r: Option<u8>)
    ensures
        r == netmask_value(tok@),
{
    let chars = text::chars_of(tok);
    read_netmask(chars.as_slice())
}

/// The prefix length after the word `netmask`. No readable netmask means no
/// claim about the subnet, so 32: only the host itself.
pub open spec fn declared_prefix(toks: Seq<Seq<char>>) -> u8 {
    let i = text::index_among(toks, "netmask"@);
    if i + 1 < toks.len() {
        match netmask_value(toks[i + 1]) {
            Some(p) => p,
            None => 32,
        }
    } else {
        32
    }
}

/// What one more line says of the addresses. The first IPv4 address counts:
/// macOS lists the primary one first, and a manually-added alias should not
/// displace it. The IPv6 link-local every interface carries does not.
pub open spec fn addr_step(st: AddrState, line: Seq<char>) -> AddrState {
    let t = text::trim(line);
    if let Some(rest) = text::after_prefix(t, "inet "@) {
        let toks = text::words(rest);
        let first = if toks.len() > 0 {
            addr::v4_value(toks[0])
        } else {
            None
        };
        match first {
            Some(ip) if st.v4 is None => AddrState { v4: Some((ip, declared_prefix(toks))), ..st },
            _ => st,
        }
    } else {
        match text::after_prefix(t, "inet6 "@) {
            Some(rest) => match leading_addr(rest) {
                Some(IpAddr::V6(ip)) if !ip.link_local() => AddrState { v6: st.v6.push(ip), ..st },
                _ => st,
            },
            None => st,
        }
    }
}

/// What these lines say of the addresses.
pub open spec fn addr_lines(lines: Seq<Seq<char>>) -> AddrState
    decreases lines.len(),
{
    if lines.len() == 0 {
        AddrState { v4: None, v6: seq![] }
    } else {
        addr_step(addr_lines(lines.drop_last()), lines.last())
    }
}

fn read_declared_prefix(toks: &Vec<&[char]>) -> (r: u8)
    ensures
        r == declared_prefix(text::views(toks@)),
{
    let i: usize = text::position_among(toks, "netmask");
    assert(text::views(toks@).len() == toks@.len());
    let n: usize = toks.len();
    if i < n && i + 1 < n {
        assert(text::views(toks@)[i + 1] == toks@[i + 1]@);
        match read_netmask(toks[i + 1]) {
            Some(p) => p,
            None => 32,
        }
    } else {
        32
    }
}

fn read_addr_line(info: &mut AddrInfo, line: &[char])
    ensures
        ({
            let st = addr_step(AddrState { v4: old(info).v4, v6: old(info).v6@ }, line@);
            final(info).v4 == st.v4 && final(info).v6@ == st.v6
        }),
{
    let t = text::trimmed(line);
    if let Some(rest) = text::strip_prefix(t, "inet ") {
        let toks = text::words_of(rest);
        assert(text::views(toks@).len() == toks@.len());
        if toks.len() > 0 && info.v4.is_none() {
            assert(text::views(toks@)[0] == toks@[0]@);
            if let Some(ip) = addr::parse_v4(toks[0]) {
                info.v4 = Some((ip, read_declared_prefix(&toks)));
            }
        }
    } else if let Some(rest) = text::strip_prefix(t, "inet6 ") {
        if let Some(ip) = read_leading_addr(rest) {
            if !addr::is_link_local(ip) {
                if let IpAddr::V6(v6) = ip {
                    info.v6.push(v6);
                }
            }
        }
    }
}

/// Pull the configured addresses out of `ifconfig <iface>`.
///
/// ```text
/// en0: flags=8863<UP,BROADCAST,SMART,RUNNING,SIMPLEX,MULTICAST> mtu 1500
///     inet6 fe80::1859:1d30:acf0:1c1%en0 prefixlen 64 secured scopeid 0xb
///     inet 192.168.0.15 netmask 0xffffff00 broadcast 192.168.0.255
/// ```
///
/// The IPv6 link-local every interface carries is dropped: it is present
/// whether or not the network works, so counting it would make an interface
/// that got nothing look addressed.
pub fn parse_ifconfig_addrs(output: &str) -> (r: AddrInfo)
    ensures
        (AddrState { v4: r.v4, v6: r.v6@ }) == addr_lines(text::lines(output@)),
{
    let chars = text::chars_of(output);
    let lines = text::lines_of(chars.as_slice());
    let ghost all = text::views(lines@);
    let mut info = AddrInfo::default();
    let mut i: usize = 0;
    while i < lines.len()
        invariant
            i <= lines@.len(),
            all == text::views(lines@),
            addr_lines(all.take(i as int)) == (AddrState { v4: info.v4, v6: info.v6@ }),
        decreases lines@.len() - i,
    {
        assert(all.take(i + 1).drop_last() == all.take(i as int));
        assert(all[i as int] == lines@[i as int]@);
        read_addr_line(&mut info, lines[i]);
        i += 1;
    }
    assert(all.take(i as int) == all);
    info
}

/// No link-local address is ever among the IPv6 addresses that were read.
pub proof fn link_local_is_never_listed(lines: Seq<Seq<char>>, i: int)
    requires
        0 <= i < addr_lines(lines).v6.len(),
    ensures
        !addr_lines(lines).v6[i].link_local(),
    decreases lines.len(),
{
    if lines.len() > 0 && i < addr_lines(lines.drop_last()).v6.len() {
        link_local_is_never_listed(lines.drop_last(), i);
    }
}

// ---- tunnels ----

/// The vendor that a tunnel address gives away.
pub open spec fn vendor_of_ip(ip: IpAddr) -> Option<Seq<char>> {
    if ip.shared_space() {
        Some("Tailscale"@)
    } else {
        None
    }
}

/// Best-effort vendor guess from a tunnel's local address. Tailscale hands out
/// addresses from the 100.64.0.0/10 CGNAT block, which is a strong signal on a
/// tunnel interface. Anything else stays unlabelled rather than guessing wrong.
pub fn vendor_from_ip(ip: IpAddr) -> (r: Option<&'static str>)
    ensures
        label_view(r) == vendor_of_ip(ip),
{
    if ip.is_shared_space() {
        Some("Tailscale")
    } else {
        None
    }
}

/// An optional label as optional text.
pub open spec fn label_view(o: Option<&'static str>) -> Option<Seq<char>> {
    match o {
        Some(s) => Some(s@),
        None => None,
    }
}

/// The vendor whose background daemon is in a process list in lower case. More
/// specific vendors come before the generic engines they may be built on.
pub open spec fn vendor_in(low: Seq<char>) -> Option<Seq<char>> {
    if text::contains(low, "tailscaled"@) {
        Some("Tailscale"@)
    } else if text::contains(low, "warp-svc"@) {
        Some("Cloudflare WARP"@)
    } else if text::contains(low, "cloudflarewarp"@) {
        Some("Cloudflare WARP"@)
    } else if text::contains(low, "nordvpn"@) {
        Some("NordVPN"@)
    } else if text::contains(low, "mullvad"@) {
        Some("Mullvad"@)
    } else if text::contains(low, "protonvpn"@) {
        Some("Proton VPN"@)
    } else if text::contains(low, "expressvpn"@) {
        Some("ExpressVPN"@)
    } else if text::contains(low, "vpnagentd"@) {
        Some("Cisco AnyConnect"@)
    } else if text::contains(low, "acwebsecagent"@) {
        Some("Cisco AnyConnect"@)
    } else if text::contains(low, "pangps"@) {
        Some("GlobalProtect"@)
    } else if text::contains(low, "openconnect"@) {
        Some("OpenConnect"@)
    } else if text::contains(low, "wireguard"@) {
        Some("WireGuard"@)
    } else if text::contains(low, "openvpn"@) {
        Some("OpenVPN"@)
    } else {
        None
    }
}

/// [`vendor_from_processes`] on a process list that is in lower case already.
pub fn vendor_from_lowered(low: &str) -> (r: Option<&'static str>)
    ensures
        label_view(r) == vendor_in(low@),
{
    let low = text::chars_of(low);
    let low = low.as_slice();
    if text::has(low, "tailscaled") {
        Some("Tailscale")
    } else if text::has(low, "warp-svc") {
        Some("Cloudflare WARP")
    } else if text::has(low, "cloudflarewarp") {
        Some("Cloudflare WARP")
    } else if text::has(low, "nordvpn") {
        Some("NordVPN")
    } else if text::has(low, "mullvad") {
        Some("Mullvad")
    } else if text::has(low, "protonvpn") {
        Some("Proton VPN")
    } else if text::has(low, "expressvpn") {
        Some("ExpressVPN")
    } else if text::has(low, "vpnagentd") {
        Some("Cisco AnyConnect")
    } else if text::has(low, "acwebsecagent") {
        Some("Cisco AnyConnect")
    } else if text::has(low, "pangps") {
        Some("GlobalProtect")
    } else if text::has(low, "openconnect") {
        Some("OpenConnect")
    } else if text::has(low, "wireguard") {
        Some("WireGuard")
    } else if text::has(low, "openvpn") {
        Some("OpenVPN")
    } else {
        None
    }
}

/// Map a running-process list (`ps -axo comm=`) to a known VPN vendor by its
/// background daemon. More specific vendors are listed before the generic
/// `wireguard`/`openvpn` engines they may be built on, so the first match wins
/// the right label (e.g. Mullvad-over-WireGuard reports as `Mullvad`).
pub fn vendor_from_processes(ps: &str) -> (r: Option<&'static str>)
    ensures
        label_view(r) == vendor_in(lowercase(ps@)),
{
    let low = lowered(ps);
    vendor_from_lowered(low.as_str())
}

/// A tunnel, from its interface and what two lookups came to: its addresses,
/// and the running processes in lower case.
pub open spec fn vpn_of(
    iface: Seq<char>,
    ifconfig: Option<Seq<char>>,
    low_ps: Option<Seq<char>>,
) -> platform::VpnView {
    let local_ip = match ifconfig {
        Some(t) => tunnel_addr(text::lines(t), None),
        None => None,
    };
    let by_process = match low_ps {
        Some(t) => vendor_in(t),
        None => None,
    };
    let by_address = match local_ip {
        Some(ip) => vendor_of_ip(ip),
        None => None,
    };
    platform::VpnView {
        active: true,
        interface: Some(iface),
        local_ip,
        vendor: if by_process is Some {
            by_process
        } else {
            by_address
        },
    }
}

/// Describe the tunnel on `iface`. A lookup that failed is `None`.
///
/// A running VPN client's daemon name is the most reliable sudo-free signal of
/// the vendor — the tunnel interface is an opaque `utunN` for nearly every one.
/// Falls back to the tunnel address range.
pub fn describe_vpn(iface: String, ifconfig: Option<String>, ps: Option<String>) -> (r: VpnInfo)
    ensures
        r@ == vpn_of(
            iface@,
            path::opt_text(ifconfig),
            match ps {
                Some(t) => Some(lowercase(t@)),
                None => None,
            },
        ),
{
    let local_ip = match ifconfig {
        Some(t) => parse_ifconfig_inet(t.as_str()),
        None => None,
    };
    let by_process = match ps {
        Some(t) => vendor_from_processes(t.as_str()),
        None => None,
    };
    let label = match by_process {
        Some(v) => Some(v),
        None => match local_ip {
            Some(ip) => vendor_from_ip(ip),
            None => None,
        },
    };
    let vendor = match label {
        Some(v) => Some(v.to_string()),
        None => None,
    };
    VpnInfo { active: true, interface: Some(iface), local_ip, vendor }
}

// ---- resolvers ----

/// A line that makes a `scutil --dns` block answer for a particular domain
/// only.
pub open spec fn scoped(line: Seq<char>) -> bool {
    let t = text::trim(line);
    ||| text::starts_with(t, "domain "@)
    ||| text::starts_with(t, "search domain["@)
    ||| (text::starts_with(t, "flags "@) || text::starts_with(t, "flags:"@)) && text::contains(
        t,
        "Scoped"@,
    )
}

/// Some of these lines is scoped.
pub open spec fn any_scoped(lines: Seq<Seq<char>>) -> bool {
    exists|i: int| 0 <= i < lines.len() && scoped(#[trigger] lines[i])
}

/// The nameserver that a line declares.
pub open spec fn declared_server(line: Seq<char>) -> Option<IpAddr> {
    match text::split_at_char(text::trim(line), ':') {
        Some((key, value)) if text::starts_with(text::trim(key), "nameserver["@) => addr::ip_value(
            text::trim(value),
        ),
        _ => None,
    }
}

/// `ns`, and the nameservers that these lines declare and that are not in it
/// yet.
pub open spec fn add_servers(ns: Seq<IpAddr>, lines: Seq<Seq<char>>) -> Seq<IpAddr>
    decreases lines.len(),
{
    if lines.len() == 0 {
        ns
    } else {
        let before = add_servers(ns, lines.drop_last());
        match declared_server(lines.last()) {
            Some(ip) if !before.contains(ip) => before.push(ip),
            _ => before,
        }
    }
}

/// The nameservers of the blocks that are not scoped, each once, in the order
/// in which they come.
pub open spec fn servers(blocks: Seq<Seq<char>>) -> Seq<IpAddr>
    decreases blocks.len(),
{
    if blocks.len() == 0 {
        seq![]
    } else {
        let before = servers(blocks.drop_last());
        let lines = text::lines(blocks.last());
        if any_scoped(lines) {
            before
        } else {
            add_servers(before, lines)
        }
    }
}

/// The default nameservers in the output of `scutil --dns`.
pub open spec fn default_servers(s: Seq<char>) -> Seq<IpAddr> {
    servers(text::parts(s, "resolver #"@).skip(1))
}

fn is_scoped_line(line: &[char]) -> (r: bool)
    ensures
        r == scoped(line@),
{
    let t = text::trimmed(line);
    text::has_prefix(t, "domain ") || text::has_prefix(t, "search domain[") || ((text::has_prefix(
        t,
        "flags ",
    ) || text::has_prefix(t, "flags:")) && text::has(t, "Scoped"))
}

/// Whether a `scutil --dns` block only answers for a particular domain.
pub fn is_scoped(line: &str) -> (r: bool)
    ensures
        r == scoped(line@),
{
    let chars = text::chars_of(line);
    is_scoped_line(chars.as_slice())
}

fn has_scoped(lines: &Vec<&[char]>) -> (r: bool)
    ensures
        r == any_scoped(text::views(lines@)),
{
    let ghost all = text::views(lines@);
    let mut i: usize = 0;
    while i < lines.len()
        invariant
            i <= lines@.len(),
            all == text::views(lines@),
            forall|j: int| 0 <= j < i ==> !scoped(#[trigger] all[j]),
        decreases lines@.len() - i,
    {
        assert(all[i as int] == lines@[i as int]@);
        if is_scoped_line(lines[i]) {
            return true;
        }
        i += 1;
    }
    false
}

fn read_server(line: &[char]) -> (r: Option<IpAddr>)
    ensures
        r == declared_server(line@),
{
    match text::split_once_char(text::trimmed(line), ':') {
        Some((key, value)) => if text::has_prefix(text::trimmed(key), "nameserver[") {
            addr::parse_ip(text::trimmed(value))
        } else {
            None
        },
        None => None,
    }
}

fn listed(ns: &Vec<IpAddr>, ip: IpAddr) -> (r: bool)
    ensures
        r == ns@.contains(ip),
{
    let mut i: usize = 0;
    while i < ns.len()
        invariant
            i <= ns@.len(),
            forall|j: int| 0 <= j < i ==> ns@[j] != ip,
        decreases ns@.len() - i,
    {
        if ns[i] == ip {
            return true;
        }
        i += 1;
    }
    false
}

fn read_servers(ns: &mut Vec<IpAddr>, lines: &Vec<&[char]>)
    ensures
        final(ns)@ == add_servers(old(ns)@, text::views(lines@)),
{
    let ghost all = text::views(lines@);
    let ghost start = ns@;
    let mut i: usize = 0;
    while i < lines.len()
        invariant
            i <= lines@.len(),
            all == text::views(lines@),
            ns@ == add_servers(start, all.take(i as int)),
        decreases lines@.len() - i,
    {
        assert(all.take(i + 1).drop_last() == all.take(i as int));
        assert(all[i as int] == lines@[i as int]@);
        if let Some(ip) = read_server(lines[i]) {
            if !listed(ns, ip) {
                ns.push(ip);
            }
        }
        i += 1;
    }
    assert(all.take(i as int) == all);
}

/// Pull the *default* resolvers out of `scutil --dns`.
///
/// The output is a series of `resolver #N` blocks, and only the unscoped ones
/// answer arbitrary names. A VPN's split-DNS resolver or a per-search-domain
/// entry carries its own `nameserver[0]` alongside a `domain` or `flags:
/// Scoped` line, and answers only for names beneath that domain — never for
/// `cloudflare.com`. Folding those in would let the DNS hop confidently name a
/// resolver the bench never queried, which is worse than the vague "system
/// resolver" string it stands in for.
pub fn parse_resolvers(output: &str) -> (r: ResolverInfo)
    ensures
        r.nameservers@ == default_servers(output@),
{
    let chars = text::chars_of(output);
    proof {
        reveal_strlit("resolver #");
    }
    let blocks = text::split_str(chars.as_slice(), "resolver #");
    let ghost all = text::views(blocks@).skip(1);
    let mut ns: Vec<IpAddr> = Vec::new();
    let mut i: usize = 1;
    assert(all.take(0) == Seq::<Seq<char>>::empty());
    while i < blocks.len()
        invariant
            blocks@.len() >= 1,
            1 <= i <= blocks@.len(),
            all == text::views(blocks@).skip(1),
            ns@ == servers(all.take(i - 1)),
        decreases blocks@.len() - i,
    {
        assert(all.take(i as int).drop_last() == all.take(i - 1));
        assert(all[i - 1] == blocks@[i as int]@);
        let lines = text::lines_of(blocks[i]);
        if !has_scoped(&lines) {
            read_servers(&mut ns, &lines);
        }
        i += 1;
    }
    assert(all.take(i - 1) == all);
    ResolverInfo { nameservers: ns }
}

proof fn lemma_added_once(ns: Seq<IpAddr>, lines: Seq<Seq<char>>)
    requires
        ns.no_duplicates(),
    ensures
        add_servers(ns, lines).no_duplicates(),
    decreases lines.len(),
{
    if lines.len() > 0 {
        lemma_added_once(ns, lines.drop_last());
    }
}

/// No nameserver is listed twice.
pub proof fn nameservers_are_listed_once(blocks: Seq<Seq<char>>)
    ensures
        servers(blocks).no_duplicates(),
    decreases blocks.len(),
{
    if blocks.len() > 0 {
        nameservers_are_listed_once(blocks.drop_last());
        lemma_added_once(servers(blocks.drop_last()), text::lines(blocks.last()));
    }
}

// ---- what the readings promise ----

/// A tool that failed silently found nothing only where it said so in one of two
/// ways; any other failure is blindness, and carries the tool's name.
pub proof fn only_a_known_complaint_is_an_outage(cmd: Seq<char>, stderr: Seq<char>, low: Seq<char>)
    ensures
        failure(cmd, stderr, low) is NoNetwork <==> (text::contains(low, "not in table"@)
            || text::contains(low, "no such process"@)),
        failure(cmd, stderr, low) is NoNetwork || (match failure(cmd, stderr, low) {
            platform::ErrorView::Command(said) => text::starts_with(said, cmd + ": "@),
            _ => false,
        }),
{
    let said = cmd + ": "@ + complaint(cmd, stderr);
    assert(said.take((cmd + ": "@).len() as int) =~= cmd + ": "@);
}

/// A complaint is told without the name that the tool put in front of it, and a
/// complaint without that name is told whole.
pub proof fn a_tool_is_not_named_twice(cmd: Seq<char>, stderr: Seq<char>, said: Seq<char>)
    requires
        first_line(text::lines(stderr)) == Some(cmd + ": "@ + said),
        text::trim(said) == said,
    ensures
        complaint(cmd, stderr) == said,
{
    let detail = cmd + ": "@ + said;
    assert(detail.take((cmd + ": "@).len() as int) =~= cmd + ": "@);
    assert(detail.skip((cmd + ": "@).len() as int) =~= said);
}

/// A gateway reads back from its text, with the zone that a percent sign sets
/// apart and without one.
pub proof fn a_gateway_reads_back(ip: IpAddr, zone: Seq<char>)
    ensures
        gateway_zone(addr::ip_text(ip)) == (Some(ip), None::<Seq<char>>),
        gateway_zone(addr::ip_text(ip) + seq!['%'] + zone) == (Some(ip), Some(zone)),
        zoneless(addr::ip_text(ip)) == Some(ip),
        zoneless(addr::ip_text(ip) + seq!['%'] + zone) == Some(ip),
{
    let s = addr::ip_text(ip);
    addr::an_address_is_spelt_in_digits_points_and_colons(ip);
    addr::an_address_reads_back(ip);
    assert forall|j: int| 0 <= j < s.len() implies s[j] != '%' by {
        assert(addr::in_address(s[j]));
    }
    text::lemma_index_of(s, '%', s.len() as int);
    text::lemma_one_piece(s, '%');
    let t = s + seq!['%'] + zone;
    assert forall|j: int| 0 <= j < s.len() implies t[j] != '%' by {
        assert(t[j] == s[j]);
    }
    text::lemma_index_of(t, '%', s.len() as int);
    assert(t.take(s.len() as int) =~= s);
    assert(t.skip(s.len() as int + 1) =~= zone);
}

proof fn lemma_opens_with(s: Seq<char>, p: Seq<char>, rest: Seq<char>)
    ensures
        s == p + rest ==> text::after_prefix(s, p) == Some(rest),
        p.len() > 0 && text::starts_with(s, p) ==> s.len() > 0 && s[0] == p[0],
{
    if s == p + rest {
        assert(s.take(p.len() as int) =~= p);
        assert(s.skip(p.len() as int) =~= rest);
    }
    if p.len() > 0 && text::starts_with(s, p) {
        assert(s.take(p.len() as int)[0] == s[0]);
    }
}

/// What one line changes of a route.
proof fn lemma_route_step(st: RouteState, line: Seq<char>, rest: Seq<char>)
    ensures
        ({
            let after = route_step(st, line).info;
            let t = text::trim(line);
            &&& t == "gateway:"@ + rest ==> after.gateway == gateway_zone(text::trim(rest)).0
                && after.gateway_zone == gateway_zone(text::trim(rest)).1 && after.mtu
                == st.info.mtu
            &&& !text::starts_with(t, "gateway:"@) ==> after.gateway == st.info.gateway
                && after.gateway_zone == st.info.gateway_zone
            &&& t == "interface:"@ + rest ==> after.interface == text::trim(rest) && after.mtu
                == st.info.mtu
            &&& !text::starts_with(t, "interface:"@) ==> after.interface == st.info.interface
            &&& after.tunnel_active == st.info.tunnel_active && after.tunnel_unreadable
                == st.info.tunnel_unreadable && after.tunnel_iface == st.info.tunnel_iface
        }),
{
    let t = text::trim(line);
    lemma_opens_with(t, "gateway:"@, rest);
    lemma_opens_with(t, "interface:"@, rest);
    assert("gateway:"@.len() > 0 && "gateway:"@[0] == 'g') by {
        reveal_strlit("gateway:");
    }
    assert("interface:"@.len() > 0 && "interface:"@[0] == 'i') by {
        reveal_strlit("interface:");
    }
}

proof fn lemma_no_tunnel_is_read(lines: Seq<Seq<char>>)
    ensures
        !route_lines(lines).info.tunnel_active,
        !route_lines(lines).info.tunnel_unreadable,
        route_lines(lines).info.tunnel_iface is None,
    decreases lines.len(),
{
    if lines.len() > 0 {
        lemma_no_tunnel_is_read(lines.drop_last());
        lemma_route_step(route_lines(lines.drop_last()), lines.last(), lines.last());
    }
}

/// The line that names the gateway sets the gateway and its zone, the line that
/// names the interface sets the interface, and no other line touches either.
/// Neither touches the packet size, and no line says anything of a tunnel.
pub proof fn a_route_is_read_line_by_line(lines: Seq<Seq<char>>, line: Seq<char>, rest: Seq<char>)
    ensures
        ({
            let before = route_lines(lines).info;
            let after = route_lines(lines.push(line)).info;
            let t = text::trim(line);
            &&& t == "gateway:"@ + rest ==> after.gateway == gateway_zone(text::trim(rest)).0
                && after.gateway_zone == gateway_zone(text::trim(rest)).1 && after.mtu == before.mtu
            &&& !text::starts_with(t, "gateway:"@) ==> after.gateway == before.gateway
                && after.gateway_zone == before.gateway_zone
            &&& t == "interface:"@ + rest ==> after.interface == text::trim(rest) && after.mtu
                == before.mtu
            &&& !text::starts_with(t, "interface:"@) ==> after.interface == before.interface
            &&& !after.tunnel_active && !after.tunnel_unreadable && after.tunnel_iface is None
        }),
{
    let all = lines.push(line);
    assert(all.drop_last() =~= lines);
    assert(all.last() == line);
    lemma_route_step(route_lines(lines), line, rest);
    lemma_no_tunnel_is_read(all);
    assert(route_lines(all) == route_step(route_lines(lines), line));
}

/// Without an interface there is no default route, and with one there is.
pub proof fn a_route_takes_an_interface(s: Seq<char>)
    ensures
        route_value(s) is Err <==> route_lines(text::lines(s)).info.interface.len() == 0,
        route_value(s) matches Err(e) ==> e is NoNetwork,
        route_value(s) matches Ok(info) ==> info == route_lines(text::lines(s)).info,
{
}

/// The packet size stands in the row under the statistics header, in the column
/// that the header calls `mtu`.
pub proof fn the_packet_size_stands_in_its_column(
    lines: Seq<Seq<char>>,
    header: Seq<char>,
    row: Seq<char>,
    i: int,
)
    requires
        text::starts_with(text::trim(header), "recvpipe"@),
        !text::starts_with(text::trim(row), "gateway:"@),
        !text::starts_with(text::trim(row), "interface:"@),
        !text::starts_with(text::trim(row), "recvpipe"@),
        text::words(text::trim(row)).len() == text::words(text::trim(header)).len(),
        0 <= i < text::words(text::trim(header)).len(),
        text::words(text::trim(header))[i] == "mtu"@,
        forall|j: int| 0 <= j < i ==> #[trigger] text::words(text::trim(header))[j] != "mtu"@,
    ensures
        route_lines(lines.push(header).push(row)).info.mtu == number::u32_value(
            text::words(text::trim(row))[i],
        ),
{
    let first = lines.push(header);
    let all = first.push(row);
    let t = text::trim(header);
    assert(first.drop_last() =~= lines);
    assert(all.drop_last() =~= first);
    reveal_strlit("gateway:");
    reveal_strlit("interface:");
    reveal_strlit("recvpipe");
    assert(t.take("recvpipe"@.len() as int)[0] == 'r');
    assert(t[0] == 'r');
    assert(!text::starts_with(t, "gateway:"@)) by {
        if text::starts_with(t, "gateway:"@) {
            assert(t.take("gateway:"@.len() as int)[0] == 'g');
        }
    }
    assert(!text::starts_with(t, "interface:"@)) by {
        if text::starts_with(t, "interface:"@) {
            assert(t.take("interface:"@.len() as int)[0] == 'i');
        }
    }
    text::lemma_index_among(text::words(t), "mtu"@, i);
    assert(route_lines(first) == route_step(route_lines(lines), header));
    assert(route_lines(first).header == Some(text::words(t)));
    assert(route_lines(all) == route_step(route_lines(first), row));
}

/// A line that heads a tunnel interface: what stands before its first colon
/// begins like the name of one.
pub open spec fn heads_tunnel(line: Seq<char>) -> bool {
    let w = text::trim(text::pieces(text::trim(line), ':')[0]);
    ||| text::starts_with(w, "utun"@)
    ||| text::starts_with(w, "tun"@)
    ||| text::starts_with(w, "tap"@)
}

/// The tunnel that is found heads the first line that heads any, and none is
/// found only where no line heads one.
pub proof fn the_first_tunnel_is_found(lines: Seq<Seq<char>>)
    ensures
        match tunnel_iface(lines) {
            Some(w) => exists|i: int|
                0 <= i < lines.len() && #[trigger] heads_tunnel(lines[i]) && w == line_key(lines[i])
                    && forall|j: int| 0 <= j < i ==> !heads_tunnel(#[trigger] lines[j]),
            None => forall|j: int| 0 <= j < lines.len() ==> !heads_tunnel(#[trigger] lines[j]),
        },
    decreases lines.len(),
{
    if lines.len() > 0 {
        let rest = lines.skip(1);
        if heads_tunnel(lines[0]) {
            assert(tunnel_iface(lines) == Some(line_key(lines[0])));
        } else {
            the_first_tunnel_is_found(rest);
            match tunnel_iface(rest) {
                Some(w) => {
                    let k = choose|i: int|
                        0 <= i < rest.len() && #[trigger] heads_tunnel(rest[i]) && w == line_key(
                            rest[i],
                        ) && forall|j: int| 0 <= j < i ==> !heads_tunnel(#[trigger] rest[j]);
                    assert(rest[k] == lines[k + 1]);
                    assert forall|j: int| 0 <= j < k + 1 implies !heads_tunnel(
                        #[trigger] lines[j],
                    ) by {
                        if j > 0 {
                            assert(rest[j - 1] == lines[j]);
                        }
                    }
                    assert(heads_tunnel(lines[k + 1]));
                },
                None => {
                    assert forall|j: int| 0 <= j < lines.len() implies !heads_tunnel(
                        #[trigger] lines[j],
                    ) by {
                        if j > 0 {
                            assert(rest[j - 1] == lines[j]);
                        }
                    }
                },
            }
        }
    }
}

/// A look for tunnels that failed is marked as such and claims no tunnel; one
/// that worked finds a tunnel exactly where some line heads one, and is not
/// marked. Nothing else of the route changes.
pub proof fn a_failed_look_for_tunnels_is_no_answer(
    info: platform::RouteView,
    nwi: Result<Seq<char>, platform::ErrorView>,
)
    ensures
        ({
            let after = with_tunnel(info, nwi);
            &&& after.interface == info.interface && after.gateway == info.gateway
                && after.gateway_zone == info.gateway_zone && after.mtu == info.mtu
            &&& after.tunnel_unreadable <==> (info.tunnel_unreadable || nwi is Err)
            &&& match nwi {
                Err(_) => after.tunnel_active == info.tunnel_active && after.tunnel_iface
                    == info.tunnel_iface,
                Ok(t) => {
                    &&& after.tunnel_active <==> (info.tunnel_active || exists|i: int|
                        0 <= i < text::lines(t).len() && heads_tunnel(#[trigger] text::lines(t)[i]))
                    &&& !info.tunnel_active && after.tunnel_active ==> after.tunnel_iface is Some
                },
            }
        }),
{
    if let Ok(t) = nwi {
        the_first_tunnel_is_found(text::lines(t));
    }
}

/// A line that opens a hardware port.
pub open spec fn opens_port(line: Seq<char>) -> bool {
    text::starts_with(text::trim(line), "Hardware Port:"@)
}

/// A line that opens the Wi-Fi port.
pub open spec fn opens_wifi(line: Seq<char>) -> bool {
    match text::after_prefix(text::trim(line), "Hardware Port:"@) {
        Some(port) => text::trim(port) == "Wi-Fi"@ || text::trim(port) == "AirPort"@,
        None => false,
    }
}

/// A line that gives this device.
pub open spec fn gives_device(line: Seq<char>, dev: Seq<char>) -> bool {
    match text::after_prefix(text::trim(line), "Device:"@) {
        Some(rest) => text::trim(rest) == dev,
        None => false,
    }
}

/// The device in line `j` is that of the port which line `i` opens, and that
/// port is the Wi-Fi one.
pub open spec fn device_of_wifi(lines: Seq<Seq<char>>, i: int, j: int, dev: Seq<char>) -> bool {
    &&& 0 <= i < j < lines.len()
    &&& opens_wifi(lines[i])
    &&& gives_device(lines[j], dev)
    &&& forall|k: int| i < k <= j ==> !opens_port(#[trigger] lines[k])
}

/// The device in line `j` is that of the port which the lines start in.
spec fn device_of_first(lines: Seq<Seq<char>>, j: int, dev: Seq<char>) -> bool {
    &&& 0 <= j < lines.len()
    &&& gives_device(lines[j], dev)
    &&& forall|k: int| 0 <= k <= j ==> !opens_port(#[trigger] lines[k])
}

proof fn lemma_port_found(lines: Seq<Seq<char>>, in_wifi: bool)
    ensures
        wifi_port(lines, in_wifi) matches Some(dev) ==> (in_wifi && exists|j: int|
            device_of_first(lines, j, dev)) || exists|i: int, j: int|
            device_of_wifi(lines, i, j, dev),
    decreases lines.len(),
{
    if lines.len() > 0 && wifi_port(lines, in_wifi) is Some {
        let dev = wifi_port(lines, in_wifi)->Some_0;
        let t = text::trim(lines[0]);
        let rest = lines.skip(1);
        let now = if opens_port(lines[0]) {
            opens_wifi(lines[0])
        } else {
            in_wifi
        };
        if !opens_port(lines[0]) && in_wifi && text::after_prefix(t, "Device:"@) is Some {
            assert(device_of_first(lines, 0, dev));
        } else {
            assert(wifi_port(lines, in_wifi) == wifi_port(rest, now));
            lemma_port_found(rest, now);
            assert forall|k: int| 0 <= k < rest.len() implies #[trigger] rest[k] == lines[k + 1] by {
            }
            if now && exists|j: int| device_of_first(rest, j, dev) {
                let j = choose|j: int| device_of_first(rest, j, dev);
                assert(rest[j] == lines[j + 1]);
                assert forall|k: int| 1 <= k <= j + 1 implies !opens_port(#[trigger] lines[k]) by {
                    assert(rest[k - 1] == lines[k]);
                }
                if opens_port(lines[0]) {
                    assert(device_of_wifi(lines, 0, j + 1, dev));
                } else {
                    assert(device_of_first(lines, j + 1, dev));
                }
            } else {
                let (i, j) = choose|i: int, j: int| device_of_wifi(rest, i, j, dev);
                assert(rest[i] == lines[i + 1]);
                assert(rest[j] == lines[j + 1]);
                assert forall|k: int| i + 1 < k <= j + 1 implies !opens_port(
                    #[trigger] lines[k],
                ) by {
                    assert(rest[k - 1] == lines[k]);
                }
                assert(device_of_wifi(lines, i + 1, j + 1, dev));
            }
        }
    }
}

proof fn lemma_first_port_read(lines: Seq<Seq<char>>, j: int, dev: Seq<char>)
    requires
        device_of_first(lines, j, dev),
    ensures
        wifi_port(lines, true) is Some,
    decreases lines.len(),
{
    let rest = lines.skip(1);
    assert(!opens_port(lines[0]));
    if text::after_prefix(text::trim(lines[0]), "Device:"@) is None {
        assert(j > 0);
        assert(rest[j - 1] == lines[j]);
        assert forall|k: int| 0 <= k <= j - 1 implies !opens_port(#[trigger] rest[k]) by {
            assert(rest[k] == lines[k + 1]);
        }
        lemma_first_port_read(rest, j - 1, dev);
    }
}

proof fn lemma_port_read(lines: Seq<Seq<char>>, in_wifi: bool, i: int, j: int, dev: Seq<char>)
    requires
        device_of_wifi(lines, i, j, dev),
    ensures
        wifi_port(lines, in_wifi) is Some,
    decreases lines.len(),
{
    let rest = lines.skip(1);
    let now = if opens_port(lines[0]) {
        opens_wifi(lines[0])
    } else {
        in_wifi
    };
    assert(rest[j - 1] == lines[j]);
    if i == 0 {
        assert(opens_port(lines[0]));
        assert forall|k: int| 0 <= k <= j - 1 implies !opens_port(#[trigger] rest[k]) by {
            assert(rest[k] == lines[k + 1]);
        }
        lemma_first_port_read(rest, j - 1, dev);
    } else {
        assert(rest[i - 1] == lines[i]);
        assert forall|k: int| i - 1 < k <= j - 1 implies !opens_port(#[trigger] rest[k]) by {
            assert(rest[k] == lines[k + 1]);
        }
        lemma_port_read(rest, now, i - 1, j - 1, dev);
    }
}

/// The Wi-Fi device is one that stands under the Wi-Fi port, and it is found
/// wherever there is one.
pub proof fn the_wifi_device_stands_under_the_wifi_port(lines: Seq<Seq<char>>)
    ensures
        match wifi_port(lines, false) {
            Some(dev) => exists|i: int, j: int| device_of_wifi(lines, i, j, dev),
            None => forall|i: int, j: int, dev: Seq<char>| !device_of_wifi(lines, i, j, dev),
        },
{
    lemma_port_found(lines, false);
    if wifi_port(lines, false) is None {
        assert forall|i: int, j: int, dev: Seq<char>| !device_of_wifi(lines, i, j, dev) by {
            if device_of_wifi(lines, i, j, dev) {
                lemma_port_read(lines, false, i, j, dev);
            }
        }
    }
}

proof fn lemma_leading_number(n: i32, rest: Seq<char>)
    requires
        rest.len() > 0 ==> text::is_space(rest[0]),
    ensures
        leading_i32(number::signed_decimal(n as int) + rest) == Some(n),
        forall|i: int|
            0 <= i < number::signed_decimal(n as int).len() ==> ({
                let c = #[trigger] number::signed_decimal(n as int)[i];
                number::is_digit(c) || c == '-'
            }),
{
    let s = number::signed_decimal(n as int);
    number::a_signed_numeral_reads_back(n);
    if n < 0 {
        number::a_numeral_reads_back((-n) as nat, 10);
        assert forall|i: int| 0 <= i < s.len() implies ({
            let c = #[trigger] s[i];
            number::is_digit(c) || c == '-'
        }) by {
            if i > 0 {
                assert(s[i] == number::decimal((-n) as nat)[i - 1]);
            }
        }
    } else {
        number::a_numeral_reads_back(n as nat, 10);
    }
    let t = s + rest;
    assert forall|j: int| 0 <= j < s.len() implies !text::is_space(#[trigger] t[j]) by {
        assert(t[j] == s[j]);
    }
    text::lemma_first_word(t, s.len() as int);
    assert(t.take(s.len() as int) =~= s);
}

/// Signal and noise read back from the line that shows them.
pub proof fn signal_and_noise_read_back(signal: i32, noise: i32)
    ensures
        signal_noise(
            number::signed_decimal(signal as int) + " dBm "@ + seq!['/'] + (seq![' ']
                + number::signed_decimal(noise as int) + " dBm"@),
        ) == (Some(signal), Some(noise)),
{
    reveal_strlit(" dBm ");
    reveal_strlit(" dBm");
    let a = number::signed_decimal(signal as int) + " dBm "@;
    let c = number::signed_decimal(noise as int) + " dBm"@;
    let b = seq![' '] + number::signed_decimal(noise as int) + " dBm"@;
    assert(b =~= seq![' '] + c);
    lemma_leading_number(signal, " dBm "@);
    lemma_leading_number(noise, " dBm"@);
    text::lemma_blank_in_front(c);
    assert forall|j: int| 0 <= j < a.len() implies a[j] != '/' by {
        if j < number::signed_decimal(signal as int).len() {
            assert(a[j] == number::signed_decimal(signal as int)[j]);
        }
    }
    assert forall|j: int| 0 <= j < b.len() implies b[j] != '/' by {
        if 0 < j <= number::signed_decimal(noise as int).len() {
            assert(b[j] == number::signed_decimal(noise as int)[j - 1]);
        }
    }
    text::lemma_one_piece(a, '/');
    text::lemma_one_piece(b, '/');
    text::lemma_pieces_of_both(a, '/', b);
    assert(text::pieces(a + seq!['/'] + b, '/') =~= seq![a, b]);
}

/// What neither begins nor ends with white space has none to trim.
proof fn lemma_nothing_to_trim(s: Seq<char>)
    requires
        s.len() > 0,
        !text::is_space(s[0]),
        !text::is_space(s.last()),
    ensures
        text::trim(s) == s,
{
    assert(text::trim_start(s) == s);
}

/// A band in gigahertz is kept as it stands, and a width in megahertz is read as
/// a number.
proof fn lemma_channel_parts(a: Seq<char>, width: u32)
    requires
        a.len() > 3,
        number::is_digit(a[0]),
        a.skip(a.len() - 3) == "GHz"@,
    ensures
        channel_parts(seq![a, seq![' '] + number::decimal(width as nat) + "MHz"@]) == (
            Some(a),
            Some(width),
        ),
{
    reveal_strlit("GHz");
    reveal_strlit("MHz");
    let d = number::decimal(width as nat);
    let m = d + "MHz"@;
    let b = seq![' '] + d + "MHz"@;
    assert(b =~= seq![' '] + m);
    number::a_numeral_reads_back(width as nat, 10);
    number::an_unsigned_numeral_reads_back(width);
    assert(a.last() == a.skip(a.len() - 3)[2]);
    lemma_nothing_to_trim(a);
    assert(m[0] == d[0] && number::is_digit(d[0]));
    assert(m.last() == 'z');
    lemma_nothing_to_trim(m);
    text::lemma_blank_in_front(m);
    assert(m.skip(m.len() - 3) =~= "MHz"@);
    assert(m.skip(m.len() - 3)[0] == 'M');
    assert(m.take(m.len() - 3) =~= d);
    assert(number::is_digit(d[0]) && number::is_digit(d[d.len() - 1]));
    lemma_nothing_to_trim(d);
    let parts = seq![a, b];
    let one = parts.drop_last();
    assert(one =~= seq![a]);
    assert(one.drop_last() =~= Seq::<Seq<char>>::empty());
    assert(channel_parts(one.drop_last()) == (None::<Seq<char>>, None::<u32>));
    assert(channel_parts(one) == (Some(a), None::<u32>));
    assert(parts.last() == b);
    assert(!text::ends_with(m, "GHz"@)) by {
        assert("GHz"@[0] == 'G');
    }
}

/// Channel, band and width read back from the line that shows them.
pub proof fn a_channel_reads_back(channel: u32, band: u32, width: u32)
    ensures
        channel_value(
            number::decimal(channel as nat) + " "@ + seq!['('] + (number::decimal(band as nat)
                + "GHz"@ + seq![','] + (seq![' '] + number::decimal(width as nat) + "MHz"@)).push(
                ')',
            ),
        ) == (Some(channel), Some(number::decimal(band as nat) + "GHz"@), Some(width)),
{
    reveal_strlit(" ");
    reveal_strlit("GHz");
    reveal_strlit("MHz");
    let n = number::decimal(channel as nat);
    let g = number::decimal(band as nat);
    let w = number::decimal(width as nat);
    let a = g + "GHz"@;
    let b = seq![' '] + w + "MHz"@;
    let inner = a + seq![','] + b;
    let r = inner.push(')');
    let v = n + " "@ + seq!['('] + r;
    number::a_numeral_reads_back(channel as nat, 10);
    number::a_numeral_reads_back(band as nat, 10);
    number::a_numeral_reads_back(width as nat, 10);
    number::an_unsigned_numeral_reads_back(channel);
    assert forall|j: int| 0 <= j < n.len() implies !text::is_space(#[trigger] v[j]) && v[j]
        != '(' by {
        assert(v[j] == n[j] && number::is_digit(n[j]));
    }
    text::lemma_first_word(v, n.len() as int);
    assert(v.take(n.len() as int) =~= n);
    text::lemma_index_of(v, '(', n.len() as int + 1);
    assert(v.skip(n.len() as int + 2) =~= r);
    assert(r.drop_last() =~= inner);
    assert(inner.last() == 'z');
    assert(text::trim_end_of(inner, ')') == inner);
    assert(text::trim_end_of(r, ')') == inner);
    assert forall|j: int| 0 <= j < a.len() implies a[j] != ',' by {
        if j < g.len() {
            assert(a[j] == g[j] && number::is_digit(g[j]));
        }
    }
    assert forall|j: int| 0 <= j < b.len() implies b[j] != ',' by {
        if 0 < j <= w.len() {
            assert(b[j] == w[j - 1] && number::is_digit(w[j - 1]));
        }
    }
    text::lemma_one_piece(a, ',');
    text::lemma_one_piece(b, ',');
    text::lemma_pieces_of_both(a, ',', b);
    assert(text::pieces(inner, ',') =~= seq![a, b]);
    assert(a[0] == g[0] && number::is_digit(g[0]));
    assert(a.skip(a.len() - 3) =~= "GHz"@);
    lemma_channel_parts(a, width);
}

/// Nothing is read before the heading of the current network.
pub proof fn only_the_current_network_is_read(lines: Seq<Seq<char>>, info: platform::LinkView)
    requires
        forall|i: int|
            0 <= i < lines.len() ==> text::trim(#[trigger] lines[i])
                != "Current Network Information:"@,
    ensures
        airport_lines(lines, false, info) == info,
    decreases lines.len(),
{
    if lines.len() > 0 {
        let rest = lines.skip(1);
        assert(text::trim(lines[0]) != "Current Network Information:"@);
        assert forall|i: int| 0 <= i < rest.len() implies text::trim(#[trigger] rest[i])
            != "Current Network Information:"@ by {
            assert(rest[i] == lines[i + 1]);
        }
        only_the_current_network_is_read(rest, info);
    }
}

/// A network whose name is withheld has no name: the word that stands in its
/// place is never taken for one.
pub proof fn a_withheld_name_is_no_name(
    lines: Seq<Seq<char>>,
    in_current: bool,
    info: platform::LinkView,
)
    requires
        info.ssid != Some("<redacted>"@),
    ensures
        airport_lines(lines, in_current, info).ssid != Some("<redacted>"@),
    decreases lines.len(),
{
    if lines.len() > 0 {
        let t = text::trim(lines[0]);
        let rest = lines.skip(1);
        a_withheld_name_is_no_name(rest, true, info);
        a_withheld_name_is_no_name(rest, in_current, info);
        if let Some((k, v)) = text::split_at_char(t, ':') {
            a_withheld_name_is_no_name(
                rest,
                true,
                airport_field(info, text::trim(k), text::trim(v)),
            );
        }
    }
}

proof fn lemma_keys_differ()
    ensures
        "PHY Mode"@ != "Security"@,
        "PHY Mode"@ != "Transmit Rate"@,
        "PHY Mode"@ != "Channel"@,
        "PHY Mode"@ != "Signal / Noise"@,
        "Security"@ != "Transmit Rate"@,
        "Security"@ != "Channel"@,
        "Security"@ != "Signal / Noise"@,
        "Transmit Rate"@ != "Channel"@,
        "Transmit Rate"@ != "Signal / Noise"@,
        "Channel"@ != "Signal / Noise"@,
        "<redacted>"@.len() > 0,
        "<redacted>"@ != "PHY Mode"@,
        "<redacted>"@ != "Security"@,
        "<redacted>"@ != "Transmit Rate"@,
        "<redacted>"@ != "Channel"@,
        "<redacted>"@ != "Signal / Noise"@,
{
    reveal_strlit("PHY Mode");
    reveal_strlit("Security");
    reveal_strlit("Transmit Rate");
    reveal_strlit("Channel");
    reveal_strlit("Signal / Noise");
    reveal_strlit("<redacted>");
    assert("PHY Mode"@.len() == 8 && "Security"@.len() == 8 && "Transmit Rate"@.len() == 13);
    assert("Channel"@.len() == 7 && "Signal / Noise"@.len() == 14 && "<redacted>"@.len() == 10);
    assert("PHY Mode"@[0] != "Security"@[0]);
}

/// Each line of the current network sets the facts that its key names and leaves
/// the others alone; a line with a bare key that names none of them is the name
/// of the network.
pub proof fn a_line_sets_the_facts_that_it_names(
    info: platform::LinkView,
    k: Seq<char>,
    v: Seq<char>,
)
    ensures
        ({
            let after = airport_field(info, k, v);
            let known = k == "PHY Mode"@ || k == "Security"@ || k == "Transmit Rate"@ || k
                == "Channel"@ || k == "Signal / Noise"@;
            &&& after.phy_mode == (if k == "PHY Mode"@ {
                Some(v)
            } else {
                info.phy_mode
            })
            &&& after.security == (if k == "Security"@ {
                Some(v)
            } else {
                info.security
            })
            &&& after.tx_rate_mbps == (if k == "Transmit Rate"@ {
                number::u32_value(v)
            } else {
                info.tx_rate_mbps
            })
            &&& if k == "Channel"@ {
                after.channel == channel_value(v).0 && after.band == channel_value(v).1
                    && after.width_mhz == channel_value(v).2
            } else {
                after.channel == info.channel && after.band == info.band && after.width_mhz
                    == info.width_mhz
            }
            &&& if k == "Signal / Noise"@ {
                after.rssi_dbm == signal_noise(v).0 && after.noise_dbm == signal_noise(v).1
            } else {
                after.rssi_dbm == info.rssi_dbm && after.noise_dbm == info.noise_dbm
            }
            &&& after.ssid == (if !known && v.len() == 0 && k.len() > 0 && k != "<redacted>"@ {
                Some(k)
            } else {
                info.ssid
            })
            &&& after.is_wifi <==> (info.is_wifi || k == "Channel"@ || k == "Signal / Noise"@ || (
            !known && v.len() == 0 && k.len() > 0))
            &&& after.interface == info.interface && after.bssid == info.bssid
        }),
{
    lemma_keys_differ();
}

/// Only a mask whose set bits are contiguous from the top has a prefix length.
pub proof fn a_broken_mask_has_no_prefix(mask: nat)
    ensures
        match prefix_of(mask) {
            Some(p) => p <= 32 && mask == 0x1_0000_0000 - power2::pow2((32 - p) as nat),
            None => forall|p: nat|
                p <= 32 ==> mask + #[trigger] power2::pow2((32 - p) as nat) != 0x1_0000_0000,
        },
{
    if exists|p: nat| p <= 32 && mask == #[trigger] mask_of(p) {
        let p = choose|p: nat| p <= 32 && mask == #[trigger] mask_of(p);
        lemma_pow2_bound((32 - p) as nat);
    } else {
        assert forall|p: nat| p <= 32 implies mask + #[trigger] power2::pow2((32 - p) as nat)
            != 0x1_0000_0000 by {
            lemma_pow2_bound((32 - p) as nat);
            assert(mask != mask_of(p));
        }
    }
}

/// A mask in hexadecimal gives back its prefix length, and so does the same mask
/// in dotted form.
pub proof fn a_written_mask_gives_back_its_prefix(p: nat, dotted: Ipv4Addr)
    requires
        p <= 32,
        dotted.bits() == mask_of(p),
    ensures
        netmask_value("0x"@ + number::numeral(mask_of(p), 16)) == Some(p as u8),
        netmask_value(addr::v4_text(dotted)) == Some(p as u8),
{
    reveal_strlit("0x");
    let h = number::numeral(mask_of(p), 16);
    let s = "0x"@ + h;
    number::a_numeral_reads_back(mask_of(p), 16);
    lemma_pow2_bound((32 - p) as nat);
    power2::lemma_pow2_pos((32 - p) as nat);
    assert(s.take(2) =~= "0x"@);
    assert(s.skip(2) =~= h);
    assert(number::is_digit(h[0]));
    a_mask_gives_back_its_prefix(p);
    let d = addr::v4_text(dotted);
    addr::an_address_is_spelt_in_digits_points_and_colons(IpAddr::V4(dotted));
    addr::an_ipv4_address_reads_back(dotted);
    assert(!text::starts_with(d, "0x"@)) by {
        if text::starts_with(d, "0x"@) {
            assert(d.take(2)[1] == 'x');
            assert(addr::in_address(addr::ip_text(IpAddr::V4(dotted))[1]));
        }
    }
}

/// The prefix length is the one behind the word `netmask`; where there is no
/// such word or nothing readable behind it, nothing but the host is claimed.
pub proof fn the_subnet_is_the_declared_one(toks: Seq<Seq<char>>, i: int)
    requires
        0 <= i <= toks.len(),
        i < toks.len() ==> toks[i] == "netmask"@,
        forall|j: int| 0 <= j < i ==> #[trigger] toks[j] != "netmask"@,
    ensures
        i + 1 < toks.len() && netmask_value(toks[i + 1]) is Some ==> declared_prefix(toks)
            == netmask_value(toks[i + 1])->Some_0,
        i + 1 >= toks.len() || netmask_value(toks[i + 1]) is None ==> declared_prefix(toks) == 32,
{
    text::lemma_index_among(toks, "netmask"@, i);
}

/// The address on an IPv4 line that begins with one.
pub open spec fn ipv4_on(line: Seq<char>) -> Option<Ipv4Addr> {
    match text::after_prefix(text::trim(line), "inet "@) {
        Some(rest) => match text::first_word(rest) {
            Some(w) => addr::v4_value(w),
            None => None,
        },
        None => None,
    }
}

/// The first IPv4 address counts: the first line with one sets it, with the
/// prefix length declared there, and no later line displaces it.
pub proof fn the_first_ipv4_address_counts(lines: Seq<Seq<char>>, line: Seq<char>)
    ensures
        ({
            let before = addr_lines(lines).v4;
            let after = addr_lines(lines.push(line)).v4;
            &&& before is Some ==> after == before
            &&& before is None && ipv4_on(line) is None ==> after is None
            &&& before is None && ipv4_on(line) is Some ==> after == Some(
                (
                    ipv4_on(line)->Some_0,
                    declared_prefix(
                        text::words(text::after_prefix(text::trim(line), "inet "@)->Some_0),
                    ),
                ),
            )
        }),
{
    let all = lines.push(line);
    assert(all.drop_last() =~= lines);
    assert(all.last() == line);
}

/// Every IPv6 line with an address that is not link-local adds that address
/// behind those before it, and no other line adds any.
pub proof fn every_routable_ipv6_address_is_listed(lines: Seq<Seq<char>>, line: Seq<char>, rest: Seq<
    char,
>)
    requires
        text::trim(line) == "inet6 "@ + rest,
    ensures
        ({
            let before = addr_lines(lines).v6;
            let after = addr_lines(lines.push(line)).v6;
            match leading_addr(rest) {
                Some(IpAddr::V6(ip)) => after == (if ip.link_local() {
                    before
                } else {
                    before.push(ip)
                }),
                _ => after == before,
            }
        }),
{
    let all = lines.push(line);
    assert(all.drop_last() =~= lines);
    assert(all.last() == line);
    let t = text::trim(line);
    lemma_opens_with(t, "inet6 "@, rest);
    assert(!text::starts_with(t, "inet "@)) by {
        reveal_strlit("inet ");
        reveal_strlit("inet6 ");
        if text::starts_with(t, "inet "@) {
            assert(t.take(5)[4] == t[4]);
            assert(t[4] == "inet6 "@[4]);
        }
    }
}

/// The address on an `inet` line that begins with one.
pub open spec fn inet_on(line: Seq<char>) -> Option<IpAddr> {
    match text::after_prefix(text::trim(line), "inet "@) {
        Some(rest) => leading_addr(rest),
        None => None,
    }
}

/// The address on an `inet6` line that begins with one which says something of
/// the tunnel, so no link-local one.
pub open spec fn routable_on(line: Seq<char>) -> Option<IpAddr> {
    match text::after_prefix(text::trim(line), "inet6 "@) {
        Some(rest) => match leading_addr(rest) {
            Some(ip) if !ip.link_local() => Some(ip),
            _ => None,
        },
        None => None,
    }
}

/// The first line, if any, on which something stands.
pub open spec fn first_on(
    lines: Seq<Seq<char>>,
    on: spec_fn(Seq<char>) -> Option<IpAddr>,
    i: int,
) -> bool {
    &&& 0 <= i < lines.len()
    &&& on(lines[i]) is Some
    &&& forall|j: int| 0 <= j < i ==> on(#[trigger] lines[j]) is None
}

proof fn lemma_kinds_differ(line: Seq<char>)
    ensures
        inet_on(line) is None || routable_on(line) is None,
        text::starts_with(text::trim(line), "inet "@) ==> !text::starts_with(
            text::trim(line),
            "inet6 "@,
        ),
{
    let t = text::trim(line);
    reveal_strlit("inet ");
    reveal_strlit("inet6 ");
    if text::starts_with(t, "inet "@) && text::starts_with(t, "inet6 "@) {
        assert(t.take(5)[4] == t[4]);
        assert(t.take(6)[4] == t[4]);
    }
}

/// The first `inet` address is that of the tunnel, whatever else there is.
pub proof fn ipv4_wins(lines: Seq<Seq<char>>, fallback: Option<IpAddr>, i: int)
    requires
        first_on(lines, |l: Seq<char>| inet_on(l), i),
    ensures
        tunnel_addr(lines, fallback) == inet_on(lines[i]),
    decreases lines.len(),
{
    let on = |l: Seq<char>| inet_on(l);
    let rest = lines.skip(1);
    if i > 0 {
        assert(on(lines[0]) is None);
        assert(rest[i - 1] == lines[i]);
        assert forall|j: int| 0 <= j < i - 1 implies on(#[trigger] rest[j]) is None by {
            assert(rest[j] == lines[j + 1]);
        }
        assert(first_on(rest, on, i - 1));
        ipv4_wins(rest, fallback, i - 1);
        if fallback is None && routable_on(lines[0]) is Some {
            ipv4_wins(rest, routable_on(lines[0]), i - 1);
        }
        lemma_kinds_differ(lines[0]);
    }
}

/// Without any `inet` address the first routable IPv6 one is that of the tunnel,
/// and without either there is none.
pub proof fn else_the_first_routable_ipv6_address(
    lines: Seq<Seq<char>>,
    fallback: Option<IpAddr>,
    i: int,
)
    requires
        forall|j: int| 0 <= j < lines.len() ==> inet_on(#[trigger] lines[j]) is None,
        i == lines.len() || first_on(lines, |l: Seq<char>| routable_on(l), i),
        i == lines.len() ==> forall|j: int|
            0 <= j < lines.len() ==> routable_on(#[trigger] lines[j]) is None,
    ensures
        tunnel_addr(lines, fallback) == (if fallback is Some {
            fallback
        } else if i < lines.len() {
            routable_on(lines[i])
        } else {
            None
        }),
    decreases lines.len(),
{
    let on = |l: Seq<char>| routable_on(l);
    if lines.len() > 0 {
        let rest = lines.skip(1);
        assert(inet_on(lines[0]) is None);
        lemma_kinds_differ(lines[0]);
        assert forall|j: int| 0 <= j < rest.len() implies inet_on(#[trigger] rest[j]) is None by {
            assert(rest[j] == lines[j + 1]);
        }
        if fallback is None && i == 0 {
            assert(on(lines[0]) is Some);
            lemma_fallback_stays(rest, routable_on(lines[0]));
        } else if fallback is Some {
            lemma_fallback_stays(rest, fallback);
        } else {
            assert(routable_on(lines[0]) is None) by {
                if i < lines.len() {
                    assert(on(lines[0]) is None);
                }
            }
            if i < lines.len() {
                assert(rest[i - 1] == lines[i]);
                assert forall|j: int| 0 <= j < i - 1 implies on(#[trigger] rest[j]) is None by {
                    assert(rest[j] == lines[j + 1]);
                    assert(on(lines[j + 1]) is None);
                }
                assert(first_on(rest, on, i - 1));
            } else {
                assert forall|j: int| 0 <= j < rest.len() implies routable_on(
                    #[trigger] rest[j],
                ) is None by {
                    assert(rest[j] == lines[j + 1]);
                }
            }
            else_the_first_routable_ipv6_address(rest, fallback, i - 1);
        }
    }
}

proof fn lemma_fallback_stays(lines: Seq<Seq<char>>, fallback: Option<IpAddr>)
    requires
        forall|j: int| 0 <= j < lines.len() ==> inet_on(#[trigger] lines[j]) is None,
        fallback is Some,
    ensures
        tunnel_addr(lines, fallback) == fallback,
    decreases lines.len(),
{
    if lines.len() > 0 {
        let rest = lines.skip(1);
        assert(inet_on(lines[0]) is None);
        assert forall|j: int| 0 <= j < rest.len() implies inet_on(#[trigger] rest[j]) is None by {
            assert(rest[j] == lines[j + 1]);
        }
        lemma_fallback_stays(rest, fallback);
    }
}

/// A vendor's own daemon names the vendor.
pub open spec fn names_vendor(low: Seq<char>) -> bool {
    ||| text::contains(low, "tailscaled"@)
    ||| text::contains(low, "warp-svc"@)
    ||| text::contains(low, "cloudflarewarp"@)
    ||| text::contains(low, "nordvpn"@)
    ||| text::contains(low, "mullvad"@)
    ||| text::contains(low, "protonvpn"@)
    ||| text::contains(low, "expressvpn"@)
    ||| text::contains(low, "vpnagentd"@)
    ||| text::contains(low, "acwebsecagent"@)
    ||| text::contains(low, "pangps"@)
}

/// One of the engines that vendors build on.
pub open spec fn names_engine(low: Seq<char>) -> bool {
    ||| text::contains(low, "openconnect"@)
    ||| text::contains(low, "wireguard"@)
    ||| text::contains(low, "openvpn"@)
}

/// A label that only an engine gets.
pub open spec fn engine_label(label: Seq<char>) -> bool {
    label == "OpenConnect"@ || label == "WireGuard"@ || label == "OpenVPN"@
}

/// A vendor's daemon outranks the engine that it runs on: an engine is named only
/// where no vendor is, and nothing is named only where neither is.
pub proof fn a_vendor_outranks_its_engine(low: Seq<char>)
    ensures
        vendor_in(low) is Some <==> names_vendor(low) || names_engine(low),
        names_vendor(low) ==> !engine_label(vendor_in(low)->Some_0),
        !names_vendor(low) && names_engine(low) ==> engine_label(vendor_in(low)->Some_0),
{
    reveal_strlit("OpenConnect");
    reveal_strlit("WireGuard");
    reveal_strlit("OpenVPN");
    reveal_strlit("Tailscale");
    reveal_strlit("Cloudflare WARP");
    reveal_strlit("NordVPN");
    reveal_strlit("Mullvad");
    reveal_strlit("Proton VPN");
    reveal_strlit("ExpressVPN");
    reveal_strlit("Cisco AnyConnect");
    reveal_strlit("GlobalProtect");
    assert("OpenConnect"@[0] == 'O' && "WireGuard"@[0] == 'W' && "OpenVPN"@[0] == 'O');
    assert("Tailscale"@[0] == 'T' && "Cloudflare WARP"@[0] == 'C' && "NordVPN"@[0] == 'N');
    assert("Mullvad"@[0] == 'M' && "Proton VPN"@[0] == 'P' && "ExpressVPN"@[0] == 'E');
    assert("Cisco AnyConnect"@[0] == 'C' && "GlobalProtect"@[0] == 'G');
}

/// A daemon that runs alone gives its own vendor away, whichever it is.
pub proof fn a_daemon_gives_its_vendor_away(low: Seq<char>)
    requires
        names_vendor(low) || names_engine(low),
    ensures
        match vendor_in(low) {
            Some(v) => {
                ||| v == "Tailscale"@ && text::contains(low, "tailscaled"@)
                ||| v == "Cloudflare WARP"@ && (text::contains(low, "warp-svc"@) || text::contains(
                    low,
                    "cloudflarewarp"@,
                ))
                ||| v == "NordVPN"@ && text::contains(low, "nordvpn"@)
                ||| v == "Mullvad"@ && text::contains(low, "mullvad"@)
                ||| v == "Proton VPN"@ && text::contains(low, "protonvpn"@)
                ||| v == "ExpressVPN"@ && text::contains(low, "expressvpn"@)
                ||| v == "Cisco AnyConnect"@ && (text::contains(low, "vpnagentd"@)
                    || text::contains(low, "acwebsecagent"@))
                ||| v == "GlobalProtect"@ && text::contains(low, "pangps"@)
                ||| v == "OpenConnect"@ && text::contains(low, "openconnect"@)
                ||| v == "WireGuard"@ && text::contains(low, "wireguard"@)
                ||| v == "OpenVPN"@ && text::contains(low, "openvpn"@)
            },
            None => false,
        },
{
}

/// The label of a tunnel comes from a running daemon where there is one, and
/// only else from the range of its address, which then has to be the shared one.
pub proof fn a_running_daemon_outranks_the_address(
    iface: Seq<char>,
    ifconfig: Option<Seq<char>>,
    low_ps: Option<Seq<char>>,
)
    ensures
        ({
            let vpn = vpn_of(iface, ifconfig, low_ps);
            let seen = low_ps matches Some(low) && (names_vendor(low) || names_engine(low));
            &&& vpn.active && vpn.interface == Some(iface)
            &&& vpn.local_ip == (match ifconfig {
                Some(t) => tunnel_addr(text::lines(t), None),
                None => None,
            })
            &&& seen ==> vpn.vendor is Some && vpn.vendor == vendor_in(low_ps->Some_0)
            &&& !seen ==> (vpn.vendor is Some <==> (vpn.local_ip matches Some(ip)
                && ip.shared_space()))
            &&& !seen && vpn.vendor is Some ==> vpn.vendor == Some("Tailscale"@)
        }),
{
    if let Some(low) = low_ps {
        a_vendor_outranks_its_engine(low);
    }
}

proof fn lemma_around_the_colon(key: Seq<char>, value: Seq<char>)
    requires
        key.len() > 0,
        !text::is_space(key[0]),
        forall|j: int| 0 <= j < key.len() ==> #[trigger] key[j] != ':',
        value.len() > 0,
        !text::is_space(value.last()),
    ensures
        text::split_at_char(text::trim(key + seq![':'] + value), ':') == Some((key, value)),
{
    let line = key + seq![':'] + value;
    assert(line[0] == key[0]);
    assert(line.last() == value.last());
    lemma_nothing_to_trim(line);
    assert forall|j: int| 0 <= j < key.len() implies line[j] != ':' by {
        assert(line[j] == key[j]);
    }
    text::lemma_index_of(line, ':', key.len() as int);
    assert(line.take(key.len() as int) =~= key);
    assert(line.skip(key.len() as int + 1) =~= value);
}

/// The key in front of a nameserver.
spec fn server_key(n: nat) -> Seq<char> {
    "nameserver["@ + number::decimal(n) + "] "@
}

proof fn lemma_server_key(n: nat)
    ensures
        server_key(n).len() > 0,
        !text::is_space(server_key(n)[0]),
        forall|j: int| 0 <= j < server_key(n).len() ==> #[trigger] server_key(n)[j] != ':',
        text::starts_with(text::trim(server_key(n)), "nameserver["@),
{
    reveal_strlit("nameserver[");
    reveal_strlit("] ");
    let d = number::decimal(n);
    let open = "nameserver["@ + d;
    let key = open + "] "@;
    number::a_numeral_reads_back(n, 10);
    assert forall|j: int| 0 <= j < key.len() implies #[trigger] key[j] != ':' by {
        if "nameserver["@.len() <= j < open.len() {
            assert(key[j] == d[j - "nameserver["@.len()]);
            assert(number::is_digit(d[j - "nameserver["@.len()]));
        }
    }
    assert(key[0] == 'n');
    let closed = key.drop_last();
    assert(closed.last() == ']');
    assert(text::trim_start(key) == key);
    assert(text::trim_end(closed) == closed);
    assert(text::trim(key) == closed);
    assert(closed.take("nameserver["@.len() as int) =~= "nameserver["@);
}

/// A nameserver reads back from the line that declares it.
pub proof fn a_nameserver_reads_back(ip: IpAddr, n: nat)
    ensures
        declared_server(
            "nameserver["@ + number::decimal(n) + "] "@ + seq![':'] + (seq![' '] + addr::ip_text(
                ip,
            )),
        ) == Some(ip),
{
    let a = addr::ip_text(ip);
    let value = seq![' '] + a;
    addr::an_address_reads_back(ip);
    addr::an_address_is_spelt_in_digits_points_and_colons(ip);
    assert(addr::in_address(a[0]) && addr::in_address(a[a.len() - 1]));
    lemma_nothing_to_trim(a);
    text::lemma_blank_in_front(a);
    assert(value.last() == a.last());
    lemma_server_key(n);
    lemma_around_the_colon(server_key(n), value);
}

/// The lines of this block leave it answering arbitrary names: none of them ties
/// it to a domain.
pub open spec fn answers_any_name(block: Seq<char>) -> bool {
    forall|i: int|
        0 <= i < text::lines(block).len() ==> ({
            let t = text::trim(#[trigger] text::lines(block)[i]);
            &&& !text::starts_with(t, "domain "@)
            &&& !text::starts_with(t, "search domain["@)
            &&& text::starts_with(t, "flags "@) || text::starts_with(t, "flags:"@)
                ==> !text::contains(t, "Scoped"@)
        })
}

/// This block declares this nameserver.
pub open spec fn declares(block: Seq<char>, ip: IpAddr) -> bool {
    exists|i: int|
        0 <= i < text::lines(block).len() && declared_server(#[trigger] text::lines(block)[i])
            == Some(ip)
}

proof fn lemma_servers_added(ns: Seq<IpAddr>, lines: Seq<Seq<char>>, ip: IpAddr)
    ensures
        add_servers(ns, lines).contains(ip) <==> (ns.contains(ip) || exists|i: int|
            0 <= i < lines.len() && declared_server(#[trigger] lines[i]) == Some(ip)),
    decreases lines.len(),
{
    if lines.len() > 0 {
        let head = lines.drop_last();
        lemma_servers_added(ns, head, ip);
        let before = add_servers(ns, head);
        if exists|i: int| 0 <= i < head.len() && declared_server(#[trigger] head[i]) == Some(ip) {
            let i = choose|i: int|
                0 <= i < head.len() && declared_server(#[trigger] head[i]) == Some(ip);
            assert(lines[i] == head[i]);
        }
        if exists|i: int| 0 <= i < lines.len() && declared_server(#[trigger] lines[i]) == Some(ip) {
            let i = choose|i: int|
                0 <= i < lines.len() && declared_server(#[trigger] lines[i]) == Some(ip);
            if i < head.len() {
                assert(lines[i] == head[i]);
            }
        }
        match declared_server(lines.last()) {
            Some(new) if !before.contains(new) => {
                let all = before.push(new);
                assert(all.last() == new);
                if before.contains(ip) {
                    let k = choose|k: int| 0 <= k < before.len() && before[k] == ip;
                    assert(all[k] == ip);
                }
                if all.contains(ip) {
                    let k = choose|k: int| 0 <= k < all.len() && all[k] == ip;
                    if k < before.len() {
                        assert(before[k] == ip);
                    } else {
                        assert(lines[lines.len() - 1] == lines.last());
                    }
                }
                if ip == new {
                    assert(all[before.len() as int] == ip);
                }
            },
            _ => {
                if declared_server(lines[lines.len() - 1]) == Some(ip) {
                    assert(before.contains(ip));
                }
            },
        }
    } else {
        assert(add_servers(ns, lines) == ns);
    }
}

/// The nameservers that are listed are those that the blocks answering arbitrary
/// names declare, all of them and no others.
pub proof fn the_default_servers_are_those_that_answer_any_name(blocks: Seq<Seq<char>>, ip: IpAddr)
    ensures
        servers(blocks).contains(ip) <==> exists|b: int|
            0 <= b < blocks.len() && answers_any_name(#[trigger] blocks[b]) && declares(
                blocks[b],
                ip,
            ),
    decreases blocks.len(),
{
    if blocks.len() > 0 {
        let head = blocks.drop_last();
        let lines = text::lines(blocks.last());
        the_default_servers_are_those_that_answer_any_name(head, ip);
        lemma_servers_added(servers(head), lines, ip);
        assert(any_scoped(lines) <==> !answers_any_name(blocks.last())) by {
            if any_scoped(lines) {
                let i = choose|i: int| 0 <= i < lines.len() && scoped(#[trigger] lines[i]);
                assert(scoped(text::lines(blocks.last())[i]));
            } else {
                assert forall|i: int| 0 <= i < lines.len() implies !scoped(#[trigger] lines[i]) by {
                }
            }
        }
        if exists|b: int|
            0 <= b < head.len() && answers_any_name(#[trigger] head[b]) && declares(head[b], ip) {
            let b = choose|b: int|
                0 <= b < head.len() && answers_any_name(#[trigger] head[b]) && declares(
                    head[b],
                    ip,
                );
            assert(blocks[b] == head[b]);
        }
        if exists|b: int|
            0 <= b < blocks.len() && answers_any_name(#[trigger] blocks[b]) && declares(
                blocks[b],
                ip,
            ) {
            let b = choose|b: int|
                0 <= b < blocks.len() && answers_any_name(#[trigger] blocks[b]) && declares(
                    blocks[b],
                    ip,
                );
            if b < head.len() {
                assert(blocks[b] == head[b]);
            }
        }
        assert(blocks[blocks.len() - 1] == blocks.last());
    }
}

/// Without a slash there is a signal and no noise.
pub proof fn without_a_slash_there_is_no_noise(v: Seq<char>)
    requires
        forall|j: int| 0 <= j < v.len() ==> #[trigger] v[j] != '/',
    ensures
        signal_noise(v) == (leading_i32(v), None::<i32>),
{
    text::lemma_one_piece(v, '/');
}

/// The blocks are what follows each heading: what precedes the first one is none,
/// and without a heading there are no servers.
pub proof fn a_block_follows_its_heading(s: Seq<char>, before: Seq<char>, after: Seq<char>)
    ensures
        text::split_at_first(s, "resolver #"@) == Some((before, after)) ==> default_servers(s)
            == servers(text::parts(after, "resolver #"@)),
        text::split_at_first(s, "resolver #"@) is None ==> default_servers(s).len() == 0,
{
    reveal_strlit("resolver #");
    let all = text::parts(s, "resolver #"@);
    if text::split_at_first(s, "resolver #"@) == Some((before, after)) {
        assert(all.skip(1) =~= text::parts(after, "resolver #"@));
    } else if text::split_at_first(s, "resolver #"@) is None {
        assert(all.skip(1) =~= Seq::<Seq<char>>::empty());
    }
}

} // verus!
