//! Network facts and decisions: which interfaces count as wired or wireless,
//! what the address, route and resolver texts say, how a wireless scan's
//! output reads, and which open network a connection attempt picks. The
//! commands themselves run outside; their outputs come in as text.

use vstd::prelude::*;
use crate::text::{spec_trim, trim_str, spec_lines, split_lines, spec_fields, split_fields,
    starts_with, starts_with_bytes, bytes_of, contains_sub, contains_bytes, str_eq, first_index,
    num_i32, parse_num_i32, trim_quotes, trim_quotes_str};

verus! {

use vstd::string::StringSliceAdditionalSpecFns;
use vstd::string::StrSliceExecFns;

/// How a connection was made.
#[derive(Clone, Copy, Debug, PartialEq, Eq, Structural)]
pub enum ConnectionType {
    Ethernet,
    WiFi,
    Hotspot,
    Unknown,
}

/// One established connection.
#[derive(Clone, Debug)]
pub struct NetworkConnection {
    pub interface: String,
    pub connection_type: ConnectionType,
    pub ip_address: String,
    pub gateway: Option<String>,
    pub dns_servers: Vec<String>,
    pub is_connected: bool,
}

/// One network a wireless scan saw.
#[derive(Clone, Debug)]
pub struct WiFiNetwork {
    pub ssid: String,
    pub signal_strength: i32,
    pub security: String,
    pub frequency: Option<u32>,
}

/// The mathematical value of one scanned network.
pub ghost struct WifiView {
    pub ssid: Seq<char>,
    pub signal_strength: i32,
    pub security: Seq<char>,
    pub frequency: Option<u32>,
}

impl View for WiFiNetwork {
    type V = WifiView;

    open spec fn view(&self) -> WifiView {
        WifiView {
            ssid: self.ssid@,
            signal_strength: self.signal_strength,
            security: self.security@,
            frequency: self.frequency,
        }
    }
}

/// The views of a row of scanned networks.
pub open spec fn wifi_views(s: Seq<WiFiNetwork>) -> Seq<WifiView> {
    s.map_values(|n: WiFiNetwork| n@)
}

// ---------- Interface classification ----------

/// A wired interface name.
pub open spec fn is_ethernet_name(n: Seq<char>) -> bool {
    starts_with_bytes(bytes_of(n), "eth".spec_bytes()) || starts_with_bytes(
        bytes_of(n),
        "enp".spec_bytes(),
    ) || starts_with_bytes(bytes_of(n), "eno".spec_bytes())
}

/// A wireless interface name.
pub open spec fn is_wifi_name(n: Seq<char>) -> bool {
    starts_with_bytes(bytes_of(n), "wlan".spec_bytes()) || starts_with_bytes(
        bytes_of(n),
        "wlp".spec_bytes(),
    ) || starts_with_bytes(bytes_of(n), "wlx".spec_bytes())
}

/// Whether this interface name counts as wired.
pub fn ethernet_name(n: &str) -> (r: bool)
    ensures
        r == is_ethernet_name(n@),
{
    starts_with(n, "eth") || starts_with(n, "enp") || starts_with(n, "eno")
}

/// Whether this interface name counts as wireless.
pub fn wifi_name(n: &str) -> (r: bool)
    ensures
        r == is_wifi_name(n@),
{
    starts_with(n, "wlan") || starts_with(n, "wlp") || starts_with(n, "wlx")
}

/// An interface's operational-state text says it is up.
pub open spec fn operstate_up(t: Seq<char>) -> bool {
    spec_trim(t) == "up"@
}

/// Whether the operational-state text reads `up`.
pub fn is_interface_up(operstate_text: &str) -> (r: bool)
    ensures
        r == operstate_up(operstate_text@),
{
    str_eq(trim_str(operstate_text).as_str(), "up")
}

/// The order connection attempts run in: the preferred medium first, the
/// other as the fallback.
pub fn connect_plan(ethernet_preferred: bool) -> (r: Vec<ConnectionType>)
    ensures
        r@.len() == 2,
        ethernet_preferred ==> r@[0] == ConnectionType::Ethernet && r@[1] == ConnectionType::WiFi,
        !ethernet_preferred ==> r@[0] == ConnectionType::WiFi && r@[1] == ConnectionType::Ethernet,
{
    let mut plan: Vec<ConnectionType> = Vec::new();
    if ethernet_preferred {
        plan.push(ConnectionType::Ethernet);
        plan.push(ConnectionType::WiFi);
    } else {
        plan.push(ConnectionType::WiFi);
        plan.push(ConnectionType::Ethernet);
    }
    plan
}

// ---------- Parsers over command output ----------

/// The address a line of the address listing carries: the line, trimmed,
/// starts with `inet ` and its second field is the address, cut before any
/// prefix length.
pub open spec fn inet_of_line(l: Seq<char>) -> Option<Seq<char>> {
    let t = spec_trim(l);
    let fs = spec_fields(t);
    if starts_with_bytes(bytes_of(t), "inet ".spec_bytes()) && fs.len() >= 2 {
        Some(fs[1].take(first_index(fs[1], '/')))
    } else {
        None
    }
}

/// The first address of the address listing.
pub open spec fn ip_of(text: Seq<char>) -> Option<Seq<char>>
    decreases text.len(),
{
    ip_scan(spec_lines(text))
}

/// Scan the listing's lines for the first address.
pub open spec fn ip_scan(lines: Seq<Seq<char>>) -> Option<Seq<char>>
    decreases lines.len(),
{
    if lines.len() == 0 {
        None
    } else {
        match inet_of_line(lines[0]) {
            Some(ip) => Some(ip),
            None => ip_scan(lines.drop_first()),
        }
    }
}

/// Read the interface's address out of the address-listing text.
pub fn get_interface_ip(output: &str) -> (r: Option<String>)
    ensures
        match r {
            Some(ip) => ip_of(output@) == Some(ip@),
            None => ip_of(output@) is None,
        },
{
    let lines = split_lines(output);
    let ghost lviews = lines@.map_values(|x: String| x@);
    let mut i: usize = 0;
    proof {
        assert(lviews.skip(0) =~= lviews);
    }
    while i < lines.len()
        invariant
            i <= lines@.len(),
            lviews == lines@.map_values(|x: String| x@),
            lviews == spec_lines(output@),
            ip_scan(lviews) == ip_scan(lviews.skip(i as int)),
        decreases lines@.len() - i,
    {
        let ghost lv = lviews[i as int];
        proof {
            assert(lviews.skip(i as int)[0] == lv);
            assert(lviews.skip(i as int).drop_first() =~= lviews.skip(i + 1));
        }
        let t = trim_str(lines[i].as_str());
        if starts_with(t.as_str(), "inet ") {
            let fields = split_fields(t.as_str());
            if fields.len() >= 2 {
                let f = fields[1].as_str();
                let flen = f.unicode_len();
                let mut k: usize = 0;
                while k < flen && f.get_char(k) != '/'
                    invariant
                        k <= flen,
                        flen == f@.len(),
                        forall|j: int| 0 <= j < k ==> f@[j] != '/',
                    decreases flen - k,
                {
                    k = k + 1;
                }
                proof {
                    crate::text::lemma_first_index(f@, '/', k as int);
                    assert(fields@.map_values(|x: String| x@)[1] == fields@[1]@);
                    assert(f@.subrange(0, k as int) =~= f@.take(k as int));
                }
                let ip = f.substring_char(0, k).to_owned();
                assert(inet_of_line(lv) == Some(ip@));
                return Some(ip);
            }
            assert(inet_of_line(lv) is None);
        } else {
            assert(inet_of_line(lv) is None);
        }
        i = i + 1;
    }
    proof {
        assert(lviews.skip(i as int).len() == 0);
    }
    return None;
}

/// The gateway a line of the route listing names: a line holding
/// `default via`, with the field after the `via` field.
pub open spec fn gateway_of_line(l: Seq<char>) -> Option<Seq<char>> {
    let fs = spec_fields(l);
    if contains_bytes(bytes_of(l), "default via".spec_bytes()) && via_index(fs) + 1 < fs.len() {
        Some(fs[via_index(fs) + 1])
    } else {
        None
    }
}

/// The position of the first `via` field.
pub open spec fn via_index(fs: Seq<Seq<char>>) -> int
    decreases fs.len(),
{
    if fs.len() == 0 {
        0
    } else if fs[0] == "via"@ {
        0
    } else {
        1 + via_index(fs.drop_first())
    }
}

proof fn lemma_via_index(fs: Seq<Seq<char>>, i: int)
    requires
        0 <= i <= fs.len(),
        forall|j: int| 0 <= j < i ==> fs[j] != "via"@,
        i < fs.len() ==> fs[i] == "via"@,
    ensures
        via_index(fs) == if i < fs.len() {
            i
        } else {
            fs.len() as int
        },
    decreases fs.len(),
{
    if fs.len() > 0 {
        if i == 0 {
        } else {
            lemma_via_index(fs.drop_first(), i - 1);
        }
    }
}

/// The first gateway of the route listing.
pub open spec fn gateway_scan(lines: Seq<Seq<char>>) -> Option<Seq<char>>
    decreases lines.len(),
{
    if lines.len() == 0 {
        None
    } else {
        match gateway_of_line(lines[0]) {
            Some(g) => Some(g),
            None => gateway_scan(lines.drop_first()),
        }
    }
}

/// Read the default gateway out of the route-listing text.
pub fn get_default_gateway(output: &str) -> (r: Option<String>)
    ensures
        match r {
            Some(g) => gateway_scan(spec_lines(output@)) == Some(g@),
            None => gateway_scan(spec_lines(output@)) is None,
        },
{
    let lines = split_lines(output);
    let ghost lviews = lines@.map_values(|x: String| x@);
    let mut i: usize = 0;
    proof {
        assert(lviews.skip(0) =~= lviews);
    }
    while i < lines.len()
        invariant
            i <= lines@.len(),
            lviews == lines@.map_values(|x: String| x@),
            lviews == spec_lines(output@),
            gateway_scan(lviews) == gateway_scan(lviews.skip(i as int)),
        decreases lines@.len() - i,
    {
        let ghost lv = lviews[i as int];
        proof {
            assert(lviews.skip(i as int)[0] == lv);
            assert(lviews.skip(i as int).drop_first() =~= lviews.skip(i + 1));
        }
        let line = lines[i].as_str();
        if contains_sub(line, "default via") {
            let fields = split_fields(line);
            let ghost fviews = spec_fields(lv);
            let mut k: usize = 0;
            while k < fields.len() && !str_eq(fields[k].as_str(), "via")
                invariant
                    k <= fields@.len(),
                    fields@.map_values(|x: String| x@) == fviews,
                    forall|j: int| 0 <= j < k ==> fviews[j] != "via"@,
                decreases fields@.len() - k,
            {
                proof {
                    assert(fviews[k as int] == fields@[k as int]@);
                }
                k = k + 1;
            }
            proof {
                if k < fields@.len() {
                    assert(fviews[k as int] == fields@[k as int]@);
                }
                lemma_via_index(fviews, k as int);
            }
            if k < fields.len() && fields.len() - k > 1 {
                let g = fields[k + 1].clone();
                proof {
                    assert(fviews[k + 1] == fields@[k + 1]@);
                }
                assert(gateway_of_line(lv) == Some(g@));
                return Some(g);
            }
            assert(gateway_of_line(lv) is None);
        } else {
            assert(gateway_of_line(lv) is None);
        }
        i = i + 1;
    }
    proof {
        assert(lviews.skip(i as int).len() == 0);
    }
    return None;
}

/// The servers the resolver text names: the second field of every line
/// starting with `nameserver`.
pub open spec fn dns_of(lines: Seq<Seq<char>>) -> Seq<Seq<char>>
    decreases lines.len(),
{
    if lines.len() == 0 {
        Seq::empty()
    } else {
        let rest = dns_of(lines.drop_last());
        let l = lines.last();
        let fs = spec_fields(l);
        if starts_with_bytes(bytes_of(l), "nameserver".spec_bytes()) && fs.len() >= 2 {
            rest.push(fs[1])
        } else {
            rest
        }
    }
}

/// Read the name servers out of the resolver text.
pub fn get_dns_servers(text: &str) -> (r: Vec<String>)
    ensures
        r@.map_values(|x: String| x@) == dns_of(spec_lines(text@)),
{
    let lines = split_lines(text);
    let ghost lviews = lines@.map_values(|x: String| x@);
    let mut out: Vec<String> = Vec::new();
    let mut i: usize = 0;
    proof {
        assert(out@.map_values(|x: String| x@) =~= dns_of(lviews.take(0)));
    }
    while i < lines.len()
        invariant
            i <= lines@.len(),
            lviews == lines@.map_values(|x: String| x@),
            lviews == spec_lines(text@),
            out@.map_values(|x: String| x@) =~= dns_of(lviews.take(i as int)),
        decreases lines@.len() - i,
    {
        let ghost pre = out@.map_values(|x: String| x@);
        let ghost lv = lviews[i as int];
        proof {
            assert(lviews.take(i + 1).drop_last() =~= lviews.take(i as int));
            assert(lviews.take(i + 1).last() == lv);
        }
        let line = lines[i].as_str();
        if starts_with(line, "nameserver") {
            let fields = split_fields(line);
            if fields.len() >= 2 {
                let s = fields[1].clone();
                proof {
                    assert(spec_fields(lv)[1] == fields@[1]@);
                }
                out.push(s);
                proof {
                    assert(out@.map_values(|x: String| x@) =~= pre.push(out@.last()@));
                }
            }
        }
        i = i + 1;
    }
    proof {
        assert(lviews.take(i as int) =~= lviews);
    }
    out
}

// ---------- The wireless scan ----------

/// The running state of the wireless-scan parse: the networks already
/// finished, and the one being filled in.
pub ghost struct IwScan {
    pub done: Seq<WifiView>,
    pub current: Option<WifiView>,
}

/// A fresh network row, before any of its lines were seen.
pub open spec fn fresh_network() -> WifiView {
    WifiView { ssid: Seq::empty(), signal_strength: 0, security: Seq::empty(), frequency: None }
}

/// Finish the network being filled in, if any.
pub open spec fn iw_flush(st: IwScan) -> Seq<WifiView> {
    match st.current {
        Some(n) => st.done.push(n),
        None => st.done,
    }
}

/// One line of the scan output applied to the running state: a cell header
/// finishes the previous network and starts a fresh one; inside a cell the
/// name, quality and encryption lines fill the fields in.
pub open spec fn iw_line(st: IwScan, l: Seq<char>) -> IwScan {
    let t = spec_trim(l);
    if starts_with_bytes(bytes_of(t), "Cell ".spec_bytes()) {
        IwScan { done: iw_flush(st), current: Some(fresh_network()) }
    } else {
        match st.current {
            None => st,
            Some(n) => if starts_with_bytes(bytes_of(t), "ESSID:".spec_bytes()) && t.len() >= 6 {
                IwScan {
                    current: Some(WifiView { ssid: trim_quotes(t.skip(6)), ..n }),
                    ..st
                }
            } else if starts_with_bytes(bytes_of(t), "Quality=".spec_bytes()) && t.len() >= 1 {
                match quality_of(t) {
                    Some(q) => IwScan {
                        current: Some(WifiView { signal_strength: q, ..n }),
                        ..st
                    },
                    None => st,
                }
            } else if contains_bytes(bytes_of(t), "Encryption key:off".spec_bytes()) {
                IwScan { current: Some(WifiView { security: "Open"@, ..n }), ..st }
            } else if contains_bytes(bytes_of(t), "WPA".spec_bytes()) || contains_bytes(
                bytes_of(t),
                "WEP".spec_bytes(),
            ) {
                IwScan { current: Some(WifiView { security: "Secured"@, ..n }), ..st }
            } else {
                st
            },
        }
    }
}

/// The quality a quality line carries: the numerator of the first field's
/// `Quality=` value.
pub open spec fn quality_of(t: Seq<char>) -> Option<i32> {
    let fs = spec_fields(t);
    if fs.len() > 0 && fs[0].len() >= 8 {
        let q = fs[0];
        let num = q.skip(8).take(first_index(q.skip(8), '/'));
        num_i32(num)
    } else {
        None
    }
}

/// The scan state after all lines.
pub open spec fn iw_scan(lines: Seq<Seq<char>>) -> IwScan
    decreases lines.len(),
{
    if lines.len() == 0 {
        IwScan { done: Seq::empty(), current: None }
    } else {
        iw_line(iw_scan(lines.drop_last()), lines.last())
    }
}

/// The networks a wireless scan's output lists.
pub open spec fn iw_networks(text: Seq<char>) -> Seq<WifiView> {
    iw_flush(iw_scan(spec_lines(text)))
}

/// Parse the wireless scan tool's output into the networks it lists.
pub fn parse_iwlist_output(output: &str) -> (r: Vec<WiFiNetwork>)
    ensures
        wifi_views(r@) == iw_networks(output@),
{
    let lines = split_lines(output);
    let ghost lviews = lines@.map_values(|x: String| x@);
    let mut done: Vec<WiFiNetwork> = Vec::new();
    let mut current: Option<WiFiNetwork> = None;
    let mut i: usize = 0;
    proof {
        assert(lviews.take(0) =~= Seq::<Seq<char>>::empty());
    }
    while i < lines.len()
        invariant
            i <= lines@.len(),
            lviews == lines@.map_values(|x: String| x@),
            lviews == spec_lines(output@),
            ({
                let st = iw_scan(lviews.take(i as int));
                wifi_views(done@) == st.done && (match (current, st.current) {
                    (Some(c), Some(v)) => c@ == v,
                    (None, None) => true,
                    _ => false,
                })
            }),
        decreases lines@.len() - i,
    {
        let ghost lv = lviews[i as int];
        proof {
            assert(lviews.take(i + 1).drop_last() =~= lviews.take(i as int));
            assert(lviews.take(i + 1).last() == lv);
        }
        let ghost pre_done = wifi_views(done@);
        let t = trim_str(lines[i].as_str());
        let ts = t.as_str();
        if starts_with(ts, "Cell ") {
            match current {
                Some(n) => {
                    done.push(n);
                    proof {
                        assert(wifi_views(done@) =~= pre_done.push(done@.last()@));
                    }
                },
                None => {},
            }
            current = Some(
                WiFiNetwork {
                    ssid: String::from_str(""),
                    signal_strength: 0,
                    security: String::from_str(""),
                    frequency: None,
                },
            );
            proof {
                reveal_strlit("");
                assert(current.unwrap()@.ssid =~= Seq::<char>::empty());
                assert(current.unwrap()@.security =~= Seq::<char>::empty());
                assert(current.unwrap()@ == fresh_network());
            }
        } else {
            match current {
                None => {},
                Some(n) => {
                    if starts_with(ts, "ESSID:") && ts.unicode_len() >= 6 {
                        let len = ts.unicode_len();
                        let raw = ts.substring_char(6, len);
                        proof {
                            assert(raw@ =~= t@.skip(6));
                        }
                        let ssid = trim_quotes_str(raw);
                        current = Some(
                            WiFiNetwork {
                                ssid,
                                signal_strength: n.signal_strength,
                                security: n.security,
                                frequency: n.frequency,
                            },
                        );
                    } else if starts_with(ts, "Quality=") && ts.unicode_len() >= 1 {
                        let fields = split_fields(ts);
                        if fields.len() > 0 {
                            let q = fields[0].as_str();
                            proof {
                                assert(spec_fields(t@)[0] == fields@[0]@);
                            }
                            let qlen = q.unicode_len();
                            if qlen >= 8 {
                                let tail = q.substring_char(8, qlen);
                                proof {
                                    assert(tail@ =~= q@.skip(8));
                                }
                                let tlen = tail.unicode_len();
                                let mut k: usize = 0;
                                while k < tlen && tail.get_char(k) != '/'
                                    invariant
                                        k <= tlen,
                                        tlen == tail@.len(),
                                        forall|j: int| 0 <= j < k ==> tail@[j] != '/',
                                    decreases tlen - k,
                                {
                                    k = k + 1;
                                }
                                proof {
                                    crate::text::lemma_first_index(tail@, '/', k as int);
                                    assert(tail@.subrange(0, k as int) =~= tail@.take(k as int));
                                }
                                match parse_num_i32(tail.substring_char(0, k)) {
                                    Some(qv) => {
                                        current = Some(
                                            WiFiNetwork {
                                                ssid: n.ssid,
                                                signal_strength: qv,
                                                security: n.security,
                                                frequency: n.frequency,
                                            },
                                        );
                                    },
                                    None => {
                                        current = Some(n);
                                    },
                                }
                            } else {
                                current = Some(n);
                            }
                        } else {
                            current = Some(n);
                        }
                    } else if contains_sub(ts, "Encryption key:off") {
                        current = Some(
                            WiFiNetwork {
                                ssid: n.ssid,
                                signal_strength: n.signal_strength,
                                security: String::from_str("Open"),
                                frequency: n.frequency,
                            },
                        );
                    } else if contains_sub(ts, "WPA") || contains_sub(ts, "WEP") {
                        current = Some(
                            WiFiNetwork {
                                ssid: n.ssid,
                                signal_strength: n.signal_strength,
                                security: String::from_str("Secured"),
                                frequency: n.frequency,
                            },
                        );
                    } else {
                        current = Some(n);
                    }
                },
            }
        }
        i = i + 1;
    }
    proof {
        assert(lviews.take(i as int) =~= lviews);
    }
    match current {
        Some(n) => {
            let ghost pre_done = wifi_views(done@);
            done.push(n);
            proof {
                assert(wifi_views(done@) =~= pre_done.push(done@.last()@));
            }
        },
        None => {},
    }
    done
}

// ---------- Connection decisions ----------

/// A network with no security is open.
pub open spec fn is_open_network(n: WifiView) -> bool {
    n.security == Seq::<char>::empty() || n.security == "Open"@
}

/// Pick the open network with the strongest signal — of equals, the one the
/// scan listed last. `None` exactly when no open network was seen.
pub fn pick_best_open_network(networks: &Vec<WiFiNetwork>) -> (r: Option<usize>)
    ensures
        match r {
            Some(i) => {
                &&& i < networks@.len()
                &&& is_open_network(networks@[i as int]@)
                &&& forall|j: int|
                    0 <= j < networks@.len() && is_open_network(#[trigger] networks@[j]@)
                        ==> networks@[j]@.signal_strength <= networks@[i as int]@.signal_strength
                &&& forall|j: int|
                    i < j < networks@.len() && is_open_network(#[trigger] networks@[j]@)
                        ==> networks@[j]@.signal_strength < networks@[i as int]@.signal_strength
            },
            None => forall|j: int|
                0 <= j < networks@.len() ==> !is_open_network(#[trigger] networks@[j]@),
        },
{
    let mut best: Option<usize> = None;
    let mut i: usize = 0;
    while i < networks.len()
        invariant
            i <= networks@.len(),
            match best {
                Some(b) => {
                    &&& b < i
                    &&& is_open_network(networks@[b as int]@)
                    &&& forall|j: int|
                        0 <= j < i && is_open_network(#[trigger] networks@[j]@)
                            ==> networks@[j]@.signal_strength
                            <= networks@[b as int]@.signal_strength
                    &&& forall|j: int|
                        b < j < i && is_open_network(#[trigger] networks@[j]@)
                            ==> networks@[j]@.signal_strength
                            < networks@[b as int]@.signal_strength
                },
                None => forall|j: int|
                    0 <= j < i ==> !is_open_network(#[trigger] networks@[j]@),
            },
        decreases networks@.len() - i,
    {
        let n = &networks[i];
        let open = str_eq(n.security.as_str(), "") || str_eq(n.security.as_str(), "Open");
        proof {
            reveal_strlit("");
            assert(""@ =~= Seq::<char>::empty());
        }
        if open {
            match best {
                None => {
                    best = Some(i);
                },
                Some(b) => {
                    if networks[i].signal_strength >= networks[b].signal_strength {
                        best = Some(i);
                    }
                },
            }
        }
        i = i + 1;
    }
    best
}

/// One interface and the address the address query gave for it, when it gave
/// one.
#[derive(Clone, Debug)]
pub struct InterfaceAddr {
    pub name: String,
    pub ip: Option<String>,
}

/// An interface row usable as the local address: not the loopback, with an
/// address outside the loopback range.
pub open spec fn usable_addr(a: InterfaceAddr) -> bool {
    &&& a.name@ != "lo"@
    &&& a.ip matches Some(ip) && !starts_with_bytes(bytes_of(ip@), "127.".spec_bytes())
}

/// The first usable local address of the interface listing.
pub open spec fn local_ip_scan(rows: Seq<InterfaceAddr>) -> Option<Seq<char>>
    decreases rows.len(),
{
    if rows.len() == 0 {
        None
    } else if usable_addr(rows[0]) {
        Some(rows[0].ip.unwrap()@)
    } else {
        local_ip_scan(rows.drop_first())
    }
}

/// The first non-loopback address among the queried interfaces, in listing
/// order.
pub fn get_local_ip(rows: &Vec<InterfaceAddr>) -> (r: Option<String>)
    ensures
        match r {
            Some(ip) => local_ip_scan(rows@) == Some(ip@),
            None => local_ip_scan(rows@) is None,
        },
{
    let mut i: usize = 0;
    proof {
        assert(rows@.skip(0) =~= rows@);
    }
    while i < rows.len()
        invariant
            i <= rows@.len(),
            local_ip_scan(rows@) == local_ip_scan(rows@.skip(i as int)),
        decreases rows@.len() - i,
    {
        proof {
            assert(rows@.skip(i as int)[0] == rows@[i as int]);
            assert(rows@.skip(i as int).drop_first() =~= rows@.skip(i + 1));
        }
        let row = &rows[i];
        if !str_eq(row.name.as_str(), "lo") {
            match &row.ip {
                Some(ip) => {
                    if !starts_with(ip.as_str(), "127.") {
                        return Some(ip.clone());
                    }
                },
                None => {},
            }
        }
        i = i + 1;
    }
    proof {
        assert(rows@.skip(i as int).len() == 0);
    }
    return None;
}

} // verus!
