//! Local listening ports, and TCP port scans.
use std::collections::HashMap;
use vstd::prelude::*;
use crate::num::{all_digits, all_digits_v, decimal, decimal_string, parse_unsigned, parse_u16_v, Milli};
use crate::route::text;
use crate::text::{
    chars_of, contains, contains_lit, filter_map, lines, split_at_char, split_char,
    split_lines, split_words, starts_with, starts_with_lit, string_of, trim, trim_v, views, words,
};

verus! {

/// The ports a scan tries when none are chosen.
pub const COMMON_PORTS: [u16; 47] = [21, 22, 23, 25, 53, 80, 110, 111, 135, 139, 143, 443, 445, 465, 587, 993, 995, 1080, 1194, 1433, 1521, 2049, 2375, 3000, 3306, 3389, 4444, 5432, 5900, 6379, 6881, 7070, 8080, 8443, 8888, 9000, 9090, 9200, 10000, 11211, 27017, 27018, 50000, 51413, 52869, 55443, 60000];

/// A port a local service listens on.
pub struct ListeningPort {
    pub port: u16,
    pub protocol: String,
    pub state: String,
}

/// The mathematical value of a [`ListeningPort`].
pub struct ListeningView {
    pub port: u16,
    pub protocol: Seq<char>,
    pub state: Seq<char>,
}

impl View for ListeningPort {
    type V = ListeningView;

    open spec fn view(&self) -> ListeningView {
        ListeningView { port: self.port, protocol: self.protocol@, state: self.state@ }
    }
}

pub open spec fn listening_views(s: Seq<ListeningPort>) -> Seq<ListeningView> {
    s.map_values(|p: ListeningPort| p@)
}

/// The result of trying one port.
pub struct ScanResult {
    pub port: u16,
    pub service: String,
    pub state: String,
    pub response_ms: Option<Milli>,
}

/// How a connection attempt to a port ended.
pub enum ConnectOutcome {
    /// The address could not be resolved.
    Unresolved,
    /// The connection was made after the given time (thousandths of a millisecond).
    Open(Milli),
    /// The attempt timed out.
    TimedOut,
    /// The attempt failed in another way.
    Refused,
}

/// The well-known service on a port.
pub open spec fn service_label(port: u16) -> Option<Seq<char>> {
    match port {
        21u16 => Some("FTP"@),
        22u16 => Some("SSH"@),
        23u16 => Some("Telnet"@),
        25u16 => Some("SMTP"@),
        53u16 => Some("DNS"@),
        80u16 => Some("HTTP"@),
        110u16 => Some("POP3"@),
        111u16 => Some("RPC"@),
        135u16 => Some("MSRPC"@),
        139u16 => Some("NetBIOS"@),
        143u16 => Some("IMAP"@),
        443u16 => Some("HTTPS"@),
        445u16 => Some("SMB"@),
        465u16 => Some("SMTPS"@),
        587u16 => Some("SMTP Alt"@),
        993u16 => Some("IMAPS"@),
        995u16 => Some("POP3S"@),
        1080u16 => Some("SOCKS"@),
        1194u16 => Some("OpenVPN"@),
        1433u16 => Some("MSSQL"@),
        1521u16 => Some("Oracle"@),
        2049u16 => Some("NFS"@),
        2375u16 => Some("Docker"@),
        3000u16 => Some("Dev"@),
        3306u16 => Some("MySQL"@),
        3389u16 => Some("RDP"@),
        4444u16 => Some("Metasploit"@),
        5432u16 => Some("PostgreSQL"@),
        5900u16 => Some("VNC"@),
        6379u16 => Some("Redis"@),
        6881u16 => Some("BitTorrent"@),
        7070u16 => Some("RTSP"@),
        8080u16 => Some("HTTP Alt"@),
        8443u16 => Some("HTTPS Alt"@),
        8888u16 => Some("Jupyter"@),
        9000u16 => Some("PHP-FPM"@),
        9090u16 => Some("Prometheus"@),
        9200u16 => Some("Elasticsearch"@),
        10000u16 => Some("Webmin"@),
        11211u16 => Some("Memcached"@),
        27017u16 => Some("MongoDB"@),
        27018u16 => Some("MongoDB Alt"@),
        50000u16 => Some("SAP"@),
        51413u16 => Some("Transmission"@),
        52869u16 => Some("UPnP"@),
        55443u16 => Some("App Alt"@),
        60000u16 => Some("App Alt"@),
        _ => None,
    }
}

/// The service name shown for a port: its well-known service, or `TCP/<port>`.
pub open spec fn service_text(port: u16) -> Seq<char> {
    match service_label(port) {
        Some(s) => s,
        None => "TCP/"@ + decimal(port as nat),
    }
}

/// The state shown for a connection outcome.
pub open spec fn outcome_state(o: ConnectOutcome) -> Seq<char> {
    match o {
        ConnectOutcome::Unresolved => "ERRO"@,
        ConnectOutcome::Open(_) => "open"@,
        ConnectOutcome::TimedOut => "filtered"@,
        ConnectOutcome::Refused => "closed"@,
    }
}

/// The port of an address `host:port` (the text after the last colon).
pub open spec fn port_of_address(addr: Seq<char>) -> Option<nat> {
    parse_unsigned(split_at_char(addr, ':').last(), u16::MAX as nat)
}

/// The listening port a line of `netstat -ano` output shows, if any.
pub open spec fn windows_listen_line(raw: Seq<char>) -> Option<ListeningView> {
    let line = trim(raw);
    if !contains(line, "LISTEN"@) || words(line).len() < 2 {
        None
    } else {
        match port_of_address(words(line)[1]) {
            Some(p) => Some(
                ListeningView {
                    port: p as u16,
                    protocol: if starts_with(line, "TCP"@) {
                        "TCP"@
                    } else {
                        "UDP"@
                    },
                    state: "LISTEN"@,
                },
            ),
            None => None,
        }
    }
}

/// A line of `ss` output leads with a Netid column (`tcp`, `udp`, ...): its second
/// word is not the receive-queue count. `ss -tln4` prints no such column, so
/// there the line starts with the state and then the count.
pub open spec fn has_netid(parts: Seq<Seq<char>>) -> bool {
    !(parts[1].len() > 0 && all_digits(parts[1]))
}

/// The listening port a line of `ss -tln4` output shows, if any: the port of the
/// local address that follows the Recv-Q and Send-Q columns, whether or not a
/// Netid column leads the line. The protocol is the Netid where there is one, and
/// `tcp` (what `-t` lists) where there is none.
pub open spec fn linux_listen_line(raw: Seq<char>) -> Option<ListeningView> {
    let line = trim(raw);
    let parts = words(line);
    if line.len() == 0 || starts_with(line, "Netid"@) || starts_with(line, "ss:"@) || starts_with(
        line,
        "State"@,
    ) || parts.len() < 5 {
        None
    } else {
        let local = if has_netid(parts) {
            parts[4]
        } else {
            parts[3]
        };
        match port_of_address(local) {
            Some(p) => Some(
                ListeningView {
                    port: p as u16,
                    protocol: if has_netid(parts) {
                        parts[0]
                    } else {
                        "tcp"@
                    },
                    state: "LISTEN"@,
                },
            ),
            None => None,
        }
    }
}

pub open spec fn listen_line(windows: bool) -> spec_fn(Seq<char>) -> Option<ListeningView> {
    |l: Seq<char>|
        if windows {
            windows_listen_line(l)
        } else {
            linux_listen_line(l)
        }
}

/// Every entry the output lists, in order, repeats included.
pub open spec fn listen_entries(output: Seq<char>, windows: bool) -> Seq<ListeningView> {
    filter_map(lines(output), listen_line(windows))
}

/// `e` is the first entry of `s` with its port.
pub open spec fn first_with_port(s: Seq<ListeningView>, e: ListeningView) -> bool {
    exists|k: int|
        0 <= k < s.len() && s[k] == e && forall|m: int| 0 <= m < k ==> s[m].port != e.port
}

/// `r` holds, in ascending port order, the first entry of `s` for each port it lists.
pub open spec fn sorted_first_entries(r: Seq<ListeningView>, s: Seq<ListeningView>) -> bool {
    &&& forall|i: int, j: int| 0 <= i < j < r.len() ==> r[i].port < r[j].port
    &&& forall|i: int| 0 <= i < r.len() ==> first_with_port(s, #[trigger] r[i])
    &&& forall|k: int| 0 <= k < s.len() ==> has_port(r, #[trigger] s[k].port)
}

/// Some entry of `r` has port `p`.
pub open spec fn has_port(r: Seq<ListeningView>, p: u16) -> bool {
    exists|i: int| 0 <= i < r.len() && r[i].port == p
}

// ---------------------------------------------------------------------------

/// The map holds the well-known services: a name for exactly the ports that
/// [`service_label`] names, and that name.
pub open spec fn is_service_map(m: Map<u16, &'static str>) -> bool {
    forall|p: u16|
        #![trigger m.contains_key(p)]
        #![trigger service_label(p)]
        (m.contains_key(p) <==> service_label(p) is Some) && (m.contains_key(p) ==> service_label(p)
            == Some(m[p]@))
}

/// The well-known services, by port.
pub fn build_service_map() -> (m: HashMap<u16, &'static str>)
    ensures
        is_service_map(m@),
{
    broadcast use vstd::std_specs::hash::group_hash_axioms;

    let mut m: HashMap<u16, &'static str> = HashMap::new();
    m.insert(21, "FTP");
    m.insert(22, "SSH");
    m.insert(23, "Telnet");
    m.insert(25, "SMTP");
    m.insert(53, "DNS");
    m.insert(80, "HTTP");
    m.insert(110, "POP3");
    m.insert(111, "RPC");
    m.insert(135, "MSRPC");
    m.insert(139, "NetBIOS");
    m.insert(143, "IMAP");
    m.insert(443, "HTTPS");
    m.insert(445, "SMB");
    m.insert(465, "SMTPS");
    m.insert(587, "SMTP Alt");
    m.insert(993, "IMAPS");
    m.insert(995, "POP3S");
    m.insert(1080, "SOCKS");
    m.insert(1194, "OpenVPN");
    m.insert(1433, "MSSQL");
    m.insert(1521, "Oracle");
    m.insert(2049, "NFS");
    m.insert(2375, "Docker");
    m.insert(3000, "Dev");
    m.insert(3306, "MySQL");
    m.insert(3389, "RDP");
    m.insert(4444, "Metasploit");
    m.insert(5432, "PostgreSQL");
    m.insert(5900, "VNC");
    m.insert(6379, "Redis");
    m.insert(6881, "BitTorrent");
    m.insert(7070, "RTSP");
    m.insert(8080, "HTTP Alt");
    m.insert(8443, "HTTPS Alt");
    m.insert(8888, "Jupyter");
    m.insert(9000, "PHP-FPM");
    m.insert(9090, "Prometheus");
    m.insert(9200, "Elasticsearch");
    m.insert(10000, "Webmin");
    m.insert(11211, "Memcached");
    m.insert(27017, "MongoDB");
    m.insert(27018, "MongoDB Alt");
    m.insert(50000, "SAP");
    m.insert(51413, "Transmission");
    m.insert(52869, "UPnP");
    m.insert(55443, "App Alt");
    m.insert(60000, "App Alt");
    m
}

/// The ports a scan tries when none are chosen.
pub fn get_port_list() -> (r: Vec<u16>)
    ensures
        r@ == COMMON_PORTS@,
{
    let mut r: Vec<u16> = Vec::new();
    for i in 0..COMMON_PORTS.len()
        invariant
            r@ == COMMON_PORTS@.take(i as int),
    {
        r.push(COMMON_PORTS[i]);
        assert(r@ =~= COMMON_PORTS@.take(i + 1));
    }
    assert(COMMON_PORTS@.take(COMMON_PORTS.len() as int) =~= COMMON_PORTS@);
    r
}

/// The service name shown for a port: the name the map holds for it, or
/// `TCP/<port>`.
pub fn service_name(port: u16, map: &HashMap<u16, &'static str>) -> (s: String)
    requires
        is_service_map(map@),
    ensures
        s@ == service_text(port),
{
    broadcast use vstd::std_specs::hash::group_hash_axioms;

    match map.get(&port) {
        Some(l) => text(*l),
        None => {
            let mut s = text("TCP/");
            let n = decimal_string(port as u64);
            s.append(n.as_str());
            s
        },
    }
}

/// The result of trying a port, from how the connection attempt ended.
pub fn scan_result(port: u16, outcome: ConnectOutcome, services: &HashMap<u16, &'static str>) -> (r: ScanResult)
    requires
        is_service_map(services@),
    ensures
        r.port == port,
        r.service@ == service_text(port),
        r.state@ == outcome_state(outcome),
        r.response_ms == match outcome {
            ConnectOutcome::Open(ms) => Some(ms),
            _ => None::<Milli>,
        },
{
    let service = service_name(port, services);
    match outcome {
        ConnectOutcome::Unresolved => ScanResult { port, service, state: text("ERRO"), response_ms: None },
        ConnectOutcome::Open(ms) => ScanResult { port, service, state: text("open"), response_ms: Some(ms) },
        ConnectOutcome::TimedOut => ScanResult { port, service, state: text("filtered"), response_ms: None },
        ConnectOutcome::Refused => ScanResult { port, service, state: text("closed"), response_ms: None },
    }
}

fn copy_port(p: &ListeningPort) -> (r: ListeningPort)
    ensures
        r@ == p@,
{
    ListeningPort {
        port: p.port,
        protocol: string_of(&chars_of(p.protocol.as_str())),
        state: string_of(&chars_of(p.state.as_str())),
    }
}

/// The port of an address `host:port`.
fn port_of_address_v(addr: &Vec<char>) -> (r: Option<u16>)
    ensures
        match r {
            Some(p) => port_of_address(addr@) == Some(p as nat),
            None => port_of_address(addr@) is None,
        },
{
    let pieces = split_char(addr, ':');
    let ghost pv = views(pieces@);
    assert(pv.len() > 0) by {
        crate::text::lemma_pieces_nonempty(addr@, ':', seq![]);
    }
    parse_u16_v(&pieces[pieces.len() - 1])
}

fn listen_line_v(raw: &Vec<char>, windows: bool) -> (r: Option<ListeningPort>)
    ensures
        match r {
            Some(p) => (listen_line(windows))(raw@) == Some(p@),
            None => (listen_line(windows))(raw@) is None,
        },
{
    let line = trim_v(raw);
    let parts = split_words(&line);
    let ghost ps = views(parts@);
    if windows {
        if !contains_lit(&line, "LISTEN") || parts.len() < 2 {
            return None;
        }
        match port_of_address_v(&parts[1]) {
            Some(p) => Some(
                ListeningPort {
                    port: p,
                    protocol: if starts_with_lit(&line, "TCP") {
                        text("TCP")
                    } else {
                        text("UDP")
                    },
                    state: text("LISTEN"),
                },
            ),
            None => None,
        }
    } else {
        if line.len() == 0 || starts_with_lit(&line, "Netid") || starts_with_lit(&line, "ss:")
            || starts_with_lit(&line, "State") || parts.len() < 5 {
            return None;
        }
        let netid = !(parts[1].len() > 0 && all_digits_v(&parts[1]));
        let local = if netid { 4 } else { 3 };
        match port_of_address_v(&parts[local]) {
            Some(p) => Some(
                ListeningPort {
                    port: p,
                    protocol: if netid {
                        string_of(&parts[0])
                    } else {
                        text("tcp")
                    },
                    state: text("LISTEN"),
                },
            ),
            None => None,
        }
    }
}

/// Keeps, in ascending port order, the first entry for each port.
#[verifier::spinoff_prover]
#[verifier::rlimit(40)]
fn sort_first_by_port(entries: &Vec<ListeningPort>) -> (r: Vec<ListeningPort>)
    ensures
        sorted_first_entries(listening_views(r@), listening_views(entries@)),
{
    let ghost sv = listening_views(entries@);
    let mut out: Vec<ListeningPort> = Vec::new();
    let mut i: usize = 0;
    while i < entries.len()
        invariant
            i <= entries.len(),
            sv == listening_views(entries@),
            forall|a: int, b: int|
                0 <= a < b < out@.len() ==> (#[trigger] out@[a]).port < (#[trigger] out@[b]).port,
            forall|a: int|
                0 <= a < out@.len() ==> exists|k: int|
                    0 <= k < i && sv[k] == (#[trigger] out@[a])@ && forall|m: int|
                        0 <= m < k ==> sv[m].port != out@[a].port,
            forall|k: int|
                0 <= k < i ==> exists|a: int|
                    0 <= a < out@.len() && (#[trigger] out@[a]).port == #[trigger] sv[k].port,
        decreases entries.len() - i,
    {
        let e = &entries[i];
        let mut pos: usize = 0;
        while pos < out.len() && out[pos].port < e.port
            invariant
                pos <= out@.len(),
                forall|a: int| 0 <= a < pos ==> (#[trigger] out@[a]).port < e.port,
            decreases out.len() - pos,
        {
            pos += 1;
        }
        let present = pos < out.len() && out[pos].port == e.port;
        if !present {
            proof {
                // Every kept port differs from `e.port`.
                assert forall|a: int| 0 <= a < out@.len() implies (#[trigger] out@[a]).port != e.port by {
                    if a >= pos {
                        if a > pos {
                            assert(out@[pos as int].port < out@[a].port);
                        }
                    }
                }
                // So no earlier entry has `e.port`.
                assert forall|m: int| 0 <= m < i implies sv[m].port != e.port by {
                    let a = choose|a: int| 0 <= a < out@.len() && (#[trigger] out@[a]).port == sv[m].port;
                    assert(out@[a].port != e.port);
                }
            }
            let ghost before = out@;
            let c = copy_port(e);
            out.insert(pos, c);
            proof {
                assert(out@ == before.insert(pos as int, c));
                assert forall|a: int, b: int|
                    0 <= a < b < out@.len() implies (#[trigger] out@[a]).port < (#[trigger] out@[b]).port by {
                    if a < pos && b == pos {
                    } else if a < pos && b > pos {
                        assert(out@[b] == before[b - 1]);
                        if a < b - 1 {
                            assert(before[a].port < before[b - 1].port);
                        }
                    } else if a == pos {
                        assert(out@[b] == before[b - 1]);
                    } else if a > pos {
                        assert(out@[a] == before[a - 1]);
                        assert(out@[b] == before[b - 1]);
                        assert(before[a - 1].port < before[b - 1].port);
                    } else {
                        assert(before[a].port < before[b].port);
                    }
                }
                assert forall|a: int| 0 <= a < out@.len() implies exists|k: int|
                    0 <= k < i + 1 && sv[k] == (#[trigger] out@[a])@ && forall|m: int|
                        0 <= m < k ==> sv[m].port != out@[a].port by {
                    if a == pos {
                        assert(sv[i as int] == out@[a]@);
                    } else if a < pos {
                        assert(out@[a] == before[a]);
                    } else {
                        assert(out@[a] == before[a - 1]);
                    }
                }
                assert forall|k: int| 0 <= k < i + 1 implies exists|a: int|
                    0 <= a < out@.len() && (#[trigger] out@[a]).port == #[trigger] sv[k].port by {
                    if k == i {
                        assert(out@[pos as int].port == sv[k].port);
                    } else {
                        let a = choose|a: int| 0 <= a < before.len() && (#[trigger] before[a]).port == sv[k].port;
                        if a < pos {
                            assert(out@[a] == before[a]);
                        } else {
                            assert(out@[a + 1] == before[a]);
                        }
                    }
                }
            }
        } else {
            proof {
                assert(out@[pos as int].port == sv[i as int].port);
            }
        }
        i += 1;
    }
    proof {
        let r = listening_views(out@);
        assert forall|i: int, j: int| 0 <= i < j < r.len() implies r[i].port < r[j].port by {
            assert(out@[i].port < out@[j].port);
        }
        assert forall|i: int| 0 <= i < r.len() implies first_with_port(sv, #[trigger] r[i]) by {
            let k = choose|k: int|
                0 <= k < entries@.len() && sv[k] == (#[trigger] out@[i])@ && forall|m: int|
                    0 <= m < k ==> sv[m].port != out@[i].port;
            assert(sv[k] == r[i]);
        }
        assert forall|k: int| 0 <= k < sv.len() implies has_port(r, #[trigger] sv[k].port) by {
            let a = choose|a: int| 0 <= a < out@.len() && (#[trigger] out@[a]).port == sv[k].port;
            assert(r[a].port == sv[k].port);
        }
    }
    out
}

/// Reads the ports local services listen on from `netstat -ano` output (Windows)
/// or `ss -tln4` output (elsewhere): one entry per port, the first one listed,
/// in ascending port order.
pub fn parse_listening_ports(output: &str, windows: bool) -> (r: Result<Vec<ListeningPort>, String>)
    ensures
        r matches Ok(ps) && sorted_first_entries(listening_views(ps@), listen_entries(output@, windows)),
{
    let v = chars_of(output);
    let ls = split_lines(&v);
    let ghost lv = views(ls@);
    let ghost f = listen_line(windows);
    let mut entries: Vec<ListeningPort> = Vec::new();
    for i in 0..ls.len()
        invariant
            lv == views(ls@),
            lv == lines(output@),
            f == listen_line(windows),
            listening_views(entries@) == filter_map(lv.take(i as int), f),
    {
        assert(lv.take(i + 1).drop_last() =~= lv.take(i as int));
        let ghost before = listening_views(entries@);
        let r = listen_line_v(&ls[i], windows);
        match r {
            Some(p) => {
                entries.push(p);
                assert(listening_views(entries@) =~= before + seq![entries@.last()@]);
            },
            None => {},
        }
    }
    assert(lv.take(ls.len() as int) =~= lv);
    Ok(sort_first_by_port(&entries))
}

} // verus!
