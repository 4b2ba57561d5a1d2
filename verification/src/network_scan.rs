//! Local network scans: the subnet to scan, the tables and command outputs a
//! scan reads, and the assembly of its result.
use vstd::prelude::*;
use crate::num::{parse_milli, parse_milli_v, parse_unsigned, parse_u8_v, parse_u16_v, Milli};
use crate::route::{opt_view, text};
use crate::text::{
    char_pred, chars_of, contains, contains_lit, filter_map, find, find_lit, is_digit, is_digit_char, join,
    join_range, lines, same_as, slice_of, split_at_char, split_char, split_lines, split_words,
    string_of, trim, trim_end_by, trim_end_char, trim_v, views, words,
};

verus! {

/// The ports a network scan tries on each host that is up.
pub const SCAN_PORTS: [u16; 5] = [22, 80, 443, 3389, 8080];

/// A host found on the local network.
pub struct NetworkHost {
    pub ip: String,
    pub hostname: Option<String>,
    pub mac: Option<String>,
    pub vendor: Option<String>,
    pub latency_ms: Option<Milli>,
    pub is_gateway: bool,
    pub open_ports: Vec<u16>,
}

/// The mathematical value of a [`NetworkHost`].
pub struct HostView {
    pub ip: Seq<char>,
    pub hostname: Option<Seq<char>>,
    pub mac: Option<Seq<char>>,
    pub vendor: Option<Seq<char>>,
    pub latency_ms: Option<Milli>,
    pub is_gateway: bool,
    pub open_ports: Seq<u16>,
}

impl View for NetworkHost {
    type V = HostView;

    open spec fn view(&self) -> HostView {
        HostView {
            ip: self.ip@,
            hostname: opt_view(self.hostname),
            mac: opt_view(self.mac),
            vendor: opt_view(self.vendor),
            latency_ms: self.latency_ms,
            is_gateway: self.is_gateway,
            open_ports: self.open_ports@,
        }
    }
}

pub open spec fn host_views(s: Seq<NetworkHost>) -> Seq<HostView> {
    s.map_values(|h: NetworkHost| h@)
}

/// The result of a network scan.
pub struct NetworkScanResult {
    pub subnet: String,
    pub total_hosts: u16,
    pub hosts_up: u16,
    pub scan_duration_secs: Milli,
    pub hosts: Vec<NetworkHost>,
}

// ---------------------------------------------------------------------------
// Vendors

/// The vendor of a MAC address prefix (upper case, `XX:XX:XX`).
pub open spec fn oui_vendor(prefix: Seq<char>) -> Option<Seq<char>> {
    if prefix == "00:50:56"@ || prefix == "00:0C:29"@ {
        Some("VMware"@)
    } else if prefix == "B8:27:EB"@ || prefix == "DC:A6:32"@ {
        Some("Raspberry Pi"@)
    } else if prefix == "FC:AA:14"@ {
        Some("Amazon"@)
    } else if prefix == "00:1A:11"@ {
        Some("Google"@)
    } else if prefix == "AC:DE:48"@ || prefix == "3C:22:FB"@ || prefix == "00:1B:63"@ {
        Some("Apple"@)
    } else if prefix == "00:11:32"@ {
        Some("Synology"@)
    } else if prefix == "00:17:88"@ {
        Some("Philips Hue"@)
    } else if prefix == "B4:E6:2D"@ || prefix == "DC:9F:DB"@ || prefix == "78:8A:20"@ {
        Some("Ubiquiti"@)
    } else if prefix == "00:18:0A"@ || prefix == "50:C7:BF"@ {
        Some("TP-Link"@)
    } else if prefix == "00:50:43"@ || prefix == "00:1E:13"@ {
        Some("Cisco"@)
    } else {
        None
    }
}

pub open spec fn ascii_upper(c: char) -> char {
    if 'a' <= c <= 'z' {
        ((c as u32) - 32) as char
    } else {
        c
    }
}

/// The vendor of a MAC address, by its first eight characters in upper case.
pub open spec fn vendor_of(mac: Seq<char>) -> Option<Seq<char>> {
    if mac.len() < 8 {
        None
    } else {
        oui_vendor(mac.take(8).map_values(|c: char| ascii_upper(c)))
    }
}

fn oui_vendor_v(p: &Vec<char>) -> (r: Option<&'static str>)
    ensures
        match r {
            Some(s) => oui_vendor(p@) == Some(s@),
            None => oui_vendor(p@) is None,
        },
{
    if same_as(p, "00:50:56") || same_as(p, "00:0C:29") {
        Some("VMware")
    } else if same_as(p, "B8:27:EB") || same_as(p, "DC:A6:32") {
        Some("Raspberry Pi")
    } else if same_as(p, "FC:AA:14") {
        Some("Amazon")
    } else if same_as(p, "00:1A:11") {
        Some("Google")
    } else if same_as(p, "AC:DE:48") || same_as(p, "3C:22:FB") || same_as(p, "00:1B:63") {
        Some("Apple")
    } else if same_as(p, "00:11:32") {
        Some("Synology")
    } else if same_as(p, "00:17:88") {
        Some("Philips Hue")
    } else if same_as(p, "B4:E6:2D") || same_as(p, "DC:9F:DB") || same_as(p, "78:8A:20") {
        Some("Ubiquiti")
    } else if same_as(p, "00:18:0A") || same_as(p, "50:C7:BF") {
        Some("TP-Link")
    } else if same_as(p, "00:50:43") || same_as(p, "00:1E:13") {
        Some("Cisco")
    } else {
        None
    }
}

fn upper(c: char) -> (r: char)
    ensures
        r == ascii_upper(c),
{
    if 'a' <= c && c <= 'z' {
        ((c as u8) - 32) as char
    } else {
        c
    }
}

/// The vendor of a MAC address, by its prefix.
pub fn identify_vendor(mac: &str) -> (r: Option<String>)
    ensures
        opt_view(r) == vendor_of(mac@),
{
    let m = chars_of(mac);
    if m.len() < 8 {
        return None;
    }
    let mut p: Vec<char> = Vec::new();
    for i in 0..8
        invariant
            m@.len() >= 8,
            p@ == m@.take(i as int).map_values(|c: char| ascii_upper(c)),
    {
        p.push(upper(m[i]));
        assert(p@ =~= m@.take(i + 1).map_values(|c: char| ascii_upper(c)));
    }
    match oui_vendor_v(&p) {
        Some(v) => Some(text(v)),
        None => None,
    }
}

// ---------------------------------------------------------------------------
// Subnets

/// Four pieces that each read as a `u8`.
pub open spec fn is_dotted_quad(parts: Seq<Seq<char>>) -> bool {
    parts.len() == 4 && forall|i: int|
        0 <= i < 4 ==> parse_unsigned(#[trigger] parts[i], u8::MAX as nat) is Some
}

/// The first three octets of an address, joined by dots.
pub open spec fn three_octets(parts: Seq<Seq<char>>) -> Seq<char> {
    join(parts.take(3), "."@)
}

pub open spec fn invalid_subnet() -> Seq<char> {
    "Sub-rede inválida. Use o formato 192.168.1.0/24"@
}

/// The `/24` base and prefix named by a subnet argument.
pub open spec fn subnet_of_text(raw: Seq<char>) -> Result<(Seq<char>, u8), Seq<char>> {
    let s = trim(raw);
    match find(s, "/"@) {
        Some(pos) => {
            let base = trim_end_by(s.take(pos), char_pred('.'));
            match parse_unsigned(s.skip(pos + 1), u8::MAX as nat) {
                None => Err("Prefixo CIDR inválido"@),
                Some(prefix) => {
                    let parts = split_at_char(base, '.');
                    if is_dotted_quad(parts) {
                        Ok((three_octets(parts), prefix as u8))
                    } else {
                        Err(invalid_subnet())
                    }
                },
            }
        },
        None => {
            let parts = split_at_char(s, '.');
            if is_dotted_quad(parts) {
                Ok((three_octets(parts), 24u8))
            } else {
                Err(invalid_subnet())
            }
        },
    }
}

/// The `/24` base of the first route whose text before `/` is an address.
pub open spec fn subnet_of_routes(ls: Seq<Seq<char>>) -> Result<(Seq<char>, u8), Seq<char>>
    decreases ls.len(),
{
    if ls.len() == 0 {
        Err("Nao foi possivel detectar a subnet automaticamente"@)
    } else {
        let line = trim(ls[0]);
        let found = match find(line, "/"@) {
            Some(pos) => {
                let parts = split_at_char(trim(line.take(pos)), '.');
                if is_dotted_quad(parts) {
                    Some(three_octets(parts))
                } else {
                    None
                }
            },
            None => None,
        };
        match found {
            Some(b) => Ok((b, 24u8)),
            None => subnet_of_routes(ls.drop_first()),
        }
    }
}

pub open spec fn subnet_choice(subnet: Option<Seq<char>>, routes: Seq<char>) -> Result<
    (Seq<char>, u8),
    Seq<char>,
> {
    match subnet {
        Some(s) => subnet_of_text(s),
        None => subnet_of_routes(lines(routes)),
    }
}

fn is_dotted_quad_v(parts: &Vec<Vec<char>>) -> (r: bool)
    ensures
        r == is_dotted_quad(views(parts@)),
{
    if parts.len() != 4 {
        return false;
    }
    let ghost ps = views(parts@);
    for i in 0..4
        invariant
            parts.len() == 4,
            ps == views(parts@),
            forall|j: int| 0 <= j < i ==> parse_unsigned(#[trigger] ps[j], u8::MAX as nat) is Some,
    {
        if parse_u8_v(&parts[i]).is_none() {
            assert(parse_unsigned(ps[i as int], u8::MAX as nat) is None);
            return false;
        }
    }
    true
}

fn subnet_of_text_v(raw: &Vec<char>) -> (r: Result<(String, u8), String>)
    ensures
        match r {
            Ok((b, p)) => subnet_of_text(raw@) == Ok::<(Seq<char>, u8), Seq<char>>((b@, p)),
            Err(e) => subnet_of_text(raw@) == Err::<(Seq<char>, u8), Seq<char>>(e@),
        },
{
    let s = trim_v(raw);
    proof {
        reveal_strlit("/");
    }
    match find_lit(&s, "/") {
        Some(pos) => {
            proof {
                crate::text::lemma_find(s@, "/"@);
            }
            assert(pos + 1 <= s.len());
            let head = slice_of(&s, 0, pos);
            assert(head@ =~= s@.take(pos as int));
            let base = trim_end_char(&head, '.');
            let tail = slice_of(&s, pos + 1, s.len());
            assert(tail@ =~= s@.skip(pos + 1));
            match parse_u8_v(&tail) {
                None => Err(text("Prefixo CIDR inválido")),
                Some(prefix) => {
                    let parts = split_char(&base, '.');
                    if is_dotted_quad_v(&parts) {
                        let b = join_range(&parts, 0, 3, ".");
                        assert(views(parts@).subrange(0, 3) =~= views(parts@).take(3));
                        Ok((string_of(&b), prefix))
                    } else {
                        Err(text("Sub-rede inválida. Use o formato 192.168.1.0/24"))
                    }
                },
            }
        },
        None => {
            let parts = split_char(&s, '.');
            if is_dotted_quad_v(&parts) {
                let b = join_range(&parts, 0, 3, ".");
                assert(views(parts@).subrange(0, 3) =~= views(parts@).take(3));
                Ok((string_of(&b), 24))
            } else {
                Err(text("Sub-rede inválida. Use o formato 192.168.1.0/24"))
            }
        },
    }
}

fn subnet_of_routes_v(ls: &Vec<Vec<char>>) -> (r: Result<(String, u8), String>)
    ensures
        match r {
            Ok((b, p)) => subnet_of_routes(views(ls@)) == Ok::<(Seq<char>, u8), Seq<char>>(
                (b@, p),
            ),
            Err(e) => subnet_of_routes(views(ls@)) == Err::<(Seq<char>, u8), Seq<char>>(e@),
        },
{
    let ghost lv = views(ls@);
    let mut i: usize = 0;
    assert(lv.skip(0) =~= lv);
    proof {
        reveal_strlit("/");
    }
    while i < ls.len()
        invariant
            i <= ls.len(),
            lv == views(ls@),
            subnet_of_routes(lv) == subnet_of_routes(lv.skip(i as int)),
            "/"@.len() == 1,
        decreases ls.len() - i,
    {
        assert(lv.skip(i as int).drop_first() =~= lv.skip(i + 1));
        let line = trim_v(&ls[i]);
        match find_lit(&line, "/") {
            Some(pos) => {
                proof {
                    crate::text::lemma_find(line@, "/"@);
                }
                let head = slice_of(&line, 0, pos);
                assert(head@ =~= line@.take(pos as int));
                let parts = split_char(&trim_v(&head), '.');
                if is_dotted_quad_v(&parts) {
                    let b = join_range(&parts, 0, 3, ".");
                    assert(views(parts@).subrange(0, 3) =~= views(parts@).take(3));
                    return Ok((string_of(&b), 24));
                }
            },
            None => {},
        }
        i += 1;
    }
    assert(lv.skip(i as int) =~= seq![]);
    Err(text("Nao foi possivel detectar a subnet automaticamente"))
}

/// The `/24` base (first three octets) and the prefix of the subnet to scan: from
/// the argument when one is given, else from the routing table `routes`
/// (`ip route show` output).
pub fn detect_subnet(subnet: Option<String>, routes: &str) -> (r: Result<(String, u8), String>)
    ensures
        match r {
            Ok((b, p)) => subnet_choice(opt_view(subnet), routes@) == Ok::<(Seq<char>, u8), Seq<char>>(
                (b@, p),
            ),
            Err(e) => subnet_choice(opt_view(subnet), routes@) == Err::<(Seq<char>, u8), Seq<char>>(
                e@,
            ),
        },
{
    match subnet {
        Some(s) => {
            let v = chars_of(s.as_str());
            subnet_of_text_v(&v)
        },
        None => {
            let v = chars_of(routes);
            let ls = split_lines(&v);
            subnet_of_routes_v(&ls)
        },
    }
}

// ---------------------------------------------------------------------------
// Command outputs

/// The gateway of the default route, from the first line of `ip route show default`.
pub open spec fn default_gateway(routes: Seq<char>) -> Option<Seq<char>> {
    let ls = lines(routes);
    if ls.len() == 0 {
        None
    } else {
        let parts = words(ls[0]);
        if parts.len() >= 5 && parts[0] == "default"@ {
            Some(parts[2])
        } else {
            None
        }
    }
}

/// The gateway of the default route, from `ip route show default` output.
pub fn default_gateway_from_routes(routes: &str) -> (r: Option<String>)
    ensures
        opt_view(r) == default_gateway(routes@),
{
    let v = chars_of(routes);
    let ls = split_lines(&v);
    if ls.len() == 0 {
        return None;
    }
    let parts = split_words(&ls[0]);
    if parts.len() >= 5 && same_as(&parts[0], "default") {
        Some(string_of(&parts[2]))
    } else {
        None
    }
}

/// A name with its final dots removed, when something is left.
pub open spec fn clean_name(raw: Seq<char>) -> Option<Seq<char>> {
    let n = trim_end_by(trim(raw), char_pred('.'));
    if n.len() > 0 {
        Some(n)
    } else {
        None
    }
}

/// The name `host` reports for an address: after `domain name pointer`.
pub open spec fn host_name_in(ls: Seq<Seq<char>>) -> Option<Seq<char>>
    decreases ls.len(),
{
    if ls.len() == 0 {
        None
    } else {
        let found = match find(ls[0], "domain name pointer"@) {
            Some(pos) => clean_name(ls[0].skip(pos + 19)),
            None => None,
        };
        match found {
            Some(n) => Some(n),
            None => host_name_in(ls.drop_first()),
        }
    }
}

/// The name `nslookup` reports for an address: after `Name:`.
pub open spec fn nslookup_name_in(ls: Seq<Seq<char>>) -> Option<Seq<char>>
    decreases ls.len(),
{
    if ls.len() == 0 {
        None
    } else {
        let found = if contains(ls[0], "Name:"@) && split_at_char(ls[0], ':').len() > 1 {
            clean_name(split_at_char(ls[0], ':')[1])
        } else {
            None
        };
        match found {
            Some(n) => Some(n),
            None => nslookup_name_in(ls.drop_first()),
        }
    }
}

fn clean_name_v(raw: &Vec<char>) -> (r: Option<Vec<char>>)
    ensures
        match r {
            Some(n) => clean_name(raw@) == Some(n@),
            None => clean_name(raw@) is None,
        },
{
    let n = trim_end_char(&trim_v(raw), '.');
    if n.len() > 0 {
        Some(n)
    } else {
        None
    }
}

/// The host name in the output of `host <address>`.
pub fn hostname_from_host_output(output: &str) -> (r: Option<String>)
    ensures
        opt_view(r) == host_name_in(lines(output@)),
{
    let v = chars_of(output);
    let ls = split_lines(&v);
    let ghost lv = views(ls@);
    let mut i: usize = 0;
    assert(lv.skip(0) =~= lv);
    proof {
        reveal_strlit("domain name pointer");
    }
    while i < ls.len()
        invariant
            i <= ls.len(),
            lv == views(ls@),
            lv == lines(output@),
            host_name_in(lv) == host_name_in(lv.skip(i as int)),
            "domain name pointer"@.len() == 19,
        decreases ls.len() - i,
    {
        assert(lv.skip(i as int).drop_first() =~= lv.skip(i + 1));
        let line = &ls[i];
        match find_lit(line, "domain name pointer") {
            Some(pos) => {
                proof {
                    crate::text::lemma_find(line@, "domain name pointer"@);
                }
                let rest = slice_of(line, pos + 19, line.len());
                assert(rest@ =~= line@.skip(pos + 19));
                match clean_name_v(&rest) {
                    Some(n) => {
                        return Some(string_of(&n));
                    },
                    None => {},
                }
            },
            None => {},
        }
        i += 1;
    }
    assert(lv.skip(i as int) =~= seq![]);
    None
}

/// The host name in the output of `nslookup <address>`.
pub fn hostname_from_nslookup_output(output: &str) -> (r: Option<String>)
    ensures
        opt_view(r) == nslookup_name_in(lines(output@)),
{
    let v = chars_of(output);
    let ls = split_lines(&v);
    let ghost lv = views(ls@);
    let mut i: usize = 0;
    assert(lv.skip(0) =~= lv);
    while i < ls.len()
        invariant
            i <= ls.len(),
            lv == views(ls@),
            lv == lines(output@),
            nslookup_name_in(lv) == nslookup_name_in(lv.skip(i as int)),
        decreases ls.len() - i,
    {
        assert(lv.skip(i as int).drop_first() =~= lv.skip(i + 1));
        let line = &ls[i];
        if contains_lit(line, "Name:") {
            let pieces = split_char(line, ':');
            if pieces.len() > 1 {
                match clean_name_v(&pieces[1]) {
                    Some(n) => {
                        return Some(string_of(&n));
                    },
                    None => {},
                }
            }
        }
        i += 1;
    }
    assert(lv.skip(i as int) =~= seq![]);
    None
}

/// The latency a single ping shows: the first line with the marker (and its end)
/// decides, even when its value does not read as a number.
pub open spec fn ping_latency_in(ls: Seq<Seq<char>>, windows: bool) -> Option<nat>
    decreases ls.len(),
{
    if ls.len() == 0 {
        None
    } else {
        let line = ls[0];
        let w1 = if windows {
            match find(line, "tempo="@) {
                Some(pos) => {
                    let rest = line.skip(pos + 6);
                    match find(rest, "m"@) {
                        Some(e) => Some(parse_milli(trim(rest.take(e)))),
                        None => None,
                    }
                },
                None => None,
            }
        } else {
            None
        };
        let w2 = match find(line, "time="@) {
            Some(pos) => {
                let rest = line.skip(pos + 5);
                match find(rest, if windows { "m"@ } else { "ms"@ }) {
                    Some(e) => Some(parse_milli(trim(rest.take(e)))),
                    None => None,
                }
            },
            None => None,
        };
        match w1 {
            Some(v) => v,
            None => match w2 {
                Some(v) => v,
                None => ping_latency_in(ls.drop_first(), windows),
            },
        }
    }
}

/// The value after `marker` up to `end`, when the line has both.
fn value_between(line: &Vec<char>, marker: &str, end: &str) -> (r: Option<Option<Milli>>)
    requires
        marker@.len() > 0,
    ensures
        r == match find(line@, marker@) {
            Some(pos) => {
                let rest = line@.skip(pos + marker@.len());
                match find(rest, end@) {
                    Some(e) => Some(
                        match parse_milli(trim(rest.take(e))) {
                            Some(x) => Some(x as u64),
                            None => None::<u64>,
                        },
                    ),
                    None => None::<Option<u64>>,
                }
            },
            None => None::<Option<u64>>,
        },
{
    let m = chars_of(marker);
    match crate::text::find_v(line, &m) {
        None => None,
        Some(pos) => {
            proof {
                crate::text::lemma_find(line@, m@);
            }
            assert(pos + m.len() <= line.len());
            let rest = slice_of(line, pos + m.len(), line.len());
            assert(rest@ =~= line@.skip(pos + m@.len()));
            match find_lit(&rest, end) {
                Some(e) => {
                    proof {
                        crate::text::lemma_find(rest@, end@);
                    }
                    let head = slice_of(&rest, 0, e);
                    assert(head@ =~= rest@.take(e as int));
                    Some(parse_milli_v(&trim_v(&head)))
                },
                None => None,
            }
        },
    }
}

/// The latency in the output of a successful single ping (`time=`, or on Windows
/// also `tempo=`), in thousandths of a millisecond.
pub fn latency_from_ping_output(output: &str, windows: bool) -> (r: Option<Milli>)
    ensures
        match r {
            Some(x) => ping_latency_in(lines(output@), windows) == Some(x as nat),
            None => ping_latency_in(lines(output@), windows) is None,
        },
{
    let v = chars_of(output);
    let ls = split_lines(&v);
    let ghost lv = views(ls@);
    let mut i: usize = 0;
    assert(lv.skip(0) =~= lv);
    proof {
        reveal_strlit("tempo=");
        reveal_strlit("time=");
    }
    while i < ls.len()
        invariant
            i <= ls.len(),
            lv == views(ls@),
            lv == lines(output@),
            ping_latency_in(lv, windows) == ping_latency_in(lv.skip(i as int), windows),
            "tempo="@.len() == 6,
            "time="@.len() == 5,
        decreases ls.len() - i,
    {
        assert(lv.skip(i as int).drop_first() =~= lv.skip(i + 1));
        let line = &ls[i];
        if windows {
            match value_between(line, "tempo=", "m") {
                Some(x) => {
                    return x;
                },
                None => {},
            }
        }
        let w2 = if windows {
            value_between(line, "time=", "m")
        } else {
            value_between(line, "time=", "ms")
        };
        match w2 {
            Some(x) => {
                return x;
            },
            None => {},
        }
        i += 1;
    }
    assert(lv.skip(i as int) =~= seq![]);
    None
}

// ---------------------------------------------------------------------------
// ARP tables

/// A MAC address in the Windows `arp -a` table that names a real neighbour.
pub open spec fn arp_windows_entry(raw: Seq<char>) -> Option<(Seq<char>, Seq<char>)> {
    let parts = words(raw);
    if parts.len() >= 3 && parts[0].len() > 0 && is_digit(parts[0][0]) {
        let ip = trim(parts[0]);
        let mac = trim(parts[1]);
        if mac != "ff-ff-ff-ff-ff-ff"@ && mac != "00-00-00-00-00-00"@ {
            Some((ip, mac.map_values(|c: char| if c == '-' { ':' } else { c })))
        } else {
            None
        }
    } else {
        None
    }
}

/// Some character of a MAC address is neither `0` nor `:`.
pub open spec fn has_nonzero(mac: Seq<char>) -> bool {
    exists|i: int| 0 <= i < mac.len() && mac[i] != '0' && mac[i] != ':'
}

/// An entry of `/proc/net/arp` (after its header line).
pub open spec fn proc_arp_entry(raw: Seq<char>) -> Option<(Seq<char>, Seq<char>)> {
    let parts = words(raw);
    if parts.len() >= 4 && parts[3] != "00:00:00:00:00:00"@ && has_nonzero(parts[3]) {
        Some((parts[0], parts[3]))
    } else {
        None
    }
}

pub open spec fn arp_entry(windows: bool) -> spec_fn(Seq<char>) -> Option<(Seq<char>, Seq<char>)> {
    |l: Seq<char>|
        if windows {
            arp_windows_entry(l)
        } else {
            proc_arp_entry(l)
        }
}

/// The address/MAC pairs of an ARP table, in order (`arp -a` output on Windows, the
/// text of `/proc/net/arp` elsewhere, whose first line is a header).
pub open spec fn arp_entries(table: Seq<char>, windows: bool) -> Seq<(Seq<char>, Seq<char>)> {
    let ls = lines(table);
    filter_map(
        if windows || ls.len() == 0 {
            ls
        } else {
            ls.skip(1)
        },
        arp_entry(windows),
    )
}

pub open spec fn pair_views(s: Seq<(String, String)>) -> Seq<(Seq<char>, Seq<char>)> {
    s.map_values(|p: (String, String)| (p.0@, p.1@))
}

/// The MAC of `ip` in a table: the last entry for it wins.
pub open spec fn mac_of(entries: Seq<(Seq<char>, Seq<char>)>, ip: Seq<char>) -> Option<Seq<char>>
    decreases entries.len(),
{
    if entries.len() == 0 {
        None
    } else if entries.last().0 == ip {
        Some(entries.last().1)
    } else {
        mac_of(entries.drop_last(), ip)
    }
}

fn has_nonzero_v(mac: &Vec<char>) -> (r: bool)
    ensures
        r == has_nonzero(mac@),
{
    for i in 0..mac.len()
        invariant
            forall|j: int| 0 <= j < i ==> !(mac@[j] != '0' && mac@[j] != ':'),
    {
        if mac[i] != '0' && mac[i] != ':' {
            return true;
        }
    }
    false
}

fn arp_entry_v(raw: &Vec<char>, windows: bool) -> (r: Option<(String, String)>)
    ensures
        match r {
            Some(p) => (arp_entry(windows))(raw@) == Some((p.0@, p.1@)),
            None => (arp_entry(windows))(raw@) is None,
        },
{
    let parts = split_words(raw);
    let ghost ps = views(parts@);
    if windows {
        if parts.len() >= 3 && parts[0].len() > 0 && is_digit_char(parts[0][0]) {
            let ip = trim_v(&parts[0]);
            let mac = trim_v(&parts[1]);
            if !same_as(&mac, "ff-ff-ff-ff-ff-ff") && !same_as(&mac, "00-00-00-00-00-00") {
                let mut m: Vec<char> = Vec::new();
                for i in 0..mac.len()
                    invariant
                        m@ == mac@.take(i as int).map_values(|c: char| if c == '-' { ':' } else { c }),
                {
                    m.push(if mac[i] == '-' { ':' } else { mac[i] });
                    assert(m@ =~= mac@.take(i + 1).map_values(|c: char| if c == '-' { ':' } else { c }));
                }
                assert(mac@.take(mac.len() as int) =~= mac@);
                return Some((string_of(&ip), string_of(&m)));
            }
        }
        None
    } else {
        if parts.len() >= 4 && !same_as(&parts[3], "00:00:00:00:00:00") && has_nonzero_v(&parts[3]) {
            Some((string_of(&parts[0]), string_of(&parts[3])))
        } else {
            None
        }
    }
}

/// The address/MAC pairs of an ARP table (see [`arp_entries`]).
pub fn parse_arp_table(table: &str, windows: bool) -> (r: Vec<(String, String)>)
    ensures
        pair_views(r@) == arp_entries(table@, windows),
{
    let v = chars_of(table);
    let ls = split_lines(&v);
    let ghost all = views(ls@);
    let ghost f = arp_entry(windows);
    let start: usize = if windows || ls.len() == 0 { 0 } else { 1 };
    let mut out: Vec<(String, String)> = Vec::new();
    let mut i = start;
    assert(all.subrange(start as int, start as int) =~= seq![]);
    while i < ls.len()
        invariant
            start <= i <= ls.len(),
            all == views(ls@),
            f == arp_entry(windows),
            pair_views(out@) == filter_map(all.subrange(start as int, i as int), f),
        decreases ls.len() - i,
    {
        assert(all.subrange(start as int, i + 1).drop_last() =~= all.subrange(start as int, i as int));
        let ghost before = pair_views(out@);
        match arp_entry_v(&ls[i], windows) {
            Some(p) => {
                out.push(p);
                assert(pair_views(out@) =~= before + seq![(out@.last().0@, out@.last().1@)]);
            },
            None => {},
        }
        i += 1;
    }
    proof {
        if windows || ls.len() == 0 {
            assert(all.subrange(start as int, ls.len() as int) =~= all);
        } else {
            assert(all.subrange(start as int, ls.len() as int) =~= all.skip(1));
        }
    }
    out
}

/// The MAC of `ip` in a table built by [`parse_arp_table`].
pub fn lookup_mac(table: &Vec<(String, String)>, ip: &str) -> (r: Option<String>)
    ensures
        opt_view(r) == mac_of(pair_views(table@), ip@),
{
    let ghost pv = pair_views(table@);
    let want = chars_of(ip);
    let mut k = table.len();
    assert(pv.take(k as int) =~= pv);
    while k > 0
        invariant
            k <= table.len(),
            pv == pair_views(table@),
            want@ == ip@,
            mac_of(pv, ip@) == mac_of(pv.take(k as int), ip@),
        decreases k,
    {
        assert(pv.take(k as int).drop_last() =~= pv.take(k - 1));
        let key = chars_of(table[k - 1].0.as_str());
        if crate::text::eq_chars(&key, &want) {
            return Some(string_of(&chars_of(table[k - 1].1.as_str())));
        }
        k -= 1;
    }
    assert(pv.take(0) =~= seq![]);
    None
}

// ---------------------------------------------------------------------------
// Scan results

/// The vendor of an optional MAC address.
pub open spec fn vendor_of_mac(mac: Option<Seq<char>>) -> Option<Seq<char>> {
    match mac {
        Some(m) => vendor_of(m),
        None => None,
    }
}

/// The entry of a probed address: none when it is neither up nor the gateway;
/// its MAC is the one the ARP table holds for it, its vendor the one of that MAC;
/// a host that is down keeps no name, latency or open ports.
pub open spec fn host_entry_view(
    ip: Seq<char>,
    is_gateway: bool,
    is_up: bool,
    hostname: Option<Seq<char>>,
    arp: Seq<(Seq<char>, Seq<char>)>,
    latency_ms: Option<Milli>,
    open_ports: Seq<u16>,
) -> Option<HostView> {
    if !is_up && !is_gateway {
        None
    } else {
        Some(
            HostView {
                ip,
                hostname: if is_up { hostname } else { None },
                mac: mac_of(arp, ip),
                vendor: vendor_of_mac(mac_of(arp, ip)),
                latency_ms: if is_up { latency_ms } else { None },
                is_gateway,
                open_ports: if is_up { open_ports } else { seq![] },
            },
        )
    }
}

/// The entry of a probed address from what the probes found: whether it answered,
/// its reverse name, latency and open ports, the gateway address and the ARP table.
pub fn host_entry(
    ip: String,
    gateway_ip: &Option<String>,
    is_up: bool,
    hostname: Option<String>,
    arp: &Vec<(String, String)>,
    latency_ms: Option<Milli>,
    open_ports: Vec<u16>,
) -> (r: Option<NetworkHost>)
    ensures
        match r {
            Some(h) => host_entry_view(
                ip@,
                opt_view(*gateway_ip) == Some(ip@),
                is_up,
                opt_view(hostname),
                pair_views(arp@),
                latency_ms,
                open_ports@,
            ) == Some(h@),
            None => host_entry_view(
                ip@,
                opt_view(*gateway_ip) == Some(ip@),
                is_up,
                opt_view(hostname),
                pair_views(arp@),
                latency_ms,
                open_ports@,
            ) is None,
        },
{
    let is_gateway = match gateway_ip {
        Some(g) => {
            let a = chars_of(g.as_str());
            let b = chars_of(ip.as_str());
            crate::text::eq_chars(&a, &b)
        },
        None => false,
    };
    if !is_up && !is_gateway {
        return None;
    }
    let mac = lookup_mac(arp, ip.as_str());
    let vendor = match &mac {
        Some(m) => identify_vendor(m.as_str()),
        None => None,
    };
    Some(
        NetworkHost {
            ip,
            hostname: if is_up { hostname } else { None },
            mac,
            vendor,
            latency_ms: if is_up { latency_ms } else { None },
            is_gateway,
            open_ports: if is_up { open_ports } else { Vec::new() },
        },
    )
}

/// The `/24` base to scan: the subnet chosen as [`detect_subnet`] does, refused
/// when its prefix is not 24.
pub fn scan_base(subnet: Option<String>, routes: &str) -> (r: Result<String, String>)
    ensures
        match subnet_choice(opt_view(subnet), routes@) {
            Ok((b, p)) => if p == 24 {
                r matches Ok(x) && x@ == b
            } else {
                r matches Err(e) && e@ == "No momento o scan de rede aceita apenas sub-redes /24"@
            },
            Err(m) => r matches Err(e) && e@ == m,
        },
{
    match detect_subnet(subnet, routes) {
        Ok((base, prefix)) => {
            if prefix != 24 {
                Err(text("No momento o scan de rede aceita apenas sub-redes /24"))
            } else {
                Ok(base)
            }
        },
        Err(e) => Err(e),
    }
}

/// The addresses a scan of the `/24` network `base_ip` probes: `base_ip.1` to
/// `base_ip.254`.
pub fn scan_addresses(base_ip: &str) -> (r: Vec<String>)
    ensures
        r@.len() == 254,
        forall|i: int|
            0 <= i < 254 ==> (#[trigger] r@[i])@ == base_ip@ + "."@ + crate::num::decimal(
                (i + 1) as nat,
            ),
{
    let mut out: Vec<String> = Vec::new();
    let mut n: u64 = 1;
    while n <= 254
        invariant
            1 <= n <= 255,
            out@.len() == n - 1,
            forall|i: int|
                0 <= i < n - 1 ==> (#[trigger] out@[i])@ == base_ip@ + "."@ + crate::num::decimal(
                    (i + 1) as nat,
                ),
        decreases 255 - n,
    {
        let mut a = string_of(&chars_of(base_ip));
        a.append(".");
        let ghost head = a@;
        crate::num::push_decimal(&mut a, n);
        assert(a@ == base_ip@ + "."@ + crate::num::decimal(n as nat));
        out.push(a);
        n += 1;
    }
    out
}

/// The sort key of a host: the last octet of its address, or 0.
pub open spec fn octet_key(ip: Seq<char>) -> nat {
    match parse_unsigned(split_at_char(ip, '.').last(), u16::MAX as nat) {
        Some(k) => k,
        None => 0,
    }
}

/// The number of leading hosts whose key is at most `k`.
pub open spec fn count_key_le(s: Seq<HostView>, k: nat) -> nat
    decreases s.len(),
{
    if s.len() == 0 || octet_key(s[0].ip) > k {
        0
    } else {
        1 + count_key_le(s.drop_first(), k)
    }
}

/// `s` with `h` placed after every leading host whose key is not larger.
pub open spec fn insert_by_octet(s: Seq<HostView>, h: HostView) -> Seq<HostView> {
    s.insert(count_key_le(s, octet_key(h.ip)) as int, h)
}

/// Hosts in ascending order of their last octet, hosts with equal keys kept in
/// their given order (what a stable sort gives).
pub open spec fn sort_by_octet(s: Seq<HostView>) -> Seq<HostView>
    decreases s.len(),
{
    if s.len() == 0 {
        seq![]
    } else {
        insert_by_octet(sort_by_octet(s.drop_last()), s.last())
    }
}

fn octet_key_v(ip: &String) -> (r: u64)
    ensures
        r == octet_key(ip@),
{
    let v = chars_of(ip.as_str());
    let pieces = split_char(&v, '.');
    proof {
        crate::text::lemma_pieces_nonempty(v@, '.', seq![]);
    }
    match parse_u16_v(&pieces[pieces.len() - 1]) {
        Some(k) => k as u64,
        None => 0,
    }
}

pub proof fn lemma_count_key_le(s: Seq<HostView>, k: nat, i: int)
    requires
        0 <= i <= s.len(),
        forall|j: int| 0 <= j < i ==> octet_key(#[trigger] s[j].ip) <= k,
    ensures
        count_key_le(s, k) == i + count_key_le(s.skip(i), k),
    decreases i,
{
    if i > 0 {
        assert(s.skip(i) =~= s.drop_first().skip(i - 1));
        lemma_count_key_le(s.drop_first(), k, i - 1);
    } else {
        assert(s.skip(0) =~= s);
    }
}

/// Sorts hosts by the last octet of their address, keeping the order of equal keys.
pub fn sort_hosts(hosts: Vec<NetworkHost>) -> (r: Vec<NetworkHost>)
    ensures
        host_views(r@) == sort_by_octet(host_views(hosts@)),
{
    let ghost given = host_views(hosts@);
    let n = hosts.len();
    let mut rest = hosts;
    let mut rev: Vec<NetworkHost> = Vec::new();
    while rest.len() > 0
        invariant
            host_views(rest@) == given.take(rest@.len() as int),
            rest@.len() + rev@.len() == n,
            n == given.len(),
            forall|j: int| 0 <= j < rev@.len() ==> (#[trigger] rev@[j])@ == given[n - 1 - j],
        decreases rest.len(),
    {
        let ghost before = rest@;
        let h = rest.pop().unwrap();
        assert(rest@ =~= before.drop_last());
        assert(host_views(before)[rest@.len() as int] == h@);
        assert(host_views(rest@) =~= given.take(rest@.len() as int));
        let ghost rv = rev@;
        rev.push(h);
        assert(forall|j: int| 0 <= j < rv.len() ==> rev@[j] == rv[j]);
    }
    let mut out: Vec<NetworkHost> = Vec::new();
    assert(given.take(0) =~= seq![]);
    while rev.len() > 0
        invariant
            out@.len() + rev@.len() == n,
            n == given.len(),
            forall|j: int| 0 <= j < rev@.len() ==> (#[trigger] rev@[j])@ == given[n - 1 - j],
            host_views(out@) == sort_by_octet(given.take(out@.len() as int)),
        decreases rev.len(),
    {
        let i = out.len();
        let h = rev.pop().unwrap();
        assert(h@ == given[i as int]);
        let k = octet_key_v(&h.ip);
        let ghost sv = host_views(out@);
        let mut pos: usize = 0;
        while pos < out.len() && octet_key_v(&out[pos].ip) <= k
            invariant
                pos <= out@.len(),
                sv == host_views(out@),
                forall|j: int| 0 <= j < pos ==> octet_key(#[trigger] sv[j].ip) <= k,
            decreases out.len() - pos,
        {
            pos += 1;
        }
        proof {
            lemma_count_key_le(sv, k as nat, pos as int);
            if pos < out.len() {
                assert(sv.skip(pos as int)[0] == sv[pos as int]);
            }
            assert(count_key_le(sv, k as nat) == pos);
            assert(given.take(i + 1).drop_last() =~= given.take(i as int));
        }
        out.insert(pos, h);
        assert(host_views(out@) =~= sv.insert(pos as int, h@));
    }
    assert(given.take(n as int) =~= given);
    out
}

/// The result of a scan of the `/24` network `base_ip`: the hosts found, sorted by
/// the last octet of their address.
pub fn finish_scan(base_ip: &str, hosts: Vec<NetworkHost>, duration_secs: Milli) -> (r:
    NetworkScanResult)
    ensures
        r.subnet@ == base_ip@ + ".0/24"@,
        r.total_hosts == 254,
        r.hosts_up == hosts@.len() % 65536,
        r.scan_duration_secs == duration_secs,
        host_views(r.hosts@) == sort_by_octet(host_views(hosts@)),
{
    let mut subnet = string_of(&chars_of(base_ip));
    subnet.append(".0/24");
    let up = (hosts.len() % 65536) as u16;
    let sorted = sort_hosts(hosts);
    NetworkScanResult {
        subnet,
        total_hosts: 254,
        hosts_up: up,
        scan_duration_secs: duration_secs,
        hosts: sorted,
    }
}

} // verus!
