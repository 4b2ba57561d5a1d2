//! Network interfaces, from the output of `ip addr show` (text or JSON).
use vstd::prelude::*;
use crate::route::{opt_view, str_is, text};
use crate::text::{
    char_pred, chars_of, contains, contains_lit, ends_with, ends_with_lit, lines, split_at_char,
    split_char, split_lines, split_words, starts_with, starts_with_lit, string_of, trim,
    trim_end_by, trim_end_char, trim_v, views, words,
};

verus! {

/// A network interface and its IPv4 address.
pub struct InterfaceInfo {
    pub name: String,
    pub ip: String,
    pub mac: String,
    pub is_up: bool,
}

/// The mathematical value of an [`InterfaceInfo`].
pub struct InterfaceView {
    pub name: Seq<char>,
    pub ip: Seq<char>,
    pub mac: Seq<char>,
    pub is_up: bool,
}

impl View for InterfaceInfo {
    type V = InterfaceView;

    open spec fn view(&self) -> InterfaceView {
        InterfaceView { name: self.name@, ip: self.ip@, mac: self.mac@, is_up: self.is_up }
    }
}

pub open spec fn iface_views(s: Seq<InterfaceInfo>) -> Seq<InterfaceView> {
    s.map_values(|x: InterfaceInfo| x@)
}

/// What the text form of `ip addr show` has been read to so far.
#[verifier::ext_equal]
pub struct IpTextState {
    pub name: Seq<char>,
    pub mac: Seq<char>,
    pub ip: Seq<char>,
    pub up: bool,
    pub found: Seq<InterfaceView>,
}

/// A loopback interface.
pub open spec fn is_loopback(name: Seq<char>) -> bool {
    starts_with(name, "lo"@)
}

/// The state's interface added to the list, when it is a named non-loopback one.
pub open spec fn flush(st: IpTextState, mac: Seq<char>, ip: Seq<char>) -> Seq<InterfaceView> {
    if st.name.len() > 0 && !is_loopback(st.name) {
        st.found.push(InterfaceView { name: st.name, ip, mac, is_up: st.up })
    } else {
        st.found
    }
}

pub open spec fn ip_text_step(st: IpTextState, raw: Seq<char>) -> IpTextState {
    let t = trim(raw);
    let ws = words(t);
    let mac = if (starts_with(t, "link/ether"@) || starts_with(t, "link/loopback"@)) && ws.len()
        >= 2 {
        ws[1]
    } else {
        st.mac
    };
    let ip = if starts_with(t, "inet "@) && ws.len() >= 2 {
        split_at_char(ws[1], '/')[0]
    } else {
        st.ip
    };
    if starts_with(t, "inet6 "@) {
        IpTextState { mac, ip, ..st }
    } else if ends_with(t, ":"@) && !starts_with(t, "inet"@) && !starts_with(t, "link"@) {
        IpTextState {
            name: trim_end_by(t, char_pred(':')),
            mac: seq![],
            ip: seq![],
            up: contains(t, "UP"@),
            found: flush(st, mac, ip),
        }
    } else {
        IpTextState { mac, ip, ..st }
    }
}

pub open spec fn ip_text_fold(ls: Seq<Seq<char>>) -> IpTextState
    decreases ls.len(),
{
    if ls.len() == 0 {
        IpTextState { name: seq![], mac: seq![], ip: seq![], up: false, found: seq![] }
    } else {
        ip_text_step(ip_text_fold(ls.drop_last()), ls.last())
    }
}

/// The interfaces of the text form of `ip addr show`, loopback left out.
pub open spec fn ip_text_result(output: Seq<char>) -> Result<Seq<InterfaceView>, Seq<char>> {
    let st = ip_text_fold(lines(output));
    let found = flush(st, st.mac, st.ip);
    if found.len() == 0 {
        Err("Nenhuma interface de rede encontrada"@)
    } else {
        Ok(found)
    }
}

pub open spec fn ifaces_match(r: Result<Vec<InterfaceInfo>, String>, s: Result<Seq<InterfaceView>, Seq<char>>) -> bool {
    match r {
        Ok(v) => s == Ok::<Seq<InterfaceView>, Seq<char>>(iface_views(v@)),
        Err(e) => s == Err::<Seq<InterfaceView>, Seq<char>>(e@),
    }
}

struct TextState {
    name: Vec<char>,
    mac: Vec<char>,
    ip: Vec<char>,
    up: bool,
    found: Vec<InterfaceInfo>,
}

impl TextState {
    spec fn view_of(&self) -> IpTextState {
        IpTextState {
            name: self.name@,
            mac: self.mac@,
            ip: self.ip@,
            up: self.up,
            found: iface_views(self.found@),
        }
    }
}

fn flush_v(st: &mut TextState, mac: &Vec<char>, ip: &Vec<char>)
    ensures
        final(st).found@.len() >= 0,
        iface_views(final(st).found@) == flush(old(st).view_of(), mac@, ip@),
        final(st).name@ == old(st).name@,
        final(st).mac@ == old(st).mac@,
        final(st).ip@ == old(st).ip@,
        final(st).up == old(st).up,
{
    if st.name.len() > 0 && !starts_with_lit(&st.name, "lo") {
        let ghost before = iface_views(st.found@);
        let e = InterfaceInfo {
            name: string_of(&st.name),
            ip: string_of(ip),
            mac: string_of(mac),
            is_up: st.up,
        };
        st.found.push(e);
        assert(iface_views(st.found@) =~= before.push(st.found@.last()@));
    }
}

fn ip_text_step_v(st: &mut TextState, raw: &Vec<char>)
    ensures
        final(st).view_of() == ip_text_step(old(st).view_of(), raw@),
{
    let t = trim_v(raw);
    let ws = split_words(&t);
    let mac = if (starts_with_lit(&t, "link/ether") || starts_with_lit(&t, "link/loopback"))
        && ws.len() >= 2 {
        crate::text::slice_of(&ws[1], 0, ws[1].len())
    } else {
        crate::text::slice_of(&st.mac, 0, st.mac.len())
    };
    let ip = if starts_with_lit(&t, "inet ") && ws.len() >= 2 {
        let pieces = split_char(&ws[1], '/');
        proof {
            crate::text::lemma_pieces_nonempty(ws@[1]@, '/', seq![]);
            assert(views(pieces@)[0] == pieces@[0]@);
        }
        crate::text::slice_of(&pieces[0], 0, pieces[0].len())
    } else {
        crate::text::slice_of(&st.ip, 0, st.ip.len())
    };
    proof {
        if ws.len() >= 2 {
            assert(views(ws@)[1] == ws@[1]@);
        }
    }
    assert(mac@ =~= (if (starts_with(t@, "link/ether"@) || starts_with(t@, "link/loopback"@)) && ws.len() >= 2 { words(t@)[1] } else { old(st).mac@ }));
    assert(ip@ =~= (if starts_with(t@, "inet "@) && ws.len() >= 2 { split_at_char(words(t@)[1], '/')[0] } else { old(st).ip@ }));
    if starts_with_lit(&t, "inet6 ") {
        st.mac = mac;
        st.ip = ip;
    } else if ends_with_lit(&t, ":") && !starts_with_lit(&t, "inet") && !starts_with_lit(&t, "link") {
        flush_v(st, &mac, &ip);
        st.name = trim_end_char(&t, ':');
        st.mac = Vec::new();
        st.ip = Vec::new();
        st.up = contains_lit(&t, "UP");
        assert(st.mac@ =~= seq![]);
        assert(st.ip@ =~= seq![]);
    } else {
        st.mac = mac;
        st.ip = ip;
    }
    assert(st.view_of() =~= ip_text_step(old(st).view_of(), raw@));
}

/// Reads the interfaces of the text form of `ip addr show`, loopback left out.
pub fn parse_ip_text(output: &str) -> (r: Result<Vec<InterfaceInfo>, String>)
    ensures
        ifaces_match(r, ip_text_result(output@)),
{
    let v = chars_of(output);
    let ls = split_lines(&v);
    let ghost lv = views(ls@);
    let mut st = TextState { name: Vec::new(), mac: Vec::new(), ip: Vec::new(), up: false, found: Vec::new() };
    assert(lv.take(0) =~= seq![]);
    assert(st.view_of() =~= ip_text_fold(lv.take(0))) by {
        assert(st.name@ =~= seq![]);
        assert(iface_views(st.found@) =~= seq![]);
    }
    for i in 0..ls.len()
        invariant
            lv == views(ls@),
            lv == lines(output@),
            st.view_of() == ip_text_fold(lv.take(i as int)),
    {
        assert(lv.take(i + 1).drop_last() =~= lv.take(i as int));
        ip_text_step_v(&mut st, &ls[i]);
    }
    assert(lv.take(ls.len() as int) =~= lv);
    let mac = crate::text::slice_of(&st.mac, 0, st.mac.len());
    let ip = crate::text::slice_of(&st.ip, 0, st.ip.len());
    assert(mac@ =~= st.mac@);
    assert(ip@ =~= st.ip@);
    flush_v(&mut st, &mac, &ip);
    assert(iface_views(st.found@) == flush(ip_text_fold(lines(output@)), ip_text_fold(lines(output@)).mac, ip_text_fold(lines(output@)).ip));
    if st.found.len() == 0 {
        Err(text("Nenhuma interface de rede encontrada"))
    } else {
        Ok(st.found)
    }
}

// ---------------------------------------------------------------------------
// The JSON form

/// An address entry of `ip -j addr show`; fields that are not strings are `None`.
pub struct AddrInfoRecord {
    pub family: Option<String>,
    pub local: Option<String>,
}

/// An interface entry of `ip -j addr show`; fields that are missing or not of
/// the expected JSON type are `None` (flags that are not strings too).
pub struct IpLinkRecord {
    pub ifname: Option<String>,
    pub flags: Option<Vec<Option<String>>>,
    pub address: Option<String>,
    pub addr_info: Option<Vec<AddrInfoRecord>>,
}

/// The text held, or the default `d`.
pub open spec fn or_text(o: Option<String>, d: Seq<char>) -> Seq<char> {
    match o {
        Some(s) => s@,
        None => d,
    }
}

/// The flags include `UP`.
pub open spec fn flags_up(flags: Option<Vec<Option<String>>>) -> bool {
    match flags {
        Some(f) => exists|i: int| 0 <= i < f@.len() && opt_view(#[trigger] f@[i]) == Some("UP"@),
        None => false,
    }
}

/// The index of the first address entry of the IPv4 family.
pub open spec fn first_inet(a: Seq<AddrInfoRecord>) -> Option<int>
    decreases a.len(),
{
    if a.len() == 0 {
        None
    } else if opt_view(a[0].family) == Some("inet"@) {
        Some(0)
    } else {
        match first_inet(a.drop_first()) {
            Some(k) => Some(k + 1),
            None => None,
        }
    }
}

/// The local address of the first IPv4 entry, or nothing.
pub open spec fn record_ip(addr_info: Option<Vec<AddrInfoRecord>>) -> Seq<char> {
    match addr_info {
        Some(a) => match first_inet(a@) {
            Some(k) => or_text(a@[k].local, ""@),
            None => ""@,
        },
        None => ""@,
    }
}

pub open spec fn record_view(r: IpLinkRecord) -> InterfaceView {
    InterfaceView {
        name: or_text(r.ifname, "unknown"@),
        ip: record_ip(r.addr_info),
        mac: or_text(r.address, ""@),
        is_up: flags_up(r.flags),
    }
}

/// The interfaces of the records, loopback left out.
pub open spec fn records_from(s: Seq<IpLinkRecord>) -> Seq<InterfaceView>
    decreases s.len(),
{
    if s.len() == 0 {
        seq![]
    } else {
        let v = record_view(s.last());
        records_from(s.drop_last()) + if is_loopback(v.name) {
            seq![]
        } else {
            seq![v]
        }
    }
}

pub open spec fn records_result(s: Seq<IpLinkRecord>) -> Result<Seq<InterfaceView>, Seq<char>> {
    if records_from(s).len() == 0 {
        Err("Nenhuma interface de rede encontrada"@)
    } else {
        Ok(records_from(s))
    }
}

/// The text held, or the default `d`.
pub fn or_text_v(o: &Option<String>, d: &str) -> (r: String)
    ensures
        r@ == or_text(*o, d@),
{
    match o {
        Some(s) => string_of(&chars_of(s.as_str())),
        None => text(d),
    }
}

fn any_up(f: &Vec<Option<String>>) -> (r: bool)
    ensures
        r == exists|i: int| 0 <= i < f@.len() && opt_view(#[trigger] f@[i]) == Some("UP"@),
{
    for i in 0..f.len()
        invariant
            forall|j: int| 0 <= j < i ==> opt_view(#[trigger] f@[j]) != Some("UP"@),
    {
        match &f[i] {
            Some(s) => {
                if str_is(s, "UP") {
                    assert(opt_view(f@[i as int]) == Some("UP"@));
                    return true;
                }
            },
            None => {},
        }
    }
    false
}

fn flags_up_v(flags: &Option<Vec<Option<String>>>) -> (r: bool)
    ensures
        r == flags_up(*flags),
{
    match flags {
        None => false,
        Some(f) => any_up(f),
    }
}

fn inet_ip(a: &Vec<AddrInfoRecord>) -> (r: String)
    ensures
        r@ == match first_inet(a@) {
            Some(k) => or_text(a@[k].local, ""@),
            None => ""@,
        },
{
    let mut i: usize = 0;
    assert(a@.skip(0) =~= a@);
    while i < a.len()
        invariant
            i <= a@.len(),
            first_inet(a@) == match first_inet(a@.skip(i as int)) {
                Some(k) => Some(k + i),
                None => None::<int>,
            },
        decreases a.len() - i,
    {
        assert(a@.skip(i as int).drop_first() =~= a@.skip(i + 1));
        let is_inet = match &a[i].family {
            Some(f) => str_is(f, "inet"),
            None => false,
        };
        if is_inet {
            assert(a@.skip(i as int)[0] == a@[i as int]);
            return or_text_v(&a[i].local, "");
        }
        i += 1;
    }
    assert(a@.skip(i as int) =~= seq![]);
    text("")
}

fn record_ip_v(addr_info: &Option<Vec<AddrInfoRecord>>) -> (r: String)
    ensures
        r@ == record_ip(*addr_info),
{
    match addr_info {
        None => text(""),
        Some(a) => inet_ip(a),
    }
}

/// The interfaces of the entries of `ip -j addr show`, loopback left out.
pub fn interfaces_from_records(records: &Vec<IpLinkRecord>) -> (r: Result<Vec<InterfaceInfo>, String>)
    ensures
        ifaces_match(r, records_result(records@)),
{
    let mut out: Vec<InterfaceInfo> = Vec::new();
    for i in 0..records.len()
        invariant
            iface_views(out@) == records_from(records@.take(i as int)),
    {
        assert(records@.take(i + 1).drop_last() =~= records@.take(i as int));
        assert(records@.take(i + 1).last() == records@[i as int]);
        let rec = &records[i];
        let name = or_text_v(&rec.ifname, "unknown");
        let info = InterfaceInfo {
            name,
            ip: record_ip_v(&rec.addr_info),
            mac: or_text_v(&rec.address, ""),
            is_up: flags_up_v(&rec.flags),
        };
        let ghost before = iface_views(out@);
        assert(info@ == record_view(records@[i as int]));
        if !str_is_prefix_lo(&info.name) {
            out.push(info);
            assert(iface_views(out@) =~= before + seq![out@.last()@]);
        }
    }
    assert(records@.take(records.len() as int) =~= records@);
    if out.len() == 0 {
        Err(text("Nenhuma interface de rede encontrada"))
    } else {
        Ok(out)
    }
}

fn str_is_prefix_lo(s: &String) -> (r: bool)
    ensures
        r == is_loopback(s@),
{
    starts_with_lit(&chars_of(s.as_str()), "lo")
}

/// The interfaces of decoded `ip -j addr show` output; a decoding error `e` gives
/// the error `Erro ao parsear JSON do ip: e`.
pub fn parse_ip_json(decoded: Result<Vec<IpLinkRecord>, String>) -> (r: Result<Vec<InterfaceInfo>, String>)
    ensures
        match decoded {
            Ok(records) => ifaces_match(r, records_result(records@)),
            Err(e) => r matches Err(m) && m@ == "Erro ao parsear JSON do ip: "@ + e@,
        },
{
    match decoded {
        Ok(records) => interfaces_from_records(&records),
        Err(e) => {
            let mut m = text("Erro ao parsear JSON do ip: ");
            m.append(e.as_str());
            Err(m)
        },
    }
}

// ---------------------------------------------------------------------------
// Windows

/// An entry of `Get-NetAdapter` as JSON; a field that is missing or not a string
/// is `None`.
pub struct NetAdapterRecord {
    pub name: Option<String>,
    pub mac_address: Option<String>,
    pub status: Option<String>,
}

/// The name of an adapter entry, `unknown` where it has none.
pub fn windows_adapter_name(a: &NetAdapterRecord) -> (r: String)
    ensures
        r@ == or_text(a.name, "unknown"@),
{
    or_text_v(&a.name, "unknown")
}

/// A text with each single quote doubled, as a PowerShell single-quoted string
/// needs.
pub open spec fn escape_quotes(s: Seq<char>) -> Seq<char>
    decreases s.len(),
{
    if s.len() == 0 {
        seq![]
    } else {
        escape_quotes(s.drop_last()) + if s.last() == '\'' {
            seq!['\'', '\'']
        } else {
            seq![s.last()]
        }
    }
}

/// The PowerShell command that prints the IPv4 address of an interface.
pub open spec fn windows_ip_command(name: Seq<char>) -> Seq<char> {
    "Get-NetIPAddress -InterfaceAlias '"@ + escape_quotes(name)
        + "' -AddressFamily IPv4 | Select-Object -ExpandProperty IPAddress"@
}

/// The PowerShell command that prints the IPv4 address of the interface `name`.
pub fn windows_ip_query(name: &str) -> (r: String)
    ensures
        r@ == windows_ip_command(name@),
{
    let v = chars_of(name);
    let mut r = text("Get-NetIPAddress -InterfaceAlias '");
    let ghost head = r@;
    for i in 0..v.len()
        invariant
            v@ == name@,
            r@ == head + escape_quotes(v@.take(i as int)),
    {
        assert(v@.take(i + 1).drop_last() =~= v@.take(i as int));
        let ghost before = r@;
        crate::text::push_char(&mut r, v[i]);
        if v[i] == '\'' {
            crate::text::push_char(&mut r, '\'');
        }
        assert(r@ =~= head + escape_quotes(v@.take(i + 1)));
    }
    assert(v@.take(v.len() as int) =~= v@);
    r.append("' -AddressFamily IPv4 | Select-Object -ExpandProperty IPAddress");
    r
}

/// The address printed by that command: its output trimmed when it succeeded,
/// nothing when it failed.
pub fn windows_ip_from_output(success: bool, stdout: &str) -> (r: Option<String>)
    ensures
        success ==> (r matches Some(s) && s@ == trim(stdout@)),
        !success ==> r is None,
{
    if success {
        Some(string_of(&trim_v(&chars_of(stdout))))
    } else {
        None
    }
}

/// The interface of an adapter entry with the address found for it.
pub open spec fn adapter_view(a: NetAdapterRecord, ip: Option<String>) -> InterfaceView {
    InterfaceView {
        name: or_text(a.name, "unknown"@),
        ip: or_text(ip, ""@),
        mac: or_text(a.mac_address, ""@),
        is_up: opt_view(a.status) == Some("Up"@),
    }
}

/// The interfaces of decoded `Get-NetAdapter` output (`None` where it did not
/// decode as a list), each with the address found for it (`ips` in the same order).
pub fn windows_interfaces(adapters: Option<Vec<NetAdapterRecord>>, ips: &Vec<Option<String>>) -> (r:
    Result<Vec<InterfaceInfo>, String>)
    requires
        adapters matches Some(v) ==> ips@.len() == v@.len(),
    ensures
        match adapters {
            None => r matches Err(e) && e@ == "Nenhuma interface encontrada no Windows"@,
            Some(v) => r matches Ok(s) && s@.len() == v@.len() && forall|i: int|
                0 <= i < s@.len() ==> (#[trigger] s@[i])@ == adapter_view(v@[i], ips@[i]),
        },
{
    match adapters {
        None => Err(text("Nenhuma interface encontrada no Windows")),
        Some(v) => {
            let mut out: Vec<InterfaceInfo> = Vec::new();
            for i in 0..v.len()
                invariant
                    ips@.len() == v@.len(),
                    out@.len() == i,
                    forall|j: int| 0 <= j < i ==> (#[trigger] out@[j])@ == adapter_view(v@[j], ips@[j]),
            {
                let a = &v[i];
                let is_up = match &a.status {
                    Some(st) => str_is(st, "Up"),
                    None => false,
                };
                out.push(
                    InterfaceInfo {
                        name: or_text_v(&a.name, "unknown"),
                        ip: or_text_v(&ips[i], ""),
                        mac: or_text_v(&a.mac_address, ""),
                        is_up,
                    },
                );
            }
            Ok(out)
        },
    }
}

} // verus!
