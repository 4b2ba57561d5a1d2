//! Default gateways: reading them from the routing table, and the report on them.
use vstd::prelude::*;
use crate::num::{parse_unsigned, parse_u32_v, Milli};
use crate::route::{opt_view, text, PingResult};
use crate::text::{
    chars_of, contains, contains_lit, lines, same_as, split_lines, split_words, starts_with,
    starts_with_lit, string_of, trim, trim_v, views, words,
};

verus! {

/// A default gateway and how it answered a ping.
pub struct Gateway {
    pub ip: String,
    pub interface: String,
    pub metric: u32,
    pub is_primary: bool,
    pub latency_ms: Option<Milli>,
    pub reachable: bool,
}

/// The mathematical value of a [`Gateway`].
pub struct GatewayView {
    pub ip: Seq<char>,
    pub interface: Seq<char>,
    pub metric: u32,
    pub is_primary: bool,
    pub latency_ms: Option<Milli>,
    pub reachable: bool,
}

impl View for Gateway {
    type V = GatewayView;

    open spec fn view(&self) -> GatewayView {
        GatewayView {
            ip: self.ip@,
            interface: self.interface@,
            metric: self.metric,
            is_primary: self.is_primary,
            latency_ms: self.latency_ms,
            reachable: self.reachable,
        }
    }
}

pub open spec fn gateway_views(s: Seq<Gateway>) -> Seq<GatewayView> {
    s.map_values(|g: Gateway| g@)
}

/// The gateways of the host and a warning when there is more than one.
pub struct GatewayInfo {
    pub gateways: Vec<Gateway>,
    pub has_multiple: bool,
    pub warning: Option<String>,
}

/// A default route: gateway address, interface and metric.
pub type Route = (String, String, u32);

pub open spec fn route_views(s: Seq<Route>) -> Seq<(Seq<char>, Seq<char>, u32)> {
    s.map_values(|r: Route| (r.0@, r.1@, r.2))
}

/// The index of the first token `metric`.
pub open spec fn metric_index(parts: Seq<Seq<char>>) -> Option<int>
    decreases parts.len(),
{
    if parts.len() == 0 {
        None
    } else if parts[0] == "metric"@ {
        Some(0)
    } else {
        match metric_index(parts.drop_first()) {
            Some(k) => Some(k + 1),
            None => None,
        }
    }
}

/// The metric of a route line: the number after `metric`, or 100.
pub open spec fn route_metric(parts: Seq<Seq<char>>) -> u32 {
    match metric_index(parts) {
        Some(k) => if k + 1 < parts.len() {
            match parse_unsigned(parts[k + 1], u32::MAX as nat) {
                Some(m) => m as u32,
                None => 100,
            }
        } else {
            100
        },
        None => 100,
    }
}

/// The default route a line of `ip route show` describes.
pub open spec fn linux_route(raw: Seq<char>) -> Option<(Seq<char>, Seq<char>, u32)> {
    let line = trim(raw);
    let parts = words(line);
    if starts_with(line, "default"@) && parts.len() >= 5 {
        Some((parts[2], parts[4], route_metric(parts)))
    } else {
        None
    }
}

pub open spec fn linux_routes_from(ls: Seq<Seq<char>>) -> Seq<(Seq<char>, Seq<char>, u32)>
    decreases ls.len(),
{
    if ls.len() == 0 {
        seq![]
    } else {
        linux_routes_from(ls.drop_last()) + match linux_route(ls.last()) {
            Some(r) => seq![r],
            None => seq![],
        }
    }
}

/// A line of `netstat -rn` output for the default route, on Windows.
pub open spec fn windows_route_parts(line: Seq<char>) -> Option<(Seq<char>, Seq<char>)> {
    let parts = words(line);
    if contains(line, "0.0.0.0"@) && parts.len() >= 5 && parts[0] == "0.0.0.0"@ && parts[1]
        == "0.0.0.0"@ {
        Some((parts[2], parts[4]))
    } else {
        None
    }
}

/// The default routes of `netstat -rn` output, numbered by metrics 1, 101, 201, ...
pub open spec fn windows_routes_from(ls: Seq<Seq<char>>) -> Seq<(Seq<char>, Seq<char>, u32)>
    decreases ls.len(),
{
    if ls.len() == 0 {
        seq![]
    } else {
        let before = windows_routes_from(ls.drop_last());
        before + match windows_route_parts(ls.last()) {
            Some((gw, iface)) => seq![(gw, iface, ((1 + 100 * before.len()) % 0x1_0000_0000) as u32)],
            None => seq![],
        }
    }
}

pub open spec fn routes_result(routes: Seq<(Seq<char>, Seq<char>, u32)>, err: Seq<char>) -> Result<
    Seq<(Seq<char>, Seq<char>, u32)>,
    Seq<char>,
> {
    if routes.len() == 0 {
        Err(err)
    } else {
        Ok(routes)
    }
}

pub open spec fn routes_match(r: Result<Vec<Route>, String>, s: Result<Seq<(Seq<char>, Seq<char>, u32)>, Seq<char>>) -> bool {
    match r {
        Ok(v) => s == Ok::<Seq<(Seq<char>, Seq<char>, u32)>, Seq<char>>(route_views(v@)),
        Err(e) => s == Err::<Seq<(Seq<char>, Seq<char>, u32)>, Seq<char>>(e@),
    }
}

fn metric_v(parts: &Vec<Vec<char>>) -> (r: u32)
    ensures
        r == route_metric(views(parts@)),
{
    let ghost ps = views(parts@);
    let mut i: usize = 0;
    assert(ps.skip(0) =~= ps);
    while i < parts.len()
        invariant
            i <= parts.len(),
            ps == views(parts@),
            metric_index(ps) == match metric_index(ps.skip(i as int)) {
                Some(k) => Some(k + i),
                None => None::<int>,
            },
        decreases parts.len() - i,
    {
        assert(ps.skip(i as int).drop_first() =~= ps.skip(i + 1));
        if same_as(&parts[i], "metric") {
            if i + 1 < parts.len() {
                return match parse_u32_v(&parts[i + 1]) {
                    Some(m) => m,
                    None => 100,
                };
            }
            return 100;
        }
        i += 1;
    }
    assert(ps.skip(i as int) =~= seq![]);
    100
}

/// The default routes in `ip route show` output.
pub fn parse_linux_routes(output: &str) -> (r: Result<Vec<Route>, String>)
    ensures
        routes_match(r, routes_result(linux_routes_from(lines(output@)), "Nenhuma rota padrão encontrada"@)),
{
    let v = chars_of(output);
    let ls = split_lines(&v);
    let ghost lv = views(ls@);
    let mut out: Vec<Route> = Vec::new();
    for i in 0..ls.len()
        invariant
            lv == views(ls@),
            lv == lines(output@),
            route_views(out@) == linux_routes_from(lv.take(i as int)),
    {
        assert(lv.take(i + 1).drop_last() =~= lv.take(i as int));
        let ghost before = route_views(out@);
        let line = trim_v(&ls[i]);
        let parts = split_words(&line);
        if starts_with_lit(&line, "default") && parts.len() >= 5 {
            let m = metric_v(&parts);
            out.push((string_of(&parts[2]), string_of(&parts[4]), m));
            assert(route_views(out@) =~= before + seq![(parts@[2]@, parts@[4]@, m)]);
        }
    }
    assert(lv.take(ls.len() as int) =~= lv);
    if out.len() == 0 {
        Err(text("Nenhuma rota padrão encontrada"))
    } else {
        Ok(out)
    }
}

/// The default routes in Windows `netstat -rn` output, with the metrics the
/// order gives them (1 for the first, then 100 more for each next one).
pub fn parse_windows_routes(output: &str) -> (r: Result<Vec<Route>, String>)
    ensures
        routes_match(r, routes_result(windows_routes_from(lines(output@)), "Nenhum gateway padrão encontrado no Windows"@)),
{
    let v = chars_of(output);
    let ls = split_lines(&v);
    let ghost lv = views(ls@);
    let mut out: Vec<Route> = Vec::new();
    let mut metric: u32 = 1;
    for i in 0..ls.len()
        invariant
            lv == views(ls@),
            lv == lines(output@),
            route_views(out@) == windows_routes_from(lv.take(i as int)),
            metric as nat == (1 + 100 * out@.len()) % 0x1_0000_0000,
    {
        assert(lv.take(i + 1).drop_last() =~= lv.take(i as int));
        let ghost before = route_views(out@);
        let line = &ls[i];
        let parts = split_words(line);
        if contains_lit(line, "0.0.0.0") && parts.len() >= 5 && same_as(&parts[0], "0.0.0.0")
            && same_as(&parts[1], "0.0.0.0") {
            out.push((string_of(&parts[2]), string_of(&parts[4]), metric));
            assert(route_views(out@) =~= before + seq![(parts@[2]@, parts@[4]@, metric)]);
            let ghost n = before.len();
            metric = metric.wrapping_add(100);
            assert(metric as nat == (1 + 100 * (n + 1)) % 0x1_0000_0000) by (nonlinear_arith)
                requires
                    metric as nat == ((1 + 100 * n) % 0x1_0000_0000 + 100) % 0x1_0000_0000,
            ;
        }
    }
    assert(lv.take(ls.len() as int) =~= lv);
    if out.len() == 0 {
        Err(text("Nenhum gateway padrão encontrado no Windows"))
    } else {
        Ok(out)
    }
}

/// The entry of the `i`-th route, with the result of pinging its gateway.
pub open spec fn gateway_entry_view(
    i: nat,
    route: (Seq<char>, Seq<char>, u32),
    ping: Option<(Milli, u8)>,
) -> GatewayView {
    GatewayView {
        ip: route.0,
        interface: route.1,
        metric: route.2,
        is_primary: i == 0,
        latency_ms: match ping {
            Some(p) => Some(p.0),
            None => None,
        },
        reachable: match ping {
            Some(p) => p.1 > 0,
            None => false,
        },
    }
}

/// The entry of the `index`-th default route, with the result of pinging its
/// gateway when the ping ran.
pub fn gateway_entry(index: usize, route: Route, ping: Option<&PingResult>) -> (g: Gateway)
    ensures
        g@ == gateway_entry_view(
            index as nat,
            (route.0@, route.1@, route.2),
            match ping {
                Some(p) => Some((p.avg_ms, p.packets_received)),
                None => None,
            },
        ),
        g.reachable <==> (ping matches Some(p) && p.packets_received > 0),
{
    let (ip, interface, metric) = route;
    Gateway {
        ip,
        interface,
        metric,
        is_primary: index == 0,
        latency_ms: match ping {
            Some(p) => Some(p.avg_ms),
            None => None,
        },
        reachable: match ping {
            Some(p) => p.packets_received > 0,
            None => false,
        },
    }
}

/// The number of leading gateways whose metric is at most `m`.
pub open spec fn count_metric_le(s: Seq<GatewayView>, m: u32) -> nat
    decreases s.len(),
{
    if s.len() == 0 || s[0].metric > m {
        0
    } else {
        1 + count_metric_le(s.drop_first(), m)
    }
}

/// Gateways in ascending metric order, equal metrics in their given order.
pub open spec fn sort_by_metric(s: Seq<GatewayView>) -> Seq<GatewayView>
    decreases s.len(),
{
    if s.len() == 0 {
        seq![]
    } else {
        let t = sort_by_metric(s.drop_last());
        t.insert(count_metric_le(t, s.last().metric) as int, s.last())
    }
}

pub proof fn lemma_count_metric_le(s: Seq<GatewayView>, m: u32, i: int)
    requires
        0 <= i <= s.len(),
        forall|j: int| 0 <= j < i ==> (#[trigger] s[j]).metric <= m,
    ensures
        count_metric_le(s, m) == i + count_metric_le(s.skip(i), m),
    decreases i,
{
    if i > 0 {
        assert(s.skip(i) =~= s.drop_first().skip(i - 1));
        lemma_count_metric_le(s.drop_first(), m, i - 1);
    } else {
        assert(s.skip(0) =~= s);
    }
}

pub proof fn lemma_sort_len(s: Seq<GatewayView>)
    ensures
        sort_by_metric(s).len() == s.len(),
    decreases s.len(),
{
    if s.len() > 0 {
        lemma_sort_len(s.drop_last());
        let t = sort_by_metric(s.drop_last());
        lemma_count_metric_bound(t, s.last().metric);
    }
}

pub proof fn lemma_count_metric_bound(s: Seq<GatewayView>, m: u32)
    ensures
        count_metric_le(s, m) <= s.len(),
    decreases s.len(),
{
    if s.len() > 0 {
        lemma_count_metric_bound(s.drop_first(), m);
    }
}

/// Sorts gateways by metric, keeping the order of equal metrics.
pub fn sort_gateways(gateways: Vec<Gateway>) -> (r: Vec<Gateway>)
    ensures
        gateway_views(r@) == sort_by_metric(gateway_views(gateways@)),
{
    let ghost given = gateway_views(gateways@);
    let n = gateways.len();
    let mut rest = gateways;
    let mut rev: Vec<Gateway> = Vec::new();
    while rest.len() > 0
        invariant
            gateway_views(rest@) == given.take(rest@.len() as int),
            rest@.len() + rev@.len() == n,
            n == given.len(),
            forall|j: int| 0 <= j < rev@.len() ==> (#[trigger] rev@[j])@ == given[n - 1 - j],
        decreases rest.len(),
    {
        let ghost before = rest@;
        let g = rest.pop().unwrap();
        assert(rest@ =~= before.drop_last());
        assert(gateway_views(before)[rest@.len() as int] == g@);
        assert(gateway_views(rest@) =~= given.take(rest@.len() as int));
        let ghost rv = rev@;
        rev.push(g);
        assert(forall|j: int| 0 <= j < rv.len() ==> rev@[j] == rv[j]);
    }
    let mut out: Vec<Gateway> = Vec::new();
    assert(given.take(0) =~= seq![]);
    while rev.len() > 0
        invariant
            out@.len() + rev@.len() == n,
            n == given.len(),
            forall|j: int| 0 <= j < rev@.len() ==> (#[trigger] rev@[j])@ == given[n - 1 - j],
            gateway_views(out@) == sort_by_metric(given.take(out@.len() as int)),
        decreases rev.len(),
    {
        let i = out.len();
        let g = rev.pop().unwrap();
        assert(g@ == given[i as int]);
        let m = g.metric;
        let ghost sv = gateway_views(out@);
        let mut pos: usize = 0;
        while pos < out.len() && out[pos].metric <= m
            invariant
                pos <= out@.len(),
                sv == gateway_views(out@),
                forall|j: int| 0 <= j < pos ==> (#[trigger] sv[j]).metric <= m,
            decreases out.len() - pos,
        {
            pos += 1;
        }
        proof {
            lemma_count_metric_le(sv, m, pos as int);
            if pos < out.len() {
                assert(sv.skip(pos as int)[0] == sv[pos as int]);
            }
            assert(given.take(i + 1).drop_last() =~= given.take(i as int));
        }
        out.insert(pos, g);
        assert(gateway_views(out@) =~= sv.insert(pos as int, g@));
    }
    assert(given.take(n as int) =~= given);
    out
}

/// The gateways in report order: sorted by metric when there are several, with
/// the first one then marked primary.
pub open spec fn report_order(s: Seq<GatewayView>) -> Seq<GatewayView> {
    if s.len() > 1 {
        let t = sort_by_metric(s);
        t.update(0, GatewayView { is_primary: true, ..t[0] })
    } else {
        s
    }
}

/// The warning shown when there are several gateways.
pub open spec fn multiple_warning(first: GatewayView) -> Seq<char> {
    "Gateway duplo detectado. Verifique se o roteamento assimétrico está causando instabilidade. Interface primária: "@
        + first.interface + " ("@ + first.ip + ")"@
}

/// The report on the gateways: sorted by metric with the first marked primary
/// when there are several, and then a warning that names the primary interface.
pub fn gateway_info(gateways: Vec<Gateway>) -> (r: GatewayInfo)
    ensures
        gateway_views(r.gateways@) == report_order(gateway_views(gateways@)),
        r.has_multiple == (gateways@.len() > 1),
        opt_view(r.warning) == if gateways@.len() > 1 {
            Some(multiple_warning(report_order(gateway_views(gateways@))[0]))
        } else {
            None::<Seq<char>>
        },
{
    let n = gateways.len();
    if n <= 1 {
        return GatewayInfo { gateways, has_multiple: false, warning: None };
    }
    let ghost gv = gateway_views(gateways@);
    let mut sorted = sort_gateways(gateways);
    proof {
        lemma_sort_len(gv);
    }
    let ghost sv = gateway_views(sorted@);
    let mut first = sorted.remove(0);
    first.is_primary = true;
    sorted.insert(0, first);
    assert(gateway_views(sorted@) =~= sv.update(0, GatewayView { is_primary: true, ..sv[0] }));
    let mut w = text(
        "Gateway duplo detectado. Verifique se o roteamento assimétrico está causando instabilidade. Interface primária: ",
    );
    w.append(sorted[0].interface.as_str());
    w.append(" (");
    w.append(sorted[0].ip.as_str());
    w.append(")");
    GatewayInfo { gateways: sorted, has_multiple: true, warning: Some(w) }
}

} // verus!
