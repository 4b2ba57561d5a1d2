//! Route hops and ping results, their classification, and the choice between
//! the routes that several tracing commands report.
use vstd::prelude::*;
use crate::num::Milli;
use crate::text::{chars_of, same_as, string_of};

pub mod ping;
pub mod tracepath;
pub mod traceroute;
pub mod tracert;

pub use ping::{parse_ping_output, ping_continuous_parse_line, ping_outcome};
pub use tracepath::parse_tracepath_output;
pub use traceroute::{parse_traceroute_output, parse_traceroute_text};
pub use tracert::parse_tracert_output;

verus! {

/// The largest number of hops a route trace asks for.
pub const MAX_HOPS: u32 = 30;

/// One hop of a route.
pub struct Hop {
    pub hop_number: u32,
    pub address: String,
    pub hostname: Option<String>,
    pub avg_ms: Milli,
    pub min_ms: Milli,
    pub max_ms: Milli,
    pub loss_pct: Milli,
    pub status: String,
}

/// The mathematical value of a [`Hop`].
pub struct HopView {
    pub hop_number: u32,
    pub address: Seq<char>,
    pub hostname: Option<Seq<char>>,
    pub avg_ms: nat,
    pub min_ms: nat,
    pub max_ms: nat,
    pub loss_pct: nat,
    pub status: Seq<char>,
}

pub open spec fn opt_view(o: Option<String>) -> Option<Seq<char>> {
    match o {
        Some(s) => Some(s@),
        None => None,
    }
}

impl View for Hop {
    type V = HopView;

    open spec fn view(&self) -> HopView {
        HopView {
            hop_number: self.hop_number,
            address: self.address@,
            hostname: opt_view(self.hostname),
            avg_ms: self.avg_ms as nat,
            min_ms: self.min_ms as nat,
            max_ms: self.max_ms as nat,
            loss_pct: self.loss_pct as nat,
            status: self.status@,
        }
    }
}

/// The outcome of a ping run.
pub struct PingResult {
    pub host: String,
    pub packets_sent: u8,
    pub packets_received: u8,
    pub loss_pct: Milli,
    pub min_ms: Milli,
    pub avg_ms: Milli,
    pub max_ms: Milli,
    pub jitter_ms: Milli,
    pub quality: String,
    pub quality_color: String,
}

/// The mathematical value of a [`PingResult`].
pub struct PingView {
    pub host: Seq<char>,
    pub packets_sent: u8,
    pub packets_received: u8,
    pub loss_pct: nat,
    pub min_ms: nat,
    pub avg_ms: nat,
    pub max_ms: nat,
    pub jitter_ms: nat,
    pub quality: Seq<char>,
    pub quality_color: Seq<char>,
}

impl View for PingResult {
    type V = PingView;

    open spec fn view(&self) -> PingView {
        PingView {
            host: self.host@,
            packets_sent: self.packets_sent,
            packets_received: self.packets_received,
            loss_pct: self.loss_pct as nat,
            min_ms: self.min_ms as nat,
            avg_ms: self.avg_ms as nat,
            max_ms: self.max_ms as nat,
            jitter_ms: self.jitter_ms as nat,
            quality: self.quality@,
            quality_color: self.quality_color@,
        }
    }
}

/// 100 %.
pub open spec fn full_loss() -> nat {
    100_000
}

/// The status of a hop from its mean latency and loss (thousandths).
pub open spec fn hop_status(avg_ms: nat, loss_pct: nat, has_reply: bool) -> Seq<char> {
    if !has_reply {
        "no_reply"@
    } else if avg_ms < 30_000 && loss_pct == 0 {
        "ok"@
    } else if avg_ms < 80_000 || loss_pct <= 5_000 {
        "warning"@
    } else {
        "critical"@
    }
}

/// A hop that gave no answer.
pub open spec fn silent_hop(n: u32, address: Seq<char>) -> HopView {
    HopView {
        hop_number: n,
        address: address,
        hostname: None,
        avg_ms: 0,
        min_ms: 0,
        max_ms: 0,
        loss_pct: full_loss(),
        status: "no_reply"@,
    }
}

/// The quality label and color of a ping from its mean latency, loss and jitter.
pub open spec fn ping_quality(avg_ms: nat, loss_pct: nat, jitter_ms: nat) -> (Seq<char>, Seq<char>) {
    if avg_ms < 10_000 && loss_pct == 0 && jitter_ms < 5_000 {
        ("Excelente"@, "green"@)
    } else if avg_ms < 50_000 && loss_pct <= 1_000 && jitter_ms < 20_000 {
        ("Bom"@, "green"@)
    } else if avg_ms < 100_000 && loss_pct <= 5_000 {
        ("Aceitável"@, "yellow"@)
    } else {
        ("Ruim"@, "red"@)
    }
}

/// The label of a latency.
pub open spec fn latency_label(ms: nat) -> Seq<char> {
    if ms < 5_000 {
        "Excelente"@
    } else if ms < 30_000 {
        "Bom"@
    } else if ms < 80_000 {
        "Aceitável"@
    } else {
        "Ruim"@
    }
}

/// A hop counts toward a route's score when it has an address and answered.
pub open spec fn answered(h: HopView) -> bool {
    h.address != "*"@ && h.status != "no_reply"@
}

/// The number of hops that answered.
pub open spec fn response_score(hops: Seq<HopView>) -> nat
    decreases hops.len(),
{
    if hops.len() == 0 {
        0
    } else {
        response_score(hops.drop_last()) + if answered(hops.last()) {
            1nat
        } else {
            0nat
        }
    }
}

pub open spec fn hop_views(hops: Seq<Hop>) -> Seq<HopView> {
    hops.map_values(|h: Hop| h@)
}

/// The hops with trailing silent hops removed, keeping at least one.
pub open spec fn trimmed_route(hops: Seq<HopView>) -> Seq<HopView>
    decreases hops.len(),
{
    if hops.len() > 1 && hops.last().status == "no_reply"@ {
        trimmed_route(hops.drop_last())
    } else {
        hops
    }
}

/// Whether a string is the literal `lit`.
pub fn str_is(s: &String, lit: &str) -> (r: bool)
    ensures
        r == (s@ == lit@),
{
    let v = chars_of(s.as_str());
    same_as(&v, lit)
}

/// A string holding the literal `lit`.
pub fn text(lit: &str) -> (s: String)
    ensures
        s@ == lit@,
{
    let v = chars_of(lit);
    string_of(&v)
}

/// The status of a hop from its mean latency, loss and whether it answered.
pub fn classify_hop_status(avg_ms: Milli, loss_pct: Milli, has_reply: bool) -> (s: String)
    ensures
        s@ == hop_status(avg_ms as nat, loss_pct as nat, has_reply),
{
    if !has_reply {
        text("no_reply")
    } else if avg_ms < 30_000 && loss_pct == 0 {
        text("ok")
    } else if avg_ms < 80_000 || loss_pct <= 5_000 {
        text("warning")
    } else {
        text("critical")
    }
}

/// The hop `n` that gave no answer.
pub fn silent(n: u32, address: &str) -> (h: Hop)
    ensures
        h@ == silent_hop(n, address@),
{
    Hop {
        hop_number: n,
        address: text(address),
        hostname: None,
        avg_ms: 0,
        min_ms: 0,
        max_ms: 0,
        loss_pct: 100_000,
        status: text("no_reply"),
    }
}

/// The quality label and color of a ping.
pub fn classify_quality(avg_ms: Milli, loss_pct: Milli, jitter_ms: Milli) -> (r: (
    &'static str,
    &'static str,
))
    ensures
        (r.0@, r.1@) == ping_quality(avg_ms as nat, loss_pct as nat, jitter_ms as nat),
{
    if avg_ms < 10_000 && loss_pct == 0 && jitter_ms < 5_000 {
        ("Excelente", "green")
    } else if avg_ms < 50_000 && loss_pct <= 1_000 && jitter_ms < 20_000 {
        ("Bom", "green")
    } else if avg_ms < 100_000 && loss_pct <= 5_000 {
        ("Aceitável", "yellow")
    } else {
        ("Ruim", "red")
    }
}

/// The label of a latency given in thousandths of a millisecond.
pub fn classify_latency(ms: Milli) -> (r: &'static str)
    ensures
        r@ == latency_label(ms as nat),
{
    if ms < 5_000 {
        "Excelente"
    } else if ms < 30_000 {
        "Bom"
    } else if ms < 80_000 {
        "Aceitável"
    } else {
        "Ruim"
    }
}

/// The number of hops of a route that answered.
pub fn route_response_score(hops: &Vec<Hop>) -> (n: usize)
    ensures
        n == response_score(hop_views(hops@)),
{
    let mut n: usize = 0;
    for i in 0..hops.len()
        invariant
            n == response_score(hop_views(hops@.take(i as int))),
            n <= i,
    {
        assert(hop_views(hops@.take(i + 1)).drop_last() =~= hop_views(hops@.take(i as int)));
        if !str_is(&hops[i].address, "*") && !str_is(&hops[i].status, "no_reply") {
            n += 1;
        }
    }
    assert(hops@.take(hops.len() as int) =~= hops@);
    n
}

/// Drops the silent hops at the end of a route, keeping at least one hop.
pub fn trim_trailing_no_reply(hops: Vec<Hop>) -> (r: Vec<Hop>)
    ensures
        hop_views(r@) == trimmed_route(hop_views(hops@)),
{
    let ghost given = hops@;
    let mut hops = hops;
    while hops.len() > 1 && str_is(&hops[hops.len() - 1].status, "no_reply")
        invariant
            trimmed_route(hop_views(hops@)) == trimmed_route(hop_views(given)),
        decreases hops.len(),
    {
        let ghost before = hops@;
        hops.pop();
        assert(hop_views(hops@) =~= hop_views(before).drop_last());
    }
    hops
}

/// The route preferred between the best so far and a new candidate: the
/// candidate when it answers at more hops, else the best so far.
pub open spec fn preferred(best: Option<Seq<HopView>>, candidate: Seq<HopView>) -> Option<Seq<HopView>> {
    let cur = match best {
        Some(b) => response_score(b),
        None => 0,
    };
    if response_score(candidate) > cur {
        Some(candidate)
    } else {
        best
    }
}

pub open spec fn route_view(r: Option<Vec<Hop>>) -> Option<Seq<HopView>> {
    match r {
        Some(v) => Some(hop_views(v@)),
        None => None,
    }
}

/// Keeps the route with more answering hops; a tie keeps the earlier one.
pub fn better_route(best: Option<Vec<Hop>>, candidate: Vec<Hop>) -> (r: Option<Vec<Hop>>)
    ensures
        route_view(r) == preferred(route_view(best), hop_views(candidate@)),
{
    let cur = match &best {
        Some(b) => route_response_score(b),
        None => 0,
    };
    if route_response_score(&candidate) > cur {
        Some(candidate)
    } else {
        best
    }
}

/// The outcome of a route trace: the best route found, with its silent tail
/// dropped, or an error that lists what the commands reported.
pub fn finish_trace_route(best: Option<Vec<Hop>>, errors: &Vec<String>) -> (r: Result<
    Vec<Hop>,
    String,
>)
    ensures
        match best {
            Some(b) if b@.len() > 0 => r matches Ok(h) && hop_views(h@) == trimmed_route(
                hop_views(b@),
            ),
            _ => r matches Err(e) && e@ == "Falha ao executar traceroute/tracepath: "@
                + trace_error_detail(errors@),
        },
{
    if let Some(hops) = best {
        if hops.len() > 0 {
            return Ok(trim_trailing_no_reply(hops));
        }
    }
    let mut msg = text("Falha ao executar traceroute/tracepath: ");
    let detail = join_errors(errors);
    msg.append(detail.as_str());
    Err(msg)
}

pub open spec fn joined(parts: Seq<String>, sep: Seq<char>) -> Seq<char>
    decreases parts.len(),
{
    if parts.len() == 0 {
        seq![]
    } else if parts.len() == 1 {
        parts[0]@
    } else {
        joined(parts.drop_last(), sep) + sep + parts.last()@
    }
}

/// The error details of a failed trace, or a fixed text when there are none.
pub open spec fn trace_error_detail(errors: Seq<String>) -> Seq<char> {
    if errors.len() == 0 {
        "sem resposta dos comandos de rota"@
    } else {
        joined(errors, "; "@)
    }
}

fn join_errors(errors: &Vec<String>) -> (s: String)
    ensures
        s@ == trace_error_detail(errors@),
{
    if errors.len() == 0 {
        return text("sem resposta dos comandos de rota");
    }
    let mut s = String::new();
    for i in 0..errors.len()
        invariant
            errors.len() > 0,
            s@ == joined(errors@.take(i as int), "; "@),
    {
        assert(errors@.take(i + 1).drop_last() =~= errors@.take(i as int));
        if i > 0 {
            s.append("; ");
        } else {
            assert(s@ =~= seq![]);
        }
        s.append(errors[i].as_str());
    }
    assert(errors@.take(errors.len() as int) =~= errors@);
    s
}

} // verus!
