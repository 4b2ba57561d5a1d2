//! Per-hop loss and latency statistics: `mtr --report` output, and the same
//! statistics built from a route trace and pings of its hops.
use vstd::prelude::*;
use crate::num::{parse_milli, parse_milli_v, parse_unsigned, parse_u8_v, Milli};
use crate::route::{str_is, text, Hop, HopView, PingResult, PingView};
use crate::text::{
    char_pred, chars_of, ends_with, filter_map, is_digit, is_digit_char, join, join_range, lines,
    slice_of, span_until, split_lines, split_words, string_of, trim, trim_end_by, trim_end_char,
    trim_v, views, words,
};

verus! {

/// One hop of an MTR report.
pub struct MtrHop {
    pub hop: u8,
    pub host: String,
    pub loss_pct: Milli,
    pub avg_ms: Milli,
    pub best_ms: Milli,
    pub worst_ms: Milli,
    pub jitter_ms: Milli,
    pub quality: String,
}

/// The mathematical value of an [`MtrHop`].
pub struct MtrView {
    pub hop: u8,
    pub host: Seq<char>,
    pub loss_pct: nat,
    pub avg_ms: nat,
    pub best_ms: nat,
    pub worst_ms: nat,
    pub jitter_ms: nat,
    pub quality: Seq<char>,
}

impl View for MtrHop {
    type V = MtrView;

    open spec fn view(&self) -> MtrView {
        MtrView {
            hop: self.hop,
            host: self.host@,
            loss_pct: self.loss_pct as nat,
            avg_ms: self.avg_ms as nat,
            best_ms: self.best_ms as nat,
            worst_ms: self.worst_ms as nat,
            jitter_ms: self.jitter_ms as nat,
            quality: self.quality@,
        }
    }
}

pub open spec fn mtr_views(h: Seq<MtrHop>) -> Seq<MtrView> {
    h.map_values(|x: MtrHop| x@)
}

/// The quality of an MTR hop from its mean latency and loss.
pub open spec fn mtr_quality(avg_ms: nat, loss_pct: nat) -> Seq<char> {
    if avg_ms < 30_000 && loss_pct == 0 {
        "ok"@
    } else if avg_ms < 80_000 || loss_pct <= 2_000 {
        "warning"@
    } else {
        "critical"@
    }
}

pub open spec fn non_digit() -> spec_fn(char) -> bool {
    |c: char| !is_digit(c)
}

pub open spec fn ends_with_percent() -> spec_fn(Seq<char>) -> bool {
    |p: Seq<char>| ends_with(p, "%"@)
}

/// The index of the first token that ends in `%`.
pub open spec fn percent_index(parts: Seq<Seq<char>>) -> Option<int>
    decreases parts.len(),
{
    if parts.len() == 0 {
        None
    } else if ends_with(parts[0], "%"@) {
        Some(0)
    } else {
        match percent_index(parts.drop_first()) {
            Some(k) => Some(k + 1),
            None => None,
        }
    }
}

pub open spec fn milli_or_zero(s: Seq<char>) -> nat {
    match parse_milli(s) {
        Some(x) => x,
        None => 0,
    }
}

/// The hop a line of an MTR report describes, if any.
pub open spec fn mtr_line(raw: Seq<char>) -> Option<MtrView> {
    let line = trim(raw);
    if line.len() == 0 || !is_digit(line[0]) {
        None
    } else {
        let parts = words(line);
        if parts.len() < 8 {
            None
        } else {
            let tok = parts[0].take(span_until(parts[0], non_digit()) as int);
            let hop = match parse_unsigned(tok, u8::MAX as nat) {
                Some(h) => h as u8,
                None => 0,
            };
            if hop == 0 {
                None
            } else {
                match percent_index(parts) {
                    None => None,
                    Some(k) => if k < 2 || parts.len() <= k + 6 {
                        None
                    } else {
                        let loss = milli_or_zero(trim_end_by(parts[k], char_pred('%')));
                        let avg = milli_or_zero(parts[k + 3]);
                        Some(
                            MtrView {
                                hop,
                                host: join(parts.subrange(1, k), " "@),
                                loss_pct: loss,
                                avg_ms: avg,
                                best_ms: milli_or_zero(parts[k + 4]),
                                worst_ms: milli_or_zero(parts[k + 5]),
                                jitter_ms: milli_or_zero(parts[k + 6]),
                                quality: mtr_quality(avg, loss),
                            },
                        )
                    },
                }
            }
        }
    }
}

pub open spec fn mtr_line_fn() -> spec_fn(Seq<char>) -> Option<MtrView> {
    |l: Seq<char>| mtr_line(l)
}

/// The hops of an MTR report, or the error when it describes none.
pub open spec fn mtr_result(output: Seq<char>) -> Result<Seq<MtrView>, Seq<char>> {
    let hops = filter_map(lines(output), mtr_line_fn());
    if hops.len() == 0 {
        Err("Nenhum hop encontrado no MTR"@)
    } else {
        Ok(hops)
    }
}

/// The spread of a hop's latencies.
pub open spec fn spread(min: nat, max: nat) -> nat {
    if max > min {
        (max - min) as nat
    } else {
        0
    }
}

/// An MTR hop made from a route hop.
pub open spec fn from_route_hop(h: HopView) -> MtrView {
    MtrView {
        hop: (h.hop_number % 256) as u8,
        host: h.address,
        loss_pct: h.loss_pct,
        avg_ms: h.avg_ms,
        best_ms: h.min_ms,
        worst_ms: h.max_ms,
        jitter_ms: spread(h.min_ms, h.max_ms),
        quality: h.status,
    }
}

/// A route hop that gave no answer, which is not pinged.
pub open spec fn is_silent(h: HopView) -> bool {
    h.address == "*"@ || h.status == "no_reply"@
}

/// The MTR quality of a ping from its color.
pub open spec fn quality_of_color(color: Seq<char>) -> Seq<char> {
    if color == "red"@ {
        "critical"@
    } else if color == "yellow"@ {
        "warning"@
    } else {
        "ok"@
    }
}

/// An MTR hop made from a route hop and, when it answered, a ping of its address.
pub open spec fn from_pinged_hop(h: HopView, p: Option<PingView>) -> MtrView {
    if is_silent(h) {
        MtrView {
            hop: (h.hop_number % 256) as u8,
            host: "*"@,
            loss_pct: 100_000,
            avg_ms: 0,
            best_ms: 0,
            worst_ms: 0,
            jitter_ms: 0,
            quality: "critical"@,
        }
    } else {
        match p {
            Some(p) => MtrView {
                hop: (h.hop_number % 256) as u8,
                host: h.address,
                loss_pct: p.loss_pct,
                avg_ms: p.avg_ms,
                best_ms: p.min_ms,
                worst_ms: p.max_ms,
                jitter_ms: p.jitter_ms,
                quality: quality_of_color(p.quality_color),
            },
            None => from_route_hop(h),
        }
    }
}

// ---------------------------------------------------------------------------

fn milli_v(s: &Vec<char>) -> (r: Milli)
    ensures
        r == milli_or_zero(s@),
{
    match parse_milli_v(s) {
        Some(x) => x,
        None => 0,
    }
}

fn quality_v(avg: Milli, loss: Milli) -> (r: String)
    ensures
        r@ == mtr_quality(avg as nat, loss as nat),
{
    if avg < 30_000 && loss == 0 {
        text("ok")
    } else if avg < 80_000 || loss <= 2_000 {
        text("warning")
    } else {
        text("critical")
    }
}

fn percent_index_v(parts: &Vec<Vec<char>>) -> (r: Option<usize>)
    ensures
        match r {
            Some(k) => percent_index(views(parts@)) == Some(k as int) && k < parts.len(),
            None => percent_index(views(parts@)) is None,
        },
{
    let ghost ps = views(parts@);
    let mut i: usize = 0;
    assert(ps.skip(0) =~= ps);
    while i < parts.len()
        invariant
            i <= parts.len(),
            ps == views(parts@),
            forall|j: int| 0 <= j < i ==> !ends_with(#[trigger] ps[j], "%"@),
            percent_index(ps) == match percent_index(ps.skip(i as int)) {
                Some(k) => Some(k + i),
                None => None::<int>,
            },
        decreases parts.len() - i,
    {
        assert(ps.skip(i as int).drop_first() =~= ps.skip(i + 1));
        if crate::text::ends_with_lit(&parts[i], "%") {
            return Some(i);
        }
        i += 1;
    }
    assert(ps.skip(i as int) =~= seq![]);
    None
}

fn leading_digits(v: &Vec<char>) -> (r: Vec<char>)
    ensures
        r@ == v@.take(span_until(v@, non_digit()) as int),
{
    let mut i: usize = 0;
    while i < v.len() && is_digit_char(v[i])
        invariant
            i <= v.len(),
            forall|j: int| 0 <= j < i ==> !(non_digit())(#[trigger] v@[j]),
        decreases v.len() - i,
    {
        i += 1;
    }
    proof {
        crate::text::lemma_span_until(v@, non_digit(), i as int);
    }
    let r = slice_of(v, 0, i);
    assert(r@ =~= v@.take(i as int));
    r
}

fn mtr_line_v(raw: &Vec<char>) -> (r: Option<MtrHop>)
    ensures
        match r {
            Some(h) => mtr_line(raw@) == Some(h@),
            None => mtr_line(raw@) is None,
        },
{
    let line = trim_v(raw);
    if line.len() == 0 || !is_digit_char(line[0]) {
        return None;
    }
    let parts = split_words(&line);
    let ghost ps = views(parts@);
    if parts.len() < 8 {
        return None;
    }
    let tok = leading_digits(&parts[0]);
    let hop = match parse_u8_v(&tok) {
        Some(h) => h,
        None => 0,
    };
    if hop == 0 {
        return None;
    }
    let k = match percent_index_v(&parts) {
        Some(k) => k,
        None => return None,
    };
    if k < 2 || parts.len() - 6 <= k {
        return None;
    }
    let loss = milli_v(&trim_end_char(&parts[k], '%'));
    let avg = milli_v(&parts[k + 3]);
    let host = join_range(&parts, 1, k, " ");
    Some(
        MtrHop {
            hop,
            host: string_of(&host),
            loss_pct: loss,
            avg_ms: avg,
            best_ms: milli_v(&parts[k + 4]),
            worst_ms: milli_v(&parts[k + 5]),
            jitter_ms: milli_v(&parts[k + 6]),
            quality: quality_v(avg, loss),
        },
    )
}

/// Reads the hops of `mtr --report` output.
pub fn parse_mtr_output(output: &str) -> (r: Result<Vec<MtrHop>, String>)
    ensures
        match r {
            Ok(h) => mtr_result(output@) == Ok::<Seq<MtrView>, Seq<char>>(mtr_views(h@)),
            Err(e) => mtr_result(output@) == Err::<Seq<MtrView>, Seq<char>>(e@),
        },
{
    let v = chars_of(output);
    let ls = split_lines(&v);
    let ghost lv = views(ls@);
    let ghost f = mtr_line_fn();
    let mut hops: Vec<MtrHop> = Vec::new();
    for i in 0..ls.len()
        invariant
            lv == views(ls@),
            lv == lines(output@),
            f == mtr_line_fn(),
            mtr_views(hops@) == filter_map(lv.take(i as int), f),
    {
        assert(lv.take(i + 1).drop_last() =~= lv.take(i as int));
        let ghost before = mtr_views(hops@);
        let r = mtr_line_v(&ls[i]);
        match r {
            Some(h) => {
                hops.push(h);
                assert(mtr_views(hops@) =~= before + seq![hops@.last()@]);
            },
            None => {},
        }
    }
    assert(lv.take(ls.len() as int) =~= lv);
    if hops.len() == 0 {
        Err(text("Nenhum hop encontrado no MTR"))
    } else {
        Ok(hops)
    }
}

fn spread_v(min: Milli, max: Milli) -> (r: Milli)
    ensures
        r == spread(min as nat, max as nat),
{
    if max > min {
        max - min
    } else {
        0
    }
}

/// An MTR hop made from a route hop: its range of latencies stands for the jitter.
pub fn mtr_hop_from_route(h: Hop) -> (r: MtrHop)
    ensures
        r@ == from_route_hop(h@),
{
    let jitter = spread_v(h.min_ms, h.max_ms);
    MtrHop {
        hop: (h.hop_number % 256) as u8,
        host: h.address,
        loss_pct: h.loss_pct,
        avg_ms: h.avg_ms,
        best_ms: h.min_ms,
        worst_ms: h.max_ms,
        jitter_ms: jitter,
        quality: h.status,
    }
}

/// MTR hops made from the hops of a route trace, in order.
pub fn mtr_hops_from_route(hops: Vec<Hop>) -> (r: Vec<MtrHop>)
    ensures
        r@.len() == hops@.len(),
        forall|i: int| 0 <= i < hops@.len() ==> (#[trigger] r@[i])@ == from_route_hop(hops@[i]@),
{
    let mut hops = hops;
    let ghost given = hops@;
    let n = hops.len();
    let mut rev: Vec<MtrHop> = Vec::new();
    while hops.len() > 0
        invariant
            hops@ == given.take(hops@.len() as int),
            hops@.len() + rev@.len() == n,
            n == given.len(),
            forall|j: int|
                0 <= j < rev@.len() ==> (#[trigger] rev@[j])@ == from_route_hop(
                    given[n - 1 - j]@,
                ),
        decreases hops.len(),
    {
        let ghost before = hops@;
        let h = hops.pop().unwrap();
        assert(hops@ =~= given.take(hops@.len() as int));
        rev.push(mtr_hop_from_route(h));
    }
    let mut out: Vec<MtrHop> = Vec::new();
    while rev.len() > 0
        invariant
            out@.len() + rev@.len() == n,
            forall|j: int|
                0 <= j < rev@.len() ==> (#[trigger] rev@[j])@ == from_route_hop(
                    given[n - 1 - j]@,
                ),
            forall|j: int| 0 <= j < out@.len() ==> (#[trigger] out@[j])@ == from_route_hop(given[j]@),
        decreases rev.len(),
    {
        let h = rev.pop().unwrap();
        out.push(h);
    }
    out
}

/// Whether a route hop gave no answer (and so is not pinged).
pub fn hop_is_silent(h: &Hop) -> (r: bool)
    ensures
        r == is_silent(h@),
{
    str_is(&h.address, "*") || str_is(&h.status, "no_reply")
}

/// An MTR hop made from a route hop and, when it answered, the result of pinging it.
pub fn mtr_hop_from_ping(h: Hop, ping: Option<PingResult>) -> (r: MtrHop)
    ensures
        r@ == from_pinged_hop(
            h@,
            match ping {
                Some(p) => Some(p@),
                None => None,
            },
        ),
{
    if hop_is_silent(&h) {
        return MtrHop {
            hop: (h.hop_number % 256) as u8,
            host: text("*"),
            loss_pct: 100_000,
            avg_ms: 0,
            best_ms: 0,
            worst_ms: 0,
            jitter_ms: 0,
            quality: text("critical"),
        };
    }
    match ping {
        Some(p) => {
            let quality = if str_is(&p.quality_color, "red") {
                text("critical")
            } else if str_is(&p.quality_color, "yellow") {
                text("warning")
            } else {
                text("ok")
            };
            MtrHop {
                hop: (h.hop_number % 256) as u8,
                host: h.address,
                loss_pct: p.loss_pct,
                avg_ms: p.avg_ms,
                best_ms: p.min_ms,
                worst_ms: p.max_ms,
                jitter_ms: p.jitter_ms,
                quality,
            }
        },
        None => mtr_hop_from_route(h),
    }
}

/// The number of pings sent to each hop on Windows: the cycles asked for, at least one.
pub fn mtr_ping_count(cycles: u8) -> (r: u8)
    ensures
        r == if cycles == 0 { 1 } else { cycles },
{
    if cycles == 0 {
        1
    } else {
        cycles
    }
}

pub open spec fn ping_view_of(p: Option<PingResult>) -> Option<PingView> {
    match p {
        Some(x) => Some(x@),
        None => None,
    }
}

/// The MTR hops of Windows: each hop of the route trace with the result of pinging
/// it (`pings` in the same order, `None` where the ping failed or was not made);
/// an error for an empty trace.
pub fn windows_mtr(hops: Vec<Hop>, pings: Vec<Option<PingResult>>) -> (r: Result<Vec<MtrHop>, String>)
    requires
        pings@.len() == hops@.len(),
    ensures
        hops@.len() == 0 <==> r is Err,
        r matches Err(e) ==> e@ == "Nenhum hop encontrado no Windows MTR"@,
        r matches Ok(v) ==> v@.len() == hops@.len() && forall|i: int|
            0 <= i < v@.len() ==> (#[trigger] v@[i])@ == from_pinged_hop(hops@[i]@, ping_view_of(pings@[i])),
{
    if hops.len() == 0 {
        return Err(text("Nenhum hop encontrado no Windows MTR"));
    }
    let mut hops = hops;
    let mut pings = pings;
    let ghost oh = hops@;
    let ghost op = pings@;
    let n = hops.len();
    let mut rev: Vec<MtrHop> = Vec::new();
    while hops.len() > 0
        invariant
            hops@ == oh.take(hops@.len() as int),
            pings@ == op.take(hops@.len() as int),
            pings@.len() == hops@.len(),
            hops@.len() + rev@.len() == n,
            n == oh.len(),
            n == op.len(),
            forall|j: int|
                0 <= j < rev@.len() ==> (#[trigger] rev@[j])@ == from_pinged_hop(
                    oh[n - 1 - j]@,
                    ping_view_of(op[n - 1 - j]),
                ),
        decreases hops.len(),
    {
        let h = hops.pop().unwrap();
        let p = pings.pop().unwrap();
        assert(hops@ =~= oh.take(hops@.len() as int));
        assert(pings@ =~= op.take(hops@.len() as int));
        rev.push(mtr_hop_from_ping(h, p));
    }
    let mut out: Vec<MtrHop> = Vec::new();
    while rev.len() > 0
        invariant
            out@.len() + rev@.len() == n,
            n == oh.len(),
            n == op.len(),
            forall|j: int|
                0 <= j < rev@.len() ==> (#[trigger] rev@[j])@ == from_pinged_hop(
                    oh[n - 1 - j]@,
                    ping_view_of(op[n - 1 - j]),
                ),
            forall|j: int|
                0 <= j < out@.len() ==> (#[trigger] out@[j])@ == from_pinged_hop(
                    oh[j]@,
                    ping_view_of(op[j]),
                ),
        decreases rev.len(),
    {
        let h = rev.pop().unwrap();
        out.push(h);
    }
    Ok(out)
}

/// The hops to report from a run of `mtr --report` (`ran` when `mtr` was found and
/// started): its reading when the run succeeded and its output reads; `None` when
/// the route trace has to stand in instead.
pub fn mtr_report(ran: bool, success: bool, stdout: &str) -> (r: Option<Vec<MtrHop>>)
    ensures
        r is Some <==> (ran && success && mtr_result(stdout@) is Ok),
        r matches Some(h) ==> mtr_result(stdout@) == Ok::<Seq<MtrView>, Seq<char>>(mtr_views(h@)),
{
    if !(ran && success) {
        return None;
    }
    match parse_mtr_output(stdout) {
        Ok(h) => Some(h),
        Err(_) => None,
    }
}

/// The MTR hops of Linux: those of `mtr` where its report can be used, else the
/// hops of the route trace (or its error).
pub fn linux_mtr(report: Option<Vec<MtrHop>>, trace: Result<Vec<Hop>, String>) -> (r: Result<
    Vec<MtrHop>,
    String,
>)
    ensures
        match report {
            Some(h) => r matches Ok(v) && mtr_views(v@) == mtr_views(h@),
            None => match trace {
                Ok(hops) => r matches Ok(v) && v@.len() == hops@.len() && forall|i: int|
                    0 <= i < v@.len() ==> (#[trigger] v@[i])@ == from_route_hop(hops@[i]@),
                Err(e) => r matches Err(x) && x@ == e@,
            },
        },
{
    match report {
        Some(h) => Ok(h),
        None => match trace {
            Ok(hops) => Ok(mtr_hops_from_route(hops)),
            Err(e) => Err(e),
        },
    }
}

} // verus!
