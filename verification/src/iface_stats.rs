//! Traffic and error counters of the network interfaces.
use vstd::prelude::*;
use crate::num::{parse_unsigned, parse_unsigned_v, Milli};
use crate::ip::{or_text, or_text_v};
use crate::route::text;
use crate::text::{
    char_pred, chars_of, filter_map, lines, split_lines, split_words, starts_with, starts_with_lit,
    string_of, trim, trim_end_by, trim_end_char, trim_v, views, words,
};

verus! {

/// The counters of one interface; traffic in thousandths of a MiB.
pub struct IfaceStats {
    pub name: String,
    pub rx_mb: Milli,
    pub tx_mb: Milli,
    pub rx_errors: u64,
    pub tx_errors: u64,
    pub rx_dropped: u64,
}

/// The mathematical value of [`IfaceStats`].
pub struct IfaceStatsView {
    pub name: Seq<char>,
    pub rx_mb: nat,
    pub tx_mb: nat,
    pub rx_errors: u64,
    pub tx_errors: u64,
    pub rx_dropped: u64,
}

impl View for IfaceStats {
    type V = IfaceStatsView;

    open spec fn view(&self) -> IfaceStatsView {
        IfaceStatsView {
            name: self.name@,
            rx_mb: self.rx_mb as nat,
            tx_mb: self.tx_mb as nat,
            rx_errors: self.rx_errors,
            tx_errors: self.tx_errors,
            rx_dropped: self.rx_dropped,
        }
    }
}

pub open spec fn stats_views(s: Seq<IfaceStats>) -> Seq<IfaceStatsView> {
    s.map_values(|x: IfaceStats| x@)
}

/// A byte count in thousandths of a MiB, rounded down.
pub open spec fn mib_milli(bytes: nat) -> nat {
    bytes * 1000 / 1_048_576
}

/// A counter field, or 0 when it is missing or does not read as a `u64`.
pub open spec fn counter(parts: Seq<Seq<char>>, i: int) -> nat {
    if 0 <= i < parts.len() {
        match parse_unsigned(parts[i], u64::MAX as nat) {
            Some(x) => x,
            None => 0,
        }
    } else {
        0
    }
}

/// The counters a line of `/proc/net/dev` shows (after its two header lines).
pub open spec fn proc_dev_line(raw: Seq<char>) -> Option<IfaceStatsView> {
    let line = trim(raw);
    let parts = words(line);
    if line.len() == 0 || parts.len() < 10 {
        None
    } else {
        let name = trim_end_by(parts[0], char_pred(':'));
        if starts_with(name, "lo"@) {
            None
        } else {
            Some(
                IfaceStatsView {
                    name,
                    rx_mb: mib_milli(counter(parts, 1)),
                    tx_mb: mib_milli(counter(parts, 9)),
                    rx_errors: counter(parts, 3) as u64,
                    tx_errors: counter(parts, 11) as u64,
                    rx_dropped: counter(parts, 4) as u64,
                },
            )
        }
    }
}

pub open spec fn proc_dev_line_fn() -> spec_fn(Seq<char>) -> Option<IfaceStatsView> {
    |l: Seq<char>| proc_dev_line(l)
}

/// The lines of `/proc/net/dev` after its two header lines.
pub open spec fn proc_dev_body(content: Seq<char>) -> Seq<Seq<char>> {
    let ls = lines(content);
    if ls.len() >= 2 {
        ls.skip(2)
    } else {
        seq![]
    }
}

/// A line that is read as an interface's counters has its transmit-error field
/// (the twelfth word); such a line with only ten or eleven words is not read.
pub open spec fn proc_dev_line_complete(raw: Seq<char>) -> bool {
    let line = trim(raw);
    let parts = words(line);
    (line.len() > 0 && parts.len() >= 10 && !starts_with(
        trim_end_by(parts[0], char_pred(':')),
        "lo"@,
    )) ==> parts.len() >= 12
}

/// Every line of the content that is read as counters is complete.
pub open spec fn proc_dev_complete(content: Seq<char>) -> bool {
    forall|i: int|
        0 <= i < proc_dev_body(content).len() ==> proc_dev_line_complete(
            #[trigger] proc_dev_body(content)[i],
        )
}

/// The counters of `/proc/net/dev`, without the loopback interfaces.
pub open spec fn proc_dev_result(content: Seq<char>) -> Result<Seq<IfaceStatsView>, Seq<char>> {
    let ls = lines(content);
    let body = if ls.len() >= 2 {
        ls.skip(2)
    } else {
        seq![]
    };
    let s = filter_map(body, proc_dev_line_fn());
    if s.len() == 0 {
        Err("Nenhuma estatística de interface encontrada"@)
    } else {
        Ok(s)
    }
}

/// A byte count in thousandths of a MiB.
pub fn to_mib_milli(bytes: u64) -> (r: Milli)
    ensures
        r == mib_milli(bytes as nat),
{
    assert((bytes as int) * 1000 / 1_048_576 <= u64::MAX) by (nonlinear_arith);
    ((bytes as u128 * 1000) / 1_048_576) as u64
}

fn counter_v(parts: &Vec<Vec<char>>, i: usize) -> (r: u64)
    ensures
        r == counter(views(parts@), i as int),
{
    if i < parts.len() {
        match parse_unsigned_v(&parts[i], u64::MAX) {
            Some(x) => x,
            None => 0,
        }
    } else {
        0
    }
}

fn proc_dev_line_v(raw: &Vec<char>) -> (r: Option<IfaceStats>)
    ensures
        match r {
            Some(s) => proc_dev_line(raw@) == Some(s@),
            None => proc_dev_line(raw@) is None,
        },
{
    let line = trim_v(raw);
    let parts = split_words(&line);
    if line.len() == 0 || parts.len() < 10 {
        return None;
    }
    let name = trim_end_char(&parts[0], ':');
    if starts_with_lit(&name, "lo") {
        return None;
    }
    Some(
        IfaceStats {
            name: string_of(&name),
            rx_mb: to_mib_milli(counter_v(&parts, 1)),
            tx_mb: to_mib_milli(counter_v(&parts, 9)),
            rx_errors: counter_v(&parts, 3),
            tx_errors: counter_v(&parts, 11),
            rx_dropped: counter_v(&parts, 4),
        },
    )
}

fn proc_dev_line_complete_v(raw: &Vec<char>) -> (r: bool)
    ensures
        r == proc_dev_line_complete(raw@),
{
    let line = trim_v(raw);
    let parts = split_words(&line);
    if line.len() == 0 || parts.len() < 10 {
        return true;
    }
    let name = trim_end_char(&parts[0], ':');
    starts_with_lit(&name, "lo") || parts.len() >= 12
}

/// Whether every line of `/proc/net/dev` content that names a non-loopback
/// interface with at least ten fields also has its twelfth field.
pub fn proc_net_dev_complete(content: &str) -> (r: bool)
    ensures
        r == proc_dev_complete(content@),
{
    let v = chars_of(content);
    let ls = split_lines(&v);
    let ghost body = proc_dev_body(content@);
    let start: usize = if ls.len() >= 2 { 2 } else { ls.len() };
    proof {
        if ls.len() >= 2 {
            assert(body =~= views(ls@).skip(2));
            assert forall|k: int| 0 <= k < body.len() implies #[trigger] body[k] == ls@[k + 2]@ by {
                assert(views(ls@)[k + 2] == ls@[k + 2]@);
            }
        } else {
            assert(body =~= seq![]);
        }
    }
    let mut i = start;
    while i < ls.len()
        invariant
            start <= i <= ls.len(),
            body == proc_dev_body(content@),
            body.len() == ls.len() - start,
            forall|k: int| 0 <= k < body.len() ==> #[trigger] body[k] == ls@[k + start]@,
            forall|k: int| 0 <= k < i - start ==> proc_dev_line_complete(#[trigger] body[k]),
        decreases ls.len() - i,
    {
        if !proc_dev_line_complete_v(&ls[i]) {
            assert(body[i - start] == ls@[i as int]@);
            assert(!proc_dev_line_complete(proc_dev_body(content@)[i - start]));
            return false;
        }
        assert(body[i - start] == ls@[i as int]@);
        i += 1;
    }
    true
}

/// Reads the counters of `/proc/net/dev` content, leaving out loopback interfaces.
pub fn parse_proc_net_dev(content: &str) -> (r: Result<Vec<IfaceStats>, String>)
    requires
        proc_dev_complete(content@),
    ensures
        match r {
            Ok(s) => proc_dev_result(content@) == Ok::<Seq<IfaceStatsView>, Seq<char>>(
                stats_views(s@),
            ),
            Err(e) => proc_dev_result(content@) == Err::<Seq<IfaceStatsView>, Seq<char>>(e@),
        },
{
    let v = chars_of(content);
    let ls = split_lines(&v);
    let ghost all = views(ls@);
    let ghost f = proc_dev_line_fn();
    let mut out: Vec<IfaceStats> = Vec::new();
    let start: usize = if ls.len() >= 2 { 2 } else { ls.len() };
    let mut i = start;
    assert(all.subrange(start as int, start as int) =~= seq![]);
    while i < ls.len()
        invariant
            start <= i <= ls.len(),
            all == views(ls@),
            f == proc_dev_line_fn(),
            stats_views(out@) == filter_map(all.subrange(start as int, i as int), f),
        decreases ls.len() - i,
    {
        assert(all.subrange(start as int, i + 1).drop_last() =~= all.subrange(start as int, i as int));
        let ghost before = stats_views(out@);
        match proc_dev_line_v(&ls[i]) {
            Some(s) => {
                out.push(s);
                assert(stats_views(out@) =~= before + seq![out@.last()@]);
            },
            None => {},
        }
        i += 1;
    }
    proof {
        if ls.len() >= 2 {
            assert(all.subrange(start as int, ls.len() as int) =~= all.skip(2));
        } else {
            assert(all.subrange(start as int, ls.len() as int) =~= seq![]);
        }
    }
    if out.len() == 0 {
        Err(text("Nenhuma estatística de interface encontrada"))
    } else {
        Ok(out)
    }
}

/// An entry of the Windows adapter statistics (`Get-NetAdapterStatistics` as
/// JSON); a field that is missing or not of the expected JSON type is `None`.
pub struct AdapterCounts {
    pub name: Option<String>,
    pub received_bytes: Option<u64>,
    pub sent_bytes: Option<u64>,
}

/// The Windows adapter statistics as decoded: a list of entries, a single entry,
/// or text that is neither.
pub enum AdapterStatsDoc {
    List(Vec<AdapterCounts>),
    Single(AdapterCounts),
    Unreadable,
}

pub open spec fn or_zero(o: Option<u64>) -> nat {
    match o {
        Some(x) => x as nat,
        None => 0,
    }
}

/// The counters of a Windows adapter entry: only traffic is known there.
pub open spec fn adapter_view(a: AdapterCounts) -> IfaceStatsView {
    IfaceStatsView {
        name: or_text(a.name, "unknown"@),
        rx_mb: mib_milli(or_zero(a.received_bytes)),
        tx_mb: mib_milli(or_zero(a.sent_bytes)),
        rx_errors: 0,
        tx_errors: 0,
        rx_dropped: 0,
    }
}

fn adapter_stats(a: &AdapterCounts) -> (r: IfaceStats)
    ensures
        r@ == adapter_view(*a),
{
    let rx = match a.received_bytes {
        Some(x) => x,
        None => 0,
    };
    let tx = match a.sent_bytes {
        Some(x) => x,
        None => 0,
    };
    IfaceStats {
        name: or_text_v(&a.name, "unknown"),
        rx_mb: to_mib_milli(rx),
        tx_mb: to_mib_milli(tx),
        rx_errors: 0,
        tx_errors: 0,
        rx_dropped: 0,
    }
}

/// The interface counters of the Windows adapter statistics: one per entry of a
/// list (an error for an empty list), the one of a single entry, or an error.
pub fn windows_stats(doc: AdapterStatsDoc) -> (r: Result<Vec<IfaceStats>, String>)
    ensures
        match doc {
            AdapterStatsDoc::List(v) => if v@.len() == 0 {
                r matches Err(e) && e@ == "Nenhuma estatística encontrada no Windows"@
            } else {
                r matches Ok(s) && stats_views(s@) == v@.map_values(|a: AdapterCounts| adapter_view(a))
            },
            AdapterStatsDoc::Single(a) => r matches Ok(s) && stats_views(s@) == seq![adapter_view(a)],
            AdapterStatsDoc::Unreadable => r matches Err(e) && e@
                == "Falha ao parsear estatísticas do Windows"@,
        },
{
    match doc {
        AdapterStatsDoc::List(v) => {
            if v.len() == 0 {
                return Err(text("Nenhuma estatística encontrada no Windows"));
            }
            let mut out: Vec<IfaceStats> = Vec::new();
            for i in 0..v.len()
                invariant
                    out@.len() == i,
                    forall|j: int| 0 <= j < i ==> (#[trigger] out@[j])@ == adapter_view(v@[j]),
            {
                out.push(adapter_stats(&v[i]));
            }
            assert(stats_views(out@) =~= v@.map_values(|a: AdapterCounts| adapter_view(a)));
            Ok(out)
        },
        AdapterStatsDoc::Single(a) => {
            let mut out: Vec<IfaceStats> = Vec::new();
            out.push(adapter_stats(&a));
            assert(stats_views(out@) =~= seq![adapter_view(a)]);
            Ok(out)
        },
        AdapterStatsDoc::Unreadable => Err(text("Falha ao parsear estatísticas do Windows")),
    }
}

} // verus!
