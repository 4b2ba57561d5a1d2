//! The output of `tracepath -n`.
use vstd::prelude::*;
use crate::num::{parse_milli, parse_milli_v, parse_u32_v, parse_unsigned};
use crate::pattern::{captures, caps_view, group, group_v, regex_captures};
use crate::route::traceroute::result_matches;
use crate::route::{classify_hop_status, full_loss, hop_status, hop_views, text, Hop, HopView};
use crate::text::{
    chars_of, contains, contains_lit, filter_map, lines, same_as, split_lines, starts_with,
    starts_with_lit, string_of, trim, trim_end_lit, trim_end_str, trim_v, views,
};

verus! {

/// A hop line: number, address, and an optional time or `no reply`.
pub const TRACEPATH_LINE: &'static str = r"^\s*(\d+)\??:\s+(.+?)(?:\s+(\d+\.\d+ms|no reply))?\s*$";

/// A group's text, or nothing when the group is missing.
pub open spec fn group_or_empty(c: Option<Seq<Option<Seq<char>>>>, k: int) -> Seq<char> {
    match group(c, k) {
        Some(g) => g,
        None => seq![],
    }
}

/// The address shown for a hop: `*` for a silent or local hop.
pub open spec fn tracepath_address(raw: Seq<char>) -> Seq<char> {
    let a = trim(raw);
    if a == "no reply"@ || starts_with(a, "LOCAL"@) || starts_with(a, "["@) {
        "*"@
    } else {
        a
    }
}

/// The latency of a hop, 0 when none is shown.
pub open spec fn tracepath_latency(c: Option<Seq<Option<Seq<char>>>>) -> nat {
    match group(c, 3) {
        Some(g) => match parse_milli(trim_end_str(g, "ms"@)) {
            Some(x) => x,
            None => 0,
        },
        None => 0,
    }
}

/// The hop a line of `tracepath` output describes, if any.
pub open spec fn tracepath_line(raw: Seq<char>) -> Option<HopView> {
    let line = trim(raw);
    if line.len() == 0 || contains(line, "pmtu"@) || contains(line, "too big"@) {
        None
    } else {
        tracepath_hop_of(regex_captures(TRACEPATH_LINE@, line))
    }
}

/// The hop that the groups of a [`TRACEPATH_LINE`] match describe; none without a
/// match.
pub open spec fn tracepath_hop_of(c: Option<Seq<Option<Seq<char>>>>) -> Option<HopView> {
    if c is None {
        None
    } else {
        let n = match parse_unsigned(group_or_empty(c, 1), u32::MAX as nat) {
            Some(n) => n as u32,
            None => 0,
        };
        let lat = tracepath_latency(c);
        let has_reply = lat > 0;
        let loss = if has_reply {
            0
        } else {
            full_loss()
        };
        Some(
            HopView {
                hop_number: n,
                address: tracepath_address(group_or_empty(c, 2)),
                hostname: None,
                avg_ms: lat,
                min_ms: lat,
                max_ms: lat,
                loss_pct: loss,
                status: hop_status(lat, loss, has_reply),
            },
        )
    }
}

pub open spec fn tracepath_line_fn() -> spec_fn(Seq<char>) -> Option<HopView> {
    |l: Seq<char>| tracepath_line(l)
}

/// The hops of `tracepath` output, or the error when it describes none.
pub open spec fn tracepath_result(text: Seq<char>) -> Result<Seq<HopView>, Seq<char>> {
    let hops = filter_map(lines(text), tracepath_line_fn());
    if hops.len() == 0 {
        Err("Nenhum hop encontrado no tracepath"@)
    } else {
        Ok(hops)
    }
}

fn group_or_empty_v(c: &Option<Vec<Option<Vec<char>>>>, k: usize) -> (r: Vec<char>)
    ensures
        r@ == group_or_empty(caps_view(*c), k as int),
{
    match group_v(c, k) {
        Some(g) => g,
        None => Vec::new(),
    }
}

fn tracepath_line_v(raw: &Vec<char>) -> (r: Option<Hop>)
    ensures
        match r {
            Some(h) => tracepath_line(raw@) == Some(h@),
            None => tracepath_line(raw@) is None,
        },
{
    let line = trim_v(raw);
    if line.len() == 0 || contains_lit(&line, "pmtu") || contains_lit(&line, "too big") {
        return None;
    }
    let c = captures(TRACEPATH_LINE, &line);
    tracepath_hop(&c)
}

/// The hop that the groups of a [`TRACEPATH_LINE`] match describe (number,
/// address, time); none without a match.
pub fn tracepath_hop(c: &Option<Vec<Option<Vec<char>>>>) -> (r: Option<Hop>)
    ensures
        match r {
            Some(h) => tracepath_hop_of(caps_view(*c)) == Some(h@),
            None => tracepath_hop_of(caps_view(*c)) is None,
        },
{
    if c.is_none() {
        return None;
    }
    let n = match parse_u32_v(&group_or_empty_v(c, 1)) {
        Some(n) => n,
        None => 0,
    };
    let lat: u64 = match group_v(c, 3) {
        Some(g) => match parse_milli_v(&trim_end_lit(&g, "ms")) {
            Some(x) => x,
            None => 0,
        },
        None => 0,
    };
    let has_reply = lat > 0;
    let loss: u64 = if has_reply {
        0
    } else {
        100_000
    };
    let a = trim_v(&group_or_empty_v(c, 2));
    let address = if same_as(&a, "no reply") || starts_with_lit(&a, "LOCAL") || starts_with_lit(
        &a,
        "[",
    ) {
        text("*")
    } else {
        string_of(&a)
    };
    Some(
        Hop {
            hop_number: n,
            address,
            hostname: None,
            avg_ms: lat,
            min_ms: lat,
            max_ms: lat,
            loss_pct: loss,
            status: classify_hop_status(lat, loss, has_reply),
        },
    )
}

/// Reads the hops of `tracepath -n` output. Host names are left unresolved (`None`).
pub fn parse_tracepath_output(output: &str) -> (r: Result<Vec<Hop>, String>)
    ensures
        result_matches(r, tracepath_result(output@)),
{
    let v = chars_of(output);
    let ls = split_lines(&v);
    let ghost lv = views(ls@);
    let ghost f = tracepath_line_fn();
    let mut hops: Vec<Hop> = Vec::new();
    for i in 0..ls.len()
        invariant
            lv == views(ls@),
            lv == lines(output@),
            f == tracepath_line_fn(),
            hop_views(hops@) == filter_map(lv.take(i as int), f),
    {
        assert(lv.take(i + 1).drop_last() =~= lv.take(i as int));
        let ghost before = hop_views(hops@);
        let r = tracepath_line_v(&ls[i]);
        match r {
            Some(h) => {
                hops.push(h);
                assert(hop_views(hops@) =~= before + seq![hops@.last()@]);
            },
            None => {},
        }
    }
    assert(lv.take(ls.len() as int) =~= lv);
    if hops.len() == 0 {
        Err(text("Nenhum hop encontrado no tracepath"))
    } else {
        Ok(hops)
    }
}

} // verus!
