//! The output of `traceroute -n`.
use vstd::prelude::*;
use crate::num::{
    is_number, is_number_v, min_avg_max, parse_milli, parse_milli_v, parse_u32_v, parse_unsigned,
    seq_avg, seq_max, seq_min,
};
use crate::pattern::{regex_replace_all, replace_all};
use crate::route::{
    classify_hop_status, hop_status, hop_views, silent, silent_hop, Hop, HopView,
};
use crate::text::{
    chars_of, count_where, ends_with, ends_with_lit, filter_map, same_as, is_digit, is_digit_char,
    lines, slice_of, split_lines, split_words, starts_with, starts_with_lit, string_of,
    trim, trim_end_by, trim_v, views, words,
};

verus! {

/// The terminal escape sequences that some `traceroute` builds print.
pub const ANSI_ESCAPE: &'static str = r"\x1B\[[0-9;]*[a-zA-Z]";

pub open spec fn is_star(p: Seq<char>) -> bool {
    p == "*"@ || p == "???"@
}

/// A token that a silent hop line may hold after the hop number.
pub open spec fn is_filler(p: Seq<char>) -> bool {
    is_star(p) || ends_with(p, "ms"@)
}

pub open spec fn all_filler(parts: Seq<Seq<char>>) -> bool {
    forall|k: int| 1 <= k < parts.len() ==> is_filler(#[trigger] parts[k])
}

/// The index, from `i` on, of the first token that is a star or an address
/// (neither a number nor a time).
pub open spec fn address_from(parts: Seq<Seq<char>>, i: int) -> Option<int>
    decreases parts.len() - i,
{
    if i < 0 || i >= parts.len() {
        None
    } else if is_star(parts[i]) || (!is_number(parts[i]) && !ends_with(parts[i], "ms"@)) {
        Some(i)
    } else {
        address_from(parts, i + 1)
    }
}

/// Not part of a number: what is cut from the end of a time token.
pub open spec fn non_numeric() -> spec_fn(char) -> bool {
    |c: char| !is_digit(c) && c != '.'
}

/// The time of a `value unit` pair, when the unit is milliseconds.
pub open spec fn pair_rtt(a: Seq<char>, b: Seq<char>) -> Option<nat> {
    if b == "ms"@ || starts_with(b, "ms"@) {
        let val = trim_end_by(a, non_numeric());
        if val == "<1"@ || val == "<"@ {
            Some(500)
        } else {
            parse_milli(val)
        }
    } else {
        None
    }
}

/// The times of all neighbouring `value ms` pairs.
pub open spec fn pair_rtts(parts: Seq<Seq<char>>) -> Seq<u64>
    decreases parts.len(),
{
    if parts.len() < 2 {
        seq![]
    } else {
        (match pair_rtt(parts[0], parts[1]) {
            Some(x) => seq![x as u64],
            None => seq![],
        }) + pair_rtts(parts.drop_first())
    }
}

/// A token that stands for one probe: a number or a time.
pub open spec fn is_probe(s: Seq<char>) -> bool {
    (s != "ms"@ && ends_with(s, "ms"@)) || is_number(s)
}

pub open spec fn probe_pred() -> spec_fn(Seq<char>) -> bool {
    |s: Seq<char>| is_probe(s)
}

pub open spec fn line_fn() -> spec_fn(Seq<char>) -> Option<HopView> {
    |l: Seq<char>| traceroute_line(l)
}

/// The loss in thousandths of a percent from probes sent and answers.
pub open spec fn probe_loss(expected: nat, answered: nat) -> nat {
    if expected > 0 && expected > answered {
        (expected - answered) as nat * 100_000 / expected
    } else {
        0
    }
}

/// The hop at address `addr`, timed by the tokens that follow it.
pub open spec fn measured_hop(n: u32, addr: Seq<char>, rest: Seq<Seq<char>>) -> HopView {
    let rtts = pair_rtts(rest);
    let loss = probe_loss(count_where(rest, probe_pred()), rtts.len());
    HopView {
        hop_number: n,
        address: addr,
        hostname: None,
        avg_ms: seq_avg(rtts),
        min_ms: seq_min(rtts),
        max_ms: seq_max(rtts),
        loss_pct: loss,
        status: hop_status(seq_avg(rtts), loss, rtts.len() > 0),
    }
}

/// The hop a line of `traceroute` output describes, if any.
pub open spec fn traceroute_line(raw: Seq<char>) -> Option<HopView> {
    let line = trim(raw);
    if line.len() == 0 || (!is_digit(line[0]) && line[0] != ' ') {
        None
    } else {
        let parts = words(line);
        if parts.len() < 2 {
            None
        } else {
            match parse_unsigned(parts[0], u32::MAX as nat) {
                None => None,
                Some(n) => {
                    let n = n as u32;
                    if all_filler(parts) && parts[1] == "*"@ {
                        Some(silent_hop(n, "*"@))
                    } else {
                        match address_from(parts, 1) {
                            None => Some(silent_hop(n, "*"@)),
                            Some(i) => if is_star(parts[i]) {
                                Some(silent_hop(n, "*"@))
                            } else {
                                Some(measured_hop(n, parts[i], parts.skip(i + 1)))
                            },
                        }
                    }
                },
            }
        }
    }
}

/// The hops of `traceroute` output, or the error when it describes none.
pub open spec fn traceroute_result(text: Seq<char>) -> Result<Seq<HopView>, Seq<char>> {
    let hops = filter_map(lines(text), line_fn());
    if hops.len() == 0 {
        Err("Nenhum hop encontrado no traceroute"@)
    } else {
        Ok(hops)
    }
}

/// The times read for a measured hop can be set against its probes: no probe
/// token was counted, or no more times than probe tokens were read. (A line that
/// breaks this is not read: its loss would need fewer probes than answers.)
pub open spec fn probes_balanced(rest: Seq<Seq<char>>) -> bool {
    count_where(rest, probe_pred()) == 0 || pair_rtts(rest).len() <= count_where(rest, probe_pred())
}

/// A line that describes no measured hop, or one whose probes are balanced.
pub open spec fn traceroute_line_ok(raw: Seq<char>) -> bool {
    let line = trim(raw);
    let parts = words(line);
    if line.len() == 0 || (!is_digit(line[0]) && line[0] != ' ') || parts.len() < 2 || parse_unsigned(
        parts[0],
        u32::MAX as nat,
    ) is None || (all_filler(parts) && parts[1] == "*"@) {
        true
    } else {
        match address_from(parts, 1) {
            None => true,
            Some(i) => is_star(parts[i]) || probes_balanced(parts.skip(i + 1)),
        }
    }
}

/// Every line of the text is one that can be read.
pub open spec fn traceroute_text_ok(text: Seq<char>) -> bool {
    forall|i: int| 0 <= i < lines(text).len() ==> traceroute_line_ok(#[trigger] lines(text)[i])
}

/// `raw` without terminal escape sequences.
pub open spec fn strip_ansi_text(raw: Seq<char>) -> Seq<char> {
    regex_replace_all(ANSI_ESCAPE@, raw, ""@)
}

pub open spec fn result_matches(r: Result<Vec<Hop>, String>, s: Result<Seq<HopView>, Seq<char>>) -> bool {
    match r {
        Ok(h) => s == Ok::<Seq<HopView>, Seq<char>>(hop_views(h@)),
        Err(e) => s == Err::<Seq<HopView>, Seq<char>>(e@),
    }
}

// ---------------------------------------------------------------------------

fn is_star_v(p: &Vec<char>) -> (r: bool)
    ensures
        r == is_star(p@),
{
    same_as(p, "*") || same_as(p, "???")
}

fn address_from_v(parts: &Vec<Vec<char>>, i: usize) -> (r: Option<usize>)
    ensures
        match r {
            Some(k) => address_from(views(parts@), i as int) == Some(k as int) && k < parts.len(),
            None => address_from(views(parts@), i as int) is None,
        },
{
    let ghost ps = views(parts@);
    let mut k = i;
    while k < parts.len()
        invariant
            i <= k,
            ps == views(parts@),
            address_from(ps, i as int) == address_from(ps, k as int),
        decreases parts.len() - k,
    {
        let p = &parts[k];
        if is_star_v(p) || (!is_number_v(p) && !ends_with_lit(p, "ms")) {
            return Some(k);
        }
        k += 1;
    }
    None
}

fn trim_non_numeric(v: &Vec<char>) -> (r: Vec<char>)
    ensures
        r@ == trim_end_by(v@, non_numeric()),
{
    let mut b: usize = v.len();
    while b > 0 && !is_digit_char(v[b - 1]) && v[b - 1] != '.'
        invariant
            b <= v.len(),
            forall|j: int| b <= j < v.len() ==> (non_numeric())(#[trigger] v@[j]),
        decreases b,
    {
        b -= 1;
    }
    proof {
        crate::text::lemma_trim_end_take(v@, non_numeric(), b as int);
        assert(v@.take(b as int) =~= v@.subrange(0, b as int));
    }
    slice_of(v, 0, b)
}

fn pair_rtt_v(a: &Vec<char>, b: &Vec<char>) -> (r: Option<u64>)
    ensures
        match r {
            Some(x) => pair_rtt(a@, b@) == Some(x as nat),
            None => pair_rtt(a@, b@) is None,
        },
{
    if same_as(b, "ms") || starts_with_lit(b, "ms") {
        let val = trim_non_numeric(a);
        if same_as(&val, "<1") || same_as(&val, "<") {
            Some(500)
        } else {
            parse_milli_v(&val)
        }
    } else {
        None
    }
}

/// The times of the `value ms` pairs among `parts[from..]`.
fn pair_rtts_v(parts: &Vec<Vec<char>>, from: usize) -> (r: Vec<u64>)
    requires
        from <= parts.len(),
    ensures
        r@ == pair_rtts(views(parts@).skip(from as int)),
{
    let ghost ps = views(parts@);
    let mut out: Vec<u64> = Vec::new();
    let mut j = from;
    assert(out@ + pair_rtts(ps.skip(j as int)) =~= pair_rtts(ps.skip(from as int)));
    while j < parts.len() && parts.len() - j > 1
        invariant
            from <= j <= parts.len(),
            ps == views(parts@),
            out@ + pair_rtts(ps.skip(j as int)) == pair_rtts(ps.skip(from as int)),
        decreases parts.len() - j,
    {
        let ghost rest = ps.skip(j as int);
        assert(rest.drop_first() =~= ps.skip(j + 1));
        assert(rest[0] == parts@[j as int]@ && rest[1] == parts@[j + 1]@);
        let ghost before = out@;
        match pair_rtt_v(&parts[j], &parts[j + 1]) {
            Some(x) => {
                out.push(x);
                assert(out@ =~= before + seq![x]);
            },
            None => {},
        }
        assert(out@ + pair_rtts(ps.skip(j + 1)) =~= before + pair_rtts(rest));
        j += 1;
    }
    assert(pair_rtts(ps.skip(j as int)) =~= seq![]);
    assert(out@ =~= out@ + pair_rtts(ps.skip(j as int)));
    out
}

fn is_probe_v(s: &Vec<char>) -> (r: bool)
    ensures
        r == is_probe(s@),
{
    (!same_as(s, "ms") && ends_with_lit(s, "ms")) || is_number_v(s)
}

/// The number of probe tokens among `parts[from..]`.
fn probe_count_v(parts: &Vec<Vec<char>>, from: usize) -> (r: u64)
    requires
        from <= parts.len(),
    ensures
        r == count_where(views(parts@).skip(from as int), probe_pred()),
{
    let ghost ps = views(parts@);
    let ghost f = probe_pred();
    let mut n: u64 = 0;
    let mut j = from;
    assert(ps.skip(from as int).take(0) =~= seq![]);
    while j < parts.len()
        invariant
            from <= j <= parts.len(),
            ps == views(parts@),
            f == probe_pred(),
            n == count_where(ps.skip(from as int).take(j - from), f),
            n <= j - from,
        decreases parts.len() - j,
    {
        assert(ps.skip(from as int).take(j + 1 - from).drop_last() =~= ps.skip(from as int).take(
            j - from,
        ));
        assert(ps.skip(from as int).take(j + 1 - from).last() == parts@[j as int]@);
        let b = is_probe_v(&parts[j]);
        assert(f(parts@[j as int]@) == b);
        if b {
            n += 1;
        }
        j += 1;
    }
    assert(ps.skip(from as int).take(j - from) =~= ps.skip(from as int));
    n
}

fn probe_loss_v(expected: u64, answered: u64) -> (r: u64)
    ensures
        r == probe_loss(expected as nat, answered as nat),
{
    if expected > 0 && expected > answered {
        let d = expected - answered;
        assert((d as int) * 100_000 / (expected as int) <= 100_000) by (nonlinear_arith)
            requires
                d <= expected,
                expected > 0,
        ;
        ((d as u128 * 100_000) / expected as u128) as u64
    } else {
        0
    }
}

fn measured_hop_v(n: u32, parts: &Vec<Vec<char>>, i: usize) -> (h: Hop)
    requires
        i < parts.len(),
    ensures
        h@ == measured_hop(n, views(parts@)[i as int], views(parts@).skip(i + 1)),
{
    let rtts = pair_rtts_v(parts, i + 1);
    let expected = probe_count_v(parts, i + 1);
    let (mn, avg, mx) = min_avg_max(&rtts);
    let loss = probe_loss_v(expected, rtts.len() as u64);
    let status = classify_hop_status(avg, loss, rtts.len() > 0);
    Hop {
        hop_number: n,
        address: string_of(&parts[i]),
        hostname: None,
        avg_ms: avg,
        min_ms: mn,
        max_ms: mx,
        loss_pct: loss,
        status,
    }
}

fn all_filler_v(parts: &Vec<Vec<char>>) -> (r: bool)
    ensures
        r == all_filler(views(parts@)),
{
    let ghost ps = views(parts@);
    let mut k: usize = 1;
    while k < parts.len()
        invariant
            1 <= k,
            ps == views(parts@),
            forall|j: int| 1 <= j < k ==> is_filler(#[trigger] ps[j]),
        decreases parts.len() - k,
    {
        if !(is_star_v(&parts[k]) || ends_with_lit(&parts[k], "ms")) {
            assert(!is_filler(ps[k as int]));
            return false;
        }
        k += 1;
    }
    true
}

/// The hop a line of `traceroute` output describes, if any.
pub fn traceroute_line_v(raw: &Vec<char>) -> (r: Option<Hop>)
    requires
        traceroute_line_ok(raw@),
    ensures
        match r {
            Some(h) => traceroute_line(raw@) == Some(h@),
            None => traceroute_line(raw@) is None,
        },
{
    let line = trim_v(raw);
    if line.len() == 0 || (!is_digit_char(line[0]) && line[0] != ' ') {
        return None;
    }
    let parts = split_words(&line);
    let ghost ps = views(parts@);
    if parts.len() < 2 {
        return None;
    }
    let n = match parse_u32_v(&parts[0]) {
        Some(n) => n,
        None => return None,
    };
    if all_filler_v(&parts) && same_as(&parts[1], "*") {
        return Some(silent(n, "*"));
    }
    match address_from_v(&parts, 1) {
        None => Some(silent(n, "*")),
        Some(i) => {
            if is_star_v(&parts[i]) {
                Some(silent(n, "*"))
            } else {
                Some(measured_hop_v(n, &parts, i))
            }
        },
    }
}

/// Removes terminal escape sequences.
pub fn strip_ansi(raw: &Vec<char>) -> (r: Vec<char>)
    ensures
        r@ == strip_ansi_text(raw@),
{
    replace_all(ANSI_ESCAPE, raw, "")
}

fn traceroute_hops(text: &Vec<char>) -> (r: Result<Vec<Hop>, String>)
    requires
        traceroute_text_ok(text@),
    ensures
        result_matches(r, traceroute_result(text@)),
{
    let ls = split_lines(text);
    let ghost lv = views(ls@);
    let ghost f = line_fn();
    let mut hops: Vec<Hop> = Vec::new();
    for i in 0..ls.len()
        invariant
            lv == views(ls@),
            lv == lines(text@),
            f == line_fn(),
            traceroute_text_ok(text@),
            hop_views(hops@) == filter_map(lv.take(i as int), f),
    {
        assert(traceroute_line_ok(lines(text@)[i as int]));
        assert(lv.take(i + 1).drop_last() =~= lv.take(i as int));
        assert(lv.take(i + 1).last() == ls@[i as int]@);
        let ghost before = hop_views(hops@);
        let r = traceroute_line_v(&ls[i]);
        assert(f(lv[i as int]) == traceroute_line(ls@[i as int]@));
        match r {
            Some(h) => {
                hops.push(h);
                assert(hop_views(hops@) =~= before + seq![hops@.last()@]);
            },
            None => {},
        }
    }
    assert(lv.take(ls.len() as int) =~= lv);
    if hops.len() == 0 {
        Err(crate::route::text("Nenhum hop encontrado no traceroute"))
    } else {
        Ok(hops)
    }
}

/// Reads the hops of `traceroute -n` output, after removing terminal escape
/// sequences. Host names are left unresolved (`None`).
pub fn parse_traceroute_output(raw: &str) -> (r: Result<Vec<Hop>, String>)
    requires
        traceroute_text_ok(strip_ansi_text(raw@)),
    ensures
        result_matches(r, traceroute_result(strip_ansi_text(raw@))),
{
    let v = chars_of(raw);
    let clean = strip_ansi(&v);
    traceroute_hops(&clean)
}

/// Reads the hops of `traceroute -n` output that holds no escape sequences.
/// Host names are left unresolved (`None`).
pub fn parse_traceroute_text(text: &str) -> (r: Result<Vec<Hop>, String>)
    requires
        traceroute_text_ok(text@),
    ensures
        result_matches(r, traceroute_result(text@)),
{
    let v = chars_of(text);
    traceroute_hops(&v)
}

fn traceroute_line_ok_v(raw: &Vec<char>) -> (r: bool)
    ensures
        r == traceroute_line_ok(raw@),
{
    let line = trim_v(raw);
    if line.len() == 0 || (!is_digit_char(line[0]) && line[0] != ' ') {
        return true;
    }
    let parts = split_words(&line);
    if parts.len() < 2 {
        return true;
    }
    if parse_u32_v(&parts[0]).is_none() {
        return true;
    }
    if all_filler_v(&parts) && same_as(&parts[1], "*") {
        return true;
    }
    match address_from_v(&parts, 1) {
        None => true,
        Some(i) => {
            if is_star_v(&parts[i]) {
                return true;
            }
            let expected = probe_count_v(&parts, i + 1);
            let rtts = pair_rtts_v(&parts, i + 1);
            expected == 0 || rtts.len() as u64 <= expected
        },
    }
}

/// Whether every line of the text can be read.
pub fn traceroute_text_readable(text: &Vec<char>) -> (r: bool)
    ensures
        r == traceroute_text_ok(text@),
{
    let ls = split_lines(text);
    let ghost lv = views(ls@);
    for i in 0..ls.len()
        invariant
            lv == views(ls@),
            lv == lines(text@),
            forall|k: int| 0 <= k < i ==> traceroute_line_ok(#[trigger] lines(text@)[k]),
    {
        assert(lv[i as int] == ls@[i as int]@);
        if !traceroute_line_ok_v(&ls[i]) {
            return false;
        }
    }
    true
}

/// Reads the hops of `traceroute -n` output as [`parse_traceroute_output`] does,
/// when every line of it can be read; `None` when some hop line has more times
/// than probes.
pub fn read_traceroute_output(raw: &str) -> (r: Option<Result<Vec<Hop>, String>>)
    ensures
        r is Some <==> traceroute_text_ok(strip_ansi_text(raw@)),
        r matches Some(x) ==> result_matches(x, traceroute_result(strip_ansi_text(raw@))),
{
    let clean = strip_ansi(&chars_of(raw));
    if traceroute_text_readable(&clean) {
        Some(parse_traceroute_output(raw))
    } else {
        None
    }
}

} // verus!
