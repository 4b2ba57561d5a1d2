//! The output of Windows `tracert -d`.
use vstd::prelude::*;
use crate::num::{is_number, is_number_v, min_avg_max, parse_milli, parse_milli_v, parse_u32_v,
    parse_unsigned, seq_avg, seq_max, seq_min};
use crate::pattern::{captures, regex_captures};
use crate::route::traceroute::result_matches;
use crate::route::{classify_hop_status, hop_status, hop_views, silent, silent_hop, text, Hop, HopView};
use crate::text::{ascii_lower, lower,
    find, find_v, split_at_char, split_char, is_digit, chars_of, contains, contains_char_v, contains_lit, ends_with, ends_with_lit, filter_map, lines,
    same_as, slice_of, split_lines, split_words, string_of, trim, trim_end_by, trim_start_by,
    trim_v, views, words,
};

verus! {

/// A line that starts with a hop number.
pub const HOP_LINE: &'static str = r"^\s*(\d+)";

pub open spec fn is_hex(c: char) -> bool {
    is_digit(c) || ('a' <= c <= 'f') || ('A' <= c <= 'F')
}

/// One to four hexadecimal digits.
pub open spec fn hex_group(p: Seq<char>) -> bool {
    1 <= p.len() <= 4 && forall|i: int| 0 <= i < p.len() ==> is_hex(#[trigger] p[i])
}

/// Groups of hexadecimal digits separated by single colons.
pub open spec fn hex_groups(s: Seq<char>) -> bool {
    forall|i: int|
        0 <= i < split_at_char(s, ':').len() ==> hex_group(#[trigger] split_at_char(s, ':')[i])
}

/// The number of colon-separated groups of a run, none for an empty run.
pub open spec fn group_count(s: Seq<char>) -> nat {
    if s.len() == 0 {
        0
    } else {
        split_at_char(s, ':').len()
    }
}

/// An IPv6 address written without a dotted IPv4 tail: eight groups, or fewer
/// around one `::` that stands for at least one zero group.
pub open spec fn is_ipv6_text(t: Seq<char>) -> bool {
    match find(t, "::"@) {
        Some(k) => {
            let a = t.take(k);
            let b = t.skip(k + 2);
            (a.len() == 0 || hex_groups(a)) && (b.len() == 0 || hex_groups(b)) && group_count(a)
                + group_count(b) <= 7
        },
        None => split_at_char(t, ':').len() == 8 && hex_groups(t),
    }
}

pub open spec fn bracket() -> spec_fn(char) -> bool {
    |c: char| c == '[' || c == ']'
}

/// `s.trim_matches(['[', ']'])`.
pub open spec fn unbracket(s: Seq<char>) -> Seq<char> {
    trim_end_by(trim_start_by(s, bracket()), bracket())
}

/// `s.eq_ignore_ascii_case("ms")`.
pub open spec fn is_ms_any_case(s: Seq<char>) -> bool {
    s.len() == 2 && ascii_lower(s[0]) == 'm' && ascii_lower(s[1]) == 's'
}

/// A token that names the hop's address: neither a time nor a number, and an IP
/// address or a name with a dot (every IPv4 form has a dot, so only IPv6 needs a
/// check of its own).
pub open spec fn is_address_token(token: Seq<char>) -> bool {
    let t = unbracket(token);
    if t.len() == 0 || t == "*"@ || t == "<1"@ || is_ms_any_case(t) || ends_with(t, "ms"@)
        || is_number(t) {
        false
    } else {
        t.contains('.') || is_ipv6_text(t)
    }
}

/// The last address token of a line, without brackets, or `*`.
pub open spec fn last_address(parts: Seq<Seq<char>>) -> Seq<char>
    decreases parts.len(),
{
    if parts.len() == 0 {
        "*"@
    } else if is_address_token(parts.last()) {
        unbracket(parts.last())
    } else {
        last_address(parts.drop_last())
    }
}

pub open spec fn next_is_ms(parts: Seq<Seq<char>>, i: int) -> bool {
    i + 1 < parts.len() && trim(parts[i + 1]) == "ms"@
}

/// The times read from `parts[i..]`.
pub open spec fn tracert_rtts(parts: Seq<Seq<char>>, i: int) -> Seq<u64>
    decreases parts.len() - i,
{
    if i < 0 || i >= parts.len() {
        seq![]
    } else {
        let token = trim(parts[i]);
        if token == "<1"@ && next_is_ms(parts, i) {
            seq![500u64] + tracert_rtts(parts, i + 2)
        } else if ends_with(token, "ms"@) {
            let raw = token.take(token.len() - 2);
            (if raw == "<1"@ {
                seq![500u64]
            } else {
                match parse_milli(raw) {
                    Some(x) => seq![x as u64],
                    None => seq![],
                }
            }) + tracert_rtts(parts, i + 1)
        } else if next_is_ms(parts, i) && parse_milli(token) is Some {
            seq![parse_milli(token)->0 as u64] + tracert_rtts(parts, i + 2)
        } else {
            tracert_rtts(parts, i + 1)
        }
    }
}

/// The times of a hop, or a single zero when the line shows none.
pub open spec fn hop_times(parts: Seq<Seq<char>>) -> Seq<u64> {
    let t = tracert_rtts(parts, 1);
    if t.len() == 0 {
        seq![0u64]
    } else {
        t
    }
}

/// The hop a line of `tracert` output describes, if any.
pub open spec fn tracert_line(line: Seq<char>) -> Option<HopView> {
    if regex_captures(HOP_LINE@, line) is None {
        None
    } else {
        tracert_hop_of(line)
    }
}

/// The hop a line that starts with a hop number describes, if any.
pub open spec fn tracert_hop_of(line: Seq<char>) -> Option<HopView> {
    let parts = words(line);
    if parts.len() < 2 {
        None
    } else {
        match parse_unsigned(parts[0], u32::MAX as nat) {
            None => None,
            Some(n) => {
                let n = n as u32;
                if parts[1] == "*"@ || contains(line, "Tempo limite"@) || contains(
                    line,
                    "Request timed out"@,
                ) {
                    Some(silent_hop(n, "*"@))
                } else {
                    let t = hop_times(parts);
                    Some(
                        HopView {
                            hop_number: n,
                            address: last_address(parts),
                            hostname: None,
                            avg_ms: seq_avg(t),
                            min_ms: seq_min(t),
                            max_ms: seq_max(t),
                            loss_pct: 0,
                            status: hop_status(seq_avg(t), 0, true),
                        },
                    )
                }
            },
        }
    }
}

pub open spec fn tracert_line_fn() -> spec_fn(Seq<char>) -> Option<HopView> {
    |l: Seq<char>| tracert_line(l)
}

/// The hops of `tracert` output, or the error when it describes none.
pub open spec fn tracert_result(text: Seq<char>) -> Result<Seq<HopView>, Seq<char>> {
    let hops = filter_map(lines(text), tracert_line_fn());
    if hops.len() == 0 {
        Err("Nenhum hop encontrado no tracert"@)
    } else {
        Ok(hops)
    }
}

// ---------------------------------------------------------------------------

/// A token without the square brackets around it.
pub fn unbracket_v(v: &Vec<char>) -> (r: Vec<char>)
    ensures
        r@ == unbracket(v@),
{
    let mut a: usize = 0;
    while a < v.len() && (v[a] == '[' || v[a] == ']')
        invariant
            a <= v.len(),
            forall|j: int| 0 <= j < a ==> (bracket())(#[trigger] v@[j]),
        decreases v.len() - a,
    {
        a += 1;
    }
    proof {
        crate::text::lemma_trim_start_skip(v@, bracket(), a as int);
    }
    let t = slice_of(v, a, v.len());
    assert(t@ =~= v@.skip(a as int));
    assert(t@.len() == 0 || !(bracket())(t@[0]));
    assert(trim_start_by(t@, bracket()) == t@);
    let mut b: usize = t.len();
    while b > 0 && (t[b - 1] == '[' || t[b - 1] == ']')
        invariant
            b <= t.len(),
            forall|j: int| b <= j < t.len() ==> (bracket())(#[trigger] t@[j]),
        decreases b,
    {
        b -= 1;
    }
    proof {
        crate::text::lemma_trim_end_take(t@, bracket(), b as int);
        assert(t@.take(b as int) =~= t@.subrange(0, b as int));
    }
    slice_of(&t, 0, b)
}

fn is_tracert_address_token(token: &Vec<char>) -> (r: bool)
    ensures
        r == is_address_token(token@),
{
    let t = unbracket_v(token);
    let ms_any = t.len() == 2 && lower(t[0]) == 'm' && lower(t[1]) == 's';
    if t.len() == 0 || same_as(&t, "*") || same_as(&t, "<1") || ms_any || ends_with_lit(&t, "ms")
        || is_number_v(&t) {
        false
    } else {
        contains_char_v(&t, '.') || is_ipv6_text_v(&t)
    }
}

fn is_hex_char(c: char) -> (r: bool)
    ensures
        r == is_hex(c),
{
    ('0' <= c && c <= '9') || ('a' <= c && c <= 'f') || ('A' <= c && c <= 'F')
}

fn hex_group_v(p: &Vec<char>) -> (r: bool)
    ensures
        r == hex_group(p@),
{
    if p.len() < 1 || p.len() > 4 {
        return false;
    }
    for i in 0..p.len()
        invariant
            forall|j: int| 0 <= j < i ==> is_hex(#[trigger] p@[j]),
    {
        if !is_hex_char(p[i]) {
            return false;
        }
    }
    true
}

/// Whether every colon-separated group is one to four hex digits; also the count.
fn hex_groups_v(s: &Vec<char>) -> (r: (bool, usize))
    ensures
        r.0 == hex_groups(s@),
        r.1 == split_at_char(s@, ':').len(),
{
    let pieces = split_char(s, ':');
    let ghost pv = views(pieces@);
    for i in 0..pieces.len()
        invariant
            pv == views(pieces@),
            pv == split_at_char(s@, ':'),
            forall|j: int| 0 <= j < i ==> hex_group(#[trigger] pv[j]),
    {
        if !hex_group_v(&pieces[i]) {
            assert(!hex_group(pv[i as int]));
            return (false, pieces.len());
        }
    }
    (true, pieces.len())
}

fn is_ipv6_text_v(t: &Vec<char>) -> (r: bool)
    ensures
        r == is_ipv6_text(t@),
{
    let sep = chars_of("::");
    match find_v(t, &sep) {
        Some(k) => {
            proof {
                reveal_strlit("::");
                crate::text::lemma_find(t@, sep@);
                assert(crate::text::occurs_at(t@, sep@, k as int));
                assert(sep@.len() == 2);
            }
            assert(k + 2 <= t.len());
            let a = slice_of(t, 0, k);
            let b = slice_of(t, k + 2, t.len());
            assert(a@ =~= t@.take(k as int));
            assert(b@ =~= t@.skip(k + 2));
            let (ga, na) = hex_groups_v(&a);
            let (gb, nb) = hex_groups_v(&b);
            let ca: usize = if a.len() == 0 { 0 } else { na };
            let cb: usize = if b.len() == 0 { 0 } else { nb };
            (a.len() == 0 || ga) && (b.len() == 0 || gb) && ca <= 7 && cb <= 7 - ca
        },
        None => {
            let (g, n) = hex_groups_v(t);
            n == 8 && g
        },
    }
}

fn last_address_v(parts: &Vec<Vec<char>>) -> (r: Vec<char>)
    ensures
        r@ == last_address(views(parts@)),
{
    let ghost ps = views(parts@);
    let mut k = parts.len();
    assert(ps.take(k as int) =~= ps);
    while k > 0
        invariant
            k <= parts.len(),
            ps == views(parts@),
            last_address(ps) == last_address(ps.take(k as int)),
        decreases k,
    {
        assert(ps.take(k as int).drop_last() =~= ps.take(k - 1));
        if is_tracert_address_token(&parts[k - 1]) {
            return unbracket_v(&parts[k - 1]);
        }
        k -= 1;
    }
    assert(ps.take(0) =~= seq![]);
    chars_of("*")
}

fn tracert_rtts_v(parts: &Vec<Vec<char>>) -> (r: Vec<u64>)
    ensures
        r@ == tracert_rtts(views(parts@), 1),
{
    let ghost ps = views(parts@);
    let mut out: Vec<u64> = Vec::new();
    let mut i: usize = 1;
    while i < parts.len()
        invariant
            1 <= i,
            ps == views(parts@),
            out@ + tracert_rtts(ps, i as int) == tracert_rtts(ps, 1),
        decreases parts.len() - i,
    {
        let ghost before = out@;
        let token = trim_v(&parts[i]);
        let next_ms = if i + 1 < parts.len() {
            let nx = trim_v(&parts[i + 1]);
            same_as(&nx, "ms")
        } else {
            false
        };
        assert(next_ms == next_is_ms(ps, i as int));
        if same_as(&token, "<1") && next_ms {
            out.push(500);
            assert(out@ =~= before + seq![500u64]);
            i += 2;
        } else if ends_with_lit(&token, "ms") {
            proof {
                reveal_strlit("ms");
            }
            let raw = slice_of(&token, 0, token.len() - 2);
            assert(raw@ =~= token@.take(token@.len() - 2));
            if same_as(&raw, "<1") {
                out.push(500);
                assert(out@ =~= before + seq![500u64]);
            } else {
                match parse_milli_v(&raw) {
                    Some(x) => {
                        out.push(x);
                        assert(out@ =~= before + seq![x]);
                    },
                    None => {
                        assert(out@ =~= before + seq![]);
                    },
                }
            }
            i += 1;
        } else {
            let p = if next_ms {
                parse_milli_v(&token)
            } else {
                None
            };
            match p {
                Some(x) => {
                    out.push(x);
                    assert(out@ =~= before + seq![x]);
                    i += 2;
                },
                None => {
                    i += 1;
                },
            }
        }
    }
    assert(tracert_rtts(ps, i as int) =~= seq![]);
    assert(out@ =~= out@ + tracert_rtts(ps, i as int));
    out
}

fn tracert_line_v(line: &Vec<char>) -> (r: Option<Hop>)
    ensures
        match r {
            Some(h) => tracert_line(line@) == Some(h@),
            None => tracert_line(line@) is None,
        },
{
    let m = captures(HOP_LINE, line);
    if m.is_none() {
        return None;
    }
    tracert_hop(line)
}

/// The hop a line of `tracert` output that starts with a hop number (as
/// [`HOP_LINE`] finds) describes, if any.
pub fn tracert_hop(line: &Vec<char>) -> (r: Option<Hop>)
    ensures
        match r {
            Some(h) => tracert_hop_of(line@) == Some(h@),
            None => tracert_hop_of(line@) is None,
        },
{
    let parts = split_words(line);
    let ghost ps = views(parts@);
    if parts.len() < 2 {
        return None;
    }
    let n = match parse_u32_v(&parts[0]) {
        Some(n) => n,
        None => return None,
    };
    if same_as(&parts[1], "*") || contains_lit(line, "Tempo limite") || contains_lit(
        line,
        "Request timed out",
    ) {
        return Some(silent(n, "*"));
    }
    let mut rtts = tracert_rtts_v(&parts);
    if rtts.len() == 0 {
        rtts.push(0);
        assert(rtts@ =~= seq![0u64]);
    }
    let (mn, avg, mx) = min_avg_max(&rtts);
    let addr = last_address_v(&parts);
    Some(
        Hop {
            hop_number: n,
            address: string_of(&addr),
            hostname: None,
            avg_ms: avg,
            min_ms: mn,
            max_ms: mx,
            loss_pct: 0,
            status: classify_hop_status(avg, 0, true),
        },
    )
}

/// Reads the hops of Windows `tracert -d` output. Host names are left unresolved (`None`).
pub fn parse_tracert_output(output: &str) -> (r: Result<Vec<Hop>, String>)
    ensures
        result_matches(r, tracert_result(output@)),
{
    let v = chars_of(output);
    let ls = split_lines(&v);
    let ghost lv = views(ls@);
    let ghost f = tracert_line_fn();
    let mut hops: Vec<Hop> = Vec::new();
    for i in 0..ls.len()
        invariant
            lv == views(ls@),
            lv == lines(output@),
            f == tracert_line_fn(),
            hop_views(hops@) == filter_map(lv.take(i as int), f),
    {
        assert(lv.take(i + 1).drop_last() =~= lv.take(i as int));
        let ghost before = hop_views(hops@);
        let r = tracert_line_v(&ls[i]);
        match r {
            Some(h) => {
                hops.push(h);
                assert(hop_views(hops@) =~= before + seq![hops@.last()@]);
            },
            None => {},
        }
    }
    assert(lv.take(ls.len() as int) =~= lv);
    if hops.len() == 0 {
        Err(text("Nenhum hop encontrado no tracert"))
    } else {
        Ok(hops)
    }
}

} // verus!
