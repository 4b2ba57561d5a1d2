//! The diagnostic report: an executive summary drawn from the collected texts,
//! then each text in its section.
use vstd::prelude::*;
use crate::num::{
    milli_cut_off, parse_milli, parse_milli_v, parse_unsigned, parse_u32_v, push_tenths, read_milli_v,
    tenths_text, Milli,
};
use crate::quality::{classify_latency, latency_quality};
use crate::route::{opt_view, str_is, text};
use crate::text::{
    char_pred, chars_of, contains, contains_char_v, contains_lit, ends_with, ends_with_lit, lines,
    same_as, slice_of, split_at_char, split_char, split_lines, split_words, string_of, trim,
    trim_end_by, trim_end_char, trim_end_lit, trim_end_str, trim_start_by, trim_start_char,
    trim_v, views, words, is_digit, is_digit_char,
};

verus! {

pub const RULE: &'static str = "------------------------------------------------------------\n";

pub const DOUBLE_RULE: &'static str = "============================================================\n";

// ---------------------------------------------------------------------------
// Numbers in the collected texts

/// The digits, points and commas of a text, commas turned into points.
pub open spec fn numeric_chars(s: Seq<char>) -> Seq<char>
    decreases s.len(),
{
    if s.len() == 0 {
        seq![]
    } else {
        let c = s.last();
        numeric_chars(s.drop_last()) + if is_digit(c) || c == '.' {
            seq![c]
        } else if c == ',' {
            seq!['.']
        } else {
            seq![]
        }
    }
}

/// The number a text holds, read from its digits, points and commas.
pub open spec fn number_in(s: Seq<char>) -> Option<nat> {
    let cleaned = numeric_chars(s);
    if cleaned.len() == 0 {
        None
    } else {
        parse_milli(cleaned)
    }
}

/// A time such as `12.5 ms`.
pub open spec fn ms_value(s: Seq<char>) -> Option<nat> {
    number_in(trim(trim_end_str(s, "ms"@)))
}

/// A percentage such as `0.0%`.
pub open spec fn percent_value(s: Seq<char>) -> Option<nat> {
    number_in(trim(trim_end_by(s, char_pred('%'))))
}

/// The digits, points and commas of a text, commas turned into points.
pub fn numeric_chars_v(s: &Vec<char>) -> (r: Vec<char>)
    ensures
        r@ == numeric_chars(s@),
{
    let mut r: Vec<char> = Vec::new();
    for i in 0..s.len()
        invariant
            r@ == numeric_chars(s@.take(i as int)),
    {
        assert(s@.take(i + 1).drop_last() =~= s@.take(i as int));
        let c = s[i];
        let ghost before = r@;
        if is_digit_char(c) || c == '.' {
            r.push(c);
        } else if c == ',' {
            r.push('.');
        }
        assert(r@ =~= numeric_chars(s@.take(i + 1)));
    }
    assert(s@.take(s.len() as int) =~= s@);
    r
}

/// The number a text holds, in thousandths.
pub fn parse_number(s: &Vec<char>) -> (r: Option<Milli>)
    ensures
        match r {
            Some(x) => number_in(s@) == Some(x as nat),
            None => number_in(s@) is None,
        },
{
    let cleaned = numeric_chars_v(s);
    if cleaned.len() == 0 {
        None
    } else {
        parse_milli_v(&cleaned)
    }
}

/// A time such as `12.5 ms`, in thousandths of a millisecond.
pub fn parse_ms(s: &Vec<char>) -> (r: Option<Milli>)
    ensures
        match r {
            Some(x) => ms_value(s@) == Some(x as nat),
            None => ms_value(s@) is None,
        },
{
    parse_number(&trim_v(&trim_end_lit(s, "ms")))
}

/// A percentage such as `0.0%`, in thousandths of a percent.
pub fn parse_percent(s: &Vec<char>) -> (r: Option<Milli>)
    ensures
        match r {
            Some(x) => percent_value(s@) == Some(x as nat),
            None => percent_value(s@) is None,
        },
{
    parse_number(&trim_v(&trim_end_char(s, '%')))
}

/// Some `value ms` pair of words has a value above `threshold`.
pub open spec fn latency_above(ws: Seq<Seq<char>>, threshold: nat) -> bool {
    exists|i: int|
        0 <= i < ws.len() - 1 && ws[i + 1] == "ms"@ && match number_in(#[trigger] ws[i]) {
            Some(v) => v > threshold,
            None => false,
        }
}

/// Whether some word of the text, followed by the word `ms`, reads as a number above
/// `threshold` (thousandths of a ms).
pub fn has_latency_above(text: &Vec<char>, threshold: Milli) -> (r: bool)
    ensures
        r == latency_above(words(text@), threshold as nat),
{
    let ws = split_words(text);
    let ghost wv = views(ws@);
    let mut i: usize = 0;
    while i < ws.len() && ws.len() - i > 1
        invariant
            wv == views(ws@),
            wv == words(text@),
            forall|j: int|
                0 <= j < i && j < wv.len() - 1 ==> !(wv[j + 1] == "ms"@ && match number_in(#[trigger] wv[j]) {
                    Some(v) => v > threshold,
                    None => false,
                }),
        decreases ws.len() - i,
    {
        if same_as(&ws[i + 1], "ms") {
            match parse_number(&ws[i]) {
                Some(v) => {
                    if v > threshold {
                        assert(wv[i as int + 1] == "ms"@ && number_in(wv[i as int]) == Some(v as nat));
                        assert(0 <= i < wv.len() - 1 && wv[i as int + 1] == "ms"@ && match number_in(wv[i as int]) {
                            Some(x) => x > threshold,
                            None => false,
                        });
                        return true;
                    }
                },
                None => {},
            }
        }
        i += 1;
    }
    false
}

// ---------------------------------------------------------------------------
// The ping summary

/// What the report reads of the ping text.
pub struct PingSummary {
    pub avg_ms: Option<Milli>,
    pub loss_pct: Option<Milli>,
    pub quality: Option<String>,
}

pub struct SummaryView {
    pub avg_ms: Option<nat>,
    pub loss_pct: Option<nat>,
    pub quality: Option<Seq<char>>,
}

pub open spec fn opt_nat(o: Option<Milli>) -> Option<nat> {
    match o {
        Some(x) => Some(x as nat),
        None => None,
    }
}

impl View for PingSummary {
    type V = SummaryView;

    open spec fn view(&self) -> SummaryView {
        SummaryView {
            avg_ms: opt_nat(self.avg_ms),
            loss_pct: opt_nat(self.loss_pct),
            quality: opt_view(self.quality),
        }
    }
}

/// Every piece trimmed.
pub open spec fn trim_each(s: Seq<Seq<char>>) -> Seq<Seq<char>>
    decreases s.len(),
{
    if s.len() == 0 {
        seq![]
    } else {
        trim_each(s.drop_last()).push(trim(s.last()))
    }
}

/// The cells of a table line `| a | b | ... |`, trimmed.
pub open spec fn cells_of(line: Seq<char>) -> Seq<Seq<char>> {
    let inner = trim_end_by(trim_start_by(trim(line), char_pred('|')), char_pred('|'));
    trim_each(split_at_char(inner, '|'))
}

/// The summary a row of the ping table gives: loss, mean and quality columns.
pub open spec fn table_row(line: Seq<char>) -> Option<SummaryView> {
    let c = cells_of(line);
    if c.len() >= 9 && parse_unsigned(c[0], u32::MAX as nat) is Some {
        Some(SummaryView { loss_pct: percent_value(c[3]), avg_ms: ms_value(c[5]), quality: Some(c[8]) })
    } else {
        None
    }
}

pub open spec fn first_row(ls: Seq<Seq<char>>) -> Option<SummaryView>
    decreases ls.len(),
{
    if ls.len() == 0 {
        None
    } else {
        match table_row(ls[0]) {
            Some(s) => Some(s),
            None => first_row(ls.drop_first()),
        }
    }
}

pub open spec fn mentions_average(line: Seq<char>) -> bool {
    contains(line, "Médio"@) || contains(line, "Média"@) || contains(line, "méd"@) || contains(
        line,
        "avg"@,
    ) || contains(line, "mdev"@)
}

pub open spec fn mentions_loss(line: Seq<char>) -> bool {
    line.contains('%') && (contains(line, "Perda"@) || contains(line, "perda"@) || contains(
        line,
        "loss"@,
    ))
}

/// The first word that reads as a percentage.
pub open spec fn first_percent(ws: Seq<Seq<char>>) -> Option<nat>
    decreases ws.len(),
{
    if ws.len() == 0 {
        None
    } else {
        match percent_value(ws[0]) {
            Some(v) => Some(v),
            None => first_percent(ws.drop_first()),
        }
    }
}

/// The mean in the second `/`-separated field of a summary line, if it reads.
pub open spec fn slash_average(line: Seq<char>) -> Option<nat> {
    let pieces = split_at_char(line, '/');
    if pieces.len() > 1 {
        let cleaned = numeric_digits(pieces[1]);
        parse_milli(cleaned)
    } else {
        None
    }
}

/// The digits and points of a text.
pub open spec fn numeric_digits(s: Seq<char>) -> Seq<char>
    decreases s.len(),
{
    if s.len() == 0 {
        seq![]
    } else {
        numeric_digits(s.drop_last()) + if is_digit(s.last()) || s.last() == '.' {
            seq![s.last()]
        } else {
            seq![]
        }
    }
}

pub open spec fn loose_step(sm: SummaryView, line: Seq<char>) -> SummaryView {
    let avg = if mentions_average(line) && slash_average(line) is Some {
        slash_average(line)
    } else {
        sm.avg_ms
    };
    let loss = if mentions_loss(line) && first_percent(words(line)) is Some {
        first_percent(words(line))
    } else {
        sm.loss_pct
    };
    SummaryView { avg_ms: avg, loss_pct: loss, quality: sm.quality }
}

pub open spec fn loose_fold(ls: Seq<Seq<char>>) -> SummaryView
    decreases ls.len(),
{
    if ls.len() == 0 {
        SummaryView { avg_ms: None, loss_pct: None, quality: None }
    } else {
        loose_step(loose_fold(ls.drop_last()), ls.last())
    }
}

/// What the report reads of the ping text: the first row of its table, or else
/// a mean and a loss found in free text.
pub open spec fn ping_summary(ping: Seq<char>) -> SummaryView {
    match first_row(lines(ping)) {
        Some(s) => s,
        None => loose_fold(lines(ping)),
    }
}

fn cells_of_v(line: &Vec<char>) -> (r: Vec<Vec<char>>)
    ensures
        views(r@) == cells_of(line@),
{
    let t = trim_v(line);
    let inner = trim_end_char(&trim_start_char(&t, '|'), '|');
    let pieces = split_char(&inner, '|');
    let ghost pv = views(pieces@);
    let mut out: Vec<Vec<char>> = Vec::new();
    assert(views(out@) =~= trim_each(pv.take(0)));
    for i in 0..pieces.len()
        invariant
            pv == views(pieces@),
            views(out@) == trim_each(pv.take(i as int)),
    {
        let ghost before = views(out@);
        assert(pv.take(i + 1).drop_last() =~= pv.take(i as int));
        out.push(trim_v(&pieces[i]));
        assert(views(out@) =~= before.push(out@.last()@));
    }
    assert(pv.take(pieces.len() as int) =~= pv);
    out
}

fn table_row_v(line: &Vec<char>) -> (r: Option<PingSummary>)
    ensures
        match r {
            Some(s) => table_row(line@) == Some(s@),
            None => table_row(line@) is None,
        },
{
    let c = cells_of_v(line);
    let ghost cv = views(c@);
    if c.len() >= 9 && parse_u32_v(&c[0]).is_some() {
        Some(
            PingSummary {
                loss_pct: parse_percent(&c[3]),
                avg_ms: parse_ms(&c[5]),
                quality: Some(string_of(&c[8])),
            },
        )
    } else {
        None
    }
}

fn numeric_digits_v(s: &Vec<char>) -> (r: Vec<char>)
    ensures
        r@ == numeric_digits(s@),
{
    let mut r: Vec<char> = Vec::new();
    for i in 0..s.len()
        invariant
            r@ == numeric_digits(s@.take(i as int)),
    {
        assert(s@.take(i + 1).drop_last() =~= s@.take(i as int));
        let c = s[i];
        if is_digit_char(c) || c == '.' {
            r.push(c);
        }
        assert(r@ =~= numeric_digits(s@.take(i + 1)));
    }
    assert(s@.take(s.len() as int) =~= s@);
    r
}

fn slash_average_v(line: &Vec<char>) -> (r: Option<Milli>)
    ensures
        opt_nat(r) == slash_average(line@),
{
    let pieces = split_char(line, '/');
    if pieces.len() > 1 {
        let cleaned = numeric_digits_v(&pieces[1]);
        parse_milli_v(&cleaned)
    } else {
        None
    }
}

fn first_percent_v(ws: &Vec<Vec<char>>) -> (r: Option<Milli>)
    ensures
        opt_nat(r) == first_percent(views(ws@)),
{
    let ghost wv = views(ws@);
    let mut i: usize = 0;
    assert(wv.skip(0) =~= wv);
    while i < ws.len()
        invariant
            i <= ws.len(),
            wv == views(ws@),
            first_percent(wv) == first_percent(wv.skip(i as int)),
        decreases ws.len() - i,
    {
        assert(wv.skip(i as int).drop_first() =~= wv.skip(i + 1));
        match parse_percent(&ws[i]) {
            Some(v) => {
                return Some(v);
            },
            None => {},
        }
        i += 1;
    }
    assert(wv.skip(i as int) =~= seq![]);
    None
}

fn mentions_average_v(line: &Vec<char>) -> (r: bool)
    ensures
        r == mentions_average(line@),
{
    contains_lit(line, "Médio") || contains_lit(line, "Média") || contains_lit(line, "méd")
        || contains_lit(line, "avg") || contains_lit(line, "mdev")
}

fn mentions_loss_v(line: &Vec<char>) -> (r: bool)
    ensures
        r == mentions_loss(line@),
{
    contains_char_v(line, '%') && (contains_lit(line, "Perda") || contains_lit(line, "perda")
        || contains_lit(line, "loss"))
}

fn first_row_v(ls: &Vec<Vec<char>>) -> (r: Option<PingSummary>)
    ensures
        match r {
            Some(x) => first_row(views(ls@)) == Some(x@),
            None => first_row(views(ls@)) is None,
        },
{
    let ghost lv = views(ls@);
    let mut i: usize = 0;
    assert(lv.skip(0) =~= lv);
    while i < ls.len()
        invariant
            i <= ls.len(),
            lv == views(ls@),
            first_row(lv) == first_row(lv.skip(i as int)),
        decreases ls.len() - i,
    {
        assert(lv.skip(i as int).drop_first() =~= lv.skip(i + 1));
        let row = table_row_v(&ls[i]);
        if row.is_some() {
            return row;
        }
        i += 1;
    }
    assert(lv.skip(i as int) =~= seq![]);
    None
}

fn loose_fold_v(ls: &Vec<Vec<char>>) -> (r: PingSummary)
    ensures
        r@ == loose_fold(views(ls@)),
{
    let ghost lv = views(ls@);
    let mut sm = PingSummary { avg_ms: None, loss_pct: None, quality: None };
    assert(lv.take(0) =~= seq![]);
    for k in 0..ls.len()
        invariant
            lv == views(ls@),
            sm@ == loose_fold(lv.take(k as int)),
    {
        assert(lv.take(k + 1).drop_last() =~= lv.take(k as int));
        let line = &ls[k];
        if mentions_average_v(line) {
            let a = slash_average_v(line);
            if a.is_some() {
                sm.avg_ms = a;
            }
        }
        if mentions_loss_v(line) {
            let ws = split_words(line);
            let l = first_percent_v(&ws);
            if l.is_some() {
                sm.loss_pct = l;
            }
        }
    }
    assert(lv.take(ls.len() as int) =~= lv);
    sm
}

fn extract_ping_summary_v(ping: &Vec<char>) -> (r: PingSummary)
    ensures
        r@ == ping_summary(ping@),
{
    let ls = split_lines(ping);
    match first_row_v(&ls) {
        Some(s) => s,
        None => loose_fold_v(&ls),
    }
}

/// Reads the mean latency, loss and quality the ping text shows.
pub fn extract_ping_summary(ping: &str) -> (r: PingSummary)
    ensures
        r@ == ping_summary(ping@),
{
    extract_ping_summary_v(&chars_of(ping))
}

// ---------------------------------------------------------------------------
// Verdicts

/// The overall quality: poor at 20 % loss or more; else the ping's quality, or
/// the label of its mean (999 ms when unknown); an excellent or good result drops
/// to acceptable when DNS or HTTP is slow.
pub open spec fn general_quality(s: SummaryView, secondary_slow: bool) -> Seq<char> {
    let loss = match s.loss_pct {
        Some(l) => l,
        None => 0,
    };
    let q = match s.quality {
        Some(q) => q,
        None => latency_quality(
            match s.avg_ms {
                Some(a) => a,
                None => 999_000,
            },
        ),
    };
    if loss >= 20_000 {
        "Ruim"@
    } else if secondary_slow && (q == "Excelente"@ || q == "Bom"@) {
        "Aceitável"@
    } else {
        q
    }
}

/// The overall quality line of the report from the ping summary and whether another
/// text shows a slow latency.
pub fn extract_general_quality(s: &PingSummary, secondary_slow: bool) -> (r: String)
    ensures
        r@ == general_quality(s@, secondary_slow),
{
    let loss = match s.loss_pct {
        Some(l) => l,
        None => 0,
    };
    if loss >= 20_000 {
        return text("Ruim");
    }
    let q = match &s.quality {
        Some(q) => string_of(&chars_of(q.as_str())),
        None => {
            let avg = match s.avg_ms {
                Some(a) => a,
                None => 999_000,
            };
            text(classify_latency(avg))
        },
    };
    if secondary_slow && (str_is(&q, "Excelente") || str_is(&q, "Bom")) {
        text("Aceitável")
    } else {
        q
    }
}

/// A word that names a hop: ending in a point, or a number.
pub open spec fn is_hop_word(w: Seq<char>) -> bool {
    ends_with(w, "."@) || parse_unsigned(w, u32::MAX as nat) is Some
}

pub open spec fn first_hop_word(ws: Seq<Seq<char>>) -> Option<Seq<char>>
    decreases ws.len(),
{
    if ws.len() == 0 {
        None
    } else if is_hop_word(ws[0]) {
        Some(ws[0])
    } else {
        first_hop_word(ws.drop_first())
    }
}

/// A word that shows a latency above 100 ms: above `100.000`, or at it with a
/// nonzero digit past the third decimal.
pub open spec fn is_slow_word(w: Seq<char>) -> bool {
    let t = trim_end_str(w, "ms"@);
    match parse_milli(t) {
        Some(v) => v > 100_000 || (v == 100_000 && milli_cut_off(t)),
        None => false,
    }
}

/// The hop named on the first line of the route text that shows a latency above
/// 100 ms and a hop word.
pub open spec fn worst_hop(ls: Seq<Seq<char>>) -> Option<Seq<char>>
    decreases ls.len(),
{
    if ls.len() == 0 {
        None
    } else {
        let ws = words(ls[0]);
        if contains(ls[0], "ms"@) && (exists|i: int| 0 <= i < ws.len() && is_slow_word(#[trigger] ws[i]))
            && first_hop_word(ws) is Some {
            first_hop_word(ws)
        } else {
            worst_hop(ls.drop_first())
        }
    }
}

fn first_hop_word_v(ws: &Vec<Vec<char>>) -> (r: Option<Vec<char>>)
    ensures
        match r {
            Some(w) => first_hop_word(views(ws@)) == Some(w@),
            None => first_hop_word(views(ws@)) is None,
        },
{
    let ghost wv = views(ws@);
    let mut i: usize = 0;
    assert(wv.skip(0) =~= wv);
    while i < ws.len()
        invariant
            i <= ws.len(),
            wv == views(ws@),
            first_hop_word(wv) == first_hop_word(wv.skip(i as int)),
        decreases ws.len() - i,
    {
        assert(wv.skip(i as int).drop_first() =~= wv.skip(i + 1));
        if ends_with_lit(&ws[i], ".") || parse_u32_v(&ws[i]).is_some() {
            return Some(slice_of(&ws[i], 0, ws[i].len()));
        }
        i += 1;
    }
    assert(wv.skip(i as int) =~= seq![]);
    None
}

fn has_slow_word(ws: &Vec<Vec<char>>) -> (r: bool)
    ensures
        r == exists|i: int| 0 <= i < views(ws@).len() && is_slow_word(#[trigger] views(ws@)[i]),
{
    let ghost wv = views(ws@);
    for i in 0..ws.len()
        invariant
            wv == views(ws@),
            forall|j: int| 0 <= j < i ==> !is_slow_word(#[trigger] wv[j]),
    {
        let slow = match read_milli_v(&trim_end_lit(&ws[i], "ms")) {
            Some(p) => p.0 > 100_000 || (p.0 == 100_000 && p.1),
            None => false,
        };
        if slow {
            assert(is_slow_word(wv[i as int]));
            return true;
        }
    }
    false
}

/// The hop the route text shows with a latency above 100 ms, if any.
pub fn extract_worst_hop(traceroute: &str) -> (r: Option<String>)
    ensures
        opt_view(r) == worst_hop(lines(traceroute@)),
{
    let v = chars_of(traceroute);
    let ls = split_lines(&v);
    let ghost lv = views(ls@);
    let mut i: usize = 0;
    assert(lv.skip(0) =~= lv);
    while i < ls.len()
        invariant
            i <= ls.len(),
            lv == views(ls@),
            lv == lines(traceroute@),
            worst_hop(lv) == worst_hop(lv.skip(i as int)),
        decreases ls.len() - i,
    {
        assert(lv.skip(i as int).drop_first() =~= lv.skip(i + 1));
        if contains_lit(&ls[i], "ms") {
            let ws = split_words(&ls[i]);
            if has_slow_word(&ws) {
                match first_hop_word_v(&ws) {
                    Some(h) => {
                        return Some(string_of(&h));
                    },
                    None => {},
                }
            }
        }
        i += 1;
    }
    assert(lv.skip(i as int) =~= seq![]);
    None
}

/// The quick diagnosis of the summary.
pub open spec fn problem_text(
    worst: Option<Seq<char>>,
    loss: Option<nat>,
    dns_slow: bool,
    http_slow: bool,
) -> Seq<char> {
    let l = match loss {
        Some(l) => l,
        None => 0,
    };
    match worst {
        Some(h) => "Salto "@ + h + " com latência elevada"@,
        None => if l > 0 {
            "Perda de pacotes detectada ("@ + tenths_text(l) + "%)"@
        } else if dns_slow && http_slow {
            "DNS/HTTP com latência elevada em alguns destinos"@
        } else if dns_slow {
            "DNS com latência elevada"@
        } else if http_slow {
            "HTTP com latência elevada em alguns destinos"@
        } else {
            "Nenhum problema detectado"@
        },
    }
}

fn problem_text_v(worst: Option<String>, loss: Option<Milli>, dns_slow: bool, http_slow: bool) -> (r: String)
    ensures
        r@ == problem_text(opt_view(worst), opt_nat(loss), dns_slow, http_slow),
{
    let l = match loss {
        Some(l) => l,
        None => 0,
    };
    match worst {
        Some(h) => {
            let mut s = text("Salto ");
            s.append(h.as_str());
            s.append(" com latência elevada");
            s
        },
        None => {
            if l > 0 {
                let mut s = text("Perda de pacotes detectada (");
                push_tenths(&mut s, l);
                s.append("%)");
                s
            } else if dns_slow && http_slow {
                text("DNS/HTTP com latência elevada em alguns destinos")
            } else if dns_slow {
                text("DNS com latência elevada")
            } else if http_slow {
                text("HTTP com latência elevada em alguns destinos")
            } else {
                text("Nenhum problema detectado")
            }
        },
    }
}

// ---------------------------------------------------------------------------
// The report

/// A titled section holding `body` without its surrounding white space.
pub open spec fn section_text(title: Seq<char>, body: Seq<char>) -> Seq<char> {
    title + "\n"@ + RULE@ + trim(body) + "\n\n"@
}

/// Appends a titled section.
pub fn push_section(report: &mut String, title: &str, body: &str)
    ensures
        final(report)@ == old(report)@ + section_text(title@, body@),
{
    report.append(title);
    report.append("\n");
    report.append(RULE);
    let b = string_of(&trim_v(&chars_of(body)));
    report.append(b.as_str());
    report.append("\n\n");
}

/// The sections of the report, in order.
pub open spec fn report_sections(
    ip_local: Seq<char>,
    gateway: Seq<char>,
    ip_pub: Seq<char>,
    dns_info: Seq<char>,
    dns_bench: Seq<char>,
    ping: Seq<char>,
    traceroute: Seq<char>,
    ports: Seq<char>,
    scan: Seq<char>,
    http_timing: Seq<char>,
    iface_stats: Seq<char>,
) -> Seq<Seq<char>> {
    seq![
        section_text("1. Interfaces de rede"@, ip_local),
        section_text("2. Gateways padrao"@, gateway),
        section_text("3. IP publico e geolocalizacao"@, ip_pub),
        section_text("4. DNS lookup do alvo"@, dns_info),
        section_text("5. Benchmark DNS"@, dns_bench),
        section_text("6. Ping do alvo"@, ping),
        section_text("7. Rota / Traceroute"@, traceroute),
        section_text("8. Portas em escuta local"@, ports),
        section_text("9. Scan TCP do alvo"@, scan),
        section_text("10. Tempo HTTP"@, http_timing),
        section_text("11. Estatisticas de interface"@, iface_stats),
    ]
}

/// The texts the report collects, in its section order.
pub open spec fn sections(
    ip_local: Seq<char>,
    gateway: Seq<char>,
    ip_pub: Seq<char>,
    dns_info: Seq<char>,
    dns_bench: Seq<char>,
    ping: Seq<char>,
    traceroute: Seq<char>,
    ports: Seq<char>,
    scan: Seq<char>,
    http_timing: Seq<char>,
    iface_stats: Seq<char>,
) -> Seq<char> {
    section_text("1. Interfaces de rede"@, ip_local) + section_text("2. Gateways padrao"@, gateway)
        + section_text("3. IP publico e geolocalizacao"@, ip_pub) + section_text(
        "4. DNS lookup do alvo"@,
        dns_info,
    ) + section_text("5. Benchmark DNS"@, dns_bench) + section_text("6. Ping do alvo"@, ping)
        + section_text("7. Rota / Traceroute"@, traceroute) + section_text(
        "8. Portas em escuta local"@,
        ports,
    ) + section_text("9. Scan TCP do alvo"@, scan) + section_text("10. Tempo HTTP"@, http_timing)
        + section_text("11. Estatisticas de interface"@, iface_stats)
}

/// The header of the report.
pub open spec fn header_text(now: Seq<char>, started_at: Seq<char>, ended_at: Seq<char>, hostname: Seq<char>) -> Seq<char> {
    "KINGNETWORKTOOLS - RELATORIO DE DIAGNOSTICO\n"@ + DOUBLE_RULE@ + "Data: "@ + now + "\n"@
        + "Inicio da coleta: "@ + started_at + "\n"@ + "Fim da coleta: "@ + ended_at + "\n"@
        + "Host local: "@ + hostname + "\n"@ + DOUBLE_RULE@ + "\n"@
}

/// The executive summary.
pub open spec fn summary_text(quality: Seq<char>, problem: Seq<char>) -> Seq<char> {
    "RESUMO EXECUTIVO\n"@ + RULE@ + "Qualidade geral: "@ + quality + "\n"@ + "Diagnostico rapido: "@
        + problem + "\n"@
        + "Leitura sugerida: verifique primeiro Gateway, DNS, Ping e Rota; depois Portas/HTTP para sintomas especificos.\n"@
        + "\n"@
}

/// The footer of the report.
pub open spec fn footer_text(now: Seq<char>) -> Seq<char> {
    "FIM DO RELATORIO\n"@ + RULE@ + "Gerado por KingNetworkTools em "@ + now + "\n"@
}

/// DNS counts as slow above 100 ms.
pub open spec fn dns_is_slow(dns_bench: Seq<char>) -> bool {
    latency_above(words(dns_bench), 100_000)
}

/// HTTP counts as slow when the text says so or shows more than 250 ms.
pub open spec fn http_is_slow(http_timing: Seq<char>) -> bool {
    contains(http_timing, "slow"@) || latency_above(words(http_timing), 250_000)
}

/// The whole report.
pub open spec fn report_text(
    ip_local: Seq<char>,
    ip_pub: Seq<char>,
    dns_info: Seq<char>,
    ping: Seq<char>,
    traceroute: Seq<char>,
    ports: Seq<char>,
    scan: Seq<char>,
    gateway: Seq<char>,
    dns_bench: Seq<char>,
    http_timing: Seq<char>,
    iface_stats: Seq<char>,
    started_at: Seq<char>,
    ended_at: Seq<char>,
    now: Seq<char>,
    hostname: Seq<char>,
) -> Seq<char> {
    let s = ping_summary(ping);
    let dns_slow = dns_is_slow(dns_bench);
    let http_slow = http_is_slow(http_timing);
    header_text(now, started_at, ended_at, hostname) + summary_text(
        general_quality(s, dns_slow || http_slow),
        problem_text(worst_hop(lines(traceroute)), s.loss_pct, dns_slow, http_slow),
    ) + sections(
        ip_local,
        gateway,
        ip_pub,
        dns_info,
        dns_bench,
        ping,
        traceroute,
        ports,
        scan,
        http_timing,
        iface_stats,
    ) + footer_text(now)
}

fn push_header(r: &mut String, now: &str, started_at: &str, ended_at: &str, hostname: &str)
    ensures
        final(r)@ == old(r)@ + header_text(now@, started_at@, ended_at@, hostname@),
{
    r.append("KINGNETWORKTOOLS - RELATORIO DE DIAGNOSTICO\n");
    r.append(DOUBLE_RULE);
    r.append("Data: ");
    r.append(now);
    r.append("\n");
    r.append("Inicio da coleta: ");
    r.append(started_at);
    r.append("\n");
    r.append("Fim da coleta: ");
    r.append(ended_at);
    r.append("\n");
    r.append("Host local: ");
    r.append(hostname);
    r.append("\n");
    r.append(DOUBLE_RULE);
    r.append("\n");
    assert(r@ =~= old(r)@ + header_text(now@, started_at@, ended_at@, hostname@));
}

fn push_summary(r: &mut String, quality: &str, problem: &str)
    ensures
        final(r)@ == old(r)@ + summary_text(quality@, problem@),
{
    r.append("RESUMO EXECUTIVO\n");
    r.append(RULE);
    r.append("Qualidade geral: ");
    r.append(quality);
    r.append("\n");
    r.append("Diagnostico rapido: ");
    r.append(problem);
    r.append("\n");
    r.append(
        "Leitura sugerida: verifique primeiro Gateway, DNS, Ping e Rota; depois Portas/HTTP para sintomas especificos.\n",
    );
    r.append("\n");
    assert(r@ =~= old(r)@ + summary_text(quality@, problem@));
}

fn push_sections(
    r: &mut String,
    ip_local: &str,
    gateway: &str,
    ip_pub: &str,
    dns_info: &str,
    dns_bench: &str,
    ping: &str,
    traceroute: &str,
    ports: &str,
    scan: &str,
    http_timing: &str,
    iface_stats: &str,
)
    ensures
        final(r)@ == old(r)@ + sections(
            ip_local@,
            gateway@,
            ip_pub@,
            dns_info@,
            dns_bench@,
            ping@,
            traceroute@,
            ports@,
            scan@,
            http_timing@,
            iface_stats@,
        ),
{
    push_section(r, "1. Interfaces de rede", ip_local);
    push_section(r, "2. Gateways padrao", gateway);
    push_section(r, "3. IP publico e geolocalizacao", ip_pub);
    push_section(r, "4. DNS lookup do alvo", dns_info);
    push_section(r, "5. Benchmark DNS", dns_bench);
    push_section(r, "6. Ping do alvo", ping);
    push_section(r, "7. Rota / Traceroute", traceroute);
    push_section(r, "8. Portas em escuta local", ports);
    push_section(r, "9. Scan TCP do alvo", scan);
    push_section(r, "10. Tempo HTTP", http_timing);
    push_section(r, "11. Estatisticas de interface", iface_stats);
    assert(r@ =~= old(r)@ + sections(
        ip_local@,
        gateway@,
        ip_pub@,
        dns_info@,
        dns_bench@,
        ping@,
        traceroute@,
        ports@,
        scan@,
        http_timing@,
        iface_stats@,
    ));
}

fn push_footer(r: &mut String, now: &str)
    ensures
        final(r)@ == old(r)@ + footer_text(now@),
{
    r.append("FIM DO RELATORIO\n");
    r.append(RULE);
    r.append("Gerado por KingNetworkTools em ");
    r.append(now);
    r.append("\n");
    assert(r@ =~= old(r)@ + footer_text(now@));
}

/// Writes the diagnostic report from the collected texts; `now` is the time it is
/// written and `hostname` the name of the local host.
pub fn report_at(
    ip_local: &str,
    ip_pub: &str,
    dns_info: &str,
    ping: &str,
    traceroute: &str,
    ports_str: &str,
    scan: &str,
    gateway: &str,
    dns_bench: &str,
    http_timing: &str,
    iface_stats: &str,
    started_at: &str,
    ended_at: &str,
    now: &str,
    hostname: &str,
) -> (r: String)
    ensures
        r@ == report_text(
            ip_local@,
            ip_pub@,
            dns_info@,
            ping@,
            traceroute@,
            ports_str@,
            scan@,
            gateway@,
            dns_bench@,
            http_timing@,
            iface_stats@,
            started_at@,
            ended_at@,
            now@,
            hostname@,
        ),
{
    let summary = extract_ping_summary(ping);
    let dns_slow = has_latency_above(&chars_of(dns_bench), 100_000);
    let hv = chars_of(http_timing);
    let http_slow = contains_lit(&hv, "slow") || has_latency_above(&hv, 250_000);
    let quality = extract_general_quality(&summary, dns_slow || http_slow);
    let worst = extract_worst_hop(traceroute);
    let problem = problem_text_v(worst, summary.loss_pct, dns_slow, http_slow);
    let mut r = String::new();
    push_header(&mut r, now, started_at, ended_at, hostname);
    push_summary(&mut r, quality.as_str(), problem.as_str());
    push_sections(
        &mut r,
        ip_local,
        gateway,
        ip_pub,
        dns_info,
        dns_bench,
        ping,
        traceroute,
        ports_str,
        scan,
        http_timing,
        iface_stats,
    );
    push_footer(&mut r, now);
    assert(r@ =~= header_text(now@, started_at@, ended_at@, hostname@) + summary_text(quality@, problem@) + sections(
        ip_local@,
        gateway@,
        ip_pub@,
        dns_info@,
        dns_bench@,
        ping@,
        traceroute@,
        ports_str@,
        scan@,
        http_timing@,
        iface_stats@,
    ) + footer_text(now@));
    r
}

/// How the report writes the time it was made: day/month/year hours:minutes:seconds.
pub const REPORT_TIME_FORMAT: &'static str = "%d/%m/%Y %H:%M:%S";

/// Text made only of digits, `/`, `:`, spaces and signs: what the report's time
/// format writes (chrono writes a year outside 0 to 9999 with a sign).
pub open spec fn clock_text(t: Seq<char>) -> bool {
    forall|i: int|
        0 <= i < t.len() ==> {
            let c = #[trigger] t[i];
            is_digit(c) || c == '/' || c == ':' || c == ' ' || c == '+' || c == '-'
        }
}

/// `chrono::Local::now().format(fmt).to_string()`: the local date and time, written
/// with the report's format (chrono's `to_string` panics on a format it cannot read,
/// so no other format is passed). Which time it writes depends on the clock and on
/// the machine's time zone; what is claimed is only the text's shape: each field of
/// that format is a number (`%Y` with a sign outside 0 to 9999), between the
/// format's own `/`, `:` and space.
#[verifier::external_body]
fn local_time_text(fmt: &str) -> (r: String)
    requires
        fmt@ == REPORT_TIME_FORMAT@,
    ensures
        clock_text(r@),
{
    chrono::Local::now().format(fmt).to_string()
}

/// Writes the diagnostic report from the collected texts, dated with the local
/// time at which it is written; `hostname` is the name of the local host.
pub fn generate_report(
    ip_local: &str,
    ip_pub: &str,
    dns_info: &str,
    ping: &str,
    traceroute: &str,
    ports_str: &str,
    scan: &str,
    gateway: &str,
    dns_bench: &str,
    http_timing: &str,
    iface_stats: &str,
    started_at: &str,
    ended_at: &str,
    hostname: &str,
) -> (r: String)
    ensures
        exists|now: Seq<char>|
            clock_text(now) && r@ == report_text(
                ip_local@,
                ip_pub@,
                dns_info@,
                ping@,
                traceroute@,
                ports_str@,
                scan@,
                gateway@,
                dns_bench@,
                http_timing@,
                iface_stats@,
                started_at@,
                ended_at@,
                now,
                hostname@,
            ),
{
    let now = local_time_text(REPORT_TIME_FORMAT);
    report_at(
        ip_local,
        ip_pub,
        dns_info,
        ping,
        traceroute,
        ports_str,
        scan,
        gateway,
        dns_bench,
        http_timing,
        iface_stats,
        started_at,
        ended_at,
        now.as_str(),
        hostname,
    )
}

} // verus!
