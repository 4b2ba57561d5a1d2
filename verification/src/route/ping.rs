//! The output of `ping`, in the Linux and Windows forms and in English and Portuguese.
use vstd::prelude::*;
use crate::num::{
    min_avg_max, parse_milli, parse_milli_v, parse_unsigned, parse_unsigned_v, seq_avg, seq_max,
    seq_min, Milli,
};
use crate::pattern::{captures, caps_view, regex_captures};
use crate::quality::color_of;
use crate::route::tracepath::group_or_empty;
use crate::route::tracert::unbracket;
use crate::route::{ping_quality, text, PingResult, PingView, classify_quality};
use crate::text::{
    char_pred, chars_of, contains, contains_lit, ends_with, ends_with_lit, find, find_lit, lines,
    same_as, slice_of, span_until, split_lines, split_words, starts_with, starts_with_lit,
    string_of, trim, trim_end_by, trim_end_char, trim_end_lit, trim_end_str, trim_v, views, words,
};

verus! {

/// The packet counts of a Linux summary line (English or Portuguese).
pub const LINUX_LOSS: &'static str = r"(?i)(\d+)\s+(packets transmitted|pacotes transmitidos),\s+(\d+)\s+(received|packets received|recebidos)";

/// The round-trip summary of a Linux ping.
pub const LINUX_RTT: &'static str = r"rtt min/avg/max/mdev\s*=\s*([\d.]+)/([\d.]+)/([\d.]+)/([\d.]+)";

/// The packet counts of a Windows summary line in Portuguese.
pub const WINDOWS_LOSS_PT: &'static str = r"Enviados\s*=\s*(\d+),\s*Recebidos\s*=\s*(\d+),\s*Perdidos\s*=\s*\d+\s*\((\d+)%";

/// The packet counts of a Windows summary line in English.
pub const WINDOWS_LOSS_EN: &'static str = r"Sent\s*=\s*(\d+),\s*Received\s*=\s*(\d+),\s*Lost\s*=\s*\d+\s*\((\d+)%";

/// The round-trip summary of a Windows ping, in either language.
pub const WINDOWS_RTT: &'static str = r"(?i)(m.nimo|minimum)\s*=\s*(\d+).*?(m.ximo|maximum)\s*=\s*(\d+).*?(m.dia|average)\s*=\s*(\d+)";

/// The round-trip summary of a Windows ping in English.
pub const WINDOWS_RTT_EN: &'static str = r"Minimum\s*=\s*(\d+).*?Maximum\s*=\s*(\d+).*?Average\s*=\s*(\d+)";

/// What a ping summary has read so far.
pub struct PingAcc {
    pub sent: u8,
    pub received: u8,
    pub loss: nat,
    pub min: nat,
    pub avg: nat,
    pub max: nat,
    pub jitter: nat,
    pub samples: Seq<u64>,
}

pub open spec fn initial_acc(count: u8) -> PingAcc {
    PingAcc { sent: count, received: 0, loss: 0, min: 0, avg: 0, max: 0, jitter: 0, samples: seq![] }
}

/// Packets sent, read as a `u32` and cut to a `u8`, or `count`.
pub open spec fn sent_from(g: Seq<char>, count: u8) -> u8 {
    match parse_unsigned(g, u32::MAX as nat) {
        Some(x) => (x % 256) as u8,
        None => count,
    }
}

/// Packets received, or 0.
pub open spec fn received_from(g: Seq<char>) -> u8 {
    match parse_unsigned(g, u8::MAX as nat) {
        Some(x) => x as u8,
        None => 0,
    }
}

pub open spec fn milli_or_zero(g: Seq<char>) -> nat {
    match parse_milli(g) {
        Some(x) => x,
        None => 0,
    }
}

/// The share of packets lost, in thousandths of a percent.
pub open spec fn loss_of(sent: u8, received: u8) -> nat {
    if sent > 0 && sent > received {
        ((sent - received) as nat) * 100_000 / (sent as nat)
    } else {
        0
    }
}

/// A line of Linux output read into the summary.
pub open spec fn linux_step(a: PingAcc, line: Seq<char>, count: u8) -> PingAcc {
    linux_step_with(a, regex_captures(LINUX_LOSS@, line), regex_captures(LINUX_RTT@, line), count)
}

/// The summary after a line where [`LINUX_LOSS`] found `c` and [`LINUX_RTT`] found `d`.
pub open spec fn linux_step_with(
    a: PingAcc,
    c: Option<Seq<Option<Seq<char>>>>,
    d: Option<Seq<Option<Seq<char>>>>,
    count: u8,
) -> PingAcc {
    let a1 = if c is Some {
        let s = sent_from(group_or_empty(c, 1), count);
        let r = received_from(group_or_empty(c, 3));
        PingAcc { sent: s, received: r, loss: loss_of(s, r), ..a }
    } else {
        a
    };
    if d is Some {
        PingAcc {
            min: milli_or_zero(group_or_empty(d, 1)),
            avg: milli_or_zero(group_or_empty(d, 2)),
            max: milli_or_zero(group_or_empty(d, 3)),
            jitter: milli_or_zero(group_or_empty(d, 4)),
            ..a1
        }
    } else {
        a1
    }
}

/// A Linux summary line, if the line is one, whose received count is no larger
/// than its sent count (or whose sent count is 0). (A summary that breaks this is
/// not read: the loss would need more answers than packets.)
pub open spec fn linux_counts_ok(line: Seq<char>, count: u8) -> bool {
    loss_counts_ok(regex_captures(LINUX_LOSS@, line), count)
}

/// The counts that [`LINUX_LOSS`] found, if any, have no more received packets
/// than sent ones (or no sent ones).
pub open spec fn loss_counts_ok(c: Option<Seq<Option<Seq<char>>>>, count: u8) -> bool {
    c is Some ==> {
        let s = sent_from(group_or_empty(c, 1), count);
        s == 0 || received_from(group_or_empty(c, 3)) <= s
    }
}

/// Output that can be read: Windows output, or Linux output whose summary lines
/// all have consistent counts.
pub open spec fn ping_counts_ok(output: Seq<char>, count: u8) -> bool {
    looks_like_windows(output) || forall|i: int|
        0 <= i < lines(output).len() ==> linux_counts_ok(#[trigger] lines(output)[i], count)
}

pub open spec fn linux_fold(ls: Seq<Seq<char>>, count: u8) -> PingAcc
    decreases ls.len(),
{
    if ls.len() == 0 {
        initial_acc(count)
    } else {
        linux_step(linux_fold(ls.drop_last(), count), ls.last(), count)
    }
}

/// A line of Windows output read into the summary.
pub open spec fn windows_step(a: PingAcc, line: Seq<char>, count: u8) -> PingAcc {
    windows_step_with(
        a,
        regex_captures(WINDOWS_LOSS_PT@, line),
        regex_captures(WINDOWS_LOSS_EN@, line),
        regex_captures(WINDOWS_RTT@, line),
        regex_captures(WINDOWS_RTT_EN@, line),
        line,
        count,
    )
}

/// The summary after `line`, where the loss patterns (Portuguese, English) found
/// `c` and `ce` and the round-trip patterns found `d` and `de`.
pub open spec fn windows_step_with(
    a: PingAcc,
    c: Option<Seq<Option<Seq<char>>>>,
    ce: Option<Seq<Option<Seq<char>>>>,
    d: Option<Seq<Option<Seq<char>>>>,
    de: Option<Seq<Option<Seq<char>>>>,
    line: Seq<char>,
    count: u8,
) -> PingAcc {
    let a1 = if c is Some {
        PingAcc {
            sent: sent_from(group_or_empty(c, 1), count),
            received: received_from(group_or_empty(c, 2)),
            loss: milli_or_zero(group_or_empty(c, 3)),
            ..a
        }
    } else if ce is Some {
        PingAcc {
            sent: sent_from(group_or_empty(ce, 1), count),
            received: received_from(group_or_empty(ce, 2)),
            loss: milli_or_zero(group_or_empty(ce, 3)),
            ..a
        }
    } else {
        a
    };
    let a2 = if d is Some {
        PingAcc {
            min: milli_or_zero(group_or_empty(d, 2)),
            max: milli_or_zero(group_or_empty(d, 4)),
            avg: milli_or_zero(group_or_empty(d, 6)),
            ..a1
        }
    } else if de is Some {
        PingAcc {
            min: milli_or_zero(group_or_empty(de, 1)),
            max: milli_or_zero(group_or_empty(de, 2)),
            avg: milli_or_zero(group_or_empty(de, 3)),
            ..a1
        }
    } else {
        a1
    };
    match reply_time(line) {
        Some(ms) => PingAcc { samples: a2.samples.push(ms as u64), ..a2 },
        None => a2,
    }
}

pub open spec fn windows_fold(ls: Seq<Seq<char>>, count: u8) -> PingAcc
    decreases ls.len(),
{
    if ls.len() == 0 {
        initial_acc(count)
    } else {
        windows_step(windows_fold(ls.drop_last(), count), ls.last(), count)
    }
}

/// The host named by the `PING host ...` header line, or nothing.
pub open spec fn linux_host(ls: Seq<Seq<char>>) -> Seq<char>
    decreases ls.len(),
{
    if ls.len() == 0 {
        seq![]
    } else {
        let line = trim(ls[0]);
        if starts_with(line, "PING "@) {
            let rest = line.skip(5);
            match find(rest, " "@) {
                Some(e) => rest.take(e),
                None => rest,
            }
        } else {
            linux_host(ls.drop_first())
        }
    }
}

/// The first word of `s`, or nothing.
pub open spec fn first_word(s: Seq<char>) -> Seq<char> {
    if words(s).len() > 0 {
        words(s)[0]
    } else {
        seq![]
    }
}

/// The piece of `line` after the first `" para "`, up to the next one.
pub open spec fn after_para(line: Seq<char>) -> Seq<char> {
    match find(line, " para "@) {
        None => seq![],
        Some(k) => {
            let rest = line.skip(k + 6);
            match find(rest, " para "@) {
                Some(j) => rest.take(j),
                None => rest,
            }
        },
    }
}

pub open spec fn clean_host(rest: Seq<char>) -> Seq<char> {
    unbracket(trim_end_by(trim(rest), char_pred(':')))
}

/// The host a line of Windows ping output names, if it names one.
pub open spec fn windows_host_of_line(raw: Seq<char>) -> Option<Seq<char>> {
    let line = trim(raw);
    if starts_with(line, "Disparando "@) {
        Some(unbracket(first_word(line.skip(11))))
    } else if starts_with(line, "Pinging "@) {
        Some(unbracket(first_word(line.skip(8))))
    } else {
        let h1 = match find(line, "Ping statistics for "@) {
            Some(p) => clean_host(line.skip(p + 20)),
            None => seq![],
        };
        if h1.len() > 0 {
            Some(h1)
        } else {
            let h2 = if contains(line, "Estat"@) {
                clean_host(after_para(line))
            } else {
                seq![]
            };
            if h2.len() > 0 {
                Some(h2)
            } else {
                None
            }
        }
    }
}

/// The host of Windows ping output: from the first line that names one.
pub open spec fn windows_host(ls: Seq<Seq<char>>) -> Seq<char>
    decreases ls.len(),
{
    if ls.len() == 0 {
        seq![]
    } else {
        match windows_host_of_line(ls[0]) {
            Some(h) => h,
            None => windows_host(ls.drop_first()),
        }
    }
}

/// Output of the Windows `ping`, recognised by its summary words.
pub open spec fn looks_like_windows(output: Seq<char>) -> bool {
    contains(output, "Enviados"@) || contains(output, "Recebidos"@) || contains(output, "Sent ="@)
        || contains(output, "Received ="@) || contains(output, "Minimum ="@) || contains(
        output,
        "Mínimo"@,
    ) || contains(output, "Minimo"@)
}

pub open spec fn view_of(
    host: Seq<char>,
    sent: u8,
    received: u8,
    loss: nat,
    min: nat,
    avg: nat,
    max: nat,
    jitter: nat,
) -> PingView {
    PingView {
        host,
        packets_sent: sent,
        packets_received: received,
        loss_pct: loss,
        min_ms: min,
        avg_ms: avg,
        max_ms: max,
        jitter_ms: jitter,
        quality: ping_quality(avg, loss, jitter).0,
        quality_color: ping_quality(avg, loss, jitter).1,
    }
}

/// The result of a Linux summary read to the end, for `host`.
pub open spec fn linux_result(host: Seq<char>, a: PingAcc, count: u8) -> PingView {
    let sent = if a.sent == 0 {
        count
    } else {
        a.sent
    };
    view_of(host, sent, a.received, a.loss, a.min, a.avg, a.max, a.jitter)
}

/// The result of Linux ping output.
pub open spec fn linux_ping(output: Seq<char>, count: u8) -> PingView {
    linux_result(linux_host(lines(output)), linux_fold(lines(output), count), count)
}

/// The result of a Windows summary read to the end, for host `h`: where no mean
/// was printed the reply times stand in for the times, and where no count of
/// replies was printed their number stands in for it.
pub open spec fn windows_result(h: Seq<char>, a: PingAcc) -> PingView {
    let s = a.samples;
    let use_samples = a.avg == 0 && s.len() > 0;
    let min = if use_samples {
        seq_min(s)
    } else {
        a.min
    };
    let max = if use_samples {
        seq_max(s)
    } else {
        a.max
    };
    let avg = if use_samples {
        seq_avg(s)
    } else {
        a.avg
    };
    let count_samples = a.received == 0 && s.len() > 0;
    let received: u8 = if count_samples {
        if s.len() > 255 {
            255
        } else {
            s.len() as u8
        }
    } else {
        a.received
    };
    let sent: u8 = if count_samples && received > a.sent {
        received
    } else {
        a.sent
    };
    let loss = if count_samples {
        loss_of(sent, received)
    } else {
        a.loss
    };
    let jitter = if max > min {
        ((max - min) as nat) / 2
    } else {
        0
    };
    view_of(h, sent, received, loss, min, avg, max, jitter)
}

/// The result of Windows ping output; `host` is used when it is not empty.
pub open spec fn windows_ping(output: Seq<char>, count: u8, host: Seq<char>) -> PingView {
    let h = if host.len() == 0 {
        windows_host(lines(output))
    } else {
        host
    };
    windows_result(h, windows_fold(lines(output), count))
}

/// The result `parse_ping_output` gives.
pub open spec fn ping_view(output: Seq<char>, count: u8) -> PingView {
    if looks_like_windows(output) {
        windows_ping(output, count, linux_host(lines(output)))
    } else {
        linux_ping(output, count)
    }
}

/// Not a digit and not a point: where a time value ends.
pub open spec fn ends_value() -> spec_fn(char) -> bool {
    |c: char| !crate::text::is_digit(c) && c != '.'
}

pub open spec fn space_or_m() -> spec_fn(char) -> bool {
    |c: char| c == ' ' || c == 'm'
}

/// The time after `marker` (`time=` and the like), if the line has one.
pub open spec fn time_after(line: Seq<char>, marker: Seq<char>) -> Option<nat> {
    match find(line, marker) {
        None => None,
        Some(pos) => {
            let rest = line.skip(pos + marker.len());
            let val = trim(rest.take(span_until(rest, ends_value()) as int));
            if val.len() == 0 {
                None
            } else if marker.last() == '<' && val == "1"@ {
                Some(500)
            } else {
                parse_milli(val)
            }
        },
    }
}

/// The first word ending in `ms` that holds a time, among `ws`.
pub open spec fn word_time(ws: Seq<Seq<char>>) -> Option<nat>
    decreases ws.len(),
{
    if ws.len() == 0 {
        None
    } else {
        let w = ws[0];
        let num = trim_end_str(w, "ms"@);
        if ends_with(w, "ms"@) && num == "<1"@ {
            Some(500)
        } else if ends_with(w, "ms"@) && parse_milli(num) is Some {
            parse_milli(num)
        } else {
            word_time(ws.drop_first())
        }
    }
}

/// The reply time a line of ping output shows, in thousandths of a millisecond.
pub open spec fn reply_time(raw: Seq<char>) -> Option<nat> {
    let line = trim(raw);
    if time_after(line, "time="@) is Some {
        time_after(line, "time="@)
    } else if time_after(line, "time<"@) is Some {
        time_after(line, "time<"@)
    } else if time_after(line, "tempo="@) is Some {
        time_after(line, "tempo="@)
    } else if time_after(line, "tempo<"@) is Some {
        time_after(line, "tempo<"@)
    } else if find(line, "time "@) is Some {
        let rest = line.skip(find(line, "time "@)->0 + 5);
        parse_milli(rest.take(span_until(rest, space_or_m()) as int))
    } else if contains(line, "bytes from"@) || contains(line, "bytes="@) || contains(
        line,
        "icmp_seq"@,
    ) {
        word_time(words(line))
    } else {
        None
    }
}

// ---------------------------------------------------------------------------

fn span_ends_value(v: &Vec<char>) -> (r: usize)
    ensures
        r == span_until(v@, ends_value()),
        r <= v.len(),
{
    let mut i: usize = 0;
    while i < v.len() && (('0' <= v[i] && v[i] <= '9') || v[i] == '.')
        invariant
            i <= v.len(),
            forall|j: int| 0 <= j < i ==> !(ends_value())(#[trigger] v@[j]),
        decreases v.len() - i,
    {
        i += 1;
    }
    proof {
        crate::text::lemma_span_until(v@, ends_value(), i as int);
    }
    i
}

fn span_space_or_m(v: &Vec<char>) -> (r: usize)
    ensures
        r == span_until(v@, space_or_m()),
        r <= v.len(),
{
    let mut i: usize = 0;
    while i < v.len() && v[i] != ' ' && v[i] != 'm'
        invariant
            i <= v.len(),
            forall|j: int| 0 <= j < i ==> !(space_or_m())(#[trigger] v@[j]),
        decreases v.len() - i,
    {
        i += 1;
    }
    proof {
        crate::text::lemma_span_until(v@, space_or_m(), i as int);
    }
    i
}

fn time_after_v(line: &Vec<char>, marker: &str) -> (r: Option<Milli>)
    requires
        marker@.len() > 0,
    ensures
        match r {
            Some(x) => time_after(line@, marker@) == Some(x as nat),
            None => time_after(line@, marker@) is None,
        },
{
    let m = chars_of(marker);
    match crate::text::find_v(line, &m) {
        None => None,
        Some(pos) => {
            proof {
                crate::text::lemma_find(line@, m@);
                assert(crate::text::occurs_at(line@, m@, pos as int));
            }
            assert(pos + m.len() <= line.len());
            let rest = slice_of(line, pos + m.len(), line.len());
            assert(rest@ =~= line@.skip(pos + m@.len()));
            let end = span_ends_value(&rest);
            let head = slice_of(&rest, 0, end);
            assert(head@ =~= rest@.take(end as int));
            let val = trim_v(&head);
            if val.len() == 0 {
                None
            } else if m[m.len() - 1] == '<' && same_as(&val, "1") {
                Some(500)
            } else {
                parse_milli_v(&val)
            }
        },
    }
}

fn word_time_v(ws: &Vec<Vec<char>>) -> (r: Option<Milli>)
    ensures
        match r {
            Some(x) => word_time(views(ws@)) == Some(x as nat),
            None => word_time(views(ws@)) is None,
        },
{
    let ghost all = views(ws@);
    let mut i: usize = 0;
    assert(all.skip(0) =~= all);
    while i < ws.len()
        invariant
            i <= ws.len(),
            all == views(ws@),
            word_time(all) == word_time(all.skip(i as int)),
        decreases ws.len() - i,
    {
        assert(all.skip(i as int).drop_first() =~= all.skip(i + 1));
        let w = &ws[i];
        let num = trim_end_lit(w, "ms");
        let e = ends_with_lit(w, "ms");
        if e && same_as(&num, "<1") {
            return Some(500);
        }
        if e {
            match parse_milli_v(&num) {
                Some(x) => {
                    return Some(x);
                },
                None => {},
            }
        }
        i += 1;
    }
    assert(all.skip(i as int) =~= seq![]);
    None
}

/// The reply time a line of ping output shows (`time=12.3 ms`, `tempo<1ms`, ...),
/// in thousandths of a millisecond; `<1` counts as half a millisecond.
pub fn ping_continuous_parse_line(raw: &str) -> (r: Option<Milli>)
    ensures
        match r {
            Some(x) => reply_time(raw@) == Some(x as nat),
            None => reply_time(raw@) is None,
        },
{
    let v = chars_of(raw);
    reply_time_v(&v)
}

fn reply_time_v(raw: &Vec<char>) -> (r: Option<Milli>)
    ensures
        match r {
            Some(x) => reply_time(raw@) == Some(x as nat),
            None => reply_time(raw@) is None,
        },
{
    let line = trim_v(raw);
    proof {
        reveal_strlit("time=");
        reveal_strlit("time<");
        reveal_strlit("tempo=");
        reveal_strlit("tempo<");
        reveal_strlit("time ");
    }
    let t = time_after_v(&line, "time=");
    if t.is_some() {
        return t;
    }
    let t = time_after_v(&line, "time<");
    if t.is_some() {
        return t;
    }
    let t = time_after_v(&line, "tempo=");
    if t.is_some() {
        return t;
    }
    let t = time_after_v(&line, "tempo<");
    if t.is_some() {
        return t;
    }
    match find_lit(&line, "time ") {
        Some(pos) => {
            proof {
                crate::text::lemma_find(line@, "time "@);
                assert(crate::text::occurs_at(line@, "time "@, pos as int));
            }
            assert(pos + 5 <= line.len());
            let rest = slice_of(&line, pos + 5, line.len());
            assert(rest@ =~= line@.skip(pos + 5));
            let end = span_space_or_m(&rest);
            let head = slice_of(&rest, 0, end);
            assert(head@ =~= rest@.take(end as int));
            return parse_milli_v(&head);
        },
        None => {},
    }
    if contains_lit(&line, "bytes from") || contains_lit(&line, "bytes=") || contains_lit(
        &line,
        "icmp_seq",
    ) {
        let ws = split_words(&line);
        word_time_v(&ws)
    } else {
        None
    }
}


/// A ping summary being read (see [`PingAcc`]).
pub struct PingTally {
    pub sent: u8,
    pub received: u8,
    pub loss: Milli,
    pub min: Milli,
    pub avg: Milli,
    pub max: Milli,
    pub jitter: Milli,
    pub samples: Vec<u64>,
}

impl View for PingTally {
    type V = PingAcc;

    open spec fn view(&self) -> PingAcc {
        PingAcc {
            sent: self.sent,
            received: self.received,
            loss: self.loss as nat,
            min: self.min as nat,
            avg: self.avg as nat,
            max: self.max as nat,
            jitter: self.jitter as nat,
            samples: self.samples@,
        }
    }
}

fn group_text(c: &Option<Vec<Option<Vec<char>>>>, k: usize) -> (r: Vec<char>)
    ensures
        r@ == group_or_empty(caps_view(*c), k as int),
{
    match crate::pattern::group_v(c, k) {
        Some(g) => g,
        None => Vec::new(),
    }
}

fn sent_v(g: &Vec<char>, count: u8) -> (r: u8)
    ensures
        r == sent_from(g@, count),
{
    match parse_unsigned_v(g, u32::MAX as u64) {
        Some(x) => (x % 256) as u8,
        None => count,
    }
}

fn received_v(g: &Vec<char>) -> (r: u8)
    ensures
        r == received_from(g@),
{
    match parse_unsigned_v(g, u8::MAX as u64) {
        Some(x) => x as u8,
        None => 0,
    }
}

fn milli_v(g: &Vec<char>) -> (r: Milli)
    ensures
        r == milli_or_zero(g@),
{
    match parse_milli_v(g) {
        Some(x) => x,
        None => 0,
    }
}

/// The share of packets lost, in thousandths of a percent.
pub fn loss_v(sent: u8, received: u8) -> (r: Milli)
    ensures
        r == loss_of(sent, received),
{
    if sent > 0 && sent > received {
        (((sent - received) as u64) * 100_000) / (sent as u64)
    } else {
        0
    }
}

fn linux_step_v(a: PingTally, line: &Vec<char>, count: u8) -> (r: PingTally)
    requires
        linux_counts_ok(line@, count),
    ensures
        r@ == linux_step(a@, line@, count),
{
    let c = captures(LINUX_LOSS, line);
    let d = captures(LINUX_RTT, line);
    linux_summary_step(a, &c, &d, count)
}

/// Reads a line of Linux output into the summary, given what [`LINUX_LOSS`] (`c`)
/// and [`LINUX_RTT`] (`d`) found in it.
pub fn linux_summary_step(
    a: PingTally,
    c: &Option<Vec<Option<Vec<char>>>>,
    d: &Option<Vec<Option<Vec<char>>>>,
    count: u8,
) -> (r: PingTally)
    requires
        loss_counts_ok(caps_view(*c), count),
    ensures
        r@ == linux_step_with(a@, caps_view(*c), caps_view(*d), count),
{
    let mut a = a;
    if c.is_some() {
        let s = sent_v(&group_text(c, 1), count);
        let r = received_v(&group_text(c, 3));
        a.sent = s;
        a.received = r;
        a.loss = loss_v(s, r);
    }
    if d.is_some() {
        a.min = milli_v(&group_text(d, 1));
        a.avg = milli_v(&group_text(d, 2));
        a.max = milli_v(&group_text(d, 3));
        a.jitter = milli_v(&group_text(d, 4));
    }
    a
}

fn windows_step_v(a: PingTally, line: &Vec<char>, count: u8) -> (r: PingTally)
    ensures
        r@ == windows_step(a@, line@, count),
{
    let c = captures(WINDOWS_LOSS_PT, line);
    let ce = captures(WINDOWS_LOSS_EN, line);
    let d = captures(WINDOWS_RTT, line);
    let de = captures(WINDOWS_RTT_EN, line);
    windows_summary_step(a, &c, &ce, &d, &de, line, count)
}

/// Reads a line of Windows output into the summary, given what the loss patterns
/// ([`WINDOWS_LOSS_PT`] as `c`, [`WINDOWS_LOSS_EN`] as `ce`) and the round-trip
/// patterns ([`WINDOWS_RTT`] as `d`, [`WINDOWS_RTT_EN`] as `de`) found in it.
pub fn windows_summary_step(
    a: PingTally,
    c: &Option<Vec<Option<Vec<char>>>>,
    ce: &Option<Vec<Option<Vec<char>>>>,
    d: &Option<Vec<Option<Vec<char>>>>,
    de: &Option<Vec<Option<Vec<char>>>>,
    line: &Vec<char>,
    count: u8,
) -> (r: PingTally)
    ensures
        r@ == windows_step_with(
            a@,
            caps_view(*c),
            caps_view(*ce),
            caps_view(*d),
            caps_view(*de),
            line@,
            count,
        ),
{
    let mut a = a;
    if c.is_some() {
        a.sent = sent_v(&group_text(c, 1), count);
        a.received = received_v(&group_text(c, 2));
        a.loss = milli_v(&group_text(c, 3));
    } else if ce.is_some() {
        a.sent = sent_v(&group_text(ce, 1), count);
        a.received = received_v(&group_text(ce, 2));
        a.loss = milli_v(&group_text(ce, 3));
    }
    if d.is_some() {
        a.min = milli_v(&group_text(d, 2));
        a.max = milli_v(&group_text(d, 4));
        a.avg = milli_v(&group_text(d, 6));
    } else if de.is_some() {
        a.min = milli_v(&group_text(de, 1));
        a.max = milli_v(&group_text(de, 2));
        a.avg = milli_v(&group_text(de, 3));
    }
    match reply_time_v(line) {
        Some(ms) => {
            a.samples.push(ms);
        },
        None => {},
    }
    a
}

/// The summary before any line is read: `count` packets sent.
pub fn new_acc(count: u8) -> (r: PingTally)
    ensures
        r@ == initial_acc(count),
{
    PingTally { sent: count, received: 0, loss: 0, min: 0, avg: 0, max: 0, jitter: 0, samples: Vec::new() }
}

fn linux_fold_v(ls: &Vec<Vec<char>>, count: u8) -> (r: PingTally)
    requires
        forall|i: int| 0 <= i < ls@.len() ==> linux_counts_ok(#[trigger] views(ls@)[i], count),
    ensures
        r@ == linux_fold(views(ls@), count),
{
    let ghost lv = views(ls@);
    let mut a = new_acc(count);
    assert(lv.take(0) =~= seq![]);
    for i in 0..ls.len()
        invariant
            lv == views(ls@),
            forall|k: int| 0 <= k < ls@.len() ==> linux_counts_ok(#[trigger] lv[k], count),
            a@ == linux_fold(lv.take(i as int), count),
    {
        assert(lv.take(i + 1).drop_last() =~= lv.take(i as int));
        assert(linux_counts_ok(lv[i as int], count));
        a = linux_step_v(a, &ls[i], count);
    }
    assert(lv.take(ls.len() as int) =~= lv);
    a
}

fn windows_fold_v(ls: &Vec<Vec<char>>, count: u8) -> (r: PingTally)
    ensures
        r@ == windows_fold(views(ls@), count),
{
    let ghost lv = views(ls@);
    let mut a = new_acc(count);
    assert(lv.take(0) =~= seq![]);
    for i in 0..ls.len()
        invariant
            lv == views(ls@),
            a@ == windows_fold(lv.take(i as int), count),
    {
        assert(lv.take(i + 1).drop_last() =~= lv.take(i as int));
        a = windows_step_v(a, &ls[i], count);
    }
    assert(lv.take(ls.len() as int) =~= lv);
    a
}

fn linux_host_v(ls: &Vec<Vec<char>>) -> (r: Vec<char>)
    ensures
        r@ == linux_host(views(ls@)),
{
    let ghost lv = views(ls@);
    let mut i: usize = 0;
    assert(lv.skip(0) =~= lv);
    proof {
        reveal_strlit("PING ");
        reveal_strlit(" ");
    }
    while i < ls.len()
        invariant
            i <= ls.len(),
            lv == views(ls@),
            linux_host(lv) == linux_host(lv.skip(i as int)),
            "PING "@.len() == 5,
        decreases ls.len() - i,
    {
        assert(lv.skip(i as int).drop_first() =~= lv.skip(i + 1));
        let line = trim_v(&ls[i]);
        if starts_with_lit(&line, "PING ") {
            let rest = slice_of(&line, 5, line.len());
            assert(rest@ =~= line@.skip(5));
            match find_lit(&rest, " ") {
                Some(e) => {
                    proof {
                        crate::text::lemma_find(rest@, " "@);
                    }
                    assert(e <= rest.len());
                    let h = slice_of(&rest, 0, e);
                    assert(h@ =~= rest@.take(e as int));
                    return h;
                },
                None => {
                    return rest;
                },
            }
        }
        i += 1;
    }
    assert(lv.skip(i as int) =~= seq![]);
    Vec::new()
}

fn first_word_v(s: &Vec<char>) -> (r: Vec<char>)
    ensures
        r@ == first_word(s@),
{
    let ws = split_words(s);
    if ws.len() > 0 {
        slice_of(&ws[0], 0, ws[0].len())
    } else {
        Vec::new()
    }
}

fn after_para_v(line: &Vec<char>) -> (r: Vec<char>)
    ensures
        r@ == after_para(line@),
{
    proof {
        reveal_strlit(" para ");
    }
    match find_lit(line, " para ") {
        None => Vec::new(),
        Some(k) => {
            proof {
                crate::text::lemma_find(line@, " para "@);
            }
            assert(k + 6 <= line.len());
            let rest = slice_of(line, k + 6, line.len());
            assert(rest@ =~= line@.skip(k + 6));
            match find_lit(&rest, " para ") {
                Some(j) => {
                    proof {
                        crate::text::lemma_find(rest@, " para "@);
                    }
                    let h = slice_of(&rest, 0, j);
                    assert(h@ =~= rest@.take(j as int));
                    h
                },
                None => rest,
            }
        },
    }
}

fn clean_host_v(rest: &Vec<char>) -> (r: Vec<char>)
    ensures
        r@ == clean_host(rest@),
{
    let t = trim_v(rest);
    let u = trim_end_char(&t, ':');
    crate::route::tracert::unbracket_v(&u)
}

fn windows_host_of_line_v(raw: &Vec<char>) -> (r: Option<Vec<char>>)
    ensures
        match r {
            Some(h) => windows_host_of_line(raw@) == Some(h@),
            None => windows_host_of_line(raw@) is None,
        },
{
    proof {
        reveal_strlit("Disparando ");
        reveal_strlit("Pinging ");
        reveal_strlit("Ping statistics for ");
    }
    let line = trim_v(raw);
    if starts_with_lit(&line, "Disparando ") {
        let rest = slice_of(&line, 11, line.len());
        assert(rest@ =~= line@.skip(11));
        return Some(crate::route::tracert::unbracket_v(&first_word_v(&rest)));
    }
    if starts_with_lit(&line, "Pinging ") {
        let rest = slice_of(&line, 8, line.len());
        assert(rest@ =~= line@.skip(8));
        return Some(crate::route::tracert::unbracket_v(&first_word_v(&rest)));
    }
    let h1 = match find_lit(&line, "Ping statistics for ") {
        Some(p) => {
            proof {
                crate::text::lemma_find(line@, "Ping statistics for "@);
            }
            assert(p + 20 <= line.len());
            let rest = slice_of(&line, p + 20, line.len());
            assert(rest@ =~= line@.skip(p + 20));
            clean_host_v(&rest)
        },
        None => Vec::new(),
    };
    if h1.len() > 0 {
        return Some(h1);
    }
    let h2 = if contains_lit(&line, "Estat") {
        clean_host_v(&after_para_v(&line))
    } else {
        Vec::new()
    };
    if h2.len() > 0 {
        Some(h2)
    } else {
        None
    }
}

fn windows_host_v(ls: &Vec<Vec<char>>) -> (r: Vec<char>)
    ensures
        r@ == windows_host(views(ls@)),
{
    let ghost lv = views(ls@);
    let mut i: usize = 0;
    assert(lv.skip(0) =~= lv);
    while i < ls.len()
        invariant
            i <= ls.len(),
            lv == views(ls@),
            windows_host(lv) == windows_host(lv.skip(i as int)),
        decreases ls.len() - i,
    {
        assert(lv.skip(i as int).drop_first() =~= lv.skip(i + 1));
        match windows_host_of_line_v(&ls[i]) {
            Some(h) => {
                return h;
            },
            None => {},
        }
        i += 1;
    }
    assert(lv.skip(i as int) =~= seq![]);
    Vec::new()
}

/// The host named by the `PING host ...` header of a Linux ping report, or an empty
/// string where no line starts so.
pub fn extract_host(output: &str) -> (r: String)
    ensures
        r@ == linux_host(lines(output@)),
{
    let v = chars_of(output);
    let ls = split_lines(&v);
    string_of(&linux_host_v(&ls))
}

/// The host named by a Windows ping report (its `Pinging`/`Disparando` header or
/// its statistics line), or an empty string.
pub fn extract_windows_host(output: &str) -> (r: String)
    ensures
        r@ == windows_host(lines(output@)),
{
    let v = chars_of(output);
    let ls = split_lines(&v);
    string_of(&windows_host_v(&ls))
}

fn looks_like_windows_v(v: &Vec<char>) -> (r: bool)
    ensures
        r == looks_like_windows(v@),
{
    contains_lit(v, "Enviados") || contains_lit(v, "Recebidos") || contains_lit(v, "Sent =")
        || contains_lit(v, "Received =") || contains_lit(v, "Minimum =") || contains_lit(
        v,
        "Mínimo",
    ) || contains_lit(v, "Minimo")
}

fn build_result(
    host: &Vec<char>,
    sent: u8,
    received: u8,
    loss: Milli,
    min: Milli,
    avg: Milli,
    max: Milli,
    jitter: Milli,
) -> (r: PingResult)
    ensures
        r@ == view_of(
            host@,
            sent,
            received,
            loss as nat,
            min as nat,
            avg as nat,
            max as nat,
            jitter as nat,
        ),
{
    let (q, qc) = classify_quality(avg, loss, jitter);
    PingResult {
        host: string_of(host),
        packets_sent: sent,
        packets_received: received,
        loss_pct: loss,
        min_ms: min,
        avg_ms: avg,
        max_ms: max,
        jitter_ms: jitter,
        quality: text(q),
        quality_color: text(qc),
    }
}

/// The result of a Windows summary read to the end, for host `h`.
pub fn windows_ping_result(h: &Vec<char>, a: PingTally) -> (r: PingResult)
    ensures
        r@ == windows_result(h@, a@),
{
    let use_samples = a.avg == 0 && a.samples.len() > 0;
    let (smin, savg, smax) = min_avg_max(&a.samples);
    let min = if use_samples { smin } else { a.min };
    let max = if use_samples { smax } else { a.max };
    let avg = if use_samples { savg } else { a.avg };
    let count_samples = a.received == 0 && a.samples.len() > 0;
    let received: u8 = if count_samples {
        if a.samples.len() > 255 { 255 } else { a.samples.len() as u8 }
    } else {
        a.received
    };
    let sent: u8 = if count_samples && received > a.sent { received } else { a.sent };
    let loss = if count_samples { loss_v(sent, received) } else { a.loss };
    let jitter = if max > min { (max - min) / 2 } else { 0 };
    build_result(h, sent, received, loss, min, avg, max, jitter)
}

/// The result of a Linux summary read to the end, for `host`.
pub fn linux_ping_result(host: &Vec<char>, a: PingTally, count: u8) -> (r: PingResult)
    ensures
        r@ == linux_result(host@, a@, count),
{
    let sent = if a.sent == 0 { count } else { a.sent };
    build_result(host, sent, a.received, a.loss, a.min, a.avg, a.max, a.jitter)
}

fn windows_ping_v(output: &Vec<char>, ls: &Vec<Vec<char>>, count: u8, host: &Vec<char>) -> (r:
    PingResult)
    requires
        views(ls@) == lines(output@),
    ensures
        r@ == windows_ping(output@, count, host@),
{
    let a = windows_fold_v(ls, count);
    let h = if host.len() == 0 {
        windows_host_v(ls)
    } else {
        slice_of(host, 0, host.len())
    };
    assert(host@.len() != 0 ==> h@ =~= host@);
    windows_ping_result(&h, a)
}

/// Reads the outcome of a ping run from its output (Linux or Windows, English or
/// Portuguese). `count` is the number of packets asked for.
pub fn parse_ping_output(output: &str, count: u8) -> (r: Result<PingResult, String>)
    requires
        ping_counts_ok(output@, count),
    ensures
        r matches Ok(p) && p@ == ping_view(output@, count),
        r matches Ok(p) && (p@.quality, p@.quality_color) == ping_quality(
            p@.avg_ms,
            p@.loss_pct,
            p@.jitter_ms,
        ) && color_of(p@.quality) == p@.quality_color,
{
    proof {
        crate::laws::law_ping_reading_quality(output@, count);
    }
    let v = chars_of(output);
    let ls = split_lines(&v);
    let host = linux_host_v(&ls);
    if looks_like_windows_v(&v) {
        return Ok(windows_ping_v(&v, &ls, count, &host));
    }
    let a = linux_fold_v(&ls, count);
    Ok(linux_ping_result(&host, a, count))
}

/// The message of a failed ping.
pub open spec fn ping_failure(stderr: Seq<char>) -> Seq<char> {
    "Ping falhou: "@ + if trim(stderr).len() == 0 {
        "host inalcançável ou bloqueado"@
    } else {
        trim(stderr)
    }
}

fn linux_counts_ok_v(line: &Vec<char>, count: u8) -> (r: bool)
    ensures
        r == linux_counts_ok(line@, count),
{
    let c = captures(LINUX_LOSS, line);
    if c.is_none() {
        return true;
    }
    let s = sent_v(&group_text(&c, 1), count);
    s == 0 || received_v(&group_text(&c, 3)) <= s
}

/// Whether ping output can be read (see [`ping_counts_ok`]).
pub fn ping_counts_consistent(output: &str, count: u8) -> (r: bool)
    ensures
        r == ping_counts_ok(output@, count),
{
    let v = chars_of(output);
    if looks_like_windows_v(&v) {
        return true;
    }
    let ls = split_lines(&v);
    let ghost lv = views(ls@);
    for i in 0..ls.len()
        invariant
            lv == views(ls@),
            lv == lines(output@),
            !looks_like_windows(output@),
            forall|k: int| 0 <= k < i ==> linux_counts_ok(#[trigger] lines(output@)[k], count),
    {
        assert(lv[i as int] == ls@[i as int]@);
        if !linux_counts_ok_v(&ls[i], count) {
            return false;
        }
    }
    true
}

/// A finished ping run's output is read when the run succeeded, or when it failed
/// but still printed a summary.
pub open spec fn ping_read(success: bool, stdout: Seq<char>) -> bool {
    success || (trim(stdout).len() > 0 && contains(stdout, "packets transmitted"@))
}

/// What a finished ping run gives: its parsed output when it is read (see
/// [`ping_read`]), otherwise the error it printed; `None` when the output to read
/// has inconsistent counts (see [`ping_counts_ok`]).
pub fn ping_outcome(success: bool, stdout: &str, stderr: &str, count: u8) -> (r: Option<
    Result<PingResult, String>,
>)
    ensures
        r is None <==> (ping_read(success, stdout@) && !ping_counts_ok(stdout@, count)),
        ping_read(success, stdout@) && ping_counts_ok(stdout@, count) ==> (r matches Some(Ok(p))
            && p@ == ping_view(stdout@, count)),
        !ping_read(success, stdout@) ==> (r matches Some(Err(e)) && e@ == ping_failure(stderr@)),
{
    let out = chars_of(stdout);
    let t = trim_v(&out);
    let read = success || (t.len() > 0 && contains_lit(&out, "packets transmitted"));
    if read {
        if ping_counts_consistent(stdout, count) {
            return Some(parse_ping_output(stdout, count));
        }
        return None;
    }
    let err = chars_of(stderr);
    let e = trim_v(&err);
    let mut msg = text("Ping falhou: ");
    if e.len() == 0 {
        msg.append("host inalcançável ou bloqueado");
    } else {
        let es = string_of(&e);
        msg.append(es.as_str());
    }
    Some(Err(msg))
}

} // verus!
