//! Properties that hold across the library's operations.
use vstd::prelude::*;
use crate::gateway::{windows_routes_from, count_metric_le, lemma_count_metric_bound, sort_by_metric, GatewayView};
use crate::network_scan::{count_key_le, octet_key, sort_by_octet, HostView};
use crate::num::{decimal, digit_char, digit_value, digits_value, parse_unsigned, seq_avg, seq_max, seq_min, seq_sum, unsigned_body, all_digits};
use crate::quality::{color_of, latency_quality};
use crate::route::{answered, hop_status, latency_label, ping_quality, preferred, response_score, trimmed_route, HopView};
use crate::route::ping::{linux_step_with, loss_of, ping_view, windows_step_with, PingAcc};
use crate::route::tracepath::group_or_empty;
use crate::route::tracert::tracert_hop_of;
use crate::gateway::gateway_entry_view;
use crate::num::parse_milli;
use crate::mtr::{mtr_line, percent_index};
use crate::speedtest::speed_label;
use crate::report::{
    footer_text, general_quality, problem_text, report_sections, report_text, sections,
};
use crate::mtr::{from_pinged_hop, is_silent, quality_of_color};
use crate::route::PingView;
use crate::report::SummaryView;
use crate::speedtest::{block_len, upload_from, UPLOAD_CHUNK_SIZE};
use crate::text::{char_pred, contains, ends_with, is_digit, occurs_at, starts_with, trim, trim_end_by, words};

verus! {

/// The route kept after trimming is never empty when the route was not, is the
/// start of the route, and ends in an answering hop unless it is a single hop.
/// Trimming twice changes nothing.
pub proof fn law_trimmed_route(hops: Seq<HopView>)
    ensures
        hops.len() > 0 ==> trimmed_route(hops).len() > 0,
        trimmed_route(hops).len() <= hops.len(),
        trimmed_route(hops) == hops.take(trimmed_route(hops).len() as int),
        trimmed_route(hops).len() > 1 ==> trimmed_route(hops).last().status != "no_reply"@,
        trimmed_route(trimmed_route(hops)) == trimmed_route(hops),
    decreases hops.len(),
{
    if hops.len() > 1 && hops.last().status == "no_reply"@ {
        law_trimmed_route(hops.drop_last());
        let t = trimmed_route(hops.drop_last());
        assert(hops.drop_last().take(t.len() as int) =~= hops.take(t.len() as int));
    } else {
        assert(hops.take(hops.len() as int) =~= hops);
    }
}

/// Of the best route so far and a new candidate, the one kept answers at no
/// fewer hops than either; a candidate without an answering hop never replaces
/// anything, and a route is always kept once some candidate answered.
pub proof fn law_preferred_route_scores_most(best: Option<Seq<HopView>>, candidate: Seq<HopView>)
    ensures
        preferred(best, candidate) matches Some(p) ==> response_score(p) >= response_score(candidate),
        best matches Some(b) ==> (preferred(best, candidate) matches Some(p) && response_score(p)
            >= response_score(b)),
        response_score(candidate) > 0 ==> preferred(best, candidate) is Some,
        response_score(candidate) == 0 ==> preferred(best, candidate) == best,
{
}

/// A metric at least as large as every metric before position `p`, and smaller
/// than every one from `p` on, in a list sorted by metric.
proof fn lemma_count_splits(t: Seq<GatewayView>, m: u32)
    requires
        forall|i: int, j: int| 0 <= i < j < t.len() ==> t[i].metric <= t[j].metric,
    ensures
        count_metric_le(t, m) <= t.len(),
        forall|i: int| 0 <= i < count_metric_le(t, m) ==> t[i].metric <= m,
        forall|i: int| count_metric_le(t, m) <= i < t.len() ==> t[i].metric > m,
    decreases t.len(),
{
    lemma_count_metric_bound(t, m);
    if t.len() > 0 && t[0].metric <= m {
        let r = t.drop_first();
        assert forall|i: int, j: int| 0 <= i < j < r.len() implies r[i].metric <= r[j].metric by {
            assert(r[i] == t[i + 1] && r[j] == t[j + 1]);
        }
        lemma_count_splits(r, m);
        assert forall|i: int| 0 <= i < count_metric_le(t, m) implies t[i].metric <= m by {
            if i > 0 {
                assert(t[i] == r[i - 1]);
            }
        }
        assert forall|i: int| count_metric_le(t, m) <= i < t.len() implies t[i].metric > m by {
            assert(t[i] == r[i - 1]);
        }
    } else if t.len() > 0 {
        assert forall|i: int| 0 <= i < t.len() implies t[i].metric > m by {
            assert(t[0].metric <= t[i].metric || i == 0);
        }
    }
}

/// Gateways put in report order come in ascending metric order, all of them
/// and nothing else.
pub proof fn law_gateways_sorted_by_metric(s: Seq<GatewayView>)
    ensures
        sort_by_metric(s).len() == s.len(),
        forall|i: int, j: int|
            0 <= i < j < sort_by_metric(s).len() ==> sort_by_metric(s)[i].metric <= sort_by_metric(
                s,
            )[j].metric,
        sort_by_metric(s).to_multiset() == s.to_multiset(),
    decreases s.len(),
{
    broadcast use vstd::seq_lib::group_to_multiset_ensures;
    if s.len() > 0 {
        law_gateways_sorted_by_metric(s.drop_last());
        let t = sort_by_metric(s.drop_last());
        let x = s.last();
        lemma_count_splits(t, x.metric);
        let p = count_metric_le(t, x.metric) as int;
        let u = t.insert(p, x);
        assert(u == sort_by_metric(s));
        assert forall|i: int, j: int| 0 <= i < j < u.len() implies u[i].metric <= u[j].metric by {
            if i < p && j < p {
                assert(u[i] == t[i] && u[j] == t[j]);
            } else if i < p && j == p {
                assert(u[i] == t[i]);
            } else if i < p && j > p {
                assert(u[i] == t[i] && u[j] == t[j - 1]);
            } else if i == p {
                assert(u[j] == t[j - 1]);
            } else {
                assert(u[i] == t[i - 1] && u[j] == t[j - 1]);
            }
        }
        assert(u =~= t.take(p) + seq![x] + t.skip(p));
        assert(t =~= t.take(p) + t.skip(p));
        vstd::seq_lib::lemma_multiset_commutative(t.take(p), seq![x]);
        vstd::seq_lib::lemma_multiset_commutative(t.take(p) + seq![x], t.skip(p));
        vstd::seq_lib::lemma_multiset_commutative(t.take(p), t.skip(p));
        assert(s =~= s.drop_last().push(x));
    }
}

/// A key at least as large as every key before position `p`, and smaller than
/// every one from `p` on, in a list of hosts sorted by last octet.
proof fn lemma_key_splits(t: Seq<HostView>, k: nat)
    requires
        forall|i: int, j: int| 0 <= i < j < t.len() ==> octet_key(t[i].ip) <= octet_key(t[j].ip),
    ensures
        count_key_le(t, k) <= t.len(),
        forall|i: int| 0 <= i < count_key_le(t, k) ==> octet_key(t[i].ip) <= k,
        forall|i: int| count_key_le(t, k) <= i < t.len() ==> octet_key(t[i].ip) > k,
    decreases t.len(),
{
    if t.len() > 0 && octet_key(t[0].ip) <= k {
        let r = t.drop_first();
        assert forall|i: int, j: int| 0 <= i < j < r.len() implies octet_key(r[i].ip) <= octet_key(
            r[j].ip,
        ) by {
            assert(r[i] == t[i + 1] && r[j] == t[j + 1]);
        }
        lemma_key_splits(r, k);
        assert forall|i: int| 0 <= i < count_key_le(t, k) implies octet_key(t[i].ip) <= k by {
            if i > 0 {
                assert(t[i] == r[i - 1]);
            }
        }
        assert forall|i: int| count_key_le(t, k) <= i < t.len() implies octet_key(t[i].ip) > k by {
            assert(t[i] == r[i - 1]);
        }
    } else if t.len() > 0 {
        assert forall|i: int| 0 <= i < t.len() implies octet_key(t[i].ip) > k by {
            assert(octet_key(t[0].ip) <= octet_key(t[i].ip) || i == 0);
        }
    }
}

/// The hosts of a scan come in ascending order of the last octet of their
/// address, all of them and nothing else.
pub proof fn law_hosts_sorted_by_octet(s: Seq<HostView>)
    ensures
        sort_by_octet(s).len() == s.len(),
        forall|i: int, j: int|
            0 <= i < j < sort_by_octet(s).len() ==> octet_key(sort_by_octet(s)[i].ip) <= octet_key(
                sort_by_octet(s)[j].ip,
            ),
        sort_by_octet(s).to_multiset() == s.to_multiset(),
    decreases s.len(),
{
    broadcast use vstd::seq_lib::group_to_multiset_ensures;
    if s.len() > 0 {
        law_hosts_sorted_by_octet(s.drop_last());
        let t = sort_by_octet(s.drop_last());
        let x = s.last();
        let k = octet_key(x.ip);
        lemma_key_splits(t, k);
        let p = count_key_le(t, k) as int;
        let u = t.insert(p, x);
        assert(u == sort_by_octet(s));
        assert forall|i: int, j: int| 0 <= i < j < u.len() implies octet_key(u[i].ip) <= octet_key(
            u[j].ip,
        ) by {
            if i < p && j < p {
                assert(u[i] == t[i] && u[j] == t[j]);
            } else if i < p && j == p {
                assert(u[i] == t[i]);
            } else if i < p && j > p {
                assert(u[i] == t[i] && u[j] == t[j - 1]);
            } else if i == p {
                assert(u[j] == t[j - 1]);
            } else {
                assert(u[i] == t[i - 1] && u[j] == t[j - 1]);
            }
        }
        assert(u =~= t.take(p) + seq![x] + t.skip(p));
        assert(t =~= t.take(p) + t.skip(p));
        vstd::seq_lib::lemma_multiset_commutative(t.take(p), seq![x]);
        vstd::seq_lib::lemma_multiset_commutative(t.take(p) + seq![x], t.skip(p));
        vstd::seq_lib::lemma_multiset_commutative(t.take(p), t.skip(p));
        assert(s =~= s.drop_last().push(x));
    }
}

/// Inserting `x` at `p` adds it to the filtered sequence at its end when nothing
/// from `p` on passes the filter.
proof fn lemma_insert_filter<A>(t: Seq<A>, p: int, x: A, pred: spec_fn(A) -> bool)
    requires
        0 <= p <= t.len(),
        pred(x) ==> forall|i: int| p <= i < t.len() ==> !pred(#[trigger] t[i]),
    ensures
        t.insert(p, x).filter(pred) == if pred(x) {
            t.filter(pred).push(x)
        } else {
            t.filter(pred)
        },
{
    broadcast use vstd::seq_lib::group_filter_ensures;
    let a = t.take(p);
    let b = t.skip(p);
    assert(t.insert(p, x) =~= a + seq![x] + b);
    assert(t =~= a + b);
    Seq::filter_distributes_over_add(a + seq![x], b, pred);
    Seq::filter_distributes_over_add(a, seq![x], pred);
    Seq::filter_distributes_over_add(a, b, pred);
    assert(seq![x] =~= Seq::<A>::empty().push(x));
    Seq::<A>::empty().lemma_filter_push(x, pred);
    assert(Seq::<A>::empty().filter(pred) =~= Seq::<A>::empty()) by {
        reveal(Seq::filter);
    }
    if pred(x) {
        assert(b.all(|y: A| !pred(y))) by {
            assert forall|i: int| 0 <= i < b.len() implies !pred(b[i]) by {
                assert(b[i] == t[p + i]);
            }
        }
        b.lemma_all_neg_filter_empty(pred);
        assert(b.filter(pred) =~= Seq::<A>::empty());
        assert(a.filter(pred) + seq![x] =~= (a.filter(pred) + b.filter(pred)).push(x));
    } else {
        assert(a.filter(pred) + Seq::<A>::empty() =~= a.filter(pred));
    }
}

/// Gateways with the same metric stay in the order in which the routing table
/// listed them.
pub proof fn law_gateway_order_is_stable(s: Seq<GatewayView>, m: u32)
    ensures
        sort_by_metric(s).filter(|g: GatewayView| g.metric == m) == s.filter(
            |g: GatewayView| g.metric == m,
        ),
    decreases s.len(),
{
    let pred = |g: GatewayView| g.metric == m;
    if s.len() == 0 {
        reveal(Seq::filter);
    } else {
        law_gateway_order_is_stable(s.drop_last(), m);
        law_gateways_sorted_by_metric(s.drop_last());
        let t = sort_by_metric(s.drop_last());
        let x = s.last();
        lemma_count_splits(t, x.metric);
        let p = count_metric_le(t, x.metric) as int;
        lemma_insert_filter(t, p, x, pred);
        assert(s =~= s.drop_last().push(x));
        s.drop_last().lemma_filter_push(x, pred);
    }
}

/// Hosts with the same last octet stay in the order in which they were found.
pub proof fn law_host_order_is_stable(s: Seq<HostView>, k: nat)
    ensures
        sort_by_octet(s).filter(|h: HostView| octet_key(h.ip) == k) == s.filter(
            |h: HostView| octet_key(h.ip) == k,
        ),
    decreases s.len(),
{
    let pred = |h: HostView| octet_key(h.ip) == k;
    if s.len() == 0 {
        reveal(Seq::filter);
    } else {
        law_host_order_is_stable(s.drop_last(), k);
        law_hosts_sorted_by_octet(s.drop_last());
        let t = sort_by_octet(s.drop_last());
        let x = s.last();
        lemma_key_splits(t, octet_key(x.ip));
        let p = count_key_le(t, octet_key(x.ip)) as int;
        lemma_insert_filter(t, p, x, pred);
        assert(s =~= s.drop_last().push(x));
        s.drop_last().lemma_filter_push(x, pred);
    }
}

proof fn lemma_digit_char(d: nat)
    requires
        d < 10,
    ensures
        is_digit(digit_char(d)),
        digit_value(digit_char(d)) == d,
        digit_char(d) != '+',
{
    assert(d % 10 == d);
    if d == 0 {
        assert('0' as u32 == 48);
    } else if d == 1 {
        assert('1' as u32 == 49);
    } else if d == 2 {
        assert('2' as u32 == 50);
    } else if d == 3 {
        assert('3' as u32 == 51);
    } else if d == 4 {
        assert('4' as u32 == 52);
    } else if d == 5 {
        assert('5' as u32 == 53);
    } else if d == 6 {
        assert('6' as u32 == 54);
    } else if d == 7 {
        assert('7' as u32 == 55);
    } else if d == 8 {
        assert('8' as u32 == 56);
    } else {
        assert('9' as u32 == 57);
    }
}

proof fn lemma_decimal_digits(n: nat)
    ensures
        decimal(n).len() > 0,
        all_digits(decimal(n)),
        digits_value(decimal(n)) == n,
        decimal(n)[0] != '+',
    decreases n,
{
    if n < 10 {
        lemma_digit_char(n);
        assert(seq![digit_char(n)].drop_last() =~= seq![]);
        assert(digits_value(decimal(n)) == digits_value(seq![digit_char(n)].drop_last()) * 10
            + digit_value(digit_char(n)));
    } else {
        lemma_decimal_digits(n / 10);
        lemma_digit_char(n % 10);
        let d = decimal(n / 10);
        assert(decimal(n).drop_last() =~= d);
        assert(decimal(n)[0] == d[0]);
        assert(digit_char(n % 10) == digit_char(n));
        assert((n / 10) * 10 + n % 10 == n) by (nonlinear_arith);
    }
}

/// Reading back the decimal notation of a number gives the number.
pub proof fn law_decimal_roundtrip(n: nat, max: nat)
    requires
        n <= max,
    ensures
        parse_unsigned(decimal(n), max) == Some(n),
{
    lemma_decimal_digits(n);
    assert(unsigned_body(decimal(n)) == decimal(n));
}

/// The two latency labels, by threshold and by whole milliseconds, agree on
/// every latency.
pub proof fn law_latency_labels_agree(ms: nat)
    ensures
        latency_label(ms) == latency_quality(ms),
{
}

/// Every ping quality comes with the color that its label has.
pub proof fn law_ping_quality_color(avg_ms: nat, loss_pct: nat, jitter_ms: nat)
    ensures
        color_of(ping_quality(avg_ms, loss_pct, jitter_ms).0) == ping_quality(avg_ms, loss_pct, jitter_ms).1,
{
    reveal_strlit("Excelente");
    reveal_strlit("Bom");
    reveal_strlit("ok");
    reveal_strlit("Aceitável");
    reveal_strlit("warning");
    reveal_strlit("Ruim");
    assert("Aceitável"@[0] != "Excelente"@[0]);
    assert("Aceitável"@ != "Excelente"@);
    assert("Aceitável"@ != "Bom"@);
    assert("Aceitável"@ != "ok"@);
    assert("Ruim"@ != "Aceitável"@);
    assert("Ruim"@.len() == 4 && "Bom"@.len() == 3 && "warning"@.len() == 7);
    assert("Ruim"@ != "warning"@);
    assert("Ruim"@ != "Excelente"@);
    assert("Ruim"@ != "Bom"@);
    assert("Ruim"@ != "ok"@);
    assert("Bom"@ != "Excelente"@);
}

/// A loss is between none and all packets; it is all of them when none came
/// back, and none when all did.
pub proof fn law_loss_bounds(sent: u8, received: u8)
    ensures
        loss_of(sent, received) <= 100_000,
        sent > 0 && received == 0 ==> loss_of(sent, received) == 100_000,
        received == sent ==> loss_of(sent, received) == 0,
{
    if sent > 0 && sent > received {
        let d = (sent - received) as nat;
        assert(d * 100_000 / (sent as nat) <= 100_000) by (nonlinear_arith)
            requires
                d <= sent,
                sent > 0,
        ;
        if received == 0 {
            assert((sent as nat) * 100_000 / (sent as nat) == 100_000) by (nonlinear_arith)
                requires
                    sent > 0,
            ;
        }
    }
}

proof fn lemma_min_le_max_and_bounds(s: Seq<u64>)
    requires
        s.len() > 0,
    ensures
        seq_min(s) <= seq_max(s),
        seq_min(s) * s.len() <= seq_sum(s),
        seq_sum(s) <= seq_max(s) * s.len(),
    decreases s.len(),
{
    if s.len() > 1 {
        let t = s.drop_last();
        lemma_min_le_max_and_bounds(t);
        let n = t.len();
        let x = s.last() as nat;
        let mn = seq_min(s);
        let mx = seq_max(s);
        assert(mn <= seq_min(t) && mn <= x);
        assert(mx >= seq_max(t) && mx >= x);
        assert(mn * n <= seq_min(t) * n) by (nonlinear_arith)
            requires
                mn <= seq_min(t),
        ;
        assert(seq_max(t) * n <= mx * n) by (nonlinear_arith)
            requires
                seq_max(t) <= mx,
        ;
        assert(mn * (n + 1) == mn * n + mn) by (nonlinear_arith);
        assert(mx * (n + 1) == mx * n + mx) by (nonlinear_arith);
        assert(s.len() == n + 1);
        assert(seq_sum(s) == seq_sum(t) + x);
    } else {
        assert(s.drop_last().len() == 0);
        assert(seq_sum(s.drop_last()) == 0);
        assert(seq_max(s.drop_last()) == 0);
        assert(s.last() == s[0]);
    }
}

/// For a hop or ping with at least one time, the smallest is at most the mean,
/// and the mean at most the largest.
pub proof fn law_min_avg_max_ordered(s: Seq<u64>)
    requires
        s.len() > 0,
    ensures
        seq_min(s) <= seq_avg(s) <= seq_max(s),
{
    lemma_min_le_max_and_bounds(s);
    let n = s.len();
    let t = seq_sum(s);
    let mn = seq_min(s);
    let mx = seq_max(s);
    assert(mn <= t / n) by (nonlinear_arith)
        requires
            mn * n <= t,
            n > 0,
    ;
    assert(t / n <= mx) by (nonlinear_arith)
        requires
            t <= mx * n,
            n > 0,
    ;
}

/// A hop is silent exactly when it gave no answer.
pub proof fn law_hop_status_silent(avg_ms: nat, loss_pct: nat, has_reply: bool)
    ensures
        (hop_status(avg_ms, loss_pct, has_reply) == "no_reply"@) == !has_reply,
{
    reveal_strlit("no_reply");
    reveal_strlit("ok");
    reveal_strlit("warning");
    reveal_strlit("critical");
    assert("critical"@[0] != "no_reply"@[0]);
}

/// When DNS or HTTP is slow, the overall quality is never excellent or good.
pub proof fn law_slow_service_caps_quality(s: SummaryView)
    ensures
        general_quality(s, true) != "Excelente"@,
        general_quality(s, true) != "Bom"@,
{
    reveal_strlit("Excelente");
    reveal_strlit("Bom");
    reveal_strlit("Aceitável");
    reveal_strlit("Ruim");
    assert("Aceitável"@[0] != "Excelente"@[0]);
    assert("Aceitável"@ != "Bom"@);
    assert("Ruim"@.len() == 4 && "Bom"@.len() == 3);
    assert("Ruim"@ != "Bom"@);
    assert("Ruim"@ != "Excelente"@);
    assert("Aceitável"@ != "Excelente"@);
    let loss = match s.loss_pct {
        Some(l) => l,
        None => 0,
    };
    if loss < 20_000 {
        let q = match s.quality {
            Some(q) => q,
            None => latency_quality(
                match s.avg_ms {
                    Some(a) => a,
                    None => 999_000,
                },
            ),
        };
        if q == "Excelente"@ || q == "Bom"@ {
            assert(general_quality(s, true) == "Aceitável"@);
        } else {
            assert(general_quality(s, true) == q);
        }
    }
}

/// From any point of its construction on, the upload payload still to come is at
/// least as long as what is missing to reach the target size, and passes it by at
/// most two bytes (the block number and line feed of a cut last block).
pub proof fn law_upload_size(idx: nat, len: nat)
    ensures
        len < UPLOAD_CHUNK_SIZE ==> upload_from(idx, len).len() >= UPLOAD_CHUNK_SIZE - len,
        len < UPLOAD_CHUNK_SIZE ==> upload_from(idx, len).len() <= UPLOAD_CHUNK_SIZE - len + 2,
    decreases (if len < UPLOAD_CHUNK_SIZE {
        UPLOAD_CHUNK_SIZE - len
    } else {
        0
    }),
{
    if len < UPLOAD_CHUNK_SIZE {
        assert(crate::speedtest::UPLOAD_PATTERN@.len() == 45);
        assert(crate::speedtest::upload_block(idx, len).len() == block_len(len));
        law_upload_size(idx + 1, len + block_len(len));
        assert(upload_from(idx, len) == crate::speedtest::upload_block(idx, len) + upload_from(idx + 1, len + block_len(len)));
        assert(block_len(len) <= UPLOAD_CHUNK_SIZE - len + 2);
    }
}

/// A loss above zero was read.
pub open spec fn loss_shown(loss: Option<nat>) -> bool {
    match loss {
        Some(l) => l > 0,
        None => false,
    }
}

/// The quick diagnosis of the report names lost packets exactly when no hop was
/// slow and the ping shows a loss above zero, and says that there is no problem
/// exactly when nothing at all was flagged.
pub proof fn law_loss_flagged_only_when_present(
    worst: Option<Seq<char>>,
    loss: Option<nat>,
    dns_slow: bool,
    http_slow: bool,
)
    ensures
        starts_with(problem_text(worst, loss, dns_slow, http_slow), "Perda de pacotes detectada"@)
            <==> (worst is None && loss_shown(loss)),
        problem_text(worst, loss, dns_slow, http_slow) == "Nenhum problema detectado"@ <==> (
        worst is None && !loss_shown(loss) && !dns_slow && !http_slow),
{
    reveal_strlit("Perda de pacotes detectada");
    reveal_strlit("Perda de pacotes detectada (");
    reveal_strlit("Salto ");
    reveal_strlit("DNS/HTTP com latência elevada em alguns destinos");
    reveal_strlit("DNS com latência elevada");
    reveal_strlit("HTTP com latência elevada em alguns destinos");
    reveal_strlit("Nenhum problema detectado");
    let t = problem_text(worst, loss, dns_slow, http_slow);
    let p = "Perda de pacotes detectada"@;
    let none = "Nenhum problema detectado"@;
    assert(t.len() > 0 && t[0] != 'P' ==> !starts_with(t, p)) by {
        if t.len() > 0 && t[0] != 'P' && starts_with(t, p) {
            assert(t.take(p.len() as int)[0] == p[0]);
        }
    }
    assert(t.len() > 0 && t[0] != 'N' ==> t != none) by {
        if t == none {
            assert(t[0] == none[0]);
        }
    }
    match worst {
        Some(h) => {
            assert(t[0] == 'S');
        },
        None => {
            if loss_shown(loss) {
                let q = "Perda de pacotes detectada ("@;
                assert(t.take(p.len() as int) =~= p) by {
                    assert forall|i: int| 0 <= i < p.len() implies t[i] == p[i] by {
                        assert(t[i] == q[i]);
                    }
                }
                assert(t[0] == 'P');
            } else if dns_slow {
                assert(t[0] == 'D');
            } else if http_slow {
                assert(t[0] == 'H');
            } else {
                assert(t[0] == 'N');
            }
        },
    }
}

/// A hop of the route that gave no answer is shown by MTR as fully lost and
/// critical, whatever a ping of it gave.
pub proof fn law_silent_hop_is_critical(h: HopView, p: Option<PingView>)
    requires
        is_silent(h),
    ensures
        from_pinged_hop(h, p).host == "*"@,
        from_pinged_hop(h, p).loss_pct == 100_000,
        from_pinged_hop(h, p).quality == "critical"@,
{
}

/// The MTR quality of a pinged hop follows the ping's own label: a poor ping is
/// critical, an acceptable one a warning, and a good or excellent one ok.
pub proof fn law_mtr_quality_follows_ping(avg_ms: nat, loss_pct: nat, jitter_ms: nat)
    ensures
        quality_of_color(ping_quality(avg_ms, loss_pct, jitter_ms).1) == if ping_quality(
            avg_ms,
            loss_pct,
            jitter_ms,
        ).0 == "Ruim"@ {
            "critical"@
        } else if ping_quality(avg_ms, loss_pct, jitter_ms).0 == "Aceitável"@ {
            "warning"@
        } else {
            "ok"@
        },
{
    reveal_strlit("red");
    reveal_strlit("yellow");
    reveal_strlit("green");
    reveal_strlit("Ruim");
    reveal_strlit("Aceitável");
    reveal_strlit("Bom");
    reveal_strlit("Excelente");
    assert("green"@ != "red"@ && "green"@ != "yellow"@ && "yellow"@ != "red"@) by {
        assert("green"@.len() != "red"@.len() && "green"@.len() != "yellow"@.len());
        assert("yellow"@.len() != "red"@.len());
    }
    assert("Excelente"@ != "Ruim"@ && "Bom"@ != "Ruim"@ && "Aceitável"@ != "Ruim"@) by {
        assert("Excelente"@.len() != "Ruim"@.len() && "Bom"@.len() != "Ruim"@.len());
        assert("Aceitável"@.len() != "Ruim"@.len());
    }
    assert("Excelente"@ != "Aceitável"@ && "Bom"@ != "Aceitável"@) by {
        assert("Excelente"@[0] != "Aceitável"@[0]);
        assert("Bom"@.len() != "Aceitável"@.len());
    }
}

/// On Windows the default routes are numbered by metric in the order listed:
/// the `i`-th gets `1 + 100 i` (kept to 32 bits).
pub proof fn law_windows_route_metrics(ls: Seq<Seq<char>>, i: int)
    requires
        0 <= i < windows_routes_from(ls).len(),
    ensures
        windows_routes_from(ls)[i].2 == (1 + 100 * i) % 0x1_0000_0000,
    decreases ls.len(),
{
    if ls.len() > 0 {
        let before = windows_routes_from(ls.drop_last());
        if i < before.len() {
            law_windows_route_metrics(ls.drop_last(), i);
        }
    }
}

/// The texts of a list, one after the other.
pub open spec fn concat(l: Seq<Seq<char>>) -> Seq<char>
    decreases l.len(),
{
    if l.len() == 0 {
        seq![]
    } else {
        concat(l.drop_last()) + l.last()
    }
}

/// A text is contained in itself followed by or following anything.
proof fn lemma_contains_ends(a: Seq<char>, p: Seq<char>)
    ensures
        contains(a + p, p),
        contains(p + a, p),
{
    assert((a + p).subrange(a.len() as int, (a.len() + p.len()) as int) =~= p);
    assert(occurs_at(a + p, p, a.len() as int));
    assert((p + a).subrange(0, p.len() as int) =~= p);
    assert(occurs_at(p + a, p, 0));
}

/// What a text contains, the text with more before or after it contains too.
proof fn lemma_contains_within(a: Seq<char>, s: Seq<char>, b: Seq<char>, p: Seq<char>)
    requires
        contains(s, p),
    ensures
        contains(a + s + b, p),
{
    let i = choose|i: int| occurs_at(s, p, i);
    assert((a + s + b).subrange(a.len() + i, a.len() + i + p.len()) =~= s.subrange(i, i + p.len()));
    assert(occurs_at(a + s + b, p, a.len() + i));
}

/// The texts of the first `j` items are those of the first `j - 1` followed by item
/// `j - 1`.
proof fn lemma_concat_take(l: Seq<Seq<char>>, j: int)
    requires
        0 < j <= l.len(),
    ensures
        concat(l.take(j)) == concat(l.take(j - 1)) + l[j - 1],
{
    assert(l.take(j).drop_last() =~= l.take(j - 1));
}

/// Each text of a list is contained in the list's texts put one after the other.
proof fn lemma_concat_contains(l: Seq<Seq<char>>, k: int)
    requires
        0 <= k < l.len(),
    ensures
        contains(concat(l), l[k]),
    decreases l.len(),
{
    let d = l.drop_last();
    if k == l.len() - 1 {
        lemma_contains_ends(concat(d), l.last());
    } else {
        lemma_concat_contains(d, k);
        assert(d[k] == l[k]);
        lemma_contains_within(seq![], concat(d), l.last(), l[k]);
        assert(seq![] + concat(d) + l.last() =~= concat(d) + l.last());
    }
}

/// The report holds every collected text, trimmed, under its section title.
pub proof fn law_report_holds_every_text(
    ip_local: Seq<char>,
    ip_pub: Seq<char>,
    dns_info: Seq<char>,
    ping: Seq<char>,
    traceroute: Seq<char>,
    ports: Seq<char>,
    scan: Seq<char>,
    gateway: Seq<char>,
    dns_bench: Seq<char>,
    http_timing: Seq<char>,
    iface_stats: Seq<char>,
    started_at: Seq<char>,
    ended_at: Seq<char>,
    now: Seq<char>,
    hostname: Seq<char>,
    k: int,
)
    requires
        0 <= k < 11,
    ensures
        contains(
            report_text(
                ip_local,
                ip_pub,
                dns_info,
                ping,
                traceroute,
                ports,
                scan,
                gateway,
                dns_bench,
                http_timing,
                iface_stats,
                started_at,
                ended_at,
                now,
                hostname,
            ),
            report_sections(
                ip_local,
                gateway,
                ip_pub,
                dns_info,
                dns_bench,
                ping,
                traceroute,
                ports,
                scan,
                http_timing,
                iface_stats,
            )[k],
        ),
{
    let l = report_sections(
        ip_local,
        gateway,
        ip_pub,
        dns_info,
        dns_bench,
        ping,
        traceroute,
        ports,
        scan,
        http_timing,
        iface_stats,
    );
    let all = sections(
        ip_local,
        gateway,
        ip_pub,
        dns_info,
        dns_bench,
        ping,
        traceroute,
        ports,
        scan,
        http_timing,
        iface_stats,
    );
    lemma_concat_take(l, 1);
    lemma_concat_take(l, 2);
    lemma_concat_take(l, 3);
    lemma_concat_take(l, 4);
    lemma_concat_take(l, 5);
    lemma_concat_take(l, 6);
    lemma_concat_take(l, 7);
    lemma_concat_take(l, 8);
    lemma_concat_take(l, 9);
    lemma_concat_take(l, 10);
    lemma_concat_take(l, 11);
    assert(l.take(0) =~= Seq::<Seq<char>>::empty());
    assert(l.take(11) =~= l);
    assert(concat(l) =~= all);
    lemma_concat_contains(l, k);
    let r = report_text(
        ip_local,
        ip_pub,
        dns_info,
        ping,
        traceroute,
        ports,
        scan,
        gateway,
        dns_bench,
        http_timing,
        iface_stats,
        started_at,
        ended_at,
        now,
        hostname,
    );
    let pre = r.take(r.len() - all.len() - footer_text(now).len());
    assert(r =~= pre + all + footer_text(now));
    lemma_contains_within(pre, all, footer_text(now), l[k]);
}

/// Every reading of ping output, whatever the output, carries the quality label
/// of its own mean, loss and jitter, one of the four labels, with that label's
/// color.
pub proof fn law_ping_reading_quality(output: Seq<char>, count: u8)
    ensures
        ({
            let p = ping_view(output, count);
            &&& (p.quality, p.quality_color) == ping_quality(p.avg_ms, p.loss_pct, p.jitter_ms)
            &&& color_of(p.quality) == p.quality_color
            &&& (p.quality == "Excelente"@ || p.quality == "Bom"@ || p.quality == "Aceitável"@
                || p.quality == "Ruim"@)
        }),
{
    let p = ping_view(output, count);
    law_ping_quality_color(p.avg_ms, p.loss_pct, p.jitter_ms);
}

/// On a Windows round-trip summary line, the minimum, maximum and mean read are
/// the numbers printed after the minimum, maximum and average labels (the second,
/// fourth and sixth groups of the pattern that reads both languages; the first,
/// second and third of the English one), 0 where such a number does not read.
/// So where the printed mean and maximum differ, the mean read is not the maximum.
/// The loss read is the percentage printed in parentheses on the packet-count line.
pub proof fn law_windows_summary_fields(
    a: PingAcc,
    c: Option<Seq<Option<Seq<char>>>>,
    ce: Option<Seq<Option<Seq<char>>>>,
    d: Option<Seq<Option<Seq<char>>>>,
    de: Option<Seq<Option<Seq<char>>>>,
    line: Seq<char>,
    count: u8,
)
    ensures
        ({
            let r = windows_step_with(a, c, ce, d, de, line, count);
            let (mn, mx, mean) = if d is Some {
                (group_or_empty(d, 2), group_or_empty(d, 4), group_or_empty(d, 6))
            } else {
                (group_or_empty(de, 1), group_or_empty(de, 2), group_or_empty(de, 3))
            };
            let lc = if c is Some {
                group_or_empty(c, 3)
            } else {
                group_or_empty(ce, 3)
            };
            &&& (c is Some || ce is Some) ==> (parse_milli(lc) == Some(r.loss) || (parse_milli(lc) is None
                && r.loss == 0))
            &&& (d is Some || de is Some) ==> {
                &&& parse_milli(mean) == Some(r.avg) || (parse_milli(mean) is None && r.avg == 0)
                &&& parse_milli(mx) == Some(r.max) || (parse_milli(mx) is None && r.max == 0)
                &&& parse_milli(mn) == Some(r.min) || (parse_milli(mn) is None && r.min == 0)
                &&& (parse_milli(mean) is Some && parse_milli(mx) is Some && parse_milli(mean)
                    != parse_milli(mx)) ==> r.avg != r.max
            }
        }),
{
}

/// Every hop read from a `tracert` line that answered (neither `*` after the hop
/// number nor a time-out message) has no loss and is `ok` when its mean is below
/// 30 ms, `warning` otherwise; a hop that did not answer is `no_reply` at `*`.
pub proof fn law_tracert_hop_status(line: Seq<char>)
    ensures
        tracert_hop_of(line) matches Some(h) ==> {
            let parts = words(line);
            let silent = parts[1] == "*"@ || contains(line, "Tempo limite"@) || contains(
                line,
                "Request timed out"@,
            );
            &&& silent ==> h.status == "no_reply"@ && h.address == "*"@
            &&& !silent ==> h.loss_pct == 0
            &&& !silent && h.avg_ms < 30_000 ==> h.status == "ok"@
            &&& !silent && h.avg_ms >= 30_000 ==> h.status == "warning"@
        },
{
}

/// `percent_index` finds the first token that ends in `%`.
proof fn lemma_percent_index_first(parts: Seq<Seq<char>>)
    ensures
        match percent_index(parts) {
            Some(k) => 0 <= k < parts.len() && ends_with(parts[k], "%"@) && forall|j: int|
                0 <= j < k ==> !ends_with(#[trigger] parts[j], "%"@),
            None => forall|j: int| 0 <= j < parts.len() ==> !ends_with(#[trigger] parts[j], "%"@),
        },
    decreases parts.len(),
{
    if parts.len() > 0 {
        lemma_percent_index_first(parts.drop_first());
        if !ends_with(parts[0], "%"@) {
            match percent_index(parts.drop_first()) {
                Some(k) => {
                    assert forall|j: int| 0 <= j < k + 1 implies !ends_with(#[trigger] parts[j], "%"@) by {
                        if j > 0 {
                            assert(parts[j] == parts.drop_first()[j - 1]);
                        }
                    }
                },
                None => {
                    assert forall|j: int| 0 <= j < parts.len() implies !ends_with(#[trigger] parts[j], "%"@) by {
                        if j > 0 {
                            assert(parts[j] == parts.drop_first()[j - 1]);
                        }
                    }
                },
            }
        }
    }
}

/// The loss of a hop of an MTR report is the number of the line's first token that
/// ends in `%`, without the `%` (0 where it does not read); its mean, best, worst
/// and deviation are the third to sixth tokens after that one; and its quality is `ok` for a mean below 30 ms without
/// loss, else `warning` for a mean below 80 ms or a loss of at most 2%, else
/// `critical`.
pub proof fn law_mtr_loss_column(raw: Seq<char>, k: int)
    requires
        0 <= k < words(trim(raw)).len(),
        ends_with(words(trim(raw))[k], "%"@),
        forall|j: int| 0 <= j < k ==> !ends_with(#[trigger] words(trim(raw))[j], "%"@),
    ensures
        mtr_line(raw) matches Some(h) ==> {
            let parts = words(trim(raw));
            let loss = trim_end_by(parts[k], char_pred('%'));
            &&& parse_milli(loss) == Some(h.loss_pct) || (parse_milli(loss) is None && h.loss_pct == 0)
            &&& parse_milli(parts[k + 3]) == Some(h.avg_ms) || (parse_milli(parts[k + 3]) is None
                && h.avg_ms == 0)
            &&& parse_milli(parts[k + 4]) == Some(h.best_ms) || (parse_milli(parts[k + 4]) is None
                && h.best_ms == 0)
            &&& parse_milli(parts[k + 5]) == Some(h.worst_ms) || (parse_milli(parts[k + 5]) is None
                && h.worst_ms == 0)
            &&& parse_milli(parts[k + 6]) == Some(h.jitter_ms) || (parse_milli(parts[k + 6]) is None
                && h.jitter_ms == 0)
            &&& h.avg_ms < 30_000 && h.loss_pct == 0 ==> h.quality == "ok"@
            &&& !(h.avg_ms < 30_000 && h.loss_pct == 0) && (h.avg_ms < 80_000 || h.loss_pct <= 2_000)
                ==> h.quality == "warning"@
            &&& !(h.avg_ms < 80_000 || h.loss_pct <= 2_000) ==> h.quality == "critical"@
        },
{
    let parts = words(trim(raw));
    lemma_percent_index_first(parts);
    match percent_index(parts) {
        Some(i) => {
            if i < k {
                assert(!ends_with(parts[i], "%"@));
            }
            if k < i {
                assert(!ends_with(parts[k], "%"@));
            }
        },
        None => {
            assert(!ends_with(parts[k], "%"@));
        },
    }
}

/// A gateway is reachable exactly when its ping ran and got at least one reply;
/// its latency is the ping's mean, and none without a ping. Only the first route's
/// gateway is primary.
pub proof fn law_gateway_reachable(i: nat, route: (Seq<char>, Seq<char>, u32), ping: Option<(u64, u8)>)
    ensures
        ({
            let g = gateway_entry_view(i, route, ping);
            &&& g.reachable <==> (ping matches Some(p) && p.1 > 0)
            &&& ping is None ==> g.latency_ms is None
            &&& ping matches Some(p) ==> g.latency_ms == Some(p.0)
            &&& g.is_primary <==> i == 0
            &&& g.ip == route.0 && g.interface == route.1 && g.metric == route.2
        }),
{
}

/// The speed label by download rate (in thousandths of a Mbit/s): `Excelente`
/// above 100 Mbit/s, `Bom` above 50, `Razoável` above 20, `Lento` above 5; at 5
/// or below, `Ruim` when the latency is above 200 ms and `Muito Lento` otherwise.
/// A faster download never gets a lower label.
pub proof fn law_speed_bands(dl: nat, lat: nat)
    ensures
        dl > 100_000 ==> speed_label(dl, lat) == ("Excelente"@, "green"@),
        50_000 < dl <= 100_000 ==> speed_label(dl, lat) == ("Bom"@, "green"@),
        20_000 < dl <= 50_000 ==> speed_label(dl, lat) == ("Razoável"@, "yellow"@),
        5_000 < dl <= 20_000 ==> speed_label(dl, lat) == ("Lento"@, "yellow"@),
        dl <= 5_000 && lat > 200_000 ==> speed_label(dl, lat) == ("Ruim"@, "red"@),
        dl <= 5_000 && lat <= 200_000 ==> speed_label(dl, lat) == ("Muito Lento"@, "red"@),
{
}

/// On a Linux round-trip summary line (`rtt min/avg/max/mdev = a/b/c/d`), the
/// minimum, mean, maximum and jitter read are the four numbers in that order, 0
/// where one does not read; on a packet-count line, the loss follows the counts.
pub proof fn law_linux_summary_fields(
    a: PingAcc,
    c: Option<Seq<Option<Seq<char>>>>,
    d: Option<Seq<Option<Seq<char>>>>,
    count: u8,
)
    ensures
        ({
            let r = linux_step_with(a, c, d, count);
            &&& d is Some ==> {
                &&& parse_milli(group_or_empty(d, 1)) == Some(r.min) || (parse_milli(group_or_empty(d, 1)) is None && r.min == 0)
                &&& parse_milli(group_or_empty(d, 2)) == Some(r.avg) || (parse_milli(group_or_empty(d, 2)) is None && r.avg == 0)
                &&& parse_milli(group_or_empty(d, 3)) == Some(r.max) || (parse_milli(group_or_empty(d, 3)) is None && r.max == 0)
                &&& parse_milli(group_or_empty(d, 4)) == Some(r.jitter) || (parse_milli(group_or_empty(d, 4)) is None && r.jitter == 0)
            }
            &&& c is Some ==> r.loss == loss_of(r.sent, r.received)
            &&& c is None && d is None ==> r == a
        }),
{
}

} // verus!
