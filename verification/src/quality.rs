//! Quality labels of latency and loss, and the thresholds behind them.
use vstd::prelude::*;
use crate::num::Milli;
use crate::text::{chars_of, same_as};

verus! {

/// The thresholds of the latency and loss labels, in thousandths.
pub struct QualityThresholds {
    pub excellent_max: Milli,
    pub good_max: Milli,
    pub acceptable_max: Milli,
    pub loss_none: Milli,
    pub loss_low_max: Milli,
}

/// The label of a mean latency, by its whole milliseconds.
pub open spec fn latency_quality(avg_ms: nat) -> Seq<char> {
    let whole = avg_ms / 1000;
    if whole <= 4 {
        "Excelente"@
    } else if whole <= 29 {
        "Bom"@
    } else if whole <= 79 {
        "Aceitável"@
    } else {
        "Ruim"@
    }
}

/// The label of a loss.
pub open spec fn loss_quality(pct: nat) -> Seq<char> {
    if pct == 0 {
        "Sem perda"@
    } else if pct <= 2_000 {
        "Perda baixa"@
    } else {
        "Perda alta"@
    }
}

/// The color of a quality label or hop status.
pub open spec fn color_of(quality: Seq<char>) -> Seq<char> {
    if quality == "Excelente"@ || quality == "Bom"@ || quality == "ok"@ {
        "green"@
    } else if quality == "Aceitável"@ || quality == "warning"@ {
        "yellow"@
    } else {
        "red"@
    }
}

/// The label of a mean latency given in thousandths of a millisecond; only its
/// whole milliseconds count.
pub fn classify_latency(avg_ms: Milli) -> (r: &'static str)
    ensures
        r@ == latency_quality(avg_ms as nat),
{
    let whole = avg_ms / 1000;
    if whole <= 4 {
        "Excelente"
    } else if whole <= 29 {
        "Bom"
    } else if whole <= 79 {
        "Aceitável"
    } else {
        "Ruim"
    }
}

/// The label of a loss given in thousandths of a percent.
pub fn classify_loss(pct: Milli) -> (r: &'static str)
    ensures
        r@ == loss_quality(pct as nat),
{
    if pct == 0 {
        "Sem perda"
    } else if pct <= 2_000 {
        "Perda baixa"
    } else {
        "Perda alta"
    }
}

/// The color of a quality label or hop status.
pub fn quality_color(quality: &str) -> (r: &'static str)
    ensures
        r@ == color_of(quality@),
{
    let q = chars_of(quality);
    if same_as(&q, "Excelente") || same_as(&q, "Bom") || same_as(&q, "ok") {
        "green"
    } else if same_as(&q, "Aceitável") || same_as(&q, "warning") {
        "yellow"
    } else {
        "red"
    }
}

/// The thresholds the labels use: excellent up to 4 ms, good up to 29 ms,
/// acceptable up to 79 ms; low loss up to 2 %.
pub fn get_thresholds() -> (t: QualityThresholds)
    ensures
        t.excellent_max == 4_000,
        t.good_max == 29_000,
        t.acceptable_max == 79_000,
        t.loss_none == 0,
        t.loss_low_max == 2_000,
{
    QualityThresholds {
        excellent_max: 4_000,
        good_max: 29_000,
        acceptable_max: 79_000,
        loss_none: 0,
        loss_low_max: 2_000,
    }
}

} // verus!
