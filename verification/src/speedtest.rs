//! Speed test arithmetic: rates, labels, progress and the upload payload.
use vstd::prelude::*;
use crate::num::Milli;
use crate::route::text;

verus! {

/// The server the speed test measures against.
pub const SERVER_NAME: &'static str = "Cloudflare (GRU)";

/// The size of the upload payload the test aims for.
pub const UPLOAD_CHUNK_SIZE: usize = 2_000_000;

/// The number of bytes each download request asks for.
pub const CHUNK_SIZE: u64 = 5_000_000;

/// The number of parallel connections of each phase.
pub const NUM_THREADS: u32 = 4;

/// The warm-up at the start of the download phase, in milliseconds; bytes received
/// during it are not counted.
pub const WARMUP_MILLI: Milli = 2_000;

/// The measured part of the download phase, in milliseconds.
pub const DOWNLOAD_MILLI: Milli = 10_000;

/// The length of the upload phase, in milliseconds.
pub const UPLOAD_MILLI: Milli = 8_000;

/// The text repeated through the upload payload.
pub const UPLOAD_PATTERN: [u8; 45] = [75, 105, 110, 103, 78, 101, 116, 119, 111, 114, 107, 84, 111, 111, 108, 115, 32, 83, 112, 101, 101, 100, 32, 84, 101, 115, 116, 32, 85, 112, 108, 111, 97, 100, 32, 80, 97, 121, 108, 111, 97, 100, 32, 45, 32];

/// Progress of a running speed test.
pub struct SpeedTestProgress {
    pub phase: String,
    pub progress_pct: u8,
    pub current_mbps: Milli,
    pub server: String,
}

/// The outcome of a speed test; rates in thousandths of a Mbit/s.
pub struct SpeedTestResult {
    pub download_mbps: Milli,
    pub upload_mbps: Milli,
    pub latency_ms: Milli,
    pub jitter_ms: Milli,
    pub isp: String,
    pub server: String,
    pub quality: String,
    pub quality_color: String,
}

/// The rate of `bytes` moved in `secs` thousandths of a second, in thousandths of
/// a Mbit/s, rounded up (at most `u64::MAX`); 0 when no time passed. Rounded up,
/// a rate is above a threshold in thousandths exactly when the exact rate is.
pub open spec fn rate(bytes: nat, secs: nat) -> nat {
    if secs == 0 {
        0
    } else if ((bytes * 8 + secs - 1) as nat) / secs > u64::MAX {
        u64::MAX as nat
    } else {
        ((bytes * 8 + secs - 1) as nat) / secs
    }
}

/// The label and color of a connection from its download rate and latency.
pub open spec fn speed_label(dl: nat, lat: nat) -> (Seq<char>, Seq<char>) {
    if dl > 100_000 {
        ("Excelente"@, "green"@)
    } else if dl > 50_000 {
        ("Bom"@, "green"@)
    } else if dl > 20_000 {
        ("Razoável"@, "yellow"@)
    } else if dl > 5_000 {
        ("Lento"@, "yellow"@)
    } else if lat > 200_000 {
        ("Ruim"@, "red"@)
    } else {
        ("Muito Lento"@, "red"@)
    }
}

/// One block of the upload payload: the pattern (cut to what is still missing),
/// then the block number modulo 256, then a line feed.
pub open spec fn upload_block(idx: nat, len: nat) -> Seq<u8> {
    let remaining = UPLOAD_CHUNK_SIZE - len;
    let chunk = if remaining >= 45 {
        45
    } else {
        remaining
    };
    UPLOAD_PATTERN@.take(chunk) + seq![(idx % 256) as u8, 10u8]
}

/// The length of the block written when `len` bytes are already written.
pub open spec fn block_len(len: nat) -> nat {
    let remaining = UPLOAD_CHUNK_SIZE - len;
    ((if remaining >= 45 {
        45
    } else {
        remaining
    }) + 2) as nat
}

/// The payload from block `idx` on, when `len` bytes are already written.
pub open spec fn upload_from(idx: nat, len: nat) -> Seq<u8>
    decreases (if len < UPLOAD_CHUNK_SIZE {
        UPLOAD_CHUNK_SIZE - len
    } else {
        0
    }),
{
    if len >= UPLOAD_CHUNK_SIZE {
        seq![]
    } else {
        upload_block(idx, len) + upload_from(idx + 1, len + block_len(len))
    }
}

/// The rate of `bytes` moved in `secs_milli` thousandths of a second, in
/// thousandths of a Mbit/s, rounded up (see [`rate`]).
pub fn calc_mbps(bytes: u64, secs_milli: Milli) -> (r: Milli)
    ensures
        r == rate(bytes as nat, secs_milli as nat),
{
    if secs_milli == 0 {
        return 0;
    }
    let q = (bytes as u128 * 8 + secs_milli as u128 - 1) / secs_milli as u128;
    if q > u64::MAX as u128 {
        u64::MAX
    } else {
        q as u64
    }
}

/// The label and color of a connection; the upload rate does not count.
pub fn classify_speed(dl: Milli, _ul: Milli, lat: Milli) -> (r: (String, String))
    ensures
        (r.0@, r.1@) == speed_label(dl as nat, lat as nat),
{
    let (label, color) = if dl > 100_000 {
        ("Excelente", "green")
    } else if dl > 50_000 {
        ("Bom", "green")
    } else if dl > 20_000 {
        ("Razoável", "yellow")
    } else if dl > 5_000 {
        ("Lento", "yellow")
    } else if lat > 200_000 {
        ("Ruim", "red")
    } else {
        ("Muito Lento", "red")
    };
    (text(label), text(color))
}

/// The progress of a phase in percent, kept below 100 while it runs.
pub fn progress_pct(elapsed_milli: Milli, total_milli: Milli) -> (r: u8)
    requires
        total_milli > 0,
    ensures
        r as nat == if elapsed_milli as nat * 100 / total_milli as nat >= 99 {
            99
        } else {
            elapsed_milli as nat * 100 / total_milli as nat
        },
{
    let p = (elapsed_milli as u128 * 100) / total_milli as u128;
    if p >= 99 {
        99
    } else {
        p as u8
    }
}

/// The payload the upload test sends.
pub fn generate_upload_data() -> (data: Vec<u8>)
    ensures
        data@ == upload_from(0, 0),
{
    let mut data: Vec<u8> = Vec::new();
    let mut idx: usize = 0;
    assert(data@ + upload_from(0, 0) =~= upload_from(0, 0));
    while data.len() < UPLOAD_CHUNK_SIZE
        invariant
            data@.len() <= UPLOAD_CHUNK_SIZE + 47,
            idx <= data@.len(),
            data@ + upload_from(idx as nat, data@.len()) == upload_from(0, 0),
        decreases (if data@.len() < UPLOAD_CHUNK_SIZE {
            UPLOAD_CHUNK_SIZE - data@.len()
        } else {
            0
        }),
    {
        let ghost before = data@;
        let remaining = UPLOAD_CHUNK_SIZE - data.len();
        let chunk = if remaining >= 45 {
            45
        } else {
            remaining
        };
        for k in 0..chunk
            invariant
                chunk <= 45,
                data@ == before + UPLOAD_PATTERN@.take(k as int),
        {
            data.push(UPLOAD_PATTERN[k]);
            assert(data@ =~= before + UPLOAD_PATTERN@.take(k + 1));
        }
        data.push((idx % 256) as u8);
        data.push(10u8);
        assert(UPLOAD_PATTERN@.len() == 45);
        assert(data@ =~= before + upload_block(idx as nat, before.len()));
        assert(data@.len() == before.len() + block_len(before.len()));
        assert(before + upload_from(idx as nat, before.len()) =~= data@ + upload_from(
            idx as nat + 1,
            data@.len(),
        ));
        idx += 1;
    }
    assert(upload_from(idx as nat, data@.len()) =~= seq![]);
    assert(data@ =~= data@ + upload_from(idx as nat, data@.len()));
    data
}

/// The outcome of a speed test from its measurements.
pub fn speedtest_result(download_mbps: Milli, upload_mbps: Milli, latency_ms: Milli, jitter_ms: Milli) -> (r: SpeedTestResult)
    ensures
        r.download_mbps == download_mbps,
        r.upload_mbps == upload_mbps,
        r.latency_ms == latency_ms,
        r.jitter_ms == jitter_ms,
        r.isp@.len() == 0,
        r.server@ == SERVER_NAME@,
        (r.quality@, r.quality_color@) == speed_label(download_mbps as nat, latency_ms as nat),
{
    let (quality, quality_color) = classify_speed(download_mbps, upload_mbps, latency_ms);
    SpeedTestResult {
        download_mbps,
        upload_mbps,
        latency_ms,
        jitter_ms,
        isp: String::new(),
        server: text(SERVER_NAME),
        quality,
        quality_color,
    }
}

/// A progress event of the test.
pub fn progress_event(phase: &str, progress_pct: u8, current_mbps: Milli) -> (r: SpeedTestProgress)
    ensures
        r.phase@ == phase@,
        r.progress_pct == progress_pct,
        r.current_mbps == current_mbps,
        r.server@ == SERVER_NAME@,
{
    SpeedTestProgress { phase: text(phase), progress_pct, current_mbps, server: text(SERVER_NAME) }
}

/// Whether a download worker still starts requests `elapsed_milli` after the start.
pub fn download_running(elapsed_milli: Milli) -> (r: bool)
    ensures
        r == (elapsed_milli < WARMUP_MILLI + DOWNLOAD_MILLI),
{
    elapsed_milli < WARMUP_MILLI + DOWNLOAD_MILLI
}

/// Whether the bytes of a download request started `elapsed_milli` after the start
/// are counted (it did not start during the warm-up).
pub fn counts_toward_download(elapsed_milli: Milli) -> (r: bool)
    ensures
        r == (elapsed_milli >= WARMUP_MILLI),
{
    elapsed_milli >= WARMUP_MILLI
}

/// Whether an upload worker still sends `elapsed_milli` after the start.
pub fn upload_running(elapsed_milli: Milli) -> (r: bool)
    ensures
        r == (elapsed_milli < UPLOAD_MILLI),
{
    elapsed_milli < UPLOAD_MILLI
}

/// Whether an upload answered with this HTTP status counts as delivered.
pub fn upload_accepted(status: u16) -> (r: bool)
    ensures
        r == (status == 200 || status == 204),
{
    status == 200 || status == 204
}

/// The progress in percent of a phase of `total_milli`, capped at 99.
pub open spec fn pct_of(elapsed: nat, total: nat) -> nat {
    if elapsed * 100 / total >= 99 {
        99
    } else {
        elapsed * 100 / total
    }
}

/// The progress event of the download phase, `elapsed_milli` after its start with
/// `bytes` counted: the rate is taken over the time since the warm-up, at least half
/// a second.
pub fn download_progress(elapsed_milli: Milli, bytes: u64) -> (r: SpeedTestProgress)
    ensures
        r.phase@ == "download"@,
        r.progress_pct as nat == pct_of(elapsed_milli as nat, (WARMUP_MILLI + DOWNLOAD_MILLI) as nat),
        r.current_mbps == rate(
            bytes as nat,
            if elapsed_milli > WARMUP_MILLI && elapsed_milli - WARMUP_MILLI > 500 {
                (elapsed_milli - WARMUP_MILLI) as nat
            } else {
                500
            },
        ),
        r.server@ == SERVER_NAME@,
{
    let pct = progress_pct(elapsed_milli, WARMUP_MILLI + DOWNLOAD_MILLI);
    let measured = if elapsed_milli > WARMUP_MILLI {
        elapsed_milli - WARMUP_MILLI
    } else {
        0
    };
    let secs = if measured > 500 {
        measured
    } else {
        500
    };
    progress_event("download", pct, calc_mbps(bytes, secs))
}

/// The progress event of the upload phase, `elapsed_milli` after its start with
/// `bytes` delivered: the rate is taken over at least half a second.
pub fn upload_progress(elapsed_milli: Milli, bytes: u64) -> (r: SpeedTestProgress)
    ensures
        r.phase@ == "upload"@,
        r.progress_pct as nat == pct_of(elapsed_milli as nat, UPLOAD_MILLI as nat),
        r.current_mbps == rate(
            bytes as nat,
            if elapsed_milli > 500 {
                elapsed_milli as nat
            } else {
                500
            },
        ),
        r.server@ == SERVER_NAME@,
{
    let pct = progress_pct(elapsed_milli, UPLOAD_MILLI);
    let secs = if elapsed_milli > 500 {
        elapsed_milli
    } else {
        500
    };
    progress_event("upload", pct, calc_mbps(bytes, secs))
}

/// The download rate from the bytes counted in the whole phase; an error when
/// nothing was counted.
pub fn download_outcome(total_bytes: u64) -> (r: Result<Milli, String>)
    ensures
        total_bytes == 0 <==> r is Err,
        r matches Err(e) ==> e@ == "Nenhum dado baixado"@,
        r matches Ok(m) ==> m == rate(total_bytes as nat, DOWNLOAD_MILLI as nat),
{
    if total_bytes == 0 {
        return Err(text("Nenhum dado baixado"));
    }
    Ok(calc_mbps(total_bytes, DOWNLOAD_MILLI))
}

/// The upload rate from the bytes delivered in the whole phase; an error when
/// nothing was delivered.
pub fn upload_outcome(total_bytes: u64) -> (r: Result<Milli, String>)
    ensures
        total_bytes == 0 <==> r is Err,
        r matches Err(e) ==> e@ == "Nenhum dado enviado"@,
        r matches Ok(m) ==> m == rate(total_bytes as nat, UPLOAD_MILLI as nat),
{
    if total_bytes == 0 {
        return Err(text("Nenhum dado enviado"));
    }
    Ok(calc_mbps(total_bytes, UPLOAD_MILLI))
}

/// The outcome of a whole speed test from the outcomes of its phases: a failed
/// latency measurement counts as zero, a failed upload as a zero rate, and a failed
/// download fails the test.
pub fn speedtest_outcome(
    latency: Result<(Milli, Milli), String>,
    download: Result<Milli, String>,
    upload: Result<Milli, String>,
) -> (r: Result<SpeedTestResult, String>)
    ensures
        download is Err <==> r is Err,
        r matches Err(e) ==> download matches Err(d) && e@ == "Download: "@ + d@,
        r matches Ok(t) ==> {
            &&& download matches Ok(dl) && t.download_mbps == dl
            &&& t.upload_mbps == (match upload {
                Ok(u) => u,
                Err(_) => 0,
            })
            &&& (t.latency_ms, t.jitter_ms) == (match latency {
                Ok(l) => l,
                Err(_) => (0u64, 0u64),
            })
            &&& t.isp@.len() == 0
            &&& t.server@ == SERVER_NAME@
            &&& (t.quality@, t.quality_color@) == speed_label(t.download_mbps as nat, t.latency_ms as nat)
        },
{
    let (lat, jit) = match latency {
        Ok(v) => v,
        Err(_) => (0, 0),
    };
    let dl = match download {
        Ok(m) => m,
        Err(e) => {
            let mut msg = text("Download: ");
            msg.append(e.as_str());
            return Err(msg);
        },
    };
    let ul = match upload {
        Ok(m) => m,
        Err(_) => 0,
    };
    Ok(speedtest_result(dl, ul, lat, jit))
}

} // verus!
