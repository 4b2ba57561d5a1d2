# king_network_tools

The analysis core of a desktop network analyzer (ping, traceroute, MTR, gateways,
local network scan, listening ports, interfaces and their counters, HTTP timing,
speed test and a diagnostic report), written in Verus: every function of the
library carries a contract that Verus proves.

## Layout

- `src/` — the verified library.
  - `text.rs`, `num.rs`: the text and number operations everything else is stated
    over (lines, words, trimming, searching; decimal numbers held in thousandths,
    `Milli`).
  - `pattern.rs`: regular-expression matching through the `regex` crate. Besides
    its two calls, the library trusts only `String::push` and the clock read of
    `chrono` that dates the report.
  - `route.rs` and `route/`: ping, `traceroute`, `tracepath` and `tracert` output,
    hop and ping classification, the choice among route traces.
  - `mtr.rs`, `gateway.rs`, `network_scan.rs`, `ports.rs`, `ip.rs`,
    `iface_stats.rs`, `http_timing.rs`, `speedtest.rs`, `quality.rs`, `report.rs`:
    one module per diagnostic.
  - `laws.rs`: properties that relate several operations (ordering of gateways and
    hosts and its stability, route trimming and choice, quality labels and colors,
    loss bounds, the report's quick diagnosis, the upload payload's size, ...).
- `tests/`: tests on concrete values.
- `app/`: the unverified shell that runs system commands, reads files, opens
  connections and threads, and hands what came back to the library; it also holds
  the serializable copies of the result types.

Latencies, losses and rates are integers in thousandths of their unit: `12.5 ms`
is `12500`. A decimal is read with an optional exponent (`1.5e-3`) and cut after
its third decimal place; negative numbers, `inf` and `nan` are not read as
quantities. The conversion to floating point happens only in `app/`.
