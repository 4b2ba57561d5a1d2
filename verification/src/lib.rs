//! The analysis core of a network analyzer: it reads what system tools print
//! (`ping`, `traceroute`, `tracepath`, `tracert`, `mtr`, `ip`, `ss`, `netstat`,
//! `arp`, `curl`, `/proc/net/dev`), classifies latency and loss, orders and
//! labels what it found, and writes the diagnostic report.
pub mod text;
pub mod num;
pub mod pattern;
pub mod route;
pub mod mtr;
pub mod quality;
pub mod ports;
pub mod network_scan;
pub mod gateway;
pub mod iface_stats;
pub mod speedtest;
pub mod http_timing;
pub mod ip;
pub mod report;
pub mod laws;
