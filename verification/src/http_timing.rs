//! HTTP timing, from the timings `curl -w` writes.
use vstd::prelude::*;
use crate::num::{parse_milli, parse_milli_v, parse_unsigned, parse_u16_v, Milli};
use crate::route::text;
use crate::text::{chars_of, lines, split_lines, string_of, trim, trim_v};

verus! {

/// The `curl -w` format whose output [`curl_timing`] reads: name lookup, connect,
/// first byte and total times, then the status code, one per line.
pub const CURL_WRITE_OUT: &'static str = "%{time_namelookup}\\n%{time_connect}\\n%{time_starttransfer}\\n%{time_total}\\n%{http_code}";

/// The timing phases of one request; times in thousandths of a second.
pub struct HttpTiming {
    pub url: String,
    pub dns_s: Milli,
    pub connect_s: Milli,
    pub ttfb_s: Milli,
    pub total_s: Milli,
    pub status_code: u16,
}

/// The addresses timed by default.
pub open spec fn http_targets() -> Seq<Seq<char>> {
    seq!["https://google.com"@, "https://cloudflare.com"@, "https://github.com"@]
}

/// The addresses timed by default.
pub fn get_http_targets() -> (r: Vec<String>)
    ensures
        views_of_strings(r@) == http_targets(),
{
    let mut r: Vec<String> = Vec::new();
    r.push(text("https://google.com"));
    r.push(text("https://cloudflare.com"));
    r.push(text("https://github.com"));
    assert(views_of_strings(r@) =~= http_targets());
    r
}

pub open spec fn views_of_strings(s: Seq<String>) -> Seq<Seq<char>> {
    s.map_values(|x: String| x@)
}

/// A time in seconds as `curl` writes it, or 0.
pub open spec fn seconds(s: Seq<char>) -> nat {
    match parse_milli(s) {
        Some(x) => x,
        None => 0,
    }
}

/// What `curl -w` reports of a request, or why it gives nothing.
pub open spec fn curl_result(url: Seq<char>, success: bool, stdout: Seq<char>, stderr: Seq<char>) -> Result<
    (Seq<char>, nat, nat, nat, nat, u16),
    Seq<char>,
> {
    let ls = lines(stdout);
    if !success {
        Err("curl falhou para "@ + url + ": "@ + trim(stderr))
    } else if ls.len() < 5 {
        Err("Resposta inesperada do curl: "@ + stdout)
    } else {
        Ok(
            (
                url,
                seconds(ls[0]),
                seconds(ls[1]),
                seconds(ls[2]),
                seconds(ls[3]),
                match parse_unsigned(ls[4], u16::MAX as nat) {
                    Some(c) => c as u16,
                    None => 0,
                },
            ),
        )
    }
}

fn seconds_v(s: &Vec<char>) -> (r: Milli)
    ensures
        r == seconds(s@),
{
    match parse_milli_v(s) {
        Some(x) => x,
        None => 0,
    }
}

/// Reads the timing of a request from a finished `curl -w` run that printed
/// name lookup, connect, first byte and total times and the status code, one
/// per line.
pub fn curl_timing(url: &str, success: bool, stdout: &str, stderr: &str) -> (r: Result<
    HttpTiming,
    String,
>)
    ensures
        match r {
            Ok(t) => curl_result(url@, success, stdout@, stderr@) == Ok::<
                (Seq<char>, nat, nat, nat, nat, u16),
                Seq<char>,
            >(
                (
                    t.url@,
                    t.dns_s as nat,
                    t.connect_s as nat,
                    t.ttfb_s as nat,
                    t.total_s as nat,
                    t.status_code,
                ),
            ),
            Err(e) => curl_result(url@, success, stdout@, stderr@) == Err::<
                (Seq<char>, nat, nat, nat, nat, u16),
                Seq<char>,
            >(e@),
        },
{
    if !success {
        let mut msg = text("curl falhou para ");
        msg.append(url);
        msg.append(": ");
        let e = trim_v(&chars_of(stderr));
        let es = string_of(&e);
        msg.append(es.as_str());
        return Err(msg);
    }
    let v = chars_of(stdout);
    let ls = split_lines(&v);
    if ls.len() < 5 {
        let mut msg = text("Resposta inesperada do curl: ");
        msg.append(stdout);
        return Err(msg);
    }
    let status_code = match parse_u16_v(&ls[4]) {
        Some(c) => c,
        None => 0,
    };
    Ok(
        HttpTiming {
            url: text(url),
            dns_s: seconds_v(&ls[0]),
            connect_s: seconds_v(&ls[1]),
            ttfb_s: seconds_v(&ls[2]),
            total_s: seconds_v(&ls[3]),
            status_code,
        },
    )
}

} // verus!
