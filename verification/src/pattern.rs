//! Regular-expression matching, done by the `regex` crate.
use vstd::prelude::*;
use crate::text::chars_of;

verus! {

/// What `regex::Regex::captures` finds of `pattern` in `haystack`: `None` when the
/// pattern does not compile or does not match, else every group of the leftmost
/// match in order (group 0 is the whole match), `None` for a group that took no part.
pub uninterp spec fn regex_captures(pattern: Seq<char>, haystack: Seq<char>) -> Option<
    Seq<Option<Seq<char>>>,
>;

/// What `regex::Regex::replace_all` gives for `pattern` on `haystack` with a literal
/// `replacement`; the haystack itself when the pattern does not compile.
pub uninterp spec fn regex_replace_all(
    pattern: Seq<char>,
    haystack: Seq<char>,
    replacement: Seq<char>,
) -> Seq<char>;

pub open spec fn group_view(g: Option<String>) -> Option<Seq<char>> {
    match g {
        Some(s) => Some(s@),
        None => None,
    }
}

pub open spec fn groups_view(c: Option<Vec<Option<String>>>) -> Option<Seq<Option<Seq<char>>>> {
    match c {
        Some(v) => Some(v@.map_values(|g: Option<String>| group_view(g))),
        None => None,
    }
}

/// `Regex::new(pattern)` and then `captures(haystack)`, with every group copied out.
/// The contract names the result and claims nothing else of it.
#[verifier::external_body]
fn captures_raw(pattern: &str, haystack: &str) -> (r: Option<Vec<Option<String>>>)
    ensures
        groups_view(r) == regex_captures(pattern@, haystack@),
{
    let re = match regex::Regex::new(pattern) {
        Ok(re) => re,
        Err(_) => return None,
    };
    let caps = re.captures(haystack)?;
    Some(caps.iter().map(|m| m.map(|m| m.as_str().to_string())).collect())
}

/// `Regex::new(pattern)` and then `replace_all(haystack, replacement)` with the
/// replacement taken literally. The contract names the result and claims nothing else.
#[verifier::external_body]
fn replace_all_raw(pattern: &str, haystack: &str, replacement: &str) -> (r: String)
    ensures
        r@ == regex_replace_all(pattern@, haystack@, replacement@),
{
    match regex::Regex::new(pattern) {
        Ok(re) => re.replace_all(haystack, regex::NoExpand(replacement)).to_string(),
        Err(_) => haystack.to_string(),
    }
}

/// The group views of a match, as character vectors.
pub open spec fn caps_view(c: Option<Vec<Option<Vec<char>>>>) -> Option<Seq<Option<Seq<char>>>> {
    match c {
        Some(v) => Some(
            v@.map_values(
                |g: Option<Vec<char>>|
                    match g {
                        Some(x) => Some(x@),
                        None => None,
                    },
            ),
        ),
        None => None,
    }
}

/// The groups of the leftmost match of `pattern` in `haystack`.
pub fn captures(pattern: &str, haystack: &Vec<char>) -> (r: Option<Vec<Option<Vec<char>>>>)
    ensures
        caps_view(r) == regex_captures(pattern@, haystack@),
{
    let h = crate::text::string_of(haystack);
    let raw = captures_raw(pattern, h.as_str());
    match raw {
        None => None,
        Some(groups) => {
            let mut out: Vec<Option<Vec<char>>> = Vec::new();
            for i in 0..groups.len()
                invariant
                    out@.len() == i,
                    forall|j: int|
                        0 <= j < i ==> (match #[trigger] out@[j] {
                            Some(x) => Some(x@),
                            None => None,
                        }) == group_view(groups@[j]),
            {
                match &groups[i] {
                    Some(g) => out.push(Some(chars_of(g.as_str()))),
                    None => out.push(None),
                }
            }
            proof {
                let a = caps_view(Some(out))->0;
                let b = groups_view(Some(groups))->0;
                assert(a =~= b);
            }
            Some(out)
        },
    }
}

/// Group `k` of a match, when the match has it.
pub open spec fn group(c: Option<Seq<Option<Seq<char>>>>, k: int) -> Option<Seq<char>> {
    match c {
        Some(g) => if 0 <= k < g.len() {
            g[k]
        } else {
            None
        },
        None => None,
    }
}

/// Group `k` of a match, copied out.
pub fn group_v(c: &Option<Vec<Option<Vec<char>>>>, k: usize) -> (r: Option<Vec<char>>)
    ensures
        match r {
            Some(x) => group(caps_view(*c), k as int) == Some(x@),
            None => group(caps_view(*c), k as int) is None,
        },
{
    match c {
        Some(g) => if k < g.len() {
            match &g[k] {
                Some(x) => Some(crate::text::slice_of(x, 0, x.len())),
                None => None,
            }
        } else {
            None
        },
        None => None,
    }
}

/// `pattern` with every match in `haystack` replaced by `replacement`.
pub fn replace_all(pattern: &str, haystack: &Vec<char>, replacement: &str) -> (r: Vec<char>)
    ensures
        r@ == regex_replace_all(pattern@, haystack@, replacement@),
{
    let h = crate::text::string_of(haystack);
    let s = replace_all_raw(pattern, h.as_str(), replacement);
    chars_of(s.as_str())
}

} // verus!
