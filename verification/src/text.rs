//! Character-level text handling: the views of strings as `Seq<char>`, and the
//! line, word and trimming operations that the command-output parsers are built on.
use vstd::prelude::*;

verus! {

// ---------------------------------------------------------------------------
// Specifications
// ---------------------------------------------------------------------------

/// Unicode `White_Space`, the property behind `char::is_whitespace`.
pub open spec fn is_ws(c: char) -> bool {
    let u = c as u32;
    (0x9 <= u <= 0xd) || u == 0x20 || u == 0x85 || u == 0xa0 || u == 0x1680 || (0x2000 <= u
        <= 0x200a) || u == 0x2028 || u == 0x2029 || u == 0x202f || u == 0x205f || u == 0x3000
}

pub open spec fn is_digit(c: char) -> bool {
    '0' <= c <= '9'
}

/// `s` without its leading characters that satisfy `f`.
pub open spec fn trim_start_by(s: Seq<char>, f: spec_fn(char) -> bool) -> Seq<char>
    decreases s.len(),
{
    if s.len() > 0 && f(s[0]) {
        trim_start_by(s.drop_first(), f)
    } else {
        s
    }
}

/// `s` without its trailing characters that satisfy `f`.
pub open spec fn trim_end_by(s: Seq<char>, f: spec_fn(char) -> bool) -> Seq<char>
    decreases s.len(),
{
    if s.len() > 0 && f(s.last()) {
        trim_end_by(s.drop_last(), f)
    } else {
        s
    }
}

pub open spec fn ws_pred() -> spec_fn(char) -> bool {
    |c: char| is_ws(c)
}

pub open spec fn char_pred(x: char) -> spec_fn(char) -> bool {
    |c: char| c == x
}

/// `str::trim`.
pub open spec fn trim(s: Seq<char>) -> Seq<char> {
    trim_end_by(trim_start_by(s, ws_pred()), ws_pred())
}

pub open spec fn starts_with(s: Seq<char>, p: Seq<char>) -> bool {
    p.len() <= s.len() && s.take(p.len() as int) == p
}

pub open spec fn ends_with(s: Seq<char>, p: Seq<char>) -> bool {
    p.len() <= s.len() && s.skip(s.len() - p.len()) == p
}

/// `p` occurs in `s` starting at index `i`.
pub open spec fn occurs_at(s: Seq<char>, p: Seq<char>, i: int) -> bool {
    0 <= i && i + p.len() <= s.len() && s.subrange(i, i + p.len()) == p
}

pub open spec fn contains(s: Seq<char>, p: Seq<char>) -> bool {
    exists|i: int| occurs_at(s, p, i)
}

pub open spec fn contains_char(s: Seq<char>, c: char) -> bool {
    s.contains(c)
}

pub open spec fn is_first_occurrence(s: Seq<char>, p: Seq<char>, i: int) -> bool {
    occurs_at(s, p, i) && forall|j: int| 0 <= j < i ==> !#[trigger] occurs_at(s, p, j)
}

/// `str::find`: the index of the first occurrence of `p` in `s`.
pub open spec fn find(s: Seq<char>, p: Seq<char>) -> Option<int> {
    if contains(s, p) {
        Some(choose|i: int| is_first_occurrence(s, p, i))
    } else {
        None
    }
}

/// `strip_suffix` repeated while it applies (`trim_end_matches` with a string pattern).
pub open spec fn trim_end_str(s: Seq<char>, p: Seq<char>) -> Seq<char>
    decreases s.len(),
{
    if p.len() > 0 && ends_with(s, p) {
        trim_end_str(s.take(s.len() - p.len()), p)
    } else {
        s
    }
}

/// `s` with one trailing `'\r'` removed.
pub open spec fn strip_cr(s: Seq<char>) -> Seq<char> {
    if s.len() > 0 && s.last() == '\r' {
        s.drop_last()
    } else {
        s
    }
}

/// The lines of `rest`, given that `cur` holds the line read so far.
pub open spec fn lines_from(rest: Seq<char>, cur: Seq<char>) -> Seq<Seq<char>>
    decreases rest.len(),
{
    if rest.len() == 0 {
        if cur.len() > 0 {
            seq![cur]
        } else {
            seq![]
        }
    } else if rest[0] == '\n' {
        seq![strip_cr(cur)] + lines_from(rest.drop_first(), seq![])
    } else {
        lines_from(rest.drop_first(), cur.push(rest[0]))
    }
}

/// `str::lines`: pieces ended by `'\n'` (with a `'\r'` before it dropped), and a
/// last piece without line end when it is not empty.
pub open spec fn lines(s: Seq<char>) -> Seq<Seq<char>> {
    lines_from(s, seq![])
}

/// The words of `rest`, given that `cur` holds the word read so far.
pub open spec fn words_from(rest: Seq<char>, cur: Seq<char>) -> Seq<Seq<char>>
    decreases rest.len(),
{
    if rest.len() == 0 {
        if cur.len() > 0 {
            seq![cur]
        } else {
            seq![]
        }
    } else if is_ws(rest[0]) {
        (if cur.len() > 0 {
            seq![cur]
        } else {
            seq![]
        }) + words_from(rest.drop_first(), seq![])
    } else {
        words_from(rest.drop_first(), cur.push(rest[0]))
    }
}

/// `str::split_whitespace`.
pub open spec fn words(s: Seq<char>) -> Seq<Seq<char>> {
    words_from(s, seq![])
}

/// The pieces of `rest` split at `sep`, given that `cur` holds the piece read so far.
pub open spec fn pieces_from(rest: Seq<char>, sep: char, cur: Seq<char>) -> Seq<Seq<char>>
    decreases rest.len(),
{
    if rest.len() == 0 {
        seq![cur]
    } else if rest[0] == sep {
        seq![cur] + pieces_from(rest.drop_first(), sep, seq![])
    } else {
        pieces_from(rest.drop_first(), sep, cur.push(rest[0]))
    }
}

/// `str::split` with a character separator.
pub open spec fn split_at_char(s: Seq<char>, sep: char) -> Seq<Seq<char>> {
    pieces_from(s, sep, seq![])
}

/// The values `f` keeps of a sequence, in order.
pub open spec fn filter_map<A, B>(s: Seq<A>, f: spec_fn(A) -> Option<B>) -> Seq<B>
    decreases s.len(),
{
    if s.len() == 0 {
        seq![]
    } else {
        filter_map(s.drop_last(), f) + match f(s.last()) {
            Some(b) => seq![b],
            None => seq![],
        }
    }
}

/// The number of elements that satisfy `f`.
pub open spec fn count_where<A>(s: Seq<A>, f: spec_fn(A) -> bool) -> nat
    decreases s.len(),
{
    if s.len() == 0 {
        0
    } else {
        count_where(s.drop_last(), f) + if f(s.last()) {
            1nat
        } else {
            0nat
        }
    }
}

/// The number of leading characters that do not satisfy `f`: the index of the
/// first one that does, or the length when none does.
pub open spec fn span_until(s: Seq<char>, f: spec_fn(char) -> bool) -> nat
    decreases s.len(),
{
    if s.len() == 0 || f(s[0]) {
        0
    } else {
        1 + span_until(s.drop_first(), f)
    }
}

/// The pieces joined with `sep` between them (`[&str]::join`).
pub open spec fn join(parts: Seq<Seq<char>>, sep: Seq<char>) -> Seq<char>
    decreases parts.len(),
{
    if parts.len() == 0 {
        seq![]
    } else if parts.len() == 1 {
        parts[0]
    } else {
        join(parts.drop_last(), sep) + sep + parts.last()
    }
}

// ---------------------------------------------------------------------------
// Lemmas
// ---------------------------------------------------------------------------

pub proof fn lemma_trim_start_skip(s: Seq<char>, f: spec_fn(char) -> bool, i: int)
    requires
        0 <= i <= s.len(),
        forall|j: int| 0 <= j < i ==> f(#[trigger] s[j]),
    ensures
        trim_start_by(s, f) == trim_start_by(s.skip(i), f),
    decreases i,
{
    if i > 0 {
        assert(s.skip(i) =~= s.drop_first().skip(i - 1));
        lemma_trim_start_skip(s.drop_first(), f, i - 1);
    } else {
        assert(s.skip(0) =~= s);
    }
}

pub proof fn lemma_trim_end_take(s: Seq<char>, f: spec_fn(char) -> bool, i: int)
    requires
        0 <= i <= s.len(),
        forall|j: int| i <= j < s.len() ==> f(#[trigger] s[j]),
    ensures
        trim_end_by(s, f) == trim_end_by(s.take(i), f),
    decreases s.len() - i,
{
    if i < s.len() {
        assert(s.drop_last().take(i) =~= s.take(i));
        lemma_trim_end_take(s.drop_last(), f, i);
    } else {
        assert(s.take(i) =~= s);
    }
}

pub proof fn lemma_span_until(s: Seq<char>, f: spec_fn(char) -> bool, i: int)
    requires
        0 <= i <= s.len(),
        forall|j: int| 0 <= j < i ==> !f(#[trigger] s[j]),
    ensures
        span_until(s, f) == i + span_until(s.skip(i), f),
    decreases i,
{
    if i > 0 {
        assert(s.skip(i) =~= s.drop_first().skip(i - 1));
        lemma_span_until(s.drop_first(), f, i - 1);
    } else {
        assert(s.skip(0) =~= s);
    }
}

pub proof fn lemma_pieces_nonempty(rest: Seq<char>, sep: char, cur: Seq<char>)
    ensures
        pieces_from(rest, sep, cur).len() > 0,
    decreases rest.len(),
{
    if rest.len() > 0 {
        if rest[0] == sep {
            lemma_pieces_nonempty(rest.drop_first(), sep, seq![]);
        } else {
            lemma_pieces_nonempty(rest.drop_first(), sep, cur.push(rest[0]));
        }
    }
}

pub proof fn lemma_first_occurrence_exists(s: Seq<char>, p: Seq<char>, i: int)
    requires
        occurs_at(s, p, i),
    ensures
        exists|k: int| is_first_occurrence(s, p, k),
    decreases i,
{
    if !is_first_occurrence(s, p, i) {
        let j = choose|j: int| 0 <= j < i && occurs_at(s, p, j);
        lemma_first_occurrence_exists(s, p, j);
    }
}

/// `find` gives the first occurrence, when there is one.
pub proof fn lemma_find(s: Seq<char>, p: Seq<char>)
    ensures
        find(s, p) matches Some(k) ==> is_first_occurrence(s, p, k),
        find(s, p) is None ==> forall|j: int| !occurs_at(s, p, j),
{
    if contains(s, p) {
        let i = choose|i: int| occurs_at(s, p, i);
        lemma_first_occurrence_exists(s, p, i);
    }
}

pub proof fn lemma_find_unique(s: Seq<char>, p: Seq<char>, i: int)
    requires
        is_first_occurrence(s, p, i),
    ensures
        find(s, p) == Some(i),
{
    lemma_find(s, p);
    let k = find(s, p)->0;
    if k < i {
        assert(!occurs_at(s, p, k));
    }
    if i < k {
        assert(occurs_at(s, p, i));
    }
}

/// `char::to_ascii_lowercase`.
pub open spec fn ascii_lower(c: char) -> char {
    if 'A' <= c <= 'Z' {
        ((c as u32) + 32) as char
    } else {
        c
    }
}

// ---------------------------------------------------------------------------
// Executable operations
// ---------------------------------------------------------------------------

/// Appends one character to a string (`String::push`).
#[verifier::external_body]
pub(crate) fn push_char(s: &mut String, c: char)
    ensures
        final(s)@ == old(s)@.push(c),
{
    s.push(c);
}

/// The characters of a string slice, in order.
pub fn chars_of(s: &str) -> (v: Vec<char>)
    ensures
        v@ == s@,
{
    let mut v: Vec<char> = Vec::new();
    for c in it: s.chars()
        invariant
            it.seq() == s@,
            v@ == s@.take(it.index() as int),
    {
        v.push(c);
    }
    v
}

/// The string made of the given characters.
pub fn string_of(v: &Vec<char>) -> (s: String)
    ensures
        s@ == v@,
{
    let mut s = String::new();
    for i in 0..v.len()
        invariant
            s@ == v@.take(i as int),
    {
        push_char(&mut s, v[i]);
        assert(v@.take(i + 1) =~= v@.take(i as int).push(v@[i as int]));
    }
    assert(v@.take(v.len() as int) =~= v@);
    s
}

/// A copy of `v[from..to]`.
pub fn slice_of(v: &Vec<char>, from: usize, to: usize) -> (r: Vec<char>)
    requires
        from <= to <= v.len(),
    ensures
        r@ == v@.subrange(from as int, to as int),
{
    let mut r: Vec<char> = Vec::new();
    let mut i = from;
    while i < to
        invariant
            from <= i <= to <= v.len(),
            r@ == v@.subrange(from as int, i as int),
        decreases to - i,
    {
        r.push(v[i]);
        i += 1;
        assert(r@ =~= v@.subrange(from as int, i as int));
    }
    r
}

/// Whether two character vectors are equal.
pub fn eq_chars(a: &Vec<char>, b: &Vec<char>) -> (r: bool)
    ensures
        r == (a@ == b@),
{
    if a.len() != b.len() {
        return false;
    }
    for i in 0..a.len()
        invariant
            a.len() == b.len(),
            forall|j: int| 0 <= j < i ==> a@[j] == b@[j],
    {
        if a[i] != b[i] {
            return false;
        }
    }
    assert(a@ =~= b@);
    true
}

/// Whether `v` equals the given literal.
pub fn same_as(v: &Vec<char>, lit: &str) -> (r: bool)
    ensures
        r == (v@ == lit@),
{
    let l = chars_of(lit);
    eq_chars(v, &l)
}

/// Whether a character is white space.
pub fn is_ws_char(c: char) -> (r: bool)
    ensures
        r == is_ws(c),
{
    let u = c as u32;
    (0x9 <= u && u <= 0xd) || u == 0x20 || u == 0x85 || u == 0xa0 || u == 0x1680 || (0x2000 <= u
        && u <= 0x200a) || u == 0x2028 || u == 0x2029 || u == 0x202f || u == 0x205f || u == 0x3000
}

/// Whether a character is an ASCII digit.
pub fn is_digit_char(c: char) -> (r: bool)
    ensures
        r == is_digit(c),
{
    '0' <= c && c <= '9'
}

/// `str::trim`.
pub fn trim_v(v: &Vec<char>) -> (r: Vec<char>)
    ensures
        r@ == trim(v@),
{
    let mut a: usize = 0;
    while a < v.len() && is_ws_char(v[a])
        invariant
            a <= v.len(),
            forall|j: int| 0 <= j < a ==> is_ws(#[trigger] v@[j]),
        decreases v.len() - a,
    {
        a += 1;
    }
    proof {
        lemma_trim_start_skip(v@, ws_pred(), a as int);
    }
    let mut b: usize = v.len();
    while b > a && is_ws_char(v[b - 1])
        invariant
            a <= b <= v.len(),
            forall|j: int| b <= j < v.len() ==> is_ws(#[trigger] v@[j]),
        decreases b,
    {
        b -= 1;
    }
    let ghost t = v@.skip(a as int);
    proof {
        assert(t.len() == 0 || !is_ws(t[0]));
        assert(trim_start_by(t, ws_pred()) == t);
        lemma_trim_end_take(t, ws_pred(), b - a);
        assert(t.take(b - a) =~= v@.subrange(a as int, b as int));
        let u = v@.subrange(a as int, b as int);
        assert(u.len() == 0 || !is_ws(u.last()));
    }
    slice_of(v, a, b)
}

/// Whether `p` occurs in `v` at index `i`.
pub fn occurs_at_v(v: &Vec<char>, p: &Vec<char>, i: usize) -> (r: bool)
    ensures
        r == occurs_at(v@, p@, i as int),
{
    if i > v.len() || p.len() > v.len() - i {
        return false;
    }
    for k in 0..p.len()
        invariant
            i + p.len() <= v.len(),
            forall|j: int| 0 <= j < k ==> v@[i + j] == p@[j],
    {
        if v[i + k] != p[k] {
            assert(v@.subrange(i as int, i + p.len())[k as int] != p@[k as int]);
            return false;
        }
    }
    assert(v@.subrange(i as int, i + p.len()) =~= p@);
    true
}

/// Whether `v` starts with `p`.
pub fn starts_with_v(v: &Vec<char>, p: &Vec<char>) -> (r: bool)
    ensures
        r == starts_with(v@, p@),
{
    let r = occurs_at_v(v, p, 0);
    proof {
        if p@.len() <= v@.len() {
            assert(v@.take(p@.len() as int) =~= v@.subrange(0, p@.len() as int));
        }
    }
    r
}

/// Whether `v` starts with the literal `lit`.
pub fn starts_with_lit(v: &Vec<char>, lit: &str) -> (r: bool)
    ensures
        r == starts_with(v@, lit@),
{
    let p = chars_of(lit);
    starts_with_v(v, &p)
}

/// Whether `v` ends with `p`.
pub fn ends_with_v(v: &Vec<char>, p: &Vec<char>) -> (r: bool)
    ensures
        r == ends_with(v@, p@),
{
    if p.len() > v.len() {
        return false;
    }
    let r = occurs_at_v(v, p, v.len() - p.len());
    proof {
        assert(v@.skip(v@.len() - p@.len()) =~= v@.subrange(
            v@.len() - p@.len(),
            v@.len() as int,
        ));
    }
    r
}

/// Whether `v` ends with the literal `lit`.
pub fn ends_with_lit(v: &Vec<char>, lit: &str) -> (r: bool)
    ensures
        r == ends_with(v@, lit@),
{
    let p = chars_of(lit);
    ends_with_v(v, &p)
}

/// `str::find`.
pub fn find_v(v: &Vec<char>, p: &Vec<char>) -> (r: Option<usize>)
    ensures
        r matches Some(i) ==> find(v@, p@) == Some(i as int),
        r is None ==> find(v@, p@) is None,
{
    if p.len() > v.len() {
        proof {
            assert forall|j: int| !occurs_at(v@, p@, j) by {}
        }
        return None;
    }
    if p.len() == 0 {
        proof {
            assert(v@.subrange(0, 0) =~= p@);
            lemma_find_unique(v@, p@, 0);
        }
        return Some(0);
    }
    let last = v.len() - p.len();
    let mut i: usize = 0;
    while i <= last
        invariant
            last == v.len() - p.len(),
            p.len() > 0,
            forall|j: int| 0 <= j < i ==> !#[trigger] occurs_at(v@, p@, j),
        decreases last + 1 - i,
    {
        if occurs_at_v(v, p, i) {
            proof {
                lemma_find_unique(v@, p@, i as int);
            }
            return Some(i);
        }
        i += 1;
    }
    proof {
        assert forall|j: int| !occurs_at(v@, p@, j) by {
            if 0 <= j < i {
            }
        }
    }
    None
}

/// The index of the first occurrence of the literal `lit` in `v`.
pub fn find_lit(v: &Vec<char>, lit: &str) -> (r: Option<usize>)
    ensures
        r matches Some(i) ==> find(v@, lit@) == Some(i as int),
        r is None ==> find(v@, lit@) is None,
{
    let p = chars_of(lit);
    find_v(v, &p)
}

/// Whether `p` occurs in `v`.
pub fn contains_v(v: &Vec<char>, p: &Vec<char>) -> (r: bool)
    ensures
        r == contains(v@, p@),
{
    let f = find_v(v, p);
    proof {
        lemma_find(v@, p@);
    }
    f.is_some()
}

/// Whether the literal `lit` occurs in `v`.
pub fn contains_lit(v: &Vec<char>, lit: &str) -> (r: bool)
    ensures
        r == contains(v@, lit@),
{
    let p = chars_of(lit);
    contains_v(v, &p)
}

/// Whether `c` occurs in `v`.
pub fn contains_char_v(v: &Vec<char>, c: char) -> (r: bool)
    ensures
        r == v@.contains(c),
{
    for i in 0..v.len()
        invariant
            forall|j: int| 0 <= j < i ==> v@[j] != c,
    {
        if v[i] == c {
            return true;
        }
    }
    false
}

/// `trim_start_matches` with a single character.
pub fn trim_start_char(v: &Vec<char>, c: char) -> (r: Vec<char>)
    ensures
        r@ == trim_start_by(v@, char_pred(c)),
{
    let mut a: usize = 0;
    while a < v.len() && v[a] == c
        invariant
            a <= v.len(),
            forall|j: int| 0 <= j < a ==> (#[trigger] v@[j]) == c,
        decreases v.len() - a,
    {
        a += 1;
    }
    proof {
        lemma_trim_start_skip(v@, char_pred(c), a as int);
        assert(v@.skip(a as int) =~= v@.subrange(a as int, v@.len() as int));
    }
    slice_of(v, a, v.len())
}

/// `trim_end_matches` with a single character.
pub fn trim_end_char(v: &Vec<char>, c: char) -> (r: Vec<char>)
    ensures
        r@ == trim_end_by(v@, char_pred(c)),
{
    let mut b: usize = v.len();
    while b > 0 && v[b - 1] == c
        invariant
            b <= v.len(),
            forall|j: int| b <= j < v.len() ==> (#[trigger] v@[j]) == c,
        decreases b,
    {
        b -= 1;
    }
    proof {
        lemma_trim_end_take(v@, char_pred(c), b as int);
        assert(v@.take(b as int) =~= v@.subrange(0, b as int));
    }
    slice_of(v, 0, b)
}

/// `trim_end_matches` with a string pattern.
pub fn trim_end_lit(v: &Vec<char>, lit: &str) -> (r: Vec<char>)
    ensures
        r@ == trim_end_str(v@, lit@),
{
    let p = chars_of(lit);
    let mut cur = slice_of(v, 0, v.len());
    assert(cur@ =~= v@);
    if p.len() == 0 {
        return cur;
    }
    while ends_with_v(&cur, &p)
        invariant
            p@ == lit@,
            p.len() > 0,
            trim_end_str(cur@, p@) == trim_end_str(v@, p@),
        decreases cur.len(),
    {
        cur = slice_of(&cur, 0, cur.len() - p.len());
    }
    cur
}

/// The views of a sequence of character vectors.
pub open spec fn views(r: Seq<Vec<char>>) -> Seq<Seq<char>> {
    r.map_values(|x: Vec<char>| x@)
}

/// `str::lines`.
pub fn split_lines(v: &Vec<char>) -> (r: Vec<Vec<char>>)
    ensures
        views(r@) == lines(v@),
{
    let mut r: Vec<Vec<char>> = Vec::new();
    let mut cur: Vec<char> = Vec::new();
    assert(views(r@) =~= seq![]);
    assert(v@.skip(0) =~= v@);
    assert(cur@ =~= seq![]);
    for i in 0..v.len()
        invariant
            views(r@) + lines_from(v@.skip(i as int), cur@) == lines(v@),
    {
        let ghost rest = v@.skip(i as int);
        assert(rest.drop_first() =~= v@.skip(i + 1));
        if v[i] == '\n' {
            let n = cur.len();
            let piece = if n > 0 && cur[n - 1] == '\r' {
                slice_of(&cur, 0, n - 1)
            } else {
                slice_of(&cur, 0, n)
            };
            assert(piece@ =~= strip_cr(cur@));
            let ghost old_r = views(r@);
            r.push(piece);
            assert(views(r@) =~= old_r.push(strip_cr(cur@)));
            assert(old_r + lines_from(rest, cur@) =~= views(r@) + lines_from(
                v@.skip(i + 1),
                seq![],
            ));
            cur = Vec::new();
        } else {
            cur.push(v[i]);
        }
    }
    assert(v@.skip(v.len() as int) =~= seq![]);
    if cur.len() > 0 {
        let ghost old_r = views(r@);
        r.push(cur);
        assert(views(r@) =~= old_r + lines_from(seq![], cur@));
    } else {
        assert(views(r@) =~= views(r@) + lines_from(seq![], cur@));
    }
    r
}

/// `str::split_whitespace`.
pub fn split_words(v: &Vec<char>) -> (r: Vec<Vec<char>>)
    ensures
        views(r@) == words(v@),
{
    let mut r: Vec<Vec<char>> = Vec::new();
    let mut cur: Vec<char> = Vec::new();
    assert(views(r@) =~= seq![]);
    assert(v@.skip(0) =~= v@);
    assert(cur@ =~= seq![]);
    for i in 0..v.len()
        invariant
            views(r@) + words_from(v@.skip(i as int), cur@) == words(v@),
    {
        let ghost rest = v@.skip(i as int);
        assert(rest.drop_first() =~= v@.skip(i + 1));
        if is_ws_char(v[i]) {
            let ghost old_r = views(r@);
            if cur.len() > 0 {
                r.push(cur);
                assert(views(r@) =~= old_r + seq![cur@]);
            }
            assert(old_r + words_from(rest, cur@) =~= views(r@) + words_from(
                v@.skip(i + 1),
                seq![],
            ));
            cur = Vec::new();
        } else {
            cur.push(v[i]);
        }
    }
    assert(v@.skip(v.len() as int) =~= seq![]);
    if cur.len() > 0 {
        let ghost old_r = views(r@);
        r.push(cur);
        assert(views(r@) =~= old_r + words_from(seq![], cur@));
    } else {
        assert(views(r@) =~= views(r@) + words_from(seq![], cur@));
    }
    r
}

/// `str::split` at a character.
pub fn split_char(v: &Vec<char>, sep: char) -> (r: Vec<Vec<char>>)
    ensures
        views(r@) == split_at_char(v@, sep),
{
    let mut r: Vec<Vec<char>> = Vec::new();
    let mut cur: Vec<char> = Vec::new();
    assert(views(r@) =~= seq![]);
    assert(v@.skip(0) =~= v@);
    assert(cur@ =~= seq![]);
    for i in 0..v.len()
        invariant
            views(r@) + pieces_from(v@.skip(i as int), sep, cur@) == split_at_char(v@, sep),
    {
        let ghost rest = v@.skip(i as int);
        assert(rest.drop_first() =~= v@.skip(i + 1));
        if v[i] == sep {
            let ghost old_r = views(r@);
            r.push(cur);
            assert(views(r@) =~= old_r.push(cur@));
            assert(old_r + pieces_from(rest, sep, cur@) =~= views(r@) + pieces_from(
                v@.skip(i + 1),
                sep,
                seq![],
            ));
            cur = Vec::new();
        } else {
            cur.push(v[i]);
        }
    }
    assert(v@.skip(v.len() as int) =~= seq![]);
    let ghost old_r = views(r@);
    r.push(cur);
    assert(views(r@) =~= old_r + pieces_from(seq![], sep, cur@));
    r
}

/// `parts[from..to].join(sep)`.
pub fn join_range(parts: &Vec<Vec<char>>, from: usize, to: usize, sep: &str) -> (r: Vec<char>)
    requires
        from <= to <= parts.len(),
    ensures
        r@ == join(views(parts@).subrange(from as int, to as int), sep@),
{
    let ghost ps = views(parts@);
    let sp = chars_of(sep);
    let mut r: Vec<char> = Vec::new();
    let mut i = from;
    assert(ps.subrange(from as int, from as int) =~= seq![]);
    while i < to
        invariant
            from <= i <= to <= parts.len(),
            ps == views(parts@),
            sp@ == sep@,
            r@ == join(ps.subrange(from as int, i as int), sep@),
        decreases to - i,
    {
        let ghost before = r@;
        assert(ps.subrange(from as int, i + 1).drop_last() =~= ps.subrange(from as int, i as int));
        if i > from {
            for k in 0..sp.len()
                invariant
                    r@ == before + sp@.take(k as int),
            {
                r.push(sp[k]);
                assert(r@ =~= before + sp@.take(k + 1));
            }
            assert(sp@.take(sp.len() as int) =~= sp@);
        } else {
            assert(before =~= seq![]);
        }
        let ghost mid = r@;
        let p = &parts[i];
        for k in 0..p.len()
            invariant
                r@ == mid + p@.take(k as int),
        {
            r.push(p[k]);
            assert(r@ =~= mid + p@.take(k + 1));
        }
        assert(p@.take(p.len() as int) =~= p@);
        assert(ps.subrange(from as int, i + 1).last() == p@);
        i += 1;
    }
    r
}

/// `char::to_ascii_lowercase`.
pub fn lower(c: char) -> (r: char)
    ensures
        r == ascii_lower(c),
{
    if 'A' <= c && c <= 'Z' {
        ((c as u8) + 32) as char
    } else {
        c
    }
}

} // verus!
