//! Character-level scanning primitives shared by the request parser, the
//! configuration checks and the response builders.  Specifications are stated
//! over `Seq<char>` views; the executable functions mirror them.
use vstd::prelude::*;

verus! {

// ---------------------------------------------------------------------------
// Character classes
// ---------------------------------------------------------------------------
pub open spec fn is_ws_char(c: char) -> bool {
    c == ' ' || c == '\t' || c == '\r' || c == '\n'
}

pub open spec fn is_digit_char(c: char) -> bool {
    '0' <= c && c <= '9'
}

pub open spec fn is_alpha_char(c: char) -> bool {
    ('a' <= c && c <= 'z') || ('A' <= c && c <= 'Z')
}

/// The characters a multipart boundary token may contain.
pub open spec fn is_token_char(c: char) -> bool {
    c == '-' || c == '_' || is_digit_char(c) || is_alpha_char(c)
}

pub open spec fn is_upper_char(c: char) -> bool {
    'A' <= c && c <= 'Z'
}

// Named predicate constructors: using one definition site for each closure
// keeps the prover's view of them equal across specifications and proofs.
pub open spec fn ws_p() -> spec_fn(char) -> bool {
    |c: char| is_ws_char(c)
}

pub open spec fn non_ws_p() -> spec_fn(char) -> bool {
    |c: char| !is_ws_char(c)
}

pub open spec fn digit_p() -> spec_fn(char) -> bool {
    |c: char| is_digit_char(c)
}

pub open spec fn token_p() -> spec_fn(char) -> bool {
    |c: char| is_token_char(c)
}

pub open spec fn eq_p(c: char) -> spec_fn(char) -> bool {
    |x: char| x == c
}

pub open spec fn neq_p(c: char) -> spec_fn(char) -> bool {
    |x: char| x != c
}

// ---------------------------------------------------------------------------
// Substring occurrence
// ---------------------------------------------------------------------------
/// `pat` occurs in `s` at index `i`.
pub open spec fn occurs_at(s: Seq<char>, pat: Seq<char>, i: int) -> bool {
    0 <= i && i + pat.len() <= s.len() && s.subrange(i, i + pat.len()) == pat
}

pub open spec fn contains_seq(s: Seq<char>, pat: Seq<char>) -> bool {
    exists|i: int| occurs_at(s, pat, i)
}

/// `pat` occurs at `i` and nowhere earlier.
pub open spec fn first_occurrence(s: Seq<char>, pat: Seq<char>, i: int) -> bool {
    occurs_at(s, pat, i) && forall|j: int| 0 <= j < i ==> !occurs_at(s, pat, j)
}

// ---------------------------------------------------------------------------
// Runs: the end of the maximal run of characters satisfying `p` from `i`
// ---------------------------------------------------------------------------
pub open spec fn run_end(s: Seq<char>, i: int, p: spec_fn(char) -> bool) -> int
    recommends
        0 <= i <= s.len(),
    decreases s.len() - i, 0int,
        when 0 <= i <= s.len()
{
    if i >= s.len() {
        s.len() as int
    } else if p(s[i]) {
        run_end(s, i + 1, p)
    } else {
        i
    }
}

pub proof fn lemma_run_end(s: Seq<char>, i: int, p: spec_fn(char) -> bool)
    requires
        0 <= i <= s.len(),
    ensures
        i <= run_end(s, i, p) <= s.len(),
        forall|k: int| i <= k < run_end(s, i, p) ==> p(s[k]),
        run_end(s, i, p) < s.len() ==> !p(s[run_end(s, i, p)]),
    decreases s.len() - i,
{
    if i < s.len() && p(s[i]) {
        lemma_run_end(s, i + 1, p);
    }
}

/// A run is unaffected by what comes before its start: computing it on a
/// shifted subrange gives the shifted result.
pub proof fn lemma_run_end_shift(s: Seq<char>, off: int, i: int, p: spec_fn(char) -> bool)
    requires
        0 <= off <= s.len(),
        off <= i <= s.len(),
    ensures
        run_end(s.subrange(off, s.len() as int), i - off, p) == run_end(s, i, p) - off,
    decreases s.len() - i,
{
    let t = s.subrange(off, s.len() as int);
    if i < s.len() {
        assert(t[i - off] == s[i]);
        if p(s[i]) {
            lemma_run_end_shift(s, off, i + 1, p);
        }
    }
}

/// The start of the maximal run of characters satisfying `p` ending at `j`
/// (scanning leftwards).
pub open spec fn rev_run_start(s: Seq<char>, j: int, p: spec_fn(char) -> bool) -> int
    recommends
        0 <= j <= s.len(),
    decreases j, 0int,
        when 0 <= j <= s.len()
{
    if j <= 0 {
        0
    } else if p(s[j - 1]) {
        rev_run_start(s, j - 1, p)
    } else {
        j
    }
}

pub proof fn lemma_rev_run_start(s: Seq<char>, j: int, p: spec_fn(char) -> bool)
    requires
        0 <= j <= s.len(),
    ensures
        0 <= rev_run_start(s, j, p) <= j,
        forall|k: int| rev_run_start(s, j, p) <= k < j ==> p(s[k]),
        rev_run_start(s, j, p) > 0 ==> !p(s[rev_run_start(s, j, p) - 1]),
    decreases j,
{
    if j > 0 && p(s[j - 1]) {
        lemma_rev_run_start(s, j - 1, p);
    }
}

// ---------------------------------------------------------------------------
// Executable scanners
// ---------------------------------------------------------------------------
/// Character-for-character equality of two string slices.
pub fn str_eq(a: &str, b: &str) -> (r: bool)
    ensures
        r == (a@ == b@),
{
    let na = a.unicode_len();
    let nb = b.unicode_len();
    if na != nb {
        return false;
    }
    let mut i: usize = 0;
    while i < na
        invariant
            0 <= i <= na,
            na == a@.len(),
            na == b@.len(),
            forall|j: int| 0 <= j < i ==> a@[j] == b@[j],
        decreases na - i,
    {
        if a.get_char(i) != b.get_char(i) {
            return false;
        }
        i = i + 1;
    }
    proof {
        assert(a@ =~= b@);
    }
    true
}


pub fn ws_char(c: char) -> (r: bool)
    ensures
        r == is_ws_char(c),
{
    c == ' ' || c == '\t' || c == '\r' || c == '\n'
}

pub fn digit_char(c: char) -> (r: bool)
    ensures
        r == is_digit_char(c),
{
    '0' <= c && c <= '9'
}

pub fn token_char(c: char) -> (r: bool)
    ensures
        r == is_token_char(c),
{
    c == '-' || c == '_' || ('0' <= c && c <= '9') || ('a' <= c && c <= 'z') || ('A' <= c
        && c <= 'Z')
}

/// Does `pat` occur in `s` at position `i`?
pub fn matches_at(s: &str, pat: &str, i: usize) -> (r: bool)
    requires
        i + pat@.len() <= s@.len(),
    ensures
        r == occurs_at(s@, pat@, i as int),
{
    let n = s.unicode_len();
    let m = pat.unicode_len();
    let mut k: usize = 0;
    while k < m
        invariant
            0 <= k <= m,
            m == pat@.len(),
            n == s@.len(),
            i + m <= n,
            forall|j: int| 0 <= j < k ==> s@[i + j] == pat@[j],
        decreases m - k,
    {
        if s.get_char(i + k) != pat.get_char(k) {
            proof {
                assert(s@.subrange(i as int, i + pat@.len())[k as int] == s@[i + k]);
            }
            return false;
        }
        k = k + 1;
    }
    proof {
        assert(s@.subrange(i as int, i + pat@.len()) =~= pat@);
    }
    true
}

/// Index of the first occurrence of `pat` in `s`.
pub fn find_str(s: &str, pat: &str) -> (r: Option<usize>)
    ensures
        match r {
            Some(i) => first_occurrence(s@, pat@, i as int),
            None => forall|j: int| !occurs_at(s@, pat@, j),
        },
{
    let n = s.unicode_len();
    let m = pat.unicode_len();
    if m > n {
        return None;
    }
    if m == 0 {
        proof {
            assert(s@.subrange(0, 0) =~= pat@);
        }
        return Some(0);
    }
    let mut i: usize = 0;
    while i <= n - m
        invariant
            m <= n,
            n == s@.len(),
            m == pat@.len(),
            1 <= m,
            0 <= i <= n - m + 1,
            forall|j: int| 0 <= j < i ==> !occurs_at(s@, pat@, j),
        decreases n - m + 1 - i,
    {
        if matches_at(s, pat, i) {
            return Some(i);
        }
        i = i + 1;
    }
    None
}

pub fn contains_str(s: &str, pat: &str) -> (r: bool)
    ensures
        r == contains_seq(s@, pat@),
{
    match find_str(s, pat) {
        Some(_) => true,
        None => false,
    }
}

/// Does `s` start with `pat`?
pub fn starts_with_str(s: &str, pat: &str) -> (r: bool)
    ensures
        r == (pat@.len() <= s@.len() && s@.subrange(0, pat@.len() as int) == pat@),
        r == occurs_at(s@, pat@, 0),
{
    let n = s.unicode_len();
    let m = pat.unicode_len();
    if m > n {
        return false;
    }
    matches_at(s, pat, 0)
}

/// End of the run of whitespace characters starting at `i`.
#[verifier::loop_isolation(false)]
pub fn scan_ws(s: &str, i: usize) -> (r: usize)
    requires
        i <= s@.len(),
    ensures
        r == run_end(s@, i as int, ws_p()),
{
    let ghost p = ws_p();
    let n = s.unicode_len();
    let mut j: usize = i;
    while j < n && ws_char(s.get_char(j))
        invariant
            i <= j <= n,
            n == s@.len(),
            run_end(s@, i as int, p) == run_end(s@, j as int, p),
        decreases n - j,
    {
        j = j + 1;
    }
    j
}

/// End of the run of non-whitespace characters starting at `i`.
#[verifier::loop_isolation(false)]
pub fn scan_non_ws(s: &str, i: usize) -> (r: usize)
    requires
        i <= s@.len(),
    ensures
        r == run_end(s@, i as int, non_ws_p()),
{
    let ghost p = non_ws_p();
    let n = s.unicode_len();
    let mut j: usize = i;
    while j < n && !ws_char(s.get_char(j))
        invariant
            i <= j <= n,
            n == s@.len(),
            run_end(s@, i as int, p) == run_end(s@, j as int, p),
        decreases n - j,
    {
        j = j + 1;
    }
    j
}

/// End of the run of decimal digits starting at `i`.
#[verifier::loop_isolation(false)]
pub fn scan_digits(s: &str, i: usize) -> (r: usize)
    requires
        i <= s@.len(),
    ensures
        r == run_end(s@, i as int, digit_p()),
{
    let ghost p = digit_p();
    let n = s.unicode_len();
    let mut j: usize = i;
    while j < n && digit_char(s.get_char(j))
        invariant
            i <= j <= n,
            n == s@.len(),
            run_end(s@, i as int, p) == run_end(s@, j as int, p),
        decreases n - j,
    {
        j = j + 1;
    }
    j
}

/// End of the run of boundary-token characters starting at `i`.
#[verifier::loop_isolation(false)]
pub fn scan_token(s: &str, i: usize) -> (r: usize)
    requires
        i <= s@.len(),
    ensures
        r == run_end(s@, i as int, token_p()),
{
    let ghost p = token_p();
    let n = s.unicode_len();
    let mut j: usize = i;
    while j < n && token_char(s.get_char(j))
        invariant
            i <= j <= n,
            n == s@.len(),
            run_end(s@, i as int, p) == run_end(s@, j as int, p),
        decreases n - j,
    {
        j = j + 1;
    }
    j
}

/// End of the run of characters different from `c` starting at `i`.
#[verifier::loop_isolation(false)]
pub fn scan_until_char(s: &str, i: usize, c: char) -> (r: usize)
    requires
        i <= s@.len(),
    ensures
        r == run_end(s@, i as int, neq_p(c)),
        i <= r <= s@.len(),
        forall|k: int| i <= k < r ==> s@[k] != c,
        r < s@.len() ==> s@[r as int] == c,
{
    let ghost p = neq_p(c);
    let n = s.unicode_len();
    let mut j: usize = i;
    while j < n && s.get_char(j) != c
        invariant
            i <= j <= n,
            n == s@.len(),
            run_end(s@, i as int, p) == run_end(s@, j as int, p),
        decreases n - j,
    {
        j = j + 1;
    }
    proof {
        lemma_run_end(s@, i as int, p);
    }
    j
}


// ---------------------------------------------------------------------------
// Substrings, trimming, stripping
// ---------------------------------------------------------------------------
/// An owned copy of `s[from..to]` (in characters).
pub fn substr(s: &str, from: usize, to: usize) -> (r: String)
    requires
        from <= to <= s@.len(),
    ensures
        r@ == s@.subrange(from as int, to as int),
{
    s.substring_char(from, to).to_owned()
}

/// `s` with leading and trailing whitespace removed.
pub open spec fn trim_spec(s: Seq<char>) -> Seq<char> {
    let a = run_end(s, 0, ws_p());
    let b = rev_run_start(s, s.len() as int, ws_p());
    if a >= s.len() {
        Seq::<char>::empty()
    } else {
        s.subrange(a, b)
    }
}

#[verifier::loop_isolation(false)]
pub fn trim_str(s: &str) -> (r: String)
    ensures
        r@ == trim_spec(s@),
{
    let ghost p = ws_p();
    let n = s.unicode_len();
    let a = scan_ws(s, 0);
    if a == n {
        return String::new();
    }
    proof {
        lemma_run_end(s@, 0, p);
    }
    let mut b: usize = n;
    while b > 0 && ws_char(s.get_char(b - 1))
        invariant
            0 <= b <= n,
            rev_run_start(s@, n as int, p) == rev_run_start(s@, b as int, p),
        decreases b,
    {
        b = b - 1;
    }
    proof {
        lemma_rev_run_start(s@, n as int, p);
        if b <= a {
            assert(is_ws_char(s@[a as int]));
        }
    }
    substr(s, a, b)
}

/// `s` with every leading and trailing occurrence of `c` removed.
pub open spec fn strip_char_spec(s: Seq<char>, c: char) -> Seq<char> {
    let a = run_end(s, 0, eq_p(c));
    let b = rev_run_start(s, s.len() as int, eq_p(c));
    if a >= s.len() {
        Seq::<char>::empty()
    } else {
        s.subrange(a, b)
    }
}

#[verifier::loop_isolation(false)]
pub fn strip_char_str(s: &str, c: char) -> (r: String)
    ensures
        r@ == strip_char_spec(s@, c),
{
    let ghost p = eq_p(c);
    let n = s.unicode_len();
    let mut a: usize = 0;
    while a < n && s.get_char(a) == c
        invariant
            0 <= a <= n,
            run_end(s@, 0, p) == run_end(s@, a as int, p),
        decreases n - a,
    {
        a = a + 1;
    }
    if a == n {
        return String::new();
    }
    proof {
        lemma_run_end(s@, 0, p);
    }
    let mut b: usize = n;
    while b > 0 && s.get_char(b - 1) == c
        invariant
            0 <= b <= n,
            rev_run_start(s@, n as int, p) == rev_run_start(s@, b as int, p),
        decreases b,
    {
        b = b - 1;
    }
    proof {
        lemma_rev_run_start(s@, n as int, p);
        if b <= a {
            assert(s@[a as int] == c);
        }
    }
    substr(s, a, b)
}

// ---------------------------------------------------------------------------
// Splitting
// ---------------------------------------------------------------------------
/// The pieces of `s` between occurrences of `c` (empty pieces kept, as with
/// std's `split`).
pub open spec fn split_char_spec(s: Seq<char>, c: char) -> Seq<Seq<char>>
    decreases s.len(),
{
    let e = run_end(s, 0, neq_p(c));
    if 0 <= e < s.len() {
        seq![s.subrange(0, e)] + split_char_spec(s.subrange(e + 1, s.len() as int), c)
    } else {
        seq![s]
    }
}

#[verifier::loop_isolation(false)]
pub fn split_char(s: &str, c: char) -> (r: Vec<String>)
    ensures
        r.deep_view() == split_char_spec(s@, c),
{
    let n = s.unicode_len();
    let mut out: Vec<String> = Vec::new();
    let mut pos: usize = 0;
    proof {
        assert(s@.subrange(0, n as int) =~= s@);
        assert(out.deep_view() =~= Seq::<Seq<char>>::empty());
        assert(out.deep_view() + split_char_spec(s@, c) =~= split_char_spec(s@, c));
    }
    loop
        invariant
            0 <= pos <= n,
            split_char_spec(s@, c) == out.deep_view() + split_char_spec(
                s@.subrange(pos as int, n as int),
                c,
            ),
        decreases n - pos,
    {
        let ghost rem = s@.subrange(pos as int, n as int);
        let e = scan_until_char(s, pos, c);
        proof {
            lemma_run_end_shift(s@, pos as int, pos as int, neq_p(c));
            assert(run_end(rem, 0, neq_p(c)) == e - pos);
        }
        let piece = substr(s, pos, e);
        out.push(piece);
        if e == n {
            proof {
                assert(split_char_spec(rem, c) =~= seq![rem]);
                assert(out.deep_view() =~= split_char_spec(s@, c));
            }
            return out;
        }
        proof {
            assert(rem.subrange(0, e - pos) =~= s@.subrange(pos as int, e as int));
            assert(rem.subrange(e - pos + 1, rem.len() as int) =~= s@.subrange(
                e + 1,
                n as int,
            ));
            assert(out.deep_view() + split_char_spec(s@.subrange(e + 1, n as int), c)
                =~= split_char_spec(s@, c));
        }
        pos = e + 1;
    }
}

/// `s` without one trailing carriage return, if it has one.
pub open spec fn strip_tail_cr(s: Seq<char>) -> Seq<char> {
    if s.len() > 0 && s[s.len() - 1] == '\r' {
        s.drop_last()
    } else {
        s
    }
}

pub fn strip_tail_cr_str(s: &str) -> (r: String)
    ensures
        r@ == strip_tail_cr(s@),
{
    let n = s.unicode_len();
    if n > 0 && s.get_char(n - 1) == '\r' {
        proof {
            assert(s@.subrange(0, n - 1) =~= s@.drop_last());
        }
        substr(s, 0, n - 1)
    } else {
        s.to_owned()
    }
}

/// The lines of `s`: pieces between newline characters, each without a
/// trailing carriage return, with no piece after a final newline (as with
/// std's `lines`).
pub open spec fn lines_spec(s: Seq<char>) -> Seq<Seq<char>>
    decreases s.len(),
{
    if s.len() == 0 {
        Seq::<Seq<char>>::empty()
    } else {
        let e = run_end(s, 0, neq_p('\n'));
        if 0 <= e < s.len() {
            seq![strip_tail_cr(s.subrange(0, e))] + lines_spec(
                s.subrange(e + 1, s.len() as int),
            )
        } else {
            seq![strip_tail_cr(s)]
        }
    }
}

#[verifier::loop_isolation(false)]
pub fn split_lines(s: &str) -> (r: Vec<String>)
    ensures
        r.deep_view() == lines_spec(s@),
{
    let n = s.unicode_len();
    let mut out: Vec<String> = Vec::new();
    let mut pos: usize = 0;
    if n == 0 {
        proof {
            assert(out.deep_view() =~= lines_spec(s@));
        }
        return out;
    }
    proof {
        assert(s@.subrange(0, n as int) =~= s@);
        assert(out.deep_view() =~= Seq::<Seq<char>>::empty());
        assert(out.deep_view() + lines_spec(s@) =~= lines_spec(s@));
    }
    loop
        invariant
            0 <= pos < n,
            n == s@.len(),
            lines_spec(s@) == out.deep_view() + lines_spec(s@.subrange(pos as int, n as int)),
        decreases n - pos,
    {
        let ghost rem = s@.subrange(pos as int, n as int);
        let e = scan_until_char(s, pos, '\n');
        proof {
            lemma_run_end_shift(s@, pos as int, pos as int, neq_p('\n'));
            assert(run_end(rem, 0, neq_p('\n')) == e - pos);
            assert(rem.subrange(0, e - pos) =~= s@.subrange(pos as int, e as int));
        }
        let piece = substr(s, pos, e);
        let line = strip_tail_cr_str(piece.as_str());
        out.push(line);
        if e == n {
            proof {
                assert(lines_spec(rem) =~= seq![strip_tail_cr(rem)]);
                assert(rem =~= s@.subrange(pos as int, e as int));
                assert(out.deep_view() =~= lines_spec(s@));
            }
            return out;
        }
        if e + 1 == n {
            // the text ends with a newline: no further line follows
            proof {
                assert(rem.subrange(e - pos + 1, rem.len() as int) =~= s@.subrange(
                    e + 1,
                    n as int,
                ));
                assert(lines_spec(s@.subrange(e + 1, n as int)) =~= Seq::<Seq<char>>::empty());
                assert(out.deep_view() =~= lines_spec(s@));
            }
            return out;
        }
        proof {
            assert(rem.subrange(e - pos + 1, rem.len() as int) =~= s@.subrange(
                e + 1,
                n as int,
            ));
            assert(out.deep_view() + lines_spec(s@.subrange(e + 1, n as int)) =~= lines_spec(
                s@,
            ));
        }
        pos = e + 1;
    }
}

// ---------------------------------------------------------------------------
// Tokens
// ---------------------------------------------------------------------------
/// The second whitespace-separated token of `s`, if there is one: for an
/// HTTP request line this is the URL path.
pub open spec fn second_token_spec(s: Seq<char>) -> Option<Seq<char>> {
    let a = run_end(s, 0, ws_p());
    let b = run_end(s, a, non_ws_p());
    let c2 = run_end(s, b, ws_p());
    let d = run_end(s, c2, non_ws_p());
    if c2 < s.len() {
        Some(s.subrange(c2, d))
    } else {
        None
    }
}

pub fn second_token(s: &str) -> (r: Option<String>)
    ensures
        match r {
            Some(t) => second_token_spec(s@) == Some(t@),
            None => second_token_spec(s@) is None,
        },
{
    let n = s.unicode_len();
    let a = scan_ws(s, 0);
    proof {
        lemma_run_end(s@, 0, ws_p());
    }
    let b = scan_non_ws(s, a);
    proof {
        lemma_run_end(s@, a as int, non_ws_p());
    }
    let c2 = scan_ws(s, b);
    proof {
        lemma_run_end(s@, b as int, ws_p());
    }
    if c2 >= n {
        return None;
    }
    let d = scan_non_ws(s, c2);
    proof {
        lemma_run_end(s@, c2 as int, non_ws_p());
    }
    Some(substr(s, c2, d))
}

// ---------------------------------------------------------------------------
// ASCII uppercase
// ---------------------------------------------------------------------------
pub open spec fn upper_char_spec(c: char) -> char {
    if 'a' <= c && c <= 'z' {
        (((c as u8) - 32) as char)
    } else {
        c
    }
}

pub open spec fn to_upper_spec(s: Seq<char>) -> Seq<char> {
    s.map_values(|c: char| upper_char_spec(c))
}

pub fn upper_char(c: char) -> (r: char)
    ensures
        r == upper_char_spec(c),
{
    if 'a' <= c && c <= 'z' {
        ((c as u8) - 32) as char
    } else {
        c
    }
}

/// `s` with ASCII lower-case letters replaced by their upper-case forms.
#[verifier::loop_isolation(false)]
pub fn to_upper_str(s: &str) -> (r: String)
    ensures
        r@ == to_upper_spec(s@),
{
    let n = s.unicode_len();
    let mut out = String::new();
    let mut i: usize = 0;
    while i < n
        invariant
            0 <= i <= n,
            out@ == to_upper_spec(s@.subrange(0, i as int)),
        decreases n - i,
    {
        let c = upper_char(s.get_char(i));
        out.push(c);
        proof {
            assert(s@.subrange(0, i + 1).drop_last() =~= s@.subrange(0, i as int));
            assert(out@ =~= to_upper_spec(s@.subrange(0, i + 1)));
        }
        i = i + 1;
    }
    proof {
        assert(s@.subrange(0, n as int) =~= s@);
    }
    out
}


// ---------------------------------------------------------------------------
// Deterministic first occurrence
// ---------------------------------------------------------------------------
/// Index of the first occurrence of `pat` in `s` at or after `i`.
pub open spec fn find_idx(s: Seq<char>, pat: Seq<char>, i: int) -> Option<int>
    decreases s.len() - i,
        when 0 <= i
{
    if i < 0 || i + pat.len() > s.len() {
        None
    } else if pat.len() == 0 {
        Some(i)
    } else if s.subrange(i, i + pat.len()) == pat {
        Some(i)
    } else {
        find_idx(s, pat, i + 1)
    }
}

/// First occurrence of `pat` in `s`, as `find_idx` gives it.
pub fn find_str_idx(s: &str, pat: &str) -> (r: Option<usize>)
    ensures
        match r {
            Some(i) => find_idx(s@, pat@, 0) == Some(i as int) && i + pat@.len() <= s@.len(),
            None => find_idx(s@, pat@, 0) is None,
        },
{
    let n = s.unicode_len();
    let m = pat.unicode_len();
    if m > n {
        return None;
    }
    if m == 0 {
        return Some(0);
    }
    let mut i: usize = 0;
    while i <= n - m
        invariant
            1 <= m <= n,
            n == s@.len(),
            m == pat@.len(),
            0 <= i <= n - m + 1,
            find_idx(s@, pat@, 0) == find_idx(s@, pat@, i as int),
        decreases n - m + 1 - i,
    {
        if matches_at(s, pat, i) {
            return Some(i);
        }
        i = i + 1;
    }
    None
}


/// An occurrence that `find_idx` reports lies within the text.
pub proof fn lemma_find_idx_bounds(s: Seq<char>, pat: Seq<char>, i: int)
    requires
        0 <= i,
    ensures
        match find_idx(s, pat, i) {
            Some(k) => i <= k && k + pat.len() <= s.len(),
            None => true,
        },
    decreases s.len() - i,
{
    if i + pat.len() <= s.len() && pat.len() != 0 && s.subrange(i, i + pat.len()) != pat {
        lemma_find_idx_bounds(s, pat, i + 1);
    }
}

// ---------------------------------------------------------------------------
// Upper-case run (the request-line method)
// ---------------------------------------------------------------------------
pub open spec fn upper_p() -> spec_fn(char) -> bool {
    |c: char| is_upper_char(c)
}

/// End of the run of upper-case ASCII letters starting at `i`.
pub fn scan_upper(s: &str, i: usize) -> (r: usize)
    requires
        i <= s@.len(),
    ensures
        r == run_end(s@, i as int, upper_p()),
        i <= r <= s@.len(),
{
    let ghost p = upper_p();
    let n = s.unicode_len();
    let mut j: usize = i;
    #[verifier::loop_isolation(false)]
    while j < n && 'A' <= s.get_char(j) && s.get_char(j) <= 'Z'
        invariant
            i <= j <= n,
            run_end(s@, i as int, p) == run_end(s@, j as int, p),
        decreases n - j,
    {
        j = j + 1;
    }
    j
}

} // verus!
