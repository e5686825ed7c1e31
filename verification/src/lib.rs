pub mod bytes;
pub mod num;
pub mod request;
pub mod response;
pub mod router;
pub mod outside;
pub mod server;
pub mod session;
pub mod text;

use vstd::prelude::*;

use crate::num::{all_digits, parse_dec, parse_usize};
use crate::server::Server;
use crate::text::{
    digit_p, is_digit_char, is_token_char, matches_at, occurs_at, run_end, scan_digits,
    scan_token, scan_ws, str_eq, substr, token_p, ws_p,
};

verus! {

/// The configuration tree: logging knobs and the HTTP globals with the
/// virtual-server table.
#[derive(Debug, Clone)]
pub struct Config {
    pub log_files: LogFilesConfig,
    pub http: HttpConfig,
}

#[derive(Debug, Clone)]
pub struct LogFilesConfig {
    pub error_log: String,
    pub access_log: String,
    pub events_limit: usize,
}

#[derive(Debug, Clone)]
pub struct HttpConfig {
    pub access_log_format: String,
    pub timeout: u64,
    pub size_limit: usize,
    pub servers: Vec<(String, Server)>,
}

/// One configured redirection: requests for `source` are answered with a
/// redirect to `target`.
#[derive(Debug, Clone)]
pub struct Redirection {
    pub source: String,
    pub target: String,
}

impl Config {
    pub fn new() -> (r: Self)
        ensures
            r.log_files.error_log@ == Seq::<char>::empty(),
            r.log_files.access_log@ == Seq::<char>::empty(),
            r.log_files.events_limit == 0,
            r.http.access_log_format@ == Seq::<char>::empty(),
            r.http.timeout == 0,
            r.http.size_limit == 0,
            r.http.servers@ == Seq::<(String, Server)>::empty(),
    {
        Self {
            log_files: LogFilesConfig {
                error_log: String::new(),
                access_log: String::new(),
                events_limit: 0,
            },
            http: HttpConfig {
                access_log_format: String::new(),
                timeout: 0,
                size_limit: 0,
                servers: Vec::new(),
            },
        }
    }
}

/// Removes `suffix` from the end of `s` if it is there; otherwise returns `s`
/// unchanged.
pub fn remove_suffix(s: String, suffix: &str) -> (r: String)
    ensures
        suffix@.len() <= s@.len() && s@.subrange(
            s@.len() - suffix@.len(),
            s@.len() as int,
        ) == suffix@ ==> r@ == s@.subrange(0, s@.len() - suffix@.len()),
        !(suffix@.len() <= s@.len() && s@.subrange(
            s@.len() - suffix@.len(),
            s@.len() as int,
        ) == suffix@) ==> r@ == s@,
{
    let n = s.as_str().unicode_len();
    let m = suffix.unicode_len();
    if m <= n {
        let tail = s.as_str().substring_char(n - m, n);
        if str_eq(tail, suffix) {
            let head = s.as_str().substring_char(0, n - m);
            return head.to_owned();
        }
    }
    s
}

/// Removes `prefix` from the start of `s` if it is there; otherwise returns
/// `s` unchanged.
pub fn remove_prefix(s: String, prefix: &str) -> (r: String)
    ensures
        prefix@.len() <= s@.len() && s@.subrange(0, prefix@.len() as int) == prefix@ ==> r@
            == s@.subrange(prefix@.len() as int, s@.len() as int),
        !(prefix@.len() <= s@.len() && s@.subrange(0, prefix@.len() as int) == prefix@) ==> r@
            == s@,
{
    let n = s.as_str().unicode_len();
    let m = prefix.unicode_len();
    if m <= n {
        let head = s.as_str().substring_char(0, m);
        if str_eq(head, prefix) {
            let tail = s.as_str().substring_char(m, n);
            return tail.to_owned();
        }
    }
    s
}

// ---------------------------------------------------------------------------
// Header scans
// ---------------------------------------------------------------------------
pub open spec fn boundary_key() -> Seq<char> {
    seq!['b', 'o', 'u', 'n', 'd', 'a', 'r', 'y', '=']
}

/// A multipart boundary declaration matches at `i`: the key, then at least
/// one boundary-token character, then a carriage return.
pub open spec fn boundary_match_at(s: Seq<char>, i: int) -> bool {
    occurs_at(s, boundary_key(), i) && {
        let e = run_end(s, i + 9, token_p());
        e > i + 9 && e < s.len() && s[e] == '\r'
    }
}

pub open spec fn boundary_value_at(s: Seq<char>, i: int) -> Seq<char> {
    s.subrange(i + 9, run_end(s, i + 9, token_p()))
}


/// Index of the first position where a boundary declaration matches.
pub open spec fn boundary_first(s: Seq<char>, i: int) -> Option<int>
    decreases s.len() + 1 - i,
        when 0 <= i
{
    if i > s.len() {
        None
    } else if boundary_match_at(s, i) {
        Some(i)
    } else if i == s.len() {
        None
    } else {
        boundary_first(s, i + 1)
    }
}

/// The boundary token of `s`, if a declaration matches anywhere.
pub open spec fn boundary_of(s: Seq<char>) -> Option<Seq<char>> {
    match boundary_first(s, 0) {
        Some(i) => Some(boundary_value_at(s, i)),
        None => None,
    }
}

proof fn lemma_boundary_first_none(s: Seq<char>, i: int)
    requires
        0 <= i,
        forall|j: int| i <= j ==> !boundary_match_at(s, j),
    ensures
        boundary_first(s, i) is None,
    decreases s.len() + 1 - i,
{
    if i < s.len() {
        lemma_boundary_first_none(s, i + 1);
    }
}

/// The boundary token named by the request's `Content-Type`, taken from the
/// first place a `boundary=` declaration matches.
pub fn get_boundary(req: &String) -> (r: Option<String>)
    ensures
        match r {
            Some(b) => boundary_of(req@) == Some(b@),
            None => boundary_of(req@) is None,
        },
{
    let s = req.as_str();
    let n = s.unicode_len();
    if n < 9 {
        proof {
            assert forall|j: int| 0 <= j implies !boundary_match_at(s@, j) by {
                assert(!occurs_at(s@, boundary_key(), j));
            }
            lemma_boundary_first_none(s@, 0);
        }
        return None;
    }
    let mut i: usize = 0;
    while i <= n - 9
        invariant
            9 <= n,
            s@ == req@,
            n == s@.len(),
            0 <= i <= n - 9 + 1,
            boundary_first(s@, 0) == boundary_first(s@, i as int),
        decreases n - i,
    {
        proof {
            reveal_strlit("boundary=");
            assert("boundary="@ =~= boundary_key());
        }
        if matches_at(s, "boundary=", i) {
            let e = scan_token(s, i + 9);
            proof {
                crate::text::lemma_run_end(s@, i + 9, token_p());
            }
            if e > i + 9 && e < n && s.get_char(e) == '\r' {
                let val = substr(s, i + 9, e);
                proof {
                    assert(boundary_match_at(s@, i as int));
                    assert(boundary_first(s@, i as int) == Some(i as int));
                    assert(val@ == boundary_value_at(req@, i as int));
                }
                return Some(val);
            }
        }
        assert(!boundary_match_at(s@, i as int));
        i = i + 1;
    }
    proof {
        assert forall|j: int| i <= j implies !boundary_match_at(s@, j) by {
            assert(!occurs_at(s@, boundary_key(), j));
        }
        lemma_boundary_first_none(s@, i as int);
    }
    None
}


proof fn lemma_boundary_first_match(s: Seq<char>, i: int)
    requires
        0 <= i,
    ensures
        match boundary_first(s, i) {
            Some(k) => i <= k && boundary_match_at(s, k),
            None => true,
        },
    decreases s.len() + 1 - i,
{
    if i <= s.len() && !boundary_match_at(s, i) && i < s.len() {
        lemma_boundary_first_match(s, i + 1);
    }
}

/// Law: a recognized multipart boundary is non-empty and holds only the
/// characters the wire grammar allows.
pub proof fn lemma_boundary_token(s: Seq<char>)
    ensures
        match boundary_of(s) {
            Some(b) => b.len() >= 1 && forall|i: int|
                0 <= i < b.len() ==> is_token_char(#[trigger] b[i]),
            None => true,
        },
{
    lemma_boundary_first_match(s, 0);
    match boundary_first(s, 0) {
        Some(k) => {
            let e = run_end(s, k + 9, token_p());
            crate::text::lemma_run_end(s, k + 9, token_p());
            let b = boundary_value_at(s, k);
            assert forall|i: int| 0 <= i < b.len() implies is_token_char(#[trigger] b[i]) by {
                assert(b[i] == s[k + 9 + i]);
            }
        },
        None => {},
    }
}

pub open spec fn clen_key() -> Seq<char> {
    seq!['C', 'o', 'n', 't', 'e', 'n', 't', '-', 'L', 'e', 'n', 'g', 't', 'h', ':']
}

/// A `Content-Length` header matches at `i`: the key, then whitespace (at
/// least one character when `strict`), then at least one digit.
pub open spec fn clen_match_at(s: Seq<char>, i: int, strict: bool) -> bool {
    occurs_at(s, clen_key(), i) && {
        let w = run_end(s, i + 15, ws_p());
        let d = run_end(s, w, digit_p());
        d > w && (strict ==> w > i + 15)
    }
}

pub open spec fn clen_value_at(s: Seq<char>, i: int) -> Seq<char> {
    let w = run_end(s, i + 15, ws_p());
    s.subrange(w, run_end(s, w, digit_p()))
}


/// Index of the first position where a `Content-Length` header matches.
pub open spec fn clen_first(s: Seq<char>, i: int, strict: bool) -> Option<int>
    decreases s.len() + 1 - i,
        when 0 <= i
{
    if i > s.len() {
        None
    } else if clen_match_at(s, i, strict) {
        Some(i)
    } else if i == s.len() {
        None
    } else {
        clen_first(s, i + 1, strict)
    }
}

/// The digit string of the first matching `Content-Length` header.
pub open spec fn clen_digits_of(s: Seq<char>, strict: bool) -> Option<Seq<char>> {
    match clen_first(s, 0, strict) {
        Some(i) => Some(clen_value_at(s, i)),
        None => None,
    }
}

proof fn lemma_clen_first_none(s: Seq<char>, i: int, strict: bool)
    requires
        0 <= i,
        forall|j: int| i <= j ==> !clen_match_at(s, j, strict),
    ensures
        clen_first(s, i, strict) is None,
    decreases s.len() + 1 - i,
{
    if i < s.len() {
        lemma_clen_first_none(s, i + 1, strict);
    }
}

/// The digit string of the first matching `Content-Length` header.
pub fn find_content_length(s: &str, strict: bool) -> (r: Option<String>)
    ensures
        match r {
            Some(v) => clen_digits_of(s@, strict) == Some(v@),
            None => clen_digits_of(s@, strict) is None,
        },
{
    let n = s.unicode_len();
    if n < 15 {
        proof {
            assert forall|j: int| 0 <= j implies !clen_match_at(s@, j, strict) by {
                assert(!occurs_at(s@, clen_key(), j));
            }
            lemma_clen_first_none(s@, 0, strict);
        }
        return None;
    }
    let mut i: usize = 0;
    while i <= n - 15
        invariant
            15 <= n,
            n == s@.len(),
            0 <= i <= n - 15 + 1,
            clen_first(s@, 0, strict) == clen_first(s@, i as int, strict),
        decreases n - i,
    {
        proof {
            reveal_strlit("Content-Length:");
            assert("Content-Length:"@ =~= clen_key());
        }
        if matches_at(s, "Content-Length:", i) {
            let w = scan_ws(s, i + 15);
            proof {
                crate::text::lemma_run_end(s@, i + 15, ws_p());
            }
            let d = scan_digits(s, w);
            proof {
                crate::text::lemma_run_end(s@, w as int, digit_p());
            }
            if d > w && (!strict || w > i + 15) {
                let val = substr(s, w, d);
                proof {
                    assert(clen_match_at(s@, i as int, strict));
                    assert(clen_first(s@, i as int, strict) == Some(i as int));
                    assert(val@ == clen_value_at(s@, i as int));
                }
                return Some(val);
            }
        }
        assert(!clen_match_at(s@, i as int, strict));
        i = i + 1;
    }
    proof {
        assert forall|j: int| i <= j implies !clen_match_at(s@, j, strict) by {
            assert(!occurs_at(s@, clen_key(), j));
        }
        lemma_clen_first_none(s@, i as int, strict);
    }
    None
}

/// The digit string of the request's `Content-Length` header, if one is
/// declared.
pub fn get_content_length(req: &String) -> (r: Option<String>)
    ensures
        match r {
            Some(v) => clen_digits_of(req@, false) == Some(v@),
            None => clen_digits_of(req@, false) is None,
        },
{
    find_content_length(req.as_str(), false)
}

// ---------------------------------------------------------------------------
// IPv4 validation
// ---------------------------------------------------------------------------
/// A canonical decimal octet: one to three digits, no leading zero (except
/// "0" itself), value at most 255.
pub open spec fn is_octet(t: Seq<char>) -> bool {
    1 <= t.len() <= 3 && all_digits(t) && (t[0] == '0' ==> t.len() == 1) && parse_dec(t) <= 255
}

/// A textually valid dotted-quad IPv4 address.
pub open spec fn is_valid_ipv4(s: Seq<char>) -> bool {
    let parts = crate::text::split_char_spec(s, '.');
    parts.len() == 4 && (forall|i: int| 0 <= i < 4 ==> is_octet(#[trigger] parts[i]))
}

fn is_octet_str(t: &str) -> (r: bool)
    ensures
        r == is_octet(t@),
{
    let n = t.unicode_len();
    if n < 1 || n > 3 {
        return false;
    }
    let d = scan_digits(t, 0);
    proof {
        crate::text::lemma_run_end(t@, 0, digit_p());
    }
    if d < n {
        assert(!is_digit_char(t@[d as int]));
        return false;
    }
    if t.get_char(0) == '0' && n != 1 {
        return false;
    }
    match parse_usize(t) {
        Some(v) => v <= 255,
        None => {
            // three digits always fit in a usize
            proof {
                crate::num::lemma_parse_dec_prefix(t@, 0);
                assert(t@.subrange(0, 0) =~= Seq::<char>::empty());
                let t2 = t@;
                assert(parse_dec(t2) <= 999) by {
                    if t2.len() == 1 {
                        assert(parse_dec(t2.drop_last()) == 0);
                    } else if t2.len() == 2 {
                        assert(parse_dec(t2.drop_last().drop_last()) == 0);
                        assert(parse_dec(t2.drop_last()) <= 9);
                    } else {
                        assert(parse_dec(t2.drop_last().drop_last().drop_last()) == 0);
                        assert(parse_dec(t2.drop_last().drop_last()) <= 9);
                        assert(parse_dec(t2.drop_last()) <= 99);
                    }
                }
            }
            false
        },
    }
}

/// Textual IPv4 validation: exactly four dot-separated canonical octets.
pub fn is_valid_ip(ip: &str) -> (r: bool)
    ensures
        r == is_valid_ipv4(ip@),
{
    let parts = crate::text::split_char(ip, '.');
    if parts.len() != 4 {
        return false;
    }
    let mut i: usize = 0;
    let mut ok = true;
    while i < 4
        invariant
            0 <= i <= 4,
            parts.deep_view() == crate::text::split_char_spec(ip@, '.'),
            parts.len() == 4,
            ok == (forall|j: int| 0 <= j < i ==> is_octet(#[trigger] parts.deep_view()[j])),
        decreases 4 - i,
    {
        let good = is_octet_str(parts[i].as_str());
        proof {
            assert(parts.deep_view()[i as int] == parts[i as int]@);
        }
        ok = ok && good;
        i = i + 1;
    }
    ok
}

// ---------------------------------------------------------------------------
// Configuration checking
// ---------------------------------------------------------------------------
/// The server entries whose IP addresses are textually valid, in order.
pub open spec fn keep_valid_servers(s: Seq<(String, Server)>) -> Seq<(String, Server)>
    decreases s.len(),
{
    if s.len() == 0 {
        Seq::<(String, Server)>::empty()
    } else {
        let rest = keep_valid_servers(s.drop_first());
        if is_valid_ipv4(s[0].1.ip_addr@) {
            seq![s[0]] + rest
        } else {
            rest
        }
    }
}

/// Drops every server whose IP address fails validation; returns whether any
/// server remains (the router refuses to run on an empty table).
pub fn verify_config(config: &mut Config) -> (ok: bool)
    ensures
        final(config).http.servers@ == keep_valid_servers(old(config).http.servers@),
        ok == (final(config).http.servers@.len() > 0),
        final(config).log_files == old(config).log_files,
        final(config).http.access_log_format == old(config).http.access_log_format,
        final(config).http.timeout == old(config).http.timeout,
        final(config).http.size_limit == old(config).http.size_limit,
{
    let mut out: Vec<(String, Server)> = Vec::new();
    let ghost orig = config.http.servers@;
    proof {
        assert(out@ + keep_valid_servers(orig) =~= keep_valid_servers(orig));
    }
    let ghost orig_log = config.log_files;
    let ghost orig_fmt = config.http.access_log_format;
    let ghost orig_timeout = config.http.timeout;
    let ghost orig_limit = config.http.size_limit;
    while config.http.servers.len() > 0
        invariant
            keep_valid_servers(orig) == out@ + keep_valid_servers(config.http.servers@),
            config.log_files == orig_log,
            config.http.access_log_format == orig_fmt,
            config.http.timeout == orig_timeout,
            config.http.size_limit == orig_limit,
        decreases config.http.servers.len(),
    {
        let ghost pre = config.http.servers@;
        let entry = config.http.servers.remove(0);
        proof {
            assert(pre.drop_first() =~= config.http.servers@);
        }
        if is_valid_ip(entry.1.ip_addr.as_str()) {
            out.push(entry);
            proof {
                assert(keep_valid_servers(pre) == seq![pre[0]] + keep_valid_servers(
                    pre.drop_first(),
                ));
                assert(out@ + keep_valid_servers(config.http.servers@) =~= keep_valid_servers(
                    orig,
                ));
            }
        } else {
            proof {
                assert(keep_valid_servers(pre) == keep_valid_servers(pre.drop_first()));
            }
        }
    }
    proof {
        assert(keep_valid_servers(config.http.servers@) =~= Seq::<(String, Server)>::empty());
        assert(out@ =~= keep_valid_servers(orig));
    }
    let ok = out.len() > 0;
    config.http.servers = out;
    ok
}

} // verus!
