//! The HTTP request: the parsed message together with its assembly state.
use vstd::prelude::*;

use crate::bytes::{bytes_range, find_bytes, find_idx_b};
use crate::num::{all_digits, parse_dec, parse_usize};
use crate::outside::{now_millis, percent_decode, percent_decoded};
use crate::text::{
    find_idx, find_str_idx, lines_spec, neq_p, non_ws_p, occurs_at, run_end, scan_until_char,
    scan_upper, scan_ws, second_token, second_token_spec, split_char, split_char_spec,
    split_lines, starts_with_str, str_eq, strip_char_spec, strip_char_str, substr, trim_spec,
    trim_str, upper_p, ws_p,
};

verus! {

/// A parsed HTTP message plus assembly state.  `body` is the textual view of
/// the payload and `body_byte` the exact bytes received (the whole read,
/// headers included), because the boundary scan is textual while file
/// contents are binary.
#[derive(Debug, Clone)]
pub struct Request {
    pub id_session: String,
    pub content_type: String,
    pub content_length: Option<usize>,
    pub location: String,
    pub host: String,
    pub port: u16,
    pub method: String,
    pub head: String,
    pub body: String,
    pub body_byte: Vec<u8>,
    pub filename: String,
    pub length: usize,
    pub reference: String,
    pub boundary: Option<String>,
    pub complete: bool,
    pub headers: Vec<(String, String)>,
    pub timestamp: i64,
}

// ---------------------------------------------------------------------------
// Multipart grammar
// ---------------------------------------------------------------------------
pub open spec fn crlf2_c() -> Seq<char> {
    seq!['\r', '\n', '\r', '\n']
}

pub open spec fn part_sep_c() -> Seq<char> {
    seq!['\r', '\n', '-', '-']
}

pub open spec fn ct_key() -> Seq<char> {
    seq!['C', 'o', 'n', 't', 'e', 'n', 't', '-', 'T', 'y', 'p', 'e', ':']
}

pub open spec fn value_word() -> Seq<char> {
    seq!['v', 'a', 'l', 'u', 'e']
}

/// Characters that end a `Content-Type` value: the part separator or the
/// next field.
pub open spec fn ct_stop_p() -> spec_fn(char) -> bool {
    |c: char| c != ';' && c != '\r'
}

/// The value of the first `; <key>="…"` field in a multipart body; the key
/// is anchored after a field separator so that one field name cannot match
/// inside another (`name` inside `filename`).  Empty when the field is
/// absent or its closing quote is missing.
pub open spec fn quoted_field_spec(body: Seq<char>, key: Seq<char>) -> Seq<char> {
    let pat = seq![';', ' '] + key + seq!['=', '"'];
    match find_idx(body, pat, 0) {
        Some(i) => {
            let st = i + pat.len();
            let e = run_end(body, st, neq_p('"'));
            if e < body.len() {
                body.subrange(st, e)
            } else {
                Seq::<char>::empty()
            }
        },
        None => Seq::<char>::empty(),
    }
}

/// The text of the first part's value: what stands between the part's blank
/// line and the following boundary marker.
pub open spec fn value_field_spec(body: Seq<char>) -> Seq<char> {
    match find_idx(body, crlf2_c(), 0) {
        Some(i) => {
            let st = i + 4;
            match find_idx(body, part_sep_c(), st) {
                Some(e) => body.subrange(st, e),
                None => body.subrange(st, body.len() as int),
            }
        },
        None => Seq::<char>::empty(),
    }
}

/// The first part's declared `Content-Type`: the text after the key and its
/// whitespace, up to the next `;` or carriage return.
pub open spec fn content_type_of_body(b: Seq<char>) -> Seq<char> {
    match find_idx(b, ct_key(), 0) {
        Some(i) => {
            let w = run_end(b, i + 13, ws_p());
            b.subrange(w, run_end(b, w, ct_stop_p()))
        },
        None => Seq::<char>::empty(),
    }
}

/// What `extract_field` returns: nothing without a boundary; the part value
/// for the field name `value`; otherwise the named quoted field.
pub open spec fn extract_field_spec(req: Request, fieldname: Seq<char>) -> Seq<char> {
    if req.boundary is None {
        Seq::<char>::empty()
    } else if fieldname == value_word() {
        value_field_spec(req.body@)
    } else {
        quoted_field_spec(req.body@, fieldname)
    }
}

fn extract_quoted_field(body: &str, key: &str) -> (r: String)
    ensures
        r@ == quoted_field_spec(body@, key@),
{
    let mut pat = "; ".to_owned();
    pat.append(key);
    pat.append("=\"");
    proof {
        reveal_strlit("; ");
        reveal_strlit("=\"");
        assert("; "@ =~= seq![';', ' ']);
        assert("=\""@ =~= seq!['=', '"']);
        assert(pat@ == seq![';', ' '] + key@ + seq!['=', '"']);
    }
    let n = body.unicode_len();
    match find_str_idx(body, pat.as_str()) {
        Some(i) => {
            let st = i + pat.as_str().unicode_len();
            let e = scan_until_char(body, st, '"');
            if e < n {
                substr(body, st, e)
            } else {
                String::new()
            }
        },
        None => String::new(),
    }
}

fn extract_value_field(body: &str) -> (r: String)
    ensures
        r@ == value_field_spec(body@),
{
    proof {
        reveal_strlit("\r\n\r\n");
        assert("\r\n\r\n"@ =~= crlf2_c());
        reveal_strlit("\r\n--");
        assert("\r\n--"@ =~= part_sep_c());
    }
    let n = body.unicode_len();
    match find_str_idx(body, "\r\n\r\n") {
        Some(i) => {
            let st = i + 4;
            let tail = body.substring_char(st, n);
            match find_str_idx(tail, "\r\n--") {
                Some(k) => {
                    proof {
                        lemma_find_idx_shift(body@, part_sep_c(), st as int);
                    }
                    substr(body, st, st + k)
                },
                None => {
                    proof {
                        lemma_find_idx_shift(body@, part_sep_c(), st as int);
                    }
                    substr(body, st, n)
                },
            }
        },
        None => String::new(),
    }
}

/// Searching in the tail of a text finds the shifted occurrences.
proof fn lemma_find_idx_shift(s: Seq<char>, pat: Seq<char>, off: int)
    requires
        0 <= off <= s.len(),
    ensures
        match find_idx(s.subrange(off, s.len() as int), pat, 0) {
            Some(k) => find_idx(s, pat, off) == Some(k + off),
            None => find_idx(s, pat, off) is None,
        },
{
    lemma_find_idx_shift_from(s, pat, off, off);
}

proof fn lemma_find_idx_shift_from(s: Seq<char>, pat: Seq<char>, off: int, i: int)
    requires
        0 <= off <= i <= s.len(),
    ensures
        match find_idx(s.subrange(off, s.len() as int), pat, i - off) {
            Some(k) => find_idx(s, pat, i) == Some(k + off),
            None => find_idx(s, pat, i) is None,
        },
    decreases s.len() - i,
{
    let t = s.subrange(off, s.len() as int);
    if i + pat.len() <= s.len() {
        assert(t.subrange(i - off, i - off + pat.len()) =~= s.subrange(i, i + pat.len()));
        if pat.len() != 0 && t.subrange(i - off, i - off + pat.len()) != pat {
            lemma_find_idx_shift_from(s, pat, off, i + 1);
        }
    }
}

impl Request {
    /// A request with the given fields; assembly state starts empty and the
    /// timestamp is the clock's current reading.
    pub fn new(
        id_session: String,
        content_type: String,
        location: String,
        host: String,
        port: u16,
        method: String,
        head: String,
        body: String,
        body_byte: Vec<u8>,
        filename: String,
        length: usize,
        reference: String,
    ) -> (r: Self)
        ensures
            r.id_session == id_session,
            r.content_type == content_type,
            r.content_length is None,
            r.location == location,
            r.host == host,
            r.port == port,
            r.method == method,
            r.head == head,
            r.body == body,
            r.body_byte == body_byte,
            r.filename == filename,
            r.length == length,
            r.reference == reference,
            r.boundary is None,
            r.complete == false,
            r.headers@ == Seq::<(String, String)>::empty(),
    {
        Self {
            id_session,
            content_type,
            content_length: None,
            location,
            host,
            port,
            method,
            head,
            body,
            body_byte,
            filename,
            length,
            reference,
            boundary: None,
            complete: false,
            headers: Vec::new(),
            timestamp: now_millis(),
        }
    }

    /// A request with every field empty.
    pub fn default() -> (r: Self)
        ensures
            r.id_session@ == Seq::<char>::empty(),
            r.content_type@ == Seq::<char>::empty(),
            r.content_length is None,
            r.location@ == Seq::<char>::empty(),
            r.host@ == Seq::<char>::empty(),
            r.port == 0,
            r.method@ == Seq::<char>::empty(),
            r.head@ == Seq::<char>::empty(),
            r.body@ == Seq::<char>::empty(),
            r.body_byte@ == Seq::<u8>::empty(),
            r.filename@ == Seq::<char>::empty(),
            r.length == 0,
            r.reference@ == Seq::<char>::empty(),
            r.boundary is None,
            r.complete == false,
            r.headers@ == Seq::<(String, String)>::empty(),
    {
        let r = Request::new(
            String::new(),
            String::new(),
            String::new(),
            String::new(),
            0,
            String::new(),
            String::new(),
            String::new(),
            Vec::new(),
            String::new(),
            0,
            String::new(),
        );
        proof {
            assert(r.body_byte@ =~= Seq::<u8>::empty());
        }
        r
    }

    /// The value of the named multipart form field of this request, per the
    /// grammar above; empty when the request declares no boundary.
    pub fn extract_field(request: &Request, fieldname: &str) -> (r: String)
        ensures
            r@ == extract_field_spec(*request, fieldname@),
    {
        match &request.boundary {
            None => String::new(),
            Some(_) => {
                proof {
                    reveal_strlit("value");
                    assert("value"@ =~= value_word());
                }
                if str_eq(fieldname, "value") {
                    extract_value_field(request.body.as_str())
                } else {
                    extract_quoted_field(request.body.as_str(), fieldname)
                }
            },
        }
    }

    /// The file payload of a multipart body: the bytes between the second
    /// blank line (the part's own header block ends there) and the boundary
    /// marker that closes the part.  Empty when the markers are missing.
    pub fn extract_values(body: &[u8], boundary: String) -> (r: Vec<u8>)
        ensures
            r@ == extract_values_spec(body@, boundary@),
    {
        let blen = body.len();
        let nl: [u8; 4] = [13, 10, 13, 10];
        let nls = nl.as_slice();
        proof {
            assert(nls@ =~= crlf2_b());
        }
        let start_pos = match find_bytes(body, nls) {
            Some(i) => i,
            None => {
                return Vec::new();
            },
        };
        let headers_end = start_pos + 4;
        let mut sbp: Vec<u8> = Vec::new();
        sbp.push(13);
        sbp.push(10);
        sbp.push(45);
        sbp.push(45);
        let bs = boundary.as_str();
        let bn = bs.unicode_len();
        let mut k: usize = 0;
        while k < bn
            invariant
                0 <= k <= bn,
                bn == bs@.len(),
                sbp@ == part_sep_b() + ascii_bytes(bs@.subrange(0, k as int)),
            decreases bn - k,
        {
            let c = bs.get_char(k);
            sbp.push(#[verifier::truncate] (c as u8));
            proof {
                assert(ascii_bytes(bs@.subrange(0, k + 1)) =~= ascii_bytes(
                    bs@.subrange(0, k as int),
                ).push(bs@[k as int] as u8));
                assert(sbp@ =~= part_sep_b() + ascii_bytes(bs@.subrange(0, k + 1)));
            }
            k = k + 1;
        }
        proof {
            assert(bs@.subrange(0, bn as int) =~= bs@);
        }
        let rest = vstd::slice::slice_subrange(body, headers_end, blen);
        let start_pos_body = match find_bytes(rest, sbp.as_slice()) {
            Some(i) => i,
            None => 0,
        };
        let tmp = vstd::slice::slice_subrange(rest, 0, start_pos_body);
        let fist = match find_bytes(tmp, nls) {
            Some(i) => i,
            None => 0,
        };
        if fist + 4 > tmp.len() {
            return Vec::new();
        }
        bytes_range(tmp, fist + 4, tmp.len())
    }

    /// Percent-decodes the stored location (keeping it unchanged when the
    /// decoder refuses it) and rewrites the request line of `head` so the
    /// method is followed by the decoded path.
    pub fn uri_decode(&mut self)
        ensures
            final(self).location@ == decoded_location(old(self).location@),
            final(self).head@ == rewritten_head(
                old(self).head@,
                decoded_location(old(self).location@),
            ),
            final(self).id_session == old(self).id_session,
            final(self).content_type == old(self).content_type,
            final(self).content_length == old(self).content_length,
            final(self).host == old(self).host,
            final(self).port == old(self).port,
            final(self).method == old(self).method,
            final(self).body == old(self).body,
            final(self).body_byte == old(self).body_byte,
            final(self).filename == old(self).filename,
            final(self).length == old(self).length,
            final(self).reference == old(self).reference,
            final(self).boundary == old(self).boundary,
            final(self).complete == old(self).complete,
            final(self).headers == old(self).headers,
            final(self).timestamp == old(self).timestamp,
    {
        match percent_decode(self.location.as_str()) {
            Some(d) => {
                self.location = d;
            },
            None => {},
        }
        let head = self.head.clone();
        let hs = head.as_str();
        let n = hs.unicode_len();
        let m = scan_upper(hs, 0);
        if m >= 1 && n - m > 1 && hs.get_char(m) == ' ' && hs.get_char(m + 1) == '/' {
            let t = crate::text::scan_non_ws(hs, m + 2);
            proof {
                crate::text::lemma_run_end(hs@, m + 2, non_ws_p());
            }
            if t > m + 2 {
                let mut new_head = substr(hs, 0, m);
                new_head.push(' ');
                new_head.append(self.location.as_str());
                let tail = substr(hs, t, n);
                new_head.append(tail.as_str());
                proof {
                    assert(new_head@ =~= rewritten_head(
                        old(self).head@,
                        decoded_location(old(self).location@),
                    ));
                }
                self.head = new_head;
            }
        }
    }
}

// ---------------------------------------------------------------------------
// Byte-level multipart extraction: specification
// ---------------------------------------------------------------------------
pub open spec fn crlf2_b() -> Seq<u8> {
    seq![13u8, 10u8, 13u8, 10u8]
}

pub open spec fn part_sep_b() -> Seq<u8> {
    seq![13u8, 10u8, 45u8, 45u8]
}

/// The characters of an (ASCII) string as bytes.
pub open spec fn ascii_bytes(s: Seq<char>) -> Seq<u8> {
    Seq::new(s.len(), |i: int| s[i] as u8)
}

pub open spec fn extract_values_spec(body: Seq<u8>, boundary: Seq<char>) -> Seq<u8> {
    match find_idx_b(body, crlf2_b(), 0) {
        None => Seq::<u8>::empty(),
        Some(start_pos) => {
            let headers_end = start_pos + 4;
            let rest = body.subrange(headers_end, body.len() as int);
            let sbp = part_sep_b() + ascii_bytes(boundary);
            let spb = match find_idx_b(rest, sbp, 0) {
                Some(i) => i,
                None => 0,
            };
            let tmp = rest.subrange(0, spb);
            let fist = match find_idx_b(tmp, crlf2_b(), 0) {
                Some(i) => i,
                None => 0,
            };
            if fist + 4 > tmp.len() {
                Seq::<u8>::empty()
            } else {
                tmp.subrange(fist + 4, tmp.len() as int)
            }
        },
    }
}

// ---------------------------------------------------------------------------
// URI decoding: specification
// ---------------------------------------------------------------------------
/// The percent-decoded location; the input is kept when decoding fails.
pub open spec fn decoded_location(loc: Seq<char>) -> Seq<char> {
    match percent_decoded(loc) {
        Some(d) => d,
        None => loc,
    }
}

/// The request line of `head` with the path replaced by `loc`: applies when
/// `head` opens with an upper-case method, a space, and a non-empty
/// slash-led path.
pub open spec fn rewritten_head(head: Seq<char>, loc: Seq<char>) -> Seq<char> {
    let m = run_end(head, 0, upper_p());
    if m >= 1 && m + 1 < head.len() && head[m] == ' ' && head[m + 1] == '/' && run_end(
        head,
        m + 2,
        non_ws_p(),
    ) > m + 2 {
        head.subrange(0, m) + seq![' '] + loc + head.subrange(
            run_end(head, m + 2, non_ws_p()),
            head.len() as int,
        )
    } else {
        head
    }
}


// ---------------------------------------------------------------------------
// Header parsing: specification
// ---------------------------------------------------------------------------
pub open spec fn host_key() -> Seq<char> {
    seq!['H', 'o', 's', 't', ':']
}

pub open spec fn cookie_word() -> Seq<char> {
    seq!['C', 'o', 'o', 'k', 'i', 'e']
}

pub open spec fn cookie_prefix() -> Seq<char> {
    seq!['c', 'o', 'o', 'k', 'i', 'e', '_', '0', '1', '=']
}

pub open spec fn referer_key() -> Seq<char> {
    seq!['R', 'e', 'f', 'e', 'r', 'e', 'r', ':']
}

pub open spec fn is_host_line(l: Seq<char>) -> bool {
    occurs_at(l, host_key(), 0)
}

pub open spec fn has_colon(l: Seq<char>) -> bool {
    run_end(l, 0, neq_p(':')) < l.len()
}

/// The host named by a `Host:` line: the text between the first and second
/// colon, trimmed.
pub open spec fn host_of_line(l: Seq<char>) -> Seq<char> {
    trim_spec(split_char_spec(l, ':')[1])
}

/// A port part parses as a decimal port number, or falls back to 80.
pub open spec fn port_of_part(t: Seq<char>) -> u16 {
    if t.len() > 0 && all_digits(t) && parse_dec(t) <= 65535 {
        parse_dec(t) as u16
    } else {
        80
    }
}

/// The port of a `Host:` line: its third colon-separated part when present,
/// otherwise whatever was in force before.
pub open spec fn port_of_line(l: Seq<char>, prev: u16) -> u16 {
    let parts = split_char_spec(l, ':');
    if parts.len() > 2 {
        port_of_part(parts[2])
    } else {
        prev
    }
}

/// A header line's key: the text before the first colon, trimmed, with
/// surrounding quotes removed.
pub open spec fn line_key(l: Seq<char>) -> Seq<char> {
    strip_char_spec(trim_spec(l.subrange(0, run_end(l, 0, neq_p(':')))), '"')
}

/// A header line's raw value: everything after the first colon.
pub open spec fn line_value_raw(l: Seq<char>) -> Seq<char> {
    l.subrange(run_end(l, 0, neq_p(':')) + 1, l.len() as int)
}

/// One pass over the header lines, carrying the host, port, raw cookie value
/// and collected header pairs.
pub open spec fn header_scan(
    lines: Seq<Seq<char>>,
    h: Seq<char>,
    pt: u16,
    ck: Seq<char>,
    hs: Seq<(Seq<char>, Seq<char>)>,
) -> (Seq<char>, u16, Seq<char>, Seq<(Seq<char>, Seq<char>)>)
    decreases lines.len(),
{
    if lines.len() == 0 {
        (h, pt, ck, hs)
    } else {
        let l = lines[0];
        if is_host_line(l) {
            header_scan(lines.drop_first(), host_of_line(l), port_of_line(l, pt), ck, hs)
        } else if has_colon(l) {
            let k = line_key(l);
            let vraw = line_value_raw(l);
            let v = trim_spec(vraw);
            let ck2 = if k == cookie_word() {
                vraw
            } else {
                ck
            };
            let hs2 = if k.len() > 0 && v.len() > 0 {
                hs.push((k, v))
            } else {
                hs
            };
            header_scan(lines.drop_first(), h, pt, ck2, hs2)
        } else {
            header_scan(lines.drop_first(), h, pt, ck, hs)
        }
    }
}

/// The URL path of the request line: its second whitespace-separated token.
pub open spec fn location_of(s: Seq<char>) -> Seq<char> {
    let ls = lines_spec(s);
    if ls.len() == 0 {
        Seq::<char>::empty()
    } else {
        match second_token_spec(ls[0]) {
            Some(t) => t,
            None => Seq::<char>::empty(),
        }
    }
}

pub open spec fn tail_lines(s: Seq<char>) -> Seq<Seq<char>> {
    let ls = lines_spec(s);
    if ls.len() == 0 {
        ls
    } else {
        ls.drop_first()
    }
}

pub open spec fn scanned(s: Seq<char>) -> (Seq<char>, u16, Seq<char>, Seq<(Seq<char>, Seq<char>)>) {
    header_scan(
        tail_lines(s),
        Seq::<char>::empty(),
        0,
        Seq::<char>::empty(),
        Seq::<(Seq<char>, Seq<char>)>::empty(),
    )
}

pub open spec fn host_of(s: Seq<char>) -> Seq<char> {
    scanned(s).0
}

pub open spec fn port_of(s: Seq<char>) -> u16 {
    scanned(s).1
}

pub open spec fn cookie_of(s: Seq<char>) -> Seq<char> {
    scanned(s).2
}

pub open spec fn headers_of(s: Seq<char>) -> Seq<(Seq<char>, Seq<char>)> {
    scanned(s).3
}

/// The session id the request carries: the cookie value is scanned for
/// `cookie_01=<id>`, wherever it stands among the listed cookies; the id
/// runs to the next `;` or the end.
pub open spec fn session_of(s: Seq<char>) -> Seq<char> {
    let c = trim_spec(cookie_of(s));
    match find_idx(c, cookie_prefix(), 0) {
        Some(i) => c.subrange(i + 10, run_end(c, i + 10, neq_p(';'))),
        None => Seq::<char>::empty(),
    }
}

// --- extract_header_value ---
/// `s` with every leading repetition of `pat` removed.
pub open spec fn strip_prefix_rep(s: Seq<char>, pat: Seq<char>) -> Seq<char>
    decreases s.len(),
{
    if pat.len() > 0 && pat.len() <= s.len() && s.subrange(0, pat.len() as int) == pat {
        strip_prefix_rep(s.subrange(pat.len() as int, s.len() as int), pat)
    } else {
        s
    }
}

/// The last `=`-value among the `;`-separated parts, starting from `acc`.
pub open spec fn ehv_parts(parts: Seq<Seq<char>>, acc: Seq<char>) -> Seq<char>
    decreases parts.len(),
{
    if parts.len() == 0 {
        acc
    } else {
        let t = trim_spec(parts[0]);
        let fc = run_end(t, 0, neq_p('='));
        let acc2 = if fc < t.len() {
            t.subrange(fc + 1, t.len() as int)
        } else {
            acc
        };
        ehv_parts(parts.drop_first(), acc2)
    }
}

/// The header-value scan: over every line that starts with the pattern,
/// the last `=`-value of its `;`-separated parts wins.
pub open spec fn ehv_lines(lines: Seq<Seq<char>>, pat: Seq<char>, acc: Seq<char>) -> Seq<char>
    decreases lines.len(),
{
    if lines.len() == 0 {
        acc
    } else {
        let l = lines[0];
        let acc2 = if occurs_at(l, pat, 0) {
            ehv_parts(split_char_spec(trim_spec(strip_prefix_rep(l, pat)), ';'), acc)
        } else {
            acc
        };
        ehv_lines(lines.drop_first(), pat, acc2)
    }
}

pub open spec fn extract_header_value_spec(lines: Seq<Seq<char>>, pat: Seq<char>) -> Seq<char> {
    ehv_lines(lines, pat, Seq::<char>::empty())
}

/// The retained `Referer` value: the second colon-separated part of the
/// header-value scan for `Referer:`.
pub open spec fn referer_of(s: Seq<char>) -> Seq<char> {
    let b = extract_header_value_spec(lines_spec(s), referer_key());
    let parts = split_char_spec(b, ':');
    if parts.len() > 1 {
        parts[1]
    } else {
        Seq::<char>::empty()
    }
}

proof fn lemma_split_len_ge1(s: Seq<char>, c: char)
    ensures
        split_char_spec(s, c).len() >= 1,
{
    crate::text::lemma_run_end(s, 0, neq_p(c));
}

proof fn lemma_split_two(l: Seq<char>, c: char, k: int)
    requires
        0 <= k < l.len(),
        l[k] == c,
    ensures
        split_char_spec(l, c).len() >= 2,
{
    crate::text::lemma_run_end(l, 0, neq_p(c));
    let e = run_end(l, 0, neq_p(c));
    if e > k {
        assert(l[k] != c);
    }
    lemma_split_len_ge1(l.subrange(e + 1, l.len() as int), c);
}


impl Request {
    /// Scans the header lines: over every line starting with `pattern`,
    /// the last `=`-value of the `;`-separated parts wins.
    pub fn extract_header_value(headers: &Vec<String>, pattern: &str) -> (r: String)
        ensures
            r@ == extract_header_value_spec(headers.deep_view(), pattern@),
    {
        let ghost dv = headers.deep_view();
        let plen = pattern.unicode_len();
        let mut acc = String::new();
        let mut i: usize = 0;
        proof {
            assert(dv.subrange(0, dv.len() as int) =~= dv);
        }
        while i < headers.len()
            invariant
                0 <= i <= headers.len(),
                dv == headers.deep_view(),
                plen == pattern@.len(),
                ehv_lines(dv, pattern@, Seq::<char>::empty()) == ehv_lines(
                    dv.subrange(i as int, dv.len() as int),
                    pattern@,
                    acc@,
                ),
            decreases headers.len() - i,
        {
            let ghost rem = dv.subrange(i as int, dv.len() as int);
            let ghost acc0 = acc@;
            proof {
                assert(rem[0] == dv[i as int]);
                assert(rem.drop_first() =~= dv.subrange(i + 1, dv.len() as int));
            }
            let line = &headers[i];
            if starts_with_str(line.as_str(), pattern) {
                let mut cur = line.clone();
                while plen > 0 && starts_with_str(cur.as_str(), pattern)
                    invariant
                        plen == pattern@.len(),
                        strip_prefix_rep(dv[i as int], pattern@) == strip_prefix_rep(
                            cur@,
                            pattern@,
                        ),
                    decreases cur@.len(),
                {
                    let cn = cur.as_str().unicode_len();
                    cur = substr(cur.as_str(), plen, cn);
                }
                proof {
                    assert(strip_prefix_rep(cur@, pattern@) == cur@);
                }
                let t = trim_str(cur.as_str());
                let parts = split_char(t.as_str(), ';');
                let ghost pdv = parts.deep_view();
                let mut j: usize = 0;
                proof {
                    assert(pdv.subrange(0, pdv.len() as int) =~= pdv);
                }
                while j < parts.len()
                    invariant
                        0 <= j <= parts.len(),
                        pdv == parts.deep_view(),
                        ehv_parts(pdv, acc0) == ehv_parts(
                            pdv.subrange(j as int, pdv.len() as int),
                            acc@,
                        ),
                    decreases parts.len() - j,
                {
                    let ghost prem = pdv.subrange(j as int, pdv.len() as int);
                    proof {
                        assert(prem[0] == pdv[j as int]);
                        assert(prem.drop_first() =~= pdv.subrange(j + 1, pdv.len() as int));
                    }
                    let tt = trim_str(parts[j].as_str());
                    let ttn = tt.as_str().unicode_len();
                    let fc = scan_until_char(tt.as_str(), 0, '=');
                    if fc < ttn {
                        acc = substr(tt.as_str(), fc + 1, ttn);
                    }
                    j = j + 1;
                }
                proof {
                    assert(pdv.subrange(parts.len() as int, pdv.len() as int)
                        =~= Seq::<Seq<char>>::empty());
                    assert(acc@ == ehv_parts(pdv, acc0));
                    assert(ehv_lines(rem, pattern@, acc0) == ehv_lines(
                        rem.drop_first(),
                        pattern@,
                        acc@,
                    ));
                }
            }
            i = i + 1;
        }
        proof {
            assert(dv.subrange(headers.len() as int, dv.len() as int)
                =~= Seq::<Seq<char>>::empty());
        }
        acc
    }
}


impl Request {
    /// Parses the header block: the request line's second token becomes
    /// `location`; `Host:` lines supply host and port; the cookie names the
    /// session; header pairs are kept trimmed, in order of appearance.
    pub fn parse_http_request(request_str: &str, request: &mut Request)
        ensures
            final(request).location@ == location_of(request_str@),
            final(request).host@ == host_of(request_str@),
            final(request).port == port_of(request_str@),
            final(request).id_session@ == session_of(request_str@),
            final(request).reference@ == referer_of(request_str@),
            final(request).headers.deep_view() == headers_of(request_str@),
            final(request).length == old(request).body@.len(),
            final(request).content_type == old(request).content_type,
            final(request).content_length == old(request).content_length,
            final(request).method == old(request).method,
            final(request).head == old(request).head,
            final(request).body == old(request).body,
            final(request).body_byte == old(request).body_byte,
            final(request).filename == old(request).filename,
            final(request).boundary == old(request).boundary,
            final(request).complete == old(request).complete,
            final(request).timestamp == old(request).timestamp,
    {
        let lines = split_lines(request_str);
        let ghost dv = lines.deep_view();
        let mut location = String::new();
        if lines.len() > 0 {
            match second_token(lines[0].as_str()) {
                Some(t) => {
                    location = t;
                },
                None => {},
            }
        }
        let mut host = String::new();
        let mut port: u16 = 0;
        let mut cookie = String::new();
        let mut hdrs: Vec<(String, String)> = Vec::new();
        let ghost tl = tail_lines(request_str@);
        let mut i: usize = 1;
        proof {
            if dv.len() > 0 {
                assert(tl =~= dv.subrange(1, dv.len() as int));
            }
            assert(hdrs.deep_view() =~= Seq::<(Seq<char>, Seq<char>)>::empty());
            assert(tl.subrange(0, tl.len() as int) =~= tl);
        }
        while i < lines.len()
            invariant
                1 <= i <= lines.len() || (lines.len() == 0 && i == 1),
                dv == lines.deep_view(),
                dv.len() > 0 ==> tl == dv.subrange(1, dv.len() as int),
                dv.len() == 0 ==> tl.len() == 0,
                scanned(request_str@) == header_scan(
                    tl.subrange(i - 1, tl.len() as int),
                    host@,
                    port,
                    cookie@,
                    hdrs.deep_view(),
                ),
            decreases lines.len() - i,
        {
            let ghost rem = tl.subrange(i - 1, tl.len() as int);
            proof {
                assert(rem[0] == dv[i as int]);
                assert(rem.drop_first() =~= tl.subrange(i as int, tl.len() as int));
            }
            let line = &lines[i];
            proof {
                reveal_strlit("Host:");
                assert("Host:"@ =~= host_key());
            }
            if starts_with_str(line.as_str(), "Host:") {
                proof {
                    assert(line@.subrange(0, 5)[4] == line@[4]);
                    lemma_split_two(line@, ':', 4);
                }
                let parts = split_char(line.as_str(), ':');
                proof {
                    assert(parts.deep_view()[1] == parts[1]@);
                }
                host = trim_str(parts[1].as_str());
                if parts.len() > 2 {
                    proof {
                        assert(parts.deep_view()[2] == parts[2]@);
                    }
                    port = match parse_usize(parts[2].as_str()) {
                        Some(v) => if v <= 65535 {
                            v as u16
                        } else {
                            80
                        },
                        None => 80,
                    };
                }
            } else {
                let n = line.as_str().unicode_len();
                let fc = scan_until_char(line.as_str(), 0, ':');
                if fc < n {
                    let before = substr(line.as_str(), 0, fc);
                    let key_trimmed = trim_str(before.as_str());
                    let key = strip_char_str(key_trimmed.as_str(), '"');
                    let vraw = substr(line.as_str(), fc + 1, n);
                    let v = trim_str(vraw.as_str());
                    proof {
                        reveal_strlit("Cookie");
                        assert("Cookie"@ =~= cookie_word());
                        assert(key@ == line_key(line@));
                        assert(vraw@ == line_value_raw(line@));
                    }
                    if str_eq(key.as_str(), "Cookie") {
                        cookie = vraw.clone();
                    }
                    if key.as_str().unicode_len() > 0 && v.as_str().unicode_len() > 0 {
                        let ghost h0 = hdrs.deep_view();
                        hdrs.push((key, v));
                        proof {
                            assert(hdrs.deep_view() =~= h0.push(
                                (line_key(line@), trim_spec(line_value_raw(line@))),
                            ));
                        }
                    }
                }
            }
            i = i + 1;
        }
        proof {
            if dv.len() > 0 {
                assert(tl.subrange(lines.len() - 1, tl.len() as int)
                    =~= Seq::<Seq<char>>::empty());
            } else {
                assert(tl.subrange(0, tl.len() as int) =~= Seq::<Seq<char>>::empty());
            }
        }
        // session id: scan the cookie value for `cookie_01=<id>`
        let ck = trim_str(cookie.as_str());
        let _ckn = ck.as_str().unicode_len();
        let mut id_session = String::new();
        proof {
            reveal_strlit("cookie_01=");
            assert("cookie_01="@ =~= cookie_prefix());
        }
        match find_str_idx(ck.as_str(), "cookie_01=") {
            Some(i) => {
                let e = scan_until_char(ck.as_str(), i + 10, ';');
                id_session = substr(ck.as_str(), i + 10, e);
            },
            None => {},
        }
        // the retained referer value
        let binding = Self::extract_header_value(&lines, "Referer:");
        proof {
            reveal_strlit("Referer:");
            assert("Referer:"@ =~= referer_key());
        }
        let rparts = split_char(binding.as_str(), ':');
        let mut reference = String::new();
        if rparts.len() > 1 {
            proof {
                assert(rparts.deep_view()[1] == rparts[1]@);
            }
            reference = rparts[1].clone();
        }
        let body_len = request.body.as_str().unicode_len();
        request.location = location;
        request.id_session = id_session;
        request.host = host;
        request.port = port;
        request.length = body_len;
        request.reference = reference;
        request.headers = hdrs;
    }
}


// ---------------------------------------------------------------------------
// Request assembly: specification
// ---------------------------------------------------------------------------
pub open spec fn get_word() -> Seq<char> {
    seq!['G', 'E', 'T']
}

pub open spec fn delete_word() -> Seq<char> {
    seq!['D', 'E', 'L', 'E', 'T', 'E']
}

pub open spec fn post_word() -> Seq<char> {
    seq!['P', 'O', 'S', 'T']
}

pub open spec fn filename_word() -> Seq<char> {
    seq!['f', 'i', 'l', 'e', 'n', 'a', 'm', 'e']
}

/// The split between header block and body: the first blank line.
pub open spec fn hdr_split(s: Seq<char>) -> Option<int> {
    find_idx(s, crlf2_c(), 0)
}

/// A digit string's value, falling back to zero when it does not fit the
/// machine.
pub open spec fn parse_or_zero(t: Seq<char>) -> int {
    if t.len() > 0 && all_digits(t) && parse_dec(t) <= usize::MAX {
        parse_dec(t)
    } else {
        0
    }
}

/// The declared length per the assembler's stricter scan (whitespace
/// required after the colon).
pub open spec fn strict_clen_val(hd: Seq<char>) -> Option<int> {
    match crate::clen_first(hd, 0, true) {
        Some(i) => Some(parse_or_zero(crate::clen_value_at(hd, i))),
        None => None,
    }
}

/// The request is refused before its body is read: its declared length
/// exceeds the global limit.
pub open spec fn oversize_req(hd: Seq<char>, size_limit: int) -> bool {
    match strict_clen_val(hd) {
        Some(v) => v > size_limit * 1024,
        None => false,
    }
}

/// The declared length that the assembler records: the lax scan's digits,
/// when they fit the machine.
pub open spec fn lax_clen_val(hd: Seq<char>) -> Option<int> {
    match crate::clen_first(hd, 0, false) {
        Some(i) => {
            let t = crate::clen_value_at(hd, i);
            if t.len() > 0 && all_digits(t) && parse_dec(t) <= usize::MAX {
                Some(parse_dec(t))
            } else {
                None
            }
        },
        None => None,
    }
}

pub open spec fn no_parse_fields(r: Request) -> bool {
    &&& r.location@.len() == 0
    &&& r.host@.len() == 0
    &&& r.port == 0
    &&& r.id_session@.len() == 0
    &&& r.reference@.len() == 0
    &&& r.headers@.len() == 0
}

pub open spec fn parsed_fields_ok(hd: Seq<char>, r: Request) -> bool {
    &&& r.location@ == location_of(hd)
    &&& r.host@ == host_of(hd)
    &&& r.port == port_of(hd)
    &&& r.id_session@ == session_of(hd)
    &&& r.reference@ == referer_of(hd)
    &&& r.headers.deep_view() == headers_of(hd)
}

pub open spec fn empty_payload(r: Request) -> bool {
    &&& r.body@.len() == 0
    &&& r.body_byte@.len() == 0
    &&& r.content_length is None
    &&& r.boundary is None
    &&& r.filename@.len() == 0
    &&& r.content_type@.len() == 0
}

/// What `read_request` assembles from one drained read.
pub open spec fn assembled(text: Seq<char>, bytes: Seq<u8>, size_limit: int, r: Request) -> bool {
    let is_get = occurs_at(text, get_word(), 0);
    let is_delete = occurs_at(text, delete_word(), 0);
    let is_post = occurs_at(text, post_word(), 0);
    if !is_get && !is_delete && !is_post {
        // a continuation fragment: kept whole for the merge step
        &&& r.body@ == text
        &&& r.body_byte@ == bytes
        &&& r.method@.len() == 0
        &&& !r.complete
        &&& r.head@.len() == 0
        &&& r.length == 0
        &&& no_parse_fields(r)
        &&& r.content_length is None
        &&& r.boundary is None
    } else {
        &&& r.method@ == if is_get {
            get_word()
        } else if is_delete {
            delete_word()
        } else {
            post_word()
        }
        &&& match hdr_split(text) {
            None => {
                &&& r.complete == (is_get || is_delete)
                &&& r.head@ == if is_get || is_delete {
                    text
                } else {
                    Seq::<char>::empty()
                }
                &&& no_parse_fields(r)
                &&& empty_payload(r)
                &&& r.length == 0
            },
            Some(h) => {
                let hd = text.subrange(0, h);
                &&& parsed_fields_ok(hd, r)
                &&& if is_get {
                    &&& r.complete
                    &&& r.head@ == text
                    &&& empty_payload(r)
                    &&& r.length == 0
                } else {
                    &&& r.head@ == hd
                    &&& if oversize_req(hd, size_limit) {
                        &&& r.complete
                        &&& r.length == strict_clen_val(hd).unwrap()
                        &&& empty_payload(r)
                    } else {
                        let body = text.subrange(h + 4, text.len() as int);
                        &&& r.body@ == body
                        &&& r.body_byte@ == bytes
                        &&& r.length == 0
                        &&& match lax_clen_val(hd) {
                            Some(v) => r.content_length matches Some(cl) && cl as int == v,
                            None => r.content_length is None,
                        }
                        &&& r.complete == (is_delete || (lax_clen_val(hd) matches Some(v)
                            && body.len() >= v))
                        &&& match crate::boundary_of(text) {
                            Some(b) => r.boundary matches Some(rb) && rb@ == b,
                            None => r.boundary is None,
                        }
                        &&& r.filename@ == quoted_field_spec(body, filename_word())
                        &&& r.content_type@ == content_type_of_body(body)
                    }
                }
            },
        }
    }
}

fn ct_of_body(b: &str) -> (r: String)
    ensures
        r@ == content_type_of_body(b@),
{
    proof {
        reveal_strlit("Content-Type:");
        assert("Content-Type:"@ =~= ct_key());
    }
    let n = b.unicode_len();
    match find_str_idx(b, "Content-Type:") {
        Some(i) => {
            let w = scan_ws(b, i + 13);
            proof {
                crate::text::lemma_run_end(b@, i + 13, ws_p());
            }
            let e = scan_ct_stop(b, w);
            substr(b, w, e)
        },
        None => String::new(),
    }
}

/// End of the run of characters that continue a `Content-Type` value.
fn scan_ct_stop(s: &str, i: usize) -> (r: usize)
    requires
        i <= s@.len(),
    ensures
        r == run_end(s@, i as int, ct_stop_p()),
        i <= r <= s@.len(),
{
    let ghost p = ct_stop_p();
    let n = s.unicode_len();
    let mut j: usize = i;
    #[verifier::loop_isolation(false)]
    while j < n && s.get_char(j) != ';' && s.get_char(j) != '\r'
        invariant
            i <= j <= n,
            run_end(s@, i as int, p) == run_end(s@, j as int, p),
        decreases n - j,
    {
        j = j + 1;
    }
    proof {
        crate::text::lemma_run_end(s@, i as int, p);
    }
    j
}

impl Request {
    /// Assembles a request from one drained read: the text and byte views of
    /// what arrived, judged against the global size limit.
    pub fn read_request(text: &str, bytes: &Vec<u8>, size_limit: usize) -> (r: Request)
        ensures
            assembled(text@, bytes@, size_limit as int, r),
    {
        let mut request = Request::default();
        proof {
            reveal_strlit("GET");
            reveal_strlit("DELETE");
            reveal_strlit("POST");
            assert("GET"@ =~= get_word());
            assert("DELETE"@ =~= delete_word());
            assert("POST"@ =~= post_word());
        }
        let is_get = starts_with_str(text, "GET");
        let is_delete = starts_with_str(text, "DELETE");
        let is_post = starts_with_str(text, "POST");
        if is_get || is_delete {
            request.complete = true;
            request.method = if is_get {
                "GET".to_owned()
            } else {
                "DELETE".to_owned()
            };
            request.head = text.to_owned();
        } else if is_post {
            request.method = "POST".to_owned();
        } else {
            request.body = text.to_owned();
            request.body_byte = crate::bytes::bytes_range(bytes.as_slice(), 0, bytes.len());
            proof {
                assert(bytes@.subrange(0, bytes@.len() as int) =~= bytes@);
            }
            return request;
        }
        proof {
            reveal_strlit("\r\n\r\n");
            assert("\r\n\r\n"@ =~= crlf2_c());
        }
        let h = match find_str_idx(text, "\r\n\r\n") {
            None => {
                return request;
            },
            Some(h) => h,
        };
        let n = text.unicode_len();
        let hd = substr(text, 0, h);
        Request::parse_http_request(hd.as_str(), &mut request);
        if is_post || is_delete {
            request.head = hd.clone();
            match crate::find_content_length(hd.as_str(), true) {
                Some(digits) => {
                    let v = match parse_usize(digits.as_str()) {
                        Some(v) => v,
                        None => 0,
                    };
                    if (v as u128) > (size_limit as u128) * 1024 {
                        request.complete = true;
                        request.length = v;
                        return request;
                    }
                },
                None => {},
            }
            let body = substr(text, h + 4, n);
            request.body_byte = crate::bytes::bytes_range(bytes.as_slice(), 0, bytes.len());
            proof {
                assert(bytes@.subrange(0, bytes@.len() as int) =~= bytes@);
            }
            match crate::get_content_length(&hd) {
                Some(cs) => {
                    match parse_usize(cs.as_str()) {
                        Some(val) => {
                            request.content_length = Some(val);
                            if body.as_str().unicode_len() >= val {
                                request.complete = true;
                            }
                        },
                        None => {},
                    }
                },
                None => {},
            }
            let full = text.to_owned();
            request.boundary = crate::get_boundary(&full);
            proof {
                reveal_strlit("filename");
                assert("filename"@ =~= filename_word());
            }
            request.filename = extract_quoted_field(body.as_str(), "filename");
            request.content_type = ct_of_body(body.as_str());
            request.body = body;
        }
        request
    }
}

} // verus!
