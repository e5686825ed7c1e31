//! Response construction: one head builder for every response the server
//! writes, so that the `Content-Length` law holds of all of them.
use vstd::prelude::*;

use crate::num::{all_digits, dec_rep, dec_string, parse_dec};

verus! {

/// A response ready for the wire: the head is written first, the body bytes
/// follow it.
#[derive(Debug, Clone)]
pub struct HttpResponse {
    pub status: u16,
    pub head: String,
    pub body: Vec<u8>,
}

/// Everything of a head before its `Content-Length` field.
pub open spec fn head_prefix(status: u16, reason: Seq<char>, mid: Seq<char>) -> Seq<char> {
    "HTTP/1.1 "@ + dec_rep(status as nat) + " "@ + reason + "\r\n"@ + mid
}

/// A full head: status line, the per-shape middle headers, and the
/// `Content-Length` field for a body of `n` bytes.
pub open spec fn head_spec(status: u16, reason: Seq<char>, mid: Seq<char>, n: nat) -> Seq<char> {
    head_prefix(status, reason, mid) + "Content-Length: "@ + dec_rep(n) + "\r\n\r\n"@
}

/// A well-formed response: its head is the canonical head for its status and
/// its own body length.
pub open spec fn response_wf(r: HttpResponse, reason: Seq<char>, mid: Seq<char>) -> bool {
    r.head@ == head_spec(r.status, reason, mid, r.body@.len())
}

/// Law: every head built for a body of `n` bytes ends with a
/// `Content-Length` field whose decimal digits read back as exactly `n` —
/// the written `Content-Length` equals the byte length of the body that
/// follows the head.
pub proof fn lemma_content_length_exact(status: u16, reason: Seq<char>, mid: Seq<char>, n: nat)
    ensures
        head_spec(status, reason, mid, n) == head_prefix(status, reason, mid)
            + "Content-Length: "@ + dec_rep(n) + "\r\n\r\n"@,
        all_digits(dec_rep(n)),
        parse_dec(dec_rep(n)) == n,
{
    crate::num::lemma_dec_rep_digits(n);
    crate::num::lemma_dec_rep_value(n);
}

/// Builds the canonical head for the given status, reason, middle headers
/// and body length.
pub fn build_head(status: u16, reason: &str, mid: &str, body_len: usize) -> (h: String)
    ensures
        h@ == head_spec(status, reason@, mid@, body_len as nat),
{
    let mut h = "HTTP/1.1 ".to_owned();
    h.append(dec_string(status as usize).as_str());
    h.append(" ");
    h.append(reason);
    h.append("\r\n");
    h.append(mid);
    h.append("Content-Length: ");
    h.append(dec_string(body_len).as_str());
    h.append("\r\n\r\n");
    h
}

/// Builds a whole response around the given body.
pub fn build_response(status: u16, reason: &str, mid: &str, body: Vec<u8>) -> (r: HttpResponse)
    ensures
        r.status == status,
        r.body == body,
        response_wf(r, reason@, mid@),
{
    let head = build_head(status, reason, mid, body.len());
    HttpResponse { status, head, body }
}


/// The middle headers of a static-file response.
pub open spec fn file_mid(ct: Seq<char>, pdf_inline: bool, cookie: Seq<char>) -> Seq<char> {
    "Content-Type: "@ + ct + (if pdf_inline {
        "\r\nContent-Disposition: inline"@
    } else {
        Seq::<char>::empty()
    }) + "\r\nConnection: keep-alive\r\n"@ + cookie
}

/// The middle headers of a rendered-page response (listing pages carry the
/// cookie, error pages do not).
pub open spec fn html_mid(cookie: Seq<char>) -> Seq<char> {
    "Content-Type: text/html\r\nConnection: keep-alive\r\n"@ + cookie
}

/// The middle headers of a plain redirect.
pub open spec fn redirect_mid(location: Seq<char>) -> Seq<char> {
    "Location: "@ + location + "\r\nConnection: keep-alive\r\n"@
}

/// The middle headers of a redirect that follows a completed action.
pub open spec fn action_redirect_mid(location: Seq<char>) -> Seq<char> {
    "Location: "@ + location
        + "\r\nConnection: keep-alive\r\nCache-Control: no-cache, no-store, must-revalidate\r\nPragma: no-cache\r\nExpires: 0\r\n"@
}

/// A redirect with no body: `Location` names the target and the declared
/// length is zero.
pub fn redirect_response(code: u16, reason: &str, location: &str) -> (r: HttpResponse)
    ensures
        r.status == code,
        r.body@.len() == 0,
        r.head@ == head_spec(code, reason@, redirect_mid(location@), 0),
{
    let mut mid = "Location: ".to_owned();
    mid.append(location);
    mid.append("\r\nConnection: keep-alive\r\n");
    let r = build_response(code, reason, mid.as_str(), Vec::new());
    proof {
        assert(mid@ =~= redirect_mid(location@));
        assert(r.body@.len() == 0);
    }
    r
}

/// The redirect written after an upload, folder creation or deletion.
pub fn action_redirect_response(code: u16, location: &str) -> (r: HttpResponse)
    ensures
        r.status == code,
        r.body@.len() == 0,
        r.head@ == head_spec(code, "Found"@, action_redirect_mid(location@), 0),
{
    let mut mid = "Location: ".to_owned();
    mid.append(location);
    mid.append(
        "\r\nConnection: keep-alive\r\nCache-Control: no-cache, no-store, must-revalidate\r\nPragma: no-cache\r\nExpires: 0\r\n",
    );
    let r = build_response(code, "Found", mid.as_str(), Vec::new());
    proof {
        assert(mid@ =~= action_redirect_mid(location@));
        assert(r.body@.len() == 0);
    }
    r
}

/// An error page around the rendered template body.
pub fn error_page_response(code: u16, status: &str, body: Vec<u8>) -> (r: HttpResponse)
    ensures
        r.status == code,
        r.body == body,
        r.head@ == head_spec(code, status@, html_mid(Seq::<char>::empty()), body@.len() as nat),
{
    let r = build_response(code, status, "Content-Type: text/html\r\nConnection: keep-alive\r\n", body);
    proof {
        assert("Content-Type: text/html\r\nConnection: keep-alive\r\n"@ =~= html_mid(
            Seq::<char>::empty(),
        ));
    }
    r
}

/// A directory-listing page around the rendered template body.
pub fn listing_response(cookie: &str, body: Vec<u8>) -> (r: HttpResponse)
    ensures
        r.status == 200,
        r.body == body,
        r.head@ == head_spec(200, "OK"@, html_mid(cookie@), body@.len() as nat),
{
    let mut mid = "Content-Type: text/html\r\nConnection: keep-alive\r\n".to_owned();
    mid.append(cookie);
    let ghost m = mid@;
    let r = build_response(200, "OK", mid.as_str(), body);
    proof {
        assert(m =~= html_mid(cookie@));
    }
    r
}

/// A static-file (or script output) response.
pub fn file_response(content_type: &str, pdf_inline: bool, cookie: &str, content: Vec<u8>) -> (r:
    HttpResponse)
    ensures
        r.status == 200,
        r.body == content,
        r.head@ == head_spec(
            200,
            "OK"@,
            file_mid(content_type@, pdf_inline, cookie@),
            content@.len() as nat,
        ),
{
    let mut mid = "Content-Type: ".to_owned();
    mid.append(content_type);
    if pdf_inline {
        mid.append("\r\nContent-Disposition: inline");
    }
    mid.append("\r\nConnection: keep-alive\r\n");
    mid.append(cookie);
    let ghost m = mid@;
    let r = build_response(200, "OK", mid.as_str(), content);
    proof {
        assert(m =~= file_mid(content_type@, pdf_inline, cookie@));
    }
    r
}

} // verus!
