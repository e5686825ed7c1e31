//! Sessions: a server-side record of a cookie value and its expiration.
use vstd::prelude::*;

use crate::num::{dec_rep, int_dec};
use crate::outside::now_millis;
use crate::text::{neq_p, run_end, scan_until_char, split_char, split_char_spec, substr};

verus! {

/// One session: an opaque token and the instant (milliseconds) at which it
/// lapses.
#[derive(Debug, Clone)]
pub struct Session {
    pub id: String,
    pub expiration_time: i64,
}

/// The outbound cookie line for a session.
pub open spec fn cookie_line(name: Seq<char>, id: Seq<char>, expiration: i64) -> Seq<char> {
    "Set-Cookie: "@ + name + "="@ + id + "; Expires="@ + int_dec(expiration as int) + "\r\n"@
}

impl Session {
    pub fn new(id: String, expiration_time: i64) -> (s: Session)
        ensures
            s.id == id,
            s.expiration_time == expiration_time,
    {
        Session { id, expiration_time }
    }

    /// Whether the session has lapsed at the given instant.
    pub open spec fn expired_at(self, now: i64) -> bool {
        now >= self.expiration_time
    }

    pub fn is_expired_at(&self, now: i64) -> (r: bool)
        ensures
            r == self.expired_at(now),
    {
        now >= self.expiration_time
    }

    /// Whether the session has lapsed now; the clock decides, so nothing is
    /// promised of the result.
    pub fn is_expired(&self) -> bool {
        self.is_expired_at(now_millis())
    }

    /// The `Set-Cookie` header line carrying this session's identity.
    pub fn make_cookie(name: &str, id: &str, expiration: i64) -> (c: String)
        ensures
            c@ == cookie_line(name@, id@, expiration),
    {
        let mut c = "Set-Cookie: ".to_owned();
        c.append(name);
        c.append("=");
        c.append(id);
        c.append("; Expires=");
        if expiration >= 0 {
            c.append(dec_string_i128(expiration as i128).as_str());
        } else {
            c.append("-");
            let m: i128 = -(expiration as i128);
            c.append(dec_string_i128(m).as_str());
            proof {
                reveal_strlit("-");
                assert("-"@ =~= seq!['-']);
            }
        }
        c.append("\r\n");
        c
    }
}

/// The decimal representation of a non-negative number.
fn dec_string_i128(n: i128) -> (s: String)
    requires
        n >= 0,
    ensures
        s@ == dec_rep(n as nat),
    decreases n,
{
    if n < 10 {
        let mut s = String::new();
        s.push(digit_char_i128(n));
        proof {
            assert(s@ =~= dec_rep(n as nat));
        }
        s
    } else {
        let mut s = dec_string_i128(n / 10);
        s.push(digit_char_i128(n % 10));
        proof {
            assert(s@ =~= dec_rep((n / 10) as nat) + seq![crate::num::digit_of((n % 10) as int)]);
        }
        s
    }
}

fn digit_char_i128(d: i128) -> (c: char)
    requires
        0 <= d < 10,
    ensures
        c == crate::num::digit_of(d as int),
{
    match d {
        0 => '0',
        1 => '1',
        2 => '2',
        3 => '3',
        4 => '4',
        5 => '5',
        6 => '6',
        7 => '7',
        8 => '8',
        _ => '9',
    }
}


/// The session id the access log records: the `=`-value of the cookie
/// line's first `;`-separated part, when that part splits into exactly a
/// key and a value.
pub open spec fn cookie_user_spec(cookie: Seq<char>) -> Seq<char> {
    let first = cookie.subrange(0, run_end(cookie, 0, neq_p(';')));
    let parts = split_char_spec(first, '=');
    if parts.len() == 2 {
        parts[1]
    } else {
        Seq::<char>::empty()
    }
}

/// The logged session id of an outbound cookie line.
pub fn cookie_user(cookie: &str) -> (r: String)
    ensures
        r@ == cookie_user_spec(cookie@),
{
    let e = scan_until_char(cookie, 0, ';');
    let first = substr(cookie, 0, e);
    let parts = split_char(first.as_str(), '=');
    if parts.len() == 2 {
        proof {
            assert(parts.deep_view()[1] == parts[1 as int]@);
        }
        parts[1].clone()
    } else {
        String::new()
    }
}

} // verus!
