//! The router's state: servers, sessions, the pending-request queue and the
//! token counter.  The event loop around it owns the sockets; everything
//! here is a decision on plain values.
use vstd::prelude::*;

use crate::request::{delete_word, get_word, post_word, Request};
use crate::server::Server;
use crate::session::{cookie_line, Session};
use crate::text::{contains_seq, str_eq};

verus! {

/// A queued request never claims completeness for a declared POST body that
/// has not fully arrived.
pub open spec fn request_inv(r: Request) -> bool {
    match r.content_length {
        Some(cl) => (r.complete && r.method@ == post_word()) ==> r.body@.len() >= cl,
        None => true,
    }
}

pub open spec fn queue_wf(q: Seq<Request>) -> bool {
    forall|i: int| 0 <= i < q.len() ==> request_inv(#[trigger] q[i])
}

/// Law: whatever `read_request` assembles satisfies the queue invariant, so
/// every dispatched POST has its declared body.
pub proof fn lemma_assembled_inv(text: Seq<char>, bytes: Seq<u8>, size_limit: int, r: Request)
    requires
        crate::request::assembled(text, bytes, size_limit, r),
    ensures
        request_inv(r),
{
}

/// The router's verified core.
#[derive(Debug)]
pub struct Router {
    pub servers: Vec<Server>,
    pub sessions: Vec<(u64, Session)>,
    pub next_token: u64,
    pub request_queue: Vec<Request>,
}

/// The index of the first live session carrying this id.
pub open spec fn session_find(s: Seq<(u64, Session)>, id: Seq<char>, now: i64) -> Option<int>
    decreases s.len(),
{
    if s.len() == 0 {
        None
    } else if s[0].1.id@ == id && !s[0].1.expired_at(now) {
        Some(0)
    } else {
        match session_find(s.drop_first(), id, now) {
            Some(i) => Some(i + 1),
            None => None,
        }
    }
}

/// Whether this server answers for this request's host and port.
pub open spec fn server_match(s: Server, r: Request) -> bool {
    (s.ip_addr@ == r.host@ || s.hostname@ == r.host@) && s.ports@.contains(r.port)
}

/// A request may be dispatched once it is complete; GET always is.
pub open spec fn dispatchable(r: Request) -> bool {
    r.method@ == get_word() || r.complete
}

/// The first configured server that answers for the request.
pub open spec fn first_match_server(servers: Seq<Server>, r: Request) -> Option<int>
    decreases servers.len(),
{
    if servers.len() == 0 {
        None
    } else if server_match(servers[0], r) {
        Some(0)
    } else {
        match first_match_server(servers.drop_first(), r) {
            Some(i) => Some(i + 1),
            None => None,
        }
    }
}

/// The first queued request that is dispatchable and has a server.
pub open spec fn first_dispatch(q: Seq<Request>, servers: Seq<Server>) -> Option<int>
    decreases q.len(),
{
    if q.len() == 0 {
        None
    } else if dispatchable(q[0]) && first_match_server(servers, q[0]) is Some {
        Some(0)
    } else {
        match first_dispatch(q.drop_first(), servers) {
            Some(i) => Some(i + 1),
            None => None,
        }
    }
}

/// A fragment is merged into a pending request when that request still
/// waits for body bytes and its boundary occurs in the fragment.
pub open spec fn merge_eligible(r: Request, frag: Seq<char>) -> bool {
    &&& (r.method@ == post_word() || r.method@ == delete_word())
    &&& r.content_length matches Some(cl) && r.body@.len() < cl
    &&& r.boundary matches Some(b) && contains_seq(frag, b@)
}

/// All of a request except its assembly state, unchanged by the merge.
pub open spec fn same_but_assembly(a: Request, b: Request) -> bool {
    &&& a.id_session == b.id_session
    &&& a.content_type == b.content_type
    &&& a.content_length == b.content_length
    &&& a.location == b.location
    &&& a.host == b.host
    &&& a.port == b.port
    &&& a.method == b.method
    &&& a.head == b.head
    &&& a.filename == b.filename
    &&& a.length == b.length
    &&& a.reference == b.reference
    &&& a.boundary == b.boundary
    &&& a.headers == b.headers
    &&& a.timestamp == b.timestamp
}

/// How one queued request relates to its pre-merge self.
pub open spec fn merged_one(o: Request, n: Request, frag: Seq<char>, fragb: Seq<u8>) -> bool {
    if merge_eligible(o, frag) {
        &&& same_but_assembly(o, n)
        &&& n.body@ == o.body@ + frag
        &&& n.body_byte@ == o.body_byte@ + fragb
        &&& n.complete == (o.complete || n.body@.len() >= o.content_length.unwrap())
    } else {
        n == o
    }
}

pub open spec fn merged_queue(
    oldq: Seq<Request>,
    newq: Seq<Request>,
    frag: Seq<char>,
    fragb: Seq<u8>,
) -> bool {
    newq.len() == oldq.len() && forall|i: int|
        0 <= i < oldq.len() ==> merged_one(oldq[i], #[trigger] newq[i], frag, fragb)
}

impl Router {
    pub open spec fn wf(self) -> bool {
        queue_wf(self.request_queue@) && self.next_token >= 1000
    }

    pub fn new() -> (r: Self)
        ensures
            r.servers@ == Seq::<Server>::empty(),
            r.sessions@ == Seq::<(u64, Session)>::empty(),
            r.next_token == 1000,
            r.request_queue@ == Seq::<Request>::empty(),
            r.wf(),
    {
        Router {
            servers: Vec::new(),
            sessions: Vec::new(),
            next_token: 1000,
            request_queue: Vec::new(),
        }
    }

    /// Whether some registered server already uses this server's address.
    pub fn ip_addr_existe(&self, server: &Server) -> (r: bool)
        ensures
            r == exists|i: int|
                0 <= i < self.servers@.len() && (#[trigger] self.servers@[i]).ip_addr@
                    == server.ip_addr@,
    {
        let mut i: usize = 0;
        while i < self.servers.len()
            invariant
                0 <= i <= self.servers.len(),
                forall|j: int|
                    0 <= j < i ==> (#[trigger] self.servers@[j]).ip_addr@ != server.ip_addr@,
            decreases self.servers.len() - i,
        {
            if str_eq(self.servers[i].ip_addr.as_str(), server.ip_addr.as_str()) {
                return true;
            }
            i = i + 1;
        }
        false
    }

    /// The address a listener binds: the hostname when the IP is already in
    /// use by a registered server, else the IP, both trimmed.
    pub fn bind_host_choice(&self, server: &Server) -> (r: String)
        ensures
            r@ == if exists|i: int|
                0 <= i < self.servers@.len() && (#[trigger] self.servers@[i]).ip_addr@
                    == server.ip_addr@ {
                crate::text::trim_spec(server.hostname@)
            } else {
                crate::text::trim_spec(server.ip_addr@)
            },
    {
        if self.ip_addr_existe(server) {
            crate::text::trim_str(server.hostname.as_str())
        } else {
            crate::text::trim_str(server.ip_addr.as_str())
        }
    }

    /// A fresh listener token: the counter minus the client offset.
    pub fn listener_token(&mut self) -> (t: u64)
        requires
            old(self).wf(),
            old(self).next_token < u64::MAX,
        ensures
            t == old(self).next_token - 1000,
            final(self).next_token == old(self).next_token + 1,
            final(self).servers == old(self).servers,
            final(self).sessions == old(self).sessions,
            final(self).request_queue == old(self).request_queue,
            final(self).wf(),
    {
        let t = self.next_token - 1000;
        self.next_token = self.next_token + 1;
        t
    }

    /// A fresh client token.
    pub fn client_token(&mut self) -> (t: u64)
        requires
            old(self).wf(),
            old(self).next_token < u64::MAX,
        ensures
            t == old(self).next_token,
            final(self).next_token == old(self).next_token + 1,
            final(self).servers == old(self).servers,
            final(self).sessions == old(self).sessions,
            final(self).request_queue == old(self).request_queue,
            final(self).wf(),
    {
        let t = self.next_token;
        self.next_token = self.next_token + 1;
        t
    }

    /// Registers a server; its listeners are bound outside, one per port.
    pub fn add_server(&mut self, server: Server)
        requires
            old(self).wf(),
        ensures
            final(self).servers@ == old(self).servers@.push(server),
            final(self).sessions == old(self).sessions,
            final(self).next_token == old(self).next_token,
            final(self).request_queue == old(self).request_queue,
            final(self).wf(),
    {
        self.servers.push(server);
    }
}


/// The servers kept by `remove_server`: those differing in both address and
/// hostname.
pub open spec fn keep_other_servers(s: Seq<Server>, ip: Seq<char>, host: Seq<char>) -> Seq<Server>
    decreases s.len(),
{
    if s.len() == 0 {
        Seq::<Server>::empty()
    } else {
        let rest = keep_other_servers(s.drop_first(), ip, host);
        if s[0].ip_addr@ != ip && s[0].hostname@ != host {
            seq![s[0]] + rest
        } else {
            rest
        }
    }
}

impl Router {
    /// Unregisters every server sharing the given server's address or
    /// hostname; its listeners are closed outside.
    pub fn remove_server(&mut self, server: &Server)
        requires
            old(self).wf(),
        ensures
            final(self).servers@ == keep_other_servers(
                old(self).servers@,
                server.ip_addr@,
                server.hostname@,
            ),
            final(self).sessions == old(self).sessions,
            final(self).next_token == old(self).next_token,
            final(self).request_queue == old(self).request_queue,
            final(self).wf(),
    {
        let ghost orig = self.servers@;
        let mut out: Vec<Server> = Vec::new();
        proof {
            assert(out@ + keep_other_servers(orig, server.ip_addr@, server.hostname@)
                =~= keep_other_servers(orig, server.ip_addr@, server.hostname@));
        }
        #[verifier::loop_isolation(false)]
        while self.servers.len() > 0
            invariant
                keep_other_servers(orig, server.ip_addr@, server.hostname@) == out@
                    + keep_other_servers(self.servers@, server.ip_addr@, server.hostname@),
                self.sessions == old(self).sessions,
                self.next_token == old(self).next_token,
                self.request_queue == old(self).request_queue,
            decreases self.servers.len(),
        {
            let ghost pre = self.servers@;
            let s = self.servers.remove(0);
            proof {
                assert(pre.drop_first() =~= self.servers@);
            }
            let keep = !str_eq(s.ip_addr.as_str(), server.ip_addr.as_str()) && !str_eq(
                s.hostname.as_str(),
                server.hostname.as_str(),
            );
            if keep {
                out.push(s);
                proof {
                    assert(out@ + keep_other_servers(
                        self.servers@,
                        server.ip_addr@,
                        server.hostname@,
                    ) =~= keep_other_servers(orig, server.ip_addr@, server.hostname@));
                }
            }
        }
        proof {
            assert(keep_other_servers(self.servers@, server.ip_addr@, server.hostname@)
                =~= Seq::<Server>::empty());
            assert(out@ =~= keep_other_servers(orig, server.ip_addr@, server.hostname@));
        }
        self.servers = out;
    }

    /// Attaches a session to the current client (law of session freshness):
    /// a live session matching the cookie-supplied id is re-keyed to the
    /// client token, keeping that id; otherwise the freshly generated id is
    /// issued.  Returns the outbound cookie line.
    pub fn attach_session(
        &mut self,
        client_token: u64,
        cookie_id: &str,
        fresh_id: String,
        expiration: i64,
        now: i64,
    ) -> (cookie: String)
        ensures
            final(self).servers == old(self).servers,
            final(self).next_token == old(self).next_token,
            final(self).request_queue == old(self).request_queue,
            ({
                let found = session_find(old(self).sessions@, cookie_id@, now);
                if cookie_id@.len() > 0 && found is Some {
                    let k = found.unwrap();
                    let kept = old(self).sessions@[k].1.id@;
                    &&& kept == cookie_id@
                    &&& final(self).sessions@ =~= old(self).sessions@.remove(k).push(
                        (client_token, Session { id: old(self).sessions@[k].1.id, expiration_time: expiration }),
                    )
                    &&& cookie@ == cookie_line("cookie_01"@, cookie_id@, expiration)
                } else {
                    &&& final(self).sessions@ =~= old(self).sessions@.push(
                        (client_token, Session { id: fresh_id, expiration_time: expiration }),
                    )
                    &&& cookie@ == cookie_line("cookie_01"@, fresh_id@, expiration)
                }
            }),
    {
        let ghost sess0 = self.sessions@;
        let n = cookie_id.unicode_len();
        if n > 0 {
            let mut i: usize = 0;
            proof {
                assert(sess0.subrange(0, sess0.len() as int) =~= sess0);
            }
            #[verifier::loop_isolation(false)]
            while i < self.sessions.len()
                invariant
                    0 <= i <= self.sessions.len(),
                    sess0 == self.sessions@,
                    self.servers == old(self).servers,
                    self.next_token == old(self).next_token,
                    self.request_queue == old(self).request_queue,
                    session_find(sess0, cookie_id@, now) == map_shift(
                        session_find(
                            sess0.subrange(i as int, sess0.len() as int),
                            cookie_id@,
                            now,
                        ),
                        i as int,
                    ),
                decreases self.sessions.len() - i,
            {
                let ghost rem = sess0.subrange(i as int, sess0.len() as int);
                proof {
                    assert(rem[0] == sess0[i as int]);
                    assert(rem.drop_first() =~= sess0.subrange(i + 1, sess0.len() as int));
                }
                let live = !self.sessions[i].1.is_expired_at(now);
                if str_eq(self.sessions[i].1.id.as_str(), cookie_id) && live {
                    let entry = self.sessions.remove(i);
                    let kept_id = entry.1.id;
                    let s = Session::new(kept_id, expiration);
                    self.sessions.push((client_token, s));
                    let c = Session::make_cookie("cookie_01", cookie_id, expiration);
                    proof {
                        assert(session_find(sess0, cookie_id@, now) == Some(i as int));
                        assert(self.sessions@ =~= sess0.remove(i as int).push(
                            (client_token, Session { id: sess0[i as int].1.id, expiration_time: expiration }),
                        ));
                    }
                    return c;
                }
                i = i + 1;
            }
            proof {
                assert(sess0.subrange(self.sessions.len() as int, sess0.len() as int)
                    =~= Seq::<(u64, Session)>::empty());
            }
        }
        let s = Session::new(fresh_id.clone(), expiration);
        self.sessions.push((client_token, s));
        Session::make_cookie("cookie_01", fresh_id.as_str(), expiration)
    }

    /// The merge step: appends the fragment to every pending request that
    /// still waits for body bytes and whose boundary occurs in it, flipping
    /// completeness when the declared length is reached.
    pub fn merge_fragment(&mut self, frag_body: &str, frag_bytes: &Vec<u8>)
        requires
            old(self).wf(),
        ensures
            final(self).wf(),
            final(self).servers == old(self).servers,
            final(self).sessions == old(self).sessions,
            final(self).next_token == old(self).next_token,
            merged_queue(
                old(self).request_queue@,
                final(self).request_queue@,
                frag_body@,
                frag_bytes@,
            ),
    {
        let ghost q0 = self.request_queue@;
        let mut i: usize = 0;
        proof {
            reveal_strlit("POST");
            reveal_strlit("DELETE");
            assert("POST"@ =~= post_word());
            assert("DELETE"@ =~= delete_word());
        }
        #[verifier::loop_isolation(false)]
        while i < self.request_queue.len()
            invariant
                0 <= i <= self.request_queue.len(),
                self.request_queue@.len() == q0.len(),
                self.servers == old(self).servers,
                self.sessions == old(self).sessions,
                self.next_token == old(self).next_token,
                forall|j: int|
                    0 <= j < i ==> merged_one(
                        q0[j],
                        #[trigger] self.request_queue@[j],
                        frag_body@,
                        frag_bytes@,
                    ),
                forall|j: int| i <= j < q0.len() ==> #[trigger] self.request_queue@[j] == q0[j],
            decreases self.request_queue.len() - i,
        {
            let is_post = str_eq(self.request_queue[i].method.as_str(), "POST");
            let is_delete = str_eq(self.request_queue[i].method.as_str(), "DELETE");
            let mut eligible = false;
            if is_post || is_delete {
                let cl_opt = self.request_queue[i].content_length;
                match cl_opt {
                    Some(cl) => {
                        if self.request_queue[i].body.as_str().unicode_len() < cl {
                            match &self.request_queue[i].boundary {
                                Some(b) => {
                                    if crate::text::contains_str(frag_body, b.as_str()) {
                                        eligible = true;
                                    }
                                },
                                None => {},
                            }
                        }
                    },
                    None => {},
                }
            }
            proof {
                assert(eligible == merge_eligible(q0[i as int], frag_body@));
            }
            if eligible {
                let ghost qpre = self.request_queue@;
                let mut r = self.request_queue.remove(i);
                r.body.append(frag_body);
                let mut bb = r.body_byte;
                let mut extra = crate::bytes::bytes_range(frag_bytes.as_slice(), 0, frag_bytes.len());
                proof {
                    assert(extra@ =~= frag_bytes@);
                }
                bb.append(&mut extra);
                r.body_byte = bb;
                let cl = match r.content_length {
                    Some(cl) => cl,
                    None => 0,
                };
                if r.body.as_str().unicode_len() >= cl {
                    r.complete = true;
                }
                self.request_queue.insert(i, r);
                proof {
                    assert(self.request_queue@ =~= qpre.update(i as int, r));
                    assert(merged_one(q0[i as int], r, frag_body@, frag_bytes@));
                    assert forall|j: int|
                        0 <= j < q0.len() implies j == i || #[trigger] self.request_queue@[j]
                        == qpre[j] by {}
                }
            }
            i = i + 1;
        }
    }

    /// The queue policy: a recognized method is queued; anything else is a
    /// continuation fragment, consumed entirely by the merge step.
    pub fn enqueue_or_merge(&mut self, req: Request)
        requires
            old(self).wf(),
            request_inv(req),
        ensures
            final(self).wf(),
            final(self).servers == old(self).servers,
            final(self).sessions == old(self).sessions,
            final(self).next_token == old(self).next_token,
            (req.method@ == get_word() || req.method@ == post_word() || req.method@
                == delete_word()) ==> final(self).request_queue@ == old(
                self,
            ).request_queue@.push(req),
            !(req.method@ == get_word() || req.method@ == post_word() || req.method@
                == delete_word()) ==> merged_queue(
                old(self).request_queue@,
                final(self).request_queue@,
                req.body@,
                req.body_byte@,
            ),
    {
        proof {
            reveal_strlit("GET");
            reveal_strlit("POST");
            reveal_strlit("DELETE");
            assert("GET"@ =~= get_word());
            assert("POST"@ =~= post_word());
            assert("DELETE"@ =~= delete_word());
        }
        let m = req.method.as_str();
        if str_eq(m, "GET") || str_eq(m, "POST") || str_eq(m, "DELETE") {
            self.request_queue.push(req);
        } else {
            self.merge_fragment(req.body.as_str(), &req.body_byte);
        }
    }

    /// Takes the first dispatchable request that a server answers for, with
    /// that server's index.  Every request handed out is complete (or GET),
    /// and a complete POST carries at least its declared body.
    pub fn route_request(&mut self) -> (r: Option<(Request, usize)>)
        requires
            old(self).wf(),
        ensures
            final(self).wf(),
            final(self).servers == old(self).servers,
            final(self).sessions == old(self).sessions,
            final(self).next_token == old(self).next_token,
            match r {
                Some((req, sidx)) => {
                    &&& match first_dispatch(old(self).request_queue@, old(self).servers@) {
                        Some(i) => req == old(self).request_queue@[i]
                            && final(self).request_queue@ == old(self).request_queue@.remove(i),
                        None => false,
                    }
                    &&& first_match_server(old(self).servers@, req) == Some(sidx as int)
                    &&& sidx < old(self).servers@.len()
                    &&& server_match(old(self).servers@[sidx as int], req)
                    &&& dispatchable(req)
                    &&& req.method@ == get_word() || req.complete
                    &&& match req.content_length {
                        Some(cl) => (req.complete && req.method@ == post_word())
                            ==> req.body@.len() >= cl,
                        None => true,
                    }
                },
                None => first_dispatch(old(self).request_queue@, old(self).servers@) is None
                    && final(self).request_queue == old(self).request_queue,
            },
    {
        let ghost q0 = self.request_queue@;
        let ghost sv = self.servers@;
        proof {
            reveal_strlit("GET");
            assert("GET"@ =~= get_word());
            assert(q0.subrange(0, q0.len() as int) =~= q0);
        }
        let mut i: usize = 0;
        #[verifier::loop_isolation(false)]
        while i < self.request_queue.len()
            invariant
                0 <= i <= self.request_queue.len(),
                q0 == self.request_queue@,
                sv == self.servers@,
                self.servers == old(self).servers,
                self.sessions == old(self).sessions,
                self.next_token == old(self).next_token,
                self.request_queue == old(self).request_queue,
                first_dispatch(q0, sv) == map_shift(
                    first_dispatch(q0.subrange(i as int, q0.len() as int), sv),
                    i as int,
                ),
            decreases self.request_queue.len() - i,
        {
            let ghost rem = q0.subrange(i as int, q0.len() as int);
            proof {
                assert(rem[0] == q0[i as int]);
                assert(rem.drop_first() =~= q0.subrange(i + 1, q0.len() as int));
            }
            let can = str_eq(self.request_queue[i].method.as_str(), "GET")
                || self.request_queue[i].complete;
            if can {
                // look for a server answering for this request
                let mut j: usize = 0;
                let mut found: Option<usize> = None;
                proof {
                    assert(sv.subrange(0, sv.len() as int) =~= sv);
                }
                #[verifier::loop_isolation(false)]
                while j < self.servers.len() && found.is_none()
                    invariant
                        0 <= j <= self.servers.len(),
                        sv == self.servers@,
                        q0 == self.request_queue@,
                        0 <= i < q0.len(),
                        match found {
                            Some(k) => first_match_server(sv, q0[i as int]) == Some(k as int)
                                && k < sv.len() && server_match(sv[k as int], q0[i as int]),
                            None => first_match_server(sv, q0[i as int]) == map_shift(
                                first_match_server(
                                    sv.subrange(j as int, sv.len() as int),
                                    q0[i as int],
                                ),
                                j as int,
                            ),
                        },
                    decreases self.servers.len() - j,
                {
                    let ghost srem = sv.subrange(j as int, sv.len() as int);
                    proof {
                        assert(srem[0] == sv[j as int]);
                        assert(srem.drop_first() =~= sv.subrange(j + 1, sv.len() as int));
                    }
                    let s = &self.servers[j];
                    let ip_ok = str_eq(s.ip_addr.as_str(), self.request_queue[i].host.as_str())
                        || str_eq(s.hostname.as_str(), self.request_queue[i].host.as_str());
                    if ip_ok && port_listed(&s.ports, self.request_queue[i].port) {
                        found = Some(j);
                    }
                    j = j + 1;
                }
                proof {
                    if found is None {
                        assert(sv.subrange(sv.len() as int, sv.len() as int)
                            =~= Seq::<Server>::empty());
                    }
                }
                match found {
                    Some(k) => {
                        let req = self.request_queue.remove(i);
                        proof {
                            assert(first_dispatch(rem, sv) == Some(0int));
                            assert(first_dispatch(q0, sv) == Some(i as int));
                            assert forall|m: int|
                                0 <= m < self.request_queue@.len() implies request_inv(
                                #[trigger] self.request_queue@[m],
                            ) by {
                                if m < i {
                                    assert(self.request_queue@[m] == q0[m]);
                                } else {
                                    assert(self.request_queue@[m] == q0[m + 1]);
                                }
                            }
                        }
                        return Some((req, k));
                    },
                    None => {},
                }
            }
            i = i + 1;
        }
        proof {
            assert(q0.subrange(q0.len() as int, q0.len() as int) =~= Seq::<Request>::empty());
        }
        None
    }
}

/// Shifts an optional index by an offset.
pub open spec fn map_shift(o: Option<int>, off: int) -> Option<int> {
    match o {
        Some(i) => Some(i + off),
        None => None,
    }
}

/// Whether `port` is among the listed ports.
fn port_listed(ports: &Vec<u16>, port: u16) -> (r: bool)
    ensures
        r == ports@.contains(port),
{
    let mut i: usize = 0;
    while i < ports.len()
        invariant
            0 <= i <= ports.len(),
            forall|j: int| 0 <= j < i ==> ports@[j] != port,
        decreases ports.len() - i,
    {
        if ports[i] == port {
            proof {
                assert(ports@.contains(port));
            }
            return true;
        }
        i = i + 1;
    }
    proof {
        assert(!ports@.contains(port));
    }
    false
}

} // verus!
