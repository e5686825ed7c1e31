//! The virtual-server descriptor: per-host policy and the request handler's
//! decisions.
use vstd::prelude::*;

use crate::text::{find_idx, find_str_idx, neq_p, occurs_at, run_end, substr};
use crate::request::Request;
use crate::Redirection;

verus! {

/// One virtual server: an (ip, hostname, ports) binding together with its
/// filesystem root and per-host policy.
#[derive(Debug, Clone)]
pub struct Server {
    pub ip_addr: String,
    pub hostname: String,
    pub ports: Vec<u16>,
    pub root_directory: String,
    pub error_path: String,
    pub default_file: String,
    pub upload_limit: u32,
    pub accepted_methods: Vec<String>,
    pub directory_listing: bool,
    pub redirections: Vec<Redirection>,
    pub exclusion: Vec<String>,
}

impl Server {
    pub fn new(
        ip_addr: String,
        hostname: String,
        ports: Vec<u16>,
        root_directory: String,
        error_path: String,
        default_file: String,
        upload_limit: u32,
        accepted_methods: Vec<String>,
        directory_listing: bool,
        redirections: Vec<Redirection>,
        exclusion: Vec<String>,
    ) -> (r: Self)
        ensures
            r.ip_addr == ip_addr,
            r.hostname == hostname,
            r.ports == ports,
            r.root_directory == root_directory,
            r.error_path == error_path,
            r.default_file == default_file,
            r.upload_limit == upload_limit,
            r.accepted_methods == accepted_methods,
            r.directory_listing == directory_listing,
            r.redirections == redirections,
            r.exclusion == exclusion,
    {
        Self {
            ip_addr,
            hostname,
            ports,
            root_directory,
            error_path,
            default_file,
            upload_limit,
            accepted_methods,
            directory_listing,
            redirections,
            exclusion,
        }
    }
}


// ---------------------------------------------------------------------------
// Path cleaning and resolution
// ---------------------------------------------------------------------------
/// The asset redirection of `check_and_clean_path`: cut to the suffix from
/// `/images/` (looked for first) or `/css/`; otherwise drop the leading
/// slash.
pub open spec fn clean_path_spec(path: Seq<char>) -> Seq<char> {
    match find_idx(path, "/images/"@, 0) {
        Some(i) => path.subrange(i, path.len() as int),
        None => match find_idx(path, "/css/"@, 0) {
            Some(i) => path.subrange(i, path.len() as int),
            None => if path.len() > 0 && path[0] == '/' {
                path.subrange(1, path.len() as int)
            } else {
                path
            },
        },
    }
}

/// A path that `check_and_clean_path` accepts: it holds an asset marker or
/// leads with a slash.
pub open spec fn location_ok(path: Seq<char>) -> bool {
    find_idx(path, "/images/"@, 0) is Some || find_idx(path, "/css/"@, 0) is Some || (path.len()
        > 0 && path[0] == '/')
}

pub open spec fn remove_suffix_spec(s: Seq<char>, suffix: Seq<char>) -> Seq<char> {
    if suffix.len() <= s.len() && s.subrange(s.len() - suffix.len(), s.len() as int) == suffix {
        s.subrange(0, s.len() - suffix.len())
    } else {
        s
    }
}

pub open spec fn remove_prefix_spec(s: Seq<char>, prefix: Seq<char>) -> Seq<char> {
    if prefix.len() <= s.len() && s.subrange(0, prefix.len() as int) == prefix {
        s.subrange(prefix.len() as int, s.len() as int)
    } else {
        s
    }
}

pub open spec fn contains_char(s: Seq<char>, c: char) -> bool {
    run_end(s, 0, neq_p(c)) < s.len()
}

/// Which (cleaned path, content directory) a request resolves to.
pub open spec fn resolved_parts(
    root: Seq<char>,
    location: Seq<char>,
    method: Seq<char>,
    is_dir: bool,
) -> (Seq<char>, Seq<char>) {
    let listing_case = is_dir && !contains_char(location, '?') && method
        == crate::request::get_word();
    let lp = if listing_case {
        "/index.html"@
    } else {
        clean_path_spec(location)
    };
    let dp = if listing_case {
        "src/static_files"@
    } else {
        root
    };
    let dp2 = if find_idx(lp, "/images"@, 0) is Some || find_idx(lp, "/css"@, 0) is Some {
        "src/static_files"@
    } else {
        dp
    };
    (lp, dp2)
}

/// The physical path a request resolves to.
pub open spec fn resolved_spec(
    root: Seq<char>,
    location: Seq<char>,
    method: Seq<char>,
    is_dir: bool,
) -> Seq<char> {
    let (lp, dp) = resolved_parts(root, location, method, is_dir);
    "./"@ + remove_suffix_spec(dp, "/"@) + "/"@ + remove_prefix_spec(lp, "/"@)
}

/// A parent-directory segment: the one path component that can escape a
/// root textually.
pub open spec fn dotdot() -> Seq<char> {
    seq!['.', '.']
}

/// A pattern absent from a text is absent from every subrange of it.
proof fn lemma_subrange_no_occ(s: Seq<char>, pat: Seq<char>, a: int, b: int)
    requires
        0 <= a <= b <= s.len(),
        forall|i: int| !occurs_at(s, pat, i),
    ensures
        forall|i: int| !occurs_at(s.subrange(a, b), pat, i),
{
    let t = s.subrange(a, b);
    assert forall|i: int| !occurs_at(t, pat, i) by {
        if 0 <= i && i + pat.len() <= t.len() {
            assert(t.subrange(i, i + pat.len()) =~= s.subrange(a + i, a + i + pat.len()));
            assert(!occurs_at(s, pat, a + i));
        }
    }
}

/// The resolved path written as the content root or the static-assets root
/// followed by `suffix`.
pub open spec fn sandboxed_under(
    root: Seq<char>,
    location: Seq<char>,
    method: Seq<char>,
    is_dir: bool,
    suffix: Seq<char>,
) -> bool {
    resolved_spec(root, location, method, is_dir) == "./"@ + remove_suffix_spec(root, "/"@)
        + "/"@ + suffix || resolved_spec(root, location, method, is_dir) == "./"@
        + "src/static_files"@ + "/"@ + suffix
}

/// The sandbox form together with cleanliness: a location free of `..`
/// resolves to a suffix free of `..`, so the path cannot climb out of its
/// root.
pub open spec fn sandboxed_clean(
    root: Seq<char>,
    location: Seq<char>,
    method: Seq<char>,
    is_dir: bool,
    suffix: Seq<char>,
) -> bool {
    sandboxed_under(root, location, method, is_dir, suffix) && ((forall|i: int|
        !occurs_at(location, dotdot(), i)) ==> (forall|i: int| !occurs_at(suffix, dotdot(), i)))
}

/// Law (path sandbox): every resolved physical path lies textually under
/// the server's content root or under the shared static-assets root, and a
/// location without `..` yields a suffix without `..` (the handler refuses
/// locations carrying `..` before resolving them).
pub proof fn lemma_path_sandbox(
    root: Seq<char>,
    location: Seq<char>,
    method: Seq<char>,
    is_dir: bool,
)
    ensures
        exists|suffix: Seq<char>| #[trigger] sandboxed_clean(root, location, method, is_dir, suffix),
{
    let (lp, dp) = resolved_parts(root, location, method, is_dir);
    let suffix = remove_prefix_spec(lp, "/"@);
    if dp == "src/static_files"@ {
        assert(remove_suffix_spec(dp, "/"@) == dp) by {
            reveal_strlit("src/static_files");
            reveal_strlit("/");
            if "/"@.len() <= dp.len() && dp.subrange(dp.len() - 1, dp.len() as int) == "/"@ {
                assert(dp.subrange(dp.len() - 1, dp.len() as int)[0] == dp[dp.len() - 1]);
                assert("/"@[0] == '/');
            }
        }
        assert(sandboxed_under(root, location, method, is_dir, suffix));
    } else {
        assert(sandboxed_under(root, location, method, is_dir, suffix));
    }
    if forall|i: int| !occurs_at(location, dotdot(), i) {
        lemma_clean_path_no_dotdot(location);
        lemma_index_html_no_dotdot();
        assert(lp == clean_path_spec(location) || lp == "/index.html"@);
        assert(forall|i: int| !occurs_at(lp, dotdot(), i));
        reveal_strlit("/");
        if "/"@.len() <= lp.len() && lp.subrange(0, "/"@.len() as int) == "/"@ {
            lemma_subrange_no_occ(lp, dotdot(), "/"@.len() as int, lp.len() as int);
            assert(suffix == lp.subrange("/"@.len() as int, lp.len() as int));
        } else {
            assert(suffix == lp);
        }
        assert(forall|i: int| !occurs_at(suffix, dotdot(), i));
    }
    assert(sandboxed_clean(root, location, method, is_dir, suffix));
}

/// Cleaning a path introduces no `..`: every cleaned form is a subrange of
/// the location.
proof fn lemma_clean_path_no_dotdot(location: Seq<char>)
    requires
        forall|i: int| !occurs_at(location, dotdot(), i),
    ensures
        forall|i: int| !occurs_at(clean_path_spec(location), dotdot(), i),
{
    match find_idx(location, "/images/"@, 0) {
        Some(i) => {
            crate::text::lemma_find_idx_bounds(location, "/images/"@, 0);
            lemma_subrange_no_occ(location, dotdot(), i, location.len() as int);
        },
        None => match find_idx(location, "/css/"@, 0) {
            Some(i) => {
                crate::text::lemma_find_idx_bounds(location, "/css/"@, 0);
                lemma_subrange_no_occ(location, dotdot(), i, location.len() as int);
            },
            None => {
                if location.len() > 0 && location[0] == '/' {
                    lemma_subrange_no_occ(location, dotdot(), 1, location.len() as int);
                }
            },
        },
    }
}

/// The listing's default page name holds no `..`.
proof fn lemma_index_html_no_dotdot()
    ensures
        forall|i: int| !occurs_at("/index.html"@, dotdot(), i),
{
    reveal_strlit("/index.html");
    let t = "/index.html"@;
    assert forall|i: int| !occurs_at(t, dotdot(), i) by {
        if 0 <= i && i + 2 <= t.len() {
            assert(t.subrange(i, i + 2)[0] == t[i]);
            assert(t.subrange(i, i + 2)[1] == t[i + 1]);
        }
    }
}


/// Law (path sandbox, end to end): a file-serving plan only arises after
/// the traversal gate, so the served physical path is one of the two roots
/// plus a suffix that holds no `..` segment.
pub proof fn lemma_served_path_sandboxed(
    srv: Server,
    r: Request,
    size_limit: int,
    probe: FsProbe,
    plan: RequestPlan,
)
    requires
        plan_after_gates(srv, r, size_limit, probe, plan),
        plan matches RequestPlan::ServeFile { .. },
    ensures
        exists|suffix: Seq<char>|
            #[trigger] sandboxed_clean(
                srv.root_directory@,
                r.location@,
                r.method@,
                probe.location_is_dir,
                suffix,
            ) && (forall|i: int| !occurs_at(suffix, dotdot(), i)),
{
    assert(!crate::text::contains_seq(r.location@, dotdot()));
    assert forall|i: int| !occurs_at(r.location@, dotdot(), i) by {
        if occurs_at(r.location@, dotdot(), i) {
            assert(crate::text::contains_seq(r.location@, dotdot()));
        }
    }
    lemma_path_sandbox(srv.root_directory@, r.location@, r.method@, probe.location_is_dir);
    let s0 = choose|suffix: Seq<char>|
        #[trigger] sandboxed_clean(
            srv.root_directory@,
            r.location@,
            r.method@,
            probe.location_is_dir,
            suffix,
        );
    assert(forall|i: int| !occurs_at(s0, dotdot(), i));
}

impl Server {
    /// Cuts a URL path down to its static-asset suffix, or strips the
    /// leading slash.
    pub fn check_and_clean_path(path: &str) -> (r: String)
        requires
            location_ok(path@),
        ensures
            r@ == clean_path_spec(path@),
    {
        let n = path.unicode_len();
        match find_str_idx(path, "/images/") {
            Some(i) => substr(path, i, n),
            None => match find_str_idx(path, "/css/") {
                Some(i) => substr(path, i, n),
                None => substr(path, 1, n),
            },
        }
    }

    /// The physical path this server serves for the given request shape.
    pub fn resolve_path(&self, location: &str, method: &str, is_dir: bool) -> (r: String)
        requires
            location_ok(location@),
        ensures
            r@ == resolved_spec(self.root_directory@, location@, method@, is_dir),
    {
        proof {
            reveal_strlit("GET");
            assert("GET"@ =~= crate::request::get_word());
        }
        let has_q = {
            let q = crate::text::scan_until_char(location, 0, '?');
            q < location.unicode_len()
        };
        let listing_case = is_dir && !has_q && crate::text::str_eq(method, "GET");
        let lp: String;
        let mut dp: String;
        if listing_case {
            lp = "/index.html".to_owned();
            dp = "src/static_files".to_owned();
        } else {
            lp = Server::check_and_clean_path(location);
            dp = self.root_directory.clone();
        }
        let img = crate::text::find_str_idx(lp.as_str(), "/images");
        let css = crate::text::find_str_idx(lp.as_str(), "/css");
        let redirected = match img {
            Some(_) => true,
            None => match css {
                Some(_) => true,
                None => false,
            },
        };
        if redirected {
            dp = "src/static_files".to_owned();
        }
        let mut r = "./".to_owned();
        r.append(crate::remove_suffix(dp, "/").as_str());
        r.append("/");
        r.append(crate::remove_prefix(lp, "/").as_str());
        r
    }

    /// Whether the request's method is among the accepted ones,
    /// case-insensitively.
    pub fn method_allowed(&self, method: &str) -> (r: bool)
        ensures
            r == method_allowed_spec(self.accepted_methods.deep_view(), method@),
    {
        let ghost dv = self.accepted_methods.deep_view();
        let up = crate::text::to_upper_str(method);
        let mut i: usize = 0;
        while i < self.accepted_methods.len()
            invariant
                0 <= i <= self.accepted_methods.len(),
                dv == self.accepted_methods.deep_view(),
                up@ == crate::text::to_upper_spec(method@),
                forall|j: int|
                    0 <= j < i ==> crate::text::to_upper_spec(#[trigger] dv[j])
                        != crate::text::to_upper_spec(method@),
            decreases self.accepted_methods.len() - i,
        {
            let m = crate::text::to_upper_str(self.accepted_methods[i].as_str());
            proof {
                assert(dv[i as int] == self.accepted_methods[i as int]@);
            }
            if crate::text::str_eq(m.as_str(), up.as_str()) {
                return true;
            }
            i = i + 1;
        }
        false
    }
}

/// The method gate: some accepted method matches, ignoring ASCII case.
pub open spec fn method_allowed_spec(methods: Seq<Seq<char>>, m: Seq<char>) -> bool {
    exists|i: int|
        0 <= i < methods.len() && crate::text::to_upper_spec(#[trigger] methods[i])
            == crate::text::to_upper_spec(m)
}


// ---------------------------------------------------------------------------
// Directory listing
// ---------------------------------------------------------------------------
/// One entry of a directory listing, as the listing template receives it.
#[derive(Debug, Clone)]
pub struct DirectoryElement {
    pub entry: String,
    pub entry_type: String,
    pub link: String,
    pub is_directory: bool,
}

/// One raw directory entry as the filesystem reports it: its name relative
/// to the listed directory (with a leading slash), and whether it is a
/// directory.
#[derive(Debug, Clone)]
pub struct DirEntry {
    pub name: String,
    pub is_dir: bool,
}

/// The tag the listing template shows for an entry, derived from its
/// extension.
pub open spec fn entry_type_spec(entry_name: Seq<char>, is_dir: bool) -> Seq<char> {
    if is_dir {
        "folder"@
    } else {
        let parts = crate::text::split_char_spec(entry_name, '.');
        if parts.len() == 2 {
            let ext = parts[1];
            if ext == "rb"@ {
                "ruby"@
            } else if ext == "jpg"@ || ext == "jpeg"@ || ext == "png"@ {
                "image"@
            } else if ext == "txt"@ {
                "text"@
            } else if ext == "pdf"@ {
                "pdf"@
            } else {
                "file"@
            }
        } else {
            "file"@
        }
    }
}

pub open spec fn entry_views(s: Seq<DirEntry>) -> Seq<(Seq<char>, bool)> {
    s.map_values(|e: DirEntry| (e.name@, e.is_dir))
}

pub open spec fn element_views(s: Seq<DirectoryElement>) -> Seq<(Seq<char>, Seq<char>, Seq<
    char,
>, bool)> {
    s.map_values(|e: DirectoryElement| (e.entry@, e.entry_type@, e.link@, e.is_directory))
}

/// The listing kept for the template: entries that no exclusion pattern
/// matches, directories only when listing is enabled, each tagged and
/// linked.
pub open spec fn listing_spec(
    entries: Seq<(Seq<char>, bool)>,
    pats: Seq<Seq<char>>,
    listing: bool,
    location: Seq<char>,
) -> Seq<(Seq<char>, Seq<char>, Seq<char>, bool)>
    decreases entries.len(),
{
    if entries.len() == 0 {
        Seq::<(Seq<char>, Seq<char>, Seq<char>, bool)>::empty()
    } else {
        let (name, is_dir) = entries[0];
        let rest = listing_spec(entries.drop_first(), pats, listing, location);
        let kept = !crate::outside::regex_any_match(pats, name) && (!is_dir || listing);
        if kept {
            let entry_name = remove_prefix_spec(name, "/"@);
            seq![
                (entry_name, entry_type_spec(entry_name, is_dir), location + name, is_dir),
            ] + rest
        } else {
            rest
        }
    }
}

fn entry_type_of(entry_name: &str, is_dir: bool) -> (r: String)
    ensures
        r@ == entry_type_spec(entry_name@, is_dir),
{
    if is_dir {
        return "folder".to_owned();
    }
    let parts = crate::text::split_char(entry_name, '.');
    if parts.len() == 2 {
        proof {
            assert(parts.deep_view()[1] == parts[1 as int]@);
        }
        let ext = parts[1].as_str();
        if crate::text::str_eq(ext, "rb") {
            "ruby".to_owned()
        } else if crate::text::str_eq(ext, "jpg") || crate::text::str_eq(ext, "jpeg")
            || crate::text::str_eq(ext, "png") {
            "image".to_owned()
        } else if crate::text::str_eq(ext, "txt") {
            "text".to_owned()
        } else if crate::text::str_eq(ext, "pdf") {
            "pdf".to_owned()
        } else {
            "file".to_owned()
        }
    } else {
        "file".to_owned()
    }
}

impl Server {
    /// Compiles the exclusion patterns; `None` exactly when one of them is
    /// not a valid regular expression (every entry is then hidden).
    pub fn compile_exclusions(&self) -> (r: Option<regex::RegexSet>)
        ensures
            match r {
                Some(set) => crate::outside::regex_pats_ok(self.exclusion.deep_view())
                    && crate::outside::regex_set_pats(set) == self.exclusion.deep_view(),
                None => !crate::outside::regex_pats_ok(self.exclusion.deep_view()),
            },
    {
        crate::outside::regex_set_new(&self.exclusion)
    }

    /// Filters and tags the raw entries for the listing template.
    pub fn filter_entries(
        &self,
        set: &regex::RegexSet,
        entries: &Vec<DirEntry>,
        location: &str,
    ) -> (r: Vec<DirectoryElement>)
        ensures
            element_views(r@) == listing_spec(
                entry_views(entries@),
                crate::outside::regex_set_pats(*set),
                self.directory_listing,
                location@,
            ),
    {
        let ghost evs = entry_views(entries@);
        let ghost pats = crate::outside::regex_set_pats(*set);
        let mut out: Vec<DirectoryElement> = Vec::new();
        let mut i: usize = entries.len();
        proof {
            assert(evs.subrange(i as int, evs.len() as int)
                =~= Seq::<(Seq<char>, bool)>::empty());
            assert(element_views(out@) =~= listing_spec(
                evs.subrange(i as int, evs.len() as int),
                pats,
                self.directory_listing,
                location@,
            ));
        }
        while i > 0
            invariant
                0 <= i <= entries.len(),
                evs == entry_views(entries@),
                pats == crate::outside::regex_set_pats(*set),
                element_views(out@) == listing_spec(
                    evs.subrange(i as int, evs.len() as int),
                    pats,
                    self.directory_listing,
                    location@,
                ),
            decreases i,
        {
            i = i - 1;
            let ghost rem = evs.subrange(i as int, evs.len() as int);
            proof {
                assert(rem[0] == evs[i as int]);
                assert(rem.drop_first() =~= evs.subrange(i + 1, evs.len() as int));
            }
            let e = &entries[i];
            let matched = crate::outside::regex_set_is_match(set, e.name.as_str());
            let kept = !matched && (!e.is_dir || self.directory_listing);
            if kept {
                let entry_name = crate::remove_prefix(e.name.clone(), "/");
                let etype = entry_type_of(entry_name.as_str(), e.is_dir);
                let mut link = location.to_owned();
                link.append(e.name.as_str());
                let el = DirectoryElement {
                    entry: entry_name,
                    entry_type: etype,
                    link,
                    is_directory: e.is_dir,
                };
                let ghost o0 = element_views(out@);
                out.insert(0, el);
                proof {
                    assert(element_views(out@) =~= seq![
                        (el.entry@, el.entry_type@, el.link@, el.is_directory),
                    ] + o0);
                }
            }
        }
        proof {
            assert(evs.subrange(0, evs.len() as int) =~= evs);
        }
        out
    }
}

// ---------------------------------------------------------------------------
// Redirection
// ---------------------------------------------------------------------------
/// What the redirection table says about a location.
pub enum RedirectAction {
    Stay,
    LoopDetected,
    Redirect(String),
}

pub open spec fn has_source(rs: Seq<Redirection>, loc: Seq<char>) -> bool {
    exists|i: int| 0 <= i < rs.len() && (#[trigger] rs[i]).source@ == loc
}

/// The target of the first redirection whose source is `loc`.
pub open spec fn first_target(rs: Seq<Redirection>, loc: Seq<char>) -> Option<Seq<char>>
    decreases rs.len(),
{
    if rs.len() == 0 {
        None
    } else if rs[0].source@ == loc {
        Some(rs[0].target@)
    } else {
        first_target(rs.drop_first(), loc)
    }
}

proof fn lemma_first_target_some(rs: Seq<Redirection>, loc: Seq<char>)
    ensures
        first_target(rs, loc) is Some <==> has_source(rs, loc),
    decreases rs.len(),
{
    if rs.len() > 0 {
        lemma_first_target_some(rs.drop_first(), loc);
        if rs[0].source@ == loc {
            assert(has_source(rs, loc));
        } else {
            assert forall|i: int|
                0 <= i < rs.len() && (#[trigger] rs[i]).source@ == loc implies has_source(
                rs.drop_first(),
                loc,
            ) by {
                assert(rs.drop_first()[i - 1] == rs[i]);
            }
        }
    }
}

impl Server {
    /// Applies the redirection table to the request: on a plain redirect the
    /// request's location and request line are rewritten to the target; a
    /// target that is itself a source is a loop.
    pub fn handle_redirection(&self, request: &mut Request) -> (act: RedirectAction)
        ensures
            match act {
                RedirectAction::Stay => !has_source(
                    self.redirections@,
                    old(request).location@,
                ) && *final(request) == *old(request),
                RedirectAction::LoopDetected => has_source(
                    self.redirections@,
                    old(request).location@,
                ) && (match first_target(self.redirections@, old(request).location@) {
                    Some(t) => has_source(self.redirections@, t),
                    None => false,
                }) && *final(request) == *old(request),
                RedirectAction::Redirect(t) => {
                    &&& has_source(self.redirections@, old(request).location@)
                    &&& first_target(self.redirections@, old(request).location@) == Some(t@)
                    &&& !has_source(self.redirections@, t@)
                    &&& final(request).location == t
                    &&& final(request).head@ == crate::request::rewritten_head(
                        old(request).head@,
                        t@,
                    )
                    &&& final(request).method == old(request).method
                    &&& final(request).host == old(request).host
                    &&& final(request).port == old(request).port
                    &&& final(request).body == old(request).body
                    &&& final(request).body_byte == old(request).body_byte
                    &&& final(request).complete == old(request).complete
                    &&& final(request).content_length == old(request).content_length
                    &&& final(request).boundary == old(request).boundary
                    &&& final(request).length == old(request).length
                    &&& final(request).id_session == old(request).id_session
                    &&& final(request).filename == old(request).filename
                    &&& final(request).content_type == old(request).content_type
                    &&& final(request).reference == old(request).reference
                    &&& final(request).headers == old(request).headers
                    &&& final(request).timestamp == old(request).timestamp
                },
            },
    {
        let ghost rs = self.redirections@;
        let ghost loc0 = request.location@;
        // find the first matching source
        let mut i: usize = 0;
        let mut found: Option<usize> = None;
        proof {
            assert(rs.subrange(0, rs.len() as int) =~= rs);
        }
        while i < self.redirections.len() && found.is_none()
            invariant
                0 <= i <= self.redirections.len(),
                rs == self.redirections@,
                loc0 == request.location@,
                match found {
                    Some(k) => k < i && rs[k as int].source@ == loc0 && first_target(rs, loc0)
                        == Some(rs[k as int].target@),
                    None => first_target(rs, loc0) == first_target(
                        rs.subrange(i as int, rs.len() as int),
                        loc0,
                    ),
                },
            decreases self.redirections.len() - i,
        {
            let ghost rem = rs.subrange(i as int, rs.len() as int);
            proof {
                assert(rem[0] == rs[i as int]);
                assert(rem.drop_first() =~= rs.subrange(i + 1, rs.len() as int));
            }
            if crate::text::str_eq(self.redirections[i].source.as_str(), request.location.as_str()) {
                found = Some(i);
            }
            i = i + 1;
        }
        proof {
            if found is None {
                assert(rs.subrange(rs.len() as int, rs.len() as int)
                    =~= Seq::<Redirection>::empty());
            }
            lemma_first_target_some(rs, loc0);
        }
        let k = match found {
            None => {
                return RedirectAction::Stay;
            },
            Some(k) => k,
        };
        // is the chosen target itself a redirection source?  then we would loop
        let target = self.redirections[k].target.clone();
        let mut j: usize = 0;
        while j < self.redirections.len()
            invariant
                0 <= j <= self.redirections.len(),
                rs == self.redirections@,
                loc0 == request.location@,
                k < rs.len() && rs[k as int].source@ == loc0,
                target@ == rs[k as int].target@,
                first_target(rs, loc0) == Some(rs[k as int].target@),
                forall|m: int| 0 <= m < j ==> (#[trigger] rs[m]).source@ != target@,
            decreases self.redirections.len() - j,
        {
            if crate::text::str_eq(self.redirections[j].source.as_str(), target.as_str()) {
                proof {
                    assert(rs[j as int].source@ == target@);
                    assert(has_source(rs, target@));
                    assert(rs[k as int].source@ == loc0);
                    assert(has_source(rs, loc0));
                }
                return RedirectAction::LoopDetected;
            }
            j = j + 1;
        }
        request.location = target.clone();
        // rewrite the request line as the URI decoder does
        let head = request.head.clone();
        let hs = head.as_str();
        let n = hs.unicode_len();
        let m = crate::text::scan_upper(hs, 0);
        if m >= 1 && n - m > 1 && hs.get_char(m) == ' ' && hs.get_char(m + 1) == '/' {
            let t = crate::text::scan_non_ws(hs, m + 2);
            proof {
                crate::text::lemma_run_end(hs@, m + 2, crate::text::non_ws_p());
            }
            if t > m + 2 {
                let mut new_head = substr(hs, 0, m);
                new_head.push(' ');
                new_head.append(request.location.as_str());
                let tail = substr(hs, t, n);
                new_head.append(tail.as_str());
                proof {
                    assert(new_head@ =~= crate::request::rewritten_head(
                        old(request).head@,
                        target@,
                    ));
                }
                request.head = new_head;
            }
        }
        RedirectAction::Redirect(target)
    }
}


// ---------------------------------------------------------------------------
// Content types
// ---------------------------------------------------------------------------
/// The extension of the path's final segment: what follows its last dot,
/// unless the only dot leads the segment.
pub open spec fn ext_of(path: Seq<char>) -> Option<Seq<char>> {
    let b = crate::text::rev_run_start(path, path.len() as int, neq_p('/'));
    let seg = path.subrange(b, path.len() as int);
    let d = crate::text::rev_run_start(seg, seg.len() as int, neq_p('.'));
    if d >= 2 {
        Some(seg.subrange(d, seg.len() as int))
    } else {
        None
    }
}

/// (content type, pdf disposition, run as script) for a physical path.
pub open spec fn content_type_decision(path: Seq<char>) -> (Seq<char>, bool, bool) {
    match ext_of(path) {
        Some(e) => if e == "html"@ {
            ("text/html"@, false, false)
        } else if e == "css"@ {
            ("text/css"@, false, false)
        } else if e == "js"@ {
            ("application/javascript"@, false, false)
        } else if e == "png"@ {
            ("image/png"@, false, false)
        } else if e == "jpg"@ || e == "jpeg"@ {
            ("image/jpeg"@, false, false)
        } else if e == "gif"@ {
            ("image/gif"@, false, false)
        } else if e == "json"@ {
            ("application/json"@, false, false)
        } else if e == "pdf"@ {
            ("application/pdf"@, true, false)
        } else if e == "rb"@ {
            ("text/plain"@, false, true)
        } else {
            ("text/plain"@, false, false)
        },
        None => ("text/plain"@, false, false),
    }
}

#[verifier::loop_isolation(false)]
fn rev_scan_char(s: &str, c: char) -> (r: usize)
    ensures
        r == crate::text::rev_run_start(s@, s@.len() as int, neq_p(c)),
        r <= s@.len(),
{
    let ghost p = neq_p(c);
    let n = s.unicode_len();
    let mut b: usize = n;
    while b > 0 && s.get_char(b - 1) != c
        invariant
            0 <= b <= n,
            crate::text::rev_run_start(s@, n as int, p) == crate::text::rev_run_start(
                s@,
                b as int,
                p,
            ),
        decreases b,
    {
        b = b - 1;
    }
    proof {
        crate::text::lemma_rev_run_start(s@, n as int, p);
    }
    b
}

/// The content type a file is served with, from its extension.
pub fn content_type_for(path: &str) -> (r: (String, bool, bool))
    ensures
        (r.0@, r.1, r.2) == content_type_decision(path@),
{
    let n = path.unicode_len();
    let b = rev_scan_char(path, '/');
    let seg = substr(path, b, n);
    let sn = seg.as_str().unicode_len();
    let d = rev_scan_char(seg.as_str(), '.');
    if d < 2 {
        return ("text/plain".to_owned(), false, false);
    }
    let e = substr(seg.as_str(), d, sn);
    let es = e.as_str();
    if crate::text::str_eq(es, "html") {
        ("text/html".to_owned(), false, false)
    } else if crate::text::str_eq(es, "css") {
        ("text/css".to_owned(), false, false)
    } else if crate::text::str_eq(es, "js") {
        ("application/javascript".to_owned(), false, false)
    } else if crate::text::str_eq(es, "png") {
        ("image/png".to_owned(), false, false)
    } else if crate::text::str_eq(es, "jpg") || crate::text::str_eq(es, "jpeg") {
        ("image/jpeg".to_owned(), false, false)
    } else if crate::text::str_eq(es, "gif") {
        ("image/gif".to_owned(), false, false)
    } else if crate::text::str_eq(es, "json") {
        ("application/json".to_owned(), false, false)
    } else if crate::text::str_eq(es, "pdf") {
        ("application/pdf".to_owned(), true, false)
    } else if crate::text::str_eq(es, "rb") {
        ("text/plain".to_owned(), false, true)
    } else {
        ("text/plain".to_owned(), false, false)
    }
}

// ---------------------------------------------------------------------------
// The request handler's decision
// ---------------------------------------------------------------------------
/// The filesystem facts the decision depends on; the event loop probes them
/// before asking for a plan.
#[derive(Debug, Clone)]
pub struct FsProbe {
    pub location_is_dir: bool,
    pub dir_readable: bool,
    pub final_path_exists: bool,
}

/// What the handler decides to do with a complete request.
pub enum RequestPlan {
    /// A response ready to write (redirects).
    Respond(crate::response::HttpResponse),
    /// An error page: the template body is rendered outside, then framed.
    ErrorPage { code: u16, status: String },
    /// Render the listing of this directory.
    Listing { dir: String },
    /// Serve this file (through the script runner when `run_script`).
    ServeFile { path: String, content_type: String, pdf_inline: bool, run_script: bool },
    /// Create this folder, then redirect.
    CreateFolder { folder_path: String, redirect_to: String },
    /// Write this payload to this file, then redirect.
    Upload { file_path: String, payload: Vec<u8>, redirect_to: String },
    /// Remove this file or folder, then redirect.
    Delete { target_path: String },
}

/// The directory the listing reads: the content root plus the URL path.
pub open spec fn listing_dir_spec(root: Seq<char>, loc: Seq<char>) -> Seq<char> {
    "./"@ + remove_suffix_spec(root, "/"@) + loc
}

/// Where a form action lands: root (as configured) + URL path + `/` + name.
pub open spec fn action_path_spec(root: Seq<char>, loc: Seq<char>, name: Seq<char>) -> Seq<char> {
    "./"@ + root + loc + "/"@ + name
}

/// The location with its query string cut off.
pub open spec fn location_no_query(loc: Seq<char>) -> Seq<char> {
    loc.subrange(0, run_end(loc, 0, neq_p('?')))
}

pub open spec fn boundary_str(r: Request) -> Seq<char> {
    match r.boundary {
        Some(b) => b@,
        None => Seq::<char>::empty(),
    }
}

/// The policy checks after redirection, in the order the specification
/// gives them: method gate, size gate, listing, actions, static file, 404.
pub open spec fn plan_after_gates(
    srv: Server,
    r: Request,
    size_limit: int,
    probe: FsProbe,
    plan: RequestPlan,
) -> bool {
    let root = srv.root_directory@;
    let loc = r.location@;
    if !method_allowed_spec(srv.accepted_methods.deep_view(), r.method@) {
        plan matches RequestPlan::ErrorPage { code, status } && code == 405 && status@
            == "Method Not Allowed"@
    } else if r.length > size_limit * 1024 {
        plan matches RequestPlan::ErrorPage { code, status } && code == 413 && status@
            == "Content Too Large"@
    } else if crate::text::contains_seq(loc, dotdot()) {
        // a parent-directory segment would escape the sandbox
        plan matches RequestPlan::ErrorPage { code, status } && code == 400 && status@
            == "Bad Request"@
    } else if probe.location_is_dir && !contains_char(loc, '?') && r.method@
        == crate::request::get_word() && probe.dir_readable {
        plan matches RequestPlan::Listing { dir } && dir@ == listing_dir_spec(root, loc)
    } else if r.method@ == crate::request::post_word() {
        if crate::request::extract_field_spec(r, "name"@) == "foldername"@ {
            let v = crate::request::extract_field_spec(r, "value"@);
            if v.len() == 0 {
                plan matches RequestPlan::ErrorPage { code, status } && code == 400 && status@
                    == "Bad Request"@
            } else {
                plan matches RequestPlan::CreateFolder { folder_path, redirect_to }
                    && folder_path@ == action_path_spec(root, loc, v) && redirect_to@
                    == location_no_query(loc)
            }
        } else {
            if !r.complete || r.body@.len() == 0 {
                plan matches RequestPlan::ErrorPage { code, status } && code == 400 && status@
                    == "Bad Request"@
            } else {
                plan matches RequestPlan::Upload { file_path, payload, redirect_to }
                    && file_path@ == action_path_spec(
                    root,
                    loc,
                    crate::request::extract_field_spec(r, "filename"@),
                ) && payload@ == crate::request::extract_values_spec(
                    r.body_byte@,
                    boundary_str(r),
                ) && redirect_to@ == loc
            }
        }
    } else if r.method@ == crate::request::delete_word() && crate::request::extract_field_spec(
        r,
        "name"@,
    ) == "file_to_delete"@ {
        plan matches RequestPlan::Delete { target_path } && target_path@ == action_path_spec(
            root,
            loc,
            crate::request::extract_field_spec(r, "value"@),
        )
    } else if probe.final_path_exists {
        let path = resolved_spec(root, loc, r.method@, probe.location_is_dir);
        let (ct, inline, script) = content_type_decision(path);
        plan matches RequestPlan::ServeFile { path: p, content_type, pdf_inline, run_script }
            && p@ == path && content_type@ == ct && pdf_inline == inline && run_script
            == script
    } else {
        plan matches RequestPlan::ErrorPage { code, status } && code == 404 && status@
            == "Not Found"@
    }
}

/// The whole decision, redirection included.
pub open spec fn plan_ok(
    srv: Server,
    od: Request,
    nw: Request,
    size_limit: int,
    probe: FsProbe,
    plan: RequestPlan,
) -> bool {
    let rs = srv.redirections@;
    let loc0 = od.location@;
    if has_source(rs, loc0) {
        if (match first_target(rs, loc0) {
            Some(t) => has_source(rs, t),
            None => false,
        }) {
            nw == od && (plan matches RequestPlan::ErrorPage { code, status } && code == 508
                && status@ == "Loop Detected"@)
        } else {
            match first_target(rs, loc0) {
                Some(t) => {
                    &&& nw.location@ == t
                    &&& nw.head@ == crate::request::rewritten_head(od.head@, t)
                    &&& plan matches RequestPlan::Respond(resp) && resp.status == 302
                        && resp.body@.len() == 0 && resp.head@ == crate::response::head_spec(
                        302,
                        "Found"@,
                        crate::response::redirect_mid(t),
                        0,
                    )
                },
                None => false,
            }
        }
    } else {
        nw == od && plan_after_gates(srv, od, size_limit, probe, plan)
    }
}


/// Law (redirection): an applied redirection answers 302 with `Location`
/// naming the target and a declared length of zero; when the target is
/// itself a redirection source, the answer is 508 instead.
pub proof fn lemma_redirection_law(
    srv: Server,
    od: Request,
    nw: Request,
    size_limit: int,
    probe: FsProbe,
    plan: RequestPlan,
)
    requires
        plan_ok(srv, od, nw, size_limit, probe, plan),
        has_source(srv.redirections@, od.location@),
    ensures
        match first_target(srv.redirections@, od.location@) {
            Some(t) => if has_source(srv.redirections@, t) {
                plan matches RequestPlan::ErrorPage { code, status } && code == 508
            } else {
                plan matches RequestPlan::Respond(resp) && resp.status == 302
                    && resp.body@.len() == 0 && resp.head@ == crate::response::head_spec(
                    302,
                    "Found"@,
                    crate::response::redirect_mid(t),
                    0,
                )
            },
            None => false,
        },
{
    lemma_first_target_some(srv.redirections@, od.location@);
}

impl Server {
    /// Decides what to do with a complete request: redirection first, then
    /// the method and size gates, then the resource the URL resolves to.
    pub fn handle_request(
        &self,
        request: &mut Request,
        size_limit: usize,
        probe: &FsProbe,
    ) -> (plan: RequestPlan)
        requires
            location_ok(old(request).location@),
        ensures
            plan_ok(*self, *old(request), *final(request), size_limit as int, *probe, plan),
    {
        match self.handle_redirection(request) {
            RedirectAction::LoopDetected => {
                return RequestPlan::ErrorPage { code: 508, status: "Loop Detected".to_owned() };
            },
            RedirectAction::Redirect(t) => {
                let resp = crate::response::redirect_response(302, "Found", t.as_str());
                return RequestPlan::Respond(resp);
            },
            RedirectAction::Stay => {},
        }
        if !self.method_allowed(request.method.as_str()) {
            return RequestPlan::ErrorPage { code: 405, status: "Method Not Allowed".to_owned() };
        }
        if (request.length as u128) > (size_limit as u128) * 1024 {
            return RequestPlan::ErrorPage { code: 413, status: "Content Too Large".to_owned() };
        }
        proof {
            reveal_strlit("..");
            assert(".."@ =~= dotdot());
        }
        if crate::text::contains_str(request.location.as_str(), "..") {
            return RequestPlan::ErrorPage { code: 400, status: "Bad Request".to_owned() };
        }
        proof {
            reveal_strlit("GET");
            reveal_strlit("POST");
            reveal_strlit("DELETE");
            assert("GET"@ =~= crate::request::get_word());
            assert("POST"@ =~= crate::request::post_word());
            assert("DELETE"@ =~= crate::request::delete_word());
        }
        let loc_n = request.location.as_str().unicode_len();
        let q = crate::text::scan_until_char(request.location.as_str(), 0, '?');
        let has_q = q < loc_n;
        let is_get = crate::text::str_eq(request.method.as_str(), "GET");
        if probe.location_is_dir && !has_q && is_get && probe.dir_readable {
            let mut dir = "./".to_owned();
            dir.append(crate::remove_suffix(self.root_directory.clone(), "/").as_str());
            dir.append(request.location.as_str());
            return RequestPlan::Listing { dir };
        }
        let fieldname = Request::extract_field(request, "name");
        if crate::text::str_eq(request.method.as_str(), "POST") {
            if crate::text::str_eq(fieldname.as_str(), "foldername") {
                let v = Request::extract_field(request, "value");
                if v.as_str().unicode_len() == 0 {
                    return RequestPlan::ErrorPage { code: 400, status: "Bad Request".to_owned() };
                }
                let mut folder_path = "./".to_owned();
                folder_path.append(self.root_directory.as_str());
                folder_path.append(request.location.as_str());
                folder_path.append("/");
                folder_path.append(v.as_str());
                let redirect_to = substr(request.location.as_str(), 0, q);
                return RequestPlan::CreateFolder { folder_path, redirect_to };
            } else {
                if !request.complete || request.body.as_str().unicode_len() == 0 {
                    return RequestPlan::ErrorPage { code: 400, status: "Bad Request".to_owned() };
                }
                let filename = Request::extract_field(request, "filename");
                let mut file_path = "./".to_owned();
                file_path.append(self.root_directory.as_str());
                file_path.append(request.location.as_str());
                file_path.append("/");
                file_path.append(filename.as_str());
                let b = match &request.boundary {
                    Some(b) => b.clone(),
                    None => String::new(),
                };
                let payload = Request::extract_values(request.body_byte.as_slice(), b);
                let redirect_to = request.location.clone();
                return RequestPlan::Upload { file_path, payload, redirect_to };
            }
        }
        if crate::text::str_eq(request.method.as_str(), "DELETE") && crate::text::str_eq(
            fieldname.as_str(),
            "file_to_delete",
        ) {
            let v = Request::extract_field(request, "value");
            let mut target_path = "./".to_owned();
            target_path.append(self.root_directory.as_str());
            target_path.append(request.location.as_str());
            target_path.append("/");
            target_path.append(v.as_str());
            return RequestPlan::Delete { target_path };
        }
        if probe.final_path_exists {
            let path = self.resolve_path(
                request.location.as_str(),
                request.method.as_str(),
                probe.location_is_dir,
            );
            let (content_type, pdf_inline, run_script) = content_type_for(path.as_str());
            return RequestPlan::ServeFile { path, content_type, pdf_inline, run_script };
        }
        RequestPlan::ErrorPage { code: 404, status: "Not Found".to_owned() }
    }
}

// ---------------------------------------------------------------------------
// Outcomes of the filesystem actions
// ---------------------------------------------------------------------------
/// What to write once the filesystem has acted.
pub enum Reply {
    /// A finished response.
    Done(crate::response::HttpResponse),
    /// An error page awaiting its rendered template body.
    ErrorPage { code: u16, status: String },
}

impl Server {
    /// The answer to a folder-creation attempt: conflict if the path
    /// existed, failure if creation failed, otherwise the redirect back.
    pub fn create_folder_outcome(&self, exists: bool, create_ok: bool, redirect_to: &str) -> (r:
        Reply)
        ensures
            exists ==> (r matches Reply::ErrorPage { code, status } && code == 409 && status@
                == "Conflict"@),
            !exists && !create_ok ==> (r matches Reply::ErrorPage { code, status } && code
                == 500 && status@ == "Internal Server Error"@),
            !exists && create_ok ==> (r matches Reply::Done(resp) && resp.status == 302
                && resp.body@.len() == 0 && resp.head@ == crate::response::head_spec(
                302,
                "Found"@,
                crate::response::action_redirect_mid(redirect_to@),
                0,
            )),
    {
        if exists {
            Reply::ErrorPage { code: 409, status: "Conflict".to_owned() }
        } else if !create_ok {
            Reply::ErrorPage { code: 500, status: "Internal Server Error".to_owned() }
        } else {
            Reply::Done(crate::response::action_redirect_response(302, redirect_to))
        }
    }

    /// The answer to an upload: the redirect back on success, failure
    /// otherwise.
    pub fn upload_outcome(&self, write_ok: bool, redirect_to: &str) -> (r: Reply)
        ensures
            !write_ok ==> (r matches Reply::ErrorPage { code, status } && code == 500
                && status@ == "Internal Server Error"@),
            write_ok ==> (r matches Reply::Done(resp) && resp.status == 302
                && resp.body@.len() == 0 && resp.head@ == crate::response::head_spec(
                302,
                "Found"@,
                crate::response::action_redirect_mid(redirect_to@),
                0,
            )),
    {
        if write_ok {
            Reply::Done(crate::response::action_redirect_response(302, redirect_to))
        } else {
            Reply::ErrorPage { code: 500, status: "Internal Server Error".to_owned() }
        }
    }



    /// The answer to a listing render: the framed page on success, failure
    /// otherwise.
    pub fn listing_outcome(&self, rendered: Option<Vec<u8>>, cookie: &str) -> (r: Reply)
        ensures
            match rendered {
                Some(body) => (r matches Reply::Done(resp) && resp.status == 200 && resp.body
                    == body && resp.head@ == crate::response::head_spec(
                    200,
                    "OK"@,
                    crate::response::html_mid(cookie@),
                    body@.len() as nat,
                )),
                None => (r matches Reply::ErrorPage { code, status } && code == 500 && status@
                    == "Internal Server Error"@),
            },
    {
        match rendered {
            Some(body) => Reply::Done(crate::response::listing_response(cookie, body)),
            None => Reply::ErrorPage { code: 500, status: "Internal Server Error".to_owned() },
        }
    }

    /// The answer to a file read (or script run): the framed content on
    /// success, failure otherwise.
    pub fn serve_file_outcome(
        &self,
        content: Option<Vec<u8>>,
        content_type: &str,
        pdf_inline: bool,
        cookie: &str,
    ) -> (r: Reply)
        ensures
            match content {
                Some(bytes) => (r matches Reply::Done(resp) && resp.status == 200 && resp.body
                    == bytes && resp.head@ == crate::response::head_spec(
                    200,
                    "OK"@,
                    crate::response::file_mid(content_type@, pdf_inline, cookie@),
                    bytes@.len() as nat,
                )),
                None => (r matches Reply::ErrorPage { code, status } && code == 500 && status@
                    == "Internal Server Error"@),
            },
    {
        match content {
            Some(bytes) => Reply::Done(
                crate::response::file_response(content_type, pdf_inline, cookie, bytes),
            ),
            None => Reply::ErrorPage { code: 500, status: "Internal Server Error".to_owned() },
        }
    }

    /// The answer to a deletion: missing targets are refused; a removed
    /// target redirects to the root with the deletion status.
    pub fn delete_outcome(&self, exists: bool) -> (r: Reply)
        ensures
            !exists ==> (r matches Reply::ErrorPage { code, status } && code == 400 && status@
                == "Bad Request"@),
            exists ==> (r matches Reply::Done(resp) && resp.status == 200 && resp.body@.len()
                == 0 && resp.head@ == crate::response::head_spec(
                200,
                "Found"@,
                crate::response::action_redirect_mid("/"@),
                0,
            )),
    {
        if !exists {
            Reply::ErrorPage { code: 400, status: "Bad Request".to_owned() }
        } else {
            Reply::Done(crate::response::action_redirect_response(200, "/"))
        }
    }
}

} // verus!
