use localhost::request::Request;
use localhost::response;
use localhost::router::Router;
use localhost::server::{DirEntry, FsProbe, RedirectAction, Reply, RequestPlan, Server};
use localhost::session::Session;
use localhost::{Config, Redirection};

fn test_server(root: &str) -> Server {
    Server::new(
        "127.0.0.1".to_string(),
        "localhost".to_string(),
        vec![8080],
        root.to_string(),
        "templates/error.html".to_string(),
        "templates/listing.html".to_string(),
        1024,
        vec!["GET".to_string(), "POST".to_string(), "DELETE".to_string()],
        true,
        vec![],
        vec![],
    )
}

fn probe_file() -> FsProbe {
    FsProbe { location_is_dir: false, dir_readable: false, final_path_exists: true }
}

fn read(text: &str, limit: usize) -> Request {
    let bytes: Vec<u8> = text.as_bytes().to_vec();
    Request::read_request(text, &bytes, limit)
}

#[test]
fn static_get_parses_and_serves() {
    let mut req = read("GET /index.html HTTP/1.1\r\nHost: 127.0.0.1:8080\r\n\r\n", 10);
    assert_eq!(req.method, "GET");
    assert!(req.complete);
    assert_eq!(req.location, "/index.html");
    assert_eq!(req.host, "127.0.0.1");
    assert_eq!(req.port, 8080);

    let server = test_server("www");
    let plan = server.handle_request(&mut req, 10, &probe_file());
    match plan {
        RequestPlan::ServeFile { path, content_type, pdf_inline, run_script } => {
            assert_eq!(path, "./www/index.html");
            assert_eq!(content_type, "text/html");
            assert!(!pdf_inline);
            assert!(!run_script);
        }
        _ => panic!("expected a file plan"),
    }
    let body = b"<h1>ok</h1>".to_vec();
    let resp = response::file_response("text/html", false, "", body.clone());
    assert_eq!(resp.status, 200);
    assert!(resp.head.starts_with("HTTP/1.1 200 OK\r\n"));
    assert!(resp.head.contains("Content-Type: text/html\r\n"));
    assert!(resp.head.contains("Content-Length: 11\r\n\r\n"));
    assert_eq!(resp.body, body);
}

#[test]
fn listing_plan_and_filter() {
    let mut req = read("GET /dir HTTP/1.1\r\nHost: 127.0.0.1:8080\r\n\r\n", 10);
    let mut server = test_server("www");
    server.exclusion = vec!["secret".to_string()];
    let probe = FsProbe { location_is_dir: true, dir_readable: true, final_path_exists: false };
    let plan = server.handle_request(&mut req, 10, &probe);
    match plan {
        RequestPlan::Listing { dir } => assert_eq!(dir, "./www/dir"),
        _ => panic!("expected a listing plan"),
    }
    let set = server.compile_exclusions().expect("patterns compile");
    let entries = vec![
        DirEntry { name: "/a.txt".to_string(), is_dir: false },
        DirEntry { name: "/sub".to_string(), is_dir: true },
        DirEntry { name: "/secret.txt".to_string(), is_dir: false },
    ];
    let elements = server.filter_entries(&set, &entries, "/dir");
    assert_eq!(elements.len(), 2);
    assert_eq!(elements[0].entry, "a.txt");
    assert_eq!(elements[0].entry_type, "text");
    assert_eq!(elements[0].link, "/dir/a.txt");
    assert!(!elements[0].is_directory);
    assert_eq!(elements[1].entry, "sub");
    assert_eq!(elements[1].entry_type, "folder");
    assert!(elements[1].is_directory);

    let page = response::listing_response("", b"<ul></ul>".to_vec());
    assert_eq!(page.status, 200);
    assert!(page.head.contains("Content-Length: 9\r\n\r\n"));
}

#[test]
fn listing_hides_directories_when_disabled() {
    let mut server = test_server("www");
    server.directory_listing = false;
    let set = server.compile_exclusions().expect("patterns compile");
    let entries = vec![
        DirEntry { name: "/sub".to_string(), is_dir: true },
        DirEntry { name: "/a.txt".to_string(), is_dir: false },
    ];
    let elements = server.filter_entries(&set, &entries, "/");
    assert_eq!(elements.len(), 1);
    assert_eq!(elements[0].entry, "a.txt");
}

#[test]
fn redirect_rewrites_and_responds_302() {
    let mut server = test_server("www");
    server.redirections = vec![Redirection { source: "/old".to_string(), target: "/new".to_string() }];
    let mut req = read("GET /old HTTP/1.1\r\nHost: 127.0.0.1:8080\r\n\r\n", 10);
    let plan = server.handle_request(&mut req, 10, &probe_file());
    match plan {
        RequestPlan::Respond(resp) => {
            assert_eq!(resp.status, 302);
            assert!(resp.head.starts_with("HTTP/1.1 302 Found\r\n"));
            assert!(resp.head.contains("Location: /new\r\n"));
            assert!(resp.head.contains("Content-Length: 0\r\n\r\n"));
            assert!(resp.body.is_empty());
        }
        _ => panic!("expected a redirect response"),
    }
    assert_eq!(req.location, "/new");
    assert_eq!(req.head, "GET /new HTTP/1.1\r\nHost: 127.0.0.1:8080\r\n\r\n");
}

#[test]
fn redirect_loop_gives_508() {
    let mut server = test_server("www");
    server.redirections = vec![
        Redirection { source: "/a".to_string(), target: "/b".to_string() },
        Redirection { source: "/b".to_string(), target: "/c".to_string() },
    ];
    let mut req = read("GET /a HTTP/1.1\r\nHost: 127.0.0.1:8080\r\n\r\n", 10);
    let plan = server.handle_request(&mut req, 10, &probe_file());
    match plan {
        RequestPlan::ErrorPage { code, status } => {
            assert_eq!(code, 508);
            assert_eq!(status, "Loop Detected");
        }
        _ => panic!("expected the loop error"),
    }
}

#[test]
fn handle_redirection_stays_put_without_match() {
    let server = test_server("www");
    let mut req = read("GET /nowhere HTTP/1.1\r\nHost: 127.0.0.1:8080\r\n\r\n", 10);
    match server.handle_redirection(&mut req) {
        RedirectAction::Stay => {}
        _ => panic!("expected no redirection"),
    }
    assert_eq!(req.location, "/nowhere");
}

fn upload_text() -> String {
    let body = "--BOUND\r\nContent-Disposition: form-data; name=\"file\"; filename=\"hello.txt\"\r\nContent-Type: text/plain\r\n\r\nhi\r\n--BOUND--\r\n";
    format!(
        "POST /data HTTP/1.1\r\nHost: 127.0.0.1:8080\r\nContent-Length: {}\r\nContent-Type: multipart/form-data; boundary=BOUND\r\n\r\n{}",
        body.len(),
        body
    )
}

#[test]
fn upload_is_assembled_and_planned() {
    let text = upload_text();
    let mut req = read(&text, 10);
    assert_eq!(req.method, "POST");
    assert!(req.complete);
    assert_eq!(req.boundary.as_deref(), Some("BOUND"));
    assert_eq!(req.filename, "hello.txt");
    assert_eq!(req.content_type, "text/plain");

    let server = test_server("www");
    let plan = server.handle_request(&mut req, 10, &probe_file());
    match plan {
        RequestPlan::Upload { file_path, payload, redirect_to } => {
            assert_eq!(file_path, "./www/data/hello.txt");
            assert_eq!(payload, b"hi".to_vec());
            assert_eq!(redirect_to, "/data");
        }
        _ => panic!("expected an upload plan"),
    }
    match server.upload_outcome(true, "/data") {
        Reply::Done(resp) => {
            assert_eq!(resp.status, 302);
            assert!(resp.head.contains("Location: /data\r\n"));
            assert!(resp.head.contains("Content-Length: 0\r\n\r\n"));
        }
        _ => panic!("expected the redirect back"),
    }
    match server.upload_outcome(false, "/data") {
        Reply::ErrorPage { code, status } => {
            assert_eq!(code, 500);
            assert_eq!(status, "Internal Server Error");
        }
        _ => panic!("expected the failure page"),
    }
}

#[test]
fn oversize_post_is_refused_with_413() {
    let mut req = read("POST /up HTTP/1.1\r\nHost: 127.0.0.1:8080\r\nContent-Length: 1025\r\n\r\n", 1);
    assert!(req.complete);
    assert_eq!(req.length, 1025);
    assert_eq!(req.content_length, None);
    let server = test_server("www");
    let plan = server.handle_request(&mut req, 1, &probe_file());
    match plan {
        RequestPlan::ErrorPage { code, status } => {
            assert_eq!(code, 413);
            assert_eq!(status, "Content Too Large");
        }
        _ => panic!("expected the size gate"),
    }
}

#[test]
fn one_byte_under_the_limit_passes_the_gate() {
    let body = "x".repeat(1024);
    let text = format!(
        "POST /up HTTP/1.1\r\nHost: 127.0.0.1:8080\r\nContent-Length: 1024\r\n\r\n{}",
        body
    );
    let mut req = read(&text, 1);
    assert!(req.complete);
    assert_eq!(req.length, 0);
    let server = test_server("www");
    let plan = server.handle_request(&mut req, 1, &probe_file());
    match plan {
        RequestPlan::ErrorPage { code, .. } => assert_ne!(code, 413),
        _ => {}
    }
}

#[test]
fn folder_creation_plans_and_outcomes() {
    let body = "--B1\r\nContent-Disposition: form-data; name=\"foldername\"\r\n\r\nphotos\r\n--B1--\r\n";
    let text = format!(
        "POST /data?x=1 HTTP/1.1\r\nHost: 127.0.0.1:8080\r\nContent-Length: {}\r\nContent-Type: multipart/form-data; boundary=B1\r\n\r\n{}",
        body.len(),
        body
    );
    let mut req = read(&text, 10);
    let server = test_server("www");
    let plan = server.handle_request(&mut req, 10, &probe_file());
    match plan {
        RequestPlan::CreateFolder { folder_path, redirect_to } => {
            assert_eq!(folder_path, "./www/data?x=1/photos");
            assert_eq!(redirect_to, "/data");
        }
        _ => panic!("expected a folder plan"),
    }
    match server.create_folder_outcome(true, false, "/data") {
        Reply::ErrorPage { code, status } => {
            assert_eq!(code, 409);
            assert_eq!(status, "Conflict");
        }
        _ => panic!("expected the conflict"),
    }
    match server.create_folder_outcome(false, false, "/data") {
        Reply::ErrorPage { code, .. } => assert_eq!(code, 500),
        _ => panic!("expected the failure"),
    }
    match server.create_folder_outcome(false, true, "/data") {
        Reply::Done(resp) => {
            assert_eq!(resp.status, 302);
            assert!(resp.head.contains("Location: /data\r\n"));
        }
        _ => panic!("expected the redirect"),
    }
}

#[test]
fn empty_folder_name_is_refused() {
    let body = "--B2\r\nContent-Disposition: form-data; name=\"foldername\"\r\n\r\n\r\n--B2--\r\n";
    let text = format!(
        "POST /data HTTP/1.1\r\nHost: 127.0.0.1:8080\r\nContent-Length: {}\r\nContent-Type: multipart/form-data; boundary=B2\r\n\r\n{}",
        body.len(),
        body
    );
    let mut req = read(&text, 10);
    let server = test_server("www");
    let plan = server.handle_request(&mut req, 10, &probe_file());
    match plan {
        RequestPlan::ErrorPage { code, status } => {
            assert_eq!(code, 400);
            assert_eq!(status, "Bad Request");
        }
        _ => panic!("expected the refusal"),
    }
}

#[test]
fn delete_plan_and_outcomes() {
    let body = "--B3\r\nContent-Disposition: form-data; name=\"file_to_delete\"\r\n\r\nold.txt\r\n--B3--\r\n";
    let text = format!(
        "DELETE /data HTTP/1.1\r\nHost: 127.0.0.1:8080\r\nContent-Length: {}\r\nContent-Type: multipart/form-data; boundary=B3\r\n\r\n{}",
        body.len(),
        body
    );
    let mut req = read(&text, 10);
    assert_eq!(req.method, "DELETE");
    let server = test_server("www");
    let plan = server.handle_request(&mut req, 10, &probe_file());
    match plan {
        RequestPlan::Delete { target_path } => {
            assert_eq!(target_path, "./www/data/old.txt");
        }
        _ => panic!("expected a delete plan"),
    }
    match server.delete_outcome(false) {
        Reply::ErrorPage { code, .. } => assert_eq!(code, 400),
        _ => panic!("expected the refusal"),
    }
    match server.delete_outcome(true) {
        Reply::Done(resp) => {
            assert_eq!(resp.status, 200);
            assert!(resp.head.contains("Location: /\r\n"));
        }
        _ => panic!("expected the redirect"),
    }
}

#[test]
fn method_gate_gives_405() {
    let mut server = test_server("www");
    server.accepted_methods = vec!["GET".to_string()];
    let mut req = read("POST /x HTTP/1.1\r\nHost: 127.0.0.1:8080\r\nContent-Length: 1\r\n\r\na", 10);
    let plan = server.handle_request(&mut req, 10, &probe_file());
    match plan {
        RequestPlan::ErrorPage { code, status } => {
            assert_eq!(code, 405);
            assert_eq!(status, "Method Not Allowed");
        }
        _ => panic!("expected the method gate"),
    }
}

#[test]
fn method_gate_is_case_insensitive() {
    let mut server = test_server("www");
    server.accepted_methods = vec!["get".to_string()];
    assert!(server.method_allowed("GET"));
    assert!(server.method_allowed("get"));
    assert!(!server.method_allowed("POST"));
}

#[test]
fn missing_resource_gives_404() {
    let server = test_server("www");
    let mut req = read("GET /absent.txt HTTP/1.1\r\nHost: 127.0.0.1:8080\r\n\r\n", 10);
    let probe = FsProbe { location_is_dir: false, dir_readable: false, final_path_exists: false };
    let plan = server.handle_request(&mut req, 10, &probe);
    match plan {
        RequestPlan::ErrorPage { code, status } => {
            assert_eq!(code, 404);
            assert_eq!(status, "Not Found");
        }
        _ => panic!("expected 404"),
    }
    let page = response::error_page_response(404, "Not Found", b"<p>gone</p>".to_vec());
    assert!(page.head.starts_with("HTTP/1.1 404 Not Found\r\n"));
    assert!(page.head.contains("Content-Length: 11\r\n\r\n"));
}

#[test]
fn missing_host_matches_no_server() {
    let req = read("GET / HTTP/1.1\r\n\r\n", 10);
    assert_eq!(req.host, "");
    assert_eq!(req.port, 0);
    let mut router = Router::new();
    router.add_server(test_server("www"));
    router.enqueue_or_merge(req);
    assert_eq!(router.request_queue.len(), 1);
    assert!(router.route_request().is_none());
    assert_eq!(router.request_queue.len(), 1);
}

#[test]
fn dispatch_takes_complete_requests_in_order() {
    let mut router = Router::new();
    router.add_server(test_server("www"));
    let get = read("GET /a HTTP/1.1\r\nHost: 127.0.0.1:8080\r\n\r\n", 10);
    router.enqueue_or_merge(get);
    let (req, sidx) = router.route_request().expect("the GET dispatches");
    assert_eq!(sidx, 0);
    assert_eq!(req.location, "/a");
    assert!(router.request_queue.is_empty());
}

#[test]
fn partial_post_waits_then_merges_to_completion() {
    let text = "POST /data HTTP/1.1\r\nHost: 127.0.0.1:8080\r\nContent-Length: 30\r\nContent-Type: multipart/form-data; boundary=BND\r\n\r\n--BND\r\npartial";
    let mut router = Router::new();
    router.add_server(test_server("www"));
    let req = read(text, 10);
    assert!(!req.complete);
    assert_eq!(req.content_length, Some(30));
    router.enqueue_or_merge(req);
    assert!(router.route_request().is_none(), "incomplete requests must wait");

    let frag = "morebytes--BND--xx";
    let cont = read(frag, 10);
    assert_eq!(cont.method, "");
    router.enqueue_or_merge(cont);
    assert_eq!(router.request_queue.len(), 1, "fragments are never queued");
    assert!(router.request_queue[0].complete);
    assert!(router.request_queue[0].body.ends_with(frag));
    let (req2, _) = router.route_request().expect("now it dispatches");
    assert!(req2.body.len() >= 30);
}

#[test]
fn session_reuse_keeps_cookie_id() {
    let mut router = Router::new();
    let now = 1_000_000i64;
    router.sessions.push((5, Session::new("abc".to_string(), now + 60_000)));
    let cookie = router.attach_session(7, "abc", "fresh".to_string(), now + 120_000, now);
    assert_eq!(router.sessions.len(), 1);
    assert_eq!(router.sessions[0].0, 7);
    assert_eq!(router.sessions[0].1.id, "abc");
    assert_eq!(router.sessions[0].1.expiration_time, now + 120_000);
    assert_eq!(cookie, format!("Set-Cookie: cookie_01=abc; Expires={}\r\n", now + 120_000));
}

#[test]
fn session_expiry_or_mismatch_issues_fresh_id() {
    let mut router = Router::new();
    let now = 1_000_000i64;
    router.sessions.push((5, Session::new("abc".to_string(), now - 1)));
    let cookie = router.attach_session(7, "abc", "fresh".to_string(), now + 120_000, now);
    assert_eq!(router.sessions.len(), 2);
    assert_eq!(router.sessions[1].0, 7);
    assert_eq!(router.sessions[1].1.id, "fresh");
    assert!(cookie.contains("cookie_01=fresh;"));

    let mut router2 = Router::new();
    let c2 = router2.attach_session(9, "", "solo".to_string(), now + 1, now);
    assert_eq!(router2.sessions.len(), 1);
    assert_eq!(router2.sessions[0].1.id, "solo");
    assert!(c2.contains("cookie_01=solo;"));
}

#[test]
fn verify_config_drops_invalid_addresses() {
    let mut config = Config::new();
    config.http.size_limit = 10;
    let mut bad = test_server("www");
    bad.ip_addr = "999.1.1.1".to_string();
    config.http.servers.push(("good".to_string(), test_server("www")));
    config.http.servers.push(("bad".to_string(), bad));
    assert!(localhost::verify_config(&mut config));
    assert_eq!(config.http.servers.len(), 1);
    assert_eq!(config.http.servers[0].0, "good");

    let mut empty = Config::new();
    assert!(!localhost::verify_config(&mut empty));
}

#[test]
fn router_tokens_are_monotonic() {
    let mut router = Router::new();
    assert_eq!(router.next_token, 1000);
    let l = router.listener_token();
    assert_eq!(l, 0);
    let c = router.client_token();
    assert_eq!(c, 1001);
    assert_eq!(router.next_token, 1002);
}

#[test]
fn remove_server_drops_shared_names() {
    let mut router = Router::new();
    let a = test_server("a");
    let mut b = test_server("b");
    b.ip_addr = "10.0.0.1".to_string();
    b.hostname = "other".to_string();
    router.add_server(a.clone());
    router.add_server(b);
    router.remove_server(&a);
    assert_eq!(router.servers.len(), 1);
    assert_eq!(router.servers[0].hostname, "other");
}

#[test]
fn cookie_is_found_among_other_cookies() {
    let req = read(
        "GET / HTTP/1.1\r\nHost: 127.0.0.1:8080\r\nCookie: theme=dark;cookie_01=ab; lang=fr\r\n\r\n",
        10,
    );
    assert_eq!(req.id_session, "ab");
    let absent = read("GET / HTTP/1.1\r\nCookie: theme=dark\r\n\r\n", 10);
    assert_eq!(absent.id_session, "");
}

#[test]
fn parent_segments_are_refused() {
    let server = test_server("www");
    let mut req = read("GET /../secret.txt HTTP/1.1\r\nHost: 127.0.0.1:8080\r\n\r\n", 10);
    let plan = server.handle_request(&mut req, 10, &probe_file());
    match plan {
        RequestPlan::ErrorPage { code, status } => {
            assert_eq!(code, 400);
            assert_eq!(status, "Bad Request");
        }
        _ => panic!("expected the traversal refusal"),
    }
}

#[test]
fn invalid_exclusion_pattern_fails_to_compile() {
    let mut server = test_server("www");
    server.exclusion = vec!["(".to_string()];
    assert!(server.compile_exclusions().is_none());
    server.exclusion = vec!["a+".to_string()];
    assert!(server.compile_exclusions().is_some());
}

#[test]
fn serve_file_outcomes() {
    let server = test_server("www");
    match server.serve_file_outcome(Some(b"data".to_vec()), "text/plain", false, "") {
        Reply::Done(resp) => {
            assert_eq!(resp.status, 200);
            assert_eq!(resp.body, b"data".to_vec());
            assert!(resp.head.contains("Content-Length: 4\r\n\r\n"));
        }
        _ => panic!("expected the framed file"),
    }
    match server.serve_file_outcome(None, "text/plain", false, "") {
        Reply::ErrorPage { code, status } => {
            assert_eq!(code, 500);
            assert_eq!(status, "Internal Server Error");
        }
        _ => panic!("expected the failure page"),
    }
}

#[test]
fn cookie_user_reads_first_pair() {
    assert_eq!(localhost::session::cookie_user("cookie_01=tok; other=x"), "tok");
    assert_eq!(localhost::session::cookie_user("plain"), "");
    assert_eq!(localhost::session::cookie_user(""), "");
}

#[test]
fn cookie_expiration_of_either_sign() {
    assert_eq!(
        Session::make_cookie("cookie_01", "x", 5),
        "Set-Cookie: cookie_01=x; Expires=5\r\n"
    );
    assert_eq!(
        Session::make_cookie("cookie_01", "x", -5),
        "Set-Cookie: cookie_01=x; Expires=-5\r\n"
    );
}

#[test]
fn field_names_do_not_match_inside_longer_names() {
    let mut req = Request::default();
    req.boundary = Some("B".to_string());
    req.body = "--B\r\nContent-Disposition: form-data; filename=\"f.txt\"\r\n\r\nx\r\n--B--\r\n"
        .to_string();
    assert_eq!(Request::extract_field(&req, "name"), "");
    assert_eq!(Request::extract_field(&req, "filename"), "f.txt");
}

#[test]
fn listing_outcomes() {
    let server = test_server("www");
    match server.listing_outcome(Some(b"<ul></ul>".to_vec()), "") {
        Reply::Done(resp) => {
            assert_eq!(resp.status, 200);
            assert!(resp.head.contains("Content-Length: 9\r\n\r\n"));
        }
        _ => panic!("expected the page"),
    }
    match server.listing_outcome(None, "") {
        Reply::ErrorPage { code, .. } => assert_eq!(code, 500),
        _ => panic!("expected the failure page"),
    }
}
