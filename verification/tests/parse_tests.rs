use localhost::request::Request;
use localhost::response::build_head;
use localhost::server::Server;
use localhost::{
    get_boundary, get_content_length, is_valid_ip, remove_prefix, remove_suffix,
};

#[test]
fn prefix_and_suffix_removal() {
    assert_eq!(remove_suffix("www/".to_string(), "/"), "www");
    assert_eq!(remove_suffix("www".to_string(), "/"), "www");
    assert_eq!(remove_prefix("/x".to_string(), "/"), "x");
    assert_eq!(remove_prefix("x".to_string(), "/"), "x");
    assert_eq!(remove_prefix("".to_string(), "/"), "");
}

#[test]
fn boundary_extraction() {
    let req = "Content-Type: multipart/form-data; boundary=ab-C_9\r\n".to_string();
    assert_eq!(get_boundary(&req).as_deref(), Some("ab-C_9"));
    let no_cr = "boundary=abc".to_string();
    assert_eq!(get_boundary(&no_cr), None);
    let empty_token = "boundary=\r\n".to_string();
    assert_eq!(get_boundary(&empty_token), None);
    let later = "boundary=x y\r\nboundary=ok\r\n".to_string();
    assert_eq!(get_boundary(&later).as_deref(), Some("ok"));
}

#[test]
fn content_length_extraction() {
    let req = "Host: h\r\nContent-Length: 42\r\n".to_string();
    assert_eq!(get_content_length(&req).as_deref(), Some("42"));
    let tight = "Content-Length:7\r\n".to_string();
    assert_eq!(get_content_length(&tight).as_deref(), Some("7"));
    let none = "Content-Length: x\r\n".to_string();
    assert_eq!(get_content_length(&none), None);
}

#[test]
fn ipv4_validation() {
    assert!(is_valid_ip("127.0.0.1"));
    assert!(is_valid_ip("0.0.0.0"));
    assert!(is_valid_ip("255.255.255.255"));
    assert!(!is_valid_ip("256.1.1.1"));
    assert!(!is_valid_ip("01.2.3.4"));
    assert!(!is_valid_ip("1.2.3"));
    assert!(!is_valid_ip("1.2.3.4.5"));
    assert!(!is_valid_ip("a.b.c.d"));
    assert!(!is_valid_ip(""));
}

#[test]
fn header_parsing_details() {
    let mut req = Request::default();
    let head = "GET /a%20b HTTP/1.1\nHost: example.com:9090\nCookie: cookie_01=tok123\nAccept: text/html\nEmpty:\n";
    Request::parse_http_request(head, &mut req);
    assert_eq!(req.location, "/a%20b");
    assert_eq!(req.host, "example.com");
    assert_eq!(req.port, 9090);
    assert_eq!(req.id_session, "tok123");
    assert_eq!(req.headers.len(), 2);
    assert_eq!(req.headers[0].0, "Cookie");
    assert_eq!(req.headers[0].1, "cookie_01=tok123");
    assert_eq!(req.headers[1].0, "Accept");
    assert_eq!(req.headers[1].1, "text/html");
}

#[test]
fn host_without_port_keeps_default() {
    let mut req = Request::default();
    Request::parse_http_request("GET / HTTP/1.1\nHost: plain\n", &mut req);
    assert_eq!(req.host, "plain");
    assert_eq!(req.port, 0);
    let mut req2 = Request::default();
    Request::parse_http_request("GET / HTTP/1.1\nHost: h:notanumber\n", &mut req2);
    assert_eq!(req2.port, 80);
}

#[test]
fn header_value_scan() {
    let lines = vec![
        "Referer: http://x/".to_string(),
        "X-Thing: a=1; b=2".to_string(),
        "X-Thing: c=3".to_string(),
    ];
    assert_eq!(Request::extract_header_value(&lines, "X-Thing:"), "3");
    assert_eq!(Request::extract_header_value(&lines, "Absent:"), "");
}

#[test]
fn uri_decode_rewrites_head() {
    let mut req = Request::default();
    req.location = "/a%41b".to_string();
    req.head = "GET /a%41b HTTP/1.1\r\nHost: h\r\n\r\n".to_string();
    req.uri_decode();
    assert_eq!(req.location, "/aAb");
    assert_eq!(req.head, "GET /aAb HTTP/1.1\r\nHost: h\r\n\r\n");
}

#[test]
fn uri_decode_keeps_plain_locations() {
    let mut req = Request::default();
    req.location = "/plain".to_string();
    req.head = "lowercase head".to_string();
    req.uri_decode();
    assert_eq!(req.location, "/plain");
    assert_eq!(req.head, "lowercase head");
}

#[test]
fn multipart_field_extraction() {
    let mut req = Request::default();
    req.boundary = Some("B".to_string());
    req.body = "--B\r\nContent-Disposition: form-data; name=\"foldername\"\r\n\r\nalbum\r\n--B--\r\n"
        .to_string();
    assert_eq!(Request::extract_field(&req, "name"), "foldername");
    assert_eq!(Request::extract_field(&req, "value"), "album");
    assert_eq!(Request::extract_field(&req, "filename"), "");
    let mut no_boundary = Request::default();
    no_boundary.body = req.body.clone();
    assert_eq!(Request::extract_field(&no_boundary, "name"), "");
}

#[test]
fn payload_extraction_is_byte_exact() {
    let wire = b"POST /d HTTP/1.1\r\nHeaders: x\r\n\r\n--B\r\nContent-Disposition: form-data; name=\"f\"; filename=\"h.bin\"\r\nContent-Type: a/b\r\n\r\n\x00\x01binary\xff\r\n--B--\r\n";
    let out = Request::extract_values(wire, "B".to_string());
    assert_eq!(out, b"\x00\x01binary\xff".to_vec());
}

#[test]
fn payload_with_boundary_text_inside_is_cut_at_marker() {
    let wire = b"head\r\n\r\n--B\r\ninner\r\n\r\npayload with B inside\r\n--B--\r\n";
    let out = Request::extract_values(wire, "B".to_string());
    assert_eq!(out, b"payload with B inside".to_vec());
}

#[test]
fn payload_extraction_tolerates_missing_markers() {
    assert_eq!(Request::extract_values(b"no markers here", "B".to_string()), Vec::<u8>::new());
    assert_eq!(Request::extract_values(b"", "B".to_string()), Vec::<u8>::new());
}

#[test]
fn head_builder_writes_exact_text() {
    let h = build_head(200, "OK", "", 5);
    assert_eq!(h, "HTTP/1.1 200 OK\r\nContent-Length: 5\r\n\r\n");
    let h2 = build_head(404, "Not Found", "Connection: keep-alive\r\n", 0);
    assert_eq!(h2, "HTTP/1.1 404 Not Found\r\nConnection: keep-alive\r\nContent-Length: 0\r\n\r\n");
}

#[test]
fn clean_path_prefers_asset_roots() {
    assert_eq!(Server::check_and_clean_path("/site/images/logo.png"), "/images/logo.png");
    assert_eq!(Server::check_and_clean_path("/site/css/a.css"), "/css/a.css");
    assert_eq!(Server::check_and_clean_path("/plain/file.txt"), "plain/file.txt");
}

#[test]
fn resolve_path_joins_root_and_cleaned() {
    let server = Server::new(
        "127.0.0.1".to_string(),
        "h".to_string(),
        vec![80],
        "www/".to_string(),
        "e".to_string(),
        "d".to_string(),
        1,
        vec![],
        true,
        vec![],
        vec![],
    );
    assert_eq!(server.resolve_path("/file.txt", "GET", false), "./www/file.txt");
    assert_eq!(server.resolve_path("/dir", "GET", true), "./src/static_files/index.html");
    assert_eq!(server.resolve_path("/x/css/m.css", "GET", false), "./src/static_files/css/m.css");
}

#[test]
fn continuation_fragment_keeps_all_bytes() {
    let text = "not a method line";
    let bytes: Vec<u8> = text.as_bytes().to_vec();
    let r = Request::read_request(text, &bytes, 10);
    assert_eq!(r.method, "");
    assert!(!r.complete);
    assert_eq!(r.body, text);
    assert_eq!(r.body_byte, bytes);
}

#[test]
fn get_without_blank_line_is_complete() {
    let text = "GET /x HTTP/1.1";
    let bytes: Vec<u8> = text.as_bytes().to_vec();
    let r = Request::read_request(text, &bytes, 10);
    assert!(r.complete);
    assert_eq!(r.method, "GET");
    assert_eq!(r.head, text);
    assert_eq!(r.location, "");
}

#[test]
fn uri_decode_keeps_location_on_bad_escape() {
    let mut req = Request::default();
    req.location = "/a%FFb".to_string();
    req.head = "GET /a%FFb HTTP/1.1\r\n".to_string();
    req.uri_decode();
    assert_eq!(req.location, "/a%FFb");
}

#[test]
fn content_types_by_extension() {
    let server = Server::new(
        "127.0.0.1".to_string(),
        "h".to_string(),
        vec![80],
        "www".to_string(),
        "e".to_string(),
        "d".to_string(),
        1,
        vec!["GET".to_string()],
        true,
        vec![],
        vec![],
    );
    let mut req = Request::default();
    req.method = "GET".to_string();
    req.location = "/doc.pdf".to_string();
    req.complete = true;
    let probe = localhost::server::FsProbe {
        location_is_dir: false,
        dir_readable: false,
        final_path_exists: true,
    };
    match server.handle_request(&mut req, 10, &probe) {
        localhost::server::RequestPlan::ServeFile { content_type, pdf_inline, run_script, .. } => {
            assert_eq!(content_type, "application/pdf");
            assert!(pdf_inline);
            assert!(!run_script);
        }
        _ => panic!("expected a file plan"),
    }
    let mut req2 = Request::default();
    req2.method = "GET".to_string();
    req2.location = "/run.rb".to_string();
    req2.complete = true;
    match server.handle_request(&mut req2, 10, &probe) {
        localhost::server::RequestPlan::ServeFile { content_type, pdf_inline, run_script, .. } => {
            assert_eq!(content_type, "text/plain");
            assert!(!pdf_inline);
            assert!(run_script);
        }
        _ => panic!("expected a file plan"),
    }
}

#[test]
fn percent_encoding_round_trip() {
    let path = "/files/a b+c.txt";
    let encoded = urlencoding::encode(path).into_owned();
    let mut req = Request::default();
    req.location = encoded;
    req.uri_decode();
    assert_eq!(req.location, path);
}
