use wshttp::http::request::{check_path, erase_query_params, ParsedHeader, RawHeader, RawRequest};
use wshttp::http::response::{
    build_file_response, build_response, extension, file_name, mime_type_for_path, static_response,
    FileRead,
};
use wshttp::http::serv::{check_pool_size, push_path, resolve_static_path, route, Route};

#[test]
fn response_head_and_body() {
    let resp = build_response("200 OK", b"hello".to_vec(), "text/plain");
    assert_eq!(
        resp,
        b"HTTP/1.1 200 OK\r\nContent-Length: 5\r\nContent-Type: text/plain\r\n\r\nhello".to_vec()
    );
    let empty = build_response("500 INTERNAL SERVER ERROR", vec![], "text/plain");
    assert_eq!(
        empty,
        b"HTTP/1.1 500 INTERNAL SERVER ERROR\r\nContent-Length: 0\r\nContent-Type: text/plain\r\n\r\n"
            .to_vec()
    );
    let big = build_response("200 OK", vec![7u8; 1234], "a/b");
    assert!(big.starts_with(b"HTTP/1.1 200 OK\r\nContent-Length: 1234\r\nContent-Type: a/b\r\n\r\n"));
    assert_eq!(big.len(), 60 + 1234);
}

#[test]
fn check_path_refuses_dot_dot() {
    assert_eq!(check_path("/a/b.html"), Ok("/a/b.html"));
    assert_eq!(check_path("/a/../etc"), Err(403));
    assert_eq!(check_path(".."), Err(403));
    assert_eq!(check_path("/a./.b"), Ok("/a./.b"));
}

#[test]
fn erase_query_keeps_path() {
    assert_eq!(erase_query_params("/index.html?x=1?y"), "/index.html");
    assert_eq!(erase_query_params("/plain"), "/plain");
    assert_eq!(erase_query_params("?only"), "");
    assert_eq!(erase_query_params(""), "");
}

#[test]
fn file_names_and_extensions() {
    assert_eq!(file_name("/srv/a/index.html"), Some("index.html"));
    assert_eq!(file_name("/srv/a/"), Some("a"));
    assert_eq!(file_name("/srv/a/."), Some("a"));
    assert_eq!(file_name("/srv/.."), None);
    assert_eq!(file_name("/"), None);
    assert_eq!(file_name("."), None);
    assert_eq!(extension("a.tar.gz"), Some("gz"));
    assert_eq!(extension(".bashrc"), None);
    assert_eq!(extension("noext"), None);
    assert_eq!(extension("trail."), Some(""));
    assert_eq!(mime_type_for_path("/srv/x.css"), "text/css");
    assert_eq!(mime_type_for_path("/srv/x.jpeg"), "image/jpeg");
    assert_eq!(mime_type_for_path("/srv/x.JPG"), "application/octet-stream");
    assert_eq!(mime_type_for_path("/srv/.png"), "application/octet-stream");
    assert_eq!(mime_type_for_path("/srv/app.js"), "application/javascript");
}

#[test]
fn file_responses() {
    let ok = build_file_response("/srv/page.html", FileRead::Content(b"<p>".to_vec()));
    assert_eq!(
        ok,
        b"HTTP/1.1 200 OK\r\nContent-Length: 3\r\nContent-Type: text/html\r\n\r\n<p>".to_vec()
    );
    let missing = build_file_response("/srv/page.html", FileRead::NotFound);
    assert_eq!(
        missing,
        b"HTTP/1.1 404 NOT FOUND\r\nContent-Length: 14\r\nContent-Type: text/plain\r\n\r\nFile Not Found"
            .to_vec()
    );
    let failed = build_file_response("/srv/page.html", FileRead::Failed);
    assert_eq!(
        failed,
        b"HTTP/1.1 500 INTERNAL SERVER ERROR\r\nContent-Length: 0\r\nContent-Type: text/plain\r\n\r\n"
            .to_vec()
    );
    let not_file = static_response("/srv/dir", None);
    assert_eq!(
        not_file,
        b"HTTP/1.1 404 Not Found\r\nContent-Length: 9\r\nContent-Type: text/html\r\n\r\nNot Found".to_vec()
    );
    let bin = static_response("/srv/blob", Some(FileRead::Content(vec![0, 1])));
    assert_eq!(
        bin,
        b"HTTP/1.1 200 OK\r\nContent-Length: 2\r\nContent-Type: application/octet-stream\r\n\r\n\x00\x01"
            .to_vec()
    );
}

#[test]
fn static_paths() {
    assert_eq!(push_path("/srv", "a/b"), "/srv/a/b");
    assert_eq!(push_path("/srv/", "a"), "/srv/a");
    assert_eq!(push_path("", "a"), "a");
    assert_eq!(push_path("/srv", "/etc"), "/etc");
    assert_eq!(push_path("/srv", ""), "/srv/");
    assert_eq!(resolve_static_path("/srv", "my%20file.txt"), "/srv/my file.txt");
    assert_eq!(resolve_static_path("/srv", "%41%4a%zz%"), "/srv/AJ%zz%");
    assert_eq!(resolve_static_path("/srv", "%ff"), "/srv/\u{FFFD}");
    assert_eq!(resolve_static_path("/srv", "%2Fetc"), "/etc");
}

fn request(path: &str, headers: &[(&str, &str)]) -> ParsedHeader {
    ParsedHeader::from(RawRequest {
        method: Some("GET".to_string()),
        path: Some(path.to_string()),
        headers: headers
            .iter()
            .map(|(n, v)| RawHeader { name: n.to_string(), value: v.as_bytes().to_vec() })
            .collect(),
    })
}

#[test]
fn parsed_header_defaults_and_map() {
    let parsed = ParsedHeader::from(RawRequest {
        method: None,
        path: None,
        headers: vec![
            RawHeader { name: "A".to_string(), value: b"1".to_vec() },
            RawHeader { name: "".to_string(), value: b"dropped".to_vec() },
            RawHeader { name: "B".to_string(), value: vec![0x66, 0xff] },
            RawHeader { name: "A".to_string(), value: b"2".to_vec() },
        ],
    });
    assert_eq!(parsed.method, "GET");
    assert_eq!(parsed.path, "/");
    assert_eq!(parsed.body.len(), 0);
    assert_eq!(parsed.headers.len(), 2);
    assert_eq!(parsed.headers.get("A").map(|s| s.as_str()), Some("2"));
    assert_eq!(parsed.headers.get("B").map(|s| s.as_str()), Some("f\u{FFFD}"));
    assert_eq!(parsed.headers.get("a"), None);
    assert_eq!(parsed.headers.get(""), None);
}

#[test]
fn routes() {
    match route(&request("/a/../b", &[])) {
        Route::Forbidden { response } => assert_eq!(
            response,
            b"HTTP/1.1 403 Forbiden\r\nContent-Length: 8\r\nContent-Type: text/html\r\n\r\nForbiden"
                .to_vec()
        ),
        _ => panic!("expected a refusal"),
    }
    match route(&request("/docs/index.html?v=2", &[])) {
        Route::Static { path } => assert_eq!(path, "docs/index.html"),
        _ => panic!("expected a static file"),
    }
    match route(&request("ws", &[])) {
        Route::UpgradeMissing => {}
        _ => panic!("expected no upgrade"),
    }
    match route(&request(
        "/ws?x",
        &[("Upgrade", "websocket"), ("Sec-WebSocket-Key", "dGhlIHNhbXBsZSBub25jZQ==")],
    )) {
        Route::Upgrade { upgrade, handshake } => {
            assert_eq!(upgrade, "websocket");
            assert_eq!(
                handshake,
                "HTTP/1.1 101 Switching Protocols\r\nUpgrade: websocket\r\nConnection: Upgrade\r\nSec-WebSocket-Accept: s3pPLMBiTxaQ9kYGzzhZRbK+xOo=\r\n\r\n"
            );
        }
        _ => panic!("expected an upgrade"),
    }
    match route(&request("//ws", &[("Upgrade", "websocket")])) {
        Route::Static { path } => assert_eq!(path, "/ws"),
        _ => panic!("expected a static file"),
    }
}

#[test]
fn pool_size() {
    assert_eq!(check_pool_size(0), Err(1));
    assert_eq!(check_pool_size(200), Ok(200));
}
