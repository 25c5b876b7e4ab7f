use dirserve::mime::{extension, mime_type};
use dirserve::path::{confined, join, resolve};
use dirserve::request::parse_request;
use dirserve::response::{build_listing, build_response, is_image, reads_as_image, OK_STATUS};
use dirserve::server::{complete, route, Found, Step};

const ROOT: &[u8] = b"/srv/site";

fn text(b: &[u8]) -> String {
    String::from_utf8(b.to_vec()).unwrap()
}

fn serve(request: &[u8], found: Found) -> Vec<u8> {
    match route(ROOT, request) {
        Step::Respond(r) => r,
        Step::Lookup { path, target } => complete(&path, &target, &found),
    }
}

fn lookup(request: &[u8]) -> (Vec<u8>, Vec<u8>) {
    match route(ROOT, request) {
        Step::Respond(r) => panic!("answered at once: {}", text(&r)),
        Step::Lookup { path, target } => (path, target),
    }
}

#[test]
fn parses_target_of_first_line() {
    let t = parse_request(b"GET /index.html HTTP/1.1\r\nHost: localhost\r\n\r\n");
    assert_eq!(t, Some(b"index.html".to_vec()));
}

#[test]
fn parses_root_target_as_empty() {
    assert_eq!(parse_request(b"GET / HTTP/1.1\r\n"), Some(Vec::new()));
}

#[test]
fn parses_with_extra_whitespace_and_any_method() {
    let t = parse_request(b"  POST \t/a/b.txt   HTTP/1.1\r\n");
    assert_eq!(t, Some(b"a/b.txt".to_vec()));
}

#[test]
fn request_without_crlf_is_malformed() {
    assert_eq!(parse_request(b"GET /index.html HTTP/1.1"), None);
}

#[test]
fn request_with_one_token_is_malformed() {
    assert_eq!(parse_request(b"GET\r\n\r\n"), None);
    assert_eq!(parse_request(b"\r\n"), None);
}

#[test]
fn malformed_request_gets_bad_request() {
    assert_eq!(text(&serve(b"nonsense", Found::Missing)), "HTTP/1.1 400 Bad Request\r\n\r\n");
}

#[test]
fn joins_with_single_separator() {
    assert_eq!(join(b"/srv", b"a/b"), b"/srv/a/b".to_vec());
    assert_eq!(join(b"/srv/", b"a"), b"/srv/a".to_vec());
    assert_eq!(join(b"/srv", b""), b"/srv".to_vec());
    assert_eq!(join(b"", b"a"), b"a".to_vec());
}

#[test]
fn confinement_rejects_parent_segments_and_absolute_targets() {
    assert!(!confined(b"../../etc/passwd"));
    assert!(!confined(b"a/../../b"));
    assert!(!confined(b"a/.."));
    assert!(!confined(b".."));
    assert!(!confined(b"/etc/passwd"));
    assert!(confined(b"a/..b/c"));
    assert!(confined(b"..."));
    assert!(confined(b""));
    assert!(confined(b"docs/./a.txt"));
}

#[test]
fn resolves_under_root() {
    assert_eq!(resolve(ROOT, b"a/b.txt"), Some(b"/srv/site/a/b.txt".to_vec()));
    assert_eq!(resolve(ROOT, b"../x"), None);
}

#[test]
fn traversal_is_not_found() {
    let r = serve(b"GET /../../etc/passwd HTTP/1.1\r\n\r\n", Found::File(Some(b"root:x".to_vec())));
    assert_eq!(text(&r), "HTTP/1.1 404 Not Found\r\n\r\n");
    let r = serve(b"GET //etc/passwd HTTP/1.1\r\n\r\n", Found::File(Some(b"root:x".to_vec())));
    assert_eq!(text(&r), "HTTP/1.1 404 Not Found\r\n\r\n");
}

#[test]
fn extension_of_last_segment() {
    assert_eq!(extension(b"/a/b/c.tar.gz"), b"gz");
    assert_eq!(extension(b"/a/.bashrc"), b"");
    assert_eq!(extension(b"/a.d/readme"), b"");
    assert_eq!(extension(b"/a/file."), b"");
}

#[test]
fn mime_by_extension() {
    assert_eq!(mime_type(b"/x/index.html"), "text/html");
    assert_eq!(mime_type(b"/x/style.css"), "text/css");
    assert_eq!(mime_type(b"/x/app.js"), "application/javascript");
    assert_eq!(mime_type(b"/x/photo.jpg"), "image/jpeg");
    assert_eq!(mime_type(b"/x/photo.jpeg"), "image/jpeg");
    assert_eq!(mime_type(b"/x/a.tar.gz"), "application/gzip");
    assert_eq!(mime_type(b"/x/script.py"), "text/x-python");
    assert_eq!(
        mime_type(b"/x/sheet.xlsx"),
        "application/vnd.openxmlformats-officedocument.spreadsheetml.sheet"
    );
}

#[test]
fn unknown_extension_is_octet_stream() {
    assert_eq!(mime_type(b"/x/data.bin"), "application/octet-stream");
    assert_eq!(mime_type(b"/x/INDEX.HTML"), "application/octet-stream");
    assert_eq!(mime_type(b"/x/noext"), "application/octet-stream");
    assert_eq!(mime_type(b"/x/data.bin"), mime_type(b"/y/other.bin"));
}

#[test]
fn image_types() {
    assert!(is_image("image/png"));
    assert!(!is_image("text/html"));
    assert!(!is_image("image"));
    assert!(reads_as_image(b"/x/a.gif"));
    assert!(!reads_as_image(b"/x/a.txt"));
}

#[test]
fn index_html_is_served_verbatim() {
    let (path, target) = lookup(b"GET /index.html HTTP/1.1\r\n\r\n");
    assert_eq!(path, b"/srv/site/index.html".to_vec());
    let r = complete(&path, &target, &Found::File(Some(b"<p>hi</p>".to_vec())));
    assert_eq!(text(&r), "HTTP/1.1 200 OK\r\nContent-Type: text/html\r\n\r\n<p>hi</p>");
}

#[test]
fn missing_file_is_not_found() {
    let r = serve(b"GET /missing.txt HTTP/1.1\r\n\r\n", Found::Missing);
    assert_eq!(text(&r), "HTTP/1.1 404 Not Found\r\n\r\n");
}

#[test]
fn text_file_keeps_its_type() {
    let r = build_response(OK_STATUS, b"/srv/notes.txt", Some(b"hello"));
    assert_eq!(text(&r), "HTTP/1.1 200 OK\r\nContent-Type: text/plain\r\n\r\nhello");
}

#[test]
fn unreadable_text_file_is_server_error() {
    let r = build_response(OK_STATUS, b"/srv/notes.txt", None);
    assert_eq!(text(&r), "HTTP/1.1 500 Internal Server Error\r\n\r\n");
}

#[test]
fn image_is_embedded_as_base64() {
    let r = build_response(OK_STATUS, b"/srv/dot.png", Some(&[1, 2, 3, 4]));
    assert_eq!(
        text(&r),
        "HTTP/1.1 200 OK\r\nContent-Type: text/html\r\n\r\n<img src='data:image/png;base64,AQIDBA==' />"
    );
}

#[test]
fn unreadable_image_has_empty_body() {
    let r = build_response(OK_STATUS, b"/srv/dot.gif", None);
    assert_eq!(text(&r), "HTTP/1.1 200 OK\r\nContent-Type: text/html\r\n\r\n");
}

#[test]
fn image_round_trips_through_base64() {
    let data: Vec<u8> = (0..=255u8).rev().chain(0..7).collect();
    let r = text(&serve(b"GET /pics/cat.jpg HTTP/1.1\r\n\r\n", Found::File(Some(data.clone()))));
    let start = r.find(";base64,").unwrap() + ";base64,".len();
    let end = r.rfind("' />").unwrap();
    assert!(r.contains("data:image/jpeg;base64,"));
    assert_eq!(base64::decode(&r[start..end]).unwrap(), data);
}

#[test]
fn listing_has_one_anchor_per_child() {
    let names = vec![b"a.txt".to_vec(), b"sub".to_vec(), b"b.png".to_vec()];
    let r = text(&serve(b"GET /docs HTTP/1.1\r\n\r\n", Found::Directory(Some(names))));
    assert!(r.starts_with("HTTP/1.1 200 OK\r\nContent-Type: text/html\r\n\r\n"));
    assert_eq!(r.matches("<a ").count(), 3);
    for rel in ["docs/a.txt", "docs/sub", "docs/b.png"] {
        let a = format!("<a class='listItem' href='/{}'>{}</a>", rel, rel);
        assert_eq!(r.matches(&a).count(), 1);
    }
    let i = r.find("docs/a.txt").unwrap();
    let j = r.find("docs/sub").unwrap();
    let k = r.find("docs/b.png").unwrap();
    assert!(i < j && j < k);
    assert!(r.contains("<title>Directory Listing</title>"));
}

#[test]
fn empty_directory_lists_nothing() {
    let r = text(&build_listing(OK_STATUS, b"empty", Some(&Vec::new())));
    assert_eq!(r.matches("<a ").count(), 0);
    assert!(r.contains("<div class='list'>"));
}

#[test]
fn unreadable_directory_is_server_error() {
    let r = serve(b"GET /locked HTTP/1.1\r\n\r\n", Found::Directory(None));
    assert_eq!(text(&r), "HTTP/1.1 500 Internal Server Error\r\n\r\n");
}

#[test]
fn root_target_lists_root_children() {
    let (path, target) = lookup(b"GET / HTTP/1.1\r\n\r\n");
    assert_eq!(path, ROOT.to_vec());
    assert!(target.is_empty());
    let names = vec![b"index.html".to_vec(), b"docs".to_vec()];
    let r = text(&complete(&path, &target, &Found::Directory(Some(names))));
    assert!(r.contains("<a class='listItem' href='/index.html'>index.html</a>"));
    assert!(r.contains("<a class='listItem' href='/docs'>docs</a>"));
}

#[test]
fn same_request_same_response() {
    let req = b"GET /docs HTTP/1.1\r\n\r\n";
    let names = vec![b"x".to_vec(), b"y.css".to_vec()];
    let a = serve(req, Found::Directory(Some(names.clone())));
    let b = serve(req, Found::Directory(Some(names)));
    assert_eq!(a, b);
    let a = serve(b"GET /i.png HTTP/1.1\r\n\r\n", Found::File(Some(vec![9, 8, 7])));
    let b = serve(b"GET /i.png HTTP/1.1\r\n\r\n", Found::File(Some(vec![9, 8, 7])));
    assert_eq!(a, b);
}
