use arboretum::web::{EmbedServer, EmbeddedFile, RequestMethod, ResponseBody};

struct Site;

fn server() -> EmbedServer<Site> {
    EmbedServer::new()
}

fn header<'a>(headers: &'a [(String, String)], name: &str) -> Option<&'a str> {
    headers.iter().find(|(n, _)| n == name).map(|(_, v)| v.as_str())
}

fn file() -> EmbeddedFile {
    EmbeddedFile { len: 12, sha256: vec![0xfb, 0xff, 0x00, 0x10], last_modified: Some(784111777) }
}

#[test]
fn file_paths_for_request_paths() {
    let s = server();
    assert_eq!(s.file_path("/"), "index.html");
    assert_eq!(s.file_path(""), "index.html");
    assert_eq!(s.file_path("/about"), "about.html");
    assert_eq!(s.file_path("///app.js"), "app.js");
    assert_eq!(s.file_path("/docs/guide"), "docs/guide.html");
    assert_eq!(s.file_path("/docs/"), "docs/.html");
    assert_eq!(s.file_path("/.hidden"), ".hidden.html");
    assert_eq!(s.file_path("/a/.."), "a/..index.html");
}

#[test]
fn method_not_allowed() {
    let plan = server().respond(RequestMethod::Other, "index.html", Some(&file()), None);
    assert_eq!(plan.status, 405);
    assert_eq!(plan.headers, vec![("allow".to_string(), "GET, HEAD, OPTIONS".to_string())]);
    assert_eq!(plan.body, ResponseBody::Empty);
}

#[test]
fn not_found() {
    let plan = server().respond(RequestMethod::Get, "missing.html", None, None);
    assert_eq!(plan.status, 404);
    assert!(plan.headers.is_empty());
    assert_eq!(plan.body, ResponseBody::Empty);
}

#[test]
fn found_file_headers() {
    let plan = server().respond(RequestMethod::Get, "app.js", Some(&file()), None);
    assert_eq!(plan.status, 200);
    assert_eq!(plan.body, ResponseBody::File);
    let names: Vec<&str> = plan.headers.iter().map(|(n, _)| n.as_str()).collect();
    assert_eq!(names, vec!["content-type", "content-length", "etag", "cache-control", "last-modified"]);
    assert_eq!(header(&plan.headers, "content-type"), Some("text/javascript"));
    assert_eq!(header(&plan.headers, "content-length"), Some("12"));
    assert_eq!(header(&plan.headers, "etag"), Some("-_8AEA"));
    assert_eq!(header(&plan.headers, "cache-control"), Some("max-age=0, must-revalidate"));
    assert_eq!(header(&plan.headers, "last-modified"), Some("Sun, 6 Nov 1994 08:49:37 +0000"));

    let unknown = server().respond(RequestMethod::Get, "blob", Some(&EmbeddedFile { last_modified: None, ..file() }), None);
    assert_eq!(header(&unknown.headers, "content-type"), Some("application/octet-stream"));
    assert_eq!(header(&unknown.headers, "last-modified"), None);

    let last_year = server().respond(
        RequestMethod::Get,
        "a.css",
        Some(&EmbeddedFile { last_modified: Some(253402300799), ..file() }),
        None,
    );
    assert_eq!(header(&last_year.headers, "last-modified"), Some("Fri, 31 Dec 9999 23:59:59 +0000"));

    let huge = server().respond(RequestMethod::Get, "a.css", Some(&EmbeddedFile { last_modified: Some(u64::MAX), ..file() }), None);
    assert_eq!(header(&huge.headers, "content-type"), Some("text/css"));
    assert_eq!(header(&huge.headers, "last-modified"), None);
}

#[test]
fn conditional_and_head_requests() {
    let s = server();
    let plan = s.respond(RequestMethod::Get, "index.html", Some(&file()), Some("-_8AEA"));
    assert_eq!(plan.status, 304);
    assert_eq!(plan.body, ResponseBody::Empty);
    assert_eq!(header(&plan.headers, "etag"), Some("-_8AEA"));

    let plan = s.respond(RequestMethod::Get, "index.html", Some(&file()), Some("other"));
    assert_eq!(plan.status, 200);
    assert_eq!(plan.body, ResponseBody::File);

    let plan = s.respond(RequestMethod::Head, "index.html", Some(&file()), None);
    assert_eq!(plan.status, 200);
    assert_eq!(plan.body, ResponseBody::Empty);
    assert_eq!(header(&plan.headers, "content-length"), Some("12"));

    let plan = s.respond(RequestMethod::Head, "index.html", Some(&file()), Some("-_8AEA"));
    assert_eq!(plan.status, 304);
}
