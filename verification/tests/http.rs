use netdiag::http::{
    build_http_request, parse_header_line, parse_http_response, parse_status_line, parse_url,
    resolve_redirect, should_follow_redirect, split_lines, status_class, HttpError, StatusClass,
};

#[test]
fn url_with_scheme_port_and_path() {
    let u = parse_url("http://example.com:8080/a/b?q=1").unwrap();
    assert_eq!(u.host, "example.com");
    assert_eq!(u.port, 8080);
    assert_eq!(u.path, "/a/b?q=1");
    assert!(!u.is_https);
}

#[test]
fn url_defaults() {
    let u = parse_url("https://example.com").unwrap();
    assert_eq!(u.host, "example.com");
    assert_eq!(u.port, 443);
    assert_eq!(u.path, "/");
    assert!(u.is_https);

    let u = parse_url("example.com/x").unwrap();
    assert_eq!(u.host, "example.com");
    assert_eq!(u.port, 80);
    assert_eq!(u.path, "/x");
    assert!(!u.is_https);

    let u = parse_url("  http://pad.org/  ").unwrap();
    assert_eq!(u.host, "pad.org");
    assert_eq!(u.path, "/");
}

#[test]
fn url_with_bad_port_is_rejected() {
    assert_eq!(parse_url("http://h:99999/x").unwrap_err(), HttpError::InvalidPort);
    assert_eq!(parse_url("http://h:ab").unwrap_err(), HttpError::InvalidPort);
}

#[test]
fn request_line_is_exact() {
    assert_eq!(
        build_http_request("example.com", "/x"),
        "GET /x HTTP/1.1\r\nHost: example.com\r\nUser-Agent: netdiag/0.1.0\r\nConnection: close\r\n\r\n"
    );
}

#[test]
fn lines_split_on_newlines_and_drop_carriage_returns() {
    let ls = split_lines("a\r\nb\n\nc");
    assert_eq!(ls, vec!["a", "b", "", "c"]);
    let ls = split_lines("a\n");
    assert_eq!(ls, vec!["a"]);
    let ls = split_lines("");
    assert!(ls.is_empty());
}

#[test]
fn status_line_parsing() {
    assert_eq!(parse_status_line("HTTP/1.1 200 OK").unwrap(), 200);
    assert_eq!(parse_status_line("  HTTP/1.1   301  ").unwrap(), 301);
    assert_eq!(
        parse_status_line("HTTP/1.1").unwrap_err(),
        HttpError::InvalidStatusLine
    );
    assert_eq!(parse_status_line("").unwrap_err(), HttpError::InvalidStatusLine);
    assert_eq!(
        parse_status_line("HTTP/1.1 abc").unwrap_err(),
        HttpError::InvalidStatusCode
    );
}

#[test]
fn header_line_parsing() {
    let (n, v) = parse_header_line("Content-Length:  42 ").unwrap();
    assert_eq!(n, "Content-Length");
    assert_eq!(v, "42");
    assert!(parse_header_line("no colon here").is_none());
}

#[test]
fn whole_response_parsing() {
    let text = "HTTP/1.1 301 Moved\r\nServer: t\r\nLocation: /old\r\nLocation: /new\r\n\r\nSkipped: yes\r\n";
    let r = parse_http_response(text).unwrap();
    assert_eq!(r.status, 301);
    assert_eq!(r.headers.len(), 3);
    assert_eq!(r.headers[0], ("Server".to_string(), "t".to_string()));
    // The last Location header wins, and nothing after the blank line counts.
    assert_eq!(r.location.as_deref(), Some("/new"));
    assert_eq!(
        parse_http_response("").unwrap_err(),
        HttpError::EmptyResponse
    );
}

#[test]
fn redirect_resolution() {
    assert_eq!(
        resolve_redirect("http://a.com/x", "https://b.com/y").unwrap(),
        "https://b.com/y"
    );
    assert_eq!(
        resolve_redirect("http://a.com:8080/x", "/z").unwrap(),
        "http://a.com:8080/z"
    );
    assert_eq!(
        resolve_redirect("http://a.com/dir/", "p").unwrap(),
        "http://a.com/dir/p"
    );
    assert_eq!(resolve_redirect("http://a.com/", "p").unwrap(), "http://a.com/p");
    assert_eq!(
        resolve_redirect("https://a.com/x", "/y").unwrap(),
        "https://a.com/y"
    );
}

#[test]
fn status_classes() {
    assert_eq!(status_class(204), StatusClass::Success);
    assert_eq!(status_class(307), StatusClass::Redirect);
    assert_eq!(status_class(404), StatusClass::ClientError);
    assert_eq!(status_class(503), StatusClass::ServerError);
    assert_eq!(status_class(199), StatusClass::Other);
    assert_eq!(status_class(600), StatusClass::Other);
}

#[test]
fn redirect_following_decision() {
    assert!(should_follow_redirect(302, true, 0, true));
    assert!(!should_follow_redirect(302, false, 0, true));
    assert!(!should_follow_redirect(302, true, 5, true));
    assert!(!should_follow_redirect(302, true, 0, false));
    assert!(!should_follow_redirect(200, true, 0, true));
}
