use dmkg::sim::malice::Malice;
use dmkg::web::{
    configuration, configure_request, header, numbers_among, parse_malice, request_line,
    requested_size, response_head, route, Header, Route,
};
use std::collections::BTreeMap;

#[test]
fn routes() {
    assert_eq!(route("GET", "/"), Route::Page);
    assert_eq!(route("GET", "/app.js"), Route::Script);
    assert_eq!(route("GET", "/style.css"), Route::Style);
    assert_eq!(route("GET", "/api/state"), Route::State);
    assert_eq!(route("POST", "/api/configure"), Route::Configure);
    assert_eq!(route("POST", "/api/advance"), Route::Advance);
    assert_eq!(route("POST", "/api/reset"), Route::Reset);
    assert_eq!(route("POST", "/"), Route::NotFound);
    assert_eq!(route("get", "/"), Route::NotFound);
    assert_eq!(Route::NotFound.status(), "404 Not Found");
    assert_eq!(Route::State.status(), "200 OK");
    assert_eq!(Route::Reset.content_type(), "application/json; charset=utf-8");
    assert_eq!(Route::Script.content_type(), "application/javascript; charset=utf-8");
    assert_eq!(Route::NotFound.content_type(), "text/plain; charset=utf-8");
}

#[test]
fn request_lines() {
    let pair = |m: &str, p: &str| (m.to_string(), p.to_string());
    assert_eq!(request_line("GET /api/state HTTP/1.1\r\n"), pair("GET", "/api/state"));
    assert_eq!(request_line("  POST\t/x  "), pair("POST", "/x"));
    assert_eq!(request_line("GET\r\n"), pair("GET", "/"));
    assert_eq!(request_line(" \r\n"), pair("", "/"));
}

#[test]
fn headers() {
    assert_eq!(header("\r\n"), Header::End);
    assert_eq!(header("Content-Length: 42\r\n"), Header::Length(42));
    assert_eq!(header("CONTENT-LENGTH:7"), Header::Length(7));
    assert_eq!(header("content-length: many\r\n"), Header::Length(0));
    assert_eq!(header("Content-Type: text/plain\r\n"), Header::Other);
    assert_eq!(header(" Content-Length: 42\r\n"), Header::Other);
}

#[test]
fn heads() {
    assert_eq!(
        response_head("200 OK", "text/html; charset=utf-8", 120),
        "HTTP/1.1 200 OK\r\nContent-Type: text/html; charset=utf-8\r\nContent-Length: 120\r\n\
         Connection: close\r\nCache-Control: no-store\r\n\r\n"
    );
}

#[test]
fn requested_malice() {
    let pair = |id: &str, tag: &str| (id.to_string(), Some(tag.to_string()));
    let pairs = vec![
        pair("1", "z"),
        pair("2", "pedersen"),
        pair("3", "honest"),
        pair("x", "both"),
        ("4".to_string(), None),
    ];
    let m = parse_malice(&pairs, &vec![2, 5]);
    assert_eq!(m.len(), 3);
    assert_eq!(m[&1], Malice::ZCommitment);
    assert_eq!(m[&2], Malice::PedersenShare);
    assert_eq!(m[&5], Malice::Both);
    assert!(parse_malice(&vec![], &vec![]).is_empty());
    assert_eq!(requested_size(None), 4);
    assert_eq!(requested_size(Some(6)), 6);
}

#[test]
fn configure_bodies() {
    let c = configure_request(
        r#"{"n": 6, "degree": 3, "malice": {"1": "z", "x": "both", "2": 7, "0": "pedersen"},
            "malicious": [1, "4", 5, -2, 3.5]}"#,
    );
    assert_eq!(c.n, 6);
    assert_eq!(c.degree, Some(3));
    let expected: BTreeMap<usize, Malice> =
        [(0, Malice::PedersenShare), (1, Malice::ZCommitment), (5, Malice::Both)]
            .into_iter()
            .collect();
    assert_eq!(c.malice, expected);
    // What is missing or of another kind counts for nothing.
    for body in ["", "no json", "[1, 2]", "{}", r#"{"n": "6", "degree": -1, "malice": [1]}"#] {
        let c = configure_request(body);
        assert_eq!(c.n, 4);
        assert_eq!(c.degree, None);
        assert!(c.malice.is_empty());
    }
    assert_eq!(configure_request(r#"{"degree": 0}"#).degree, Some(0));
}

#[test]
fn parts_of_a_request() {
    let items = vec![Some(3), None, Some(1), Some(3)];
    assert_eq!(numbers_among(&items), vec![3, 1, 3]);
    let members = vec![("3".to_string(), Some("z".to_string()))];
    let c = configuration(None, Some(2), Some(members), Some(items));
    assert_eq!((c.n, c.degree), (4, Some(2)));
    assert_eq!(c.malice.get(&3), Some(&Malice::ZCommitment));
    assert_eq!(c.malice.get(&1), Some(&Malice::Both));
    assert_eq!(c.malice.len(), 2);
    let c = configuration(Some(9), None, None, None);
    assert_eq!((c.n, c.degree, c.malice.len()), (9, None, 0));
}
