use ipinfo_round_robin_api::http::{
    build_bare_response, build_response, build_retry_response, build_text_response, is_refused,
    is_success, read_header,
};

#[test]
fn replies_keep_status_type_and_body() {
    let reply = build_response(200, "text/plain", b"US".to_vec());
    assert_eq!(reply.status, 200);
    assert_eq!(reply.content_type.as_deref(), Some("text/plain"));
    assert_eq!(reply.retry_after, None);
    assert_eq!(reply.body, b"US".to_vec());
}

#[test]
fn odd_status_becomes_an_internal_error() {
    for (given, sent) in [(0, 500), (99, 500), (100, 100), (418, 418), (999, 999), (1000, 500)] {
        assert_eq!(build_response(given, "a/b", vec![]).status, sent);
    }
}

#[test]
fn content_types_that_are_no_header_are_left_out() {
    for (given, kept) in [
        ("text/plain; charset=utf-8", true),
        ("", true),
        ("a\tb", true),
        ("a\nb", false),
        ("a\u{7f}", false),
        ("\0", false),
        ("ü", true),
    ] {
        let reply = build_response(200, given, vec![]);
        assert_eq!(reply.content_type.is_some(), kept, "{given:?}");
    }
}

#[test]
fn header_texts() {
    assert_eq!(read_header(&None), None);
    assert_eq!(read_header(&Some(b"no-cache\t~ ".to_vec())).as_deref(), Some("no-cache\t~ "));
    assert_eq!(read_header(&Some(vec![])).as_deref(), Some(""));
    assert_eq!(read_header(&Some(vec![b'a', 0x7f])), None);
    assert_eq!(read_header(&Some(vec![0xc3, 0xbc])), None);
    assert_eq!(read_header(&Some(b"a\nb".to_vec())), None);
}

#[test]
fn status_classes() {
    for status in 0..1000u16 {
        assert_eq!(is_success(status), (200..300).contains(&status));
        assert_eq!(is_refused(status), status == 401 || status == 429);
    }
}

#[test]
fn fixed_replies() {
    let reply = build_text_response(400, "no");
    assert_eq!((reply.status, reply.body), (400, b"no".to_vec()));
    assert_eq!(reply.content_type.as_deref(), Some("text/plain; charset=utf-8"));
    let reply = build_retry_response(503, "later", 60);
    assert_eq!(reply.retry_after.as_deref(), Some("60"));
    let reply = build_bare_response(502);
    assert_eq!((reply.status, reply.body.len()), (502, 0));
    assert_eq!(reply.content_type, None);
}
