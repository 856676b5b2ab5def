use xdiff::{
    after_first, diff_text, parse_json, to_json, DiffProfile, Error, ExtraArgs, NextStep,
    RequestProfile, ResponseExt, ResponseProfile,
};

fn bv(s: &str) -> Vec<u8> {
    s.as_bytes().to_vec()
}

fn no_overrides() -> ExtraArgs {
    ExtraArgs { headers: vec![], query: vec![], body: vec![] }
}

fn template(url: &str) -> RequestProfile {
    RequestProfile {
        method: bv("GET"),
        url: bv(url),
        params: None,
        headers: vec![],
        body: None,
    }
}

fn json_response(body: &str) -> ResponseExt {
    ResponseExt {
        version: bv("HTTP/1.1"),
        status: 200,
        headers: vec![(bv("content-type"), bv("application/json"))],
        body: bv(body),
    }
}

fn profile_skipping(skip_headers: Vec<Vec<u8>>, skip_body: Vec<Vec<u8>>) -> ResponseProfile {
    ResponseProfile { skip_headers, skip_body }
}

#[test]
fn normalizing_twice_is_byte_identical() {
    let resp = ResponseExt {
        version: bv("HTTP/1.1"),
        status: 200,
        headers: vec![
            (bv("Date"), bv("Mon, 01 Jan 2024 00:00:00 GMT")),
            (bv("content-type"), bv("application/json; charset=utf-8")),
        ],
        body: bv("{\"b\":2,\"a\":1}"),
    };
    let rules = profile_skipping(vec![bv("Date")], vec![]);
    let once = resp.filter_text(&rules).unwrap();
    let twice = resp.filter_text(&rules).unwrap();
    assert_eq!(once, twice);
}

#[test]
fn skipped_date_header_never_rendered_in_either_order() {
    let rules = profile_skipping(vec![bv("Date")], vec![]);
    let make = |headers: Vec<(Vec<u8>, Vec<u8>)>| ResponseExt {
        version: bv("HTTP/1.1"),
        status: 200,
        headers,
        body: bv("plain"),
    };
    let first = make(vec![
        (bv("DATE"), bv("Mon, 01 Jan 2024 00:00:00 GMT")),
        (bv("x-id"), bv("7")),
    ]);
    let second = make(vec![
        (bv("x-id"), bv("7")),
        (bv("Date"), bv("Mon, 01 Jan 2024 00:00:00 GMT")),
    ]);
    for resp in [first, second] {
        let text = String::from_utf8(resp.filter_text(&rules).unwrap()).unwrap();
        assert!(!text.to_ascii_lowercase().contains("date:"), "{}", text);
        assert!(text.contains("x-id: 7\n"));
    }
}

#[test]
fn skip_body_removes_top_level_key_only() {
    let resp = json_response("{\"timestamp\":1,\"inner\":{\"timestamp\":2},\"x\":3}");
    let rules = profile_skipping(vec![], vec![bv("timestamp")]);
    let text = String::from_utf8(resp.filter_text(&rules).unwrap()).unwrap();
    let expected_body = "{\n  \"inner\": {\n    \"timestamp\": 2\n  },\n  \"x\": 3\n}";
    assert!(text.ends_with(expected_body), "{}", text);
    assert!(!text.contains("\"timestamp\": 1"));
}

#[test]
fn status_line_and_blank_separator() {
    let resp = ResponseExt {
        version: bv("HTTP/1.1"),
        status: 404,
        headers: vec![(bv("x-a"), bv("b"))],
        body: bv("nothing here"),
    };
    let rules = profile_skipping(vec![], vec![]);
    let text = String::from_utf8(resp.filter_text(&rules).unwrap()).unwrap();
    assert_eq!(text, "HTTP/1.1 404\nx-a: b\n\nnothing here");
}

#[test]
fn malformed_json_body_is_refused() {
    let resp = json_response("{broken");
    let rules = profile_skipping(vec![], vec![]);
    assert!(matches!(resp.filter_text(&rules), Err(Error::MalformedBody)));
}

#[test]
fn non_json_body_passes_through_and_skip_body_is_inert() {
    let resp = ResponseExt {
        version: bv("HTTP/1.1"),
        status: 200,
        headers: vec![(bv("content-type"), bv("text/plain"))],
        body: bv("timestamp: 5"),
    };
    let rules = profile_skipping(vec![], vec![bv("timestamp")]);
    let text = String::from_utf8(resp.filter_text(&rules).unwrap()).unwrap();
    assert!(text.ends_with("\n\ntimestamp: 5"));
}

#[test]
fn body_override_merges_into_template_body() {
    let mut t = template("http://example.com/a");
    t.body = Some(parse_json(b"{\"a\":1}").unwrap());
    let args = ExtraArgs {
        headers: vec![],
        query: vec![],
        body: vec![(bv("b"), bv("2"))],
    };
    let merged = t.generate(&args).unwrap();
    assert_eq!(merged.body, bv("{\"a\":1,\"b\":2}"));
}

#[test]
fn override_values_are_read_as_scalars() {
    let t = template("http://example.com/a");
    let args = ExtraArgs {
        headers: vec![],
        query: vec![
            (bv("flag"), bv("true")),
            (bv("n"), bv("3.5")),
            (bv("s"), bv("abc")),
        ],
        body: vec![],
    };
    let merged = t.generate(&args).unwrap();
    assert_eq!(
        to_json(&merged.query),
        bv("{\"flag\":true,\"n\":3.5,\"s\":\"abc\"}")
    );
}

#[test]
fn content_type_defaults_to_json() {
    let t = template("http://example.com/a");
    let merged = t.generate(&no_overrides()).unwrap();
    let ct = merged
        .headers
        .iter()
        .find(|(k, _)| k.eq_ignore_ascii_case(b"content-type"))
        .map(|(_, v)| v.clone());
    assert_eq!(ct, Some(bv("application/json")));
    assert_eq!(merged.body, bv("{}"));
}

#[test]
fn header_override_replaces_case_insensitively() {
    let mut t = template("http://example.com/a");
    t.headers = vec![(bv("X-Token"), bv("old"))];
    let args = ExtraArgs {
        headers: vec![(bv("x-token"), bv("new"))],
        query: vec![],
        body: vec![],
    };
    let merged = t.generate(&args).unwrap();
    let tokens: Vec<_> = merged
        .headers
        .iter()
        .filter(|(k, _)| k.eq_ignore_ascii_case(b"x-token"))
        .collect();
    assert_eq!(tokens.len(), 1);
    assert_eq!(tokens[0].1, bv("new"));
}

#[test]
fn illegal_header_override_fails() {
    let t = template("http://example.com/a");
    let args = ExtraArgs {
        headers: vec![(bv("bad name"), bv("v"))],
        query: vec![],
        body: vec![],
    };
    assert!(matches!(t.generate(&args), Err(Error::InvalidHeader)));
    let args2 = ExtraArgs {
        headers: vec![(bv("ok"), bv("bad\x07value"))],
        query: vec![],
        body: vec![],
    };
    assert!(matches!(t.generate(&args2), Err(Error::InvalidHeader)));
}

#[test]
fn unknown_content_type_fails() {
    let mut t = template("http://example.com/a");
    t.headers = vec![(bv("content-type"), bv("text/plain"))];
    assert!(matches!(
        t.generate(&no_overrides()),
        Err(Error::UnsupportedContentType)
    ));
}

#[test]
fn form_encoded_body() {
    let mut t = template("http://example.com/a");
    t.headers = vec![(bv("Content-Type"), bv("application/x-www-form-urlencoded"))];
    t.body = Some(parse_json(b"{\"a\":\"b c\",\"n\":7}").unwrap());
    let merged = t.generate(&no_overrides()).unwrap();
    assert_eq!(merged.body, bv("a=b+c&n=7"));
}

#[test]
fn diff_text_equal_says_no_differences() {
    assert_eq!(diff_text(b"a\nb", b"a\nb"), bv("no differences"));
}

#[test]
fn diff_text_marks_changed_middle_line() {
    let out = String::from_utf8(diff_text(b"a\nx\nc", b"a\ny\nc")).unwrap();
    assert_eq!(out, "  a\n- x\n+ y\n  c\n");
}

fn diff_profile(skip_body: Vec<Vec<u8>>) -> DiffProfile {
    DiffProfile {
        request1: template("http://one.example/a"),
        request2: template("http://two.example/a"),
        response: profile_skipping(vec![], skip_body),
    }
}

#[test]
fn identical_but_for_skipped_key_yields_no_differences() {
    let p = diff_profile(vec![bv("server_time")]);
    let r1 = json_response("{\"data\":1,\"server_time\":111}");
    let r2 = json_response("{\"data\":1,\"server_time\":222}");
    let out = p.diff_responses(&r1, &r2).unwrap();
    assert_eq!(out, bv("no differences"));
}

#[test]
fn differing_value_shows_line_level_difference() {
    let p = diff_profile(vec![]);
    let r1 = json_response("{\"x\":1}");
    let r2 = json_response("{\"x\":2}");
    let out = String::from_utf8(p.diff_responses(&r1, &r2).unwrap()).unwrap();
    assert!(out.contains("-   \"x\": 1\n"), "{}", out);
    assert!(out.contains("+   \"x\": 2\n"), "{}", out);
}

#[test]
fn first_side_failure_aborts_before_second_dispatch() {
    let p = diff_profile(vec![]);
    let args = no_overrides();
    let (_m1, m2) = p.prepare(&args).unwrap();
    let mut dispatch_count = 0;

    // The harness plays transport: the first exchange fails.
    dispatch_count += 1;
    let outcome: Result<ResponseExt, Error> = Err(Error::Io(bv("connection refused")));

    match after_first(outcome) {
        NextStep::Abort(e) => {
            assert!(matches!(e, Error::Io(_)));
        }
        NextStep::DispatchSecond(_) => {
            // Only this arm would send the second request.
            dispatch_count += 1;
            let _ = &m2;
            panic!("second request must not be dispatched after a first-side failure");
        }
    }
    assert_eq!(dispatch_count, 1);
}

#[test]
fn charset_parameter_still_counts_as_json() {
    let resp = ResponseExt {
        version: bv("HTTP/1.1"),
        status: 200,
        headers: vec![(bv("Content-Type"), bv("Application/JSON; charset=utf-8"))],
        body: bv("{\"a\":1}"),
    };
    let rules = profile_skipping(vec![], vec![]);
    let text = String::from_utf8(resp.filter_text(&rules).unwrap()).unwrap();
    assert!(text.ends_with("{\n  \"a\": 1\n}"), "{}", text);
}

#[test]
fn multipart_body_is_form_encoded() {
    let mut t = template("http://example.com/a");
    t.headers = vec![(bv("content-type"), bv("multipart/form-data"))];
    t.body = Some(parse_json(b"{\"k\":\"v=w&\"}").unwrap());
    let merged = t.generate(&no_overrides()).unwrap();
    assert_eq!(merged.body, bv("k=v%3Dw%26"));
}

#[test]
fn diff_text_keeps_leading_and_trailing_context() {
    let out = String::from_utf8(diff_text(b"h\na\nt", b"h\nb\nc\nt")).unwrap();
    assert_eq!(out, "  h\n- a\n+ b\n+ c\n  t\n");
}

#[test]
fn member_order_in_the_body_bytes_does_not_matter() {
    let rules = profile_skipping(vec![], vec![]);
    let a = json_response("{\"b\":2,\"a\":1,\"n\":{\"y\":4,\"x\":3}}");
    let b = json_response("{\"a\":1,\"n\":{\"x\":3,\"y\":4},\"b\":2}");
    let ta = a.filter_text(&rules).unwrap();
    let tb = b.filter_text(&rules).unwrap();
    assert_eq!(ta, tb);
    let text = String::from_utf8(ta).unwrap();
    assert!(
        text.ends_with("{\n  \"a\": 1,\n  \"b\": 2,\n  \"n\": {\n    \"x\": 3,\n    \"y\": 4\n  }\n}"),
        "{}",
        text
    );
}

#[test]
fn reordered_but_equal_bodies_yield_no_differences() {
    let p = diff_profile(vec![]);
    let r1 = json_response("{\"b\":2,\"a\":1}");
    let r2 = json_response("{\"a\":1,\"b\":2}");
    let out = p.diff_responses(&r1, &r2).unwrap();
    assert_eq!(out, bv("no differences"));
}

#[test]
fn duplicate_keys_collapse_to_the_last_occurrence() {
    let rules = profile_skipping(vec![], vec![]);
    let resp = json_response("{\"a\":1,\"a\":2,\"b\":3}");
    let text = String::from_utf8(resp.filter_text(&rules).unwrap()).unwrap();
    assert!(text.ends_with("{\n  \"a\": 2,\n  \"b\": 3\n}"), "{}", text);
}
