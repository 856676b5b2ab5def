use xdiff::cli::parse_key_val;
use xdiff::{DiffConfig, DiffProfile, ExtraArgs, RequestProfile, ResponseProfile};

fn bv(s: &str) -> Vec<u8> {
    s.as_bytes().to_vec()
}

#[test]
fn plain_key_is_a_query_override() {
    let kv = parse_key_val(b"limit=10").unwrap();
    let args = ExtraArgs::from_key_vals(vec![kv]);
    assert_eq!(args.query, vec![(bv("limit"), bv("10"))]);
    assert!(args.headers.is_empty());
    assert!(args.body.is_empty());
}

#[test]
fn percent_key_is_a_header_override_and_is_trimmed() {
    let kv = parse_key_val(b" %accept = application/json ").unwrap();
    let args = ExtraArgs::from_key_vals(vec![kv]);
    assert_eq!(args.headers, vec![(bv("accept"), bv("application/json"))]);
}

#[test]
fn at_key_is_a_body_override() {
    let kv = parse_key_val(b"@count=3").unwrap();
    let args = ExtraArgs::from_key_vals(vec![kv]);
    assert_eq!(args.body, vec![(bv("count"), bv("3"))]);
}

#[test]
fn malformed_tokens_are_refused() {
    assert!(parse_key_val(b"no-equals-sign").is_err());
    assert!(parse_key_val(b"=value").is_err());
    assert!(parse_key_val(b"1name=value").is_err());
    assert!(parse_key_val(b"").is_err());
}

#[test]
fn empty_value_is_allowed() {
    let kv = parse_key_val(b"key=").unwrap();
    let args = ExtraArgs::from_key_vals(vec![kv]);
    assert_eq!(args.query, vec![(bv("key"), bv(""))]);
}

#[test]
fn partition_keeps_order_within_each_kind() {
    let kvs = vec![
        parse_key_val(b"a=1").unwrap(),
        parse_key_val(b"%h1=x").unwrap(),
        parse_key_val(b"b=2").unwrap(),
        parse_key_val(b"@f=3").unwrap(),
        parse_key_val(b"%h2=y").unwrap(),
    ];
    let args = ExtraArgs::from_key_vals(kvs);
    assert_eq!(args.query, vec![(bv("a"), bv("1")), (bv("b"), bv("2"))]);
    assert_eq!(args.headers, vec![(bv("h1"), bv("x")), (bv("h2"), bv("y"))]);
    assert_eq!(args.body, vec![(bv("f"), bv("3"))]);
}

fn small_profile(url: &str) -> DiffProfile {
    DiffProfile {
        request1: RequestProfile {
            method: bv("GET"),
            url: bv(url),
            params: None,
            headers: vec![],
            body: None,
        },
        request2: RequestProfile {
            method: bv("GET"),
            url: bv(url),
            params: None,
            headers: vec![],
            body: None,
        },
        response: ResponseProfile { skip_headers: vec![], skip_body: vec![] },
    }
}

#[test]
fn get_profile_finds_by_exact_name() {
    let config = DiffConfig {
        profiles: vec![
            (bv("todo"), small_profile("http://a.example/x")),
            (bv("user"), small_profile("http://b.example/y")),
        ],
    };
    let p = config.get_profile(b"user").unwrap();
    assert_eq!(p.request1.url, bv("http://b.example/y"));
    assert!(config.get_profile(b"User").is_none());
    assert!(config.get_profile(b"missing").is_none());
}

#[test]
fn value_may_contain_an_equals_sign() {
    let kv = parse_key_val(b"a=b=c").unwrap();
    let args = ExtraArgs::from_key_vals(vec![kv]);
    assert_eq!(args.query, vec![(bv("a"), bv("b=c"))]);
}
