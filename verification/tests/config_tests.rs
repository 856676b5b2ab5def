use xdiff::{parse_json, to_json, DiffConfig, DiffProfile, RequestProfile, ResponseProfile};

fn bv(s: &str) -> Vec<u8> {
    s.as_bytes().to_vec()
}

fn sample_config() -> DiffConfig {
    let request1 = RequestProfile {
        method: bv("GET"),
        url: bv("http://one.example/todo"),
        params: Some(parse_json(b"{\"page\":1}").unwrap()),
        headers: vec![(bv("accept"), bv("application/json"))],
        body: None,
    };
    let request2 = RequestProfile {
        method: bv("POST"),
        url: bv("https://two.example/todo"),
        params: None,
        headers: vec![],
        body: Some(parse_json(b"{\"q\":\"x\"}").unwrap()),
    };
    let response = ResponseProfile {
        skip_headers: vec![bv("Date"), bv("x-request-id")],
        skip_body: vec![bv("server_time")],
    };
    DiffConfig {
        profiles: vec![(bv("todo"), DiffProfile { request1, request2, response })],
    }
}

#[test]
fn config_value_round_trip_is_field_for_field_equal() {
    let config = sample_config();
    let value = config.to_value();
    let reloaded = DiffConfig::from_value(&value).unwrap();

    assert_eq!(reloaded.profiles.len(), 1);
    let (name, p) = &reloaded.profiles[0];
    let (_, orig) = &config.profiles[0];
    assert_eq!(name, &bv("todo"));
    assert_eq!(p.request1.method, orig.request1.method);
    assert_eq!(p.request1.url, orig.request1.url);
    assert_eq!(p.request1.headers, orig.request1.headers);
    assert_eq!(
        p.request1.params.as_ref().map(to_json),
        orig.request1.params.as_ref().map(to_json)
    );
    assert_eq!(p.request2.method, orig.request2.method);
    assert_eq!(p.request2.url, orig.request2.url);
    assert_eq!(
        p.request2.body.as_ref().map(to_json),
        orig.request2.body.as_ref().map(to_json)
    );
    assert_eq!(p.response.skip_headers, orig.response.skip_headers);
    assert_eq!(p.response.skip_body, orig.response.skip_body);

    // Writing the reloaded configuration out again gives the same value.
    assert_eq!(to_json(&reloaded.to_value()), to_json(&value));
}

#[test]
fn config_text_round_trip_through_rendering_and_parsing() {
    let config = sample_config();
    let text = to_json(&config.to_value());
    let parsed = parse_json(&text).unwrap();
    let reloaded = DiffConfig::from_value(&parsed).unwrap();
    assert_eq!(to_json(&reloaded.to_value()), text);
}

#[test]
fn from_value_refuses_a_missing_url() {
    let v = parse_json(b"{\"p\":{\"request1\":{\"method\":\"GET\"},\"request2\":{\"url\":\"http://a.example/\"}}}")
        .unwrap();
    assert!(DiffConfig::from_value(&v).is_err());
}

#[test]
fn from_value_refuses_a_relative_url() {
    let v = parse_json(b"{\"p\":{\"request1\":{\"url\":\"/relative\"},\"request2\":{\"url\":\"http://a.example/\"}}}")
        .unwrap();
    assert!(DiffConfig::from_value(&v).is_err());
}

#[test]
fn from_value_defaults_method_and_rules() {
    let v = parse_json(
        b"{\"p\":{\"request1\":{\"url\":\"http://a.example/\"},\"request2\":{\"url\":\"http://b.example/\"}}}",
    )
    .unwrap();
    let config = DiffConfig::from_value(&v).unwrap();
    let (_, p) = &config.profiles[0];
    assert_eq!(p.request1.method, bv("GET"));
    assert!(p.response.skip_headers.is_empty());
    assert!(p.response.skip_body.is_empty());
}
