use flyd::upstream::{relay_upstream, UpstreamResult};

#[test]
fn valid_upstream_json_is_relayed_as_ok() {
    let r = relay_upstream(&UpstreamResult::Body(String::from("{\"error\":\"not found\"}")));
    assert_eq!(r.status, 200);
    assert_eq!(r.body, "{\"error\":\"not found\"}");
}

#[test]
fn upstream_json_is_reserialized() {
    let r = relay_upstream(&UpstreamResult::Body(String::from(" [ 1 , 2 ] ")));
    assert_eq!(r.status, 200);
    assert_eq!(r.body, "[1,2]");
}

#[test]
fn transport_failure_maps_to_500() {
    let r = relay_upstream(&UpstreamResult::TransportFailure(String::from("boom")));
    assert_eq!(r.status, 500);
    assert_eq!(r.body, "API request failed: boom");
}

#[test]
fn unparsable_upstream_body_maps_to_500() {
    let r = relay_upstream(&UpstreamResult::Body(String::from("not json")));
    assert_eq!(r.status, 500);
    assert!(r.body.starts_with("Failed to read response body: "));
    assert!(r.body.len() > "Failed to read response body: ".len());
}
