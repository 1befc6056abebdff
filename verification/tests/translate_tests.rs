use flyd::json::Json;
use flyd::translate::{
    error_response, health_body, hello_body, is_valid_create_body, translate_create,
    translate_list, ListQuery, Method, ProxyError,
};

fn obj(fields: Vec<(&str, Json)>) -> Json {
    Json::Obj(fields.into_iter().map(|(k, v)| (String::from(k), v)).collect())
}

fn s(text: &str) -> Json {
    Json::Str(String::from(text))
}

fn auth_bytes() -> Vec<u8> {
    b"Bearer abc".to_vec()
}

#[test]
fn create_translates_to_public_host() {
    let body = obj(vec![("app_name", s("myapp")), ("name", s("m1")), ("region", s("iad"))]);
    let auth = auth_bytes();
    let out = translate_create(Some(&auth), body).unwrap();
    assert!(matches!(out.method, Method::Post));
    assert_eq!(out.url, "https://api.machines.dev/v1/apps/myapp/machines");
    assert_eq!(out.auth, b"Bearer abc".to_vec());
    assert_eq!(out.body.unwrap(), "{\"name\":\"m1\",\"region\":\"iad\"}");
}

#[test]
fn create_without_credential_is_unauthorized() {
    let body = obj(vec![("app_name", s("myapp"))]);
    let r = translate_create(None, body);
    let e = r.err().unwrap();
    assert!(matches!(e, ProxyError::Unauthorized));
    let resp = error_response(&e);
    assert_eq!(resp.status, 401);
    assert_eq!(resp.body, "Authorization header required");
}

#[test]
fn create_strips_consumed_fields_and_keeps_the_rest() {
    let body = obj(vec![
        ("app_name", s("x")),
        ("foo", obj(vec![("bar", Json::Arr(vec![Json::Num(String::from("1")), Json::Num(String::from("2"))]))])),
        ("use_private_api", Json::Bool(false)),
        ("name", Json::Null),
    ]);
    let auth = auth_bytes();
    let out = translate_create(Some(&auth), body).unwrap();
    assert_eq!(out.body.unwrap(), "{\"foo\":{\"bar\":[1,2]},\"name\":null}");
}

#[test]
fn create_uses_private_host_when_flagged() {
    let body = obj(vec![("app_name", s("myapp")), ("use_private_api", Json::Bool(true))]);
    let auth = auth_bytes();
    let out = translate_create(Some(&auth), body).unwrap();
    assert_eq!(out.url, "http://fly-api.internal:4280/v1/apps/myapp/machines");
    assert_eq!(out.body.unwrap(), "{}");
}

#[test]
fn create_rejects_unusable_credential_bytes() {
    let body = obj(vec![("app_name", s("myapp"))]);
    let bad = b"Bearer\nabc".to_vec();
    let e = translate_create(Some(&bad), body).err().unwrap();
    match e {
        ProxyError::Internal(ref m) => assert_eq!(m, "failed to parse header value"),
        _ => panic!("expected the internal condition"),
    }
    let resp = error_response(&e);
    assert_eq!(resp.status, 500);
    assert_eq!(resp.body, "failed to parse header value");
}

#[test]
fn body_validity_is_checked_structurally() {
    assert!(is_valid_create_body(&obj(vec![("app_name", s("a"))])));
    assert!(!is_valid_create_body(&obj(vec![("name", s("a"))])));
    assert!(!is_valid_create_body(&obj(vec![("app_name", Json::Bool(true))])));
    assert!(!is_valid_create_body(&obj(vec![
        ("app_name", s("a")),
        ("use_private_api", s("yes")),
    ])));
    assert!(!is_valid_create_body(&Json::Null));
}

fn list_query(app: &str, private: bool, deleted: bool, region: Option<&str>) -> ListQuery {
    ListQuery {
        app_name: String::from(app),
        use_private_api: private,
        include_deleted: deleted,
        region: region.map(String::from),
    }
}

#[test]
fn list_without_credential_is_unauthorized() {
    let q = list_query("myapp", false, true, None);
    let e = translate_list(None, &q).err().unwrap();
    assert!(matches!(e, ProxyError::Unauthorized));
    assert_eq!(error_response(&e).status, 401);
}

#[test]
fn list_on_private_host_appends_no_query() {
    let auth = auth_bytes();
    let q = list_query("myapp", true, false, None);
    let out = translate_list(Some(&auth), &q).unwrap();
    assert!(matches!(out.method, Method::Get));
    assert_eq!(out.url, "http://fly-api.internal:4280/v1/apps/myapp/machines");
    assert!(out.body.is_none());
}

#[test]
fn list_appends_include_deleted_only_when_set() {
    let auth = auth_bytes();
    let q = list_query("myapp", false, true, None);
    let out = translate_list(Some(&auth), &q).unwrap();
    assert_eq!(
        out.url,
        "https://api.machines.dev/v1/apps/myapp/machines?include_deleted=true"
    );
}

#[test]
fn list_appends_region_only_when_supplied() {
    let auth = auth_bytes();
    let q = list_query("myapp", false, false, Some("iad"));
    let out = translate_list(Some(&auth), &q).unwrap();
    assert_eq!(out.url, "https://api.machines.dev/v1/apps/myapp/machines?region=iad");
}

#[test]
fn list_appends_both_filters_in_order() {
    let auth = auth_bytes();
    let q = list_query("myapp", false, true, Some("iad"));
    let out = translate_list(Some(&auth), &q).unwrap();
    assert_eq!(
        out.url,
        "https://api.machines.dev/v1/apps/myapp/machines?include_deleted=true&region=iad"
    );
}

#[test]
fn region_value_is_form_encoded() {
    let auth = auth_bytes();
    let q = list_query("myapp", false, false, Some("a b/c"));
    let out = translate_list(Some(&auth), &q).unwrap();
    assert_eq!(
        out.url,
        "https://api.machines.dev/v1/apps/myapp/machines?region=a+b%2Fc"
    );
    let q2 = list_query("myapp", false, false, Some("d\u{ed}a"));
    let out2 = translate_list(Some(&auth), &q2).unwrap();
    assert_eq!(
        out2.url,
        "https://api.machines.dev/v1/apps/myapp/machines?region=d%C3%ADa"
    );
}

#[test]
fn repeating_a_listing_translation_gives_the_same_request() {
    let auth = auth_bytes();
    let q = list_query("myapp", false, true, Some("iad"));
    let a = translate_list(Some(&auth), &q).unwrap();
    let b = translate_list(Some(&auth), &q).unwrap();
    assert_eq!(a.url, b.url);
    assert_eq!(a.auth, b.auth);
    assert!(a.body.is_none() && b.body.is_none());
    assert!(matches!(a.method, Method::Get) && matches!(b.method, Method::Get));
}

#[test]
fn fixed_endpoint_bodies() {
    assert_eq!(hello_body(), "flyd!");
    assert_eq!(health_body(), "YES!");
}
