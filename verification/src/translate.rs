use vstd::prelude::*;
use vstd::string::StrSliceExecFns;
use vstd::string::StringExecFns;
use vstd::utf8::encode_utf8;

use crate::encode::form_encode;
use crate::encode::form_encoded_bytes;
use crate::json::Json;
use crate::json::member;
use crate::json::obj_get;
use crate::json::render_json;
use crate::json::rendered_pairs;
use crate::upstream::chars_to_string;
use crate::upstream::check_url;
use crate::upstream::url_err_of;
use crate::upstream::url_parses;

verus! {

broadcast use vstd::seq_lib::group_filter_ensures;

/// The HTTP method of a translated request.
pub enum Method {
    Get,
    Post,
}

/// The request sent upstream: everything the transport needs, as plain
/// values. The credential travels as the bytes the caller supplied.
pub struct OutboundRequest {
    pub method: Method,
    pub url: String,
    pub auth: Vec<u8>,
    pub body: Option<String>,
}

/// A failure of the translation itself; each variant maps to one
/// caller-facing status.
#[derive(Debug)]
pub enum ProxyError {
    Unauthorized,
    Internal(String),
}

/// What the caller receives: a status code and a plain body.
pub struct CallerResponse {
    pub status: u16,
    pub body: String,
}

/// The parsed query of a listing request.
pub struct ListQuery {
    pub app_name: String,
    pub use_private_api: bool,
    pub include_deleted: bool,
    pub region: Option<String>,
}

/// The upstream base address: the internal-network variant when the
/// private-API flag is set, the public one otherwise.
pub open spec fn host_of(use_private: bool) -> Seq<char> {
    if use_private {
        "http://fly-api.internal:4280"@
    } else {
        "https://api.machines.dev"@
    }
}

/// The machines resource path for an application.
pub open spec fn machines_path(app: Seq<char>) -> Seq<char> {
    "/v1/apps/"@ + app + "/machines"@
}

/// A byte the transport accepts in a header value: horizontal tab, or any
/// byte from space on except delete.
pub open spec fn valid_header_byte(b: u8) -> bool {
    b == 9 || (b >= 32 && b != 127)
}

/// Whether the credential bytes can be carried as a header value.
pub open spec fn valid_header_value(bs: Seq<u8>) -> bool {
    forall|i: int| 0 <= i < bs.len() ==> valid_header_byte(bs[i])
}

/// The diagnostic for credential bytes the transport refuses.
pub open spec fn header_error_text() -> Seq<char> {
    "failed to parse header value"@
}

/// The diagnostic prefix for a URL that does not parse.
pub open spec fn url_error_prefix() -> Seq<char> {
    "Failed to parse URL: "@
}

/// A configuration field that is forwarded upstream: every field except the
/// two this proxy itself consumes.
pub open spec fn is_forwarded_field(p: (String, Json)) -> bool {
    p.0@ != "app_name"@ && p.0@ != "use_private_api"@
}

/// The member list of a JSON object; empty for any other value.
pub open spec fn obj_members(j: Json) -> Seq<(String, Json)> {
    match j {
        Json::Obj(pairs) => pairs@,
        _ => Seq::<(String, Json)>::empty(),
    }
}

/// The application name named in a creation body.
pub open spec fn spec_app_name(j: Json) -> Option<Seq<char>> {
    match member(obj_members(j), "app_name"@) {
        Option::Some(v) => match v {
            Json::Str(s) => Option::Some(s@),
            _ => Option::None,
        },
        Option::None => Option::None,
    }
}

/// The private-API flag of a creation body; absent means false.
pub open spec fn spec_use_private(j: Json) -> bool {
    match member(obj_members(j), "use_private_api"@) {
        Option::Some(v) => match v {
            Json::Bool(b) => b,
            _ => false,
        },
        Option::None => false,
    }
}

/// A well-formed creation body: a JSON object naming the application as a
/// string, with the private-API flag, if present, a boolean.
pub open spec fn create_body_wf(j: Json) -> bool {
    &&& j is Obj
    &&& spec_app_name(j) is Some
    &&& match member(obj_members(j), "use_private_api"@) {
        Option::Some(v) => v is Bool,
        Option::None => true,
    }
}

/// The outbound creation body: the configuration object with the two
/// consumed fields excluded and every other field kept, in order.
pub open spec fn stripped_config_text(j: Json) -> Seq<char> {
    seq!['{'] + rendered_pairs(obj_members(j).filter(|p: (String, Json)| is_forwarded_field(p)))
        + seq!['}']
}

/// The URL a creation request is forwarded to.
pub open spec fn create_url(j: Json) -> Seq<char> {
    host_of(spec_use_private(j)) + machines_path(spec_app_name(j)->Some_0)
}

/// The query parameters a listing request forwards: `include_deleted=true`
/// only if the flag was set, `region=<value>` only if a region was supplied.
pub open spec fn query_pairs_of(include_deleted: bool, region: Option<Seq<char>>) -> Seq<
    (Seq<char>, Seq<char>),
> {
    (if include_deleted {
        seq![("include_deleted"@, "true"@)]
    } else {
        Seq::<(Seq<char>, Seq<char>)>::empty()
    }) + (match region {
        Option::Some(r) => seq![("region"@, form_encoded_bytes(encode_utf8(r)))],
        Option::None => Seq::<(Seq<char>, Seq<char>)>::empty(),
    })
}

/// Query parameters written as `key=value`, joined with `&`.
pub open spec fn rendered_query_pairs(ps: Seq<(Seq<char>, Seq<char>)>) -> Seq<char>
    decreases ps.len(),
{
    if ps.len() == 0 {
        Seq::<char>::empty()
    } else if ps.len() == 1 {
        ps[0].0 + seq!['='] + ps[0].1
    } else {
        ps[0].0 + seq!['='] + ps[0].1 + seq!['&'] + rendered_query_pairs(ps.drop_first())
    }
}

/// A query string: empty without parameters, otherwise `?` and the pairs.
pub open spec fn rendered_query(ps: Seq<(Seq<char>, Seq<char>)>) -> Seq<char> {
    if ps.len() == 0 {
        Seq::<char>::empty()
    } else {
        seq!['?'] + rendered_query_pairs(ps)
    }
}

/// The character view of an optional string.
pub open spec fn region_view(r: Option<String>) -> Option<Seq<char>> {
    match r {
        Option::Some(s) => Option::Some(s@),
        Option::None => Option::None,
    }
}

/// The URL a listing request is forwarded to.
pub open spec fn list_url(q: ListQuery) -> Seq<char> {
    host_of(q.use_private_api) + machines_path(q.app_name@) + rendered_query(
        query_pairs_of(q.include_deleted, region_view(q.region)),
    )
}

/// The credential bytes offered with a request, if any.
pub open spec fn auth_view(auth: Option<&Vec<u8>>) -> Option<Seq<u8>> {
    match auth {
        Option::Some(b) => Option::Some(b@),
        Option::None => Option::None,
    }
}

/// What a translation comes to, as one abstract value: it either fails with
/// a named condition or forwards one fully determined request.
pub enum Outcome {
    Unauthorized,
    Internal { message: Seq<char> },
    Forward { method: Method, url: Seq<char>, auth: Seq<u8>, body: Option<Seq<char>> },
}

/// The abstract value of a translation result.
pub open spec fn outcome_of(r: Result<OutboundRequest, ProxyError>) -> Outcome {
    match r {
        Result::Ok(o) => Outcome::Forward {
            method: o.method,
            url: o.url@,
            auth: o.auth@,
            body: match o.body {
                Option::Some(s) => Option::Some(s@),
                Option::None => Option::None,
            },
        },
        Result::Err(ProxyError::Unauthorized) => Outcome::Unauthorized,
        Result::Err(ProxyError::Internal(m)) => Outcome::Internal { message: m@ },
    }
}

/// How a translation turns out, given the credential, the chosen host
/// variant and the URL it would forward to.
pub open spec fn translated(
    auth: Option<Seq<u8>>,
    method: Method,
    url: Seq<char>,
    body: Option<Seq<char>>,
) -> Outcome {
    match auth {
        Option::None => Outcome::Unauthorized,
        Option::Some(a) => if !valid_header_value(a) {
            Outcome::Internal { message: header_error_text() }
        } else if !url_parses(url) {
            Outcome::Internal { message: url_error_prefix() + url_err_of(url) }
        } else {
            Outcome::Forward { method, url, auth: a, body }
        },
    }
}

/// The outcome a creation request must translate to.
pub open spec fn create_outcome(auth: Option<Seq<u8>>, body: Json) -> Outcome {
    translated(auth, Method::Post, create_url(body), Option::Some(stripped_config_text(body)))
}

/// The outcome a listing request must translate to.
pub open spec fn list_outcome(auth: Option<Seq<u8>>, q: ListQuery) -> Outcome {
    translated(auth, Method::Get, list_url(q), Option::None)
}

/// Selects the upstream host for a request.
pub fn upstream_host(use_private: bool) -> (r: &'static str)
    ensures
        r@ == host_of(use_private),
{
    if use_private {
        "http://fly-api.internal:4280"
    } else {
        "https://api.machines.dev"
    }
}

/// Whether every byte can be carried in a header value.
pub fn check_header_value(bs: &Vec<u8>) -> (r: bool)
    ensures
        r == valid_header_value(bs@),
{
    let mut i: usize = 0;
    while i < bs.len()
        invariant
            i <= bs@.len(),
            forall|k: int| 0 <= k < i ==> valid_header_byte(bs@[k]),
        decreases bs@.len() - i,
    {
        let b = bs[i];
        if !(b == 9 || (b >= 32 && b != 127)) {
            return false;
        }
        i += 1;
    }
    true
}

/// Copies credential bytes so they can travel with the outbound request.
fn copy_bytes(bs: &Vec<u8>) -> (r: Vec<u8>)
    ensures
        r@ == bs@,
{
    let mut out: Vec<u8> = Vec::new();
    let mut i: usize = 0;
    while i < bs.len()
        invariant
            i <= bs@.len(),
            out@ == bs@.subrange(0, i as int),
        decreases bs@.len() - i,
    {
        out.push(bs[i]);
        proof {
            assert(out@ =~= bs@.subrange(0, i + 1 as int));
        }
        i += 1;
    }
    proof {
        assert(out@ =~= bs@);
    }
    out
}

/// Checks the credential and picks the upstream host. Fails with
/// Unauthorized when no credential was offered, and with an Internal
/// condition when its bytes cannot travel as a header value; otherwise hands
/// back the credential bytes unchanged and the host for the chosen variant.
pub fn prepare_request(auth: Option<&Vec<u8>>, use_private: bool) -> (r: Result<
    (Vec<u8>, String),
    ProxyError,
>)
    ensures
        match r {
            Result::Ok(p) => auth matches Option::Some(b) && valid_header_value(b@) && p.0@ == b@
                && p.1@ == host_of(use_private),
            Result::Err(e) => match e {
                ProxyError::Unauthorized => auth is None,
                ProxyError::Internal(m) => auth matches Option::Some(b) && !valid_header_value(b@)
                    && m@ == header_error_text(),
            },
        },
{
    match auth {
        Option::None => Result::Err(ProxyError::Unauthorized),
        Option::Some(bytes) => {
            if !check_header_value(bytes) {
                return Result::Err(
                    ProxyError::Internal(String::from_str("failed to parse header value")),
                );
            }
            let host = String::from_str(upstream_host(use_private));
            Result::Ok((copy_bytes(bytes), host))
        },
    }
}

/// Builds `<host>/v1/apps/<app>/machines`.
fn build_base_url(use_private: bool, app_name: &str) -> (r: String)
    ensures
        r@ == host_of(use_private) + machines_path(app_name@),
{
    let mut url = String::from_str(upstream_host(use_private));
    url.append("/v1/apps/");
    url.append(app_name);
    url.append("/machines");
    proof {
        assert(url@ =~= host_of(use_private) + machines_path(app_name@));
    }
    url
}

/// Validates a constructed URL, mapping a parse failure to the Internal
/// condition with its diagnostic text.
fn require_parseable(url: &String) -> (r: Result<(), ProxyError>)
    ensures
        match r {
            Result::Ok(()) => url_parses(url@),
            Result::Err(e) => !url_parses(url@) && (e matches ProxyError::Internal(m) && (m@
                == url_error_prefix() + url_err_of(url@))),
        },
{
    match check_url(url.as_str()) {
        Result::Ok(()) => Result::Ok(()),
        Result::Err(m) => {
            let text = String::from_str("Failed to parse URL: ").concat(m.as_str());
            Result::Err(ProxyError::Internal(text))
        },
    }
}

/// Keeps the configuration fields that are forwarded upstream, in order,
/// dropping the two the proxy consumes.
fn strip_config(pairs: Vec<(String, Json)>) -> (r: Vec<(String, Json)>)
    ensures
        r@ == pairs@.filter(|p: (String, Json)| is_forwarded_field(p)),
{
    let ghost all = pairs@;
    let mut rest = pairs;
    let mut out: Vec<(String, Json)> = Vec::new();
    proof {
        reveal(Seq::filter);
        assert(all.subrange(0, 0) =~= Seq::<(String, Json)>::empty());
    }
    while rest.len() > 0
        invariant
            rest@.len() <= all.len(),
            all == all.subrange(0, all.len() - rest@.len()) + rest@,
            out@ == all.subrange(0, all.len() - rest@.len()).filter(
                |p: (String, Json)| is_forwarded_field(p),
            ),
        decreases rest@.len(),
    {
        let ghost k: int = all.len() - rest@.len();
        let ghost rest_before = rest@;
        let p = rest.remove(0);
        proof {
            assert(rest_before[0] == all[k]);
            assert(rest@ =~= rest_before.drop_first());
        }
        let keep = !crate::json::str_eq(p.0.as_str(), "app_name") && !crate::json::str_eq(
            p.0.as_str(),
            "use_private_api",
        );
        if keep {
            out.push(p);
        }
        proof {
            reveal(Seq::filter);
            let pred = |q: (String, Json)| is_forwarded_field(q);
            let pre = all.subrange(0, k);
            let cur = all.subrange(0, k + 1);
            assert(cur =~= pre.push(all[k]));
            assert(cur.drop_last() =~= pre);
            assert(cur.last() == all[k]);
            assert(out@ =~= cur.filter(pred));
            assert(all =~= cur + rest@);
        }
    }
    proof {
        assert(all.subrange(0, all.len() as int) =~= all);
        assert(rest@ =~= Seq::<(String, Json)>::empty());
        assert(all.subrange(0, all.len() - rest@.len()) =~= all);
    }
    out
}

/// Reads the private-API flag of a creation body.
pub fn body_use_private(j: &Json) -> (r: bool)
    ensures
        r == spec_use_private(*j),
{
    match j {
        Json::Obj(pairs) => {
            match obj_get(pairs, "use_private_api") {
                Option::Some(v) => match v {
                    Json::Bool(b) => *b,
                    _ => false,
                },
                Option::None => false,
            }
        },
        _ => false,
    }
}

/// Whether a creation body is well-formed: an object whose `app_name` is a
/// string and whose `use_private_api`, if present, is a boolean.
pub fn is_valid_create_body(j: &Json) -> (r: bool)
    ensures
        r == create_body_wf(*j),
{
    match j {
        Json::Obj(pairs) => {
            let name_ok = match obj_get(pairs, "app_name") {
                Option::Some(v) => match v {
                    Json::Str(_) => true,
                    _ => false,
                },
                Option::None => false,
            };
            let flag_ok = match obj_get(pairs, "use_private_api") {
                Option::Some(v) => match v {
                    Json::Bool(_) => true,
                    _ => false,
                },
                Option::None => true,
            };
            name_ok && flag_ok
        },
        _ => false,
    }
}

/// Translates a creation request: checks the credential, picks the host
/// from the body's private-API flag, addresses the application's machines
/// resource, and carries the configuration with the two consumed fields
/// excluded and everything else, recognized or not, preserved in order.
pub fn translate_create(auth: Option<&Vec<u8>>, body: Json) -> (r: Result<
    OutboundRequest,
    ProxyError,
>)
    requires
        create_body_wf(body),
    ensures
        outcome_of(r) == create_outcome(auth_view(auth), body),
{
    let use_private = body_use_private(&body);
    let app_name: String = match &body {
        Json::Obj(pairs) => match obj_get(pairs, "app_name") {
            Option::Some(v) => match v {
                Json::Str(s) => s.clone(),
                _ => vstd::pervasive::unreached(),
            },
            Option::None => vstd::pervasive::unreached(),
        },
        _ => vstd::pervasive::unreached(),
    };
    let (auth_bytes, _host) = match prepare_request(auth, use_private) {
        Result::Ok(p) => p,
        Result::Err(e) => {
            return Result::Err(e);
        },
    };
    let url = build_base_url(use_private, app_name.as_str());
    proof {
        assert(url@ == create_url(body));
    }
    if let Result::Err(e) = require_parseable(&url) {
        return Result::Err(e);
    }
    let stripped: Vec<(String, Json)> = match body {
        Json::Obj(pairs) => strip_config(pairs),
        _ => vstd::pervasive::unreached(),
    };
    let config = Json::Obj(stripped);
    let rendered_chars = render_json(&config);
    let body_text = chars_to_string(&rendered_chars);
    proof {
        assert(body_text@ == stripped_config_text(body));
    }
    Result::Ok(
        OutboundRequest {
            method: Method::Post,
            url,
            auth: auth_bytes,
            body: Option::Some(body_text),
        },
    )
}

/// Translates a listing request: checks the credential, picks the host from
/// the query's private-API flag, addresses the application's machines
/// resource, and appends `include_deleted=true` only if that flag was set
/// and `region=<value>` only if a region was supplied.
pub fn translate_list(auth: Option<&Vec<u8>>, q: &ListQuery) -> (r: Result<
    OutboundRequest,
    ProxyError,
>)
    ensures
        outcome_of(r) == list_outcome(auth_view(auth), *q),
{
    let (auth_bytes, _host) = match prepare_request(auth, q.use_private_api) {
        Result::Ok(p) => p,
        Result::Err(e) => {
            return Result::Err(e);
        },
    };
    let mut url = build_base_url(q.use_private_api, q.app_name.as_str());
    let ghost base = url@;
    if q.include_deleted {
        url.append("?include_deleted=true");
        match &q.region {
            Option::Some(region) => {
                url.append("&region=");
                let enc = form_encode(region.as_str());
                let enc_text = chars_to_string(&enc);
                url.append(enc_text.as_str());
                proof {
                    lemma_query_both(region@);
                    assert(url@ =~= base + "?include_deleted=true"@ + "&region="@
                        + form_encoded_bytes(encode_utf8(region@)));
                    assert(url@ =~= list_url(*q));
                }
            },
            Option::None => {
                proof {
                    lemma_query_deleted_only();
                    assert(url@ =~= list_url(*q));
                }
            },
        }
    } else {
        match &q.region {
            Option::Some(region) => {
                url.append("?region=");
                let enc = form_encode(region.as_str());
                let enc_text = chars_to_string(&enc);
                url.append(enc_text.as_str());
                proof {
                    lemma_query_region_only(region@);
                    assert(url@ =~= base + "?region="@ + form_encoded_bytes(encode_utf8(region@)));
                    assert(url@ =~= list_url(*q));
                }
            },
            Option::None => {
                proof {
                    assert(query_pairs_of(false, Option::<Seq<char>>::None) =~= Seq::<
                        (Seq<char>, Seq<char>),
                    >::empty());
                    assert(url@ =~= list_url(*q));
                }
            },
        }
    }
    if let Result::Err(e) = require_parseable(&url) {
        return Result::Err(e);
    }
    Result::Ok(
        OutboundRequest { method: Method::Get, url, auth: auth_bytes, body: Option::None },
    )
}

/// The query string when only the include-deleted flag is set.
proof fn lemma_query_deleted_only()
    ensures
        rendered_query(query_pairs_of(true, Option::<Seq<char>>::None))
            == "?include_deleted=true"@,
{
    reveal_strlit("include_deleted");
    reveal_strlit("true");
    reveal_strlit("?include_deleted=true");
    let ps = query_pairs_of(true, Option::<Seq<char>>::None);
    assert(ps =~= seq![("include_deleted"@, "true"@)]);
    assert(rendered_query(ps) =~= "?include_deleted=true"@);
}

/// The query string when only a region filter is supplied.
proof fn lemma_query_region_only(r: Seq<char>)
    ensures
        rendered_query(query_pairs_of(false, Option::Some(r))) == "?region="@
            + form_encoded_bytes(encode_utf8(r)),
{
    reveal_strlit("region");
    reveal_strlit("?region=");
    let ps = query_pairs_of(false, Option::Some(r));
    assert(ps =~= seq![("region"@, form_encoded_bytes(encode_utf8(r)))]);
    assert(rendered_query(ps) =~= "?region="@ + form_encoded_bytes(encode_utf8(r)));
}

/// The query string when both filters are present.
proof fn lemma_query_both(r: Seq<char>)
    ensures
        rendered_query(query_pairs_of(true, Option::Some(r))) == "?include_deleted=true"@
            + "&region="@ + form_encoded_bytes(encode_utf8(r)),
{
    reveal_strlit("include_deleted");
    reveal_strlit("true");
    reveal_strlit("region");
    reveal_strlit("?include_deleted=true");
    reveal_strlit("&region=");
    let p1 = ("include_deleted"@, "true"@);
    let p2 = ("region"@, form_encoded_bytes(encode_utf8(r)));
    let ps = query_pairs_of(true, Option::Some(r));
    assert(ps =~= seq![p1, p2]);
    assert(seq![p1, p2].drop_first() =~= seq![p2]);
    assert(rendered_query_pairs(seq![p2]) == p2.0 + seq!['='] + p2.1);
    assert(rendered_query_pairs(ps) == p1.0 + seq!['='] + p1.1 + seq!['&'] + rendered_query_pairs(
        seq![p2],
    ));
    assert(rendered_query(ps) =~= "?include_deleted=true"@ + "&region="@ + form_encoded_bytes(
        encode_utf8(r),
    ));
}

/// Maps a translation failure to the caller-facing response: a missing
/// credential to 401, an internal condition to 500 with its diagnostic.
pub fn error_response(e: &ProxyError) -> (r: CallerResponse)
    ensures
        match e {
            ProxyError::Unauthorized => r.status == 401 && r.body@
                == "Authorization header required"@,
            ProxyError::Internal(m) => r.status == 500 && r.body@ == m@,
        },
{
    match e {
        ProxyError::Unauthorized => CallerResponse {
            status: 401,
            body: String::from_str("Authorization header required"),
        },
        ProxyError::Internal(m) => CallerResponse { status: 500, body: m.clone() },
    }
}

/// The identity endpoint's fixed body.
pub fn hello_body() -> (r: &'static str)
    ensures
        r@ == "flyd!"@,
{
    "flyd!"
}

/// The liveness endpoint's fixed body.
pub fn health_body() -> (r: &'static str)
    ensures
        r@ == "YES!"@,
{
    "YES!"
}

/// A query string that names the given parameter key.
pub open spec fn has_query_key(ps: Seq<(Seq<char>, Seq<char>)>, k: Seq<char>) -> bool {
    exists|i: int| 0 <= i < ps.len() && ps[i].0 == k
}

/// Law: a request without a credential is refused outright as Unauthorized,
/// for both operations; nothing is forwarded for it.
pub proof fn lemma_missing_credential_refused(body: Json, q: ListQuery)
    ensures
        create_outcome(Option::None, body) == Outcome::Unauthorized,
        list_outcome(Option::None, q) == Outcome::Unauthorized,
{
}

proof fn lemma_filter_is_subset(pairs: Seq<(String, Json)>, pred: spec_fn((String, Json)) -> bool)
    ensures
        forall|p: (String, Json)| pairs.filter(pred).contains(p) ==> pairs.contains(p),
    decreases pairs.len(),
{
    reveal(Seq::filter);
    if pairs.len() > 0 {
        lemma_filter_is_subset(pairs.drop_last(), pred);
        assert forall|p: (String, Json)| pairs.filter(pred).contains(p) implies pairs.contains(
            p,
        ) by {
            let f = pairs.filter(pred);
            let i = choose|i: int| 0 <= i < f.len() && f[i] == p;
            if pred(pairs.last()) && i == f.len() - 1 {
                assert(pairs[pairs.len() - 1] == p);
            } else {
                assert(pairs.drop_last().filter(pred)[i] == p);
                assert(pairs.drop_last().filter(pred).contains(p));
                assert(pairs.drop_last().contains(p));
                let j = choose|j: int|
                    0 <= j < pairs.drop_last().len() && pairs.drop_last()[j] == p;
                assert(pairs[j] == p);
            }
        }
    }
}

/// Law: the forwarded configuration is the inbound one with `app_name` and
/// `use_private_api` excluded and nothing else touched: every other member
/// survives, every surviving member stood in the inbound body, and the
/// members' order is kept, the filter being order-preserving.
pub proof fn lemma_config_fields_preserved(pairs: Seq<(String, Json)>)
    ensures
        forall|i: int|
            0 <= i < pairs.len() && is_forwarded_field(pairs[i]) ==> pairs.filter(
                |p: (String, Json)| is_forwarded_field(p),
            ).contains(pairs[i]),
        forall|p: (String, Json)|
            pairs.filter(|p2: (String, Json)| is_forwarded_field(p2)).contains(p) ==> pairs.contains(
                p,
            ) && is_forwarded_field(p),
{
    let pred = |p: (String, Json)| is_forwarded_field(p);
    lemma_filter_is_subset(pairs, pred);
    assert forall|i: int|
        0 <= i < pairs.len() && is_forwarded_field(pairs[i]) implies pairs.filter(pred).contains(
        pairs[i],
    ) by {
        pairs.lemma_filter_contains(pred, i);
    }
    assert forall|p: (String, Json)| pairs.filter(pred).contains(p) implies pairs.contains(p)
        && is_forwarded_field(p) by {
        let i = choose|i: int| 0 <= i < pairs.filter(pred).len() && pairs.filter(pred)[i] == p;
        pairs.lemma_filter_pred(pred, i);
    }
}

/// Law: the outbound query string carries `include_deleted=true` exactly when
/// the inbound flag was set and a `region` parameter exactly when a region
/// was supplied; with neither, no query string is appended at all. The law
/// holds for every region value.
pub proof fn lemma_query_filters(include_deleted: bool, region: Option<Seq<char>>)
    ensures
        has_query_key(query_pairs_of(include_deleted, region), "include_deleted"@)
            <==> include_deleted,
        has_query_key(query_pairs_of(include_deleted, region), "region"@) <==> region is Some,
        include_deleted ==> query_pairs_of(include_deleted, region).contains(
            ("include_deleted"@, "true"@),
        ),
        region matches Option::Some(r) ==> query_pairs_of(include_deleted, region).contains(
            ("region"@, form_encoded_bytes(encode_utf8(r))),
        ),
        (!include_deleted && region is None) ==> rendered_query(
            query_pairs_of(include_deleted, region),
        ) == Seq::<char>::empty(),
{
    reveal_strlit("include_deleted");
    reveal_strlit("region");
    reveal_strlit("true");
    assert("include_deleted"@.len() == 15);
    assert("region"@.len() == 6);
    let ps = query_pairs_of(include_deleted, region);
    if include_deleted {
        match region {
            Option::Some(r) => {
                assert(ps =~= seq![
                    ("include_deleted"@, "true"@),
                    ("region"@, form_encoded_bytes(encode_utf8(r))),
                ]);
                assert(ps[0].0 == "include_deleted"@);
                assert(ps[1].0 == "region"@);
            },
            Option::None => {
                assert(ps =~= seq![("include_deleted"@, "true"@)]);
                assert(ps[0].0 == "include_deleted"@);
                assert(forall|i: int| 0 <= i < ps.len() ==> ps[i].0 != "region"@);
            },
        }
    } else {
        match region {
            Option::Some(r) => {
                assert(ps =~= seq![("region"@, form_encoded_bytes(encode_utf8(r)))]);
                assert(ps[0].0 == "region"@);
                assert(forall|i: int| 0 <= i < ps.len() ==> ps[i].0 != "include_deleted"@);
            },
            Option::None => {
                assert(ps =~= Seq::<(Seq<char>, Seq<char>)>::empty());
            },
        }
    }
}

/// Law: the private-API flag alone selects the upstream host, and it does so
/// identically for both operations: a forwarded URL begins with the
/// internal-network address when the flag is set and with the public address
/// otherwise.
pub proof fn lemma_host_selection(auth: Option<Seq<u8>>, body: Json, q: ListQuery)
    ensures
        host_of(true) == "http://fly-api.internal:4280"@,
        host_of(false) == "https://api.machines.dev"@,
        create_outcome(auth, body) matches Outcome::Forward { url, .. } ==> url.subrange(
            0,
            host_of(spec_use_private(body)).len() as int,
        ) == host_of(spec_use_private(body)),
        list_outcome(auth, q) matches Outcome::Forward { url, .. } ==> url.subrange(
            0,
            host_of(q.use_private_api).len() as int,
        ) == host_of(q.use_private_api),
{
    let ch = host_of(spec_use_private(body));
    assert(create_url(body).subrange(0, ch.len() as int) =~= ch);
    let lh = host_of(q.use_private_api);
    assert(list_url(q).subrange(0, lh.len() as int) =~= lh);
}

/// Law: translating a listing request is a pure function of the credential
/// and the query: any two results the translation contract admits for the
/// same inputs have the same abstract value, so repeating the same request
/// yields the same outbound request.
pub proof fn lemma_list_translation_pure(
    auth: Option<Seq<u8>>,
    q: ListQuery,
    r1: Result<OutboundRequest, ProxyError>,
    r2: Result<OutboundRequest, ProxyError>,
)
    requires
        outcome_of(r1) == list_outcome(auth, q),
        outcome_of(r2) == list_outcome(auth, q),
    ensures
        outcome_of(r1) == outcome_of(r2),
{
}

} // verus!
