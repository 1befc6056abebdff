use vstd::prelude::*;
use vstd::string::StrSliceExecFns;
use vstd::string::StringExecFns;

verus! {

/// Whether a string parses as an absolute URL. The parse is a function of
/// the string alone.
pub uninterp spec fn url_parses(s: Seq<char>) -> bool;

/// The diagnostic text of the URL parse failure on a string that does not
/// parse; a function of the string alone.
pub uninterp spec fn url_err_of(s: Seq<char>) -> Seq<char>;

/// Relies on reqwest::Url::parse (the url crate): parsing is deterministic,
/// it succeeds exactly on well-formed absolute URLs, and a failure's
/// displayed text depends only on the input.
#[verifier::external_body]
pub(crate) fn check_url(s: &str) -> (r: Result<(), String>)
    ensures
        r is Ok <==> url_parses(s@),
        r matches Err(m) ==> m@ == url_err_of(s@),
{
    match reqwest::Url::parse(s) {
        Ok(_) => Ok(()),
        Err(e) => Err(e.to_string()),
    }
}

/// Whether a string is a well-formed JSON document.
pub uninterp spec fn json_wf(s: Seq<char>) -> bool;

/// The text a well-formed JSON document re-serializes to after parsing; a
/// function of the document alone.
pub uninterp spec fn json_render(s: Seq<char>) -> Seq<char>;

/// The diagnostic text of the JSON parse failure on an ill-formed document;
/// a function of the document alone.
pub uninterp spec fn json_err_of(s: Seq<char>) -> Seq<char>;

/// Relies on serde_json::from_str::<Value> and Value::to_string: parsing
/// succeeds exactly on well-formed JSON, and both the re-serialized text of
/// an accepted document and the error text of a rejected one are functions
/// of the input alone.
#[verifier::external_body]
pub(crate) fn parse_and_render(s: &str) -> (r: Result<String, String>)
    ensures
        r is Ok <==> json_wf(s@),
        r matches Ok(t) ==> t@ == json_render(s@),
        r matches Err(m) ==> m@ == json_err_of(s@),
{
    match serde_json::from_str::<serde_json::Value>(s) {
        Ok(v) => Ok(v.to_string()),
        Err(e) => Err(e.to_string()),
    }
}

/// Relies on String::from_iter over characters: the built string holds
/// exactly the given characters.
#[verifier::external_body]
pub(crate) fn chars_to_string(chars: &Vec<char>) -> (r: String)
    ensures
        r@ == chars@,
{
    chars.iter().collect()
}

/// What came back from the attempt to reach the upstream: its raw body
/// text, or the transport failure's text.
pub enum UpstreamResult {
    Body(String),
    TransportFailure(String),
}

/// Relays the upstream's answer to the caller. A transport failure and an
/// unparsable body each become 500 with the diagnostic; a well-formed JSON
/// body is re-serialized and returned as 200 whatever the upstream's own
/// status was.
pub fn relay_upstream(u: &UpstreamResult) -> (r: crate::translate::CallerResponse)
    ensures
        match u {
            UpstreamResult::TransportFailure(m) => r.status == 500 && r.body@
                == "API request failed: "@ + m@,
            UpstreamResult::Body(s) => if json_wf(s@) {
                r.status == 200 && r.body@ == json_render(s@)
            } else {
                r.status == 500 && r.body@ == "Failed to read response body: "@ + json_err_of(s@)
            },
        },
{
    match u {
        UpstreamResult::TransportFailure(m) => crate::translate::CallerResponse {
            status: 500,
            body: String::from_str("API request failed: ").concat(m.as_str()),
        },
        UpstreamResult::Body(s) => match parse_and_render(s.as_str()) {
            Result::Ok(t) => crate::translate::CallerResponse { status: 200, body: t },
            Result::Err(m) => crate::translate::CallerResponse {
                status: 500,
                body: String::from_str("Failed to read response body: ").concat(m.as_str()),
            },
        },
    }
}

} // verus!
