//! Validation of an OpenAPI specification document.
//!
//! The document is parsed by the OpenAPI data model crate; the engine
//! reads off only what it reports: the API's title, its version, and
//! how many endpoint paths it declares.

use vstd::prelude::*;
use vstd::string::StringExecFns;

verus! {

/// What validation reads from a specification document.
#[derive(Debug)]
pub struct ApiSummary {
    pub title: String,
    pub version: String,
    pub endpoints: usize,
}

/// What parsing a document as an OpenAPI description yields — the
/// title, the version and the path count, or nothing when the document
/// is rejected; a function of the document text alone.
pub uninterp spec fn openapi_summary(s: Seq<char>) -> Option<(Seq<char>, Seq<char>, nat)>;

/// Relies on `serde_json::from_str::<openapiv3::OpenAPI>`: it parses
/// the document into the OpenAPI data model or fails, deterministically
/// in the text; `info.title`, `info.version` and `paths.paths.len()`
/// are read off the parsed description.
#[verifier::external_body]
fn parse_openapi(content: &str) -> (r: Option<ApiSummary>)
    ensures
        match r {
            Some(a) => openapi_summary(content@) == Some(
                (a.title@, a.version@, a.endpoints as nat),
            ),
            None => openapi_summary(content@) is None,
        },
{
    match serde_json::from_str::<openapiv3::OpenAPI>(content) {
        Ok(spec) => Some(
            ApiSummary {
                title: spec.info.title.clone(),
                version: spec.info.version.clone(),
                endpoints: spec.paths.paths.len(),
            },
        ),
        Err(_) => None,
    }
}

/// Validate an OpenAPI specification document: report its summary, or
/// reject it exactly when it does not parse as an OpenAPI description.
pub fn validate_spec(content: &str) -> (r: Result<ApiSummary, String>)
    ensures
        r is Ok <==> openapi_summary(content@) is Some,
        r is Ok ==> openapi_summary(content@) == Some(
            ((r->Ok_0).title@, (r->Ok_0).version@, (r->Ok_0).endpoints as nat),
        ),
        r is Err ==> (r->Err_0)@ == "Failed to parse OpenAPI spec as JSON"@,
{
    match parse_openapi(content) {
        Some(a) => Ok(a),
        None => Err(String::from_str("Failed to parse OpenAPI spec as JSON")),
    }
}

} // verus!
