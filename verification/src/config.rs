//! The settings the bridge runs with.

use vstd::prelude::*;

verus! {

/// Where the OpenAPI document is, and how requests to the API are made.
pub struct Config {
    /// Path or URL of the OpenAPI document.
    pub spec_path: String,
    /// Base URL that tool paths are appended to.
    pub base_url: Option<String>,
    /// Bearer token sent with every request.
    pub auth_token: Option<String>,
    /// Value of the `X-API-Key` header sent with every request.
    pub api_key: Option<String>,
    /// Path of a skills file (not used yet).
    pub skills_path: Option<String>,
    /// Extra headers, one `Name: value` per line.
    pub extra_headers: Option<String>,
}

} // verus!
