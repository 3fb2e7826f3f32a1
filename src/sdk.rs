//! Plain request and response values of the JSON plugin interface and of
//! the script runtime.
use vstd::prelude::*;

verus! {

/// Request of the JSON plugin interface.
#[derive(Debug, Clone)]
pub struct FezzHttpRequest {
    pub method: String,
    pub path: String,
    pub headers: Vec<(String, String)>,
    pub body: Option<String>,
}

/// Response of the JSON plugin interface.
#[derive(Debug, Clone)]
pub struct FezzHttpResponse {
    pub status: u16,
    pub headers: Vec<(String, String)>,
    pub body: Option<String>,
}

/// Which script a call runs: organisation, function and version.
#[derive(Debug, Clone, PartialEq, Eq, Hash)]
pub struct JsKey {
    pub org: String,
    pub func: String,
    pub version: String,
}

/// A call into a script.
#[derive(Debug, Clone)]
pub struct JsInvoke {
    pub method: String,
    pub path_and_query: String,
    pub headers: Vec<(String, String)>,
    pub body: Vec<u8>,
    pub env: Vec<(String, String)>,
}

/// What a script returned.
#[derive(Debug, Clone)]
pub struct JsResult {
    pub status: u16,
    pub headers: Vec<(String, String)>,
    pub body: Vec<u8>,
}

} // verus!
