//! The shapes of outgoing HTTP requests and their answers. No request is
//! sent yet: each function answers as a server that accepts everything.

use vstd::prelude::*;
use vstd::string::StringExecFns;

verus! {

/// An HTTP request to make.
#[derive(Debug, Clone, PartialEq, Eq)]
pub struct ApiRequest {
    pub url: String,
    pub method: String,
    pub headers: Option<Vec<(String, String)>>,
    pub body: Option<String>,
}

/// The answer to an HTTP request.
#[derive(Debug, Clone, PartialEq, Eq)]
pub struct ApiResponse {
    pub status: u16,
    pub body: String,
    pub headers: Vec<(String, String)>,
}

/// Answers a request with status 200, a body that names the address, and a
/// JSON content type.
pub fn make_request(request: ApiRequest) -> (r: Result<ApiResponse, String>)
    ensures
        r matches Ok(response) && {
            &&& response.status == 200
            &&& response.body@ == "Response from "@ + request.url@
            &&& response.headers@.len() == 1
            &&& response.headers@[0].0@ == "content-type"@
            &&& response.headers@[0].1@ == "application/json"@
        },
{
    let body = String::from_str("Response from ").concat(request.url.as_str());
    let mut headers: Vec<(String, String)> = Vec::new();
    headers.push((String::from_str("content-type"), String::from_str("application/json")));
    Ok(ApiResponse { status: 200, body, headers })
}

/// Answers a GET request with a body that names the address.
pub fn fetch_data(url: String) -> (r: Result<String, String>)
    ensures
        r matches Ok(body) && body@ == "Data from "@ + url@,
{
    Ok(String::from_str("Data from ").concat(url.as_str()))
}

/// Answers a POST request with status 201, a body that names the address
/// and repeats the data, and no headers.
pub fn post_data(url: String, data: String) -> (r: Result<ApiResponse, String>)
    ensures
        r matches Ok(response) && {
            &&& response.status == 201
            &&& response.body@ == "Posted to "@ + url@ + ": "@ + data@
            &&& response.headers@.len() == 0
        },
{
    let body = String::from_str("Posted to ").concat(url.as_str()).concat(": ").concat(
        data.as_str(),
    );
    Ok(ApiResponse { status: 201, body, headers: Vec::new() })
}

} // verus!
