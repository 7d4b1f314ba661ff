//! Plain data exchanged with the inference server, and the endpoint and
//! status-code helpers shared by every request the client makes.

use vstd::prelude::*;
use crate::text::{concat_str, dec_chars, u16_to_string};

verus! {

/// Details the server reports for one model.
#[derive(Debug)]
pub struct ModelDetails {
    pub format: String,
    pub family: String,
    pub families: Option<Vec<String>>,
    pub parameter_size: String,
    pub quantization_level: String,
}

/// One model in the server's listing.
#[derive(Debug)]
pub struct OllamaModel {
    pub name: String,
    pub modified_at: String,
    pub size: i64,
    pub digest: String,
    pub details: Option<ModelDetails>,
}

/// The server's whole model listing.
#[derive(Debug)]
pub struct ModelsResponse {
    pub models: Vec<OllamaModel>,
}

/// The plain outcome handed back to the immediate caller of a command,
/// distinct from the richer notification stream.
#[derive(Debug)]
pub struct SimpleResponse {
    pub success: bool,
    pub error: Option<String>,
}

/// An HTTP status code that counts as success.
pub open spec fn is_success_code(code: u16) -> bool {
    200 <= code < 300
}

/// Executable test for [`is_success_code`].
pub fn http_status_is_success(code: u16) -> (r: bool)
    ensures
        r == is_success_code(code),
{
    200 <= code && code < 300
}

/// The error text reported for a non-success HTTP status: the code's
/// decimal digits followed by the status line's reason phrase, as the
/// transport renders it.
pub open spec fn http_error_message(code: u16, reason: Seq<char>) -> Seq<char> {
    "HTTP error: "@ + dec_chars(code as nat) + " "@ + reason
}

/// Render the error text for a non-success HTTP status; `reason` is the
/// reason phrase the transport reports beside the code.
pub fn format_http_error(code: u16, reason: &str) -> (r: String)
    ensures
        r@ == http_error_message(code, reason@),
{
    let digits = u16_to_string(code);
    let head = concat_str("HTTP error: ", digits.as_str());
    let head = concat_str(head.as_str(), " ");
    concat_str(head.as_str(), reason)
}

/// The pull endpoint under a server's base URL.
pub fn pull_endpoint(server_url: &str) -> (r: String)
    ensures
        r@ == server_url@ + "/api/pull"@,
{
    concat_str(server_url, "/api/pull")
}

/// The listing endpoint under a server's base URL.
pub fn tags_endpoint(server_url: &str) -> (r: String)
    ensures
        r@ == server_url@ + "/api/tags"@,
{
    concat_str(server_url, "/api/tags")
}

/// The deletion endpoint under a server's base URL.
pub fn delete_endpoint(server_url: &str) -> (r: String)
    ensures
        r@ == server_url@ + "/api/delete"@,
{
    concat_str(server_url, "/api/delete")
}

/// The model-details endpoint under a server's base URL.
pub fn show_endpoint(server_url: &str) -> (r: String)
    ensures
        r@ == server_url@ + "/api/show"@,
{
    concat_str(server_url, "/api/show")
}

} // verus!
