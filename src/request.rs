use vstd::prelude::*;
use reqwest::blocking::{Client, RequestBuilder};

verus! {

#[verifier::external_type_specification]
#[verifier::external_body]
pub struct ExClient(Client);

#[verifier::external_type_specification]
#[verifier::external_body]
pub struct ExRequestBuilder(RequestBuilder);

/// Name of the request header that carries the credential.
pub const API_KEY_HEADER: &'static str = "X-API-Key";

/// The URL that a request built by `Client::get` for the text `url` goes to:
/// `url` parsed, without any user info; `None` where reqwest refuses the text
/// (it does not parse, or names no host).
pub uninterp spec fn request_target(url: Seq<char>) -> Option<Seq<char>>;

/// The builder holds a request rather than an error.
pub uninterp spec fn builder_ok(r: RequestBuilder) -> bool;

/// The URL of the request that the builder holds.
pub uninterp spec fn target_of(r: RequestBuilder) -> Seq<char>;

/// The request that the builder holds uses the GET method.
pub uninterp spec fn is_get(r: RequestBuilder) -> bool;

/// The first value that the builder's request holds under the credential header;
/// `None` where it has none, or where the builder holds an error.
pub uninterp spec fn credential_of(r: RequestBuilder) -> Option<Seq<char>>;

/// The text is accepted as an HTTP header value: every character is a tab, or
/// neither a control character below 32 nor DEL.
pub open spec fn valid_header_value(s: Seq<char>) -> bool {
    forall|i: int| 0 <= i < s.len() ==> #[trigger] s[i] == '\t' || (s[i] as u32 >= 32 && s[i] as u32 != 127)
}

/// Relies on reqwest::blocking::Client::get: it starts a GET request to `url`.
/// A URL that reqwest refuses is kept as an error inside the builder; the call
/// itself does not fail. The only header a new builder may carry is
/// `Authorization`, taken from user info in the URL.
#[verifier::external_body]
fn get_request(client: &Client, url: &str) -> (r: RequestBuilder)
    ensures
        builder_ok(r) == request_target(url@) is Some,
        builder_ok(r) ==> target_of(r) == request_target(url@)->0 && is_get(r),
        credential_of(r) is None,
{
    client.get(url)
}

/// Relies on reqwest::blocking::RequestBuilder::header: on a builder that holds a
/// request it appends one header; a name or value that http refuses turns the
/// builder into an error. A builder that holds an error stays as it is.
#[verifier::external_body]
fn with_header(request: RequestBuilder, name: &str, value: &str) -> (r: RequestBuilder)
    ensures
        builder_ok(r) ==> builder_ok(request),
        builder_ok(r) ==> target_of(r) == target_of(request) && is_get(r) == is_get(request),
        name@ == API_KEY_HEADER@ ==> builder_ok(r) == (builder_ok(request) && valid_header_value(
            value@,
        )),
        name@ == API_KEY_HEADER@ && credential_of(request) is None ==> credential_of(r) == (if builder_ok(
            r,
        ) {
            Some(value@)
        } else {
            None
        }),
{
    request.header(name, value)
}

/// A GET request to `url`, carrying `api_key` under the credential header when
/// one is given and no such header otherwise.
pub fn build_request(client: &Client, url: &str, api_key: Option<&str>) -> (r: RequestBuilder)
    ensures
        builder_ok(r) == (request_target(url@) is Some && match api_key {
            None => true,
            Some(k) => valid_header_value(k@),
        }),
        builder_ok(r) ==> target_of(r) == request_target(url@)->0 && is_get(r),
        credential_of(r) == match api_key {
            None => None,
            Some(k) => if builder_ok(r) {
                Some(k@)
            } else {
                None
            },
        },
{
    let mut request = get_request(client, url);
    if let Some(key) = api_key {
        request = with_header(request, API_KEY_HEADER, key);
    }
    request
}

} // verus!
