//! An HTTP status handler: a response is a status, an optional body and a
//! list of headers, and `handle_response` turns it into a message.
use vstd::prelude::*;
use vstd::string::StringExecFns;
use crate::text::{decimal, lowercase, owned, push_decimal, str_eq, to_lower};

verus! {

/// The status of an HTTP response.
#[derive(Debug, PartialEq, Eq, Structural)]
pub enum HttpStatus {
    /// 200
    Okay,
    /// 404
    NotFound,
    /// 500
    ServerError,
    /// Any other code
    Custom(u16),
}

/// An HTTP response: status, optional body and headers in the order they
/// were added.
#[derive(Debug)]
pub struct HttpResponse {
    pub status: HttpStatus,
    pub body: Option<String>,
    pub headers: Vec<(String, String)>,
}

/// The characters of an optional body.
pub open spec fn body_view(body: Option<String>) -> Option<Seq<char>> {
    match body {
        Some(b) => Some(b@),
        None => None,
    }
}

/// The numeric code of a status.
pub open spec fn code_of(status: HttpStatus) -> u16 {
    match status {
        HttpStatus::Okay => 200,
        HttpStatus::NotFound => 404,
        HttpStatus::ServerError => 500,
        HttpStatus::Custom(code) => code,
    }
}

/// The message that describes a response with the given status and body.
pub open spec fn response_message(status: HttpStatus, body: Option<Seq<char>>) -> Seq<char> {
    match status {
        HttpStatus::Okay => match body {
            Some(b) => "Success: "@ + b,
            None => "Success: No content"@,
        },
        HttpStatus::NotFound => "Error: Resource not found"@,
        HttpStatus::ServerError => "Error: Internal server error"@,
        HttpStatus::Custom(code) => if code < 400 {
            "Info: Status "@ + decimal(code as nat)
        } else {
            "Error: Status "@ + decimal(code as nat)
        },
    }
}

/// Whether a status denotes success (a code in `200..300`).
pub open spec fn success_status(status: HttpStatus) -> bool {
    match status {
        HttpStatus::Okay => true,
        HttpStatus::Custom(code) => 200 <= code < 300,
        _ => false,
    }
}

/// The value of the first header whose name is `content-type` in any case.
pub open spec fn content_type_of(headers: Seq<(String, String)>) -> Option<Seq<char>>
    decreases headers.len(),
{
    if headers.len() == 0 {
        None
    } else if lowercase(headers[0].0@) == "content-type"@ {
        Some(headers[0].1@)
    } else {
        content_type_of(headers.drop_first())
    }
}

impl HttpResponse {
    /// A response with the given status, no body and no headers.
    pub fn new(status: HttpStatus) -> (r: Self)
        ensures
            r.status == status,
            r.body is None,
            r.headers@ == Seq::<(String, String)>::empty(),
    {
        HttpResponse { status, body: None, headers: Vec::new() }
    }

    /// The same response with its body set to `body`.
    pub fn with_body(self, body: String) -> (r: Self)
        ensures
            r.status == self.status,
            r.body == Some(body),
            r.headers@ == self.headers@,
    {
        let mut r = self;
        r.body = Some(body);
        r
    }

    /// The same response with the header `(key, value)` added last.
    pub fn with_header(self, key: String, value: String) -> (r: Self)
        ensures
            r.status == self.status,
            r.body == self.body,
            r.headers@ == self.headers@.push((key, value)),
    {
        let mut r = self;
        r.headers.push((key, value));
        r
    }
}

/// Builds `prefix` followed by the decimal digits of `code`.
fn with_code(prefix: &str, code: u16) -> (r: String)
    ensures
        r@ == prefix@ + decimal(code as nat),
{
    let mut s = owned(prefix);
    push_decimal(&mut s, code as u64);
    s
}

/// The message for a response: success with its body or "No content", the
/// fixed error messages for 404 and 500, and for other codes "Info" below 400
/// and "Error" from 400 on, each with the code in decimal.
pub fn handle_response(response: HttpResponse) -> (r: String)
    ensures
        r@ == response_message(response.status, body_view(response.body)),
{
    match response {
        HttpResponse { status: HttpStatus::Okay, body: Some(body), .. } => {
            let mut s = owned("Success: ");
            s.append(body.as_str());
            s
        },
        HttpResponse { status: HttpStatus::Okay, body: None, .. } => owned("Success: No content"),
        HttpResponse { status: HttpStatus::NotFound, .. } => owned("Error: Resource not found"),
        HttpResponse { status: HttpStatus::ServerError, .. } => owned(
            "Error: Internal server error",
        ),
        HttpResponse { status: HttpStatus::Custom(code), .. } if code < 400 => {
            with_code("Info: Status ", code)
        },
        HttpResponse { status: HttpStatus::Custom(code), .. } => {
            with_code("Error: Status ", code)
        },
    }
}

/// The same message as `handle_response`, found by matching the status first
/// and the body second; the two agree on every response.
pub fn handle_response_alternative(response: HttpResponse) -> (r: String)
    ensures
        r@ == response_message(response.status, body_view(response.body)),
{
    match response.status {
        HttpStatus::Okay => {
            match response.body {
                Some(body) => {
                    let mut s = owned("Success: ");
                    s.append(body.as_str());
                    s
                },
                None => owned("Success: No content"),
            }
        },
        HttpStatus::NotFound => owned("Error: Resource not found"),
        HttpStatus::ServerError => owned("Error: Internal server error"),
        HttpStatus::Custom(code) => {
            if code < 400 {
                with_code("Info: Status ", code)
            } else {
                with_code("Error: Status ", code)
            }
        },
    }
}

/// The numeric status code of a response.
pub fn extract_status_code(response: &HttpResponse) -> (r: u16)
    ensures
        r == code_of(response.status),
{
    match &response.status {
        HttpStatus::Okay => 200,
        HttpStatus::NotFound => 404,
        HttpStatus::ServerError => 500,
        HttpStatus::Custom(code) => *code,
    }
}

/// Whether the response denotes success (a 2xx code).
pub fn is_success(response: &HttpResponse) -> (r: bool)
    ensures
        r == success_status(response.status),
{
    match &response.status {
        HttpStatus::Okay => true,
        HttpStatus::Custom(code) if 200 <= *code && *code < 300 => true,
        _ => false,
    }
}

/// A response is a success exactly when its numeric code lies in `200..300`.
pub proof fn lemma_success_iff_2xx(status: HttpStatus)
    ensures
        success_status(status) <==> 200 <= code_of(status) < 300,
{
}

/// The value of the first header named `content-type`, in any letter case.
pub fn extract_content_type(response: &HttpResponse) -> (r: Option<String>)
    ensures
        body_view(r) == content_type_of(response.headers@),
{
    let headers = &response.headers;
    let mut i: usize = 0;
    assert(headers@.skip(0) =~= headers@);
    while i < headers.len()
        invariant
            headers@ == response.headers@,
            i <= headers@.len(),
            content_type_of(headers@) == content_type_of(headers@.skip(i as int)),
        decreases headers@.len() - i,
    {
        let key = to_lower(headers[i].0.as_str());
        assert(headers@.skip(i as int)[0] == headers@[i as int]);
        assert(headers@.skip(i as int).drop_first() =~= headers@.skip(i + 1));
        if str_eq(key.as_str(), "content-type") {
            let v = headers[i].1.clone();
            assert(content_type_of(headers@.skip(i as int)) == Some(headers@[i as int].1@));
            return Some(v);
        }
        i = i + 1;
    }
    None
}

} // verus!
