//! Routing: which file a request asks for, and the response for the outcome
//! of reading it.

use vstd::prelude::*;
use vstd::string::*;
use crate::error::ServerError;
use crate::headers::{pairs_insert, Headers};
use crate::request::{HttpRequest, Method};
use crate::response::{
    content_length, content_length_key, wire_form, HttpResponse, StatusCode,
};
use crate::text::{chars_of, copy_range, string_of};

verus! {

/// The file, relative to the server root, that a request path names: the
/// default page for `/`, otherwise the path without its leading `/`.
pub open spec fn file_for(path: Seq<char>, default_page: Seq<char>) -> Seq<char> {
    if path == seq!['/'] {
        default_page
    } else if path.len() > 0 && path[0] == '/' {
        path.skip(1)
    } else {
        path
    }
}

/// The status that an error is reported with.
pub open spec fn error_status(e: ServerError) -> StatusCode {
    match e {
        ServerError::NotFound => StatusCode::NotFound,
        ServerError::NotImplemented => StatusCode::NotImplemented,
    }
}

/// The wire form of the response that reports `e`: its status, no headers
/// and no body.
pub open spec fn error_wire(e: ServerError) -> Seq<char> {
    wire_form("HTTP/1.1"@, error_status(e), Seq::empty(), Seq::empty())
}

/// The wire form of the response that serves a file's contents `c`.
pub open spec fn success_wire(c: Seq<char>) -> Seq<char> {
    wire_form("HTTP/1.1"@, StatusCode::Success, seq![(content_length_key(), content_length(c))], c)
}

/// The file that `path` names under the default page `default_page`.
pub fn file_path(path: &str, default_page: &str) -> (r: String)
    ensures
        r@ == file_for(path@, default_page@),
{
    let cs = chars_of(path);
    if cs.len() == 1 && cs[0] == '/' {
        proof {
            assert(path@ =~= seq!['/']);
        }
        String::from_str(default_page)
    } else if cs.len() > 0 && cs[0] == '/' {
        let rest = copy_range(&cs, 1, cs.len());
        proof {
            assert(rest@ =~= path@.skip(1));
        }
        string_of(&rest)
    } else {
        String::from_str(path)
    }
}

/// Dispatches a request on its method: a `GET` asks for the file that its
/// path names.
pub fn route_target(request: &HttpRequest, default_page: &str) -> (r: String)
    ensures
        r@ == file_for(request.path@, default_page@),
{
    match request.method {
        Method::GET => file_path(request.path.as_str(), default_page),
    }
}

/// The outcome of a static lookup: the file's contents as the body of a
/// `Success` response, or `NotFound` where the file could not be read.
pub fn route_result(contents: Option<String>) -> (r: Result<HttpResponse, ServerError>)
    ensures
        match contents {
            Some(c) => r matches Ok(resp) && resp.wf() && resp.spec_status() == StatusCode::Success
                && resp.spec_body() == Some(c@) && resp.spec_headers()@ == map![content_length_key() => content_length(c@)]
                && resp.spec_wire() == success_wire(c@),
            None => r == Err::<HttpResponse, ServerError>(ServerError::NotFound),
        },
{
    match contents {
        Some(c) => {
            let h = Headers::new();
            let ghost cv = c@;
            let resp = HttpResponse::new(StatusCode::Success, h, Some(c));
            proof {
                assert(!crate::headers::has_key(h.pairs(), content_length_key()));
                assert(pairs_insert(h.pairs(), content_length_key(), content_length(cv))
                    =~= seq![(content_length_key(), content_length(cv))]);
                assert(resp.spec_headers()@ =~= map![content_length_key() => content_length(cv)]);
            }
            Ok(resp)
        },
        None => Err(ServerError::NotFound),
    }
}

/// The response that reports `e`: `404` for `NotFound`, `501` for
/// `NotImplemented`, with an empty body.
pub fn error_response(e: ServerError) -> (r: HttpResponse)
    ensures
        r.wf(),
        r.spec_status() == error_status(e),
        r.spec_body() is None,
        r.spec_headers()@ == Map::<Seq<char>, Seq<char>>::empty(),
        r.spec_wire() == error_wire(e),
{
    let status = match e {
        ServerError::NotImplemented => StatusCode::NotImplemented,
        ServerError::NotFound => StatusCode::NotFound,
    };
    HttpResponse::new(status, Headers::new(), None)
}

} // verus!
