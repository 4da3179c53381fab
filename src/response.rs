//! The response model and its wire form.

use vstd::prelude::*;
use vstd::string::*;
use vstd::utf8::encode_utf8;
use crate::headers::{pairs_insert, Headers};
use crate::text::{decimal, join, join_chars, push_all, push_decimal, string_of, chars_of, views};

verus! {

/// The statuses that the server responds with.
#[derive(Debug, Clone, Copy, PartialEq, Eq, Structural)]
pub enum StatusCode {
    Success,
    NotImplemented,
    NotFound,
}

/// The numeric code of a status.
pub open spec fn status_code(s: StatusCode) -> u16 {
    match s {
        StatusCode::Success => 200,
        StatusCode::NotImplemented => 501,
        StatusCode::NotFound => 404,
    }
}

/// The reason phrase of a status.
pub open spec fn status_message(s: StatusCode) -> Seq<char> {
    match s {
        StatusCode::Success => "Success"@,
        StatusCode::NotImplemented => "Not Implemented"@,
        StatusCode::NotFound => "Not Found"@,
    }
}

impl StatusCode {
    /// The numeric code.
    pub fn code(&self) -> (r: u16)
        ensures
            r == status_code(*self),
    {
        match self {
            Self::Success => 200,
            Self::NotImplemented => 501,
            Self::NotFound => 404,
        }
    }

    /// The reason phrase.
    pub fn message(&self) -> (r: &'static str)
        ensures
            r@ == status_message(*self),
    {
        match self {
            Self::Success => "Success",
            Self::NotImplemented => "Not Implemented",
            Self::NotFound => "Not Found",
        }
    }
}

/// The name of the header that gives the body's length.
pub open spec fn content_length_key() -> Seq<char> {
    seq!['C', 'o', 'n', 't', 'e', 'n', 't', '-', 'L', 'e', 'n', 'g', 't', 'h']
}

/// The `Content-Length` value for a body: its length in UTF-8 bytes, in
/// decimal.
pub open spec fn content_length(body: Seq<char>) -> Seq<char> {
    decimal(encode_utf8(body).len())
}

/// A header as a line of the wire form.
pub open spec fn header_line(p: (Seq<char>, Seq<char>)) -> Seq<char> {
    p.0 + seq![':', ' '] + p.1
}

/// The wire form of a response: the status line, the header lines, an empty
/// line and the body.
pub open spec fn wire_form(
    protocol: Seq<char>,
    status: StatusCode,
    pairs: Seq<(Seq<char>, Seq<char>)>,
    body: Seq<char>,
) -> Seq<char> {
    protocol + seq![' '] + decimal(status_code(status) as nat) + seq![' '] + status_message(status)
        + seq!['\n'] + join(pairs.map_values(|p: (Seq<char>, Seq<char>)| header_line(p)), '\n')
        + seq!['\n', '\n'] + body
}

/// The body as text, empty when there is none.
pub open spec fn body_text(body: Option<Seq<char>>) -> Seq<char> {
    match body {
        Some(b) => b,
        None => Seq::empty(),
    }
}

/// Relies on chrono's `Utc::now` and `DateTime::to_rfc2822`: the current
/// time, written in RFC 2822 form. Nothing is stated of the text.
#[verifier::external_body]
fn now_rfc2822() -> (r: String) {
    chrono::Utc::now().to_rfc2822()
}

/// Relies on `str::len`: the length of `s` in UTF-8 bytes, which a `str`
/// in memory always has as a `usize`.
#[verifier::external_body]
fn byte_len(s: &str) -> (r: usize)
    ensures
        r as nat == encode_utf8(s@).len(),
{
    s.len()
}

/// A response: protocol, status, headers and an optional body.
#[derive(Debug)]
pub struct HttpResponse {
    protocol: String,
    status: StatusCode,
    headers: Headers,
    body: Option<String>,
}

impl HttpResponse {
    /// The protocol.
    pub closed spec fn spec_protocol(&self) -> Seq<char> {
        self.protocol@
    }

    /// The status.
    pub closed spec fn spec_status(&self) -> StatusCode {
        self.status
    }

    /// The headers.
    pub closed spec fn spec_headers(&self) -> Headers {
        self.headers
    }

    /// The body, if any.
    pub closed spec fn spec_body(&self) -> Option<Seq<char>> {
        match self.body {
            Some(b) => Some(b@),
            None => None,
        }
    }

    /// The protocol is `HTTP/1.1`, header names are unique, and a body comes
    /// with a `Content-Length` header that gives its byte length.
    pub open spec fn wf(&self) -> bool {
        &&& self.spec_protocol() == "HTTP/1.1"@
        &&& self.spec_headers().wf()
        &&& self.spec_body() matches Some(b) ==> self.spec_headers()@.contains_key(content_length_key())
            && self.spec_headers()@[content_length_key()] == content_length(b)
    }

    /// The wire form of this response.
    pub open spec fn spec_wire(&self) -> Seq<char> {
        wire_form(
            self.spec_protocol(),
            self.spec_status(),
            self.spec_headers().pairs(),
            body_text(self.spec_body()),
        )
    }

    /// The headers that a default response carries: the server's name, the
    /// current date, an HTML content type and a zero length.
    fn default_headers() -> (r: Headers)
        ensures
            r.wf(),
            r@.dom() == set![
                "Server"@,
                "Date"@,
                "Content-Type"@,
                content_length_key(),
            ],
            r@["Server"@] == "jhttp/0.1"@,
            r@["Content-Type"@] == "text/html"@,
            r@[content_length_key()] == "0"@,
    {
        proof {
            reveal_strlit("Server");
            reveal_strlit("Date");
            reveal_strlit("Content-Type");
            reveal_strlit("Content-Length");
        }
        let mut h = Headers::new();
        h.insert(String::from_str("Server"), String::from_str("jhttp/0.1"));
        h.insert(String::from_str("Date"), now_rfc2822());
        h.insert(String::from_str("Content-Type"), String::from_str("text/html"));
        h.insert(String::from_str("Content-Length"), String::from_str("0"));
        proof {
            assert("Content-Length"@ =~= content_length_key());
            assert("Server"@[0] != "Date"@[0]);
            assert("Server"@[0] != "Content-Type"@[0]);
            assert("Server"@.len() != "Content-Length"@.len());
            assert("Content-Type"@.len() != "Content-Length"@.len());
            assert(h@.dom() =~= set!["Server"@, "Date"@, "Content-Type"@, content_length_key()]);
        }
        h
    }

    /// A response with the given status, headers and body; where there is a
    /// body, `Content-Length` is set to its byte length, over any value that
    /// `headers` gave it.
    pub fn new(status: StatusCode, headers: Headers, body: Option<String>) -> (r: HttpResponse)
        requires
            headers.wf(),
        ensures
            r.wf(),
            r.spec_protocol() == "HTTP/1.1"@,
            r.spec_status() == status,
            r.spec_body() == match body {
                Some(b) => Some(b@),
                None => None::<Seq<char>>,
            },
            match body {
                Some(b) => {
                    &&& r.spec_headers()@ == headers@.insert(content_length_key(), content_length(b@))
                    &&& r.spec_headers().pairs() == pairs_insert(
                        headers.pairs(),
                        content_length_key(),
                        content_length(b@),
                    )
                },
                None => r.spec_headers()@ == headers@ && r.spec_headers().pairs() == headers.pairs(),
            },
    {
        let mut headers = headers;
        proof {
            reveal_strlit("Content-Length");
            assert("Content-Length"@ =~= content_length_key());
        }
        match &body {
            Some(b) => {
                let n = byte_len(b.as_str());
                let mut digits: Vec<char> = Vec::new();
                push_decimal(&mut digits, n);
                proof {
                    assert(digits@ =~= decimal(n as nat));
                }
                headers.insert(String::from_str("Content-Length"), string_of(&digits));
            },
            None => {},
        }
        HttpResponse { protocol: String::from_str("HTTP/1.1"), status, headers, body }
    }

    /// The status.
    pub fn status(&self) -> (r: StatusCode)
        ensures
            r == self.spec_status(),
    {
        self.status
    }

    /// The headers.
    pub fn headers(&self) -> (r: &Headers)
        ensures
            *r == self.spec_headers(),
    {
        &self.headers
    }

    /// The body, if any.
    pub fn body(&self) -> (r: Option<&String>)
        ensures
            match r {
                Some(b) => self.spec_body() == Some(b@),
                None => self.spec_body() is None,
            },
    {
        match &self.body {
            Some(b) => Some(b),
            None => None,
        }
    }

    /// The wire form: `<protocol> <code> <reason>`, `\n`, the header lines
    /// `<name>: <value>` joined by `\n`, `\n\n`, and the body.
    pub fn to_string(&self) -> (r: String)
        ensures
            r@ == self.spec_wire(),
    {
        let mut out = chars_of(self.protocol.as_str());
        out.push(' ');
        push_decimal(&mut out, self.status.code() as usize);
        out.push(' ');
        push_all(&mut out, &chars_of(self.status.message()));
        out.push('\n');
        let ghost ps = self.headers.pairs();
        let mut lines: Vec<Vec<char>> = Vec::new();
        let mut i: usize = 0;
        while i < self.headers.len()
            invariant
                ps == self.headers.pairs(),
                i <= ps.len(),
                views(lines@) == ps.take(i as int).map_values(
                    |p: (Seq<char>, Seq<char>)| header_line(p),
                ),
            decreases ps.len() - i,
        {
            let mut line = chars_of(self.headers.key_at(i).as_str());
            line.push(':');
            line.push(' ');
            push_all(&mut line, &chars_of(self.headers.value_at(i).as_str()));
            let ghost before = views(lines@);
            lines.push(line);
            proof {
                assert(line@ =~= header_line(ps[i as int]));
                assert(views(lines@) =~= before.push(line@));
                assert(views(lines@) =~= ps.take(i + 1).map_values(
                    |p: (Seq<char>, Seq<char>)| header_line(p),
                ));
            }
            i += 1;
        }
        let joined = join_chars(&lines, 0, '\n');
        push_all(&mut out, &joined);
        out.push('\n');
        out.push('\n');
        match &self.body {
            Some(b) => push_all(&mut out, &chars_of(b.as_str())),
            None => {},
        }
        proof {
            assert(views(lines@).skip(0) =~= views(lines@));
            assert(ps.take(ps.len() as int) =~= ps);
            assert(out@ =~= self.spec_wire());
        }
        string_of(&out)
    }
}

impl Default for HttpResponse {
    /// A `Success` response with the default headers and no body.
    fn default() -> (r: HttpResponse)
        ensures
            r.wf(),
            r.spec_status() == StatusCode::Success,
            r.spec_body() is None,
            r.spec_headers()@.dom().contains("Date"@),
            r.spec_headers()@["Server"@] == "jhttp/0.1"@,
    {
        HttpResponse::new(StatusCode::Success, HttpResponse::default_headers(), None)
    }
}

} // verus!
