//! The request model and the parser from request text.

use vstd::prelude::*;
use vstd::string::*;
use crate::error::ServerError;
use crate::headers::Headers;
use crate::text::{
    chars_of, copy_range, index_of, index_of_char, join, join_chars, lemma_index_of_found, lines,
    split_chars, split_lines, split_on, string_of, trim_start, trim_start_chars, views,
};

verus! {

/// The request methods that the server implements.
#[derive(Debug, Clone, Copy, PartialEq, Eq, Structural)]
pub enum Method {
    GET,
}

/// What `str::to_uppercase` returns for `s`.
pub uninterp spec fn upper_of(s: Seq<char>) -> Seq<char>;

/// Relies on `str::to_uppercase`: its result depends on the characters alone.
#[verifier::external_body]
fn uppercase(s: &str) -> (r: String)
    ensures
        r@ == upper_of(s@),
{
    s.to_uppercase()
}

/// The method that an upper-cased method token names.
pub open spec fn method_of(u: Seq<char>) -> Result<Method, ServerError> {
    if u == "GET"@ {
        Ok(Method::GET)
    } else {
        Err(ServerError::NotImplemented)
    }
}

impl Method {
    /// Resolves a method token, ignoring case; a token that names no
    /// implemented method is `NotImplemented`.
    pub fn from_str(s: &str) -> (r: Result<Method, ServerError>)
        ensures
            r == method_of(upper_of(s@)),
    {
        let u = uppercase(s);
        Method::from_canonical(u.as_str())
    }

    /// Resolves an upper-cased method token.
    pub fn from_canonical(u: &str) -> (r: Result<Method, ServerError>)
        ensures
            r == method_of(u@),
    {
        proof {
            reveal_strlit("GET");
        }
        let cs = chars_of(u);
        if cs.len() == 3 && cs[0] == 'G' && cs[1] == 'E' && cs[2] == 'T' {
            proof {
                assert(u@ =~= "GET"@);
            }
            Ok(Method::GET)
        } else {
            proof {
                if u@ == "GET"@ {
                    assert(cs@[0] == 'G' && cs@[1] == 'E' && cs@[2] == 'T');
                }
            }
            Err(ServerError::NotImplemented)
        }
    }
}

/// Why request text was not parsed.
#[derive(Debug)]
pub enum ParseError {
    /// The text holds no line.
    Empty,
    /// The request line (held here) is not three space-separated tokens.
    InvalidRequestLine(String),
    /// The request line names a method that the server does not implement.
    Server(ServerError),
}

/// A parsed request.
#[derive(Debug)]
pub struct HttpRequest {
    pub method: Method,
    pub path: String,
    pub protocol: String,
    pub headers: Headers,
    pub body: String,
}

/// What parsing request text gives, in terms of its characters.
pub enum ParseSpec {
    Empty,
    InvalidRequestLine(Seq<char>),
    NotImplemented,
    Parsed {
        path: Seq<char>,
        protocol: Seq<char>,
        headers: Map<Seq<char>, Seq<char>>,
        body: Seq<char>,
    },
}

/// `b` is the first empty line of `ls`.
pub open spec fn is_first_blank(ls: Seq<Seq<char>>, b: int) -> bool {
    &&& 0 <= b < ls.len()
    &&& ls[b].len() == 0
    &&& forall|j: int| 0 <= j < b ==> #[trigger] ls[j].len() != 0
}

/// The position of the first empty line of `ls`, if any.
pub open spec fn first_blank(ls: Seq<Seq<char>>) -> Option<int> {
    if exists|b: int| is_first_blank(ls, b) {
        Some(choose|b: int| is_first_blank(ls, b))
    } else {
        None
    }
}

/// The lines before the first empty line, or all lines if none is empty.
pub open spec fn header_section(rest: Seq<Seq<char>>) -> Seq<Seq<char>> {
    match first_blank(rest) {
        Some(b) => rest.take(b),
        None => rest,
    }
}

/// The lines after the first empty line joined with `\n`; empty if no line is
/// empty.
pub open spec fn body_section(rest: Seq<Seq<char>>) -> Seq<char> {
    match first_blank(rest) {
        Some(b) => join(rest.skip(b + 1), '\n'),
        None => Seq::empty(),
    }
}

/// A header line split at its first `:`, the value without leading
/// whitespace; `None` for a line without `:`.
pub open spec fn header_entry(line: Seq<char>) -> Option<(Seq<char>, Seq<char>)> {
    match index_of(line, ':') {
        Some(i) => Some((line.take(i), trim_start(line.skip(i + 1)))),
        None => None,
    }
}

/// The headers that header lines give; a later line for a name overrides an
/// earlier one.
pub open spec fn header_map(hl: Seq<Seq<char>>) -> Map<Seq<char>, Seq<char>>
    decreases hl.len(),
{
    if hl.len() == 0 {
        Map::empty()
    } else {
        let m = header_map(hl.drop_last());
        match header_entry(hl.last()) {
            Some(kv) => m.insert(kv.0, kv.1),
            None => m,
        }
    }
}

/// What request text `s` parses to.
pub open spec fn parse_spec(s: Seq<char>) -> ParseSpec {
    let ls = lines(s);
    if ls.len() == 0 {
        ParseSpec::Empty
    } else {
        let tokens = split_on(ls[0], ' ');
        if tokens.len() != 3 {
            ParseSpec::InvalidRequestLine(ls[0])
        } else if method_of(upper_of(tokens[0])) is Err {
            ParseSpec::NotImplemented
        } else {
            let rest = ls.skip(1);
            ParseSpec::Parsed {
                path: tokens[1],
                protocol: tokens[2],
                headers: header_map(header_section(rest)),
                body: body_section(rest),
            }
        }
    }
}

/// Whether `r` is the outcome that `p` describes.
pub open spec fn parse_result_is(r: Result<HttpRequest, ParseError>, p: ParseSpec) -> bool {
    match r {
        Ok(req) => {
            &&& req.headers.wf()
            &&& req.method == Method::GET
            &&& p matches ParseSpec::Parsed { path, protocol, headers, body }
            &&& req.path@ == path
            &&& req.protocol@ == protocol
            &&& req.headers@ == headers
            &&& req.body@ == body
        },
        Err(ParseError::Empty) => p is Empty,
        Err(ParseError::InvalidRequestLine(l)) => p == ParseSpec::InvalidRequestLine(l@),
        Err(ParseError::Server(e)) => p is NotImplemented && e == ServerError::NotImplemented,
    }
}

/// Parses the headers from lines `from` up to `to` of `ls`.
fn parse_headers(ls: &Vec<Vec<char>>, from: usize, to: usize) -> (r: Headers)
    requires
        from <= to <= ls.len(),
    ensures
        r.wf(),
        r@ == header_map(views(ls@).subrange(from as int, to as int)),
{
    let mut headers = Headers::new();
    let mut i: usize = from;
    let ghost ps = views(ls@);
    proof {
        assert(ps.subrange(from as int, from as int) =~= Seq::<Seq<char>>::empty());
    }
    while i < to
        invariant
            from <= i <= to <= ls.len(),
            ps == views(ls@),
            headers.wf(),
            headers@ == header_map(ps.subrange(from as int, i as int)),
        decreases to - i,
    {
        let line = &ls[i];
        proof {
            assert(ps.subrange(from as int, i + 1).drop_last() =~= ps.subrange(from as int, i as int));
            assert(ps.subrange(from as int, i + 1).last() == line@);
            lemma_index_of_found(line@, ':');
        }
        match index_of_char(line, ':') {
            Some(c) => {
                let key = string_of(&copy_range(line, 0, c));
                let raw = copy_range(line, c + 1, line.len());
                let value = string_of(&trim_start_chars(&raw));
                proof {
                    assert(line@.take(c as int) =~= line@.subrange(0, c as int));
                    assert(line@.skip(c + 1) =~= raw@);
                }
                headers.insert(key, value);
            },
            None => {},
        }
        i += 1;
    }
    headers
}

impl HttpRequest {
    /// Parses request text: a request line of three space-separated tokens
    /// (method, path, protocol), header lines up to the first empty line, and
    /// the remaining lines as the body.
    pub fn from_str(s: &str) -> (r: Result<HttpRequest, ParseError>)
        ensures
            parse_result_is(r, parse_spec(s@)),
    {
        let cs = chars_of(s);
        let ls = split_lines(&cs);
        let ghost vl = views(ls@);
        if ls.len() == 0 {
            return Err(ParseError::Empty);
        }
        let tokens = split_chars(&ls[0], ' ');
        if tokens.len() != 3 {
            return Err(ParseError::InvalidRequestLine(string_of(&ls[0])));
        }
        proof {
            assert(vl[0] == ls@[0]@);
            assert(views(tokens@)[0] == tokens@[0]@);
            assert(views(tokens@)[1] == tokens@[1]@);
            assert(views(tokens@)[2] == tokens@[2]@);
        }
        let token = string_of(&tokens[0]);
        let method = match Method::from_str(token.as_str()) {
            Ok(m) => m,
            Err(e) => {
                return Err(ParseError::Server(e));
            },
        };
        let path = string_of(&tokens[1]);
        let protocol = string_of(&tokens[2]);
        let n = ls.len();
        let mut b: usize = 1;
        while b < n && ls[b].len() != 0
            invariant
                1 <= b <= n == ls.len(),
                vl == views(ls@),
                forall|j: int| 1 <= j < b ==> #[trigger] vl[j].len() != 0,
            decreases n - b,
        {
            proof {
                assert(vl[b as int] == ls@[b as int]@);
            }
            b += 1;
        }
        let ghost rest = vl.skip(1);
        proof {
            if b < n {
                assert(vl[b as int] == ls@[b as int]@);
                assert(is_first_blank(rest, b - 1));
                assert forall|c: int| is_first_blank(rest, c) implies c == b - 1 by {
                    if c < b - 1 {
                        assert(rest[c] == vl[c + 1]);
                    }
                }
            } else {
                assert forall|c: int| !is_first_blank(rest, c) by {
                    if 0 <= c < rest.len() {
                        assert(rest[c] == vl[c + 1]);
                    }
                }
            }
        }
        let headers = parse_headers(&ls, 1, b);
        let body = if b < n {
            let joined = join_chars(&ls, b + 1, '\n');
            proof {
                assert(vl.skip(b + 1) =~= rest.skip(b as int));
            }
            string_of(&joined)
        } else {
            String::new()
        };
        proof {
            assert(vl.subrange(1, b as int) =~= header_section(rest));
        }
        Ok(HttpRequest { method, path, protocol, headers, body })
    }
}

} // verus!
