//! Properties of the request parser, stated over `parse_spec`, which
//! `HttpRequest::from_str` is proved to follow.

use vstd::prelude::*;
use crate::headers::pairs_map;
use crate::request::{
    body_section, first_blank, header_entry, header_map, header_section, is_first_blank, method_of,
    parse_spec, upper_of, ParseSpec,
};
use crate::response::header_line;
use crate::text::{
    free_of, index_of, is_ws, join, lemma_index_of_prefix, lemma_join_concat,
    lemma_join_leading_empty, lemma_join_split, lemma_split_join, lemma_split_last_piece,
    lemma_split_no_cr, lemma_split_on_nonempty, lemma_split_pieces_free, lines, no_crlf, split_on,
    strip_all, strip_cr, trim_start,
};

verus! {

/// The request line for a method token, a path and a protocol.
pub open spec fn request_line(m: Seq<char>, path: Seq<char>, protocol: Seq<char>) -> Seq<char> {
    m + seq![' '] + path + seq![' '] + protocol
}

/// The header lines for (name, value) pairs, in order.
pub open spec fn header_lines(hs: Seq<(Seq<char>, Seq<char>)>) -> Seq<Seq<char>> {
    hs.map_values(|p: (Seq<char>, Seq<char>)| header_line(p))
}

/// Request text: the request line and the header lines, each ended by `\n`,
/// an empty line, and the body.
pub open spec fn request_text(
    m: Seq<char>,
    path: Seq<char>,
    protocol: Seq<char>,
    hs: Seq<(Seq<char>, Seq<char>)>,
    body: Seq<char>,
) -> Seq<char> {
    join(seq![request_line(m, path, protocol)] + header_lines(hs), '\n') + seq!['\n', '\n'] + body
}

/// `t` does not end with a carriage return.
pub open spec fn no_trailing_cr(t: Seq<char>) -> bool {
    t.len() == 0 || t.last() != '\r'
}

/// The fields of a request can be written as request text and read back:
/// tokens of the request line hold no space or newline and the line does not
/// end with `\r`; header names hold no `:` or newline; header values hold no
/// newline, do not start with whitespace and do not end with `\r`; the body
/// holds no `\r\n` and does not end with `\n`.
pub open spec fn request_fields_ok(
    m: Seq<char>,
    path: Seq<char>,
    protocol: Seq<char>,
    hs: Seq<(Seq<char>, Seq<char>)>,
    body: Seq<char>,
) -> bool {
    &&& free_of(m, ' ') && free_of(m, '\n')
    &&& free_of(path, ' ') && free_of(path, '\n')
    &&& free_of(protocol, ' ') && free_of(protocol, '\n') && no_trailing_cr(protocol)
    &&& forall|i: int|
        0 <= i < hs.len() ==> {
            let (k, v) = #[trigger] hs[i];
            &&& free_of(k, ':') && free_of(k, '\n')
            &&& free_of(v, '\n') && no_trailing_cr(v)
            &&& (v.len() == 0 || !is_ws(v[0]))
        }
    &&& no_crlf(body)
    &&& (body.len() == 0 || body.last() != '\n')
}

proof fn lemma_header_entry(k: Seq<char>, v: Seq<char>)
    requires
        free_of(k, ':'),
        v.len() == 0 || !is_ws(v[0]),
    ensures
        header_entry(header_line((k, v))) == Some((k, v)),
{
    let line = header_line((k, v));
    let tail = seq![':', ' '] + v;
    assert(line =~= k + tail);
    assert(tail[0] == ':');
    lemma_index_of_prefix(k, tail, ':');
    assert(index_of(line, ':') == Some(k.len() as int));
    assert(line.take(k.len() as int) =~= k);
    let after = line.skip(k.len() as int + 1);
    assert(after =~= seq![' '] + v);
    assert(is_ws(' '));
    assert(after.drop_first() =~= v);
    assert(trim_start(after) == trim_start(v));
    assert(trim_start(v) == v);
}

proof fn lemma_header_map_of_lines(hs: Seq<(Seq<char>, Seq<char>)>)
    requires
        forall|i: int|
            0 <= i < hs.len() ==> {
                let (k, v) = #[trigger] hs[i];
                free_of(k, ':') && (v.len() == 0 || !is_ws(v[0]))
            },
    ensures
        header_map(header_lines(hs)) == pairs_map(hs),
    decreases hs.len(),
{
    if hs.len() > 0 {
        let init = hs.drop_last();
        assert forall|i: int| 0 <= i < init.len() implies {
            let (k, v) = #[trigger] init[i];
            free_of(k, ':') && (v.len() == 0 || !is_ws(v[0]))
        } by {
            assert(init[i] == hs[i]);
        }
        lemma_header_map_of_lines(init);
        assert(header_lines(hs).drop_last() =~= header_lines(init));
        let last = hs[hs.len() - 1];
        lemma_header_entry(last.0, last.1);
    }
}

/// Writing a request as text and parsing that text gives the request back:
/// its path, protocol, headers (as a map, a later pair for a name overriding
/// an earlier one) and body; the method is `GET` exactly when the method
/// token names it, and otherwise the request is `NotImplemented`.
pub proof fn lemma_parse_round_trip(
    m: Seq<char>,
    path: Seq<char>,
    protocol: Seq<char>,
    hs: Seq<(Seq<char>, Seq<char>)>,
    body: Seq<char>,
)
    requires
        request_fields_ok(m, path, protocol, hs, body),
    ensures
        parse_spec(request_text(m, path, protocol, hs, body)) == if method_of(upper_of(m)) is Ok {
            ParseSpec::Parsed { path, protocol, headers: pairs_map(hs), body }
        } else {
            ParseSpec::NotImplemented
        },
{
    let line0 = request_line(m, path, protocol);
    let hl = header_lines(hs);
    let bp = split_on(body, '\n');
    let empty = Seq::<char>::empty();
    let text = request_text(m, path, protocol, hs, body);
    let head = seq![line0] + hl;
    let parts = head + (seq![empty] + bp);
    lemma_split_on_nonempty(body, '\n');
    lemma_join_split(body, '\n');
    lemma_join_concat(seq![empty], bp, '\n');
    lemma_join_concat(head, seq![empty] + bp, '\n');
    assert(join(seq![empty], '\n') == empty);
    assert(text =~= join(parts, '\n'));
    // No part holds a newline.
    lemma_split_pieces_free(body, '\n');
    assert forall|i: int| 0 <= i < parts.len() implies free_of(#[trigger] parts[i], '\n') by {
        if i == 0 {
            assert(parts[i] == line0);
        } else if i < 1 + hs.len() {
            assert(parts[i] == hl[i - 1]);
            let (k, v) = hs[i - 1];
            assert(hl[i - 1] == k + seq![':', ' '] + v);
        } else if i == 1 + hs.len() {
            assert(parts[i] == empty);
        } else {
            assert(parts[i] == bp[i - 2 - hs.len()]);
        }
    }
    lemma_split_join(parts, '\n');
    assert(split_on(text, '\n') == parts);
    // No line loses a character to the line ending.
    lemma_split_no_cr(body);
    lemma_split_last_piece(body, '\n');
    let tail = if body.len() == 0 { Seq::<Seq<char>>::empty() } else { bp };
    let ls = seq![line0] + hl + seq![empty] + tail;
    assert forall|i: int| 0 <= i < parts.len() - 1 implies strip_cr(#[trigger] parts[i]) == parts[i] by {
        if i == 0 {
            assert(parts[i] == line0);
        } else if i < 1 + hs.len() {
            assert(parts[i] == hl[i - 1]);
            let (k, v) = hs[i - 1];
            assert(hl[i - 1] == k + seq![':', ' '] + v);
        } else if i > 1 + hs.len() {
            assert(parts[i] == bp[i - 2 - hs.len()]);
        }
    }
    if body.len() == 0 {
        assert(bp =~= seq![empty]);
        assert(strip_all(parts.take(parts.len() - 1)) =~= ls);
    } else {
        assert(strip_all(parts.take(parts.len() - 1)).push(parts.last()) =~= ls);
    }
    assert(lines(text) == ls);
    // The request line.
    assert(join(seq![m, path, protocol], ' ') =~= line0) by {
        let t3 = seq![m, path, protocol];
        let t2 = seq![m, path];
        assert(t3.drop_last() =~= t2);
        assert(t2.drop_last() =~= seq![m]);
        assert(join(seq![m], ' ') == m);
        assert(join(t2, ' ') == m + seq![' '] + path);
        assert(join(t3, ' ') == join(t2, ' ') + seq![' '] + protocol);
    }
    lemma_split_join(seq![m, path, protocol], ' ');
    assert(ls[0] == line0);
    // The header section ends at the one empty line the text was given.
    let rest = ls.skip(1);
    assert(rest =~= hl + seq![empty] + tail);
    let b = hs.len() as int;
    assert forall|j: int| 0 <= j < b implies (#[trigger] rest[j]).len() != 0 by {
        assert(rest[j] == hl[j]);
        let (k, v) = hs[j];
        assert(hl[j] == k + seq![':', ' '] + v);
    }
    assert(is_first_blank(rest, b));
    assert forall|c: int| is_first_blank(rest, c) implies c == b by {
        if c > b {
            assert(rest[b].len() == 0);
        }
    }
    assert(first_blank(rest) == Some(b));
    assert(header_section(rest) =~= hl);
    assert(rest.skip(b + 1) =~= tail);
    assert(body_section(rest) == body);
    lemma_header_map_of_lines(hs);
}

/// Empty input is always an error: it holds no line.
pub proof fn lemma_empty_request()
    ensures
        parse_spec(Seq::empty()) == ParseSpec::Empty,
{
    let p = split_on(Seq::<char>::empty(), '\n');
    assert(p =~= seq![Seq::<char>::empty()]);
    assert(lines(Seq::<char>::empty()) =~= Seq::<Seq<char>>::empty());
}

/// A request line that is not three space-separated tokens is rejected,
/// naming the line.
pub proof fn lemma_bad_request_line(s: Seq<char>)
    requires
        lines(s).len() > 0,
        split_on(lines(s)[0], ' ').len() != 3,
    ensures
        parse_spec(s) == ParseSpec::InvalidRequestLine(lines(s)[0]),
{
}

/// A request line whose method token names no implemented method is
/// `NotImplemented`, not a malformed request.
pub proof fn lemma_unimplemented_method(s: Seq<char>)
    requires
        lines(s).len() > 0,
        split_on(lines(s)[0], ' ').len() == 3,
        method_of(upper_of(split_on(lines(s)[0], ' ')[0])) is Err,
    ensures
        parse_spec(s) == ParseSpec::NotImplemented,
{
}

/// Without an empty line, every line after the request line is a header
/// line and the body is empty.
pub proof fn lemma_no_blank_line(s: Seq<char>)
    requires
        lines(s).len() > 0,
        split_on(lines(s)[0], ' ').len() == 3,
        method_of(upper_of(split_on(lines(s)[0], ' ')[0])) is Ok,
        forall|j: int| 1 <= j < lines(s).len() ==> (#[trigger] lines(s)[j]).len() != 0,
    ensures
        parse_spec(s) matches ParseSpec::Parsed { headers, body, .. } && headers == header_map(
            lines(s).skip(1),
        ) && body.len() == 0,
{
    let rest = lines(s).skip(1);
    assert forall|b: int| !is_first_blank(rest, b) by {
        if 0 <= b < rest.len() {
            assert(rest[b] == lines(s)[b + 1]);
        }
    }
}

/// Empty lines right after the one that ends the headers stay in the body,
/// as its first characters: `k` of them give `k` newlines before the rest.
pub proof fn lemma_blank_lines_start_body(s: Seq<char>, b: int, k: int)
    requires
        lines(s).len() > 0,
        split_on(lines(s)[0], ' ').len() == 3,
        method_of(upper_of(split_on(lines(s)[0], ' ')[0])) is Ok,
        first_blank(lines(s).skip(1)) == Some(b),
        0 <= k,
        b + 1 + k < lines(s).len() - 1,
        forall|j: int| b + 1 <= j < b + 1 + k ==> (#[trigger] lines(s).skip(1)[j]).len() == 0,
    ensures
        parse_spec(s) matches ParseSpec::Parsed { body, .. } && body == Seq::new(
            k as nat,
            |i: int| '\n',
        ) + join(lines(s).skip(1).skip(b + 1 + k), '\n'),
{
    let rest = lines(s).skip(1);
    let q = rest.skip(b + 1);
    assert forall|i: int| 0 <= i < k implies (#[trigger] q[i]).len() == 0 by {
        assert(q[i] == rest[b + 1 + i]);
    }
    lemma_join_leading_empty(q, k, '\n');
    assert(q.skip(k) =~= rest.skip(b + 1 + k));
}

} // verus!
