//! Protocol codec: pure encoding of requests and decoding of responses
//! for the minimal HTTP-like wire format the control plane speaks.
//!
//! The decoder works on the bytes received from the transport, taken as
//! one sequence: the transport is one-request-per-connection, so the
//! whole exchange is in hand when decoding starts.  The spec functions
//! in this module are the authoritative statement of the wire format;
//! every executable function is proved to agree with them exactly.

use vstd::prelude::*;
use vstd::string::StringSliceAdditionalSpecFns;
use vstd::string::StrSliceExecFns;
use crate::text::{
    is_ws, ascii_seq, ascii_bytes, subvec, find_byte, lemma_find_byte, trim_front, trim_back,
    trimmed, lemma_trim_front_skip, lemma_trim_back_take, lemma_trimmed_id, trimmed_vec,
    lower_seq, eq_ci, eq_ignore_case, contains_seq, contains_bytes, all_digits, dec_val,
    parse_dec, parse_dec_u64, dec_digits, lemma_dec_digits, u64_to_dec, all_hex_digits, hex_val,
    parse_hex, parse_hex_u64, hex_digits, lemma_hex_digits, lemma_digits_not_ws,
    is_ws_exec, find_byte_from, lemma_find_byte_at, lemma_find_byte_absent, lemma_find_byte_concat,
};

verus! {

/// Why decoding a message failed.
#[derive(Clone, Copy, PartialEq, Eq, Structural, Debug)]
pub enum DecodeError {
    /// The stream closed before the header terminator arrived.
    UnexpectedClose,
    /// The header section ended before any status line.
    EmptyResponse,
    /// The status line has fewer than two whitespace-separated tokens.
    MalformedStatusLine,
    /// The status-code token is not a number a `u16` can hold.
    BadStatusCode,
    /// A chunk-size line is not a hexadecimal number.
    BadChunkSize,
    /// The stream closed before the declared body length arrived.
    ShortBody,
    /// The stream closed in the middle of the chunked body.
    ShortChunk,
    /// The body bytes are not valid UTF-8 text.
    BodyNotUtf8,
}

/// How the body of a message is framed, derived from its headers.
#[derive(Clone, Copy, PartialEq, Eq, Structural, Debug)]
pub enum TransferEncoding {
    /// `Content-Length: n`: exactly `n` bytes follow the headers.
    IdentityLength(u64),
    /// `Transfer-Encoding: chunked`: hex-sized segments, zero-terminated.
    Chunked,
    /// Neither: the body is everything until the stream closes.
    ReadUntilClose,
}

/// A decoded response before its body is checked as text: the status
/// code and the raw body bytes.
pub struct RawResponse {
    pub status_code: u16,
    pub body: Vec<u8>,
}

/// The line terminator.
pub open spec fn crlf() -> Seq<u8> {
    seq![13u8, 10u8]
}

/// The views of a sequence of byte vectors.
pub open spec fn views_of(v: Seq<Vec<u8>>) -> Seq<Seq<u8>> {
    Seq::new(v.len(), |i: int| v[i]@)
}

// ---------------------------------------------------------------------------
// Line structure
// ---------------------------------------------------------------------------

/// The length of the first line of `data`: up to and including the
/// first line feed, or all of `data` if none remains.
pub open spec fn first_line_len(data: Seq<u8>) -> int {
    if find_byte(data, 10) < data.len() {
        find_byte(data, 10) + 1int
    } else {
        data.len() as int
    }
}

/// The first line of `data`, terminator included.
pub open spec fn first_line(data: Seq<u8>) -> Seq<u8> {
    data.take(first_line_len(data))
}

/// `data` with its first line removed.
pub open spec fn after_line(data: Seq<u8>) -> Seq<u8> {
    data.skip(first_line_len(data))
}

pub proof fn lemma_first_line_bounds(data: Seq<u8>)
    ensures
        0 <= first_line_len(data) <= data.len(),
        data.len() > 0 ==> first_line_len(data) >= 1,
        forall|i: int| 0 <= i < first_line_len(data) - 1 ==> data[i] != 10,
        data[first_line_len(data) - 1] == 10 || first_line_len(data) == data.len(),
{
    lemma_find_byte(data, 10);
}

/// Splitting at a line boundary: if `s` is one whole line (its only
/// line feed at its end), the first line of `s + t` is `s`.
pub proof fn lemma_first_line_of(s: Seq<u8>, t: Seq<u8>)
    requires
        s.len() > 0,
        s.last() == 10,
        forall|i: int| 0 <= i < s.len() - 1 ==> s[i] != 10,
    ensures
        first_line(s + t) == s,
        after_line(s + t) == t,
{
    lemma_find_byte(s, 10);
    assert(find_byte(s, 10) == s.len() - 1) by {
        if find_byte(s, 10) < s.len() - 1 {
            assert(s[find_byte(s, 10) as int] == 10);
        }
        if find_byte(s, 10) >= s.len() {
            assert(s[s.len() - 1] == 10);
        }
    }
    lemma_find_byte_concat(s, t, 10);
    assert((s + t).take(s.len() as int) =~= s);
    assert((s + t).skip(s.len() as int) =~= t);
}

// ---------------------------------------------------------------------------
// Header section
// ---------------------------------------------------------------------------

/// Split `data` into its header lines and the remainder after the empty
/// terminator line; `None` when the data runs out before the terminator.
pub open spec fn split_headers(data: Seq<u8>) -> Option<(Seq<Seq<u8>>, Seq<u8>)>
    decreases data.len(),
{
    if data.len() == 0 {
        None
    } else {
        let line = first_line(data);
        let rest = after_line(data);
        if line == crlf() {
            Some((Seq::empty(), rest))
        } else {
            match split_headers(rest) {
                None => None,
                Some(p) => Some((seq![line] + p.0, p.1)),
            }
        }
    }
}

/// Header lines already taken, prepended to what a continuation yields.
pub open spec fn glue_headers(
    pre: Seq<Seq<u8>>,
    r: Option<(Seq<Seq<u8>>, Seq<u8>)>,
) -> Option<(Seq<Seq<u8>>, Seq<u8>)> {
    match r {
        None => None,
        Some(p) => Some((pre + p.0, p.1)),
    }
}

/// Find the end (exclusive) of the line starting at `pos`.
pub fn next_line_end(data: &Vec<u8>, pos: usize) -> (end: usize)
    requires
        pos <= data@.len(),
    ensures
        pos + first_line_len(data@.skip(pos as int)) == end,
        pos <= end <= data@.len(),
        pos < data@.len() ==> pos < end,
{
    proof {
        lemma_find_byte(data@.skip(pos as int), 10);
    }
    let lf = find_byte_from(data, 10, pos);
    if lf < data.len() {
        lf + 1
    } else {
        lf
    }
}

/// Split the received bytes into header lines and the body's start
/// position; `None` when the stream closed before the terminator.
pub fn split_header_lines(data: &Vec<u8>) -> (r: Option<(Vec<Vec<u8>>, usize)>)
    ensures
        r matches Some(p) ==> {
            &&& split_headers(data@) == Some((views_of(p.0@), data@.skip(p.1 as int)))
            &&& p.1 <= data@.len()
        },
        r is None ==> split_headers(data@) is None,
{
    let mut lines: Vec<Vec<u8>> = Vec::new();
    let mut pos: usize = 0;
    proof {
        assert(data@.skip(0) =~= data@);
        assert(views_of(lines@) =~= Seq::<Seq<u8>>::empty());
        match split_headers(data@) {
            None => {},
            Some(p) => {
                assert(Seq::<Seq<u8>>::empty() + p.0 =~= p.0);
            },
        }
    }
    loop
        invariant
            pos <= data@.len(),
            glue_headers(views_of(lines@), split_headers(data@.skip(pos as int))) == split_headers(
                data@,
            ),
        decreases data@.len() - pos,
    {
        if pos == data.len() {
            proof {
                assert(data@.skip(pos as int) =~= Seq::<u8>::empty());
            }
            return None;
        }
        let ghost tail = data@.skip(pos as int);
        let end = next_line_end(data, pos);
        let line = subvec(data, pos, end);
        proof {
            assert(first_line(tail) =~= data@.subrange(pos as int, end as int));
            assert(after_line(tail) =~= data@.skip(end as int));
        }
        let is_terminator = line.len() == 2 && {
            let b0 = line[0];
            let b1 = line[1];
            b0 == 13 && b1 == 10
        };
        if is_terminator {
            proof {
                assert(line@ =~= crlf());
                assert(split_headers(tail) == Some((Seq::<Seq<u8>>::empty(), data@.skip(
                    end as int,
                ))));
                assert(views_of(lines@) + Seq::<Seq<u8>>::empty() =~= views_of(lines@));
            }
            return Some((lines, end));
        }
        proof {
            assert(line@ != crlf()) by {
                if line@ == crlf() {
                    assert(line@.len() == 2);
                    assert(line@[0] == 13 && line@[1] == 10);
                }
            }
        }
        let ghost old_lines = lines@;
        lines.push(line);
        proof {
            assert(views_of(lines@) =~= views_of(old_lines).push(first_line(tail)));
            let cont = split_headers(data@.skip(end as int));
            assert(split_headers(tail) == glue_headers(seq![first_line(tail)], cont));
            match cont {
                None => {
                    assert(glue_headers(views_of(lines@), cont) == split_headers(data@));
                },
                Some(p) => {
                    assert(views_of(old_lines) + (seq![first_line(tail)] + p.0) =~= views_of(
                        lines@,
                    ) + p.0);
                    assert(glue_headers(views_of(lines@), cont) == split_headers(data@));
                },
            }
        }
        pos = end;
    }
}

// ---------------------------------------------------------------------------
// Status line
// ---------------------------------------------------------------------------

/// The length of the leading whitespace-free token of `s`.
pub open spec fn tok_len(s: Seq<u8>) -> nat
    decreases s.len(),
{
    if s.len() == 0 {
        0
    } else if is_ws(s[0]) {
        0
    } else {
        1 + tok_len(s.drop_first())
    }
}

pub proof fn lemma_tok_len(s: Seq<u8>)
    ensures
        tok_len(s) <= s.len(),
        tok_len(s) < s.len() ==> is_ws(s[tok_len(s) as int]),
        forall|i: int| 0 <= i < tok_len(s) ==> !is_ws(s[i]),
    decreases s.len(),
{
    if s.len() > 0 && !is_ws(s[0]) {
        lemma_tok_len(s.drop_first());
        assert forall|i: int| 0 <= i < tok_len(s) implies !is_ws(s[i]) by {
            if i > 0 {
                assert(s.drop_first()[i - 1] == s[i]);
            }
        }
    }
}

/// Pin `tok_len` from a scan: no whitespace before `k`, whitespace (or
/// the end) at `k`.
pub proof fn lemma_tok_len_is(s: Seq<u8>, k: int)
    requires
        0 <= k <= s.len(),
        forall|i: int| 0 <= i < k ==> !is_ws(s[i]),
        k < s.len() ==> is_ws(s[k]),
    ensures
        tok_len(s) == k,
{
    lemma_tok_len(s);
    if tok_len(s) < k {
        assert(is_ws(s[tok_len(s) as int]));
    }
    if tok_len(s) > k {
        assert(!is_ws(s[k]));
    }
}

/// The second whitespace-separated token of `s`, if `s` has two.
pub open spec fn second_token(s: Seq<u8>) -> Option<Seq<u8>> {
    let a = trim_front(s);
    let t1 = a.take(tok_len(a) as int);
    let b = trim_front(a.skip(tok_len(a) as int));
    let t2 = b.take(tok_len(b) as int);
    if t1.len() == 0 {
        None
    } else if t2.len() == 0 {
        None
    } else {
        Some(t2)
    }
}

/// What the status line yields: the numeric code of its second token.
/// Fewer than two tokens is a malformed line; a second token that is
/// not a number a `u16` can hold is a bad status code.
pub open spec fn parse_status_line(line: Seq<u8>) -> Result<u16, DecodeError> {
    match second_token(line) {
        None => Err(DecodeError::MalformedStatusLine),
        Some(t) => match parse_dec(t) {
            None => Err(DecodeError::BadStatusCode),
            Some(v) => if v <= 65535 {
                Ok(v as u16)
            } else {
                Err(DecodeError::BadStatusCode)
            },
        },
    }
}

/// Scan past whitespace from `pos`.
fn scan_ws(line: &Vec<u8>, pos: usize) -> (r: usize)
    requires
        pos <= line@.len(),
    ensures
        pos <= r <= line@.len(),
        trim_front(line@.skip(pos as int)) == line@.skip(r as int),
        r < line@.len() ==> !is_ws(line@[r as int]),
        forall|i: int| pos <= i < r ==> is_ws(line@[i]),
{
    let mut i: usize = pos;
    while i < line.len() && is_ws_exec(line[i])
        invariant
            pos <= i <= line@.len(),
            forall|j: int| pos <= j < i ==> is_ws(line@[j]),
        decreases line@.len() - i,
    {
        i = i + 1;
    }
    proof {
        let tail = line@.skip(pos as int);
        lemma_trim_front_skip(tail, i - pos);
        assert(tail.skip(i - pos) =~= line@.skip(i as int));
    }
    i
}

/// Scan a whitespace-free token from `pos`.
fn scan_token(line: &Vec<u8>, pos: usize) -> (r: usize)
    requires
        pos <= line@.len(),
    ensures
        pos <= r <= line@.len(),
        tok_len(line@.skip(pos as int)) == r - pos,
        forall|i: int| pos <= i < r ==> !is_ws(line@[i]),
{
    let mut i: usize = pos;
    while i < line.len() && !is_ws_exec(line[i])
        invariant
            pos <= i <= line@.len(),
            forall|j: int| pos <= j < i ==> !is_ws(line@[j]),
        decreases line@.len() - i,
    {
        i = i + 1;
    }
    proof {
        let tail = line@.skip(pos as int);
        lemma_tok_len_is(tail, i - pos);
    }
    i
}

/// Parse the status code out of a status line.
pub fn parse_status_code(line: &Vec<u8>) -> (r: Result<u16, DecodeError>)
    ensures
        r == parse_status_line(line@),
{
    proof {
        assert(line@.skip(0) =~= line@);
    }
    let i0 = scan_ws(line, 0);
    let i1 = scan_token(line, i0);
    proof {
        let a = trim_front(line@);
        assert(a == line@.skip(i0 as int));
        assert(a.take(tok_len(a) as int) =~= line@.subrange(i0 as int, i1 as int));
        assert(a.skip(tok_len(a) as int) =~= line@.skip(i1 as int));
    }
    if i1 == i0 {
        return Err(DecodeError::MalformedStatusLine);
    }
    let i2 = scan_ws(line, i1);
    let i3 = scan_token(line, i2);
    proof {
        let a = trim_front(line@);
        let b = trim_front(a.skip(tok_len(a) as int));
        assert(b == line@.skip(i2 as int));
        assert(b.take(tok_len(b) as int) =~= line@.subrange(i2 as int, i3 as int));
    }
    if i3 == i2 {
        return Err(DecodeError::MalformedStatusLine);
    }
    let tok = subvec(line, i2, i3);
    match parse_dec_u64(&tok) {
        None => Err(DecodeError::BadStatusCode),
        Some(v) => {
            if v <= 65535 {
                Ok(v as u16)
            } else {
                Err(DecodeError::BadStatusCode)
            }
        },
    }
}

// ---------------------------------------------------------------------------
// Headers
// ---------------------------------------------------------------------------

/// Split a header line at its first colon into a trimmed key and a
/// trimmed value; `None` if the line has no colon.
pub open spec fn header_kv(line: Seq<u8>) -> Option<(Seq<u8>, Seq<u8>)> {
    let c = find_byte(line, 58);
    if c == line.len() {
        None
    } else {
        Some((trimmed(line.take(c as int)), trimmed(line.skip(c + 1int))))
    }
}

pub open spec fn content_length_key() -> Seq<u8> {
    ascii_seq("content-length"@)
}

pub open spec fn transfer_encoding_key() -> Seq<u8> {
    ascii_seq("transfer-encoding"@)
}

pub open spec fn chunked_marker() -> Seq<u8> {
    ascii_seq("chunked"@)
}

/// A header line carrying a usable `Content-Length`: the key matches
/// case-insensitively and the value parses as a number.
pub open spec fn is_content_length_header(line: Seq<u8>) -> bool {
    &&& header_kv(line) matches Some(kv)
    &&& eq_ci(header_kv(line).unwrap().0, content_length_key())
    &&& parse_dec(header_kv(line).unwrap().1) is Some
}

/// The first usable `Content-Length` among the header lines.
pub open spec fn content_length_of(lines: Seq<Seq<u8>>) -> Option<u64>
    decreases lines.len(),
{
    if lines.len() == 0 {
        None
    } else if is_content_length_header(lines[0]) {
        parse_dec(header_kv(lines[0]).unwrap().1)
    } else {
        content_length_of(lines.drop_first())
    }
}

/// A `Transfer-Encoding` header whose value mentions `chunked`.
pub open spec fn is_chunked_header(line: Seq<u8>) -> bool {
    &&& header_kv(line) matches Some(kv)
    &&& eq_ci(header_kv(line).unwrap().0, transfer_encoding_key())
    &&& contains_seq(header_kv(line).unwrap().1, chunked_marker())
}

/// Whether any header line declares chunked transfer encoding.
pub open spec fn has_chunked(lines: Seq<Seq<u8>>) -> bool {
    exists|i: int| 0 <= i < lines.len() && is_chunked_header(#[trigger] lines[i])
}

/// The body framing the header lines call for.  A chunked indication
/// takes precedence over any `Content-Length`; neither means the body
/// runs until the stream closes.
pub open spec fn transfer_encoding_of(lines: Seq<Seq<u8>>) -> TransferEncoding {
    if has_chunked(lines) {
        TransferEncoding::Chunked
    } else {
        match content_length_of(lines) {
            Some(n) => TransferEncoding::IdentityLength(n),
            None => TransferEncoding::ReadUntilClose,
        }
    }
}

/// Resolve the transfer encoding from the header lines after the
/// status line (`lines[from..]`).
pub fn resolve_transfer_encoding(lines: &Vec<Vec<u8>>, from: usize) -> (r: TransferEncoding)
    requires
        from <= lines@.len(),
    ensures
        r == transfer_encoding_of(views_of(lines@).skip(from as int)),
{
    let cl_key = ascii_bytes_of_content_length_key();
    let te_key = ascii_bytes_of_transfer_encoding_key();
    let marker = ascii_bytes_of_chunked_marker();
    let ghost all = views_of(lines@).skip(from as int);
    let mut i: usize = from;
    let mut chunked = false;
    let mut content_length: Option<u64> = None;
    while i < lines.len()
        invariant
            from <= i <= lines@.len(),
            cl_key@ == content_length_key(),
            te_key@ == transfer_encoding_key(),
            marker@ == chunked_marker(),
            all == views_of(lines@).skip(from as int),
            chunked == has_chunked(views_of(lines@).subrange(from as int, i as int)),
            content_length_of(all) == (match content_length {
                Some(n) => Some(n),
                None => content_length_of(views_of(lines@).skip(i as int)),
            }),
        decreases lines@.len() - i,
    {
        let line = &lines[i];
        let ghost line_s = views_of(lines@)[i as int];
        proof {
            assert(line_s == line@);
        }
        let c = find_byte_from(line, 58, 0);
        proof {
            lemma_find_byte(line@, 58);
            assert(line@.skip(0) =~= line@);
            assert(c == find_byte(line@, 58));
        }
        if c < line.len() {
            let key = trimmed_vec(&subvec(line, 0, c));
            let val = trimmed_vec(&subvec(line, c + 1, line.len()));
            proof {
                assert(line@.subrange(0, c as int) =~= line@.take(c as int));
                assert(line@.subrange(c + 1, line@.len() as int) =~= line@.skip(c + 1));
                assert(header_kv(line@) == Some((key@, val@)));
            }
            if !chunked && eq_ignore_case(&key, &te_key) && contains_bytes(&val, &marker) {
                chunked = true;
            }
            if matches!(content_length, None) {
                if eq_ignore_case(&key, &cl_key) {
                    match parse_dec_u64(&val) {
                        Some(n) => {
                            content_length = Some(n);
                        },
                        None => {},
                    }
                }
            }
        }
        proof {
            // Content-length: unfold one step of the recursion.
            let rest_i = views_of(lines@).skip(i as int);
            assert(rest_i[0] == line@);
            assert(rest_i.drop_first() =~= views_of(lines@).skip(i + 1));
            // Chunked: extend the scanned prefix by one line.
            let pre = views_of(lines@).subrange(from as int, i as int);
            let pre1 = views_of(lines@).subrange(from as int, i + 1);
            assert(pre1.drop_last() =~= pre);
            assert(pre1.last() == line@);
            if has_chunked(pre) {
                let w = choose|k: int| 0 <= k < pre.len() && is_chunked_header(#[trigger] pre[k]);
                assert(pre1[w] == pre[w]);
                assert(has_chunked(pre1));
            }
            if is_chunked_header(line@) {
                assert(pre1[pre1.len() - 1] == line@);
                assert(has_chunked(pre1));
            }
            if has_chunked(pre1) && !has_chunked(pre) && !is_chunked_header(line@) {
                let w = choose|k: int|
                    0 <= k < pre1.len() && is_chunked_header(#[trigger] pre1[k]);
                if w < pre.len() {
                    assert(pre[w] == pre1[w]);
                }
            }
        }
        i = i + 1;
    }
    proof {
        assert(views_of(lines@).subrange(from as int, i as int) =~= all);
        assert(views_of(lines@).skip(i as int) =~= Seq::<Seq<u8>>::empty());
    }
    if chunked {
        TransferEncoding::Chunked
    } else {
        match content_length {
            Some(n) => TransferEncoding::IdentityLength(n),
            None => TransferEncoding::ReadUntilClose,
        }
    }
}

/// The bytes of the `content-length` key.
fn ascii_bytes_of_content_length_key() -> (r: Vec<u8>)
    ensures
        r@ == content_length_key(),
{
    proof {
        reveal_strlit("content-length");
    }
    ascii_bytes("content-length")
}

/// The bytes of the `transfer-encoding` key.
fn ascii_bytes_of_transfer_encoding_key() -> (r: Vec<u8>)
    ensures
        r@ == transfer_encoding_key(),
{
    proof {
        reveal_strlit("transfer-encoding");
    }
    ascii_bytes("transfer-encoding")
}

/// The bytes of the `chunked` marker.
fn ascii_bytes_of_chunked_marker() -> (r: Vec<u8>)
    ensures
        r@ == chunked_marker(),
{
    proof {
        reveal_strlit("chunked");
    }
    ascii_bytes("chunked")
}

// ---------------------------------------------------------------------------
// Bodies
// ---------------------------------------------------------------------------

/// Decode a chunked body from `data`: repeat — read a hex size line
/// (skipping blank lines), stop at size zero (discarding its trailing
/// line), otherwise take that many bytes and the line break after them.
/// Running out of data is fatal, as is an unparsable size line.
pub open spec fn chunked_body(data: Seq<u8>) -> Result<Seq<u8>, DecodeError>
    decreases data.len(),
{
    if data.len() == 0 {
        Err(DecodeError::ShortChunk)
    } else {
        let line = first_line(data);
        let rest = after_line(data);
        let t = trimmed(line);
        if t.len() == 0 {
            chunked_body(rest)
        } else {
            match parse_hex(t) {
                None => Err(DecodeError::BadChunkSize),
                Some(n) => if n == 0 {
                    Ok(Seq::empty())
                } else if rest.len() < n {
                    Err(DecodeError::ShortChunk)
                } else {
                    match chunked_body(after_line(rest.skip(n as int))) {
                        Err(e) => Err(e),
                        Ok(more) => Ok(rest.take(n as int) + more),
                    }
                },
            }
        }
    }
}

/// A chunk prefix already decoded, prepended to what the rest yields.
pub open spec fn glue_chunks(
    pre: Seq<u8>,
    r: Result<Seq<u8>, DecodeError>,
) -> Result<Seq<u8>, DecodeError> {
    match r {
        Err(e) => Err(e),
        Ok(b) => Ok(pre + b),
    }
}

/// Trimming never grows a sequence.
proof fn lemma_trimmed_len(s: Seq<u8>)
    ensures
        trimmed(s).len() <= s.len(),
{
    lemma_trim_front_le(s);
    lemma_trim_back_le(trim_front(s));
}

proof fn lemma_trim_front_le(s: Seq<u8>)
    ensures
        trim_front(s).len() <= s.len(),
    decreases s.len(),
{
    if s.len() > 0 && is_ws(s[0]) {
        lemma_trim_front_le(s.drop_first());
    }
}

proof fn lemma_trim_back_le(s: Seq<u8>)
    ensures
        trim_back(s).len() <= s.len(),
    decreases s.len(),
{
    if s.len() > 0 && is_ws(s.last()) {
        lemma_trim_back_le(s.drop_last());
    }
}

/// Decode the chunked body that starts at `start`.
pub fn decode_chunked(data: &Vec<u8>, start: usize) -> (r: Result<Vec<u8>, DecodeError>)
    requires
        start <= data@.len(),
    ensures
        r matches Ok(b) ==> chunked_body(data@.skip(start as int)) == Ok::<Seq<u8>, DecodeError>(
            b@,
        ),
        r matches Err(e) ==> chunked_body(data@.skip(start as int)) == Err::<Seq<u8>, DecodeError>(
            e,
        ),
{
    let mut acc: Vec<u8> = Vec::new();
    let mut pos: usize = start;
    proof {
        assert(Seq::<u8>::empty() + chunked_body(data@.skip(start as int)) ->Ok_0 =~= chunked_body(
            data@.skip(start as int),
        ) ->Ok_0);
    }
    loop
        invariant
            start <= pos <= data@.len(),
            glue_chunks(acc@, chunked_body(data@.skip(pos as int))) == chunked_body(
                data@.skip(start as int),
            ),
        decreases data@.len() - pos,
    {
        if pos == data.len() {
            proof {
                assert(data@.skip(pos as int) =~= Seq::<u8>::empty());
            }
            return Err(DecodeError::ShortChunk);
        }
        let ghost tail = data@.skip(pos as int);
        let end = next_line_end(data, pos);
        let line = subvec(data, pos, end);
        proof {
            assert(first_line(tail) =~= data@.subrange(pos as int, end as int));
            assert(after_line(tail) =~= data@.skip(end as int));
        }
        let t = trimmed_vec(&line);
        if t.len() == 0 {
            pos = end;
            continue ;
        }
        match parse_hex_u64(&t) {
            None => {
                return Err(DecodeError::BadChunkSize);
            },
            Some(n) => {
                if n == 0 {
                    proof {
                        assert(chunked_body(tail) == Ok::<Seq<u8>, DecodeError>(Seq::empty()));
                        assert(acc@ + Seq::<u8>::empty() =~= acc@);
                    }
                    return Ok(acc);
                }
                let avail = data.len() - end;
                if (avail as u64) < n {
                    proof {
                        assert(after_line(tail).len() < n);
                    }
                    return Err(DecodeError::ShortChunk);
                }
                let nn = n as usize;
                proof {
                    assert(nn == n);
                }
                let mut chunk = subvec(data, end, end + nn);
                let ghost old_acc = acc@;
                acc.append(&mut chunk);
                let next = next_line_end(data, end + nn);
                proof {
                    let rest = after_line(tail);
                    assert(rest.take(n as int) =~= data@.subrange(end as int, end + nn));
                    assert(rest.skip(n as int) =~= data@.skip((end + nn) as int));
                    assert(after_line(rest.skip(n as int)) =~= data@.skip(next as int));
                    assert(acc@ =~= old_acc + rest.take(n as int));
                    match chunked_body(data@.skip(next as int)) {
                        Err(e) => {},
                        Ok(more) => {
                            assert(old_acc + (rest.take(n as int) + more) =~= acc@ + more);
                        },
                    }
                }
                pos = next;
            },
        }
    }
}

// ---------------------------------------------------------------------------
// Whole responses
// ---------------------------------------------------------------------------

/// The body the message carries, given its header lines (after the
/// status line) and the bytes that follow the header terminator.
pub open spec fn body_of(headers: Seq<Seq<u8>>, rest: Seq<u8>) -> Result<Seq<u8>, DecodeError> {
    match transfer_encoding_of(headers) {
        TransferEncoding::Chunked => chunked_body(rest),
        TransferEncoding::IdentityLength(n) => if rest.len() >= n {
            Ok(rest.take(n as int))
        } else {
            Err(DecodeError::ShortBody)
        },
        TransferEncoding::ReadUntilClose => Ok(rest),
    }
}

/// What a received byte stream decodes to: the status code and the raw
/// body bytes, or the exact error decoding stops with.
pub open spec fn response_of(data: Seq<u8>) -> Result<(u16, Seq<u8>), DecodeError> {
    match split_headers(data) {
        None => Err(DecodeError::UnexpectedClose),
        Some(p) => {
            if p.0.len() == 0 {
                Err(DecodeError::EmptyResponse)
            } else {
                match parse_status_line(p.0[0]) {
                    Err(e) => Err(e),
                    Ok(code) => match body_of(p.0.skip(1), p.1) {
                        Err(e) => Err(e),
                        Ok(body) => Ok((code, body)),
                    },
                }
            }
        },
    }
}

/// Decode a response from the bytes the transport delivered before it
/// closed.  Agrees with `response_of` exactly, error for error.
pub fn decode_response(data: &Vec<u8>) -> (r: Result<RawResponse, DecodeError>)
    ensures
        r matches Ok(resp) ==> response_of(data@) == Ok::<(u16, Seq<u8>), DecodeError>(
            (resp.status_code, resp.body@),
        ),
        r matches Err(e) ==> response_of(data@) == Err::<(u16, Seq<u8>), DecodeError>(e),
{
    let split = split_header_lines(data);
    match split {
        None => Err(DecodeError::UnexpectedClose),
        Some((lines, body_start)) => {
            if lines.len() == 0 {
                return Err(DecodeError::EmptyResponse);
            }
            proof {
                assert(views_of(lines@)[0] == lines@[0]@);
            }
            let code = match parse_status_code(&lines[0]) {
                Err(e) => {
                    return Err(e);
                },
                Ok(c) => c,
            };
            let ghost headers = views_of(lines@).skip(1);
            let ghost rest = data@.skip(body_start as int);
            let enc = resolve_transfer_encoding(&lines, 1);
            match enc {
                TransferEncoding::Chunked => {
                    match decode_chunked(data, body_start) {
                        Err(e) => Err(e),
                        Ok(body) => Ok(RawResponse { status_code: code, body }),
                    }
                },
                TransferEncoding::IdentityLength(n) => {
                    let avail = data.len() - body_start;
                    if (avail as u64) < n {
                        proof {
                            assert(rest.len() < n);
                        }
                        return Err(DecodeError::ShortBody);
                    }
                    let nn = n as usize;
                    let body = subvec(data, body_start, body_start + nn);
                    proof {
                        assert(body@ =~= rest.take(n as int));
                    }
                    Ok(RawResponse { status_code: code, body })
                },
                TransferEncoding::ReadUntilClose => {
                    let body = subvec(data, body_start, data.len());
                    proof {
                        assert(body@ =~= rest);
                    }
                    Ok(RawResponse { status_code: code, body })
                },
            }
        },
    }
}

// ---------------------------------------------------------------------------
// Request encoding
// ---------------------------------------------------------------------------

/// No line feed anywhere in `s`: it stays on one line.
pub open spec fn no_lf(s: Seq<u8>) -> bool {
    forall|i: int| 0 <= i < s.len() ==> s[i] != 10
}

/// The request line and the fixed headers every request carries.
pub open spec fn request_head(method: Seq<u8>, path: Seq<u8>) -> Seq<u8> {
    method + ascii_seq(" "@) + path + ascii_seq(" HTTP/1.1\r\n"@) + ascii_seq(
        "Host: localhost\r\n"@,
    ) + ascii_seq("Connection: close\r\n"@)
}

/// The encoded request: the request line, `Host` and `Connection: close`,
/// then either the bare terminator, or the content headers with the
/// body's exact byte length followed by the body.
pub open spec fn encoded_request(method: Seq<u8>, path: Seq<u8>, body: Option<Seq<u8>>) -> Seq<
    u8,
> {
    match body {
        None => request_head(method, path) + crlf(),
        Some(b) => request_head(method, path) + ascii_seq("Content-Type: application/json\r\n"@)
            + ascii_seq("Content-Length: "@) + dec_digits(b.len()) + crlf() + crlf() + b,
    }
}

/// Append the bytes of an ASCII string slice.
fn push_ascii(v: &mut Vec<u8>, s: &str)
    requires
        vstd::string::is_ascii(s),
    ensures
        final(v)@ == old(v)@ + ascii_seq(s@),
{
    let mut b = ascii_bytes(s);
    v.append(&mut b);
}

/// Encode a request for the wire.
pub fn encode_request(method: &str, path: &str, body: Option<&str>) -> (r: Vec<u8>)
    ensures
        r@ == encoded_request(
            method.spec_bytes(),
            path.spec_bytes(),
            match body {
                Some(b) => Some(b.spec_bytes()),
                None => None,
            },
        ),
{
    proof {
        reveal_strlit(" ");
        reveal_strlit(" HTTP/1.1\r\n");
        reveal_strlit("Host: localhost\r\n");
        reveal_strlit("Connection: close\r\n");
        reveal_strlit("Content-Type: application/json\r\n");
        reveal_strlit("Content-Length: ");
        reveal_strlit("\r\n");
        reveal_strlit("\r\n\r\n");
    }
    let mut v = method.as_bytes_vec();
    push_ascii(&mut v, " ");
    let mut pb = path.as_bytes_vec();
    v.append(&mut pb);
    push_ascii(&mut v, " HTTP/1.1\r\n");
    push_ascii(&mut v, "Host: localhost\r\n");
    push_ascii(&mut v, "Connection: close\r\n");
    match body {
        None => {
            push_ascii(&mut v, "\r\n");
            proof {
                assert(ascii_seq("\r\n"@) =~= crlf());
                assert(v@ =~= encoded_request(method.spec_bytes(), path.spec_bytes(), None));
            }
        },
        Some(bs) => {
            push_ascii(&mut v, "Content-Type: application/json\r\n");
            push_ascii(&mut v, "Content-Length: ");
            let mut bb = bs.as_bytes_vec();
            let len64 = bb.len() as u64;
            let mut digits = u64_to_dec(len64);
            proof {
                assert(digits@ == dec_digits(bs.spec_bytes().len()));
            }
            v.append(&mut digits);
            push_ascii(&mut v, "\r\n\r\n");
            v.append(&mut bb);
            proof {
                assert(ascii_seq("\r\n\r\n"@) =~= crlf() + crlf());
                assert(v@ =~= encoded_request(
                    method.spec_bytes(),
                    path.spec_bytes(),
                    Some(bs.spec_bytes()),
                ));
            }
        },
    }
    v
}

// ---------------------------------------------------------------------------
// Laws of the wire format
// ---------------------------------------------------------------------------

/// Law: an encoded request without a body has exactly the three fixed
/// header lines — none of them a `Content-Length` header, none a chunked
/// marker — and the empty line stands immediately after
/// `Connection: close`, with nothing following it.
pub proof fn lemma_bodiless_request_headers(method: Seq<u8>, path: Seq<u8>)
    requires
        no_lf(method),
        no_lf(path),
    ensures
        ({
            let enc = encoded_request(method, path, None);
            let line1 = method + ascii_seq(" "@) + path + ascii_seq(" HTTP/1.1\r\n"@);
            let host = ascii_seq("Host: localhost\r\n"@);
            let conn = ascii_seq("Connection: close\r\n"@);
            &&& enc == line1 + host + conn + crlf()
            &&& split_headers(enc) == Some((seq![line1, host, conn], Seq::<u8>::empty()))
            &&& content_length_of(seq![host, conn]) is None
            &&& !has_chunked(seq![host, conn])
            &&& transfer_encoding_of(seq![host, conn]) is ReadUntilClose
        }),
{
    reveal_strlit(" ");
    reveal_strlit(" HTTP/1.1\r\n");
    reveal_strlit("Host: localhost\r\n");
    reveal_strlit("Connection: close\r\n");
    reveal_strlit("content-length");
    reveal_strlit("transfer-encoding");
    let sp = ascii_seq(" "@);
    let t1 = ascii_seq(" HTTP/1.1\r\n"@);
    let host = ascii_seq("Host: localhost\r\n"@);
    let conn = ascii_seq("Connection: close\r\n"@);
    let line1 = method + sp + path + t1;
    let enc = encoded_request(method, path, None);
    assert(enc =~= line1 + (host + (conn + crlf())));
    // The request line is one whole line.
    assert(t1.len() == 11 && t1[10] == 10);
    assert(forall|i: int| 0 <= i < 10 ==> t1[i] != 10);
    assert(line1.last() == 10);
    assert forall|i: int| 0 <= i < line1.len() - 1 implies line1[i] != 10 by {
        if i < method.len() {
            assert(line1[i] == method[i]);
        } else if i < method.len() + 1 {
            assert(line1[i] == sp[i - method.len()]);
        } else if i < method.len() + 1 + path.len() {
            assert(line1[i] == path[i - method.len() - 1]);
        } else {
            assert(line1[i] == t1[i - method.len() - 1 - path.len()]);
        }
    }
    lemma_first_line_of(line1, host + (conn + crlf()));
    assert(line1.len() >= 11);
    assert(line1 != crlf());
    // The two fixed header lines are each one whole line.
    assert(host.len() == 17 && host[16] == 10);
    assert(forall|i: int| 0 <= i < 16 ==> host[i] != 10);
    lemma_first_line_of(host, conn + crlf());
    assert(host != crlf());
    assert(conn.len() == 19 && conn[18] == 10);
    assert(forall|i: int| 0 <= i < 18 ==> conn[i] != 10);
    lemma_first_line_of(conn, crlf());
    assert(conn != crlf());
    // The terminator line ends the header section with nothing after it.
    assert(crlf()[0] == 13 && crlf()[1] == 10);
    lemma_find_byte_at(crlf(), 10, 1);
    assert(first_line(crlf()) =~= crlf());
    assert(after_line(crlf()) =~= Seq::<u8>::empty());
    assert(split_headers(crlf()) == Some((Seq::<Seq<u8>>::empty(), Seq::<u8>::empty())));
    assert(seq![conn] + Seq::<Seq<u8>>::empty() =~= seq![conn]);
    assert(split_headers(conn + crlf()) == Some((seq![conn], Seq::<u8>::empty())));
    assert(seq![host] + seq![conn] =~= seq![host, conn]);
    assert(split_headers(host + (conn + crlf())) == Some((seq![host, conn], Seq::<u8>::empty())));
    assert(seq![line1] + seq![host, conn] =~= seq![line1, host, conn]);
    assert(split_headers(enc) == Some((seq![line1, host, conn], Seq::<u8>::empty())));
    // Neither fixed header is a content-length or chunked header.
    assert(content_length_key().len() == 14);
    assert(transfer_encoding_key().len() == 17);
    assert(host[4] == 58);
    assert(forall|i: int| 0 <= i < 4 ==> host[i] != 58);
    lemma_find_byte_at(host, 58, 4);
    lemma_trimmed_len(host.take(4));
    let host_key = trimmed(host.take(4));
    assert(lower_seq(host_key).len() != lower_seq(content_length_key()).len());
    assert(lower_seq(host_key).len() != lower_seq(transfer_encoding_key()).len());
    assert(conn[10] == 58);
    assert(forall|i: int| 0 <= i < 10 ==> conn[i] != 58);
    lemma_find_byte_at(conn, 58, 10);
    lemma_trimmed_len(conn.take(10));
    let conn_key = trimmed(conn.take(10));
    assert(lower_seq(conn_key).len() != lower_seq(content_length_key()).len());
    assert(lower_seq(conn_key).len() != lower_seq(transfer_encoding_key()).len());
    assert(!is_content_length_header(host));
    assert(!is_content_length_header(conn));
    assert(seq![host, conn].drop_first() =~= seq![conn]);
    assert(seq![conn].drop_first() =~= Seq::<Seq<u8>>::empty());
    assert(content_length_of(Seq::<Seq<u8>>::empty()) is None);
    assert(seq![conn][0] == conn);
    assert(content_length_of(seq![conn]) is None);
    assert(seq![host, conn][0] == host);
    assert(content_length_of(seq![host, conn]) is None);
    let fixed = seq![host, conn];
    assert forall|i: int| 0 <= i < fixed.len() implies !is_chunked_header(#[trigger] fixed[i]) by {
        if i == 0 {
            assert(fixed[i] == host);
        } else {
            assert(fixed[i] == conn);
        }
    }
    assert(!has_chunked(fixed));
}

/// The identity-length framing of a body: a success status line, the
/// body's exact `Content-Length`, the header terminator, then the body.
pub open spec fn identity_encoded(b: Seq<u8>) -> Seq<u8> {
    ascii_seq("HTTP/1.1 200 OK\r\n"@) + ascii_seq("Content-Length: "@) + dec_digits(b.len())
        + crlf() + crlf() + b
}

/// Law: decoding the identity-length framing of any body yields exactly
/// that body (and the status code written in the frame).
#[verifier::rlimit(100)]
pub proof fn lemma_identity_round_trip(b: Seq<u8>)
    requires
        b.len() <= u64::MAX,
    ensures
        response_of(identity_encoded(b)) == Ok::<(u16, Seq<u8>), DecodeError>((200u16, b)),
{
    reveal_strlit("HTTP/1.1 200 OK\r\n");
    reveal_strlit("Content-Length: ");
    reveal_strlit("content-length");
    reveal_strlit("transfer-encoding");
    let l1 = ascii_seq("HTTP/1.1 200 OK\r\n"@);
    let clp = ascii_seq("Content-Length: "@);
    let digits = dec_digits(b.len());
    lemma_dec_digits(b.len());
    lemma_digits_not_ws(digits);
    let l2 = clp + digits + crlf();
    let enc = identity_encoded(b);
    assert(enc =~= l1 + (l2 + (crlf() + b)));
    // Lines.
    assert(l1.len() == 17 && l1[16] == 10);
    assert(forall|i: int| 0 <= i < 16 ==> l1[i] != 10);
    lemma_first_line_of(l1, l2 + (crlf() + b));
    assert(l1 != crlf());
    assert(l2.last() == 10);
    assert forall|i: int| 0 <= i < l2.len() - 1 implies l2[i] != 10 by {
        if i < 16 {
            assert(l2[i] == clp[i]);
        } else if i < 16 + digits.len() {
            assert(l2[i] == digits[i - 16]);
        } else {
            assert(l2[i] == crlf()[i - 16 - digits.len()]);
            assert(i - 16 - digits.len() == 0);
        }
    }
    lemma_first_line_of(l2, crlf() + b);
    assert(l2.len() >= 17);
    assert(l2 != crlf());
    assert(crlf()[0] == 13 && crlf()[1] == 10);
    lemma_find_byte_at(crlf() + b, 10, 1);
    assert(first_line(crlf() + b) =~= crlf());
    assert(after_line(crlf() + b) =~= b);
    assert(split_headers(crlf() + b) == Some((Seq::<Seq<u8>>::empty(), b)));
    assert(seq![l2] + Seq::<Seq<u8>>::empty() =~= seq![l2]);
    assert(split_headers(l2 + (crlf() + b)) == Some((seq![l2], b)));
    assert(seq![l1] + seq![l2] =~= seq![l1, l2]);
    assert(split_headers(enc) == Some((seq![l1, l2], b)));
    // Status line: second token is 200.
    lemma_trim_front_skip(l1, 0);
    lemma_tok_len_is(l1, 8);
    let a1 = l1.skip(8);
    lemma_trim_front_skip(a1, 1);
    assert(a1.skip(1) =~= l1.skip(9));
    let b1 = l1.skip(9);
    assert(is_ws(b1[3]));
    lemma_tok_len_is(b1, 3);
    let tok = b1.take(3);
    assert(tok =~= seq![50u8, 48u8, 48u8]);
    assert(l1.take(tok_len(l1) as int).len() == 8);
    assert(second_token(l1) == Some(tok));
    assert(tok.drop_last() =~= seq![50u8, 48u8]);
    assert(seq![50u8, 48u8].drop_last() =~= seq![50u8]);
    assert(seq![50u8].drop_last() =~= Seq::<u8>::empty());
    assert(dec_val(Seq::<u8>::empty()) == 0);
    assert(dec_val(seq![50u8]) == 2);
    assert(dec_val(seq![50u8, 48u8]) == 20);
    assert(dec_val(tok) == 200);
    assert(all_digits(tok));
    assert(parse_dec(tok) == Some(200u64));
    assert(parse_status_line(l1) == Ok::<u16, DecodeError>(200u16));
    // The content-length header.
    assert(clp[14] == 58);
    assert forall|i: int| 0 <= i < 14 implies l2[i] != 58 by {
        assert(l2[i] == clp[i]);
    }
    assert(l2[14] == 58);
    lemma_find_byte_at(l2, 58, 14);
    let key = l2.take(14);
    assert(key =~= clp.take(14));
    assert(!is_ws(key[0]) && !is_ws(key[13]));
    lemma_trimmed_id(key);
    assert(eq_ci(trimmed(key), content_length_key())) by {
        assert(lower_seq(trimmed(key)) =~= lower_seq(content_length_key()));
    }
    let val = l2.skip(15);
    assert(val =~= seq![32u8] + digits + crlf());
    assert(is_ws(val[0]) && !is_ws(val[1]));
    lemma_trim_front_skip(val, 1);
    let val1 = val.skip(1);
    assert(val1 =~= digits + crlf());
    assert forall|i: int| digits.len() <= i < val1.len() implies is_ws(val1[i]) by {
        assert(val1[i] == crlf()[i - digits.len()]);
    }
    assert(!is_ws(val1[digits.len() - 1]));
    lemma_trim_back_take(val1, digits.len() as int);
    assert(val1.take(digits.len() as int) =~= digits);
    assert(trimmed(val) == digits);
    assert(parse_dec(digits) == Some(b.len() as u64));
    assert(header_kv(l2) == Some((trimmed(key), digits)));
    assert(is_content_length_header(l2));
    // Not chunked.
    assert(lower_seq(trimmed(key)).len() == 14);
    assert(lower_seq(transfer_encoding_key()).len() == 17);
    assert(!is_chunked_header(l2));
    let headers = seq![l1, l2].skip(1);
    assert(headers =~= seq![l2]);
    assert(content_length_of(seq![l2]) == Some(b.len() as u64));
    let only = seq![l2];
    assert forall|i: int| 0 <= i < only.len() implies !is_chunked_header(#[trigger] only[i]) by {
        assert(only[i] == l2);
    }
    assert(!has_chunked(only));
    assert(transfer_encoding_of(seq![l2]) == TransferEncoding::IdentityLength(b.len() as u64));
    assert(b.take(b.len() as int) =~= b);
    assert(body_of(headers, b) == Ok::<Seq<u8>, DecodeError>(b));
}

/// The chunked framing of a sequence of chunks: each as its hex size,
/// a line break, the chunk, a line break; ended by the zero-size chunk
/// and its trailing line.
pub open spec fn chunk_encoded(chunks: Seq<Seq<u8>>) -> Seq<u8>
    decreases chunks.len(),
{
    if chunks.len() == 0 {
        ascii_seq("0\r\n\r\n"@)
    } else {
        hex_digits(chunks[0].len()) + crlf() + chunks[0] + crlf() + chunk_encoded(
            chunks.drop_first(),
        )
    }
}

/// Law: decoding the chunked framing of any sequence of non-empty
/// chunks yields their concatenation — however the payload was split.
pub proof fn lemma_chunked_round_trip(chunks: Seq<Seq<u8>>)
    requires
        forall|i: int| 0 <= i < chunks.len() ==> #[trigger] chunks[i].len() > 0,
        forall|i: int| 0 <= i < chunks.len() ==> #[trigger] chunks[i].len() <= u64::MAX,
    ensures
        chunked_body(chunk_encoded(chunks)) == Ok::<Seq<u8>, DecodeError>(chunks.flatten()),
    decreases chunks.len(),
{
    reveal_strlit("0\r\n\r\n");
    if chunks.len() == 0 {
        let term = ascii_seq("0\r\n\r\n"@);
        assert(term.len() == 5);
        assert(term[0] == 48 && term[1] == 13 && term[2] == 10 && term[3] == 13 && term[4] == 10);
        lemma_find_byte_at(term, 10, 2);
        let line = first_line(term);
        assert(line =~= seq![48u8, 13u8, 10u8]);
        lemma_trim_front_skip(line, 0);
        lemma_trim_back_take(line, 1);
        let t = trim_back(line);
        assert(t =~= seq![48u8]);
        assert(trimmed(line) == t);
        assert(t.drop_last() =~= Seq::<u8>::empty());
        assert(t.last() == 48u8);
        assert(hex_val(Seq::<u8>::empty()) == 0);
        assert(hex_val(t) == 0);
        assert(all_hex_digits(t));
        assert(parse_hex(t) == Some(0u64));
        assert(chunked_body(term) == Ok::<Seq<u8>, DecodeError>(Seq::empty()));
    } else {
        let c0 = chunks[0];
        let n = c0.len();
        assert(n > 0 && n <= u64::MAX);
        let hd = hex_digits(n);
        lemma_hex_digits(n);
        lemma_digits_not_ws(hd);
        let rest_chunks = chunks.drop_first();
        let enc_rest = chunk_encoded(rest_chunks);
        let line0 = hd + crlf();
        let enc = chunk_encoded(chunks);
        assert(enc =~= line0 + (c0 + (crlf() + enc_rest)));
        assert(line0.last() == 10);
        assert forall|i: int| 0 <= i < line0.len() - 1 implies line0[i] != 10 by {
            if i < hd.len() {
                assert(line0[i] == hd[i]);
            } else {
                assert(line0[i] == crlf()[i - hd.len()]);
                assert(i - hd.len() == 0);
            }
        }
        lemma_first_line_of(line0, c0 + (crlf() + enc_rest));
        assert(enc.len() > 0);
        // The size line trims to the bare hex digits.
        lemma_trim_front_skip(line0, 0);
        assert forall|i: int| hd.len() <= i < line0.len() implies is_ws(line0[i]) by {
            assert(line0[i] == crlf()[i - hd.len()]);
        }
        assert(!is_ws(line0[hd.len() - 1]));
        lemma_trim_back_take(line0, hd.len() as int);
        assert(line0.take(hd.len() as int) =~= hd);
        assert(trimmed(line0) == hd);
        assert(parse_hex(hd) == Some(n as u64));
        // The chunk bytes and the line break after them.
        let rest = after_line(enc);
        assert(rest =~= c0 + (crlf() + enc_rest));
        assert(rest.len() >= n);
        assert(rest.take(n as int) =~= c0);
        assert(rest.skip(n as int) =~= crlf() + enc_rest);
        assert(crlf().last() == 10 && crlf()[0] == 13);
        lemma_first_line_of(crlf(), enc_rest);
        assert(after_line(crlf() + enc_rest) == enc_rest);
        // The rest of the chunks, by induction.
        assert forall|i: int| 0 <= i < rest_chunks.len() implies #[trigger] rest_chunks[i].len()
            > 0 by {
            assert(rest_chunks[i] == chunks[i + 1]);
        }
        assert forall|i: int| 0 <= i < rest_chunks.len() implies #[trigger] rest_chunks[i].len()
            <= u64::MAX by {
            assert(rest_chunks[i] == chunks[i + 1]);
        }
        lemma_chunked_round_trip(rest_chunks);
        assert(chunked_body(enc) == Ok::<Seq<u8>, DecodeError>(c0 + rest_chunks.flatten()));
        assert(chunks.first() == c0);
        assert(chunks.flatten() == c0 + rest_chunks.flatten());
    }
}

/// Law: a stream that closes before the header terminator decodes to
/// the framing error — never to any success, partial or otherwise.
pub proof fn lemma_close_before_terminator(data: Seq<u8>)
    requires
        split_headers(data) is None,
    ensures
        response_of(data) == Err::<(u16, Seq<u8>), DecodeError>(DecodeError::UnexpectedClose),
{
}

/// Law: however a response is framed, a stream cut anywhere strictly
/// before its header terminator decodes to the framing error — never
/// to a partial or garbage success.
pub proof fn lemma_cut_before_terminator_fails(data: Seq<u8>, i: int)
    requires
        split_headers(data) is Some,
        0 <= i < data.len() - split_headers(data).unwrap().1.len(),
    ensures
        split_headers(data.take(i)) is None,
        response_of(data.take(i)) == Err::<(u16, Seq<u8>), DecodeError>(
            DecodeError::UnexpectedClose,
        ),
    decreases data.len(),
{
    let line = first_line(data);
    let rest = after_line(data);
    let fll = first_line_len(data);
    lemma_first_line_bounds(data);
    if line == crlf() {
        // The terminator comes first: the cut lands inside it.
        assert(line.len() == 2);
        assert(fll == 2);
        assert(split_headers(data).unwrap().1 == rest);
        assert(i < 2);
        if i == 0 {
            assert(data.take(0) =~= Seq::<u8>::empty());
        } else {
            assert(data[0] == line[0]);
            assert(data.take(1) =~= seq![13u8]);
            lemma_no_line_feed_no_terminator(data.take(1));
        }
    } else {
        // The first header line, then the cut within what follows it.
        assert(split_headers(rest) is Some);
        assert(rest.len() > 0) by {
            if rest.len() == 0 {
                assert(rest =~= Seq::<u8>::empty());
            }
        }
        assert(fll < data.len());
        assert(data[fll - 1] == 10);
        assert(line.last() == 10);
        if i < fll {
            assert forall|j: int| 0 <= j < data.take(i).len() implies data.take(i)[j] != 10 by {
                assert(data.take(i)[j] == data[j]);
                assert(j < fll - 1);
            }
            lemma_no_line_feed_no_terminator(data.take(i));
        } else {
            let i2 = i - fll;
            assert(data.take(i) =~= line + rest.take(i2));
            assert forall|j: int| 0 <= j < line.len() - 1 implies line[j] != 10 by {
                assert(line[j] == data[j]);
            }
            lemma_first_line_of(line, rest.take(i2));
            assert(split_headers(data).unwrap().1 == split_headers(rest).unwrap().1);
            assert(data.len() == fll + rest.len());
            assert(i2 < rest.len() - split_headers(rest).unwrap().1.len());
            lemma_cut_before_terminator_fails(rest, i2);
            assert(first_line(data.take(i)) == line);
            assert(after_line(data.take(i)) == rest.take(i2));
            assert(split_headers(data.take(i)) is None);
        }
    }
}

/// A stream with no line feed at all never reaches a header terminator.
pub proof fn lemma_no_line_feed_no_terminator(data: Seq<u8>)
    requires
        no_lf(data),
    ensures
        split_headers(data) is None,
{
    if data.len() > 0 {
        lemma_find_byte_absent(data, 10);
        assert(first_line(data) =~= data);
        assert(after_line(data) =~= Seq::<u8>::empty());
        if data == crlf() {
            assert(data[1] == 10);
        }
        assert(first_line(data) != crlf());
        assert(split_headers(Seq::<u8>::empty()) is None);
        assert(split_headers(data) is None);
    }
}

} // verus!

