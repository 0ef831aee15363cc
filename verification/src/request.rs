//! The request decoder: turns the fixed-size, zero-padded byte buffer
//! read from a connection into a minimal parsed request.
//!
//! The buffer is interpreted as UTF-8 text; its first whitespace-
//! delimited token is the method and its second the request target.
//! Any method other than `POST` is treated as a GET of the target with
//! its leading slashes stripped. A POST carries a body: the bytes
//! between the first blank-line separator and the first null byte, the
//! null marking where the received data ends and the buffer's zero
//! padding begins.

use vstd::prelude::*;

use crate::text::{
    copy_range,
    find_byte,
    find_byte_at,
    find_pattern,
    find_pattern_at,
    skip_spaces,
    skip_spaces_at,
    token_end,
    token_end_at,
};
use crate::vfs::SLASH_BYTE;
use vstd::utf8::{decode_utf8, valid_utf8};

verus! {

/// The null byte, which marks the end of the meaningful region of the
/// zero-padded request buffer.
pub const NUL_BYTE: u8 = 0x00;

/// Why a buffer could not be decoded; such a connection is dropped
/// without a response.
#[derive(Clone, Copy, Debug, PartialEq, Eq, Structural)]
pub enum DecodeError {
    /// The buffer is not valid UTF-8 text.
    InvalidEncoding,
    /// A request-line token is missing, or a POST lacks its blank-line
    /// separator or its null-byte end marker.
    MalformedRequest,
}

/// Mathematical model of a decoded request.
pub ghost enum RequestView {
    Get { name: Seq<u8> },
    Post { target: Seq<u8>, body: Seq<u8> },
}

/// A decoded request: a GET of a logical name, or a POST of body bytes
/// to a target name.
#[derive(Debug)]
pub enum Request {
    Get { name: Vec<u8> },
    Post { target: Vec<u8>, body: Vec<u8> },
}

impl View for Request {
    type V = RequestView;

    open spec fn view(&self) -> RequestView {
        match self {
            Request::Get { name } => RequestView::Get { name: name@ },
            Request::Post { target, body } => RequestView::Post {
                target: target@,
                body: body@,
            },
        }
    }
}

/// The method token `POST`.
pub open spec fn post_token() -> Seq<u8> {
    seq![0x50u8, 0x4f, 0x53, 0x54]
}

fn post_token_bytes() -> (r: Vec<u8>)
    ensures
        r@ == post_token(),
{
    let mut v: Vec<u8> = Vec::new();
    v.push(0x50);
    v.push(0x4f);
    v.push(0x53);
    v.push(0x54);
    assert(v@ =~= post_token());
    v
}

/// The blank-line separator `\r\n\r\n` between headers and body.
pub open spec fn header_sep() -> Seq<u8> {
    seq![0x0du8, 0x0a, 0x0d, 0x0a]
}

fn header_sep_bytes() -> (r: Vec<u8>)
    ensures
        r@ == header_sep(),
{
    let mut v: Vec<u8> = Vec::new();
    v.push(0x0d);
    v.push(0x0a);
    v.push(0x0d);
    v.push(0x0a);
    assert(v@ =~= header_sep());
    v
}

/// Index of the first byte of `s` at or after `i` that is not a slash.
pub open spec fn skip_slashes(s: Seq<u8>, i: int) -> int
    decreases s.len() - i,
{
    if i < 0 {
        skip_slashes(s, 0)
    } else if i >= s.len() {
        s.len() as int
    } else if s[i] == SLASH_BYTE {
        skip_slashes(s, i + 1)
    } else {
        i
    }
}

/// `s` with its leading slashes removed: a request target becomes the
/// logical name it addresses.
pub open spec fn strip_slashes(s: Seq<u8>) -> Seq<u8> {
    s.subrange(skip_slashes(s, 0), s.len() as int)
}

proof fn lemma_skip_slashes_bounds(s: Seq<u8>, i: int)
    requires
        0 <= i <= s.len(),
    ensures
        i <= skip_slashes(s, i) <= s.len(),
    decreases s.len() - i,
{
    if i < s.len() && s[i] == SLASH_BYTE {
        lemma_skip_slashes_bounds(s, i + 1);
    }
}

fn skip_slashes_at(s: &[u8], from: usize) -> (r: usize)
    requires
        from <= s@.len(),
    ensures
        r == skip_slashes(s@, from as int),
{
    let mut i: usize = from;
    while i < s.len()
        invariant
            from <= i <= s@.len(),
            skip_slashes(s@, from as int) == skip_slashes(s@, i as int),
        decreases s@.len() - i,
    {
        if s[i] != SLASH_BYTE {
            return i;
        }
        i = i + 1;
    }
    i
}

/// What decoding a buffer yields.
///
/// Mirrors, step for step, how a connection's buffer is read: the text
/// must be valid UTF-8; the first token is the method and the second
/// the target, either missing making the request malformed; a POST
/// needs the blank-line separator and a null byte at or after the body
/// start, and its body runs from after the separator to the first null
/// of the buffer; any other method is a GET of the target stripped of
/// leading slashes.
pub open spec fn spec_decode(buf: Seq<u8>) -> Result<RequestView, DecodeError> {
    if !valid_utf8(buf) {
        Err(DecodeError::InvalidEncoding)
    } else {
        let a0 = skip_spaces(buf, 0);
        if a0 >= buf.len() {
            Err(DecodeError::MalformedRequest)
        } else {
            let e0 = token_end(buf, a0);
            let method = buf.subrange(a0, e0);
            let a1 = skip_spaces(buf, e0);
            if a1 >= buf.len() {
                Err(DecodeError::MalformedRequest)
            } else {
                let e1 = token_end(buf, a1);
                let target = buf.subrange(a1, e1);
                if method == post_token() {
                    let h = find_pattern(buf, header_sep(), 0);
                    if h + header_sep().len() > buf.len() {
                        Err(DecodeError::MalformedRequest)
                    } else {
                        let start = h + header_sep().len();
                        let z = find_byte(buf, NUL_BYTE, 0);
                        if z >= buf.len() || z < start {
                            Err(DecodeError::MalformedRequest)
                        } else {
                            Ok(
                                RequestView::Post {
                                    target: strip_slashes(target),
                                    body: buf.subrange(start as int, z),
                                },
                            )
                        }
                    }
                } else {
                    Ok(RequestView::Get { name: strip_slashes(target) })
                }
            }
        }
    }
}

/// Decode a byte buffer as UTF-8 text.
///
/// Relies on `core::str::from_utf8`: it returns `Ok` exactly when the
/// bytes are valid UTF-8, and the resulting text is the characters
/// those bytes encode. The borrowed text is copied into an owned
/// `String`.
#[verifier::external_body]
pub fn bytes2string(bytes: &[u8]) -> (r: Option<String>)
    ensures
        r is Some <==> valid_utf8(bytes@),
        r is Some ==> r->0@ == decode_utf8(bytes@),
{
    match core::str::from_utf8(bytes) {
        Ok(s) => Some(s.to_string()),
        Err(_) => None,
    }
}

/// The slice of `input` from `start` up to the first null byte of the
/// whole buffer; nothing when there is no null, or none at or after
/// `start`.
pub fn slice_end(input: &[u8], start: usize) -> (r: Option<Vec<u8>>)
    ensures
        ({
            let z = find_byte(input@, NUL_BYTE, 0);
            match r {
                Some(v) => z < input@.len() && start <= z && v@ == input@.subrange(
                    start as int,
                    z,
                ),
                None => !(z < input@.len() && start <= z),
            }
        }),
{
    let z = find_byte_at(input, NUL_BYTE, 0);
    proof {
        crate::text::lemma_find_byte_bounds(input@, NUL_BYTE, 0);
    }
    if z < input.len() && start <= z {
        Some(copy_range(input, start, z))
    } else {
        None
    }
}

/// Every all-ASCII byte sequence is valid UTF-8: each byte below 0x80
/// is a one-byte scalar of its own.
pub proof fn lemma_ascii_valid_utf8(s: Seq<u8>)
    requires
        forall|i: int| 0 <= i < s.len() ==> s[i] < 0x80,
    ensures
        valid_utf8(s),
    decreases s.len(),
{
    if s.len() != 0 {
        let b = s[0];
        assert(b & 0x7f == b && b & 0x7f < 0x80) by (bit_vector)
            requires
                b < 0x80,
        ;
        assert(vstd::utf8::valid_first_scalar(s));
        assert(vstd::utf8::length_of_first_scalar(s) == 1);
        assert(vstd::utf8::pop_first_scalar(s) =~= s.drop_first());
        assert(forall|i: int| 0 <= i < s.drop_first().len() ==> s.drop_first()[i] < 0x80);
        lemma_ascii_valid_utf8(s.drop_first());
    }
}

/// The protocol token `HTTP/1.1` of a canonical request line.
pub open spec fn http_version() -> Seq<u8> {
    seq![0x48u8, 0x54, 0x54, 0x50, 0x2f, 0x31, 0x2e, 0x31]
}

/// A canonical POST request for target `t` and body `b`, as it sits in
/// the server's zero-padded receive buffer: the request line
/// `POST /t HTTP/1.1`, the blank-line separator, the body bytes, and
/// `pad` null bytes of buffer padding.
pub open spec fn post_request(t: Seq<u8>, b: Seq<u8>, pad: nat) -> Seq<u8> {
    post_token() + seq![0x20u8, SLASH_BYTE] + t + seq![0x20u8] + http_version() + header_sep() + b
        + Seq::new(pad, |i: int| NUL_BYTE)
}

/// A byte that survives the decoder's tokenizing untouched inside a
/// target name: printable ASCII, neither null nor whitespace.
pub open spec fn plain_byte(x: u8) -> bool {
    0 < x < 0x80 && !crate::text::is_space(x)
}

/// Round trip: a POST request assembled from a target name and body
/// bytes free of embedded nulls decodes back to exactly that target
/// and that body, so the upload written from the decoded request is
/// the body verbatim. Names and bodies here are ASCII, the target with
/// no whitespace and no leading slash, and at least one byte of the
/// buffer's zero padding remains.
pub proof fn lemma_post_round_trip(t: Seq<u8>, b: Seq<u8>, pad: nat)
    requires
        pad >= 1,
        forall|i: int| 0 <= i < t.len() ==> plain_byte(#[trigger] t[i]),
        t.len() > 0 ==> t[0] != SLASH_BYTE,
        forall|i: int| 0 <= i < b.len() ==> 0 < #[trigger] b[i] < 0x80,
    ensures
        spec_decode(post_request(t, b, pad)) == Ok::<RequestView, DecodeError>(
            RequestView::Post { target: t, body: b },
        ),
{
    let s = post_request(t, b, pad);
    let n = t.len() as int;
    let m = b.len() as int;
    assert(s.len() == 19 + n + m + pad);
    assert(s[0] == 0x50 && s[1] == 0x4f && s[2] == 0x53 && s[3] == 0x54);
    assert(s[4] == 0x20 && s[5] == SLASH_BYTE);
    assert(forall|i: int| 0 <= i < n ==> s[6 + i] == t[i]);
    assert(s[6 + n] == 0x20);
    assert(s[7 + n] == 0x48 && s[8 + n] == 0x54 && s[9 + n] == 0x54 && s[10 + n] == 0x50 && s[11
        + n] == 0x2f && s[12 + n] == 0x31 && s[13 + n] == 0x2e && s[14 + n] == 0x31);
    assert(s[15 + n] == 0x0d && s[16 + n] == 0x0a && s[17 + n] == 0x0d && s[18 + n] == 0x0a);
    assert(forall|i: int| 0 <= i < m ==> s[19 + n + i] == b[i]);
    assert(forall|i: int| 19 + n + m <= i < s.len() ==> s[i] == NUL_BYTE);

    // The buffer is ASCII, hence valid UTF-8.
    assert(forall|i: int| 0 <= i < s.len() ==> s[i] < 0x80) by {
        assert(forall|i: int| 6 <= i < 6 + n ==> s[i] == t[i - 6] && plain_byte(t[i - 6]));
        assert(forall|i: int| 19 + n <= i < 19 + n + m ==> s[i] == b[i - 19 - n] && 0 < b[i - 19
            - n] < 0x80);
    }
    lemma_ascii_valid_utf8(s);

    // The method token is `POST`.
    crate::text::lemma_skip_spaces_value(s, 0, 0);
    crate::text::lemma_token_end_value(s, 0, 4);
    assert(s.subrange(0, 4) =~= post_token());

    // The target token is `/` followed by the name.
    crate::text::lemma_skip_spaces_value(s, 4, 5);
    assert(forall|k: int| 5 <= k < 6 + n ==> !crate::text::is_space(s[k])) by {
        assert(forall|k: int| 6 <= k < 6 + n ==> s[k] == t[k - 6] && plain_byte(t[k - 6]));
    }
    crate::text::lemma_token_end_value(s, 5, 6 + n);
    let target = s.subrange(5, 6 + n);
    assert(target[0] == SLASH_BYTE);
    assert(skip_slashes(target, 0) == skip_slashes(target, 1));
    assert(skip_slashes(target, 1) == 1);
    assert(strip_slashes(target) =~= t);

    // The blank-line separator first occurs right after the request
    // line: no earlier byte is a carriage return at all.
    assert(forall|k: int| 0 <= k < 15 + n ==> s[k] != 0x0d) by {
        assert(forall|k: int| 6 <= k < 6 + n ==> s[k] == t[k - 6] && !crate::text::is_space(
            t[k - 6],
        ));
    }
    assert(forall|k: int| 0 <= k < 15 + n ==> !crate::text::matches_at(s, k, header_sep())) by {
        assert(forall|k: int|
            0 <= k < 15 + n && k + 4 <= s.len() && s.subrange(k, k + 4) == header_sep() ==> (
            #[trigger] s.subrange(k, k + 4))[0] == s[k] && s[k] == 0x0d);
    }
    assert(crate::text::matches_at(s, 15 + n, header_sep())) by {
        assert(s.subrange(15 + n, 19 + n) =~= header_sep());
    }
    crate::text::lemma_find_pattern_value(s, header_sep(), 0, 15 + n);

    // The first null byte of the buffer is the first padding byte.
    assert(forall|k: int| 0 <= k < 19 + n + m ==> s[k] != NUL_BYTE) by {
        assert(forall|k: int| 6 <= k < 6 + n ==> s[k] == t[k - 6] && 0 < t[k - 6]);
        assert(forall|k: int| 19 + n <= k < 19 + n + m ==> s[k] == b[k - 19 - n] && 0 < b[k - 19
            - n]);
    }
    assert(s[19 + n + m] == NUL_BYTE);
    crate::text::lemma_find_byte_value(s, NUL_BYTE, 0, 19 + n + m);

    // The decoded body is the body verbatim.
    assert(s.subrange(19 + n, 19 + n + m) =~= b);
}

/// Decode one received buffer into a request, exactly as
/// [`spec_decode`] describes.
pub fn decode_request(buffer: &[u8]) -> (r: Result<Request, DecodeError>)
    ensures
        match r {
            Ok(req) => spec_decode(buffer@) == Ok::<RequestView, DecodeError>(req@),
            Err(e) => spec_decode(buffer@) == Err::<RequestView, DecodeError>(e),
        },
{
    if bytes2string(buffer).is_none() {
        return Err(DecodeError::InvalidEncoding);
    }
    let a0 = skip_spaces_at(buffer, 0);
    proof {
        crate::text::lemma_skip_spaces_bounds(buffer@, 0);
    }
    if a0 >= buffer.len() {
        return Err(DecodeError::MalformedRequest);
    }
    let e0 = token_end_at(buffer, a0);
    proof {
        crate::text::lemma_token_end_bounds(buffer@, a0 as int);
    }
    let method = copy_range(buffer, a0, e0);
    let a1 = skip_spaces_at(buffer, e0);
    proof {
        crate::text::lemma_skip_spaces_bounds(buffer@, e0 as int);
    }
    if a1 >= buffer.len() {
        return Err(DecodeError::MalformedRequest);
    }
    let e1 = token_end_at(buffer, a1);
    proof {
        crate::text::lemma_token_end_bounds(buffer@, a1 as int);
    }
    let target = copy_range(buffer, a1, e1);
    let k = skip_slashes_at(target.as_slice(), 0);
    proof {
        lemma_skip_slashes_bounds(target@, 0);
    }
    let name = copy_range(target.as_slice(), k, target.len());
    proof {
        assert(name@ =~= strip_slashes(buffer@.subrange(a1 as int, e1 as int)));
    }
    let post = post_token_bytes();
    if crate::vfs::bytes_equal(method.as_slice(), post.as_slice()) {
        let sep = header_sep_bytes();
        let h = find_pattern_at(buffer, sep.as_slice(), 0);
        proof {
            crate::text::lemma_find_pattern_bounds(buffer@, header_sep(), 0);
        }
        if buffer.len() < 4 || h > buffer.len() - 4 {
            return Err(DecodeError::MalformedRequest);
        }
        let start = h + 4;
        match slice_end(buffer, start) {
            Some(body) => Ok(Request::Post { target: name, body }),
            None => Err(DecodeError::MalformedRequest),
        }
    } else {
        Ok(Request::Get { name })
    }
}

} // verus!
