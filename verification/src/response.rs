//! The response builder: caps content at the maximum serve size and
//! assembles the minimal HTTP/1.1 response, status line first, then a
//! Content-Length header, a blank line and the body.

use vstd::prelude::*;

use crate::MAX_SIZE;

verus! {

/// The status line of every response, `HTTP/1.1 200 OK`: this design
/// reports success unconditionally and masks unresolved names with
/// fallback content.
pub open spec fn status_line() -> Seq<u8> {
    seq![
        0x48u8,
        0x54,
        0x54,
        0x50,
        0x2f,
        0x31,
        0x2e,
        0x31,
        0x20,
        0x32,
        0x30,
        0x30,
        0x20,
        0x4f,
        0x4b,
    ]
}

/// The header label `Content-Length: `.
pub open spec fn content_length_label() -> Seq<u8> {
    seq![
        0x43u8,
        0x6f,
        0x6e,
        0x74,
        0x65,
        0x6e,
        0x74,
        0x2d,
        0x4c,
        0x65,
        0x6e,
        0x67,
        0x74,
        0x68,
        0x3a,
        0x20,
    ]
}

/// The line break `\r\n`.
pub open spec fn crlf() -> Seq<u8> {
    seq![0x0du8, 0x0a]
}

/// The fixed notice served in place of content larger than the cap:
/// `File is bigger than 128 KB`.
pub open spec fn oversize_notice() -> Seq<u8> {
    seq![
        0x46u8,
        0x69,
        0x6c,
        0x65,
        0x20,
        0x69,
        0x73,
        0x20,
        0x62,
        0x69,
        0x67,
        0x67,
        0x65,
        0x72,
        0x20,
        0x74,
        0x68,
        0x61,
        0x6e,
        0x20,
        0x31,
        0x32,
        0x38,
        0x20,
        0x4b,
        0x42,
    ]
}

/// Exec form of [`oversize_notice`].
pub fn oversize_notice_bytes() -> (r: Vec<u8>)
    ensures
        r@ == oversize_notice(),
{
    let mut v: Vec<u8> = Vec::new();
    v.push(0x46);
    v.push(0x69);
    v.push(0x6c);
    v.push(0x65);
    v.push(0x20);
    v.push(0x69);
    v.push(0x73);
    v.push(0x20);
    v.push(0x62);
    v.push(0x69);
    v.push(0x67);
    v.push(0x67);
    v.push(0x65);
    v.push(0x72);
    v.push(0x20);
    v.push(0x74);
    v.push(0x68);
    v.push(0x61);
    v.push(0x6e);
    v.push(0x20);
    v.push(0x31);
    v.push(0x32);
    v.push(0x38);
    v.push(0x20);
    v.push(0x4b);
    v.push(0x42);
    assert(v@ =~= oversize_notice());
    v
}

fn status_line_bytes() -> (r: Vec<u8>)
    ensures
        r@ == status_line(),
{
    let mut v: Vec<u8> = Vec::new();
    v.push(0x48);
    v.push(0x54);
    v.push(0x54);
    v.push(0x50);
    v.push(0x2f);
    v.push(0x31);
    v.push(0x2e);
    v.push(0x31);
    v.push(0x20);
    v.push(0x32);
    v.push(0x30);
    v.push(0x30);
    v.push(0x20);
    v.push(0x4f);
    v.push(0x4b);
    assert(v@ =~= status_line());
    v
}

fn content_length_label_bytes() -> (r: Vec<u8>)
    ensures
        r@ == content_length_label(),
{
    let mut v: Vec<u8> = Vec::new();
    v.push(0x43);
    v.push(0x6f);
    v.push(0x6e);
    v.push(0x74);
    v.push(0x65);
    v.push(0x6e);
    v.push(0x74);
    v.push(0x2d);
    v.push(0x4c);
    v.push(0x65);
    v.push(0x6e);
    v.push(0x67);
    v.push(0x74);
    v.push(0x68);
    v.push(0x3a);
    v.push(0x20);
    assert(v@ =~= content_length_label());
    v
}

/// The decimal digit byte for `d`.
pub open spec fn digit_byte(d: int) -> u8 {
    (0x30 + d) as u8
}

/// The decimal representation of `n` as ASCII digit bytes, most
/// significant digit first, no sign and no leading zero.
pub open spec fn dec_rep(n: int) -> Seq<u8>
    recommends
        n >= 0,
    decreases n,
{
    if n < 10 {
        seq![digit_byte(if n < 0 { 0 } else { n })]
    } else {
        dec_rep(n / 10).push(digit_byte(n % 10))
    }
}

/// Render `n` in decimal.
pub fn decimal_digits(n: usize) -> (r: Vec<u8>)
    ensures
        r@ == dec_rep(n as int),
{
    let mut digits: Vec<u8> = Vec::new();
    if n == 0 {
        digits.push(0x30);
        assert(digits@ =~= dec_rep(0));
        return digits;
    }
    let mut m: usize = n;
    while m > 0
        invariant
            0 <= m <= n,
            m > 0 ==> dec_rep(n as int) == dec_rep(m as int) + digits@,
            m == 0 ==> dec_rep(n as int) == digits@,
        decreases m,
    {
        let d: u8 = (m % 10) as u8 + 0x30;
        let ghost prev = digits@;
        digits.insert(0, d);
        proof {
            assert(digits@ =~= seq![d] + prev);
            assert(d == digit_byte(m as int % 10));
            if m >= 10 {
                assert(dec_rep(m as int) == dec_rep(m as int / 10).push(digit_byte(m as int % 10)));
                assert(dec_rep(m as int) =~= dec_rep(m as int / 10) + seq![d]);
                assert(dec_rep(m as int / 10) + seq![d] + prev =~= dec_rep(m as int / 10)
                    + digits@);
            } else {
                assert(dec_rep(m as int) =~= seq![d]);
            }
        }
        m = m / 10;
    }
    digits
}

/// The content actually served for a file's bytes: the bytes
/// themselves when within the cap, else the fixed oversize notice.
pub open spec fn spec_contents(c: Seq<u8>) -> Seq<u8> {
    if c.len() > MAX_SIZE {
        oversize_notice()
    } else {
        c
    }
}

/// Cap content at the maximum serve size, substituting the notice.
pub fn make_contents(contents: Vec<u8>) -> (r: Vec<u8>)
    ensures
        r@ == spec_contents(contents@),
{
    if contents.len() > MAX_SIZE {
        oversize_notice_bytes()
    } else {
        contents
    }
}

/// The full response for content bytes `c`: status line, the declared
/// length of the capped body, a blank line, and the capped body.
pub open spec fn spec_response(c: Seq<u8>) -> Seq<u8> {
    let body = spec_contents(c);
    status_line() + crlf() + content_length_label() + dec_rep(body.len() as int) + crlf() + crlf()
        + body
}

/// Assemble the response around content bytes, capping them first.
pub fn make_response(contents: Vec<u8>) -> (r: Vec<u8>)
    ensures
        r@ == spec_response(contents@),
{
    let body = make_contents(contents);
    let mut r = status_line_bytes();
    r.push(0x0d);
    r.push(0x0a);
    let label = content_length_label_bytes();
    crate::text::append_bytes(&mut r, label.as_slice());
    let digits = decimal_digits(body.len());
    crate::text::append_bytes(&mut r, digits.as_slice());
    r.push(0x0d);
    r.push(0x0a);
    r.push(0x0d);
    r.push(0x0a);
    crate::text::append_bytes(&mut r, body.as_slice());
    assert(r@ =~= spec_response(contents@));
    r
}

/// Content within the size cap is served verbatim: the response body
/// is exactly the content's bytes and the declared Content-Length is
/// the decimal of exactly their count.
pub proof fn lemma_response_within_cap(c: Seq<u8>)
    requires
        c.len() <= MAX_SIZE,
    ensures
        spec_response(c) == status_line() + crlf() + content_length_label() + dec_rep(
            c.len() as int,
        ) + crlf() + crlf() + c,
{
}

/// Oversize content is replaced: the response body is the fixed notice
/// and the declared Content-Length is the notice's length, not the
/// content's real size.
pub proof fn lemma_response_oversize(c: Seq<u8>)
    requires
        c.len() > MAX_SIZE,
    ensures
        spec_response(c) == status_line() + crlf() + content_length_label() + dec_rep(
            oversize_notice().len() as int,
        ) + crlf() + crlf() + oversize_notice(),
{
}

/// A requested name with no matching entry resolves to the fallback
/// entry for the mapping file itself, so the bytes handed to the
/// response builder are the mapping file's own bytes, and the response
/// is a success report embedding them verbatim (the mapping file being
/// within the cap).
pub proof fn lemma_unknown_name_serves_mapping(
    entries: Seq<crate::vfs::FileView>,
    name: Seq<u8>,
    mapping: Seq<u8>,
)
    requires
        crate::vfs::lookup(entries, name) is None,
        mapping.len() <= MAX_SIZE,
    ensures
        (match crate::vfs::lookup(entries, name) {
            Some(f) => f,
            None => crate::vfs::fallback_entry(),
        }) == crate::vfs::fallback_entry(),
        crate::vfs::fallback_entry().path == crate::vfs::default_path(crate::vfs::mapping_name()),
        spec_response(mapping) == status_line() + crlf() + content_length_label() + dec_rep(
            mapping.len() as int,
        ) + crlf() + crlf() + mapping,
{
}

} // verus!

