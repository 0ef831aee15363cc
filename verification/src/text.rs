//! Byte-sequence helpers shared by the mapping parser, the request
//! decoder and the response builder: first-occurrence search, ASCII
//! whitespace trimming, and sequence copying.

use vstd::prelude::*;

verus! {

/// ASCII whitespace, the byte forms of the whitespace characters a
/// request line may be split on.
pub open spec fn is_space(b: u8) -> bool {
    b == 0x20 || (0x09 <= b && b <= 0x0d)
}

/// Index of the first occurrence of `b` in `s` at or after `from`;
/// `s.len()` when there is none.
pub open spec fn find_byte(s: Seq<u8>, b: u8, from: int) -> int
    decreases s.len() - from,
{
    if from < 0 {
        find_byte(s, b, 0)
    } else if from >= s.len() {
        s.len() as int
    } else if s[from] == b {
        from
    } else {
        find_byte(s, b, from + 1)
    }
}

pub proof fn lemma_find_byte_bounds(s: Seq<u8>, b: u8, from: int)
    requires
        0 <= from <= s.len(),
    ensures
        from <= find_byte(s, b, from) <= s.len(),
        find_byte(s, b, from) < s.len() ==> s[find_byte(s, b, from)] == b,
        forall|j: int| from <= j < find_byte(s, b, from) ==> s[j] != b,
    decreases s.len() - from,
{
    if from < s.len() && s[from] != b {
        lemma_find_byte_bounds(s, b, from + 1);
    }
}

/// Exec search for the first occurrence of `b` at or after `from`.
pub fn find_byte_at(s: &[u8], b: u8, from: usize) -> (r: usize)
    requires
        from <= s@.len(),
    ensures
        r == find_byte(s@, b, from as int),
{
    let mut i: usize = from;
    while i < s.len()
        invariant
            from <= i <= s@.len(),
            find_byte(s@, b, from as int) == find_byte(s@, b, i as int),
        decreases s@.len() - i,
    {
        if s[i] == b {
            return i;
        }
        i = i + 1;
    }
    i
}

/// Pins `find_byte` down when the bytes before `j` are known to avoid
/// `b` and `j` is an occurrence (or the end).
pub proof fn lemma_find_byte_value(s: Seq<u8>, b: u8, from: int, j: int)
    requires
        0 <= from <= j <= s.len(),
        forall|k: int| from <= k < j ==> s[k] != b,
        j < s.len() ==> s[j] == b,
    ensures
        find_byte(s, b, from) == if j < s.len() {
            j
        } else {
            s.len() as int
        },
    decreases j - from,
{
    if from < j {
        lemma_find_byte_value(s, b, from + 1, j);
    }
}

/// The pattern `p` occurs in `s` starting at index `i`.
pub open spec fn matches_at(s: Seq<u8>, i: int, p: Seq<u8>) -> bool {
    0 <= i && i + p.len() <= s.len() && s.subrange(i, i + p.len()) == p
}

/// Index of the first occurrence of pattern `p` in `s` at or after
/// `from`; `s.len()` when there is none.
pub open spec fn find_pattern(s: Seq<u8>, p: Seq<u8>, from: int) -> int
    decreases s.len() - from,
{
    if from < 0 {
        find_pattern(s, p, 0)
    } else if from + p.len() > s.len() {
        s.len() as int
    } else if p.len() <= 0 {
        from
    } else if matches_at(s, from, p) {
        from
    } else {
        find_pattern(s, p, from + 1)
    }
}

pub proof fn lemma_find_pattern_bounds(s: Seq<u8>, p: Seq<u8>, from: int)
    requires
        0 <= from <= s.len(),
        p.len() > 0,
    ensures
        from <= find_pattern(s, p, from) <= s.len(),
        find_pattern(s, p, from) + p.len() <= s.len() ==> matches_at(s, find_pattern(s, p, from), p),
        find_pattern(s, p, from) + p.len() > s.len() ==> find_pattern(s, p, from) == s.len(),
        forall|j: int| from <= j < find_pattern(s, p, from) ==> !matches_at(s, j, p),
    decreases s.len() - from,
{
    if from + p.len() <= s.len() && !matches_at(s, from, p) {
        lemma_find_pattern_bounds(s, p, from + 1);
    }
}

/// Exec comparison of `s[i..i + p.len()]` against `p`.
fn check_match(s: &[u8], i: usize, p: &[u8]) -> (r: bool)
    requires
        i + p@.len() <= s@.len(),
    ensures
        r == matches_at(s@, i as int, p@),
{
    let n: usize = s.len();
    let mut k: usize = 0;
    while k < p.len()
        invariant
            0 <= k <= p@.len(),
            i + p@.len() <= s@.len(),
            n == s@.len(),
            forall|j: int| 0 <= j < k ==> s@[i + j] == p@[j],
        decreases p@.len() - k,
    {
        if s[i + k] != p[k] {
            assert(s@.subrange(i as int, i + p@.len())[k as int] != p@[k as int]);
            return false;
        }
        k = k + 1;
    }
    assert(s@.subrange(i as int, i + p@.len()) =~= p@);
    true
}

/// Exec search for the first occurrence of pattern `p` at or after
/// `from`.
pub fn find_pattern_at(s: &[u8], p: &[u8], from: usize) -> (r: usize)
    requires
        p@.len() > 0,
    ensures
        r == find_pattern(s@, p@, from as int),
{
    let n: usize = s.len();
    if from > n || p.len() > n - from {
        assert(from + p@.len() > s@.len());
        return n;
    }
    let mut i: usize = from;
    while i <= n - p.len()
        invariant
            from <= i,
            i <= s@.len(),
            n == s@.len(),
            p@.len() > 0,
            p@.len() <= s@.len(),
            find_pattern(s@, p@, from as int) == find_pattern(s@, p@, i as int),
        decreases s@.len() - i,
    {
        if check_match(s, i, p) {
            return i;
        }
        i = i + 1;
    }
    assert(i + p@.len() > s@.len());
    n
}

/// Pins `find_pattern` down when no occurrence starts before `j` and
/// one starts at `j`.
pub proof fn lemma_find_pattern_value(s: Seq<u8>, p: Seq<u8>, from: int, j: int)
    requires
        0 <= from <= j,
        p.len() > 0,
        forall|k: int| from <= k < j ==> !matches_at(s, k, p),
        matches_at(s, j, p),
    ensures
        find_pattern(s, p, from) == j,
    decreases j - from,
{
    if from < j {
        lemma_find_pattern_value(s, p, from + 1, j);
    }
}

/// Copy of `s[i..j]` as a fresh vector.
pub fn copy_range(s: &[u8], i: usize, j: usize) -> (r: Vec<u8>)
    requires
        i <= j <= s@.len(),
    ensures
        r@ == s@.subrange(i as int, j as int),
{
    let mut out: Vec<u8> = Vec::new();
    let mut k: usize = i;
    while k < j
        invariant
            i <= k <= j <= s@.len(),
            out@ == s@.subrange(i as int, k as int),
        decreases j - k,
    {
        out.push(s[k]);
        assert(out@ =~= s@.subrange(i as int, k + 1));
        k = k + 1;
    }
    out
}

/// Append every byte of `src` to `dst`.
pub fn append_bytes(dst: &mut Vec<u8>, src: &[u8])
    ensures
        final(dst)@ == old(dst)@ + src@,
{
    let mut k: usize = 0;
    while k < src.len()
        invariant
            0 <= k <= src@.len(),
            dst@ == old(dst)@ + src@.subrange(0, k as int),
        decreases src@.len() - k,
    {
        dst.push(src[k]);
        assert(dst@ =~= old(dst)@ + src@.subrange(0, k + 1));
        k = k + 1;
    }
    assert(dst@ =~= old(dst)@ + src@);
}

/// Index of the first non-whitespace byte at or after `from`; `s.len()`
/// when the rest is all whitespace.
pub open spec fn skip_spaces(s: Seq<u8>, from: int) -> int
    decreases s.len() - from,
{
    if from < 0 {
        skip_spaces(s, 0)
    } else if from >= s.len() {
        s.len() as int
    } else if is_space(s[from]) {
        skip_spaces(s, from + 1)
    } else {
        from
    }
}

pub proof fn lemma_skip_spaces_bounds(s: Seq<u8>, from: int)
    requires
        0 <= from <= s.len(),
    ensures
        from <= skip_spaces(s, from) <= s.len(),
        skip_spaces(s, from) < s.len() ==> !is_space(s[skip_spaces(s, from)]),
        forall|j: int| from <= j < skip_spaces(s, from) ==> is_space(s[j]),
    decreases s.len() - from,
{
    if from < s.len() && is_space(s[from]) {
        lemma_skip_spaces_bounds(s, from + 1);
    }
}

/// Exec scan past whitespace starting at `from`.
pub fn skip_spaces_at(s: &[u8], from: usize) -> (r: usize)
    requires
        from <= s@.len(),
    ensures
        r == skip_spaces(s@, from as int),
{
    let mut i: usize = from;
    while i < s.len()
        invariant
            from <= i <= s@.len(),
            skip_spaces(s@, from as int) == skip_spaces(s@, i as int),
        decreases s@.len() - i,
    {
        let b = s[i];
        if !(b == 0x20 || (0x09 <= b && b <= 0x0d)) {
            return i;
        }
        i = i + 1;
    }
    i
}

/// Pins `skip_spaces` down when the bytes before `j` are whitespace
/// and `j` is not (or is the end).
pub proof fn lemma_skip_spaces_value(s: Seq<u8>, from: int, j: int)
    requires
        0 <= from <= j <= s.len(),
        forall|k: int| from <= k < j ==> is_space(s[k]),
        j < s.len() ==> !is_space(s[j]),
    ensures
        skip_spaces(s, from) == j,
    decreases j - from,
{
    if from < j {
        lemma_skip_spaces_value(s, from + 1, j);
    }
}

/// End of the whitespace-free token that starts at `from`: the index of
/// the first whitespace byte at or after `from`, or `s.len()`.
pub open spec fn token_end(s: Seq<u8>, from: int) -> int
    decreases s.len() - from,
{
    if from < 0 {
        token_end(s, 0)
    } else if from >= s.len() {
        s.len() as int
    } else if is_space(s[from]) {
        from
    } else {
        token_end(s, from + 1)
    }
}

pub proof fn lemma_token_end_bounds(s: Seq<u8>, from: int)
    requires
        0 <= from <= s.len(),
    ensures
        from <= token_end(s, from) <= s.len(),
        token_end(s, from) < s.len() ==> is_space(s[token_end(s, from)]),
        forall|j: int| from <= j < token_end(s, from) ==> !is_space(s[j]),
    decreases s.len() - from,
{
    if from < s.len() && !is_space(s[from]) {
        lemma_token_end_bounds(s, from + 1);
    }
}

/// Pins `token_end` down when the bytes before `j` are not whitespace
/// and `j` is whitespace (or the end).
pub proof fn lemma_token_end_value(s: Seq<u8>, from: int, j: int)
    requires
        0 <= from <= j <= s.len(),
        forall|k: int| from <= k < j ==> !is_space(s[k]),
        j < s.len() ==> is_space(s[j]),
    ensures
        token_end(s, from) == j,
    decreases j - from,
{
    if from < j {
        lemma_token_end_value(s, from + 1, j);
    }
}

/// Exec scan to the end of the token starting at `from`.
pub fn token_end_at(s: &[u8], from: usize) -> (r: usize)
    requires
        from <= s@.len(),
    ensures
        r == token_end(s@, from as int),
{
    let mut i: usize = from;
    while i < s.len()
        invariant
            from <= i <= s@.len(),
            token_end(s@, from as int) == token_end(s@, i as int),
        decreases s@.len() - i,
    {
        let b = s[i];
        if b == 0x20 || (0x09 <= b && b <= 0x0d) {
            return i;
        }
        i = i + 1;
    }
    i
}

/// Index one past the last non-whitespace byte of `s` before `upto`;
/// 0 when `s[..upto]` is all whitespace.
pub open spec fn rskip_spaces(s: Seq<u8>, upto: int) -> int
    decreases upto,
{
    if upto <= 0 {
        0
    } else if upto > s.len() {
        rskip_spaces(s, s.len() as int)
    } else if is_space(s[upto - 1]) {
        rskip_spaces(s, upto - 1)
    } else {
        upto
    }
}

pub proof fn lemma_rskip_spaces_bounds(s: Seq<u8>, upto: int)
    requires
        0 <= upto <= s.len(),
    ensures
        0 <= rskip_spaces(s, upto) <= upto,
        rskip_spaces(s, upto) > 0 ==> !is_space(s[rskip_spaces(s, upto) - 1]),
        forall|j: int| rskip_spaces(s, upto) <= j < upto ==> is_space(s[j]),
    decreases upto,
{
    if upto > 0 && is_space(s[upto - 1]) {
        lemma_rskip_spaces_bounds(s, upto - 1);
    }
}

/// Exec scan back over trailing whitespace in `s[..upto]`.
pub fn rskip_spaces_at(s: &[u8], upto: usize) -> (r: usize)
    requires
        upto <= s@.len(),
    ensures
        r == rskip_spaces(s@, upto as int),
{
    let mut i: usize = upto;
    while i > 0
        invariant
            0 <= i <= upto <= s@.len(),
            rskip_spaces(s@, upto as int) == rskip_spaces(s@, i as int),
        decreases i,
    {
        let b = s[i - 1];
        if !(b == 0x20 || (0x09 <= b && b <= 0x0d)) {
            return i;
        }
        i = i - 1;
    }
    i
}

/// `s` with leading and trailing ASCII whitespace removed.
pub open spec fn trim(s: Seq<u8>) -> Seq<u8> {
    let a = skip_spaces(s, 0);
    let b = rskip_spaces(s, s.len() as int);
    if a >= b {
        Seq::empty()
    } else {
        s.subrange(a, b)
    }
}

/// Exec trim of leading and trailing ASCII whitespace.
pub fn trim_spaces(s: &[u8]) -> (r: Vec<u8>)
    ensures
        r@ == trim(s@),
{
    let a = skip_spaces_at(s, 0);
    let b = rskip_spaces_at(s, s.len());
    proof {
        lemma_skip_spaces_bounds(s@, 0);
        lemma_rskip_spaces_bounds(s@, s@.len() as int);
    }
    if a >= b {
        assert(trim(s@) =~= Seq::<u8>::empty());
        Vec::new()
    } else {
        copy_range(s, a, b)
    }
}

} // verus!
