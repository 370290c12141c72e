//! Byte ranges into the source buffer and the low-level scanning primitives
//! that the tokenizer and the attribute extractor share: skipping whitespace,
//! finding a byte, finding the end of a processing instruction, and trimming.
//!
//! Every exec scanner is proved to compute its recursive spec counterpart, so
//! higher layers reason only about the spec functions.

use vstd::prelude::*;

verus! {

/// Byte values the scanners test for: `<` `>` `/` `!` `?` `=` `"` `'` and space.
pub const B_LT: u8 = 60;

pub const B_GT: u8 = 62;

pub const B_SLASH: u8 = 47;

pub const B_BANG: u8 = 33;

pub const B_QUESTION: u8 = 63;

pub const B_EQ: u8 = 61;

pub const B_DQUOTE: u8 = 34;

pub const B_SQUOTE: u8 = 39;

pub const B_SPACE: u8 = 32;

/// A byte range `[start, end)` into the source buffer.  Spans are the only
/// representation of document text in this crate: nothing is copied while
/// scanning, and a span is meaningful only together with the buffer it was
/// produced from.
#[derive(Clone, Copy, Debug, PartialEq, Eq, Structural)]
pub struct Span {
    pub start: usize,
    pub end: usize,
}

impl Span {
    /// The range lies within the buffer.
    pub open spec fn wf(self, buf: Seq<u8>) -> bool {
        self.start <= self.end <= buf.len()
    }

    /// The bytes the range addresses.
    pub open spec fn sub(self, buf: Seq<u8>) -> Seq<u8> {
        buf.subrange(self.start as int, self.end as int)
    }

    pub open spec fn spec_len(self) -> int {
        self.end - self.start
    }
}

/// ASCII whitespace, as the tokenizer understands it.
pub open spec fn is_ws(b: u8) -> bool {
    b == B_SPACE || b == 9 || b == 10 || b == 12 || b == 13
}

/// A byte that ends a tag name: anything at or below the space byte, or `/`.
pub open spec fn is_name_stop(b: u8) -> bool {
    b <= B_SPACE || b == B_SLASH
}

/// A byte that ends an attribute key: `=`, whitespace, `>` or `/`.
pub open spec fn is_key_stop(b: u8) -> bool {
    b == B_EQ || is_ws(b) || b == B_GT || b == B_SLASH
}

/// A byte that ends an unquoted attribute value: whitespace, `>` or `/`.
pub open spec fn is_value_stop(b: u8) -> bool {
    is_ws(b) || b == B_GT || b == B_SLASH
}

/// First position at or after `pos` holding a non-whitespace byte, or the
/// buffer length if only whitespace remains.
pub open spec fn skip_ws(buf: Seq<u8>, pos: int) -> int
    decreases buf.len() - pos,
{
    if pos >= buf.len() {
        buf.len() as int
    } else if is_ws(buf[pos]) {
        skip_ws(buf, pos + 1)
    } else {
        pos
    }
}

pub proof fn lemma_skip_ws(buf: Seq<u8>, pos: int)
    requires
        0 <= pos <= buf.len(),
    ensures
        pos <= skip_ws(buf, pos) <= buf.len(),
        forall|j: int| pos <= j < skip_ws(buf, pos) ==> is_ws(buf[j]),
        skip_ws(buf, pos) < buf.len() ==> !is_ws(buf[skip_ws(buf, pos)]),
    decreases buf.len() - pos,
{
    if pos < buf.len() && is_ws(buf[pos]) {
        lemma_skip_ws(buf, pos + 1);
    }
}

/// First position at or after `pos` holding byte `b`, if any.
pub open spec fn find_byte(buf: Seq<u8>, pos: int, b: u8) -> Option<int>
    decreases buf.len() - pos,
{
    if pos >= buf.len() {
        None
    } else if buf[pos] == b {
        Some(pos)
    } else {
        find_byte(buf, pos + 1, b)
    }
}

pub proof fn lemma_find_byte(buf: Seq<u8>, pos: int, b: u8)
    requires
        0 <= pos,
    ensures
        find_byte(buf, pos, b) matches Some(i) ==> pos <= i < buf.len() && buf[i] == b
            && forall|j: int| pos <= j < i ==> buf[j] != b,
        find_byte(buf, pos, b) is None ==> forall|j: int| pos <= j < buf.len() ==> buf[j] != b,
    decreases buf.len() - pos,
{
    if pos < buf.len() && buf[pos] != b {
        lemma_find_byte(buf, pos + 1, b);
    }
}

/// First position at or after `pos` where `?>` begins, if any.
pub open spec fn find_pi_end(buf: Seq<u8>, pos: int) -> Option<int>
    decreases buf.len() - pos,
{
    if pos + 2 > buf.len() {
        None
    } else if buf[pos] == B_QUESTION && buf[pos + 1] == B_GT {
        Some(pos)
    } else {
        find_pi_end(buf, pos + 1)
    }
}

pub proof fn lemma_find_pi_end(buf: Seq<u8>, pos: int)
    requires
        0 <= pos,
    ensures
        find_pi_end(buf, pos) matches Some(i) ==> pos <= i && i + 2 <= buf.len()
            && buf[i] == B_QUESTION && buf[i + 1] == B_GT,
    decreases buf.len() - pos,
{
    if pos + 2 <= buf.len() && !(buf[pos] == B_QUESTION && buf[pos + 1] == B_GT) {
        lemma_find_pi_end(buf, pos + 1);
    }
}

/// First position in `[pos, end)` whose byte satisfies `stop`, or `end`.
pub open spec fn scan_until(buf: Seq<u8>, pos: int, end: int, stop: spec_fn(u8) -> bool) -> int
    decreases end - pos,
{
    if pos >= end {
        end
    } else if stop(buf[pos]) {
        pos
    } else {
        scan_until(buf, pos + 1, end, stop)
    }
}

pub proof fn lemma_scan_until(buf: Seq<u8>, pos: int, end: int, stop: spec_fn(u8) -> bool)
    requires
        0 <= pos <= end,
    ensures
        pos <= scan_until(buf, pos, end, stop) <= end,
        forall|j: int| pos <= j < scan_until(buf, pos, end, stop) ==> !stop(buf[j]),
        scan_until(buf, pos, end, stop) < end ==> stop(buf[scan_until(buf, pos, end, stop)]),
    decreases end - pos,
{
    if pos < end && !stop(buf[pos]) {
        lemma_scan_until(buf, pos + 1, end, stop);
    }
}

/// Largest position in `[start, end]` such that no trailing whitespace
/// remains in `[start, result)`.
pub open spec fn trim_end(buf: Seq<u8>, start: int, end: int) -> int
    decreases end - start,
{
    if end <= start {
        end
    } else if is_ws(buf[end - 1]) {
        trim_end(buf, start, end - 1)
    } else {
        end
    }
}

pub proof fn lemma_trim_end(buf: Seq<u8>, start: int, end: int)
    requires
        0 <= start <= end <= buf.len(),
    ensures
        start <= trim_end(buf, start, end) <= end,
        trim_end(buf, start, end) > start ==> !is_ws(buf[trim_end(buf, start, end) - 1]),
        start < end && !is_ws(buf[start]) ==> trim_end(buf, start, end) > start,
    decreases end - start,
{
    if end > start && is_ws(buf[end - 1]) {
        lemma_trim_end(buf, start, end - 1);
    }
}

/// Identifies `skip_ws` from a witness: a run of whitespace from `pos` to
/// `r`, with `r` at the end of the buffer or at a non-whitespace byte.
pub proof fn lemma_skip_ws_exact(buf: Seq<u8>, pos: int, r: int)
    requires
        0 <= pos <= r <= buf.len(),
        forall|j: int| pos <= j < r ==> is_ws(buf[j]),
        r < buf.len() ==> !is_ws(buf[r]),
    ensures
        skip_ws(buf, pos) == r,
    decreases r - pos,
{
    if pos < r {
        lemma_skip_ws_exact(buf, pos + 1, r);
    }
}

/// Identifies `find_byte` from a witness: `b` occurs first at `r`.
pub proof fn lemma_find_byte_exact(buf: Seq<u8>, pos: int, b: u8, r: int)
    requires
        0 <= pos <= r < buf.len(),
        buf[r] == b,
        forall|j: int| pos <= j < r ==> buf[j] != b,
    ensures
        find_byte(buf, pos, b) == Some(r),
    decreases r - pos,
{
    if pos < r {
        lemma_find_byte_exact(buf, pos + 1, b, r);
    }
}

/// Identifies `scan_until` from a witness: no stop byte before `r`, and `r`
/// is the region end or holds a stop byte.
pub proof fn lemma_scan_until_exact(
    buf: Seq<u8>,
    pos: int,
    end: int,
    stop: spec_fn(u8) -> bool,
    r: int,
)
    requires
        0 <= pos <= r <= end,
        forall|j: int| pos <= j < r ==> !stop(buf[j]),
        r < end ==> stop(buf[r]),
    ensures
        scan_until(buf, pos, end, stop) == r,
    decreases r - pos,
{
    if pos < r {
        lemma_scan_until_exact(buf, pos + 1, end, stop, r);
    }
}

/// Whether byte `b` is ASCII whitespace.
pub fn is_ws_byte(b: u8) -> (r: bool)
    ensures
        r == is_ws(b),
{
    b == B_SPACE || b == 9 || b == 10 || b == 12 || b == 13
}

/// First position at or after `pos` holding a non-whitespace byte.
pub fn skip_ws_exec(xml: &[u8], pos: usize) -> (r: usize)
    requires
        pos <= xml@.len(),
    ensures
        r as int == skip_ws(xml@, pos as int),
        pos <= r <= xml@.len(),
{
    let n: usize = xml.len();
    let mut i: usize = pos;
    while i < n && is_ws_byte(xml[i])
        invariant
            pos <= i <= n,
            n == xml@.len(),
            skip_ws(xml@, pos as int) == skip_ws(xml@, i as int),
        decreases n - i,
    {
        i = i + 1;
    }
    i
}

/// First position at or after `pos` holding byte `b`, if any.
pub fn find_byte_exec(xml: &[u8], pos: usize, b: u8) -> (r: Option<usize>)
    requires
        pos <= xml@.len(),
    ensures
        match r {
            Some(i) => pos <= i < xml@.len() && find_byte(xml@, pos as int, b) == Some(i as int),
            None => find_byte(xml@, pos as int, b) is None,
        },
{
    let n: usize = xml.len();
    let mut i: usize = pos;
    while i < n && xml[i] != b
        invariant
            pos <= i <= n,
            n == xml@.len(),
            find_byte(xml@, pos as int, b) == find_byte(xml@, i as int, b),
        decreases n - i,
    {
        i = i + 1;
    }
    if i < n {
        Some(i)
    } else {
        None
    }
}

/// First position at or after `pos` where `?>` begins, if any.
pub fn find_pi_end_exec(xml: &[u8], pos: usize) -> (r: Option<usize>)
    requires
        pos <= xml@.len(),
    ensures
        match r {
            Some(i) => pos <= i && i + 2 <= xml@.len() && find_pi_end(xml@, pos as int) == Some(
                i as int,
            ),
            None => find_pi_end(xml@, pos as int) is None,
        },
{
    let n: usize = xml.len();
    let mut i: usize = pos;
    while n - i > 1 && !(xml[i] == B_QUESTION && xml[i + 1] == B_GT)
        invariant
            pos <= i <= n,
            n == xml@.len(),
            find_pi_end(xml@, pos as int) == find_pi_end(xml@, i as int),
        decreases n - i,
    {
        i = i + 1;
    }
    if n - i > 1 {
        Some(i)
    } else {
        None
    }
}

/// First position in `[pos, end)` holding a name-ending byte, or `end`.
pub fn scan_name_end(xml: &[u8], pos: usize, end: usize) -> (r: usize)
    requires
        pos <= end <= xml@.len(),
    ensures
        r as int == scan_until(xml@, pos as int, end as int, |b: u8| is_name_stop(b)),
        pos <= r <= end,
{
    let mut i: usize = pos;
    while i < end && !(xml[i] <= B_SPACE || xml[i] == B_SLASH)
        invariant
            pos <= i <= end <= xml@.len(),
            scan_until(xml@, pos as int, end as int, |b: u8| is_name_stop(b))
                == scan_until(xml@, i as int, end as int, |b: u8| is_name_stop(b)),
        decreases end - i,
    {
        i = i + 1;
    }
    i
}

/// First position in `[pos, len)` holding a key-ending byte, or the length.
pub fn scan_key_end(xml: &[u8], pos: usize) -> (r: usize)
    requires
        pos <= xml@.len(),
    ensures
        r as int == scan_until(xml@, pos as int, xml@.len() as int, |b: u8| is_key_stop(b)),
        pos <= r <= xml@.len(),
{
    let n: usize = xml.len();
    let mut i: usize = pos;
    while i < n && !(xml[i] == B_EQ || is_ws_byte(xml[i]) || xml[i] == B_GT || xml[i] == B_SLASH)
        invariant
            pos <= i <= n,
            n == xml@.len(),
            scan_until(xml@, pos as int, n as int, |b: u8| is_key_stop(b))
                == scan_until(xml@, i as int, n as int, |b: u8| is_key_stop(b)),
        decreases n - i,
    {
        i = i + 1;
    }
    i
}

/// First position in `[pos, len)` holding a value-ending byte, or the length.
pub fn scan_value_end(xml: &[u8], pos: usize) -> (r: usize)
    requires
        pos <= xml@.len(),
    ensures
        r as int == scan_until(xml@, pos as int, xml@.len() as int, |b: u8| is_value_stop(b)),
        pos <= r <= xml@.len(),
{
    let n: usize = xml.len();
    let mut i: usize = pos;
    while i < n && !(is_ws_byte(xml[i]) || xml[i] == B_GT || xml[i] == B_SLASH)
        invariant
            pos <= i <= n,
            n == xml@.len(),
            scan_until(xml@, pos as int, n as int, |b: u8| is_value_stop(b))
                == scan_until(xml@, i as int, n as int, |b: u8| is_value_stop(b)),
        decreases n - i,
    {
        i = i + 1;
    }
    i
}

/// Largest position in `[start, end]` with no trailing whitespace before it.
pub fn trim_end_exec(xml: &[u8], start: usize, end: usize) -> (r: usize)
    requires
        start <= end <= xml@.len(),
    ensures
        r as int == trim_end(xml@, start as int, end as int),
        start <= r <= end,
{
    let mut e: usize = end;
    while e > start && is_ws_byte(xml[e - 1])
        invariant
            start <= e <= end <= xml@.len(),
            trim_end(xml@, start as int, end as int) == trim_end(xml@, start as int, e as int),
        decreases e,
    {
        e = e - 1;
    }
    e
}

/// Copies the bytes a span addresses out of the buffer.
pub fn span_bytes(xml: &[u8], s: Span) -> (r: Vec<u8>)
    requires
        s.wf(xml@),
    ensures
        r@ == s.sub(xml@),
{
    let mut out: Vec<u8> = Vec::new();
    let mut i: usize = s.start;
    while i < s.end
        invariant
            s.start <= i <= s.end <= xml@.len(),
            out@ == xml@.subrange(s.start as int, i as int),
        decreases s.end - i,
    {
        out.push(xml[i]);
        proof {
            assert(out@ =~= xml@.subrange(s.start as int, i + 1));
        }
        i = i + 1;
    }
    proof {
        assert(out@ =~= s.sub(xml@));
    }
    out
}

/// Whether two spans address the same bytes.
pub fn bytes_range_eq(xml: &[u8], a: Span, b: Span) -> (r: bool)
    requires
        a.wf(xml@),
        b.wf(xml@),
    ensures
        r == (a.sub(xml@) == b.sub(xml@)),
{
    let alen: usize = a.end - a.start;
    let blen: usize = b.end - b.start;
    if alen != blen {
        proof {
            assert(a.sub(xml@).len() != b.sub(xml@).len());
        }
        return false;
    }
    let mut i: usize = 0;
    while i < alen
        invariant
            0 <= i <= alen,
            alen == a.spec_len() == b.spec_len(),
            a.wf(xml@),
            b.wf(xml@),
            forall|j: int| 0 <= j < i ==> a.sub(xml@)[j] == b.sub(xml@)[j],
        decreases alen - i,
    {
        if xml[a.start + i] != xml[b.start + i] {
            proof {
                assert(a.sub(xml@)[i as int] != b.sub(xml@)[i as int]);
            }
            return false;
        }
        proof {
            assert(a.sub(xml@)[i as int] == b.sub(xml@)[i as int]);
        }
        i = i + 1;
    }
    proof {
        assert(a.sub(xml@) =~= b.sub(xml@));
    }
    true
}

} // verus!
