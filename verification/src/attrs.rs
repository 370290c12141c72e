//! The attribute extractor: re-enters the buffer at a start tag's `<`,
//! skips the tag name, and splits the raw attribute text into key/value
//! pairs, each a byte range into the buffer.
//!
//! Attribute parsing is decoupled from tokenization so its cost is paid only
//! when a caller actually inspects a node.  Values may be quoted with `"` or
//! `'` (the quotes are excluded, and nothing inside them is decoded) or
//! unquoted (ending at whitespace, `>` or `/`).  An attribute token with no
//! `=` is skipped, and a value whose closing quote is missing ends the
//! extraction: the same leniency toward malformed input as the tokenizer's.

use vstd::prelude::*;

use crate::scan::{
    Span, is_ws, is_key_stop, is_value_stop, skip_ws, find_byte, scan_until,
    lemma_skip_ws, lemma_find_byte, lemma_scan_until,
    skip_ws_exec, find_byte_exec, scan_key_end, scan_value_end,
    lemma_skip_ws_exact, lemma_find_byte_exact, lemma_scan_until_exact,
    B_GT, B_SLASH, B_EQ, B_DQUOTE, B_SQUOTE, B_LT, B_SPACE,
};

verus! {

/// The attribute pairs recognized from `pos` onward, `pos` standing just
/// after the tag name.  One recursion step per attribute: skip whitespace;
/// stop at the end of the buffer, `>` or `/`; read a key up to `=`,
/// whitespace, `>` or `/`; after `=`, read a quoted or unquoted value.
pub open spec fn attrs_from(buf: Seq<u8>, pos: int) -> Seq<(Span, Span)>
    decreases buf.len() - pos
        when 0 <= pos
        via attrs_from_decreases
{
    let p = skip_ws(buf, pos);
    if p >= buf.len() || buf[p] == B_GT || buf[p] == B_SLASH {
        Seq::empty()
    } else {
        let ke = scan_until(buf, p, buf.len() as int, |b: u8| is_key_stop(b));
        let key = Span { start: p as usize, end: ke as usize };
        let q = skip_ws(buf, ke);
        if q < buf.len() && buf[q] == B_EQ {
            let v = skip_ws(buf, q + 1);
            if v >= buf.len() {
                Seq::empty()
            } else if buf[v] == B_DQUOTE || buf[v] == B_SQUOTE {
                match find_byte(buf, v + 1, buf[v]) {
                    Some(c) => seq![(key, Span { start: (v + 1) as usize, end: c as usize })]
                        + attrs_from(buf, c + 1),
                    None => Seq::empty(),
                }
            } else {
                let ve = scan_until(buf, v, buf.len() as int, |b: u8| is_value_stop(b));
                seq![(key, Span { start: v as usize, end: ve as usize })] + attrs_from(buf, ve)
            }
        } else {
            attrs_from(buf, ke)
        }
    }
}

#[via_fn]
proof fn attrs_from_decreases(buf: Seq<u8>, pos: int) {
    if pos <= buf.len() {
        lemma_skip_ws(buf, pos);
        let p = skip_ws(buf, pos);
        if !(p >= buf.len() || buf[p] == B_GT || buf[p] == B_SLASH) {
            lemma_scan_until(buf, p, buf.len() as int, |b: u8| is_key_stop(b));
            let ke = scan_until(buf, p, buf.len() as int, |b: u8| is_key_stop(b));
            lemma_skip_ws(buf, ke);
            let q = skip_ws(buf, ke);
            if q < buf.len() && buf[q] == B_EQ {
                lemma_skip_ws(buf, q + 1);
                let v = skip_ws(buf, q + 1);
                if v < buf.len() {
                    if buf[v] == B_DQUOTE || buf[v] == B_SQUOTE {
                        lemma_find_byte(buf, v + 1, buf[v]);
                    } else {
                        lemma_scan_until(buf, v, buf.len() as int, |b: u8| is_value_stop(b));
                    }
                }
            } else {
                if ke == p {
                    assert(is_key_stop(buf[p]));
                    assert(skip_ws(buf, p) == p);
                    assert(false);
                }
            }
        }
    }
}

/// The attribute pairs of the tag whose `<` stands at `off`: skip the `<`
/// and the tag name, then read attributes.  Anything but a `<` at `off`
/// yields no attributes.
pub open spec fn spec_attributes(buf: Seq<u8>, off: int) -> Seq<(Span, Span)> {
    if 0 <= off < buf.len() && buf[off] == B_LT {
        attrs_from(buf, scan_until(buf, off + 1, buf.len() as int, |b: u8| is_value_stop(b)))
    } else {
        Seq::empty()
    }
}

/// Splits the raw attribute text of the tag at `offset` into key/value
/// pairs, in document order, without copying.
pub fn extract_attributes(xml: &[u8], offset: usize) -> (r: Vec<(Span, Span)>)
    ensures
        r@ == spec_attributes(xml@, offset as int),
        forall|i: int| 0 <= i < r@.len() ==> (#[trigger] r@[i]).0.wf(xml@) && r@[i].1.wf(xml@),
{
    let mut attrs: Vec<(Span, Span)> = Vec::new();
    let n: usize = xml.len();
    if !(offset < n && xml[offset] == B_LT) {
        return attrs;
    }
    let mut off: usize = scan_value_end(xml, offset + 1);
    loop
        invariant
            off <= n,
            n == xml@.len(),
            spec_attributes(xml@, offset as int) == attrs@ + attrs_from(xml@, off as int),
            forall|i: int| 0 <= i < attrs@.len() ==> (#[trigger] attrs@[i]).0.wf(xml@)
                && attrs@[i].1.wf(xml@),
        decreases n - off,
    {
        let ghost entry: int = off as int;
        let p: usize = skip_ws_exec(xml, off);
        if p >= n || xml[p] == B_GT || xml[p] == B_SLASH {
            proof {
                assert(attrs_from(xml@, entry) =~= Seq::<(Span, Span)>::empty());
                assert(spec_attributes(xml@, offset as int) =~= attrs@);
            }
            return attrs;
        }
        let ke: usize = scan_key_end(xml, p);
        let key = Span { start: p, end: ke };
        let q: usize = skip_ws_exec(xml, ke);
        if q < n && xml[q] == B_EQ {
            let v: usize = skip_ws_exec(xml, q + 1);
            if v >= n {
                proof {
                    assert(attrs_from(xml@, entry) =~= Seq::<(Span, Span)>::empty());
                    assert(spec_attributes(xml@, offset as int) =~= attrs@);
                }
                return attrs;
            }
            let quote: u8 = xml[v];
            if quote == B_DQUOTE || quote == B_SQUOTE {
                match find_byte_exec(xml, v + 1, quote) {
                    Some(c) => {
                        let val = Span { start: v + 1, end: c };
                        let ghost before = attrs@;
                        attrs.push((key, val));
                        proof {
                            assert(attrs_from(xml@, entry) == seq![(key, val)] + attrs_from(
                                xml@,
                                c + 1,
                            ));
                            assert(before + attrs_from(xml@, entry) =~= attrs@ + attrs_from(
                                xml@,
                                c + 1,
                            ));
                        }
                        off = c + 1;
                    },
                    None => {
                        proof {
                            assert(attrs_from(xml@, entry) =~= Seq::<(Span, Span)>::empty());
                            assert(spec_attributes(xml@, offset as int) =~= attrs@);
                        }
                        return attrs;
                    },
                }
            } else {
                let ve: usize = scan_value_end(xml, v);
                let val = Span { start: v, end: ve };
                let ghost before = attrs@;
                attrs.push((key, val));
                proof {
                    assert(attrs_from(xml@, entry) == seq![(key, val)] + attrs_from(
                        xml@,
                        ve as int,
                    ));
                    assert(before + attrs_from(xml@, entry) =~= attrs@ + attrs_from(
                        xml@,
                        ve as int,
                    ));
                    if ve == v {
                        assert(n - ve < n - entry);
                    }
                }
                off = ve;
            }
        } else {
            proof {
                lemma_skip_ws(xml@, entry);
                lemma_scan_until(xml@, p as int, n as int, |b: u8| is_key_stop(b));
                if ke == p {
                    assert(is_key_stop(xml@[p as int]));
                    assert(!is_ws(xml@[p as int]));
                    assert(skip_ws(xml@, p as int) == p);
                    assert(false);
                }
                assert(attrs_from(xml@, entry) == attrs_from(xml@, ke as int));
            }
            off = ke;
        }
    }
}

/// A tag whose name is immediately followed by `>` or `/` carries no
/// attributes: an empty raw attribute region yields an empty sequence.
pub proof fn lemma_no_attributes(buf: Seq<u8>, pos: int)
    requires
        0 <= pos < buf.len(),
        buf[pos] == B_GT || buf[pos] == B_SLASH,
    ensures
        attrs_from(buf, pos) == Seq::<(Span, Span)>::empty(),
{
    assert(skip_ws(buf, pos) == pos);
}

/// The byte shape of raw attribute text `k1="v1" k2="v2"` followed by `>`:
/// entered at `pos` with only whitespace before the first key; two keys of
/// bytes that end no key; two double-quoted values; one space between the
/// pairs; a `>` right after the second closing quote.
pub open spec fn two_quoted_attrs_shape(
    buf: Seq<u8>,
    pos: int,
    k1: Span,
    v1: Span,
    k2: Span,
    v2: Span,
) -> bool {
    &&& 0 <= pos
    &&& skip_ws(buf, pos) == k1.start as int
    &&& k1.start < k1.end
    &&& forall|j: int| k1.start <= j < k1.end ==> !is_key_stop(#[trigger] buf[j])
    &&& k1.end + 2 == v1.start
    &&& buf[k1.end as int] == B_EQ
    &&& buf[k1.end + 1] == B_DQUOTE
    &&& v1.start <= v1.end
    &&& forall|j: int| v1.start <= j < v1.end ==> buf[j] != B_DQUOTE
    &&& buf[v1.end as int] == B_DQUOTE
    &&& buf[v1.end + 1] == B_SPACE
    &&& v1.end + 2 == k2.start
    &&& k2.start < k2.end
    &&& forall|j: int| k2.start <= j < k2.end ==> !is_key_stop(#[trigger] buf[j])
    &&& k2.end + 2 == v2.start
    &&& buf[k2.end as int] == B_EQ
    &&& buf[k2.end + 1] == B_DQUOTE
    &&& v2.start <= v2.end
    &&& forall|j: int| v2.start <= j < v2.end ==> buf[j] != B_DQUOTE
    &&& buf[v2.end as int] == B_DQUOTE
    &&& v2.end + 1 < buf.len()
    &&& buf[v2.end + 1] == B_GT
}

/// Raw attribute text of the shape `k1="v1" k2="v2"` is split into exactly
/// those two pairs, in document order.
pub proof fn lemma_two_quoted_attributes(
    buf: Seq<u8>,
    pos: int,
    k1: Span,
    v1: Span,
    k2: Span,
    v2: Span,
)
    requires
        buf.len() <= usize::MAX,
        two_quoted_attrs_shape(buf, pos, k1, v1, k2, v2),
    ensures
        attrs_from(buf, pos) == seq![(k1, v1), (k2, v2)],
{
    let stop_key = |b: u8| is_key_stop(b);
    let len = buf.len() as int;

    // First attribute.
    lemma_skip_ws(buf, pos);
    lemma_scan_until_exact(buf, k1.start as int, len, stop_key, k1.end as int);
    assert(skip_ws(buf, k1.end as int) == k1.end);
    assert(!is_ws(B_DQUOTE));
    assert(skip_ws(buf, k1.end + 1) == k1.end + 1);
    lemma_find_byte_exact(buf, v1.start as int, B_DQUOTE, v1.end as int);
    assert(attrs_from(buf, pos) == seq![(k1, v1)] + attrs_from(buf, v1.end + 1));

    // Second attribute, after the single separating space.
    assert(is_ws(buf[v1.end + 1]));
    assert(!is_ws(buf[k2.start as int]));
    lemma_skip_ws_exact(buf, v1.end + 1, k2.start as int);
    lemma_scan_until_exact(buf, k2.start as int, len, stop_key, k2.end as int);
    assert(skip_ws(buf, k2.end as int) == k2.end);
    assert(skip_ws(buf, k2.end + 1) == k2.end + 1);
    lemma_find_byte_exact(buf, v2.start as int, B_DQUOTE, v2.end as int);
    assert(attrs_from(buf, v1.end + 1) == seq![(k2, v2)] + attrs_from(buf, v2.end + 1));

    // The `>` ends the extraction.
    assert(skip_ws(buf, v2.end + 1) == v2.end + 1);
    assert(attrs_from(buf, v2.end + 1) =~= Seq::<(Span, Span)>::empty());

    assert(attrs_from(buf, pos) =~= seq![(k1, v1), (k2, v2)]);
}

/// A node whose raw attribute text has the shape `k1="v1" k2="v2"` has
/// exactly those two attribute pairs, in document order: the law carried
/// through to the tag itself.  `off` is the position of the tag's `<` and
/// `ne` the end of its name, the whitespace byte before the first key.
pub proof fn lemma_attributes_two_quoted(
    buf: Seq<u8>,
    off: int,
    ne: int,
    k1: Span,
    v1: Span,
    k2: Span,
    v2: Span,
)
    requires
        buf.len() <= usize::MAX,
        0 <= off < ne < buf.len(),
        buf[off] == B_LT,
        forall|j: int| off + 1 <= j < ne ==> !is_value_stop(#[trigger] buf[j]),
        is_ws(buf[ne]),
        two_quoted_attrs_shape(buf, ne, k1, v1, k2, v2),
    ensures
        spec_attributes(buf, off) == seq![(k1, v1), (k2, v2)],
{
    lemma_scan_until_exact(buf, off + 1, buf.len() as int, |b: u8| is_value_stop(b), ne);
    lemma_two_quoted_attributes(buf, ne, k1, v1, k2, v2);
}

/// A tag `<name>` whose name is immediately followed by the closing `>` (or
/// the `/` of a self-closing tag) has no attributes: an empty raw attribute
/// region yields an empty sequence, carried through to the tag itself.
pub proof fn lemma_attributes_empty_tag(buf: Seq<u8>, off: int, ne: int)
    requires
        0 <= off < ne < buf.len(),
        buf[off] == B_LT,
        forall|j: int| off + 1 <= j < ne ==> !is_value_stop(#[trigger] buf[j]),
        buf[ne] == B_GT || buf[ne] == B_SLASH,
    ensures
        spec_attributes(buf, off) == Seq::<(Span, Span)>::empty(),
{
    lemma_scan_until_exact(buf, off + 1, buf.len() as int, |b: u8| is_value_stop(b), ne);
    lemma_no_attributes(buf, ne);
}

} // verus!
