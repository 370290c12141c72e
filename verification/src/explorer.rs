//! The explorer: root discovery, parent-to-child resolution and attribute
//! access over the source buffer, with memoization keyed by byte offset.
//!
//! A [`Node`] names an element occurrence by the byte position of its
//! opening `<`; that offset is the only cache key, since tag names are not
//! unique but an offset identifies one syntactic occurrence for the lifetime
//! of the buffer.  Child resolution re-enters the buffer at the parent's
//! offset and scans only as far as the parent's matching end tag, tracking
//! nesting depth; the spec function [`child_fold`] states that scan as a
//! fold over the token stream, and the executable resolver is proved to
//! compute it.  Resolved child lists are cached: a second resolution of the
//! same offset performs no scan and returns the identical list.

use vstd::prelude::*;

use crate::scan::{Span, bytes_range_eq};
use crate::tokenizer::{
    Token, Tokenizer, step, stream_from, starts_at, lemma_step_tokens, lemma_stream_len,
};
use crate::attrs::{spec_attributes, extract_attributes};

verus! {

/// A resolved element identity: its tag name, the first direct text run (if
/// one was found before any sibling element closed), the byte position of
/// its opening `<`, and its raw attribute text.  All ranges borrow from the
/// source buffer; a node is freely copied.
#[derive(Clone, Copy, Debug, PartialEq, Eq)]
pub struct Node {
    pub tag: Span,
    pub text: Option<Span>,
    pub offset: usize,
    pub attributes_raw: Span,
}

impl Node {
    /// The start-tag token this node stands for.
    pub open spec fn start_token(self) -> Token {
        Token::StartTag { pos: self.offset, name: self.tag, attrs: self.attributes_raw }
    }

    /// The node denotes a real start tag: the parsing step taken at its
    /// offset re-reads exactly this tag.  The one other admitted shape is an
    /// offset past the end of the buffer, the defensive case, for which
    /// every query yields nothing.
    pub open spec fn wf(self, buf: Seq<u8>) -> bool {
        ||| self.offset >= buf.len()
        ||| {
            &&& starts_at(buf, self.start_token())
            &&& match self.text {
                Some(t) => t.wf(buf) && t.start < t.end,
                None => true,
            }
        }
    }
}

/// The node's ranges lie within the buffer.
pub open spec fn node_spans_wf(buf: Seq<u8>, n: Node) -> bool {
    &&& n.tag.wf(buf)
    &&& n.attributes_raw.wf(buf)
    &&& match n.text {
        Some(t) => t.wf(buf),
        None => true,
    }
}

/// Every node of the sequence is well-formed with in-range spans.
pub open spec fn nodes_ok(buf: Seq<u8>, ns: Seq<Node>) -> bool {
    forall|i: int| 0 <= i < ns.len() ==> (#[trigger] ns[i]).wf(buf) && node_spans_wf(buf, ns[i])
}

/// The state of a child-resolution scan: whether the parent's own opening
/// tag has been consumed, the nesting depth below the parent, the candidate
/// child whose end tag has not been seen yet, and the children found so
/// far.
pub ghost struct ChildScan {
    pub inside: bool,
    pub depth: int,
    pub pending: Option<Node>,
    pub found: Seq<Node>,
}

pub open spec fn child_scan_init() -> ChildScan {
    ChildScan { inside: false, depth: 0, pending: None, found: Seq::empty() }
}

/// One token's effect on a child-resolution scan for a parent tagged
/// `ptag`.  Returns the successor state and whether the scan stops (the
/// parent's own end tag was reached).
///
/// - Before the parent's opening tag is seen, only a start tag whose name
///   matches `ptag` changes anything: it marks the scan as inside.
/// - Inside, a start tag at depth zero begins a candidate child; every
///   start tag deepens the nesting, every end tag undoes one level.
/// - An end tag returning the depth to zero either ends the scan (name
///   matches the parent) or completes the candidate child.
/// - A text run at depth one becomes the candidate's leaf text, first
///   non-empty run only.
pub open spec fn child_step(buf: Seq<u8>, ptag: Seq<u8>, st: ChildScan, t: Token) -> (
    ChildScan,
    bool,
) {
    match t {
        Token::StartTag { pos, name, attrs } => {
            if !st.inside {
                if name.sub(buf) == ptag {
                    (ChildScan { inside: true, ..st }, false)
                } else {
                    (st, false)
                }
            } else {
                let st1 = if st.depth == 0 {
                    ChildScan {
                        pending: Some(
                            Node { tag: name, text: None, offset: pos, attributes_raw: attrs },
                        ),
                        ..st
                    }
                } else {
                    st
                };
                (ChildScan { depth: st1.depth + 1, ..st1 }, false)
            }
        },
        Token::EndTag { name } => {
            if st.inside {
                let d = if st.depth > 0 {
                    st.depth - 1
                } else {
                    0
                };
                if d == 0 && name.sub(buf) == ptag {
                    (ChildScan { depth: d, ..st }, true)
                } else if d == 0 && st.pending is Some {
                    (
                        ChildScan {
                            depth: d,
                            pending: None,
                            found: st.found.push(st.pending->0),
                            ..st
                        },
                        false,
                    )
                } else {
                    (ChildScan { depth: d, ..st }, false)
                }
            } else {
                (st, false)
            }
        },
        Token::Text { content } => {
            match st.pending {
                Some(nd) => if st.depth == 1 && nd.text is None {
                    (
                        ChildScan {
                            pending: Some(
                                Node {
                                    tag: nd.tag,
                                    text: Some(content),
                                    offset: nd.offset,
                                    attributes_raw: nd.attributes_raw,
                                },
                            ),
                            ..st
                        },
                        false,
                    )
                } else {
                    (st, false)
                },
                None => (st, false),
            }
        },
    }
}

/// The children a scan in state `st` finds in the remaining tokens.
pub open spec fn child_fold(buf: Seq<u8>, ptag: Seq<u8>, st: ChildScan, toks: Seq<Token>) -> Seq<
    Node,
>
    decreases toks.len(),
{
    if toks.len() == 0 {
        st.found
    } else {
        let r = child_step(buf, ptag, st, toks[0]);
        if r.1 {
            r.0.found
        } else {
            child_fold(buf, ptag, r.0, toks.drop_first())
        }
    }
}

/// The direct children of the element at `off` whose tag bytes are `ptag`.
pub open spec fn spec_children(buf: Seq<u8>, off: int, ptag: Seq<u8>) -> Seq<Node> {
    child_fold(buf, ptag, child_scan_init(), stream_from(buf, off))
}

/// The direct children of the element whose opening `<` stands at `off`,
/// with the parent tag read off the buffer itself.  Anything but a start
/// tag at `off` yields no children.
pub open spec fn spec_children_at(buf: Seq<u8>, off: int) -> Seq<Node> {
    if 0 <= off {
        match step(buf, off) {
            Some(s) => if s.toks.len() > 0 && s.toks[0] is StartTag {
                spec_children(buf, off, s.toks[0]->StartTag_name.sub(buf))
            } else {
                Seq::empty()
            },
            None => Seq::empty(),
        }
    } else {
        Seq::empty()
    }
}

/// For a well-formed node the buffer-derived and the node-carried parent
/// tag agree, so the two child views coincide.
pub proof fn lemma_children_at_of_wf(buf: Seq<u8>, parent: Node)
    requires
        parent.wf(buf),
    ensures
        spec_children_at(buf, parent.offset as int) == spec_children(
            buf,
            parent.offset as int,
            parent.tag.sub(buf),
        ),
{
    if parent.offset >= buf.len() {
        assert(step(buf, parent.offset as int) is None);
        assert(stream_from(buf, parent.offset as int) =~= Seq::<Token>::empty());
        assert(spec_children(buf, parent.offset as int, parent.tag.sub(buf)) =~= Seq::<
            Node,
        >::empty());
    }
}

/// The first start tag of a token stream, if any.
pub open spec fn first_start(toks: Seq<Token>) -> Option<Token>
    decreases toks.len(),
{
    if toks.len() == 0 {
        None
    } else if toks[0] is StartTag {
        Some(toks[0])
    } else {
        first_start(toks.drop_first())
    }
}

/// The document's root node: the first start tag of the whole scan.
pub open spec fn spec_root(buf: Seq<u8>) -> Option<Node> {
    match first_start(stream_from(buf, 0)) {
        Some(t) => Some(
            Node {
                tag: t->StartTag_name,
                text: None,
                offset: t->StartTag_pos,
                attributes_raw: t->StartTag_attrs,
            },
        ),
        None => None,
    }
}

/// Copies a child list.
fn clone_nodes(v: &Vec<Node>) -> (r: Vec<Node>)
    ensures
        r@ == v@,
{
    let mut out: Vec<Node> = Vec::new();
    let mut i: usize = 0;
    while i < v.len()
        invariant
            i <= v@.len(),
            out@ == v@.subrange(0, i as int),
        decreases v@.len() - i,
    {
        out.push(v[i]);
        proof {
            assert(out@ =~= v@.subrange(0, i + 1));
        }
        i = i + 1;
    }
    proof {
        assert(out@ =~= v@);
    }
    out
}

/// Resolves the direct children of `parent` by scanning the buffer from the
/// parent's offset to its matching end tag.
fn parse_children(xml: &[u8], parent: &Node) -> (r: Vec<Node>)
    requires
        parent.wf(xml@),
    ensures
        r@ == spec_children_at(xml@, parent.offset as int),
        nodes_ok(xml@, r@),
{
    let n: usize = xml.len();
    let ghost off: int = parent.offset as int;
    proof {
        lemma_children_at_of_wf(xml@, *parent);
        if parent.offset < n {
            lemma_step_tokens(xml@, off);
        }
        if off <= n {
            lemma_stream_len(xml@, off);
        } else {
            assert(stream_from(xml@, off) =~= Seq::<Token>::empty());
        }
    }
    let ghost full_len: int = stream_from(xml@, off).len() as int;
    let mut tz = Tokenizer::new(parent.offset);
    let mut inside: bool = false;
    let mut depth: usize = 0;
    let mut pending: Option<Node> = None;
    let mut found: Vec<Node> = Vec::new();
    loop
        invariant
            n == xml@.len(),
            tz.wf(xml@),
            parent.tag.wf(xml@) || tz.stream(xml@).len() == 0,
            spec_children_at(xml@, parent.offset as int) == spec_children(
                xml@,
                parent.offset as int,
                parent.tag.sub(xml@),
            ),
            full_len == stream_from(xml@, parent.offset as int).len(),
            full_len <= n,
            depth <= full_len - tz.stream(xml@).len(),
            child_fold(
                xml@,
                parent.tag.sub(xml@),
                ChildScan { inside, depth: depth as int, pending, found: found@ },
                tz.stream(xml@),
            ) == spec_children(xml@, parent.offset as int, parent.tag.sub(xml@)),
            nodes_ok(xml@, found@),
            pending matches Some(nd) ==> nd.wf(xml@) && node_spans_wf(xml@, nd),
        decreases tz.stream(xml@).len(),
    {
        let ghost ptag = parent.tag.sub(xml@);
        let ghost pre_st = ChildScan { inside, depth: depth as int, pending, found: found@ };
        let ghost pre_stream = tz.stream(xml@);
        match tz.next(xml) {
            None => {
                proof {
                    assert(child_fold(xml@, ptag, pre_st, pre_stream) == found@);
                }
                return found;
            },
            Some(t) => {
                proof {
                    assert(pre_stream == seq![t] + tz.stream(xml@));
                    assert(pre_stream[0] == t);
                    assert(pre_stream.drop_first() =~= tz.stream(xml@));
                }
                match t {
                    Token::StartTag { pos, name, attrs } => {
                        if !inside {
                            if bytes_range_eq(xml, name, parent.tag) {
                                inside = true;
                            }
                        } else {
                            if depth == 0 {
                                pending = Some(
                                    Node { tag: name, text: None, offset: pos, attributes_raw: attrs },
                                );
                            }
                            depth = depth + 1;
                        }
                        proof {
                            let post_st = ChildScan {
                                inside,
                                depth: depth as int,
                                pending,
                                found: found@,
                            };
                            assert(child_step(xml@, ptag, pre_st, t) == (post_st, false));
                        }
                    },
                    Token::EndTag { name } => {
                        if inside {
                            if depth > 0 {
                                depth = depth - 1;
                            }
                            if depth == 0 && bytes_range_eq(xml, name, parent.tag) {
                                proof {
                                    let post_st = ChildScan {
                                        inside,
                                        depth: depth as int,
                                        pending,
                                        found: found@,
                                    };
                                    assert(child_step(xml@, ptag, pre_st, t) == (post_st, true));
                                    assert(child_fold(xml@, ptag, pre_st, pre_stream) == found@);
                                }
                                return found;
                            }
                            if depth == 0 {
                                match pending {
                                    Some(nd) => {
                                        found.push(nd);
                                        pending = None;
                                    },
                                    None => {},
                                }
                            }
                        }
                        proof {
                            let post_st = ChildScan {
                                inside,
                                depth: depth as int,
                                pending,
                                found: found@,
                            };
                            assert(child_step(xml@, ptag, pre_st, t) == (post_st, false));
                        }
                    },
                    Token::Text { content } => {
                        match pending {
                            Some(nd) => {
                                if depth == 1 && nd.text.is_none() {
                                    pending = Some(
                                        Node {
                                            tag: nd.tag,
                                            text: Some(content),
                                            offset: nd.offset,
                                            attributes_raw: nd.attributes_raw,
                                        },
                                    );
                                }
                            },
                            None => {},
                        }
                        proof {
                            let post_st = ChildScan {
                                inside,
                                depth: depth as int,
                                pending,
                                found: found@,
                            };
                            assert(child_step(xml@, ptag, pre_st, t) == (post_st, false));
                        }
                    },
                }
            },
        }
    }
}

/// Navigation and data access over one XML document, with memoized child
/// resolution.  The explorer borrows the buffer for its whole lifetime and
/// owns the cache.
pub struct XmlExplorer<'a> {
    xml: &'a [u8],
    cache: Vec<(usize, Vec<Node>)>,
}

impl<'a> XmlExplorer<'a> {
    /// The source buffer this explorer navigates.
    pub closed spec fn buf(&self) -> Seq<u8> {
        self.xml@
    }

    /// The cached child lists, as (parent offset, children) pairs in
    /// insertion order.
    pub closed spec fn cache_entries(&self) -> Seq<(usize, Seq<Node>)> {
        self.cache@.map_values(|e: (usize, Vec<Node>)| (e.0, e.1@))
    }

    /// Whether a child list for `off` has been resolved and cached.
    pub open spec fn has_cached(&self, off: usize) -> bool {
        exists|i: int|
            0 <= i < self.cache_entries().len() && (#[trigger] self.cache_entries()[i]).0 == off
    }

    /// Every cache entry is the child list the buffer determines for its
    /// offset: the cache is pure memoization, never invalidated, because the
    /// buffer is immutable.
    pub open spec fn inv(&self) -> bool {
        forall|i: int|
            0 <= i < self.cache_entries().len() ==> {
                let e = #[trigger] self.cache_entries()[i];
                &&& e.1 == spec_children_at(self.buf(), e.0 as int)
                &&& nodes_ok(self.buf(), e.1)
            }
    }

    pub fn new(xml: &'a [u8]) -> (r: XmlExplorer<'a>)
        ensures
            r.buf() == xml@,
            r.inv(),
            r.cache_entries().len() == 0,
    {
        XmlExplorer { xml, cache: Vec::new() }
    }

    /// How many child-resolution scans have run: one per cached offset.
    pub fn scan_count(&self) -> (r: usize)
        ensures
            r == self.cache_entries().len(),
    {
        self.cache.len()
    }

    /// The root node of the document: the first start tag found scanning
    /// from the beginning, or `None` for a document without elements.
    pub fn root(&self) -> (r: Option<Node>)
        ensures
            r == spec_root(self.buf()),
            r matches Some(nd) ==> nd.wf(self.buf()) && node_spans_wf(self.buf(), nd)
                && nd.text is None && nd.offset < self.buf().len(),
    {
        let mut tz = Tokenizer::new(0);
        loop
            invariant
                tz.wf(self.buf()),
                first_start(stream_from(self.buf(), 0)) == first_start(tz.stream(self.buf())),
            decreases tz.stream(self.buf()).len(),
        {
            let ghost pre_stream = tz.stream(self.buf());
            match tz.next(self.xml) {
                None => {
                    return None;
                },
                Some(t) => {
                    proof {
                        assert(pre_stream == seq![t] + tz.stream(self.buf()));
                        assert(pre_stream[0] == t);
                        assert(pre_stream.drop_first() =~= tz.stream(self.buf()));
                    }
                    match t {
                        Token::StartTag { pos, name, attrs } => {
                            proof {
                                assert(first_start(pre_stream) == Some(t));
                            }
                            return Some(
                                Node { tag: name, text: None, offset: pos, attributes_raw: attrs },
                            );
                        },
                        _ => {
                            proof {
                                assert(first_start(pre_stream) == first_start(
                                    tz.stream(self.buf()),
                                ));
                            }
                        },
                    }
                },
            }
        }
    }

    /// The index of the cache entry for `off`, if one exists.
    fn cache_lookup(&self, off: usize) -> (r: Option<usize>)
        ensures
            match r {
                Some(i) => i < self.cache_entries().len() && self.cache_entries()[i as int].0
                    == off,
                None => !self.has_cached(off),
            },
    {
        let mut i: usize = 0;
        let n: usize = self.cache.len();
        while i < n
            invariant
                i <= n,
                n == self.cache_entries().len(),
                forall|j: int| 0 <= j < i ==> (#[trigger] self.cache_entries()[j]).0 != off,
            decreases n - i,
        {
            if self.cache[i].0 == off {
                return Some(i);
            }
            i = i + 1;
        }
        None
    }

    /// The direct children of `parent`, resolved by one bounded scan at
    /// most: a cached offset is answered from the cache, with no new scan
    /// and no change to the explorer at all.  The result is the child list
    /// the buffer determines for the parent's offset — the same sequence on
    /// every call.
    pub fn children(&mut self, parent: &Node) -> (r: Vec<Node>)
        requires
            old(self).inv(),
            parent.wf(old(self).buf()),
        ensures
            final(self).inv(),
            final(self).buf() == old(self).buf(),
            r@ == spec_children_at(old(self).buf(), parent.offset as int),
            nodes_ok(old(self).buf(), r@),
            final(self).has_cached(parent.offset),
            old(self).has_cached(parent.offset) ==> *final(self) == *old(self),
            !old(self).has_cached(parent.offset) ==> final(self).cache_entries() == old(
                self,
            ).cache_entries().push((parent.offset, r@)),
    {
        match self.cache_lookup(parent.offset) {
            Some(i) => {
                let r = clone_nodes(&self.cache[i].1);
                proof {
                    assert(self.cache_entries()[i as int].1 == self.cache@[i as int].1@);
                }
                r
            },
            None => {
                let kids = parse_children(self.xml, parent);
                let kept = clone_nodes(&kids);
                let ghost before = self.cache_entries();
                self.cache.push((parent.offset, kept));
                proof {
                    assert(self.cache_entries() =~= before.push((parent.offset, kids@)));
                    assert(self.cache_entries()[before.len() as int].0 == parent.offset);
                }
                kids
            },
        }
    }

    /// The parsed attribute pairs of `node`, extracted on demand from the
    /// raw bytes at the node's offset.
    pub fn attributes(&self, node: &Node) -> (r: Vec<(Span, Span)>)
        ensures
            r@ == spec_attributes(self.buf(), node.offset as int),
            forall|i: int| 0 <= i < r@.len() ==> (#[trigger] r@[i]).0.wf(self.buf())
                && r@[i].1.wf(self.buf()),
    {
        extract_attributes(self.xml, node.offset)
    }
}

} // verus!
