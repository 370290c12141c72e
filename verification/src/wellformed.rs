//! Well-formed token streams and the balance law: a document whose token
//! stream is well-formed (every element properly opened and closed, names
//! matching) yields exactly as many start-tag events as end-tag events.
//!
//! The tokenizer itself never checks well-formedness — truncated or
//! malformed input simply ends its scan — so the notion lives here, as a
//! grammar over the emitted token sequence.

use vstd::prelude::*;

use crate::tokenizer::{Token, stream_from};

verus! {

/// How many start-tag events a token sequence holds.
pub open spec fn count_starts(toks: Seq<Token>) -> int
    decreases toks.len(),
{
    if toks.len() == 0 {
        0
    } else {
        (if toks[0] is StartTag {
            1int
        } else {
            0int
        }) + count_starts(toks.drop_first())
    }
}

/// How many end-tag events a token sequence holds.
pub open spec fn count_ends(toks: Seq<Token>) -> int
    decreases toks.len(),
{
    if toks.len() == 0 {
        0
    } else {
        (if toks[0] is EndTag {
            1int
        } else {
            0int
        }) + count_ends(toks.drop_first())
    }
}

/// The token sequence is a sequence of text runs and complete elements.
pub open spec fn is_content(buf: Seq<u8>, toks: Seq<Token>) -> bool
    decreases toks.len(), 1int,
{
    ||| toks.len() == 0
    ||| (toks[0] is Text && is_content(buf, toks.drop_first()))
    ||| (exists|k: int|
        2 <= k <= toks.len() && is_element(buf, #[trigger] toks.take(k)) && is_content(
            buf,
            toks.skip(k),
        ))
}

/// The token sequence is one complete element: a start tag, well-formed
/// content, and an end tag whose name holds the same bytes.
pub open spec fn is_element(buf: Seq<u8>, toks: Seq<Token>) -> bool
    decreases toks.len(), 0int,
{
    &&& toks.len() >= 2
    &&& toks[0] is StartTag
    &&& toks.last() is EndTag
    &&& toks[0]->StartTag_name.sub(buf) == toks.last()->EndTag_name.sub(buf)
    &&& is_content(buf, toks.subrange(1, toks.len() - 1))
}

/// Start- and end-tag counts distribute over concatenation.
proof fn lemma_count_concat(a: Seq<Token>, b: Seq<Token>)
    ensures
        count_starts(a + b) == count_starts(a) + count_starts(b),
        count_ends(a + b) == count_ends(a) + count_ends(b),
    decreases a.len(),
{
    if a.len() == 0 {
        assert(a + b =~= b);
    } else {
        assert((a + b).drop_first() =~= a.drop_first() + b);
        lemma_count_concat(a.drop_first(), b);
    }
}

/// Well-formed content emits as many start tags as end tags.
pub proof fn lemma_content_balanced(buf: Seq<u8>, toks: Seq<Token>)
    requires
        is_content(buf, toks),
    ensures
        count_starts(toks) == count_ends(toks),
    decreases toks.len(), 1int,
{
    if toks.len() == 0 {
    } else if toks[0] is Text && is_content(buf, toks.drop_first()) {
        lemma_content_balanced(buf, toks.drop_first());
    } else {
        let k = choose|k: int|
            2 <= k <= toks.len() && is_element(buf, #[trigger] toks.take(k)) && is_content(
                buf,
                toks.skip(k),
            );
        lemma_element_balanced(buf, toks.take(k));
        lemma_content_balanced(buf, toks.skip(k));
        assert(toks =~= toks.take(k) + toks.skip(k));
        lemma_count_concat(toks.take(k), toks.skip(k));
    }
}

/// A single token counts once for its own kind.
proof fn lemma_count_singleton(t: Token)
    ensures
        count_starts(seq![t]) == if t is StartTag {
            1int
        } else {
            0int
        },
        count_ends(seq![t]) == if t is EndTag {
            1int
        } else {
            0int
        },
{
    assert(seq![t].drop_first() =~= Seq::<Token>::empty());
    assert(count_starts(Seq::<Token>::empty()) == 0);
    assert(count_ends(Seq::<Token>::empty()) == 0);
}

/// A complete element emits as many start tags as end tags.
pub proof fn lemma_element_balanced(buf: Seq<u8>, toks: Seq<Token>)
    requires
        is_element(buf, toks),
    ensures
        count_starts(toks) == count_ends(toks),
    decreases toks.len(), 0int,
{
    let inner = toks.subrange(1, toks.len() - 1);
    lemma_content_balanced(buf, inner);
    assert(toks =~= seq![toks[0]] + (inner + seq![toks.last()]));
    lemma_count_concat(inner, seq![toks.last()]);
    lemma_count_concat(seq![toks[0]], inner + seq![toks.last()]);
    lemma_count_singleton(toks[0]);
    lemma_count_singleton(toks.last());
}

/// A start tag directly followed by its matching end tag is well-formed
/// content: the grammar admits the streams real documents produce.
pub proof fn lemma_leaf_element_is_content(buf: Seq<u8>, s: Token, e: Token)
    requires
        s is StartTag,
        e is EndTag,
        s->StartTag_name.sub(buf) == e->EndTag_name.sub(buf),
    ensures
        is_content(buf, seq![s, e]),
{
    let toks = seq![s, e];
    assert(toks.subrange(1, 1) =~= Seq::<Token>::empty());
    assert(is_content(buf, toks.subrange(1, 1)));
    assert(toks.take(2) =~= toks);
    assert(is_element(buf, toks.take(2)));
    assert(toks.skip(2) =~= Seq::<Token>::empty());
    assert(is_content(buf, toks.skip(2)));
    assert(2 <= 2 <= toks.len() && is_element(buf, toks.take(2)) && is_content(
        buf,
        toks.skip(2),
    ));
}

/// For every well-formed document, the tokenizer emits exactly as many
/// start-tag events as end-tag events over the whole scan.  A self-closing
/// tag counts as one of each, since it is emitted as a start tag followed
/// by a synthetic end tag.
pub proof fn lemma_balanced_document(buf: Seq<u8>)
    requires
        is_content(buf, stream_from(buf, 0)),
    ensures
        count_starts(stream_from(buf, 0)) == count_ends(stream_from(buf, 0)),
{
    lemma_content_balanced(buf, stream_from(buf, 0));
}

} // verus!
