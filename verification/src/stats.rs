//! The statistics pass: one scan over the whole token stream that counts
//! tags, tracks the maximum nesting depth, and records per-depth element
//! counts and per-depth distinct tag names (first occurrence kept, compared
//! by content).
//!
//! This consumer never touches the explorer's cache and carries no
//! navigation state.  Depths at or beyond [`MAX_DEPTH`] and more than
//! [`MAX_UNIQUE_TAGS`] distinct names per depth are not recorded, matching
//! the fixed-size tables the report is built from.

use vstd::prelude::*;

use crate::scan::{Span, bytes_range_eq};
use crate::tokenizer::{Token, Tokenizer, stream_from, lemma_stream_len};

verus! {

pub const MAX_DEPTH: usize = 32;

pub const MAX_UNIQUE_TAGS: usize = 128;

/// The state of the statistics scan.  `depth` is the current nesting depth,
/// the per-level sequences always have `MAX_DEPTH` entries.
pub ghost struct StatsScan {
    pub depth: int,
    pub max_depth: int,
    pub tag_count: int,
    pub elements_per_level: Seq<int>,
    pub unique_tags_per_level: Seq<Seq<Span>>,
}

/// Whether some recorded tag range holds the same bytes as `name`.
pub open spec fn contains_content(buf: Seq<u8>, tags: Seq<Span>, name: Span) -> bool {
    exists|j: int| 0 <= j < tags.len() && (#[trigger] tags[j]).sub(buf) == name.sub(buf)
}

/// One token's effect on the statistics.  A start tag is counted at its
/// level (and its name recorded there if new and the table has room), then
/// deepens the nesting; an end tag undoes one level; text changes nothing.
pub open spec fn stats_step(buf: Seq<u8>, st: StatsScan, t: Token) -> StatsScan {
    match t {
        Token::StartTag { pos, name, attrs } => {
            let st1 = if 0 <= st.depth < MAX_DEPTH {
                let lvl = st.depth;
                let tags = st.unique_tags_per_level[lvl];
                let tags2 = if !contains_content(buf, tags, name) && tags.len()
                    < MAX_UNIQUE_TAGS {
                    tags.push(name)
                } else {
                    tags
                };
                StatsScan {
                    elements_per_level: st.elements_per_level.update(
                        lvl,
                        st.elements_per_level[lvl] + 1,
                    ),
                    unique_tags_per_level: st.unique_tags_per_level.update(lvl, tags2),
                    ..st
                }
            } else {
                st
            };
            StatsScan {
                depth: st1.depth + 1,
                max_depth: if st1.depth + 1 > st1.max_depth {
                    st1.depth + 1
                } else {
                    st1.max_depth
                },
                tag_count: st1.tag_count + 1,
                ..st1
            }
        },
        Token::EndTag { name } => StatsScan {
            depth: if st.depth > 0 {
                st.depth - 1
            } else {
                0
            },
            tag_count: st.tag_count + 1,
            ..st
        },
        Token::Text { content } => st,
    }
}

pub open spec fn stats_fold(buf: Seq<u8>, st: StatsScan, toks: Seq<Token>) -> StatsScan
    decreases toks.len(),
{
    if toks.len() == 0 {
        st
    } else {
        stats_fold(buf, stats_step(buf, st, toks[0]), toks.drop_first())
    }
}

pub open spec fn stats_init() -> StatsScan {
    StatsScan {
        depth: 0,
        max_depth: 0,
        tag_count: 0,
        elements_per_level: Seq::new(MAX_DEPTH as nat, |i: int| 0),
        unique_tags_per_level: Seq::new(MAX_DEPTH as nat, |i: int| Seq::empty()),
    }
}

/// The statistics of the whole document: the fold of the full token stream.
pub open spec fn spec_stats(buf: Seq<u8>) -> StatsScan {
    stats_fold(buf, stats_init(), stream_from(buf, 0))
}

/// The report a statistics scan produces.
pub struct Stats {
    pub tag_count: usize,
    pub max_depth: usize,
    pub elements_per_level: Vec<usize>,
    pub unique_tags_per_level: Vec<Vec<Span>>,
}

/// Whether `name`'s bytes already stand in `row`.
fn contains_span(xml: &[u8], row: &Vec<Span>, name: Span) -> (r: bool)
    requires
        name.wf(xml@),
        forall|j: int| 0 <= j < row@.len() ==> (#[trigger] row@[j]).wf(xml@),
    ensures
        r == contains_content(xml@, row@, name),
{
    let mut j: usize = 0;
    let n: usize = row.len();
    while j < n
        invariant
            j <= n,
            n == row@.len(),
            name.wf(xml@),
            forall|k: int| 0 <= k < row@.len() ==> (#[trigger] row@[k]).wf(xml@),
            forall|k: int| 0 <= k < j ==> (#[trigger] row@[k]).sub(xml@) != name.sub(xml@),
        decreases n - j,
    {
        if bytes_range_eq(xml, row[j], name) {
            return true;
        }
        j = j + 1;
    }
    false
}

/// Copies a row of tag ranges.
fn clone_spans(v: &Vec<Span>) -> (r: Vec<Span>)
    ensures
        r@ == v@,
{
    let mut out: Vec<Span> = Vec::new();
    let mut i: usize = 0;
    while i < v.len()
        invariant
            i <= v@.len(),
            out@ == v@.subrange(0, i as int),
        decreases v@.len() - i,
    {
        out.push(v[i]);
        proof {
            assert(out@ =~= v@.subrange(0, i + 1));
        }
        i = i + 1;
    }
    proof {
        assert(out@ =~= v@);
    }
    out
}

/// Tokenizes the whole buffer once and gathers the statistics the report
/// prints: total tag count, maximum nesting depth, and the per-depth
/// element counts and distinct tag names.
pub fn compute_stats(xml: &[u8]) -> (r: Stats)
    ensures
        r.tag_count == spec_stats(xml@).tag_count,
        r.max_depth == spec_stats(xml@).max_depth,
        r.elements_per_level@.map_values(|c: usize| c as int) == spec_stats(
            xml@,
        ).elements_per_level,
        r.unique_tags_per_level@.map_values(|v: Vec<Span>| v@) == spec_stats(
            xml@,
        ).unique_tags_per_level,
        r.elements_per_level@.len() == MAX_DEPTH,
        r.unique_tags_per_level@.len() == MAX_DEPTH,
        forall|l: int, j: int|
            0 <= l < MAX_DEPTH && 0 <= j < r.unique_tags_per_level@[l]@.len()
                ==> (#[trigger] r.unique_tags_per_level@[l]@[j]).wf(xml@),
{
    let n: usize = xml.len();
    proof {
        lemma_stream_len(xml@, 0);
    }
    let ghost full_len: int = stream_from(xml@, 0).len() as int;
    let mut tz = Tokenizer::new(0);
    let mut depth: usize = 0;
    let mut max_depth: usize = 0;
    let mut tag_count: usize = 0;
    let mut counts: Vec<usize> = Vec::new();
    let mut uniq: Vec<Vec<Span>> = Vec::new();
    let mut k: usize = 0;
    while k < MAX_DEPTH
        invariant
            k <= MAX_DEPTH,
            counts@.len() == k,
            uniq@.len() == k,
            forall|i: int| 0 <= i < k ==> counts@[i] == 0usize,
            forall|i: int| 0 <= i < k ==> (#[trigger] uniq@[i])@.len() == 0,
        decreases MAX_DEPTH - k,
    {
        counts.push(0);
        uniq.push(Vec::new());
        k = k + 1;
    }
    proof {
        assert(counts@.map_values(|c: usize| c as int) =~= stats_init().elements_per_level);
        assert(uniq@.map_values(|v: Vec<Span>| v@) =~~= stats_init().unique_tags_per_level);
    }
    loop
        invariant
            n == xml@.len(),
            tz.wf(xml@),
            full_len == stream_from(xml@, 0).len(),
            full_len <= n,
            counts@.len() == MAX_DEPTH,
            uniq@.len() == MAX_DEPTH,
            forall|l: int, j: int|
                0 <= l < MAX_DEPTH && 0 <= j < uniq@[l]@.len() ==> (#[trigger] uniq@[l]@[j]).wf(
                    xml@,
                ),
            stats_fold(
                xml@,
                StatsScan {
                    depth: depth as int,
                    max_depth: max_depth as int,
                    tag_count: tag_count as int,
                    elements_per_level: counts@.map_values(|c: usize| c as int),
                    unique_tags_per_level: uniq@.map_values(|v: Vec<Span>| v@),
                },
                tz.stream(xml@),
            ) == spec_stats(xml@),
            depth <= full_len - tz.stream(xml@).len(),
            tag_count <= full_len - tz.stream(xml@).len(),
            max_depth <= full_len - tz.stream(xml@).len(),
            forall|l: int|
                0 <= l < MAX_DEPTH ==> counts@[l] <= full_len - tz.stream(xml@).len(),
        decreases tz.stream(xml@).len(),
    {
        let ghost pre_st = StatsScan {
            depth: depth as int,
            max_depth: max_depth as int,
            tag_count: tag_count as int,
            elements_per_level: counts@.map_values(|c: usize| c as int),
            unique_tags_per_level: uniq@.map_values(|v: Vec<Span>| v@),
        };
        let ghost pre_stream = tz.stream(xml@);
        match tz.next(xml) {
            None => {
                return Stats {
                    tag_count,
                    max_depth,
                    elements_per_level: counts,
                    unique_tags_per_level: uniq,
                };
            },
            Some(t) => {
                proof {
                    assert(pre_stream == seq![t] + tz.stream(xml@));
                    assert(pre_stream[0] == t);
                    assert(pre_stream.drop_first() =~= tz.stream(xml@));
                }
                match t {
                    Token::StartTag { pos, name, attrs } => {
                        if depth < MAX_DEPTH {
                            let c: usize = counts[depth];
                            counts.set(depth, c + 1);
                            let row_has: bool = contains_span(xml, &uniq[depth], name);
                            if !row_has && uniq[depth].len() < MAX_UNIQUE_TAGS {
                                let mut row = clone_spans(&uniq[depth]);
                                row.push(name);
                                uniq.set(depth, row);
                            }
                        }
                        depth = depth + 1;
                        if depth > max_depth {
                            max_depth = depth;
                        }
                        tag_count = tag_count + 1;
                        proof {
                            let post_st = StatsScan {
                                depth: depth as int,
                                max_depth: max_depth as int,
                                tag_count: tag_count as int,
                                elements_per_level: counts@.map_values(|c: usize| c as int),
                                unique_tags_per_level: uniq@.map_values(|v: Vec<Span>| v@),
                            };
                            assert(post_st.elements_per_level =~= stats_step(
                                xml@,
                                pre_st,
                                t,
                            ).elements_per_level);
                            assert(post_st.unique_tags_per_level =~~= stats_step(
                                xml@,
                                pre_st,
                                t,
                            ).unique_tags_per_level);
                            assert(stats_step(xml@, pre_st, t) == post_st);
                        }
                    },
                    Token::EndTag { name } => {
                        if depth > 0 {
                            depth = depth - 1;
                        }
                        tag_count = tag_count + 1;
                        proof {
                            let post_st = StatsScan {
                                depth: depth as int,
                                max_depth: max_depth as int,
                                tag_count: tag_count as int,
                                elements_per_level: counts@.map_values(|c: usize| c as int),
                                unique_tags_per_level: uniq@.map_values(|v: Vec<Span>| v@),
                            };
                            assert(stats_step(xml@, pre_st, t) == post_st);
                        }
                    },
                    Token::Text { content } => {
                        proof {
                            assert(stats_step(xml@, pre_st, t) == pre_st);
                        }
                    },
                }
            },
        }
    }
}

} // verus!
