//! The streaming tokenizer: a single left-to-right pass over the byte buffer
//! that emits start-tag, end-tag and text events without copying anything.
//!
//! The spec function [`step`] states, declaratively over the scanning
//! primitives of [`crate::scan`], what one parsing step recognizes at a given
//! position: which tokens it emits (none for a skipped comment or processing
//! instruction, two for a self-closing tag) and where the scan resumes.
//! [`stream_from`] is the whole token stream from a position.  The executable
//! [`Tokenizer`] is proved to emit exactly that stream, one token per call,
//! and a consumer bounds scan cost by simply ceasing to call it.
//!
//! A construct whose closing delimiter is missing ends the stream silently:
//! truncated input is treated as end of input, not as an error, and no token
//! is emitted for a construct that could not be fully delimited.

use vstd::prelude::*;

use crate::scan::{
    Span, is_ws, is_name_stop, skip_ws, find_byte, find_pi_end, scan_until, trim_end,
    lemma_skip_ws, lemma_find_byte, lemma_find_pi_end, lemma_scan_until, lemma_trim_end,
    skip_ws_exec, find_byte_exec, find_pi_end_exec, scan_name_end, trim_end_exec,
    B_LT, B_GT, B_SLASH, B_BANG, B_QUESTION,
};

verus! {

/// One structural event of the document.
///
/// A start tag records the position of its `<` (`pos`), the range of its
/// name, and the raw, unparsed attribute text between the name and the
/// closing `>` (excluding a trailing `/` of a self-closing tag).  A
/// self-closing tag is emitted as a `StartTag` followed by a synthetic
/// `EndTag` holding the identical name range.  Text content is trimmed of
/// leading and trailing ASCII whitespace and never empty.
#[derive(Clone, Copy, Debug, PartialEq, Eq, Structural)]
pub enum Token {
    StartTag { pos: usize, name: Span, attrs: Span },
    EndTag { name: Span },
    Text { content: Span },
}

/// One parsing step: the tokens it emits and the position the scan resumes
/// at.
pub ghost struct Step {
    pub toks: Seq<Token>,
    pub next: int,
}

/// The token spans lie within the buffer; text content is non-empty.
pub open spec fn token_wf(buf: Seq<u8>, t: Token) -> bool {
    match t {
        Token::StartTag { pos, name, attrs } => {
            &&& pos < buf.len()
            &&& buf[pos as int] == B_LT
            &&& name.wf(buf)
            &&& attrs.wf(buf)
        },
        Token::EndTag { name } => name.wf(buf),
        Token::Text { content } => content.wf(buf) && content.start < content.end,
    }
}

/// What one parsing step recognizes at `pos`: skip whitespace, then
/// dispatch on the next bytes.
///
/// - `</`...`>`: an end tag; its name is everything between.
/// - `<!`...`>`: a comment, CDATA or declaration construct; skipped.
/// - `<?`...`?>`: a processing instruction; skipped.
/// - `<`...`>`: a start tag; the name is the leading run of bytes that are
///   neither whitespace nor `/`, the raw attribute text is the rest, and a
///   `/` immediately before the `>` makes it self-closing.  (Only the byte
///   before the `>` decides this, so an unquoted attribute value ending in
///   `/` right before the `>` reads as self-closing: an accepted limitation
///   of the simplified grammar.)
/// - anything else: a text run up to the next `<` or the end of the buffer,
///   trimmed of trailing whitespace.
///
/// `None` means the scan is over: the buffer is exhausted, or a construct is
/// unterminated and the rest of the input is silently dropped.
pub open spec fn step(buf: Seq<u8>, pos: int) -> Option<Step> {
    let p = skip_ws(buf, pos);
    if p >= buf.len() {
        None
    } else if buf[p] == B_LT {
        if p + 1 < buf.len() && buf[p + 1] == B_SLASH {
            match find_byte(buf, p + 2, B_GT) {
                Some(g) => Some(
                    Step {
                        toks: seq![
                            Token::EndTag { name: Span { start: (p + 2) as usize, end: g as usize } },
                        ],
                        next: g + 1,
                    },
                ),
                None => None,
            }
        } else if p + 1 < buf.len() && buf[p + 1] == B_BANG {
            match find_byte(buf, p + 2, B_GT) {
                Some(g) => Some(Step { toks: Seq::empty(), next: g + 1 }),
                None => None,
            }
        } else if p + 1 < buf.len() && buf[p + 1] == B_QUESTION {
            match find_pi_end(buf, p + 2) {
                Some(q) => Some(Step { toks: Seq::empty(), next: q + 2 }),
                None => None,
            }
        } else {
            match find_byte(buf, p + 1, B_GT) {
                Some(g) => {
                    let self_closing = g > p + 1 && buf[g - 1] == B_SLASH;
                    let ne = scan_until(buf, p + 1, g, |b: u8| is_name_stop(b));
                    let name = Span { start: (p + 1) as usize, end: ne as usize };
                    let attrs_end: int = if self_closing { g - 1 } else { g };
                    let attrs = Span { start: ne as usize, end: attrs_end as usize };
                    let st = Token::StartTag { pos: p as usize, name: name, attrs: attrs };
                    if self_closing {
                        Some(Step { toks: seq![st, Token::EndTag { name: name }], next: g + 1 })
                    } else {
                        Some(Step { toks: seq![st], next: g + 1 })
                    }
                },
                None => None,
            }
        }
    } else {
        let e = match find_byte(buf, p, B_LT) {
            Some(i) => i,
            None => buf.len() as int,
        };
        let te = trim_end(buf, p, e);
        Some(
            Step {
                toks: seq![Token::Text { content: Span { start: p as usize, end: te as usize } }],
                next: e,
            },
        )
    }
}

/// A step advances the cursor and emits at most one token per byte
/// consumed.
pub proof fn lemma_step(buf: Seq<u8>, pos: int)
    requires
        0 <= pos,
    ensures
        step(buf, pos) matches Some(s) ==> {
            &&& pos < s.next <= buf.len()
            &&& s.toks.len() <= s.next - pos
        },
{
    if pos > buf.len() {
        return;
    }
    lemma_skip_ws(buf, pos);
    let p = skip_ws(buf, pos);
    if p >= buf.len() {
        return;
    }
    if buf[p] == B_LT {
        if p + 1 < buf.len() && buf[p + 1] == B_SLASH {
            lemma_find_byte(buf, p + 2, B_GT);
        } else if p + 1 < buf.len() && buf[p + 1] == B_BANG {
            lemma_find_byte(buf, p + 2, B_GT);
        } else if p + 1 < buf.len() && buf[p + 1] == B_QUESTION {
            lemma_find_pi_end(buf, p + 2);
        } else {
            lemma_find_byte(buf, p + 1, B_GT);
            match find_byte(buf, p + 1, B_GT) {
                Some(g) => {
                    lemma_scan_until(buf, p + 1, g, |b: u8| is_name_stop(b));
                    let self_closing = g > p + 1 && buf[g - 1] == B_SLASH;
                    if self_closing {
                        let ne = scan_until(buf, p + 1, g, |b: u8| is_name_stop(b));
                        assert(is_name_stop(buf[g - 1]));
                        assert(ne <= g - 1);
                    }
                },
                None => {},
            }
        }
    } else {
        lemma_find_byte(buf, p, B_LT);
        let e = match find_byte(buf, p, B_LT) {
            Some(i) => i,
            None => buf.len() as int,
        };
        assert(find_byte(buf, p, B_LT) == find_byte(buf, p + 1, B_LT));
        lemma_find_byte(buf, p + 1, B_LT);
        lemma_trim_end(buf, p, e);
    }
}

/// Every token a step emits is well-formed for the buffer.
pub proof fn lemma_step_tokens(buf: Seq<u8>, pos: int)
    requires
        0 <= pos,
        buf.len() <= usize::MAX,
    ensures
        step(buf, pos) matches Some(s) ==> forall|i: int|
            0 <= i < s.toks.len() ==> token_wf(buf, #[trigger] s.toks[i]),
{
    if pos > buf.len() {
        return;
    }
    lemma_skip_ws(buf, pos);
    let p = skip_ws(buf, pos);
    if p >= buf.len() {
        return;
    }
    if buf[p] == B_LT {
        if p + 1 < buf.len() && buf[p + 1] == B_SLASH {
            lemma_find_byte(buf, p + 2, B_GT);
        } else if p + 1 < buf.len() && buf[p + 1] == B_BANG {
        } else if p + 1 < buf.len() && buf[p + 1] == B_QUESTION {
        } else {
            lemma_find_byte(buf, p + 1, B_GT);
            match find_byte(buf, p + 1, B_GT) {
                Some(g) => {
                    lemma_scan_until(buf, p + 1, g, |b: u8| is_name_stop(b));
                    let self_closing = g > p + 1 && buf[g - 1] == B_SLASH;
                    if self_closing {
                        let ne = scan_until(buf, p + 1, g, |b: u8| is_name_stop(b));
                        assert(is_name_stop(buf[g - 1]));
                        assert(ne <= g - 1);
                    }
                },
                None => {},
            }
        }
    } else {
        lemma_find_byte(buf, p, B_LT);
        let e = match find_byte(buf, p, B_LT) {
            Some(i) => i,
            None => buf.len() as int,
        };
        assert(find_byte(buf, p, B_LT) == find_byte(buf, p + 1, B_LT));
        lemma_find_byte(buf, p + 1, B_LT);
        lemma_trim_end(buf, p, e);
    }
}

/// The whole token stream from position `pos` to the end of the scan.
pub open spec fn stream_from(buf: Seq<u8>, pos: int) -> Seq<Token>
    decreases buf.len() - pos
        when 0 <= pos
        via stream_from_decreases
{
    match step(buf, pos) {
        None => Seq::empty(),
        Some(s) => s.toks + stream_from(buf, s.next),
    }
}

#[via_fn]
proof fn stream_from_decreases(buf: Seq<u8>, pos: int) {
    lemma_step(buf, pos);
}

/// A scan emits at most one token per byte.
pub proof fn lemma_stream_len(buf: Seq<u8>, pos: int)
    requires
        0 <= pos <= buf.len(),
    ensures
        stream_from(buf, pos).len() <= buf.len() - pos,
    decreases buf.len() - pos,
{
    lemma_step(buf, pos);
    match step(buf, pos) {
        Some(s) => {
            lemma_stream_len(buf, s.next);
        },
        None => {},
    }
}

/// The token is a start tag and the parsing step taken at its own `<`
/// position emits it first.  This is what makes the position of a start tag
/// a stable identity: re-entering the buffer there re-reads the same tag.
pub open spec fn starts_at(buf: Seq<u8>, t: Token) -> bool {
    &&& t is StartTag
    &&& match step(buf, t->StartTag_pos as int) {
        Some(s) => s.toks.len() >= 1 && s.toks[0] == t,
        None => false,
    }
}

/// The streaming tokenizer: a scan cursor and, after a self-closing start
/// tag was emitted, the pending synthetic end tag.
///
/// The tokenizer holds no reference to the buffer; each call to [`Self::next`]
/// is given the buffer, and its contract speaks of the stream the tokenizer
/// still has to emit from that buffer.
pub struct Tokenizer {
    pub pos: usize,
    pub pending: Option<Span>,
}

impl Tokenizer {
    pub open spec fn wf(self, buf: Seq<u8>) -> bool {
        match self.pending {
            Some(s) => s.wf(buf),
            None => true,
        }
    }

    /// The tokens this tokenizer will still emit from `buf`.
    pub open spec fn stream(self, buf: Seq<u8>) -> Seq<Token> {
        match self.pending {
            Some(name) => seq![Token::EndTag { name }] + stream_from(buf, self.pos as int),
            None => stream_from(buf, self.pos as int),
        }
    }

    /// A tokenizer whose scan starts at byte `start`.
    pub fn new(start: usize) -> (r: Tokenizer)
        ensures
            r.pos == start,
            forall|buf: Seq<u8>| r.wf(buf) && r.stream(buf) == stream_from(buf, start as int),
    {
        Tokenizer { pos: start, pending: None }
    }

    /// Emits the next token, or `None` when the scan is over.  The consumer
    /// controls early termination: to stop scanning, stop calling.
    #[verifier::rlimit(100)]
    pub fn next(&mut self, xml: &[u8]) -> (r: Option<Token>)
        requires
            old(self).wf(xml@),
        ensures
            final(self).wf(xml@),
            match r {
                Some(t) => {
                    &&& old(self).stream(xml@) == seq![t] + final(self).stream(xml@)
                    &&& token_wf(xml@, t)
                    &&& t is StartTag ==> starts_at(xml@, t)
                },
                None => {
                    &&& old(self).stream(xml@) == Seq::<Token>::empty()
                    &&& final(self).stream(xml@) == Seq::<Token>::empty()
                },
            },
    {
        match self.pending {
            Some(name) => {
                self.pending = None;
                return Some(Token::EndTag { name });
            },
            None => {},
        }
        let n: usize = xml.len();
        loop
            invariant
                self.pending is None,
                n == xml@.len(),
                stream_from(xml@, self.pos as int) == old(self).stream(xml@),
            decreases n - self.pos,
        {
            let ghost cur: int = self.pos as int;
            if self.pos >= n {
                return None;
            }
            let p: usize = skip_ws_exec(xml, self.pos);
            if p >= n {
                return None;
            }
            proof {
                lemma_skip_ws(xml@, cur);
            }
            let c: u8 = xml[p];
            if c == B_LT {
                let has1: bool = p + 1 < n;
                if has1 && xml[p + 1] == B_SLASH {
                    match find_byte_exec(xml, p + 2, B_GT) {
                        Some(g) => {
                            let tok = Token::EndTag { name: Span { start: p + 2, end: g } };
                            proof {
                                assert(step(xml@, cur) == Some(
                                    Step { toks: seq![tok], next: g + 1 },
                                ));
                            }
                            self.pos = g + 1;
                            return Some(tok);
                        },
                        None => {
                            return None;
                        },
                    }
                } else if has1 && xml[p + 1] == B_BANG {
                    match find_byte_exec(xml, p + 2, B_GT) {
                        Some(g) => {
                            proof {
                                assert(step(xml@, cur) == Some(
                                    Step { toks: Seq::<Token>::empty(), next: g + 1 },
                                ));
                                assert(stream_from(xml@, cur) =~= stream_from(xml@, g + 1));
                            }
                            self.pos = g + 1;
                        },
                        None => {
                            return None;
                        },
                    }
                } else if has1 && xml[p + 1] == B_QUESTION {
                    match find_pi_end_exec(xml, p + 2) {
                        Some(q) => {
                            proof {
                                assert(step(xml@, cur) == Some(
                                    Step { toks: Seq::<Token>::empty(), next: q + 2 },
                                ));
                                assert(stream_from(xml@, cur) =~= stream_from(xml@, q + 2));
                            }
                            self.pos = q + 2;
                        },
                        None => {
                            return None;
                        },
                    }
                } else {
                    match find_byte_exec(xml, p + 1, B_GT) {
                        Some(g) => {
                            let self_closing: bool = g > p + 1 && xml[g - 1] == B_SLASH;
                            let ne: usize = scan_name_end(xml, p + 1, g);
                            proof {
                                lemma_scan_until(xml@, p + 1, g as int, |b: u8| is_name_stop(b));
                                if self_closing {
                                    assert(is_name_stop(xml@[g - 1]));
                                    assert(ne <= g - 1);
                                }
                            }
                            let name = Span { start: p + 1, end: ne };
                            let attrs_end: usize = if self_closing {
                                g - 1
                            } else {
                                g
                            };
                            let attrs = Span { start: ne, end: attrs_end };
                            let tok = Token::StartTag { pos: p, name: name, attrs: attrs };
                            if self_closing {
                                let end_tok = Token::EndTag { name: name };
                                proof {
                                    assert(step(xml@, cur) == Some(
                                        Step { toks: seq![tok, end_tok], next: g + 1 },
                                    ));
                                    assert(seq![tok, end_tok] + stream_from(xml@, g + 1) =~= seq![tok]
                                        + (seq![end_tok] + stream_from(xml@, g + 1)));
                                    assert(skip_ws(xml@, p as int) == p as int);
                                    assert(step(xml@, p as int) == step(xml@, cur));
                                }
                                self.pending = Some(name);
                                self.pos = g + 1;
                                return Some(tok);
                            } else {
                                proof {
                                    assert(step(xml@, cur) == Some(
                                        Step { toks: seq![tok], next: g + 1 },
                                    ));
                                    assert(skip_ws(xml@, p as int) == p as int);
                                    assert(step(xml@, p as int) == step(xml@, cur));
                                }
                                self.pos = g + 1;
                                return Some(tok);
                            }
                        },
                        None => {
                            return None;
                        },
                    }
                }
            } else {
                let e: usize = match find_byte_exec(xml, p, B_LT) {
                    Some(i) => i,
                    None => n,
                };
                proof {
                    assert(find_byte(xml@, p as int, B_LT) == find_byte(xml@, p + 1, B_LT));
                    lemma_find_byte(xml@, p + 1, B_LT);
                }
                let te: usize = trim_end_exec(xml, p, e);
                proof {
                    lemma_trim_end(xml@, p as int, e as int);
                }
                let tok = Token::Text { content: Span { start: p, end: te } };
                proof {
                    assert(step(xml@, cur) == Some(Step { toks: seq![tok], next: e as int }));
                }
                self.pos = e;
                return Some(tok);
            }
        }
    }
}

/// Tokenizes the whole buffer in one pass and collects every event, in
/// document order.
pub fn stream_xml(xml: &[u8]) -> (r: Vec<Token>)
    ensures
        r@ == stream_from(xml@, 0),
        forall|i: int| 0 <= i < r@.len() ==> token_wf(xml@, #[trigger] r@[i]),
{
    let mut toks: Vec<Token> = Vec::new();
    let mut tz = Tokenizer::new(0);
    loop
        invariant
            tz.wf(xml@),
            stream_from(xml@, 0) == toks@ + tz.stream(xml@),
            forall|i: int| 0 <= i < toks@.len() ==> token_wf(xml@, #[trigger] toks@[i]),
        decreases tz.stream(xml@).len(),
    {
        let ghost prev = toks@;
        let ghost prev_stream = tz.stream(xml@);
        match tz.next(xml) {
            Some(t) => {
                toks.push(t);
                proof {
                    assert(prev + prev_stream =~= toks@ + tz.stream(xml@));
                }
            },
            None => {
                proof {
                    assert(stream_from(xml@, 0) =~= toks@);
                }
                return toks;
            },
        }
    }
}

} // verus!
