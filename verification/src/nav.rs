//! The navigation state machine: the path from the document root to the
//! level currently being viewed, as a stack of levels, plus the selection
//! cursor within the current level.
//!
//! The machine consumes the explorer and nothing else; a rendering layer
//! only reads the state it produces.  Every transition is total: with no
//! selectable child, descending does nothing; at the root, ascending does
//! nothing; movement clamps the cursor to the current child list.  The spec
//! functions `down_spec`, `enter_spec`, `back_spec` and their companions
//! state each transition as a function of the abstract state, and the proof
//! functions at the end of the module state the navigation laws over them.

use vstd::prelude::*;

use crate::scan::Span;
use crate::explorer::{Node, XmlExplorer, nodes_ok, spec_children_at, spec_root};
use crate::attrs::spec_attributes;

verus! {

/// One frame of the navigation stack: the tag of the element whose children
/// are listed (`None` only for the synthetic root level), the resolved
/// child list, and the cursor position to restore when this level becomes
/// current again.
pub struct Level {
    pub tag: Option<Span>,
    pub children: Vec<Node>,
    pub last_selected: usize,
}

/// What the detail view shows for the selected node: its attribute pairs
/// and how many children it has.
pub struct InfoData {
    pub attributes: Vec<(Span, Span)>,
    pub child_count: usize,
}

/// The abstract value of one level.
pub ghost struct LevelV {
    pub tag: Option<Span>,
    pub children: Seq<Node>,
    pub last_selected: int,
}

impl Level {
    pub open spec fn v(self) -> LevelV {
        LevelV {
            tag: self.tag,
            children: self.children@,
            last_selected: self.last_selected as int,
        }
    }
}

/// The abstract navigation state: the stack of levels and the selection
/// index within the topmost one.
pub ghost struct NavCore {
    pub stack: Seq<LevelV>,
    pub selected: int,
}

/// A selection index is valid for a child count: zero when there is nothing
/// to select, within range otherwise.
pub open spec fn sel_ok(sel: int, n: int) -> bool {
    if n == 0 {
        sel == 0
    } else {
        0 <= sel < n
    }
}

pub open spec fn level_wf(buf: Seq<u8>, l: LevelV) -> bool {
    &&& nodes_ok(buf, l.children)
    &&& sel_ok(l.last_selected, l.children.len() as int)
}

/// The navigation invariant: the stack is never empty, every level holds
/// well-formed nodes and a valid remembered cursor, and the live cursor is
/// valid for the current level.
pub open spec fn nav_wf(buf: Seq<u8>, s: NavCore) -> bool {
    &&& s.stack.len() >= 1
    &&& forall|i: int| 0 <= i < s.stack.len() ==> level_wf(buf, #[trigger] s.stack[i])
    &&& sel_ok(s.selected, s.stack.last().children.len() as int)
}

/// The largest valid selection index: zero for an empty child list.
pub open spec fn max_sel(n: int) -> int {
    if n == 0 {
        0
    } else {
        n - 1
    }
}

/// Move the cursor one child down; at the last child this is a no-op.
pub open spec fn down_spec(s: NavCore) -> NavCore {
    if s.selected + 1 < s.stack.last().children.len() {
        NavCore { selected: s.selected + 1, ..s }
    } else {
        s
    }
}

/// Move the cursor one child up; at index zero this is a no-op.
pub open spec fn up_spec(s: NavCore) -> NavCore {
    if s.selected > 0 {
        NavCore { selected: s.selected - 1, ..s }
    } else {
        s
    }
}

/// Move the cursor ten children down, clamped to the last child.
pub open spec fn page_down_spec(s: NavCore) -> NavCore {
    let cap = max_sel(s.stack.last().children.len() as int);
    NavCore {
        selected: if s.selected + 10 <= cap {
            s.selected + 10
        } else {
            cap
        },
        ..s
    }
}

/// Move the cursor ten children up, clamped to the first child.
pub open spec fn page_up_spec(s: NavCore) -> NavCore {
    NavCore {
        selected: if s.selected >= 10 {
            s.selected - 10
        } else {
            0
        },
        ..s
    }
}

/// Jump to the first child.
pub open spec fn home_spec(s: NavCore) -> NavCore {
    NavCore { selected: 0, ..s }
}

/// Jump to the last child.
pub open spec fn end_spec(s: NavCore) -> NavCore {
    NavCore { selected: max_sel(s.stack.last().children.len() as int), ..s }
}

/// Descend into the selected child: remember the cursor in the level being
/// left, push a level holding the child's children, and reset the cursor.
/// With nothing selectable this is a no-op.
pub open spec fn enter_spec(buf: Seq<u8>, s: NavCore) -> NavCore {
    if 0 <= s.selected < s.stack.last().children.len() {
        let child = s.stack.last().children[s.selected];
        let updated = LevelV { last_selected: s.selected, ..s.stack.last() };
        let newlev = LevelV {
            tag: Some(child.tag),
            children: spec_children_at(buf, child.offset as int),
            last_selected: 0,
        };
        NavCore {
            stack: s.stack.update(s.stack.len() - 1, updated).push(newlev),
            selected: 0,
        }
    } else {
        s
    }
}

/// Ascend to the parent level and restore the cursor remembered there.  At
/// the root level this is a no-op.
pub open spec fn back_spec(s: NavCore) -> NavCore {
    if s.stack.len() > 1 {
        let st = s.stack.drop_last();
        NavCore { stack: st, selected: st.last().last_selected }
    } else {
        s
    }
}

/// The navigation state machine over one document.
pub struct TuiState<'a> {
    pub stack: Vec<Level>,
    pub selected: usize,
    pub show_info_popup: bool,
    pub info_popup_data: Option<InfoData>,
    pub explorer: XmlExplorer<'a>,
}

impl<'a> TuiState<'a> {
    /// The source buffer being navigated.
    pub open spec fn buf(&self) -> Seq<u8> {
        self.explorer.buf()
    }

    /// The abstract navigation state.
    pub open spec fn nav(&self) -> NavCore {
        NavCore {
            stack: self.stack@.map_values(|l: Level| l.v()),
            selected: self.selected as int,
        }
    }

    /// The current (topmost) level.
    pub open spec fn cur(&self) -> LevelV {
        self.nav().stack.last()
    }

    pub open spec fn wf(&self) -> bool {
        &&& self.explorer.inv()
        &&& nav_wf(self.buf(), self.nav())
    }

    /// The initial state: a single synthetic root level whose only child is
    /// the document's root element, or no child at all for a document
    /// without elements.
    pub fn new(xml: &'a [u8]) -> (r: TuiState<'a>)
        ensures
            r.wf(),
            r.buf() == xml@,
            r.nav().stack.len() == 1,
            r.nav().stack[0].tag is None,
            r.nav().stack[0].children == match spec_root(xml@) {
                Some(nd) => seq![nd],
                None => Seq::<Node>::empty(),
            },
            r.nav().stack[0].last_selected == 0,
            r.nav().selected == 0,
            !r.show_info_popup,
            r.info_popup_data is None,
    {
        let explorer = XmlExplorer::new(xml);
        let mut children: Vec<Node> = Vec::new();
        match explorer.root() {
            Some(nd) => {
                children.push(nd);
            },
            None => {},
        }
        let mut stack: Vec<Level> = Vec::new();
        let level = Level { tag: None, children, last_selected: 0 };
        let ghost lv = level.v();
        stack.push(level);
        let r = TuiState {
            stack,
            selected: 0,
            show_info_popup: false,
            info_popup_data: None,
            explorer,
        };
        proof {
            assert(r.nav().stack =~= seq![lv]);
        }
        r
    }

    /// The current level, for a rendering layer to read.
    pub fn get_current_level(&self) -> (r: &Level)
        requires
            self.wf(),
        ensures
            r.v() == self.cur(),
    {
        let li: usize = self.stack.len() - 1;
        let r = &self.stack[li];
        proof {
            assert(self.nav().stack[li as int] == r.v());
        }
        r
    }

    /// How many children the current level lists.
    pub fn current_children_len(&self) -> (r: usize)
        requires
            self.wf(),
        ensures
            r == self.cur().children.len(),
    {
        let li: usize = self.stack.len() - 1;
        proof {
            assert(self.nav().stack[li as int] == self.stack@[li as int].v());
        }
        self.stack[li].children.len()
    }

    /// Move the selection one child down; at the last child index this is a
    /// no-op and the index is unchanged.
    pub fn go_down(&mut self)
        requires
            old(self).wf(),
        ensures
            final(self).wf(),
            *final(self) == (TuiState { selected: final(self).selected, ..*old(self) }),
            final(self).nav() == down_spec(old(self).nav()),
            old(self).selected + 1 >= old(self).cur().children.len() ==> final(self).selected
                == old(self).selected,
    {
        let len: usize = self.current_children_len();
        if self.selected < len && len - self.selected > 1 {
            self.selected = self.selected + 1;
        }
        proof {
            assert(final(self).nav().stack =~= old(self).nav().stack);
        }
    }

    /// Move the selection one child up; at index zero this is a no-op and
    /// the index is unchanged.
    pub fn go_up(&mut self)
        requires
            old(self).wf(),
        ensures
            final(self).wf(),
            *final(self) == (TuiState { selected: final(self).selected, ..*old(self) }),
            final(self).nav() == up_spec(old(self).nav()),
            old(self).selected == 0 ==> final(self).selected == 0,
    {
        if self.selected > 0 {
            self.selected = self.selected - 1;
        }
        proof {
            assert(final(self).nav().stack =~= old(self).nav().stack);
        }
    }

    /// Move the selection ten children down, clamped to the last child.
    pub fn page_down(&mut self)
        requires
            old(self).wf(),
        ensures
            final(self).wf(),
            *final(self) == (TuiState { selected: final(self).selected, ..*old(self) }),
            final(self).nav() == page_down_spec(old(self).nav()),
    {
        let len: usize = self.current_children_len();
        if len == 0 {
            self.selected = 0;
        } else {
            let cap: usize = len - 1;
            if cap - self.selected >= 10 {
                self.selected = self.selected + 10;
            } else {
                self.selected = cap;
            }
        }
        proof {
            assert(final(self).nav().stack =~= old(self).nav().stack);
        }
    }

    /// Move the selection ten children up, clamped to the first child.
    pub fn page_up(&mut self)
        requires
            old(self).wf(),
        ensures
            final(self).wf(),
            *final(self) == (TuiState { selected: final(self).selected, ..*old(self) }),
            final(self).nav() == page_up_spec(old(self).nav()),
    {
        if self.selected >= 10 {
            self.selected = self.selected - 10;
        } else {
            self.selected = 0;
        }
        proof {
            assert(final(self).nav().stack =~= old(self).nav().stack);
        }
    }

    /// Jump to the first child.
    pub fn home(&mut self)
        requires
            old(self).wf(),
        ensures
            final(self).wf(),
            *final(self) == (TuiState { selected: final(self).selected, ..*old(self) }),
            final(self).nav() == home_spec(old(self).nav()),
    {
        self.selected = 0;
        proof {
            assert(final(self).nav().stack =~= old(self).nav().stack);
        }
    }

    /// Jump to the last child.
    pub fn end(&mut self)
        requires
            old(self).wf(),
        ensures
            final(self).wf(),
            *final(self) == (TuiState { selected: final(self).selected, ..*old(self) }),
            final(self).nav() == end_spec(old(self).nav()),
    {
        let len: usize = self.current_children_len();
        if len == 0 {
            self.selected = 0;
        } else {
            self.selected = len - 1;
        }
        proof {
            assert(final(self).nav().stack =~= old(self).nav().stack);
        }
    }

    /// Descend into the selected child: the level being left remembers the
    /// cursor, a level holding the child's resolved children is pushed, and
    /// the cursor resets to the first child.  With no selectable child this
    /// does nothing.
    pub fn enter(&mut self)
        requires
            old(self).wf(),
        ensures
            final(self).wf(),
            final(self).buf() == old(self).buf(),
            final(self).nav() == enter_spec(old(self).buf(), old(self).nav()),
            final(self).show_info_popup == old(self).show_info_popup,
            final(self).info_popup_data == old(self).info_popup_data,
    {
        let len: usize = self.current_children_len();
        if self.selected < len {
            let li: usize = self.stack.len() - 1;
            let child: Node = self.stack[li].children[self.selected];
            proof {
                assert(old(self).nav().stack[li as int] == old(self).stack@[li as int].v());
                assert(child == old(self).cur().children[old(self).selected as int]);
                assert(child.wf(old(self).buf()));
            }
            let mut top: Level = match self.stack.pop() {
                Some(l) => l,
                None => {
                    proof {
                        assert(false);
                    }
                    Level { tag: None, children: Vec::new(), last_selected: 0 }
                },
            };
            top.last_selected = self.selected;
            let kids = self.explorer.children(&child);
            let ghost updated = top.v();
            self.stack.push(top);
            let newlev = Level { tag: Some(child.tag), children: kids, last_selected: 0 };
            let ghost nl = newlev.v();
            self.stack.push(newlev);
            self.selected = 0;
            proof {
                let olds = old(self).nav();
                assert(final(self).nav().stack =~= olds.stack.update(
                    olds.stack.len() - 1,
                    updated,
                ).push(nl));
                assert(updated == (LevelV { last_selected: olds.selected, ..olds.stack.last() }));
            }
        }
    }

    /// Ascend to the parent level and restore the cursor remembered there.
    /// At the single root level this does nothing.
    pub fn back(&mut self)
        requires
            old(self).wf(),
        ensures
            final(self).wf(),
            final(self).explorer == old(self).explorer,
            final(self).nav() == back_spec(old(self).nav()),
            final(self).show_info_popup == old(self).show_info_popup,
            final(self).info_popup_data == old(self).info_popup_data,
    {
        if self.stack.len() > 1 {
            let _ = self.stack.pop();
            let li: usize = self.stack.len() - 1;
            self.selected = self.stack[li].last_selected;
            proof {
                assert(final(self).nav().stack =~= old(self).nav().stack.drop_last());
                assert(old(self).nav().stack.drop_last().last() == self.stack@[li as int].v());
            }
        }
    }

    /// Flip the detail view.  Turning it on fetches the selected node's
    /// attributes and child count (through the explorer and its cache);
    /// turning it off discards them.  With no selectable child the view
    /// stays off.
    pub fn toggle_info(&mut self)
        requires
            old(self).wf(),
        ensures
            final(self).wf(),
            final(self).buf() == old(self).buf(),
            final(self).stack@ == old(self).stack@,
            final(self).selected == old(self).selected,
            old(self).show_info_popup ==> !final(self).show_info_popup
                && final(self).info_popup_data is None
                && final(self).explorer == old(self).explorer,
            !old(self).show_info_popup && old(self).cur().children.len() == 0 ==> *final(self)
                == *old(self),
            !old(self).show_info_popup && old(self).selected < old(self).cur().children.len()
                ==> {
                let child = old(self).cur().children[old(self).selected as int];
                &&& final(self).show_info_popup
                &&& final(self).info_popup_data matches Some(d)
                    && d.attributes@ == spec_attributes(old(self).buf(), child.offset as int)
                    && d.child_count == spec_children_at(
                    old(self).buf(),
                    child.offset as int,
                ).len()
            },
    {
        if self.show_info_popup {
            self.show_info_popup = false;
            self.info_popup_data = None;
            return;
        }
        let len: usize = self.current_children_len();
        if self.selected < len {
            let li: usize = self.stack.len() - 1;
            let child: Node = self.stack[li].children[self.selected];
            proof {
                assert(old(self).nav().stack[li as int] == old(self).stack@[li as int].v());
                assert(child == old(self).cur().children[old(self).selected as int]);
                assert(child.wf(old(self).buf()));
            }
            let attributes = self.explorer.attributes(&child);
            let children = self.explorer.children(&child);
            self.info_popup_data = Some(InfoData { attributes, child_count: children.len() });
            self.show_info_popup = true;
            proof {
                assert(final(self).nav().stack =~= old(self).nav().stack);
            }
        }
    }
}

/// Moving down at the last child index is a no-op: the selection index is
/// unchanged.
pub proof fn lemma_down_at_last_is_noop(s: NavCore)
    requires
        s.stack.len() >= 1,
        s.stack.last().children.len() > 0,
        s.selected == s.stack.last().children.len() - 1,
    ensures
        down_spec(s) == s,
{
}

/// Moving up at index zero is a no-op: the selection index is unchanged.
pub proof fn lemma_up_at_zero_is_noop(s: NavCore)
    requires
        s.selected == 0,
    ensures
        up_spec(s) == s,
{
}

/// Descending into a child and ascending again restores the selection
/// index to exactly its pre-descend value, at the same stack depth.
pub proof fn lemma_descend_ascend(buf: Seq<u8>, s: NavCore)
    requires
        s.stack.len() >= 1,
        0 <= s.selected < s.stack.last().children.len(),
    ensures
        back_spec(enter_spec(buf, s)).selected == s.selected,
        back_spec(enter_spec(buf, s)).stack.len() == s.stack.len(),
{
    let e = enter_spec(buf, s);
    let updated = LevelV { last_selected: s.selected, ..s.stack.last() };
    assert(e.stack.drop_last() =~= s.stack.update(s.stack.len() - 1, updated));
    assert(e.stack.drop_last().last() == updated);
}

} // verus!
