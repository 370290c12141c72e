use xml_explorer::{Span, TuiState};

fn text_of<'a>(xml: &'a [u8], s: Span) -> &'a [u8] {
    &xml[s.start..s.end]
}

const DOC: &[u8] = b"<a><b>1</b><b>2</b><c/></a>";

#[test]
fn initial_state_lists_the_root_element() {
    let mut state = TuiState::new(DOC);
    assert_eq!(state.stack.len(), 1);
    assert_eq!(state.selected, 0);
    let level = state.get_current_level();
    assert!(level.tag.is_none());
    assert_eq!(level.children.len(), 1);
    assert_eq!(text_of(DOC, level.children[0].tag), b"a");
    assert_eq!(state.current_children_len(), 1);
    assert!(!state.show_info_popup);
    assert!(state.info_popup_data.is_none());
}

#[test]
fn empty_document_gives_an_empty_root_level() {
    let mut state = TuiState::new(b"  no elements here ");
    assert_eq!(state.stack.len(), 1);
    assert_eq!(state.current_children_len(), 0);
    // Every transition is a no-op on the empty level.
    state.go_down();
    state.go_up();
    state.enter();
    state.back();
    state.toggle_info();
    assert_eq!(state.stack.len(), 1);
    assert_eq!(state.selected, 0);
    assert!(!state.show_info_popup);
}

#[test]
fn enter_descends_into_the_selected_child() {
    let mut state = TuiState::new(DOC);
    state.enter();
    assert_eq!(state.stack.len(), 2);
    assert_eq!(state.selected, 0);
    let level = state.get_current_level();
    assert_eq!(text_of(DOC, level.tag.unwrap()), b"a");
    assert_eq!(level.children.len(), 3);
    assert_eq!(text_of(DOC, level.children[0].tag), b"b");
    assert_eq!(text_of(DOC, level.children[2].tag), b"c");
}

#[test]
fn descend_then_ascend_restores_the_selection_index() {
    let mut state = TuiState::new(DOC);
    state.enter();
    state.go_down();
    state.go_down();
    assert_eq!(state.selected, 2);
    state.enter();
    assert_eq!(state.selected, 0);
    assert_eq!(state.stack.len(), 3);
    state.back();
    assert_eq!(state.selected, 2, "selection restored to pre-descend value");
    assert_eq!(state.stack.len(), 2);
    state.back();
    assert_eq!(state.selected, 0);
    assert_eq!(state.stack.len(), 1);
}

#[test]
fn move_down_at_last_index_and_up_at_zero_are_noops() {
    let mut state = TuiState::new(DOC);
    state.enter();
    state.go_up();
    assert_eq!(state.selected, 0, "move-up at index 0 is a no-op");
    state.go_down();
    state.go_down();
    assert_eq!(state.selected, 2);
    state.go_down();
    assert_eq!(state.selected, 2, "move-down at the last index is a no-op");
}

#[test]
fn back_at_the_root_level_is_a_noop() {
    let mut state = TuiState::new(DOC);
    state.back();
    assert_eq!(state.stack.len(), 1);
    assert_eq!(state.selected, 0);
}

#[test]
fn page_and_jump_movement_clamps() {
    let mut state = TuiState::new(DOC);
    state.enter();
    state.page_down();
    assert_eq!(state.selected, 2, "page-down clamps to the last child");
    state.page_up();
    assert_eq!(state.selected, 0, "page-up clamps to the first child");
    state.end();
    assert_eq!(state.selected, 2);
    state.home();
    assert_eq!(state.selected, 0);
}

#[test]
fn toggle_info_reports_attributes_and_child_count() {
    let xml = b"<a k1=\"v1\" k2=\"v2\"><b/><c/></a>";
    let mut state = TuiState::new(xml);
    state.toggle_info();
    assert!(state.show_info_popup);
    let info = state.info_popup_data.as_ref().unwrap();
    assert_eq!(info.attributes.len(), 2);
    assert_eq!(text_of(xml, info.attributes[0].0), b"k1");
    assert_eq!(text_of(xml, info.attributes[0].1), b"v1");
    assert_eq!(info.child_count, 2);
    // Toggling off discards the fetched data.
    state.toggle_info();
    assert!(!state.show_info_popup);
    assert!(state.info_popup_data.is_none());
}

#[test]
fn toggle_info_on_childless_node_reports_zero_attributes_and_children() {
    let mut state = TuiState::new(DOC);
    state.enter();
    state.end();
    let level = state.get_current_level();
    assert_eq!(text_of(DOC, level.children[2].tag), b"c");
    state.toggle_info();
    assert!(state.show_info_popup);
    let info = state.info_popup_data.as_ref().unwrap();
    assert_eq!(info.attributes.len(), 0);
    assert_eq!(info.child_count, 0);
}

#[test]
fn enter_on_a_leaf_gives_an_empty_level() {
    let mut state = TuiState::new(DOC);
    state.enter();
    state.enter();
    assert_eq!(state.stack.len(), 3);
    assert_eq!(state.current_children_len(), 0);
    assert_eq!(state.selected, 0);
    // Descending further does nothing.
    state.enter();
    assert_eq!(state.stack.len(), 3);
}
