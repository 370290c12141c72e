use xml_explorer::scan::span_bytes;
use xml_explorer::{Node, Span, XmlExplorer};

fn text_of<'a>(xml: &'a [u8], s: Span) -> &'a [u8] {
    &xml[s.start..s.end]
}

#[test]
fn root_of_simple_document() {
    let xml = b"<a><b>1</b></a>";
    let explorer = XmlExplorer::new(xml);
    let root = explorer.root().expect("document has a root");
    assert_eq!(text_of(xml, root.tag), b"a");
    assert_eq!(root.offset, 0);
    assert_eq!(root.text, None);
}

#[test]
fn root_skips_prolog_and_comments() {
    let xml = b"<?xml version=\"1.0\"?>\n<!-- c -->\n<doc/>";
    let explorer = XmlExplorer::new(xml);
    let root = explorer.root().expect("document has a root");
    assert_eq!(text_of(xml, root.tag), b"doc");
    assert_eq!(xml[root.offset], b'<');
}

#[test]
fn empty_document_has_no_root() {
    let explorer = XmlExplorer::new(b"");
    assert!(explorer.root().is_none());
    let explorer = XmlExplorer::new(b"  just text  ");
    assert!(explorer.root().is_none());
}

#[test]
fn children_of_root_with_texts_and_self_closing() {
    // Root node tag `a`; children: `b` (text "1"), `b` (text "2"), `c` (no
    // text).
    let xml = b"<a><b>1</b><b>2</b><c/></a>";
    let mut explorer = XmlExplorer::new(xml);
    let root = explorer.root().unwrap();
    assert_eq!(text_of(xml, root.tag), b"a");
    let kids = explorer.children(&root);
    assert_eq!(kids.len(), 3);
    assert_eq!(text_of(xml, kids[0].tag), b"b");
    assert_eq!(span_bytes(xml, kids[0].text.unwrap()), b"1".to_vec());
    assert_eq!(text_of(xml, kids[1].tag), b"b");
    assert_eq!(span_bytes(xml, kids[1].text.unwrap()), b"2".to_vec());
    assert_eq!(text_of(xml, kids[2].tag), b"c");
    assert_eq!(kids[2].text, None);
    // Offsets point at each child's own `<`.
    assert_eq!(kids[0].offset, 3);
    assert_eq!(kids[1].offset, 11);
    assert_eq!(kids[2].offset, 19);
}

#[test]
fn comments_produce_no_child() {
    let xml = b"<a x=\"1\"><!-- skip --><b/></a>";
    let mut explorer = XmlExplorer::new(xml);
    let root = explorer.root().unwrap();
    let kids = explorer.children(&root);
    assert_eq!(kids.len(), 1);
    assert_eq!(text_of(xml, kids[0].tag), b"b");
}

#[test]
fn nested_elements_are_not_direct_children() {
    let xml = b"<a><b><c/><d/></b><e/></a>";
    let mut explorer = XmlExplorer::new(xml);
    let root = explorer.root().unwrap();
    let kids = explorer.children(&root);
    assert_eq!(kids.len(), 2);
    assert_eq!(text_of(xml, kids[0].tag), b"b");
    assert_eq!(text_of(xml, kids[1].tag), b"e");

    let inner = explorer.children(&kids[0]);
    assert_eq!(inner.len(), 2);
    assert_eq!(text_of(xml, inner[0].tag), b"c");
    assert_eq!(text_of(xml, inner[1].tag), b"d");
}

#[test]
fn only_first_text_run_is_kept() {
    let xml = b"<a><b>first<c/>second</b></a>";
    let mut explorer = XmlExplorer::new(xml);
    let root = explorer.root().unwrap();
    let kids = explorer.children(&root);
    assert_eq!(kids.len(), 1);
    assert_eq!(span_bytes(xml, kids[0].text.unwrap()), b"first".to_vec());
}

#[test]
fn children_twice_is_identical_and_scans_once() {
    let xml = b"<a><b>1</b><b>2</b><c/></a>";
    let mut explorer = XmlExplorer::new(xml);
    let root = explorer.root().unwrap();
    assert_eq!(explorer.scan_count(), 0);
    let first = explorer.children(&root);
    assert_eq!(explorer.scan_count(), 1);
    let second = explorer.children(&root);
    assert_eq!(explorer.scan_count(), 1, "second call performs no new scan");
    assert_eq!(first, second, "cache determinism");

    // A different offset scans once more; revisiting it does not.
    let inner_first = explorer.children(&first[0]);
    assert_eq!(explorer.scan_count(), 2);
    let inner_second = explorer.children(&first[0]);
    assert_eq!(explorer.scan_count(), 2);
    assert_eq!(inner_first, inner_second);
}

#[test]
fn out_of_range_offset_yields_empty_children() {
    let xml = b"<a><b/></a>";
    let mut explorer = XmlExplorer::new(xml);
    let bogus = Node {
        tag: Span { start: 0, end: 0 },
        text: None,
        offset: 1000,
        attributes_raw: Span { start: 0, end: 0 },
    };
    assert_eq!(explorer.children(&bogus).len(), 0);
}

#[test]
fn leaf_node_has_no_children() {
    let xml = b"<a><b>1</b></a>";
    let mut explorer = XmlExplorer::new(xml);
    let root = explorer.root().unwrap();
    let kids = explorer.children(&root);
    let leaf_kids = explorer.children(&kids[0]);
    assert_eq!(leaf_kids.len(), 0);
}

#[test]
fn attributes_delegate_to_the_extractor() {
    let xml = b"<a k1=\"v1\" k2=\"v2\"><b/></a>";
    let mut explorer = XmlExplorer::new(xml);
    let root = explorer.root().unwrap();
    let attrs = explorer.attributes(&root);
    assert_eq!(attrs.len(), 2);
    assert_eq!(text_of(xml, attrs[0].0), b"k1");
    assert_eq!(text_of(xml, attrs[0].1), b"v1");
    assert_eq!(text_of(xml, attrs[1].0), b"k2");
    assert_eq!(text_of(xml, attrs[1].1), b"v2");

    let kids = explorer.children(&root);
    assert_eq!(explorer.attributes(&kids[0]).len(), 0);
}

#[test]
fn same_tag_as_parent_child_ends_scan_early() {
    // A child carrying the parent's own tag name closes the scan at its end
    // tag: the matching end-tag name is how the bounded scan stops.
    let xml = b"<a><a>x</a><b/></a>";
    let mut explorer = XmlExplorer::new(xml);
    let root = explorer.root().unwrap();
    let kids = explorer.children(&root);
    assert_eq!(kids.len(), 0);
}
