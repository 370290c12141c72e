use xml_explorer::extract_attributes;

fn pairs<'a>(xml: &'a [u8], offset: usize) -> Vec<(&'a [u8], &'a [u8])> {
    extract_attributes(xml, offset)
        .iter()
        .map(|(k, v)| (&xml[k.start..k.end], &xml[v.start..v.end]))
        .collect()
}

#[test]
fn two_quoted_attributes_in_document_order() {
    let xml = b"<a k1=\"v1\" k2=\"v2\">";
    let attrs = pairs(xml, 0);
    assert_eq!(attrs.len(), 2);
    assert_eq!(attrs[0], (&b"k1"[..], &b"v1"[..]));
    assert_eq!(attrs[1], (&b"k2"[..], &b"v2"[..]));
}

#[test]
fn empty_raw_attribute_text_yields_no_pairs() {
    let xml = b"<a>";
    assert_eq!(extract_attributes(xml, 0).len(), 0);
    let xml = b"<a/>";
    assert_eq!(extract_attributes(xml, 0).len(), 0);
}

#[test]
fn single_quoted_value() {
    let xml = b"<a x='y z'>";
    let attrs = pairs(xml, 0);
    assert_eq!(attrs, vec![(&b"x"[..], &b"y z"[..])]);
}

#[test]
fn unquoted_value() {
    let xml = b"<a x=1 y=two>";
    let attrs = pairs(xml, 0);
    assert_eq!(attrs, vec![(&b"x"[..], &b"1"[..]), (&b"y"[..], &b"two"[..])]);
}

#[test]
fn whitespace_around_equals_is_skipped() {
    let xml = b"<a x = \"1\">";
    let attrs = pairs(xml, 0);
    assert_eq!(attrs, vec![(&b"x"[..], &b"1"[..])]);
}

#[test]
fn attribute_without_value_is_skipped() {
    let xml = b"<a foo bar=\"1\">";
    let attrs = pairs(xml, 0);
    assert_eq!(attrs, vec![(&b"bar"[..], &b"1"[..])]);
    let xml = b"<a foo>";
    assert_eq!(extract_attributes(xml, 0).len(), 0);
}

#[test]
fn unterminated_quote_drops_the_attribute() {
    let xml = b"<a x=\"1";
    assert_eq!(extract_attributes(xml, 0).len(), 0);
    let xml = b"<a ok=\"1\" x=\"2";
    let attrs = pairs(xml, 0);
    assert_eq!(attrs, vec![(&b"ok"[..], &b"1"[..])]);
}

#[test]
fn values_are_raw_substrings_without_decoding() {
    let xml = b"<a x=\"a&amp;b\">";
    let attrs = pairs(xml, 0);
    assert_eq!(attrs, vec![(&b"x"[..], &b"a&amp;b"[..])]);
}

#[test]
fn offset_not_at_a_tag_yields_no_pairs() {
    let xml = b"<a x=\"1\">";
    assert_eq!(extract_attributes(xml, 1).len(), 0);
    assert_eq!(extract_attributes(xml, 100).len(), 0);
}

#[test]
fn extraction_at_a_later_tag_offset() {
    let xml = b"<a><b k=\"v\"/></a>";
    let attrs = pairs(xml, 3);
    assert_eq!(attrs, vec![(&b"k"[..], &b"v"[..])]);
}
