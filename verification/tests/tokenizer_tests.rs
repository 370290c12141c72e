use xml_explorer::{stream_xml, Span, Token};

fn text_of<'a>(xml: &'a [u8], s: Span) -> &'a [u8] {
    &xml[s.start..s.end]
}

fn starts_and_ends(tokens: &[Token]) -> (usize, usize) {
    let mut starts = 0;
    let mut ends = 0;
    for t in tokens {
        match t {
            Token::StartTag { .. } => starts += 1,
            Token::EndTag { .. } => ends += 1,
            Token::Text { .. } => {}
        }
    }
    (starts, ends)
}

#[test]
fn simple_element_with_text() {
    let xml = b"<a>hello</a>";
    let tokens = stream_xml(xml);
    assert_eq!(tokens.len(), 3);
    match tokens[0] {
        Token::StartTag { pos, name, attrs } => {
            assert_eq!(pos, 0);
            assert_eq!(text_of(xml, name), b"a");
            assert_eq!(text_of(xml, attrs), b"");
        }
        _ => panic!("expected a start tag"),
    }
    match tokens[1] {
        Token::Text { content } => assert_eq!(text_of(xml, content), b"hello"),
        _ => panic!("expected text"),
    }
    match tokens[2] {
        Token::EndTag { name } => assert_eq!(text_of(xml, name), b"a"),
        _ => panic!("expected an end tag"),
    }
}

#[test]
fn text_is_trimmed_and_empty_runs_are_dropped() {
    let xml = b"<a>   hi there  </a>  ";
    let tokens = stream_xml(xml);
    assert_eq!(tokens.len(), 3);
    match tokens[1] {
        Token::Text { content } => assert_eq!(text_of(xml, content), b"hi there"),
        _ => panic!("expected text"),
    }

    let ws_only = b"<a>   </a>";
    let tokens = stream_xml(ws_only);
    assert_eq!(tokens.len(), 2, "whitespace-only runs emit no text token");
}

#[test]
fn self_closing_emits_start_then_synthetic_end_with_identical_name_range() {
    let xml = b"<x/>";
    let tokens = stream_xml(xml);
    assert_eq!(tokens.len(), 2);
    let start_name = match tokens[0] {
        Token::StartTag { pos, name, attrs } => {
            assert_eq!(pos, 0);
            assert_eq!(text_of(xml, name), b"x");
            assert_eq!(text_of(xml, attrs), b"");
            name
        }
        _ => panic!("expected a start tag"),
    };
    match tokens[1] {
        Token::EndTag { name } => assert_eq!(name, start_name),
        _ => panic!("expected a synthetic end tag"),
    }
}

#[test]
fn self_closing_attributes_exclude_trailing_slash() {
    let xml = b"<x a=\"1\"/>";
    let tokens = stream_xml(xml);
    assert_eq!(tokens.len(), 2);
    match tokens[0] {
        Token::StartTag { name, attrs, .. } => {
            assert_eq!(text_of(xml, name), b"x");
            assert_eq!(text_of(xml, attrs), b" a=\"1\"");
        }
        _ => panic!("expected a start tag"),
    }
}

#[test]
fn comments_produce_no_token() {
    let xml = b"<!-- skip --><a/>";
    let tokens = stream_xml(xml);
    assert_eq!(tokens.len(), 2);
    match tokens[0] {
        Token::StartTag { name, .. } => assert_eq!(text_of(xml, name), b"a"),
        _ => panic!("expected a start tag"),
    }
}

#[test]
fn processing_instruction_is_skipped() {
    let xml = b"<?xml version=\"1.0\"?><a/>";
    let tokens = stream_xml(xml);
    assert_eq!(tokens.len(), 2);
    match tokens[0] {
        Token::StartTag { pos, name, .. } => {
            assert_eq!(pos, 21);
            assert_eq!(text_of(xml, name), b"a");
        }
        _ => panic!("expected a start tag"),
    }
}

#[test]
fn truncated_input_ends_scan_cleanly() {
    // Missing closing tags: the scan emits the two start tags, no text,
    // and ends without failing.
    let xml = b"<a><b>";
    let tokens = stream_xml(xml);
    assert_eq!(tokens.len(), 2);
    match (&tokens[0], &tokens[1]) {
        (Token::StartTag { name: n0, .. }, Token::StartTag { name: n1, .. }) => {
            assert_eq!(text_of(xml, *n0), b"a");
            assert_eq!(text_of(xml, *n1), b"b");
        }
        _ => panic!("expected two start tags"),
    }
}

#[test]
fn unterminated_tag_is_dropped() {
    let xml = b"<a>text<b";
    let tokens = stream_xml(xml);
    assert_eq!(tokens.len(), 2);
    match tokens[1] {
        Token::Text { content } => assert_eq!(text_of(xml, content), b"text"),
        _ => panic!("expected text"),
    }
}

#[test]
fn empty_and_elementless_buffers() {
    assert_eq!(stream_xml(b"").len(), 0);
    assert_eq!(stream_xml(b"   \n\t ").len(), 0);
    let xml = b"just text";
    let tokens = stream_xml(xml);
    assert_eq!(tokens.len(), 1);
    match tokens[0] {
        Token::Text { content } => assert_eq!(text_of(xml, content), b"just text"),
        _ => panic!("expected text"),
    }
}

#[test]
fn balanced_document_has_equal_start_and_end_counts() {
    let xml = b"<a><b>1</b><b>2</b><c/></a>";
    let tokens = stream_xml(xml);
    let (starts, ends) = starts_and_ends(&tokens);
    assert_eq!(starts, 4);
    assert_eq!(ends, 4);

    let xml = b"<r><s t=\"u\"><v/></s>tail<w></w></r>";
    let tokens = stream_xml(xml);
    let (starts, ends) = starts_and_ends(&tokens);
    assert_eq!(starts, ends);
}

#[test]
fn nested_same_name_tags_tokenize_in_order() {
    let xml = b"<a><a>x</a></a>";
    let tokens = stream_xml(xml);
    assert_eq!(tokens.len(), 5);
    let (starts, ends) = starts_and_ends(&tokens);
    assert_eq!(starts, 2);
    assert_eq!(ends, 2);
}

#[test]
fn unquoted_value_ending_in_slash_reads_as_self_closing() {
    // Only the byte before `>` decides self-closing, so `<a x=y/>` is a
    // self-closing tag whose raw attribute text excludes the trailing `/`.
    let xml = b"<a x=y/>";
    let tokens = stream_xml(xml);
    assert_eq!(tokens.len(), 2);
    match (&tokens[0], &tokens[1]) {
        (Token::StartTag { name, attrs, .. }, Token::EndTag { name: en }) => {
            assert_eq!(text_of(xml, *name), b"a");
            assert_eq!(text_of(xml, *attrs), b" x=y");
            assert_eq!(en, name);
        }
        _ => panic!("expected a self-closing pair"),
    }
}
