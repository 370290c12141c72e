use xml_explorer::{compute_stats, Span};

fn text_of<'a>(xml: &'a [u8], s: Span) -> &'a [u8] {
    &xml[s.start..s.end]
}

#[test]
fn counts_tags_depth_and_per_level_tables() {
    let xml = b"<a><b>1</b><b>2</b><c/></a>";
    let stats = compute_stats(xml);
    assert_eq!(stats.tag_count, 8, "four start tags and four end tags");
    assert_eq!(stats.max_depth, 2);
    assert_eq!(stats.elements_per_level.len(), 32);
    assert_eq!(stats.elements_per_level[0], 1);
    assert_eq!(stats.elements_per_level[1], 3);
    assert_eq!(stats.elements_per_level[2], 0);

    let level0: Vec<&[u8]> = stats.unique_tags_per_level[0]
        .iter()
        .map(|s| text_of(xml, *s))
        .collect();
    assert_eq!(level0, vec![&b"a"[..]]);
    let level1: Vec<&[u8]> = stats.unique_tags_per_level[1]
        .iter()
        .map(|s| text_of(xml, *s))
        .collect();
    assert_eq!(level1, vec![&b"b"[..], &b"c"[..]], "first occurrence kept, duplicates dropped");
}

#[test]
fn empty_buffer_has_empty_stats() {
    let stats = compute_stats(b"");
    assert_eq!(stats.tag_count, 0);
    assert_eq!(stats.max_depth, 0);
    assert!(stats.elements_per_level.iter().all(|c| *c == 0));
    assert!(stats.unique_tags_per_level.iter().all(|v| v.is_empty()));
}

#[test]
fn unmatched_end_tags_saturate_depth_at_zero() {
    let xml = b"</x></y><a/>";
    let stats = compute_stats(xml);
    assert_eq!(stats.tag_count, 4);
    assert_eq!(stats.max_depth, 1);
    assert_eq!(stats.elements_per_level[0], 1);
}

#[test]
fn deep_nesting_counts_each_level() {
    let xml = b"<a><b><c><d/></c></b></a>";
    let stats = compute_stats(xml);
    assert_eq!(stats.max_depth, 4);
    assert_eq!(stats.tag_count, 8);
    for level in 0..4 {
        assert_eq!(stats.elements_per_level[level], 1);
        assert_eq!(stats.unique_tags_per_level[level].len(), 1);
    }
}

#[test]
fn depth_beyond_the_table_is_not_recorded_but_still_tracked() {
    // 33 nested elements: the maximum depth is seen, yet only the first 32
    // levels are tabulated.
    let mut doc = String::new();
    for i in 0..33 {
        doc.push_str(&format!("<d{}>", i));
    }
    for i in (0..33).rev() {
        doc.push_str(&format!("</d{}>", i));
    }
    let stats = compute_stats(doc.as_bytes());
    assert_eq!(stats.max_depth, 33);
    assert_eq!(stats.tag_count, 66);
    for level in 0..32 {
        assert_eq!(stats.elements_per_level[level], 1);
    }
}

#[test]
fn unique_tag_table_caps_at_128_names_per_level() {
    let mut doc = String::from("<r>");
    for i in 0..130 {
        doc.push_str(&format!("<t{}/>", i));
    }
    doc.push_str("</r>");
    let stats = compute_stats(doc.as_bytes());
    assert_eq!(stats.elements_per_level[1], 130, "every element is counted");
    assert_eq!(stats.unique_tags_per_level[1].len(), 128, "names beyond the cap are dropped");
}
