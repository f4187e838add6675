use texture_extract::plist_frames::{
    frames_from_document, parse_offset, parse_plist_frames, parse_rect, PlistNode, SidecarError,
};

fn s(t: &str) -> PlistNode {
    PlistNode::String(t.to_string())
}

fn dict(entries: Vec<(&str, PlistNode)>) -> PlistNode {
    PlistNode::Dictionary(entries.into_iter().map(|(k, v)| (k.to_string(), v)).collect())
}

fn sheet(frames: Vec<(&str, PlistNode)>) -> PlistNode {
    dict(vec![("frames", dict(frames))])
}

const XML_HEAD: &str = "<?xml version=\"1.0\" encoding=\"UTF-8\"?>\n<!DOCTYPE plist PUBLIC \"-//Apple//DTD PLIST 1.0//EN\" \"http://www.apple.com/DTDs/PropertyList-1.0.dtd\">\n<plist version=\"1.0\">\n";

#[test]
fn structured_round_trip() {
    let doc = sheet(vec![(
        "a",
        dict(vec![
            ("frame", s("{{10,20},{30,40}}")),
            ("offset", s("{1,2}")),
            ("rotated", PlistNode::Boolean(true)),
        ]),
    )]);
    let frames = frames_from_document(&doc).unwrap();
    assert_eq!(frames.len(), 1);
    assert_eq!(frames[0].name, "a");
    assert_eq!(frames[0].rect, (10, 20, 30, 40));
    assert_eq!(frames[0].offset, (1, 2));
    assert!(frames[0].rotated);
}

#[test]
fn structured_round_trip_from_xml_bytes() {
    let xml = format!(
        "{}<dict><key>frames</key><dict><key>a</key><dict><key>frame</key><string>{{{{10,20}},{{30,40}}}}</string><key>offset</key><string>{{1,2}}</string><key>rotated</key><true/></dict></dict></dict></plist>\n",
        XML_HEAD
    );
    let frames = parse_plist_frames(xml.as_bytes()).unwrap();
    assert_eq!(frames.len(), 1);
    assert_eq!(frames[0].name, "a");
    assert_eq!(frames[0].rect, (10, 20, 30, 40));
    assert_eq!(frames[0].offset, (1, 2));
    assert!(frames[0].rotated);
}

#[test]
fn xml_entries_keep_document_order() {
    let xml = format!(
        "{}<dict><key>frames</key><dict><key>zeta</key><dict><key>frame</key><string>{{{{1,2}},{{3,4}}}}</string></dict><key>alpha</key><dict><key>frame</key><string>{{{{5,6}},{{7,8}}}}</string></dict></dict></dict></plist>\n",
        XML_HEAD
    );
    let frames = parse_plist_frames(xml.as_bytes()).unwrap();
    assert_eq!(frames.len(), 2);
    assert_eq!(frames[0].name, "zeta");
    assert_eq!(frames[0].rect, (1, 2, 3, 4));
    assert_eq!(frames[0].offset, (0, 0));
    assert!(!frames[0].rotated);
    assert_eq!(frames[1].name, "alpha");
    assert_eq!(frames[1].rect, (5, 6, 7, 8));
}

#[test]
fn malformed_bytes_are_rejected() {
    assert_eq!(parse_plist_frames(b"this is not a plist").unwrap_err(), SidecarError::Malformed);
}

#[test]
fn entry_without_frame_key_is_skipped() {
    let doc = sheet(vec![
        ("a", dict(vec![("offset", s("{1,2}"))])),
        ("b", dict(vec![("frame", s("{{1,2},{3,4}}"))])),
        ("c", s("not a dictionary")),
    ]);
    let frames = frames_from_document(&doc).unwrap();
    assert_eq!(frames.len(), 1);
    assert_eq!(frames[0].name, "b");
    assert_eq!(frames[0].rect, (1, 2, 3, 4));
}

#[test]
fn defaults_when_offset_and_rotated_absent() {
    let doc = sheet(vec![("x", dict(vec![("frame", s("{{0,0},{8,9}}")), ("rotated", s("yes"))]))]);
    let frames = frames_from_document(&doc).unwrap();
    assert_eq!(frames[0].offset, (0, 0));
    assert!(!frames[0].rotated);
}

#[test]
fn documents_without_frames_give_nothing() {
    assert_eq!(frames_from_document(&PlistNode::Other).unwrap().len(), 0);
    assert_eq!(frames_from_document(&dict(vec![("metadata", dict(vec![]))])).unwrap().len(), 0);
    assert_eq!(frames_from_document(&dict(vec![("frames", s("x"))])).unwrap().len(), 0);
}

#[test]
fn three_token_rect_is_a_shape_error() {
    assert_eq!(parse_rect("{{1,2,3}}"), Err(SidecarError::RectShape));
    let doc = sheet(vec![("a", dict(vec![("frame", s("{{1,2,3}}"))]))]);
    assert_eq!(frames_from_document(&doc).unwrap_err(), SidecarError::RectShape);
}

#[test]
fn rect_texts() {
    assert_eq!(parse_rect("{{10,20},{30,40}}"), Ok((10, 20, 30, 40)));
    assert_eq!(parse_rect("{{ 1, 2 },{ 3 ,4}}"), Ok((1, 2, 3, 4)));
    assert_eq!(parse_rect("{{1,2},{3,x}}"), Err(SidecarError::BadNumber));
    assert_eq!(parse_rect("{{1,2},{3,-4}}"), Err(SidecarError::BadNumber));
    assert_eq!(parse_rect("{{1,2},{3,4294967296}}"), Err(SidecarError::BadNumber));
    assert_eq!(parse_rect("{{1,2},{3,4294967295}}"), Ok((1, 2, 3, 4294967295)));
    assert_eq!(parse_rect("{{+1,2},{3,4}}"), Ok((1, 2, 3, 4)));
    assert_eq!(parse_rect("{{1,2},{3,4},{5}}"), Err(SidecarError::RectShape));
    assert_eq!(parse_rect(""), Err(SidecarError::RectShape));
}

#[test]
fn offset_texts() {
    assert_eq!(parse_offset("{1,2}"), Ok((1, 2)));
    assert_eq!(parse_offset("{1,2,3}"), Err(SidecarError::OffsetShape));
    assert_eq!(parse_offset("{1,}"), Err(SidecarError::BadNumber));
    let doc = sheet(vec![("a", dict(vec![("frame", s("{{1,2},{3,4}}")), ("offset", s("{7}"))]))]);
    assert_eq!(frames_from_document(&doc).unwrap_err(), SidecarError::OffsetShape);
}
