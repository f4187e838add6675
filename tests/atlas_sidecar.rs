use texture_extract::atlas_parser::parse;

const HEADER: &str = "sheet.png\nsize: 64, 64\nformat: RGBA8888\n";

#[test]
fn atlas_block_parse() {
    let text = format!("{}sprite1\n  rotate: false\n  xy: 5, 6\n  size: 7, 8\n  offset: 0, 0\n", HEADER);
    let frames = parse(&text);
    assert_eq!(frames.len(), 1);
    assert_eq!(frames[0].name, "sprite1");
    assert_eq!(frames[0].rect, (5, 6, 7, 8));
    assert_eq!(frames[0].offset, (0, 0));
    assert!(!frames[0].rotated);
}

#[test]
fn atlas_blocks_keep_order() {
    let text = format!(
        "{}second\n  rotate: true\n  xy: 1, 2\n  size: 3, 4\n\nfirst\n  rotate: false\n  xy: 9, 8\n  size: 7, 6\n  offset: 2, 1\n",
        HEADER
    );
    let frames = parse(&text);
    assert_eq!(frames.len(), 2);
    assert_eq!(frames[0].name, "second");
    assert!(frames[0].rotated);
    assert_eq!(frames[0].rect, (1, 2, 3, 4));
    assert_eq!(frames[1].name, "first");
    assert!(!frames[1].rotated);
    assert_eq!(frames[1].rect, (9, 8, 7, 6));
    assert_eq!(frames[1].offset, (2, 1));
}

#[test]
fn atlas_unknown_key_is_ignored() {
    let with = format!(
        "{}s\n  rotate: false\n  xy: 1, 2\n  size: 3, 4\n  orig: 50, 60\n  offset: 5, 6\n  index: 3\n",
        HEADER
    );
    let without = format!("{}s\n  rotate: false\n  xy: 1, 2\n  size: 3, 4\n  offset: 5, 6\n", HEADER);
    let a = parse(&with);
    let b = parse(&without);
    assert_eq!(a.len(), 1);
    assert_eq!(b.len(), 1);
    assert_eq!(a[0].name, b[0].name);
    assert_eq!(a[0].rect, b[0].rect);
    assert_eq!(a[0].offset, b[0].offset);
    assert_eq!(a[0].rotated, b[0].rotated);
    assert_eq!(a[0].offset, (5, 6));
}

#[test]
fn atlas_keys_before_any_frame_are_ignored() {
    let text = format!("{}s\n  xy: 1, 2\n  size: 3, 4\n  rotate: true\n", HEADER);
    let frames = parse(&text);
    assert_eq!(frames.len(), 1);
    assert_eq!(frames[0].rect, (0, 0, 0, 0));
    assert!(frames[0].rotated);
}

#[test]
fn atlas_short_coordinates_leave_frame_unchanged() {
    let text = format!("{}s\n  rotate: false\n  xy: 1, 2\n  xy: 7\n  size: a, 5\n", HEADER);
    let frames = parse(&text);
    assert_eq!(frames[0].rect, (1, 2, 0, 0));
}

#[test]
fn atlas_unparsable_tokens_are_dropped() {
    let text = format!("{}s\n  rotate: false\n  xy: x, 3, 4\n", HEADER);
    let frames = parse(&text);
    assert_eq!(frames[0].rect, (3, 4, 0, 0));
}

#[test]
fn atlas_header_only_or_empty() {
    assert_eq!(parse("").len(), 0);
    assert_eq!(parse(HEADER).len(), 0);
    assert_eq!(parse("a\nb\nrotate: true\n").len(), 0);
}

#[test]
fn atlas_crlf_lines() {
    let text = "sheet.png\r\nsize: 4,4\r\nformat: RGBA8888\r\nnamed\r\n  rotate: true\r\n  xy: 1, 1\r\n  size: 2, 3\r\n";
    let frames = parse(text);
    assert_eq!(frames.len(), 1);
    assert_eq!(frames[0].name, "named");
    assert!(frames[0].rotated);
    assert_eq!(frames[0].rect, (1, 1, 2, 3));
}

#[test]
fn atlas_nested_name_and_last_block_without_newline() {
    let text = format!("{}group/part\n  rotate: false\n  size: 10, 12", HEADER);
    let frames = parse(&text);
    assert_eq!(frames.len(), 1);
    assert_eq!(frames[0].name, "group/part");
    assert_eq!(frames[0].rect, (0, 0, 10, 12));
}
