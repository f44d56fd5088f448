use rblog::front_matter::{split_front_matter, FrontMatterError};

#[test]
fn splits_header_and_body() {
    let raw = "---\ntitle: Hello\n---\nThe body.\n";
    let (header, body) = split_front_matter(raw).unwrap();
    assert_eq!(header, "---\ntitle: Hello\n");
    assert_eq!(body, "\nThe body.\n");
    // the law: header, then `---`, then body, is the file again
    assert_eq!(format!("{}---{}", header, body), raw);
}

#[test]
fn body_may_hold_more_dashes() {
    let raw = "---\ntitle: x\n---\na --- b\n";
    let (header, body) = split_front_matter(raw).unwrap();
    assert_eq!(header, "---\ntitle: x\n");
    assert_eq!(body, "\na --- b\n");
}

#[test]
fn header_not_found() {
    let err = split_front_matter("no front matter here").unwrap_err();
    assert_eq!(err, FrontMatterError::HeaderNotFound);
    assert_eq!(err.message(), "--- header not found");
}

#[test]
fn content_not_found() {
    let err = split_front_matter("---\ntitle: x\n").unwrap_err();
    assert_eq!(err, FrontMatterError::ContentNotFound);
    assert_eq!(err.message(), "--- content not found");
}

#[test]
fn empty_header() {
    let (header, body) = split_front_matter("------rest").unwrap();
    assert_eq!(header, "---");
    assert_eq!(body, "rest");
}

#[test]
fn header_not_at_start_uses_offsets_as_written() {
    // the first `---` at byte 2; the next one 1 byte after it: the header
    // is bytes 2..4 and the body starts at its length plus 3
    let raw = "ab---c---defgh";
    let (header, body) = split_front_matter(raw).unwrap();
    assert_eq!(header, "--");
    assert_eq!(body, "c---defgh");
}
