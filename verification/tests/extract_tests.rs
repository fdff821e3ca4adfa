use sitegen::frontmatter::ExtractError;
use sitegen::frontmatter::extract;

#[test]
fn round_trip_extracts_block_and_body() {
    let m = "title = \"A\"\ndate = 2024-01-01";
    let b = "\nBody text";
    let raw = format!("---\n{}\n---{}", m, b);
    let (block, body) = extract(&raw).unwrap();
    assert_eq!(block, format!("{}\n", m));
    assert_eq!(body, b);
}

#[test]
fn round_trip_empty_block() {
    let (block, body) = extract("---\n\n---rest").unwrap();
    assert_eq!(block, "\n");
    assert_eq!(body, "rest");
}

#[test]
fn missing_opening_delimiter_fails() {
    let r = extract("title = \"A\"\n---\nbody");
    assert_eq!(r, Err(ExtractError::MissingOpeningDelimiter));
}

#[test]
fn missing_closing_delimiter_fails() {
    let r = extract("---\ntitle = \"A\"\nbody without end");
    assert_eq!(r, Err(ExtractError::MissingClosingDelimiter));
}

#[test]
fn empty_document_fails_with_missing_closing() {
    assert_eq!(extract(""), Err(ExtractError::MissingClosingDelimiter));
}

#[test]
fn crlf_line_endings_are_normalized() {
    let (block, body) = extract("---\r\ntitle\r\n---\r\nbody").unwrap();
    assert_eq!(block, "title\n");
    assert_eq!(body, "\nbody");
}

#[test]
fn closing_delimiter_inside_a_line_is_found() {
    let (block, body) = extract("---\nab---cd").unwrap();
    assert_eq!(block, "ab");
    assert_eq!(body, "cd");
}

#[test]
fn error_messages_name_the_delimiter() {
    assert_eq!(
        ExtractError::MissingOpeningDelimiter.message(),
        "expected '---' on first line"
    );
    assert_eq!(ExtractError::MissingClosingDelimiter.message(), "expected second '---'");
}

#[test]
fn adjacent_delimiters_give_empty_block_and_body() {
    assert_eq!(extract("---\n---"), Ok((String::new(), String::new())));
}
