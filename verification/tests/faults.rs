use lhef::ParseError;

#[test]
fn each_fault_has_its_sentence() {
    assert_eq!(
        ParseError::BadFirstLine("<x>".to_string()).message(),
        "First line '<x>' in input does start with '<LesHouchesEvents version='"
    );
    assert_eq!(
        ParseError::BadHeaderStart("<x>".to_string()).message(),
        "Encountered unrecognized line '<x>', expected a header starting with '<!--', '<header>', or the init block starting with '<init>'"
    );
    assert_eq!(
        ParseError::BadEventStart("<x>\n".to_string()).message(),
        "Encountered unrecognized line '<x>\n', expected an event starting with '<event>'"
    );
    assert_eq!(
        ParseError::UnsupportedVersion("9.9".to_string()).message(),
        "Unsupported version 9.9, only 1.0, 2.0, 3.0 are supported"
    );
    assert_eq!(ParseError::MissingVersion.message(), "Version information missing");
    assert_eq!(ParseError::MissingEntry("NUP".to_string()).message(), "Missing entry 'NUP'");
    assert_eq!(
        ParseError::ConversionError("abc".to_string()).message(),
        "Failed to convert to number: 'abc'"
    );
    assert_eq!(
        ParseError::EndOfFile("event").message(),
        "Encountered 'event' block without closing tag"
    );
}

#[test]
fn tags_are_as_the_format_writes_them() {
    assert_eq!(lhef::error::LHEF_TAG_OPEN, "<LesHouchesEvents version=");
    assert_eq!(lhef::error::COMMENT_START, "<!--");
    assert_eq!(lhef::error::COMMENT_END, "-->");
    assert_eq!(lhef::error::HEADER_START, "<header>");
    assert_eq!(lhef::error::HEADER_END, "</header>");
    assert_eq!(lhef::error::INIT_START, "<init>");
    assert_eq!(lhef::error::INIT_END, "</init>");
    assert_eq!(lhef::error::EVENT_START, "<event>");
    assert_eq!(lhef::error::EVENT_END, "</event>");
    assert_eq!(lhef::error::LHEF_LAST_LINE, "</LesHouchesEvents>");
}
