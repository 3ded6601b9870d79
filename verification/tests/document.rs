use lhef::{Lines, ParseError, Reader};

const MINIMAL: &str = "<LesHouchesEvents version=\"3.0\">
<init>
2212 2212 6.5e3 6500. 0 0 13000 13000 -4 1
1.5 0.25 1e0 66
</init>
<event>
2 66 1. 91.188 -1 0.118
21 -1 0 0 501 502 0. 0. 100.5 100.5 0. 0. 9.
-11 1 1 2 0 0 1.5 -2.5 3e1 30.1 5.11e-4 0. -1.
# a note
</event>
<event>
0 66 0.5 10 0.007 0.1
</event>
</LesHouchesEvents>
";

fn open(text: &str) -> Result<Reader, ParseError> {
    Reader::new(Lines::new(text))
}

fn fault_of(text: &str) -> ParseError {
    match open(text) {
        Ok(_) => panic!("the document was accepted"),
        Err(e) => e,
    }
}

fn value(x: &lhef::Real) -> f64 {
    x.as_str().parse::<f64>().unwrap()
}

#[test]
fn minimal_document_round_trip() {
    let mut reader = open(MINIMAL).unwrap();
    assert_eq!(reader.version(), "3.0");
    assert_eq!(reader.header(), "");
    assert_eq!(reader.heprup().NPRUP, 1);
    assert!(matches!(reader.event(), Ok(Some(_))));
    assert!(matches!(reader.event(), Ok(Some(_))));
    assert!(matches!(reader.event(), Ok(None)));
}

#[test]
fn end_of_events_is_given_again() {
    let mut reader = open(MINIMAL).unwrap();
    let mut events = 0;
    while let Ok(Some(_)) = reader.event() {
        events += 1;
    }
    assert_eq!(events, 2);
    for _ in 0..3 {
        assert!(matches!(reader.event(), Ok(None)));
    }
}

#[test]
fn run_information_is_decoded() {
    let reader = open(MINIMAL).unwrap();
    let run = reader.heprup();
    assert_eq!(run.IDBMUP, [2212, 2212]);
    assert_eq!(value(&run.EBMUP[0]), 6500.0);
    assert_eq!(value(&run.EBMUP[1]), 6500.0);
    assert_eq!(run.EBMUP[0].as_str(), "6.5e3");
    assert_eq!(run.PDFGUP, [0, 0]);
    assert_eq!(run.PDFSUP, [13000, 13000]);
    assert_eq!(run.IDWTUP, -4);
    assert_eq!(run.NPRUP, 1);
    assert_eq!(run.XSECUP.len(), 1);
    assert_eq!(run.XERRUP.len(), 1);
    assert_eq!(run.XMAXUP.len(), 1);
    assert_eq!(run.LPRUP, vec![66]);
    assert_eq!(value(&run.XSECUP[0]), 1.5);
    assert_eq!(value(&run.XERRUP[0]), 0.25);
    assert_eq!(value(&run.XMAXUP[0]), 1.0);
    assert_eq!(run.info, "");
}

#[test]
fn events_are_decoded() {
    let mut reader = open(MINIMAL).unwrap();
    let first = reader.event().unwrap().unwrap();
    assert_eq!(first.NUP, 2);
    assert_eq!(first.IDRUP, 66);
    assert_eq!(value(&first.XWGTUP), 1.0);
    assert_eq!(value(&first.SCALUP), 91.188);
    assert_eq!(value(&first.AQEDUP), -1.0);
    assert_eq!(value(&first.AQCDUP), 0.118);
    assert_eq!(first.IDUP, vec![21, -11]);
    assert_eq!(first.ISTUP, vec![-1, 1]);
    assert_eq!(first.MOTHUP, vec![[0, 0], [1, 2]]);
    assert_eq!(first.ICOLUP, vec![[501, 502], [0, 0]]);
    assert_eq!(first.PUP.len(), 2);
    let momentum: Vec<f64> = first.PUP[1].iter().map(value).collect();
    assert_eq!(momentum, vec![1.5, -2.5, 30.0, 30.1, 5.11e-4]);
    assert_eq!(value(&first.VTIMUP[0]), 0.0);
    assert_eq!(value(&first.SPINUP[0]), 9.0);
    assert_eq!(value(&first.SPINUP[1]), -1.0);
    assert_eq!(first.info, "# a note\n");
    let second = reader.event().unwrap().unwrap();
    assert_eq!(second.NUP, 0);
    assert!(second.IDUP.is_empty());
    assert!(second.PUP.is_empty());
    assert_eq!(second.info, "");
}

#[test]
fn columns_are_as_long_as_the_counts() {
    let text = "<LesHouchesEvents version=\"1.0\">
<init>
1 2 3 4 5 6 7 8 9 3
1 2 3 4
5 6 7 8
9 10 11 12
</init>
<event>
3 1 1 1 1 1
1 2 3 4 5 6 7 8 9 10 11 12 13
1 2 3 4 5 6 7 8 9 10 11 12 13
1 2 3 4 5 6 7 8 9 10 11 12 13
</event>
</LesHouchesEvents>
";
    let mut reader = open(text).unwrap();
    let run = reader.heprup();
    assert_eq!(run.NPRUP, 3);
    assert_eq!(run.XSECUP.len(), 3);
    assert_eq!(run.XERRUP.len(), 3);
    assert_eq!(run.XMAXUP.len(), 3);
    assert_eq!(run.LPRUP.len(), 3);
    assert_eq!(run.LPRUP, vec![4, 8, 12]);
    let event = reader.event().unwrap().unwrap();
    assert_eq!(event.NUP, 3);
    assert_eq!(event.IDUP.len(), 3);
    assert_eq!(event.ISTUP.len(), 3);
    assert_eq!(event.MOTHUP.len(), 3);
    assert_eq!(event.ICOLUP.len(), 3);
    assert_eq!(event.PUP.len(), 3);
    assert_eq!(event.VTIMUP.len(), 3);
    assert_eq!(event.SPINUP.len(), 3);
}

#[test]
fn unsupported_version_is_named() {
    let e = fault_of("<LesHouchesEvents version=\"9.9\">\n<init>\n");
    assert_eq!(e, ParseError::UnsupportedVersion("9.9".to_string()));
    let e = fault_of("<LesHouchesEvents version=\"\">\n");
    assert_eq!(e, ParseError::UnsupportedVersion("".to_string()));
    let e = fault_of("<LesHouchesEvents version=\"3.0\n");
    assert_eq!(e, ParseError::BadFirstLine("<LesHouchesEvents version=\"3.0\n".to_string()));
    let e = fault_of("<LesHouchesEvents version=\"3\n");
    assert_eq!(e, ParseError::UnsupportedVersion("3".to_string()));
}

#[test]
fn versions_one_to_three_are_accepted() {
    for version in ["1.0", "2.0", "3.0"] {
        let text = format!(
            "  <LesHouchesEvents version=\"{}\">  \n<init>\n1 2 3 4 5 6 7 8 9 0\n</init>\n",
            version
        );
        let reader = open(&text).unwrap();
        assert_eq!(reader.version(), version);
    }
}

#[test]
fn missing_version() {
    let e = fault_of("<LesHouchesEvents version=\n");
    assert_eq!(e, ParseError::MissingVersion);
}

#[test]
fn bad_first_line() {
    let e = fault_of("<LesHouches version=\"3.0\">\n");
    assert_eq!(e, ParseError::BadFirstLine("<LesHouches version=\"3.0\">\n".to_string()));
    let e = fault_of("<LesHouchesEvents version=\"3.0\"/>\n");
    assert_eq!(e, ParseError::BadFirstLine("<LesHouchesEvents version=\"3.0\"/>\n".to_string()));
    let e = fault_of("<LesHouchesEvents version=\"3.0\"\n");
    assert_eq!(e, ParseError::BadFirstLine("<LesHouchesEvents version=\"3.0\"\n".to_string()));
    let e = fault_of("");
    assert_eq!(e, ParseError::BadFirstLine("".to_string()));
}

#[test]
fn what_follows_a_third_quote_is_not_looked_at() {
    let text = "<LesHouchesEvents version=\"2.0\">\" encoding=\"x\"\n<init>\n1 2 3 4 5 6 7 8 9 0\n</init>\n";
    let reader = open(text).unwrap();
    assert_eq!(reader.version(), "2.0");
}

fn event_fault(text: &str) -> ParseError {
    let mut reader = open(text).unwrap();
    loop {
        match reader.event() {
            Ok(Some(_)) => {}
            Ok(None) => panic!("the events ended without a fault"),
            Err(e) => return e,
        }
    }
}

const OPENING: &str = "<LesHouchesEvents version=\"3.0\">
<init>
1 2 3 4 5 6 7 8 9 0
</init>
";

fn with_opening(rest: &str) -> String {
    format!("{}{}", OPENING, rest)
}

#[test]
fn truncated_event_is_end_of_file() {
    let text = with_opening(
        "<event>
1 66 1. 91.188 -1 0.118
21 -1 0 0 501 502 0. 0. 100.5 100.5 0. 0. 9.
left open
",
    );
    assert_eq!(event_fault(&text), ParseError::EndOfFile("event"));
    let text = with_opening("<event>\n0 66 1. 91.188 -1 0.118");
    assert_eq!(event_fault(&text), ParseError::EndOfFile("event"));
}

#[test]
fn event_truncated_among_its_particles_is_end_of_file() {
    let text = with_opening("<event>\n2 66 1. 91.188 -1 0.118\n21 -1 0 0 501 502 0. 0. 1. 1. 0. 0. 9.\n");
    assert_eq!(event_fault(&text), ParseError::EndOfFile("event"));
    let text = with_opening("<event>\n2 66 1. 91.188 -1 0.118\n");
    assert_eq!(event_fault(&text), ParseError::EndOfFile("event"));
    let text = with_opening("<event>\n");
    assert_eq!(event_fault(&text), ParseError::EndOfFile("event"));
    let text = with_opening("<event>");
    assert_eq!(event_fault(&text), ParseError::EndOfFile("event"));
}

#[test]
fn line_cut_in_the_middle_misses_an_entry() {
    let text = with_opening("<event>\n2 66 1. 91.188 -1 0.118\n21 -1 0 0 501 502 0. 0. 1. 1. 0. 0. 9.\n-11 1");
    assert_eq!(event_fault(&text), ParseError::MissingEntry("MOTHUP(2, 1)".to_string()));
    let text = with_opening("<event>\n2 66 1.");
    assert_eq!(event_fault(&text), ParseError::MissingEntry("SCALUP".to_string()));
    let text = with_opening("<event>\n2 66 1. 91.188 -1 0.118\n\n");
    assert_eq!(event_fault(&text), ParseError::MissingEntry("IDUP(1)".to_string()));
    let e = fault_of("<LesHouchesEvents version=\"3.0\">\n<init>\n1 2 3 4 5 6 7 8 9 2\n1 2 3 4\n1 2");
    assert_eq!(e, ParseError::MissingEntry("XMAXUP(2)".to_string()));
}

#[test]
fn truncated_run_information_is_end_of_file() {
    let e = fault_of("<LesHouchesEvents version=\"3.0\">\n<init>\n");
    assert_eq!(e, ParseError::EndOfFile("init"));
    let e = fault_of("<LesHouchesEvents version=\"3.0\">\n<init>");
    assert_eq!(e, ParseError::EndOfFile("init"));
    let e = fault_of("<LesHouchesEvents version=\"3.0\">\n<init>\n1 2 3 4 5 6 7 8 9 2\n");
    assert_eq!(e, ParseError::EndOfFile("init"));
    let e = fault_of("<LesHouchesEvents version=\"3.0\">\n<init>\n1 2 3 4 5 6 7 8 9 2\n1 2 3 4\n");
    assert_eq!(e, ParseError::EndOfFile("init"));
    let e = fault_of("<LesHouchesEvents version=\"3.0\">\n<init>\n1 2 3 4 5 6 7 8 9 2\n1 2 3 4\n1 2 3 4\nnotes\n");
    assert_eq!(e, ParseError::EndOfFile("init"));
}

#[test]
fn non_numeric_beam_energy_is_a_conversion_error() {
    let e = fault_of("<LesHouchesEvents version=\"3.0\">\n<init>\n2212 2212 abc 6500 0 0 1 1 -4 1\n");
    assert_eq!(e, ParseError::ConversionError("abc".to_string()));
    let e = fault_of("<LesHouchesEvents version=\"3.0\">\n<init>\n2212 2212 6500 6500. 0 0 1 1 -4 1.0\n");
    assert_eq!(e, ParseError::ConversionError("1.0".to_string()));
}

#[test]
fn header_blocks_are_captured_as_written() {
    let text = "<LesHouchesEvents version=\"3.0\">
<!--
 a comment, with <init> inside
-->
  <header>
<anything> goes </anything>
<!--
  </header>\t
<!--
-->
<init>
1 2 3 4 5 6 7 8 9 1
1 2 3 4
 some notes
</init>
</LesHouchesEvents>
";
    let mut reader = open(text).unwrap();
    assert_eq!(
        reader.header(),
        "<!--\n a comment, with <init> inside\n-->\n  <header>\n<anything> goes </anything>\n<!--\n  </header>\t\n<!--\n-->\n"
    );
    assert_eq!(reader.heprup().NPRUP, 1);
    assert_eq!(reader.heprup().LPRUP, vec![4]);
    assert_eq!(reader.heprup().info, " some notes\n");
    assert!(matches!(reader.event(), Ok(None)));
}

#[test]
fn header_without_blocks_is_empty() {
    let reader = open(OPENING).unwrap();
    assert_eq!(reader.header(), "");
}

#[test]
fn unterminated_header_block() {
    let e = fault_of("<LesHouchesEvents version=\"3.0\">\n<!--\nno end\n<init>\n");
    assert_eq!(e, ParseError::EndOfFile("header"));
    let e = fault_of("<LesHouchesEvents version=\"3.0\">\n<header>\n-->\n");
    assert_eq!(e, ParseError::EndOfFile("header"));
    let e = fault_of("<LesHouchesEvents version=\"3.0\">\n<!--");
    assert_eq!(e, ParseError::EndOfFile("header"));
}

#[test]
fn unknown_line_in_the_header() {
    let e = fault_of("<LesHouchesEvents version=\"3.0\">\n  <event> \n");
    assert_eq!(e, ParseError::BadHeaderStart("<event>".to_string()));
    let e = fault_of("<LesHouchesEvents version=\"3.0\">\n\n<init>\n");
    assert_eq!(e, ParseError::BadHeaderStart("".to_string()));
    let e = fault_of("<LesHouchesEvents version=\"3.0\">\n<!-- one line -->\n");
    assert_eq!(e, ParseError::BadHeaderStart("<!-- one line -->".to_string()));
}

#[test]
fn header_that_ends_with_the_text() {
    let e = fault_of("<LesHouchesEvents version=\"3.0\">\n<!--\n-->\n");
    assert_eq!(e, ParseError::BadHeaderStart("-->".to_string()));
    let e = fault_of("<LesHouchesEvents version=\"3.0\">\n<header>\n </header>");
    assert_eq!(e, ParseError::BadHeaderStart("</header>".to_string()));
    let e = fault_of("<LesHouchesEvents version=\"3.0\">\n");
    assert_eq!(e, ParseError::BadHeaderStart("".to_string()));
}

#[test]
fn closing_tag_of_the_run_information_takes_no_white_space() {
    let e = fault_of("<LesHouchesEvents version=\"3.0\">\n<init>\n1 2 3 4 5 6 7 8 9 0\n </init>\n");
    assert_eq!(e, ParseError::EndOfFile("init"));
    let e = fault_of("<LesHouchesEvents version=\"3.0\">\n<init>\n1 2 3 4 5 6 7 8 9 0\n</init> \n");
    assert_eq!(e, ParseError::EndOfFile("init"));
    let reader = open("<LesHouchesEvents version=\"3.0\">\n<init>\n1 2 3 4 5 6 7 8 9 0\n </init>\n</init>\r\n").unwrap();
    assert_eq!(reader.heprup().info, " </init>\n");
    let reader = open("<LesHouchesEvents version=\"3.0\">\n<init>\n1 2 3 4 5 6 7 8 9 0\n</init>").unwrap();
    assert_eq!(reader.heprup().info, "");
}

#[test]
fn closing_tag_of_an_event_takes_white_space() {
    let text = with_opening("\t<event>  \n0 1 2 3 4 5\nnote\n  </event>\t\r\n </LesHouchesEvents> \n");
    let mut reader = open(&text).unwrap();
    let event = reader.event().unwrap().unwrap();
    assert_eq!(event.info, "note\n");
    assert!(matches!(reader.event(), Ok(None)));
}

#[test]
fn unknown_line_between_events() {
    let text = with_opening("<evnt>\n");
    assert_eq!(event_fault(&text), ParseError::BadEventStart("<evnt>\n".to_string()));
    let text = with_opening("<event>\n0 1 2 3 4 5\n</event>\n");
    assert_eq!(event_fault(&text), ParseError::BadEventStart("".to_string()));
    let text = with_opening("  </init>\n");
    assert_eq!(event_fault(&text), ParseError::BadEventStart("  </init>\n".to_string()));
}

#[test]
fn negative_counts_are_no_counts() {
    let e = fault_of("<LesHouchesEvents version=\"3.0\">\n<init>\n1 2 3 4 5 6 7 8 9 -1\n</init>\n");
    assert_eq!(e, ParseError::ConversionError("-1".to_string()));
    let text = with_opening("<event>\n-2 1 2 3 4 5\n</event>\n");
    assert_eq!(event_fault(&text), ParseError::ConversionError("-2".to_string()));
    let text = with_opening("<event>\n-2 1 2 x 4 5\n</event>\n");
    assert_eq!(event_fault(&text), ParseError::ConversionError("x".to_string()));
}

#[test]
fn faults_in_tables_name_row_and_column() {
    let e = fault_of("<LesHouchesEvents version=\"3.0\">\n<init>\n1 2 3 4 5 6 7 8 9 3\n1 2 3 4\n1 2 3 4\n1\n");
    assert_eq!(e, ParseError::MissingEntry("XERRUP(3)".to_string()));
    let e = fault_of("<LesHouchesEvents version=\"3.0\">\n<init>\n1 2 3 4 5 6 7 8\n");
    assert_eq!(e, ParseError::MissingEntry("IDWTUP".to_string()));
    let e = fault_of("<LesHouchesEvents version=\"3.0\">\n<init>\n1 2 3 4 5 6 7 8 9 1\n1 2 3 4.5\n");
    assert_eq!(e, ParseError::ConversionError("4.5".to_string()));
    let text = with_opening("<event>\n12 1 2 3 4 5\n1 2 3 4 5 6 7 8 9 10 11 12 13\n1 2 3\n");
    assert_eq!(event_fault(&text), ParseError::MissingEntry("MOTHUP(2, 2)".to_string()));
    let text = with_opening("<event>\n1 1 2 3 4 5\n1 2 3 4 5 6 7 8 9 10\n");
    assert_eq!(event_fault(&text), ParseError::MissingEntry("PUP(1, 5)".to_string()));
    let text = with_opening("<event>\n1 1 2 3 4 5\n1 2 3 4 5 6 7 8 9 10 11 12\n");
    assert_eq!(event_fault(&text), ParseError::MissingEntry("SPINUP(1)".to_string()));
    let text = with_opening("<event>\n1 1 2 3 4 5\n1 2 3 4 5 6.0 7 8 9 10 11 12 13\n");
    assert_eq!(event_fault(&text), ParseError::ConversionError("6.0".to_string()));
}

#[test]
fn fields_behind_the_last_entry_are_not_looked_at() {
    let text = "<LesHouchesEvents version=\"3.0\">\n<init>\n1 2 3 4 5 6 7 8 9 1 more\n1 2 3 4 and more\n</init>\n<event>\n1 1 2 3 4 5 x\n1 2 3 4 5 6 7 8 9 10 11 12 13 y\n</event>\n";
    let mut reader = open(text).unwrap();
    assert_eq!(reader.heprup().NPRUP, 1);
    let event = reader.event().unwrap().unwrap();
    assert_eq!(event.SPINUP[0].as_str(), "13");
}

#[test]
fn a_document_may_start_behind_text_that_was_read() {
    let text = format!("skipped\n{}", MINIMAL);
    let mut lines = Lines::new(&text);
    assert_eq!(lines.read_line().len(), 8);
    let reader = Reader::new(lines).unwrap();
    assert_eq!(reader.version(), "3.0");
}
