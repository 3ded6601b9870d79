use lhef::event::{parse_event, parse_particle};
use lhef::init::{parse_init, parse_subprocess};
use lhef::source::read_until;
use lhef::{
    parse_comment_header, parse_header, parse_structured_header, parse_version, Lines, ParseError,
};

fn chars(s: &str) -> Vec<char> {
    s.chars().collect()
}

#[test]
fn version_reads_one_line() {
    let mut lines = Lines::new("<LesHouchesEvents version=\"1.0\">\nnext\n");
    assert_eq!(parse_version(&mut lines), Ok("1.0"));
    assert_eq!(lines.read_line(), chars("next\n"));
    let mut lines = Lines::new("<LesHouchesEvents version=\"4.0\">\nnext\n");
    assert_eq!(parse_version(&mut lines), Err(ParseError::UnsupportedVersion("4.0".to_string())));
    assert_eq!(lines.read_line(), chars("next\n"));
}

#[test]
fn header_stops_behind_the_opening_of_the_run_information() {
    let mut lines = Lines::new("<!--\nx\n-->\n <init>\nnext\n");
    assert_eq!(parse_header(&mut lines), Ok("<!--\nx\n-->\n".to_string()));
    assert_eq!(lines.read_line(), chars("next\n"));
    let mut lines = Lines::new("<init>");
    assert_eq!(parse_header(&mut lines), Ok("".to_string()));
    assert!(lines.at_end());
}

#[test]
fn comment_block_is_put_behind_the_header() {
    let mut lines = Lines::new("a\n--> x\n -->\t\nnext\n");
    let mut header = String::from("<!--\n");
    assert_eq!(parse_comment_header(&mut lines, &mut header), Ok(()));
    assert_eq!(header, "<!--\na\n--> x\n -->\t\n");
    assert_eq!(lines.read_line(), chars("next\n"));
    let mut lines = Lines::new("a\n</header>\n");
    let mut header = String::new();
    assert_eq!(parse_comment_header(&mut lines, &mut header), Err(ParseError::EndOfFile("header")));
    assert_eq!(header, "a\n</header>\n");
    assert!(lines.at_end());
}

#[test]
fn structured_block_is_put_behind_the_header() {
    let mut lines = Lines::new("<a>\n-->\n</header>\nnext\n");
    let mut header = String::from("<header>\n");
    assert_eq!(parse_structured_header(&mut lines, &mut header), Ok(()));
    assert_eq!(header, "<header>\n<a>\n-->\n</header>\n");
    assert_eq!(lines.read_line(), chars("next\n"));
    let mut lines = Lines::new("");
    let mut header = String::from("<header>\n");
    assert_eq!(
        parse_structured_header(&mut lines, &mut header),
        Err(ParseError::EndOfFile("header"))
    );
    assert_eq!(header, "<header>\n");
}

#[test]
fn reading_up_to_a_closing_line() {
    let mut lines = Lines::new("a\n b\n </x> \n</x>\nnext\n");
    assert_eq!(read_until(&mut lines, "</x>", false), Some("a\n b\n </x> \n".to_string()));
    assert_eq!(lines.read_line(), chars("next\n"));
    let mut lines = Lines::new("a\n b\n </x> \n</x>\nnext\n");
    assert_eq!(read_until(&mut lines, "</x>", true), Some("a\n b\n".to_string()));
    assert_eq!(lines.read_line(), chars("</x>\n"));
    let mut lines = Lines::new("a\n b");
    assert_eq!(read_until(&mut lines, "</x>", true), None);
    assert!(lines.at_end());
    let mut lines = Lines::new("</x>");
    assert_eq!(read_until(&mut lines, "</x>", false), Some("".to_string()));
    assert!(lines.at_end());
}

#[test]
fn one_subprocess() {
    let row = parse_subprocess(&chars(" 1.5 2.5e-1  3 77\n"), 1).unwrap();
    assert_eq!(row.XSECUP.as_str(), "1.5");
    assert_eq!(row.XERRUP.as_str(), "2.5e-1");
    assert_eq!(row.XMAXUP.as_str(), "3");
    assert_eq!(row.LPRUP, 77);
    let e = parse_subprocess(&chars("1.5 2.5e-1\n"), 41).unwrap_err();
    assert_eq!(e, ParseError::MissingEntry("XMAXUP(41)".to_string()));
    let e = parse_subprocess(&chars("1.5 2.5e-1 x 1\n"), 41).unwrap_err();
    assert_eq!(e, ParseError::ConversionError("x".to_string()));
}

#[test]
fn one_particle() {
    let p = parse_particle(&chars("2 -1 0 0 501 0 0. 0. 1.5e2 150 0 0. -1\n"), 1).unwrap();
    assert_eq!(p.IDUP, 2);
    assert_eq!(p.ISTUP, -1);
    assert_eq!(p.MOTHUP, [0, 0]);
    assert_eq!(p.ICOLUP, [501, 0]);
    let momentum: Vec<&str> = p.PUP.iter().map(|x| x.as_str()).collect();
    assert_eq!(momentum, vec!["0.", "0.", "1.5e2", "150", "0"]);
    assert_eq!(p.VTIMUP.as_str(), "0.");
    assert_eq!(p.SPINUP.as_str(), "-1");
    let e = parse_particle(&chars(""), 7).unwrap_err();
    assert_eq!(e, ParseError::MissingEntry("IDUP(7)".to_string()));
    let e = parse_particle(&chars("2 -1 0 0 501 0 0. 0. 1.5e2 150 0 0."), 7).unwrap_err();
    assert_eq!(e, ParseError::MissingEntry("SPINUP(7)".to_string()));
    let e = parse_particle(&chars("2 -1 0 0 501 zero 0. 0. 1.5e2 150 0 0."), 7).unwrap_err();
    assert_eq!(e, ParseError::ConversionError("zero".to_string()));
}

#[test]
fn run_information_alone() {
    let mut lines = Lines::new("1 2 3 4 5 6 7 8 9 2\n1 2 3 4\n5 6 7 8\nfree\n</init>\nnext\n");
    let run = parse_init(&mut lines).unwrap();
    assert_eq!(run.NPRUP, 2);
    assert_eq!(run.LPRUP, vec![4, 8]);
    assert_eq!(run.XSECUP[1].as_str(), "5");
    assert_eq!(run.info, "free\n");
    assert_eq!(lines.read_line(), chars("next\n"));
    let mut lines = Lines::new("1 2 3 4 5 6 7 8 9 0\nfree\n");
    assert_eq!(parse_init(&mut lines).unwrap_err(), ParseError::EndOfFile("init"));
    assert!(lines.at_end());
    let mut lines = Lines::new("1 2 3 4 5 6 7 8 9 2\n1 2 3 4\n");
    assert_eq!(parse_init(&mut lines).unwrap_err(), ParseError::EndOfFile("init"));
    assert!(lines.at_end());
    let mut lines = Lines::new("");
    assert_eq!(parse_init(&mut lines).unwrap_err(), ParseError::EndOfFile("init"));
}

#[test]
fn event_alone() {
    let mut lines = Lines::new("1 2 3 4 5 6\n1 2 3 4 5 6 7 8 9 10 11 12 13\n<a>\n </event>\nnext\n");
    let event = parse_event(&mut lines).unwrap();
    assert_eq!(event.NUP, 1);
    assert_eq!(event.IDRUP, 2);
    assert_eq!(event.MOTHUP, vec![[3, 4]]);
    assert_eq!(event.info, "<a>\n");
    assert_eq!(lines.read_line(), chars("next\n"));
    let mut lines = Lines::new("1 2 3 4 5 6\n");
    assert_eq!(parse_event(&mut lines).unwrap_err(), ParseError::EndOfFile("event"));
    assert!(lines.at_end());
    let mut lines = Lines::new("2 7 1.0 1.0 0.0 0.0\n21 1 0 0 0 0 0.0 0.0 1.0 1.0 0.0 0.0 9.0\n");
    assert_eq!(parse_event(&mut lines).unwrap_err(), ParseError::EndOfFile("event"));
    assert!(lines.at_end());
    let mut lines = Lines::new("");
    assert_eq!(parse_event(&mut lines).unwrap_err(), ParseError::EndOfFile("event"));
    let mut lines = Lines::new("0 7 1.0 1.0 0.0 0.0\nnotes\nmore");
    assert_eq!(parse_event(&mut lines).unwrap_err(), ParseError::EndOfFile("event"));
    assert!(lines.at_end());
}
