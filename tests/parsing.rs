use fontgrep::codepoints::{parse_codepoint, parse_codepoints, parse_unicode_ranges};
use fontgrep::font::{is_font_file, parse_table_tags, FontInfo};
use fontgrep::query::{any_name_matches, names_pass};
use fontgrep::FontgrepError;

#[test]
fn codepoint_errors_carry_messages() {
    match parse_codepoint("zz") {
        Err(FontgrepError::Parse(m)) => assert_eq!(m, "Invalid codepoint: zz"),
        _ => panic!("expected a parse error"),
    }
    match parse_codepoint("U+D800") {
        Err(FontgrepError::Parse(m)) => assert_eq!(m, "Invalid Unicode codepoint: U+D800"),
        _ => panic!("expected a parse error"),
    }
    match parse_codepoint("U+U+41") {
        Ok(c) => assert_eq!(c, 'A'),
        _ => panic!("expected a codepoint"),
    }
    assert_eq!(parse_codepoint("1F600").unwrap(), '\u{1F600}');
}

#[test]
fn codepoint_range_errors() {
    match parse_codepoints(&["U+0044-U+0042".to_string()]) {
        Err(FontgrepError::Parse(m)) => assert_eq!(m, "Invalid codepoint range: 68 > 66"),
        _ => panic!("expected a parse error"),
    }
    match parse_codepoints(&["1-2-3".to_string()]) {
        Err(FontgrepError::Parse(m)) => assert_eq!(m, "Invalid codepoint range: 1-2-3"),
        _ => panic!("expected a parse error"),
    }
    let around = parse_codepoints(&["D7FF-E000".to_string()]).unwrap();
    assert_eq!(around, vec!['\u{D7FF}', '\u{E000}']);
    assert!(parse_codepoints(&[]).unwrap().is_empty());
}

#[test]
fn unicode_ranges_parse() {
    assert_eq!(parse_unicode_ranges("u+41-43,61").unwrap(), vec![0x41, 0x42, 0x43, 0x61]);
    assert_eq!(parse_unicode_ranges("5-3").unwrap(), Vec::<u32>::new());
    assert_eq!(parse_unicode_ranges("1-2-3"), Err("Bad range: 1-2-3".to_string()));
    assert_eq!(parse_unicode_ranges("xyz"), Err("invalid digit found in string".to_string()));
    assert_eq!(parse_unicode_ranges(""), Err("cannot parse integer from empty string".to_string()));
    assert_eq!(
        parse_unicode_ranges("100000000"),
        Err("number too large to fit in target type".to_string())
    );
}

#[test]
fn table_tags_must_be_four_bytes() {
    match parse_table_tags(&["GPOS".to_string(), "GSUBX".to_string()]) {
        Err(FontgrepError::Parse(m)) => assert_eq!(m, "Invalid table tag: GSUBX"),
        _ => panic!("expected a parse error"),
    }
    assert!(parse_table_tags(&["OS/2".to_string()]).is_ok());
    assert!(parse_table_tags(&["é12".to_string()]).is_ok());
    assert!(parse_table_tags(&["éé12".to_string()]).is_err());
}

#[test]
fn error_messages_have_labels() {
    assert_eq!(FontgrepError::Io("x".to_string()).message(), "IO error: x");
    assert_eq!(FontgrepError::Config("y".to_string()).message(), "Configuration error: y");
}

#[test]
fn bytes_that_are_no_font_are_a_font_error() {
    assert!(matches!(FontInfo::from_bytes(b"not a font"), Err(FontgrepError::Font(_))));
    assert!(matches!(FontInfo::from_bytes(&[]), Err(FontgrepError::Font(_))));
}

#[test]
fn minimal_font_parses() {
    // An sfnt header with no tables.
    let data: Vec<u8> = vec![0, 1, 0, 0, 0, 0, 0, 0, 0, 0, 0, 0];
    let info = FontInfo::from_bytes(&data).unwrap();
    assert!(!info.is_variable);
    assert!(info.axes.is_empty());
    assert!(info.tables.is_empty());
    assert_eq!(info.charset_string, "");
    assert_eq!(info.name_string, "");
}

#[test]
fn extension_follows_path_rules() {
    assert!(is_font_file("dir/x.ttf/"));
    assert!(is_font_file("dir/x.OTF/."));
    assert!(is_font_file("./x.otc"));
    assert!(!is_font_file(".ttf"));
    assert!(!is_font_file("a/.."));
    assert!(!is_font_file("x.ttf/.."));
    assert!(is_font_file("x.tar.TtC"));
}

#[test]
fn name_patterns_follow_regex_rules() {
    let names = vec!["ΟΔΟΣ".to_string(), "Foo Bold".to_string()];
    assert!(any_name_matches(&vec!["Σ".to_string()], &names));
    assert!(any_name_matches(&vec!["σ".to_string()], &names));
    assert!(any_name_matches(&vec!["^FOO bold$".to_string()], &names));
    assert!(!any_name_matches(&vec!["Fo+".to_string()], &names));
    assert!(any_name_matches(&vec!["^Fo+".to_string()], &names));
    assert!(!any_name_matches(&vec!["^(".to_string()], &names));
    assert!(names_pass(&vec!["^(".to_string()], &names));
    assert!(!names_pass(&vec!["^(".to_string(), "zzz".to_string()], &names));
}

#[test]
fn tags_show_bytes_as_the_parser_does() {
    let tags = parse_table_tags(&["é12".to_string(), "OS/2".to_string()]).unwrap();
    assert_eq!(tags[0].to_string(), "{0xC3}{0xA9}12");
    assert_eq!(tags[1].to_string(), "OS/2");
}

#[test]
fn backslash_is_escaped_in_like_patterns() {
    assert_eq!(fontgrep::sql::escape_like_pattern("a\\b"), "a\\\\b");
}

#[test]
fn font_data_needs_a_known_sfnt_version() {
    let mut data: Vec<u8> = b"OTTO".to_vec();
    data.extend_from_slice(&[0; 8]);
    assert!(FontInfo::from_bytes(&data).is_ok());
    let mut data: Vec<u8> = b"true".to_vec();
    data.extend_from_slice(&[0; 8]);
    assert!(FontInfo::from_bytes(&data).is_ok());
    assert!(FontInfo::from_bytes(&[0, 1, 0, 0, 0, 0, 0, 0, 0, 0, 0]).is_err());
    assert!(FontInfo::from_bytes(&[0, 2, 0, 0, 0, 0, 0, 0, 0, 0, 0, 0]).is_err());
}
