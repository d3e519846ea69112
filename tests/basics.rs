use fontgrep::cli::{args_to_query_criteria, SearchArgs};
use fontgrep::codepoints::{is_invalid_unicode, parse_codepoint, parse_codepoints};
use fontgrep::font::{is_font_file, parse_table_tags};
use fontgrep::query::{any_name_matches, QueryCriteria};
use fontgrep::sql::{escape_like_pattern, QueryBuilder};
use fontgrep::{with_context, FontgrepError, Result};

#[test]
fn test_query_builder() {
    let builder = QueryBuilder::new()
        .with_variable()
        .with_property("axis", &["wght".to_string(), "wdth".to_string()])
        .with_name_patterns(&["Roboto".to_string()]);

    let (query, params) = builder.build();

    assert!(query.contains("SELECT DISTINCT"));
    assert!(query.contains("f.is_variable = 1"));
    assert!(query.contains("JOIN font_properties"));
    assert!(query.contains("f.name LIKE"));
    assert_eq!(params.len(), 3);
}

#[test]
fn test_escape_like_pattern() {
    assert_eq!(escape_like_pattern("abc"), "abc");
    assert_eq!(escape_like_pattern("a%c"), "a\\%c");
    assert_eq!(escape_like_pattern("a_c"), "a\\_c");
    assert_eq!(escape_like_pattern("a[c"), "a\\[c");
    assert_eq!(escape_like_pattern("a]c"), "a\\]c");
    assert_eq!(escape_like_pattern("a^c"), "a\\^c");
    assert_eq!(escape_like_pattern("a%_[]]^c"), "a\\%\\_\\[\\]\\]\\^c");
}

#[test]
fn test_parse_codepoint() {
    assert_eq!(parse_codepoint("A").unwrap(), 'A');
    assert_eq!(parse_codepoint("0041").unwrap(), 'A');
    assert_eq!(parse_codepoint("U+0041").unwrap(), 'A');
    assert_eq!(parse_codepoint("u+0041").unwrap(), 'A');
}

#[test]
fn test_parse_codepoints() {
    let input = vec!["A".to_string(), "U+0042-U+0044".to_string()];
    let result = parse_codepoints(&input).unwrap();
    assert_eq!(result, vec!['A', 'B', 'C', 'D']);
}

#[test]
fn test_parse_table_tags() {
    let input = vec!["GPOS".to_string(), "GSUB".to_string()];
    let result = parse_table_tags(&input).unwrap();
    assert_eq!(result.len(), 2);
    assert_eq!(result[0].to_string(), "GPOS");
    assert_eq!(result[1].to_string(), "GSUB");
}

#[test]
fn test_is_invalid_unicode() {
    assert!(is_invalid_unicode(0x0000));
    assert!(is_invalid_unicode(0x001F));
    assert!(is_invalid_unicode(0x007F));
    assert!(is_invalid_unicode(0x0080));
    assert!(is_invalid_unicode(0x009F));

    assert!(is_invalid_unicode(0xD800));
    assert!(is_invalid_unicode(0xDFFF));

    assert!(is_invalid_unicode(0xFDD0));
    assert!(is_invalid_unicode(0xFDEF));
    assert!(is_invalid_unicode(0xFFFE));
    assert!(is_invalid_unicode(0xFFFF));
    assert!(is_invalid_unicode(0x1FFFE));
    assert!(is_invalid_unicode(0x10FFFE));

    assert!(!is_invalid_unicode(0x0041));
    assert!(!is_invalid_unicode(0x1F600));
}

#[test]
fn test_is_font_file() {
    assert!(is_font_file("test.ttf"));
    assert!(is_font_file("test.otf"));
    assert!(is_font_file("test.ttc"));
    assert!(is_font_file("test.otc"));
    assert!(is_font_file("test.TTF"));

    assert!(!is_font_file("test.txt"));
    assert!(!is_font_file("test"));
}

#[test]
fn test_error_context() {
    let result: Result<()> = Err(FontgrepError::Io("file not found".to_string()));
    let with_ctx = with_context(result, || "Failed to open font file".to_string());

    match with_ctx {
        Err(FontgrepError::Other(msg)) => {
            assert!(msg.contains("Failed to open font file"));
            assert!(msg.contains("file not found"));
        }
        _ => panic!("Expected error with context"),
    }
}

#[test]
fn test_query_criteria_is_empty() {
    let empty = QueryCriteria::default();
    assert!(empty.is_empty());

    let with_axes = QueryCriteria {
        axes: vec!["wght".to_string()],
        ..Default::default()
    };
    assert!(!with_axes.is_empty());

    let with_variable = QueryCriteria {
        variable: true,
        ..Default::default()
    };
    assert!(!with_variable.is_empty());
}

#[test]
fn test_get_charset_query() {
    let empty = QueryCriteria::default();
    assert_eq!(empty.get_charset_query(), None);

    let with_codepoints = QueryCriteria {
        codepoints: vec!['A', 'B', 'C'],
        charset: "ABC".to_string(),
        ..Default::default()
    };
    assert_eq!(with_codepoints.get_charset_query(), Some("ABC".to_string()));
}

#[test]
fn test_name_pattern_matching() {
    let names = vec!["Test Font Dziedzic Regular".to_string()];
    assert!(any_name_matches(&vec!["dzie".to_string()], &names));
    assert!(any_name_matches(&vec!["DZIE".to_string()], &names));
    assert!(!any_name_matches(&vec!["nonexistent".to_string()], &names));
}

#[test]
fn search_args_become_criteria() {
    let args = SearchArgs {
        paths: vec!["/fonts".to_string()],
        axes: vec!["wght".to_string()],
        features: vec!["smcp".to_string()],
        scripts: vec![],
        tables: vec!["GSUB".to_string()],
        variable: true,
        name: vec!["Roboto".to_string()],
        codepoints: vec!["U+0041-U+0042".to_string()],
        text: Some("z".to_string()),
        jobs: 1,
    };
    let c = args_to_query_criteria(&args).unwrap();
    assert_eq!(c.codepoints, vec!['A', 'B', 'z']);
    assert_eq!(c.charset, "ABz");
    assert_eq!(c.tables, vec!["GSUB".to_string()]);
    assert!(c.variable);
}
