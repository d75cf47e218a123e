use rucco::languages::{compute_regex, LanguageSpec, Languages};
use rucco::section::Section;
use rucco::{segment_file, SegmentError};

fn c_language() -> LanguageSpec {
    LanguageSpec {
        name: Some("C".to_string()),
        singleline: Some(r"//+".to_string()),
        multiline_header: Some(r"/\*+".to_string()),
        multiline_footer: Some(r"\*+/".to_string()),
        multiline_margin: Some(r"\*+".to_string()),
    }
}

fn singleline_only_language() -> LanguageSpec {
    LanguageSpec {
        name: Some("script".to_string()),
        singleline: Some(r"//+".to_string()),
        multiline_header: None,
        multiline_footer: None,
        multiline_margin: None,
    }
}

fn c_languages() -> Languages {
    Languages::new(vec![("c".to_string(), c_language())])
}

fn section(doc: &str, code: &str) -> Section {
    Section { doc: doc.to_string(), code: code.to_string() }
}

#[test]
fn scenario_c_like_end_to_end() {
    let source = "int a = 12;\n\n// hello\n// world\n\n/* block comment */\n\nint b = 2;\n";
    let mut langs = c_languages();
    let sections = segment_file(&mut langs, "c", source).expect("segmentation should succeed");
    assert_eq!(
        sections,
        vec![
            section("", "int a = 12;\n"),
            section("hello\nworld\nblock comment\n", "int b = 2;\n"),
        ]
    );
}

#[test]
fn unavailable_language_skips_file() {
    let mut langs = c_languages();
    assert_eq!(
        segment_file(&mut langs, "xyz", "int a = 1;\n"),
        Err(SegmentError::LanguageUnknown)
    );
}

#[test]
fn malformed_marker_gives_no_matcher() {
    let broken = LanguageSpec {
        name: None,
        singleline: Some("(".to_string()),
        multiline_header: None,
        multiline_footer: None,
        multiline_margin: None,
    };
    assert!(compute_regex(&broken).is_none());
    let mut langs = Languages::new(vec![("broken".to_string(), broken)]);
    assert_eq!(
        segment_file(&mut langs, "broken", "int a = 1;\n"),
        Err(SegmentError::MatcherUnavailable)
    );
}

#[test]
fn pipeline_runs_identically_twice() {
    let source = "// top\nfn main() {}\n\n/* tail note */";
    let mut langs = c_languages();
    let first = segment_file(&mut langs, "c", source);
    let second = segment_file(&mut langs, "c", source);
    assert_eq!(first, second);
}

#[test]
fn round_trip_of_singleline_source() {
    // Modulo the stripped markers and the collapsed blank line, the
    // sections carry the source text in order, every character once.
    let source = "code1();\n\n// doc one\n// doc two\ncode2();";
    let mut langs = Languages::new(vec![("s".to_string(), singleline_only_language())]);
    let sections = segment_file(&mut langs, "s", source).expect("segmentation should succeed");
    let mut joined = String::new();
    for s in &sections {
        joined.push_str(&s.doc);
        joined.push_str(&s.code);
    }
    assert_eq!(joined, "code1();\ndoc one\ndoc two\ncode2();");
}

#[test]
fn trailing_documentation_closes_a_codeless_section() {
    let source = "let x = 1;\n// the end";
    let mut langs = Languages::new(vec![("s".to_string(), singleline_only_language())]);
    let sections = segment_file(&mut langs, "s", source).expect("segmentation should succeed");
    assert_eq!(sections, vec![section("", "let x = 1;\n"), section("the end\n", "")]);
}

#[test]
fn memoized_matcher_is_reused() {
    let mut langs = c_languages();
    let p1 = langs.get("c").expect("matcher should build").pattern().clone();
    let p2 = langs.get("c").expect("matcher should build").pattern().clone();
    assert_eq!(p1, p2);
    assert!(langs.get("nope").is_none());
    assert!(langs.contains("c"));
    assert!(!langs.contains("nope"));
}

#[test]
fn composed_pattern_text_exact() {
    let m = compute_regex(&c_language()).expect("matcher should build");
    let expected = r"(?:(?:\n+)|(?:^[ \t]*//+ ?(?:(?P<doc_sl>[^\n]*\n?)\n*))|(?:^[ \t]*/\*+(?P<doc_ml_h>[^\n]*\n?)\n*(?P<doc_ml_l>(?:[ \t]*\*+[^\n]*\n*)*[ \t]*)\*+/)|(?:^[ \t]*/\*+(?P<doc_ml>.*?)\*+/)|(?:^(?P<code>[^\n]*\n?)\n*))";
    assert_eq!(m.pattern(), expected);
}
