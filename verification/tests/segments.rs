use rucco::languages::{compute_regex, LanguageSpec};
use rucco::section::{build_title_split_sections, Section, Title, TitleSplitSection};
use rucco::segment::{compact_segments, extract_segments, title_or_doc_segment, Segment};

fn c_language() -> LanguageSpec {
    LanguageSpec {
        name: Some("C".to_string()),
        singleline: Some(r"//+".to_string()),
        multiline_header: Some(r"/\*+".to_string()),
        multiline_footer: Some(r"\*+/".to_string()),
        multiline_margin: Some(r"\*+".to_string()),
    }
}

fn marginless_language() -> LanguageSpec {
    LanguageSpec {
        name: None,
        singleline: None,
        multiline_header: Some(r"/\*+".to_string()),
        multiline_footer: Some(r"\*+/".to_string()),
        multiline_margin: None,
    }
}

fn doc(text: &str) -> Segment {
    Segment::Doc(text.to_string())
}

fn code(text: &str) -> Segment {
    Segment::Code(text.to_string())
}

fn title(level: u8, text: &str) -> Segment {
    Segment::Title((level, text.to_string()))
}

#[test]
fn heading_boundary_cases() {
    assert_eq!(title_or_doc_segment("# "), title(1, "#\n"));
    assert_eq!(title_or_doc_segment("###no-space"), title(3, "###no-space\n"));
    assert_eq!(
        title_or_doc_segment("#notAHeadingBecausePrecededByText x#"),
        title(1, "#notAHeadingBecausePrecededByText x#\n")
    );
    assert_eq!(title_or_doc_segment("not #a heading"), doc("not #a heading\n"));
}

#[test]
fn heading_detected_after_leading_blanks() {
    assert_eq!(title_or_doc_segment("  \t## spaced"), title(2, "## spaced\n"));
}

#[test]
fn heading_level_saturates_at_byte_range() {
    let deep = "#".repeat(300);
    match title_or_doc_segment(&deep) {
        Segment::Title((level, text)) => {
            assert_eq!(level, 255);
            assert_eq!(text, format!("{}\n", deep));
        },
        other => panic!("expected a title, got {:?}", other),
    }
}

#[test]
fn blank_line_normalizes_to_bare_newline() {
    assert_eq!(title_or_doc_segment("   \t  "), doc("\n"));
    assert_eq!(title_or_doc_segment(""), doc("\n"));
}

#[test]
fn singleline_partition_is_total_and_disjoint() {
    // Every line is either a comment (doc or title) or code — one event
    // per line, in order, nothing dropped and nothing counted twice.
    let lang = LanguageSpec {
        name: None,
        singleline: Some(r"//+".to_string()),
        multiline_header: None,
        multiline_footer: None,
        multiline_margin: None,
    };
    let m = compute_regex(&lang).expect("matcher should build");
    let segments = extract_segments(&m, "// a\nx();\n// b\ny();").expect("extraction");
    assert_eq!(segments, vec![doc("a\n"), code("x();\n"), doc("b\n"), code("y();")]);
}

#[test]
fn margined_block_yields_one_event_per_body_line() {
    let m = compute_regex(&c_language()).expect("matcher should build");
    let segments = extract_segments(&m, "/* head\n * one\n * two\n * three\n */").expect(
        "extraction",
    );
    assert_eq!(segments, vec![doc("head\none\ntwo\nthree\n")]);
}

#[test]
fn margin_space_leniency_boundaries() {
    // The margin is the line's first non-blank run: one following space
    // is dropped with it, further blanks are trimmed away, and a word
    // glued to the margin is absorbed into it.
    let m = compute_regex(&c_language()).expect("matcher should build");
    let segments = extract_segments(&m, "/* h\n* alpha\n*beta\n*  gamma\n*/").expect(
        "extraction",
    );
    assert_eq!(segments, vec![doc("h\nalpha\n\ngamma\n")]);
}

#[test]
fn marginless_block_splits_lines_and_keeps_headings() {
    let m = compute_regex(&marginless_language()).expect("matcher should build");
    let segments = extract_segments(&m, "/*\n## tatarot\nmomo\n*/").expect("extraction");
    assert_eq!(segments, vec![title(2, "## tatarot\n"), doc("momo\n")]);
}

#[test]
fn adjacent_titles_stay_separate() {
    let m = compute_regex(&c_language()).expect("matcher should build");
    let segments = extract_segments(&m, "// # a\n// # b").expect("extraction");
    assert_eq!(segments, vec![title(1, "# a\n"), title(1, "# b\n")]);
}

#[test]
fn compact_merges_maximally() {
    let merged = compact_segments(vec![
        doc("a\n"),
        doc("b\n"),
        code("x\n"),
        code("y\n"),
        doc("c\n"),
    ]);
    assert_eq!(merged, vec![doc("a\nb\n"), code("x\ny\n"), doc("c\n")]);
}

#[test]
fn split_segment_remerges_to_one() {
    let whole = compact_segments(vec![doc("a\nb\n")]);
    let split = compact_segments(vec![doc("a\n"), doc("b\n")]);
    assert_eq!(whole, split);
    assert_eq!(split, vec![doc("a\nb\n")]);
}

#[test]
fn titles_never_merge_in_compaction() {
    let merged = compact_segments(vec![title(1, "# a\n"), title(1, "# b\n")]);
    assert_eq!(merged, vec![title(1, "# a\n"), title(1, "# b\n")]);
}

#[test]
fn language_without_markers_sees_only_code() {
    let bare = LanguageSpec {
        name: None,
        singleline: None,
        multiline_header: None,
        multiline_footer: None,
        multiline_margin: None,
    };
    let m = compute_regex(&bare).expect("matcher should build");
    let segments = extract_segments(&m, "// not a comment here\nint x;\n").expect("extraction");
    assert_eq!(segments, vec![code("// not a comment here\nint x;\n")]);
}

#[test]
fn empty_input_yields_one_empty_code_segment() {
    // The code-line alternative matches the empty text once, so an empty
    // file comes out as one empty code segment.
    let m = compute_regex(&c_language()).expect("matcher should build");
    assert_eq!(extract_segments(&m, "").expect("extraction"), vec![code("")]);
}

#[test]
fn trailing_newline_leaves_no_extra_segment() {
    // The scan ends with the final newline: nothing empty is emitted
    // after the last comment.
    let m = compute_regex(&c_language()).expect("matcher should build");
    assert_eq!(extract_segments(&m, "// d\n").expect("extraction"), vec![doc("d\n")]);
}

#[test]
fn title_split_sections_keep_headings_apart() {
    let segments = vec![doc("intro\n"), title(1, "# part\n"), doc("body\n"), code("x();\n")];
    let out = build_title_split_sections(&segments);
    assert_eq!(
        out,
        vec![
            TitleSplitSection::Section(Section {
                doc: "intro\n".to_string(),
                code: String::new(),
            }),
            TitleSplitSection::Title(Title { text: "# part\n".to_string(), level: 1 }),
            TitleSplitSection::Section(Section {
                doc: "body\n".to_string(),
                code: "x();\n".to_string(),
            }),
        ]
    );
}
