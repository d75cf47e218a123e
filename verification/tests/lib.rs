use rucco::languages::{compute_regex, LanguageSpec};
use rucco::segment::{extract_segments, Segment};

const C_SAMPLE: &'static str = r"
int a = 12;

/* first block */

// # mooo mooo
// moomfomfomfoof

/*** kakarot
 * - zozo
 * - dodo
 */

int b = 77;

/*
## tatarot
momo
*/

char* gororo = 'm'; // ignpre me!!!

/*
 * # moo
 * yo
*/

";

fn create_c_language() -> LanguageSpec {
    LanguageSpec {
        name: Some("C".to_string()),
        singleline: Some(r"//+".to_string()),
        multiline_header: Some(r"/\*+".to_string()),
        multiline_footer: Some(r"\*+/".to_string()),
        multiline_margin: Some(r"\*+".to_string()),
    }
}

#[test]
fn regex_parse_ok() {
    let r = compute_regex(&create_c_language()).expect("failed to create c language regex");
    println!("regex_parse_ok: {:?}", r.pattern());
}

#[test]
fn segments_ok() {
    let r = compute_regex(&create_c_language()).expect("failed to create c language regex");
    for capture in extract_segments(&r, C_SAMPLE).expect("extraction should succeed") {
        println!("segments_ok: {:?}", capture);
    }
}

#[test]
fn c_sample_segments_exact() {
    let doc = |t: &str| Segment::Doc(t.to_string());
    let code = |t: &str| Segment::Code(t.to_string());
    let title = |l: u8, t: &str| Segment::Title((l, t.to_string()));
    let r = compute_regex(&create_c_language()).expect("failed to create c language regex");
    let segments = extract_segments(&r, C_SAMPLE).expect("extraction should succeed");
    assert_eq!(
        segments,
        vec![
            code("int a = 12;\n"),
            doc("first block\n"),
            title(1, "# mooo mooo\n"),
            doc("moomfomfomfoof\nkakarot\n- zozo\n- dodo\n"),
            code("int b = 77;\n"),
            title(2, "## tatarot\n"),
            doc("momo\n"),
            code("char* gororo = 'm'; // ignpre me!!!\n"),
            doc("\n"),
            title(1, "# moo\n"),
            doc("yo\n"),
        ]
    );
}
