//! The trusted boundary around the `regex` crate.
//!
//! The segmentation pipeline drives one compiled pattern over the source
//! text and consumes the stream of its matches.  Everything the pattern
//! engine itself does is concentrated here: a compiled matcher is built
//! from its pattern text, and running it yields, for each successive
//! match, the text of each named capture group.  Both results are pure
//! functions of the pattern text and the source text, so the contracts
//! name them through uninterpreted functions; the pipeline's own logic is
//! verified against those names.

use vstd::prelude::*;

verus! {

#[verifier::external_type_specification]
#[verifier::external_body]
pub struct ExRegex(regex::Regex);

/// Whether a pattern text is a well-formed expression that the engine
/// accepts.  Building a matcher succeeds exactly on such patterns; the
/// result depends on the pattern text alone.
pub uninterp spec fn pattern_compiles(pattern: Seq<char>) -> bool;

/// The named capture groups of one match of the composed pattern.
///
/// The alternation sets at most one of `doc_sl`, `doc_ml` and `code`, and
/// sets `doc_ml_h` and `doc_ml_l` together; a match with none of the five
/// set is a consumed run of blank lines.  Nothing here relies on that:
/// whoever classifies a match decides over every combination.
pub struct RawMatch {
    /// Text of one single-line comment, marker stripped.
    pub doc_sl: Option<String>,
    /// Body of one margin-less multi-line comment.
    pub doc_ml: Option<String>,
    /// Header line of one margined multi-line comment.
    pub doc_ml_h: Option<String>,
    /// Body lines of one margined multi-line comment, margins still on.
    pub doc_ml_l: Option<String>,
    /// One line of code, verbatim.
    pub code: Option<String>,
}

/// The sequence of capture-group records that running the pattern over
/// the text yields, one per match, in text order.  A function of the
/// pattern text and the source text alone.
pub uninterp spec fn matcher_captures(pattern: Seq<char>, text: Seq<char>) -> Seq<RawMatch>;

/// A pattern compiled once per language and run over many files.
///
/// The two fields are private and only [`compile_matcher`] constructs a
/// value, so `re` is always the engine's compilation of `pattern`; the
/// contract of [`run_matcher`] relies on that tie.
pub struct CompiledMatcher {
    re: regex::Regex,
    pattern: String,
}

impl CompiledMatcher {
    /// The pattern text this matcher was compiled from.
    pub closed spec fn pattern_view(&self) -> Seq<char> {
        self.pattern@
    }

    /// The pattern text this matcher was compiled from.
    pub fn pattern(&self) -> (r: &String)
        ensures
            r@ == self.pattern_view(),
    {
        &self.pattern
    }
}

/// Relies on `regex::RegexBuilder::build`, with multi-line mode and
/// dot-matches-newline set: it returns `Ok` exactly when the pattern text
/// is a well-formed expression (within the engine's default size limit),
/// and compilation is a function of the pattern text alone.
#[verifier::external_body]
pub(crate) fn compile_matcher(pattern: &String) -> (r: Option<CompiledMatcher>)
    ensures
        r is Some <==> pattern_compiles(pattern@),
        r matches Some(m) ==> m.pattern_view() == pattern@,
{
    let built = regex::RegexBuilder::new(pattern.as_str())
        .multi_line(true)
        .dot_matches_new_line(true)
        .build();
    match built {
        Ok(re) => Some(CompiledMatcher { re, pattern: pattern.clone() }),
        Err(_) => None,
    }
}

/// Relies on `regex::Regex::captures_iter`: it yields every successive
/// non-overlapping match of the pattern over the text, leftmost-first, in
/// text order, and on `Captures::name`, which hands out the text of a
/// named group when the group took part in the match.  The match sequence
/// is a function of the pattern text and the source text alone.
#[verifier::external_body]
pub(crate) fn run_matcher(m: &CompiledMatcher, text: &str) -> (r: Vec<RawMatch>)
    ensures
        r@ == matcher_captures(m.pattern_view(), text@),
{
    m.re
        .captures_iter(text)
        .map(|c| RawMatch {
            doc_sl: c.name("doc_sl").map(|g| g.as_str().to_owned()),
            doc_ml: c.name("doc_ml").map(|g| g.as_str().to_owned()),
            doc_ml_h: c.name("doc_ml_h").map(|g| g.as_str().to_owned()),
            doc_ml_l: c.name("doc_ml_l").map(|g| g.as_str().to_owned()),
            code: c.name("code").map(|g| g.as_str().to_owned()),
        })
        .collect()
}

} // verus!
