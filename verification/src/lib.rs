//! Literate-programming segmentation: split source text into documentation
//! and code segments, driven by a per-language description of its comment
//! syntax, and group the segments into renderable sections.
//!
//! The pipeline runs in four stages: a language's marker fragments are
//! composed into one line-anchored pattern ([`languages`]); the compiled
//! pattern is driven over the source text ([`matching`]); every match is
//! classified into documentation and code events, which are merged into a
//! dense segment sequence ([`segment`]); and the segments are grouped into
//! renderable sections ([`section`]).  Everything after the pattern engine
//! itself is verified; rendering — markdown, highlighting, templating —
//! is a caller's concern.

use vstd::prelude::*;

pub mod languages;
pub mod matching;
pub mod section;
pub mod segment;

use crate::languages::{composed_pattern, spec_lookup, LanguageSpec, Languages};
use crate::matching::matcher_captures;
use crate::matching::pattern_compiles;
use crate::section::{build_sections, sections_of, sections_view, Sect, Section};
use crate::segment::{compact, events_rec, extract_segments};

verus! {

/// Why a file yields no sections.
///
/// The first two mark the file as skipped — no language is registered
/// under its key, or the registered one has no compilable pattern; the
/// third reports an ill-shaped match, after which the file yields no
/// sections rather than partial ones.  None of them is ever a reason to
/// abort a whole run.
#[derive(Debug, PartialEq, Eq)]
pub enum SegmentError {
    LanguageUnknown,
    MatcherUnavailable,
    ExtractDefect,
}

/// What the whole pipeline makes of one language and one source text:
/// the sections of the compacted event stream, or nothing where the
/// composed pattern does not compile or a match is ill-shaped.  A
/// function of the language description and the text alone.
pub open spec fn pipeline_sections(lang: LanguageSpec, source: Seq<char>) -> Option<Seq<Sect>> {
    if !pattern_compiles(composed_pattern(lang)) {
        Option::<Seq<Sect>>::None
    } else {
        match events_rec(matcher_captures(composed_pattern(lang), source)) {
            Option::None => Option::<Seq<Sect>>::None,
            Option::Some(evs) => Some(sections_of(compact(evs))),
        }
    }
}

/// Running the pipeline twice on identical input yields identical
/// sections, bit for bit: every stage is a function of the language
/// description and the source text alone.
pub proof fn lemma_pipeline_deterministic(
    lang: LanguageSpec,
    source: Seq<char>,
    r1: Option<Seq<Sect>>,
    r2: Option<Seq<Sect>>,
)
    requires
        r1 == pipeline_sections(lang, source),
        r2 == pipeline_sections(lang, source),
    ensures
        r1 == r2,
{
}

/// Segment one source file into sections, under the language registered
/// for `key`.
///
/// The matcher for `key` is taken from the cache, compiled on first use.
/// Success yields exactly [`pipeline_sections`] of that language and the
/// text; each error names the one condition that produced it.
pub fn segment_file(languages: &mut Languages, key: &str, source: &str) -> (r: Result<
    Vec<Section>,
    SegmentError,
>)
    requires
        old(languages).wf(),
    ensures
        final(languages).wf(),
        final(languages).specs_view() == old(languages).specs_view(),
        match spec_lookup(old(languages).specs_view(), key@) {
            Option::None => r == Err::<Vec<Section>, SegmentError>(SegmentError::LanguageUnknown),
            Option::Some(lang) => match pipeline_sections(lang, source@) {
                Option::Some(ss) => r is Ok && sections_view(r.unwrap()@) == ss,
                Option::None => if !pattern_compiles(composed_pattern(lang)) {
                    r == Err::<Vec<Section>, SegmentError>(SegmentError::MatcherUnavailable)
                } else {
                    r == Err::<Vec<Section>, SegmentError>(SegmentError::ExtractDefect)
                },
            },
        },
{
    if !languages.contains(key) {
        return Err(SegmentError::LanguageUnknown);
    }
    match languages.get(key) {
        None => Err(SegmentError::MatcherUnavailable),
        Some(m) => match extract_segments(m, source) {
            Err(_) => Err(SegmentError::ExtractDefect),
            Ok(segs) => Ok(build_sections(&segs)),
        },
    }
}

} // verus!
