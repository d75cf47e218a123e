//! Language descriptions and the composition of their matcher patterns.
//!
//! A [`LanguageSpec`] declares, as regular-expression fragments, how one
//! language writes its comments: an optional single-line marker, and an
//! optional multi-line style given by a header marker, a footer marker and
//! a per-line margin marker.  From those fragments one line-anchored
//! alternation pattern is composed; the alternatives are tried in a fixed
//! order (blank run, single-line comment, margined multi-line comment,
//! margin-less multi-line comment, code line), and that order is part of
//! the meaning of the pattern.

use crate::matching::{compile_matcher, pattern_compiles, CompiledMatcher};
use vstd::prelude::*;

verus! {

/// The declarative comment syntax of one language.
///
/// Every field is a regular-expression fragment, not a literal string.
/// A language with none of the marker fields set produces a pattern whose
/// only comment-free alternative is the code line, so every line of such
/// a language is code.
pub struct LanguageSpec {
    /// Display name of the language (not used by segmentation itself).
    pub name: Option<String>,
    /// Fragment recognizing a single-line comment prefix, e.g. `//+`.
    pub singleline: Option<String>,
    /// Fragment recognizing the opening of a multi-line comment, e.g. `/\*+`.
    pub multiline_header: Option<String>,
    /// Fragment recognizing the close of a multi-line comment, e.g. `\*+/`.
    pub multiline_footer: Option<String>,
    /// Fragment recognizing the per-line margin of a multi-line comment,
    /// e.g. `\*+`; stripped from every body line of a margined block.
    pub multiline_margin: Option<String>,
}

/// The pattern text composed from a language's marker fragments.
///
/// The alternatives stand in the order in which the matcher must try
/// them: a run of blank lines, then the single-line comment, then the
/// margined multi-line comment, then the margin-less multi-line comment,
/// and last the code-line fallback.
pub open spec fn composed_pattern(lang: LanguageSpec) -> Seq<char> {
    "(?:"@ + "(?:\\n+)|"@ + singleline_alternative(lang) + margined_alternative(lang)
        + marginless_alternative(lang) + "(?:^(?P<code>[^\\n]*\\n?)\\n*)"@ + ")"@
}

/// The single-line alternative: present only when a single-line marker is.
pub open spec fn singleline_alternative(lang: LanguageSpec) -> Seq<char> {
    match lang.singleline {
        Some(sl) => "(?:"@ + "^[ \\t]*"@ + sl@ + " ?"@ + "(?:(?P<doc_sl>[^\\n]*\\n?)\\n*)"@
            + ")|"@,
        None => Seq::<char>::empty(),
    }
}

/// The margined multi-line alternative: present only when header, footer
/// and margin are all given.
pub open spec fn margined_alternative(lang: LanguageSpec) -> Seq<char> {
    match (lang.multiline_header, lang.multiline_footer, lang.multiline_margin) {
        (Some(mh), Some(mf), Some(mm)) => "(?:"@ + "^[ \\t]*"@ + mh@
            + "(?P<doc_ml_h>[^\\n]*\\n?)\\n*"@ + "(?P<doc_ml_l>(?:[ \\t]*"@ + mm@
            + "[^\\n]*\\n*)*[ \\t]*)"@ + mf@ + ")|"@,
        _ => Seq::<char>::empty(),
    }
}

/// The margin-less multi-line alternative: present whenever header and
/// footer are given, margin or not; it stands after the margined one and
/// so only decides when that one does not match.
pub open spec fn marginless_alternative(lang: LanguageSpec) -> Seq<char> {
    match (lang.multiline_header, lang.multiline_footer) {
        (Some(mh), Some(mf)) => "(?:"@ + "^[ \\t]*"@ + mh@ + "(?P<doc_ml>.*?)"@ + mf@ + ")|"@,
        _ => Seq::<char>::empty(),
    }
}

/// Compose the single-line alternative's text.
fn compose_singleline(lang: &LanguageSpec) -> (part: String)
    ensures
        part@ == singleline_alternative(*lang),
{
    let mut part = String::new();
    if let Some(sl) = &lang.singleline {
        part.append("(?:");
        part.append("^[ \\t]*");
        part.append(sl.as_str());
        part.append(" ?");
        part.append("(?:(?P<doc_sl>[^\\n]*\\n?)\\n*)");
        part.append(")|");
    }
    part
}

/// Compose the margined multi-line alternative's text.
fn compose_margined(lang: &LanguageSpec) -> (part: String)
    ensures
        part@ == margined_alternative(*lang),
{
    let mut part = String::new();
    if let (Some(mh), Some(mf), Some(mm)) = (
        &lang.multiline_header,
        &lang.multiline_footer,
        &lang.multiline_margin,
    ) {
        part.append("(?:");
        part.append("^[ \\t]*");
        part.append(mh.as_str());
        part.append("(?P<doc_ml_h>[^\\n]*\\n?)\\n*");
        part.append("(?P<doc_ml_l>(?:[ \\t]*");
        part.append(mm.as_str());
        part.append("[^\\n]*\\n*)*[ \\t]*)");
        part.append(mf.as_str());
        part.append(")|");
    }
    part
}

/// Compose the margin-less multi-line alternative's text.
fn compose_marginless(lang: &LanguageSpec) -> (part: String)
    ensures
        part@ == marginless_alternative(*lang),
{
    let mut part = String::new();
    if let (Some(mh), Some(mf)) = (&lang.multiline_header, &lang.multiline_footer) {
        part.append("(?:");
        part.append("^[ \\t]*");
        part.append(mh.as_str());
        part.append("(?P<doc_ml>.*?)");
        part.append(mf.as_str());
        part.append(")|");
    }
    part
}

/// Compose the pattern text for a language.
pub fn compose_pattern(lang: &LanguageSpec) -> (pattern: String)
    ensures
        pattern@ == composed_pattern(*lang),
{
    let mut pattern = String::new();
    pattern.append("(?:");
    pattern.append("(?:\\n+)|");
    let sl = compose_singleline(lang);
    pattern.append(sl.as_str());
    let margined = compose_margined(lang);
    pattern.append(margined.as_str());
    let marginless = compose_marginless(lang);
    pattern.append(marginless.as_str());
    pattern.append("(?:^(?P<code>[^\\n]*\\n?)\\n*)");
    pattern.append(")");
    pattern
}

/// The first language registered under `key`, if any.
pub open spec fn spec_lookup(specs: Seq<(String, LanguageSpec)>, key: Seq<char>) -> Option<
    LanguageSpec,
>
    decreases specs.len(),
{
    if specs.len() == 0 {
        Option::<LanguageSpec>::None
    } else if specs[0].0@ == key {
        Some(specs[0].1)
    } else {
        spec_lookup(specs.drop_first(), key)
    }
}

/// What a cache entry must hold: exactly the matcher that recomputing
/// from the registered language descriptions would yield.
pub open spec fn cache_entry_ok(
    specs: Seq<(String, LanguageSpec)>,
    entry: (String, Option<CompiledMatcher>),
) -> bool {
    match spec_lookup(specs, entry.0@) {
        Option::None => entry.1 is None,
        Option::Some(lang) => match entry.1 {
            Option::None => !pattern_compiles(composed_pattern(lang)),
            Option::Some(m) => pattern_compiles(composed_pattern(lang)) && m.pattern_view()
                == composed_pattern(lang),
        },
    }
}

/// The language descriptions of one run, with their compiled matchers.
///
/// A matcher is built lazily, on the first request for its key, and
/// memoized: one construction per key, after which every later request
/// reads the same immutable matcher.  A key with no registered language,
/// and one whose composed pattern does not compile, are both cached as
/// having no matcher.
pub struct Languages {
    specs: Vec<(String, LanguageSpec)>,
    computed: Vec<(String, Option<CompiledMatcher>)>,
}

impl Languages {
    /// The registered language descriptions.
    pub closed spec fn specs_view(&self) -> Seq<(String, LanguageSpec)> {
        self.specs@
    }

    /// Every cached matcher agrees with recomputing it.
    pub closed spec fn wf(&self) -> bool {
        forall|k: int|
            0 <= k < self.computed@.len() ==> cache_entry_ok(
                self.specs@,
                #[trigger] self.computed@[k],
            )
    }

    /// A fresh cache over the given language descriptions.
    pub fn new(specs: Vec<(String, LanguageSpec)>) -> (r: Languages)
        ensures
            r.wf(),
            r.specs_view() == specs@,
    {
        Languages { specs, computed: Vec::new() }
    }

    /// Whether any language is registered under `l`.
    pub fn contains(&self, l: &str) -> (b: bool)
        ensures
            b == (spec_lookup(self.specs_view(), l@) is Some),
    {
        lookup_spec(&self.specs, l).is_some()
    }

    /// The matcher for the language registered under `l`, memoized.
    ///
    /// `None` means no language is registered under `l`, or the
    /// registered one has no compilable pattern; either way the caller
    /// skips the file.
    pub fn get(&mut self, l: &str) -> (r: Option<&CompiledMatcher>)
        requires
            old(self).wf(),
        ensures
            final(self).wf(),
            final(self).specs_view() == old(self).specs_view(),
            match spec_lookup(old(self).specs_view(), l@) {
                Option::None => r is None,
                Option::Some(lang) => match r {
                    Option::None => !pattern_compiles(composed_pattern(lang)),
                    Option::Some(m) => pattern_compiles(composed_pattern(lang))
                        && m.pattern_view() == composed_pattern(lang),
                },
            },
    {
        let lk = String::from_str(l);
        let n = self.computed.len();
        let mut i: usize = 0;
        while i < n
            invariant
                i <= n,
                n == self.computed@.len(),
                self == old(self),
                lk@ == l@,
                old(self).wf(),
            decreases n - i,
        {
            if lk == self.computed[i].0 {
                return self.computed[i].1.as_ref();
            }
            i = i + 1;
        }
        let m = match lookup_spec(&self.specs, l) {
            Some(lang) => compute_regex(lang),
            None => None,
        };
        let ghost computed0 = self.computed@;
        self.computed.push((lk, m));
        proof {
            assert forall|k: int| 0 <= k < self.computed@.len() implies cache_entry_ok(
                self.specs@,
                #[trigger] self.computed@[k],
            ) by {
                if k < computed0.len() {
                    assert(self.computed@[k] == computed0[k]);
                } else {
                    assert(self.computed@[k] == (lk, m));
                }
            }
        }
        let last = self.computed.len() - 1;
        self.computed[last].1.as_ref()
    }
}

/// The first registered language under `l`, scanned in order.
fn lookup_spec<'a>(specs: &'a Vec<(String, LanguageSpec)>, l: &str) -> (r: Option<
    &'a LanguageSpec,
>)
    ensures
        match r {
            Option::Some(lang) => spec_lookup(specs@, l@) == Some(*lang),
            Option::None => spec_lookup(specs@, l@) is None,
        },
{
    let lk = String::from_str(l);
    let n = specs.len();
    let mut i: usize = 0;
    proof {
        assert(specs@.subrange(0, n as int) =~= specs@);
    }
    while i < n
        invariant
            i <= n,
            n == specs@.len(),
            lk@ == l@,
            spec_lookup(specs@.subrange(i as int, n as int), l@) == spec_lookup(specs@, l@),
        decreases n - i,
    {
        proof {
            assert(specs@.subrange(i as int, n as int).drop_first() =~= specs@.subrange(
                i as int + 1,
                n as int,
            ));
            assert(specs@.subrange(i as int, n as int)[0] == specs@[i as int]);
        }
        if lk == specs[i].0 {
            return Some(&specs[i].1);
        }
        i = i + 1;
    }
    proof {
        assert(specs@.subrange(n as int, n as int) =~= Seq::<(String, LanguageSpec)>::empty());
    }
    None
}

/// Build the matcher for a language, or report that none can be built.
///
/// `None` means the composed pattern is not a well-formed expression —
/// one of the language's marker fragments is malformed.  Callers must
/// treat that language as having no matcher and skip its files; it is
/// never a reason to abort a whole run.
pub fn compute_regex(lang: &LanguageSpec) -> (r: Option<CompiledMatcher>)
    ensures
        r is Some <==> pattern_compiles(composed_pattern(*lang)),
        r matches Some(m) ==> m.pattern_view() == composed_pattern(*lang),
{
    let pattern = compose_pattern(lang);
    compile_matcher(&pattern)
}

} // verus!
