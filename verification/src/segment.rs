//! Classification of matched text into segments.
//!
//! The matcher hands over, per match, the text of its capture groups
//! ([`crate::matching::RawMatch`]).  This module turns those captures
//! into a dense, ordered sequence of [`Segment`]s: every documentation
//! line is normalized (surrounding blanks dropped, exactly one trailing
//! newline) and tested for heading shape; multi-line comment bodies are
//! re-split into physical lines by a fixed rule, independent of the
//! configured margin fragment; code lines pass through verbatim; and
//! adjacent segments of the same kind are merged, so that no two `Doc`
//! or two `Code` segments ever stand next to each other.

use crate::matching::{run_matcher, matcher_captures, CompiledMatcher, RawMatch};
use vstd::prelude::*;

verus! {

/// One semantic unit of a source file.
///
/// A `Title` is a documentation line whose content begins with `#`
/// characters, carried as (heading level, full normalized line); a `Doc`
/// is a maximal run of other documentation lines; a `Code` is a maximal
/// run of code lines, verbatim.
#[derive(Debug, PartialEq, Eq)]
pub enum Segment {
    Title((u8, String)),
    Code(String),
    Doc(String),
}

/// The mathematical value of a [`Segment`]: its kind and its text.
pub enum Seg {
    Title { level: u8, text: Seq<char> },
    Code { text: Seq<char> },
    Doc { text: Seq<char> },
}

impl View for Segment {
    type V = Seg;

    open spec fn view(&self) -> Seg {
        match self {
            Segment::Title((level, text)) => Seg::Title { level: *level, text: text@ },
            Segment::Code(text) => Seg::Code { text: text@ },
            Segment::Doc(text) => Seg::Doc { text: text@ },
        }
    }
}

impl Clone for Segment {
    fn clone(&self) -> (r: Self)
        ensures
            r == *self,
    {
        match self {
            Segment::Title((level, text)) => Segment::Title((*level, text.clone())),
            Segment::Code(text) => Segment::Code(text.clone()),
            Segment::Doc(text) => Segment::Doc(text.clone()),
        }
    }
}

/// The values of a sequence of segments.
pub open spec fn segs_view(v: Seq<Segment>) -> Seq<Seg> {
    v.map_values(|s: Segment| s@)
}

/// Blank characters: dropped from both ends of a documentation line.
pub open spec fn is_blank(c: char) -> bool {
    c == ' ' || c == '\t' || c == '\n'
}

/// Padding characters: everything blank that can stand inside a line.
pub open spec fn is_pad(c: char) -> bool {
    c == ' ' || c == '\t'
}

/// The text without its leading blanks.
pub open spec fn trim_start(s: Seq<char>) -> Seq<char>
    decreases s.len(),
{
    if s.len() > 0 && is_blank(s[0]) {
        trim_start(s.drop_first())
    } else {
        s
    }
}

/// The text without its trailing blanks.
pub open spec fn trim_end(s: Seq<char>) -> Seq<char>
    decreases s.len(),
{
    if s.len() > 0 && is_blank(s[s.len() - 1]) {
        trim_end(s.drop_last())
    } else {
        s
    }
}

/// The text without blanks on either end.
pub open spec fn trimmed(s: Seq<char>) -> Seq<char> {
    trim_end(trim_start(s))
}

/// The number of `#` characters standing at position `i`.
pub open spec fn hash_run(s: Seq<char>, i: int) -> int
    decreases s.len() - i,
{
    if 0 <= i < s.len() && s[i] == '#' {
        1 + hash_run(s, i + 1)
    } else {
        0
    }
}

/// A heading level stored in one byte; deeper headings saturate at 255.
pub open spec fn level_u8(k: int) -> u8 {
    if k > 255 {
        255u8
    } else {
        k as u8
    }
}

/// How one raw documentation line is classified.
///
/// The line is normalized first — blanks dropped from both ends, exactly
/// one newline appended — and is a `Title` exactly when its remaining
/// content starts with `#`, with the level the length of that `#` run.
/// Heading shape is a property of the text alone, never of the comment
/// style the line came from.
pub open spec fn classify_model(raw: Seq<char>) -> Seg {
    let t = trimmed(raw);
    let text = t + "\n"@;
    if t.len() > 0 && t[0] == '#' {
        Seg::Title { level: level_u8(hash_run(t, 0)), text }
    } else {
        Seg::Doc { text }
    }
}

/// Whether a character is blank, as executable code.
fn char_is_blank(c: char) -> (b: bool)
    ensures
        b == is_blank(c),
{
    c == ' ' || c == '\t' || c == '\n'
}

/// First index at or after `start` holding a non-blank character, or `n`.
fn scan_nonblank(s: &str, start: usize, n: usize) -> (r: usize)
    requires
        n == s@.len(),
        start <= n,
    ensures
        start <= r <= n,
        forall|k: int| start <= k < r ==> is_blank(s@[k]),
        r < n ==> !is_blank(s@[r as int]),
{
    let mut i = start;
    while i < n
        invariant
            start <= i <= n,
            n == s@.len(),
            forall|k: int| start <= k < i ==> is_blank(s@[k]),
        decreases n - i,
    {
        if !char_is_blank(s.get_char(i)) {
            return i;
        }
        i = i + 1;
    }
    i
}

/// Index after the last non-blank character of `s`, or 0 if none.
fn scan_nonblank_rev(s: &str, n: usize) -> (r: usize)
    requires
        n == s@.len(),
    ensures
        r <= n,
        forall|k: int| r <= k < n ==> is_blank(s@[k]),
        r > 0 ==> !is_blank(s@[r - 1]),
{
    let mut j = n;
    while j > 0
        invariant
            j <= n,
            n == s@.len(),
            forall|k: int| j <= k < n ==> is_blank(s@[k]),
        decreases j,
    {
        if !char_is_blank(s.get_char(j - 1)) {
            return j;
        }
        j = j - 1;
    }
    j
}

/// `trim_start` drops exactly the leading run of blanks.
proof fn lemma_trim_start_at(s: Seq<char>, i: int)
    requires
        0 <= i <= s.len(),
        forall|k: int| 0 <= k < i ==> is_blank(s[k]),
        i == s.len() || !is_blank(s[i]),
    ensures
        trim_start(s) == s.subrange(i, s.len() as int),
    decreases i,
{
    if i == 0 {
        assert(s.subrange(0, s.len() as int) =~= s);
    } else {
        assert(is_blank(s[0]));
        let d = s.drop_first();
        assert(d =~= s.subrange(1, s.len() as int));
        lemma_trim_start_at(d, i - 1);
        assert(d.subrange(i - 1, d.len() as int) =~= s.subrange(i, s.len() as int));
    }
}

/// `trim_end` drops exactly the trailing run of blanks.
proof fn lemma_trim_end_at(s: Seq<char>, j: int)
    requires
        0 <= j <= s.len(),
        forall|k: int| j <= k < s.len() ==> is_blank(s[k]),
        j == 0 || !is_blank(s[j - 1]),
    ensures
        trim_end(s) == s.subrange(0, j),
    decreases s.len() - j,
{
    if j == s.len() {
        assert(s.subrange(0, j) =~= s);
    } else {
        assert(is_blank(s[s.len() - 1]));
        let d = s.drop_last();
        assert(d =~= s.subrange(0, s.len() - 1));
        lemma_trim_end_at(d, j);
        assert(d.subrange(0, j) =~= s.subrange(0, j));
    }
}

/// On a text whose non-blank content spans `[i, j)`, trimming keeps
/// exactly that span.
proof fn lemma_trimmed_span(s: Seq<char>, i: int, j: int)
    requires
        0 <= i <= j <= s.len(),
        forall|k: int| 0 <= k < i ==> is_blank(s[k]),
        forall|k: int| j <= k < s.len() ==> is_blank(s[k]),
        i < j ==> !is_blank(s[i]) && !is_blank(s[j - 1]),
        i == j ==> i == s.len() && j == 0 || i < j,
    ensures
        trimmed(s) == s.subrange(i, j),
{
    if i < j {
        lemma_trim_start_at(s, i);
        let t = s.subrange(i, s.len() as int);
        assert(forall|k: int| j - i <= k < t.len() ==> is_blank(t[k]));
        assert(!is_blank(t[j - i - 1]));
        lemma_trim_end_at(t, j - i);
        assert(t.subrange(0, j - i) =~= s.subrange(i, j));
    } else {
        lemma_trim_start_at(s, i);
        let t = s.subrange(i, s.len() as int);
        assert(t.len() == 0);
        lemma_trim_end_at(t, 0);
        assert(t.subrange(0, 0) =~= s.subrange(i, j));
    }
}

/// A text of blanks alone trims to nothing.
proof fn lemma_trimmed_all_blank(s: Seq<char>)
    requires
        forall|k: int| 0 <= k < s.len() ==> is_blank(s[k]),
    ensures
        trimmed(s) == Seq::<char>::empty(),
{
    lemma_trim_start_at(s, s.len() as int);
    let t = s.subrange(s.len() as int, s.len() as int);
    assert(t.len() == 0);
    lemma_trim_end_at(t, 0);
    assert(t.subrange(0, 0) =~= Seq::<char>::empty());
}

/// A scanned `#` run agrees with [`hash_run`].
proof fn lemma_hash_run_at(s: Seq<char>, m: int, i: int)
    requires
        0 <= m <= i <= s.len(),
        forall|k: int| m <= k < i ==> s[k] == '#',
        i == s.len() || s[i as int] != '#',
    ensures
        hash_run(s, m) == i - m,
    decreases i - m,
{
    if m < i {
        lemma_hash_run_at(s, m + 1, i);
    }
}

/// Length of the `#` run opening `s`.
fn scan_hashes(s: &str, n: usize) -> (r: usize)
    requires
        n == s@.len(),
        n > 0,
        s@[0] == '#',
    ensures
        1 <= r <= n,
        forall|m: int| 0 <= m < r ==> s@[m] == '#',
        r < n ==> s@[r as int] != '#',
{
    let mut k: usize = 1;
    while k < n
        invariant
            1 <= k <= n,
            n == s@.len(),
            forall|m: int| 0 <= m < k ==> s@[m] == '#',
        decreases n - k,
    {
        if s.get_char(k) != '#' {
            return k;
        }
        k = k + 1;
    }
    k
}

/// First index at or after `i` whose character satisfies `stop`, or the
/// text's length.
pub open spec fn scan_until(s: Seq<char>, i: int, stop: spec_fn(char) -> bool) -> int
    decreases s.len() - i,
{
    if !(0 <= i < s.len()) {
        s.len() as int
    } else if stop(s[i]) {
        i
    } else {
        scan_until(s, i + 1, stop)
    }
}

/// A scanned stretch of non-stopping characters pins [`scan_until`] down.
proof fn lemma_scan_until_span(s: Seq<char>, i: int, r: int, stop: spec_fn(char) -> bool)
    requires
        0 <= i <= r <= s.len(),
        forall|k: int| i <= k < r ==> !stop(s[k]),
        r == s.len() || stop(s[r]),
    ensures
        scan_until(s, i, stop) == r,
    decreases r - i,
{
    if i < r {
        lemma_scan_until_span(s, i + 1, r, stop);
    }
}

/// Bounds of [`scan_until`], for termination arguments.
proof fn lemma_scan_until_bounds(s: Seq<char>, i: int, stop: spec_fn(char) -> bool)
    requires
        0 <= i <= s.len(),
    ensures
        i <= scan_until(s, i, stop) <= s.len(),
    decreases s.len() - i,
{
    if i < s.len() && !stop(s[i]) {
        lemma_scan_until_bounds(s, i + 1, stop);
    }
}

/// First newline at or after `i`, or the text's length.
pub open spec fn first_nl_at(s: Seq<char>, i: int) -> int {
    scan_until(s, i, |c: char| c == '\n')
}

/// Whether a line holds anything besides padding.
pub open spec fn line_has_ink(line: Seq<char>) -> bool {
    exists|k: int| 0 <= k < line.len() && !is_pad(line[k])
}

/// Whether a line holds anything besides tabs.
pub open spec fn line_has_nontab(line: Seq<char>) -> bool {
    exists|k: int| 0 <= k < line.len() && line[k] != '\t'
}

/// A margined body line after its margin token: everything behind the
/// line's first run of non-padding characters.  The rule is fixed — the
/// configured margin fragment decides where a body starts, never how its
/// lines are tokenized afterwards — so any first word is dropped,
/// whatever the margin fragment says.
pub open spec fn strip_margin(line: Seq<char>) -> Seq<char> {
    let b = scan_until(line, 0, |c: char| !is_pad(c));
    let e = scan_until(line, b, |c: char| is_pad(c));
    line.subrange(e, line.len() as int)
}

/// The classified events of a margined multi-line body, from position
/// `i`: one documentation event per physical line holding any non-padding
/// character, in order, the margin dropped and the rest normalized;
/// lines of padding alone yield nothing.
pub open spec fn margin_events_at(s: Seq<char>, i: int) -> Seq<Seg>
    decreases s.len() - i,
    via margin_events_at_decreases
{
    if !(0 <= i < s.len()) {
        Seq::<Seg>::empty()
    } else {
        let j = first_nl_at(s, i);
        let line = s.subrange(i, j);
        let rest = if j < s.len() {
            margin_events_at(s, j + 1)
        } else {
            Seq::<Seg>::empty()
        };
        if line_has_ink(line) {
            seq![classify_model(strip_margin(line))] + rest
        } else {
            rest
        }
    }
}

#[via_fn]
proof fn margin_events_at_decreases(s: Seq<char>, i: int) {
    if 0 <= i < s.len() {
        lemma_scan_until_bounds(s, i, |c: char| c == '\n');
    }
}

/// The classified events of a margin-less multi-line body, from position
/// `i`: one documentation event per physical line holding anything
/// besides tabs, in order, the line normalized whole; lines of tabs
/// alone, and empty lines, yield nothing.
pub open spec fn nomargin_events_at(s: Seq<char>, i: int) -> Seq<Seg>
    decreases s.len() - i,
    via nomargin_events_at_decreases
{
    if !(0 <= i < s.len()) {
        Seq::<Seg>::empty()
    } else {
        let j = first_nl_at(s, i);
        let line = s.subrange(i, j);
        let rest = if j < s.len() {
            nomargin_events_at(s, j + 1)
        } else {
            Seq::<Seg>::empty()
        };
        if line_has_nontab(line) {
            seq![classify_model(line)] + rest
        } else {
            rest
        }
    }
}

#[via_fn]
proof fn nomargin_events_at_decreases(s: Seq<char>, i: int) {
    if 0 <= i < s.len() {
        lemma_scan_until_bounds(s, i, |c: char| c == '\n');
    }
}

/// First newline at or after `start`, as executable code.
fn find_nl(s: &str, start: usize, n: usize) -> (r: usize)
    requires
        n == s@.len(),
        start <= n,
    ensures
        start <= r <= n,
        r as int == first_nl_at(s@, start as int),
        forall|k: int| start <= k < r ==> s@[k] != '\n',
        r < n ==> s@[r as int] == '\n',
{
    let mut i = start;
    while i < n
        invariant
            start <= i <= n,
            n == s@.len(),
            forall|k: int| start <= k < i ==> s@[k] != '\n',
        decreases n - i,
    {
        if s.get_char(i) == '\n' {
            proof {
                lemma_scan_until_span(s@, start as int, i as int, |c: char| c == '\n');
            }
            return i;
        }
        i = i + 1;
    }
    proof {
        lemma_scan_until_span(s@, start as int, n as int, |c: char| c == '\n');
    }
    i
}

/// Whether a character is padding, as executable code.
fn char_is_pad(c: char) -> (b: bool)
    ensures
        b == is_pad(c),
{
    c == ' ' || c == '\t'
}

/// First non-padding character in `[start, end)`, or `end`.
fn find_nonpad(s: &str, start: usize, end: usize) -> (r: usize)
    requires
        start <= end,
        end <= s@.len(),
    ensures
        start <= r <= end,
        forall|k: int| start <= k < r ==> is_pad(s@[k]),
        r < end ==> !is_pad(s@[r as int]),
{
    let mut i = start;
    while i < end
        invariant
            start <= i <= end,
            end <= s@.len(),
            forall|k: int| start <= k < i ==> is_pad(s@[k]),
        decreases end - i,
    {
        if !char_is_pad(s.get_char(i)) {
            return i;
        }
        i = i + 1;
    }
    i
}

/// First padding character in `[start, end)`, or `end`.
fn find_pad(s: &str, start: usize, end: usize) -> (r: usize)
    requires
        start <= end,
        end <= s@.len(),
    ensures
        start <= r <= end,
        forall|k: int| start <= k < r ==> !is_pad(s@[k]),
        r < end ==> is_pad(s@[r as int]),
{
    let mut i = start;
    while i < end
        invariant
            start <= i <= end,
            end <= s@.len(),
            forall|k: int| start <= k < i ==> !is_pad(s@[k]),
        decreases end - i,
    {
        if char_is_pad(s.get_char(i)) {
            return i;
        }
        i = i + 1;
    }
    i
}

/// Split a margined body into its classified documentation events.
fn split_body_margin(body: &str) -> (r: Vec<Segment>)
    ensures
        segs_view(r@) == margin_events_at(body@, 0),
{
    let n = body.unicode_len();
    let mut out: Vec<Segment> = Vec::new();
    let mut pos: usize = 0;
    while pos < n
        invariant
            pos <= n,
            n == body@.len(),
            segs_view(out@) + margin_events_at(body@, pos as int) == margin_events_at(body@, 0),
        decreases n - pos,
    {
        let ghost s = body@;
        let ghost line = s.subrange(pos as int, first_nl_at(s, pos as int));
        let j = find_nl(body, pos, n);
        let b = find_nonpad(body, pos, j);
        if b < j {
            // the line holds ink: drop its first non-padding run
            let e = find_pad(body, b, j);
            let piece = body.substring_char(e, j);
            proof {
                assert(line =~= s.subrange(pos as int, j as int));
                assert(line_has_ink(line)) by {
                    assert(!is_pad(line[b - pos as int]));
                }
                lemma_scan_until_span(line, 0, b as int - pos as int, |c: char| !is_pad(c));
                lemma_scan_until_span(
                    line,
                    b as int - pos as int,
                    e as int - pos as int,
                    |c: char| is_pad(c),
                );
                assert(strip_margin(line) =~= piece@);
            }
            let seg = title_or_doc_segment(piece);
            proof {
                let out2 = out@.push(seg);
                assert(segs_view(out2) =~= segs_view(out@).push(classify_model(strip_margin(
                    line,
                ))));
                assert(segs_view(out2) + margin_events_at(s, j + 1) =~= segs_view(out@)
                    + margin_events_at(s, pos as int));
            }
            out.push(seg);
        } else {
            proof {
                assert(line =~= s.subrange(pos as int, j as int));
                assert(!line_has_ink(line));
            }
        }
        if j < n {
            pos = j + 1;
        } else {
            pos = n;
            proof {
                assert(margin_events_at(s, n as int) =~= Seq::<Seg>::empty());
                assert(segs_view(out@) + Seq::<Seg>::empty() =~= segs_view(out@));
            }
        }
    }
    proof {
        assert(margin_events_at(body@, n as int) =~= Seq::<Seg>::empty());
        assert(segs_view(out@) + Seq::<Seg>::empty() =~= segs_view(out@));
    }
    out
}

/// Whether a character is a tab, as executable code.
fn char_is_tab(c: char) -> (b: bool)
    ensures
        b == (c == '\t'),
{
    c == '\t'
}

/// First non-tab character in `[start, end)`, or `end`.
fn find_nontab(s: &str, start: usize, end: usize) -> (r: usize)
    requires
        start <= end,
        end <= s@.len(),
    ensures
        start <= r <= end,
        forall|k: int| start <= k < r ==> s@[k] == '\t',
        r < end ==> s@[r as int] != '\t',
{
    let mut i = start;
    while i < end
        invariant
            start <= i <= end,
            end <= s@.len(),
            forall|k: int| start <= k < i ==> s@[k] == '\t',
        decreases end - i,
    {
        if !char_is_tab(s.get_char(i)) {
            return i;
        }
        i = i + 1;
    }
    i
}

/// Split a margin-less body into its classified documentation events.
fn split_body_nomargin(body: &str) -> (r: Vec<Segment>)
    ensures
        segs_view(r@) == nomargin_events_at(body@, 0),
{
    let n = body.unicode_len();
    let mut out: Vec<Segment> = Vec::new();
    let mut pos: usize = 0;
    while pos < n
        invariant
            pos <= n,
            n == body@.len(),
            segs_view(out@) + nomargin_events_at(body@, pos as int) == nomargin_events_at(
                body@,
                0,
            ),
        decreases n - pos,
    {
        let ghost s = body@;
        let ghost line = s.subrange(pos as int, first_nl_at(s, pos as int));
        let j = find_nl(body, pos, n);
        let b = find_nontab(body, pos, j);
        if b < j {
            let piece = body.substring_char(pos, j);
            proof {
                assert(line =~= s.subrange(pos as int, j as int));
                assert(line_has_nontab(line)) by {
                    assert(line[b - pos as int] != '\t');
                }
                assert(line =~= piece@);
            }
            let seg = title_or_doc_segment(piece);
            proof {
                let out2 = out@.push(seg);
                assert(segs_view(out2) =~= segs_view(out@).push(classify_model(line)));
                assert(segs_view(out2) + nomargin_events_at(s, j + 1) =~= segs_view(out@)
                    + nomargin_events_at(s, pos as int));
            }
            out.push(seg);
        } else {
            proof {
                assert(line =~= s.subrange(pos as int, j as int));
                assert(!line_has_nontab(line));
            }
        }
        if j < n {
            pos = j + 1;
        } else {
            pos = n;
            proof {
                assert(nomargin_events_at(s, n as int) =~= Seq::<Seg>::empty());
                assert(segs_view(out@) + Seq::<Seg>::empty() =~= segs_view(out@));
            }
        }
    }
    proof {
        assert(nomargin_events_at(body@, n as int) =~= Seq::<Seg>::empty());
        assert(segs_view(out@) + Seq::<Seg>::empty() =~= segs_view(out@));
    }
    out
}

/// Classify one raw documentation line as a heading or plain prose.
///
/// The returned segment carries the normalized line: blanks dropped from
/// both ends and exactly one newline appended.  The line is a `Title`
/// exactly when its trimmed content starts with `#`; the level is the
/// length of the leading `#` run (saturating at 255).
pub fn title_or_doc_segment(line: &str) -> (s: Segment)
    ensures
        s@ == classify_model(line@),
{
    let n = line.unicode_len();
    let i = scan_nonblank(line, 0, n);
    if i == n {
        proof {
            lemma_trimmed_all_blank(line@);
        }
        let mut text = String::new();
        text.append("\n");
        proof {
            assert(Seq::<char>::empty() + "\n"@ =~= text@);
        }
        return Segment::Doc(text);
    }
    let j = scan_nonblank_rev(line, n);
    proof {
        assert(j > i) by {
            if j <= i {
                assert(is_blank(line@[i as int]));
            }
        }
        lemma_trimmed_span(line@, i as int, j as int);
    }
    let t = line.substring_char(i, j);
    let tn = j - i;
    let mut text = t.to_owned();
    text.append("\n");
    if t.get_char(0) == '#' {
        let k = scan_hashes(t, tn);
        proof {
            lemma_hash_run_at(t@, 0, k as int);
        }
        let level: u8 = if k > 255 {
            255
        } else {
            k as u8
        };
        Segment::Title((level, text))
    } else {
        proof {
            lemma_hash_run_at(t@, 0, 0);
        }
        Segment::Doc(text)
    }
}

/// A match fired with an ill-shaped set of capture groups — an internal
/// inconsistency of the composed pattern, never expected from a matcher
/// that compiled.  Extraction is abandoned: the file yields no segments
/// rather than partial ones.
#[derive(Debug, PartialEq, Eq)]
pub struct ExtractDefect;

/// The classified events of one match, or `None` for an ill-shaped one.
///
/// The groups are examined in a fixed order: a match with no group at all
/// is a consumed blank run and yields nothing; then a single-line comment
/// yields its one line; a margin-less multi-line body yields its lines; a
/// margined multi-line comment yields its header line and then its body
/// lines; a code line yields itself verbatim.  Anything else — a header
/// without a body, say — is a defect.
pub open spec fn match_events(m: RawMatch) -> Option<Seq<Seg>> {
    if m.doc_sl is None && m.doc_ml is None && m.doc_ml_h is None && m.doc_ml_l is None
        && m.code is None {
        Some(Seq::<Seg>::empty())
    } else if m.doc_sl is Some {
        Some(seq![classify_model(m.doc_sl.unwrap()@)])
    } else if m.doc_ml is Some {
        Some(nomargin_events_at(m.doc_ml.unwrap()@, 0))
    } else if m.doc_ml_h is Some && m.doc_ml_l is Some {
        Some(
            seq![classify_model(m.doc_ml_h.unwrap()@)] + margin_events_at(
                m.doc_ml_l.unwrap()@,
                0,
            ),
        )
    } else if m.code is Some {
        Some(seq![Seg::Code { text: m.code.unwrap()@ }])
    } else {
        None
    }
}

/// The classified events of a sequence of matches, in order, or `None`
/// as soon as any match is ill-shaped.
pub open spec fn events_rec(ms: Seq<RawMatch>) -> Option<Seq<Seg>>
    decreases ms.len(),
{
    if ms.len() == 0 {
        Some(Seq::<Seg>::empty())
    } else {
        match match_events(ms[0]) {
            Option::None => Option::<Seq<Seg>>::None,
            Option::Some(evs) => match events_rec(ms.drop_first()) {
                Option::None => Option::<Seq<Seg>>::None,
                Option::Some(rest) => Some(evs + rest),
            },
        }
    }
}

/// Turn one match into its classified events.
fn events_of_match(m: &RawMatch) -> (r: Result<Vec<Segment>, ExtractDefect>)
    ensures
        match r {
            Ok(v) => match_events(*m) == Some(segs_view(v@)),
            Err(_) => match_events(*m) is None,
        },
{
    if m.doc_sl.is_none() && m.doc_ml.is_none() && m.doc_ml_h.is_none() && m.doc_ml_l.is_none()
        && m.code.is_none() {
        let v: Vec<Segment> = Vec::new();
        proof {
            assert(segs_view(v@) =~= Seq::<Seg>::empty());
        }
        Ok(v)
    } else if let Some(sl) = &m.doc_sl {
        let seg = title_or_doc_segment(sl.as_str());
        let mut v: Vec<Segment> = Vec::new();
        v.push(seg);
        proof {
            assert(segs_view(v@) =~= seq![classify_model(sl@)]);
        }
        Ok(v)
    } else if let Some(ml) = &m.doc_ml {
        Ok(split_body_nomargin(ml.as_str()))
    } else if m.doc_ml_h.is_some() && m.doc_ml_l.is_some() {
        if let (Some(h), Some(l)) = (&m.doc_ml_h, &m.doc_ml_l) {
            let head = title_or_doc_segment(h.as_str());
            let mut v: Vec<Segment> = Vec::new();
            v.push(head);
            let mut body = split_body_margin(l.as_str());
            proof {
                let ghost one = v@;
                assert(segs_view(one + body@) =~= segs_view(one) + segs_view(body@));
                assert(segs_view(one) =~= seq![classify_model(h@)]);
            }
            v.append(&mut body);
            Ok(v)
        } else {
            Err(ExtractDefect)
        }
    } else if let Some(code) = &m.code {
        let mut v: Vec<Segment> = Vec::new();
        v.push(Segment::Code(code.clone()));
        proof {
            assert(segs_view(v@) =~= seq![Seg::Code { text: code@ }]);
        }
        Ok(v)
    } else {
        Err(ExtractDefect)
    }
}

/// What one incoming event does to the pending segment: merge into it,
/// or flush it and take its place.  Two `Doc`s merge, two `Code`s merge;
/// a `Title` never merges with anything, in either role.
pub open spec fn compact_step(cur: Option<Seg>, ev: Seg) -> (Seq<Seg>, Option<Seg>) {
    match cur {
        Option::None => (Seq::<Seg>::empty(), Some(ev)),
        Option::Some(c) => match (c, ev) {
            (Seg::Doc { text: a }, Seg::Doc { text: b }) => (
                Seq::<Seg>::empty(),
                Some(Seg::Doc { text: a + b }),
            ),
            (Seg::Code { text: a }, Seg::Code { text: b }) => (
                Seq::<Seg>::empty(),
                Some(Seg::Code { text: a + b }),
            ),
            _ => (seq![c], Some(ev)),
        },
    }
}

/// The pending segment, flushed.
pub open spec fn flush_pending(cur: Option<Seg>) -> Seq<Seg> {
    match cur {
        Option::None => Seq::<Seg>::empty(),
        Option::Some(c) => seq![c],
    }
}

/// The compacted form of an event sequence, given a pending segment.
pub open spec fn compact_rec(evs: Seq<Seg>, cur: Option<Seg>) -> Seq<Seg>
    decreases evs.len(),
{
    if evs.len() == 0 {
        flush_pending(cur)
    } else {
        let sc = compact_step(cur, evs[0]);
        sc.0 + compact_rec(evs.drop_first(), sc.1)
    }
}

/// The dense form of an event sequence: adjacent `Doc`s merged, adjacent
/// `Code`s merged, source order kept, `Title`s left as singletons.
pub open spec fn compact(evs: Seq<Seg>) -> Seq<Seg> {
    compact_rec(evs, None)
}

/// The value of the pending exec segment.
pub open spec fn pending_view(cur: Option<Segment>) -> Option<Seg> {
    match cur {
        Option::None => Option::<Seg>::None,
        Option::Some(s) => Some(s@),
    }
}

/// Merge every run of adjacent same-kind segments into one segment.
///
/// Texts are concatenated in source order; no two `Doc` and no two
/// `Code` segments stand adjacent in the result.
pub fn compact_segments(events: Vec<Segment>) -> (r: Vec<Segment>)
    ensures
        segs_view(r@) == compact(segs_view(events@)),
        well_merged(segs_view(r@)),
{
    proof {
        lemma_compact_well_merged(segs_view(events@));
    }
    let n = events.len();
    let ghost sv = segs_view(events@);
    let mut out: Vec<Segment> = Vec::new();
    let mut cur: Option<Segment> = None;
    let mut i: usize = 0;
    proof {
        assert(sv.subrange(0, n as int) =~= sv);
        assert(segs_view(out@) =~= Seq::<Seg>::empty());
        assert(Seq::<Seg>::empty() + compact_rec(sv, None) =~= compact_rec(sv, None));
    }
    while i < n
        invariant
            i <= n,
            n == events@.len(),
            sv == segs_view(events@),
            segs_view(out@) + compact_rec(sv.subrange(i as int, n as int), pending_view(cur))
                == compact(sv),
        decreases n - i,
    {
        let ghost out0 = out@;
        let ghost cur0 = pending_view(cur);
        let ev = events[i].clone();
        proof {
            assert(sv.subrange(i as int, n as int).drop_first() =~= sv.subrange(
                i as int + 1,
                n as int,
            ));
            assert(sv.subrange(i as int, n as int)[0] == ev@);
        }
        cur = match (cur, ev) {
            (None, e) => Some(e),
            (Some(Segment::Doc(mut a)), Segment::Doc(b)) => {
                a.append(b.as_str());
                Some(Segment::Doc(a))
            },
            (Some(Segment::Code(mut a)), Segment::Code(b)) => {
                a.append(b.as_str());
                Some(Segment::Code(a))
            },
            (Some(c), e) => {
                out.push(c);
                Some(e)
            },
        };
        proof {
            let sc = compact_step(cur0, sv.subrange(i as int, n as int)[0]);
            assert(pending_view(cur) == sc.1);
            assert(segs_view(out@) =~= segs_view(out0) + sc.0);
            assert(segs_view(out@) + compact_rec(
                sv.subrange(i as int + 1, n as int),
                pending_view(cur),
            ) =~= segs_view(out0) + compact_rec(sv.subrange(i as int, n as int), cur0));
        }
        i = i + 1;
    }
    proof {
        assert(sv.subrange(n as int, n as int) =~= Seq::<Seg>::empty());
    }
    if let Some(c) = cur {
        let ghost out0 = out@;
        out.push(c);
        proof {
            assert(segs_view(out@) =~= segs_view(out0) + flush_pending(Some(c@)));
        }
    } else {
        proof {
            assert(segs_view(out@) + flush_pending(None) =~= segs_view(out@));
        }
    }
    out
}

/// Run a language's matcher over source text and hand back the dense
/// segment sequence: every comment line classified and normalized, every
/// code line verbatim, adjacent same-kind segments merged.
///
/// `Err` reports an ill-shaped match (see [`ExtractDefect`]); the file
/// then yields no segments at all.
pub fn extract_segments(m: &CompiledMatcher, source: &str) -> (r: Result<
    Vec<Segment>,
    ExtractDefect,
>)
    ensures
        ({
            let evs = events_rec(matcher_captures(m.pattern_view(), source@));
            match r {
                Ok(v) => evs is Some && segs_view(v@) == compact(evs.unwrap()) && well_merged(
                    segs_view(v@),
                ),
                Err(_) => evs is None,
            }
        }),
{
    let captures = run_matcher(m, source);
    let ghost ms = matcher_captures(m.pattern_view(), source@);
    let cn = captures.len();
    let mut events: Vec<Segment> = Vec::new();
    let mut i: usize = 0;
    proof {
        assert(ms.subrange(0, cn as int) =~= ms);
        assert(segs_view(events@) =~= Seq::<Seg>::empty());
        if events_rec(ms) is Some {
            assert(Seq::<Seg>::empty() + events_rec(ms).unwrap() =~= events_rec(ms).unwrap());
        }
    }
    while i < cn
        invariant
            i <= cn,
            cn == captures@.len(),
            captures@ == ms,
            ms == matcher_captures(m.pattern_view(), source@),
            match events_rec(ms.subrange(i as int, cn as int)) {
                Option::None => events_rec(ms) is None,
                Option::Some(rest) => events_rec(ms) == Some(segs_view(events@) + rest),
            },
        decreases cn - i,
    {
        proof {
            assert(ms.subrange(i as int, cn as int).drop_first() =~= ms.subrange(
                i as int + 1,
                cn as int,
            ));
            assert(ms.subrange(i as int, cn as int)[0] == ms[i as int]);
        }
        match events_of_match(&captures[i]) {
            Err(d) => {
                proof {
                    assert(events_rec(ms.subrange(i as int, cn as int)) is None);
                }
                return Err(d);
            },
            Ok(mut v) => {
                let ghost events0 = events@;
                let ghost v0 = v@;
                events.append(&mut v);
                proof {
                    assert(segs_view(events@) =~= segs_view(events0) + segs_view(v0));
                    if events_rec(ms.subrange(i as int + 1, cn as int)) is Some {
                        let rest2 = events_rec(ms.subrange(i as int + 1, cn as int)).unwrap();
                        assert(segs_view(events0) + (segs_view(v0) + rest2) =~= segs_view(
                            events@,
                        ) + rest2);
                    }
                }
            },
        }
        i = i + 1;
    }
    proof {
        assert(ms.subrange(cn as int, cn as int) =~= Seq::<RawMatch>::empty());
        assert(segs_view(events@) + Seq::<Seg>::empty() =~= segs_view(events@));
    }
    Ok(compact_segments(events))
}

/// The text one segment carries.
pub open spec fn seg_text(s: Seg) -> Seq<char> {
    match s {
        Seg::Title { level, text } => text,
        Seg::Doc { text } => text,
        Seg::Code { text } => text,
    }
}

/// The concatenated text of a segment sequence, in order.
pub open spec fn segs_text(segs: Seq<Seg>) -> Seq<char>
    decreases segs.len(),
{
    if segs.len() == 0 {
        Seq::<char>::empty()
    } else {
        seg_text(segs[0]) + segs_text(segs.drop_first())
    }
}

/// Whether two segments are of the same kind.
pub open spec fn same_kind(a: Seg, b: Seg) -> bool {
    (a is Title && b is Title) || (a is Doc && b is Doc) || (a is Code && b is Code)
}

/// No two adjacent segments are both `Doc` or both `Code`.  Titles are
/// singletons that never merge, so two of them may stand side by side.
pub open spec fn well_merged(segs: Seq<Seg>) -> bool {
    forall|k: int|
        0 <= k < segs.len() - 1 ==> !(#[trigger] segs[k] is Doc && segs[k + 1] is Doc) && !(
        segs[k] is Code && segs[k + 1] is Code)
}

/// Prepending one segment to a sequence distributes over [`segs_text`].
proof fn lemma_segs_text_cons(x: Seg, r: Seq<Seg>)
    ensures
        segs_text(seq![x] + r) == seg_text(x) + segs_text(r),
{
    assert((seq![x] + r).drop_first() =~= r);
    assert((seq![x] + r)[0] == x);
}

/// The text of a single segment's sequence is that segment's text.
proof fn lemma_segs_text_singleton(x: Seg)
    ensures
        segs_text(seq![x]) == seg_text(x),
{
    assert(seq![x].drop_first() =~= Seq::<Seg>::empty());
    assert(segs_text(Seq::<Seg>::empty()) == Seq::<char>::empty());
    assert(seg_text(x) + Seq::<char>::empty() =~= seg_text(x));
}

/// Compaction keeps every character: the output's text is the pending
/// segment's text followed by the events' text.
proof fn lemma_compact_rec_text(evs: Seq<Seg>, cur: Option<Seg>)
    ensures
        segs_text(compact_rec(evs, cur)) == segs_text(flush_pending(cur)) + segs_text(evs),
    decreases evs.len(),
{
    if evs.len() == 0 {
        assert(segs_text(flush_pending(cur)) + Seq::<char>::empty() =~= segs_text(
            flush_pending(cur),
        ));
        if cur is Some {
            lemma_segs_text_singleton(cur.unwrap());
        }
    } else {
        let sc = compact_step(cur, evs[0]);
        lemma_compact_rec_text(evs.drop_first(), sc.1);
        let rest_text = segs_text(evs.drop_first());
        assert(segs_text(evs) == seg_text(evs[0]) + rest_text);
        lemma_segs_text_singleton(sc.1.unwrap());
        assert(segs_text(flush_pending(sc.1)) == seg_text(sc.1.unwrap()));
        if cur is Some {
            let c = cur.unwrap();
            lemma_segs_text_singleton(c);
            assert(segs_text(flush_pending(cur)) == seg_text(c));
            if same_kind(c, evs[0]) && !(c is Title) {
                // merged: the pending text grows by the event's text
                assert(sc.0 =~= Seq::<Seg>::empty());
                assert(sc.1.unwrap() is Doc || sc.1.unwrap() is Code);
                assert(seg_text(sc.1.unwrap()) == seg_text(c) + seg_text(evs[0]));
                assert(compact_rec(evs, cur) =~= compact_rec(evs.drop_first(), sc.1));
                assert(segs_text(compact_rec(evs, cur)) == (seg_text(c) + seg_text(evs[0]))
                    + rest_text);
                assert((seg_text(c) + seg_text(evs[0])) + rest_text =~= seg_text(c) + (seg_text(
                    evs[0],
                ) + rest_text));
            } else {
                // flushed: the pending segment leads the output
                lemma_segs_text_cons(c, compact_rec(evs.drop_first(), sc.1));
                assert(sc.1.unwrap() == evs[0]);
                assert(compact_rec(evs, cur) =~= seq![c] + compact_rec(evs.drop_first(), sc.1));
                assert(segs_text(compact_rec(evs, cur)) == seg_text(c) + (seg_text(evs[0])
                    + rest_text));
            }
        } else {
            assert(sc.0 =~= Seq::<Seg>::empty());
            assert(sc.1.unwrap() == evs[0]);
            assert(compact_rec(evs, cur) =~= compact_rec(evs.drop_first(), sc.1));
            assert(segs_text(compact_rec(evs, cur)) == seg_text(evs[0]) + rest_text);
            assert(flush_pending(cur) =~= Seq::<Seg>::empty());
            assert(Seq::<char>::empty() + (seg_text(evs[0]) + rest_text) =~= seg_text(evs[0])
                + rest_text);
        }
    }
}

/// Merging never drops a character: the dense sequence carries exactly
/// the text of the events it was merged from, in order.
pub proof fn lemma_compact_preserves_text(evs: Seq<Seg>)
    ensures
        segs_text(compact(evs)) == segs_text(evs),
{
    lemma_compact_rec_text(evs, None);
    assert(Seq::<char>::empty() + segs_text(evs) =~= segs_text(evs));
}

/// Shape of a compaction: the output is well merged, and opens with a
/// segment of the pending segment's kind (or the first event's).
proof fn lemma_compact_rec_shape(evs: Seq<Seg>, cur: Option<Seg>)
    ensures
        well_merged(compact_rec(evs, cur)),
        cur is Some ==> compact_rec(evs, cur).len() > 0 && same_kind(
            compact_rec(evs, cur)[0],
            cur.unwrap(),
        ),
    decreases evs.len(),
{
    if evs.len() == 0 {
    } else {
        let sc = compact_step(cur, evs[0]);
        lemma_compact_rec_shape(evs.drop_first(), sc.1);
        let rest = compact_rec(evs.drop_first(), sc.1);
        if cur is Some {
            let c = cur.unwrap();
            if same_kind(c, evs[0]) && !(c is Title) {
                assert(compact_rec(evs, cur) =~= rest);
            } else {
                assert(compact_rec(evs, cur) =~= seq![c] + rest);
                let out = seq![c] + rest;
                assert forall|k: int|
                    0 <= k < out.len() - 1 implies !(#[trigger] out[k] is Doc && out[k + 1]
                    is Doc) && !(out[k] is Code && out[k + 1] is Code) by {
                    if k == 0 {
                        assert(out[0] == c);
                        assert(out[1] == rest[0]);
                        assert(same_kind(rest[0], evs[0]));
                    } else {
                        assert(out[k] == rest[k - 1]);
                        assert(out[k + 1] == rest[k]);
                    }
                }
            }
        } else {
            assert(compact_rec(evs, cur) =~= rest);
        }
    }
}

/// Merging is maximal: the dense sequence never holds two adjacent
/// `Doc` segments nor two adjacent `Code` segments.
pub proof fn lemma_compact_well_merged(evs: Seq<Seg>)
    ensures
        well_merged(compact(evs)),
{
    lemma_compact_rec_shape(evs, None);
}

/// On an already dense sequence, merging changes nothing.
proof fn lemma_compact_rec_identity(segs: Seq<Seg>, cur: Option<Seg>)
    requires
        well_merged(flush_pending(cur) + segs),
    ensures
        compact_rec(segs, cur) == flush_pending(cur) + segs,
    decreases segs.len(),
{
    if segs.len() == 0 {
        assert(flush_pending(cur) + segs =~= flush_pending(cur));
    } else {
        let sc = compact_step(cur, segs[0]);
        if cur is Some {
            let c = cur.unwrap();
            assert((flush_pending(cur) + segs)[0] == c);
            assert((flush_pending(cur) + segs)[1] == segs[0]);
            assert(!(c is Doc && segs[0] is Doc) && !(c is Code && segs[0] is Code));
            assert(sc.0 == seq![c] && sc.1 == Some(segs[0]));
            assert(flush_pending(Some(segs[0])) + segs.drop_first() =~= segs);
            assert(well_merged(segs)) by {
                let whole = flush_pending(cur) + segs;
                assert forall|k: int|
                    0 <= k < segs.len() - 1 implies !(#[trigger] segs[k] is Doc && segs[k + 1]
                    is Doc) && !(segs[k] is Code && segs[k + 1] is Code) by {
                    assert(whole[k + 1] == segs[k]);
                    assert(whole[k + 2] == segs[k + 1]);
                }
            }
            lemma_compact_rec_identity(segs.drop_first(), Some(segs[0]));
            assert(seq![c] + segs =~= seq![c] + (flush_pending(Some(segs[0]))
                + segs.drop_first()));
        } else {
            assert(flush_pending(cur) + segs =~= segs);
            assert(sc.0 =~= Seq::<Seg>::empty());
            assert(sc.1 == Some(segs[0]));
            assert(flush_pending(Some(segs[0])) + segs.drop_first() =~= segs);
            lemma_compact_rec_identity(segs.drop_first(), Some(segs[0]));
            assert(Seq::<Seg>::empty() + compact_rec(segs.drop_first(), sc.1) =~= compact_rec(
                segs.drop_first(),
                sc.1,
            ));
        }
    }
}

/// A dense sequence is a fixed point of merging.
pub proof fn lemma_compact_identity(segs: Seq<Seg>)
    requires
        well_merged(segs),
    ensures
        compact(segs) == segs,
{
    assert(flush_pending(None) + segs =~= segs);
    lemma_compact_rec_identity(segs, None);
}

/// A prose or code segment with the given text.
pub open spec fn mk_seg(code: bool, text: Seq<char>) -> Seg {
    if code {
        Seg::Code { text }
    } else {
        Seg::Doc { text }
    }
}

/// Splitting one mergeable segment in two changes no compaction.
proof fn lemma_compact_rec_split(
    pre: Seq<Seg>,
    code: bool,
    a: Seq<char>,
    b: Seq<char>,
    post: Seq<Seg>,
    cur: Option<Seg>,
)
    ensures
        compact_rec(pre + seq![mk_seg(code, a), mk_seg(code, b)] + post, cur) == compact_rec(
            pre + seq![mk_seg(code, a + b)] + post,
            cur,
        ),
    decreases pre.len(),
{
    let two = pre + seq![mk_seg(code, a), mk_seg(code, b)] + post;
    let one = pre + seq![mk_seg(code, a + b)] + post;
    if pre.len() == 0 {
        assert(two[0] == mk_seg(code, a));
        assert(one[0] == mk_seg(code, a + b));
        let sc2 = compact_step(cur, mk_seg(code, a));
        let sc1 = compact_step(cur, mk_seg(code, a + b));
        assert(two.drop_first()[0] == mk_seg(code, b));
        assert(two.drop_first().drop_first() =~= post);
        assert(one.drop_first() =~= post);
        let scm = compact_step(sc2.1, mk_seg(code, b));
        assert(scm.0 =~= Seq::<Seg>::empty());
        assert(sc2.0 == sc1.0);
        assert(scm.1.unwrap() == sc1.1.unwrap()) by {
            match cur {
                Option::None => {
                    assert(a + b =~= a + b);
                },
                Option::Some(c) => {
                    if same_kind(c, mk_seg(code, a)) && !(c is Title) {
                        assert(seg_text(c) + a + b =~= seg_text(c) + (a + b));
                    } else {
                        assert(a + b =~= a + b);
                    }
                },
            }
        }
        assert(compact_rec(two, cur) == sc2.0 + compact_rec(two.drop_first(), sc2.1));
        assert(compact_rec(two.drop_first(), sc2.1) == scm.0 + compact_rec(
            two.drop_first().drop_first(),
            scm.1,
        ));
        assert(compact_rec(one, cur) == sc1.0 + compact_rec(one.drop_first(), sc1.1));
        assert(compact_rec(two, cur) =~= sc2.0 + (scm.0 + compact_rec(post, scm.1)));
        assert(sc2.0 + (scm.0 + compact_rec(post, scm.1)) =~= sc1.0 + compact_rec(post, sc1.1));
    } else {
        assert(two[0] == pre[0]);
        assert(one[0] == pre[0]);
        let sc = compact_step(cur, pre[0]);
        assert(two.drop_first() =~= pre.drop_first() + seq![mk_seg(code, a), mk_seg(code, b)]
            + post);
        assert(one.drop_first() =~= pre.drop_first() + seq![mk_seg(code, a + b)] + post);
        lemma_compact_rec_split(pre.drop_first(), code, a, b, post, sc.1);
    }
}

/// Splitting any dense `Doc` or `Code` segment at an internal point and
/// re-merging reconstructs exactly the original dense sequence — one
/// segment again, never two.
pub proof fn lemma_split_remerge(segs: Seq<Seg>, i: int, code: bool, a: Seq<char>, b: Seq<char>)
    requires
        well_merged(segs),
        0 <= i < segs.len(),
        segs[i] == mk_seg(code, a + b),
    ensures
        compact(
            segs.subrange(0, i) + seq![mk_seg(code, a), mk_seg(code, b)] + segs.subrange(
                i + 1,
                segs.len() as int,
            ),
        ) == segs,
{
    lemma_compact_rec_split(
        segs.subrange(0, i),
        code,
        a,
        b,
        segs.subrange(i + 1, segs.len() as int),
        None,
    );
    assert(segs.subrange(0, i) + seq![mk_seg(code, a + b)] + segs.subrange(
        i + 1,
        segs.len() as int,
    ) =~= segs);
    lemma_compact_identity(segs);
}

/// Documentation splits yield documentation alone, never code.
proof fn lemma_margin_events_doc(s: Seq<char>, i: int)
    ensures
        forall|k: int|
            0 <= k < margin_events_at(s, i).len() ==> !(#[trigger] margin_events_at(s, i)[k]
                is Code),
    decreases s.len() - i,
{
    if 0 <= i < s.len() {
        let j = first_nl_at(s, i);
        lemma_scan_until_bounds(s, i, |c: char| c == '\n');
        if j < s.len() {
            lemma_margin_events_doc(s, j + 1);
        }
    }
}

/// Documentation splits yield documentation alone, never code.
proof fn lemma_nomargin_events_doc(s: Seq<char>, i: int)
    ensures
        forall|k: int|
            0 <= k < nomargin_events_at(s, i).len() ==> !(#[trigger] nomargin_events_at(s, i)[k]
                is Code),
    decreases s.len() - i,
{
    if 0 <= i < s.len() {
        let j = first_nl_at(s, i);
        lemma_scan_until_bounds(s, i, |c: char| c == '\n');
        if j < s.len() {
            lemma_nomargin_events_doc(s, j + 1);
        }
    }
}

/// The physical lines of a text, from position `i`: maximal newline-free
/// stretches, their terminators dropped.  A trailing newline closes the
/// last line rather than opening an empty one.
pub open spec fn lines_at(s: Seq<char>, i: int) -> Seq<Seq<char>>
    decreases s.len() - i,
    via lines_at_decreases
{
    if !(0 <= i < s.len()) {
        Seq::<Seq<char>>::empty()
    } else {
        let j = first_nl_at(s, i);
        if j < s.len() {
            seq![s.subrange(i, j)] + lines_at(s, j + 1)
        } else {
            seq![s.subrange(i, j)]
        }
    }
}

#[via_fn]
proof fn lines_at_decreases(s: Seq<char>, i: int) {
    if 0 <= i < s.len() {
        lemma_scan_until_bounds(s, i, |c: char| c == '\n');
    }
}

/// The physical lines of a text.
pub open spec fn lines_of(s: Seq<char>) -> Seq<Seq<char>> {
    lines_at(s, 0)
}

/// Whether a line is kept by the margined split.
pub open spec fn ink_pred() -> spec_fn(Seq<char>) -> bool {
    |l: Seq<char>| line_has_ink(l)
}

/// What the margined split makes of one kept line.
pub open spec fn margin_doc_fn() -> spec_fn(Seq<char>) -> Seg {
    |l: Seq<char>| classify_model(strip_margin(l))
}

/// Whether a line is kept by the margin-less split.
pub open spec fn nontab_pred() -> spec_fn(Seq<char>) -> bool {
    |l: Seq<char>| line_has_nontab(l)
}

/// What the margin-less split makes of one kept line.
pub open spec fn nomargin_doc_fn() -> spec_fn(Seq<char>) -> Seg {
    |l: Seq<char>| classify_model(l)
}

/// A filtered single line, written out.
proof fn lemma_filter_singleton(x: Seq<char>, pred: spec_fn(Seq<char>) -> bool)
    ensures
        seq![x].filter(pred) == if pred(x) {
            seq![x]
        } else {
            Seq::<Seq<char>>::empty()
        },
{
    reveal_with_fuel(Seq::filter, 2);
    assert(seq![x].drop_last() =~= Seq::<Seq<char>>::empty());
    if pred(x) {
        assert(Seq::<Seq<char>>::empty().push(x) =~= seq![x]);
    }
}

/// The margined split handles each physical line on its own: one event,
/// margin dropped, for every line holding ink, in order, and nothing for
/// any other line.
pub proof fn lemma_margin_split_per_line(s: Seq<char>)
    ensures
        margin_events_at(s, 0) == lines_of(s).filter(ink_pred()).map_values(margin_doc_fn()),
{
    lemma_split_per_line_at(s, 0, true);
}

/// The margin-less split handles each physical line on its own: one
/// event for every line holding anything besides tabs, in order, and
/// nothing for any other line.
pub proof fn lemma_nomargin_split_per_line(s: Seq<char>)
    ensures
        nomargin_events_at(s, 0) == lines_of(s).filter(nontab_pred()).map_values(
            nomargin_doc_fn(),
        ),
{
    lemma_split_per_line_at(s, 0, false);
}

/// Both splits, against the per-line reading, from any position.
proof fn lemma_split_per_line_at(s: Seq<char>, i: int, margined: bool)
    ensures
        margined ==> margin_events_at(s, i) == lines_at(s, i).filter(ink_pred()).map_values(
            margin_doc_fn(),
        ),
        !margined ==> nomargin_events_at(s, i) == lines_at(s, i).filter(nontab_pred()).map_values(
            nomargin_doc_fn(),
        ),
    decreases s.len() - i,
{
    let keep = if margined {
        ink_pred()
    } else {
        nontab_pred()
    };
    let f = if margined {
        margin_doc_fn()
    } else {
        nomargin_doc_fn()
    };
    if !(0 <= i < s.len()) {
        assert(Seq::<Seq<char>>::empty().filter(keep) =~= Seq::<Seq<char>>::empty()) by {
            reveal_with_fuel(Seq::filter, 1);
        }
        assert(Seq::<Seq<char>>::empty().map_values(f) =~= Seq::<Seg>::empty());
    } else {
        lemma_scan_until_bounds(s, i, |c: char| c == '\n');
        let j = first_nl_at(s, i);
        let line = s.subrange(i, j);
        lemma_filter_singleton(line, keep);
        if j < s.len() {
            lemma_split_per_line_at(s, j + 1, margined);
            let rest = lines_at(s, j + 1);
            Seq::<Seq<char>>::filter_distributes_over_add(seq![line], rest, keep);
            let whole = (seq![line] + rest).filter(keep);
            assert(whole.map_values(f) =~= seq![line].filter(keep).map_values(f) + rest.filter(
                keep,
            ).map_values(f)) by {
                assert(whole =~= seq![line].filter(keep) + rest.filter(keep));
            }
            if keep(line) {
                assert(seq![line].filter(keep).map_values(f) =~= seq![f(line)]);
            } else {
                assert(seq![line].filter(keep).map_values(f) =~= Seq::<Seg>::empty());
                assert(Seq::<Seg>::empty() + rest.filter(keep).map_values(f) =~= rest.filter(
                    keep,
                ).map_values(f));
            }
        } else {
            if keep(line) {
                assert(seq![line].filter(keep).map_values(f) =~= seq![f(line)]);
                assert(seq![f(line)] + Seq::<Seg>::empty() =~= seq![f(line)]);
            } else {
                assert(seq![line].filter(keep).map_values(f) =~= Seq::<Seg>::empty());
            }
        }
    }
}

/// Every well-shaped match classifies wholly as documentation or as one
/// verbatim code line, never a mixture: per match, the partition into
/// documentation and code is total and disjoint.
pub proof fn lemma_match_events_partition(m: RawMatch)
    ensures
        match_events(m) matches Some(evs) ==> (forall|k: int|
            0 <= k < evs.len() ==> !(#[trigger] evs[k] is Code)) || evs == seq![
            Seg::Code { text: m.code.unwrap()@ },
        ],
{
    if match_events(m) is Some {
        if m.doc_sl is None && m.doc_ml is None && m.doc_ml_h is None && m.doc_ml_l is None
            && m.code is None {
        } else if m.doc_sl is Some {
        } else if m.doc_ml is Some {
            lemma_nomargin_events_doc(m.doc_ml.unwrap()@, 0);
        } else if m.doc_ml_h is Some && m.doc_ml_l is Some {
            lemma_margin_events_doc(m.doc_ml_l.unwrap()@, 0);
            let evs = match_events(m).unwrap();
            assert forall|k: int| 0 <= k < evs.len() implies !(#[trigger] evs[k] is Code) by {
                if k > 0 {
                    assert(evs[k] == margin_events_at(m.doc_ml_l.unwrap()@, 0)[k - 1]);
                }
            }
        } else {
        }
    }
}

} // verus!
