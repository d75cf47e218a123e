//! Sections: pairing documentation with the code it annotates.
//!
//! The dense segment sequence is folded into [`Section`]s: documentation
//! accumulates until a code segment arrives, then the two are paired;
//! documentation left at the end of a file forms a final section with an
//! empty code body.  [`TitleSplitSection`] is the same grouping with the
//! headings kept apart, for a renderer that sets them off from prose.

use crate::segment::{
    compact, lemma_compact_preserves_text, seg_text, segs_text, segs_view, Seg, Segment,
};
use vstd::prelude::*;

verus! {

/// A renderable unit: the documentation gathered since the last code
/// block, and the code block it annotates (empty for trailing prose).
#[derive(Debug, PartialEq, Eq)]
pub struct Section {
    pub doc: String,
    pub code: String,
}

/// The mathematical value of a [`Section`].
pub struct Sect {
    pub doc: Seq<char>,
    pub code: Seq<char>,
}

impl View for Section {
    type V = Sect;

    open spec fn view(&self) -> Sect {
        Sect { doc: self.doc@, code: self.code@ }
    }
}

/// The values of a sequence of sections.
pub open spec fn sections_view(v: Seq<Section>) -> Seq<Sect> {
    v.map_values(|s: Section| s@)
}

/// A heading, kept apart from prose where a renderer wants it so.
#[derive(Debug, PartialEq, Eq)]
pub struct Title {
    pub text: String,
    pub level: u8,
}

/// The mathematical value of a [`Title`].
pub struct Ttl {
    pub text: Seq<char>,
    pub level: u8,
}

impl View for Title {
    type V = Ttl;

    open spec fn view(&self) -> Ttl {
        Ttl { text: self.text@, level: self.level }
    }
}

/// A section stream with headings standing on their own.
#[derive(Debug, PartialEq, Eq)]
pub enum TitleSplitSection {
    Title(Title),
    Section(Section),
}

/// The mathematical value of a [`TitleSplitSection`].
pub enum Tss {
    Title(Ttl),
    Section(Sect),
}

impl View for TitleSplitSection {
    type V = Tss;

    open spec fn view(&self) -> Tss {
        match self {
            TitleSplitSection::Title(t) => Tss::Title(t@),
            TitleSplitSection::Section(s) => Tss::Section(s@),
        }
    }
}

/// The values of a sequence of title-split sections.
pub open spec fn tss_view(v: Seq<TitleSplitSection>) -> Seq<Tss> {
    v.map_values(|s: TitleSplitSection| s@)
}

/// The sections of a segment sequence, `buf` holding the documentation
/// gathered so far.  A title's text joins the buffer like prose; a code
/// segment closes one section and clears the buffer; a non-empty buffer
/// at the end closes a final section with an empty code body.
pub open spec fn sections_rec(segs: Seq<Seg>, buf: Seq<char>) -> Seq<Sect>
    decreases segs.len(),
{
    if segs.len() == 0 {
        if buf.len() > 0 {
            seq![Sect { doc: buf, code: Seq::<char>::empty() }]
        } else {
            Seq::<Sect>::empty()
        }
    } else {
        match segs[0] {
            Seg::Title { level, text } => sections_rec(segs.drop_first(), buf + text),
            Seg::Doc { text } => sections_rec(segs.drop_first(), buf + text),
            Seg::Code { text } => seq![Sect { doc: buf, code: text }] + sections_rec(
                segs.drop_first(),
                Seq::<char>::empty(),
            ),
        }
    }
}

/// The sections of a segment sequence.
pub open spec fn sections_of(segs: Seq<Seg>) -> Seq<Sect> {
    sections_rec(segs, Seq::<char>::empty())
}

/// Group segments into sections: every code segment pairs with exactly
/// the documentation standing between it and the previous code segment,
/// and trailing documentation pairs with an empty code body.
pub fn build_sections(segments: &Vec<Segment>) -> (r: Vec<Section>)
    ensures
        sections_view(r@) == sections_of(segs_view(segments@)),
{
    let n = segments.len();
    let ghost sv = segs_view(segments@);
    let mut out: Vec<Section> = Vec::new();
    let mut buf = String::new();
    let mut i: usize = 0;
    proof {
        assert(sv.subrange(0, n as int) =~= sv);
        assert(sections_view(out@) =~= Seq::<Sect>::empty());
        assert(Seq::<Sect>::empty() + sections_rec(sv, buf@) =~= sections_rec(sv, buf@));
    }
    while i < n
        invariant
            i <= n,
            n == segments@.len(),
            sv == segs_view(segments@),
            sections_view(out@) + sections_rec(sv.subrange(i as int, n as int), buf@)
                == sections_of(sv),
        decreases n - i,
    {
        proof {
            assert(sv.subrange(i as int, n as int).drop_first() =~= sv.subrange(
                i as int + 1,
                n as int,
            ));
            assert(sv.subrange(i as int, n as int)[0] == sv[i as int]);
        }
        let ghost out0 = out@;
        let ghost buf0 = buf@;
        match &segments[i] {
            Segment::Title((_level, text)) => {
                buf.append(text.as_str());
            },
            Segment::Doc(text) => {
                buf.append(text.as_str());
            },
            Segment::Code(text) => {
                let doc = buf;
                buf = String::new();
                out.push(Section { doc, code: text.clone() });
                proof {
                    assert(sections_view(out@) =~= sections_view(out0) + seq![
                        Sect { doc: buf0, code: text@ },
                    ]);
                    assert(sections_view(out@) + sections_rec(
                        sv.subrange(i as int + 1, n as int),
                        buf@,
                    ) =~= sections_view(out0) + sections_rec(
                        sv.subrange(i as int, n as int),
                        buf0,
                    ));
                }
            },
        }
        i = i + 1;
    }
    proof {
        assert(sv.subrange(n as int, n as int) =~= Seq::<Seg>::empty());
    }
    if !buf.as_str().is_empty() {
        let ghost out0 = out@;
        let ghost buf0 = buf@;
        out.push(Section { doc: buf, code: String::new() });
        proof {
            assert(sections_view(out@) =~= sections_view(out0) + sections_rec(
                Seq::<Seg>::empty(),
                buf0,
            ));
        }
    } else {
        proof {
            assert(sections_view(out@) + Seq::<Sect>::empty() =~= sections_view(out@));
        }
    }
    out
}

/// Flush a documentation buffer as a code-less section, if it holds
/// anything.
pub open spec fn flush_doc(buf: Seq<char>) -> Seq<Tss> {
    if buf.len() > 0 {
        seq![Tss::Section(Sect { doc: buf, code: Seq::<char>::empty() })]
    } else {
        Seq::<Tss>::empty()
    }
}

/// The title-split sections of a segment sequence: prose accumulates as
/// in [`sections_rec`], but a title first flushes the gathered prose as a
/// code-less section and then stands on its own.
pub open spec fn tss_rec(segs: Seq<Seg>, buf: Seq<char>) -> Seq<Tss>
    decreases segs.len(),
{
    if segs.len() == 0 {
        flush_doc(buf)
    } else {
        match segs[0] {
            Seg::Title { level, text } => flush_doc(buf) + seq![Tss::Title(Ttl { text, level })]
                + tss_rec(segs.drop_first(), Seq::<char>::empty()),
            Seg::Doc { text } => tss_rec(segs.drop_first(), buf + text),
            Seg::Code { text } => seq![Tss::Section(Sect { doc: buf, code: text })] + tss_rec(
                segs.drop_first(),
                Seq::<char>::empty(),
            ),
        }
    }
}

/// The title-split sections of a segment sequence.
pub open spec fn tss_of(segs: Seq<Seg>) -> Seq<Tss> {
    tss_rec(segs, Seq::<char>::empty())
}

/// Group segments into sections with every heading standing on its own:
/// a title flushes the prose gathered before it and is emitted apart;
/// prose pairs with the next code segment as in [`build_sections`].
pub fn build_title_split_sections(segments: &Vec<Segment>) -> (r: Vec<TitleSplitSection>)
    ensures
        tss_view(r@) == tss_of(segs_view(segments@)),
{
    let n = segments.len();
    let ghost sv = segs_view(segments@);
    let mut out: Vec<TitleSplitSection> = Vec::new();
    let mut buf = String::new();
    let mut i: usize = 0;
    proof {
        assert(sv.subrange(0, n as int) =~= sv);
        assert(tss_view(out@) =~= Seq::<Tss>::empty());
        assert(Seq::<Tss>::empty() + tss_rec(sv, buf@) =~= tss_rec(sv, buf@));
    }
    while i < n
        invariant
            i <= n,
            n == segments@.len(),
            sv == segs_view(segments@),
            tss_view(out@) + tss_rec(sv.subrange(i as int, n as int), buf@) == tss_of(sv),
        decreases n - i,
    {
        proof {
            assert(sv.subrange(i as int, n as int).drop_first() =~= sv.subrange(
                i as int + 1,
                n as int,
            ));
            assert(sv.subrange(i as int, n as int)[0] == sv[i as int]);
        }
        let ghost out0 = out@;
        let ghost buf0 = buf@;
        match &segments[i] {
            Segment::Title((level, text)) => {
                if !buf.as_str().is_empty() {
                    let doc = buf;
                    buf = String::new();
                    out.push(TitleSplitSection::Section(Section { doc, code: String::new() }));
                }
                out.push(
                    TitleSplitSection::Title(Title { text: text.clone(), level: *level }),
                );
                proof {
                    assert(buf@ =~= Seq::<char>::empty());
                    assert(tss_view(out@) =~= tss_view(out0) + flush_doc(buf0) + seq![
                        Tss::Title(Ttl { text: text@, level: *level }),
                    ]);
                    assert(tss_view(out@) + tss_rec(sv.subrange(i as int + 1, n as int), buf@)
                        =~= tss_view(out0) + tss_rec(sv.subrange(i as int, n as int), buf0));
                }
            },
            Segment::Doc(text) => {
                buf.append(text.as_str());
            },
            Segment::Code(text) => {
                let doc = buf;
                buf = String::new();
                out.push(TitleSplitSection::Section(Section { doc, code: text.clone() }));
                proof {
                    assert(tss_view(out@) =~= tss_view(out0) + seq![
                        Tss::Section(Sect { doc: buf0, code: text@ }),
                    ]);
                    assert(tss_view(out@) + tss_rec(sv.subrange(i as int + 1, n as int), buf@)
                        =~= tss_view(out0) + tss_rec(sv.subrange(i as int, n as int), buf0));
                }
            },
        }
        i = i + 1;
    }
    proof {
        assert(sv.subrange(n as int, n as int) =~= Seq::<Seg>::empty());
    }
    if !buf.as_str().is_empty() {
        let ghost out0 = out@;
        let ghost buf0 = buf@;
        out.push(TitleSplitSection::Section(Section { doc: buf, code: String::new() }));
        proof {
            assert(tss_view(out@) =~= tss_view(out0) + flush_doc(buf0));
        }
    } else {
        proof {
            assert(tss_view(out@) + Seq::<Tss>::empty() =~= tss_view(out@));
        }
    }
    out
}

/// The concatenated text of a section sequence: each section's
/// documentation followed by its code, in order.
pub open spec fn sections_text(ss: Seq<Sect>) -> Seq<char>
    decreases ss.len(),
{
    if ss.len() == 0 {
        Seq::<char>::empty()
    } else {
        (ss[0].doc + ss[0].code) + sections_text(ss.drop_first())
    }
}

/// Prepending one section distributes over [`sections_text`].
proof fn lemma_sections_text_cons(x: Sect, r: Seq<Sect>)
    ensures
        sections_text(seq![x] + r) == (x.doc + x.code) + sections_text(r),
{
    assert((seq![x] + r).drop_first() =~= r);
    assert((seq![x] + r)[0] == x);
}

/// The text of a single section's sequence.
proof fn lemma_sections_text_singleton(x: Sect)
    ensures
        sections_text(seq![x]) == x.doc + x.code,
{
    assert(seq![x].drop_first() =~= Seq::<Sect>::empty());
    assert(sections_text(Seq::<Sect>::empty()) == Seq::<char>::empty());
    assert((x.doc + x.code) + Seq::<char>::empty() =~= x.doc + x.code);
}

/// Grouping keeps every character: the sections' text is the pending
/// buffer followed by the segments' text.
proof fn lemma_sections_rec_text(segs: Seq<Seg>, buf: Seq<char>)
    ensures
        sections_text(sections_rec(segs, buf)) == buf + segs_text(segs),
    decreases segs.len(),
{
    if segs.len() == 0 {
        assert(segs_text(segs) == Seq::<char>::empty());
        assert(buf + Seq::<char>::empty() =~= buf);
        if buf.len() > 0 {
            lemma_sections_text_singleton(Sect { doc: buf, code: Seq::<char>::empty() });
        } else {
            assert(buf =~= Seq::<char>::empty());
        }
    } else {
        let rest = segs.drop_first();
        assert(segs_text(segs) == seg_text(segs[0]) + segs_text(rest));
        match segs[0] {
            Seg::Title { level, text } => {
                lemma_sections_rec_text(rest, buf + text);
                assert((buf + text) + segs_text(rest) =~= buf + (text + segs_text(rest)));
            },
            Seg::Doc { text } => {
                lemma_sections_rec_text(rest, buf + text);
                assert((buf + text) + segs_text(rest) =~= buf + (text + segs_text(rest)));
            },
            Seg::Code { text } => {
                lemma_sections_rec_text(rest, Seq::<char>::empty());
                lemma_sections_text_cons(
                    Sect { doc: buf, code: text },
                    sections_rec(rest, Seq::<char>::empty()),
                );
                assert(Seq::<char>::empty() + segs_text(rest) =~= segs_text(rest));
                assert((buf + text) + segs_text(rest) =~= buf + (text + segs_text(rest)));
            },
        }
    }
}

/// Grouping loses nothing: the concatenated documentation and code of
/// the emitted sections is exactly the text of the dense segments.
pub proof fn lemma_sections_preserve_text(segs: Seq<Seg>)
    ensures
        sections_text(sections_of(segs)) == segs_text(segs),
{
    lemma_sections_rec_text(segs, Seq::<char>::empty());
    assert(Seq::<char>::empty() + segs_text(segs) =~= segs_text(segs));
}

/// Round trip: concatenating, in order, every emitted section's
/// documentation and code text reproduces exactly the text carried by
/// the classified events — merging and grouping neither drop, reorder
/// nor duplicate a character.  (What the events carry relative to the
/// raw source is the matcher's business: blank-line runs are absorbed,
/// margins and markers stripped, documentation lines normalized.)
pub proof fn lemma_round_trip(evs: Seq<Seg>)
    ensures
        sections_text(sections_of(compact(evs))) == segs_text(evs),
{
    lemma_compact_preserves_text(evs);
    lemma_sections_preserve_text(compact(evs));
}

} // verus!
