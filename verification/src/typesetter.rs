//! The document assembler: drives the pagination engine across a chapter
//! range, computes running titles, manages page continuation and flushes,
//! and builds the outline list.

use vstd::prelude::*;
use crate::config::BookConfig;
use crate::engine::{clone_chars, Cursor, LayoutEngine, PageSink, PAGE_NUMBER_CAP};
use crate::fonts::FontBank;
use crate::layout::Layout;
use crate::numerals::{spec_render, NumeralMap};
use crate::plan::{
    pages_strictly_increasing, CoverPlan, DocumentPlan, OutlineEntry, PagePlan, TypesetOptions,
};
use crate::preprocess::{replace_all, spec_total_entries, CorpusError, TextCorpus};

verus! {

/// The page-number budget one chapter can spend: its stream length plus
/// a flush on each side.
pub open spec fn chapter_cost(corpus: TextCorpus, i: int) -> int {
    (if 0 <= i < corpus.entries@.len() {
        match corpus.entries@[i] {
            Some(e) => e.data@.len() as int,
            None => 0,
        }
    } else {
        0
    }) + 2
}

/// The page-number budget of the inclusive chapter range `i..=j`.
pub open spec fn range_cost(corpus: TextCorpus, i: int, j: int) -> int
    decreases j + 1 - i,
{
    if i > j {
        0
    } else {
        chapter_cost(corpus, i) + range_cost(corpus, i + 1, j)
    }
}

/// Range costs are never negative.
pub proof fn lemma_range_cost_nonneg(corpus: TextCorpus, i: int, j: int)
    ensures
        range_cost(corpus, i, j) >= 0,
    decreases j + 1 - i,
{
    if i <= j {
        lemma_range_cost_nonneg(corpus, i + 1, j);
    }
}

/// The running title of chapter `idx`: the book title, and when a postfix
/// pattern is configured, the preface marker for the prologue, the
/// appendix marker for the trailing entry, or the pattern with its
/// placeholder replaced by the rendered chapter numeral.
pub open spec fn spec_entry_title(
    book: BookConfig,
    corpus: TextCorpus,
    numerals: NumeralMap,
    idx: usize,
) -> Seq<char> {
    match book.title_style.postfix {
        None => book.title@,
        Some(pf) => {
            let cid = if corpus.has_text000 && idx > 0 {
                (idx - 1) as usize
            } else if corpus.has_text000 {
                0usize
            } else {
                idx
            };
            let postfix = if cid == 0 {
                seq!['序']
            } else if corpus.has_text999 && idx as int == spec_total_entries(corpus.entries@) {
                seq!['附']
            } else if pf@.contains('X') {
                replace_all(pf@, seq!['X'], spec_render(numerals, cid))
            } else {
                pf@
            };
            book.title@ + postfix
        },
    }
}

/// The typesetting driver: the settings, grid, fonts, numeral table and
/// corpus it reads, and the run's options.
pub struct Typesetter<'a> {
    pub book: &'a BookConfig,
    pub layout: &'a Layout,
    pub fonts: &'a FontBank,
    pub numerals: &'a NumeralMap,
    pub corpus: &'a TextCorpus,
    pub options: TypesetOptions,
}

impl<'a> Typesetter<'a> {
    pub open spec fn wf(self) -> bool {
        &&& self.book.wf()
        &&& self.layout.wf()
        &&& self.fonts.wf()
    }

    /// Packs the collaborators for a typesetting run.
    pub fn new(
        book: &'a BookConfig,
        layout: &'a Layout,
        fonts: &'a FontBank,
        numerals: &'a NumeralMap,
        corpus: &'a TextCorpus,
        options: TypesetOptions,
    ) -> (r: Result<Typesetter<'a>, CorpusError>)
        ensures
            match r {
                Ok(t) => t.book == book && t.layout == layout && t.fonts == fonts && t.numerals
                    == numerals && t.corpus == corpus && t.options == options,
                Err(_) => false,
            },
    {
        Ok(Typesetter { book, layout, fonts, numerals, corpus, options })
    }

    /// Whether the page cap, if one was set, has been reached.
    pub fn reached_limit(&self, generated_pages: usize) -> (r: bool)
        ensures
            r == match self.options.test_pages {
                Some(limit) => generated_pages >= limit,
                None => false,
            },
    {
        match self.options.test_pages {
            Some(limit) => generated_pages >= limit,
            None => false,
        }
    }

    /// The running title of chapter `idx`.
    pub fn compute_entry_title(&self, idx: usize) -> (r: Vec<char>)
        ensures
            r@ == spec_entry_title(*self.book, *self.corpus, *self.numerals, idx),
    {
        let mut chars = clone_chars(&self.book.title);
        let pf = match &self.book.title_style.postfix {
            None => {
                return chars;
            },
            Some(pf) => pf,
        };
        let cid: usize = if self.corpus.has_text000 && idx > 0 {
            idx - 1
        } else if self.corpus.has_text000 {
            0
        } else {
            idx
        };
        let postfix: Vec<char> = if cid == 0 {
            let mut v: Vec<char> = Vec::new();
            v.push('序');
            proof {
                assert(v@ =~= seq!['序']);
            }
            v
        } else if self.corpus.has_text999 && idx == self.corpus.total_entries() {
            let mut v: Vec<char> = Vec::new();
            v.push('附');
            proof {
                assert(v@ =~= seq!['附']);
            }
            v
        } else if crate::chars::contains_char(pf, 'X') {
            let zh = self.numerals.render(cid);
            let mut pat: Vec<char> = Vec::new();
            pat.push('X');
            proof {
                assert(pat@ =~= seq!['X']);
            }
            crate::preprocess::replace_all_exec(pf, &pat, &zh)
        } else {
            clone_chars(pf)
        };
        crate::preprocess::append_chars(&mut chars, &postfix);
        chars
    }

    /// Builds the whole document plan: each chapter in the inclusive
    /// range typeset in turn, a page already holding content flushed at
    /// each chapter boundary by `PageSink::flush_chapter`, outline
    /// entries recorded as chapters begin, and the trailing page flushed
    /// unless the page cap struck. The cap is coarse: it is checked only
    /// at flush points, so mid-page work already queued still completes.
    /// Page numbers across the plan are strictly increasing positive
    /// integers, and only pages holding at least one glyph are emitted.
    #[verifier::loop_isolation(false)]
    #[verifier::rlimit(60)]
    pub fn build_plan(&mut self) -> (r: Result<DocumentPlan, CorpusError>)
        requires
            old(self).wf(),
            range_cost(
                *old(self).corpus,
                old(self).options.from as int,
                old(self).options.to as int,
            ) + 4 <= PAGE_NUMBER_CAP,
        ensures
            *final(self) == *old(self),
            match r {
                Ok(plan) => {
                    &&& pages_strictly_increasing(plan.pages@)
                    &&& forall|i: int|
                        0 <= i < plan.pages@.len() ==> 1 <= (#[trigger] plan.pages@[i]).number
                            && plan.pages@[i].glyphs@.len() > 0
                    &&& plan.cover == (if old(self).options.cover_image is Some {
                        CoverPlan::Image
                    } else {
                        CoverPlan::Generated
                    })
                    &&& match (plan.cover_path, old(self).options.cover_image) {
                        (Some(p), Some(q)) => p@ == q@,
                        (None, None) => true,
                        _ => false,
                    }
                },
                Err(e) => match e {
                    CorpusError::MissingEntry { ordinal } => {
                        &&& old(self).options.from <= ordinal <= old(self).options.to
                        &&& (ordinal >= old(self).corpus.entries@.len()
                            || old(self).corpus.entries@[ordinal as int] is None)
                    },
                },
            },
            (old(self).options.from > old(self).options.to) ==> (r is Ok && r->Ok_0.pages@.len()
                == 0 && r->Ok_0.outlines@.len() == 0),
            ({
                let from = old(self).options.from;
                let to = old(self).options.to;
                (from <= to && old(self).options.test_pages is None && (forall|i: int|
                    from <= i <= to ==> i < old(self).corpus.entries@.len() && old(
                        self,
                    ).corpus.entries@[i] is Some)) ==> (r is Ok && r->Ok_0.outlines@.len() == to
                    - from + 1 && (forall|j: int|
                    0 <= j <= to - from ==> (#[trigger] r->Ok_0.outlines@[j]).title@
                        == spec_entry_title(
                        *old(self).book,
                        *old(self).corpus,
                        *old(self).numerals,
                        (from + j) as usize,
                    )))
            }),
    {
        let from = self.options.from;
        let to = self.options.to;
        let (cover, cover_path): (CoverPlan, Option<Vec<char>>) = match &self.options.cover_image {
            Some(p) => (CoverPlan::Image, Some(clone_chars(p))),
            None => (CoverPlan::Generated, None),
        };
        let mut sink = PageSink::new();
        let mut cursor = Cursor { pcnt: 0, bookline_active: false, last_pos: None };
        let mut outlines: Vec<OutlineEntry> = Vec::new();
        proof {
            crate::engine::lemma_per_page_multiple(*self.layout);
            lemma_range_cost_nonneg(*self.corpus, from as int, to as int);
        }
        let ghost all_present = from <= to && old(self).options.test_pages is None && (forall|
            i: int,
        |
            from <= i <= to ==> i < old(self).corpus.entries@.len() && old(self).corpus.entries@[i]
                is Some);
        let ghost nocap = old(self).options.test_pages is None;
        if from <= to {
            let mut idx: usize = from;
            loop
                invariant
                    from <= idx <= to,
                    *self == *old(self),
                    sink.wf(),
                    cursor.pcnt <= self.layout.per_page,
                    sink.next_page_number + range_cost(*self.corpus, idx as int, to as int)
                        <= PAGE_NUMBER_CAP - 1,
                    idx == from ==> (sink.next_page_number == 1 && sink.current.glyphs@.len()
                        == 0),
                    all_present ==> (outlines@.len() == idx - from && (forall|j: int|
                        0 <= j < idx - from ==> (#[trigger] outlines@[j]).title@
                            == spec_entry_title(
                            *old(self).book,
                            *old(self).corpus,
                            *old(self).numerals,
                            (from + j) as usize,
                        )) && (idx > from ==> outlines@[0].page_number == 1) && (forall|j: int|
                        0 <= j < idx - from ==> 1 <= (#[trigger] outlines@[j]).page_number
                            <= sink.next_page_number) && (forall|a: int, b: int|
                        0 <= a <= b < idx - from ==> (#[trigger] outlines@[a]).page_number
                            <= (#[trigger] outlines@[b]).page_number)),
                    nocap ==> (forall|t: int|
                        from <= t < idx ==> t < old(self).corpus.entries@.len() && old(self).corpus.entries@[t] is Some),
                decreases to - idx,
            {
                proof {
                    lemma_range_cost_nonneg(*self.corpus, idx as int + 1, to as int);
                }
                let entry = match self.corpus.entry(idx) {
                    Ok(e) => e,
                    Err(e) => {
                        return Err(e);
                    },
                };
                let title = self.compute_entry_title(idx);
                if sink.current.glyphs.len() > 0 {
                    sink.flush_chapter(&title);
                    cursor.pcnt = 0;
                    if self.reached_limit(sink.pages.len()) {
                        break;
                    }
                } else {
                    sink.current.title = clone_chars(&title);
                }
                let ghost outlines_pre = outlines@;
                outlines.push(
                    OutlineEntry { title: clone_chars(&title), page_number: sink.next_page_number },
                );
                proof {
                    if all_present {
                        assert(outlines@ =~= outlines_pre.push(outlines@.last()));
                        assert(outlines@.last().title@ == spec_entry_title(
                            *old(self).book,
                            *old(self).corpus,
                            *old(self).numerals,
                            idx,
                        ));
                    }
                }
                let engine = LayoutEngine {
                    book: self.book,
                    layout: self.layout,
                    fonts: self.fonts,
                    options: &self.options,
                };
                engine.process_entry(&entry.data, &title, &mut sink, &mut cursor);
                if self.reached_limit(sink.pages.len()) {
                    break;
                }
                if idx == to {
                    break;
                }
                idx = idx + 1;
            }
        }
        if sink.current.glyphs.len() > 0 && !self.reached_limit(sink.pages.len()) {
            let mut fresh = PagePlan {
                number: 0,
                title: Vec::new(),
                glyphs: Vec::new(),
                lines: Vec::new(),
            };
            core::mem::swap(&mut sink.current, &mut fresh);
            sink.pages.push(fresh);
        }
        Ok(DocumentPlan { cover, cover_path, pages: sink.pages, outlines })
    }
}

} // verus!
