//! The render plan: pages of glyph and line placements, outline entries,
//! and the whole-document plan handed to an external renderer.
//!
//! Coordinates and sizes are integer milli-units; rotations are millidegrees.

use vstd::prelude::*;
use crate::color::Color;

verus! {

/// How the cover is produced: an externally supplied image, or drawn.
#[derive(Debug, Clone, Copy, PartialEq, Eq, Structural)]
pub enum CoverPlan {
    Image,
    Generated,
}

/// One glyph to draw: the resolved character, the font slot that holds it,
/// and where and how to draw it.
#[derive(Debug, Clone, Copy, PartialEq, Eq, Structural)]
pub struct GlyphSpec {
    pub ch: char,
    pub font_idx: usize,
    /// Font size in milli-units.
    pub font_size: i64,
    pub x: i64,
    pub y: i64,
    /// Rotation in millidegrees, counter-clockwise.
    pub rotate_mdeg: i64,
    pub color: Color,
}

/// One decorative line: two endpoints, a width, and a wavy flag used by
/// bookline underlines.
#[derive(Debug, Clone, Copy, PartialEq, Eq, Structural)]
pub struct LineSpec {
    pub x1: i64,
    pub y1: i64,
    pub x2: i64,
    pub y2: i64,
    pub width: i64,
    pub color: Color,
    pub wavy: bool,
}

/// One page of the plan: its 1-based number, its running title, and the
/// placements to draw, in order.
#[derive(Debug, Clone)]
pub struct PagePlan {
    pub number: usize,
    pub title: Vec<char>,
    pub glyphs: Vec<GlyphSpec>,
    pub lines: Vec<LineSpec>,
}

/// A table-of-contents entry pointing at a page by number.
#[derive(Debug, Clone)]
pub struct OutlineEntry {
    pub title: Vec<char>,
    pub page_number: usize,
}

/// The whole document: cover choice, pages, and outline entries.
#[derive(Debug, Clone)]
pub struct DocumentPlan {
    pub cover: CoverPlan,
    pub cover_path: Option<Vec<char>>,
    pub pages: Vec<PagePlan>,
    pub outlines: Vec<OutlineEntry>,
}

/// The requested chapter range and output options.
#[derive(Debug, Clone)]
pub struct TypesetOptions {
    /// First chapter ordinal, inclusive.
    pub from: usize,
    /// Last chapter ordinal, inclusive.
    pub to: usize,
    /// Stop once this many pages have been flushed.
    pub test_pages: Option<usize>,
    pub verbose: bool,
    /// Path of an externally supplied cover image, if any.
    pub cover_image: Option<Vec<char>>,
}

/// Why a document plan was rejected.
#[derive(Debug, Clone, Copy, PartialEq, Eq, Structural)]
pub enum PlanError {
    /// The cover asks for an image but no path was recorded.
    CoverPathMissing,
    /// A page is numbered zero.
    PageNumberZero,
    /// A page number repeats or goes backwards.
    PageNumberNotIncreasing,
    /// An outline entry points at a page number no page carries.
    OutlineMissingPage,
}

/// Page numbers are pairwise strictly increasing in order.
pub open spec fn pages_strictly_increasing(pages: Seq<PagePlan>) -> bool {
    forall|i: int, j: int| 0 <= i < j < pages.len() ==> pages[i].number < pages[j].number
}

/// Some page carries the number `n`.
pub open spec fn has_page(pages: Seq<PagePlan>, n: usize) -> bool {
    exists|i: int| 0 <= i < pages.len() && pages[i].number == n
}

/// The first page-numbering fault found scanning left to right, with `last`
/// the highest number seen so far.
pub open spec fn first_page_violation(pages: Seq<PagePlan>, last: nat) -> Option<PlanError>
    decreases pages.len(),
{
    if pages.len() == 0 {
        None
    } else if pages[0].number == 0 {
        Some(PlanError::PageNumberZero)
    } else if pages[0].number <= last {
        Some(PlanError::PageNumberNotIncreasing)
    } else {
        first_page_violation(pages.drop_first(), pages[0].number as nat)
    }
}

/// The first outline entry whose page number no page carries.
pub open spec fn first_outline_violation(outlines: Seq<OutlineEntry>, pages: Seq<PagePlan>) -> Option<
    PlanError,
>
    decreases outlines.len(),
{
    if outlines.len() == 0 {
        None
    } else if !has_page(pages, outlines[0].page_number) {
        Some(PlanError::OutlineMissingPage)
    } else {
        first_outline_violation(outlines.drop_first(), pages)
    }
}

/// What `DocumentPlan::validate` returns.
pub open spec fn spec_validate(plan: DocumentPlan) -> Result<(), PlanError> {
    if plan.cover == CoverPlan::Image && plan.cover_path is None {
        Err(PlanError::CoverPathMissing)
    } else if first_page_violation(plan.pages@, 0) is Some {
        Err(first_page_violation(plan.pages@, 0)->Some_0)
    } else if first_outline_violation(plan.outlines@, plan.pages@) is Some {
        Err(first_outline_violation(plan.outlines@, plan.pages@)->Some_0)
    } else {
        Ok(())
    }
}

/// A clean page scan is exactly: strictly increasing numbers, the first one
/// above `last` (and hence all of them positive when `last` is zero).
pub proof fn lemma_page_violation_none(pages: Seq<PagePlan>, last: nat)
    ensures
        first_page_violation(pages, last) is None <==> (pages_strictly_increasing(pages) && (
        forall|i: int| 0 <= i < pages.len() ==> pages[i].number as nat > last)),
    decreases pages.len(),
{
    if pages.len() > 0 && pages[0].number as nat > last {
        lemma_page_violation_none(pages.drop_first(), pages[0].number as nat);
        let rest = pages.drop_first();
        assert(forall|i: int| 0 <= i < rest.len() ==> rest[i] == pages[i + 1]);
        if first_page_violation(pages, last) is None {
            assert forall|i: int, j: int| 0 <= i < j < pages.len() implies pages[i].number
                < pages[j].number by {
                if i == 0 {
                    if j > 1 {
                        assert(rest[0].number < rest[j - 1].number);
                    }
                } else {
                    assert(rest[i - 1].number < rest[j - 1].number);
                }
            }
        }
        if pages_strictly_increasing(pages) && (forall|i: int|
            0 <= i < pages.len() ==> pages[i].number as nat > last) {
            assert forall|i: int, j: int| 0 <= i < j < rest.len() implies rest[i].number
                < rest[j].number by {
                assert(pages[i + 1].number < pages[j + 1].number);
            }
            assert forall|i: int| 0 <= i < rest.len() implies rest[i].number as nat
                > pages[0].number as nat by {
                assert(pages[0].number < pages[i + 1].number);
            }
        }
    }
}

/// A clean outline scan is exactly: every entry resolves to a page.
pub proof fn lemma_outline_violation_none(outlines: Seq<OutlineEntry>, pages: Seq<PagePlan>)
    ensures
        first_outline_violation(outlines, pages) is None <==> (forall|i: int|
            0 <= i < outlines.len() ==> has_page(pages, outlines[i].page_number)),
    decreases outlines.len(),
{
    if outlines.len() > 0 && has_page(pages, outlines[0].page_number) {
        lemma_outline_violation_none(outlines.drop_first(), pages);
        let rest = outlines.drop_first();
        assert(forall|i: int| 0 <= i < rest.len() ==> rest[i] == outlines[i + 1]);
        if first_outline_violation(outlines, pages) is None {
            assert forall|i: int| 0 <= i < outlines.len() implies has_page(
                pages,
                outlines[i].page_number,
            ) by {
                if i > 0 {
                    assert(has_page(pages, rest[i - 1].page_number));
                }
            }
        } else {
            assert(exists|i: int| 0 <= i < rest.len() && !has_page(pages, rest[i].page_number));
            let w = choose|i: int| 0 <= i < rest.len() && !has_page(pages, rest[i].page_number);
            assert(!has_page(pages, outlines[w + 1].page_number));
        }
    }
}

/// Whether some page of `pages` carries the number `n`.
fn pages_carry(pages: &Vec<PagePlan>, n: usize) -> (r: bool)
    ensures
        r == has_page(pages@, n),
{
    let mut i: usize = 0;
    while i < pages.len()
        invariant
            i <= pages.len(),
            forall|k: int| 0 <= k < i ==> pages@[k].number != n,
        decreases pages.len() - i,
    {
        if pages[i].number == n {
            return true;
        }
        i = i + 1;
    }
    false
}

impl DocumentPlan {
    /// Checks the plan's global invariants: an image cover has a recorded
    /// path, page numbers are strictly increasing positive integers, and
    /// every outline entry resolves to an existing page.
    #[verifier::loop_isolation(false)]
    pub fn validate(&self) -> (r: Result<(), PlanError>)
        ensures
            r == spec_validate(*self),
            r is Ok <==> ((self.cover == CoverPlan::Image ==> self.cover_path is Some)
                && pages_strictly_increasing(self.pages@) && (forall|i: int|
                0 <= i < self.pages@.len() ==> self.pages@[i].number >= 1) && (forall|i: int|
                0 <= i < self.outlines@.len() ==> has_page(
                    self.pages@,
                    self.outlines@[i].page_number,
                ))),
    {
        proof {
            lemma_page_violation_none(self.pages@, 0);
            lemma_outline_violation_none(self.outlines@, self.pages@);
        }
        if matches!(self.cover, CoverPlan::Image) && self.cover_path.is_none() {
            return Err(PlanError::CoverPathMissing);
        }
        let ghost gpages = self.pages@;
        proof {
            assert(gpages.subrange(0, gpages.len() as int) =~= gpages);
        }
        let mut last: usize = 0;
        let mut i: usize = 0;
        while i < self.pages.len()
            invariant
                i <= gpages.len(),
                gpages == self.pages@,
                first_page_violation(gpages, 0) == first_page_violation(
                    gpages.subrange(i as int, gpages.len() as int),
                    last as nat,
                ),
            decreases self.pages.len() - i,
        {
            let n = self.pages[i].number;
            proof {
                let s = gpages.subrange(i as int, gpages.len() as int);
                assert(s.len() > 0 && s[0] == gpages[i as int]);
            }
            if n == 0 {
                return Err(PlanError::PageNumberZero);
            }
            if n <= last {
                return Err(PlanError::PageNumberNotIncreasing);
            }
            proof {
                let s = gpages.subrange(i as int, gpages.len() as int);
                assert(s.drop_first() =~= gpages.subrange(i as int + 1, gpages.len() as int));
            }
            last = n;
            i = i + 1;
        }
        proof {
            assert(gpages.subrange(gpages.len() as int, gpages.len() as int).len() == 0);
        }
        let ghost gout = self.outlines@;
        proof {
            assert(gout.subrange(0, gout.len() as int) =~= gout);
        }
        let mut j: usize = 0;
        while j < self.outlines.len()
            invariant
                j <= gout.len(),
                gout == self.outlines@,
                gpages == self.pages@,
                first_page_violation(gpages, 0) is None,
                self.cover == CoverPlan::Image ==> self.cover_path is Some,
                first_outline_violation(gout, gpages) == first_outline_violation(
                    gout.subrange(j as int, gout.len() as int),
                    gpages,
                ),
            decreases self.outlines.len() - j,
        {
            proof {
                let s = gout.subrange(j as int, gout.len() as int);
                assert(s.len() > 0 && s[0] == gout[j as int]);
            }
            if !pages_carry(&self.pages, self.outlines[j].page_number) {
                return Err(PlanError::OutlineMissingPage);
            }
            proof {
                let s = gout.subrange(j as int, gout.len() as int);
                assert(s.drop_first() =~= gout.subrange(j as int + 1, gout.len() as int));
            }
            j = j + 1;
        }
        proof {
            assert(gout.subrange(gout.len() as int, gout.len() as int).len() == 0);
        }
        Ok(())
    }
}

} // verus!
