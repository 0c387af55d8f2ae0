//! The pagination engine: a character-by-character state machine that
//! walks a chapter's preprocessed stream, allocates grid slots, lays out
//! interlinear annotations, and emits glyph, line and page records.

use vstd::prelude::*;
use crate::config::BookConfig;
use crate::convert::{spec_resolve, resolve_char};
use crate::fonts::FontBank;
use crate::layout::{div_trunc, Cell, Layout};
use crate::plan::{pages_strictly_increasing, GlyphSpec, LineSpec, PagePlan, TypesetOptions};

verus! {

/// Page numbers stay below this, so that bumping one cannot overflow on
/// any machine.
pub const PAGE_NUMBER_CAP: usize = 4_000_000_000;

/// The engine's walking state: the slot counter and the bookline toggle
/// are carried across chapters; the last placed position is reset at
/// each chapter start.
#[derive(Debug, Clone)]
pub struct Cursor {
    /// Slots consumed on the current page, `0..=capacity`.
    pub pcnt: usize,
    /// Whether a bookline underline is currently open.
    pub bookline_active: bool,
    /// The cell of the last placed main-text glyph, where a non-slot
    /// mark attaches.
    pub last_pos: Option<Cell>,
}

/// The page accumulator: finished pages, the page being filled, and the
/// number the next finished page will carry.
#[derive(Debug, Clone)]
pub struct PageSink {
    pub pages: Vec<PagePlan>,
    pub current: PagePlan,
    pub next_page_number: usize,
}

impl PageSink {
    /// Finished pages carry strictly increasing positive numbers, all
    /// below the in-progress page's number, and none of them is empty.
    pub open spec fn wf(self) -> bool {
        &&& 1 <= self.next_page_number
        &&& self.current.number == self.next_page_number
        &&& pages_strictly_increasing(self.pages@)
        &&& forall|i: int|
            0 <= i < self.pages@.len() ==> 1 <= (#[trigger] self.pages@[i]).number
                < self.next_page_number && self.pages@[i].glyphs@.len() > 0
    }

    /// A fresh sink: no finished pages, an empty page numbered 1.
    pub fn new() -> (r: PageSink)
        ensures
            r.wf(),
            r.pages@.len() == 0,
            r.next_page_number == 1,
            r.current.number == 1,
            r.current.glyphs@.len() == 0,
            r.current.lines@.len() == 0,
            r.current.title@.len() == 0,
    {
        PageSink {
            pages: Vec::new(),
            current: PagePlan {
                number: 1,
                title: Vec::new(),
                glyphs: Vec::new(),
                lines: Vec::new(),
            },
            next_page_number: 1,
        }
    }

    /// Closes the page being filled: pushes it if it holds any glyph,
    /// bumps the page number, clears the glyphs, and stamps the running
    /// title. A mid-chapter flush deliberately clears only the glyphs:
    /// drawn underlines stay with the new page, so an underline opened
    /// on one page carries onto the pages that follow it within the
    /// chapter. A chapter boundary starts wholly fresh instead (see
    /// `flush_chapter`).
    pub fn finalize(&mut self, title: &Vec<char>)
        requires
            old(self).wf(),
            old(self).next_page_number < PAGE_NUMBER_CAP,
        ensures
            final(self).wf(),
            final(self).pages@ == (if old(self).current.glyphs@.len() > 0 {
                old(self).pages@.push(old(self).current)
            } else {
                old(self).pages@
            }),
            final(self).next_page_number == old(self).next_page_number + 1,
            final(self).current.number == old(self).next_page_number + 1,
            final(self).current.glyphs@.len() == 0,
            final(self).current.lines@ == old(self).current.lines@,
            final(self).current.title@ == title@,
    {
        let keep_lines = clone_lines(&self.current.lines);
        let mut fresh = PagePlan {
            number: self.next_page_number + 1,
            title: clone_chars(title),
            glyphs: Vec::new(),
            lines: keep_lines,
        };
        core::mem::swap(&mut self.current, &mut fresh);
        if fresh.glyphs.len() > 0 {
            self.pages.push(fresh);
        }
        self.next_page_number = self.next_page_number + 1;
    }
}

impl PageSink {
    /// Closes the page at a chapter boundary: pushes it if it holds any
    /// glyph, bumps the page number, and starts an entirely fresh page
    /// with the new chapter's title. Unlike a mid-chapter flip, drawn
    /// lines do not carry over.
    pub fn flush_chapter(&mut self, title: &Vec<char>)
        requires
            old(self).wf(),
            old(self).next_page_number < PAGE_NUMBER_CAP,
        ensures
            final(self).wf(),
            final(self).pages@ == (if old(self).current.glyphs@.len() > 0 {
                old(self).pages@.push(old(self).current)
            } else {
                old(self).pages@
            }),
            final(self).next_page_number == old(self).next_page_number + 1,
            final(self).current.number == old(self).next_page_number + 1,
            final(self).current.glyphs@.len() == 0,
            final(self).current.lines@.len() == 0,
            final(self).current.title@ == title@,
    {
        let mut fresh = PagePlan {
            number: self.next_page_number + 1,
            title: clone_chars(title),
            glyphs: Vec::new(),
            lines: Vec::new(),
        };
        core::mem::swap(&mut self.current, &mut fresh);
        if fresh.glyphs.len() > 0 {
            self.pages.push(fresh);
        }
        self.next_page_number = self.next_page_number + 1;
    }
}

/// A copy of a line list.
pub fn clone_lines(v: &Vec<LineSpec>) -> (r: Vec<LineSpec>)
    ensures
        r@ == v@,
{
    let mut r: Vec<LineSpec> = Vec::new();
    let mut i: usize = 0;
    while i < v.len()
        invariant
            i <= v@.len(),
            r@ =~= v@.subrange(0, i as int),
        decreases v@.len() - i,
    {
        r.push(v[i]);
        proof {
            assert(r@ =~= v@.subrange(0, i as int + 1));
        }
        i = i + 1;
    }
    proof {
        assert(r@ =~= v@);
    }
    r
}

/// A copy of a character vector.
pub fn clone_chars(v: &Vec<char>) -> (r: Vec<char>)
    ensures
        r@ == v@,
{
    let mut r: Vec<char> = Vec::new();
    let mut i: usize = 0;
    while i < v.len()
        invariant
            i <= v@.len(),
            r@ =~= v@.subrange(0, i as int),
        decreases v@.len() - i,
    {
        r.push(v[i]);
        proof {
            assert(r@ =~= v@.subrange(0, i as int + 1));
        }
        i = i + 1;
    }
    proof {
        assert(r@ =~= v@);
    }
    r
}

/// Where the half-leaf jump sends the slot counter: already at 0 or at
/// the half it stays; in the first half it jumps to the half; in the
/// second half it jumps to the capacity, forcing a page flip on the next
/// glyph.
pub open spec fn half_leaf_jump(slot: int, capacity: int) -> int {
    let half = capacity / 2;
    if slot == 0 || slot == half {
        slot
    } else if slot < half {
        half
    } else {
        capacity
    }
}

/// Applies the `$` marker's jump.
pub fn apply_half_leaf_jump(slot: usize, capacity: usize) -> (r: usize)
    requires
        slot <= capacity,
    ensures
        r == half_leaf_jump(slot as int, capacity as int),
        r <= capacity,
{
    let half: usize = capacity / 2;
    if slot == 0 || slot == half {
        slot
    } else if slot < half {
        half
    } else {
        capacity
    }
}

/// Where the band jump sends the slot counter: to the start of the next
/// band, or to the capacity when no band remains on this page.
pub open spec fn band_jump(slot: int, band: int, capacity: int) -> int {
    let next = (slot / band + 1) * band;
    if next < capacity {
        next
    } else {
        capacity
    }
}

/// Applies the `^` marker's jump. The band size is `columns` times
/// `rows_per_column`, which divides the capacity.
pub fn apply_band_jump(slot: usize, band: usize, capacity: usize) -> (r: usize)
    requires
        slot <= capacity,
        1 <= band <= capacity <= 100_000_000,
    ensures
        r == band_jump(slot as int, band as int, capacity as int),
        r <= capacity,
        r > slot || r == capacity,
{
    proof {
        let s = slot as int;
        let b = band as int;
        vstd::arithmetic::div_mod::lemma_fundamental_div_mod(s, b);
        vstd::arithmetic::div_mod::lemma_mod_division_less_than_divisor(s, b);
        vstd::arithmetic::div_mod::lemma_div_pos_is_pos(s, b);
        vstd::arithmetic::div_mod::lemma_div_nonincreasing(s, b);
        assert((s / b + 1) * b <= 200_000_000 && (s / b) * b <= s && s < (s / b + 1) * b)
            by (nonlinear_arith)
            requires
                s == b * (s / b) + s % b,
                0 <= s % b,
                s % b < b,
                1 <= b,
                b <= 100_000_000,
                0 <= s / b,
                s / b <= s,
                s <= 100_000_000,
        ;
    }
    let next: usize = (slot / band + 1) * band;
    if next < capacity {
        next
    } else {
        capacity
    }
}

/// Where the last-column jump sends the slot counter: to the start of
/// the last column, unless the counter is already past its first slot.
pub open spec fn last_column_jump(slot: int, rpc: int, capacity: int) -> int {
    if slot <= capacity - rpc + 1 {
        capacity - rpc
    } else {
        slot
    }
}

/// Applies the `&` marker's jump.
pub fn apply_last_column_jump(slot: usize, rpc: usize, capacity: usize) -> (r: usize)
    requires
        slot <= capacity,
        1 <= rpc <= capacity,
    ensures
        r == last_column_jump(slot as int, rpc as int, capacity as int),
        r <= capacity,
{
    let last_col_start: usize = capacity - rpc;
    if slot <= last_col_start + 1 {
        last_col_start
    } else {
        slot
    }
}

/// After a `%`, `$` or `&` marker the engine discards the row padding the
/// preprocessor embedded: the next `row_num - 1` characters, as far as
/// the stream reaches.
pub open spec fn after_row_padding(row_num: int, len: int, i: int) -> int {
    if row_num == 0 {
        i
    } else if i + row_num - 1 <= len {
        i + row_num - 1
    } else {
        len
    }
}

/// Index just past the discarded row padding.
pub fn skip_row_padding(row_num: usize, len: usize, i: usize) -> (r: usize)
    requires
        i <= len,
        len < 0xFFFF_FFF0usize,
        row_num <= 0xFFFF_FFF0usize,
    ensures
        r == after_row_padding(row_num as int, len as int, i as int),
        i <= r <= len,
{
    if row_num == 0 {
        return i;
    }
    if len - i >= row_num - 1 {
        i + (row_num - 1)
    } else {
        len
    }
}

} // verus!

verus! {

/// The placeholder drawn when no font, even after variant fallback,
/// holds a character.
pub const PLACEHOLDER: char = '□';

/// The character actually drawn and the slot drawing it: the resolver's
/// answer, or the placeholder looked up in the same stack.
pub open spec fn final_resolution(bank: FontBank, ch: char, try_st: bool, stack: Seq<usize>) -> (
    char,
    Option<usize>,
) {
    let r = spec_resolve(bank, ch, try_st, stack);
    if r.1 is Some {
        r
    } else {
        (PLACEHOLDER, bank.spec_pick(PLACEHOLDER, stack))
    }
}

/// `x * s / 1000`, truncating toward zero: fixed-point scaling by a
/// factor held in thousandths.
pub open spec fn milli_scale(x: int, s: int) -> int {
    div_trunc(x * s, 1000)
}

/// Fixed-point scaling by a factor in thousandths.
fn apply_milli_scale(x: i64, s: i64) -> (r: i64)
    requires
        -1_000_000_000_000 <= x <= 1_000_000_000_000,
        -1_000_000 <= s <= 1_000_000,
    ensures
        r == milli_scale(x as int, s as int),
        -1_000_000_000_000_000_000 <= r <= 1_000_000_000_000_000_000,
{
    proof {
        assert(-1_000_000_000_000_000_000 <= (x as int) * (s as int)
            <= 1_000_000_000_000_000_000) by (nonlinear_arith)
            requires
                -1_000_000_000_000 <= x <= 1_000_000_000_000,
                -1_000_000 <= s <= 1_000_000,
        ;
    }
    crate::layout::div_i64_pub(x * s, 1000)
}

/// The typesetting engine: the book's settings, the slot grid, the font
/// capability, and the run's options.
pub struct LayoutEngine<'a> {
    pub book: &'a BookConfig,
    pub layout: &'a Layout,
    pub fonts: &'a FontBank,
    pub options: &'a TypesetOptions,
}

impl<'a> LayoutEngine<'a> {
    pub open spec fn wf(self) -> bool {
        &&& self.book.wf()
        &&& self.layout.wf()
        &&& self.fonts.wf()
    }

    /// Whether a character, resolved against the main text stack with
    /// the book's variant fallback, lands in some font slot.
    pub open spec fn drawable_pred(self) -> spec_fn(char) -> bool {
        |c: char|
            final_resolution(
                *self.fonts,
                c,
                self.book.try_st,
                self.fonts.text_stack@,
            ).1 is Some
    }

    /// Whether the page cap, if one was set, has been reached.
    pub fn reached_limit(&self, generated_pages: usize) -> (r: bool)
        ensures
            r == match self.options.test_pages {
                Some(limit) => generated_pages >= limit,
                None => false,
            },
    {
        match self.options.test_pages {
            Some(limit) => generated_pages >= limit,
            None => false,
        }
    }

    /// The glyph record for drawing `ch` at `pos`, or nothing when no
    /// font holds it or its placeholder. The formula mirrors the
    /// traditional adjustments: plain glyphs center in their (half-)
    /// column, annotation glyphs sit a quarter row lower, non-slot and
    /// rotated marks scale and shift by their class's fractions, and a
    /// rotated mark draws at -90 degrees.
    pub open spec fn spec_glyph(
        self,
        pos: Cell,
        ch: char,
        is_comment: bool,
        is_nop: bool,
        is_rot: bool,
    ) -> Option<GlyphSpec> {
        let stack = if is_comment {
            self.fonts.comment_stack@
        } else {
            self.fonts.text_stack@
        };
        let res = final_resolution(*self.fonts, ch, self.book.try_st, stack);
        match res.1 {
            None => None,
            Some(idx) => {
                let rch = res.0;
                let style = self.fonts.spec_font(idx as int)->Some_0;
                let cw = self.layout.cw as int;
                let rh = self.layout.rh as int;
                let fs0 = if is_comment {
                    style.comment_size as int
                } else {
                    style.text_size as int
                };
                let width = if is_comment {
                    div_trunc(cw, 2)
                } else {
                    cw
                };
                let base_color = if is_comment {
                    self.book.comment_font_color
                } else {
                    self.book.text_font_color
                };
                let color = if self.book.text_modes.only_period && rch == '。' {
                    match self.book.text_modes.only_period_color {
                        Some(c) => c,
                        None => base_color,
                    }
                } else {
                    base_color
                };
                let adj = if is_nop {
                    if is_comment {
                        self.book.punctuation.comment_nop
                    } else {
                        self.book.punctuation.text_nop
                    }
                } else {
                    if is_comment {
                        self.book.punctuation.comment_rotate
                    } else {
                        self.book.punctuation.text_rotate
                    }
                };
                let fx0 = pos.x as int + if !is_nop && !is_rot {
                    div_trunc(width - fs0, 2)
                } else {
                    0
                };
                let fy0 = pos.y as int + if is_comment {
                    div_trunc(rh - fs0, 4)
                } else {
                    0
                };
                let fs = if is_nop || is_rot {
                    milli_scale(fs0, adj.scale_milli as int)
                } else {
                    fs0
                };
                let fx = if is_nop || is_rot {
                    fx0 + milli_scale(width, adj.offset_x_milli as int)
                } else {
                    fx0
                };
                let fy = if is_nop {
                    fy0 - milli_scale(rh, adj.offset_y_milli as int)
                } else if is_rot {
                    fy0 + milli_scale(rh, adj.offset_y_milli as int)
                } else {
                    fy0
                };
                let rot = if is_rot && !is_nop {
                    -90_000
                } else {
                    style.rotate_mdeg as int
                };
                Some(
                    GlyphSpec {
                        ch: rch,
                        font_idx: idx,
                        font_size: fs as i64,
                        x: fx as i64,
                        y: fy as i64,
                        rotate_mdeg: rot as i64,
                        color,
                    },
                )
            },
        }
    }

    /// Builds the glyph record for `ch` at `pos`.
    pub fn build_text_glyph(
        &self,
        pos: Cell,
        ch: char,
        is_comment: bool,
        is_nop: bool,
        is_rot: bool,
    ) -> (r: Option<GlyphSpec>)
        requires
            self.wf(),
            crate::layout::cell_bounded(pos),
        ensures
            r == self.spec_glyph(pos, ch, is_comment, is_nop, is_rot),
    {
        let stack = if is_comment {
            &self.fonts.comment_stack
        } else {
            &self.fonts.text_stack
        };
        let (rch0, pick0) = resolve_char(self.fonts, ch, self.book.try_st, stack);
        let (rch, pick) = if pick0.is_some() {
            (rch0, pick0)
        } else {
            (PLACEHOLDER, self.fonts.pick_font(PLACEHOLDER, stack))
        };
        let idx = match pick {
            Some(idx) => idx,
            None => {
                return None;
            },
        };
        proof {
            if spec_resolve(*self.fonts, ch, self.book.try_st, stack@).1 is Some {
                crate::convert::lemma_resolve_found(*self.fonts, ch, self.book.try_st, stack@);
            } else {
                crate::fonts::lemma_pick_found(*self.fonts, PLACEHOLDER, stack@);
            }
        }
        let style = match self.fonts.font(idx) {
            Some(style) => style,
            None => {
                proof {
                    assert(false);
                }
                return None;
            },
        };
        let cw = self.layout.cw;
        let rh = self.layout.rh;
        let fs0: i64 = if is_comment {
            style.comment_size
        } else {
            style.text_size
        };
        let width: i64 = if is_comment {
            crate::layout::div_i64_pub(cw, 2)
        } else {
            cw
        };
        let base_color = if is_comment {
            self.book.comment_font_color
        } else {
            self.book.text_font_color
        };
        let color = if self.book.text_modes.only_period && rch == '。' {
            match self.book.text_modes.only_period_color {
                Some(c) => c,
                None => base_color,
            }
        } else {
            base_color
        };
        let adj = if is_nop {
            if is_comment {
                &self.book.punctuation.comment_nop
            } else {
                &self.book.punctuation.text_nop
            }
        } else {
            if is_comment {
                &self.book.punctuation.comment_rotate
            } else {
                &self.book.punctuation.text_rotate
            }
        };
        let mut fx: i64 = pos.x;
        let mut fy: i64 = pos.y;
        if !is_nop && !is_rot {
            fx = fx + crate::layout::div_i64_pub(width - fs0, 2);
        }
        if is_comment {
            fy = fy + crate::layout::div_i64_pub(rh - fs0, 4);
        }
        let mut fs: i64 = fs0;
        let mut rot: i64 = style.rotate_mdeg;
        if is_nop || is_rot {
            fs = apply_milli_scale(fs0, adj.scale_milli);
            fx = fx + apply_milli_scale(width, adj.offset_x_milli);
        }
        if is_nop {
            fy = fy - apply_milli_scale(rh, adj.offset_y_milli);
        } else if is_rot {
            fy = fy + apply_milli_scale(rh, adj.offset_y_milli);
            rot = -90_000;
        }
        Some(GlyphSpec { ch: rch, font_idx: idx, font_size: fs, x: fx, y: fy, rotate_mdeg: rot, color })
    }
}

} // verus!

verus! {

/// Whether `ch` is a bookline toggle consumed silently because the
/// bookline feature is on.
pub open spec fn skip_bookline_char(book: BookConfig, ch: char) -> bool {
    book.book_line_flag && (ch == '《' || ch == '》')
}

/// Whether `ch` consumes an annotation half-slot: bookline toggles (when
/// the feature is on) and annotation non-slot marks do not.
pub open spec fn comment_consumes(book: BookConfig, ch: char) -> bool {
    !skip_bookline_char(book, ch) && !book.punctuation.comment_nop.chars@.contains(ch)
}

/// The slot-consuming predicate for annotation characters.
pub open spec fn consuming_pred(book: BookConfig) -> spec_fn(char) -> bool {
    |c: char| comment_consumes(book, c)
}

/// The bookline underline drawn immediately left of a glyph at `pos`,
/// spanning from three tenths of a row above to seven tenths below.
pub open spec fn spec_bookline(book: BookConfig, rh: int, pos: Cell) -> LineSpec {
    let bl = book.bookline->Some_0;
    LineSpec {
        x1: (pos.x - bl.width) as i64,
        y1: (pos.y - div_trunc(rh * 3, 10)) as i64,
        x2: (pos.x - bl.width) as i64,
        y2: (pos.y + div_trunc(rh * 7, 10)) as i64,
        width: bl.width,
        color: bl.color,
        wavy: true,
    }
}

/// The annotation half-cell handed to the j-th slot-consuming character
/// of a block packed from slot count `p` into `need` slot pairs: the
/// right half-cells of slots p+1..p+need top to bottom, then the left.
pub open spec fn comment_cell(layout: Layout, p: int, need: int, j: int) -> Cell {
    if j < need {
        layout.pos_r@[p + 1 + j]
    } else {
        layout.pos_l@[p + 1 + (j - need)]
    }
}

/// Filtering keeps the whole sequence when the predicate holds
/// everywhere.
pub proof fn lemma_filter_all(s: Seq<char>, pred: spec_fn(char) -> bool)
    requires
        forall|k: int| 0 <= k < s.len() ==> pred(#[trigger] s[k]),
    ensures
        s.filter(pred) == s,
    decreases s.len(),
{
    reveal_with_fuel(Seq::filter, 2);
    if s.len() > 0 {
        let d = s.drop_last();
        assert(forall|k: int| 0 <= k < d.len() ==> d[k] == s[k]);
        lemma_filter_all(d, pred);
        assert(s.filter(pred) =~= d.filter(pred).push(s.last()));
        assert(s.filter(pred) =~= s);
    } else {
        assert(s.filter(pred) =~= s);
    }
}

/// Whether the page cap, when one is set, is at or past `n` flushed
/// pages.
pub open spec fn cap_reached(options: TypesetOptions, n: int) -> bool {
    match options.test_pages {
        Some(limit) => n >= limit,
        None => false,
    }
}

/// Zero or one glyph records.
pub open spec fn opt_glyph_seq(g: Option<GlyphSpec>) -> Seq<GlyphSpec> {
    match g {
        Some(x) => seq![x],
        None => Seq::<GlyphSpec>::empty(),
    }
}

/// Zero or one line records.
pub open spec fn opt_line_seq(l: Option<LineSpec>) -> Seq<LineSpec> {
    match l {
        Some(x) => seq![x],
        None => Seq::<LineSpec>::empty(),
    }
}

/// The sink's finished pages, numbering and in-progress page identity
/// are untouched.
pub open spec fn sink_frame(pre: PageSink, post: PageSink) -> bool {
    &&& post.pages@ == pre.pages@
    &&& post.next_page_number == pre.next_page_number
    &&& post.current.number == pre.current.number
    &&& post.current.title@ == pre.current.title@
}

/// Nothing about the sink changed.
pub open spec fn sink_unchanged(pre: PageSink, post: PageSink) -> bool {
    &&& sink_frame(pre, post)
    &&& post.current.glyphs@ == pre.current.glyphs@
    &&& post.current.lines@ == pre.current.lines@
}

/// The page-flush relation: the in-progress page is pushed when it holds
/// any glyph, the page number advances, the fresh page keeps the drawn
/// lines and takes the running title.
pub open spec fn sink_finalized(pre: PageSink, post: PageSink, title: Seq<char>) -> bool {
    &&& post.pages@ == (if pre.current.glyphs@.len() > 0 {
        pre.pages@.push(pre.current)
    } else {
        pre.pages@
    })
    &&& post.next_page_number == pre.next_page_number + 1
    &&& post.current.number == pre.next_page_number + 1
    &&& post.current.glyphs@.len() == 0
    &&& post.current.lines@ == pre.current.lines@
    &&& post.current.title@ == title
}

/// The in-progress page gains exactly these glyph and line records.
pub open spec fn sink_gains(pre: PageSink, post: PageSink, gs: Seq<GlyphSpec>, ls: Seq<LineSpec>) -> bool {
    &&& sink_frame(pre, post)
    &&& post.current.glyphs@ == pre.current.glyphs@ + gs
    &&& post.current.lines@ == pre.current.lines@ + ls
}

/// Where a non-slot mark attaches: the last placed position, else the
/// current slot's main cell (slot 1 before anything was placed).
pub open spec fn attach_cell(layout: Layout, last: Option<Cell>, pcnt: int) -> Cell {
    match last {
        Some(p) => p,
        None => layout.pos_l@[if pcnt >= 1 {
            pcnt
        } else {
            1
        }],
    }
}

/// The underline a placed main-text glyph contributes: one wavy bookline
/// segment when an underline is open, the feature is on and configured,
/// and the character is not a space.
pub open spec fn line_for(book: BookConfig, rh: int, bookline_on: bool, ch: char, pos: Cell) -> Option<
    LineSpec,
> {
    if bookline_on && book.book_line_flag && ch != ' ' && book.bookline is Some {
        Some(spec_bookline(book, rh, pos))
    } else {
        None
    }
}

impl<'a> LayoutEngine<'a> {
    /// Whether `ch` is a bookline toggle to skip.
    fn should_skip_bookline_char(&self, ch: char) -> (r: bool)
        ensures
            r == skip_bookline_char(*self.book, ch),
    {
        self.book.book_line_flag && (ch == '《' || ch == '》')
    }

    /// Whether `ch` consumes an annotation half-slot.
    fn comment_char_consumes_slot(&self, ch: char) -> (r: bool)
        ensures
            r == comment_consumes(*self.book, ch),
    {
        if self.should_skip_bookline_char(ch) {
            return false;
        }
        !crate::chars::contains_char(&self.book.punctuation.comment_nop.chars, ch)
    }

    /// How many annotation characters at or after `from` consume a
    /// half-slot.
    fn count_consuming_from(&self, queue: &Vec<char>, from: usize) -> (r: usize)
        requires
            from <= queue@.len(),
        ensures
            r == queue@.subrange(from as int, queue@.len() as int).filter(
                consuming_pred(*self.book),
            ).len(),
            r <= queue@.len() - from,
    {
        let ghost pred = consuming_pred(*self.book);
        let mut cnt: usize = 0;
        let mut i: usize = from;
        proof {
            assert(queue@.subrange(from as int, from as int) =~= Seq::<char>::empty());
            reveal_with_fuel(Seq::filter, 2);
        }
        while i < queue.len()
            invariant
                from <= i <= queue@.len(),
                pred == consuming_pred(*self.book),
                cnt == queue@.subrange(from as int, i as int).filter(pred).len(),
                cnt <= i - from,
            decreases queue@.len() - i,
        {
            proof {
                let s = queue@.subrange(from as int, i as int);
                let one = seq![queue@[i as int]];
                assert(queue@.subrange(from as int, i as int + 1) =~= s + one);
                Seq::filter_distributes_over_add(s, one, pred);
                reveal_with_fuel(Seq::filter, 2);
                assert(one.drop_last() =~= Seq::<char>::empty());
                assert(one.filter(pred) == if pred(queue@[i as int]) {
                    one
                } else {
                    Seq::<char>::empty()
                });
            }
            if self.comment_char_consumes_slot(queue[i]) {
                cnt = cnt + 1;
            }
            i = i + 1;
        }
        cnt
    }

    /// Scans forward from `from` until `limit` consuming characters have
    /// been taken or the queue ends; returns the stop index and the
    /// consuming count taken.
    fn scan_take(&self, queue: &Vec<char>, from: usize, limit: usize) -> (r: (usize, usize))
        requires
            from < queue@.len(),
            limit >= 1,
        ensures
            from < r.0 <= queue@.len(),
            r.1 == queue@.subrange(from as int, r.0 as int).filter(consuming_pred(*self.book)).len(),
            r.1 <= limit,
            r.1 == limit || r.0 == queue@.len(),
    {
        let ghost pred = consuming_pred(*self.book);
        let qlen: usize = queue.len();
        let mut cnt: usize = 0;
        let mut i: usize = from;
        proof {
            assert(queue@.subrange(from as int, from as int) =~= Seq::<char>::empty());
            reveal_with_fuel(Seq::filter, 2);
        }
        loop
            invariant
                from <= i,
                i < qlen,
                qlen == queue@.len(),
                limit >= 1,
                pred == consuming_pred(*self.book),
                cnt == queue@.subrange(from as int, i as int).filter(pred).len(),
                cnt < limit,
            decreases queue@.len() - i,
        {
            proof {
                let s = queue@.subrange(from as int, i as int);
                let one = seq![queue@[i as int]];
                assert(queue@.subrange(from as int, i as int + 1) =~= s + one);
                Seq::filter_distributes_over_add(s, one, pred);
                reveal_with_fuel(Seq::filter, 2);
                assert(one.drop_last() =~= Seq::<char>::empty());
                assert(one.filter(pred) == if pred(queue@[i as int]) {
                    one
                } else {
                    Seq::<char>::empty()
                });
            }
            if self.comment_char_consumes_slot(queue[i]) {
                cnt = cnt + 1;
            }
            i = i + 1;
            if cnt == limit || i == queue.len() {
                return (i, cnt);
            }
        }
    }

    /// The bookline underline for a glyph at `pos`.
    fn make_bookline(&self, pos: Cell) -> (r: LineSpec)
        requires
            self.wf(),
            self.book.bookline is Some,
            crate::layout::cell_bounded(pos),
        ensures
            r == spec_bookline(*self.book, self.layout.rh as int, pos),
    {
        let bl_width = match &self.book.bookline {
            Some(bl) => bl.width,
            None => 0,
        };
        let bl_color = match &self.book.bookline {
            Some(bl) => bl.color,
            None => crate::color::Color { r: 0, g: 0, b: 0 },
        };
        let rh = self.layout.rh;
        LineSpec {
            x1: pos.x - bl_width,
            y1: pos.y - crate::layout::div_i64_pub(rh * 3, 10),
            x2: pos.x - bl_width,
            y2: pos.y + crate::layout::div_i64_pub(rh * 7, 10),
            width: bl_width,
            color: bl_color,
            wavy: true,
        }
    }
}

} // verus!

verus! {

/// In a grid of `n` slots whose column height `r` divides `n`, rounding
/// a position below `n` up to the end of its column stays within the
/// grid.
pub proof fn lemma_column_fits(p: int, r: int, n: int)
    requires
        0 <= p < n,
        1 <= r,
        n % r == 0,
    ensures
        p - p % r + r <= n,
{
    vstd::arithmetic::div_mod::lemma_fundamental_div_mod(p, r);
    vstd::arithmetic::div_mod::lemma_mod_division_less_than_divisor(p, r);
    vstd::arithmetic::div_mod::lemma_fundamental_div_mod(n, r);
    let q = n / r;
    assert(p < r * q);
    vstd::arithmetic::div_mod::lemma_multiply_divide_lt(p, r, q);
    assert(p - p % r + r <= n) by (nonlinear_arith)
        requires
            p == r * (p / r) + p % r,
            n == r * q,
            p / r < q,
            0 <= p % r,
            1 <= r,
    ;
}

/// The rows per column divide the page capacity.
pub proof fn lemma_per_page_multiple(l: Layout)
    requires
        l.wf(),
    ensures
        (l.per_page as int) % (l.rows_per_column as int) == 0,
        l.rows_per_column <= l.per_page,
{
    let c = l.columns as int;
    let r = l.rows_per_column as int;
    let b = l.multirows_bands as int;
    assert(c * r * b == (c * b) * r && 1 <= c * b) by (nonlinear_arith)
        requires
            1 <= c,
            1 <= b,
            1 <= r,
    ;
    vstd::arithmetic::div_mod::lemma_mod_multiples_basic(c * b, r);
    assert((c * b) * r >= 1 * r) by (nonlinear_arith)
        requires
            1 <= c * b,
            1 <= r,
    ;
}

impl<'a> LayoutEngine<'a> {
    /// Whether a character, resolved against the annotation stack with
    /// the book's variant fallback, lands in some font slot.
    pub open spec fn comment_drawable_pred(self) -> spec_fn(char) -> bool {
        |c: char|
            final_resolution(
                *self.fonts,
                c,
                self.book.try_st,
                self.fonts.comment_stack@,
            ).1 is Some
    }

    /// A block character laid out as an ordinary annotation glyph: it
    /// consumes a half-slot, is not a rotated mark, and some font draws
    /// it.
    pub open spec fn plain_comment_char(self, c: char) -> bool {
        &&& comment_consumes(*self.book, c)
        &&& !self.book.punctuation.comment_rotate.chars@.contains(c)
        &&& (self.comment_drawable_pred())(c)
    }

    /// The glyph records of the first `n` characters of an annotation
    /// block packed from slot count `pre_pcnt` into `need` slot pairs.
    pub open spec fn comment_glyph_run(
        self,
        queue: Seq<char>,
        pre_pcnt: int,
        need: int,
        n: int,
    ) -> Seq<GlyphSpec> {
        Seq::new(
            n as nat,
            |j: int|
                self.spec_glyph(
                    comment_cell(*self.layout, pre_pcnt, need, j),
                    queue[j],
                    true,
                    false,
                    false,
                )->Some_0,
        )
    }

    /// What one annotation block does to the sink and the slot counter.
    /// A block whose ceil(K/2) slot pairs fit the current column advances
    /// the slot counter by exactly that many and flushes no page; when
    /// every block character is an ordinary annotation glyph, the
    /// characters land in the annotation half-cells in packing order:
    /// the right column half top to bottom, then the left.
    pub open spec fn comments_outcome(
        self,
        pre: PageSink,
        post: PageSink,
        pre_pcnt: int,
        post_pcnt: int,
        queue: Seq<char>,
    ) -> bool {
        let k = queue.filter(consuming_pred(*self.book)).len() as int;
        let need = (k + 1) / 2;
        let r = self.layout.rows_per_column as int;
        let fits = pre_pcnt < self.layout.per_page && need <= r - pre_pcnt % r && pre_pcnt + need
            < self.layout.per_page;
        &&& (fits ==> (post_pcnt == pre_pcnt + need && post.pages@ == pre.pages@
            && post.next_page_number == pre.next_page_number))
        &&& ((fits && (forall|j: int|
            0 <= j < queue.len() ==> self.plain_comment_char(#[trigger] queue[j]))) ==> (
        post.current.glyphs@ == pre.current.glyphs@ + self.comment_glyph_run(
            queue,
            pre_pcnt,
            need,
            queue.len() as int,
        ) && post.current.lines@ == pre.current.lines@ && post.current.number == pre.current.number
            && post.current.title@ == pre.current.title@))
    }

    /// Lays out one annotation block: characters packed two per slot into
    /// the annotation half-column of the current column, top to bottom,
    /// finalizing and continuing on a fresh page when the grid fills.
    /// The whole queue is always consumed.
    #[verifier::loop_isolation(false)]
    #[verifier::rlimit(100)]
    pub fn render_comments(
        &self,
        sink: &mut PageSink,
        cursor: &mut Cursor,
        queue: &Vec<char>,
        title: &Vec<char>,
    )
        requires
            self.wf(),
            old(sink).wf(),
            old(cursor).pcnt <= self.layout.per_page,
            old(sink).next_page_number + queue@.len() + 2 <= PAGE_NUMBER_CAP,
        ensures
            final(sink).wf(),
            final(cursor).pcnt <= self.layout.per_page,
            final(cursor).bookline_active == old(cursor).bookline_active,
            final(cursor).last_pos == old(cursor).last_pos,
            old(sink).pages@.is_prefix_of(final(sink).pages@),
            old(sink).next_page_number <= final(sink).next_page_number,
            final(sink).next_page_number <= old(sink).next_page_number + queue@.len() + 1,
            self.comments_outcome(
                *old(sink),
                *final(sink),
                old(cursor).pcnt as int,
                final(cursor).pcnt as int,
                queue@,
            ),
    {
        let per_page = self.layout.per_page;
        let rpc = self.layout.rows_per_column;
        proof {
            lemma_per_page_multiple(*self.layout);
            assert(per_page <= 100_000_000) by (nonlinear_arith)
                requires
                    1 <= self.layout.columns,
                    self.layout.columns <= 10_000,
                    1 <= self.layout.rows_per_column,
                    1 <= self.layout.multirows_bands,
                    self.layout.rows_per_column * self.layout.multirows_bands <= 10_000,
                    per_page == self.layout.columns * self.layout.rows_per_column
                        * self.layout.multirows_bands,
            ;
        }
        let ghost gpred = consuming_pred(*self.book);
        let ghost k_all = queue@.filter(gpred).len() as int;
        let ghost need_all = (k_all + 1) / 2;
        let ghost cond = old(cursor).pcnt < self.layout.per_page && need_all <= (
        self.layout.rows_per_column as int) - (old(cursor).pcnt as int) % (
        self.layout.rows_per_column as int) && old(cursor).pcnt + need_all
            < self.layout.per_page;
        let ghost cond_pos = cond && (forall|j: int|
            0 <= j < queue@.len() ==> self.plain_comment_char(#[trigger] queue@[j]));
        proof {
            if cond_pos {
                assert(forall|k: int| 0 <= k < queue@.len() ==> gpred(#[trigger] queue@[k]));
                lemma_filter_all(queue@, gpred);
            }
        }
        let qlen: usize = queue.len();
        let mut qi: usize = 0;
        let mut comment_bookline_active = false;
        let mut comment_last_slot: Option<Cell> = None;
        while qi < qlen
            invariant
                qi <= qlen,
                sink.wf(),
                cursor.pcnt <= per_page,
                cursor.bookline_active == old(cursor).bookline_active,
                cursor.last_pos == old(cursor).last_pos,
                old(sink).pages@.is_prefix_of(sink.pages@),
                old(sink).next_page_number <= sink.next_page_number,
                sink.next_page_number <= old(sink).next_page_number + qi + (if cursor.pcnt
                    >= per_page {
                    0int
                } else {
                    1int
                }),
                sink.next_page_number <= old(sink).next_page_number + qi + 1,
                match comment_last_slot {
                    Some(c) => crate::layout::cell_bounded(c),
                    None => true,
                },
                cond ==> (sink.pages@ == old(sink).pages@
                    && sink.next_page_number == old(sink).next_page_number
                    && ((qi == 0 && cursor.pcnt == old(cursor).pcnt)
                    || (cursor.pcnt == old(cursor).pcnt + need_all
                    && queue@.subrange(qi as int, qlen as int).filter(gpred).len() == 0))),
                cond_pos ==> !comment_bookline_active,
                cond_pos ==> (sink.current.number == old(sink).current.number
                    && sink.current.title@ == old(sink).current.title@
                    && sink.current.lines@ == old(sink).current.lines@
                    && ((qi == 0 && sink.current.glyphs@ == old(sink).current.glyphs@)
                    || (qi == qlen && sink.current.glyphs@ == old(sink).current.glyphs@
                    + self.comment_glyph_run(
                        queue@,
                        old(cursor).pcnt as int,
                        need_all,
                        qlen as int,
                    )))),
            decreases qlen + 1 - qi, (if cursor.pcnt >= per_page { 1int } else { 0int }),
        {
            if cursor.pcnt >= per_page {
                sink.finalize(title);
                cursor.pcnt = 0;
                comment_last_slot = None;
                continue;
            }
            let avail: usize = rpc - cursor.pcnt % rpc;
            let k_rem = self.count_consuming_from(queue, qi);
            let needed: usize = (k_rem + 1) / 2;
            if needed == 0 {
                proof {
                    if cond {
                        assert(queue@.subrange(0, qlen as int) =~= queue@);
                        if qi == 0 {
                            assert(k_all == 0);
                        }
                    }
                    if cond_pos {
                        assert(qi == 0);
                        assert(queue@.subrange(0, qlen as int) =~= queue@);
                        assert(k_rem == k_all && k_all == qlen);
                        assert(false);
                    }
                }
                #[verifier::loop_isolation(true)]
                while qi < qlen
                    invariant
                        self.wf(),
                        gpred == consuming_pred(*self.book),
                        qi <= qlen,
                        qlen == queue@.len(),
                        sink.wf(),
                        cursor.pcnt <= per_page,
                        cursor.bookline_active == old(cursor).bookline_active,
                        cursor.last_pos == old(cursor).last_pos,
                        old(sink).pages@.is_prefix_of(sink.pages@),
                        old(sink).next_page_number <= sink.next_page_number,
                        sink.next_page_number <= old(sink).next_page_number + qi + (
                        if cursor.pcnt >= per_page {
                            0int
                        } else {
                            1int
                        }),
                        match comment_last_slot {
                            Some(c) => crate::layout::cell_bounded(c),
                            None => true,
                        },
                        cond ==> (sink.pages@ == old(sink).pages@
                            && sink.next_page_number == old(sink).next_page_number
                            && cursor.pcnt == old(cursor).pcnt + need_all
                            && queue@.subrange(qi as int, qlen as int).filter(gpred).len() == 0),
                    decreases qlen - qi,
                {
                    proof {
                        let one = seq![queue@[qi as int]];
                        let rest = queue@.subrange(qi as int + 1, qlen as int);
                        assert(queue@.subrange(qi as int, qlen as int) =~= one + rest);
                        Seq::filter_distributes_over_add(one, rest, gpred);
                    }
                    let ch = queue[qi];
                    if !self.should_skip_bookline_char(ch) {
                        if let Some(last) = comment_last_slot {
                            if crate::chars::contains_char(
                                &self.book.punctuation.comment_nop.chars,
                                ch,
                            ) {
                                if let Some(g) = self.build_text_glyph(last, ch, true, true, false) {
                                    sink.current.glyphs.push(g);
                                }
                            }
                        }
                    }
                    qi = qi + 1;
                }
                break;
            }
            let take_pairs: usize = if avail < needed {
                avail
            } else {
                needed
            };
            proof {
                lemma_per_page_multiple(*self.layout);
                lemma_column_fits(cursor.pcnt as int, rpc as int, per_page as int);
                vstd::arithmetic::div_mod::lemma_mod_division_less_than_divisor(
                    cursor.pcnt as int,
                    rpc as int,
                );
                if cond {
                    assert(queue@.subrange(0, qlen as int) =~= queue@);
                    assert(qi == 0 && cursor.pcnt == old(cursor).pcnt);
                    assert(k_rem == k_all);
                    assert(needed == need_all && take_pairs == needed);
                }
            }
            let (qe, taken) = self.scan_take(queue, qi, 2 * take_pairs);
            proof {
                if cond {
                    let pre = queue@.subrange(qi as int, qe as int);
                    let suf = queue@.subrange(qe as int, qlen as int);
                    assert(queue@.subrange(qi as int, qlen as int) =~= pre + suf);
                    Seq::filter_distributes_over_add(pre, suf, gpred);
                    assert(taken + suf.filter(gpred).len() == k_all);
                    if qe < qlen {
                        assert(taken == 2 * take_pairs);
                        assert(taken <= k_all);
                        assert(suf.filter(gpred).len() == 0);
                    }
                    assert(taken == k_all && queue@.subrange(qe as int, qlen as int).filter(
                        gpred,
                    ).len() == 0);
                }
                if cond_pos {
                    let pre2 = queue@.subrange(0, qe as int);
                    assert(forall|k: int| 0 <= k < pre2.len() ==> gpred(#[trigger] pre2[k]));
                    lemma_filter_all(pre2, gpred);
                    assert(taken == qe);
                    assert(qe == qlen);
                }
            }
            let mut positions: Vec<Cell> = Vec::new();
            let mut off: usize = 1;
            #[verifier::loop_isolation(true)]
            while off <= take_pairs
                invariant
                    self.wf(),
                    per_page == self.layout.per_page,
                    per_page <= 100_000_000,
                    take_pairs <= per_page,
                    cond_pos ==> (cursor.pcnt == old(cursor).pcnt && take_pairs == need_all
                        && need_all >= 0),
                    1 <= off,
                    off <= take_pairs + 1,
                    cursor.pcnt + take_pairs <= per_page,
                    positions@.len() == off - 1,
                    forall|m: int|
                        0 <= m < positions@.len() ==> crate::layout::cell_bounded(
                            #[trigger] positions@[m],
                        ),
                    cond_pos ==> forall|m: int|
                        0 <= m < positions@.len() ==> #[trigger] positions@[m] == comment_cell(
                            *self.layout,
                            old(cursor).pcnt as int,
                            need_all,
                            m,
                        ),
                decreases take_pairs + 1 - off,
            {
                proof {
                    assert(crate::layout::cell_bounded(
                        self.layout.pos_l@[(cursor.pcnt + off) as int],
                    ) && crate::layout::cell_bounded(self.layout.pos_r@[(cursor.pcnt + off) as int]));
                }
                match self.layout.pos_right(cursor.pcnt + off) {
                    Some(p) => {
                        positions.push(p);
                        proof {
                            if cond_pos {
                                assert(positions@.last() == comment_cell(
                                    *self.layout,
                                    old(cursor).pcnt as int,
                                    need_all,
                                    off as int - 1,
                                ));
                            }
                        }
                    },
                    None => {
                        proof {
                            assert(false);
                        }
                    },
                }
                off = off + 1;
            }
            let mut off2: usize = 1;
            #[verifier::loop_isolation(true)]
            while off2 <= take_pairs
                invariant
                    self.wf(),
                    per_page == self.layout.per_page,
                    per_page <= 100_000_000,
                    take_pairs <= per_page,
                    cond_pos ==> (cursor.pcnt == old(cursor).pcnt && take_pairs == need_all
                        && need_all >= 0),
                    1 <= off2,
                    off2 <= take_pairs + 1,
                    cursor.pcnt + take_pairs <= per_page,
                    positions@.len() == take_pairs + off2 - 1,
                    forall|m: int|
                        0 <= m < positions@.len() ==> crate::layout::cell_bounded(
                            #[trigger] positions@[m],
                        ),
                    cond_pos ==> forall|m: int|
                        0 <= m < positions@.len() ==> #[trigger] positions@[m] == comment_cell(
                            *self.layout,
                            old(cursor).pcnt as int,
                            need_all,
                            m,
                        ),
                decreases take_pairs + 1 - off2,
            {
                proof {
                    assert(crate::layout::cell_bounded(
                        self.layout.pos_l@[(cursor.pcnt + off2) as int],
                    ));
                }
                match self.layout.pos_left(cursor.pcnt + off2) {
                    Some(p) => {
                        positions.push(p);
                        proof {
                            if cond_pos {
                                assert(positions@.last() == comment_cell(
                                    *self.layout,
                                    old(cursor).pcnt as int,
                                    need_all,
                                    take_pairs + off2 - 1,
                                ));
                            }
                        }
                    },
                    None => {
                        proof {
                            assert(false);
                        }
                    },
                }
                off2 = off2 + 1;
            }
            let ghost pred = consuming_pred(*self.book);
            let mut ci: usize = qi;
            let mut p: usize = 0;
            let mut non_nop: usize = 0;
            proof {
                assert(queue@.subrange(qi as int, qi as int) =~= Seq::<char>::empty());
                reveal_with_fuel(Seq::filter, 2);
                if cond_pos {
                    assert(self.comment_glyph_run(
                        queue@,
                        old(cursor).pcnt as int,
                        need_all,
                        0,
                    ) =~= Seq::<GlyphSpec>::empty());
                    assert(sink.current.glyphs@ =~= old(sink).current.glyphs@
                        + self.comment_glyph_run(
                        queue@,
                        old(cursor).pcnt as int,
                        need_all,
                        0,
                    ));
                }
            }
            #[verifier::loop_isolation(true)]
            while ci < qe
                invariant
                    self.wf(),
                    per_page == self.layout.per_page,
                    gpred == consuming_pred(*self.book),
                    k_all == queue@.filter(gpred).len() as int,
                    need_all == (k_all + 1) / 2,
                    cond == (old(cursor).pcnt < self.layout.per_page && need_all <= (
                    self.layout.rows_per_column as int) - (old(cursor).pcnt as int) % (
                    self.layout.rows_per_column as int) && old(cursor).pcnt + need_all
                        < self.layout.per_page),
                    cond_pos == (cond && (forall|j: int|
                        0 <= j < queue@.len() ==> self.plain_comment_char(
                            #[trigger] queue@[j],
                        ))),
                    qi <= ci <= qe <= qlen,
                    qlen == queue@.len(),
                    positions@.len() == 2 * take_pairs,
                    forall|m: int|
                        0 <= m < positions@.len() ==> crate::layout::cell_bounded(
                            #[trigger] positions@[m],
                        ),
                    pred == consuming_pred(*self.book),
                    p == queue@.subrange(qi as int, ci as int).filter(pred).len(),
                    non_nop == p,
                    taken == queue@.subrange(qi as int, qe as int).filter(pred).len(),
                    taken <= 2 * take_pairs,
                    sink.wf(),
                    cursor.pcnt <= per_page,
                    cursor.bookline_active == old(cursor).bookline_active,
                    cursor.last_pos == old(cursor).last_pos,
                    old(sink).pages@.is_prefix_of(sink.pages@),
                    old(sink).next_page_number <= sink.next_page_number,
                    sink.next_page_number <= old(sink).next_page_number + qi + (if cursor.pcnt
                        >= per_page {
                        0int
                    } else {
                        1int
                    }),
                    cursor.pcnt + take_pairs <= per_page,
                    match comment_last_slot {
                        Some(c) => crate::layout::cell_bounded(c),
                        None => true,
                    },
                    cond ==> (sink.pages@ == old(sink).pages@
                        && sink.next_page_number == old(sink).next_page_number
                        && qi == 0 && cursor.pcnt == old(cursor).pcnt && taken == k_all
                        && queue@.subrange(qe as int, qlen as int).filter(gpred).len() == 0),
                    cond_pos ==> (p == ci && !comment_bookline_active && qe == qlen
                        && take_pairs == need_all
                        && sink.current.number == old(sink).current.number
                        && sink.current.title@ == old(sink).current.title@
                        && sink.current.lines@ == old(sink).current.lines@
                        && (forall|m: int|
                        0 <= m < positions@.len() ==> #[trigger] positions@[m] == comment_cell(
                            *self.layout,
                            old(cursor).pcnt as int,
                            need_all,
                            m,
                        ))
                        && sink.current.glyphs@ == old(sink).current.glyphs@
                        + self.comment_glyph_run(
                            queue@,
                            old(cursor).pcnt as int,
                            need_all,
                            ci as int,
                        )),
                decreases qe - ci,
            {
                proof {
                    let s = queue@.subrange(qi as int, ci as int);
                    let one = seq![queue@[ci as int]];
                    assert(queue@.subrange(qi as int, ci as int + 1) =~= s + one);
                    Seq::filter_distributes_over_add(s, one, pred);
                    reveal_with_fuel(Seq::filter, 2);
                    assert(one.drop_last() =~= Seq::<char>::empty());
                    assert(one.filter(pred) == if pred(queue@[ci as int]) {
                        one
                    } else {
                        Seq::<char>::empty()
                    });
                    let whole = queue@.subrange(qi as int, qe as int);
                    let s2 = queue@.subrange(ci as int + 1, qe as int);
                    assert(whole =~= queue@.subrange(qi as int, ci as int + 1) + s2);
                    Seq::filter_distributes_over_add(queue@.subrange(qi as int, ci as int + 1), s2, pred);
                }
                let ch = queue[ci];
                proof {
                    if cond_pos {
                        assert(self.plain_comment_char(queue@[ci as int]));
                        assert(!skip_bookline_char(*self.book, ch));
                        assert(!self.book.punctuation.comment_nop.chars@.contains(ch));
                        assert(!self.book.punctuation.comment_rotate.chars@.contains(ch));
                    }
                }
                if self.book.book_line_flag && ch == '《' {
                    comment_bookline_active = true;
                    ci = ci + 1;
                    continue;
                }
                if self.book.book_line_flag && ch == '》' {
                    comment_bookline_active = false;
                    ci = ci + 1;
                    continue;
                }
                let is_rot = crate::chars::contains_char(
                    &self.book.punctuation.comment_rotate.chars,
                    ch,
                );
                let is_nop = crate::chars::contains_char(
                    &self.book.punctuation.comment_nop.chars,
                    ch,
                );
                if is_nop {
                    if let Some(last) = comment_last_slot {
                        if let Some(g) = self.build_text_glyph(last, ch, true, true, false) {
                            sink.current.glyphs.push(g);
                        }
                    }
                    ci = ci + 1;
                    continue;
                }
                let pos = positions[p];
                p = p + 1;
                comment_last_slot = Some(pos);
                non_nop = non_nop + 1;
                if is_rot {
                    if let Some(g) = self.build_text_glyph(pos, ch, true, false, true) {
                        sink.current.glyphs.push(g);
                    }
                } else {
                    let ghost glyphs_pre = sink.current.glyphs@;
                    let built = self.build_text_glyph(pos, ch, true, false, false);
                    if let Some(g) = built {
                        sink.current.glyphs.push(g);
                    }
                    proof {
                        if cond_pos {
                            assert(built is Some);
                            assert(self.comment_glyph_run(
                                queue@,
                                old(cursor).pcnt as int,
                                need_all,
                                ci as int + 1,
                            ) =~= self.comment_glyph_run(
                                queue@,
                                old(cursor).pcnt as int,
                                need_all,
                                ci as int,
                            ).push(built->Some_0));
                            assert(sink.current.glyphs@ =~= glyphs_pre.push(built->Some_0));
                        }
                    }
                }
                if comment_bookline_active && self.book.book_line_flag && ch != ' ' {
                    if self.book.bookline.is_some() {
                        let line = self.make_bookline(pos);
                        sink.current.lines.push(line);
                    }
                }
                ci = ci + 1;
            }
            let slots_used: usize = (non_nop + 1) / 2;
            proof {
                assert(slots_used <= take_pairs);
                if cond {
                    assert(non_nop == k_all);
                    assert(slots_used == need_all);
                }
            }
            cursor.pcnt = cursor.pcnt + slots_used;
            qi = qe;
        }
        proof {
            if cond_pos && qlen == 0 {
                assert(old(sink).current.glyphs@ + self.comment_glyph_run(
                    queue@,
                    old(cursor).pcnt as int,
                    need_all,
                    0,
                ) =~= old(sink).current.glyphs@);
            }
        }
    }
}

} // verus!

verus! {

/// A character with no marker or mark role: it consumes one slot and
/// draws as an ordinary glyph.
pub open spec fn plain_char(book: BookConfig, ch: char) -> bool {
    &&& ch != '\n' && ch != '\r'
    &&& ch != '%' && ch != '$' && ch != '^' && ch != '&'
    &&& ch != '《' && ch != '》' && ch != '【'
    &&& !book.punctuation.text_nop.chars@.contains(ch)
    &&& !book.punctuation.text_rotate.chars@.contains(ch)
}

/// A prefix of a sequence is still a prefix after a push.
pub proof fn lemma_prefix_push(a: Seq<PagePlan>, b: Seq<PagePlan>, x: PagePlan)
    requires
        a.is_prefix_of(b),
    ensures
        a.is_prefix_of(b.push(x)),
{
    assert(b.push(x).subrange(0, a.len() as int) =~= b.subrange(0, a.len() as int));
}

/// Prefixes compose.
pub proof fn lemma_prefix_trans(a: Seq<PagePlan>, b: Seq<PagePlan>, c: Seq<PagePlan>)
    requires
        a.is_prefix_of(b),
        b.is_prefix_of(c),
    ensures
        a.is_prefix_of(c),
{
    assert forall|i: int| 0 <= i < a.len() implies a[i] == c[i] by {
        assert(a[i] == b.subrange(0, a.len() as int)[i]);
        assert(b[i] == c.subrange(0, b.len() as int)[i]);
    }
    assert(a =~= c.subrange(0, a.len() as int));
}

/// The index of the `】` closing a block opened at `i`, or the stream
/// length when it never closes.
pub open spec fn block_close(entry: Seq<char>, i: int) -> int {
    i + 1 + crate::preprocess::first_index_of(entry.skip(i + 1), '】')
}

impl<'a> LayoutEngine<'a> {
    /// One slot-consuming character laid out at the next slot: when the
    /// page is already full it is flushed first (keeping drawn lines, as
    /// a flush does); the glyph, when some font holds the character or
    /// its placeholder, lands at the slot's main cell; the slot counter
    /// advances to that slot; an underline is added when a bookline is
    /// open; and `orphan` carries a non-slot mark taken along because the
    /// glyph exactly filled the page, attached at the glyph's cell.
    pub open spec fn spec_place(
        self,
        pre: PageSink,
        post: PageSink,
        pc: int,
        lp: Option<Cell>,
        post_pcnt: int,
        post_lp: Option<Cell>,
        ch: char,
        orphan: Option<char>,
        rotated: bool,
        bookline_on: bool,
        title: Seq<char>,
    ) -> bool {
        let flipped = pc == self.layout.per_page;
        let base_glyphs = if flipped {
            Seq::<GlyphSpec>::empty()
        } else {
            pre.current.glyphs@
        };
        let base_lp = if flipped {
            None::<Cell>
        } else {
            lp
        };
        let pcm: int = if flipped {
            0
        } else {
            pc
        };
        let pos = self.layout.pos_l@[pcm + 1];
        let g = self.spec_glyph(pos, ch, false, false, rotated);
        let l = if g is Some {
            line_for(*self.book, self.layout.rh as int, bookline_on, ch, pos)
        } else {
            None::<LineSpec>
        };
        let lp2 = if g is Some {
            Some(pos)
        } else {
            base_lp
        };
        let g2 = match orphan {
            Some(n) => self.spec_glyph(
                match lp2 {
                    Some(q) => q,
                    None => pos,
                },
                n,
                false,
                true,
                false,
            ),
            None => None::<GlyphSpec>,
        };
        &&& post.pages@ == (if flipped {
            (if pre.current.glyphs@.len() > 0 {
                pre.pages@.push(pre.current)
            } else {
                pre.pages@
            })
        } else {
            pre.pages@
        })
        &&& post.next_page_number == pre.next_page_number + (if flipped {
            1int
        } else {
            0
        })
        &&& post.current.number == (if flipped {
            pre.next_page_number + 1
        } else {
            pre.current.number as int
        })
        &&& post.current.title@ == (if flipped {
            title
        } else {
            pre.current.title@
        })
        &&& post.current.lines@ == pre.current.lines@ + opt_line_seq(l)
        &&& post.current.glyphs@ == base_glyphs + opt_glyph_seq(g) + opt_glyph_seq(g2)
        &&& post_pcnt == pcm + 1
        &&& post_lp == lp2
    }

    /// The glyph records of `n` plain characters laid out from slot count
    /// `pc` at the main cells of slots pc+1, pc+2, ...
    pub open spec fn plain_glyph_run(self, entry: Seq<char>, pc: int, n: int) -> Seq<GlyphSpec> {
        Seq::new(
            n as nat,
            |j: int| self.spec_glyph(self.layout.pos_l@[pc + 1 + j], entry[j], false, false, false)->Some_0,
        )
    }

    /// One step of the chapter-stream walk, reading the character at `i`:
    /// newlines are skipped; `%` flushes the page and discards row
    /// padding; `$`, `^` and `&` move the slot counter by their jumps;
    /// bookline toggles set the underline state and are consumed when the
    /// feature is on; `【` lays out its block as annotations; everything
    /// else is drawn as a non-slot, rotated or plain glyph, flipping a
    /// full page first. Returns the next index and whether the page cap
    /// ended the walk.
    #[verifier::loop_isolation(false)]
    #[verifier::rlimit(100)]
    pub fn step(
        &self,
        entry: &Vec<char>,
        i: usize,
        title: &Vec<char>,
        sink: &mut PageSink,
        cursor: &mut Cursor,
    ) -> (r: (usize, bool))
        requires
            self.wf(),
            old(sink).wf(),
            old(cursor).pcnt <= self.layout.per_page,
            i < entry@.len(),
            entry@.len() <= PAGE_NUMBER_CAP,
            old(sink).next_page_number + (entry@.len() - i) + 2 <= PAGE_NUMBER_CAP,
            match old(cursor).last_pos {
                Some(c) => crate::layout::cell_bounded(c),
                None => true,
            },
        ensures
            final(sink).wf(),
            final(cursor).pcnt <= self.layout.per_page,
            match final(cursor).last_pos {
                Some(c) => crate::layout::cell_bounded(c),
                None => true,
            },
            old(sink).pages@.is_prefix_of(final(sink).pages@),
            old(sink).next_page_number <= final(sink).next_page_number,
            i <= r.0 <= entry@.len(),
            r.1 || i < r.0,
            final(sink).next_page_number <= old(sink).next_page_number + (r.0 - i) + 1,
            r.1 || final(sink).next_page_number <= old(sink).next_page_number + (r.0 - i),
            ({
                let ch = entry@[i as int];
                let pe = *old(sink);
                let po = *final(sink);
                let pc = old(cursor).pcnt as int;
                let bl = old(cursor).bookline_active;
                let lp = old(cursor).last_pos;
                let per = self.layout.per_page as int;
                let len = entry@.len() as int;
                let rn = self.book.row_num as int;
                let flag = self.book.book_line_flag;
                let in_nop = self.book.punctuation.text_nop.chars@.contains(ch);
                let in_rot = self.book.punctuation.text_rotate.chars@.contains(ch);
                let plainish = ch != '\n' && ch != '\r' && ch != '%' && ch != '$' && ch != '&'
                    && ch != '【' && !(ch == '^' && self.layout.multirows_bands > 1) && !((ch
                    == '《' || ch == '》') && flag);
                let bl2 = if ch == '《' {
                    true
                } else if ch == '》' {
                    false
                } else {
                    bl
                };
                &&& ((ch == '\n' || ch == '\r') ==> (sink_unchanged(pe, po) && *final(cursor)
                    == *old(cursor) && r.0 == i + 1 && !r.1))
                &&& (ch == '%' ==> (sink_finalized(pe, po, title@) && final(cursor).pcnt == 0
                    && final(cursor).bookline_active == bl && final(cursor).last_pos is None
                    && r.0 as int == after_row_padding(rn, len, i + 1) && r.1 == cap_reached(
                    *self.options,
                    po.pages@.len() as int,
                )))
                &&& (ch == '$' ==> (sink_unchanged(pe, po) && final(cursor).pcnt as int
                    == half_leaf_jump(pc, per) && final(cursor).bookline_active == bl && final(cursor).last_pos == lp && r.0 as int == after_row_padding(rn, len, i + 1) && !r.1))
                &&& ((ch == '^' && self.layout.multirows_bands > 1) ==> (sink_unchanged(pe, po)
                    && final(cursor).pcnt as int == band_jump(
                    pc,
                    self.layout.columns * self.layout.rows_per_column,
                    per,
                ) && final(cursor).bookline_active == bl && final(cursor).last_pos is None && r.0
                    == i + 1 && !r.1))
                &&& (ch == '&' ==> (sink_unchanged(pe, po) && final(cursor).pcnt as int
                    == last_column_jump(pc, self.layout.rows_per_column as int, per) && final(cursor).bookline_active == bl && final(cursor).last_pos == lp && r.0 as int
                    == after_row_padding(rn, len, i + 1) && !r.1))
                &&& ((ch == '《' && flag) ==> (sink_unchanged(pe, po) && final(cursor).bookline_active == true && final(cursor).pcnt as int == pc && final(cursor).last_pos == lp && r.0 == i + 1 && !r.1))
                &&& ((ch == '》' && flag) ==> (sink_unchanged(pe, po) && final(cursor).bookline_active == false && final(cursor).pcnt as int == pc && final(cursor).last_pos == lp && r.0 == i + 1 && !r.1))
                &&& (ch == '【' ==> ({
                    let close = block_close(entry@, i as int);
                    let block = entry@.subrange(i as int + 1, close);
                    &&& final(cursor).bookline_active == bl
                    &&& r.0 as int == (if close < len {
                        close + 1
                    } else {
                        len
                    })
                    &&& !r.1
                    &&& (block.len() == 0 ==> (sink_unchanged(pe, po) && final(cursor).pcnt as int
                        == pc && final(cursor).last_pos == lp))
                    &&& (block.len() > 0 ==> (final(cursor).last_pos is None
                        && self.comments_outcome(pe, po, pc, final(cursor).pcnt as int, block)
                        && po.next_page_number <= pe.next_page_number + block.len() + 1))
                }))
                &&& ((plainish && in_nop) ==> ({
                    let g = self.spec_glyph(attach_cell(*self.layout, lp, pc), ch, false, true, false);
                    &&& sink_gains(pe, po, opt_glyph_seq(g), Seq::<LineSpec>::empty())
                    &&& final(cursor).pcnt as int == pc
                    &&& final(cursor).bookline_active == bl2
                    &&& final(cursor).last_pos == lp
                    &&& r.0 == i + 1
                    &&& !r.1
                }))
                &&& ((plainish && !in_nop && pc == per && cap_reached(
                    *self.options,
                    pe.pages@.len() + (if pe.current.glyphs@.len() > 0 {
                        1int
                    } else {
                        0
                    }),
                )) ==> (sink_finalized(pe, po, title@) && final(cursor).pcnt == 0 && final(cursor).bookline_active == bl2 && final(cursor).last_pos is None && r.0 == i && r.1))
                &&& ((plainish && !in_nop && !(pc == per && cap_reached(
                    *self.options,
                    pe.pages@.len() + (if pe.current.glyphs@.len() > 0 {
                        1int
                    } else {
                        0
                    }),
                ))) ==> ({
                    let pcm: int = if pc == per {
                        0
                    } else {
                        pc
                    };
                    let took = !in_rot && pcm + 1 == per && i + 1 < len
                        && self.book.punctuation.text_nop.chars@.contains(entry@[i as int + 1]);
                    &&& self.spec_place(
                        pe,
                        po,
                        pc,
                        lp,
                        final(cursor).pcnt as int,
                        final(cursor).last_pos,
                        ch,
                        if took {
                            Some(entry@[i as int + 1])
                        } else {
                            None
                        },
                        in_rot,
                        bl2,
                        title@,
                    )
                    &&& final(cursor).bookline_active == bl2
                    &&& r.0 as int == (if took {
                        i + 2
                    } else {
                        i + 1
                    })
                    &&& !r.1
                }))
            }),
    {
        let per_page = self.layout.per_page;
        let len: usize = entry.len();
        proof {
            lemma_per_page_multiple(*self.layout);
            assert(old(sink).pages@.is_prefix_of(old(sink).pages@)) by {
                assert(old(sink).pages@.subrange(0, old(sink).pages@.len() as int) =~= old(sink).pages@);
            }
        }
        let ch = entry[i];
        if ch == '\n' || ch == '\r' {
            return (i + 1, false);
        }
        if ch == '%' {
            let ni = skip_row_padding(self.book.row_num, len, i + 1);
            let ghost pre = sink.pages@;
            sink.finalize(title);
            proof {
                if sink.pages@ != pre {
                    assert(sink.pages@ =~= pre.push(sink.pages@.last()));
                    lemma_prefix_push(old(sink).pages@, pre, sink.pages@.last());
                }
            }
            cursor.pcnt = 0;
            cursor.last_pos = None;
            let stop = self.reached_limit(sink.pages.len());
            return (ni, stop);
        }
        if ch == '$' {
            let ni = skip_row_padding(self.book.row_num, len, i + 1);
            cursor.pcnt = apply_half_leaf_jump(cursor.pcnt, per_page);
            return (ni, false);
        }
        if ch == '^' && self.layout.multirows_bands > 1 {
            proof {
                assert(self.layout.columns * self.layout.rows_per_column >= 1
                    && self.layout.columns * self.layout.rows_per_column <= per_page && per_page
                    <= 100_000_000) by (nonlinear_arith)
                    requires
                        1 <= self.layout.columns,
                        self.layout.columns <= 10_000,
                        1 <= self.layout.rows_per_column,
                        1 <= self.layout.multirows_bands,
                        self.layout.rows_per_column * self.layout.multirows_bands <= 10_000,
                        per_page == self.layout.columns * self.layout.rows_per_column
                            * self.layout.multirows_bands,
                ;
            }
            let band: usize = self.layout.columns * self.layout.rows_per_column;
            cursor.pcnt = apply_band_jump(cursor.pcnt, band, per_page);
            cursor.last_pos = None;
            return (i + 1, false);
        }
        if ch == '&' {
            let ni = skip_row_padding(self.book.row_num, len, i + 1);
            cursor.pcnt = apply_last_column_jump(cursor.pcnt, self.layout.rows_per_column, per_page);
            return (ni, false);
        }
        let mut bookline_toggle = false;
        if ch == '《' {
            cursor.bookline_active = true;
            bookline_toggle = true;
        }
        if ch == '》' {
            cursor.bookline_active = false;
            bookline_toggle = true;
        }
        if bookline_toggle && self.book.book_line_flag {
            return (i + 1, false);
        }
        if ch == '【' {
            let ghost suf = entry@.skip(i as int + 1);
            proof {
                crate::preprocess::lemma_first_index_of(suf, '】');
                assert(forall|k: int| 0 <= k < suf.len() ==> suf[k] == entry@[i as int + 1 + k]);
            }
            let close = crate::chars::find_char_from(entry, '】', i + 1);
            let content_end: usize = match close {
                Some(j) => {
                    proof {
                        crate::preprocess::lemma_first_index_unique(suf, '】', j as int - i - 1);
                    }
                    j
                },
                None => {
                    proof {
                        crate::preprocess::lemma_first_index_absent(suf, '】');
                    }
                    len
                },
            };
            proof {
                assert(content_end as int == block_close(entry@, i as int));
            }
            let block = crate::chars::subvec(entry, i + 1, content_end);
            proof {
                assert(block@ =~= entry@.subrange(i as int + 1, content_end as int));
            }
            let next_i: usize = match close {
                Some(j) => j + 1,
                None => len,
            };
            if block.len() > 0 {
                self.render_comments(sink, cursor, &block, title);
                cursor.last_pos = None;
            }
            return (next_i, false);
        }
        self.place_char(entry, i, title, sink, cursor)
    }


    /// Lays out one non-marker character: a non-slot mark attaches at
    /// the last placed position without consuming a slot; anything else
    /// consumes the next slot, flipping a full page first, and a mark
    /// right after a glyph that exactly filled the page is taken along.
    #[verifier::loop_isolation(false)]
    #[verifier::rlimit(100)]
    fn place_char(
        &self,
        entry: &Vec<char>,
        i: usize,
        title: &Vec<char>,
        sink: &mut PageSink,
        cursor: &mut Cursor,
    ) -> (r: (usize, bool))
        requires
            self.wf(),
            old(sink).wf(),
            old(cursor).pcnt <= self.layout.per_page,
            i < entry@.len(),
            entry@.len() <= PAGE_NUMBER_CAP,
            old(sink).next_page_number + 3 <= PAGE_NUMBER_CAP,
            match old(cursor).last_pos {
                Some(c) => crate::layout::cell_bounded(c),
                None => true,
            },
        ensures
            final(sink).wf(),
            final(cursor).pcnt <= self.layout.per_page,
            match final(cursor).last_pos {
                Some(c) => crate::layout::cell_bounded(c),
                None => true,
            },
            old(sink).pages@.is_prefix_of(final(sink).pages@),
            old(sink).next_page_number <= final(sink).next_page_number,
            final(sink).next_page_number <= old(sink).next_page_number + 1,
            i <= r.0 <= entry@.len(),
            r.1 || i < r.0,
            r.1 || final(sink).next_page_number <= old(sink).next_page_number + (r.0 - i),
            final(cursor).bookline_active == old(cursor).bookline_active,
            ({
                let ch = entry@[i as int];
                let pe = *old(sink);
                let po = *final(sink);
                let pc = old(cursor).pcnt as int;
                let lp = old(cursor).last_pos;
                let per = self.layout.per_page as int;
                let len = entry@.len() as int;
                let in_nop = self.book.punctuation.text_nop.chars@.contains(ch);
                let in_rot = self.book.punctuation.text_rotate.chars@.contains(ch);
                let capped = pc == per && cap_reached(
                    *self.options,
                    pe.pages@.len() + (if pe.current.glyphs@.len() > 0 {
                        1int
                    } else {
                        0
                    }),
                );
                &&& (in_nop ==> ({
                    let g = self.spec_glyph(
                        attach_cell(*self.layout, lp, pc),
                        ch,
                        false,
                        true,
                        false,
                    );
                    &&& sink_gains(pe, po, opt_glyph_seq(g), Seq::<LineSpec>::empty())
                    &&& final(cursor).pcnt as int == pc
                    &&& final(cursor).last_pos == lp
                    &&& r.0 == i + 1
                    &&& !r.1
                }))
                &&& ((!in_nop && capped) ==> (sink_finalized(pe, po, title@) && final(cursor).pcnt
                    == 0 && final(cursor).last_pos is None && r.0 == i && r.1))
                &&& ((!in_nop && !capped) ==> ({
                    let pcm: int = if pc == per {
                        0
                    } else {
                        pc
                    };
                    let took = !in_rot && pcm + 1 == per && i + 1 < len
                        && self.book.punctuation.text_nop.chars@.contains(entry@[i as int + 1]);
                    &&& self.spec_place(
                        pe,
                        po,
                        pc,
                        lp,
                        final(cursor).pcnt as int,
                        final(cursor).last_pos,
                        ch,
                        if took {
                            Some(entry@[i as int + 1])
                        } else {
                            None
                        },
                        in_rot,
                        old(cursor).bookline_active,
                        title@,
                    )
                    &&& r.0 as int == (if took {
                        i + 2
                    } else {
                        i + 1
                    })
                    &&& !r.1
                }))
            }),
    {
        let per_page = self.layout.per_page;
        let len: usize = entry.len();
        proof {
            lemma_per_page_multiple(*self.layout);
            assert(old(sink).pages@.is_prefix_of(old(sink).pages@)) by {
                assert(old(sink).pages@.subrange(0, old(sink).pages@.len() as int) =~= old(
                    sink,
                ).pages@);
            }
        }
        let ch = entry[i];
        let is_nop = crate::chars::contains_char(&self.book.punctuation.text_nop.chars, ch);
        let is_rot = crate::chars::contains_char(&self.book.punctuation.text_rotate.chars, ch);
        if is_nop {
            let pos_prev = match cursor.last_pos {
                Some(p) => p,
                None => {
                    let idx: usize = if cursor.pcnt >= 1 {
                        cursor.pcnt
                    } else {
                        1
                    };
                    match self.layout.pos_left(idx) {
                        Some(p) => p,
                        None => Cell { x: 0, y: 0 },
                    }
                },
            };
            proof {
                if cursor.last_pos is None && 1 <= cursor.pcnt {
                    assert(crate::layout::cell_bounded(self.layout.pos_l@[cursor.pcnt as int]));
                }
                if cursor.last_pos is None && cursor.pcnt == 0 {
                    assert(crate::layout::cell_bounded(self.layout.pos_l@[1int]));
                }
                assert(pos_prev == attach_cell(*self.layout, old(cursor).last_pos, old(cursor).pcnt as int));
            }
            let ghost glyphs_pre = sink.current.glyphs@;
            let built = self.build_text_glyph(pos_prev, ch, false, true, false);
            if let Some(g) = built {
                sink.current.glyphs.push(g);
            }
            proof {
                assert(sink.current.glyphs@ =~= glyphs_pre + opt_glyph_seq(built));
                assert(sink.current.lines@ =~= old(sink).current.lines@ + Seq::<LineSpec>::empty());
            }
            return (i + 1, false);
        }
        proof {
            if is_rot {
                assert(!self.book.punctuation.text_nop.chars@.contains(ch));
            }
        }
        if cursor.pcnt == per_page {
            let ghost pre = sink.pages@;
            sink.finalize(title);
            proof {
                if sink.pages@ != pre {
                    assert(sink.pages@ =~= pre.push(sink.pages@.last()));
                    lemma_prefix_push(old(sink).pages@, pre, sink.pages@.last());
                }
            }
            cursor.pcnt = 0;
            cursor.last_pos = None;
            if self.reached_limit(sink.pages.len()) {
                return (i, true);
            }
        }
        cursor.pcnt = cursor.pcnt + 1;
        let pos = match self.layout.pos_left(cursor.pcnt) {
            Some(p) => p,
            None => {
                proof {
                    assert(false);
                }
                Cell { x: 0, y: 0 }
            },
        };
        proof {
            assert(crate::layout::cell_bounded(self.layout.pos_l@[cursor.pcnt as int]));
        }
        let ghost glyphs_base = sink.current.glyphs@;
        let ghost lines_base = sink.current.lines@;
        let built = self.build_text_glyph(pos, ch, false, false, is_rot);
        if let Some(g) = built {
            sink.current.glyphs.push(g);
            cursor.last_pos = Some(pos);
            if cursor.bookline_active && self.book.book_line_flag && ch != ' ' {
                if self.book.bookline.is_some() {
                    let line = self.make_bookline(pos);
                    sink.current.lines.push(line);
                }
            }
        }
        proof {
            let l = if built is Some {
                line_for(
                    *self.book,
                    self.layout.rh as int,
                    cursor.bookline_active,
                    ch,
                    pos,
                )
            } else {
                None::<LineSpec>
            };
            assert(sink.current.glyphs@ =~= glyphs_base + opt_glyph_seq(built));
            assert(sink.current.lines@ =~= lines_base + opt_line_seq(l));
        }
        if !is_rot && cursor.pcnt == per_page && i + 1 < len {
            let next_ch = entry[i + 1];
            if crate::chars::contains_char(&self.book.punctuation.text_nop.chars, next_ch) {
                let pos_prev = match cursor.last_pos {
                    Some(p) => p,
                    None => pos,
                };
                let ghost glyphs_mid = sink.current.glyphs@;
                let built2 = self.build_text_glyph(pos_prev, next_ch, false, true, false);
                if let Some(g2) = built2 {
                    sink.current.glyphs.push(g2);
                }
                proof {
                    assert(sink.current.glyphs@ =~= glyphs_mid + opt_glyph_seq(built2));
                }
                return (i + 2, false);
            }
        }
        proof {
            assert(sink.current.glyphs@ =~= sink.current.glyphs@ + opt_glyph_seq(
                None::<GlyphSpec>,
            ));
        }
        (i + 1, false)
    }

    /// Walks one chapter's character stream, one `step` at a time from
    /// its start, until the stream ends or the page cap stops the walk.
    /// A run of plain characters that fits the page advances the slot
    /// counter by its length, flushes nothing, and draws exactly the
    /// font-resolvable characters, in order, at the main cells of the
    /// slots it consumes.
    #[verifier::loop_isolation(false)]
    #[verifier::rlimit(100)]
    pub fn process_entry(
        &self,
        entry: &Vec<char>,
        title: &Vec<char>,
        sink: &mut PageSink,
        cursor: &mut Cursor,
    )
        requires
            self.wf(),
            old(sink).wf(),
            old(cursor).pcnt <= self.layout.per_page,
            old(sink).next_page_number + entry@.len() + 2 <= PAGE_NUMBER_CAP,
        ensures
            final(sink).wf(),
            final(cursor).pcnt <= self.layout.per_page,
            old(sink).pages@.is_prefix_of(final(sink).pages@),
            old(sink).next_page_number <= final(sink).next_page_number,
            final(sink).next_page_number <= old(sink).next_page_number + entry@.len() + 1,
            ({
                let n = entry@.len() as int;
                ((forall|k: int| 0 <= k < n ==> plain_char(*self.book, #[trigger] entry@[k]))
                    && old(cursor).pcnt + n <= self.layout.per_page)
                    ==> (final(cursor).pcnt == old(cursor).pcnt + n
                    && final(cursor).bookline_active == old(cursor).bookline_active
                    && final(sink).pages@ == old(sink).pages@
                    && final(sink).next_page_number == old(sink).next_page_number
                    && final(sink).current.number == old(sink).current.number
                    && final(sink).current.title@ == old(sink).current.title@
                    && final(sink).current.glyphs@.len() == old(sink).current.glyphs@.len()
                    + entry@.filter(self.drawable_pred()).len())
            }),
            ({
                let n = entry@.len() as int;
                ((forall|k: int| 0 <= k < n ==> plain_char(*self.book, #[trigger] entry@[k]))
                    && old(cursor).pcnt + n <= self.layout.per_page && (forall|k: int|
                    0 <= k < n ==> (self.drawable_pred())(#[trigger] entry@[k])))
                    ==> final(sink).current.glyphs@ == old(sink).current.glyphs@
                    + self.plain_glyph_run(entry@, old(cursor).pcnt as int, n)
            }),
    {
        let per_page = self.layout.per_page;
        proof {
            lemma_per_page_multiple(*self.layout);
            assert(old(sink).pages@.is_prefix_of(old(sink).pages@)) by {
                assert(old(sink).pages@.subrange(0, old(sink).pages@.len() as int) =~= old(sink).pages@);
            }
        }
        cursor.last_pos = None;
        let len: usize = entry.len();
        let ghost dp = self.drawable_pred();
        let ghost pc0 = old(cursor).pcnt as int;
        let ghost plain_run = (forall|k: int|
            0 <= k < entry@.len() ==> plain_char(*self.book, #[trigger] entry@[k])) && old(cursor).pcnt + entry@.len() <= per_page;
        let ghost plain_all = plain_run && (forall|k: int|
            0 <= k < entry@.len() ==> dp(#[trigger] entry@[k]));
        let mut i: usize = 0;
        proof {
            assert(entry@.subrange(0, 0).filter(dp) =~= Seq::<char>::empty());
            assert(self.plain_glyph_run(entry@, pc0, 0) =~= Seq::<GlyphSpec>::empty());
        }
        while i < len
            invariant
                i <= len,
                sink.wf(),
                cursor.pcnt <= per_page,
                old(sink).pages@.is_prefix_of(sink.pages@),
                old(sink).next_page_number <= sink.next_page_number,
                sink.next_page_number <= old(sink).next_page_number + i,
                match cursor.last_pos {
                    Some(c) => crate::layout::cell_bounded(c),
                    None => true,
                },
                plain_run ==> (cursor.pcnt == pc0 + i
                    && cursor.bookline_active == old(cursor).bookline_active
                    && sink.pages@ == old(sink).pages@
                    && sink.next_page_number == old(sink).next_page_number
                    && sink.current.number == old(sink).current.number
                    && sink.current.title@ == old(sink).current.title@
                    && sink.current.glyphs@.len() == old(sink).current.glyphs@.len()
                    + entry@.subrange(0, i as int).filter(dp).len()),
                plain_all ==> sink.current.glyphs@ == old(sink).current.glyphs@
                    + self.plain_glyph_run(entry@, pc0, i as int),
            decreases len - i,
        {
            proof {
                if plain_run {
                    let pre = entry@.subrange(0, i as int);
                    let one = seq![entry@[i as int]];
                    assert(entry@.subrange(0, i as int + 1) =~= pre + one);
                    Seq::filter_distributes_over_add(pre, one, dp);
                    reveal_with_fuel(Seq::filter, 2);
                    assert(one.drop_last() =~= Seq::<char>::empty());
                    assert(one.filter(dp) == if dp(entry@[i as int]) {
                        one
                    } else {
                        Seq::<char>::empty()
                    });
                    assert(self.plain_glyph_run(entry@, pc0, i as int + 1) =~= self.plain_glyph_run(
                        entry@,
                        pc0,
                        i as int,
                    ).push(
                        self.spec_glyph(
                            self.layout.pos_l@[pc0 + 1 + i],
                            entry@[i as int],
                            false,
                            false,
                            false,
                        )->Some_0,
                    ));
                }
            }
            let ghost pre_pages = sink.pages@;
            let (ni, stop) = self.step(entry, i, title, sink, cursor);
            proof {
                lemma_prefix_trans(old(sink).pages@, pre_pages, sink.pages@);
            }
            i = ni;
            if stop {
                break;
            }
        }
        proof {
            assert(entry@.subrange(0, entry@.len() as int) =~= entry@);
        }
    }
}

} // verus!
