//! The book and canvas settings the typesetting core reads.
//!
//! Lengths and coordinates are integer milli-units (thousandths of a canvas
//! pixel); scale factors and offset fractions are thousandths. Callers that
//! read settings from files convert into this form before handing them in.

use vstd::prelude::*;
use crate::color::Color;

verus! {

/// Bound on every canvas length in milli-units: a hundred million pixels.
pub const COORD_LIMIT: i64 = 100_000_000_000;

/// Bound on a scale factor or offset fraction in thousandths.
pub const FRACTION_LIMIT: i64 = 1_000_000;

/// Bound on a font size in milli-units: a million pixels.
pub const FONT_SIZE_LIMIT: i64 = 1_000_000_000;

/// Bound on a column or row count.
pub const COUNT_LIMIT: usize = 10_000;

/// Ordered single-character replacements and literal deletions applied by
/// the preprocessor.
#[derive(Debug, Clone)]
pub struct ReplacementRules {
    /// Punctuation replacements: each source character becomes a string.
    pub comma_pairs: Vec<(char, Vec<char>)>,
    /// Numeral replacements, applied after the punctuation ones.
    pub number_pairs: Vec<(char, Vec<char>)>,
    /// Substrings deleted outright.
    pub delete_tokens: Vec<Vec<char>>,
}

/// Punctuation-removal and collapse-to-period modes.
#[derive(Debug, Clone)]
pub struct TextModes {
    pub remove_punctuations: bool,
    pub remove_tokens: Vec<Vec<char>>,
    pub only_period: bool,
    pub only_period_tokens: Vec<Vec<char>>,
    pub only_period_color: Option<Color>,
}

/// A class of punctuation marks with their drawing adjustment: a scale
/// factor and x/y offset fractions, all in thousandths.
#[derive(Debug, Clone)]
pub struct MarkAdjust {
    pub chars: Vec<char>,
    pub scale_milli: i64,
    pub offset_x_milli: i64,
    pub offset_y_milli: i64,
}

impl MarkAdjust {
    pub open spec fn wf(self) -> bool {
        &&& -FRACTION_LIMIT <= self.scale_milli <= FRACTION_LIMIT
        &&& -FRACTION_LIMIT <= self.offset_x_milli <= FRACTION_LIMIT
        &&& -FRACTION_LIMIT <= self.offset_y_milli <= FRACTION_LIMIT
    }

    /// No marks, unit scale, no offset.
    pub fn empty() -> (r: MarkAdjust)
        ensures
            r.chars@ == Seq::<char>::empty(),
            r.scale_milli == 1000,
            r.offset_x_milli == 0,
            r.offset_y_milli == 0,
            r.wf(),
    {
        MarkAdjust { chars: Vec::new(), scale_milli: 1000, offset_x_milli: 0, offset_y_milli: 0 }
    }
}

/// The four mark classes (text/annotation, non-slot/rotated) and the
/// characters stripped from slot counting.
#[derive(Debug, Clone)]
pub struct PunctuationConfig {
    pub text_nop: MarkAdjust,
    pub text_rotate: MarkAdjust,
    pub comment_nop: MarkAdjust,
    pub comment_rotate: MarkAdjust,
    pub comment_strip_chars: Vec<char>,
}

impl PunctuationConfig {
    pub open spec fn wf(self) -> bool {
        self.text_nop.wf() && self.text_rotate.wf() && self.comment_nop.wf()
            && self.comment_rotate.wf()
    }
}

/// Width and color of the decorative bookline underline.
#[derive(Debug, Clone)]
pub struct BookLineConfig {
    pub width: i64,
    pub color: Color,
}

/// Running-title style.
#[derive(Debug, Clone)]
pub struct TitleConfig {
    pub center: bool,
    /// Pattern appended to the book title; a placeholder `X` in it is
    /// replaced with the rendered chapter numeral.
    pub postfix: Option<Vec<char>>,
    pub directory: bool,
    pub font_size: i64,
    pub color: Color,
    pub y: i64,
    pub y_dis_milli: i64,
}

/// Cover style.
#[derive(Debug, Clone)]
pub struct CoverConfig {
    pub title_font_size: i64,
    pub title_y: i64,
    pub author_font_size: i64,
    pub author_y: i64,
    pub color: Color,
}

/// Page-number style.
#[derive(Debug, Clone)]
pub struct PagerConfig {
    pub font_size: i64,
    pub color: Color,
    pub y: i64,
}

/// All per-book settings the core reads.
#[derive(Debug, Clone)]
pub struct BookConfig {
    pub title: Vec<char>,
    pub author: Vec<char>,
    pub canvas_id: Vec<char>,
    /// Rows per leaf: characters in a full column.
    pub row_num: usize,
    /// Added to every row's y coordinate, in milli-units.
    pub row_delta_y: i64,
    /// Band layout selector: 2 asks for the page-level split.
    pub multirows_horizontal_layout: usize,
    /// Whether glyph resolution may try script-variant conversion.
    pub try_st: bool,
    pub text_font_color: Color,
    pub comment_font_color: Color,
    pub cover: CoverConfig,
    pub title_style: TitleConfig,
    pub pager_style: PagerConfig,
    pub replacements: ReplacementRules,
    pub text_modes: TextModes,
    pub punctuation: PunctuationConfig,
    pub bookline: Option<BookLineConfig>,
    pub book_line_flag: bool,
}

/// Why a configuration was rejected.
#[derive(Debug, Clone, Copy, PartialEq, Eq, Structural)]
pub enum ConfigError {
    ZeroRows,
    ZeroColumns,
    /// Rows per leaf not evenly divisible by the requested band count.
    BandsDoNotDivideRows,
    NonPositiveCanvas,
    MarginsExceedWidth,
    MarginsExceedHeight,
    NonPositiveFontSize,
    /// A font priority stack is empty.
    EmptyFontStack,
}

impl BookConfig {
    /// Mark classification is exclusive: a character is a non-slot mark
    /// or a rotated mark, never both, so the engine's slot accounting is
    /// single-valued. Callers that read overlapping mark lists from a
    /// file keep the character's non-slot role.
    pub open spec fn wf(self) -> bool {
        &&& self.punctuation.wf()
        &&& (forall|c: char|
            !(self.punctuation.text_nop.chars@.contains(c)
                && #[trigger] self.punctuation.text_rotate.chars@.contains(c)))
        &&& 1 <= self.row_num <= COUNT_LIMIT
        &&& -COORD_LIMIT <= self.row_delta_y <= COORD_LIMIT
        &&& match self.bookline {
            Some(b) => -COORD_LIMIT <= b.width <= COORD_LIMIT,
            None => true,
        }
    }

    /// Rejects zero rows and non-positive title/cover/pager font sizes.
    pub fn validate(&self) -> (r: Result<(), ConfigError>)
        ensures
            r == (if self.row_num == 0 {
                Err::<(), ConfigError>(ConfigError::ZeroRows)
            } else if self.cover.title_font_size <= 0 || self.cover.author_font_size <= 0
                || self.title_style.font_size <= 0 || self.pager_style.font_size <= 0 {
                Err::<(), ConfigError>(ConfigError::NonPositiveFontSize)
            } else {
                Ok::<(), ConfigError>(())
            }),
    {
        if self.row_num == 0 {
            return Err(ConfigError::ZeroRows);
        }
        if self.cover.title_font_size <= 0 || self.cover.author_font_size <= 0 {
            return Err(ConfigError::NonPositiveFontSize);
        }
        if self.title_style.font_size <= 0 {
            return Err(ConfigError::NonPositiveFontSize);
        }
        if self.pager_style.font_size <= 0 {
            return Err(ConfigError::NonPositiveFontSize);
        }
        Ok(())
    }
}

/// All per-canvas settings the core reads.
#[derive(Debug, Clone)]
pub struct CanvasConfig {
    pub canvas_width: i64,
    pub canvas_height: i64,
    pub margins_top: i64,
    pub margins_bottom: i64,
    pub margins_left: i64,
    pub margins_right: i64,
    /// Columns on a leaf.
    pub leaf_col: usize,
    /// Width of the folded center gutter.
    pub leaf_center_width: i64,
    pub logo_text: Option<Vec<char>>,
    pub multirows_enabled: bool,
    pub multirows_count: usize,
}

impl CanvasConfig {
    pub open spec fn wf(self) -> bool {
        &&& 0 <= self.canvas_width <= COORD_LIMIT
        &&& 0 <= self.canvas_height <= COORD_LIMIT
        &&& -COORD_LIMIT <= self.margins_top <= COORD_LIMIT
        &&& -COORD_LIMIT <= self.margins_bottom <= COORD_LIMIT
        &&& -COORD_LIMIT <= self.margins_left <= COORD_LIMIT
        &&& -COORD_LIMIT <= self.margins_right <= COORD_LIMIT
        &&& -COORD_LIMIT <= self.leaf_center_width <= COORD_LIMIT
        &&& self.leaf_col <= COUNT_LIMIT
        &&& self.multirows_count <= COUNT_LIMIT
    }

    /// Rejects a degenerate canvas: non-positive dimensions, zero columns,
    /// or margins that meet or exceed the canvas.
    pub fn validate(&self) -> (r: Result<(), ConfigError>)
        requires
            self.wf(),
        ensures
            r == (if self.canvas_width <= 0 || self.canvas_height <= 0 {
                Err::<(), ConfigError>(ConfigError::NonPositiveCanvas)
            } else if self.leaf_col == 0 {
                Err::<(), ConfigError>(ConfigError::ZeroColumns)
            } else if self.margins_left + self.margins_right >= self.canvas_width {
                Err::<(), ConfigError>(ConfigError::MarginsExceedWidth)
            } else if self.margins_top + self.margins_bottom >= self.canvas_height {
                Err::<(), ConfigError>(ConfigError::MarginsExceedHeight)
            } else {
                Ok::<(), ConfigError>(())
            }),
    {
        if self.canvas_width <= 0 || self.canvas_height <= 0 {
            return Err(ConfigError::NonPositiveCanvas);
        }
        if self.leaf_col == 0 {
            return Err(ConfigError::ZeroColumns);
        }
        if self.margins_left + self.margins_right >= self.canvas_width {
            return Err(ConfigError::MarginsExceedWidth);
        }
        if self.margins_top + self.margins_bottom >= self.canvas_height {
            return Err(ConfigError::MarginsExceedHeight);
        }
        Ok(())
    }
}

} // verus!
