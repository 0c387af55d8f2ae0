//! End-to-end scenarios for the pagination engine and the document
//! assembler.

use vrain::config::{
    BookConfig, CanvasConfig, CoverConfig, MarkAdjust, PagerConfig, PunctuationConfig,
    ReplacementRules, TextModes, TitleConfig,
};
use vrain::color::Color;
use vrain::engine::{Cursor, LayoutEngine, PageSink};
use vrain::fonts::{FontBank, FontSlotStyle};
use vrain::layout::Layout;
use vrain::multirows::MultiRowsMode;
use vrain::numerals::NumeralMap;
use vrain::plan::TypesetOptions;
use vrain::preprocess::{TextCorpus, TextEntry};
use vrain::typesetter::Typesetter;

fn chars(s: &str) -> Vec<char> {
    s.chars().collect()
}

fn black() -> Color {
    Color { r: 0, g: 0, b: 0 }
}

fn mark_adjust(cs: &str) -> MarkAdjust {
    MarkAdjust {
        chars: chars(cs),
        scale_milli: 1000,
        offset_x_milli: 0,
        offset_y_milli: 0,
    }
}

fn test_book(row_num: usize) -> BookConfig {
    BookConfig {
        title: chars("试书"),
        author: chars("佚名"),
        canvas_id: chars("01"),
        row_num,
        row_delta_y: 0,
        multirows_horizontal_layout: 1,
        try_st: false,
        text_font_color: black(),
        comment_font_color: black(),
        cover: CoverConfig {
            title_font_size: 120_000,
            title_y: 200_000,
            author_font_size: 60_000,
            author_y: 600_000,
            color: black(),
        },
        title_style: TitleConfig {
            center: false,
            postfix: None,
            directory: false,
            font_size: 80_000,
            color: black(),
            y: 1_200_000,
            y_dis_milli: 1200,
        },
        pager_style: PagerConfig { font_size: 35_000, color: black(), y: 500_000 },
        replacements: ReplacementRules {
            comma_pairs: Vec::new(),
            number_pairs: Vec::new(),
            delete_tokens: Vec::new(),
        },
        text_modes: TextModes {
            remove_punctuations: false,
            remove_tokens: Vec::new(),
            only_period: false,
            only_period_tokens: Vec::new(),
            only_period_color: None,
        },
        punctuation: PunctuationConfig {
            text_nop: mark_adjust(""),
            text_rotate: mark_adjust(""),
            comment_nop: mark_adjust(""),
            comment_rotate: mark_adjust(""),
            comment_strip_chars: Vec::new(),
        },
        bookline: None,
        book_line_flag: false,
    }
}

fn test_canvas(columns: usize) -> CanvasConfig {
    CanvasConfig {
        canvas_width: 2_000_000,
        canvas_height: 3_000_000,
        margins_top: 100_000,
        margins_bottom: 100_000,
        margins_left: 100_000,
        margins_right: 100_000,
        leaf_col: columns,
        leaf_center_width: 200_000,
        logo_text: None,
        multirows_enabled: false,
        multirows_count: 1,
    }
}

fn wide_font_bank() -> FontBank {
    // One slot holding every character the tests draw.
    let glyphs = chars("甲乙丙丁戊己庚辛壬癸子丑寅卯辰巳午未申酉戌亥天地玄黄宇宙洪荒日月盈昃辰宿列张寒来暑往秋收冬藏□一二三四五 《》");
    FontBank {
        slots: vec![Some(FontSlotStyle {
            id: 1,
            rotate_mdeg: 0,
            text_size: 60_000,
            comment_size: 30_000,
            glyphs,
        })],
        text_stack: vec![1],
        comment_stack: vec![1],
    }
}

fn options() -> TypesetOptions {
    TypesetOptions { from: 1, to: 1, test_pages: None, verbose: false, cover_image: None }
}

fn build_layout(book: &BookConfig, canvas: &CanvasConfig) -> Layout {
    Layout::build(book, canvas, MultiRowsMode::Disabled).expect("layout must build")
}

fn forty_plain_chars() -> String {
    let pool = "天地玄黄宇宙洪荒日月盈昃辰宿列张寒来暑往";
    let mut s = String::new();
    for _ in 0..2 {
        s.push_str(pool);
    }
    s
}

#[test]
fn scenario_single_full_page() {
    // rowsPerLeaf=20, columns=2: capacity 40; 40 plain characters fill
    // exactly one page with no forced flip mid-stream.
    let book = test_book(20);
    let canvas = test_canvas(2);
    let layout = build_layout(&book, &canvas);
    assert_eq!(layout.capacity(), 40);
    let fonts = wide_font_bank();
    let opts = options();
    let engine = LayoutEngine { book: &book, layout: &layout, fonts: &fonts, options: &opts };
    let mut sink = PageSink::new();
    let mut cursor = Cursor { pcnt: 0, bookline_active: false, last_pos: None };
    let entry = chars(&forty_plain_chars());
    assert_eq!(entry.len(), 40);
    engine.process_entry(&entry, &chars("题"), &mut sink, &mut cursor);
    assert_eq!(cursor.pcnt, 40);
    assert_eq!(sink.pages.len(), 0);
    assert_eq!(sink.current.glyphs.len(), 40);
    assert_eq!(sink.next_page_number, 1);
    // Each glyph sits at its grid slot's main cell, centered in the
    // column: x is the cell's plus (cw - size) / 2, y is the cell's.
    for j in 0..40usize {
        let cell = layout.pos_left(j + 1).unwrap();
        let glyph = &sink.current.glyphs[j];
        assert_eq!(glyph.x, cell.x + (800_000 - 60_000) / 2);
        assert_eq!(glyph.y, cell.y);
        assert_eq!(glyph.ch, entry[j]);
    }
}

#[test]
fn scenario_page_break_marker() {
    // A `%` after the 10th character: two pages, the first with 10
    // glyphs, the second continuing the numbering with the remainder.
    let book = test_book(20);
    let canvas = test_canvas(2);
    let layout = build_layout(&book, &canvas);
    let fonts = wide_font_bank();
    let opts = options();
    let engine = LayoutEngine { book: &book, layout: &layout, fonts: &fonts, options: &opts };
    let mut sink = PageSink::new();
    let mut cursor = Cursor { pcnt: 0, bookline_active: false, last_pos: None };
    let mut text = String::from("天地玄黄宇宙洪荒日月");
    text.push('%');
    // The row padding the preprocessor would have embedded: 19 filler
    // characters the engine discards.
    for _ in 0..19 {
        text.push(' ');
    }
    text.push_str("盈昃辰宿列");
    let entry = chars(&text);
    engine.process_entry(&entry, &chars("题"), &mut sink, &mut cursor);
    assert_eq!(sink.pages.len(), 1);
    assert_eq!(sink.pages[0].number, 1);
    assert_eq!(sink.pages[0].glyphs.len(), 10);
    assert_eq!(sink.current.number, 2);
    assert_eq!(sink.current.glyphs.len(), 5);
    assert_eq!(cursor.pcnt, 5);
}

#[test]
fn scenario_annotation_block() {
    // `【甲乙丙】` holds 3 slot-consuming characters: the block consumes
    // ceil(3/2) = 2 slot pairs, advancing the slot counter by 2.
    let book = test_book(20);
    let canvas = test_canvas(2);
    let layout = build_layout(&book, &canvas);
    let fonts = wide_font_bank();
    let opts = options();
    let engine = LayoutEngine { book: &book, layout: &layout, fonts: &fonts, options: &opts };
    let mut sink = PageSink::new();
    let mut cursor = Cursor { pcnt: 0, bookline_active: false, last_pos: None };
    let entry = chars("【甲乙丙】");
    engine.process_entry(&entry, &chars("题"), &mut sink, &mut cursor);
    assert_eq!(cursor.pcnt, 2);
    assert_eq!(sink.current.glyphs.len(), 3);
    assert_eq!(sink.pages.len(), 0);
    // Packing order: the right half-cells of slots 1 and 2 top to
    // bottom, then the left half-cell of slot 1; annotation glyphs are
    // centered in the half-column and nudged a quarter row down.
    let cells = [
        layout.pos_right(1).unwrap(),
        layout.pos_right(2).unwrap(),
        layout.pos_left(1).unwrap(),
    ];
    for j in 0..3usize {
        let glyph = &sink.current.glyphs[j];
        assert_eq!(glyph.x, cells[j].x + (400_000 - 30_000) / 2);
        assert_eq!(glyph.y, cells[j].y + (140_000 - 30_000) / 4);
        assert_eq!(glyph.ch, entry[j + 1]);
    }
}

#[test]
fn scenario_half_leaf_jump() {
    // `$` at slot 0 is a no-op; at slot 5 with half 20 it jumps to 20.
    assert_eq!(vrain::engine::apply_half_leaf_jump(0, 40), 0);
    assert_eq!(vrain::engine::apply_half_leaf_jump(5, 40), 20);
    assert_eq!(vrain::engine::apply_half_leaf_jump(20, 40), 20);
    assert_eq!(vrain::engine::apply_half_leaf_jump(25, 40), 40);

    let book = test_book(20);
    let canvas = test_canvas(2);
    let layout = build_layout(&book, &canvas);
    let fonts = wide_font_bank();
    let opts = options();
    let engine = LayoutEngine { book: &book, layout: &layout, fonts: &fonts, options: &opts };
    let mut sink = PageSink::new();
    let mut cursor = Cursor { pcnt: 0, bookline_active: false, last_pos: None };
    let mut text = String::from("天地玄黄宇");
    text.push('$');
    for _ in 0..19 {
        text.push(' ');
    }
    let entry = chars(&text);
    engine.process_entry(&entry, &chars("题"), &mut sink, &mut cursor);
    assert_eq!(cursor.pcnt, 20);
}

#[test]
fn scenario_band_jump_and_last_column() {
    assert_eq!(vrain::engine::apply_band_jump(3, 10, 40), 10);
    assert_eq!(vrain::engine::apply_band_jump(35, 10, 40), 40);
    assert_eq!(vrain::engine::apply_last_column_jump(5, 20, 40), 20);
    assert_eq!(vrain::engine::apply_last_column_jump(22, 20, 40), 22);
    assert_eq!(vrain::engine::apply_last_column_jump(21, 20, 40), 20);
}

#[test]
fn build_plan_two_chapters() {
    let book = test_book(20);
    let canvas = test_canvas(2);
    let layout = build_layout(&book, &canvas);
    let fonts = wide_font_bank();
    let numerals = NumeralMap::new();
    let mut entries: Vec<Option<TextEntry>> = vec![None; 4];
    entries[1] = Some(TextEntry { name: chars("001.txt"), ordinal: 1, data: chars("天地玄黄") });
    entries[2] = Some(TextEntry { name: chars("002.txt"), ordinal: 2, data: chars("宇宙洪荒") });
    let corpus = TextCorpus { entries, has_text000: false, has_text999: false };
    let opts = TypesetOptions { from: 1, to: 2, test_pages: None, verbose: false, cover_image: None };
    let mut ts = Typesetter::new(&book, &layout, &fonts, &numerals, &corpus, opts).unwrap();
    let plan = ts.build_plan().expect("plan must build");
    // Chapter one fills four slots, chapter two flushes it and starts
    // page two; both pages emitted, numbered strictly increasing.
    assert_eq!(plan.pages.len(), 2);
    assert_eq!(plan.pages[0].number, 1);
    assert_eq!(plan.pages[1].number, 2);
    assert_eq!(plan.pages[0].glyphs.len(), 4);
    assert_eq!(plan.pages[1].glyphs.len(), 4);
    assert_eq!(plan.outlines.len(), 2);
    assert_eq!(plan.outlines[0].page_number, 1);
    assert_eq!(plan.outlines[1].page_number, 2);
    assert!(plan.validate().is_ok());
}

#[test]
fn build_plan_missing_entry() {
    let book = test_book(20);
    let canvas = test_canvas(2);
    let layout = build_layout(&book, &canvas);
    let fonts = wide_font_bank();
    let numerals = NumeralMap::new();
    let corpus = TextCorpus { entries: vec![None; 3], has_text000: false, has_text999: false };
    let opts = options();
    let mut ts = Typesetter::new(&book, &layout, &fonts, &numerals, &corpus, opts).unwrap();
    let err = ts.build_plan().unwrap_err();
    assert!(matches!(err, vrain::preprocess::CorpusError::MissingEntry { ordinal: 1 }));
}

#[test]
fn build_plan_respects_page_cap() {
    let book = test_book(20);
    let canvas = test_canvas(2);
    let layout = build_layout(&book, &canvas);
    let fonts = wide_font_bank();
    let numerals = NumeralMap::new();
    let mut text = String::new();
    let pool = forty_plain_chars();
    for _ in 0..3 {
        text.push_str(&pool);
    }
    let mut entries: Vec<Option<TextEntry>> = vec![None; 2];
    entries[1] = Some(TextEntry { name: chars("001.txt"), ordinal: 1, data: chars(&text) });
    let corpus = TextCorpus { entries, has_text000: false, has_text999: false };
    let opts = TypesetOptions {
        from: 1,
        to: 1,
        test_pages: Some(1),
        verbose: false,
        cover_image: None,
    };
    let mut ts = Typesetter::new(&book, &layout, &fonts, &numerals, &corpus, opts).unwrap();
    let plan = ts.build_plan().expect("plan must build");
    assert_eq!(plan.pages.len(), 1);
}

#[test]
fn variant_fallback_resolves_converted_character() {
    // The simplified character is absent from the font, its Traditional
    // conversion present: with the fallback enabled the drawn character
    // is the converted one.
    let mut book = test_book(20);
    book.try_st = true;
    let canvas = test_canvas(2);
    let layout = build_layout(&book, &canvas);
    let fonts = FontBank {
        slots: vec![Some(FontSlotStyle {
            id: 1,
            rotate_mdeg: 0,
            text_size: 60_000,
            comment_size: 30_000,
            glyphs: chars("國"),
        })],
        text_stack: vec![1],
        comment_stack: vec![1],
    };
    let opts = options();
    let engine = LayoutEngine { book: &book, layout: &layout, fonts: &fonts, options: &opts };
    let mut sink = PageSink::new();
    let mut cursor = Cursor { pcnt: 0, bookline_active: false, last_pos: None };
    let entry = chars("国");
    engine.process_entry(&entry, &chars("题"), &mut sink, &mut cursor);
    assert_eq!(sink.current.glyphs.len(), 1);
    assert_eq!(sink.current.glyphs[0].ch, '國');
}

#[test]
fn chapter_title_postfix_numeral() {
    let mut book = test_book(20);
    book.title_style.postfix = Some(chars("卷X"));
    let canvas = test_canvas(2);
    let layout = build_layout(&book, &canvas);
    let fonts = wide_font_bank();
    let numerals = NumeralMap::new();
    let mut entries: Vec<Option<TextEntry>> = vec![None; 13];
    entries[12] = Some(TextEntry { name: chars("012.txt"), ordinal: 12, data: chars("天") });
    let corpus = TextCorpus { entries, has_text000: false, has_text999: false };
    let opts = options();
    let ts = Typesetter::new(&book, &layout, &fonts, &numerals, &corpus, opts).unwrap();
    let title: String = ts.compute_entry_title(12).into_iter().collect();
    assert_eq!(title, "试书卷一二");
}

#[test]
fn bookline_draws_wavy_underlines() {
    // With the bookline feature on, the toggles are consumed silently
    // and each glyph between them gets a wavy underline.
    let mut book = test_book(20);
    book.book_line_flag = true;
    book.bookline = Some(vrain::config::BookLineConfig {
        width: 1000,
        color: Color { r: 0, g: 0, b: 0 },
    });
    let canvas = test_canvas(2);
    let layout = build_layout(&book, &canvas);
    let fonts = wide_font_bank();
    let opts = options();
    let engine = LayoutEngine { book: &book, layout: &layout, fonts: &fonts, options: &opts };
    let mut sink = PageSink::new();
    let mut cursor = Cursor { pcnt: 0, bookline_active: false, last_pos: None };
    let entry = chars("天《地玄》黄");
    engine.process_entry(&entry, &chars("题"), &mut sink, &mut cursor);
    // Four glyphs: the toggles draw nothing.
    assert_eq!(sink.current.glyphs.len(), 4);
    assert_eq!(cursor.pcnt, 4);
    // Underlines for the two glyphs inside the toggles.
    assert_eq!(sink.current.lines.len(), 2);
    assert!(sink.current.lines.iter().all(|l| l.wavy));
}

#[test]
fn bookline_disabled_renders_toggle_brackets() {
    // With the feature off the toggle characters fall through and draw
    // as ordinary glyphs.
    let book = test_book(20);
    let canvas = test_canvas(2);
    let layout = build_layout(&book, &canvas);
    let fonts = wide_font_bank();
    let opts = options();
    let engine = LayoutEngine { book: &book, layout: &layout, fonts: &fonts, options: &opts };
    let mut sink = PageSink::new();
    let mut cursor = Cursor { pcnt: 0, bookline_active: false, last_pos: None };
    let entry = chars("天《地》");
    engine.process_entry(&entry, &chars("题"), &mut sink, &mut cursor);
    assert_eq!(sink.current.glyphs.len(), 4);
    assert_eq!(cursor.pcnt, 4);
    assert!(sink.current.lines.is_empty());
}

#[test]
fn mark_classes_draw_without_or_with_slot() {
    // A non-slot mark attaches to the previous glyph's position without
    // consuming a slot; a rotated mark consumes one and draws at -90
    // degrees.
    let mut book = test_book(20);
    book.punctuation.text_nop.chars = chars("、");
    book.punctuation.text_rotate.chars = chars("（");
    let canvas = test_canvas(2);
    let layout = build_layout(&book, &canvas);
    let mut fonts = wide_font_bank();
    if let Some(slot) = fonts.slots[0].as_mut() {
        slot.glyphs.push('、');
        slot.glyphs.push('（');
    }
    let opts = options();
    let engine = LayoutEngine { book: &book, layout: &layout, fonts: &fonts, options: &opts };
    let mut sink = PageSink::new();
    let mut cursor = Cursor { pcnt: 0, bookline_active: false, last_pos: None };
    let entry = chars("天、（");
    engine.process_entry(&entry, &chars("题"), &mut sink, &mut cursor);
    assert_eq!(sink.current.glyphs.len(), 3);
    assert_eq!(cursor.pcnt, 2);
    let plain = &sink.current.glyphs[0];
    let nop = &sink.current.glyphs[1];
    let rot = &sink.current.glyphs[2];
    assert_eq!(plain.rotate_mdeg, 0);
    assert_eq!(rot.rotate_mdeg, -90_000);
    // The attached mark shares the previous glyph's grid cell.
    let cell1 = layout.pos_left(1).unwrap();
    let cell2 = layout.pos_left(2).unwrap();
    assert_eq!(nop.y, cell1.y);
    assert_eq!(rot.y, cell2.y);
}

#[test]
fn full_page_takes_orphan_mark_before_flip() {
    // When a plain character exactly fills the page and the next input
    // character is a non-slot mark, the mark attaches to the just-placed
    // glyph instead of opening a fresh page.
    let mut book = test_book(20);
    book.punctuation.text_nop.chars = chars("、");
    let canvas = test_canvas(2);
    let layout = build_layout(&book, &canvas);
    let mut fonts = wide_font_bank();
    if let Some(slot) = fonts.slots[0].as_mut() {
        slot.glyphs.push('、');
    }
    let opts = options();
    let engine = LayoutEngine { book: &book, layout: &layout, fonts: &fonts, options: &opts };
    let mut sink = PageSink::new();
    let mut cursor = Cursor { pcnt: 0, bookline_active: false, last_pos: None };
    let mut text = forty_plain_chars();
    text.push('、');
    text.push('日');
    let entry = chars(&text);
    engine.process_entry(&entry, &chars("题"), &mut sink, &mut cursor);
    // The mark joined page one (41 glyphs); the next plain character
    // flipped to page two.
    assert_eq!(sink.pages.len(), 1);
    assert_eq!(sink.pages[0].glyphs.len(), 41);
    assert_eq!(sink.current.number, 2);
    assert_eq!(sink.current.glyphs.len(), 1);
    assert_eq!(cursor.pcnt, 1);
}

#[test]
fn annotation_spills_into_next_column() {
    // Five consuming annotation characters need three slot pairs; with
    // only two slots left in the column, the packing continues in the
    // next one.
    let book = test_book(20);
    let canvas = test_canvas(2);
    let layout = build_layout(&book, &canvas);
    let fonts = wide_font_bank();
    let opts = options();
    let engine = LayoutEngine { book: &book, layout: &layout, fonts: &fonts, options: &opts };
    let mut sink = PageSink::new();
    let mut cursor = Cursor { pcnt: 18, bookline_active: false, last_pos: None };
    let entry = chars("【甲乙丙丁戊】");
    engine.process_entry(&entry, &chars("题"), &mut sink, &mut cursor);
    assert_eq!(sink.current.glyphs.len(), 5);
    // Two pairs fill the column to slot 20, the leftover pair lands in
    // the next column.
    assert_eq!(cursor.pcnt, 21);
    assert_eq!(sink.pages.len(), 0);
}

#[test]
fn step_marker_transitions() {
    // One walking step per marker, checked directly against the helper
    // jumps the contract names.
    let book = test_book(20);
    let canvas = test_canvas(2);
    let layout = build_layout(&book, &canvas);
    let fonts = wide_font_bank();
    let opts = options();
    let engine = LayoutEngine { book: &book, layout: &layout, fonts: &fonts, options: &opts };

    // `$` at slot 0 is a no-op; at slot 5 it jumps to the half; the
    // row padding after it is discarded.
    let mut text = String::from("$");
    for _ in 0..19 {
        text.push('x');
    }
    text.push('天');
    let entry = chars(&text);
    let mut sink = PageSink::new();
    let mut cursor = Cursor { pcnt: 0, bookline_active: false, last_pos: None };
    let (ni, stopped) = engine.step(&entry, 0, &chars("题"), &mut sink, &mut cursor);
    assert_eq!(cursor.pcnt, 0);
    assert_eq!(ni, 20);
    assert!(!stopped);
    cursor.pcnt = 5;
    let (_, _) = engine.step(&entry, 0, &chars("题"), &mut sink, &mut cursor);
    assert_eq!(cursor.pcnt, 20);
    cursor.pcnt = 25;
    let (_, _) = engine.step(&entry, 0, &chars("题"), &mut sink, &mut cursor);
    assert_eq!(cursor.pcnt, 40);

    // `&` at or before the last column's first slot jumps to its start.
    let mut text = String::from("&");
    for _ in 0..19 {
        text.push('x');
    }
    let entry = chars(&text);
    cursor.pcnt = 5;
    let (ni, _) = engine.step(&entry, 0, &chars("题"), &mut sink, &mut cursor);
    assert_eq!(cursor.pcnt, 20);
    assert_eq!(ni, 20);
    cursor.pcnt = 22;
    let (_, _) = engine.step(&entry, 0, &chars("题"), &mut sink, &mut cursor);
    assert_eq!(cursor.pcnt, 22);

    // `%` flushes the page, numbering continues, padding is discarded.
    let mut sink = PageSink::new();
    let mut cursor = Cursor { pcnt: 0, bookline_active: false, last_pos: None };
    let head = chars("天");
    engine.step(&head, 0, &chars("题"), &mut sink, &mut cursor);
    let mut text = String::from("%");
    for _ in 0..19 {
        text.push('x');
    }
    let entry = chars(&text);
    let (ni, stopped) = engine.step(&entry, 0, &chars("题"), &mut sink, &mut cursor);
    assert_eq!(ni, 20);
    assert!(!stopped);
    assert_eq!(sink.pages.len(), 1);
    assert_eq!(sink.pages[0].number, 1);
    assert_eq!(sink.next_page_number, 2);
    assert_eq!(cursor.pcnt, 0);
}

#[test]
fn step_band_jump_and_toggle() {
    // `^` with two bands jumps to the next band start and is laid out
    // as an ordinary character when banding is off.
    let book = test_book(20);
    let canvas = test_canvas(2);
    let banded = Layout::build(&book, &canvas, MultiRowsMode::HorizontalLeaf { rows: 2 }).unwrap();
    let fonts = wide_font_bank();
    let opts = options();
    let engine = LayoutEngine { book: &book, layout: &banded, fonts: &fonts, options: &opts };
    let entry = chars("^");
    let mut sink = PageSink::new();
    let mut cursor = Cursor { pcnt: 3, bookline_active: false, last_pos: None };
    let (ni, _) = engine.step(&entry, 0, &chars("题"), &mut sink, &mut cursor);
    // Band size is columns * rows_per_column = 20.
    assert_eq!(cursor.pcnt, 20);
    assert_eq!(ni, 1);

    // The toggles flip the underline state even when the feature is off
    // (the bracket then draws as an ordinary glyph).
    let flat = build_layout(&book, &canvas);
    let engine = LayoutEngine { book: &book, layout: &flat, fonts: &fonts, options: &opts };
    let entry = chars("《");
    let mut cursor = Cursor { pcnt: 0, bookline_active: false, last_pos: None };
    engine.step(&entry, 0, &chars("题"), &mut sink, &mut cursor);
    assert!(cursor.bookline_active);
    assert_eq!(cursor.pcnt, 1);
    let entry = chars("》");
    engine.step(&entry, 0, &chars("题"), &mut sink, &mut cursor);
    assert!(!cursor.bookline_active);
    assert_eq!(cursor.pcnt, 2);
}
