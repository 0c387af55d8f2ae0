//! Tests for the configuration text parsers, colors, numerals, the slot
//! grid, font resolution, and plan validation.

use vrain::color::{parse_hex_component, Color, ColorError};
use vrain::fonts::{FontBank, FontSlotStyle};
use vrain::layout::{Cell, Layout};
use vrain::multirows::MultiRowsMode;
use vrain::numerals::{fallback_digits, NumeralMap};
use vrain::plan::{
    CoverPlan, DocumentPlan, GlyphSpec, OutlineEntry, PagePlan, PlanError,
};
use vrain::rawcfg::{
    parse_bool, parse_char_list_from_pipe, parse_font_stack, parse_optional_string,
    parse_replace_pairs, parse_token_list, RawConfig, RawError,
};
use vrain::config::{
    BookConfig, CanvasConfig, ConfigError, CoverConfig, MarkAdjust, PagerConfig,
    PunctuationConfig, ReplacementRules, TextModes, TitleConfig,
};
use vrain::preprocess::{CorpusError, TextCorpus, TextEntry};

fn chars(s: &str) -> Vec<char> {
    s.chars().collect()
}

fn text(v: Vec<char>) -> String {
    v.into_iter().collect()
}

#[test]
fn raw_config_lines() {
    let cfg = RawConfig::from_text(&chars(
        "# comment\ntitle = 千字文\nrow_num = 20\nrow_num = 21\nbad\n=novalue\nmark =#1\n",
    ));
    assert_eq!(text(cfg.get(&chars("title")).unwrap().clone()), "千字文");
    // A later line overrides an earlier one.
    assert_eq!(cfg.parse_value(&chars("row_num")), Ok(21));
    // A line without `=` stores an empty value under its key.
    assert_eq!(text(cfg.get(&chars("bad")).unwrap().clone()), "");
    // A line whose key is empty is dropped.
    assert!(cfg.get(&chars("")).is_none());
    // `=#` keeps the inline hash in the value.
    assert_eq!(text(cfg.get(&chars("mark")).unwrap().clone()), "#1");
    assert_eq!(cfg.require(&chars("absent")).unwrap_err(), RawError::MissingKey);
    assert_eq!(cfg.parse_value(&chars("title")).unwrap_err(), RawError::BadNumber);
    assert_eq!(cfg.parse_value(&chars("absent")).unwrap_err(), RawError::MissingKey);
}

#[test]
fn comment_line_after_spaces_is_dropped() {
    let cfg = RawConfig::from_text(&chars("  # note = 1\nkey = v # trailing\n"));
    assert!(cfg.get(&chars("note")).is_none());
    assert_eq!(text(cfg.get(&chars("key")).unwrap().clone()), "v");
}

#[test]
fn pipe_lists() {
    let toks = parse_token_list(Some(&chars("a|bc||d")));
    let toks: Vec<String> = toks.into_iter().map(text).collect();
    assert_eq!(toks, vec!["a", "bc", "d"]);

    let firsts = parse_char_list_from_pipe(Some(&chars("。x|、|")));
    assert_eq!(firsts, vec!['。', '、']);

    let pairs = parse_replace_pairs(Some(&chars(",，|;；x|z")));
    assert_eq!(pairs.len(), 2);
    assert_eq!(pairs[0].0, ',');
    assert_eq!(text(pairs[0].1.clone()), "，");
    assert_eq!(pairs[1].0, ';');
    assert_eq!(text(pairs[1].1.clone()), "；x");

    assert_eq!(parse_font_stack(Some(&chars("132 9a05"))), vec![1, 3, 2, 5]);
    assert!(parse_font_stack(None).is_empty());

    assert!(parse_bool(Some(&chars(" 1 "))));
    assert!(!parse_bool(Some(&chars("0"))));
    assert!(!parse_bool(None));

    assert_eq!(parse_optional_string(Some(&chars("  "))), None);
    assert_eq!(text(parse_optional_string(Some(&chars(" ab "))).unwrap()), "ab");
}

#[test]
fn colors_parse() {
    assert_eq!(Color::parse(&chars("black")), Ok(Color { r: 0, g: 0, b: 0 }));
    assert_eq!(Color::parse(&chars("White")), Ok(Color { r: 255, g: 255, b: 255 }));
    assert_eq!(Color::parse(&chars("GREY")), Ok(Color { r: 128, g: 128, b: 128 }));
    assert_eq!(Color::parse(&chars("#fff")), Ok(Color { r: 255, g: 255, b: 255 }));
    assert_eq!(Color::parse(&chars("#102030")), Ok(Color { r: 16, g: 32, b: 48 }));
    assert_eq!(Color::parse(&chars("")), Err(ColorError::Empty));
    assert_eq!(Color::parse(&chars("#12")), Err(ColorError::BadHex));
    assert_eq!(Color::parse(&chars("#12x")), Err(ColorError::BadHex));
    assert_eq!(Color::parse(&chars("mauve")), Err(ColorError::UnknownName));
    assert_eq!(parse_hex_component('a'), Ok(10));
    assert_eq!(parse_hex_component('F'), Ok(15));
    assert_eq!(parse_hex_component('g'), Err(ColorError::BadHex));
}

#[test]
fn numeral_fallback_digit_substitution() {
    // With no table entry, 12 renders as the two digit symbols, not a
    // grammatical numeral.
    let map = NumeralMap::new();
    assert_eq!(text(map.render(12)), "一二");
    assert_eq!(text(fallback_digits(0)), "〇");
    assert_eq!(text(fallback_digits(305)), "三〇五");
}

#[test]
fn numeral_table_entry_wins() {
    let mut map = NumeralMap::new();
    map.insert_entry(12, chars("十二"));
    assert_eq!(text(map.render(12)), "十二");
    assert_eq!(text(map.render(13)), "一三");
    assert_eq!(text(map.get(12).unwrap().clone()), "十二");
    assert!(map.get(13).is_none());
}

#[test]
fn multirows_mode_selection() {
    assert_eq!(MultiRowsMode::from_flags(false, 4, 1), MultiRowsMode::Disabled);
    assert_eq!(MultiRowsMode::from_flags(true, 1, 1), MultiRowsMode::Disabled);
    assert_eq!(
        MultiRowsMode::from_flags(true, 2, 1),
        MultiRowsMode::HorizontalLeaf { rows: 2 }
    );
    assert_eq!(
        MultiRowsMode::from_flags(true, 2, 2),
        MultiRowsMode::HorizontalPage { rows: 2 }
    );
    assert_eq!(
        MultiRowsMode::from_flags(true, 3, 7),
        MultiRowsMode::HorizontalLeaf { rows: 3 }
    );
}

fn small_canvas() -> CanvasConfig {
    CanvasConfig {
        canvas_width: 2_000_000,
        canvas_height: 3_000_000,
        margins_top: 100_000,
        margins_bottom: 100_000,
        margins_left: 100_000,
        margins_right: 100_000,
        leaf_col: 2,
        leaf_center_width: 200_000,
        logo_text: None,
        multirows_enabled: false,
        multirows_count: 1,
    }
}

fn small_book(row_num: usize) -> BookConfig {
    let black = Color { r: 0, g: 0, b: 0 };
    let adj = |cs: &str| MarkAdjust {
        chars: chars(cs),
        scale_milli: 1000,
        offset_x_milli: 0,
        offset_y_milli: 0,
    };
    BookConfig {
        title: chars("书"),
        author: chars("佚名"),
        canvas_id: chars("01"),
        row_num,
        row_delta_y: 0,
        multirows_horizontal_layout: 1,
        try_st: false,
        text_font_color: black,
        comment_font_color: black,
        cover: CoverConfig {
            title_font_size: 120_000,
            title_y: 200_000,
            author_font_size: 60_000,
            author_y: 600_000,
            color: black,
        },
        title_style: TitleConfig {
            center: false,
            postfix: None,
            directory: false,
            font_size: 80_000,
            color: black,
            y: 1_200_000,
            y_dis_milli: 1200,
        },
        pager_style: PagerConfig { font_size: 35_000, color: black, y: 500_000 },
        replacements: ReplacementRules {
            comma_pairs: Vec::new(),
            number_pairs: Vec::new(),
            delete_tokens: Vec::new(),
        },
        text_modes: TextModes {
            remove_punctuations: false,
            remove_tokens: Vec::new(),
            only_period: false,
            only_period_tokens: Vec::new(),
            only_period_color: None,
        },
        punctuation: PunctuationConfig {
            text_nop: adj(""),
            text_rotate: adj(""),
            comment_nop: adj(""),
            comment_rotate: adj(""),
            comment_strip_chars: Vec::new(),
        },
        bookline: None,
        book_line_flag: false,
    }
}

#[test]
fn layout_capacity_and_tables() {
    // capacity == columns * rowsPerColumn * bands, and both position
    // tables hold exactly capacity + 1 cells with the origin sentinel.
    let book = small_book(20);
    let canvas = small_canvas();
    let layout = Layout::build(&book, &canvas, MultiRowsMode::Disabled).unwrap();
    assert_eq!(layout.capacity(), 40);
    assert_eq!(layout.pos_l.len(), 41);
    assert_eq!(layout.pos_r.len(), 41);
    assert_eq!(layout.pos_left(0), Some(Cell { x: 0, y: 0 }));
    assert_eq!(layout.pos_right(0), Some(Cell { x: 0, y: 0 }));
    assert_eq!(layout.pos_left(41), None);
    // cw = (2_000_000 - 100_000 - 100_000 - 200_000) / 2, rh likewise.
    assert_eq!(layout.cw, 800_000);
    assert_eq!(layout.rh, 140_000);
    // Slot 1: first column from the right, first row.
    assert_eq!(
        layout.pos_left(1),
        Some(Cell { x: 2_000_000 - 100_000 - 800_000, y: 3_000_000 - 100_000 - 140_000 })
    );
    // The annotation position sits half a column right of the main one.
    let p21 = layout.pos_left(21).unwrap();
    let r21 = layout.pos_right(21).unwrap();
    assert_eq!(r21.x - p21.x, 400_000);
    // Column 2 lies past the half-way point: the gutter is subtracted.
    assert_eq!(p21.x, 2_000_000 - 100_000 - 2 * 800_000 - 200_000);
}

#[test]
fn layout_rejects_bad_geometry() {
    let book = small_book(20);
    let mut canvas = small_canvas();
    canvas.leaf_col = 0;
    assert_eq!(
        Layout::build(&book, &canvas, MultiRowsMode::Disabled).unwrap_err(),
        ConfigError::ZeroColumns
    );
    let book0 = small_book(0);
    let canvas = small_canvas();
    assert_eq!(
        Layout::build(&book0, &canvas, MultiRowsMode::Disabled).unwrap_err(),
        ConfigError::ZeroRows
    );
    let book = small_book(20);
    assert_eq!(
        Layout::build(&book, &canvas, MultiRowsMode::HorizontalLeaf { rows: 3 }).unwrap_err(),
        ConfigError::BandsDoNotDivideRows
    );
    let layout =
        Layout::build(&book, &canvas, MultiRowsMode::HorizontalLeaf { rows: 2 }).unwrap();
    assert_eq!(layout.rows_per_column, 10);
    assert_eq!(layout.multirows_bands, 2);
    assert_eq!(layout.capacity(), 40);
}

#[test]
fn font_stack_is_strict_priority() {
    // A character present in the first slot always resolves there, even
    // when a later slot also holds it.
    let slot = |id: usize, glyphs: &str| FontSlotStyle {
        id,
        rotate_mdeg: 0,
        text_size: 60_000,
        comment_size: 30_000,
        glyphs: chars(glyphs),
    };
    let bank = FontBank {
        slots: vec![Some(slot(1, "甲乙")), Some(slot(2, "甲丙"))],
        text_stack: vec![2, 1],
        comment_stack: vec![1, 2],
    };
    assert_eq!(bank.pick_font('甲', &bank.text_stack), Some(2));
    assert_eq!(bank.pick_font('乙', &bank.text_stack), Some(1));
    assert_eq!(bank.pick_font('丙', &bank.text_stack), Some(2));
    assert_eq!(bank.pick_font('丁', &bank.text_stack), None);
    assert!(bank.has_glyph(1, '甲'));
    assert!(!bank.has_glyph(0, '甲'));
    assert!(!bank.has_glyph(3, '甲'));
}

fn page(number: usize, with_glyph: bool) -> PagePlan {
    let glyphs = if with_glyph {
        vec![GlyphSpec {
            ch: '天',
            font_idx: 1,
            font_size: 60_000,
            x: 0,
            y: 0,
            rotate_mdeg: 0,
            color: Color { r: 0, g: 0, b: 0 },
        }]
    } else {
        Vec::new()
    };
    PagePlan { number, title: chars("题"), glyphs, lines: Vec::new() }
}

#[test]
fn plan_validation() {
    let good = DocumentPlan {
        cover: CoverPlan::Generated,
        cover_path: None,
        pages: vec![page(1, true), page(3, true)],
        outlines: vec![OutlineEntry { title: chars("题"), page_number: 3 }],
    };
    assert!(good.validate().is_ok());

    let missing_cover = DocumentPlan {
        cover: CoverPlan::Image,
        cover_path: None,
        pages: Vec::new(),
        outlines: Vec::new(),
    };
    assert_eq!(missing_cover.validate(), Err(PlanError::CoverPathMissing));

    let zero_page = DocumentPlan {
        cover: CoverPlan::Generated,
        cover_path: None,
        pages: vec![page(0, true)],
        outlines: Vec::new(),
    };
    assert_eq!(zero_page.validate(), Err(PlanError::PageNumberZero));

    let out_of_order = DocumentPlan {
        cover: CoverPlan::Generated,
        cover_path: None,
        pages: vec![page(2, true), page(2, true)],
        outlines: Vec::new(),
    };
    assert_eq!(out_of_order.validate(), Err(PlanError::PageNumberNotIncreasing));

    let dangling = DocumentPlan {
        cover: CoverPlan::Generated,
        cover_path: None,
        pages: vec![page(1, true)],
        outlines: vec![OutlineEntry { title: chars("题"), page_number: 9 }],
    };
    assert_eq!(dangling.validate(), Err(PlanError::OutlineMissingPage));
}

#[test]
fn corpus_lookup_and_total() {
    let mut entries: Vec<Option<TextEntry>> = vec![None; 5];
    entries[2] = Some(TextEntry { name: chars("002.txt"), ordinal: 2, data: chars("天") });
    let corpus = TextCorpus { entries, has_text000: false, has_text999: false };
    assert_eq!(corpus.total_entries(), 2);
    assert!(corpus.entry(2).is_ok());
    assert_eq!(corpus.entry(3).unwrap_err(), CorpusError::MissingEntry { ordinal: 3 });
    assert_eq!(corpus.entry(9).unwrap_err(), CorpusError::MissingEntry { ordinal: 9 });
    let empty = TextCorpus { entries: vec![None; 3], has_text000: false, has_text999: false };
    assert_eq!(empty.total_entries(), 0);
}

#[test]
fn layout_band_modes_order_slots_differently() {
    // Two bands over 20 rows: ten rows per column. The leaf-level split
    // finishes each band's columns before the next band; the page-level
    // split enumerates the left-half columns of every band first.
    let book = small_book(20);
    let canvas = small_canvas();
    let leaf = Layout::build(&book, &canvas, MultiRowsMode::HorizontalLeaf { rows: 2 }).unwrap();
    let page = Layout::build(&book, &canvas, MultiRowsMode::HorizontalPage { rows: 2 }).unwrap();
    assert_eq!(leaf.capacity(), 40);
    assert_eq!(page.capacity(), 40);
    // Slot 11 under the leaf split: band 0, column 2, row 1.
    assert_eq!(
        leaf.pos_left(11),
        Some(Cell { x: 100_000, y: 3_000_000 - 100_000 - 140_000 })
    );
    // Slot 11 under the page split: band 1, column 1, row 1.
    assert_eq!(
        page.pos_left(11),
        Some(Cell { x: 1_100_000, y: 3_000_000 - 100_000 - 11 * 140_000 })
    );
}

#[test]
fn parse_value_sign_and_overflow() {
    let cfg = RawConfig::from_text(&chars(
        "plus = +12\nhuge = 99999999999999999999999999\nneg = -3\n",
    ));
    assert_eq!(cfg.parse_value(&chars("plus")), Ok(12));
    assert_eq!(cfg.parse_value(&chars("huge")).unwrap_err(), RawError::BadNumber);
    assert_eq!(cfg.parse_value(&chars("neg")).unwrap_err(), RawError::BadNumber);
}
