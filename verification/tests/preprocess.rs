//! Tests for the text preprocessor: padding arithmetic, annotation
//! counting, substitution rules, and whole-text processing.

use vrain::config::{
    BookConfig, CoverConfig, MarkAdjust, PagerConfig, PunctuationConfig, ReplacementRules,
    TextModes, TitleConfig,
};
use vrain::color::Color;
use vrain::preprocess::{
    apply_replacements, apply_text_modes, count_annotation_slots, missing_spaces, process_text,
    remove_chars, strip_annotations,
};

fn chars(s: &str) -> Vec<char> {
    s.chars().collect()
}

fn text(v: Vec<char>) -> String {
    v.into_iter().collect()
}

fn black() -> Color {
    Color { r: 0, g: 0, b: 0 }
}

fn mark_adjust(cs: &str) -> MarkAdjust {
    MarkAdjust {
        chars: chars(cs),
        scale_milli: 1000,
        offset_x_milli: 0,
        offset_y_milli: 0,
    }
}

fn plain_book(row_num: usize) -> BookConfig {
    BookConfig {
        title: chars("书"),
        author: chars("佚名"),
        canvas_id: chars("01"),
        row_num,
        row_delta_y: 0,
        multirows_horizontal_layout: 1,
        try_st: false,
        text_font_color: black(),
        comment_font_color: black(),
        cover: CoverConfig {
            title_font_size: 120_000,
            title_y: 200_000,
            author_font_size: 60_000,
            author_y: 600_000,
            color: black(),
        },
        title_style: TitleConfig {
            center: false,
            postfix: None,
            directory: false,
            font_size: 80_000,
            color: black(),
            y: 1_200_000,
            y_dis_milli: 1200,
        },
        pager_style: PagerConfig { font_size: 35_000, color: black(), y: 500_000 },
        replacements: ReplacementRules {
            comma_pairs: Vec::new(),
            number_pairs: Vec::new(),
            delete_tokens: Vec::new(),
        },
        text_modes: TextModes {
            remove_punctuations: false,
            remove_tokens: Vec::new(),
            only_period: false,
            only_period_tokens: Vec::new(),
            only_period_color: None,
        },
        punctuation: PunctuationConfig {
            text_nop: mark_adjust(""),
            text_rotate: mark_adjust(""),
            comment_nop: mark_adjust(""),
            comment_rotate: mark_adjust(""),
            comment_strip_chars: Vec::new(),
        },
        bookline: None,
        book_line_flag: false,
    }
}

#[test]
fn padding_reaches_column_boundary() {
    // A padded line always ends on a multiple of the rows per leaf,
    // with fewer than a full column of spaces.
    for total in 0..100usize {
        for row_num in 1..12usize {
            let missing = missing_spaces(total, row_num);
            assert_eq!((total + missing) % row_num, 0);
            assert!(missing < row_num);
        }
    }
}

#[test]
fn padding_is_idempotent() {
    // Once a line is padded onto a boundary, no further padding is due.
    for total in 0..100usize {
        for row_num in 1..12usize {
            let missing = missing_spaces(total, row_num);
            assert_eq!(missing_spaces(total + missing, row_num), 0);
        }
    }
    assert_eq!(missing_spaces(40, 20), 0);
    assert_eq!(missing_spaces(41, 20), 19);
    assert_eq!(missing_spaces(0, 20), 0);
    assert_eq!(missing_spaces(7, 0), 0);
}

#[test]
fn annotation_slots_round_up() {
    assert_eq!(count_annotation_slots(&chars("【甲乙丙】")), 2);
    assert_eq!(count_annotation_slots(&chars("【甲乙】")), 1);
    assert_eq!(count_annotation_slots(&chars("【甲】")), 1);
    assert_eq!(count_annotation_slots(&chars("【】")), 0);
    assert_eq!(count_annotation_slots(&chars("天【甲乙丙】地【丁】")), 3);
    // An unclosed bracket counts nothing.
    assert_eq!(count_annotation_slots(&chars("天【甲乙")), 0);
}

#[test]
fn annotations_are_stripped() {
    assert_eq!(text(strip_annotations(&chars("天【甲乙】地"))), "天地");
    assert_eq!(text(strip_annotations(&chars("【甲】【乙】"))), "");
    // An unclosed bracket and what follows it stay.
    assert_eq!(text(strip_annotations(&chars("天【甲"))), "天【甲");
}

#[test]
fn replacements_apply_in_order() {
    let rules = ReplacementRules {
        comma_pairs: vec![(',', chars("，"))],
        number_pairs: vec![('1', chars("一"))],
        delete_tokens: vec![chars("某")],
    };
    assert_eq!(text(apply_replacements(&chars("a,1某b"), &rules)), "a，一b");
}

#[test]
fn only_period_collapses() {
    let modes = TextModes {
        remove_punctuations: false,
        remove_tokens: Vec::new(),
        only_period: true,
        only_period_tokens: vec![chars("，"), chars("；")],
        only_period_color: None,
    };
    // Tokens become periods, runs collapse, and a leading period drops.
    assert_eq!(text(apply_text_modes(&chars("，天，；地；"), &modes)), "天。地。");
}

#[test]
fn remove_chars_filters_both_lists() {
    let out = remove_chars(&chars("天。地、玄"), &chars("。"), &chars("、"));
    assert_eq!(text(out), "天地玄");
}

#[test]
fn process_text_pads_each_line() {
    // Row count 4: "天地玄" pads with one space; "宇宙洪荒" needs none.
    let book = plain_book(4);
    let out = process_text(&chars("天地玄\n宇宙洪荒\n"), &book);
    assert_eq!(text(out), "天地玄 宇宙洪荒");
}

#[test]
fn process_text_counts_annotations_for_padding() {
    // "天【甲乙丙】": one main slot plus two annotation slots = 3 of 4,
    // so one space pads the unstripped line.
    let book = plain_book(4);
    let out = process_text(&chars("天【甲乙丙】"), &book);
    assert_eq!(text(out), "天【甲乙丙】 ");
}

#[test]
fn process_text_skips_blank_lines_and_whitespace() {
    let book = plain_book(2);
    let out = process_text(&chars("  \n\n天 地\n"), &book);
    assert_eq!(text(out), "天地");
}

#[test]
fn placeholder_becomes_blank_slot() {
    let book = plain_book(2);
    let out = process_text(&chars("天@地@"), &book);
    assert_eq!(text(out), "天 地 ");
}
