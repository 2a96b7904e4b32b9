use zelland::row_runs::{
    build_row_runs, cell_text_of, ghostty_color_to_rgb, row_spans, update_row_cache, Cell, CellRun, CellStyle, RowUpdate,
    StyleColor,
};

fn style(fg: StyleColor, bold: bool) -> CellStyle {
    CellStyle { fg_color: fg, bg_color: StyleColor::Default, bold, italic: false, inverse: false }
}

fn cell(text: &str, s: CellStyle) -> Cell {
    Cell { style: s, graphemes: text.chars().map(|c| c as u32).collect() }
}

#[test]
fn test_color_to_rgb() {
    assert_eq!(ghostty_color_to_rgb(StyleColor::Default), None);
    assert_eq!(ghostty_color_to_rgb(StyleColor::Palette(1)), Some((170, 0, 0)));
    assert_eq!(ghostty_color_to_rgb(StyleColor::Palette(196)), Some((255, 0, 0)));
    assert_eq!(ghostty_color_to_rgb(StyleColor::Rgb(1, 2, 3)), Some((1, 2, 3)));
}

#[test]
fn test_cell_text() {
    assert_eq!(cell_text_of(&[]), " ");
    assert_eq!(cell_text_of(&['a' as u32, 0x301]), "a\u{301}");
    // A surrogate is dropped.
    assert_eq!(cell_text_of(&[0xD800, 'b' as u32]), "b");
}

#[test]
fn test_runs_group_equal_styles() {
    let plain = style(StyleColor::Default, false);
    let red_bold = style(StyleColor::Palette(1), true);
    let cells = vec![
        cell("l", plain),
        cell("s", plain),
        Cell { style: plain, graphemes: vec![] },
        cell("E", red_bold),
        cell("R", red_bold),
        cell("!", plain),
    ];
    let runs = build_row_runs(&cells);
    assert_eq!(runs.len(), 3);
    assert_eq!(runs[0].text, "ls ");
    assert_eq!(runs[0].fg, (255, 255, 255));
    assert!(!runs[0].bold);
    assert_eq!(runs[1].text, "ER");
    assert_eq!(runs[1].fg, (170, 0, 0));
    assert!(runs[1].bold);
    assert_eq!(runs[2].text, "!");
}

#[test]
fn test_runs_inverse_uses_background() {
    let inv = CellStyle {
        fg_color: StyleColor::Rgb(9, 9, 9),
        bg_color: StyleColor::Default,
        bold: false,
        italic: true,
        inverse: true,
    };
    let runs = build_row_runs(&vec![cell("x", inv)]);
    assert_eq!(runs.len(), 1);
    assert_eq!(runs[0].fg, (0, 0, 0));
    assert!(runs[0].italic);
    assert!(build_row_runs(&vec![]).is_empty());
}

#[test]
fn test_runs_skip_empty_text() {
    let a = style(StyleColor::Default, false);
    let b = style(StyleColor::Palette(2), false);
    // The middle cell has no valid character, so its run is dropped.
    let cells = vec![cell("x", a), Cell { style: b, graphemes: vec![0xDFFF] }, cell("y", a)];
    let runs = build_row_runs(&cells);
    assert_eq!(runs.len(), 2);
    assert_eq!(runs[0].text, "x");
    assert_eq!(runs[1].text, "y");
}

fn row(line: u16, dirty: bool, text: &str) -> RowUpdate {
    let plain = style(StyleColor::Default, false);
    RowUpdate { line, dirty, cells: text.chars().map(|c| cell(&c.to_string(), plain)).collect() }
}

fn texts(cache: &Vec<Vec<CellRun>>) -> Vec<String> {
    cache.iter().map(|r| r.iter().map(|x| x.text.clone()).collect::<String>()).collect()
}

#[test]
fn test_row_cache_updates_and_shrinks() {
    let mut cache: Vec<Vec<CellRun>> = Vec::new();
    // New rows are built even when not dirty; a gap is filled with empty rows.
    assert!(update_row_cache(&mut cache, &vec![row(0, false, "ab"), row(2, false, "cd")], 24));
    assert_eq!(texts(&cache), vec!["ab".to_string(), String::new(), "cd".to_string()]);
    // A clean frame changes nothing.
    assert!(!update_row_cache(&mut cache, &vec![row(0, false, "zz"), row(1, false, "zz")], 24));
    assert_eq!(texts(&cache)[0], "ab");
    // A dirty row with the same text is no change; with other text it is.
    assert!(!update_row_cache(&mut cache, &vec![row(0, true, "ab")], 24));
    assert!(update_row_cache(&mut cache, &vec![row(1, true, "xy")], 24));
    assert_eq!(texts(&cache)[1], "xy");
    // A smaller terminal drops the rows past its end.
    assert!(update_row_cache(&mut cache, &vec![], 2));
    assert_eq!(cache.len(), 2);
}

#[test]
fn test_row_spans_break_between_rows() {
    let mut cache: Vec<Vec<CellRun>> = Vec::new();
    update_row_cache(&mut cache, &vec![row(0, true, "ab"), row(1, true, "c")], 24);
    let spans = row_spans(&cache);
    let joined: String = spans.iter().map(|s| s.text.clone()).collect();
    assert_eq!(joined, "ab\nc");
    assert_eq!(spans.len(), 3);
    assert_eq!(spans[1].fg, (255, 255, 255));
    assert!(row_spans(&Vec::new()).is_empty());
}
