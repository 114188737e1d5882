use url_tracker::point::{Point, Rgb};
use url_tracker::ui::{ModifiersState, Mouse, UrlConfig};
use url_tracker::url::{CellFlags, RenderableCell, Urls};

const BLACK: Rgb = Rgb { r: 0, g: 0, b: 0 };

fn plain_flags() -> CellFlags {
    CellFlags { wide_char: false, leading_wide_char_spacer: false, wrapline: false }
}

fn text_to_cells(text: &str) -> Vec<RenderableCell> {
    text.chars()
        .enumerate()
        .map(|(i, character)| RenderableCell {
            character,
            point: Point::new(0, i),
            fg: BLACK,
            flags: plain_flags(),
        })
        .collect()
}

fn scan(cells: &[RenderableCell], num_cols: usize) -> Urls {
    let mut urls = Urls::new();
    for cell in cells {
        urls.update(num_cols, cell);
    }
    urls
}

#[test]
fn multi_color_url() {
    let mut input = text_to_cells("test https://example.org ing");
    let num_cols = input.len();

    input[10].fg = Rgb { r: 0xff, g: 0x00, b: 0xff };

    let urls = scan(&input, num_cols);

    let url = urls.urls().first().unwrap();
    assert_eq!(url.start().column, 5);
    assert_eq!(url.end().column, 23);
}

#[test]
fn multiple_urls() {
    let input = text_to_cells("test git:a git:b git:c ing");
    let num_cols = input.len();

    let urls = scan(&input, num_cols);

    assert_eq!(urls.urls().len(), 3);

    assert_eq!(urls.urls()[0].start().column, 5);
    assert_eq!(urls.urls()[0].end().column, 9);

    assert_eq!(urls.urls()[1].start().column, 11);
    assert_eq!(urls.urls()[1].end().column, 15);

    assert_eq!(urls.urls()[2].start().column, 17);
    assert_eq!(urls.urls()[2].end().column, 21);
}

#[test]
fn wide_urls() {
    let input = text_to_cells("test https://こんにちは (http:여보세요) ing");
    let num_cols = input.len() + 9;

    let urls = scan(&input, num_cols);

    assert_eq!(urls.urls().len(), 2);

    assert_eq!(urls.urls()[0].start().column, 5);
    assert_eq!(urls.urls()[0].end().column, 17);

    assert_eq!(urls.urls()[1].start().column, 20);
    assert_eq!(urls.urls()[1].end().column, 28);
}

#[test]
fn color_change_splits_runs() {
    let mut input = text_to_cells("test https://example.org ing");
    let num_cols = input.len();
    input[10].fg = Rgb { r: 0xff, g: 0x00, b: 0xff };

    let urls = scan(&input, num_cols);
    assert_eq!(urls.urls().len(), 1);
    let runs = urls.urls()[0].rects();
    assert_eq!(runs.len(), 3);
    assert_eq!((runs[0].start.column, runs[0].end.column), (5, 9));
    assert_eq!((runs[1].start.column, runs[1].end.column), (10, 10));
    assert_eq!(runs[1].color, Rgb { r: 0xff, g: 0x00, b: 0xff });
    assert_eq!((runs[2].start.column, runs[2].end.column), (11, 23));
}

#[test]
fn one_color_makes_one_run() {
    let input = text_to_cells("test https://example.org ing");
    let urls = scan(&input, input.len());
    let runs = urls.urls()[0].rects();
    assert_eq!(runs.len(), 1);
    assert_eq!((runs[0].start.column, runs[0].end.column), (5, 23));
}

#[test]
fn flagged_wide_characters_take_two_columns() {
    // "x http:世界 y", each wide character followed by a spacer column.
    let chars = [('x', false), (' ', false), ('h', false), ('t', false), ('t', false),
        ('p', false), (':', false), ('世', true), ('界', true), (' ', false), ('y', false)];
    let mut cells = Vec::new();
    let mut column = 0;
    for (character, wide) in chars {
        let flags = CellFlags { wide_char: wide, ..plain_flags() };
        cells.push(RenderableCell { character, point: Point::new(0, column), fg: BLACK, flags });
        column += if wide { 2 } else { 1 };
    }

    let urls = scan(&cells, 20);
    assert_eq!(urls.urls().len(), 1);
    assert_eq!(urls.urls()[0].start(), Point::new(0, 2));
    assert_eq!(urls.urls()[0].end(), Point::new(0, 10));
}

fn two_rows(first_wraps: bool) -> Vec<RenderableCell> {
    let mut cells = Vec::new();
    for (line, text) in ["ab http:xy", "zz more"].iter().enumerate() {
        for (column, character) in text.chars().enumerate() {
            let wrapline = line == 0 && column == 9 && first_wraps;
            let flags = CellFlags { wrapline, ..plain_flags() };
            cells.push(RenderableCell { character, point: Point::new(line, column), fg: BLACK, flags });
        }
    }
    cells
}

#[test]
fn hard_line_break_ends_url() {
    let urls = scan(&two_rows(false), 10);
    assert_eq!(urls.urls().len(), 1);
    assert_eq!(urls.urls()[0].start(), Point::new(0, 3));
    assert_eq!(urls.urls()[0].end(), Point::new(0, 9));
}

#[test]
fn soft_wrap_continues_url() {
    let urls = scan(&two_rows(true), 10);
    assert_eq!(urls.urls().len(), 1);
    assert_eq!(urls.urls()[0].start(), Point::new(0, 3));
    assert_eq!(urls.urls()[0].end(), Point::new(1, 1));
    let runs = urls.urls()[0].rects();
    assert_eq!(runs.len(), 1);
    assert_eq!(runs[0].end, Point::new(1, 1));
}

#[test]
fn trailing_punctuation_shrinks_end_only() {
    let cells = text_to_cells("see git:ab.. x");
    let num_cols = cells.len();
    let mut urls = Urls::new();
    for cell in &cells[..10] {
        urls.update(num_cols, cell);
    }
    assert_eq!(urls.urls()[0].end().column, 9);
    let runs_before = urls.urls()[0].rects().len();

    urls.update(num_cols, &cells[10]);
    urls.update(num_cols, &cells[11]);
    assert_eq!(urls.urls().len(), 1);
    assert_eq!(urls.urls()[0].end().column, 9);
    assert_eq!(urls.urls()[0].rects().len(), runs_before);
    assert_eq!(urls.urls()[0].rects()[0].end.column, 9);
}

#[test]
fn skipped_cell_resets_scan() {
    let mut cells = text_to_cells("http:ab");
    for (i, cell) in cells.iter_mut().enumerate() {
        if i >= 5 {
            cell.point.column += 1;
        }
    }
    let urls = scan(&cells, 20);
    assert_eq!(urls.urls().len(), 0);
}

#[test]
fn scanning_in_parts_matches_one_pass() {
    let cells = text_to_cells("test git:a git:b git:c ing");
    let num_cols = cells.len();
    let whole = scan(&cells, num_cols);
    let mut parts = Urls::new();
    for cell in &cells[..13] {
        parts.update(num_cols, cell);
    }
    for cell in &cells[13..] {
        parts.update(num_cols, cell);
    }
    assert_eq!(whole.urls().len(), parts.urls().len());
    for (a, b) in whole.urls().iter().zip(parts.urls().iter()) {
        assert_eq!(a.start(), b.start());
        assert_eq!(a.end(), b.end());
        assert_eq!(a.rects(), b.rects());
    }
}

#[test]
fn find_at_covers_url_cells_only() {
    let cells = text_to_cells("test git:a git:b git:c ing");
    let urls = scan(&cells, cells.len());
    assert!(urls.find_at(Point::new(0, 4)).is_none());
    assert_eq!(urls.find_at(Point::new(0, 5)).unwrap().start().column, 5);
    assert_eq!(urls.find_at(Point::new(0, 9)).unwrap().start().column, 5);
    assert!(urls.find_at(Point::new(0, 10)).is_none());
    assert_eq!(urls.find_at(Point::new(0, 15)).unwrap().start().column, 11);
    assert!(urls.find_at(Point::new(1, 5)).is_none());
}

fn no_mods() -> ModifiersState {
    ModifiersState { shift: false, ctrl: false, alt: false, logo: false }
}

fn pointer_at(column: usize) -> Mouse {
    Mouse { inside_text_area: true, line: 0, column, left_button_pressed: false }
}

#[test]
fn highlighted_respects_gating() {
    let cells = text_to_cells("test git:a ing");
    let urls = scan(&cells, cells.len());
    let config = UrlConfig { mods: no_mods(), launcher_configured: true };
    let mouse = pointer_at(7);

    assert_eq!(urls.highlighted(&config, &mouse, no_mods(), false, false).unwrap().start().column, 5);
    assert!(urls.highlighted(&config, &pointer_at(2), no_mods(), false, false).is_none());

    assert!(urls.highlighted(&config, &mouse, no_mods(), false, true).is_none());
    let outside = Mouse { inside_text_area: false, ..mouse };
    assert!(urls.highlighted(&config, &outside, no_mods(), false, false).is_none());
    let no_launcher = UrlConfig { launcher_configured: false, ..config };
    assert!(urls.highlighted(&no_launcher, &mouse, no_mods(), false, false).is_none());
    let ctrl = ModifiersState { ctrl: true, ..no_mods() };
    assert!(urls.highlighted(&config, &mouse, ctrl, false, false).is_none());
    let pressed = Mouse { left_button_pressed: true, ..mouse };
    assert!(urls.highlighted(&config, &pressed, no_mods(), false, false).is_none());
}

#[test]
fn mouse_mode_requires_shift() {
    let cells = text_to_cells("test git:a ing");
    let urls = scan(&cells, cells.len());
    let config = UrlConfig { mods: no_mods(), launcher_configured: true };
    let mouse = pointer_at(7);
    let shift = ModifiersState { shift: true, ..no_mods() };
    assert!(urls.highlighted(&config, &mouse, no_mods(), true, false).is_none());
    assert!(urls.highlighted(&config, &mouse, shift, true, false).is_some());
    assert!(urls.highlighted(&config, &mouse, shift, false, false).is_none());
}

#[test]
fn retreat_borrows_rows() {
    assert_eq!(Point::new(1, 2).retreat(10, 5), Point::new(0, 7));
    assert_eq!(Point::new(3, 4).retreat(10, 24), Point::new(1, 0));
    assert_eq!(Point::new(0, 2).retreat(10, 5), Point::new(0, 0));
    assert_eq!(Point::new(2, 2).retreat(10, 0), Point::new(2, 2));
}

#[test]
fn scan_order_comparison() {
    assert!(Point::new(0, 9).le(Point::new(1, 0)));
    assert!(Point::new(1, 3).le(Point::new(1, 3)));
    assert!(!Point::new(1, 4).le(Point::new(1, 3)));
}

#[test]
fn leading_spacer_continues_url_on_next_row() {
    let mut cells = Vec::new();
    for (column, character) in "ab http:x".chars().enumerate() {
        cells.push(RenderableCell { character, point: Point::new(0, column), fg: BLACK, flags: plain_flags() });
    }
    let spacer = CellFlags { leading_wide_char_spacer: true, wrapline: true, ..plain_flags() };
    cells.push(RenderableCell { character: ' ', point: Point::new(0, 9), fg: BLACK, flags: spacer });
    let wide = CellFlags { wide_char: true, ..plain_flags() };
    cells.push(RenderableCell { character: '世', point: Point::new(1, 0), fg: BLACK, flags: wide });
    cells.push(RenderableCell { character: ' ', point: Point::new(1, 2), fg: BLACK, flags: plain_flags() });

    let urls = scan(&cells, 10);
    assert_eq!(urls.urls().len(), 1);
    assert_eq!(urls.urls()[0].start(), Point::new(0, 3));
    assert_eq!(urls.urls()[0].end(), Point::new(1, 1));
}

#[test]
fn default_tracker_is_empty() {
    let urls = Urls::default();
    assert!(urls.urls().is_empty());
    assert!(urls.find_at(Point::new(0, 0)).is_none());
}

#[test]
fn parenthesized_url_keeps_balanced_parens() {
    let cells = text_to_cells("a http:x(y) b");
    let urls = scan(&cells, cells.len());
    assert_eq!(urls.urls().len(), 1);
    assert_eq!(urls.urls()[0].start().column, 2);
    assert_eq!(urls.urls()[0].end().column, 10);
}

#[test]
fn long_run_of_open_parens_is_cut_before_overflow() {
    let text = format!("http:{}", "(".repeat(300));
    let cells = text_to_cells(&text);
    let urls = scan(&cells, cells.len() + 1);
    assert_eq!(urls.urls().len(), 1);
    assert_eq!(urls.urls()[0].start().column, 0);
}

#[test]
fn update_all_matches_cell_by_cell() {
    let cells = text_to_cells("test git:a git:b git:c ing");
    let one_by_one = scan(&cells, cells.len());
    let mut whole = Urls::new();
    whole.update_all(cells.len(), &cells);
    assert_eq!(whole.urls(), one_by_one.urls());
    assert_eq!(whole.urls().len(), 3);
}

#[test]
fn recoloring_keeps_url_bounds() {
    let plain = text_to_cells("see https://example.org/a?b=c, then");
    let mut colored = plain.clone();
    for (i, cell) in colored.iter_mut().enumerate() {
        cell.fg = Rgb { r: (i * 7) as u8, g: 0, b: 0 };
    }
    let a = scan(&plain, plain.len());
    let b = scan(&colored, colored.len());
    assert_eq!(a.urls().len(), 1);
    assert_eq!(b.urls().len(), 1);
    assert_eq!(a.urls()[0].start(), b.urls()[0].start());
    assert_eq!(a.urls()[0].end(), b.urls()[0].end());
    assert_eq!(a.urls()[0].end().column, 28);
    assert_ne!(a.urls()[0], b.urls()[0]);
}
