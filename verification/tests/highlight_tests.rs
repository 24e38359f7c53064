use ashell::highlight::{highlight_cells, CellChar, HighlightKind};

fn row(r: i32, text: &str) -> Vec<CellChar> {
    text.chars()
        .enumerate()
        .map(|(i, c)| CellChar { row: r, col: i as i32, c })
        .collect()
}

fn sorted(mut v: Vec<(i32, i32, HighlightKind)>) -> Vec<(i32, i32, HighlightKind)> {
    v.sort_by_key(|e| (e.0, e.1));
    v
}

fn span(r: i32, cols: std::ops::RangeInclusive<i32>, k: HighlightKind) -> Vec<(i32, i32, HighlightKind)> {
    cols.map(|c| (r, c, k)).collect()
}

#[test]
fn keyword_colours_through_the_next_column() {
    let got = sorted(highlight_cells(&row(0, "ERROR x"), 1));
    assert_eq!(got, span(0, 0..=5, HighlightKind::Error));
}

#[test]
fn keyword_at_end_of_row() {
    let got = sorted(highlight_cells(&row(0, "x OK"), 1));
    assert_eq!(got, span(0, 2..=3, HighlightKind::Success));
}

#[test]
fn earlier_kinds_win() {
    let got = sorted(highlight_cells(&row(0, "OK ERROR"), 1));
    let mut want = span(0, 0..=2, HighlightKind::Success);
    want.extend(span(0, 3..=7, HighlightKind::Error));
    assert_eq!(got, want);

    let got = sorted(highlight_cells(&row(0, "ERROR OK"), 1));
    let mut want = span(0, 0..=5, HighlightKind::Error);
    want.extend(span(0, 6..=7, HighlightKind::Success));
    assert_eq!(got, want);
}

#[test]
fn every_kind_of_match() {
    let got = sorted(highlight_cells(&row(0, "WARN"), 1));
    assert_eq!(got, span(0, 0..=3, HighlightKind::Warning));
    let got = sorted(highlight_cells(&row(0, "FAILED"), 1));
    assert_eq!(got, span(0, 0..=5, HighlightKind::Failure));
    let got = sorted(highlight_cells(&row(0, "INFO"), 1));
    assert_eq!(got, span(0, 0..=3, HighlightKind::Info));
    let got = sorted(highlight_cells(&row(0, "TRACE"), 1));
    assert_eq!(got, span(0, 0..=4, HighlightKind::Debug));
    let got = sorted(highlight_cells(&row(0, "ip 10.0.0.1"), 1));
    assert_eq!(got, span(0, 3..=10, HighlightKind::Network));
    let got = sorted(highlight_cells(&row(0, "go http://a b"), 1));
    assert_eq!(got, span(0, 3..=11, HighlightKind::Url));
    let got = sorted(highlight_cells(&row(0, "at :22 ok"), 1));
    assert_eq!(got, span(0, 3..=6, HighlightKind::Port));
}

#[test]
fn rows_outside_the_screen_are_ignored() {
    let mut cells = row(0, "ERROR");
    cells.extend(row(5, "ERROR"));
    cells.extend(row(-1, "ERROR"));
    cells.extend(row(1, "plain"));
    let got = sorted(highlight_cells(&cells, 2));
    assert_eq!(got, span(0, 0..=4, HighlightKind::Error));
}

#[test]
fn cells_are_ordered_by_column() {
    let mut cells = row(2, "x ERROR");
    cells.reverse();
    let got = sorted(highlight_cells(&cells, 3));
    assert_eq!(got, span(2, 2..=6, HighlightKind::Error));
}

#[test]
fn wide_characters_map_bytes_to_their_cell() {
    let got = sorted(highlight_cells(&row(0, "é ERROR"), 1));
    assert_eq!(got, span(0, 2..=6, HighlightKind::Error));
}

#[test]
fn empty_screen() {
    assert!(highlight_cells(&[], 10).is_empty());
    assert!(highlight_cells(&row(0, "nothing here"), 1).is_empty());
    assert!(highlight_cells(&row(0, "ERROR"), 0).is_empty());
}

#[test]
fn several_rows() {
    let mut cells = row(0, "OK");
    cells.extend(row(1, "DEBUG"));
    let got = sorted(highlight_cells(&cells, 2));
    let mut want = span(0, 0..=1, HighlightKind::Success);
    want.extend(span(1, 0..=4, HighlightKind::Debug));
    assert_eq!(got, want);
}

#[test]
fn error_keyword_inside_a_url_wins() {
    let got = sorted(highlight_cells(&row(0, "http://x/ERROR y"), 1));
    let mut want = span(0, 0..=8, HighlightKind::Url);
    want.extend(span(0, 9..=14, HighlightKind::Error));
    assert_eq!(got, want);
}

#[test]
fn rows_do_not_affect_each_other() {
    let only = sorted(highlight_cells(&row(1, "x ERROR"), 3));
    let mut cells = row(0, "WARN OK");
    cells.extend(row(1, "x ERROR"));
    cells.extend(row(2, "http://a"));
    cells.extend(row(7, "FATAL"));
    cells.extend(row(-3, "PANIC"));
    let all = sorted(highlight_cells(&cells, 3));
    let row1: Vec<_> = all.iter().copied().filter(|e| e.0 == 1).collect();
    assert_eq!(row1, only);
    let on_screen: Vec<CellChar> = cells.iter().copied().filter(|c| c.row >= 0 && c.row < 3).collect();
    assert_eq!(sorted(highlight_cells(&on_screen, 3)), all);
}
