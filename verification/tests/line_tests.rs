use nox_lib::color::Color;
use nox_lib::gui::Gui;

fn drawn_cells(g: &Gui, w: i64, h: i64, c: char) -> Vec<(i64, i64)> {
    let mut cells = Vec::new();
    for y in 0..h {
        for x in 0..w {
            if g.char_at(x, y) == c {
                cells.push((x, y));
            }
        }
    }
    cells
}

#[test]
fn degenerate_line_draws_one_cell() {
    let mut g = Gui::new(8, 8);
    g.line(3, 4, 3, 4, '*', Color::new(1, 1, 1), Color::default());
    assert_eq!(drawn_cells(&g, 8, 8, '*'), vec![(3, 4)]);
}

#[test]
fn horizontal_line_draws_inclusive_run() {
    let mut g = Gui::new(8, 8);
    g.line(0, 0, 5, 0, '*', Color::new(1, 1, 1), Color::default());
    assert_eq!(
        drawn_cells(&g, 8, 8, '*'),
        vec![(0, 0), (1, 0), (2, 0), (3, 0), (4, 0), (5, 0)]
    );
}

#[test]
fn vertical_line_draws_inclusive_run() {
    let mut g = Gui::new(8, 8);
    g.line(0, 0, 0, 5, '*', Color::new(1, 1, 1), Color::default());
    assert_eq!(
        drawn_cells(&g, 8, 8, '*'),
        vec![(0, 0), (0, 1), (0, 2), (0, 3), (0, 4), (0, 5)]
    );
}

#[test]
fn reversed_horizontal_line_matches_forward() {
    let mut g = Gui::new(8, 8);
    g.line(5, 2, 1, 2, '*', Color::new(1, 1, 1), Color::default());
    assert_eq!(
        drawn_cells(&g, 8, 8, '*'),
        vec![(1, 2), (2, 2), (3, 2), (4, 2), (5, 2)]
    );
}

#[test]
fn shallow_line_one_cell_per_column_monotone() {
    let mut g = Gui::new(8, 8);
    g.line(0, 0, 4, 2, '*', Color::new(1, 1, 1), Color::default());
    let cells = drawn_cells(&g, 8, 8, '*');
    assert_eq!(cells.len(), 5);
    let mut prev_y = 0;
    for x in 0..5i64 {
        let at_x: Vec<&(i64, i64)> = cells.iter().filter(|p| p.0 == x).collect();
        assert_eq!(at_x.len(), 1, "exactly one cell in column {x}");
        let y = at_x[0].1;
        assert!(y >= prev_y, "y must not decrease");
        assert!(y - prev_y <= 1, "y must not skip a row");
        prev_y = y;
    }
    assert_eq!(cells[0], (0, 0));
    assert_eq!(cells[cells.len() - 1], (4, 2));
}

#[test]
fn steep_line_one_cell_per_row() {
    let mut g = Gui::new(8, 8);
    g.line(0, 0, 2, 4, '*', Color::new(1, 1, 1), Color::default());
    let cells = drawn_cells(&g, 8, 8, '*');
    assert_eq!(cells.len(), 5);
    for y in 0..5i64 {
        let at_y: Vec<&(i64, i64)> = cells.iter().filter(|p| p.1 == y).collect();
        assert_eq!(at_y.len(), 1, "exactly one cell in row {y}");
    }
    assert!(cells.contains(&(0, 0)));
    assert!(cells.contains(&(2, 4)));
}

#[test]
fn diagonal_line_negative_slope() {
    let mut g = Gui::new(8, 8);
    g.line(0, 4, 4, 0, '*', Color::new(1, 1, 1), Color::default());
    let cells = drawn_cells(&g, 8, 8, '*');
    assert_eq!(cells.len(), 5);
    for x in 0..5i64 {
        assert_eq!(cells.iter().filter(|p| p.0 == x).count(), 1);
    }
    assert!(cells.contains(&(0, 4)));
    assert!(cells.contains(&(4, 0)));
}

#[test]
fn line_partially_off_grid_is_clipped() {
    let mut g = Gui::new(4, 4);
    g.line(-2, 1, 6, 1, '*', Color::new(1, 1, 1), Color::default());
    assert_eq!(
        drawn_cells(&g, 4, 4, '*'),
        vec![(0, 1), (1, 1), (2, 1), (3, 1)]
    );
}
