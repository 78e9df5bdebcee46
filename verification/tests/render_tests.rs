use nox_lib::color::Color;
use nox_lib::gui::Gui;

#[test]
fn fresh_frame_has_expected_length() {
    let w: usize = 4;
    let h: usize = 3;
    let mut g = Gui::new(w as i64, h as i64);
    g.render();
    let frame = g.frame();
    // 39 characters per cell, one newline per row, 3 for the closing reset
    assert_eq!(frame.len(), 39 * w * h + h + 3);
    // ignoring the 38 escape characters per cell and the reset, the visible
    // content is one glyph per cell plus one newline per row
    assert_eq!(frame.len() - (38 * w * h + 3), w * h + h);
}

#[test]
fn fresh_frame_cell_is_black_on_black_space() {
    let mut g = Gui::new(2, 1);
    g.render();
    let frame: String = g.frame().iter().collect();
    assert!(frame.starts_with("\x1b[38;2;000;000;000m\x1b[48;2;000;000;000m "));
}

#[test]
fn frame_encodes_colors_as_three_digit_decimals() {
    let mut g = Gui::new(1, 1);
    g.pixel(0, 0, 'A', Color::new(255, 7, 42), Color::new(1, 250, 0));
    g.render();
    let frame: String = g.frame().iter().collect();
    assert_eq!(
        frame,
        "\x1b[38;2;255;007;042m\x1b[48;2;001;250;000mA\n\x1b[m"
    );
}

#[test]
fn frame_has_newline_per_row_and_final_reset() {
    let mut g = Gui::new(3, 2);
    g.render();
    let frame: String = g.frame().iter().collect();
    assert_eq!(frame.chars().filter(|c| *c == '\n').count(), 2);
    assert!(frame.ends_with("\n\x1b[m"));
}

#[test]
fn render_leaves_grid_unchanged() {
    let mut g = Gui::new(3, 2);
    g.pixel(1, 1, 'q', Color::new(5, 6, 7), Color::new(8, 9, 10));
    g.render();
    assert_eq!(g.char_at(1, 1), 'q');
    assert_eq!(g.fg_at(1, 1), Color::new(5, 6, 7));
    assert_eq!(g.bg_at(1, 1), Color::new(8, 9, 10));
}

#[test]
fn render_twice_reuses_buffer_without_growth() {
    let mut g = Gui::new(4, 4);
    g.render();
    let first = g.frame().len();
    g.pixel(0, 0, 'x', Color::new(200, 100, 50), Color::default());
    g.render();
    assert_eq!(g.frame().len(), first);
    let frame: String = g.frame().iter().collect();
    assert!(frame.contains("\x1b[38;2;200;100;050m\x1b[48;2;000;000;000mx"));
}
