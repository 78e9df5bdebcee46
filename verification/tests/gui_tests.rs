use nox_lib::color::Color;
use nox_lib::gui::Gui;

#[test]
fn color_equality_all_components() {
    let a = Color::new(1, 2, 3);
    assert_eq!(a, Color::new(1, 2, 3));
    assert_ne!(a, Color::new(0, 2, 3));
    assert_ne!(a, Color::new(1, 0, 3));
    assert_ne!(a, Color::new(1, 2, 0));
}

#[test]
fn color_constants() {
    assert_eq!(Color::white(), Color::new(255, 255, 255));
    assert_eq!(Color::black(), Color::new(0, 0, 0));
    assert_eq!(Color::default(), Color::new(0, 0, 0));
    assert_eq!(Color::orange(), Color::new(255, 127, 0));
    assert_eq!(Color::purple(), Color::new(127, 0, 255));
}

#[test]
fn new_buffer_is_blank() {
    let g = Gui::new(4, 3);
    assert_eq!(*g.width(), 4);
    assert_eq!(*g.height(), 3);
    for y in 0..3 {
        for x in 0..4 {
            assert_eq!(g.char_at(x, y), ' ');
            assert_eq!(g.fg_at(x, y), Color::new(0, 0, 0));
            assert_eq!(g.bg_at(x, y), Color::new(0, 0, 0));
        }
    }
}

#[test]
fn pixel_writes_character_and_colors() {
    let mut g = Gui::new(4, 3);
    g.pixel(2, 1, 'x', Color::new(10, 20, 30), Color::new(40, 50, 60));
    assert_eq!(g.char_at(2, 1), 'x');
    assert_eq!(g.fg_at(2, 1), Color::new(10, 20, 30));
    assert_eq!(g.bg_at(2, 1), Color::new(40, 50, 60));
}

#[test]
fn pixel_out_of_range_is_noop() {
    let mut g = Gui::new(4, 3);
    g.pixel(2, 1, 'x', Color::new(1, 1, 1), Color::new(2, 2, 2));
    g.pixel(-1, 0, 'z', Color::new(9, 9, 9), Color::new(9, 9, 9));
    g.pixel(0, -1, 'z', Color::new(9, 9, 9), Color::new(9, 9, 9));
    g.pixel(4, 0, 'z', Color::new(9, 9, 9), Color::new(9, 9, 9));
    g.pixel(0, 3, 'z', Color::new(9, 9, 9), Color::new(9, 9, 9));
    for y in 0..3 {
        for x in 0..4 {
            if x == 2 && y == 1 {
                assert_eq!(g.char_at(x, y), 'x');
            } else {
                assert_eq!(g.char_at(x, y), ' ');
                assert_eq!(g.fg_at(x, y), Color::new(0, 0, 0));
                assert_eq!(g.bg_at(x, y), Color::new(0, 0, 0));
            }
        }
    }
}

#[test]
fn pixel_default_fg_keeps_stored_foreground() {
    let mut g = Gui::new(4, 3);
    g.pixel(1, 1, 'a', Color::new(10, 20, 30), Color::new(40, 50, 60));
    g.pixel(1, 1, 'b', Color::default(), Color::new(70, 80, 90));
    assert_eq!(g.char_at(1, 1), 'b');
    assert_eq!(g.fg_at(1, 1), Color::new(10, 20, 30));
    assert_eq!(g.bg_at(1, 1), Color::new(70, 80, 90));
}

#[test]
fn pixel_default_bg_keeps_stored_background() {
    let mut g = Gui::new(4, 3);
    g.pixel(1, 1, 'a', Color::new(10, 20, 30), Color::new(40, 50, 60));
    g.pixel(1, 1, 'c', Color::new(70, 80, 90), Color::default());
    assert_eq!(g.char_at(1, 1), 'c');
    assert_eq!(g.fg_at(1, 1), Color::new(70, 80, 90));
    assert_eq!(g.bg_at(1, 1), Color::new(40, 50, 60));
}

#[test]
fn clear_writes_every_cell_with_default_rule() {
    let mut g = Gui::new(3, 2);
    g.pixel(0, 0, 'q', Color::new(10, 20, 30), Color::new(40, 50, 60));
    g.clear('.', Color::default(), Color::new(0, 0, 50));
    for y in 0..2 {
        for x in 0..3 {
            assert_eq!(g.char_at(x, y), '.');
            assert_eq!(g.bg_at(x, y), Color::new(0, 0, 50));
        }
    }
    // the sentinel foreground left each stored foreground alone
    assert_eq!(g.fg_at(0, 0), Color::new(10, 20, 30));
    assert_eq!(g.fg_at(1, 0), Color::new(0, 0, 0));
}

#[test]
fn fill_rect_covers_region_only() {
    let mut g = Gui::new(5, 4);
    g.fill_rect(1, 1, 3, 2, '#', Color::new(1, 1, 1), Color::new(2, 2, 2));
    for y in 0..4 {
        for x in 0..5 {
            let inside = (1..4).contains(&x) && (1..3).contains(&y);
            if inside {
                assert_eq!(g.char_at(x, y), '#');
                assert_eq!(g.fg_at(x, y), Color::new(1, 1, 1));
            } else {
                assert_eq!(g.char_at(x, y), ' ');
            }
        }
    }
}

#[test]
fn fill_rect_zero_area_is_noop() {
    let mut g = Gui::new(3, 3);
    g.fill_rect(0, 0, 0, 3, '#', Color::new(1, 1, 1), Color::new(1, 1, 1));
    g.fill_rect(0, 0, 3, -1, '#', Color::new(1, 1, 1), Color::new(1, 1, 1));
    for y in 0..3 {
        for x in 0..3 {
            assert_eq!(g.char_at(x, y), ' ');
        }
    }
}

#[test]
fn stroke_rect_draws_only_border() {
    let mut g = Gui::new(6, 5);
    g.stroke_rect(1, 1, 4, 3, '*', Color::new(1, 1, 1), Color::new(2, 2, 2));
    for y in 0..5 {
        for x in 0..6 {
            let inside = (1..5).contains(&x) && (1..4).contains(&y);
            let border = inside && (x == 1 || x == 4 || y == 1 || y == 3);
            if border {
                assert_eq!(g.char_at(x, y), '*', "border cell ({x},{y})");
            } else {
                assert_eq!(g.char_at(x, y), ' ', "cell ({x},{y})");
            }
        }
    }
}

#[test]
fn rect_one_by_one_is_single_stroke_cell() {
    let mut g = Gui::new(4, 4);
    g.rect(
        1,
        1,
        1,
        1,
        'S',
        'F',
        Color::new(1, 1, 1),
        Color::new(2, 2, 2),
        Color::new(3, 3, 3),
        Color::new(4, 4, 4),
    );
    let mut stroke_cells = 0;
    let mut fill_cells = 0;
    for y in 0..4 {
        for x in 0..4 {
            match g.char_at(x, y) {
                'S' => stroke_cells += 1,
                'F' => fill_cells += 1,
                _ => {}
            }
        }
    }
    assert_eq!(stroke_cells, 1);
    assert_eq!(fill_cells, 0);
    assert_eq!(g.char_at(1, 1), 'S');
    assert_eq!(g.fg_at(1, 1), Color::new(1, 1, 1));
}

#[test]
fn rect_three_by_three_is_eight_stroke_one_fill() {
    let mut g = Gui::new(5, 5);
    g.rect(
        1,
        1,
        3,
        3,
        'S',
        'F',
        Color::new(1, 1, 1),
        Color::new(2, 2, 2),
        Color::new(3, 3, 3),
        Color::new(4, 4, 4),
    );
    let mut stroke_cells = 0;
    let mut fill_cells = 0;
    for y in 0..5 {
        for x in 0..5 {
            match g.char_at(x, y) {
                'S' => stroke_cells += 1,
                'F' => fill_cells += 1,
                _ => {}
            }
        }
    }
    assert_eq!(stroke_cells, 8);
    assert_eq!(fill_cells, 1);
    assert_eq!(g.char_at(2, 2), 'F');
    assert_eq!(g.fg_at(2, 2), Color::new(3, 3, 3));
    assert_eq!(g.bg_at(2, 2), Color::new(4, 4, 4));
}

#[test]
fn horizontal_text_places_characters() {
    let mut g = Gui::new(6, 3);
    g.horizontal_text(1, 1, "abc", Color::new(1, 1, 1), Color::default());
    assert_eq!(g.char_at(1, 1), 'a');
    assert_eq!(g.char_at(2, 1), 'b');
    assert_eq!(g.char_at(3, 1), 'c');
    assert_eq!(g.char_at(4, 1), ' ');
    assert_eq!(g.char_at(1, 0), ' ');
}

#[test]
fn horizontal_text_clips_at_edge() {
    let mut g = Gui::new(3, 2);
    g.horizontal_text(2, 0, "xyz", Color::default(), Color::default());
    assert_eq!(g.char_at(2, 0), 'x');
    assert_eq!(g.char_at(0, 0), ' ');
    assert_eq!(g.char_at(1, 0), ' ');
}

#[test]
fn vertical_text_places_characters() {
    let mut g = Gui::new(3, 6);
    g.vertical_text(1, 2, "ok", Color::default(), Color::default());
    assert_eq!(g.char_at(1, 2), 'o');
    assert_eq!(g.char_at(1, 3), 'k');
    assert_eq!(g.char_at(1, 4), ' ');
    assert_eq!(g.char_at(0, 2), ' ');
}
