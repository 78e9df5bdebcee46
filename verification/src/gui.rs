//! The frame buffer: a fixed-size grid of colored character cells with
//! bounds-checked drawing primitives.

use vstd::prelude::*;
use crate::color::{Color, default_color};
use crate::render::{frame_chars, rows_prefix, row_prefix, cell_chars, push_color_code, color_code, lemma_concat_assoc, lemma_push_append, lemma_append_cell, lemma_push3};

verus! {

/// Mathematical state of a frame buffer: its dimensions and the three
/// parallel grids, each indexed by row and then column.
pub struct GuiView {
    pub width: int,
    pub height: int,
    pub chars: Seq<Seq<char>>,
    pub fgs: Seq<Seq<Color>>,
    pub bgs: Seq<Seq<Color>>,
}

impl GuiView {
    /// The grids are rectangular and match the stated dimensions.
    pub open spec fn wf(self) -> bool {
        &&& 0 < self.width <= usize::MAX
        &&& 0 < self.height <= usize::MAX
        &&& self.chars.len() == self.height
        &&& self.fgs.len() == self.height
        &&& self.bgs.len() == self.height
        &&& forall|y: int|
            0 <= y < self.height ==> (#[trigger] self.chars[y]).len() == self.width
        &&& forall|y: int| 0 <= y < self.height ==> (#[trigger] self.fgs[y]).len() == self.width
        &&& forall|y: int| 0 <= y < self.height ==> (#[trigger] self.bgs[y]).len() == self.width
    }

    pub open spec fn in_bounds(self, x: int, y: int) -> bool {
        0 <= x < self.width && 0 <= y < self.height
    }
}

/// The color a drawing call leaves in a cell: the sentinel keeps the stored
/// color, any other argument replaces it.
pub open spec fn blend(stored: Color, arg: Color) -> Color {
    if arg == default_color() {
        stored
    } else {
        arg
    }
}

/// The effect of one `pixel` call on the model: out-of-range coordinates
/// change nothing; in range, the character is written unconditionally and
/// each color channel follows the sentinel rule.
pub open spec fn spec_pixel(v: GuiView, x: int, y: int, c: char, fg: Color, bg: Color) -> GuiView {
    if v.in_bounds(x, y) {
        GuiView {
            chars: v.chars.update(y, v.chars[y].update(x, c)),
            fgs: v.fgs.update(y, v.fgs[y].update(x, blend(v.fgs[y][x], fg))),
            bgs: v.bgs.update(y, v.bgs[y].update(x, blend(v.bgs[y][x], bg))),
            ..v
        }
    } else {
        v
    }
}

/// A `pixel` call with coordinates outside the grid leaves the buffer state
/// unchanged.
pub proof fn lemma_pixel_out_of_range(v: GuiView, x: int, y: int, c: char, fg: Color, bg: Color)
    requires
        !v.in_bounds(x, y),
    ensures
        spec_pixel(v, x, y, c, fg, bg) == v,
{
}

/// A sentinel foreground argument preserves the stored foreground grid and
/// updates only the character and the background; symmetrically for the
/// background.
pub proof fn lemma_pixel_default_keeps_channel(
    v: GuiView,
    x: int,
    y: int,
    c: char,
    fg: Color,
    bg: Color,
)
    requires
        v.wf(),
        v.in_bounds(x, y),
    ensures
        fg == default_color() ==> spec_pixel(v, x, y, c, fg, bg).fgs == v.fgs,
        bg == default_color() ==> spec_pixel(v, x, y, c, fg, bg).bgs == v.bgs,
        spec_pixel(v, x, y, c, fg, bg).chars[y][x] == c,
{
    if fg == default_color() {
        assert(v.fgs[y].update(x, v.fgs[y][x]) =~= v.fgs[y]);
        assert(v.fgs.update(y, v.fgs[y]) =~= v.fgs);
    }
    if bg == default_color() {
        assert(v.bgs[y].update(x, v.bgs[y][x]) =~= v.bgs[y]);
        assert(v.bgs.update(y, v.bgs[y]) =~= v.bgs);
    }
}

/// The view of a row-major grid held as a vector of rows.
pub open spec fn rows_view<T>(rows: Seq<Vec<T>>) -> Seq<Seq<T>> {
    Seq::new(rows.len(), |y: int| rows[y]@)
}

proof fn lemma_rows_view_update<T>(rows: Seq<Vec<T>>, y: int, r: Vec<T>)
    requires
        0 <= y < rows.len(),
    ensures
        rows_view(rows.update(y, r)) == rows_view(rows).update(y, r@),
{
    assert(rows_view(rows.update(y, r)) =~= rows_view(rows).update(y, r@));
}

/// The output buffer is exactly what `out` describes.
pub(crate) proof fn lemma_out_eq(g: Gui)
    ensures
        g.out() == g.print_buffer@,
{
}

/// Relates a buffer's view to its vectors of rows, row by row.
pub(crate) proof fn lemma_view_rows(g: Gui)
    ensures
        g@.chars.len() == g.character_buffer@.len(),
        g@.fgs.len() == g.foreground_color_buffer@.len(),
        g@.bgs.len() == g.background_color_buffer@.len(),
        forall|y: int|
            0 <= y < g.character_buffer@.len() ==> g@.chars[y] == (
            #[trigger] g.character_buffer@[y])@,
        forall|y: int|
            0 <= y < g.foreground_color_buffer@.len() ==> g@.fgs[y] == (
            #[trigger] g.foreground_color_buffer@[y])@,
        forall|y: int|
            0 <= y < g.background_color_buffer@.len() ==> g@.bgs[y] == (
            #[trigger] g.background_color_buffer@[y])@,
{
}

/// A frame buffer: width and height fixed at construction, three parallel
/// grids of cell state, and one output buffer reused by the serializer.
pub struct Gui {
    pub(crate) width: i64,
    pub(crate) height: i64,
    pub(crate) foreground_color_buffer: Vec<Vec<Color>>,
    pub(crate) background_color_buffer: Vec<Vec<Color>>,
    pub(crate) character_buffer: Vec<Vec<char>>,
    pub(crate) print_buffer: Vec<char>,
}

impl View for Gui {
    type V = GuiView;

    closed spec fn view(&self) -> GuiView {
        GuiView {
            width: self.width as int,
            height: self.height as int,
            chars: rows_view(self.character_buffer@),
            fgs: rows_view(self.foreground_color_buffer@),
            bgs: rows_view(self.background_color_buffer@),
        }
    }
}

impl Gui {
    /// Contents of the serializer's output buffer, as left by the most
    /// recent `render` call (empty right after construction).
    pub closed spec fn out(self) -> Seq<char> {
        self.print_buffer@
    }

    pub open spec fn wf(self) -> bool {
        self@.wf()
    }

    /// The serialized frame left by the most recent `render` call.
    pub fn frame(&self) -> (r: &Vec<char>)
        ensures
            r@ == self.out(),
    {
        &self.print_buffer
    }

    /// Builds a frame buffer of the given dimensions: every cell starts
    /// blank with black foreground and background, and the output buffer
    /// starts empty.
    pub fn new(width: i64, height: i64) -> (g: Gui)
        requires
            0 < width,
            0 < height,
            width <= usize::MAX,
            height <= usize::MAX,
        ensures
            g.wf(),
            g@.width == width,
            g@.height == height,
            forall|x: int, y: int|
                g@.in_bounds(x, y) ==> #[trigger] g@.chars[y][x] == ' ',
            forall|x: int, y: int|
                g@.in_bounds(x, y) ==> #[trigger] g@.fgs[y][x] == default_color(),
            forall|x: int, y: int|
                g@.in_bounds(x, y) ==> #[trigger] g@.bgs[y][x] == default_color(),
            g.out() == Seq::<char>::empty(),
    {
        let w = width as usize;
        let h = height as usize;

        let mut foreground_color_buffer: Vec<Vec<Color>> = Vec::new();
        let mut background_color_buffer: Vec<Vec<Color>> = Vec::new();
        let mut character_buffer: Vec<Vec<char>> = Vec::new();

        for row in 0..h
            invariant
                foreground_color_buffer@.len() == row,
                background_color_buffer@.len() == row,
                character_buffer@.len() == row,
                forall|y: int|
                    0 <= y < row ==> (#[trigger] character_buffer@[y])@.len() == w,
                forall|y: int|
                    0 <= y < row ==> (#[trigger] foreground_color_buffer@[y])@.len() == w,
                forall|y: int|
                    0 <= y < row ==> (#[trigger] background_color_buffer@[y])@.len() == w,
                forall|y: int, x: int|
                    0 <= y < row && 0 <= x < w ==> #[trigger] character_buffer@[y]@[x] == ' ',
                forall|y: int, x: int|
                    0 <= y < row && 0 <= x < w ==> #[trigger] foreground_color_buffer@[y]@[x]
                        == default_color(),
                forall|y: int, x: int|
                    0 <= y < row && 0 <= x < w ==> #[trigger] background_color_buffer@[y]@[x]
                        == default_color(),
        {
            let mut color_row: Vec<Color> = Vec::new();
            let mut char_row: Vec<char> = Vec::new();
            let mut color_row2: Vec<Color> = Vec::new();
            for col in 0..w
                invariant
                    color_row@.len() == col,
                    char_row@.len() == col,
                    color_row2@.len() == col,
                    forall|x: int| 0 <= x < col ==> #[trigger] color_row@[x] == default_color(),
                    forall|x: int| 0 <= x < col ==> #[trigger] color_row2@[x] == default_color(),
                    forall|x: int| 0 <= x < col ==> #[trigger] char_row@[x] == ' ',
            {
                color_row.push(Color { r: 0, g: 0, b: 0 });
                color_row2.push(Color { r: 0, g: 0, b: 0 });
                char_row.push(' ');
            }
            foreground_color_buffer.push(color_row);
            background_color_buffer.push(color_row2);
            character_buffer.push(char_row);
        }

        Gui {
            width,
            height,
            foreground_color_buffer,
            background_color_buffer,
            character_buffer,
            print_buffer: Vec::new(),
        }
    }

    pub fn width(&self) -> (w: &i64)
        ensures
            *w == self@.width,
    {
        &self.width
    }

    pub fn height(&self) -> (h: &i64)
        ensures
            *h == self@.height,
    {
        &self.height
    }

    /// The character stored at an in-range cell.
    pub fn char_at(&self, x: i64, y: i64) -> (c: char)
        requires
            self.wf(),
            self@.in_bounds(x as int, y as int),
        ensures
            c == self@.chars[y as int][x as int],
    {
        proof {
            lemma_view_rows(*self);
        }
        self.character_buffer[y as usize][x as usize]
    }

    /// The foreground color stored at an in-range cell.
    pub fn fg_at(&self, x: i64, y: i64) -> (c: Color)
        requires
            self.wf(),
            self@.in_bounds(x as int, y as int),
        ensures
            c == self@.fgs[y as int][x as int],
    {
        proof {
            lemma_view_rows(*self);
        }
        self.foreground_color_buffer[y as usize][x as usize]
    }

    /// The background color stored at an in-range cell.
    pub fn bg_at(&self, x: i64, y: i64) -> (c: Color)
        requires
            self.wf(),
            self@.in_bounds(x as int, y as int),
        ensures
            c == self@.bgs[y as int][x as int],
    {
        proof {
            lemma_view_rows(*self);
        }
        self.background_color_buffer[y as usize][x as usize]
    }

    /// Writes one cell. Out-of-range coordinates are silently ignored; in
    /// range, the character is always written and each color channel is
    /// updated only when its argument is not the sentinel.
    pub fn pixel(&mut self, x: i64, y: i64, c: char, fg: Color, bg: Color)
        requires
            old(self).wf(),
        ensures
            final(self).wf(),
            final(self)@ == spec_pixel(old(self)@, x as int, y as int, c, fg, bg),
            final(self).out() == old(self).out(),
    {
        if x >= self.width || y >= self.height || x < 0 || y < 0 {
            return ;
        }
        let xu = x as usize;
        let yu = y as usize;

        let ghost pre = *self;
        proof {
            lemma_view_rows(*self);
        }

        self.character_buffer[yu][xu] = c;

        proof {
            lemma_rows_view_update(
                pre.character_buffer@,
                yu as int,
                self.character_buffer@[yu as int],
            );
        }

        let ghost mid_fg = *self;
        proof {
            lemma_view_rows(*self);
        }
        if !(fg.r == 0 && fg.g == 0 && fg.b == 0) {
            self.foreground_color_buffer[yu][xu] = fg;
            proof {
                lemma_rows_view_update(
                    mid_fg.foreground_color_buffer@,
                    yu as int,
                    self.foreground_color_buffer@[yu as int],
                );
            }
        }

        let ghost mid_bg = *self;
        proof {
            lemma_view_rows(*self);
        }
        if !(bg.r == 0 && bg.g == 0 && bg.b == 0) {
            self.background_color_buffer[yu][xu] = bg;
            proof {
                lemma_rows_view_update(
                    mid_bg.background_color_buffer@,
                    yu as int,
                    self.background_color_buffer@[yu as int],
                );
            }
        }

        proof {
            let v0 = pre@;
            let v1 = final(self)@;
            assert(v1.chars =~~= spec_pixel(v0, x as int, y as int, c, fg, bg).chars);
            assert(v1.fgs =~~= spec_pixel(v0, x as int, y as int, c, fg, bg).fgs);
            assert(v1.bgs =~~= spec_pixel(v0, x as int, y as int, c, fg, bg).bgs);
        }
    }
}

/// Points of the plane inside the axis-aligned rectangle with corner (x, y)
/// and the given width and height.
pub open spec fn in_rect(x: int, y: int, w: int, h: int, i: int, j: int) -> bool {
    x <= i < x + w && y <= j < y + h
}

/// Points on the one-cell-thick border of that rectangle.
pub open spec fn on_rect_border(x: int, y: int, w: int, h: int, i: int, j: int) -> bool {
    in_rect(x, y, w, h, i, j) && (i == x || i == x + w - 1 || j == y || j == y + h - 1)
}

impl Gui {
    /// Applies `pixel` to every cell: afterwards every in-range cell holds
    /// the character, and each color channel follows the sentinel rule.
    pub fn clear(&mut self, c: char, fg: Color, bg: Color)
        requires
            old(self).wf(),
        ensures
            final(self).wf(),
            final(self)@.width == old(self)@.width,
            final(self)@.height == old(self)@.height,
            final(self).out() == old(self).out(),
            forall|i: int, j: int|
                old(self)@.in_bounds(i, j) ==> #[trigger] final(self)@.chars[j][i] == c,
            forall|i: int, j: int|
                old(self)@.in_bounds(i, j) ==> #[trigger] final(self)@.fgs[j][i] == blend(
                    old(self)@.fgs[j][i],
                    fg,
                ),
            forall|i: int, j: int|
                old(self)@.in_bounds(i, j) ==> #[trigger] final(self)@.bgs[j][i] == blend(
                    old(self)@.bgs[j][i],
                    bg,
                ),
    {
        let h = self.height;
        let w = self.width;
        let mut y: i64 = 0;
        while y < h
            invariant
                self.wf(),
                0 <= y <= h,
                w == self@.width,
                h == self@.height,
                w == old(self)@.width,
                h == old(self)@.height,
                self.out() == old(self).out(),
                forall|i: int, j: int|
                    0 <= i < w && 0 <= j < y ==> #[trigger] self@.chars[j][i] == c,
                forall|i: int, j: int|
                    0 <= i < w && 0 <= j < y ==> #[trigger] self@.fgs[j][i] == blend(
                        old(self)@.fgs[j][i],
                        fg,
                    ),
                forall|i: int, j: int|
                    0 <= i < w && 0 <= j < y ==> #[trigger] self@.bgs[j][i] == blend(
                        old(self)@.bgs[j][i],
                        bg,
                    ),
                forall|i: int, j: int|
                    0 <= i < w && y <= j < h ==> #[trigger] self@.chars[j][i] == old(self)@.chars[j][i],
                forall|i: int, j: int|
                    0 <= i < w && y <= j < h ==> #[trigger] self@.fgs[j][i] == old(self)@.fgs[j][i],
                forall|i: int, j: int|
                    0 <= i < w && y <= j < h ==> #[trigger] self@.bgs[j][i] == old(self)@.bgs[j][i],
            decreases h - y,
        {
            let mut x: i64 = 0;
            while x < w
                invariant
                    self.wf(),
                    0 <= y < h,
                    0 <= x <= w,
                    w == self@.width,
                    h == self@.height,
                    w == old(self)@.width,
                    h == old(self)@.height,
                    self.out() == old(self).out(),
                    forall|i: int, j: int|
                        0 <= i < w && 0 <= j < y ==> #[trigger] self@.chars[j][i] == c,
                    forall|i: int, j: int|
                        0 <= i < w && 0 <= j < y ==> #[trigger] self@.fgs[j][i] == blend(
                            old(self)@.fgs[j][i],
                            fg,
                        ),
                    forall|i: int, j: int|
                        0 <= i < w && 0 <= j < y ==> #[trigger] self@.bgs[j][i] == blend(
                            old(self)@.bgs[j][i],
                            bg,
                        ),
                    forall|i: int| 0 <= i < x ==> #[trigger] self@.chars[y as int][i] == c,
                    forall|i: int|
                        0 <= i < x ==> #[trigger] self@.fgs[y as int][i] == blend(
                            old(self)@.fgs[y as int][i],
                            fg,
                        ),
                    forall|i: int|
                        0 <= i < x ==> #[trigger] self@.bgs[y as int][i] == blend(
                            old(self)@.bgs[y as int][i],
                            bg,
                        ),
                    forall|i: int, j: int|
                        0 <= i < w && y <= j < h && (j > y || i >= x) ==> #[trigger] self@.chars[j][i]
                            == old(self)@.chars[j][i],
                    forall|i: int, j: int|
                        0 <= i < w && y <= j < h && (j > y || i >= x) ==> #[trigger] self@.fgs[j][i]
                            == old(self)@.fgs[j][i],
                    forall|i: int, j: int|
                        0 <= i < w && y <= j < h && (j > y || i >= x) ==> #[trigger] self@.bgs[j][i]
                            == old(self)@.bgs[j][i],
                decreases w - x,
            {
                self.pixel(x, y, c, fg, bg);
                x = x + 1;
            }
            y = y + 1;
        }
    }
}

/// The character left in a cell by a single-pass rectangle fill: border
/// cells take the stroke character, interior cells the fill character
/// (unless only the border is drawn), all others keep their old value.
pub open spec fn rect_target_char(
    x: int,
    y: int,
    w: int,
    h: int,
    sc: char,
    fc: char,
    border_only: bool,
    old_c: char,
    i: int,
    j: int,
) -> char {
    if on_rect_border(x, y, w, h, i, j) {
        sc
    } else if in_rect(x, y, w, h, i, j) && !border_only {
        fc
    } else {
        old_c
    }
}

/// The color left in one channel of a cell by a single-pass rectangle fill,
/// with the sentinel rule applied to whichever argument lands on the cell.
pub open spec fn rect_target_color(
    x: int,
    y: int,
    w: int,
    h: int,
    scol: Color,
    fcol: Color,
    border_only: bool,
    old_col: Color,
    i: int,
    j: int,
) -> Color {
    if on_rect_border(x, y, w, h, i, j) {
        blend(old_col, scol)
    } else if in_rect(x, y, w, h, i, j) && !border_only {
        blend(old_col, fcol)
    } else {
        old_col
    }
}

impl Gui {
    /// One pass over the rectangle: each coordinate is classified as border
    /// or interior and painted once; `border_only` skips the interior.
    fn paint_rect(
        &mut self,
        x: i64,
        y: i64,
        width: i64,
        height: i64,
        sc: char,
        fc: char,
        sfg: Color,
        sbg: Color,
        ffg: Color,
        fbg: Color,
        border_only: bool,
    )
        requires
            old(self).wf(),
            i64::MIN < x + width <= i64::MAX,
            i64::MIN < y + height <= i64::MAX,
        ensures
            final(self).wf(),
            final(self)@.width == old(self)@.width,
            final(self)@.height == old(self)@.height,
            final(self).out() == old(self).out(),
            forall|i: int, j: int|
                old(self)@.in_bounds(i, j) ==> #[trigger] final(self)@.chars[j][i]
                    == rect_target_char(
                    x as int,
                    y as int,
                    width as int,
                    height as int,
                    sc,
                    fc,
                    border_only,
                    old(self)@.chars[j][i],
                    i,
                    j,
                ),
            forall|i: int, j: int|
                old(self)@.in_bounds(i, j) ==> #[trigger] final(self)@.fgs[j][i]
                    == rect_target_color(
                    x as int,
                    y as int,
                    width as int,
                    height as int,
                    sfg,
                    ffg,
                    border_only,
                    old(self)@.fgs[j][i],
                    i,
                    j,
                ),
            forall|i: int, j: int|
                old(self)@.in_bounds(i, j) ==> #[trigger] final(self)@.bgs[j][i]
                    == rect_target_color(
                    x as int,
                    y as int,
                    width as int,
                    height as int,
                    sbg,
                    fbg,
                    border_only,
                    old(self)@.bgs[j][i],
                    i,
                    j,
                ),
    {
        let x_end = x + width;
        let y_end = y + height;
        let mut j: i64 = y;
        if y_end <= y {
            return ;
        }
        while j < y_end
            invariant
                self.wf(),
                y <= j <= y_end,
                x_end == x + width,
                y_end == y + height,
                self@.width == old(self)@.width,
                self@.height == old(self)@.height,
                self.out() == old(self).out(),
                forall|i: int, jj: int|
                    old(self)@.in_bounds(i, jj) && jj < j ==> #[trigger] self@.chars[jj][i]
                        == rect_target_char(
                        x as int,
                        y as int,
                        width as int,
                        height as int,
                        sc,
                        fc,
                        border_only,
                        old(self)@.chars[jj][i],
                        i,
                        jj,
                    ),
                forall|i: int, jj: int|
                    old(self)@.in_bounds(i, jj) && jj < j ==> #[trigger] self@.fgs[jj][i]
                        == rect_target_color(
                        x as int,
                        y as int,
                        width as int,
                        height as int,
                        sfg,
                        ffg,
                        border_only,
                        old(self)@.fgs[jj][i],
                        i,
                        jj,
                    ),
                forall|i: int, jj: int|
                    old(self)@.in_bounds(i, jj) && jj < j ==> #[trigger] self@.bgs[jj][i]
                        == rect_target_color(
                        x as int,
                        y as int,
                        width as int,
                        height as int,
                        sbg,
                        fbg,
                        border_only,
                        old(self)@.bgs[jj][i],
                        i,
                        jj,
                    ),
                forall|i: int, jj: int|
                    old(self)@.in_bounds(i, jj) && jj >= j ==> #[trigger] self@.chars[jj][i] == old(self)@.chars[jj][i],
                forall|i: int, jj: int|
                    old(self)@.in_bounds(i, jj) && jj >= j ==> #[trigger] self@.fgs[jj][i] == old(self)@.fgs[jj][i],
                forall|i: int, jj: int|
                    old(self)@.in_bounds(i, jj) && jj >= j ==> #[trigger] self@.bgs[jj][i] == old(self)@.bgs[jj][i],
            decreases y_end - j,
        {
            let mut i: i64 = x;
            while i < x_end
                invariant
                    self.wf(),
                    y <= j < y_end,
                    x <= i,
                    i <= x_end || i == x,
                    x_end == x + width,
                    y_end == y + height,
                    self@.width == old(self)@.width,
                    self@.height == old(self)@.height,
                    self.out() == old(self).out(),
                    forall|ii: int, jj: int|
                        old(self)@.in_bounds(ii, jj) && (jj < j || (jj == j && ii < i)) ==> (
                        #[trigger] self@.chars[jj][ii]) == rect_target_char(
                            x as int,
                            y as int,
                            width as int,
                            height as int,
                            sc,
                            fc,
                            border_only,
                            old(self)@.chars[jj][ii],
                            ii,
                            jj,
                        ),
                    forall|ii: int, jj: int|
                        old(self)@.in_bounds(ii, jj) && (jj < j || (jj == j && ii < i)) ==> (
                        #[trigger] self@.fgs[jj][ii]) == rect_target_color(
                            x as int,
                            y as int,
                            width as int,
                            height as int,
                            sfg,
                            ffg,
                            border_only,
                            old(self)@.fgs[jj][ii],
                            ii,
                            jj,
                        ),
                    forall|ii: int, jj: int|
                        old(self)@.in_bounds(ii, jj) && (jj < j || (jj == j && ii < i)) ==> (
                        #[trigger] self@.bgs[jj][ii]) == rect_target_color(
                            x as int,
                            y as int,
                            width as int,
                            height as int,
                            sbg,
                            fbg,
                            border_only,
                            old(self)@.bgs[jj][ii],
                            ii,
                            jj,
                        ),
                    forall|ii: int, jj: int|
                        old(self)@.in_bounds(ii, jj) && (jj > j || (jj == j && ii >= i)) ==> (
                        #[trigger] self@.chars[jj][ii]) == old(self)@.chars[jj][ii],
                    forall|ii: int, jj: int|
                        old(self)@.in_bounds(ii, jj) && (jj > j || (jj == j && ii >= i)) ==> (
                        #[trigger] self@.fgs[jj][ii]) == old(self)@.fgs[jj][ii],
                    forall|ii: int, jj: int|
                        old(self)@.in_bounds(ii, jj) && (jj > j || (jj == j && ii >= i)) ==> (
                        #[trigger] self@.bgs[jj][ii]) == old(self)@.bgs[jj][ii],
                decreases x_end - i,
            {
                let border = i == x || i == x_end - 1 || j == y || j == y_end - 1;
                if border {
                    self.pixel(i, j, sc, sfg, sbg);
                } else if !border_only {
                    self.pixel(i, j, fc, ffg, fbg);
                }
                i = i + 1;
            }
            j = j + 1;
        }
    }

    /// Sets every cell of the region to the one character and colors.
    pub fn fill_rect(&mut self, x: i64, y: i64, width: i64, height: i64, c: char, fg: Color, bg: Color)
        requires
            old(self).wf(),
            i64::MIN < x + width <= i64::MAX,
            i64::MIN < y + height <= i64::MAX,
        ensures
            final(self).wf(),
            final(self)@.width == old(self)@.width,
            final(self)@.height == old(self)@.height,
            final(self).out() == old(self).out(),
            forall|i: int, j: int|
                old(self)@.in_bounds(i, j) && in_rect(
                    x as int,
                    y as int,
                    width as int,
                    height as int,
                    i,
                    j,
                ) ==> #[trigger] final(self)@.chars[j][i] == c && final(self)@.fgs[j][i] == blend(
                    old(self)@.fgs[j][i],
                    fg,
                ) && final(self)@.bgs[j][i] == blend(old(self)@.bgs[j][i], bg),
            forall|i: int, j: int|
                old(self)@.in_bounds(i, j) && !in_rect(
                    x as int,
                    y as int,
                    width as int,
                    height as int,
                    i,
                    j,
                ) ==> #[trigger] final(self)@.chars[j][i] == old(self)@.chars[j][i] && final(self)@.fgs[j][i] == old(self)@.fgs[j][i] && final(self)@.bgs[j][i] == old(self)@.bgs[j][i],
    {
        self.paint_rect(x, y, width, height, c, c, fg, bg, fg, bg, false);
    }

    /// Draws only the four border edges of the region.
    pub fn stroke_rect(&mut self, x: i64, y: i64, width: i64, height: i64, c: char, fg: Color, bg: Color)
        requires
            old(self).wf(),
            i64::MIN < x + width <= i64::MAX,
            i64::MIN < y + height <= i64::MAX,
        ensures
            final(self).wf(),
            final(self)@.width == old(self)@.width,
            final(self)@.height == old(self)@.height,
            final(self).out() == old(self).out(),
            forall|i: int, j: int|
                old(self)@.in_bounds(i, j) && on_rect_border(
                    x as int,
                    y as int,
                    width as int,
                    height as int,
                    i,
                    j,
                ) ==> #[trigger] final(self)@.chars[j][i] == c && final(self)@.fgs[j][i] == blend(
                    old(self)@.fgs[j][i],
                    fg,
                ) && final(self)@.bgs[j][i] == blend(old(self)@.bgs[j][i], bg),
            forall|i: int, j: int|
                old(self)@.in_bounds(i, j) && !on_rect_border(
                    x as int,
                    y as int,
                    width as int,
                    height as int,
                    i,
                    j,
                ) ==> #[trigger] final(self)@.chars[j][i] == old(self)@.chars[j][i] && final(self)@.fgs[j][i] == old(self)@.fgs[j][i] && final(self)@.bgs[j][i] == old(self)@.bgs[j][i],
    {
        self.paint_rect(x, y, width, height, c, c, fg, bg, fg, bg, true);
    }

    /// Single-pass combined stroke and fill: border cells take the stroke
    /// character and colors, interior cells the fill character and colors,
    /// and no cell is written twice.
    pub fn rect(
        &mut self,
        x: i64,
        y: i64,
        width: i64,
        height: i64,
        stroke_char: char,
        fill_char: char,
        stroke_fg: Color,
        stroke_bg: Color,
        fill_fg: Color,
        fill_bg: Color,
    )
        requires
            old(self).wf(),
            i64::MIN < x + width <= i64::MAX,
            i64::MIN < y + height <= i64::MAX,
        ensures
            final(self).wf(),
            final(self)@.width == old(self)@.width,
            final(self)@.height == old(self)@.height,
            final(self).out() == old(self).out(),
            forall|i: int, j: int|
                old(self)@.in_bounds(i, j) && on_rect_border(
                    x as int,
                    y as int,
                    width as int,
                    height as int,
                    i,
                    j,
                ) ==> #[trigger] final(self)@.chars[j][i] == stroke_char && final(self)@.fgs[j][i]
                    == blend(old(self)@.fgs[j][i], stroke_fg) && final(self)@.bgs[j][i] == blend(
                    old(self)@.bgs[j][i],
                    stroke_bg,
                ),
            forall|i: int, j: int|
                old(self)@.in_bounds(i, j) && in_rect(
                    x as int,
                    y as int,
                    width as int,
                    height as int,
                    i,
                    j,
                ) && !on_rect_border(x as int, y as int, width as int, height as int, i, j)
                    ==> #[trigger] final(self)@.chars[j][i] == fill_char && final(self)@.fgs[j][i]
                    == blend(old(self)@.fgs[j][i], fill_fg) && final(self)@.bgs[j][i] == blend(
                    old(self)@.bgs[j][i],
                    fill_bg,
                ),
            forall|i: int, j: int|
                old(self)@.in_bounds(i, j) && !in_rect(
                    x as int,
                    y as int,
                    width as int,
                    height as int,
                    i,
                    j,
                ) ==> #[trigger] final(self)@.chars[j][i] == old(self)@.chars[j][i] && final(self)@.fgs[j][i] == old(self)@.fgs[j][i] && final(self)@.bgs[j][i] == old(self)@.bgs[j][i],
    {
        self.paint_rect(
            x,
            y,
            width,
            height,
            stroke_char,
            fill_char,
            stroke_fg,
            stroke_bg,
            fill_fg,
            fill_bg,
            false,
        );
    }
}

impl Gui {
    /// Places each character of the string along the x axis starting at
    /// (x, y), one `pixel` call per character: no wrapping, clipping only
    /// through `pixel`'s own bounds check.
    pub fn horizontal_text(&mut self, x: i64, y: i64, text: &str, fg: Color, bg: Color)
        requires
            old(self).wf(),
            text@.len() <= i64::MAX,
            x + text@.len() <= i64::MAX,
        ensures
            final(self).wf(),
            final(self)@.width == old(self)@.width,
            final(self)@.height == old(self)@.height,
            final(self).out() == old(self).out(),
            forall|i: int, j: int|
                old(self)@.in_bounds(i, j) && j == y && x <= i < x + text@.len() ==> (
                #[trigger] final(self)@.chars[j][i]) == text@[i - x] && final(self)@.fgs[j][i]
                    == blend(old(self)@.fgs[j][i], fg) && final(self)@.bgs[j][i] == blend(
                    old(self)@.bgs[j][i],
                    bg,
                ),
            forall|i: int, j: int|
                old(self)@.in_bounds(i, j) && !(j == y && x <= i < x + text@.len()) ==> (
                #[trigger] final(self)@.chars[j][i]) == old(self)@.chars[j][i] && final(self)@.fgs[j][i] == old(self)@.fgs[j][i] && final(self)@.bgs[j][i] == old(self)@.bgs[j][i],
    {
        let n = text.unicode_len();
        let mut k: usize = 0;
        while k < n
            invariant
                self.wf(),
                0 <= k <= n,
                n == text@.len(),
                n <= i64::MAX,
                x + n <= i64::MAX,
                self@.width == old(self)@.width,
                self@.height == old(self)@.height,
                self.out() == old(self).out(),
                forall|i: int, j: int|
                    old(self)@.in_bounds(i, j) && j == y && x <= i < x + k ==> (
                    #[trigger] self@.chars[j][i]) == text@[i - x] && self@.fgs[j][i] == blend(
                        old(self)@.fgs[j][i],
                        fg,
                    ) && self@.bgs[j][i] == blend(old(self)@.bgs[j][i], bg),
                forall|i: int, j: int|
                    old(self)@.in_bounds(i, j) && !(j == y && x <= i < x + k) ==> (
                    #[trigger] self@.chars[j][i]) == old(self)@.chars[j][i] && self@.fgs[j][i]
                        == old(self)@.fgs[j][i] && self@.bgs[j][i] == old(self)@.bgs[j][i],
            decreases n - k,
        {
            let ghost prev = *self;
            let ch = text.get_char(k);
            self.pixel(x + k as i64, y, ch, fg, bg);
            k = k + 1;
            proof {
                assert forall|i: int, j: int|
                    old(self)@.in_bounds(i, j) && j == y && x <= i < x + k implies (
                self@.chars[j][i]) == text@[i - x] && self@.fgs[j][i] == blend(
                    old(self)@.fgs[j][i],
                    fg,
                ) && self@.bgs[j][i] == blend(old(self)@.bgs[j][i], bg) by {
                    if i < x + k - 1 {
                        assert(prev@.chars[j][i] == text@[i - x]);
                        assert(prev@.fgs[j][i] == blend(old(self)@.fgs[j][i], fg));
                        assert(prev@.bgs[j][i] == blend(old(self)@.bgs[j][i], bg));
                    } else {
                        assert(prev@.chars[j][i] == old(self)@.chars[j][i]);
                        assert(prev@.fgs[j][i] == old(self)@.fgs[j][i]);
                        assert(prev@.bgs[j][i] == old(self)@.bgs[j][i]);
                    }
                }
                assert forall|i: int, j: int|
                    old(self)@.in_bounds(i, j) && !(j == y && x <= i < x + k) implies (
                self@.chars[j][i]) == old(self)@.chars[j][i] && self@.fgs[j][i] == old(
                    self,
                )@.fgs[j][i] && self@.bgs[j][i] == old(self)@.bgs[j][i] by {
                    assert(prev@.chars[j][i] == old(self)@.chars[j][i]);
                    assert(prev@.fgs[j][i] == old(self)@.fgs[j][i]);
                    assert(prev@.bgs[j][i] == old(self)@.bgs[j][i]);
                }
            }
        }
    }

    /// Places each character of the string along the y axis starting at
    /// (x, y), one `pixel` call per character.
    pub fn vertical_text(&mut self, x: i64, y: i64, text: &str, fg: Color, bg: Color)
        requires
            old(self).wf(),
            text@.len() <= i64::MAX,
            y + text@.len() <= i64::MAX,
        ensures
            final(self).wf(),
            final(self)@.width == old(self)@.width,
            final(self)@.height == old(self)@.height,
            final(self).out() == old(self).out(),
            forall|i: int, j: int|
                old(self)@.in_bounds(i, j) && i == x && y <= j < y + text@.len() ==> (
                #[trigger] final(self)@.chars[j][i]) == text@[j - y] && final(self)@.fgs[j][i]
                    == blend(old(self)@.fgs[j][i], fg) && final(self)@.bgs[j][i] == blend(
                    old(self)@.bgs[j][i],
                    bg,
                ),
            forall|i: int, j: int|
                old(self)@.in_bounds(i, j) && !(i == x && y <= j < y + text@.len()) ==> (
                #[trigger] final(self)@.chars[j][i]) == old(self)@.chars[j][i] && final(self)@.fgs[j][i] == old(self)@.fgs[j][i] && final(self)@.bgs[j][i] == old(self)@.bgs[j][i],
    {
        let n = text.unicode_len();
        let mut k: usize = 0;
        while k < n
            invariant
                self.wf(),
                0 <= k <= n,
                n == text@.len(),
                n <= i64::MAX,
                y + n <= i64::MAX,
                self@.width == old(self)@.width,
                self@.height == old(self)@.height,
                self.out() == old(self).out(),
                forall|i: int, j: int|
                    old(self)@.in_bounds(i, j) && i == x && y <= j < y + k ==> (
                    #[trigger] self@.chars[j][i]) == text@[j - y] && self@.fgs[j][i] == blend(
                        old(self)@.fgs[j][i],
                        fg,
                    ) && self@.bgs[j][i] == blend(old(self)@.bgs[j][i], bg),
                forall|i: int, j: int|
                    old(self)@.in_bounds(i, j) && !(i == x && y <= j < y + k) ==> (
                    #[trigger] self@.chars[j][i]) == old(self)@.chars[j][i] && self@.fgs[j][i]
                        == old(self)@.fgs[j][i] && self@.bgs[j][i] == old(self)@.bgs[j][i],
            decreases n - k,
        {
            let ghost prev = *self;
            let ch = text.get_char(k);
            self.pixel(x, y + k as i64, ch, fg, bg);
            k = k + 1;
            proof {
                assert forall|i: int, j: int|
                    old(self)@.in_bounds(i, j) && i == x && y <= j < y + k implies (
                self@.chars[j][i]) == text@[j - y] && self@.fgs[j][i] == blend(
                    old(self)@.fgs[j][i],
                    fg,
                ) && self@.bgs[j][i] == blend(old(self)@.bgs[j][i], bg) by {
                    if j < y + k - 1 {
                        assert(prev@.chars[j][i] == text@[j - y]);
                        assert(prev@.fgs[j][i] == blend(old(self)@.fgs[j][i], fg));
                        assert(prev@.bgs[j][i] == blend(old(self)@.bgs[j][i], bg));
                    } else {
                        assert(prev@.chars[j][i] == old(self)@.chars[j][i]);
                        assert(prev@.fgs[j][i] == old(self)@.fgs[j][i]);
                        assert(prev@.bgs[j][i] == old(self)@.bgs[j][i]);
                    }
                }
                assert forall|i: int, j: int|
                    old(self)@.in_bounds(i, j) && !(i == x && y <= j < y + k) implies (
                self@.chars[j][i]) == old(self)@.chars[j][i] && self@.fgs[j][i] == old(
                    self,
                )@.fgs[j][i] && self@.bgs[j][i] == old(self)@.bgs[j][i] by {
                    assert(prev@.chars[j][i] == old(self)@.chars[j][i]);
                    assert(prev@.fgs[j][i] == old(self)@.fgs[j][i]);
                    assert(prev@.bgs[j][i] == old(self)@.bgs[j][i]);
                }
            }
        }
    }
}

impl Gui {
    /// Serializes the grid in row-major order into the output buffer, whose
    /// length is reset to zero first: per cell the foreground escape, the
    /// background escape and the glyph; a newline after each row; one reset
    /// sequence after the last row. The grids themselves are untouched.
    #[verifier::rlimit(50)]
    pub fn render(&mut self)
        requires
            old(self).wf(),
        ensures
            final(self).wf(),
            final(self)@ == old(self)@,
            final(self).out() == frame_chars(old(self)@),
    {
        self.print_buffer.clear();
        proof {
            lemma_out_eq(*self);
        }
        let h = self.height;
        let w = self.width;
        let mut y: i64 = 0;
        while y < h
            invariant
                self.wf(),
                0 <= y <= h,
                w == self@.width,
                h == self@.height,
                self@ == old(self)@,
                self.print_buffer@ == rows_prefix(old(self)@, y as int),
            decreases h - y,
        {
            let mut x: i64 = 0;
            proof {
                assert(rows_prefix(old(self)@, y as int) + row_prefix(old(self)@, y as int, 0)
                    =~= rows_prefix(old(self)@, y as int));
            }
            while x < w
                invariant
                    self.wf(),
                    0 <= y < h,
                    0 <= x <= w,
                    w == self@.width,
                    h == self@.height,
                    self@ == old(self)@,
                    self.print_buffer@ == rows_prefix(old(self)@, y as int) + row_prefix(
                        old(self)@,
                        y as int,
                        x as int,
                    ),
                decreases w - x,
            {
                proof {
                    lemma_view_rows(*self);
                }
                let ch = self.character_buffer[y as usize][x as usize];
                let fg = self.foreground_color_buffer[y as usize][x as usize];
                let bg = self.background_color_buffer[y as usize][x as usize];
                let ghost base = rows_prefix(old(self)@, y as int);
                let ghost rpx = row_prefix(old(self)@, y as int, x as int);
                let ghost pb0 = self.print_buffer@;
                push_color_code(&mut self.print_buffer, '3', fg);
                push_color_code(&mut self.print_buffer, '4', bg);
                self.print_buffer.push(ch);
                proof {
                    lemma_append_cell(pb0, color_code('3', fg), color_code('4', bg), ch);
                    assert(self.print_buffer@ == pb0 + cell_chars(ch, fg, bg));
                    lemma_concat_assoc(base, rpx, cell_chars(ch, fg, bg));
                    assert(row_prefix(old(self)@, y as int, x as int + 1) == rpx + cell_chars(
                        ch,
                        fg,
                        bg,
                    ));
                }
                x = x + 1;
            }
            let ghost base = rows_prefix(old(self)@, y as int);
            let ghost rpw = row_prefix(old(self)@, y as int, w as int);
            self.print_buffer.push('\n');
            proof {
                lemma_push_append(base, rpw, '\n');
            }
            y = y + 1;
            proof {
                assert(self.print_buffer@ == rows_prefix(old(self)@, y as int));
            }
        }
        let ghost whole = rows_prefix(old(self)@, h as int);
        self.print_buffer.push('\x1b');
        self.print_buffer.push('[');
        self.print_buffer.push('m');
        proof {
            lemma_push3(whole, '\x1b', '[', 'm');
            assert(self.print_buffer@ == frame_chars(old(self)@));
            lemma_out_eq(*self);
        }
    }
}


} // verus!
