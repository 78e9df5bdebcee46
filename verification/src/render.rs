//! The ANSI escape-sequence serializer: turns the grid into one run of
//! escape-coded characters, rebuilt into the reused output buffer each call.

use vstd::prelude::*;
use crate::color::Color;
use crate::gui::GuiView;

verus! {

/// The character for one decimal digit.
pub open spec fn digit_char(d: int) -> char {
    ((48 + d) as u8) as char
}

/// A byte component as exactly three zero-padded decimal digits.
pub open spec fn dec3(v: u8) -> Seq<char> {
    seq![
        digit_char(v as int / 100),
        digit_char((v as int / 10) % 10),
        digit_char(v as int % 10),
    ]
}

/// One 19-character color escape: ESC [ p 8 ; 2 ; RRR ; GGG ; BBB m, where
/// p is '3' for a foreground sequence and '4' for a background one.
pub open spec fn color_code(plane: char, col: Color) -> Seq<char> {
    seq!['\x1b', '[', plane, '8', ';', '2', ';'] + dec3(col.r) + seq![';'] + dec3(col.g)
        + seq![';'] + dec3(col.b) + seq!['m']
}

/// The 39 characters one cell contributes: both color escapes, then its glyph.
pub open spec fn cell_chars(c: char, fg: Color, bg: Color) -> Seq<char> {
    color_code('3', fg) + color_code('4', bg) + seq![c]
}

/// The serialization of the first n cells of row y.
pub open spec fn row_prefix(v: GuiView, y: int, n: int) -> Seq<char>
    decreases n,
{
    if n <= 0 {
        Seq::empty()
    } else {
        row_prefix(v, y, n - 1) + cell_chars(v.chars[y][n - 1], v.fgs[y][n - 1], v.bgs[y][n - 1])
    }
}

/// One full row: its cells, then a newline.
pub open spec fn row_chars(v: GuiView, y: int) -> Seq<char> {
    row_prefix(v, y, v.width) + seq!['\n']
}

/// The serialization of the first n rows.
pub open spec fn rows_prefix(v: GuiView, n: int) -> Seq<char>
    decreases n,
{
    if n <= 0 {
        Seq::empty()
    } else {
        rows_prefix(v, n - 1) + row_chars(v, n - 1)
    }
}

/// Concatenation of character runs is associative.
pub(crate) proof fn lemma_concat_assoc(a: Seq<char>, b: Seq<char>, c: Seq<char>)
    ensures
        (a + b) + c == a + (b + c),
{
    assert((a + b) + c =~= a + (b + c));
}

/// Pushing one character extends the right-hand run.
pub(crate) proof fn lemma_push_append(p: Seq<char>, a: Seq<char>, c: char)
    ensures
        (p + a).push(c) == p + (a + seq![c]),
{
    assert((p + a).push(c) =~= p + (a + seq![c]));
}

/// Appending both color escapes and a glyph appends one cell's characters.
pub(crate) proof fn lemma_append_cell(p: Seq<char>, a: Seq<char>, b: Seq<char>, c: char)
    ensures
        ((p + a) + b).push(c) == p + ((a + b) + seq![c]),
{
    assert(((p + a) + b).push(c) =~= p + ((a + b) + seq![c]));
}

/// Three pushed characters are one appended run of three.
pub(crate) proof fn lemma_push3(p: Seq<char>, a: char, b: char, c: char)
    ensures
        p.push(a).push(b).push(c) == p + seq![a, b, c],
{
    assert(p.push(a).push(b).push(c) =~= p + seq![a, b, c]);
}

/// The whole frame: every row in order, then the closing reset sequence.
pub open spec fn frame_chars(v: GuiView) -> Seq<char> {
    rows_prefix(v, v.height) + seq!['\x1b', '[', 'm']
}

/// Appends the three zero-padded decimal digits of one component.
pub(crate) fn push_dec3(out: &mut Vec<char>, v: u8)
    ensures
        final(out)@ == old(out)@ + dec3(v),
{
    let d0: u8 = v / 100;
    let d1: u8 = (v / 10) % 10;
    let d2: u8 = v % 10;
    out.push((48 + d0) as char);
    out.push((48 + d1) as char);
    out.push((48 + d2) as char);
    proof {
        assert(out@ =~= old(out)@ + dec3(v));
    }
}

/// Appends one color escape sequence.
pub(crate) fn push_color_code(out: &mut Vec<char>, plane: char, col: Color)
    ensures
        final(out)@ == old(out)@ + color_code(plane, col),
{
    out.push('\x1b');
    out.push('[');
    out.push(plane);
    out.push('8');
    out.push(';');
    out.push('2');
    out.push(';');
    push_dec3(out, col.r);
    out.push(';');
    push_dec3(out, col.g);
    out.push(';');
    push_dec3(out, col.b);
    out.push('m');
    proof {
        assert(out@ =~= old(out)@ + color_code(plane, col));
    }
}

proof fn lemma_row_prefix_len(v: GuiView, y: int, n: int)
    requires
        n >= 0,
    ensures
        row_prefix(v, y, n).len() == 39 * n,
    decreases n,
{
    if n > 0 {
        lemma_row_prefix_len(v, y, n - 1);
    }
}

proof fn lemma_rows_prefix_len(v: GuiView, n: int)
    requires
        n >= 0,
        v.width >= 0,
    ensures
        rows_prefix(v, n).len() == n * (39 * v.width + 1),
    decreases n,
{
    if n == 0 {
        assert(n * (39 * v.width + 1) == 0) by (nonlinear_arith)
            requires n == 0;
    } else {
        lemma_rows_prefix_len(v, n - 1);
        lemma_row_prefix_len(v, n - 1, v.width);
        assert(rows_prefix(v, n) == rows_prefix(v, n - 1) + row_chars(v, n - 1));
        assert(row_chars(v, n - 1).len() == 39 * v.width + 1);
        assert((n - 1) * (39 * v.width + 1) + (39 * v.width + 1) == n * (39 * v.width + 1))
            by (nonlinear_arith);
    }
}

/// The serialized frame of a well-formed W×H buffer is 39·W·H + H + 3
/// characters long, and stripping the escape characters (38 per cell plus 3
/// for the closing reset) leaves exactly the W·H visible glyphs and the H
/// newlines.
pub proof fn lemma_frame_len(v: GuiView)
    requires
        v.wf(),
    ensures
        frame_chars(v).len() == 39 * v.width * v.height + v.height + 3,
        frame_chars(v).len() - (38 * v.width * v.height + 3) == v.width * v.height + v.height,
{
    lemma_rows_prefix_len(v, v.height);
    assert(v.height * (39 * v.width + 1) == 39 * v.width * v.height + v.height)
        by (nonlinear_arith);
    assert(39 * v.width * v.height + v.height + 3 - (38 * v.width * v.height + 3) == v.width
        * v.height + v.height) by (nonlinear_arith);
}

} // verus!
