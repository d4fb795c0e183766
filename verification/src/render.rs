use vstd::prelude::*;
use crate::encode::{encode_into, spec_encode};
use crate::grid::{spec_transparent, Pixel, PixelGrid};
use crate::pattern::{
    absent, free_of, lemma_absent_concat, lemma_absent_esc_seq, lemma_absent_if_free,
    lemma_free_concat,
};
use crate::sgr::{
    lemma_fg_shape, spec_bg_intro, spec_fg, spec_full_reset, spec_lower_half_block, spec_reset_bg,
    spec_space, spec_upper_half_block, push_full_reset,
};

verus! {

/// The bottom pixel of the cell at column `x` whose top source row is `y`:
/// the real pixel when row `y + 1` exists, otherwise the synthetic
/// transparent pixel.
pub open spec fn spec_bottom(g: PixelGrid, x: int, y: int) -> Pixel {
    if y + 1 < g.height {
        g.pixel_at(x, y + 1)
    } else {
        spec_transparent()
    }
}

/// The encoding of the cell at column `x` whose top source row is `y`.
pub open spec fn spec_cell(g: PixelGrid, x: int, y: int) -> Seq<u8> {
    spec_encode(g.pixel_at(x, y), spec_bottom(g, x, y))
}

/// The first `n` cells, left to right, of the terminal row whose top
/// source row is `y`.
pub open spec fn spec_cells(g: PixelGrid, y: int, n: int) -> Seq<u8>
    decreases n,
{
    if n <= 0 {
        Seq::empty()
    } else {
        spec_cells(g, y, n - 1) + spec_cell(g, n - 1, y)
    }
}

/// Terminal row `r` in full: one cell per column, then a full reset, then
/// a newline.
pub open spec fn spec_row(g: PixelGrid, r: int) -> Seq<u8> {
    spec_cells(g, 2 * r, g.width as int) + spec_full_reset() + seq![10u8]
}

/// The number of terminal rows: half the pixel rows, rounded up, and zero
/// for an image with no columns.
pub open spec fn num_rows(g: PixelGrid) -> int {
    if g.width == 0 {
        0
    } else {
        (g.height + 1) / 2
    }
}

/// The first `k` terminal rows, concatenated.
pub open spec fn spec_rows(g: PixelGrid, k: int) -> Seq<u8>
    decreases k,
{
    if k <= 0 {
        Seq::empty()
    } else {
        spec_rows(g, k - 1) + spec_row(g, k - 1)
    }
}

/// The complete frame for `g`.
pub open spec fn spec_render(g: PixelGrid) -> Seq<u8> {
    spec_rows(g, num_rows(g))
}

/// Renders the whole grid: terminal rows from top to bottom, each pairing
/// pixel rows `2r` and `2r + 1`, with a fully transparent bottom half when
/// the height is odd and row `2r + 1` does not exist.
pub fn render(g: &PixelGrid) -> (out: Vec<u8>)
    requires
        g.wf(),
    ensures
        out@ == spec_render(*g),
{
    let mut out: Vec<u8> = Vec::new();
    if g.width == 0 || g.height == 0 {
        return out;
    }
    let mut y: usize = 0;
    let ghost mut rows: int = 0;
    while y < g.height
        invariant
            g.wf(),
            g.width > 0,
            0 <= rows <= num_rows(*g),
            out@ == spec_rows(*g, rows),
            y <= g.height,
            y < g.height ==> y == 2 * rows,
            y >= g.height ==> rows == num_rows(*g),
        decreases g.height - y,
    {
        let mut x: usize = 0;
        while x < g.width
            invariant
                g.wf(),
                y < g.height,
                y == 2 * rows,
                x <= g.width,
                out@ == spec_rows(*g, rows) + spec_cells(*g, y as int, x as int),
            decreases g.width - x,
        {
            let top = g.get(x, y);
            let bottom = if y + 1 < g.height {
                g.get(x, y + 1)
            } else {
                Pixel::transparent()
            };
            encode_into(&mut out, top, bottom);
            proof {
                assert(bottom == spec_bottom(*g, x as int, y as int));
                assert(spec_cells(*g, y as int, x as int + 1) == spec_cells(*g, y as int, x as int)
                    + spec_cell(*g, x as int, y as int));
                assert(out@ =~= spec_rows(*g, rows) + spec_cells(*g, y as int, x as int + 1));
            }
            x = x + 1;
        }
        push_full_reset(&mut out);
        out.push(10u8);
        proof {
            assert(spec_rows(*g, rows + 1) == spec_rows(*g, rows) + spec_row(*g, rows));
            assert(out@ =~= spec_rows(*g, rows + 1));
            rows = rows + 1;
        }
        if g.height - y >= 2 {
            y = y + 2;
        } else {
            y = g.height;
        }
    }
    proof {
        assert(out@ == spec_render(*g));
    }
    out
}

/// An image with no columns or no rows renders to the empty byte sequence.
pub proof fn lemma_render_empty(g: PixelGrid)
    requires
        g.width == 0 || g.height == 0,
    ensures
        spec_render(g) == Seq::<u8>::empty(),
{
}

/// Rendering is deterministic: the frame is a function of the grid alone,
/// so any two outputs of `render` for the same grid are byte-identical.
pub proof fn lemma_render_deterministic(g: PixelGrid, first: Seq<u8>, second: Seq<u8>)
    requires
        first == spec_render(g),
        second == spec_render(g),
    ensures
        first == second,
{
}

/// On an image of odd height the frame has `(height + 1) / 2` terminal
/// rows, the last of them pairing the final pixel row with the synthetic
/// transparent pixel. Every cell of that last row is either a foreground
/// color with a background reset and the upper half block, or a full reset
/// with a space: it never holds a background color or the lower half
/// block.
pub proof fn lemma_odd_height_last_row(g: PixelGrid, x: int)
    requires
        g.wf(),
        g.width > 0,
        g.height % 2 == 1,
        0 <= x < g.width,
    ensures
        num_rows(g) == (g.height + 1) / 2,
        2 * (num_rows(g) - 1) == g.height - 1,
        spec_bottom(g, x, g.height - 1) == spec_transparent(),
        ({
            let top = g.pixel_at(x, g.height - 1);
            spec_cell(g, x, g.height - 1) == if top.a > 0 {
                spec_fg(top.r, top.g, top.b) + spec_reset_bg() + spec_upper_half_block()
            } else {
                spec_full_reset() + spec_space()
            }
        }),
{
}

/// The background-reset sequence holds no set-background intro and no
/// closing byte of the lower half block.
proof fn lemma_reset_bg_scan()
    ensures
        absent(spec_reset_bg(), spec_bg_intro()),
        free_of(spec_reset_bg(), 132),
{
    let s = spec_reset_bg();
    assert(s =~= seq![27u8, 91u8, 52u8, 57u8, 109u8]);
    assert(s.subrange(0, 4) != spec_bg_intro()) by {
        assert(s.subrange(0, 4)[3] == s[3]);
        assert(spec_bg_intro()[3] == 56);
    }
    lemma_absent_esc_seq(s, spec_bg_intro());
}

/// The full-reset sequence holds no set-background intro and no closing
/// byte of the lower half block.
proof fn lemma_full_reset_scan()
    ensures
        absent(spec_full_reset(), spec_bg_intro()),
        free_of(spec_full_reset(), 132),
        spec_full_reset().len() >= 1,
        spec_full_reset()[spec_full_reset().len() - 1] == 109,
{
    let s = spec_full_reset();
    assert(s =~= seq![27u8, 91u8, 48u8, 109u8]);
    assert(s.subrange(0, 4) != spec_bg_intro()) by {
        assert(s.subrange(0, 4)[2] == s[2]);
        assert(spec_bg_intro()[2] == 52);
    }
    lemma_absent_esc_seq(s, spec_bg_intro());
}

/// A cell whose bottom pixel is invisible holds no set-background intro
/// and no closing byte of the lower half block, and ends in a glyph byte:
/// the last byte of the upper half block, or the space.
proof fn lemma_cell_scan(top: Pixel, bottom: Pixel)
    requires
        bottom.a == 0,
    ensures
        absent(spec_encode(top, bottom), spec_bg_intro()),
        free_of(spec_encode(top, bottom), 132),
        spec_encode(top, bottom).len() >= 1,
        ({
            let c = spec_encode(top, bottom);
            c[c.len() - 1] == 128 || c[c.len() - 1] == 32
        }),
{
    let intro = spec_bg_intro();
    if top.a > 0 {
        let f = spec_fg(top.r, top.g, top.b);
        lemma_fg_shape(top.r, top.g, top.b);
        assert(f.len() >= 4 ==> f.subrange(0, 4) != intro) by {
            if f.len() >= 4 {
                assert(f.subrange(0, 4)[2] == f[2]);
                assert(intro[2] == 52);
            }
        }
        lemma_absent_esc_seq(f, intro);
        lemma_reset_bg_scan();
        assert forall|k: int| 1 <= k < intro.len() implies f.len() < k || f[f.len() - 1]
            != #[trigger] intro[k - 1] by {
            assert(f[f.len() - 1] == 109);
        }
        lemma_absent_concat(f, spec_reset_bg(), intro);
        let fr = f + spec_reset_bg();
        assert(fr[fr.len() - 1] == 109);
        assert(absent(spec_upper_half_block(), intro));
        assert forall|k: int| 1 <= k < intro.len() implies fr.len() < k || fr[fr.len() - 1]
            != #[trigger] intro[k - 1] by {}
        lemma_absent_concat(fr, spec_upper_half_block(), intro);
        lemma_free_concat(f, spec_reset_bg(), 132);
        assert(free_of(spec_upper_half_block(), 132));
        lemma_free_concat(fr, spec_upper_half_block(), 132);
        assert(spec_encode(top, bottom) == fr + spec_upper_half_block());
        assert((fr + spec_upper_half_block())[(fr + spec_upper_half_block()).len() - 1] == 128);
    } else {
        lemma_full_reset_scan();
        let s = spec_full_reset();
        assert(absent(spec_space(), intro));
        assert forall|k: int| 1 <= k < intro.len() implies s.len() < k || s[s.len() - 1]
            != #[trigger] intro[k - 1] by {}
        lemma_absent_concat(s, spec_space(), intro);
        assert(free_of(spec_space(), 132));
        lemma_free_concat(s, spec_space(), 132);
        assert(spec_encode(top, bottom) == s + spec_space());
        assert((s + spec_space())[(s + spec_space()).len() - 1] == 32);
    }
}

/// Every prefix of the cells of the terminal row pairing pixel row
/// `height - 1` with the synthetic transparent pixel holds no
/// set-background intro and no closing byte of the lower half block, and
/// ends in a glyph byte.
proof fn lemma_last_row_cells_scan(g: PixelGrid, n: int)
    requires
        g.height >= 1,
        0 <= n <= g.width,
    ensures
        absent(spec_cells(g, g.height - 1, n), spec_bg_intro()),
        free_of(spec_cells(g, g.height - 1, n), 132),
        n > 0 ==> spec_cells(g, g.height - 1, n).len() >= 1,
        n > 0 ==> ({
            let s = spec_cells(g, g.height - 1, n);
            s[s.len() - 1] == 128 || s[s.len() - 1] == 32
        }),
    decreases n,
{
    let y = g.height - 1;
    if n <= 0 {
        assert(spec_cells(g, y, n) =~= Seq::<u8>::empty());
    } else {
        lemma_last_row_cells_scan(g, n - 1);
        let prev = spec_cells(g, y, n - 1);
        let bot = spec_bottom(g, n - 1, y);
        assert(bot == spec_transparent());
        lemma_cell_scan(g.pixel_at(n - 1, y), bot);
        let cell = spec_cell(g, n - 1, y);
        assert forall|k: int| 1 <= k < spec_bg_intro().len() implies prev.len() < k
            || prev[prev.len() - 1] != #[trigger] spec_bg_intro()[k - 1] by {
            if n - 1 > 0 {
                assert(prev[prev.len() - 1] == 128 || prev[prev.len() - 1] == 32);
            } else {
                assert(prev.len() == 0);
            }
        }
        lemma_absent_concat(prev, cell, spec_bg_intro());
        lemma_free_concat(prev, cell, 132);
        assert(spec_cells(g, y, n) == prev + cell);
        assert((prev + cell)[(prev + cell).len() - 1] == cell[cell.len() - 1]);
    }
}

/// On an image of odd height, the byte sequence of the last terminal row
/// never contains a set-background sequence — every such sequence opens
/// with the four bytes of `spec_bg_intro()`, and those occur nowhere in
/// the row — and never contains the lower-half-block glyph.
pub proof fn lemma_odd_height_last_row_bytes(g: PixelGrid)
    requires
        g.wf(),
        g.width > 0,
        g.height % 2 == 1,
    ensures
        2 * (num_rows(g) - 1) == g.height - 1,
        absent(spec_row(g, num_rows(g) - 1), spec_bg_intro()),
        absent(spec_row(g, num_rows(g) - 1), spec_lower_half_block()),
{
    let y = g.height - 1;
    let r = num_rows(g) - 1;
    assert(2 * r == y);
    lemma_last_row_cells_scan(g, g.width as int);
    let cells = spec_cells(g, y, g.width as int);
    let intro = spec_bg_intro();
    lemma_full_reset_scan();
    let fr = spec_full_reset();
    assert forall|k: int| 1 <= k < intro.len() implies cells.len() < k || cells[cells.len() - 1]
        != #[trigger] intro[k - 1] by {
        assert(cells[cells.len() - 1] == 128 || cells[cells.len() - 1] == 32);
    }
    lemma_absent_concat(cells, fr, intro);
    assert(absent(seq![10u8], intro));
    assert forall|k: int| 1 <= k < intro.len() implies (cells + fr).len() < k || (cells + fr)[(
    cells + fr).len() - 1] != #[trigger] intro[k - 1] by {
        assert((cells + fr)[(cells + fr).len() - 1] == 109);
    }
    lemma_absent_concat(cells + fr, seq![10u8], intro);
    assert(spec_row(g, r) == cells + fr + seq![10u8]);
    lemma_free_concat(cells, fr, 132);
    assert(free_of(seq![10u8], 132));
    lemma_free_concat(cells + fr, seq![10u8], 132);
    assert(spec_lower_half_block()[2] == 132);
    lemma_absent_if_free(spec_row(g, r), spec_lower_half_block(), 2);
}

} // verus!
