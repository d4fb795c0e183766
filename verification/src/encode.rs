use vstd::prelude::*;
use crate::grid::Pixel;
use crate::sgr::{
    spec_bg, spec_fg, spec_full_reset, spec_lower_half_block, spec_reset_bg, spec_space,
    spec_upper_half_block, push_bg, push_fg, push_full_reset, push_lower_half_block,
    push_reset_bg, push_space, push_upper_half_block,
};

verus! {

/// The exact byte sequence for one character cell standing for the pixel
/// pair (`top`, `bottom`). A pixel is visible when its alpha is non-zero:
///
/// - both visible: foreground of `top`, background of `bottom`, upper half
///   block;
/// - only `top` visible: foreground of `top`, background reset, upper half
///   block;
/// - only `bottom` visible: foreground of `bottom`, background reset, lower
///   half block;
/// - neither visible: full reset, space.
///
/// Every cell sets or resets its colors itself, so no SGR state is carried
/// from one cell to the next.
pub open spec fn spec_encode(top: Pixel, bottom: Pixel) -> Seq<u8> {
    if top.a > 0 {
        if bottom.a > 0 {
            spec_fg(top.r, top.g, top.b) + spec_bg(bottom.r, bottom.g, bottom.b)
                + spec_upper_half_block()
        } else {
            spec_fg(top.r, top.g, top.b) + spec_reset_bg() + spec_upper_half_block()
        }
    } else {
        if bottom.a > 0 {
            spec_fg(bottom.r, bottom.g, bottom.b) + spec_reset_bg() + spec_lower_half_block()
        } else {
            spec_full_reset() + spec_space()
        }
    }
}

/// Appends the encoding of one pixel pair to `out`.
pub fn encode_into(out: &mut Vec<u8>, top: Pixel, bottom: Pixel)
    ensures
        final(out)@ == old(out)@ + spec_encode(top, bottom),
{
    if top.a > 0 {
        push_fg(out, top.r, top.g, top.b);
        if bottom.a > 0 {
            push_bg(out, bottom.r, bottom.g, bottom.b);
        } else {
            push_reset_bg(out);
        }
        push_upper_half_block(out);
    } else {
        if bottom.a > 0 {
            push_fg(out, bottom.r, bottom.g, bottom.b);
            push_reset_bg(out);
            push_lower_half_block(out);
        } else {
            push_full_reset(out);
            push_space(out);
        }
    }
    proof {
        assert(out@ =~= old(out)@ + spec_encode(top, bottom));
    }
}

/// Encodes one pixel pair as a fresh byte sequence.
pub fn encode(top: Pixel, bottom: Pixel) -> (out: Vec<u8>)
    ensures
        out@ == spec_encode(top, bottom),
{
    let mut out: Vec<u8> = Vec::new();
    encode_into(&mut out, top, bottom);
    proof {
        assert(out@ =~= spec_encode(top, bottom));
    }
    out
}

/// Both pixels transparent: the cell is exactly a full reset followed by a
/// space.
pub proof fn lemma_encode_both_transparent(top: Pixel, bottom: Pixel)
    requires
        top.a == 0,
        bottom.a == 0,
    ensures
        spec_encode(top, bottom) == spec_full_reset() + spec_space(),
{
}

/// Both pixels visible: the cell is exactly the foreground of `top`, then
/// the background of `bottom`, then the upper half block.
pub proof fn lemma_encode_both_visible(top: Pixel, bottom: Pixel)
    requires
        top.a > 0,
        bottom.a > 0,
    ensures
        spec_encode(top, bottom) == spec_fg(top.r, top.g, top.b)
            + spec_bg(bottom.r, bottom.g, bottom.b) + spec_upper_half_block(),
{
}

/// Only the top pixel visible: the cell is exactly the foreground of `top`,
/// then a background reset, then the upper half block.
pub proof fn lemma_encode_top_only(top: Pixel, bottom: Pixel)
    requires
        top.a > 0,
        bottom.a == 0,
    ensures
        spec_encode(top, bottom) == spec_fg(top.r, top.g, top.b) + spec_reset_bg()
            + spec_upper_half_block(),
{
}

/// Only the bottom pixel visible: the cell is exactly the foreground of
/// `bottom`, then a background reset, then the lower half block.
pub proof fn lemma_encode_bottom_only(top: Pixel, bottom: Pixel)
    requires
        top.a == 0,
        bottom.a > 0,
    ensures
        spec_encode(top, bottom) == spec_fg(bottom.r, bottom.g, bottom.b) + spec_reset_bg()
            + spec_lower_half_block(),
{
}

} // verus!
