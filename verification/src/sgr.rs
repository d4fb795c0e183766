use vstd::prelude::*;
use crate::pattern::{free_of, lemma_free_concat};

verus! {

/// The decimal digits of `n`, most significant first, as ASCII bytes with
/// no padding and no sign.
pub open spec fn spec_dec(n: int) -> Seq<u8>
    recommends
        0 <= n,
    decreases n,
{
    if n <= 9 {
        seq![(48 + n) as u8]
    } else {
        spec_dec(n / 10) + seq![(48 + n % 10) as u8]
    }
}

/// `ESC [`, the control sequence introducer that opens every SGR code.
pub open spec fn spec_csi() -> Seq<u8> {
    seq![27u8, 91u8]
}

/// `ESC [ 38;2;R;G;B m`: set the foreground to a 24-bit color, channels in
/// the order red, green, blue, each as unpadded decimal.
pub open spec fn spec_fg(r: u8, g: u8, b: u8) -> Seq<u8> {
    spec_csi() + seq![51u8, 56u8, 59u8, 50u8, 59u8] + spec_dec(r as int) + seq![59u8]
        + spec_dec(g as int) + seq![59u8] + spec_dec(b as int) + seq![109u8]
}

/// `ESC [ 48;2;R;G;B m`: set the background to a 24-bit color.
pub open spec fn spec_bg(r: u8, g: u8, b: u8) -> Seq<u8> {
    spec_csi() + seq![52u8, 56u8, 59u8, 50u8, 59u8] + spec_dec(r as int) + seq![59u8]
        + spec_dec(g as int) + seq![59u8] + spec_dec(b as int) + seq![109u8]
}

/// `ESC [ 49 m`: reset the background to the terminal default, leaving the
/// foreground untouched.
pub open spec fn spec_reset_bg() -> Seq<u8> {
    spec_csi() + seq![52u8, 57u8, 109u8]
}

/// `ESC [ 0 m`: clear all active SGR attributes.
pub open spec fn spec_full_reset() -> Seq<u8> {
    spec_csi() + seq![48u8, 109u8]
}

/// The UTF-8 bytes of U+2580, the upper half block.
pub open spec fn spec_upper_half_block() -> Seq<u8> {
    seq![226u8, 150u8, 128u8]
}

/// The UTF-8 bytes of U+2584, the lower half block.
pub open spec fn spec_lower_half_block() -> Seq<u8> {
    seq![226u8, 150u8, 132u8]
}

/// A single space.
pub open spec fn spec_space() -> Seq<u8> {
    seq![32u8]
}

/// Appends the unpadded decimal digits of `n`.
pub fn push_dec(out: &mut Vec<u8>, n: u8)
    ensures
        final(out)@ == old(out)@ + spec_dec(n as int),
{
    if n >= 100 {
        let q: u8 = n / 10;
        out.push(48 + q / 10);
        out.push(48 + q % 10);
        out.push(48 + n % 10);
        proof {
            reveal_with_fuel(spec_dec, 4);
            assert(out@ =~= old(out)@ + spec_dec(n as int));
        }
    } else if n >= 10 {
        out.push(48 + n / 10);
        out.push(48 + n % 10);
        proof {
            reveal_with_fuel(spec_dec, 3);
            assert(out@ =~= old(out)@ + spec_dec(n as int));
        }
    } else {
        out.push(48 + n);
        proof {
            reveal_with_fuel(spec_dec, 2);
            assert(out@ =~= old(out)@ + spec_dec(n as int));
        }
    }
}

/// Appends `ESC [ 38;2;r;g;b m`.
pub fn push_fg(out: &mut Vec<u8>, r: u8, g: u8, b: u8)
    ensures
        final(out)@ == old(out)@ + spec_fg(r, g, b),
{
    out.push(27);
    out.push(91);
    out.push(51);
    out.push(56);
    out.push(59);
    out.push(50);
    out.push(59);
    push_dec(out, r);
    out.push(59);
    push_dec(out, g);
    out.push(59);
    push_dec(out, b);
    out.push(109);
    proof {
        assert(out@ =~= old(out)@ + spec_fg(r, g, b));
    }
}

/// Appends `ESC [ 48;2;r;g;b m`.
pub fn push_bg(out: &mut Vec<u8>, r: u8, g: u8, b: u8)
    ensures
        final(out)@ == old(out)@ + spec_bg(r, g, b),
{
    out.push(27);
    out.push(91);
    out.push(52);
    out.push(56);
    out.push(59);
    out.push(50);
    out.push(59);
    push_dec(out, r);
    out.push(59);
    push_dec(out, g);
    out.push(59);
    push_dec(out, b);
    out.push(109);
    proof {
        assert(out@ =~= old(out)@ + spec_bg(r, g, b));
    }
}

/// Appends `ESC [ 49 m`.
pub fn push_reset_bg(out: &mut Vec<u8>)
    ensures
        final(out)@ == old(out)@ + spec_reset_bg(),
{
    out.push(27);
    out.push(91);
    out.push(52);
    out.push(57);
    out.push(109);
    proof {
        assert(out@ =~= old(out)@ + spec_reset_bg());
    }
}

/// Appends `ESC [ 0 m`.
pub fn push_full_reset(out: &mut Vec<u8>)
    ensures
        final(out)@ == old(out)@ + spec_full_reset(),
{
    out.push(27);
    out.push(91);
    out.push(48);
    out.push(109);
    proof {
        assert(out@ =~= old(out)@ + spec_full_reset());
    }
}

/// Appends the upper half block glyph.
pub fn push_upper_half_block(out: &mut Vec<u8>)
    ensures
        final(out)@ == old(out)@ + spec_upper_half_block(),
{
    out.push(226);
    out.push(150);
    out.push(128);
    proof {
        assert(out@ =~= old(out)@ + spec_upper_half_block());
    }
}

/// Appends the lower half block glyph.
pub fn push_lower_half_block(out: &mut Vec<u8>)
    ensures
        final(out)@ == old(out)@ + spec_lower_half_block(),
{
    out.push(226);
    out.push(150);
    out.push(132);
    proof {
        assert(out@ =~= old(out)@ + spec_lower_half_block());
    }
}

/// Appends a space.
pub fn push_space(out: &mut Vec<u8>)
    ensures
        final(out)@ == old(out)@ + spec_space(),
{
    out.push(32);
    proof {
        assert(out@ =~= old(out)@ + spec_space());
    }
}

/// The four bytes `ESC [ 4 8` that open every set-background sequence:
/// a run of bytes holds a set-background sequence only if it holds these.
pub open spec fn spec_bg_intro() -> Seq<u8> {
    seq![27u8, 91u8, 52u8, 56u8]
}

/// Every set-background sequence opens with `spec_bg_intro()`.
pub proof fn lemma_bg_starts_with_intro(r: u8, g: u8, b: u8)
    ensures
        spec_bg(r, g, b).len() >= 4,
        spec_bg(r, g, b).subrange(0, 4) == spec_bg_intro(),
{
    lemma_dec_digits(r as int);
    lemma_dec_digits(g as int);
    lemma_dec_digits(b as int);
    assert(spec_bg(r, g, b).subrange(0, 4) =~= spec_bg_intro());
}

/// The decimal digits of a non-negative number are ASCII digits, and
/// there is at least one of them.
pub proof fn lemma_dec_digits(n: int)
    requires
        0 <= n,
    ensures
        spec_dec(n).len() >= 1,
        forall|j: int| 0 <= j < spec_dec(n).len() ==> (48 <= #[trigger] spec_dec(n)[j] <= 57),
    decreases n,
{
    if n <= 9 {
    } else {
        lemma_dec_digits(n / 10);
        assert forall|j: int| 0 <= j < spec_dec(n).len() implies (48 <= #[trigger] spec_dec(n)[j]
            <= 57) by {
            if j < spec_dec(n / 10).len() {
                assert(spec_dec(n)[j] == spec_dec(n / 10)[j]);
            } else {
                assert(spec_dec(n)[j] == (48 + n % 10) as u8);
            }
        }
    }
}

/// Shape of a foreground sequence, as a row scan needs it: the escape
/// byte stands first and nowhere else, no byte is the closing byte of the
/// lower half block, the third byte is the digit 3, and the last is `m`.
pub proof fn lemma_fg_shape(r: u8, g: u8, b: u8)
    ensures
        spec_fg(r, g, b).len() >= 7,
        spec_fg(r, g, b)[0] == 27,
        spec_fg(r, g, b)[2] == 51,
        forall|j: int| 1 <= j < spec_fg(r, g, b).len() ==> #[trigger] spec_fg(r, g, b)[j] != 27,
        free_of(spec_fg(r, g, b), 132),
        spec_fg(r, g, b)[spec_fg(r, g, b).len() - 1] == 109,
{
    lemma_dec_digits(r as int);
    lemma_dec_digits(g as int);
    lemma_dec_digits(b as int);
    let head = seq![91u8, 51u8, 56u8, 59u8, 50u8, 59u8];
    let tail = head + spec_dec(r as int) + seq![59u8] + spec_dec(g as int) + seq![59u8]
        + spec_dec(b as int) + seq![109u8];
    assert(spec_fg(r, g, b) =~= seq![27u8] + tail);
    assert(free_of(head, 27));
    assert(free_of(seq![59u8], 27));
    assert(free_of(seq![109u8], 27));
    assert(free_of(spec_dec(r as int), 27));
    assert(free_of(spec_dec(g as int), 27));
    assert(free_of(spec_dec(b as int), 27));
    lemma_free_concat(head, spec_dec(r as int), 27);
    lemma_free_concat(head + spec_dec(r as int), seq![59u8], 27);
    lemma_free_concat(head + spec_dec(r as int) + seq![59u8], spec_dec(g as int), 27);
    lemma_free_concat(head + spec_dec(r as int) + seq![59u8] + spec_dec(g as int), seq![59u8], 27);
    lemma_free_concat(
        head + spec_dec(r as int) + seq![59u8] + spec_dec(g as int) + seq![59u8],
        spec_dec(b as int),
        27,
    );
    lemma_free_concat(
        head + spec_dec(r as int) + seq![59u8] + spec_dec(g as int) + seq![59u8] + spec_dec(
            b as int,
        ),
        seq![109u8],
        27,
    );
    assert forall|j: int| 1 <= j < spec_fg(r, g, b).len() implies #[trigger] spec_fg(r, g, b)[j]
        != 27 by {
        assert(spec_fg(r, g, b)[j] == tail[j - 1]);
    }
    assert(free_of(head, 132));
    assert(free_of(seq![59u8], 132));
    assert(free_of(seq![109u8], 132));
    assert(free_of(spec_dec(r as int), 132));
    assert(free_of(spec_dec(g as int), 132));
    assert(free_of(spec_dec(b as int), 132));
    lemma_free_concat(head, spec_dec(r as int), 132);
    lemma_free_concat(head + spec_dec(r as int), seq![59u8], 132);
    lemma_free_concat(head + spec_dec(r as int) + seq![59u8], spec_dec(g as int), 132);
    lemma_free_concat(head + spec_dec(r as int) + seq![59u8] + spec_dec(g as int), seq![59u8], 132);
    lemma_free_concat(
        head + spec_dec(r as int) + seq![59u8] + spec_dec(g as int) + seq![59u8],
        spec_dec(b as int),
        132,
    );
    lemma_free_concat(
        head + spec_dec(r as int) + seq![59u8] + spec_dec(g as int) + seq![59u8] + spec_dec(
            b as int,
        ),
        seq![109u8],
        132,
    );
    lemma_free_concat(seq![27u8], tail, 132);
    assert(spec_fg(r, g, b)[spec_fg(r, g, b).len() - 1] == tail[tail.len() - 1]);
    assert(tail[tail.len() - 1] == 109);
}

} // verus!
