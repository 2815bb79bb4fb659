//! The passes of one blur: down a chain of halved extents and up again, between
//! two textures.

use crate::geometry::{Size, max_of};
use vstd::arithmetic::power2::pow2;
use vstd::bits::lemma_u32_shr_is_div;
use vstd::prelude::*;

verus! {

/// One pass: it reads one extent and writes another.
#[derive(Clone, Copy, Debug, PartialEq, Eq, Structural)]
pub struct BlurPass {
    pub src_shift: u32,
    pub dst_shift: u32,
    pub src: Size,
    pub dst: Size,
}

/// An extent halved `shift` times, at least 1.
pub open spec fn halved(extent: int, shift: nat) -> int {
    max_of(extent / (pow2(shift) as int), 1)
}

pub open spec fn level(alloc: Size, shift: nat) -> Size {
    Size { w: halved(alloc.w as int, shift) as i32, h: halved(alloc.h as int, shift) as i32 }
}

/// Pass `i` of `2 * passes`.
pub open spec fn pass_of(alloc: Size, passes: int, i: int) -> BlurPass {
    let (src, dst) = if i < passes {
        (i, i + 1)
    } else {
        (2 * passes - i, 2 * passes - i - 1)
    };
    BlurPass {
        src_shift: src as u32,
        dst_shift: dst as u32,
        src: level(alloc, src as nat),
        dst: level(alloc, dst as nat),
    }
}

fn halved_extent(extent: i32, shift: u32) -> (r: i32)
    requires
        extent >= 0,
        shift < 32,
    ensures
        r == halved(extent as int, shift as nat),
{
    proof {
        lemma_u32_shr_is_div(extent as u32, shift);
        vstd::arithmetic::power2::lemma_pow2_pos(shift as nat);
        let p = pow2(shift as nat) as int;
        assert(0 <= extent as int / p <= extent) by (nonlinear_arith)
            requires
                p >= 1,
                extent >= 0,
        ;
    }
    let e: u32 = (extent as u32) >> shift;
    if e >= 1 {
        e as i32
    } else {
        1
    }
}

/// Pass `i` of one direction: `downscale` from each extent to the next smaller
/// one, otherwise back up.
pub fn blur_pass(alloc: Size, i: u32, passes: u32, downscale: bool) -> (pass: BlurPass)
    requires
        alloc.valid(),
        i < passes < 32,
    ensures
        pass == pass_of(
            alloc,
            passes as int,
            if downscale {
                i as int
            } else {
                passes + i
            },
        ),
{
    let src_shift: u32 = if downscale {
        i
    } else {
        passes - i
    };
    let dst_shift: u32 = if downscale {
        i + 1
    } else {
        passes - i - 1
    };
    BlurPass {
        src_shift,
        dst_shift,
        src: Size {
            w: halved_extent(alloc.w, src_shift),
            h: halved_extent(alloc.h, src_shift),
        },
        dst: Size {
            w: halved_extent(alloc.w, dst_shift),
            h: halved_extent(alloc.h, dst_shift),
        },
    }
}

/// All passes of a blur, in order. The textures change roles after each.
pub fn render_blur(alloc: Size, passes: u32) -> (chain: Vec<BlurPass>)
    requires
        alloc.valid(),
        passes < 32,
    ensures
        chain@.len() == 2 * passes,
        forall|i: int|
            0 <= i < 2 * passes ==> #[trigger] chain@[i] == pass_of(alloc, passes as int, i),
{
    let mut chain: Vec<BlurPass> = Vec::new();
    let mut i: u32 = 0;
    while i < passes
        invariant
            i <= passes < 32,
            alloc.valid(),
            chain@.len() == i,
            forall|k: int| 0 <= k < i ==> #[trigger] chain@[k] == pass_of(alloc, passes as int, k),
        decreases passes - i,
    {
        chain.push(blur_pass(alloc, i, passes, true));
        i = i + 1;
    }
    let mut i: u32 = 0;
    while i < passes
        invariant
            i <= passes < 32,
            alloc.valid(),
            chain@.len() == passes + i,
            forall|k: int|
                0 <= k < passes + i ==> #[trigger] chain@[k] == pass_of(alloc, passes as int, k),
        decreases passes - i,
    {
        chain.push(blur_pass(alloc, i, passes, false));
        i = i + 1;
    }
    chain
}

/// Every pass reads what the one before it wrote; the first reads and the last
/// writes the whole allocation.
pub proof fn law_passes_form_a_chain(alloc: Size, passes: int, i: int)
    requires
        0 <= i < 2 * passes,
        passes < 32,
    ensures
        i + 1 < 2 * passes ==> pass_of(alloc, passes, i).dst == pass_of(alloc, passes, i + 1).src,
        pass_of(alloc, passes, 0).src == level(alloc, 0),
        pass_of(alloc, passes, 2 * passes - 1).dst == level(alloc, 0),
        alloc.positive() ==> level(alloc, 0) == alloc,
{
    vstd::arithmetic::power2::lemma2_to64();
    assert(alloc.w as int / 1 == alloc.w);
    assert(alloc.h as int / 1 == alloc.h);
}

/// Down, every pass writes half of what it reads on either axis, but never less
/// than a pixel; up, every pass writes what the pass on the way down read. The
/// deepest level is as many halvings down as there are passes.
pub proof fn law_passes_go_down_and_up(alloc: Size, passes: int, i: int)
    requires
        alloc.valid(),
        0 <= i < passes < 32,
    ensures
        ({
            let down = pass_of(alloc, passes, i);
            let up = pass_of(alloc, passes, 2 * passes - 1 - i);
            &&& down.src_shift == i && down.dst_shift == i + 1
            &&& up.src_shift == i + 1 && up.dst_shift == i
            &&& up.src == down.dst && up.dst == down.src
            &&& down.dst.w == max_of(down.src.w as int / 2, 1)
            &&& down.dst.h == max_of(down.src.h as int / 2, 1)
        }),
{
    lemma_halving(alloc.w as int, i as nat);
    lemma_halving(alloc.h as int, i as nat);
}

proof fn lemma_halving(extent: int, shift: nat)
    requires
        0 <= extent <= i32::MAX,
    ensures
        halved(extent, shift + 1) == max_of(halved(extent, shift) / 2, 1),
        1 <= halved(extent, shift) <= i32::MAX,
{
    let d = pow2(shift) as int;
    vstd::arithmetic::power2::lemma_pow2_pos(shift);
    vstd::arithmetic::power2::lemma_pow2_unfold(shift + 1);
    vstd::arithmetic::div_mod::lemma_div_denominator(extent, d, 2);
    assert(d * 2 == pow2(shift + 1));
    vstd::arithmetic::div_mod::lemma_div_pos_is_pos(extent, d);
    vstd::arithmetic::div_mod::lemma_div_is_ordered_by_denominator(extent, 1, d);
}

} // verus!
