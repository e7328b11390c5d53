//! Un-premultiplication of alpha and removal of the alpha channel.
//!
//! Rendered pages arrive as packed RGBA buffers whose color channels are
//! premultiplied by the alpha value.  The converter restores the true color
//! of every pixel with positive alpha and drops the alpha channel, producing
//! a packed RGB buffer.  A fully transparent pixel maps to black: its true
//! color is unrecoverable, and the conversion deliberately discards it.

use vstd::prelude::*;

verus! {

/// The restored value of one color channel `c` premultiplied by alpha `a`:
/// `c * 255 / a` rounded to the nearest integer (half rounded by the parity
/// of `a`), clamped to the channel range.
pub open spec fn unpremult_channel(c: int, a: int) -> int {
    let v = (c * 255 + a / 2) / a;
    if v > 255 {
        255
    } else {
        v
    }
}

/// Byte `k` of the un-premultiplied RGB buffer for the RGBA buffer `rgba`:
/// channel `k % 3` of pixel `k / 3`.
pub open spec fn rgb_byte(rgba: Seq<u8>, k: int) -> u8 {
    let p = k / 3;
    let a = rgba[4 * p + 3];
    if a == 0 {
        0u8
    } else {
        unpremult_channel(rgba[4 * p + k % 3] as int, a as int) as u8
    }
}

/// The un-premultiplied, alpha-stripped RGB buffer of a packed
/// premultiplied RGBA buffer.  Three output bytes stand for every four
/// input bytes; a trailing fragment of fewer than four bytes is ignored.
pub open spec fn rgb_of(rgba: Seq<u8>) -> Seq<u8> {
    Seq::new(((rgba.len() / 4) * 3) as nat, |k: int| rgb_byte(rgba, k))
}

/// One channel of one pixel, restored.
fn unpremult_channel_exec(c: u8, a: u8) -> (r: u8)
    requires
        a >= 1,
    ensures
        r as int == unpremult_channel(c as int, a as int),
{
    let v: u32 = (c as u32 * 255 + a as u32 / 2) / (a as u32);
    if v > 255 {
        255
    } else {
        v as u8
    }
}

/// Un-premultiply a packed RGBA buffer and drop its alpha channel.
///
/// Every pixel with positive alpha has each channel restored to
/// `min(255, round(channel * 255 / alpha))`; every pixel with alpha 0 is
/// written as black, `(0, 0, 0)`.
pub fn unpremultiply(rgba: &Vec<u8>) -> (out: Vec<u8>)
    ensures
        out@ == rgb_of(rgba@),
{
    let n = rgba.len() / 4;
    proof {
        assert(4 * (rgba@.len() as int / 4) <= rgba@.len()) by (nonlinear_arith);
    }
    let mut out: Vec<u8> = Vec::new();
    let mut i: usize = 0;
    while i < n
        invariant
            n == rgba@.len() as int / 4,
            4 * n <= rgba@.len(),
            rgba@.len() <= usize::MAX,
            i <= n,
            out@.len() == 3 * i,
            forall|k: int| 0 <= k < 3 * i ==> out@[k] == rgb_byte(rgba@, k),
        decreases n - i,
    {
        proof {
            assert(4 * (i as int) + 4 <= 4 * (n as int)) by (nonlinear_arith)
                requires
                    i < n,
            ;
        }
        let a = rgba[4 * i + 3];
        if a == 0 {
            out.push(0);
            out.push(0);
            out.push(0);
        } else {
            out.push(unpremult_channel_exec(rgba[4 * i], a));
            out.push(unpremult_channel_exec(rgba[4 * i + 1], a));
            out.push(unpremult_channel_exec(rgba[4 * i + 2], a));
        }
        proof {
            let s = rgba@;
            let j = i as int;
            assert((3 * j) / 3 == j && (3 * j) % 3 == 0) by (nonlinear_arith);
            assert((3 * j + 1) / 3 == j && (3 * j + 1) % 3 == 1) by (nonlinear_arith);
            assert((3 * j + 2) / 3 == j && (3 * j + 2) % 3 == 2) by (nonlinear_arith);
            assert(out@[3 * j] == rgb_byte(s, 3 * j));
            assert(out@[3 * j + 1] == rgb_byte(s, 3 * j + 1));
            assert(out@[3 * j + 2] == rgb_byte(s, 3 * j + 2));
        }
        i = i + 1;
    }
    proof {
        assert(out@ =~= rgb_of(rgba@));
    }
    out
}

/// Idempotence at full opacity: a fully opaque pixel (alpha 255) is
/// unchanged by un-premultiplication.
pub proof fn lemma_opaque_identity(rgba: Seq<u8>, p: int)
    requires
        0 <= p,
        4 * p + 3 < rgba.len(),
        rgba[4 * p + 3] == 255,
    ensures
        rgb_of(rgba)[3 * p] == rgba[4 * p],
        rgb_of(rgba)[3 * p + 1] == rgba[4 * p + 1],
        rgb_of(rgba)[3 * p + 2] == rgba[4 * p + 2],
{
    lemma_pixel_in_range(rgba, p);
    assert forall|c: int| 0 <= c <= 255 implies unpremult_channel(c, 255) == c by {
        assert((c * 255 + 127) / 255 == c) by (nonlinear_arith)
            requires
                0 <= c <= 255,
        ;
    }
    assert((3 * p) / 3 == p && (3 * p) % 3 == 0) by (nonlinear_arith);
    assert((3 * p + 1) / 3 == p && (3 * p + 1) % 3 == 1) by (nonlinear_arith);
    assert((3 * p + 2) / 3 == p && (3 * p + 2) % 3 == 2) by (nonlinear_arith);
}

/// Boundary law: a fully transparent pixel (alpha 0) always maps to
/// `(0, 0, 0)` in the output, whatever its premultiplied channels held.
pub proof fn lemma_transparent_black(rgba: Seq<u8>, p: int)
    requires
        0 <= p,
        4 * p + 3 < rgba.len(),
        rgba[4 * p + 3] == 0,
    ensures
        rgb_of(rgba)[3 * p] == 0,
        rgb_of(rgba)[3 * p + 1] == 0,
        rgb_of(rgba)[3 * p + 2] == 0,
{
    lemma_pixel_in_range(rgba, p);
    assert((3 * p) / 3 == p && (3 * p) % 3 == 0) by (nonlinear_arith);
    assert((3 * p + 1) / 3 == p && (3 * p + 1) % 3 == 1) by (nonlinear_arith);
    assert((3 * p + 2) / 3 == p && (3 * p + 2) % 3 == 2) by (nonlinear_arith);
}

/// A pixel that exists in the input has its three output bytes in range.
proof fn lemma_pixel_in_range(rgba: Seq<u8>, p: int)
    requires
        0 <= p,
        4 * p + 3 < rgba.len(),
    ensures
        3 * p + 2 < rgb_of(rgba).len(),
{
    assert(4 * p + 4 <= rgba.len());
    assert(p < rgba.len() / 4 && 3 * p + 2 < (rgba.len() / 4) * 3) by (nonlinear_arith)
        requires
            0 <= p && 4 * p + 4 <= rgba.len(),
    ;
}

} // verus!
