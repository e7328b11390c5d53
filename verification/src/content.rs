//! Byte-level building of the output document's small text pieces: decimal
//! numbers, per-page image names, and the placement stream that draws one
//! page's image.

use vstd::prelude::*;

verus! {

/// The ASCII decimal digits of `n`, most significant first.
pub open spec fn dec_bytes(n: int) -> Seq<u8>
    decreases n,
{
    if n < 10 {
        seq![(48 + n) as u8]
    } else {
        dec_bytes(n / 10) + seq![(48 + n % 10) as u8]
    }
}

/// Append the decimal digits of `n` to `out`.
pub fn push_decimal(out: &mut Vec<u8>, n: u64)
    ensures
        final(out)@ == old(out)@ + dec_bytes(n as int),
    decreases n,
{
    if n < 10 {
        out.push(48 + n as u8);
        proof {
            assert(out@ =~= old(out)@ + dec_bytes(n as int));
        }
    } else {
        push_decimal(out, n / 10);
        out.push(48 + (n % 10) as u8);
        proof {
            assert(out@ =~= old(out)@ + dec_bytes(n as int));
        }
    }
}

/// The name under which page `index`'s image is entered in that page's
/// resource table: `Im` followed by the page index.
pub open spec fn image_name_bytes(index: int) -> Seq<u8> {
    seq![73u8, 109u8] + dec_bytes(index)
}

/// The resource name of page `index`'s image, unique per page.
pub fn image_name(index: usize) -> (r: Vec<u8>)
    ensures
        r@ == image_name_bytes(index as int),
{
    let mut out: Vec<u8> = Vec::new();
    out.push(73);
    out.push(109);
    push_decimal(&mut out, index as u64);
    proof {
        assert(out@ =~= image_name_bytes(index as int));
    }
    out
}

/// The placement stream of a page whose image is named `Im` `index` and
/// whose size is `w_pts` by `h_pts` points: save the graphics state, scale
/// the unit square to the page's full size, draw the image, restore the
/// state — `q`, `W 0 0 H 0 0 cm`, `/ImN Do`, `Q`.
pub open spec fn placement_bytes(w_pts: int, h_pts: int, index: int) -> Seq<u8> {
    seq![113u8, 10u8] + dec_bytes(w_pts) + seq![32u8, 48u8, 32u8, 48u8, 32u8] + dec_bytes(h_pts)
        + seq![32u8, 48u8, 32u8, 48u8, 32u8, 99u8, 109u8, 10u8, 47u8, 73u8, 109u8]
        + dec_bytes(index) + seq![32u8, 68u8, 111u8, 10u8, 81u8]
}

/// Build the placement stream that draws page `index`'s image over the
/// full `w_pts` by `h_pts` point page.
pub fn placement_stream(w_pts: u64, h_pts: u64, index: usize) -> (r: Vec<u8>)
    ensures
        r@ == placement_bytes(w_pts as int, h_pts as int, index as int),
{
    let mut out: Vec<u8> = Vec::new();
    out.push(113);
    out.push(10);
    push_decimal(&mut out, w_pts);
    out.push(32);
    out.push(48);
    out.push(32);
    out.push(48);
    out.push(32);
    push_decimal(&mut out, h_pts);
    out.push(32);
    out.push(48);
    out.push(32);
    out.push(48);
    out.push(32);
    out.push(99);
    out.push(109);
    out.push(10);
    out.push(47);
    out.push(73);
    out.push(109);
    push_decimal(&mut out, index as u64);
    out.push(32);
    out.push(68);
    out.push(111);
    out.push(10);
    out.push(81);
    proof {
        assert(out@ =~= placement_bytes(w_pts as int, h_pts as int, index as int));
    }
    out
}

} // verus!
