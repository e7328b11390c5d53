//! Per-page data and per-page work: the rendered and encoded page records,
//! the conversion of one rendered page, and the sequencer that restores
//! index order after out-of-order completion.

use vstd::prelude::*;

use crate::color::{rgb_of, unpremultiply};
use crate::encode::{encode_rgb_jpeg, jpeg_of};
use crate::errors::ConvertError;

verus! {

/// One page as the rendering service returns it: a packed RGBA pixel
/// buffer with premultiplied color channels, four bytes per pixel.
#[derive(Debug, PartialEq, Eq)]
pub struct RenderedPage {
    pub width: u32,
    pub height: u32,
    pub pixels: Vec<u8>,
}

/// The mathematical content of a rendered page.
pub ghost struct RenderedPageV {
    pub width: int,
    pub height: int,
    pub pixels: Seq<u8>,
}

impl View for RenderedPage {
    type V = RenderedPageV;

    open spec fn view(&self) -> RenderedPageV {
        RenderedPageV { width: self.width as int, height: self.height as int, pixels: self.pixels@ }
    }
}

/// One page after conversion and encoding: the compressed image payload
/// together with the pixel dimensions needed later for geometry, and the
/// page's ordinal position in the source.
#[derive(Debug, PartialEq, Eq)]
pub struct EncodedPage {
    pub index: usize,
    pub width: u32,
    pub height: u32,
    pub bytes: Vec<u8>,
}

/// The mathematical content of an encoded page.
pub ghost struct EncodedPageV {
    pub index: int,
    pub width: int,
    pub height: int,
    pub bytes: Seq<u8>,
}

impl View for EncodedPage {
    type V = EncodedPageV;

    open spec fn view(&self) -> EncodedPageV {
        EncodedPageV {
            index: self.index as int,
            width: self.width as int,
            height: self.height as int,
            bytes: self.bytes@,
        }
    }
}

/// What converting page `index` from the rendered buffer `p` yields: the
/// encoded page, or the error that aborts the conversion.  A buffer whose
/// length is not four bytes per pixel is not a rendering; a well-formed
/// buffer fails to encode exactly when a dimension is outside the codec's
/// range.
pub open spec fn process_outcome(index: int, p: RenderedPageV) -> Result<
    EncodedPageV,
    ConvertError,
> {
    if p.pixels.len() != 4 * p.width * p.height {
        Err(ConvertError::Render { page: index as usize })
    } else if !(1 <= p.width <= 65535 && 1 <= p.height <= 65535) {
        Err(ConvertError::Encode { page: index as usize })
    } else {
        Ok(
            EncodedPageV {
                index,
                width: p.width,
                height: p.height,
                bytes: jpeg_of(rgb_of(p.pixels), p.width, p.height),
            },
        )
    }
}

/// Whether the executable result `r` carries exactly the specified
/// outcome `s`.
pub open spec fn outcome_matches(
    r: Result<EncodedPage, ConvertError>,
    s: Result<EncodedPageV, ConvertError>,
) -> bool {
    match r {
        Ok(e) => s is Ok && e@ == s->Ok_0,
        Err(a) => s is Err && a == s->Err_0,
    }
}

/// Convert one rendered page: un-premultiply its pixels, drop the alpha
/// channel, and encode the RGB buffer.  Fails with a render error if the
/// buffer is not four bytes per pixel, and with an encode error if the
/// codec rejects the dimensions; either error aborts the conversion the
/// page belongs to.
pub fn process_page(index: usize, page: &RenderedPage) -> (r: Result<EncodedPage, ConvertError>)
    ensures
        outcome_matches(r, process_outcome(index as int, page@)),
{
    let w = page.width;
    let h = page.height;
    proof {
        assert((w as int) * (h as int) < 0x10000000000000000) by (nonlinear_arith)
            requires
                w < 0x100000000 && h < 0x100000000,
        ;
    }
    let wh: u64 = (w as u64) * (h as u64);
    let need: u128 = 4u128 * (wh as u128);
    proof {
        assert(4 * ((w as int) * (h as int)) == 4 * (w as int) * (h as int)) by (nonlinear_arith);
    }
    if page.pixels.len() as u128 != need {
        return Err(ConvertError::Render { page: index });
    }
    let rgb = unpremultiply(&page.pixels);
    proof {
        assert((4 * (w as int) * (h as int)) / 4 == (w as int) * (h as int)
            && ((4 * (w as int) * (h as int)) / 4) * 3 == 3 * ((w as int) * (h as int)))
            by (nonlinear_arith);
        assert(rgb@.len() == 3 * (w as int) * (h as int)) by (nonlinear_arith)
            requires
                rgb@.len() == 3 * ((w as int) * (h as int)),
        ;
    }
    match encode_rgb_jpeg(&rgb, w, h) {
        Ok(bytes) => Ok(EncodedPage { index, width: w, height: h, bytes }),
        Err(_) => Err(ConvertError::Encode { page: index }),
    }
}

/// The mathematical contents of a sequence of encoded pages.
pub open spec fn views_of(s: Seq<EncodedPage>) -> Seq<EncodedPageV> {
    s.map_values(|p: EncodedPage| p@)
}

/// Some element of `pages` has index `t`.
pub open spec fn holds_index(pages: Seq<EncodedPage>, t: int) -> bool {
    exists|j: int| 0 <= j < pages.len() && (#[trigger] pages[j]).index as int == t
}

/// Reorder encoded pages into index order.
///
/// The input may arrive in any completion order; its indices must be
/// exactly the positions `0 .. len`.  The result holds the same pages,
/// with the page of index `i` at position `i`.
pub fn sequence_pages(pages: Vec<EncodedPage>) -> (r: Vec<EncodedPage>)
    requires
        forall|i: int, j: int|
            0 <= i < j < pages@.len() ==> pages@[i].index != pages@[j].index,
        forall|i: int| 0 <= i < pages@.len() ==> (pages@[i].index as int) < pages@.len(),
    ensures
        r@.len() == pages@.len(),
        forall|i: int| 0 <= i < r@.len() ==> (#[trigger] r@[i]).index as int == i,
        forall|i: int| 0 <= i < r@.len() ==> pages@.contains(#[trigger] r@[i]),
{
    broadcast use vstd::prelude::Seq::lemma_index_contains;

    let ghost orig = pages@;
    let n = pages.len();
    proof {
        lemma_indices_cover(orig);
    }
    let mut rest = pages;
    let mut out: Vec<EncodedPage> = Vec::new();
    let mut target: usize = 0;
    while target < n
        invariant
            target <= n,
            out@.len() == target,
            rest@.len() == n - target,
            orig.len() == n,
            forall|i: int| 0 <= i < target ==> (#[trigger] out@[i]).index as int == i,
            forall|i: int| 0 <= i < target ==> orig.contains(#[trigger] out@[i]),
            forall|t: int| target <= t < n ==> #[trigger] holds_index(rest@, t),
            forall|j: int| 0 <= j < rest@.len() ==> orig.contains(#[trigger] rest@[j]),
        decreases n - target,
    {
        let mut j: usize = 0;
        while j < rest.len() && rest[j as usize].index != target
            invariant
                j <= rest@.len(),
                forall|k: int| 0 <= k < j ==> (#[trigger] rest@[k]).index != target,
            decreases rest@.len() - j,
        {
            j = j + 1;
        }
        proof {
            assert(holds_index(rest@, target as int));
            let jw = choose|jw: int|
                0 <= jw < rest@.len() && (#[trigger] rest@[jw]).index as int == target as int;
            assert(j < rest@.len());
        }
        let ghost prev = rest@;
        let e = rest.remove(j);
        let ghost pout = out@;
        out.push(e);
        proof {
            assert forall|t: int| target + 1 <= t < n implies #[trigger] holds_index(rest@, t) by {
                assert(holds_index(prev, t));
                let j0 = choose|j0: int|
                    0 <= j0 < prev.len() && (#[trigger] prev[j0]).index as int == t;
                if j0 < j {
                    assert(rest@[j0].index as int == t);
                } else {
                    assert(rest@[j0 - 1].index as int == t);
                }
            }
            assert forall|jj: int|
                0 <= jj < rest@.len() implies orig.contains(#[trigger] rest@[jj]) by {
                let jp: int = if jj < j { jj } else { jj + 1 };
                assert(rest@[jj] == prev[jp]);
                assert(orig.contains(prev[jp]));
            }
            assert forall|i: int| 0 <= i < target + 1 implies orig.contains(#[trigger] out@[i]) by {
                if i < target {
                    assert(out@[i] == pout[i]);
                    assert(orig.contains(pout[i]));
                } else {
                    assert(out@[i] == prev[j as int]);
                    assert(orig.contains(prev[j as int]));
                }
            }
        }
        target = target + 1;
    }
    out
}

/// With distinct indices each below the length, every position is some
/// element's index.
proof fn lemma_indices_cover(pages: Seq<EncodedPage>)
    requires
        forall|i: int, j: int| 0 <= i < j < pages.len() ==> pages[i].index != pages[j].index,
        forall|i: int| 0 <= i < pages.len() ==> (pages[i].index as int) < pages.len(),
    ensures
        forall|t: int| 0 <= t < pages.len() ==> #[trigger] holds_index(pages, t),
{
    let idx = Seq::new(pages.len(), |i: int| pages[i].index as int);
    assert forall|t: int| 0 <= t < pages.len() implies #[trigger] holds_index(pages, t) by {
        lemma_distinct_bounded_covers(idx, t);
        let j = choose|j: int| 0 <= j < idx.len() && idx[j] == t;
        assert(pages[j].index as int == t);
    }
}

/// A sequence of distinct integers drawn from `0 .. len` hits every value
/// in `0 .. len`: a pigeonhole argument by induction on the sequence,
/// removing one element and renaming the missing value.
pub(crate) proof fn lemma_distinct_bounded_covers(s: Seq<int>, t: int)
    requires
        forall|i: int, j: int| 0 <= i < j < s.len() ==> s[i] != s[j],
        forall|i: int| 0 <= i < s.len() ==> 0 <= #[trigger] s[i] < s.len(),
        0 <= t < s.len(),
    ensures
        exists|j: int| 0 <= j < s.len() && s[j] == t,
    decreases s.len(),
{
    let n = s.len() as int;
    if exists|j: int| 0 <= j < n && s[j] == n - 1 {
        let j = choose|j: int| 0 <= j < n && s[j] == n - 1;
        if t == n - 1 {
        } else {
            let s2 = s.remove(j);
            assert forall|i: int| 0 <= i < s2.len() implies 0 <= #[trigger] s2[i] < s2.len() by {
                if i < j {
                    assert(s2[i] == s[i]);
                    assert(s[i] != n - 1);
                } else {
                    assert(s2[i] == s[i + 1]);
                    assert(s[i + 1] != n - 1);
                }
            }
            assert forall|i: int, k: int| 0 <= i < k < s2.len() implies s2[i] != s2[k] by {
                if k < j {
                } else if i < j {
                    assert(s2[i] == s[i] && s2[k] == s[k + 1]);
                } else {
                    assert(s2[i] == s[i + 1] && s2[k] == s[k + 1]);
                }
            }
            lemma_distinct_bounded_covers(s2, t);
            let j2 = choose|j2: int| 0 <= j2 < s2.len() && s2[j2] == t;
            if j2 < j {
                assert(s[j2] == t);
            } else {
                assert(s[j2 + 1] == t);
            }
        }
    } else {
        // No element is n - 1, so all n distinct values lie in 0 .. n - 1:
        // drop the last element and recurse on a shorter range.
        let s2 = s.drop_last();
        assert forall|i: int| 0 <= i < s2.len() implies 0 <= #[trigger] s2[i] < s2.len() by {
            assert(s2[i] == s[i]);
            assert(s[i] != n - 1);
        }
        if t == n - 1 {
            assert(s[n - 1] != n - 1);
            assert(0 <= s[n - 1] < n - 1);
            // s2 covers 0 .. n - 1, yet s[n - 1] is distinct from all of
            // s2's n - 1 distinct values in that same range: contradiction.
            lemma_distinct_bounded_covers(s2, s[n - 1]);
            let jb = choose|jb: int| 0 <= jb < s2.len() && s2[jb] == s[n - 1];
            assert(s[jb] == s[n - 1]);
            assert(false);
        } else {
            lemma_distinct_bounded_covers(s2, t);
            let j2 = choose|j2: int| 0 <= j2 < s2.len() && s2[j2] == t;
            assert(s[j2] == t);
        }
    }
}

} // verus!
