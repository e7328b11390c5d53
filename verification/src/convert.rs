//! The conversion drivers.
//!
//! Both drivers turn the rendered pages of a parsed source into the output
//! document: page conversion and encoding, sequencing by source position,
//! assembly, serialization.  The batch driver takes its pages in any
//! completion order, converts them on a worker pool and restores index
//! order before assembling; the cooperative driver takes them strictly in
//! order on one logical thread and reports progress to a caller-supplied
//! sink, yielding at defined checkpoints.  Given the same pages and
//! resolution the two produce identical bytes.

use vstd::prelude::*;

use rayon::iter::IntoParallelRefIterator;
use rayon::iter::ParallelIterator;

use crate::assemble::{
    assemble_document, assembled_bytes, assembled_objects, lemma_assembled_graph, page_node_id,
    tree_node_id, ObjRec,
};
use crate::errors::ConvertError;
use crate::geometry::{lemma_geometry_round_trip, points_of};
use crate::pages::{
    lemma_distinct_bounded_covers, outcome_matches, process_outcome, process_page, sequence_pages,
    views_of, EncodedPage, EncodedPageV, RenderedPage, RenderedPageV,
};
use crate::progress::{ProgressSink, SilentSink, Stage};
use crate::source::{pdf_page_count, SourceDoc};

verus! {

/// The mathematical contents of a sequence of rendered pages.
pub open spec fn rendered_views(s: Seq<RenderedPage>) -> Seq<RenderedPageV> {
    s.map_values(|p: RenderedPage| p@)
}

/// Every page converts and encodes without error.
pub open spec fn all_pages_ok(rv: Seq<RenderedPageV>) -> bool {
    forall|i: int| 0 <= i < rv.len() ==> (#[trigger] process_outcome(i, rv[i])) is Ok
}

/// The encoded pages of a conversion in which every page succeeds.
pub open spec fn converted(rv: Seq<RenderedPageV>) -> Seq<EncodedPageV> {
    Seq::new(rv.len(), |i: int| process_outcome(i, rv[i])->Ok_0)
}

/// Some page fails to convert, with error `e`.
pub open spec fn some_page_fails_with(rv: Seq<RenderedPageV>, e: ConvertError) -> bool {
    exists|i: int|
        0 <= i < rv.len() && (#[trigger] process_outcome(i, rv[i])) is Err && process_outcome(
            i,
            rv[i],
        )->Err_0 == e
}

/// The first page to fail (every earlier page succeeds) fails with `e`.
pub open spec fn first_failure_is(rv: Seq<RenderedPageV>, e: ConvertError) -> bool {
    exists|i: int|
        0 <= i < rv.len() && (#[trigger] process_outcome(i, rv[i])) is Err && process_outcome(
            i,
            rv[i],
        )->Err_0 == e && (forall|k: int|
            0 <= k < i ==> (#[trigger] process_outcome(k, rv[k])) is Ok)
}

/// The view of a driver's result: the output bytes, or the error.
pub open spec fn result_view(r: Result<Vec<u8>, ConvertError>) -> Result<Seq<u8>, ConvertError> {
    match r {
        Ok(v) => Ok(v@),
        Err(e) => Err(e),
    }
}

/// What the batch driver returns for the given pages, in full: success
/// exactly when every page converts, and then the serialized assembled
/// graph of the encoded pages; otherwise some failing page's error.
pub open spec fn batch_result_is(
    rv: Seq<RenderedPageV>,
    dpi: int,
    out: Result<Seq<u8>, ConvertError>,
) -> bool {
    match out {
        Ok(bytes) => all_pages_ok(rv) && bytes == assembled_bytes(converted(rv), dpi),
        Err(e) => !all_pages_ok(rv) && some_page_fails_with(rv, e),
    }
}

/// What the cooperative driver returns for the given pages, in full:
/// success exactly when every page converts, and then the serialized
/// assembled graph of the encoded pages; otherwise the first failing
/// page's error.
pub open spec fn coop_result_is(
    rv: Seq<RenderedPageV>,
    dpi: int,
    out: Result<Seq<u8>, ConvertError>,
) -> bool {
    match out {
        Ok(bytes) => all_pages_ok(rv) && bytes == assembled_bytes(converted(rv), dpi),
        Err(e) => !all_pages_ok(rv) && first_failure_is(rv, e),
    }
}

/// Whether `pairs` carries each source position exactly once: the indexed
/// form in which out-of-order completion hands pages over.
pub open spec fn indexed_once(pairs: Seq<(usize, RenderedPage)>) -> bool {
    (forall|a: int, b: int| 0 <= a < b < pairs.len() ==> pairs[a].0 != pairs[b].0)
        && (forall|a: int| 0 <= a < pairs.len() ==> ((#[trigger] pairs[a]).0 as int) < pairs.len())
}

/// The rendered page of source position `i` among the indexed pairs.
pub open spec fn pair_page(pairs: Seq<(usize, RenderedPage)>, i: int) -> RenderedPageV {
    pairs[choose|j: int| 0 <= j < pairs.len() && (#[trigger] pairs[j]).0 as int == i].1@
}

/// The indexed pairs read off in source order.
pub open spec fn batch_rendered(pairs: Seq<(usize, RenderedPage)>) -> Seq<RenderedPageV> {
    Seq::new(pairs.len(), |i: int| pair_page(pairs, i))
}

/// Every source position occurs among the pairs, and any pair holding
/// position `i` holds the page that `batch_rendered` reads there.
proof fn lemma_pair_lookup(pairs: Seq<(usize, RenderedPage)>, i: int)
    requires
        indexed_once(pairs),
        0 <= i < pairs.len(),
    ensures
        exists|j: int| 0 <= j < pairs.len() && (#[trigger] pairs[j]).0 as int == i,
        forall|j: int|
            0 <= j < pairs.len() && (#[trigger] pairs[j]).0 as int == i ==> batch_rendered(
                pairs,
            )[i] == pairs[j].1@,
{
    let idx = Seq::new(pairs.len(), |a: int| pairs[a].0 as int);
    lemma_distinct_bounded_covers(idx, i);
    let w = choose|w: int| 0 <= w < idx.len() && idx[w] == i;
    assert(pairs[w].0 as int == i);
    assert forall|j: int|
        0 <= j < pairs.len() && (#[trigger] pairs[j]).0 as int == i implies batch_rendered(
        pairs,
    )[i] == pairs[j].1@ by {
        let c = choose|c: int| 0 <= c < pairs.len() && (#[trigger] pairs[c]).0 as int == i;
        if c != j {
            assert(pairs[c].0 == pairs[j].0);
            assert(false);
        }
    }
}

/// Convert all rendered pages on a worker pool, keeping the hand-over
/// order.
///
/// Relies on rayon's par_iter().map().collect(): the closure runs once per
/// element, side-effect-free conversions may run in parallel, and the
/// collected Vec is in the input's order; each element is what the
/// verified page conversion returns for that pair.
#[verifier::external_body]
fn par_process(rendered: &Vec<(usize, RenderedPage)>) -> (r: Vec<Result<EncodedPage, ConvertError>>)
    ensures
        r@.len() == rendered@.len(),
        forall|k: int|
            0 <= k < r@.len() ==> outcome_matches(
                #[trigger] r@[k],
                process_outcome(rendered@[k].0 as int, rendered@[k].1@),
            ),
{
    rendered.par_iter().map(|pair| process_page(pair.0, &pair.1)).collect()
}

/// Convert a parsed source document to the flattened output document from
/// its rendered pages, handed over in any completion order as
/// `(source position, rendered page)` pairs — the batch driver.
///
/// Pages are converted and encoded on a worker pool, restored to source
/// order, and assembled single-threaded.  The conversion succeeds exactly
/// when every page converts — assembly and serialization cannot fail on
/// the documents built here — and then the output bytes are the serialized
/// assembled graph of the encoded pages in source order; otherwise nothing
/// is produced and a failing page's error is returned.
pub fn rasterize_pdf(doc: &SourceDoc, dpi: u32, rendered: Vec<(usize, RenderedPage)>) -> (r:
    Result<Vec<u8>, ConvertError>)
    requires
        1 <= dpi,
        rendered@.len() == pdf_page_count(doc@),
        indexed_once(rendered@),
        4 * rendered@.len() + 2 <= u32::MAX,
    ensures
        batch_result_is(batch_rendered(rendered@), dpi as int, result_view(r)),
{
    let ghost pairs = rendered@;
    let total = rendered.len();
    let mut results = par_process(&rendered);
    let mut encoded: Vec<EncodedPage> = Vec::new();
    let mut m: usize = 0;
    while m < total
        invariant
            m <= total,
            total == pairs.len(),
            pairs == rendered@,
            indexed_once(pairs),
            results@.len() == total - m,
            forall|k: int|
                0 <= k < results@.len() ==> outcome_matches(
                    #[trigger] results@[k],
                    process_outcome(pairs[k + m].0 as int, pairs[k + m].1@),
                ),
            encoded@.len() == m,
            forall|x: int|
                0 <= x < m ==> (#[trigger] encoded@[x]).index == pairs[x].0 && process_outcome(
                    pairs[x].0 as int,
                    pairs[x].1@,
                ) is Ok && process_outcome(pairs[x].0 as int, pairs[x].1@)->Ok_0 == encoded@[x]@,
        decreases total - m,
    {
        let res = results.remove(0);
        match res {
            Ok(e) => {
                proof {
                    assert(outcome_matches(
                        Ok(e),
                        process_outcome(pairs[m as int].0 as int, pairs[m as int].1@),
                    ));
                    assert(e@ == process_outcome(pairs[m as int].0 as int, pairs[m as int].1@)->Ok_0);
                    assert(e@.index == pairs[m as int].0 as int);
                }
                encoded.push(e);
            },
            Err(err) => {
                proof {
                    let i = pairs[m as int].0 as int;
                    lemma_pair_lookup(pairs, i);
                    assert(batch_rendered(pairs)[i] == pairs[m as int].1@);
                    assert(process_outcome(i, batch_rendered(pairs)[i]) is Err);
                    assert(!all_pages_ok(batch_rendered(pairs)));
                }
                return Err(err);
            },
        }
        m = m + 1;
    }
    proof {
        assert forall|i: int| 0 <= i < pairs.len() implies (#[trigger] process_outcome(
            i,
            batch_rendered(pairs)[i],
        )) is Ok by {
            lemma_pair_lookup(pairs, i);
            let j = choose|j: int| 0 <= j < pairs.len() && (#[trigger] pairs[j]).0 as int == i;
            assert(encoded@[j].index == pairs[j].0);
            assert(process_outcome(pairs[j].0 as int, pairs[j].1@) is Ok);
        }
        assert forall|a: int, b: int|
            0 <= a < b < encoded@.len() implies (#[trigger] encoded@[a]).index != (
        #[trigger] encoded@[b]).index by {
            assert(pairs[a].0 != pairs[b].0);
        }
    }
    let ghost enc = encoded@;
    let ordered = sequence_pages(encoded);
    proof {
        assert forall|i: int| 0 <= i < ordered@.len() implies (#[trigger] views_of(ordered@)[i])
            == converted(batch_rendered(pairs))[i] by {
            assert(enc.contains(ordered@[i]));
            let x = choose|x: int| 0 <= x < enc.len() && enc[x] == ordered@[i];
            assert(enc[x].index == pairs[x].0);
            assert(ordered@[i].index as int == i);
            assert(pairs[x].0 as int == i);
            lemma_pair_lookup(pairs, i);
            assert(batch_rendered(pairs)[i] == pairs[x].1@);
            assert(views_of(ordered@)[i] == enc[x]@);
        }
        assert(views_of(ordered@) =~= converted(batch_rendered(pairs)));
    }
    assemble_document(&ordered, dpi, &mut SilentSink)
}

/// Convert a parsed source document to the flattened output document from
/// its rendered pages, handed over strictly in source order — the
/// cooperative driver.
///
/// Pages are converted one by one on a single logical thread; after the
/// page count, after every page, every few pages of assembly, before
/// saving and at completion the driver reports a stage-labeled event to
/// the sink and yields at its checkpoints.  The sink cannot influence the
/// result, and no event is ever reported for a source that did not parse:
/// a driver only runs on a parsed document.  The conversion succeeds
/// exactly when every page converts — assembly and serialization cannot
/// fail on the documents built here — and then the output bytes are the
/// serialized assembled graph of the encoded pages in order; otherwise the
/// first page to fail aborts the whole conversion with its error, and the
/// pages already converted are discarded.
pub fn rasterize_pdf_with_progress<S: ProgressSink>(
    doc: &SourceDoc,
    dpi: u32,
    rendered: Vec<RenderedPage>,
    sink: &mut S,
) -> (r: Result<Vec<u8>, ConvertError>)
    requires
        1 <= dpi,
        rendered@.len() == pdf_page_count(doc@),
        4 * rendered@.len() + 2 <= u32::MAX,
    ensures
        coop_result_is(rendered_views(rendered@), dpi as int, result_view(r)),
{
    let ghost rv = rendered_views(rendered@);
    let total = rendered.len();
    sink.report(Stage::Loaded { pages: total });
    sink.checkpoint();
    let mut encoded: Vec<EncodedPage> = Vec::new();
    let mut i: usize = 0;
    while i < total
        invariant
            i <= total,
            total == rendered@.len(),
            rv == rendered_views(rendered@),
            rv.len() == total,
            4 * total + 2 <= u32::MAX,
            1 <= dpi,
            encoded@.len() == i,
            forall|k: int|
                0 <= k < i ==> (#[trigger] process_outcome(k, rv[k])) is Ok && process_outcome(
                    k,
                    rv[k],
                )->Ok_0 == encoded@[k]@,
        decreases total - i,
    {
        sink.report(Stage::RenderingPage { page: i + 1, total });
        let out = process_page(i, &rendered[i]);
        match out {
            Ok(e) => {
                encoded.push(e);
            },
            Err(err) => {
                proof {
                    assert(rv[i as int] == rendered@[i as int]@);
                    assert(process_outcome(i as int, rv[i as int]) is Err);
                    assert(!all_pages_ok(rv));
                }
                return Err(err);
            },
        }
        sink.checkpoint();
        i = i + 1;
    }
    proof {
        assert(views_of(encoded@) =~= converted(rv));
    }
    let out = assemble_document(&encoded, dpi, sink);
    if out.is_ok() {
        sink.report(Stage::Done);
    }
    out
}

/// Driver equivalence: handed the same rendered pages — the batch driver
/// in any completion order, the cooperative driver in source order — and
/// the same resolution, the two drivers succeed or fail together, and on
/// success return the very same bytes, so page order, page count and
/// imagery agree.
pub proof fn lemma_driver_equivalence(
    pairs: Seq<(usize, RenderedPage)>,
    ordered: Seq<RenderedPage>,
    dpi: int,
    batch_out: Result<Seq<u8>, ConvertError>,
    coop_out: Result<Seq<u8>, ConvertError>,
)
    requires
        indexed_once(pairs),
        pairs.len() == ordered.len(),
        forall|j: int| 0 <= j < pairs.len() ==> (#[trigger] pairs[j]).1@ == ordered[pairs[j].0 as int]@,
        batch_result_is(batch_rendered(pairs), dpi, batch_out),
        coop_result_is(rendered_views(ordered), dpi, coop_out),
    ensures
        batch_rendered(pairs) == rendered_views(ordered),
        batch_out is Ok <==> coop_out is Ok,
        batch_out is Ok ==> batch_out == coop_out,
{
    assert forall|i: int| 0 <= i < pairs.len() implies (#[trigger] batch_rendered(pairs)[i])
        == rendered_views(ordered)[i] by {
        lemma_pair_lookup(pairs, i);
        let j = choose|j: int| 0 <= j < pairs.len() && (#[trigger] pairs[j]).0 as int == i;
        assert(batch_rendered(pairs)[i] == pairs[j].1@);
    }
    assert(batch_rendered(pairs) =~= rendered_views(ordered));
}

/// Determinism: two runs of the batch driver on the same rendered pages at
/// the same resolution return the same variant, and on success identical
/// output bytes — in particular the same page count and the same per-page
/// physical dimensions — whatever order the worker pool completed in
/// either time.
pub proof fn lemma_conversion_deterministic(
    rv: Seq<RenderedPageV>,
    dpi: int,
    out1: Result<Seq<u8>, ConvertError>,
    out2: Result<Seq<u8>, ConvertError>,
)
    requires
        batch_result_is(rv, dpi, out1),
        batch_result_is(rv, dpi, out2),
    ensures
        out1 is Ok <==> out2 is Ok,
        out1 is Ok ==> out1 == out2,
{
}

/// Noninterference of the progress sink: the cooperative driver's result
/// is a function of the rendered pages and the resolution alone, so two
/// runs with any two sinks — or with none — return the same value.
pub proof fn lemma_sink_noninterference(
    rv: Seq<RenderedPageV>,
    dpi: int,
    out1: Result<Seq<u8>, ConvertError>,
    out2: Result<Seq<u8>, ConvertError>,
)
    requires
        coop_result_is(rv, dpi, out1),
        coop_result_is(rv, dpi, out2),
    ensures
        out1 == out2,
{
    if out1 is Err && out2 is Err {
        lemma_first_failure_unique(rv, out1->Err_0, out2->Err_0);
    }
}

/// The first failing page is one page, so its error is one error.
proof fn lemma_first_failure_unique(rv: Seq<RenderedPageV>, e1: ConvertError, e2: ConvertError)
    requires
        first_failure_is(rv, e1),
        first_failure_is(rv, e2),
    ensures
        e1 == e2,
{
    let i1 = choose|i: int|
        0 <= i < rv.len() && (#[trigger] process_outcome(i, rv[i])) is Err && process_outcome(
            i,
            rv[i],
        )->Err_0 == e1 && (forall|k: int|
            0 <= k < i ==> (#[trigger] process_outcome(k, rv[k])) is Ok);
    let i2 = choose|i: int|
        0 <= i < rv.len() && (#[trigger] process_outcome(i, rv[i])) is Err && process_outcome(
            i,
            rv[i],
        )->Err_0 == e2 && (forall|k: int|
            0 <= k < i ==> (#[trigger] process_outcome(k, rv[k])) is Ok);
    if i1 < i2 {
        assert(process_outcome(i1, rv[i1]) is Ok);
        assert(false);
    }
    if i2 < i1 {
        assert(process_outcome(i2, rv[i2]) is Ok);
        assert(false);
    }
}

/// The batch driver with its page-count obligation checked at run time:
/// converts only when the caller handed over exactly one rendered page per
/// source page, and returns nothing (and produces nothing) otherwise.
pub fn rasterize_pdf_checked(doc: &SourceDoc, dpi: u32, rendered: Vec<(usize, RenderedPage)>) -> (r:
    Option<Result<Vec<u8>, ConvertError>>)
    requires
        1 <= dpi,
        indexed_once(rendered@),
        4 * rendered@.len() + 2 <= u32::MAX,
    ensures
        r is Some <==> rendered@.len() == pdf_page_count(doc@),
        r is Some ==> batch_result_is(batch_rendered(rendered@), dpi as int, result_view(
            r->Some_0,
        )),
{
    let count = doc.page_count();
    if rendered.len() == count {
        Some(rasterize_pdf(doc, dpi, rendered))
    } else {
        None
    }
}

/// The cooperative driver with its page-count obligation checked at run
/// time: converts only when the caller handed over exactly one rendered
/// page per source page, and returns nothing (and produces nothing)
/// otherwise.
pub fn rasterize_pdf_with_progress_checked<S: ProgressSink>(
    doc: &SourceDoc,
    dpi: u32,
    rendered: Vec<RenderedPage>,
    sink: &mut S,
) -> (r: Option<Result<Vec<u8>, ConvertError>>)
    requires
        1 <= dpi,
        4 * rendered@.len() + 2 <= u32::MAX,
    ensures
        r is Some <==> rendered@.len() == pdf_page_count(doc@),
        r is Some ==> coop_result_is(rendered_views(rendered@), dpi as int, result_view(
            r->Some_0,
        )),
{
    let count = doc.page_count();
    if rendered.len() == count {
        Some(rasterize_pdf_with_progress(doc, dpi, rendered, sink))
    } else {
        None
    }
}

/// Page preservation: a conversion in which every page succeeds embeds
/// exactly one page node per rendered page, and the output's page tree
/// lists those nodes in source order with their count.
pub proof fn lemma_page_count_preserved(rv: Seq<RenderedPageV>, dpi: int)
    requires
        4 * rv.len() + 2 <= u32::MAX,
    ensures
        converted(rv).len() == rv.len(),
        assembled_objects(converted(rv), dpi).contains_key(tree_node_id(rv.len() as int)),
        assembled_objects(converted(rv), dpi)[tree_node_id(rv.len() as int)]
            == (ObjRec::PageTree {
            kids: Seq::new(rv.len(), |i: int| page_node_id(i)),
            count: rv.len() as int,
        }),
        forall|i: int|
            0 <= i < rv.len() ==> assembled_objects(converted(rv), dpi).contains_key(
                #[trigger] page_node_id(i),
            ) && assembled_objects(converted(rv), dpi)[page_node_id(i)] is Page,
{
    lemma_assembled_graph(converted(rv), dpi);
}

/// Round-trip geometry at the page level: when page `i` converts, its
/// page node in the output graph measures the point size derived from its
/// rendered pixel size — within one point of the exact physical size
/// `pixels / dpi * 72` on each axis.
pub proof fn lemma_page_geometry(rv: Seq<RenderedPageV>, dpi: int, i: int)
    requires
        4 * rv.len() + 2 <= u32::MAX,
        1 <= dpi,
        0 <= i < rv.len(),
        process_outcome(i, rv[i]) is Ok,
    ensures
        (assembled_objects(converted(rv), dpi)[page_node_id(i)] matches ObjRec::Page {
            width_pts,
            height_pts,
            ..
        } && width_pts == points_of(rv[i].width, dpi) && height_pts == points_of(rv[i].height, dpi)
            && width_pts * dpi <= rv[i].width * 72 + dpi && rv[i].width * 72 <= width_pts * dpi
            + dpi && height_pts * dpi <= rv[i].height * 72 + dpi && rv[i].height * 72 <= height_pts
            * dpi + dpi),
{
    lemma_assembled_graph(converted(rv), dpi);
    assert(converted(rv)[i] == process_outcome(i, rv[i])->Ok_0);
    assert(converted(rv)[i].width == rv[i].width);
    lemma_geometry_round_trip(rv[i].width, dpi);
    lemma_geometry_round_trip(rv[i].height, dpi);
}

} // verus!
