//! Assembly of the output document.
//!
//! A brand-new object graph is built from the ordered encoded pages, with
//! no dependency on the source document's graph.  Every allocation returns
//! its real identity and every back-reference uses a captured identity,
//! never a recomputed formula; the parent references of the page nodes are
//! backfilled in a second pass once the page tree exists (the page nodes
//! are created before the node they point back to).  The object store and
//! the writer are an outside library; each call the assembler makes is
//! specified over the named contents below.

use vstd::prelude::*;

use crate::content::{image_name, image_name_bytes, placement_bytes, placement_stream};
use crate::errors::ConvertError;
use crate::geometry::{page_points, points_of};
use crate::pages::{views_of, EncodedPage, EncodedPageV};
use crate::progress::{ProgressSink, Stage};

verus! {

#[verifier::external_type_specification]
#[verifier::external_body]
pub struct ExDocument(lopdf::Document);

/// The plain-value content of one object of the output document.
pub ghost enum ObjRec {
    /// An externally-compressed image: the page's pixel size, 3-channel
    /// device color at 8 bits per component, DCT stream filter, and the
    /// encoded payload verbatim.
    Image { width: int, height: int, jpeg: Seq<u8> },
    /// A content stream of drawing operators.
    Content { ops: Seq<u8> },
    /// A page's resource table: one image name bound to one image object.
    Resources { name: Seq<u8>, image: (u32, u16) },
    /// A page node: its size in points (MediaBox `0 0 W H`), its content
    /// stream, its resource table, and — once backfilled — its parent.
    Page {
        width_pts: int,
        height_pts: int,
        contents: (u32, u16),
        resources: (u32, u16),
        parent: Option<(u32, u16)>,
    },
    /// The page tree: the page nodes in order, and their number.
    PageTree { kids: Seq<(u32, u16)>, count: int },
    /// The root catalog, pointing at the page tree.
    Catalog { page_tree: (u32, u16) },
}

/// The objects the document holds, by identity.
pub uninterp spec fn doc_objects(doc: lopdf::Document) -> Map<(u32, u16), ObjRec>;

/// The identity allocator's high-water mark.
pub uninterp spec fn doc_max_id(doc: lopdf::Document) -> int;

/// The document's root reference, once set.
pub uninterp spec fn doc_root(doc: lopdf::Document) -> Option<(u32, u16)>;

/// The bytes the writer emits for a fresh-made document holding the given
/// objects, allocator mark and root reference.
pub uninterp spec fn doc_bytes(
    objects: Map<(u32, u16), ObjRec>,
    max_id: int,
    root: Option<(u32, u16)>,
) -> Seq<u8>;

/// Whether the document holds no objects at all.
pub open spec fn no_objects(doc: lopdf::Document) -> bool {
    doc_objects(doc) == Map::<(u32, u16), ObjRec>::empty()
}

/// Start an empty output document.
///
/// Relies on lopdf::Document::with_version: a fresh document holds no
/// objects, its allocator mark is zero and its trailer is empty; its
/// version, binary mark and cross-reference type are fixed.
#[verifier::external_body]
fn doc_new() -> (r: lopdf::Document)
    ensures
        no_objects(r),
        doc_max_id(r) == 0,
        doc_root(r) is None,
{
    lopdf::Document::with_version("1.5")
}

/// Reserve a fresh object identity without storing anything under it.
///
/// Relies on lopdf::Document::new_object_id: it bumps the allocator mark
/// and returns `(mark, 0)`, touching nothing else.
#[verifier::external_body]
fn alloc_object_id(doc: &mut lopdf::Document) -> (r: (u32, u16))
    requires
        doc_max_id(*old(doc)) < u32::MAX,
    ensures
        r == (((doc_max_id(*old(doc)) + 1) as u32, 0u16)),
        doc_max_id(*final(doc)) == doc_max_id(*old(doc)) + 1,
        doc_objects(*final(doc)) == doc_objects(*old(doc)),
        doc_root(*final(doc)) == doc_root(*old(doc)),
{
    doc.new_object_id()
}

/// Add one page's image object under the next fresh identity.
///
/// Relies on lopdf::Document::add_object: it stores the object under
/// `(mark + 1, 0)` and returns that identity; the stored stream is the
/// image dictionary described by `ObjRec::Image` with the payload
/// verbatim.
#[verifier::external_body]
fn add_image_object(doc: &mut lopdf::Document, width: u32, height: u32, jpeg: &Vec<u8>) -> (r: (
    u32,
    u16,
))
    requires
        doc_max_id(*old(doc)) < u32::MAX,
    ensures
        r == (((doc_max_id(*old(doc)) + 1) as u32, 0u16)),
        doc_max_id(*final(doc)) == doc_max_id(*old(doc)) + 1,
        doc_objects(*final(doc)) == doc_objects(*old(doc)).insert(
            r,
            ObjRec::Image { width: width as int, height: height as int, jpeg: jpeg@ },
        ),
        doc_root(*final(doc)) == doc_root(*old(doc)),
{
    let mut dict = lopdf::Dictionary::new();
    dict.set("Type", lopdf::Object::Name(b"XObject".to_vec()));
    dict.set("Subtype", lopdf::Object::Name(b"Image".to_vec()));
    dict.set("Width", lopdf::Object::Integer(width as i64));
    dict.set("Height", lopdf::Object::Integer(height as i64));
    dict.set("ColorSpace", lopdf::Object::Name(b"DeviceRGB".to_vec()));
    dict.set("BitsPerComponent", lopdf::Object::Integer(8));
    dict.set("Filter", lopdf::Object::Name(b"DCTDecode".to_vec()));
    doc.add_object(lopdf::Stream::new(dict, jpeg.clone()))
}

/// Add one page's placement stream under the next fresh identity.
///
/// Relies on lopdf::Document::add_object and lopdf::Stream::new: the
/// stored stream has an otherwise empty dictionary and holds the given
/// operator bytes.
#[verifier::external_body]
fn add_content_object(doc: &mut lopdf::Document, ops: &Vec<u8>) -> (r: (u32, u16))
    requires
        doc_max_id(*old(doc)) < u32::MAX,
    ensures
        r == (((doc_max_id(*old(doc)) + 1) as u32, 0u16)),
        doc_max_id(*final(doc)) == doc_max_id(*old(doc)) + 1,
        doc_objects(*final(doc)) == doc_objects(*old(doc)).insert(
            r,
            ObjRec::Content { ops: ops@ },
        ),
        doc_root(*final(doc)) == doc_root(*old(doc)),
{
    doc.add_object(lopdf::Stream::new(lopdf::Dictionary::new(), ops.clone()))
}

/// Add one page's resource table under the next fresh identity: the given
/// name bound to the given image object in the XObject class.
///
/// Relies on lopdf::Document::add_object and lopdf::Dictionary::set.
#[verifier::external_body]
fn add_resources_object(doc: &mut lopdf::Document, name: &Vec<u8>, image: (u32, u16)) -> (r: (
    u32,
    u16,
))
    requires
        doc_max_id(*old(doc)) < u32::MAX,
    ensures
        r == (((doc_max_id(*old(doc)) + 1) as u32, 0u16)),
        doc_max_id(*final(doc)) == doc_max_id(*old(doc)) + 1,
        doc_objects(*final(doc)) == doc_objects(*old(doc)).insert(
            r,
            ObjRec::Resources { name: name@, image },
        ),
        doc_root(*final(doc)) == doc_root(*old(doc)),
{
    let mut xobjects = lopdf::Dictionary::new();
    xobjects.set(name.clone(), lopdf::Object::Reference(image));
    let mut dict = lopdf::Dictionary::new();
    dict.set("XObject", lopdf::Object::Dictionary(xobjects));
    doc.add_object(dict)
}

/// Insert a page node under the caller's reserved identity: MediaBox
/// `0 0 W H` in whole points, the given content and resource references,
/// and no parent yet.
///
/// Relies on the document's object table being a map from identities to
/// objects: insertion stores the page dictionary under exactly this key.
#[verifier::external_body]
fn insert_page_object(
    doc: &mut lopdf::Document,
    id: (u32, u16),
    width_pts: i64,
    height_pts: i64,
    contents: (u32, u16),
    resources: (u32, u16),
)
    ensures
        doc_max_id(*final(doc)) == doc_max_id(*old(doc)),
        doc_objects(*final(doc)) == doc_objects(*old(doc)).insert(
            id,
            ObjRec::Page {
                width_pts: width_pts as int,
                height_pts: height_pts as int,
                contents,
                resources,
                parent: None,
            },
        ),
        doc_root(*final(doc)) == doc_root(*old(doc)),
{
    let media_box: Vec<lopdf::Object> =
        vec![0.into(), 0.into(), width_pts.into(), height_pts.into()];
    let mut dict = lopdf::Dictionary::new();
    dict.set("Type", lopdf::Object::Name(b"Page".to_vec()));
    dict.set("MediaBox", lopdf::Object::Array(media_box));
    dict.set("Contents", lopdf::Object::Reference(contents));
    dict.set("Resources", lopdf::Object::Reference(resources));
    doc.objects.insert(id, lopdf::Object::Dictionary(dict));
}

/// Insert the page tree under the caller's reserved identity, listing the
/// given page nodes in order with their count.
///
/// Relies on the document's object table being a map from identities to
/// objects.
#[verifier::external_body]
fn insert_page_tree(doc: &mut lopdf::Document, id: (u32, u16), kids: &Vec<(u32, u16)>, count: usize)
    ensures
        doc_max_id(*final(doc)) == doc_max_id(*old(doc)),
        doc_objects(*final(doc)) == doc_objects(*old(doc)).insert(
            id,
            ObjRec::PageTree { kids: kids@, count: count as int },
        ),
        doc_root(*final(doc)) == doc_root(*old(doc)),
{
    let refs: Vec<lopdf::Object> = kids.iter().map(|k| lopdf::Object::Reference(*k)).collect();
    let mut dict = lopdf::Dictionary::new();
    dict.set("Type", lopdf::Object::Name(b"Pages".to_vec()));
    dict.set("Count", lopdf::Object::Integer(count as i64));
    dict.set("Kids", lopdf::Object::Array(refs));
    doc.objects.insert(id, lopdf::Object::Dictionary(dict));
}

/// The record `rec` with its parent reference set.
pub open spec fn with_parent(rec: ObjRec, parent: (u32, u16)) -> ObjRec {
    match rec {
        ObjRec::Page { width_pts, height_pts, contents, resources, parent: _ } => ObjRec::Page {
            width_pts,
            height_pts,
            contents,
            resources,
            parent: Some(parent),
        },
        _ => rec,
    }
}

/// Backfill one page node's parent reference.
///
/// Relies on the object table's get_mut and lopdf::Dictionary::set: only
/// the Parent entry of the page dictionary under `id` changes.
#[verifier::external_body]
fn set_page_parent(doc: &mut lopdf::Document, id: (u32, u16), parent: (u32, u16))
    requires
        doc_objects(*old(doc)).contains_key(id),
        doc_objects(*old(doc))[id] is Page,
    ensures
        doc_max_id(*final(doc)) == doc_max_id(*old(doc)),
        doc_objects(*final(doc)) == doc_objects(*old(doc)).insert(
            id,
            with_parent(doc_objects(*old(doc))[id], parent),
        ),
        doc_root(*final(doc)) == doc_root(*old(doc)),
{
    if let Some(object) = doc.objects.get_mut(&id) {
        if let Ok(dict) = object.as_dict_mut() {
            dict.set("Parent", lopdf::Object::Reference(parent));
        }
    }
}

/// Insert the root catalog under the caller's reserved identity.
///
/// Relies on the document's object table being a map from identities to
/// objects.
#[verifier::external_body]
fn insert_catalog(doc: &mut lopdf::Document, id: (u32, u16), page_tree: (u32, u16))
    ensures
        doc_max_id(*final(doc)) == doc_max_id(*old(doc)),
        doc_objects(*final(doc)) == doc_objects(*old(doc)).insert(
            id,
            ObjRec::Catalog { page_tree },
        ),
        doc_root(*final(doc)) == doc_root(*old(doc)),
{
    let mut dict = lopdf::Dictionary::new();
    dict.set("Type", lopdf::Object::Name(b"Catalog".to_vec()));
    dict.set("Pages", lopdf::Object::Reference(page_tree));
    doc.objects.insert(id, lopdf::Object::Dictionary(dict));
}

/// Point the document's trailer at the root catalog.
///
/// Relies on lopdf::Dictionary::set on the trailer: only the Root entry
/// changes.
#[verifier::external_body]
fn set_root_reference(doc: &mut lopdf::Document, catalog: (u32, u16))
    ensures
        doc_max_id(*final(doc)) == doc_max_id(*old(doc)),
        doc_objects(*final(doc)) == doc_objects(*old(doc)),
        doc_root(*final(doc)) == Some(catalog),
{
    doc.trailer.set("Root", lopdf::Object::Reference(catalog));
}

/// Serialize the document to bytes.
///
/// Relies on lopdf::Document::save_to: writing into a Vec, the emitted
/// bytes are a function of the document's objects, allocator mark and root
/// reference alone, the rest of a fresh document's state being fixed.  The
/// write always succeeds: a Vec never fails an io write, and the writer's
/// one non-io error path — its check that every binary-mark byte is at
/// least 128 — passes the fixed mark every fresh document carries, which
/// nothing here touches.
#[verifier::external_body]
fn save_document(doc: &mut lopdf::Document) -> (r: Result<Vec<u8>, ConvertError>)
    ensures
        r is Ok,
        r is Ok ==> r->Ok_0@ == doc_bytes(
            doc_objects(*old(doc)),
            doc_max_id(*old(doc)),
            doc_root(*old(doc)),
        ),
{
    let mut out: Vec<u8> = Vec::new();
    match doc.save_to(&mut out) {
        Ok(_) => Ok(out),
        Err(_) => Err(ConvertError::Assembly),
    }
}

/// The identity under which page `i`'s page node lands: the assembler lays
/// the graph out four objects per page, the page node first.  The code
/// never recomputes these identities — every reference uses the identity
/// an allocation returned — and the contracts prove they land here.
pub open spec fn page_node_id(i: int) -> (u32, u16) {
    (((4 * i + 1) as u32, 0u16))
}

/// The identity of page `i`'s image object.
pub open spec fn image_node_id(i: int) -> (u32, u16) {
    (((4 * i + 2) as u32, 0u16))
}

/// The identity of page `i`'s placement stream.
pub open spec fn content_node_id(i: int) -> (u32, u16) {
    (((4 * i + 3) as u32, 0u16))
}

/// The identity of page `i`'s resource table.
pub open spec fn resources_node_id(i: int) -> (u32, u16) {
    (((4 * i + 4) as u32, 0u16))
}

/// The identity of the page tree node: right after the page objects.
pub open spec fn tree_node_id(n: int) -> (u32, u16) {
    (((4 * n + 1) as u32, 0u16))
}

/// The identity of the root catalog: the graph's last object.
pub open spec fn catalog_node_id(n: int) -> (u32, u16) {
    (((4 * n + 2) as u32, 0u16))
}

/// The object under identity `(k, 0)` of the assembled graph for pages
/// `pv` at resolution `dpi`, with the first `patched` page nodes already
/// holding their parent reference.
pub open spec fn partial_value(pv: Seq<EncodedPageV>, dpi: int, patched: int, k: int) -> ObjRec {
    let n = pv.len() as int;
    if k == 4 * n + 1 {
        ObjRec::PageTree { kids: Seq::new(pv.len(), |i: int| page_node_id(i)), count: n }
    } else if k == 4 * n + 2 {
        ObjRec::Catalog { page_tree: tree_node_id(n) }
    } else {
        let i = (k - 1) / 4;
        let r = (k - 1) % 4;
        let p = pv[i];
        if r == 0 {
            ObjRec::Page {
                width_pts: points_of(p.width, dpi),
                height_pts: points_of(p.height, dpi),
                contents: content_node_id(i),
                resources: resources_node_id(i),
                parent: if i < patched {
                    Some(tree_node_id(n))
                } else {
                    None
                },
            }
        } else if r == 1 {
            ObjRec::Image { width: p.width, height: p.height, jpeg: p.bytes }
        } else if r == 2 {
            ObjRec::Content {
                ops: placement_bytes(points_of(p.width, dpi), points_of(p.height, dpi), i),
            }
        } else {
            ObjRec::Resources { name: image_name_bytes(i), image: image_node_id(i) }
        }
    }
}

/// The object table after the first `built` pages' objects exist, the
/// first `patched` page nodes are backfilled, and the page tree and the
/// catalog exist where flagged.
pub open spec fn partial_objects(
    pv: Seq<EncodedPageV>,
    dpi: int,
    built: int,
    patched: int,
    have_tree: bool,
    have_catalog: bool,
) -> Map<(u32, u16), ObjRec> {
    let n = pv.len() as int;
    Map::new(
        |id: (u32, u16)|
            id.1 == 0 && ((1 <= id.0 as int && id.0 as int <= 4 * built) || (have_tree && id.0
                as int == 4 * n + 1) || (have_catalog && id.0 as int == 4 * n + 2)),
        |id: (u32, u16)| partial_value(pv, dpi, patched, id.0 as int),
    )
}

/// The whole assembled object graph for pages `pv` at resolution `dpi`.
pub open spec fn assembled_objects(pv: Seq<EncodedPageV>, dpi: int) -> Map<(u32, u16), ObjRec> {
    partial_objects(pv, dpi, pv.len() as int, pv.len() as int, true, true)
}

/// The serialized output document for pages `pv` at resolution `dpi`.
pub open spec fn assembled_bytes(pv: Seq<EncodedPageV>, dpi: int) -> Seq<u8> {
    doc_bytes(
        assembled_objects(pv, dpi),
        4 * pv.len() as int + 2,
        Some(catalog_node_id(pv.len() as int)),
    )
}

/// Adding the four objects of page `i` to the graph of the first `i`
/// pages, in allocation order, yields the graph of the first `i + 1`
/// pages.
proof fn lemma_build_step(pv: Seq<EncodedPageV>, dpi: int, i: int)
    requires
        0 <= i < pv.len(),
        4 * pv.len() + 2 <= u32::MAX,
    ensures
        partial_objects(pv, dpi, i, 0, false, false).insert(
            (((4 * i + 2) as u32, 0u16)),
            ObjRec::Image { width: pv[i].width, height: pv[i].height, jpeg: pv[i].bytes },
        ).insert(
            (((4 * i + 3) as u32, 0u16)),
            ObjRec::Content {
                ops: placement_bytes(points_of(pv[i].width, dpi), points_of(pv[i].height, dpi), i),
            },
        ).insert(
            (((4 * i + 4) as u32, 0u16)),
            ObjRec::Resources { name: image_name_bytes(i), image: (((4 * i + 2) as u32, 0u16)) },
        ).insert(
            (((4 * i + 1) as u32, 0u16)),
            ObjRec::Page {
                width_pts: points_of(pv[i].width, dpi),
                height_pts: points_of(pv[i].height, dpi),
                contents: (((4 * i + 3) as u32, 0u16)),
                resources: (((4 * i + 4) as u32, 0u16)),
                parent: None,
            },
        ) =~= partial_objects(pv, dpi, i + 1, 0, false, false),
{
    let n = pv.len() as int;
    let m1 = partial_objects(pv, dpi, i, 0, false, false).insert(
        (((4 * i + 2) as u32, 0u16)),
        ObjRec::Image { width: pv[i].width, height: pv[i].height, jpeg: pv[i].bytes },
    ).insert(
        (((4 * i + 3) as u32, 0u16)),
        ObjRec::Content {
            ops: placement_bytes(points_of(pv[i].width, dpi), points_of(pv[i].height, dpi), i),
        },
    ).insert(
        (((4 * i + 4) as u32, 0u16)),
        ObjRec::Resources { name: image_name_bytes(i), image: (((4 * i + 2) as u32, 0u16)) },
    ).insert(
        (((4 * i + 1) as u32, 0u16)),
        ObjRec::Page {
            width_pts: points_of(pv[i].width, dpi),
            height_pts: points_of(pv[i].height, dpi),
            contents: (((4 * i + 3) as u32, 0u16)),
            resources: (((4 * i + 4) as u32, 0u16)),
            parent: None,
        },
    );
    let m2 = partial_objects(pv, dpi, i + 1, 0, false, false);
    assert(4 * i + 4 <= 4 * n) by (nonlinear_arith)
        requires
            i < n,
    ;
    assert((4 * i) / 4 == i && (4 * i) % 4 == 0) by (nonlinear_arith);
    assert((4 * i + 1) / 4 == i && (4 * i + 1) % 4 == 1) by (nonlinear_arith);
    assert((4 * i + 2) / 4 == i && (4 * i + 2) % 4 == 2) by (nonlinear_arith);
    assert((4 * i + 3) / 4 == i && (4 * i + 3) % 4 == 3) by (nonlinear_arith);
    assert forall|id: (u32, u16)| m1.dom().contains(id) <==> m2.dom().contains(id) by {
        let k = id.0 as int;
        if id.1 == 0 && 1 <= k <= 4 * i + 4 && !(k <= 4 * i) {
            assert(id == (((k as u32, 0u16))));
        }
    }
    assert(m1.dom() =~= m2.dom());
    assert forall|id: (u32, u16)| m2.dom().contains(id) implies m1[id] == m2[id] by {
        let k = id.0 as int;
        assert(k <= 4 * n + 2);
        if k <= 4 * i {
            assert(m1[id] == partial_value(pv, dpi, 0, k));
        } else {
            assert(id == (((k as u32, 0u16))));
        }
    }
    assert(m1 =~= m2);
}

/// Backfilling the parent of page `j`'s page node turns the graph with
/// `j` patched pages into the graph with `j + 1`.
proof fn lemma_patch_step(pv: Seq<EncodedPageV>, dpi: int, j: int)
    requires
        0 <= j < pv.len(),
        4 * pv.len() + 2 <= u32::MAX,
    ensures
        partial_objects(pv, dpi, pv.len() as int, j, true, false).contains_key(page_node_id(j)),
        partial_objects(pv, dpi, pv.len() as int, j, true, false)[page_node_id(j)] is Page,
        partial_objects(pv, dpi, pv.len() as int, j, true, false).insert(
            page_node_id(j),
            with_parent(
                partial_objects(pv, dpi, pv.len() as int, j, true, false)[page_node_id(j)],
                tree_node_id(pv.len() as int),
            ),
        ) =~= partial_objects(pv, dpi, pv.len() as int, j + 1, true, false),
{
    let n = pv.len() as int;
    let m1 = partial_objects(pv, dpi, n, j, true, false);
    let m2 = partial_objects(pv, dpi, n, j + 1, true, false);
    assert(4 * j + 1 <= 4 * n) by (nonlinear_arith)
        requires
            j < n,
    ;
    assert((4 * j) / 4 == j && (4 * j) % 4 == 0) by (nonlinear_arith);
    assert(m1.contains_key(page_node_id(j)));
    assert(m1[page_node_id(j)] is Page);
    let m3 = m1.insert(page_node_id(j), with_parent(m1[page_node_id(j)], tree_node_id(n)));
    assert(m3.dom() =~= m2.dom());
    assert forall|id: (u32, u16)| m2.dom().contains(id) implies m3[id] == m2[id] by {
        let k = id.0 as int;
        if id == page_node_id(j) {
        } else {
            assert(m3[id] == partial_value(pv, dpi, j, k));
            if 1 <= k <= 4 * n && (k - 1) % 4 == 0 {
                vstd::arithmetic::div_mod::lemma_fundamental_div_mod(k - 1, 4);
                if (k - 1) / 4 == j {
                    assert(k == 4 * j + 1);
                    assert(id.0 as int == page_node_id(j).0 as int);
                    assert(id == page_node_id(j));
                    assert(false);
                }
            }
        }
    }
    assert(m3 =~= m2);
}

/// The point size of an axis fits the writer's signed integers: it never
/// exceeds 72 points per pixel plus the rounding term.
proof fn lemma_points_bound(px: int, dpi: int)
    requires
        0 <= px <= u32::MAX,
        1 <= dpi <= u32::MAX,
    ensures
        0 <= points_of(px, dpi) <= 0x7fffffffffffffff,
{
    let t = px * 72 + dpi / 2;
    assert(px * 72 <= 0xffffffff * 72) by (nonlinear_arith)
        requires
            0 <= px <= 0xffffffff,
    ;
    assert(0 <= t / dpi <= t) by (nonlinear_arith)
        requires
            0 <= t && 1 <= dpi,
    ;
}

/// Build the output document from the ordered encoded pages: per page an
/// image object, a placement stream, a resource table and a page node,
/// then the page tree, the backfilled parent references, the catalog and
/// the root reference; then serialize.  Identities are captured from each
/// allocation, never recomputed.  A source with no pages yields a valid
/// document with no pages.  Assembly always succeeds: the writer cannot
/// fail on the documents built here.  The sink hears of every fifth page
/// and of saving, and may suspend at each report.
pub fn assemble_document<S: ProgressSink>(
    pages: &Vec<EncodedPage>,
    dpi: u32,
    sink: &mut S,
) -> (r: Result<Vec<u8>, ConvertError>)
    requires
        1 <= dpi,
        4 * pages@.len() + 2 <= u32::MAX,
    ensures
        r is Ok,
        r is Ok ==> r->Ok_0@ == assembled_bytes(views_of(pages@), dpi as int),
{
    let ghost pv = views_of(pages@);
    let n = pages.len();
    let mut doc = doc_new();
    let mut page_ids: Vec<(u32, u16)> = Vec::new();
    let mut i: usize = 0;
    while i < n
        invariant
            1 <= dpi,
            n == pages@.len(),
            pv == views_of(pages@),
            pv.len() == n,
            4 * n + 2 <= u32::MAX,
            i <= n,
            doc_max_id(doc) == 4 * i,
            doc_root(doc) is None,
            doc_objects(doc) == partial_objects(pv, dpi as int, i as int, 0, false, false),
            page_ids@.len() == i,
            forall|j: int| 0 <= j < i ==> page_ids@[j] == page_node_id(j),
        decreases n - i,
    {
        if i % 5 == 0 {
            sink.report(Stage::Assembling { page: i + 1, total: n });
            sink.checkpoint();
        }
        let w = pages[i].width;
        let h = pages[i].height;
        let page_id = alloc_object_id(&mut doc);
        let image_id = add_image_object(&mut doc, w, h, &pages[i].bytes);
        let w_pts = page_points(w, dpi);
        let h_pts = page_points(h, dpi);
        proof {
            lemma_points_bound(w as int, dpi as int);
            lemma_points_bound(h as int, dpi as int);
        }
        let ops = placement_stream(w_pts, h_pts, i);
        let content_id = add_content_object(&mut doc, &ops);
        let name = image_name(i);
        let resources_id = add_resources_object(&mut doc, &name, image_id);
        insert_page_object(&mut doc, page_id, w_pts as i64, h_pts as i64, content_id, resources_id);
        page_ids.push(page_id);
        proof {
            assert(pv[i as int] == pages@[i as int]@);
            lemma_build_step(pv, dpi as int, i as int);
            assert(doc_objects(doc) =~= partial_objects(
                pv,
                dpi as int,
                i as int + 1,
                0,
                false,
                false,
            ));
        }
        i = i + 1;
    }
    let tree_id = alloc_object_id(&mut doc);
    insert_page_tree(&mut doc, tree_id, &page_ids, n);
    proof {
        assert(page_ids@ =~= Seq::new(pv.len(), |k: int| page_node_id(k)));
        let m1 = partial_objects(pv, dpi as int, n as int, 0, false, false).insert(
            tree_node_id(n as int),
            ObjRec::PageTree { kids: page_ids@, count: n as int },
        );
        let m2 = partial_objects(pv, dpi as int, n as int, 0, true, false);
        assert(m1.dom() =~= m2.dom());
        assert forall|id: (u32, u16)| m2.dom().contains(id) implies m1[id] == m2[id] by {
            let k = id.0 as int;
            if id == tree_node_id(n as int) {
            } else {
                assert(m1[id] == partial_value(pv, dpi as int, 0, k));
            }
        }
        assert(m1 =~= m2);
    }
    let mut j: usize = 0;
    while j < n
        invariant
            1 <= dpi,
            n == pages@.len(),
            pv == views_of(pages@),
            pv.len() == n,
            4 * n + 2 <= u32::MAX,
            j <= n,
            doc_max_id(doc) == 4 * n + 1,
            doc_root(doc) is None,
            doc_objects(doc) == partial_objects(pv, dpi as int, n as int, j as int, true, false),
            page_ids@.len() == n,
            forall|k: int| 0 <= k < n ==> page_ids@[k] == page_node_id(k),
            tree_id == tree_node_id(n as int),
        decreases n - j,
    {
        proof {
            lemma_patch_step(pv, dpi as int, j as int);
        }
        set_page_parent(&mut doc, page_ids[j], tree_id);
        j = j + 1;
    }
    let catalog_id = alloc_object_id(&mut doc);
    insert_catalog(&mut doc, catalog_id, tree_id);
    set_root_reference(&mut doc, catalog_id);
    proof {
        let m1 = partial_objects(pv, dpi as int, n as int, n as int, true, false).insert(
            catalog_node_id(n as int),
            ObjRec::Catalog { page_tree: tree_node_id(n as int) },
        );
        let m2 = assembled_objects(pv, dpi as int);
        assert(m1.dom() =~= m2.dom());
        assert forall|id: (u32, u16)| m2.dom().contains(id) implies m1[id] == m2[id] by {
            let k = id.0 as int;
            if id == catalog_node_id(n as int) {
            } else {
                assert(m1[id] == partial_value(pv, dpi as int, n as int, k));
            }
        }
        assert(m1 =~= m2);
    }
    sink.report(Stage::Saving);
    save_document(&mut doc)
}


/// What the assembled graph holds, page by page: the page tree lists
/// exactly one page node per input page, in input order, with the input's
/// count; every page node carries the geometry derived from its page's
/// pixel size and the resolution, points back to the page tree, and refers
/// to its own placement stream and resource table; the image object holds
/// that page's encoded bytes verbatim at its pixel size.
pub proof fn lemma_assembled_graph(pv: Seq<EncodedPageV>, dpi: int)
    requires
        4 * pv.len() + 2 <= u32::MAX,
    ensures
        assembled_objects(pv, dpi).contains_key(tree_node_id(pv.len() as int)),
        assembled_objects(pv, dpi)[tree_node_id(pv.len() as int)] == (ObjRec::PageTree {
            kids: Seq::new(pv.len(), |i: int| page_node_id(i)),
            count: pv.len() as int,
        }),
        assembled_objects(pv, dpi).contains_key(catalog_node_id(pv.len() as int)),
        assembled_objects(pv, dpi)[catalog_node_id(pv.len() as int)] == (ObjRec::Catalog {
            page_tree: tree_node_id(pv.len() as int),
        }),
        forall|i: int|
            0 <= i < pv.len() ==> assembled_objects(pv, dpi).contains_key(#[trigger] page_node_id(i)),
        forall|i: int|
            0 <= i < pv.len() ==> assembled_objects(pv, dpi)[#[trigger] page_node_id(i)]
                == (ObjRec::Page {
                width_pts: points_of(pv[i].width, dpi),
                height_pts: points_of(pv[i].height, dpi),
                contents: content_node_id(i),
                resources: resources_node_id(i),
                parent: Some(tree_node_id(pv.len() as int)),
            }),
        forall|i: int|
            0 <= i < pv.len() ==> assembled_objects(pv, dpi).contains_key(
                #[trigger] image_node_id(i),
            ),
        forall|i: int|
            0 <= i < pv.len() ==> assembled_objects(pv, dpi)[#[trigger] image_node_id(i)]
                == (ObjRec::Image { width: pv[i].width, height: pv[i].height, jpeg: pv[i].bytes }),
{
    let n = pv.len() as int;
    let m = assembled_objects(pv, dpi);
    assert forall|i: int| 0 <= i < n implies m.contains_key(#[trigger] page_node_id(i)) && m[page_node_id(i)]
        == (ObjRec::Page {
        width_pts: points_of(pv[i].width, dpi),
        height_pts: points_of(pv[i].height, dpi),
        contents: content_node_id(i),
        resources: resources_node_id(i),
        parent: Some(tree_node_id(n)),
    }) && m.contains_key(image_node_id(i)) && m[image_node_id(i)] == (ObjRec::Image {
        width: pv[i].width,
        height: pv[i].height,
        jpeg: pv[i].bytes,
    }) by {
        assert(4 * i + 4 <= 4 * n) by (nonlinear_arith)
            requires
                i < n,
        ;
        assert((4 * i) / 4 == i && (4 * i) % 4 == 0) by (nonlinear_arith);
        assert((4 * i + 1) / 4 == i && (4 * i + 1) % 4 == 1) by (nonlinear_arith);
    }
}

} // verus!
