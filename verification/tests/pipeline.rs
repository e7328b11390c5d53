use pdf_rasterizer::{
    rasterize_pdf, rasterize_pdf_checked, rasterize_pdf_with_progress, ConvertError, ProgressSink,
    RenderedPage, SilentSink, SourceDoc, Stage,
};

/// Build a source PDF with `count` empty letter-size pages.
fn sample_pdf(count: usize) -> Vec<u8> {
    let mut doc = lopdf::Document::with_version("1.5");
    let pages_id = doc.new_object_id();
    let mut kids: Vec<lopdf::Object> = Vec::new();
    for _ in 0..count {
        let content_id =
            doc.add_object(lopdf::Stream::new(lopdf::Dictionary::new(), b"".to_vec()));
        let mut page = lopdf::Dictionary::new();
        page.set("Type", lopdf::Object::Name(b"Page".to_vec()));
        page.set("Parent", lopdf::Object::Reference(pages_id));
        page.set(
            "MediaBox",
            lopdf::Object::Array(vec![
                lopdf::Object::Integer(0),
                lopdf::Object::Integer(0),
                lopdf::Object::Integer(612),
                lopdf::Object::Integer(792),
            ]),
        );
        page.set("Contents", lopdf::Object::Reference(content_id));
        let page_id = doc.add_object(lopdf::Object::Dictionary(page));
        kids.push(lopdf::Object::Reference(page_id));
    }
    let mut pages = lopdf::Dictionary::new();
    pages.set("Type", lopdf::Object::Name(b"Pages".to_vec()));
    pages.set("Count", lopdf::Object::Integer(count as i64));
    pages.set("Kids", lopdf::Object::Array(kids));
    doc.objects.insert(pages_id, lopdf::Object::Dictionary(pages));
    let mut catalog = lopdf::Dictionary::new();
    catalog.set("Type", lopdf::Object::Name(b"Catalog".to_vec()));
    catalog.set("Pages", lopdf::Object::Reference(pages_id));
    let catalog_id = doc.add_object(lopdf::Object::Dictionary(catalog));
    doc.trailer.set("Root", lopdf::Object::Reference(catalog_id));
    let mut out = Vec::new();
    doc.save_to(&mut out).unwrap();
    out
}

/// Render every page of the parsed source at the given resolution, in
/// order, through the external rendering service.
fn render_pages(doc: &SourceDoc, dpi: u32) -> Vec<RenderedPage> {
    let cache = hayro::RenderCache::new();
    let interpreter = hayro::hayro_interpret::InterpreterSettings::default();
    let render = hayro::RenderSettings { force_image_interpolation: false };
    let scale = dpi as f32 / 72.0;
    let pixmap_settings =
        hayro::PixmapSettings { x_scale: scale, y_scale: scale, ..Default::default() };
    doc.pdf()
        .pages()
        .iter()
        .map(|page| {
            let pixmap = hayro::render(page, &cache, &interpreter, &render, &pixmap_settings);
            RenderedPage {
                width: pixmap.width() as u32,
                height: pixmap.height() as u32,
                pixels: pixmap.data_as_u8_slice().to_vec(),
            }
        })
        .collect()
}

/// The MediaBox of every page of a produced document, in page order.
fn output_page_boxes(bytes: &[u8]) -> Vec<(i64, i64)> {
    let doc = lopdf::Document::load_mem(bytes).expect("output must be a loadable document");
    let mut boxes = Vec::new();
    for (_, page_id) in doc.get_pages() {
        let dict = doc.get_object(page_id).unwrap().as_dict().unwrap();
        let media_box = dict.get(b"MediaBox").unwrap().as_array().unwrap();
        let w = media_box[2].as_i64().unwrap();
        let h = media_box[3].as_i64().unwrap();
        boxes.push((w, h));
    }
    boxes
}

struct Recorder {
    stages: Vec<Stage>,
    checkpoints: usize,
}

impl ProgressSink for Recorder {
    fn report(&mut self, stage: Stage) {
        self.stages.push(stage);
    }

    fn checkpoint(&mut self) {
        self.checkpoints += 1;
    }
}

#[test]
fn corrupted_input_yields_parse_error() {
    let result = SourceDoc::parse(b"this is not a document at all".to_vec());
    assert!(matches!(result, Err(ConvertError::Parse)));
}

#[test]
fn one_page_letter_source_round_trips_at_150_dpi() {
    let doc = SourceDoc::parse(sample_pdf(1)).unwrap();
    assert_eq!(doc.page_count(), 1);
    let rendered = render_pages(&doc, 150);
    assert_eq!(rendered.len(), 1);
    // 612 x 792 points at 150 dpi is 1275 x 1650 pixels.  The renderer
    // sizes its pixmap from a single-precision scale product and may land
    // one pixel short of the exact value (here 1649 rows); the geometry
    // math still recovers the page size to the point.
    assert_eq!(rendered[0].width, 1275);
    assert!(rendered[0].height == 1650 || rendered[0].height == 1649);
    let pairs: Vec<(usize, RenderedPage)> = rendered.into_iter().enumerate().collect();
    let out = rasterize_pdf(&doc, 150, pairs).unwrap();
    // The output page recovers the source's physical size.
    assert_eq!(output_page_boxes(&out), vec![(612, 792)]);
}

#[test]
fn batch_driver_accepts_any_completion_order() {
    let doc = SourceDoc::parse(sample_pdf(3)).unwrap();
    assert_eq!(doc.page_count(), 3);
    let mut pairs: Vec<(usize, RenderedPage)> =
        render_pages(&doc, 72).into_iter().enumerate().collect();
    pairs.reverse();
    let out = rasterize_pdf(&doc, 72, pairs).unwrap();
    assert_eq!(output_page_boxes(&out), vec![(612, 792); 3]);
}

#[test]
fn drivers_produce_identical_output() {
    let doc = SourceDoc::parse(sample_pdf(2)).unwrap();
    let mut pairs: Vec<(usize, RenderedPage)> =
        render_pages(&doc, 96).into_iter().enumerate().collect();
    pairs.reverse();
    let batch = rasterize_pdf(&doc, 96, pairs).unwrap();
    let mut sink = Recorder { stages: Vec::new(), checkpoints: 0 };
    let coop = rasterize_pdf_with_progress(&doc, 96, render_pages(&doc, 96), &mut sink).unwrap();
    assert_eq!(batch, coop);
}

#[test]
fn conversion_is_deterministic() {
    let doc = SourceDoc::parse(sample_pdf(2)).unwrap();
    let first = rasterize_pdf(
        &doc,
        150,
        render_pages(&doc, 150).into_iter().enumerate().collect(),
    )
    .unwrap();
    let second = rasterize_pdf(
        &doc,
        150,
        render_pages(&doc, 150).into_iter().enumerate().collect(),
    )
    .unwrap();
    assert_eq!(first, second);
    assert_eq!(output_page_boxes(&first), output_page_boxes(&second));
}

#[test]
fn failing_page_aborts_whole_conversion() {
    let doc = SourceDoc::parse(sample_pdf(2)).unwrap();
    let mut rendered = render_pages(&doc, 72);
    // Damage the second page's buffer: no longer four bytes per pixel.
    rendered[1].pixels.pop();
    let mut sink = Recorder { stages: Vec::new(), checkpoints: 0 };
    let result = rasterize_pdf_with_progress(&doc, 72, rendered, &mut sink);
    assert_eq!(result, Err(ConvertError::Render { page: 1 }));
    assert!(!sink.stages.contains(&Stage::Done));
}

#[test]
fn progress_stages_move_monotonically() {
    let doc = SourceDoc::parse(sample_pdf(2)).unwrap();
    let rendered = render_pages(&doc, 72);
    let mut sink = Recorder { stages: Vec::new(), checkpoints: 0 };
    rasterize_pdf_with_progress(&doc, 72, rendered, &mut sink).unwrap();
    assert_eq!(sink.stages[0], Stage::Loaded { pages: 2 });
    assert_eq!(sink.stages[1], Stage::RenderingPage { page: 1, total: 2 });
    assert_eq!(sink.stages[2], Stage::RenderingPage { page: 2, total: 2 });
    assert_eq!(sink.stages[3], Stage::Assembling { page: 1, total: 2 });
    assert_eq!(sink.stages[4], Stage::Saving);
    assert_eq!(sink.stages[5], Stage::Done);
    assert_eq!(sink.stages.len(), 6);
    assert!(sink.checkpoints >= 3);
}

#[test]
fn zero_page_source_yields_zero_page_output() {
    // A zero-page source is accepted and yields a valid document with no
    // pages.
    match SourceDoc::parse(sample_pdf(0)) {
        Ok(doc) => {
            assert_eq!(doc.page_count(), 0);
            let out = rasterize_pdf(&doc, 72, Vec::new()).unwrap();
            assert_eq!(output_page_boxes(&out), Vec::<(i64, i64)>::new());
        }
        Err(e) => panic!("zero-page source was rejected: {:?}", e),
    }
}

#[test]
fn output_pages_follow_source_order() {
    // Pages of different sizes keep their positions: rebuild the sample
    // with distinct page sizes and check the output order.
    let mut doc = lopdf::Document::with_version("1.5");
    let pages_id = doc.new_object_id();
    let mut kids: Vec<lopdf::Object> = Vec::new();
    for size in [200i64, 400, 600] {
        let content_id =
            doc.add_object(lopdf::Stream::new(lopdf::Dictionary::new(), b"".to_vec()));
        let mut page = lopdf::Dictionary::new();
        page.set("Type", lopdf::Object::Name(b"Page".to_vec()));
        page.set("Parent", lopdf::Object::Reference(pages_id));
        page.set(
            "MediaBox",
            lopdf::Object::Array(vec![
                lopdf::Object::Integer(0),
                lopdf::Object::Integer(0),
                lopdf::Object::Integer(size),
                lopdf::Object::Integer(size),
            ]),
        );
        page.set("Contents", lopdf::Object::Reference(content_id));
        let page_id = doc.add_object(lopdf::Object::Dictionary(page));
        kids.push(lopdf::Object::Reference(page_id));
    }
    let mut pages = lopdf::Dictionary::new();
    pages.set("Type", lopdf::Object::Name(b"Pages".to_vec()));
    pages.set("Count", lopdf::Object::Integer(3));
    pages.set("Kids", lopdf::Object::Array(kids));
    doc.objects.insert(pages_id, lopdf::Object::Dictionary(pages));
    let mut catalog = lopdf::Dictionary::new();
    catalog.set("Type", lopdf::Object::Name(b"Catalog".to_vec()));
    catalog.set("Pages", lopdf::Object::Reference(pages_id));
    let catalog_id = doc.add_object(lopdf::Object::Dictionary(catalog));
    doc.trailer.set("Root", lopdf::Object::Reference(catalog_id));
    let mut bytes = Vec::new();
    doc.save_to(&mut bytes).unwrap();

    let source = SourceDoc::parse(bytes).unwrap();
    assert_eq!(source.page_count(), 3);
    let mut pairs: Vec<(usize, RenderedPage)> =
        render_pages(&source, 72).into_iter().enumerate().collect();
    pairs.swap(0, 2);
    let out = rasterize_pdf(&source, 72, pairs).unwrap();
    assert_eq!(output_page_boxes(&out), vec![(200, 200), (400, 400), (600, 600)]);
}

#[test]
fn checked_driver_wants_one_rendering_per_page() {
    let doc = SourceDoc::parse(sample_pdf(2)).unwrap();
    let mut rendered: Vec<(usize, RenderedPage)> =
        render_pages(&doc, 72).into_iter().enumerate().collect();
    rendered.pop();
    // One rendering is missing: the conversion refuses to start.
    assert!(rasterize_pdf_checked(&doc, 72, rendered).is_none());
    let complete: Vec<(usize, RenderedPage)> =
        render_pages(&doc, 72).into_iter().enumerate().collect();
    let out = rasterize_pdf_checked(&doc, 72, complete).unwrap().unwrap();
    assert_eq!(output_page_boxes(&out), vec![(612, 792); 2]);
}

#[test]
fn result_does_not_depend_on_the_sink() {
    let doc = SourceDoc::parse(sample_pdf(2)).unwrap();
    let mut recorder = Recorder { stages: Vec::new(), checkpoints: 0 };
    let with_recorder =
        rasterize_pdf_with_progress(&doc, 96, render_pages(&doc, 96), &mut recorder);
    let mut silent = SilentSink;
    let with_silent = rasterize_pdf_with_progress(&doc, 96, render_pages(&doc, 96), &mut silent);
    assert_eq!(with_recorder, with_silent);
}
