use djvulpes::chunk::DJVU_MAGIC;
use djvulpes::pdf::ccitt::group4_encode;
use djvulpes::report::plan_text::format_render_plan;
use djvulpes::report::render_text::{
    pdf_page_image_summary, render_pdf_page_summary, write_partial_render_summary,
};
use djvulpes::{
    decode_bzz, read_jb2_image_header, render_document_page, render_document_pages, render_document_pages_with_events,
    render_document_pdf, render_document_pdf_with_events, render_jb2_supported_prefix,
    BitonalBitmap, BzzError,
    DjvuPageRenderEvent,
    DjvuPdfRenderEvent, DjvuPdfTimingStage, DjvuRenderError, Document, DocumentConversion, ExtractedTextZonePage,
    Iw44Decoder, Iw44LayerRole,
    Jb2ImageHeader, Jb2PartialImage, Jb2RecordKind, PageBitmap, PageWork, PdfPageImage, PageRenderMode, PixelFormat, PreparedPage,
};

fn push_chunk(bytes: &mut Vec<u8>, id: [u8; 4], payload: &[u8]) {
    bytes.extend_from_slice(&id);
    bytes.extend_from_slice(&u32::try_from(payload.len()).unwrap().to_be_bytes());
    bytes.extend_from_slice(payload);
    if payload.len() % 2 == 1 {
        bytes.push(0);
    }
}

fn info(width: u16, height: u16) -> Vec<u8> {
    let mut payload = Vec::new();
    payload.extend_from_slice(&width.to_be_bytes());
    payload.extend_from_slice(&height.to_be_bytes());
    payload.extend_from_slice(&[25, 0, 100, 0, 22, 1]);
    payload
}

fn layer(width: u16, height: u16, gray: bool) -> Vec<u8> {
    let mut payload = vec![0, 12, if gray { 0x81 } else { 1 }, 2];
    payload.extend_from_slice(&width.to_be_bytes());
    payload.extend_from_slice(&height.to_be_bytes());
    payload.push(0x80);
    payload.extend_from_slice(&[0x12, 0x9c, 0x33, 0xe0, 0x5a, 0x77, 0x01, 0xd8, 0x24, 0x6b]);
    payload
}

fn page(width: u16, height: u16, chunks: &[([u8; 4], Vec<u8>)]) -> Vec<u8> {
    let mut children = b"DJVU".to_vec();
    push_chunk(&mut children, *b"INFO", &info(width, height));
    for (id, payload) in chunks {
        push_chunk(&mut children, *id, payload);
    }
    let mut form = Vec::new();
    push_chunk(&mut form, *b"FORM", &children);
    form
}

fn single_page(width: u16, height: u16, chunks: &[([u8; 4], Vec<u8>)]) -> Vec<u8> {
    let mut bytes = DJVU_MAGIC.to_vec();
    bytes.extend_from_slice(&page(width, height, chunks));
    bytes
}

/// A document of several pages, and what the tool makes of the tail of its directory.
fn document_of(pages: &[Vec<u8>]) -> (Vec<u8>, Vec<u8>) {
    let compressed = (0..=255)
        .map(|byte| [0xff, 0xff, byte, 0x00, 0x55, 0xaa])
        .find(|input| matches!(decode_bzz(input, None), Err(BzzError::ToolRequired)))
        .expect("some of the inputs are beyond the decoder");
    let dirm_len = 3 + 4 * pages.len() + compressed.len();
    let mut offset = 4 + 12 + 8 + dirm_len + dirm_len % 2;
    let mut dirm = vec![0x81, 0, u8::try_from(pages.len()).unwrap()];
    let mut tail = Vec::new();
    for page in pages {
        dirm.extend_from_slice(&u32::try_from(offset).unwrap().to_be_bytes());
        offset += page.len();
    }
    dirm.extend_from_slice(&compressed);
    for page in pages {
        tail.extend_from_slice(&u32::try_from(page.len()).unwrap().to_be_bytes()[1..]);
    }
    for _ in pages {
        tail.push(1);
    }
    for index in 0..pages.len() {
        tail.extend_from_slice(format!("p{index}.djvu\0").as_bytes());
    }
    let mut children = b"DJVM".to_vec();
    push_chunk(&mut children, *b"DIRM", &dirm);
    for page in pages {
        children.extend_from_slice(page);
    }
    let mut bytes = DJVU_MAGIC.to_vec();
    push_chunk(&mut bytes, *b"FORM", &children);
    (bytes, tail)
}

fn no_text() -> ExtractedTextZonePage {
    ExtractedTextZonePage { text: String::new(), zone: None }
}

#[test]
fn bitmaps_are_read_back_from_ppm_files() {
    let bitmap = PageBitmap {
        width: 2,
        height: 3,
        dpi: 120,
        format: PixelFormat::Rgb8,
        pixels: (0..18).collect(),
    };

    let file = bitmap.to_ppm_bytes();

    assert_eq!(&file[..11], b"P6\n2 3\n255\n");
    assert_eq!(PageBitmap::from_ppm_bytes(&file, 120), Ok(bitmap));
}

#[test]
fn ppm_files_may_hold_comments() {
    let bitmap = PageBitmap::from_ppm_bytes(b"P6 # made by hand\n1\t1 255\n\x01\x02\x03", 72)
        .expect("file should be read");

    assert_eq!(bitmap.pixels, vec![1, 2, 3]);
}

#[test]
fn ppm_files_that_are_not_right_are_refused() {
    for (file, message) in [
        (&b"P5\n1 1\n255\n0"[..], "PPM oracle must use binary P6 format"),
        (b"P6", "PPM header is truncated"),
        (b"P6\nx 1\n255\n", "PPM width is not an integer"),
        (b"P6\n1 \xff\n255\n", "PPM height is not UTF-8"),
        (b"P6\n1 1\n15\n", "PPM oracle max value 15 is not supported"),
        (b"P6\n1 1\n255", "PPM header is missing pixel-data separator"),
        (b"P6\n1 1\n255\n\x01", "PPM oracle pixel data is truncated"),
    ] {
        let error = PageBitmap::from_ppm_bytes(file, 72).expect_err("file should be refused");
        assert_eq!(error.message(), message);
    }
}

#[test]
fn a_page_without_layers_is_white() {
    let bytes = single_page(4, 3, &[]);

    let render = render_document_page(&bytes, 1, PageRenderMode::Full, None).unwrap();

    assert_eq!((render.bitmap.width, render.bitmap.height, render.bitmap.dpi), (4, 3, 100));
    assert_eq!(render.bitmap.pixels, vec![255; 36]);
    assert!(render.iw44_layers.is_empty());
    assert!(render.bitonal_masks.is_empty());
}

#[test]
fn a_background_of_the_size_of_its_page_is_shown_as_it_is() {
    for gray in [true, false] {
        let data = layer(40, 24, gray);
        let bytes = single_page(40, 24, &[(*b"BG44", data.clone())]);
        let mut decoder = Iw44Decoder::new();
        decoder.decode_chunk(&data).unwrap();
        let image = decoder.to_rgb_image().unwrap();

        let full = render_document_page(&bytes, 1, PageRenderMode::Full, None).unwrap();
        let background = render_document_page(&bytes, 1, PageRenderMode::Background, None).unwrap();

        assert_eq!(full.iw44_layers.len(), 1);
        assert_eq!(full.iw44_layers[0].role, Iw44LayerRole::Background);
        assert_eq!(full.iw44_layers[0].image, image);
        assert_eq!(full.bitmap, background.bitmap);
        assert_eq!(full.bitmap.pixels, image.pixels);
    }
}

#[test]
fn a_background_scaled_up_lies_between_its_colours() {
    let data = layer(20, 12, true);
    let bytes = single_page(40, 24, &[(*b"BG44", data.clone())]);
    let mut decoder = Iw44Decoder::new();
    decoder.decode_chunk(&data).unwrap();
    let image = decoder.to_rgb_image().unwrap();
    let low = *image.pixels.iter().min().unwrap();
    let high = *image.pixels.iter().max().unwrap();

    let render = render_document_page(&bytes, 1, PageRenderMode::Full, None).unwrap();

    assert_eq!(render.iw44_layers[0].geometry.mapping.subsample, 2);
    assert!(render.bitmap.pixels.iter().all(|value| (low..=high).contains(value)));
}

#[test]
fn pages_that_are_not_there_are_refused() {
    let bytes = single_page(4, 3, &[]);

    let zero = render_document_page(&bytes, 0, PageRenderMode::Full, None).unwrap_err();
    let missing = render_document_page(&bytes, 2, PageRenderMode::Full, None).unwrap_err();
    let reversed = render_document_pages(&bytes, 1, Some(0), PageRenderMode::Full, None)
        .unwrap_err();
    let from_zero = render_document_pages(&bytes, 0, None, PageRenderMode::Full, None).unwrap_err();

    assert_eq!(zero, DjvuRenderError::ZeroPage);
    assert_eq!(missing, DjvuRenderError::PageOutOfRange { page: 2, page_count: 1 });
    assert_eq!(reversed, DjvuRenderError::ReversedPageRange);
    assert_eq!(from_zero, DjvuRenderError::ZeroFromPage);
}

#[test]
fn files_that_are_no_documents_are_refused() {
    assert!(render_document_page(b"AT&T", 1, PageRenderMode::Full, None).is_err());
    assert!(matches!(
        render_document_page(b"AT&TFORM\0\0\0\x04DJVX", 1, PageRenderMode::Full, None),
        Err(DjvuRenderError::Parse(_) | DjvuRenderError::PageOutOfRange { .. })
    ));
}

#[test]
fn layers_that_cannot_be_decoded_are_refused() {
    let bytes = single_page(4, 3, &[(*b"BG44", vec![0, 1])]);
    let masked = single_page(4, 3, &[(*b"Sjbz", vec![1])]);

    let layer = render_document_page(&bytes, 1, PageRenderMode::Full, None).unwrap_err();
    let mask = render_document_page(&masked, 1, PageRenderMode::Full, None).unwrap_err();

    assert_eq!(layer.message(), "IW44 first chunk header is too short");
    assert!(matches!(mask, DjvuRenderError::Render(_)));
}

#[test]
fn ranges_of_pages_are_rendered_in_order() {
    let pages = [
        page(4, 3, &[]),
        page(8, 5, &[(*b"BG44", layer(8, 5, true))]),
        page(2, 2, &[]),
    ];
    let (bytes, tail) = document_of(&pages);
    let mut events = Vec::new();

    let rendered = render_document_pages_with_events(
        &bytes,
        2,
        None,
        PageRenderMode::Full,
        Some(&tail),
        &mut events,
    )
    .unwrap();

    assert_eq!(rendered.len(), 2);
    assert_eq!(rendered[0].page_number, 2);
    assert_eq!(rendered[0].render.bitmap.width, 8);
    assert_eq!(rendered[1].page_number, 3);
    assert_eq!(rendered[1].render.bitmap.pixels, vec![255; 12]);
    let told = |index: usize| rendered[index].render.clone();
    assert_eq!(
        events,
        vec![
            DjvuPageRenderEvent::PageStarted { page_number: 2, end_page: 3 },
            DjvuPageRenderEvent::PageRendered { page_number: 2, render: told(0) },
            DjvuPageRenderEvent::PageStarted { page_number: 3, end_page: 3 },
            DjvuPageRenderEvent::PageRendered { page_number: 3, render: told(1) },
        ]
    );
}

#[test]
fn modes_are_read_back_from_their_names() {
    for mode in [
        PageRenderMode::Full,
        PageRenderMode::Background,
        PageRenderMode::Foreground,
        PageRenderMode::Mask,
    ] {
        assert_eq!(PageRenderMode::named(mode.as_str()), Ok(mode));
    }
    assert_eq!(
        PageRenderMode::named("a\"b").unwrap_err().message(),
        "unknown render mode \"a\\\"b\"; expected full, background, foreground, or mask"
    );
}

#[test]
fn documents_are_converted_page_by_page() {
    let pages = [page(4, 3, &[(*b"BG44", layer(4, 3, false))]), page(2, 2, &[])];
    let (bytes, tail) = document_of(&pages);
    let text = [no_text(), no_text()];
    let mut events = Vec::new();

    let file =
        render_document_pdf_with_events(&bytes, 1, None, Some(&tail), None, &text, &mut events)
            .unwrap();
    let again = render_document_pdf(&bytes, 1, Some(2), Some(&tail), None, &text).unwrap();
    let mut conversion =
        DocumentConversion::start(&bytes, 1, None, Some(&tail), None, &text).unwrap();
    let first = conversion.add_next_page().unwrap();
    let second = conversion.add_next_page().unwrap();

    assert!(matches!(first, PreparedPage::Rendered { .. }));
    assert!(matches!(second, PreparedPage::Rendered { .. }));
    assert_eq!(file, again);
    assert_eq!(conversion.finish(), Ok(again));
    assert!(file.starts_with(b"%PDF-1.4"));
    assert!(file.ends_with(b"%%EOF\n"));
    let text = String::from_utf8_lossy(&file);
    assert!(text.contains("/Type /Pages"));
    assert!(text.contains("/Count 2"));
    assert_eq!(events.len(), 4);
    assert!(matches!(
        events[0],
        DjvuPdfRenderEvent::PageStarted { page_number: 1, end_page: 2 }
    ));
    assert!(matches!(
        events[2],
        DjvuPdfRenderEvent::PageStarted { page_number: 2, end_page: 2 }
    ));
    for (event, page) in [(&events[1], &first), (&events[3], &second)] {
        let PreparedPage::Rendered(render, _) = page else {
            panic!("both pages are rendered");
        };
        let DjvuPdfRenderEvent::PageRendered { page_number, render: told } = event else {
            panic!("what was rendered is told");
        };
        assert_eq!(told, render);
        assert_eq!(told, &render_document_page(&bytes, *page_number, PageRenderMode::Full, Some(&tail)).unwrap());
    }
}

/// The stages of the work on the pages of a document, and the file that comes of it.
fn stages_of_work(
    bytes: &[u8],
    tail: &[u8],
    pages: usize,
) -> (Vec<Vec<(DjvuPdfTimingStage, bool)>>, Vec<u8>) {
    let text: Vec<ExtractedTextZonePage> = (0..pages).map(|_| no_text()).collect();
    let mut conversion =
        DocumentConversion::start(bytes, 1, None, Some(tail), None, &text).unwrap();
    let mut stages = Vec::new();
    while conversion.next_page <= conversion.end_page {
        let page_number = conversion.next_page;
        let mut work = PageWork::Unplanned;
        let mut steps = Vec::new();
        while let Some(step) = work.next_step() {
            let event = step.timing_event(page_number, 5);
            assert_eq!(event.nanoseconds, 5);
            assert_eq!(event.page_number, step.of_page.then_some(page_number));
            assert_eq!(event.page_kind, None);
            steps.push((event.stage, step.of_page));
            assert_eq!(conversion.next_page, page_number);
            work = conversion.advance(work).unwrap();
        }
        assert_eq!(conversion.next_page, page_number + 1);
        stages.push(steps);
    }
    (stages, conversion.finish().unwrap())
}

#[test]
fn pages_are_added_step_by_step() {
    let pages = [
        page(4, 3, &[(*b"BG44", layer(4, 3, false))]),
        page(2, 2, &[]),
        page(4, 3, &[(*b"FG44", layer(4, 3, false))]),
    ];
    let (bytes, tail) = document_of(&pages);
    let text = [no_text(), no_text(), no_text()];

    let (stages, file) = stages_of_work(&bytes, &tail, 3);

    assert_eq!(render_document_pdf(&bytes, 1, None, Some(&tail), None, &text), Ok(file));
    assert_eq!(
        stages[0],
        vec![
            (DjvuPdfTimingStage::PagePlan, false),
            (DjvuPdfTimingStage::Iw44Decode, true),
            (DjvuPdfTimingStage::Iw44Composite, true),
            (DjvuPdfTimingStage::Iw44Decode, true),
            (DjvuPdfTimingStage::Jb2Decode, true),
            (DjvuPdfTimingStage::ImageBytes, true),
            (DjvuPdfTimingStage::ImageBytes, false),
            (DjvuPdfTimingStage::PdfObjectWrite, false),
        ]
    );
    assert_eq!(
        stages[1],
        vec![
            (DjvuPdfTimingStage::PagePlan, false),
            (DjvuPdfTimingStage::Jb2Decode, true),
            (DjvuPdfTimingStage::Iw44Decode, true),
            (DjvuPdfTimingStage::Iw44Decode, true),
            (DjvuPdfTimingStage::Jb2Decode, true),
            (DjvuPdfTimingStage::ImageBytes, true),
            (DjvuPdfTimingStage::CcittEncode, false),
            (DjvuPdfTimingStage::PdfObjectWrite, false),
        ]
    );
    assert_eq!(
        stages[2],
        vec![
            (DjvuPdfTimingStage::PagePlan, false),
            (DjvuPdfTimingStage::Iw44Decode, true),
            (DjvuPdfTimingStage::Iw44Decode, true),
            (DjvuPdfTimingStage::Jb2Decode, true),
            (DjvuPdfTimingStage::ImageBytes, true),
            (DjvuPdfTimingStage::ImageBytes, false),
            (DjvuPdfTimingStage::PdfObjectWrite, false),
        ]
    );
}

/// The data of a bitonal image that ends, and its size, with some ink or without.
fn bitonal_image(inked: bool) -> (Vec<u8>, u16, u16) {
    let mut state: u32 = 3;
    for _ in 0..2_000_000 {
        let mut bytes = Vec::new();
        for _ in 0..16 {
            state = state.wrapping_mul(1_664_525).wrapping_add(1_013_904_223);
            bytes.push(u8::try_from(state >> 24).unwrap());
        }
        let small = match read_jb2_image_header(&bytes) {
            Ok(header) => {
                header.width <= 64
                    && header.height <= 64
                    && header.inherited_dictionary_symbols == 0
            }
            Err(_) => false,
        };
        if !small {
            continue;
        }
        if let Ok(image) = render_jb2_supported_prefix(&bytes, 3) {
            if image.reached_end_of_data && inked == (image.mask.black_pixel_count() > 0) {
                let width = u16::try_from(image.header.width).unwrap();
                return (bytes, width, u16::try_from(image.header.height).unwrap());
            }
        }
    }
    panic!("some of the inputs are images");
}

#[test]
fn a_page_that_is_one_mask_is_not_rendered() {
    for inked in [true, false] {
        let (image, width, height) = bitonal_image(inked);
        let pages = [
            page(width, height, &[(*b"Sjbz", image.clone())]),
            page(
                width,
                height,
                &[(*b"Sjbz", image.clone()), (*b"BG44", layer(width, height, true))],
            ),
        ];
        let (bytes, tail) = document_of(&pages);

        let (stages, file) = stages_of_work(&bytes, &tail, 2);

        let text = [no_text(), no_text()];
        assert_eq!(render_document_pdf(&bytes, 1, None, Some(&tail), None, &text), Ok(file));
        assert_eq!(
            stages[0],
            vec![
                (DjvuPdfTimingStage::PagePlan, false),
                (DjvuPdfTimingStage::Jb2Decode, true),
                (DjvuPdfTimingStage::ImageBytes, true),
                (DjvuPdfTimingStage::CcittEncode, false),
                (DjvuPdfTimingStage::PdfObjectWrite, false),
            ]
        );
        assert_eq!(
            stages[1],
            vec![
                (DjvuPdfTimingStage::PagePlan, false),
                (DjvuPdfTimingStage::Iw44Decode, true),
                (DjvuPdfTimingStage::Iw44Composite, true),
                (DjvuPdfTimingStage::Iw44Decode, true),
                (DjvuPdfTimingStage::Jb2Decode, true),
                (DjvuPdfTimingStage::MaskComposite, true),
                (DjvuPdfTimingStage::ImageBytes, true),
                (DjvuPdfTimingStage::ImageBytes, false),
                (DjvuPdfTimingStage::PdfObjectWrite, false),
            ]
        );
        let mut conversion =
            DocumentConversion::start(&bytes, 1, None, Some(&tail), None, &text).unwrap();
        assert!(matches!(conversion.add_next_page().unwrap(), PreparedPage::Direct(_)));
    }
}

#[test]
fn conversions_of_pages_that_are_not_there_are_refused() {
    let bytes = single_page(4, 3, &[]);

    let message = |from: usize, to: Option<usize>| {
        render_document_pdf(&bytes, from, to, None, None, &[]).unwrap_err().message()
    };

    assert_eq!(message(0, None), "from page must be 1 or greater");
    assert_eq!(message(2, Some(1)), "to page must be greater than or equal to from page");
    assert_eq!(message(1, Some(2)), "page 2 not found; document has 1 pages");
}

#[test]
fn plans_list_chunks_by_their_use() {
    let bytes = single_page(
        4,
        3,
        &[
            (*b"Sjbz", vec![1]),
            (*b"BG44", vec![2]),
            (*b"TXTa", vec![3]),
            (*b"Xyzw", vec![4]),
            (*b"BG44", vec![5]),
        ],
    );
    let document = Document::parse(&bytes).unwrap();
    let first = document.pages(&bytes).nth(0).unwrap().unwrap();

    let plan = document.page_render_plan(&bytes, &first, &[]).unwrap();

    assert_eq!(plan.bitonal_images, vec![1]);
    assert_eq!(plan.background_layers, vec![2, 5]);
    assert_eq!(plan.text_chunks, vec![3]);
    assert_eq!(plan.unknown_chunks, vec![4]);
    assert_eq!(plan.background_layer_payloads(&bytes)[1].bytes, &[5]);
}

#[test]
fn plans_are_put_in_words() {
    let bytes = single_page(
        4,
        3,
        &[(*b"BG44", layer(4, 3, true)), (*b"TXTa", vec![3]), (*b"Xyzw", vec![4])],
    );
    let document = Document::parse(&bytes).unwrap();
    let first = document.pages(&bytes).nth(0).unwrap().unwrap();
    let plan = document.page_render_plan(&bytes, &first, &[]).unwrap();

    let text = format_render_plan(&plan, &bytes);

    let lines: Vec<&str> = text.lines().collect();
    assert_eq!(
        lines,
        vec![
            "INFO: 4x3 dpi=100 gamma=2.2 version=25 rotation=1",
            "layers: bitonal dictionaries=0 bitonal images=0 foreground=0 background=1 text=1 unknown=1",
            "has image data: true",
            "has text: true",
            "IW44 layers:",
            "  background: chunks=1 total_slices=12 payload_bytes=10 image=4x3 subsample=1 scaled=4x3 overscan=0x0 grayscale=true chroma_half=false delay=0",
            "  background chunk #1: BG44 bytes=19 serial=0 slices=12 payload_bytes=10 image=4x3 grayscale=true chroma_half=false delay=0",
            "",
            "effective chunks:",
            "index  source      chunk  role      size      offset",
            "0      page        INFO  info      10        @16",
            "1      page        BG44  bg44      19        @34",
            "2      page        TXTa  txta      1         @62",
            "3      page        Xyzw  unknown   1         @72",
        ]
    );
}

#[test]
fn plans_name_what_cannot_be_read() {
    let bytes = single_page(4, 3, &[(*b"Sjbz", vec![]), (*b"FG44", vec![7])]);
    let document = Document::parse(&bytes).unwrap();
    let first = document.pages(&bytes).nth(0).unwrap().unwrap();
    let plan = document.page_render_plan(&bytes, &first, &[]).unwrap();

    let text = format_render_plan(&plan, &bytes);

    assert!(text.contains("bitonal mask: unavailable ("));
    assert!(text.contains("  foreground: FG44 layer_error="));
    assert!(text.contains("  foreground chunk #2: FG44 bytes=1 header_error="));
}

#[test]
fn white_rows_take_a_bit_each() {
    assert_eq!(group4_encode(8, 1, &[0x00]), vec![0x80, 0x08, 0x00, 0x80]);
    assert_eq!(group4_encode(8, 3, &[0, 0, 0]), vec![0xe0, 0x02, 0x00, 0x20]);
}

#[test]
fn black_runs_are_coded_by_their_lengths() {
    // Horizontal mode 001, white 4 as 1011, black 4 as 011, then the end.
    assert_eq!(
        group4_encode(8, 1, &[0x0f]),
        vec![0b0011_0110, 0b1100_0000, 0b0000_0100, 0b0000_0000, 0b0100_0000]
    );
}

#[test]
fn images_are_told_by_their_codes() {
    let mut codes: Vec<Vec<u8>> = Vec::new();
    for first in 0..32u8 {
        for second in 0..32u8 {
            codes.push(group4_encode(5, 2, &[first << 3, second << 3]));
        }
    }
    codes.sort();
    codes.dedup();

    assert_eq!(codes.len(), 1024);
}

#[test]
fn pages_that_were_rendered_are_put_in_words() {
    let bytes = single_page(4, 3, &[(*b"BG44", layer(4, 3, false))]);
    let render = render_document_page(&bytes, 1, PageRenderMode::Full, None).unwrap();

    let text = render_pdf_page_summary(7, &render);

    let stats = render.bitmap.stats();
    assert_eq!(
        text,
        format!(
            "page: 7\nrendered: 4x3 dpi=100\nbitmap stats: pixels=12 black={} white={} non_gray={} component_sum={} fingerprint={:016x}\nIW44 background: painted chunks=[1] image=4x3 subsample=1 scaled=4x3 overscan=0x0\n",
            stats.black_pixels,
            stats.white_pixels,
            stats.non_gray_pixels,
            stats.component_sum,
            stats.fingerprint
        )
    );
}

#[test]
fn masks_that_were_painted_are_put_in_words() {
    let header = Jb2ImageHeader { width: 8, height: 2, inherited_dictionary_symbols: 0 };
    let mask = BitonalBitmap { width: 8, height: 2, bits: vec![0x81, 0x07] };
    let done = Jb2PartialImage {
        header,
        mask,
        records: Vec::new(),
        dictionary_symbol_count: 3,
        stopped_before: None,
        reached_end_of_data: true,
    };
    let mut stopped = done.clone();
    stopped.stopped_before = Some(Jb2RecordKind::NewSymbolAddOnly);
    stopped.reached_end_of_data = false;
    let mut text = "masks\n".to_string();

    write_partial_render_summary(&mut text, &vec![(4, done), (9, stopped)]);

    assert_eq!(
        text,
        "masks\npainted bitonal image #4: black_pixels=5 dictionary_symbols=3 end_of_data=true stopped_before=none\npainted bitonal image #9: black_pixels=5 dictionary_symbols=3 end_of_data=false stopped_before=new-symbol-add-only\n"
    );
}

#[test]
fn images_that_were_prepared_are_put_in_words() {
    let mask = PdfPageImage::BitonalMask { width: 9, height: 2, dpi: 300, mask: vec![0; 4] };
    let gray = PdfPageImage::Gray8 { width: 2, height: 1, dpi: 72, pixels: vec![0; 2] };
    let rgb = PdfPageImage::Rgb8 { width: 2, height: 1, dpi: 72, pixels: vec![0; 6] };

    assert_eq!(
        pdf_page_image_summary(3, &mask),
        "page: 3\nprepared: 9x2 dpi=300 format=PDF/DeviceGray1 bytes=4\n"
    );
    assert_eq!(
        pdf_page_image_summary(1, &gray),
        "page: 1\nprepared: 2x1 dpi=72 format=PDF/DeviceGray8 bytes=2\n"
    );
    assert_eq!(
        pdf_page_image_summary(2, &rgb),
        "page: 2\nprepared: 2x1 dpi=72 format=PDF/RGB bytes=6\n"
    );
}
