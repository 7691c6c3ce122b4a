use djvulpes::pdf::image::rgb_pixels_to_gray8;
use djvulpes::pdf::outline::{djvu_bookmark_page, pdf_bookmarks_from_djvu, pdf_text_string};
use djvulpes::pdf::stream::{
    image_stream_with_flate, pdf_run_length_encode, points_from_pixels, points_from_signed_pixels,
};
use djvulpes::pdf::text_layer::{
    pdf_literal_bytes, pdf_text_pages_from_djvu, pdf_to_unicode_cmap, PdfTextEncoding,
    PdfTextPage, PdfTextSpan,
};
use djvulpes::pdf::writer::{
    write_drawn_page_images, write_drawn_renders, write_page_image_pdf_iter_with_bookmarks,
    write_page_image_pdf_iter_with_bookmarks_and_text,
};
use djvulpes::{
    write_bitmap_pdf, write_page_image_pdf, write_page_image_pdf_iter,
    write_rendered_pages_pdf_iter, Bookmark, ExtractedTextZonePage, PageBitmap, PartialPageRender,
    PdfBookmark, PdfError, PdfPageImage, TextZone, TextZoneKind,
};

#[test]
fn write_bitmap_pdf_embeds_rgb_image_page() {
    let mut bitmap = PageBitmap::new_rgb8(1, 2, 144, [0xff, 0xff, 0xff]);
    assert!(bitmap.set_rgb(0, 1, [0, 0, 0]));

    let pdf = write_bitmap_pdf(&[bitmap]).expect("PDF should serialize");
    let text = String::from_utf8_lossy(&pdf);

    assert!(text.starts_with("%PDF-1.4\n"));
    assert!(text.contains("/Type /Catalog"));
    assert!(text.contains("/Type /Page"));
    assert!(text.contains("/MediaBox [0 0 0.5000 1.0000]"));
    assert!(text.contains("/Subtype /Image /Width 1 /Height 2"));
    assert!(text.contains("/Filter /RunLengthDecode"));
    assert!(text.contains("/Length 5"));
    assert!(text.contains("xref\n0 6\n"));
    assert!(text.contains("startxref\n"));
    assert!(pdf.ends_with(b"%%EOF\n"));
}

#[test]
fn write_bitmap_pdf_embeds_multiple_rgb_image_pages() {
    let first = PageBitmap::new_rgb8(1, 1, 72, [0, 0, 0]);
    let second = PageBitmap::new_rgb8(2, 1, 144, [0xff, 0xff, 0xff]);

    let pdf = write_bitmap_pdf(&[first, second]).expect("PDF should serialize");
    let text = String::from_utf8_lossy(&pdf);

    assert!(text.contains("/Type /Pages /Count 2 /Kids [3 0 R 4 0 R]"));
    assert!(text.contains("/MediaBox [0 0 1.0000 1.0000]"));
    assert!(text.contains("/MediaBox [0 0 1.0000 0.5000]"));
    assert!(text.contains("/Im1 7 0 R"));
    assert!(text.contains("/Im2 8 0 R"));
    assert!(text.contains("/Subtype /Image /Width 1 /Height 1"));
    assert!(text.contains("/Subtype /Image /Width 2 /Height 1"));
    assert!(text.contains("/Filter /RunLengthDecode"));
    assert!(text.contains("xref\n0 9\n"));
}

#[test]
fn write_page_image_pdf_embeds_bitonal_image_mask_page() {
    let page = PdfPageImage::BitonalMask {
        width: 32,
        height: 1,
        dpi: 72,
        mask: vec![0, 0, 0, 0],
    };

    let pdf = write_page_image_pdf(&[page]).expect("PDF should serialize");
    let text = String::from_utf8_lossy(&pdf);

    assert!(text.contains("/MediaBox [0 0 32.0000 1.0000]"));
    assert!(text.contains("/ColorSpace /DeviceGray /BitsPerComponent 1 /Decode [1 0]"));
    assert!(text.contains("/Filter /CCITTFaxDecode"));
    assert!(text.contains("/DecodeParms << /K -1 /Columns 32 /Rows 1 /BlackIs1 true >>"));
    assert!(text.contains("1 g\n0 0 32.0000 1.0000 re f\n0 g"));
    assert!(text.contains("0 g\n32.0000 0 0 1.0000 0 0 cm"));
}

#[test]
fn write_rendered_pages_pdf_iter_uses_render_image_embedding_choices() {
    let white_bitonal_render = PartialPageRender {
        bitmap: PageBitmap::new_rgb8(8, 1, 72, [0xff, 0xff, 0xff]),
        iw44_layers: Vec::new(),
        bitonal_masks: Vec::new(),
    };

    let pdf = write_rendered_pages_pdf_iter(
        1,
        [Ok::<PartialPageRender, PdfError>(white_bitonal_render)].into_iter(),
    )
    .expect("rendered pages should serialize");
    let text = String::from_utf8_lossy(&pdf);

    assert!(text.contains("/Type /Pages /Count 1 /Kids [3 0 R]"));
    assert!(text.contains("/ColorSpace /DeviceGray /BitsPerComponent 1 /Decode [1 0]"));
}

#[test]
fn write_page_image_pdf_embeds_gray8_page_as_device_gray() {
    let page = PdfPageImage::Gray8 {
        width: 2,
        height: 1,
        dpi: 72,
        pixels: vec![7, 8],
    };

    let pdf = write_page_image_pdf(&[page]).expect("PDF should serialize");
    let text = String::from_utf8_lossy(&pdf);

    assert!(text.contains("/ColorSpace /DeviceGray /BitsPerComponent 8"));
    assert!(!text.contains("/ColorSpace /DeviceRGB /BitsPerComponent 8"));
}

#[test]
fn rgb_pixels_to_gray8_accepts_only_exact_gray_pixels() {
    assert_eq!(rgb_pixels_to_gray8(&[7, 7, 7, 8, 8, 8]), Some(vec![7, 8]));
    assert_eq!(rgb_pixels_to_gray8(&[7, 7, 8]), None);
    assert_eq!(rgb_pixels_to_gray8(&[7, 7]), None);
}

#[test]
fn write_page_image_pdf_iter_embeds_bookmark_outline() {
    let page = PdfPageImage::Rgb8 {
        width: 1,
        height: 1,
        dpi: 72,
        pixels: vec![0, 0, 0],
    };
    let bookmarks = vec![PdfBookmark {
        title: "Root".to_string(),
        page_index: 0,
        children: vec![PdfBookmark {
            title: "Child".to_string(),
            page_index: 0,
            children: Vec::new(),
        }],
    }];

    let pdf = write_page_image_pdf_iter_with_bookmarks(
        1,
        [Ok::<PdfPageImage, PdfError>(page)].into_iter(),
        bookmarks,
    )
    .expect("PDF with outline should serialize");
    let text = String::from_utf8_lossy(&pdf);

    assert!(
        text.contains("/Type /Catalog /Pages 2 0 R /Outlines 6 0 R /PageMode /UseOutlines")
    );
    assert!(text.contains("6 0 obj\n<< /Type /Outlines /First 7 0 R /Last 7 0 R /Count 2 >>"));
    assert!(text.contains("7 0 obj\n<< /Title <FEFF0052006F006F0074> /Parent 6 0 R /Dest [3 0 R /Fit] /First 8 0 R /Last 8 0 R /Count 1 >>"));
    assert!(text.contains(
        "8 0 obj\n<< /Title <FEFF004300680069006C0064> /Parent 7 0 R /Dest [3 0 R /Fit] >>"
    ));
    assert!(text.contains("xref\n0 9\n"));
}

#[test]
fn write_page_image_pdf_leaves_incompressible_image_unfiltered() {
    let page = PdfPageImage::Rgb8 {
        width: 2,
        height: 1,
        dpi: 72,
        pixels: vec![1, 2, 3, 4, 5, 6],
    };

    let pdf = write_page_image_pdf(&[page]).expect("PDF should serialize");
    let text = String::from_utf8_lossy(&pdf);

    assert!(!text.contains("/Filter /RunLengthDecode"));
    assert!(text.contains("/Length 6"));
    assert!(pdf.windows(6).any(|window| window == [1, 2, 3, 4, 5, 6]));
}

#[test]
fn pdf_run_length_encode_encodes_literal_and_repeat_runs() {
    assert_eq!(pdf_run_length_encode(&[]), [128]);
    assert_eq!(
        pdf_run_length_encode(&[1, 2, 3, 4, 4, 4, 5]),
        [2, 1, 2, 3, 254, 4, 0, 5, 128]
    );
}

#[test]
fn pdf_run_length_encode_splits_long_runs() {
    let bytes = vec![7; 130];

    assert_eq!(pdf_run_length_encode(&bytes), [129, 7, 255, 7, 128]);
}

#[test]
fn write_page_image_pdf_rejects_invalid_bitonal_buffer_length() {
    let page = PdfPageImage::BitonalMask {
        width: 9,
        height: 2,
        dpi: 72,
        mask: vec![0; 3],
    };

    assert_eq!(
        write_page_image_pdf(&[page]).expect_err("bad buffer should fail"),
        PdfError::new("bitonal page has 3 bytes, expected 4")
    );
}

#[test]
fn write_page_image_pdf_iter_rejects_short_iterator() {
    let page = PdfPageImage::Rgb8 {
        width: 1,
        height: 1,
        dpi: 72,
        pixels: vec![0, 0, 0],
    };

    assert_eq!(
        write_page_image_pdf_iter(2, [Ok::<PdfPageImage, PdfError>(page)].into_iter())
            .expect_err("short iterator should fail"),
        PdfError::new("PDF page iterator produced 1 pages, expected 2")
    );
}

#[test]
fn write_page_image_pdf_iter_rejects_long_iterator() {
    let page = PdfPageImage::Rgb8 {
        width: 1,
        height: 1,
        dpi: 72,
        pixels: vec![0, 0, 0],
    };

    assert_eq!(
        write_page_image_pdf_iter(
            1,
            [
                Ok::<PdfPageImage, PdfError>(page.clone()),
                Ok::<PdfPageImage, PdfError>(page),
            ]
            .into_iter(),
        )
        .expect_err("long iterator should fail"),
        PdfError::new("PDF page iterator produced more than 1 pages")
    );
}

#[test]
fn write_bitmap_pdf_rejects_empty_page_list() {
    assert_eq!(
        write_bitmap_pdf(&[]).expect_err("empty input should fail"),
        PdfError::new("cannot write a PDF with no pages")
    );
}

#[test]
fn write_bitmap_pdf_rejects_invalid_pixel_buffer_length() {
    let mut bitmap = PageBitmap::new_rgb8(2, 2, 300, [0, 0, 0]);
    bitmap.pixels.pop();

    assert_eq!(
        write_bitmap_pdf(&[bitmap]).expect_err("bad buffer should fail"),
        PdfError::new("bitmap has 11 bytes, expected 12")
    );
}

fn text_span(text: &str) -> PdfTextSpan {
    PdfTextSpan { text: text.to_string(), x: 72, y: -36, width: 10, height: 0 }
}

fn gray_page() -> PdfPageImage {
    PdfPageImage::Gray8 { width: 2, height: 1, dpi: 72, pixels: vec![7, 8] }
}

/// Undoes a run-length code.
fn run_length_decode(code: &[u8]) -> Vec<u8> {
    let mut bytes = Vec::new();
    let mut at = 0;
    while code[at] != 128 {
        let head = code[at] as usize;
        if head < 128 {
            bytes.extend_from_slice(&code[at + 1..at + 2 + head]);
            at += 2 + head;
        } else {
            bytes.extend(vec![code[at + 1]; 257 - head]);
            at += 2;
        }
    }
    bytes
}

#[test]
fn run_length_codes_are_read_back() {
    let mut bytes: Vec<u8> = (0..=255).collect();
    bytes.extend(vec![9; 300]);
    bytes.extend([1, 1, 2, 2, 3, 4, 5, 5, 5]);

    assert_eq!(run_length_decode(&pdf_run_length_encode(&bytes)), bytes);
}

#[test]
fn points_are_formatted_as_floating_point_numbers_are() {
    for pixels in [0, 1, 2, 3, 7, 100, 2549, 3300, 65_535, 1_000_003, u32::MAX] {
        for dpi in [0, 1, 71, 72, 96, 100, 144, 200, 300, 599, 600, 2304, 4608, 65_535] {
            let points = f64::from(pixels) * 72.0 / f64::from(u32::from(u16::max(dpi, 1)));
            assert_eq!(
                String::from_utf8(points_from_pixels(pixels, dpi)).unwrap(),
                format!("{points:.4}")
            );
        }
    }
    for pixels in [i32::MIN, -65_535, -1, 0, 1, i32::MAX] {
        for dpi in [0, 1, 300, 2304, 65_535] {
            let points = f64::from(pixels) * 72.0 / f64::from(u16::max(dpi, 1));
            assert_eq!(
                String::from_utf8(points_from_signed_pixels(pixels, dpi)).unwrap(),
                format!("{points:.4}")
            );
        }
    }
}

#[test]
fn many_points_are_formatted_as_floating_point_numbers_are() {
    let mut state: u64 = 12_345;
    for _ in 0..20_000 {
        state = state.wrapping_mul(6_364_136_223_846_793_005).wrapping_add(1);
        let pixels = (state >> 40) as u32;
        let dpi = ((state >> 20) as u16).max(1);
        let points = f64::from(pixels) * 72.0 / f64::from(dpi);
        assert_eq!(
            String::from_utf8(points_from_pixels(pixels, dpi)).unwrap(),
            format!("{points:.4}")
        );
    }
}

#[test]
fn the_shortest_coding_of_an_image_is_taken() {
    let plain = image_stream_with_flate(b"/D", &[1, 2, 3], &[9, 9, 9]);
    assert_eq!(plain, b"<< /D /Length 3 >>\nstream\n\x01\x02\x03\nendstream");

    let runs = image_stream_with_flate(b"/D", &[5; 9], &[9, 9, 9]);
    assert_eq!(
        runs,
        b"<< /D /Filter /RunLengthDecode /Length 3 >>\nstream\n\xf8\x05\x80\nendstream"
    );

    let flate = image_stream_with_flate(b"/D", &[5; 9], &[9, 9]);
    assert_eq!(
        flate,
        b"<< /D /Filter /FlateDecode /Length 2 >>\nstream\n\x09\x09\nendstream"
    );
}

#[test]
fn large_images_are_compressed() {
    let pixels: Vec<u8> = (0..3000).map(|i| (i % 7) as u8).collect();
    let page = PdfPageImage::Gray8 { width: 100, height: 30, dpi: 72, pixels };

    let pdf = write_page_image_pdf(&[page]).expect("PDF should serialize");
    let text = String::from_utf8_lossy(&pdf);

    assert!(text.contains("/Filter /FlateDecode"));
    assert!(!text.contains("/Length 3000"));
}

#[test]
fn every_object_stands_where_the_table_says() {
    let bookmarks = vec![
        PdfBookmark {
            title: "A".to_string(),
            page_index: 1,
            children: vec![PdfBookmark {
                title: "B".to_string(),
                page_index: 0,
                children: Vec::new(),
            }],
        },
        PdfBookmark { title: "C".to_string(), page_index: 0, children: Vec::new() },
    ];
    let texts = vec![
        PdfTextPage { spans: vec![text_span("h\u{e9}llo")] },
        PdfTextPage { spans: Vec::new() },
    ];
    let pdf = write_page_image_pdf_iter_with_bookmarks_and_text(
        2,
        [Ok::<PdfPageImage, PdfError>(gray_page()), Ok(gray_page())].into_iter(),
        bookmarks,
        Some(texts),
    )
    .expect("PDF should serialize");
    let text: String = pdf.iter().map(|byte| char::from(*byte)).collect();
    let start: usize = text[text.find("startxref\n").unwrap() + 10..]
        .lines()
        .next()
        .unwrap()
        .parse()
        .unwrap();
    let table = String::from_utf8(pdf[start..].to_vec()).unwrap();
    let lines: Vec<&str> = table.lines().collect();

    assert_eq!(lines[0], "xref");
    assert_eq!(lines[1], "0 15");
    for id in 1..15 {
        let offset: usize = lines[2 + id][..10].parse().unwrap();
        assert!(pdf[offset..].starts_with(format!("{id} 0 obj\n").as_bytes()));
    }
    assert!(text.contains("/Prev 12 0 R"));
    assert!(text.contains("/Next 14 0 R"));
}

#[test]
fn text_is_shown_over_its_page() {
    let texts = vec![PdfTextPage { spans: vec![text_span("a(\u{e9})")] }];
    let pdf = write_page_image_pdf_iter_with_bookmarks_and_text(
        1,
        [Ok::<PdfPageImage, PdfError>(gray_page())].into_iter(),
        Vec::new(),
        Some(texts),
    )
    .expect("PDF should serialize");
    let text: String = pdf.iter().map(|byte| char::from(*byte)).collect();

    assert!(text.contains(
        "q\nBT\n3 Tr\n/Ftxt 1 Tf\n/Span << /ActualText <FEFF0061002800E90029> >> BDC\n\
         1.0000 0 0 1.0000 72.0000 -36.0000 Tm\n(a\\(\\200\\)) Tj\nEMC\nET\nQ\n"
    ));
    assert!(text.contains("/Font << /Ftxt 6 0 R >>"));
    assert!(text.contains("<80> <00E9>\n"));
}

#[test]
fn text_layers_of_another_length_are_refused() {
    let error = write_page_image_pdf_iter_with_bookmarks_and_text(
        1,
        [Ok::<PdfPageImage, PdfError>(gray_page())].into_iter(),
        Vec::new(),
        Some(Vec::new()),
    )
    .expect_err("missing text pages should fail");

    assert_eq!(error.message(), "PDF text layer has 0 pages, expected 1");
}

#[test]
fn too_many_characters_are_refused() {
    let few: String = (0..127).map(|i| char::from_u32(0x400 + i).unwrap()).collect();
    let many: String = (0..128).map(|i| char::from_u32(0x400 + i).unwrap()).collect();

    let encoding =
        PdfTextEncoding::from_pages(&[PdfTextPage { spans: vec![text_span(&few)] }]).unwrap();
    assert_eq!(encoding.encode("\u{400}\u{47e} ~"), [0x80, 0xfe, 0x20, 0x7e]);
    assert_eq!(encoding.unicode_entries().len(), 95 + 127);
    let cmap = String::from_utf8(pdf_to_unicode_cmap(&encoding)).unwrap();
    assert!(cmap.contains("100 beginbfchar\n<20> <0020>\n"));
    assert!(cmap.contains("22 beginbfchar\n"));
    assert!(cmap.ends_with("endcmap\nCMapName currentdict /CMap defineresource pop\nend\nend"));

    assert_eq!(
        PdfTextEncoding::from_pages(&[PdfTextPage { spans: vec![text_span(&many)] }])
            .expect_err("128 characters should fail")
            .message(),
        "PDF text layer uses more than 128 non-ASCII characters"
    );
}

#[test]
fn literal_strings_escape_what_they_have_to() {
    assert_eq!(
        pdf_literal_bytes(&[b'(', b')', b'\\', b'\n', b'\r', b'\t', b'a', 0, 0x7f, 0xff]),
        b"(\\(\\)\\\\\\n\\r\\ta\\000\\177\\377)"
    );
}

#[test]
fn text_strings_are_utf16() {
    assert_eq!(pdf_text_string("\u{1f600}z"), b"<FEFFD83DDE00007A>");
}

#[test]
fn bookmarks_outside_the_range_are_replaced_by_those_below_them() {
    let bookmarks = vec![
        Bookmark {
            title: "out".to_string(),
            url: "#9".to_string(),
            children: vec![Bookmark {
                title: "in".to_string(),
                url: "#+3".to_string(),
                children: Vec::new(),
            }],
        },
        Bookmark { title: "none".to_string(), url: "x".to_string(), children: Vec::new() },
    ];

    let outline = pdf_bookmarks_from_djvu(&bookmarks, 2, 4);

    assert_eq!(
        outline,
        vec![PdfBookmark { title: "in".to_string(), page_index: 1, children: Vec::new() }]
    );
    assert_eq!(djvu_bookmark_page("#12"), Some(12));
    assert_eq!(djvu_bookmark_page("#"), None);
    assert_eq!(djvu_bookmark_page("12"), None);
    assert_eq!(djvu_bookmark_page("#99999999999999999999"), None);
}

fn zone(kind: TextZoneKind, range: (usize, usize), children: Vec<TextZone>) -> TextZone {
    TextZone {
        kind,
        x_min: 1,
        y_min: 2,
        width: 3,
        height: 4,
        text_start: range.0,
        text_end: range.1,
        children,
    }
}

#[test]
fn words_of_a_line_are_parted_by_spaces() {
    let page = ExtractedTextZonePage {
        text: "one two \u{3000}x".to_string(),
        zone: Some(zone(
            TextZoneKind::Page,
            (0, 0),
            vec![
                zone(
                    TextZoneKind::Line,
                    (0, 0),
                    vec![
                        zone(TextZoneKind::Word, (0, 4), Vec::new()),
                        zone(TextZoneKind::Word, (4, 11), Vec::new()),
                        zone(TextZoneKind::Word, (4, 9), Vec::new()),
                    ],
                ),
                zone(TextZoneKind::Word, (11, 12), Vec::new()),
            ],
        )),
    };

    let pages = pdf_text_pages_from_djvu(&[page]);

    let texts: Vec<&str> = pages[0].spans.iter().map(|span| span.text.as_str()).collect();
    assert_eq!(texts, vec!["one two", "x"]);
    assert_eq!(pages[0].spans[0].height, 4);
}

/// An error of a caller: of its own, or that of a PDF file.
#[derive(Debug, PartialEq)]
enum Failure {
    Page(usize),
    File(String),
}

impl From<PdfError> for Failure {
    fn from(error: PdfError) -> Self {
        Failure::File(error.message().to_string())
    }
}

#[test]
fn errors_of_pages_are_handed_back() {
    let result = write_page_image_pdf_iter(
        3,
        [Ok(gray_page()), Err(Failure::Page(2)), Ok(gray_page())].into_iter(),
    );
    let none = write_page_image_pdf_iter::<Failure, _>(0, std::iter::empty());
    let short = write_rendered_pages_pdf_iter::<Failure, _>(1, std::iter::empty());

    assert_eq!(result, Err(Failure::Page(2)));
    assert_eq!(none, Err(Failure::File("cannot write a PDF with no pages".to_string())));
    assert_eq!(
        short,
        Err(Failure::File("PDF page iterator produced 0 pages, expected 1".to_string()))
    );
}

#[test]
fn no_page_is_drawn_behind_one_that_cannot_be_added() {
    let pages = |bad: Option<usize>| {
        (0..9).map(move |index| {
            if bad == Some(index) {
                Err(Failure::Page(index))
            } else {
                Ok(gray_page())
            }
        })
    };
    let left = |page_count: usize, bad: Option<usize>| {
        let mut pages = pages(bad);
        let result = write_drawn_page_images(page_count, &mut pages, Vec::new(), None);
        (result.is_ok(), pages.count())
    };

    assert_eq!(left(9, None), (true, 0));
    assert_eq!(left(9, Some(4)), (false, 4));
    assert_eq!(left(3, None), (false, 5));
    assert_eq!(left(3, Some(3)), (false, 5));
    assert_eq!(left(12, None), (false, 0));
    assert_eq!(left(0, None), (false, 9));
}

#[test]
fn no_render_is_drawn_behind_one_that_cannot_be_added() {
    let mut renders = (0..4).map(|index| {
        if index == 1 {
            Err(Failure::Page(index))
        } else {
            Ok(PartialPageRender {
                bitmap: PageBitmap::new_rgb8(8, 1, 72, [0xff, 0xff, 0xff]),
                iw44_layers: Vec::new(),
                bitonal_masks: Vec::new(),
            })
        }
    });

    assert_eq!(write_drawn_renders(4, &mut renders, Vec::new()), Err(Failure::Page(1)));
    assert_eq!(renders.count(), 2);
}
