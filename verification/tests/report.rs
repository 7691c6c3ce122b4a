use djvulpes::iw44::wavelet::{inverse_wavelet_line, inverse_wavelet_transform_with_order};
use djvulpes::pdf::timing::{format_pdf_page_kind, format_pdf_timing_stage};
use djvulpes::report::{
    display_chunk_role, display_form_kind, escape_bookmark_string, format_include_payload,
    format_jb2_record_geometry, format_outline, format_page_chunk_source,
    iw44_rgb_image_ppm_bytes, reconstruction_summaries, render_pdf_progress, selected_page_count,
    sparse_progress_is_due,
};
use djvulpes::{
    Bookmark, DjvuPdfPageKind, DjvuPdfTimingEvent, DjvuPdfTimingStage, DocumentFormKind,
    Iw44Decoder, Iw44Plane, Iw44ReconstructionOrder, Iw44RgbImage, Jb2RecordKind,
    Jb2RecordSummary, PageChunkSource, PdfTimingSummary, RenderPdfOptions, RenderPdfProgress,
};

fn bookmark(title: &str, children: Vec<Bookmark>) -> Bookmark {
    Bookmark { title: title.to_string(), url: format!("#{title}"), children }
}

#[test]
fn outlines_are_nested_lists() {
    let bookmarks = vec![
        bookmark("a", vec![bookmark("b", vec![]), bookmark("c", vec![])]),
        bookmark("d", vec![]),
    ];

    let text = format_outline(&bookmarks);

    assert_eq!(
        text,
        "(bookmarks\n (\"a\"\n  \"#a\"\n  (\"b\"\n   \"#b\" )\n  (\"c\"\n   \"#c\" ) )\n (\"d\"\n  \"#d\" ) )\n"
    );
    assert_eq!(text.matches('(').count(), text.matches(')').count());
}

#[test]
fn the_last_bookmark_closes_all_lists() {
    let text = format_outline(&[bookmark("a", vec![bookmark("b", vec![bookmark("c", vec![])])])]);

    assert!(text.ends_with("\"#c\" ) ) ) )\n"));
    assert_eq!(format_outline(&[]), "(bookmarks\n");
}

#[test]
fn quoted_texts_are_ascii() {
    assert_eq!(escape_bookmark_string("a\"b\\c~\u{e9}\n"), "a\\\"b\\\\c~\\303\\251\\012");
}

#[test]
fn chunks_are_shown_with_their_roles() {
    assert_eq!(display_chunk_role("FORM", Some("DJVU")), "page");
    assert_eq!(display_chunk_role("FORM", Some("DJVI")), "shared");
    assert_eq!(display_chunk_role("FORM", Some("THUM")), "thumbs");
    assert_eq!(display_chunk_role("FORM", None), "form");
    assert_eq!(display_chunk_role("TXTz", None), "txtz");
    assert_eq!(display_chunk_role("ANTz", None), "unknown");
    assert_eq!(display_form_kind(DocumentFormKind::Thumbnails), "thumbs");
    assert_eq!(format_page_chunk_source(PageChunkSource::Page), "page");
    assert_eq!(
        format_page_chunk_source(PageChunkSource::Include { id: "x.djvi", offset: 7 }),
        "include:x.djvi"
    );
    assert_eq!(format_include_payload("x.djvi", None), " id=x.djvi");
}

#[test]
fn records_are_shown_with_their_geometry() {
    let mut record = Jb2RecordSummary {
        index: 0,
        kind: Jb2RecordKind::EndOfData,
        symbol_width: Some(12),
        symbol_height: Some(7),
        x: Some(-3),
        y: Some(40),
    };

    assert_eq!(format_jb2_record_geometry(&record), " 12x7 at (-3, 40)");
    record.symbol_height = None;
    record.y = None;
    assert_eq!(format_jb2_record_geometry(&record), "");
}

#[test]
fn progress_is_told_as_asked() {
    assert_eq!(render_pdf_progress(true, true), RenderPdfProgress::Quiet);
    assert_eq!(render_pdf_progress(false, true), RenderPdfProgress::PerPage);
    assert_eq!(render_pdf_progress(false, false), RenderPdfProgress::default());
    assert_eq!(RenderPdfOptions::default().progress, RenderPdfProgress::Sparse);
    assert_eq!(selected_page_count(3, Some(7)), Some(5));
    assert_eq!(selected_page_count(3, Some(2)), None);
    assert_eq!(selected_page_count(3, None), None);
    assert!(sparse_progress_is_due(50, None, RenderPdfProgress::Sparse));
    assert!(sparse_progress_is_due(7, Some(7), RenderPdfProgress::Sparse));
    assert!(!sparse_progress_is_due(8, Some(7), RenderPdfProgress::Sparse));
    assert!(!sparse_progress_is_due(50, None, RenderPdfProgress::Quiet));
}

#[test]
fn images_are_written_as_ppm_files() {
    let image = Iw44RgbImage { width: 1, height: 2, pixels: vec![1, 2, 3, 4, 5, 6] };

    assert_eq!(iw44_rgb_image_ppm_bytes(&image), b"P6\n1 2\n255\n\x01\x02\x03\x04\x05\x06");
}

#[test]
fn samples_are_summed_up() {
    let mut decoder = Iw44Decoder::new();
    assert!(reconstruction_summaries(&decoder).is_empty());
    decoder
        .decode_chunk(&[0, 5, 0x81, 2, 0, 9, 0, 4, 0, 0x21, 0x43, 0x65, 0x87])
        .unwrap();
    let samples = decoder.reconstruct_planes().remove(0).samples;

    let summaries = reconstruction_summaries(&decoder);

    assert_eq!(summaries.len(), 1);
    assert_eq!(summaries[0].plane, Iw44Plane::Y);
    assert_eq!((summaries[0].width, summaries[0].height), (9, 4));
    assert_eq!(summaries[0].sample_count, 36);
    assert_eq!(Some(&summaries[0].min_sample), samples.iter().min());
    assert_eq!(Some(&summaries[0].max_sample), samples.iter().max());
    assert_eq!(
        summaries[0].sample_abs_sum,
        samples.iter().map(|sample| u64::from(sample.unsigned_abs())).sum::<u64>()
    );
}

#[test]
fn times_go_to_their_stages_and_pages() {
    let mut summary = PdfTimingSummary::new();
    summary.record(DjvuPdfTimingEvent::aggregate(DjvuPdfTimingStage::Setup, 5));
    for (page, total) in [(1, 30), (2, 70), (3, 30)] {
        summary.record(DjvuPdfTimingEvent::page(DjvuPdfTimingStage::PagePlan, page, 2));
        summary.record(DjvuPdfTimingEvent::page_kind(
            DjvuPdfTimingStage::DirectBitonal,
            page,
            DjvuPdfPageKind::DirectBitonal,
            20,
        ));
        summary.record(DjvuPdfTimingEvent::page_kind(
            DjvuPdfTimingStage::Jb2Decode,
            page,
            DjvuPdfPageKind::DirectBitonal,
            9,
        ));
        summary.record(DjvuPdfTimingEvent::page(DjvuPdfTimingStage::PageTotal, page, total));
    }

    assert_eq!(summary.stage(DjvuPdfTimingStage::Setup), 5);
    assert_eq!(summary.stage(DjvuPdfTimingStage::Jb2Decode), 27);
    assert_eq!(summary.stage(DjvuPdfTimingStage::Iw44Decode), 0);
    assert_eq!(summary.direct_bitonal_pages, 3);
    assert_eq!(summary.fallback_rgb_pages, 0);
    assert_eq!(summary.pages.len(), 3);
    assert_eq!(summary.slowest_pages(), vec![1, 0, 2]);
    assert_eq!(summary.pages[1].total, 101);
    assert_eq!(
        summary.pages[1].dominant_stage(),
        Some((DjvuPdfTimingStage::Jb2Decode, 9))
    );
    assert_eq!(format_pdf_timing_stage(DjvuPdfTimingStage::PdfWrite), "pdf write/encode");
    assert_eq!(format_pdf_page_kind(DjvuPdfPageKind::FallbackRgb), "fallback RGB");
}

fn wrapped(value: i32) -> i16 {
    value as i16
}

fn at(line: &[i16], index: i32) -> i32 {
    usize::try_from(index).ok().and_then(|index| line.get(index)).map_or(0, |value| i32::from(*value))
}

fn predicted(line: &[i16], index: usize) -> i32 {
    let i = i32::try_from(index).unwrap();
    9 * (at(line, i - 1) + at(line, i + 1)) - (at(line, i - 3) + at(line, i + 3))
}

fn lifted(line: &[i16]) -> Vec<i16> {
    let mut odd = line.to_vec();
    for i in (1..line.len()).step_by(2) {
        let guess = if i >= 3 && i + 3 < line.len() {
            (predicted(line, i) + 8) >> 4
        } else if i + 1 < line.len() {
            (i32::from(line[i - 1]) + i32::from(line[i + 1]) + 1) >> 1
        } else {
            i32::from(line[i - 1])
        };
        odd[i] = wrapped(i32::from(line[i]) - guess);
    }
    let mut even = odd.clone();
    for i in (0..line.len()).step_by(2) {
        even[i] = wrapped(i32::from(odd[i]) + ((predicted(&odd, i) + 16) >> 5));
    }
    even
}

#[test]
fn lines_are_read_back_from_their_transforms() {
    let line = [3i16, -7, 500, 32767, -32768, 12, 0, 9, -1, 4, 77];
    for len in 0..=line.len() {
        let mut back = lifted(&line[..len]);
        inverse_wavelet_line(&mut back);
        assert_eq!(back, line[..len]);
    }
}

#[test]
fn planes_are_read_back_from_their_transforms() {
    let (width, height, stride) = (5usize, 3usize, 8usize);
    let samples: Vec<i16> = (0..24).map(|i| (i * i * 37 % 1001) - 500).collect();
    let mut plane = samples.clone();
    for step in [1usize, 2, 4, 8, 16] {
        for row in (0..height).step_by(step) {
            let line: Vec<i16> =
                (0..width).step_by(step).map(|col| plane[row * stride + col]).collect();
            for (i, value) in lifted(&line).into_iter().enumerate() {
                plane[row * stride + i * step] = value;
            }
        }
        for col in (0..width).step_by(step) {
            let line: Vec<i16> =
                (0..height).step_by(step).map(|row| plane[row * stride + col]).collect();
            for (i, value) in lifted(&line).into_iter().enumerate() {
                plane[i * step * stride + col] = value;
            }
        }
    }
    assert_ne!(plane, samples);

    inverse_wavelet_transform_with_order(
        &mut plane,
        width,
        height,
        stride,
        height,
        Iw44ReconstructionOrder::ColumnsThenRows,
    );

    assert_eq!(plane, samples);
}
