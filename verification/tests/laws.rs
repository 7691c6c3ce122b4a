use djvulpes::{
    decode_jb2_dictionary, parse_form_at, parse_navm_bookmarks, read_jb2_image_header, read_jb2_record_prefix,
    read_page_info, render_jb2_image, render_jb2_image_with_dictionary,
    render_jb2_supported_prefix, summarize_iw44_layer,
    write_rendered_pages_pdf_iter, Iw44CoefficientEventKind, Iw44CoefficientTraceTarget,
    Iw44Decoder, Iw44Plane, Iw44ReconstructionExtent, Iw44ReconstructionOrder, Jb2RecordKind,
    Iw44LayerGeometry, Iw44LayerRole, Iw44RgbImage, Jb2Dictionary, PageBitmap, PartialPageRender, PdfError,
    PdfPageImage, PixelFormat, RenderedIw44Layer,
};

const PAYLOAD: [u8; 24] = [
    0x12, 0x9c, 0x33, 0xe0, 0x5a, 0x77, 0x01, 0xd8, 0x24, 0x6b, 0x90, 0x0f, 0xab, 0x13, 0x57,
    0xc4, 0x38, 0x62, 0xf1, 0x05, 0x8e, 0x49, 0xd7, 0x2c,
];

fn first_chunk(width: u16, height: u16, gray: bool, delay: u8) -> Vec<u8> {
    let mut payload = vec![0, 20, if gray { 0x81 } else { 1 }, 2];
    payload.extend_from_slice(&width.to_be_bytes());
    payload.extend_from_slice(&height.to_be_bytes());
    payload.push(0x80 | delay);
    payload.extend_from_slice(&PAYLOAD);
    payload
}

fn second_chunk() -> Vec<u8> {
    let mut payload = vec![1, 7];
    payload.extend_from_slice(&PAYLOAD[3..]);
    payload
}

fn decoded(width: u16, height: u16, gray: bool) -> Iw44Decoder {
    let mut decoder = Iw44Decoder::new();
    decoder.decode_chunk(&first_chunk(width, height, gray, 0)).unwrap();
    decoder.decode_chunk(&second_chunk()).unwrap();
    decoder
}

/// A page form whose children are the given chunks.
fn page_form(children: &[([u8; 4], &[u8])]) -> Vec<u8> {
    let mut payload = b"DJVU".to_vec();
    for (id, data) in children {
        payload.extend_from_slice(id);
        payload.extend_from_slice(&u32::try_from(data.len()).unwrap().to_be_bytes());
        payload.extend_from_slice(data);
        if data.len() % 2 == 1 {
            payload.push(0);
        }
    }
    let mut bytes = b"FORM".to_vec();
    bytes.extend_from_slice(&u32::try_from(payload.len()).unwrap().to_be_bytes());
    bytes.extend_from_slice(&payload);
    bytes
}

fn info_width(children: &[([u8; 4], &[u8])]) -> Option<u16> {
    let bytes = page_form(children);
    let form = parse_form_at(&bytes, 0).unwrap();
    read_page_info(&bytes, &form).unwrap().map(|info| info.width)
}

#[test]
fn the_first_info_chunk_counts_wherever_it_stands() {
    let wide: &[u8] = &[0x06, 0x18, 0x06, 0x61, 25, 0, 200, 0, 22, 1];
    let narrow: &[u8] = &[0x00, 0x20, 0x06, 0x61, 25, 0, 200, 0, 22, 1];

    assert_eq!(info_width(&[(*b"INFO", wide)]), Some(0x618));
    assert_eq!(info_width(&[(*b"INCL", b"shared"), (*b"INFO", wide)]), Some(0x618));
    assert_eq!(
        info_width(&[(*b"Sjbz", b"odd"), (*b"INFO", narrow), (*b"INFO", wide)]),
        Some(0x20)
    );
    assert_eq!(info_width(&[(*b"INCL", b"shared"), (*b"Sjbz", b"x")]), None);
    assert_eq!(info_width(&[]), None);
}

#[test]
fn an_info_chunk_that_is_too_short_hides_the_next() {
    let wide: &[u8] = &[0x06, 0x18, 0x06, 0x61, 25, 0, 200, 0, 22, 1];

    assert_eq!(info_width(&[(*b"INFO", &wide[..4]), (*b"INFO", wide)]), None);
}

#[test]
fn rendering_stops_before_a_reset() {
    let mut state: u32 = 1;
    let mut stopped = 0;
    let mut inked = 0;
    for _ in 0..20_000 {
        let mut bytes = Vec::new();
        for _ in 0..24 {
            state = state.wrapping_mul(1_664_525).wrapping_add(1_013_904_223);
            bytes.push(u8::try_from(state >> 24).unwrap());
        }
        let small = match read_jb2_image_header(&bytes) {
            Ok(header) => {
                header.width <= 256
                    && header.height <= 256
                    && header.inherited_dictionary_symbols == 0
            }
            Err(_) => false,
        };
        if !small {
            continue;
        }
        let Ok(prefix) = read_jb2_record_prefix(&bytes, 8) else {
            continue;
        };
        if prefix.stopped_before != Some(Jb2RecordKind::RequiredDictOrReset) {
            continue;
        }

        let image = render_jb2_supported_prefix(&bytes, 8).unwrap();
        assert_eq!(image.header, prefix.header);
        assert_eq!(image.records, prefix.records);
        assert_eq!(image.stopped_before, Some(Jb2RecordKind::RequiredDictOrReset));
        assert!(!image.reached_end_of_data);
        let before = render_jb2_supported_prefix(&bytes, prefix.records.len()).unwrap();
        assert_eq!(image.mask, before.mask);
        assert_eq!(before.stopped_before, None);
        assert_eq!(
            render_jb2_image(&bytes).unwrap_err().message(),
            "JB2 image stopped before unsupported required-dict-or-reset record"
        );
        stopped += 1;
        if image.mask.black_pixel_count() > 0 {
            inked += 1;
        }
    }

    assert!(stopped > 0);
    assert!(inked > 0);
}

#[test]
fn with_a_dictionary_resets_are_gone_over() {
    let shared = Jb2Dictionary { symbols: Vec::new() };
    let mut state: u32 = 7;
    let mut gone_over = 0;
    for _ in 0..400_000 {
        let mut bytes = Vec::new();
        for _ in 0..12 {
            state = state.wrapping_mul(1_664_525).wrapping_add(1_013_904_223);
            bytes.push(u8::try_from(state >> 24).unwrap());
        }
        let small = match read_jb2_image_header(&bytes) {
            Ok(header) => {
                header.width <= 64
                    && header.height <= 64
                    && header.inherited_dictionary_symbols == 0
            }
            Err(_) => false,
        };
        if !small {
            continue;
        }
        let Ok(prefix) = read_jb2_record_prefix(&bytes, 1) else {
            continue;
        };
        if prefix.stopped_before != Some(Jb2RecordKind::RequiredDictOrReset) {
            continue;
        }
        let Ok(dictionary) = decode_jb2_dictionary(&bytes) else {
            continue;
        };

        let image = render_jb2_image_with_dictionary(&bytes, &shared).unwrap();
        assert_eq!(image.stopped_before, None);
        assert!(image.reached_end_of_data);
        assert_eq!(image.dictionary_symbol_count, dictionary.symbol_count());
        assert_eq!(image.mask.black_pixel_count(), 0);
        assert_eq!(image.records.last().unwrap().kind, Jb2RecordKind::EndOfData);
        for record in &image.records {
            assert_ne!(record.kind, Jb2RecordKind::RequiredDictOrReset);
        }
        // The reset has a number of its own, and no record.
        assert!(image.records[0].index > 0);
        assert!(render_jb2_image(&bytes).is_err());
        gone_over += 1;
    }

    assert!(gone_over > 0);
}

fn gray_render(with_layer: bool) -> PartialPageRender {
    let first = first_chunk(2, 1, true, 0);
    let summary = summarize_iw44_layer(&[first.as_slice()]).unwrap();
    let mapping = summary.page_mapping(2, 1);
    let layer = RenderedIw44Layer {
        role: Iw44LayerRole::Background,
        chunk_indices: vec![1],
        geometry: Iw44LayerGeometry { summary, mapping },
        image: Iw44RgbImage { width: 2, height: 1, pixels: vec![9, 9, 9, 0, 0, 0] },
    };
    PartialPageRender {
        bitmap: PageBitmap {
            width: 2,
            height: 1,
            dpi: 72,
            format: PixelFormat::Rgb8,
            pixels: vec![9, 9, 9, 0, 0, 0],
        },
        iw44_layers: if with_layer { vec![layer] } else { Vec::new() },
        bitonal_masks: Vec::new(),
    }
}

#[test]
fn pages_with_image_layers_stay_in_colour() {
    assert_eq!(
        PdfPageImage::from_render(&gray_render(true)),
        PdfPageImage::Rgb8 { width: 2, height: 1, dpi: 72, pixels: vec![9, 9, 9, 0, 0, 0] }
    );
    assert_eq!(
        PdfPageImage::from_render(&gray_render(false)),
        PdfPageImage::Gray8 { width: 2, height: 1, dpi: 72, pixels: vec![9, 0] }
    );
    let file = write_rendered_pages_pdf_iter(1, [Ok::<_, PdfError>(gray_render(true))].into_iter())
        .unwrap();
    assert!(String::from_utf8_lossy(&file).contains("/DeviceRGB"));
}

#[test]
fn events_say_where_they_happened() {
    let mut decisions = 0;
    for coefficient in [0, 5, 17, 40, 63] {
        for plane in [Iw44Plane::Y, Iw44Plane::Cb, Iw44Plane::Cr] {
            let target = Iw44CoefficientTraceTarget { plane, block: 1, coefficient };
            let mut decoder = Iw44Decoder::new();
            for chunk in [first_chunk(64, 40, false, 0), second_chunk()] {
                let (_, events) =
                    decoder.decode_chunk_with_coefficient_observer(&chunk, target).unwrap();
                for event in events {
                    assert_eq!(event.plane, plane);
                    assert_eq!((event.block, event.coefficient), (1, coefficient));
                    assert_eq!((event.bucket, event.bucket_offset), (coefficient / 16, coefficient % 16));
                    match event.kind {
                        Iw44CoefficientEventKind::Activated { .. }
                        | Iw44CoefficientEventKind::Refined => {}
                        _ => {
                            assert_eq!(event.before, event.after);
                            decisions += 1;
                        }
                    }
                }
            }
        }
    }
    assert!(decisions > 0);
}

#[test]
fn coefficients_that_are_not_there_have_no_events() {
    for (gray, target) in [
        (true, Iw44CoefficientTraceTarget { plane: Iw44Plane::Cb, block: 0, coefficient: 0 }),
        (false, Iw44CoefficientTraceTarget { plane: Iw44Plane::Y, block: 4, coefficient: 0 }),
        (false, Iw44CoefficientTraceTarget { plane: Iw44Plane::Y, block: 0, coefficient: 1024 }),
    ] {
        let mut decoder = Iw44Decoder::new();
        let (_, events) = decoder
            .decode_chunk_with_coefficient_observer(&first_chunk(64, 40, gray, 0), target)
            .unwrap();

        assert!(events.is_empty());
    }
}

#[test]
fn slices_go_over_the_planes_and_bands_that_are_due() {
    for (gray, delay) in [(true, 0), (false, 0), (false, 3)] {
        let mut decoder = Iw44Decoder::new();
        let mut index = 0u32;
        for chunk in [first_chunk(64, 40, gray, delay), second_chunk()] {
            for slice in decoder.decode_chunk(&chunk).unwrap().slices {
                let luma = (Iw44Plane::Y, index % 10);
                let expected = if gray || index < u32::from(delay) {
                    vec![luma]
                } else {
                    let band = (index - u32::from(delay)) % 10;
                    vec![luma, (Iw44Plane::Cb, band), (Iw44Plane::Cr, band)]
                };
                let found: Vec<(Iw44Plane, u32)> =
                    slice.planes.iter().map(|plane| (plane.plane, u32::from(plane.band))).collect();
                assert_eq!(slice.index, index);
                assert_eq!(found, expected);
                index += 1;
            }
        }
        assert_eq!(index, 27);
    }
}

#[test]
fn observers_see_the_decoder_after_each_slice() {
    for gray in [true, false] {
        let chunk = first_chunk(64, 40, gray, 2);
        let mut decoder = Iw44Decoder::new();

        let (done, seen) = decoder
            .decode_chunk_with_slice_observer(&chunk, |decoder, slice| {
                (
                    slice.clone(),
                    decoder.slices_decoded(),
                    decoder.chunks_decoded(),
                    decoder.coefficient_planes(),
                    decoder.to_rgb_image(),
                )
            })
            .unwrap();

        assert_eq!(seen.len(), 20);
        for (index, (slice, slices, chunks, planes, image)) in seen.into_iter().enumerate() {
            let mut shorter = chunk.clone();
            shorter[1] = u8::try_from(index + 1).unwrap();
            let mut other = Iw44Decoder::new();
            other.decode_chunk(&shorter).unwrap();

            assert_eq!(slice, done.slices[index]);
            assert_eq!(slices, other.slices_decoded());
            assert_eq!(chunks, 0);
            assert_eq!(planes, other.coefficient_planes());
            assert_eq!(image, other.to_rgb_image());
        }
        assert_eq!(decoder.chunks_decoded(), 1);
    }
}

#[test]
fn planes_are_listed_within_their_numbers() {
    for (width, height, gray) in [(64, 40, false), (33, 17, true), (64, 64, false)] {
        let decoder = decoded(width, height, gray);
        let planes = decoder.coefficient_planes();
        let numbers = decoder.plane_coefficient_summaries();

        let expected = if gray {
            vec![Iw44Plane::Y]
        } else {
            vec![Iw44Plane::Y, Iw44Plane::Cb, Iw44Plane::Cr]
        };
        let listed: Vec<Iw44Plane> = planes.iter().map(|plane| plane.plane).collect();
        let counted: Vec<Iw44Plane> = numbers.iter().map(|plane| plane.plane).collect();
        assert_eq!(listed, expected);
        assert_eq!(counted, expected);
        for (plane, number) in planes.iter().zip(&numbers) {
            let nonzero = plane.coefficients.iter().filter(|value| **value != 0).count();
            let sum: u64 =
                plane.coefficients.iter().map(|value| u64::from(value.unsigned_abs())).sum();
            assert_eq!(plane.coefficients.len(), plane.width * plane.height);
            assert!(nonzero <= number.non_zero_coefficients);
            assert!(sum <= number.coefficient_abs_sum);
            if width % 32 == 0 && height % 32 == 0 {
                assert_eq!(nonzero, number.non_zero_coefficients);
                assert_eq!(sum, number.coefficient_abs_sum);
            }
        }
    }
}

#[test]
fn zeros_give_zeros() {
    let mut decoder = Iw44Decoder::new();
    let mut chunk = first_chunk(40, 33, false, 0);
    chunk[1] = 0;
    decoder.decode_chunk(&chunk).unwrap();

    for order in
        [Iw44ReconstructionOrder::ColumnsThenRows, Iw44ReconstructionOrder::RowsThenColumns]
    {
        for extent in [Iw44ReconstructionExtent::Visible, Iw44ReconstructionExtent::Padded] {
            let planes = decoder.reconstruct_planes_with_options(order, extent);

            assert_eq!(planes.len(), 3);
            for plane in planes {
                assert_eq!(plane.samples, vec![0; 40 * 33]);
            }
        }
    }
}

#[test]
fn whole_blocks_are_the_same_over_both_extents() {
    let decoder = decoded(64, 32, false);

    for order in
        [Iw44ReconstructionOrder::ColumnsThenRows, Iw44ReconstructionOrder::RowsThenColumns]
    {
        let visible =
            decoder.reconstruct_planes_with_options(order, Iw44ReconstructionExtent::Visible);
        assert!(visible[0].samples.iter().any(|sample| *sample != 0));
        assert_eq!(
            visible,
            decoder.reconstruct_planes_with_options(order, Iw44ReconstructionExtent::Padded)
        );
    }
}

#[test]
fn the_last_value_given_for_a_coefficient_counts() {
    let decoder = decoded(64, 40, false);

    for plane in [Iw44Plane::Y, Iw44Plane::Cb, Iw44Plane::Cr] {
        let once = decoder.reconstruct_plane_with_coefficient_value(plane, 1, 3, 700).unwrap();
        let twice = decoder
            .reconstruct_plane_with_coefficient_values(plane, &[(1, 3, -50), (1, 3, 700)])
            .unwrap();
        let other = decoder.reconstruct_plane_with_coefficient_value(plane, 1, 3, -50).unwrap();

        assert_eq!(once, twice);
        assert_ne!(once, other);
    }
}

#[test]
fn planes_with_nothing_replaced_are_those_of_the_image() {
    let decoder = decoded(64, 40, false);

    for shown in decoder.reconstruct_planes() {
        assert_eq!(
            decoder.reconstruct_plane_with_coefficient_values(shown.plane, &[]),
            Some(shown)
        );
    }
}

#[test]
fn coefficients_that_are_not_there_cannot_be_replaced() {
    let colour = decoded(64, 40, false);
    let gray = decoded(64, 40, true);

    for plane in [Iw44Plane::Y, Iw44Plane::Cb, Iw44Plane::Cr] {
        assert!(colour.reconstruct_plane_with_coefficient_value(plane, 3, 1023, 1).is_some());
        assert!(colour.reconstruct_plane_with_coefficient_value(plane, 4, 0, 1).is_none());
        assert!(colour.reconstruct_plane_with_coefficient_value(plane, 0, 1024, 1).is_none());
        assert!(colour
            .reconstruct_plane_with_coefficient_values(plane, &[(0, 0, 1), (9, 0, 1)])
            .is_none());
        assert_eq!(
            gray.reconstruct_plane_with_coefficient_values(plane, &[]).is_none(),
            plane != Iw44Plane::Y
        );
    }
}

#[test]
fn decoding_a_layer_ends_with_the_slices_of_its_summary() {
    let first = first_chunk(64, 40, false, 0);
    let second = second_chunk();
    let summary = summarize_iw44_layer(&[first.as_slice(), second.as_slice()]).unwrap();
    let decoder = decoded(64, 40, false);

    assert_eq!(decoder.slices_decoded(), summary.total_slices);
    assert_eq!(decoder.payload_bytes_seen(), summary.total_payload_bytes);
    assert_eq!(decoder.chunks_decoded(), summary.chunks.len());
    assert_eq!(decoder.image(), Some(summary.image));
}

fn bookmark_bytes(children: u16, title: &[u8], url: &[u8]) -> Vec<u8> {
    let mut bytes = children.to_le_bytes().to_vec();
    bytes.extend_from_slice(&u16::try_from(title.len()).unwrap().to_be_bytes());
    bytes.extend_from_slice(title);
    bytes.extend_from_slice(&u32::try_from(url.len()).unwrap().to_be_bytes()[1..]);
    bytes.extend_from_slice(url);
    bytes
}

#[test]
fn bookmarks_are_read_from_nothing_but_their_bytes() {
    let mut bytes = vec![1, 0];
    bytes.extend_from_slice(&bookmark_bytes(1, b"one", b"#1"));
    let top = bytes.len();
    bytes.extend_from_slice(&bookmark_bytes(0, b"two", b"#2"));

    let found = parse_navm_bookmarks(&bytes).unwrap();
    assert_eq!((found.len(), found[0].children.len()), (1, 1));
    for len in 0..bytes.len() {
        assert_eq!(parse_navm_bookmarks(&bytes[..len]).is_ok(), len == 2, "length {len}");
    }
    assert!(parse_navm_bookmarks(&bytes[..top]).is_err());
    assert_eq!(found.clone(), found);
    let mut longer = bytes.clone();
    longer.push(0);
    assert!(parse_navm_bookmarks(&longer).is_err());
    let mut other = bytes.clone();
    other[0] = 2;
    assert!(parse_navm_bookmarks(&other).is_err());
    other = bytes.clone();
    other[1] = 77;
    assert_eq!(parse_navm_bookmarks(&other).unwrap(), found);
}

#[test]
fn bytes_behind_a_bitmap_are_ignored_and_no_byte_of_it_may_be_missing() {
    let bitmap = PageBitmap {
        width: 3,
        height: 2,
        dpi: 90,
        format: PixelFormat::Rgb8,
        pixels: (40..58).collect(),
    };
    let file = bitmap.to_ppm_bytes();

    for extra in [&b"\n"[..], b"P6", b"0123456789"] {
        let mut longer = file.clone();
        longer.extend_from_slice(extra);
        assert_eq!(PageBitmap::from_ppm_bytes(&longer, 90).as_ref(), Ok(&bitmap));
    }
    for len in 0..file.len() {
        assert!(PageBitmap::from_ppm_bytes(&file[..len], 90).is_err());
    }
}
