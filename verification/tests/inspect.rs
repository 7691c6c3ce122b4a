use djvulpes::chunk::DJVU_MAGIC;
use djvulpes::inspect::coefficients::iw44_bucket_band;
use djvulpes::inspect::iw44_pixel_inspect_options;
use djvulpes::{
    inspect_iw44_pixel, Document, InspectError, Iw44CoefficientTraceTarget, Iw44Decoder,
    Iw44PixelInspectOptions, Iw44PixelInspection, Iw44PixelTrace, Iw44Plane, PageRenderMode,
};

const PAYLOAD: [u8; 24] = [
    0x12, 0x9c, 0x33, 0xe0, 0x5a, 0x77, 0x01, 0xd8, 0x24, 0x6b, 0x90, 0x0f, 0xab, 0x13, 0x57,
    0xc4, 0x38, 0x62, 0xf1, 0x05, 0x8e, 0x49, 0xd7, 0x2c,
];

fn push_chunk(bytes: &mut Vec<u8>, id: [u8; 4], payload: &[u8]) {
    bytes.extend_from_slice(&id);
    bytes.extend_from_slice(&u32::try_from(payload.len()).unwrap().to_be_bytes());
    bytes.extend_from_slice(payload);
    if payload.len() % 2 == 1 {
        bytes.push(0);
    }
}

fn first_chunk(width: u16, height: u16, gray: bool) -> Vec<u8> {
    let mut payload = vec![0, 20, if gray { 0x81 } else { 1 }, 2];
    payload.extend_from_slice(&width.to_be_bytes());
    payload.extend_from_slice(&height.to_be_bytes());
    payload.push(0x80);
    payload.extend_from_slice(&PAYLOAD);
    payload
}

fn second_chunk() -> Vec<u8> {
    let mut payload = vec![1, 7];
    payload.extend_from_slice(&PAYLOAD[3..]);
    payload
}

fn document(page: (u16, u16), layers: &[([u8; 4], Vec<u8>)]) -> Vec<u8> {
    let mut children = b"DJVU".to_vec();
    let mut info = Vec::new();
    info.extend_from_slice(&page.0.to_be_bytes());
    info.extend_from_slice(&page.1.to_be_bytes());
    info.extend_from_slice(&[25, 0, 100, 0, 22, 1]);
    push_chunk(&mut children, *b"INFO", &info);
    for (id, payload) in layers {
        push_chunk(&mut children, *id, payload);
    }
    let mut bytes = DJVU_MAGIC.to_vec();
    push_chunk(&mut bytes, *b"FORM", &children);
    bytes
}

fn inspect(
    bytes: &[u8],
    mode: PageRenderMode,
    options: &Iw44PixelInspectOptions,
) -> Result<Iw44PixelInspection, InspectError> {
    let document = Document::parse(bytes).expect("document should parse");
    let page = document.pages(bytes).nth(0).unwrap().expect("page should parse");
    let plan = document.page_render_plan(bytes, &page, &[]).expect("plan should be made");
    inspect_iw44_pixel(&plan, bytes, mode, options)
}

fn options(x: u32, y: u32) -> Iw44PixelInspectOptions {
    Iw44PixelInspectOptions {
        x,
        y,
        radius: 0,
        coefficient_limit: 0,
        coefficient_indices: Vec::new(),
        traces: Vec::new(),
    }
}

fn two_chunks(gray: bool) -> Vec<u8> {
    document(
        (64, 40),
        &[(*b"BG44", first_chunk(64, 40, gray)), (*b"BG44", second_chunk())],
    )
}

fn two_chunk_decoder(gray: bool) -> Iw44Decoder {
    let mut decoder = Iw44Decoder::new();
    decoder.decode_chunk(&first_chunk(64, 40, gray)).unwrap();
    decoder.decode_chunk(&second_chunk()).unwrap();
    decoder
}

#[test]
fn the_colour_of_a_pixel_is_made_of_its_samples() {
    for gray in [true, false] {
        let bytes = two_chunks(gray);
        let image = two_chunk_decoder(gray).to_rgb_image().unwrap();
        for (x, y) in [(0, 0), (63, 39), (17, 23)] {
            let found = inspect(&bytes, PageRenderMode::Background, &options(x, y)).unwrap();

            let first = 3 * (y as usize * 64 + x as usize);
            assert_eq!((found.source_x, found.source_y), (x as usize, y as usize));
            assert_eq!(found.rgb[..], image.pixels[first..first + 3]);
            assert_eq!(found.computed_rgb, found.rgb);
            assert_eq!((found.y.x, found.y.y), (x as usize, 39 - y as usize));
            assert_eq!(found.cb.is_some(), !gray);
            assert_eq!(found.cr.is_some(), !gray);
            assert_eq!(found.y_neighborhood, None);
            assert_eq!(found.y_coefficients, None);
        }
    }
}

#[test]
fn half_of_the_overscan_lies_before_the_page() {
    let bytes = document((63, 37), &[(*b"FG44", first_chunk(16, 10, true))]);

    let found = inspect(&bytes, PageRenderMode::Foreground, &options(3, 2)).unwrap();

    // The layer is scaled by four, to 64x40: nothing lies before the left edge, one row
    // above the top.
    assert_eq!((found.source_x, found.source_y), (0, 0));
    let next = inspect(&bytes, PageRenderMode::Foreground, &options(4, 3)).unwrap();
    assert_eq!((next.source_x, next.source_y), (1, 1));
}

#[test]
fn samples_round_a_pixel_stay_on_the_page() {
    let bytes = two_chunks(true);
    let mut wanted = options(1, 38);
    wanted.radius = 3;

    let around = inspect(&bytes, PageRenderMode::Background, &wanted)
        .unwrap()
        .y_neighborhood
        .unwrap();

    assert_eq!((around.page_min_x, around.page_min_y), (0, 35));
    assert_eq!(around.samples.len(), 5);
    assert!(around.samples.iter().all(|row| row.len() == 5));
    let middle = inspect(&bytes, PageRenderMode::Background, &options(1, 38)).unwrap();
    assert_eq!(around.samples[3][1], middle.y);
}

#[test]
fn the_strongest_coefficients_come_first() {
    let bytes = two_chunks(true);
    let mut wanted = options(40, 10);
    wanted.coefficient_limit = 6;

    let block = inspect(&bytes, PageRenderMode::Background, &wanted)
        .unwrap()
        .y_coefficients
        .unwrap();

    assert_eq!((block.block_x, block.block_y), (32, 0));
    assert_eq!((block.block_col, block.block_row), (1, 0));
    assert_eq!((block.width, block.height), (32, 32));
    assert!(block.non_zero > 0);
    assert_eq!(block.entries.len(), block.non_zero.min(6));
    assert_eq!(block.entries[0].absolute, block.max_abs);
    for pair in block.entries.windows(2) {
        assert!(pair[0].absolute >= pair[1].absolute);
    }
    let planes = two_chunk_decoder(true).coefficient_planes();
    for entry in &block.entries {
        assert_eq!(planes[0].coefficients[entry.y * 64 + entry.x], entry.value);
        assert_eq!(entry.band, iw44_bucket_band(entry.bucket));
        assert_eq!(entry.index, 16 * entry.bucket + entry.bucket_offset);
    }
}

#[test]
fn selected_coefficients_are_listed_once() {
    let bytes = two_chunks(true);
    let mut wanted = options(40, 10);
    wanted.coefficient_indices = vec![5, 5, 1023];

    let block = inspect(&bytes, PageRenderMode::Background, &wanted)
        .unwrap()
        .y_coefficients
        .unwrap();

    let indices: Vec<usize> = block.entries.iter().map(|entry| entry.index).collect();
    assert_eq!(indices, vec![5, 1023]);
    assert_eq!(block.entries[1].local_x, 31);
    assert_eq!(block.entries[1].local_y, 31);
}

#[test]
fn coefficients_that_are_not_there_are_refused() {
    let bytes = two_chunks(true);
    let mut outside = options(40, 10);
    outside.coefficient_indices = vec![1024];
    // The lower blocks have eight rows; row 16 of a block is beyond them.
    let mut edge = options(40, 0);
    edge.coefficient_indices = vec![2];

    let message = |options: &Iw44PixelInspectOptions| {
        inspect(&bytes, PageRenderMode::Background, options).unwrap_err().text()
    };

    assert_eq!(message(&outside), "IW44 coefficient index 1024 is outside a 32x32 block");
    assert_eq!(message(&edge), "IW44 coefficient index 2 is outside the edge block");
}

#[test]
fn traces_end_with_the_values_of_the_image() {
    let bytes = two_chunks(true);
    let mut wanted = options(40, 10);
    wanted.coefficient_limit = 4;
    wanted.coefficient_indices = vec![0, 1, 2];
    wanted.traces = vec![Iw44PixelTrace::Coefficients];

    let by_chunk = inspect(&bytes, PageRenderMode::Background, &wanted).unwrap();
    wanted.traces.push(Iw44PixelTrace::Slices);
    let by_slice = inspect(&bytes, PageRenderMode::Background, &wanted).unwrap();

    let entries = by_chunk.y_coefficients.unwrap().entries;
    let steps = by_chunk.y_coefficient_trace.unwrap();
    assert_eq!(steps.len(), 2);
    assert_eq!((steps[0].chunk_index, steps[0].chunk_serial), (1, 0));
    assert_eq!((steps[1].chunk_index, steps[1].chunk_serial), (2, 1));
    assert_eq!((steps[0].slices_decoded, steps[1].slices_decoded), (20, 27));
    assert_eq!(steps[1].values, entries);
    let slices = by_slice.y_coefficient_trace.unwrap();
    assert_eq!(slices.len(), 27);
    assert_eq!(slices[19].values, steps[0].values);
    assert_eq!(slices[26].values, entries);
    for (index, step) in slices.iter().enumerate() {
        let index = u32::try_from(index).unwrap();
        assert_eq!(step.slice_index, Some(index));
        assert_eq!(step.slices_decoded, index + 1);
    }
}

#[test]
fn events_lead_to_the_value_of_a_coefficient() {
    let bytes = two_chunks(true);
    let mut wanted = options(40, 10);
    wanted.coefficient_limit = 1;
    wanted.traces = vec![Iw44PixelTrace::Events];

    let found = inspect(&bytes, PageRenderMode::Background, &wanted).unwrap();

    let traces = found.y_coefficient_event_traces.unwrap();
    assert_eq!(traces.len(), 1);
    let events = &traces[0].events;
    assert!(!events.is_empty());
    assert_eq!(events[0].event.before, 0);
    assert_eq!(events.last().unwrap().event.after, traces[0].entry.value);
    for pair in events.windows(2) {
        assert_eq!(pair[0].event.after, pair[1].event.before);
    }
}

#[test]
fn observing_does_not_change_the_image() {
    let plain = two_chunk_decoder(false);
    let target = Iw44CoefficientTraceTarget { plane: Iw44Plane::Y, block: 1, coefficient: 3 };
    let mut traced = Iw44Decoder::new();
    let mut watched = Iw44Decoder::new();

    for chunk in [first_chunk(64, 40, false), second_chunk()] {
        traced.decode_chunk_with_coefficient_observer(&chunk, target).unwrap();
        watched.decode_chunk_with_slice_observer(&chunk, |_, _| ()).unwrap();
    }

    assert_eq!(traced, plain);
    assert_eq!(watched, plain);
}

#[test]
fn events_and_slices_lead_to_the_same_value() {
    let mut noted = 0;
    for coefficient in 0..64 {
        let target = Iw44CoefficientTraceTarget { plane: Iw44Plane::Y, block: 0, coefficient };
        let mut traced = Iw44Decoder::new();
        let mut watched = Iw44Decoder::new();
        let mut value = 0;

        for chunk in [first_chunk(64, 40, false), second_chunk()] {
            let (_, events) =
                traced.decode_chunk_with_coefficient_observer(&chunk, target).unwrap();
            let (_, values) = watched
                .decode_chunk_with_slice_observer(&chunk, |decoder, _| {
                    decoder.y.coefficients.values[coefficient]
                })
                .unwrap();
            for event in &events {
                assert_eq!((event.plane, event.block, event.coefficient), (Iw44Plane::Y, 0, coefficient));
                assert_eq!(event.before, value);
                value = event.after;
            }
            noted += events.len();
            assert_eq!(values.last(), Some(&value));
        }
    }
    assert!(noted > 0);
}

#[test]
fn the_effect_of_coefficients_is_measured_at_the_sample() {
    let bytes = two_chunks(true);
    let mut wanted = options(40, 10);
    wanted.coefficient_limit = 3;
    wanted.traces = vec![Iw44PixelTrace::Reconstruction];

    let found = inspect(&bytes, PageRenderMode::Background, &wanted).unwrap();

    let effects = found.y_coefficient_reconstruction.unwrap();
    let entries = found.y_coefficients.unwrap().entries;
    assert_eq!(effects.entries.len(), entries.len());
    let decoder = two_chunk_decoder(true);
    for (effect, entry) in effects.entries.iter().zip(&entries) {
        let zeroed = decoder
            .reconstruct_plane_with_coefficient_value(Iw44Plane::Y, 1, entry.index, 0)
            .unwrap();
        let raw = zeroed.samples[found.y.y * 64 + found.y.x];
        assert_eq!(effect.entry, *entry);
        assert_eq!(effect.original_raw, found.y.raw);
        assert_eq!(effect.zeroed_raw, raw);
        assert_eq!(effect.raw_delta, i32::from(found.y.raw) - i32::from(raw));
    }
    assert_eq!(effects.all_zeroed.coefficient_count, entries.len());
    assert_eq!(effects.block_zeroed.coefficient_count, 1024);
    let counts: Vec<usize> =
        effects.band_zeroed.iter().map(|band| band.coefficient_count).collect();
    assert_eq!(counts, vec![16, 16, 16, 16, 64, 64, 64, 256, 256, 256]);
    for pair in effects.bucket_zeroed.windows(2) {
        assert!(pair[0].raw_delta.abs() >= pair[1].raw_delta.abs());
    }
    for (index, bucket) in effects.bucket_zeroed.iter().enumerate() {
        assert!(bucket.contributors.len() <= 4);
        assert!(index < 3 || bucket.contributors.is_empty());
    }
    let rows = decoder.reconstruct_planes_with_order(
        djvulpes::Iw44ReconstructionOrder::RowsThenColumns,
    );
    assert_eq!(
        effects.rows_then_columns.alternate_raw,
        rows[0].samples[found.y.y * 64 + found.y.x]
    );
}

#[test]
fn inspections_that_make_no_sense_are_refused() {
    let bytes = two_chunks(true);
    let message = |mode: PageRenderMode, options: &Iw44PixelInspectOptions| {
        inspect(&bytes, mode, options).unwrap_err().text()
    };
    let mut wide = options(0, 0);
    wide.radius = 11;
    let traced = |trace: Iw44PixelTrace| {
        let mut options = options(0, 0);
        options.traces = vec![trace];
        options
    };

    assert_eq!(
        message(PageRenderMode::Background, &wide),
        "IW44 inspection radius must be 10 or less"
    );
    assert_eq!(
        message(PageRenderMode::Mask, &options(0, 0)),
        "IW44 pixel inspection requires background or foreground mode"
    );
    assert_eq!(
        message(PageRenderMode::Foreground, &options(0, 0)),
        "foreground IW44 layer not found"
    );
    assert_eq!(
        message(PageRenderMode::Background, &options(64, 7)),
        "page pixel x=64 y=7 is outside page 64x40"
    );
    assert_eq!(
        message(PageRenderMode::Background, &traced(Iw44PixelTrace::Coefficients)),
        "--trace-coefficients requires --coefficients or --coefficient-index"
    );
    assert_eq!(
        message(PageRenderMode::Background, &traced(Iw44PixelTrace::Events)),
        "--trace-events requires --coefficients or --coefficient-index"
    );
    assert_eq!(
        message(PageRenderMode::Background, &traced(Iw44PixelTrace::Reconstruction)),
        "--trace-reconstruction requires --coefficients or --coefficient-index"
    );
}

#[test]
fn chunks_out_of_turn_are_named() {
    let mut late = second_chunk();
    late[0] = 2;
    let bytes = document(
        (64, 40),
        &[(*b"BG44", first_chunk(64, 40, true)), (*b"BG44", vec![1])],
    );
    let skipped = document(
        (64, 40),
        &[(*b"BG44", first_chunk(64, 40, true)), (*b"BG44", late)],
    );

    let short = inspect(&bytes, PageRenderMode::Background, &options(0, 0)).unwrap_err();
    let gap = inspect(&skipped, PageRenderMode::Background, &options(0, 0)).unwrap_err();

    assert_eq!(short.text(), "IW44 chunk is too short");
    assert_eq!(gap.context, None);
}

#[test]
fn flags_choose_traces() {
    let chosen = iw44_pixel_inspect_options(
        1,
        2,
        3,
        vec![4],
        5,
        [
            (true, Iw44PixelTrace::Coefficients),
            (false, Iw44PixelTrace::Slices),
            (true, Iw44PixelTrace::Events),
            (false, Iw44PixelTrace::Reconstruction),
        ],
    );

    assert_eq!(chosen.traces, vec![Iw44PixelTrace::Coefficients, Iw44PixelTrace::Events]);
    assert_eq!((chosen.x, chosen.y, chosen.radius, chosen.coefficient_limit), (1, 2, 3, 5));
    assert_eq!(chosen.coefficient_indices, vec![4]);
}
