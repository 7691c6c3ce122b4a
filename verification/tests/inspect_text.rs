use djvulpes::chunk::DJVU_MAGIC;
use djvulpes::inspect::iw44_plane_name;
use djvulpes::report::inspect_text::format_iw44_pixel_inspection;
use djvulpes::{
    inspect_iw44_pixel, Document, Iw44CoefficientEventKind, Iw44LayerRole,
    Iw44PixelInspectOptions, Iw44PixelInspection, Iw44PixelTrace, PageRenderMode,
};

fn push_chunk(bytes: &mut Vec<u8>, id: [u8; 4], payload: &[u8]) {
    bytes.extend_from_slice(&id);
    bytes.extend_from_slice(&u32::try_from(payload.len()).unwrap().to_be_bytes());
    bytes.extend_from_slice(payload);
    if payload.len() % 2 == 1 {
        bytes.push(0);
    }
}

fn page_with_layer() -> Vec<u8> {
    let mut layer = vec![0, 30, 1, 2, 0, 64, 0, 64, 0x80];
    layer.extend_from_slice(&[0x12, 0x9c, 0x33, 0xe0, 0x5a, 0x77, 0x01, 0xd8, 0x24, 0x6b, 0x90]);
    let mut children = b"DJVU".to_vec();
    push_chunk(&mut children, *b"INFO", &[0, 64, 0, 64, 25, 0, 100, 0, 22, 1]);
    push_chunk(&mut children, *b"BG44", &layer);
    let mut bytes = DJVU_MAGIC.to_vec();
    push_chunk(&mut bytes, *b"FORM", &children);
    bytes
}

fn inspect(traces: Vec<Iw44PixelTrace>, radius: u8, limit: usize) -> Iw44PixelInspection {
    let bytes = page_with_layer();
    let document = Document::parse(&bytes).unwrap();
    let page = document.pages(&bytes).nth(0).unwrap().unwrap();
    let plan = document.page_render_plan(&bytes, &page, &[]).unwrap();
    let options = Iw44PixelInspectOptions {
        x: 5,
        y: 6,
        radius,
        coefficient_limit: limit,
        coefficient_indices: Vec::new(),
        traces,
    };
    inspect_iw44_pixel(&plan, &bytes, PageRenderMode::Background, &options).unwrap()
}

fn kind_text(kind: Iw44CoefficientEventKind) -> String {
    match kind {
        Iw44CoefficientEventKind::BucketDecision {
            context,
            decision,
            block_state,
            bucket_state,
        } => format!(
            " bucket context={context} decision={decision} block_state={block_state:#04x} bucket_state={bucket_state:#04x}"
        ),
        Iw44CoefficientEventKind::ActivationDecision { context, decision, unknown_count } => {
            format!(" activation context={context} decision={decision} unknown_count={unknown_count}")
        }
        Iw44CoefficientEventKind::Activated { sign } => format!(" activated sign={sign}"),
        Iw44CoefficientEventKind::RefinementDecision { context_coded, decision, magnitude } => {
            format!(" refinement context_coded={context_coded} decision={decision} magnitude={magnitude}")
        }
        Iw44CoefficientEventKind::Refined => " refined".to_string(),
    }
}

fn hex(rgb: [u8; 3]) -> String {
    format!("#{:02x}{:02x}{:02x}", rgb[0], rgb[1], rgb[2])
}

/// The words of a pixel without anything besides.
fn pixel_text(found: &Iw44PixelInspection) -> String {
    assert_eq!(found.role, Iw44LayerRole::Background);
    let mut text = format!(
        "IW44 role: background\nsource pixel: x={} y={}\nrgb: actual={} computed={}\n",
        found.source_x,
        found.source_y,
        hex(found.rgb),
        hex(found.computed_rgb)
    );
    for (label, sample) in [("Y", Some(found.y)), ("Cb", found.cb), ("Cr", found.cr)] {
        if let Some(sample) = sample {
            text += &format!(
                "{label}: sample_x={} sample_y={} raw={} normalized={}\n",
                sample.x, sample.y, sample.raw, sample.normalized
            );
        }
    }
    text
}

#[test]
fn a_pixel_is_put_in_words() {
    let found = inspect(Vec::new(), 0, 0);

    assert_eq!(format_iw44_pixel_inspection(&found), pixel_text(&found));
}

#[test]
fn samples_and_coefficients_are_put_in_words() {
    let found = inspect(Vec::new(), 2, 4);

    let mut expected = pixel_text(&found);
    let samples = found.y_neighborhood.as_ref().unwrap();
    expected += &format!(
        "Y neighborhood: page_origin={}x{} source_origin={}x{} width=5 height=5\nY normalized:\n",
        samples.page_min_x, samples.page_min_y, samples.source_min_x, samples.source_min_y
    );
    for row in &samples.samples {
        for sample in row {
            expected += &format!("{:>5}", sample.normalized);
        }
        expected += "\n";
    }
    expected += "Y raw:\n";
    for row in &samples.samples {
        for sample in row {
            expected += &format!("{:>7}", sample.raw);
        }
        expected += "\n";
    }
    let block = found.y_coefficients.as_ref().unwrap();
    expected += &format!(
        "{} coefficient block: block={}x{} origin={}x{} size={}x{} non_zero={} max_abs={} abs_sum={}\n",
        iw44_plane_name(block.plane),
        block.block_col,
        block.block_row,
        block.block_x,
        block.block_y,
        block.width,
        block.height,
        block.non_zero,
        block.max_abs,
        block.abs_sum
    );
    for entry in &block.entries {
        expected += &format!(
            "  coefficient: x={} y={} local={}x{} index={} bucket={} offset={} band={} value={} abs={}\n",
            entry.x,
            entry.y,
            entry.local_x,
            entry.local_y,
            entry.index,
            entry.bucket,
            entry.bucket_offset,
            entry.band,
            entry.value,
            entry.absolute
        );
    }
    assert_eq!(format_iw44_pixel_inspection(&found), expected);
}

#[test]
fn traces_are_put_in_words() {
    let found =
        inspect(vec![Iw44PixelTrace::Coefficients, Iw44PixelTrace::Slices, Iw44PixelTrace::Events], 0, 2);

    let text = format_iw44_pixel_inspection(&found);

    let mut expected = "Y coefficient trace:\n".to_string();
    for step in found.y_coefficient_trace.as_ref().unwrap() {
        expected += &format!("  chunk #{} serial={}", step.chunk_index, step.chunk_serial);
        if let Some(slice) = step.slice_index {
            expected += &format!(" slice={slice}");
        }
        expected += &format!(" slices={}", step.slices_decoded);
        for value in &step.values {
            expected += &format!(
                " index={} bucket={} band={} value={}",
                value.index, value.bucket, value.band, value.value
            );
        }
        expected += "\n";
    }
    expected += "Y coefficient event trace:\n";
    for trace in found.y_coefficient_event_traces.as_ref().unwrap() {
        expected += &format!(
            "  index={} bucket={} band={} x={} y={} events={}\n",
            trace.entry.index,
            trace.entry.bucket,
            trace.entry.band,
            trace.entry.x,
            trace.entry.y,
            trace.events.len()
        );
        for traced in &trace.events {
            let event = traced.event;
            expected += &format!(
                "    chunk #{} serial={} slice={} band={} q={} before={} after={}{}\n",
                traced.chunk_index,
                traced.chunk_serial,
                event.slice_index,
                event.band,
                event.quant,
                event.before,
                event.after,
                kind_text(event.kind)
            );
        }
    }
    assert!(text.ends_with(&expected));
}

#[test]
fn effects_are_put_in_words() {
    let found = inspect(vec![Iw44PixelTrace::Reconstruction], 0, 2);

    let text = format_iw44_pixel_inspection(&found);

    let effects = found.y_coefficient_reconstruction.as_ref().unwrap();
    let mut expected = "Y coefficient reconstruction trace:\n".to_string();
    for (label, effect) in
        [("all_listed_zeroed", effects.all_zeroed), ("block_zeroed", effects.block_zeroed)]
    {
        expected += &format!(
            "  {label} count={} sample={}x{} original_raw={} zeroed_raw={} raw_delta={} original_norm={} zeroed_norm={} norm_delta={}\n",
            effect.coefficient_count,
            effect.sample_x,
            effect.sample_y,
            effect.original_raw,
            effect.zeroed_raw,
            effect.raw_delta,
            effect.original_normalized,
            effect.zeroed_normalized,
            effect.normalized_delta
        );
    }
    for (label, trace) in
        [("rows_then_columns", effects.rows_then_columns), ("padded_extent", effects.padded_extent)]
    {
        expected += &format!(
            "  {label} sample={}x{} original_raw={} alternate_raw={} raw_delta={} original_norm={} alternate_norm={} norm_delta={}\n",
            trace.sample_x,
            trace.sample_y,
            trace.original_raw,
            trace.alternate_raw,
            trace.raw_delta,
            trace.original_normalized,
            trace.alternate_normalized,
            trace.normalized_delta
        );
    }
    for band in &effects.band_zeroed {
        expected += &format!(
            "  band_zeroed band={} count={} sample={}x{} original_raw={} zeroed_raw={} raw_delta={} original_norm={} zeroed_norm={} norm_delta={}\n",
            band.band,
            band.coefficient_count,
            band.sample_x,
            band.sample_y,
            band.original_raw,
            band.zeroed_raw,
            band.raw_delta,
            band.original_normalized,
            band.zeroed_normalized,
            band.normalized_delta
        );
    }
    for bucket in &effects.bucket_zeroed {
        expected += &format!(
            "  bucket_zeroed bucket={} band={} count={} sample={}x{} original_raw={} zeroed_raw={} raw_delta={} original_norm={} zeroed_norm={} norm_delta={}\n",
            bucket.bucket,
            bucket.band,
            bucket.coefficient_count,
            bucket.sample_x,
            bucket.sample_y,
            bucket.original_raw,
            bucket.zeroed_raw,
            bucket.raw_delta,
            bucket.original_normalized,
            bucket.zeroed_normalized,
            bucket.normalized_delta
        );
        for entry in &bucket.contributors {
            expected += &format!(
                "    contributor index={} offset={} x={} y={} value={} abs={}\n",
                entry.index, entry.bucket_offset, entry.x, entry.y, entry.value, entry.absolute
            );
        }
    }
    for trace in &effects.entries {
        expected += &format!(
            "  index={} bucket={} band={} coefficient={} sample={}x{} original_raw={} zeroed_raw={} raw_delta={} original_norm={} zeroed_norm={} norm_delta={}\n",
            trace.entry.index,
            trace.entry.bucket,
            trace.entry.band,
            trace.entry.value,
            trace.sample_x,
            trace.sample_y,
            trace.original_raw,
            trace.zeroed_raw,
            trace.raw_delta,
            trace.original_normalized,
            trace.zeroed_normalized,
            trace.normalized_delta
        );
    }
    assert!(text.ends_with(&expected));
}
