use djvulpes::jb2::decoder::Baseline;
use djvulpes::jb2::symbol::{blit_symbol, Jb2SymbolBitmap};
use djvulpes::{
    decode_jb2_dictionary, read_jb2_image_header, render_jb2_image, BitonalBitmap, Jb2Error,
};

#[test]
fn rejects_short_jb2_input() {
    let error = read_jb2_image_header(&[0]).expect_err("short input should fail");

    assert_eq!(error, Jb2Error::new("JB2 input is too short"));
}

#[test]
fn short_input_is_refused_everywhere() {
    assert_eq!(
        render_jb2_image(&[]).expect_err("short input should fail").message(),
        "JB2 input is too short"
    );
    assert_eq!(
        decode_jb2_dictionary(&[7]).expect_err("short input should fail").message(),
        "JB2 input is too short"
    );
}

#[test]
fn dictionary_symbols_crop_to_black_pixel_bounds() {
    let symbol = Jb2SymbolBitmap {
        width: 4,
        height: 3,
        pixels: vec![
            0, 0, 0, 0, // bottom row
            0, 1, 0, 1, //
            0, 0, 0, 0, // top row
        ],
    };

    let cropped = symbol.crop_to_content();

    assert_eq!(cropped.width, 3);
    assert_eq!(cropped.height, 1);
    assert_eq!(cropped.pixels, [1, 0, 1]);
}

#[test]
fn dictionary_symbols_keep_empty_reference_dimensions() {
    let symbol = Jb2SymbolBitmap {
        width: 4,
        height: 3,
        pixels: vec![0; 12],
    };

    let dictionary_symbol = symbol.dictionary_symbol();

    assert_eq!(dictionary_symbol.width, 4);
    assert_eq!(dictionary_symbol.height, 3);
    assert_eq!(dictionary_symbol.pixels, vec![0; 12]);
}

#[test]
fn cropping_twice_is_cropping_once() {
    let symbol = Jb2SymbolBitmap {
        width: 3,
        height: 3,
        pixels: vec![0, 0, 0, 1, 0, 0, 0, 1, 0],
    };

    let cropped = symbol.crop_to_content();

    assert_eq!(cropped.crop_to_content(), cropped);
}

#[test]
fn baseline_uses_median_of_last_three_values() {
    let mut baseline = Baseline::new();
    baseline.fill(100);
    baseline.add(100);
    baseline.add(140);
    baseline.add(101);

    assert_eq!(baseline.value(), 101);
}

#[test]
fn blits_bottom_origin_symbol_rows_to_top_origin_mask() {
    let symbol = Jb2SymbolBitmap {
        width: 2,
        height: 2,
        pixels: vec![
            1, 0, // bottom row
            0, 1, // top row
        ],
    };
    let mut mask = BitonalBitmap::new(5, 5);

    blit_symbol(&mut mask, &symbol, 1, 1);

    assert_eq!(mask.black_pixel_count(), 2);
    assert_eq!(mask.bit(1, 3), Some(true));
    assert_eq!(mask.bit(2, 2), Some(true));
    assert_eq!(mask.bit(1, 2), Some(false));
    assert_eq!(mask.bit(2, 3), Some(false));
}
