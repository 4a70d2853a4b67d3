use zk_img::chain::{compose_chain, ChainStep};
use zk_img::transform::apply_named_transformations;
use zk_img::codec::{decode_image, decode_image_by_extension, encode_png, encoded_images_match, raw_rgb_matches, CompareError, RawCompareError};
use zk_img::pipeline::{run_transformations, transform_image_bytes, Journal, PipelineError};
use zk_img::raster::{Channels, Depth, Image};

fn png(w: u32, h: u32, c: Channels, d: Depth, s: Vec<u16>) -> Vec<u8> {
    encode_png(&Image::new(w, h, c, d, s).unwrap()).unwrap()
}

fn names(v: &[&str]) -> Vec<String> {
    v.iter().map(|s| s.to_string()).collect()
}

#[test]
fn png_round_trip_8_and_16_bit() {
    for (c, d, s) in [
        (Channels::Rgb, Depth::Eight, vec![1u16, 2, 3, 4, 5, 6]),
        (Channels::Rgba, Depth::Eight, vec![1u16, 2, 3, 4, 5, 6, 7, 8]),
        (Channels::Luma, Depth::Sixteen, vec![1000u16, 65535]),
        (Channels::LumaAlpha, Depth::Eight, vec![9u16, 8, 7, 6]),
    ] {
        let w = 2;
        let bytes = png(w, 1, c, d, s.clone());
        assert_eq!(&bytes[1..4], b"PNG");
        let back = decode_image(&bytes).unwrap();
        assert_eq!(back.channels(), c);
        assert_eq!(back.depth(), d);
        assert_eq!(back.samples(), &s);
    }
}

#[test]
fn decode_rejects_garbage() {
    assert!(decode_image(&[1, 2, 3, 4]).is_none());
    assert!(decode_image(&[]).is_none());
}

#[test]
fn pipeline_applies_transformations_in_order() {
    let input = png(2, 1, Channels::Rgb, Depth::Eight, vec![255, 0, 0, 0, 0, 255]);
    let out = transform_image_bytes(&input, &names(&["grayscale", "fliph"])).unwrap();
    let img = decode_image(&out).unwrap();
    assert_eq!(img.channels(), Channels::Luma);
    assert_eq!(img.samples(), &vec![18, 54]);
}

#[test]
fn pipeline_with_no_transformations_reencodes() {
    let input = png(1, 1, Channels::Rgba, Depth::Eight, vec![1, 2, 3, 4]);
    let out = transform_image_bytes(&input, &vec![]).unwrap();
    assert_eq!(decode_image(&out).unwrap().samples(), &vec![1, 2, 3, 4]);
}

#[test]
fn pipeline_errors() {
    let input = png(1, 1, Channels::Luma, Depth::Eight, vec![1]);
    assert_eq!(
        transform_image_bytes(&input, &names(&["flipv", "sepia", "blur"])).unwrap_err(),
        PipelineError::UnknownTransformation(1)
    );
    assert_eq!(
        transform_image_bytes(&vec![0, 1, 2], &names(&["flipv"])).unwrap_err(),
        PipelineError::DecodeFailed
    );
    assert_eq!(
        transform_image_bytes(&vec![0, 1, 2], &names(&["sepia"])).unwrap_err(),
        PipelineError::DecodeFailed
    );
}

#[test]
fn journal_shapes() {
    let input = png(1, 2, Channels::Luma, Depth::Eight, vec![1, 2]);
    match run_transformations(true, input.clone(), names(&["flipv"])).unwrap() {
        Journal::Chained { input: i, transformations, output } => {
            assert_eq!(i, input);
            assert_eq!(transformations, names(&["flipv"]));
            assert_eq!(decode_image(&output).unwrap().samples(), &vec![2, 1]);
        }
        Journal::Single { .. } => panic!("expected a chained journal"),
    }
    match run_transformations(false, input.clone(), names(&["flipv"])).unwrap() {
        Journal::Single { transformations, .. } => assert_eq!(transformations, names(&["flipv"])),
        Journal::Chained { .. } => panic!("expected a single journal"),
    }
    assert!(run_transformations(false, input, names(&["x"])).is_err());
}

#[test]
fn verifier_comparisons() {
    let a = png(1, 1, Channels::Luma, Depth::Eight, vec![40]);
    let b = png(1, 1, Channels::Rgb, Depth::Eight, vec![40, 40, 40]);
    let c = png(1, 1, Channels::Rgb, Depth::Eight, vec![41, 40, 40]);
    assert_eq!(encoded_images_match(&a, &Some(b.clone())), Ok(true));
    assert_eq!(encoded_images_match(&a, &Some(c.clone())), Ok(false));
    assert_eq!(encoded_images_match(&vec![1], &Some(c.clone())), Err(CompareError::ReceiptImage));
    assert_eq!(encoded_images_match(&vec![1], &None), Err(CompareError::ReceiptImage));
    assert_eq!(encoded_images_match(&a, &None), Err(CompareError::PublicFileUnreadable));
    assert_eq!(encoded_images_match(&a, &Some(vec![1])), Err(CompareError::PublicImage));
    let file = Some(a.clone());
    assert_eq!(raw_rgb_matches(&vec![40, 40, 40], 1, 1, "gray.png", &file), Ok(true));
    assert_eq!(raw_rgb_matches(&vec![40, 40, 41], 1, 1, "gray.png", &file), Ok(false));
    assert_eq!(raw_rgb_matches(&vec![40, 40, 40, 0], 1, 1, "gray.png", &file), Ok(false));
    assert_eq!(raw_rgb_matches(&vec![40, 40], 1, 1, "gray.png", &file), Err(RawCompareError::RawTooShort));
    assert_eq!(raw_rgb_matches(&vec![40, 40], 1, 1, "gray.png", &None), Err(RawCompareError::RawTooShort));
    assert_eq!(raw_rgb_matches(&vec![40, 40, 40], 1, 1, "gray.png", &Some(vec![7])), Err(RawCompareError::ExpectedImage));
    assert_eq!(raw_rgb_matches(&vec![40, 40, 40], 1, 1, "gray.png", &None), Err(RawCompareError::ExpectedImage));
}

#[test]
fn expected_image_format_follows_the_extension() {
    let a = png(1, 1, Channels::Luma, Depth::Eight, vec![40]);
    let file = Some(a.clone());
    let raw = vec![40, 40, 40];
    assert_eq!(raw_rgb_matches(&raw, 1, 1, "dir/gray.PNG", &file), Ok(true));
    assert_eq!(raw_rgb_matches(&raw, 1, 1, "gray", &file), Err(RawCompareError::ExpectedImage));
    assert_eq!(raw_rgb_matches(&raw, 1, 1, "gray.jpg", &file), Err(RawCompareError::ExpectedImage));
    assert_eq!(raw_rgb_matches(&raw, 1, 1, "gray.txt", &file), Err(RawCompareError::ExpectedImage));
    assert_eq!(decode_image_by_extension("gray.png", &a).unwrap().samples(), &vec![40]);
    assert!(decode_image_by_extension("gray.bmp", &a).is_none());
    assert_eq!(decode_image(&a).unwrap().samples(), &vec![40]);
}

#[test]
fn chained_runs_equal_one_run() {
    let source = png(2, 2, Channels::Rgb, Depth::Eight, vec![255, 0, 0, 0, 255, 0, 0, 0, 255, 9, 9, 9]);
    let first = transform_image_bytes(&source, &names(&["grayscale"])).unwrap();
    let second = transform_image_bytes(&first, &names(&["flipv", "fliph"])).unwrap();
    let steps = vec![ChainStep { input: first.clone(), transformations: names(&["flipv", "fliph"]), output: second.clone() }];
    let composed = compose_chain(first, names(&["grayscale"]), &steps).unwrap();
    let once = transform_image_bytes(&source, &composed.transformations).unwrap();
    assert_eq!(composed.image, second);
    assert_eq!(decode_image(&once).unwrap().samples(), decode_image(&second).unwrap().samples());
    assert_eq!(decode_image(&once).unwrap().samples(), &vec![9, 18, 182, 54]);
}

#[test]
fn applying_lists_in_turn_is_applying_their_concatenation() {
    let img = Image::new(2, 1, Channels::Rgb, Depth::Eight, vec![10, 20, 30, 40, 50, 60]).unwrap();
    let a = apply_named_transformations(img.clone(), &names(&["grayscale"])).unwrap();
    let ab = apply_named_transformations(a, &names(&["fliph"])).unwrap();
    let all = apply_named_transformations(img, &names(&["grayscale", "fliph"])).unwrap();
    assert_eq!(ab.samples(), all.samples());
    assert_eq!(all.samples(), &vec![48, 18]);
}
