use zk_img::stitch::stitch_strips;
use zk_img::chain::{compose_chain, ChainStep};
use zk_img::codec::{decode_image, encode_png, to_rgb8};
use zk_img::ops::{fliph, flipv, grayscale};
use zk_img::prover_input::{initial_receipt, prover_inputs, CompositionError, ProverInput};
use zk_img::raster::{Channels, Depth, Image};
use zk_img::stitch::{merge_transformations, restitch, stitch_vertically, RestitchError};

fn names(v: &[&str]) -> Vec<String> {
    v.iter().map(|s| s.to_string()).collect()
}

fn step(input: &[u8], ts: &[&str], output: &[u8]) -> ChainStep {
    ChainStep { input: input.to_vec(), transformations: names(ts), output: output.to_vec() }
}

#[test]
fn chain_follows_outputs_and_appends_names() {
    let steps = vec![step(&[1], &["flipv"], &[2]), step(&[2], &["fliph", "grayscale"], &[3])];
    let c = compose_chain(vec![1], names(&["grayscale"]), &steps).unwrap();
    assert_eq!(c.image, vec![3]);
    assert_eq!(c.transformations, names(&["grayscale", "flipv", "fliph", "grayscale"]));
}

#[test]
fn empty_chain_keeps_start() {
    let c = compose_chain(vec![9, 9], names(&["a"]), &vec![]).unwrap();
    assert_eq!(c.image, vec![9, 9]);
    assert_eq!(c.transformations, names(&["a"]));
}

#[test]
fn broken_chain_names_first_break() {
    let steps = vec![step(&[1], &["flipv"], &[2]), step(&[5], &["fliph"], &[3]), step(&[7], &[], &[8])];
    assert_eq!(compose_chain(vec![1], vec![], &steps).unwrap_err(), 1);
    assert_eq!(compose_chain(vec![0], vec![], &steps).unwrap_err(), 0);
}

#[test]
fn merged_names_are_unique_in_first_order() {
    let steps = vec![step(&[], &["flipv", "grayscale"], &[]), step(&[], &["grayscale", "fliph", "flipv"], &[])];
    assert_eq!(merge_transformations(&steps), names(&["flipv", "grayscale", "fliph"]));
    assert!(merge_transformations(&vec![]).is_empty());
}

fn rgb(w: u32, h: u32, s: Vec<u16>) -> Image {
    Image::new(w, h, Channels::Rgb, Depth::Eight, s).unwrap()
}

#[test]
fn stitching_pads_narrow_strips() {
    let a = rgb(2, 1, vec![1, 1, 1, 2, 2, 2]);
    let b = rgb(1, 2, vec![3, 3, 3, 4, 4, 4]);
    let out = stitch_vertically(&vec![a, b]);
    assert_eq!((out.width(), out.height()), (2, 3));
    assert_eq!(out.samples(), &vec![1, 1, 1, 2, 2, 2, 3, 3, 3, 0, 0, 0, 4, 4, 4, 0, 0, 0]);
}

#[test]
fn single_strip_stitches_to_itself() {
    let a = rgb(2, 1, vec![1, 2, 3, 4, 5, 6]);
    assert_eq!(stitch_vertically(&vec![a.clone()]).samples(), a.samples());
}

fn png(img: Image) -> Vec<u8> {
    encode_png(&img).unwrap()
}

#[test]
fn restitch_decodes_converts_and_merges() {
    let top = png(Image::new(2, 1, Channels::Luma, Depth::Eight, vec![10, 20]).unwrap());
    let bottom = png(rgb(2, 1, vec![1, 2, 3, 4, 5, 6]));
    let parts = vec![step(&[], &["grayscale"], &top), step(&[], &["grayscale", "flipv"], &bottom)];
    let out = restitch(&parts).unwrap();
    assert_eq!((out.width, out.height), (2, 2));
    assert_eq!(out.raw_rgb, vec![10, 10, 10, 20, 20, 20, 1, 2, 3, 4, 5, 6]);
    assert_eq!(out.transformations, names(&["grayscale", "flipv"]));
}

#[test]
fn restitch_errors() {
    let wide = png(rgb(2, 1, vec![0; 6]));
    let narrow = png(rgb(1, 1, vec![0; 3]));
    assert_eq!(restitch(&vec![]).unwrap_err(), RestitchError::NoParts);
    assert_eq!(
        restitch(&vec![step(&[], &[], &narrow), step(&[], &[], &wide)]).unwrap_err(),
        RestitchError::TooWide(1)
    );
    assert_eq!(
        restitch(&vec![step(&[], &[], &wide), step(&[], &[], &[1, 2])]).unwrap_err(),
        RestitchError::DecodeFailed(1)
    );
    let ok = restitch(&vec![step(&[], &[], &wide), step(&[], &[], &narrow)]).unwrap();
    assert_eq!(ok.raw_rgb.len(), 12);
    let back = decode_image(&narrow).unwrap();
    assert_eq!(back.width(), 1);
}

#[test]
fn stitch_strips_checks_in_order() {
    assert_eq!(stitch_strips(&vec![], &vec![]).unwrap_err(), RestitchError::NoParts);
    let a = rgb(1, 1, vec![1, 2, 3]);
    let b = rgb(2, 1, vec![4, 5, 6, 7, 8, 9]);
    assert_eq!(stitch_strips(&vec![a.clone(), b.clone()], &vec![]).unwrap_err(), RestitchError::TooWide(1));
    let ok = stitch_strips(&vec![b, a], &vec![step(&[], &["fliph"], &[])]).unwrap();
    assert_eq!(ok.raw_rgb, vec![4, 5, 6, 7, 8, 9, 1, 2, 3, 0, 0, 0]);
    assert_eq!((ok.width, ok.height), (2, 2));
    assert_eq!(ok.transformations, names(&["fliph"]));
}

#[test]
fn joined_chains_compose_in_turn() {
    let s1 = vec![step(&[1], &["a"], &[2])];
    let s2 = vec![step(&[2], &["b"], &[3])];
    let first = compose_chain(vec![1], vec![], &s1).unwrap();
    let then = compose_chain(first.image, first.transformations, &s2).unwrap();
    let mut both = s1.clone();
    both.extend(s2);
    let all = compose_chain(vec![1], vec![], &both).unwrap();
    assert_eq!(then.image, all.image);
    assert_eq!(then.transformations, all.transformations);
}

#[test]
fn transforming_stacked_strips() {
    let top = rgb(2, 1, vec![10, 20, 30, 200, 100, 50]);
    let bottom = rgb(2, 2, vec![1, 2, 3, 4, 5, 6, 7, 8, 9, 250, 240, 230]);
    let whole = stitch_vertically(&vec![top.clone(), bottom.clone()]);
    assert_eq!(
        flipv(&whole).samples(),
        stitch_vertically(&vec![flipv(&bottom), flipv(&top)]).samples()
    );
    assert_eq!(
        fliph(&whole).samples(),
        stitch_vertically(&vec![fliph(&top), fliph(&bottom)]).samples()
    );
    let gray_whole = to_rgb8(&grayscale(&whole));
    let gray_strips =
        stitch_vertically(&vec![to_rgb8(&grayscale(&top)), to_rgb8(&grayscale(&bottom))]);
    assert_eq!(gray_whole.samples(), gray_strips.samples());
    assert_eq!(gray_whole.samples()[0..3], [18, 18, 18]);
    assert_eq!((gray_whole.width(), gray_whole.height()), (2, 3));
}

#[test]
fn chained_composition_needs_its_initial_receipt() {
    assert_eq!(initial_receipt(true, Some("receipt_a.bin".to_string())), Ok(None));
    assert_eq!(initial_receipt(true, None), Ok(None));
    assert_eq!(
        initial_receipt(false, Some("receipt_a.bin".to_string())),
        Ok(Some("receipt_a.bin".to_string()))
    );
    assert_eq!(initial_receipt(false, None), Err(CompositionError::InitialReceiptMissing));
}

fn describe(inputs: &[ProverInput]) -> Vec<String> {
    inputs
        .iter()
        .map(|m| match m {
            ProverInput::Parallel(b) => format!("parallel {}", b),
            ProverInput::Initial { transformations, output } => {
                format!("initial {:?} {:?}", transformations, output)
            }
            ProverInput::Count(n) => format!("count {}", n),
            ProverInput::Step(s) => format!("step {:?} {:?} {:?}", s.input, s.transformations, s.output),
        })
        .collect()
}

#[test]
fn composition_inputs_in_reading_order() {
    let steps = vec![step(&[1], &["flipv"], &[2]), step(&[2], &["fliph"], &[3])];
    let chained = prover_inputs(false, names(&["grayscale"]), vec![1], steps.clone());
    assert_eq!(
        describe(&chained),
        vec![
            "parallel false".to_string(),
            "initial [\"grayscale\"] [1]".to_string(),
            "count 2".to_string(),
            "step [1] [\"flipv\"] [2]".to_string(),
            "step [2] [\"fliph\"] [3]".to_string(),
        ]
    );
    let parallel = prover_inputs(true, vec![], vec![], steps);
    assert_eq!(
        describe(&parallel),
        vec![
            "parallel true".to_string(),
            "count 2".to_string(),
            "step [1] [\"flipv\"] [2]".to_string(),
            "step [2] [\"fliph\"] [3]".to_string(),
        ]
    );
    assert_eq!(describe(&prover_inputs(true, vec![], vec![], vec![])), vec!["parallel true", "count 0"]);
}

#[test]
fn grayscale_strips_stitch_to_grayscale_whole() {
    let a = rgb(2, 1, vec![10, 20, 30, 200, 100, 50]);
    let b = rgb(2, 2, vec![1, 2, 3, 4, 5, 6, 7, 8, 9, 250, 240, 230]);
    let c = rgb(2, 1, vec![255, 255, 255, 0, 0, 0]);
    let whole = stitch_vertically(&vec![a.clone(), b.clone(), c.clone()]);
    let gray_strips: Vec<Image> = vec![a, b, c].iter().map(|s| to_rgb8(&grayscale(s))).collect();
    let stitched = stitch_vertically(&gray_strips);
    assert_eq!(stitched.samples(), to_rgb8(&grayscale(&whole)).samples());
    assert_eq!((stitched.width(), stitched.height()), (2, 4));
    assert_eq!(stitched.samples()[18..24], [255, 255, 255, 0, 0, 0]);
}
