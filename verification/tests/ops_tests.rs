use zk_img::codec::{images_are_equal, to_rgb8, to_rgba8};
use zk_img::ops::{fliph, flipv, grayscale};
use zk_img::raster::{Channels, Depth, Image};
use zk_img::transform::{apply_transformation, parse_transformation, Transformation};

fn luma(w: u32, h: u32, s: &[u16]) -> Image {
    Image::new(w, h, Channels::Luma, Depth::Eight, s.to_vec()).unwrap()
}

#[test]
fn new_checks_length_and_depth() {
    assert!(Image::new(2, 2, Channels::Luma, Depth::Eight, vec![1, 2, 3, 4]).is_some());
    assert!(Image::new(2, 2, Channels::Luma, Depth::Eight, vec![1, 2, 3]).is_none());
    assert!(Image::new(1, 1, Channels::Luma, Depth::Eight, vec![256]).is_none());
    assert!(Image::new(1, 1, Channels::Luma, Depth::Sixteen, vec![256]).is_some());
    assert!(Image::new(0, 5, Channels::Rgb, Depth::Eight, vec![]).is_some());
}

#[test]
fn flipv_reverses_rows() {
    let img = luma(2, 3, &[1, 2, 3, 4, 5, 6]);
    let out = flipv(&img);
    assert_eq!(out.samples(), &vec![5, 6, 3, 4, 1, 2]);
    assert_eq!((out.width(), out.height()), (2, 3));
}

#[test]
fn fliph_reverses_columns() {
    let img = Image::new(2, 2, Channels::Rgb, Depth::Eight, vec![1, 2, 3, 4, 5, 6, 7, 8, 9, 10, 11, 12]).unwrap();
    let out = fliph(&img);
    assert_eq!(out.samples(), &vec![4, 5, 6, 1, 2, 3, 10, 11, 12, 7, 8, 9]);
}

#[test]
fn flips_are_involutions_and_commute() {
    let img = luma(3, 2, &[1, 2, 3, 4, 5, 6]);
    assert_eq!(flipv(&flipv(&img)).samples(), img.samples());
    assert_eq!(fliph(&fliph(&img)).samples(), img.samples());
    assert_eq!(flipv(&fliph(&img)).samples(), fliph(&flipv(&img)).samples());
    assert_eq!(flipv(&fliph(&img)).samples(), &vec![6, 5, 4, 3, 2, 1]);
}

#[test]
fn grayscale_uses_luminance_weights() {
    let img = Image::new(
        4,
        1,
        Channels::Rgb,
        Depth::Eight,
        vec![255, 0, 0, 0, 255, 0, 0, 0, 255, 255, 255, 255],
    )
    .unwrap();
    let out = grayscale(&img);
    assert_eq!(out.channels(), Channels::Luma);
    assert_eq!(out.samples(), &vec![54, 182, 18, 255]);
}

#[test]
fn grayscale_keeps_alpha_and_depth() {
    let img = Image::new(1, 1, Channels::Rgba, Depth::Sixteen, vec![65535, 65535, 65535, 7]).unwrap();
    let out = grayscale(&img);
    assert_eq!(out.channels(), Channels::LumaAlpha);
    assert_eq!(out.depth(), Depth::Sixteen);
    assert_eq!(out.samples(), &vec![65535, 7]);
}

#[test]
fn grayscale_is_idempotent_and_commutes_with_flips() {
    let img = Image::new(2, 1, Channels::Rgb, Depth::Eight, vec![10, 20, 30, 40, 50, 60]).unwrap();
    let g = grayscale(&img);
    assert_eq!(grayscale(&g).samples(), g.samples());
    assert_eq!(grayscale(&fliph(&img)).samples(), fliph(&g).samples());
    assert_eq!(grayscale(&flipv(&img)).samples(), flipv(&g).samples());
    assert_eq!(g.samples(), &vec![18, 48]);
}

#[test]
fn luma_image_is_unchanged_by_grayscale() {
    let img = luma(2, 1, &[9, 200]);
    assert_eq!(grayscale(&img).samples(), &vec![9, 200]);
}

#[test]
fn names_select_transformations() {
    assert_eq!(parse_transformation("grayscale"), Some(Transformation::Grayscale));
    assert_eq!(parse_transformation("flipv"), Some(Transformation::FlipVertical));
    assert_eq!(parse_transformation("fliph"), Some(Transformation::FlipHorizontal));
    assert_eq!(parse_transformation("rotate"), None);
    assert_eq!(parse_transformation("Grayscale"), None);
    assert_eq!(parse_transformation(""), None);
}

#[test]
fn apply_transformation_by_name() {
    let img = luma(2, 1, &[1, 2]);
    let out = apply_transformation(img, "fliph");
    assert_eq!(out.samples(), &vec![2, 1]);
}

#[test]
fn conversions_to_8bit_colour() {
    let img = Image::new(4, 1, Channels::Luma, Depth::Sixteen, vec![65535, 257, 128, 129]).unwrap();
    let rgba = to_rgba8(&img);
    assert_eq!(rgba.samples(), &vec![255, 255, 255, 255, 1, 1, 1, 255, 0, 0, 0, 255, 1, 1, 1, 255]);
    let la = Image::new(1, 1, Channels::LumaAlpha, Depth::Eight, vec![7, 9]).unwrap();
    assert_eq!(to_rgb8(&la).samples(), &vec![7, 7, 7]);
    assert_eq!(to_rgba8(&la).samples(), &vec![7, 7, 7, 9]);
}

#[test]
fn equality_compares_as_rgba() {
    let gray = luma(1, 1, &[40]);
    let rgb = Image::new(1, 1, Channels::Rgb, Depth::Eight, vec![40, 40, 40]).unwrap();
    let other = Image::new(1, 1, Channels::Rgb, Depth::Eight, vec![40, 41, 40]).unwrap();
    assert!(images_are_equal(&gray, &rgb));
    assert!(!images_are_equal(&gray, &other));
    assert!(!images_are_equal(&luma(1, 2, &[1, 1]), &luma(2, 1, &[1, 1])));
    let translucent = Image::new(1, 1, Channels::LumaAlpha, Depth::Eight, vec![40, 3]).unwrap();
    assert!(!images_are_equal(&gray, &translucent));
}
