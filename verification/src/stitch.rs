//! Vertical stitching of image strips and the merging of their
//! transformation lists.
use vstd::prelude::*;
use crate::chain::{all_step_transformations, step_views, ChainStep, StepView};
use crate::ops::{fliph_view, flipv_view, grayscale_view};
use crate::codec::{bytes_of, decode_image, decode_view, to_bytes, to_rgb8, to_rgb8_view};
use crate::transform::{str_equals, string_views};
use crate::raster::{
    lemma_dims_product, lemma_next_row, lemma_renders_empty, lemma_renders_push,
    lemma_renders_rows, pixel_index, renders, Channels, Depth, Image, ImageView,
};

verus! {

/// An 8-bit RGB image.
pub open spec fn is_rgb8(v: ImageView) -> bool {
    v.wf() && v.channels == Channels::Rgb && v.depth == Depth::Eight
}

/// A row widened to `width` pixels with black pixels on the right.
pub open spec fn pad_row(row: Seq<Seq<u16>>, width: nat) -> Seq<Seq<u16>> {
    Seq::new(
        width,
        |x: int|
            if x < row.len() {
                row[x]
            } else {
                seq![0u16, 0u16, 0u16]
            },
    )
}

/// The rows of the images one below the other, each padded to `width`.
pub open spec fn stitched_rows(imgs: Seq<ImageView>, width: nat) -> Seq<Seq<Seq<u16>>>
    decreases imgs.len(),
{
    if imgs.len() == 0 {
        Seq::empty()
    } else {
        stitched_rows(imgs.drop_last(), width) + imgs.last().rows.map_values(
            |r: Seq<Seq<u16>>| pad_row(r, width),
        )
    }
}

/// The sum of the heights.
pub open spec fn total_height(imgs: Seq<ImageView>) -> nat
    decreases imgs.len(),
{
    if imgs.len() == 0 {
        0
    } else {
        total_height(imgs.drop_last()) + imgs.last().height
    }
}

/// The images one below the other, as wide as the first.
pub open spec fn stitch_view(imgs: Seq<ImageView>) -> ImageView {
    ImageView {
        width: imgs[0].width,
        height: total_height(imgs),
        channels: Channels::Rgb,
        depth: Depth::Eight,
        rows: stitched_rows(imgs, imgs[0].width),
    }
}

/// The images can be stitched: there is at least one, each is 8-bit RGB and
/// no wider than the first, and the result fits its dimensions and memory.
pub open spec fn stitchable(imgs: Seq<ImageView>) -> bool {
    &&& imgs.len() > 0
    &&& forall|i: int| 0 <= i < imgs.len() ==> is_rgb8(#[trigger] imgs[i])
    &&& forall|i: int| 0 <= i < imgs.len() ==> (#[trigger] imgs[i]).width <= imgs[0].width
    &&& total_height(imgs) <= u32::MAX
    &&& imgs[0].width * total_height(imgs) * 3 <= usize::MAX
}

/// The views of a list of images.
pub open spec fn image_views(imgs: Seq<Image>) -> Seq<ImageView> {
    imgs.map_values(|i: Image| i@)
}

pub proof fn lemma_stitched_len(imgs: Seq<ImageView>, width: nat)
    requires
        forall|i: int| 0 <= i < imgs.len() ==> (#[trigger] imgs[i]).wf(),
    ensures
        stitched_rows(imgs, width).len() == total_height(imgs),
    decreases imgs.len(),
{
    if imgs.len() > 0 {
        let p = imgs.drop_last();
        assert forall|i: int| 0 <= i < p.len() implies (#[trigger] p[i]).wf() by {
            assert(p[i] == imgs[i]);
        }
        lemma_stitched_len(p, width);
        assert(imgs.last() == imgs[imgs.len() - 1]);
    }
}

/// The stitched rows of a prefix of the images begin the stitched rows of
/// all of them.
pub proof fn lemma_stitched_prefix(imgs: Seq<ImageView>, width: nat, m: int, j: int)
    requires
        0 <= m <= imgs.len(),
        0 <= j < stitched_rows(imgs.take(m), width).len(),
    ensures
        stitched_rows(imgs, width)[j] == stitched_rows(imgs.take(m), width)[j],
        stitched_rows(imgs.take(m), width).len() <= stitched_rows(imgs, width).len(),
    decreases imgs.len() - m,
{
    if m < imgs.len() {
        let p = imgs.drop_last();
        assert(p.take(m) =~= imgs.take(m));
        lemma_stitched_prefix(p, width, m, j);
        assert(stitched_rows(imgs, width)[j] == stitched_rows(p, width)[j]);
    } else {
        assert(imgs.take(m) =~= imgs);
    }
}

pub proof fn lemma_total_height_step(imgs: Seq<ImageView>, k: int)
    requires
        0 <= k < imgs.len(),
    ensures
        total_height(imgs.take(k + 1)) == total_height(imgs.take(k)) + imgs[k].height,
        total_height(imgs.take(k)) <= total_height(imgs),
{
    assert(imgs.take(k + 1).drop_last() =~= imgs.take(k));
    lemma_total_height_prefix(imgs, k + 1);
}

pub proof fn lemma_total_height_prefix(imgs: Seq<ImageView>, m: int)
    requires
        0 <= m <= imgs.len(),
    ensures
        total_height(imgs.take(m)) <= total_height(imgs),
    decreases imgs.len() - m,
{
    if m < imgs.len() {
        let p = imgs.drop_last();
        assert(p.take(m) =~= imgs.take(m));
        lemma_total_height_prefix(p, m);
    } else {
        assert(imgs.take(m) =~= imgs);
    }
}

/// Row `yy` of image `k` stands, padded, at row `offset + yy` of the
/// stitched rows, where `offset` is the height of the images above it.
pub proof fn lemma_stitched_row(imgs: Seq<ImageView>, width: nat, k: int, yy: int)
    requires
        0 <= k < imgs.len(),
        0 <= yy < imgs[k].height,
        forall|i: int| 0 <= i < imgs.len() ==> (#[trigger] imgs[i]).wf(),
    ensures
        stitched_rows(imgs, width)[total_height(imgs.take(k)) + yy] == pad_row(
            imgs[k].rows[yy],
            width,
        ),
{
    let t = imgs.take(k + 1);
    assert forall|i: int| 0 <= i < t.len() implies (#[trigger] t[i]).wf() by {
        assert(t[i] == imgs[i]);
    }
    let tk = imgs.take(k);
    assert forall|i: int| 0 <= i < tk.len() implies (#[trigger] tk[i]).wf() by {
        assert(tk[i] == imgs[i]);
    }
    lemma_stitched_len(t, width);
    lemma_stitched_len(tk, width);
    lemma_total_height_step(imgs, k);
    assert(t.drop_last() =~= tk);
    assert(t.last() == imgs[k]);
    lemma_stitched_prefix(imgs, width, k + 1, total_height(tk) + yy);
}

/// Every stitched row is `width` pixels wide.
pub proof fn lemma_stitched_rows_width(imgs: Seq<ImageView>, width: nat)
    ensures
        forall|j: int|
            0 <= j < stitched_rows(imgs, width).len() ==> (#[trigger] stitched_rows(
                imgs,
                width,
            )[j]).len() == width,
    decreases imgs.len(),
{
    if imgs.len() > 0 {
        let p = imgs.drop_last();
        lemma_stitched_rows_width(p, width);
        let a = stitched_rows(p, width);
        let b = imgs.last().rows.map_values(|r: Seq<Seq<u16>>| pad_row(r, width));
        assert forall|j: int|
            0 <= j < stitched_rows(imgs, width).len() implies (#[trigger] stitched_rows(
            imgs,
            width,
        )[j]).len() == width by {
            if j < a.len() {
                assert(stitched_rows(imgs, width)[j] == a[j]);
            } else {
                assert(stitched_rows(imgs, width)[j] == b[j - a.len()]);
            }
        }
    }
}

/// A single 8-bit RGB strip stitches to itself.
pub proof fn lemma_stitch_single(v: ImageView)
    requires
        is_rgb8(v),
    ensures
        stitch_view(seq![v]) == v,
{
    let s = seq![v];
    assert(s.drop_last() =~= Seq::<ImageView>::empty());
    assert(s.last() == v);
    assert(total_height(Seq::<ImageView>::empty()) == 0);
    let rows = stitched_rows(s, v.width);
    assert(stitched_rows(Seq::<ImageView>::empty(), v.width) =~= Seq::<Seq<Seq<u16>>>::empty());
    assert forall|y: int| 0 <= y < v.height implies #[trigger] rows[y] == v.rows[y] by {
        assert(rows[y] == pad_row(v.rows[y], v.width));
        assert(pad_row(v.rows[y], v.width) =~= v.rows[y]);
    }
    assert(rows =~= v.rows);
}

/// `bottom` placed below `top`: as wide as `top`, with its channels and
/// depth, and the rows of both.
pub open spec fn stack_view(top: ImageView, bottom: ImageView) -> ImageView {
    ImageView {
        width: top.width,
        height: top.height + bottom.height,
        channels: top.channels,
        depth: top.depth,
        rows: top.rows + bottom.rows,
    }
}

/// Two images of the same width, channels and depth.
pub open spec fn same_shape(a: ImageView, b: ImageView) -> bool {
    a.width == b.width && a.channels == b.channels && a.depth == b.depth
}

/// Each of the image's `height` rows is `width` pixels long.
pub open spec fn rows_shaped(v: ImageView) -> bool {
    &&& v.rows.len() == v.height
    &&& forall|y: int| 0 <= y < v.height ==> #[trigger] v.rows[y].len() == v.width
}

/// Grayscale of two stacked images is the stack of their grayscales.
pub proof fn lemma_grayscale_stack(top: ImageView, bottom: ImageView)
    requires
        same_shape(top, bottom),
    ensures
        grayscale_view(stack_view(top, bottom)) == stack_view(
            grayscale_view(top),
            grayscale_view(bottom),
        ),
{
    assert(grayscale_view(stack_view(top, bottom)).rows =~= stack_view(
        grayscale_view(top),
        grayscale_view(bottom),
    ).rows);
}

/// Mirroring two stacked images mirrors each in place.
pub proof fn lemma_fliph_stack(top: ImageView, bottom: ImageView)
    requires
        same_shape(top, bottom),
    ensures
        fliph_view(stack_view(top, bottom)) == stack_view(fliph_view(top), fliph_view(bottom)),
{
    assert(fliph_view(stack_view(top, bottom)).rows =~= stack_view(
        fliph_view(top),
        fliph_view(bottom),
    ).rows);
}

/// Turning two stacked images upside down turns each upside down and swaps
/// them.
pub proof fn lemma_flipv_stack(top: ImageView, bottom: ImageView)
    requires
        same_shape(top, bottom),
    ensures
        flipv_view(stack_view(top, bottom)) == stack_view(flipv_view(bottom), flipv_view(top)),
{
    let a = top.rows;
    let b = bottom.rows;
    assert((a + b).reverse() =~= b.reverse() + a.reverse());
}

/// Converting two stacked images to 8-bit RGB converts each in place.
pub proof fn lemma_to_rgb8_stack(top: ImageView, bottom: ImageView)
    requires
        same_shape(top, bottom),
    ensures
        to_rgb8_view(stack_view(top, bottom)) == stack_view(to_rgb8_view(top), to_rgb8_view(bottom)),
{
    assert(to_rgb8_view(stack_view(top, bottom)).rows =~= stack_view(
        to_rgb8_view(top),
        to_rgb8_view(bottom),
    ).rows);
}

/// Stitching two 8-bit RGB strips of one width stacks them.
pub proof fn lemma_stitch_pair(top: ImageView, bottom: ImageView)
    requires
        same_shape(top, bottom),
        top.channels == Channels::Rgb,
        top.depth == Depth::Eight,
        rows_shaped(top),
        rows_shaped(bottom),
    ensures
        stitch_view(seq![top, bottom]) == stack_view(top, bottom),
{
    let s = seq![top, bottom];
    let w = top.width;
    assert(s.drop_last() =~= seq![top]);
    assert(seq![top].drop_last() =~= Seq::<ImageView>::empty());
    assert(s.last() == bottom);
    assert(seq![top].last() == top);
    assert(total_height(Seq::<ImageView>::empty()) == 0);
    assert(total_height(seq![top]) == top.height);
    assert(total_height(s) == top.height + bottom.height);
    assert(stitched_rows(Seq::<ImageView>::empty(), w) =~= Seq::<Seq<Seq<u16>>>::empty());
    let pt = top.rows.map_values(|r: Seq<Seq<u16>>| pad_row(r, w));
    let pb = bottom.rows.map_values(|r: Seq<Seq<u16>>| pad_row(r, w));
    assert forall|y: int| 0 <= y < top.height implies #[trigger] pt[y] == top.rows[y] by {
        assert(pad_row(top.rows[y], w) =~= top.rows[y]);
    }
    assert forall|y: int| 0 <= y < bottom.height implies #[trigger] pb[y] == bottom.rows[y] by {
        assert(pad_row(bottom.rows[y], w) =~= bottom.rows[y]);
    }
    assert(stitched_rows(seq![top], w) =~= top.rows);
    assert(stitched_rows(s, w) =~= top.rows + bottom.rows);
}

/// Two strips of one image, each turned to grayscale and then to 8-bit RGB,
/// stitch to the whole image turned to grayscale and then to 8-bit RGB.
pub proof fn lemma_stitch_grayscale_strips(top: ImageView, bottom: ImageView)
    requires
        same_shape(top, bottom),
        top.wf(),
        bottom.wf(),
    ensures
        stitch_view(seq![to_rgb8_view(grayscale_view(top)), to_rgb8_view(grayscale_view(bottom))])
            == to_rgb8_view(grayscale_view(stack_view(top, bottom))),
{
    let gt = grayscale_view(top);
    let gb = grayscale_view(bottom);
    lemma_grayscale_stack(top, bottom);
    lemma_to_rgb8_stack(gt, gb);
    let rt = to_rgb8_view(gt);
    let rb = to_rgb8_view(gb);
    assert forall|y: int| 0 <= y < rt.height implies #[trigger] rt.rows[y].len() == rt.width by {
        assert(top.rows[y].len() == top.width);
    }
    assert forall|y: int| 0 <= y < rb.height implies #[trigger] rb.rows[y].len() == rb.width by {
        assert(bottom.rows[y].len() == bottom.width);
    }
    lemma_stitch_pair(rt, rb);
}

/// The strips one below the other, each stacked below those before it
/// (meaningful when there is at least one).
pub open spec fn stack_all(strips: Seq<ImageView>) -> ImageView
    decreases strips.len(),
{
    if strips.len() <= 1 {
        strips[0]
    } else {
        stack_view(stack_all(strips.drop_last()), strips.last())
    }
}

/// Every strip has the shape of the first, and is well formed.
pub open spec fn strips_of_one_shape(strips: Seq<ImageView>) -> bool {
    &&& strips.len() > 0
    &&& forall|i: int| 0 <= i < strips.len() ==> (#[trigger] strips[i]).wf()
    &&& forall|i: int| 0 <= i < strips.len() ==> same_shape(strips[0], #[trigger] strips[i])
}

/// Each strip turned to grayscale and then to 8-bit RGB.
pub open spec fn gray_rgb8_strips(strips: Seq<ImageView>) -> Seq<ImageView> {
    strips.map_values(|v: ImageView| to_rgb8_view(grayscale_view(v)))
}

/// Stacking strips of one shape keeps that shape and gives well-shaped rows.
pub proof fn lemma_stack_all_shape(strips: Seq<ImageView>)
    requires
        strips.len() > 0,
        forall|i: int| 0 <= i < strips.len() ==> same_shape(strips[0], #[trigger] strips[i]),
        forall|i: int| 0 <= i < strips.len() ==> rows_shaped(#[trigger] strips[i]),
    ensures
        same_shape(strips[0], stack_all(strips)),
        rows_shaped(stack_all(strips)),
    decreases strips.len(),
{
    if strips.len() > 1 {
        let p = strips.drop_last();
        assert forall|i: int| 0 <= i < p.len() implies same_shape(p[0], #[trigger] p[i]) by {
            assert(p[i] == strips[i]);
        }
        assert forall|i: int| 0 <= i < p.len() implies rows_shaped(#[trigger] p[i]) by {
            assert(p[i] == strips[i]);
        }
        lemma_stack_all_shape(p);
        let a = stack_all(p);
        let b = strips.last();
        assert(b == strips[strips.len() - 1]);
        assert(rows_shaped(b));
        let st = stack_view(a, b);
        assert forall|y: int| 0 <= y < st.height implies #[trigger] st.rows[y].len() == st.width by {
            if y < a.height {
                assert(st.rows[y] == a.rows[y]);
            } else {
                assert(st.rows[y] == b.rows[y - a.height]);
            }
        }
    }
}

/// Stitching 8-bit RGB strips of one width with well-shaped rows stacks them.
pub proof fn lemma_stitch_all(strips: Seq<ImageView>)
    requires
        strips.len() > 0,
        strips[0].channels == Channels::Rgb,
        strips[0].depth == Depth::Eight,
        forall|i: int| 0 <= i < strips.len() ==> same_shape(strips[0], #[trigger] strips[i]),
        forall|i: int| 0 <= i < strips.len() ==> rows_shaped(#[trigger] strips[i]),
    ensures
        stitch_view(strips) == stack_all(strips),
    decreases strips.len(),
{
    lemma_stack_all_shape(strips);
    lemma_stitched_stack(strips, strips[0].width);
}

/// The stitched rows of strips of width `w` with well-shaped rows are the
/// rows of their stack, and the total height is its height.
pub proof fn lemma_stitched_stack(strips: Seq<ImageView>, w: nat)
    requires
        strips.len() > 0,
        forall|i: int| 0 <= i < strips.len() ==> (#[trigger] strips[i]).width == w,
        forall|i: int| 0 <= i < strips.len() ==> rows_shaped(#[trigger] strips[i]),
    ensures
        stitched_rows(strips, w) == stack_all(strips).rows,
        total_height(strips) == stack_all(strips).height,
    decreases strips.len(),
{
    let b = strips.last();
    assert(b == strips[strips.len() - 1]);
    let pb = b.rows.map_values(|r: Seq<Seq<u16>>| pad_row(r, w));
    assert forall|y: int| 0 <= y < b.height implies #[trigger] pb[y] == b.rows[y] by {
        assert(pad_row(b.rows[y], w) =~= b.rows[y]);
    }
    assert(pb =~= b.rows);
    let p = strips.drop_last();
    if strips.len() == 1 {
        assert(p =~= Seq::<ImageView>::empty());
        assert(stitched_rows(p, w) =~= Seq::<Seq<Seq<u16>>>::empty());
        assert(total_height(p) == 0);
        assert(stitched_rows(strips, w) =~= b.rows);
    } else {
        assert forall|i: int| 0 <= i < p.len() implies (#[trigger] p[i]).width == w by {
            assert(p[i] == strips[i]);
        }
        assert forall|i: int| 0 <= i < p.len() implies rows_shaped(#[trigger] p[i]) by {
            assert(p[i] == strips[i]);
        }
        lemma_stitched_stack(p, w);
        assert(stitched_rows(strips, w) =~= stack_all(strips).rows);
    }
}

/// Turning each strip to grayscale and then to 8-bit RGB, and stacking them,
/// is turning their stack to grayscale and then to 8-bit RGB.
pub proof fn lemma_gray_rgb8_stack_all(strips: Seq<ImageView>)
    requires
        strips.len() > 0,
        forall|i: int| 0 <= i < strips.len() ==> same_shape(strips[0], #[trigger] strips[i]),
    ensures
        stack_all(gray_rgb8_strips(strips)) == to_rgb8_view(grayscale_view(stack_all(strips))),
        same_shape(strips[0], stack_all(strips)),
    decreases strips.len(),
{
    let g = gray_rgb8_strips(strips);
    if strips.len() == 1 {
        assert(g[0] == to_rgb8_view(grayscale_view(strips[0])));
    } else {
        let p = strips.drop_last();
        assert forall|i: int| 0 <= i < p.len() implies same_shape(p[0], #[trigger] p[i]) by {
            assert(p[i] == strips[i]);
        }
        lemma_gray_rgb8_stack_all(p);
        assert(gray_rgb8_strips(p) =~= g.drop_last());
        let a = stack_all(p);
        let b = strips.last();
        assert(b == strips[strips.len() - 1]);
        assert(g.last() == to_rgb8_view(grayscale_view(b)));
        lemma_grayscale_stack(a, b);
        lemma_to_rgb8_stack(grayscale_view(a), grayscale_view(b));
    }
}

/// Strips of one image, each turned to grayscale and then to 8-bit RGB,
/// stitch to the whole image turned to grayscale and then to 8-bit RGB, for
/// any number of strips.
pub proof fn lemma_stitch_grayscale_all(strips: Seq<ImageView>)
    requires
        strips_of_one_shape(strips),
    ensures
        stitch_view(gray_rgb8_strips(strips)) == to_rgb8_view(grayscale_view(stack_all(strips))),
{
    let g = gray_rgb8_strips(strips);
    assert forall|i: int| 0 <= i < g.len() implies same_shape(g[0], #[trigger] g[i]) by {
        assert(same_shape(strips[0], strips[i]));
    }
    assert forall|i: int| 0 <= i < g.len() implies rows_shaped(#[trigger] g[i]) by {
        let v = strips[i];
        assert(v.wf());
        assert forall|y: int| 0 <= y < g[i].height implies #[trigger] g[i].rows[y].len()
            == g[i].width by {
            assert(v.rows[y].len() == v.width);
        }
    }
    lemma_stitch_all(g);
    lemma_gray_rgb8_stack_all(strips);
}

/// Stitches 8-bit RGB images one below the other. The result is as wide as
/// the first image; narrower images leave black pixels on their right.
pub fn stitch_vertically(images: &Vec<Image>) -> (out: Image)
    requires
        stitchable(image_views(images@)),
    ensures
        out@ == stitch_view(image_views(images@)),
        out@.wf(),
{
    let ghost views = image_views(images@);
    let width = images[0].width();
    assert(views[0] == images@[0]@);
    let ghost expected = |x: int, y: int| stitched_rows(views, width as nat)[y][x];
    let mut samples: Vec<u16> = Vec::new();
    proof {
        lemma_renders_empty(3, width as nat, expected);
    }
    let mut k: usize = 0;
    let mut offset: u32 = 0;
    assert(views.take(0) =~= Seq::<ImageView>::empty());
    while k < images.len()
        invariant
            k <= images.len(),
            views == image_views(images@),
            stitchable(views),
            width == views[0].width,
            expected == (|x: int, y: int| stitched_rows(views, width as nat)[y][x]),
            offset == total_height(views.take(k as int)),
            renders(samples@, 3, width as nat, pixel_index(width as int, 0, offset as int), expected),
            forall|i: int| 0 <= i < samples@.len() ==> #[trigger] samples@[i] <= 255,
        decreases images.len() - k,
    {
        let img = &images[k];
        assert(views[k as int] == img@);
        assert(is_rgb8(views[k as int]));
        proof {
            lemma_total_height_step(views, k as int);
            lemma_total_height_prefix(views, k + 1);
        }
        let h = img.height();
        let w = img.width();
        let mut yy: u32 = 0;
        while yy < h
            invariant
                yy <= h,
                k < images.len(),
                views == image_views(images@),
                stitchable(views),
                img@ == views[k as int],
                is_rgb8(img@),
                h == img@.height,
                w == img@.width,
                w <= width,
                width == views[0].width,
                expected == (|x: int, y: int| stitched_rows(views, width as nat)[y][x]),
                offset == total_height(views.take(k as int)),
                offset + h <= total_height(views),
                renders(
                    samples@,
                    3,
                    width as nat,
                    pixel_index(width as int, 0, offset + yy),
                    expected,
                ),
                forall|i: int| 0 <= i < samples@.len() ==> #[trigger] samples@[i] <= 255,
            decreases h - yy,
        {
            proof {
                assert forall|i: int| 0 <= i < views.len() implies (#[trigger] views[i]).wf() by {
                    assert(is_rgb8(views[i]));
                }
                lemma_stitched_row(views, width as nat, k as int, yy as int);
            }
            let ghost row = pad_row(img@.rows[yy as int], width as nat);
            let mut x: u32 = 0;
            while x < width
                invariant
                    x <= width,
                    yy < h,
                    img@ == views[k as int],
                    is_rgb8(img@),
                    h == img@.height,
                    w == img@.width,
                    w <= width,
                    row == pad_row(img@.rows[yy as int], width as nat),
                    expected == (|x: int, y: int| stitched_rows(views, width as nat)[y][x]),
                    stitched_rows(views, width as nat)[offset + yy] == row,
                    renders(
                        samples@,
                        3,
                        width as nat,
                        pixel_index(width as int, x as int, offset + yy),
                        expected,
                    ),
                    forall|i: int| 0 <= i < samples@.len() ==> #[trigger] samples@[i] <= 255,
                decreases width - x,
            {
                let px = if x < w {
                    img.pixel(x, yy)
                } else {
                    vec![0u16, 0u16, 0u16]
                };
                assert(px@ =~= row[x as int]);
                assert(px@.len() == 3);
                proof {
                    lemma_renders_push(
                        samples@,
                        3,
                        width as nat,
                        x as int,
                        offset + yy,
                        px@,
                        expected,
                    );
                }
                let ghost before = samples@;
                crate::raster::append_samples(&mut samples, &px);
                assert forall|i: int| 0 <= i < samples@.len() implies #[trigger] samples@[i]
                    <= 255 by {
                    if i >= before.len() && x < w {
                        assert(samples@[i] == img@.pixel(x as int, yy as int)[i - before.len()]);
                    }
                }
                x += 1;
            }
            proof {
                lemma_next_row(width as int, offset + yy);
            }
            yy += 1;
        }
        offset = offset + h;
        k += 1;
    }
    let height = offset;
    proof {
        assert(views.take(k as int) =~= views);
        assert forall|i: int| 0 <= i < views.len() implies (#[trigger] views[i]).wf() by {
            assert(is_rgb8(views[i]));
        }
        lemma_stitched_len(views, width as nat);
        lemma_renders_rows(samples@, 3, width as nat, height as nat, expected);
        lemma_dims_product(width as int, height as int, 3);
        assert(pixel_index(width as int, 0, height as int) == (height as int) * (width as int));
        lemma_stitched_rows_width(views, width as nat);
        let rows = stitched_rows(views, width as nat);
        let got = Seq::new(
            height as nat,
            |y: int| Seq::new(width as nat, |x: int| expected(x, y)),
        );
        assert forall|yy: int| 0 <= yy < height implies #[trigger] got[yy] =~= rows[yy] by {}
        assert(got =~= rows);
    }
    Image::from_raster(width, height, Channels::Rgb, Depth::Eight, samples)
}

/// The strings in order of first occurrence, each once.
pub open spec fn dedup(s: Seq<Seq<char>>) -> Seq<Seq<char>>
    decreases s.len(),
{
    if s.len() == 0 {
        Seq::empty()
    } else {
        let d = dedup(s.drop_last());
        if d.contains(s.last()) {
            d
        } else {
            d.push(s.last())
        }
    }
}

/// A list without repeated strings has the same strings as the list it
/// came from.
pub proof fn lemma_dedup(s: Seq<Seq<char>>)
    ensures
        dedup(s).no_duplicates(),
        forall|x: Seq<char>| #[trigger] dedup(s).contains(x) <==> s.contains(x),
    decreases s.len(),
{
    if s.len() > 0 {
        let p = s.drop_last();
        lemma_dedup(p);
        let d = dedup(p);
        assert forall|x: Seq<char>| #[trigger] s.contains(x) <==> p.contains(x) || x == s.last() by {
            if s.contains(x) {
                let i = choose|i: int| 0 <= i < s.len() && s[i] == x;
                if i < p.len() {
                    assert(p[i] == x);
                }
            }
            if p.contains(x) {
                let i = choose|i: int| 0 <= i < p.len() && p[i] == x;
                assert(s[i] == x);
            }
            if x == s.last() {
                assert(s[s.len() - 1] == x);
            }
        }
        if !d.contains(s.last()) {
            let e = d.push(s.last());
            assert forall|x: Seq<char>| #[trigger] e.contains(x) <==> d.contains(x) || x == s.last() by {
                if e.contains(x) {
                    let i = choose|i: int| 0 <= i < e.len() && e[i] == x;
                    if i < d.len() {
                        assert(d[i] == x);
                    }
                }
                if d.contains(x) {
                    let i = choose|i: int| 0 <= i < d.len() && d[i] == x;
                    assert(e[i] == x);
                }
                if x == s.last() {
                    assert(e[e.len() - 1] == x);
                }
            }
            assert forall|i: int, j: int|
                0 <= i < e.len() && 0 <= j < e.len() && i != j implies e[i] != e[j] by {
                if i < d.len() && j < d.len() {
                } else if i < d.len() {
                    assert(d.contains(e[i]));
                } else if j < d.len() {
                    assert(d.contains(e[j]));
                }
            }
        }
    }
}

/// Whether the list holds a string equal to `s`.
fn contains_string(list: &Vec<String>, s: &String) -> (r: bool)
    ensures
        r == string_views(list@).contains(s@),
{
    let ghost views = string_views(list@);
    let mut i: usize = 0;
    while i < list.len()
        invariant
            i <= list.len(),
            views == string_views(list@),
            forall|j: int| 0 <= j < i ==> views[j] != s@,
        decreases list.len() - i,
    {
        if str_equals(list[i].as_str(), s.as_str()) {
            assert(views[i as int] == s@);
            return true;
        }
        i += 1;
    }
    false
}

/// All the transformation names of the steps, each once, in order of first
/// occurrence.
pub fn merge_transformations(steps: &Vec<ChainStep>) -> (r: Vec<String>)
    ensures
        string_views(r@) == dedup(
            all_step_transformations(step_views(steps@)),
        ),
{
    let ghost all = step_views(steps@);
    let mut out: Vec<String> = Vec::new();
    let mut k: usize = 0;
    assert(all.take(0) =~= Seq::<StepView>::empty());
    assert(string_views(out@) =~= dedup(Seq::empty()));
    while k < steps.len()
        invariant
            k <= steps.len(),
            all == step_views(steps@),
            string_views(out@) == dedup(
                all_step_transformations(all.take(k as int)),
            ),
        decreases steps.len() - k,
    {
        let names = &steps[k].transformations;
        let ghost base = all_step_transformations(all.take(k as int));
        let ghost ts = string_views(names@);
        assert(all[k as int].transformations == ts);
        let mut j: usize = 0;
        assert(base + ts.take(0) =~= base);
        while j < names.len()
            invariant
                j <= names.len(),
                ts == string_views(names@),
                string_views(out@) == dedup(base + ts.take(j as int)),
            decreases names.len() - j,
        {
            let ghost prev = base + ts.take(j as int);
            assert((base + ts.take(j + 1)).drop_last() =~= prev);
            assert((base + ts.take(j + 1)).last() == ts[j as int]);
            if !contains_string(&out, &names[j]) {
                let ghost before = out@;
                let name = names[j].clone();
                out.push(name);
                assert(string_views(out@) =~= string_views(
                    before,
                ).push(ts[j as int]));
            }
            j += 1;
        }
        assert(all.take(k + 1).drop_last() =~= all.take(k as int));
        assert(ts.take(j as int) =~= ts);
        k += 1;
    }
    assert(all.take(k as int) =~= all);
    out
}

/// Why strips could not be stitched.
#[derive(Clone, Copy, Debug, PartialEq, Eq, Structural)]
pub enum RestitchError {
    /// The output of this part does not decode to an image.
    DecodeFailed(usize),
    /// There is no part.
    NoParts,
    /// The heights add up to more than a `u32` holds.
    TooTall,
    /// The stitched samples would not fit in memory.
    TooLarge,
    /// This part is wider than the first.
    TooWide(usize),
}

/// The stitched image as raw 8-bit RGB samples, with its dimensions and the
/// transformations of all parts.
#[derive(Clone, Debug)]
pub struct Stitched {
    pub raw_rgb: Vec<u8>,
    pub width: u32,
    pub height: u32,
    pub transformations: Vec<String>,
}

/// Every part's output decodes.
pub open spec fn all_decode(parts: Seq<StepView>) -> bool {
    forall|i: int| 0 <= i < parts.len() ==> (#[trigger] decode_view(parts[i].output)) is Some
}

/// `i` is the first part whose output does not decode.
pub open spec fn first_undecodable(parts: Seq<StepView>, i: int) -> bool {
    &&& 0 <= i < parts.len()
    &&& decode_view(parts[i].output) is None
    &&& forall|j: int| 0 <= j < i ==> (#[trigger] decode_view(parts[j].output)) is Some
}

/// The decoded outputs of the parts, as 8-bit RGB.
pub open spec fn strips_of(parts: Seq<StepView>) -> Seq<ImageView> {
    parts.map_values(|p: StepView| to_rgb8_view(decode_view(p.output).unwrap()))
}

/// `i` is the first strip wider than the first.
pub open spec fn first_too_wide(strips: Seq<ImageView>, i: int) -> bool {
    &&& 0 <= i < strips.len()
    &&& strips[i].width > strips[0].width
    &&& forall|j: int| 0 <= j < i ==> (#[trigger] strips[j]).width <= strips[0].width
}

/// Decodes the output of every part, converts each to 8-bit RGB, stitches
/// them one below the other, and merges their transformation names.
pub fn restitch(parts: &Vec<ChainStep>) -> (r: Result<Stitched, RestitchError>)
    ensures
        match r {
            Err(RestitchError::DecodeFailed(i)) => first_undecodable(step_views(parts@), i as int),
            Err(RestitchError::NoParts) => parts@.len() == 0,
            Err(RestitchError::TooTall) => {
                let st = strips_of(step_views(parts@));
                &&& all_decode(step_views(parts@))
                &&& parts@.len() > 0
                &&& total_height(st) > u32::MAX
            },
            Err(RestitchError::TooLarge) => {
                let st = strips_of(step_views(parts@));
                &&& all_decode(step_views(parts@))
                &&& parts@.len() > 0
                &&& total_height(st) <= u32::MAX
                &&& st[0].width * total_height(st) * 3 > usize::MAX
            },
            Err(RestitchError::TooWide(i)) => {
                let st = strips_of(step_views(parts@));
                &&& all_decode(step_views(parts@))
                &&& parts@.len() > 0
                &&& total_height(st) <= u32::MAX
                &&& st[0].width * total_height(st) * 3 <= usize::MAX
                &&& first_too_wide(st, i as int)
            },
            Ok(out) => {
                let st = strips_of(step_views(parts@));
                &&& all_decode(step_views(parts@))
                &&& stitchable(st)
                &&& out.raw_rgb@ == bytes_of(stitch_view(st))
                &&& out.width == st[0].width
                &&& out.height == total_height(st)
                &&& string_views(out.transformations@) == dedup(
                    all_step_transformations(step_views(parts@)),
                )
            },
        },
{
    let ghost pv = step_views(parts@);
    let ghost st = strips_of(pv);
    let mut strips: Vec<Image> = Vec::new();
    let mut i: usize = 0;
    while i < parts.len()
        invariant
            i <= parts.len(),
            pv == step_views(parts@),
            st == strips_of(pv),
            forall|j: int| 0 <= j < i ==> (#[trigger] decode_view(pv[j].output)) is Some,
            image_views(strips@) == st.take(i as int),
            forall|j: int| 0 <= j < i ==> is_rgb8(#[trigger] st[j]),
        decreases parts.len() - i,
    {
        assert(pv[i as int].output == parts@[i as int].output@);
        match decode_image(parts[i].output.as_slice()) {
            Some(img) => {
                let rgb = to_rgb8(&img);
                assert(st[i as int] == rgb@);
                let ghost old = strips@;
                assert(image_views(old).len() == old.len());
                assert(st.len() == pv.len());
                assert(old.len() == i);
                strips.push(rgb);
                assert forall|m: int| 0 <= m < i + 1 implies #[trigger] image_views(strips@)[m]
                    == st.take(i + 1)[m] by {
                    if m < i {
                        assert(image_views(old)[m] == st.take(i as int)[m]);
                        assert(strips@[m] == old[m]);
                    }
                }
                assert(image_views(strips@) =~= st.take(i + 1));
            },
            None => {
                return Err(RestitchError::DecodeFailed(i));
            },
        }
        i += 1;
    }
    assert(st.take(i as int) =~= st);
    assert forall|m: int| 0 <= m < strips@.len() implies is_rgb8(#[trigger] strips@[m]@) by {
        assert(image_views(strips@)[m] == strips@[m]@);
    }
    assert(st.len() == parts@.len());
    stitch_strips(&strips, parts)
}

/// Stitches the strips (the decoded outputs of the parts, as 8-bit RGB) one
/// below the other and merges the parts' transformation names; the checks
/// come in order: at least one strip, total height within a `u32`, samples
/// within memory, no strip wider than the first.
pub fn stitch_strips(strips: &Vec<Image>, parts: &Vec<ChainStep>) -> (r: Result<
    Stitched,
    RestitchError,
>)
    requires
        forall|i: int| 0 <= i < strips@.len() ==> is_rgb8(#[trigger] strips@[i]@),
    ensures
        ({
            let st = image_views(strips@);
            match r {
                Err(RestitchError::DecodeFailed(_)) => false,
                Err(RestitchError::NoParts) => st.len() == 0,
                Err(RestitchError::TooTall) => st.len() > 0 && total_height(st) > u32::MAX,
                Err(RestitchError::TooLarge) => st.len() > 0 && total_height(st) <= u32::MAX
                    && st[0].width * total_height(st) * 3 > usize::MAX,
                Err(RestitchError::TooWide(i)) => st.len() > 0 && total_height(st) <= u32::MAX
                    && st[0].width * total_height(st) * 3 <= usize::MAX && first_too_wide(
                    st,
                    i as int,
                ),
                Ok(out) => {
                    &&& stitchable(st)
                    &&& out.raw_rgb@ == bytes_of(stitch_view(st))
                    &&& out.width == st[0].width
                    &&& out.height == total_height(st)
                    &&& string_views(out.transformations@) == dedup(
                        all_step_transformations(step_views(parts@)),
                    )
                },
            }
        }),
{
    let ghost st = image_views(strips@);
    assert forall|m: int| 0 <= m < st.len() implies is_rgb8(#[trigger] st[m]) by {
        assert(st[m] == strips@[m]@);
    }
    if strips.len() == 0 {
        return Err(RestitchError::NoParts);
    }
    let mut total: u64 = 0;
    let mut k: usize = 0;
    assert(st.take(0) =~= Seq::<ImageView>::empty());
    while k < strips.len()
        invariant
            k <= strips.len(),
            image_views(strips@) == st,
            st.len() > 0,
            total == total_height(st.take(k as int)),
            total <= u32::MAX,
        decreases strips.len() - k,
    {
        proof {
            lemma_total_height_step(st, k as int);
        }
        assert(st[k as int] == strips@[k as int]@);
        total = total + strips[k].height() as u64;
        if total > u32::MAX as u64 {
            proof {
                lemma_total_height_prefix(st, k + 1);
            }
            return Err(RestitchError::TooTall);
        }
        k += 1;
    }
    assert(st.take(k as int) =~= st);
    let width = strips[0].width();
    assert(st[0] == strips@[0]@);
    assert((width as u128) * (total as u128) <= 0x1_0000_0000_0000_0000u128) by (nonlinear_arith)
        requires
            width <= u32::MAX,
            total <= u32::MAX,
    ;
    let cells: u128 = (width as u128) * (total as u128) * 3;
    if cells > usize::MAX as u128 {
        return Err(RestitchError::TooLarge);
    }
    let mut j: usize = 0;
    while j < strips.len()
        invariant
            j <= strips.len(),
            image_views(strips@) == st,
            forall|m: int| 0 <= m < st.len() ==> is_rgb8(#[trigger] st[m]),
            st.len() > 0,
            total_height(st) <= u32::MAX,
            st[0].width * total_height(st) * 3 <= usize::MAX,
            width == st[0].width,
            forall|m: int| 0 <= m < j ==> (#[trigger] st[m]).width <= width,
        decreases strips.len() - j,
    {
        assert(st[j as int] == strips@[j as int]@);
        if strips[j].width() > width {
            return Err(RestitchError::TooWide(j));
        }
        j += 1;
    }
    let stitched = stitch_vertically(&strips);
    let raw_rgb = to_bytes(&stitched);
    let transformations = merge_transformations(parts);
    Ok(Stitched { raw_rgb, width, height: total as u32, transformations })
}

} // verus!
