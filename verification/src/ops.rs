//! Pixel transformations: vertical and horizontal flips and grayscale.
use vstd::prelude::*;
use crate::raster::{
    Channels, Depth,
    append_samples, lemma_dims_product, lemma_next_row, lemma_renders_empty, lemma_renders_push,
    lemma_renders_rows, pixel_index, raster_rows, renders, Image, ImageView,
};

verus! {

/// The image turned upside down: row `y` becomes row `height - 1 - y`.
pub open spec fn flipv_view(v: ImageView) -> ImageView {
    ImageView {
        width: v.width,
        height: v.height,
        channels: v.channels,
        depth: v.depth,
        rows: v.rows.reverse(),
    }
}

/// The image mirrored: column `x` becomes column `width - 1 - x`.
pub open spec fn fliph_view(v: ImageView) -> ImageView {
    ImageView {
        width: v.width,
        height: v.height,
        channels: v.channels,
        depth: v.depth,
        rows: v.rows.map_values(|row: Seq<Seq<u16>>| row.reverse()),
    }
}

/// Builds the `width` by `height` image whose pixel at column `x` of row `y`
/// is what `pixel_at(x, y)` returns, and `expected(x, y)` describes.
pub(crate) fn render<F: Fn(u32, u32) -> Vec<u16>>(
    w: u32,
    h: u32,
    channels: Channels,
    depth: Depth,
    Ghost(expected): Ghost<spec_fn(int, int) -> Seq<u16>>,
    pixel_at: F,
) -> (img: Image)
    requires
        forall|x: u32, y: u32| x < w && y < h ==> call_requires(pixel_at, (x, y)),
        forall|x: u32, y: u32, r: Vec<u16>|
            x < w && y < h && call_ensures(pixel_at, (x, y), r) ==> r@ == expected(
                x as int,
                y as int,
            ),
        forall|x: int, y: int|
            0 <= x < w && 0 <= y < h ==> (#[trigger] expected(x, y)).len() == channels.count(),
        forall|x: int, y: int, c: int|
            0 <= x < w && 0 <= y < h && 0 <= c < channels.count() ==> #[trigger] expected(x, y)[c]
                <= depth.max_sample(),
    ensures
        img@ == (ImageView {
            width: w as nat,
            height: h as nat,
            channels,
            depth,
            rows: Seq::new(h as nat, |y: int| Seq::new(w as nat, |x: int| expected(x, y))),
        }),
        img@.wf(),
{
    let n = channels.channel_count();
    let mut samples: Vec<u16> = Vec::new();
    proof {
        lemma_renders_empty(n as nat, w as nat, expected);
    }
    let mut y: u32 = 0;
    while y < h
        invariant
            y <= h,
            n == channels.count(),
            forall|x: u32, y: u32| x < w && y < h ==> call_requires(pixel_at, (x, y)),
            forall|x: u32, y: u32, r: Vec<u16>|
                x < w && y < h && call_ensures(pixel_at, (x, y), r) ==> r@ == expected(
                    x as int,
                    y as int,
                ),
            forall|x: int, y: int|
                0 <= x < w && 0 <= y < h ==> (#[trigger] expected(x, y)).len() == channels.count(),
            forall|x: int, y: int, c: int|
                0 <= x < w && 0 <= y < h && 0 <= c < channels.count() ==> #[trigger] expected(
                    x,
                    y,
                )[c] <= depth.max_sample(),
            renders(samples@, n as nat, w as nat, pixel_index(w as int, 0, y as int), expected),
            forall|i: int| 0 <= i < samples@.len() ==> #[trigger] samples@[i] <= depth.max_sample(),
        decreases h - y,
    {
        let mut x: u32 = 0;
        while x < w
            invariant
                x <= w,
                y < h,
                n == channels.count(),
                forall|x: u32, y: u32| x < w && y < h ==> call_requires(pixel_at, (x, y)),
                forall|x: u32, y: u32, r: Vec<u16>|
                    x < w && y < h && call_ensures(pixel_at, (x, y), r) ==> r@ == expected(
                        x as int,
                        y as int,
                    ),
                forall|x: int, y: int|
                    0 <= x < w && 0 <= y < h ==> (#[trigger] expected(x, y)).len()
                        == channels.count(),
                forall|x: int, y: int, c: int|
                    0 <= x < w && 0 <= y < h && 0 <= c < channels.count() ==> #[trigger] expected(
                        x,
                        y,
                    )[c] <= depth.max_sample(),
                renders(
                    samples@,
                    n as nat,
                    w as nat,
                    pixel_index(w as int, x as int, y as int),
                    expected,
                ),
                forall|i: int|
                    0 <= i < samples@.len() ==> #[trigger] samples@[i] <= depth.max_sample(),
            decreases w - x,
        {
            let px = pixel_at(x, y);
            proof {
                lemma_renders_push(samples@, n as nat, w as nat, x as int, y as int, px@, expected);
            }
            let ghost before = samples@;
            append_samples(&mut samples, &px);
            assert forall|i: int| 0 <= i < samples@.len() implies #[trigger] samples@[i]
                <= depth.max_sample() by {
                if i >= before.len() {
                    assert(samples@[i] == expected(x as int, y as int)[i - before.len()]);
                }
            }
            x += 1;
        }
        proof {
            lemma_next_row(w as int, y as int);
        }
        y += 1;
    }
    proof {
        lemma_renders_rows(samples@, n as nat, w as nat, h as nat, expected);
        lemma_dims_product(w as int, h as int, n as int);
        assert(pixel_index(w as int, 0, h as int) == (h as int) * (w as int));
    }
    Image::from_raster(w, h, channels, depth, samples)
}

/// Flips an image vertically.
pub fn flipv(img: &Image) -> (out: Image)
    ensures
        out@ == flipv_view(img@),
        out@.wf(),
{
    img.well_formed();
    let w = img.width();
    let h = img.height();
    let ghost v = img@;
    let out = render(
        w,
        h,
        img.channels(),
        img.depth(),
        Ghost(|x: int, y: int| v.pixel(x, h - 1 - y)),
        (|x: u32, y: u32| -> (r: Vec<u16>)
            requires
                x < w,
                y < h,
            ensures
                r@ == v.pixel(x as int, h - 1 - y),
            { img.pixel(x, h - 1 - y) }),
    );
    proof {
        assert forall|yy: int| 0 <= yy < h implies #[trigger] out@.rows[yy] =~= v.rows.reverse()[yy] by {
            assert(v.rows.reverse()[yy] == v.rows[h - 1 - yy]);
        }
        assert(out@.rows =~= v.rows.reverse());
    }
    out
}

/// Flips an image horizontally.
pub fn fliph(img: &Image) -> (out: Image)
    ensures
        out@ == fliph_view(img@),
        out@.wf(),
{
    img.well_formed();
    let w = img.width();
    let h = img.height();
    let ghost v = img@;
    let out = render(
        w,
        h,
        img.channels(),
        img.depth(),
        Ghost(|x: int, y: int| v.pixel(w - 1 - x, y)),
        (|x: u32, y: u32| -> (r: Vec<u16>)
            requires
                x < w,
                y < h,
            ensures
                r@ == v.pixel(w - 1 - x, y as int),
            { img.pixel(w - 1 - x, y) }),
    );
    proof {
        let mapped = v.rows.map_values(|row: Seq<Seq<u16>>| row.reverse());
        assert forall|yy: int| 0 <= yy < h implies #[trigger] out@.rows[yy] =~= mapped[yy] by {
            assert(mapped[yy] == v.rows[yy].reverse());
        }
        assert(out@.rows =~= mapped);
    }
    out
}

/// Luminance of an RGB sample triple: the weighted sum with weights 2126,
/// 7152 and 722, divided by 10000 and rounded down.
pub open spec fn luma(r: u16, g: u16, b: u16) -> u16 {
    ((2126 * r + 7152 * g + 722 * b) / 10000) as u16
}

/// The channels of an image after grayscale: colour collapses to luma, and
/// an alpha channel stays.
pub open spec fn gray_channels(c: Channels) -> Channels {
    match c {
        Channels::Luma => Channels::Luma,
        Channels::LumaAlpha => Channels::LumaAlpha,
        Channels::Rgb => Channels::Luma,
        Channels::Rgba => Channels::LumaAlpha,
    }
}

/// One pixel after grayscale.
pub open spec fn gray_pixel(c: Channels, p: Seq<u16>) -> Seq<u16> {
    match c {
        Channels::Luma => p,
        Channels::LumaAlpha => p,
        Channels::Rgb => seq![luma(p[0], p[1], p[2])],
        Channels::Rgba => seq![luma(p[0], p[1], p[2]), p[3]],
    }
}

/// The image in grayscale, pixel by pixel.
pub open spec fn grayscale_view(v: ImageView) -> ImageView {
    ImageView {
        width: v.width,
        height: v.height,
        channels: gray_channels(v.channels),
        depth: v.depth,
        rows: v.rows.map_values(
            |row: Seq<Seq<u16>>| row.map_values(|p: Seq<u16>| gray_pixel(v.channels, p)),
        ),
    }
}

fn luma_exec(r: u16, g: u16, b: u16, Ghost(max): Ghost<u16>) -> (l: u16)
    requires
        r <= max,
        g <= max,
        b <= max,
    ensures
        l == luma(r, g, b),
        l <= max,
{
    let sum: u32 = 2126 * (r as u32) + 7152 * (g as u32) + 722 * (b as u32);
    assert(sum <= 10000 * (max as int));
    (sum / 10000) as u16
}

fn gray_pixel_exec(c: Channels, p: &Vec<u16>, Ghost(max): Ghost<u16>) -> (q: Vec<u16>)
    requires
        p@.len() == c.count(),
        forall|i: int| 0 <= i < p@.len() ==> #[trigger] p@[i] <= max,
    ensures
        q@ == gray_pixel(c, p@),
        q@.len() == gray_channels(c).count(),
        forall|i: int| 0 <= i < q@.len() ==> #[trigger] q@[i] <= max,
{
    match c {
        Channels::Luma => p.clone(),
        Channels::LumaAlpha => p.clone(),
        Channels::Rgb => {
            let l = luma_exec(p[0], p[1], p[2], Ghost(max));
            let q = vec![l];
            assert(q@ =~= gray_pixel(c, p@));
            q
        },
        Channels::Rgba => {
            let l = luma_exec(p[0], p[1], p[2], Ghost(max));
            let q = vec![l, p[3]];
            assert(q@ =~= gray_pixel(c, p@));
            q
        },
    }
}

fn gray_channels_exec(c: Channels) -> (g: Channels)
    ensures
        g == gray_channels(c),
{
    match c {
        Channels::Luma => Channels::Luma,
        Channels::LumaAlpha => Channels::LumaAlpha,
        Channels::Rgb => Channels::Luma,
        Channels::Rgba => Channels::LumaAlpha,
    }
}

/// Converts an image to grayscale, keeping its alpha channel and its depth.
pub fn grayscale(img: &Image) -> (out: Image)
    ensures
        out@ == grayscale_view(img@),
        out@.wf(),
{
    img.well_formed();
    let w = img.width();
    let h = img.height();
    let c = img.channels();
    let d = img.depth();
    let ghost v = img@;
    let ghost max = d.max_sample();
    let out = render(
        w,
        h,
        gray_channels_exec(c),
        d,
        Ghost(|x: int, y: int| gray_pixel(v.channels, v.pixel(x, y))),
        (|x: u32, y: u32| -> (r: Vec<u16>)
            requires
                x < w,
                y < h,
            ensures
                r@ == gray_pixel(v.channels, v.pixel(x as int, y as int)),
            {
                let p = img.pixel(x, y);
                assert(forall|i: int| 0 <= i < p@.len() ==> p@[i] == v.pixel(x as int, y as int)[i]);
                gray_pixel_exec(c, &p, Ghost(max))
            }),
    );
    proof {
        let mapped = v.rows.map_values(
            |row: Seq<Seq<u16>>| row.map_values(|p: Seq<u16>| gray_pixel(v.channels, p)),
        );
        assert forall|yy: int| 0 <= yy < h implies #[trigger] out@.rows[yy] =~= mapped[yy] by {}
        assert(out@.rows =~= mapped);
    }
    out
}

/// Flipping vertically twice gives back the image.
pub proof fn lemma_flipv_involution(v: ImageView)
    requires
        v.wf(),
    ensures
        flipv_view(flipv_view(v)) == v,
{
    assert(v.rows.reverse().reverse() =~= v.rows);
}

/// Flipping horizontally twice gives back the image.
pub proof fn lemma_fliph_involution(v: ImageView)
    requires
        v.wf(),
    ensures
        fliph_view(fliph_view(v)) == v,
{
    let once = fliph_view(v).rows;
    let twice = fliph_view(fliph_view(v)).rows;
    assert forall|y: int| 0 <= y < v.height implies #[trigger] twice[y] == v.rows[y] by {
        assert(twice[y] =~= v.rows[y].reverse().reverse());
        assert(v.rows[y].reverse().reverse() =~= v.rows[y]);
    }
    assert(twice =~= v.rows);
}

/// The two flips commute: together they turn the image by half a turn.
pub proof fn lemma_flips_commute(v: ImageView)
    requires
        v.wf(),
    ensures
        flipv_view(fliph_view(v)) == fliph_view(flipv_view(v)),
{
    let a = flipv_view(fliph_view(v)).rows;
    let b = fliph_view(flipv_view(v)).rows;
    assert forall|y: int| 0 <= y < v.height implies #[trigger] a[y] == b[y] by {
        assert(a[y] == v.rows[v.height - 1 - y].reverse());
        assert(b[y] == v.rows[v.height - 1 - y].reverse());
    }
    assert(a =~= b);
}

/// Each flip keeps the image well formed.
pub proof fn lemma_flips_wf(v: ImageView)
    requires
        v.wf(),
    ensures
        flipv_view(v).wf(),
        fliph_view(v).wf(),
{
    let f = flipv_view(v);
    assert forall|x: int, y: int|
        0 <= x < v.width && 0 <= y < v.height implies #[trigger] f.pixel(x, y) == v.pixel(
        x,
        v.height - 1 - y,
    ) by {}
    let g = fliph_view(v);
    assert forall|y: int| 0 <= y < v.height implies #[trigger] g.rows[y] == v.rows[y].reverse() by {}
    assert forall|x: int, y: int|
        0 <= x < v.width && 0 <= y < v.height implies #[trigger] g.pixel(x, y) == v.pixel(
        v.width - 1 - x,
        y,
    ) by {
        assert(g.rows[y] == v.rows[y].reverse());
    }
}

/// Grayscale keeps the image well formed.
pub proof fn lemma_grayscale_wf(v: ImageView)
    requires
        v.wf(),
    ensures
        grayscale_view(v).wf(),
{
    let g = grayscale_view(v);
    assert forall|x: int, y: int|
        0 <= x < v.width && 0 <= y < v.height implies #[trigger] g.pixel(x, y) == gray_pixel(
        v.channels,
        v.pixel(x, y),
    ) by {
        assert(g.rows[y] == v.rows[y].map_values(|p: Seq<u16>| gray_pixel(v.channels, p)));
    }
    assert forall|x: int, y: int, c: int|
        0 <= x < v.width && 0 <= y < v.height && 0 <= c < g.channels.count() implies #[trigger] g.pixel(
        x,
        y,
    )[c] <= g.depth.max_sample() by {
        let p = v.pixel(x, y);
        assert(g.pixel(x, y) == gray_pixel(v.channels, p));
        let m = v.depth.max_sample();
        match v.channels {
            Channels::Rgb => {
                assert(p[0] <= m && p[1] <= m && p[2] <= m);
            },
            Channels::Rgba => {
                assert(p[0] <= m && p[1] <= m && p[2] <= m && p[3] <= m);
            },
            _ => {},
        }
    }
}

/// Grayscale is idempotent: a grayscale image stays as it is.
pub proof fn lemma_grayscale_idempotent(v: ImageView)
    requires
        v.wf(),
    ensures
        grayscale_view(grayscale_view(v)) == grayscale_view(v),
{
    let g = grayscale_view(v);
    let gg = grayscale_view(g);
    assert(gray_channels(gray_channels(v.channels)) == gray_channels(v.channels));
    assert forall|y: int| 0 <= y < v.height implies #[trigger] gg.rows[y] == g.rows[y] by {
        assert forall|x: int| 0 <= x < v.width implies #[trigger] gg.rows[y][x] == g.rows[y][x] by {
            assert(gray_pixel(g.channels, g.rows[y][x]) == g.rows[y][x]);
        }
        assert(gg.rows[y] =~= g.rows[y]);
    }
    assert(gg.rows =~= g.rows);
}

/// Grayscale commutes with the vertical flip.
pub proof fn lemma_grayscale_flipv_commute(v: ImageView)
    requires
        v.wf(),
    ensures
        grayscale_view(flipv_view(v)) == flipv_view(grayscale_view(v)),
{
    let a = grayscale_view(flipv_view(v)).rows;
    let b = flipv_view(grayscale_view(v)).rows;
    assert forall|y: int| 0 <= y < v.height implies #[trigger] a[y] == b[y] by {
        assert(a[y] =~= b[y]);
    }
    assert(a =~= b);
}

/// Grayscale commutes with the horizontal flip.
pub proof fn lemma_grayscale_fliph_commute(v: ImageView)
    requires
        v.wf(),
    ensures
        grayscale_view(fliph_view(v)) == fliph_view(grayscale_view(v)),
{
    let a = grayscale_view(fliph_view(v)).rows;
    let b = fliph_view(grayscale_view(v)).rows;
    assert forall|y: int| 0 <= y < v.height implies #[trigger] a[y] == b[y] by {
        assert(a[y] =~= b[y]);
    }
    assert(a =~= b);
}

/// Grayscale gives each RGB pixel its luminance: the first sample weighted
/// by 2126, the second by 7152 and the third by 722, over 10000, rounded
/// down (Rec. 709 weights for red, green and blue).
pub proof fn lemma_grayscale_rgb_luminance(v: ImageView, x: int, y: int)
    requires
        v.wf(),
        v.channels == Channels::Rgb,
        0 <= x < v.width,
        0 <= y < v.height,
    ensures
        grayscale_view(v).channels == Channels::Luma,
        grayscale_view(v).pixel(x, y) == seq![
            ((2126 * v.pixel(x, y)[0] + 7152 * v.pixel(x, y)[1] + 722 * v.pixel(x, y)[2])
                / 10000) as u16,
        ],
        (2126 * v.pixel(x, y)[0] + 7152 * v.pixel(x, y)[1] + 722 * v.pixel(x, y)[2]) / 10000
            <= v.depth.max_sample(),
{
    let p = v.pixel(x, y);
    assert(p[0] <= v.depth.max_sample() && p[1] <= v.depth.max_sample() && p[2]
        <= v.depth.max_sample());
}

/// Grayscale of an RGBA pixel is the grayscale of its colour with its alpha
/// kept after it: an RGBA image turns to the luma of the RGB image of its
/// first three samples, and keeps its alpha.
pub proof fn lemma_grayscale_rgba_keeps_alpha(v: ImageView, w: ImageView, x: int, y: int)
    requires
        v.wf(),
        w.wf(),
        v.channels == Channels::Rgba,
        w.channels == Channels::Rgb,
        v.width == w.width,
        v.height == w.height,
        0 <= x < v.width,
        0 <= y < v.height,
        w.pixel(x, y) == v.pixel(x, y).take(3),
    ensures
        grayscale_view(v).channels == Channels::LumaAlpha,
        grayscale_view(v).pixel(x, y) == grayscale_view(w).pixel(x, y).push(v.pixel(x, y)[3]),
{
    assert(v.pixel(x, y).len() == 4);
    assert(grayscale_view(v).pixel(x, y) =~= grayscale_view(w).pixel(x, y).push(
        v.pixel(x, y)[3],
    ));
}

/// An image that is already gray (luma, with or without alpha) is left as
/// it is by grayscale.
pub proof fn lemma_grayscale_of_gray(v: ImageView)
    requires
        v.wf(),
        v.channels == Channels::Luma || v.channels == Channels::LumaAlpha,
    ensures
        grayscale_view(v) == v,
{
    let g = grayscale_view(v);
    assert forall|y: int| 0 <= y < v.height implies #[trigger] g.rows[y] =~= v.rows[y] by {}
    assert(g.rows =~= v.rows);
}

/// Turning an image upside down moves the pixel at row `y` to row
/// `height - 1 - y`, in the same column, and keeps the frame.
pub proof fn lemma_flipv_moves_rows(v: ImageView, x: int, y: int)
    requires
        v.wf(),
        0 <= x < v.width,
        0 <= y < v.height,
    ensures
        flipv_view(v).pixel(x, v.height - 1 - y) == v.pixel(x, y),
        flipv_view(v).width == v.width && flipv_view(v).height == v.height,
        flipv_view(v).channels == v.channels && flipv_view(v).depth == v.depth,
{
}

/// Mirroring an image moves the pixel at column `x` to column
/// `width - 1 - x`, in the same row, and keeps the frame.
pub proof fn lemma_fliph_moves_columns(v: ImageView, x: int, y: int)
    requires
        v.wf(),
        0 <= x < v.width,
        0 <= y < v.height,
    ensures
        fliph_view(v).pixel(v.width - 1 - x, y) == v.pixel(x, y),
        fliph_view(v).width == v.width && fliph_view(v).height == v.height,
        fliph_view(v).channels == v.channels && fliph_view(v).depth == v.depth,
{
    assert(v.rows[y].len() == v.width);
}

} // verus!
