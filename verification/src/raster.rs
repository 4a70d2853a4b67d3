//! The image model: a raster of pixels, each pixel a fixed number of samples.
use vstd::prelude::*;

verus! {

/// The colour channels that every pixel of an image carries.
#[derive(Clone, Copy, Debug, PartialEq, Eq, Structural)]
pub enum Channels {
    Luma,
    LumaAlpha,
    Rgb,
    Rgba,
}

impl Channels {
    /// Number of samples per pixel.
    pub open spec fn count(self) -> nat {
        match self {
            Channels::Luma => 1,
            Channels::LumaAlpha => 2,
            Channels::Rgb => 3,
            Channels::Rgba => 4,
        }
    }

    /// Number of samples per pixel.
    pub fn channel_count(&self) -> (n: usize)
        ensures
            n == self.count(),
            1 <= n <= 4,
    {
        match self {
            Channels::Luma => 1,
            Channels::LumaAlpha => 2,
            Channels::Rgb => 3,
            Channels::Rgba => 4,
        }
    }
}

/// Bits per sample.
#[derive(Clone, Copy, Debug, PartialEq, Eq, Structural)]
pub enum Depth {
    Eight,
    Sixteen,
}

impl Depth {
    /// Largest sample value at this depth.
    pub open spec fn max_sample(self) -> u16 {
        match self {
            Depth::Eight => 255,
            Depth::Sixteen => 65535,
        }
    }

    /// Largest sample value at this depth.
    pub fn sample_max(&self) -> (m: u16)
        ensures
            m == self.max_sample(),
    {
        match self {
            Depth::Eight => 255,
            Depth::Sixteen => 65535,
        }
    }
}

/// Mathematical model of an image: `rows[y][x]` is the pixel at column `x`
/// of row `y`, given as its samples in channel order.
pub struct ImageView {
    pub width: nat,
    pub height: nat,
    pub channels: Channels,
    pub depth: Depth,
    pub rows: Seq<Seq<Seq<u16>>>,
}

impl ImageView {
    /// The pixel at column `x` of row `y`.
    pub open spec fn pixel(self, x: int, y: int) -> Seq<u16> {
        self.rows[y][x]
    }

    /// The shape of the rows agrees with the dimensions, the channels and the depth.
    pub open spec fn wf(self) -> bool {
        &&& self.width <= u32::MAX
        &&& self.height <= u32::MAX
        &&& self.rows.len() == self.height
        &&& forall|y: int| 0 <= y < self.height ==> #[trigger] self.rows[y].len() == self.width
        &&& forall|x: int, y: int|
            0 <= x < self.width && 0 <= y < self.height ==> #[trigger] self.pixel(x, y).len()
                == self.channels.count()
        &&& forall|x: int, y: int, c: int|
            0 <= x < self.width && 0 <= y < self.height && 0 <= c < self.channels.count()
                ==> #[trigger] self.pixel(x, y)[c] <= self.depth.max_sample()
    }
}

/// Row-major index of the pixel at column `x` of row `y`.
pub open spec fn pixel_index(width: int, x: int, y: int) -> int {
    y * width + x
}

/// The samples of pixel number `p` in a flat buffer of `n` samples per pixel.
pub open spec fn pixel_of(samples: Seq<u16>, n: int, p: int) -> Seq<u16> {
    samples.subrange(p * n, p * n + n)
}

/// The rows of pixels that a flat row-major sample buffer holds.
pub open spec fn raster_rows(samples: Seq<u16>, width: nat, height: nat, n: nat) -> Seq<
    Seq<Seq<u16>>,
> {
    Seq::new(
        height,
        |y: int|
            Seq::new(width, |x: int| pixel_of(samples, n as int, pixel_index(width as int, x, y))),
    )
}

/// A flat sample buffer fits the dimensions and the depth.
pub open spec fn raster_wf(
    samples: Seq<u16>,
    width: nat,
    height: nat,
    channels: Channels,
    depth: Depth,
) -> bool {
    &&& samples.len() == width * height * channels.count()
    &&& forall|i: int| 0 <= i < samples.len() ==> #[trigger] samples[i] <= depth.max_sample()
}

/// The view of a flat buffer with the given dimensions.
pub open spec fn raster_view(
    samples: Seq<u16>,
    width: nat,
    height: nat,
    channels: Channels,
    depth: Depth,
) -> ImageView {
    ImageView {
        width,
        height,
        channels,
        depth,
        rows: raster_rows(samples, width, height, channels.count()),
    }
}

/// The samples of an image, row-major, as a flat sequence.
pub open spec fn flat_samples(v: ImageView) -> Seq<u16> {
    let n = v.channels.count() as int;
    let w = v.width as int;
    Seq::new(v.width * v.height * v.channels.count(), |i: int| v.rows[(i / n) / w][(i / n) % w][i % n])
}

/// Sample `i` of a flat buffer is sample `i % n` of pixel `i / n`, which
/// stands at column `(i / n) % w` of row `(i / n) / w`.
pub proof fn lemma_split_index(i: int, n: int, w: int, h: int)
    requires
        0 <= i < w * h * n,
        n > 0,
        w > 0,
    ensures
        0 <= i % n < n,
        0 <= (i / n) % w < w,
        0 <= (i / n) / w < h,
        pixel_index(w, (i / n) % w, (i / n) / w) == i / n,
        (i / n) * n + i % n == i,
        0 <= i / n < w * h,
{
    let p = i / n;
    let c = i % n;
    vstd::arithmetic::div_mod::lemma_fundamental_div_mod(i, n);
    vstd::arithmetic::div_mod::lemma_mod_bound(i, n);
    vstd::arithmetic::div_mod::lemma_div_pos_is_pos(i, n);
    lemma_dims_product(w, h, n);
    if p >= w * h {
        assert(n * p >= n * (w * h)) by (nonlinear_arith)
            requires
                p >= w * h,
                n > 0,
        ;
        assert(n * (w * h) == (w * h) * n) by (nonlinear_arith);
    }
    let y = p / w;
    let x = p % w;
    vstd::arithmetic::div_mod::lemma_fundamental_div_mod(p, w);
    vstd::arithmetic::div_mod::lemma_mod_bound(p, w);
    vstd::arithmetic::div_mod::lemma_div_pos_is_pos(p, w);
    if y >= h {
        assert(w * y >= w * h) by (nonlinear_arith)
            requires
                y >= h,
                w > 0,
        ;
    }
    assert(w * y == y * w) by (nonlinear_arith);
    assert(n * p == p * n) by (nonlinear_arith);
}

/// A well-formed flat buffer is the flat sequence of its own view.
pub proof fn lemma_flat_of_raster(
    samples: Seq<u16>,
    width: nat,
    height: nat,
    channels: Channels,
    depth: Depth,
)
    requires
        raster_wf(samples, width, height, channels, depth),
    ensures
        flat_samples(raster_view(samples, width, height, channels, depth)) == samples,
{
    let v = raster_view(samples, width, height, channels, depth);
    let f = flat_samples(v);
    let n = channels.count() as int;
    let w = width as int;
    let h = height as int;
    if w == 0 {
        assert(w * h * n == 0) by (nonlinear_arith)
            requires
                w == 0,
        ;
    }
    assert forall|i: int| 0 <= i < samples.len() implies #[trigger] f[i] == samples[i] by {
        lemma_split_index(i, n, w, h);
        let p = i / n;
        lemma_sample_range(n, p, w * h);
        lemma_dims_product(w, h, n);
    }
    assert(f =~= samples);
}

/// A well-formed view is the view of its own flat samples, which fit its
/// dimensions and depth.
pub proof fn lemma_view_of_flat(v: ImageView)
    requires
        v.wf(),
    ensures
        raster_wf(flat_samples(v), v.width, v.height, v.channels, v.depth),
        raster_view(flat_samples(v), v.width, v.height, v.channels, v.depth) == v,
{
    let f = flat_samples(v);
    let n = v.channels.count() as int;
    let w = v.width as int;
    let h = v.height as int;
    assert forall|i: int| 0 <= i < f.len() implies #[trigger] f[i] <= v.depth.max_sample() by {
        if w == 0 {
            assert(w * h * n == 0) by (nonlinear_arith)
                requires
                    w == 0,
            ;
        }
        lemma_split_index(i, n, w, h);
        assert(f[i] == v.pixel((i / n) % w, (i / n) / w)[i % n]);
    }
    let rv = raster_view(f, v.width, v.height, v.channels, v.depth);
    assert forall|y: int| 0 <= y < h implies #[trigger] rv.rows[y] == v.rows[y] by {
        assert forall|x: int| 0 <= x < w implies #[trigger] rv.rows[y][x] == v.rows[y][x] by {
            let p = pixel_index(w, x, y);
            lemma_pixel_index_bounds(w, h, x, y);
            lemma_sample_range(n, p, w * h);
            lemma_dims_product(w, h, n);
            assert forall|c: int| 0 <= c < n implies #[trigger] rv.rows[y][x][c] == v.rows[y][x][c] by {
                let i = p * n + c;
                vstd::arithmetic::div_mod::lemma_fundamental_div_mod_converse(i, n, p, c);
                vstd::arithmetic::div_mod::lemma_fundamental_div_mod_converse(p, w, y, x);
                assert(rv.rows[y][x][c] == f[i]);
            }
            assert(v.pixel(x, y).len() == n);
            assert(rv.rows[y][x] =~= v.rows[y][x]);
        }
        assert(rv.rows[y] =~= v.rows[y]);
    }
    assert(rv.rows =~= v.rows);
}

/// Two well-formed buffers of the same shape with the same view are equal.
pub proof fn lemma_raster_injective(
    s1: Seq<u16>,
    s2: Seq<u16>,
    width: nat,
    height: nat,
    channels: Channels,
    depth: Depth,
)
    requires
        raster_wf(s1, width, height, channels, depth),
        raster_wf(s2, width, height, channels, depth),
        raster_rows(s1, width, height, channels.count()) == raster_rows(
            s2,
            width,
            height,
            channels.count(),
        ),
    ensures
        s1 == s2,
{
    lemma_flat_of_raster(s1, width, height, channels, depth);
    lemma_flat_of_raster(s2, width, height, channels, depth);
}

/// A flat buffer renders, in row-major order, the first `upto` pixels that
/// `expected` gives by column and row.
pub open spec fn renders(
    samples: Seq<u16>,
    n: nat,
    width: nat,
    upto: int,
    expected: spec_fn(int, int) -> Seq<u16>,
) -> bool {
    &&& samples.len() == upto * n
    &&& forall|x: int, y: int|
        0 <= x < width && 0 <= y && pixel_index(width as int, x, y) < upto ==> #[trigger] pixel_of(
            samples,
            n as int,
            pixel_index(width as int, x, y),
        ) == expected(x, y)
}

pub proof fn lemma_pixel_index_bounds(w: int, h: int, x: int, y: int)
    requires
        0 <= x < w,
        0 <= y < h,
    ensures
        0 <= pixel_index(w, x, y) < w * h,
        pixel_index(w, x, y) + 1 <= w * h,
{
    assert(0 <= y * w) by (nonlinear_arith)
        requires
            0 <= y,
            0 <= w,
    ;
    assert((y + 1) * w <= h * w) by (nonlinear_arith)
        requires
            y + 1 <= h,
            0 <= w,
    ;
    assert((y + 1) * w == y * w + w) by (nonlinear_arith);
    assert(w * h == h * w) by (nonlinear_arith);
}

pub proof fn lemma_pixel_index_injective(w: int, x1: int, y1: int, x2: int, y2: int)
    requires
        0 <= x1 < w,
        0 <= x2 < w,
        0 <= y1,
        0 <= y2,
        pixel_index(w, x1, y1) == pixel_index(w, x2, y2),
    ensures
        x1 == x2,
        y1 == y2,
{
    if y1 < y2 {
        assert((y1 + 1) * w <= y2 * w) by (nonlinear_arith)
            requires
                y1 + 1 <= y2,
                0 <= w,
        ;
        assert((y1 + 1) * w == y1 * w + w) by (nonlinear_arith);
    } else if y2 < y1 {
        assert((y2 + 1) * w <= y1 * w) by (nonlinear_arith)
            requires
                y2 + 1 <= y1,
                0 <= w,
        ;
        assert((y2 + 1) * w == y2 * w + w) by (nonlinear_arith);
    }
}

pub proof fn lemma_next_row(w: int, y: int)
    ensures
        pixel_index(w, w, y) == pixel_index(w, 0, y + 1),
{
    assert((y + 1) * w == y * w + w) by (nonlinear_arith);
}

/// The samples of pixel `p` lie inside a buffer of `total` pixels.
pub proof fn lemma_sample_range(n: int, p: int, total: int)
    requires
        0 <= p < total,
        0 <= n,
    ensures
        0 <= p * n,
        p * n + n <= total * n,
{
    assert(0 <= p * n) by (nonlinear_arith)
        requires
            0 <= p,
            0 <= n,
    ;
    assert((p + 1) * n <= total * n) by (nonlinear_arith)
        requires
            p + 1 <= total,
            0 <= n,
    ;
    assert((p + 1) * n == p * n + n) by (nonlinear_arith);
}

pub proof fn lemma_dims_product(w: int, h: int, n: int)
    ensures
        w * h * n == (w * h) * n,
        (w * h) * n == (h * w) * n,
{
    assert(w * h == h * w) by (nonlinear_arith);
}

/// The empty buffer renders nothing yet.
pub proof fn lemma_renders_empty(n: nat, width: nat, expected: spec_fn(int, int) -> Seq<u16>)
    ensures
        renders(Seq::<u16>::empty(), n, width, pixel_index(width as int, 0, 0), expected),
{
    assert forall|x: int, y: int|
        0 <= x < width && 0 <= y implies pixel_index(width as int, x, y) >= 0 by {
        assert(y * width >= 0) by (nonlinear_arith)
            requires
                0 <= y,
        ;
    }
}

/// Appending the next expected pixel extends what a buffer renders.
pub proof fn lemma_renders_push(
    samples: Seq<u16>,
    n: nat,
    width: nat,
    x: int,
    y: int,
    px: Seq<u16>,
    expected: spec_fn(int, int) -> Seq<u16>,
)
    requires
        renders(samples, n, width, pixel_index(width as int, x, y), expected),
        0 <= x < width,
        0 <= y,
        px == expected(x, y),
        px.len() == n,
    ensures
        renders(samples + px, n, width, pixel_index(width as int, x, y) + 1, expected),
{
    let cur = pixel_index(width as int, x, y);
    let w = width as int;
    let s2 = samples + px;
    assert(0 <= cur) by (nonlinear_arith)
        requires
            0 <= x,
            0 <= y,
            0 <= w,
            cur == y * w + x,
    ;
    assert(s2.len() == (cur + 1) * n) by (nonlinear_arith)
        requires
            s2.len() == samples.len() + px.len(),
            samples.len() == cur * n,
            px.len() == n,
    ;
    assert forall|xx: int, yy: int|
        0 <= xx < width && 0 <= yy && pixel_index(w, xx, yy) < cur + 1 implies #[trigger] pixel_of(
        s2,
        n as int,
        pixel_index(w, xx, yy),
    ) == expected(xx, yy) by {
        let q = pixel_index(w, xx, yy);
        assert(0 <= q) by (nonlinear_arith)
            requires
                0 <= xx,
                0 <= yy,
                0 <= w,
                q == yy * w + xx,
        ;
        if q < cur {
            lemma_sample_range(n as int, q, cur);
            assert(pixel_of(s2, n as int, q) =~= pixel_of(samples, n as int, q));
        } else {
            lemma_pixel_index_injective(w, xx, yy, x, y);
            assert(pixel_of(s2, n as int, q) =~= px);
        }
    }
}

/// A buffer that renders every pixel of a `width` by `height` raster has, as
/// its rows, the expected pixels.
pub proof fn lemma_renders_rows(
    samples: Seq<u16>,
    n: nat,
    width: nat,
    height: nat,
    expected: spec_fn(int, int) -> Seq<u16>,
)
    requires
        renders(samples, n, width, pixel_index(width as int, 0, height as int), expected),
    ensures
        raster_rows(samples, width, height, n) =~~= Seq::new(
            height,
            |y: int| Seq::new(width, |x: int| expected(x, y)),
        ),
{
    let w = width as int;
    let h = height as int;
    assert forall|y: int, x: int| 0 <= y < h && 0 <= x < w implies #[trigger] raster_rows(
        samples,
        width,
        height,
        n,
    )[y][x] == expected(x, y) by {
        lemma_pixel_index_bounds(w, h, x, y);
        lemma_next_row(w, h - 1);
        assert(pixel_index(w, 0, h) == w * h) by (nonlinear_arith);
        assert(pixel_of(samples, n as int, pixel_index(w, x, y)) == expected(x, y));
    }
}

/// A well-formed flat buffer has a well-formed view.
pub proof fn lemma_raster_view_wf(
    samples: Seq<u16>,
    width: nat,
    height: nat,
    channels: Channels,
    depth: Depth,
)
    requires
        raster_wf(samples, width, height, channels, depth),
        width <= u32::MAX,
        height <= u32::MAX,
    ensures
        raster_view(samples, width, height, channels, depth).wf(),
{
    let v = raster_view(samples, width, height, channels, depth);
    let w = width as int;
    let h = height as int;
    let n = channels.count() as int;
    lemma_dims_product(w, h, n);
    assert forall|x: int, y: int| 0 <= x < w && 0 <= y < h implies #[trigger] v.pixel(x, y).len()
        == n by {
        lemma_pixel_index_bounds(w, h, x, y);
        lemma_sample_range(n, pixel_index(w, x, y), w * h);
    }
    assert forall|x: int, y: int, c: int|
        0 <= x < w && 0 <= y < h && 0 <= c < n implies #[trigger] v.pixel(x, y)[c]
        <= v.depth.max_sample() by {
        lemma_pixel_index_bounds(w, h, x, y);
        lemma_sample_range(n, pixel_index(w, x, y), w * h);
        let p = pixel_index(w, x, y);
        assert(v.pixel(x, y)[c] == samples[p * n + c]);
    }
}

/// Appends all of `src` to `dst`.
pub fn append_samples(dst: &mut Vec<u16>, src: &Vec<u16>)
    ensures
        final(dst)@ == old(dst)@ + src@,
{
    let mut i: usize = 0;
    while i < src.len()
        invariant
            i <= src.len(),
            dst@ == old(dst)@ + src@.subrange(0, i as int),
        decreases src.len() - i,
    {
        dst.push(src[i]);
        i += 1;
        assert(dst@ =~= old(dst)@ + src@.subrange(0, i as int));
    }
    assert(src@.subrange(0, i as int) =~= src@);
}

#[derive(Debug)]
/// An image: `width` by `height` pixels of `channels`, stored row-major as
/// samples of `depth` bits.
pub struct Image {
    pub(crate) width: u32,
    pub(crate) height: u32,
    pub(crate) channels: Channels,
    pub(crate) depth: Depth,
    pub(crate) samples: Vec<u16>,
}

impl Clone for Image {
    fn clone(&self) -> (r: Self)
        ensures
            r@ == self@,
    {
        proof {
            use_type_invariant(self);
        }
        let samples = self.samples.clone();
        assert(samples@ =~= self.samples@);
        Image {
            width: self.width,
            height: self.height,
            channels: self.channels,
            depth: self.depth,
            samples,
        }
    }
}

impl View for Image {
    type V = ImageView;

    closed spec fn view(&self) -> ImageView {
        raster_view(
            self.samples@,
            self.width as nat,
            self.height as nat,
            self.channels,
            self.depth,
        )
    }
}

impl Image {
    #[verifier::type_invariant]
    closed spec fn inv(self) -> bool {
        raster_wf(
            self.samples@,
            self.width as nat,
            self.height as nat,
            self.channels,
            self.depth,
        )
    }

    /// Builds an image from its row-major samples; `None` unless there are
    /// exactly `width * height * channels` samples, each within the depth.
    pub fn new(width: u32, height: u32, channels: Channels, depth: Depth, samples: Vec<u16>) -> (r:
        Option<Image>)
        ensures
            r is Some <==> raster_wf(samples@, width as nat, height as nat, channels, depth),
            r matches Some(img) ==> img@.wf() && img@ == raster_view(
                samples@,
                width as nat,
                height as nat,
                channels,
                depth,
            ),
    {
        let n = channels.channel_count();
        let max = depth.sample_max();
        let wide_w = width as u128;
        let wide_h = height as u128;
        assert(wide_w * wide_h <= 0x1_0000_0000_0000_0000u128) by (nonlinear_arith)
            requires
                wide_w <= 0x1_0000_0000u128,
                wide_h <= 0x1_0000_0000u128,
        ;
        let pixels: u128 = wide_w * wide_h;
        let total: u128 = pixels * (n as u128);
        proof {
            lemma_dims_product(width as int, height as int, n as int);
        }
        if total != samples.len() as u128 {
            return None;
        }
        let mut i: usize = 0;
        while i < samples.len()
            invariant
                i <= samples.len(),
                max == depth.max_sample(),
                forall|j: int| 0 <= j < i ==> #[trigger] samples@[j] <= max,
            decreases samples.len() - i,
        {
            if samples[i] > max {
                return None;
            }
            i += 1;
        }
        proof {
            lemma_raster_view_wf(samples@, width as nat, height as nat, channels, depth);
        }
        Some(Image { width, height, channels, depth, samples })
    }

    /// The view of every image is well formed.
    pub fn well_formed(&self)
        ensures
            self@.wf(),
    {
        proof {
            use_type_invariant(self);
            lemma_raster_view_wf(
                self.samples@,
                self.width as nat,
                self.height as nat,
                self.channels,
                self.depth,
            );
        }
    }

    /// Assembles an image from a buffer already known to fit.
    pub(crate) fn from_raster(
        width: u32,
        height: u32,
        channels: Channels,
        depth: Depth,
        samples: Vec<u16>,
    ) -> (img: Image)
        requires
            raster_wf(samples@, width as nat, height as nat, channels, depth),
        ensures
            img@ == raster_view(samples@, width as nat, height as nat, channels, depth),
            img@.wf(),
    {
        proof {
            lemma_raster_view_wf(samples@, width as nat, height as nat, channels, depth);
        }
        Image { width, height, channels, depth, samples }
    }

    pub fn width(&self) -> (w: u32)
        ensures
            w == self@.width,
    {
        self.width
    }

    pub fn height(&self) -> (h: u32)
        ensures
            h == self@.height,
    {
        self.height
    }

    pub fn channels(&self) -> (c: Channels)
        ensures
            c == self@.channels,
    {
        self.channels
    }

    pub fn depth(&self) -> (d: Depth)
        ensures
            d == self@.depth,
    {
        self.depth
    }

    /// The row-major samples of the image.
    pub fn samples(&self) -> (s: &Vec<u16>)
        ensures
            raster_wf(s@, self@.width, self@.height, self@.channels, self@.depth),
            raster_view(s@, self@.width, self@.height, self@.channels, self@.depth) == self@,
            s@ == flat_samples(self@),
    {
        proof {
            use_type_invariant(self);
            lemma_flat_of_raster(
                self.samples@,
                self.width as nat,
                self.height as nat,
                self.channels,
                self.depth,
            );
        }
        &self.samples
    }

    /// The samples of the pixel at column `x` of row `y`.
    pub fn pixel(&self, x: u32, y: u32) -> (p: Vec<u16>)
        requires
            x < self@.width,
            y < self@.height,
        ensures
            p@ == self@.pixel(x as int, y as int),
    {
        proof {
            use_type_invariant(self);
        }
        let n = self.channels.channel_count();
        let w = self.width as usize;
        let ghost total = (self.width as int) * (self.height as int);
        proof {
            lemma_pixel_index_bounds(self.width as int, self.height as int, x as int, y as int);
            lemma_dims_product(self.width as int, self.height as int, n as int);
            lemma_sample_range(n as int, pixel_index(self.width as int, x as int, y as int), total);
            assert(total <= total * n) by (nonlinear_arith)
                requires
                    n >= 1,
                    total >= 0,
            ;
            assert((y as int) * (w as int) <= pixel_index(w as int, x as int, y as int));
            assert(pixel_index(w as int, x as int, y as int) < self.samples.len());
        }
        let idx = (y as usize) * w + (x as usize);
        let start = idx * n;
        let mut out: Vec<u16> = Vec::new();
        let mut c: usize = 0;
        while c < n
            invariant
                c <= n,
                start + n <= self.samples.len(),
                out@ == self.samples@.subrange(start as int, start + c),
            decreases n - c,
        {
            out.push(self.samples[start + c]);
            c += 1;
            assert(out@ =~= self.samples@.subrange(start as int, start + c));
        }
        out
    }
}

} // verus!
