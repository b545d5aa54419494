//! The framebuffer and the sample-accumulation renderer.

use vstd::prelude::*;
use vstd::pervasive::VecAdditionalExecFns;
use crate::{FP_ONE, Color, antialiasing, ray_color, lemma_gamma_black};
use crate::fixed::{tdiv_i128, lemma_tdiv_basics, lemma_tdiv_upper};
use crate::camera::Camera;
use crate::hittable::HittableList;
use crate::sampling::random_fraction;

verus! {

/// The image under construction: pixel dimensions, sampling parameters
/// and the flat byte framebuffer (3 bytes per pixel, row-major).
pub struct Image {
    pub width: usize,
    pub height: usize,
    pub samples_per_pixel: u32,
    pub max_depth: u32,
    pub pixels: Vec<u8>,
}

/// The decimal digits of a nonnegative number, as ASCII bytes.
pub open spec fn dec_digits(n: int) -> Seq<u8>
    decreases n,
{
    if n < 10 {
        seq![(48 + n) as u8]
    } else {
        dec_digits(n / 10).push((48 + n % 10) as u8)
    }
}

/// The bytes of a binary PPM header for the given dimensions:
/// `P6\n{width} {height}\n255\n`.
pub open spec fn ppm_header_v(w: int, h: int) -> Seq<u8> {
    seq![80u8, 54u8, 10u8] + dec_digits(w) + seq![32u8] + dec_digits(h) + seq![
        10u8,
        50u8,
        53u8,
        53u8,
        10u8,
    ]
}

/// The decimal digits of `n`, as ASCII bytes.
fn dec_bytes(n: u64) -> (r: Vec<u8>)
    ensures
        r@ == dec_digits(n as int),
    decreases n,
{
    if n < 10 {
        let mut v: Vec<u8> = Vec::new();
        v.push(48 + (n as u8));
        proof {
            assert(v@ =~= dec_digits(n as int));
        }
        v
    } else {
        let mut v = dec_bytes(n / 10);
        v.push(48 + ((n % 10) as u8));
        v
    }
}

impl Image {
    /// A well-formed image: both dimensions and the sample count in the
    /// renderer's working ranges, and a fully allocated framebuffer.
    pub open spec fn wf(self) -> bool {
        &&& 2 <= self.width <= 0x4000
        &&& 2 <= self.height <= 0x4000
        &&& 1 <= self.samples_per_pixel <= 0x10000
        &&& self.pixels@.len() == 3 * self.width * self.height
    }

    /// Allocate a black image of the given dimensions and sampling
    /// parameters.
    pub fn new(width: usize, height: usize, samples_per_pixel: u32, max_depth: u32) -> (r: Image)
        requires
            2 <= width <= 0x4000,
            2 <= height <= 0x4000,
            1 <= samples_per_pixel <= 0x10000,
        ensures
            r.wf(),
            r.width == width,
            r.height == height,
            r.samples_per_pixel == samples_per_pixel,
            r.max_depth == max_depth,
            forall|k: int| 0 <= k < r.pixels@.len() ==> r.pixels@[k] == 0,
    {
        proof {
            assert((width as int) * (height as int) <= 0x1000_0000) by (nonlinear_arith)
                requires
                    0 <= width <= 0x4000,
                    0 <= height <= 0x4000,
            ;
            assert(3 * (width as int) * (height as int) == 3 * ((width as int) * (height as int)))
                by (nonlinear_arith);
        }
        let n = (3 * width) * height;
        proof {
            assert((3 * (width as int)) * (height as int) == 3 * ((width as int) * (
            height as int))) by (nonlinear_arith);
        }
        let mut pixels: Vec<u8> = Vec::new();
        let mut k: usize = 0;
        while k < n
            invariant
                0 <= k <= n,
                pixels@.len() == k,
                forall|i: int| 0 <= i < k ==> pixels@[i] == 0,
            decreases n - k,
        {
            pixels.push(0);
            k = k + 1;
        }
        Image { width, height, samples_per_pixel, max_depth, pixels }
    }

    /// The image as a binary PPM byte stream: the `P6` header followed by
    /// the raw framebuffer.
    pub fn ppm_bytes(&self) -> (r: Vec<u8>)
        requires
            self.wf(),
        ensures
            r@ == ppm_header_v(self.width as int, self.height as int) + self.pixels@,
    {
        let mut out: Vec<u8> = Vec::new();
        out.push(80);
        out.push(54);
        out.push(10);
        proof {
            assert(out@ =~= seq![80u8, 54u8, 10u8]);
        }
        let wd = dec_bytes(self.width as u64);
        let mut k: usize = 0;
        let wn = wd.len();
        while k < wn
            invariant
                0 <= k <= wn,
                wn == wd@.len(),
                out@ == seq![80u8, 54u8, 10u8] + wd@.take(k as int),
            decreases wn - k,
        {
            assert(wd@.take(k + 1) == wd@.take(k as int).push(wd@[k as int]));
            out.push(wd[k]);
            k = k + 1;
        }
        assert(wd@.take(wn as int) == wd@);
        out.push(32);
        let hd = dec_bytes(self.height as u64);
        let mut k2: usize = 0;
        let hn = hd.len();
        while k2 < hn
            invariant
                0 <= k2 <= hn,
                hn == hd@.len(),
                out@ == seq![80u8, 54u8, 10u8] + wd@ + seq![32u8] + hd@.take(k2 as int),
            decreases hn - k2,
        {
            assert(hd@.take(k2 + 1) == hd@.take(k2 as int).push(hd@[k2 as int]));
            out.push(hd[k2]);
            k2 = k2 + 1;
        }
        assert(hd@.take(hn as int) == hd@);
        out.push(10);
        out.push(50);
        out.push(53);
        out.push(53);
        out.push(10);
        let mut k3: usize = 0;
        let pn = self.pixels.len();
        while k3 < pn
            invariant
                0 <= k3 <= pn,
                pn == self.pixels@.len(),
                out@ == ppm_header_v(self.width as int, self.height as int) + self.pixels@.take(
                    k3 as int,
                ),
            decreases pn - k3,
        {
            assert(self.pixels@.take(k3 + 1) == self.pixels@.take(k3 as int).push(
                self.pixels@[k3 as int],
            ));
            out.push(self.pixels[k3]);
            k3 = k3 + 1;
        }
        assert(self.pixels@.take(pn as int) == self.pixels@);
        out
    }
}

/// Render one pixel: draw the jittered samples, integrate each, average,
/// gamma-correct and quantize.
fn render_pixel(
    camera: &Camera,
    world: &HittableList,
    width: usize,
    height: usize,
    samples_per_pixel: u32,
    max_depth: u32,
    i: usize,
    j: usize,
) -> (r: (u8, u8, u8))
    requires
        camera.wf(),
        world.wf(),
        2 <= width <= 0x4000,
        2 <= height <= 0x4000,
        1 <= samples_per_pixel <= 0x10000,
        i < width,
        j < height,
    ensures
        max_depth == 0 ==> r.0 == 0 && r.1 == 0 && r.2 == 0,
        max_depth > 0 && world@.len() == 0 ==> r.2 == 255,
{
    let mut sx: i64 = 0;
    let mut sy: i64 = 0;
    let mut sz: i64 = 0;
    let mut s: u32 = 0;
    while s < samples_per_pixel
        invariant
            camera.wf(),
            world.wf(),
            2 <= width <= 0x4000,
            2 <= height <= 0x4000,
            1 <= samples_per_pixel <= 0x10000,
            i < width,
            j < height,
            0 <= s <= samples_per_pixel,
            0 <= sx <= (s as int) * (FP_ONE as int),
            0 <= sy <= (s as int) * (FP_ONE as int),
            0 <= sz <= (s as int) * (FP_ONE as int),
            max_depth == 0 ==> sx == 0 && sy == 0 && sz == 0,
            max_depth > 0 && world@.len() == 0 ==> sz == (s as int) * (FP_ONE as int),
        decreases samples_per_pixel - s,
    {
        let ru = random_fraction();
        let rv = random_fraction();
        proof {
            lemma_tdiv_basics((i as int) * (FP_ONE as int) + ru, (width - 1) as int);
            lemma_tdiv_upper((i as int) * (FP_ONE as int) + ru, (width - 1) as int,
                2 * (FP_ONE as int));
            lemma_tdiv_basics((j as int) * (FP_ONE as int) + rv, (height - 1) as int);
            lemma_tdiv_upper((j as int) * (FP_ONE as int) + rv, (height - 1) as int,
                2 * (FP_ONE as int));
        }
        let u = tdiv_i128((i as i128) * 65536 + (ru as i128), (width - 1) as i128) as i64;
        let v = tdiv_i128((j as i128) * 65536 + (rv as i128), (height - 1) as i128) as i64;
        let ray = camera.shoot_ray(u, v);
        let c = ray_color(&ray, world, max_depth);
        proof {
            if max_depth > 0 && world@.len() == 0 {
                crate::lemma_sky_fully_blue(ray);
            }
        }
        sx = sx + c.x;
        sy = sy + c.y;
        sz = sz + c.z;
        s = s + 1;
    }
    let r = antialiasing(Color::new(crate::vec3::Vec3 { x: sx, y: sy, z: sz }), samples_per_pixel);
    proof {
        if max_depth == 0 {
            lemma_gamma_black(samples_per_pixel as int);
        }
        if max_depth > 0 && world@.len() == 0 {
            crate::lemma_gamma_full(samples_per_pixel as int);
        }
    }
    r
}

/// Render one row of pixels into a fresh byte row (3 bytes per pixel).
pub fn render_row(
    camera: &Camera,
    world: &HittableList,
    width: usize,
    height: usize,
    samples_per_pixel: u32,
    max_depth: u32,
    j: usize,
) -> (r: Vec<u8>)
    requires
        camera.wf(),
        world.wf(),
        2 <= width <= 0x4000,
        2 <= height <= 0x4000,
        1 <= samples_per_pixel <= 0x10000,
        j < height,
    ensures
        r@.len() == 3 * width,
        max_depth == 0 ==> forall|k: int| 0 <= k < r@.len() ==> r@[k] == 0,
        max_depth > 0 && world@.len() == 0 ==> forall|p: int|
            0 <= p < width ==> #[trigger] r@[3 * p + 2] == 255,
{
    let mut row: Vec<u8> = Vec::new();
    let mut i: usize = 0;
    while i < width
        invariant
            camera.wf(),
            world.wf(),
            2 <= width <= 0x4000,
            2 <= height <= 0x4000,
            1 <= samples_per_pixel <= 0x10000,
            j < height,
            0 <= i <= width,
            row@.len() == 3 * i,
            max_depth == 0 ==> forall|k: int| 0 <= k < row@.len() ==> row@[k] == 0,
            max_depth > 0 && world@.len() == 0 ==> forall|p: int|
                0 <= p < i ==> #[trigger] row@[3 * p + 2] == 255,
        decreases width - i,
    {
        let (pr, pg, pb) = render_pixel(camera, world, width, height, samples_per_pixel,
            max_depth, i, j);
        row.push(pr);
        row.push(pg);
        row.push(pb);
        i = i + 1;
    }
    row
}

/// Render the whole scene into the image's framebuffer, scanning rows
/// from the top of the image down; buffer row 0 holds the top scanline
/// (scanline `height - 1`), so the bytes serialize top-to-bottom.
pub fn render(image: &mut Image, camera: &Camera, world: &HittableList)
    requires
        old(image).wf(),
        camera.wf(),
        world.wf(),
        forall|k: int| 0 <= k < old(image).pixels@.len() ==> old(image).pixels@[k] == 0,
    ensures
        final(image).wf(),
        final(image).width == old(image).width,
        final(image).height == old(image).height,
        final(image).samples_per_pixel == old(image).samples_per_pixel,
        final(image).max_depth == old(image).max_depth,
        final(image).pixels@.len() == old(image).pixels@.len(),
        old(image).max_depth == 0 ==> forall|k: int|
            0 <= k < final(image).pixels@.len() ==> final(image).pixels@[k] == 0,
        old(image).max_depth > 0 && world@.len() == 0 ==> forall|r2: int, c2: int|
            0 <= r2 < old(image).height && 0 <= c2 < old(image).width
                ==> #[trigger] final(image).pixels@[3 * (r2 * (old(image).width as int) + c2) + 2]
                == 255,
{
    let width = image.width;
    let height = image.height;
    let samples_per_pixel = image.samples_per_pixel;
    let max_depth = image.max_depth;
    let mut jj: usize = 0;
    while jj < height
        invariant
            image.wf(),
            camera.wf(),
            world.wf(),
            image.width == width,
            image.height == height,
            image.samples_per_pixel == samples_per_pixel,
            image.max_depth == max_depth,
            2 <= width <= 0x4000,
            2 <= height <= 0x4000,
            1 <= samples_per_pixel <= 0x10000,
            0 <= jj <= height,
            image.pixels@.len() == 3 * width * height,
            max_depth == 0 ==> forall|k: int|
                0 <= k < image.pixels@.len() ==> image.pixels@[k] == 0,
            max_depth > 0 && world@.len() == 0 ==> forall|r2: int, c2: int|
                0 <= r2 < jj && 0 <= c2 < width ==> #[trigger] image.pixels@[3 * (r2 * (
                width as int) + c2) + 2] == 255,
        decreases height - jj,
    {
        let j = height - 1 - jj;
        let row = render_row(camera, world, width, height, samples_per_pixel, max_depth, j);
        proof {
            assert((jj as int) * (width as int) + (width as int) <= (height as int) * (
            width as int)) by (nonlinear_arith)
                requires
                    0 <= jj,
                    (jj as int) < height as int,
                    0 <= width,
            ;
            assert((height as int) * (width as int) == (width as int) * (height as int))
                by (nonlinear_arith);
            assert((jj as int) * (width as int) <= 0x1000_0000) by (nonlinear_arith)
                requires
                    0 <= jj <= 0x4000,
                    0 <= width <= 0x4000,
            ;
            assert(3 * (width as int) * (height as int) == 3 * ((width as int) * (height as int)))
                by (nonlinear_arith);
            assert((width as int) * (height as int) <= 0x1000_0000) by (nonlinear_arith)
                requires
                    0 <= width <= 0x4000,
                    0 <= height <= 0x4000,
            ;
        }
        // scanline j lands at buffer row jj: the top scanline comes first
        let base = 3 * (jj * width);
        let mut k: usize = 0;
        while k < 3 * width
            invariant
                image.wf(),
                image.width == width,
                image.height == height,
                image.samples_per_pixel == samples_per_pixel,
                image.max_depth == max_depth,
                2 <= width <= 0x4000,
                2 <= height <= 0x4000,
                0 <= jj < height,
                row@.len() == 3 * width,
                base == 3 * ((jj as int) * (width as int)),
                base + 3 * width <= image.pixels@.len(),
                image.pixels@.len() == 3 * width * height,
                image.pixels@.len() <= 0x3000_0000,
                0 <= k <= 3 * width,
                max_depth == 0 ==> forall|kk: int| 0 <= kk < row@.len() ==> row@[kk] == 0,
                max_depth == 0 ==> forall|kk: int|
                    0 <= kk < image.pixels@.len() ==> image.pixels@[kk] == 0,
                forall|m: int| 0 <= m < k ==> image.pixels@[base + m] == row@[m],
                max_depth > 0 && world@.len() == 0 ==> forall|p: int|
                    0 <= p < width ==> #[trigger] row@[3 * p + 2] == 255,
                max_depth > 0 && world@.len() == 0 ==> forall|r2: int, c2: int|
                    0 <= r2 < jj && 0 <= c2 < width ==> #[trigger] image.pixels@[3 * (r2 * (
                    width as int) + c2) + 2] == 255,
            decreases 3 * width - k,
        {
            let ghost snap = image.pixels@;
            image.pixels.set(base + k, row[k]);
            proof {
                if max_depth > 0 && world@.len() == 0 {
                    assert forall|r2: int, c2: int|
                        0 <= r2 < jj && 0 <= c2 < width implies #[trigger] image.pixels@[3 * (r2
                        * (width as int) + c2) + 2] == 255 by {
                        assert(r2 * (width as int) + c2 <= (jj as int) * (width as int) - 1)
                            by (nonlinear_arith)
                            requires
                                0 <= r2 <= jj - 1,
                                0 <= c2 < width,
                                width >= 1,
                        ;
                        assert(3 * (r2 * (width as int) + c2) + 2 < base) by (nonlinear_arith)
                            requires
                                r2 * (width as int) + c2 <= (jj as int) * (width as int) - 1,
                                base == 3 * ((jj as int) * (width as int)),
                        ;
                        assert(r2 * (width as int) + c2 < (height as int) * (width as int))
                            by (nonlinear_arith)
                            requires
                                0 <= r2 < height,
                                0 <= c2 < width,
                                width >= 1,
                        ;
                        assert(3 * (r2 * (width as int) + c2) + 2 < 3 * ((height as int) * (
                        width as int))) by (nonlinear_arith)
                            requires
                                r2 * (width as int) + c2 < (height as int) * (width as int),
                        ;
                        assert(3 * ((height as int) * (width as int)) == 3 * (width as int) * (
                        height as int)) by (nonlinear_arith);
                        assert(3 * (r2 * (width as int) + c2) + 2 != base + k);
                        assert(snap[3 * (r2 * (width as int) + c2) + 2] == 255);
                    }
                }
            }
            k = k + 1;
        }
        proof {
            if max_depth > 0 && world@.len() == 0 {
                assert forall|r2: int, c2: int|
                    0 <= r2 < jj + 1 && 0 <= c2 < width implies #[trigger] image.pixels@[3 * (r2
                    * (width as int) + c2) + 2] == 255 by {
                    assert(r2 * (width as int) + c2 < (height as int) * (width as int))
                        by (nonlinear_arith)
                        requires
                            0 <= r2 < height,
                            0 <= c2 < width,
                            width >= 1,
                    ;
                    assert(3 * (r2 * (width as int) + c2) + 2 < 3 * ((height as int) * (
                    width as int))) by (nonlinear_arith)
                        requires
                            r2 * (width as int) + c2 < (height as int) * (width as int),
                    ;
                    assert(3 * ((height as int) * (width as int)) == 3 * (width as int) * (
                    height as int)) by (nonlinear_arith);
                    if r2 == jj as int {
                        assert(3 * (r2 * (width as int) + c2) + 2 == base + (3 * c2 + 2))
                            by (nonlinear_arith)
                            requires
                                r2 == jj as int,
                                base == 3 * ((jj as int) * (width as int)),
                        ;
                        assert(0 <= 3 * c2 + 2 < 3 * width);
                        assert(image.pixels@[base + (3 * c2 + 2)] == row@[3 * c2 + 2]);
                    }
                }
            }
        }
        jj = jj + 1;
    }
}

} // verus!
