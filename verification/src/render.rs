//! The render driver: per-pixel jittered sampling, averaging, gamma-2
//! encoding, and row-major image assembly from the top row down.

use vstd::prelude::*;
use crate::camera::{get_ray_spec, Camera};
use crate::fx::{
    fx_clamp, fx_div, fx_sqrt, fx_div_spec, fx_sqrt_spec, lemma_div_bound_pos_divisor, SCALE,
};
use crate::hit::World;
use crate::integrator::{radiance_ok, ray_color};
use crate::ray::Ray;
use crate::rng::random_scalar;
use crate::vec3::{dot_wide, Vec3};

verus! {

/// One channel of the output pixel: the sample sum averaged over the
/// count, gamma-2 encoded by a square root, clamped to just below one,
/// and scaled to the 8-bit range.
pub open spec fn gamma_channel_spec(c: int, n: int) -> int {
    let avg = c / n;
    let g = fx_sqrt_spec(avg);
    let cl = if g > 65470 {
        65470
    } else {
        g
    };
    (cl * 256) / 65536
}

impl Vec3 {
    /// Encodes an accumulated colour into one output pixel. For any
    /// non-negative accumulated radiance and positive sample count, each
    /// encoded channel lies in `[0, 255]`.
    pub fn format_color(&self, samples_per_pixel: u32) -> (out: [u8; 3])
        requires
            self.x >= 0,
            self.y >= 0,
            self.z >= 0,
            samples_per_pixel >= 1,
        ensures
            out[0] == gamma_channel_spec(self.x as int, samples_per_pixel as int),
            out[1] == gamma_channel_spec(self.y as int, samples_per_pixel as int),
            out[2] == gamma_channel_spec(self.z as int, samples_per_pixel as int),
            0 <= out[0] <= 255,
            0 <= out[1] <= 255,
            0 <= out[2] <= 255,
    {
        let r = gamma_channel(self.x, samples_per_pixel);
        let g = gamma_channel(self.y, samples_per_pixel);
        let b = gamma_channel(self.z, samples_per_pixel);
        [r, g, b]
    }
}

/// Encodes one channel.
fn gamma_channel(c: i64, n: u32) -> (out: u8)
    requires
        c >= 0,
        n >= 1,
    ensures
        out == gamma_channel_spec(c as int, n as int),
        out <= 255,
{
    let avg = ((c as u64) / (n as u64)) as i64;
    proof {
        lemma_div_bound_pos_divisor(c as int, n as int, i64::MAX as int);
        vstd::arithmetic::div_mod::lemma_div_pos_is_pos(c as int, n as int);
    }
    let g = fx_sqrt(avg);
    let cl = fx_clamp(g, 0, 65470);
    ((cl as u64) * 256 / 65536) as u8
}

/// The fixed-point image-plane coordinate `(index + jitter) / (extent - 1)`.
pub open spec fn pixel_coord_spec(index: int, extent: int, jitter: int) -> int {
    fx_div_spec(index * (SCALE as int) + jitter, (extent - 1) * (SCALE as int))
}

/// A camera ray admissible for pixel `(i, j)` of a `width` by `height`
/// image: the ray the camera casts at jittered image-plane coordinates
/// of that pixel, for some lens-disk sample and shutter-time draw.
pub open spec fn admissible_pixel_ray(cam: Camera, i: int, j: int, width: int, height: int,
    r: Ray) -> bool {
    exists|du: int, dv: int, disk: Vec3, td: i64|
        {
            &&& 0 <= du < SCALE as int
            &&& 0 <= dv < SCALE as int
            &&& dot_wide(disk, disk) < (SCALE as int) * (SCALE as int)
            &&& disk.bounded(SCALE as int)
            &&& disk.z == 0
            &&& cam.time0 <= td < cam.time1
            &&& r == #[trigger] get_ray_spec(cam, pixel_coord_spec(i, width, du),
                pixel_coord_spec(j, height, dv), disk, td)
        }
}

/// The componentwise sum of a sequence of per-sample radiances.
pub open spec fn radiance_sum(cols: Seq<Vec3>) -> (int, int, int)
    decreases cols.len(),
{
    if cols.len() == 0 {
        (0int, 0int, 0int)
    } else {
        let rest = radiance_sum(cols.drop_last());
        (rest.0 + cols.last().x, rest.1 + cols.last().y, rest.2 + cols.last().z)
    }
}

/// The pixel is the gamma encoding of the averaged sum of `samples`
/// per-sample radiances, each of them guaranteed (as `radiance_ok`
/// states) for an admissible camera ray of pixel `(i, j)`. In
/// particular, when every admissible ray misses the whole world, every
/// sample is the sky gradient of its ray.
pub open spec fn pixel_ok(world: World, cam: Camera, i: int, j: int, width: int, height: int,
    samples: u32, depth: u32, px: [u8; 3]) -> bool {
    exists|rays: Seq<Ray>, cols: Seq<Vec3>|
        {
            &&& #[trigger] rays.len() == samples
            &&& #[trigger] cols.len() == samples
            &&& (forall|k: int|
                0 <= k < samples ==> admissible_pixel_ray(cam, i, j, width, height,
                    #[trigger] rays[k]))
            &&& (forall|k: int|
                0 <= k < samples ==> radiance_ok(world, rays[k], depth, #[trigger] cols[k]))
            &&& px[0] == gamma_channel_spec(radiance_sum(cols).0, samples as int)
            &&& px[1] == gamma_channel_spec(radiance_sum(cols).1, samples as int)
            &&& px[2] == gamma_channel_spec(radiance_sum(cols).2, samples as int)
        }
}

/// Renders one pixel: `samples` jittered rays through the pixel are
/// averaged and gamma-encoded. Pixel `(i, j)` counts columns from the
/// left and rows from the bottom, as the camera's image plane does.
pub fn render_pixel(
    world: &World,
    cam: &Camera,
    rng: &mut rand::rngs::StdRng,
    i: u32,
    j: u32,
    width: u32,
    height: u32,
    samples: u32,
    depth: u32,
) -> (px: [u8; 3])
    requires
        world.wf(),
        cam.wf(),
        world.time_window_ok(cam.time0 as int, cam.time1 as int),
        2 <= width <= 10000,
        2 <= height <= 10000,
        i < width,
        j < height,
        1 <= samples <= 65536,
    ensures
        pixel_ok(*world, *cam, i as int, j as int, width as int, height as int, samples,
            depth, px),
{
    let mut sum = Vec3 { x: 0, y: 0, z: 0 };
    let ghost mut rays_g: Seq<Ray> = Seq::empty();
    let ghost mut cols_g: Seq<Vec3> = Seq::empty();
    let mut k: u32 = 0;
    while k < samples
        invariant
            world.wf(),
            cam.wf(),
            world.time_window_ok(cam.time0 as int, cam.time1 as int),
            2 <= width <= 10000,
            2 <= height <= 10000,
            i < width,
            j < height,
            1 <= samples <= 65536,
            k <= samples,
            0 <= sum.x <= k * SCALE as int,
            0 <= sum.y <= k * SCALE as int,
            0 <= sum.z <= k * SCALE as int,
            rays_g.len() == k,
            cols_g.len() == k,
            forall|m: int|
                0 <= m < k ==> admissible_pixel_ray(*cam, i as int, j as int, width as int,
                    height as int, #[trigger] rays_g[m]),
            forall|m: int|
                0 <= m < k ==> radiance_ok(*world, rays_g[m], depth, #[trigger] cols_g[m]),
            radiance_sum(cols_g) == (sum.x as int, sum.y as int, sum.z as int),
        decreases samples - k,
    {
        let du = random_scalar(rng, 0, SCALE);
        let dv = random_scalar(rng, 0, SCALE);
        let u = pixel_coord(i, width, du);
        let v = pixel_coord(j, height, dv);
        let ray = cam.get_ray(rng, u, v);
        proof {
            assert forall|ix: int|
                0 <= ix < world.surfaces@.len() implies (
            #[trigger] world.surfaces@[ix]).time_ok(ray) by {
                assert(world.surfaces@[ix].time_window_ok(cam.time0 as int, cam.time1 as int));
            }
        }
        let c = ray_color(&ray, world, depth, rng);
        proof {
            assert((k + 1) * SCALE as int == k * SCALE as int + SCALE as int)
                by (nonlinear_arith);
            let (disk, td): (Vec3, i64) = choose|disk: Vec3, td: i64|
                {
                    &&& dot_wide(disk, disk) < (SCALE as int) * (SCALE as int)
                    &&& disk.bounded(SCALE as int)
                    &&& disk.z == 0
                    &&& cam.time0 <= td < cam.time1
                    &&& ray == get_ray_spec(*cam, u as int, v as int, disk, td)
                };
            assert(ray == get_ray_spec(*cam, pixel_coord_spec(i as int, width as int,
                du as int), pixel_coord_spec(j as int, height as int, dv as int), disk, td));
            assert(admissible_pixel_ray(*cam, i as int, j as int, width as int, height as int,
                ray));
            let old_cols = cols_g;
            rays_g = rays_g.push(ray);
            cols_g = cols_g.push(c);
            assert(cols_g.drop_last() =~= old_cols);
            assert(cols_g.last() == c);
            assert(radiance_sum(cols_g) == (sum.x + c.x, sum.y + c.y, sum.z + c.z));
        }
        sum = sum.add(c);
        k = k + 1;
    }
    let px = sum.format_color(samples);
    proof {
        assert(rays_g.len() == samples && cols_g.len() == samples && radiance_sum(cols_g) == (
        sum.x as int, sum.y as int, sum.z as int) && px[0] == gamma_channel_spec(
            radiance_sum(cols_g).0, samples as int) && px[1] == gamma_channel_spec(
            radiance_sum(cols_g).1, samples as int) && px[2] == gamma_channel_spec(
            radiance_sum(cols_g).2, samples as int));
        assert(pixel_ok(*world, *cam, i as int, j as int, width as int, height as int, samples,
            depth, px));
    }
    px
}

/// The fixed-point image-plane coordinate `(index + jitter) / (extent - 1)`,
/// which stays within `[0, 2]`.
fn pixel_coord(index: u32, extent: u32, jitter: i64) -> (c: i64)
    requires
        2 <= extent <= 10000,
        index < extent,
        0 <= jitter < SCALE,
    ensures
        c == pixel_coord_spec(index as int, extent as int, jitter as int),
        0 <= c <= 2 * SCALE as int,
{
    let num = (index as i64) * SCALE + jitter;
    let den = ((extent - 1) as i64) * SCALE;
    proof {
        vstd::arithmetic::div_mod::lemma_div_pos_is_pos(num * SCALE as int, den as int);
        assert((num as int) * (SCALE as int) < (den as int) * (2 * SCALE as int + 1))
            by (nonlinear_arith)
            requires
                0 <= num,
                num < (extent as int) * 65536,
                den == (extent as int - 1) * 65536,
                2 <= extent,
        ;
        vstd::arithmetic::div_mod::lemma_multiply_divide_lt(
            num * SCALE as int, den as int, 2 * SCALE as int + 1);
    }
    fx_div(num, den)
}

/// Renders the whole image in raster order: rows from the top of the
/// image down, columns left to right, one encoded pixel per entry.
pub fn render(
    world: &World,
    cam: &Camera,
    rng: &mut rand::rngs::StdRng,
    width: u32,
    height: u32,
    samples: u32,
    depth: u32,
) -> (img: Vec<[u8; 3]>)
    requires
        world.wf(),
        cam.wf(),
        world.time_window_ok(cam.time0 as int, cam.time1 as int),
        2 <= width <= 10000,
        2 <= height <= 10000,
        1 <= samples <= 65536,
    ensures
        img@.len() == width as int * height as int,
        forall|n: int|
            0 <= n < img@.len() ==> pixel_ok(*world, *cam, n % (width as int),
                height as int - 1 - n / (width as int), width as int, height as int, samples,
                depth, #[trigger] img@[n]),
{
    let mut img: Vec<[u8; 3]> = Vec::new();
    let mut row: u32 = 0;
    while row < height
        invariant
            world.wf(),
            cam.wf(),
            world.time_window_ok(cam.time0 as int, cam.time1 as int),
            2 <= width <= 10000,
            2 <= height <= 10000,
            1 <= samples <= 65536,
            row <= height,
            img@.len() == row * width,
            forall|n: int|
                0 <= n < img@.len() ==> pixel_ok(*world, *cam, n % (width as int),
                    height as int - 1 - n / (width as int), width as int, height as int,
                    samples, depth, #[trigger] img@[n]),
        decreases height - row,
    {
        let j = height - 1 - row;
        let mut i: u32 = 0;
        while i < width
            invariant
                world.wf(),
                cam.wf(),
                world.time_window_ok(cam.time0 as int, cam.time1 as int),
                2 <= width <= 10000,
                2 <= height <= 10000,
                1 <= samples <= 65536,
                row < height,
                j == height - 1 - row,
                i <= width,
                img@.len() == row * width + i,
                forall|n: int|
                    0 <= n < img@.len() ==> pixel_ok(*world, *cam, n % (width as int),
                        height as int - 1 - n / (width as int), width as int, height as int,
                        samples, depth, #[trigger] img@[n]),
            decreases width - i,
        {
            let px = render_pixel(world, cam, rng, i, j, width, height, samples, depth);
            proof {
                let idx = row * (width as int) + i;
                assert((width as int) * (row as int) == (row as int) * (width as int))
                    by (nonlinear_arith);
                vstd::arithmetic::div_mod::lemma_fundamental_div_mod_converse(
                    idx, width as int, row as int, i as int);
            }
            img.push(px);
            i = i + 1;
        }
        proof {
            assert((row + 1) * width == row * width + width) by (nonlinear_arith);
        }
        row = row + 1;
    }
    proof {
        assert(height * width == width * height) by (nonlinear_arith);
    }
    img
}

} // verus!
