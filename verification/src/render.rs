//! The recursive radiance integrator, the image header, and the sampling
//! loop that averages jittered camera rays into pixel lines.

use vstd::prelude::*;
use vstd::string::StringExecFns;
use crate::fixed::{
    SCALE, ORIGIN_LIMIT, DIR_LIMIT, EPS_T, T_LIMIT,
    tdiv, fmul, lemma_mul_bound, lemma_tdiv_cap,
};
use vstd::arithmetic::div_mod::lemma_div_multiples_vanish;
use crate::vec3::{Vec3, in_bound, sq_sum, normalizev};
use crate::color::{
    Color, valid_color, dec_rep, push_dec, encode, spec_encode_channel, newline_count,
    lemma_newline_count_add, lemma_newline_count_single, lemma_dec_rep_no_newline,
    lemma_pixel_line_newlines,
};
use crate::ray::Ray;
use crate::hittable::{HittableList, scene_wf, spec_scene_hit};
use crate::camera::{Camera, camera_wf};

verus! {

/// The background gradient: interpolate from white to sky blue by the
/// unit direction's height, `t = (y + 1) / 2`.
pub open spec fn spec_background(dir: Vec3) -> (int, int, int) {
    let u = normalizev(dir);
    let t = tdiv(u.y + SCALE, 2);
    (
        fmul(SCALE as int, SCALE - t) + fmul(500_000, t),
        fmul(SCALE as int, SCALE - t) + fmul(700_000, t),
        fmul(SCALE as int, SCALE - t) + fmul(SCALE as int, t),
    )
}

/// The recursive radiance estimate for one ray: black once the bounce
/// budget is spent, the material-tinted recursion on a hit, the background
/// gradient on a miss. A degenerate all-zero direction yields black
/// rather than an undefined normalization. The result is
/// always a valid color, and the depth-zero, miss and degenerate cases are
/// pinned exactly; what a hit returns depends on the material's draws.
pub fn ray_color(ray: &Ray, world: &HittableList, depth: u32, rng: &mut rand::rngs::StdRng) -> (c:
    Color)
    requires
        scene_wf(world.objects@),
        in_bound(ray.origin, ORIGIN_LIMIT as int),
        in_bound(ray.dir, DIR_LIMIT as int),
    ensures
        valid_color(c),
        depth == 0 ==> c.x == 0 && c.y == 0 && c.z == 0,
        depth > 0 && ray.dir.x == 0 && ray.dir.y == 0 && ray.dir.z == 0 ==> c.x == 0 && c.y == 0
            && c.z == 0,
        depth > 0 && !(ray.dir.x == 0 && ray.dir.y == 0 && ray.dir.z == 0) && spec_scene_hit(
            world.objects@,
            *ray,
            EPS_T as int,
            T_LIMIT as int,
        ) is None ==> (c.x as int, c.y as int, c.z as int) == spec_background(ray.dir),
    decreases depth,
{
    if depth == 0 {
        return Vec3::black();
    }
    if ray.dir.x == 0 && ray.dir.y == 0 && ray.dir.z == 0 {
        return Vec3::black();
    }
    let res = world.hit(ray, EPS_T, T_LIMIT);
    match res {
        Option::Some(rec) => {
            let mut attenuation: Color = Vec3::black();
            let scattered = rec.material.scatter(ray, &mut attenuation, &rec, rng);
            match scattered {
                Option::Some(sray) => {
                    let sub: Color = ray_color(&sray, world, depth - 1, rng);
                    proof {
                        lemma_mul_bound(attenuation.x as int, sub.x as int, 1_000_000int,
                            1_000_000int);
                        lemma_mul_bound(attenuation.y as int, sub.y as int, 1_000_000int,
                            1_000_000int);
                        lemma_mul_bound(attenuation.z as int, sub.z as int, 1_000_000int,
                            1_000_000int);
                        assert(attenuation.x * sub.x >= 0) by (nonlinear_arith)
                            requires attenuation.x >= 0, sub.x >= 0;
                        assert(attenuation.y * sub.y >= 0) by (nonlinear_arith)
                            requires attenuation.y >= 0, sub.y >= 0;
                        assert(attenuation.z * sub.z >= 0) by (nonlinear_arith)
                            requires attenuation.z >= 0, sub.z >= 0;
                        lemma_tdiv_cap(attenuation.x * sub.x, SCALE as int, 1_000_000int);
                        lemma_tdiv_cap(attenuation.y * sub.y, SCALE as int, 1_000_000int);
                        lemma_tdiv_cap(attenuation.z * sub.z, SCALE as int, 1_000_000int);
                    }
                    attenuation.mul(&sub)
                },
                Option::None => Vec3::black(),
            }
        },
        Option::None => {
            proof {
                assert(1 <= sq_sum(ray.dir)) by (nonlinear_arith)
                    requires !(ray.dir.x == 0 && ray.dir.y == 0 && ray.dir.z == 0);
            }
            let u: Vec3 = ray.dir().normalize();
            let t: i64 = (u.y + SCALE) / 2;
            let white: Color = Vec3::white();
            let sky: Color = Vec3::new(500_000, 700_000, SCALE);
            proof {
                lemma_mul_bound(SCALE as int, (SCALE - t) as int, 1_000_000int, 1_000_000int);
                lemma_mul_bound(500_000int, t as int, 500_000int, 1_000_000int);
                lemma_mul_bound(700_000int, t as int, 700_000int, 1_000_000int);
                lemma_mul_bound(SCALE as int, t as int, 1_000_000int, 1_000_000int);
                lemma_div_multiples_vanish((SCALE - t) as int, SCALE as int);
                assert(500_000 * (t as int) <= (t as int) * (SCALE as int)) by (nonlinear_arith)
                    requires t >= 0, SCALE as int >= 500_000;
                assert(700_000 * (t as int) <= (t as int) * (SCALE as int)) by (nonlinear_arith)
                    requires t >= 0, SCALE as int >= 700_000;
                assert((SCALE as int) * (t as int) <= (t as int) * (SCALE as int))
                    by (nonlinear_arith);
                assert(500_000 * (t as int) >= 0) by (nonlinear_arith)
                    requires t >= 0;
                assert(700_000 * (t as int) >= 0) by (nonlinear_arith)
                    requires t >= 0;
                assert((SCALE as int) * (t as int) >= 0) by (nonlinear_arith)
                    requires t >= 0;
                lemma_tdiv_cap(500_000 * (t as int), SCALE as int, t as int);
                lemma_tdiv_cap(700_000 * (t as int), SCALE as int, t as int);
                lemma_tdiv_cap((SCALE as int) * (t as int), SCALE as int, t as int);
            }
            white.scale(SCALE - t).add(&sky.scale(t))
        },
    }
}

/// The image header: `P3`, the dimensions, and the channel maximum.
pub open spec fn header_chars(w: int, h: int) -> Seq<char> {
    seq!['P', '3', '\n'] + dec_rep(w as nat) + seq![' '] + dec_rep(h as nat) + seq![
        '\n',
        '2',
        '5',
        '5',
        '\n',
    ]
}

/// Produce the header text for the given image size.
pub fn ppm_header(width: usize, height: usize) -> (r: String)
    ensures
        r@ == header_chars(width as int, height as int),
{
    let mut s: String = String::new();
    proof {
        reveal_strlit("P3\n");
    }
    s.append("P3\n");
    push_dec(&mut s, width as u64);
    proof {
        reveal_strlit(" ");
    }
    s.append(" ");
    push_dec(&mut s, height as u64);
    proof {
        reveal_strlit("\n255\n");
    }
    s.append("\n255\n");
    proof {
        assert(s@ =~= header_chars(width as int, height as int));
    }
    s
}

/// The header holds exactly three newlines: after the magic, the
/// dimensions, and the channel maximum.
pub proof fn lemma_header_newlines(w: int, h: int)
    requires
        w >= 0,
        h >= 0,
    ensures
        newline_count(header_chars(w, h)) == 3,
{
    reveal_with_fuel(newline_count, 7);
    let magic = seq!['P', '3', '\n'];
    let tail = seq!['\n', '2', '5', '5', '\n'];
    lemma_newline_count_single('P');
    lemma_newline_count_single(' ');
    lemma_newline_count_single('\n');
    assert(magic.drop_last() =~= seq!['P', '3']);
    assert(seq!['P', '3'].drop_last() =~= seq!['P']);
    assert(newline_count(magic) == 1);
    assert(tail.drop_last() =~= seq!['\n', '2', '5', '5']);
    assert(seq!['\n', '2', '5', '5'].drop_last() =~= seq!['\n', '2', '5']);
    assert(seq!['\n', '2', '5'].drop_last() =~= seq!['\n', '2']);
    assert(seq!['\n', '2'].drop_last() =~= seq!['\n']);
    assert(newline_count(tail) == 2);
    lemma_dec_rep_no_newline(w as nat);
    lemma_dec_rep_no_newline(h as nat);
    lemma_newline_count_add(magic, dec_rep(w as nat));
    lemma_newline_count_add(magic + dec_rep(w as nat), seq![' ']);
    lemma_newline_count_add(magic + dec_rep(w as nat) + seq![' '], dec_rep(h as nat));
    lemma_newline_count_add(magic + dec_rep(w as nat) + seq![' '] + dec_rep(h as nat), tail);
}

/// Render the scene: for every pixel, top row first, average the radiance
/// of jittered camera rays and append the encoded line. The result always
/// starts with the image header, and holds the header's three newlines
/// plus exactly one per pixel.
pub fn render(
    world: &HittableList,
    camera: &Camera,
    width: usize,
    height: usize,
    samples_per_pixel: usize,
    max_depth: u32,
    rng: &mut rand::rngs::StdRng,
) -> (out: String)
    requires
        scene_wf(world.objects@),
        camera_wf(*camera),
        2 <= width <= 10_000,
        2 <= height <= 10_000,
        1 <= samples_per_pixel <= 1_000_000_000,
    ensures
        header_chars(width as int, height as int).is_prefix_of(out@),
        newline_count(out@) == 3 + (width as int) * (height as int),
{
    let mut out: String = ppm_header(width, height);
    let ghost header: Seq<char> = out@;
    proof {
        lemma_header_newlines(width as int, height as int);
    }
    let mut j: usize = height;
    while j > 0
        invariant
            scene_wf(world.objects@),
            camera_wf(*camera),
            2 <= width <= 10_000,
            2 <= height <= 10_000,
            1 <= samples_per_pixel <= 1_000_000_000,
            j <= height,
            header == header_chars(width as int, height as int),
            header.is_prefix_of(out@),
            newline_count(out@) == 3 + (width as int) * ((height - j) as int),
        decreases j,
    {
        j = j - 1;
        let mut i: usize = 0;
        while i < width
            invariant
                scene_wf(world.objects@),
                camera_wf(*camera),
                2 <= width <= 10_000,
                2 <= height <= 10_000,
                1 <= samples_per_pixel <= 1_000_000_000,
                j < height,
                i <= width,
                header == header_chars(width as int, height as int),
                header.is_prefix_of(out@),
                newline_count(out@) == 3 + (width as int) * ((height - 1 - j) as int) + i as int,
            decreases width - i,
        {
            let mut pixel: Color = Vec3::black();
            let mut s: usize = 0;
            while s < samples_per_pixel
                invariant
                    scene_wf(world.objects@),
                    camera_wf(*camera),
                    2 <= width <= 10_000,
                    2 <= height <= 10_000,
                    1 <= samples_per_pixel <= 1_000_000_000,
                    j < height,
                    i < width,
                    s <= samples_per_pixel,
                    0 <= pixel.x <= (s as int) * 1_000_000,
                    0 <= pixel.y <= (s as int) * 1_000_000,
                    0 <= pixel.z <= (s as int) * 1_000_000,
                decreases samples_per_pixel - s,
            {
                let xi_u: i64 = crate::rng::random_fraction(rng);
                let xi_v: i64 = crate::rng::random_fraction(rng);
                proof {
                    assert((i as int) * 1_000_000 <= ((width - 1) as int) * 1_000_000)
                        by (nonlinear_arith)
                        requires i as int <= width as int - 1;
                    assert(((width - 1) as int) * 1_000_000 + 1_000_000
                        <= 2_000_000 * ((width - 1) as int)) by (nonlinear_arith)
                        requires width as int >= 2;
                    lemma_tdiv_cap(
                        (i as int) * 1_000_000 + xi_u as int,
                        (width - 1) as int,
                        2_000_000int,
                    );
                    assert((j as int) * 1_000_000 <= ((height - 1) as int) * 1_000_000)
                        by (nonlinear_arith)
                        requires j as int <= height as int - 1;
                    assert(((height - 1) as int) * 1_000_000 + 1_000_000
                        <= 2_000_000 * ((height - 1) as int)) by (nonlinear_arith)
                        requires height as int >= 2;
                    lemma_tdiv_cap(
                        (j as int) * 1_000_000 + xi_v as int,
                        (height - 1) as int,
                        2_000_000int,
                    );
                }
                let u: i64 = ((i as i64) * SCALE + xi_u) / ((width - 1) as i64);
                let v: i64 = ((j as i64) * SCALE + xi_v) / ((height - 1) as i64);
                let ray: Ray = camera.get_ray(u, v, rng);
                let c: Color = ray_color(&ray, world, max_depth, rng);
                pixel = pixel.add(&c);
                s = s + 1;
            }
            let line: String = encode(&pixel, samples_per_pixel);
            let ghost before: Seq<char> = out@;
            out.append(line.as_str());
            proof {
                assert(header.is_prefix_of(out@)) by {
                    assert(out@.subrange(0, header.len() as int) =~= header);
                }
                lemma_newline_count_add(before, line@);
                lemma_pixel_line_newlines(
                    spec_encode_channel(pixel.x as int, samples_per_pixel as int) as nat,
                    spec_encode_channel(pixel.y as int, samples_per_pixel as int) as nat,
                    spec_encode_channel(pixel.z as int, samples_per_pixel as int) as nat,
                );
            }
            i = i + 1;
        }
        proof {
            assert((width as int) * ((height - j) as int)
                == (width as int) * ((height - 1 - j) as int) + width as int)
                by (nonlinear_arith);
        }
    }
    out
}

} // verus!
