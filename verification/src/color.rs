//! Colors are vectors: three fixed-point channels. Channels handed between
//! materials and the integrator stay in `[0, 1]`; accumulation across
//! samples may exceed one unit and is clamped at encoding time.

use vstd::prelude::*;
use vstd::string::StringExecFns;
use vstd::arithmetic::div_mod::lemma_fundamental_div_mod;
use crate::fixed::{SCALE, tdiv, sqrt_floor, isqrt_u128, clamp, lemma_mul_bound};
use crate::vec3::Vec3;

verus! {

pub type Color = Vec3;

/// Every channel lies in the unit interval.
pub open spec fn valid_color(c: Color) -> bool {
    &&& 0 <= c.x <= SCALE
    &&& 0 <= c.y <= SCALE
    &&& 0 <= c.z <= SCALE
}

/// The decimal digit `d` as a character.
pub open spec fn digit_char(d: int) -> char {
    if d == 0 {
        '0'
    } else if d == 1 {
        '1'
    } else if d == 2 {
        '2'
    } else if d == 3 {
        '3'
    } else if d == 4 {
        '4'
    } else if d == 5 {
        '5'
    } else if d == 6 {
        '6'
    } else if d == 7 {
        '7'
    } else if d == 8 {
        '8'
    } else {
        '9'
    }
}

/// The decimal digits of `n`, most significant first.
pub open spec fn dec_rep(n: nat) -> Seq<char>
    decreases n,
{
    if n < 10 {
        seq![digit_char(n as int)]
    } else {
        dec_rep(n / 10).push(digit_char((n % 10) as int))
    }
}

/// Append one decimal digit.
pub fn push_digit(s: &mut String, d: u8)
    requires
        d < 10,
    ensures
        final(s)@ == old(s)@ + seq![digit_char(d as int)],
{
    match d {
        0 => {
            proof { reveal_strlit("0"); }
            s.append("0");
        },
        1 => {
            proof { reveal_strlit("1"); }
            s.append("1");
        },
        2 => {
            proof { reveal_strlit("2"); }
            s.append("2");
        },
        3 => {
            proof { reveal_strlit("3"); }
            s.append("3");
        },
        4 => {
            proof { reveal_strlit("4"); }
            s.append("4");
        },
        5 => {
            proof { reveal_strlit("5"); }
            s.append("5");
        },
        6 => {
            proof { reveal_strlit("6"); }
            s.append("6");
        },
        7 => {
            proof { reveal_strlit("7"); }
            s.append("7");
        },
        8 => {
            proof { reveal_strlit("8"); }
            s.append("8");
        },
        _ => {
            proof { reveal_strlit("9"); }
            s.append("9");
        },
    }
    proof {
        assert(final(s)@ =~= old(s)@ + seq![digit_char(d as int)]);
    }
}

/// Append the decimal digits of `n`.
pub fn push_dec(s: &mut String, n: u64)
    ensures
        final(s)@ == old(s)@ + dec_rep(n as nat),
    decreases n,
{
    if n < 10 {
        push_digit(s, n as u8);
    } else {
        push_dec(s, n / 10);
        push_digit(s, (n % 10) as u8);
        proof {
            assert(final(s)@ =~= old(s)@ + dec_rep(n as nat));
        }
    }
}

/// How many newline characters a text holds.
pub open spec fn newline_count(s: Seq<char>) -> int
    decreases s.len(),
{
    if s.len() == 0 {
        0
    } else {
        newline_count(s.drop_last()) + if s.last() == '\n' {
            1int
        } else {
            0int
        }
    }
}

/// Newline counts add over concatenation.
pub proof fn lemma_newline_count_add(a: Seq<char>, b: Seq<char>)
    ensures
        newline_count(a + b) == newline_count(a) + newline_count(b),
    decreases b.len(),
{
    if b.len() == 0 {
        assert(a + b =~= a);
    } else {
        assert((a + b).drop_last() =~= a + b.drop_last());
        assert((a + b).last() == b.last());
        lemma_newline_count_add(a, b.drop_last());
    }
}

/// The newline count of a single character.
pub proof fn lemma_newline_count_single(c: char)
    ensures
        newline_count(seq![c]) == if c == '\n' {
            1int
        } else {
            0int
        },
{
    reveal_with_fuel(newline_count, 2);
    assert(seq![c].drop_last() =~= Seq::<char>::empty());
    assert(newline_count(Seq::<char>::empty()) == 0);
}

/// Decimal digits hold no newline.
pub proof fn lemma_dec_rep_no_newline(n: nat)
    ensures
        newline_count(dec_rep(n)) == 0,
    decreases n,
{
    if n < 10 {
        lemma_newline_count_single(digit_char(n as int));
    } else {
        lemma_dec_rep_no_newline(n / 10);
        let d = digit_char((n % 10) as int);
        assert(dec_rep(n / 10).push(d).drop_last() =~= dec_rep(n / 10));
        assert(dec_rep(n / 10).push(d).last() == d);
    }
}

/// A pixel line holds exactly one newline, the one at its end.
pub proof fn lemma_pixel_line_newlines(a: nat, b: nat, c: nat)
    ensures
        newline_count(
            dec_rep(a) + seq![' '] + dec_rep(b) + seq![' '] + dec_rep(c) + seq!['\n'],
        ) == 1,
{
    lemma_dec_rep_no_newline(a);
    lemma_dec_rep_no_newline(b);
    lemma_dec_rep_no_newline(c);
    lemma_newline_count_single(' ');
    lemma_newline_count_single('\n');
    lemma_newline_count_add(dec_rep(a), seq![' ']);
    lemma_newline_count_add(dec_rep(a) + seq![' '], dec_rep(b));
    lemma_newline_count_add(dec_rep(a) + seq![' '] + dec_rep(b), seq![' ']);
    lemma_newline_count_add(dec_rep(a) + seq![' '] + dec_rep(b) + seq![' '], dec_rep(c));
    lemma_newline_count_add(
        dec_rep(a) + seq![' '] + dec_rep(b) + seq![' '] + dec_rep(c),
        seq!['\n'],
    );
}

/// One channel's output byte: average over the samples, gamma-correct by
/// square root, clamp to `[0, 0.999]`, scale by 256 and truncate.
pub open spec fn spec_encode_channel(c: int, samples: int) -> int {
    let scaled = tdiv(c, samples);
    let g = sqrt_floor(scaled * SCALE);
    let cl = if g < 0 {
        0
    } else if g > 999_000 {
        999_000
    } else {
        g
    };
    tdiv(256 * cl, SCALE as int)
}

/// Compute one channel's byte.
fn encode_channel(c: i64, samples: usize) -> (r: u8)
    requires
        0 <= c,
        1 <= samples <= 1_000_000_000,
    ensures
        r as int == spec_encode_channel(c as int, samples as int),
{
    let scaled: i64 = c / (samples as i64);
    proof {
        lemma_mul_bound(scaled as int, 1_000_000int, 0x7fff_ffff_ffff_ffffint, 1_000_000int);
    }
    let g0: u64 = isqrt_u128((scaled as u128) * (SCALE as u128));
    proof {
        if g0 as int > 3_100_000_000_000int {
            assert((g0 as int) * (g0 as int) > 9_610_000_000_000_000_000_000_000int)
                by (nonlinear_arith)
                requires g0 as int > 3_100_000_000_000int;
        }
    }
    let g: i64 = g0 as i64;
    let cl: i64 = clamp(g, 0, 999_000);
    proof {
        lemma_fundamental_div_mod(256 * (cl as int), 1_000_000int);
    }
    let b: i64 = (256 * cl) / SCALE;
    b as u8
}

/// The textual line for one pixel: three bytes separated by spaces, with a
/// trailing newline, exactly as the image format expects.
pub fn encode(color: &Color, samples: usize) -> (r: String)
    requires
        0 <= color.x,
        0 <= color.y,
        0 <= color.z,
        1 <= samples <= 1_000_000_000,
    ensures
        r@ == dec_rep(spec_encode_channel(color.x as int, samples as int) as nat) + seq![' ']
            + dec_rep(spec_encode_channel(color.y as int, samples as int) as nat) + seq![' ']
            + dec_rep(spec_encode_channel(color.z as int, samples as int) as nat) + seq!['\n'],
{
    let ir: u8 = encode_channel(color.x, samples);
    let ig: u8 = encode_channel(color.y, samples);
    let ib: u8 = encode_channel(color.z, samples);
    let mut s: String = String::new();
    push_dec(&mut s, ir as u64);
    proof { reveal_strlit(" "); }
    s.append(" ");
    push_dec(&mut s, ig as u64);
    s.append(" ");
    push_dec(&mut s, ib as u64);
    proof { reveal_strlit("\n"); }
    s.append("\n");
    proof {
        assert(s@ =~= dec_rep(spec_encode_channel(color.x as int, samples as int) as nat)
            + seq![' '] + dec_rep(spec_encode_channel(color.y as int, samples as int) as nat)
            + seq![' '] + dec_rep(spec_encode_channel(color.z as int, samples as int) as nat)
            + seq!['\n']);
    }
    s
}

impl Vec3 {
    /// The absorbing color: all channels zero.
    pub fn black() -> (r: Color)
        ensures
            r.x == 0 && r.y == 0 && r.z == 0,
    {
        Vec3::origin()
    }

    /// Full intensity on every channel.
    pub fn white() -> (r: Color)
        ensures
            r.x == SCALE && r.y == SCALE && r.z == SCALE,
    {
        Vec3::new(SCALE, SCALE, SCALE)
    }
}

} // verus!
