//! Fixed-point arithmetic of the source-over blend on straight alpha.

use vstd::prelude::*;

verus! {

/// `n / 255` rounded to the nearest integer. No `n` lies halfway between two
/// multiples of 255, so the nearest one is unique.
pub open spec fn round_div_255(n: int) -> int {
    (2 * n + 255) / 510
}

/// The quotient of `n` by `d` with its fraction cut off, for `n` of either
/// sign and a positive `d`.
pub open spec fn trunc_div(n: int, d: int) -> int {
    if n >= 0 {
        n / d
    } else {
        -((-n) / d)
    }
}

/// One RGBA pixel with straight alpha.
#[derive(Clone, Copy, Debug, PartialEq, Eq, Structural)]
pub struct Pixel {
    pub r: u8,
    pub g: u8,
    pub b: u8,
    pub a: u8,
}

impl Pixel {
    /// The byte of the channel `c`, counted in the order red, green, blue,
    /// alpha.
    pub open spec fn channel(self, c: int) -> u8 {
        if c == 0 {
            self.r
        } else if c == 1 {
            self.g
        } else if c == 2 {
            self.b
        } else {
            self.a
        }
    }
}

/// The alpha with which a source pixel of alpha `sa` is drawn at `opacity`.
pub open spec fn source_alpha(sa: int, opacity: int) -> int {
    round_div_255(sa * opacity)
}

/// The alpha that is left when a source of effective alpha `sa` covers a
/// backdrop of alpha `ba`.
pub open spec fn result_alpha(sa: int, ba: int) -> int {
    sa + ba - round_div_255(ba * sa)
}

/// One colour channel of the blend: the backdrop's value moved towards the
/// source's by the share `sa / ra`.
pub open spec fn blend_channel(bc: int, sc: int, sa: int, ra: int) -> int {
    bc + trunc_div((sc - bc) * sa, ra)
}

/// `src` drawn over `dst` at `opacity`.
pub open spec fn blend(dst: Pixel, src: Pixel, opacity: u8) -> Pixel {
    let sa = source_alpha(src.a as int, opacity as int);
    let ra = result_alpha(sa, dst.a as int);
    if ra == 0 {
        Pixel { r: 0, g: 0, b: 0, a: 0 }
    } else {
        Pixel {
            r: blend_channel(dst.r as int, src.r as int, sa, ra) as u8,
            g: blend_channel(dst.g as int, src.g as int, sa, ra) as u8,
            b: blend_channel(dst.b as int, src.b as int, sa, ra) as u8,
            a: ra as u8,
        }
    }
}

/// The shift-and-add form agrees with the rounded quotient on every product
/// of two bytes.
pub proof fn lemma_shift_form_rounds(p: u32)
    requires
        p <= 65025,
    ensures
        ((((p + 128) as u32 >> 8) + (p + 128) as u32) as u32) >> 8 == (2 * p + 255) / 510,
{
    let t: u32 = (p + 128) as u32;
    let u: u32 = ((t >> 8) + t) as u32;
    let n: u32 = (2 * p + 255) as u32;
    assert(u >> 8 == n / 510) by (bit_vector)
        requires
            p <= 65025,
            t == (p + 128) as u32,
            u == ((t >> 8) + t) as u32,
            n == (2 * p + 255) as u32,
    ;
}

/// `round_div_255(n)` is the integer nearest to `n / 255`.
pub proof fn lemma_round_is_nearest(n: int)
    requires
        0 <= n,
    ensures
        -255 < 2 * (255 * round_div_255(n) - n) < 255,
{
    let r = round_div_255(n);
    assert(510 * r <= 2 * n + 255 < 510 * r + 510) by (nonlinear_arith)
        requires
            r == (2 * n + 255) / 510,
    ;
    assert((2 * n + 255) % 2 == 1) by (nonlinear_arith);
    assert((510 * r) % 2 == 0) by (nonlinear_arith);
}

/// The product of two bytes divided by 255 and rounded to nearest, computed
/// with shifts alone.
pub fn mul_un8(a: i32, b: i32) -> (r: i32)
    requires
        0 <= a <= 255,
        0 <= b <= 255,
    ensures
        r == round_div_255(a * b),
        0 <= r <= 255,
        r <= a,
        r <= b,
        -255 < 2 * (255 * r - a * b) < 255,
{
    assert(0 <= a * b <= 65025 && a * b <= 255 * a && a * b <= 255 * b) by (nonlinear_arith)
        requires
            0 <= a <= 255,
            0 <= b <= 255,
    ;
    let p: u32 = (a as u32) * (b as u32);
    let t: u32 = p + 0x80;
    assert(t >> 8 <= 255) by (bit_vector)
        requires
            t <= 65153,
    ;
    let r: u32 = ((t >> 8) + t) >> 8;
    proof {
        lemma_shift_form_rounds(p);
        lemma_round_is_nearest(p as int);
    }
    r as i32
}

/// One colour channel of the blend, for a backdrop value `bc`, a source value
/// `sc`, an effective source alpha `sa` and a result alpha `ra`.
pub fn mix_channel(bc: u8, sc: u8, sa: i32, ra: i32) -> (r: u8)
    requires
        0 <= sa <= ra <= 255,
        0 < ra,
    ensures
        r == blend_channel(bc as int, sc as int, sa as int, ra as int),
        bc <= sc ==> bc <= r <= sc,
        sc <= bc ==> sc <= r <= bc,
{
    let a: u32 = sa as u32;
    let d: u32 = ra as u32;
    if sc >= bc {
        let diff: u32 = (sc - bc) as u32;
        assert(0 <= diff * a <= diff * d && diff * a <= 255 * 255) by (nonlinear_arith)
            requires
                0 <= a <= d <= 255,
                0 <= diff <= 255,
        ;
        let q: u32 = (diff * a) / d;
        assert(q <= diff) by (nonlinear_arith)
            requires
                q == (diff * a) / (d as int),
                diff * a <= diff * d,
                0 < d,
                0 <= diff,
        ;
        assert((sc - bc) * sa == diff * a);
        (bc as u32 + q) as u8
    } else {
        let diff: u32 = (bc - sc) as u32;
        assert(0 <= diff * a <= diff * d && diff * a <= 255 * 255) by (nonlinear_arith)
            requires
                0 <= a <= d <= 255,
                0 <= diff <= 255,
        ;
        let q: u32 = (diff * a) / d;
        assert(q <= diff) by (nonlinear_arith)
            requires
                q == (diff * a) / (d as int),
                diff * a <= diff * d,
                0 < d,
                0 <= diff,
        ;
        assert(-((sc - bc) * sa) == diff * a) by (nonlinear_arith)
            requires
                diff == bc - sc,
                a == sa,
        ;
        assert((sc - bc) * sa <= 0) by (nonlinear_arith)
            requires
                sc < bc,
                0 <= sa,
        ;
        assert(q == 0 ==> trunc_div((sc - bc) * sa, ra as int) == 0);
        (bc as u32 - q) as u8
    }
}

/// `src` drawn over `dst` at `opacity`, channel by channel.
pub fn blend_pixel(dst: Pixel, src: Pixel, opacity: u8) -> (r: Pixel)
    ensures
        r == blend(dst, src, opacity),
        r.a == 0 ==> r.r == 0 && r.g == 0 && r.b == 0,
{
    let ba: i32 = dst.a as i32;
    let sa: i32 = mul_un8(src.a as i32, opacity as i32);
    let covered: i32 = mul_un8(ba, sa);
    let ra: i32 = sa + ba - covered;
    proof {
        lemma_result_alpha_bounds(sa as int, ba as int);
    }
    if ra == 0 {
        Pixel { r: 0, g: 0, b: 0, a: 0 }
    } else {
        Pixel {
            r: mix_channel(dst.r, src.r, sa, ra),
            g: mix_channel(dst.g, src.g, sa, ra),
            b: mix_channel(dst.b, src.b, sa, ra),
            a: ra as u8,
        }
    }
}

/// The result alpha lies between the larger of the two alphas and 255.
pub proof fn lemma_result_alpha_bounds(sa: int, ba: int)
    requires
        0 <= sa <= 255,
        0 <= ba <= 255,
    ensures
        sa <= result_alpha(sa, ba) <= 255,
        ba <= result_alpha(sa, ba),
{
    let m = round_div_255(ba * sa);
    assert(0 <= ba * sa && ba * sa <= 255 * ba && ba * sa <= 255 * sa && (255 - sa) * (255 - ba)
        >= 0 && (255 - sa) * (255 - ba) == 65025 - 255 * sa - 255 * ba + ba * sa)
        by (nonlinear_arith)
        requires
            0 <= sa <= 255,
            0 <= ba <= 255,
    ;
    lemma_round_is_nearest(ba * sa);
}

/// The alpha of a blend is the result alpha, which no source lowers, and a
/// blend of alpha 0 carries no colour.
pub proof fn lemma_blend_alpha(dst: Pixel, src: Pixel, opacity: u8)
    ensures
        blend(dst, src, opacity).a == result_alpha(
            source_alpha(src.a as int, opacity as int),
            dst.a as int,
        ),
        blend(dst, src, opacity).a >= dst.a,
        blend(dst, src, opacity).a == 0 ==> blend(dst, src, opacity) == (Pixel {
            r: 0,
            g: 0,
            b: 0,
            a: 0,
        }),
{
    let sa = source_alpha(src.a as int, opacity as int);
    assert(0 <= src.a as int * opacity as int <= 65025) by (nonlinear_arith)
        requires
            0 <= src.a <= 255,
            0 <= opacity <= 255,
    ;
    lemma_round_is_nearest(src.a as int * opacity as int);
    lemma_result_alpha_bounds(sa, dst.a as int);
}

/// Drawn at opacity 0, a source leaves a backdrop pixel as it is, provided the
/// backdrop pixel carries no colour under a zero alpha.
pub proof fn lemma_blend_zero_opacity(dst: Pixel, src: Pixel)
    requires
        dst.a == 0 ==> dst.r == 0 && dst.g == 0 && dst.b == 0,
    ensures
        blend(dst, src, 0) == dst,
{
    assert(src.a as int * 0 == 0);
    assert(source_alpha(src.a as int, 0) == 0);
    assert(dst.a as int * 0 == 0);
    assert(result_alpha(0, dst.a as int) == dst.a);
    assert((src.r as int - dst.r as int) * 0 == 0);
    assert((src.g as int - dst.g as int) * 0 == 0);
    assert((src.b as int - dst.b as int) * 0 == 0);
    if dst.a != 0 {
        assert(0int / (dst.a as int) == 0);
    }
}

/// Drawn at full opacity onto nothing, a source pixel comes out as it is,
/// provided it carries no colour under a zero alpha.
pub proof fn lemma_blend_onto_nothing(src: Pixel)
    requires
        src.a == 0 ==> src.r == 0 && src.g == 0 && src.b == 0,
    ensures
        blend(Pixel { r: 0, g: 0, b: 0, a: 0 }, src, 255) == src,
{
    let a = src.a as int;
    assert(round_div_255(a * 255) == a) by (nonlinear_arith)
        requires
            0 <= a <= 255,
    ;
    assert(0int * a == 0);
    assert(result_alpha(a, 0) == a);
    if a != 0 {
        lemma_trunc_div_cancels(src.r as int, a);
        lemma_trunc_div_cancels(src.g as int, a);
        lemma_trunc_div_cancels(src.b as int, a);
    }
}

/// A product divided by its positive factor leaves the other factor.
proof fn lemma_trunc_div_cancels(c: int, a: int)
    requires
        0 <= c,
        0 < a,
    ensures
        trunc_div((c - 0) * a, a) == c,
{
    assert((c * a) / a == c && c * a >= 0) by (nonlinear_arith)
        requires
            0 <= c,
            0 < a,
    ;
}

/// Drawn at full opacity, a source pixel of full alpha replaces the backdrop
/// pixel.
pub proof fn lemma_blend_opaque(dst: Pixel, src: Pixel)
    requires
        src.a == 255,
    ensures
        blend(dst, src, 255) == src,
{
    assert(source_alpha(255, 255) == 255);
    let ba = dst.a as int;
    assert(round_div_255(ba * 255) == ba) by (nonlinear_arith)
        requires
            0 <= ba <= 255,
    ;
    assert(result_alpha(255, ba) == 255);
    lemma_trunc_div_exact(src.r as int - dst.r as int);
    lemma_trunc_div_exact(src.g as int - dst.g as int);
    lemma_trunc_div_exact(src.b as int - dst.b as int);
}

/// A multiple of 255 divided by 255 leaves the multiplier, whatever its sign.
proof fn lemma_trunc_div_exact(d: int)
    ensures
        trunc_div(d * 255, 255) == d,
{
    assert((d * 255) / 255 == d) by (nonlinear_arith);
    assert((-(d * 255)) / 255 == -d) by (nonlinear_arith);
}

} // verus!
