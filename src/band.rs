use crate::parameters::RenderParameters;
use vstd::arithmetic::div_mod::{lemma_fundamental_div_mod, lemma_mod_pos_bound};
use vstd::prelude::*;

verus! {

/// Byte `k` of pixel `p` in a run of pixels of `bpp` bytes each.
pub open spec fn pixel_byte(s: Seq<u8>, bpp: int, p: int, k: int) -> u8 {
    s[p * bpp + k]
}

/// The pixel that pixel `p` of a band is copied from when the first `computed`
/// pixels were computed and the rest mirror them: the pixel at `computed - 1`
/// holds the real axis and has no twin, so the twin of `computed - 1 + d` is
/// `computed - 1 - d`.
pub open spec fn mirror_source(computed: int, p: int) -> int {
    if p < computed {
        p
    } else {
        2 * computed - 2 - p
    }
}

/// The pixel of the computed band that ends up at pixel `p` of a band of
/// `pixels` pixels, after mirroring and, when `flip` is set, reversing the order
/// of the pixels.
pub open spec fn band_source(pixels: int, computed: int, flip: bool, p: int) -> int {
    mirror_source(computed, if flip { pixels - 1 - p } else { p })
}

/// How many pixels of a band must be computed for the rest to be mirror images:
/// all of them, or at least as many as the mirrored ones plus the axis pixel.
pub open spec fn mirrorable(pixels: int, computed: int) -> bool {
    1 <= computed <= pixels && (computed == pixels || 2 * computed >= pixels + 1)
}

/// `r` is the band `b` of `pixels` pixels of `bpp` bytes, with its first
/// `computed` pixels kept, the others mirrored, and the whole reversed pixel by
/// pixel when `flip` is set.
pub open spec fn is_finished_band(
    r: Seq<u8>,
    b: Seq<u8>,
    pixels: int,
    bpp: int,
    computed: int,
    flip: bool,
) -> bool {
    &&& r.len() == b.len()
    &&& forall|p: int, k: int|
        0 <= p < pixels && 0 <= k < bpp ==> #[trigger] pixel_byte(r, bpp, p, k) == pixel_byte(
            b,
            bpp,
            band_source(pixels, computed, flip, p),
            k,
        )
}

/// Index of the pixel on the real axis in a finished band.
pub open spec fn axis_pixel(pixels: int, computed: int, flip: bool) -> int {
    if flip {
        pixels - computed
    } else {
        computed - 1
    }
}

proof fn lemma_pixel_in_range(p: int, k: int, bpp: int, pixels: int)
    requires
        0 <= p < pixels,
        0 <= k < bpp,
    ensures
        0 <= p * bpp + k < pixels * bpp,
        0 <= p * bpp <= p * bpp + k,
{
    assert(0 <= p * bpp + k < pixels * bpp && 0 <= p * bpp) by (nonlinear_arith)
        requires 0 <= p < pixels, 0 <= k < bpp;
}

/// Copies each pixel past the first `computed` from its mirror image.
fn mirror_band(band: &mut Vec<u8>, pixels: usize, bpp: usize, computed: usize)
    requires
        old(band)@.len() == pixels * bpp,
        bpp > 0,
        mirrorable(pixels as int, computed as int),
    ensures
        is_finished_band(final(band)@, old(band)@, pixels as int, bpp as int, computed as int, false),
{
    let ghost b = band@;
    let total = band.len();
    let mut p: usize = computed;
    while p < pixels
        invariant
            computed <= p <= pixels,
            total == pixels * bpp,
            mirrorable(pixels as int, computed as int),
            bpp > 0,
            band@.len() == pixels * bpp,
            b.len() == pixels * bpp,
            forall|q: int, k: int|
                0 <= q < p && 0 <= k < bpp ==> #[trigger] pixel_byte(band@, bpp as int, q, k)
                    == pixel_byte(b, bpp as int, mirror_source(computed as int, q), k),
            forall|q: int, k: int|
                p <= q < pixels && 0 <= k < bpp ==> #[trigger] pixel_byte(band@, bpp as int, q, k)
                    == pixel_byte(b, bpp as int, q, k),
        decreases pixels - p,
    {
        let source: usize = computed - (p - computed) - 2;
        let mut k: usize = 0;
        while k < bpp
            invariant
                computed <= p < pixels,
                total == pixels * bpp,
                source == 2 * computed - 2 - p,
                source < computed,
                0 <= k <= bpp,
                band@.len() == pixels * bpp,
                b.len() == pixels * bpp,
                forall|q: int, j: int|
                    0 <= q < p && 0 <= j < bpp ==> #[trigger] pixel_byte(band@, bpp as int, q, j)
                        == pixel_byte(b, bpp as int, mirror_source(computed as int, q), j),
                forall|q: int, j: int|
                    p < q < pixels && 0 <= j < bpp ==> #[trigger] pixel_byte(band@, bpp as int, q, j)
                        == pixel_byte(b, bpp as int, q, j),
                forall|j: int|
                    0 <= j < k ==> #[trigger] pixel_byte(band@, bpp as int, p as int, j)
                        == pixel_byte(b, bpp as int, source as int, j),
                forall|j: int|
                    k <= j < bpp ==> #[trigger] pixel_byte(band@, bpp as int, p as int, j)
                        == pixel_byte(b, bpp as int, p as int, j),
            decreases bpp - k,
        {
            proof {
                lemma_pixel_in_range(source as int, k as int, bpp as int, pixels as int);
                lemma_pixel_in_range(p as int, k as int, bpp as int, pixels as int);
            }
            assert(pixel_byte(band@, bpp as int, source as int, k as int) == pixel_byte(
                b,
                bpp as int,
                source as int,
                k as int,
            ));
            let byte = band[source * bpp + k];
            let ghost before = band@;
            band.set(p * bpp + k, byte);
            proof {
                assert forall|q: int, j: int|
                    0 <= q < p && 0 <= j < bpp implies #[trigger] pixel_byte(band@, bpp as int, q, j)
                        == pixel_byte(b, bpp as int, mirror_source(computed as int, q), j) by {
                    lemma_pixel_distinct(q, j, p as int, k as int, bpp as int);
                    lemma_pixel_in_range(q, j, bpp as int, pixels as int);
                    assert(pixel_byte(before, bpp as int, q, j) == pixel_byte(
                        b,
                        bpp as int,
                        mirror_source(computed as int, q),
                        j,
                    ));
                }
                assert forall|q: int, j: int|
                    p < q < pixels && 0 <= j < bpp implies #[trigger] pixel_byte(band@, bpp as int, q, j)
                        == pixel_byte(b, bpp as int, q, j) by {
                    lemma_pixel_distinct(q, j, p as int, k as int, bpp as int);
                    lemma_pixel_in_range(q, j, bpp as int, pixels as int);
                    assert(pixel_byte(before, bpp as int, q, j) == pixel_byte(b, bpp as int, q, j));
                }
                assert forall|j: int|
                    0 <= j < bpp && j != k implies #[trigger] pixel_byte(band@, bpp as int, p as int, j)
                        == pixel_byte(before, bpp as int, p as int, j) by {
                    lemma_pixel_distinct(p as int, j, p as int, k as int, bpp as int);
                    lemma_pixel_in_range(p as int, j, bpp as int, pixels as int);
                }
            }
            k = k + 1;
        }
        p = p + 1;
    }
}

/// The band with the order of its pixels reversed and the bytes inside each
/// pixel kept in order.
fn reverse_pixels(band: &Vec<u8>, pixels: usize, bpp: usize) -> (r: Vec<u8>)
    requires
        band@.len() == pixels * bpp,
        bpp > 0,
    ensures
        r@.len() == band@.len(),
        forall|p: int, k: int|
            0 <= p < pixels && 0 <= k < bpp ==> #[trigger] pixel_byte(r@, bpp as int, p, k)
                == pixel_byte(band@, bpp as int, pixels - 1 - p, k),
{
    let total = band.len();
    let mut out: Vec<u8> = Vec::with_capacity(total);
    let mut p: usize = 0;
    while p < pixels
        invariant
            p <= pixels,
            bpp > 0,
            total == pixels * bpp,
            band@.len() == pixels * bpp,
            out@.len() == p * bpp,
            forall|q: int, j: int|
                0 <= q < p && 0 <= j < bpp ==> #[trigger] pixel_byte(out@, bpp as int, q, j)
                    == pixel_byte(band@, bpp as int, pixels - 1 - q, j),
        decreases pixels - p,
    {
        let source = pixels - 1 - p;
        let mut k: usize = 0;
        while k < bpp
            invariant
                p < pixels,
                source == pixels - 1 - p,
                k <= bpp,
                total == pixels * bpp,
                band@.len() == pixels * bpp,
                out@.len() == p * bpp + k,
                forall|q: int, j: int|
                    0 <= q < p && 0 <= j < bpp ==> #[trigger] pixel_byte(out@, bpp as int, q, j)
                        == pixel_byte(band@, bpp as int, pixels - 1 - q, j),
                forall|j: int|
                    0 <= j < k ==> #[trigger] pixel_byte(out@, bpp as int, p as int, j)
                        == pixel_byte(band@, bpp as int, source as int, j),
            decreases bpp - k,
        {
            proof {
                lemma_pixel_in_range(source as int, k as int, bpp as int, pixels as int);
                lemma_pixel_in_range(p as int, k as int, bpp as int, pixels as int);
            }
            let ghost before = out@;
            out.push(band[source * bpp + k]);
            proof {
                assert forall|q: int, j: int|
                    0 <= q < p && 0 <= j < bpp implies #[trigger] pixel_byte(out@, bpp as int, q, j)
                        == pixel_byte(band@, bpp as int, pixels - 1 - q, j) by {
                    lemma_pixel_distinct(q, j, p as int, k as int, bpp as int);
                    lemma_pixel_in_range(q, j, bpp as int, p as int);
                    assert(pixel_byte(before, bpp as int, q, j) == pixel_byte(
                        band@,
                        bpp as int,
                        pixels - 1 - q,
                        j,
                    ));
                }
                assert forall|j: int|
                    0 <= j < k + 1 implies #[trigger] pixel_byte(out@, bpp as int, p as int, j)
                        == pixel_byte(band@, bpp as int, source as int, j) by {
                    if j < k {
                        assert(pixel_byte(before, bpp as int, p as int, j) == pixel_byte(
                            band@,
                            bpp as int,
                            source as int,
                            j,
                        ));
                    }
                }
            }
            k = k + 1;
        }
        assert((p + 1) * bpp == p * bpp + bpp) by (nonlinear_arith);
        p = p + 1;
    }
    out
}

/// Completes one band of the pixel buffer, a column of the picture in which
/// the imaginary part varies from pixel to pixel.
///
/// On entry the first `computed` pixels of `band` hold their colors. When
/// `computed` is less than the whole band, the pixel at `computed - 1` lies on
/// the real axis and every later pixel is filled with a copy of its mirror
/// image across that axis. When `flip` is set, the order of the pixels is then
/// reversed, each pixel keeping the order of its own bytes.
pub fn finish_band(band: &mut Vec<u8>, parameters: &RenderParameters, computed: usize, flip: bool)
    requires
        old(band)@.len() == parameters.spec_band_len(),
        mirrorable(parameters.spec_y_resolution() as int, computed as int),
    ensures
        is_finished_band(
            final(band)@,
            old(band)@,
            parameters.spec_y_resolution() as int,
            parameters.spec_color_type().spec_bytes_per_pixel() as int,
            computed as int,
            flip,
        ),
{
    let pixels = parameters.y_resolution().to_usize();
    let bpp = parameters.color_type().bytes_per_pixel() as usize;
    let ghost b = band@;
    mirror_band(band, pixels, bpp, computed);
    if flip {
        let ghost mid = band@;
        let reversed = reverse_pixels(band, pixels, bpp);
        *band = reversed;
        proof {
            assert forall|p: int, k: int|
                0 <= p < pixels && 0 <= k < bpp implies #[trigger] pixel_byte(band@, bpp as int, p, k)
                    == pixel_byte(b, bpp as int, band_source(pixels as int, computed as int, true, p), k) by {
                assert(pixel_byte(mid, bpp as int, pixels - 1 - p, k) == pixel_byte(
                    b,
                    bpp as int,
                    mirror_source(computed as int, pixels - 1 - p),
                    k,
                ));
            }
        }
    }
}

/// Mirror symmetry of a band: once some pixels were mirrored, any two pixels at
/// the same distance from the real-axis pixel, on either side of it, are equal.
pub proof fn lemma_band_mirror_symmetry(
    r: Seq<u8>,
    b: Seq<u8>,
    pixels: int,
    bpp: int,
    computed: int,
    flip: bool,
)
    requires
        is_finished_band(r, b, pixels, bpp, computed, flip),
        mirrorable(pixels, computed),
        computed < pixels,
    ensures
        forall|p: int, q: int, k: int|
            0 <= p < pixels && 0 <= q < pixels && p + q == 2 * axis_pixel(pixels, computed, flip) && 0
                <= k < bpp ==> #[trigger] pixel_byte(r, bpp, p, k) == #[trigger] pixel_byte(r, bpp, q, k),
{
    assert forall|p: int, q: int, k: int|
        0 <= p < pixels && 0 <= q < pixels && p + q == 2 * axis_pixel(pixels, computed, flip) && 0 <= k
            < bpp implies #[trigger] pixel_byte(r, bpp, p, k) == #[trigger] pixel_byte(r, bpp, q, k) by {
        assert(band_source(pixels, computed, flip, p) == band_source(pixels, computed, flip, q));
    }
}

/// Every byte of a run of `pixels` pixels of `bpp` bytes is byte `k` of some
/// pixel `p`.
pub proof fn lemma_byte_of_pixel(i: int, pixels: int, bpp: int)
    requires
        bpp > 0,
        0 <= i < pixels * bpp,
    ensures
        0 <= i / bpp < pixels,
        0 <= i % bpp < bpp,
        i == (i / bpp) * bpp + i % bpp,
{
    lemma_fundamental_div_mod(i, bpp);
    lemma_mod_pos_bound(i, bpp);
    let p = i / bpp;
    let k = i % bpp;
    assert(0 <= p < pixels && p * bpp + k == i) by (nonlinear_arith)
        requires bpp * p + k == i, 0 <= i < pixels * bpp, 0 <= k < bpp;
}

/// A finished band is determined by the computed band and the way it was
/// finished: two bands finished from the same input are equal byte for byte.
pub proof fn lemma_finished_band_is_unique(
    r1: Seq<u8>,
    r2: Seq<u8>,
    b: Seq<u8>,
    pixels: int,
    bpp: int,
    computed: int,
    flip: bool,
)
    requires
        b.len() == pixels * bpp,
        bpp > 0,
        is_finished_band(r1, b, pixels, bpp, computed, flip),
        is_finished_band(r2, b, pixels, bpp, computed, flip),
    ensures
        r1 == r2,
{
    assert forall|i: int| 0 <= i < r1.len() implies r1[i] == r2[i] by {
        lemma_byte_of_pixel(i, pixels, bpp);
        assert(pixel_byte(r1, bpp, i / bpp, i % bpp) == pixel_byte(r2, bpp, i / bpp, i % bpp));
    }
    assert(r1 =~= r2);
}

proof fn lemma_pixel_distinct(q: int, j: int, p: int, k: int, bpp: int)
    requires
        0 <= j < bpp,
        0 <= k < bpp,
        q != p || j != k,
    ensures
        q * bpp + j != p * bpp + k,
{
    if q < p {
        assert(q * bpp + j < p * bpp + k) by (nonlinear_arith)
            requires q < p, 0 <= j < bpp, 0 <= k;
    } else if q > p {
        assert(q * bpp + j > p * bpp + k) by (nonlinear_arith)
            requires q > p, 0 <= j, 0 <= k < bpp;
    }
}

} // verus!
