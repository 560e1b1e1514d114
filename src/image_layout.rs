use crate::band::{
    axis_pixel,
    is_finished_band,
    lemma_band_mirror_symmetry,
    lemma_byte_of_pixel,
    mirrorable,
    pixel_byte,
};
use vstd::arithmetic::div_mod::{lemma_fundamental_div_mod, lemma_mod_pos_bound};
use crate::color_type::SupportedColorType;
use crate::parameters::RenderParameters;
use image::imageops::rotate270;
use image::{ImageBuffer, Luma, Rgb, Rgba};
use vstd::prelude::*;

verus! {

/// Relies on image::imageops::rotate270, with ImageBuffer::from_raw and
/// ImageBuffer::into_raw: the picture of `width` by `height` pixels stored row by
/// row in `data`, turned a quarter turn counter-clockwise, so that the pixel at
/// column `x` and row `y` moves to column `y` and row `width - 1 - x`.
#[verifier::external_body]
fn rotate_counterclockwise(
    data: Vec<u8>,
    width: u32,
    height: u32,
    color_type: SupportedColorType,
) -> (r: Vec<u8>)
    requires
        data@.len() == width * height * color_type.spec_bytes_per_pixel(),
    ensures
        r@.len() == data@.len(),
        forall|row: int, col: int, k: int|
            0 <= row < width && 0 <= col < height && 0 <= k < color_type.spec_bytes_per_pixel() ==> #[trigger] pixel_byte(
                r@,
                color_type.spec_bytes_per_pixel() as int,
                row * height + col,
                k,
            ) == pixel_byte(
                data@,
                color_type.spec_bytes_per_pixel() as int,
                col * width + (width - 1 - row),
                k,
            ),
{
    match color_type {
        SupportedColorType::L8 => rotate270(&ImageBuffer::<Luma<u8>, Vec<u8>>::from_raw(width, height, data).unwrap()).into_raw(),
        SupportedColorType::Rgb8 => rotate270(&ImageBuffer::<Rgb<u8>, Vec<u8>>::from_raw(width, height, data).unwrap()).into_raw(),
        SupportedColorType::Rgba8 => rotate270(&ImageBuffer::<Rgba<u8>, Vec<u8>>::from_raw(width, height, data).unwrap()).into_raw(),
    }
}

/// Turns the pixel buffer that the bands were rendered into into an image stored
/// row by row, top row first.
///
/// The buffer holds one band after the other, one for each column of the image
/// from left to right; each band holds the pixels of its column from the bottom
/// row up. So pixel `p` of band `col` becomes the pixel at column `col` of row
/// `y_resolution - 1 - p`.
pub fn reorient(parameters: &RenderParameters, buffer: Vec<u8>) -> (r: Vec<u8>)
    requires
        buffer@.len() == parameters.spec_buffer_len(),
    ensures
        r@.len() == buffer@.len(),
        forall|row: int, col: int, k: int|
            0 <= row < parameters.spec_y_resolution() && 0 <= col < parameters.spec_x_resolution()
                && 0 <= k < parameters.spec_color_type().spec_bytes_per_pixel() ==> #[trigger] pixel_byte(
                r@,
                parameters.spec_color_type().spec_bytes_per_pixel() as int,
                row * parameters.spec_x_resolution() + col,
                k,
            ) == pixel_byte(
                buffer@,
                parameters.spec_color_type().spec_bytes_per_pixel() as int,
                col * parameters.spec_y_resolution() + (parameters.spec_y_resolution() - 1 - row),
                k,
            ),
{
    let x = parameters.x_resolution().to_u32();
    let y = parameters.y_resolution().to_u32();
    let color_type = parameters.color_type();
    proof {
        let c = color_type.spec_bytes_per_pixel() as int;
        assert(x * (y * c) == y * x * c) by (nonlinear_arith);
    }
    rotate_counterclockwise(buffer, y, x, color_type)
}

/// `image` is the picture that the bands make, stored row by row, top row first:
/// band `col` is column `col`, and its pixel `p` is in row `y - 1 - p`.
pub open spec fn is_assembled(image: Seq<u8>, bands: Seq<Seq<u8>>, x: int, y: int, bpp: int) -> bool {
    &&& image.len() == x * y * bpp
    &&& forall|row: int, col: int, k: int|
        0 <= row < y && 0 <= col < x && 0 <= k < bpp ==> #[trigger] pixel_byte(image, bpp, row * x + col, k)
            == pixel_byte(bands[col], bpp, y - 1 - row, k)
}

/// The views of all bands.
pub open spec fn band_views(bands: Seq<Vec<u8>>) -> Seq<Seq<u8>> {
    bands.map_values(|b: Vec<u8>| b@)
}

/// Lays the bands one after the other.
fn join_bands(bands: &Vec<Vec<u8>>, band_len: usize) -> (r: Vec<u8>)
    requires
        forall|c: int| 0 <= c < bands@.len() ==> (#[trigger] bands@[c])@.len() == band_len,
        bands@.len() * band_len <= usize::MAX,
    ensures
        r@.len() == bands@.len() * band_len,
        forall|c: int, i: int|
            0 <= c < bands@.len() && 0 <= i < band_len ==> r@[c * band_len + i] == #[trigger] bands@[c]@[i],
{
    let mut out: Vec<u8> = Vec::new();
    let mut c: usize = 0;
    while c < bands.len()
        invariant
            c <= bands@.len(),
            bands@.len() * band_len <= usize::MAX,
            forall|d: int| 0 <= d < bands@.len() ==> (#[trigger] bands@[d])@.len() == band_len,
            out@.len() == c * band_len,
            forall|d: int, i: int|
                0 <= d < c && 0 <= i < band_len ==> out@[d * band_len + i] == #[trigger] bands@[d]@[i],
        decreases bands@.len() - c,
    {
        let band = &bands[c];
        let mut i: usize = 0;
        while i < band_len
            invariant
                c < bands@.len(),
                i <= band_len,
                band@ == bands@[c as int]@,
                band@.len() == band_len,
                out@.len() == c * band_len + i,
                forall|d: int, j: int|
                    0 <= d < c && 0 <= j < band_len ==> out@[d * band_len + j] == #[trigger] bands@[d]@[j],
                forall|j: int| 0 <= j < i ==> out@[c * band_len + j] == #[trigger] band@[j],
            decreases band_len - i,
        {
            let ghost before = out@;
            out.push(band[i]);
            proof {
                assert forall|d: int, j: int|
                    0 <= d < c && 0 <= j < band_len implies out@[d * band_len + j] == #[trigger] bands@[d]@[j] by {
                    assert(d * band_len + j < c * band_len) by (nonlinear_arith)
                        requires 0 <= d < c, 0 <= j < band_len;
                    assert(before[d * band_len + j] == bands@[d]@[j]);
                }
                assert forall|j: int| 0 <= j < i + 1 implies out@[c * band_len + j] == #[trigger] band@[j] by {
                    if j < i {
                        assert(before[c * band_len + j] == band@[j]);
                    }
                }
            }
            i = i + 1;
        }
        assert((c + 1) * band_len == c * band_len + band_len) by (nonlinear_arith);
        c = c + 1;
    }
    out
}

/// Puts the finished bands together into the image, stored row by row, top row
/// first: one band for each column, from left to right.
pub fn assemble_image(parameters: &RenderParameters, bands: &Vec<Vec<u8>>) -> (r: Vec<u8>)
    requires
        bands@.len() == parameters.spec_x_resolution(),
        forall|c: int| 0 <= c < bands@.len() ==> (#[trigger] bands@[c])@.len() == parameters.spec_band_len(),
    ensures
        is_assembled(
            r@,
            band_views(bands@),
            parameters.spec_x_resolution() as int,
            parameters.spec_y_resolution() as int,
            parameters.spec_color_type().spec_bytes_per_pixel() as int,
        ),
{
    let band_len = parameters.band_len();
    let total = parameters.buffer_len();
    let buffer = join_bands(bands, band_len);
    let ghost joined = buffer@;
    let image = reorient(parameters, buffer);
    proof {
        let x = parameters.spec_x_resolution() as int;
        let y = parameters.spec_y_resolution() as int;
        let bpp = parameters.spec_color_type().spec_bytes_per_pixel() as int;
        let views = band_views(bands@);
        assert(x * (y * bpp) == x * y * bpp) by (nonlinear_arith);
        assert forall|row: int, col: int, k: int|
            0 <= row < y && 0 <= col < x && 0 <= k < bpp implies #[trigger] pixel_byte(image@, bpp, row * x + col, k)
                == pixel_byte(views[col], bpp, y - 1 - row, k) by {
            let p = y - 1 - row;
            assert((col * y + p) * bpp + k == col * (y * bpp) + (p * bpp + k)) by (nonlinear_arith);
            assert(0 <= p * bpp + k < y * bpp) by (nonlinear_arith)
                requires 0 <= p < y, 0 <= k < bpp;
            assert(joined[col * (y * bpp) + (p * bpp + k)] == bands@[col]@[p * bpp + k]);
        }
    }
    image
}

/// Mirror symmetry of the image: when every band was finished with the same
/// count of computed pixels, and some pixels were mirrored, any two rows at the
/// same distance from the row of the real axis, on either side of it, are equal.
pub proof fn lemma_image_mirror_symmetry(
    image: Seq<u8>,
    bands: Seq<Seq<u8>>,
    computed_bands: Seq<Seq<u8>>,
    x: int,
    y: int,
    bpp: int,
    computed: int,
    flip: bool,
)
    requires
        is_assembled(image, bands, x, y, bpp),
        bands.len() == x,
        computed_bands.len() == x,
        forall|c: int|
            0 <= c < x ==> is_finished_band(#[trigger] bands[c], computed_bands[c], y, bpp, computed, flip),
        mirrorable(y, computed),
        computed < y,
    ensures
        forall|row1: int, row2: int, col: int, k: int|
            0 <= row1 < y && 0 <= row2 < y && row1 + row2 == 2 * (y - 1 - axis_pixel(y, computed, flip))
                && 0 <= col < x && 0 <= k < bpp ==> #[trigger] pixel_byte(image, bpp, row1 * x + col, k)
                == #[trigger] pixel_byte(image, bpp, row2 * x + col, k),
{
    assert forall|row1: int, row2: int, col: int, k: int|
        0 <= row1 < y && 0 <= row2 < y && row1 + row2 == 2 * (y - 1 - axis_pixel(y, computed, flip)) && 0
            <= col < x && 0 <= k < bpp implies #[trigger] pixel_byte(image, bpp, row1 * x + col, k)
            == #[trigger] pixel_byte(image, bpp, row2 * x + col, k) by {
        lemma_band_mirror_symmetry(bands[col], computed_bands[col], y, bpp, computed, flip);
        assert(pixel_byte(bands[col], bpp, y - 1 - row1, k) == pixel_byte(bands[col], bpp, y - 1 - row2, k));
    }
}

/// The image is determined by the bands alone: however the bands were
/// scheduled, two images assembled from the same bands are equal byte for byte.
pub proof fn lemma_assembled_image_is_unique(
    image1: Seq<u8>,
    image2: Seq<u8>,
    bands: Seq<Seq<u8>>,
    x: int,
    y: int,
    bpp: int,
)
    requires
        x > 0,
        y > 0,
        bpp > 0,
        is_assembled(image1, bands, x, y, bpp),
        is_assembled(image2, bands, x, y, bpp),
    ensures
        image1 == image2,
{
    assert(x * y * bpp == (x * y) * bpp);
    assert forall|i: int| 0 <= i < image1.len() implies image1[i] == image2[i] by {
        lemma_byte_of_pixel(i, x * y, bpp);
        let q = i / bpp;
        let k = i % bpp;
        lemma_fundamental_div_mod(q, x);
        lemma_mod_pos_bound(q, x);
        let row = q / x;
        let col = q % x;
        assert(0 <= row < y) by (nonlinear_arith)
            requires x * row + col == q, 0 <= q < x * y, 0 <= col < x, x > 0;
        assert(row * x + col == q) by (nonlinear_arith)
            requires x * row + col == q;
        assert(pixel_byte(image1, bpp, row * x + col, k) == pixel_byte(image2, bpp, row * x + col, k));
    }
    assert(image1 =~= image2);
}

} // verus!
