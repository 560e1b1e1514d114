use crate::color_type::SupportedColorType;
use crate::u32_and_usize::U32AndUsize;
use vstd::prelude::*;

verus! {

/// Why a set of render parameters was refused.
#[derive(Debug, Clone, Copy, PartialEq, Eq, Structural)]
pub enum ParameterError {
    /// One of the two resolutions is zero.
    ZeroResolution,
    /// The iteration bound is zero.
    ZeroIterations,
    /// The supersampling factor is zero.
    ZeroSupersampling,
    /// The pixel buffer would hold more bytes than a `usize` can count.
    TooLarge,
}

/// What a set of render parameters must satisfy: every count is positive and the
/// whole pixel buffer can be indexed by a `usize`.
pub open spec fn valid_parameters(
    x_resolution: int,
    y_resolution: int,
    max_iterations: int,
    sqrt_samples_per_pixel: int,
    color_type: SupportedColorType,
) -> bool {
    &&& x_resolution > 0
    &&& y_resolution > 0
    &&& max_iterations > 0
    &&& sqrt_samples_per_pixel > 0
    &&& x_resolution * y_resolution * color_type.spec_bytes_per_pixel() <= usize::MAX
}

/// The error that render parameters are refused with, checked in the order
/// resolution, iterations, supersampling, buffer size.
pub open spec fn parameter_error(
    x_resolution: int,
    y_resolution: int,
    max_iterations: int,
    sqrt_samples_per_pixel: int,
    color_type: SupportedColorType,
) -> ParameterError {
    if x_resolution == 0 || y_resolution == 0 {
        ParameterError::ZeroResolution
    } else if max_iterations == 0 {
        ParameterError::ZeroIterations
    } else if sqrt_samples_per_pixel == 0 {
        ParameterError::ZeroSupersampling
    } else {
        ParameterError::TooLarge
    }
}

/// Everything about an image of the Mandelbrot set that rendering needs besides
/// the region of the plane: its size in pixels, the iteration bound, the number of
/// samples along each side of a pixel, and the pixel format.
#[derive(Debug, Clone, Copy)]
pub struct RenderParameters {
    x_resolution: U32AndUsize,
    y_resolution: U32AndUsize,
    max_iterations: u32,
    sqrt_samples_per_pixel: u8,
    color_type: SupportedColorType,
}

impl RenderParameters {
    #[verifier::type_invariant]
    spec fn valid(self) -> bool {
        valid_parameters(
            self.x_resolution.spec_value() as int,
            self.y_resolution.spec_value() as int,
            self.max_iterations as int,
            self.sqrt_samples_per_pixel as int,
            self.color_type,
        )
    }

    pub closed spec fn spec_x_resolution(self) -> u32 {
        self.x_resolution.spec_value()
    }

    pub closed spec fn spec_y_resolution(self) -> u32 {
        self.y_resolution.spec_value()
    }

    pub closed spec fn spec_max_iterations(self) -> u32 {
        self.max_iterations
    }

    pub closed spec fn spec_sqrt_samples_per_pixel(self) -> u8 {
        self.sqrt_samples_per_pixel
    }

    pub closed spec fn spec_color_type(self) -> SupportedColorType {
        self.color_type
    }

    /// Number of bytes of one band: one pixel for each row of the image.
    pub open spec fn spec_band_len(self) -> int {
        self.spec_y_resolution() * self.spec_color_type().spec_bytes_per_pixel()
    }

    /// Number of bytes of the whole pixel buffer.
    pub open spec fn spec_buffer_len(self) -> int {
        self.spec_x_resolution() * self.spec_band_len()
    }

    /// Checks the parameters of a render and bundles them.
    pub fn try_new(
        x_resolution: u32,
        y_resolution: u32,
        max_iterations: u32,
        sqrt_samples_per_pixel: u8,
        color_type: SupportedColorType,
    ) -> (r: Result<Self, ParameterError>)
        ensures
            r is Ok <==> valid_parameters(
                x_resolution as int,
                y_resolution as int,
                max_iterations as int,
                sqrt_samples_per_pixel as int,
                color_type,
            ),
            r matches Ok(p) ==> {
                &&& p.spec_x_resolution() == x_resolution
                &&& p.spec_y_resolution() == y_resolution
                &&& p.spec_max_iterations() == max_iterations
                &&& p.spec_sqrt_samples_per_pixel() == sqrt_samples_per_pixel
                &&& p.spec_color_type() == color_type
            },
            r matches Err(e) ==> e == parameter_error(
                x_resolution as int,
                y_resolution as int,
                max_iterations as int,
                sqrt_samples_per_pixel as int,
                color_type,
            ),
    {
        let x = match U32AndUsize::try_from_u32(x_resolution) {
            Some(x) => x,
            None => return Err(ParameterError::ZeroResolution),
        };
        let y = match U32AndUsize::try_from_u32(y_resolution) {
            Some(y) => y,
            None => return Err(ParameterError::ZeroResolution),
        };
        if max_iterations == 0 {
            return Err(ParameterError::ZeroIterations);
        }
        if sqrt_samples_per_pixel == 0 {
            return Err(ParameterError::ZeroSupersampling);
        }
        let bytes = color_type.bytes_per_pixel() as usize;
        let pixels = match x.to_usize().checked_mul(y.to_usize()) {
            Some(p) => p,
            None => {
                proof {
                    assert(x_resolution * y_resolution * bytes >= x_resolution * y_resolution)
                        by (nonlinear_arith)
                        requires bytes >= 1, x_resolution * y_resolution >= 0;
                }
                return Err(ParameterError::TooLarge);
            },
        };
        if pixels.checked_mul(bytes).is_none() {
            return Err(ParameterError::TooLarge);
        }
        Ok(
            RenderParameters {
                x_resolution: x,
                y_resolution: y,
                max_iterations,
                sqrt_samples_per_pixel,
                color_type,
            },
        )
    }

    /// Checks the parameters of a render given as in older interfaces: resolutions
    /// as `usize` and the pixel format as a grayscale flag (luma when set, RGB
    /// otherwise).
    pub fn new(
        x_resolution: usize,
        y_resolution: usize,
        iterations: u32,
        ssaa: u8,
        grayscale: bool,
    ) -> (r: Result<Self, ParameterError>)
        ensures
            ({
                let color_type = if grayscale {
                    SupportedColorType::L8
                } else {
                    SupportedColorType::Rgb8
                };
                &&& r is Ok <==> valid_parameters(
                    x_resolution as int,
                    y_resolution as int,
                    iterations as int,
                    ssaa as int,
                    color_type,
                ) && x_resolution <= u32::MAX && y_resolution <= u32::MAX
                &&& r matches Ok(p) ==> {
                    &&& p.spec_x_resolution() == x_resolution
                    &&& p.spec_y_resolution() == y_resolution
                    &&& p.spec_max_iterations() == iterations
                    &&& p.spec_sqrt_samples_per_pixel() == ssaa
                    &&& p.spec_color_type() == color_type
                }
                &&& r matches Err(e) ==> e == if x_resolution > u32::MAX || y_resolution > u32::MAX {
                    if x_resolution == 0 || y_resolution == 0 {
                        ParameterError::ZeroResolution
                    } else {
                        ParameterError::TooLarge
                    }
                } else {
                    parameter_error(
                        x_resolution as int,
                        y_resolution as int,
                        iterations as int,
                        ssaa as int,
                        color_type,
                    )
                }
            }),
    {
        let color_type = if grayscale {
            SupportedColorType::L8
        } else {
            SupportedColorType::Rgb8
        };
        if x_resolution == 0 || y_resolution == 0 {
            return Err(ParameterError::ZeroResolution);
        }
        if x_resolution > u32::MAX as usize || y_resolution > u32::MAX as usize {
            return Err(ParameterError::TooLarge);
        }
        Self::try_new(x_resolution as u32, y_resolution as u32, iterations, ssaa, color_type)
    }

    pub fn x_resolution(&self) -> (r: U32AndUsize)
        ensures
            r.spec_value() == self.spec_x_resolution(),
    {
        self.x_resolution
    }

    pub fn y_resolution(&self) -> (r: U32AndUsize)
        ensures
            r.spec_value() == self.spec_y_resolution(),
    {
        self.y_resolution
    }

    pub fn max_iterations(&self) -> (r: u32)
        ensures
            r == self.spec_max_iterations(),
            r > 0,
    {
        proof {
            use_type_invariant(self);
        }
        self.max_iterations
    }

    pub fn sqrt_samples_per_pixel(&self) -> (r: u8)
        ensures
            r == self.spec_sqrt_samples_per_pixel(),
            r > 0,
    {
        proof {
            use_type_invariant(self);
        }
        self.sqrt_samples_per_pixel
    }

    pub fn color_type(&self) -> (r: SupportedColorType)
        ensures
            r == self.spec_color_type(),
    {
        self.color_type
    }

    /// Number of bytes of one band of the pixel buffer.
    pub fn band_len(&self) -> (r: usize)
        ensures
            r == self.spec_band_len(),
            r > 0,
    {
        proof {
            use_type_invariant(self);
            let x = self.spec_x_resolution() as int;
            let b = self.spec_band_len();
            let y = self.spec_y_resolution() as int;
            let c = self.spec_color_type().spec_bytes_per_pixel() as int;
            assert(b <= x * y * c) by (nonlinear_arith)
                requires x >= 1, y >= 0, c >= 0, b == y * c;
            assert(b > 0) by (nonlinear_arith)
                requires b == self.spec_y_resolution() * self.spec_color_type().spec_bytes_per_pixel(),
                    self.spec_y_resolution() > 0, self.spec_color_type().spec_bytes_per_pixel() > 0;
        }
        self.y_resolution.to_usize() * self.color_type.bytes_per_pixel() as usize
    }

    /// Number of bytes of the whole pixel buffer.
    pub fn buffer_len(&self) -> (r: usize)
        ensures
            r == self.spec_buffer_len(),
            r > 0,
    {
        proof {
            use_type_invariant(self);
            let x = self.spec_x_resolution() as int;
            let y = self.spec_y_resolution() as int;
            let c = self.spec_color_type().spec_bytes_per_pixel() as int;
            assert(x * (y * c) == x * y * c && x * (y * c) > 0) by (nonlinear_arith)
                requires x > 0, y > 0, c > 0;
        }
        self.x_resolution.to_usize() * self.band_len()
    }
}

} // verus!
