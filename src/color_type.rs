use image::ColorType;
use vstd::prelude::*;
use vstd::string::StringExecFns;

verus! {

/// The pixel formats that the renderer can fill.
#[derive(Debug, Clone, Copy, PartialEq, Eq, Structural)]
pub enum SupportedColorType {
    Rgba8,
    Rgb8,
    L8,
}

impl SupportedColorType {
    pub open spec fn spec_bytes_per_pixel(self) -> u8 {
        match self {
            SupportedColorType::L8 => 1,
            SupportedColorType::Rgb8 => 3,
            SupportedColorType::Rgba8 => 4,
        }
    }

    pub open spec fn spec_has_color(self) -> bool {
        !(self is L8)
    }

    pub open spec fn spec_has_alpha(self) -> bool {
        self is Rgba8
    }

    /// Number of bytes that one pixel of this format takes.
    pub fn bytes_per_pixel(&self) -> (r: u8)
        ensures
            r == self.spec_bytes_per_pixel(),
    {
        image_bytes_per_pixel(*self)
    }

    /// Whether the format carries color, rather than luma alone.
    pub fn has_color(&self) -> (r: bool)
        ensures
            r == self.spec_has_color(),
    {
        image_has_color(*self)
    }

    /// Whether the format carries an alpha channel.
    pub fn has_alpha(&self) -> (r: bool)
        ensures
            r == self.spec_has_alpha(),
    {
        image_has_alpha(*self)
    }

    /// Number of channels in one pixel; each channel is one byte.
    pub fn channel_count(&self) -> (r: u8)
        ensures
            r == self.spec_bytes_per_pixel(),
    {
        image_channel_count(*self)
    }

    /// Number of bits that one pixel of this format takes.
    pub fn bits_per_pixel(&self) -> (r: u16)
        ensures
            r == 8 * self.spec_bytes_per_pixel(),
    {
        image_bits_per_pixel(*self)
    }
}

/// Relies on image::ColorType::bytes_per_pixel: 1 for L8, 3 for Rgb8, 4 for Rgba8.
#[verifier::external_body]
fn image_bytes_per_pixel(c: SupportedColorType) -> (r: u8)
    ensures
        r == c.spec_bytes_per_pixel(),
{
    match c {
        SupportedColorType::L8 => ColorType::L8,
        SupportedColorType::Rgb8 => ColorType::Rgb8,
        SupportedColorType::Rgba8 => ColorType::Rgba8,
    }.bytes_per_pixel()
}

/// Relies on image::ColorType::has_color: false for L8 alone among these three.
#[verifier::external_body]
fn image_has_color(c: SupportedColorType) -> (r: bool)
    ensures
        r == c.spec_has_color(),
{
    match c {
        SupportedColorType::L8 => ColorType::L8,
        SupportedColorType::Rgb8 => ColorType::Rgb8,
        SupportedColorType::Rgba8 => ColorType::Rgba8,
    }.has_color()
}

/// Relies on image::ColorType::has_alpha: true for Rgba8 alone among these three.
#[verifier::external_body]
fn image_has_alpha(c: SupportedColorType) -> (r: bool)
    ensures
        r == c.spec_has_alpha(),
{
    match c {
        SupportedColorType::L8 => ColorType::L8,
        SupportedColorType::Rgb8 => ColorType::Rgb8,
        SupportedColorType::Rgba8 => ColorType::Rgba8,
    }.has_alpha()
}

/// Relies on image::ColorType::channel_count: 1 for L8, 3 for Rgb8, 4 for Rgba8.
#[verifier::external_body]
fn image_channel_count(c: SupportedColorType) -> (r: u8)
    ensures
        r == c.spec_bytes_per_pixel(),
{
    match c {
        SupportedColorType::L8 => ColorType::L8,
        SupportedColorType::Rgb8 => ColorType::Rgb8,
        SupportedColorType::Rgba8 => ColorType::Rgba8,
    }.channel_count()
}

/// Relies on image::ColorType::bits_per_pixel: eight times the bytes per pixel.
#[verifier::external_body]
fn image_bits_per_pixel(c: SupportedColorType) -> (r: u16)
    ensures
        r == 8 * c.spec_bytes_per_pixel(),
{
    match c {
        SupportedColorType::L8 => ColorType::L8,
        SupportedColorType::Rgb8 => ColorType::Rgb8,
        SupportedColorType::Rgba8 => ColorType::Rgba8,
    }.bits_per_pixel()
}

/// The pixel formats of image files that the renderer cannot fill.
#[derive(Debug, Clone, Copy, PartialEq, Eq, Structural)]
pub enum UnsupportedColorTypeError {
    La8,
    L16,
    La16,
    Rgb16,
    Rgba16,
    Rgb32F,
    Rgba32F,
    Unknown,
}

impl UnsupportedColorTypeError {
    /// The name under which the format is reported.
    pub open spec fn spec_name(self) -> Seq<char> {
        match self {
            UnsupportedColorTypeError::La8 => "LA8"@,
            UnsupportedColorTypeError::L16 => "L16"@,
            UnsupportedColorTypeError::La16 => "LA16"@,
            UnsupportedColorTypeError::Rgb16 => "RGB16"@,
            UnsupportedColorTypeError::Rgba16 => "RGBA16"@,
            UnsupportedColorTypeError::Rgb32F => "RGB32F"@,
            UnsupportedColorTypeError::Rgba32F => "RGBA32F"@,
            UnsupportedColorTypeError::Unknown => "<unknown color type>"@,
        }
    }

    /// A sentence saying which format is not supported.
    pub fn message(&self) -> (r: String)
        ensures
            r@ == self.spec_name() + " is not supported"@,
    {
        let name = match self {
            UnsupportedColorTypeError::La8 => "LA8",
            UnsupportedColorTypeError::L16 => "L16",
            UnsupportedColorTypeError::La16 => "LA16",
            UnsupportedColorTypeError::Rgb16 => "RGB16",
            UnsupportedColorTypeError::Rgba16 => "RGBA16",
            UnsupportedColorTypeError::Rgb32F => "RGB32F",
            UnsupportedColorTypeError::Rgba32F => "RGBA32F",
            UnsupportedColorTypeError::Unknown => "<unknown color type>",
        };
        String::from_str(name).concat(" is not supported")
    }
}

} // verus!
