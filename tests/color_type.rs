use image::ColorType;
use mandellib::{SupportedColorType, UnsupportedColorTypeError};

#[test]
fn formats_match_the_image_crate() {
    let pairs = [
        (SupportedColorType::L8, ColorType::L8),
        (SupportedColorType::Rgb8, ColorType::Rgb8),
        (SupportedColorType::Rgba8, ColorType::Rgba8),
    ];
    for (ours, theirs) in pairs {
        assert_eq!(ours.bytes_per_pixel(), theirs.bytes_per_pixel());
        assert_eq!(ours.has_color(), theirs.has_color());
        assert_eq!(ours.has_alpha(), theirs.has_alpha());
        assert_eq!(ours.channel_count(), theirs.channel_count());
        assert_eq!(ours.bits_per_pixel(), theirs.bits_per_pixel());
    }
}

#[test]
fn format_sizes() {
    assert_eq!(SupportedColorType::L8.bytes_per_pixel(), 1);
    assert_eq!(SupportedColorType::Rgb8.bytes_per_pixel(), 3);
    assert_eq!(SupportedColorType::Rgba8.bytes_per_pixel(), 4);
    assert_eq!(SupportedColorType::Rgba8.bits_per_pixel(), 32);
    assert!(!SupportedColorType::L8.has_color());
    assert!(SupportedColorType::Rgba8.has_alpha());
    assert!(!SupportedColorType::Rgb8.has_alpha());
}

#[test]
fn unsupported_format_messages() {
    assert_eq!(UnsupportedColorTypeError::La8.message(), "LA8 is not supported");
    assert_eq!(UnsupportedColorTypeError::Rgba32F.message(), "RGBA32F is not supported");
    assert_eq!(
        UnsupportedColorTypeError::Unknown.message(),
        "<unknown color type> is not supported"
    );
}
