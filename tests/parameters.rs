use mandellib::{ParameterError, RenderParameters, SupportedColorType, U32AndUsize};

#[test]
fn valid_parameters_are_kept() {
    let p = RenderParameters::try_new(12, 8, 50, 1, SupportedColorType::Rgb8).unwrap();
    assert_eq!(p.x_resolution().to_u32(), 12);
    assert_eq!(p.y_resolution().to_usize(), 8);
    assert_eq!(p.max_iterations(), 50);
    assert_eq!(p.sqrt_samples_per_pixel(), 1);
    assert_eq!(p.color_type(), SupportedColorType::Rgb8);
    assert_eq!(p.band_len(), 24);
    assert_eq!(p.buffer_len(), 288);
}

#[test]
fn zero_counts_are_refused_in_order() {
    let rgb8 = SupportedColorType::Rgb8;
    assert_eq!(RenderParameters::try_new(0, 8, 50, 1, rgb8).unwrap_err(), ParameterError::ZeroResolution);
    assert_eq!(RenderParameters::try_new(12, 0, 0, 0, rgb8).unwrap_err(), ParameterError::ZeroResolution);
    assert_eq!(RenderParameters::try_new(12, 8, 0, 0, rgb8).unwrap_err(), ParameterError::ZeroIterations);
    assert_eq!(RenderParameters::try_new(12, 8, 50, 0, rgb8).unwrap_err(), ParameterError::ZeroSupersampling);
}

#[test]
fn oversized_buffer_is_refused() {
    let r = RenderParameters::try_new(u32::MAX, u32::MAX, 1, 1, SupportedColorType::Rgba8);
    if usize::BITS <= 64 {
        assert_eq!(r.unwrap_err(), ParameterError::TooLarge);
    }
    let big = RenderParameters::try_new(u32::MAX, 1, 1, 1, SupportedColorType::Rgba8);
    assert_eq!(big.is_ok(), usize::BITS > 32);
}

#[test]
fn grayscale_flag_selects_the_format() {
    let gray = RenderParameters::new(4, 3, 10, 2, true).unwrap();
    assert_eq!(gray.color_type(), SupportedColorType::L8);
    assert_eq!(gray.buffer_len(), 12);
    let color = RenderParameters::new(4, 3, 10, 2, false).unwrap();
    assert_eq!(color.color_type(), SupportedColorType::Rgb8);
    assert_eq!(color.buffer_len(), 36);
    assert_eq!(RenderParameters::new(0, 3, 10, 2, false).unwrap_err(), ParameterError::ZeroResolution);
    if usize::BITS > 32 {
        let too_wide = (u32::MAX as usize) + 1;
        assert_eq!(RenderParameters::new(too_wide, 3, 10, 2, false).unwrap_err(), ParameterError::TooLarge);
    }
}

#[test]
fn u32_and_usize_holds_positive_values() {
    assert!(U32AndUsize::try_from_u32(0).is_none());
    let v = U32AndUsize::try_from_u32(4000).unwrap();
    assert_eq!(v.to_u32(), 4000);
    assert_eq!(v.to_usize(), 4000);
    assert_eq!(v.to_u64(), 4000);
}
