use core::num::{IntErrorKind, NonZeroU32};

use mandellib::{ParseNumberError, ParseResolutionError, Resolution};

fn parsed(s: &str) -> Result<(u32, u32), ParseResolutionError> {
    Resolution::from_str(s).map(|r| (r.x_resolution(), r.y_resolution()))
}

fn std_kind(s: &str) -> Result<u32, ParseNumberError> {
    s.parse::<NonZeroU32>().map(NonZeroU32::get).map_err(|e| match e.kind() {
        IntErrorKind::Empty => ParseNumberError::Empty,
        IntErrorKind::InvalidDigit => ParseNumberError::InvalidDigit,
        IntErrorKind::PosOverflow => ParseNumberError::PosOverflow,
        IntErrorKind::Zero => ParseNumberError::Zero,
        other => panic!("unexpected kind {other:?}"),
    })
}

/// Reads the text the way one would with std's `split` and `parse`.
fn std_resolution(s: &str) -> Result<(u32, u32), ParseResolutionError> {
    let mut parts = s.split('x');
    let x = std_kind(parts.next().unwrap()).map_err(ParseResolutionError::XResInvalidValue)?;
    let y = match parts.next() {
        Some(p) => std_kind(p).map_err(ParseResolutionError::YResInvalidValue)?,
        None => return Err(ParseResolutionError::InvalidFormat),
    };
    if parts.next().is_some() {
        Err(ParseResolutionError::InvalidFormat)
    } else if (x as usize).checked_mul(y as usize).is_none() {
        Err(ParseResolutionError::TooLarge)
    } else {
        Ok((x, y))
    }
}

#[test]
fn parses_plain_resolution() {
    assert_eq!(parsed("1920x1080"), Ok((1920, 1080)));
    assert_eq!(parsed("3240x2160"), Ok((3240, 2160)));
    assert_eq!(parsed("+12x+7"), Ok((12, 7)));
    assert_eq!(parsed("4294967295x1"), Ok((u32::MAX, 1)));
}

#[test]
fn rejects_missing_or_extra_fields() {
    assert_eq!(parsed("1920"), Err(ParseResolutionError::InvalidFormat));
    assert_eq!(parsed("1x2x3"), Err(ParseResolutionError::InvalidFormat));
    assert_eq!(parsed("1x2x"), Err(ParseResolutionError::InvalidFormat));
}

#[test]
fn reports_which_field_is_wrong() {
    assert_eq!(parsed(""), Err(ParseResolutionError::XResInvalidValue(ParseNumberError::Empty)));
    assert_eq!(parsed("x1080"), Err(ParseResolutionError::XResInvalidValue(ParseNumberError::Empty)));
    assert_eq!(parsed("5x"), Err(ParseResolutionError::YResInvalidValue(ParseNumberError::Empty)));
    assert_eq!(parsed("0x5"), Err(ParseResolutionError::XResInvalidValue(ParseNumberError::Zero)));
    assert_eq!(parsed("5x000"), Err(ParseResolutionError::YResInvalidValue(ParseNumberError::Zero)));
    assert_eq!(parsed("ax5"), Err(ParseResolutionError::XResInvalidValue(ParseNumberError::InvalidDigit)));
    assert_eq!(parsed("-1x2"), Err(ParseResolutionError::XResInvalidValue(ParseNumberError::InvalidDigit)));
    assert_eq!(parsed("+x2"), Err(ParseResolutionError::XResInvalidValue(ParseNumberError::InvalidDigit)));
    assert_eq!(parsed("1X2"), Err(ParseResolutionError::XResInvalidValue(ParseNumberError::InvalidDigit)));
    assert_eq!(parsed("4294967296x1"), Err(ParseResolutionError::XResInvalidValue(ParseNumberError::PosOverflow)));
    assert_eq!(parsed("99999999999ax1"), Err(ParseResolutionError::XResInvalidValue(ParseNumberError::PosOverflow)));
    assert_eq!(parsed("1x2é"), Err(ParseResolutionError::YResInvalidValue(ParseNumberError::InvalidDigit)));
}

#[test]
fn agrees_with_std_parsing() {
    let samples = [
        "", "x", "xx", "1", "1x", "x1", "1x1", "12x34", "0x0", "00x01", "+1x+1", "++1x1", "+", "-",
        "1x-", "1x+", "1 x2", " 1x2", "1x2 ", "4294967295x4294967295", "4294967296x0",
        "42949672950x1", "9x99999999999", "1x2x3", "abcxdef", "7x8x", "é", "1éx2",
    ];
    for s in samples {
        assert_eq!(parsed(s), std_resolution(s), "text {s:?}");
    }
}

#[test]
fn new_requires_positive_sides() {
    assert!(Resolution::new(0, 5).is_none());
    assert!(Resolution::new(5, 0).is_none());
    let r = Resolution::new(12, 8).unwrap();
    assert_eq!((r.x_resolution(), r.y_resolution()), (12, 8));
}

#[test]
fn error_messages() {
    assert_eq!(
        ParseResolutionError::InvalidFormat.message(),
        "the resolution must be given in the format X_RESxY_RES"
    );
    assert_eq!(
        ParseResolutionError::XResInvalidValue(ParseNumberError::Empty).message(),
        "the x-resolution could not be parsed: cannot parse integer from empty string"
    );
    assert_eq!(
        ParseResolutionError::YResInvalidValue(ParseNumberError::Zero).message(),
        "the y-resolution could not be parsed: number would be zero for non-zero type"
    );
    assert_eq!(
        ParseResolutionError::TooLarge.message(),
        format!("the total number of pixels must be below {}", usize::MAX)
    );
}

#[test]
fn number_messages_match_std() {
    let cases = [("", ParseNumberError::Empty), ("a", ParseNumberError::InvalidDigit), ("0", ParseNumberError::Zero), ("99999999999", ParseNumberError::PosOverflow)];
    for (text, kind) in cases {
        let std_error = text.parse::<NonZeroU32>().unwrap_err();
        assert_eq!(kind.message(), std_error.to_string());
    }
}
