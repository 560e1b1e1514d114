use vstd::prelude::*;
use vstd::string::{StringExecFns, StringSliceAdditionalSpecFns};

verus! {

/// Why a decimal field of a resolution could not be read as a positive `u32`.
#[derive(Debug, Clone, Copy, PartialEq, Eq, Structural)]
pub enum ParseNumberError {
    /// The field is empty.
    Empty,
    /// The field holds something other than an optional `+` followed by digits.
    InvalidDigit,
    /// The number does not fit in a `u32`.
    PosOverflow,
    /// The number is zero.
    Zero,
}

/// Why a text of the form `X_RESxY_RES` could not be read as a resolution.
#[derive(Debug, Clone, Copy, PartialEq, Eq, Structural)]
pub enum ParseResolutionError {
    /// The text does not hold exactly two fields separated by an `x`.
    InvalidFormat,
    /// The first field is no positive `u32`.
    XResInvalidValue(ParseNumberError),
    /// The second field is no positive `u32`.
    YResInvalidValue(ParseNumberError),
    /// The number of pixels does not fit in a `usize`.
    TooLarge,
}

/// ASCII `+`.
pub const PLUS: u8 = 43;

/// ASCII `-`.
pub const MINUS: u8 = 45;

/// ASCII `x`, which separates the two sides of a resolution.
pub const SEPARATOR: u8 = 120;

/// ASCII `0`.
pub const DIGIT_ZERO: u8 = 48;

/// ASCII `9`.
pub const DIGIT_NINE: u8 = 57;

pub open spec fn is_digit(c: u8) -> bool {
    DIGIT_ZERO <= c <= DIGIT_NINE
}

/// Reads `d` as decimal digits from left to right, as std does for an
/// unsigned integer: the first byte that is no digit, or the first digit
/// after which the value passes `u32::MAX`, decides the error.
pub open spec fn accumulate(d: Seq<u8>) -> Result<nat, ParseNumberError>
    decreases d.len(),
{
    if d.len() == 0 {
        Ok(0)
    } else {
        match accumulate(d.drop_last()) {
            Err(e) => Err(e),
            Ok(v) => {
                let c = d.last();
                if !is_digit(c) {
                    Err(ParseNumberError::InvalidDigit)
                } else if v * 10 + (c - DIGIT_ZERO) > u32::MAX {
                    Err(ParseNumberError::PosOverflow)
                } else {
                    Ok(v * 10 + (c - DIGIT_ZERO) as nat)
                }
            },
        }
    }
}

/// A positive `u32` written in decimal, with an optional leading `+`.
pub open spec fn parse_positive(b: Seq<u8>) -> Result<u32, ParseNumberError> {
    if b.len() == 0 {
        Err(ParseNumberError::Empty)
    } else if b.len() == 1 && (b[0] == PLUS || b[0] == MINUS) {
        Err(ParseNumberError::InvalidDigit)
    } else {
        let d = if b[0] == PLUS { b.drop_first() } else { b };
        match accumulate(d) {
            Err(e) => Err(e),
            Ok(v) => if v == 0 { Err(ParseNumberError::Zero) } else { Ok(v as u32) },
        }
    }
}

/// The index of the first `x` in `b` at or after `from`, or `b.len()` if there is none.
pub open spec fn next_separator(b: Seq<u8>, from: int) -> int
    decreases b.len() - from,
{
    if from >= b.len() {
        b.len() as int
    } else if b[from] == SEPARATOR {
        from
    } else {
        next_separator(b, from + 1)
    }
}

/// What reading the text `b` as `X_RESxY_RES` gives: the two resolutions, or the
/// first problem met when the fields are read from left to right.
pub open spec fn parse_resolution(b: Seq<u8>) -> Result<(u32, u32), ParseResolutionError> {
    let first_end = next_separator(b, 0);
    match parse_positive(b.subrange(0, first_end)) {
        Err(e) => Err(ParseResolutionError::XResInvalidValue(e)),
        Ok(x) => if first_end == b.len() {
            Err(ParseResolutionError::InvalidFormat)
        } else {
            let second_end = next_separator(b, first_end + 1);
            match parse_positive(b.subrange(first_end + 1, second_end)) {
                Err(e) => Err(ParseResolutionError::YResInvalidValue(e)),
                Ok(y) => if second_end < b.len() {
                    Err(ParseResolutionError::InvalidFormat)
                } else if x * y > usize::MAX {
                    Err(ParseResolutionError::TooLarge)
                } else {
                    Ok((x, y))
                },
            }
        },
    }
}

/// The text of a decimal digit.
pub open spec fn digit_text(d: nat) -> Seq<char> {
    if d == 0 {
        "0"@
    } else if d == 1 {
        "1"@
    } else if d == 2 {
        "2"@
    } else if d == 3 {
        "3"@
    } else if d == 4 {
        "4"@
    } else if d == 5 {
        "5"@
    } else if d == 6 {
        "6"@
    } else if d == 7 {
        "7"@
    } else if d == 8 {
        "8"@
    } else {
        "9"@
    }
}

/// `n` written in decimal, without leading zeros.
pub open spec fn decimal_text(n: nat) -> Seq<char>
    decreases n,
{
    if n < 10 {
        digit_text(n)
    } else {
        decimal_text(n / 10) + digit_text(n % 10)
    }
}

fn digit_str(d: usize) -> (r: &'static str)
    requires
        d < 10,
    ensures
        r@ == digit_text(d as nat),
{
    if d == 0 {
        "0"
    } else if d == 1 {
        "1"
    } else if d == 2 {
        "2"
    } else if d == 3 {
        "3"
    } else if d == 4 {
        "4"
    } else if d == 5 {
        "5"
    } else if d == 6 {
        "6"
    } else if d == 7 {
        "7"
    } else if d == 8 {
        "8"
    } else {
        "9"
    }
}

/// Appends `n` in decimal to `text`.
fn append_decimal(text: &mut String, n: usize)
    ensures
        final(text)@ == old(text)@ + decimal_text(n as nat),
    decreases n,
{
    if n >= 10 {
        append_decimal(text, n / 10);
    }
    text.append(digit_str(n % 10));
    proof {
        if n >= 10 {
            assert(final(text)@ =~= old(text)@ + decimal_text(n as nat));
        }
    }
}

impl ParseNumberError {
    /// The sentence that describes the error.
    pub open spec fn spec_message(self) -> Seq<char> {
        match self {
            ParseNumberError::Empty => "cannot parse integer from empty string"@,
            ParseNumberError::InvalidDigit => "invalid digit found in string"@,
            ParseNumberError::PosOverflow => "number too large to fit in target type"@,
            ParseNumberError::Zero => "number would be zero for non-zero type"@,
        }
    }

    /// A sentence that describes the error.
    pub fn message(&self) -> (r: &'static str)
        ensures
            r@ == self.spec_message(),
    {
        match self {
            ParseNumberError::Empty => "cannot parse integer from empty string",
            ParseNumberError::InvalidDigit => "invalid digit found in string",
            ParseNumberError::PosOverflow => "number too large to fit in target type",
            ParseNumberError::Zero => "number would be zero for non-zero type",
        }
    }
}

impl ParseResolutionError {
    /// The sentence that describes the error.
    pub open spec fn spec_message(self) -> Seq<char> {
        match self {
            ParseResolutionError::InvalidFormat => "the resolution must be given in the format X_RESxY_RES"@,
            ParseResolutionError::XResInvalidValue(e) => "the x-resolution could not be parsed: "@
                + e.spec_message(),
            ParseResolutionError::YResInvalidValue(e) => "the y-resolution could not be parsed: "@
                + e.spec_message(),
            ParseResolutionError::TooLarge => "the total number of pixels must be below "@
                + decimal_text(usize::MAX as nat),
        }
    }

    /// A sentence that describes the error.
    pub fn message(&self) -> (r: String)
        ensures
            r@ == self.spec_message(),
    {
        match self {
            ParseResolutionError::InvalidFormat => String::from_str(
                "the resolution must be given in the format X_RESxY_RES",
            ),
            ParseResolutionError::XResInvalidValue(e) => String::from_str(
                "the x-resolution could not be parsed: ",
            ).concat(e.message()),
            ParseResolutionError::YResInvalidValue(e) => String::from_str(
                "the y-resolution could not be parsed: ",
            ).concat(e.message()),
            ParseResolutionError::TooLarge => {
                let mut text = String::from_str("the total number of pixels must be below ");
                append_decimal(&mut text, usize::MAX);
                text
            },
        }
    }
}

/// Reads `b[start..end]` as a positive decimal `u32`.
fn parse_positive_field(b: &[u8], start: usize, end: usize) -> (r: Result<u32, ParseNumberError>)
    requires
        start <= end <= b@.len(),
    ensures
        r == parse_positive(b@.subrange(start as int, end as int)),
{
    let ghost f = b@.subrange(start as int, end as int);
    if start == end {
        return Err(ParseNumberError::Empty);
    }
    assert(f[0] == b@[start as int]);
    if end - start == 1 && (b[start] == PLUS || b[start] == MINUS) {
        return Err(ParseNumberError::InvalidDigit);
    }
    let first: usize = if b[start] == PLUS { start + 1 } else { start };
    let ghost d = b@.subrange(first as int, end as int);
    assert(d =~= (if f[0] == PLUS { f.drop_first() } else { f }));
    let mut value: u32 = 0;
    let mut i: usize = first;
    while i < end
        invariant
            first <= i <= end <= b@.len(),
            d == b@.subrange(first as int, end as int),
            f == b@.subrange(start as int, end as int),
            f.len() > 0,
            !(f.len() == 1 && (f[0] == PLUS || f[0] == MINUS)),
            d == (if f[0] == PLUS { f.drop_first() } else { f }),
            accumulate(b@.subrange(first as int, i as int)) == Ok::<nat, ParseNumberError>(value as nat),
        decreases end - i,
    {
        let ghost prefix = b@.subrange(first as int, i as int);
        let ghost next = b@.subrange(first as int, i + 1);
        assert(next.drop_last() =~= prefix);
        assert(next.last() == b@[i as int]);
        let c = b[i];
        if c < DIGIT_ZERO || c > DIGIT_NINE {
            proof {
                assert(d.subrange(0, (i + 1 - first) as int) =~= next);
                assert(accumulate(next) is Err);
                lemma_accumulate_err_stays(d, (i - first) as int);
            }
            return Err(ParseNumberError::InvalidDigit);
        }
        let digit: u32 = (c - DIGIT_ZERO) as u32;
        if value > (u32::MAX - digit) / 10 {
            proof {
                assert(value * 10 + digit > u32::MAX) by (nonlinear_arith)
                    requires value > (u32::MAX - digit) / 10, digit <= 9;
                assert(d.subrange(0, (i + 1 - first) as int) =~= next);
                assert(accumulate(next) is Err);
                lemma_accumulate_err_stays(d, (i - first) as int);
            }
            return Err(ParseNumberError::PosOverflow);
        }
        assert(value * 10 + digit <= u32::MAX) by (nonlinear_arith)
            requires value <= (u32::MAX - digit) / 10, digit <= 9;
        value = value * 10 + digit;
        i = i + 1;
    }
    assert(b@.subrange(first as int, end as int) =~= d);
    if value == 0 {
        Err(ParseNumberError::Zero)
    } else {
        Ok(value)
    }
}

/// The index of the first `x` in `b` at or after `from`, or `b.len()`.
fn find_separator(b: &[u8], from: usize) -> (r: usize)
    requires
        from <= b@.len(),
    ensures
        r == next_separator(b@, from as int),
        from <= r <= b@.len(),
{
    let mut i = from;
    while i < b.len()
        invariant
            from <= i <= b@.len(),
            next_separator(b@, from as int) == next_separator(b@, i as int),
        decreases b@.len() - i,
    {
        if b[i] == SEPARATOR {
            return i;
        }
        i = i + 1;
    }
    i
}

/// Once reading a prefix of `d` fails, reading all of `d` fails the same way.
proof fn lemma_accumulate_err_stays(d: Seq<u8>, i: int)
    requires
        0 <= i < d.len(),
        accumulate(d.subrange(0, i + 1)) is Err,
    ensures
        accumulate(d) == accumulate(d.subrange(0, i + 1)),
    decreases d.len() - i,
{
    if i + 1 == d.len() {
        assert(d.subrange(0, i + 1) =~= d);
    } else {
        assert(d.drop_last().subrange(0, i + 1) =~= d.subrange(0, i + 1));
        lemma_accumulate_err_stays(d.drop_last(), i);
    }
}

/// The size of an image in pixels, with both sides positive.
#[derive(Debug, Clone, Copy, PartialEq, Eq)]
pub struct Resolution {
    x_res: u32,
    y_res: u32,
}

impl Resolution {
    #[verifier::type_invariant]
    spec fn positive(self) -> bool {
        self.x_res > 0 && self.y_res > 0
    }

    /// Number of pixels along the real axis.
    pub closed spec fn spec_x(self) -> u32 {
        self.x_res
    }

    /// Number of pixels along the imaginary axis.
    pub closed spec fn spec_y(self) -> u32 {
        self.y_res
    }

    /// A resolution of `x_resolution` by `y_resolution` pixels, if neither is zero.
    pub fn new(x_resolution: u32, y_resolution: u32) -> (r: Option<Self>)
        ensures
            r is Some <==> x_resolution > 0 && y_resolution > 0,
            r matches Some(res) ==> res.spec_x() == x_resolution && res.spec_y() == y_resolution,
    {
        if x_resolution > 0 && y_resolution > 0 {
            Some(Resolution { x_res: x_resolution, y_res: y_resolution })
        } else {
            None
        }
    }

    pub fn x_resolution(&self) -> (r: u32)
        ensures
            r == self.spec_x(),
            r > 0,
    {
        proof {
            use_type_invariant(self);
        }
        self.x_res
    }

    pub fn y_resolution(&self) -> (r: u32)
        ensures
            r == self.spec_y(),
            r > 0,
    {
        proof {
            use_type_invariant(self);
        }
        self.y_res
    }

    /// Reads a resolution written as `X_RESxY_RES`, such as `1920x1080`.
    pub fn from_str(s: &str) -> (r: Result<Self, ParseResolutionError>)
        ensures
            match r {
                Ok(res) => parse_resolution(s.spec_bytes()) == Ok::<(u32, u32), ParseResolutionError>(
                    (res.spec_x(), res.spec_y()),
                ),
                Err(e) => parse_resolution(s.spec_bytes()) == Err::<(u32, u32), ParseResolutionError>(e),
            },
    {
        let b = s.as_bytes();
        let first_end = find_separator(b, 0);
        let x = match parse_positive_field(b, 0, first_end) {
            Ok(x) => x,
            Err(e) => return Err(ParseResolutionError::XResInvalidValue(e)),
        };
        if first_end == b.len() {
            return Err(ParseResolutionError::InvalidFormat);
        }
        let second_end = find_separator(b, first_end + 1);
        let y = match parse_positive_field(b, first_end + 1, second_end) {
            Ok(y) => y,
            Err(e) => return Err(ParseResolutionError::YResInvalidValue(e)),
        };
        if second_end < b.len() {
            return Err(ParseResolutionError::InvalidFormat);
        }
        match (x as usize).checked_mul(y as usize) {
            None => Err(ParseResolutionError::TooLarge),
            Some(_) => Ok(Resolution { x_res: x, y_res: y }),
        }
    }
}

} // verus!
