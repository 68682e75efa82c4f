//! What the screen needs before anything is drawn on it.

use vstd::prelude::*;

verus! {

/// The least number of columns that the dashboard can be drawn in.
pub const MIN_WIDTH: u16 = 80;

/// The least number of rows that the dashboard can be drawn in.
pub const MIN_HEIGHT: u16 = 24;

/// Why a terminal is too small for the dashboard.
#[derive(Debug, Clone, Copy, PartialEq, Eq, Structural)]
pub enum SizeError {
    /// The terminal has too few columns; it has this many.
    TooNarrow(u16),
    /// The terminal has columns enough and too few rows; it has this many.
    TooLow(u16),
}

/// The verdict on a terminal of `width` columns and `height` rows. The
/// width is looked at first.
pub open spec fn size_verdict(width: u16, height: u16) -> Result<(), SizeError> {
    if width < MIN_WIDTH {
        Err(SizeError::TooNarrow(width))
    } else if height < MIN_HEIGHT {
        Err(SizeError::TooLow(height))
    } else {
        Ok(())
    }
}

/// Checks that a terminal of `width` columns and `height` rows is large
/// enough for the dashboard.
pub fn check_size(width: u16, height: u16) -> (r: Result<(), SizeError>)
    ensures
        r == size_verdict(width, height),
        r is Ok <==> width >= MIN_WIDTH && height >= MIN_HEIGHT,
{
    if width < MIN_WIDTH {
        Err(SizeError::TooNarrow(width))
    } else if height < MIN_HEIGHT {
        Err(SizeError::TooLow(height))
    } else {
        Ok(())
    }
}

} // verus!
