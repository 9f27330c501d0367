//! Why an operation was refused.

use vstd::prelude::*;

verus! {

/// Reasons for which the library refuses a request.
#[derive(Clone, Copy, Debug, PartialEq, Eq, Structural)]
pub enum ImageError {
    /// The buffer's length is not `width * height * bytes per pixel`.
    InvalidBuffer,
    /// The image does not hold the pixel format asked for.
    FormatMismatch,
    /// Two images that must agree in width and height do not.
    IncompatibleShapes,
    /// The operation is not defined for the image's pixel format.
    UnsupportedFormat,
    /// A width or a height is zero.
    ZeroDimension,
}

impl ImageError {
    /// The description of each error.
    pub open spec fn spec_message(&self) -> Seq<char> {
        match self {
            ImageError::InvalidBuffer => "size of buffer does not match the image dimensions"@,
            ImageError::FormatMismatch => "pixel format differs from the expected one"@,
            ImageError::IncompatibleShapes => "source and destination differ in width or height"@,
            ImageError::UnsupportedFormat => "pixel format is not supported by the operation"@,
            ImageError::ZeroDimension => "width and height must be positive"@,
        }
    }

    /// A short description of the error.
    pub fn message(&self) -> (s: &'static str)
        ensures
            s@ == self.spec_message(),
    {
        match self {
            ImageError::InvalidBuffer => "size of buffer does not match the image dimensions",
            ImageError::FormatMismatch => "pixel format differs from the expected one",
            ImageError::IncompatibleShapes => "source and destination differ in width or height",
            ImageError::UnsupportedFormat => "pixel format is not supported by the operation",
            ImageError::ZeroDimension => "width and height must be positive",
        }
    }
}

} // verus!
