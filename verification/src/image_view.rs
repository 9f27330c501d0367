//! Images as flat byte buffers, and the row-wise views the kernels work on.
//!
//! A buffer holds `height` rows of `width` pixels each, without padding.

use crate::errors::ImageError;
use crate::pixels::PixelType;
use vstd::prelude::*;
use vstd::slice::slice_subrange;

verus! {

/// Whether a buffer of `len` bytes holds exactly one image of the given
/// dimensions and pixel format.
pub open spec fn buffer_fits(width: u32, height: u32, pixel_type: PixelType, len: nat) -> bool {
    &&& width > 0
    &&& height > 0
    &&& len == width * height * pixel_type.spec_size()
}

/// Bytes in one row of an image.
pub open spec fn row_stride(width: u32, pixel_type: PixelType) -> int {
    width * pixel_type.spec_size()
}

/// Row `y` of a buffer whose rows take `stride` bytes.
pub open spec fn row_of(bytes: Seq<u8>, stride: int, y: int) -> Seq<u8> {
    bytes.subrange(y * stride, y * stride + stride)
}

/// `bytes` with row `y` replaced by `row`.
pub open spec fn with_row(bytes: Seq<u8>, stride: int, y: int, row: Seq<u8>) -> Seq<u8> {
    bytes.subrange(0, y * stride) + row + bytes.subrange(y * stride + stride, bytes.len() as int)
}

/// Row `y` of an image of `height` rows lies inside its buffer.
pub proof fn lemma_row_in_bounds(stride: int, height: int, y: int)
    requires
        0 <= stride,
        0 <= y < height,
    ensures
        0 <= y * stride,
        y * stride + stride <= height * stride,
        (y + 1) * stride == y * stride + stride,
{
    assert(0 <= y * stride && y * stride + stride <= height * stride && (y + 1) * stride == y
        * stride + stride) by (nonlinear_arith)
        requires
            0 <= stride,
            0 <= y < height,
    ;
}

/// In a buffer that fits an image, every row lies inside the buffer.
pub proof fn lemma_rows_fill_buffer(width: u32, height: u32, pixel_type: PixelType, y: int)
    requires
        width > 0,
        0 <= y < height,
    ensures
        width * height * pixel_type.spec_size() == height * row_stride(width, pixel_type),
        0 < row_stride(width, pixel_type) <= height * row_stride(width, pixel_type),
        0 <= y * row_stride(width, pixel_type),
        y * row_stride(width, pixel_type) + row_stride(width, pixel_type) <= height * row_stride(
            width,
            pixel_type,
        ),
{
    let w = width as int;
    let h = height as int;
    let s = pixel_type.spec_size() as int;
    assert(1 <= s <= 8);
    assert(w * h * s == h * (w * s) && 0 < w * s <= h * (w * s)) by (nonlinear_arith)
        requires
            w > 0,
            h > 0,
            s > 0,
    ;
    lemma_row_in_bounds(w * s, h, y);
}

/// Cutting an image above row `y` leaves two bands of whole rows.
pub proof fn lemma_band_sizes(width: u32, height: u32, pixel_type: PixelType, y: int)
    requires
        0 <= y <= height,
    ensures
        width * y * pixel_type.spec_size() == y * row_stride(width, pixel_type),
        width * (height - y) * pixel_type.spec_size() == height * row_stride(width, pixel_type) - y
            * row_stride(width, pixel_type),
{
    let w = width as int;
    let h = height as int;
    let s = pixel_type.spec_size() as int;
    assert(w * y * s == y * (w * s) && w * (h - y) * s == h * (w * s) - y * (w * s))
        by (nonlinear_arith);
}

/// The first error, if any, that keeps a buffer of `len` bytes from being an
/// image of the given dimensions and format.
pub open spec fn shape_error(width: u32, height: u32, pixel_type: PixelType, len: nat) -> Option<
    ImageError,
> {
    if width == 0 || height == 0 {
        Some(ImageError::ZeroDimension)
    } else if len != width * height * pixel_type.spec_size() {
        Some(ImageError::InvalidBuffer)
    } else {
        None
    }
}

/// Checks a buffer length against dimensions and format.
fn check_shape(width: u32, height: u32, pixel_type: PixelType, len: usize) -> (r: Result<
    (),
    ImageError,
>)
    ensures
        r == match shape_error(width, height, pixel_type, len as nat) {
            Some(e) => Err::<(), ImageError>(e),
            None => Ok(()),
        },
        r is Ok ==> buffer_fits(width, height, pixel_type, len as nat),
{
    if width == 0 || height == 0 {
        return Err(ImageError::ZeroDimension);
    }
    let size: usize = pixel_type.size();
    assert(0 <= width * height <= 0xffff_ffff * 0xffff_ffff) by (nonlinear_arith);
    let pixels: u128 = width as u128 * height as u128;
    assert(pixels * size <= 0xffff_ffff * 0xffff_ffff * 8) by (nonlinear_arith)
        requires
            pixels <= 0xffff_ffff * 0xffff_ffff,
            size <= 8,
    ;
    let expected: u128 = pixels * size as u128;
    if len as u128 != expected {
        return Err(ImageError::InvalidBuffer);
    }
    Ok(())
}

/// A read-only image: dimensions, pixel format and the bytes of its rows.
pub struct ImageView<'a> {
    pub width: u32,
    pub height: u32,
    pub pixel_type: PixelType,
    pub buffer: &'a [u8],
}

/// An image whose bytes can be overwritten.
pub struct ImageViewMut<'a> {
    pub width: u32,
    pub height: u32,
    pub pixel_type: PixelType,
    pub buffer: &'a mut [u8],
}

impl<'a> ImageView<'a> {
    /// The buffer holds exactly `height` rows of `width` pixels.
    pub open spec fn wf(&self) -> bool {
        buffer_fits(self.width, self.height, self.pixel_type, self.buffer@.len())
    }

    /// Bytes in one row.
    pub open spec fn stride(&self) -> int {
        row_stride(self.width, self.pixel_type)
    }

    /// Makes a view of `buffer` as an image of the given dimensions and
    /// format.
    pub fn new(width: u32, height: u32, buffer: &'a [u8], pixel_type: PixelType) -> (r: Result<
        ImageView<'a>,
        ImageError,
    >)
        ensures
            match shape_error(width, height, pixel_type, buffer@.len()) {
                Some(e) => r == Err::<ImageView<'a>, ImageError>(e),
                None => r is Ok && r->Ok_0.wf() && r->Ok_0.width == width && r->Ok_0.height
                    == height && r->Ok_0.pixel_type == pixel_type && r->Ok_0.buffer@ == buffer@,
            },
    {
        match check_shape(width, height, pixel_type, buffer.len()) {
            Err(e) => Err(e),
            Ok(()) => Ok(ImageView { width, height, pixel_type, buffer }),
        }
    }

    /// The same image with row access for kernels of format `pixel_type`.
    pub fn as_typed(&self, pixel_type: PixelType) -> (r: Result<TypedImageView<'a>, ImageError>)
        ensures
            self.pixel_type != pixel_type ==> r == Err::<TypedImageView<'a>, ImageError>(
                ImageError::FormatMismatch,
            ),
            self.pixel_type == pixel_type ==> r == Ok::<TypedImageView<'a>, ImageError>(
                TypedImageView {
                    width: self.width,
                    height: self.height,
                    pixel_type: self.pixel_type,
                    buffer: self.buffer,
                },
            ),
    {
        if self.pixel_type != pixel_type {
            return Err(ImageError::FormatMismatch);
        }
        Ok(
            TypedImageView {
                width: self.width,
                height: self.height,
                pixel_type: self.pixel_type,
                buffer: self.buffer,
            },
        )
    }
}

/// A read-only image whose pixel format the holder has checked.
pub struct TypedImageView<'a> {
    pub width: u32,
    pub height: u32,
    pub pixel_type: PixelType,
    pub buffer: &'a [u8],
}

/// A writable image whose pixel format the holder has checked.
pub struct TypedImageViewMut<'a> {
    pub width: u32,
    pub height: u32,
    pub pixel_type: PixelType,
    pub buffer: &'a mut [u8],
}

impl<'a> TypedImageView<'a> {
    /// The buffer holds exactly `height` rows of `width` pixels.
    pub open spec fn wf(&self) -> bool {
        buffer_fits(self.width, self.height, self.pixel_type, self.buffer@.len())
    }

    /// Bytes in one row.
    pub open spec fn stride(&self) -> int {
        row_stride(self.width, self.pixel_type)
    }

    /// Row `y` of the image.
    pub fn row(&self, y: u32) -> (r: &'a [u8])
        requires
            self.wf(),
            y < self.height,
        ensures
            r@ == row_of(self.buffer@, self.stride(), y as int),
            r@.len() == self.stride(),
    {
        proof {
            lemma_rows_fill_buffer(self.width, self.height, self.pixel_type, y as int);
        }
        let len: usize = self.buffer.len();
        let size: usize = self.pixel_type.size();
        assert(self.width * size <= len && y * (self.width * size) + self.width * size <= len);
        let stride: usize = self.width as usize * size;
        let start: usize = y as usize * stride;
        slice_subrange(self.buffer, start, start + stride)
    }

    /// The rows of the image from row `offset` on, top row first.
    pub fn iter_rows(&self, offset: u32) -> (rows: Vec<&'a [u8]>)
        requires
            self.wf(),
            offset <= self.height,
        ensures
            rows@.len() == self.height - offset,
            forall|i: int|
                0 <= i < rows@.len() ==> (#[trigger] rows@[i])@ == row_of(
                    self.buffer@,
                    self.stride(),
                    offset + i,
                ),
    {
        let mut rows: Vec<&'a [u8]> = Vec::with_capacity((self.height - offset) as usize);
        let mut y: u32 = offset;
        while y < self.height
            invariant
                offset <= y <= self.height,
                self.wf(),
                rows@.len() == y - offset,
                forall|i: int|
                    0 <= i < rows@.len() ==> (#[trigger] rows@[i])@ == row_of(
                        self.buffer@,
                        self.stride(),
                        offset + i,
                    ),
            decreases self.height - y,
        {
            rows.push(self.row(y));
            y += 1;
        }
        rows
    }

    /// Cuts the image above row `y` into rows `0..y` and rows `y..height`.
    pub fn split_at_row(&self, y: u32) -> (parts: (TypedImageView<'a>, TypedImageView<'a>))
        requires
            self.wf(),
            0 < y < self.height,
        ensures
            parts.0.wf(),
            parts.1.wf(),
            parts.0.width == self.width,
            parts.1.width == self.width,
            parts.0.pixel_type == self.pixel_type,
            parts.1.pixel_type == self.pixel_type,
            parts.0.height == y,
            parts.1.height == self.height - y,
            parts.0.buffer@ == self.buffer@.subrange(0, y * self.stride()),
            parts.1.buffer@ == self.buffer@.subrange(
                y * self.stride(),
                self.height * self.stride(),
            ),
    {
        proof {
            lemma_rows_fill_buffer(self.width, self.height, self.pixel_type, y as int);
            lemma_band_sizes(self.width, self.height, self.pixel_type, y as int);
        }
        let len: usize = self.buffer.len();
        let stride: usize = self.width as usize * self.pixel_type.size();
        let (top, bottom) = self.buffer.split_at(y as usize * stride);
        (
            TypedImageView {
                width: self.width,
                height: y,
                pixel_type: self.pixel_type,
                buffer: top,
            },
            TypedImageView {
                width: self.width,
                height: self.height - y,
                pixel_type: self.pixel_type,
                buffer: bottom,
            },
        )
    }
}

impl<'a> TypedImageViewMut<'a> {
    /// The buffer holds exactly `height` rows of `width` pixels.
    pub open spec fn wf(&self) -> bool {
        buffer_fits(self.width, self.height, self.pixel_type, self.buffer@.len())
    }

    /// Bytes in one row.
    pub open spec fn stride(&self) -> int {
        row_stride(self.width, self.pixel_type)
    }

    /// Cuts the image above row `y` into two images that share no byte:
    /// rows `0..y` and rows `y..height`. What is written to the two parts
    /// is what the image holds afterwards.
    pub fn split_at_row(self, y: u32) -> (parts: (TypedImageViewMut<'a>, TypedImageViewMut<'a>))
        requires
            self.wf(),
            0 < y < self.height,
        ensures
            parts.0.wf(),
            parts.1.wf(),
            parts.0.width == self.width,
            parts.1.width == self.width,
            parts.0.pixel_type == self.pixel_type,
            parts.1.pixel_type == self.pixel_type,
            parts.0.height == y,
            parts.1.height == self.height - y,
            parts.0.buffer@ == old(self.buffer)@.subrange(0, y * self.stride()),
            parts.1.buffer@ == old(self.buffer)@.subrange(
                y * self.stride(),
                self.height * self.stride(),
            ),
            final(self.buffer)@ == final(parts.0.buffer)@ + final(parts.1.buffer)@,
    {
        let TypedImageViewMut { width, height, pixel_type, buffer } = self;
        proof {
            lemma_rows_fill_buffer(width, height, pixel_type, y as int);
            lemma_band_sizes(width, height, pixel_type, y as int);
        }
        let len: usize = buffer.len();
        let stride: usize = width as usize * pixel_type.size();
        let (top, bottom) = buffer.split_at_mut(y as usize * stride);
        (
            TypedImageViewMut { width, height: y, pixel_type, buffer: top },
            TypedImageViewMut { width, height: height - y, pixel_type, buffer: bottom },
        )
    }

}

/// Row `y` of a writable buffer whose rows take `stride` bytes. Writing to
/// the row leaves the other rows as they are.
pub fn row_mut(buffer: &mut [u8], stride: usize, y: usize) -> (r: &mut [u8])
    requires
        y * stride + stride <= old(buffer)@.len(),
    ensures
        r@ == row_of(old(buffer)@, stride as int, y as int),
        final(buffer)@ == with_row(old(buffer)@, stride as int, y as int, final(r)@),
{
    let len: usize = buffer.len();
    assert(0 <= y * stride <= len) by (nonlinear_arith)
        requires
            y * stride + stride <= len,
            0 <= stride,
    ;
    let start: usize = y * stride;
    let (_head, rest) = buffer.split_at_mut(start);
    let (row, _tail) = rest.split_at_mut(stride);
    proof {
        assert(row@ =~= row_of(old(buffer)@, stride as int, y as int));
    }
    row
}

impl<'a> ImageViewMut<'a> {
    /// The buffer holds exactly `height` rows of `width` pixels.
    pub open spec fn wf(&self) -> bool {
        buffer_fits(self.width, self.height, self.pixel_type, self.buffer@.len())
    }

    /// Makes a writable view of `buffer` as an image of the given
    /// dimensions and format.
    pub fn new(width: u32, height: u32, buffer: &'a mut [u8], pixel_type: PixelType) -> (r: Result<
        ImageViewMut<'a>,
        ImageError,
    >)
        ensures
            match r {
                Ok(view) => {
                    &&& shape_error(width, height, pixel_type, old(buffer)@.len()) is None
                    &&& view.wf()
                    &&& view.width == width
                    &&& view.height == height
                    &&& view.pixel_type == pixel_type
                    &&& view.buffer@ == old(buffer)@
                    &&& final(buffer)@ == final(view.buffer)@
                },
                Err(e) => {
                    &&& shape_error(width, height, pixel_type, old(buffer)@.len()) == Some(e)
                    &&& final(buffer)@ == old(buffer)@
                },
            },
    {
        match check_shape(width, height, pixel_type, buffer.len()) {
            Err(e) => Err(e),
            Ok(()) => Ok(ImageViewMut { width, height, pixel_type, buffer }),
        }
    }

    /// The same image with row access for kernels of format `pixel_type`.
    /// A refused view hands the bytes back unchanged.
    pub fn as_typed(self, pixel_type: PixelType) -> (r: Result<TypedImageViewMut<'a>, ImageError>)
        ensures
            match r {
                Ok(view) => {
                    &&& self.pixel_type == pixel_type
                    &&& view.width == self.width
                    &&& view.height == self.height
                    &&& view.pixel_type == pixel_type
                    &&& view.buffer@ == old(self.buffer)@
                    &&& final(self.buffer)@ == final(view.buffer)@
                },
                Err(e) => {
                    &&& self.pixel_type != pixel_type
                    &&& e == ImageError::FormatMismatch
                    &&& final(self.buffer)@ == old(self.buffer)@
                },
            },
    {
        let ImageViewMut { width, height, pixel_type: own, buffer } = self;
        if own != pixel_type {
            return Err(ImageError::FormatMismatch);
        }
        Ok(TypedImageViewMut { width, height, pixel_type, buffer })
    }
}

/// An image that owns its bytes.
pub struct ImageData {
    width: u32,
    height: u32,
    pixel_type: PixelType,
    buffer: Vec<u8>,
}

impl ImageData {
    /// The bytes are exactly `height` rows of `width` pixels.
    pub closed spec fn wf(&self) -> bool {
        buffer_fits(self.width, self.height, self.pixel_type, self.buffer@.len())
    }

    /// Width in pixels.
    pub closed spec fn spec_width(&self) -> u32 {
        self.width
    }

    /// Height in pixels.
    pub closed spec fn spec_height(&self) -> u32 {
        self.height
    }

    /// Format of the pixels.
    pub closed spec fn spec_pixel_type(&self) -> PixelType {
        self.pixel_type
    }

    /// The bytes of the rows, top row first.
    pub closed spec fn bytes(&self) -> Seq<u8> {
        self.buffer@
    }

    /// Makes an image of `buffer`.
    pub fn new(width: u32, height: u32, buffer: Vec<u8>, pixel_type: PixelType) -> (r: Result<
        ImageData,
        ImageError,
    >)
        ensures
            match r {
                Ok(image) => {
                    &&& shape_error(width, height, pixel_type, buffer@.len()) is None
                    &&& image.wf()
                    &&& image.spec_width() == width
                    &&& image.spec_height() == height
                    &&& image.spec_pixel_type() == pixel_type
                    &&& image.bytes() == buffer@
                },
                Err(e) => shape_error(width, height, pixel_type, buffer@.len()) == Some(e),
            },
    {
        match check_shape(width, height, pixel_type, buffer.len()) {
            Err(e) => Err(e),
            Ok(()) => Ok(ImageData { width, height, pixel_type, buffer }),
        }
    }

    /// Makes an image of the given dimensions with every byte 0. An image
    /// too large for the address space is refused as `InvalidBuffer`.
    pub fn new_owned(width: u32, height: u32, pixel_type: PixelType) -> (r: Result<
        ImageData,
        ImageError,
    >)
        ensures
            match r {
                Ok(image) => {
                    &&& width > 0 && height > 0
                    &&& width * height * pixel_type.spec_size() <= usize::MAX
                    &&& image.wf()
                    &&& image.spec_width() == width
                    &&& image.spec_height() == height
                    &&& image.spec_pixel_type() == pixel_type
                    &&& image.bytes() == Seq::new(
                        (width * height * pixel_type.spec_size()) as nat,
                        |j: int| 0u8,
                    )
                },
                Err(e) => if width == 0 || height == 0 {
                    e == ImageError::ZeroDimension
                } else {
                    e == ImageError::InvalidBuffer && width * height * pixel_type.spec_size()
                        > usize::MAX
                },
            },
    {
        if width == 0 || height == 0 {
            return Err(ImageError::ZeroDimension);
        }
        let size: usize = pixel_type.size();
        assert(0 <= width * height <= 0xffff_ffff * 0xffff_ffff) by (nonlinear_arith);
        let pixels: u128 = width as u128 * height as u128;
        assert(pixels * size <= 0xffff_ffff * 0xffff_ffff * 8) by (nonlinear_arith)
            requires
                pixels <= 0xffff_ffff * 0xffff_ffff,
                size <= 8,
        ;
        let bytes: u128 = pixels * size as u128;
        if bytes > usize::MAX as u128 {
            return Err(ImageError::InvalidBuffer);
        }
        let buffer: Vec<u8> = vec![0u8; bytes as usize];
        assert(buffer@ =~= Seq::new(bytes as nat, |j: int| 0u8));
        Ok(ImageData { width, height, pixel_type, buffer })
    }

    /// Width in pixels.
    #[verifier::when_used_as_spec(spec_width)]
    pub fn width(&self) -> (r: u32)
        ensures
            r == self.spec_width(),
    {
        self.width
    }

    /// Height in pixels.
    #[verifier::when_used_as_spec(spec_height)]
    pub fn height(&self) -> (r: u32)
        ensures
            r == self.spec_height(),
    {
        self.height
    }

    /// Format of the pixels.
    #[verifier::when_used_as_spec(spec_pixel_type)]
    pub fn pixel_type(&self) -> (r: PixelType)
        ensures
            r == self.spec_pixel_type(),
    {
        self.pixel_type
    }

    /// The bytes of the rows, top row first.
    pub fn buffer(&self) -> (r: &[u8])
        ensures
            r@ == self.bytes(),
    {
        self.buffer.as_slice()
    }

    /// Gives up the image for its bytes.
    pub fn into_vec(self) -> (r: Vec<u8>)
        ensures
            r@ == self.bytes(),
    {
        self.buffer
    }

    /// The image for reading.
    pub fn src_view(&self) -> (r: ImageView<'_>)
        requires
            self.wf(),
        ensures
            r.wf(),
            r.width == self.spec_width(),
            r.height == self.spec_height(),
            r.pixel_type == self.spec_pixel_type(),
            r.buffer@ == self.bytes(),
    {
        ImageView {
            width: self.width,
            height: self.height,
            pixel_type: self.pixel_type,
            buffer: self.buffer.as_slice(),
        }
    }

    /// The image for writing. What is written through the view is what
    /// the image holds afterwards; its dimensions and format stay.
    pub fn dst_view(&mut self) -> (r: ImageViewMut<'_>)
        requires
            old(self).wf(),
        ensures
            r.wf(),
            r.width == old(self).spec_width(),
            r.height == old(self).spec_height(),
            r.pixel_type == old(self).spec_pixel_type(),
            r.buffer@ == old(self).bytes(),
            final(self).spec_width() == old(self).spec_width(),
            final(self).spec_height() == old(self).spec_height(),
            final(self).spec_pixel_type() == old(self).spec_pixel_type(),
            final(self).bytes() == final(r.buffer)@,
            final(r.buffer)@.len() == r.buffer@.len() ==> final(self).wf(),
    {
        ImageViewMut {
            width: self.width,
            height: self.height,
            pixel_type: self.pixel_type,
            buffer: self.buffer.as_mut_slice(),
        }
    }
}

} // verus!
