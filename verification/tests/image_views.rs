use fast_image_resize::image_view::{row_mut, TypedImageView, TypedImageViewMut};
use fast_image_resize::{ImageData, ImageError, ImageView, ImageViewMut, MulDiv, PixelType};

#[test]
fn pixel_formats() {
    let all = [
        (PixelType::U8, 1, 8, 1),
        (PixelType::U8x2, 2, 8, 2),
        (PixelType::U8x3, 3, 8, 3),
        (PixelType::U8x4, 4, 8, 4),
        (PixelType::U16, 1, 16, 2),
        (PixelType::U16x2, 2, 16, 4),
        (PixelType::U16x3, 3, 16, 6),
        (PixelType::U16x4, 4, 16, 8),
    ];
    for (pixel_type, channels, bits, size) in all {
        assert_eq!(pixel_type.channels(), channels);
        assert_eq!(pixel_type.channel_bits(), bits);
        assert_eq!(pixel_type.size(), size);
        assert_eq!(pixel_type.has_alpha(), channels == 4);
    }
}

#[test]
fn view_of_a_fitting_buffer() {
    let bytes = [0u8; 24];
    let view = ImageView::new(3, 2, &bytes, PixelType::U8x4).unwrap();
    assert_eq!((view.width, view.height, view.pixel_type), (3, 2, PixelType::U8x4));
    assert_eq!(view.buffer.len(), 24);
    assert!(ImageView::new(2, 2, &bytes, PixelType::U16x3).is_ok());
    assert!(ImageView::new(24, 1, &bytes, PixelType::U8).is_ok());
}

#[test]
fn view_refuses_a_zero_dimension() {
    let bytes = [0u8; 24];
    assert_eq!(ImageView::new(0, 2, &bytes, PixelType::U8).err(), Some(ImageError::ZeroDimension));
    assert_eq!(ImageView::new(2, 0, &bytes, PixelType::U8).err(), Some(ImageError::ZeroDimension));
    assert_eq!(ImageView::new(0, 0, &[], PixelType::U8).err(), Some(ImageError::ZeroDimension));
    let mut bytes = [0u8; 24];
    assert_eq!(
        ImageViewMut::new(0, 6, &mut bytes, PixelType::U8x4).err(),
        Some(ImageError::ZeroDimension)
    );
}

#[test]
fn view_refuses_a_buffer_of_another_length() {
    let bytes = [0u8; 24];
    assert_eq!(ImageView::new(3, 2, &bytes, PixelType::U8x3).err(), Some(ImageError::InvalidBuffer));
    assert_eq!(ImageView::new(5, 1, &bytes, PixelType::U8x4).err(), Some(ImageError::InvalidBuffer));
    assert_eq!(ImageView::new(7, 1, &bytes, PixelType::U8x4).err(), Some(ImageError::InvalidBuffer));
    assert_eq!(
        ImageView::new(u32::MAX, u32::MAX, &bytes, PixelType::U16x4).err(),
        Some(ImageError::InvalidBuffer)
    );
    let mut bytes = [0u8; 23];
    assert_eq!(
        ImageViewMut::new(3, 2, &mut bytes, PixelType::U8x4).err(),
        Some(ImageError::InvalidBuffer)
    );
}

#[test]
fn typed_view_asks_for_the_format_held() {
    let bytes: Vec<u8> = (0..24).collect();
    let view = ImageView::new(3, 2, &bytes, PixelType::U8x4).unwrap();
    assert_eq!(view.as_typed(PixelType::U8x3).err(), Some(ImageError::FormatMismatch));
    assert_eq!(view.as_typed(PixelType::U16x2).err(), Some(ImageError::FormatMismatch));
    let typed = view.as_typed(PixelType::U8x4).unwrap();
    assert_eq!(typed.row(0), &bytes[0..12]);
    assert_eq!(typed.row(1), &bytes[12..24]);

    let mut bytes: Vec<u8> = (0..24).collect();
    let view = ImageViewMut::new(3, 2, &mut bytes, PixelType::U8x4).unwrap();
    assert_eq!(view.as_typed(PixelType::U8).err(), Some(ImageError::FormatMismatch));
}

#[test]
fn writing_a_row_leaves_the_others() {
    let mut bytes: Vec<u8> = (0..12).collect();
    let row = row_mut(&mut bytes, 4, 1);
    assert_eq!(row, &[4, 5, 6, 7]);
    row.copy_from_slice(&[9, 9, 9, 9]);
    assert_eq!(bytes, vec![0, 1, 2, 3, 9, 9, 9, 9, 8, 9, 10, 11]);
}

#[test]
fn split_views_share_no_row() {
    let bytes: Vec<u8> = (0..40).collect();
    let view = TypedImageView { width: 2, height: 5, pixel_type: PixelType::U8x4, buffer: &bytes };
    let (top, bottom) = view.split_at_row(2);
    assert_eq!((top.width, top.height), (2, 2));
    assert_eq!((bottom.width, bottom.height), (2, 3));
    assert_eq!(top.buffer, &bytes[0..16]);
    assert_eq!(bottom.buffer, &bytes[16..40]);

    let mut copy = bytes.clone();
    let view =
        TypedImageViewMut { width: 2, height: 5, pixel_type: PixelType::U8x4, buffer: &mut copy };
    let (top, bottom) = view.split_at_row(4);
    assert_eq!((top.height, bottom.height), (4, 1));
    top.buffer[0] = 100;
    bottom.buffer[7] = 200;
    assert_eq!(copy[0], 100);
    assert_eq!(copy[39], 200);
    assert_eq!(&copy[1..39], &bytes[1..39]);
}

#[test]
fn owned_image() {
    let image = ImageData::new_owned(3, 2, PixelType::U16x4).unwrap();
    assert_eq!((image.width(), image.height(), image.pixel_type()), (3, 2, PixelType::U16x4));
    assert_eq!(image.buffer(), &[0u8; 48][..]);
    assert_eq!(ImageData::new_owned(0, 2, PixelType::U8).err(), Some(ImageError::ZeroDimension));
    assert_eq!(ImageData::new_owned(2, 0, PixelType::U8).err(), Some(ImageError::ZeroDimension));

    assert_eq!(
        ImageData::new(2, 2, vec![0u8; 15], PixelType::U8x4).err(),
        Some(ImageError::InvalidBuffer)
    );
    assert_eq!(
        ImageData::new(0, 2, vec![0u8; 16], PixelType::U8x4).err(),
        Some(ImageError::ZeroDimension)
    );
    let src = ImageData::new(2, 1, vec![255, 128, 0, 128, 0, 0, 0, 0], PixelType::U8x4).unwrap();
    let mut dst = ImageData::new_owned(2, 1, PixelType::U8x4).unwrap();
    MulDiv::new().multiply_alpha(&src.src_view(), dst.dst_view()).unwrap();
    assert_eq!(dst.buffer(), &[128, 64, 0, 128, 0, 0, 0, 0]);
    assert_eq!(dst.into_vec(), vec![128, 64, 0, 128, 0, 0, 0, 0]);
}

#[test]
fn error_messages_differ() {
    let all = [
        ImageError::InvalidBuffer,
        ImageError::FormatMismatch,
        ImageError::IncompatibleShapes,
        ImageError::UnsupportedFormat,
        ImageError::ZeroDimension,
    ];
    for (i, a) in all.iter().enumerate() {
        assert!(!a.message().is_empty());
        for b in &all[i + 1..] {
            assert_ne!(a.message(), b.message());
        }
    }
}
