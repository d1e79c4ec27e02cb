use raytracer::framebuffer::{FrameBuffer, RenderTarget};
use raytracer::rendering::{black, red, Color};

#[test]
fn framebuffer_new() {
    let buffer = FrameBuffer::new(10, 15);
    assert_eq!(10, buffer.width());
    assert_eq!(15, buffer.height());
    assert_eq!(10 * 15, buffer.pixel_count());
}

#[test]
fn clear() {
    let mut buffer = FrameBuffer::new(5, 9);

    buffer.clear(red());

    for x in 0..buffer.width() {
        for y in 0..buffer.height() {
            assert_eq!(red(), buffer.get(x, y));
        }
    }
}

#[test]
fn new_buffer_is_black_with_three_bytes_per_pixel() {
    let buffer = FrameBuffer::new(4, 3);
    assert_eq!(36, buffer.as_bytes().len());
    assert!(buffer.as_bytes().iter().all(|b| *b == 0));
    assert_eq!(black(), buffer.get(3, 2));
}

#[test]
fn set_writes_one_pixel_in_rgb_order() {
    let mut buffer = FrameBuffer::new(4, 3);
    buffer.set(2, 1, Color::new(1, 2, 3));
    assert_eq!(Color::new(1, 2, 3), buffer.get(2, 1));
    assert_eq!(black(), buffer.get(1, 1));
    assert_eq!(black(), buffer.get(2, 2));
    let offset = 3 * (2 + 1 * 4);
    assert_eq!(&[1u8, 2, 3], &buffer.as_bytes()[offset..offset + 3]);
}

#[test]
fn packs_pixels_as_0rgb_words() {
    let mut buffer = FrameBuffer::new(2, 2);
    buffer.set(1, 0, Color::new(0x12, 0x34, 0x56));
    buffer.set(0, 1, red());
    assert_eq!(vec![0, 0x123456, 0xff0000, 0], buffer.to_0rgb());
}

#[test]
fn one_pixel_dimensions_are_refused_at_construction() {
    assert!(FrameBuffer::try_new(1, 5).is_none());
    assert!(FrameBuffer::try_new(5, 1).is_none());
    assert!(FrameBuffer::try_new(0, 0).is_none());
    assert!(FrameBuffer::try_new(65536, 65536).is_none());
    let b = FrameBuffer::try_new(2, 2).unwrap();
    assert_eq!((2, 2), (b.width(), b.height()));
}
