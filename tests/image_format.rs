use sierpinski::image_format::{pixel_format_for, PixelFormat};

#[test]
fn format_follows_the_extension() {
    assert_eq!(pixel_format_for(b"textures/awesomeface.png"), Some(PixelFormat::Rgba));
    assert_eq!(pixel_format_for(b"textures/container.jpg"), Some(PixelFormat::Rgb));
    assert_eq!(pixel_format_for(b"photo.jpeg"), Some(PixelFormat::Rgb));
    assert_eq!(pixel_format_for(b"image.bmp"), None);
    assert_eq!(pixel_format_for(b""), None);
}

#[test]
fn only_the_part_after_the_last_dot_counts() {
    assert_eq!(pixel_format_for(b"png.folder/picture.gif"), None);
    assert_eq!(pixel_format_for(b"archive.jpg.tar"), None);
    assert_eq!(pixel_format_for(b"no_dot_png"), Some(PixelFormat::Rgba));
    assert_eq!(pixel_format_for(b"ends_with_dot."), None);
    assert_eq!(pixel_format_for(b"x.apngx"), Some(PixelFormat::Rgba));
}
