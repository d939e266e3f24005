use ppm::image::Image;
use ppm::pixel::Pixel;

#[test]
fn new_empty_defaults() {
    let img = Image::new_empty();
    assert_eq!(img.width(), 0);
    assert_eq!(img.height(), 0);
    assert_eq!(img.nb_colors(), 255);
    assert_eq!(img.ppm_type(), b"p3");
    assert!(img.pixels().is_empty());
}

#[test]
fn setters_store_values() {
    let mut img = Image::new_empty();
    img.set_type(String::from("P6"));
    img.set_width(3);
    img.set_height(4);
    img.set_nb_colors(15);
    img.set_pixels(vec![Pixel::new(1, 2, 3)]);
    assert_eq!(img.ppm_type(), b"P6");
    assert_eq!(img.width(), 3);
    assert_eq!(img.height(), 4);
    assert_eq!(img.nb_colors(), 15);
    assert_eq!(img.pixels(), &[Pixel::new(1, 2, 3)]);
}

#[test]
fn image_invert_and_greyscale() {
    let mut img = Image::new_empty();
    img.set_pixels(vec![Pixel::new(50, 100, 150), Pixel::new(0, 0, 255)]);
    img.invert();
    assert_eq!(img.pixels(), &[Pixel::new(205, 155, 105), Pixel::new(255, 255, 0)]);
    img.greyscale();
    assert_eq!(img.pixels()[0].display(), "155, 155, 155");
    assert_eq!(img.pixels()[1], Pixel::new(170, 170, 170));
}
