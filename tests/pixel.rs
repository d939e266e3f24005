use ppm::pixel::Pixel;

fn get_test_pixel() -> Pixel {
    Pixel::new(50, 100, 150)
}

#[test]
fn test_red() {
    assert_eq!(get_test_pixel().red(), 50)
}

#[test]
fn test_green() {
    assert_eq!(get_test_pixel().green(), 100)
}

#[test]
fn test_blue() {
    assert_eq!(get_test_pixel().blue(), 150)
}

#[test]
fn test_display() {
    assert_eq!(get_test_pixel().display(), "50, 100, 150")
}

#[test]
fn test_invert() {
    let pix = get_test_pixel();
    assert_eq!(pix.invert().display(), "205, 155, 105")
}

#[test]
fn test_greyscale() {
    let pix = get_test_pixel();
    assert_eq!(pix.greyscale().display(), "100, 100, 100")
}

#[test]
fn test_eq() {
    assert!(get_test_pixel().eq(get_test_pixel()))
}

#[test]
fn eq_differs_on_one_channel() {
    assert!(!Pixel::new(1, 2, 3).eq(Pixel::new(1, 2, 4)));
}

#[test]
fn display_extremes() {
    assert_eq!(Pixel::new(0, 9, 255).display(), "0, 9, 255");
}

#[test]
fn invert_twice_gives_back() {
    for p in [Pixel::new(0, 128, 255), Pixel::new(50, 100, 150), Pixel::new(7, 7, 200)] {
        assert_eq!(p.invert().invert(), p);
    }
}

#[test]
fn invert_extremes() {
    assert_eq!(Pixel::new(0, 255, 1).invert(), Pixel::new(255, 0, 254));
}

#[test]
fn greyscale_twice_is_greyscale() {
    for p in [Pixel::new(0, 128, 255), Pixel::new(50, 100, 150), Pixel::new(255, 255, 254)] {
        assert_eq!(p.greyscale().greyscale(), p.greyscale());
    }
}

#[test]
fn greyscale_channels_equal_and_rounded_down() {
    let g = Pixel::new(255, 255, 254).greyscale();
    assert_eq!(g.red(), 254);
    assert_eq!(g.red(), g.green());
    assert_eq!(g.green(), g.blue());
    assert_eq!(Pixel::new(1, 1, 0).greyscale(), Pixel::new(0, 0, 0));
}
