use ppm::codec::FormatError;
use ppm::image::Image;
use ppm::pixel::Pixel;

fn image(width: usize, height: usize, nb_colors: usize, pixels: Vec<Pixel>) -> Image {
    let mut img = Image::new_empty();
    img.set_type(String::from("P3"));
    img.set_width(width);
    img.set_height(height);
    img.set_nb_colors(nb_colors);
    img.set_pixels(pixels);
    img
}

#[test]
fn decode_text_two_pixels() {
    let img = Image::decode_text(b"P3\n2 1\n255\n10 20 30  40 50 60\n").unwrap();
    assert_eq!(img.width(), 2);
    assert_eq!(img.height(), 1);
    assert_eq!(img.nb_colors(), 255);
    assert_eq!(img.ppm_type(), b"P3");
    assert_eq!(img.pixels(), &[Pixel::new(10, 20, 30), Pixel::new(40, 50, 60)]);
}

#[test]
fn decode_text_dimension_mismatch() {
    let r = Image::decode_text(b"P3\n3 3\n255\n1 2 3\n4 5 6\n");
    assert_eq!(r.unwrap_err(), FormatError::DimensionMismatch { pixels: 2, width: 3, height: 3 });
}

#[test]
fn header_comment_is_stripped() {
    let img = Image::decode_text(b"P3\n1 1\n255 # comment\n1 2 3\n").unwrap();
    assert_eq!(img.nb_colors(), 255);
    assert_eq!(img.pixels(), &[Pixel::new(1, 2, 3)]);
}

#[test]
fn comment_lines_and_body_comments() {
    let img =
        Image::decode_text(b"# made by hand\nP3\n# size\n2 1 # w h\n99\n1 2 3 # first\n# none\n4 5 6").unwrap();
    assert_eq!(img.nb_colors(), 99);
    assert_eq!(img.pixels(), &[Pixel::new(1, 2, 3), Pixel::new(4, 5, 6)]);
}

#[test]
fn header_on_one_line_with_tabs() {
    let img = Image::decode_text(b"P3 1\t1 255\r\n0 0 0\r\n").unwrap();
    assert_eq!(img.pixels(), &[Pixel::new(0, 0, 0)]);
}

#[test]
fn truncated_header() {
    assert_eq!(Image::decode_text(b"P3\n2 1\n").unwrap_err(), FormatError::Truncated);
    assert_eq!(Image::decode_text(b"").unwrap_err(), FormatError::Truncated);
    assert_eq!(Image::decode_binary(b"P6\n2").unwrap_err(), FormatError::Truncated);
}

#[test]
fn invalid_header_number() {
    assert_eq!(Image::decode_text(b"P3\nx 1\n255\n").unwrap_err(), FormatError::InvalidToken);
    assert_eq!(Image::decode_text(b"P3\n1 -1\n255\n").unwrap_err(), FormatError::InvalidToken);
}

#[test]
fn fifth_token_on_header_line() {
    assert_eq!(Image::decode_text(b"P3\n1 1 255 7 8 9\n").unwrap_err(), FormatError::InvalidToken);
}

#[test]
fn channel_out_of_range() {
    assert_eq!(Image::decode_text(b"P3\n1 1\n255\n1 2 256\n").unwrap_err(), FormatError::InvalidToken);
}

#[test]
fn triple_split_across_lines() {
    assert_eq!(Image::decode_text(b"P3\n1 1\n255\n1 2\n3\n").unwrap_err(), FormatError::InvalidToken);
}

#[test]
fn decode_binary_raw_bytes() {
    let mut bytes = b"P6\n2 1\n255\n".to_vec();
    bytes.extend_from_slice(&[10, 255, 32, 35, 13, 0, 7]);
    let img = Image::decode_binary(&bytes).unwrap();
    assert_eq!(img.ppm_type(), b"P6");
    assert_eq!(img.pixels(), &[Pixel::new(10, 255, 32), Pixel::new(35, 13, 0)]);
}

#[test]
fn decode_binary_mismatch() {
    let mut bytes = b"P6\n2 2\n255\n".to_vec();
    bytes.extend_from_slice(&[1, 2, 3, 4, 5, 6, 7, 8]);
    let r = Image::decode_binary(&bytes);
    assert_eq!(r.unwrap_err(), FormatError::DimensionMismatch { pixels: 2, width: 2, height: 2 });
}

#[test]
fn encode_text_exact() {
    let img = image(2, 2, 255, vec![
        Pixel::new(1, 2, 3),
        Pixel::new(4, 5, 6),
        Pixel::new(7, 8, 9),
        Pixel::new(10, 11, 12),
    ]);
    assert_eq!(img.encode_text(), b"P3\n2 2\n255\n1 2 3  4 5 6  \n7 8 9  10 11 12  ".to_vec());
}

#[test]
fn encode_text_wraps_long_lines() {
    let img = image(12, 1, 255, vec![Pixel::new(0, 0, 0); 12]);
    let mut want = b"P3\n12 1\n255\n".to_vec();
    for _ in 0..11 {
        want.extend_from_slice(b"0 0 0  ");
    }
    want.extend_from_slice(b"\n0 0 0  ");
    assert_eq!(img.encode_text(), want);
}

#[test]
fn encode_binary_exact() {
    let img = image(1, 2, 15, vec![Pixel::new(1, 2, 3), Pixel::new(255, 10, 0)]);
    assert_eq!(img.encode_binary(), b"P6\n1 2\n15\n\x01\x02\x03\xff\x0a\x00".to_vec());
}

#[test]
fn text_round_trip() {
    let px: Vec<Pixel> = (0..30u8).map(|i| Pixel::new(i, i.wrapping_mul(37), 255 - i)).collect();
    let img = image(5, 6, 200, px.clone());
    let back = Image::decode_text(&img.encode_text()).unwrap();
    assert_eq!(back.width(), 5);
    assert_eq!(back.height(), 6);
    assert_eq!(back.nb_colors(), 200);
    assert_eq!(back.ppm_type(), b"P3");
    assert_eq!(back.pixels(), &px[..]);
}

#[test]
fn binary_round_trip() {
    let px: Vec<Pixel> = (0..30u8).map(|i| Pixel::new(i, 10, 255 - i * 8)).collect();
    let img = image(10, 3, 255, px.clone());
    let back = Image::decode_binary(&img.encode_binary()).unwrap();
    assert_eq!(back.width(), 10);
    assert_eq!(back.height(), 3);
    assert_eq!(back.ppm_type(), b"P6");
    assert_eq!(back.pixels(), &px[..]);
}

#[test]
fn decoded_pixel_count_matches_dimensions() {
    let img = Image::decode_text(b"P3\n0 4\n255\n").unwrap();
    assert_eq!(img.pixels().len(), img.width() * img.height());
}

#[test]
fn leading_plus_accepted() {
    let img = Image::decode_text(b"P3\n+2 +1\n+255\n+10 20 +30  40 +50 60\n").unwrap();
    assert_eq!(img.width(), 2);
    assert_eq!(img.height(), 1);
    assert_eq!(img.nb_colors(), 255);
    assert_eq!(img.pixels(), &[Pixel::new(10, 20, 30), Pixel::new(40, 50, 60)]);
}

#[test]
fn lone_or_double_plus_rejected() {
    assert_eq!(Image::decode_text(b"P3\n1 1\n255\n+ 2 3\n").unwrap_err(), FormatError::InvalidToken);
    assert_eq!(Image::decode_text(b"P3\n1 1\n255\n++1 2 3\n").unwrap_err(), FormatError::InvalidToken);
    assert_eq!(Image::decode_text(b"P3\n1 1\n255\n1 2 -3\n").unwrap_err(), FormatError::InvalidToken);
    assert_eq!(Image::decode_text(b"P3\n1 1\n255\n1 2 +256\n").unwrap_err(), FormatError::InvalidToken);
}

#[test]
fn encode_text_wraps_on_real_line_length() {
    let img = image(8, 1, 255, vec![Pixel::new(255, 255, 255); 8]);
    let mut want = b"P3\n8 1\n255\n".to_vec();
    for _ in 0..6 {
        want.extend_from_slice(b"255 255 255  ");
    }
    want.push(b'\n');
    for _ in 0..2 {
        want.extend_from_slice(b"255 255 255  ");
    }
    assert_eq!(img.encode_text(), want);
}
