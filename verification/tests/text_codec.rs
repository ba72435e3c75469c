use bhi::error::BhiError;
use bhi::raster::Raster;
use bhi::text::{
    get_dimensions, pack_rgb, parse, read_dimensions, read_pixels, read_token, read_triplet,
    serialize, Token,
};

#[test]
fn serialize_writes_header_and_comma_terminated_triplets() {
    let text = serialize(2, 1, &[(1, 2, 3), (40, 50, 255)]);
    assert_eq!(text, b"2x1:1.2.3,40.50.255,".to_vec());
}

#[test]
fn serialize_without_pixels_is_the_header_alone() {
    assert_eq!(serialize(0, 5, &[]), b"0x5:".to_vec());
}

#[test]
fn serialize_writes_the_largest_dimensions_in_full() {
    assert_eq!(serialize(4294967295, 10, &[(0, 0, 0)]), b"4294967295x10:0.0.0,".to_vec());
}

#[test]
fn serialize_does_not_check_the_pixel_count() {
    assert_eq!(serialize(3, 3, &[(9, 8, 7)]), b"3x3:9.8.7,".to_vec());
}

#[test]
fn parse_reads_back_what_serialize_wrote() {
    let pixels = vec![(0, 0, 0), (255, 255, 255), (1, 20, 200), (9, 10, 11), (7, 7, 7), (3, 2, 1)];
    let text = serialize(3, 2, &pixels);
    let raster = parse(&text).unwrap();
    assert_eq!(raster.width(), 3);
    assert_eq!(raster.height(), 2);
    assert_eq!(raster.pixels(), &pixels[..]);
    assert_eq!(get_dimensions(&text), Ok((3, 2)));
    assert_eq!(pack_rgb(&text), Ok(pixels));
}

#[test]
fn parse_reads_back_an_empty_raster() {
    let text = serialize(0, 7, &[]);
    let raster = parse(&text).unwrap();
    assert_eq!(raster, Raster::new(0, 7, vec![]).unwrap());
}

#[test]
fn header_gives_width_then_height() {
    assert_eq!(get_dimensions(b"10x20:..."), Ok((10, 20)));
}

#[test]
fn header_with_zero_width_is_read() {
    assert_eq!(get_dimensions(b"0x5:,"), Ok((0, 5)));
    assert_eq!(pack_rgb(b"0x5:,"), Ok(vec![]));
    let raster = parse(b"0x5:,").unwrap();
    assert_eq!(raster.width(), 0);
    assert_eq!(raster.height(), 5);
    assert!(raster.pixels().is_empty());
}

#[test]
fn header_ends_at_the_first_colon() {
    assert_eq!(get_dimensions(b"3x4:5x6:"), Ok((3, 4)));
}

#[test]
fn header_without_colon_is_missing() {
    assert_eq!(get_dimensions(b"10x20"), Err(BhiError::MissingHeader));
    assert_eq!(get_dimensions(b""), Err(BhiError::MissingHeader));
    assert_eq!(pack_rgb(b"1.2.3,"), Err(BhiError::MissingHeader));
    assert_eq!(parse(b"10x20"), Err(BhiError::MissingHeader));
}

#[test]
fn header_needs_exactly_two_numbers() {
    assert_eq!(get_dimensions(b"10:"), Err(BhiError::MalformedDimensions));
    assert_eq!(get_dimensions(b":"), Err(BhiError::MalformedDimensions));
    assert_eq!(get_dimensions(b"10x20x30:"), Err(BhiError::MalformedDimensions));
    assert_eq!(get_dimensions(b"10x:"), Err(BhiError::MalformedDimensions));
    assert_eq!(get_dimensions(b"x20:"), Err(BhiError::MalformedDimensions));
    assert_eq!(get_dimensions(b"ax5:"), Err(BhiError::MalformedDimensions));
    assert_eq!(get_dimensions(b"10 x20:"), Err(BhiError::MalformedDimensions));
    assert_eq!(get_dimensions(b"-1x2:"), Err(BhiError::MalformedDimensions));
    assert_eq!(get_dimensions(b"10X20:"), Err(BhiError::MalformedDimensions));
}

#[test]
fn header_numbers_must_fit_32_bits() {
    assert_eq!(get_dimensions(b"4294967295x1:"), Ok((4294967295, 1)));
    assert_eq!(get_dimensions(b"4294967296x1:"), Err(BhiError::MalformedDimensions));
    assert_eq!(
        get_dimensions(b"1x99999999999999999999999999:"),
        Err(BhiError::MalformedDimensions)
    );
}

#[test]
fn header_numbers_may_have_a_plus_and_leading_zeros() {
    assert_eq!(get_dimensions(b"+5x007:"), Ok((5, 7)));
    assert_eq!(get_dimensions(b"0000000000000000000012x1:"), Ok((12, 1)));
    assert_eq!(get_dimensions(b"++5x7:"), Err(BhiError::MalformedDimensions));
    assert_eq!(get_dimensions(b"+x7:"), Err(BhiError::MalformedDimensions));
    assert_eq!(read_dimensions(b"12x34"), Some((12, 34)));
}

#[test]
fn payload_with_trailing_comma_gives_its_triplets() {
    assert_eq!(read_pixels(b"1.2.3,4.5.6,"), Some(vec![(1, 2, 3), (4, 5, 6)]));
    assert_eq!(pack_rgb(b"2x1:1.2.3,4.5.6,"), Ok(vec![(1, 2, 3), (4, 5, 6)]));
}

#[test]
fn payload_stops_at_the_first_empty_token() {
    assert_eq!(read_pixels(b"1.2.3,,4.5.6,"), Some(vec![(1, 2, 3)]));
    assert_eq!(pack_rgb(b"1x1:1.2.3,,4.5.6,"), Ok(vec![(1, 2, 3)]));
}

#[test]
fn payload_after_the_terminator_is_not_looked_at() {
    assert_eq!(read_pixels(b"1.2.3,,this is not a pixel"), Some(vec![(1, 2, 3)]));
    assert_eq!(read_pixels(b",1.2"), Some(vec![]));
    assert_eq!(read_pixels(b""), Some(vec![]));
}

#[test]
fn payload_without_trailing_comma_still_gives_the_last_triplet() {
    assert_eq!(read_pixels(b"1.2.3,4.5.6"), Some(vec![(1, 2, 3), (4, 5, 6)]));
}

#[test]
fn payload_is_everything_after_the_first_colon() {
    assert_eq!(pack_rgb(b"1x1:1.2.3,:4.5.6,"), Err(BhiError::MalformedPixel));
    assert_eq!(pack_rgb(b"1x1:1.2.3,,:4.5.6,"), Ok(vec![(1, 2, 3)]));
}

#[test]
fn pixel_with_two_channels_is_malformed() {
    assert_eq!(read_token(b"1.2"), Err(BhiError::MalformedPixel));
    assert_eq!(read_triplet(b"1.2"), None);
    assert_eq!(pack_rgb(b"1x1:1.2,"), Err(BhiError::MalformedPixel));
    assert_eq!(parse(b"1x1:1.2,"), Err(BhiError::MalformedPixel));
}

#[test]
fn pixel_channel_out_of_range_is_malformed() {
    assert_eq!(read_token(b"1.2.256"), Err(BhiError::MalformedPixel));
    assert_eq!(read_token(b"1.2.255"), Ok(Token::Value((1, 2, 255))));
    assert_eq!(pack_rgb(b"1x1:1.2.256,"), Err(BhiError::MalformedPixel));
}

#[test]
fn pixel_with_an_empty_or_extra_channel_is_malformed() {
    assert_eq!(read_token(b"1..3"), Err(BhiError::MalformedPixel));
    assert_eq!(read_token(b"1.2."), Err(BhiError::MalformedPixel));
    assert_eq!(read_token(b".2.3"), Err(BhiError::MalformedPixel));
    assert_eq!(read_token(b"1.2.3.4"), Err(BhiError::MalformedPixel));
    assert_eq!(read_token(b"1.2.3 "), Err(BhiError::MalformedPixel));
    assert_eq!(read_token(b"a.b.c"), Err(BhiError::MalformedPixel));
    assert_eq!(read_token(b"."), Err(BhiError::MalformedPixel));
}

#[test]
fn malformed_pixel_in_front_of_the_terminator_gives_up_the_payload() {
    assert_eq!(read_pixels(b"1.2.3,4.5,6.7.8,"), None);
    assert_eq!(pack_rgb(b"3x1:1.2.3,4.5,6.7.8,"), Err(BhiError::MalformedPixel));
}

#[test]
fn empty_token_is_the_terminator() {
    assert_eq!(read_token(b""), Ok(Token::Terminator));
    assert_eq!(read_token(b"0.0.0"), Ok(Token::Value((0, 0, 0))));
    assert_eq!(read_token(b"+1.02.003"), Ok(Token::Value((1, 2, 3))));
}

#[test]
fn parse_checks_the_pixel_count_against_the_dimensions() {
    assert_eq!(parse(b"2x2:1.2.3,4.5.6,"), Err(BhiError::SizeMismatch));
    assert_eq!(parse(b"1x1:1.2.3,4.5.6,"), Err(BhiError::SizeMismatch));
    assert_eq!(parse(b"1x1:"), Err(BhiError::SizeMismatch));
    assert_eq!(parse(b"4294967295x4294967295:1.2.3,"), Err(BhiError::SizeMismatch));
    assert_eq!(parse(&serialize(3, 3, &[(9, 8, 7)])), Err(BhiError::SizeMismatch));
    assert!(parse(b"2x1:1.2.3,4.5.6,").is_ok());
}

#[test]
fn parse_reports_the_header_before_the_payload() {
    assert_eq!(parse(b"2y1:1.2,"), Err(BhiError::MalformedDimensions));
    assert_eq!(parse(b"2x1:1.2,"), Err(BhiError::MalformedPixel));
}

#[test]
fn parse_takes_bytes_above_ascii_as_malformed() {
    assert_eq!(parse(&[0xff, b'x', b'1', b':']), Err(BhiError::MalformedDimensions));
    assert_eq!(parse(&[b'1', b'x', b'1', b':', 0xc3, 0xa9, b',']), Err(BhiError::MalformedPixel));
}
