//! Reading back what was written: the text of an image parses to that image.

use vstd::prelude::*;
use crate::error::BhiError;
use crate::number::{decimal, is_digit, lemma_decimal, lemma_unsigned_decimal};
use crate::raster::{Pixel, RasterView};
use crate::text::{
    data_tokens, dimensions_of, has_header, header_dimensions, header_of, header_text,
    parsed, payload_of, payload_pixels, payload_text, pixel_text, pixels_of, serialized,
    triplet_of, triplet_text, COLON, COMMA, CROSS, DOT,
};
use crate::tokens::{find, free_of, lemma_find_is, lemma_split_joined, lemma_split_whole, split};

verus! {

/// The decimal text of a number holds nothing but digits, and so none of the
/// separators.
pub proof fn lemma_decimal_free_of(n: nat, sep: u8)
    requires
        !is_digit(sep),
    ensures
        free_of(decimal(n), sep),
{
    lemma_decimal(n);
}

/// A triplet reads back as the pixel it was written for.
pub proof fn lemma_triplet_round_trip(pixel: Pixel)
    ensures
        triplet_of(triplet_text(pixel)) == Some(pixel),
        triplet_text(pixel).len() > 0,
        free_of(triplet_text(pixel), COMMA),
{
    let red = decimal(pixel.0 as nat);
    let green = decimal(pixel.1 as nat);
    let blue = decimal(pixel.2 as nat);
    lemma_decimal(pixel.0 as nat);
    lemma_decimal(pixel.1 as nat);
    lemma_decimal(pixel.2 as nat);
    lemma_decimal_free_of(pixel.0 as nat, DOT);
    lemma_decimal_free_of(pixel.1 as nat, DOT);
    lemma_decimal_free_of(pixel.2 as nat, DOT);
    let text = triplet_text(pixel);
    assert(text == red + seq![DOT] + (green + seq![DOT] + blue));
    lemma_split_joined(red, DOT, green + seq![DOT] + blue);
    lemma_split_joined(green, DOT, blue);
    lemma_split_whole(blue, DOT);
    assert(split(text, DOT) == seq![red, green, blue]);
    lemma_unsigned_decimal(pixel.0 as nat, 255);
    lemma_unsigned_decimal(pixel.1 as nat, 255);
    lemma_unsigned_decimal(pixel.2 as nat, 255);
}

/// The tokens of a written payload are the triplets of its pixels, in order,
/// and one empty token after them.
pub proof fn lemma_payload_tokens(pixels: Seq<Pixel>)
    ensures
        split(payload_text(pixels), COMMA) == pixels.map_values(|p: Pixel| triplet_text(p)).push(
            Seq::<u8>::empty(),
        ),
    decreases pixels.len(),
{
    let texts = pixels.map_values(|p: Pixel| pixel_text(p));
    if pixels.len() == 0 {
        assert(payload_text(pixels) == Seq::<u8>::empty());
    } else {
        let first = pixels[0];
        let rest = pixels.drop_first();
        assert(texts.drop_first() == rest.map_values(|p: Pixel| pixel_text(p)));
        assert(payload_text(pixels) == triplet_text(first) + seq![COMMA] + payload_text(rest));
        lemma_triplet_round_trip(first);
        lemma_split_joined(triplet_text(first), COMMA, payload_text(rest));
        lemma_payload_tokens(rest);
        assert(seq![triplet_text(first)] + rest.map_values(|p: Pixel| triplet_text(p)).push(
            Seq::<u8>::empty(),
        ) == pixels.map_values(|p: Pixel| triplet_text(p)).push(Seq::<u8>::empty()));
    }
}

/// A written payload reads back as the pixels it was written for.
pub proof fn lemma_pixels_round_trip(pixels: Seq<Pixel>)
    ensures
        pixels_of(payload_text(pixels)) == Some(pixels),
{
    let empty = Seq::<u8>::empty();
    let triplets = pixels.map_values(|p: Pixel| triplet_text(p));
    let tokens = split(payload_text(pixels), COMMA);
    lemma_payload_tokens(pixels);
    let n = pixels.len() as int;
    assert(tokens.take(n) == triplets);
    assert forall|i: int| 0 <= i < n implies triplets[i] != empty && triplet_of(triplets[i])
        == Some(pixels[i]) by {
        lemma_triplet_round_trip(pixels[i]);
    }
    lemma_find_is(tokens, empty, n);
    let data = data_tokens(tokens);
    assert(data == triplets);
    assert(data.map_values(|token: Seq<u8>| triplet_of(token)->0) == pixels);
}

/// In the text of an image the first colon is the one that ends the header:
/// in front of it stand width, `x` and height, after it the payload.
pub proof fn lemma_serialized_parts(width: u32, height: u32, pixels: Seq<Pixel>)
    ensures
        has_header(serialized(width, height, pixels)),
        header_of(serialized(width, height, pixels)) == decimal(width as nat) + seq![CROSS]
            + decimal(height as nat),
        payload_of(serialized(width, height, pixels)) == payload_text(pixels),
{
    let buffer = serialized(width, height, pixels);
    let header = decimal(width as nat) + seq![CROSS] + decimal(height as nat);
    lemma_decimal_free_of(width as nat, COLON);
    lemma_decimal_free_of(height as nat, COLON);
    let k = header.len() as int;
    assert(header_text(width, height) == header + seq![COLON]);
    assert(buffer.take(k) == header);
    assert(buffer[k] == COLON);
    lemma_find_is(buffer, COLON, k);
    assert(buffer.skip(k + 1) == payload_text(pixels));
}

/// The header of a written image gives back its width and height, whatever
/// pixels follow.
pub proof fn lemma_header_round_trip(width: u32, height: u32, pixels: Seq<Pixel>)
    ensures
        header_dimensions(serialized(width, height, pixels)) == Ok::<(u32, u32), BhiError>(
            (width, height),
        ),
{
    lemma_serialized_parts(width, height, pixels);
    let wide = decimal(width as nat);
    let high = decimal(height as nat);
    lemma_decimal_free_of(width as nat, CROSS);
    lemma_decimal_free_of(height as nat, CROSS);
    lemma_split_joined(wide, CROSS, high);
    lemma_split_whole(high, CROSS);
    assert(split(wide + seq![CROSS] + high, CROSS) == seq![wide, high]);
    lemma_unsigned_decimal(width as nat, u32::MAX as nat);
    lemma_unsigned_decimal(height as nat, u32::MAX as nat);
    assert(dimensions_of(wide + seq![CROSS] + high) == Some((width, height)));
}

/// The payload of a written image gives back its pixels, in order, whatever
/// the dimensions say.
pub proof fn lemma_payload_round_trip(width: u32, height: u32, pixels: Seq<Pixel>)
    ensures
        payload_pixels(serialized(width, height, pixels)) == Ok::<Seq<Pixel>, BhiError>(pixels),
{
    lemma_serialized_parts(width, height, pixels);
    lemma_pixels_round_trip(pixels);
}

/// Round trip: the text written for a raster parses to that raster. This
/// holds for every width, height and pixel values, as long as there is one
/// pixel for each position of the grid.
pub proof fn lemma_round_trip(width: u32, height: u32, pixels: Seq<Pixel>)
    requires
        pixels.len() == width * height,
    ensures
        parsed(serialized(width, height, pixels)) == Ok::<RasterView, BhiError>(
            RasterView { width, height, pixels },
        ),
{
    lemma_header_round_trip(width, height, pixels);
    lemma_payload_round_trip(width, height, pixels);
}

/// Text written with a number of pixels that does not fit the dimensions is
/// read up to the size check and refused there.
pub proof fn lemma_round_trip_size(width: u32, height: u32, pixels: Seq<Pixel>)
    requires
        pixels.len() != width * height,
    ensures
        parsed(serialized(width, height, pixels)) == Err::<RasterView, BhiError>(
            BhiError::SizeMismatch,
        ),
{
    lemma_header_round_trip(width, height, pixels);
    lemma_payload_round_trip(width, height, pixels);
}

} // verus!
