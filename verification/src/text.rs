//! The BHI text form and its codec.
//!
//! ```text
//! buffer   := header ":" payload
//! header   := uint "x" uint
//! payload  := (triplet ",")*
//! triplet  := uint8 "." uint8 "." uint8
//! ```
//!
//! The comma after the last triplet leaves an empty token at the end of the
//! payload. The first empty token ends the pixel data: nothing after it is
//! looked at.

use vstd::prelude::*;
use vstd::slice::slice_subrange;
use crate::error::BhiError;
use crate::number::{decimal, parse_unsigned, push_decimal, unsigned};
use crate::raster::{lemma_area_bounds, Pixel, Raster, RasterView};
use crate::tokens::{find, find_from, lemma_find, lemma_find_is, split, split_at_byte, views};

verus! {

/// The byte `:`, which ends the header.
pub const COLON: u8 = 58;

/// The byte `x`, which stands between width and height.
pub const CROSS: u8 = 120;

/// The byte `,`, which ends a triplet.
pub const COMMA: u8 = 44;

/// The byte `.`, which stands between the channels of a triplet.
pub const DOT: u8 = 46;

/// What one token of the payload is.
#[derive(Debug, Clone, Copy, PartialEq, Eq)]
pub enum Token {
    /// Three channel values.
    Value(Pixel),
    /// The empty token that ends the pixel data.
    Terminator,
}

// ---------------------------------------------------------------------------
// Writing
// ---------------------------------------------------------------------------

/// The header of a `width` by `height` image, with the colon that ends it.
pub open spec fn header_text(width: u32, height: u32) -> Seq<u8> {
    decimal(width as nat) + seq![CROSS] + decimal(height as nat) + seq![COLON]
}

/// The three channels of a pixel with dots between them.
pub open spec fn triplet_text(pixel: Pixel) -> Seq<u8> {
    decimal(pixel.0 as nat) + seq![DOT] + decimal(pixel.1 as nat) + seq![DOT] + decimal(
        pixel.2 as nat,
    )
}

/// A pixel as it stands in the payload: its triplet and a comma.
pub open spec fn pixel_text(pixel: Pixel) -> Seq<u8> {
    triplet_text(pixel) + seq![COMMA]
}

/// The payload for `pixels`: the text of each, in order.
pub open spec fn payload_text(pixels: Seq<Pixel>) -> Seq<u8> {
    pixels.map_values(|p: Pixel| pixel_text(p)).flatten()
}

/// The whole text of an image.
pub open spec fn serialized(width: u32, height: u32, pixels: Seq<Pixel>) -> Seq<u8> {
    header_text(width, height) + payload_text(pixels)
}

/// Adding a pixel at the end adds its text at the end of the payload.
pub proof fn lemma_payload_push(pixels: Seq<Pixel>, pixel: Pixel)
    ensures
        payload_text(pixels.push(pixel)) == payload_text(pixels) + pixel_text(pixel),
{
    let texts = pixels.map_values(|p: Pixel| pixel_text(p));
    assert(pixels.push(pixel).map_values(|p: Pixel| pixel_text(p)) == texts.push(
        pixel_text(pixel),
    ));
    texts.lemma_flatten_push(pixel_text(pixel));
}

/// Writes the text of an image: the header, then every pixel in the order
/// given, each followed by a comma.
pub fn serialize(width: u32, height: u32, pixels: &[Pixel]) -> (out: Vec<u8>)
    ensures
        out@ == serialized(width, height, pixels@),
{
    let mut out: Vec<u8> = Vec::new();
    push_decimal(&mut out, width);
    out.push(CROSS);
    push_decimal(&mut out, height);
    out.push(COLON);
    assert(out@ == header_text(width, height));
    assert(payload_text(pixels@.take(0)) == Seq::<u8>::empty());
    let mut i: usize = 0;
    while i < pixels.len()
        invariant
            i <= pixels.len(),
            out@ == header_text(width, height) + payload_text(pixels@.take(i as int)),
        decreases pixels.len() - i,
    {
        let pixel = pixels[i];
        let ghost before = out@;
        push_decimal(&mut out, pixel.0 as u32);
        out.push(DOT);
        push_decimal(&mut out, pixel.1 as u32);
        out.push(DOT);
        push_decimal(&mut out, pixel.2 as u32);
        out.push(COMMA);
        proof {
            assert(out@ == before + pixel_text(pixel));
            assert(pixels@.take(i + 1) == pixels@.take(i as int).push(pixel));
            lemma_payload_push(pixels@.take(i as int), pixel);
        }
        i += 1;
    }
    assert(pixels@.take(i as int) == pixels@);
    out
}

// ---------------------------------------------------------------------------
// Reading
// ---------------------------------------------------------------------------

/// The buffer holds a colon, and so a header.
pub open spec fn has_header(buffer: Seq<u8>) -> bool {
    find(buffer, COLON) < buffer.len()
}

/// What stands in front of the first colon.
pub open spec fn header_of(buffer: Seq<u8>) -> Seq<u8> {
    buffer.take(find(buffer, COLON))
}

/// Everything after the first colon.
pub open spec fn payload_of(buffer: Seq<u8>) -> Seq<u8> {
    buffer.skip(find(buffer, COLON) + 1)
}

/// Width and height that a header stands for: exactly two parts around one
/// `x`, each an unsigned 32-bit decimal number.
pub open spec fn dimensions_of(header: Seq<u8>) -> Option<(u32, u32)> {
    let parts = split(header, CROSS);
    if parts.len() == 2 && unsigned(parts[0], u32::MAX as nat) is Some && unsigned(
        parts[1],
        u32::MAX as nat,
    ) is Some {
        Some(
            (
                unsigned(parts[0], u32::MAX as nat)->0 as u32,
                unsigned(parts[1], u32::MAX as nat)->0 as u32,
            ),
        )
    } else {
        None
    }
}

/// The pixel that a token stands for: exactly three parts around two dots,
/// each an unsigned 8-bit decimal number.
pub open spec fn triplet_of(token: Seq<u8>) -> Option<Pixel> {
    let parts = split(token, DOT);
    if parts.len() == 3 && unsigned(parts[0], 255) is Some && unsigned(parts[1], 255) is Some
        && unsigned(parts[2], 255) is Some {
        Some(
            (
                unsigned(parts[0], 255)->0 as u8,
                unsigned(parts[1], 255)->0 as u8,
                unsigned(parts[2], 255)->0 as u8,
            ),
        )
    } else {
        None
    }
}

/// What a token of the payload is: the terminator if it is empty, else the
/// pixel it stands for, else malformed.
pub open spec fn token_of(token: Seq<u8>) -> Result<Token, BhiError> {
    if token.len() == 0 {
        Ok(Token::Terminator)
    } else {
        match triplet_of(token) {
            Some(pixel) => Ok(Token::Value(pixel)),
            None => Err(BhiError::MalformedPixel),
        }
    }
}

/// The tokens that hold pixel data: those in front of the first empty one.
pub open spec fn data_tokens(tokens: Seq<Seq<u8>>) -> Seq<Seq<u8>> {
    tokens.take(find(tokens, Seq::<u8>::empty()))
}

/// The pixels of a payload: its data tokens, each read as a triplet. There are
/// none to speak of if one of the data tokens is malformed.
pub open spec fn pixels_of(payload: Seq<u8>) -> Option<Seq<Pixel>> {
    let data = data_tokens(split(payload, COMMA));
    if forall|i: int| 0 <= i < data.len() ==> (#[trigger] triplet_of(data[i])) is Some {
        Some(data.map_values(|token: Seq<u8>| triplet_of(token)->0))
    } else {
        None
    }
}

/// The dimensions that the header of a buffer gives.
pub open spec fn header_dimensions(buffer: Seq<u8>) -> Result<(u32, u32), BhiError> {
    if !has_header(buffer) {
        Err(BhiError::MissingHeader)
    } else {
        match dimensions_of(header_of(buffer)) {
            Some(dimensions) => Ok(dimensions),
            None => Err(BhiError::MalformedDimensions),
        }
    }
}

/// The pixels that the payload of a buffer gives.
pub open spec fn payload_pixels(buffer: Seq<u8>) -> Result<Seq<Pixel>, BhiError> {
    if !has_header(buffer) {
        Err(BhiError::MissingHeader)
    } else {
        match pixels_of(payload_of(buffer)) {
            Some(pixels) => Ok(pixels),
            None => Err(BhiError::MalformedPixel),
        }
    }
}

/// The image that a buffer stands for. The header is read first, then the
/// payload, and at last the number of pixels is held against the dimensions.
pub open spec fn parsed(buffer: Seq<u8>) -> Result<RasterView, BhiError> {
    match header_dimensions(buffer) {
        Err(e) => Err(e),
        Ok((width, height)) => match payload_pixels(buffer) {
            Err(e) => Err(e),
            Ok(pixels) => if pixels.len() == width * height {
                Ok(RasterView { width, height, pixels })
            } else {
                Err(BhiError::SizeMismatch)
            },
        },
    }
}

/// Reads a header, without its colon.
pub fn read_dimensions(header: &[u8]) -> (out: Option<(u32, u32)>)
    ensures
        out == dimensions_of(header@),
{
    let parts = split_at_byte(header, CROSS);
    if parts.len() != 2 {
        return None;
    }
    assert(views(parts@)[0] == parts@[0]@ && views(parts@)[1] == parts@[1]@);
    match (parse_unsigned(parts[0], u32::MAX), parse_unsigned(parts[1], u32::MAX)) {
        (Some(width), Some(height)) => Some((width, height)),
        _ => None,
    }
}

/// Reads a triplet, without its comma.
pub fn read_triplet(token: &[u8]) -> (out: Option<Pixel>)
    ensures
        out == triplet_of(token@),
{
    let parts = split_at_byte(token, DOT);
    if parts.len() != 3 {
        return None;
    }
    assert(views(parts@)[0] == parts@[0]@ && views(parts@)[1] == parts@[1]@ && views(parts@)[2]
        == parts@[2]@);
    match (parse_unsigned(parts[0], 255), parse_unsigned(parts[1], 255), parse_unsigned(
        parts[2],
        255,
    )) {
        (Some(red), Some(green), Some(blue)) => Some((red as u8, green as u8, blue as u8)),
        _ => None,
    }
}

/// Tells what a token of the payload is.
pub fn read_token(token: &[u8]) -> (out: Result<Token, BhiError>)
    ensures
        out == token_of(token@),
{
    if token.len() == 0 {
        Ok(Token::Terminator)
    } else {
        match read_triplet(token) {
            Some(pixel) => Ok(Token::Value(pixel)),
            None => Err(BhiError::MalformedPixel),
        }
    }
}

/// Reads a payload: token by token up to the first empty one. A malformed
/// token in front of it gives up the whole payload.
pub fn read_pixels(payload: &[u8]) -> (out: Option<Vec<Pixel>>)
    ensures
        out is Some <==> pixels_of(payload@) is Some,
        out matches Some(pixels) ==> pixels_of(payload@) == Some(pixels@),
{
    let tokens = split_at_byte(payload, COMMA);
    let ghost all = split(payload@, COMMA);
    let ghost empty = Seq::<u8>::empty();
    let mut pixels: Vec<Pixel> = Vec::new();
    let mut i: usize = 0;
    while i < tokens.len()
        invariant
            i <= tokens.len(),
            all == split(payload@, COMMA),
            views(tokens@) == all,
            empty == Seq::<u8>::empty(),
            pixels@.len() == i,
            forall|j: int| 0 <= j < i ==> all[j].len() > 0 && triplet_of(#[trigger] all[j]) == Some(pixels@[j]),
        decreases tokens.len() - i,
    {
        assert(all[i as int] == tokens@[i as int]@);
        proof {
            lemma_find(all, empty);
        }
        match read_token(tokens[i]) {
            Err(_) => {
                proof {
                    let end = find(all, empty);
                    if end <= i {
                        assert(all[end].len() == 0);
                    }
                    let data = data_tokens(all);
                    assert(data[i as int] == all[i as int]);
                    assert(triplet_of(data[i as int]) is None);
                }
                return None;
            },
            Ok(Token::Terminator) => {
                proof {
                    assert(all[i as int] == empty);
                    assert forall|j: int| 0 <= j < i implies all.take(i as int)[j] != empty by {
                        assert(all[j].len() > 0);
                    }
                    lemma_find_is(all, empty, i as int);
                    let data = data_tokens(all);
                    assert(data.map_values(|token: Seq<u8>| triplet_of(token)->0) == pixels@);
                }
                return Some(pixels);
            },
            Ok(Token::Value(pixel)) => {
                pixels.push(pixel);
            },
        }
        i += 1;
    }
    proof {
        assert forall|j: int| 0 <= j < i implies all.take(i as int)[j] != empty by {
            assert(all[j].len() > 0);
        }
        lemma_find_is(all, empty, i as int);
        let data = data_tokens(all);
        assert(data == all);
        assert(data.map_values(|token: Seq<u8>| triplet_of(token)->0) == pixels@);
    }
    Some(pixels)
}

/// Reads width and height from the header of a buffer: the part in front of
/// its first colon.
pub fn get_dimensions(buffer: &[u8]) -> (out: Result<(u32, u32), BhiError>)
    ensures
        out == header_dimensions(buffer@),
{
    let colon = find_from(buffer, 0, COLON);
    assert(buffer@.skip(0) == buffer@);
    if colon == buffer.len() {
        return Err(BhiError::MissingHeader);
    }
    match read_dimensions(slice_subrange(buffer, 0, colon)) {
        Some(dimensions) => Ok(dimensions),
        None => Err(BhiError::MalformedDimensions),
    }
}

/// Reads the pixels from the payload of a buffer: the part after its first
/// colon.
pub fn pack_rgb(buffer: &[u8]) -> (out: Result<Vec<Pixel>, BhiError>)
    ensures
        match out {
            Ok(pixels) => payload_pixels(buffer@) == Ok::<Seq<Pixel>, BhiError>(pixels@),
            Err(e) => payload_pixels(buffer@) == Err::<Seq<Pixel>, BhiError>(e),
        },
{
    let colon = find_from(buffer, 0, COLON);
    assert(buffer@.skip(0) == buffer@);
    if colon == buffer.len() {
        return Err(BhiError::MissingHeader);
    }
    match read_pixels(slice_subrange(buffer, colon + 1, buffer.len())) {
        Some(pixels) => Ok(pixels),
        None => Err(BhiError::MalformedPixel),
    }
}

/// Reads a whole buffer: dimensions, pixels, and the check that there are as
/// many pixels as the dimensions ask for.
pub fn parse(buffer: &[u8]) -> (out: Result<Raster, BhiError>)
    ensures
        match out {
            Ok(raster) => parsed(buffer@) == Ok::<RasterView, BhiError>(raster@),
            Err(e) => parsed(buffer@) == Err::<RasterView, BhiError>(e),
        },
{
    let (width, height) = match get_dimensions(buffer) {
        Ok(dimensions) => dimensions,
        Err(e) => { return Err(e); },
    };
    let pixels = match pack_rgb(buffer) {
        Ok(pixels) => pixels,
        Err(e) => { return Err(e); },
    };
    proof {
        lemma_area_bounds(width, height);
    }
    if pixels.len() as u64 == (width as u64) * (height as u64) {
        Ok(Raster::assemble(width, height, pixels))
    } else {
        Err(BhiError::SizeMismatch)
    }
}

} // verus!
