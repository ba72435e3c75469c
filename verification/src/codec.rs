//! The codec as callers use it: a raster to the bytes of a BHI file and back,
//! and the checks on format names and file names around it.

use vstd::prelude::*;
use vstd::string::{StrSliceExecFns, StringExecFns};
use crate::error::BhiError;
use crate::frame::{compress, decompress, frame_contents, frame_of};
use crate::grid::{displayed, lemma_full_sequence_covers, reindex};
use crate::raster::{Raster, RasterView};
use crate::text::{parse, parsed, serialize, serialized};

verus! {

/// A format that a decoded image can be exported to.
#[derive(Debug, Clone, Copy, PartialEq, Eq, Structural)]
pub enum TargetFormat {
    Jpeg,
    Png,
    Ico,
    Bmp,
    Tiff,
}

// ---------------------------------------------------------------------------
// Names
// ---------------------------------------------------------------------------

/// `text` ends with `suffix`.
pub open spec fn has_suffix(text: Seq<char>, suffix: Seq<char>) -> bool {
    suffix.len() <= text.len() && text.skip(text.len() - suffix.len()) == suffix
}

/// The format that a name selects. The list is fixed and the match is exact:
/// the lowercase extensions `jpg`, `png`, `ico`, `bmp` and `tiff`, without a
/// dot.
pub open spec fn format_named(name: Seq<char>) -> Option<TargetFormat> {
    if name == "jpg"@ {
        Some(TargetFormat::Jpeg)
    } else if name == "png"@ {
        Some(TargetFormat::Png)
    } else if name == "ico"@ {
        Some(TargetFormat::Ico)
    } else if name == "bmp"@ {
        Some(TargetFormat::Bmp)
    } else if name == "tiff"@ {
        Some(TargetFormat::Tiff)
    } else {
        None
    }
}

/// The path names a file of a kind that can be converted to BHI: it ends in
/// `.jpg`, `.png`, `.ico`, `.bmp` or `.tiff`.
pub open spec fn is_source_path(path: Seq<char>) -> bool {
    has_suffix(path, ".jpg"@) || has_suffix(path, ".png"@) || has_suffix(path, ".ico"@)
        || has_suffix(path, ".bmp"@) || has_suffix(path, ".tiff"@)
}

/// Whether two texts are the same, character by character.
pub fn same_text(a: &str, b: &str) -> (out: bool)
    ensures
        out == (a@ == b@),
{
    let n = a.unicode_len();
    if n != b.unicode_len() {
        return false;
    }
    let mut i: usize = 0;
    while i < n
        invariant
            i <= n,
            n == a@.len(),
            n == b@.len(),
            forall|j: int| 0 <= j < i ==> a@[j] == b@[j],
        decreases n - i,
    {
        if a.get_char(i) != b.get_char(i) {
            return false;
        }
        i += 1;
    }
    assert(a@ =~= b@);
    true
}

/// Whether `text` ends with `suffix`.
pub fn ends_with(text: &str, suffix: &str) -> (out: bool)
    ensures
        out == has_suffix(text@, suffix@),
{
    let n = text.unicode_len();
    let m = suffix.unicode_len();
    if m > n {
        return false;
    }
    let ghost tail = text@.skip(n - m);
    let mut i: usize = 0;
    while i < m
        invariant
            i <= m <= n,
            n == text@.len(),
            m == suffix@.len(),
            tail == text@.skip(n - m),
            forall|j: int| 0 <= j < i ==> tail[j] == suffix@[j],
        decreases m - i,
    {
        if text.get_char(n - m + i) != suffix.get_char(i) {
            assert(tail[i as int] != suffix@[i as int]);
            return false;
        }
        i += 1;
    }
    assert(tail =~= suffix@);
    true
}

/// Picks the export format that `name` selects, or refuses the name.
pub fn target_format(name: &str) -> (out: Result<TargetFormat, BhiError>)
    ensures
        out == match format_named(name@) {
            Some(format) => Ok::<TargetFormat, BhiError>(format),
            None => Err(BhiError::UnsupportedFormat),
        },
{
    if same_text(name, "jpg") {
        Ok(TargetFormat::Jpeg)
    } else if same_text(name, "png") {
        Ok(TargetFormat::Png)
    } else if same_text(name, "ico") {
        Ok(TargetFormat::Ico)
    } else if same_text(name, "bmp") {
        Ok(TargetFormat::Bmp)
    } else if same_text(name, "tiff") {
        Ok(TargetFormat::Tiff)
    } else {
        Err(BhiError::UnsupportedFormat)
    }
}

/// Checks that `path` names a file of a kind that can be converted to BHI.
pub fn source_format(path: &str) -> (out: Result<(), BhiError>)
    ensures
        is_source_path(path@) ==> out == Ok::<(), BhiError>(()),
        !is_source_path(path@) ==> out == Err::<(), BhiError>(BhiError::UnsupportedFormat),
{
    if ends_with(path, ".jpg") || ends_with(path, ".png") || ends_with(path, ".ico") || ends_with(
        path,
        ".bmp",
    ) || ends_with(path, ".tiff") {
        Ok(())
    } else {
        Err(BhiError::UnsupportedFormat)
    }
}

/// The name of the BHI file written for `name`: the name and `.bhi`.
pub fn bhi_file_name(name: &str) -> (out: String)
    ensures
        out@ == name@ + ".bhi"@,
{
    let mut out = name.to_owned();
    out.append(".bhi");
    out
}

/// The name of the file that an image is exported to: the name, a dot, and
/// the format name as it was asked for.
pub fn export_file_name(name: &str, format: &str) -> (out: String)
    ensures
        out@ == name@ + "."@ + format@,
{
    let mut out = name.to_owned();
    out.append(".");
    out.append(format);
    out
}

// ---------------------------------------------------------------------------
// Encoding and decoding
// ---------------------------------------------------------------------------

/// The raster that a BHI text shows: the text is parsed, and its pixel
/// sequence is laid out on the grid of the parsed dimensions.
pub open spec fn decoded(text: Seq<u8>) -> Result<RasterView, BhiError> {
    match parsed(text) {
        Ok(image) => Ok(displayed(image.width, image.height, image.pixels)),
        Err(e) => Err(e),
    }
}

/// `out` is the result that `expected` describes.
pub open spec fn agrees(out: Result<Raster, BhiError>, expected: Result<RasterView, BhiError>) -> bool {
    match out {
        Ok(raster) => expected == Ok::<RasterView, BhiError>(raster@),
        Err(e) => expected == Err::<RasterView, BhiError>(e),
    }
}

/// Turns a raster into the bytes of a BHI file: its text, compressed. This
/// always succeeds.
pub fn encode(raster: &Raster) -> (out: Result<Vec<u8>, BhiError>)
    ensures
        out is Ok,
        out->Ok_0@ == frame_of(serialized(raster@.width, raster@.height, raster@.pixels)),
{
    let text = serialize(raster.width(), raster.height(), raster.pixels());
    compress(text.as_slice())
}

/// Turns the text of a BHI file into the raster it shows.
pub fn decode_text(text: &[u8]) -> (out: Result<Raster, BhiError>)
    ensures
        agrees(out, decoded(text@)),
{
    let image = match parse(text) {
        Ok(image) => image,
        Err(e) => { return Err(e); },
    };
    let width = image.width();
    let height = image.height();
    proof {
        lemma_full_sequence_covers(width, height);
    }
    reindex(width, height, image.pixels())
}

/// Turns the bytes of a BHI file into the raster it shows: the frame is
/// unwrapped, and what it holds is read as BHI text.
pub fn decode(framed: &[u8]) -> (out: Result<Raster, BhiError>)
    ensures
        match frame_contents(framed@) {
            Some(text) => agrees(out, decoded(text)),
            None => out == Err::<Raster, BhiError>(BhiError::CorruptFrame),
        },
{
    match decompress(framed) {
        Ok(text) => decode_text(text.as_slice()),
        Err(e) => Err(e),
    }
}

} // verus!
