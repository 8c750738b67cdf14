use vstd::prelude::*;
use rand::Rng;
use rand::seq::SliceRandom;
use crate::text::{decimal, parsed_integer};
use crate::picture_io::ThumbnailFormat;
use image::GenericImageView;

verus! {

/// Draws a number below `bound` with `rand::Rng::gen_range` on the thread's generator. The
/// result depends on chance: the contract says only that it lies in `0..bound`. The call
/// panics on an empty range, which `requires` leaves out.
#[verifier::external_body]
pub(crate) fn random_below(bound: usize) -> (r: usize)
    requires
        bound > 0,
    ensures
        r < bound,
{
    rand::thread_rng().gen_range(0..bound)
}

}

verus! {

/// Shuffles a vector with `rand::seq::SliceRandom::shuffle` on the thread's generator. The
/// order depends on chance: the contract says only that the elements stay the same, each
/// as often as before (the source swaps elements in place).
#[verifier::external_body]
pub(crate) fn shuffle<T>(v: &mut Vec<T>)
    ensures
        final(v)@.to_multiset() == old(v)@.to_multiset(),
{
    v.shuffle(&mut rand::thread_rng());
}

}

verus! {

/// `regex::Regex`, a compiled regular expression, carried through as an opaque value.
#[verifier::external_type_specification]
#[verifier::external_body]
pub struct ExRegex(regex::Regex);

/// Whether `regex::Regex::new` compiles a pattern. The source returns an error for an
/// invalid pattern and for one whose program exceeds the default size limit; both depend
/// on the pattern alone.
pub uninterp spec fn regex_compiles(pattern: Seq<char>) -> bool;

/// Whether `regex::Regex::captures`, on the expression compiled from `pattern`, finds a
/// match anywhere in `haystack`.
pub uninterp spec fn regex_captures(pattern: Seq<char>, haystack: Seq<char>) -> bool;

/// A compiled regular expression, with the pattern it was compiled from.
pub struct CompiledPattern {
    regex: regex::Regex,
    source: Ghost<Seq<char>>,
}

impl CompiledPattern {
    /// The pattern the expression was compiled from.
    pub closed spec fn source(&self) -> Seq<char> {
        self.source@
    }
}

/// Compiles a pattern with `regex::Regex::new`: `Some` exactly when the source accepts it,
/// holding the compiled expression and the pattern.
#[verifier::external_body]
pub(crate) fn compile_pattern(pattern: &str) -> (r: Option<CompiledPattern>)
    ensures
        r is Some <==> regex_compiles(pattern@),
        r matches Some(c) ==> c.source() == pattern@,
{
    match regex::Regex::new(pattern) {
        Ok(regex) => Some(CompiledPattern { regex, source: Ghost(pattern@) }),
        Err(_) => None,
    }
}

/// Whether `regex::Regex::captures` finds a match of a compiled expression in a text.
#[verifier::external_body]
pub(crate) fn pattern_captures(compiled: &CompiledPattern, haystack: &str) -> (r: bool)
    ensures
        r == regex_captures(compiled.source(), haystack@),
{
    compiled.regex.captures(haystack).is_some()
}

}

verus! {

/// `clap_num::number_range` on `usize`: the source reads the text with `str::parse` and
/// keeps the number when it lies in `min..=max`; above, the error is "exceeds maximum of"
/// and the maximum, below, "less than minimum of" and the minimum. The message of a text
/// that does not read as a `usize` is `Display` of std's parse error, which is not stated
/// here. The source asserts `min <= max` in debug builds, which `requires` keeps.
#[verifier::external_body]
pub(crate) fn number_range_usize(s: &str, min: usize, max: usize) -> (r: Result<usize, String>)
    requires
        min <= max,
    ensures
        r is Ok <==> (parsed_integer(s@, false) matches Some(v) && min <= v <= max),
        r matches Ok(n) ==> parsed_integer(s@, false) == Some(n as int),
        r matches Err(e) ==> (parsed_integer(s@, false) matches Some(v) && max < v <= usize::MAX
            ==> e@ == "exceeds maximum of "@ + decimal(max as nat)),
        r matches Err(e) ==> (parsed_integer(s@, false) matches Some(v) && v < min ==> e@
            == "less than minimum of "@ + decimal(min as nat)),
{
    clap_num::number_range(s, min, max)
}

}

verus! {

/// The PNG thumbnail that `thumbnailer` makes of a PNG picture: `thumbnailer::create_thumbnails`
/// at the small size, written by `Thumbnail::write_png`; `None` where either reports an
/// error. A function of the picture's bytes alone.
pub uninterp spec fn png_thumbnail_of(image: Seq<u8>) -> Option<Seq<u8>>;

/// The JPEG thumbnail that `thumbnailer` makes of a JPEG picture: `create_thumbnails` at
/// the small size, written by `Thumbnail::write_jpeg` at quality 255 (which the encoder
/// clamps to 100); `None` where either reports an error. A function of the bytes alone.
pub uninterp spec fn jpeg_thumbnail_of(image: Seq<u8>) -> Option<Seq<u8>>;

/// Makes the PNG thumbnail of the bytes of a PNG picture with `thumbnailer`, as
/// `png_thumbnail_of` names it. The source decodes, resizes and encodes in memory and
/// reports its failures as errors.
#[verifier::external_body]
pub(crate) fn png_thumbnail(image: &[u8]) -> (r: Option<Vec<u8>>)
    ensures
        r is None <==> png_thumbnail_of(image@) is None,
        r matches Some(v) ==> png_thumbnail_of(image@) == Some(v@),
{
    let reader = std::io::Cursor::new(image);
    let mut thumbnails = thumbnailer::create_thumbnails(reader, mime::IMAGE_PNG, [thumbnailer::ThumbnailSize::Small]).ok()?;
    let mut out = std::io::Cursor::new(Vec::new());
    thumbnails.pop()?.write_png(&mut out).ok()?;
    Some(out.into_inner())
}

/// Makes the JPEG thumbnail of the bytes of a JPEG picture with `thumbnailer`, as
/// `jpeg_thumbnail_of` names it.
#[verifier::external_body]
pub(crate) fn jpeg_thumbnail(image: &[u8]) -> (r: Option<Vec<u8>>)
    ensures
        r is None <==> jpeg_thumbnail_of(image@) is None,
        r matches Some(v) ==> jpeg_thumbnail_of(image@) == Some(v@),
{
    let reader = std::io::Cursor::new(image);
    let mut thumbnails = thumbnailer::create_thumbnails(reader, mime::IMAGE_JPEG, [thumbnailer::ThumbnailSize::Small]).ok()?;
    let mut out = std::io::Cursor::new(Vec::new());
    thumbnails.pop()?.write_jpeg(&mut out, 255).ok()?;
    Some(out.into_inner())
}

/// The pixels, row by row, each as red, green, blue and alpha, that
/// `image::load_from_memory_with_format` decodes from the bytes of a picture in a format,
/// as `GenericImageView::pixels` hands them out; `None` where decoding reports an error. A
/// function of the bytes and the format alone.
pub uninterp spec fn decoded_rgba(image: Seq<u8>, format: ThumbnailFormat) -> Option<Seq<[u8; 4]>>;

/// Decodes a picture from its bytes with `image::load_from_memory_with_format`, in PNG or
/// JPEG format, and hands out its pixels as `decoded_rgba` names them.
#[verifier::external_body]
pub(crate) fn decode_rgba(image: &[u8], format: ThumbnailFormat) -> (r: Option<Vec<[u8; 4]>>)
    ensures
        r is None <==> decoded_rgba(image@, format) is None,
        r matches Some(v) ==> decoded_rgba(image@, format) == Some(v@),
{
    let format = match format {
        ThumbnailFormat::Png => image::ImageFormat::Png,
        ThumbnailFormat::Jpeg => image::ImageFormat::Jpeg,
    };
    let decoded = image::load_from_memory_with_format(image, format).ok()?;
    Some(decoded.pixels().map(|p| p.2 .0).collect())
}

}
