//! Counting the colours of a picture.
use vstd::prelude::*;
use std::collections::HashSet;

verus! {

/// A pixel as one word: red, green, blue and alpha channels from the high byte down.
pub open spec fn rgba_word(p: [u8; 4]) -> u32 {
    (p[0] as u32 * 16777216 + p[1] as u32 * 65536 + p[2] as u32 * 256 + p[3] as u32) as u32
}

/// The first `i` channels of a pixel as a number, the first channel highest.
pub open spec fn prefix_word(p: [u8; 4], i: int) -> int
    decreases i,
{
    if i <= 0 {
        0
    } else {
        prefix_word(p, i - 1) * 256 + p[i - 1] as int
    }
}

/// 256 to the power `i`.
pub open spec fn pow256(i: int) -> int
    decreases i,
{
    if i <= 0 {
        1
    } else {
        pow256(i - 1) * 256
    }
}

/// The distinct colours among pixels.
pub open spec fn colors_of(pixels: Seq<[u8; 4]>) -> Set<u32> {
    pixels.map_values(|p: [u8; 4]| rgba_word(p)).to_set()
}

/// A pixel as one word: red, green, blue and alpha channels from the high byte down.
pub fn rgba_key(rgba: [u8; 4]) -> (r: u32)
    ensures
        r == rgba_word(rgba),
{
    let mut result: u32 = 0;
    let mut i: usize = 0;
    while i < 4
        invariant
            i <= 4,
            result == prefix_word(rgba, i as int),
            prefix_word(rgba, i as int) < pow256(i as int),
        decreases 4 - i,
    {
        let c = rgba[i];
        let before = result;
        assert(pow256(i as int) <= 16777216) by {
            reveal_with_fuel(pow256, 4);
        }
        result = (result << 8) | c as u32;
        assert(result == before * 256 + c) by (bit_vector)
            requires
                before < 16777216,
                result == (before << 8) | c as u32,
        ;
        i = i + 1;
    }
    assert(prefix_word(rgba, 4) == rgba_word(rgba) as int) by {
        reveal_with_fuel(prefix_word, 5);
    }
    result
}

/// The number of distinct colours among pixels.
pub fn color_count(pixels: &[[u8; 4]]) -> (n: usize)
    ensures
        n == colors_of(pixels@).len(),
{
    broadcast use vstd::std_specs::hash::group_hash_axioms;

    let mut colors: HashSet<u32> = HashSet::new();
    let mut i: usize = 0;
    while i < pixels.len()
        invariant
            i <= pixels.len(),
            colors@ == colors_of(pixels@.take(i as int)),
        decreases pixels.len() - i,
    {
        let key = rgba_key(pixels[i]);
        colors.insert(key);
        proof {
            let before = pixels@.take(i as int);
            let after = pixels@.take(i + 1);
            let mb = before.map_values(|p: [u8; 4]| rgba_word(p));
            let ma = after.map_values(|p: [u8; 4]| rgba_word(p));
            assert(ma == mb.push(key));
            assert forall|k: u32| ma.contains(k) <==> (mb.contains(k) || k == key) by {
                if ma.contains(k) {
                    let j = choose|j: int| 0 <= j < ma.len() && ma[j] == k;
                    if j < mb.len() {
                        assert(mb[j] == k);
                    }
                }
                if mb.contains(k) {
                    let j = choose|j: int| 0 <= j < mb.len() && mb[j] == k;
                    assert(ma[j] == k);
                }
                if k == key {
                    assert(ma[mb.len() as int] == k);
                }
            }
            assert(colors_of(after) =~= colors_of(before).insert(key));
        }
        i = i + 1;
    }
    assert(pixels@.take(pixels.len() as int) == pixels@);
    colors.len()
}

}

verus! {

/// The number of distinct colours of a picture, given its extension and its bytes; `None`
/// where the picture cannot be decoded in the format of its extension.
pub fn image_color_size(extension: &str, image: &[u8]) -> (r: Option<usize>)
    requires
        crate::picture_io::valid_extension(extension@),
    ensures
        r is None <==> crate::external::decoded_rgba(
            image@,
            crate::picture_io::format_of_extension(extension@),
        ) is None,
        r matches Some(n) ==> (crate::external::decoded_rgba(
            image@,
            crate::picture_io::format_of_extension(extension@),
        ) matches Some(pixels) && n == colors_of(pixels).len()),
{
    let format = crate::picture_io::thumbnail_format(extension);
    match crate::external::decode_rgba(image, format) {
        Some(pixels) => Some(color_count(pixels.as_slice())),
        None => None,
    }
}

}
