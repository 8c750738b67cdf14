//! Reading and writing pictures: which files become pictures, what a reading list names,
//! which files are copied or deleted, and the palette of a picture.
use vstd::prelude::*;
use crate::external::{compile_pattern, pattern_captures, regex_captures, regex_compiles};
use crate::image_data::ImageData;
use crate::entry::{Entry, EntryList};
use crate::external::shuffle;
use crate::paths::{
    directory_name, extension, file_name, has_extension, is_thumbnail, names_thumbnail,
    slash_index,
};
use crate::repository::lemma_member_of_permutation;
use crate::paths::{self, image_data_path, joined, original_named, original_path, thumbnail_defined, thumbnail_path};
use crate::text::{chars_equal, chars_of, find_last, lemma_last_index_of, push_str, slice_chars, string_of};

verus! {

/// The extensions of the files read as pictures.
pub open spec fn valid_extension(e: Seq<char>) -> bool {
    ||| e == "jpg"@
    ||| e == "jpeg"@
    ||| e == "png"@
    ||| e == "JPG"@
    ||| e == "JPEG"@
    ||| e == "PNG"@
}

/// Whether the file name of a path has one of the extensions of pictures.
pub open spec fn has_picture_extension(p: Seq<char>) -> bool {
    has_extension(file_name(p)) && valid_extension(extension(file_name(p)))
}

fn valid_extension_chars(c: &[char]) -> (r: bool)
    ensures
        r == valid_extension(c@),
{
    chars_equal(c, chars_of("jpg").as_slice()) || chars_equal(c, chars_of("jpeg").as_slice())
        || chars_equal(c, chars_of("png").as_slice()) || chars_equal(c, chars_of("JPG").as_slice())
        || chars_equal(c, chars_of("JPEG").as_slice()) || chars_equal(
        c,
        chars_of("PNG").as_slice(),
    )
}

/// Whether an extension is one of the extensions of pictures.
pub fn is_valid_extension(e: &str) -> (r: bool)
    ensures
        r == valid_extension(e@),
{
    valid_extension_chars(chars_of(e).as_slice())
}

/// The two formats in which thumbnails are written.
#[derive(Clone, Copy, PartialEq, Eq, Structural, Debug)]
pub enum ThumbnailFormat {
    Jpeg,
    Png,
}

/// The format of a thumbnail: that of its picture, read from the extension.
pub open spec fn format_of_extension(e: Seq<char>) -> ThumbnailFormat {
    if e == "png"@ || e == "PNG"@ {
        ThumbnailFormat::Png
    } else {
        ThumbnailFormat::Jpeg
    }
}

/// The format in which the thumbnail of a picture with extension `extension` is written.
pub fn thumbnail_format(extension: &str) -> (r: ThumbnailFormat)
    requires
        valid_extension(extension@),
    ensures
        r == format_of_extension(extension@),
{
    let c = chars_of(extension);
    if chars_equal(c.as_slice(), chars_of("png").as_slice()) || chars_equal(
        c.as_slice(),
        chars_of("PNG").as_slice(),
    ) {
        ThumbnailFormat::Png
    } else {
        ThumbnailFormat::Jpeg
    }
}

/// Whether a path has an extension of pictures.
pub fn has_valid_extension(path: &str) -> (r: bool)
    ensures
        r == has_picture_extension(path@),
{
    let p = chars_of(path);
    proof {
        lemma_last_index_of(p@, '/');
    }
    let start: usize = match find_last(p.as_slice(), '/') {
        Some(i) => i + 1,
        None => 0,
    };
    let name = slice_chars(p.as_slice(), start, p.len());
    assert(name@ == file_name(path@));
    proof {
        lemma_last_index_of(name@, '.');
    }
    match find_last(name.as_slice(), '.') {
        Some(i) => {
            if i > 0 {
                let e = slice_chars(name.as_slice(), i + 1, name.len());
                valid_extension_chars(e.as_slice())
            } else {
                false
            }
        },
        None => false,
    }
}

/// Whether a path found on disk becomes a picture: a file with an extension of pictures,
/// not a thumbnail, whose path the pattern matched (`pattern_matched`).
pub open spec fn accepted(path: Seq<char>, is_file: bool, pattern_matched: bool) -> bool {
    has_picture_extension(path) && is_file && pattern_matched && !names_thumbnail(path)
}

/// Whether a path becomes a picture, given whether the pattern (if any) matched it.
pub fn accepts_path(path: &str, is_file: bool, pattern_matched: bool) -> (r: bool)
    ensures
        r == accepted(path@, is_file, pattern_matched),
{
    let valid = has_valid_extension(path);
    let thumbnail = is_thumbnail(path);
    valid && is_file && pattern_matched && !thumbnail
}

/// Whether a path found on disk becomes a picture: with no pattern every file with an
/// extension of pictures that is not a thumbnail does; with a pattern, only one that the
/// compiled pattern matches (none when the pattern does not compile).
pub fn entry_candidate(path: &str, is_file: bool, pattern: &Option<String>) -> (r: bool)
    ensures
        r == accepted(
            path@,
            is_file,
            match pattern {
                None => true,
                Some(p) => regex_compiles(p@) && regex_captures(p@, path@),
            },
        ),
{
    let matched = match pattern {
        None => true,
        Some(p) => matches_pattern(p.as_str(), path),
    };
    accepts_path(path, is_file, matched)
}

/// Whether a pattern compiles and finds a match in a text.
pub fn matches_pattern(pattern: &str, text: &str) -> (r: bool)
    ensures
        r == (regex_compiles(pattern@) && regex_captures(pattern@, text@)),
{
    match compile_pattern(pattern) {
        Some(compiled) => pattern_captures(&compiled, text),
        None => false,
    }
}

}

verus! {

/// A line without its final carriage return, if it has one.
pub open spec fn without_cr(l: Seq<char>) -> Seq<char> {
    if l.len() > 0 && l.last() == '\r' {
        l.drop_last()
    } else {
        l
    }
}

/// Reading a text from the start: the lines ended by a '\n' so far, and the line begun.
pub open spec fn line_fold(s: Seq<char>) -> (Seq<Seq<char>>, Seq<char>)
    decreases s.len(),
{
    if s.len() == 0 {
        (Seq::empty(), Seq::empty())
    } else {
        let (done, current) = line_fold(s.drop_last());
        if s.last() == '\n' {
            (done.push(without_cr(current)), Seq::empty())
        } else {
            (done, current.push(s.last()))
        }
    }
}

/// The lines of a text, as `str::lines` cuts them: at each '\n', a '\r' before it
/// dropped; a last line without '\n' kept as it is, when not empty.
pub open spec fn text_lines(s: Seq<char>) -> Seq<Seq<char>> {
    let (done, current) = line_fold(s);
    if current.len() > 0 {
        done.push(current)
    } else {
        done
    }
}

/// The paths that a reading list names: its lines that do not name thumbnails, each once,
/// in the order of their first appearance.
pub open spec fn kept_paths(lines: Seq<Seq<char>>) -> Seq<Seq<char>>
    decreases lines.len(),
{
    if lines.len() == 0 {
        Seq::empty()
    } else {
        let kept = kept_paths(lines.drop_last());
        let l = lines.last();
        if names_thumbnail(l) || kept.contains(l) {
            kept
        } else {
            kept.push(l)
        }
    }
}

/// The texts held by a list of character vectors.
pub open spec fn char_views(v: Seq<Vec<char>>) -> Seq<Seq<char>> {
    v.map_values(|x: Vec<char>| x@)
}

/// The texts held by a list of strings.
pub open spec fn string_views(v: Seq<String>) -> Seq<Seq<char>> {
    v.map_values(|x: String| x@)
}

fn split_lines(s: &[char]) -> (r: Vec<Vec<char>>)
    ensures
        char_views(r@) == text_lines(s@),
{
    let mut done: Vec<Vec<char>> = Vec::new();
    let mut current: Vec<char> = Vec::new();
    let mut i: usize = 0;
    while i < s.len()
        invariant
            i <= s.len(),
            (char_views(done@), current@) == line_fold(s@.take(i as int)),
        decreases s.len() - i,
    {
        assert(s@.take(i + 1).drop_last() == s@.take(i as int));
        if s[i] == '\n' {
            let n = current.len();
            let line = if n > 0 && current[n - 1] == '\r' {
                slice_chars(current.as_slice(), 0, n - 1)
            } else {
                current
            };
            let ghost before = done@;
            done.push(line);
            assert(char_views(done@) == char_views(before).push(line@));
            current = Vec::new();
        } else {
            current.push(s[i]);
        }
        i = i + 1;
    }
    assert(s@.take(s.len() as int) == s@);
    if current.len() > 0 {
        let ghost before = done@;
        done.push(current);
        assert(char_views(done@) == char_views(before).push(current@));
    }
    done
}

fn contains_chars(v: &Vec<Vec<char>>, c: &[char]) -> (r: bool)
    ensures
        r == char_views(v@).contains(c@),
{
    let mut i: usize = 0;
    while i < v.len()
        invariant
            i <= v.len(),
            forall|j: int| 0 <= j < i ==> v@[j]@ != c@,
        decreases v.len() - i,
    {
        if chars_equal(v[i].as_slice(), c) {
            assert(char_views(v@)[i as int] == c@);
            return true;
        }
        i = i + 1;
    }
    assert forall|j: int| 0 <= j < char_views(v@).len() implies char_views(v@)[j] != c@ by {
        assert(char_views(v@)[j] == v@[j]@);
    }
    false
}

/// The lines of a text, as `str::lines` cuts them.
pub(crate) fn reading_lines(content: &str) -> (r: Vec<String>)
    ensures
        string_views(r@) == text_lines(content@),
{
    let lines = split_lines(chars_of(content).as_slice());
    let mut r: Vec<String> = Vec::new();
    let mut i: usize = 0;
    while i < lines.len()
        invariant
            i <= lines.len(),
            string_views(r@) == char_views(lines@).take(i as int),
        decreases lines.len() - i,
    {
        let ghost before = r@;
        r.push(string_of(lines[i].as_slice()));
        assert(string_views(r@) == string_views(before).push(lines@[i as int]@));
        assert(char_views(lines@).take(i + 1) == char_views(lines@).take(i as int).push(lines@[i as int]@));
        i = i + 1;
    }
    assert(char_views(lines@).take(lines.len() as int) == char_views(lines@));
    r
}

/// The paths that a reading list names: its lines that do not name thumbnails, each once,
/// in the order of their first appearance.
pub fn reading_list_paths(content: &str) -> (r: Vec<String>)
    ensures
        string_views(r@) == kept_paths(text_lines(content@)),
{
    let lines = split_lines(chars_of(content).as_slice());
    let ghost ls = text_lines(content@);
    let mut kept: Vec<Vec<char>> = Vec::new();
    let mut r: Vec<String> = Vec::new();
    let mut i: usize = 0;
    while i < lines.len()
        invariant
            i <= lines.len() == ls.len(),
            char_views(lines@) == ls,
            char_views(kept@) == kept_paths(ls.take(i as int)),
            string_views(r@) == char_views(kept@),
        decreases lines.len() - i,
    {
        assert(ls.take(i + 1).drop_last() == ls.take(i as int));
        assert(ls.take(i + 1).last() == lines@[i as int]@);
        let line = &lines[i];
        let text = string_of(line.as_slice());
        if !is_thumbnail(text.as_str()) && !contains_chars(&kept, line.as_slice()) {
            let ghost before_kept = kept@;
            let ghost before_r = r@;
            let copy = slice_chars(line.as_slice(), 0, line.len());
            assert(copy@ == line@);
            kept.push(copy);
            r.push(text);
            assert(char_views(kept@) == char_views(before_kept).push(line@));
            assert(string_views(r@) == string_views(before_r).push(line@));
        }
        i = i + 1;
    }
    assert(ls.take(ls.len() as int) == ls);
    r
}

}

verus! {

/// The directories of the pictures of a list.
pub open spec fn directories(s: Seq<Entry>) -> Seq<Seq<char>> {
    s.map_values(|e: Entry| directory_name(e.file_path@))
}

/// The first picture of each directory, in the order of the list.
pub open spec fn first_per_directory(s: Seq<Entry>) -> Seq<Entry>
    decreases s.len(),
{
    if s.len() == 0 {
        Seq::empty()
    } else {
        let kept = first_per_directory(s.drop_last());
        if directories(kept).contains(directory_name(s.last().file_path@)) {
            kept
        } else {
            kept.push(s.last())
        }
    }
}

/// A sample of the pictures: they are shuffled, and the first of each directory is kept.
pub fn sample_entries(entries: EntryList) -> (r: EntryList)
    requires
        forall|i: int| 0 <= i < entries.len() ==> slash_index(#[trigger] entries@[i].file_path@) >= 0,
    ensures
        exists|q: Seq<Entry>| q.to_multiset() == entries@.to_multiset() && r@ == first_per_directory(q),
{
    let mut entries = entries;
    let ghost s = entries@;
    shuffle(&mut entries);
    let ghost q = entries@;
    proof {
        broadcast use vstd::seq_lib::group_to_multiset_ensures;
        assert(q.to_multiset().len() == s.to_multiset().len());
        assert forall|i: int| 0 <= i < q.len() implies slash_index(#[trigger] q[i].file_path@) >= 0 by {
            lemma_member_of_permutation(s, q, i);
        }
    }
    first_of_each_directory(entries)
}

/// The first picture of each directory, in the order of the list.
pub fn first_of_each_directory(entries: EntryList) -> (r: EntryList)
    requires
        forall|i: int| 0 <= i < entries.len() ==> slash_index(#[trigger] entries@[i].file_path@) >= 0,
    ensures
        r@ == first_per_directory(entries@),
{
    let mut entries = entries;
    let ghost q = entries@;
    let n = entries.len();
    let mut slots: Vec<Option<Entry>> = Vec::new();
    while entries.len() > 0
        invariant
            entries.len() + slots.len() == n == q.len(),
            entries@ == q.take(entries.len() as int),
            forall|j: int| 0 <= j < slots.len() ==> #[trigger] slots@[j] == Some(q[n - 1 - j]),
        decreases entries.len(),
    {
        let e = entries.pop().unwrap();
        slots.push(Some(e));
        assert(entries@ =~= q.take(entries.len() as int));
    }
    let mut seen: Vec<Vec<char>> = Vec::new();
    let mut sample: Vec<Entry> = Vec::new();
    let mut k: usize = 0;
    while k < n
        invariant
            k <= n == slots.len() == q.len(),
            forall|i: int| 0 <= i < q.len() ==> slash_index(#[trigger] q[i].file_path@) >= 0,
            forall|m: int| k <= m < n ==> #[trigger] slots@[n - 1 - m] == Some(q[m]),
            sample@ == first_per_directory(q.take(k as int)),
            char_views(seen@) == directories(sample@),
        decreases n - k,
    {
        assert(q.take(k + 1).drop_last() == q.take(k as int));
        let ghost before_slots = slots@;
        let taken = slots[n - 1 - k].take();
        assert forall|m: int| k + 1 <= m < n implies #[trigger] slots@[n - 1 - m] == Some(q[m]) by {
            assert(before_slots[n - 1 - m] == Some(q[m]));
        }
        match taken {
            Some(e) => {
                assert(e == q[k as int]);
                let d = e.directory();
                let dc = chars_of(d.as_str());
                if !contains_chars(&seen, dc.as_slice()) {
                    let ghost before_seen = seen@;
                    let ghost before_sample = sample@;
                    seen.push(dc);
                    sample.push(e);
                    assert(char_views(seen@) == char_views(before_seen).push(d@));
                    assert(directories(sample@) == directories(before_sample).push(d@));
                }
            },
            None => {
                assert(false);
            },
        }
        k = k + 1;
    }
    assert(q.take(n as int) == q);
    sample
}

}

verus! {

/// The three files of a picture: the picture, its thumbnail and its data file.
pub open spec fn entry_files(e: Entry) -> Seq<Seq<char>> {
    seq![original_path(e.file_path@), thumbnail_path(e.file_path@), image_data_path(e.file_path@)]
}

/// Whether the three files of a picture are defined and have file names.
pub open spec fn files_named(e: Entry) -> bool {
    &&& original_named(e.file_path@)
    &&& thumbnail_defined(e.file_path@)
    &&& file_name(thumbnail_path(e.file_path@)).len() > 0
    &&& file_name(image_data_path(e.file_path@)).len() > 0
}

/// Where a file lands when copied into a directory: under its own name.
pub open spec fn copy_destination(file: Seq<char>, dir: Seq<char>) -> Seq<char> {
    joined(dir, file_name(file))
}

/// The copies that copying a picture into a directory makes, in order.
pub open spec fn entry_copies(e: Entry, dir: Seq<char>) -> Seq<(Seq<char>, Seq<char>)> {
    entry_files(e).map_values(|f: Seq<char>| (f, copy_destination(f, dir)))
}

/// The texts held by a list of pairs of strings.
pub open spec fn pair_views(v: Seq<(String, String)>) -> Seq<(Seq<char>, Seq<char>)> {
    v.map_values(|x: (String, String)| (x.0@, x.1@))
}

/// A file and where it lands when copied into `dir`.
pub(crate) fn copy_to(file: String, dir: &str) -> (r: (String, String))
    requires
        file_name(file@).len() > 0,
    ensures
        r.0@ == file@,
        r.1@ == copy_destination(file@, dir@),
{
    let name = paths::file_name_of(file.as_str());
    (file, paths::join(dir, name.as_str()))
}

}

verus! {

/// The copies that copying a picture into the directory `target` makes: the picture, its
/// thumbnail and its data file, each to its own name in the directory.
pub fn copy_entry(entry: &Entry, target: &str) -> (r: Vec<(String, String)>)
    requires
        files_named(*entry),
    ensures
        pair_views(r@) == entry_copies(*entry, target@),
{
    let mut r: Vec<(String, String)> = Vec::new();
    r.push(copy_to(entry.original_file_path(), target));
    r.push(copy_to(entry.thumbnail_file_path(), target));
    r.push(copy_to(entry.image_data_file_path(), target));
    assert(pair_views(r@) == entry_copies(*entry, target@));
    r
}

/// The files that deleting a picture removes: the picture, its thumbnail and its data file.
pub fn delete_entry(entry: &Entry) -> (r: Vec<String>)
    requires
        original_named(entry.file_path@),
        thumbnail_defined(entry.file_path@),
    ensures
        string_views(r@) == entry_files(*entry),
{
    let mut r: Vec<String> = Vec::new();
    r.push(entry.original_file_path());
    r.push(entry.thumbnail_file_path());
    r.push(entry.image_data_file_path());
    assert(string_views(r@) == entry_files(*entry));
    r
}

/// The copy of a picture into the current directory, under its own name.
pub fn copy_entry_filename_to_current_dir(entry: &Entry) -> (r: (String, String))
    requires
        original_named(entry.file_path@),
    ensures
        r.0@ == original_path(entry.file_path@),
        r.1@ == copy_destination(original_path(entry.file_path@), "."@),
{
    copy_to(entry.original_file_path(), ".")
}

/// The directory of pictures with a label, under a target directory: the label joined to
/// it.
pub fn label_directory(dir: &str, label: &str) -> (r: String)
    ensures
        r@ == joined(dir@, label@),
{
    paths::join(dir, label)
}

/// The indices of the pictures whose label is `label`, in order.
pub open spec fn labelled_indices(s: Seq<Entry>, label: Seq<char>) -> Seq<usize>
    decreases s.len(),
{
    if s.len() == 0 {
        Seq::empty()
    } else {
        let r = labelled_indices(s.drop_last(), label);
        if s.last().image_data.label@ == label {
            r.push((s.len() - 1) as usize)
        } else {
            r
        }
    }
}

/// The indices of the pictures whose label is `label`, in order.
pub fn entries_with_label(entry_list: &EntryList, label: &str) -> (r: Vec<usize>)
    ensures
        r@ == labelled_indices(entry_list@, label@),
{
    let wanted = chars_of(label);
    let mut r: Vec<usize> = Vec::new();
    let mut i: usize = 0;
    while i < entry_list.len()
        invariant
            i <= entry_list.len(),
            wanted@ == label@,
            r@ == labelled_indices(entry_list@.take(i as int), label@),
        decreases entry_list.len() - i,
    {
        assert(entry_list@.take(i + 1).drop_last() == entry_list@.take(i as int));
        let l = chars_of(entry_list[i].image_data.label.as_str());
        if chars_equal(l.as_slice(), wanted.as_slice()) {
            r.push(i);
        }
        i = i + 1;
    }
    assert(entry_list@.take(entry_list.len() as int) == entry_list@);
    r
}

/// The moves that moving every labelled picture under `target` makes: each picture with a
/// label, in order, goes to the directory named by its label under `target`.
pub open spec fn label_moves(s: Seq<Entry>, target: Seq<char>) -> Seq<(usize, Seq<char>)>
    decreases s.len(),
{
    if s.len() == 0 {
        Seq::empty()
    } else {
        let r = label_moves(s.drop_last(), target);
        let l = s.last().image_data.label@;
        if l.len() > 0 {
            r.push(((s.len() - 1) as usize, joined(target, l)))
        } else {
            r
        }
    }
}

/// The texts held by a list of indices and strings.
pub open spec fn move_views(v: Seq<(usize, String)>) -> Seq<(usize, Seq<char>)> {
    v.map_values(|x: (usize, String)| (x.0, x.1@))
}

/// The moves that moving every labelled picture under `target` makes: for each picture
/// with a label, in order, its index and the directory named by its label under `target`.
pub fn move_entries_with_label_to_target(entry_list: &EntryList, target: &str) -> (r: Vec<(usize, String)>)
    ensures
        move_views(r@) == label_moves(entry_list@, target@),
{
    let mut r: Vec<(usize, String)> = Vec::new();
    let mut i: usize = 0;
    while i < entry_list.len()
        invariant
            i <= entry_list.len(),
            move_views(r@) == label_moves(entry_list@.take(i as int), target@),
        decreases entry_list.len() - i,
    {
        assert(entry_list@.take(i + 1).drop_last() == entry_list@.take(i as int));
        match entry_list[i].image_data.label() {
            Some(l) => {
                let ghost before = r@;
                r.push((i, label_directory(target, l.as_str())));
                assert(move_views(r@) == move_views(before).push((i, joined(target@, l@))));
            },
            None => {},
        }
        i = i + 1;
    }
    assert(entry_list@.take(entry_list.len() as int) == entry_list@);
    r
}

}

verus! {

/// A list keeps a picture of some directory exactly when it is not empty.
pub proof fn lemma_first_per_directory_empty(s: Seq<Entry>)
    ensures
        first_per_directory(s).len() == 0 <==> s.len() == 0,
        first_per_directory(s).len() <= s.len(),
    decreases s.len(),
{
    if s.len() > 0 {
        lemma_first_per_directory_empty(s.drop_last());
    }
}

/// The selection that reading ends with: the pictures read, sampled one per directory when
/// `sample` holds; an empty selection is an error.
pub fn read_entries(entries: EntryList, sample: bool) -> (r: Result<EntryList, String>)
    requires
        sample ==> forall|i: int|
            0 <= i < entries.len() ==> slash_index(#[trigger] entries@[i].file_path@) >= 0,
    ensures
        r is Ok <==> entries.len() > 0,
        r matches Err(e) ==> e@ == "no entries in the selection"@,
        r matches Ok(l) ==> (!sample ==> l@ == entries@),
        r matches Ok(l) ==> (sample ==> exists|q: Seq<Entry>|
            q.to_multiset() == entries@.to_multiset() && l@ == first_per_directory(q)),
{
    let ghost s = entries@;
    let list = if sample {
        let l = sample_entries(entries);
        proof {
            let q = choose|q: Seq<Entry>|
                q.to_multiset() == s.to_multiset() && l@ == first_per_directory(q);
            broadcast use vstd::seq_lib::group_to_multiset_ensures;
            assert(q.to_multiset().len() == s.to_multiset().len());
            lemma_first_per_directory_empty(q);
        }
        l
    } else {
        entries
    };
    if list.len() == 0 {
        Err(String::from_str("no entries in the selection"))
    } else {
        Ok(list)
    }
}

}

verus! {

/// A colour as one word: red, green and blue channels from the high byte down.
pub open spec fn rgb_word(c: (u8, u8, u8)) -> u32 {
    ((c.0 as u32) * 65536 + (c.1 as u32) * 256 + c.2 as u32) as u32
}

/// Whether a list of words is in ascending order.
pub open spec fn ascending(s: Seq<u32>) -> bool {
    forall|a: int, b: int| 0 <= a < b < s.len() ==> s[a] <= s[b]
}

/// The palette slots with the first ones replaced by the given colours.
pub open spec fn palette_with(palette: Seq<u32>, colors: Seq<(u8, u8, u8)>) -> Seq<u32> {
    Seq::new(9, |i: int| if i < colors.len() { rgb_word(colors[i]) } else { palette[i] })
}

fn pack_color(c: (u8, u8, u8)) -> (w: u32)
    ensures
        w == rgb_word(c),
{
    let (r, g, b) = c;
    let w: u32 = (r as u32) << 16 | (g as u32) << 8 | b as u32;
    assert(w == (r as u32) * 65536 + (g as u32) * 256 + b as u32) by (bit_vector)
        requires
            w == (r as u32) << 16 | (g as u32) << 8 | b as u32,
    ;
    w
}

fn sort_words(v: &mut Vec<u32>)
    ensures
        final(v)@.to_multiset() == old(v)@.to_multiset(),
        final(v).len() == old(v).len(),
        ascending(final(v)@),
{
    broadcast use vstd::seq_lib::group_to_multiset_ensures;
    broadcast use vstd::multiset::group_multiset_axioms;

    let n = v.len();
    let mut i: usize = 0;
    while i < n
        invariant
            i <= n == v.len(),
            v@.to_multiset() == old(v)@.to_multiset(),
            forall|a: int, b: int| 0 <= a < b < i ==> v@[a] <= v@[b],
        decreases n - i,
    {
        let mut j: usize = i;
        while j > 0 && v[j - 1] > v[j]
            invariant
                j <= i < n == v.len(),
                v@.to_multiset() == old(v)@.to_multiset(),
                forall|a: int, b: int| 0 <= a < b < j ==> #[trigger] v@[a] <= #[trigger] v@[b],
                forall|a: int, b: int| j < a < b <= i ==> #[trigger] v@[a] <= #[trigger] v@[b],
                forall|a: int, b: int| 0 <= a < j < b <= i ==> #[trigger] v@[a] <= #[trigger] v@[b],
                forall|b: int| j < b <= i ==> v@[j as int] < #[trigger] v@[b],
            decreases j,
        {
            let x = v[j];
            let y = v[j - 1];
            let ghost before = v@;
            v.set(j, y);
            v.set(j - 1, x);
            assert(v@.to_multiset() == before.to_multiset()) by {
                let mid = before.update(j as int, y);
                assert(v@ == mid.update(j - 1, x));
                vstd::seq_lib::to_multiset_update(before, j as int, y);
                vstd::seq_lib::to_multiset_update(mid, j - 1, x);
                assert(mid.to_multiset() == before.to_multiset().insert(y).remove(x));
                assert(v@.to_multiset() == mid.to_multiset().insert(x).remove(y));
                assert(before[j as int] == x);
                assert(before.contains(x));
                vstd::seq_lib::to_multiset_contains(before, x);
                assert(x != y);
                assert(before.to_multiset().insert(y).remove(x).insert(x).remove(y) =~= before.to_multiset());
            }
            j = j - 1;
        }
        i = i + 1;
    }
}

/// Writes colours into the first slots of a palette and sorts the palette in ascending
/// order.
pub fn set_palette_colors(entry: &mut Entry, colors: &[(u8, u8, u8)])
    requires
        colors.len() <= 9,
    ensures
        *final(entry) == (Entry {
            image_data: ImageData { palette: final(entry).image_data.palette, ..old(entry).image_data },
            ..*old(entry)
        }),
        ascending(final(entry).image_data.palette@),
        final(entry).image_data.palette@.to_multiset() == palette_with(
            old(entry).image_data.palette@,
            colors@,
        ).to_multiset(),
{
    let mut words: Vec<u32> = Vec::new();
    let mut i: usize = 0;
    while i < 9
        invariant
            i <= 9,
            colors.len() <= 9,
            words@ == palette_with(entry.image_data.palette@, colors@).take(i as int),
        decreases 9 - i,
    {
        let w = if i < colors.len() {
            pack_color(colors[i])
        } else {
            entry.image_data.palette[i]
        };
        words.push(w);
        i = i + 1;
        assert(words@ == palette_with(entry.image_data.palette@, colors@).take(i as int));
    }
    let ghost unsorted = words@;
    assert(unsorted == palette_with(entry.image_data.palette@, colors@));
    sort_words(&mut words);
    let palette: [u32; 9] = [
        words[0],
        words[1],
        words[2],
        words[3],
        words[4],
        words[5],
        words[6],
        words[7],
        words[8],
    ];
    assert(palette@ == words@);
    entry.image_data.palette = palette;
}


}

verus! {

/// Whether a picture is picked: by its selection, or by its deletion mark.
pub open spec fn picked(e: Entry, by_selection: bool) -> bool {
    if by_selection {
        e.image_data.selected
    } else {
        e.delete
    }
}

/// The files of the picked pictures of a list, three for each, in order.
pub open spec fn picked_files(s: Seq<Entry>, by_selection: bool) -> Seq<Seq<char>>
    decreases s.len(),
{
    if s.len() == 0 {
        Seq::empty()
    } else {
        picked_files(s.drop_last(), by_selection) + if picked(s.last(), by_selection) {
            entry_files(s.last())
        } else {
            Seq::empty()
        }
    }
}

/// The copies that copying the selected pictures of a list into `dir` makes, in order.
pub open spec fn selection_copies(s: Seq<Entry>, dir: Seq<char>) -> Seq<(Seq<char>, Seq<char>)>
    decreases s.len(),
{
    if s.len() == 0 {
        Seq::empty()
    } else {
        selection_copies(s.drop_last(), dir) + if s.last().image_data.selected {
            entry_copies(s.last(), dir)
        } else {
            Seq::empty()
        }
    }
}

/// The files of the picked pictures of a list.
pub(crate) fn files_of_picked(entries: &EntryList, by_selection: bool) -> (r: Vec<String>)
    requires
        forall|i: int|
            0 <= i < entries.len() && picked(#[trigger] entries@[i], by_selection) ==> original_named(
                entries@[i].file_path@,
            ) && thumbnail_defined(entries@[i].file_path@),
    ensures
        string_views(r@) == picked_files(entries@, by_selection),
{
    let mut r: Vec<String> = Vec::new();
    let mut i: usize = 0;
    while i < entries.len()
        invariant
            i <= entries.len(),
            forall|i: int|
                0 <= i < entries.len() && picked(#[trigger] entries@[i], by_selection) ==> original_named(
                    entries@[i].file_path@,
                ) && thumbnail_defined(entries@[i].file_path@),
            string_views(r@) == picked_files(entries@.take(i as int), by_selection),
        decreases entries.len() - i,
    {
        assert(entries@.take(i + 1).drop_last() == entries@.take(i as int));
        let e = &entries[i];
        let pick = if by_selection {
            e.image_data.selected
        } else {
            e.delete
        };
        if pick {
            let files = delete_entry(e);
            let ghost before = r@;
            let mut k: usize = 0;
            while k < files.len()
                invariant
                    k <= files.len(),
                    string_views(r@) == string_views(before) + string_views(files@).take(k as int),
                decreases files.len() - k,
            {
                let ghost b = r@;
                r.push(files[k].clone());
                assert(string_views(r@) == string_views(b).push(files@[k as int]@));
                assert(string_views(files@).take(k + 1) == string_views(files@).take(k as int).push(
                    files@[k as int]@,
                ));
                k = k + 1;
            }
            assert(string_views(files@).take(files.len() as int) == string_views(files@));
        } else {
            assert(picked_files(entries@.take(i + 1), by_selection) == picked_files(
                entries@.take(i as int),
                by_selection,
            ) + Seq::<Seq<char>>::empty());
        }
        i = i + 1;
    }
    assert(entries@.take(entries.len() as int) == entries@);
    r
}

/// The copies that copying the selected pictures of a list into `dir` makes.
pub(crate) fn selection_copy_list(entries: &EntryList, dir: &str) -> (r: Vec<(String, String)>)
    requires
        forall|i: int|
            0 <= i < entries.len() && (#[trigger] entries@[i]).image_data.selected ==> files_named(
                entries@[i],
            ),
    ensures
        pair_views(r@) == selection_copies(entries@, dir@),
{
    let mut r: Vec<(String, String)> = Vec::new();
    let mut i: usize = 0;
    while i < entries.len()
        invariant
            i <= entries.len(),
            forall|i: int|
                0 <= i < entries.len() && (#[trigger] entries@[i]).image_data.selected
                    ==> files_named(entries@[i]),
            pair_views(r@) == selection_copies(entries@.take(i as int), dir@),
        decreases entries.len() - i,
    {
        assert(entries@.take(i + 1).drop_last() == entries@.take(i as int));
        let e = &entries[i];
        if e.image_data.selected {
            let copies = copy_entry(e, dir);
            let ghost before = r@;
            let mut k: usize = 0;
            while k < copies.len()
                invariant
                    k <= copies.len(),
                    pair_views(r@) == pair_views(before) + pair_views(copies@).take(k as int),
                decreases copies.len() - k,
            {
                let ghost b = r@;
                let (from, to) = (copies[k].0.clone(), copies[k].1.clone());
                r.push((from, to));
                assert(pair_views(r@) == pair_views(b).push((copies@[k as int].0@, copies@[k as int].1@)));
                assert(pair_views(copies@).take(k + 1) == pair_views(copies@).take(k as int).push(
                    (copies@[k as int].0@, copies@[k as int].1@),
                ));
                k = k + 1;
            }
            assert(pair_views(copies@).take(copies.len() as int) == pair_views(copies@));
        } else {
            assert(selection_copies(entries@.take(i + 1), dir@) == selection_copies(
                entries@.take(i as int),
                dir@,
            ) + Seq::<(Seq<char>, Seq<char>)>::empty());
        }
        i = i + 1;
    }
    assert(entries@.take(entries.len() as int) == entries@);
    r
}

}

verus! {

/// The paths of a reading list hold no thumbnail and none twice, and every line that does
/// not name a thumbnail is among them.
pub proof fn lemma_kept_paths(lines: Seq<Seq<char>>)
    ensures
        forall|i: int| 0 <= i < kept_paths(lines).len() ==> !names_thumbnail(#[trigger] kept_paths(lines)[i]),
        forall|i: int, j: int|
            0 <= i < j < kept_paths(lines).len() ==> kept_paths(lines)[i] != kept_paths(lines)[j],
        forall|i: int| 0 <= i < lines.len() && !names_thumbnail(#[trigger] lines[i]) ==> kept_paths(lines).contains(lines[i]),
        forall|i: int| 0 <= i < kept_paths(lines).len() ==> lines.contains(#[trigger] kept_paths(lines)[i]),
    decreases lines.len(),
{
    if lines.len() > 0 {
        let init = lines.drop_last();
        lemma_kept_paths(init);
        let kept = kept_paths(init);
        let l = lines.last();
        assert forall|i: int| 0 <= i < lines.len() && !names_thumbnail(#[trigger] lines[i]) implies kept_paths(lines).contains(lines[i]) by {
            if i < lines.len() - 1 {
                assert(init[i] == lines[i]);
                let k = choose|k: int| 0 <= k < kept.len() && kept[k] == init[i];
                if !(names_thumbnail(l) || kept.contains(l)) {
                    assert(kept_paths(lines)[k] == kept[k]);
                }
            } else {
                if kept.contains(l) {
                } else {
                    assert(kept_paths(lines)[kept.len() as int] == l);
                }
            }
        }
        assert forall|i: int| 0 <= i < kept_paths(lines).len() implies lines.contains(#[trigger] kept_paths(lines)[i]) by {
            if i < kept.len() {
                assert(kept_paths(lines)[i] == kept[i]);
                let k = choose|k: int| 0 <= k < init.len() && init[k] == kept[i];
                assert(lines[k] == init[k]);
            } else {
                assert(lines[lines.len() - 1] == l);
            }
        }
    }
}

/// A sample holds one picture of each directory of the list it was drawn from: no two of
/// its pictures share a directory, each is a picture of the list, and every directory of
/// the list is among its directories.
pub proof fn lemma_first_per_directory(s: Seq<Entry>)
    ensures
        forall|i: int, j: int|
            0 <= i < j < first_per_directory(s).len() ==> directories(first_per_directory(s))[i]
                != directories(first_per_directory(s))[j],
        forall|i: int| 0 <= i < first_per_directory(s).len() ==> s.contains(#[trigger] first_per_directory(s)[i]),
        forall|i: int| 0 <= i < s.len() ==> directories(first_per_directory(s)).contains(
            directory_name(#[trigger] s[i].file_path@),
        ),
    decreases s.len(),
{
    if s.len() > 0 {
        let init = s.drop_last();
        lemma_first_per_directory(init);
        let kept = first_per_directory(init);
        let e = s.last();
        let d = directory_name(e.file_path@);
        let r = first_per_directory(s);
        if directories(kept).contains(d) {
            assert(r == kept);
        } else {
            assert(r == kept.push(e));
            assert(directories(r) == directories(kept).push(d));
        }
        assert forall|i: int, j: int| 0 <= i < j < r.len() implies directories(r)[i] != directories(r)[j] by {
            if j == kept.len() {
                assert(directories(r)[j] == d);
                assert(directories(r)[i] == directories(kept)[i]);
            } else {
                assert(directories(r)[i] == directories(kept)[i]);
                assert(directories(r)[j] == directories(kept)[j]);
            }
        }
        assert forall|i: int| 0 <= i < r.len() implies s.contains(#[trigger] r[i]) by {
            if i < kept.len() {
                assert(r[i] == kept[i]);
                let k = choose|k: int| 0 <= k < init.len() && init[k] == kept[i];
                assert(s[k] == init[k]);
            } else {
                assert(s[s.len() - 1] == e);
            }
        }
        assert forall|i: int| 0 <= i < s.len() implies directories(r).contains(
            directory_name(#[trigger] s[i].file_path@),
        ) by {
            if i < s.len() - 1 {
                assert(init[i] == s[i]);
                let k = choose|k: int| 0 <= k < directories(kept).len() && directories(kept)[k] == directory_name(init[i].file_path@);
                assert(directories(r)[k] == directories(kept)[k]);
            } else if !directories(kept).contains(d) {
                assert(directories(r)[kept.len() as int] == d);
            }
        }
    }
}

/// The indices that `entries_with_label` returns are, in increasing order, those of the
/// pictures with the label.
pub proof fn lemma_labelled_indices(s: Seq<Entry>, label: Seq<char>)
    requires
        s.len() <= usize::MAX,
    ensures
        forall|k: int| 0 <= k < labelled_indices(s, label).len() ==> {
            let i = #[trigger] labelled_indices(s, label)[k];
            i < s.len() && s[i as int].image_data.label@ == label
        },
        forall|k: int, l: int|
            0 <= k < l < labelled_indices(s, label).len() ==> labelled_indices(s, label)[k]
                < labelled_indices(s, label)[l],
        forall|i: int| 0 <= i < s.len() && (#[trigger] s[i]).image_data.label@ == label ==> labelled_indices(s, label).contains(i as usize),
    decreases s.len(),
{
    if s.len() > 0 {
        let init = s.drop_last();
        lemma_labelled_indices(init, label);
        let r0 = labelled_indices(init, label);
        let r = labelled_indices(s, label);
        let last = (s.len() - 1) as usize;
        if s.last().image_data.label@ == label {
            assert(r == r0.push(last));
        } else {
            assert(r == r0);
        }
        assert forall|k: int| 0 <= k < r.len() implies {
            let i = #[trigger] r[k];
            i < s.len() && s[i as int].image_data.label@ == label
        } by {
            if k < r0.len() {
                assert(r[k] == r0[k]);
                assert(init[r0[k] as int] == s[r0[k] as int]);
            }
        }
        assert forall|k: int, l: int| 0 <= k < l < r.len() implies r[k] < r[l] by {
            if l < r0.len() {
                assert(r[k] == r0[k] && r[l] == r0[l]);
            } else {
                assert(r[k] == r0[k]);
                assert(r0[k] < init.len());
            }
        }
        assert forall|i: int| 0 <= i < s.len() && (#[trigger] s[i]).image_data.label@ == label implies r.contains(i as usize) by {
            if i < s.len() - 1 {
                assert(init[i] == s[i]);
                let k = choose|k: int| 0 <= k < r0.len() && r0[k] == i as usize;
                assert(r[k] == r0[k]);
            } else {
                assert(r[r0.len() as int] == i as usize);
            }
        }
    }
}

}

verus! {

/// Whether a pattern, if any, lets a path through: with none every path does; with one,
/// a path that the compiled pattern matches.
pub open spec fn pattern_admits(pattern: Option<Seq<char>>, path: Seq<char>) -> bool {
    match pattern {
        None => true,
        Some(p) => regex_compiles(p) && regex_captures(p, path),
    }
}

/// The pattern's text, if any.
pub open spec fn pattern_text(pattern: Option<String>) -> Option<Seq<char>> {
    match pattern {
        Some(p) => Some(p@),
        None => None,
    }
}

/// The indices, in order, of the first `n` paths found that become pictures.
pub open spec fn candidate_indices(
    paths: Seq<Seq<char>>,
    is_file: Seq<bool>,
    pattern: Option<Seq<char>>,
    n: int,
) -> Seq<usize>
    decreases n,
{
    if n <= 0 {
        Seq::empty()
    } else {
        let before = candidate_indices(paths, is_file, pattern, n - 1);
        if accepted(paths[n - 1], is_file[n - 1], pattern_admits(pattern, paths[n - 1])) {
            before.push((n - 1) as usize)
        } else {
            before
        }
    }
}

/// Whether a listing stops on its pattern: the pattern does not compile and some path
/// found is a file, for which it would be compiled.
pub open spec fn pattern_fails(is_file: Seq<bool>, pattern: Option<Seq<char>>) -> bool {
    pattern matches Some(p) && !regex_compiles(p) && exists|i: int|
        0 <= i < is_file.len() && #[trigger] is_file[i]
}

/// Which of the paths found under a directory become pictures (`is_file` tells, for each,
/// whether it is a file): their indices, in order. `None` when the pattern does not
/// compile and some path is a file: the listing cannot go on.
pub fn directory_candidates(
    paths: &Vec<String>,
    is_file: &Vec<bool>,
    pattern: &Option<String>,
) -> (r: Option<Vec<usize>>)
    requires
        paths.len() == is_file.len(),
    ensures
        r is None <==> pattern_fails(is_file@, pattern_text(*pattern)),
        r matches Some(v) ==> v@ == candidate_indices(
            string_views(paths@),
            is_file@,
            pattern_text(*pattern),
            paths.len() as int,
        ),
{
    let n = paths.len();
    let ghost views = string_views(paths@);
    match pattern {
        Some(p) => {
            let compiled = compile_pattern(p.as_str());
            if compiled.is_none() {
                assert(!regex_compiles(p@));
                assert(pattern_text(*pattern) == Some(p@));
                let mut i: usize = 0;
                while i < n
                    invariant
                        i <= n == is_file.len(),
                        pattern_text(*pattern) == Some(p@),
                        !regex_compiles(p@),
                        forall|j: int| 0 <= j < i ==> !is_file@[j],
                    decreases n - i,
                {
                    if is_file[i] {
                        assert(is_file@[i as int]);
                        return None;
                    }
                    i = i + 1;
                }
            }
        },
        None => {},
    }
    let mut found: Vec<usize> = Vec::new();
    let mut i: usize = 0;
    while i < n
        invariant
            i <= n == paths.len() == is_file.len(),
            views == string_views(paths@),
            found@ == candidate_indices(views, is_file@, pattern_text(*pattern), i as int),
        decreases n - i,
    {
        if entry_candidate(paths[i].as_str(), is_file[i], pattern) {
            found.push(i);
        }
        i = i + 1;
    }
    proof {
        if pattern_fails(is_file@, pattern_text(*pattern)) {
            let j = choose|j: int| 0 <= j < is_file.len() && #[trigger] is_file@[j];
            assert(is_file@[j]);
        }
    }
    Some(found)
}

}

verus! {

/// The pictures among the first `n`, in order, whose thumbnail is not among `thumbnails`.
pub open spec fn missing_thumbnails(
    images: Seq<Seq<char>>,
    thumbnails: Seq<Seq<char>>,
    n: int,
) -> Seq<Seq<char>>
    decreases n,
{
    if n <= 0 {
        Seq::empty()
    } else {
        let before = missing_thumbnails(images, thumbnails, n - 1);
        if thumbnails.contains(thumbnail_path(images[n - 1])) {
            before
        } else {
            before.push(images[n - 1])
        }
    }
}

/// The files to delete for the first `n` thumbnails: for each whose picture is missing
/// (`originals_exist` tells), the thumbnail and the data file of its picture.
pub open spec fn orphan_files(
    thumbnails: Seq<Seq<char>>,
    originals_exist: Seq<bool>,
    n: int,
) -> Seq<Seq<char>>
    decreases n,
{
    if n <= 0 {
        Seq::empty()
    } else {
        let before = orphan_files(thumbnails, originals_exist, n - 1);
        if originals_exist[n - 1] {
            before
        } else {
            before + seq![
                thumbnails[n - 1],
                image_data_path(original_path(thumbnails[n - 1])),
            ]
        }
    }
}

fn contains_text(list: &Vec<String>, text: &str) -> (r: bool)
    ensures
        r == string_views(list@).contains(text@),
{
    let t = chars_of(text);
    let mut i: usize = 0;
    while i < list.len()
        invariant
            i <= list.len(),
            t@ == text@,
            forall|j: int| 0 <= j < i ==> list@[j]@ != text@,
        decreases list.len() - i,
    {
        if chars_equal(chars_of(list[i].as_str()).as_slice(), t.as_slice()) {
            assert(string_views(list@)[i as int] == text@);
            return true;
        }
        i = i + 1;
    }
    proof {
        if string_views(list@).contains(text@) {
            let j = choose|j: int| 0 <= j < list.len() && string_views(list@)[j] == text@;
            assert(list@[j]@ == text@);
        }
    }
    false
}

/// What keeping the thumbnails up to date takes: the pictures, in order, whose thumbnail
/// is missing from `thumbnails` (to be made), and the files to delete for the thumbnails
/// whose picture is missing (`originals_exist` tells, for each thumbnail).
pub fn thumbnail_plan(
    images: &Vec<String>,
    thumbnails: &Vec<String>,
    originals_exist: &Vec<bool>,
) -> (r: (Vec<String>, Vec<String>))
    requires
        thumbnails.len() == originals_exist.len(),
        forall|i: int| 0 <= i < images.len() ==> thumbnail_defined(#[trigger] images@[i]@),
        forall|j: int|
            0 <= j < thumbnails.len() ==> original_named(original_path(#[trigger] thumbnails@[j]@))
                && paths::original_defined(thumbnails@[j]@),
    ensures
        string_views(r.0@) == missing_thumbnails(
            string_views(images@),
            string_views(thumbnails@),
            images.len() as int,
        ),
        string_views(r.1@) == orphan_files(
            string_views(thumbnails@),
            originals_exist@,
            thumbnails.len() as int,
        ),
{
    let ghost iv = string_views(images@);
    let ghost tv = string_views(thumbnails@);
    let mut to_create: Vec<String> = Vec::new();
    let mut i: usize = 0;
    while i < images.len()
        invariant
            i <= images.len(),
            iv == string_views(images@),
            tv == string_views(thumbnails@),
            forall|k: int| 0 <= k < images.len() ==> thumbnail_defined(#[trigger] images@[k]@),
            string_views(to_create@) == missing_thumbnails(iv, tv, i as int),
        decreases images.len() - i,
    {
        let target = paths::thumbnail_file_path(images[i].as_str());
        if !contains_text(thumbnails, target.as_str()) {
            let ghost before = to_create@;
            to_create.push(string_of(chars_of(images[i].as_str()).as_slice()));
            assert(string_views(to_create@) == string_views(before).push(iv[i as int]));
        }
        i = i + 1;
    }
    let mut to_delete: Vec<String> = Vec::new();
    let mut j: usize = 0;
    while j < thumbnails.len()
        invariant
            j <= thumbnails.len() == originals_exist.len(),
            tv == string_views(thumbnails@),
            forall|k: int|
                0 <= k < thumbnails.len() ==> original_named(
                    original_path(#[trigger] thumbnails@[k]@),
                ) && paths::original_defined(thumbnails@[k]@),
            string_views(to_delete@) == orphan_files(tv, originals_exist@, j as int),
        decreases thumbnails.len() - j,
    {
        if !originals_exist[j] {
            let ghost before = to_delete@;
            let original = paths::original_file_path(thumbnails[j].as_str());
            let data = paths::image_data_file_path(original.as_str());
            to_delete.push(string_of(chars_of(thumbnails[j].as_str()).as_slice()));
            to_delete.push(data);
            assert(string_views(to_delete@) == string_views(before) + seq![
                tv[j as int],
                image_data_path(original_path(tv[j as int])),
            ]);
        }
        j = j + 1;
    }
    (to_create, to_delete)
}

/// What checking a target directory comes to.
pub enum PathStep {
    /// The directory is there: use it.
    Accept,
    /// The directory is missing: ask, with this question, whether to create it.
    Ask(String),
    /// Give up, with this message.
    Reject(String),
}

/// Checks a target directory `dir`, given whether it exists and whether it is a directory:
/// a missing one is offered for creation when `confirm_create` holds, else refused.
pub fn path_check_step(dir: &str, confirm_create: bool, exists: bool, is_dir: bool) -> (r:
    PathStep)
    ensures
        exists && is_dir ==> r is Accept,
        exists && !is_dir ==> (r matches PathStep::Reject(m) && m@ == "path "@ + dir@
            + " is not a directory"@),
        !exists && confirm_create ==> (r matches PathStep::Ask(q) && q@ == "directory "@ + dir@
            + " doesn't exist. Create ?"@),
        !exists && !confirm_create ==> (r matches PathStep::Reject(m) && m@
            == crate::args::missing_path_message(dir@)),
{
    let mut v: Vec<char> = Vec::new();
    if exists {
        if is_dir {
            PathStep::Accept
        } else {
            push_str(&mut v, "path ");
            push_str(&mut v, dir);
            push_str(&mut v, " is not a directory");
            PathStep::Reject(string_of(v.as_slice()))
        }
    } else if confirm_create {
        push_str(&mut v, "directory ");
        push_str(&mut v, dir);
        push_str(&mut v, " doesn't exist. Create ?");
        PathStep::Ask(string_of(v.as_slice()))
    } else {
        push_str(&mut v, "path ");
        push_str(&mut v, dir);
        push_str(&mut v, " doesn't exist");
        PathStep::Reject(string_of(v.as_slice()))
    }
}

/// The answer to the question whether to create a directory: yes when the response starts
/// with 'y' or 'Y'; otherwise the creation is cancelled, with that message.
pub fn creation_answer(response: &str) -> (r: Result<(), String>)
    ensures
        r is Ok <==> (response@.len() > 0 && (response@[0] == 'y' || response@[0] == 'Y')),
        r matches Err(m) ==> m@ == "directory creation cancelled"@,
{
    let c = chars_of(response);
    if c.len() > 0 && (c[0] == 'y' || c[0] == 'Y') {
        Ok(())
    } else {
        Err(String::from_str("directory creation cancelled"))
    }
}

/// Where a run of file operations stands after one of them.
pub enum Progress {
    /// Go on with the operation of this index.
    Next(usize),
    /// All went well.
    Done,
    /// Stop: this operation failed, with this error; none after it is attempted.
    Failed(String),
}

/// Where a run of operations stands, as plain values.
pub ghost enum ProgressView {
    Next(nat),
    Done,
    Failed(Seq<char>),
}

impl View for Progress {
    type V = ProgressView;

    open spec fn view(&self) -> ProgressView {
        match self {
            Progress::Next(i) => ProgressView::Next(*i as nat),
            Progress::Done => ProgressView::Done,
            Progress::Failed(m) => ProgressView::Failed(m@),
        }
    }
}

/// The outcome of an operation, its error taken as text.
pub open spec fn outcome_view(outcome: Result<(), String>) -> Result<(), Seq<char>> {
    match outcome {
        Ok(()) => Ok(()),
        Err(e) => Err(e@),
    }
}

/// The step after operation `index` of `total` ended with `outcome`.
pub open spec fn step_after(index: nat, total: nat, outcome: Result<(), Seq<char>>) -> ProgressView {
    match outcome {
        Err(e) => ProgressView::Failed(e),
        Ok(()) => if index + 1 < total {
            ProgressView::Next(index + 1)
        } else {
            ProgressView::Done
        },
    }
}

/// Where a run ends that steps as `next_step` does from operation `index` on, each
/// operation ending with its outcome in `outcomes`.
pub open spec fn run_from(outcomes: Seq<Result<(), Seq<char>>>, index: nat) -> ProgressView
    decreases outcomes.len() - index,
{
    if index >= outcomes.len() {
        ProgressView::Done
    } else {
        match outcomes[index as int] {
            Err(e) => ProgressView::Failed(e),
            Ok(()) => if index + 1 < outcomes.len() {
                run_from(outcomes, index + 1)
            } else {
                ProgressView::Done
            },
        }
    }
}

/// Each step of `run_from` is the step of `next_step`.
pub proof fn lemma_run_steps(outcomes: Seq<Result<(), Seq<char>>>, index: nat)
    requires
        index < outcomes.len(),
    ensures
        run_from(outcomes, index) == match step_after(index, outcomes.len(), outcomes[index as int]) {
            ProgressView::Next(j) => run_from(outcomes, j),
            other => other,
        },
{
}

/// A run of operations stops at the first that fails, with its error, and attempts none
/// after it; it ends well exactly when every operation from `index` on succeeds.
pub proof fn lemma_run_stops_at_first_failure(outcomes: Seq<Result<(), Seq<char>>>, index: nat)
    ensures
        run_from(outcomes, index) is Done <==> forall|k: int|
            index <= k < outcomes.len() ==> (#[trigger] outcomes[k]) is Ok,
        forall|k: int|
            index <= k < outcomes.len() && (#[trigger] outcomes[k]) is Err && (forall|j: int|
                index <= j < k ==> outcomes[j] is Ok) ==> run_from(outcomes, index)
                == ProgressView::Failed(outcomes[k]->Err_0),
    decreases outcomes.len() - index,
{
    if index < outcomes.len() {
        lemma_run_stops_at_first_failure(outcomes, index + 1);
        if outcomes[index as int] is Ok {
            assert forall|k: int|
                index + 1 <= k < outcomes.len() && (#[trigger] outcomes[k]) is Err && (forall|j: int|
                    index + 1 <= j < k ==> outcomes[j] is Ok) implies run_from(outcomes, index)
                == ProgressView::Failed(outcomes[k]->Err_0) by {
                assert(index + 1 < outcomes.len());
            }
        } else {
            assert(!(forall|k: int| index <= k < outcomes.len() ==> (#[trigger] outcomes[k]) is Ok)
                ) by {
                assert(outcomes[index as int] is Err);
            }
        }
    }
}

/// The step after operation `index` of `total` ended with `outcome`: stop at the first
/// failure, else go on to the next operation, and end after the last.
pub fn next_step(index: usize, total: usize, outcome: Result<(), String>) -> (r: Progress)
    requires
        index < total,
    ensures
        r@ == step_after(index as nat, total as nat, outcome_view(outcome)),
        outcome matches Err(e) ==> (r matches Progress::Failed(m) && m@ == e@),
        outcome is Ok && index + 1 < total ==> r == Progress::Next((index + 1) as usize),
        outcome is Ok && index + 1 == total ==> r is Done,
{
    match outcome {
        Err(e) => Progress::Failed(e),
        Ok(()) => if index + 1 < total {
            Progress::Next(index + 1)
        } else {
            Progress::Done
        },
    }
}

}

verus! {

/// The thumbnail of a picture in the format of its extension, from the picture's bytes.
pub open spec fn thumbnail_of(extension: Seq<char>, image: Seq<u8>) -> Option<Seq<u8>> {
    match format_of_extension(extension) {
        ThumbnailFormat::Png => crate::external::png_thumbnail_of(image),
        ThumbnailFormat::Jpeg => crate::external::jpeg_thumbnail_of(image),
    }
}

/// The bytes of an optional vector.
pub open spec fn bytes_view(r: Option<Vec<u8>>) -> Option<Seq<u8>> {
    match r {
        Some(v) => Some(v@),
        None => None,
    }
}

/// Makes the thumbnail of a picture, given its extension and its bytes: read and written
/// in the format of the extension; `None` where it cannot be made.
pub fn thumbnail_bytes(extension: &str, image: &[u8]) -> (r: Option<Vec<u8>>)
    requires
        valid_extension(extension@),
    ensures
        bytes_view(r) == thumbnail_of(extension@, image@),
{
    match thumbnail_format(extension) {
        ThumbnailFormat::Png => crate::external::png_thumbnail(image),
        ThumbnailFormat::Jpeg => crate::external::jpeg_thumbnail(image),
    }
}

}
