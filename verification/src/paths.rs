//! File naming: thumbnails, image data files and directories of pictures.
//!
//! A path is read as text whose parts are separated by '/': the file name is what follows
//! the last '/', and the directory part is everything up to and including it. Paths are
//! taken as they are written: repeated or final separators and '.' or '..' parts are not
//! normalised away.
use vstd::prelude::*;
use crate::text::{
    chars_of, contains, ends_with, find_last, has_infix, has_suffix, last_index_of,
    lemma_last_index_of, lemma_last_index_of_absent, lemma_last_index_of_concat, push_chars,
    push_str, slice_chars, string_of,
};

verus! {

/// Marks the file name of a thumbnail.
pub const THUMB_SUFFIX: &'static str = "THUMB";

/// Marks the file name of the data file of a picture.
pub const IMAGE_DATA: &'static str = "IMAGE_DATA";

/// Extension of the data file of a picture.
pub const JSON_EXTENSION: &'static str = ".json";

/// Index of the last '/' of a path, or -1.
pub open spec fn slash_index(p: Seq<char>) -> int {
    last_index_of(p, '/')
}

/// The file name: what follows the last '/'.
pub open spec fn file_name(p: Seq<char>) -> Seq<char> {
    p.subrange(slash_index(p) + 1, p.len() as int)
}

/// A text without the '/' that end it, but for a first character.
pub open spec fn trim_slashes(d: Seq<char>) -> Seq<char>
    decreases d.len(),
{
    if d.len() > 1 && d.last() == '/' {
        trim_slashes(d.drop_last())
    } else {
        d
    }
}

/// The parent directory, as `Path::parent` gives it: what precedes the last '/', without
/// the '/' that end it (a root stays "/").
pub open spec fn parent_part(p: Seq<char>) -> Seq<char> {
    trim_slashes(p.subrange(0, slash_index(p)))
}

/// The directory part that a file name is joined to: empty for a bare name, else the
/// parent followed by one '/' (the root alone for a file at the root).
pub open spec fn dir_prefix(p: Seq<char>) -> Seq<char> {
    if slash_index(p) < 0 {
        Seq::empty()
    } else if parent_part(p).len() > 0 && parent_part(p).last() == '/' {
        parent_part(p)
    } else {
        parent_part(p).push('/')
    }
}

/// Whether a file name has an extension: a '.' that is not its first character.
pub open spec fn has_extension(name: Seq<char>) -> bool {
    last_index_of(name, '.') > 0
}

/// The file name without its extension.
pub open spec fn stem(name: Seq<char>) -> Seq<char> {
    if has_extension(name) {
        name.subrange(0, last_index_of(name, '.'))
    } else {
        name
    }
}

/// What follows the last '.' of a file name.
pub open spec fn extension(name: Seq<char>) -> Seq<char> {
    name.subrange(last_index_of(name, '.') + 1, name.len() as int)
}

/// `s` without the suffix `t`, where it ends with `t`.
pub open spec fn strip_suffix(s: Seq<char>, t: Seq<char>) -> Seq<char> {
    if has_suffix(s, t) {
        s.subrange(0, s.len() - t.len())
    } else {
        s
    }
}

/// Whether a path names a thumbnail.
#[verifier::opaque]
pub open spec fn names_thumbnail(p: Seq<char>) -> bool {
    has_infix(p, THUMB_SUFFIX@)
}

/// The thumbnail of a picture: the stem is followed by the thumbnail mark.
pub open spec fn thumbnail_path(p: Seq<char>) -> Seq<char> {
    if names_thumbnail(p) {
        p
    } else {
        dir_prefix(p) + stem(file_name(p)) + THUMB_SUFFIX@ + seq!['.'] + extension(file_name(p))
    }
}

/// The picture of a thumbnail: the thumbnail mark is dropped from the end of the stem.
pub open spec fn original_path(p: Seq<char>) -> Seq<char> {
    if !names_thumbnail(p) {
        p
    } else {
        dir_prefix(p) + strip_suffix(stem(file_name(p)), THUMB_SUFFIX@) + seq!['.'] + extension(
            file_name(p),
        )
    }
}

/// The data file of a picture: beside the picture, named by its stem and the data mark.
pub open spec fn image_data_path(p: Seq<char>) -> Seq<char> {
    let o = original_path(p);
    dir_prefix(o) + stem(file_name(o)) + IMAGE_DATA@ + JSON_EXTENSION@
}

/// The name of the directory that holds a file.
pub open spec fn directory_name(p: Seq<char>) -> Seq<char> {
    if parent_part(p).len() == 0 || parent_part(p) == seq!['/'] {
        seq!['/']
    } else {
        file_name(parent_part(p))
    }
}

/// A path joined to a directory, as `Path::join` joins it: an absolute path (one that
/// starts with '/') replaces the directory; a relative one follows it after a '/'.
pub open spec fn joined(dir: Seq<char>, name: Seq<char>) -> Seq<char> {
    if name.len() > 0 && name[0] == '/' {
        name
    } else if dir.len() == 0 {
        name
    } else if dir.last() == '/' {
        dir + name
    } else {
        dir + seq!['/'] + name
    }
}

/// The paths on which `thumbnail_file_path` is defined: a picture needs an extension.
pub open spec fn thumbnail_defined(p: Seq<char>) -> bool {
    !names_thumbnail(p) ==> has_extension(file_name(p))
}

/// The paths on which `original_file_path` is defined: a thumbnail needs an extension.
pub open spec fn original_defined(p: Seq<char>) -> bool {
    names_thumbnail(p) ==> has_extension(file_name(p))
}

/// The paths whose picture has a file name.
pub open spec fn original_named(p: Seq<char>) -> bool {
    original_defined(p) && file_name(original_path(p)).len() > 0
}

struct PathParts {
    dir: Vec<char>,
    name: Vec<char>,
}

fn trim_slashes_chars(d: Vec<char>) -> (r: Vec<char>)
    ensures
        r@ == trim_slashes(d@),
{
    let mut r = d;
    while r.len() > 1 && r[r.len() - 1] == '/'
        invariant
            trim_slashes(r@) == trim_slashes(d@),
        decreases r.len(),
    {
        let ghost before = r@;
        r.pop();
        assert(r@ == before.drop_last());
    }
    r
}

fn parent_chars(p: &[char]) -> (r: Vec<char>)
    requires
        slash_index(p@) >= 0,
    ensures
        r@ == parent_part(p@),
{
    proof {
        lemma_last_index_of(p@, '/');
    }
    let slash = match find_last(p, '/') {
        Some(i) => i,
        None => 0,
    };
    trim_slashes_chars(slice_chars(p, 0, slash))
}

fn split_path(p: &[char]) -> (r: PathParts)
    ensures
        r.dir@ == dir_prefix(p@),
        r.name@ == file_name(p@),
{
    proof {
        lemma_last_index_of(p@, '/');
    }
    match find_last(p, '/') {
        Some(i) => {
            let mut dir = parent_chars(p);
            if !(dir.len() > 0 && dir[dir.len() - 1] == '/') {
                dir.push('/');
            }
            PathParts { dir: dir, name: slice_chars(p, i + 1, p.len()) }
        },
        None => PathParts { dir: Vec::new(), name: slice_chars(p, 0, p.len()) },
    }
}

struct NameParts {
    stem: Vec<char>,
    extension: Vec<char>,
    has_extension: bool,
}

fn split_name(name: &[char]) -> (r: NameParts)
    ensures
        r.stem@ == stem(name@),
        r.has_extension == has_extension(name@),
        r.has_extension ==> r.extension@ == extension(name@),
{
    proof {
        lemma_last_index_of(name@, '.');
    }
    match find_last(name, '.') {
        Some(i) => {
            if i > 0 {
                NameParts {
                    stem: slice_chars(name, 0, i),
                    extension: slice_chars(name, i + 1, name.len()),
                    has_extension: true,
                }
            } else {
                NameParts { stem: slice_chars(name, 0, name.len()), extension: Vec::new(), has_extension: false }
            }
        },
        None => NameParts {
            stem: slice_chars(name, 0, name.len()),
            extension: Vec::new(),
            has_extension: false,
        },
    }
}

pub fn is_thumbnail(file_path: &str) -> (r: bool)
    ensures
        r == names_thumbnail(file_path@),
{
    let p = chars_of(file_path);
    let t = chars_of(THUMB_SUFFIX);
    proof {
        reveal(names_thumbnail);
    }
    contains(p.as_slice(), t.as_slice())
}

fn thumbnail_chars(p: &[char]) -> (r: Vec<char>)
    requires
        thumbnail_defined(p@),
    ensures
        r@ == thumbnail_path(p@),
{
    let t = chars_of(THUMB_SUFFIX);
    proof {
        reveal(names_thumbnail);
    }
    if contains(p, t.as_slice()) {
        slice_chars(p, 0, p.len())
    } else {
        let parts = split_path(p);
        let name = split_name(parts.name.as_slice());
        let mut r = parts.dir;
        push_chars(&mut r, name.stem.as_slice());
        push_chars(&mut r, t.as_slice());
        r.push('.');
        push_chars(&mut r, name.extension.as_slice());
        r
    }
}

pub fn thumbnail_file_path(file_path: &str) -> (r: String)
    requires
        thumbnail_defined(file_path@),
    ensures
        r@ == thumbnail_path(file_path@),
{
    let p = chars_of(file_path);
    let r = thumbnail_chars(p.as_slice());
    string_of(r.as_slice())
}

fn original_chars(p: &[char]) -> (r: Vec<char>)
    requires
        original_defined(p@),
    ensures
        r@ == original_path(p@),
{
    let t = chars_of(THUMB_SUFFIX);
    proof {
        reveal(names_thumbnail);
    }
    if !contains(p, t.as_slice()) {
        slice_chars(p, 0, p.len())
    } else {
        let parts = split_path(p);
        let name = split_name(parts.name.as_slice());
        let mut r = parts.dir;
        if ends_with(name.stem.as_slice(), t.as_slice()) {
            let kept = slice_chars(name.stem.as_slice(), 0, name.stem.len() - t.len());
            push_chars(&mut r, kept.as_slice());
        } else {
            push_chars(&mut r, name.stem.as_slice());
        }
        r.push('.');
        push_chars(&mut r, name.extension.as_slice());
        r
    }
}

pub fn original_file_path(file_path: &str) -> (r: String)
    requires
        original_defined(file_path@),
    ensures
        r@ == original_path(file_path@),
{
    let p = chars_of(file_path);
    let r = original_chars(p.as_slice());
    string_of(r.as_slice())
}

pub fn image_data_file_path(file_path: &str) -> (r: String)
    requires
        original_named(file_path@),
    ensures
        r@ == image_data_path(file_path@),
{
    let p = chars_of(file_path);
    let o = original_chars(p.as_slice());
    let parts = split_path(o.as_slice());
    let name = split_name(parts.name.as_slice());
    let mut r = parts.dir;
    push_chars(&mut r, name.stem.as_slice());
    push_str(&mut r, IMAGE_DATA);
    push_str(&mut r, JSON_EXTENSION);
    string_of(r.as_slice())
}

pub fn original_file_name(file_path: &str) -> (r: String)
    requires
        original_named(file_path@),
    ensures
        r@ == file_name(original_path(file_path@)),
{
    let p = chars_of(file_path);
    let o = original_chars(p.as_slice());
    let parts = split_path(o.as_slice());
    string_of(parts.name.as_slice())
}

/// Whether a path has a directory part: a '/'.
pub fn has_slash(file_path: &str) -> (r: bool)
    ensures
        r == (slash_index(file_path@) >= 0),
{
    let p = chars_of(file_path);
    proof {
        lemma_last_index_of(p@, '/');
    }
    find_last(p.as_slice(), '/').is_some()
}

/// Whether the picture of a path is defined: a thumbnail needs an extension.
pub fn original_is_defined(file_path: &str) -> (r: bool)
    ensures
        r == original_defined(file_path@),
{
    if !is_thumbnail(file_path) {
        true
    } else {
        let p = chars_of(file_path);
        let parts = split_path(p.as_slice());
        let name = split_name(parts.name.as_slice());
        name.has_extension
    }
}

/// The file name of a path: what follows its last '/'.
pub fn file_name_of(file_path: &str) -> (r: String)
    ensures
        r@ == file_name(file_path@),
{
    let p = chars_of(file_path);
    let parts = split_path(p.as_slice());
    string_of(parts.name.as_slice())
}

pub fn directory(file_path: &str) -> (r: String)
    requires
        slash_index(file_path@) >= 0,
    ensures
        r@ == directory_name(file_path@),
{
    let p = chars_of(file_path);
    let parent = parent_chars(p.as_slice());
    if parent.len() == 0 || (parent.len() == 1 && parent[0] == '/') {
        proof {
            if parent.len() == 1 {
                assert(parent@ == seq!['/']);
            }
        }
        string_of(&['/'])
    } else {
        let parts = split_path(parent.as_slice());
        proof {
            assert(parent@ != seq!['/']);
        }
        string_of(parts.name.as_slice())
    }
}

/// A path joined to a directory, as `Path::join` joins it.
pub fn join(dir: &str, name: &str) -> (r: String)
    ensures
        r@ == joined(dir@, name@),
{
    let d = chars_of(dir);
    let n = chars_of(name);
    if n.len() > 0 && n[0] == '/' {
        string_of(n.as_slice())
    } else if d.len() == 0 {
        string_of(n.as_slice())
    } else {
        let mut r = d;
        if r[r.len() - 1] != '/' {
            r.push('/');
        }
        push_chars(&mut r, n.as_slice());
        string_of(r.as_slice())
    }
}


proof fn lemma_thumb_suffix_chars()
    ensures
        THUMB_SUFFIX@ == seq!['T', 'H', 'U', 'M', 'B'],
{
    reveal_strlit("THUMB");
}

/// Trimming leaves no '/' at the end but for a first character, keeps a non-empty text
/// non-empty, and leaves alone a text it would not change.
proof fn lemma_trim_slashes(d: Seq<char>)
    ensures
        trim_slashes(d).len() <= 1 || trim_slashes(d).last() != '/',
        d.len() > 0 ==> trim_slashes(d).len() > 0,
        d.len() == 0 ==> trim_slashes(d).len() == 0,
        trim_slashes(trim_slashes(d)) == trim_slashes(d),
    decreases d.len(),
{
    if d.len() > 1 && d.last() == '/' {
        lemma_trim_slashes(d.drop_last());
    }
}

/// A path splits into its file name, which holds no '/', and what precedes it; the
/// directory part is empty or ends with its only final '/'.
proof fn lemma_split_path(p: Seq<char>)
    ensures
        p == p.subrange(0, slash_index(p) + 1) + file_name(p),
        forall|i: int| 0 <= i < file_name(p).len() ==> file_name(p)[i] != '/',
        dir_prefix(p).len() == 0 <==> slash_index(p) < 0,
        dir_prefix(p).len() > 0 ==> last_index_of(dir_prefix(p), '/') == dir_prefix(p).len() - 1,
        dir_prefix(p).len() > 0 ==> (dir_prefix(p) == seq!['/'] || (trim_slashes(
            dir_prefix(p).drop_last(),
        ) == dir_prefix(p).drop_last() && !(dir_prefix(p).drop_last().len() > 0
            && dir_prefix(p).drop_last().last() == '/'))),
{
    lemma_last_index_of(p, '/');
    let si = slash_index(p);
    assert(p == p.subrange(0, si + 1) + file_name(p));
    assert forall|i: int| 0 <= i < file_name(p).len() implies file_name(p)[i] != '/' by {
        assert(file_name(p)[i] == p[si + 1 + i]);
    }
    if si >= 0 {
        let t = parent_part(p);
        lemma_trim_slashes(p.subrange(0, si));
        let d = dir_prefix(p);
        assert(d.last() == '/');
        if t.len() > 0 && t.last() == '/' {
            assert(t.len() == 1);
            assert(d =~= seq!['/']);
        } else {
            assert(d.drop_last() == t);
        }
        assert(last_index_of(d, '/') == d.len() - 1) by {
            lemma_last_index_of(d, '/');
            assert(d.drop_last() + seq![d.last()] =~= d);
            lemma_last_index_of_concat(d.drop_last(), seq![d.last()], '/');
        }
    }
}

/// A file name with an extension splits into its stem, a '.', and its extension; the
/// extension holds no '.'.
proof fn lemma_split_name(name: Seq<char>)
    requires
        has_extension(name),
    ensures
        name == stem(name) + seq!['.'] + extension(name),
        forall|i: int| 0 <= i < extension(name).len() ==> extension(name)[i] != '.',
        stem(name).len() > 0,
{
    lemma_last_index_of(name, '.');
    let k = last_index_of(name, '.');
    assert(name == stem(name) + seq!['.'] + extension(name));
    assert forall|i: int| 0 <= i < extension(name).len() implies extension(name)[i] != '.' by {
        assert(extension(name)[i] == name[k + 1 + i]);
    }
}

/// The thumbnail of a picture is named as a thumbnail.
pub proof fn lemma_thumbnail_is_thumbnail(p: Seq<char>)
    requires
        thumbnail_defined(p),
    ensures
        names_thumbnail(thumbnail_path(p)),
{
    reveal(names_thumbnail);
    if !names_thumbnail(p) {
        let q = thumbnail_path(p);
        let i: int = (dir_prefix(p).len() + stem(file_name(p)).len()) as int;
        assert(q.subrange(i, i + THUMB_SUFFIX@.len() as int) == THUMB_SUFFIX@);
    }
}

/// Replacing the file name of a path keeps its directory part.
proof fn lemma_rename(p: Seq<char>, rest: Seq<char>)
    requires
        forall|i: int| 0 <= i < rest.len() ==> rest[i] != '/',
    ensures
        file_name(dir_prefix(p) + rest) == rest,
        dir_prefix(dir_prefix(p) + rest) == dir_prefix(p),
{
    let d = dir_prefix(p);
    let q = d + rest;
    lemma_split_path(p);
    lemma_last_index_of_absent(rest, '/');
    lemma_last_index_of_concat(d, rest, '/');
    if d.len() == 0 {
        assert(q == rest);
        assert(q.subrange(0, q.len() as int) == rest);
    } else {
        assert(slash_index(q) == d.len() - 1);
        assert(q.subrange(0, d.len() - 1) == d.drop_last());
        assert(q.subrange(d.len() as int, q.len() as int) == rest);
        if d == seq!['/'] {
            assert(d.drop_last().len() == 0);
            assert(parent_part(q).len() == 0);
        } else {
            assert(parent_part(q) == d.drop_last());
            assert(d.drop_last().push('/') =~= d);
        }
    }
}

/// The stem and extension of a name made of a stem, a '.', and an extension without '.'.
proof fn lemma_rejoin_name(st: Seq<char>, e: Seq<char>)
    requires
        st.len() > 0,
        forall|i: int| 0 <= i < e.len() ==> e[i] != '.',
    ensures
        has_extension(st + seq!['.'] + e),
        stem(st + seq!['.'] + e) == st,
        extension(st + seq!['.'] + e) == e,
{
    let head = st + seq!['.'];
    let name = head + e;
    lemma_last_index_of_absent(e, '.');
    lemma_last_index_of_concat(head, e, '.');
    assert(head.drop_last() == st);
    assert(last_index_of(head, '.') == st.len());
    assert(last_index_of(name, '.') == st.len());
    assert(name.subrange(0, st.len() as int) == st);
    assert(name.subrange(st.len() + 1int, name.len() as int) == e);
}

proof fn lemma_no_slash_in_thumbnail_name(n: Seq<char>, st: Seq<char>, t: Seq<char>, e: Seq<char>)
    requires
        n == st + seq!['.'] + e,
        forall|i: int| 0 <= i < n.len() ==> n[i] != '/',
        forall|i: int| 0 <= i < t.len() ==> t[i] != '/',
    ensures
        forall|i: int|
            0 <= i < (st + t + seq!['.'] + e).len() ==> (st + t + seq!['.'] + e)[i] != '/',
{
    let rest = st + t + seq!['.'] + e;
    assert forall|i: int| 0 <= i < rest.len() implies rest[i] != '/' by {
        if i < st.len() {
            assert(rest[i] == n[i]);
        } else if i < st.len() + t.len() {
            assert(rest[i] == t[i - st.len()]);
        } else if i == st.len() + t.len() {
        } else {
            assert(rest[i] == n[i - t.len()]);
        }
    }
}

/// The mark dropped from a stem that ends with it.
proof fn lemma_strip_mark(st: Seq<char>, t: Seq<char>)
    ensures
        strip_suffix(st + t, t) == st,
{
    assert((st + t).subrange((st + t).len() - t.len(), (st + t).len() as int) == t);
    assert((st + t).subrange(0, (st + t).len() - t.len()) == st);
}

/// A picture with an extension: its directory part, stem, a '.', and its extension.
proof fn lemma_picture_parts(p: Seq<char>)
    requires
        has_extension(file_name(p)),
    ensures
        dir_prefix(p) + file_name(p) == dir_prefix(p) + stem(file_name(p)) + seq!['.']
            + extension(file_name(p)),
{
    let d = dir_prefix(p);
    let n = file_name(p);
    lemma_split_name(n);
    assert(d + (stem(n) + seq!['.'] + extension(n)) == d + stem(n) + seq!['.'] + extension(n));
}

/// The file name and directory part of the thumbnail of a picture.
proof fn lemma_thumbnail_split(p: Seq<char>)
    requires
        !names_thumbnail(p),
        has_extension(file_name(p)),
    ensures
        ({
            let n = file_name(p);
            let rest = stem(n) + THUMB_SUFFIX@ + seq!['.'] + extension(n);
            &&& file_name(thumbnail_path(p)) == rest
            &&& dir_prefix(thumbnail_path(p)) == dir_prefix(p)
        }),
{
    let n = file_name(p);
    let st = stem(n);
    let e = extension(n);
    let t = THUMB_SUFFIX@;
    let rest = st + t + seq!['.'] + e;
    assert(thumbnail_path(p) == dir_prefix(p) + rest);
    lemma_thumb_suffix_chars();
    lemma_split_path(p);
    lemma_split_name(n);
    lemma_no_slash_in_thumbnail_name(n, st, t, e);
    lemma_rename(p, rest);
}

/// The stem and extension of the file name of a thumbnail.
proof fn lemma_thumbnail_name(n: Seq<char>)
    requires
        has_extension(n),
    ensures
        ({
            let rest = stem(n) + THUMB_SUFFIX@ + seq!['.'] + extension(n);
            &&& has_extension(rest)
            &&& stem(rest) == stem(n) + THUMB_SUFFIX@
            &&& extension(rest) == extension(n)
        }),
{
    lemma_split_name(n);
    lemma_rejoin_name(stem(n) + THUMB_SUFFIX@, extension(n));
}

/// Dropping the thumbnail mark from the thumbnail of a picture gives back the picture,
/// its directory part written as `Path::parent` gives it (so the picture itself, where
/// no '/' repeats before its file name).
pub proof fn lemma_original_of_thumbnail(p: Seq<char>)
    requires
        !names_thumbnail(p),
        has_extension(file_name(p)),
    ensures
        original_path(thumbnail_path(p)) == dir_prefix(p) + file_name(p),
        dir_prefix(p) == p.subrange(0, slash_index(p) + 1) ==> original_path(thumbnail_path(p))
            == p,
{
    lemma_split_path(p);
    let n = file_name(p);
    lemma_picture_parts(p);
    lemma_thumbnail_is_thumbnail(p);
    lemma_thumbnail_split(p);
    lemma_thumbnail_name(n);
    lemma_strip_mark(stem(n), THUMB_SUFFIX@);
}

/// The thumbnail of a thumbnail is itself.
pub proof fn lemma_thumbnail_idempotent(p: Seq<char>)
    requires
        thumbnail_defined(p),
    ensures
        thumbnail_path(thumbnail_path(p)) == thumbnail_path(p),
{
    lemma_thumbnail_is_thumbnail(p);
}

/// A picture and its thumbnail share one data file.
pub proof fn lemma_thumbnail_shares_image_data(p: Seq<char>)
    requires
        !names_thumbnail(p),
        has_extension(file_name(p)),
    ensures
        image_data_path(thumbnail_path(p)) == image_data_path(p),
{
    lemma_original_of_thumbnail(p);
    lemma_split_path(p);
    lemma_rename(p, file_name(p));
}

}

verus! {

/// A file name joined to a directory keeps its name.
pub proof fn lemma_joined_file_name(dir: Seq<char>, name: Seq<char>)
    requires
        name.len() > 0,
        forall|i: int| 0 <= i < name.len() ==> name[i] != '/',
    ensures
        file_name(joined(dir, name)) == name,
{
    lemma_last_index_of_absent(name, '/');
    let j = joined(dir, name);
    if dir.len() == 0 {
        assert(j == name);
        assert(j.subrange(0, j.len() as int) == name);
    } else {
        let head = if dir.last() == '/' {
            dir
        } else {
            dir + seq!['/']
        };
        assert(j == head + name);
        assert(head.last() == '/');
        lemma_last_index_of_concat(head, name, '/');
        assert(last_index_of(head, '/') == head.len() - 1) by {
            assert(head.drop_last() + seq![head.last()] == head);
        }
        assert(j.subrange(head.len() as int, j.len() as int) == name);
    }
}

/// A file copied into a directory keeps its file name there.
pub proof fn lemma_copy_keeps_name(file: Seq<char>, dir: Seq<char>)
    requires
        file_name(file).len() > 0,
    ensures
        file_name(joined(dir, file_name(file))) == file_name(file),
{
    lemma_split_path(file);
    lemma_joined_file_name(dir, file_name(file));
}

}

verus! {

/// Whether no '/' of a path follows another.
pub open spec fn no_repeated_separator(p: Seq<char>) -> bool {
    forall|i: int| 0 < i < p.len() ==> !(p[i - 1] == '/' && #[trigger] p[i] == '/')
}

/// A picture's thumbnail and back: a path with no thumbnail mark, whose file name has a
/// stem and an extension and where no '/' repeats, is its own picture; its thumbnail
/// names a thumbnail, the picture of that thumbnail is the path again, and both have the
/// same picture file name.
pub proof fn lemma_thumbnail_round_trip(p: Seq<char>)
    requires
        !names_thumbnail(p),
        has_extension(file_name(p)),
        no_repeated_separator(p),
    ensures
        original_path(p) == p,
        names_thumbnail(thumbnail_path(p)),
        original_path(thumbnail_path(p)) == p,
        file_name(original_path(thumbnail_path(p))) == file_name(original_path(p)),
{
    let si = slash_index(p);
    lemma_last_index_of(p, '/');
    if si >= 0 {
        let raw = p.subrange(0, si);
        if si > 0 {
            assert(p[si] == '/');
            assert(p[si - 1] != '/');
            assert(raw.last() == p[si - 1]);
            assert(trim_slashes(raw) == raw);
            assert(p.subrange(0, si + 1) =~= raw.push('/'));
        } else {
            assert(raw.len() == 0);
            assert(p.subrange(0, 1) =~= seq!['/']);
        }
    }
    assert(dir_prefix(p) == p.subrange(0, si + 1));
    lemma_thumbnail_is_thumbnail(p);
    lemma_original_of_thumbnail(p);
}

}
