use vstd::prelude::*;
use crate::image_data::ImageData;
use crate::paths::{
    self, directory_name, file_name, image_data_path, original_named, original_path,
    slash_index, thumbnail_defined, thumbnail_path,
};
use crate::rank::{stars, Rank};
use crate::text::{chars_of, push_chars, push_decimal, push_str, decimal, string_of};

verus! {

/// A picture of the list: its file, size, time of last change, data, and whether it is
/// to be deleted. The time counts nanoseconds from the Unix epoch, negative before it.
#[derive(PartialEq, Clone, Debug)]
pub struct Entry {
    pub file_path: String,
    pub file_size: u64,
    pub modified_time: i128,
    pub image_data: ImageData,
    pub delete: bool,
}

/// A list of pictures.
pub type EntryList = Vec<Entry>;

/// The title of a picture: name, selection mark, size, colours, stars and deletion mark.
pub open spec fn entry_title(e: Entry) -> Seq<char> {
    file_name(original_path(e.file_path@)) + " "@ + (if e.image_data.selected {
        "△"@
    } else {
        Seq::empty()
    }) + " ["@ + decimal(e.file_size as nat) + " "@ + decimal(e.image_data.colors as nat)
        + " "@ + stars(e.image_data.rank) + "]"@ + (if e.delete {
        " 🗑"@
    } else {
        Seq::empty()
    })
}

/// The label under a picture: focus mark, stars, selection mark, label and deletion mark.
pub open spec fn entry_label(e: Entry, has_focus: bool) -> Seq<char> {
    (if has_focus {
        "▄"@
    } else {
        Seq::empty()
    }) + stars(e.image_data.rank) + (if e.image_data.selected {
        "△"@
    } else {
        Seq::empty()
    }) + e.image_data.label@ + (if e.delete {
        "🗑"@
    } else {
        Seq::empty()
    })
}

/// The entry with its selection set to `value`.
pub open spec fn entry_with_selected(e: Entry, value: bool) -> Entry {
    Entry { image_data: ImageData { selected: value, ..e.image_data }, ..e }
}

/// The entry with its rank set to `rank`.
pub open spec fn entry_with_rank(e: Entry, rank: Rank) -> Entry {
    Entry { image_data: ImageData { rank: rank, ..e.image_data }, ..e }
}

/// `b` is `a` with label `label`: no other field differs.
pub open spec fn relabelled(a: Entry, b: Entry, label: Seq<char>) -> bool {
    &&& b.image_data.label@ == label
    &&& b.file_path == a.file_path
    &&& b.file_size == a.file_size
    &&& b.modified_time == a.modified_time
    &&& b.delete == a.delete
    &&& b.image_data.colors == a.image_data.colors
    &&& b.image_data.rank == a.image_data.rank
    &&& b.image_data.selected == a.image_data.selected
    &&& b.image_data.palette == a.image_data.palette
}

pub fn make_entry(
    file_path: String,
    file_size: u64,
    colors: usize,
    modified_time: i128,
    initial_rank: Rank,
) -> (e: Entry)
    ensures
        e.file_path@ == file_path@,
        e.file_size == file_size,
        e.modified_time == modified_time,
        e.image_data.colors == colors,
        e.image_data.rank == initial_rank,
        !e.image_data.selected,
        e.image_data.palette@ == Seq::new(9, |i: int| 0u32),
        e.image_data.label@ == Seq::<char>::empty(),
        !e.delete,
{
    Entry {
        file_path: file_path,
        file_size: file_size,
        image_data: ImageData::new(colors, initial_rank),
        modified_time: modified_time,
        delete: false,
    }
}

impl Entry {
    pub fn title_display(self) -> (s: String)
        requires
            original_named(self.file_path@),
        ensures
            s@ == entry_title(self),
    {
        self.title_text()
    }

    /// The title of the picture, read in place.
    pub(crate) fn title_text(&self) -> (s: String)
        requires
            original_named(self.file_path@),
        ensures
            s@ == entry_title(*self),
    {
        let mut v = chars_of(self.original_file_name().as_str());
        push_str(&mut v, " ");
        if self.image_data.selected {
            push_str(&mut v, "△");
        }
        push_str(&mut v, " [");
        push_decimal(&mut v, self.file_size);
        push_str(&mut v, " ");
        push_decimal(&mut v, self.image_data.colors as u64);
        push_str(&mut v, " ");
        push_str(&mut v, self.image_data.rank.show().as_str());
        push_str(&mut v, "]");
        if self.delete {
            push_str(&mut v, " 🗑");
        }
        string_of(v.as_slice())
    }

    pub fn label_display(&self, has_focus: bool) -> (s: String)
        ensures
            s@ == entry_label(*self, has_focus),
    {
        let mut v: Vec<char> = Vec::new();
        if has_focus {
            push_str(&mut v, "▄");
        }
        push_str(&mut v, self.image_data.rank.show().as_str());
        if self.image_data.selected {
            push_str(&mut v, "△");
        }
        push_str(&mut v, self.image_data.label.as_str());
        if self.delete {
            push_str(&mut v, "🗑");
        }
        string_of(v.as_slice())
    }

    /// Records as label the first `label_length` characters of an edit buffer of sixteen.
    pub fn record_label(&mut self, label_length: usize, label: &[char; 16])
        ensures
            relabelled(
                *old(self),
                *final(self),
                label@.take(
                    if label_length < 16 {
                        label_length as int
                    } else {
                        16
                    },
                ),
            ),
    {
        let n: usize = if label_length < 16 {
            label_length
        } else {
            16
        };
        let mut chars: Vec<char> = Vec::new();
        let mut i: usize = 0;
        while i < n
            invariant
                i <= n <= 16,
                chars@ == label@.take(i as int),
            decreases n - i,
        {
            chars.push(label[i]);
            i = i + 1;
            assert(chars@ == label@.take(i as int));
        }
        self.image_data.label = string_of(chars.as_slice());
    }

    /// Replaces the label.
    pub fn set_label(&mut self, label: &str)
        ensures
            relabelled(*old(self), *final(self), label@),
    {
        let chars = chars_of(label);
        self.image_data.label = string_of(chars.as_slice());
    }

    /// Replaces the rank.
    pub fn set_rank(&mut self, rank: Rank)
        ensures
            *final(self) == entry_with_rank(*old(self), rank),
    {
        self.image_data.rank = rank;
    }

    pub fn toggle_select(&mut self)
        ensures
            *final(self) == entry_with_selected(*old(self), !old(self).image_data.selected),
    {
        self.image_data.selected = !self.image_data.selected
    }

    pub fn set_select(&mut self, value: bool)
        ensures
            *final(self) == entry_with_selected(*old(self), value),
    {
        self.image_data.selected = value
    }

    pub fn is_selected(&self) -> (r: bool)
        ensures
            r == self.image_data.selected,
    {
        self.image_data.selected
    }

    pub fn thumbnail_file_path(&self) -> (r: String)
        requires
            thumbnail_defined(self.file_path@),
        ensures
            r@ == thumbnail_path(self.file_path@),
    {
        paths::thumbnail_file_path(self.file_path.as_str())
    }

    pub fn original_file_path(&self) -> (r: String)
        requires
            paths::original_defined(self.file_path@),
        ensures
            r@ == original_path(self.file_path@),
    {
        paths::original_file_path(self.file_path.as_str())
    }

    pub fn original_file_name(&self) -> (r: String)
        requires
            original_named(self.file_path@),
        ensures
            r@ == file_name(original_path(self.file_path@)),
    {
        paths::original_file_name(self.file_path.as_str())
    }

    pub fn image_data_file_path(&self) -> (r: String)
        requires
            original_named(self.file_path@),
        ensures
            r@ == image_data_path(self.file_path@),
    {
        paths::image_data_file_path(self.file_path.as_str())
    }

    /// The name of the directory that holds the picture.
    pub fn directory(&self) -> (r: String)
        requires
            slash_index(self.file_path@) >= 0,
        ensures
            r@ == directory_name(self.file_path@),
    {
        paths::directory(self.file_path.as_str())
    }
}

/// Toggling the selection twice leaves an entry as it was.
pub proof fn lemma_toggle_select_twice(e: Entry)
    ensures
        entry_with_selected(
            entry_with_selected(e, !e.image_data.selected),
            !!e.image_data.selected,
        ) == e,
{
}

}
