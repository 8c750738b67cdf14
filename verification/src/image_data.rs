use vstd::prelude::*;
use core::cmp::Ordering;
use crate::rank::Rank;
use crate::text::{chars_equal, chars_of, less_chars, seq_less};

verus! {

/// What is known of a picture beside its file: colour count, rank, selection, palette and
/// label.
#[derive(Clone, Debug, PartialEq)]
pub struct ImageData {
    pub colors: usize,
    pub rank: Rank,
    pub selected: bool,
    pub palette: [u32; 9],
    pub label: String,
}

/// The order of two character sequences.
pub open spec fn seq_order(a: Seq<char>, b: Seq<char>) -> Ordering {
    if a == b {
        Ordering::Equal
    } else if seq_less(a, b) {
        Ordering::Less
    } else {
        Ordering::Greater
    }
}

/// The order of labels: labelled pictures come first, by label; unlabelled ones are equal.
pub open spec fn label_order(a: Seq<char>, b: Seq<char>) -> Ordering {
    if a.len() > 0 {
        if b.len() > 0 {
            seq_order(a, b)
        } else {
            Ordering::Less
        }
    } else {
        if b.len() > 0 {
            Ordering::Greater
        } else {
            Ordering::Equal
        }
    }
}

/// The order of labels is antisymmetric: compared the other way round, a label that comes
/// first comes last, and equal labels stay equal.
pub proof fn lemma_label_order_antisymmetric(a: Seq<char>, b: Seq<char>)
    ensures
        label_order(a, b) == Ordering::Less <==> label_order(b, a) == Ordering::Greater,
        label_order(a, b) == Ordering::Equal <==> label_order(b, a) == Ordering::Equal,
{
    crate::text::lemma_seq_less_trichotomy(a, b);
}

/// The order of two strings.
pub fn order_of_strings(a: &str, b: &str) -> (r: Ordering)
    ensures
        r == seq_order(a@, b@),
{
    let x = chars_of(a);
    let y = chars_of(b);
    if chars_equal(x.as_slice(), y.as_slice()) {
        Ordering::Equal
    } else if less_chars(x.as_slice(), y.as_slice()) {
        Ordering::Less
    } else {
        Ordering::Greater
    }
}

impl ImageData {
    /// Data of a picture not yet ranked, selected or labelled.
    pub fn new(colors: usize, rank: Rank) -> (d: Self)
        ensures
            d.colors == colors,
            d.rank == rank,
            !d.selected,
            d.palette@ == Seq::new(9, |i: int| 0u32),
            d.label@ == Seq::<char>::empty(),
    {
        let d = ImageData {
            colors: colors,
            rank: rank,
            selected: false,
            palette: [0u32; 9],
            label: String::new(),
        };
        assert(d.palette@ =~= Seq::new(9, |i: int| 0u32));
        d
    }

    pub fn label(&self) -> (r: Option<String>)
        ensures
            self.label@.len() > 0 ==> (r matches Some(l) && l@ == self.label@),
            self.label@.len() == 0 ==> r is None,
    {
        if !self.label.as_str().is_empty() {
            Some(self.label.clone())
        } else {
            None
        }
    }

    pub fn cmp_label(&self, other: &ImageData) -> (r: Ordering)
        ensures
            r == label_order(self.label@, other.label@),
    {
        match self.label() {
            Some(a) => match other.label() {
                Some(b) => order_of_strings(a.as_str(), b.as_str()),
                None => Ordering::Less,
            },
            None => match other.label() {
                Some(_) => Ordering::Greater,
                None => Ordering::Equal,
            },
        }
    }
}

}
