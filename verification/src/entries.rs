//! A browsing state over a list of pictures: where one is in it, the areas being selected
//! or ranked, the index being typed, and the order.
use vstd::prelude::*;
use crate::entry::{Entry, EntryList, entry_with_rank, entry_with_selected};
use crate::navigator::{Navigator, next_page_start, prev_page_start};
use crate::order::Order;
use crate::rank::Rank;
use crate::repository::{
    all_defined, lemma_first_with_path, lemma_member_of_permutation, ranked_in, selected_in,
};
use crate::entry::entry_title;
use crate::external::shuffle;
use crate::order::order_name;
use crate::paths::{original_defined, original_named, original_path};
use crate::rank::rank_index;
use crate::sorting::{encode, entry_key, lists, order_key, push_encoded, sort_with_keys, sorted_by_keys, key_views};
use crate::text::{chars_equal, chars_of, decimal, push_decimal, push_str, string_of};
use crate::image_data::ImageData;
use crate::paths::{self, file_name, image_data_path, thumbnail_defined, thumbnail_path, thumbnail_file_path};
use crate::picture_io::{copy_destination, copy_to, pair_views, reading_lines, string_views, text_lines};

verus! {

/// A list of pictures and the state of browsing it.
pub struct Entries {
    pub entry_list: EntryList,
    pub navigator: Navigator,
    /// Start of an area being selected.
    pub start_index: Option<usize>,
    /// Start of an area being ranked.
    pub star3_index: Option<usize>,
    pub real_size: bool,
    /// Index being typed.
    pub register: Option<usize>,
    pub order: Option<Order>,
    pub star_select: Option<Rank>,
}

impl Entries {
    /// The invariant: the navigator covers the list.
    pub open spec fn wf(&self) -> bool {
        &&& self.navigator.wf()
        &&& self.navigator.cap() == self.entry_list.len()
    }

    /// Index of the current picture.
    pub open spec fn current(&self) -> int {
        self.navigator.current()
    }

    /// A list to browse from its first picture, `grid_size` pictures per row.
    pub fn new(entry_list: Vec<Entry>, grid_size: usize) -> (r: Self)
        requires
            entry_list.len() <= i32::MAX,
            grid_size * grid_size <= i32::MAX,
        ensures
            r.wf(),
            r.entry_list@ == entry_list@,
            r.navigator.cpr() == grid_size,
            r.navigator.start() == 0,
            r.navigator.pos() == (0i32, 0i32),
            r.start_index is None,
            r.star3_index is None,
            !r.real_size,
            r.register is None,
            r.order == Some(Order::Random),
            r.star_select == Some(Rank::NoStar),
    {
        assert(grid_size <= i32::MAX) by (nonlinear_arith)
            requires
                grid_size * grid_size <= i32::MAX,
        ;
        let n = entry_list.len() as i32;
        Entries {
            entry_list: entry_list,
            navigator: Navigator::new(n, grid_size as i32),
            start_index: None,
            star3_index: None,
            real_size: false,
            register: None,
            order: Some(Order::Random),
            star_select: Some(Rank::NoStar),
        }
    }

    /// The picture shown at a cell of the page, if any.
    pub fn at(&self, col: i32, row: i32) -> (r: Option<&Entry>)
        requires
            self.wf(),
        ensures
            r == match self.navigator.index_at((col, row)) {
                Some(i) => Some(&self.entry_list@[i]),
                None => None,
            },
    {
        match self.navigator.index_from_position((col, row)) {
            Some(index) => Some(&self.entry_list[index]),
            None => None,
        }
    }

    /// The number of pictures.
    pub fn len(&self) -> (r: usize)
        requires
            self.wf(),
        ensures
            r == self.entry_list.len(),
    {
        self.navigator.capacity()
    }

    /// Turns the next page; the index being typed is dropped.
    pub fn next(&mut self)
        requires
            old(self).wf(),
        ensures
            final(self).wf(),
            final(self).entry_list == old(self).entry_list,
            final(self).register is None,
            final(self).navigator.start() == next_page_start(
                old(self).navigator.cap(),
                old(self).navigator.max(),
                old(self).navigator.start(),
            ),
            final(self).navigator.pos() == (0i32, 0i32),
            final(self).navigator.cpr() == old(self).navigator.cpr(),
    {
        self.register = None;
        self.navigator.move_next_page()
    }

    /// Turns the previous page; the index being typed is dropped.
    pub fn prev(&mut self)
        requires
            old(self).wf(),
            old(self).navigator.start() > 0 || old(self).navigator.max() > 0,
        ensures
            final(self).wf(),
            final(self).entry_list == old(self).entry_list,
            final(self).register is None,
            final(self).navigator.start() == prev_page_start(
                old(self).navigator.cap(),
                old(self).navigator.max(),
                old(self).navigator.start(),
            ),
            final(self).navigator.pos() == (0i32, 0i32),
            final(self).navigator.cpr() == old(self).navigator.cpr(),
    {
        self.register = None;
        self.navigator.move_prev_page()
    }

    /// Jumps to the picture at `position`; the index being typed is dropped.
    pub fn jump(&mut self, position: usize)
        requires
            old(self).wf(),
            position < old(self).entry_list.len(),
            old(self).navigator.cpr() > 0,
        ensures
            final(self).wf(),
            *final(self) == (Entries {
                navigator: final(self).navigator,
                register: None,
                ..*old(self)
            }),
            final(self).current() == position,
            final(self).navigator.cpr() == old(self).navigator.cpr(),
    {
        self.register = None;
        self.navigator.move_to_index(position)
    }

    /// Types a digit of the index to jump to: the first digit starts it; a digit that would
    /// pass the last picture is refused.
    pub fn add_digit_to_register(&mut self, digit: usize)
        requires
            old(self).register matches Some(r) ==> r * 10 + digit <= usize::MAX,
            old(self).wf(),
        ensures
            final(self).register == match old(self).register {
                Some(r) => if r * 10 + digit < old(self).entry_list.len() {
                    Some((r * 10 + digit) as usize)
                } else {
                    Some(r)
                },
                None => Some(digit),
            },
            *final(self) == (Entries { register: final(self).register, ..*old(self) }),
    {
        self.register = match self.register {
            Some(r) => {
                let new = r * 10 + digit;
                if new < self.navigator.capacity() {
                    Some(new)
                } else {
                    Some(r)
                }
            },
            None => Some(digit),
        }
    }

    /// Removes the last digit typed; removing from 0 stops typing.
    pub fn remove_digit_to_register(&mut self)
        ensures
            final(self).register == match old(self).register {
                Some(n) => if n > 0 {
                    Some((n / 10) as usize)
                } else {
                    None
                },
                None => None,
            },
            *final(self) == (Entries { register: final(self).register, ..*old(self) }),
    {
        self.register = match self.register {
            Some(n) => if n > 0 {
                Some(n / 10)
            } else {
                None
            },
            None => None,
        }
    }

    /// Jumps to the index typed, if any.
    pub fn go_to_register(&mut self)
        requires
            old(self).wf(),
            old(self).register matches Some(r) ==> r < old(self).entry_list.len() && old(
                self,
            ).navigator.cpr() > 0,
        ensures
            final(self).wf(),
            old(self).register is None ==> *final(self) == *old(self),
            old(self).register matches Some(r) ==> final(self).current() == r && final(self).register is None
                && final(self).entry_list == old(self).entry_list,
    {
        match self.register {
            None => {},
            Some(r) => self.jump(r),
        }
    }

    /// Jumps to a picture drawn at random; the index being typed is dropped.
    pub fn jump_random(&mut self)
        requires
            old(self).wf(),
            old(self).entry_list.len() > 0,
            old(self).navigator.cpr() > 0,
        ensures
            final(self).wf(),
            final(self).entry_list == old(self).entry_list,
            final(self).register is None,
            0 <= final(self).current() < old(self).entry_list.len(),
    {
        self.register = None;
        self.navigator.move_to_random_index();
    }

    pub fn toggle_real_size(&mut self)
        ensures
            *final(self) == (Entries { real_size: !old(self).real_size, ..*old(self) }),
    {
        self.real_size = !self.real_size;
    }

    /// Toggles the selection of the current picture.
    pub fn toggle_select(&mut self)
        requires
            old(self).wf(),
            old(self).entry_list.len() > 0,
        ensures
            final(self).wf(),
            final(self).entry_list@ == old(self).entry_list@.update(
                old(self).current(),
                entry_with_selected(
                    old(self).entry_list@[old(self).current()],
                    !old(self).entry_list@[old(self).current()].image_data.selected,
                ),
            ),
            *final(self) == (Entries { entry_list: final(self).entry_list, ..*old(self) }),
    {
        let position = self.navigator.index();
        self.entry_list[position].toggle_select();
    }

    /// Sets the rank of the current picture.
    pub fn set_rank(&mut self, rank: Rank)
        requires
            old(self).wf(),
            old(self).entry_list.len() > 0,
        ensures
            final(self).wf(),
            final(self).entry_list@ == old(self).entry_list@.update(
                old(self).current(),
                entry_with_rank(old(self).entry_list@[old(self).current()], rank),
            ),
            *final(self) == (Entries { entry_list: final(self).entry_list, ..*old(self) }),
    {
        let position = self.navigator.index();
        self.entry_list[position].set_rank(rank);
    }
}


/// Sets the selection of the pictures from `lo` to before `hi`.
fn select_span(list: &mut EntryList, lo: usize, hi: usize, value: bool)
    requires
        lo <= hi <= old(list).len(),
    ensures
        selected_in(old(list)@, final(list)@, lo as int, hi as int, value),
{
    let ghost s = list@;
    let mut i: usize = lo;
    while i < hi
        invariant
            lo <= i <= hi <= s.len(),
            selected_in(s, list@, lo as int, i as int, value),
        decreases hi - i,
    {
        list[i].set_select(value);
        i = i + 1;
    }
}

/// Sets the rank of the pictures from `lo` to before `hi`.
fn rank_span(list: &mut EntryList, lo: usize, hi: usize, rank: Rank)
    requires
        lo <= hi <= old(list).len(),
    ensures
        ranked_in(old(list)@, final(list)@, lo as int, hi as int, rank),
{
    let ghost s = list@;
    let mut i: usize = lo;
    while i < hi
        invariant
            lo <= i <= hi <= s.len(),
            ranked_in(s, list@, lo as int, i as int, rank),
        decreases hi - i,
    {
        list[i].set_rank(rank);
        i = i + 1;
    }
}

/// The first index of the pictures of the current page.
pub open spec fn page_low(nav: Navigator) -> int {
    if nav.start() < 0 {
        0
    } else {
        nav.start()
    }
}

/// The index after the last picture of the current page.
pub open spec fn page_high(nav: Navigator) -> int {
    if nav.start() >= 0 && nav.start() + nav.max() < nav.cap() {
        nav.start() + nav.max()
    } else {
        nav.cap()
    }
}

impl Entries {
    /// Marks an area for selection: a first call on an unselected picture starts the area,
    /// a second one selects every picture between the two; nothing happens on a picture
    /// already selected.
    pub fn toggle_select_area(&mut self)
        requires
            old(self).wf(),
            old(self).entry_list.len() > 0,
            old(self).start_index matches Some(s) ==> s < old(self).entry_list.len(),
        ensures
            final(self).wf(),
            ({
                let cur = old(self).current();
                let s = old(self).entry_list@;
                &&& s[cur].image_data.selected ==> *final(self) == *old(self)
                &&& (!s[cur].image_data.selected && old(self).start_index is None) ==> *final(self)
                    == (Entries { start_index: Some(cur as usize), ..*old(self) })
                &&& !s[cur].image_data.selected ==> (old(self).start_index matches Some(st)
                    ==> final(self).start_index is None && selected_in(
                    s,
                    final(self).entry_list@,
                    if st <= cur { st as int } else { cur },
                    if st <= cur { cur + 1 } else { st + 1 },
                    true,
                ) && *final(self) == (Entries {
                    entry_list: final(self).entry_list,
                    start_index: None,
                    ..*old(self)
                }))
            }),
    {
        let position = self.navigator.index();
        if self.entry_list[position].image_data.selected {
            return;
        }
        match self.start_index {
            None => {
                self.start_index = Some(position);
            },
            Some(st) => {
                let (start, end) = if st <= position {
                    (st, position)
                } else {
                    (position, st)
                };
                select_span(&mut self.entry_list, start, end + 1, true);
                self.start_index = None;
            },
        }
    }

    /// Marks an area for ranking: a first call on a picture of another rank starts the
    /// area, a second one gives every picture between the two the rank; nothing happens on
    /// a picture of that rank already.
    pub fn toggle_rank_area(&mut self, rank: Rank)
        requires
            old(self).wf(),
            old(self).entry_list.len() > 0,
            old(self).star3_index matches Some(s) ==> s < old(self).entry_list.len(),
        ensures
            final(self).wf(),
            ({
                let cur = old(self).current();
                let s = old(self).entry_list@;
                &&& s[cur].image_data.rank == rank ==> *final(self) == *old(self)
                &&& (s[cur].image_data.rank != rank && old(self).star3_index is None) ==> *final(self)
                    == (Entries { star3_index: Some(cur as usize), ..*old(self) })
                &&& s[cur].image_data.rank != rank ==> (old(self).star3_index matches Some(st)
                    ==> final(self).star3_index is None && ranked_in(
                    s,
                    final(self).entry_list@,
                    if st <= cur { st as int } else { cur },
                    if st <= cur { cur + 1 } else { st + 1 },
                    rank,
                ) && *final(self) == (Entries {
                    entry_list: final(self).entry_list,
                    star3_index: None,
                    ..*old(self)
                }))
            }),
    {
        let position = self.navigator.index();
        if self.entry_list[position].image_data.rank == rank {
            return;
        }
        match self.star3_index {
            None => {
                self.star3_index = Some(position);
            },
            Some(st) => {
                let (start, end) = if st <= position {
                    (st, position)
                } else {
                    (position, st)
                };
                rank_span(&mut self.entry_list, start, end + 1, rank);
                self.star3_index = None;
            },
        }
    }

    fn page_span(&self) -> (r: (usize, usize))
        requires
            self.wf(),
        ensures
            r.0 == page_low(self.navigator),
            r.1 == page_high(self.navigator),
            r.0 <= r.1 <= self.entry_list.len(),
    {
        proof {
            crate::navigator::lemma_navigator_bounds(self.navigator);
            crate::navigator::lemma_page_size(self.navigator);
        }
        let start = self.navigator.page_start();
        let max = self.navigator.max_cells() as i64;
        let cap = self.navigator.capacity();
        let low: usize = if start < 0 {
            0
        } else {
            start as usize
        };
        let high: usize = if start >= 0 && (start as i64) + max < cap as i64 {
            ((start as i64) + max) as usize
        } else {
            cap
        };
        (low, high)
    }

    /// Selects every picture of the current page.
    pub fn set_grid_select(&mut self)
        requires
            old(self).wf(),
        ensures
            final(self).wf(),
            selected_in(
                old(self).entry_list@,
                final(self).entry_list@,
                page_low(old(self).navigator),
                page_high(old(self).navigator),
                true,
            ),
            *final(self) == (Entries { entry_list: final(self).entry_list, ..*old(self) }),
    {
        let (low, high) = self.page_span();
        select_span(&mut self.entry_list, low, high, true);
    }

    /// Unselects every picture of the current page.
    pub fn reset_grid_select(&mut self)
        requires
            old(self).wf(),
        ensures
            final(self).wf(),
            selected_in(
                old(self).entry_list@,
                final(self).entry_list@,
                page_low(old(self).navigator),
                page_high(old(self).navigator),
                false,
            ),
            *final(self) == (Entries { entry_list: final(self).entry_list, ..*old(self) }),
    {
        let (low, high) = self.page_span();
        select_span(&mut self.entry_list, low, high, false);
    }

    /// Takes the rank away from every picture of the current page.
    pub fn unset_grid_ranks(&mut self)
        requires
            old(self).wf(),
        ensures
            final(self).wf(),
            ranked_in(
                old(self).entry_list@,
                final(self).entry_list@,
                page_low(old(self).navigator),
                page_high(old(self).navigator),
                Rank::NoStar,
            ),
            *final(self) == (Entries { entry_list: final(self).entry_list, ..*old(self) }),
    {
        let (low, high) = self.page_span();
        rank_span(&mut self.entry_list, low, high, Rank::NoStar);
    }

    /// Unselects every picture.
    pub fn reset_all_select(&mut self)
        requires
            old(self).wf(),
        ensures
            final(self).wf(),
            selected_in(old(self).entry_list@, final(self).entry_list@, 0, old(self).entry_list.len() as int, false),
            *final(self) == (Entries { entry_list: final(self).entry_list, ..*old(self) }),
    {
        let n = self.navigator.capacity();
        select_span(&mut self.entry_list, 0, n, false);
    }

    /// Selects every picture of rank `rank`.
    pub fn select_with_rank(&mut self, rank: Rank)
        ensures
            final(self).entry_list.len() == old(self).entry_list.len(),
            forall|k: int|
                0 <= k < old(self).entry_list.len() ==> #[trigger] final(self).entry_list@[k] == if old(
                    self,
                ).entry_list@[k].image_data.rank == rank {
                    entry_with_selected(old(self).entry_list@[k], true)
                } else {
                    old(self).entry_list@[k]
                },
            *final(self) == (Entries {
                entry_list: final(self).entry_list,
                star_select: Some(Rank::NoStar),
                ..*old(self)
            }),
    {
        let ghost s = self.entry_list@;
        let mut i: usize = 0;
        while i < self.entry_list.len()
            invariant
                i <= self.entry_list.len() == s.len(),
                forall|k: int|
                    0 <= k < s.len() ==> #[trigger] self.entry_list@[k] == if k < i && s[k].image_data.rank == rank {
                        entry_with_selected(s[k], true)
                    } else {
                        s[k]
                    },
                *self == (Entries { entry_list: self.entry_list, ..*old(self) }),
            decreases s.len() - i,
        {
            if self.entry_list[i].image_data.rank == rank {
                self.entry_list[i].set_select(true);
            }
            i = i + 1;
        }
        self.star_select = Some(Rank::NoStar);
    }
}

}

verus! {

/// The pictures of the current page, from `page_low` to before `page_high`, are those that
/// the cells of the grid show.
pub proof fn lemma_page_cells(nav: Navigator, i: int)
    requires
        nav.wf(),
        nav.cpr() > 0,
    ensures
        (page_low(nav) <= i < page_high(nav)) <==> (exists|c: i32, r: i32|
            0 <= c < nav.cpr() && 0 <= r < nav.cpr() && #[trigger] nav.index_at((c, r)) == Some(i)),
{
    crate::navigator::lemma_page_size(nav);
    crate::navigator::lemma_navigator_bounds(nav);
    let cpr = nav.cpr();
    let max = nav.max();
    if page_low(nav) <= i < page_high(nav) {
        let rel = i - nav.start();
        assert(0 <= rel < max);
        assert(0 <= rel % cpr < cpr && 0 <= rel / cpr < cpr && rel % cpr + (rel / cpr) * cpr == rel)
            by (nonlinear_arith)
            requires
                0 <= rel < max,
                max == cpr * cpr,
                cpr > 0,
        ;
        let c = (rel % cpr) as i32;
        let r = (rel / cpr) as i32;
        assert(nav.index_at((c, r)) == Some(i));
    }
    if exists|c: i32, r: i32|
        0 <= c < nav.cpr() && 0 <= r < nav.cpr() && #[trigger] nav.index_at((c, r)) == Some(i) {
        let (c, r) = choose|c: i32, r: i32|
            0 <= c < nav.cpr() && 0 <= r < nav.cpr() && #[trigger] nav.index_at((c, r)) == Some(i);
        let ci = c as int;
        let ri = r as int;
        assert(0 <= ci + ri * cpr < max) by (nonlinear_arith)
            requires
                0 <= ci < cpr,
                0 <= ri < cpr,
                max == cpr * cpr,
        ;
    }
}

}

verus! {

/// The key by which this list ranks a picture in an order: colour count; time of change;
/// path as given; file size; rank (three stars first) then path as given. The palette and
/// label orders rank as `order_key` does.
pub open spec fn list_key(e: Entry, o: Order) -> Seq<i128> {
    match o {
        Order::Colors => seq![e.image_data.colors as i128],
        Order::Date => seq![e.modified_time],
        Order::Name => encode(e.file_path@),
        Order::Size => seq![e.file_size as i128],
        Order::Value => seq![rank_index(e.image_data.rank) as i128] + encode(e.file_path@),
        _ => order_key(e, o),
    }
}

/// The keys of a list of pictures in an order.
pub open spec fn list_keys(s: Seq<Entry>, o: Order) -> Seq<Seq<i128>> {
    Seq::new(s.len(), |i: int| list_key(s[i], o))
}

fn list_key_of(e: &Entry, o: Order) -> (k: Vec<i128>)
    requires
        o == Order::Label ==> original_defined(e.file_path@),
    ensures
        k@ == list_key(*e, o),
{
    let mut k: Vec<i128> = Vec::new();
    match o {
        Order::Colors => k.push(e.image_data.colors as i128),
        Order::Date => k.push(e.modified_time),
        Order::Name => push_encoded(&mut k, chars_of(e.file_path.as_str()).as_slice()),
        Order::Size => k.push(e.file_size as i128),
        Order::Value => {
            k.push(e.image_data.rank.index() as i128);
            push_encoded(&mut k, chars_of(e.file_path.as_str()).as_slice());
        },
        _ => {
            return entry_key(e, o);
        },
    }
    assert(k@ =~= list_key(*e, o));
    k
}

/// A picture with the same fields as another.
pub open spec fn same_entry(a: Entry, b: Entry) -> bool {
    &&& a.file_path@ == b.file_path@
    &&& a.file_size == b.file_size
    &&& a.modified_time == b.modified_time
    &&& a.delete == b.delete
    &&& a.image_data.colors == b.image_data.colors
    &&& a.image_data.rank == b.image_data.rank
    &&& a.image_data.selected == b.image_data.selected
    &&& a.image_data.palette == b.image_data.palette
    &&& a.image_data.label@ == b.image_data.label@
}

/// The status line: range mark, order, place in the list, title of the current picture,
/// index being typed, real size mark.
pub open spec fn entries_status(e: Entries) -> Seq<char> {
    (if e.star_select is None {
        "…"@
    } else {
        Seq::empty()
    }) + " ordered by "@ + (match e.order {
        Some(o) => order_name(o),
        None => "??"@,
    }) + " "@ + decimal(e.current() as nat) + "/"@ + decimal((e.entry_list.len() - 1) as nat) + "  "@
        + entry_title(e.entry_list@[e.current()]) + " "@ + (match e.register {
        Some(r) => decimal(r as nat),
        None => Seq::empty(),
    }) + " "@ + (if e.real_size {
        "*"@
    } else {
        Seq::empty()
    })
}

impl Entries {
    /// Orders the pictures: shuffled, or sorted stably by `list_key`; the place in the list
    /// stays where it was.
    pub fn sort_by(&mut self, order: Order)
        requires
            old(self).wf(),
            order == Order::Label ==> all_defined(old(self).entry_list@),
        ensures
            final(self).wf(),
            order == Order::Random ==> final(self).entry_list@.to_multiset() == old(
                self,
            ).entry_list@.to_multiset(),
            order != Order::Random ==> exists|p: Seq<int>|
                sorted_by_keys(
                    old(self).entry_list@,
                    final(self).entry_list@,
                    list_keys(old(self).entry_list@, order),
                    p,
                ),
            *final(self) == (Entries {
                entry_list: final(self).entry_list,
                order: Some(order),
                ..*old(self)
            }),
    {
        let ghost s = self.entry_list@;
        if order == Order::Random {
            shuffle(&mut self.entry_list);
            proof {
                broadcast use vstd::seq_lib::group_to_multiset_ensures;
                assert(self.entry_list@.to_multiset().len() == s.to_multiset().len());
            }
        } else {
            let n = self.entry_list.len();
            let mut keys: Vec<Vec<i128>> = Vec::new();
            let mut i: usize = 0;
            while i < n
                invariant
                    i <= n == self.entry_list.len(),
                    self.entry_list@ == s,
                    order == Order::Label ==> all_defined(s),
                    keys.len() == i,
                    forall|j: int| 0 <= j < i ==> #[trigger] keys@[j]@ == list_key(s[j], order),
                decreases n - i,
            {
                keys.push(list_key_of(&self.entry_list[i], order));
                i = i + 1;
            }
            assert(key_views(keys@) =~= list_keys(s, order));
            sort_with_keys(&mut self.entry_list, &keys);
            proof {
                let p = choose|p: Seq<int>| sorted_by_keys(s, self.entry_list@, key_views(keys@), p);
            }
        }
        self.order = Some(order);
    }

    /// Jumps to the first picture whose path is `original_name`, if any.
    pub fn jump_to_name(&mut self, original_name: &str)
        requires
            old(self).wf(),
            all_defined(old(self).entry_list@),
            old(self).entry_list.len() > 0 ==> old(self).navigator.cpr() > 0,
        ensures
            final(self).wf(),
            *final(self) == (Entries {
                navigator: final(self).navigator,
                register: final(self).register,
                ..*old(self)
            }),
            jumped_to_path(*old(self), *final(self), original_name@),
    {
        let target = chars_of(original_name);
        let n = self.entry_list.len();
        let mut i: usize = 0;
        while i < n
            invariant
                i <= n == self.entry_list.len(),
                *self == *old(self),
                target@ == original_name@,
                self.wf(),
                n > 0 ==> self.navigator.cpr() > 0,
                all_defined(self.entry_list@),
                forall|j: int|
                    0 <= j < i ==> original_path(self.entry_list@[j].file_path@) != original_name@,
            decreases n - i,
        {
            let path = self.entry_list[i].original_file_path();
            if chars_equal(chars_of(path.as_str()).as_slice(), target.as_slice()) {
                self.jump(i);
                return;
            }
            i = i + 1;
        }
    }

    /// Orders the pictures and stays on the current one.
    pub fn reorder(&mut self, order: Order)
        requires
            old(self).wf(),
            old(self).entry_list.len() > 0,
            old(self).navigator.cpr() > 0,
            all_defined(old(self).entry_list@),
        ensures
            final(self).wf(),
            final(self).order == Some(order),
            original_path(final(self).entry_list@[final(self).current()].file_path@) == original_path(
                old(self).entry_list@[old(self).current()].file_path@,
            ),
            order == Order::Random ==> final(self).entry_list@.to_multiset() == old(
                self,
            ).entry_list@.to_multiset(),
            order != Order::Random ==> exists|p: Seq<int>|
                sorted_by_keys(
                    old(self).entry_list@,
                    final(self).entry_list@,
                    list_keys(old(self).entry_list@, order),
                    p,
                ),
    {
        let index = self.navigator.index();
        let name = self.entry_list[index].original_file_path();
        let ghost s = self.entry_list@;
        self.sort_by(order);
        let ghost t = self.entry_list@;
        let ghost witness = lemma_rearranged_member(s, t, order, index as int);
        let ghost sorted = *self;
        self.jump_to_name(name.as_str());
        proof {
            lemma_jump_lands(sorted, *self, name@, witness);
        }
    }

    /// Keeps the pictures from index `from` (or the first) to index `to` (or the last), each
    /// bound to the last picture, and starts again from the first of them.
    pub fn slice(&mut self, from: Option<usize>, to: Option<usize>)
        requires
            old(self).wf(),
            (from is Some || to is Some) ==> old(self).entry_list.len() > 0,
            ({
                let last = old(self).entry_list.len() - 1;
                let start = match from {
                    Some(n) => if n < last { n as int } else { last },
                    None => 0,
                };
                let end = match to {
                    Some(n) => if n < last { n + 1 } else { last + 1 },
                    None => old(self).entry_list.len() as int,
                };
                start <= end
            }),
        ensures
            final(self).wf(),
            ({
                let last = old(self).entry_list.len() - 1;
                let start = match from {
                    Some(n) => if n < last { n as int } else { last },
                    None => 0,
                };
                let end = match to {
                    Some(n) => if n < last { n + 1 } else { last + 1 },
                    None => old(self).entry_list.len() as int,
                };
                &&& final(self).entry_list@ == old(self).entry_list@.subrange(start, end)
                &&& final(self).navigator.cpr() == old(self).navigator.cpr()
                &&& final(self).navigator.start() == 0
                &&& final(self).navigator.pos() == (0i32, 0i32)
                &&& *final(self) == (Entries {
                    entry_list: final(self).entry_list,
                    navigator: final(self).navigator,
                    ..*old(self)
                })
            }),
    {
        let cap = self.navigator.capacity();
        let start_index = match from {
            Some(n) => if n < cap - 1 {
                n
            } else {
                cap - 1
            },
            None => 0,
        };
        let end_index = match to {
            Some(n) => if n < cap - 1 {
                n + 1
            } else {
                cap
            },
            None => cap,
        };
        self.entry_list.truncate(end_index);
        let kept = self.entry_list.split_off(start_index);
        self.entry_list = kept;
        proof {
            crate::navigator::lemma_page_size(self.navigator);
            crate::navigator::lemma_navigator_bounds(self.navigator);
        }
        self.navigator = Navigator::new(self.entry_list.len() as i32, self.navigator.cells_per_row());
    }
}


}

verus! {

/// `b` is `a` after a jump to the first picture whose path is `name`, if there is one.
pub open spec fn jumped_to_path(a: Entries, b: Entries, name: Seq<char>) -> bool {
    &&& (forall|i: int|
        0 <= i < a.entry_list.len() ==> original_path(a.entry_list@[i].file_path@) != name) ==> b == a
    &&& forall|i: int|
        0 <= i < a.entry_list.len() && original_path(a.entry_list@[i].file_path@) == name && (forall|j: int|
            0 <= j < i ==> original_path(a.entry_list@[j].file_path@) != name) ==> b.current() == i
            && b.register is None
}

/// A jump to a path that a picture of the list has lands on a picture with that path.
proof fn lemma_jump_lands(a: Entries, b: Entries, name: Seq<char>, i: int)
    requires
        b.entry_list == a.entry_list,
        0 <= i < a.entry_list.len(),
        original_path(a.entry_list@[i].file_path@) == name,
        jumped_to_path(a, b, name),
    ensures
        original_path(b.entry_list@[b.current()].file_path@) == name,
{
    let k = lemma_first_with_path(a.entry_list@, name, i);
    assert(b.current() == k);
}

/// A picture of a list is still in it after the list is ordered: the index where it went.
proof fn lemma_rearranged_member(s: Seq<Entry>, t: Seq<Entry>, order: Order, i: int) -> (k: int)
    requires
        0 <= i < s.len(),
        order == Order::Random ==> t.to_multiset() == s.to_multiset(),
        order != Order::Random ==> exists|p: Seq<int>| sorted_by_keys(s, t, list_keys(s, order), p),
    ensures
        0 <= k < t.len(),
        t[k] == s[i],
        t.len() == s.len(),
        forall|j: int| 0 <= j < t.len() ==> exists|m: int| 0 <= m < s.len() && s[m] == #[trigger] t[j],
{
    if order == Order::Random {
        broadcast use vstd::seq_lib::group_to_multiset_ensures;
        assert(t.to_multiset().len() == s.to_multiset().len());
        assert(t.len() == s.len());
        assert forall|j: int| 0 <= j < t.len() implies exists|m: int| 0 <= m < s.len() && s[m] == #[trigger] t[j] by {
            lemma_member_of_permutation(s, t, j);
        }
        lemma_member_of_permutation(t, s, i);
        choose|j: int| 0 <= j < t.len() && t[j] == s[i]
    } else {
        let p = choose|p: Seq<int>| sorted_by_keys(s, t, list_keys(s, order), p);
        assert forall|j: int| 0 <= j < t.len() implies exists|m: int| 0 <= m < s.len() && s[m] == #[trigger] t[j] by {
            assert(t[j] == s[p[j]]);
        }
        assert(lists(p, i));
        choose|k: int| 0 <= k < p.len() && p[k] == i
    }
}

}

verus! {

/// The files that a selected picture's copy takes: its picture, the thumbnail of the
/// picture, and the data file of the picture.
pub open spec fn picture_files(e: Entry) -> Seq<Seq<char>> {
    let f = original_path(e.file_path@);
    seq![f, thumbnail_path(f), image_data_path(f)]
}

/// Whether the files that copying a picture takes are defined and have file names.
pub open spec fn picture_files_named(e: Entry) -> bool {
    let f = original_path(e.file_path@);
    &&& original_defined(e.file_path@)
    &&& original_named(f)
    &&& thumbnail_defined(f)
    &&& file_name(f).len() > 0
    &&& file_name(thumbnail_path(f)).len() > 0
    &&& file_name(image_data_path(f)).len() > 0
}

/// The copies that copying the selected pictures of a list into `dir` makes, three for
/// each, in order.
pub open spec fn selected_copies(s: Seq<Entry>, dir: Seq<char>) -> Seq<(Seq<char>, Seq<char>)>
    decreases s.len(),
{
    if s.len() == 0 {
        Seq::empty()
    } else {
        selected_copies(s.drop_last(), dir) + if s.last().image_data.selected {
            picture_files(s.last()).map_values(|f: Seq<char>| (f, copy_destination(f, dir)))
        } else {
            Seq::empty()
        }
    }
}

/// The paths that saving the selection lists: for each selected picture, its picture's
/// path when `thumbnails` holds, else its own path.
pub open spec fn marked_paths(s: Seq<Entry>, thumbnails: bool) -> Seq<Seq<char>>
    decreases s.len(),
{
    if s.len() == 0 {
        Seq::empty()
    } else {
        marked_paths(s.drop_last(), thumbnails) + if s.last().image_data.selected {
            seq![
                if thumbnails {
                    original_path(s.last().file_path@)
                } else {
                    s.last().file_path@
                },
            ]
        } else {
            Seq::empty()
        }
    }
}

/// Whether a line of a selection file names a picture: its path, or the thumbnail of the
/// path.
pub open spec fn names_picture(e: Entry, line: Seq<char>) -> bool {
    e.file_path@ == line || e.file_path@ == thumbnail_path(line)
}

/// The index of the first picture that a line names, or -1.
pub open spec fn first_named(s: Seq<Entry>, line: Seq<char>) -> int
    decreases s.len(),
{
    if s.len() == 0 {
        -1
    } else {
        let k = first_named(s.drop_last(), line);
        if k >= 0 {
            k
        } else if names_picture(s.last(), line) {
            s.len() - 1
        } else {
            -1
        }
    }
}

proof fn lemma_first_named(s: Seq<Entry>, line: Seq<char>)
    ensures
        -1 <= first_named(s, line) < s.len(),
        first_named(s, line) >= 0 ==> names_picture(s[first_named(s, line)], line),
        forall|j: int| 0 <= j < s.len() && (first_named(s, line) < 0 || j < first_named(s, line))
            ==> !names_picture(#[trigger] s[j], line),
    decreases s.len(),
{
    if s.len() > 0 {
        lemma_first_named(s.drop_last(), line);
        assert forall|j: int| 0 <= j < s.len() && (first_named(s, line) < 0 || j < first_named(s, line))
            implies !names_picture(#[trigger] s[j], line) by {
            if j < s.len() - 1 {
                assert(s.drop_last()[j] == s[j]);
            }
        }
    }
}

impl Entries {
    /// The status line of the window.
    pub fn status(&self) -> (r: String)
        requires
            self.wf(),
            self.entry_list.len() > 0,
            original_named(self.entry_list@[self.current()].file_path@),
        ensures
            r@ == entries_status(*self),
    {
        let index = self.navigator.index();
        let mut v: Vec<char> = Vec::new();
        if self.star_select.is_none() {
            push_str(&mut v, "…");
        }
        push_str(&mut v, " ordered by ");
        match self.order {
            Some(o) => push_str(&mut v, o.to_string().as_str()),
            None => push_str(&mut v, "??"),
        }
        push_str(&mut v, " ");
        push_decimal(&mut v, index as u64);
        push_str(&mut v, "/");
        push_decimal(&mut v, (self.navigator.capacity() - 1) as u64);
        push_str(&mut v, "  ");
        push_str(&mut v, self.entry_list[index].title_text().as_str());
        push_str(&mut v, " ");
        match self.register {
            Some(r) => push_decimal(&mut v, r as u64),
            None => {},
        }
        push_str(&mut v, " ");
        if self.real_size {
            push_str(&mut v, "*");
        }
        string_of(v.as_slice())
    }

    /// A copy of the current picture.
    pub fn entry(&self) -> (r: Entry)
        requires
            self.wf(),
            self.entry_list.len() > 0,
        ensures
            same_entry(r, self.entry_list@[self.current()]),
    {
        let e = &self.entry_list[self.navigator.index()];
        Entry {
            file_path: string_of(chars_of(e.file_path.as_str()).as_slice()),
            file_size: e.file_size,
            modified_time: e.modified_time,
            image_data: ImageData {
                colors: e.image_data.colors,
                rank: e.image_data.rank,
                selected: e.image_data.selected,
                palette: e.image_data.palette,
                label: string_of(chars_of(e.image_data.label.as_str()).as_slice()),
            },
            delete: e.delete,
        }
    }

    /// The paths that saving the selection lists: for each selected picture, in order, the
    /// path of its picture when `thumbnails` holds, else its own path.
    pub fn save_marked_file_lists(&self, thumbnails: bool) -> (r: Vec<String>)
        requires
            thumbnails ==> forall|i: int|
                0 <= i < self.entry_list.len() && (#[trigger] self.entry_list@[i]).image_data.selected
                    ==> original_defined(self.entry_list@[i].file_path@),
        ensures
            string_views(r@) == marked_paths(self.entry_list@, thumbnails),
    {
        let ghost s = self.entry_list@;
        let mut r: Vec<String> = Vec::new();
        let mut i: usize = 0;
        while i < self.entry_list.len()
            invariant
                i <= self.entry_list.len() == s.len(),
                self.entry_list@ == s,
                thumbnails ==> forall|i: int|
                    0 <= i < s.len() && (#[trigger] s[i]).image_data.selected ==> original_defined(
                        s[i].file_path@,
                    ),
                string_views(r@) == marked_paths(s.take(i as int), thumbnails),
            decreases s.len() - i,
        {
            assert(s.take(i + 1).drop_last() == s.take(i as int));
            let e = &self.entry_list[i];
            if e.image_data.selected {
                let path = if thumbnails {
                    e.original_file_path()
                } else {
                    string_of(chars_of(e.file_path.as_str()).as_slice())
                };
                let ghost before = r@;
                r.push(path);
                assert(string_views(r@) == string_views(before).push(path@));
            }
            i = i + 1;
        }
        assert(s.take(s.len() as int) == s);
        r
    }

    /// Selects the pictures that the lines of a selection file name: for each line, the
    /// first picture whose path is the line, or the thumbnail of the line.
    pub fn set_selected_images(&mut self, content: &str)
        requires
            forall|l: int|
                0 <= l < text_lines(content@).len() ==> old(self).entry_list.len() == 0 || old(
                    self,
                ).entry_list@[0].file_path@ == #[trigger] text_lines(content@)[l] || thumbnail_defined(
                    text_lines(content@)[l],
                ),
        ensures
            final(self).entry_list.len() == old(self).entry_list.len(),
            forall|k: int|
                0 <= k < old(self).entry_list.len() ==> #[trigger] final(self).entry_list@[k] == if exists|l: int|
                    0 <= l < text_lines(content@).len() && first_named(old(self).entry_list@, text_lines(content@)[l])
                        == k {
                    entry_with_selected(old(self).entry_list@[k], true)
                } else {
                    old(self).entry_list@[k]
                },
            *final(self) == (Entries { entry_list: final(self).entry_list, ..*old(self) }),
    {
        let ghost s = self.entry_list@;
        let ghost lines = text_lines(content@);
        let listed = reading_lines(content);
        let mut l: usize = 0;
        while l < listed.len()
            invariant
                l <= listed.len() == lines.len(),
                string_views(listed@) == lines,
                self.entry_list.len() == s.len(),
                forall|m: int| 0 <= m < s.len() ==> #[trigger] self.entry_list@[m].file_path == s[m].file_path,
                forall|l2: int|
                    0 <= l2 < lines.len() ==> s.len() == 0 || s[0].file_path@ == #[trigger] lines[l2]
                        || thumbnail_defined(lines[l2]),
                forall|k: int|
                    0 <= k < s.len() ==> #[trigger] self.entry_list@[k] == if exists|l2: int|
                        0 <= l2 < l && first_named(s, lines[l2]) == k {
                        entry_with_selected(s[k], true)
                    } else {
                        s[k]
                    },
                *self == (Entries { entry_list: self.entry_list, ..*old(self) }),
            decreases listed.len() - l,
        {
            let line = listed[l].as_str();
            assert(line@ == lines[l as int]);
            proof {
                lemma_first_named(s, line@);
            }
            let target = chars_of(line);
            let mut k: usize = 0;
            let n = self.entry_list.len();
            let mut found: Option<usize> = None;
            while found.is_none() && k < n
                invariant
                    k <= n == s.len() == self.entry_list.len(),
                    target@ == line@,
                    forall|m: int| 0 <= m < s.len() ==> #[trigger] self.entry_list@[m].file_path == s[m].file_path,
                    s.len() == 0 || s[0].file_path@ == line@ || thumbnail_defined(line@),
                    forall|j: int| 0 <= j < k ==> !names_picture(#[trigger] s[j], line@),
                    found matches Some(f) ==> f == k && k < n && names_picture(s[f as int], line@),
                decreases n - k + if found is None { 1int } else { 0int },
            {
                let path = chars_of(self.entry_list[k].file_path.as_str());
                let matched = if chars_equal(path.as_slice(), target.as_slice()) {
                    true
                } else {
                    assert(k > 0 || s[0].file_path@ != line@);
                    let thumbnail = thumbnail_file_path(line);
                    chars_equal(path.as_slice(), chars_of(thumbnail.as_str()).as_slice())
                };
                if matched {
                    found = Some(k);
                } else {
                    k = k + 1;
                }
            }
            let ghost before = self.entry_list@;
            match found {
                Some(f) => {
                    assert(first_named(s, line@) == f);
                    self.entry_list[f].set_select(true);
                },
                None => {
                    assert(first_named(s, line@) == -1);
                },
            }
            assert forall|m: int| 0 <= m < s.len() implies #[trigger] self.entry_list@[m] == if exists|l2: int|
                0 <= l2 < l + 1 && first_named(s, lines[l2]) == m {
                entry_with_selected(s[m], true)
            } else {
                s[m]
            } by {
                if exists|l2: int| 0 <= l2 < l && first_named(s, lines[l2]) == m {
                } else if first_named(s, lines[l as int]) == m {
                    assert(0 <= l < l + 1 && first_named(s, lines[l as int]) == m);
                } else {
                    assert(!exists|l2: int| 0 <= l2 < l + 1 && first_named(s, lines[l2]) == m) by {
                        assert forall|l2: int| 0 <= l2 < l + 1 implies first_named(s, lines[l2]) != m by {
                            if l2 < l {
                            }
                        }
                    }
                }
            }
            l = l + 1;
        }
    }

    /// The copies that copying the selected pictures into `target` makes: for each, in
    /// order, its picture, the thumbnail and the data file of the picture, each to its own
    /// name there.
    pub fn copy_selection(&self, target: &str) -> (r: Vec<(String, String)>)
        requires
            forall|i: int|
                0 <= i < self.entry_list.len() && (#[trigger] self.entry_list@[i]).image_data.selected
                    ==> picture_files_named(self.entry_list@[i]),
        ensures
            pair_views(r@) == selected_copies(self.entry_list@, target@),
    {
        let ghost s = self.entry_list@;
        let mut r: Vec<(String, String)> = Vec::new();
        let mut i: usize = 0;
        while i < self.entry_list.len()
            invariant
                i <= self.entry_list.len() == s.len(),
                self.entry_list@ == s,
                forall|i: int|
                    0 <= i < s.len() && (#[trigger] s[i]).image_data.selected ==> picture_files_named(s[i]),
                pair_views(r@) == selected_copies(s.take(i as int), target@),
            decreases s.len() - i,
        {
            assert(s.take(i + 1).drop_last() == s.take(i as int));
            let e = &self.entry_list[i];
            if e.image_data.selected {
                let f = paths::original_file_path(e.file_path.as_str());
                let t = paths::thumbnail_file_path(f.as_str());
                let d = paths::image_data_file_path(f.as_str());
                let ghost before = r@;
                let c0 = copy_to(f, target);
                let c1 = copy_to(t, target);
                let c2 = copy_to(d, target);
                r.push(c0);
                r.push(c1);
                r.push(c2);
                assert(pair_views(r@) == pair_views(before) + picture_files(s[i as int]).map_values(
                    |x: Seq<char>| (x, copy_destination(x, target@)),
                ));
            } else {
                assert(selected_copies(s.take(i + 1), target@) == selected_copies(s.take(i as int), target@)
                    + Seq::<(Seq<char>, Seq<char>)>::empty());
            }
            i = i + 1;
        }
        assert(s.take(s.len() as int) == s);
        r
    }
}

}

verus! {

/// A picture found on disk: its path, file size, time of change, colour count and rank.
pub struct FoundPicture {
    pub path: String,
    pub size: u64,
    pub modified: i128,
    pub colors: usize,
    pub rank: Rank,
}

/// A picture made, as `make_entry` makes it, from what was found of it.
pub open spec fn made_from(e: Entry, f: FoundPicture) -> bool {
    &&& e.file_path@ == f.path@
    &&& e.file_size == f.size
    &&& e.modified_time == f.modified
    &&& e.image_data.colors == f.colors
    &&& e.image_data.rank == f.rank
    &&& !e.image_data.selected
    &&& e.image_data.palette@ == Seq::new(9, |i: int| 0u32)
    &&& e.image_data.label@ == Seq::<char>::empty()
    &&& !e.delete
}

/// Pictures made one for one from what was found.
pub open spec fn made_from_all(s: Seq<Entry>, f: Seq<FoundPicture>) -> bool {
    s.len() == f.len() && forall|i: int| 0 <= i < s.len() ==> made_from(#[trigger] s[i], f[i])
}

/// `t` is `s` in an order: shuffled for random, else sorted stably by `list_key`.
pub open spec fn listed_as(s: Seq<Entry>, t: Seq<Entry>, order: Order) -> bool {
    if order == Order::Random {
        t.to_multiset() == s.to_multiset()
    } else {
        exists|p: Seq<int>| sorted_by_keys(s, t, list_keys(s, order), p)
    }
}

/// The first index that `slice` keeps of a list of `len` pictures.
pub open spec fn slice_low(len: int, from: Option<usize>) -> int {
    match from {
        Some(n) => if n < len - 1 { n as int } else { len - 1 },
        None => 0,
    }
}

/// The index after the last that `slice` keeps of a list of `len` pictures.
pub open spec fn slice_high(len: int, to: Option<usize>) -> int {
    match to {
        Some(n) => if n < len - 1 { n + 1 } else { len },
        None => len,
    }
}

/// What was found, without the pictures whose path an earlier one already has.
pub open spec fn first_found(f: Seq<FoundPicture>, n: int) -> Seq<FoundPicture>
    decreases n,
{
    if n <= 0 {
        Seq::empty()
    } else {
        let before = first_found(f, n - 1);
        if exists|j: int| 0 <= j < n - 1 && (#[trigger] f[j]).path@ == f[n - 1].path@ {
            before
        } else {
            before.push(f[n - 1])
        }
    }
}

fn make_found(f: &FoundPicture) -> (e: Entry)
    ensures
        made_from(e, *f),
{
    crate::entry::make_entry(
        string_of(chars_of(f.path.as_str()).as_slice()),
        f.size,
        f.colors,
        f.modified,
        f.rank,
    )
}

impl Entries {
    /// The pictures found under a directory (those that `directory_candidates` keeps, with
    /// what was read of each), in `order`, cut to the range of `from_index` and `to_index`
    /// as `slice` cuts it, browsed `grid_size` per row from the first.
    pub fn from_directory(
        found: Vec<FoundPicture>,
        from_index: Option<usize>,
        to_index: Option<usize>,
        order: Order,
        grid_size: usize,
    ) -> (r: Self)
        requires
            found.len() <= i32::MAX,
            grid_size * grid_size <= i32::MAX,
            order == Order::Label ==> forall|i: int|
                0 <= i < found.len() ==> original_defined(#[trigger] found@[i].path@),
            (from_index is Some || to_index is Some) ==> found.len() > 0,
            slice_low(found.len() as int, from_index) <= slice_high(found.len() as int, to_index),
        ensures
            r.wf(),
            exists|s: Seq<Entry>, t: Seq<Entry>|
                made_from_all(s, found@) && listed_as(s, t, order) && r.entry_list@ == t.subrange(
                    slice_low(found.len() as int, from_index),
                    slice_high(found.len() as int, to_index),
                ),
            r.navigator.cpr() == grid_size,
            r.navigator.start() == 0,
            r.navigator.pos() == (0i32, 0i32),
            r.order == Some(order),
            r.start_index is None,
            r.star3_index is None,
            !r.real_size,
            r.register is None,
            r.star_select == Some(Rank::NoStar),
    {
        let mut made: Vec<Entry> = Vec::new();
        let mut i: usize = 0;
        while i < found.len()
            invariant
                i <= found.len(),
                made.len() == i,
                forall|k: int| 0 <= k < i ==> made_from(#[trigger] made@[k], found@[k]),
            decreases found.len() - i,
        {
            made.push(make_found(&found[i]));
            i = i + 1;
        }
        let ghost s = made@;
        assert(made_from_all(s, found@));
        let mut result = Entries::new(made, grid_size);
        proof {
            if order == Order::Label {
                assert forall|k: int| 0 <= k < s.len() implies original_defined(
                    #[trigger] s[k].file_path@,
                ) by {
                    assert(made_from(s[k], found@[k]));
                }
            }
        }
        result.sort_by(order);
        let ghost t = result.entry_list@;
        assert(listed_as(s, t, order));
        proof {
            broadcast use vstd::seq_lib::group_to_multiset_ensures;
            if order == Order::Random {
                assert(t.to_multiset().len() == s.to_multiset().len());
            } else {
                let p = choose|p: Seq<int>| sorted_by_keys(s, t, list_keys(s, order), p);
                assert(t.len() == s.len());
            }
        }
        result.slice(from_index, to_index);
        result
    }

    /// The pictures that a reading list names (with what was read of each, in the list's
    /// order), each path kept once, at its first place, in `order`, browsed `grid_size` per
    /// row from the first.
    pub fn from_list(found: Vec<FoundPicture>, order: Order, grid_size: usize) -> (r: Self)
        requires
            found.len() <= i32::MAX,
            grid_size * grid_size <= i32::MAX,
            order == Order::Label ==> forall|i: int|
                0 <= i < found.len() ==> original_defined(#[trigger] found@[i].path@),
        ensures
            r.wf(),
            exists|s: Seq<Entry>, t: Seq<Entry>|
                made_from_all(s, first_found(found@, found.len() as int)) && listed_as(s, t, order)
                    && r.entry_list@ == t,
            r.navigator.cpr() == grid_size,
            r.navigator.start() == 0,
            r.navigator.pos() == (0i32, 0i32),
            r.order == Some(order),
            r.start_index is None,
            r.star3_index is None,
            !r.real_size,
            r.register is None,
            r.star_select == Some(Rank::NoStar),
    {
        let ghost f = found@;
        let mut made: Vec<Entry> = Vec::new();
        let mut i: usize = 0;
        while i < found.len()
            invariant
                i <= found.len(),
                f == found@,
                made_from_all(made@, first_found(f, i as int)),
                made.len() <= i,
                forall|k: int| 0 <= k < first_found(f, i as int).len() ==> exists|j: int|
                    0 <= j < i && (#[trigger] first_found(f, i as int)[k]) == f[j],
            decreases found.len() - i,
        {
            let name = chars_of(found[i].path.as_str());
            let mut seen = false;
            let mut j: usize = 0;
            while j < i
                invariant
                    j <= i < found.len(),
                    f == found@,
                    name@ == f[i as int].path@,
                    !seen <==> forall|k: int| 0 <= k < j ==> f[k].path@ != f[i as int].path@,
                decreases i - j,
            {
                if chars_equal(chars_of(found[j].path.as_str()).as_slice(), name.as_slice()) {
                    seen = true;
                }
                j = j + 1;
            }
            let ghost before = made@;
            proof {
                assert(seen <==> exists|k: int|
                    0 <= k < i && (#[trigger] f[k]).path@ == f[i as int].path@);
            }
            if !seen {
                made.push(make_found(&found[i]));
                assert(first_found(f, i + 1) == first_found(f, i as int).push(f[i as int]));
                assert(made_from_all(made@, first_found(f, i + 1)));
            }
            i = i + 1;
            proof {
                let ff = first_found(f, i as int);
                assert forall|k: int| 0 <= k < ff.len() implies exists|j: int|
                    0 <= j < i && (#[trigger] ff[k]) == f[j] by {
                    if k < first_found(f, i - 1).len() {
                        let j0 = choose|j0: int|
                            0 <= j0 < i - 1 && (#[trigger] first_found(f, i - 1)[k]) == f[j0];
                        assert(ff[k] == f[j0]);
                    } else {
                        assert(ff[k] == f[i - 1]);
                    }
                }
            }
        }
        let ghost s = made@;
        let ghost kept = first_found(f, f.len() as int);
        assert(made_from_all(s, kept));
        let mut result = Entries::new(made, grid_size);
        proof {
            if order == Order::Label {
                assert forall|k: int| 0 <= k < s.len() implies original_defined(
                    #[trigger] s[k].file_path@,
                ) by {
                    assert(made_from(s[k], kept[k]));
                    let j = choose|j: int| 0 <= j < f.len() && (#[trigger] kept[k]) == f[j];
                    assert(original_defined(f[j].path@));
                }
            }
        }
        result.sort_by(order);
        let ghost t = result.entry_list@;
        assert(listed_as(s, t, order));
        result
    }
}

}

verus! {

/// Each picture kept of a reading list is one of the first `n` found.
pub proof fn lemma_first_found_from(f: Seq<FoundPicture>, n: int)
    requires
        0 <= n <= f.len(),
    ensures
        forall|k: int|
            0 <= k < first_found(f, n).len() ==> exists|j: int|
                0 <= j < n && (#[trigger] first_found(f, n)[k]) == f[j],
    decreases n,
{
    if n > 0 {
        lemma_first_found_from(f, n - 1);
        let ff = first_found(f, n);
        assert forall|k: int| 0 <= k < ff.len() implies exists|j: int|
            0 <= j < n && (#[trigger] ff[k]) == f[j] by {
            if k < first_found(f, n - 1).len() {
                let j0 = choose|j0: int|
                    0 <= j0 < n - 1 && (#[trigger] first_found(f, n - 1)[k]) == f[j0];
                assert(ff[k] == f[j0]);
            } else {
                assert(ff[k] == f[n - 1]);
            }
        }
    }
}

/// A reading list keeps each path once: no two pictures kept have the same path, and each
/// path found is kept.
pub proof fn lemma_first_found_once(f: Seq<FoundPicture>, n: int)
    requires
        0 <= n <= f.len(),
    ensures
        forall|a: int, b: int|
            0 <= a < b < first_found(f, n).len() ==> (#[trigger] first_found(f, n)[a]).path@
                != (#[trigger] first_found(f, n)[b]).path@,
        forall|j: int|
            0 <= j < n ==> exists|k: int|
                0 <= k < first_found(f, n).len() && (#[trigger] first_found(f, n)[k]).path@
                    == (#[trigger] f[j]).path@,
    decreases n,
{
    if n > 0 {
        lemma_first_found_once(f, n - 1);
        lemma_first_found_from(f, n - 1);
        let prev = first_found(f, n - 1);
        let ff = first_found(f, n);
        let dup = exists|j: int| 0 <= j < n - 1 && (#[trigger] f[j]).path@ == f[n - 1].path@;
        assert forall|a: int, b: int| 0 <= a < b < ff.len() implies (#[trigger] ff[a]).path@
            != (#[trigger] ff[b]).path@ by {
            if b < prev.len() {
                assert(ff[a] == prev[a] && ff[b] == prev[b]);
            } else {
                assert(!dup);
                assert(ff[b] == f[n - 1]);
                assert(ff[a] == prev[a]);
                let j0 = choose|j0: int| 0 <= j0 < n - 1 && (#[trigger] prev[a]) == f[j0];
                assert(f[j0].path@ != f[n - 1].path@);
            }
        }
        assert forall|j: int| 0 <= j < n implies exists|k: int|
            0 <= k < ff.len() && (#[trigger] ff[k]).path@ == (#[trigger] f[j]).path@ by {
            if j < n - 1 {
                let k0 = choose|k0: int|
                    0 <= k0 < prev.len() && (#[trigger] prev[k0]).path@ == f[j].path@;
                assert(ff[k0] == prev[k0]);
            } else if dup {
                let j0 = choose|j0: int| 0 <= j0 < n - 1 && (#[trigger] f[j0]).path@ == f[n - 1].path@;
                let k0 = choose|k0: int|
                    0 <= k0 < prev.len() && (#[trigger] prev[k0]).path@ == f[j0].path@;
                assert(ff[k0] == prev[k0]);
            } else {
                assert(ff[prev.len() as int] == f[n - 1]);
            }
        }
    }
}

}
