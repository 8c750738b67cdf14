//! The state of the browser: the list of pictures, where one is in it, and what is being
//! edited or selected.
use vstd::prelude::*;
use crate::direction::{Direction, offsets};
use crate::entry::{Entry, EntryList, entry_with_rank, entry_with_selected, relabelled};
use crate::rank::Rank;
use crate::navigator::{Coords, Navigator, in_grid, next_page_start, prev_page_start};
use crate::order::{Order, order_name};
use crate::paths::{file_name, original_defined, original_named, original_path};
use crate::sorting::{sort_entries, sorted_as};
use crate::external::shuffle;
use crate::text::{chars_of, contains, chars_equal, decimal, has_infix, push_chars, push_decimal, push_str, string_of};
use crate::entry::entry_title;
use crate::args::{Args, chosen_order, grid_size_of, missing_path_message};
use crate::order::order_of_options;
use crate::paths::thumbnail_defined;
use crate::picture_io::{
    copy_destination, copy_entry_filename_to_current_dir, files_named, files_of_picked,
    pair_views, picked, picked_files, selection_copies, selection_copy_list, string_views,
};

verus! {

/// Number of selected pictures in a list.
pub open spec fn count_selected(s: Seq<Entry>) -> nat
    decreases s.len(),
{
    if s.len() == 0 {
        0
    } else {
        count_selected(s.drop_last()) + if s.last().image_data.selected {
            1nat
        } else {
            0nat
        }
    }
}

/// The selected count of a list, less a picture, is that of the list without it.
proof fn lemma_count_selected_remove(t: Seq<Entry>, i: int)
    requires
        0 <= i < t.len(),
    ensures
        count_selected(t) == count_selected(t.remove(i)) + if t[i].image_data.selected {
            1nat
        } else {
            0nat
        },
    decreases t.len(),
{
    if i == t.len() - 1 {
        assert(t.remove(i) =~= t.drop_last());
    } else {
        lemma_count_selected_remove(t.drop_last(), i);
        assert(t.remove(i).drop_last() =~= t.drop_last().remove(i));
        assert(t.remove(i).last() == t.last());
    }
}

/// Reordering a list keeps its number of selected pictures.
pub proof fn lemma_count_selected_permutation(s: Seq<Entry>, t: Seq<Entry>)
    requires
        s.to_multiset() == t.to_multiset(),
    ensures
        count_selected(s) == count_selected(t),
    decreases s.len(),
{
    broadcast use vstd::seq_lib::group_to_multiset_ensures;
    broadcast use vstd::multiset::group_multiset_axioms;

    if s.len() == 0 {
        assert(t.to_multiset().len() == 0);
        assert(t.len() == 0);
    } else {
        let x = s.last();
        let s1 = s.drop_last();
        assert(s =~= s1.push(x));
        assert(s.to_multiset() =~= s1.to_multiset().insert(x));
        assert(t.to_multiset().count(x) > 0);
        assert(t.contains(x));
        let i = t.index_of(x);
        let t1 = t.remove(i);
        assert(t1.to_multiset() =~= t.to_multiset().remove(x));
        assert(s1.to_multiset() =~= t1.to_multiset());
        lemma_count_selected_permutation(s1, t1);
        lemma_count_selected_remove(t, i);
    }
}

/// A list laid out again through a one-to-one choice of indices has the same number of
/// selected pictures.
proof fn lemma_count_selected_reindexed(s: Seq<Entry>, t: Seq<Entry>, p: Seq<int>)
    requires
        p.len() == s.len(),
        t.len() == s.len(),
        forall|k: int| 0 <= k < p.len() ==> 0 <= #[trigger] p[k] < s.len() && t[k] == s[p[k]],
        forall|m: int| 0 <= m < s.len() ==> #[trigger] crate::sorting::lists(p, m),
        forall|k: int, l: int| 0 <= k < l < p.len() ==> p[k] != p[l],
    ensures
        count_selected(s) == count_selected(t),
    decreases s.len(),
{
    if s.len() > 0 {
        let n = s.len() as int;
        assert(crate::sorting::lists(p, n - 1));
        let k0 = choose|k: int| 0 <= k < p.len() && p[k] == n - 1;
        let s1 = s.drop_last();
        let t1 = t.remove(k0);
        let p1 = p.remove(k0);
        assert forall|k: int| 0 <= k < p1.len() implies 0 <= #[trigger] p1[k] < s1.len()
            && t1[k] == s1[p1[k]] by {
            if k < k0 {
                assert(p1[k] == p[k] && t1[k] == t[k]);
                assert(p[k] != p[k0]);
            } else {
                assert(p1[k] == p[k + 1] && t1[k] == t[k + 1]);
                assert(p[k0] != p[k + 1]);
            }
        }
        assert forall|m: int| 0 <= m < s1.len() implies #[trigger] crate::sorting::lists(p1, m) by {
            assert(crate::sorting::lists(p, m));
            let k = choose|k: int| 0 <= k < p.len() && p[k] == m;
            if k < k0 {
                assert(p1[k] == m);
            } else {
                assert(k != k0);
                assert(p1[k - 1] == m);
            }
        }
        assert forall|k: int, l: int| 0 <= k < l < p1.len() implies p1[k] != p1[l] by {
            let a = if k < k0 { k } else { k + 1 };
            let b = if l < k0 { l } else { l + 1 };
            assert(p1[k] == p[a] && p1[l] == p[b]);
            assert(a < b);
        }
        lemma_count_selected_reindexed(s1, t1, p1);
        lemma_count_selected_remove(t, k0);
    }
}

/// Sorting a list keeps its number of selected pictures.
pub proof fn lemma_count_selected_sorted(s: Seq<Entry>, t: Seq<Entry>, o: Order, p: Seq<int>)
    requires
        sorted_as(s, t, o, p),
    ensures
        count_selected(s) == count_selected(t),
{
    assert forall|k: int, l: int| 0 <= k < l < p.len() implies p[k] != p[l] by {
        assert(crate::sorting::comes_before(s, o, p[k], p[l]));
        if p[k] == p[l] {
            crate::sorting::lemma_key_less_total(
                crate::sorting::order_key(s[p[k]], o),
                crate::sorting::order_key(s[p[k]], o),
            );
        }
    }
    lemma_count_selected_reindexed(s, t, p);
}

/// The number of selected pictures of a list is at most its length.
proof fn lemma_count_selected_bound(s: Seq<Entry>)
    ensures
        count_selected(s) <= s.len(),
    decreases s.len(),
{
    if s.len() > 0 {
        lemma_count_selected_bound(s.drop_last());
    }
}

/// Two lists whose pictures are selected alike have the same number selected.
pub proof fn lemma_count_selected_alike(s: Seq<Entry>, t: Seq<Entry>)
    requires
        s.len() == t.len(),
        forall|i: int| 0 <= i < s.len() ==> (#[trigger] s[i]).image_data.selected == t[i].image_data.selected,
    ensures
        count_selected(s) == count_selected(t),
    decreases s.len(),
{
    if s.len() > 0 {
        lemma_count_selected_alike(s.drop_last(), t.drop_last());
    }
}

/// What a repository holds, as plain values.
pub ghost struct RepositoryView {
    pub entries: Seq<Entry>,
    pub navigator: Navigator,
    pub select_start: Option<usize>,
    pub order: Option<Order>,
    pub register: Option<usize>,
    pub real_size_on: bool,
    pub palette_extract_on: bool,
    pub max_selected: usize,
    pub label_edit_mode_on: bool,
    pub copy_selection_target: Option<Seq<char>>,
    pub move_selection_target: Option<Seq<char>>,
    pub all_label_move_target: Option<Seq<char>>,
    pub sample: bool,
    pub grid_limit_on: bool,
    pub search_edit_mode_on: bool,
    pub field: Seq<char>,
}

pub struct Repository {
    entry_list: EntryList,
    navigator: Navigator,
    select_start: Option<usize>,
    order: Option<Order>,
    register: Option<usize>,
    real_size_on: bool,
    palette_extract_on: bool,
    max_selected: usize,
    label_edit_mode_on: bool,
    copy_selection_target: Option<String>,
    move_selection_target: Option<String>,
    all_label_move_target: Option<String>,
    sample: bool,
    grid_limit_on: bool,
    search_edit_mode_on: bool,
    field: String,
}

pub open spec fn opt_view(o: Option<String>) -> Option<Seq<char>> {
    match o {
        Some(s) => Some(s@),
        None => None,
    }
}

impl View for Repository {
    type V = RepositoryView;

    closed spec fn view(&self) -> RepositoryView {
        RepositoryView {
            entries: self.entry_list@,
            navigator: self.navigator,
            select_start: self.select_start,
            order: self.order,
            register: self.register,
            real_size_on: self.real_size_on,
            palette_extract_on: self.palette_extract_on,
            max_selected: self.max_selected,
            label_edit_mode_on: self.label_edit_mode_on,
            copy_selection_target: opt_view(self.copy_selection_target),
            move_selection_target: opt_view(self.move_selection_target),
            all_label_move_target: opt_view(self.all_label_move_target),
            sample: self.sample,
            grid_limit_on: self.grid_limit_on,
            search_edit_mode_on: self.search_edit_mode_on,
            field: self.field@,
        }
    }
}

impl RepositoryView {
    /// Number of pictures.
    pub open spec fn capacity(self) -> int {
        self.entries.len() as int
    }

    /// Index of the current picture.
    pub open spec fn current(self) -> int {
        self.navigator.current()
    }

    /// Whether the selected count shown in the title is the number of pictures selected.
    pub open spec fn selection_counted(self) -> bool {
        self.max_selected == count_selected(self.entries)
    }

    /// Whether the index being typed, if any, names a picture or is the 0 it starts from.
    pub open spec fn register_valid(self) -> bool {
        self.register matches Some(r) ==> r == 0 || r < self.capacity()
    }

    /// The repository's invariant: the navigator covers the list, and the start of a range
    /// selection points into it (or is 0).
    pub open spec fn wf(self) -> bool {
        &&& self.navigator.wf()
        &&& self.navigator.cap() == self.entries.len()
        &&& (self.select_start matches Some(s) ==> s < self.entries.len() || s == 0)
    }
}

impl Repository {
    pub fn from_entries(
        entries: EntryList,
        cells_per_row: usize,
        copy_selection_target: Option<String>,
        move_selection_target: Option<String>,
        all_label_move_target: Option<String>,
        sample: bool,
    ) -> (r: Self)
        requires
            entries.len() <= i32::MAX,
            cells_per_row * cells_per_row <= i32::MAX,
        ensures
            r@.wf(),
            r@.entries == entries@,
            r@.navigator.cpr() == cells_per_row,
            r@.navigator.start() == 0,
            r@.navigator.pos() == (0i32, 0i32),
            r@.navigator.changed(),
            r@.select_start is None,
            r@.order == Some(Order::Random),
            r@.register is None,
            !r@.real_size_on,
            !r@.palette_extract_on,
            r@.max_selected == count_selected(entries@),
            !r@.label_edit_mode_on,
            r@.copy_selection_target == opt_view(copy_selection_target),
            r@.move_selection_target == opt_view(move_selection_target),
            r@.all_label_move_target == opt_view(all_label_move_target),
            r@.sample == sample,
            r@.grid_limit_on,
            !r@.search_edit_mode_on,
            r@.field == Seq::<char>::empty(),
    {
        let n = entries.len() as i32;
        assert(cells_per_row <= i32::MAX) by (nonlinear_arith)
            requires
                cells_per_row * cells_per_row <= i32::MAX,
        ;
        let cpr = cells_per_row as i32;
        let max_selected = selected_count(&entries);
        Repository {
            entry_list: entries,
            navigator: Navigator::new(n, cpr),
            select_start: None,
            order: Some(Order::Random),
            register: None,
            real_size_on: false,
            palette_extract_on: false,
            max_selected: max_selected,
            label_edit_mode_on: false,
            copy_selection_target: copy_selection_target,
            move_selection_target: move_selection_target,
            all_label_move_target: all_label_move_target,
            sample: sample,
            grid_limit_on: true,
            search_edit_mode_on: false,
            field: String::new(),
        }
    }

    pub fn add_edit_char(&mut self, ch: char)
        ensures
            old(self)@.selection_counted() ==> final(self)@.selection_counted(),
            final(self)@ == (RepositoryView {
                field: if (vstd::utf8::encode_utf8(old(self)@.field).len() as usize) < 16 {
                    old(self)@.field.push(ch)
                } else {
                    old(self)@.field
                },
                ..old(self)@
            }),
    {
        if self.field.as_str().len() < 16 {
            self.field.push(ch);
        }
    }

    pub fn remove_edit_char(&mut self)
        ensures
            old(self)@.selection_counted() ==> final(self)@.selection_counted(),
            final(self)@ == (RepositoryView {
                field: if old(self)@.field.len() > 0 {
                    old(self)@.field.drop_last()
                } else {
                    old(self)@.field
                },
                ..old(self)@
            }),
    {
        if !self.field.as_str().is_empty() {
            self.field.pop();
        }
    }

    pub fn search_edit_mode_on(&self) -> (r: bool)
        ensures
            r == self@.search_edit_mode_on,
    {
        self.search_edit_mode_on
    }

    pub fn begin_search_edit(&mut self)
        ensures
            old(self)@.selection_counted() ==> final(self)@.selection_counted(),
            final(self)@ == (RepositoryView {
                field: Seq::empty(),
                search_edit_mode_on: true,
                ..old(self)@
            }),
    {
        self.field = String::new();
        self.search_edit_mode_on = true;
    }

    pub fn cancel_search_edit(&mut self)
        ensures
            old(self)@.selection_counted() ==> final(self)@.selection_counted(),
            final(self)@ == (RepositoryView { search_edit_mode_on: false, ..old(self)@ }),
    {
        self.search_edit_mode_on = false;
    }

    pub fn label_edit_mode_on(&self) -> (r: bool)
        ensures
            r == self@.label_edit_mode_on,
    {
        self.label_edit_mode_on
    }

    pub fn begin_label_edit(&mut self)
        ensures
            old(self)@.selection_counted() ==> final(self)@.selection_counted(),
            final(self)@ == (RepositoryView {
                field: Seq::empty(),
                label_edit_mode_on: true,
                ..old(self)@
            }),
    {
        self.label_edit_mode_on = true;
        self.field = String::new();
    }

    pub fn cancel_label_edit(&mut self)
        ensures
            old(self)@.selection_counted() ==> final(self)@.selection_counted(),
            final(self)@ == (RepositoryView { label_edit_mode_on: false, ..old(self)@ }),
    {
        self.label_edit_mode_on = false;
    }

    pub fn sample(&self) -> (r: bool)
        ensures
            r == self@.sample,
    {
        self.sample
    }

    pub fn grid_limit_on(&self) -> (r: bool)
        ensures
            r == self@.grid_limit_on,
    {
        self.grid_limit_on
    }

    pub fn toggle_grid_limit(&mut self)
        ensures
            old(self)@.selection_counted() ==> final(self)@.selection_counted(),
            final(self)@ == (RepositoryView {
                grid_limit_on: !old(self)@.grid_limit_on,
                ..old(self)@
            }),
    {
        self.grid_limit_on = !self.grid_limit_on;
    }

    pub fn palette_extract_on(&self) -> (r: bool)
        ensures
            r == self@.palette_extract_on,
    {
        self.palette_extract_on
    }

    pub fn capacity(&self) -> (r: usize)
        requires
            self@.wf(),
        ensures
            r == self@.capacity(),
    {
        self.navigator.capacity()
    }

    pub fn position(&self) -> (r: Coords)
        ensures
            r == self@.navigator.pos(),
    {
        self.navigator.position()
    }

    pub fn cells_per_row(&self) -> (r: i32)
        ensures
            r == self@.navigator.cpr(),
    {
        self.navigator.cells_per_row()
    }

    pub fn index_from_position(&self, coords: Coords) -> (r: Option<usize>)
        requires
            self@.wf(),
        ensures
            r matches Some(n) ==> self@.navigator.index_at(coords) == Some(n as int),
            r is None ==> self@.navigator.index_at(coords) is None,
    {
        self.navigator.index_from_position(coords)
    }

    pub fn entry_at_index(&self, index: usize) -> (r: Option<&Entry>)
        requires
            self@.wf(),
        ensures
            index < self@.capacity() ==> r == Some(&self@.entries[index as int]),
            index >= self@.capacity() ==> r is None,
    {
        if index < self.navigator.capacity() {
            Some(&self.entry_list[index])
        } else {
            None
        }
    }

    pub fn real_size(&self) -> (r: bool)
        ensures
            r == self@.real_size_on,
    {
        self.real_size_on
    }

    pub fn register_on(&self) -> (r: bool)
        ensures
            r == self@.register is Some,
    {
        self.register.is_some()
    }

    pub fn current_entry(&self) -> (r: Option<&Entry>)
        requires
            self@.wf(),
            self@.capacity() > 0,
        ensures
            r == Some(&self@.entries[self@.current()]),
    {
        Some(&self.entry_list[self.navigator.index()])
    }

    pub fn current_index(&self) -> (r: usize)
        requires
            self@.wf(),
        ensures
            r == self@.current(),
    {
        self.navigator.index()
    }

    pub fn page_changed(&self) -> (r: bool)
        ensures
            r == self@.navigator.changed(),
    {
        self.navigator.page_changed()
    }

    pub fn set_order_choice_on(&mut self)
        ensures
            old(self)@.selection_counted() ==> final(self)@.selection_counted(),
            final(self)@ == (RepositoryView { order: None, ..old(self)@ }),
    {
        self.order = None;
    }

    pub fn order_choice_on(&self) -> (r: bool)
        ensures
            r == self@.order is None,
    {
        self.order.is_none()
    }

    pub fn toggle_palette_extract(&mut self)
        requires
            old(self)@.wf(),
        ensures
            old(self)@.selection_counted() ==> final(self)@.selection_counted(),
            final(self)@.wf(),
            final(self)@ == (RepositoryView {
                palette_extract_on: !old(self)@.palette_extract_on,
                navigator: final(self)@.navigator,
                ..old(self)@
            }),
            refreshed(old(self)@.navigator, final(self)@.navigator),
    {
        self.palette_extract_on = !self.palette_extract_on;
        self.navigator.refresh()
    }
}

/// The navigator stays where it was and marks the page as changed.
pub open spec fn refreshed(a: Navigator, b: Navigator) -> bool {
    &&& b.wf()
    &&& b.cap() == a.cap()
    &&& b.cpr() == a.cpr()
    &&& b.max() == a.max()
    &&& b.start() == a.start()
    &&& b.pos() == a.pos()
    &&& b.changed()
}

/// Number of selected pictures in a list.
fn selected_count(entries: &EntryList) -> (n: usize)
    ensures
        n == count_selected(entries@),
{
    let mut n: usize = 0;
    let mut i: usize = 0;
    while i < entries.len()
        invariant
            i <= entries.len(),
            n == count_selected(entries@.take(i as int)),
            n <= i,
        decreases entries.len() - i,
    {
        assert(entries@.take(i + 1).drop_last() == entries@.take(i as int));
        if entries[i].image_data.selected {
            n = n + 1;
        }
        i = i + 1;
    }
    assert(entries@.take(entries.len() as int) == entries@);
    n
}


/// Start of the page `k` pages forward.
pub open spec fn pages_forward(capacity: int, max_cells: int, start: int, k: nat) -> int
    decreases k,
{
    if k == 0 {
        start
    } else {
        pages_forward(capacity, max_cells, next_page_start(capacity, max_cells, start), (k - 1) as nat)
    }
}

/// Start of the page `k` pages backward.
pub open spec fn pages_backward(capacity: int, max_cells: int, start: int, k: nat) -> int
    decreases k,
{
    if k == 0 {
        start
    } else {
        pages_backward(capacity, max_cells, prev_page_start(capacity, max_cells, start), (k - 1) as nat)
    }
}

/// Whether `start` starts a page of a non-empty list.
pub open spec fn page_start(capacity: int, max_cells: int, start: int) -> bool {
    0 <= start < capacity && max_cells > 0 && start % max_cells == 0
}

proof fn lemma_page_steps_stay(capacity: int, max_cells: int, start: int)
    requires
        page_start(capacity, max_cells, start),
    ensures
        page_start(capacity, max_cells, next_page_start(capacity, max_cells, start)),
        page_start(capacity, max_cells, prev_page_start(capacity, max_cells, start)),
{
    if start + max_cells < capacity {
        crate::navigator::lemma_add_aligned(start, max_cells);
    } else {
        assert(0int % max_cells == 0) by (nonlinear_arith)
            requires
                max_cells > 0,
        ;
    }
    if start > 0 {
        crate::navigator::lemma_sub_aligned(start, max_cells);
    } else {
        let q = (capacity - 1) / max_cells;
        assert(0 <= q * max_cells <= capacity - 1) by (nonlinear_arith)
            requires
                q == (capacity - 1) / max_cells,
                capacity >= 1,
                max_cells > 0,
        ;
        assert((q * max_cells) % max_cells == 0) by (nonlinear_arith)
            requires
                max_cells > 0,
        ;
    }
}

proof fn lemma_pages_forward_last(capacity: int, max_cells: int, start: int, k: nat)
    ensures
        pages_forward(capacity, max_cells, start, k + 1) == next_page_start(
            capacity,
            max_cells,
            pages_forward(capacity, max_cells, start, k),
        ),
    decreases k,
{
    let n = next_page_start(capacity, max_cells, start);
    assert(pages_forward(capacity, max_cells, start, k + 1) == pages_forward(capacity, max_cells, n, k));
    if k > 0 {
        lemma_pages_forward_last(capacity, max_cells, n, (k - 1) as nat);
        assert((k - 1) as nat + 1 == k);
        assert(pages_forward(capacity, max_cells, start, k) == pages_forward(
            capacity,
            max_cells,
            n,
            (k - 1) as nat,
        ));
    } else {
        assert(pages_forward(capacity, max_cells, n, 0) == n);
    }
}

proof fn lemma_pages_backward_last(capacity: int, max_cells: int, start: int, k: nat)
    ensures
        pages_backward(capacity, max_cells, start, k + 1) == prev_page_start(
            capacity,
            max_cells,
            pages_backward(capacity, max_cells, start, k),
        ),
    decreases k,
{
    let n = prev_page_start(capacity, max_cells, start);
    assert(pages_backward(capacity, max_cells, start, k + 1) == pages_backward(capacity, max_cells, n, k));
    if k > 0 {
        lemma_pages_backward_last(capacity, max_cells, n, (k - 1) as nat);
        assert((k - 1) as nat + 1 == k);
        assert(pages_backward(capacity, max_cells, start, k) == pages_backward(
            capacity,
            max_cells,
            n,
            (k - 1) as nat,
        ));
    } else {
        assert(pages_backward(capacity, max_cells, n, 0) == n);
    }
}

proof fn lemma_pages_stay(capacity: int, max_cells: int, start: int, k: nat)
    requires
        page_start(capacity, max_cells, start),
    ensures
        page_start(capacity, max_cells, pages_forward(capacity, max_cells, start, k)),
        page_start(capacity, max_cells, pages_backward(capacity, max_cells, start, k)),
    decreases k,
{
    if k > 0 {
        lemma_page_steps_stay(capacity, max_cells, start);
        lemma_pages_stay(capacity, max_cells, next_page_start(capacity, max_cells, start), (k - 1) as nat);
        lemma_pages_stay(capacity, max_cells, prev_page_start(capacity, max_cells, start), (k - 1) as nat);
    }
}

/// Any number of pages forward and then as many back (or back, then forward) come back to
/// the page one started from, on every page of a non-empty list.
pub proof fn lemma_pages_there_and_back(capacity: int, max_cells: int, start: int, k: nat)
    requires
        page_start(capacity, max_cells, start),
    ensures
        pages_backward(capacity, max_cells, pages_forward(capacity, max_cells, start, k), k)
            == start,
        pages_forward(capacity, max_cells, pages_backward(capacity, max_cells, start, k), k)
            == start,
    decreases k,
{
    if k > 0 {
        let j = (k - 1) as nat;
        lemma_pages_there_and_back(capacity, max_cells, start, j);
        lemma_pages_stay(capacity, max_cells, start, j);
        let f = pages_forward(capacity, max_cells, start, j);
        let b = pages_backward(capacity, max_cells, start, j);
        lemma_pages_forward_last(capacity, max_cells, start, j);
        lemma_pages_backward_last(capacity, max_cells, start, j);
        crate::navigator::lemma_next_then_prev_page(capacity, max_cells, f);
        crate::navigator::lemma_prev_then_next_page(capacity, max_cells, b);
        assert(pages_forward(capacity, max_cells, start, k) == next_page_start(capacity, max_cells, f));
        assert(pages_backward(capacity, max_cells, start, k) == prev_page_start(capacity, max_cells, b));
    }
}

/// The navigator `b` shows the page starting at `start`, from its first cell.
pub open spec fn at_page(a: Navigator, b: Navigator, start: int) -> bool {
    &&& b.wf()
    &&& b.cap() == a.cap()
    &&& b.cpr() == a.cpr()
    &&& b.max() == a.max()
    &&& b.start() == start
    &&& b.pos() == (0i32, 0i32)
    &&& b.changed()
}

/// The navigator `b` is at cell `p` of the same page as `a`, the page unchanged.
pub open spec fn at_cell(a: Navigator, b: Navigator, p: Coords) -> bool {
    &&& b.wf()
    &&& b.cap() == a.cap()
    &&& b.cpr() == a.cpr()
    &&& b.max() == a.max()
    &&& b.start() == a.start()
    &&& b.pos() == p
    &&& !b.changed()
}

/// Ten pages forward and then ten back, or ten back and then ten forward, return to the
/// picture one started from, when one started from the first cell of a page of a
/// non-empty list: the moves of `move_forward_ten_pages` and `move_backward_ten_pages`
/// undo each other.
pub proof fn lemma_ten_pages_there_and_back(a: Navigator, b: Navigator, c: Navigator)
    requires
        a.wf(),
        a.cap() > 0,
        a.cpr() > 0,
        a.pos() == (0i32, 0i32),
        (at_page(a, b, pages_forward(a.cap(), a.max(), a.start(), 10)) && at_page(
            b,
            c,
            pages_backward(b.cap(), b.max(), b.start(), 10),
        )) || (at_page(a, b, pages_backward(a.cap(), a.max(), a.start(), 10)) && at_page(
            b,
            c,
            pages_forward(b.cap(), b.max(), b.start(), 10),
        )),
    ensures
        c.start() == a.start(),
        c.pos() == (0i32, 0i32),
        c.current() == a.current(),
        c.changed(),
{
    crate::navigator::lemma_page_size(a);
    crate::navigator::lemma_pages_are_aligned(a);
    crate::navigator::lemma_navigator_bounds(a);
    lemma_pages_there_and_back(a.cap(), a.max(), a.start(), 10);
    assert(0i32 * a.cpr() == 0) by (nonlinear_arith);
    assert(0i32 * c.cpr() == 0) by (nonlinear_arith);
}

/// `b` is `a` after a jump to picture `n`, which leaves real size off.
pub open spec fn jumped(a: RepositoryView, b: RepositoryView, n: int) -> bool {
    &&& b == RepositoryView { navigator: b.navigator, real_size_on: false, ..a }
    &&& b.navigator.wf()
    &&& a.navigator.at_index(b.navigator, n)
}

impl Repository {
    pub fn can_move_abs(&self, coords: Coords) -> (r: bool)
        requires
            self@.wf(),
        ensures
            r == (in_grid(self@.navigator.cpr(), (coords.0 as int, coords.1 as int))
                && self@.navigator.index_at(coords) is Some),
    {
        self.navigator.can_move_abs(coords)
    }

    pub fn move_abs(&mut self, coords: Coords)
        requires
            old(self)@.wf(),
            in_grid(old(self)@.navigator.cpr(), (coords.0 as int, coords.1 as int)),
            old(self)@.navigator.index_at(coords) is Some,
        ensures
            old(self)@.selection_counted() ==> final(self)@.selection_counted(),
            final(self)@.wf(),
            final(self)@ == (RepositoryView { navigator: final(self)@.navigator, ..old(self)@ }),
            at_cell(old(self)@.navigator, final(self)@.navigator, coords),
    {
        self.navigator.move_abs(coords)
    }

    /// Whether a step from the current cell lands on a picture of the page.
    pub fn can_move_rel(&self, direction: Direction) -> (r: bool)
        requires
            self@.wf(),
        ensures
            r == ({
                let p = (
                    self@.navigator.pos().0 + offsets(direction).0,
                    self@.navigator.pos().1 + offsets(direction).1,
                );
                in_grid(self@.navigator.cpr(), p) && self@.navigator.index_at(
                    (p.0 as i32, p.1 as i32),
                ) is Some
            }),
    {
        self.navigator.can_move_rel(direction)
    }

    /// A step from the current cell to a neighbouring cell of the page.
    pub fn move_rel(&mut self, direction: Direction)
        requires
            old(self)@.wf(),
            in_grid(
                old(self)@.navigator.cpr(),
                (
                    old(self)@.navigator.pos().0 + offsets(direction).0,
                    old(self)@.navigator.pos().1 + offsets(direction).1,
                ),
            ),
        ensures
            old(self)@.selection_counted() ==> final(self)@.selection_counted(),
            final(self)@.wf(),
            final(self)@ == (RepositoryView { navigator: final(self)@.navigator, ..old(self)@ }),
            at_cell(
                old(self)@.navigator,
                final(self)@.navigator,
                (
                    (old(self)@.navigator.pos().0 + offsets(direction).0) as i32,
                    (old(self)@.navigator.pos().1 + offsets(direction).1) as i32,
                ),
            ),
    {
        self.navigator.move_rel(direction)
    }

    pub fn move_forward_ten_pages(&mut self)
        requires
            old(self)@.wf(),
        ensures
            old(self)@.selection_counted() ==> final(self)@.selection_counted(),
            final(self)@.wf(),
            final(self)@ == (RepositoryView { navigator: final(self)@.navigator, ..old(self)@ }),
            at_page(
                old(self)@.navigator,
                final(self)@.navigator,
                pages_forward(
                    old(self)@.navigator.cap(),
                    old(self)@.navigator.max(),
                    old(self)@.navigator.start(),
                    10,
                ),
            ),
    {
        let ghost a = self.navigator;
        let mut k: usize = 0;
        while k < 10
            invariant
                k <= 10,
                self@ == (RepositoryView { navigator: self.navigator, ..old(self)@ }),
                self.navigator.wf(),
                self.navigator.cap() == a.cap(),
                self.navigator.cpr() == a.cpr(),
                self.navigator.max() == a.max(),
                pages_forward(a.cap(), a.max(), a.start(), 10) == pages_forward(
                    a.cap(),
                    a.max(),
                    self.navigator.start(),
                    (10 - k) as nat,
                ),
                k > 0 ==> self.navigator.pos() == (0i32, 0i32) && self.navigator.changed(),
            decreases 10 - k,
        {
            self.navigator.move_next_page();
            k = k + 1;
        }
    }

    pub fn move_backward_ten_pages(&mut self)
        requires
            old(self)@.wf(),
            old(self)@.navigator.cpr() > 0,
        ensures
            old(self)@.selection_counted() ==> final(self)@.selection_counted(),
            final(self)@.wf(),
            final(self)@ == (RepositoryView { navigator: final(self)@.navigator, ..old(self)@ }),
            at_page(
                old(self)@.navigator,
                final(self)@.navigator,
                pages_backward(
                    old(self)@.navigator.cap(),
                    old(self)@.navigator.max(),
                    old(self)@.navigator.start(),
                    10,
                ),
            ),
    {
        let ghost a = self.navigator;
        proof {
            crate::navigator::lemma_page_size(a);
        }
        let mut k: usize = 0;
        while k < 10
            invariant
                k <= 10,
                a.max() > 0,
                self@ == (RepositoryView { navigator: self.navigator, ..old(self)@ }),
                self.navigator.wf(),
                self.navigator.cap() == a.cap(),
                self.navigator.cpr() == a.cpr(),
                self.navigator.max() == a.max(),
                pages_backward(a.cap(), a.max(), a.start(), 10) == pages_backward(
                    a.cap(),
                    a.max(),
                    self.navigator.start(),
                    (10 - k) as nat,
                ),
                k > 0 ==> self.navigator.pos() == (0i32, 0i32) && self.navigator.changed(),
            decreases 10 - k,
        {
            self.navigator.move_prev_page();
            k = k + 1;
        }
    }

    pub fn move_to_register(&mut self)
        requires
            old(self)@.wf(),
            old(self)@.register matches Some(r) ==> r < old(self)@.capacity() && old(
                self,
            )@.navigator.cpr() > 0,
        ensures
            old(self)@.selection_counted() ==> final(self)@.selection_counted(),
            final(self)@.wf(),
            old(self)@.register matches Some(n) ==> jumped(
                old(self)@,
                RepositoryView { register: old(self)@.register, ..final(self)@ },
                n as int,
            ) && final(self)@.register is None,
            old(self)@.register is None ==> final(self)@ == (RepositoryView {
                register: Some(0),
                ..old(self)@
            }),
            final(self)@.register_valid(),
    {
        if let Some(index) = self.register {
            self.navigator.move_to_index(index);
            self.register = None;
            self.real_size_on = false;
        } else {
            self.register = Some(0);
        }
    }

    pub fn add_register_digit(&mut self, digit: usize)
        requires
            old(self)@.wf(),
            old(self)@.register matches Some(acc) ==> acc * 10 + digit <= usize::MAX,
        ensures
            old(self)@.selection_counted() ==> final(self)@.selection_counted(),
            final(self)@.wf(),
            old(self)@.register_valid() ==> final(self)@.register_valid(),
            final(self)@ == (RepositoryView {
                register: match old(self)@.register {
                    Some(acc) => if acc * 10 + digit < old(self)@.capacity() {
                        Some((acc * 10 + digit) as usize)
                    } else {
                        Some(acc)
                    },
                    None => None,
                },
                ..old(self)@
            }),
    {
        self.register = match self.register {
            Some(acc) => {
                let new_acc = acc * 10 + digit;
                if new_acc < self.navigator.capacity() {
                    Some(new_acc)
                } else {
                    Some(acc)
                }
            },
            None => None,
        }
    }

    pub fn delete_register_digit(&mut self)
        requires
            old(self)@.wf(),
        ensures
            old(self)@.selection_counted() ==> final(self)@.selection_counted(),
            final(self)@.wf(),
            old(self)@.register_valid() ==> final(self)@.register_valid(),
            final(self)@ == (RepositoryView {
                register: match old(self)@.register {
                    Some(n) => Some((n / 10) as usize),
                    None => None,
                },
                ..old(self)@
            }),
    {
        self.register = match self.register {
            Some(n) => Some(n / 10),
            None => None,
        };
    }

    pub fn toggle_real_size(&mut self)
        ensures
            old(self)@.selection_counted() ==> final(self)@.selection_counted(),
            final(self)@ == (RepositoryView {
                real_size_on: if old(self)@.navigator.cpr() == 1 {
                    !old(self)@.real_size_on
                } else {
                    old(self)@.real_size_on
                },
                ..old(self)@
            }),
    {
        if self.navigator.cells_per_row() == 1 {
            self.real_size_on = !self.real_size_on;
        }
    }

    pub fn can_move_to_index(&self, index: usize) -> (r: bool)
        requires
            self@.wf(),
        ensures
            r == (index < self@.capacity()),
    {
        self.navigator.can_move_to_index(index)
    }

    pub fn move_to_index(&mut self, index: usize)
        requires
            old(self)@.wf(),
            index < old(self)@.capacity() ==> old(self)@.navigator.cpr() > 0,
        ensures
            old(self)@.selection_counted() ==> final(self)@.selection_counted(),
            final(self)@.wf(),
            index < old(self)@.capacity() ==> jumped(old(self)@, final(self)@, index as int),
            index >= old(self)@.capacity() ==> final(self)@ == old(self)@,
    {
        if self.navigator.can_move_to_index(index) {
            self.navigator.move_to_index(index);
            self.real_size_on = false;
        }
    }

    pub fn move_to_random_index(&mut self)
        requires
            old(self)@.wf(),
            old(self)@.capacity() > 0,
            old(self)@.navigator.cpr() > 0,
        ensures
            old(self)@.selection_counted() ==> final(self)@.selection_counted(),
            final(self)@.wf(),
            exists|n: int| 0 <= n < old(self)@.capacity() && jumped(old(self)@, final(self)@, n),
    {
        self.navigator.move_to_random_index();
        self.real_size_on = false;
        proof {
            let n = choose|n: int|
                0 <= n < old(self)@.capacity() && old(self)@.navigator.at_index(self.navigator, n);
            assert(jumped(old(self)@, self@, n));
        }
    }

    pub fn move_next_page(&mut self)
        requires
            old(self)@.wf(),
        ensures
            old(self)@.selection_counted() ==> final(self)@.selection_counted(),
            final(self)@.wf(),
            final(self)@ == (RepositoryView {
                navigator: final(self)@.navigator,
                real_size_on: false,
                ..old(self)@
            }),
            at_page(
                old(self)@.navigator,
                final(self)@.navigator,
                next_page_start(
                    old(self)@.navigator.cap(),
                    old(self)@.navigator.max(),
                    old(self)@.navigator.start(),
                ),
            ),
    {
        self.navigator.move_next_page();
        self.real_size_on = false;
    }

    pub fn move_prev_page(&mut self)
        requires
            old(self)@.wf(),
            old(self)@.navigator.start() > 0 || old(self)@.navigator.max() > 0,
        ensures
            old(self)@.selection_counted() ==> final(self)@.selection_counted(),
            final(self)@.wf(),
            final(self)@ == (RepositoryView {
                navigator: final(self)@.navigator,
                real_size_on: false,
                ..old(self)@
            }),
            at_page(
                old(self)@.navigator,
                final(self)@.navigator,
                prev_page_start(
                    old(self)@.navigator.cap(),
                    old(self)@.navigator.max(),
                    old(self)@.navigator.start(),
                ),
            ),
    {
        self.navigator.move_prev_page();
        self.real_size_on = false;
    }

    /// Right and down turn to the next page, left and up to the previous one.
    pub fn move_in_direction(&mut self, direction: Direction)
        requires
            old(self)@.wf(),
            old(self)@.navigator.start() > 0 || old(self)@.navigator.max() > 0,
        ensures
            old(self)@.selection_counted() ==> final(self)@.selection_counted(),
            final(self)@.wf(),
            final(self)@ == (RepositoryView {
                navigator: final(self)@.navigator,
                real_size_on: false,
                ..old(self)@
            }),
            at_page(
                old(self)@.navigator,
                final(self)@.navigator,
                match direction {
                    Direction::Right | Direction::Down => next_page_start(
                        old(self)@.navigator.cap(),
                        old(self)@.navigator.max(),
                        old(self)@.navigator.start(),
                    ),
                    Direction::Left | Direction::Up => prev_page_start(
                        old(self)@.navigator.cap(),
                        old(self)@.navigator.max(),
                        old(self)@.navigator.start(),
                    ),
                },
            ),
    {
        match direction {
            Direction::Right | Direction::Down => self.move_next_page(),
            Direction::Left | Direction::Up => self.move_prev_page(),
        }
    }
}


/// `t` is `s` with the selection of the pictures at indices `lo..hi` set to `value`.
pub open spec fn selected_in(s: Seq<Entry>, t: Seq<Entry>, lo: int, hi: int, value: bool) -> bool {
    &&& t.len() == s.len()
    &&& forall|k: int|
        0 <= k < s.len() ==> #[trigger] t[k] == if lo <= k < hi {
            entry_with_selected(s[k], value)
        } else {
            s[k]
        }
}

/// `t` is `s` with the rank of the pictures at indices `lo..hi` set to `rank`.
pub open spec fn ranked_in(s: Seq<Entry>, t: Seq<Entry>, lo: int, hi: int, rank: Rank) -> bool {
    &&& t.len() == s.len()
    &&& forall|k: int|
        0 <= k < s.len() ==> #[trigger] t[k] == if lo <= k < hi {
            entry_with_rank(s[k], rank)
        } else {
            s[k]
        }
}

/// `t` is `s` with the label of the pictures at indices `lo..hi` set to `label`.
pub open spec fn labelled_in(s: Seq<Entry>, t: Seq<Entry>, lo: int, hi: int, label: Seq<char>) -> bool {
    &&& t.len() == s.len()
    &&& forall|k: int|
        0 <= k < s.len() ==> if lo <= k < hi {
            relabelled(s[k], #[trigger] t[k], label)
        } else {
            t[k] == s[k]
        }
}

/// The indices `lo..hi`, in order.
pub open spec fn index_range(lo: int, hi: int) -> Seq<usize> {
    Seq::new((hi - lo) as nat, |k: int| (lo + k) as usize)
}

/// First index of the range between the start of a range selection and the current picture.
pub open spec fn range_low(v: RepositoryView) -> int {
    let s = v.select_start.unwrap() as int;
    if s <= v.current() {
        s
    } else {
        v.current()
    }
}

/// Last index of the range between the start of a range selection and the current picture.
pub open spec fn range_high(v: RepositoryView) -> int {
    let s = v.select_start.unwrap() as int;
    if s <= v.current() {
        v.current()
    } else {
        s
    }
}

/// The view with the selection of the current picture toggled, and the count of selected
/// pictures moved by one.
pub open spec fn selection_toggled(v: RepositoryView) -> RepositoryView {
    let e = v.entries[v.current()];
    RepositoryView {
        entries: v.entries.update(v.current(), entry_with_selected(e, !e.image_data.selected)),
        max_selected: if e.image_data.selected {
            (v.max_selected - 1) as usize
        } else {
            (v.max_selected + 1) as usize
        },
        ..v
    }
}

/// Toggling the selection twice gives back the pictures and the count of selected ones:
/// the second toggle undoes the first.
pub proof fn lemma_toggle_select_twice(a: RepositoryView, b: RepositoryView, c: RepositoryView)
    requires
        a.wf(),
        a.capacity() > 0,
        a.entries[a.current()].image_data.selected ==> a.max_selected > 0,
        !a.entries[a.current()].image_data.selected ==> a.max_selected < usize::MAX,
        b == (RepositoryView { navigator: b.navigator, ..selection_toggled(a) }),
        refreshed(a.navigator, b.navigator),
        c == (RepositoryView { navigator: c.navigator, ..selection_toggled(b) }),
        refreshed(b.navigator, c.navigator),
    ensures
        c == (RepositoryView { navigator: c.navigator, ..a }),
{
    assert(b.current() == a.current());
    assert(c.entries =~= a.entries);
}

impl Repository {
    /// Toggles the selection of the current picture; returns its index, whose data changed.
    pub fn toggle_select(&mut self) -> (saved: usize)
        requires
            old(self)@.wf(),
            old(self)@.capacity() > 0,
            old(self)@.entries[old(self)@.current()].image_data.selected ==> old(
                self,
            )@.max_selected > 0,
            !old(self)@.entries[old(self)@.current()].image_data.selected ==> old(
                self,
            )@.max_selected < usize::MAX,
        ensures
            old(self)@.selection_counted() ==> final(self)@.selection_counted(),
            final(self)@.wf(),
            saved == old(self)@.current(),
            final(self)@ == (RepositoryView {
                navigator: final(self)@.navigator,
                ..selection_toggled(old(self)@)
            }),
            refreshed(old(self)@.navigator, final(self)@.navigator),
    {
        let index = self.navigator.index();
        let entry = &mut self.entry_list[index];
        entry.toggle_select();
        if entry.is_selected() {
            self.max_selected = self.max_selected + 1;
        } else {
            self.max_selected = self.max_selected - 1;
        }
        self.navigator.refresh();
        proof {
            let ghost_s = old(self)@.entries;
            lemma_count_selected_remove(ghost_s, index as int);
            lemma_count_selected_remove(self@.entries, index as int);
            assert(self@.entries.remove(index as int) =~= ghost_s.remove(index as int));
        }
        index
    }

    pub fn toggle_delete(&mut self)
        requires
            old(self)@.wf(),
            old(self)@.capacity() > 0,
        ensures
            old(self)@.selection_counted() ==> final(self)@.selection_counted(),
            final(self)@.wf(),
            final(self)@ == (RepositoryView {
                entries: old(self)@.entries.update(
                    old(self)@.current(),
                    Entry {
                        delete: !old(self)@.entries[old(self)@.current()].delete,
                        ..old(self)@.entries[old(self)@.current()]
                    },
                ),
                navigator: final(self)@.navigator,
                ..old(self)@
            }),
            refreshed(old(self)@.navigator, final(self)@.navigator),
    {
        let index = self.navigator.index();
        let entry = &mut self.entry_list[index];
        entry.delete = !entry.delete;
        self.navigator.refresh();
        proof {
            lemma_count_selected_alike(old(self)@.entries, self@.entries);
        }
    }

    /// Sets the rank of the current picture; returns its index, whose data changed.
    pub fn set_rank(&mut self, rank: Rank) -> (saved: usize)
        requires
            old(self)@.wf(),
            old(self)@.capacity() > 0,
        ensures
            old(self)@.selection_counted() ==> final(self)@.selection_counted(),
            final(self)@.wf(),
            saved == old(self)@.current(),
            final(self)@ == (RepositoryView {
                entries: old(self)@.entries.update(
                    old(self)@.current(),
                    entry_with_rank(old(self)@.entries[old(self)@.current()], rank),
                ),
                navigator: final(self)@.navigator,
                ..old(self)@
            }),
            refreshed(old(self)@.navigator, final(self)@.navigator),
    {
        let index = self.navigator.index();
        let entry = &mut self.entry_list[index];
        entry.set_rank(rank);
        self.navigator.refresh();
        proof {
            lemma_count_selected_alike(old(self)@.entries, self@.entries);
        }
        index
    }

    /// Gives the current picture the label being edited; returns its index, whose data
    /// changed.
    pub fn record_label(&mut self) -> (saved: usize)
        requires
            old(self)@.wf(),
            old(self)@.capacity() > 0,
        ensures
            old(self)@.selection_counted() ==> final(self)@.selection_counted(),
            final(self)@.wf(),
            saved == old(self)@.current(),
            final(self)@ == (RepositoryView {
                entries: final(self)@.entries,
                navigator: final(self)@.navigator,
                ..old(self)@
            }),
            labelled_in(
                old(self)@.entries,
                final(self)@.entries,
                old(self)@.current(),
                old(self)@.current() + 1,
                old(self)@.field,
            ),
            refreshed(old(self)@.navigator, final(self)@.navigator),
    {
        let index = self.navigator.index();
        let entry = &mut self.entry_list[index];
        entry.set_label(self.field.as_str());
        self.navigator.refresh();
        proof {
            lemma_count_selected_alike(old(self)@.entries, self@.entries);
        }
        index
    }
}


impl Repository {
    fn update_max_selected(&mut self)
        ensures
            final(self)@ == (RepositoryView {
                max_selected: count_selected(old(self)@.entries) as usize,
                ..old(self)@
            }),
    {
        self.max_selected = selected_count(&self.entry_list);
    }

    pub fn confirm_label_edit(&mut self) -> (saved: usize)
        requires
            old(self)@.wf(),
            old(self)@.capacity() > 0,
        ensures
            old(self)@.selection_counted() ==> final(self)@.selection_counted(),
            final(self)@.wf(),
            saved == old(self)@.current(),
            final(self)@ == (RepositoryView {
                entries: final(self)@.entries,
                navigator: final(self)@.navigator,
                label_edit_mode_on: false,
                ..old(self)@
            }),
            labelled_in(
                old(self)@.entries,
                final(self)@.entries,
                old(self)@.current(),
                old(self)@.current() + 1,
                old(self)@.field,
            ),
            refreshed(old(self)@.navigator, final(self)@.navigator),
    {
        self.label_edit_mode_on = false;
        self.record_label()
    }

    /// Gives the current picture the last label typed, if one was; returns the index whose
    /// data changed.
    pub fn apply_last_label(&mut self) -> (saved: Option<usize>)
        requires
            old(self)@.wf(),
            old(self)@.capacity() > 0,
        ensures
            old(self)@.selection_counted() ==> final(self)@.selection_counted(),
            final(self)@.wf(),
            old(self)@.field.len() == 0 ==> final(self)@ == old(self)@ && saved is None,
            old(self)@.field.len() > 0 ==> {
                &&& saved == Some(old(self)@.current() as usize)
                &&& final(self)@ == (RepositoryView {
                    entries: final(self)@.entries,
                    navigator: final(self)@.navigator,
                    ..old(self)@
                })
                &&& labelled_in(
                    old(self)@.entries,
                    final(self)@.entries,
                    old(self)@.current(),
                    old(self)@.current() + 1,
                    old(self)@.field,
                )
                &&& refreshed(old(self)@.navigator, final(self)@.navigator)
            },
    {
        if !self.field.as_str().is_empty() {
            Some(self.record_label())
        } else {
            None
        }
    }

    /// Copies the label of the current picture into the field being edited, if it has one.
    pub fn copy_label(&mut self)
        requires
            old(self)@.wf(),
            old(self)@.capacity() > 0,
        ensures
            old(self)@.selection_counted() ==> final(self)@.selection_counted(),
            final(self)@ == (RepositoryView {
                field: if old(self)@.entries[old(self)@.current()].image_data.label@.len() > 0 {
                    old(self)@.entries[old(self)@.current()].image_data.label@
                } else {
                    old(self)@.field
                },
                ..old(self)@
            }),
    {
        let index = self.navigator.index();
        if let Some(label) = self.entry_list[index].image_data.label() {
            self.field = label;
        }
    }

    pub fn select_point(&mut self)
        requires
            old(self)@.wf(),
        ensures
            old(self)@.selection_counted() ==> final(self)@.selection_counted(),
            final(self)@.wf(),
            final(self)@ == (RepositoryView {
                select_start: Some(old(self)@.current() as usize),
                ..old(self)@
            }),
    {
        let index = self.navigator.index();
        self.select_start = Some(index)
    }

    pub fn cancel_point(&mut self)
        requires
            old(self)@.wf(),
        ensures
            old(self)@.selection_counted() ==> final(self)@.selection_counted(),
            final(self)@.wf(),
            final(self)@ == (RepositoryView { select_start: None, ..old(self)@ }),
    {
        self.select_start = None
    }

    /// Without a range started, toggles the selection of the current picture; with one,
    /// selects every picture from its start to the current one and ends it. Returns the
    /// indices whose data changed.
    pub fn point_select(&mut self) -> (saved: Vec<usize>)
        requires
            old(self)@.wf(),
            old(self)@.capacity() > 0,
            old(self)@.select_start is None ==> (old(
                self,
            )@.entries[old(self)@.current()].image_data.selected ==> old(self)@.max_selected > 0),
            old(self)@.select_start is None ==> (!old(
                self,
            )@.entries[old(self)@.current()].image_data.selected ==> old(self)@.max_selected
                < usize::MAX),
        ensures
            old(self)@.selection_counted() ==> final(self)@.selection_counted(),
            final(self)@.wf(),
            final(self)@ == (RepositoryView {
                entries: final(self)@.entries,
                navigator: final(self)@.navigator,
                select_start: None,
                max_selected: count_selected(final(self)@.entries) as usize,
                ..old(self)@
            }),
            refreshed(old(self)@.navigator, final(self)@.navigator),
            old(self)@.select_start is None ==> final(self)@.entries == old(self)@.entries.update(
                old(self)@.current(),
                entry_with_selected(
                    old(self)@.entries[old(self)@.current()],
                    !old(self)@.entries[old(self)@.current()].image_data.selected,
                ),
            ) && saved@ == seq![old(self)@.current() as usize],
            old(self)@.select_start is Some ==> selected_in(
                old(self)@.entries,
                final(self)@.entries,
                range_low(old(self)@),
                range_high(old(self)@) + 1,
                true,
            ) && saved@ == index_range(range_low(old(self)@), range_high(old(self)@) + 1),
    {
        let index = self.navigator.index();
        let mut saved: Vec<usize> = Vec::new();
        match self.select_start {
            None => {
                let i = self.toggle_select();
                saved.push(i);
            },
            Some(other) => {
                let (start, end) = if other <= index {
                    (other, index)
                } else {
                    (index, other)
                };
                let ghost s = self.entry_list@;
                let mut i: usize = start;
                while i < end + 1
                    invariant
                        start <= i <= end + 1,
                        end < s.len(),
                        end < self.entry_list.len(),
                        self.entry_list@.len() == s.len(),
                        self@ == (RepositoryView { entries: self@.entries, ..old(self)@ }),
                        selected_in(s, self.entry_list@, start as int, i as int, true),
                        saved@ == index_range(start as int, i as int),
                    decreases end + 1 - i,
                {
                    let entry = &mut self.entry_list[i];
                    entry.image_data.selected = true;
                    saved.push(i);
                    i = i + 1;
                    assert(saved@ =~= index_range(start as int, i as int));
                }
                self.select_start = None;
            },
        };
        self.navigator.refresh();
        self.update_max_selected();
        proof {
            lemma_count_selected_bound(self@.entries);
        }
        saved
    }

    /// Without a range started, sets the rank of the current picture; with one, sets the
    /// rank of every picture from its start to the current one and ends it. Returns the
    /// indices whose data is to be saved: only the current picture's, without a range.
    pub fn point_rank(&mut self, rank: Rank) -> (saved: Vec<usize>)
        requires
            old(self)@.wf(),
            old(self)@.capacity() > 0,
        ensures
            old(self)@.selection_counted() ==> final(self)@.selection_counted(),
            final(self)@.wf(),
            final(self)@ == (RepositoryView {
                entries: final(self)@.entries,
                navigator: final(self)@.navigator,
                select_start: None,
                ..old(self)@
            }),
            refreshed(old(self)@.navigator, final(self)@.navigator),
            old(self)@.select_start is None ==> final(self)@.entries == old(self)@.entries.update(
                old(self)@.current(),
                entry_with_rank(old(self)@.entries[old(self)@.current()], rank),
            ) && saved@ == seq![old(self)@.current() as usize],
            old(self)@.select_start is Some ==> ranked_in(
                old(self)@.entries,
                final(self)@.entries,
                range_low(old(self)@),
                range_high(old(self)@) + 1,
                rank,
            ) && saved@.len() == 0,
    {
        let index = self.navigator.index();
        let mut saved: Vec<usize> = Vec::new();
        match self.select_start {
            None => {
                let i = self.set_rank(rank);
                saved.push(i);
            },
            Some(other) => {
                let (start, end) = if other <= index {
                    (other, index)
                } else {
                    (index, other)
                };
                let ghost s = self.entry_list@;
                let mut i: usize = start;
                while i < end + 1
                    invariant
                        start <= i <= end + 1,
                        end < s.len(),
                        end < self.entry_list.len(),
                        self.entry_list@.len() == s.len(),
                        self@ == (RepositoryView { entries: self@.entries, ..old(self)@ }),
                        ranked_in(s, self.entry_list@, start as int, i as int, rank),
                    decreases end + 1 - i,
                {
                    let entry = &mut self.entry_list[i];
                    entry.image_data.rank = rank;
                    i = i + 1;
                }
                self.select_start = None;
            },
        };
        self.navigator.refresh();
        proof {
            lemma_count_selected_alike(old(self)@.entries, self@.entries);
        }
        saved
    }

    fn label_range(&mut self, start: usize, end: usize) -> (saved: Vec<usize>)
        requires
            start <= end < old(self)@.entries.len(),
        ensures
            final(self)@ == (RepositoryView { entries: final(self)@.entries, ..old(self)@ }),
            labelled_in(
                old(self)@.entries,
                final(self)@.entries,
                start as int,
                end + 1,
                old(self)@.field,
            ),
            saved@ == index_range(start as int, end + 1),
    {
        let ghost s = self.entry_list@;
        let mut saved: Vec<usize> = Vec::new();
        let mut i: usize = start;
        while i < end + 1
            invariant
                start <= i <= end + 1,
                end < s.len(),
                end < self.entry_list.len(),
                self.entry_list@.len() == s.len(),
                self@ == (RepositoryView { entries: self@.entries, ..old(self)@ }),
                labelled_in(s, self.entry_list@, start as int, i as int, self@.field),
                saved@ == index_range(start as int, i as int),
            decreases end + 1 - i,
        {
            let entry = &mut self.entry_list[i];
            entry.set_label(self.field.as_str());
            saved.push(i);
            i = i + 1;
            assert(saved@ =~= index_range(start as int, i as int));
        }
        saved
    }

    /// With a label typed: without a range started, labels the current picture; with one,
    /// labels every picture from its start to the current one and ends it. Returns the
    /// indices whose data changed.
    pub fn point_label(&mut self) -> (saved: Vec<usize>)
        requires
            old(self)@.wf(),
            old(self)@.capacity() > 0,
        ensures
            old(self)@.selection_counted() ==> final(self)@.selection_counted(),
            final(self)@.wf(),
            refreshed(old(self)@.navigator, final(self)@.navigator),
            old(self)@.field.len() == 0 ==> final(self)@ == (RepositoryView {
                navigator: final(self)@.navigator,
                ..old(self)@
            }) && saved@.len() == 0,
            old(self)@.field.len() > 0 ==> final(self)@ == (RepositoryView {
                entries: final(self)@.entries,
                navigator: final(self)@.navigator,
                select_start: None,
                ..old(self)@
            }),
            old(self)@.field.len() > 0 && old(self)@.select_start is None ==> labelled_in(
                old(self)@.entries,
                final(self)@.entries,
                old(self)@.current(),
                old(self)@.current() + 1,
                old(self)@.field,
            ) && saved@ == seq![old(self)@.current() as usize],
            old(self)@.field.len() > 0 && old(self)@.select_start is Some ==> labelled_in(
                old(self)@.entries,
                final(self)@.entries,
                range_low(old(self)@),
                range_high(old(self)@) + 1,
                old(self)@.field,
            ) && saved@ == index_range(range_low(old(self)@), range_high(old(self)@) + 1),
    {
        let mut saved: Vec<usize> = Vec::new();
        if !self.field.as_str().is_empty() {
            let index = self.navigator.index();
            match self.select_start {
                None => {
                    let i = self.record_label();
                    saved.push(i);
                },
                Some(other) => {
                    let (start, end) = if other <= index {
                        (other, index)
                    } else {
                        (index, other)
                    };
                    saved = self.label_range(start, end);
                    self.select_start = None;
                },
            }
        }
        self.navigator.refresh();
        proof {
            lemma_count_selected_alike(old(self)@.entries, self@.entries);
        }
        saved
    }

    /// Clears the label being edited, then: without a range started, clears the label of
    /// the current picture; with one, of every picture from its start to the current one,
    /// and ends it. Returns the indices whose data changed.
    pub fn point_remove_label(&mut self) -> (saved: Vec<usize>)
        requires
            old(self)@.wf(),
            old(self)@.capacity() > 0,
        ensures
            old(self)@.selection_counted() ==> final(self)@.selection_counted(),
            final(self)@.wf(),
            refreshed(old(self)@.navigator, final(self)@.navigator),
            final(self)@ == (RepositoryView {
                entries: final(self)@.entries,
                navigator: final(self)@.navigator,
                select_start: None,
                field: Seq::empty(),
                ..old(self)@
            }),
            old(self)@.select_start is None ==> labelled_in(
                old(self)@.entries,
                final(self)@.entries,
                old(self)@.current(),
                old(self)@.current() + 1,
                Seq::empty(),
            ) && saved@ == seq![old(self)@.current() as usize],
            old(self)@.select_start is Some ==> labelled_in(
                old(self)@.entries,
                final(self)@.entries,
                range_low(old(self)@),
                range_high(old(self)@) + 1,
                Seq::empty(),
            ) && saved@ == index_range(range_low(old(self)@), range_high(old(self)@) + 1),
    {
        let index = self.navigator.index();
        self.field = String::new();
        let mut saved: Vec<usize> = Vec::new();
        match self.select_start {
            None => {
                let i = self.record_label();
                saved.push(i);
            },
            Some(other) => {
                let (start, end) = if other <= index {
                    (other, index)
                } else {
                    (index, other)
                };
                saved = self.label_range(start, end);
                self.select_start = None;
            },
        };
        self.navigator.refresh();
        proof {
            lemma_count_selected_alike(old(self)@.entries, self@.entries);
        }
        saved
    }

    fn select_range(&mut self, start: usize, end: usize, value: bool) -> (saved: Vec<usize>)
        requires
            start <= end <= old(self)@.entries.len(),
        ensures
            final(self)@ == (RepositoryView {
                entries: final(self)@.entries,
                max_selected: final(self)@.max_selected,
                ..old(self)@
            }),
            selected_in(old(self)@.entries, final(self)@.entries, start as int, end as int, value),
            final(self)@.max_selected == if start < end {
                count_selected(final(self)@.entries) as usize
            } else {
                old(self)@.max_selected
            },
            saved@ == index_range(start as int, end as int),
    {
        let ghost s = self.entry_list@;
        let mut saved: Vec<usize> = Vec::new();
        let mut i: usize = start;
        while i < end
            invariant
                start <= i <= end <= s.len(),
                self.entry_list@.len() == s.len(),
                self@ == (RepositoryView {
                    entries: self@.entries,
                    max_selected: self@.max_selected,
                    ..old(self)@
                }),
                selected_in(s, self.entry_list@, start as int, i as int, value),
                self@.max_selected == if start < i {
                    count_selected(self@.entries) as usize
                } else {
                    old(self)@.max_selected
                },
                saved@ == index_range(start as int, i as int),
            decreases end - i,
        {
            let entry = &mut self.entry_list[i];
            entry.set_select(value);
            saved.push(i);
            self.update_max_selected();
            i = i + 1;
            assert(saved@ =~= index_range(start as int, i as int));
        }
        saved
    }

    /// Sets the selection of every picture of the current page; returns their indices.
    pub fn select_page(&mut self, value: bool) -> (saved: Vec<usize>)
        requires
            old(self)@.wf(),
            old(self)@.navigator.start() >= 0,
        ensures
            old(self)@.selection_counted() ==> final(self)@.selection_counted(),
            final(self)@.wf(),
            ({
                let lo = old(self)@.navigator.start();
                let hi = if lo + old(self)@.navigator.max() < old(self)@.capacity() {
                    lo + old(self)@.navigator.max()
                } else {
                    old(self)@.capacity()
                };
                &&& selected_in(old(self)@.entries, final(self)@.entries, lo, hi, value)
                &&& saved@ == index_range(lo, hi)
                &&& final(self)@ == (RepositoryView {
                    entries: final(self)@.entries,
                    navigator: final(self)@.navigator,
                    max_selected: if lo < hi {
                        count_selected(final(self)@.entries) as usize
                    } else {
                        old(self)@.max_selected
                    },
                    ..old(self)@
                })
            }),
            refreshed(old(self)@.navigator, final(self)@.navigator),
    {
        proof {
            crate::navigator::lemma_navigator_bounds(self.navigator);
        }
        let start = self.navigator.start_cell_index();
        let stop = start + self.navigator.max_cells() as usize;
        let capacity = self.navigator.capacity();
        let end = if stop < capacity {
            stop
        } else {
            capacity
        };
        let saved = if start <= end {
            self.select_range(start, end, value)
        } else {
            Vec::new()
        };
        self.navigator.refresh();
        proof {
            lemma_count_selected_bound(self@.entries);
            if !(start < end) {
                lemma_count_selected_alike(old(self)@.entries, self@.entries);
            }
        }
        saved
    }

    /// Sets the selection of every picture; returns their indices.
    pub fn select_all(&mut self, value: bool) -> (saved: Vec<usize>)
        requires
            old(self)@.wf(),
        ensures
            old(self)@.selection_counted() ==> final(self)@.selection_counted(),
            final(self)@.wf(),
            selected_in(old(self)@.entries, final(self)@.entries, 0, old(self)@.capacity(), value),
            saved@ == index_range(0, old(self)@.capacity()),
            final(self)@ == (RepositoryView {
                entries: final(self)@.entries,
                navigator: final(self)@.navigator,
                max_selected: if old(self)@.capacity() > 0 {
                    count_selected(final(self)@.entries) as usize
                } else {
                    old(self)@.max_selected
                },
                ..old(self)@
            }),
            refreshed(old(self)@.navigator, final(self)@.navigator),
    {
        let end = self.navigator.capacity();
        let saved = self.select_range(0, end, value);
        self.navigator.refresh();
        proof {
            lemma_count_selected_bound(self@.entries);
        }
        saved
    }
}


/// Whether the name of a picture holds a searched pattern.
pub open spec fn name_matches(e: Entry, pattern: Seq<char>) -> bool {
    has_infix(file_name(original_path(e.file_path@)), pattern)
}

/// Whether every picture of a list has a defined path.
pub open spec fn all_defined(s: Seq<Entry>) -> bool {
    forall|i: int| 0 <= i < s.len() ==> original_defined(#[trigger] s[i].file_path@)
}

/// Whether each picture that a jump to the picture of path `name` reads has a defined
/// path: every picture up to the first of that path (all of them if none has it).
pub open spec fn defined_until_path(s: Seq<Entry>, name: Seq<char>) -> bool {
    forall|i: int|
        0 <= i < s.len() && (forall|j: int| 0 <= j < i ==> original_path(s[j].file_path@) != name)
            ==> original_defined(#[trigger] s[i].file_path@)
}

/// Whether the pictures whose path ordering reads have a defined path, the current one
/// being at `current`: all of them for an order that compares paths, and for the random
/// order (any picture may come to precede the current one); for another order, the current
/// picture and those that come before it.
pub open spec fn sort_paths_defined(s: Seq<Entry>, o: Order, current: int) -> bool {
    if crate::sorting::uses_path(o) || o == Order::Random {
        all_defined(s)
    } else {
        forall|i: int|
            0 <= i < s.len() && (i == current || crate::sorting::comes_before(s, o, i, current))
                ==> original_defined(#[trigger] s[i].file_path@)
    }
}

/// Whether the pictures whose path ordering reads have a defined path (see
/// `sort_paths_defined`), the current one being at `current`.
pub fn sort_paths_are_defined(entries: &EntryList, order: Order, current: usize) -> (r: bool)
    requires
        current < entries.len(),
    ensures
        r == sort_paths_defined(entries@, order, current as int),
{
    let n = entries.len();
    let all = match order {
        Order::Label | Order::Colors | Order::Name | Order::Value | Order::Random => true,
        _ => false,
    };
    if !all && !crate::paths::original_is_defined(entries[current].file_path.as_str()) {
        return false;
    }
    let key = if all {
        Vec::new()
    } else {
        crate::sorting::entry_key(&entries[current], order)
    };
    let mut i: usize = 0;
    while i < n
        invariant
            i <= n == entries.len(),
            current < n,
            all == (crate::sorting::uses_path(order) || order == Order::Random),
            !all ==> key@ == crate::sorting::order_key(entries@[current as int], order),
            !all ==> original_defined(entries@[current as int].file_path@),
            forall|j: int|
                0 <= j < i && (all || j == current || crate::sorting::comes_before(
                    entries@,
                    order,
                    j,
                    current as int,
                )) ==> original_defined(#[trigger] entries@[j].file_path@),
        decreases n - i,
    {
        let reads = if all || i == current {
            true
        } else {
            let k = crate::sorting::entry_key(&entries[i], order);
            crate::sorting::less_keys(k.as_slice(), key.as_slice()) || (
            crate::sorting::equal_keys(k.as_slice(), key.as_slice()) && i < current)
        };
        if reads && !crate::paths::original_is_defined(entries[i].file_path.as_str()) {
            return false;
        }
        i = i + 1;
    }
    true
}

/// Whether each picture that a search for `pattern` reads has a name: every picture up to
/// the first whose name holds the text (all of them if none does).
pub open spec fn named_until_match(s: Seq<Entry>, pattern: Seq<char>) -> bool {
    forall|i: int|
        0 <= i < s.len() && (forall|j: int| 0 <= j < i ==> !name_matches(s[j], pattern))
            ==> original_named(#[trigger] s[i].file_path@)
}

/// `b` is `a` after a jump to the first picture whose path is `name`, if there is one.
pub open spec fn jumped_to_name(a: RepositoryView, b: RepositoryView, name: Seq<char>) -> bool {
    &&& (forall|i: int| 0 <= i < a.capacity() ==> original_path(a.entries[i].file_path@) != name)
        ==> b == a
    &&& forall|i: int|
        0 <= i < a.capacity() && original_path(a.entries[i].file_path@) == name && (forall|j: int|
            0 <= j < i ==> original_path(a.entries[j].file_path@) != name) ==> jumped(a, b, i)
}

/// The title of the window: selection count and range mark, order, place in the list,
/// title of the current picture, index being typed, real size mark, and the label or
/// search being typed.
pub open spec fn repository_title(v: RepositoryView) -> Seq<char> {
    if v.capacity() == 0 {
        Seq::empty()
    } else {
        "S:["@ + decimal(v.max_selected as nat) + "] "@ + (if v.select_start is Some {
            "…"@
        } else {
            Seq::empty()
        }) + " ordered by "@ + (match v.order {
            Some(o) => order_name(o),
            None => "??"@,
        }) + " "@ + decimal(v.current() as nat) + "/"@ + decimal((v.capacity() - 1) as nat)
            + "  "@ + entry_title(v.entries[v.current()]) + " "@ + (match v.register {
            Some(r) => decimal(r as nat),
            None => Seq::empty(),
        }) + " "@ + (if v.real_size_on {
            "*"@
        } else {
            Seq::empty()
        }) + " "@ + (if v.label_edit_mode_on {
            "Label:"@ + v.field
        } else {
            Seq::empty()
        }) + " "@ + (if v.search_edit_mode_on {
            "Search:"@ + v.field
        } else {
            Seq::empty()
        })
    }
}

/// `b` is `a` after a search for the text being edited: with no text nothing changes; with
/// one, nothing changes unless some picture's name holds it, and then the first such
/// picture becomes the current one.
pub open spec fn searched(a: RepositoryView, b: RepositoryView) -> bool {
    &&& a.field.len() == 0 ==> b == a
    &&& a.field.len() > 0 ==> ((forall|i: int|
        0 <= i < a.capacity() ==> !name_matches(a.entries[i], a.field)) ==> b == a)
    &&& a.field.len() > 0 ==> forall|i: int|
        0 <= i < a.capacity() && name_matches(a.entries[i], a.field) && (forall|j: int|
            0 <= j < i ==> !name_matches(a.entries[j], a.field)) ==> jumped(a, b, i)
}

/// A search looks at the file names of the pictures only (what follows the last '/' of
/// each picture's path), never at their directories: where no file name holds the text,
/// nothing changes, even if every directory holds it; where some does, the first picture
/// whose file name holds it becomes the current one, the pictures unchanged.
pub proof fn lemma_search_looks_at_file_names(a: RepositoryView, b: RepositoryView)
    requires
        a.wf(),
        a.navigator.cpr() > 0,
        searched(a, b),
    ensures
        a.field.len() > 0 && (forall|i: int|
            0 <= i < a.capacity() ==> !has_infix(
                file_name(original_path(#[trigger] a.entries[i].file_path@)),
                a.field,
            )) ==> b == a,
        forall|i: int|
            0 <= i < a.capacity() && a.field.len() > 0 && has_infix(
                file_name(original_path(#[trigger] a.entries[i].file_path@)),
                a.field,
            ) && (forall|j: int|
                0 <= j < i ==> !has_infix(file_name(original_path(a.entries[j].file_path@)), a.field))
                ==> b.current() == i && b.entries == a.entries,
{
    assert forall|i: int|
        0 <= i < a.capacity() && a.field.len() > 0 && has_infix(
            file_name(original_path(#[trigger] a.entries[i].file_path@)),
            a.field,
        ) && (forall|j: int|
            0 <= j < i ==> !has_infix(file_name(original_path(a.entries[j].file_path@)), a.field))
            implies b.current() == i && b.entries == a.entries by {
        assert(name_matches(a.entries[i], a.field));
        assert(forall|j: int| 0 <= j < i ==> !name_matches(a.entries[j], a.field));
        assert(jumped(a, b, i));
        crate::navigator::lemma_at_index_current(a.navigator, b.navigator, i);
    }
}

impl Repository {
    /// Moves to the first picture whose name holds the text being edited, if there is one.
    pub fn search(&mut self)
        requires
            old(self)@.wf(),
            old(self)@.field.len() > 0 ==> named_until_match(old(self)@.entries, old(self)@.field) && old(
                self,
            )@.navigator.cpr() > 0,
        ensures
            old(self)@.selection_counted() ==> final(self)@.selection_counted(),
            final(self)@.wf(),
            old(self)@.field.len() == 0 ==> final(self)@ == old(self)@,
            old(self)@.field.len() > 0 ==> ((forall|i: int|
                0 <= i < old(self)@.capacity() ==> !name_matches(
                    old(self)@.entries[i],
                    old(self)@.field,
                )) ==> final(self)@ == old(self)@),
            old(self)@.field.len() > 0 ==> forall|i: int|
                0 <= i < old(self)@.capacity() && name_matches(
                    old(self)@.entries[i],
                    old(self)@.field,
                ) && (forall|j: int|
                    0 <= j < i ==> !name_matches(old(self)@.entries[j], old(self)@.field))
                    ==> jumped(old(self)@, final(self)@, i),
            searched(old(self)@, final(self)@),
    {
        let pattern = chars_of(self.field.as_str());
        if pattern.len() > 0 {
            let mut i: usize = 0;
            let n = self.entry_list.len();
            while i < n
                invariant
                    i <= n == self@.entries.len(),
                    self@ == old(self)@,
                    pattern@ == self@.field,
                    pattern@.len() > 0,
                    self@.wf(),
                    self@.navigator.cpr() > 0,
                    named_until_match(self@.entries, pattern@),
                    forall|j: int| 0 <= j < i ==> !name_matches(self@.entries[j], pattern@),
                decreases n - i,
            {
                assert(original_named(self@.entries[i as int].file_path@));
                let name = self.entry_list[i].original_file_name();
                let name_chars = chars_of(name.as_str());
                if contains(name_chars.as_slice(), pattern.as_slice()) {
                    self.move_to_index(i);
                    return;
                }
                i = i + 1;
            }
        }
    }

    pub fn confirm_search_edit(&mut self)
        requires
            old(self)@.wf(),
            old(self)@.field.len() > 0 ==> named_until_match(old(self)@.entries, old(self)@.field) && old(
                self,
            )@.navigator.cpr() > 0,
        ensures
            old(self)@.selection_counted() ==> final(self)@.selection_counted(),
            final(self)@.wf(),
            ({
                let a = RepositoryView { search_edit_mode_on: false, ..old(self)@ };
                &&& a.field.len() == 0 ==> final(self)@ == a
                &&& a.field.len() > 0 ==> ((forall|i: int|
                    0 <= i < a.capacity() ==> !name_matches(a.entries[i], a.field))
                    ==> final(self)@ == a)
                &&& a.field.len() > 0 ==> forall|i: int|
                    0 <= i < a.capacity() && name_matches(a.entries[i], a.field) && (forall|j: int|
                        0 <= j < i ==> !name_matches(a.entries[j], a.field)) ==> jumped(
                        a,
                        final(self)@,
                        i,
                    )
            }),
            searched(RepositoryView { search_edit_mode_on: false, ..old(self)@ }, final(self)@),
    {
        self.search_edit_mode_on = false;
        self.search()
    }

    fn jump_to_name(&mut self, name: &String)
        requires
            old(self)@.wf(),
            defined_until_path(old(self)@.entries, name@),
            old(self)@.capacity() > 0 ==> old(self)@.navigator.cpr() > 0,
        ensures
            final(self)@.wf(),
            final(self)@ == (RepositoryView {
                navigator: final(self)@.navigator,
                real_size_on: final(self)@.real_size_on,
                ..old(self)@
            }),
            jumped_to_name(old(self)@, final(self)@, name@),
            final(self)@.navigator.cpr() == old(self)@.navigator.cpr(),
            final(self)@.real_size_on ==> old(self)@.real_size_on,
    {
        let target = chars_of(name.as_str());
        let n = self.entry_list.len();
        let mut i: usize = 0;
        while i < n
            invariant
                i <= n == self@.entries.len(),
                self@ == old(self)@,
                target@ == name@,
                self@.wf(),
                self@.capacity() > 0 ==> self@.navigator.cpr() > 0,
                defined_until_path(self@.entries, name@),
                forall|j: int|
                    0 <= j < i ==> original_path(self@.entries[j].file_path@) != name@,
            decreases n - i,
        {
            assert(original_defined(self@.entries[i as int].file_path@));
            let path = self.entry_list[i].original_file_path();
            let path_chars = chars_of(path.as_str());
            if chars_equal(path_chars.as_slice(), target.as_slice()) {
                self.navigator.move_to_index(i);
                self.real_size_on = false;
                return;
            }
            i = i + 1;
        }
    }

    /// Orders the pictures and stays on the current one.
    pub fn sort_by(&mut self, order: Order)
        requires
            old(self)@.wf(),
            old(self)@.capacity() > 0 ==> sort_paths_defined(
                old(self)@.entries,
                order,
                old(self)@.current(),
            ) && old(self)@.navigator.cpr() > 0,
        ensures
            old(self)@.selection_counted() ==> final(self)@.selection_counted(),
            final(self)@.wf(),
            final(self)@.capacity() == old(self)@.capacity(),
            final(self)@.navigator.cpr() == old(self)@.navigator.cpr(),
            final(self)@.real_size_on ==> old(self)@.real_size_on,
            old(self)@.capacity() == 0 ==> final(self)@ == old(self)@,
            old(self)@.capacity() > 0 ==> {
                let name = original_path(old(self)@.entries[old(self)@.current()].file_path@);
                let sorted = RepositoryView {
                    entries: final(self)@.entries,
                    order: Some(order),
                    ..old(self)@
                };
                &&& order == Order::Random ==> final(self)@.entries.to_multiset() == old(
                    self,
                )@.entries.to_multiset()
                &&& order != Order::Random ==> exists|p: Seq<int>|
                    sorted_as(old(self)@.entries, final(self)@.entries, order, p)
                &&& jumped_to_name(sorted, final(self)@, name)
                &&& final(self)@ == RepositoryView {
                    navigator: final(self)@.navigator,
                    real_size_on: final(self)@.real_size_on,
                    ..sorted
                }
                &&& original_path(final(self)@.entries[final(self)@.current()].file_path@) == name
            },
    {
        if self.navigator.capacity() == 0 {
            return ;
        }
        let index = self.navigator.index();
        let name = self.entry_list[index].original_file_path();
        let ghost old_entries = self.entry_list@;
        match order {
            Order::Random => shuffle(&mut self.entry_list),
            _ => sort_entries(&mut self.entry_list, order),
        }
        let ghost witness: int;
        proof {
            let t = self.entry_list@;
            if order == Order::Random {
                broadcast use vstd::seq_lib::group_to_multiset_ensures;
                assert(t.to_multiset().len() == old_entries.to_multiset().len());
                assert(t.len() == old_entries.len());
                assert forall|i: int| 0 <= i < t.len() implies original_defined(
                    #[trigger] t[i].file_path@,
                ) by {
                    lemma_member_of_permutation(old_entries, t, i);
                }
                lemma_member_of_permutation(t, old_entries, index as int);
                witness = choose|j: int| 0 <= j < t.len() && t[j] == old_entries[index as int];
            } else {
                let p = choose|p: Seq<int>| sorted_as(old_entries, t, order, p);
                assert(t.len() == old_entries.len());
                assert(crate::sorting::lists(p, index as int));
                witness = choose|k: int| 0 <= k < p.len() && p[k] == index as int;
                assert(t[witness] == old_entries[index as int]);
                assert forall|i: int|
                    0 <= i < t.len() && (forall|j: int|
                        0 <= j < i ==> original_path(t[j].file_path@) != name@)
                        implies original_defined(#[trigger] t[i].file_path@) by {
                    assert(t[i] == old_entries[p[i]]);
                    if !(crate::sorting::uses_path(order)) {
                        if i > witness {
                            assert(original_path(t[witness].file_path@) == name@);
                        } else if i < witness {
                            assert(crate::sorting::comes_before(old_entries, order, p[i], p[witness]));
                        }
                    }
                }
            }
            assert(defined_until_path(t, name@));
        }
        self.order = Some(order);
        let ghost sorted = self@;
        self.jump_to_name(&name);
        proof {
            lemma_jump_to_present_name(sorted, self@, name@, witness);
            if order == Order::Random {
                lemma_count_selected_permutation(old_entries, self@.entries);
            } else {
                let p = choose|p: Seq<int>| sorted_as(old_entries, self@.entries, order, p);
                lemma_count_selected_sorted(old_entries, self@.entries, order, p);
            }
        }
    }

    /// Keeps the pictures from index `low_index` (or the first) to index `high_index` (or
    /// the last), and starts again from the first of them.
    pub fn slice(&mut self, low_index: Option<usize>, high_index: Option<usize>)
        requires
            old(self)@.wf(),
            high_index matches Some(h) ==> h < usize::MAX,
            ({
                let start = match low_index {
                    Some(l) => l as int,
                    None => 0,
                };
                let end = match high_index {
                    Some(h) => h + 1,
                    None => old(self)@.capacity(),
                };
                start <= end <= old(self)@.capacity()
            }),
        ensures
            final(self)@.wf(),
            ({
                let start = match low_index {
                    Some(l) => l as int,
                    None => 0,
                };
                let end = match high_index {
                    Some(h) => h + 1,
                    None => old(self)@.capacity(),
                };
                &&& final(self)@ == (RepositoryView {
                    entries: old(self)@.entries.subrange(start, end),
                    navigator: final(self)@.navigator,
                    select_start: None,
                    ..old(self)@
                })
                &&& final(self)@.navigator.cpr() == old(self)@.navigator.cpr()
                &&& final(self)@.navigator.start() == 0
                &&& final(self)@.navigator.pos() == (0i32, 0i32)
                &&& final(self)@.navigator.changed()
            }),
    {
        let start = match low_index {
            None => 0,
            Some(index) => index,
        };
        let end = match high_index {
            None => self.entry_list.len(),
            Some(index) => index + 1,
        };
        self.entry_list.truncate(end);
        let kept = self.entry_list.split_off(start);
        let ghost before = old(self)@.entries;
        assert(kept@ =~= before.subrange(start as int, end as int));
        self.entry_list = kept;
        proof {
            crate::navigator::lemma_page_size(self.navigator);
            crate::navigator::lemma_navigator_bounds(self.navigator);
        }
        self.navigator = Navigator::new(self.entry_list.len() as i32, self.navigator.cells_per_row());
        self.select_start = None
    }

    #[verifier::spinoff_prover]
    pub fn title_display(&self) -> (s: String)
        requires
            self@.wf(),
            self@.capacity() > 0 ==> original_named(self@.entries[self@.current()].file_path@),
        ensures
            s@ == repository_title(self@),
    {
        if self.navigator.capacity() == 0 {
            return String::new();
        }
        let index = self.navigator.index();
        let mut v: Vec<char> = Vec::new();
        push_str(&mut v, "S:[");
        push_decimal(&mut v, self.max_selected as u64);
        push_str(&mut v, "] ");
        if self.select_start.is_some() {
            push_str(&mut v, "…");
        }
        push_str(&mut v, " ordered by ");
        match self.order {
            Some(o) => push_str(&mut v, o.to_string().as_str()),
            None => push_str(&mut v, "??"),
        }
        push_str(&mut v, " ");
        push_decimal(&mut v, index as u64);
        push_str(&mut v, "/");
        push_decimal(&mut v, (self.navigator.capacity() - 1) as u64);
        push_str(&mut v, "  ");
        let entry = &self.entry_list[index];
        push_str(&mut v, entry.title_text().as_str());
        push_str(&mut v, " ");
        match self.register {
            Some(r) => push_decimal(&mut v, r as u64),
            None => {},
        }
        push_str(&mut v, " ");
        if self.real_size_on {
            push_str(&mut v, "*");
        }
        push_str(&mut v, " ");
        if self.label_edit_mode_on {
            push_str(&mut v, "Label:");
            push_str(&mut v, self.field.as_str());
        }
        push_str(&mut v, " ");
        if self.search_edit_mode_on {
            push_str(&mut v, "Search:");
            push_str(&mut v, self.field.as_str());
        }
        string_of(v.as_slice())
    }
}

/// The first picture of a list whose path is `name`, given that picture `i` has it.
pub(crate) proof fn lemma_first_with_path(s: Seq<Entry>, name: Seq<char>, i: int) -> (k: int)
    requires
        0 <= i < s.len(),
        original_path(s[i].file_path@) == name,
    ensures
        0 <= k <= i,
        original_path(s[k].file_path@) == name,
        forall|j: int| 0 <= j < k ==> original_path(#[trigger] s[j].file_path@) != name,
    decreases i,
{
    if exists|j: int| 0 <= j < i && original_path(#[trigger] s[j].file_path@) == name {
        let j = choose|j: int| 0 <= j < i && original_path(#[trigger] s[j].file_path@) == name;
        lemma_first_with_path(s, name, j)
    } else {
        i
    }
}

/// A jump to a name that a picture of the list has lands on a picture with that name.
proof fn lemma_jump_to_present_name(a: RepositoryView, b: RepositoryView, name: Seq<char>, i: int)
    requires
        a.wf(),
        b.wf(),
        a.navigator.cpr() > 0,
        0 <= i < a.capacity(),
        original_path(a.entries[i].file_path@) == name,
        jumped_to_name(a, b, name),
    ensures
        b.entries == a.entries,
        original_path(b.entries[b.current()].file_path@) == name,
{
    let k = lemma_first_with_path(a.entries, name, i);
    assert(jumped(a, b, k));
    crate::navigator::lemma_at_index_current(a.navigator, b.navigator, k);
}

/// A member of a rearranged list was a member of the list.
pub(crate) proof fn lemma_member_of_permutation(s: Seq<Entry>, t: Seq<Entry>, i: int)
    requires
        t.to_multiset() == s.to_multiset(),
        0 <= i < t.len(),
    ensures
        exists|j: int| 0 <= j < s.len() && s[j] == t[i],
{
    broadcast use vstd::seq_lib::group_to_multiset_ensures;

    assert(t.contains(t[i]));
    assert(s.to_multiset().count(t[i]) > 0);
    assert(s.contains(t[i]));
}


impl Repository {
    /// The list that saving the selection writes: the picture, thumbnail and data file of
    /// each selected picture, in order.
    pub fn save_select_entries(&self) -> (r: Vec<String>)
        requires
            forall|i: int|
                0 <= i < self@.capacity() && (#[trigger] self@.entries[i]).image_data.selected
                    ==> original_named(self@.entries[i].file_path@) && thumbnail_defined(
                    self@.entries[i].file_path@,
                ),
        ensures
            string_views(r@) == picked_files(self@.entries, true),
    {
        assert forall|i: int|
            0 <= i < self.entry_list.len() && picked(#[trigger] self.entry_list@[i], true)
                implies original_named(self.entry_list@[i].file_path@) && thumbnail_defined(
            self.entry_list@[i].file_path@,
        ) by {
            assert(self@.entries[i] == self.entry_list@[i]);
        }
        files_of_picked(&self.entry_list, true)
    }

    /// The files that deleting the selection removes: the picture, thumbnail and data file
    /// of each selected picture, in order.
    pub fn delete_select_entries(&self) -> (r: Vec<String>)
        requires
            forall|i: int|
                0 <= i < self@.capacity() && (#[trigger] self@.entries[i]).image_data.selected
                    ==> original_named(self@.entries[i].file_path@) && thumbnail_defined(
                    self@.entries[i].file_path@,
                ),
        ensures
            string_views(r@) == picked_files(self@.entries, true),
    {
        assert forall|i: int|
            0 <= i < self.entry_list.len() && picked(#[trigger] self.entry_list@[i], true)
                implies original_named(self.entry_list@[i].file_path@) && thumbnail_defined(
            self.entry_list@[i].file_path@,
        ) by {
            assert(self@.entries[i] == self.entry_list@[i]);
        }
        files_of_picked(&self.entry_list, true)
    }

    /// The files that deleting the pictures marked for deletion removes: the picture,
    /// thumbnail and data file of each, in order.
    pub fn delete_entries(&self) -> (r: Vec<String>)
        requires
            forall|i: int|
                0 <= i < self@.capacity() && (#[trigger] self@.entries[i]).delete
                    ==> original_named(self@.entries[i].file_path@) && thumbnail_defined(
                    self@.entries[i].file_path@,
                ),
        ensures
            string_views(r@) == picked_files(self@.entries, false),
    {
        assert forall|i: int|
            0 <= i < self.entry_list.len() && picked(#[trigger] self.entry_list@[i], false)
                implies original_named(self.entry_list@[i].file_path@) && thumbnail_defined(
            self.entry_list@[i].file_path@,
        ) by {
            assert(self@.entries[i] == self.entry_list@[i]);
        }
        files_of_picked(&self.entry_list, false)
    }

    /// The copies that copying the selection into `target` makes: the picture, thumbnail
    /// and data file of each selected picture, in order, each to its own name there.
    pub fn copy_select_entries(&self, target: &str) -> (r: Vec<(String, String)>)
        requires
            forall|i: int|
                0 <= i < self@.capacity() && (#[trigger] self@.entries[i]).image_data.selected
                    ==> files_named(self@.entries[i]),
        ensures
            pair_views(r@) == selection_copies(self@.entries, target@),
    {
        assert forall|i: int|
            0 <= i < self.entry_list.len() && (#[trigger] self.entry_list@[i]).image_data.selected
                implies files_named(self.entry_list@[i]) by {
            assert(self@.entries[i] == self.entry_list@[i]);
        }
        selection_copy_list(&self.entry_list, target)
    }

    /// The copy of the current picture into the current directory, under its own name.
    pub fn copy_temp(&self) -> (r: (String, String))
        requires
            self@.wf(),
            self@.capacity() > 0,
            original_named(self@.entries[self@.current()].file_path@),
        ensures
            r.0@ == original_path(self@.entries[self@.current()].file_path@),
            r.1@ == copy_destination(
                original_path(self@.entries[self@.current()].file_path@),
                "."@,
            ),
    {
        let entry = &self.entry_list[self.navigator.index()];
        copy_entry_filename_to_current_dir(entry)
    }
}


/// The order of a list after sorting it by `order`: shuffled for the random order, else
/// sorted stably by the keys of the order.
pub open spec fn arranged(s: Seq<Entry>, t: Seq<Entry>, order: Order) -> bool {
    if order == Order::Random {
        t.to_multiset() == s.to_multiset()
    } else {
        exists|p: Seq<int>| sorted_as(s, t, order, p)
    }
}

/// The index of the first picture that `from` keeps.
pub open spec fn slice_start(low_index: Option<usize>) -> int {
    match low_index {
        Some(l) => l as int,
        None => 0,
    }
}

/// The index after the last picture that `to` keeps, in a list of `len` pictures.
pub open spec fn slice_end(high_index: Option<usize>, len: int) -> int {
    match high_index {
        Some(h) => h + 1,
        None => len,
    }
}

/// What the options make of the pictures read: the pictures ordered as the options choose
/// and cut to the range of `from` and `to`, on the picture of `index`, with palette display
/// as asked and the targets given.
pub open spec fn set_up_as(
    args: Args,
    s: Seq<Entry>,
    copy_selection_target: Option<Seq<char>>,
    move_selection_target: Option<Seq<char>>,
    all_label_move_target: Option<Seq<char>>,
    repo: RepositoryView,
) -> bool {
    let start = slice_start(args.from);
    let end = slice_end(args.to, s.len() as int);
    let order = chosen_order(args);
    &&& repo.wf()
    &&& exists|t: Seq<Entry>| arranged(s, t, order) && repo.entries == t.subrange(start, end)
    &&& repo.order == Some(
        if s.len() > 0 {
            order
        } else {
            Order::Random
        },
    )
    &&& repo.navigator.cpr() == grid_size_of(args.grid, args.thumbnails)
    &&& repo.current() == match args.index {
        Some(i) => i as int,
        None => 0,
    }
    &&& repo.select_start is None
    &&& repo.register is None
    &&& !repo.real_size_on
    &&& repo.palette_extract_on == args.extraction
    &&& repo.max_selected == count_selected(s)
    &&& !repo.label_edit_mode_on
    &&& repo.copy_selection_target == copy_selection_target
    &&& repo.move_selection_target == move_selection_target
    &&& repo.all_label_move_target == all_label_move_target
    &&& repo.sample == args.sample
    &&& repo.grid_limit_on
    &&& !repo.search_edit_mode_on
    &&& repo.field == Seq::<char>::empty()
}

/// Whether the index asked for lies beyond the pictures that the range keeps.
pub open spec fn index_out_of_range(args: Args, len: int) -> bool {
    args.index matches Some(i) && i >= slice_end(args.to, len) - slice_start(args.from)
}

/// The repository that the options make of the pictures read (see `set_up_as`); an index
/// beyond the pictures kept is an error.
pub fn setup_repository(
    args: &Args,
    entry_list: EntryList,
    copy_selection_target: Option<String>,
    move_selection_target: Option<String>,
    all_label_move_target: Option<String>,
) -> (r: Result<Repository, String>)
    requires
        entry_list.len() <= i32::MAX,
        sort_paths_defined(entry_list@, chosen_order(*args), 0),
        args.to matches Some(h) ==> h < usize::MAX,
        slice_start(args.from) <= slice_end(args.to, entry_list.len() as int) <= entry_list.len(),
    ensures
        r is Err <==> index_out_of_range(*args, entry_list.len() as int),
        r matches Err(e) ==> e@ == "entry index out of range"@,
        r matches Ok(repo) ==> set_up_as(
            *args,
            entry_list@,
            opt_view(copy_selection_target),
            opt_view(move_selection_target),
            opt_view(all_label_move_target),
            repo@,
        ),
{
    let ghost s = entry_list@;
    let grid = args.grid_size();
    assert(1 <= grid <= 10);
    assert(grid * grid <= 100) by (nonlinear_arith)
        requires
            1 <= grid <= 10,
    ;
    let order = args.order();
    let mut repository = Repository::from_entries(
        entry_list,
        grid,
        copy_selection_target,
        move_selection_target,
        all_label_move_target,
        args.sample(),
    );
    assert(repository@.current() == 0) by {
        let c = repository@.navigator.cpr();
        assert(0 * c == 0) by (nonlinear_arith);
    }
    assert(order == chosen_order(*args));
    assert(repository@.capacity() > 0 ==> sort_paths_defined(repository@.entries, order, 0));
    repository.sort_by(order);
    let ghost t = repository@.entries;
    proof {
        if s.len() == 0 {
            assert(t == s);
            if order == Order::Random {
            } else {
                assert(sorted_as(s, t, order, Seq::<int>::empty()));
            }
        }
        assert(arranged(s, t, order));
    }
    repository.slice(args.from, args.to);
    assert(repository@.current() == 0) by {
        let c = repository@.navigator.cpr();
        assert(0 * c == 0) by (nonlinear_arith);
    }
    match args.index {
        Some(index) => {
            if repository.can_move_to_index(index) {
                let ghost before = repository@;
                repository.move_to_index(index);
                proof {
                    crate::navigator::lemma_at_index_current(
                        before.navigator,
                        repository@.navigator,
                        index as int,
                    );
                }
            } else {
                return Err(String::from_str("entry index out of range"));
            }
        },
        None => {},
    }
    let ghost placed = repository@.current();
    if args.extraction {
        repository.toggle_palette_extract();
    }
    assert(repository@.current() == placed);
    proof {
        let start = slice_start(args.from);
        let end = slice_end(args.to, s.len() as int);
        assert(arranged(s, t, order) && repository@.entries == t.subrange(start, end));
        assert(exists|t2: Seq<Entry>|
            arranged(entry_list@, t2, order) && repository@.entries == t2.subrange(start, end));
    }
    Ok(repository)
}


/// What starting the program comes to, once the target directories are checked and the
/// pictures read.
pub enum InitStep {
    /// Stop, with this message.
    Stop(String),
    /// Make the missing thumbnails and image data of these pictures, then stop with the
    /// message.
    UpdateThumbnails(EntryList, String),
    /// Move the pictures of these that carry the label (second) into the target directory
    /// (third), then stop as `label_move_end` says.
    MoveLabel(EntryList, String, String),
    /// Browse this repository.
    Browse(Repository),
}

/// Whether a target directory given as an option is missing.
pub open spec fn target_missing(target: Option<String>, exists: bool) -> bool {
    target is Some && !exists
}

/// The first missing target directory of the three that the options may give, checked in
/// the order: labelled pictures' target, copy target, move target.
pub open spec fn first_missing_target(
    args: Args,
    all_label_exists: bool,
    copy_exists: bool,
    move_exists: bool,
) -> Option<Seq<char>> {
    if target_missing(args.all_label_move_target, all_label_exists) {
        Some(args.all_label_move_target->0@)
    } else if target_missing(args.copy_selection, copy_exists) {
        Some(args.copy_selection->0@)
    } else if target_missing(args.move_selection, move_exists) {
        Some(args.move_selection->0@)
    } else {
        None
    }
}

/// Whether starting goes as far as building a repository of the pictures read.
pub open spec fn browses(args: Args, targets_ok: bool, read: Result<EntryList, String>) -> bool {
    targets_ok && read is Ok && !args.update_image_data && args.move_label is None
}

/// Decides how the program starts. `all_label_exists`, `copy_exists` and `move_exists` tell
/// whether the target directories of the options exist, `read` is what reading the pictures
/// gave (see `read_entries`). A missing target stops with its message, the first in the
/// order of `first_missing_target`; then a failed read stops with its error; then updating
/// image data, then moving labelled pictures, is all that is done; else the repository is
/// set up as `setup_repository` does, or the start stops on an index out of range.
pub fn init_repository(
    args: &Args,
    all_label_exists: bool,
    copy_exists: bool,
    move_exists: bool,
    read: Result<EntryList, String>,
) -> (r: InitStep)
    requires
        first_missing_target(*args, all_label_exists, copy_exists, move_exists) is None
            && read is Ok && !args.update_image_data ==> (args.move_label matches Some(v)
            ==> v.len() >= 2),
        browses(
            *args,
            first_missing_target(*args, all_label_exists, copy_exists, move_exists) is None,
            read,
        ) ==> ({
            let l = read->Ok_0;
            &&& l.len() <= i32::MAX
            &&& sort_paths_defined(l@, chosen_order(*args), 0)
            &&& args.to matches Some(h) ==> h < usize::MAX
            &&& slice_start(args.from) <= slice_end(args.to, l.len() as int) <= l.len()
        }),
    ensures
        ({
            let missing = first_missing_target(*args, all_label_exists, copy_exists, move_exists);
            let targets_ok = missing is None;
            &&& missing matches Some(t) ==> (r matches InitStep::Stop(m) && m@
                == missing_path_message(t))
            &&& targets_ok ==> (read matches Err(e) ==> (r matches InitStep::Stop(m) && m@ == e@))
            &&& (targets_ok && args.update_image_data) ==> (read matches Ok(l) ==> (
            r matches InitStep::UpdateThumbnails(l2, m) && l2@ == l@ && m@
                == "updating thumbnails done"@))
            &&& (targets_ok && !args.update_image_data) ==> (read matches Ok(l) ==> (
            args.move_label matches Some(v) ==> (r matches InitStep::MoveLabel(l2, label, target)
                && l2@ == l@ && label@ == v[0]@ && target@ == v[1]@)))
            &&& browses(*args, targets_ok, read) ==> (read matches Ok(l) ==> (
            index_out_of_range(*args, l.len() as int) ==> (r matches InitStep::Stop(m) && m@
                == "entry index out of range"@)))
            &&& browses(*args, targets_ok, read) ==> (read matches Ok(l) ==> (
            !index_out_of_range(*args, l.len() as int) ==> (r matches InitStep::Browse(repo)
                && set_up_as(
                *args,
                l@,
                opt_view(args.copy_selection),
                opt_view(args.move_selection),
                opt_view(args.all_label_move_target),
                repo@,
            ))))
        }),
{
    let all_label_move_target = match args.all_label_move_target(all_label_exists) {
        Ok(t) => t,
        Err(e) => return InitStep::Stop(e),
    };
    let copy_selection_target = match args.copy_selection_target(copy_exists) {
        Ok(t) => t,
        Err(e) => return InitStep::Stop(e),
    };
    let move_selection_target = match args.move_selection_target(move_exists) {
        Ok(t) => t,
        Err(e) => return InitStep::Stop(e),
    };
    let entry_list = match read {
        Ok(l) => l,
        Err(e) => return InitStep::Stop(e),
    };
    if args.update_image_data {
        return InitStep::UpdateThumbnails(entry_list, String::from_str("updating thumbnails done"));
    }
    match &args.move_label {
        Some(parameters) => {
            let label = string_of(chars_of(parameters[0].as_str()).as_slice());
            let target = string_of(chars_of(parameters[1].as_str()).as_slice());
            return InitStep::MoveLabel(entry_list, label, target);
        },
        None => {},
    }
    match setup_repository(
        args,
        entry_list,
        copy_selection_target,
        move_selection_target,
        all_label_move_target,
    ) {
        Ok(repository) => InitStep::Browse(repository),
        Err(e) => InitStep::Stop(e),
    }
}

/// The message that ends a move of labelled pictures: the error, if the move failed.
pub fn label_move_end(outcome: Result<(), String>) -> (m: String)
    ensures
        outcome is Ok ==> m@ == "move entries done"@,
        outcome matches Err(e) ==> m@ == e@,
{
    match outcome {
        Ok(()) => String::from_str("move entries done"),
        Err(e) => e,
    }
}


impl Repository {
    /// The pictures, in order.
    pub fn entries(&self) -> (r: &EntryList)
        ensures
            r@ == self@.entries,
    {
        &self.entry_list
    }

    /// The directory to copy the selection to, if any.
    pub fn copy_selection_target(&self) -> (r: Option<String>)
        ensures
            opt_view(r) == self@.copy_selection_target,
    {
        match &self.copy_selection_target {
            Some(t) => Some(t.clone()),
            None => None,
        }
    }

    /// The directory to move the selection to, if any.
    pub fn move_selection_target(&self) -> (r: Option<String>)
        ensures
            opt_view(r) == self@.move_selection_target,
    {
        match &self.move_selection_target {
            Some(t) => Some(t.clone()),
            None => None,
        }
    }

    /// The directory under which labelled pictures are moved, if any.
    pub fn all_label_move_target(&self) -> (r: Option<String>)
        ensures
            opt_view(r) == self@.all_label_move_target,
    {
        match &self.all_label_move_target {
            Some(t) => Some(t.clone()),
            None => None,
        }
    }
}

}

verus! {

/// Whether the title of a repository is made of the selected count `count`, something
/// (`mark`), the place of the current picture among all of them, its title, and the rest
/// (`tail`).
pub open spec fn title_shows(v: RepositoryView, count: nat, mark: Seq<char>, tail: Seq<char>) -> bool {
    repository_title(v) == "S:["@ + decimal(count) + "] "@ + mark + decimal(v.current() as nat)
        + "/"@ + decimal((v.capacity() - 1) as nat) + "  "@ + entry_title(v.entries[v.current()])
        + tail
}

proof fn lemma_title_regrouped(
    p: Seq<char>,
    a: Seq<char>,
    o: Seq<char>,
    b: Seq<char>,
    s1: Seq<char>,
    d1: Seq<char>,
    sl: Seq<char>,
    d2: Seq<char>,
    sp: Seq<char>,
    et: Seq<char>,
    rg: Seq<char>,
    rs: Seq<char>,
    lb: Seq<char>,
    sr: Seq<char>,
)
    ensures
        p + a + o + b + s1 + d1 + sl + d2 + sp + et + s1 + rg + s1 + rs + s1 + lb + s1 + sr == p
            + (a + o + b + s1) + d1 + sl + d2 + sp + et + (s1 + rg + s1 + rs + s1 + lb + s1 + sr),
{
    assert(p + a + o + b + s1 =~= p + (a + o + b + s1));
    let x = p + (a + o + b + s1) + d1 + sl + d2 + sp + et;
    assert(x + s1 + rg + s1 + rs + s1 + lb + s1 + sr =~= x + (s1 + rg + s1 + rs + s1 + lb + s1
        + sr));
}

/// The title of a repository whose selected count is kept (every operation but `slice`
/// keeps it, from `from_entries` on): empty for no pictures; otherwise it shows the number
/// of pictures selected, then the place of the current picture among all of them, then the
/// current picture's title.
#[verifier::spinoff_prover]
pub proof fn lemma_title_counts_selected(v: RepositoryView)
    requires
        v.selection_counted(),
    ensures
        v.capacity() == 0 ==> repository_title(v) == Seq::<char>::empty(),
        v.capacity() > 0 ==> exists|mark: Seq<char>, tail: Seq<char>|
            #[trigger] title_shows(v, count_selected(v.entries), mark, tail),
{
    if v.capacity() > 0 {
        let p = "S:["@ + decimal(count_selected(v.entries)) + "] "@;
        let a = if v.select_start is Some {
            "…"@
        } else {
            Seq::<char>::empty()
        };
        let o = " ordered by "@;
        let b = match v.order {
            Some(x) => order_name(x),
            None => "??"@,
        };
        let s1 = " "@;
        let d1 = decimal(v.current() as nat);
        let sl = "/"@;
        let d2 = decimal((v.capacity() - 1) as nat);
        let sp = "  "@;
        let et = entry_title(v.entries[v.current()]);
        let rg = match v.register {
            Some(r) => decimal(r as nat),
            None => Seq::empty(),
        };
        let rs = if v.real_size_on {
            "*"@
        } else {
            Seq::empty()
        };
        let lb = if v.label_edit_mode_on {
            "Label:"@ + v.field
        } else {
            Seq::empty()
        };
        let sr = if v.search_edit_mode_on {
            "Search:"@ + v.field
        } else {
            Seq::empty()
        };
        let mark = a + o + b + s1;
        let tail = s1 + rg + s1 + rs + s1 + lb + s1 + sr;
        assert(repository_title(v) == p + a + o + b + s1 + d1 + sl + d2 + sp + et + s1 + rg + s1
            + rs + s1 + lb + s1 + sr);
        lemma_title_regrouped(p, a, o, b, s1, d1, sl, d2, sp, et, rg, rs, lb, sr);
        assert(title_shows(v, count_selected(v.entries), mark, tail));
    }
}

}
