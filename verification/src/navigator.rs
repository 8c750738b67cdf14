use vstd::prelude::*;
use crate::direction::{Direction, offsets};
use crate::external::random_below;

verus! {

/// A cell of the grid: column, then row.
pub type Coords = (i32, i32);

/// Integer division that rounds toward zero, as Rust's `/` does on signed integers.
pub open spec fn trunc_div(a: int, b: int) -> int {
    if a >= 0 {
        a / b
    } else {
        -((-a) / b)
    }
}

/// First index of the page that follows the page starting at `start`; past the last page
/// the first page comes back.
pub open spec fn next_page_start(capacity: int, max_cells: int, start: int) -> int {
    if start + max_cells < capacity {
        start + max_cells
    } else {
        0
    }
}

/// First index of the page that precedes the page starting at `start`; before the first
/// page comes the last one.
pub open spec fn prev_page_start(capacity: int, max_cells: int, start: int) -> int {
    if start > 0 {
        start - max_cells
    } else {
        trunc_div(capacity - 1, max_cells) * max_cells
    }
}

/// Whether a cell lies inside a square grid of `cells_per_row` columns and rows.
pub open spec fn in_grid(cells_per_row: int, p: (int, int)) -> bool {
    0 <= p.0 < cells_per_row && 0 <= p.1 < cells_per_row
}

/// Keeps track of where the current picture is: pages of `cells_per_row * cells_per_row`
/// cells over a list of `capacity` pictures, and a cell of the current page.
#[derive(Clone, Debug)]
pub struct Navigator {
    capacity: i32,
    cells_per_row: i32,
    max_cells: i32,
    start_cell_index: i32,
    col: i32,
    row: i32,
    page_changed: bool,
}

impl Navigator {
    /// Number of pictures.
    pub closed spec fn cap(self) -> int {
        self.capacity as int
    }

    /// Columns (and rows) of a page.
    pub closed spec fn cpr(self) -> int {
        self.cells_per_row as int
    }

    /// Cells of a page.
    pub closed spec fn max(self) -> int {
        self.max_cells as int
    }

    /// Index of the first picture of the current page.
    pub closed spec fn start(self) -> int {
        self.start_cell_index as int
    }

    /// Current cell.
    pub closed spec fn pos(self) -> Coords {
        (self.col, self.row)
    }

    /// Whether the page changed since the last move inside it.
    pub closed spec fn changed(self) -> bool {
        self.page_changed
    }

    /// The navigator's invariant: sizes are counts, a page is a square, pages start at a
    /// multiple of the page size, and the current cell lies on the page.
    pub closed spec fn wf(self) -> bool {
        &&& 0 <= self.capacity
        &&& 0 <= self.cells_per_row
        &&& self.max_cells == self.cells_per_row * self.cells_per_row
        &&& self.max_cells > 0 ==> self.start_cell_index % self.max_cells == 0
        &&& self.max_cells == 0 ==> self.start_cell_index == 0
        &&& -1 <= self.start_cell_index
        &&& self.start_cell_index == -1 ==> self.capacity == 0
        &&& self.start_cell_index > 0 ==> self.start_cell_index < self.capacity
        &&& ((self.col == 0 && self.row == 0) || in_grid(
            self.cells_per_row as int,
            (self.col as int, self.row as int),
        ))
    }

    /// The picture index shown at cell `p` of the current page, if there is such a picture.
    pub open spec fn index_at(self, p: Coords) -> Option<int> {
        let v = self.start() + p.0 + p.1 * self.cpr();
        if 0 <= v < self.cap() {
            Some(v)
        } else {
            None
        }
    }

    /// Whether the current cell shows a picture, when there is any.
    pub open spec fn shows_picture(self) -> bool {
        self.cap() > 0 ==> self.index_at(self.pos()) is Some
    }

    /// Index of the current picture (0 where the current cell shows none).
    pub open spec fn current(self) -> int {
        match self.index_at(self.pos()) {
            Some(n) => n,
            None => 0,
        }
    }

    /// The state reached by a jump to picture `n`.
    pub open spec fn at_index(self, other: Navigator, n: int) -> bool {
        let rel = n % self.max();
        &&& other.cap() == self.cap()
        &&& other.cpr() == self.cpr()
        &&& other.max() == self.max()
        &&& other.start() == n - rel
        &&& other.pos() == ((rel % self.cpr()) as i32, (rel / self.cpr()) as i32)
        &&& other.changed()
    }

    pub fn new(capacity: i32, cells_per_row: i32) -> (n: Self)
        requires
            0 <= capacity,
            0 <= cells_per_row,
            cells_per_row * cells_per_row <= i32::MAX,
        ensures
            n.wf(),
            n.cap() == capacity,
            n.cpr() == cells_per_row,
            n.max() == cells_per_row * cells_per_row,
            n.start() == 0,
            n.pos() == (0i32, 0i32),
            n.changed(),
            cells_per_row > 0 ==> n.shows_picture(),
    {
        proof {
            assert(0int * (cells_per_row as int) == 0) by (nonlinear_arith);
            if cells_per_row > 0 {
                assert(0int % (cells_per_row * cells_per_row) == 0) by (nonlinear_arith)
                    requires
                        cells_per_row > 0,
                ;
            }
        }
        Navigator {
            capacity: capacity,
            cells_per_row: cells_per_row,
            max_cells: cells_per_row * cells_per_row,
            start_cell_index: 0,
            col: 0,
            row: 0,
            page_changed: true,
        }
    }

    /// Index of the first cell of the page; -1 for an empty list.
    pub fn page_start(&self) -> (r: i32)
        ensures
            r == self.start(),
    {
        self.start_cell_index
    }

    pub fn start_cell_index(&self) -> (r: usize)
        ensures
            r == self.start() as usize,
    {
        self.start_cell_index as usize
    }

    pub fn capacity(&self) -> (r: usize)
        requires
            self.wf(),
        ensures
            r == self.cap(),
    {
        self.capacity as usize
    }

    pub fn cells_per_row(&self) -> (r: i32)
        ensures
            r == self.cpr(),
    {
        self.cells_per_row
    }

    pub fn max_cells(&self) -> (r: i32)
        ensures
            r == self.max(),
    {
        self.max_cells
    }

    pub fn position(&self) -> (r: Coords)
        ensures
            r == self.pos(),
    {
        (self.col, self.row)
    }

    pub fn page_changed(&self) -> (r: bool)
        ensures
            r == self.changed(),
    {
        self.page_changed
    }

    pub fn index_from_position(&self, position: Coords) -> (r: Option<usize>)
        requires
            self.wf(),
        ensures
            r matches Some(n) ==> self.index_at(position) == Some(n as int),
            r is None ==> self.index_at(position) is None,
    {
        let col = position.0 as i64;
        let row = position.1 as i64;
        let cpr = self.cells_per_row as i64;
        assert(-0x8000_0000 * 0x8000_0000 <= row * cpr <= 0x8000_0000 * 0x8000_0000)
            by (nonlinear_arith)
            requires
                -0x8000_0000 <= row < 0x8000_0000,
                0 <= cpr < 0x8000_0000,
        ;
        let result: i64 = self.start_cell_index as i64 + col + row * cpr;
        if 0 <= result && result < self.capacity as i64 {
            Some(result as usize)
        } else {
            None
        }
    }

    pub fn index(&self) -> (r: usize)
        requires
            self.wf(),
        ensures
            r == self.current(),
    {
        match self.index_from_position((self.col, self.row)) {
            Some(n) => n,
            None => 0,
        }
    }

    pub fn can_move_rel(&self, direction: Direction) -> (r: bool)
        requires
            self.wf(),
        ensures
            r == ({
                let p = (self.pos().0 + offsets(direction).0, self.pos().1 + offsets(direction).1);
                in_grid(self.cpr(), p) && self.index_at((p.0 as i32, p.1 as i32)) is Some
            }),
    {
        let coords: Coords = direction.into();
        let col = self.col as i64 + coords.0 as i64;
        let row = self.row as i64 + coords.1 as i64;
        if 0 <= col && col < self.cells_per_row as i64 && 0 <= row && row
            < self.cells_per_row as i64 {
            self.index_from_position((col as i32, row as i32)).is_some()
        } else {
            false
        }
    }

    pub fn move_rel(&mut self, direction: Direction)
        requires
            old(self).wf(),
            in_grid(
                old(self).cpr(),
                (
                    old(self).pos().0 + offsets(direction).0,
                    old(self).pos().1 + offsets(direction).1,
                ),
            ),
        ensures
            final(self).wf(),
            final(self).cap() == old(self).cap(),
            final(self).cpr() == old(self).cpr(),
            final(self).max() == old(self).max(),
            final(self).start() == old(self).start(),
            final(self).pos() == (
                (old(self).pos().0 + offsets(direction).0) as i32,
                (old(self).pos().1 + offsets(direction).1) as i32,
            ),
            !final(self).changed(),
            old(self).index_at(
                (
                    (old(self).pos().0 + offsets(direction).0) as i32,
                    (old(self).pos().1 + offsets(direction).1) as i32,
                ),
            ) is Some ==> final(self).shows_picture(),
    {
        let (col, row): (i32, i32) = direction.into();
        self.col = self.col + col;
        self.row = self.row + row;
        self.page_changed = false;
    }

    pub fn can_move_abs(&self, position: Coords) -> (r: bool)
        requires
            self.wf(),
        ensures
            r == (in_grid(self.cpr(), (position.0 as int, position.1 as int)) && self.index_at(
                position,
            ) is Some),
    {
        position.0 >= 0 && position.0 < self.cells_per_row && position.1 >= 0 && position.1
            < self.cells_per_row && self.index_from_position(position).is_some()
    }

    pub fn move_abs(&mut self, position: Coords)
        requires
            old(self).wf(),
            in_grid(old(self).cpr(), (position.0 as int, position.1 as int)),
            old(self).index_at(position) is Some,
        ensures
            final(self).wf(),
            final(self).cap() == old(self).cap(),
            final(self).cpr() == old(self).cpr(),
            final(self).max() == old(self).max(),
            final(self).start() == old(self).start(),
            final(self).pos() == position,
            !final(self).changed(),
            final(self).shows_picture(),
            final(self).current() == old(self).index_at(position).unwrap(),
    {
        self.col = position.0;
        self.row = position.1;
        self.page_changed = false;
    }

    pub fn can_move_to_index(&self, index: usize) -> (r: bool)
        requires
            self.wf(),
        ensures
            r == (index < self.cap()),
    {
        index < self.capacity as usize
    }

    pub fn move_to_index(&mut self, n: usize)
        requires
            old(self).wf(),
            n < old(self).cap(),
            old(self).cpr() > 0,
        ensures
            final(self).wf(),
            old(self).at_index(*final(self), n as int),
            final(self).current() == n,
            final(self).shows_picture(),
    {
        let index = n as i32;
        assert(self.max_cells > 0) by (nonlinear_arith)
            requires
                self.max_cells == self.cells_per_row * self.cells_per_row,
                self.cells_per_row > 0,
        ;
        let rel_index = index % self.max_cells;
        let cpr = self.cells_per_row;
        let max = self.max_cells;
        assert(cpr * cpr == max);
        assert(0 <= rel_index / cpr < cpr) by (nonlinear_arith)
            requires
                0 <= rel_index < max,
                max == cpr * cpr,
                cpr > 0,
        ;
        assert((index - rel_index) % (max as int) == 0 && (index - rel_index) >= 0) by {
            let q = index as int / max as int;
            vstd::arithmetic::div_mod::lemma_fundamental_div_mod(index as int, max as int);
            vstd::arithmetic::div_mod::lemma_mod_multiples_basic(q, max as int);
            vstd::arithmetic::mul::lemma_mul_is_commutative(q, max as int);
            vstd::arithmetic::div_mod::lemma_mod_pos_bound(index as int, max as int);
            assert(index - rel_index == q * max);
        }
        assert(rel_index % cpr + (rel_index / cpr) * cpr == rel_index) by (nonlinear_arith)
            requires
                cpr > 0,
                rel_index >= 0,
        ;
        self.start_cell_index = index - rel_index;
        self.col = rel_index % cpr;
        self.row = rel_index / cpr;
        self.page_changed = true;
    }

    pub fn move_to_random_index(&mut self)
        requires
            old(self).wf(),
            old(self).cap() > 0,
            old(self).cpr() > 0,
        ensures
            final(self).wf(),
            exists|n: int| 0 <= n < old(self).cap() && old(self).at_index(*final(self), n),
            0 <= final(self).current() < old(self).cap(),
    {
        let index = random_below(self.capacity());
        self.move_to_index(index);
    }

    pub fn move_next_page(&mut self)
        requires
            old(self).wf(),
        ensures
            final(self).wf(),
            final(self).cap() == old(self).cap(),
            final(self).cpr() == old(self).cpr(),
            final(self).max() == old(self).max(),
            final(self).start() == next_page_start(old(self).cap(), old(self).max(), old(self).start()),
            final(self).pos() == (0i32, 0i32),
            final(self).changed(),
            final(self).shows_picture(),
    {
        self.col = 0;
        self.row = 0;
        if (self.start_cell_index as i64) + (self.max_cells as i64) < self.capacity as i64 {
            proof {
                if self.max_cells > 0 {
                    lemma_add_aligned(self.start_cell_index as int, self.max_cells as int);
                }
            }
            self.start_cell_index = self.start_cell_index + self.max_cells;
            assert(self.max_cells > 0 ==> self.start_cell_index % self.max_cells == 0);
        } else {
            self.start_cell_index = 0;
        }
        self.page_changed = true;
    }

    pub fn move_prev_page(&mut self)
        requires
            old(self).wf(),
            old(self).start() > 0 || old(self).max() > 0,
        ensures
            final(self).wf(),
            final(self).cap() == old(self).cap(),
            final(self).cpr() == old(self).cpr(),
            final(self).max() == old(self).max(),
            final(self).start() == prev_page_start(old(self).cap(), old(self).max(), old(self).start()),
            final(self).pos() == (0i32, 0i32),
            final(self).changed(),
            final(self).shows_picture(),
    {
        self.col = 0;
        self.row = 0;
        if self.start_cell_index > 0 {
            proof {
                lemma_sub_aligned(self.start_cell_index as int, self.max_cells as int);
            }
            self.start_cell_index = self.start_cell_index - self.max_cells;
        } else {
            let last: i32 = self.capacity - 1;
            let max = self.max_cells;
            let q: i32 = if last >= 0 {
                last / max
            } else {
                0 - ((0 - last) / max)
            };
            proof {
                lemma_last_page_start(self.capacity as int, max as int);
                assert(q == trunc_div(self.capacity - 1, max as int));
            }
            self.start_cell_index = q * max;
            assert(self.start_cell_index == prev_page_start(self.capacity as int, max as int, 0));
        }
        self.page_changed = true;
    }

    pub fn refresh(&mut self)
        requires
            old(self).wf(),
        ensures
            final(self).wf(),
            final(self).cap() == old(self).cap(),
            final(self).cpr() == old(self).cpr(),
            final(self).max() == old(self).max(),
            final(self).start() == old(self).start(),
            final(self).pos() == old(self).pos(),
            final(self).changed(),
            old(self).shows_picture() ==> final(self).shows_picture(),
    {
        self.page_changed = true
    }
}

pub(crate) proof fn lemma_add_aligned(start: int, max: int)
    requires
        max > 0,
        start % max == 0,
    ensures
        (start + max) % max == 0,
{
    assert((start + max) % max == start % max) by (nonlinear_arith)
        requires
            max > 0,
    ;
}

pub(crate) proof fn lemma_sub_aligned(start: int, max: int)
    requires
        start > 0,
        max > 0,
        start % max == 0,
    ensures
        (start - max) % max == 0,
        start - max >= 0,
{
    assert((start - max) % max == start % max) by (nonlinear_arith)
        requires
            max > 0,
    ;
    assert(start >= max) by (nonlinear_arith)
        requires
            start > 0,
            max > 0,
            start % max == 0,
    ;
}

proof fn lemma_last_page_start(capacity: int, max: int)
    requires
        capacity >= 0,
        max > 0,
        max <= i32::MAX,
    ensures
        ({
            let s = trunc_div(capacity - 1, max) * max;
            &&& capacity > 0 ==> 0 <= s < capacity && s % max == 0
            &&& capacity == 0 ==> (max == 1 ==> s == -1) && (max > 1 ==> s == 0)
            &&& -1 <= s
            &&& s % max == 0
        }),
{
    let s = trunc_div(capacity - 1, max) * max;
    if capacity > 0 {
        let q = (capacity - 1) / max;
        assert(s == q * max);
        assert(0 <= q * max <= capacity - 1) by (nonlinear_arith)
            requires
                q == (capacity - 1) / max,
                capacity >= 1,
                max > 0,
        ;
        assert((q * max) % max == 0) by (nonlinear_arith)
            requires
                max > 0,
        ;
    } else {
        assert(trunc_div(capacity - 1, max) == -(1int / max));
        if max == 1 {
            assert(1int / 1int == 1);
            assert(s == -1);
            assert((-1int) % 1int == 0);
        } else {
            assert(1int / max == 0) by (nonlinear_arith)
                requires
                    max > 1,
            ;
            assert(-(1int / max) * max == 0) by (nonlinear_arith)
                requires
                    1int / max == 0,
            ;
            assert(s == 0);
            assert(0int % max == 0) by (nonlinear_arith)
                requires
                    max > 1,
            ;
        }
    }
}

/// Moving to the next page and then back returns to the page one started from, on every
/// page of a non-empty list.
pub proof fn lemma_next_then_prev_page(capacity: int, max_cells: int, start: int)
    requires
        0 <= start < capacity,
        max_cells > 0,
        start % max_cells == 0,
    ensures
        prev_page_start(capacity, max_cells, next_page_start(capacity, max_cells, start))
            == start,
{
    if start + max_cells < capacity {
        assert(start + max_cells > 0);
    } else {
        let q = (capacity - 1) / max_cells;
        assert(q * max_cells == start) by (nonlinear_arith)
            requires
                q == (capacity - 1) / max_cells,
                start % max_cells == 0,
                0 <= start < capacity,
                capacity <= start + max_cells,
                max_cells > 0,
        ;
    }
}

/// Moving to the previous page and then forward returns to the page one started from, on
/// every page of a non-empty list.
pub proof fn lemma_prev_then_next_page(capacity: int, max_cells: int, start: int)
    requires
        0 <= start < capacity,
        max_cells > 0,
        start % max_cells == 0,
    ensures
        next_page_start(capacity, max_cells, prev_page_start(capacity, max_cells, start))
            == start,
{
    if start > 0 {
        assert(start >= max_cells) by (nonlinear_arith)
            requires
                start > 0,
                max_cells > 0,
                start % max_cells == 0,
        ;
    } else {
        let q = (capacity - 1) / max_cells;
        assert(0 <= q * max_cells <= capacity - 1 < q * max_cells + max_cells) by (nonlinear_arith)
            requires
                q == (capacity - 1) / max_cells,
                capacity >= 1,
                max_cells > 0,
        ;
    }
}

/// Every page starts at a multiple of the page size.
pub proof fn lemma_pages_are_aligned(nav: Navigator)
    requires
        nav.wf(),
        nav.max() > 0,
    ensures
        nav.start() % nav.max() == 0,
        -1 <= nav.start(),
        nav.start() == -1 ==> nav.cap() == 0,
{
}

/// A page is a square of cells, and holds cells when its rows do.
pub proof fn lemma_page_size(nav: Navigator)
    requires
        nav.wf(),
    ensures
        nav.max() == nav.cpr() * nav.cpr(),
        nav.cpr() > 0 ==> nav.max() > 0,
{
    if nav.cpr() > 0 {
        assert(nav.cpr() * nav.cpr() > 0) by (nonlinear_arith)
            requires
                nav.cpr() > 0,
        ;
    }
}

/// The sizes of a navigator fit in its integers, and the start of its page in the list.
pub proof fn lemma_navigator_bounds(nav: Navigator)
    requires
        nav.wf(),
    ensures
        0 <= nav.cap() <= i32::MAX,
        0 <= nav.cpr() <= i32::MAX,
        0 <= nav.max() <= i32::MAX,
        -1 <= nav.start() <= i32::MAX,
        nav.start() > 0 ==> nav.start() < nav.cap(),
        nav.start() == -1 ==> nav.cap() == 0,
{
}

}

verus! {

/// After a jump to picture `n`, the current picture is `n`.
pub proof fn lemma_at_index_current(a: Navigator, b: Navigator, n: int)
    requires
        a.wf(),
        b.wf(),
        0 <= n < a.cap(),
        a.cpr() > 0,
        a.at_index(b, n),
    ensures
        b.current() == n,
{
    lemma_page_size(a);
    let max = a.max();
    let cpr = a.cpr();
    let rel = n % max;
    assert(0 <= rel < max) by (nonlinear_arith)
        requires
            max > 0,
            rel == n % max,
    ;
    assert(0 <= rel % cpr < cpr && 0 <= rel / cpr <= rel) by (nonlinear_arith)
        requires
            cpr > 0,
            0 <= rel,
    ;
    assert(rel % cpr + (rel / cpr) * cpr == rel) by (nonlinear_arith)
        requires
            cpr > 0,
            rel >= 0,
    ;
    lemma_navigator_bounds(b);
    assert(b.pos().0 == rel % cpr);
    assert(b.pos().1 == rel / cpr);
}

}

verus! {

/// What holds of every navigator that its moves reach over a non-empty list (each keeps
/// it well formed and, guarded as its `can_move_*` guard, the current cell on a picture):
/// the page starts at a multiple of the page size inside the list, the page is a square of
/// the row length, and the current cell lies on the grid and shows a picture.
pub proof fn lemma_shown_cell(n: Navigator)
    requires
        n.wf(),
        n.cap() > 0,
        n.cpr() > 0,
        n.shows_picture(),
    ensures
        n.max() == n.cpr() * n.cpr(),
        n.start() % n.max() == 0,
        0 <= n.start() < n.cap(),
        in_grid(n.cpr(), (n.pos().0 as int, n.pos().1 as int)),
        n.index_at(n.pos()) is Some,
        0 <= n.current() < n.cap(),
{
    lemma_page_size(n);
    lemma_pages_are_aligned(n);
    lemma_navigator_bounds(n);
}

}
