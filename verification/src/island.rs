//! Island navigation: a stack of two-dimensional grids of entries, a flat
//! selection index, and the rules that move the selection through a grid
//! of uneven rows. The rendering of islands is the presentation layer's;
//! the library owns the selection and stack logic.

use vstd::prelude::*;

use crate::event::Event;

verus! {

/// What a selected entry does: fire an event, descend into a subcategory
/// island, or return to the parent.
#[derive(Debug)]
pub enum IslandAction {
    Emit(Event),
    Push(Box<Island>),
    Pop,
}

/// A single entry in an island grid.
#[derive(Debug)]
pub struct IslandEntry {
    pub label: String,
    pub action: IslandAction,
}

/// An island is a two-dimensional grid of entries; rows may have uneven
/// lengths. The selection is kept as a flat index over the rows in order.
#[derive(Debug)]
pub struct Island {
    pub rows: Vec<Vec<IslandEntry>>,
}

/// Grid navigation direction.
#[derive(Clone, Copy, Debug, PartialEq, Eq, Structural)]
pub enum GridDirection {
    Up,
    Down,
    Left,
    Right,
}

/// The grid as a sequence of rows of entries.
pub open spec fn rows_view(rows: Seq<Vec<IslandEntry>>) -> Seq<Seq<IslandEntry>> {
    rows.map_values(|r: Vec<IslandEntry>| r@)
}

/// The number of entries in the first `r` rows.
pub open spec fn prefix_len(rows: Seq<Seq<IslandEntry>>, r: int) -> int
    decreases r,
{
    if r <= 0 {
        0
    } else {
        prefix_len(rows, r - 1) + rows[r - 1].len()
    }
}

/// The number of entries in the whole grid.
pub open spec fn entry_total(rows: Seq<Seq<IslandEntry>>) -> int {
    prefix_len(rows, rows.len() as int)
}

/// The position a flat index names, walking the rows in order; past the
/// last entry there is no position.
pub open spec fn flat_to_pos(rows: Seq<Seq<IslandEntry>>, index: int) -> Option<(int, int)>
    decreases rows.len(),
{
    if rows.len() == 0 {
        None
    } else if index < rows[0].len() {
        Some((0, index))
    } else {
        match flat_to_pos(rows.drop_first(), index - rows[0].len()) {
            Some(p) => Some((p.0 + 1, p.1)),
            None => None,
        }
    }
}

/// The last valid position of the grid, or the origin when it is empty;
/// an out-of-range flat index falls back here.
pub open spec fn fallback_pos(rows: Seq<Seq<IslandEntry>>) -> (int, int) {
    if rows.len() == 0 {
        (0, 0)
    } else {
        let lr = rows.len() - 1;
        if rows[lr as int].len() == 0 {
            (lr as int, 0)
        } else {
            (lr as int, rows[lr as int].len() - 1)
        }
    }
}

/// Where a flat index points: its position, or the fallback when it is
/// out of range.
pub open spec fn spec_index_to_pos(rows: Seq<Seq<IslandEntry>>, index: int) -> (int, int) {
    match flat_to_pos(rows, index) {
        Some(p) => p,
        None => fallback_pos(rows),
    }
}

/// The flat index of a position: the entries of the earlier rows plus the
/// column, clamped into the row; a row past the grid maps to the total.
pub open spec fn spec_pos_to_index(rows: Seq<Seq<IslandEntry>>, row: int, col: int) -> int {
    if 0 <= row < rows.len() {
        let rl = rows[row].len() as int;
        let c = if rl == 0 {
            0
        } else if col < rl {
            col
        } else {
            rl - 1
        };
        prefix_len(rows, row) + c
    } else {
        entry_total(rows)
    }
}

/// Prefix counts grow with the row.
proof fn lemma_prefix_len_monotonic(rows: Seq<Seq<IslandEntry>>, a: int, b: int)
    requires
        0 <= a <= b,
    ensures
        prefix_len(rows, a) <= prefix_len(rows, b),
    decreases b - a,
{
    if a < b {
        lemma_prefix_len_monotonic(rows, a, b - 1);
    }
}

/// Dropping the first row shifts prefix counts by its length.
proof fn lemma_prefix_len_drop_first(rows: Seq<Seq<IslandEntry>>, r: int)
    requires
        rows.len() > 0,
        0 <= r < rows.len(),
    ensures
        prefix_len(rows, r + 1) == rows[0].len() + prefix_len(rows.drop_first(), r),
    decreases r,
{
    reveal_with_fuel(prefix_len, 2);
    if r == 0 {
    } else {
        lemma_prefix_len_drop_first(rows, r - 1);
        assert(rows.drop_first()[r - 1] == rows[r]);
    }
}

/// A flat index within the grid names a real position, and turning that
/// position back into an index returns the same flat index: the two maps
/// are inverse on the grid's entries.
pub proof fn lemma_pos_index_round_trip(rows: Seq<Seq<IslandEntry>>, index: int)
    requires
        0 <= index < entry_total(rows),
    ensures
        flat_to_pos(rows, index) matches Some(p) && 0 <= p.0 < rows.len() && 0 <= p.1
            < rows[p.0].len() && spec_pos_to_index(rows, p.0, p.1) == index,
    decreases rows.len(),
{
    if rows.len() == 0 {
        assert(prefix_len(rows, 0) == 0);
    } else if index < rows[0].len() {
        assert(prefix_len(rows, 0) == 0);
    } else {
        let tl = rows.drop_first();
        lemma_prefix_len_drop_first(rows, rows.len() - 1);
        assert(entry_total(tl) == entry_total(rows) - rows[0].len());
        lemma_pos_index_round_trip(tl, index - rows[0].len());
        let p = flat_to_pos(tl, (index - rows[0].len()) as int);
        let pp = p.unwrap();
        assert(tl[pp.0] == rows[pp.0 + 1]);
        lemma_prefix_len_drop_first(rows, pp.0);
    }
}

impl Island {
    /// The grid's rows as sequences.
    pub open spec fn view_rows(self) -> Seq<Seq<IslandEntry>> {
        rows_view(self.rows@)
    }

    /// The whole grid is addressable by a machine index.
    pub open spec fn wf(self) -> bool {
        entry_total(self.view_rows()) <= usize::MAX
    }

    /// The entry at (row, col), if it exists.
    pub fn get(&self, row: usize, col: usize) -> (r: Option<&IslandEntry>)
        ensures
            match r {
                Some(e) => row < self.view_rows().len() && col < self.view_rows()[row as int].len()
                    && *e == self.view_rows()[row as int][col as int],
                None => row >= self.view_rows().len() || col >= self.view_rows()[row as int].len(),
            },
    {
        if row < self.rows.len() {
            let r = &self.rows[row];
            if col < r.len() {
                Some(&r[col])
            } else {
                None
            }
        } else {
            None
        }
    }

    /// The number of rows.
    pub fn row_count(&self) -> (n: usize)
        ensures
            n == self.view_rows().len(),
    {
        self.rows.len()
    }

    /// The number of columns in a row; zero past the last row.
    pub fn col_count(&self, row: usize) -> (n: usize)
        ensures
            n == if row < self.view_rows().len() {
                self.view_rows()[row as int].len()
            } else {
                0
            },
    {
        if row < self.rows.len() {
            self.rows[row].len()
        } else {
            0
        }
    }

    /// Convert a flat index to (row, col); an out-of-range index falls
    /// back to the last valid position.
    pub fn index_to_pos(&self, index: usize) -> (r: (usize, usize))
        ensures
            (r.0 as int, r.1 as int) == spec_index_to_pos(self.view_rows(), index as int),
    {
        let ghost view = self.view_rows();
        proof {
            assert(view.skip(0) =~= view);
        }
        let mut remaining = index;
        let n = self.rows.len();
        let mut row: usize = 0;
        while row < n
            invariant
                view == self.view_rows(),
                n == view.len(),
                row <= n,
                remaining <= index,
                flat_to_pos(view, index as int) == match flat_to_pos(
                    view.skip(row as int),
                    remaining as int,
                ) {
                    Some(p) => Some((p.0 + row, p.1)),
                    None => None::<(int, int)>,
                },
            decreases n - row,
        {
            let rl = self.rows[row].len();
            proof {
                assert(view.skip(row as int)[0] == view[row as int]);
                assert(view.skip(row as int).drop_first() =~= view.skip(row as int + 1));
            }
            if remaining < rl {
                return (row, remaining);
            }
            remaining = remaining - rl;
            row = row + 1;
        }
        proof {
            assert(view.skip(n as int).len() == 0);
        }
        let last_row = if n == 0 {
            0
        } else {
            n - 1
        };
        let last_cols = if n == 0 {
            0
        } else {
            self.rows[last_row].len()
        };
        let last_col = if last_cols == 0 {
            0
        } else {
            last_cols - 1
        };
        (last_row, last_col)
    }

    /// Convert (row, col) to a flat index, clamping the column into the
    /// row; a row past the grid maps to the total.
    pub fn pos_to_index(&self, row: usize, col: usize) -> (r: usize)
        requires
            self.wf(),
        ensures
            r as int == spec_pos_to_index(self.view_rows(), row as int, col as int),
    {
        let ghost view = self.view_rows();
        let mut index: usize = 0;
        let n = self.rows.len();
        let mut r: usize = 0;
        while r < n
            invariant
                view == self.view_rows(),
                self.wf(),
                n == view.len(),
                r <= n,
                r <= row,
                index as int == prefix_len(view, r as int),
            decreases n - r,
        {
            proof {
                lemma_prefix_len_monotonic(view, 0, r as int);
                lemma_prefix_len_monotonic(view, r as int + 1, view.len() as int);
                assert(view[r as int] == self.rows@[r as int]@);
            }
            let rl = self.rows[r].len();
            if r == row {
                let c = if rl == 0 {
                    0
                } else if col < rl {
                    col
                } else {
                    rl - 1
                };
                proof {
                    lemma_prefix_len_monotonic(view, r as int, view.len() as int);
                }
                return index + c;
            }
            index = index + rl;
            r = r + 1;
        }
        index
    }
}

/// Mutable state of the island navigation system: the stack of open
/// islands with the selection each was left at, and the selection in the
/// topmost one.
pub struct IslandCtx {
    pub stack: Vec<(Island, usize)>,
    pub selected: usize,
    pub active: bool,
    pub cooldown_until: Option<u64>,
}

impl IslandCtx {
    /// Every island on the stack is addressable.
    pub open spec fn wf(self) -> bool {
        forall|i: int| 0 <= i < self.stack@.len() ==> (#[trigger] self.stack@[i]).0.wf()
    }

    pub fn new() -> (c: IslandCtx)
        ensures
            c.wf(),
            c.stack@.len() == 0,
            c.selected == 0,
            !c.active,
            c.cooldown_until is None,
    {
        IslandCtx { stack: Vec::new(), selected: 0, active: false, cooldown_until: None }
    }

    /// The island currently displayed: the topmost on the stack.
    pub fn current_island(&self) -> (r: Option<&Island>)
        ensures
            match r {
                Some(island) => self.stack@.len() > 0 && *island == self.stack@[self.stack@.len()
                    - 1].0,
                None => self.stack@.len() == 0,
            },
    {
        match self.stack.last() {
            Some(top) => Some(&top.0),
            None => None,
        }
    }

    /// Open the overlay on a root island with a default selection.
    pub fn activate(&mut self, root: Island, default_selected: usize)
        requires
            root.wf(),
        ensures
            final(self).wf(),
            final(self).stack@.len() == 1,
            final(self).stack@[0] == (root, 0usize),
            final(self).selected == default_selected,
            final(self).active,
            final(self).cooldown_until is None,
    {
        self.stack.clear();
        self.stack.push((root, 0));
        self.selected = default_selected;
        self.active = true;
        self.cooldown_until = None;
    }

    /// Close the overlay entirely and start the input cooldown.
    pub fn deactivate(&mut self, now_ms: u64)
        ensures
            final(self).wf(),
            final(self).stack@.len() == 0,
            final(self).selected == 0,
            !final(self).active,
            final(self).cooldown_until == Some(
                crate::scheduler::Scheduler::fire_time(now_ms, 280),
            ),
    {
        self.stack.clear();
        self.selected = 0;
        self.active = false;
        let until = match now_ms.checked_add(280) {
            Some(t) => t,
            None => u64::MAX,
        };
        self.cooldown_until = Some(until);
    }

    /// Whether input is still ignored after the overlay closed.
    pub fn in_cooldown(&self, now_ms: u64) -> (r: bool)
        ensures
            r == match self.cooldown_until {
                Some(t) => now_ms < t,
                None => false,
            },
    {
        match self.cooldown_until {
            Some(t) => now_ms < t,
            None => false,
        }
    }

    /// Descend into a subcategory island, remembering the selection the
    /// current island was left at.
    pub fn push(&mut self, island: Island)
        requires
            old(self).wf(),
            island.wf(),
        ensures
            final(self).wf(),
            final(self).selected == 0,
            final(self).stack@.len() == old(self).stack@.len() + 1,
            final(self).stack@[final(self).stack@.len() - 1] == (island, 0usize),
            old(self).stack@.len() > 0 ==> final(self).stack@[old(self).stack@.len() - 1] == (
                old(self).stack@[old(self).stack@.len() - 1].0,
                old(self).selected,
            ),
    {
        let n = self.stack.len();
        if n > 0 {
            let sel = self.selected;
            let top = self.stack.remove(n - 1);
            self.stack.push((top.0, sel));
            proof {
                assert(self.stack@ =~= old(self).stack@.update(
                    n - 1,
                    (old(self).stack@[n - 1].0, old(self).selected),
                ));
            }
        }
        self.stack.push((island, 0));
        self.selected = 0;
    }

    /// Return to the parent island, restoring its remembered selection;
    /// at the root nothing changes and the call reports it.
    pub fn pop(&mut self) -> (r: bool)
        requires
            old(self).wf(),
        ensures
            final(self).wf(),
            r == (old(self).stack@.len() > 1),
            r ==> final(self).stack@ == old(self).stack@.drop_last() && final(self).selected == old(
                self,
            ).stack@[old(self).stack@.len() - 2].1,
            !r ==> *final(self) == *old(self),
    {
        if self.stack.len() > 1 {
            let n = self.stack.len();
            let _ = self.stack.remove(n - 1);
            proof {
                assert(self.stack@ =~= old(self).stack@.drop_last());
            }
            let m = self.stack.len();
            self.selected = self.stack[m - 1].1;
            true
        } else {
            false
        }
    }

    /// Move the selection one step through the current island's grid,
    /// clamping at its edges and re-clamping the column into the new row.
    pub fn navigate(&mut self, direction: GridDirection)
        requires
            old(self).wf(),
        ensures
            final(self).wf(),
            final(self).stack == old(self).stack,
            final(self).active == old(self).active,
            final(self).cooldown_until == old(self).cooldown_until,
            old(self).stack@.len() == 0 ==> final(self).selected == old(self).selected,
            old(self).stack@.len() > 0 ==> {
                let rows = old(self).stack@[old(self).stack@.len() - 1].0.view_rows();
                let pos = spec_index_to_pos(rows, old(self).selected as int);
                let cc = if 0 <= pos.0 < rows.len() {
                    rows[pos.0].len() as int
                } else {
                    0
                };
                let up_row = if pos.0 == 0 {
                    0
                } else {
                    pos.0 - 1
                };
                let down_row = if pos.0 + 1 < rows.len() {
                    pos.0 + 1
                } else if rows.len() == 0 {
                    0
                } else {
                    rows.len() - 1
                };
                let left_col = if pos.1 == 0 {
                    0
                } else {
                    pos.1 - 1
                };
                let right_col = if pos.1 + 1 < cc {
                    pos.1 + 1
                } else if cc == 0 {
                    0
                } else {
                    cc - 1
                };
                let moved = match direction {
                    GridDirection::Up => (up_row, pos.1),
                    GridDirection::Down => (down_row, pos.1),
                    GridDirection::Left => (pos.0, left_col),
                    GridDirection::Right => (pos.0, right_col),
                };
                final(self).selected as int == spec_pos_to_index(rows, moved.0, moved.1)
            },
    {
        let n = self.stack.len();
        if n == 0 {
            return ;
        }
        let new_selected = {
            let island = &self.stack[n - 1].0;
            let (row, col) = island.index_to_pos(self.selected);
            let row_count = island.row_count();
            let cc = island.col_count(row);
            let up_row = if row == 0 {
                0
            } else {
                row - 1
            };
            let down_row = if row_count > 0 && row < row_count - 1 {
                row + 1
            } else if row_count == 0 {
                0
            } else {
                row_count - 1
            };
            let left_col = if col == 0 {
                0
            } else {
                col - 1
            };
            let right_col = if cc > 0 && col < cc - 1 {
                col + 1
            } else if cc == 0 {
                0
            } else {
                cc - 1
            };
            let (new_row, new_col) = match direction {
                GridDirection::Up => (up_row, col),
                GridDirection::Down => (down_row, col),
                GridDirection::Left => (row, left_col),
                GridDirection::Right => (row, right_col),
            };
            island.pos_to_index(new_row, new_col)
        };
        self.selected = new_selected;
    }

    /// The entry the selection points at, if any.
    pub fn selected_entry(&self) -> (r: Option<&IslandEntry>)
        ensures
            match r {
                Some(e) => self.stack@.len() > 0 && {
                    let rows = self.stack@[self.stack@.len() - 1].0.view_rows();
                    let pos = spec_index_to_pos(rows, self.selected as int);
                    &&& 0 <= pos.0 < rows.len()
                    &&& 0 <= pos.1 < rows[pos.0].len()
                    &&& *e == rows[pos.0][pos.1]
                },
                None => true,
            },
    {
        let n = self.stack.len();
        if n == 0 {
            return None;
        }
        let island = &self.stack[n - 1].0;
        let (row, col) = island.index_to_pos(self.selected);
        island.get(row, col)
    }
}

} // verus!
