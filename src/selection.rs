use vstd::prelude::*;

verus! {

/// The mathematical content of a selection: inclusive bounds in visual
/// row/column index space, and whether the single selected cell is being edited.
pub struct RangeModel {
    pub row_start: int,
    pub row_end: int,
    pub col_start: int,
    pub col_end: int,
    pub editing: bool,
}

impl RangeModel {
    pub open spec fn is_single_cell(self) -> bool {
        self.row_start == self.row_end && self.col_start == self.col_end
    }

    /// Bounds are ordered, their width and height fit in `usize`, and only a
    /// single cell can be in edit mode.
    pub open spec fn wf(self) -> bool {
        &&& 0 <= self.row_start <= self.row_end < usize::MAX
        &&& 0 <= self.col_start <= self.col_end < usize::MAX
        &&& self.editing ==> self.is_single_cell()
    }

    pub open spec fn contains(self, row: int, col: int) -> bool {
        self.row_start <= row <= self.row_end && self.col_start <= col <= self.col_end
    }

    pub open spec fn contains_col(self, col: int) -> bool {
        self.col_start <= col <= self.col_end
    }

    pub open spec fn same_bounds(self, o: RangeModel) -> bool {
        self.row_start == o.row_start && self.row_end == o.row_end && self.col_start
            == o.col_start && self.col_end == o.col_end
    }

    pub open spec fn height(self) -> int {
        self.row_end - self.row_start + 1
    }

    pub open spec fn width(self) -> int {
        self.col_end - self.col_start + 1
    }

    pub open spec fn with_bounds(self, rs: int, re: int, cs: int, ce: int) -> RangeModel {
        let single = rs == re && cs == ce;
        RangeModel {
            row_start: rs,
            row_end: re,
            col_start: cs,
            col_end: ce,
            editing: self.editing && single,
        }
    }
}

/// In every well-formed selection, and so in every selection that exists, edit
/// mode covers a single cell.
pub proof fn lemma_editing_is_single_cell(m: RangeModel)
    requires
        m.wf(),
    ensures
        m.editing ==> m.row_start == m.row_end && m.col_start == m.col_end,
{
}

/// The last of `n` columns; column 0 when there are none.
pub open spec fn last_col(n: int) -> int {
    if n == 0 {
        0
    } else {
        n - 1
    }
}

pub open spec fn cell_model(row: int, col: int) -> RangeModel {
    RangeModel { row_start: row, row_end: row, col_start: col, col_end: col, editing: false }
}

/// A rectangular selection over visual indices. All indices are from 0 to
/// the row or column count currently in view.
#[derive(Copy, Clone, Debug, Eq)]
pub struct SelectedRange {
    row_start: usize,
    row_end: usize,
    col_start: usize,
    col_end: usize,
    is_editing: bool,
}

impl View for SelectedRange {
    type V = RangeModel;

    closed spec fn view(&self) -> RangeModel {
        RangeModel {
            row_start: self.row_start as int,
            row_end: self.row_end as int,
            col_start: self.col_start as int,
            col_end: self.col_end as int,
            editing: self.is_editing,
        }
    }
}

/// Two selections are equal when their bounds are, whatever their edit mode.
impl PartialEq for SelectedRange {
    fn eq(&self, other: &Self) -> (r: bool)
        ensures
            r == self@.same_bounds(other@),
    {
        self.row_start == other.row_start && self.row_end == other.row_end && self.col_start
            == other.col_start && self.col_end == other.col_end
    }
}

impl vstd::std_specs::cmp::PartialEqSpecImpl for SelectedRange {
    open spec fn obeys_eq_spec() -> bool {
        true
    }

    open spec fn eq_spec(&self, o: &SelectedRange) -> bool {
        self@.same_bounds(o@)
    }
}

impl SelectedRange {
    #[verifier::type_invariant]
    spec fn inv(self) -> bool {
        self@.wf()
    }

    fn from_model(rs: usize, re: usize, cs: usize, ce: usize, editing: bool) -> (r: Self)
        requires
            (RangeModel {
                row_start: rs as int,
                row_end: re as int,
                col_start: cs as int,
                col_end: ce as int,
                editing,
            }).wf(),
        ensures
            r@ == (RangeModel {
                row_start: rs as int,
                row_end: re as int,
                col_start: cs as int,
                col_end: ce as int,
                editing,
            }),
    {
        SelectedRange { row_start: rs, row_end: re, col_start: cs, col_end: ce, is_editing: editing }
    }

    pub fn single_cell(row_idx: usize, col_idx: usize) -> (r: Self)
        requires
            row_idx < usize::MAX,
            col_idx < usize::MAX,
        ensures
            r@.wf(),
            r@ == cell_model(row_idx as int, col_idx as int),
    {
        Self::from_model(row_idx, row_idx, col_idx, col_idx, false)
    }

    /// The whole row `row_idx` over `col_count` columns: columns
    /// `0..=col_count - 1` (just column 0 when there are no columns).
    pub fn single_row(row_idx: usize, col_count: usize) -> (r: Self)
        requires
            row_idx < usize::MAX,
        ensures
            r@.wf(),
            r@ == (RangeModel {
                row_start: row_idx as int,
                row_end: row_idx as int,
                col_start: 0,
                col_end: last_col(col_count as int),
                editing: false,
            }),
    {
        let ce = if col_count == 0 { 0 } else { col_count - 1 };
        Self::from_model(row_idx, row_idx, 0, ce, false)
    }

    /// A rectangle anchored at the origin, `width` by `height` cells (at least one).
    pub fn rect(width: usize, height: usize) -> (r: Self)
        ensures
            r@.wf(),
            r@ == (RangeModel {
                row_start: 0,
                row_end: if height == 0 { 0 } else { height - 1 },
                col_start: 0,
                col_end: if width == 0 { 0 } else { width - 1 },
                editing: false,
            }),
    {
        let re = if height == 0 { 0 } else { height - 1 };
        let ce = if width == 0 { 0 } else { width - 1 };
        Self::from_model(0, re, 0, ce, false)
    }

    pub fn row_start(&self) -> (r: usize)
        ensures
            r == self@.row_start,
            self@.wf(),
    {
        proof {
            use_type_invariant(self);
        }
        self.row_start
    }

    pub fn row_end(&self) -> (r: usize)
        ensures
            r == self@.row_end,
            self@.wf(),
    {
        proof {
            use_type_invariant(self);
        }
        self.row_end
    }

    pub fn col_start(&self) -> (r: usize)
        ensures
            r == self@.col_start,
            self@.wf(),
    {
        proof {
            use_type_invariant(self);
        }
        self.col_start
    }

    pub fn col_end(&self) -> (r: usize)
        ensures
            r == self@.col_end,
            self@.wf(),
    {
        proof {
            use_type_invariant(self);
        }
        self.col_end
    }

    pub fn is_editing(&self) -> (r: bool)
        ensures
            r == self@.editing,
            self@.wf(),
    {
        proof {
            use_type_invariant(self);
        }
        self.is_editing
    }

    /// Enters edit mode when asked to and the selection is a single cell; leaves it
    /// when asked to.
    pub fn set_editing(&mut self, is_editing: bool)
        ensures
            final(self)@.wf(),
            final(self)@ == (RangeModel {
                editing: is_editing && old(self)@.is_single_cell(),
                ..old(self)@
            }),
    {
        proof {
            use_type_invariant(&*self);
        }
        let single = self.is_single_cell();
        *self = Self::from_model(
            self.row_start,
            self.row_end,
            self.col_start,
            self.col_end,
            is_editing && single,
        );
    }

    pub fn is_single_cell(&self) -> (r: bool)
        ensures
            r == self@.is_single_cell(),
    {
        self.row_start == self.row_end && self.col_start == self.col_end
    }

    /// Follows a swap of the columns at `col1_idx` and `col2_idx` when a single
    /// cell in one of them is selected; otherwise leaves the selection as it is.
    pub fn swap_col(&mut self, col1_idx: usize, col2_idx: usize)
        requires
            col1_idx < usize::MAX,
            col2_idx < usize::MAX,
        ensures
            final(self)@.wf(),
            final(self)@ == if old(self)@.is_single_cell() && old(self)@.col_start == col1_idx {
                RangeModel { col_start: col2_idx as int, col_end: col2_idx as int, ..old(self)@ }
            } else if old(self)@.is_single_cell() && old(self)@.col_start == col2_idx {
                RangeModel { col_start: col1_idx as int, col_end: col1_idx as int, ..old(self)@ }
            } else {
                old(self)@
            },
    {
        proof {
            use_type_invariant(&*self);
        }
        if !self.is_single_cell() {
            return;
        }
        if self.col_start == col1_idx {
            *self = Self::from_model(
                self.row_start,
                self.row_end,
                col2_idx,
                col2_idx,
                self.is_editing,
            );
        } else if self.col_start == col2_idx {
            *self = Self::from_model(
                self.row_start,
                self.row_end,
                col1_idx,
                col1_idx,
                self.is_editing,
            );
        }
    }

    /// Grows the bounds, independently on each axis, so that they include the
    /// cell (`row_idx`, `col_idx`).
    pub fn stretch_to(&mut self, row_idx: usize, col_idx: usize)
        requires
            row_idx < usize::MAX,
            col_idx < usize::MAX,
        ensures
            final(self)@.wf(),
            ({
                let o = old(self)@;
                final(self)@ == o.with_bounds(
                    if row_idx < o.row_start { row_idx as int } else { o.row_start },
                    if row_idx > o.row_end { row_idx as int } else { o.row_end },
                    if col_idx < o.col_start { col_idx as int } else { o.col_start },
                    if col_idx > o.col_end { col_idx as int } else { o.col_end },
                )
            }),
    {
        proof {
            use_type_invariant(&*self);
        }
        let rs = if row_idx < self.row_start { row_idx } else { self.row_start };
        let re = if row_idx > self.row_end { row_idx } else { self.row_end };
        let cs = if col_idx < self.col_start { col_idx } else { self.col_start };
        let ce = if col_idx > self.col_end { col_idx } else { self.col_end };
        let single = rs == re && cs == ce;
        *self = Self::from_model(rs, re, cs, ce, self.is_editing && single);
    }

    /// Extends a whole-row selection to include row `row_idx`, covering all of
    /// `col_count` columns (just column 0 when there are none).
    pub fn stretch_multi_row(&mut self, row_idx: usize, col_count: usize)
        requires
            row_idx < usize::MAX,
        ensures
            final(self)@.wf(),
            ({
                let o = old(self)@;
                final(self)@ == o.with_bounds(
                    if row_idx < o.row_start { row_idx as int } else { o.row_start },
                    if row_idx >= o.row_start && row_idx > o.row_end { row_idx as int } else { o.row_end },
                    0,
                    last_col(col_count as int),
                )
            }),
    {
        proof {
            use_type_invariant(&*self);
        }
        let mut rs = self.row_start;
        let mut re = self.row_end;
        if row_idx < self.row_start {
            rs = row_idx;
        } else if row_idx > self.row_end {
            re = row_idx;
        }
        let ce = if col_count == 0 { 0 } else { col_count - 1 };
        let single = rs == re && 0 == ce;
        *self = Self::from_model(rs, re, 0, ce, self.is_editing && single);
    }

    pub fn contains(&self, row_idx: usize, col_idx: usize) -> (r: bool)
        ensures
            r == self@.contains(row_idx as int, col_idx as int),
    {
        row_idx >= self.row_start && row_idx <= self.row_end && col_idx >= self.col_start
            && col_idx <= self.col_end
    }

    pub fn contains_col(&self, col_idx: usize) -> (r: bool)
        ensures
            r == self@.contains_col(col_idx as int),
    {
        col_idx >= self.col_start && col_idx <= self.col_end
    }

    pub fn contains_row(&self, row_idx: usize) -> (r: bool)
        ensures
            r == (self@.row_start <= row_idx <= self@.row_end),
    {
        row_idx >= self.row_start && row_idx <= self.row_end
    }

    /// One step left; with `expand` only the left edge moves. A no-op at column 0.
    pub fn move_left(&mut self, expand: bool)
        ensures
            final(self)@.wf(),
            ({
                let o = old(self)@;
                final(self)@ == if o.col_start > 0 {
                    o.with_bounds(
                        o.row_start,
                        o.row_end,
                        o.col_start - 1,
                        if expand { o.col_end } else { o.col_end - 1 },
                    )
                } else {
                    o
                }
            }),
    {
        proof {
            use_type_invariant(&*self);
        }
        if self.col_start > 0 {
            let cs = self.col_start - 1;
            let ce = if expand { self.col_end } else { self.col_end - 1 };
            let single = self.row_start == self.row_end && cs == ce;
            *self = Self::from_model(self.row_start, self.row_end, cs, ce, self.is_editing && single);
        }
    }

    /// One step right; with `expand` only the right edge moves. A no-op at the
    /// last of `col_count` columns.
    pub fn move_right(&mut self, expand: bool, col_count: usize)
        ensures
            final(self)@.wf(),
            ({
                let o = old(self)@;
                final(self)@ == if o.col_end + 1 < col_count {
                    o.with_bounds(
                        o.row_start,
                        o.row_end,
                        if expand { o.col_start } else { o.col_start + 1 },
                        o.col_end + 1,
                    )
                } else {
                    o
                }
            }),
    {
        proof {
            use_type_invariant(&*self);
        }
        if self.col_end + 1 < col_count {
            let ce = self.col_end + 1;
            let cs = if expand { self.col_start } else { self.col_start + 1 };
            let single = self.row_start == self.row_end && cs == ce;
            *self = Self::from_model(self.row_start, self.row_end, cs, ce, self.is_editing && single);
        }
    }

    /// One step up; with `expand` only the top edge moves. A no-op at row 0.
    pub fn move_up(&mut self, expand: bool)
        ensures
            final(self)@.wf(),
            ({
                let o = old(self)@;
                final(self)@ == if o.row_start > 0 {
                    o.with_bounds(
                        o.row_start - 1,
                        if expand { o.row_end } else { o.row_end - 1 },
                        o.col_start,
                        o.col_end,
                    )
                } else {
                    o
                }
            }),
    {
        proof {
            use_type_invariant(&*self);
        }
        if self.row_start > 0 {
            let rs = self.row_start - 1;
            let re = if expand { self.row_end } else { self.row_end - 1 };
            let single = rs == re && self.col_start == self.col_end;
            *self = Self::from_model(rs, re, self.col_start, self.col_end, self.is_editing && single);
        }
    }

    /// One step down; with `expand` only the bottom edge moves. A no-op at the
    /// last of `row_count` rows.
    pub fn move_down(&mut self, expand: bool, row_count: usize)
        ensures
            final(self)@.wf(),
            ({
                let o = old(self)@;
                final(self)@ == if o.row_end + 1 < row_count {
                    o.with_bounds(
                        if expand { o.row_start } else { o.row_start + 1 },
                        o.row_end + 1,
                        o.col_start,
                        o.col_end,
                    )
                } else {
                    o
                }
            }),
    {
        proof {
            use_type_invariant(&*self);
        }
        if self.row_end + 1 < row_count {
            let re = self.row_end + 1;
            let rs = if expand { self.row_start } else { self.row_start + 1 };
            let single = rs == re && self.col_start == self.col_end;
            *self = Self::from_model(rs, re, self.col_start, self.col_end, self.is_editing && single);
        }
    }

    pub fn width(&self) -> (r: usize)
        ensures
            r == self@.width(),
    {
        proof {
            use_type_invariant(self);
        }
        self.col_end - self.col_start + 1
    }

    pub fn height(&self) -> (r: usize)
        ensures
            r == self@.height(),
    {
        proof {
            use_type_invariant(self);
        }
        self.row_end - self.row_start + 1
    }
}

} // verus!
