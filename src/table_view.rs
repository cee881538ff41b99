//! The grid's own state: column display order, the selection and edit state
//! machine, the pending paste block, and per-cell annotations.
use vstd::prelude::*;
use std::collections::HashMap;
use rvariant::Variant;
use crate::backend::{uids_of, VariantBackend};
use crate::clipboard::{block_matches, block_text, join_with, lemma_split_nonempty, parse_block, parsed_block, split_on};
use crate::ids::{coord_key, CellCoord, ColumnUid, RowUid, VisualRowIdx};
use crate::paste::{
    block_has_holes, block_of, block_width, fits_exactly, paste_target_cols, paste_target_rows, pasted, write_block,
};
use crate::selection::{cell_model, RangeModel, SelectedRange};
use crate::table_backend::TableBackend;
use crate::value::{
    display_is_safe, display_of, displays_safely, empty_value, is_empty_value, value_is_empty, value_text,
    DISPLAY_DEPTH,
};

verus! {

broadcast use vstd::std_specs::hash::group_hash_axioms;

/// What the embedding application allows in the grid.
#[derive(Copy, Clone, Debug, PartialEq, Eq, Structural)]
pub struct Settings {
    pub skippable_rows: bool,
    pub skippable_columns: bool,
    pub editable_column_names: bool,
    /// Whether cells can be edited and rows added or removed.
    pub editable_cells: bool,
    /// Whether column types and names can be changed.
    pub editable_columns: bool,
    pub commit_on_edit: bool,
}

impl Default for Settings {
    fn default() -> (r: Self)
        ensures
            !r.skippable_rows && !r.skippable_columns && !r.editable_column_names
                && !r.editable_cells && !r.editable_columns && !r.commit_on_edit,
    {
        Settings {
            skippable_rows: false,
            skippable_columns: false,
            editable_column_names: false,
            editable_cells: false,
            editable_columns: false,
            commit_on_edit: false,
        }
    }
}

/// A mark shown on a cell.
#[derive(Copy, Clone, Debug, PartialEq, Eq, Structural)]
pub enum Lint {
    /// Highlight the cell's text.
    HighlightRange,
    /// Highlight one item of a list value.
    HighlightIndex { idx: usize },
    /// Show an add button.
    AddButton,
    /// Show an icon (an icon font glyph).
    AddIcon { icon: char },
}

/// An event raised by a custom cell or tool-column widget.
#[derive(Clone, Debug)]
pub enum CustomUiResponse {
    UserEventI32(u32, i32),
    UserEventU32(u32, u32),
    UserEventString(u32, String),
}

/// The grid widget's state, carried from frame to frame.
pub struct TableView {
    columns_ordered: Vec<ColumnUid>,
    selected_range: Option<SelectedRange>,
    pasting_block_width: usize,
    pasting_block_with_holes: bool,
    about_to_paste_rows: Vec<Vec<String>>,
    create_rows_on_paste: bool,
    fill_with_same_on_paste: bool,
    create_adhoc_cols_on_paste: bool,
    updated_cells: Vec<CellCoord>,
    settings: Settings,
    custom_ui_response: Option<(CellCoord, CustomUiResponse)>,
    tool_ui_response: Option<(u32, CustomUiResponse)>,
    cell_tooltips: HashMap<u64, Vec<String>>,
    cell_lints: HashMap<u64, Vec<Lint>>,
    custom_ui_state: Vec<(CellCoord, Variant)>,
    recognized: HashMap<u32, bool>,
    rows_skip: HashMap<u32, bool>,
    scroll_to_row: Option<u32>,
    disabled_row: Option<u32>,
    enabled_row: Option<u32>,
    disabled_col: Option<u32>,
    enabled_col: Option<u32>,
}

/// The selection's model, if there is a selection.
pub open spec fn range_model(r: Option<SelectedRange>) -> Option<RangeModel> {
    match r {
        Some(s) => Some(s@),
        None => None,
    }
}

/// Which cell, in visual indices, a selection in edit mode is editing.
pub open spec fn editing_cell(r: Option<RangeModel>) -> Option<(int, int)> {
    match r {
        Some(m) => if m.editing {
            Some((m.row_start, m.col_start))
        } else {
            None
        },
        None => None,
    }
}

/// The selection after a plain or shift click on cell (`row`, `col`).
pub open spec fn after_click(r: Option<RangeModel>, row: int, col: int, shift: bool, editable: bool) -> Option<RangeModel> {
    match r {
        None => Some(cell_model(row, col)),
        Some(m) => if shift {
            Some(m.with_bounds(
                if row < m.row_start { row } else { m.row_start },
                if row > m.row_end { row } else { m.row_end },
                if col < m.col_start { col } else { m.col_start },
                if col > m.col_end { col } else { m.col_end },
            ))
        } else if m.same_bounds(cell_model(row, col)) {
            Some(RangeModel { editing: editable, ..m })
        } else {
            Some(cell_model(row, col))
        },
    }
}

/// Where column `uid` stands in `order`, if it does: the first place.
pub open spec fn index_of(order: Seq<ColumnUid>, uid: ColumnUid) -> Option<int> {
    if exists|i: int| 0 <= i < order.len() && order[i] == uid {
        Some(choose|i: int| 0 <= i < order.len() && order[i] == uid && forall|k: int| 0 <= k < i ==> order[k] != uid)
    } else {
        None
    }
}

/// The selection after the columns at `i` and `j` swap places: a single cell
/// follows its column; a larger selection survives only if it holds both.
pub open spec fn after_swap(r: Option<RangeModel>, i: int, j: int) -> Option<RangeModel> {
    match r {
        None => None,
        Some(m) => if m.is_single_cell() {
            if m.col_start == i {
                Some(RangeModel { col_start: j, col_end: j, ..m })
            } else if m.col_start == j {
                Some(RangeModel { col_start: i, col_end: i, ..m })
            } else {
                Some(m)
            }
        } else if m.contains_col(i) && m.contains_col(j) {
            Some(m)
        } else {
            None
        },
    }
}

impl TableView {
    /// The columns in display order.
    pub closed spec fn order(&self) -> Seq<ColumnUid> {
        self.columns_ordered@
    }

    /// The current selection.
    pub closed spec fn selection(&self) -> Option<RangeModel> {
        range_model(self.selected_range)
    }

    /// The pending paste block, as cells of text.
    pub closed spec fn pending_rows(&self) -> Seq<Seq<Seq<char>>> {
        self.about_to_paste_rows@.map_values(
            |row: Vec<String>| row@.map_values(|c: String| c@),
        )
    }

    pub closed spec fn pending_width(&self) -> int {
        self.pasting_block_width as int
    }

    pub closed spec fn pending_has_holes(&self) -> bool {
        self.pasting_block_with_holes
    }

    /// The choices made for a paste that does not fit the selection: create
    /// rows, fill by repetition, create columns.
    pub closed spec fn paste_choices(&self) -> (bool, bool, bool) {
        (self.create_rows_on_paste, self.fill_with_same_on_paste, self.create_adhoc_cols_on_paste)
    }

    /// The cells written by the last paste, in order.
    pub closed spec fn updated(&self) -> Seq<CellCoord> {
        self.updated_cells@
    }

    /// Nothing but the selection differs from `o`.
    pub open spec fn same_but_selection(&self, o: &TableView) -> bool {
        &&& self.order() == o.order()
        &&& self.pending_rows() == o.pending_rows()
        &&& self.pending_width() == o.pending_width()
        &&& self.pending_has_holes() == o.pending_has_holes()
        &&& self.paste_choices() == o.paste_choices()
        &&& self.updated() == o.updated()
    }

    pub fn new() -> (r: Self)
        ensures
            r.order() == Seq::<ColumnUid>::empty(),
            r.order().no_duplicates(),
            r.selection() is None,
            r.pending_rows() == Seq::<Seq<Seq<char>>>::empty(),
            r.paste_choices() == (false, false, false),
            r.updated() == Seq::<CellCoord>::empty(),
    {
        let r = TableView {
            columns_ordered: Vec::new(),
            selected_range: None,
            pasting_block_width: 0,
            pasting_block_with_holes: false,
            about_to_paste_rows: Vec::new(),
            create_rows_on_paste: false,
            fill_with_same_on_paste: false,
            create_adhoc_cols_on_paste: false,
            updated_cells: Vec::new(),
            settings: Settings::default(),
            custom_ui_response: None,
            tool_ui_response: None,
            cell_tooltips: HashMap::new(),
            cell_lints: HashMap::new(),
            custom_ui_state: Vec::new(),
            recognized: HashMap::new(),
            rows_skip: HashMap::new(),
            scroll_to_row: None,
            disabled_row: None,
            enabled_row: None,
            disabled_col: None,
            enabled_col: None,
        };
        proof {
            assert(r.pending_rows() =~= Seq::<Seq<Seq<char>>>::empty());
        }
        r
    }

    /// The columns in display order.
    pub fn columns(&self) -> (r: &Vec<ColumnUid>)
        ensures
            r@ == self.order(),
    {
        &self.columns_ordered
    }

    /// The current selection.
    pub fn selected_range(&self) -> (r: Option<SelectedRange>)
        ensures
            range_model(r) == self.selection(),
    {
        self.selected_range
    }

    /// Takes the column set afresh from the backend when it reports that its
    /// columns were reset; returns whether there are no columns to show.
    pub fn check_col_set_updated(&mut self, table: &VariantBackend) -> (no_columns: bool)
        requires
            table.wf(),
        ensures
            table.pending_flags().columns_reset ==> final(self).order().no_duplicates(),
            old(self).order().no_duplicates() ==> final(self).order().no_duplicates(),
            final(self).order() == if table.pending_flags().columns_reset {
                uids_of(table.columns())
            } else {
                old(self).order()
            },
            no_columns == (final(self).order().len() == 0),
            final(self).selection() == old(self).selection(),
            final(self).pending_rows() == old(self).pending_rows(),
    {
        if table.one_shot_flags_internal().columns_reset {
            self.columns_ordered = table.used_columns();
            proof {
                table.lemma_columns_ascending();
                let cols = table.columns();
                assert forall|i: int, j: int| 0 <= i < self.columns_ordered@.len() && 0 <= j < self.columns_ordered@.len() && i != j implies self.columns_ordered@[i]
                    != self.columns_ordered@[j] by {
                    if i < j {
                        assert(cols[i].uid.0 < cols[j].uid.0);
                    } else {
                        assert(cols[j].uid.0 < cols[i].uid.0);
                    }
                }
            }
        }
        self.columns_ordered.len() == 0
    }

    /// A click on cell (`row_idx`, `col_idx`). Without a selection the cell is
    /// selected. With shift the selection stretches to include it. Clicking the
    /// one selected cell again enters edit mode, if `editable`. Clicking another
    /// cell selects it alone. Returns the cell whose edit is to be committed
    /// because the click ended it.
    pub fn click_cell(&mut self, row_idx: usize, col_idx: usize, shift: bool, editable: bool) -> (commit: Option<(usize, usize)>)
        requires
            row_idx < usize::MAX,
            col_idx < usize::MAX,
        ensures
            final(self).selection() == after_click(old(self).selection(), row_idx as int, col_idx as int, shift, editable),
            final(self).selection()->0.wf(),
            match commit {
                Some(c) => editing_cell(old(self).selection()) == Some((c.0 as int, c.1 as int))
                    && editing_cell(final(self).selection()) is None,
                None => editing_cell(old(self).selection()) is None
                    || editing_cell(final(self).selection()) == editing_cell(old(self).selection()),
            },
            final(self).same_but_selection(old(self)),
    {
        let current = SelectedRange::single_cell(row_idx, col_idx);
        match self.selected_range {
            None => {
                self.selected_range = Some(current);
                None
            },
            Some(r) => {
                let mut r = r;
                let was_editing = r.is_editing();
                let commit = if was_editing {
                    Some((r.row_start(), r.col_start()))
                } else {
                    None
                };
                if shift {
                    r.stretch_to(row_idx, col_idx);
                    self.selected_range = Some(r);
                    if r.is_editing() {
                        None
                    } else {
                        commit
                    }
                } else if r == current {
                    r.set_editing(editable);
                    self.selected_range = Some(r);
                    if r.is_editing() {
                        None
                    } else {
                        commit
                    }
                } else {
                    self.selected_range = Some(current);
                    commit
                }
            },
        }
    }

    /// A click on a row's header cell: selects the whole row, or with shift
    /// stretches a selection over whole rows to include it. Without displayed
    /// columns there is nothing to select and nothing changes.
    pub fn click_row_header(&mut self, row_idx: usize, shift: bool)
        requires
            row_idx < usize::MAX,
        ensures
            ({
                let n = old(self).order().len() as int;
                final(self).selection() == if n == 0 {
                    old(self).selection()
                } else {
                    match old(self).selection() {
                        Some(m) => if shift {
                            Some(m.with_bounds(
                                if row_idx < m.row_start { row_idx as int } else { m.row_start },
                                if row_idx >= m.row_start && row_idx > m.row_end { row_idx as int } else { m.row_end },
                                0,
                                n - 1,
                            ))
                        } else {
                            Some(RangeModel {
                                row_start: row_idx as int,
                                row_end: row_idx as int,
                                col_start: 0,
                                col_end: n - 1,
                                editing: false,
                            })
                        },
                        None => Some(RangeModel {
                            row_start: row_idx as int,
                            row_end: row_idx as int,
                            col_start: 0,
                            col_end: n - 1,
                            editing: false,
                        }),
                    }
                }
            }),
            final(self).same_but_selection(old(self)),
    {
        let n = self.columns_ordered.len();
        if n == 0 {
            return;
        }
        match self.selected_range {
            Some(r) => {
                if shift {
                    let mut r = r;
                    r.stretch_multi_row(row_idx, n);
                    self.selected_range = Some(r);
                } else {
                    self.selected_range = Some(SelectedRange::single_row(row_idx, n));
                }
            },
            None => {
                self.selected_range = Some(SelectedRange::single_row(row_idx, n));
            },
        }
    }

    /// Enter: ends an edit, which is to be committed, and deselects; without
    /// an edit just deselects. Returns the cell to commit.
    pub fn press_enter(&mut self) -> (commit: Option<(usize, usize)>)
        ensures
            final(self).selection() is None,
            match commit {
                Some(c) => editing_cell(old(self).selection()) == Some((c.0 as int, c.1 as int)),
                None => editing_cell(old(self).selection()) is None,
            },
            final(self).same_but_selection(old(self)),
    {
        let commit = match self.selected_range {
            Some(r) => if r.is_editing() {
                Some((r.row_start(), r.col_start()))
            } else {
                None
            },
            None => None,
        };
        self.selected_range = None;
        commit
    }

    /// Escape: leaves edit mode, the pending edit to be discarded, keeping the
    /// cell selected; without an edit, clears the selection. Returns whether an
    /// edit was discarded.
    pub fn press_escape(&mut self) -> (discarded: bool)
        ensures
            discarded == (editing_cell(old(self).selection()) is Some),
            final(self).selection() == match old(self).selection() {
                Some(m) => if m.editing {
                    Some(RangeModel { editing: false, ..m })
                } else {
                    None
                },
                None => None,
            },
            final(self).same_but_selection(old(self)),
    {
        match self.selected_range {
            Some(r) => {
                if r.is_editing() {
                    let mut r = r;
                    r.set_editing(false);
                    self.selected_range = Some(r);
                    true
                } else {
                    self.selected_range = None;
                    false
                }
            },
            None => false,
        }
    }

    /// Arrow keys: moves (or with shift stretches) the selection one step in each
    /// direction pressed, in the order left, right, up, down, within
    /// `row_count` rows and the displayed columns.
    #[verifier::spinoff_prover]
    #[verifier::rlimit(40)]
    pub fn handle_selection_moves(&mut self, left: bool, right: bool, up: bool, down: bool, shift: bool, row_count: usize)
        ensures
            match old(self).selection() {
                None => final(self).selection() is None,
                Some(m) => {
                    let n = old(self).order().len() as int;
                    let m1 = if left && m.col_start > 0 {
                        m.with_bounds(m.row_start, m.row_end, m.col_start - 1, if shift { m.col_end } else { m.col_end - 1 })
                    } else { m };
                    let m2 = if right && m1.col_end + 1 < n {
                        m1.with_bounds(m1.row_start, m1.row_end, if shift { m1.col_start } else { m1.col_start + 1 }, m1.col_end + 1)
                    } else { m1 };
                    let m3 = if up && m2.row_start > 0 {
                        m2.with_bounds(m2.row_start - 1, if shift { m2.row_end } else { m2.row_end - 1 }, m2.col_start, m2.col_end)
                    } else { m2 };
                    let m4 = if down && m3.row_end + 1 < row_count {
                        m3.with_bounds(if shift { m3.row_start } else { m3.row_start + 1 }, m3.row_end + 1, m3.col_start, m3.col_end)
                    } else { m3 };
                    final(self).selection() == Some(m4)
                },
            },
            final(self).order() == old(self).order(),
            final(self).pending_rows() == old(self).pending_rows(),
            final(self).pending_width() == old(self).pending_width(),
            final(self).pending_has_holes() == old(self).pending_has_holes(),
            final(self).paste_choices() == old(self).paste_choices(),
            final(self).updated() == old(self).updated(),
    {
        let sel = self.selected_range;
        if let Some(r) = sel {
            let mut r = r;
            if left {
                r.move_left(shift);
            }
            if right {
                r.move_right(shift, self.columns_ordered.len());
            }
            if up {
                r.move_up(shift);
            }
            if down {
                r.move_down(shift, row_count);
            }
            self.selected_range = Some(r);
        }
    }

    fn position_of(order: &Vec<ColumnUid>, uid: ColumnUid) -> (r: Option<usize>)
        ensures
            match r {
                Some(i) => index_of(order@, uid) == Some(i as int) && i < order@.len() && order@[i as int] == uid,
                None => index_of(order@, uid) is None,
            },
    {
        let mut i: usize = 0;
        while i < order.len()
            invariant
                i <= order@.len(),
                forall|k: int| 0 <= k < i ==> order@[k] != uid,
            decreases order@.len() - i,
        {
            if order[i] == uid {
                proof {
                    let w = choose|j: int| 0 <= j < order@.len() && order@[j] == uid && forall|k: int| 0 <= k < j ==> order@[k] != uid;
                    assert(0 <= i < order@.len() && order@[i as int] == uid && forall|k: int| 0 <= k < i ==> order@[k] != uid);
                    if w < i {
                    } else if w > i {
                        assert(order@[i as int] != uid);
                    }
                }
                return Some(i);
            }
            i = i + 1;
        }
        None
    }

    /// Swaps two columns in display order (a header dropped on another). A
    /// single selected cell follows its column; a larger selection that does not
    /// hold both columns is dropped. Nothing happens unless both are displayed.
    #[verifier::spinoff_prover]
    #[verifier::rlimit(60)]
    pub fn swap_columns(&mut self, c1: ColumnUid, c2: ColumnUid)
        ensures
            match (index_of(old(self).order(), c1), index_of(old(self).order(), c2)) {
                (Some(i), Some(j)) => {
                    &&& final(self).order() == old(self).order().update(i, old(self).order()[j]).update(j, old(self).order()[i])
                    &&& final(self).selection() == after_swap(old(self).selection(), i, j)
                },
                _ => final(self).order() == old(self).order() && final(self).selection() == old(self).selection(),
            },
            final(self).pending_rows() == old(self).pending_rows(),
            old(self).order().no_duplicates() ==> final(self).order().no_duplicates(),
    {
        let ghost o = self.columns_ordered@;
        let i1 = Self::position_of(&self.columns_ordered, c1);
        let i2 = Self::position_of(&self.columns_ordered, c2);
        if let (Some(i), Some(j)) = (i1, i2) {
            let a = self.columns_ordered[i];
            let b = self.columns_ordered[j];
            self.columns_ordered.set(i, b);
            self.columns_ordered.set(j, a);
            proof {
                if o.no_duplicates() {
                    let f = self.columns_ordered@;
                    assert forall|x: int, y: int| 0 <= x < f.len() && 0 <= y < f.len() && x != y implies f[x] != f[y] by {
                        let sx = if x == i { j as int } else if x == j { i as int } else { x };
                        let sy = if y == i { j as int } else if y == j { i as int } else { y };
                        assert(f[x] == o[sx]);
                        assert(f[y] == o[sy]);
                    }
                }
            }
            if let Some(r) = self.selected_range {
                if r.is_single_cell() {
                    let mut r = r;
                    assert(i < self.columns_ordered.len() && j < self.columns_ordered.len());
                    r.swap_col(i, j);
                    self.selected_range = Some(r);
                } else if !(r.contains_col(i) && r.contains_col(j)) {
                    self.selected_range = None;
                }
            }
        }
    }
}


/// The text a cell is copied as: how its value displays, or nothing when the
/// cell has no value, lies outside the table, or holds a value that cannot be
/// displayed (see `displays_safely`).
pub open spec fn copy_text_of<B: TableBackend>(b: &B, order: Seq<ColumnUid>, row: int, col: int) -> Seq<char> {
    if 0 <= row < b.visible_rows().len() && 0 <= col < order.len() {
        match b.stored(CellCoord { row_uid: b.visible_rows()[row], col_uid: order[col] }) {
            Some(v) => if displays_safely(v) {
                display_of(v)
            } else {
                Seq::<char>::empty()
            },
            None => Seq::<char>::empty(),
        }
    } else {
        Seq::<char>::empty()
    }
}

/// The cells of a selection as text, row by row.
pub open spec fn selection_block<B: TableBackend>(b: &B, order: Seq<ColumnUid>, m: RangeModel) -> Seq<Seq<Seq<char>>> {
    Seq::new(
        m.height() as nat,
        |i: int| Seq::new(m.width() as nat, |j: int| copy_text_of(b, order, m.row_start + i, m.col_start + j)),
    )
}

proof fn lemma_join_step(ps: Seq<Seq<char>>, j: int, sep: char)
    requires
        1 <= j < ps.len(),
    ensures
        join_with(ps.take(j + 1), sep) == join_with(ps.take(j), sep) + seq![sep] + ps[j],
{
    assert(ps.take(j + 1).drop_last() =~= ps.take(j));
}

proof fn lemma_join_first(ps: Seq<Seq<char>>, sep: char)
    requires
        1 <= ps.len(),
    ensures
        join_with(ps.take(1), sep) == ps[0],
{
}


impl TableView {
    /// The selection as tab-separated cells and newline-separated rows; empty
    /// without a selection.
    pub fn copy_selection<B: TableBackend>(&self, table: &B) -> (r: String)
        ensures
            r@ == match self.selection() {
                Some(m) => block_text(selection_block(table, self.order(), m)),
                None => Seq::<char>::empty(),
            },
    {
        let sel = match self.selected_range {
            Some(s) => s,
            None => return String::new(),
        };
        let h = sel.height();
        let w = sel.width();
        let rs = sel.row_start();
        let cs = sel.col_start();
        let ghost m = sel@;
        let ghost block = selection_block(table, self.order(), m);
        let ghost lines = block.map_values(|row: Seq<Seq<char>>| join_with(row, '\t'));
        proof {
            reveal_strlit("\t");
            reveal_strlit("\n");
        }
        let mut text = String::new();
        let mut i: usize = 0;
        while i < h
            invariant
                m == sel@,
                m.wf(),
                h == m.height(),
                w == m.width(),
                rs == m.row_start,
                cs == m.col_start,
                block == selection_block(table, self.columns_ordered@, m),
                lines == block.map_values(|row: Seq<Seq<char>>| join_with(row, '\t')),
                i <= h,
                text@ == join_with(lines.take(i as int), '\n'),
                "\t"@ == seq!['\t'],
                "\n"@ == seq!['\n'],
            decreases h - i,
        {
            let mut line = String::new();
            let ghost cells = block[i as int];
            let row_uid = table.row_uid(VisualRowIdx(rs + i));
            let mut j: usize = 0;
            while j < w
                invariant
                    m == sel@,
                    m.wf(),
                    h == m.height(),
                    w == m.width(),
                    rs == m.row_start,
                    cs == m.col_start,
                    i < h,
                    block == selection_block(table, self.columns_ordered@, m),
                    cells == block[i as int],
                    cells.len() == w,
                    row_uid == (if rs + i < table.visible_rows().len() { Some(table.visible_rows()[rs + i]) } else { None::<RowUid> }),
                    j <= w,
                    line@ == join_with(cells.take(j as int), '\t'),
                    "\t"@ == seq!['\t'],
                decreases w - j,
            {
                let piece = match row_uid {
                    Some(ru) => {
                        if cs + j < self.columns_ordered.len() {
                            let coord = CellCoord { row_uid: ru, col_uid: self.columns_ordered[cs + j] };
                            match table.get(coord) {
                                Some(v) => if display_is_safe(v, DISPLAY_DEPTH) {
                                    value_text(v)
                                } else {
                                    String::new()
                                },
                                None => String::new(),
                            }
                        } else {
                            String::new()
                        }
                    },
                    None => String::new(),
                };
                proof {
                    assert(piece@ == cells[j as int]);
                }
                if j > 0 {
                    line.append("\t");
                    proof {
                        lemma_join_step(cells, j as int, '\t');
                    }
                } else {
                    proof {
                        lemma_join_first(cells, '\t');
                        assert(cells.take(0) =~= Seq::<Seq<char>>::empty());
                        assert(line@ =~= Seq::<char>::empty());
                    }
                }
                line.append(piece.as_str());
                proof {
                    if j == 0 {
                        assert(line@ =~= cells[0]);
                    }
                }
                j = j + 1;
            }
            proof {
                assert(cells.take(w as int) =~= cells);
                assert(line@ == lines[i as int]);
            }
            if i > 0 {
                text.append("\n");
                proof {
                    lemma_join_step(lines, i as int, '\n');
                }
            } else {
                proof {
                    assert(lines.take(0) =~= Seq::<Seq<char>>::empty());
                    assert(text@ =~= Seq::<char>::empty());
                }
            }
            text.append(line.as_str());
            proof {
                if i == 0 {
                    lemma_join_first(lines, '\n');
                    assert(text@ =~= lines[0]);
                }
            }
            i = i + 1;
        }
        proof {
            assert(lines.take(h as int) =~= lines);
        }
        text
    }
}


/// What became of clipboard text handed to the grid.
#[derive(Copy, Clone, Debug, PartialEq, Eq, Structural)]
pub enum PasteStatus {
    /// The text was empty: nothing happened.
    Empty,
    /// There was no selection to paste into: nothing was written.
    NoSelection,
    /// The block fitted the selection exactly and was written.
    Applied,
    /// The block does not fit the selection: it waits for the user's choices.
    AwaitingChoice,
}

impl TableView {
    /// The pending paste block.
    pub fn pending_paste_rows(&self) -> (r: &Vec<Vec<String>>)
        ensures
            block_of(r@) == self.pending_rows(),
    {
        &self.about_to_paste_rows
    }

    /// The width of the pending block: its longest row.
    pub fn pasting_block_width(&self) -> (r: usize)
        ensures
            r == self.pending_width(),
    {
        self.pasting_block_width
    }

    /// Whether rows of the pending block differ in length.
    pub fn pasting_block_with_holes(&self) -> (r: bool)
        ensures
            r == self.pending_has_holes(),
    {
        self.pasting_block_with_holes
    }

    /// The cells the last paste wrote, in order.
    pub fn updated_cells(&self) -> (r: &Vec<CellCoord>)
        ensures
            r@ == self.updated(),
    {
        &self.updated_cells
    }

    /// The user's choices for a block that does not fit: create the rows a
    /// taller block needs, fill a larger selection by repeating the block,
    /// create the columns a wider block needs.
    pub fn set_paste_choices(&mut self, create_rows: bool, fill_with_same: bool, create_cols: bool)
        ensures
            final(self).paste_choices() == (create_rows, fill_with_same, create_cols),
            final(self).selection() == old(self).selection(),
            final(self).order() == old(self).order(),
            final(self).pending_rows() == old(self).pending_rows(),
            final(self).pending_width() == old(self).pending_width(),
            final(self).pending_has_holes() == old(self).pending_has_holes(),
            final(self).updated() == old(self).updated(),
    {
        self.create_rows_on_paste = create_rows;
        self.fill_with_same_on_paste = fill_with_same;
        self.create_adhoc_cols_on_paste = create_cols;
    }

    /// Drops the pending block without writing anything.
    pub fn decline_paste(&mut self)
        ensures
            final(self).pending_rows().len() == 0,
            final(self).selection() == old(self).selection(),
            final(self).order() == old(self).order(),
            final(self).updated() == old(self).updated(),
    {
        self.about_to_paste_rows = Vec::new();
    }

    /// Writes the pending block into the selection with the choices made, then
    /// drops it. Without a selection or a pending block nothing is written.
    pub fn paste_block(&mut self, table: &mut VariantBackend)
        requires
            old(table).wf(),
        ensures
            final(table).wf(),
            final(self).pending_rows().len() == 0,
            final(self).selection() == old(self).selection(),
            final(self).order() == old(self).order(),
            final(self).paste_choices() == old(self).paste_choices(),
            final(self).pending_width() == old(self).pending_width(),
            final(self).pending_has_holes() == old(self).pending_has_holes(),
            match old(self).selection() {
                Some(m) => if old(self).pending_rows().len() > 0 {
                    pasted(
                        old(table),
                        final(table),
                        old(self).order(),
                        m,
                        old(self).pending_rows(),
                        old(self).pending_width(),
                        old(self).paste_choices().0,
                        old(self).paste_choices().1,
                        old(self).paste_choices().2,
                        final(self).updated(),
                    )
                } else {
                    *final(table) == *old(table) && final(self).updated() == old(self).updated()
                },
                None => *final(table) == *old(table) && final(self).updated() == old(self).updated(),
            },
    {
        let sel = match self.selected_range {
            Some(s) => s,
            None => {
                self.about_to_paste_rows = Vec::new();
                return;
            },
        };
        let n = self.about_to_paste_rows.len();
        if n == 0 {
            return;
        }
        let ghost b0 = *table;
        let row_ids = paste_target_rows(table, sel, n, self.create_rows_on_paste);
        let ghost b1 = *table;
        let col_ids = paste_target_cols(
            &self.columns_ordered,
            table,
            sel,
            self.pasting_block_width,
            self.create_adhoc_cols_on_paste,
        );
        let ghost b2 = *table;
        let mut updated: Vec<CellCoord> = Vec::new();
        write_block(
            table,
            &row_ids,
            &col_ids,
            &self.about_to_paste_rows,
            self.fill_with_same_on_paste,
            &mut updated,
        );
        self.updated_cells = updated;
        self.about_to_paste_rows = Vec::new();
        proof {
            assert(b2.columns() == table.columns());
            assert(b1.columns() == b0.columns());
        }
    }

    /// Clipboard text pasted into the grid. Empty text is ignored, and so is
    /// text with no selection to paste into. The text becomes a pending block of
    /// trimmed cells; one that fits the selection exactly is written at once,
    /// any other waits for the user's choices, all of them off.
    pub fn handle_paste(&mut self, text: &str, table: &mut VariantBackend) -> (r: PasteStatus)
        requires
            old(table).wf(),
        ensures
            final(table).wf(),
            final(self).selection() == old(self).selection(),
            final(self).order() == old(self).order(),
            text@.len() == 0 ==> r == PasteStatus::Empty && *final(table) == *old(table)
                && *final(self) == *old(self),
            text@.len() > 0 && old(self).selection() is None ==> r == PasteStatus::NoSelection
                && *final(table) == *old(table) && *final(self) == *old(self),
            text@.len() > 0 && old(self).selection() is Some ==> {
                let m = old(self).selection()->0;
                let b = parsed_block(text@);
                if fits_exactly(b, m) {
                    &&& r == PasteStatus::Applied
                    &&& pasted(old(table), final(table), old(self).order(), m, b, block_width(b), false, false, false, final(self).updated())
                    &&& final(self).pending_rows().len() == 0
                    &&& final(self).pending_width() == block_width(b)
                    &&& final(self).pending_has_holes() == block_has_holes(b)
                    &&& final(self).paste_choices() == (false, false, false)
                } else {
                    &&& r == PasteStatus::AwaitingChoice
                    &&& *final(table) == *old(table)
                    &&& final(self).pending_rows() == b
                    &&& final(self).pending_width() == block_width(b)
                    &&& final(self).pending_has_holes() == block_has_holes(b)
                    &&& final(self).paste_choices() == (false, false, false)
                }
            },
    {
        if text.unicode_len() == 0 {
            return PasteStatus::Empty;
        }
        let sel = match self.selected_range {
            Some(s) => s,
            None => return PasteStatus::NoSelection,
        };
        let rows = parse_block(text);
        let ghost b = parsed_block(text@);
        proof {
            lemma_split_nonempty(text@, '\n');
            assert forall|r: int| 0 <= r < b.len() implies (#[trigger] b[r]).len() >= 1 by {
                lemma_split_nonempty(split_on(text@, '\n')[r], '\t');
            }
            assert(block_of(rows@) =~~= b);
        }
        let n = rows.len();
        let first_len = rows[0].len();
        let mut width: usize = 0;
        let mut holes = false;
        let mut i: usize = 0;
        while i < n
            invariant
                n == rows@.len(),
                n >= 1,
                block_matches(rows@, b),
                first_len == b[0].len(),
                i <= n,
                width == block_width(b.take(i as int)),
                holes == exists|r: int| 0 <= r < i && #[trigger] b[r].len() != b[0].len(),
            decreases n - i,
        {
            let l = rows[i].len();
            proof {
                assert(b.take(i + 1).drop_last() =~= b.take(i as int));
                assert(l == b[i as int].len());
            }
            if l > width {
                width = l;
            }
            if l != first_len {
                holes = true;
            }
            i = i + 1;
        }
        proof {
            assert(b.take(n as int) =~= b);
        }
        self.about_to_paste_rows = rows;
        self.pasting_block_width = width;
        self.pasting_block_with_holes = holes;
        self.create_rows_on_paste = false;
        self.fill_with_same_on_paste = false;
        self.create_adhoc_cols_on_paste = false;
        proof {
            assert(self.pending_rows() == b);
        }
        if n == sel.height() && width == sel.width() && !holes {
            self.paste_block(table);
            PasteStatus::Applied
        } else {
            PasteStatus::AwaitingChoice
        }
    }
}


impl TableView {
    pub closed spec fn settings_spec(&self) -> Settings {
        self.settings
    }

    pub closed spec fn tooltips(&self) -> Map<u64, Seq<String>> {
        self.cell_tooltips@.map_values(|v: Vec<String>| v@)
    }

    pub closed spec fn skipped_rows(&self) -> Map<u32, bool> {
        self.rows_skip@
    }

    pub closed spec fn recognized_columns(&self) -> Map<u32, bool> {
        self.recognized@
    }

    pub closed spec fn scroll_target(&self) -> Option<u32> {
        self.scroll_to_row
    }

    pub closed spec fn row_events(&self) -> (Option<u32>, Option<u32>) {
        (self.disabled_row, self.enabled_row)
    }

    pub closed spec fn col_events(&self) -> (Option<u32>, Option<u32>) {
        (self.disabled_col, self.enabled_col)
    }

    pub closed spec fn custom_response(&self) -> Option<(CellCoord, CustomUiResponse)> {
        self.custom_ui_response
    }

    pub closed spec fn tool_response(&self) -> Option<(u32, CustomUiResponse)> {
        self.tool_ui_response
    }

    pub fn set_settings(&mut self, settings: Settings)
        ensures
            final(self).settings_spec() == settings,
            final(self).selection() == old(self).selection(),
            final(self).order() == old(self).order(),
    {
        self.settings = settings;
    }

    pub fn settings(&self) -> (r: &Settings)
        ensures
            *r == self.settings_spec(),
    {
        &self.settings
    }

    /// Records an event of a custom cell widget, to be taken once.
    pub fn set_custom_ui_response(&mut self, coord: CellCoord, response: CustomUiResponse)
        ensures
            final(self).custom_response() == Some((coord, response)),
            final(self).selection() == old(self).selection(),
            final(self).order() == old(self).order(),
    {
        self.custom_ui_response = Some((coord, response));
    }

    /// Takes the last event of a custom cell widget, leaving none.
    pub fn take_custom_ui_response(&mut self) -> (r: Option<(CellCoord, CustomUiResponse)>)
        ensures
            r == old(self).custom_response(),
            final(self).custom_response() is None,
            final(self).selection() == old(self).selection(),
            final(self).order() == old(self).order(),
    {
        self.custom_ui_response.take()
    }

    /// Records an event of the tool-column widget of a row, to be taken once.
    pub fn set_tool_ui_response(&mut self, row_uid: u32, response: CustomUiResponse)
        ensures
            final(self).tool_response() == Some((row_uid, response)),
            final(self).selection() == old(self).selection(),
            final(self).order() == old(self).order(),
    {
        self.tool_ui_response = Some((row_uid, response));
    }

    /// Takes the last event of a tool-column widget, leaving none.
    pub fn take_tool_ui_response(&mut self) -> (r: Option<(u32, CustomUiResponse)>)
        ensures
            r == old(self).tool_response(),
            final(self).tool_response() is None,
            final(self).selection() == old(self).selection(),
            final(self).order() == old(self).order(),
    {
        self.tool_ui_response.take()
    }

    /// Adds a tooltip to a cell.
    pub fn add_cell_tooltip(&mut self, coord: CellCoord, tooltip: String)
        ensures
            final(self).tooltips() == old(self).tooltips().insert(
                coord_key(coord),
                if old(self).tooltips().contains_key(coord_key(coord)) {
                    old(self).tooltips()[coord_key(coord)].push(tooltip)
                } else {
                    seq![tooltip]
                },
            ),
            final(self).selection() == old(self).selection(),
            final(self).order() == old(self).order(),
    {
        let key = coord.key();
        let ghost t0 = self.cell_tooltips@;
        let mut list = match self.cell_tooltips.remove(&key) {
            Some(v) => v,
            None => Vec::new(),
        };
        let ghost l0 = list@;
        list.push(tooltip);
        self.cell_tooltips.insert(key, list);
        proof {
            if t0.contains_key(key) {
                assert(l0 == t0[key]@);
            } else {
                assert(l0 =~= Seq::<String>::empty());
                assert(list@ =~= seq![tooltip]);
            }
            assert(self.tooltips() =~= t0.map_values(|v: Vec<String>| v@).insert(key, list@));
        }
    }

    /// The tooltips of a cell.
    pub fn cell_tooltips(&self, coord: CellCoord) -> (r: Option<&Vec<String>>)
        ensures
            match r {
                Some(v) => self.tooltips().contains_key(coord_key(coord)) && v@ == self.tooltips()[coord_key(coord)],
                None => !self.tooltips().contains_key(coord_key(coord)),
            },
    {
        let key = coord.key();
        self.cell_tooltips.get(&key)
    }

    /// Removes the annotations of a cell.
    pub fn clear_cell_lints(&mut self, coord: CellCoord)
        ensures
            final(self).tooltips() == if old(self).tooltips().contains_key(coord_key(coord)) {
                old(self).tooltips().insert(coord_key(coord), Seq::<String>::empty())
            } else {
                old(self).tooltips()
            },
            final(self).lints() == if old(self).lints().contains_key(coord_key(coord)) {
                old(self).lints().insert(coord_key(coord), Seq::<Lint>::empty())
            } else {
                old(self).lints()
            },
            final(self).selection() == old(self).selection(),
            final(self).order() == old(self).order(),
    {
        let key = coord.key();
        let ghost t0 = self.cell_tooltips@;
        let ghost l0 = self.cell_lints@;
        if self.cell_tooltips.contains_key(&key) {
            self.cell_tooltips.insert(key, Vec::new());
            proof {
                assert(self.tooltips() =~= t0.map_values(|v: Vec<String>| v@).insert(key, Seq::<String>::empty()));
            }
        }
        if self.cell_lints.contains_key(&key) {
            self.cell_lints.insert(key, Vec::new());
            proof {
                assert(self.lints() =~= l0.map_values(|v: Vec<Lint>| v@).insert(key, Seq::<Lint>::empty()));
            }
        }
    }

    /// The marks of each cell, by cell key.
    pub closed spec fn lints(&self) -> Map<u64, Seq<Lint>> {
        self.cell_lints@.map_values(|v: Vec<Lint>| v@)
    }

    /// Adds a mark to a cell, unless the cell has it already.
    pub fn add_cell_lint(&mut self, coord: CellCoord, lint: Lint)
        ensures
            final(self).lints() == old(self).lints().insert(
                coord_key(coord),
                if old(self).lints().contains_key(coord_key(coord)) {
                    if old(self).lints()[coord_key(coord)].contains(lint) {
                        old(self).lints()[coord_key(coord)]
                    } else {
                        old(self).lints()[coord_key(coord)].push(lint)
                    }
                } else {
                    seq![lint]
                },
            ),
            final(self).tooltips() == old(self).tooltips(),
            final(self).selection() == old(self).selection(),
            final(self).order() == old(self).order(),
    {
        let key = coord.key();
        let ghost m0 = self.cell_lints@;
        let mut list = match self.cell_lints.remove(&key) {
            Some(v) => v,
            None => Vec::new(),
        };
        let ghost l0 = list@;
        let mut i: usize = 0;
        let mut present = false;
        while i < list.len()
            invariant
                i <= list@.len(),
                list@ == l0,
                present == exists|k: int| 0 <= k < i && list@[k] == lint,
            decreases list@.len() - i,
        {
            if list[i] == lint {
                present = true;
            }
            i = i + 1;
        }
        if !present {
            list.push(lint);
        }
        self.cell_lints.insert(key, list);
        proof {
            if m0.contains_key(key) {
                assert(l0 == m0[key]@);
            } else {
                assert(l0 =~= Seq::<Lint>::empty());
            }
            if !present {
                assert(!l0.contains(lint));
            } else {
                assert(l0.contains(lint));
            }
            assert(self.lints() =~= m0.map_values(|v: Vec<Lint>| v@).insert(key, list@));
        }
    }

    /// The marks of a cell.
    pub fn cell_lints(&self, coord: CellCoord) -> (r: Option<&Vec<Lint>>)
        ensures
            match r {
                Some(v) => self.lints().contains_key(coord_key(coord)) && v@ == self.lints()[coord_key(coord)],
                None => !self.lints().contains_key(coord_key(coord)),
            },
    {
        let key = coord.key();
        self.cell_lints.get(&key)
    }

    /// Marks a displayed column as recognized, or not; ignored for a column not
    /// displayed.
    pub fn set_recognized(&mut self, col_id: u32, recognized: bool)
        ensures
            final(self).recognized_columns() == if old(self).order().contains(ColumnUid(col_id)) {
                old(self).recognized_columns().insert(col_id, recognized)
            } else {
                old(self).recognized_columns()
            },
            final(self).selection() == old(self).selection(),
            final(self).order() == old(self).order(),
    {
        match Self::position_of(&self.columns_ordered, ColumnUid(col_id)) {
            Some(i) => {
                self.recognized.insert(col_id, recognized);
                proof {
                    assert(self.columns_ordered@[i as int] == ColumnUid(col_id));
                }
            },
            None => {
                proof {
                    if self.columns_ordered@.contains(ColumnUid(col_id)) {
                        let k = choose|k: int| 0 <= k < self.columns_ordered@.len() && self.columns_ordered@[k] == ColumnUid(col_id);
                        assert(0 <= k < self.columns_ordered@.len() && self.columns_ordered@[k] == ColumnUid(col_id));
                    }
                }
            },
        }
    }

    /// Whether a column was marked as recognized.
    pub fn is_recognized(&self, col_id: u32) -> (r: bool)
        ensures
            r == (self.recognized_columns().contains_key(col_id) && self.recognized_columns()[col_id]),
    {
        match self.recognized.get(&col_id) {
            Some(b) => *b,
            None => false,
        }
    }

    /// Asks for the row to be scrolled into view.
    pub fn scroll_to_row(&mut self, monotonic_row_idx: u32)
        ensures
            final(self).scroll_target() == Some(monotonic_row_idx),
            final(self).selection() == old(self).selection(),
            final(self).order() == old(self).order(),
    {
        self.scroll_to_row = Some(monotonic_row_idx);
    }

    /// Takes the pending scroll request, leaving none.
    pub fn take_scroll_to_row(&mut self) -> (r: Option<u32>)
        ensures
            r == old(self).scroll_target(),
            final(self).scroll_target() is None,
            final(self).selection() == old(self).selection(),
            final(self).order() == old(self).order(),
    {
        self.scroll_to_row.take()
    }

    /// The row last marked skipped.
    pub fn row_disabled(&self) -> (r: Option<u32>)
        ensures
            r == self.row_events().0,
    {
        self.disabled_row
    }

    /// The row last marked not skipped.
    pub fn row_enabled(&self) -> (r: Option<u32>)
        ensures
            r == self.row_events().1,
    {
        self.enabled_row
    }

    /// The column last marked skipped.
    pub fn col_disabled(&self) -> (r: Option<u32>)
        ensures
            r == self.col_events().0,
    {
        self.disabled_col
    }

    /// The column last marked not skipped.
    pub fn col_enabled(&self) -> (r: Option<u32>)
        ensures
            r == self.col_events().1,
    {
        self.enabled_col
    }

    /// Whether a row is marked skipped; rows are not skipped unless marked.
    pub fn is_row_skipped(&self, row_uid: u32) -> (r: bool)
        ensures
            r == (self.skipped_rows().contains_key(row_uid) && self.skipped_rows()[row_uid]),
    {
        match self.rows_skip.get(&row_uid) {
            Some(b) => *b,
            None => false,
        }
    }

    /// Marks a row skipped, or not, and records it as the row last disabled or
    /// enabled.
    pub fn skip_row(&mut self, row_uid: u32, skip: bool)
        ensures
            final(self).skipped_rows() == old(self).skipped_rows().insert(row_uid, skip),
            final(self).row_events() == if skip {
                (Some(row_uid), old(self).row_events().1)
            } else {
                (old(self).row_events().0, Some(row_uid))
            },
            final(self).selection() == old(self).selection(),
            final(self).order() == old(self).order(),
    {
        self.rows_skip.insert(row_uid, skip);
        if skip {
            self.disabled_row = Some(row_uid);
        } else {
            self.enabled_row = Some(row_uid);
        }
    }

    /// Marks a column skipped, or not, and records it as the column last
    /// disabled or enabled.
    pub fn skip_col(&mut self, col_uid: u32, skip: bool)
        ensures
            final(self).col_events() == if skip {
                (Some(col_uid), old(self).col_events().1)
            } else {
                (old(self).col_events().0, Some(col_uid))
            },
            final(self).selection() == old(self).selection(),
            final(self).order() == old(self).order(),
    {
        if skip {
            self.disabled_col = Some(col_uid);
        } else {
            self.enabled_col = Some(col_uid);
        }
    }
}


/// A single selected cell in one of two swapped columns moves with its
/// column: it ends up at the other column's position, in the same row.
pub proof fn lemma_swap_keeps_single_cell_focus(m: RangeModel, a: int, b: int)
    requires
        m.wf(),
        m.is_single_cell(),
        m.col_start == a,
    ensures
        after_swap(Some(m), a, b) == Some(RangeModel { col_start: b, col_end: b, ..m }),
        after_swap(Some(m), b, a) == Some(RangeModel { col_start: b, col_end: b, ..m }),
{
}

/// A selection of several cells that does not hold both swapped columns is
/// dropped by the swap.
pub proof fn lemma_swap_drops_partial_selection(m: RangeModel, a: int, b: int)
    requires
        m.wf(),
        !m.is_single_cell(),
        !(m.contains_col(a) && m.contains_col(b)),
    ensures
        after_swap(Some(m), a, b) is None,
{
}

/// Where the state of a cell's custom widget is kept, if it is: the first place.
pub open spec fn state_pos(st: Seq<(CellCoord, Variant)>, coord: CellCoord) -> Option<int> {
    if exists|i: int| 0 <= i < st.len() && st[i].0 == coord {
        Some(choose|i: int| 0 <= i < st.len() && st[i].0 == coord && forall|k: int| 0 <= k < i ==> st[k].0 != coord)
    } else {
        None
    }
}

/// The custom widget states of column `col`, in the order they were first set;
/// empty values only when `allow_empty`.
pub open spec fn states_for(st: Seq<(CellCoord, Variant)>, col: u32, allow_empty: bool) -> Seq<(CellCoord, Variant)>
    decreases st.len(),
{
    if st.len() == 0 {
        Seq::empty()
    } else {
        let front = states_for(st.drop_last(), col, allow_empty);
        let e = st.last();
        if e.0.col_uid.0 == col && (allow_empty || !is_empty_value(e.1)) {
            front.push(e)
        } else {
            front
        }
    }
}

impl TableView {
    /// The custom widget states, in the order they were first set.
    pub closed spec fn custom_states(&self) -> Seq<(CellCoord, Variant)> {
        self.custom_ui_state@
    }

    fn state_index(&self, coord: CellCoord) -> (r: Option<usize>)
        ensures
            match r {
                Some(i) => state_pos(self.custom_states(), coord) == Some(i as int) && i < self.custom_states().len(),
                None => state_pos(self.custom_states(), coord) is None,
            },
    {
        let mut i: usize = 0;
        while i < self.custom_ui_state.len()
            invariant
                i <= self.custom_ui_state@.len(),
                forall|k: int| 0 <= k < i ==> self.custom_ui_state@[k].0 != coord,
            decreases self.custom_ui_state@.len() - i,
        {
            if self.custom_ui_state[i].0 == coord {
                proof {
                    let st = self.custom_ui_state@;
                    assert(0 <= i < st.len() && st[i as int].0 == coord && forall|k: int| 0 <= k < i ==> st[k].0 != coord);
                    let w = state_pos(st, coord)->0;
                    if w < i {
                    } else if w > i {
                        assert(st[i as int].0 != coord);
                    }
                }
                return Some(i);
            }
            i = i + 1;
        }
        None
    }

    /// The state of a cell's custom widget.
    pub fn custom_ui_state(&self, uid_coord: CellCoord) -> (r: Option<&Variant>)
        ensures
            match r {
                Some(v) => state_pos(self.custom_states(), uid_coord) is Some
                    && *v == self.custom_states()[state_pos(self.custom_states(), uid_coord)->0].1,
                None => state_pos(self.custom_states(), uid_coord) is None,
            },
    {
        match self.state_index(uid_coord) {
            Some(i) => Some(&self.custom_ui_state[i].1),
            None => None,
        }
    }

    /// Keeps the state of a cell's custom widget, replacing an earlier one.
    pub fn set_custom_ui_state(&mut self, uid_coord: CellCoord, value: Variant)
        ensures
            final(self).custom_states() == match state_pos(old(self).custom_states(), uid_coord) {
                Some(i) => old(self).custom_states().update(i, (uid_coord, value)),
                None => old(self).custom_states().push((uid_coord, value)),
            },
            final(self).selection() == old(self).selection(),
            final(self).order() == old(self).order(),
    {
        match self.state_index(uid_coord) {
            Some(i) => {
                self.custom_ui_state.set(i, (uid_coord, value));
            },
            None => {
                self.custom_ui_state.push((uid_coord, value));
            },
        }
    }

    /// The custom widget states of column `col_uid`, in the order they were
    /// first set; empty values only when `allow_empty`.
    pub fn custom_ui_state_for(&self, col_uid: u32, allow_empty: bool) -> (r: Vec<(CellCoord, Variant)>)
        ensures
            r@ == states_for(self.custom_states(), col_uid, allow_empty),
    {
        let mut out: Vec<(CellCoord, Variant)> = Vec::new();
        let mut i: usize = 0;
        while i < self.custom_ui_state.len()
            invariant
                i <= self.custom_ui_state@.len(),
                out@ == states_for(self.custom_ui_state@.take(i as int), col_uid, allow_empty),
            decreases self.custom_ui_state@.len() - i,
        {
            proof {
                assert(self.custom_ui_state@.take(i + 1).drop_last() =~= self.custom_ui_state@.take(i as int));
            }
            let (coord, value) = (self.custom_ui_state[i].0, &self.custom_ui_state[i].1);
            if coord.col_uid.0 == col_uid && (allow_empty || !value_is_empty(value)) {
                out.push((coord, value.clone()));
            }
            i = i + 1;
        }
        proof {
            assert(self.custom_ui_state@.take(i as int) =~= self.custom_ui_state@);
        }
        out
    }

    /// Empties the custom widget states of column `col_uid`.
    pub fn clear_custom_ui_state_for(&mut self, col_uid: u32)
        ensures
            final(self).custom_states().len() == old(self).custom_states().len(),
            forall|i: int| 0 <= i < old(self).custom_states().len() ==> {
                let o = old(self).custom_states()[i];
                let n = #[trigger] final(self).custom_states()[i];
                &&& n.0 == o.0
                &&& if o.0.col_uid.0 == col_uid { is_empty_value(n.1) } else { n.1 == o.1 }
            },
            final(self).selection() == old(self).selection(),
            final(self).order() == old(self).order(),
    {
        let ghost st0 = self.custom_ui_state@;
        let mut states: Vec<(CellCoord, Variant)> = Vec::new();
        std::mem::swap(&mut states, &mut self.custom_ui_state);
        let mut i: usize = 0;
        while i < states.len()
            invariant
                states@.len() == st0.len(),
                i <= st0.len(),
                forall|k: int| 0 <= k < st0.len() ==> {
                    let o = st0[k];
                    let n = #[trigger] states@[k];
                    &&& n.0 == o.0
                    &&& if k < i && o.0.col_uid.0 == col_uid { is_empty_value(n.1) } else { n.1 == o.1 }
                },
            decreases st0.len() - i,
        {
            if states[i].0.col_uid.0 == col_uid {
                let c = states[i].0;
                states.set(i, (c, empty_value()));
            }
            i = i + 1;
        }
        self.custom_ui_state = states;
    }
}

} // verus!
