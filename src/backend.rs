//! An in-memory table: typed cells keyed by (row, column) identity, ordered
//! rows, column metadata, and the per-frame change flags.
use vstd::prelude::*;
use std::collections::{HashMap, HashSet};
use rvariant::{Variant, VariantTy};
use crate::flags::{OneShotFlags, PersistentFlags};
use crate::ids::{coord_key, CellCoord, ColumnUid, RowUid, VisualRowIdx};
use crate::text::{base_26, base_26_of};
use crate::value::{
    conversion_of, convert_value, display_is_safe, display_of, displays_safely, error_text, error_text_of,
    is_str_type, parses_safely, same_type, str_type, text_parses_safely, type_kind, type_kind_of, type_label,
    type_label_of, value_text, DISPLAY_DEPTH,
};

verus! {

broadcast use vstd::std_specs::hash::group_hash_axioms;

/// What a backend tells the grid about a column.
pub struct BackendColumn {
    pub name: String,
    pub synonyms: Vec<String>,
    /// The displayed name of the column's type.
    pub ty: String,
    pub is_sortable: bool,
    pub is_required: bool,
    pub is_used: bool,
    pub is_skipped: bool,
}

/// One stored column: its identity, what is shown of it, its value type and
/// the value a new row gets in it when none is given.
pub struct VariantColumn {
    pub uid: ColumnUid,
    pub info: BackendColumn,
    pub ty: VariantTy,
    pub default: Option<Variant>,
}

/// The value stored for a cell, if any.
pub open spec fn cell_in(cells: Map<u64, Variant>, c: CellCoord) -> Option<Variant> {
    if cells.contains_key(coord_key(c)) {
        Some(cells[coord_key(c)])
    } else {
        None
    }
}

pub open spec fn uids_ascending(cols: Seq<VariantColumn>) -> bool {
    forall|i: int, j: int| 0 <= i < j < cols.len() ==> cols[i].uid.0 < cols[j].uid.0
}

pub open spec fn has_column(cols: Seq<VariantColumn>, uid: ColumnUid) -> bool {
    exists|i: int| 0 <= i < cols.len() && cols[i].uid == uid
}

/// Where the column `uid` is stored.
pub open spec fn column_pos(cols: Seq<VariantColumn>, uid: ColumnUid) -> int {
    choose|i: int| 0 <= i < cols.len() && cols[i].uid == uid
}

/// The stored column `uid`, if there is one.
pub open spec fn column_of(cols: Seq<VariantColumn>, uid: ColumnUid) -> Option<VariantColumn> {
    if has_column(cols, uid) {
        Some(cols[column_pos(cols, uid)])
    } else {
        None
    }
}

/// In ascending order, the column stored at `k` is the one found by its identity.
pub proof fn lemma_column_of_uid(cols: Seq<VariantColumn>, k: int)
    requires
        uids_ascending(cols),
        0 <= k < cols.len(),
    ensures
        column_of(cols, cols[k].uid) == Some(cols[k]),
{
    let u = cols[k].uid;
    assert(has_column(cols, u));
    let j = column_pos(cols, u);
    if j < k {
        assert(cols[j].uid.0 < cols[k].uid.0);
    } else if j > k {
        assert(cols[k].uid.0 < cols[j].uid.0);
    }
}

/// The identities of the columns, in storage (ascending) order.
pub open spec fn uids_of(cols: Seq<VariantColumn>) -> Seq<ColumnUid> {
    cols.map_values(|c: VariantColumn| c.uid)
}

/// The largest column identity plus one; 0 without columns.
pub open spec fn next_column_uid(cols: Seq<VariantColumn>) -> int {
    if cols.len() == 0 {
        0
    } else {
        cols.last().uid.0 + 1
    }
}

/// The cells after writing `vals` into row `row`, in order.
pub open spec fn with_values(
    cells: Map<u64, Variant>,
    row: RowUid,
    vals: Seq<(ColumnUid, Variant)>,
) -> Map<u64, Variant>
    decreases vals.len(),
{
    if vals.len() == 0 {
        cells
    } else {
        with_values(cells, row, vals.drop_last()).insert(
            coord_key(CellCoord { row_uid: row, col_uid: vals.last().0 }),
            vals.last().1,
        )
    }
}

/// The cells after giving row `row` the default of each column that has one
/// and is not among `given`.
pub open spec fn with_defaults(
    cells: Map<u64, Variant>,
    row: RowUid,
    cols: Seq<VariantColumn>,
    given: Seq<ColumnUid>,
) -> Map<u64, Variant>
    decreases cols.len(),
{
    if cols.len() == 0 {
        cells
    } else {
        let m = with_defaults(cells, row, cols.drop_last(), given);
        let c = cols.last();
        if c.default is Some && !given.contains(c.uid) {
            m.insert(coord_key(CellCoord { row_uid: row, col_uid: c.uid }), c.default->0)
        } else {
            m
        }
    }
}

/// The cells after a new row `row` is made with `vals`: the given values first,
/// then the defaults of the columns not given.
pub open spec fn new_row_cells(
    cells: Map<u64, Variant>,
    row: RowUid,
    vals: Seq<(ColumnUid, Variant)>,
    cols: Seq<VariantColumn>,
) -> Map<u64, Variant> {
    with_defaults(
        with_values(cells, row, vals),
        row,
        cols,
        vals.map_values(|v: (ColumnUid, Variant)| v.0),
    )
}

/// An in-memory table of typed values.
pub struct VariantBackend {
    cells: HashMap<u64, Variant>,
    conversion_errors: HashMap<u64, String>,
    row_order: Vec<RowUid>,
    skipped_rows: HashSet<u32>,
    next_row_uid: u32,
    columns: Vec<VariantColumn>,
    cell_edit: Option<(CellCoord, Variant)>,
    persistent_flags: PersistentFlags,
    one_shot_flags: OneShotFlags,
    one_shot_flags_delay: OneShotFlags,
    column_mapping_choices: Vec<String>,
}

impl VariantBackend {
    /// The stored values, by cell key.
    pub closed spec fn cells(&self) -> Map<u64, Variant> {
        self.cells@
    }

    /// The value stored for a cell, if any.
    pub open spec fn cell(&self, c: CellCoord) -> Option<Variant> {
        cell_in(self.cells(), c)
    }

    /// Messages of failed type conversions, by cell key.
    pub closed spec fn conversion_errors(&self) -> Map<u64, Seq<char>> {
        self.conversion_errors@.map_values(|s: String| s@)
    }

    /// The rows, in display order.
    pub closed spec fn rows(&self) -> Seq<RowUid> {
        self.row_order@
    }

    /// The identity the next new row gets.
    pub closed spec fn next_row(&self) -> u32 {
        self.next_row_uid
    }

    pub closed spec fn skipped_rows(&self) -> Set<u32> {
        self.skipped_rows@
    }

    /// The columns, in ascending identity order.
    pub closed spec fn columns(&self) -> Seq<VariantColumn> {
        self.columns@
    }

    /// The edit in progress: which cell, and its pending value.
    pub closed spec fn cell_edit(&self) -> Option<(CellCoord, Variant)> {
        self.cell_edit
    }

    pub closed spec fn persistent(&self) -> PersistentFlags {
        self.persistent_flags
    }

    /// The flags raised during the current frame.
    pub closed spec fn pending_flags(&self) -> OneShotFlags {
        self.one_shot_flags
    }

    /// The flags of the previous frame, as handed to users.
    pub closed spec fn delivered_flags(&self) -> OneShotFlags {
        self.one_shot_flags_delay
    }

    pub closed spec fn mapping_choices(&self) -> Seq<String> {
        self.column_mapping_choices@
    }

    /// Rows are distinct and older than the next identity; columns ascend by identity.
    pub closed spec fn wf(&self) -> bool {
        &&& forall|i: int| 0 <= i < self.row_order@.len() ==> (#[trigger] self.row_order@[i]).0 < self.next_row_uid
        &&& forall|i: int, j: int| 0 <= i < j < self.row_order@.len() ==> self.row_order@[i] != self.row_order@[j]
        &&& uids_ascending(self.columns@)
    }

    /// The columns of a well-formed table ascend by identity.
    pub proof fn lemma_columns_ascending(&self)
        requires
            self.wf(),
        ensures
            uids_ascending(self.columns()),
    {
    }

    pub open spec fn column(&self, uid: ColumnUid) -> Option<VariantColumn> {
        column_of(self.columns(), uid)
    }

    /// Everything but the cells and the current flags is as in `o`.
    pub open spec fn same_layout(&self, o: &VariantBackend) -> bool {
        &&& self.rows() == o.rows()
        &&& self.next_row() == o.next_row()
        &&& self.columns() == o.columns()
        &&& self.skipped_rows() == o.skipped_rows()
        &&& self.persistent() == o.persistent()
        &&& self.delivered_flags() == o.delivered_flags()
        &&& self.mapping_choices() == o.mapping_choices()
    }

    /// A table with the given columns, identified `0, 1, ...` in order, and no rows.
    pub fn new(columns: Vec<(String, VariantTy, Option<Variant>)>) -> (r: Self)
        requires
            columns.len() <= u32::MAX,
        ensures
            r.wf(),
            r.rows() == Seq::<RowUid>::empty(),
            r.next_row() == 0,
            r.cells() == Map::<u64, Variant>::empty(),
            r.columns().len() == columns.len(),
            forall|i: int|
                0 <= i < columns.len() ==> {
                    let c = #[trigger] r.columns()[i];
                    &&& c.uid == ColumnUid(i as u32)
                    &&& c.info.name == columns@[i].0
                    &&& c.info.synonyms@ == Seq::<String>::empty()
                    &&& c.info.ty@ == type_label_of(columns@[i].1)
                    &&& c.info.is_sortable && c.info.is_required && c.info.is_used
                    &&& !c.info.is_skipped
                    &&& c.ty == columns@[i].1
                    &&& c.default == columns@[i].2
                },
            r.pending_flags() == (OneShotFlags {
                columns_reset: true,
                row_set_updated: true,
                ..OneShotFlags::none()
            }),
            r.delivered_flags() == OneShotFlags::none(),
            r.persistent() == (PersistentFlags {
                column_info_present: true,
                row_set_present: true,
                ..PersistentFlags::none()
            }),
            r.cell_edit() is None,
            r.mapping_choices() == Seq::<String>::empty(),
            r.skipped_rows() == Set::<u32>::empty(),
    {
        let mut cols: Vec<VariantColumn> = Vec::new();
        let mut columns = columns;
        let ghost input = columns@;
        let n = columns.len();
        let mut idx: usize = 0;
        while idx < n
            invariant
                n == input.len(),
                n <= u32::MAX,
                idx <= n,
                columns@.len() == n - idx,
                forall|k: int| 0 <= k < n - idx ==> #[trigger] columns@[k] == input[idx + k],
                cols@.len() == idx,
                forall|i: int|
                    0 <= i < idx ==> {
                        let c = #[trigger] cols@[i];
                        &&& c.uid == ColumnUid(i as u32)
                        &&& c.info.name == input[i].0
                        &&& c.info.synonyms@ == Seq::<String>::empty()
                        &&& c.info.ty@ == type_label_of(input[i].1)
                        &&& c.info.is_sortable && c.info.is_required && c.info.is_used
                        &&& !c.info.is_skipped
                        &&& c.ty == input[i].1
                        &&& c.default == input[i].2
                    },
            decreases n - idx,
        {
            let (name, ty, default) = columns.remove(0);
            let label = type_label(&ty);
            let info = BackendColumn {
                name,
                synonyms: Vec::new(),
                ty: label,
                is_sortable: true,
                is_required: true,
                is_used: true,
                is_skipped: false,
            };
            cols.push(VariantColumn { uid: ColumnUid(idx as u32), info, ty, default });
            idx = idx + 1;
        }
        let mut persistent_flags = PersistentFlags::default();
        persistent_flags.column_info_present = true;
        persistent_flags.row_set_present = true;
        let mut one_shot_flags = OneShotFlags::default();
        one_shot_flags.columns_reset = true;
        one_shot_flags.row_set_updated = true;
        VariantBackend {
            cells: HashMap::new(),
            conversion_errors: HashMap::new(),
            row_order: Vec::new(),
            skipped_rows: HashSet::new(),
            next_row_uid: 0,
            columns: cols,
            cell_edit: None,
            persistent_flags,
            one_shot_flags,
            one_shot_flags_delay: OneShotFlags::default(),
            column_mapping_choices: Vec::new(),
        }
    }
}


impl VariantBackend {
    /// Where column `uid` is stored, if it is.
    fn find_column(&self, uid: ColumnUid) -> (r: Option<usize>)
        requires
            self.wf(),
        ensures
            r is Some <==> has_column(self.columns(), uid),
            r is Some ==> r->0 == column_pos(self.columns(), uid) && r->0 < self.columns().len()
                && self.columns()[r->0 as int].uid == uid,
    {
        let mut i: usize = 0;
        while i < self.columns.len()
            invariant
                i <= self.columns@.len(),
                uids_ascending(self.columns@),
                forall|k: int| 0 <= k < i ==> self.columns@[k].uid != uid,
            decreases self.columns@.len() - i,
        {
            if self.columns[i].uid == uid {
                proof {
                    assert(self.columns@[i as int].uid == uid);
                    assert(has_column(self.columns@, uid));
                    let j = column_pos(self.columns@, uid);
                    if j != i {
                        if j < i {
                            assert(self.columns@[j].uid.0 < self.columns@[i as int].uid.0);
                        } else {
                            assert(self.columns@[i as int].uid.0 < self.columns@[j].uid.0);
                        }
                    }
                }
                return Some(i);
            }
            i = i + 1;
        }
        None
    }

    /// The row at a visual position, if there is one.
    pub fn row_uid(&self, row_idx: VisualRowIdx) -> (r: Option<RowUid>)
        ensures
            r == (if row_idx.0 < self.rows().len() {
                Some(self.rows()[row_idx.0 as int])
            } else {
                None
            }),
    {
        if row_idx.0 < self.row_order.len() {
            Some(self.row_order[row_idx.0])
        } else {
            None
        }
    }

    /// The identity the next new row gets.
    pub fn next_row_uid(&self) -> (r: RowUid)
        ensures
            r == RowUid(self.next_row()),
    {
        RowUid(self.next_row_uid)
    }

    /// How many rows there are.
    pub fn row_count(&self) -> (r: usize)
        ensures
            r == self.rows().len(),
    {
        self.row_order.len()
    }

    /// The value stored for a cell; none when the cell has no entry.
    pub fn get(&self, coord: CellCoord) -> (r: Option<&Variant>)
        ensures
            match r {
                Some(v) => self.cell(coord) == Some(*v),
                None => self.cell(coord) is None,
            },
    {
        let key = coord.key();
        self.cells.get(&key)
    }

    /// Stores a value for a cell.
    pub fn set(&mut self, coord: CellCoord, variant: Variant)
        requires
            old(self).wf(),
        ensures
            final(self).wf(),
            final(self).cells() == old(self).cells().insert(coord_key(coord), variant),
            final(self).same_layout(old(self)),
            final(self).pending_flags() == old(self).pending_flags(),
            final(self).cell_edit() == old(self).cell_edit(),
    {
        let key = coord.key();
        self.cells.insert(key, variant);
    }

    /// The type of column `uid`.
    pub fn column_ty(&self, col_uid: ColumnUid) -> (r: Option<VariantTy>)
        requires
            self.wf(),
        ensures
            r == (match self.column(col_uid) {
                Some(c) => Some(c.ty),
                None => None,
            }),
    {
        match self.find_column(col_uid) {
            Some(i) => Some(self.columns[i].ty.clone()),
            None => None,
        }
    }

    /// What is shown of column `uid`.
    pub fn column_info(&self, col_uid: ColumnUid) -> (r: Option<&BackendColumn>)
        requires
            self.wf(),
        ensures
            match r {
                Some(b) => self.column(col_uid) is Some && *b == self.column(col_uid)->0.info,
                None => self.column(col_uid) is None,
            },
    {
        match self.find_column(col_uid) {
            Some(i) => Some(&self.columns[i].info),
            None => None,
        }
    }

    /// All the columns, in ascending identity order.
    pub fn available_columns(&self) -> (r: Vec<ColumnUid>)
        ensures
            r@ == uids_of(self.columns()),
    {
        let mut r: Vec<ColumnUid> = Vec::new();
        let mut i: usize = 0;
        while i < self.columns.len()
            invariant
                i <= self.columns@.len(),
                r@ == uids_of(self.columns@.take(i as int)),
            decreases self.columns@.len() - i,
        {
            r.push(self.columns[i].uid);
            proof {
                assert(self.columns@.take(i + 1) =~= self.columns@.take(i as int).push(self.columns@[i as int]));
                assert(uids_of(self.columns@.take(i + 1)) =~= uids_of(self.columns@.take(i as int)).push(self.columns@[i as int].uid));
            }
            i = i + 1;
        }
        proof {
            assert(self.columns@.take(i as int) =~= self.columns@);
        }
        r
    }

    /// The columns in use; this table uses all of them, in ascending identity order.
    pub fn used_columns(&self) -> (r: Vec<ColumnUid>)
        ensures
            r@ == uids_of(self.columns()),
    {
        self.available_columns()
    }

    /// Appends a row with the given values, then gives each column with a default
    /// that got no value its default. Returns the new row's identity.
    pub fn insert_row(&mut self, values: Vec<(ColumnUid, Variant)>) -> (r: RowUid)
        requires
            old(self).wf(),
            old(self).next_row() < u32::MAX,
        ensures
            final(self).wf(),
            r == RowUid(old(self).next_row()),
            final(self).next_row() == old(self).next_row() + 1,
            final(self).rows() == old(self).rows().push(r),
            final(self).cells() == new_row_cells(old(self).cells(), r, values@, old(self).columns()),
            final(self).pending_flags() == (OneShotFlags { row_set_updated: true, ..old(self).pending_flags() }),
            final(self).columns() == old(self).columns(),
            final(self).skipped_rows() == old(self).skipped_rows(),
            final(self).persistent() == old(self).persistent(),
            final(self).delivered_flags() == old(self).delivered_flags(),
            final(self).mapping_choices() == old(self).mapping_choices(),
            final(self).cell_edit() == old(self).cell_edit(),
    {
        let row = RowUid(self.next_row_uid);
        let ghost vals = values@;
        let mut given: Vec<ColumnUid> = Vec::new();
        let mut values = values;
        let n = values.len();
        let mut i: usize = 0;
        let mut cells: HashMap<u64, Variant> = HashMap::new();
        std::mem::swap(&mut cells, &mut self.cells);
        let ghost cells0 = cells@;
        while i < n
            invariant
                n == vals.len(),
                i <= n,
                values@ == vals.skip(i as int),
                given@ == vals.take(i as int).map_values(|v: (ColumnUid, Variant)| v.0),
                cells@ == with_values(cells0, row, vals.take(i as int)),
            decreases n - i,
        {
            let (col_uid, v) = values.remove(0);
            let key = CellCoord { row_uid: row, col_uid }.key();
            cells.insert(key, v);
            given.push(col_uid);
            proof {
                assert(vals.take(i + 1).drop_last() =~= vals.take(i as int));
                assert(vals.skip(i as int)[0] == vals[i as int]);
                assert(values@ =~= vals.skip(i + 1));
                assert(vals.take(i + 1).map_values(|v: (ColumnUid, Variant)| v.0) =~= vals.take(
                    i as int,
                ).map_values(|v: (ColumnUid, Variant)| v.0).push(vals[i as int].0));
            }
            i = i + 1;
        }
        proof {
            assert(vals.take(n as int) =~= vals);
        }
        let ghost cells1 = cells@;
        let mut j: usize = 0;
        while j < self.columns.len()
            invariant
                j <= self.columns@.len(),
                given@ == vals.map_values(|v: (ColumnUid, Variant)| v.0),
                cells@ == with_defaults(cells1, row, self.columns@.take(j as int), given@),
            decreases self.columns@.len() - j,
        {
            proof {
                assert(self.columns@.take(j + 1).drop_last() =~= self.columns@.take(j as int));
            }
            let has_default = self.columns[j].default.is_some();
            if has_default && !vec_contains_uid(&given, self.columns[j].uid) {
                let d = self.columns[j].default.as_ref().unwrap().clone();
                let key = CellCoord { row_uid: row, col_uid: self.columns[j].uid }.key();
                cells.insert(key, d);
            }
            j = j + 1;
        }
        proof {
            assert(self.columns@.take(j as int) =~= self.columns@);
        }
        self.cells = cells;
        self.row_order.push(row);
        self.one_shot_flags.row_set_updated = true;
        self.next_row_uid = self.next_row_uid + 1;
        row
    }
}

fn vec_contains_uid(v: &Vec<ColumnUid>, uid: ColumnUid) -> (r: bool)
    ensures
        r == v@.contains(uid),
{
    let mut i: usize = 0;
    while i < v.len()
        invariant
            i <= v@.len(),
            forall|k: int| 0 <= k < i ==> v@[k] != uid,
        decreases v@.len() - i,
    {
        if v[i] == uid {
            return true;
        }
        i = i + 1;
    }
    false
}


proof fn lemma_insert_ascending(cols0: Seq<VariantColumn>, p: int, c: VariantColumn)
    requires
        uids_ascending(cols0),
        0 <= p <= cols0.len(),
        forall|k: int| 0 <= k < p ==> (#[trigger] cols0[k]).uid.0 < c.uid.0,
        p < cols0.len() ==> cols0[p].uid.0 > c.uid.0,
    ensures
        uids_ascending(cols0.insert(p, c)),
{
    let s = cols0.insert(p, c);
    assert forall|i: int, j: int| 0 <= i < j < s.len() implies s[i].uid.0 < s[j].uid.0 by {
        if i < p && j < p {
            assert(cols0[i].uid.0 < cols0[j].uid.0);
        } else if i < p && j == p {
        } else if i < p {
            assert(cols0[i].uid.0 < cols0[j - 1].uid.0);
        } else if i == p {
            if j - 1 > p {
                assert(cols0[p].uid.0 < cols0[j - 1].uid.0);
            }
        } else {
            assert(cols0[i - 1].uid.0 < cols0[j - 1].uid.0);
        }
    }
}

proof fn lemma_update_column_of(cols0: Seq<VariantColumn>, p: int, c: VariantColumn)
    requires
        uids_ascending(cols0),
        uids_ascending(cols0.update(p, c)),
        0 <= p < cols0.len(),
        cols0[p].uid == c.uid,
    ensures
        column_of(cols0.update(p, c), c.uid) == Some(c),
        forall|u: ColumnUid| u != c.uid ==> #[trigger] column_of(cols0.update(p, c), u) == column_of(cols0, u),
{
    let cols = cols0.update(p, c);
    lemma_column_of_uid(cols, p);
    assert forall|u: ColumnUid| u != c.uid implies #[trigger] column_of(cols, u) == column_of(cols0, u) by {
        if has_column(cols0, u) {
            let k = column_pos(cols0, u);
            assert(k != p);
            assert(cols[k] == cols0[k]);
            lemma_column_of_uid(cols0, k);
            lemma_column_of_uid(cols, k);
        } else if has_column(cols, u) {
            let j = column_pos(cols, u);
            assert(j != p);
            assert(cols0[j].uid == u);
        }
    }
}

proof fn lemma_insert_column_of(cols0: Seq<VariantColumn>, p: int, c: VariantColumn)
    requires
        uids_ascending(cols0),
        uids_ascending(cols0.insert(p, c)),
        0 <= p <= cols0.len(),
    ensures
        column_of(cols0.insert(p, c), c.uid) == Some(c),
        forall|u: ColumnUid| u != c.uid ==> #[trigger] column_of(cols0.insert(p, c), u) == column_of(cols0, u),
{
    let cols = cols0.insert(p, c);
    lemma_column_of_uid(cols, p);
    assert forall|u: ColumnUid| u != c.uid implies #[trigger] column_of(cols, u) == column_of(cols0, u) by {
        if has_column(cols0, u) {
            let k = column_pos(cols0, u);
            lemma_column_of_uid(cols0, k);
            if k < p {
                assert(cols[k] == cols0[k]);
                lemma_column_of_uid(cols, k);
            } else {
                assert(cols[k + 1] == cols0[k]);
                lemma_column_of_uid(cols, k + 1);
            }
        } else if has_column(cols, u) {
            let j = column_pos(cols, u);
            assert(j != p);
            if j < p {
                assert(cols0[j].uid == u);
            } else {
                assert(cols0[j - 1].uid == u);
            }
        }
    }
}

/// The column that `insert_column` stores.
pub open spec fn column_made(
    c: VariantColumn,
    uid: ColumnUid,
    name: String,
    synonyms: Vec<String>,
    ty: VariantTy,
    default: Option<Variant>,
    is_required: bool,
    is_used: bool,
) -> bool {
    &&& c.uid == uid
    &&& c.info.name == name
    &&& c.info.synonyms == synonyms
    &&& c.info.ty@ == type_label_of(ty)
    &&& c.info.is_sortable
    &&& c.info.is_required == is_required
    &&& c.info.is_used == is_used
    &&& !c.info.is_skipped
    &&& c.ty == ty
    &&& c.default == default
}

/// Whether a stored value may be converted to `ty` without overflow: it
/// displays safely, and its display parses safely as `ty`.
pub open spec fn may_convert(v: Variant, ty: VariantTy) -> bool {
    displays_safely(v) && text_parses_safely(display_of(v), ty)
}

/// The cells of column `col` in rows `rows` after conversion to `ty`; a value
/// that does not convert, or may not be converted, stays as it was.
pub open spec fn converted_cells(
    cells: Map<u64, Variant>,
    rows: Seq<RowUid>,
    col: ColumnUid,
    ty: VariantTy,
) -> Map<u64, Variant>
    decreases rows.len(),
{
    if rows.len() == 0 {
        cells
    } else {
        let m = converted_cells(cells, rows.drop_last(), col, ty);
        let k = coord_key(CellCoord { row_uid: rows.last(), col_uid: col });
        if m.contains_key(k) && may_convert(m[k], ty) && conversion_of(m[k], ty) is Ok {
            m.insert(k, conversion_of(m[k], ty)->Ok_0)
        } else {
            m
        }
    }
}

/// The conversion messages after converting column `col` in rows `rows` to
/// `ty`: a converted cell loses its message, one that failed gets the error's,
/// one that may not be converted keeps what it had.
pub open spec fn conversion_messages(
    cells: Map<u64, Variant>,
    errors: Map<u64, Seq<char>>,
    rows: Seq<RowUid>,
    col: ColumnUid,
    ty: VariantTy,
) -> Map<u64, Seq<char>>
    decreases rows.len(),
{
    if rows.len() == 0 {
        errors
    } else {
        let e = conversion_messages(cells, errors, rows.drop_last(), col, ty);
        let m = converted_cells(cells, rows.drop_last(), col, ty);
        let k = coord_key(CellCoord { row_uid: rows.last(), col_uid: col });
        if !m.contains_key(k) || !may_convert(m[k], ty) {
            e
        } else if conversion_of(m[k], ty) is Ok {
            e.remove(k)
        } else {
            e.insert(k, failed_conversion_text(m[k], ty))
        }
    }
}

/// The message of the error that converting `v` to `ty` gives.
pub open spec fn failed_conversion_text(v: Variant, ty: VariantTy) -> Seq<char> {
    error_text_of(conversion_of(v, ty)->Err_0)
}

impl VariantBackend {
    /// Removes every row and value; the columns stay. Row identities are not
    /// reused afterwards.
    pub fn clear(&mut self)
        requires
            old(self).wf(),
        ensures
            final(self).wf(),
            final(self).cells() == Map::<u64, Variant>::empty(),
            final(self).conversion_errors() == Map::<u64, Seq<char>>::empty(),
            final(self).rows() == Seq::<RowUid>::empty(),
            final(self).next_row() == old(self).next_row(),
            final(self).columns() == old(self).columns(),
            final(self).pending_flags() == (OneShotFlags {
                row_set_updated: true,
                cleared: true,
                ..old(self).pending_flags()
            }),
            final(self).delivered_flags() == old(self).delivered_flags(),
            final(self).persistent() == old(self).persistent(),
            final(self).mapping_choices() == old(self).mapping_choices(),
            final(self).skipped_rows() == old(self).skipped_rows(),
            final(self).cell_edit() == old(self).cell_edit(),
    {
        self.cells = HashMap::new();
        self.conversion_errors = HashMap::new();
        self.row_order = Vec::new();
        self.one_shot_flags.row_set_updated = true;
        self.one_shot_flags.cleared = true;
        proof {
            assert(self.conversion_errors() =~= Map::<u64, Seq<char>>::empty());
        }
    }

    /// Removes all columns and all data.
    pub fn remove_all_columns(&mut self)
        requires
            old(self).wf(),
        ensures
            final(self).wf(),
            final(self).columns() == Seq::<VariantColumn>::empty(),
            final(self).cells() == Map::<u64, Variant>::empty(),
            final(self).rows() == Seq::<RowUid>::empty(),
            final(self).next_row() == old(self).next_row(),
            final(self).pending_flags() == (OneShotFlags {
                row_set_updated: true,
                cleared: true,
                columns_reset: true,
                ..old(self).pending_flags()
            }),
    {
        self.columns = Vec::new();
        self.clear();
        self.one_shot_flags.columns_reset = true;
    }

    /// Stores a column under `col_uid`, or under the next free identity when none
    /// is given; a column already stored under that identity is replaced.
    #[verifier::rlimit(60)]
    #[verifier::spinoff_prover]
    pub fn insert_column(
        &mut self,
        col_uid: Option<ColumnUid>,
        name: String,
        synonyms: Vec<String>,
        ty: VariantTy,
        default: Option<Variant>,
        is_required: bool,
        is_used: bool,
    ) -> (r: ColumnUid)
        requires
            old(self).wf(),
            col_uid is None ==> next_column_uid(old(self).columns()) <= u32::MAX,
        ensures
            final(self).wf(),
            r == match col_uid {
                Some(u) => u,
                None => ColumnUid(next_column_uid(old(self).columns()) as u32),
            },
            has_column(old(self).columns(), r) ==> {
                let p = column_pos(old(self).columns(), r);
                &&& final(self).columns().len() == old(self).columns().len()
                &&& column_made(final(self).columns()[p], r, name, synonyms, ty, default, is_required, is_used)
                &&& forall|k: int| 0 <= k < old(self).columns().len() && k != p
                    ==> #[trigger] final(self).columns()[k] == old(self).columns()[k]
            },
            !has_column(old(self).columns(), r) ==> exists|p: int| {
                &&& 0 <= p <= old(self).columns().len()
                &&& column_made(final(self).columns()[p], r, name, synonyms, ty, default, is_required, is_used)
                &&& final(self).columns() == old(self).columns().insert(p, final(self).columns()[p])
            },
            has_column(final(self).columns(), r),
            forall|u: ColumnUid| has_column(old(self).columns(), u) ==> #[trigger] has_column(final(self).columns(), u),
            column_of(final(self).columns(), r) is Some,
            column_made(column_of(final(self).columns(), r)->0, r, name, synonyms, ty, default, is_required, is_used),
            forall|u: ColumnUid| u != r ==> #[trigger] column_of(final(self).columns(), u) == column_of(old(self).columns(), u),
            final(self).cells() == old(self).cells(),
            final(self).rows() == old(self).rows(),
            final(self).next_row() == old(self).next_row(),
            final(self).pending_flags() == (OneShotFlags { columns_reset: true, ..old(self).pending_flags() }),
    {
        let uid = match col_uid {
            Some(u) => u,
            None => {
                let n = self.columns.len();
                if n == 0 {
                    ColumnUid(0)
                } else {
                    ColumnUid(self.columns[n - 1].uid.0 + 1)
                }
            },
        };
        let label = type_label(&ty);
        let col = VariantColumn {
            uid,
            info: BackendColumn {
                name,
                synonyms,
                ty: label,
                is_sortable: true,
                is_required,
                is_used,
                is_skipped: false,
            },
            ty,
            default,
        };
        self.one_shot_flags.columns_reset = true;
        let mut p: usize = 0;
        while p < self.columns.len() && self.columns[p].uid.0 < uid.0
            invariant
                p <= self.columns@.len(),
                forall|k: int| 0 <= k < p ==> (#[trigger] self.columns@[k]).uid.0 < uid.0,
            decreases self.columns@.len() - p,
        {
            p = p + 1;
        }
        let ghost cols0 = self.columns@;
        if p < self.columns.len() && self.columns[p].uid == uid {
            proof {
                assert(has_column(cols0, uid));
                let j = column_pos(cols0, uid);
                if j != p {
                    if j < p {
                        assert(cols0[j].uid.0 < uid.0);
                    } else {
                        assert(cols0[p as int].uid.0 < cols0[j].uid.0);
                    }
                }
            }
            self.columns.set(p, col);
            proof {
                assert(self.columns@[p as int].uid == uid);
                assert forall|u: ColumnUid| has_column(cols0, u) implies #[trigger] has_column(self.columns@, u) by {
                    let k = choose|k: int| 0 <= k < cols0.len() && cols0[k].uid == u;
                    if k != p {
                        assert(self.columns@[k].uid == u);
                    }
                }
                assert forall|i: int, j: int| 0 <= i < j < self.columns@.len() implies self.columns@[i].uid.0
                    < self.columns@[j].uid.0 by {
                    assert(cols0[i].uid.0 < cols0[j].uid.0);
                }
                assert(self.columns@ == cols0.update(p as int, self.columns@[p as int]));
                lemma_update_column_of(cols0, p as int, self.columns@[p as int]);
            }
        } else {
            proof {
                if has_column(cols0, uid) {
                    let j = column_pos(cols0, uid);
                    if j < p {
                        assert(cols0[j].uid.0 < uid.0);
                    } else if j > p {
                        assert(cols0[p as int].uid.0 < cols0[j].uid.0);
                        assert(cols0[p as int].uid.0 >= uid.0);
                    }
                }
            }
            self.columns.insert(p, col);
            proof {
                if p < cols0.len() {
                    assert(cols0[p as int].uid != uid);
                }
                lemma_insert_ascending(cols0, p as int, self.columns@[p as int]);
                assert(self.columns@ == cols0.insert(p as int, self.columns@[p as int]));
                assert(self.columns@[p as int].uid == uid);
                lemma_insert_column_of(cols0, p as int, self.columns@[p as int]);
                assert forall|u: ColumnUid| has_column(cols0, u) implies #[trigger] has_column(self.columns@, u) by {
                    let k = choose|k: int| 0 <= k < cols0.len() && cols0[k].uid == u;
                    if k < p {
                        assert(self.columns@[k].uid == u);
                    } else {
                        assert(self.columns@[k + 1].uid == u);
                    }
                }
                assert(column_made(self.columns()[p as int], uid, name, synonyms, ty, default, is_required, is_used));
            }
        }
        uid
    }

    /// Appends a row with no values given: every column with a default gets it.
    /// None when no identity is left for a new row.
    pub fn create_row(&mut self, values: Vec<(ColumnUid, Variant)>) -> (r: Option<RowUid>)
        requires
            old(self).wf(),
        ensures
            final(self).wf(),
            r is Some <==> !old(self).persistent().is_read_only && old(self).next_row() < u32::MAX,
            r is Some ==> {
                &&& r->0 == RowUid(old(self).next_row())
                &&& final(self).next_row() == old(self).next_row() + 1
                &&& final(self).rows() == old(self).rows().push(r->0)
                &&& final(self).cells() == new_row_cells(old(self).cells(), r->0, values@, old(self).columns())
                &&& final(self).pending_flags() == (OneShotFlags { row_set_updated: true, ..old(self).pending_flags() })
            },
            r is None ==> *final(self) == *old(self),
            final(self).columns() == old(self).columns(),
            final(self).skipped_rows() == old(self).skipped_rows(),
            final(self).persistent() == old(self).persistent(),
            final(self).delivered_flags() == old(self).delivered_flags(),
            final(self).mapping_choices() == old(self).mapping_choices(),
            final(self).cell_edit() == old(self).cell_edit(),
    {
        if !self.persistent_flags.is_read_only && self.next_row_uid < u32::MAX {
            Some(self.insert_row(values))
        } else {
            None
        }
    }

    /// Appends a string column named after its 1-based position ("A", "B", ...),
    /// neither required nor skipped. None when no identity is left for it.
    pub fn create_column(&mut self) -> (r: Option<ColumnUid>)
        requires
            old(self).wf(),
        ensures
            final(self).wf(),
            r is Some <==> !old(self).persistent().is_read_only && next_column_uid(old(self).columns()) <= u32::MAX
                && old(self).columns().len() < u32::MAX,
            r is Some ==> {
                let c = final(self).columns().last();
                &&& r->0 == ColumnUid(next_column_uid(old(self).columns()) as u32)
                &&& final(self).columns() == old(self).columns().push(c)
                &&& c.uid == r->0
                &&& c.info.name@ == base_26_of((old(self).columns().len() + 1) as nat)
                &&& c.info.synonyms@ == Seq::<String>::empty()
                &&& is_str_type(c.ty)
                &&& c.default is None
                &&& !c.info.is_required && c.info.is_used && !c.info.is_skipped
                &&& final(self).pending_flags() == (OneShotFlags { columns_reset: true, ..old(self).pending_flags() })
            },
            r is None ==> *final(self) == *old(self),
            final(self).cells() == old(self).cells(),
            final(self).rows() == old(self).rows(),
            final(self).next_row() == old(self).next_row(),
            final(self).persistent() == old(self).persistent(),
    {
        let n = self.columns.len();
        if self.persistent_flags.is_read_only || n >= u32::MAX as usize {
            return None;
        }
        let uid = if n == 0 {
            ColumnUid(0)
        } else {
            if self.columns[n - 1].uid.0 == u32::MAX {
                return None;
            }
            ColumnUid(self.columns[n - 1].uid.0 + 1)
        };
        let name = base_26(n as u32 + 1);
        let ty = str_type();
        let label = type_label(&ty);
        let col = VariantColumn {
            uid,
            info: BackendColumn {
                name,
                synonyms: Vec::new(),
                ty: label,
                is_sortable: true,
                is_required: false,
                is_used: true,
                is_skipped: false,
            },
            ty,
            default: None,
        };
        let ghost cols0 = self.columns@;
        self.columns.push(col);
        proof {
            assert forall|i: int, j: int| 0 <= i < j < self.columns@.len() implies self.columns@[i].uid.0
                < self.columns@[j].uid.0 by {
                if j == n {
                    if i < n - 1 {
                        assert(cols0[i].uid.0 < cols0[n - 1].uid.0);
                    }
                } else {
                    assert(cols0[i].uid.0 < cols0[j].uid.0);
                }
            }
        }
        self.one_shot_flags.columns_reset = true;
        Some(uid)
    }

    /// Marks the table read-only, or not: a read-only table makes no new rows
    /// or columns.
    pub fn set_read_only(&mut self, read_only: bool)
        requires
            old(self).wf(),
        ensures
            final(self).wf(),
            final(self).persistent() == (PersistentFlags { is_read_only: read_only, ..old(self).persistent() }),
            final(self).cells() == old(self).cells(),
            final(self).rows() == old(self).rows(),
            final(self).columns() == old(self).columns(),
            final(self).next_row() == old(self).next_row(),
            final(self).pending_flags() == old(self).pending_flags(),
    {
        self.persistent_flags.is_read_only = read_only;
    }

    /// Keeps the pending value of the cell being edited.
    pub fn set_cell_edit(&mut self, coord: CellCoord, value: Variant)
        requires
            old(self).wf(),
        ensures
            final(self).wf(),
            final(self).cell_edit() == Some((coord, value)),
            final(self).cells() == old(self).cells(),
            final(self).same_layout(old(self)),
            final(self).pending_flags() == old(self).pending_flags(),
    {
        self.cell_edit = Some((coord, value));
    }

    /// Drops the pending edit without storing it.
    pub fn discard_cell_edit(&mut self)
        requires
            old(self).wf(),
        ensures
            final(self).wf(),
            final(self).cell_edit() is None,
            final(self).cells() == old(self).cells(),
            final(self).same_layout(old(self)),
            final(self).pending_flags() == old(self).pending_flags(),
    {
        self.cell_edit = None;
    }

    /// Stores the pending value of `coord` if it is the cell being edited; the
    /// pending edit is dropped in any case.
    pub fn commit_cell_edit(&mut self, coord: CellCoord)
        requires
            old(self).wf(),
        ensures
            final(self).wf(),
            final(self).cell_edit() is None,
            final(self).cells() == match old(self).cell_edit() {
                Some(e) => if e.0 == coord {
                    old(self).cells().insert(coord_key(coord), e.1)
                } else {
                    old(self).cells()
                },
                None => old(self).cells(),
            },
            final(self).same_layout(old(self)),
            final(self).pending_flags() == old(self).pending_flags(),
    {
        let edit = self.cell_edit.take();
        if let Some((c, v)) = edit {
            if c == coord {
                let key = coord.key();
                self.cells.insert(key, v);
            }
        }
    }

    pub fn persistent_flags(&self) -> (r: &PersistentFlags)
        ensures
            *r == self.persistent(),
    {
        &self.persistent_flags
    }

    /// The flags of the previous frame: what happened, one frame late, so that
    /// users get a chance to react before they are cleared.
    pub fn one_shot_flags(&self) -> (r: &OneShotFlags)
        ensures
            *r == self.delivered_flags(),
    {
        &self.one_shot_flags_delay
    }

    /// The flags raised during the current frame, for the grid itself.
    pub fn one_shot_flags_internal(&self) -> (r: &OneShotFlags)
        ensures
            *r == self.pending_flags(),
    {
        &self.one_shot_flags
    }

    /// Hands the current frame's flags on to users.
    pub fn one_shot_flags_archive(&mut self)
        requires
            old(self).wf(),
        ensures
            final(self).wf(),
            final(self).delivered_flags() == old(self).pending_flags(),
            final(self).pending_flags() == old(self).pending_flags(),
            final(self).cells() == old(self).cells(),
            final(self).rows() == old(self).rows(),
            final(self).columns() == old(self).columns(),
            final(self).next_row() == old(self).next_row(),
    {
        self.one_shot_flags_delay = self.one_shot_flags;
    }

    /// Ends a frame: its flags are handed on to users and a new frame starts
    /// with none raised.
    pub fn end_frame(&mut self)
        requires
            old(self).wf(),
        ensures
            final(self).wf(),
            final(self).delivered_flags() == old(self).pending_flags(),
            final(self).pending_flags() == OneShotFlags::none(),
            final(self).cells() == old(self).cells(),
            final(self).rows() == old(self).rows(),
            final(self).columns() == old(self).columns(),
            final(self).next_row() == old(self).next_row(),
            final(self).cell_edit() == old(self).cell_edit(),
    {
        self.one_shot_flags_delay = self.one_shot_flags;
        self.one_shot_flags = OneShotFlags::default();
    }

    /// Raises the flag that another mapping was chosen for column `col_uid`.
    pub fn set_column_mapping_changed(&mut self, col_uid: ColumnUid)
        requires
            old(self).wf(),
        ensures
            final(self).wf(),
            final(self).pending_flags() == (OneShotFlags {
                column_mapping_changed: Some(col_uid),
                ..old(self).pending_flags()
            }),
            final(self).cells() == old(self).cells(),
            final(self).same_layout(old(self)),
            final(self).cell_edit() == old(self).cell_edit(),
    {
        self.one_shot_flags.column_mapping_changed = Some(col_uid);
    }

    pub fn clear_mapping_choices(&mut self)
        ensures
            final(self).mapping_choices() == Seq::<String>::empty(),
            final(self).cells() == old(self).cells(),
            final(self).rows() == old(self).rows(),
            final(self).columns() == old(self).columns(),
            final(self).next_row() == old(self).next_row(),
            old(self).wf() ==> final(self).wf(),
    {
        self.column_mapping_choices = Vec::new();
    }

    pub fn set_mapping_choices(&mut self, choices: Vec<String>)
        ensures
            final(self).mapping_choices() == choices@,
            final(self).cells() == old(self).cells(),
            final(self).rows() == old(self).rows(),
            final(self).columns() == old(self).columns(),
            final(self).next_row() == old(self).next_row(),
            old(self).wf() ==> final(self).wf(),
    {
        self.column_mapping_choices = choices;
    }

    pub fn push_mapping_choices(&mut self, choices: Vec<String>)
        ensures
            final(self).mapping_choices() == old(self).mapping_choices() + choices@,
            final(self).cells() == old(self).cells(),
            final(self).rows() == old(self).rows(),
            final(self).columns() == old(self).columns(),
            final(self).next_row() == old(self).next_row(),
            old(self).wf() ==> final(self).wf(),
    {
        let mut choices = choices;
        self.column_mapping_choices.append(&mut choices);
    }

    pub fn column_mapping_choices(&self) -> (r: &Vec<String>)
        ensures
            r@ == self.mapping_choices(),
    {
        &self.column_mapping_choices
    }

    /// Rows of this table can be skipped.
    pub fn are_rows_skippable(&self) -> (r: bool)
        ensures
            r,
    {
        true
    }

    /// Marks a row as skipped, or not: it stays in the table.
    pub fn skip_row(&mut self, row_uid: RowUid, skipped: bool)
        requires
            old(self).wf(),
        ensures
            final(self).wf(),
            final(self).skipped_rows() == if skipped {
                old(self).skipped_rows().insert(row_uid.0)
            } else {
                old(self).skipped_rows().remove(row_uid.0)
            },
            final(self).cells() == old(self).cells(),
            final(self).rows() == old(self).rows(),
            final(self).columns() == old(self).columns(),
            final(self).next_row() == old(self).next_row(),
    {
        if skipped {
            self.skipped_rows.insert(row_uid.0);
        } else {
            self.skipped_rows.remove(&row_uid.0);
        }
    }

    pub fn is_row_skipped(&self, row_uid: RowUid) -> (r: bool)
        ensures
            r == self.skipped_rows().contains(row_uid.0),
    {
        self.skipped_rows.contains(&row_uid.0)
    }

    /// Columns of this table can be skipped.
    pub fn are_cols_skippable(&self) -> (r: bool)
        ensures
            r,
    {
        true
    }

    /// Marks a column as skipped, or not; nothing happens for an unknown column.
    pub fn skip_col(&mut self, col_uid: ColumnUid, skipped: bool)
        requires
            old(self).wf(),
        ensures
            final(self).wf(),
            final(self).columns().len() == old(self).columns().len(),
            forall|k: int|
                0 <= k < old(self).columns().len() ==> {
                    let o = old(self).columns()[k];
                    let c = #[trigger] final(self).columns()[k];
                    &&& c.uid == o.uid
                    &&& c.ty == o.ty
                    &&& c.default == o.default
                    &&& c.info.name == o.info.name
                    &&& c.info.is_skipped == if o.uid == col_uid { skipped } else { o.info.is_skipped }
                },
            final(self).cells() == old(self).cells(),
            final(self).rows() == old(self).rows(),
            final(self).next_row() == old(self).next_row(),
    {
        match self.find_column(col_uid) {
            Some(i) => {
                let ghost cols0 = self.columns@;
                let mut c = self.columns.remove(i);
                c.info.is_skipped = skipped;
                self.columns.insert(i, c);
                proof {
                    assert forall|a: int, b: int| 0 <= a < b < self.columns@.len() implies self.columns@[a].uid.0
                        < self.columns@[b].uid.0 by {
                        assert(cols0[a].uid.0 < cols0[b].uid.0);
                    }
                    assert forall|k: int| 0 <= k < cols0.len() && cols0[k].uid == col_uid implies k == i by {
                        if k < i {
                            assert(cols0[k].uid.0 < cols0[i as int].uid.0);
                        } else if k > i {
                            assert(cols0[i as int].uid.0 < cols0[k].uid.0);
                        }
                    }
                }
            },
            None => {
                proof {
                    assert forall|k: int| 0 <= k < self.columns@.len() implies self.columns@[k].uid != col_uid by {
                        if self.columns@[k].uid == col_uid {
                            assert(has_column(self.columns@, col_uid));
                        }
                    }
                }
            },
        }
    }

    /// Whether column `col_uid` is skipped; false for an unknown column.
    pub fn is_col_skipped(&self, col_uid: ColumnUid) -> (r: bool)
        requires
            self.wf(),
        ensures
            r == match self.column(col_uid) {
                Some(c) => c.info.is_skipped,
                None => false,
            },
    {
        match self.column_info(col_uid) {
            Some(b) => b.is_skipped,
            None => false,
        }
    }

    /// The message of a failed type conversion of a cell, if there is one.
    pub fn conversion_error(&self, coord: CellCoord) -> (r: Option<&String>)
        ensures
            match r {
                Some(m) => self.conversion_errors().contains_key(coord_key(coord))
                    && m@ == self.conversion_errors()[coord_key(coord)],
                None => !self.conversion_errors().contains_key(coord_key(coord)),
            },
    {
        let key = coord.key();
        self.conversion_errors.get(&key)
    }

    /// Forgets all conversion messages.
    pub fn clear_metadata(&mut self)
        requires
            old(self).wf(),
        ensures
            final(self).wf(),
            final(self).conversion_errors() == Map::<u64, Seq<char>>::empty(),
            final(self).cells() == old(self).cells(),
            final(self).same_layout(old(self)),
            final(self).pending_flags() == old(self).pending_flags(),
    {
        self.conversion_errors = HashMap::new();
        proof {
            assert(self.conversion_errors() =~= Map::<u64, Seq<char>>::empty());
        }
    }
}


impl VariantBackend {
    /// Changes the type of column `col_uid` and converts its values: a value that
    /// converts is replaced, one that does not stays and gets the error's message.
    /// Nothing happens for an unknown column or one of that type already.
    pub fn turn_column_into(&mut self, col_uid: ColumnUid, ty: VariantTy)
        requires
            old(self).wf(),
        ensures
            final(self).wf(),
            match old(self).column(col_uid) {
                None => *final(self) == *old(self),
                Some(c) => if c.ty == ty {
                    *final(self) == *old(self)
                } else {
                    &&& final(self).cells() == converted_cells(old(self).cells(), old(self).rows(), col_uid, ty)
                    &&& final(self).conversion_errors() == conversion_messages(
                        old(self).cells(),
                        old(self).conversion_errors(),
                        old(self).rows(),
                        col_uid,
                        ty,
                    )
                    &&& final(self).columns().len() == old(self).columns().len()
                    &&& forall|k: int|
                        0 <= k < old(self).columns().len() ==> {
                            let o = old(self).columns()[k];
                            let n = #[trigger] final(self).columns()[k];
                            if o.uid == col_uid {
                                &&& n.uid == o.uid
                                &&& n.ty == ty
                                &&& n.info.ty@ == type_label_of(ty)
                                &&& n.info.name == o.info.name
                                &&& n.default == o.default
                            } else {
                                n == o
                            }
                        }
                    &&& final(self).rows() == old(self).rows()
                    &&& final(self).next_row() == old(self).next_row()
                    &&& final(self).pending_flags() == (OneShotFlags { columns_changed: true, ..old(self).pending_flags() })
                },
            },
    {
        let i = match self.find_column(col_uid) {
            Some(i) => i,
            None => return,
        };
        if same_type(&self.columns[i].ty, &ty) {
            return;
        }
        let ghost cols0 = self.columns@;
        let mut c = self.columns.remove(i);
        c.ty = ty.clone();
        c.info.ty = type_label(&ty);
        self.columns.insert(i, c);
        proof {
            assert forall|a: int, b: int| 0 <= a < b < self.columns@.len() implies self.columns@[a].uid.0
                < self.columns@[b].uid.0 by {
                assert(cols0[a].uid.0 < cols0[b].uid.0);
            }
            assert forall|k: int| 0 <= k < cols0.len() && cols0[k].uid == col_uid implies k == i by {
                if k < i {
                    assert(cols0[k].uid.0 < cols0[i as int].uid.0);
                } else if k > i {
                    assert(cols0[i as int].uid.0 < cols0[k].uid.0);
                }
            }
        }
        let mut cells: HashMap<u64, Variant> = HashMap::new();
        std::mem::swap(&mut cells, &mut self.cells);
        let mut errors: HashMap<u64, String> = HashMap::new();
        std::mem::swap(&mut errors, &mut self.conversion_errors);
        let ghost cells0 = cells@;
        let ghost errors0 = errors@.map_values(|s: String| s@);
        let ghost rows = self.row_order@;
        let kind = type_kind(&ty);
        let mut r: usize = 0;
        while r < self.row_order.len()
            invariant
                rows == self.row_order@,
                kind == type_kind_of(ty),
                r <= rows.len(),
                cells@ == converted_cells(cells0, rows.take(r as int), col_uid, ty),
                errors@.map_values(|s: String| s@) == conversion_messages(
                    cells0,
                    errors0,
                    rows.take(r as int),
                    col_uid,
                    ty,
                ),
            decreases rows.len() - r,
        {
            proof {
                assert(rows.take(r + 1).drop_last() =~= rows.take(r as int));
            }
            let key = CellCoord { row_uid: self.row_order[r], col_uid }.key();
            let found = cells.get(&key);
            let allowed = match found {
                Some(v) => display_is_safe(v, DISPLAY_DEPTH) && parses_safely(value_text(v).as_str(), kind),
                None => false,
            };
            match found {
                Some(v) if allowed => {
                    let v2 = v.clone();
                    match convert_value(v2, &ty) {
                        Ok(x) => {
                            cells.insert(key, x);
                            let ghost e0 = errors@;
                            errors.remove(&key);
                            proof {
                                assert(errors@.map_values(|s: String| s@) =~= e0.map_values(|s: String| s@).remove(key));
                            }
                        },
                        Err(e) => {
                            let m = error_text(&e);
                            let ghost e0 = errors@;
                            errors.insert(key, m);
                            proof {
                                assert(errors@.map_values(|s: String| s@) =~= e0.map_values(|s: String| s@).insert(key, m@));
                            }
                        },
                    }
                },
                _ => {},
            }
            r = r + 1;
        }
        proof {
            assert(rows.take(r as int) =~= rows);
        }
        self.cells = cells;
        self.conversion_errors = errors;
        self.one_shot_flags.columns_changed = true;
    }
}

impl VariantBackend {
    /// Raises the flags of a completed load: columns reset and data reloaded.
    pub fn mark_reloaded(&mut self)
        requires
            old(self).wf(),
        ensures
            final(self).wf(),
            final(self).pending_flags() == (OneShotFlags {
                columns_reset: true,
                reloaded: true,
                ..old(self).pending_flags()
            }),
            final(self).cells() == old(self).cells(),
            final(self).same_layout(old(self)),
            final(self).cell_edit() == old(self).cell_edit(),
    {
        self.one_shot_flags.columns_reset = true;
        self.one_shot_flags.reloaded = true;
    }
}

} // verus!
