//! Paste reconciliation: the shape of a pasted block, which target rows and
//! columns it goes to (creating rows and columns where asked), and the writes
//! it makes, each text parsed as its column's type.
use vstd::prelude::*;
use rvariant::Variant;
use crate::backend::{column_of, new_row_cells, next_column_uid, VariantBackend, VariantColumn};
use crate::ids::{coord_key, CellCoord, ColumnUid, RowUid, VisualRowIdx};
use crate::selection::{RangeModel, SelectedRange};
use crate::text::base_26_of;
use crate::value::{
    from_text, is_str_type, parse_value, parses_safely, str_value, str_variant, text_parses_safely, type_kind,
};

verus! {

/// The longest row of a block.
pub open spec fn block_width(b: Seq<Seq<Seq<char>>>) -> int
    decreases b.len(),
{
    if b.len() == 0 {
        0
    } else {
        let w = block_width(b.drop_last());
        if b.last().len() > w {
            b.last().len() as int
        } else {
            w
        }
    }
}

/// Some rows of the block are shorter than others.
pub open spec fn block_has_holes(b: Seq<Seq<Seq<char>>>) -> bool {
    exists|r: int| 0 <= r < b.len() && #[trigger] b[r].len() != b[0].len()
}

/// A block that fills the selection exactly, with no holes.
pub open spec fn fits_exactly(b: Seq<Seq<Seq<char>>>, m: RangeModel) -> bool {
    b.len() == m.height() && block_width(b) == m.width() && !block_has_holes(b)
}

/// How many new rows a paste of `n` rows asks for.
pub open spec fn rows_to_create(m: RangeModel, n: int, create: bool) -> int {
    if create && n > m.height() {
        n - m.height()
    } else {
        0
    }
}

/// How many new columns a paste of width `w` asks for.
pub open spec fn cols_to_create(m: RangeModel, w: int, create: bool) -> int {
    if create && w > m.width() {
        w - m.width()
    } else {
        0
    }
}

/// How many new rows the table can still make: none when read-only, else as
/// many as identities are left.
pub open spec fn row_room(b: &VariantBackend) -> int {
    if b.persistent().is_read_only {
        0
    } else {
        u32::MAX - b.next_row()
    }
}

/// How many new columns the table can still make: none when read-only, else
/// as many as identities are left.
pub open spec fn col_room(b: &VariantBackend) -> int {
    let cols = b.columns();
    let a = u32::MAX + 1 - next_column_uid(cols);
    let c = u32::MAX - cols.len();
    if b.persistent().is_read_only || c < 0 {
        0
    } else if a < c {
        a
    } else {
        c
    }
}

pub open spec fn min(a: int, b: int) -> int {
    if a < b {
        a
    } else {
        b
    }
}

/// The rows a paste writes to: the selected rows, then the rows it creates
/// (none where no identity is left).
pub open spec fn target_rows(b: &VariantBackend, m: RangeModel, n: int, create: bool) -> Seq<Option<RowUid>> {
    Seq::new(
        m.height() as nat,
        |k: int|
            if m.row_start + k < b.rows().len() {
                Some(b.rows()[m.row_start + k])
            } else {
                None
            },
    ) + Seq::new(
        rows_to_create(m, n, create) as nat,
        |k: int|
            if k < row_room(b) {
                Some(RowUid((b.next_row() + k) as u32))
            } else {
                None
            },
    )
}

/// The columns a paste writes to: the selected columns in display order, then
/// the columns it creates (none where no identity is left).
pub open spec fn target_cols(
    order: Seq<ColumnUid>,
    b: &VariantBackend,
    m: RangeModel,
    w: int,
    create: bool,
) -> Seq<Option<ColumnUid>> {
    Seq::new(
        m.width() as nat,
        |k: int|
            if m.col_start + k < order.len() {
                Some(order[m.col_start + k])
            } else {
                None
            },
    ) + Seq::new(
        cols_to_create(m, w, create) as nat,
        |k: int|
            if k < col_room(b) {
                Some(ColumnUid((next_column_uid(b.columns()) + k) as u32))
            } else {
                None
            },
    )
}

/// The cells after `count` rows are asked for, identities from `start` on,
/// each made with the column defaults; only the first `room` are made.
pub open spec fn cells_with_new_rows(
    cells: Map<u64, Variant>,
    start: int,
    count: nat,
    room: int,
    cols: Seq<VariantColumn>,
) -> Map<u64, Variant>
    decreases count,
{
    if count == 0 {
        cells
    } else {
        let c = cells_with_new_rows(cells, start, (count - 1) as nat, room, cols);
        let u = start + count - 1;
        if count - 1 < room {
            new_row_cells(c, RowUid(u as u32), Seq::empty(), cols)
        } else {
            c
        }
    }
}

/// The value a pasted text becomes in a column: parsed as the column's type,
/// or a string value where the column is unknown.
pub open spec fn value_for(cols: Seq<VariantColumn>, col: ColumnUid, text: Seq<char>) -> Variant {
    match column_of(cols, col) {
        Some(c) => if text_parses_safely(text, c.ty) {
            from_text(text, c.ty)
        } else {
            str_variant(text)
        },
        None => str_variant(text),
    }
}

/// The block row that target row `i` takes: repeated cyclically when filling.
pub open spec fn source_row(b: Seq<Seq<Seq<char>>>, i: int, fill: bool) -> Seq<Seq<char>> {
    if fill {
        b[i % (b.len() as int)]
    } else {
        b[i]
    }
}

/// The cell of a block row that target column `j` takes.
pub open spec fn source_cell(row: Seq<Seq<char>>, j: int, fill: bool) -> Seq<char> {
    if fill {
        row[j % (row.len() as int)]
    } else {
        row[j]
    }
}

/// How many targets get data: all of them when filling, else as many as both
/// the targets and the source have.
pub open spec fn used_count(nt: int, n: int, fill: bool) -> int {
    if fill {
        nt
    } else {
        min(nt, n)
    }
}

/// The writes of one row: target columns `0..j`, where both identities are known.
pub open spec fn row_writes(
    row_id: Option<RowUid>,
    col_ids: Seq<Option<ColumnUid>>,
    row: Seq<Seq<char>>,
    fill: bool,
    cols: Seq<VariantColumn>,
    j: int,
) -> Seq<(CellCoord, Variant)>
    decreases j,
{
    if j <= 0 {
        Seq::empty()
    } else {
        let w = row_writes(row_id, col_ids, row, fill, cols, j - 1);
        if row_id is Some && col_ids[j - 1] is Some {
            w.push(
                (
                    CellCoord { row_uid: row_id->0, col_uid: col_ids[j - 1]->0 },
                    value_for(cols, col_ids[j - 1]->0, source_cell(row, j - 1, fill)),
                ),
            )
        } else {
            w
        }
    }
}

/// How many target columns a block row fills: none for an empty row.
pub open spec fn row_span(ncols: int, row: Seq<Seq<char>>, fill: bool) -> int {
    if row.len() == 0 {
        0
    } else {
        used_count(ncols, row.len() as int, fill)
    }
}

/// The writes of target rows `0..i`, in order.
pub open spec fn writes_upto(
    row_ids: Seq<Option<RowUid>>,
    col_ids: Seq<Option<ColumnUid>>,
    b: Seq<Seq<Seq<char>>>,
    fill: bool,
    cols: Seq<VariantColumn>,
    i: int,
) -> Seq<(CellCoord, Variant)>
    decreases i,
{
    if i <= 0 {
        Seq::empty()
    } else {
        let row = source_row(b, i - 1, fill);
        writes_upto(row_ids, col_ids, b, fill, cols, i - 1) + row_writes(
            row_ids[i - 1],
            col_ids,
            row,
            fill,
            cols,
            row_span(col_ids.len() as int, row, fill),
        )
    }
}

/// All writes of a paste, in order.
pub open spec fn paste_writes(
    row_ids: Seq<Option<RowUid>>,
    col_ids: Seq<Option<ColumnUid>>,
    b: Seq<Seq<Seq<char>>>,
    fill: bool,
    cols: Seq<VariantColumn>,
) -> Seq<(CellCoord, Variant)> {
    writes_upto(row_ids, col_ids, b, fill, cols, used_count(row_ids.len() as int, b.len() as int, fill))
}

/// The cells after the writes, in order.
pub open spec fn apply_writes(cells: Map<u64, Variant>, ws: Seq<(CellCoord, Variant)>) -> Map<u64, Variant>
    decreases ws.len(),
{
    if ws.len() == 0 {
        cells
    } else {
        apply_writes(cells, ws.drop_last()).insert(coord_key(ws.last().0), ws.last().1)
    }
}

/// A column that a paste creates: the `k`-th after `cols`.
pub open spec fn is_created_column(c: VariantColumn, cols: Seq<VariantColumn>, k: int) -> bool {
    &&& c.uid == ColumnUid((next_column_uid(cols) + k) as u32)
    &&& c.info.name@ == base_26_of((cols.len() + k + 1) as nat)
    &&& is_str_type(c.ty)
    &&& c.default is None
}

/// What a paste of block `blk` (width `w`) into selection `m` with choices
/// `(cr, fill, cc)` does to the table `b0` and what it reports as written.
pub open spec fn pasted(
    b0: &VariantBackend,
    b1: &VariantBackend,
    order: Seq<ColumnUid>,
    m: RangeModel,
    blk: Seq<Seq<Seq<char>>>,
    w: int,
    cr: bool,
    fill: bool,
    cc: bool,
    updated: Seq<CellCoord>,
) -> bool {
    let nr = min(rows_to_create(m, blk.len() as int, cr), row_room(b0));
    let nc = min(cols_to_create(m, w, cc), col_room(b0));
    let row_ids = target_rows(b0, m, blk.len() as int, cr);
    let col_ids = target_cols(order, b0, m, w, cc);
    let ws = paste_writes(row_ids, col_ids, blk, fill, b1.columns());
    &&& b1.wf()
    &&& b1.rows() == b0.rows() + Seq::new(nr as nat, |k: int| RowUid((b0.next_row() + k) as u32))
    &&& b1.next_row() == b0.next_row() + nr
    &&& b1.columns().len() == b0.columns().len() + nc
    &&& b1.columns().take(b0.columns().len() as int) == b0.columns()
    &&& forall|k: int| 0 <= k < nc ==> is_created_column(#[trigger] b1.columns()[b0.columns().len() + k], b0.columns(), k)
    &&& b1.cells() == apply_writes(
        cells_with_new_rows(b0.cells(), b0.next_row() as int, rows_to_create(m, blk.len() as int, cr) as nat, row_room(b0), b0.columns()),
        ws,
    )
    &&& updated == ws.map_values(|x: (CellCoord, Variant)| x.0)
}


/// The pending block as cells of text.
pub open spec fn block_of(rows: Seq<Vec<String>>) -> Seq<Seq<Seq<char>>> {
    rows.map_values(|row: Vec<String>| row@.map_values(|c: String| c@))
}

proof fn lemma_apply_push(cells: Map<u64, Variant>, ws: Seq<(CellCoord, Variant)>, x: (CellCoord, Variant))
    ensures
        apply_writes(cells, ws.push(x)) == apply_writes(cells, ws).insert(coord_key(x.0), x.1),
{
    assert(ws.push(x).drop_last() =~= ws);
}

/// Looks up the selected rows, then creates the rows a taller block asks for.
pub(crate) fn paste_target_rows(table: &mut VariantBackend, sel: SelectedRange, n: usize, create: bool) -> (row_ids: Vec<Option<RowUid>>)
    requires
        old(table).wf(),
    ensures
        row_ids@ == target_rows(old(table), sel@, n as int, create),
        ({
            let nr = min(rows_to_create(sel@, n as int, create), row_room(old(table)));
            &&& final(table).wf()
            &&& final(table).rows() == old(table).rows() + Seq::new(nr as nat, |k: int| RowUid((old(table).next_row() + k) as u32))
            &&& final(table).next_row() == old(table).next_row() + nr
            &&& final(table).cells() == cells_with_new_rows(
                old(table).cells(),
                old(table).next_row() as int,
                rows_to_create(sel@, n as int, create) as nat,
                row_room(old(table)),
                old(table).columns(),
            )
            &&& final(table).columns() == old(table).columns()
            &&& final(table).persistent() == old(table).persistent()
        }),
{
    let h = sel.height();
    let rs = sel.row_start();
    let ghost m = sel@;
    let ghost target = target_rows(table, m, n as int, create);
    let mut ids: Vec<Option<RowUid>> = Vec::new();
    let mut k: usize = 0;
    while k < h
        invariant
            m.wf(),
            h == m.height(),
            rs == m.row_start,
            k <= h,
            target == target_rows(table, m, n as int, create),
            ids@ == target.take(k as int),
        decreases h - k,
    {
        let r = table.row_uid(VisualRowIdx(rs + k));
        ids.push(r);
        proof {
            assert(target.take(k + 1) =~= target.take(k as int).push(target[k as int]));
        }
        k = k + 1;
    }
    let extra: usize = if create && n > h { n - h } else { 0 };
    let ghost b0 = *table;
    let ghost room = row_room(&b0);
    let mut q: usize = 0;
    proof {
        assert(b0.rows() + Seq::new(0, |k: int| RowUid((b0.next_row() + k) as u32)) =~= b0.rows());
    }
    while q < extra
        invariant
            m.wf(),
            h == m.height(),
            extra == rows_to_create(m, n as int, create),
            target == target_rows(&b0, m, n as int, create),
            room == row_room(&b0),
            q <= extra,
            ids@ == target.take(h + q),
            table.wf(),
            table.rows() == b0.rows() + Seq::new(min(q as int, room) as nat, |k: int| RowUid((b0.next_row() + k) as u32)),
            table.next_row() == b0.next_row() + min(q as int, room),
            table.cells() == cells_with_new_rows(b0.cells(), b0.next_row() as int, q as nat, room, b0.columns()),
            table.columns() == b0.columns(),
            table.persistent() == b0.persistent(),
        decreases extra - q,
    {
        let none: Vec<(ColumnUid, Variant)> = Vec::new();
        proof {
            assert(none@ =~= Seq::<(ColumnUid, Variant)>::empty());
        }
        let r = table.create_row(none);
        ids.push(r);
        proof {
            assert(target.take(h + q + 1) =~= target.take(h + q).push(target[h + q]));
            if q < room {
                assert(table.rows() =~= b0.rows() + Seq::new(min(q + 1, room) as nat, |k: int| RowUid((b0.next_row() + k) as u32)));
            }
        }
        q = q + 1;
    }
    proof {
        assert(target.take(h + extra) =~= target);
    }
    ids
}

/// Looks up the selected columns in display order, then creates the columns a
/// wider block asks for.
pub(crate) fn paste_target_cols(order: &Vec<ColumnUid>, table: &mut VariantBackend, sel: SelectedRange, w: usize, create: bool) -> (col_ids: Vec<Option<ColumnUid>>)
    requires
        old(table).wf(),
    ensures
        col_ids@ == target_cols(order@, old(table), sel@, w as int, create),
        ({
            let nc = min(cols_to_create(sel@, w as int, create), col_room(old(table)));
            &&& final(table).wf()
            &&& final(table).columns().len() == old(table).columns().len() + nc
            &&& final(table).columns().take(old(table).columns().len() as int) == old(table).columns()
            &&& forall|k: int| 0 <= k < nc ==> is_created_column(#[trigger] final(table).columns()[old(table).columns().len() + k], old(table).columns(), k)
            &&& final(table).rows() == old(table).rows()
            &&& final(table).next_row() == old(table).next_row()
            &&& final(table).cells() == old(table).cells()
            &&& final(table).persistent() == old(table).persistent()
        }),
{
    let wd = sel.width();
    let cs = sel.col_start();
    let ghost m = sel@;
    let ghost target = target_cols(order@, table, m, w as int, create);
    let mut ids: Vec<Option<ColumnUid>> = Vec::new();
    let mut k: usize = 0;
    while k < wd
        invariant
            m.wf(),
            wd == m.width(),
            cs == m.col_start,
            k <= wd,
            target == target_cols(order@, table, m, w as int, create),
            ids@ == target.take(k as int),
        decreases wd - k,
    {
        let c = if cs + k < order.len() {
            Some(order[cs + k])
        } else {
            None
        };
        ids.push(c);
        proof {
            assert(target.take(k + 1) =~= target.take(k as int).push(target[k as int]));
        }
        k = k + 1;
    }
    let extra: usize = if create && w > wd { w - wd } else { 0 };
    let ghost b0 = *table;
    let ghost cols0 = b0.columns();
    let ghost room = col_room(&b0);
    let mut q: usize = 0;
    while q < extra
        invariant
            m.wf(),
            wd == m.width(),
            extra == cols_to_create(m, w as int, create),
            target == target_cols(order@, &b0, m, w as int, create),
            cols0 == b0.columns(),
            room == col_room(&b0),
            table.persistent() == b0.persistent(),
            0 <= room,
            q <= extra,
            ids@ == target.take(wd + q),
            table.wf(),
            table.columns().len() == cols0.len() + min(q as int, room),
            table.columns().take(cols0.len() as int) == cols0,
            forall|k: int| 0 <= k < min(q as int, room) ==> is_created_column(#[trigger] table.columns()[cols0.len() + k], cols0, k),
            next_column_uid(table.columns()) == next_column_uid(cols0) + min(q as int, room),
            table.rows() == b0.rows(),
            table.next_row() == b0.next_row(),
            table.cells() == b0.cells(),
        decreases extra - q,
    {
        let ghost c0 = table.columns();
        let r = table.create_column();
        ids.push(r);
        proof {
            assert(target.take(wd + q + 1) =~= target.take(wd + q).push(target[wd + q]));
            if q < room {
                assert(table.columns().take(cols0.len() as int) =~= c0.take(cols0.len() as int));
                assert forall|k: int| 0 <= k < min(q + 1, room) implies is_created_column(#[trigger] table.columns()[cols0.len() + k], cols0, k) by {
                    if k < q {
                        assert(table.columns()[cols0.len() + k] == c0[cols0.len() + k]);
                    }
                }
            }
        }
        q = q + 1;
    }
    proof {
        assert(target.take(wd + extra) =~= target);
    }
    ids
}

/// Writes the block into the target cells, each text parsed as its column's type,
/// and records the written cells in order.
pub(crate) fn write_block(
    table: &mut VariantBackend,
    row_ids: &Vec<Option<RowUid>>,
    col_ids: &Vec<Option<ColumnUid>>,
    rows: &Vec<Vec<String>>,
    fill: bool,
    updated: &mut Vec<CellCoord>,
)
    requires
        old(table).wf(),
        rows@.len() >= 1,
    ensures
        ({
            let ws = paste_writes(row_ids@, col_ids@, block_of(rows@), fill, old(table).columns());
            &&& final(table).wf()
            &&& final(table).cells() == apply_writes(old(table).cells(), ws)
            &&& final(table).same_layout(old(table))
            &&& final(updated)@ == ws.map_values(|x: (CellCoord, Variant)| x.0)
        }),
{
    let ghost blk = block_of(rows@);
    let ghost cols = table.columns();
    let ghost c0 = table.cells();
    let ghost b0 = *table;
    let n = rows.len();
    let nr = if fill {
        row_ids.len()
    } else if row_ids.len() < n {
        row_ids.len()
    } else {
        n
    };
    updated.clear();
    let mut i: usize = 0;
    while i < nr
        invariant
            n == rows@.len(),
            n >= 1,
            blk == block_of(rows@),
            nr == used_count(row_ids@.len() as int, n as int, fill),
            i <= nr,
            table.wf(),
            table.same_layout(&b0),
            table.columns() == cols,
            table.cells() == apply_writes(c0, writes_upto(row_ids@, col_ids@, blk, fill, cols, i as int)),
            updated@ == writes_upto(row_ids@, col_ids@, blk, fill, cols, i as int).map_values(|x: (CellCoord, Variant)| x.0),
        decreases nr - i,
    {
        let src_i = if fill { i % n } else { i };
        let row = &rows[src_i];
        let rl = row.len();
        let nc = if rl == 0 {
            0
        } else if fill {
            col_ids.len()
        } else if col_ids.len() < rl {
            col_ids.len()
        } else {
            rl
        };
        let ghost before = writes_upto(row_ids@, col_ids@, blk, fill, cols, i as int);
        let ghost srow = source_row(blk, i as int, fill);
        proof {
            assert(srow == row@.map_values(|c: String| c@));
        }
        let mut j: usize = 0;
        while j < nc
            invariant
                n == rows@.len(),
                i < nr,
                nr == used_count(row_ids@.len() as int, n as int, fill),
                srow == row@.map_values(|c: String| c@),
                rl == row@.len(),
                nc == row_span(col_ids@.len() as int, srow, fill),
                nc > 0 ==> rl >= 1,
                j <= nc,
                table.wf(),
                table.same_layout(&b0),
                table.columns() == cols,
                table.cells() == apply_writes(c0, before + row_writes(row_ids@[i as int], col_ids@, srow, fill, cols, j as int)),
                updated@ == (before + row_writes(row_ids@[i as int], col_ids@, srow, fill, cols, j as int)).map_values(|x: (CellCoord, Variant)| x.0),
            decreases nc - j,
        {
            let ghost ws0 = before + row_writes(row_ids@[i as int], col_ids@, srow, fill, cols, j as int);
            if let (Some(ru), Some(cu)) = (row_ids[i], col_ids[j]) {
                let src_j = if fill { j % rl } else { j };
                let text = row[src_j].as_str();
                let value = match table.column_ty(cu) {
                    Some(ty) => if parses_safely(text, type_kind(&ty)) {
                        parse_value(text, &ty)
                    } else {
                        str_value(text)
                    },
                    None => str_value(text),
                };
                let coord = CellCoord { row_uid: ru, col_uid: cu };
                table.set(coord, value);
                updated.push(coord);
                proof {
                    let x = (coord, value);
                    assert(value == value_for(cols, cu, source_cell(srow, j as int, fill)));
                    assert(before + row_writes(row_ids@[i as int], col_ids@, srow, fill, cols, j + 1) =~= ws0.push(x));
                    lemma_apply_push(c0, ws0, x);
                    assert(ws0.push(x).map_values(|x: (CellCoord, Variant)| x.0) =~= ws0.map_values(|x: (CellCoord, Variant)| x.0).push(coord));
                }
            } else {
                proof {
                    assert(before + row_writes(row_ids@[i as int], col_ids@, srow, fill, cols, j + 1) =~= ws0);
                }
            }
            j = j + 1;
        }
        proof {
            assert(writes_upto(row_ids@, col_ids@, blk, fill, cols, i + 1) == before + row_writes(row_ids@[i as int], col_ids@, srow, fill, cols, nc as int));
        }
        i = i + 1;
    }
}

proof fn lemma_row_writes_full(
    rid: Option<RowUid>,
    col_ids: Seq<Option<ColumnUid>>,
    row: Seq<Seq<char>>,
    cols: Seq<VariantColumn>,
    j: int,
)
    requires
        rid is Some,
        0 <= j <= col_ids.len(),
        row.len() >= col_ids.len(),
        forall|k: int| 0 <= k < col_ids.len() ==> (#[trigger] col_ids[k]) is Some,
    ensures
        row_writes(rid, col_ids, row, false, cols, j).len() == j,
        forall|k: int| 0 <= k < j ==> #[trigger] row_writes(rid, col_ids, row, false, cols, j)[k] == (
            CellCoord { row_uid: rid->0, col_uid: col_ids[k]->0 },
            value_for(cols, col_ids[k]->0, row[k]),
        ),
    decreases j,
{
    if j > 0 {
        lemma_row_writes_full(rid, col_ids, row, cols, j - 1);
    }
}

proof fn lemma_writes_upto_full(
    row_ids: Seq<Option<RowUid>>,
    col_ids: Seq<Option<ColumnUid>>,
    b: Seq<Seq<Seq<char>>>,
    cols: Seq<VariantColumn>,
    i: int,
)
    requires
        0 <= i <= b.len(),
        row_ids.len() == b.len(),
        forall|r: int| 0 <= r < row_ids.len() ==> (#[trigger] row_ids[r]) is Some,
        forall|k: int| 0 <= k < col_ids.len() ==> (#[trigger] col_ids[k]) is Some,
        forall|r: int| 0 <= r < b.len() ==> (#[trigger] b[r]).len() == col_ids.len(),
    ensures
        writes_upto(row_ids, col_ids, b, false, cols, i).len() == i * col_ids.len(),
        forall|a: int, k: int|
            #![trigger row_ids[a], col_ids[k]]
            0 <= a < i && 0 <= k < col_ids.len() ==> writes_upto(row_ids, col_ids, b, false, cols, i)[a * col_ids.len() + k] == (
                CellCoord { row_uid: row_ids[a]->0, col_uid: col_ids[k]->0 },
                value_for(cols, col_ids[k]->0, b[a][k]),
            ),
    decreases i,
{
    let w = col_ids.len() as int;
    if i == 0 {
        assert(0 * w == 0);
    } else {
        lemma_writes_upto_full(row_ids, col_ids, b, cols, i - 1);
        let prev = writes_upto(row_ids, col_ids, b, false, cols, i - 1);
        lemma_row_writes_full(row_ids[i - 1], col_ids, b[i - 1], cols, w);
        let rw = row_writes(row_ids[i - 1], col_ids, b[i - 1], false, cols, w);
        assert(row_span(w, b[i - 1], false) == w);
        assert(writes_upto(row_ids, col_ids, b, false, cols, i) == prev + rw);
        assert((i - 1) * w + w == i * w) by (nonlinear_arith);
        assert forall|a: int, k: int| 0 <= a < i && 0 <= k < w implies writes_upto(row_ids, col_ids, b, false, cols, i)[a * w + k] == (
            CellCoord { row_uid: row_ids[a]->0, col_uid: col_ids[k]->0 },
            value_for(cols, col_ids[k]->0, b[a][k]),
        ) by {
            if a < i - 1 {
                assert(a * w + k < (i - 1) * w) by (nonlinear_arith)
                    requires 0 <= a < i - 1, 0 <= k < w;
                assert(0 <= a * w) by (nonlinear_arith)
                    requires 0 <= a, 0 <= w;
            } else {
                assert(a * w + k - (i - 1) * w == k) by (nonlinear_arith)
                    requires a == i - 1;
            }
        }
    }
}

/// A block that fits the selection exactly, pasted where every target row and
/// column exists, writes exactly rows × columns cells: row by row, each target
/// cell once, each with its source cell parsed as the column's type.
pub proof fn lemma_exact_fit_writes(
    row_ids: Seq<Option<RowUid>>,
    col_ids: Seq<Option<ColumnUid>>,
    b: Seq<Seq<Seq<char>>>,
    cols: Seq<VariantColumn>,
)
    requires
        row_ids.len() == b.len(),
        forall|r: int| 0 <= r < row_ids.len() ==> (#[trigger] row_ids[r]) is Some,
        forall|k: int| 0 <= k < col_ids.len() ==> (#[trigger] col_ids[k]) is Some,
        forall|r: int| 0 <= r < b.len() ==> (#[trigger] b[r]).len() == col_ids.len(),
    ensures
        paste_writes(row_ids, col_ids, b, false, cols).len() == b.len() * col_ids.len(),
        forall|a: int, k: int|
            #![trigger row_ids[a], col_ids[k]]
            0 <= a < b.len() && 0 <= k < col_ids.len() ==> paste_writes(row_ids, col_ids, b, false, cols)[a * col_ids.len() + k] == (
                CellCoord { row_uid: row_ids[a]->0, col_uid: col_ids[k]->0 },
                value_for(cols, col_ids[k]->0, b[a][k]),
            ),
{
    lemma_writes_upto_full(row_ids, col_ids, b, cols, b.len() as int);
}



/// A block taller than the selection, pasted with row creation into a table
/// with room for the new rows and whose selected rows all exist, has a target
/// row for every block row: the selected rows, then exactly as many new rows as
/// the block has more rows than the selection, with fresh identities.
pub proof fn lemma_over_height_targets(b: &VariantBackend, m: RangeModel, n: int)
    requires
        m.wf(),
        n > m.height(),
        n - m.height() <= row_room(b),
        m.row_end < b.rows().len(),
    ensures
        rows_to_create(m, n, true) == n - m.height(),
        target_rows(b, m, n, true).len() == n,
        forall|k: int| 0 <= k < n ==> (#[trigger] target_rows(b, m, n, true)[k]) is Some,
        forall|k: int| m.height() <= k < n ==> target_rows(b, m, n, true)[k] == Some(RowUid((b.next_row() + k - m.height()) as u32)),
{
    let t = target_rows(b, m, n, true);
    assert forall|k: int| 0 <= k < n implies (#[trigger] t[k]) is Some by {
        if k < m.height() {
            assert(m.row_start + k <= m.row_end);
        }
    }
}

/// When the target rows are distinct and so are the target columns (the
/// displayed columns have distinct identities), an exactly fitting block writes
/// each target cell once: distinct positions of the block go to distinct cells.
pub proof fn lemma_exact_fit_cells_distinct(
    row_ids: Seq<Option<RowUid>>,
    col_ids: Seq<Option<ColumnUid>>,
    b: Seq<Seq<Seq<char>>>,
    cols: Seq<VariantColumn>,
)
    requires
        row_ids.len() == b.len(),
        forall|r: int| 0 <= r < row_ids.len() ==> (#[trigger] row_ids[r]) is Some,
        forall|k: int| 0 <= k < col_ids.len() ==> (#[trigger] col_ids[k]) is Some,
        forall|r: int| 0 <= r < b.len() ==> (#[trigger] b[r]).len() == col_ids.len(),
        row_ids.no_duplicates(),
        col_ids.no_duplicates(),
    ensures
        forall|a1: int, k1: int, a2: int, k2: int|
            0 <= a1 < b.len() && 0 <= k1 < col_ids.len() && 0 <= a2 < b.len() && 0 <= k2 < col_ids.len() && (a1
                != a2 || k1 != k2) ==> #[trigger] paste_writes(row_ids, col_ids, b, false, cols)[a1 * col_ids.len() + k1].0
                != #[trigger] paste_writes(row_ids, col_ids, b, false, cols)[a2 * col_ids.len() + k2].0,
{
    lemma_exact_fit_writes(row_ids, col_ids, b, cols);
    assert forall|a1: int, k1: int, a2: int, k2: int|
        0 <= a1 < b.len() && 0 <= k1 < col_ids.len() && 0 <= a2 < b.len() && 0 <= k2 < col_ids.len() && (a1 != a2
            || k1 != k2) implies #[trigger] paste_writes(row_ids, col_ids, b, false, cols)[a1 * col_ids.len() + k1].0
        != #[trigger] paste_writes(row_ids, col_ids, b, false, cols)[a2 * col_ids.len() + k2].0 by {
        let ws = paste_writes(row_ids, col_ids, b, false, cols);
        assert(ws[a1 * col_ids.len() + k1].0 == CellCoord { row_uid: row_ids[a1]->0, col_uid: col_ids[k1]->0 });
        assert(ws[a2 * col_ids.len() + k2].0 == CellCoord { row_uid: row_ids[a2]->0, col_uid: col_ids[k2]->0 });
        if a1 != a2 {
            assert(row_ids[a1] != row_ids[a2]);
        } else {
            assert(col_ids[k1] != col_ids[k2]);
        }
    }
}

} // verus!
