use vstd::prelude::*;

verus! {

/// Stable identity of a row, assigned on creation and never reused.
#[derive(Copy, Clone, Debug, PartialEq, Eq, Structural, Hash)]
pub struct RowUid(pub u32);

/// Position of a row in the currently displayed sequence.
#[derive(Copy, Clone, Debug, PartialEq, Eq, Structural, Hash)]
pub struct VisualRowIdx(pub usize);

/// Stable identity of a column, independent of display order.
#[derive(Copy, Clone, Debug, PartialEq, Eq, Structural, Hash, PartialOrd, Ord)]
pub struct ColumnUid(pub u32);

/// One cell's storage slot.
#[derive(Copy, Clone, Debug, PartialEq, Eq, Structural, Hash)]
pub struct CellCoord {
    pub row_uid: RowUid,
    pub col_uid: ColumnUid,
}

impl From<(RowUid, ColumnUid)> for CellCoord {
    fn from(value: (RowUid, ColumnUid)) -> (r: CellCoord)
        ensures
            r == (CellCoord { row_uid: value.0, col_uid: value.1 }),
    {
        CellCoord { row_uid: value.0, col_uid: value.1 }
    }
}

impl vstd::std_specs::convert::FromSpecImpl<(RowUid, ColumnUid)> for CellCoord {
    open spec fn obeys_from_spec() -> bool {
        true
    }

    open spec fn from_spec(value: (RowUid, ColumnUid)) -> CellCoord {
        CellCoord { row_uid: value.0, col_uid: value.1 }
    }
}

/// The integer key under which a cell is stored.
pub open spec fn coord_key(c: CellCoord) -> u64 {
    (c.row_uid.0 as int * 0x1_0000_0000 + c.col_uid.0 as int) as u64
}

impl CellCoord {
    /// The integer key under which this cell is stored.
    pub fn key(&self) -> (r: u64)
        ensures
            r == coord_key(*self),
    {
        let r = self.row_uid.0 as u64;
        let c = self.col_uid.0 as u64;
        assert(r * 0x1_0000_0000 + c <= u64::MAX) by (nonlinear_arith)
            requires r <= u32::MAX, c <= u32::MAX;
        r * 0x1_0000_0000 + c
    }
}

/// Distinct cells have distinct storage keys.
pub proof fn lemma_coord_key_injective(a: CellCoord, b: CellCoord)
    ensures
        coord_key(a) == coord_key(b) ==> a == b,
{
    let ar = a.row_uid.0 as int;
    let ac = a.col_uid.0 as int;
    let br = b.row_uid.0 as int;
    let bc = b.col_uid.0 as int;
    assert(ar * 0x1_0000_0000 + ac <= u64::MAX) by (nonlinear_arith)
        requires 0 <= ar <= u32::MAX, 0 <= ac <= u32::MAX;
    assert(br * 0x1_0000_0000 + bc <= u64::MAX) by (nonlinear_arith)
        requires 0 <= br <= u32::MAX, 0 <= bc <= u32::MAX;
    if ar * 0x1_0000_0000 + ac == br * 0x1_0000_0000 + bc {
        assert(ar == br && ac == bc) by (nonlinear_arith)
            requires
                ar * 0x1_0000_0000 + ac == br * 0x1_0000_0000 + bc,
                0 <= ac < 0x1_0000_0000,
                0 <= bc < 0x1_0000_0000,
        ;
    }
}

/// Distinct cells have distinct storage keys, for all cells at once.
pub proof fn lemma_coord_key_injective_all()
    ensures
        forall|a: CellCoord, b: CellCoord| #[trigger] coord_key(a) == #[trigger] coord_key(b) ==> a == b,
{
    assert forall|a: CellCoord, b: CellCoord| #[trigger] coord_key(a) == #[trigger] coord_key(b) implies a == b by {
        lemma_coord_key_injective(a, b);
    }
}

} // verus!
