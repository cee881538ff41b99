//! The interface a grid reads and writes a table through: rows in display
//! order, cells by identity, the columns in use and the per-frame flags.
use vstd::prelude::*;
use rvariant::Variant;
use crate::backend::{uids_of, VariantBackend};
use crate::flags::{OneShotFlags, PersistentFlags};
use crate::ids::{CellCoord, ColumnUid, RowUid, VisualRowIdx};

verus! {

/// A table the grid can show and edit.
pub trait TableBackend {
    /// What the table requires of itself between calls.
    spec fn inv(&self) -> bool;

    /// The rows, in display order.
    spec fn visible_rows(&self) -> Seq<RowUid>;

    /// The value stored for a cell, if any.
    spec fn stored(&self, c: CellCoord) -> Option<Variant>;

    /// The columns in use, in order.
    spec fn column_order(&self) -> Seq<ColumnUid>;

    /// The flags of the current frame.
    spec fn current_flags(&self) -> OneShotFlags;

    /// The flags of the previous frame.
    spec fn previous_flags(&self) -> OneShotFlags;

    fn row_count(&self) -> (r: usize)
        ensures
            r == self.visible_rows().len(),
    ;

    fn row_uid(&self, row_idx: VisualRowIdx) -> (r: Option<RowUid>)
        ensures
            r == (if row_idx.0 < self.visible_rows().len() {
                Some(self.visible_rows()[row_idx.0 as int])
            } else {
                None
            }),
    ;

    fn get(&self, coord: CellCoord) -> (r: Option<&Variant>)
        ensures
            match r {
                Some(v) => self.stored(coord) == Some(*v),
                None => self.stored(coord) is None,
            },
    ;

    fn set(&mut self, coord: CellCoord, value: Variant)
        requires
            old(self).inv(),
        ensures
            final(self).inv(),
            forall|c: CellCoord| #[trigger] final(self).stored(c) == if c == coord {
                Some(value)
            } else {
                old(self).stored(c)
            },
            final(self).visible_rows() == old(self).visible_rows(),
            final(self).column_order() == old(self).column_order(),
    ;

    fn used_columns(&self) -> (r: Vec<ColumnUid>)
        requires
            self.inv(),
        ensures
            r@ == self.column_order(),
    ;

    fn persistent_flags(&self) -> &PersistentFlags;

    /// The flags of the previous frame.
    fn one_shot_flags(&self) -> (r: &OneShotFlags)
        ensures
            *r == self.previous_flags(),
    ;

    /// The flags of the current frame.
    fn one_shot_flags_internal(&self) -> (r: &OneShotFlags)
        ensures
            *r == self.current_flags(),
    ;

    /// Hands the current frame's flags on as the previous frame's.
    fn one_shot_flags_archive(&mut self)
        requires
            old(self).inv(),
        ensures
            final(self).inv(),
            final(self).previous_flags() == old(self).current_flags(),
            final(self).current_flags() == old(self).current_flags(),
            final(self).visible_rows() == old(self).visible_rows(),
            forall|c: CellCoord| #[trigger] final(self).stored(c) == old(self).stored(c),
    ;
}

impl TableBackend for VariantBackend {
    open spec fn inv(&self) -> bool {
        self.wf()
    }

    open spec fn visible_rows(&self) -> Seq<RowUid> {
        self.rows()
    }

    open spec fn stored(&self, c: CellCoord) -> Option<Variant> {
        self.cell(c)
    }

    open spec fn column_order(&self) -> Seq<ColumnUid> {
        uids_of(self.columns())
    }

    open spec fn current_flags(&self) -> OneShotFlags {
        self.pending_flags()
    }

    open spec fn previous_flags(&self) -> OneShotFlags {
        self.delivered_flags()
    }

    fn row_count(&self) -> (r: usize) {
        VariantBackend::row_count(self)
    }

    fn row_uid(&self, row_idx: VisualRowIdx) -> (r: Option<RowUid>) {
        VariantBackend::row_uid(self, row_idx)
    }

    fn get(&self, coord: CellCoord) -> (r: Option<&Variant>) {
        VariantBackend::get(self, coord)
    }

    fn set(&mut self, coord: CellCoord, value: Variant) {
        VariantBackend::set(self, coord, value);
        proof {
            crate::ids::lemma_coord_key_injective_all();
        }
    }

    fn used_columns(&self) -> (r: Vec<ColumnUid>) {
        VariantBackend::used_columns(self)
    }

    fn persistent_flags(&self) -> &PersistentFlags {
        VariantBackend::persistent_flags(self)
    }

    fn one_shot_flags(&self) -> (r: &OneShotFlags) {
        VariantBackend::one_shot_flags(self)
    }

    fn one_shot_flags_internal(&self) -> (r: &OneShotFlags) {
        VariantBackend::one_shot_flags_internal(self)
    }

    fn one_shot_flags_archive(&mut self) {
        VariantBackend::one_shot_flags_archive(self);
    }
}

} // verus!
