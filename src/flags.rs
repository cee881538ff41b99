use vstd::prelude::*;
use crate::ids::ColumnUid;

verus! {

/// Flags whose value is kept across polls.
#[derive(Copy, Clone, Debug, PartialEq, Eq, Structural)]
pub struct PersistentFlags {
    /// Set while e.g. the file changed on disk and until it is reloaded.
    pub is_reload_recommended: bool,
    /// Set until reload if data was heavily modified on the backend.
    pub is_reload_required: bool,
    /// Set when data must not be modified.
    pub is_read_only: bool,
    /// Set when column information is available.
    pub column_info_present: bool,
    /// Set when the full row uid set is available.
    pub row_set_present: bool,
    /// Set while awaiting cells' data.
    pub cells_loading: bool,
    /// Set while all remote data is cached locally.
    pub have_all_cells: bool,
    /// Set while locally made changes are not saved.
    pub have_uncommitted_data: bool,
    /// Set when a locally modified cell was also updated remotely.
    pub have_collisions: bool,
}

impl Default for PersistentFlags {
    fn default() -> (r: Self)
        ensures
            r == PersistentFlags::none(),
    {
        PersistentFlags {
            is_reload_recommended: false,
            is_reload_required: false,
            is_read_only: false,
            column_info_present: false,
            row_set_present: false,
            cells_loading: false,
            have_all_cells: false,
            have_uncommitted_data: false,
            have_collisions: false,
        }
    }
}

impl PersistentFlags {
    pub open spec fn none() -> PersistentFlags {
        PersistentFlags {
            is_reload_recommended: false,
            is_reload_required: false,
            is_read_only: false,
            column_info_present: false,
            row_set_present: false,
            cells_loading: false,
            have_all_cells: false,
            have_uncommitted_data: false,
            have_collisions: false,
        }
    }
}

/// Events of one frame, each readable once.
#[derive(Copy, Clone, Debug, PartialEq, Eq, Structural)]
pub struct OneShotFlags {
    /// Set once the backend is created.
    pub first_pass: bool,
    /// Set once a full load or reload starts.
    pub reloaded: bool,
    /// Set once column names, types and defaults are (re)loaded.
    pub columns_reset: bool,
    /// Set when one or more columns change name or type.
    pub columns_changed: bool,
    /// Set once the row uid set is loaded or changed.
    pub row_set_updated: bool,
    /// Set once the visible row order changes (filtering or sorting).
    pub visible_row_vec_updated: bool,
    /// Set once all rows are cleared.
    pub cleared: bool,
    /// Set when another mapping is chosen for a column.
    pub column_mapping_changed: Option<ColumnUid>,
}

impl Default for OneShotFlags {
    fn default() -> (r: Self)
        ensures
            r == OneShotFlags::none(),
    {
        OneShotFlags {
            first_pass: false,
            reloaded: false,
            columns_reset: false,
            columns_changed: false,
            row_set_updated: false,
            visible_row_vec_updated: false,
            cleared: false,
            column_mapping_changed: None,
        }
    }
}

impl OneShotFlags {
    pub open spec fn none() -> OneShotFlags {
        OneShotFlags {
            first_pass: false,
            reloaded: false,
            columns_reset: false,
            columns_changed: false,
            row_set_updated: false,
            visible_row_vec_updated: false,
            cleared: false,
            column_mapping_changed: None,
        }
    }
}

} // verus!
