//! Small settings types of the grid and of its CSV source panel.
use vstd::prelude::*;
use crate::csv_import::Separator;

verus! {

/// Sort order of one column.
#[derive(Copy, Clone, Debug, PartialEq, Eq, Structural)]
pub struct SortBy {
    pub col_uid: u32,
    pub ascending: bool,
}

/// How a filter compares cell values.
#[derive(Copy, Clone, Debug, PartialEq, Eq, Structural)]
pub enum FilterOperation {
    Contains,
    Equals,
}

/// The options panel of a CSV source: how to read it, and which file.
pub struct CsvBackendUi {
    pub separator: Separator,
    pub has_headers: bool,
    pub skip_first_rows: usize,
    pub picked_file: Option<String>,
}

impl CsvBackendUi {
    /// Auto-detected separator, a header row, no rows skipped, no file.
    pub fn new() -> (r: Self)
        ensures
            r.separator == Separator::Auto,
            r.has_headers,
            r.skip_first_rows == 0,
            r.picked_file is None,
    {
        CsvBackendUi { separator: Separator::Auto, has_headers: true, skip_first_rows: 0, picked_file: None }
    }

    /// The panel raises no warnings of its own.
    pub fn has_warnings(&self) -> (r: bool)
        ensures
            !r,
    {
        false
    }

    /// Remembers the file to load.
    pub fn set_picked_file(&mut self, path: String)
        ensures
            final(self).picked_file == Some(path),
            final(self).separator == old(self).separator,
            final(self).has_headers == old(self).has_headers,
            final(self).skip_first_rows == old(self).skip_first_rows,
    {
        self.picked_file = Some(path);
    }

    /// The file to load, if one was picked.
    pub fn picked_file(&self) -> (r: Option<&String>)
        ensures
            match r {
                Some(p) => self.picked_file == Some(*p),
                None => self.picked_file is None,
            },
    {
        self.picked_file.as_ref()
    }
}

} // verus!
