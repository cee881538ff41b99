//! A spreadsheet-style data grid core: selection and editing state, clipboard
//! paste reconciliation, an in-memory typed cell store, column matching and
//! CSV import.

pub mod backend;
pub mod clipboard;
pub mod csv_import;
pub mod flags;
pub mod ids;
pub mod options;
pub mod paste;
pub mod required_column;
pub mod selection;
pub mod table_backend;
pub mod table_view;
pub mod text;
pub mod value;

pub use backend::{BackendColumn, VariantBackend, VariantColumn};
pub use clipboard::parse_block;
pub use csv_import::{determine_separator, export_records, CsvImporter, CsvImporterConfig, IoStatus, Separator};
pub use flags::{OneShotFlags, PersistentFlags};
pub use ids::{CellCoord, ColumnUid, RowUid, VisualRowIdx};
pub use options::{CsvBackendUi, FilterOperation, SortBy};
pub use required_column::{ColumnAssignment, RequiredColumn, RequiredColumns};
pub use selection::{RangeModel, SelectedRange};
pub use table_view::{CustomUiResponse, Lint, PasteStatus, Settings, TableView};
pub use text::base_26;
pub use table_backend::TableBackend;
