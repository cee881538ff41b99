//! Importing delimited text: the import settings, separator detection, and
//! loading records that a CSV reader produced into an in-memory table.
use vstd::prelude::*;
use rvariant::Variant;
use crate::backend::{
    column_of, has_column, lemma_column_of_uid, new_row_cells, uids_of, VariantBackend, VariantColumn,
};
use crate::ids::{CellCoord, ColumnUid, RowUid, VisualRowIdx};
use crate::required_column::{
    header_uid, lemma_adhoc_after_required, lemma_owner_bound, lemma_rank_bound, owner_of, texts, RequiredColumns,
};
use crate::text::{base_26, base_26_of};
use crate::value::{
    display_is_safe, display_of, displays_safely, from_text, is_str_type, parse_value, parses_safely, str_type,
    str_value, str_variant, text_parses_safely, type_kind, value_text, DISPLAY_DEPTH,
};

verus! {

/// The field separator of a CSV source; `Auto` detects it from the data.
#[derive(Copy, Clone, Debug, PartialEq, Eq, Structural)]
pub enum Separator {
    Auto,
    Comma,
    Tab,
    Semicolon,
}

impl Default for Separator {
    fn default() -> (r: Self)
        ensures
            r == Separator::Auto,
    {
        Separator::Auto
    }
}

/// How a CSV source is read.
#[derive(Copy, Clone, Debug, PartialEq, Eq, Structural)]
pub struct CsvImporterConfig {
    pub separator: Separator,
    /// The separator byte in use (the detected one with `Auto`).
    pub separator_u8: u8,
    pub skip_first_rows: usize,
    pub has_headers: bool,
}

impl Default for CsvImporterConfig {
    fn default() -> (r: Self)
        ensures
            r == (CsvImporterConfig {
                separator: Separator::Auto,
                separator_u8: 44,
                skip_first_rows: 0,
                has_headers: true,
            }),
    {
        CsvImporterConfig { separator: Separator::Auto, separator_u8: 44, skip_first_rows: 0, has_headers: true }
    }
}

impl CsvImporterConfig {
    pub fn separator(&self) -> (r: u8)
        ensures
            r == self.separator_u8,
    {
        self.separator_u8
    }

    pub fn skip_first_rows(&self) -> (r: usize)
        ensures
            r == self.skip_first_rows,
    {
        self.skip_first_rows
    }

    pub fn has_headers(&self) -> (r: bool)
        ensures
            r == self.has_headers,
    {
        self.has_headers
    }
}

/// The outcome of the last load.
#[derive(Clone, Debug, PartialEq, Eq)]
pub enum IoStatus {
    Empty,
    IoError(String),
    ReaderError(String),
    ReaderErrorAtLine(usize, String),
    Loaded,
    Edited,
    UnknownSeparator,
}

impl Default for IoStatus {
    fn default() -> (r: Self)
        ensures
            r == IoStatus::Empty,
    {
        IoStatus::Empty
    }
}

impl IoStatus {
    pub open spec fn spec_is_error(&self) -> bool {
        match self {
            IoStatus::IoError(_) | IoStatus::ReaderError(_) | IoStatus::ReaderErrorAtLine(_, _)
            | IoStatus::UnknownSeparator => true,
            _ => false,
        }
    }

    /// Whether the status reports a failure.
    pub fn is_error(&self) -> (r: bool)
        ensures
            r == self.spec_is_error(),
    {
        match self {
            IoStatus::Empty => false,
            IoStatus::IoError(_) | IoStatus::ReaderError(_) | IoStatus::ReaderErrorAtLine(_, _) => true,
            IoStatus::Loaded => false,
            IoStatus::Edited => false,
            IoStatus::UnknownSeparator => true,
        }
    }
}

/// How many bytes detection looks at.
pub const DETECT_WINDOW: usize = 1048576;

/// How often `x` occurs in `b`.
pub open spec fn count_of(b: Seq<u8>, x: u8) -> int
    decreases b.len(),
{
    if b.len() == 0 {
        0
    } else {
        count_of(b.drop_last(), x) + if b.last() == x { 1int } else { 0int }
    }
}

/// The most frequent of comma, tab and semicolon; on a tie the later of them
/// in that order.
pub open spec fn most_frequent_separator(b: Seq<u8>) -> u8 {
    let c = count_of(b, 44);
    let t = count_of(b, 9);
    let s = count_of(b, 59);
    if s >= c && s >= t {
        59
    } else if t >= c {
        9
    } else {
        44
    }
}

/// The bytes detection looks at: the first `DETECT_WINDOW` of them.
pub open spec fn detect_window(b: Seq<u8>) -> Seq<u8> {
    if b.len() > DETECT_WINDOW {
        b.take(DETECT_WINDOW as int)
    } else {
        b
    }
}

/// The separator byte to read with: the configured one, or with `Auto` the most
/// frequent of comma, tab and semicolon within the first MiB of `sample`.
pub fn determine_separator(config: &CsvImporterConfig, sample: &[u8]) -> (r: u8)
    ensures
        r == match config.separator {
            Separator::Auto => most_frequent_separator(detect_window(sample@)),
            Separator::Comma => 44u8,
            Separator::Tab => 9u8,
            Separator::Semicolon => 59u8,
        },
{
    match config.separator {
        Separator::Auto => {
            let n = if sample.len() > DETECT_WINDOW { DETECT_WINDOW } else { sample.len() };
            let ghost w = detect_window(sample@);
            let mut c: usize = 0;
            let mut t: usize = 0;
            let mut s: usize = 0;
            let mut i: usize = 0;
            while i < n
                invariant
                    n == w.len(),
                    n <= sample@.len(),
                    w == sample@.take(n as int),
                    i <= n,
                    c == count_of(w.take(i as int), 44),
                    t == count_of(w.take(i as int), 9),
                    s == count_of(w.take(i as int), 59),
                    c + t + s <= i,
                decreases n - i,
            {
                proof {
                    assert(w.take(i + 1).drop_last() =~= w.take(i as int));
                }
                let b = sample[i];
                if b == 44 {
                    c = c + 1;
                } else if b == 9 {
                    t = t + 1;
                } else if b == 59 {
                    s = s + 1;
                }
                i = i + 1;
            }
            proof {
                assert(w.take(n as int) =~= w);
            }
            if s >= c && s >= t {
                59
            } else if t >= c {
                9
            } else {
                44
            }
        },
        Separator::Comma => 44,
        Separator::Tab => 9,
        Separator::Semicolon => 59,
    }
}


impl CsvImporterConfig {
    /// Records the separator byte to read with (see `determine_separator`).
    pub fn detect_separator(&mut self, sample: &[u8])
        ensures
            final(self).separator_u8 == determine_separator_spec(old(self).separator, sample@),
            final(self).separator == old(self).separator,
            final(self).skip_first_rows == old(self).skip_first_rows,
            final(self).has_headers == old(self).has_headers,
    {
        self.separator_u8 = determine_separator(self, sample);
    }
}

pub open spec fn determine_separator_spec(sep: Separator, sample: Seq<u8>) -> u8 {
    match sep {
        Separator::Auto => most_frequent_separator(detect_window(sample)),
        Separator::Comma => 44u8,
        Separator::Tab => 9u8,
        Separator::Semicolon => 59u8,
    }
}

/// The value a field becomes in column `u`: parsed as the required column's
/// type, or a string value in any other column.
pub open spec fn cell_value(req: RequiredColumns, u: ColumnUid, text: Seq<char>) -> Variant {
    if u.0 < req.columns().len() {
        let ty = req.column(u.0 as int).ty;
        if text_parses_safely(text, ty) {
            from_text(text, ty)
        } else {
            str_variant(text)
        }
    } else {
        str_variant(text)
    }
}

/// The column of field `i`: the one its header was assigned, else the `i`-th.
pub open spec fn field_column(uids: Seq<ColumnUid>, i: int) -> ColumnUid {
    if i < uids.len() {
        uids[i]
    } else {
        ColumnUid(i as u32)
    }
}

/// The values of a record, field by field.
pub open spec fn record_values(req: RequiredColumns, uids: Seq<ColumnUid>, rec: Seq<Seq<char>>) -> Seq<(ColumnUid, Variant)> {
    Seq::new(rec.len(), |i: int| (field_column(uids, i), cell_value(req, field_column(uids, i), rec[i])))
}

/// How many records lead the sequence before the first failed one.
pub open spec fn ok_prefix(data: Seq<Result<Vec<String>, String>>) -> int
    decreases data.len(),
{
    if data.len() == 0 {
        0
    } else if data[0] is Ok {
        1 + ok_prefix(data.drop_first())
    } else {
        0
    }
}

proof fn lemma_ok_prefix(data: Seq<Result<Vec<String>, String>>, t: int)
    requires
        0 <= t <= data.len(),
        forall|q: int| 0 <= q < t ==> (#[trigger] data[q]) is Ok,
    ensures
        ok_prefix(data) >= t,
        t == data.len() || data[t] is Err ==> ok_prefix(data) == t,
        ok_prefix(data) <= data.len(),
    decreases t,
{
    if t > 0 {
        let d = data.drop_first();
        assert forall|q: int| 0 <= q < t - 1 implies (#[trigger] d[q]) is Ok by {
            assert(d[q] == data[q + 1]);
        }
        lemma_ok_prefix(d, t - 1);
        if t < data.len() {
            assert(d[t - 1] == data[t]);
        }
    } else {
        lemma_ok_prefix_bound(data);
    }
}

proof fn lemma_ok_prefix_bound(data: Seq<Result<Vec<String>, String>>)
    ensures
        0 <= ok_prefix(data) <= data.len(),
    decreases data.len(),
{
    if data.len() > 0 {
        lemma_ok_prefix_bound(data.drop_first());
    }
}

/// How many records are loaded: those before the first failure, at most `max`.
pub open spec fn rows_taken(data: Seq<Result<Vec<String>, String>>, max: Option<usize>) -> int {
    match max {
        Some(m) => if ok_prefix(data) < m { ok_prefix(data) } else { m as int },
        None => ok_prefix(data),
    }
}

/// The failed record loading stops at, if it stops at one.
pub open spec fn failure_at(data: Seq<Result<Vec<String>, String>>, max: Option<usize>) -> Option<int> {
    if ok_prefix(data) < data.len() && match max {
        Some(m) => ok_prefix(data) < m,
        None => true,
    } {
        Some(ok_prefix(data))
    } else {
        None
    }
}

/// The records left after skipping the first ones.
pub open spec fn after_skip(records: Seq<Result<Vec<String>, String>>, skip: int) -> Seq<Result<Vec<String>, String>> {
    if skip < records.len() {
        records.skip(skip)
    } else {
        Seq::empty()
    }
}

/// The data records: those after the skipped ones and the header row.
pub open spec fn data_records(records: Seq<Result<Vec<String>, String>>, config: CsvImporterConfig) -> Seq<Result<Vec<String>, String>> {
    let recs = after_skip(records, config.skip_first_rows as int);
    if config.has_headers && recs.len() > 0 {
        recs.skip(1)
    } else {
        recs
    }
}

/// The status a load ends with.
pub open spec fn load_status(records: Seq<Result<Vec<String>, String>>, config: CsvImporterConfig, max: Option<usize>) -> IoStatus {
    let recs = after_skip(records, config.skip_first_rows as int);
    let data = data_records(records, config);
    if config.has_headers && recs.len() == 0 {
        IoStatus::Empty
    } else if config.has_headers && recs[0] is Err {
        IoStatus::ReaderError(recs[0]->Err_0)
    } else {
        match failure_at(data, max) {
            Some(i) => {
                let skipped = if config.skip_first_rows < records.len() { config.skip_first_rows as int } else { records.len() as int };
                IoStatus::ReaderErrorAtLine((skipped + i + 1) as usize, data[i]->Err_0)
            },
            None => IoStatus::Loaded,
        }
    }
}

/// The cells after loading the first `k` data records as new rows, identities
/// from `start` on.
pub open spec fn loaded_cells(
    cells: Map<u64, Variant>,
    start: int,
    data: Seq<Result<Vec<String>, String>>,
    req: RequiredColumns,
    uids: Seq<ColumnUid>,
    cols: Seq<VariantColumn>,
    k: int,
) -> Map<u64, Variant>
    decreases k,
{
    if k <= 0 {
        cells
    } else {
        new_row_cells(
            loaded_cells(cells, start, data, req, uids, cols, k - 1),
            RowUid((start + k - 1) as u32),
            record_values(req, uids, texts(data[k - 1]->Ok_0@)),
            cols,
        )
    }
}

/// The column of each header field, when the records have a header row.
pub open spec fn header_uids_of(req: RequiredColumns, records: Seq<Result<Vec<String>, String>>, config: CsvImporterConfig) -> Seq<ColumnUid> {
    let recs = after_skip(records, config.skip_first_rows as int);
    if config.has_headers && recs.len() > 0 && recs[0] is Ok {
        let hdr = texts(recs[0]->Ok_0@);
        Seq::new(hdr.len(), |j: int| ColumnUid(header_uid(req.matches(hdr), req.columns().len() as int, j) as u32))
    } else {
        Seq::empty()
    }
}

/// Each required column is stored under its identity with its declared name,
/// type and default, required and used.
pub open spec fn required_columns_made(cols: Seq<VariantColumn>, req: RequiredColumns) -> bool {
    forall|k: int|
        0 <= k < req.columns().len() ==> {
            let c = #[trigger] column_of(cols, ColumnUid(k as u32));
            &&& c is Some
            &&& c->0.info.name == req.column(k).name
            &&& c->0.ty == req.column(k).ty
            &&& c->0.default == req.column(k).default
            &&& c->0.info.is_required
            &&& c->0.info.is_used
        }
}

/// Each header field no required column took is stored as a string column
/// named by the field, with no default, neither required nor used.
pub open spec fn header_columns_made(cols: Seq<VariantColumn>, req: RequiredColumns, headers: Seq<String>) -> bool {
    let ms = req.matches(texts(headers));
    forall|j: int|
        0 <= j < headers.len() && owner_of(ms, j) is None ==> {
            let c = #[trigger] column_of(cols, ColumnUid(header_uid(ms, req.columns().len() as int, j) as u32));
            &&& c is Some
            &&& c->0.info.name == headers[j]
            &&& is_str_type(c->0.ty)
            &&& c->0.default is None
            &&& !c->0.info.is_required
            &&& !c->0.info.is_used
        }
}

/// Columns `0..count` are string columns named "A", "B", ... by position, with
/// no default, used and not required.
pub open spec fn positional_columns_made(cols: Seq<VariantColumn>, count: int) -> bool {
    forall|i: int|
        0 <= i < count ==> {
            let c = #[trigger] column_of(cols, ColumnUid(i as u32));
            &&& c is Some
            &&& c->0.info.name@ == base_26_of((i + 1) as nat)
            &&& is_str_type(c->0.ty)
            &&& c->0.default is None
            &&& !c->0.info.is_required
            &&& c->0.info.is_used
        }
}

/// The most fields any of the first `k` records has.
pub open spec fn max_fields(data: Seq<Result<Vec<String>, String>>, k: int) -> int
    decreases k,
{
    if k <= 0 {
        0
    } else {
        let m = max_fields(data, k - 1);
        let l = data[k - 1]->Ok_0@.len() as int;
        if l > m {
            l
        } else {
            m
        }
    }
}

/// The header record, when the records have one.
pub open spec fn header_record(records: Seq<Result<Vec<String>, String>>, config: CsvImporterConfig) -> Vec<String> {
    after_skip(records, config.skip_first_rows as int)[0]->Ok_0
}

/// Loads records that a CSV reader produced into a table.
pub struct CsvImporter {
    required_columns: RequiredColumns,
    status: IoStatus,
}

impl CsvImporter {
    pub closed spec fn required(&self) -> RequiredColumns {
        self.required_columns
    }

    pub closed spec fn current_status(&self) -> IoStatus {
        self.status
    }

    pub fn new(required_columns: RequiredColumns) -> (r: Self)
        ensures
            r.required() == required_columns,
            r.current_status() == IoStatus::Empty,
    {
        CsvImporter { required_columns, status: IoStatus::Empty }
    }

    /// The outcome of the last load.
    pub fn status(&self) -> (r: &IoStatus)
        ensures
            *r == self.current_status(),
    {
        &self.status
    }

    fn convert_cell_value(&self, col_uid: ColumnUid, value: &str) -> (r: Variant)
        requires
            self.required().wf(),
        ensures
            r == cell_value(self.required(), col_uid, value@),
    {
        match self.required_columns.get(col_uid) {
            Some(c) => if parses_safely(value, type_kind(&c.ty)) {
                parse_value(value, &c.ty)
            } else {
                str_value(value)
            },
            None => str_value(value),
        }
    }

    fn record_values(&self, rec: &Vec<String>, uids: &Vec<ColumnUid>) -> (r: Vec<(ColumnUid, Variant)>)
        requires
            self.required().wf(),
        ensures
            r@ == record_values(self.required(), uids@, texts(rec@)),
    {
        let mut out: Vec<(ColumnUid, Variant)> = Vec::new();
        let mut i: usize = 0;
        while i < rec.len()
            invariant
                self.required().wf(),
                i <= rec@.len(),
                out@.len() == i,
                forall|k: int| 0 <= k < i ==> #[trigger] out@[k] == record_values(self.required(), uids@, texts(rec@))[k],
            decreases rec@.len() - i,
        {
            let u = if i < uids.len() { uids[i] } else { ColumnUid(i as u32) };
            let v = self.convert_cell_value(u, rec[i].as_str());
            out.push((u, v));
            i = i + 1;
        }
        proof {
            assert(out@ =~= record_values(self.required(), uids@, texts(rec@)));
        }
        out
    }

    /// Puts the required columns and the header's other columns into the table,
    /// and returns each header field's column.
    fn map_columns(&self, headers: &Vec<String>, backend: &mut VariantBackend) -> (r: Vec<ColumnUid>)
        requires
            self.required().wf(),
            old(backend).wf(),
            self.required().columns().len() + headers@.len() <= u32::MAX + 1,
        ensures
            r@.len() == headers@.len(),
            forall|j: int| 0 <= j < headers@.len() ==> #[trigger] r@[j] == ColumnUid(
                header_uid(self.required().matches(texts(headers@)), self.required().columns().len() as int, j) as u32,
            ),
            forall|k: int| 0 <= k < self.required().columns().len() ==> #[trigger] has_column(final(backend).columns(), ColumnUid(k as u32)),
            forall|j: int| 0 <= j < r@.len() ==> has_column(final(backend).columns(), #[trigger] r@[j]),
            required_columns_made(final(backend).columns(), self.required()),
            header_columns_made(final(backend).columns(), self.required(), headers@),
            final(backend).wf(),
            final(backend).cells() == old(backend).cells(),
            final(backend).rows() == old(backend).rows(),
            final(backend).next_row() == old(backend).next_row(),
    {
        let assignment = self.required_columns.assign_columns(headers);
        let ghost ms = self.required().matches(texts(headers@));
        let nq = self.required_columns.columns_len();
        let mut k: usize = 0;
        while k < nq
            invariant
                self.required().wf(),
                nq == self.required().columns().len(),
                nq <= u32::MAX + 1,
                k <= nq,
                backend.wf(),
                backend.cells() == old(backend).cells(),
                backend.rows() == old(backend).rows(),
                backend.next_row() == old(backend).next_row(),
                forall|q: int| 0 <= q < k ==> #[trigger] has_column(backend.columns(), ColumnUid(q as u32)),
                forall|q: int|
                    0 <= q < k ==> {
                        let c = #[trigger] column_of(backend.columns(), ColumnUid(q as u32));
                        &&& c is Some
                        &&& c->0.info.name == self.required().column(q).name
                        &&& c->0.ty == self.required().column(q).ty
                        &&& c->0.default == self.required().column(q).default
                        &&& c->0.info.is_required
                        &&& c->0.info.is_used
                    },
            decreases nq - k,
        {
            let col = self.required_columns.get(ColumnUid(k as u32)).unwrap();
            let default = match &col.default {
                Some(v) => Some(v.clone()),
                None => None,
            };
            backend.insert_column(
                Some(ColumnUid(k as u32)),
                col.name.clone(),
                col.synonyms.clone(),
                col.ty.clone(),
                default,
                true,
                true,
            );
            proof {
                assert forall|q: int| 0 <= q < k + 1 implies {
                    let c = #[trigger] column_of(backend.columns(), ColumnUid(q as u32));
                    &&& c is Some
                    &&& c->0.info.name == self.required().column(q).name
                    &&& c->0.ty == self.required().column(q).ty
                    &&& c->0.default == self.required().column(q).default
                    &&& c->0.info.is_required
                    &&& c->0.info.is_used
                } by {
                    if q < k {
                        assert(ColumnUid(q as u32) != ColumnUid(k as u32));
                    }
                }
            }
            k = k + 1;
        }
        let uids = assignment.header_uids;
        let ghost ms2 = ms;
        let mut j: usize = 0;
        while j < headers.len()
            invariant
                self.required().wf(),
                nq == self.required().columns().len(),
                uids@.len() == headers@.len(),
                j <= headers@.len(),
                backend.wf(),
                backend.cells() == old(backend).cells(),
                backend.rows() == old(backend).rows(),
                backend.next_row() == old(backend).next_row(),
                forall|q: int| 0 <= q < nq ==> #[trigger] has_column(backend.columns(), ColumnUid(q as u32)),
                forall|q: int| 0 <= q < j ==> has_column(backend.columns(), #[trigger] uids@[q]),
                forall|q: int| 0 <= q < headers@.len() ==> #[trigger] uids@[q] == ColumnUid(header_uid(ms, nq as int, q) as u32),
                ms == self.required().matches(texts(headers@)),
                ms.len() == nq,
                nq + headers@.len() <= u32::MAX + 1,
                required_columns_made(backend.columns(), self.required()),
                forall|q: int|
                    0 <= q < j && owner_of(ms, q) is None ==> {
                        let c = #[trigger] column_of(backend.columns(), ColumnUid(header_uid(ms, nq as int, q) as u32));
                        &&& c is Some
                        &&& c->0.info.name == headers@[q]
                        &&& is_str_type(c->0.ty)
                        &&& c->0.default is None
                        &&& !c->0.info.is_required
                        &&& !c->0.info.is_used
                    },
            decreases headers@.len() - j,
        {
            proof {
                lemma_owner_bound(ms, j as int);
                lemma_rank_bound(ms, j as int);
            }
            if uids[j].0 as usize >= nq {
                let ghost cols0 = backend.columns();
                let ghost u = uids@[j as int];
                backend.insert_column(Some(uids[j]), headers[j].clone(), Vec::new(), str_type(), None, false, false);
                proof {
                    assert(owner_of(ms, j as int) is None);
                    assert forall|k: int| 0 <= k < nq implies #[trigger] column_of(backend.columns(), ColumnUid(k as u32))
                        == column_of(cols0, ColumnUid(k as u32)) by {
                        assert(ColumnUid(k as u32) != u);
                    }
                    assert forall|q: int| 0 <= q < j && owner_of(ms, q) is None implies #[trigger] column_of(
                        backend.columns(),
                        ColumnUid(header_uid(ms, nq as int, q) as u32),
                    ) == column_of(cols0, ColumnUid(header_uid(ms, nq as int, q) as u32)) by {
                        lemma_adhoc_after_required(ms, nq as int, q, j as int);
                        lemma_rank_bound(ms, q);
                    }
                }
            } else {
                proof {
                    assert(has_column(backend.columns(), ColumnUid(uids@[j as int].0 as u32)));
                    if owner_of(ms, j as int) is None {
                        lemma_rank_bound(ms, j as int);
                    }
                }
            }
            j = j + 1;
        }
        uids
    }

    /// Loads records that a CSV reader produced (each a row of fields, or the
    /// reader's error message) into `backend`, which first loses all its columns
    /// and data. The first `skip_first_rows` records are skipped; with headers the
    /// next one names the columns, matched against the required columns, and
    /// without headers every field position gets a column named "A", "B", ...
    /// Data records become rows, at most `max_lines` of them, up to the first
    /// failed record, whose line the status gives.
    pub fn load_records(
        &mut self,
        config: &CsvImporterConfig,
        records: &Vec<Result<Vec<String>, String>>,
        backend: &mut VariantBackend,
        max_lines: Option<usize>,
    )
        requires
            old(self).required().wf(),
            old(backend).wf(),
            old(backend).next_row() + records@.len() <= u32::MAX,
            config.skip_first_rows + records@.len() + 1 <= usize::MAX,
            forall|i: int| 0 <= i < records@.len() && (#[trigger] records@[i]) is Ok ==> old(self).required().columns().len()
                + records@[i]->Ok_0@.len() <= u32::MAX,
        ensures
            final(self).required() == old(self).required(),
            final(self).current_status() == load_status(records@, *config, max_lines),
            final(backend).wf(),
            !(final(self).current_status() is Empty) && !(final(self).current_status() is ReaderError) ==> {
                let data = data_records(records@, *config);
                let n = rows_taken(data, max_lines);
                &&& final(backend).rows() == Seq::new(n as nat, |k: int| RowUid((old(backend).next_row() + k) as u32))
                &&& final(backend).next_row() == old(backend).next_row() + n
                &&& final(backend).pending_flags().columns_reset
                &&& final(backend).pending_flags().reloaded
                &&& final(backend).cells() == loaded_cells(
                    Map::empty(),
                    old(backend).next_row() as int,
                    data,
                    old(self).required(),
                    header_uids_of(old(self).required(), records@, *config),
                    if config.has_headers { final(backend).columns() } else { Seq::empty() },
                    n,
                )
                &&& config.has_headers ==> required_columns_made(final(backend).columns(), old(self).required())
                    && header_columns_made(final(backend).columns(), old(self).required(), header_record(records@, *config)@)
                &&& !config.has_headers ==> positional_columns_made(final(backend).columns(), max_fields(data, n))
            },
            final(self).current_status() is Empty || final(self).current_status() is ReaderError ==> {
                &&& final(backend).rows().len() == 0
                &&& final(backend).cells() == Map::<u64, Variant>::empty()
                &&& final(backend).columns().len() == 0
            },
    {
        backend.remove_all_columns();
        let n = records.len();
        let skip = if config.skip_first_rows < n { config.skip_first_rows } else { n };
        let ghost recs = after_skip(records@, config.skip_first_rows as int);
        let ghost data = data_records(records@, *config);
        let mut idx = skip;
        let uids: Vec<ColumnUid>;
        if config.has_headers {
            if idx >= n {
                self.status = IoStatus::Empty;
                return;
            }
            proof {
                assert(recs[0] == records@[idx as int]);
            }
            match &records[idx] {
                Err(e) => {
                    self.status = IoStatus::ReaderError(e.clone());
                    return;
                },
                Ok(hd) => {
                    uids = self.map_columns(hd, backend);
                    proof {
                        assert(uids@ =~= header_uids_of(self.required(), records@, *config));
                        assert(*hd == header_record(records@, *config));
                    }
                },
            }
            idx = idx + 1;
        } else {
            uids = Vec::new();
            proof {
                assert(uids@ =~= header_uids_of(self.required(), records@, *config));
            }
        }
        proof {
            assert(data =~= records@.skip(idx as int));
        }
        let ghost cols_mid = backend.columns();
        let ghost hdr = header_record(records@, *config);
        proof {
            if !config.has_headers {
                assert(cols_mid =~= Seq::<VariantColumn>::empty());
            }
        }
        let ghost row_cols = if config.has_headers { cols_mid } else { Seq::<VariantColumn>::empty() };
        proof {
            assert(backend.cells() =~= Map::<u64, Variant>::empty());
            if !config.has_headers {
                assert(cols_mid =~= Seq::<VariantColumn>::empty());
            }
        }
        let ghost start = backend.next_row();
        let ghost first = idx;
        let mut taken: usize = 0;
        let mut max_len: usize = 0;
        let mut status = IoStatus::Loaded;
        let mut stop = false;
        while idx < n && !stop
            invariant
                n == records@.len(),
                first <= idx <= n,
                skip <= first,
                skip == (if config.skip_first_rows < n { config.skip_first_rows as int } else { n as int }),
                n + 1 <= usize::MAX,
                data == records@.skip(first as int),
                taken == idx - first,
                forall|q: int| 0 <= q < taken ==> (#[trigger] data[q]) is Ok,
                backend.wf(),
                backend.rows() == Seq::new(taken as nat, |k: int| RowUid((start + k) as u32)),
                backend.next_row() == start + taken,
                start + n <= u32::MAX,
                self.required().wf(),
                max_len <= u32::MAX,
                forall|i: int| 0 <= i < records@.len() && (#[trigger] records@[i]) is Ok ==> self.required().columns().len()
                    + records@[i]->Ok_0@.len() <= u32::MAX,
                match max_lines {
                    Some(m) => taken <= m,
                    None => true,
                },
                backend.columns() == cols_mid,
                cols_mid == row_cols,
                hdr == header_record(records@, *config),
                config.has_headers ==> required_columns_made(cols_mid, self.required())
                    && header_columns_made(cols_mid, self.required(), hdr@),
                max_len == max_fields(data, taken as int),
                uids@ == header_uids_of(self.required(), records@, *config),
                backend.cells() == loaded_cells(Map::empty(), start as int, data, self.required(), uids@, row_cols, taken as int),
                !stop ==> status == IoStatus::Loaded,
                stop && status == IoStatus::Loaded ==> max_lines is Some && taken == max_lines->0,
                status != IoStatus::Loaded ==> {
                    &&& stop
                    &&& taken < data.len()
                    &&& data[taken as int] is Err
                    &&& status == IoStatus::ReaderErrorAtLine((skip + taken + 1) as usize, data[taken as int]->Err_0)
                    &&& match max_lines {
                        Some(m) => taken < m,
                        None => true,
                    }
                },
            decreases n - idx, if stop { 0int } else { 1int },
        {
            let at_max = match max_lines {
                Some(m) => taken >= m,
                None => false,
            };
            if at_max {
                stop = true;
            } else {
                proof {
                    assert(data[taken as int] == records@[idx as int]);
                }
                match &records[idx] {
                    Ok(rec) => {
                        let vals = self.record_values(rec, &uids);
                        backend.insert_row(vals);
                        if rec.len() > max_len {
                            max_len = rec.len();
                        }
                        proof {
                            assert(data[taken as int]->Ok_0 == *rec);
                        }
                        proof {
                            assert(backend.rows() =~= Seq::new((taken + 1) as nat, |k: int| RowUid((start + k) as u32)));
                        }
                        taken = taken + 1;
                        idx = idx + 1;
                    },
                    Err(e) => {
                        status = IoStatus::ReaderErrorAtLine(skip + taken + 1, e.clone());
                        stop = true;
                    },
                }
            }
        }
        proof {
            lemma_ok_prefix(data, taken as int);
        }
        let ghost rows_after = backend.rows();
        let ghost cells_after = backend.cells();
        let ghost next_after = backend.next_row();
        if !config.has_headers {
            let mut c: usize = 0;
            while c < max_len
                invariant
                    c <= max_len,
                    max_len <= u32::MAX,
                    backend.wf(),
                    backend.rows() == rows_after,
                    backend.next_row() == next_after,
                    backend.cells() == cells_after,
                    positional_columns_made(backend.columns(), c as int),
                decreases max_len - c,
            {
                let ghost cols0 = backend.columns();
                backend.insert_column(Some(ColumnUid(c as u32)), base_26(c as u32 + 1), Vec::new(), str_type(), None, false, true);
                proof {
                    assert forall|i: int| 0 <= i < c implies #[trigger] column_of(backend.columns(), ColumnUid(i as u32))
                        == column_of(cols0, ColumnUid(i as u32)) by {
                        assert(ColumnUid(i as u32) != ColumnUid(c as u32));
                    }
                }
                c = c + 1;
            }
        }
        backend.mark_reloaded();
        self.status = status;
    }
}


/// The rows that are not skipped, in order.
pub open spec fn unskipped(rows: Seq<RowUid>, skipped: Set<u32>) -> Seq<RowUid>
    decreases rows.len(),
{
    if rows.len() == 0 {
        Seq::empty()
    } else {
        let front = unskipped(rows.drop_last(), skipped);
        if skipped.contains(rows.last().0) {
            front
        } else {
            front.push(rows.last())
        }
    }
}

/// The text a cell is exported as: how its value displays, or nothing when it
/// has no value or one that cannot be displayed (see `displays_safely`).
pub open spec fn export_text(t: &VariantBackend, row: RowUid, col: ColumnUid) -> Seq<char> {
    match t.cell(CellCoord { row_uid: row, col_uid: col }) {
        Some(v) => if displays_safely(v) {
            display_of(v)
        } else {
            Seq::empty()
        },
        None => Seq::empty(),
    }
}

/// The records a table exports as: the column names, then one record per row
/// that is not skipped, each cell as text.
pub open spec fn export_matches(t: &VariantBackend, r: Seq<Vec<String>>) -> bool {
    let cols = t.columns();
    let rows = unskipped(t.rows(), t.skipped_rows());
    &&& r.len() == rows.len() + 1
    &&& r[0]@.len() == cols.len()
    &&& forall|c: int| 0 <= c < cols.len() ==> (#[trigger] r[0]@[c])@ == cols[c].info.name@
    &&& forall|k: int| 0 <= k < rows.len() ==> (#[trigger] r[k + 1])@.len() == cols.len()
    &&& forall|k: int, c: int| 0 <= k < rows.len() && 0 <= c < cols.len() ==> (#[trigger] r[k + 1]@[c])@ == export_text(t, rows[k], cols[c].uid)
}

/// The records to write when exporting a table as CSV: a header record of
/// column names, then the rows that are not skipped, each value as its text and
/// a missing value as an empty field.
pub fn export_records(table: &VariantBackend) -> (r: Vec<Vec<String>>)
    requires
        table.wf(),
    ensures
        export_matches(table, r@),
{
    let uids = table.used_columns();
    let ghost cols = table.columns();
    let mut header: Vec<String> = Vec::new();
    let mut c: usize = 0;
    while c < uids.len()
        invariant
            table.wf(),
            cols == table.columns(),
            uids@ == uids_of(cols),
            c <= uids@.len(),
            header@.len() == c,
            forall|q: int| 0 <= q < c ==> (#[trigger] header@[q])@ == cols[q].info.name@,
        decreases uids@.len() - c,
    {
        proof {
            table.lemma_columns_ascending();
            lemma_column_of_uid(cols, c as int);
        }
        let info = table.column_info(uids[c]).unwrap();
        header.push(info.name.clone());
        c = c + 1;
    }
    let mut out: Vec<Vec<String>> = Vec::new();
    out.push(header);
    let n = table.row_count();
    let ghost rows = table.rows();
    let mut i: usize = 0;
    while i < n
        invariant
            table.wf(),
            cols == table.columns(),
            rows == table.rows(),
            n == rows.len(),
            uids@ == uids_of(cols),
            i <= n,
            out@.len() == unskipped(rows.take(i as int), table.skipped_rows()).len() + 1,
            out@[0]@.len() == cols.len(),
            forall|q: int| 0 <= q < cols.len() ==> (#[trigger] out@[0]@[q])@ == cols[q].info.name@,
            forall|k: int| 0 <= k < out@.len() - 1 ==> (#[trigger] out@[k + 1])@.len() == cols.len(),
            forall|k: int, q: int| 0 <= k < out@.len() - 1 && 0 <= q < cols.len() ==> (#[trigger] out@[k + 1]@[q])@
                == export_text(table, unskipped(rows.take(i as int), table.skipped_rows())[k], cols[q].uid),
        decreases n - i,
    {
        let row_uid = table.row_uid(VisualRowIdx(i)).unwrap();
        proof {
            assert(rows.take(i + 1).drop_last() =~= rows.take(i as int));
            assert(rows.take(i + 1).last() == row_uid);
        }
        if !table.is_row_skipped(row_uid) {
            let mut record: Vec<String> = Vec::new();
            let mut q: usize = 0;
            while q < uids.len()
                invariant
                    uids@ == uids_of(cols),
                    q <= uids@.len(),
                    record@.len() == q,
                    forall|p: int| 0 <= p < q ==> (#[trigger] record@[p])@ == export_text(table, row_uid, cols[p].uid),
                decreases uids@.len() - q,
            {
                let text = match table.get(CellCoord { row_uid, col_uid: uids[q] }) {
                    Some(v) => if display_is_safe(v, DISPLAY_DEPTH) {
                        value_text(v)
                    } else {
                        String::new()
                    },
                    None => String::new(),
                };
                record.push(text);
                q = q + 1;
            }
            let ghost before = out@;
            out.push(record);
            proof {
                let u1 = unskipped(rows.take(i + 1), table.skipped_rows());
                let u0 = unskipped(rows.take(i as int), table.skipped_rows());
                assert(u1 == u0.push(row_uid));
                assert forall|k: int, p: int| 0 <= k < out@.len() - 1 && 0 <= p < cols.len() implies (#[trigger] out@[k + 1]@[p])@
                    == export_text(table, u1[k], cols[p].uid) by {
                    if k < out@.len() - 2 {
                        assert(out@[k + 1] == before[k + 1]);
                    }
                }
            }
        }
        i = i + 1;
    }
    proof {
        assert(rows.take(n as int) =~= rows);
    }
    out
}

} // verus!
