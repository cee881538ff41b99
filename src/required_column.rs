//! Columns that the embedding application requires, and how they are matched
//! against the columns a data source brings (e.g. a CSV header row).
use vstd::prelude::*;
use rvariant::{Variant, VariantTy};
use crate::ids::ColumnUid;
use crate::text::{lower_of, lowercase};
use crate::value::{is_str_type, is_u32_type, str_type, u32_type};

verus! {

/// A column the application requires, with the other names it may go by.
pub struct RequiredColumn {
    pub name: String,
    /// Lower-case alternative names.
    pub synonyms: Vec<String>,
    pub ty: VariantTy,
    pub default: Option<Variant>,
}

/// The strings as text.
pub open spec fn texts(v: Seq<String>) -> Seq<Seq<char>> {
    v.map_values(|s: String| s@)
}

/// The synonyms of a required column, as text.
pub open spec fn synonyms_of(c: RequiredColumn) -> Seq<Seq<char>> {
    c.synonyms@.map_values(|s: String| s@)
}

/// A discovered column name matches a required column when, ignoring case, it
/// equals the column's name or one of its synonyms.
pub open spec fn matches_column(c: RequiredColumn, header: Seq<char>) -> bool {
    lower_of(header) == lower_of(c.name@) || synonyms_of(c).contains(lower_of(header))
}

/// The first discovered name that matches the column, if any.
pub open spec fn first_match(c: RequiredColumn, headers: Seq<Seq<char>>) -> Option<int> {
    if exists|j: int| 0 <= j < headers.len() && matches_column(c, #[trigger] headers[j]) {
        Some(
            choose|j: int|
                0 <= j < headers.len() && matches_column(c, #[trigger] headers[j]) && forall|k: int|
                    0 <= k < j ==> !matches_column(c, #[trigger] headers[k]),
        )
    } else {
        None
    }
}

/// Which required column (by position) a discovered column goes to: the first
/// one that chose it.
pub open spec fn owner_of(ms: Seq<Option<int>>, j: int) -> Option<int>
    decreases ms.len(),
{
    if ms.len() == 0 {
        None
    } else {
        let o = owner_of(ms.drop_last(), j);
        if o is Some {
            o
        } else if ms.last() == Some(j) {
            Some(ms.len() - 1)
        } else {
            None
        }
    }
}

/// How many of the discovered columns `0..j` no required column took.
pub open spec fn adhoc_rank(ms: Seq<Option<int>>, j: int) -> int
    decreases j,
{
    if j <= 0 {
        0
    } else if owner_of(ms, j - 1) is None {
        adhoc_rank(ms, j - 1) + 1
    } else {
        adhoc_rank(ms, j - 1)
    }
}

/// The identity discovered column `j` gets: the required column's that took it,
/// or the next one after all required columns, in discovery order.
pub open spec fn header_uid(ms: Seq<Option<int>>, n_required: int, j: int) -> int {
    match owner_of(ms, j) {
        Some(k) => k,
        None => n_required + adhoc_rank(ms, j),
    }
}

/// The required columns, in order, whose match an earlier one had already taken.
pub open spec fn double_matches(ms: Seq<Option<int>>) -> Seq<ColumnUid>
    decreases ms.len(),
{
    if ms.len() == 0 {
        Seq::empty()
    } else {
        let d = double_matches(ms.drop_last());
        match ms.last() {
            Some(j) => if owner_of(ms.drop_last(), j) is Some {
                d.push(ColumnUid((ms.len() - 1) as u32))
            } else {
                d
            },
            None => d,
        }
    }
}

pub proof fn lemma_owner_bound(ms: Seq<Option<int>>, j: int)
    ensures
        owner_of(ms, j) is Some ==> 0 <= owner_of(ms, j)->0 < ms.len(),
    decreases ms.len(),
{
    if ms.len() > 0 {
        lemma_owner_bound(ms.drop_last(), j);
    }
}

/// Discovered columns that no required column took get identities after all
/// required ones, increasing in discovery order, so they never collide with a
/// required column's identity nor with each other.
pub proof fn lemma_adhoc_after_required(ms: Seq<Option<int>>, n_required: int, a: int, b: int)
    requires
        0 <= a < b,
        owner_of(ms, a) is None,
        owner_of(ms, b) is None,
    ensures
        n_required <= header_uid(ms, n_required, a) < header_uid(ms, n_required, b),
    decreases b,
{
    lemma_rank_nonneg(ms, a);
    if a < b - 1 {
        lemma_rank_mono(ms, a + 1, b - 1);
    }
}

/// Adhoc ranks count discovered columns: the rank of `j` lies within `0..=j`.
pub proof fn lemma_rank_bound(ms: Seq<Option<int>>, j: int)
    requires
        0 <= j,
    ensures
        0 <= adhoc_rank(ms, j) <= j,
    decreases j,
{
    if j > 0 {
        lemma_rank_bound(ms, j - 1);
    }
}

proof fn lemma_rank_nonneg(ms: Seq<Option<int>>, j: int)
    ensures
        adhoc_rank(ms, j) >= 0,
    decreases j,
{
    if j > 0 {
        lemma_rank_nonneg(ms, j - 1);
    }
}

proof fn lemma_rank_mono(ms: Seq<Option<int>>, a: int, b: int)
    requires
        a <= b,
    ensures
        adhoc_rank(ms, a) <= adhoc_rank(ms, b),
    decreases b - a,
{
    if a < b {
        lemma_rank_mono(ms, a, b - 1);
    }
}

impl RequiredColumn {
    pub fn new(name: &str, ty: VariantTy) -> (r: Self)
        ensures
            r.name@ == name@,
            r.synonyms@.len() == 0,
            r.ty == ty,
            r.default is None,
    {
        RequiredColumn { name: String::from_str(name), synonyms: Vec::new(), ty, default: None }
    }

    /// A required string column.
    pub fn str(name: &str) -> (r: Self)
        ensures
            r.name@ == name@,
            r.synonyms@.len() == 0,
            is_str_type(r.ty),
            r.default is None,
    {
        RequiredColumn { name: String::from_str(name), synonyms: Vec::new(), ty: str_type(), default: None }
    }

    /// A required `u32` column.
    pub fn u32(name: &str) -> (r: Self)
        ensures
            r.name@ == name@,
            is_u32_type(r.ty),
            r.synonyms@.len() == 0,
            r.default is None,
    {
        RequiredColumn { name: String::from_str(name), synonyms: Vec::new(), ty: u32_type(), default: None }
    }

    /// The column with these alternative names, kept in lower case.
    pub fn synonyms(self, synonyms: Vec<&str>) -> (r: Self)
        ensures
            r.name == self.name,
            r.ty == self.ty,
            r.default == self.default,
            synonyms_of(r) == synonyms@.map_values(|s: &str| lower_of(s@)),
    {
        let mut lowered: Vec<String> = Vec::new();
        let mut i: usize = 0;
        while i < synonyms.len()
            invariant
                i <= synonyms@.len(),
                lowered@.map_values(|s: String| s@) == synonyms@.take(i as int).map_values(|s: &str| lower_of(s@)),
            decreases synonyms@.len() - i,
        {
            let l = lowercase(synonyms[i]);
            let ghost before = lowered@;
            lowered.push(l);
            proof {
                assert(lowered@.map_values(|s: String| s@) =~= before.map_values(|s: String| s@).push(l@));
                assert(synonyms@.take(i + 1).map_values(|s: &str| lower_of(s@)) =~= synonyms@.take(i as int).map_values(|s: &str| lower_of(s@)).push(lower_of(synonyms@[i as int]@)));
            }
            i = i + 1;
        }
        proof {
            assert(synonyms@.take(i as int) =~= synonyms@);
        }
        RequiredColumn { name: self.name, synonyms: lowered, ty: self.ty, default: self.default }
    }

    /// The column with this default for new rows.
    pub fn default(self, default: Variant) -> (r: Self)
        ensures
            r.name == self.name,
            r.synonyms == self.synonyms,
            r.ty == self.ty,
            r.default == Some(default),
    {
        RequiredColumn { name: self.name, synonyms: self.synonyms, ty: self.ty, default: Some(default) }
    }

    fn contains_in_synonyms(&self, name: &String) -> (r: bool)
        ensures
            r == synonyms_of(*self).contains(name@),
    {
        let mut i: usize = 0;
        while i < self.synonyms.len()
            invariant
                i <= self.synonyms@.len(),
                forall|k: int| 0 <= k < i ==> self.synonyms@[k]@ != name@,
            decreases self.synonyms@.len() - i,
        {
            if self.synonyms[i] == *name {
                proof {
                    assert(synonyms_of(*self)[i as int] == name@);
                }
                return true;
            }
            i = i + 1;
        }
        proof {
            if synonyms_of(*self).contains(name@) {
                let k = choose|k: int| 0 <= k < synonyms_of(*self).len() && synonyms_of(*self)[k] == name@;
                assert(self.synonyms@[k]@ == name@);
            }
        }
        false
    }
}

/// The required columns, identified `0, 1, ...` in the order given.
pub struct RequiredColumns {
    required_columns: Vec<(ColumnUid, RequiredColumn)>,
}

/// How discovered columns were matched.
pub struct ColumnAssignment {
    /// For each required column: the first discovered column that matches it.
    pub required: Vec<(ColumnUid, Option<usize>)>,
    /// For each discovered column: the identity it is stored under.
    pub header_uids: Vec<ColumnUid>,
    /// Required columns whose match an earlier required column had already taken.
    pub double_matched: Vec<ColumnUid>,
}

impl RequiredColumns {
    /// The required columns, with their identities.
    pub closed spec fn columns(&self) -> Seq<(ColumnUid, RequiredColumn)> {
        self.required_columns@
    }

    /// How many columns are required.
    pub fn columns_len(&self) -> (r: usize)
        ensures
            r == self.columns().len(),
    {
        self.required_columns.len()
    }

    /// The `k`-th required column.
    pub open spec fn column(&self, k: int) -> RequiredColumn {
        self.columns()[k].1
    }

    /// Column `k` is identified by `k`.
    pub closed spec fn wf(&self) -> bool {
        &&& self.required_columns@.len() <= u32::MAX
        &&& forall|k: int| 0 <= k < self.required_columns@.len() ==> (#[trigger] self.required_columns@[k]).0 == ColumnUid(k as u32)
    }

    /// The discovered names' first matches, required column by required column.
    pub open spec fn matches(&self, headers: Seq<Seq<char>>) -> Seq<Option<int>> {
        Seq::new(self.columns().len(), |k: int| first_match(self.column(k), headers))
    }

    pub fn new(required_columns: Vec<RequiredColumn>) -> (r: Self)
        requires
            required_columns.len() <= u32::MAX,
        ensures
            r.wf(),
            r.columns().len() == required_columns@.len(),
            forall|k: int| 0 <= k < required_columns@.len() ==> #[trigger] r.column(k) == required_columns@[k],
    {
        let mut cols = required_columns;
        let ghost input = cols@;
        let n = cols.len();
        let mut out: Vec<(ColumnUid, RequiredColumn)> = Vec::new();
        let mut i: usize = 0;
        while i < n
            invariant
                n == input.len(),
                n <= u32::MAX,
                i <= n,
                cols@ == input.skip(i as int),
                out@.len() == i,
                forall|k: int| 0 <= k < i ==> (#[trigger] out@[k]).0 == ColumnUid(k as u32) && out@[k].1 == input[k],
            decreases n - i,
        {
            let c = cols.remove(0);
            out.push((ColumnUid(i as u32), c));
            proof {
                assert(cols@ =~= input.skip(i + 1));
            }
            i = i + 1;
        }
        RequiredColumns { required_columns: out }
    }

    /// The required column `col_uid`, if there is one.
    pub fn get(&self, col_uid: ColumnUid) -> (r: Option<&RequiredColumn>)
        requires
            self.wf(),
        ensures
            match r {
                Some(c) => col_uid.0 < self.columns().len() && *c == self.column(col_uid.0 as int),
                None => col_uid.0 >= self.columns().len(),
            },
    {
        if (col_uid.0 as usize) < self.required_columns.len() {
            Some(&self.required_columns[col_uid.0 as usize].1)
        } else {
            None
        }
    }

    fn first_match_in(col: &RequiredColumn, lowered: &Vec<String>, names: &Vec<String>) -> (r: Option<usize>)
        requires
            lowered@.len() == names@.len(),
            forall|j: int| 0 <= j < lowered@.len() ==> (#[trigger] lowered@[j])@ == lower_of(names@[j]@),
        ensures
            match r {
                Some(j) => first_match(*col, texts(names@)) == Some(j as int) && j < names@.len(),
                None => first_match(*col, texts(names@)) is None,
            },
    {
        let ghost headers = texts(names@);
        let name_lower = lowercase(col.name.as_str());
        let mut j: usize = 0;
        while j < lowered.len()
            invariant
                j <= lowered@.len(),
                headers == texts(names@),
                lowered@.len() == headers.len(),
                name_lower@ == lower_of(col.name@),
                forall|k: int| 0 <= k < lowered@.len() ==> (#[trigger] lowered@[k])@ == lower_of(headers[k]),
                forall|k: int| 0 <= k < j ==> !matches_column(*col, #[trigger] headers[k]),
            decreases lowered@.len() - j,
        {
            if lowered[j] == name_lower || col.contains_in_synonyms(&lowered[j]) {
                proof {
                    assert(matches_column(*col, headers[j as int]));
                    assert(0 <= j < headers.len() && matches_column(*col, headers[j as int]) && forall|k: int|
                            0 <= k < j ==> !matches_column(*col, #[trigger] headers[k]));
                    let w = first_match(*col, headers)->0;
                    assert(0 <= w < headers.len() && matches_column(*col, headers[w]));
                    assert(forall|k: int| 0 <= k < w ==> !matches_column(*col, #[trigger] headers[k]));
                    if w < j {
                        assert(!matches_column(*col, headers[w]));
                    } else if w > j {
                        assert(!matches_column(*col, headers[j as int]));
                    }
                    assert(w == j);
                    assert(first_match(*col, headers) == Some(j as int));
                }
                return Some(j);
            }
            proof {
                assert(!matches_column(*col, headers[j as int]));
            }
            j = j + 1;
        }
        None
    }

    fn lowered_names(column_names: &Vec<String>) -> (r: Vec<String>)
        ensures
            r@.len() == column_names@.len(),
            forall|j: int| 0 <= j < r@.len() ==> (#[trigger] r@[j])@ == lower_of(column_names@[j]@),
    {
        let mut r: Vec<String> = Vec::new();
        let mut j: usize = 0;
        while j < column_names.len()
            invariant
                j <= column_names@.len(),
                r@.len() == j,
                forall|k: int| 0 <= k < j ==> (#[trigger] r@[k])@ == lower_of(column_names@[k]@),
            decreases column_names@.len() - j,
        {
            r.push(lowercase(column_names[j].as_str()));
            j = j + 1;
        }
        r
    }

    /// For each required column, in order, the first discovered name that
    /// matches it ignoring case, by its name or a synonym.
    pub fn map_columns(&self, column_names: &Vec<String>) -> (r: Vec<(ColumnUid, Option<usize>)>)
        requires
            self.wf(),
        ensures
            r@.len() == self.columns().len(),
            forall|k: int| 0 <= k < r@.len() ==> {
                &&& (#[trigger] r@[k]).0 == ColumnUid(k as u32)
                &&& match r@[k].1 {
                    Some(j) => self.matches(texts(column_names@))[k] == Some(j as int) && j < column_names@.len(),
                    None => self.matches(texts(column_names@))[k] is None,
                }
            },
    {
        let ghost headers = texts(column_names@);
        let lowered = Self::lowered_names(column_names);
        let mut r: Vec<(ColumnUid, Option<usize>)> = Vec::new();
        let mut k: usize = 0;
        while k < self.required_columns.len()
            invariant
                self.wf(),
                k <= self.required_columns@.len(),
                headers == texts(column_names@),
                lowered@.len() == headers.len(),
                lowered@.len() == column_names@.len(),
                forall|j: int| 0 <= j < lowered@.len() ==> (#[trigger] lowered@[j])@ == lower_of(column_names@[j]@),
                r@.len() == k,
                forall|q: int| 0 <= q < k ==> {
                    &&& (#[trigger] r@[q]).0 == ColumnUid(q as u32)
                    &&& match r@[q].1 {
                        Some(j) => self.matches(headers)[q] == Some(j as int) && j < column_names@.len(),
                        None => self.matches(headers)[q] is None,
                    }
                },
            decreases self.required_columns@.len() - k,
        {
            let (uid, col) = (self.required_columns[k].0, &self.required_columns[k].1);
            let m = Self::first_match_in(col, &lowered, column_names);
            r.push((uid, m));
            k = k + 1;
        }
        r
    }

    /// Matches discovered column names against the required columns. Each
    /// required column takes the first name that matches it, unless an earlier
    /// required column took that name already (a double match, flagged). Every
    /// name no required column took becomes an additional column, identified
    /// after all required ones, in discovery order.
    pub fn assign_columns(&self, column_names: &Vec<String>) -> (r: ColumnAssignment)
        requires
            self.wf(),
            self.columns().len() + column_names@.len() <= u32::MAX + 1,
        ensures
            ({
                let ms = self.matches(texts(column_names@));
                &&& r.required@.len() == self.columns().len()
                &&& forall|k: int| 0 <= k < r.required@.len() ==> {
                    &&& (#[trigger] r.required@[k]).0 == ColumnUid(k as u32)
                    &&& match r.required@[k].1 {
                        Some(j) => ms[k] == Some(j as int),
                        None => ms[k] is None,
                    }
                }
                &&& r.header_uids@.len() == column_names@.len()
                &&& forall|j: int| 0 <= j < column_names@.len() ==> #[trigger] r.header_uids@[j] == ColumnUid(
                    header_uid(ms, self.columns().len() as int, j) as u32,
                )
                &&& r.double_matched@ == double_matches(ms)
            }),
    {
        let ghost ms = self.matches(texts(column_names@));
        let req = self.map_columns(column_names);
        let nh = column_names.len();
        let nq = req.len();
        let mut owners: Vec<Option<usize>> = Vec::new();
        let mut j: usize = 0;
        while j < nh
            invariant
                j <= nh,
                owners@.len() == j,
                forall|q: int| 0 <= q < j ==> (#[trigger] owners@[q]) is None,
            decreases nh - j,
        {
            owners.push(None);
            j = j + 1;
        }
        let mut doubles: Vec<ColumnUid> = Vec::new();
        let mut k: usize = 0;
        proof {
            assert(ms.take(0) =~= Seq::<Option<int>>::empty());
        }
        while k < nq
            invariant
                nq == req@.len(),
                nq == ms.len(),
                nq <= u32::MAX,
                nh == column_names@.len(),
                owners@.len() == nh,
                forall|q: int| 0 <= q < nq ==> {
                    &&& (#[trigger] req@[q]).0 == ColumnUid(q as u32)
                    &&& match req@[q].1 {
                        Some(j) => ms[q] == Some(j as int) && j < nh,
                        None => ms[q] is None,
                    }
                },
                k <= nq,
                forall|q: int| 0 <= q < nh ==> match #[trigger] owners@[q] {
                    Some(o) => owner_of(ms.take(k as int), q) == Some(o as int),
                    None => owner_of(ms.take(k as int), q) is None,
                },
                doubles@ == double_matches(ms.take(k as int)),
            decreases nq - k,
        {
            proof {
                assert(ms.take(k + 1).drop_last() =~= ms.take(k as int));
                assert(ms.take(k + 1).last() == ms[k as int]);
            }
            if let Some(j) = req[k].1 {
                if owners[j].is_some() {
                    doubles.push(ColumnUid(k as u32));
                } else {
                    owners.set(j, Some(k));
                }
            }
            k = k + 1;
        }
        proof {
            assert(ms.take(nq as int) =~= ms);
        }
        let mut uids: Vec<ColumnUid> = Vec::new();
        let mut next: u64 = nq as u64;
        let mut j: usize = 0;
        while j < nh
            invariant
                nh == column_names@.len(),
                nq == ms.len(),
                nq + nh <= u32::MAX + 1,
                owners@.len() == nh,
                forall|q: int| 0 <= q < nh ==> match #[trigger] owners@[q] {
                    Some(o) => owner_of(ms, q) == Some(o as int),
                    None => owner_of(ms, q) is None,
                },
                j <= nh,
                next == nq + adhoc_rank(ms, j as int),
                adhoc_rank(ms, j as int) <= j,
                uids@.len() == j,
                forall|q: int| 0 <= q < j ==> #[trigger] uids@[q] == ColumnUid(header_uid(ms, nq as int, q) as u32),
            decreases nh - j,
        {
            match owners[j] {
                Some(o) => {
                    proof {
                        lemma_owner_bound(ms, j as int);
                    }
                    uids.push(ColumnUid(o as u32));
                },
                None => {
                    uids.push(ColumnUid(next as u32));
                    next = next + 1;
                },
            }
            j = j + 1;
        }
        ColumnAssignment { required: req, header_uids: uids, double_matched: doubles }
    }

}

} // verus!
