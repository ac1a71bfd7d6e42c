//! The in-memory columnar table: an ordered sequence of named columns, each a
//! homogeneous list of scalar cells, with every column holding the same number
//! of rows and no two columns sharing a name. Tables are never mutated in
//! place by row: every row-level operation returns a fresh table.

use vstd::prelude::*;

use crate::DataError;

verus! {

/// One cell of a table.
#[derive(Debug)]
pub enum Value {
    /// A text cell.
    Str(String),
    /// An integer cell.
    Int(i64),
    /// A floating-point cell, carried as the IEEE-754 bit pattern of the
    /// number so that the table itself stays free of float arithmetic.
    Float(u64),
    /// A boolean cell.
    Bool(bool),
    /// A structured 128-bit identifier cell.
    Id(u128),
}

/// The mathematical value of a cell: text is a sequence of characters, every
/// other kind is its plain value.
pub enum ValueModel {
    Str(Seq<char>),
    Int(i64),
    Float(u64),
    Bool(bool),
    Id(u128),
}

impl View for Value {
    type V = ValueModel;

    open spec fn view(&self) -> ValueModel {
        match self {
            Value::Str(s) => ValueModel::Str(s@),
            Value::Int(i) => ValueModel::Int(*i),
            Value::Float(b) => ValueModel::Float(*b),
            Value::Bool(b) => ValueModel::Bool(*b),
            Value::Id(u) => ValueModel::Id(*u),
        }
    }
}

impl Clone for Value {
    fn clone(&self) -> (r: Self)
        ensures
            r == *self,
    {
        match self {
            Value::Str(s) => Value::Str(s.clone()),
            Value::Int(i) => Value::Int(*i),
            Value::Float(b) => Value::Float(*b),
            Value::Bool(b) => Value::Bool(*b),
            Value::Id(u) => Value::Id(*u),
        }
    }
}

/// A named column: one name, one cell per row.
#[derive(Debug)]
pub struct Column {
    pub name: String,
    pub values: Vec<Value>,
}

/// The mathematical value of a column.
pub struct ColumnModel {
    pub name: Seq<char>,
    pub values: Seq<ValueModel>,
}

impl View for Column {
    type V = ColumnModel;

    open spec fn view(&self) -> ColumnModel {
        ColumnModel { name: self.name@, values: self.values@.map_values(|v: Value| v@) }
    }
}

impl Clone for Column {
    fn clone(&self) -> (r: Self)
        ensures
            r@ == self@,
    {
        let values = self.values.clone();
        proof {
            assert forall|i: int| 0 <= i < values@.len() implies values@[i] == self.values@[i] by {
                assert(cloned(self.values@[i], values@[i]));
            }
            assert(values@ =~= self.values@);
        }
        Column { name: self.name.clone(), values }
    }
}

/// The in-memory columnar table.
#[derive(Debug)]
pub struct Table {
    pub cols: Vec<Column>,
}

impl View for Table {
    type V = Seq<ColumnModel>;

    open spec fn view(&self) -> Seq<ColumnModel> {
        self.cols@.map_values(|c: Column| c@)
    }
}

/// The number of rows: the length of the first column, or zero for a table
/// with no columns.
pub open spec fn spec_height(t: Seq<ColumnModel>) -> nat {
    if t.len() == 0 {
        0
    } else {
        t[0].values.len()
    }
}

/// Every column holds exactly one cell per row.
pub open spec fn rectangular(t: Seq<ColumnModel>) -> bool {
    forall|i: int| 0 <= i < t.len() ==> (#[trigger] t[i]).values.len() == spec_height(t)
}

/// No two columns share a name.
pub open spec fn names_unique(t: Seq<ColumnModel>) -> bool {
    forall|i: int, j: int| #![trigger t[i], t[j]] 0 <= i < j < t.len() ==> t[i].name != t[j].name
}

/// The table invariant: rectangular and uniquely named.
pub open spec fn table_wf(t: Seq<ColumnModel>) -> bool {
    rectangular(t) && names_unique(t)
}

/// Whether some column bears the given name.
pub open spec fn spec_has_col(t: Seq<ColumnModel>, name: Seq<char>) -> bool {
    exists|i: int| 0 <= i < t.len() && (#[trigger] t[i]).name == name
}

/// The index of the column bearing the given name; meaningful only when
/// `spec_has_col` holds and names are unique.
pub open spec fn spec_col_index(t: Seq<ColumnModel>, name: Seq<char>) -> int {
    choose|i: int| 0 <= i < t.len() && (#[trigger] t[i]).name == name
}

/// The table restricted to rows `[start, start + len)`.
pub open spec fn spec_slice(t: Seq<ColumnModel>, start: int, len: int) -> Seq<ColumnModel> {
    t.map_values(
        |c: ColumnModel| ColumnModel { name: c.name, values: c.values.subrange(start, start + len) },
    )
}

/// The table without the column bearing the given name.
pub open spec fn spec_drop_col(t: Seq<ColumnModel>, name: Seq<char>) -> Seq<ColumnModel> {
    t.remove(spec_col_index(t, name))
}

/// The table whose row `k` is row `idx[k]` of the original.
pub open spec fn spec_gather(t: Seq<ColumnModel>, idx: Seq<usize>) -> Seq<ColumnModel> {
    t.map_values(
        |c: ColumnModel| ColumnModel {
            name: c.name,
            values: idx.map_values(|i: usize| c.values[i as int]),
        },
    )
}

impl Table {
    /// The table invariant, stated of the executable value.
    pub open spec fn wf(&self) -> bool {
        table_wf(self@)
    }

    /// A table with no columns and no rows.
    pub fn new() -> (r: Table)
        ensures
            r@ == Seq::<ColumnModel>::empty(),
            r.wf(),
    {
        let r = Table { cols: Vec::new() };
        proof {
            assert(r@ =~= Seq::<ColumnModel>::empty());
        }
        r
    }

    /// The number of rows.
    pub fn height(&self) -> (h: usize)
        ensures
            h == spec_height(self@),
    {
        if self.cols.len() == 0 {
            0
        } else {
            self.cols[0].values.len()
        }
    }

    /// The number of columns.
    pub fn width(&self) -> (w: usize)
        ensures
            w == self@.len(),
    {
        self.cols.len()
    }

    /// The index of the column bearing `name`, if any.
    fn find_col_idx(&self, name: &str) -> (r: Option<usize>)
        requires
            self.wf(),
        ensures
            match r {
                Some(i) => {
                    &&& i < self@.len()
                    &&& self@[i as int].name == name@
                    &&& spec_has_col(self@, name@)
                    &&& i == spec_col_index(self@, name@)
                },
                None => !spec_has_col(self@, name@),
            },
    {
        let owned: String = name.to_owned();
        let mut i: usize = 0;
        while i < self.cols.len()
            invariant
                self.wf(),
                i <= self.cols.len(),
                owned@ == name@,
                forall|j: int| 0 <= j < i ==> (#[trigger] self@[j]).name != name@,
            decreases self.cols.len() - i,
        {
            if self.cols[i].name == owned {
                proof {
                    assert(self@[i as int].name == name@);
                    let k = spec_col_index(self@, name@);
                    assert(0 <= k < self@.len() && self@[k].name == name@);
                    if k < i as int {
                        assert(self@[k].name != self@[i as int].name);
                    } else if k > i as int {
                        assert(self@[i as int].name != self@[k].name);
                    }
                }
                return Some(i);
            }
            i += 1;
        }
        None
    }

    /// Returns the cells of the named column, or `NotFound` when no column
    /// bears that name.
    pub fn column(&self, name: &str) -> (r: Result<&Vec<Value>, DataError>)
        requires
            self.wf(),
        ensures
            match r {
                Ok(v) => spec_has_col(self@, name@) && v@.map_values(|x: Value| x@)
                    == self@[spec_col_index(self@, name@)].values,
                Err(e) => e == DataError::NotFound && !spec_has_col(self@, name@),
            },
    {
        match self.find_col_idx(name) {
            Some(i) => Ok(&self.cols[i].values),
            None => Err(DataError::NotFound),
        }
    }

    /// Returns a new table without the named column, or `NotFound` when no
    /// column bears that name. The remaining columns keep their order, their
    /// cells and, when any column is left, their common row count.
    pub fn drop(&self, name: &str) -> (r: Result<Table, DataError>)
        requires
            self.wf(),
        ensures
            match r {
                Ok(t) => {
                    &&& spec_has_col(self@, name@)
                    &&& t@ == spec_drop_col(self@, name@)
                    &&& t.wf()
                    &&& t@.len() == self@.len() - 1
                    &&& t@.len() > 0 ==> spec_height(t@) == spec_height(self@)
                },
                Err(e) => e == DataError::NotFound && !spec_has_col(self@, name@),
            },
    {
        let ci = match self.find_col_idx(name) {
            Some(i) => i,
            None => {
                return Err(DataError::NotFound);
            },
        };
        let mut cols: Vec<Column> = Vec::new();
        let mut i: usize = 0;
        while i < self.cols.len()
            invariant
                self.wf(),
                i <= self.cols.len(),
                ci < self@.len(),
                cols@.map_values(|c: Column| c@) == if i <= ci {
                    self@.subrange(0, i as int)
                } else {
                    self@.subrange(0, ci as int) + self@.subrange(ci as int + 1, i as int)
                },
            decreases self.cols.len() - i,
        {
            if i != ci {
                let ghost pre = cols@.map_values(|c: Column| c@);
                cols.push(self.cols[i].clone());
                proof {
                    assert(cols@.map_values(|c: Column| c@) =~= pre.push(self@[i as int]));
                    if i < ci {
                        assert(pre.push(self@[i as int]) =~= self@.subrange(0, i as int + 1));
                    } else {
                        assert(pre.push(self@[i as int]) =~= self@.subrange(0, ci as int)
                            + self@.subrange(ci as int + 1, i as int + 1));
                    }
                }
            } else {
                proof {
                    assert(self@.subrange(0, ci as int) + self@.subrange(
                        ci as int + 1,
                        ci as int + 1,
                    ) =~= self@.subrange(0, ci as int));
                }
            }
            i += 1;
        }
        let t = Table { cols };
        proof {
            assert(t@ =~= spec_drop_col(self@, name@));
            assert forall|k: int| 0 <= k < t@.len() implies (#[trigger] t@[k]).values.len()
                == spec_height(t@) by {
                if t@.len() > 0 {
                    assert(t@[0] == if 0 < ci as int {
                        self@[0]
                    } else {
                        self@[1]
                    });
                }
            }
        }
        Ok(t)
    }
}

/// Copies the cells of `v` at positions `[start, end)`.
pub(crate) fn clone_value_range(v: &Vec<Value>, start: usize, end: usize) -> (r: Vec<Value>)
    requires
        start <= end <= v@.len(),
    ensures
        r@ == v@.subrange(start as int, end as int),
{
    let mut r: Vec<Value> = Vec::new();
    let mut i: usize = start;
    while i < end
        invariant
            start <= i <= end <= v@.len(),
            r@ == v@.subrange(start as int, i as int),
        decreases end - i,
    {
        let ghost pre = r@;
        r.push(v[i].clone());
        proof {
            assert(r@ =~= v@.subrange(start as int, i as int + 1));
        }
        i += 1;
    }
    r
}

/// Copies the cells of `v` at the positions listed in `idx`, in that order.
fn gather_values(v: &Vec<Value>, idx: &Vec<usize>) -> (r: Vec<Value>)
    requires
        forall|k: int| 0 <= k < idx@.len() ==> (#[trigger] idx@[k]) < v@.len(),
    ensures
        r@ == idx@.map_values(|i: usize| v@[i as int]),
{
    let mut r: Vec<Value> = Vec::new();
    let mut k: usize = 0;
    while k < idx.len()
        invariant
            k <= idx@.len(),
            forall|j: int| 0 <= j < idx@.len() ==> (#[trigger] idx@[j]) < v@.len(),
            r@ == idx@.subrange(0, k as int).map_values(|i: usize| v@[i as int]),
        decreases idx@.len() - k,
    {
        r.push(v[idx[k]].clone());
        proof {
            assert(r@ =~= idx@.subrange(0, k as int + 1).map_values(|i: usize| v@[i as int]));
        }
        k += 1;
    }
    proof {
        assert(idx@.subrange(0, idx@.len() as int) =~= idx@);
    }
    r
}

impl Table {
    /// Returns a new table restricted to rows `[start, start + len)`, or
    /// `OutOfRange` when that range reaches past the last row.
    pub fn slice(&self, start: usize, len: usize) -> (r: Result<Table, DataError>)
        requires
            self.wf(),
        ensures
            match r {
                Ok(t) => {
                    &&& start + len <= spec_height(self@)
                    &&& t@ == spec_slice(self@, start as int, len as int)
                    &&& t.wf()
                    &&& t@.len() == self@.len()
                    &&& spec_height(t@) == if self@.len() == 0 {
                        0
                    } else {
                        len as int
                    }
                },
                Err(e) => e == DataError::OutOfRange && start + len > spec_height(self@),
            },
    {
        let h = self.height();
        if len > h || start > h - len {
            return Err(DataError::OutOfRange);
        }
        let end = start + len;
        let mut cols: Vec<Column> = Vec::new();
        let mut i: usize = 0;
        while i < self.cols.len()
            invariant
                self.wf(),
                i <= self.cols.len(),
                end == start + len,
                end <= spec_height(self@),
                cols@.map_values(|c: Column| c@) == spec_slice(self@, start as int, len as int)
                    .subrange(0, i as int),
            decreases self.cols.len() - i,
        {
            proof {
                assert(self@[i as int].values.len() == spec_height(self@));
            }
            let values = clone_value_range(&self.cols[i].values, start, end);
            let ghost pre = cols@.map_values(|c: Column| c@);
            let ghost newm = ColumnModel {
                name: self@[i as int].name,
                values: values@.map_values(|x: Value| x@),
            };
            cols.push(Column { name: self.cols[i].name.clone(), values });
            proof {
                let full = spec_slice(self@, start as int, len as int);
                assert(cols@.map_values(|c: Column| c@) =~= pre.push(newm));
                assert(full[i as int].values =~= newm.values);
                assert(full[i as int] == newm);
                assert(pre.push(newm) =~= full.subrange(0, i as int + 1));
            }
            i += 1;
        }
        let t = Table { cols };
        proof {
            let full = spec_slice(self@, start as int, len as int);
            assert(t@ =~= full);
        }
        Ok(t)
    }

    /// Returns a new table whose row `k` is row `idx[k]` of this table, for
    /// each position of `idx` in turn. Rows may repeat or go unused exactly
    /// as `idx` does.
    pub fn gather(&self, idx: &Vec<usize>) -> (t: Table)
        requires
            self.wf(),
            forall|k: int| 0 <= k < idx@.len() ==> (#[trigger] idx@[k]) < spec_height(self@),
        ensures
            t@ == spec_gather(self@, idx@),
            t.wf(),
            t@.len() == self@.len(),
            self@.len() > 0 ==> spec_height(t@) == idx@.len(),
    {
        let mut cols: Vec<Column> = Vec::new();
        let mut i: usize = 0;
        while i < self.cols.len()
            invariant
                self.wf(),
                i <= self.cols.len(),
                forall|k: int| 0 <= k < idx@.len() ==> (#[trigger] idx@[k]) < spec_height(self@),
                cols@.map_values(|c: Column| c@) == spec_gather(self@, idx@).subrange(0, i as int),
            decreases self.cols.len() - i,
        {
            proof {
                assert(self@[i as int].values.len() == spec_height(self@));
            }
            let values = gather_values(&self.cols[i].values, idx);
            let ghost pre = cols@.map_values(|c: Column| c@);
            let ghost newm = ColumnModel {
                name: self@[i as int].name,
                values: values@.map_values(|x: Value| x@),
            };
            cols.push(Column { name: self.cols[i].name.clone(), values });
            proof {
                let full = spec_gather(self@, idx@);
                assert(cols@.map_values(|c: Column| c@) =~= pre.push(newm));
                assert(full[i as int].values =~= newm.values);
                assert(full[i as int] == newm);
                assert(pre.push(newm) =~= full.subrange(0, i as int + 1));
            }
            i += 1;
        }
        let t = Table { cols };
        proof {
            assert(t@ =~= spec_gather(self@, idx@));
        }
        t
    }

    /// Appends a whole column. Fails with `InvalidArgument` when a column of
    /// that name already exists, or when the table already has columns and
    /// the new cells do not number one per existing row.
    pub fn push_column(&mut self, name: String, values: Vec<Value>) -> (r: Result<(), DataError>)
        requires
            old(self).wf(),
        ensures
            match r {
                Ok(()) => {
                    &&& !spec_has_col(old(self)@, name@)
                    &&& (old(self)@.len() == 0 || values@.len() == spec_height(old(self)@))
                    &&& final(self)@ == old(self)@.push(
                        ColumnModel { name: name@, values: values@.map_values(|x: Value| x@) },
                    )
                    &&& final(self).wf()
                    &&& spec_height(final(self)@) == values@.len()
                },
                Err(e) => {
                    &&& e == DataError::InvalidArgument
                    &&& (spec_has_col(old(self)@, name@) || (old(self)@.len() > 0 && values@.len()
                        != spec_height(old(self)@)))
                    &&& final(self)@ == old(self)@
                },
            },
    {
        if let Some(_) = self.find_col_idx(name.as_str()) {
            return Err(DataError::InvalidArgument);
        }
        if self.cols.len() > 0 {
            let h = self.height();
            if values.len() != h {
                return Err(DataError::InvalidArgument);
            }
        }
        let ghost oldv = self@;
        let ghost newcol = ColumnModel { name: name@, values: values@.map_values(|x: Value| x@) };
        self.cols.push(Column { name, values });
        proof {
            assert(self@ =~= oldv.push(newcol));
            assert forall|i: int| 0 <= i < self@.len() implies (#[trigger] self@[i]).values.len()
                == spec_height(self@) by {}
            assert forall|i: int, j: int| #![trigger self@[i], self@[j]] 0 <= i < j < self@.len()
                implies self@[i].name != self@[j].name by {
                if j == self@.len() - 1 {
                    assert(!spec_has_col(oldv, newcol.name));
                    assert(oldv[i] == self@[i]);
                }
            }
        }
        Ok(())
    }
}

/// The identity slice round-trips: slicing a table to rows
/// `[0, height)` keeps every row, so the slice's height equals the
/// table's. Together with `Table::slice`'s contract — which returns this
/// very model and accepts the range `[0, height)` — this is the law for
/// `slice(0, height())`.
pub proof fn lemma_identity_slice(t: Seq<ColumnModel>)
    requires
        table_wf(t),
    ensures
        spec_slice(t, 0, spec_height(t) as int) == t,
        spec_height(spec_slice(t, 0, spec_height(t) as int)) == spec_height(t),
{
    let s = spec_slice(t, 0, spec_height(t) as int);
    assert forall|i: int| 0 <= i < t.len() implies s[i] == t[i] by {
        assert(t[i].values.len() == spec_height(t));
        assert(s[i].values =~= t[i].values);
    }
    assert(s =~= t);
}

impl Clone for Table {
    /// A fresh table with the same columns; the original is untouched.
    fn clone(&self) -> (r: Self)
        ensures
            r@ == self@,
    {
        let cols = self.cols.clone();
        proof {
            assert forall|i: int| 0 <= i < cols@.len() implies (#[trigger] cols@[i])@
                == self.cols@[i]@ by {
                assert(cloned(self.cols@[i], cols@[i]));
            }
            assert(cols@.map_values(|c: Column| c@) =~= self.cols@.map_values(|c: Column| c@));
        }
        Table { cols }
    }
}

} // verus!
