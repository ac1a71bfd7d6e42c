//! A dataset: a table tagged once, at construction, with a fresh identifier
//! and a creation timestamp. Shuffling returns a reordered copy and never
//! touches the source, so a dataset can be reused after any number of
//! derived shuffles; the feature/target separation likewise copies.

use vstd::prelude::*;

use crate::DataError;
use crate::identity::fresh_id;
use crate::identity::now_stamp;
use crate::identity::stamp_shaped;
use crate::identity::v4_bits;
use crate::rng::shuffled_indices;
use crate::rng::spec_perm;
use crate::table::ColumnModel;
use crate::table::Table;
use crate::table::Value;
use crate::table::clone_value_range;
use crate::table::spec_col_index;
use crate::table::spec_drop_col;
use crate::table::spec_gather;
use crate::table::spec_has_col;
use crate::table::spec_height;

verus! {

/// A table together with identity metadata, both assigned at construction
/// and never mutated afterwards.
#[derive(Debug)]
pub struct DataSet {
    /// The rows and columns themselves.
    pub data: Table,
    /// A random 128-bit identifier minted when the dataset was created.
    pub uuid: u128,
    /// The local wall-clock time of creation, as "%d-%m-%y-%H".
    pub timestamp: String,
}

/// The table `t` reordered by the permutation that `seed` determines over
/// its rows: what a seeded shuffle of a dataset over `t` holds.
pub open spec fn spec_shuffled(t: Seq<ColumnModel>, seed: u64) -> Seq<ColumnModel> {
    spec_gather(t, spec_perm(spec_height(t), seed))
}

impl DataSet {
    /// The dataset invariant: its table's own.
    pub open spec fn wf(&self) -> bool {
        self.data.wf()
    }

    /// Wraps a table with a fresh identity: a random identifier and the
    /// current timestamp, assigned here and nowhere else. The identifier
    /// carries the version-four bit pattern and the timestamp the
    /// day-month-year-hour shape; their actual values come from the random
    /// source and the clock, of which nothing further can be said.
    pub fn new(data: Table) -> (r: DataSet)
        requires
            data.wf(),
        ensures
            r.data == data,
            r.wf(),
            v4_bits(r.uuid),
            stamp_shaped(r.timestamp@),
    {
        let uuid = fresh_id();
        let timestamp = now_stamp();
        DataSet { data, uuid, timestamp }
    }

    /// Returns a fresh dataset whose rows are this one's, reordered by the
    /// permutation that `seed` determines. The same source rows and the same
    /// seed always give the same row order; the source is never changed.
    pub fn shuffle_seeded(&self, seed: u64) -> (r: DataSet)
        requires
            self.wf(),
        ensures
            r.data@ == spec_shuffled(self.data@, seed),
            r.wf(),
            r.data@.len() == self.data@.len(),
            self.data@.len() > 0 ==> spec_height(r.data@) == spec_height(self.data@),
    {
        let n = self.data.height();
        let idx = shuffled_indices(n, seed);
        let table = self.data.gather(&idx);
        DataSet::new(table)
    }

    /// Returns a fresh dataset whose rows are this one's in an order drawn
    /// from the process-wide random source: some seed-determined shuffle,
    /// with the seed picked at random for this call alone.
    pub fn shuffle(&self) -> (r: DataSet)
        requires
            self.wf(),
        ensures
            exists|seed: u64| r.data@ == spec_shuffled(self.data@, seed),
            r.wf(),
            r.data@.len() == self.data@.len(),
            self.data@.len() > 0 ==> spec_height(r.data@) == spec_height(self.data@),
    {
        let draw = fresh_id();
        let seed = (draw % 0x1_0000_0000_0000_0000u128) as u64;
        let r = self.shuffle_seeded(seed);
        proof {
            assert(r.data@ == spec_shuffled(self.data@, seed));
        }
        r
    }

    /// Separates the named target column from the features: a table without
    /// that column, and the column's cells, both in the original row order
    /// and with the original row count. Fails with `NotFound` when no column
    /// bears the name. When the target was the only column, the feature
    /// half has no columns left, and its height therefore reads as zero.
    pub fn split_feature_target(&self, target_column: &str) -> (r: Result<
        (Table, Vec<Value>),
        DataError,
    >)
        requires
            self.wf(),
        ensures
            match r {
                Ok((x, y)) => {
                    &&& spec_has_col(self.data@, target_column@)
                    &&& x@ == spec_drop_col(self.data@, target_column@)
                    &&& x.wf()
                    &&& x@.len() == self.data@.len() - 1
                    &&& x@.len() > 0 ==> spec_height(x@) == spec_height(self.data@)
                    &&& y@.map_values(|v: Value| v@) == self.data@[spec_col_index(
                        self.data@,
                        target_column@,
                    )].values
                    &&& y@.len() == spec_height(self.data@)
                },
                Err(e) => e == DataError::NotFound && !spec_has_col(self.data@, target_column@),
            },
    {
        let y_ref = match self.data.column(target_column) {
            Ok(v) => v,
            Err(e) => {
                return Err(e);
            },
        };
        let y = clone_value_range(y_ref, 0, y_ref.len());
        proof {
            assert(y@ =~= y_ref@);
            assert(self.data@[spec_col_index(self.data@, target_column@)].values.len()
                == spec_height(self.data@));
        }
        match self.data.drop(target_column) {
            Ok(x) => Ok((x, y)),
            Err(_) => {
                proof {
                    assert(false);
                }
                Err(DataError::NotFound)
            },
        }
    }
}

/// Seeded shuffling is deterministic: shuffled independently with the same
/// seed, two datasets holding the same columns and rows come out with the
/// same columns and rows — in particular, the same row order.
pub proof fn lemma_shuffle_seeded_deterministic(
    a: Seq<ColumnModel>,
    b: Seq<ColumnModel>,
    seed: u64,
)
    requires
        a == b,
    ensures
        spec_shuffled(a, seed) == spec_shuffled(b, seed),
{
}

} // verus!
