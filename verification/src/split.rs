//! The train/test splitter: a pure partition of rows into a leading train
//! range and a trailing test range. The test share is a rational ratio in
//! `[0, 1]`; the test size is the row count times the ratio, rounded half
//! up; the split is deterministic and leaves its inputs untouched, so any
//! randomisation must happen before the call, by shuffling.

use vstd::prelude::*;

use vstd::arithmetic::div_mod::lemma_div_is_ordered;
use vstd::arithmetic::mul::lemma_mul_upper_bound;
use vstd::set_lib::set_int_range;

use crate::DataError;
use crate::table::ColumnModel;
use crate::table::Table;
use crate::table::Value;
use crate::table::clone_value_range;
use crate::table::spec_height;
use crate::table::spec_slice;
use crate::table::table_wf;

verus! {

/// A ratio `num / den` of the rows. Meaningful when `den > 0`; the splitter
/// accepts it only when it also lies in `[0, 1]`, that is `num <= den`.
#[derive(Clone, Copy, Debug, PartialEq, Eq, Structural)]
pub struct Ratio {
    pub num: u32,
    pub den: u32,
}

/// `n * num / den` rounded half up: the number of test rows cut from `n`.
pub open spec fn spec_test_size(n: int, num: int, den: int) -> int {
    (2 * n * num + den) / (2 * den)
}

/// What is left for training.
pub open spec fn spec_train_size(n: int, num: int, den: int) -> int {
    n - spec_test_size(n, num, den)
}

/// For a ratio in `[0, 1]` the test size lands in `[0, n]`, so the train
/// size does too.
pub proof fn lemma_test_size_bounds(n: int, num: int, den: int)
    requires
        0 <= n,
        0 < den,
        0 <= num <= den,
    ensures
        0 <= spec_test_size(n, num, den) <= n,
        0 <= spec_train_size(n, num, den) <= n,
{
    assert(2 * n * num <= 2 * n * den) by (nonlinear_arith)
        requires
            0 <= n,
            0 <= num <= den,
    ;
    assert(2 * n * den + den < 2 * den * (n + 1)) by (nonlinear_arith)
        requires
            0 < den,
    ;
    lemma_div_is_ordered(0, 2 * n * num + den, 2 * den);
    lemma_div_is_ordered(2 * n * num + den, 2 * den * (n + 1) - 1, 2 * den);
    assert((2 * den * (n + 1) - 1) / (2 * den) == n) by (nonlinear_arith)
        requires
            0 < den,
            0 <= n,
    ;
}

/// The split partitions the row indices: the sizes sum to `n`, and the two
/// contiguous index ranges are disjoint with union exactly `[0, n)`.
pub proof fn lemma_split_partition(n: int, num: int, den: int)
    requires
        0 <= n,
        0 < den,
        0 <= num <= den,
    ensures
        spec_train_size(n, num, den) + spec_test_size(n, num, den) == n,
        set_int_range(0, spec_train_size(n, num, den)).disjoint(
            set_int_range(spec_train_size(n, num, den), n),
        ),
        set_int_range(0, spec_train_size(n, num, den)).union(
            set_int_range(spec_train_size(n, num, den), n),
        ) == set_int_range(0, n),
{
    lemma_test_size_bounds(n, num, den);
    let t = spec_train_size(n, num, den);
    assert(set_int_range(0, t).disjoint(set_int_range(t, n))) by {
        assert forall|x: int| !(set_int_range(0, t).contains(x) && set_int_range(t, n).contains(
            x,
        )) by {}
    }
    assert(set_int_range(0, t).union(set_int_range(t, n)) =~= set_int_range(0, n));
}

/// Stacking the two halves of a split restores the table: for any cut
/// point within the rows, the cells of the leading slice followed by the
/// cells of the trailing slice are exactly the original cells, column by
/// column — no row lost, none duplicated, order kept. With the cut at
/// `spec_train_size`, this is the splitter's partition restated over whole
/// rows: chunks peeled off a table in turn always reassemble to it.
pub proof fn lemma_split_restores_rows(t: Seq<ColumnModel>, k: int)
    requires
        table_wf(t),
        0 <= k <= spec_height(t),
    ensures
        forall|j: int|
            0 <= j < t.len() ==> (#[trigger] spec_slice(t, 0, k)[j]).values + spec_slice(
                t,
                k,
                spec_height(t) as int - k,
            )[j].values == t[j].values,
{
    let h = spec_height(t) as int;
    assert forall|j: int|
        0 <= j < t.len() implies (#[trigger] spec_slice(t, 0, k)[j]).values + spec_slice(
        t,
        k,
        h - k,
    )[j].values == t[j].values by {
        assert(t[j].values.len() == spec_height(t));
        assert(spec_slice(t, 0, k)[j].values + spec_slice(t, k, h - k)[j].values =~= t[j].values);
    }
}

/// Splits features and target into train and test partitions: the first
/// `n - test_size` rows train, the rest test, in the rows' current order.
/// `test_size` is `n * test_ratio` rounded half up. Fails with
/// `InvalidArgument` when the ratio lies outside `[0, 1]` (or its
/// denominator is zero), or when features and target disagree on the row
/// count. Deterministic and free of side effects.
pub fn train_test_split(x: &Table, y: &Vec<Value>, test_ratio: Ratio) -> (r: Result<
    (Table, Table, Vec<Value>, Vec<Value>),
    DataError,
>)
    requires
        x.wf(),
    ensures
        match r {
            Ok((x_train, x_test, y_train, y_test)) => {
                &&& test_ratio.den > 0 && test_ratio.num <= test_ratio.den
                &&& y@.len() == spec_height(x@)
                &&& x_train@ == spec_slice(
                    x@,
                    0,
                    spec_train_size(
                        spec_height(x@) as int,
                        test_ratio.num as int,
                        test_ratio.den as int,
                    ),
                )
                &&& x_test@ == spec_slice(
                    x@,
                    spec_train_size(
                        spec_height(x@) as int,
                        test_ratio.num as int,
                        test_ratio.den as int,
                    ),
                    spec_test_size(
                        spec_height(x@) as int,
                        test_ratio.num as int,
                        test_ratio.den as int,
                    ),
                )
                &&& y_train@ == y@.subrange(
                    0,
                    spec_train_size(
                        spec_height(x@) as int,
                        test_ratio.num as int,
                        test_ratio.den as int,
                    ),
                )
                &&& y_test@ == y@.subrange(
                    spec_train_size(
                        spec_height(x@) as int,
                        test_ratio.num as int,
                        test_ratio.den as int,
                    ),
                    spec_height(x@) as int,
                )
                &&& x_train.wf() && x_test.wf()
                &&& x_train@.len() == x@.len() && x_test@.len() == x@.len()
                &&& y_train@.len() + y_test@.len() == y@.len()
            },
            Err(e) => {
                &&& e == DataError::InvalidArgument
                &&& (test_ratio.den == 0 || test_ratio.num > test_ratio.den || y@.len()
                    != spec_height(x@))
            },
        },
{
    let n = x.height();
    if test_ratio.den == 0 || test_ratio.num > test_ratio.den {
        return Err(DataError::InvalidArgument);
    }
    if y.len() != n {
        return Err(DataError::InvalidArgument);
    }
    proof {
        lemma_test_size_bounds(n as int, test_ratio.num as int, test_ratio.den as int);
        lemma_mul_upper_bound(
            2 * (n as int),
            2 * 0xFFFF_FFFF_FFFF_FFFFu64 as int,
            test_ratio.num as int,
            0xFFFF_FFFFu32 as int,
        );
    }
    let wide: u128 = (2u128 * (n as u128) * (test_ratio.num as u128) + (test_ratio.den as u128)) / (
    2u128 * (test_ratio.den as u128));
    let test_size: usize = wide as usize;
    let train_size: usize = n - test_size;
    let x_train = match x.slice(0, train_size) {
        Ok(t) => t,
        Err(_) => {
            proof {
                assert(false);
            }
            return Err(DataError::InvalidArgument);
        },
    };
    let x_test = match x.slice(train_size, test_size) {
        Ok(t) => t,
        Err(_) => {
            proof {
                assert(false);
            }
            return Err(DataError::InvalidArgument);
        },
    };
    let y_train = clone_value_range(y, 0, train_size);
    let y_test = clone_value_range(y, train_size, n);
    Ok((x_train, x_test, y_train, y_test))
}

} // verus!
