//! The batch loader: a stateful iterator that walks a dataset in fixed-size
//! batches along a row permutation. One full pass — a session, tagged by a
//! random session identifier — hands out every row exactly once, in
//! contiguous pieces of the permutation; after the last piece the loader is
//! exhausted and yields nothing until `restart`, the sole way a new pass
//! (with a fresh permutation and a fresh session identifier) begins.

use vstd::prelude::*;

use vstd::arithmetic::div_mod::lemma_mod_multiples_vanish;
use vstd::math::min;

use crate::DataError;
use crate::dataset::DataSet;
use crate::identity::fresh_id;
use crate::identity::v4_bits;
use crate::rng::identity_indices;
use crate::rng::is_permutation;
use crate::rng::lemma_permutation_covers;
use crate::rng::shuffled_indices;
use crate::rng::spec_identity_perm;
use crate::rng::spec_perm;
use crate::table::Table;
use crate::table::spec_gather;
use crate::table::spec_height;

verus! {

/// A stateful batch iterator over a dataset.
#[derive(Debug)]
pub struct DataLoader {
    /// The dataset walked; owned by the loader and never reordered in place.
    pub dataset: DataSet,
    /// Rows per batch; always positive.
    pub batch_size: usize,
    /// Whether each pass walks a freshly shuffled permutation, or always the
    /// identity order.
    pub shuffle: bool,
    /// The row permutation of the current pass.
    pub indices: Vec<usize>,
    /// How many rows of the permutation earlier batches of this pass took.
    pub cursor: usize,
    /// A random identifier minted for the current pass.
    pub session_id: u128,
}

/// Where the batch starting at `cursor` ends: `batch_size` further on, or at
/// the end of the pass, whichever comes first.
pub open spec fn spec_batch_end(cursor: int, batch_size: int, n: int) -> int {
    if cursor + batch_size <= n {
        cursor + batch_size
    } else {
        n
    }
}

impl DataLoader {
    /// The rows of one full pass.
    pub open spec fn n(&self) -> nat {
        spec_height(self.dataset.data@)
    }

    /// The loader invariant: a well-formed dataset, a positive batch size, a
    /// permutation of exactly the dataset's rows, and a cursor within it.
    pub open spec fn wf(&self) -> bool {
        &&& self.dataset.wf()
        &&& self.batch_size > 0
        &&& is_permutation(self.indices@, self.n())
        &&& self.cursor <= self.n()
    }

    /// The pass is complete: every row has been handed out.
    pub open spec fn exhausted(&self) -> bool {
        self.cursor == self.n()
    }

    /// Builds a loader over `dataset`, ready at the start of its first pass:
    /// the cursor at zero, a fresh session identifier, and the permutation
    /// either the identity order or, with `shuffle`, a randomly seeded
    /// shuffle of it. Fails with `InvalidArgument` exactly when `batch_size`
    /// is zero.
    pub fn new(dataset: DataSet, batch_size: usize, shuffle: bool) -> (r: Result<
        DataLoader,
        DataError,
    >)
        requires
            dataset.wf(),
        ensures
            match r {
                Ok(l) => {
                    &&& batch_size > 0
                    &&& l.wf()
                    &&& l.dataset.data@ == dataset.data@
                    &&& l.batch_size == batch_size
                    &&& l.shuffle == shuffle
                    &&& l.cursor == 0
                    &&& (!shuffle ==> l.indices@ == spec_identity_perm(
                        spec_height(dataset.data@),
                    ))
                    &&& (shuffle ==> exists|seed: u64|
                        l.indices@ == spec_perm(spec_height(dataset.data@), seed))
                    &&& v4_bits(l.session_id)
                },
                Err(e) => e == DataError::InvalidArgument && batch_size == 0,
            },
    {
        if batch_size == 0 {
            return Err(DataError::InvalidArgument);
        }
        let n = dataset.data.height();
        let indices: Vec<usize> = if shuffle {
            let draw = fresh_id();
            let seed = (draw % 0x1_0000_0000_0000_0000u128) as u64;
            let idx = shuffled_indices(n, seed);
            proof {
                assert(idx@ == spec_perm(spec_height(dataset.data@), seed));
            }
            idx
        } else {
            identity_indices(n)
        };
        let session_id = fresh_id();
        Ok(DataLoader { dataset, batch_size, shuffle, indices, cursor: 0, session_id })
    }

    /// In the Ready state, hands out the next batch: the rows of the current
    /// permutation from the cursor up to `batch_size` further on (or the end
    /// of the pass, so the final batch of a pass may be smaller), and moves
    /// the cursor past them. In the Exhausted state, leaves everything as it
    /// is and returns `None`; the loader never restarts on its own.
    pub fn next_batch(&mut self) -> (r: Option<Table>)
        requires
            old(self).wf(),
        ensures
            final(self).wf(),
            final(self).dataset.data@ == old(self).dataset.data@,
            final(self).batch_size == old(self).batch_size,
            final(self).shuffle == old(self).shuffle,
            final(self).indices@ == old(self).indices@,
            final(self).session_id == old(self).session_id,
            match r {
                None => old(self).exhausted() && final(self).cursor == old(self).cursor,
                Some(b) => {
                    &&& !old(self).exhausted()
                    &&& final(self).cursor == spec_batch_end(
                        old(self).cursor as int,
                        old(self).batch_size as int,
                        old(self).n() as int,
                    )
                    &&& b@ == spec_gather(
                        old(self).dataset.data@,
                        old(self).indices@.subrange(
                            old(self).cursor as int,
                            final(self).cursor as int,
                        ),
                    )
                    &&& b.wf()
                    &&& b@.len() == old(self).dataset.data@.len()
                    &&& (old(self).dataset.data@.len() > 0 ==> spec_height(b@)
                        == final(self).cursor - old(self).cursor)
                },
            },
    {
        let n = self.dataset.data.height();
        if self.cursor >= n {
            return None;
        }
        let remaining = n - self.cursor;
        let end = if self.batch_size < remaining {
            self.cursor + self.batch_size
        } else {
            n
        };
        let piece = copy_index_range(&self.indices, self.cursor, end);
        proof {
            assert forall|k: int| 0 <= k < piece@.len() implies (#[trigger] piece@[k])
                < spec_height(self.dataset.data@) by {
                assert(piece@[k] == self.indices@[self.cursor + k]);
            }
        }
        let batch = self.dataset.data.gather(&piece);
        self.cursor = end;
        Some(batch)
    }

    /// Begins a new pass: the permutation is regenerated (freshly shuffled
    /// when `shuffle` is set, the identity order otherwise), the cursor
    /// returns to zero, and a new random session identifier is minted for
    /// the pass. This is the only way iteration resumes after exhaustion.
    pub fn restart(&mut self)
        requires
            old(self).wf(),
        ensures
            final(self).wf(),
            final(self).dataset.data@ == old(self).dataset.data@,
            final(self).batch_size == old(self).batch_size,
            final(self).shuffle == old(self).shuffle,
            final(self).cursor == 0,
            (!old(self).shuffle ==> final(self).indices@ == spec_identity_perm(old(self).n())),
            (old(self).shuffle ==> exists|seed: u64|
                final(self).indices@ == spec_perm(old(self).n(), seed)),
            v4_bits(final(self).session_id),
    {
        let n = self.dataset.data.height();
        if self.shuffle {
            let draw = fresh_id();
            let seed = (draw % 0x1_0000_0000_0000_0000u128) as u64;
            let idx = shuffled_indices(n, seed);
            proof {
                assert(idx@ == spec_perm(old(self).n(), seed));
            }
            self.indices = idx;
        } else {
            self.indices = identity_indices(n);
        }
        self.cursor = 0;
        self.session_id = fresh_id();
    }
}

/// Copies the entries of `v` at positions `[start, end)`.
fn copy_index_range(v: &Vec<usize>, start: usize, end: usize) -> (r: Vec<usize>)
    requires
        start <= end <= v@.len(),
    ensures
        r@ == v@.subrange(start as int, end as int),
{
    let mut r: Vec<usize> = Vec::new();
    let mut i: usize = start;
    while i < end
        invariant
            start <= i <= end <= v@.len(),
            r@ == v@.subrange(start as int, i as int),
        decreases end - i,
    {
        r.push(v[i]);
        proof {
            assert(r@ =~= v@.subrange(start as int, i as int + 1));
        }
        i += 1;
    }
    r
}

/// The row indices of the `k`-th batch of a pass: the contiguous piece of
/// the permutation `p` from `k * b`, clipped to the end of the pass.
pub open spec fn spec_batch(p: Seq<usize>, b: int, k: int) -> Seq<usize> {
    p.subrange(min(k * b, p.len() as int), min((k + 1) * b, p.len() as int))
}

/// The first `k` batches of a pass, in order.
pub open spec fn spec_batches_prefix(p: Seq<usize>, b: int, k: int) -> Seq<usize>
    decreases k,
{
    if k <= 0 {
        Seq::empty()
    } else {
        spec_batches_prefix(p, b, k - 1) + spec_batch(p, b, k - 1)
    }
}

/// The first `k` batches of a pass, joined, are exactly the first
/// `min(k * b, n)` entries of the permutation: batches are contiguous, in
/// order, and never skip or repeat a position.
pub proof fn lemma_batches_prefix_is_prefix(p: Seq<usize>, b: int, k: int)
    requires
        b > 0,
        k >= 0,
    ensures
        spec_batches_prefix(p, b, k) == p.subrange(0, min(k * b, p.len() as int)),
    decreases k,
{
    if k == 0 {
        assert(spec_batches_prefix(p, b, 0) =~= p.subrange(0, 0));
    } else {
        lemma_batches_prefix_is_prefix(p, b, k - 1);
        assert((k - 1) * b == k * b - b) by (nonlinear_arith);
        assert(k * b >= b > 0) by (nonlinear_arith)
            requires
                b > 0,
                k >= 1,
        ;
        let m1 = min((k - 1) * b, p.len() as int);
        let m2 = min(k * b, p.len() as int);
        assert(spec_batches_prefix(p, b, k) =~= p.subrange(0, m2));
    }
}

/// One full pass covers everything exactly once: as soon as `k` batches
/// reach past the last row, their union is the whole permutation, and so
/// every row index below `n` occurs in exactly one batch, exactly once.
pub proof fn lemma_pass_covers(p: Seq<usize>, n: nat, b: int, k: int)
    requires
        is_permutation(p, n),
        b > 0,
        k >= 0,
        k * b >= n,
    ensures
        spec_batches_prefix(p, b, k) == p,
        forall|r: usize| r < n ==> spec_batches_prefix(p, b, k).to_multiset().count(r) == 1,
        forall|r: usize| r < n ==> spec_batches_prefix(p, b, k).contains(r),
{
    lemma_batches_prefix_is_prefix(p, b, k);
    assert(spec_batches_prefix(p, b, k) =~= p);
    lemma_permutation_covers(p, n);
}

/// Every batch of a pass holds exactly `b` rows, except the last non-empty
/// one, which holds `n % b` rows — or `b` when `b` divides `n`.
pub proof fn lemma_batch_sizes(p: Seq<usize>, n: nat, b: int, k: int)
    requires
        is_permutation(p, n),
        b > 0,
        k >= 0,
        k * b < n,
    ensures
        (k + 1) * b <= n ==> spec_batch(p, b, k).len() == b,
        (k + 1) * b > n ==> spec_batch(p, b, k).len() == n - k * b,
        ((k + 1) * b > n && n as int % b == 0) ==> spec_batch(p, b, k).len() == b,
        ((k + 1) * b > n && n as int % b != 0) ==> spec_batch(p, b, k).len() == n as int % b,
{
    assert((k + 1) * b == k * b + b) by (nonlinear_arith);
    if (k + 1) * b > n {
        let r0 = n as int - k * b;
        lemma_mod_multiples_vanish(k, r0, b);
        assert(b * k + r0 == n as int) by (nonlinear_arith)
            requires
                r0 == n as int - k * b,
        ;
        assert(n as int % b == r0 % b);
        if n as int - k * b == b {
            assert((n as int - k * b) % b == 0) by (nonlinear_arith)
                requires
                    n as int - k * b == b,
                    b > 0,
            ;
        } else {
            assert((n as int - k * b) % b == n as int - k * b) by (nonlinear_arith)
                requires
                    0 < n as int - k * b < b,
                    b > 0,
            ;
        }
    }
}

} // verus!
