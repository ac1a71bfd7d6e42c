//! Deterministic row permutations. A small SplitMix-style generator expands a
//! 64-bit seed into a stream of words; a Fisher-Yates walk draws swap
//! positions from that stream by bounded rejection — so the draws are
//! unbiased unless a run of words is rejected to the fuel limit — and turns
//! it into a permutation of `[0, n)`. The whole construction is a pure
//! function of the seed, which is what makes seeded shuffles reproducible.

use vstd::prelude::*;
use vstd::seq_lib::*;
use vstd::set_lib::lemma_int_range;
use vstd::set_lib::lemma_subset_equality;
use vstd::set_lib::set_int_range;
use vstd::wrapping::u64_specs;

verus! {

/// SplitMix increment.
pub const RNG_GAMMA: u64 = 0x9E3779B97F4A7C15;

/// First output-mixing multiplier.
pub const RNG_MIX_A: u64 = 0xBF58476D1CE4E5B9;

/// Second output-mixing multiplier.
pub const RNG_MIX_B: u64 = 0x94D049BB133111EB;

/// The generator state that follows `s`.
pub open spec fn spec_rng_next_state(s: u64) -> u64 {
    u64_specs::wrapping_add(s, RNG_GAMMA)
}

/// The word the generator derives from state `s`.
pub open spec fn spec_rng_output(s: u64) -> u64 {
    let a = u64_specs::wrapping_mul(s ^ (s >> 30), RNG_MIX_A);
    let b = u64_specs::wrapping_mul(a ^ (a >> 27), RNG_MIX_B);
    b ^ (b >> 31)
}

/// Advances the generator once: the new state and the word it yields.
pub fn rng_step(state: u64) -> (r: (u64, u64))
    ensures
        r.0 == spec_rng_next_state(state),
        r.1 == spec_rng_output(r.0),
{
    let s = state.wrapping_add(RNG_GAMMA);
    let a = (s ^ (s >> 30u64)).wrapping_mul(RNG_MIX_A);
    let b = (a ^ (a >> 27u64)).wrapping_mul(RNG_MIX_B);
    (s, b ^ (b >> 31u64))
}

/// The identity permutation `[0, 1, ..., n - 1]`.
pub open spec fn spec_identity_perm(n: nat) -> Seq<usize> {
    Seq::new(n, |i: int| i as usize)
}

/// How many rejected words a bounded-rejection draw tolerates before it
/// falls back to a plain remainder.
pub const DRAW_TRIES: u64 = 16;

/// The lowest word a draw below `bound` rejects: the words below this
/// limit spread evenly over the remainders `0..bound`, while the few at or
/// above it would favour the low remainders.
pub open spec fn spec_accept_limit(bound: u64) -> int {
    0x1_0000_0000_0000_0000 - (0x1_0000_0000_0000_0000int % (bound as int))
}

/// One bounded-rejection draw of an index below `bound`: the generator is
/// stepped and the word kept when it falls below the acceptance limit —
/// where remainders are unbiased — or drawn again, up to `fuel` times;
/// with the fuel spent, the last word's remainder is taken regardless, so
/// the draw always ends. The result: the new generator state and the index.
pub open spec fn spec_draw_index(s: u64, bound: u64, fuel: nat) -> (u64, u64)
    recommends
        bound > 0,
    decreases fuel,
{
    let s2 = spec_rng_next_state(s);
    let out = spec_rng_output(s2);
    if fuel == 0 || (out as int) < spec_accept_limit(bound) {
        (s2, ((out as int) % (bound as int)) as u64)
    } else {
        spec_draw_index(s2, bound, (fuel - 1) as nat)
    }
}

/// A draw stays below its bound.
pub proof fn lemma_draw_index_bound(s: u64, bound: u64, fuel: nat)
    requires
        bound > 0,
    ensures
        (spec_draw_index(s, bound, fuel).1 as int) < bound as int,
    decreases fuel,
{
    let s2 = spec_rng_next_state(s);
    let out = spec_rng_output(s2);
    if fuel == 0 || (out as int) < spec_accept_limit(bound) {
        assert(0 <= (out as int) % (bound as int) < bound as int);
    } else {
        lemma_draw_index_bound(s2, bound, (fuel - 1) as nat);
    }
}

/// Draws an index below `bound` by bounded rejection, exactly as
/// `spec_draw_index` describes.
pub fn draw_index(state: u64, bound: u64) -> (r: (u64, u64))
    requires
        bound > 0,
    ensures
        r == spec_draw_index(state, bound, DRAW_TRIES as nat),
        r.1 < bound,
{
    proof {
        lemma_draw_index_bound(state, bound, DRAW_TRIES as nat);
    }
    let limit_rem: u64 = (0x1_0000_0000_0000_0000u128 % (bound as u128)) as u64;
    let mut s: u64 = state;
    let mut fuel: u64 = DRAW_TRIES;
    loop
        invariant
            bound > 0,
            fuel <= DRAW_TRIES,
            limit_rem as int == 0x1_0000_0000_0000_0000int % (bound as int),
            spec_draw_index(state, bound, DRAW_TRIES as nat) == spec_draw_index(
                s,
                bound,
                fuel as nat,
            ),
        decreases fuel,
    {
        let (s2, out) = rng_step(s);
        if fuel == 0 || out <= u64::MAX - limit_rem {
            proof {
                assert((out <= u64::MAX - limit_rem) == ((out as int) < spec_accept_limit(bound)));
            }
            return (s2, out % bound);
        }
        s = s2;
        fuel = fuel - 1;
    }
}

/// The Fisher-Yates walk: with positions `i, i - 1, ..., 1` still to visit
/// and generator state `s`, each step draws a position `j <= i` by bounded
/// rejection, swaps positions `i` and `j`, and moves down.
pub open spec fn spec_fisher_yates(v: Seq<usize>, s: u64, i: int) -> Seq<usize>
    decreases i,
{
    if i <= 0 {
        v
    } else {
        let d = spec_draw_index(s, (i + 1) as u64, DRAW_TRIES as nat);
        let s2 = d.0;
        let j = d.1 as int;
        spec_fisher_yates(v.update(i, v[j]).update(j, v[i]), s2, i - 1)
    }
}

/// The permutation of `[0, n)` that `seed` determines.
pub open spec fn spec_perm(n: nat, seed: u64) -> Seq<usize> {
    spec_fisher_yates(spec_identity_perm(n), seed, n as int - 1)
}

/// `p` lists each row index below `n` exactly once.
pub open spec fn is_permutation(p: Seq<usize>, n: nat) -> bool {
    &&& p.len() == n
    &&& forall|k: int| 0 <= k < p.len() ==> (#[trigger] p[k]) < n
    &&& p.no_duplicates()
}

/// A Fisher-Yates walk only rearranges: whatever permutation it starts from,
/// it ends in a permutation.
pub proof fn lemma_fisher_yates_permutation(v: Seq<usize>, s: u64, i: int, n: nat)
    requires
        is_permutation(v, n),
        i < v.len(),
        i + 1 <= u64::MAX,
    ensures
        is_permutation(spec_fisher_yates(v, s, i), n),
    decreases i,
{
    if i > 0 {
        let d = spec_draw_index(s, (i + 1) as u64, DRAW_TRIES as nat);
        let s2 = d.0;
        let j = d.1 as int;
        lemma_draw_index_bound(s, (i + 1) as u64, DRAW_TRIES as nat);
        let w = v.update(i, v[j]).update(j, v[i]);
        assert(0 <= j <= i);
        assert forall|a: int, b: int| 0 <= a < b < w.len() implies w[a] != w[b] by {
            assert(v[a] != v[b]);
        }
        assert(is_permutation(w, n));
        lemma_fisher_yates_permutation(w, s2, i - 1, n);
    }
}

/// The seed-determined permutation really is one.
pub proof fn lemma_spec_perm_is_permutation(n: nat, seed: u64)
    requires
        n <= usize::MAX,
    ensures
        is_permutation(spec_perm(n, seed), n),
{
    let id = spec_identity_perm(n);
    assert forall|a: int, b: int| 0 <= a < b < id.len() implies id[a] != id[b] by {}
    assert(is_permutation(id, n));
    if n > 0 {
        lemma_fisher_yates_permutation(id, seed, n as int - 1, n);
    }
}

/// A permutation of `[0, n)` holds every index below `n`, each exactly once.
pub proof fn lemma_permutation_covers(p: Seq<usize>, n: nat)
    requires
        is_permutation(p, n),
    ensures
        forall|r: usize| r < n ==> p.contains(r),
        forall|r: usize| r < n ==> p.to_multiset().count(r) == 1,
{
    let f = |x: usize| x as int;
    let m = p.map_values(f);
    p.lemma_no_duplicates_injective(f);
    m.unique_seq_to_set();
    let range = set_int_range(0, n as int);
    lemma_int_range(0, n as int);
    assert forall|x: int| m.to_set().contains(x) implies range.contains(x) by {
        let k = choose|k: int| 0 <= k < m.len() && m[k] == x;
        assert(p[k] < n);
    }
    vstd::set_lib::lemma_len_subset(m.to_set(), range);
    lemma_subset_equality(m.to_set(), range);
    assert(m.to_set() =~= range);
    assert forall|r: usize| r < n implies p.contains(r) by {
        assert(range.contains(r as int));
        assert(m.to_set().contains(r as int));
        assert(m.contains(r as int));
        let k = choose|k: int| 0 <= k < m.len() && m[k] == r as int;
        assert(p[k] == r);
    }
    p.lemma_multiset_has_no_duplicates();
    assert forall|r: usize| r < n implies p.to_multiset().count(r) == 1 by {
        assert(p.contains(r));
        let k = choose|k: int| 0 <= k < p.len() && p[k] == r;
        broadcast use vstd::seq_lib::group_to_multiset_ensures;

        assert(p.to_multiset().count(r) > 0);
        assert(p.to_multiset().contains(r));
    }
}

/// Builds the identity permutation `[0, 1, ..., n - 1]`.
pub fn identity_indices(n: usize) -> (idx: Vec<usize>)
    ensures
        idx@ == spec_identity_perm(n as nat),
        is_permutation(idx@, n as nat),
{
    let mut v: Vec<usize> = Vec::new();
    let mut k: usize = 0;
    while k < n
        invariant
            k <= n,
            v@ == spec_identity_perm(k as nat),
        decreases n - k,
    {
        v.push(k);
        proof {
            assert(v@ =~= spec_identity_perm((k + 1) as nat));
        }
        k += 1;
    }
    proof {
        assert forall|a: int, b: int| 0 <= a < b < v@.len() implies v@[a] != v@[b] by {}
    }
    v
}

/// Builds the permutation of `[0, n)` that `seed` determines: the identity
/// order rearranged by a seeded Fisher-Yates walk. The same `n` and `seed`
/// always yield the same permutation.
pub fn shuffled_indices(n: usize, seed: u64) -> (idx: Vec<usize>)
    ensures
        idx@ == spec_perm(n as nat, seed),
        is_permutation(idx@, n as nat),
{
    let mut v: Vec<usize> = identity_indices(n);
    proof {
        lemma_spec_perm_is_permutation(n as nat, seed);
    }
    if n == 0 {
        return v;
    }
    let mut s: u64 = seed;
    let mut i: usize = n - 1;
    while i > 0
        invariant
            i < n,
            v@.len() == n,
            spec_fisher_yates(v@, s, i as int) == spec_perm(n as nat, seed),
        decreases i,
    {
        let (s2, j64) = draw_index(s, i as u64 + 1);
        let j: usize = j64 as usize;
        proof {
            assert((i as u64 + 1) as int == i as int + 1);
            assert(j64 < i as u64 + 1);
        }
        let vi = v[i];
        let vj = v[j];
        let ghost pre = v@;
        v.set(i, vj);
        v.set(j, vi);
        proof {
            assert(v@ == pre.update(i as int, pre[j as int]).update(j as int, pre[i as int]));
            assert(spec_fisher_yates(pre, s, i as int) == spec_fisher_yates(v@, s2, i as int - 1));
        }
        s = s2;
        i -= 1;
    }
    proof {
        assert(spec_fisher_yates(v@, s, 0) == v@);
    }
    v
}

} // verus!
