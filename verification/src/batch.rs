//! The batch packer: groups an ordered sequence into runs of a bounded size,
//! preserving order within and across runs.  The same grouping describes how
//! a byte stream is cut into extents, so the splitter shares these
//! definitions.

use vstd::prelude::*;
use vstd::arithmetic::div_mod::lemma_basic_div;
use vstd::arithmetic::div_mod::lemma_div_plus_one;

verus! {

/// Cuts `s` into consecutive runs of `sz` elements; the last run is shorter
/// when `sz` does not divide the length, and an empty `s` has no runs.
pub open spec fn spec_chunks<T>(s: Seq<T>, sz: nat) -> Seq<Seq<T>>
    decreases s.len(),
    when sz > 0
{
    if s.len() == 0 {
        Seq::empty()
    } else if s.len() <= sz {
        seq![s]
    } else {
        seq![s.take(sz as int)] + spec_chunks(s.skip(sz as int), sz)
    }
}

/// `n / d`, rounded up.
pub open spec fn spec_ceil_div(n: nat, d: nat) -> nat {
    ((n + d - 1) / d as int) as nat
}

/// Concatenating the runs gives the sequence back: the round trip of
/// splitting and reassembling is the identity.
pub proof fn lemma_chunks_flatten<T>(s: Seq<T>, sz: nat)
    requires
        sz > 0,
    ensures
        spec_chunks(s, sz).flatten() == s,
    decreases s.len(),
{
    if s.len() == 0 {
        assert(spec_chunks(s, sz).flatten() =~= s);
    } else if s.len() <= sz {
        assert(seq![s].drop_first() =~= Seq::<Seq<T>>::empty());
        assert(Seq::<Seq<T>>::empty().flatten() == Seq::<T>::empty());
        assert(seq![s][0] == s);
        assert(s + Seq::<T>::empty() =~= s);
        assert(spec_chunks(s, sz).flatten() =~= s);
    } else {
        let head = s.take(sz as int);
        let tail = s.skip(sz as int);
        lemma_chunks_flatten(tail, sz);
        let c = seq![head] + spec_chunks(tail, sz);
        assert(c.drop_first() =~= spec_chunks(tail, sz));
        assert(c[0] == head);
        assert(c.flatten() == head + spec_chunks(tail, sz).flatten());
        assert(head + tail =~= s);
    }
}

/// There are exactly `ceil(len / sz)` runs.
pub proof fn lemma_chunks_count<T>(s: Seq<T>, sz: nat)
    requires
        sz > 0,
    ensures
        spec_chunks(s, sz).len() == spec_ceil_div(s.len(), sz),
    decreases s.len(),
{
    let n = s.len() as int;
    let d = sz as int;
    if s.len() == 0 {
        lemma_basic_div(n + d - 1, d);
    } else if s.len() <= sz {
        lemma_basic_div(n - 1, d);
        lemma_div_plus_one(n - 1, d);
    } else {
        lemma_chunks_count(s.skip(sz as int), sz);
        lemma_div_plus_one(n - d + d - 1 - d, d);
        assert(1 + (n - d + d - 1) / d == (d + (n - d + d - 1)) / d) by {
            lemma_div_plus_one(n - d + d - 1, d);
        }
    }
}

/// Each run holds at most `sz` elements, and every run but the last holds
/// exactly `sz`.
pub proof fn lemma_chunks_sizes<T>(s: Seq<T>, sz: nat)
    requires
        sz > 0,
    ensures
        forall|k: int|
            0 <= k < spec_chunks(s, sz).len() ==> #[trigger] spec_chunks(s, sz)[k].len() <= sz,
        forall|k: int|
            0 <= k < spec_chunks(s, sz).len() - 1 ==> #[trigger] spec_chunks(s, sz)[k].len()
                == sz,
    decreases s.len(),
{
    if s.len() == 0 {
    } else if s.len() <= sz {
    } else {
        lemma_chunks_sizes(s.skip(sz as int), sz);
        let c = spec_chunks(s, sz);
        let rest = spec_chunks(s.skip(sz as int), sz);
        assert forall|k: int| 0 <= k < c.len() implies #[trigger] c[k].len() <= sz by {
            if k > 0 {
                assert(c[k] == rest[k - 1]);
            }
        }
        assert forall|k: int| 0 <= k < c.len() - 1 implies #[trigger] c[k].len() == sz by {
            if k > 0 {
                assert(c[k] == rest[k - 1]);
            }
        }
    }
}

/// `n / d`, rounded up, without intermediate overflow.
pub fn ceil_div(n: u64, d: u64) -> (r: u64)
    requires
        d > 0,
    ensures
        r == spec_ceil_div(n as nat, d as nat),
{
    let q = n / d;
    let rem = n % d;
    proof {
        let ni = n as int;
        let di = d as int;
        if rem == 0 {
            if n > 0 {
                assert(ni == di * (ni / di)) by {
                    vstd::arithmetic::div_mod::lemma_fundamental_div_mod(ni, di);
                }
                lemma_basic_div(di - 1, di);
                assert((ni + di - 1) / di == ni / di) by {
                    vstd::arithmetic::div_mod::lemma_hoist_over_denominator(
                        di - 1,
                        ni / di,
                        d as nat,
                    );
                    assert(di - 1 + (ni / di) * di == ni + di - 1);
                }
            } else {
                lemma_basic_div(di - 1, di);
            }
        } else {
            assert(ni == di * (ni / di) + ni % di) by {
                vstd::arithmetic::div_mod::lemma_fundamental_div_mod(ni, di);
            }
            assert(di * (ni / di) >= ni / di) by (nonlinear_arith)
                requires
                    di >= 1,
                    ni / di >= 0,
            ;
            assert(q < u64::MAX);
            assert(ni + di - 1 == di * (ni / di) + (ni % di - 1) + di);
            assert((ni + di - 1) / di == ni / di + 1) by {
                vstd::arithmetic::div_mod::lemma_hoist_over_denominator(
                    ni % di - 1 + di,
                    ni / di,
                    d as nat,
                );
                lemma_div_plus_one(ni % di - 1, di);
                lemma_basic_div(ni % di - 1, di);
            }
        }
    }
    if rem == 0 {
        q
    } else {
        q + 1
    }
}

/// Groups `items` into batches of at most `limit`, in order: batch `k` holds
/// the items `k * limit ..`, so order is preserved within and across batches.
pub fn pack_batches<T>(items: Vec<T>, limit: usize) -> (r: Vec<Vec<T>>)
    requires
        limit > 0,
    ensures
        r@.map_values(|b: Vec<T>| b@) == spec_chunks(items@, limit as nat),
{
    let ghost orig = items@;
    let mut rem = items;
    let mut out: Vec<Vec<T>> = Vec::new();
    proof {
        assert(out@.map_values(|b: Vec<T>| b@) + spec_chunks(rem@, limit as nat) =~= spec_chunks(
            orig,
            limit as nat,
        ));
    }
    while rem.len() > 0
        invariant
            limit > 0,
            out@.map_values(|b: Vec<T>| b@) + spec_chunks(rem@, limit as nat) == spec_chunks(
                orig,
                limit as nat,
            ),
        decreases rem.len(),
    {
        let ghost rem0 = rem@;
        let take_n = if rem.len() > limit {
            limit
        } else {
            rem.len()
        };
        let mut batch: Vec<T> = Vec::new();
        let mut j: usize = 0;
        while j < take_n
            invariant
                0 <= j <= take_n,
                take_n <= rem0.len(),
                batch@.len() == j,
                batch@ + rem@ == rem0,
        decreases take_n - j,
        {
            let x = rem.remove(0);
            batch.push(x);
            j += 1;
            proof {
                assert(batch@ + rem@ =~= rem0);
            }
        }
        proof {
            assert(batch@ =~= rem0.take(take_n as int));
            assert(rem@ =~= rem0.skip(take_n as int));
            if rem0.len() <= limit {
                assert(rem@.len() == 0);
                assert(batch@ =~= rem0);
                assert(spec_chunks(rem0, limit as nat) =~= seq![rem0]);
            } else {
                assert(spec_chunks(rem0, limit as nat) == seq![rem0.take(limit as int)]
                    + spec_chunks(rem0.skip(limit as int), limit as nat));
            }
        }
        let ghost out_before = out@;
        out.push(batch);
        proof {
            assert(out@.map_values(|b: Vec<T>| b@) =~= out_before.map_values(|b: Vec<T>| b@)
                + seq![batch@]);
            assert(out@.map_values(|b: Vec<T>| b@) + spec_chunks(rem@, limit as nat)
                =~= spec_chunks(orig, limit as nat));
        }
    }
    proof {
        assert(spec_chunks(rem@, limit as nat) =~= Seq::<Seq<T>>::empty());
        assert(out@.map_values(|b: Vec<T>| b@) =~= spec_chunks(orig, limit as nat));
    }
    out
}

} // verus!
