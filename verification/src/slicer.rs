//! The chunked slice producer: a finite, forward-only sequence of
//! bounded-depth spans along the outer axis of one dataset.

use vstd::prelude::*;

verus! {

use crate::config::Config;
use crate::naming::dataset_path_chars;
use vstd::arithmetic::div_mod::lemma_fundamental_div_mod;
use vstd::arithmetic::div_mod::lemma_fundamental_div_mod_converse;
use vstd::arithmetic::mul::lemma_mul_inequality;
use vstd::arithmetic::mul::lemma_mul_is_distributive_sub_other_way;
use vstd::arithmetic::mul::lemma_mul_basics;

/// Ceiling of `extent / k`: how many chunks of depth at most `k` cover
/// `extent` planes.
pub open spec fn num_chunks(extent: nat, k: nat) -> nat
    recommends
        k > 0,
{
    (((extent + k) - 1) / (k as int)) as nat
}

/// Where the `i`-th chunk starts along the axis.
pub open spec fn chunk_start(k: nat, i: nat) -> int {
    (i * k) as int
}

/// Depth of the `i`-th chunk: the requested `k`, clamped at the axis extent.
pub open spec fn chunk_depth(extent: nat, k: nat, i: nat) -> int {
    if extent - i * k < k {
        extent - i * k
    } else {
        k as int
    }
}

/// Addition on the cursor, clamped at the top of `usize`.
pub open spec fn sat_add(a: nat, b: nat) -> nat {
    if a + b > usize::MAX {
        usize::MAX as nat
    } else {
        a + b
    }
}

/// End of the span the producer yields from cursor `cur`: the cursor plus
/// the slice size, clamped at the axis extent.
pub open spec fn span_end(cur: nat, k: nat, extent: nat) -> int {
    if cur + k < extent {
        (cur + k) as int
    } else {
        extent as int
    }
}

/// How many chunks the producer yields for a given axis extent: the ceiling
/// of `extent / k`.
pub fn chunk_count(extent: usize, k: usize) -> (r: usize)
    requires
        k > 0,
    ensures
        r as nat == num_chunks(extent as nat, k as nat),
{
    if extent == 0 {
        proof {
            vstd::arithmetic::div_mod::lemma_basic_div((k - 1) as int, k as int);
        }
        0
    } else {
        proof {
            vstd::arithmetic::div_mod::lemma_div_plus_one((extent - 1) as int, k as int);
            vstd::arithmetic::div_mod::lemma_div_nonincreasing((extent - 1) as int, k as int);
            vstd::arithmetic::div_mod::lemma_div_pos_is_pos((extent - 1) as int, k as int);
            assert(1 + (extent - 1) as int / (k as int) == ((k as int) + ((extent - 1) as int)) / (
            k as int));
            assert(((extent + k) - 1) as int == (k as int) + ((extent - 1) as int));
        }
        1 + (extent - 1) / k
    }
}

/// A chunk exists exactly when its start lies below the axis extent.
pub proof fn lemma_chunk_available(extent: nat, k: nat, i: nat)
    requires
        k > 0,
    ensures
        i < num_chunks(extent, k) <==> i * k < extent,
{
    let e = extent as int;
    let kk = k as int;
    let n = (e + kk - 1) / kk;
    lemma_fundamental_div_mod(e + kk - 1, kk);
    let r = (e + kk - 1) % kk;
    if i < n {
        lemma_mul_inequality(i as int, n - 1, kk);
        lemma_mul_is_distributive_sub_other_way(kk, n, 1);
        lemma_mul_basics(kk);
    } else {
        lemma_mul_inequality(n, i as int, kk);
    }
}

/// The chunk schedule. Every chunk has positive depth at most `k` — in
/// particular there is never a zero-depth trailing chunk; each chunk stays
/// within the axis; the last chunk's depth is `extent % k`, or `k` itself
/// when `k` divides `extent`, and it ends exactly at the axis extent.
pub proof fn lemma_chunk_schedule(extent: nat, k: nat, i: nat)
    requires
        k > 0,
        i < num_chunks(extent, k),
    ensures
        0 < chunk_depth(extent, k, i) <= k,
        chunk_start(k, i) + chunk_depth(extent, k, i) <= extent,
        i + 1 == num_chunks(extent, k) ==> chunk_depth(extent, k, i) == (if extent as int % (
        k as int) == 0 {
            k as int
        } else {
            extent as int % (k as int)
        }),
        i + 1 == num_chunks(extent, k) ==> chunk_start(k, i) + chunk_depth(extent, k, i)
            == extent,
{
    let e = extent as int;
    let kk = k as int;
    lemma_chunk_available(extent, k, i);
    if i + 1 == num_chunks(extent, k) {
        lemma_fundamental_div_mod(e, kk);
        let q = e / kk;
        let r = e % kk;
        if r == 0 {
            lemma_fundamental_div_mod_converse(e + kk - 1, kk, q, kk - 1);
            assert(num_chunks(extent, k) == q);
            lemma_mul_is_distributive_sub_other_way(kk, q, 1);
            lemma_mul_basics(kk);
            assert(i as int == q - 1);
            assert(i as int * kk == q * kk - kk);
            assert(e - i as int * kk == kk);
            assert(chunk_depth(extent, k, i) == kk);
        } else {
            vstd::arithmetic::mul::lemma_mul_is_distributive_add_other_way(kk, q, 1);
            lemma_mul_basics(kk);
            lemma_fundamental_div_mod_converse(e + kk - 1, kk, q + 1, r - 1);
            assert(num_chunks(extent, k) == q + 1);
            assert(i as int == q);
            assert(e - i as int * kk == r);
            assert(chunk_depth(extent, k, i) == r);
        }
    } else {
        lemma_chunk_available(extent, k, (i + 1) as nat);
        lemma_mul_is_distributive_sub_other_way(kk, (i + 1) as int, 1);
        lemma_mul_basics(kk);
    }
}

/// The producer walks the schedule: after `i` yielded spans the cursor
/// stands at `i * k`, below the extent exactly while chunks remain, and the
/// span yielded there is chunk `i` itself — it starts at `chunk_start` and
/// ends `chunk_depth` later.
pub proof fn lemma_span_is_chunk(extent: nat, k: nat, i: nat)
    requires
        k > 0,
        i < num_chunks(extent, k),
    ensures
        chunk_start(k, i) < extent,
        span_end(chunk_start(k, i) as nat, k, extent) == chunk_start(k, i) + chunk_depth(
            extent,
            k,
            i,
        ),
{
    lemma_chunk_available(extent, k, i);
    lemma_chunk_schedule(extent, k, i);
}

/// Produces the schedule of slab reads for one `(resolution level, channel)`
/// dataset: half-open spans of depth at most `slice_size` along the outer
/// axis, in order, until the axis extent is reached. The producer only plans
/// the reads; the caller performs them and hands each slab to the frame
/// extraction.
pub struct ImageSlicer<'a> {
    pub current: usize,
    pub slice_size: usize,
    pub res: usize,
    pub chan: usize,
    pub config: &'a Config,
}

impl<'a> ImageSlicer<'a> {
    /// A fresh producer at the start of the axis.
    pub fn new(slice_size: usize, res: usize, chan: usize, config: &'a Config) -> (r: Self)
        requires
            slice_size > 0,
        ensures
            r == (ImageSlicer { current: 0, slice_size, res, chan, config }),
    {
        ImageSlicer { current: 0, slice_size, res, chan, config }
    }

    /// The store-internal path of this producer's dataset.
    pub fn dataset_path(&self) -> (r: String)
        ensures
            r@ == dataset_path_chars(self.res as nat, self.chan as nat),
    {
        crate::naming::dataset_path(self.res, self.chan)
    }

    /// The next half-open span `[start, end)` to read, clamped at the axis
    /// extent; `None` exactly when the cursor stands at or past the extent —
    /// then the sequence is exhausted and no read is to be attempted. On a
    /// span the cursor advances by the full `slice_size`, so the next call's
    /// clamp lands on the following chunk boundary.
    pub fn next_span(&mut self, extent: usize) -> (r: Option<(usize, usize)>)
        ensures
            final(self).slice_size == old(self).slice_size,
            final(self).res == old(self).res,
            final(self).chan == old(self).chan,
            final(self).config == old(self).config,
            old(self).current >= extent ==> r is None && *final(self) == *old(self),
            old(self).current < extent ==> {
                &&& r matches Some(span)
                &&& (r matches Some(span) ==> span.0 == old(self).current && span.1 == span_end(
                    old(self).current as nat,
                    old(self).slice_size as nat,
                    extent as nat,
                ))
                &&& final(self).current == sat_add(
                    old(self).current as nat,
                    old(self).slice_size as nat,
                )
            },
    {
        if self.current >= extent {
            return None;
        }
        let start = self.current;
        let depth = if extent - start < self.slice_size {
            extent - start
        } else {
            self.slice_size
        };
        let end = start + depth;
        self.current = start.saturating_add(self.slice_size);
        Some((start, end))
    }
}

} // verus!
