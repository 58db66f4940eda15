//! The 3D volume model: flat row-major sample data with an explicit shape,
//! slab reads along the outer axis, and per-plane frame extraction.

use vstd::prelude::*;

verus! {

use vstd::arithmetic::mul::lemma_mul_basics;
use vstd::arithmetic::mul::lemma_mul_inequality;
use vstd::arithmetic::mul::lemma_mul_is_associative;
use vstd::arithmetic::mul::lemma_mul_is_commutative;
use vstd::arithmetic::mul::lemma_mul_is_distributive_add_other_way;
use vstd::arithmetic::mul::lemma_mul_is_distributive_sub_other_way;
use vstd::arithmetic::mul::lemma_mul_nonnegative;

/// Read-side failures of a volume source. A read at or past the axis extent
/// yields `EmptyRead`: the designed end-of-data signal, not a data fault.
#[derive(Clone, Copy, Debug, PartialEq, Eq, Structural)]
pub enum SourceError {
    StoreOpen,
    DatasetNotFound,
    EmptyRead,
}

/// The given shape did not match the data length.
#[derive(Clone, Copy, Debug, PartialEq, Eq, Structural)]
pub struct ShapeError;

/// A 3D array of samples: shape `(d0, d1, d2)` with `d0` outermost, flat
/// `data` in row-major order. Full volumes and bounded-depth chunks are both
/// values of this type.
pub struct Volume<T> {
    pub data: Vec<T>,
    pub d0: usize,
    pub d1: usize,
    pub d2: usize,
}

impl<T> Volume<T> {
    /// The flat data holds exactly `d0 * d1 * d2` samples.
    pub open spec fn wf(&self) -> bool {
        self.data@.len() == self.d0 as int * self.d1 as int * self.d2 as int
    }

    /// Samples per plane across the outer axis.
    pub open spec fn plane_len(&self) -> int {
        self.d1 as int * self.d2 as int
    }

    /// The sample at `(i, j, k)`: outer axis first, then rows, then columns.
    pub open spec fn voxel(&self, i: int, j: int, k: int) -> T {
        self.data@[i * self.plane_len() + j * self.d2 as int + k]
    }

    /// The 2D plane at index `i` along the outer axis, flattened row-major:
    /// what the output container receives as one page of width `d2` and
    /// height `d1`.
    pub open spec fn plane(&self, i: int) -> Seq<T> {
        self.data@.subrange(i * self.plane_len(), (i + 1) * self.plane_len())
    }

    /// All frames of the volume, in outer-axis order.
    pub open spec fn frames(&self) -> Seq<Seq<T>> {
        Seq::new(self.d0 as nat, |i: int| self.plane(i))
    }
}

proof fn lemma_plane_bounds<T>(v: &Volume<T>, i: int)
    requires
        v.wf(),
        0 <= i < v.d0,
    ensures
        v.plane_len() >= 0,
        0 <= i * v.plane_len(),
        i * v.plane_len() + v.plane_len() == (i + 1) * v.plane_len(),
        (i + 1) * v.plane_len() <= v.data@.len(),
        v.plane_len() <= v.data@.len(),
{
    let pl = v.plane_len();
    lemma_mul_is_associative(v.d0 as int, v.d1 as int, v.d2 as int);
    lemma_mul_nonnegative(v.d1 as int, v.d2 as int);
    lemma_mul_nonnegative(i, pl);
    lemma_mul_inequality(i + 1, v.d0 as int, pl);
    lemma_mul_is_distributive_add_other_way(pl, i, 1);
    lemma_mul_basics(pl);
    lemma_mul_inequality(1, v.d0 as int, pl);
}

impl<T: Copy> Volume<T> {
    /// Wraps flat data with its shape; succeeds exactly when the data length
    /// is `d0 * d1 * d2`.
    pub fn new(data: Vec<T>, d0: usize, d1: usize, d2: usize) -> (r: Result<Volume<T>, ShapeError>)
        ensures
            r matches Ok(v) ==> v == (Volume { data, d0, d1, d2 }) && v.wf(),
            r is Ok <==> data@.len() == d0 as int * d1 as int * d2 as int,
    {
        let n = data.len();
        if d0 == 0 || d1 == 0 || d2 == 0 {
            proof {
                lemma_mul_basics(d0 as int);
                lemma_mul_basics(d1 as int);
                lemma_mul_basics(d2 as int);
                lemma_mul_basics(d0 as int * d1 as int);
            }
            if n == 0 {
                Ok(Volume { data, d0, d1, d2 })
            } else {
                Err(ShapeError)
            }
        } else {
            let p01 = match d0.checked_mul(d1) {
                Some(p) => p,
                None => {
                    proof {
                        lemma_mul_inequality(1, d2 as int, d0 as int * d1 as int);
                        lemma_mul_basics(d0 as int * d1 as int);
                        lemma_mul_is_commutative(d0 as int * d1 as int, d2 as int);
                    }
                    return Err(ShapeError);
                },
            };
            let p = match p01.checked_mul(d2) {
                Some(p) => p,
                None => {
                    return Err(ShapeError);
                },
            };
            if n == p {
                Ok(Volume { data, d0, d1, d2 })
            } else {
                Err(ShapeError)
            }
        }
    }

    /// A slab read: the sub-volume covering `[start, end)` along the outer
    /// axis and the full extent of the other two axes. Fails exactly when
    /// the range is empty or reaches past the axis extent; in particular a
    /// request at or past the extent is the end-of-data signal.
    pub fn read_slab(&self, start: usize, end: usize) -> (r: Result<Volume<T>, SourceError>)
        requires
            self.wf(),
        ensures
            r is Ok <==> (start < end && end <= self.d0),
            r matches Ok(s) ==> {
                &&& s.wf()
                &&& s.d0 == end - start
                &&& s.d1 == self.d1
                &&& s.d2 == self.d2
                &&& s.data@ == self.data@.subrange(
                    start as int * self.plane_len(),
                    end as int * self.plane_len(),
                )
            },
            r matches Err(e) ==> e == SourceError::EmptyRead,
    {
        if start >= end || end > self.d0 {
            return Err(SourceError::EmptyRead);
        }
        let n = self.data.len();
        proof {
            assert(n as int == self.data@.len());
            lemma_plane_bounds(self, end - 1);
            lemma_mul_inequality(start as int, end as int, self.plane_len());
            lemma_mul_nonnegative(start as int, self.plane_len());
        }
        let pl = self.d1 * self.d2;
        let lo = start * pl;
        let hi = end * pl;
        let mut out: Vec<T> = Vec::new();
        let mut t = lo;
        while t < hi
            invariant
                lo <= t <= hi,
                hi <= self.data@.len(),
                out@ == self.data@.subrange(lo as int, t as int),
            decreases hi - t,
        {
            out.push(self.data[t]);
            t = t + 1;
            proof {
                assert(self.data@.subrange(lo as int, t as int) =~= self.data@.subrange(
                    lo as int,
                    t - 1,
                ).push(self.data@[t - 1]));
            }
        }
        let sub = Volume { data: out, d0: end - start, d1: self.d1, d2: self.d2 };
        proof {
            lemma_mul_is_distributive_sub_other_way(pl as int, end as int, start as int);
            lemma_mul_is_associative((end - start) as int, self.d1 as int, self.d2 as int);
        }
        Ok(sub)
    }

    /// Copies the frame at index `i` along the outer axis: one row-major 2D
    /// page of width `d2` and height `d1`, ready for the output container.
    pub fn frame_at(&self, i: usize) -> (r: Vec<T>)
        requires
            self.wf(),
            i < self.d0,
        ensures
            r@ == self.plane(i as int),
    {
        let n = self.data.len();
        proof {
            lemma_plane_bounds(self, i as int);
            lemma_mul_inequality(i as int, i + 1, self.plane_len());
            lemma_mul_nonnegative(i as int, self.plane_len());
        }
        let pl = self.d1 * self.d2;
        let base = i * pl;
        let mut out: Vec<T> = Vec::new();
        let mut t: usize = 0;
        while t < pl
            invariant
                t <= pl,
                base == i as int * self.plane_len(),
                pl == self.plane_len(),
                n == self.data@.len(),
                base + pl <= self.data@.len(),
                out@ == self.data@.subrange(base as int, base as int + t as int),
            decreases pl - t,
        {
            out.push(self.data[base + t]);
            t = t + 1;
            proof {
                assert(self.data@.subrange(base as int, base + t as int) =~= self.data@.subrange(
                    base as int,
                    base + t - 1,
                ).push(self.data@[base + t - 1]));
            }
        }
        out
    }
}

/// One output pixel: in the row-major frame of plane `i`, the pixel at
/// column `x` of row `y` is the source sample at `(i, y, x)` — the frame
/// presents the source's `(.., y, x)` storage in `(x, y)` pixel order.
pub proof fn lemma_frame_pixel<T>(v: &Volume<T>, i: int, y: int, x: int)
    requires
        v.wf(),
        0 <= i < v.d0,
        0 <= y < v.d1,
        0 <= x < v.d2,
    ensures
        v.plane(i)[y * v.d2 as int + x] == v.voxel(i, y, x),
{
    lemma_plane_bounds(v, i);
    lemma_mul_inequality(y + 1, v.d1 as int, v.d2 as int);
    lemma_mul_is_distributive_add_other_way(v.d2 as int, y, 1);
    lemma_mul_basics(v.d2 as int);
    lemma_mul_nonnegative(y, v.d2 as int);
}

/// A plane of a slab is the corresponding plane of the volume the slab was
/// read from.
pub proof fn lemma_slab_plane<T>(vol: &Volume<T>, s: &Volume<T>, start: int, i: int)
    requires
        vol.wf(),
        s.wf(),
        s.d1 == vol.d1,
        s.d2 == vol.d2,
        0 <= start,
        0 <= i < s.d0,
        start + s.d0 <= vol.d0,
        s.data@ == vol.data@.subrange(
            start * vol.plane_len(),
            (start + s.d0) * vol.plane_len(),
        ),
    ensures
        s.plane(i) == vol.plane(start + i),
{
    let pl = vol.plane_len();
    lemma_plane_bounds(vol, start + i);
    lemma_plane_bounds(s, i);
    lemma_mul_inequality(start + s.d0, vol.d0 as int, pl);
    lemma_mul_nonnegative(start, pl);
    lemma_mul_is_distributive_add_other_way(pl, start, i);
    lemma_mul_is_distributive_add_other_way(pl, start, i + 1);
    lemma_mul_is_distributive_add_other_way(pl, start, s.d0 as int);
    lemma_mul_is_distributive_add_other_way(pl, i, 1);
    lemma_mul_basics(pl);
    lemma_mul_inequality(i + 1, s.d0 as int, pl);
    lemma_mul_is_associative(s.d0 as int, s.d1 as int, s.d2 as int);
    assert forall|t: int| 0 <= t < pl implies s.plane(i)[t] == vol.plane(start + i)[t] by {
        lemma_mul_nonnegative(i, pl);
        lemma_mul_is_distributive_add_other_way(pl, i, 1);
        lemma_mul_basics(pl);
        lemma_mul_inequality(i + 1, s.d0 as int, pl);
        let sd = vol.data@.subrange(start * pl, (start + s.d0) * pl);
        assert(s.data@ == sd);
        assert(s.plane_len() == pl);
        assert(s.plane(i) == s.data@.subrange(i * pl, (i + 1) * pl));
        assert((i + 1) * pl <= s.data@.len());
        assert(s.plane(i)[t] == s.data@[i * pl + t]);
        lemma_mul_is_distributive_add_other_way(pl, start, s.d0 as int);
        lemma_mul_inequality(start + s.d0, vol.d0 as int, pl);
        lemma_mul_is_associative(vol.d0 as int, vol.d1 as int, vol.d2 as int);
        assert((start + s.d0) * pl == start * pl + s.d0 * pl);
        assert((start + s.d0) * pl <= vol.data@.len());
        assert(i * pl + t < s.d0 * pl);
        assert(sd[i * pl + t] == vol.data@[start * pl + (i * pl + t)]);
        assert(vol.plane(start + i)[t] == vol.data@[(start + i) * pl + t]);
    }
    assert(s.plane(i) =~= vol.plane(start + i));
}

proof fn lemma_frames_flatten_from<T>(v: &Volume<T>, k: int)
    requires
        v.wf(),
        0 <= k <= v.d0,
    ensures
        Seq::new((v.d0 - k) as nat, |i: int| v.plane(k + i)).flatten() == v.data@.subrange(
            k * v.plane_len(),
            v.d0 as int * v.plane_len(),
        ),
    decreases v.d0 - k,
{
    let pl = v.plane_len();
    lemma_mul_is_associative(v.d0 as int, v.d1 as int, v.d2 as int);
    let s = Seq::new((v.d0 - k) as nat, |i: int| v.plane(k + i));
    if k == v.d0 {
        lemma_mul_nonnegative(k, pl);
        assert(s.flatten() =~= Seq::<T>::empty());
        assert(v.data@.subrange(k * pl, v.d0 as int * pl) =~= Seq::<T>::empty());
    } else {
        lemma_plane_bounds(v, k);
        lemma_frames_flatten_from(v, k + 1);
        assert(s.drop_first() =~= Seq::new((v.d0 - (k + 1)) as nat, |i: int| v.plane(k + 1 + i)));
        assert(s.first() == v.plane(k));
        assert(s.flatten() == s.first() + s.drop_first().flatten());
        lemma_mul_inequality(k + 1, v.d0 as int, pl);
        assert(v.plane(k) + v.data@.subrange((k + 1) * pl, v.d0 as int * pl) =~= v.data@.subrange(
            k * pl,
            v.d0 as int * pl,
        ));
    }
}

/// Reassembly: concatenating all frames in order reproduces the volume's
/// flat data exactly.
pub proof fn lemma_frames_flatten<T>(v: &Volume<T>)
    requires
        v.wf(),
    ensures
        v.frames().flatten() == v.data@,
{
    let pl = v.plane_len();
    lemma_frames_flatten_from(v, 0);
    lemma_mul_is_associative(v.d0 as int, v.d1 as int, v.d2 as int);
    assert(v.frames() =~= Seq::new(v.d0 as nat, |i: int| v.plane(0 + i)));
    assert(v.data@.subrange(0 * pl, v.d0 as int * pl) =~= v.data@);
}

} // verus!
