//! Orchestration: the per-job output plan and the one-volume conversion
//! through the chunked slice producer.

use vstd::prelude::*;

verus! {

use crate::config::Config;
use crate::naming::file_stem;
use crate::naming::output_file_name;
use crate::naming::output_name_chars;
use crate::naming::stem_chars;
use crate::slicer::ImageSlicer;
use crate::volume::Volume;
use crate::volume::lemma_frames_flatten;
use crate::volume::lemma_slab_plane;
use vstd::arithmetic::div_mod::lemma_fundamental_div_mod_converse;
use vstd::arithmetic::mul::lemma_mul_basics;
use vstd::arithmetic::mul::lemma_mul_is_distributive_add_other_way;

/// One (resolution level, channel) work item, with the name of its output
/// container.
pub struct PairJob {
    pub res: usize,
    pub chan: usize,
    pub file_name: String,
}

/// The `idx`-th job of the plan serves pair `(idx / channels, idx % channels)`
/// and carries the deterministic output name of that pair.
pub open spec fn job_ok(conf: &Config, jobs: Seq<PairJob>, idx: int) -> bool {
    let res = idx / conf.channels as int;
    let chan = idx % conf.channels as int;
    &&& jobs[idx].res == res
    &&& jobs[idx].chan == chan
    &&& jobs[idx].file_name@ == output_name_chars(
        stem_chars(conf.file_name@),
        res as nat,
        chan as nat,
    )
}

/// The output plan: exactly one job per (level, channel) pair, in level-major
/// order, each named `{stem}_Res{level}_Chan{channel}.tif` after the source
/// file's stem.
pub fn pair_jobs(conf: &Config) -> (r: Vec<PairJob>)
    ensures
        r@.len() == conf.res_levels as int * conf.channels as int,
        forall|idx: int| 0 <= idx < r@.len() ==> #[trigger] job_ok(conf, r@, idx),
{
    let stem = file_stem(conf.file_name.as_str());
    let mut jobs: Vec<PairJob> = Vec::new();
    let mut res: usize = 0;
    while res < conf.res_levels
        invariant
            res <= conf.res_levels,
            stem@ == stem_chars(conf.file_name@),
            jobs@.len() == res as int * conf.channels as int,
            forall|idx: int| 0 <= idx < jobs@.len() ==> #[trigger] job_ok(conf, jobs@, idx),
        decreases conf.res_levels - res,
    {
        let mut chan: usize = 0;
        while chan < conf.channels
            invariant
                chan <= conf.channels,
                stem@ == stem_chars(conf.file_name@),
                jobs@.len() == res as int * conf.channels as int + chan as int,
                forall|idx: int| 0 <= idx < jobs@.len() ==> #[trigger] job_ok(conf, jobs@, idx),
            decreases conf.channels - chan,
        {
            let name = output_file_name(stem.as_str(), res, chan);
            let ghost prev = jobs@;
            jobs.push(PairJob { res, chan, file_name: name });
            proof {
                assert forall|idx: int| 0 <= idx < jobs@.len() implies #[trigger] job_ok(
                    conf,
                    jobs@,
                    idx,
                ) by {
                    if idx < prev.len() {
                        assert(job_ok(conf, prev, idx));
                        assert(jobs@[idx] == prev[idx]);
                    } else {
                        lemma_fundamental_div_mod_converse(
                            idx,
                            conf.channels as int,
                            res as int,
                            chan as int,
                        );
                    }
                }
            }
            chan = chan + 1;
        }
        proof {
            lemma_mul_is_distributive_add_other_way(conf.channels as int, res as int, 1);
            lemma_mul_basics(conf.channels as int);
        }
        res = res + 1;
    }
    jobs
}

/// Converts one volume through the chunked producer: drains the sequence of
/// slab reads chunk by chunk and extracts every frame, in strict outer-axis
/// order — the exact page sequence of one output container. Only one chunk
/// is read ahead of the frames already collected.
pub fn convert_volume<T: Copy>(
    conf: &Config,
    res: usize,
    chan: usize,
    vol: &Volume<T>,
    slice_size: usize,
) -> (r: Vec<Vec<T>>)
    requires
        vol.wf(),
        slice_size > 0,
    ensures
        r@.len() == vol.d0 as int,
        forall|z: int| 0 <= z < r@.len() ==> (#[trigger] r@[z])@ == vol.plane(z),
{
    let mut frames: Vec<Vec<T>> = Vec::new();
    let mut slicer = ImageSlicer::new(slice_size, res, chan, conf);
    loop
        invariant
            vol.wf(),
            slicer.slice_size == slice_size,
            slice_size > 0,
            frames@.len() == (if slicer.current < vol.d0 {
                slicer.current as int
            } else {
                vol.d0 as int
            }),
            forall|z: int| 0 <= z < frames@.len() ==> (#[trigger] frames@[z])@ == vol.plane(z),
        ensures
            frames@.len() == vol.d0 as int,
            forall|z: int| 0 <= z < frames@.len() ==> (#[trigger] frames@[z])@ == vol.plane(z),
        decreases (if slicer.current < vol.d0 {
            vol.d0 as int - slicer.current as int
        } else {
            0
        }),
    {
        let span = slicer.next_span(vol.d0);
        let (s, e) = match span {
            Some(p) => p,
            None => {
                break ;
            },
        };
        let chunk = match vol.read_slab(s, e) {
            Ok(c) => c,
            Err(_) => {
                // A failed read ends the sequence; for an in-memory volume
                // a clamped span cannot fail.
                break ;
            },
        };
        let mut i: usize = 0;
        while i < chunk.d0
            invariant
                vol.wf(),
                chunk.wf(),
                chunk.d0 == e - s,
                chunk.d1 == vol.d1,
                chunk.d2 == vol.d2,
                s as int + chunk.d0 as int <= vol.d0 as int,
                chunk.data@ == vol.data@.subrange(
                    s as int * vol.plane_len(),
                    (s as int + chunk.d0 as int) * vol.plane_len(),
                ),
                i <= chunk.d0,
                frames@.len() == s as int + i as int,
                forall|z: int| 0 <= z < frames@.len() ==> (#[trigger] frames@[z])@ == vol.plane(z),
            decreases chunk.d0 - i,
        {
            let f = chunk.frame_at(i);
            proof {
                lemma_slab_plane(vol, &chunk, s as int, i as int);
            }
            let ghost prev = frames@;
            frames.push(f);
            proof {
                assert forall|z: int| 0 <= z < frames@.len() implies (#[trigger] frames@[z])@
                    == vol.plane(z) by {
                    if z < prev.len() {
                        assert(frames@[z] == prev[z]);
                        assert(prev[z]@ == vol.plane(z));
                    }
                }
            }
            i = i + 1;
        }
    }
    frames
}

/// Round trip: a frame sequence holding every plane of the volume in order —
/// what `convert_volume` yields — reassembles by plain concatenation into
/// the volume's flat data, sample for sample.
pub proof fn lemma_round_trip<T>(vol: &Volume<T>, frames: Seq<Seq<T>>)
    requires
        vol.wf(),
        frames.len() == vol.d0 as int,
        forall|z: int| 0 <= z < frames.len() ==> #[trigger] frames[z] == vol.plane(z),
    ensures
        frames.flatten() == vol.data@,
{
    assert(frames =~= vol.frames());
    lemma_frames_flatten(vol);
}

} // verus!
