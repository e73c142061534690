use vstd::prelude::*;

verus! {

/// The four sections of the oval race track, in the order the path runs
/// through them.
#[derive(Debug, Clone, Copy, PartialEq, Eq, Structural)]
pub enum TrackSection {
    /// The straight on the near side, run from left to right.
    NearStraight,
    /// The half circle at the right end.
    RightCurve,
    /// The straight on the far side, run from right to left.
    FarStraight,
    /// The half circle at the left end, closing the loop.
    LeftCurve,
}

/// A point of the track's center line: `step` of the section's `n` steps has
/// been covered (the fraction `step / n` of the section).
#[derive(Debug, Clone, Copy, PartialEq, Eq, Structural)]
pub struct TrackSample {
    pub section: TrackSection,
    pub step: u32,
}

/// Sample `k` of the center line of a track whose sections are cut into `n`
/// steps each: the near straight from step 0 to `n`, then each further
/// section from step 1 to `n` (its step 0 is the previous section's end).
pub open spec fn track_sample_at(n: nat, k: nat) -> TrackSample {
    if k <= n {
        TrackSample { section: TrackSection::NearStraight, step: k as u32 }
    } else if k <= 2 * n {
        TrackSample { section: TrackSection::RightCurve, step: (k - n) as u32 }
    } else if k <= 3 * n {
        TrackSample { section: TrackSection::FarStraight, step: (k - 2 * n) as u32 }
    } else {
        TrackSample { section: TrackSection::LeftCurve, step: (k - 3 * n) as u32 }
    }
}

/// How many samples of the center line come before step 1 of `section`
/// (less one: the near straight's step 0 is sample 0).
pub open spec fn section_start(n: nat, section: TrackSection) -> nat {
    match section {
        TrackSection::NearStraight => 0,
        TrackSection::RightCurve => n,
        TrackSection::FarStraight => 2 * n,
        TrackSection::LeftCurve => 3 * n,
    }
}

/// Appends steps 1 to `n` of `section` to the samples that precede it.
fn push_section(samples: &mut Vec<TrackSample>, section: TrackSection, n: u32)
    requires
        old(samples)@.len() == section_start(n as nat, section) + 1,
        forall|k: int| 0 <= k < old(samples)@.len() ==> #[trigger] old(samples)@[k] == track_sample_at(n as nat, k as nat),
    ensures
        final(samples)@.len() == section_start(n as nat, section) + n + 1,
        forall|k: int| 0 <= k < final(samples)@.len() ==> #[trigger] final(samples)@[k] == track_sample_at(n as nat, k as nat),
{
    let mut step: u64 = 1;
    while step <= n as u64
        invariant
            1 <= step <= n + 1,
            samples@.len() == section_start(n as nat, section) + step,
            forall|k: int| 0 <= k < samples@.len() ==> #[trigger] samples@[k] == track_sample_at(n as nat, k as nat),
        decreases n + 1 - step,
    {
        samples.push(TrackSample { section, step: step as u32 });
        step = step + 1;
    }
}

/// The samples of the track's center line, in path order, for sections cut
/// into `n` steps each: `4 * n + 1` samples, the first at the start of the
/// near straight and the last at the end of the left curve.
pub fn track_samples(n: u32) -> (samples: Vec<TrackSample>)
    requires
        4 * n + 1 <= usize::MAX,
    ensures
        samples@.len() == 4 * n + 1,
        forall|k: int| 0 <= k < samples@.len() ==> #[trigger] samples@[k] == track_sample_at(n as nat, k as nat),
        forall|k: int| 0 <= k <= n ==> (#[trigger] samples@[k]).section == TrackSection::NearStraight && samples@[k].step == k as u32,
        forall|k: int| n < k <= 2 * n ==> (#[trigger] samples@[k]).section == TrackSection::RightCurve && samples@[k].step == (k - n) as u32,
        forall|k: int| 2 * n < k <= 3 * n ==> (#[trigger] samples@[k]).section == TrackSection::FarStraight && samples@[k].step == (k - 2 * n) as u32,
        forall|k: int| 3 * n < k <= 4 * n ==> (#[trigger] samples@[k]).section == TrackSection::LeftCurve && samples@[k].step == (k - 3 * n) as u32,
{
    let mut samples: Vec<TrackSample> = Vec::new();
    let mut step: u64 = 0;
    while step <= n as u64
        invariant
            step <= n + 1,
            samples@.len() == step,
            forall|k: int| 0 <= k < samples@.len() ==> #[trigger] samples@[k] == track_sample_at(n as nat, k as nat),
        decreases n + 1 - step,
    {
        samples.push(TrackSample { section: TrackSection::NearStraight, step: step as u32 });
        step = step + 1;
    }
    push_section(&mut samples, TrackSection::RightCurve, n);
    push_section(&mut samples, TrackSection::FarStraight, n);
    push_section(&mut samples, TrackSection::LeftCurve, n);
    samples
}

/// The sample that follows `sample` along the center line: the next step of
/// the same section, or step 1 of the next section once a section's last
/// step is reached.
pub open spec fn next_sample(n: nat, sample: TrackSample) -> TrackSample {
    if sample.step < n {
        TrackSample { section: sample.section, step: (sample.step + 1) as u32 }
    } else {
        let section = match sample.section {
            TrackSection::NearStraight => TrackSection::RightCurve,
            TrackSection::RightCurve => TrackSection::FarStraight,
            TrackSection::FarStraight => TrackSection::LeftCurve,
            TrackSection::LeftCurve => TrackSection::NearStraight,
        };
        TrackSample { section, step: 1 }
    }
}

/// The center line is one continuous path: each sample but the last is
/// followed by the next step of its section, or by the first step of the
/// next section where a section ends.
pub proof fn lemma_track_is_continuous(n: nat, k: nat)
    requires
        n <= u32::MAX,
        k < 4 * n,
    ensures
        track_sample_at(n, k + 1) == next_sample(n, track_sample_at(n, k)),
{
}

/// The center line is a closed loop: after its last sample, at the end of
/// the left curve, the path goes on with the near straight's first step, as
/// the left curve ends where the near straight begins (sample 0).
pub proof fn lemma_track_is_closed(n: nat)
    requires
        0 < n <= u32::MAX,
    ensures
        next_sample(n, track_sample_at(n, 4 * n)) == track_sample_at(n, 1),
{
}

/// The sections follow each other in the same order for every number of
/// steps `n`: the near straight (samples 0 to `n`), then the right curve,
/// the far straight and the left curve, `n` samples each; and the path goes
/// from the end of each section on to the first step of the next one in that
/// order, back to the near straight after the left curve.
pub proof fn lemma_section_order(n: nat, k: nat)
    requires
        n <= u32::MAX,
    ensures
        k <= n ==> track_sample_at(n, k) == (TrackSample { section: TrackSection::NearStraight, step: k as u32 }),
        n < k <= 2 * n ==> track_sample_at(n, k) == (TrackSample { section: TrackSection::RightCurve, step: (k - n) as u32 }),
        2 * n < k <= 3 * n ==> track_sample_at(n, k) == (TrackSample { section: TrackSection::FarStraight, step: (k - 2 * n) as u32 }),
        3 * n < k <= 4 * n ==> track_sample_at(n, k) == (TrackSample { section: TrackSection::LeftCurve, step: (k - 3 * n) as u32 }),
        next_sample(n, TrackSample { section: TrackSection::NearStraight, step: n as u32 }) == (TrackSample { section: TrackSection::RightCurve, step: 1 }),
        next_sample(n, TrackSample { section: TrackSection::RightCurve, step: n as u32 }) == (TrackSample { section: TrackSection::FarStraight, step: 1 }),
        next_sample(n, TrackSample { section: TrackSection::FarStraight, step: n as u32 }) == (TrackSample { section: TrackSection::LeftCurve, step: 1 }),
        next_sample(n, TrackSample { section: TrackSection::LeftCurve, step: n as u32 }) == (TrackSample { section: TrackSection::NearStraight, step: 1 }),
{
}

} // verus!
