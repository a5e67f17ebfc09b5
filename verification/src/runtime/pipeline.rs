//! How many blocks to keep outstanding with a peer: as many as it sends in a few seconds at
//! its smoothed rate.
//!
//! Parts of a whole are in thousandths.
use vstd::prelude::*;

use crate::rate::{
    a_mean_lies_between, bytes_per_second, spec_bytes_per_second, weighted, NANOS_PER_SEC,
};
use crate::staging::pool::BLOCK_SIZE;

verus! {

/// Fewest blocks to keep outstanding.
pub const MIN_PIPELINE: usize = 2;

/// Blocks to keep outstanding before the rate is known.
pub const DEFAULT_PIPELINE: usize = 16;

/// Most blocks to keep outstanding.
pub const MAX_PIPELINE: usize = 8192;

/// Seconds of transfer that the outstanding blocks should cover.
pub const REQUEST_QUEUE_TIME_SECS: u64 = 5;

/// Weight of the latest rate.
pub const PIPELINE_RATE_ALPHA: u64 = 250;

/// Nanoseconds between rate samples.
pub const PIPELINE_SAMPLE_NANOS: u64 = 500_000_000;

/// Least time between rate samples, whatever the tuning says.
pub const LEAST_SAMPLE_NANOS: u64 = 50_000_000;

/// The pipeline shrinks only where less than this part of it is enough.
pub const PIPELINE_SHRINK_RATIO: u64 = 850;

/// Seconds for which less must be enough before the pipeline shrinks.
pub const PIPELINE_SHRINK_HOLD_SECS: u64 = 2;

/// Least part that the tuning may set.
pub const LEAST_PART: u64 = 10;

/// `n` moved into `lo..=hi`; `lo` wins where the two cross.
pub open spec fn clamped(n: int, lo: int, hi: int) -> int {
    if n > hi {
        if hi < lo {
            lo
        } else {
            hi
        }
    } else if n < lo {
        lo
    } else {
        n
    }
}

/// Blocks to keep outstanding at first.
pub fn clamp_initial_pipeline(initial: usize, max: usize) -> (n: usize)
    ensures
        n == clamped(initial as int, MIN_PIPELINE as int, max as int),
        MIN_PIPELINE <= n,
        n <= max || n == MIN_PIPELINE,
{
    let hi: usize = if max < MIN_PIPELINE {
        MIN_PIPELINE
    } else {
        max
    };
    if initial < MIN_PIPELINE {
        MIN_PIPELINE
    } else if initial > hi {
        hi
    } else {
        initial
    }
}

/// Blocks, to the nearest, that are moved in `millis` at `rate_bps`, within the limits.
pub open spec fn desired_blocks(rate_bps: u64, millis: u64, min: usize, max: usize) -> usize {
    let lo = if min == 0 {
        1
    } else {
        min as int
    };
    let block = 1000 * BLOCK_SIZE;
    let rounded = (rate_bps * millis + block / 2) / block;
    if rate_bps == 0 || millis == 0 {
        lo as usize
    } else {
        clamped(rounded, lo, max as int) as usize
    }
}

/// Blocks to keep outstanding at `rate_bps`, so that they last for `queue_time_millis`.
pub fn desired_pipeline_blocks(
    rate_bps: u64,
    queue_time_millis: u64,
    min: usize,
    max: usize,
) -> (n: usize)
    ensures
        n == desired_blocks(rate_bps, queue_time_millis, min, max),
{
    let lo: usize = if min == 0 {
        1
    } else {
        min
    };
    let hi: usize = if max < lo {
        lo
    } else {
        max
    };
    if rate_bps == 0 || queue_time_millis == 0 {
        return lo;
    }
    assert(rate_bps * queue_time_millis <= u64::MAX * u64::MAX) by (nonlinear_arith)
        requires
            rate_bps <= u64::MAX,
            queue_time_millis <= u64::MAX,
    ;
    let bytes: u128 = rate_bps as u128 * queue_time_millis as u128;
    let block: u128 = 1000 * BLOCK_SIZE as u128;
    let rounded: u128 = (bytes + block / 2) / block;
    if rounded > hi as u128 {
        hi
    } else if rounded < lo as u128 {
        lo
    } else {
        rounded as usize
    }
}

/// Limits of the pipeline, and how it follows the rate.
#[derive(Debug, Clone, Copy, PartialEq, Eq, Structural)]
pub struct PipelineTuning {
    pub min: usize,
    pub max: usize,
    /// Time that the outstanding blocks should last for.
    pub queue_time_millis: u64,
    /// Weight of the latest rate.
    pub alpha: u64,
    pub sample_nanos: u64,
    /// Part of the pipeline below which it may shrink.
    pub shrink_ratio: u64,
    pub shrink_hold_nanos: u64,
}

/// A part of a whole that is neither too small nor more than the whole.
pub open spec fn part(permille: u64) -> int {
    clamped(permille as int, LEAST_PART as int, 1000)
}

fn part_of(permille: u64) -> (r: u64)
    ensures
        r == part(permille),
        r <= 1000,
{
    if permille > 1000 {
        1000
    } else if permille < LEAST_PART {
        LEAST_PART
    } else {
        permille
    }
}

impl PipelineTuning {
    /// The usual tuning, with this cap.
    pub open spec fn usual(pipeline_max: usize) -> PipelineTuning {
        PipelineTuning {
            min: MIN_PIPELINE,
            max: if pipeline_max < MIN_PIPELINE {
                MIN_PIPELINE
            } else {
                pipeline_max
            },
            queue_time_millis: (1000 * REQUEST_QUEUE_TIME_SECS) as u64,
            alpha: PIPELINE_RATE_ALPHA,
            sample_nanos: PIPELINE_SAMPLE_NANOS,
            shrink_ratio: PIPELINE_SHRINK_RATIO,
            shrink_hold_nanos: (PIPELINE_SHRINK_HOLD_SECS * NANOS_PER_SEC) as u64,
        }
    }

    /// The usual tuning, with this cap.
    pub fn with_max(pipeline_max: usize) -> (t: PipelineTuning)
        ensures
            t == PipelineTuning::usual(pipeline_max),
    {
        PipelineTuning {
            min: MIN_PIPELINE,
            max: if pipeline_max < MIN_PIPELINE {
                MIN_PIPELINE
            } else {
                pipeline_max
            },
            queue_time_millis: 1000 * REQUEST_QUEUE_TIME_SECS,
            alpha: PIPELINE_RATE_ALPHA,
            sample_nanos: PIPELINE_SAMPLE_NANOS,
            shrink_ratio: PIPELINE_SHRINK_RATIO,
            shrink_hold_nanos: PIPELINE_SHRINK_HOLD_SECS * NANOS_PER_SEC,
        }
    }

    /// Time between rate samples.
    pub open spec fn spacing(&self) -> u64 {
        if self.sample_nanos < LEAST_SAMPLE_NANOS {
            LEAST_SAMPLE_NANOS
        } else {
            self.sample_nanos
        }
    }
}

impl Default for PipelineTuning {
    /// The usual tuning.
    fn default() -> (t: PipelineTuning)
        ensures
            t == PipelineTuning::usual(MAX_PIPELINE),
    {
        PipelineTuning::with_max(MAX_PIPELINE)
    }
}

/// How deep the pipeline is, and since when less would be enough.
#[derive(Debug, Clone, Copy, PartialEq, Eq, Structural)]
pub struct PipelineAdaptState {
    /// The smoothed rate.
    pub smooth_bps: u64,
    /// Bytes that were there at the last sample.
    pub rate_bytes: u64,
    /// Time of the last sample.
    pub rate_at: u64,
    pub pipeline: usize,
    pub shrink_since: Option<u64>,
    /// Whether a sample was taken.
    pub rate_seeded: bool,
}

/// What a sample changed.
#[derive(Debug, Clone, Copy, PartialEq, Eq, Structural)]
pub enum PipelineAdaptOutcome {
    Unchanged,
    Grew { pipeline: usize },
    Shrank { pipeline: usize },
}

impl PipelineAdaptState {
    /// No sample yet.
    pub open spec fn fresh(initial: usize, tuning: &PipelineTuning, now: u64) -> Self {
        let raised = if initial < tuning.min {
            tuning.min
        } else {
            initial
        };
        let capped = if raised > tuning.max {
            tuning.max
        } else {
            raised
        };
        PipelineAdaptState {
            smooth_bps: 0,
            rate_bytes: 0,
            rate_at: now,
            pipeline: if capped == 0 {
                1
            } else {
                capped
            },
            shrink_since: None,
            rate_seeded: false,
        }
    }

    /// No sample yet.
    pub fn new(initial_pipeline: usize, tuning: &PipelineTuning, now: u64) -> (s: Self)
        ensures
            s == PipelineAdaptState::fresh(initial_pipeline, tuning, now),
    {
        let raised: usize = if initial_pipeline < tuning.min {
            tuning.min
        } else {
            initial_pipeline
        };
        let capped: usize = if raised > tuning.max {
            tuning.max
        } else {
            raised
        };
        PipelineAdaptState {
            smooth_bps: 0,
            rate_bytes: 0,
            rate_at: now,
            pipeline: if capped == 0 {
                1
            } else {
                capped
            },
            shrink_since: None,
            rate_seeded: false,
        }
    }

    /// The depth in force: at least one block.
    pub open spec fn depth(&self) -> usize {
        if self.pipeline == 0 {
            1
        } else {
            self.pipeline
        }
    }

    /// Whether `desired` is so far below the depth that the pipeline may shrink.
    pub open spec fn too_deep(&self, desired: usize, tuning: &PipelineTuning) -> bool {
        &&& desired <= self.depth()
        &&& desired < tuning.min || desired < self.depth() * part(tuning.shrink_ratio) / 1000
    }

    /// The smoothed rate after a sample in which `wire_down` bytes are there at `now`.
    pub open spec fn smoothed(&self, wire_down: u64, now: u64, tuning: &PipelineTuning) -> u64 {
        let came = elapsed(self.rate_bytes, wire_down);
        let rate = spec_bytes_per_second(came, elapsed(self.rate_at, now));
        if self.rate_seeded {
            (weighted(self.smooth_bps, rate, part(tuning.alpha)) / 1000) as u64
        } else {
            rate
        }
    }
}

/// How far `to` is past `from`; zero where it is not.
pub open spec fn elapsed(from: u64, to: u64) -> u64 {
    if to > from {
        (to - from) as u64
    } else {
        0
    }
}

fn passed(from: u64, to: u64) -> (r: u64)
    ensures
        r == elapsed(from, to),
{
    if to > from {
        to - from
    } else {
        0
    }
}

/// State and outcome where `desired` blocks are enough.
pub open spec fn resized(
    s: PipelineAdaptState,
    desired: usize,
    now: u64,
    tuning: &PipelineTuning,
) -> (PipelineAdaptState, PipelineAdaptOutcome) {
    let settled = PipelineAdaptState { shrink_since: None, ..s };
    let next = if desired < tuning.min {
        tuning.min
    } else {
        desired
    };
    if desired > s.depth() {
        (
            PipelineAdaptState { pipeline: desired, ..settled },
            PipelineAdaptOutcome::Grew { pipeline: desired },
        )
    } else if !s.too_deep(desired, tuning) {
        (settled, PipelineAdaptOutcome::Unchanged)
    } else if s.shrink_since is None {
        (
            PipelineAdaptState { shrink_since: Some(now), ..s },
            PipelineAdaptOutcome::Unchanged,
        )
    } else if elapsed(s.shrink_since->0, now) < tuning.shrink_hold_nanos {
        (s, PipelineAdaptOutcome::Unchanged)
    } else if next < s.depth() {
        (
            PipelineAdaptState { pipeline: next, ..settled },
            PipelineAdaptOutcome::Shrank { pipeline: next },
        )
    } else {
        (settled, PipelineAdaptOutcome::Unchanged)
    }
}

/// State and outcome where `wire_down` bytes are there at `now`.
pub open spec fn adapted(
    s: PipelineAdaptState,
    wire_down: u64,
    now: u64,
    tuning: &PipelineTuning,
) -> (PipelineAdaptState, PipelineAdaptOutcome) {
    if elapsed(s.rate_at, now) < tuning.spacing() {
        (s, PipelineAdaptOutcome::Unchanged)
    } else {
        let smooth_bps = s.smoothed(wire_down, now, tuning);
        resized(
            PipelineAdaptState {
                smooth_bps,
                rate_bytes: wire_down,
                rate_at: now,
                rate_seeded: true,
                ..s
            },
            desired_blocks(smooth_bps, tuning.queue_time_millis, tuning.min, tuning.max),
            now,
            tuning,
        )
    }
}

/// Follow the rate at which bytes come, of which `wire_down` are there by now. Nothing is done
/// before it is time for a sample. The pipeline grows at once, and shrinks only where much
/// less was enough for a while.
pub fn adapt_pipeline(
    state: &mut PipelineAdaptState,
    wire_down: u64,
    now: u64,
    tuning: &PipelineTuning,
) -> (r: PipelineAdaptOutcome)
    ensures
        (*final(state), r) == adapted(*old(state), wire_down, now, tuning),
{
    let took: u64 = passed(state.rate_at, now);
    if took < LEAST_SAMPLE_NANOS || took < tuning.sample_nanos {
        return PipelineAdaptOutcome::Unchanged;
    }
    let rate: u64 = bytes_per_second(passed(state.rate_bytes, wire_down), took);
    state.rate_bytes = wire_down;
    state.rate_at = now;
    if state.rate_seeded {
        state.smooth_bps = smooth(state.smooth_bps, rate, part_of(tuning.alpha));
    } else {
        state.smooth_bps = rate;
    }
    state.rate_seeded = true;
    let desired: usize = desired_pipeline_blocks(
        state.smooth_bps,
        tuning.queue_time_millis,
        tuning.min,
        tuning.max,
    );
    resize(state, desired, now, tuning)
}

/// `part` thousandths of `next`, and the rest of `prev`.
fn smooth(prev: u64, next: u64, part: u64) -> (r: u64)
    requires
        part <= 1000,
    ensures
        r == weighted(prev, next, part as int) / 1000,
{
    proof {
        a_mean_lies_between(prev, next, part as int);
    }
    assert(0 <= part * next <= 1000 * u64::MAX) by (nonlinear_arith)
        requires
            part <= 1000,
            next <= u64::MAX,
    ;
    assert(0 <= (1000 - part) * prev <= 1000 * u64::MAX) by (nonlinear_arith)
        requires
            part <= 1000,
            prev <= u64::MAX,
    ;
    let sum: u128 = part as u128 * next as u128 + (1000 - part) as u128 * prev as u128;
    (sum / 1000) as u64
}

fn resize(
    state: &mut PipelineAdaptState,
    desired: usize,
    now: u64,
    tuning: &PipelineTuning,
) -> (r: PipelineAdaptOutcome)
    ensures
        (*final(state), r) == resized(*old(state), desired, now, tuning),
{
    let current: usize = if state.pipeline == 0 {
        1
    } else {
        state.pipeline
    };
    if desired > current {
        state.pipeline = desired;
        state.shrink_since = None;
        return PipelineAdaptOutcome::Grew { pipeline: desired };
    }
    let ratio: u64 = part_of(tuning.shrink_ratio);
    assert(0 <= current * ratio <= 1000 * usize::MAX) by (nonlinear_arith)
        requires
            ratio <= 1000,
            current <= usize::MAX,
    ;
    let floor: u128 = current as u128 * ratio as u128 / 1000;
    if desired >= tuning.min && desired as u128 >= floor {
        state.shrink_since = None;
        return PipelineAdaptOutcome::Unchanged;
    }
    match state.shrink_since {
        None => {
            state.shrink_since = Some(now);
            PipelineAdaptOutcome::Unchanged
        },
        Some(since) => {
            if passed(since, now) < tuning.shrink_hold_nanos {
                return PipelineAdaptOutcome::Unchanged;
            }
            let next: usize = if desired < tuning.min {
                tuning.min
            } else {
                desired
            };
            state.shrink_since = None;
            if next < current {
                state.pipeline = next;
                return PipelineAdaptOutcome::Shrank { pipeline: next };
            }
            PipelineAdaptOutcome::Unchanged
        },
    }
}

/// The pipeline shrinks neither on the first sample that would allow it nor before the hold
/// time is over.
pub proof fn a_brief_dip_keeps_the_depth(
    s: PipelineAdaptState,
    wire_down: u64,
    now: u64,
    tuning: PipelineTuning,
)
    requires
        s.shrink_since is None || elapsed(s.shrink_since->0, now) < tuning.shrink_hold_nanos,
    ensures
        adapted(s, wire_down, now, &tuning).0.pipeline >= s.pipeline,
        !(adapted(s, wire_down, now, &tuning).1 is Shrank),
{
}

/// The pipeline stays within its limits.
pub proof fn the_depth_stays_within_limits(
    s: PipelineAdaptState,
    wire_down: u64,
    now: u64,
    tuning: PipelineTuning,
)
    requires
        tuning.min <= tuning.max,
        tuning.min <= s.pipeline <= tuning.max,
    ensures
        tuning.min <= adapted(s, wire_down, now, &tuning).0.pipeline <= tuning.max,
{
}

/// A spike or a gap is damped: the smoothed rate moves towards the latest one, and not past
/// it.
pub proof fn a_spike_is_damped(
    s: PipelineAdaptState,
    wire_down: u64,
    now: u64,
    tuning: PipelineTuning,
)
    requires
        s.rate_seeded,
        elapsed(s.rate_at, now) > 0,
    ensures
        ({
            let rate = spec_bytes_per_second(
                elapsed(s.rate_bytes, wire_down),
                elapsed(s.rate_at, now),
            );
            let smooth = s.smoothed(wire_down, now, &tuning);
            &&& s.smooth_bps <= rate ==> s.smooth_bps <= smooth <= rate
            &&& rate <= s.smooth_bps ==> rate <= smooth <= s.smooth_bps
        }),
{
    let rate = spec_bytes_per_second(
        elapsed(s.rate_bytes, wire_down),
        elapsed(s.rate_at, now),
    );
    a_mean_lies_between(s.smooth_bps, rate, part(tuning.alpha));
}

/// A number within its limits is kept, one outside is moved to the nearer limit.
pub proof fn numbers_are_moved_into_limits(n: int, lo: int, hi: int)
    requires
        lo <= hi,
    ensures
        lo <= n <= hi ==> clamped(n, lo, hi) == n,
        n < lo ==> clamped(n, lo, hi) == lo,
        n > hi ==> clamped(n, lo, hi) == hi,
        hi < n ==> clamped(n, hi + 1, hi) == hi + 1,
{
}

/// The blocks that are kept outstanding last for the queue time, to half a block of 16 KiB,
/// unless a limit stands in the way.
pub proof fn the_pipeline_lasts_for_the_queue_time(
    rate_bps: u64,
    millis: u64,
    min: usize,
    max: usize,
)
    requires
        1 <= min <= max,
    ensures
        ({
            let n = desired_blocks(rate_bps, millis, min, max);
            &&& min <= n <= max
            &&& n < max ==> rate_bps * millis < 16_384_000 * n + 8_192_000
            &&& n > min ==> rate_bps * millis >= 16_384_000 * n - 8_192_000
        }),
{
    let bytes = rate_bps * millis;
    assert(bytes >= 0) by (nonlinear_arith)
        requires
            bytes == rate_bps * millis,
            rate_bps >= 0,
            millis >= 0,
    ;
    assert(rate_bps == 0 || millis == 0 ==> bytes == 0) by (nonlinear_arith)
        requires
            bytes == rate_bps * millis,
    ;
    let rounded = (bytes + 8_192_000) / 16_384_000;
    assert(16_384_000 * rounded <= bytes + 8_192_000 < 16_384_000 * (rounded + 1));
    let block = 1000 * BLOCK_SIZE;
    assert(block == 16_384_000 && block / 2 == 8_192_000);
    assert((rate_bps * millis + block / 2) / block == rounded);
    let n = desired_blocks(rate_bps, millis, min, max);
    if rate_bps == 0 || millis == 0 {
        assert(bytes == 0 && n == min);
    } else {
        assert(n == clamped(rounded, min as int, max as int));
        if n < max {
            assert(rounded <= n);
        }
        if n > min {
            assert(rounded >= n);
        }
    }
}

/// The usual tuning: two blocks at least, five seconds of blocks, a quarter of the weight for
/// the latest rate, samples half a second apart, and a pipeline that shrinks where less than
/// 85 hundredths of it were enough for two seconds.
pub proof fn the_usual_tuning_is_this(cap: usize)
    ensures
        ({
            let t = PipelineTuning::usual(cap);
            &&& t.min == 2
            &&& t.max == if cap < 2 {
                2
            } else {
                cap as int
            }
            &&& t.queue_time_millis == 5_000
            &&& t.alpha == 250 && part(t.alpha) == 250
            &&& t.sample_nanos == 500_000_000 && t.spacing() == 500_000_000
            &&& t.shrink_ratio == 850 && part(t.shrink_ratio) == 850
            &&& t.shrink_hold_nanos == 2_000_000_000
        }),
{
}

/// Samples are at least a twentieth of a second apart, and at least as far as the tuning
/// says; a part is at least a hundredth and at most the whole.
pub proof fn the_tuning_is_kept_within_reason(t: PipelineTuning, permille: u64)
    ensures
        t.spacing() >= 50_000_000,
        t.spacing() >= t.sample_nanos,
        t.spacing() == 50_000_000 || t.spacing() == t.sample_nanos,
        10 <= part(permille) <= 1000,
        10 <= permille <= 1000 ==> part(permille) == permille,
{
}

/// The first depth is the one that is asked for, where the limits allow it.
pub proof fn the_first_depth_is_as_asked(initial: usize, t: PipelineTuning, now: u64)
    requires
        1 <= t.min <= t.max,
    ensures
        ({
            let s = PipelineAdaptState::fresh(initial, &t, now);
            &&& s.pipeline == clamped(initial as int, t.min as int, t.max as int)
            &&& t.min <= initial <= t.max ==> s.pipeline == initial
            &&& s.depth() == s.pipeline
            &&& s.rate_at == now && s.rate_bytes == 0 && !s.rate_seeded && s.smooth_bps == 0
            &&& s.shrink_since is None
        }),
{
}

/// Time and bytes that have passed are the difference, none where it would be below zero.
pub proof fn what_passed_is_the_difference(from: u64, to: u64)
    ensures
        to >= from ==> from + elapsed(from, to) == to,
        to <= from ==> elapsed(from, to) == 0,
{
}

/// Nothing changes before it is time for a sample; a sample is remembered with its time and
/// its bytes, and the first one is taken as it is.
pub proof fn samples_are_taken_in_time(
    s: PipelineAdaptState,
    wire_down: u64,
    now: u64,
    t: PipelineTuning,
)
    ensures
        now < s.rate_at + t.spacing() ==> adapted(s, wire_down, now, &t) == (
            s,
            PipelineAdaptOutcome::Unchanged,
        ),
        now >= s.rate_at + t.spacing() ==> ({
            let a = adapted(s, wire_down, now, &t).0;
            &&& a.rate_at == now
            &&& a.rate_bytes == wire_down
            &&& a.rate_seeded
            &&& !s.rate_seeded && wire_down >= s.rate_bytes ==> a.smooth_bps
                == spec_bytes_per_second(
                (wire_down - s.rate_bytes) as u64,
                (now - s.rate_at) as u64,
            )
        }),
{
}

/// The pipeline is as deep as its rate wants once the rate wants more, and shrinks to that
/// once less than the part of it was enough for the hold time.
pub proof fn the_depth_follows_the_rate(
    s: PipelineAdaptState,
    desired: usize,
    now: u64,
    t: PipelineTuning,
)
    requires
        1 <= t.min <= desired,
        s.pipeline >= 1,
    ensures
        ({
            let (a, o) = resized(s, desired, now, &t);
            &&& desired > s.pipeline ==> a.pipeline == desired && a.shrink_since is None && o == (
            PipelineAdaptOutcome::Grew { pipeline: desired })
            &&& desired <= s.pipeline && desired >= s.pipeline * part(t.shrink_ratio) / 1000
                ==> a.pipeline == s.pipeline && a.shrink_since is None && o is Unchanged
            &&& desired < s.pipeline && desired < s.pipeline * part(t.shrink_ratio) / 1000 ==> (
            match s.shrink_since {
                None => a.pipeline == s.pipeline && a.shrink_since == Some(now) && o is Unchanged,
                Some(since) => if now >= since + t.shrink_hold_nanos && now >= since {
                    a.pipeline == desired && a.shrink_since is None && o == (
                    PipelineAdaptOutcome::Shrank { pipeline: desired })
                } else {
                    t.shrink_hold_nanos > 0 ==> a == s && o is Unchanged
                },
            })
            &&& a.smooth_bps == s.smooth_bps
            &&& s.depth() == s.pipeline
        }),
{
}

/// A quarter of the weight of a steady rate is enough to stay on it, and the smoothed rate
/// takes in so much of the latest one as the weight says.
pub proof fn the_rate_is_smoothed_by_its_weight(
    s: PipelineAdaptState,
    wire_down: u64,
    now: u64,
    t: PipelineTuning,
)
    requires
        s.rate_seeded,
        s.rate_at < now,
        s.rate_bytes <= wire_down,
        10 <= t.alpha <= 1000,
    ensures
        ({
            let latest = spec_bytes_per_second(
                (wire_down - s.rate_bytes) as u64,
                (now - s.rate_at) as u64,
            );
            s.smoothed(wire_down, now, &t) == (t.alpha * latest + (1000 - t.alpha) * s.smooth_bps)
                / 1000
        }),
{
    let latest = spec_bytes_per_second(
        (wire_down - s.rate_bytes) as u64,
        (now - s.rate_at) as u64,
    );
    a_mean_lies_between(s.smooth_bps, latest, t.alpha as int);
}

} // verus!
