//! Transfer rates as they are shown: the mean over a sliding window, then smoothed.
//!
//! Times are in nanoseconds, weights in thousandths.
use crate::rate::{a_mean_lies_between, bytes_per_second, spec_bytes_per_second, weighted};
use std::collections::HashMap;
use vstd::prelude::*;

verus! {

broadcast use vstd::std_specs::hash::group_hash_axioms;

/// Length of the window.
pub const RATE_WINDOW: u64 = 15_000_000_000;

/// Least time between two points.
pub const RATE_MIN_DT: u64 = 400_000_000;

/// Least time over which a mean is taken.
pub const RATE_MIN_SPAN: u64 = 50_000_000;

/// Most points that are kept.
pub const RATE_MAX_POINTS: usize = 50;

/// Weight of the latest mean.
pub const RATE_EMA_ALPHA: u64 = 150;

/// Bytes per second below which a rate is shown as none.
pub const RATE_NOISE: u64 = 512;

/// What two counters stood at.
#[derive(Debug, Clone, Copy, PartialEq, Eq, Structural)]
pub struct RatePoint {
    pub at: u64,
    pub up: u64,
    pub down: u64,
}

/// Bytes that were counted over a time.
#[derive(Debug, Clone, Copy, PartialEq, Eq, Structural)]
pub struct RateSpan {
    pub up: u64,
    pub down: u64,
    pub nanos: u64,
}

/// Rates of two counters.
#[derive(Debug)]
pub struct RateSample {
    pub history: Vec<RatePoint>,
    /// Bytes per second, as shown.
    pub up_bps: u64,
    pub down_bps: u64,
    /// A first rate was shown, so that later ones are smoothed.
    pub ema_seeded: bool,
}

/// A [`RateSample`] with its points as a sequence.
pub struct RateView {
    pub history: Seq<RatePoint>,
    pub up_bps: u64,
    pub down_bps: u64,
    pub ema_seeded: bool,
}

impl View for RateSample {
    type V = RateView;

    open spec fn view(&self) -> RateView {
        RateView {
            history: self.history@,
            up_bps: self.up_bps,
            down_bps: self.down_bps,
            ema_seeded: self.ema_seeded,
        }
    }
}

impl RateView {
    /// Nothing was counted yet.
    pub open spec fn none() -> RateView {
        RateView { history: Seq::empty(), up_bps: 0, down_bps: 0, ema_seeded: false }
    }

    /// The rates once it is noted what the counters stand at. Where the last point is too
    /// recent, nothing changes. Where the window is too short for a mean, what is shown stays.
    pub open spec fn next(self, up: u64, down: u64, now: u64) -> RateView {
        let history = with_point(self.history, RatePoint { at: now, up, down });
        let span = span_of(history);
        if crowded(self.history, now) {
            self
        } else if span.nanos <= RATE_MIN_SPAN {
            RateView { history, ..self }
        } else {
            RateView {
                history,
                up_bps: next_shown(
                    self.up_bps,
                    self.ema_seeded,
                    spec_bytes_per_second(span.up, span.nanos),
                ),
                down_bps: next_shown(
                    self.down_bps,
                    self.ema_seeded,
                    spec_bytes_per_second(span.down, span.nanos),
                ),
                ema_seeded: true,
            }
        }
    }

    /// What is shown.
    pub open spec fn rates(self) -> Rates {
        Rates { up_bps: self.up_bps, down_bps: self.down_bps }
    }
}

/// Rates in bytes per second, as shown.
#[derive(Debug, Clone, Copy, PartialEq, Eq, Structural)]
pub struct Rates {
    pub up_bps: u64,
    pub down_bps: u64,
}

/// Difference of two numbers, zero where it would be negative.
pub open spec fn above(a: u64, b: u64) -> u64 {
    if a > b {
        (a - b) as u64
    } else {
        0
    }
}

fn above_by(a: u64, b: u64) -> (r: u64)
    ensures
        r == above(a, b),
{
    if a > b {
        a - b
    } else {
        0
    }
}

/// A counter is lower than it was.
pub open spec fn dips(h: Seq<RatePoint>, up: u64, down: u64) -> bool {
    h.len() > 0 && (up < h.last().up || down < h.last().down)
}

/// The last point is too recent for another one.
pub open spec fn crowded(h: Seq<RatePoint>, now: u64) -> bool {
    h.len() > 0 && above(now, h.last().at) < RATE_MIN_DT
}

/// The points without those before the window, but for one that it begins with.
pub open spec fn in_window(h: Seq<RatePoint>, now: u64) -> Seq<RatePoint>
    decreases h.len(),
{
    if h.len() >= 2 && above(now, h[1].at) >= RATE_WINDOW {
        in_window(h.drop_first(), now)
    } else {
        h
    }
}

/// The last points.
pub open spec fn newest(h: Seq<RatePoint>) -> Seq<RatePoint> {
    if h.len() > RATE_MAX_POINTS {
        h.subrange(h.len() - RATE_MAX_POINTS, h.len() as int)
    } else {
        h
    }
}

/// The points with another one. Where a counter dipped, the window begins anew.
pub open spec fn with_point(h: Seq<RatePoint>, p: RatePoint) -> Seq<RatePoint> {
    let kept = if dips(h, p.up, p.down) {
        Seq::empty()
    } else {
        h
    };
    newest(in_window(kept.push(p), p.at))
}

/// What was counted between the first and the last point.
pub open spec fn span_of(h: Seq<RatePoint>) -> RateSpan {
    RateSpan {
        up: above(h.last().up, h[0].up),
        down: above(h.last().down, h[0].down),
        nanos: above(h.last().at, h[0].at),
    }
}

/// A rate, or none where it is no more than noise.
pub open spec fn spec_steady(bps: u64) -> u64 {
    if bps < RATE_NOISE {
        0
    } else {
        bps
    }
}

/// The weighted mean of `prev` and `next`, to the nearest.
pub open spec fn ema(prev: u64, next: u64, alpha: u64) -> u64 {
    let part = if alpha > 1000 {
        1000
    } else {
        alpha as int
    };
    ((weighted(prev, next, part) + 500) / 1000) as u64
}

/// The rate to show where `shown` was shown and the mean over the window is `mean`.
pub open spec fn next_shown(shown: u64, seeded: bool, mean: u64) -> u64 {
    if seeded {
        spec_steady(ema(shown, spec_steady(mean), RATE_EMA_ALPHA))
    } else {
        spec_steady(mean)
    }
}

/// The weighted mean of `prev` and `next`, to the nearest. `alpha` is the weight of `next`.
pub fn ema_u64(prev: u64, next: u64, alpha: u64) -> (r: u64)
    ensures
        r == ema(prev, next, alpha),
{
    let part: u64 = if alpha > 1000 {
        1000
    } else {
        alpha
    };
    proof {
        a_mean_lies_between(prev, next, part as int);
    }
    assert(0 <= part * next <= 1000 * u64::MAX) by (nonlinear_arith)
        requires
            part <= 1000,
            next <= u64::MAX,
    ;
    assert(0 <= (1000 - part) * prev <= 1000 * u64::MAX) by (nonlinear_arith)
        requires
            part <= 1000,
            prev <= u64::MAX,
    ;
    let sum: u128 = part as u128 * next as u128 + (1000 - part) as u128 * prev as u128;
    ((sum + 500) / 1000) as u64
}

/// A rate, or none where it is no more than noise.
pub fn steady(bps: u64) -> (r: u64)
    ensures
        r == spec_steady(bps),
{
    if bps < RATE_NOISE {
        0
    } else {
        bps
    }
}

proof fn window_keeps_last(h: Seq<RatePoint>, now: u64)
    requires
        h.len() > 0,
    ensures
        in_window(h, now).len() > 0,
        in_window(h, now).last() == h.last(),
    decreases h.len(),
{
    if h.len() >= 2 && above(now, h[1].at) >= RATE_WINDOW {
        window_keeps_last(h.drop_first(), now);
    }
}

impl RateSample {
    /// Nothing was counted yet.
    pub fn new() -> (s: RateSample)
        ensures
            s@ == RateView::none(),
    {
        RateSample { history: Vec::new(), up_bps: 0, down_bps: 0, ema_seeded: false }
    }

    /// Note what the counters stand at. Returns what was counted over the window, where it is
    /// long enough for a mean. What is shown does not change.
    fn take_point(&mut self, up: u64, down: u64, now: u64) -> (r: Option<RateSpan>)
        ensures
            final(self).up_bps == old(self).up_bps,
            final(self).down_bps == old(self).down_bps,
            final(self).ema_seeded == old(self).ema_seeded,
            ({
                let h = old(self).history@;
                let next = with_point(h, RatePoint { at: now, up, down });
                if crowded(h, now) {
                    final(self).history@ == h && r is None
                } else {
                    &&& final(self).history@ == next
                    &&& r == if span_of(next).nanos <= RATE_MIN_SPAN {
                        None
                    } else {
                        Some(span_of(next))
                    }
                }
            }),
    {
        let ghost h = self.history@;
        let n: usize = self.history.len();
        if n > 0 {
            let last: RatePoint = self.history[n - 1];
            if above_by(now, last.at) < RATE_MIN_DT {
                return None;
            }
            if up < last.up || down < last.down {
                self.history.clear();
            }
        }
        let p = RatePoint { at: now, up, down };
        self.history.push(p);
        let ghost full = self.history@;
        let ghost shown = (self.up_bps, self.down_bps, self.ema_seeded);
        while self.history.len() >= 2 && above_by(now, self.history[1].at) >= RATE_WINDOW
            invariant
                self.history@.len() > 0,
                in_window(self.history@, now) == in_window(full, now),
                shown == (self.up_bps, self.down_bps, self.ema_seeded),
            decreases self.history@.len(),
        {
            let ghost before = self.history@;
            self.history.remove(0);
            assert(self.history@ =~= before.drop_first());
        }
        proof {
            window_keeps_last(full, now);
        }
        let ghost win = self.history@;
        while self.history.len() > RATE_MAX_POINTS
            invariant
                newest(self.history@) == newest(win),
                self.history@.len() > 0,
                shown == (self.up_bps, self.down_bps, self.ema_seeded),
            decreases self.history@.len(),
        {
            let ghost before = self.history@;
            self.history.remove(0);
            proof {
                assert(self.history@ =~= before.drop_first());
                assert(newest(self.history@) =~= newest(before));
            }
        }
        assert(self.history@ == newest(win));
        let m: usize = self.history.len();
        let first: RatePoint = self.history[0];
        let last: RatePoint = self.history[m - 1];
        let nanos: u64 = above_by(last.at, first.at);
        if nanos <= RATE_MIN_SPAN {
            return None;
        }
        Some(
            RateSpan {
                up: above_by(last.up, first.up),
                down: above_by(last.down, first.down),
                nanos,
            },
        )
    }

    /// Show the rates of what was counted over the window, smoothed but for the first.
    fn show(&mut self, span: RateSpan)
        requires
            span.nanos > 0,
        ensures
            final(self).history == old(self).history,
            final(self).ema_seeded,
            final(self).up_bps == next_shown(
                old(self).up_bps,
                old(self).ema_seeded,
                spec_bytes_per_second(span.up, span.nanos),
            ),
            final(self).down_bps == next_shown(
                old(self).down_bps,
                old(self).ema_seeded,
                spec_bytes_per_second(span.down, span.nanos),
            ),
    {
        let up: u64 = steady(bytes_per_second(span.up, span.nanos));
        let down: u64 = steady(bytes_per_second(span.down, span.nanos));
        if !self.ema_seeded {
            self.up_bps = up;
            self.down_bps = down;
            self.ema_seeded = true;
            return ;
        }
        self.up_bps = steady(ema_u64(self.up_bps, up, RATE_EMA_ALPHA));
        self.down_bps = steady(ema_u64(self.down_bps, down, RATE_EMA_ALPHA));
    }
}

/// Note what two counters stand at, and show their rates over the window.
pub fn update_rate(sample: &mut RateSample, up: u64, down: u64, now: u64)
    ensures
        final(sample)@ == old(sample)@.next(up, down, now),
{
    if let Some(span) = sample.take_point(up, down, now) {
        sample.show(span);
    }
}

/// What was noted under a key.
pub open spec fn noted<K>(m: Map<K, RateSample>, k: K) -> RateView {
    if m.dom().contains(k) {
        m[k]@
    } else {
        RateView::none()
    }
}

/// Note what the counters of a key stand at, and give their rates.
pub fn update_rate_of(
    samples: &mut HashMap<i64, RateSample>,
    k: i64,
    up: u64,
    down: u64,
    now: u64,
) -> (r: Rates)
    ensures
        final(samples)@.dom() == old(samples)@.dom().insert(k),
        forall|q: i64| q != k ==> #[trigger] noted(final(samples)@, q) == noted(old(samples)@, q),
        noted(final(samples)@, k) == noted(old(samples)@, k).next(up, down, now),
        r == noted(final(samples)@, k).rates(),
{
    let mut s = match samples.remove(&k) {
        Some(s) => s,
        None => RateSample::new(),
    };
    update_rate(&mut s, up, down, now);
    let r = Rates { up_bps: s.up_bps, down_bps: s.down_bps };
    samples.insert(k, s);
    assert(samples@.dom() =~= old(samples)@.dom().insert(k));
    r
}

/// The rates of a session: of its torrents, of its peers, and in all.
#[derive(Debug)]
pub struct RateBook {
    pub torrents: HashMap<i64, RateSample>,
    pub peers: HashMap<u64, RateSample>,
    pub total: RateSample,
}

impl RateBook {
    /// Nothing was counted yet.
    pub fn new() -> (b: RateBook)
        ensures
            b.torrents@ == Map::<i64, RateSample>::empty(),
            b.peers@ == Map::<u64, RateSample>::empty(),
            b.total@ == RateView::none(),
    {
        RateBook { torrents: HashMap::new(), peers: HashMap::new(), total: RateSample::new() }
    }
}

/// While nothing is moved, a shown rate sinks until none is shown.
pub proof fn a_quiet_window_decays(shown: u64)
    requires
        shown > 0,
    ensures
        next_shown(shown, true, 0) < shown,
{
    a_mean_lies_between(shown, 0, RATE_EMA_ALPHA as int);
}

/// A shown rate moves towards the mean, and not past it, but for what is left out as noise.
pub proof fn a_shown_rate_follows_the_mean(shown: u64, mean: u64)
    requires
        mean >= RATE_NOISE,
        shown >= RATE_NOISE,
    ensures
        shown <= mean ==> shown <= next_shown(shown, true, mean) <= mean,
        mean <= shown ==> mean <= next_shown(shown, true, mean) <= shown,
{
    a_mean_lies_between(shown, mean, RATE_EMA_ALPHA as int);
}

/// A counter that dips gives no new mean, so what is shown stays as it is.
pub proof fn a_dip_keeps_the_shown_rate(h: Seq<RatePoint>, p: RatePoint)
    requires
        dips(h, p.up, p.down),
    ensures
        with_point(h, p) == seq![p],
        span_of(with_point(h, p)).nanos <= RATE_MIN_SPAN,
{
    let one = Seq::<RatePoint>::empty().push(p);
    assert(in_window(one, p.at) == one);
    assert(with_point(h, p) =~= seq![p]);
}

/// A mean is taken over no more points than are kept.
pub proof fn the_history_is_bounded(h: Seq<RatePoint>, p: RatePoint)
    ensures
        1 <= with_point(h, p).len() <= RATE_MAX_POINTS,
        with_point(h, p).last() == p,
{
    let kept = if dips(h, p.up, p.down) {
        Seq::empty()
    } else {
        h
    };
    window_keeps_last(kept.push(p), p.at);
}

/// A difference is never below zero.
pub proof fn differences_are_not_negative(a: u64, b: u64)
    ensures
        a >= b ==> b + above(a, b) == a,
        a <= b ==> above(a, b) == 0,
{
}

/// Points are at least four tenths of a second apart.
pub proof fn points_keep_their_distance(h: Seq<RatePoint>, now: u64)
    ensures
        crowded(h, now) <==> h.len() > 0 && now < h.last().at + 400_000_000,
        h.len() == 0 ==> !crowded(h, now),
{
}

/// A counter dips where either of the two is below its last point.
pub proof fn either_counter_can_dip(h: Seq<RatePoint>, p: RatePoint, up: u64, down: u64)
    ensures
        dips(h.push(p), up, down) <==> up < p.up || down < p.down,
        !dips(Seq::<RatePoint>::empty(), up, down),
{
}

/// The window keeps the end of the points, all that are less than fifteen seconds old, and at
/// most one before them.
pub proof fn the_window_is_fifteen_seconds(h: Seq<RatePoint>, now: u64, i: int)
    requires
        h.len() > 0,
        forall|a: int, b: int| 0 <= a <= b < h.len() ==> (#[trigger] h[a]).at <= (#[trigger] h[b]).at,
        h.last().at <= now,
        0 <= i < h.len(),
    ensures
        ({
            let w = in_window(h, now);
            let cut = h.len() - w.len();
            &&& 1 <= w.len() <= h.len()
            &&& w == h.subrange(cut, h.len() as int)
            &&& i < cut ==> now >= h[i].at + 15_000_000_000
            &&& i > cut ==> now < h[i].at + 15_000_000_000
        }),
    decreases h.len(),
{
    if h.len() >= 2 && above(now, h[1].at) >= RATE_WINDOW {
        let t = h.drop_first();
        assert(t.last() == h.last());
        assert forall|a: int, b: int| 0 <= a <= b < t.len() implies (#[trigger] t[a]).at <= (
        #[trigger] t[b]).at by {
            assert(h[a + 1].at <= h[b + 1].at);
        }
        the_window_is_fifteen_seconds(
            t,
            now,
            if i > 0 {
                i - 1
            } else {
                0
            },
        );
        let w = in_window(h, now);
        let cut = h.len() - w.len();
        assert(t.subrange(cut - 1, t.len() as int) =~= h.subrange(cut, h.len() as int));
        assert(h[0].at <= h[1].at);
        if i > 0 {
            assert(t[i - 1] == h[i]);
        }
    } else {
        assert(h.subrange(0, h.len() as int) =~= h);
        if i >= 1 {
            assert(h[1].at <= h[i].at);
        }
    }
}

/// The last fifty points are kept.
pub proof fn the_last_points_are_kept(h: Seq<RatePoint>)
    ensures
        h.len() <= 50 ==> newest(h) == h,
        h.len() > 50 ==> newest(h).len() == 50,
        h.len() > 50 ==> h == h.subrange(0, h.len() - 50) + newest(h),
{
    if h.len() > 50 {
        assert(h =~= h.subrange(0, h.len() - 50) + newest(h));
    }
}

/// A point is added behind the others while no counter dips and the window is not over.
pub proof fn points_are_added_at_the_end(h: Seq<RatePoint>, p: RatePoint)
    requires
        h.len() < 50,
        !dips(h, p.up, p.down),
        h.len() >= 2 ==> p.at < h[1].at + 15_000_000_000,
    ensures
        with_point(h, p) == h.push(p),
{
    let q = h.push(p);
    if h.len() == 1 {
        assert(q[1] == p);
    } else if h.len() >= 2 {
        assert(q[1] == h[1]);
    }
    assert(in_window(q, p.at) == q);
}

/// What was counted over the window is what its last point has more than its first.
pub proof fn spans_go_from_first_to_last(h: Seq<RatePoint>)
    requires
        h.len() > 0,
        h[0].up <= h.last().up,
        h[0].down <= h.last().down,
        h[0].at <= h.last().at,
    ensures
        h[0].up + span_of(h).up == h.last().up,
        h[0].down + span_of(h).down == h.last().down,
        h[0].at + span_of(h).nanos == h.last().at,
{
}

/// Less than 512 bytes a second are shown as none; a rate above that is shown as it is.
pub proof fn noise_is_not_shown(bps: u64)
    ensures
        spec_steady(bps) == 0 <==> bps < 512,
        bps >= 512 ==> spec_steady(bps) == bps,
        next_shown(0, false, bps) == spec_steady(bps),
{
}

/// A mean is rounded to the nearest, and the weight of the latest is at most the whole.
pub proof fn means_are_rounded(prev: u64, next: u64, alpha: u64)
    ensures
        alpha <= 1000 ==> alpha * next + (1000 - alpha) * prev - 500 <= 1000 * ema(
            prev,
            next,
            alpha,
        ) <= alpha * next + (1000 - alpha) * prev + 500,
        alpha >= 1000 ==> ema(prev, next, alpha) == next,
        ema(prev, prev, alpha) == prev,
{
    let part = if alpha > 1000 {
        1000
    } else {
        alpha as int
    };
    a_mean_lies_between(prev, next, part);
    a_mean_lies_between(prev, prev, part);
    let p = prev as int;
    let n = next as int;
    assert(1000 * n + (1000 - 1000) * p == 1000 * n) by (nonlinear_arith);
}

/// What is shown takes in fifteen hundredths of the latest mean, and keeps the rest.
pub proof fn shown_rates_are_smoothed(shown: u64, mean: u64)
    requires
        mean >= 512,
        shown >= 512,
    ensures
        150 * mean + 850 * shown - 500 <= 1000 * next_shown(shown, true, mean) <= 150 * mean + 850
            * shown + 500,
{
    means_are_rounded(shown, mean, 150);
    a_shown_rate_follows_the_mean(shown, mean);
}

/// Each counter has its own rate, from its own bytes: the rates of the window where it is long
/// enough, and those that were shown where it is not.
pub proof fn each_counter_has_its_own_rate(r: RateView, up: u64, down: u64, now: u64)
    requires
        !crowded(r.history, now),
    ensures
        ({
            let h = with_point(r.history, RatePoint { at: now, up, down });
            let n = r.next(up, down, now);
            let nanos = span_of(h).nanos;
            &&& n.history == h
            &&& nanos <= 50_000_000 ==> n.rates() == r.rates() && n.ema_seeded == r.ema_seeded
            &&& nanos > 50_000_000 ==> n.ema_seeded
            &&& nanos > 50_000_000 && !r.ema_seeded ==> n.rates().up_bps == spec_steady(
                spec_bytes_per_second(span_of(h).up, nanos),
            ) && n.rates().down_bps == spec_steady(spec_bytes_per_second(span_of(h).down, nanos))
            &&& nanos > 50_000_000 && r.ema_seeded ==> n.rates().up_bps == next_shown(
                r.rates().up_bps,
                true,
                spec_bytes_per_second(span_of(h).up, nanos),
            ) && n.rates().down_bps == next_shown(
                r.rates().down_bps,
                true,
                spec_bytes_per_second(span_of(h).down, nanos),
            )
        }),
        RateView::none().rates() == (Rates { up_bps: 0, down_bps: 0 }),
        RateView::none().history.len() == 0,
{
}

/// Nothing changes where a point comes too soon.
pub proof fn a_point_too_soon_changes_nothing(r: RateView, up: u64, down: u64, now: u64)
    requires
        r.history.len() > 0,
        now < r.history.last().at + 400_000_000,
    ensures
        r.next(up, down, now) == r,
{
}

/// What is noted under a key is what was noted last, and nothing under a key that has none.
pub proof fn rates_are_noted_by_key<K>(m: Map<K, RateSample>, k: K, q: K, s: RateSample)
    ensures
        noted(m.insert(k, s), k) == s@,
        q != k ==> noted(m.insert(k, s), q) == noted(m, q),
        noted(Map::<K, RateSample>::empty(), k) == RateView::none(),
{
}

} // verus!
