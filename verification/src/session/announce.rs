//! When and where torrents are announced.
//!
//! Times are in nanoseconds.
use crate::error::Result;
use crate::hot::HotTorrent;
use crate::net::PeerAddr;
use crate::rate::{NANOS_PER_MILLI, NANOS_PER_SEC};
use crate::session::config::RuntimeConfig;
use crate::text::{
    decimal, lowered, push_decimal, push_signed, same_text, signed, to_lower, trim, trimmed,
};
use crate::tracker::http::{low32, AnnounceRequest, AnnounceResponse};
use std::collections::HashMap;
use vstd::prelude::*;

verus! {

broadcast use vstd::std_specs::hash::group_hash_axioms;

pub const ANNOUNCE_MIN_SECS: u32 = 60;

pub const ANNOUNCE_DEFAULT_SECS: u32 = 1800;

pub const ANNOUNCE_MAX_SECS: u32 = 21_600;

/// Least value of a tracker's minimum interval.
pub const ANNOUNCE_MIN_INTERVAL_FLOOR_SECS: u32 = 300;

/// Minimum interval where a tracker gives none.
pub const ANNOUNCE_DEFAULT_MIN_INTERVAL_SECS: u32 = 600;

/// Largest value of a tracker's minimum interval.
pub const ANNOUNCE_MIN_INTERVAL_CEIL_SECS: u32 = 14_400;

/// Seconds until the next try after all trackers failed.
pub const ANNOUNCE_RETRY_SECS: u64 = 300;

/// Seconds for which a torrent is held back until its first announce is scheduled.
pub const ANNOUNCE_FAR_SECS: u64 = 86_400;

/// Latest time that is dealt with.
pub const TIME_MAX: u64 = 0x7fff_ffff_ffff_ffff;

/// A number within limits.
pub open spec fn within(n: u32, lo: u32, hi: u32) -> u32 {
    if n < lo {
        lo
    } else if n > hi {
        hi
    } else {
        n
    }
}

/// The interval that is kept for a tracker's `secs`.
pub open spec fn kept_interval(secs: u32) -> u32 {
    if secs == 0 {
        ANNOUNCE_DEFAULT_SECS
    } else {
        within(secs, ANNOUNCE_MIN_SECS, ANNOUNCE_MAX_SECS)
    }
}

/// The interval that is kept for a tracker's `secs`.
pub fn clamp_announce_interval(secs: u32) -> (n: u32)
    ensures
        n == kept_interval(secs),
        ANNOUNCE_MIN_SECS <= n <= ANNOUNCE_MAX_SECS,
{
    if secs == 0 {
        ANNOUNCE_DEFAULT_SECS
    } else if secs < ANNOUNCE_MIN_SECS {
        ANNOUNCE_MIN_SECS
    } else if secs > ANNOUNCE_MAX_SECS {
        ANNOUNCE_MAX_SECS
    } else {
        secs
    }
}

/// The minimum interval that is kept for a tracker's `secs`.
pub open spec fn kept_min_interval(secs: u32) -> u32 {
    if secs == 0 {
        ANNOUNCE_DEFAULT_MIN_INTERVAL_SECS
    } else {
        within(secs, ANNOUNCE_MIN_INTERVAL_FLOOR_SECS, ANNOUNCE_MIN_INTERVAL_CEIL_SECS)
    }
}

/// The minimum interval that is kept for a tracker's `secs`.
pub fn clamp_min_interval(secs: u32) -> (n: u32)
    ensures
        n == kept_min_interval(secs),
        ANNOUNCE_MIN_INTERVAL_FLOOR_SECS <= n <= ANNOUNCE_MIN_INTERVAL_CEIL_SECS,
{
    if secs == 0 {
        ANNOUNCE_DEFAULT_MIN_INTERVAL_SECS
    } else if secs < ANNOUNCE_MIN_INTERVAL_FLOOR_SECS {
        ANNOUNCE_MIN_INTERVAL_FLOOR_SECS
    } else if secs > ANNOUNCE_MIN_INTERVAL_CEIL_SECS {
        ANNOUNCE_MIN_INTERVAL_CEIL_SECS
    } else {
        secs
    }
}

// ---------------------------------------------------------------------------
// One torrent.
// ---------------------------------------------------------------------------

/// What an announce tells of.
#[derive(Debug, Clone, Copy, PartialEq, Eq, Structural)]
pub enum AnnounceEvent {
    Started,
    Completed,
    Stopped,
}

impl AnnounceEvent {
    /// Name of the event in a request.
    pub open spec fn name(self) -> Seq<char> {
        match self {
            AnnounceEvent::Started => "started"@,
            AnnounceEvent::Completed => "completed"@,
            AnnounceEvent::Stopped => "stopped"@,
        }
    }

    /// Name of the event in a request.
    pub fn as_str(self) -> (r: &'static str)
        ensures
            r@ == self.name(),
    {
        match self {
            AnnounceEvent::Started => "started",
            AnnounceEvent::Completed => "completed",
            AnnounceEvent::Stopped => "stopped",
        }
    }
}

/// The announces of one torrent.
#[derive(Debug, Clone, Copy, PartialEq, Eq, Structural)]
pub struct TorrentAnnounce {
    /// When the next announce may run.
    pub next_due: u64,
    pub interval_secs: u32,
    pub min_interval_secs: u32,
    /// When an announce last succeeded.
    pub last_success: Option<u64>,
    /// A start was announced.
    pub sent_started: bool,
    /// A completion was announced, or is being announced.
    pub sent_completed: bool,
    /// A completion is to be announced.
    pub pending_completed: bool,
    /// An announce is running.
    pub in_flight: bool,
}

impl TorrentAnnounce {
    /// Nothing announced yet; the first announce is due at `at`.
    pub open spec fn spec_fresh(at: u64) -> TorrentAnnounce {
        TorrentAnnounce {
            next_due: at,
            interval_secs: ANNOUNCE_DEFAULT_SECS,
            min_interval_secs: ANNOUNCE_DEFAULT_MIN_INTERVAL_SECS,
            last_success: None,
            sent_started: false,
            sent_completed: false,
            pending_completed: false,
            in_flight: false,
        }
    }

    /// Nothing announced yet; the first announce is due at `at`.
    pub fn fresh(at: u64) -> (t: TorrentAnnounce)
        ensures
            t == TorrentAnnounce::spec_fresh(at),
    {
        TorrentAnnounce {
            next_due: at,
            interval_secs: ANNOUNCE_DEFAULT_SECS,
            min_interval_secs: ANNOUNCE_DEFAULT_MIN_INTERVAL_SECS,
            last_success: None,
            sent_started: false,
            sent_completed: false,
            pending_completed: false,
            in_flight: false,
        }
    }

    /// What the next announce tells of: the start first, then a completion, then nothing.
    pub open spec fn next_event(&self) -> Option<AnnounceEvent> {
        if self.pending_completed && self.sent_started && !self.sent_completed {
            Some(AnnounceEvent::Completed)
        } else if !self.sent_started {
            Some(AnnounceEvent::Started)
        } else {
            None
        }
    }

    /// The state while an announce runs. A completion counts as sent at once, so that no
    /// second one is sent meanwhile.
    pub open spec fn begun(&self) -> TorrentAnnounce {
        let completing = self.next_event() == Some(AnnounceEvent::Completed);
        TorrentAnnounce {
            in_flight: true,
            sent_completed: self.sent_completed || completing,
            pending_completed: self.pending_completed && !completing,
            ..*self
        }
    }

    /// Begin an announce.
    pub fn begin(&mut self) -> (event: Option<AnnounceEvent>)
        ensures
            event == old(self).next_event(),
            *final(self) == old(self).begun(),
    {
        self.in_flight = true;
        if self.pending_completed && self.sent_started && !self.sent_completed {
            self.sent_completed = true;
            self.pending_completed = false;
            Some(AnnounceEvent::Completed)
        } else if !self.sent_started {
            Some(AnnounceEvent::Started)
        } else {
            None
        }
    }

    /// The state after an announce that told of `event`. `min_interval` is what the tracker
    /// gave, where one was asked.
    pub open spec fn finished(
        &self,
        event: Option<AnnounceEvent>,
        ok: bool,
        interval: u32,
        min_interval: Option<u32>,
        now: u64,
    ) -> TorrentAnnounce {
        if ok {
            let told = TorrentAnnounce {
                in_flight: false,
                min_interval_secs: match min_interval {
                    Some(m) => m,
                    None => self.min_interval_secs,
                },
                last_success: match min_interval {
                    Some(_) => Some(now),
                    None => self.last_success,
                },
                sent_started: self.sent_started || event == Some(AnnounceEvent::Started),
                sent_completed: self.sent_completed || event == Some(AnnounceEvent::Completed),
                pending_completed: self.pending_completed && event != Some(
                    AnnounceEvent::Completed,
                ),
                interval_secs: interval,
                ..*self
            };
            TorrentAnnounce {
                next_due: if told.next_event() == Some(AnnounceEvent::Completed) {
                    now
                } else {
                    (now + NANOS_PER_SEC * interval) as u64
                },
                ..told
            }
        } else {
            TorrentAnnounce {
                in_flight: false,
                sent_completed: self.sent_completed && event != Some(AnnounceEvent::Completed),
                pending_completed: self.pending_completed || event == Some(
                    AnnounceEvent::Completed,
                ),
                next_due: (now + NANOS_PER_SEC * ANNOUNCE_RETRY_SECS) as u64,
                ..*self
            }
        }
    }

    /// An announce is over. Says whether another one is to follow at once, to tell of a
    /// completion.
    pub fn finish(
        &mut self,
        event: Option<AnnounceEvent>,
        ok: bool,
        interval: u32,
        min_interval: Option<u32>,
        now: u64,
    ) -> (again: bool)
        requires
            now <= TIME_MAX,
        ensures
            *final(self) == old(self).finished(event, ok, interval, min_interval, now),
            again == (ok && final(self).next_event() == Some(AnnounceEvent::Completed)),
    {
        if ok {
            if let Some(m) = min_interval {
                self.min_interval_secs = m;
                self.last_success = Some(now);
            }
        }
        self.in_flight = false;
        if !ok {
            if let Some(AnnounceEvent::Completed) = event {
                self.sent_completed = false;
                self.pending_completed = true;
            }
            self.next_due = now + NANOS_PER_SEC * ANNOUNCE_RETRY_SECS;
            return false;
        }
        match event {
            Some(AnnounceEvent::Started) => {
                self.sent_started = true;
            },
            Some(AnnounceEvent::Completed) => {
                self.sent_completed = true;
                self.pending_completed = false;
            },
            _ => {},
        }
        self.interval_secs = interval;
        if self.pending_completed && self.sent_started && !self.sent_completed {
            self.next_due = now;
            return true;
        }
        self.next_due = now + NANOS_PER_SEC * interval as u64;
        false
    }

    /// A completion is to be announced: the torrent was incomplete when it started, and has
    /// every piece now.
    pub open spec fn wants_completed(
        &self,
        incomplete_at_start: bool,
        fully_complete: bool,
    ) -> bool {
        incomplete_at_start && fully_complete && !self.sent_completed && !self.pending_completed
    }

    /// The state with a completion to be announced.
    pub open spec fn with_completed(&self, now: u64) -> TorrentAnnounce {
        TorrentAnnounce {
            pending_completed: true,
            next_due: if self.in_flight {
                self.next_due
            } else {
                now
            },
            ..*self
        }
    }

    /// Ask for a completion to be announced, where the torrent was incomplete when it
    /// started and has every piece now. Says whether to announce at once.
    pub fn request_completed(
        &mut self,
        incomplete_at_start: bool,
        fully_complete: bool,
        now: u64,
    ) -> (kick: bool)
        ensures
            ({
                let asks = old(self).wants_completed(incomplete_at_start, fully_complete);
                &&& kick == (asks && !old(self).in_flight)
                &&& *final(self) == if asks {
                    old(self).with_completed(now)
                } else {
                    *old(self)
                }
            }),
    {
        if !incomplete_at_start || !fully_complete || self.sent_completed
            || self.pending_completed {
            return false;
        }
        self.pending_completed = true;
        if self.in_flight {
            return false;
        }
        self.next_due = now;
        true
    }

    /// The minimum interval in force.
    pub open spec fn gate(&self) -> int {
        NANOS_PER_SEC * if self.min_interval_secs > ANNOUNCE_DEFAULT_MIN_INTERVAL_SECS {
            self.min_interval_secs
        } else {
            ANNOUNCE_DEFAULT_MIN_INTERVAL_SECS
        }
    }

    /// An announce may be brought forward to `now`.
    pub open spec fn may_starve(&self, now: u64) -> bool {
        &&& !self.in_flight
        &&& self.next_due > now
        &&& self.last_success is Some ==> now >= self.last_success->0 + self.gate()
    }

    /// A torrent is short of peers: announce now, unless one is running or the minimum
    /// interval since the last one is not over. Says whether that brought the announce
    /// forward.
    pub fn starve(&mut self, now: u64) -> (pulled: bool)
        ensures
            pulled == old(self).may_starve(now),
            *final(self) == if pulled {
                TorrentAnnounce { next_due: now, ..*old(self) }
            } else {
                *old(self)
            },
    {
        if self.in_flight {
            return false;
        }
        let min_iv: u32 = if self.min_interval_secs > ANNOUNCE_DEFAULT_MIN_INTERVAL_SECS {
            self.min_interval_secs
        } else {
            ANNOUNCE_DEFAULT_MIN_INTERVAL_SECS
        };
        if let Some(last) = self.last_success {
            if now < last || now - last < NANOS_PER_SEC * min_iv as u64 {
                return false;
            }
        }
        if self.next_due > now {
            self.next_due = now;
            return true;
        }
        false
    }

    /// Seconds until the next announce.
    pub open spec fn spec_due_in_secs(&self, now: u64) -> u32 {
        if self.next_due <= now {
            0
        } else if (self.next_due - now) / NANOS_PER_SEC as int > u32::MAX {
            u32::MAX
        } else {
            ((self.next_due - now) / NANOS_PER_SEC as int) as u32
        }
    }

    /// Seconds until the next announce.
    pub fn due_in_secs(&self, now: u64) -> (n: u32)
        ensures
            n == self.spec_due_in_secs(now),
    {
        if self.next_due <= now {
            return 0;
        }
        let secs: u64 = (self.next_due - now) / NANOS_PER_SEC;
        if secs > u32::MAX as u64 {
            u32::MAX
        } else {
            secs as u32
        }
    }
}

/// While a completion is being announced, and once it was, no further one is announced, and
/// none is asked for.
pub proof fn completion_is_announced_once(
    s: TorrentAnnounce,
    now: u64,
    interval: u32,
    min_interval: Option<u32>,
)
    requires
        s.next_event() == Some(AnnounceEvent::Completed),
    ensures
        s.begun().next_event() != Some(AnnounceEvent::Completed),
        !s.begun().wants_completed(true, true),
        ({
            let done = s.begun().finished(
                Some(AnnounceEvent::Completed),
                true,
                interval,
                min_interval,
                now,
            );
            done.sent_completed && done.next_event() is None && !done.wants_completed(true, true)
        }),
{
}

/// A completion whose announce failed is announced again.
pub proof fn a_failed_completion_is_told_again(
    s: TorrentAnnounce,
    now: u64,
    interval: u32,
    min_interval: Option<u32>,
)
    requires
        s.next_event() == Some(AnnounceEvent::Completed),
    ensures
        s.begun().finished(
            Some(AnnounceEvent::Completed),
            false,
            interval,
            min_interval,
            now,
        ).next_event() == Some(AnnounceEvent::Completed),
{
}

/// However short of peers a torrent is, no announce is brought forward before the tracker's
/// minimum interval since the last one is over.
pub proof fn starving_keeps_the_minimum_interval(
    s: TorrentAnnounce,
    event: Option<AnnounceEvent>,
    interval: u32,
    min_interval: u32,
    now: u64,
    later: u64,
)
    requires
        s.finished(event, true, interval, Some(min_interval), now).may_starve(later),
    ensures
        later - now >= NANOS_PER_SEC * min_interval,
        later - now >= NANOS_PER_SEC * ANNOUNCE_DEFAULT_MIN_INTERVAL_SECS,
{
}

/// No completion is announced before the start was.
pub proof fn start_goes_first(s: TorrentAnnounce)
    ensures
        !s.sent_started ==> s.next_event() == Some(AnnounceEvent::Started),
{
}

// ---------------------------------------------------------------------------
// Totals.
// ---------------------------------------------------------------------------

/// Totals of a torrent when it was started.
#[derive(Debug, Clone, Copy, PartialEq, Eq, Structural)]
pub struct AnnounceBaseline {
    pub uploaded: u64,
    pub completed: u64,
    /// Whether a piece was missing, wanted or not.
    pub incomplete_at_start: bool,
}

impl AnnounceBaseline {
    /// The totals where none were noted.
    pub fn none() -> (b: AnnounceBaseline)
        ensures
            b == (AnnounceBaseline { uploaded: 0, completed: 0, incomplete_at_start: false }),
    {
        AnnounceBaseline { uploaded: 0, completed: 0, incomplete_at_start: false }
    }

    /// What was uploaded and completed since the start.
    pub open spec fn spec_since(&self, uploaded: u64, completed: u64) -> (u64, u64) {
        (
            if uploaded > self.uploaded {
                (uploaded - self.uploaded) as u64
            } else {
                0
            },
            if completed > self.completed {
                (completed - self.completed) as u64
            } else {
                0
            },
        )
    }

    /// What was uploaded and completed since the start.
    pub fn since(&self, uploaded: u64, completed: u64) -> (r: (u64, u64))
        ensures
            r == self.spec_since(uploaded, completed),
    {
        (
            if uploaded > self.uploaded {
                uploaded - self.uploaded
            } else {
                0
            },
            if completed > self.completed {
                completed - self.completed
            } else {
                0
            },
        )
    }
}

// ---------------------------------------------------------------------------
// Which trackers are tried.
// ---------------------------------------------------------------------------

/// What addresses are told apart by.
pub open spec fn url_key(url: Seq<char>) -> Seq<char> {
    lowered(trimmed(url))
}

/// Whether an address among the first `n` is the same.
pub open spec fn seen_before(urls: Seq<Seq<char>>, n: int, key: Seq<char>) -> bool {
    exists|j: int| 0 <= j < n && url_key(#[trigger] urls[j]) == key
}

/// The first `n` addresses without blank ones, and without those that came before.
pub open spec fn distinct(urls: Seq<Seq<char>>, n: int) -> Seq<Seq<char>>
    decreases n,
{
    if n <= 0 {
        Seq::empty()
    } else {
        let key = url_key(urls[n - 1]);
        if key.len() == 0 || seen_before(urls, n - 1, key) {
            distinct(urls, n - 1)
        } else {
            distinct(urls, n - 1).push(urls[n - 1])
        }
    }
}

/// The addresses of the first `n` tiers in a row.
pub open spec fn flattened(tiers: Seq<Vec<String>>, n: int) -> Seq<Seq<char>>
    decreases n,
{
    if n <= 0 {
        Seq::empty()
    } else {
        flattened(tiers, n - 1) + tiers[n - 1]@.map_values(|u: String| u@)
    }
}

/// The texts of a list.
pub open spec fn texts(v: Seq<String>) -> Seq<Seq<char>> {
    v.map_values(|u: String| u@)
}

/// The trackers to try, one after the other: tier by tier, each address once.
pub fn announce_order(tiers: &Vec<Vec<String>>) -> (r: Vec<String>)
    ensures
        texts(r@) == distinct(
            flattened(tiers@, tiers@.len() as int),
            flattened(tiers@, tiers@.len() as int).len() as int,
        ),
{
    let mut out: Vec<String> = Vec::new();
    let mut keys: Vec<String> = Vec::new();
    let ghost mut all: Seq<Seq<char>> = Seq::empty();
    let mut t: usize = 0;
    assert(texts(out@) =~= Seq::<Seq<char>>::empty());
    while t < tiers.len()
        invariant
            t <= tiers@.len(),
            all == flattened(tiers@, t as int),
            texts(out@) == distinct(all, all.len() as int),
            forall|k: Seq<char>| #[trigger]
                texts(keys@).contains(k) == (k.len() > 0 && seen_before(
                    all,
                    all.len() as int,
                    k,
                )),
        decreases tiers@.len() - t,
    {
        let urls: &Vec<String> = &tiers[t];
        let ghost base = all;
        let mut i: usize = 0;
        assert(base + texts(urls@).subrange(0, 0) =~= base);
        while i < urls.len()
            invariant
                i <= urls@.len(),
                all == base + texts(urls@).subrange(0, i as int),
                texts(out@) == distinct(all, all.len() as int),
                forall|k: Seq<char>| #[trigger]
                    texts(keys@).contains(k) == (k.len() > 0 && seen_before(
                        all,
                        all.len() as int,
                        k,
                    )),
            decreases urls@.len() - i,
        {
            let url: &String = &urls[i];
            let tr = trim(url.as_str());
            let key = to_lower(tr.as_str());
            let ghost before = all;
            let ghost keys0 = keys@;
            proof {
                all = all.push(url@);
                assert(all =~= base + texts(urls@).subrange(0, i + 1));
                distinct_of_prefix(before, all, before.len() as int);
                assert forall|k: Seq<char>| #[trigger] seen_before(all, all.len() as int, k) == (
                seen_before(before, before.len() as int, k) || url_key(url@) == k) by {
                    pushed_seen(before, url@, k);
                }
                assert(forall|k: Seq<char>|
                    seen_before(all, before.len() as int, k) == seen_before(
                        before,
                        before.len() as int,
                        k,
                    )) by {
                    assert forall|k: Seq<char>|
                        seen_before(all, before.len() as int, k) == seen_before(
                            before,
                            before.len() as int,
                            k,
                        ) by {
                        same_prefix_seen(before, all, k);
                    }
                }
            }
            if !key.as_str().is_empty() && !has_text(&keys, key.as_str()) {
                let own: String = url.as_str().to_owned();
                let ghost out0 = out@;
                out.push(own);
                keys.push(key);
                proof {
                    assert(texts(out@) =~= texts(out0).push(url@));
                    assert(texts(keys@) =~= texts(keys0).push(key@));
                    assert forall|k: Seq<char>| #[trigger]
                        texts(keys@).contains(k) == (k.len() > 0 && seen_before(
                            all,
                            all.len() as int,
                            k,
                        )) by {
                        pushed_has(texts(keys0), key@, k);
                    }
                }
            }
            i += 1;
        }
        assert(texts(urls@).subrange(0, i as int) =~= texts(urls@));
        t += 1;
    }
    out
}

proof fn pushed_has(s: Seq<Seq<char>>, x: Seq<char>, k: Seq<char>)
    ensures
        s.push(x).contains(k) == (s.contains(k) || k == x),
{
    if s.contains(k) {
        let j = choose|j: int| 0 <= j < s.len() && s[j] == k;
        assert(s.push(x)[j] == k);
    }
    if k == x {
        assert(s.push(x)[s.len() as int] == k);
    }
    if s.push(x).contains(k) {
        let j = choose|j: int| 0 <= j < s.push(x).len() && s.push(x)[j] == k;
        if j < s.len() {
            assert(s[j] == k);
        }
    }
}

proof fn pushed_seen(s: Seq<Seq<char>>, x: Seq<char>, k: Seq<char>)
    ensures
        seen_before(s.push(x), s.len() as int + 1, k) == (seen_before(s, s.len() as int, k) || url_key(x)
            == k),
{
    if seen_before(s, s.len() as int, k) {
        let j = choose|j: int| 0 <= j < s.len() && url_key(#[trigger] s[j]) == k;
        assert(url_key(s.push(x)[j]) == k);
    }
    if url_key(x) == k {
        assert(url_key(s.push(x)[s.len() as int]) == k);
    }
    if seen_before(s.push(x), s.len() as int + 1, k) {
        let j = choose|j: int| 0 <= j < s.len() + 1 && url_key(#[trigger] s.push(x)[j]) == k;
        if j < s.len() {
            assert(url_key(s[j]) == k);
        }
    }
}

proof fn same_prefix_seen(a: Seq<Seq<char>>, b: Seq<Seq<char>>, k: Seq<char>)
    requires
        a.len() <= b.len(),
        forall|j: int| 0 <= j < a.len() ==> a[j] == b[j],
    ensures
        seen_before(b, a.len() as int, k) == seen_before(a, a.len() as int, k),
{
    if seen_before(a, a.len() as int, k) {
        let j = choose|j: int| 0 <= j < a.len() && url_key(#[trigger] a[j]) == k;
        assert(url_key(b[j]) == k);
    }
    if seen_before(b, a.len() as int, k) {
        let j = choose|j: int| 0 <= j < a.len() && url_key(#[trigger] b[j]) == k;
        assert(url_key(a[j]) == k);
    }
}

proof fn distinct_of_prefix(a: Seq<Seq<char>>, b: Seq<Seq<char>>, n: int)
    requires
        0 <= n <= a.len() <= b.len(),
        forall|j: int| 0 <= j < a.len() ==> a[j] == b[j],
    ensures
        distinct(b, n) == distinct(a, n),
    decreases n,
{
    if n > 0 {
        distinct_of_prefix(a, b, n - 1);
        let k = url_key(a[n - 1]);
        let x = a.subrange(0, n - 1);
        same_prefix_seen(x, a, k);
        same_prefix_seen(x, b, k);
    }
}

fn has_text(v: &Vec<String>, t: &str) -> (r: bool)
    ensures
        r == texts(v@).contains(t@),
{
    let mut i: usize = 0;
    while i < v.len()
        invariant
            i <= v@.len(),
            forall|j: int| 0 <= j < i ==> (#[trigger] v@[j])@ != t@,
        decreases v@.len() - i,
    {
        if same_text(v[i].as_str(), t) {
            assert(texts(v@)[i as int] == t@);
            return true;
        }
        i += 1;
    }
    proof {
        if texts(v@).contains(t@) {
            let j = choose|j: int| 0 <= j < texts(v@).len() && texts(v@)[j] == t@;
            assert(v@[j]@ == t@);
        }
    }
    false
}

/// No tracker is asked twice in one announce.
pub proof fn no_tracker_is_asked_twice(urls: Seq<Seq<char>>, n: int)
    requires
        0 <= n <= urls.len(),
    ensures
        forall|i: int, j: int|
            0 <= i < j < distinct(urls, n).len() ==> url_key(#[trigger] distinct(urls, n)[i])
                != url_key(#[trigger] distinct(urls, n)[j]),
        forall|i: int|
            0 <= i < distinct(urls, n).len() ==> seen_before(
                urls,
                n,
                url_key(#[trigger] distinct(urls, n)[i]),
            ) && url_key(distinct(urls, n)[i]).len() > 0,
    decreases n,
{
    if n > 0 {
        no_tracker_is_asked_twice(urls, n - 1);
        let d = distinct(urls, n);
        let p = distinct(urls, n - 1);
        assert forall|i: int| 0 <= i < d.len() implies seen_before(urls, n, url_key(#[trigger] d[i]))
            && url_key(d[i]).len() > 0 by {
            if i < p.len() {
                assert(d[i] == p[i]);
                let j = choose|j: int|
                    0 <= j < n - 1 && url_key(#[trigger] urls[j]) == url_key(p[i]);
                assert(0 <= j < n && url_key(urls[j]) == url_key(d[i]));
            } else {
                assert(url_key(urls[n - 1]) == url_key(d[i]));
            }
        }
        assert forall|i: int, j: int| 0 <= i < j < d.len() implies url_key(#[trigger] d[i])
            != url_key(#[trigger] d[j]) by {
            assert(d[i] == p[i]);
            if j < p.len() {
                assert(d[j] == p[j]);
            }
        }
    }
}

/// The result of announcing a torrent.
#[derive(Debug)]
pub struct AnnounceOutcome {
    pub peers: Vec<PeerAddr>,
    pub interval_secs: u32,
    pub min_interval_secs: u32,
    pub ok: bool,
    pub seeders: Option<u32>,
    pub leechers: Option<u32>,
    /// How the last tracker answered.
    pub last_status: Option<String>,
    /// The last tracker that was asked.
    pub last_url: Option<String>,
}

impl AnnounceOutcome {
    /// No tracker has told anything: there are no peers, and the usual intervals hold.
    pub open spec fn tells_nothing(&self) -> bool {
        &&& self.peers@.len() == 0
        &&& self.interval_secs == ANNOUNCE_DEFAULT_SECS
        &&& self.min_interval_secs == ANNOUNCE_DEFAULT_MIN_INTERVAL_SECS
        &&& self.seeders is None
        &&& self.leechers is None
    }

    /// A torrent without trackers.
    pub fn empty_ok() -> (o: AnnounceOutcome)
        ensures
            o.peers@ == Seq::<PeerAddr>::empty(),
            o.interval_secs == ANNOUNCE_DEFAULT_SECS,
            o.min_interval_secs == ANNOUNCE_DEFAULT_MIN_INTERVAL_SECS,
            o.ok,
            o.seeders is None,
            o.leechers is None,
            o.last_status is None,
            o.last_url is None,
    {
        AnnounceOutcome {
            peers: Vec::new(),
            interval_secs: ANNOUNCE_DEFAULT_SECS,
            min_interval_secs: ANNOUNCE_DEFAULT_MIN_INTERVAL_SECS,
            ok: true,
            seeders: None,
            leechers: None,
            last_status: None,
            last_url: None,
        }
    }

    /// No tracker took the announce.
    pub fn all_failed(last_url: Option<String>, last_status: Option<String>) -> (o:
        AnnounceOutcome)
        ensures
            o.peers@ == Seq::<PeerAddr>::empty(),
            o.interval_secs == ANNOUNCE_DEFAULT_SECS,
            o.min_interval_secs == ANNOUNCE_DEFAULT_MIN_INTERVAL_SECS,
            !o.ok,
            o.seeders is None,
            o.leechers is None,
            o.last_status == last_status,
            o.last_url == last_url,
    {
        AnnounceOutcome {
            peers: Vec::new(),
            interval_secs: ANNOUNCE_DEFAULT_SECS,
            min_interval_secs: ANNOUNCE_DEFAULT_MIN_INTERVAL_SECS,
            ok: false,
            seeders: None,
            leechers: None,
            last_status,
            last_url,
        }
    }
}

/// An announce that asks one tracker after the other.
#[derive(Debug)]
pub struct AnnounceWalk {
    pub urls: Vec<String>,
    /// The tracker that is asked.
    pub at: usize,
    /// How the last tracker answered.
    pub last_status: Option<String>,
}

/// What to do next in an announce.
#[derive(Debug)]
pub enum WalkNext {
    /// Ask the tracker with this place in the order.
    Ask(usize),
    Done(AnnounceOutcome),
}

impl AnnounceWalk {
    /// A tracker is being asked.
    pub open spec fn asking(&self) -> bool {
        self.at < self.urls@.len()
    }

    /// Begin an announce. A torrent without trackers is done at once; so is one all of whose
    /// addresses are blank, which counts as failed.
    pub fn start(tiers: &Vec<Vec<String>>) -> (r: (AnnounceWalk, WalkNext))
        ensures
            r.0.at == 0,
            r.0.last_status is None,
            texts(r.0.urls@) == distinct(
                flattened(tiers@, tiers@.len() as int),
                flattened(tiers@, tiers@.len() as int).len() as int,
            ),
            if tiers@.len() == 0 {
                r.1 matches WalkNext::Done(o) && o.ok && o.tells_nothing() && o.last_url is None
                    && o.last_status is None
            } else if r.0.urls@.len() == 0 {
                r.1 matches WalkNext::Done(o) && !o.ok && o.tells_nothing() && o.last_url is None
                    && o.last_status is None
            } else {
                r.1 == WalkNext::Ask(0)
            },
    {
        let urls = announce_order(tiers);
        let w = AnnounceWalk { urls, at: 0, last_status: None };
        if tiers.len() == 0 {
            return (w, WalkNext::Done(AnnounceOutcome::empty_ok()));
        }
        if w.urls.len() == 0 {
            return (w, WalkNext::Done(AnnounceOutcome::all_failed(None, None)));
        }
        (w, WalkNext::Ask(0))
    }

    /// A tracker answered, or could not be asked. The first that takes the announce ends it;
    /// where none is left, the announce has failed.
    pub fn answered(&mut self, reply: Result<AnnounceResponse>) -> (r: WalkNext)
        requires
            old(self).asking(),
        ensures
            final(self).urls == old(self).urls,
            ({
                let url = old(self).urls@[old(self).at as int];
                let status = reply_status(reply);
                if taken(reply) {
                    &&& ends_with(r, reply->Ok_0, url@)
                    &&& *final(self) == *old(self)
                } else {
                    let now = *final(self);
                    &&& now.at == old(self).at + 1
                    &&& now.asking() ==> r == WalkNext::Ask(now.at)
                    &&& now.asking() ==> is_text(now.last_status, status)
                    &&& !now.asking() ==> failed_with(r, url@, status) && now.last_status == old(
                        self,
                    ).last_status
                }
            }),
    {
        let url: String = self.urls[self.at].as_str().to_owned();
        let status: String = match reply {
            Ok(a) => {
                match a.failure {
                    None => {
                        return WalkNext::Done(
                            AnnounceOutcome {
                                peers: a.peers,
                                interval_secs: clamp_announce_interval(a.interval),
                                min_interval_secs: clamp_min_interval(a.min_interval),
                                ok: true,
                                seeders: a.complete,
                                leechers: a.incomplete,
                                last_status: Some("ok".to_owned()),
                                last_url: Some(url),
                            },
                        );
                    },
                    Some(f) => f,
                }
            },
            Err(e) => e.to_string(),
        };
        let n: usize = self.urls.len();
        assert(self.at < n);
        self.at = self.at + 1;
        if self.at < n {
            self.last_status = Some(status);
            return WalkNext::Ask(self.at);
        }
        WalkNext::Done(AnnounceOutcome::all_failed(Some(url), Some(status)))
    }
}

/// A tracker took the announce.
pub open spec fn taken(reply: Result<AnnounceResponse>) -> bool {
    &&& reply matches Ok(a)
    &&& a.failure is None
}

/// How a tracker answered, in words.
pub open spec fn reply_status(reply: Result<AnnounceResponse>) -> Seq<char> {
    match reply {
        Ok(a) => match a.failure {
            Some(f) => f@,
            None => "ok"@,
        },
        Err(e) => e.text(),
    }
}

/// There is a text, and it is this one.
pub open spec fn is_text(t: Option<String>, s: Seq<char>) -> bool {
    &&& t matches Some(u)
    &&& u@ == s
}

/// The announce is over, and this tracker took it with this answer.
pub open spec fn ends_with(r: WalkNext, a: AnnounceResponse, url: Seq<char>) -> bool {
    &&& r matches WalkNext::Done(o)
    &&& o.ok
    &&& o.peers == a.peers
    &&& o.interval_secs == kept_interval(a.interval)
    &&& o.min_interval_secs == kept_min_interval(a.min_interval)
    &&& o.seeders == a.complete
    &&& o.leechers == a.incomplete
    &&& is_text(o.last_status, "ok"@)
    &&& is_text(o.last_url, url)
}

/// The announce is over, and failed with this tracker and answer.
pub open spec fn failed_with(r: WalkNext, url: Seq<char>, status: Seq<char>) -> bool {
    &&& r matches WalkNext::Done(o)
    &&& !o.ok
    &&& o.tells_nothing()
    &&& is_text(o.last_status, status)
    &&& is_text(o.last_url, url)
}

// ---------------------------------------------------------------------------
// All torrents.
// ---------------------------------------------------------------------------

/// The announces of each torrent.
pub type Announces = Map<i64, TorrentAnnounce>;

/// When a torrent is due. One that was never announced is due now.
pub open spec fn due_at(m: Announces, id: i64, now: u64) -> u64 {
    if m.dom().contains(id) {
        m[id].next_due
    } else {
        now
    }
}

/// A torrent is due, and no announce of it runs.
pub open spec fn ready(m: Announces, id: i64, now: u64) -> bool {
    m.dom().contains(id) ==> !m[id].in_flight && now >= m[id].next_due
}

/// The state of a torrent, a new one where there is none.
pub open spec fn entry_or_fresh(m: Announces, id: i64, at: u64) -> TorrentAnnounce {
    if m.dom().contains(id) {
        m[id]
    } else {
        TorrentAnnounce::spec_fresh(at)
    }
}

/// An announce of a torrent is running from now on.
pub open spec fn with_claim(m: Announces, id: i64, now: u64) -> Announces {
    m.insert(id, TorrentAnnounce { in_flight: true, ..entry_or_fresh(m, id, now) })
}

/// Announces of the first `n` torrents of a list are running from now on.
pub open spec fn with_claims(m: Announces, ids: Seq<i64>, n: int, now: u64) -> Announces
    decreases n,
{
    if n <= 0 {
        m
    } else {
        with_claim(with_claims(m, ids, n - 1, now), ids[n - 1], now)
    }
}

/// The torrents with a running announce.
pub open spec fn announcing(m: Announces) -> Set<i64> {
    m.dom().filter(|id: i64| m[id].in_flight)
}

/// Number of running announces.
pub open spec fn running(m: Announces) -> nat {
    announcing(m).len()
}

/// A list in the order of due times, with one torrent more, behind those due at the same
/// time.
pub open spec fn placed_by_due(m: Announces, now: u64, s: Seq<i64>, id: i64) -> Seq<i64>
    decreases s.len(),
{
    if s.len() == 0 || due_at(m, s.last(), now) <= due_at(m, id, now) {
        s.push(id)
    } else {
        placed_by_due(m, now, s.drop_last(), id).push(s.last())
    }
}

/// Those of the first `n` torrents that are ready, earliest first.
pub open spec fn due_order(m: Announces, hot: Seq<i64>, n: int, now: u64) -> Seq<i64>
    decreases n,
{
    if n <= 0 {
        Seq::empty()
    } else if ready(m, hot[n - 1], now) {
        placed_by_due(m, now, due_order(m, hot, n - 1, now), hot[n - 1])
    } else {
        due_order(m, hot, n - 1, now)
    }
}

/// How many of `n` announces may begin while `busy` of them run. No limit where `max` is
/// zero.
pub open spec fn allowed(max: u32, busy: int, n: int) -> int {
    if max == 0 || n <= max - busy {
        n
    } else if max > busy {
        max - busy
    } else {
        0
    }
}

/// When the torrent with this place in the order of start is due.
pub open spec fn slot(now: u64, stagger_ms: u64, i: int) -> u64 {
    (now + NANOS_PER_MILLI * stagger_ms * i) as u64
}

/// The first `n` torrents of a list due one after the other. Those with a running announce
/// are left alone.
pub open spec fn with_slots(m: Announces, ids: Seq<i64>, n: int, stagger_ms: u64, now: u64) -> Announces
    decreases n,
{
    if n <= 0 {
        m
    } else {
        let before = with_slots(m, ids, n - 1, stagger_ms, now);
        let id = ids[n - 1];
        let due = slot(now, stagger_ms, n - 1);
        if before.dom().contains(id) && before[id].in_flight {
            before
        } else {
            before.insert(
                id,
                TorrentAnnounce { next_due: due, ..entry_or_fresh(before, id, due) },
            )
        }
    }
}

proof fn placed_has(m: Announces, now: u64, s: Seq<i64>, id: i64, x: i64)
    ensures
        placed_by_due(m, now, s, id).contains(x) == (s.contains(x) || x == id),
    decreases s.len(),
{
    if s.len() == 0 || due_at(m, s.last(), now) <= due_at(m, id, now) {
        pushed_contains(s, id, x);
    } else {
        placed_has(m, now, s.drop_last(), id, x);
        pushed_contains(placed_by_due(m, now, s.drop_last(), id), s.last(), x);
        pushed_contains(s.drop_last(), s.last(), x);
        assert(s.drop_last().push(s.last()) =~= s);
    }
}

proof fn pushed_contains(s: Seq<i64>, y: i64, x: i64)
    ensures
        s.push(y).contains(x) == (s.contains(x) || x == y),
{
    if s.contains(x) {
        let j = s.index_of(x);
        assert(s.push(y)[j] == x);
    }
    if x == y {
        assert(s.push(y)[s.len() as int] == x);
    }
    if s.push(y).contains(x) && x != y {
        let j = s.push(y).index_of(x);
        assert(s[j] == x);
    }
}

proof fn placed_distinct(m: Announces, now: u64, s: Seq<i64>, id: i64)
    requires
        s.no_duplicates(),
        !s.contains(id),
    ensures
        placed_by_due(m, now, s, id).no_duplicates(),
    decreases s.len(),
{
    if s.len() == 0 || due_at(m, s.last(), now) <= due_at(m, id, now) {
    } else {
        let d = s.drop_last();
        assert(!d.contains(id)) by {
            if d.contains(id) {
                let j = d.index_of(id);
                assert(s[j] == id);
            }
        }
        placed_distinct(m, now, d, id);
        placed_has(m, now, d, id, s.last());
        let p = placed_by_due(m, now, d, id);
        assert(!d.contains(s.last())) by {
            if d.contains(s.last()) {
                let j = d.index_of(s.last());
                assert(s[j] == s[s.len() - 1]);
            }
        }
        assert(s.contains(s.last()));
        assert(!p.contains(s.last()));
        assert forall|i: int, j: int| 0 <= i < p.len() + 1 && 0 <= j < p.len() + 1 && i
            != j implies p.push(s.last())[i] != p.push(s.last())[j] by {
            if i == p.len() {
                assert(p.contains(p[j]));
            } else if j == p.len() {
                assert(p.contains(p[i]));
            }
        }
    }
}

/// Due torrents are announced in the order of their due times, each of the ready ones once.
pub proof fn earliest_goes_first(m: Announces, hot: Seq<i64>, n: int, now: u64)
    requires
        0 <= n <= hot.len(),
        hot.no_duplicates(),
    ensures
        forall|i: int, j: int|
            0 <= i < j < due_order(m, hot, n, now).len() ==> due_at(
                m,
                #[trigger] due_order(m, hot, n, now)[i],
                now,
            ) <= due_at(m, #[trigger] due_order(m, hot, n, now)[j], now),
        due_order(m, hot, n, now).no_duplicates(),
        forall|id: i64| #[trigger]
            due_order(m, hot, n, now).contains(id) == (hot.subrange(0, n).contains(id) && ready(
                m,
                id,
                now,
            )),
    decreases n,
{
    if n > 0 {
        earliest_goes_first(m, hot, n - 1, now);
        let p = due_order(m, hot, n - 1, now);
        let x = hot[n - 1];
        let before = hot.subrange(0, n - 1);
        assert(hot.subrange(0, n) =~= before.push(x));
        assert(!before.contains(x)) by {
            if before.contains(x) {
                let j = before.index_of(x);
                assert(hot[j] == hot[n - 1]);
            }
        }
        assert forall|id: i64| #[trigger] due_order(m, hot, n, now).contains(id) == (hot.subrange(
            0,
            n,
        ).contains(id) && ready(m, id, now)) by {
            pushed_contains(before, x, id);
            placed_has(m, now, p, x, id);
            assert(p.contains(id) == (before.contains(id) && ready(m, id, now)));
        }
        if ready(m, x, now) {
            assert(!p.contains(x));
            placed_distinct(m, now, p, x);
            placed_sorted(m, now, p, x);
        }
    } else {
        assert(due_order(m, hot, n, now).len() == 0);
    }
}

proof fn placed_sorted(m: Announces, now: u64, s: Seq<i64>, id: i64)
    requires
        forall|i: int, j: int|
            0 <= i < j < s.len() ==> due_at(m, #[trigger] s[i], now) <= due_at(
                m,
                #[trigger] s[j],
                now,
            ),
    ensures
        forall|i: int, j: int|
            0 <= i < j < placed_by_due(m, now, s, id).len() ==> due_at(
                m,
                #[trigger] placed_by_due(m, now, s, id)[i],
                now,
            ) <= due_at(m, #[trigger] placed_by_due(m, now, s, id)[j], now),
        forall|i: int|
            0 <= i < placed_by_due(m, now, s, id).len() ==> {
                let d = due_at(m, #[trigger] placed_by_due(m, now, s, id)[i], now);
                d <= due_at(m, id, now) || s.len() > 0 && d <= due_at(m, s.last(), now)
            },
    decreases s.len(),
{
    if s.len() == 0 || due_at(m, s.last(), now) <= due_at(m, id, now) {
        let p = s.push(id);
        assert forall|i: int, j: int| 0 <= i < j < p.len() implies due_at(
            m,
            #[trigger] p[i],
            now,
        ) <= due_at(m, #[trigger] p[j], now) by {
            if j == s.len() && i < s.len() - 1 {
                assert(due_at(m, s[i], now) <= due_at(m, s[s.len() - 1], now));
            }
        }
        assert forall|i: int| 0 <= i < p.len() implies due_at(m, #[trigger] p[i], now) <= due_at(
            m,
            id,
            now,
        ) by {
            if i < s.len() - 1 {
                assert(due_at(m, s[i], now) <= due_at(m, s[s.len() - 1], now));
            }
        }
    } else {
        let d = s.drop_last();
        placed_sorted(m, now, d, id);
        let q = placed_by_due(m, now, d, id);
        assert forall|i: int| 0 <= i < q.len() implies due_at(m, #[trigger] q[i], now) <= due_at(
            m,
            s.last(),
            now,
        ) by {
            if d.len() > 0 {
                assert(due_at(m, s[s.len() - 2], now) <= due_at(m, s[s.len() - 1], now));
                assert(d.last() == s[s.len() - 2]);
            }
        }
    }
}

proof fn running_after_claim(m: Announces, id: i64, now: u64)
    requires
        m.dom().finite(),
    ensures
        running(with_claim(m, id, now)) == running(m) + if announcing(m).contains(id) {
            0int
        } else {
            1
        },
{
    assert(announcing(with_claim(m, id, now)) =~= announcing(m).insert(id));
}

/// The announces of all torrents.
#[derive(Debug)]
pub struct AnnounceSchedule {
    pub entries: HashMap<i64, TorrentAnnounce>,
    /// The first announces have been spread over time.
    pub stagger_applied: bool,
}

impl AnnounceSchedule {
    /// No torrents.
    pub fn new() -> (s: AnnounceSchedule)
        ensures
            s.entries@ == Map::<i64, TorrentAnnounce>::empty(),
            !s.stagger_applied,
    {
        AnnounceSchedule { entries: HashMap::new(), stagger_applied: false }
    }

    fn entry(&self, id: i64, at: u64) -> (e: TorrentAnnounce)
        ensures
            e == entry_or_fresh(self.entries@, id, at),
    {
        match self.entries.get(&id) {
            Some(e) => *e,
            None => TorrentAnnounce::fresh(at),
        }
    }

    /// Spread the first announces of torrents over time, in the order given.
    pub fn batch_announce_hot(&mut self, ids: &Vec<i64>, stagger_ms: u64, now: u64)
        requires
            now + NANOS_PER_MILLI * stagger_ms * ids@.len() <= u64::MAX,
        ensures
            final(self).stagger_applied,
            final(self).entries@ == with_slots(
                old(self).entries@,
                ids@,
                ids@.len() as int,
                stagger_ms,
                now,
            ),
    {
        let ghost m = self.entries@;
        let mut i: usize = 0;
        let mut due: u64 = now;
        let ghost step: int = NANOS_PER_MILLI * stagger_ms;
        while i < ids.len()
            invariant
                i <= ids@.len(),
                now + NANOS_PER_MILLI * stagger_ms * ids@.len() <= u64::MAX,
                step == NANOS_PER_MILLI * stagger_ms,
                due == now + step * i,
                self.entries@ == with_slots(m, ids@, i as int, stagger_ms, now),
            decreases ids@.len() - i,
        {
            let id: i64 = ids[i];
            let mut e = self.entry(id, due);
            assert(due == slot(now, stagger_ms, i as int));
            if !e.in_flight {
                e.next_due = due;
                self.entries.insert(id, e);
            }
            proof {
                assert(step * i + step == step * (i + 1)) by (nonlinear_arith);
                let len = ids@.len() as int;
                assert(step <= step * (i + 1) <= step * len) by (nonlinear_arith)
                    requires
                        0 <= step,
                        0 <= i,
                        i + 1 <= len,
                ;
            }
            due = due + NANOS_PER_MILLI * stagger_ms;
            i += 1;
        }
        self.stagger_applied = true;
    }

    /// A torrent is to run. Until the first announces have been spread over time, a new one
    /// is held back.
    pub fn hold(&mut self, id: i64, now: u64)
        requires
            now <= TIME_MAX,
        ensures
            final(self).stagger_applied == old(self).stagger_applied,
            final(self).entries@ == if old(self).entries@.dom().contains(id) {
                old(self).entries@
            } else if old(self).stagger_applied {
                old(self).entries@.insert(id, TorrentAnnounce::spec_fresh(now))
            } else {
                old(self).entries@.insert(
                    id,
                    TorrentAnnounce::spec_fresh((now + NANOS_PER_SEC * ANNOUNCE_FAR_SECS) as u64),
                )
            },
    {
        if self.entries.contains_key(&id) {
            return ;
        }
        let due: u64 = if self.stagger_applied {
            now
        } else {
            now + NANOS_PER_SEC * ANNOUNCE_FAR_SECS
        };
        self.entries.insert(id, TorrentAnnounce::fresh(due));
    }

    /// A torrent is no longer announced.
    pub fn remove(&mut self, id: i64)
        ensures
            final(self).stagger_applied == old(self).stagger_applied,
            final(self).entries@ == old(self).entries@.remove(id),
    {
        self.entries.remove(&id);
    }

    /// A torrent is started anew and due now.
    pub fn restart(&mut self, id: i64, now: u64)
        ensures
            final(self).stagger_applied == old(self).stagger_applied,
            final(self).entries@ == old(self).entries@.insert(id, TorrentAnnounce::spec_fresh(now)),
    {
        self.entries.insert(id, TorrentAnnounce::fresh(now));
    }

    /// Claim the announce of a torrent. False where one is running, or the torrent is not
    /// active.
    pub fn kick_announce_now(&mut self, id: i64, hot: bool, now: u64) -> (go: bool)
        ensures
            final(self).stagger_applied == old(self).stagger_applied,
            go == (hot && !entry_or_fresh(old(self).entries@, id, now).in_flight),
            final(self).entries@ == if go {
                with_claim(old(self).entries@, id, now)
            } else {
                old(self).entries@
            },
    {
        if !hot {
            return false;
        }
        let mut e = self.entry(id, now);
        if e.in_flight {
            return false;
        }
        e.in_flight = true;
        self.entries.insert(id, e);
        true
    }

    /// Begin the announce of a torrent.
    pub fn begin(&mut self, id: i64, now: u64) -> (event: Option<AnnounceEvent>)
        ensures
            final(self).stagger_applied == old(self).stagger_applied,
            event == entry_or_fresh(old(self).entries@, id, now).next_event(),
            final(self).entries@ == old(self).entries@.insert(
                id,
                entry_or_fresh(old(self).entries@, id, now).begun(),
            ),
    {
        let mut e = self.entry(id, now);
        let event = e.begin();
        self.entries.insert(id, e);
        event
    }

    /// The announce of a torrent is over. Says whether another one is to follow at once.
    pub fn finish(
        &mut self,
        id: i64,
        event: Option<AnnounceEvent>,
        ok: bool,
        interval: u32,
        min_interval: Option<u32>,
        now: u64,
    ) -> (again: bool)
        requires
            now <= TIME_MAX,
        ensures
            final(self).stagger_applied == old(self).stagger_applied,
            ({
                let m = old(self).entries@;
                if m.dom().contains(id) {
                    let e = m[id].finished(event, ok, interval, min_interval, now);
                    &&& final(self).entries@ == m.insert(id, e)
                    &&& again == (ok && e.next_event() == Some(AnnounceEvent::Completed))
                } else {
                    final(self).entries@ == m && !again
                }
            }),
    {
        let mut e = match self.entries.get(&id) {
            Some(e) => *e,
            None => {
                return false;
            },
        };
        let again = e.finish(event, ok, interval, min_interval, now);
        self.entries.insert(id, e);
        again
    }

    /// Ask for the completion of a torrent to be announced. Says whether to announce at once.
    pub fn maybe_request_completed_announce(
        &mut self,
        id: i64,
        incomplete_at_start: bool,
        fully_complete: bool,
        now: u64,
    ) -> (kick: bool)
        ensures
            final(self).stagger_applied == old(self).stagger_applied,
            ({
                let m = old(self).entries@;
                let asks = m.dom().contains(id) && m[id].wants_completed(
                    incomplete_at_start,
                    fully_complete,
                );
                &&& kick == (asks && !m[id].in_flight)
                &&& final(self).entries@ == if asks {
                    m.insert(id, m[id].with_completed(now))
                } else {
                    m
                }
            }),
    {
        let mut e = match self.entries.get(&id) {
            Some(e) => *e,
            None => {
                return false;
            },
        };
        let kick = e.request_completed(incomplete_at_start, fully_complete, now);
        self.entries.insert(id, e);
        proof {
            let m = old(self).entries@;
            assert(m.insert(id, m[id]) =~= m);
        }
        kick
    }

    /// A torrent is short of peers. Says whether its announce was brought forward.
    pub fn starve(&mut self, id: i64, now: u64) -> (pulled: bool)
        ensures
            final(self).stagger_applied == old(self).stagger_applied,
            ({
                let m = old(self).entries@;
                &&& pulled == (m.dom().contains(id) && m[id].may_starve(now))
                &&& final(self).entries@ == if pulled {
                    m.insert(id, TorrentAnnounce { next_due: now, ..m[id] })
                } else {
                    m
                }
            }),
    {
        let mut e = match self.entries.get(&id) {
            Some(e) => *e,
            None => {
                return false;
            },
        };
        let pulled = e.starve(now);
        if pulled {
            self.entries.insert(id, e);
        }
        pulled
    }

    fn count_running(&self) -> (n: usize)
        ensures
            n == running(self.entries@),
    {
        let mut n: usize = 0;
        let len: usize = self.entries.len();
        let ghost m = self.entries@;
        let ghost mut seen: Set<i64> = Set::empty();
        let ghost all: Seq<i64> = vstd::std_specs::iter::IteratorSpec::remaining(
            &self.entries.keys(),
        ).unref();
        for k in it: self.entries.keys()
            invariant
                m == self.entries@,
                len == m.dom().len(),
                all == it.seq().unref(),
                n <= it.index(),
                seen.finite(),
                n == seen.len(),
                forall|id: i64| #[trigger]
                    seen.contains(id) <==> m[id].in_flight && all.subrange(
                        0,
                        it.index() as int,
                    ).contains(id),
        {
            let ghost at = it.index() as int;
            let id: i64 = *k;
            proof {
                assert(all[at] == id);
                assert(all.to_set().contains(id));
                let a = all.subrange(0, at);
                let b = all.subrange(0, at + 1);
                assert(b =~= a.push(id));
                assert(!a.contains(id)) by {
                    if a.contains(id) {
                        let q = a.index_of(id);
                        assert(all[q] == all[at]);
                    }
                }
                assert forall|x: i64| #[trigger] b.contains(x) == (a.contains(x) || x == id) by {
                    pushed_contains(a, id, x);
                }
            }
            if let Some(e) = self.entries.get(&id) {
                if e.in_flight {
                    n += 1;
                    proof {
                        seen = seen.insert(id);
                    }
                }
            }
        }
        proof {
            assert(all.subrange(0, all.len() as int) =~= all);
            assert forall|id: i64| m.dom().contains(id) == #[trigger] all.contains(id) by {
                assert(all.to_set().contains(id) == all.contains(id));
            }
            assert(seen =~= announcing(m));
        }
        n
    }

    /// Claim the announces that are due among the active torrents, earliest first, as many as
    /// may run at a time.
    pub fn poll_announce_due(&mut self, hot: &Vec<i64>, max_inflight: u32, now: u64) -> (ids: Vec<
        i64,
    >)
        requires
            hot@.no_duplicates(),
        ensures
            final(self).stagger_applied == old(self).stagger_applied,
            ({
                let m = old(self).entries@;
                let all = due_order(m, hot@, hot@.len() as int, now);
                let busy = running(m) as int;
                ids@ == all.subrange(0, allowed(max_inflight, busy, all.len() as int))
            }),
            final(self).entries@ == with_claims(
                old(self).entries@,
                ids@,
                ids@.len() as int,
                now,
            ),
            running(final(self).entries@) == running(old(self).entries@) + ids@.len(),
    {
        let ghost m = self.entries@;
        let busy: usize = self.count_running();
        let mut ids: Vec<i64> = Vec::new();
        if max_inflight != 0 && busy >= max_inflight as usize {
            assert(ids@ =~= due_order(m, hot@, hot@.len() as int, now).subrange(0, 0));
            return ids;
        }
        let mut i: usize = 0;
        while i < hot.len()
            invariant
                i <= hot@.len(),
                self.entries@ == m,
                ids@ == due_order(m, hot@, i as int, now),
            decreases hot@.len() - i,
        {
            let id: i64 = hot[i];
            let e = self.entry(id, now);
            if !e.in_flight && now >= e.next_due {
                self.place(&mut ids, id, now);
            }
            i += 1;
        }
        let ghost all = ids@;
        proof {
            earliest_goes_first(m, hot@, hot@.len() as int, now);
        }
        if max_inflight != 0 && ids.len() > max_inflight as usize - busy {
            ids.truncate(max_inflight as usize - busy);
        }
        assert(ids@ =~= all.subrange(
            0,
            allowed(max_inflight, busy as int, all.len() as int),
        ));
        assert forall|j: int| 0 <= j < ids@.len() implies ready(m, #[trigger] ids@[j], now) by {
            assert(all.contains(all[j]));
        }
        let mut k: usize = 0;
        while k < ids.len()
            invariant
                k <= ids@.len(),
                self.stagger_applied == old(self).stagger_applied,
                self.entries@ == with_claims(m, ids@, k as int, now),
                ids@.no_duplicates(),
                forall|j: int| 0 <= j < ids@.len() ==> ready(m, #[trigger] ids@[j], now),
                forall|j: int|
                    k <= j < ids@.len() ==> entry_or_fresh(self.entries@, #[trigger] ids@[j], now)
                        == entry_or_fresh(m, ids@[j], now),
                forall|id: i64|
                    #![trigger self.entries@.dom().contains(id)]
                    self.entries@.dom().contains(id) == (m.dom().contains(id) || exists|j: int|
                        0 <= j < k && ids@[j] == id),
                running(self.entries@) == busy + k,
            decreases ids@.len() - k,
        {
            let id: i64 = ids[k];
            let ghost before = self.entries@;
            proof {
                assert(ready(m, ids@[k as int], now));
                assert(before.dom().contains(id) == m.dom().contains(id));
                running_after_claim(before, id, now);
            }
            let mut e = self.entry(id, now);
            e.in_flight = true;
            self.entries.insert(id, e);
            proof {
                assert(self.entries@ == with_claim(before, id, now));
            }
            k += 1;
        }
        ids
    }

    /// Put a torrent into a list in the order of due times.
    fn place(&self, ids: &mut Vec<i64>, id: i64, now: u64)
        ensures
            final(ids)@ == placed_by_due(self.entries@, now, old(ids)@, id),
    {
        let ghost m = self.entries@;
        let ghost s = ids@;
        let due: u64 = self.entry(id, now).next_due;
        let mut at: usize = ids.len();
        assert(s.subrange(0, at as int) =~= s);
        assert(s.subrange(at as int, s.len() as int) =~= Seq::empty());
        assert(placed_by_due(m, now, s, id) =~= placed_by_due(m, now, s, id) + Seq::empty());
        while at > 0
            invariant_except_break
                at <= ids@.len(),
                ids@ == s,
                self.entries@ == m,
                due == due_at(m, id, now),
                placed_by_due(m, now, s, id) == placed_by_due(
                    m,
                    now,
                    s.subrange(0, at as int),
                    id,
                ) + s.subrange(at as int, s.len() as int),
            ensures
                at <= ids@.len(),
                ids@ == s,
                placed_by_due(m, now, s, id) == s.subrange(0, at as int).push(id) + s.subrange(
                    at as int,
                    s.len() as int,
                ),
            decreases at,
        {
            let other: u64 = self.entry(ids[at - 1], now).next_due;
            let ghost front = s.subrange(0, at as int);
            assert(front.last() == s[at - 1]);
            if other <= due {
                break;
            }
            proof {
                assert(front.drop_last() =~= s.subrange(0, at - 1));
                assert(placed_by_due(m, now, front.drop_last(), id).push(front.last()) + s.subrange(
                    at as int,
                    s.len() as int,
                ) =~= placed_by_due(m, now, front.drop_last(), id) + s.subrange(
                    at - 1,
                    s.len() as int,
                ));
            }
            at -= 1;
        }
        ids.insert(at, id);
        assert(ids@ =~= s.subrange(0, at as int).push(id) + s.subrange(at as int, s.len() as int));
    }
}

// ---------------------------------------------------------------------------
// What is sent, stored and shown.
// ---------------------------------------------------------------------------

/// What is told to a tracker about a torrent, besides the tracker's own address.
#[derive(Debug)]
pub struct AnnounceFacts {
    pub infohash: [u8; 20],
    pub peer_id: [u8; 20],
    pub port: u16,
    pub uploaded: u64,
    pub downloaded: u64,
    pub left: u64,
    pub event: Option<AnnounceEvent>,
    /// Peers that are asked for.
    pub numwant: u32,
    pub user_agent: String,
    pub key: u32,
}

impl AnnounceFacts {
    /// What a session tells of a torrent. Peers are asked for and the client is named as
    /// configured; bytes count from `baseline`, where `uploaded` bytes were sent in all.
    pub fn of_torrent(
        cfg: &RuntimeConfig,
        peer_id: [u8; 20],
        t: &HotTorrent,
        key: u32,
        uploaded: u64,
        baseline: &AnnounceBaseline,
        event: Option<AnnounceEvent>,
    ) -> (f: AnnounceFacts)
        requires
            t.wf(),
        ensures
            f.infohash == t.infohash,
            f.peer_id == peer_id,
            f.port == cfg.listen.spec_port(),
            (f.uploaded, f.downloaded) == baseline.spec_since(
                uploaded,
                t.bytes_had(t.piece_count as int) as u64,
            ),
            f.left == t.size() - t.bytes_had(t.piece_count as int),
            f.event == event,
            f.numwant == cfg.numwant,
            f.user_agent@ == cfg.http_user_agent@,
            f.key == key,
    {
        let completed: u64 = t.completed_bytes();
        let (up, down) = baseline.since(uploaded, completed);
        AnnounceFacts {
            infohash: t.infohash,
            peer_id,
            port: cfg.listen.port(),
            uploaded: up,
            downloaded: down,
            left: t.left_bytes(),
            event,
            numwant: cfg.numwant,
            user_agent: cfg.http_user_agent.as_str().to_owned(),
            key,
        }
    }
}

impl AnnounceWalk {
    /// The request to the tracker with this place in the order.
    pub fn request(&self, i: usize, facts: &AnnounceFacts) -> (req: AnnounceRequest)
        requires
            i < self.urls@.len(),
        ensures
            req.announce_url@ == self.urls@[i as int]@,
            req.infohash == facts.infohash,
            req.peer_id == facts.peer_id,
            req.port == facts.port,
            req.uploaded == facts.uploaded,
            req.downloaded == facts.downloaded,
            req.left == facts.left,
            req.numwant == facts.numwant,
            req.user_agent@ == facts.user_agent@,
            req.key == facts.key,
            match facts.event {
                Some(e) => req.event is Some && req.event->0@ == e.name(),
                None => req.event is None,
            },
    {
        AnnounceRequest {
            announce_url: self.urls[i].as_str().to_owned(),
            infohash: facts.infohash,
            peer_id: facts.peer_id,
            port: facts.port,
            uploaded: facts.uploaded,
            downloaded: facts.downloaded,
            left: facts.left,
            event: match facts.event {
                Some(e) => Some(e.as_str()),
                None => None,
            },
            numwant: facts.numwant,
            user_agent: facts.user_agent.as_str().to_owned(),
            key: facts.key,
        }
    }
}

/// What is stored of a tracker after an announce.
#[derive(Debug)]
pub struct TrackerAnnounceUpdate {
    pub url: String,
    pub seeders: Option<u32>,
    pub leechers: Option<u32>,
    pub interval_secs: Option<u32>,
    pub peers: Option<u32>,
    pub status: String,
    pub success: bool,
}

/// What is to be noted after an announce.
#[derive(Debug)]
pub struct AnnounceNotes {
    /// The tracker sent peers, which take the place of those it sent before.
    pub new_peers: bool,
    /// Numbers of seeders and leechers to show.
    pub swarm: Option<(Option<u32>, Option<u32>)>,
    pub tracker: Option<TrackerAnnounceUpdate>,
    /// Something is to be stored.
    pub store: bool,
}

impl AnnounceOutcome {
    /// What is to be noted. `manual` says that there are addresses given by hand, which are
    /// stored with the others.
    pub fn notes(&self, manual: bool) -> (n: AnnounceNotes)
        ensures
            n.new_peers == (self.peers@.len() > 0),
            n.swarm == if self.ok && (self.seeders is Some || self.leechers is Some) {
                Some((self.seeders, self.leechers))
            } else {
                None
            },
            n.tracker is Some == self.last_url is Some,
            n.tracker matches Some(t) ==> {
                &&& t.url@ == self.last_url->0@
                &&& t.success == self.ok
                &&& t.seeders == if self.ok {
                    self.seeders
                } else {
                    None
                }
                &&& t.leechers == if self.ok {
                    self.leechers
                } else {
                    None
                }
                &&& t.interval_secs == if self.ok {
                    Some(self.interval_secs)
                } else {
                    None
                }
                &&& t.peers == if self.ok {
                    Some(low32(self.peers@.len() as int))
                } else {
                    None
                }
                &&& t.status@ == match self.last_status {
                    Some(s) => s@,
                    None => if self.ok {
                        "ok"@
                    } else {
                        "failed"@
                    },
                }
            },
            n.store == (n.new_peers || manual || n.tracker is Some),
    {
        let new_peers = self.peers.len() > 0;
        let swarm = if self.ok && (self.seeders.is_some() || self.leechers.is_some()) {
            Some((self.seeders, self.leechers))
        } else {
            None
        };
        let tracker = match &self.last_url {
            Some(url) => {
                let status: String = match &self.last_status {
                    Some(s) => s.as_str().to_owned(),
                    None => if self.ok {
                        "ok".to_owned()
                    } else {
                        "failed".to_owned()
                    },
                };
                let count: u32 = (self.peers.len() as u64 % 0x1_0000_0000) as u32;
                Some(
                    TrackerAnnounceUpdate {
                        url: url.as_str().to_owned(),
                        seeders: if self.ok {
                            self.seeders
                        } else {
                            None
                        },
                        leechers: if self.ok {
                            self.leechers
                        } else {
                            None
                        },
                        interval_secs: if self.ok {
                            Some(self.interval_secs)
                        } else {
                            None
                        },
                        peers: if self.ok {
                            Some(count)
                        } else {
                            None
                        },
                        status,
                        success: self.ok,
                    },
                )
            },
            None => None,
        };
        let store = new_peers || manual || tracker.is_some();
        AnnounceNotes { new_peers, swarm, tracker, store }
    }
}

/// What a torrent is doing, for the status line.
pub fn activity_status(id: i64, download_complete: bool, complete: bool) -> (s: String)
    ensures
        s@ == "#"@ + signed(id as int) + if !download_complete {
            " leeching"@
        } else if complete {
            " seeding"@
        } else {
            " seeding (wanted done)"@
        },
{
    let mut s = String::new();
    s.append("#");
    push_signed(&mut s, id);
    if !download_complete {
        s.append(" leeching");
    } else if complete {
        s.append(" seeding");
    } else {
        s.append(" seeding (wanted done)");
    }
    assert(s@ =~= "#"@ + signed(id as int) + if !download_complete {
        " leeching"@
    } else if complete {
        " seeding"@
    } else {
        " seeding (wanted done)"@
    });
    s
}

/// Seconds between the first and the last of `n` announces.
pub open spec fn spread_secs(n: nat, stagger_ms: u64) -> nat {
    if n == 0 {
        0
    } else {
        ((n - 1) as nat * stagger_ms as nat) / 1000
    }
}

/// How the first announces were spread over time, for the status line.
pub fn schedule_status(reason: &str, n: usize, stagger_ms: u64, max_per_host: u32) -> (s: String)
    requires
        n * stagger_ms <= u64::MAX,
    ensures
        s@ == "announce schedule ("@ + reason@ + "): "@ + decimal(n as nat)
            + " torrent(s), stagger="@ + decimal(stagger_ms as nat) + "ms, ~"@ + decimal(
            spread_secs(n as nat, stagger_ms),
        ) + "s spread, max_per_host="@ + decimal(max_per_host as nat),
{
    let spread: u64 = if n == 0 {
        0
    } else {
        proof {
            let k = n as int;
            let g = stagger_ms as int;
            assert((k - 1) * g <= k * g && (k - 1) * g >= 0) by (nonlinear_arith)
                requires
                    k >= 1,
                    g >= 0,
            ;
        }
        ((n - 1) as u64 * stagger_ms) / 1000
    };
    let mut s = String::new();
    s.append("announce schedule (");
    s.append(reason);
    s.append("): ");
    push_decimal(&mut s, n as u64);
    s.append(" torrent(s), stagger=");
    push_decimal(&mut s, stagger_ms);
    s.append("ms, ~");
    push_decimal(&mut s, spread);
    s.append("s spread, max_per_host=");
    push_decimal(&mut s, max_per_host as u64);
    assert(s@ =~= "announce schedule ("@ + reason@ + "): "@ + decimal(n as nat)
        + " torrent(s), stagger="@ + decimal(stagger_ms as nat) + "ms, ~"@ + decimal(
        spread as nat,
    ) + "s spread, max_per_host="@ + decimal(max_per_host as nat));
    s
}

// ---------------------------------------------------------------------------
// Laws.
// ---------------------------------------------------------------------------

/// Events are told to trackers by the words of the protocol.
pub proof fn events_are_told_by_their_words()
    ensures
        AnnounceEvent::Started.name() == seq!['s', 't', 'a', 'r', 't', 'e', 'd'],
        AnnounceEvent::Completed.name() == seq!['c', 'o', 'm', 'p', 'l', 'e', 't', 'e', 'd'],
        AnnounceEvent::Stopped.name() == seq!['s', 't', 'o', 'p', 'p', 'e', 'd'],
{
    reveal_strlit("started");
    reveal_strlit("completed");
    reveal_strlit("stopped");
    assert(AnnounceEvent::Started.name() =~= seq!['s', 't', 'a', 'r', 't', 'e', 'd']);
    assert(AnnounceEvent::Completed.name() =~= seq!['c', 'o', 'm', 'p', 'l', 'e', 't', 'e', 'd']);
    assert(AnnounceEvent::Stopped.name() =~= seq!['s', 't', 'o', 'p', 'p', 'e', 'd']);
}

/// The start is told until it was taken, a completion that is asked for after that, and
/// nothing else.
pub proof fn events_are_told_until_taken(s: TorrentAnnounce)
    ensures
        s.sent_started && s.pending_completed && !s.sent_completed ==> s.next_event() == Some(
            AnnounceEvent::Completed,
        ),
        s.sent_started && (!s.pending_completed || s.sent_completed) ==> s.next_event() is None,
        s.begun().in_flight,
        s.begun().next_due == s.next_due,
        s.begun().sent_started == s.sent_started,
        forall|at: u64| (#[trigger] TorrentAnnounce::spec_fresh(at)).next_due == at
            && !TorrentAnnounce::spec_fresh(at).in_flight && TorrentAnnounce::spec_fresh(
            at,
        ).next_event() == Some(AnnounceEvent::Started),
{
}

/// After an announce that was taken the next one is due after the tracker's interval, or at
/// once where a completion is to be told; after one that was not, after five minutes.
pub proof fn the_next_announce_is_due_after_the_interval(
    s: TorrentAnnounce,
    event: Option<AnnounceEvent>,
    interval: u32,
    min_interval: Option<u32>,
    now: u64,
)
    requires
        now <= TIME_MAX,
    ensures
        ({
            let f = s.finished(event, true, interval, min_interval, now);
            &&& !f.in_flight
            &&& f.next_event() != Some(AnnounceEvent::Completed) ==> f.next_due == now
                + 1_000_000_000 * interval
            &&& f.next_event() == Some(AnnounceEvent::Completed) ==> f.next_due == now
            &&& event == Some(AnnounceEvent::Started) ==> f.sent_started
            &&& event == Some(AnnounceEvent::Completed) ==> f.sent_completed
                && !f.pending_completed
            &&& s.sent_started ==> f.sent_started
            &&& f.interval_secs == interval
        }),
        ({
            let f = s.finished(event, false, interval, min_interval, now);
            &&& !f.in_flight
            &&& f.next_due == now + 300_000_000_000
            &&& f.sent_started == s.sent_started
            &&& event == Some(AnnounceEvent::Completed) ==> !f.sent_completed
                && f.pending_completed
        }),
{
}

/// A completion is asked for once, where pieces were missing at the start and none is now, and
/// it is told at once unless an announce runs.
pub proof fn completions_are_asked_for_once(
    s: TorrentAnnounce,
    incomplete_at_start: bool,
    fully_complete: bool,
    now: u64,
)
    ensures
        s.wants_completed(incomplete_at_start, fully_complete) ==> incomplete_at_start
            && fully_complete && !s.sent_completed,
        incomplete_at_start && fully_complete && !s.sent_completed && !s.pending_completed
            ==> s.wants_completed(incomplete_at_start, fully_complete),
        !s.with_completed(now).wants_completed(true, true),
        !s.in_flight ==> s.with_completed(now).next_due == now,
        s.in_flight ==> s.with_completed(now).next_due == s.next_due,
        s.sent_started && !s.sent_completed ==> s.with_completed(now).next_event() == Some(
            AnnounceEvent::Completed,
        ),
{
}

/// A torrent short of peers is announced as soon as the minimum interval is over.
pub proof fn starving_brings_announces_forward(s: TorrentAnnounce, now: u64)
    ensures
        s.in_flight ==> !s.may_starve(now),
        s.next_due <= now ==> !s.may_starve(now),
        !s.in_flight && s.next_due > now && s.last_success is None ==> s.may_starve(now),
        !s.in_flight && s.next_due > now && s.last_success is Some && s.min_interval_secs >= 600
            && now >= s.last_success->0 + 1_000_000_000 * s.min_interval_secs ==> s.may_starve(now),
        s.last_success is Some && now < s.last_success->0 + 600_000_000_000 ==> !s.may_starve(now),
        s.last_success is Some && now < s.last_success->0 + 1_000_000_000 * s.min_interval_secs
            ==> !s.may_starve(now),
{
}

/// The wait is shown in whole seconds.
pub proof fn waits_are_shown_in_seconds(s: TorrentAnnounce, now: u64)
    ensures
        s.next_due <= now ==> s.spec_due_in_secs(now) == 0,
        s.next_due > now && s.next_due - now < 1_000_000_000 * u32::MAX ==> s.spec_due_in_secs(now)
            * 1_000_000_000 <= s.next_due - now < (s.spec_due_in_secs(now) + 1) * 1_000_000_000,
{
}

/// Intervals of a tracker are taken as they are within limits: a minute to six hours, half an
/// hour where none is given. Minimum intervals: five minutes to four hours, ten minutes where
/// none is given.
pub proof fn intervals_are_kept_within_limits(secs: u32)
    ensures
        60 <= secs <= 21_600 ==> kept_interval(secs) == secs,
        0 < secs < 60 ==> kept_interval(secs) == 60,
        secs > 21_600 ==> kept_interval(secs) == 21_600,
        kept_interval(0) == 1800,
        300 <= secs <= 14_400 ==> kept_min_interval(secs) == secs,
        0 < secs < 300 ==> kept_min_interval(secs) == 300,
        secs > 14_400 ==> kept_min_interval(secs) == 14_400,
        kept_min_interval(0) == 600,
{
}

/// Bytes are told since the start: what was there then does not count.
pub proof fn bytes_are_told_since_the_start(b: AnnounceBaseline, up: u64, completed: u64)
    ensures
        b.uploaded <= up ==> b.spec_since(up, completed).0 + b.uploaded == up,
        b.uploaded > up ==> b.spec_since(up, completed).0 == 0,
        b.completed <= completed ==> b.spec_since(up, completed).1 + b.completed == completed,
        b.completed > completed ==> b.spec_since(up, completed).1 == 0,
{
}

/// No tracker is left out: each address that is not blank is asked, or another one that
/// differs in case and white space alone. Trackers of earlier tiers are asked first.
pub proof fn no_tracker_is_left_out(urls: Seq<Seq<char>>, n: int, i: int)
    requires
        0 <= i < n <= urls.len(),
        trimmed(urls[i]).len() > 0,
    ensures
        exists|k: int|
            0 <= k < distinct(urls, n).len() && lowered(trimmed(#[trigger] distinct(urls, n)[k]))
                == lowered(trimmed(urls[i])),
        distinct(urls, n).len() >= distinct(urls, n - 1).len(),
        distinct(urls, n).subrange(0, distinct(urls, n - 1).len() as int) == distinct(urls, n - 1),
    decreases n,
{
    let before = distinct(urls, n - 1);
    let after = distinct(urls, n);
    assert(after.subrange(0, before.len() as int) =~= before);
    assert(url_key(urls[i]).len() > 0);
    if i < n - 1 {
        no_tracker_is_left_out(urls, n - 1, i);
        let k = choose|k: int|
            0 <= k < before.len() && lowered(trimmed(#[trigger] before[k])) == lowered(
                trimmed(urls[i]),
            );
        assert(after[k] == before[k]);
    } else if seen_before(urls, n - 1, url_key(urls[i])) {
        let j = choose|j: int| 0 <= j < n - 1 && url_key(#[trigger] urls[j]) == url_key(urls[i]);
        assert(trimmed(urls[j]).len() == url_key(urls[j]).len());
        no_tracker_is_left_out(urls, n - 1, j);
        let k = choose|k: int|
            0 <= k < before.len() && lowered(trimmed(#[trigger] before[k])) == lowered(
                trimmed(urls[j]),
            );
        assert(after[k] == before[k]);
    } else {
        assert(after[before.len() as int] == urls[i]);
    }
}

/// The addresses of a tier follow those of the tiers before it, in their order.
pub proof fn tiers_follow_one_another(tiers: Seq<Vec<String>>, n: int, k: int)
    requires
        0 < n <= tiers.len(),
    ensures
        flattened(tiers, 0).len() == 0,
        flattened(tiers, n).len() == flattened(tiers, n - 1).len() + tiers[n - 1]@.len(),
        0 <= k < flattened(tiers, n - 1).len() ==> flattened(tiers, n)[k] == flattened(
            tiers,
            n - 1,
        )[k],
        0 <= k < tiers[n - 1]@.len() ==> flattened(tiers, n)[flattened(tiers, n - 1).len() + k]
            == tiers[n - 1]@[k]@,
{
}

/// A torrent is announced as soon as it is due and no announce of it runs.
pub proof fn torrents_are_announced_when_due(m: Announces, id: i64, now: u64)
    ensures
        m.dom().contains(id) && m[id].in_flight ==> !ready(m, id, now),
        m.dom().contains(id) && now < m[id].next_due ==> !ready(m, id, now),
        m.dom().contains(id) && !m[id].in_flight && now >= m[id].next_due ==> ready(m, id, now),
        !m.dom().contains(id) ==> ready(m, id, now),
        m.dom().contains(id) ==> due_at(m, id, now) == m[id].next_due,
{
}

/// No more announces run than the limit allows, and as many as it allows. Zero stands for no
/// limit.
pub proof fn announces_stay_within_the_limit(max: u32, busy: int, n: int)
    requires
        0 <= busy,
        0 <= n,
    ensures
        0 <= allowed(max, busy, n) <= n,
        max == 0 ==> allowed(max, busy, n) == n,
        0 < max && busy <= max ==> busy + allowed(max, busy, n) <= max,
        0 < max && busy >= max ==> allowed(max, busy, n) == 0,
        0 < max && allowed(max, busy, n) < n && busy <= max ==> busy + allowed(max, busy, n)
            == max,
{
}

/// First announces are as far apart as configured, in the order given.
pub proof fn first_announces_are_spread(
    m: Announces,
    ids: Seq<i64>,
    n: int,
    stagger_ms: u64,
    now: u64,
    k: int,
)
    requires
        0 <= k < n <= ids.len(),
        ids.no_duplicates(),
        !(m.dom().contains(ids[k]) && m[ids[k]].in_flight),
        now + 1_000_000 * stagger_ms * n <= u64::MAX,
    ensures
        with_slots(m, ids, n, stagger_ms, now).dom().contains(ids[k]),
        with_slots(m, ids, n, stagger_ms, now)[ids[k]].next_due == now + 1_000_000 * stagger_ms * k,
        !with_slots(m, ids, n, stagger_ms, now)[ids[k]].in_flight,
    decreases n,
{
    let step = 1_000_000 * stagger_ms as int;
    assert(step * (n - 1) <= step * n && step * k <= step * n) by (nonlinear_arith)
        requires
            0 <= k < n,
            0 <= step,
    ;
    let before = with_slots(m, ids, n - 1, stagger_ms, now);
    if k < n - 1 {
        first_announces_are_spread(m, ids, n - 1, stagger_ms, now, k);
        assert(ids[k] != ids[n - 1]);
    } else {
        unlisted_is_untouched(m, ids, n - 1, stagger_ms, now, ids[k]);
    }
}

proof fn unlisted_is_untouched(
    m: Announces,
    ids: Seq<i64>,
    n: int,
    stagger_ms: u64,
    now: u64,
    id: i64,
)
    requires
        0 <= n <= ids.len(),
        forall|j: int| 0 <= j < n ==> ids[j] != id,
    ensures
        with_slots(m, ids, n, stagger_ms, now).dom().contains(id) == m.dom().contains(id),
        m.dom().contains(id) ==> with_slots(m, ids, n, stagger_ms, now)[id] == m[id],
    decreases n,
{
    if n > 0 {
        unlisted_is_untouched(m, ids, n - 1, stagger_ms, now, id);
        assert(ids[n - 1] != id);
    }
}

/// The torrents whose announces begin are noted as running, and no others.
pub proof fn begun_announces_are_noted(m: Announces, ids: Seq<i64>, n: int, now: u64, id: i64)
    requires
        0 <= n <= ids.len(),
    ensures
        ({
            let after = with_claims(m, ids, n, now);
            &&& ids.subrange(0, n).contains(id) ==> after.dom().contains(id) && after[id].in_flight
            &&& !ids.subrange(0, n).contains(id) ==> after.dom().contains(id) == m.dom().contains(
                id,
            ) && (m.dom().contains(id) ==> after[id] == m[id])
        }),
    decreases n,
{
    if n > 0 {
        begun_announces_are_noted(m, ids, n - 1, now, id);
        let a = ids.subrange(0, n - 1);
        let b = ids.subrange(0, n);
        assert(b =~= a.push(ids[n - 1]));
        pushed_contains(a, ids[n - 1], id);
    }
}

/// An announce that a tracker takes says what the tracker said.
pub proof fn taken_announces_say_what_the_tracker_said(
    r: WalkNext,
    a: AnnounceResponse,
    url: Seq<char>,
)
    requires
        ends_with(r, a, url),
    ensures
        r matches WalkNext::Done(o) && o.ok && o.peers@ == a.peers@ && o.seeders == a.complete
            && o.leechers == a.incomplete && (60 <= a.interval <= 21_600 ==> o.interval_secs
            == a.interval) && (300 <= a.min_interval <= 14_400 ==> o.min_interval_secs
            == a.min_interval),
{
}

/// A reply without a failure takes the announce; a failure and an error do not, and are told
/// in their own words.
pub proof fn failures_do_not_take_announces(reply: Result<AnnounceResponse>)
    ensures
        reply is Err ==> !taken(reply) && reply_status(reply) == reply->Err_0.text(),
        reply matches Ok(a) ==> (taken(reply) <==> a.failure is None),
        reply matches Ok(a) ==> (a.failure matches Some(f) ==> reply_status(reply) == f@),
{
}

/// Announces are ten minutes apart at least, or more where the tracker asks for more.
pub proof fn the_gate_is_what_the_tracker_asks_for(s: TorrentAnnounce)
    ensures
        s.gate() >= 1_000_000_000 * s.min_interval_secs,
        s.gate() >= 600_000_000_000,
        s.gate() == 1_000_000_000 * s.min_interval_secs || s.gate() == 600_000_000_000,
{
}

/// The texts of a list are those of its items, in their order.
pub proof fn texts_are_those_of_the_list(v: Seq<String>, i: int)
    requires
        0 <= i < v.len(),
    ensures
        texts(v).len() == v.len(),
        texts(v)[i] == v[i]@,
{
}

/// An announce that failed tells no peers and no numbers, the usual interval, and which tracker
/// said what.
pub proof fn failed_announces_tell_what_was_said(r: WalkNext, url: Seq<char>, status: Seq<char>)
    requires
        failed_with(r, url, status),
    ensures
        r matches WalkNext::Done(o) && !o.ok && o.peers@.len() == 0 && o.seeders is None
            && o.leechers is None && o.interval_secs == 1800 && o.min_interval_secs == 600 && (
        o.last_status matches
            Some(s) && s@ == status) && (o.last_url matches Some(u) && u@ == url),
{
}

/// A torrent that announces is noted as such, with the rest of its state as it was, and no
/// other torrent is touched.
pub proof fn claims_are_noted(m: Announces, id: i64, other: i64, now: u64)
    requires
        other != id,
    ensures
        with_claim(m, id, now).contains_key(id) && with_claim(m, id, now)[id].in_flight,
        m.contains_key(id) ==> with_claim(m, id, now)[id] == (TorrentAnnounce {
            in_flight: true,
            ..m[id]
        }),
        with_claim(m, id, now).contains_key(other) == m.contains_key(other),
        m.contains_key(other) ==> with_claim(m, id, now)[other] == m[other],
        announcing(with_claim(m, id, now)).contains(id),
        announcing(with_claim(m, id, now)).contains(other) <==> announcing(m).contains(other),
        announcing(m).contains(id) <==> m.contains_key(id) && m[id].in_flight,
        !m.contains_key(id) ==> entry_or_fresh(m, id, now) == TorrentAnnounce::spec_fresh(now),
        m.contains_key(id) ==> entry_or_fresh(m, id, now) == m[id],
{
}

/// A torrent is placed behind those that are due no later, and before those that are due later.
pub proof fn torrents_are_placed_by_their_due_time(m: Announces, now: u64, s: Seq<i64>, id: i64)
    ensures
        s.len() == 0 ==> placed_by_due(m, now, s, id) == seq![id],
        s.len() > 0 && due_at(m, s.last(), now) <= due_at(m, id, now) ==> placed_by_due(
            m,
            now,
            s,
            id,
        ) == s.push(id),
        s.len() > 0 && due_at(m, s.last(), now) > due_at(m, id, now) ==> placed_by_due(
            m,
            now,
            s,
            id,
        ).last() == s.last() && placed_by_due(m, now, s, id).drop_last() == placed_by_due(
            m,
            now,
            s.drop_last(),
            id,
        ),
{
    if s.len() == 0 {
        assert(placed_by_due(m, now, s, id) =~= seq![id]);
    }
    let before = placed_by_due(m, now, s.drop_last(), id);
    if s.len() > 0 {
        assert(before.push(s.last()).drop_last() =~= before);
    }
}

/// The last of a row of announces comes so many steps after the first as there are between.
pub proof fn announces_are_spread_by_steps(n: nat, stagger_ms: u64)
    requires
        n > 0,
    ensures
        1000 * spread_secs(n, stagger_ms) <= (n - 1) * stagger_ms < 1000 * (spread_secs(
            n,
            stagger_ms,
        ) + 1),
        spread_secs(0, stagger_ms) == 0,
        spread_secs(1, stagger_ms) == 0,
{
    let total = (n - 1) as nat * stagger_ms as nat;
    assert(total >= 0);
    assert(0nat * stagger_ms as nat == 0) by (nonlinear_arith);
}

/// A walk asks a tracker while one is left.
pub proof fn a_walk_asks_while_trackers_are_left(w: AnnounceWalk)
    ensures
        w.asking() <==> w.at < w.urls@.len(),
{
}

} // verus!
