//! Which addresses may be dialed again, and when.
//!
//! Times are in nanoseconds.
use crate::net::PeerAddr;
use crate::rate::NANOS_PER_SEC;
use crate::session::announce::TIME_MAX;
use crate::session::table::{PeerKey, Table};
use vstd::arithmetic::power2::{lemma2_to64, lemma_pow2_unfold, pow2};
use vstd::prelude::*;

verus! {

/// Seconds for which an address is left alone after its first failure.
pub const BACKOFF_FIRST_SECS: u64 = 30;

/// Most seconds for which an address is left alone.
pub const BACKOFF_MAX_SECS: u64 = 1800;

/// Most doublings of the wait.
pub const BACKOFF_DOUBLINGS: u32 = 6;

/// What is remembered of dialing an address.
#[derive(Debug, Clone, Copy, PartialEq, Eq, Structural)]
pub struct DialData {
    /// When the address may be dialed again.
    pub next_ok: u64,
    pub fails: u32,
}

/// Number of doublings of the wait after `fails` failures.
pub open spec fn doublings(fails: int) -> nat {
    if fails <= 1 {
        0
    } else if fails - 1 > BACKOFF_DOUBLINGS {
        BACKOFF_DOUBLINGS as nat
    } else {
        (fails - 1) as nat
    }
}

/// Seconds to wait after `fails` failures: doubled each time, up to a limit.
pub open spec fn backoff_secs(fails: int) -> int {
    let secs = BACKOFF_FIRST_SECS * pow2(doublings(fails));
    if secs > BACKOFF_MAX_SECS {
        BACKOFF_MAX_SECS as int
    } else {
        secs
    }
}

/// Seconds to wait after `fails` failures.
pub fn backoff_delay(fails: u32) -> (secs: u64)
    ensures
        secs == backoff_secs(fails as int),
        BACKOFF_FIRST_SECS <= secs <= BACKOFF_MAX_SECS,
{
    let exp: u32 = if fails <= 1 {
        0
    } else if fails - 1 > BACKOFF_DOUBLINGS {
        BACKOFF_DOUBLINGS
    } else {
        fails - 1
    };
    proof {
        lemma2_to64();
    }
    let mut secs: u64 = BACKOFF_FIRST_SECS;
    let mut i: u32 = 0;
    while i < exp
        invariant
            i <= exp <= BACKOFF_DOUBLINGS,
            secs == BACKOFF_FIRST_SECS * pow2(i as nat),
            secs >= BACKOFF_FIRST_SECS,
            pow2(i as nat) <= 64,
        decreases exp - i,
    {
        proof {
            lemma_pow2_unfold((i + 1) as nat);
            lemma2_to64();
        }
        secs = secs * 2;
        i += 1;
    }
    if secs > BACKOFF_MAX_SECS {
        BACKOFF_MAX_SECS
    } else {
        secs
    }
}

/// The wait never shrinks with another failure.
pub proof fn backoff_grows(fails: int)
    ensures
        backoff_secs(fails) <= backoff_secs(fails + 1),
{
    lemma2_to64();
    let d = doublings(fails);
    if doublings(fails + 1) != d {
        lemma_pow2_unfold(d + 1);
    }
}

/// What is remembered of each address.
pub type Dials = Map<PeerKey, DialData>;

/// What is remembered of an address, nothing where it is new.
pub open spec fn dial_data(m: Dials, key: PeerKey, now: u64) -> DialData {
    if m.dom().contains(key) {
        m[key]
    } else {
        DialData { next_ok: now, fails: 0 }
    }
}

/// What is remembered after another failure.
pub open spec fn failed_once_more(d: DialData, now: u64) -> DialData {
    let fails = if d.fails == u32::MAX {
        u32::MAX
    } else {
        (d.fails + 1) as u32
    };
    DialData { next_ok: (now + NANOS_PER_SEC * backoff_secs(fails as int)) as u64, fails }
}

/// An address is being left alone.
pub open spec fn cooling(m: Dials, key: PeerKey, now: u64) -> bool {
    m.dom().contains(key) && now < m[key].next_ok
}

fn data_or_new(map: &Table<PeerKey, DialData>, key: PeerKey, now: u64) -> (d: DialData)
    requires
        map.wf(),
    ensures
        d == dial_data(map@, key, now),
{
    match map.get(key) {
        Some(d) => *d,
        None => DialData { next_ok: now, fails: 0 },
    }
}

/// Dialing an address failed.
pub fn record_dial_fail(
    map: &mut Table<PeerKey, DialData>,
    torrent_id: i64,
    addr: PeerAddr,
    now: u64,
)
    requires
        old(map).wf(),
        now <= TIME_MAX,
    ensures
        final(map).wf(),
        ({
            let key = PeerKey { torrent_id, addr };
            final(map)@ == old(map)@.insert(
                key,
                failed_once_more(dial_data(old(map)@, key, now), now),
            )
        }),
{
    let key = PeerKey { torrent_id, addr };
    let d = data_or_new(map, key, now);
    let fails: u32 = if d.fails == u32::MAX {
        u32::MAX
    } else {
        d.fails + 1
    };
    let wait: u64 = backoff_delay(fails);
    map.insert(key, DialData { next_ok: now + NANOS_PER_SEC * wait, fails });
}

/// A session was too short to count as a success.
pub fn record_dial_soft_fail(
    map: &mut Table<PeerKey, DialData>,
    torrent_id: i64,
    addr: PeerAddr,
    now: u64,
)
    requires
        old(map).wf(),
        now <= TIME_MAX,
    ensures
        final(map).wf(),
        ({
            let key = PeerKey { torrent_id, addr };
            final(map)@ == old(map)@.insert(
                key,
                failed_once_more(dial_data(old(map)@, key, now), now),
            )
        }),
{
    record_dial_fail(map, torrent_id, addr, now);
}

/// Forget the failures of an address.
pub fn clear_dial_fail(map: &mut Table<PeerKey, DialData>, torrent_id: i64, addr: PeerAddr)
    requires
        old(map).wf(),
    ensures
        final(map).wf(),
        final(map)@ == old(map)@.remove(PeerKey { torrent_id, addr }),
{
    map.remove(PeerKey { torrent_id, addr });
}

/// What is remembered after a session: the address is left alone for a short while.
pub open spec fn quiet_for_now(d: DialData, now: u64) -> DialData {
    let quiet = now + NANOS_PER_SEC * BACKOFF_FIRST_SECS;
    DialData {
        next_ok: if d.next_ok < quiet {
            quiet as u64
        } else {
            d.next_ok
        },
        ..d
    }
}

/// Leave an address alone for a short while after a session with it.
pub fn light_disconnect_cooldown(
    map: &mut Table<PeerKey, DialData>,
    torrent_id: i64,
    addr: PeerAddr,
    now: u64,
)
    requires
        old(map).wf(),
        now <= TIME_MAX,
    ensures
        final(map).wf(),
        ({
            let key = PeerKey { torrent_id, addr };
            final(map)@ == old(map)@.insert(
                key,
                quiet_for_now(dial_data(old(map)@, key, now), now),
            )
        }),
{
    let key = PeerKey { torrent_id, addr };
    let mut d = data_or_new(map, key, now);
    let quiet: u64 = now + NANOS_PER_SEC * BACKOFF_FIRST_SECS;
    if d.next_ok < quiet {
        d.next_ok = quiet;
    }
    map.insert(key, d);
}

/// A session was closed because nothing happened in it. Its address is left alone for a short
/// while.
pub fn record_idle_close(
    map: &mut Table<PeerKey, DialData>,
    torrent_id: i64,
    addr: PeerAddr,
    now: u64,
)
    requires
        old(map).wf(),
        now <= TIME_MAX,
    ensures
        final(map).wf(),
        ({
            let key = PeerKey { torrent_id, addr };
            final(map)@ == old(map)@.insert(
                key,
                quiet_for_now(dial_data(old(map)@, key, now), now),
            )
        }),
{
    light_disconnect_cooldown(map, torrent_id, addr, now);
}

/// Whether an address is being left alone.
pub fn is_cooled_down(
    map: &Table<PeerKey, DialData>,
    torrent_id: i64,
    addr: PeerAddr,
    now: u64,
) -> (r: bool)
    requires
        map.wf(),
    ensures
        r == cooling(map@, PeerKey { torrent_id, addr }, now),
{
    match map.get(PeerKey { torrent_id, addr }) {
        Some(d) => now < d.next_ok,
        None => false,
    }
}

/// After a failure an address is left alone, for as long as the failures ask, and is dialed
/// again after that. Other addresses are not touched.
pub proof fn failures_keep_their_distance(m: Dials, key: PeerKey, other: PeerKey, now: u64, t: u64)
    requires
        now <= TIME_MAX,
        other != key,
    ensures
        ({
            let d = failed_once_more(dial_data(m, key, now), now);
            let after = m.insert(key, d);
            &&& cooling(after, key, t) == (t < now + NANOS_PER_SEC * backoff_secs(d.fails as int))
            &&& cooling(after, other, t) == cooling(m, other, t)
        }),
{
    let d = failed_once_more(dial_data(m, key, now), now);
    assert(0 <= backoff_secs(d.fails as int) <= BACKOFF_MAX_SECS);
}

/// The wait is half a minute after the first failure, twice as long after each further one,
/// and half an hour at most.
pub proof fn waits_double_up_to_half_an_hour(fails: int)
    ensures
        fails <= 1 ==> backoff_secs(fails) == 30,
        1 <= fails && 2 * backoff_secs(fails) <= 1800 ==> backoff_secs(fails + 1) == 2
            * backoff_secs(fails),
        1 <= fails && 2 * backoff_secs(fails) > 1800 ==> backoff_secs(fails + 1) == 1800,
{
    lemma2_to64();
    let d = doublings(fails);
    if doublings(fails + 1) != d {
        lemma_pow2_unfold(d + 1);
    }
    if fails >= 7 {
        assert(d == 6);
    } else if fails >= 1 {
        assert(d == fails - 1);
        assert(d == 0 || d == 1 || d == 2 || d == 3 || d == 4 || d == 5);
    }
}

/// An address of which nothing is known may be dialed, failures are counted, and a short quiet
/// lasts half a minute and cuts no longer one short.
pub proof fn what_is_remembered_of_dialing(m: Dials, key: PeerKey, d: DialData, now: u64, t: u64)
    requires
        now <= TIME_MAX,
    ensures
        !m.dom().contains(key) ==> !cooling(m, key, t) && dial_data(m, key, now).fails == 0,
        d.fails < u32::MAX ==> failed_once_more(d, now).fails == d.fails + 1,
        quiet_for_now(d, now).fails == d.fails,
        quiet_for_now(d, now).next_ok >= now + 30_000_000_000,
        quiet_for_now(d, now).next_ok >= d.next_ok,
        quiet_for_now(d, now).next_ok == now + 30_000_000_000 || quiet_for_now(d, now).next_ok
            == d.next_ok,
{
}

/// The wait is between half a minute and half an hour.
pub proof fn backoff_is_bounded(fails: int)
    ensures
        30 <= backoff_secs(fails) <= 1800,
{
    lemma2_to64();
    let d = doublings(fails);
    assert(d == 0 || d == 1 || d == 2 || d == 3 || d == 4 || d == 5 || d == 6);
}

} // verus!
