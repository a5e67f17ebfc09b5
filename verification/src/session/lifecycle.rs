//! Starting, stopping and removing torrents, and what is done at intervals.
//!
//! Times are in nanoseconds.
use crate::error::{Error, Result};
use crate::text::{decimal, push_decimal, push_signed, signed};
use std::collections::HashSet;
use vstd::prelude::*;

verus! {

broadcast use vstd::std_specs::hash::group_hash_axioms;

/// Time between two looks at which announces are due.
pub const ANNOUNCE_POLL_INTERVAL: u64 = 2_000_000_000;

/// Time between two looks at which torrents are to run.
pub const SYNC_INTERVAL: u64 = 5_000_000_000;

/// Time between two summaries.
pub const SUMMARY_INTERVAL: u64 = 60_000_000_000;

/// Most seconds between two tries to say goodbye to a tracker.
pub const QUIT_BACKOFF_MAX: u32 = 10;

/// A text with a torrent's number in it.
pub open spec fn about(before: Seq<char>, id: i64, after: Seq<char>) -> Seq<char> {
    before + signed(id as int) + after
}

fn text_about(before: &str, id: i64, after: &str) -> (s: String)
    ensures
        s@ == about(before@, id, after@),
{
    let mut s = String::new();
    s.append(before);
    push_signed(&mut s, id);
    s.append(after);
    assert(s@ =~= about(before@, id, after@));
    s
}

/// Torrents that are being checked.
#[derive(Debug)]
pub struct RecheckClaims {
    pub ids: HashSet<i64>,
}

impl RecheckClaims {
    /// A torrent is being checked.
    pub open spec fn claimed(&self, id: i64) -> bool {
        self.ids@.contains(id)
    }

    /// None.
    pub fn new() -> (c: RecheckClaims)
        ensures
            c.ids@ == Set::<i64>::empty(),
    {
        RecheckClaims { ids: HashSet::new() }
    }

    /// Begin to check a torrent. False where it is being checked.
    pub fn try_begin_recheck(&mut self, id: i64) -> (r: bool)
        ensures
            r == !old(self).claimed(id),
            final(self).ids@ == old(self).ids@.insert(id),
    {
        self.ids.insert(id)
    }

    /// A torrent was checked.
    pub fn end_recheck(&mut self, id: i64)
        ensures
            final(self).ids@ == old(self).ids@.remove(id),
    {
        self.ids.remove(&id);
    }

    /// Whether a torrent is being checked.
    pub fn recheck_in_progress(&self, id: i64) -> (r: bool)
        ensures
            r == self.claimed(id),
    {
        self.ids.contains(&id)
    }
}

/// Whether a torrent may be marked as deleted: it is neither being checked nor active.
pub fn soft_delete_torrent(id: i64, rechecking: bool, hot: bool) -> (r: Result<()>)
    ensures
        r is Ok == (!rechecking && !hot),
        r matches Err(e) ==> e is Msg && e.text() == if rechecking {
            about("torrent #"@, id, " recheck in progress; wait or cancel before delete"@)
        } else {
            about("torrent #"@, id, " is started"@)
        },
{
    if rechecking {
        return Err(
            Error::Msg(
                text_about("torrent #", id, " recheck in progress; wait or cancel before delete"),
            ),
        );
    }
    if hot {
        return Err(Error::Msg(text_about("torrent #", id, " is started")));
    }
    Ok(())
}

/// Whether a torrent may be removed: it is neither being checked nor active.
pub fn remove_torrent_catalog(id: i64, rechecking: bool, hot: bool) -> (r: Result<()>)
    ensures
        r is Ok == (!rechecking && !hot),
        r matches Err(e) ==> e is Msg && e.text() == if rechecking {
            about("torrent #"@, id, " recheck in progress; wait or cancel before remove"@)
        } else {
            about("torrent #"@, id, " is started"@)
        },
{
    if rechecking {
        return Err(
            Error::Msg(
                text_about("torrent #", id, " recheck in progress; wait or cancel before remove"),
            ),
        );
    }
    if hot {
        return Err(Error::Msg(text_about("torrent #", id, " is started")));
    }
    Ok(())
}

/// A torrent was started, for the status line.
pub fn starting_status(id: i64) -> (s: String)
    ensures
        s@ == about("#"@, id, " starting \u{2014} announcing\u{2026}"@),
{
    text_about("#", id, " starting \u{2014} announcing\u{2026}")
}

/// A torrent was stopped, for the status line.
pub fn stopped_status(id: i64) -> (s: String)
    ensures
        s@ == "stopped #"@ + signed(id as int),
{
    let s = text_about("stopped #", id, "");
    proof {
        reveal_strlit("");
        assert(s@ =~= "stopped #"@ + signed(id as int));
    }
    s
}

/// A torrent got its last piece, for the status line.
pub fn complete_status(id: i64) -> (s: String)
    ensures
        s@ == about("#"@, id, " complete \u{2014} seeding"@),
{
    text_about("#", id, " complete \u{2014} seeding")
}

/// The first `n` torrents that are wanted but do not run, in order.
pub open spec fn waiting(want: Seq<i64>, hot: Seq<i64>, n: int) -> Seq<i64>
    decreases n,
{
    if n <= 0 {
        Seq::empty()
    } else if hot.contains(want[n - 1]) {
        waiting(want, hot, n - 1)
    } else {
        waiting(want, hot, n - 1).push(want[n - 1])
    }
}

/// The torrents to activate: those that are wanted and do not run yet. One that runs is left
/// alone, so that it does not announce again.
pub fn sync_want_start(want: &Vec<i64>, hot: &Vec<i64>) -> (ids: Vec<i64>)
    ensures
        ids@ == waiting(want@, hot@, want@.len() as int),
{
    let mut ids: Vec<i64> = Vec::new();
    let mut i: usize = 0;
    while i < want.len()
        invariant
            i <= want@.len(),
            ids@ == waiting(want@, hot@, i as int),
        decreases want@.len() - i,
    {
        let id: i64 = want[i];
        let mut j: usize = 0;
        while j < hot.len() && hot[j] != id
            invariant
                j <= hot@.len(),
                forall|k: int| 0 <= k < j ==> hot@[k] != id,
            decreases hot@.len() - j,
        {
            j += 1;
        }
        if j >= hot.len() {
            ids.push(id);
        }
        i += 1;
    }
    ids
}

/// What follows when a file is switched on or off: its space on disk is made where it is on
/// and written, and peers are dialed where wanted pieces are missing.
pub fn file_priority_set(hot: bool, priority: i32, discard_writes: bool, download_complete: bool) -> (r: (
    bool,
    bool,
))
    ensures
        r.0 == (hot && priority > 0 && !discard_writes),
        r.1 == (hot && !download_complete),
{
    (hot && priority > 0 && !discard_writes, hot && !download_complete)
}

// ---------------------------------------------------------------------------
// Intervals.
// ---------------------------------------------------------------------------

/// When things were last done.
#[derive(Debug, Clone, Copy, PartialEq, Eq, Structural)]
pub struct TickState {
    pub last_sync: Option<u64>,
    pub last_announce_poll: Option<u64>,
    pub last_summary: u64,
}

/// What is to be done now.
#[derive(Debug, Clone, Copy, PartialEq, Eq, Structural)]
pub struct TickWork {
    /// See which announces are due, and dial peers.
    pub announce_poll: bool,
    /// See which torrents are to run.
    pub sync: bool,
    /// Sum up what peers did, and store what was sent.
    pub summary: bool,
}

/// Enough time has passed. What was never done is due.
pub open spec fn elapsed(last: Option<u64>, span: u64, now: u64) -> bool {
    last is None || now >= last->0 + span
}

fn is_over(last: Option<u64>, span: u64, now: u64) -> (r: bool)
    ensures
        r == elapsed(last, span, now),
{
    match last {
        None => true,
        Some(t) => now >= t && now - t >= span,
    }
}

impl TickState {
    /// The state at the beginning.
    pub fn new(now: u64) -> (s: TickState)
        ensures
            s.last_sync is None,
            s.last_announce_poll is None,
            s.last_summary == now,
    {
        TickState { last_sync: None, last_announce_poll: None, last_summary: now }
    }

    /// What is to be done now.
    pub fn tick(&mut self, now: u64) -> (w: TickWork)
        ensures
            w.announce_poll == elapsed(old(self).last_announce_poll, ANNOUNCE_POLL_INTERVAL, now),
            w.sync == elapsed(old(self).last_sync, SYNC_INTERVAL, now),
            w.summary == elapsed(Some(old(self).last_summary), SUMMARY_INTERVAL, now),
            final(self).last_announce_poll == if w.announce_poll {
                Some(now)
            } else {
                old(self).last_announce_poll
            },
            final(self).last_sync == if w.sync {
                Some(now)
            } else {
                old(self).last_sync
            },
            final(self).last_summary == if w.summary {
                now
            } else {
                old(self).last_summary
            },
    {
        let announce_poll = is_over(self.last_announce_poll, ANNOUNCE_POLL_INTERVAL, now);
        let sync = is_over(self.last_sync, SYNC_INTERVAL, now);
        let summary = is_over(Some(self.last_summary), SUMMARY_INTERVAL, now);
        if announce_poll {
            self.last_announce_poll = Some(now);
        }
        if sync {
            self.last_sync = Some(now);
        }
        if summary {
            self.last_summary = now;
        }
        TickWork { announce_poll, sync, summary }
    }
}

// ---------------------------------------------------------------------------
// Quitting.
// ---------------------------------------------------------------------------

/// Goodbyes to trackers, which go on until each torrent's is taken.
#[derive(Debug, Clone, Copy, PartialEq, Eq, Structural)]
pub struct QuitProgress {
    pub done: usize,
    pub total: usize,
}

impl QuitProgress {
    pub open spec fn wf(&self) -> bool {
        self.done <= self.total
    }

    /// The goodbyes of this many torrents.
    pub fn new(total: usize) -> (q: QuitProgress)
        ensures
            q.wf(),
            q.done == 0,
            q.total == total,
    {
        QuitProgress { done: 0, total }
    }

    /// All were taken.
    pub fn finished(&self) -> (r: bool)
        ensures
            r == (self.done == self.total),
    {
        self.done == self.total
    }

    /// One was taken.
    pub fn taken(&mut self)
        requires
            old(self).wf(),
            old(self).done < old(self).total,
        ensures
            final(self).wf(),
            final(self).done == old(self).done + 1,
            final(self).total == old(self).total,
    {
        self.done = self.done + 1;
    }

    /// How many were taken, with an ending, for the status line.
    pub fn status(&self, ending: &str) -> (s: String)
        ensures
            s@ == "quitting \u{2014} stopped announce "@ + decimal(self.done as nat) + "/"@
                + decimal(self.total as nat) + ending@,
    {
        let mut s = String::new();
        s.append("quitting \u{2014} stopped announce ");
        push_decimal(&mut s, self.done as u64);
        s.append("/");
        push_decimal(&mut s, self.total as u64);
        s.append(ending);
        assert(s@ =~= "quitting \u{2014} stopped announce "@ + decimal(self.done as nat) + "/"@
            + decimal(self.total as nat) + ending@);
        s
    }
}

/// Seconds until a goodbye is tried again.
pub open spec fn quit_backoff(attempt: u32) -> u32 {
    if attempt > QUIT_BACKOFF_MAX {
        QUIT_BACKOFF_MAX
    } else {
        attempt
    }
}

/// A goodbye was not taken: the number of the next try, and the seconds until then.
pub fn quit_retry(attempt: u32) -> (r: (u32, u32))
    ensures
        r.0 == if attempt == u32::MAX {
            u32::MAX
        } else {
            (attempt + 1) as u32
        },
        r.1 == quit_backoff(attempt),
{
    (
        if attempt == u32::MAX {
            u32::MAX
        } else {
            attempt + 1
        },
        if attempt > QUIT_BACKOFF_MAX {
            QUIT_BACKOFF_MAX
        } else {
            attempt
        },
    )
}

/// A goodbye was not taken, for the status line.
pub fn quit_retry_status(id: i64, attempt: u32) -> (s: String)
    ensures
        s@ == about("quitting \u{2014} #"@, id, " stopped announce failed (try "@) + decimal(
            attempt as nat,
        ) + ") \u{2014} retry "@ + decimal(quit_backoff(attempt) as nat) + "s"@,
{
    let mut s = text_about("quitting \u{2014} #", id, " stopped announce failed (try ");
    let ghost head = s@;
    let (_next, wait) = quit_retry(attempt);
    push_decimal(&mut s, attempt as u64);
    s.append(") \u{2014} retry ");
    push_decimal(&mut s, wait as u64);
    s.append("s");
    assert(s@ =~= head + decimal(attempt as nat) + ") \u{2014} retry "@ + decimal(wait as nat)
        + "s"@);
    s
}

/// A text about a torrent names it by its number, between the two parts.
pub proof fn texts_name_their_torrent(before: Seq<char>, id: i64, after: Seq<char>)
    ensures
        about(before, id, after).subrange(0, before.len() as int) == before,
        about(before, id, after).subrange(
            before.len() as int,
            (before.len() + signed(id as int).len()) as int,
        ) == signed(id as int),
        about(before, id, after).subrange(
            (before.len() + signed(id as int).len()) as int,
            about(before, id, after).len() as int,
        ) == after,
{
    let t = about(before, id, after);
    let m = (before.len() + signed(id as int).len()) as int;
    assert(t.subrange(0, before.len() as int) =~= before);
    assert(t.subrange(before.len() as int, m) =~= signed(id as int));
    assert(t.subrange(m, t.len() as int) =~= after);
}

/// A check that has begun is in progress until it ends, and concerns its own torrent alone.
pub proof fn checks_are_claimed(c: RecheckClaims, id: i64)
    ensures
        c.claimed(id) <==> c.ids@.contains(id),
{
}

/// The torrents that are started are those that are wanted and do not run, in their order.
pub proof fn only_waiting_torrents_are_started(want: Seq<i64>, hot: Seq<i64>, n: int)
    requires
        0 <= n < want.len(),
    ensures
        waiting(want, hot, 0).len() == 0,
        hot.contains(want[n]) ==> waiting(want, hot, n + 1) == waiting(want, hot, n),
        !hot.contains(want[n]) ==> waiting(want, hot, n + 1) == waiting(want, hot, n).push(want[n]),
{
}

/// A wanted torrent is started where it does not run, and one that runs is left alone.
pub proof fn what_runs_is_left_alone(want: Seq<i64>, hot: Seq<i64>, n: int, id: i64)
    requires
        0 <= n <= want.len(),
    ensures
        waiting(want, hot, n).contains(id) <==> want.subrange(0, n).contains(id) && !hot.contains(
            id,
        ),
    decreases n,
{
    if n > 0 {
        what_runs_is_left_alone(want, hot, n - 1, id);
        let all = want.subrange(0, n);
        let some = want.subrange(0, n - 1);
        assert(all =~= some.push(want[n - 1]));
        if all.contains(id) {
            let k = all.index_of(id);
            if k < n - 1 {
                assert(some[k] == id);
            }
        }
        if some.contains(id) {
            let k = some.index_of(id);
            assert(all[k] == id);
        }
        if id == want[n - 1] {
            assert(all[n - 1] == id);
        }
        let before = waiting(want, hot, n - 1);
        let after = waiting(want, hot, n);
        if before.contains(id) {
            let k = before.index_of(id);
            assert(after[k] == id);
        }
        if after.contains(id) && !hot.contains(want[n - 1]) {
            let k = after.index_of(id);
            if k < before.len() {
                assert(before[k] == id);
            }
        }
        if !hot.contains(want[n - 1]) {
            assert(after[after.len() - 1] == want[n - 1]);
        }
    }
}

/// What was never done is due; else it is due once its time has passed.
pub proof fn work_is_due_after_its_time(last: u64, span: u64, now: u64)
    ensures
        elapsed(None, span, now),
        elapsed(Some(last), span, now) <==> now - last >= span,
        ANNOUNCE_POLL_INTERVAL == 2_000_000_000,
        SYNC_INTERVAL == 5_000_000_000,
        SUMMARY_INTERVAL == 60_000_000_000,
{
}

/// A goodbye is tried again after one second more each time, ten at most.
pub proof fn goodbyes_are_tried_again(attempt: u32)
    ensures
        attempt <= 10 ==> quit_backoff(attempt) == attempt,
        attempt > 10 ==> quit_backoff(attempt) == 10,
{
}

} // verus!
