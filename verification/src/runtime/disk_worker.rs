//! Writing pieces: which backend is used, how often it is restarted, and how the writes of a
//! piece are followed.
use crate::error::{Error, Result};
use crate::hot::{span_bytes, Span};
use crate::runtime::hash_worker::{DiskWriteJob, HashOutcome};
use crate::text::{
    chars_of, debug_str, debug_text, decimal, lowered, parse_number, parsed_number, push_decimal,
    same_text, to_lower, trim, trimmed,
};
use vstd::prelude::*;

pub mod inflight;

verus! {

/// Pieces that are written at a time where none is configured.
pub const DEFAULT_DISK_DEPTH: usize = 32;

/// Most pieces that are written at a time.
pub const DISK_DEPTH_MAX: usize = 256;

/// How often the disk thread is restarted in a session.
pub const MAX_DISK_RESTARTS: u32 = 3;

/// Time between restarts, in nanoseconds.
pub const DISK_RESTART_COOLDOWN: u64 = 5_000_000_000;

/// Status where the disk thread will not be restarted again.
pub const DISK_WORKER_DEAD_STATUS: &'static str = "disk worker dead \u{2014} restart process";

// ---------------------------------------------------------------------------
// Backends.
// ---------------------------------------------------------------------------

/// A way to write.
#[derive(Debug, Clone, Copy, PartialEq, Eq, Structural)]
pub enum DiskBackendKind {
    Thread,
    Uring,
    Aio,
}

impl DiskBackendKind {
    /// Name of the backend.
    pub fn as_str(self) -> (r: &'static str)
        ensures
            r@ == match self {
                DiskBackendKind::Thread => "thread"@,
                DiskBackendKind::Uring => "io_uring"@,
                DiskBackendKind::Aio => "aio"@,
            },
    {
        match self {
            DiskBackendKind::Thread => "thread",
            DiskBackendKind::Uring => "io_uring",
            DiskBackendKind::Aio => "aio",
        }
    }
}

/// The backend that is asked for.
#[derive(Debug, Clone, Copy, PartialEq, Eq, Structural)]
pub enum BackendWant {
    Auto,
    Thread,
    Uring,
    Aio,
}

/// What the system offers.
#[derive(Debug, Clone, Copy, PartialEq, Eq, Structural)]
pub enum DiskPlatform {
    /// Linux: io_uring.
    Uring,
    /// FreeBSD and Darwin: POSIX AIO.
    Aio,
    /// Plain writes alone.
    Plain,
}

/// The backend that a name asks for.
pub open spec fn backend_named(s: Seq<char>) -> Option<BackendWant> {
    let t = lowered(trimmed(s));
    if t.len() == 0 || t == "auto"@ {
        Some(BackendWant::Auto)
    } else if t == "thread"@ {
        Some(BackendWant::Thread)
    } else if t == "uring"@ {
        Some(BackendWant::Uring)
    } else if t == "aio"@ {
        Some(BackendWant::Aio)
    } else {
        None
    }
}

/// The backend that a name asks for.
pub fn parse_backend_want(s: &str) -> (r: Result<BackendWant>)
    ensures
        match r {
            Ok(w) => backend_named(s@) == Some(w),
            Err(e) => backend_named(s@) is None && e is Msg && e.text()
                == "unknown disk.backend "@ + debug_text(lowered(trimmed(s@)))
                + " (auto|thread|uring|aio)"@,
        },
{
    let tr = trim(s);
    let t = to_lower(tr.as_str());
    if t.as_str().is_empty() || same_text(t.as_str(), "auto") {
        return Ok(BackendWant::Auto);
    }
    if same_text(t.as_str(), "thread") {
        return Ok(BackendWant::Thread);
    }
    if same_text(t.as_str(), "uring") {
        return Ok(BackendWant::Uring);
    }
    if same_text(t.as_str(), "aio") {
        return Ok(BackendWant::Aio);
    }
    let mut m = String::new();
    m.append("unknown disk.backend ");
    m.append(debug_str(t.as_str()).as_str());
    m.append(" (auto|thread|uring|aio)");
    assert(m@ =~= "unknown disk.backend "@ + debug_text(lowered(trimmed(s@)))
        + " (auto|thread|uring|aio)"@);
    Err(Error::Msg(m))
}

/// The backends to try in turn: the one that is asked for where the system has it, then
/// plain writes.
pub open spec fn backends_for(want: BackendWant, platform: DiskPlatform) -> Seq<DiskBackendKind> {
    match (want, platform) {
        (BackendWant::Uring, DiskPlatform::Uring) => seq![
            DiskBackendKind::Uring,
            DiskBackendKind::Thread,
        ],
        (BackendWant::Auto, DiskPlatform::Uring) => seq![
            DiskBackendKind::Uring,
            DiskBackendKind::Thread,
        ],
        (BackendWant::Aio, DiskPlatform::Aio) => seq![DiskBackendKind::Aio, DiskBackendKind::Thread],
        (BackendWant::Auto, DiskPlatform::Aio) => seq![
            DiskBackendKind::Aio,
            DiskBackendKind::Thread,
        ],
        _ => seq![DiskBackendKind::Thread],
    }
}

/// The backends to try in turn.
pub fn spawn_backend(want: BackendWant, platform: DiskPlatform) -> (r: Vec<DiskBackendKind>)
    ensures
        r@ == backends_for(want, platform),
        r@.last() == DiskBackendKind::Thread,
{
    let mut r: Vec<DiskBackendKind> = Vec::new();
    match (want, platform) {
        (BackendWant::Uring, DiskPlatform::Uring) => {
            r.push(DiskBackendKind::Uring);
        },
        (BackendWant::Auto, DiskPlatform::Uring) => {
            r.push(DiskBackendKind::Uring);
        },
        (BackendWant::Aio, DiskPlatform::Aio) => {
            r.push(DiskBackendKind::Aio);
        },
        (BackendWant::Auto, DiskPlatform::Aio) => {
            r.push(DiskBackendKind::Aio);
        },
        _ => {},
    }
    r.push(DiskBackendKind::Thread);
    assert(r@ =~= backends_for(want, platform));
    r
}

/// A depth within its limits.
pub open spec fn clamped_depth(n: int) -> int {
    if n < 1 {
        1
    } else if n > DISK_DEPTH_MAX {
        DISK_DEPTH_MAX as int
    } else {
        n
    }
}

/// Pieces to write at a time, within the limits.
pub fn clamp_depth(depth: usize) -> (n: usize)
    ensures
        n == clamped_depth(depth as int),
{
    if depth < 1 {
        1
    } else if depth > DISK_DEPTH_MAX {
        DISK_DEPTH_MAX
    } else {
        depth
    }
}

/// Pieces to write at a time, from the text of a setting where there is one. Text that is no
/// number counts as none.
pub fn disk_depth_from_env(value: Option<&str>) -> (n: usize)
    ensures
        n == match value {
            Some(s) => match parsed_number(trimmed(s@), usize::MAX as nat) {
                Some(v) => clamped_depth(v as int),
                None => DEFAULT_DISK_DEPTH as int,
            },
            None => DEFAULT_DISK_DEPTH as int,
        },
{
    match value {
        None => DEFAULT_DISK_DEPTH,
        Some(s) => {
            let t = trim(s);
            let v: Vec<char> = chars_of(t.as_str());
            assert(v@.subrange(0, v@.len() as int) =~= v@);
            match parse_number(&v, 0, v.len(), usize::MAX as u64) {
                Some(n) => clamp_depth(n as usize),
                None => DEFAULT_DISK_DEPTH,
            }
        },
    }
}

// ---------------------------------------------------------------------------
// Restarts.
// ---------------------------------------------------------------------------

/// Whether an error says that the disk thread has stopped and may be restarted.
pub fn is_backend_dead(e: &Error) -> (r: bool)
    ensures
        r == (e is DiskWorkerStopped),
{
    match e {
        Error::DiskWorkerStopped => true,
        _ => false,
    }
}

/// How often the disk thread was restarted, and whether it may be again.
#[derive(Debug, Clone, Copy, PartialEq, Eq, Structural)]
pub struct RestartState {
    pub restarts: u32,
    /// When it was last restarted, in nanoseconds.
    pub last_restart: Option<u64>,
    pub dead_permanent: bool,
}

/// What a dead disk thread leads to.
#[derive(Debug, Clone, Copy, PartialEq, Eq, Structural)]
pub enum RestartDecision {
    /// It was given up before.
    StaysDead,
    /// It is given up now.
    GivenUp,
    /// It was restarted a moment ago.
    Cooldown,
    /// Start another.
    Spawn,
}

impl RestartState {
    /// A thread that was never restarted.
    pub fn new() -> (s: RestartState)
        ensures
            s == (RestartState { restarts: 0, last_restart: None, dead_permanent: false }),
    {
        RestartState { restarts: 0, last_restart: None, dead_permanent: false }
    }

    /// No more restarts than allowed.
    pub open spec fn wf(&self) -> bool {
        self.restarts <= MAX_DISK_RESTARTS
    }

    /// Whether the last restart was a moment ago.
    pub open spec fn cooling(&self, now: u64) -> bool {
        self.last_restart matches Some(last) && now - last < DISK_RESTART_COOLDOWN
    }

    /// The decision where the thread is found dead.
    pub open spec fn decision(&self, now: u64) -> RestartDecision {
        if self.dead_permanent {
            RestartDecision::StaysDead
        } else if self.restarts >= MAX_DISK_RESTARTS {
            RestartDecision::GivenUp
        } else if self.cooling(now) {
            RestartDecision::Cooldown
        } else {
            RestartDecision::Spawn
        }
    }

    /// The state after that decision. A restart is counted before it is tried.
    pub open spec fn decided(&self, now: u64) -> RestartState {
        match self.decision(now) {
            RestartDecision::GivenUp => RestartState { dead_permanent: true, ..*self },
            RestartDecision::Spawn => RestartState {
                restarts: (self.restarts + 1) as u32,
                last_restart: Some(now),
                ..*self
            },
            _ => *self,
        }
    }

    /// Decide what a dead thread leads to.
    pub fn try_restart(&mut self, now: u64) -> (d: RestartDecision)
        ensures
            d == old(self).decision(now),
            *final(self) == old(self).decided(now),
            old(self).wf() ==> final(self).wf(),
    {
        if self.dead_permanent {
            return RestartDecision::StaysDead;
        }
        if self.restarts >= MAX_DISK_RESTARTS {
            self.dead_permanent = true;
            return RestartDecision::GivenUp;
        }
        if let Some(last) = self.last_restart {
            if now < last || now - last < DISK_RESTART_COOLDOWN {
                return RestartDecision::Cooldown;
            }
        }
        self.restarts = self.restarts + 1;
        self.last_restart = Some(now);
        RestartDecision::Spawn
    }

    /// A new thread was started. False where the worker was given up meanwhile.
    pub fn spawned(&self) -> (install: bool)
        ensures
            install == !self.dead_permanent,
    {
        !self.dead_permanent
    }

    /// A new thread could not be started: the worker is given up after the last allowed try.
    pub fn spawn_failed(&mut self) -> (permanent: bool)
        ensures
            permanent == (old(self).restarts >= MAX_DISK_RESTARTS),
            *final(self) == (RestartState {
                dead_permanent: old(self).dead_permanent || permanent,
                ..*old(self)
            }),
    {
        if self.restarts >= MAX_DISK_RESTARTS {
            self.dead_permanent = true;
            return true;
        }
        false
    }

    /// Whether a piece may be handed to the disk thread at all.
    pub fn check_alive(&self) -> (r: Result<()>)
        ensures
            r is Ok <==> !self.dead_permanent,
            r matches Err(e) ==> e is DiskWorkerPermanent,
    {
        if self.dead_permanent {
            return Err(Error::DiskWorkerPermanent);
        }
        Ok(())
    }

    /// The error of a piece that could not be handed over and is not tried again.
    pub fn refusal(&self, cause: Error) -> (e: Error)
        ensures
            e == if self.dead_permanent {
                Error::DiskWorkerPermanent
            } else {
                cause
            },
    {
        if self.dead_permanent {
            Error::DiskWorkerPermanent
        } else {
            cause
        }
    }

    /// Status after a restart.
    pub fn restarted_status(&self) -> (s: String)
        ensures
            s@ == "disk worker restarted ("@ + decimal(self.restarts as nat) + "/"@ + decimal(
                MAX_DISK_RESTARTS as nat,
            ) + ")"@,
    {
        let mut s = String::new();
        s.append("disk worker restarted (");
        push_decimal(&mut s, self.restarts as u64);
        s.append("/");
        push_decimal(&mut s, MAX_DISK_RESTARTS as u64);
        s.append(")");
        assert(s@ =~= "disk worker restarted ("@ + decimal(self.restarts as nat) + "/"@ + decimal(
            MAX_DISK_RESTARTS as nat,
        ) + ")"@);
        s
    }
}

/// A worker that was given up stays so, and restarts are never taken back.
pub proof fn given_up_for_good(s: RestartState, now: u64)
    ensures
        s.dead_permanent ==> s.decided(now) == s && s.decision(now) == RestartDecision::StaysDead,
        s.decided(now).restarts >= s.restarts,
        s.decision(now) == RestartDecision::Spawn ==> s.restarts < MAX_DISK_RESTARTS,
{
}

/// A second restart comes no sooner than the cooldown allows.
pub proof fn restarts_keep_their_distance(s: RestartState, first: u64, second: u64)
    requires
        s.decision(first) == RestartDecision::Spawn,
        s.decided(first).decision(second) == RestartDecision::Spawn,
    ensures
        second >= first + DISK_RESTART_COOLDOWN,
{
}

// ---------------------------------------------------------------------------
// The writes of a piece.
// ---------------------------------------------------------------------------

/// The outcome of a write.
pub fn complete_write_job(job: DiskWriteJob, written: bool) -> (r: HashOutcome)
    ensures
        r == if written {
            HashOutcome::Done { index: job.index, plen: job.plen, data: job.data }
        } else {
            HashOutcome::WriteFail { index: job.index, plen: job.plen, data: job.data }
        },
{
    if written {
        HashOutcome::Done { index: job.index, plen: job.plen, data: job.data }
    } else {
        HashOutcome::WriteFail { index: job.index, plen: job.plen, data: job.data }
    }
}

/// The outcome where writes are discarded.
pub fn complete_discard_job(job: DiskWriteJob) -> (r: HashOutcome)
    ensures
        r == (HashOutcome::Done { index: job.index, plen: job.plen, data: job.data }),
{
    HashOutcome::Done { index: job.index, plen: job.plen, data: job.data }
}

/// One write: a span of the piece and where its bytes lie in the piece.
#[derive(Debug, Clone, Copy, PartialEq, Eq, Structural)]
pub struct WriteOp {
    pub span: Span,
    pub data_offset: u64,
}

/// What a piece to write leads to.
#[derive(Debug)]
pub enum PiecePlan {
    /// It cannot be written.
    Fail(Error),
    /// There is nothing to write.
    Nothing,
    Write(Vec<WriteOp>),
}

/// The writes for a row of spans: each takes the bytes behind those of the one before.
pub open spec fn ops_for(spans: Seq<Span>) -> Seq<WriteOp> {
    Seq::new(
        spans.len(),
        |k: int|
            WriteOp { span: spans[k], data_offset: span_bytes(spans.subrange(0, k)) as u64 },
    )
}

/// Why a piece cannot be written, if it cannot. `entries` is the number of writes that the
/// ring holds, where one is used.
pub open spec fn plan_refusal(
    index: u32,
    plen: u32,
    data_len: nat,
    spans: Seq<Span>,
    entries: Option<u32>,
) -> Option<Seq<char>> {
    if data_len < plen {
        Some(
            "piece "@ + decimal(index as nat) + " buffer "@ + decimal(data_len) + " < plen "@
                + decimal(plen as nat),
        )
    } else if spans.len() == 0 {
        None
    } else if entries is Some && spans.len() > entries->0 {
        Some(
            "piece "@ + decimal(index as nat) + " has "@ + decimal(spans.len())
                + " spans > ring entries "@ + decimal(entries->0 as nat)
                + "; lower multi-file span count or raise depth/ring"@,
        )
    } else if span_bytes(spans) != plen {
        Some(
            "piece "@ + decimal(index as nat) + " span sum "@ + decimal(span_bytes(spans) as nat)
                + " != plen "@ + decimal(plen as nat),
        )
    } else {
        None
    }
}

proof fn span_bytes_grow(spans: Seq<Span>, k: int)
    requires
        0 <= k <= spans.len(),
    ensures
        0 <= span_bytes(spans.subrange(0, k)) <= span_bytes(spans),
    decreases spans.len() - k,
{
    if k == spans.len() {
        assert(spans.subrange(0, k) =~= spans);
        span_bytes_positive(spans);
    } else {
        span_bytes_grow(spans, k + 1);
        assert(spans.subrange(0, k + 1).drop_last() =~= spans.subrange(0, k));
        span_bytes_positive(spans.subrange(0, k));
    }
}

proof fn span_bytes_positive(spans: Seq<Span>)
    ensures
        span_bytes(spans) >= 0,
    decreases spans.len(),
{
    if spans.len() > 0 {
        span_bytes_positive(spans.drop_last());
    }
}

/// Plan the writes of a piece.
pub fn start_piece(
    job: &DiskWriteJob,
    spans: &Vec<Span>,
    entries: Option<u32>,
) -> (r: PiecePlan)
    requires
        span_bytes(spans@) <= u64::MAX,
    ensures
        ({
            let refusal = plan_refusal(
                job.index,
                job.plen,
                job.data@.len(),
                spans@,
                entries,
            );
            match r {
                PiecePlan::Fail(e) => e is Msg && refusal == Some(e.text()),
                PiecePlan::Nothing => refusal is None && spans@.len() == 0,
                PiecePlan::Write(ops) => refusal is None && spans@.len() > 0 && ops@ == ops_for(
                    spans@,
                ),
            }
        }),
{
    if job.data.len() < job.plen as usize {
        let mut m = String::new();
        m.append("piece ");
        push_decimal(&mut m, job.index as u64);
        m.append(" buffer ");
        push_decimal(&mut m, job.data.len() as u64);
        m.append(" < plen ");
        push_decimal(&mut m, job.plen as u64);
        assert(m@ =~= "piece "@ + decimal(job.index as nat) + " buffer "@ + decimal(
            job.data@.len(),
        ) + " < plen "@ + decimal(job.plen as nat));
        return PiecePlan::Fail(Error::Msg(m));
    }
    if spans.len() == 0 {
        return PiecePlan::Nothing;
    }
    if let Some(n) = entries {
        if spans.len() as u64 > n as u64 {
            let mut m = String::new();
            m.append("piece ");
            push_decimal(&mut m, job.index as u64);
            m.append(" has ");
            push_decimal(&mut m, spans.len() as u64);
            m.append(" spans > ring entries ");
            push_decimal(&mut m, n as u64);
            m.append("; lower multi-file span count or raise depth/ring");
            assert(m@ =~= "piece "@ + decimal(job.index as nat) + " has "@ + decimal(spans@.len())
                + " spans > ring entries "@ + decimal(n as nat)
                + "; lower multi-file span count or raise depth/ring"@);
            return PiecePlan::Fail(Error::Msg(m));
        }
    }
    let mut ops: Vec<WriteOp> = Vec::new();
    let mut off: u64 = 0;
    let mut k: usize = 0;
    assert(spans@.subrange(0, 0) =~= Seq::<Span>::empty());
    while k < spans.len()
        invariant
            k <= spans@.len(),
            span_bytes(spans@) <= u64::MAX,
            off == span_bytes(spans@.subrange(0, k as int)),
            ops@.len() == k,
            forall|j: int| 0 <= j < k ==> #[trigger] ops@[j] == ops_for(spans@)[j],
        decreases spans@.len() - k,
    {
        proof {
            span_bytes_grow(spans@, k + 1);
            assert(spans@.subrange(0, k + 1).drop_last() =~= spans@.subrange(0, k as int));
        }
        ops.push(WriteOp { span: spans[k], data_offset: off });
        off = off + spans[k].length;
        k += 1;
    }
    assert(spans@.subrange(0, k as int) =~= spans@);
    if off != job.plen as u64 {
        let mut m = String::new();
        m.append("piece ");
        push_decimal(&mut m, job.index as u64);
        m.append(" span sum ");
        push_decimal(&mut m, off);
        m.append(" != plen ");
        push_decimal(&mut m, job.plen as u64);
        assert(m@ =~= "piece "@ + decimal(job.index as nat) + " span sum "@ + decimal(
            span_bytes(spans@) as nat,
        ) + " != plen "@ + decimal(job.plen as nat));
        return PiecePlan::Fail(Error::Msg(m));
    }
    assert(ops@ =~= ops_for(spans@));
    PiecePlan::Write(ops)
}

/// The writes of a piece take each of its bytes exactly once, in order, and none beyond its
/// end.
pub proof fn writes_cover_the_piece(spans: Seq<Span>, plen: u32, k: int)
    requires
        span_bytes(spans) == plen,
        0 <= k < spans.len(),
    ensures
        k == 0 ==> ops_for(spans)[k].data_offset == 0,
        k + 1 < spans.len() ==> ops_for(spans)[k].data_offset + spans[k].length == ops_for(
            spans,
        )[k + 1].data_offset,
        k + 1 == spans.len() ==> ops_for(spans)[k].data_offset + spans[k].length == plen,
        ops_for(spans)[k].data_offset + spans[k].length <= plen,
{
    span_bytes_grow(spans, k);
    span_bytes_grow(spans, k + 1);
    assert(spans.subrange(0, k + 1).drop_last() =~= spans.subrange(0, k));
    if k == 0 {
        assert(spans.subrange(0, 0) =~= Seq::<Span>::empty());
    }
    if k + 1 == spans.len() {
        assert(spans.subrange(0, k + 1) =~= spans);
    }
}

/// A backend is asked for by its word, in any case and between any white space; no word, or
/// `auto`, leaves the choice open, and any other word asks for none.
pub proof fn writers_are_asked_for_by_their_words(s: Seq<char>)
    ensures
        ({
            let t = lowered(trimmed(s));
            &&& backend_named(s) == Some(BackendWant::Thread) <==> t == "thread"@
            &&& backend_named(s) == Some(BackendWant::Uring) <==> t == "uring"@
            &&& backend_named(s) == Some(BackendWant::Aio) <==> t == "aio"@
            &&& backend_named(s) == Some(BackendWant::Auto) <==> t == "auto"@ || t.len() == 0
        }),
{
    reveal_strlit("auto");
    reveal_strlit("thread");
    reveal_strlit("uring");
    reveal_strlit("aio");
    let t = lowered(trimmed(s));
    if t == "thread"@ {
        assert(t[0] != "auto"@[0]);
    }
    if t == "uring"@ {
        assert(t[0] != "auto"@[0] && t[0] != "thread"@[0]);
    }
    if t == "aio"@ {
        assert(t[1] != "auto"@[1] && t[0] != "thread"@[0] && t[0] != "uring"@[0]);
    }
}

/// Each backend that is tried is one that the system has; the better one goes first where it
/// is there and not turned down, and plain writes are always left at the end.
pub proof fn plain_writes_are_the_last_resort(want: BackendWant, platform: DiskPlatform, k: int)
    requires
        0 <= k < backends_for(want, platform).len(),
    ensures
        ({
            let r = backends_for(want, platform);
            &&& r[k] == DiskBackendKind::Uring ==> platform == DiskPlatform::Uring && k == 0
            &&& r[k] == DiskBackendKind::Aio ==> platform == DiskPlatform::Aio && k == 0
            &&& r[k] == DiskBackendKind::Thread <==> k == r.len() - 1
            &&& r[0] == DiskBackendKind::Uring <==> platform == DiskPlatform::Uring && (want
                == BackendWant::Auto || want == BackendWant::Uring)
            &&& r[0] == DiskBackendKind::Aio <==> platform == DiskPlatform::Aio && (want
                == BackendWant::Auto || want == BackendWant::Aio)
        }),
{
}

/// A depth from 1 to 256 is kept; one outside is moved to the nearer limit.
pub proof fn sensible_depths_are_kept(n: int)
    ensures
        1 <= n <= 256 ==> clamped_depth(n) == n,
        n < 1 ==> clamped_depth(n) == 1,
        n > 256 ==> clamped_depth(n) == 256,
{
}

/// The disk thread is restarted three times at most, five seconds apart at least, and given
/// up where it dies once more.
pub proof fn restarts_are_few_and_far_between(s: RestartState, now: u64)
    requires
        s.wf(),
    ensures
        s.restarts <= 3,
        s.decision(now) == RestartDecision::Spawn <==> !s.dead_permanent && s.restarts < 3
            && (s.last_restart matches Some(last) ==> now >= last + 5_000_000_000),
        s.decision(now) == RestartDecision::GivenUp <==> !s.dead_permanent && s.restarts == 3,
        s.decision(now) == RestartDecision::StaysDead <==> s.dead_permanent,
        s.decision(now) == RestartDecision::Spawn ==> s.decided(now).restarts == s.restarts + 1
            && s.decided(now).last_restart == Some(now) && !s.decided(now).dead_permanent,
        s.decision(now) == RestartDecision::GivenUp ==> s.decided(now).dead_permanent
            && s.decided(now).restarts == s.restarts,
        s.decision(now) == RestartDecision::Cooldown ==> s.decided(now) == s,
{
}

/// Each span of a piece is written once, in its order, with the bytes that follow those of
/// the spans before it.
pub proof fn each_span_is_written_once(spans: Seq<Span>, k: int)
    requires
        span_bytes(spans) <= u64::MAX,
        0 <= k < spans.len(),
    ensures
        ops_for(spans).len() == spans.len(),
        ops_for(spans)[k].span == spans[k],
        ops_for(spans)[0].data_offset == 0,
        k > 0 ==> ops_for(spans)[k].data_offset == ops_for(spans)[k - 1].data_offset + spans[k
            - 1].length,
{
    assert(spans.subrange(0, 0) =~= Seq::<Span>::empty());
    if k > 0 {
        span_bytes_grow(spans, k - 1);
        span_bytes_grow(spans, k);
        assert(spans.subrange(0, k).drop_last() =~= spans.subrange(0, k - 1));
    }
}

/// A piece is written where its buffer holds it whole, its spans make up all of it, and the
/// ring, where there is one, holds a write for each of them; else it is refused. One without
/// spans has nothing to write.
pub proof fn pieces_are_written_whole(
    index: u32,
    plen: u32,
    data_len: nat,
    spans: Seq<Span>,
    entries: Option<u32>,
)
    ensures
        plan_refusal(index, plen, data_len, spans, entries) is None <==> data_len >= plen && (
        spans.len() == 0 || (span_bytes(spans) == plen && (entries matches Some(n) ==> spans.len()
            <= n))),
{
}

} // verus!
