//! The order in which the reading half of a connection does its work.
//!
//! A turn looks at the torrent, takes the pieces that were hashed, asks for blocks, and only
//! then waits. Times are in nanoseconds.
use crate::peer::duplex::{ReaderNext, ReaderState, TurnStart};
use crate::peer::established::PURE_LEECH_EXIT_TIMEOUT;
use crate::peer::helpers::REQUEST_STALL;
use vstd::prelude::*;

verus! {

/// Where a turn is.
#[derive(Debug, Clone, Copy, PartialEq, Eq, Structural)]
pub enum TurnPhase {
    /// Before the first turn.
    First,
    Begin,
    Adapt,
    Endgame,
    Interest,
    Outcomes,
    Stall,
    Budget,
    Wait,
    /// Waiting for hashed pieces before leaving.
    Drain { deadline: u64 },
    /// About to take the hashed pieces that are there, and to leave.
    Last,
    Over,
}

/// What the reading half does next, and what is reported of it.
#[derive(Debug, Clone, Copy, PartialEq, Eq, Structural)]
pub enum TurnStep {
    /// Ask for blocks, as far as the download limit grants.
    Issue,
    /// Carry out the messages that came with the handshake.
    Parse,
    /// Begin a turn, see [`ReaderTurn::began`].
    Begin,
    /// Follow the measured rate, see [`ReaderTurn::told`].
    Adapt,
    /// Begin the endgame where it is due, see [`ReaderTurn::told`].
    TryEndgame,
    RenewInterest,
    /// Take the hashed pieces that are there, see [`ReaderTurn::outcomes_taken`].
    TakeOutcomes,
    /// Look whether requests have stalled, see [`ReaderTurn::told`].
    CheckStall { need_fill: bool },
    /// Wait for the download limit, see [`ReaderTurn::slept`].
    AwaitBudget,
    /// Wait, see [`ReaderTurn::told`] and [`ReaderTurn::ended`].
    Wait(ReaderNext),
    /// Wait for a hashed piece until the deadline, see [`ReaderTurn::drained`].
    DrainOutcome { deadline: u64 },
    /// Tell the writing half, and leave.
    Exit,
}

/// The order of the reading half's work.
#[derive(Debug, Clone, Copy, PartialEq, Eq, Structural)]
pub struct ReaderTurn {
    pub phase: TurnPhase,
    /// Blocks are fetched in this turn.
    pub downloading: bool,
    /// Blocks are to be asked for before anything else.
    pub issue: bool,
    /// Hashed pieces have made place for more blocks.
    pub fill: bool,
}

/// The earlier of two times, where either is set.
pub fn earlier(a: Option<u64>, b: Option<u64>) -> (r: Option<u64>)
    ensures
        r == match (a, b) {
            (Some(x), Some(y)) => Some(
                if x <= y {
                    x
                } else {
                    y
                },
            ),
            (Some(x), None) => Some(x),
            (None, _) => b,
        },
{
    match (a, b) {
        (Some(x), Some(y)) => Some(
            if x <= y {
                x
            } else {
                y
            },
        ),
        (Some(x), None) => Some(x),
        (None, _) => b,
    }
}

/// Whether requests have stalled, after a read in which nothing came.
pub fn read_stalled(stall_deadline: Option<u64>, now: u64) -> (stalled: bool)
    ensures
        stalled == (stall_deadline is Some && now >= stall_deadline->0),
{
    match stall_deadline {
        Some(at) => now >= at,
        None => false,
    }
}

impl ReaderTurn {
    pub open spec fn at(self, phase: TurnPhase) -> ReaderTurn {
        ReaderTurn { phase, ..self }
    }

    /// The next step, and where the turn is then.
    pub open spec fn step(
        self,
        r: &ReaderState,
        has_frame: bool,
        stop: bool,
        now: u64,
    ) -> (ReaderTurn, TurnStep) {
        if self.issue {
            (ReaderTurn { issue: false, ..self }, TurnStep::Issue)
        } else {
            match self.phase {
                TurnPhase::First => (self.at(TurnPhase::Begin), TurnStep::Parse),
                TurnPhase::Begin => if stop {
                    (self.at(TurnPhase::Over), TurnStep::Exit)
                } else {
                    (self, TurnStep::Begin)
                },
                TurnPhase::Adapt => (self.at(TurnPhase::Endgame), TurnStep::Adapt),
                TurnPhase::Endgame => (self.at(TurnPhase::Interest), TurnStep::TryEndgame),
                TurnPhase::Interest => (self.at(TurnPhase::Outcomes), TurnStep::RenewInterest),
                TurnPhase::Outcomes => (
                    self.at(
                        if self.downloading {
                            TurnPhase::Stall
                        } else {
                            TurnPhase::Wait
                        },
                    ),
                    TurnStep::TakeOutcomes,
                ),
                TurnPhase::Stall => (
                    self.at(TurnPhase::Budget),
                    TurnStep::CheckStall { need_fill: self.fill },
                ),
                TurnPhase::Budget => if r.short_of_budget(has_frame, self.downloading) {
                    (self.at(TurnPhase::Wait), TurnStep::AwaitBudget)
                } else {
                    (
                        self.at(TurnPhase::Begin),
                        TurnStep::Wait(r.waits_for(has_frame, self.downloading)),
                    )
                },
                TurnPhase::Wait => (
                    self.at(TurnPhase::Begin),
                    TurnStep::Wait(r.waits_for(has_frame, self.downloading)),
                ),
                TurnPhase::Drain { deadline } => if now < deadline
                    && !r.session.dl.picks.hashing@.is_empty() {
                    (self, TurnStep::DrainOutcome { deadline })
                } else {
                    (self.at(TurnPhase::Over), TurnStep::TakeOutcomes)
                },
                TurnPhase::Last => (self.at(TurnPhase::Over), TurnStep::TakeOutcomes),
                TurnPhase::Over => (self, TurnStep::Exit),
            }
        }
    }

    /// Before anything is done. `issue` says to ask for blocks at once.
    pub fn new(issue: bool) -> (t: ReaderTurn)
        ensures
            t == (ReaderTurn { phase: TurnPhase::First, downloading: false, issue, fill: false }),
    {
        ReaderTurn { phase: TurnPhase::First, downloading: false, issue, fill: false }
    }

    /// The next step. `has_frame` says that a whole message is there, `stop` that the
    /// session ends.
    pub fn next(&mut self, r: &ReaderState, has_frame: bool, stop: bool, now: u64) -> (step:
        TurnStep)
        requires
            r.session.dl.staging.wf(),
            r.session.last_piece_at <= u64::MAX - REQUEST_STALL,
        ensures
            (*final(self), step) == old(self).step(r, has_frame, stop, now),
    {
        if self.issue {
            self.issue = false;
            return TurnStep::Issue;
        }
        match self.phase {
            TurnPhase::First => {
                self.phase = TurnPhase::Begin;
                TurnStep::Parse
            },
            TurnPhase::Begin => {
                if stop {
                    self.phase = TurnPhase::Over;
                    TurnStep::Exit
                } else {
                    TurnStep::Begin
                }
            },
            TurnPhase::Adapt => {
                self.phase = TurnPhase::Endgame;
                TurnStep::Adapt
            },
            TurnPhase::Endgame => {
                self.phase = TurnPhase::Interest;
                TurnStep::TryEndgame
            },
            TurnPhase::Interest => {
                self.phase = TurnPhase::Outcomes;
                TurnStep::RenewInterest
            },
            TurnPhase::Outcomes => {
                self.phase = if self.downloading {
                    TurnPhase::Stall
                } else {
                    TurnPhase::Wait
                };
                TurnStep::TakeOutcomes
            },
            TurnPhase::Stall => {
                self.phase = TurnPhase::Budget;
                TurnStep::CheckStall { need_fill: self.fill }
            },
            TurnPhase::Budget => {
                if r.waits_for_budget(has_frame, self.downloading) {
                    self.phase = TurnPhase::Wait;
                    TurnStep::AwaitBudget
                } else {
                    self.phase = TurnPhase::Begin;
                    TurnStep::Wait(r.next_wait(has_frame, self.downloading))
                }
            },
            TurnPhase::Wait => {
                self.phase = TurnPhase::Begin;
                TurnStep::Wait(r.next_wait(has_frame, self.downloading))
            },
            TurnPhase::Drain { deadline } => {
                if now < deadline && !r.session.dl.picks.hashing.is_empty() {
                    TurnStep::DrainOutcome { deadline }
                } else {
                    self.phase = TurnPhase::Over;
                    TurnStep::TakeOutcomes
                }
            },
            TurnPhase::Last => {
                self.phase = TurnPhase::Over;
                TurnStep::TakeOutcomes
            },
            TurnPhase::Over => TurnStep::Exit,
        }
    }

    /// A turn has begun, in this way.
    pub fn began(&mut self, start: TurnStart, downloading: bool, now: u64)
        requires
            now <= u64::MAX - PURE_LEECH_EXIT_TIMEOUT,
        ensures
            *final(self) == (ReaderTurn {
                phase: match start {
                    TurnStart::Exit => TurnPhase::Last,
                    TurnStart::DrainThenExit => TurnPhase::Drain {
                        deadline: (now + PURE_LEECH_EXIT_TIMEOUT) as u64,
                    },
                    TurnStart::Go { .. } => if downloading {
                        TurnPhase::Adapt
                    } else {
                        TurnPhase::Outcomes
                    },
                },
                downloading,
                issue: start == (TurnStart::Go { issue: true }),
                fill: false,
            }),
    {
        self.downloading = downloading;
        self.fill = false;
        self.issue = false;
        match start {
            TurnStart::Exit => {
                self.phase = TurnPhase::Last;
            },
            TurnStart::DrainThenExit => {
                self.phase = TurnPhase::Drain { deadline: now + PURE_LEECH_EXIT_TIMEOUT };
            },
            TurnStart::Go { issue } => {
                self.issue = issue;
                self.phase = if downloading {
                    TurnPhase::Adapt
                } else {
                    TurnPhase::Outcomes
                };
            },
        }
    }

    /// A step has said whether there is place for more blocks.
    pub fn told(&mut self, r: &ReaderState, fill: bool)
        ensures
            *final(self) == (ReaderTurn {
                issue: fill && old(self).downloading && r.session.dl.may_request(),
                ..*old(self)
            }),
    {
        self.issue = r.session.dl.should_issue(self.downloading, fill);
    }

    /// Hashed pieces were taken, or there were none.
    pub fn outcomes_taken(&mut self, any: bool)
        ensures
            *final(self) == (ReaderTurn { fill: any, ..*old(self) }),
    {
        self.fill = any;
    }

    /// Whether there was any time to wait for the download limit. After such a wait a turn
    /// begins anew.
    pub fn slept(&mut self, any: bool)
        ensures
            *final(self) == if any {
                old(self).at(TurnPhase::Begin)
            } else {
                *old(self)
            },
    {
        if any {
            self.phase = TurnPhase::Begin;
        }
    }

    /// Whether a hashed piece came before leaving.
    pub fn drained(&mut self, came: bool)
        ensures
            *final(self) == if came {
                *old(self)
            } else {
                old(self).at(TurnPhase::Last)
            },
    {
        if !came {
            self.phase = TurnPhase::Last;
        }
    }

    /// The peer has left, or the session ends.
    pub fn ended(&mut self)
        ensures
            *final(self) == (ReaderTurn { phase: TurnPhase::Over, issue: false, ..*old(self) }),
    {
        self.phase = TurnPhase::Over;
        self.issue = false;
    }
}

/// How far a turn has come on its way to a wait.
pub open spec fn place_in_turn(phase: TurnPhase) -> int {
    match phase {
        TurnPhase::Adapt => 1,
        TurnPhase::Endgame => 2,
        TurnPhase::Interest => 3,
        TurnPhase::Outcomes => 4,
        TurnPhase::Stall => 5,
        TurnPhase::Budget => 6,
        _ => 0,
    }
}

/// Blocks that are to be asked for are asked for before any wait.
pub proof fn requests_go_out_before_a_wait(
    turn: ReaderTurn,
    r: &ReaderState,
    has_frame: bool,
    stop: bool,
    now: u64,
)
    requires
        turn.issue,
    ensures
        turn.step(r, has_frame, stop, now) == (
            ReaderTurn { issue: false, ..turn },
            TurnStep::Issue,
        ),
{
}

/// A turn that fetches waits for nothing until it has followed the rate, looked for the
/// endgame, renewed its interest, taken the hashed pieces and looked for stalled requests, one
/// after the other.
pub proof fn a_fetching_turn_waits_last(
    turn: ReaderTurn,
    r: &ReaderState,
    has_frame: bool,
    stop: bool,
    now: u64,
)
    requires
        turn.downloading,
        !turn.issue,
        1 <= place_in_turn(turn.phase) <= 5,
    ensures
        ({
            let (after, step) = turn.step(r, has_frame, stop, now);
            &&& place_in_turn(after.phase) == place_in_turn(turn.phase) + 1
            &&& after.downloading
            &&& !(step is Wait) && !(step is AwaitBudget)
            &&& place_in_turn(turn.phase) == 4 ==> step is TakeOutcomes
            &&& place_in_turn(turn.phase) == 5 ==> step == (TurnStep::CheckStall {
                need_fill: turn.fill,
            })
        }),
{
}

/// A turn that is told to stop leaves at once, one that fetches nothing waits once it has taken
/// the hashed pieces, and one that leaves waits for hashed pieces only while some are out and
/// there is time.
pub proof fn turns_end_in_order(
    turn: ReaderTurn,
    r: &ReaderState,
    has_frame: bool,
    stop: bool,
    now: u64,
)
    requires
        !turn.issue,
    ensures
        ({
            let (after, step) = turn.step(r, has_frame, stop, now);
            &&& turn.phase is First ==> step is Parse && after.phase is Begin
            &&& turn.phase is Begin && stop ==> step is Exit && after.phase is Over
            &&& turn.phase is Begin && !stop ==> step is Begin
            &&& turn.phase is Outcomes && !turn.downloading ==> step is TakeOutcomes
                && after.phase is Wait
            &&& turn.phase is Wait ==> step == TurnStep::Wait(
                r.waits_for(has_frame, turn.downloading),
            ) && after.phase is Begin
            &&& turn.phase is Budget && !r.short_of_budget(has_frame, turn.downloading) ==> step
                == TurnStep::Wait(r.waits_for(has_frame, turn.downloading)) && after.phase is Begin
            &&& turn.phase is Budget && r.short_of_budget(has_frame, turn.downloading)
                ==> step is AwaitBudget && after.phase is Wait
            &&& turn.phase matches TurnPhase::Drain { deadline } ==> (now < deadline
                && !r.session.dl.picks.hashing@.is_empty() ==> step == (TurnStep::DrainOutcome {
                deadline,
            }) && after == turn) && (now >= deadline || r.session.dl.picks.hashing@.is_empty()
                ==> step is TakeOutcomes && after.phase is Over)
            &&& turn.phase is Last ==> step is TakeOutcomes && after.phase is Over
            &&& turn.phase is Over ==> step is Exit
        }),
{
}

} // verus!
