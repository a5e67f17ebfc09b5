//! Moving a torrent's files to another directory.
use crate::error::{Error, Result};
use crate::text::{push_signed, signed};
use vstd::prelude::*;

verus! {

/// What became of a request to move.
#[derive(Debug, Clone, Copy, PartialEq, Eq, Structural)]
pub enum RelocateKind {
    NoOp,
    /// The files stay where they are staged; where they go in the end has changed.
    RetargetHome,
    /// The files were moved.
    Moved,
}

/// What became of a request to move, with where the files are now.
#[derive(Debug)]
pub struct RelocateReport {
    pub kind: RelocateKind,
    pub data_root: String,
    pub note: String,
}

/// What is known of a torrent whose files are to move.
#[derive(Debug, Clone, Copy, PartialEq, Eq, Structural)]
pub struct RelocateFacts {
    /// No directory is named.
    pub empty: bool,
    /// The files are staged, and a home is set to which they go in the end.
    pub home_set: bool,
    /// The files are in that home already.
    pub at_home: bool,
    /// The directory is that home.
    pub home_is_new: bool,
    /// The files are in the directory already.
    pub at_new: bool,
    /// The torrent is active.
    pub hot: bool,
}

/// How a request to move is met.
#[derive(Debug, Clone, Copy, PartialEq, Eq, Structural)]
pub enum RelocateStep {
    /// The home is the directory already.
    KeepHome,
    /// Make the directory the home.
    RetargetHome,
    /// The files are there already.
    Keep,
    /// Move the files of an active torrent.
    MoveLive,
    /// Move the files of a torrent that is not active.
    MoveCold,
}

impl RelocateFacts {
    /// How a request to move is met.
    pub open spec fn step(self) -> RelocateStep {
        if self.home_set && !self.at_home {
            if self.home_is_new {
                RelocateStep::KeepHome
            } else {
                RelocateStep::RetargetHome
            }
        } else if self.at_new {
            RelocateStep::Keep
        } else if self.hot {
            RelocateStep::MoveLive
        } else {
            RelocateStep::MoveCold
        }
    }
}

/// How a request to move is met.
pub fn relocate_data_root(facts: RelocateFacts) -> (r: Result<RelocateStep>)
    ensures
        match r {
            Ok(s) => !facts.empty && s == facts.step(),
            Err(e) => facts.empty && e is Msg && e.text() == "relocate: empty path"@,
        },
{
    if facts.empty {
        return Err(Error::msg("relocate: empty path"));
    }
    if facts.home_set && !facts.at_home {
        if facts.home_is_new {
            return Ok(RelocateStep::KeepHome);
        }
        return Ok(RelocateStep::RetargetHome);
    }
    if facts.at_new {
        return Ok(RelocateStep::Keep);
    }
    if facts.hot {
        Ok(RelocateStep::MoveLive)
    } else {
        Ok(RelocateStep::MoveCold)
    }
}

/// The report of a request that was met. `data_root` is where the files were, `new_root` the
/// directory of the request.
pub fn relocate_report(step: RelocateStep, data_root: &str, new_root: &str) -> (r: RelocateReport)
    ensures
        match step {
            RelocateStep::KeepHome => r.kind == RelocateKind::NoOp && r.data_root@ == data_root@
                && r.note@ == "home_root unchanged (still staged)"@,
            RelocateStep::RetargetHome => r.kind == RelocateKind::RetargetHome && r.data_root@
                == data_root@ && r.note@ == "home \u{2192} "@ + new_root@ + " (still staging)"@,
            RelocateStep::Keep => r.kind == RelocateKind::NoOp && r.data_root@ == data_root@
                && r.note@ == "data_root unchanged"@,
            _ => r.kind == RelocateKind::Moved && r.data_root@ == new_root@ && r.note@
                == "data \u{2192} "@ + new_root@,
        },
{
    match step {
        RelocateStep::KeepHome => RelocateReport {
            kind: RelocateKind::NoOp,
            data_root: data_root.to_owned(),
            note: "home_root unchanged (still staged)".to_owned(),
        },
        RelocateStep::RetargetHome => {
            let mut note = String::new();
            note.append("home \u{2192} ");
            note.append(new_root);
            note.append(" (still staging)");
            assert(note@ =~= "home \u{2192} "@ + new_root@ + " (still staging)"@);
            RelocateReport {
                kind: RelocateKind::RetargetHome,
                data_root: data_root.to_owned(),
                note,
            }
        },
        RelocateStep::Keep => RelocateReport {
            kind: RelocateKind::NoOp,
            data_root: data_root.to_owned(),
            note: "data_root unchanged".to_owned(),
        },
        _ => {
            let mut note = String::new();
            note.append("data \u{2192} ");
            note.append(new_root);
            assert(note@ =~= "data \u{2192} "@ + new_root@);
            RelocateReport { kind: RelocateKind::Moved, data_root: new_root.to_owned(), note }
        },
    }
}

/// What is done with a torrent whose files are staged.
#[derive(Debug, Clone, Copy, PartialEq, Eq, Structural)]
pub enum Handoff {
    /// Its files are home: forget that they were staged.
    ClearHome,
    /// It is not complete: leave its files where they are.
    Wait,
    /// Move its files home.
    Move,
}

/// What is done with a torrent whose files are staged.
pub fn run_leech_cache_handoff(at_home: bool, complete: bool) -> (h: Handoff)
    ensures
        h == if at_home {
            Handoff::ClearHome
        } else if !complete {
            Handoff::Wait
        } else {
            Handoff::Move
        },
{
    if at_home {
        Handoff::ClearHome
    } else if !complete {
        Handoff::Wait
    } else {
        Handoff::Move
    }
}

/// How a move home went, for the status line.
pub fn handoff_status(id: i64, failed: Option<&Error>) -> (s: String)
    ensures
        s@ == "#"@ + signed(id as int) + match failed {
            None => " handoff \u{2192} library complete \u{2014} seeding"@,
            Some(e) => " handoff failed: "@ + e.text(),
        },
{
    let mut s = String::new();
    s.append("#");
    push_signed(&mut s, id);
    match failed {
        None => {
            s.append(" handoff \u{2192} library complete \u{2014} seeding");
            assert(s@ =~= "#"@ + signed(id as int)
                + " handoff \u{2192} library complete \u{2014} seeding"@);
        },
        Some(e) => {
            s.append(" handoff failed: ");
            let t = e.to_string();
            s.append(t.as_str());
            assert(s@ =~= "#"@ + signed(id as int) + (" handoff failed: "@ + e.text()));
        },
    }
    s
}

/// The steps of moving files, in order.
#[derive(Debug, Clone, Copy, PartialEq, Eq, Structural)]
pub enum SwitchStep {
    /// Put the files into the new directory, and keep the old ones.
    Transfer,
    /// Store that the files are in the new directory.
    StoreRoot,
    /// Let an active torrent read and write in the new directory.
    SwapLive,
    /// Remove the old files.
    Cleanup,
    /// Store that the files are no longer staged.
    ClearHome,
    /// The same where nothing was moved. It does not matter whether it can be stored.
    ForgetHome,
}

/// What follows a step of moving files.
#[derive(Debug, Clone, Copy, PartialEq, Eq, Structural)]
pub enum SwitchNext {
    Do(SwitchStep),
    /// The move is done.
    Done,
    /// The move stops with the step's error.
    Fail,
}

/// The first step of moving files. Where they are there already, nothing is moved.
pub fn switch_payload_root(already_there: bool, clear_home_root: bool) -> (n: SwitchNext)
    ensures
        n == if !already_there {
            SwitchNext::Do(SwitchStep::Transfer)
        } else if clear_home_root {
            SwitchNext::Do(SwitchStep::ForgetHome)
        } else {
            SwitchNext::Done
        },
{
    if !already_there {
        SwitchNext::Do(SwitchStep::Transfer)
    } else if clear_home_root {
        SwitchNext::Do(SwitchStep::ForgetHome)
    } else {
        SwitchNext::Done
    }
}

/// What follows a step that went well or not.
pub open spec fn after_step(step: SwitchStep, ok: bool, hot: bool, clear_home_root: bool) -> SwitchNext {
    match step {
        SwitchStep::Transfer => if ok {
            SwitchNext::Do(SwitchStep::StoreRoot)
        } else {
            SwitchNext::Fail
        },
        SwitchStep::StoreRoot => if !ok {
            SwitchNext::Fail
        } else if hot {
            SwitchNext::Do(SwitchStep::SwapLive)
        } else {
            SwitchNext::Do(SwitchStep::Cleanup)
        },
        SwitchStep::SwapLive => SwitchNext::Do(SwitchStep::Cleanup),
        SwitchStep::Cleanup => if clear_home_root {
            if ok {
                SwitchNext::Do(SwitchStep::ClearHome)
            } else {
                SwitchNext::Fail
            }
        } else {
            SwitchNext::Done
        },
        SwitchStep::ClearHome => if ok {
            SwitchNext::Done
        } else {
            SwitchNext::Fail
        },
        SwitchStep::ForgetHome => SwitchNext::Done,
    }
}

/// What follows a step that went well or not. Old files that could not be removed are left
/// behind, unless they were staged: the torrent then stays marked as staged.
pub fn next_switch(step: SwitchStep, ok: bool, hot: bool, clear_home_root: bool) -> (n: SwitchNext)
    ensures
        n == after_step(step, ok, hot, clear_home_root),
{
    match step {
        SwitchStep::Transfer => if ok {
            SwitchNext::Do(SwitchStep::StoreRoot)
        } else {
            SwitchNext::Fail
        },
        SwitchStep::StoreRoot => if !ok {
            SwitchNext::Fail
        } else if hot {
            SwitchNext::Do(SwitchStep::SwapLive)
        } else {
            SwitchNext::Do(SwitchStep::Cleanup)
        },
        SwitchStep::SwapLive => SwitchNext::Do(SwitchStep::Cleanup),
        SwitchStep::Cleanup => if clear_home_root {
            if ok {
                SwitchNext::Do(SwitchStep::ClearHome)
            } else {
                SwitchNext::Fail
            }
        } else {
            SwitchNext::Done
        },
        SwitchStep::ClearHome => if ok {
            SwitchNext::Done
        } else {
            SwitchNext::Fail
        },
        SwitchStep::ForgetHome => SwitchNext::Done,
    }
}

/// Old files are removed only after the new directory was stored, and that is stored only
/// after the files are there. An active torrent is switched over in between.
pub proof fn old_files_go_last(step: SwitchStep, ok: bool, hot: bool, clear_home_root: bool)
    ensures
        after_step(step, ok, hot, clear_home_root) == SwitchNext::Do(SwitchStep::StoreRoot) ==> step
            == SwitchStep::Transfer && ok,
        after_step(step, ok, hot, clear_home_root) == SwitchNext::Do(SwitchStep::SwapLive) ==> step
            == SwitchStep::StoreRoot && ok && hot,
        after_step(step, ok, hot, clear_home_root) == SwitchNext::Do(SwitchStep::Cleanup) ==> step
            == SwitchStep::SwapLive || step == SwitchStep::StoreRoot && ok && !hot,
        after_step(step, ok, hot, clear_home_root) == SwitchNext::Do(SwitchStep::ClearHome)
            ==> step == SwitchStep::Cleanup && ok && clear_home_root,
{
}

/// Files that are staged stay where they are, and only their home changes. Others are moved
/// where they are not there already.
pub proof fn staged_files_are_not_moved(f: RelocateFacts)
    ensures
        f.home_set && !f.at_home ==> (f.step() == RelocateStep::KeepHome <==> f.home_is_new) && (
        f.step() == RelocateStep::RetargetHome <==> !f.home_is_new),
        !f.home_set || f.at_home ==> (f.step() == RelocateStep::Keep <==> f.at_new) && (f.step()
            == RelocateStep::MoveLive <==> !f.at_new && f.hot) && (f.step()
            == RelocateStep::MoveCold <==> !f.at_new && !f.hot),
{
}

/// A move goes through its steps to the end where each goes well. One that fails before the
/// new directory is stored stops, and so does one that leaves staged files behind.
pub proof fn moves_go_through_their_steps(hot: bool, clear_home_root: bool)
    ensures
        after_step(SwitchStep::Transfer, true, hot, clear_home_root) == SwitchNext::Do(
            SwitchStep::StoreRoot,
        ),
        after_step(SwitchStep::StoreRoot, true, true, clear_home_root) == SwitchNext::Do(
            SwitchStep::SwapLive,
        ),
        after_step(SwitchStep::StoreRoot, true, false, clear_home_root) == SwitchNext::Do(
            SwitchStep::Cleanup,
        ),
        after_step(SwitchStep::SwapLive, true, hot, clear_home_root) == SwitchNext::Do(
            SwitchStep::Cleanup,
        ),
        after_step(SwitchStep::SwapLive, false, hot, clear_home_root) == SwitchNext::Do(
            SwitchStep::Cleanup,
        ),
        after_step(SwitchStep::Cleanup, true, hot, true) == SwitchNext::Do(SwitchStep::ClearHome),
        after_step(SwitchStep::Cleanup, true, hot, false) == SwitchNext::Done,
        after_step(SwitchStep::ClearHome, true, hot, clear_home_root) == SwitchNext::Done,
        after_step(SwitchStep::ForgetHome, true, hot, clear_home_root) == SwitchNext::Done,
        after_step(SwitchStep::ForgetHome, false, hot, clear_home_root) == SwitchNext::Done,
        after_step(SwitchStep::Transfer, false, hot, clear_home_root) == SwitchNext::Fail,
        after_step(SwitchStep::StoreRoot, false, hot, clear_home_root) == SwitchNext::Fail,
        after_step(SwitchStep::Cleanup, false, hot, true) == SwitchNext::Fail,
        after_step(SwitchStep::Cleanup, false, hot, false) == SwitchNext::Done,
        after_step(SwitchStep::ClearHome, false, hot, clear_home_root) == SwitchNext::Fail,
{
}

} // verus!
