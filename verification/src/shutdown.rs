//! Stopping the machine that a run used, and keeping its disk where something failed.

use vstd::prelude::*;
use vstd::string::*;

use crate::budget::{
    Retries, SMALL_COMMAND_SECS, deadline, one_try, overall_message, overall_timeout_error, span,
};
use crate::error::{PlanError, in_context, outcome};
use crate::strings::{cat2, cat3, cat4};

verus! {

/// Seconds that a machine may take to power off.
pub const BUILD_POWEROFF_TIMEOUT_SECS: u64 = 120;

/// How long to wait between two looks at a machine, in nanoseconds.
pub const VM_LOOK_PAUSE: u128 = 500_000_000;

/// How the stopping of a machine came out.
#[derive(Clone, Copy, Debug, PartialEq, Eq, Structural)]
pub enum ShutdownVerdict {
    /// It is not known yet.
    Open,
    /// The machine powered off.
    Clean,
    /// The machine did not power off, or not well.
    Unclean,
    /// The run was interrupted.
    Interrupted,
    /// The time of the run is over.
    OverTime,
}

/// How far the stopping has come.
#[derive(Clone, Copy, Debug, PartialEq, Eq, Structural)]
pub enum ShutdownPhase {
    Start,
    /// The machine is asked to power off.
    PoweringOff,
    /// The clock is read for the time that the machine has.
    Arming,
    /// The machine is watched until it exits.
    Watching,
    /// The machine is killed.
    Killing,
    /// The disk of an earlier failure is looked for.
    Looking,
    /// The disk of an earlier failure is removed.
    Removing,
    /// The disk is kept under another name.
    Renaming,
    Finished,
}

/// What a look at a machine shows.
#[derive(Debug, PartialEq, Eq)]
pub enum VmState {
    Running,
    Exited { success: bool },
    /// The machine could not be looked at.
    Unknown { error: String },
}

/// The stopping of a machine.
#[derive(Debug, PartialEq, Eq)]
pub struct Shutdown {
    /// The disk.
    pub partial: String,
    /// The name that the disk is kept under if something fails.
    pub failed_partial: String,
    /// Whether the machine is asked to power off.
    pub request_poweroff: bool,
    /// Whether there is a machine.
    pub vm: bool,
    pub overall_deadline: u128,
    pub overall_timeout: u64,
    pub phase: ShutdownPhase,
    pub verdict: ShutdownVerdict,
    /// When the machine has to have powered off.
    pub poweroff_deadline: u128,
    /// Why the machine could not be looked at, until that was shown.
    pub trouble: Option<String>,
}

/// What happened since the last action.
#[derive(Debug, PartialEq, Eq)]
pub enum ShutdownEvent {
    Clock { interrupted: bool, now: u128 },
    Look { interrupted: bool, now: u128, vm: VmState },
    /// Whether there is a disk of an earlier failure.
    Found(bool),
    /// The action ended.
    Ended(Result<(), PlanError>),
}

/// What to do next.
#[derive(Debug, PartialEq, Eq)]
pub enum ShutdownAction {
    /// Run that command in the guest, that often and within that many seconds. How it ends
    /// does not matter.
    RunInGuest { command: String, retries: Retries, secs: u64 },
    ReadClock,
    /// Look at the machine, after that pause.
    LookAtVm { pause: u128 },
    /// Kill the machine. How that ends does not matter.
    Kill,
    /// Find out whether that file is there.
    LookFor { path: String },
    Remove { path: String },
    Rename { from: String, to: String },
    Done(Result<(), PlanError>),
}

/// A line to show.
#[derive(Debug, PartialEq, Eq)]
pub enum ShutdownNote {
    /// The stopping begins.
    Title,
    /// The stopping has ended.
    Status { ok: bool },
    Warning { text: String },
}

/// What to show and then to do.
#[derive(Debug)]
pub struct ShutdownOutput {
    pub note: Option<ShutdownNote>,
    pub action: ShutdownAction,
}

/// What a phase waits for.
pub open spec fn shutdown_awaits(phase: ShutdownPhase, event: ShutdownEvent) -> bool {
    match phase {
        ShutdownPhase::Start | ShutdownPhase::Arming => event is Clock,
        ShutdownPhase::Watching => event is Look,
        ShutdownPhase::Looking => event is Found,
        ShutdownPhase::Finished => false,
        _ => event is Ended,
    }
}

/// Why a machine could not be looked at, if the run was not interrupted.
pub open spec fn trouble_in(event: ShutdownEvent) -> Option<String> {
    match event {
        ShutdownEvent::Look { interrupted: false, vm: VmState::Unknown { error }, .. } => Some(
            error,
        ),
        _ => None,
    }
}

impl Shutdown {
    /// The verdict on a machine that was looked at, and whether it has to be killed.
    pub open spec fn judge(self, event: ShutdownEvent) -> (ShutdownVerdict, bool) {
        match event {
            ShutdownEvent::Look { interrupted, now, vm } => if interrupted {
                (ShutdownVerdict::Interrupted, true)
            } else {
                match vm {
                    VmState::Exited { success } => (
                        if success {
                            ShutdownVerdict::Clean
                        } else {
                            ShutdownVerdict::Unclean
                        },
                        false,
                    ),
                    VmState::Running => if now >= self.overall_deadline {
                        (ShutdownVerdict::OverTime, true)
                    } else if now >= self.poweroff_deadline {
                        (ShutdownVerdict::Unclean, true)
                    } else {
                        (ShutdownVerdict::Open, false)
                    },
                    VmState::Unknown { .. } => (ShutdownVerdict::Unclean, true),
                }
            },
            ShutdownEvent::Clock { interrupted, now } => if interrupted {
                (ShutdownVerdict::Interrupted, self.vm)
            } else if now >= self.overall_deadline {
                (ShutdownVerdict::OverTime, self.vm)
            } else {
                (ShutdownVerdict::Open, false)
            },
            _ => (ShutdownVerdict::Open, false),
        }
    }

    /// The phase that follows a verdict.
    pub open spec fn phase_for(self, verdict: ShutdownVerdict, kill: bool) -> ShutdownPhase {
        if verdict == ShutdownVerdict::Clean {
            ShutdownPhase::Finished
        } else if kill {
            ShutdownPhase::Killing
        } else {
            ShutdownPhase::Looking
        }
    }

    /// The state that follows when `event` happens.
    pub open spec fn next(self, event: ShutdownEvent) -> Shutdown {
        let (verdict, kill) = self.judge(event);
        match self.phase {
            ShutdownPhase::Start => if verdict == ShutdownVerdict::Open {
                Shutdown {
                    phase: if self.request_poweroff {
                        ShutdownPhase::PoweringOff
                    } else {
                        ShutdownPhase::Arming
                    },
                    ..self
                }
            } else {
                Shutdown { verdict, phase: self.phase_for(verdict, kill), ..self }
            },
            ShutdownPhase::PoweringOff => Shutdown { phase: ShutdownPhase::Arming, ..self },
            ShutdownPhase::Arming => if self.vm {
                Shutdown {
                    phase: ShutdownPhase::Watching,
                    poweroff_deadline: (event->Clock_now + span(
                        BUILD_POWEROFF_TIMEOUT_SECS,
                    )) as u128,
                    ..self
                }
            } else {
                Shutdown {
                    verdict: ShutdownVerdict::Unclean,
                    phase: ShutdownPhase::Looking,
                    ..self
                }
            },
            ShutdownPhase::Watching => if verdict == ShutdownVerdict::Open {
                self
            } else {
                Shutdown {
                    verdict,
                    phase: self.phase_for(verdict, kill),
                    trouble: trouble_in(event),
                    ..self
                }
            },
            ShutdownPhase::Killing => Shutdown {
                phase: ShutdownPhase::Looking,
                trouble: None,
                ..self
            },
            ShutdownPhase::Looking => Shutdown {
                phase: if event->Found_0 {
                    ShutdownPhase::Removing
                } else {
                    ShutdownPhase::Renaming
                },
                ..self
            },
            ShutdownPhase::Removing => Shutdown {
                phase: if event->Ended_0 is Ok {
                    ShutdownPhase::Renaming
                } else {
                    ShutdownPhase::Finished
                },
                ..self
            },
            ShutdownPhase::Renaming => Shutdown { phase: ShutdownPhase::Finished, ..self },
            ShutdownPhase::Finished => self,
        }
    }

    /// The error of the verdict.
    pub open spec fn verdict_error(self) -> Option<Seq<char>> {
        match self.verdict {
            ShutdownVerdict::Clean => None,
            ShutdownVerdict::OverTime => Some(overall_message(self.overall_timeout)),
            ShutdownVerdict::Interrupted => Some(
                "build interrupted; tainted partial disk left at "@ + self.failed_partial@
                    + " for post-mortem"@,
            ),
            _ => Some(
                "build VM did not shut down cleanly; partial disk left at "@
                    + self.failed_partial@ + " for post-mortem"@,
            ),
        }
    }

    /// How the stopping ends, after `event` in this phase.
    pub open spec fn end(self, event: ShutdownEvent) -> Option<Seq<char>> {
        match (self.phase, event) {
            (ShutdownPhase::Removing, ShutdownEvent::Ended(Err(e))) => Some(
                in_context(
                    "cannot replace previous failed build disk: "@ + self.failed_partial@,
                    e@,
                ),
            ),
            (ShutdownPhase::Renaming, ShutdownEvent::Ended(Err(e))) => Some(
                in_context(
                    "cannot preserve failed build disk from "@ + self.partial@ + " to "@
                        + self.failed_partial@,
                    e@,
                ),
            ),
            _ => self.next(event).verdict_error(),
        }
    }

    /// What is done in the state that follows `event`.
    pub open spec fn does(self, event: ShutdownEvent, action: ShutdownAction) -> bool {
        match self.next(event).phase {
            ShutdownPhase::Start => false,
            ShutdownPhase::PoweringOff => action matches ShutdownAction::RunInGuest {
                command,
                retries,
                secs,
            } && command@ == "sudo systemctl poweroff"@ && retries == one_try() && secs
                == SMALL_COMMAND_SECS,
            ShutdownPhase::Arming => action is ReadClock,
            ShutdownPhase::Watching => action == ShutdownAction::LookAtVm {
                pause: if self.phase == ShutdownPhase::Watching {
                    VM_LOOK_PAUSE
                } else {
                    0
                },
            },
            ShutdownPhase::Killing => action is Kill,
            ShutdownPhase::Looking => action matches ShutdownAction::LookFor { path } && path@
                == self.failed_partial@,
            ShutdownPhase::Removing => action matches ShutdownAction::Remove { path } && path@
                == self.failed_partial@,
            ShutdownPhase::Renaming => action matches ShutdownAction::Rename { from, to } && from@
                == self.partial@ && to@ == self.failed_partial@,
            ShutdownPhase::Finished => action matches ShutdownAction::Done(r) && outcome(
                r,
                self.end(event),
            ),
        }
    }

    /// What is shown after `event`.
    pub open spec fn shows_note(self, event: ShutdownEvent, note: Option<ShutdownNote>) -> bool {
        match self.phase {
            ShutdownPhase::Start => note == Some(ShutdownNote::Title),
            ShutdownPhase::Watching => if self.next(event).phase == ShutdownPhase::Finished {
                note == Some(ShutdownNote::Status { ok: true })
            } else {
                note is None
            },
            ShutdownPhase::Killing => match self.trouble {
                Some(error) => {
                    &&& note matches Some(ShutdownNote::Warning { text })
                    &&& text@ == "warning: failed to poll build VM status: "@ + error@
                },
                None => note is None,
            },
            ShutdownPhase::Renaming => if event->Ended_0 is Ok {
                note == Some(ShutdownNote::Status { ok: false })
            } else {
                note is None
            },
            _ => note is None,
        }
    }

    /// Nothing is amiss: what was judged has gone on, and a machine that is watched or
    /// killed is there.
    pub open spec fn wf(self) -> bool {
        &&& self.phase == ShutdownPhase::Start || self.phase == ShutdownPhase::PoweringOff
            || self.phase == ShutdownPhase::Arming || self.phase == ShutdownPhase::Watching
            <==> self.verdict == ShutdownVerdict::Open
        &&& self.phase == ShutdownPhase::Watching || self.phase == ShutdownPhase::Killing
            ==> self.vm
        &&& self.verdict == ShutdownVerdict::Clean ==> self.phase == ShutdownPhase::Finished
    }

    /// Stopping that has not begun.
    pub fn new(
        partial: &str,
        failed_partial: &str,
        request_poweroff: bool,
        vm: bool,
        overall_deadline: u128,
        overall_timeout: u64,
    ) -> (r: Shutdown)
        ensures
            r.wf(),
            r.partial@ == partial@,
            r.failed_partial@ == failed_partial@,
            r.request_poweroff == request_poweroff,
            r.vm == vm,
            r.overall_deadline == overall_deadline,
            r.overall_timeout == overall_timeout,
            r.phase == ShutdownPhase::Start,
            r.trouble is None,
    {
        Shutdown {
            partial: partial.to_owned(),
            failed_partial: failed_partial.to_owned(),
            request_poweroff,
            vm,
            overall_deadline,
            overall_timeout,
            phase: ShutdownPhase::Start,
            verdict: ShutdownVerdict::Open,
            poweroff_deadline: 0,
            trouble: None,
        }
    }

    fn judged(&self, event: &ShutdownEvent) -> (r: (ShutdownVerdict, bool))
        ensures
            r == self.judge(*event),
    {
        match event {
            ShutdownEvent::Look { interrupted, now, vm } => if *interrupted {
                (ShutdownVerdict::Interrupted, true)
            } else {
                match vm {
                    VmState::Exited { success } => if *success {
                        (ShutdownVerdict::Clean, false)
                    } else {
                        (ShutdownVerdict::Unclean, false)
                    },
                    VmState::Running => if *now >= self.overall_deadline {
                        (ShutdownVerdict::OverTime, true)
                    } else if *now >= self.poweroff_deadline {
                        (ShutdownVerdict::Unclean, true)
                    } else {
                        (ShutdownVerdict::Open, false)
                    },
                    VmState::Unknown { .. } => (ShutdownVerdict::Unclean, true),
                }
            },
            ShutdownEvent::Clock { interrupted, now } => if *interrupted {
                (ShutdownVerdict::Interrupted, self.vm)
            } else if *now >= self.overall_deadline {
                (ShutdownVerdict::OverTime, self.vm)
            } else {
                (ShutdownVerdict::Open, false)
            },
            _ => (ShutdownVerdict::Open, false),
        }
    }

    fn result(&self) -> (r: Result<(), PlanError>)
        ensures
            outcome(r, self.verdict_error()),
    {
        match self.verdict {
            ShutdownVerdict::Clean => Ok(()),
            ShutdownVerdict::OverTime => Err(overall_timeout_error(self.overall_timeout)),
            ShutdownVerdict::Interrupted => Err(
                PlanError::new(
                    cat3(
                        "build interrupted; tainted partial disk left at ",
                        self.failed_partial.as_str(),
                        " for post-mortem",
                    ),
                ),
            ),
            _ => Err(
                PlanError::new(
                    cat3(
                        "build VM did not shut down cleanly; partial disk left at ",
                        self.failed_partial.as_str(),
                        " for post-mortem",
                    ),
                ),
            ),
        }
    }

    /// Goes on to keep the disk.
    fn settle(&mut self, verdict: ShutdownVerdict, kill: bool) -> (action: ShutdownAction)
        requires
            verdict != ShutdownVerdict::Open,
        ensures
            *final(self) == (Shutdown {
                verdict,
                phase: old(self).phase_for(verdict, kill),
                ..*old(self)
            }),
            match final(self).phase {
                ShutdownPhase::Killing => action is Kill,
                ShutdownPhase::Looking => action matches ShutdownAction::LookFor { path } && path@
                    == old(self).failed_partial@,
                _ => action matches ShutdownAction::Done(r) && outcome(
                    r,
                    final(self).verdict_error(),
                ),
            },
    {
        self.verdict = verdict;
        let clean = match verdict {
            ShutdownVerdict::Clean => true,
            _ => false,
        };
        if clean {
            self.phase = ShutdownPhase::Finished;
            ShutdownAction::Done(self.result())
        } else if kill {
            self.phase = ShutdownPhase::Killing;
            ShutdownAction::Kill
        } else {
            self.phase = ShutdownPhase::Looking;
            ShutdownAction::LookFor { path: self.failed_partial.clone() }
        }
    }
}

fn is_open(verdict: ShutdownVerdict) -> (r: bool)
    ensures
        r == (verdict == ShutdownVerdict::Open),
{
    match verdict {
        ShutdownVerdict::Open => true,
        _ => false,
    }
}

/// Stops the machine of a build: takes what happened since the last action, and says
/// what to show and what to do next.
///
/// The machine is asked to power off and watched until it exits. It is killed only if
/// the run was interrupted, if the time is over, or if it cannot be looked at. Unless it
/// exited well, its disk is kept under another name.
pub fn shutdown_build_vm(state: &mut Shutdown, event: ShutdownEvent) -> (out: ShutdownOutput)
    requires
        old(state).wf(),
        shutdown_awaits(old(state).phase, event),
        old(state).phase == ShutdownPhase::Arming ==> event->Clock_now + span(
            BUILD_POWEROFF_TIMEOUT_SECS,
        ) <= u128::MAX,
    ensures
        final(state).wf(),
        *final(state) == old(state).next(event),
        old(state).does(event, out.action),
        old(state).shows_note(event, out.note),
{
    let (verdict, kill) = state.judged(&event);
    match state.phase {
        ShutdownPhase::Start => {
            let note = Some(ShutdownNote::Title);
            if !is_open(verdict) {
                let action = state.settle(verdict, kill);
                return ShutdownOutput { note, action };
            }
            if state.request_poweroff {
                state.phase = ShutdownPhase::PoweringOff;
                return ShutdownOutput {
                    note,
                    action: ShutdownAction::RunInGuest {
                        command: "sudo systemctl poweroff".to_owned(),
                        retries: Retries::once(),
                        secs: SMALL_COMMAND_SECS,
                    },
                };
            }
            state.phase = ShutdownPhase::Arming;
            ShutdownOutput { note, action: ShutdownAction::ReadClock }
        },
        ShutdownPhase::PoweringOff => {
            state.phase = ShutdownPhase::Arming;
            ShutdownOutput { note: None, action: ShutdownAction::ReadClock }
        },
        ShutdownPhase::Arming => {
            if !state.vm {
                let action = state.settle(ShutdownVerdict::Unclean, false);
                return ShutdownOutput { note: None, action };
            }
            if let ShutdownEvent::Clock { now, .. } = event {
                state.poweroff_deadline = deadline(now, BUILD_POWEROFF_TIMEOUT_SECS);
            }
            state.phase = ShutdownPhase::Watching;
            ShutdownOutput { note: None, action: ShutdownAction::LookAtVm { pause: 0 } }
        },
        ShutdownPhase::Watching => {
            if is_open(verdict) {
                return ShutdownOutput {
                    note: None,
                    action: ShutdownAction::LookAtVm { pause: VM_LOOK_PAUSE },
                };
            }
            let clean = match verdict {
                ShutdownVerdict::Clean => true,
                _ => false,
            };
            let note = if clean {
                Some(ShutdownNote::Status { ok: true })
            } else {
                None
            };
            state.trouble = match event {
                ShutdownEvent::Look { interrupted: false, vm: VmState::Unknown { error }, .. } => Some(
                    error,
                ),
                _ => None,
            };
            let action = state.settle(verdict, kill);
            ShutdownOutput { note, action }
        },
        ShutdownPhase::Killing => {
            state.phase = ShutdownPhase::Looking;
            let note = match &state.trouble {
                Some(error) => Some(
                    ShutdownNote::Warning {
                        text: cat2("warning: failed to poll build VM status: ", error.as_str()),
                    },
                ),
                None => None,
            };
            state.trouble = None;
            ShutdownOutput {
                note,
                action: ShutdownAction::LookFor { path: state.failed_partial.clone() },
            }
        },
        _ => preserve_failed_build_disk(state, event),
    }
}

/// Keeps the disk under another name: a disk of an earlier failure makes way for it.
pub fn preserve_failed_build_disk(state: &mut Shutdown, event: ShutdownEvent) -> (out:
    ShutdownOutput)
    requires
        old(state).wf(),
        shutdown_awaits(old(state).phase, event),
        old(state).phase == ShutdownPhase::Looking || old(state).phase == ShutdownPhase::Removing
            || old(state).phase == ShutdownPhase::Renaming,
    ensures
        final(state).wf(),
        *final(state) == old(state).next(event),
        old(state).does(event, out.action),
        old(state).shows_note(event, out.note),
{
    match event {
        ShutdownEvent::Found(found) => {
            if found {
                state.phase = ShutdownPhase::Removing;
                return ShutdownOutput {
                    note: None,
                    action: ShutdownAction::Remove { path: state.failed_partial.clone() },
                };
            }
            state.phase = ShutdownPhase::Renaming;
            ShutdownOutput {
                note: None,
                action: ShutdownAction::Rename {
                    from: state.partial.clone(),
                    to: state.failed_partial.clone(),
                },
            }
        },
        ShutdownEvent::Ended(last) => {
            let removing = match state.phase {
                ShutdownPhase::Removing => true,
                _ => false,
            };
            match last {
                Err(e) => {
                    let context = if removing {
                        cat2(
                            "cannot replace previous failed build disk: ",
                            state.failed_partial.as_str(),
                        )
                    } else {
                        cat4(
                            "cannot preserve failed build disk from ",
                            state.partial.as_str(),
                            " to ",
                            state.failed_partial.as_str(),
                        )
                    };
                    state.phase = ShutdownPhase::Finished;
                    ShutdownOutput {
                        note: None,
                        action: ShutdownAction::Done(Err(e.within(context.as_str()))),
                    }
                },
                Ok(()) => {
                    if removing {
                        state.phase = ShutdownPhase::Renaming;
                        return ShutdownOutput {
                            note: None,
                            action: ShutdownAction::Rename {
                                from: state.partial.clone(),
                                to: state.failed_partial.clone(),
                            },
                        };
                    }
                    state.phase = ShutdownPhase::Finished;
                    let r = state.result();
                    ShutdownOutput {
                        note: Some(ShutdownNote::Status { ok: false }),
                        action: ShutdownAction::Done(r),
                    }
                },
            }
        },
        _ => ShutdownOutput { note: None, action: ShutdownAction::ReadClock },
    }
}

/// A disk is handed on only after a clean stop: the stopping succeeds exactly if the
/// machine was seen to exit well, without an interruption.
pub proof fn only_a_clean_stop_succeeds(state: Shutdown, event: ShutdownEvent)
    requires
        state.wf(),
        shutdown_awaits(state.phase, event),
    ensures
        (state.next(event).phase == ShutdownPhase::Finished && state.end(event) is None) <==> {
            &&& state.phase == ShutdownPhase::Watching
            &&& event matches ShutdownEvent::Look { interrupted, vm, .. }
            &&& !interrupted
            &&& vm == VmState::Exited { success: true }
        },
{
}

/// A machine that runs is killed only if the run was interrupted, if time is over, or if
/// it cannot be looked at.
pub proof fn machines_are_killed_for_a_reason(state: Shutdown, event: ShutdownEvent)
    requires
        state.wf(),
        shutdown_awaits(state.phase, event),
        state.next(event).phase == ShutdownPhase::Killing,
    ensures
        match event {
            ShutdownEvent::Clock { interrupted, now } => interrupted || now
                >= state.overall_deadline,
            ShutdownEvent::Look { interrupted, now, vm } => interrupted || now
                >= state.overall_deadline || now >= state.poweroff_deadline || vm is Unknown,
            _ => false,
        },
{
}

/// Whether a machine that was stopped by force stopped well: killing it and waiting for
/// it went well, if there was one.
pub fn cleanup_test(stopped: Option<(bool, bool)>) -> (r: bool)
    ensures
        r == match stopped {
            Some((killed, waited)) => killed && waited,
            None => true,
        },
{
    match stopped {
        Some((killed, waited)) => killed && waited,
        None => true,
    }
}

} // verus!
