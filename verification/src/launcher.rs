//! The launch controller's decisions. Running a program either
//! replaces the chooser's own process image (terminal programs) or
//! detaches a fresh process from the chooser's terminal through a
//! double fork (graphical programs). The process calls themselves are
//! the surrounding program's business; every decision about them is
//! made here, and the usage record is bumped before any of them runs.

use vstd::prelude::*;

use crate::application::{app_views, Application, ApplicationV};
use crate::applist::ApplicationListState;

verus! {

/// How a selected application must be run.
#[derive(Clone, Copy, Debug, PartialEq, Eq, Structural)]
pub enum LaunchMethod {
    /// Replace the chooser's process image: the program takes over the
    /// terminal; on success the call never returns.
    ExecReplace,
    /// Double-fork a detached process: the grandchild runs the program
    /// in its own session and is reparented away, so no zombie stays.
    DetachSpawn,
}

/// The mathematical value of a launch plan.
pub struct LaunchPlanV {
    pub executable: Seq<char>,
    pub args: Seq<Seq<char>>,
    pub method: LaunchMethod,
    pub keep_alive: bool,
}

/// Everything the process layer needs to run one launch.
#[derive(Debug)]
pub struct LaunchPlan {
    pub executable: String,
    pub args: Vec<String>,
    pub method: LaunchMethod,
    pub keep_alive: bool,
}

impl View for LaunchPlan {
    type V = LaunchPlanV;

    open spec fn view(&self) -> LaunchPlanV {
        LaunchPlanV {
            executable: self.executable@,
            args: self.args@.map_values(|a: String| a@),
            method: self.method,
            keep_alive: self.keep_alive,
        }
    }
}

/// The method an application calls for.
pub open spec fn method_for(a: ApplicationV) -> LaunchMethod {
    if a.terminal {
        LaunchMethod::ExecReplace
    } else {
        LaunchMethod::DetachSpawn
    }
}

/// Decides how an application is run: terminal programs replace the
/// chooser, all others are detached; the command is carried unchanged.
pub fn plan_launch(application: &Application, keep_alive: bool) -> (r: LaunchPlan)
    ensures
        r@.executable == application@.filename,
        r@.args == application@.args,
        r@.method == method_for(application@),
        r@.keep_alive == keep_alive,
{
    let method = if application.terminal {
        LaunchMethod::ExecReplace
    } else {
        LaunchMethod::DetachSpawn
    };
    LaunchPlan {
        executable: application.filename.clone(),
        args: crate::application::clone_strings(&application.args),
        method,
        keep_alive,
    }
}

/// What the fork parent does right after a detached spawn.
#[derive(Clone, Copy, Debug, PartialEq, Eq, Structural)]
pub enum ParentAction {
    /// Keep the chooser alive: hand control back to the interactive
    /// loop at once, without waiting for the intermediate child.
    ReturnToLoop,
    /// Choose-and-quit: poll the intermediate child until it exits.
    PollChild,
}

/// Decides the fork parent's behaviour from the keep-alive flag.
pub fn parent_action(keep_alive: bool) -> (r: ParentAction)
    ensures
        r == (if keep_alive {
            ParentAction::ReturnToLoop
        } else {
            ParentAction::PollChild
        }),
{
    if keep_alive {
        ParentAction::ReturnToLoop
    } else {
        ParentAction::PollChild
    }
}

/// What one non-blocking wait on the intermediate child reported.
#[derive(Clone, Copy, Debug, PartialEq, Eq, Structural)]
pub enum WaitOutcome {
    /// The intermediate child has exited.
    Exited,
    /// It is still running.
    StillRunning,
    /// The wait call itself failed.
    WaitFailed,
}

/// What the poll loop does next.
#[derive(Clone, Copy, Debug, PartialEq, Eq, Structural)]
pub enum PollDecision {
    /// Restore the terminal display and end the whole program: the
    /// chosen program has been handed off.
    RestoreAndExit,
    /// Sleep this many milliseconds, then wait again.
    SleepAndRetry { millis: u64 },
    /// The launch attempt is over; report it failed.
    AbortAttempt,
}

/// Decides one step of the wait loop: an exited child ends the
/// program, a running child is polled again after a short fixed sleep,
/// and a failed wait aborts the attempt rather than continuing in an
/// unknown process state.
pub fn poll_decision(outcome: WaitOutcome) -> (r: PollDecision)
    ensures
        r == (match outcome {
            WaitOutcome::Exited => PollDecision::RestoreAndExit,
            WaitOutcome::StillRunning => PollDecision::SleepAndRetry { millis: 10u64 },
            WaitOutcome::WaitFailed => PollDecision::AbortAttempt,
        }),
{
    match outcome {
        WaitOutcome::Exited => PollDecision::RestoreAndExit,
        WaitOutcome::StillRunning => PollDecision::SleepAndRetry { millis: 10 },
        WaitOutcome::WaitFailed => PollDecision::AbortAttempt,
    }
}

/// Records the launch of the selected application and hands back the
/// plan to run it: the usage record is bumped before any process call,
/// whatever the keep-alive flag and whatever becomes of the launch. No
/// selection, no launch.
pub fn prepare_launch(state: &mut ApplicationListState, keep_alive: bool) -> (r: Option<
    LaunchPlan,
>)
    requires
        old(state).wf(),
        match old(state).cursor {
            Some(i) => {
                let name = app_views(old(state).filtered_applications@)[i as int].name;
                &&& forall|j: int|
                    0 <= j < old(state).applications@.len() && old(
                        state,
                    ).applications@[j]@.name == name ==> old(
                        state,
                    ).applications@[j].db_entry.launch_count < usize::MAX
                &&& forall|j: int|
                    0 <= j < old(state).store@.len() && old(state).store@[j].name == name ==> old(
                        state,
                    ).store@[j].launch_count < usize::MAX
            },
            None => true,
        },
    ensures
        final(state).wf(),
        match (r, old(state).cursor) {
            (None, None) => *final(state) == *old(state),
            (Some(plan), Some(i)) => {
                let sel = app_views(old(state).filtered_applications@)[i as int];
                &&& plan@.executable == sel.filename
                &&& plan@.args == sel.args
                &&& plan@.method == method_for(sel)
                &&& plan@.keep_alive == keep_alive
                &&& final(state).store@ == crate::db::Db::bump_spec(old(state).store@, sel.name)
                &&& app_views(final(state).applications@) == app_views(
                    old(state).applications@,
                ).map_values(|a: ApplicationV| crate::applist::bump_app(a, sel.name))
                &&& final(state).filter@ == old(state).filter@
                &&& final(state).cursor == old(state).cursor
            },
            _ => false,
        },
{
    let selected = state.selected();
    match selected {
        Some(application) => {
            state.increment_launch_count(&application);
            Some(plan_launch(&application, keep_alive))
        },
        None => None,
    }
}

} // verus!
