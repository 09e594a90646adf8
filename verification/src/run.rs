//! The order of the steps before a scope run: save unsaved edits, add the missing scope
//! probes, get a run setup with a probe, and only then start the run. The caller performs
//! each step and reports how it went; [`next_scope_run_step`] decides what comes next.
use vstd::prelude::*;

verus! {

/// Where the preparation of a scope run stands.
#[derive(Debug, Clone, Copy, PartialEq, Eq, Structural)]
pub enum ScopeRunPhase {
    /// Nothing done yet.
    Start,
    /// The unsaved edits were being saved.
    SavingEdits,
    /// The missing scope probes were being added.
    AddingProbes,
    /// The project with the added probes was being saved.
    SavingProbes,
    /// A run setup with a probe was being made ready.
    PreparingInputs,
    /// The project with the run inputs was being saved.
    SavingInputs,
    /// The run was started or given up.
    Done,
}

/// How the step the caller just performed went.
#[derive(Debug, Clone, Copy, PartialEq, Eq, Structural)]
pub enum ScopeRunEvent {
    /// The preparation begins; whether the project has unsaved edits.
    Begun { dirty: bool },
    /// A save was attempted; whether the project still has unsaved edits.
    Saved { still_dirty: bool },
    /// A preparation step succeeded; whether it changed the project.
    Prepared { changed: bool },
    /// A preparation step failed.
    Failed,
}

/// What the caller does next.
#[derive(Debug, Clone, Copy, PartialEq, Eq, Structural)]
pub enum ScopeRunAction {
    /// Save the project.
    Save,
    /// Add the missing scope probes.
    AddProbes,
    /// Make a run setup with a probe ready.
    PrepareInputs,
    /// Validate the project, which starts the run.
    Validate,
    /// Keep the failure of the last step and give up.
    ReportFailure,
    /// Give up without running.
    Stop,
}

/// The phase that follows a save: `next` when the save left nothing unsaved.
pub open spec fn after_save(still_dirty: bool, next: ScopeRunPhase, then: ScopeRunAction) -> (
    ScopeRunPhase,
    ScopeRunAction,
) {
    if still_dirty {
        (ScopeRunPhase::Done, ScopeRunAction::Stop)
    } else {
        (next, then)
    }
}

/// The step after `phase` when `event` reports how it went.
pub open spec fn scope_run_transition(phase: ScopeRunPhase, event: ScopeRunEvent) -> (
    ScopeRunPhase,
    ScopeRunAction,
) {
    match (phase, event) {
        (ScopeRunPhase::Start, ScopeRunEvent::Begun { dirty }) => if dirty {
            (ScopeRunPhase::SavingEdits, ScopeRunAction::Save)
        } else {
            (ScopeRunPhase::AddingProbes, ScopeRunAction::AddProbes)
        },
        (ScopeRunPhase::SavingEdits, ScopeRunEvent::Saved { still_dirty }) => after_save(
            still_dirty,
            ScopeRunPhase::AddingProbes,
            ScopeRunAction::AddProbes,
        ),
        (ScopeRunPhase::AddingProbes, ScopeRunEvent::Prepared { changed }) => if changed {
            (ScopeRunPhase::SavingProbes, ScopeRunAction::Save)
        } else {
            (ScopeRunPhase::PreparingInputs, ScopeRunAction::PrepareInputs)
        },
        (ScopeRunPhase::SavingProbes, ScopeRunEvent::Saved { still_dirty }) => after_save(
            still_dirty,
            ScopeRunPhase::PreparingInputs,
            ScopeRunAction::PrepareInputs,
        ),
        (ScopeRunPhase::PreparingInputs, ScopeRunEvent::Prepared { changed }) => if changed {
            (ScopeRunPhase::SavingInputs, ScopeRunAction::Save)
        } else {
            (ScopeRunPhase::Done, ScopeRunAction::Validate)
        },
        (ScopeRunPhase::SavingInputs, ScopeRunEvent::Saved { still_dirty }) => after_save(
            still_dirty,
            ScopeRunPhase::Done,
            ScopeRunAction::Validate,
        ),
        (ScopeRunPhase::AddingProbes, ScopeRunEvent::Failed) => (
            ScopeRunPhase::Done,
            ScopeRunAction::ReportFailure,
        ),
        (ScopeRunPhase::PreparingInputs, ScopeRunEvent::Failed) => (
            ScopeRunPhase::Done,
            ScopeRunAction::ReportFailure,
        ),
        _ => (ScopeRunPhase::Done, ScopeRunAction::Stop),
    }
}

/// Decides the next step of a scope run's preparation from the phase it is in and how the
/// last step went: a save comes first when there are unsaved edits and after every step
/// that changed the project, a save that leaves edits unsaved or a failed step ends the
/// preparation, and the run starts only once both preparation steps are through.
pub fn next_scope_run_step(phase: ScopeRunPhase, event: ScopeRunEvent) -> (r: (
    ScopeRunPhase,
    ScopeRunAction,
))
    ensures
        r == scope_run_transition(phase, event),
{
    match (phase, event) {
        (ScopeRunPhase::Start, ScopeRunEvent::Begun { dirty }) => if dirty {
            (ScopeRunPhase::SavingEdits, ScopeRunAction::Save)
        } else {
            (ScopeRunPhase::AddingProbes, ScopeRunAction::AddProbes)
        },
        (ScopeRunPhase::SavingEdits, ScopeRunEvent::Saved { still_dirty }) => if still_dirty {
            (ScopeRunPhase::Done, ScopeRunAction::Stop)
        } else {
            (ScopeRunPhase::AddingProbes, ScopeRunAction::AddProbes)
        },
        (ScopeRunPhase::AddingProbes, ScopeRunEvent::Prepared { changed }) => if changed {
            (ScopeRunPhase::SavingProbes, ScopeRunAction::Save)
        } else {
            (ScopeRunPhase::PreparingInputs, ScopeRunAction::PrepareInputs)
        },
        (ScopeRunPhase::SavingProbes, ScopeRunEvent::Saved { still_dirty }) => if still_dirty {
            (ScopeRunPhase::Done, ScopeRunAction::Stop)
        } else {
            (ScopeRunPhase::PreparingInputs, ScopeRunAction::PrepareInputs)
        },
        (ScopeRunPhase::PreparingInputs, ScopeRunEvent::Prepared { changed }) => if changed {
            (ScopeRunPhase::SavingInputs, ScopeRunAction::Save)
        } else {
            (ScopeRunPhase::Done, ScopeRunAction::Validate)
        },
        (ScopeRunPhase::SavingInputs, ScopeRunEvent::Saved { still_dirty }) => if still_dirty {
            (ScopeRunPhase::Done, ScopeRunAction::Stop)
        } else {
            (ScopeRunPhase::Done, ScopeRunAction::Validate)
        },
        (ScopeRunPhase::AddingProbes, ScopeRunEvent::Failed) => (
            ScopeRunPhase::Done,
            ScopeRunAction::ReportFailure,
        ),
        (ScopeRunPhase::PreparingInputs, ScopeRunEvent::Failed) => (
            ScopeRunPhase::Done,
            ScopeRunAction::ReportFailure,
        ),
        _ => (ScopeRunPhase::Done, ScopeRunAction::Stop),
    }
}

/// The run starts only right after the run inputs were made ready without change, or after
/// a save that left nothing unsaved; and every step ends the preparation when its event
/// does not belong to it.
pub proof fn law_scope_run_starts_only_when_saved(phase: ScopeRunPhase, event: ScopeRunEvent)
    ensures
        scope_run_transition(phase, event).1 == ScopeRunAction::Validate ==> (
            (phase == ScopeRunPhase::PreparingInputs && event == (ScopeRunEvent::Prepared {
                changed: false,
            })) || (phase == ScopeRunPhase::SavingInputs && event == (ScopeRunEvent::Saved {
                still_dirty: false,
            }))),
        scope_run_transition(phase, event).1 == ScopeRunAction::Save ==> (event == (
        ScopeRunEvent::Begun { dirty: true }) || event == (ScopeRunEvent::Prepared {
            changed: true,
        })),
        scope_run_transition(ScopeRunPhase::Done, event) == (
            ScopeRunPhase::Done,
            ScopeRunAction::Stop,
        ),
{
}

} // verus!
