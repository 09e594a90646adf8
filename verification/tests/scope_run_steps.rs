use circuit_ci_gui::run::{ScopeRunAction, ScopeRunEvent, ScopeRunPhase, next_scope_run_step};

#[test]
fn unsaved_edits_are_saved_before_anything_else() {
    assert_eq!(
        next_scope_run_step(ScopeRunPhase::Start, ScopeRunEvent::Begun { dirty: true }),
        (ScopeRunPhase::SavingEdits, ScopeRunAction::Save)
    );
    assert_eq!(
        next_scope_run_step(ScopeRunPhase::SavingEdits, ScopeRunEvent::Saved { still_dirty: true }),
        (ScopeRunPhase::Done, ScopeRunAction::Stop)
    );
    assert_eq!(
        next_scope_run_step(ScopeRunPhase::SavingEdits, ScopeRunEvent::Saved { still_dirty: false }),
        (ScopeRunPhase::AddingProbes, ScopeRunAction::AddProbes)
    );
}

#[test]
fn a_clean_project_walks_straight_to_the_run() {
    let (phase, action) =
        next_scope_run_step(ScopeRunPhase::Start, ScopeRunEvent::Begun { dirty: false });
    assert_eq!(action, ScopeRunAction::AddProbes);
    let (phase, action) = next_scope_run_step(phase, ScopeRunEvent::Prepared { changed: false });
    assert_eq!(action, ScopeRunAction::PrepareInputs);
    let (phase, action) = next_scope_run_step(phase, ScopeRunEvent::Prepared { changed: false });
    assert_eq!((phase, action), (ScopeRunPhase::Done, ScopeRunAction::Validate));
}

#[test]
fn every_change_is_saved_before_the_run() {
    let (phase, action) =
        next_scope_run_step(ScopeRunPhase::AddingProbes, ScopeRunEvent::Prepared { changed: true });
    assert_eq!((phase, action), (ScopeRunPhase::SavingProbes, ScopeRunAction::Save));
    let (phase, action) = next_scope_run_step(phase, ScopeRunEvent::Saved { still_dirty: false });
    assert_eq!((phase, action), (ScopeRunPhase::PreparingInputs, ScopeRunAction::PrepareInputs));
    let (phase, action) = next_scope_run_step(phase, ScopeRunEvent::Prepared { changed: true });
    assert_eq!((phase, action), (ScopeRunPhase::SavingInputs, ScopeRunAction::Save));
    assert_eq!(
        next_scope_run_step(phase, ScopeRunEvent::Saved { still_dirty: true }),
        (ScopeRunPhase::Done, ScopeRunAction::Stop)
    );
    assert_eq!(
        next_scope_run_step(phase, ScopeRunEvent::Saved { still_dirty: false }),
        (ScopeRunPhase::Done, ScopeRunAction::Validate)
    );
}

#[test]
fn failures_and_stray_events_end_the_preparation() {
    assert_eq!(
        next_scope_run_step(ScopeRunPhase::AddingProbes, ScopeRunEvent::Failed),
        (ScopeRunPhase::Done, ScopeRunAction::ReportFailure)
    );
    assert_eq!(
        next_scope_run_step(ScopeRunPhase::PreparingInputs, ScopeRunEvent::Failed),
        (ScopeRunPhase::Done, ScopeRunAction::ReportFailure)
    );
    assert_eq!(
        next_scope_run_step(ScopeRunPhase::Done, ScopeRunEvent::Begun { dirty: false }),
        (ScopeRunPhase::Done, ScopeRunAction::Stop)
    );
    assert_eq!(
        next_scope_run_step(ScopeRunPhase::Start, ScopeRunEvent::Saved { still_dirty: false }),
        (ScopeRunPhase::Done, ScopeRunAction::Stop)
    );
}
