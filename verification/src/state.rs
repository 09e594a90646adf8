//! The editor state that the project actions read and change: the project text, whether it
//! has unsaved edits, the status line, diagnostics and the scope probe to open next.
use vstd::prelude::*;
use crate::board::EditError;
use crate::selection::SketchSelection;
use crate::text::str_to_string;

verus! {

/// A scope probe to show: the run setup (scenario) and the probe in it.
#[derive(Clone, Debug, PartialEq, Eq)]
pub struct ScopeProbeTarget {
    pub scenario_name: String,
    pub probe_name: String,
}

/// The state of the circuit CI editor that project actions work on.
pub struct CircuitCiApp {
    pub project_path: String,
    pub project_yaml: String,
    pub project_yaml_dirty: bool,
    pub status: String,
    pub diagnostics: Vec<String>,
    pub last_error: Option<EditError>,
    pub pending_scope_probe: Option<ScopeProbeTarget>,
    pub scope_auto_probes_before_run: bool,
    pub analog_scenario_name: String,
    pub analog_probe_name: String,
    pub selected_sketch_item: Option<SketchSelection>,
    pub selected_sketch_items: Vec<SketchSelection>,
}

impl Default for CircuitCiApp {
    /// No project, nothing pending, automatic scope probes before a run switched on.
    fn default() -> (r: Self)
        ensures
            r.project_path@.len() == 0,
            r.project_yaml@.len() == 0,
            !r.project_yaml_dirty,
            r.status@.len() == 0,
            r.diagnostics@.len() == 0,
            r.last_error is None,
            r.pending_scope_probe is None,
            r.scope_auto_probes_before_run,
            r.analog_scenario_name@ == "gui_transient"@,
            r.analog_probe_name@ == "probe_voltage"@,
            r.selected_sketch_item is None,
            r.selected_sketch_items@.len() == 0,
    {
        CircuitCiApp {
            project_path: String::new(),
            project_yaml: String::new(),
            project_yaml_dirty: false,
            status: String::new(),
            diagnostics: Vec::new(),
            last_error: None,
            pending_scope_probe: None,
            scope_auto_probes_before_run: true,
            analog_scenario_name: str_to_string("gui_transient"),
            analog_probe_name: str_to_string("probe_voltage"),
            selected_sketch_item: None,
            selected_sketch_items: Vec::new(),
        }
    }
}

/// The view of a scope probe target: its run setup and probe names.
pub open spec fn target_view(t: ScopeProbeTarget) -> (Seq<char>, Seq<char>) {
    (t.scenario_name@, t.probe_name@)
}

/// The view of an optional target.
pub open spec fn opt_target_view(t: Option<ScopeProbeTarget>) -> Option<(Seq<char>, Seq<char>)> {
    match t {
        Some(t) => Some(target_view(t)),
        None => None,
    }
}

impl CircuitCiApp {
    /// Takes an edited project text: it becomes the project, unsaved, with `status` shown.
    pub fn apply_edited_project_yaml(&mut self, updated: String, status: &str)
        ensures
            final(self).status@ == status@,
            *final(self) == (CircuitCiApp {
                project_yaml: updated,
                project_yaml_dirty: true,
                status: final(self).status,
                ..*old(self)
            }),
    {
        self.project_yaml = updated;
        self.project_yaml_dirty = true;
        self.status = str_to_string(status);
    }

    /// Remembers the scope probe to open when the next run finishes.
    pub fn remember_scope_probe_target(&mut self, scenario_name: &str, probe_name: &str)
        ensures
            opt_target_view(final(self).pending_scope_probe) == Some((scenario_name@, probe_name@)),
            *final(self) == (CircuitCiApp {
                pending_scope_probe: final(self).pending_scope_probe,
                ..*old(self)
            }),
    {
        self.pending_scope_probe = Some(
            ScopeProbeTarget {
                scenario_name: str_to_string(scenario_name),
                probe_name: str_to_string(probe_name),
            },
        );
    }

    /// Adds a line to the diagnostics.
    pub fn push_diagnostic(&mut self, message: &str)
        ensures
            final(self).diagnostics@.len() == old(self).diagnostics@.len() + 1,
            final(self).diagnostics@.last()@ == message@,
            final(self).diagnostics@.drop_last() == old(self).diagnostics@,
            *final(self) == (CircuitCiApp { diagnostics: final(self).diagnostics, ..*old(self) }),
    {
        self.diagnostics.push(str_to_string(message));
        assert(self.diagnostics@.drop_last() =~= old(self).diagnostics@);
    }

    /// Keeps an error of a project action for display.
    pub fn record_error(&mut self, error: EditError)
        ensures
            *final(self) == (CircuitCiApp { last_error: Some(error), ..*old(self) }),
    {
        self.last_error = Some(error);
    }
}

} // verus!
