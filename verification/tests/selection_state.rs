use circuit_ci_gui::board::EditError;
use circuit_ci_gui::bundles::SketchNetBundle;
use circuit_ci_gui::selection::{SketchSelection, schematic_node_key};
use circuit_ci_gui::state::{CircuitCiApp, ScopeProbeTarget};
use serde_yaml_ng::Value;

const PROJECT: &str = "board:
  components:
    R1:
      model: generic.analog.resistor
      pins: {A: vin}
    R2:
      model: generic.analog.resistor
  nets:
    vin: {kind: power}
    spare: {kind: digital_or_analog}
    spare2: {kind: digital_or_analog}
  schematic:
    net_labels:
      lbl1: {net: spare, kind: local}
      lbl2: {net: vin, kind: local}
scenarios: []
";

fn app() -> CircuitCiApp {
    let mut app = CircuitCiApp::default();
    app.project_yaml = PROJECT.to_string();
    app
}

fn board(text: &str) -> Value {
    let doc: Value = serde_yaml_ng::from_str(text).unwrap();
    doc["board"].clone()
}

fn comp(id: &str) -> SketchSelection {
    SketchSelection::Component(id.to_string())
}

fn net(id: &str) -> SketchSelection {
    SketchSelection::Net(id.to_string())
}

#[test]
fn default_editor_state() {
    let app = CircuitCiApp::default();
    assert!(app.scope_auto_probes_before_run);
    assert_eq!(app.analog_scenario_name, "gui_transient");
    assert_eq!(app.analog_probe_name, "probe_voltage");
    assert!(!app.project_yaml_dirty);
    assert!(app.pending_scope_probe.is_none());
}

#[test]
fn edits_mark_the_project_dirty_and_errors_are_kept() {
    let mut app = app();
    app.apply_edited_project_yaml("scenarios: []\n".to_string(), "Edited.");
    assert!(app.project_yaml_dirty);
    assert_eq!(app.status, "Edited.");
    assert_eq!(app.project_yaml, "scenarios: []\n");
    app.record_error(EditError::NoNets);
    assert!(matches!(app.last_error, Some(EditError::NoNets)));
    assert_eq!(app.status, "Edited.");
    app.push_diagnostic("first");
    app.push_diagnostic("second");
    assert_eq!(app.diagnostics, vec!["first".to_string(), "second".to_string()]);
    app.remember_scope_probe_target("tran", "v_out");
    assert_eq!(
        app.pending_scope_probe,
        Some(ScopeProbeTarget { scenario_name: "tran".to_string(), probe_name: "v_out".to_string() })
    );
}

#[test]
fn toggling_twice_restores_the_selection() {
    let mut app = app();
    app.toggle_sketch_selection(comp("R1"));
    app.toggle_sketch_selection(net("vin"));
    assert!(app.selection_is_selected(&comp("R1")));
    assert!(app.selection_is_selected(&net("vin")));
    app.toggle_sketch_selection(net("vin"));
    assert!(!app.selection_is_selected(&net("vin")));
    assert_eq!(app.selected_sketch_items.len(), 1);
    app.toggle_sketch_selection(comp("R1"));
    assert!(app.selected_sketch_items.is_empty());
    assert!(app.selected_sketch_item.is_none());
    app.toggle_sketch_selection(SketchSelection::Overflow("more".to_string()));
    assert!(app.selected_sketch_items.is_empty());
}

#[test]
fn single_selection_and_deletable_check() {
    let mut app = app();
    assert!(!app.has_deletable_sketch_selection());
    app.set_single_sketch_selection(Some(SketchSelection::Overflow("x".to_string())));
    assert!(!app.has_deletable_sketch_selection());
    app.set_single_sketch_selection(Some(comp("R2")));
    assert!(app.has_deletable_sketch_selection());
    assert!(app.selection_is_selected(&comp("R2")));
    app.set_single_sketch_selection(None);
    assert!(!app.has_deletable_sketch_selection());
}

#[test]
fn deleting_the_single_selected_component() {
    let mut app = app();
    app.set_single_sketch_selection(Some(comp("R2")));
    app.apply_delete_selected_sketch_item();
    assert!(board(&app.project_yaml)["components"].get("R2").is_none());
    assert_eq!(app.status, "Component R2 removed.");
    assert!(app.project_yaml_dirty);
}

#[test]
fn deleting_with_nothing_selected_reports_it() {
    let mut app = app();
    app.apply_delete_selected_sketch_item();
    assert_eq!(app.status, "No deletable sketch item selected.");
    assert_eq!(app.project_yaml, PROJECT);
}

#[test]
fn removing_a_net_drops_its_labels() {
    let mut app = app();
    app.apply_remove_net("spare");
    let b = board(&app.project_yaml);
    assert!(b["nets"].get("spare").is_none());
    assert!(b["schematic"]["net_labels"].get("lbl1").is_none());
    assert!(b["schematic"]["net_labels"].get("lbl2").is_some());
    assert_eq!(app.status, "Net spare removed.");
}

#[test]
fn removing_a_used_net_records_the_error() {
    let mut app = app();
    app.apply_remove_net("vin");
    assert!(matches!(app.last_error, Some(EditError::NetStillReferenced(_, _))));
    assert_eq!(app.project_yaml, PROJECT);
}

#[test]
fn deleting_a_selection_set_removes_every_item() {
    let mut app = app();
    app.toggle_sketch_selection(comp("R2"));
    app.toggle_sketch_selection(net("spare2"));
    app.toggle_sketch_selection(net("spare"));
    app.apply_delete_selected_sketch_items();
    let b = board(&app.project_yaml);
    assert!(b["components"].get("R2").is_none());
    assert!(b["nets"].get("spare").is_none());
    assert!(b["nets"].get("spare2").is_none());
    assert!(b["components"].get("R1").is_some());
    assert_eq!(app.status, "3 sketch item(s) removed.");
    assert!(app.selected_sketch_items.is_empty());
}

#[test]
fn selecting_a_bundle_selects_its_nets() {
    let mut app = app();
    let bundle = SketchNetBundle {
        label: "spare[]".to_string(),
        members: vec!["spare".to_string(), "spare2".to_string()],
    };
    app.select_net_bundle(&bundle);
    assert!(app.selection_is_selected(&net("spare")));
    assert!(app.selection_is_selected(&net("spare2")));
    assert!(!app.selection_is_selected(&comp("R1")));
    assert_eq!(app.status, "Selected net bundle spare[] (2 nets).");
}

#[test]
fn schematic_node_keys() {
    assert_eq!(schematic_node_key(&comp("R1")), Some("component:R1".to_string()));
    assert_eq!(schematic_node_key(&net("vin")), Some("net:vin".to_string()));
    assert_eq!(schematic_node_key(&SketchSelection::Overflow("x".to_string())), None);
}

#[test]
fn group_actions_take_selected_nodes_in_drawing_order() {
    let mut app = app();
    app.toggle_sketch_selection(net("vin"));
    app.toggle_sketch_selection(comp("R2"));
    let nodes = vec![
        comp("R1"),
        net("vin"),
        SketchSelection::Overflow("more".to_string()),
        comp("R2"),
        net("spare"),
    ];
    assert_eq!(app.selected_nodes(&nodes), vec![1, 3]);
    app.set_single_sketch_selection(Some(comp("R1")));
    assert_eq!(app.selected_nodes(&nodes), Vec::<usize>::new());
}
