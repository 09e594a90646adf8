use circuit_ci_gui::analog::analog_scenario_choices;
use circuit_ci_gui::probes::{
    auto_scope_probe_candidates, auto_scope_probe_preview_rows, auto_scope_probe_project_yaml,
};
use circuit_ci_gui::state::{CircuitCiApp, ScopeProbeTarget};
use circuit_ci_gui::board::parse_project;

const AUTO_SCOPE_PROJECT: &str = "project:
  name: auto_scope_probe_test
  version: 0.1.0
board:
  components:
    V1:
      model: generic.analog.voltage_source
      spice: {primitive: dc_voltage_source, dc_v: 5.0}
      pins: {P: rail_5v, N: gnd}
    VOUT:
      model: generic.analog.voltage_source
      spice:
        primitive: pulse_voltage_source
        pulse: {initial_v: 0.0, pulsed_v: 5.0, delay_us: 0.0, rise_us: 1.0, fall_us: 1.0, width_us: 326.0, period_us: 686.0}
      pins: {P: out, N: gnd}
    RTIM:
      model: generic.analog.resistor
      spice: {primitive: resistor, value_ohm: 10000.0}
      pins: {A: out, B: timing}
    CTIM:
      model: generic.analog.capacitor
      spice: {primitive: capacitor, value_f: 0.00000001}
      pins: {A: timing, B: gnd}
  nets:
    gnd: {kind: ground}
    out: {kind: digital_or_analog}
    rail_5v: {kind: power, nominal_voltage: 5.0, powered: true}
    timing: {kind: digital_or_analog}
scenarios:
  - name: astable
    type: analog
    analog:
      backend: auto
      netlist_source: generated_from_board
      generated: {components: [V1, VOUT, RTIM, CTIM], ground_net: gnd}
      model_files: []
      node_bindings:
        - {node: '0', net: gnd}
        - {node: out, net: out}
        - {node: rail_5v, net: rail_5v}
        - {node: timing, net: timing}
      pin_bindings:
        - {node: rail_5v, endpoint: {component: V1, pin: P}}
        - {node: '0', endpoint: {component: V1, pin: N}}
        - {node: out, endpoint: {component: VOUT, pin: P}}
        - {node: '0', endpoint: {component: VOUT, pin: N}}
      analysis: {type: tran, stop_time_us: 5000.0, max_step_us: 2.0}
      stimuli: []
      probes: []
      assertions: []
";

#[test]
fn auto_scope_candidates_cover_analog_nodes_and_sources() {
    let project = parse_project(AUTO_SCOPE_PROJECT, true).unwrap();
    let candidates = auto_scope_probe_candidates(&project);
    let names = candidates
        .iter()
        .map(|candidate| candidate.probe_name.as_str())
        .collect::<Vec<_>>();
    assert_eq!(names, ["v_out", "v_rail_5v", "v_timing", "i_V1", "i_VOUT"]);
}

#[test]
fn auto_scope_project_yaml_adds_missing_probes_once() {
    let edit = auto_scope_probe_project_yaml(AUTO_SCOPE_PROJECT).unwrap();
    assert_eq!(edit.added_voltage, 3);
    assert_eq!(edit.added_current, 2);
    assert_eq!(edit.first_target.as_ref().unwrap().probe_name, "v_out");
    let choices = analog_scenario_choices(&edit.updated_yaml).unwrap();
    assert_eq!(choices[0].probes.len(), 5);

    let second = auto_scope_probe_project_yaml(&edit.updated_yaml).unwrap();
    assert_eq!(second.added_total(), 0);
}

#[test]
fn auto_scope_preview_rows_show_run_probe_setup() {
    let rows = auto_scope_probe_preview_rows(AUTO_SCOPE_PROJECT).unwrap();

    let summary = rows
        .iter()
        .map(|row| {
            format!(
                "{}:{}:{}:{}",
                row.quantity, row.probe_name, row.expression, row.target
            )
        })
        .collect::<Vec<_>>();
    assert_eq!(
        summary,
        [
            "voltage:v_out:V(out):net out",
            "voltage:v_rail_5v:V(rail_5v):net rail_5v",
            "voltage:v_timing:V(timing):net timing",
            "current:i_V1:I(V1):source V1",
            "current:i_VOUT:I(VOUT):source VOUT",
        ]
    );
}

#[test]
fn auto_scope_before_run_edits_project_and_remembers_first_probe() {
    let mut app = CircuitCiApp {
        project_yaml: AUTO_SCOPE_PROJECT.to_string(),
        project_path: "project.yaml".to_string(),
        ..CircuitCiApp::default()
    };

    assert!(app.prepare_auto_scope_probes_for_run().unwrap());

    assert!(app.project_yaml_dirty);
    assert_eq!(
        app.pending_scope_probe,
        Some(ScopeProbeTarget {
            scenario_name: "astable".to_string(),
            probe_name: "v_out".to_string(),
        })
    );
    let choices = analog_scenario_choices(&app.project_yaml).unwrap();
    assert_eq!(choices[0].probes.len(), 5);
}

#[test]
fn auto_scope_before_run_can_be_disabled() {
    let mut app = CircuitCiApp {
        project_yaml: AUTO_SCOPE_PROJECT.to_string(),
        project_path: "project.yaml".to_string(),
        scope_auto_probes_before_run: false,
        ..CircuitCiApp::default()
    };

    assert!(!app.prepare_auto_scope_probes_for_run().unwrap());

    assert!(!app.project_yaml_dirty);
    assert_eq!(app.pending_scope_probe, None);
    assert_eq!(app.project_yaml, AUTO_SCOPE_PROJECT);
}

fn project_with_nets(count: usize) -> String {
    let mut nets = String::from("    gnd: {kind: ground}\n");
    let mut bindings = String::from("        - {node: '0', net: gnd}\n");
    for i in 1..=count {
        nets.push_str(&format!("    n{i}: {{kind: digital_or_analog}}\n"));
        bindings.push_str(&format!("        - {{node: n{i}, net: n{i}}}\n"));
    }
    format!(
        "project:\n  name: limit\nboard:\n  components: {{}}\n  nets:\n{nets}scenarios:\n  - name: tran\n    type: analog\n    analog:\n      node_bindings:\n{bindings}      probes: []\n"
    )
}

#[test]
fn exactly_eight_missing_voltages_are_added_in_one_pass() {
    let project = project_with_nets(8);
    let first = auto_scope_probe_project_yaml(&project).unwrap();
    assert_eq!((first.added_voltage, first.added_current), (8, 0));
    let second = auto_scope_probe_project_yaml(&first.updated_yaml).unwrap();
    assert_eq!((second.added_voltage, second.added_current), (0, 0));
    assert!(second.first_target.is_none());
    assert_eq!(second.updated_yaml, first.updated_yaml);
}

#[test]
fn a_ninth_missing_voltage_waits_for_the_next_pass() {
    let project = project_with_nets(9);
    let first = auto_scope_probe_project_yaml(&project).unwrap();
    assert_eq!(first.added_voltage, 8);
    let second = auto_scope_probe_project_yaml(&first.updated_yaml).unwrap();
    assert_eq!(second.added_voltage, 1);
}
