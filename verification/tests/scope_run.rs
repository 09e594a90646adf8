use circuit_ci_gui::analog::analog_scenario_choices;
use circuit_ci_gui::scope_run::{ScopeRunPreparation, prepare_scope_run_yaml};

const BASE_PROJECT: &str = "project:
  name: scope_run_auto_probe_test
  version: 0.1.0
board:
  components:
    V1:
      model: generic.analog.voltage_source
      spice:
        primitive: dc_voltage_source
        dc_voltage_v: 5.0
      pins:
        P: rail_5v
        N: gnd
    R1:
      model: generic.analog.resistor
      spice:
        primitive: resistor
        value_ohm: 1000.0
      pins:
        A: rail_5v
        B: out
    C1:
      model: generic.analog.capacitor
      spice:
        primitive: capacitor
        value_f: 0.000001
      pins:
        A: out
        B: gnd
  nets:
    gnd: {kind: ground}
    out: {kind: digital_or_analog}
    rail_5v: {kind: power, nominal_voltage: 5.0, powered: true}
scenarios: []
";

#[test]
fn scope_run_preparation_adds_generated_scenario_and_probe() {
    let (updated, preparation) =
        prepare_scope_run_yaml(BASE_PROJECT, "gui_transient", "probe_voltage", "100.0", "1.0")
            .unwrap()
            .unwrap();

    assert_eq!(
        preparation,
        ScopeRunPreparation::AddedScenario {
            scenario_name: "gui_transient".to_string(),
            probe_name: "probe_voltage".to_string(),
            net_id: "out".to_string(),
        }
    );
    let choices = analog_scenario_choices(&updated).unwrap();
    assert_eq!(choices.len(), 1);
    assert_eq!(choices[0].name, "gui_transient");
    assert_eq!(choices[0].probes[0].name, "probe_voltage");
}

#[test]
fn scope_run_preparation_adds_probe_to_existing_empty_analog_scenario() {
    let project = BASE_PROJECT.replace(
        "scenarios: []",
        "scenarios:
  - name: existing_transient
    type: analog
    analog:
      backend: auto
      netlist_source: generated_from_board
      generated: {components: [V1, R1, C1], ground_net: gnd}
      model_files: []
      node_bindings:
        - {node: '0', net: gnd}
        - {node: out, net: out}
        - {node: rail_5v, net: rail_5v}
      pin_bindings:
        - {node: rail_5v, endpoint: {component: V1, pin: P}}
        - {node: '0', endpoint: {component: V1, pin: N}}
        - {node: rail_5v, endpoint: {component: R1, pin: A}}
        - {node: out, endpoint: {component: R1, pin: B}}
        - {node: out, endpoint: {component: C1, pin: A}}
        - {node: '0', endpoint: {component: C1, pin: B}}
      analysis: {type: tran, stop_time_us: 100.0, max_step_us: 1.0}
      stimuli: []
      probes: []
      assertions: []
",
    );
    let (updated, preparation) =
        prepare_scope_run_yaml(&project, "gui_transient", "probe_voltage", "100.0", "1.0")
            .unwrap()
            .unwrap();

    assert_eq!(
        preparation,
        ScopeRunPreparation::AddedProbe {
            scenario_name: "existing_transient".to_string(),
            probe_name: "probe_voltage".to_string(),
            net_id: "out".to_string(),
        }
    );
    let choices = analog_scenario_choices(&updated).unwrap();
    assert_eq!(choices[0].probes[0].name, "probe_voltage");
}

#[test]
fn scope_run_preparation_keeps_existing_scope_probe() {
    let project = BASE_PROJECT.replace(
        "scenarios: []",
        "scenarios:
  - name: existing_transient
    type: analog
    analog:
      backend: auto
      netlist_source: generated_from_board
      generated: {components: [V1, R1, C1], ground_net: gnd}
      model_files: []
      node_bindings:
        - {node: '0', net: gnd}
        - {node: out, net: out}
      pin_bindings: []
      analysis: {type: tran, stop_time_us: 100.0, max_step_us: 1.0}
      stimuli: []
      probes:
        - {name: out_voltage, expression: V(out), quantity: voltage}
      assertions: []
",
    );

    assert!(
        prepare_scope_run_yaml(&project, "gui_transient", "probe_voltage", "100.0", "1.0")
            .unwrap()
            .is_none()
    );
}
