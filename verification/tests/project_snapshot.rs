use circuit_ci_gui::board::{EditError, SketchPinSide};
use circuit_ci_gui::snapshot::{
    find_net_bundle, initialize_analog_net_defaults, initialize_noise_source_default,
    initialize_sensitivity_filters_default, is_noise_source_spice,
    load_project_snapshot_from_yaml, parse_i32_text,
};

const PROJECT: &str = "project:
  name: snapshot_test
board:
  components:
    V1:
      model: generic.analog.voltage_source
      spice: {primitive: dc_voltage_source}
      pins: {P: vin, N: gnd}
    R2:
      model: generic.analog.resistor
      part_number: RC0603
      spice: {primitive: resistor}
      pins: {A: vin, B: out}
    C1:
      model: generic.analog.capacitor
      spice: {primitive: capacitor}
      pins: {A: out, B: gnd}
  nets:
    vin: {kind: power, powered: true}
    out: {kind: digital_or_analog}
    gnd: {kind: ground}
  schematic:
    node_styles:
      component:R2: {rotation_deg: -90, mirrored: true, pin_side: left}
scenarios:
  - name: tran
  - name: ac
";

#[test]
fn snapshot_lists_components_nets_and_counts() {
    let snapshot = load_project_snapshot_from_yaml(PROJECT).unwrap();
    assert_eq!(snapshot.name, "snapshot_test");
    assert_eq!((snapshot.components, snapshot.nets, snapshot.scenarios), (3, 3, 2));
    let ids: Vec<&str> = snapshot.components_detail.iter().map(|c| c.id.as_str()).collect();
    assert_eq!(ids, vec!["C1", "R2", "V1"]);
    let r2 = &snapshot.components_detail[1];
    assert_eq!(r2.model, "generic.analog.resistor");
    assert_eq!(r2.part_number.as_deref(), Some("RC0603"));
    assert_eq!(r2.spice_primitive.as_deref(), Some("resistor"));
    let pins: Vec<(&str, &str)> = r2.pins.iter().map(|p| (p.pin.as_str(), p.net.as_str())).collect();
    assert_eq!(pins, vec![("A", "vin"), ("B", "out")]);
    assert_eq!(r2.style.rotation_deg, 270);
    assert!(r2.style.mirrored);
    assert!(matches!(r2.style.pin_side, SketchPinSide::Left));
    let v1 = &snapshot.components_detail[2];
    let v1_pins: Vec<&str> = v1.pins.iter().map(|p| p.pin.as_str()).collect();
    assert_eq!(v1_pins, vec!["N", "P"]);
    assert_eq!(v1.style.rotation_deg, 0);
    assert!(matches!(v1.style.pin_side, SketchPinSide::Auto));
}

#[test]
fn snapshot_nets_carry_their_connections() {
    let snapshot = load_project_snapshot_from_yaml(PROJECT).unwrap();
    let ids: Vec<&str> = snapshot.nets_detail.iter().map(|n| n.id.as_str()).collect();
    assert_eq!(ids, vec!["gnd", "out", "vin"]);
    let vin = &snapshot.nets_detail[2];
    assert_eq!(vin.kind, "power");
    assert_eq!(vin.powered, Some(true));
    assert_eq!(vin.connections, vec!["R2.A".to_string(), "V1.P".to_string()]);
    let gnd = &snapshot.nets_detail[0];
    assert_eq!(gnd.powered, None);
    assert_eq!(gnd.connections, vec!["C1.B".to_string(), "V1.N".to_string()]);
}

#[test]
fn snapshot_refuses_text_without_a_board() {
    assert!(matches!(load_project_snapshot_from_yaml("project: {}\n"), Err(EditError::InvalidBoardIr)));
    assert!(matches!(load_project_snapshot_from_yaml("board: ["), Err(EditError::InvalidBoardIr)));
}

#[test]
fn net_defaults_pick_ground_and_first_other_net_by_name() {
    let snapshot = load_project_snapshot_from_yaml(PROJECT).unwrap();
    let mut ground = String::new();
    let mut probe = String::new();
    initialize_analog_net_defaults(&snapshot, &mut ground, &mut probe);
    assert_eq!(ground, "gnd");
    assert_eq!(probe, "out");
    let mut kept_ground = "vin".to_string();
    let mut kept_probe = "gnd".to_string();
    initialize_analog_net_defaults(&snapshot, &mut kept_ground, &mut kept_probe);
    assert_eq!((kept_ground.as_str(), kept_probe.as_str()), ("vin", "gnd"));
}

#[test]
fn noise_source_defaults_to_a_source_component() {
    let snapshot = load_project_snapshot_from_yaml(PROJECT).unwrap();
    let mut selected = "missing".to_string();
    initialize_noise_source_default(&snapshot, &mut selected);
    assert_eq!(selected, "V1");
    let mut kept = "C1".to_string();
    initialize_noise_source_default(&snapshot, &mut kept);
    assert_eq!(kept, "C1");
    assert!(is_noise_source_spice("pulse_current_source"));
    assert!(!is_noise_source_spice("resistor"));
}

#[test]
fn sensitivity_filters_default_to_passives_by_name() {
    let snapshot = load_project_snapshot_from_yaml(PROJECT).unwrap();
    let mut filters = "  ".to_string();
    initialize_sensitivity_filters_default(&snapshot, &mut filters);
    assert_eq!(filters, "C1, R2");
    let mut kept = "R9".to_string();
    initialize_sensitivity_filters_default(&snapshot, &mut kept);
    assert_eq!(kept, "R9");
}

#[test]
fn whole_numbers_are_read_within_i32() {
    assert_eq!(parse_i32_text("90"), Some(90));
    assert_eq!(parse_i32_text("-2147483648"), Some(i32::MIN));
    assert_eq!(parse_i32_text("2147483648"), None);
    assert_eq!(parse_i32_text("-"), None);
    assert_eq!(parse_i32_text("9.5"), None);
    assert_eq!(parse_i32_text(""), None);
}

#[test]
fn net_bundles_are_found_by_label() {
    let project = "board:
  components: {}
  nets:
    data[0]: {kind: digital_or_analog}
    data[1]: {kind: digital_or_analog}
    gnd: {kind: ground}
";
    let snapshot = load_project_snapshot_from_yaml(project).unwrap();
    let bundle = find_net_bundle(&snapshot, "data[]").unwrap();
    assert_eq!(bundle.label, "data[]");
    assert_eq!(bundle.members, vec!["data[0]".to_string(), "data[1]".to_string()]);
    assert!(find_net_bundle(&snapshot, "gnd").is_none());
}

const LABELLED: &str = "project:
  name: labels
libraries:
  - kicad
  - 7
  - spice_models
board:
  components:
    R1:
      model: generic.analog.resistor
      pins: {A: vin}
      source:
        instances:
          - {path: /sheet/R1}
          - {reference: R1}
          - {path: /sheet2/R1}
    C1:
      model: generic.analog.capacitor
  nets:
    vin: {kind: power}
  schematic:
    node_positions:
      component:R1: {x: 40, y: 80.25}
      net:vin: {x: -8, y: 16}
    component_symbols:
      R1: Device:R
    net_labels:
      lbl_b: {net: vin, kind: off_page, x: 10.5, y: -2}
      lbl_a: {net: vin, kind: local, x: 1, y: 2}
      lbl_gone: {net: missing, kind: local, x: 0, y: 0}
    component_labels:
      R1: {reference: {x: 3, y: 4}}
      X9: {reference: {x: 5, y: 6}}
    wire_routes:
      R1.A->vin:
        points:
          - {x: 1, y: 2}
          - {x: 3.5, y: 2}
scenarios: []
";

#[test]
fn snapshot_keeps_labels_of_items_on_the_board() {
    let snapshot = load_project_snapshot_from_yaml(LABELLED).unwrap();
    let labels: Vec<(&str, &str, &str)> = snapshot
        .net_labels
        .iter()
        .map(|l| (l.id.as_str(), l.net_id.as_str(), l.kind.as_str()))
        .collect();
    assert_eq!(labels, vec![("lbl_a", "vin", "local"), ("lbl_b", "vin", "off_page")]);
    assert_eq!(
        snapshot.net_labels[1].position,
        Some(("10.5".to_string(), "-2".to_string()))
    );
    assert_eq!(snapshot.component_labels.len(), 1);
    assert_eq!(snapshot.component_labels[0].component_id, "R1");
    assert_eq!(
        snapshot.component_labels[0].reference,
        Some(("3".to_string(), "4".to_string()))
    );
    assert_eq!(snapshot.component_labels[0].value, None);
}

#[test]
fn snapshot_keeps_routes_libraries_symbols_and_sources() {
    let snapshot = load_project_snapshot_from_yaml(LABELLED).unwrap();
    assert_eq!(snapshot.libraries, vec!["kicad".to_string(), "spice_models".to_string()]);
    assert_eq!(snapshot.wire_routes.len(), 1);
    assert_eq!(snapshot.wire_routes[0].key, "R1.A->vin");
    assert_eq!(
        snapshot.wire_routes[0].points,
        vec![("1".to_string(), "2".to_string()), ("3.5".to_string(), "2".to_string())]
    );
    let r1 = &snapshot.components_detail[1];
    assert_eq!(r1.id, "R1");
    assert_eq!(r1.kicad_symbol_id.as_deref(), Some("Device:R"));
    assert_eq!(r1.source_paths, vec!["/sheet/R1".to_string(), "/sheet2/R1".to_string()]);
    assert_eq!(r1.position, Some(("40".to_string(), "80.25".to_string())));
    assert_eq!(snapshot.nets_detail[0].position, Some(("-8".to_string(), "16".to_string())));
    let c1 = &snapshot.components_detail[0];
    assert_eq!(c1.position, None);
    assert_eq!(c1.kicad_symbol_id, None);
    assert!(c1.source_paths.is_empty());
}
