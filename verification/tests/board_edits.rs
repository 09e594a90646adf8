use circuit_ci_gui::board::{
    EditError, IdRole, ItemKind, SketchNodeStyle, SketchPinSide, add_component,
    add_component_with_ports, add_net, assign_component_pin, connect_component_pins,
    default_net_kind_for_port, edit_component_model, edit_component_part_number,
    edit_net_kind, edit_net_nominal_voltage, edit_net_powered, edit_schematic_component_style,
    edit_schematic_component_styles, generated_net_base, generated_wire_net_base,
    normalize_rotation_deg, normalized_net_kind, parse_wire_source, remove_component,
    remove_component_pin, remove_net, remove_schematic_wire_route, validated_graph_id,
    wire_route_key, encode_project, parse_project,
};
use circuit_ci_gui::doc::YamlNode;
use circuit_ci_gui::layout::{
    edit_schematic_node_position, edit_schematic_node_positions, edit_schematic_wire_route,
    edit_schematic_wire_routes,
};
use circuit_ci_gui::selection::SketchSelection;
use serde_yaml_ng::Value;

const PROJECT: &str = "project:
  name: board_edit_test
board:
  components:
    R1:
      model: generic.analog.resistor
      pins:
        A: vin
        B: out
    C1:
      model: generic.analog.capacitor
      pins:
        A: out
  nets:
    vin: {kind: power}
    out: {kind: digital_or_analog}
    spare: {kind: digital_or_analog}
  schematic:
    wire_routes:
      R1.B->out: {points: []}
scenarios: []
";

fn parse(text: &str) -> Value {
    serde_yaml_ng::from_str(text).unwrap()
}

fn board(text: &str) -> Value {
    parse(text)["board"].clone()
}

#[test]
fn add_net_writes_kind_and_keeps_other_nets() {
    let updated = add_net(PROJECT, " new_net ", "ground").unwrap();
    let b = board(&updated);
    assert_eq!(b["nets"]["new_net"]["kind"], Value::from("ground"));
    assert_eq!(b["nets"]["vin"]["kind"], Value::from("power"));
    assert_eq!(b["components"]["R1"]["pins"]["A"], Value::from("vin"));
}

#[test]
fn add_net_refuses_duplicates_blank_and_unsupported_ids() {
    assert!(matches!(
        add_net(PROJECT, "out", "power"),
        Err(EditError::AlreadyExists(ItemKind::Net, ref id)) if id == "out"
    ));
    assert!(matches!(add_net(PROJECT, "   ", "power"), Err(EditError::BlankId(IdRole::Net))));
    assert!(matches!(
        add_net(PROJECT, "bad id", "power"),
        Err(EditError::UnsupportedId(IdRole::Net, ref id)) if id == "bad id"
    ));
    assert!(matches!(
        add_net(PROJECT, "fresh", "analog"),
        Err(EditError::UnsupportedNetKind(ref k)) if k == "analog"
    ));
}

#[test]
fn add_net_creates_missing_nets_table() {
    let text = "board:\n  components: {}\n";
    let updated = add_net(text, "n1", "power").unwrap();
    assert_eq!(board(&updated)["nets"]["n1"]["kind"], Value::from("power"));
}

#[test]
fn edits_refuse_documents_without_a_board() {
    assert!(matches!(add_net("- a\n- b\n", "n1", "power"), Err(EditError::ProjectNotObject)));
    assert!(matches!(add_net("project: {}\n", "n1", "power"), Err(EditError::MissingBoard)));
    assert!(matches!(add_net("board: 3\n", "n1", "power"), Err(EditError::BoardNotObject)));
    assert!(matches!(add_net("board: [\n", "n1", "power"), Err(EditError::InvalidYaml)));
}

#[test]
fn add_component_trims_model_and_refuses_blank_model() {
    let updated = add_component(PROJECT, "U1", "  generic.opamp  ").unwrap();
    assert_eq!(board(&updated)["components"]["U1"]["model"], Value::from("generic.opamp"));
    assert!(matches!(add_component(PROJECT, "U1", "   "), Err(EditError::BlankModel)));
    assert!(matches!(
        add_component(PROJECT, "R1", "x"),
        Err(EditError::AlreadyExists(ItemKind::Component, ref id)) if id == "R1"
    ));
}

#[test]
fn adding_then_removing_a_component_gives_back_the_board() {
    let added = add_component(PROJECT, "U7", "generic.opamp").unwrap();
    let removed = remove_component(&added, "U7").unwrap();
    assert_eq!(board(&removed), board(PROJECT));
}

#[test]
fn remove_component_reports_missing_component() {
    assert!(matches!(
        remove_component(PROJECT, "Q9"),
        Err(EditError::ItemNotFound(ItemKind::Component, ref id)) if id == "Q9"
    ));
}

#[test]
fn add_component_with_ports_creates_one_net_per_port() {
    let ports = vec![
        ("VCC".to_string(), "electrical_power".to_string()),
        ("GND".to_string(), "electrical_ground".to_string()),
        ("OUT".to_string(), "signal".to_string()),
    ];
    let updated = add_component_with_ports(PROJECT, "U2", "generic.regulator", &ports).unwrap();
    let b = board(&updated);
    assert_eq!(b["components"]["U2"]["pins"]["VCC"], Value::from("u2_vcc"));
    assert_eq!(b["components"]["U2"]["pins"]["GND"], Value::from("u2_gnd"));
    assert_eq!(b["nets"]["u2_vcc"]["kind"], Value::from("power"));
    assert_eq!(b["nets"]["u2_gnd"]["kind"], Value::from("ground"));
    assert_eq!(b["nets"]["u2_out"]["kind"], Value::from("digital_or_analog"));
}

#[test]
fn add_component_with_ports_skips_taken_net_names() {
    let text = add_net(PROJECT, "u3_a", "power").unwrap();
    let ports = vec![("A".to_string(), "signal".to_string())];
    let updated = add_component_with_ports(&text, "U3", "generic.part", &ports).unwrap();
    assert_eq!(board(&updated)["components"]["U3"]["pins"]["A"], Value::from("u3_a_2"));
}

#[test]
fn assigned_pin_reads_back_its_net() {
    let updated = assign_component_pin(PROJECT, "C1", "B", "spare").unwrap();
    assert_eq!(board(&updated)["components"]["C1"]["pins"]["B"], Value::from("spare"));
    assert!(matches!(
        assign_component_pin(PROJECT, "C1", "B", "nowhere"),
        Err(EditError::ItemNotFound(ItemKind::Net, ref id)) if id == "nowhere"
    ));
    assert!(matches!(
        assign_component_pin(PROJECT, "X1", "B", "spare"),
        Err(EditError::ItemNotFound(ItemKind::Component, ref id)) if id == "X1"
    ));
}

#[test]
fn remove_component_pin_removes_only_that_pin() {
    let updated = remove_component_pin(PROJECT, "R1", "B").unwrap();
    let b = board(&updated);
    assert_eq!(b["components"]["R1"]["pins"]["A"], Value::from("vin"));
    assert!(b["components"]["R1"]["pins"].get("B").is_none());
    assert!(matches!(
        remove_component_pin(PROJECT, "R1", "Z"),
        Err(EditError::PinNotFound(ref c, ref p)) if c == "R1" && p == "Z"
    ));
}

#[test]
fn connecting_pins_uses_an_existing_net_or_generates_one() {
    let joined = connect_component_pins(PROJECT, "R1", "B", "C1", "B").unwrap();
    assert_eq!(board(&joined)["components"]["C1"]["pins"]["B"], Value::from("out"));

    let text = add_component(PROJECT, "D1", "generic.diode").unwrap();
    let text = add_component(&text, "D2", "generic.diode").unwrap();
    let fresh = connect_component_pins(&text, "D1", "K", "D2", "A").unwrap();
    let b = board(&fresh);
    assert_eq!(b["components"]["D1"]["pins"]["K"], Value::from("net_d1_k"));
    assert_eq!(b["components"]["D2"]["pins"]["A"], Value::from("net_d1_k"));
    assert_eq!(b["nets"]["net_d1_k"]["kind"], Value::from("digital_or_analog"));

    assert!(matches!(
        connect_component_pins(PROJECT, "R1", "A", "R1", "A"),
        Err(EditError::SelfWire)
    ));
}

#[test]
fn remove_net_refuses_a_referenced_net() {
    match remove_net(PROJECT, "out") {
        Err(EditError::NetStillReferenced(net, refs)) => {
            assert_eq!(net, "out");
            assert_eq!(refs, vec!["C1.A".to_string(), "R1.B".to_string()]);
        }
        other => panic!("unexpected outcome {other:?}"),
    }
    let updated = remove_net(PROJECT, "spare").unwrap();
    assert!(board(&updated)["nets"].get("spare").is_none());
    assert!(matches!(
        remove_net(PROJECT, "ghost"),
        Err(EditError::ItemNotFound(ItemKind::Net, ref id)) if id == "ghost"
    ));
}

#[test]
fn net_fields_are_set_and_cleared() {
    let updated = edit_net_kind(PROJECT, "spare", "ground").unwrap();
    assert_eq!(board(&updated)["nets"]["spare"]["kind"], Value::from("ground"));
    let powered = edit_net_powered(PROJECT, "vin", Some(true)).unwrap();
    assert_eq!(board(&powered)["nets"]["vin"]["powered"], Value::from(true));
    let cleared = edit_net_powered(&powered, "vin", None).unwrap();
    assert!(board(&cleared)["nets"]["vin"].get("powered").is_none());
    assert!(matches!(edit_net_kind(PROJECT, "spare", "rf"), Err(EditError::UnsupportedNetKind(_))));
}

#[test]
fn component_fields_are_set_and_blank_part_number_clears() {
    let updated = edit_component_model(PROJECT, "R1", "generic.analog.resistor_0603").unwrap();
    assert_eq!(
        board(&updated)["components"]["R1"]["model"],
        Value::from("generic.analog.resistor_0603")
    );
    let numbered = edit_component_part_number(PROJECT, "R1", " RC0603 ").unwrap();
    assert_eq!(board(&numbered)["components"]["R1"]["part_number"], Value::from("RC0603"));
    let cleared = edit_component_part_number(&numbered, "R1", "  ").unwrap();
    assert!(board(&cleared)["components"]["R1"].get("part_number").is_none());
}

#[test]
fn schematic_style_is_written_under_the_component_key() {
    let style = SketchNodeStyle { rotation_deg: 90, mirrored: true, pin_side: SketchPinSide::Left };
    let updated = edit_schematic_component_style(PROJECT, "R1", style).unwrap();
    let node = board(&updated)["schematic"]["node_styles"]["component:R1"].clone();
    assert_eq!(node["rotation_deg"], Value::from(90));
    assert_eq!(node["mirrored"], Value::from(true));
    assert_eq!(node["pin_side"], Value::from("left"));
}

#[test]
fn schematic_styles_refuse_odd_rotations_and_unknown_components() {
    let tilted = SketchNodeStyle { rotation_deg: 45, mirrored: false, pin_side: SketchPinSide::Auto };
    assert!(matches!(
        edit_schematic_component_style(PROJECT, "R1", tilted),
        Err(EditError::UnsupportedRotation)
    ));
    let upright = SketchNodeStyle { rotation_deg: 0, mirrored: false, pin_side: SketchPinSide::Auto };
    assert!(matches!(
        edit_schematic_component_style(PROJECT, "Q1", upright),
        Err(EditError::ItemNotFound(ItemKind::Component, ref id)) if id == "Q1"
    ));
    assert_eq!(edit_schematic_component_styles(PROJECT, &Vec::new()).unwrap(), PROJECT);
}

#[test]
fn wire_routes_are_removed_only_for_a_matching_net() {
    let updated = remove_schematic_wire_route(PROJECT, "R1.B", "out").unwrap();
    assert!(board(&updated)["schematic"]["wire_routes"].get("R1.B->out").is_none());
    assert!(matches!(
        remove_schematic_wire_route(PROJECT, "R1B", "out"),
        Err(EditError::WireSourceFormat(ref s)) if s == "R1B"
    ));
    assert!(matches!(
        remove_schematic_wire_route(PROJECT, "R1.A", "out"),
        Err(EditError::PinOnOtherNet(ref s, ref on, ref asked)) if s == "R1.A" && on == "vin" && asked == "out"
    ));
    assert!(matches!(
        remove_schematic_wire_route(PROJECT, "C1.B", "out"),
        Err(EditError::PinNotConnected(ref s)) if s == "C1.B"
    ));
}

#[test]
fn graph_ids_and_generated_names() {
    assert_eq!(validated_graph_id("  R_1.a-b ", IdRole::Component).unwrap(), "R_1.a-b");
    assert!(matches!(validated_graph_id("R 1", IdRole::Pin), Err(EditError::UnsupportedId(IdRole::Pin, _))));
    assert_eq!(normalized_net_kind("power").unwrap(), "power");
    assert_eq!(generated_net_base("U1", "VCC"), "u1_vcc");
    assert_eq!(generated_wire_net_base("U1", "OUT"), "net_u1_out");
    assert_eq!(default_net_kind_for_port("electrical_power"), "power");
    assert_eq!(default_net_kind_for_port("electrical_ground"), "ground");
    assert_eq!(default_net_kind_for_port("other"), "digital_or_analog");
    assert_eq!(wire_route_key(" R1.A ", " out "), "R1.A->out");
    let (c, p) = parse_wire_source(" U1.OUT ").unwrap();
    assert_eq!((c.as_str(), p.as_str()), ("U1", "OUT"));
}

#[test]
fn rotations_normalize_to_quarter_turns() {
    assert_eq!(normalize_rotation_deg(0), 0);
    assert_eq!(normalize_rotation_deg(-90), 270);
    assert_eq!(normalize_rotation_deg(450), 90);
    assert_eq!(normalize_rotation_deg(359), 270);
    assert_eq!(normalize_rotation_deg(normalize_rotation_deg(-725)), normalize_rotation_deg(-725));
}

#[test]
fn adding_then_removing_a_net_gives_back_the_board() {
    let added = add_net(PROJECT, "spare_2", "power").unwrap();
    let removed = remove_net(&added, "spare_2").unwrap();
    assert_eq!(board(&removed), board(PROJECT));
}

#[test]
fn node_positions_are_written_under_schematic_keys() {
    let batch = vec![
        (SketchSelection::Component("R1".to_string()), "10.5".to_string(), "-4.0".to_string()),
        (SketchSelection::Net("out".to_string()), "0.0".to_string(), "32.0".to_string()),
    ];
    let updated = edit_schematic_node_positions(PROJECT, &batch).unwrap();
    let positions = board(&updated)["schematic"]["node_positions"].clone();
    assert_eq!(positions["component:R1"]["x"], Value::from(10.5));
    assert_eq!(positions["component:R1"]["y"], Value::from(-4.0));
    assert_eq!(positions["net:out"]["y"], Value::from(32.0));
    assert!(board(&updated)["schematic"]["wire_routes"].get("R1.B->out").is_some());
    assert!(matches!(
        edit_schematic_node_positions(PROJECT, &Vec::new()),
        Err(EditError::NoNodePositions)
    ));
    assert!(matches!(
        edit_schematic_node_position(PROJECT, SketchSelection::Overflow("+3".to_string()), "1".to_string(), "2".to_string()),
        Err(EditError::NodeNotPositionable)
    ));
}

#[test]
fn wire_routes_are_checked_and_written() {
    let points = vec![("1.0".to_string(), "2.0".to_string()), ("3.0".to_string(), "2.0".to_string())];
    let updated =
        edit_schematic_wire_route(PROJECT, " C1.A ".to_string(), "out".to_string(), points.clone()).unwrap();
    let route = board(&updated)["schematic"]["wire_routes"]["C1.A->out"].clone();
    assert_eq!(route["points"][1]["x"], Value::from(3.0));
    assert_eq!(route["points"][0]["y"], Value::from(2.0));
    assert!(matches!(
        edit_schematic_wire_route(PROJECT, "C1.A".to_string(), "out".to_string(), Vec::new()),
        Err(EditError::NoRoutePoints)
    ));
    assert!(matches!(
        edit_schematic_wire_route(PROJECT, "C1.A".to_string(), "vin".to_string(), points.clone()),
        Err(EditError::PinOnOtherNet(_, ref on, ref asked)) if on == "out" && asked == "vin"
    ));
    assert!(matches!(
        edit_schematic_wire_route(PROJECT, "C1.A".to_string(), "nowhere".to_string(), points),
        Err(EditError::ItemNotFound(ItemKind::Net, ref id)) if id == "nowhere"
    ));
    assert_eq!(edit_schematic_wire_routes(PROJECT, &Vec::new()).unwrap(), PROJECT);
}

#[test]
fn nominal_voltage_is_written_as_a_number_and_cleared() {
    let updated = edit_net_nominal_voltage(PROJECT, "vin", Some("5.0".to_string())).unwrap();
    assert_eq!(board(&updated)["nets"]["vin"]["nominal_voltage"], Value::from(5.0));
    let cleared = edit_net_nominal_voltage(&updated, "vin", None).unwrap();
    assert!(board(&cleared)["nets"]["vin"].get("nominal_voltage").is_none());
    assert!(matches!(
        edit_net_nominal_voltage(PROJECT, "ghost", None),
        Err(EditError::ItemNotFound(ItemKind::Net, ref id)) if id == "ghost"
    ));
}

#[test]
fn documents_with_an_empty_tag_are_refused_when_written() {
    let doc = YamlNode::Tagged(String::new(), Box::new(YamlNode::Null));
    assert!(matches!(encode_project(Ok(doc)), Err(EditError::EncodeFailed)));
    let tagged = parse_project("value: !Thing 3\n", false).unwrap();
    let text = encode_project(Ok(tagged)).unwrap();
    assert!(text.contains("!Thing"));
}

#[test]
fn coordinates_that_are_not_finite_are_refused_in_order() {
    let nan = ".nan".to_string();
    let batch = vec![(SketchSelection::Overflow("+3".to_string()), nan.clone(), "1".to_string())];
    assert!(matches!(
        edit_schematic_node_positions("not: [yaml", &batch),
        Err(EditError::NonFinitePosition)
    ));
    let inf_points = vec![("1".to_string(), "-.inf".to_string())];
    assert!(matches!(
        edit_schematic_wire_route("not: [yaml", "C1.A".to_string(), "out".to_string(), inf_points.clone()),
        Err(EditError::InvalidBoardIr)
    ));
    assert!(matches!(
        edit_schematic_wire_route(PROJECT, "C1".to_string(), "out".to_string(), inf_points.clone()),
        Err(EditError::WireSourceFormat(_))
    ));
    assert!(matches!(
        edit_schematic_wire_route(PROJECT, "C1.A".to_string(), "nowhere".to_string(), inf_points),
        Err(EditError::NonFiniteRoutePoint)
    ));
}
