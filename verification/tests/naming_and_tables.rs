use circuit_ci_gui::board::SketchPinSide;
use circuit_ci_gui::canvas::{
    NetKind, SketchNetLabelKind, SketchSelectionBoxMode, net_kind_label, next_pin_side,
    normalize_canvas_rotation,
};
use circuit_ci_gui::metrics::{
    ReflectionRole, default_dc_sweep_assertion_name, default_distortion_assertion_name,
    default_fourier_assertion_name, default_fourier_harmonic, default_fourier_relation,
    default_measure_assertion_name, default_pole_zero_assertion_name,
    default_sparameter_aggregation, default_sparameter_noise_assertion_name,
    default_sparameter_parameter, default_sparameter_relation, fourier_metric_options,
    pole_zero_metric_options, sensitivity_filters_from_text, sparameter_noise_threshold_suffix,
};
use circuit_ci_gui::naming::{
    decimal_string, first_free_name, nonblank_id, normalized_expression, sanitize_probe_id,
    strip_char, suffixed_string, unique_auto_probe_name, unique_id,
};
use circuit_ci_gui::order::{insert_sorted, str_lt};
use circuit_ci_gui::probes::{AnalogQuantity, normalized_probe_expression};

fn owned(names: &[&str]) -> Vec<String> {
    names.iter().map(|n| n.to_string()).collect()
}

#[test]
fn decimal_and_suffixed_names() {
    assert_eq!(decimal_string(0), "0");
    assert_eq!(decimal_string(1207), "1207");
    assert_eq!(suffixed_string("probe", 12), "probe_12");
}

#[test]
fn first_free_name_skips_taken_suffixes() {
    assert_eq!(first_free_name("v_out", &owned(&["a"])), "v_out");
    assert_eq!(first_free_name("v_out", &owned(&["v_out", "v_out_2"])), "v_out_3");
    let taken = owned(&["n", "n_2", "n_4"]);
    let free = first_free_name("n", &taken);
    assert_eq!(free, "n_3");
    assert!(!taken.contains(&free));
}

#[test]
fn unique_ids_trim_and_fall_back() {
    assert_eq!(nonblank_id("  tran ", "gui_transient"), "tran");
    assert_eq!(nonblank_id("   ", "gui_transient"), "gui_transient");
    assert_eq!(unique_id(" ", "gui_transient", &owned(&["gui_transient"])), "gui_transient_2");
}

#[test]
fn probe_ids_are_sanitized() {
    assert_eq!(sanitize_probe_id("U1.VOUT+"), "U1_VOUT");
    assert_eq!(sanitize_probe_id("__a--b__"), "a_b");
    assert_eq!(sanitize_probe_id("+++"), "");
    assert_eq!(strip_char("xxabcxx", 'x'), "abc");
}

#[test]
fn auto_probe_names_are_recorded_and_unique() {
    let mut existing = owned(&["v_out"]);
    let first = unique_auto_probe_name("v", "out", &mut existing);
    assert_eq!(first, "v_out_2");
    let second = unique_auto_probe_name("v", "out", &mut existing);
    assert_eq!(second, "v_out_3");
    let blank = unique_auto_probe_name("i", "***", &mut existing);
    assert_eq!(blank, "i_probe");
    assert_eq!(existing, owned(&["v_out", "v_out_2", "v_out_3", "i_probe"]));
}

#[test]
fn expressions_compare_without_space_or_case() {
    assert_eq!(normalized_expression(" V( OUT ) ", "voltage"), "voltage:v(out)");
    assert_eq!(
        normalized_probe_expression("I(V1)", AnalogQuantity::Current),
        normalized_probe_expression("i( v1 )", AnalogQuantity::Current)
    );
    assert_ne!(
        normalized_probe_expression("V(out)", AnalogQuantity::Voltage),
        normalized_probe_expression("V(out)", AnalogQuantity::Power)
    );
}

#[test]
fn names_order_by_characters() {
    assert!(str_lt("abc", "abd"));
    assert!(str_lt("ab", "abc"));
    assert!(!str_lt("b", "a"));
    assert!(!str_lt("a", "a"));
    let mut v = owned(&["a", "c"]);
    insert_sorted(&mut v, "b".to_string());
    insert_sorted(&mut v, "b".to_string());
    assert_eq!(v, owned(&["a", "b", "c"]));
}

#[test]
fn fourier_tables() {
    assert_eq!(default_fourier_assertion_name("magnitude"), "h1_magnitude_floor");
    assert_eq!(default_fourier_assertion_name("normalized_magnitude"), "h2_ratio_ceiling");
    assert_eq!(default_fourier_relation("magnitude"), "above");
    assert_eq!(default_fourier_relation("phase_deg"), "below");
    assert_eq!(default_fourier_harmonic("phase_deg"), 1);
    assert_eq!(default_fourier_harmonic("thd_percent"), 2);
    let keys: Vec<&str> = fourier_metric_options().iter().map(|o| o.0).collect();
    assert_eq!(keys, vec!["normalized_magnitude", "magnitude", "phase_deg", "normalized_phase_deg", "thd_percent"]);
    assert_eq!(pole_zero_metric_options().len(), 3);
    assert_eq!(default_pole_zero_assertion_name("real_rad_per_s"), "stable_pole_real_ceiling");
}

#[test]
fn sparameter_tables() {
    assert_eq!(default_sparameter_parameter("vswr"), "s11");
    assert_eq!(default_sparameter_parameter("group_delay_s"), "s21");
    assert_eq!(default_sparameter_aggregation("return_loss_db"), "min");
    assert_eq!(default_sparameter_relation("return_loss_db"), "above");
    assert_eq!(default_sparameter_relation("vswr"), "below");
}

#[test]
fn sparameter_noise_name_and_suffix_follow_the_metric() {
    assert_eq!(
        default_sparameter_noise_assertion_name("minimum_noise_figure_db_max"),
        "rf_min_noise_figure_ceiling"
    );
    assert_eq!(sparameter_noise_threshold_suffix("equivalent_noise_resistance_ohm_max"), " ohm");
}

#[test]
fn reflection_rows_follow_the_network_metric() {
    assert!(ReflectionRole::Source.required_for_metric("transducer_gain_db_min"));
    assert!(ReflectionRole::Source.required_for_metric("available_gain_db_min"));
    assert!(!ReflectionRole::Source.required_for_metric("operating_gain_db_min"));
    assert!(ReflectionRole::Load.required_for_metric("operating_gain_db_min"));
    assert_eq!(ReflectionRole::Load.label(), "Load gamma");
}

#[test]
fn check_names_built_from_their_subject() {
    assert_eq!(default_measure_assertion_name("  avg_out "), "avg_out_below_limit");
    assert_eq!(default_measure_assertion_name(" "), "measure_below_limit");
    assert_eq!(default_distortion_assertion_name(""), "distortion_below_limit");
    assert_eq!(default_dc_sweep_assertion_name(" vout ", "max", "below"), "vout_max_below_limit");
    assert_eq!(default_dc_sweep_assertion_name("", "min", "above"), "probe_min_above_limit");
}

#[test]
fn sensitivity_filters_split_on_commas() {
    assert_eq!(sensitivity_filters_from_text(" R1, ,C2 ,"), owned(&["R1", "C2"]));
    assert!(sensitivity_filters_from_text("  ").is_empty());
}

#[test]
fn canvas_labels_and_cycles() {
    assert_eq!(SketchNetLabelKind::OffPage.as_str(), "off_page");
    assert_eq!(SketchNetLabelKind::Local.label(), "Net Label");
    assert_eq!(SketchSelectionBoxMode::Subtract.label(), "Subtract");
    assert_eq!(net_kind_label(&NetKind::DigitalOrAnalog), "digital_or_analog");
    assert_eq!(normalize_canvas_rotation(-180), 180);
    assert!(matches!(next_pin_side(SketchPinSide::Auto), SketchPinSide::Right));
    assert!(matches!(next_pin_side(SketchPinSide::Right), SketchPinSide::Left));
    assert!(matches!(next_pin_side(SketchPinSide::Left), SketchPinSide::Auto));
}

#[test]
fn marquee_mode_follows_the_held_modifiers() {
    let mode = |alt, command, ctrl, shift| SketchSelectionBoxMode::from_modifiers(alt, command, ctrl, shift);
    assert!(matches!(mode(true, true, true, true), Some(SketchSelectionBoxMode::Subtract)));
    assert!(matches!(mode(false, true, false, true), Some(SketchSelectionBoxMode::Add)));
    assert!(matches!(mode(false, false, true, false), Some(SketchSelectionBoxMode::Add)));
    assert!(matches!(mode(false, false, false, true), Some(SketchSelectionBoxMode::Replace)));
    assert!(mode(false, false, false, false).is_none());
}
