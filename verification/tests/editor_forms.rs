use circuit_ci_gui::analog::{AnalogProbeChoice, AnalogScenarioChoice, analog_scenario_choices};
use circuit_ci_gui::forms::{
    AnalogStimulusChoice, initialize_analog_stimulus_defaults,
    AnalogBoardNet, AnalogGeneratedScenario, AnalogNodeBinding, initialize_generated_settings_defaults,
    DcSweepAssertionEditor, DistortionAssertionEditor, FourierAssertionEditor,
    MeasureAssertionEditor, PoleZeroAssertionEditor, SensitivityAssertionEditor,
    SparameterAssertionEditor, SparameterNetworkAssertionEditor, SparameterNoiseAssertionEditor,
    TransferFunctionAssertionEditor, initialize_analog_assertion_defaults,
    initialize_dc_sweep_assertion_defaults, initialize_sparameter_network_assertion_defaults, initialize_distortion_assertion_defaults,
    initialize_fourier_assertion_defaults, initialize_measure_assertion_defaults,
    initialize_pole_zero_assertion_defaults, initialize_sensitivity_assertion_defaults,
    initialize_sparameter_assertion_defaults, initialize_sparameter_noise_assertion_defaults,
    initialize_transfer_function_assertion_defaults,
};

fn choice(name: &str, probes: &[&str]) -> AnalogScenarioChoice {
    AnalogScenarioChoice {
        name: name.to_string(),
        scenario_type: "analog".to_string(),
        probes: probes
            .iter()
            .map(|p| AnalogProbeChoice { name: p.to_string() })
            .collect(),
    }
}

fn fourier(scenario: &str, metric: &str, relation: &str, name: &str, harmonic: u32) -> FourierAssertionEditor {
    FourierAssertionEditor {
        scenario: scenario.to_string(),
        metric: metric.to_string(),
        relation: relation.to_string(),
        name: name.to_string(),
        harmonic,
    }
}

#[test]
fn fourier_defaults_fill_blank_editor_from_first_setup() {
    let choices = vec![choice("fft_a", &[]), choice("fft_b", &[])];
    let mut editor = fourier("", "", "", " ", 5000);
    initialize_fourier_assertion_defaults(&choices, &mut editor);
    assert_eq!(editor.scenario, "fft_a");
    assert_eq!(editor.metric, "normalized_magnitude");
    assert_eq!(editor.relation, "below");
    assert_eq!(editor.name, "h2_ratio_ceiling");
    assert_eq!(editor.harmonic, 2);
}

#[test]
fn fourier_defaults_keep_valid_choices() {
    let choices = vec![choice("fft_a", &[]), choice("fft_b", &[])];
    let mut editor = fourier("fft_b", "magnitude", "above", "mine", 3);
    initialize_fourier_assertion_defaults(&choices, &mut editor);
    assert_eq!(editor.scenario, "fft_b");
    assert_eq!(editor.metric, "magnitude");
    assert_eq!(editor.relation, "above");
    assert_eq!(editor.name, "mine");
    assert_eq!(editor.harmonic, 3);
}

#[test]
fn fourier_defaults_applied_twice_change_nothing() {
    let choices = vec![choice("fft_a", &[])];
    let mut editor = fourier("gone", "unknown", "sideways", "", 9999);
    initialize_fourier_assertion_defaults(&choices, &mut editor);
    let once = (
        editor.scenario.clone(),
        editor.metric.clone(),
        editor.relation.clone(),
        editor.name.clone(),
        editor.harmonic,
    );
    initialize_fourier_assertion_defaults(&choices, &mut editor);
    assert_eq!(
        (editor.scenario.clone(), editor.metric.clone(), editor.relation.clone(), editor.name.clone(), editor.harmonic),
        once
    );
}

#[test]
fn fourier_preset_sets_metric_harmonic_name_and_relation() {
    let mut editor = fourier("fft_a", "thd_percent", "below", "x", 7);
    editor.apply_fourier_preset("magnitude");
    assert_eq!(editor.scenario, "fft_a");
    assert_eq!(editor.metric, "magnitude");
    assert_eq!(editor.harmonic, 1);
    assert_eq!(editor.name, "h1_magnitude_floor");
    assert_eq!(editor.relation, "above");
    editor.apply_fourier_preset("thd_percent");
    assert_eq!(editor.name, "thd_ceiling");
    assert_eq!(editor.relation, "below");
    assert_eq!(editor.harmonic, 2);
}

#[test]
fn pole_zero_defaults_and_preset() {
    let choices = vec![choice("pz", &[])];
    let mut editor = PoleZeroAssertionEditor {
        scenario: String::new(),
        root_kind: "both".to_string(),
        root_index_enabled: false,
        root_index: 0,
        metric: "frequency_hz".to_string(),
        relation: String::new(),
        name: String::new(),
    };
    initialize_pole_zero_assertion_defaults(&choices, &mut editor);
    assert_eq!(editor.scenario, "pz");
    assert_eq!(editor.root_kind, "pole");
    assert_eq!(editor.root_index, 1);
    assert!(!editor.root_index_enabled);
    assert_eq!(editor.metric, "frequency_hz");
    assert_eq!(editor.name, "root_frequency_ceiling");

    editor.apply_pole_zero_preset("zero", "imaginary_rad_per_s");
    assert_eq!(editor.root_kind, "zero");
    assert_eq!(editor.metric, "imaginary_rad_per_s");
    assert!(editor.root_index_enabled);
    assert_eq!(editor.root_index, 1);
    assert_eq!(editor.name, "root_imaginary_ceiling");
}

#[test]
fn sensitivity_defaults_and_preset() {
    let choices = vec![choice("sens", &[])];
    let mut editor = SensitivityAssertionEditor {
        scenario: "missing".to_string(),
        parameter: "  ".to_string(),
        metric: "nonsense".to_string(),
        relation: "above".to_string(),
        name: String::new(),
    };
    initialize_sensitivity_assertion_defaults(&choices, &mut editor);
    assert_eq!(editor.scenario, "sens");
    assert_eq!(editor.parameter, "R1");
    assert_eq!(editor.metric, "sensitivity_magnitude");
    assert_eq!(editor.relation, "above");
    assert_eq!(editor.name, "sensitivity_magnitude_ceiling");

    editor.apply_sensitivity_preset("sensitivity_real");
    assert_eq!(editor.metric, "sensitivity_real");
    assert_eq!(editor.name, "sensitivity_real_ceiling");
    assert_eq!(editor.relation, "below");
    assert_eq!(editor.parameter, "R1");
}

#[test]
fn sparameter_defaults_and_preset() {
    let choices = vec![choice("sp", &[])];
    let mut editor = SparameterAssertionEditor {
        scenario: String::new(),
        metric: String::new(),
        name: String::new(),
        parameter: String::new(),
        aggregation: "median".to_string(),
        relation: String::new(),
    };
    initialize_sparameter_assertion_defaults(&choices, &mut editor);
    assert_eq!(editor.metric, "return_loss_db");
    assert_eq!(editor.name, "s11_return_loss_floor");
    assert_eq!(editor.parameter, "s11");
    assert_eq!(editor.aggregation, "min");
    assert_eq!(editor.relation, "above");

    editor.apply_sparameter_preset("insertion_loss_db");
    assert_eq!(editor.name, "s21_insertion_loss_ceiling");
    assert_eq!(editor.parameter, "s21");
    assert_eq!(editor.aggregation, "max");
    assert_eq!(editor.relation, "below");
}

#[test]
fn sparameter_noise_and_transfer_function_presets() {
    let choices = vec![choice("rf", &[])];
    let mut noise = SparameterNoiseAssertionEditor {
        scenario: String::new(),
        metric: String::new(),
        relation: String::new(),
        name: String::new(),
    };
    initialize_sparameter_noise_assertion_defaults(&choices, &mut noise);
    assert_eq!(noise.metric, "noise_figure_db_max");
    assert_eq!(noise.name, "rf_noise_figure_ceiling");
    noise.apply_sparameter_noise_preset("minimum_noise_figure_db_max");
    assert_eq!(noise.name, "rf_min_noise_figure_ceiling");
    assert_eq!(noise.relation, "below");

    let mut tf = TransferFunctionAssertionEditor {
        scenario: String::new(),
        metric: String::new(),
        relation: String::new(),
        name: String::new(),
    };
    initialize_transfer_function_assertion_defaults(&choices, &mut tf);
    assert_eq!(tf.metric, "transfer_function_gain");
    assert_eq!(tf.name, "transfer_gain_floor");
    tf.apply_transfer_function_preset("output_resistance_ohm");
    assert_eq!(tf.metric, "output_resistance_ohm");
    assert_eq!(tf.name, "output_resistance_ceiling");
}

#[test]
fn measure_and_distortion_names_follow_their_subject() {
    let choices = vec![choice("meas", &[])];
    let mut measure = MeasureAssertionEditor {
        scenario: String::new(),
        measurement: " ripple ".to_string(),
        relation: String::new(),
        name: String::new(),
    };
    initialize_measure_assertion_defaults(&choices, &mut measure);
    assert_eq!(measure.relation, "below");
    assert_eq!(measure.name, "ripple_below_limit");

    let mut disto = DistortionAssertionEditor {
        scenario: String::new(),
        component: String::new(),
        relation: String::new(),
        name: String::new(),
    };
    initialize_distortion_assertion_defaults(&choices, &mut disto);
    assert_eq!(disto.component, "im_f1_plus_f2");
    assert_eq!(disto.name, "im_f1_plus_f2_below_limit");
}

#[test]
fn dc_sweep_defaults_take_the_new_setups_first_probe() {
    let choices = vec![choice("sweep", &["vout", "iload"])];
    let mut editor = DcSweepAssertionEditor {
        scenario: "old_sweep".to_string(),
        probe: "stale".to_string(),
        aggregation: "median".to_string(),
        relation: String::new(),
        name: String::new(),
    };
    initialize_dc_sweep_assertion_defaults(&choices, &mut editor);
    assert_eq!(editor.scenario, "sweep");
    assert_eq!(editor.probe, "vout");
    assert_eq!(editor.aggregation, "max");
    assert_eq!(editor.relation, "below");
    assert_eq!(editor.name, "vout_max_below_limit");

    let mut kept = DcSweepAssertionEditor {
        scenario: "sweep".to_string(),
        probe: "iload".to_string(),
        aggregation: "mean".to_string(),
        relation: "above".to_string(),
        name: "mine".to_string(),
    };
    initialize_dc_sweep_assertion_defaults(&choices, &mut kept);
    assert_eq!(kept.probe, "iload");
    assert_eq!(kept.aggregation, "mean");
    assert_eq!(kept.name, "mine");
}

#[test]
fn analog_choices_list_setups_with_an_analog_part() {
    let project = "board: {components: {}, nets: {}}
scenarios:
  - name: digital_only
    type: digital
  - name: tran
    type: analog
    analog:
      probes:
        - {name: vout, expression: V(out), quantity: voltage}
";
    let choices = analog_scenario_choices(project).unwrap();
    assert_eq!(choices.len(), 1);
    assert_eq!(choices[0].name, "tran");
    assert_eq!(choices[0].scenario_type, "analog");
    assert_eq!(choices[0].probes[0].name, "vout");
    assert!(analog_scenario_choices("scenarios: [").is_err());
}

#[test]
fn sparameter_network_defaults_follow_the_metric() {
    let choices = vec![choice("net", &[])];
    let mut editor = SparameterNetworkAssertionEditor {
        scenario: String::new(),
        name: String::new(),
        metric: "bogus".to_string(),
        relation: String::new(),
        source_reflection_enabled: false,
        load_reflection_enabled: false,
    };
    initialize_sparameter_network_assertion_defaults(&choices, &mut editor);
    assert_eq!(editor.scenario, "net");
    assert_eq!(editor.metric, "rollet_k_min");
    assert_eq!(editor.relation, "above");
    let once = (editor.name.clone(), editor.relation.clone());
    initialize_sparameter_network_assertion_defaults(&choices, &mut editor);
    assert_eq!((editor.name.clone(), editor.relation.clone()), once);
}

#[test]
fn dc_sweep_preset_renames_generated_names_only() {
    let mut editor = DcSweepAssertionEditor {
        scenario: "sweep".to_string(),
        probe: "vout".to_string(),
        aggregation: "max".to_string(),
        relation: "below".to_string(),
        name: "vout_max_below_limit".to_string(),
    };
    editor.apply_dc_sweep_preset("min", "above");
    assert_eq!(editor.aggregation, "min");
    assert_eq!(editor.relation, "above");
    assert_eq!(editor.name, "vout_min_above_limit");
    editor.name = "custom check".to_string();
    editor.apply_dc_sweep_preset("mean", "below");
    assert_eq!(editor.name, "custom check");
}

#[test]
fn probe_check_defaults_take_a_probe_of_the_setup() {
    let choices = vec![choice("tran", &["vout", "iin"]), choice("ac", &["gain"])];
    let mut scenario = String::new();
    let mut probe = "gain".to_string();
    initialize_analog_assertion_defaults(&choices, &mut scenario, &mut probe);
    assert_eq!(scenario, "tran");
    assert_eq!(probe, "vout");
    let mut scenario = "ac".to_string();
    let mut probe = "gain".to_string();
    initialize_analog_assertion_defaults(&choices, &mut scenario, &mut probe);
    assert_eq!((scenario.as_str(), probe.as_str()), ("ac", "gain"));
    let mut scenario = String::new();
    let mut probe = "kept".to_string();
    initialize_analog_assertion_defaults(&Vec::new(), &mut scenario, &mut probe);
    assert_eq!((scenario.as_str(), probe.as_str()), ("", "kept"));
}

#[test]
fn measure_and_distortion_presets() {
    let mut measure = MeasureAssertionEditor {
        scenario: "tran".to_string(),
        measurement: "ripple".to_string(),
        relation: "below".to_string(),
        name: " ".to_string(),
    };
    measure.apply_measure_preset("above");
    assert_eq!(measure.relation, "above");
    assert_eq!(measure.name, "ripple_below_limit");
    measure.name = "mine".to_string();
    measure.apply_measure_preset("below");
    assert_eq!(measure.name, "mine");

    let mut disto = DistortionAssertionEditor {
        scenario: "disto".to_string(),
        component: String::new(),
        relation: "above".to_string(),
        name: String::new(),
    };
    disto.apply_distortion_preset("hd2", "hd2_below_limit");
    assert_eq!(disto.component, "hd2");
    assert_eq!(disto.name, "hd2_below_limit");
    assert_eq!(disto.relation, "below");
}

#[test]
fn sparameter_network_metric_change_updates_generated_names_and_rows() {
    let mut editor = SparameterNetworkAssertionEditor {
        scenario: "net".to_string(),
        name: String::new(),
        metric: "rollet_k_min".to_string(),
        relation: String::new(),
        source_reflection_enabled: false,
        load_reflection_enabled: false,
    };
    let choices = vec![choice("net", &[])];
    initialize_sparameter_network_assertion_defaults(&choices, &mut editor);
    let first_name = editor.name.clone();
    editor.metric = "transducer_gain_db_min".to_string();
    editor.apply_sparameter_network_metric_defaults("rollet_k_min");
    assert_ne!(editor.name, first_name);
    assert_eq!(editor.relation, "above");
    assert!(editor.source_reflection_enabled);
    assert!(editor.load_reflection_enabled);
    editor.name = "custom".to_string();
    editor.metric = "stability_delta_magnitude_max".to_string();
    editor.apply_sparameter_network_metric_defaults("transducer_gain_db_min");
    assert_eq!(editor.name, "custom");
    assert_eq!(editor.relation, "below");
    assert!(editor.source_reflection_enabled);
}

fn generated(name: &str) -> AnalogGeneratedScenario {
    AnalogGeneratedScenario {
        name: name.to_string(),
        ground_net: "gnd".to_string(),
        board_components: Vec::new(),
        node_bindings: vec![
            AnalogNodeBinding { node: "out".to_string(), net: "out".to_string() },
            AnalogNodeBinding { node: "0".to_string(), net: "gnd".to_string() },
        ],
        board_nets: vec![
            AnalogBoardNet { id: "gnd".to_string(), kind: "ground".to_string() },
            AnalogBoardNet { id: "out".to_string(), kind: "digital_or_analog".to_string() },
            AnalogBoardNet { id: "agnd".to_string(), kind: "ground".to_string() },
        ],
    }
}

#[test]
fn generated_settings_defaults_load_or_repair_the_setup() {
    let scenarios = vec![generated("gen_a"), generated("gen_b")];
    let (mut name, mut ground, mut net, mut node) =
        (String::new(), "x".to_string(), String::new(), String::new());
    let r = initialize_generated_settings_defaults(&scenarios, &mut name, &mut ground, &mut net, &mut node);
    assert_eq!(r, Some((0, true)));
    assert_eq!((name.as_str(), ground.as_str(), net.as_str(), node.as_str()), ("gen_a", "gnd", "gnd", "0"));

    let (mut name, mut ground, mut net, mut node) =
        ("gen_b".to_string(), "agnd".to_string(), "out".to_string(), "n1".to_string());
    let r = initialize_generated_settings_defaults(&scenarios, &mut name, &mut ground, &mut net, &mut node);
    assert_eq!(r, Some((1, false)));
    assert_eq!((ground.as_str(), net.as_str(), node.as_str()), ("agnd", "out", "n1"));

    let (mut name, mut ground, mut net, mut node) =
        ("gen_b".to_string(), "out".to_string(), "missing".to_string(), "n1".to_string());
    initialize_generated_settings_defaults(&scenarios, &mut name, &mut ground, &mut net, &mut node);
    assert_eq!((ground.as_str(), net.as_str(), node.as_str()), ("gnd", "gnd", "0"));
}

#[test]
fn stimulus_defaults_take_the_first_stimulus_when_needed() {
    let choices = vec![
        AnalogStimulusChoice { scenario_name: "tran".to_string(), component_id: "V1".to_string() },
        AnalogStimulusChoice { scenario_name: "tran".to_string(), component_id: "I1".to_string() },
    ];
    let (mut scenario, mut component) = ("tran".to_string(), "I1".to_string());
    assert!(!initialize_analog_stimulus_defaults(&choices, &mut scenario, &mut component));
    assert_eq!(component, "I1");
    let (mut scenario, mut component) = ("tran".to_string(), "R1".to_string());
    assert!(initialize_analog_stimulus_defaults(&choices, &mut scenario, &mut component));
    assert_eq!((scenario.as_str(), component.as_str()), ("tran", "V1"));
}
