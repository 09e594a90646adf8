//! The metric tables of the analog check editors: each kind of check lists its metrics,
//! and a metric picks the check's default name, relation, unit and settings.
use vstd::prelude::*;
use crate::bundles::str_pairs;
use crate::naming::names;
use crate::text::{ends_with, char_at, char_len, new_string, push_char, str_to_string, text_eq, trim, trim_str};

verus! {

pub open spec fn default_fourier_assertion_name_for(metric: Seq<char>) -> Seq<char> {
    if metric == "magnitude"@ {
        "h1_magnitude_floor"@
    } else if metric == "phase_deg"@ {
        "h1_phase_ceiling"@
    } else if metric == "normalized_phase_deg"@ {
        "h2_normalized_phase_ceiling"@
    } else if metric == "thd_percent"@ {
        "thd_ceiling"@
    } else {
        "h2_ratio_ceiling"@
    }
}

/// The default check name for a Fourier metric.
pub fn default_fourier_assertion_name(metric: &str) -> (r: &'static str)
    ensures
        r@ == default_fourier_assertion_name_for(metric@),
{
    if text_eq(metric, "magnitude") {
        "h1_magnitude_floor"
    } else if text_eq(metric, "phase_deg") {
        "h1_phase_ceiling"
    } else if text_eq(metric, "normalized_phase_deg") {
        "h2_normalized_phase_ceiling"
    } else if text_eq(metric, "thd_percent") {
        "thd_ceiling"
    } else {
        "h2_ratio_ceiling"
    }
}

pub open spec fn default_fourier_relation_for(metric: Seq<char>) -> Seq<char> {
    if metric == "magnitude"@ {
        "above"@
    } else {
        "below"@
    }
}

/// The default relation for a Fourier metric.
pub fn default_fourier_relation(metric: &str) -> (r: &'static str)
    ensures
        r@ == default_fourier_relation_for(metric@),
{
    if text_eq(metric, "magnitude") {
        "above"
    } else {
        "below"
    }
}

pub open spec fn fourier_threshold_suffix_for(metric: Seq<char>) -> Seq<char> {
    if metric == "thd_percent"@ {
        " %"@
    } else if metric == "phase_deg"@ || metric == "normalized_phase_deg"@ {
        " deg"@
    } else if metric == "normalized_magnitude"@ {
        " ratio"@
    } else {
        " output"@
    }
}

/// The unit shown after a Fourier threshold.
pub fn fourier_threshold_suffix(metric: &str) -> (r: &'static str)
    ensures
        r@ == fourier_threshold_suffix_for(metric@),
{
    if text_eq(metric, "thd_percent") {
        " %"
    } else if text_eq(metric, "phase_deg") || text_eq(metric, "normalized_phase_deg") {
        " deg"
    } else if text_eq(metric, "normalized_magnitude") {
        " ratio"
    } else {
        " output"
    }
}

pub open spec fn default_pole_zero_assertion_name_for(metric: Seq<char>) -> Seq<char> {
    if metric == "frequency_hz"@ {
        "root_frequency_ceiling"@
    } else if metric == "imaginary_rad_per_s"@ {
        "root_imaginary_ceiling"@
    } else {
        "stable_pole_real_ceiling"@
    }
}

/// The default check name for a pole-zero metric.
pub fn default_pole_zero_assertion_name(metric: &str) -> (r: &'static str)
    ensures
        r@ == default_pole_zero_assertion_name_for(metric@),
{
    if text_eq(metric, "frequency_hz") {
        "root_frequency_ceiling"
    } else if text_eq(metric, "imaginary_rad_per_s") {
        "root_imaginary_ceiling"
    } else {
        "stable_pole_real_ceiling"
    }
}

pub open spec fn default_pole_zero_relation_for(metric: Seq<char>) -> Seq<char> {
    if metric == "real_rad_per_s"@ {
        "below"@
    } else {
        "below"@
    }
}

/// The default relation for a pole-zero metric.
pub fn default_pole_zero_relation(metric: &str) -> (r: &'static str)
    ensures
        r@ == default_pole_zero_relation_for(metric@),
{
    if text_eq(metric, "real_rad_per_s") {
        "below"
    } else {
        "below"
    }
}

pub open spec fn pole_zero_threshold_suffix_for(metric: Seq<char>) -> Seq<char> {
    if metric == "frequency_hz"@ {
        " Hz"@
    } else {
        " rad/s"@
    }
}

/// The unit shown after a pole-zero threshold.
pub fn pole_zero_threshold_suffix(metric: &str) -> (r: &'static str)
    ensures
        r@ == pole_zero_threshold_suffix_for(metric@),
{
    if text_eq(metric, "frequency_hz") {
        " Hz"
    } else {
        " rad/s"
    }
}

pub open spec fn default_sensitivity_assertion_name_for(metric: Seq<char>) -> Seq<char> {
    if metric == "sensitivity_real"@ {
        "sensitivity_real_ceiling"@
    } else if metric == "sensitivity_imaginary"@ {
        "sensitivity_imag_ceiling"@
    } else {
        "sensitivity_magnitude_ceiling"@
    }
}

/// The default check name for a sensitivity metric.
pub fn default_sensitivity_assertion_name(metric: &str) -> (r: &'static str)
    ensures
        r@ == default_sensitivity_assertion_name_for(metric@),
{
    if text_eq(metric, "sensitivity_real") {
        "sensitivity_real_ceiling"
    } else if text_eq(metric, "sensitivity_imaginary") {
        "sensitivity_imag_ceiling"
    } else {
        "sensitivity_magnitude_ceiling"
    }
}

pub open spec fn default_sparameter_assertion_name_for(metric: Seq<char>) -> Seq<char> {
    if metric == "insertion_loss_db"@ {
        "s21_insertion_loss_ceiling"@
    } else if metric == "vswr"@ {
        "s11_vswr_ceiling"@
    } else if metric == "group_delay_s"@ {
        "s21_group_delay_ceiling"@
    } else if metric == "magnitude_db"@ {
        "s21_magnitude_db_ceiling"@
    } else if metric == "magnitude_linear"@ {
        "s21_magnitude_ceiling"@
    } else {
        "s11_return_loss_floor"@
    }
}

/// The default check name for an S-parameter metric.
pub fn default_sparameter_assertion_name(metric: &str) -> (r: &'static str)
    ensures
        r@ == default_sparameter_assertion_name_for(metric@),
{
    if text_eq(metric, "insertion_loss_db") {
        "s21_insertion_loss_ceiling"
    } else if text_eq(metric, "vswr") {
        "s11_vswr_ceiling"
    } else if text_eq(metric, "group_delay_s") {
        "s21_group_delay_ceiling"
    } else if text_eq(metric, "magnitude_db") {
        "s21_magnitude_db_ceiling"
    } else if text_eq(metric, "magnitude_linear") {
        "s21_magnitude_ceiling"
    } else {
        "s11_return_loss_floor"
    }
}

pub open spec fn default_sparameter_parameter_for(metric: Seq<char>) -> Seq<char> {
    if metric == "return_loss_db"@ || metric == "vswr"@ {
        "s11"@
    } else {
        "s21"@
    }
}

/// The default S-parameter for a metric.
pub fn default_sparameter_parameter(metric: &str) -> (r: &'static str)
    ensures
        r@ == default_sparameter_parameter_for(metric@),
{
    if text_eq(metric, "return_loss_db") || text_eq(metric, "vswr") {
        "s11"
    } else {
        "s21"
    }
}

pub open spec fn default_sparameter_aggregation_for(metric: Seq<char>) -> Seq<char> {
    if metric == "return_loss_db"@ {
        "min"@
    } else {
        "max"@
    }
}

/// The default aggregation for an S-parameter metric.
pub fn default_sparameter_aggregation(metric: &str) -> (r: &'static str)
    ensures
        r@ == default_sparameter_aggregation_for(metric@),
{
    if text_eq(metric, "return_loss_db") {
        "min"
    } else {
        "max"
    }
}

pub open spec fn default_sparameter_relation_for(metric: Seq<char>) -> Seq<char> {
    if metric == "return_loss_db"@ {
        "above"@
    } else {
        "below"@
    }
}

/// The default relation for an S-parameter metric.
pub fn default_sparameter_relation(metric: &str) -> (r: &'static str)
    ensures
        r@ == default_sparameter_relation_for(metric@),
{
    if text_eq(metric, "return_loss_db") {
        "above"
    } else {
        "below"
    }
}

pub open spec fn sparameter_threshold_suffix_for(metric: Seq<char>) -> Seq<char> {
    if metric == "return_loss_db"@ || metric == "insertion_loss_db"@ || metric == "magnitude_db"@ {
        " dB"@
    } else if metric == "group_delay_s"@ {
        " s"@
    } else {
        " ratio"@
    }
}

/// The unit shown after an S-parameter threshold.
pub fn sparameter_threshold_suffix(metric: &str) -> (r: &'static str)
    ensures
        r@ == sparameter_threshold_suffix_for(metric@),
{
    if text_eq(metric, "return_loss_db") || text_eq(metric, "insertion_loss_db") || text_eq(metric, "magnitude_db") {
        " dB"
    } else if text_eq(metric, "group_delay_s") {
        " s"
    } else {
        " ratio"
    }
}

pub open spec fn default_sparameter_network_assertion_name_for(metric: Seq<char>) -> Seq<char> {
    if metric == "stability_delta_magnitude_max"@ {
        "stable_delta"@
    } else if metric == "maximum_available_gain_db_min"@ {
        "available_gain_floor"@
    } else if metric == "maximum_stable_gain_db_min"@ {
        "stable_gain_floor"@
    } else if metric == "maximum_unilateral_gain_db_min"@ {
        "unilateral_gain_floor"@
    } else if metric == "transducer_gain_db_min"@ {
        "transducer_gain_floor"@
    } else if metric == "available_gain_db_min"@ {
        "source_available_gain_floor"@
    } else if metric == "operating_gain_db_min"@ {
        "load_operating_gain_floor"@
    } else if metric == "passivity_max_singular_value"@ {
        "passive_two_port"@
    } else if metric == "reciprocity_error_linear"@ {
        "reciprocal_two_port"@
    } else {
        "stable_rollet_k"@
    }
}

/// The default check name for an RF network metric.
pub fn default_sparameter_network_assertion_name(metric: &str) -> (r: &'static str)
    ensures
        r@ == default_sparameter_network_assertion_name_for(metric@),
{
    if text_eq(metric, "stability_delta_magnitude_max") {
        "stable_delta"
    } else if text_eq(metric, "maximum_available_gain_db_min") {
        "available_gain_floor"
    } else if text_eq(metric, "maximum_stable_gain_db_min") {
        "stable_gain_floor"
    } else if text_eq(metric, "maximum_unilateral_gain_db_min") {
        "unilateral_gain_floor"
    } else if text_eq(metric, "transducer_gain_db_min") {
        "transducer_gain_floor"
    } else if text_eq(metric, "available_gain_db_min") {
        "source_available_gain_floor"
    } else if text_eq(metric, "operating_gain_db_min") {
        "load_operating_gain_floor"
    } else if text_eq(metric, "passivity_max_singular_value") {
        "passive_two_port"
    } else if text_eq(metric, "reciprocity_error_linear") {
        "reciprocal_two_port"
    } else {
        "stable_rollet_k"
    }
}

pub open spec fn default_sparameter_network_relation_for(metric: Seq<char>) -> Seq<char> {
    if metric == "rollet_k_min"@ || metric == "maximum_available_gain_db_min"@ || metric == "maximum_stable_gain_db_min"@ || metric == "maximum_unilateral_gain_db_min"@ || metric == "transducer_gain_db_min"@ || metric == "available_gain_db_min"@ || metric == "operating_gain_db_min"@ {
        "above"@
    } else {
        "below"@
    }
}

/// The default relation for an RF network metric: `above` for the minimum metrics.
pub fn default_sparameter_network_relation(metric: &str) -> (r: &'static str)
    ensures
        r@ == default_sparameter_network_relation_for(metric@),
{
    if text_eq(metric, "rollet_k_min") || text_eq(metric, "maximum_available_gain_db_min") || text_eq(metric, "maximum_stable_gain_db_min") || text_eq(metric, "maximum_unilateral_gain_db_min") || text_eq(metric, "transducer_gain_db_min") || text_eq(metric, "available_gain_db_min") || text_eq(metric, "operating_gain_db_min") {
        "above"
    } else {
        "below"
    }
}

pub open spec fn default_sparameter_noise_assertion_name_for(metric: Seq<char>) -> Seq<char> {
    if metric == "minimum_noise_figure_db_max"@ {
        "rf_min_noise_figure_ceiling"@
    } else if metric == "equivalent_noise_resistance_ohm_max"@ {
        "rf_noise_resistance_ceiling"@
    } else if metric == "optimum_source_reflection_magnitude_max"@ {
        "rf_optimum_gamma_ceiling"@
    } else {
        "rf_noise_figure_ceiling"@
    }
}

/// The default check name for an RF noise metric.
pub fn default_sparameter_noise_assertion_name(metric: &str) -> (r: &'static str)
    ensures
        r@ == default_sparameter_noise_assertion_name_for(metric@),
{
    if text_eq(metric, "minimum_noise_figure_db_max") {
        "rf_min_noise_figure_ceiling"
    } else if text_eq(metric, "equivalent_noise_resistance_ohm_max") {
        "rf_noise_resistance_ceiling"
    } else if text_eq(metric, "optimum_source_reflection_magnitude_max") {
        "rf_optimum_gamma_ceiling"
    } else {
        "rf_noise_figure_ceiling"
    }
}

pub open spec fn sparameter_noise_threshold_suffix_for(metric: Seq<char>) -> Seq<char> {
    if metric == "equivalent_noise_resistance_ohm_max"@ {
        " ohm"@
    } else if metric == "optimum_source_reflection_magnitude_max"@ {
        " ratio"@
    } else {
        " dB"@
    }
}

/// The unit shown after an RF noise threshold.
pub fn sparameter_noise_threshold_suffix(metric: &str) -> (r: &'static str)
    ensures
        r@ == sparameter_noise_threshold_suffix_for(metric@),
{
    if text_eq(metric, "equivalent_noise_resistance_ohm_max") {
        " ohm"
    } else if text_eq(metric, "optimum_source_reflection_magnitude_max") {
        " ratio"
    } else {
        " dB"
    }
}

pub open spec fn default_transfer_function_assertion_name_for(metric: Seq<char>) -> Seq<char> {
    if metric == "input_resistance_ohm"@ {
        "input_resistance_floor"@
    } else if metric == "output_resistance_ohm"@ {
        "output_resistance_ceiling"@
    } else {
        "transfer_gain_floor"@
    }
}

/// The default check name for a transfer-function metric.
pub fn default_transfer_function_assertion_name(metric: &str) -> (r: &'static str)
    ensures
        r@ == default_transfer_function_assertion_name_for(metric@),
{
    if text_eq(metric, "input_resistance_ohm") {
        "input_resistance_floor"
    } else if text_eq(metric, "output_resistance_ohm") {
        "output_resistance_ceiling"
    } else {
        "transfer_gain_floor"
    }
}

pub open spec fn default_transfer_function_relation_for(metric: Seq<char>) -> Seq<char> {
    if metric == "input_resistance_ohm"@ || metric == "transfer_function_gain"@ {
        "above"@
    } else {
        "below"@
    }
}

/// The default relation for a transfer-function metric.
pub fn default_transfer_function_relation(metric: &str) -> (r: &'static str)
    ensures
        r@ == default_transfer_function_relation_for(metric@),
{
    if text_eq(metric, "input_resistance_ohm") || text_eq(metric, "transfer_function_gain") {
        "above"
    } else {
        "below"
    }
}

pub open spec fn transfer_function_threshold_suffix_for(metric: Seq<char>) -> Seq<char> {
    if metric == "input_resistance_ohm"@ || metric == "output_resistance_ohm"@ {
        " ohm"@
    } else {
        " ratio"@
    }
}

/// The unit shown after a transfer-function threshold.
pub fn transfer_function_threshold_suffix(metric: &str) -> (r: &'static str)
    ensures
        r@ == transfer_function_threshold_suffix_for(metric@),
{
    if text_eq(metric, "input_resistance_ohm") || text_eq(metric, "output_resistance_ohm") {
        " ohm"
    } else {
        " ratio"
    }
}

pub open spec fn fourier_metric_options_list() -> Seq<(Seq<char>, Seq<char>)> {
    seq![
        ("normalized_magnitude"@, "Normalized magnitude"@),
        ("magnitude"@, "Magnitude"@),
        ("phase_deg"@, "Phase"@),
        ("normalized_phase_deg"@, "Normalized phase"@),
        ("thd_percent"@, "THD"@),
    ]
}

/// The Fourier metrics and their labels.
pub fn fourier_metric_options() -> (r: Vec<(&'static str, &'static str)>)
    ensures
        str_pairs(r@) == fourier_metric_options_list(),
{
    let mut r: Vec<(&'static str, &'static str)> = Vec::new();
    r.push(("normalized_magnitude", "Normalized magnitude"));
    r.push(("magnitude", "Magnitude"));
    r.push(("phase_deg", "Phase"));
    r.push(("normalized_phase_deg", "Normalized phase"));
    r.push(("thd_percent", "THD"));
    assert(str_pairs(r@) =~= fourier_metric_options_list());
    r
}

pub open spec fn pole_zero_metric_options_list() -> Seq<(Seq<char>, Seq<char>)> {
    seq![
        ("real_rad_per_s"@, "Real part"@),
        ("imaginary_rad_per_s"@, "Imaginary part"@),
        ("frequency_hz"@, "Frequency"@),
    ]
}

/// The pole-zero metrics and their labels.
pub fn pole_zero_metric_options() -> (r: Vec<(&'static str, &'static str)>)
    ensures
        str_pairs(r@) == pole_zero_metric_options_list(),
{
    let mut r: Vec<(&'static str, &'static str)> = Vec::new();
    r.push(("real_rad_per_s", "Real part"));
    r.push(("imaginary_rad_per_s", "Imaginary part"));
    r.push(("frequency_hz", "Frequency"));
    assert(str_pairs(r@) =~= pole_zero_metric_options_list());
    r
}

pub open spec fn sensitivity_metric_options_list() -> Seq<(Seq<char>, Seq<char>)> {
    seq![
        ("sensitivity_magnitude"@, "Magnitude"@),
        ("sensitivity_real"@, "Real"@),
        ("sensitivity_imaginary"@, "Imaginary"@),
    ]
}

/// The sensitivity metrics and their labels.
pub fn sensitivity_metric_options() -> (r: Vec<(&'static str, &'static str)>)
    ensures
        str_pairs(r@) == sensitivity_metric_options_list(),
{
    let mut r: Vec<(&'static str, &'static str)> = Vec::new();
    r.push(("sensitivity_magnitude", "Magnitude"));
    r.push(("sensitivity_real", "Real"));
    r.push(("sensitivity_imaginary", "Imaginary"));
    assert(str_pairs(r@) =~= sensitivity_metric_options_list());
    r
}

pub open spec fn sparameter_metric_options_list() -> Seq<(Seq<char>, Seq<char>)> {
    seq![
        ("return_loss_db"@, "Return loss"@),
        ("insertion_loss_db"@, "Insertion loss"@),
        ("vswr"@, "VSWR"@),
        ("group_delay_s"@, "Group delay"@),
        ("magnitude_db"@, "Magnitude dB"@),
        ("magnitude_linear"@, "Magnitude linear"@),
    ]
}

/// The S-parameter metrics and their labels.
pub fn sparameter_metric_options() -> (r: Vec<(&'static str, &'static str)>)
    ensures
        str_pairs(r@) == sparameter_metric_options_list(),
{
    let mut r: Vec<(&'static str, &'static str)> = Vec::new();
    r.push(("return_loss_db", "Return loss"));
    r.push(("insertion_loss_db", "Insertion loss"));
    r.push(("vswr", "VSWR"));
    r.push(("group_delay_s", "Group delay"));
    r.push(("magnitude_db", "Magnitude dB"));
    r.push(("magnitude_linear", "Magnitude linear"));
    assert(str_pairs(r@) =~= sparameter_metric_options_list());
    r
}

pub open spec fn sparameter_network_metric_options_list() -> Seq<(Seq<char>, Seq<char>)> {
    seq![
        ("rollet_k_min"@, "Rollet K minimum"@),
        ("stability_delta_magnitude_max"@, "Stability |Delta| maximum"@),
        ("maximum_available_gain_db_min"@, "Maximum available gain minimum"@),
        ("maximum_stable_gain_db_min"@, "Maximum stable gain minimum"@),
        ("maximum_unilateral_gain_db_min"@, "Maximum unilateral gain minimum"@),
        ("transducer_gain_db_min"@, "Transducer gain minimum"@),
        ("available_gain_db_min"@, "Available gain minimum"@),
        ("operating_gain_db_min"@, "Operating gain minimum"@),
        ("passivity_max_singular_value"@, "Passivity singular maximum"@),
        ("reciprocity_error_linear"@, "Reciprocity error maximum"@),
    ]
}

/// The RF network metrics and their labels.
pub fn sparameter_network_metric_options() -> (r: Vec<(&'static str, &'static str)>)
    ensures
        str_pairs(r@) == sparameter_network_metric_options_list(),
{
    let mut r: Vec<(&'static str, &'static str)> = Vec::new();
    r.push(("rollet_k_min", "Rollet K minimum"));
    r.push(("stability_delta_magnitude_max", "Stability |Delta| maximum"));
    r.push(("maximum_available_gain_db_min", "Maximum available gain minimum"));
    r.push(("maximum_stable_gain_db_min", "Maximum stable gain minimum"));
    r.push(("maximum_unilateral_gain_db_min", "Maximum unilateral gain minimum"));
    r.push(("transducer_gain_db_min", "Transducer gain minimum"));
    r.push(("available_gain_db_min", "Available gain minimum"));
    r.push(("operating_gain_db_min", "Operating gain minimum"));
    r.push(("passivity_max_singular_value", "Passivity singular maximum"));
    r.push(("reciprocity_error_linear", "Reciprocity error maximum"));
    assert(str_pairs(r@) =~= sparameter_network_metric_options_list());
    r
}

pub open spec fn sparameter_noise_metric_options_list() -> Seq<(Seq<char>, Seq<char>)> {
    seq![
        ("noise_figure_db_max"@, "Noise figure maximum"@),
        ("minimum_noise_figure_db_max"@, "Minimum noise figure maximum"@),
        ("equivalent_noise_resistance_ohm_max"@, "Equivalent noise resistance maximum"@),
        ("optimum_source_reflection_magnitude_max"@, "Optimum source gamma maximum"@),
    ]
}

/// The RF noise metrics and their labels.
pub fn sparameter_noise_metric_options() -> (r: Vec<(&'static str, &'static str)>)
    ensures
        str_pairs(r@) == sparameter_noise_metric_options_list(),
{
    let mut r: Vec<(&'static str, &'static str)> = Vec::new();
    r.push(("noise_figure_db_max", "Noise figure maximum"));
    r.push(("minimum_noise_figure_db_max", "Minimum noise figure maximum"));
    r.push(("equivalent_noise_resistance_ohm_max", "Equivalent noise resistance maximum"));
    r.push(("optimum_source_reflection_magnitude_max", "Optimum source gamma maximum"));
    assert(str_pairs(r@) =~= sparameter_noise_metric_options_list());
    r
}

pub open spec fn transfer_function_metric_options_list() -> Seq<(Seq<char>, Seq<char>)> {
    seq![
        ("transfer_function_gain"@, "Transfer gain"@),
        ("input_resistance_ohm"@, "Input resistance"@),
        ("output_resistance_ohm"@, "Output resistance"@),
    ]
}

/// The transfer-function metrics and their labels.
pub fn transfer_function_metric_options() -> (r: Vec<(&'static str, &'static str)>)
    ensures
        str_pairs(r@) == transfer_function_metric_options_list(),
{
    let mut r: Vec<(&'static str, &'static str)> = Vec::new();
    r.push(("transfer_function_gain", "Transfer gain"));
    r.push(("input_resistance_ohm", "Input resistance"));
    r.push(("output_resistance_ohm", "Output resistance"));
    assert(str_pairs(r@) =~= transfer_function_metric_options_list());
    r
}

/// The default harmonic for a Fourier metric: the fundamental for magnitude and phase.
pub open spec fn default_fourier_harmonic_for(metric: Seq<char>) -> u32 {
    if metric == "magnitude"@ || metric == "phase_deg"@ {
        1
    } else {
        2
    }
}

/// The default harmonic for a Fourier metric.
pub fn default_fourier_harmonic(metric: &str) -> (r: u32)
    ensures
        r == default_fourier_harmonic_for(metric@),
{
    if text_eq(metric, "magnitude") || text_eq(metric, "phase_deg") {
        1
    } else {
        2
    }
}

/// The default relation for a sensitivity metric: always `below`.
pub fn default_sensitivity_relation(_metric: &str) -> (r: &'static str)
    ensures
        r@ == "below"@,
{
    "below"
}

/// The default relation for an RF noise metric: always `below`.
pub fn default_sparameter_noise_relation(_metric: &str) -> (r: &'static str)
    ensures
        r@ == "below"@,
{
    "below"
}

/// The RF network metrics that need a source reflection coefficient.
pub fn sparameter_network_metric_requires_source_reflection(metric: &str) -> (r: bool)
    ensures
        r == (metric@ == "transducer_gain_db_min"@ || metric@ == "available_gain_db_min"@),
{
    text_eq(metric, "transducer_gain_db_min") || text_eq(metric, "available_gain_db_min")
}

/// The RF network metrics that need a load reflection coefficient.
pub fn sparameter_network_metric_requires_load_reflection(metric: &str) -> (r: bool)
    ensures
        r == (metric@ == "transducer_gain_db_min"@ || metric@ == "operating_gain_db_min"@),
{
    text_eq(metric, "transducer_gain_db_min") || text_eq(metric, "operating_gain_db_min")
}

/// Which end of a two-port a reflection coefficient describes.
#[derive(Clone, Copy, PartialEq, Eq, Structural)]
pub enum ReflectionRole {
    Source,
    Load,
}

impl ReflectionRole {
    /// The label of the reflection editor row.
    pub fn label(self) -> (r: &'static str)
        ensures
            r@ == (match self {
                ReflectionRole::Source => "Source gamma"@,
                ReflectionRole::Load => "Load gamma"@,
            }),
    {
        match self {
            ReflectionRole::Source => "Source gamma",
            ReflectionRole::Load => "Load gamma",
        }
    }

    /// Whether a metric needs this reflection coefficient.
    pub fn required_for_metric(self, metric: &str) -> (r: bool)
        ensures
            r == (match self {
                ReflectionRole::Source => metric@ == "transducer_gain_db_min"@ || metric@
                    == "available_gain_db_min"@,
                ReflectionRole::Load => metric@ == "transducer_gain_db_min"@ || metric@
                    == "operating_gain_db_min"@,
            }),
    {
        match self {
            ReflectionRole::Source => sparameter_network_metric_requires_source_reflection(metric),
            ReflectionRole::Load => sparameter_network_metric_requires_load_reflection(metric),
        }
    }
}

/// `<name>_below_limit` for a non-blank trimmed name, else `fallback`.
pub open spec fn below_limit_name(name: Seq<char>, fallback: Seq<char>) -> Seq<char> {
    if trim(name).len() == 0 {
        fallback
    } else {
        trim(name) + "_below_limit"@
    }
}

fn below_limit(name: &str, fallback: &str) -> (r: String)
    ensures
        r@ == below_limit_name(name@, fallback@),
{
    let t = trim_str(name);
    if char_len(t.as_str()) == 0 {
        return str_to_string(fallback);
    }
    let mut r = t;
    r.append("_below_limit");
    r
}

/// The default check name for a measurement.
pub fn default_measure_assertion_name(measurement: &str) -> (r: String)
    ensures
        r@ == below_limit_name(measurement@, "measure_below_limit"@),
{
    below_limit(measurement, "measure_below_limit")
}

/// The default check name for a distortion component.
pub fn default_distortion_assertion_name(component: &str) -> (r: String)
    ensures
        r@ == below_limit_name(component@, "distortion_below_limit"@),
{
    below_limit(component, "distortion_below_limit")
}

/// `<probe>_<aggregation>_<relation>_limit`, with `probe` for a blank probe name.
pub open spec fn dc_sweep_name(probe: Seq<char>, aggregation: Seq<char>, relation: Seq<char>) -> Seq<char> {
    let p = if trim(probe).len() == 0 {
        "probe"@
    } else {
        trim(probe)
    };
    p + "_"@ + aggregation + "_"@ + relation + "_limit"@
}

/// The default check name for a DC sweep check.
pub fn default_dc_sweep_assertion_name(probe: &str, aggregation: &str, relation: &str) -> (r: String)
    ensures
        r@ == dc_sweep_name(probe@, aggregation@, relation@),
{
    let t = trim_str(probe);
    let mut r = if char_len(t.as_str()) == 0 {
        str_to_string("probe")
    } else {
        t
    };
    r.append("_");
    r.append(aggregation);
    r.append("_");
    r.append(relation);
    r.append("_limit");
    r
}

/// The fields of text split at each comma, and the field after the last comma.
pub open spec fn comma_split(s: Seq<char>) -> (Seq<Seq<char>>, Seq<char>)
    decreases s.len(),
{
    if s.len() == 0 {
        (Seq::empty(), Seq::empty())
    } else {
        let (done, cur) = comma_split(s.drop_last());
        if s.last() == ',' {
            (done.push(cur), Seq::empty())
        } else {
            (done, cur.push(s.last()))
        }
    }
}

/// The trimmed fields that are not blank, in order.
pub open spec fn kept_fields(fields: Seq<Seq<char>>) -> Seq<Seq<char>>
    decreases fields.len(),
{
    if fields.len() == 0 {
        Seq::empty()
    } else {
        let p = kept_fields(fields.drop_last());
        if trim(fields.last()).len() == 0 {
            p
        } else {
            p.push(trim(fields.last()))
        }
    }
}

/// The comma-separated filters of a text, trimmed, blanks left out.
pub open spec fn filters_of(text: Seq<char>) -> Seq<Seq<char>> {
    kept_fields(comma_split(text).0.push(comma_split(text).1))
}

/// The sensitivity filters written in a text field.
pub fn sensitivity_filters_from_text(text: &str) -> (r: Vec<String>)
    ensures
        names(r@) == filters_of(text@),
{
    let n = char_len(text);
    let mut out: Vec<String> = Vec::new();
    let mut cur = new_string();
    let mut i: usize = 0;
    assert(text@.subrange(0, 0) =~= Seq::<char>::empty());
    assert(cur@ =~= Seq::<char>::empty());
    while i < n
        invariant
            n == text@.len(),
            i <= n,
            names(out@) == kept_fields(comma_split(text@.subrange(0, i as int)).0),
            cur@ == comma_split(text@.subrange(0, i as int)).1,
        decreases n - i,
    {
        let c = char_at(text, i);
        assert(text@.subrange(0, i + 1).drop_last() =~= text@.subrange(0, i as int));
        let ghost prev = comma_split(text@.subrange(0, i as int));
        if c == ',' {
            let t = trim_str(cur.as_str());
            let ghost before = out@;
            if char_len(t.as_str()) > 0 {
                out.push(t);
                assert(names(out@) =~= names(before).push(trim(cur@)));
            }
            assert(prev.0.push(prev.1).drop_last() =~= prev.0);
            cur = new_string();
        } else {
            push_char(&mut cur, c);
        }
        i = i + 1;
    }
    assert(text@.subrange(0, n as int) =~= text@);
    let ghost fin = comma_split(text@);
    assert(fin.0.push(fin.1).drop_last() =~= fin.0);
    let t = trim_str(cur.as_str());
    let ghost before = out@;
    if char_len(t.as_str()) > 0 {
        out.push(t);
        assert(names(out@) =~= names(before).push(trim(cur@)));
    }
    out
}

/// For every offered transfer-function metric, the default check is a floor (its default
/// name ends in `_floor`) exactly when its default relation is `above`, and a ceiling
/// (`_ceiling`) exactly when its default relation is `below`.
pub proof fn law_transfer_function_relation_matches_check(i: int)
    requires
        0 <= i < transfer_function_metric_options_list().len(),
    ensures
        ({
            let m = transfer_function_metric_options_list()[i].0;
            &&& (default_transfer_function_relation_for(m) == "above"@) == ends_with(
                default_transfer_function_assertion_name_for(m),
                "_floor"@,
            )
            &&& (default_transfer_function_relation_for(m) == "below"@) == ends_with(
                default_transfer_function_assertion_name_for(m),
                "_ceiling"@,
            )
        }),
{
    reveal_strlit("transfer_function_gain");
    reveal_strlit("input_resistance_ohm");
    reveal_strlit("output_resistance_ohm");
    reveal_strlit("input_resistance_floor");
    reveal_strlit("output_resistance_ceiling");
    reveal_strlit("transfer_gain_floor");
    reveal_strlit("above");
    reveal_strlit("below");
    reveal_strlit("_floor");
    reveal_strlit("_ceiling");
    let a = "input_resistance_floor"@;
    let b = "output_resistance_ceiling"@;
    let c = "transfer_gain_floor"@;
    assert(a.subrange(a.len() - 6, a.len() as int) =~= "_floor"@);
    assert(a.subrange(a.len() - 8, a.len() as int) != "_ceiling"@) by {
        assert(a.subrange(a.len() - 8, a.len() as int)[0] != "_ceiling"@[0]);
    }
    assert(b.subrange(b.len() - 8, b.len() as int) =~= "_ceiling"@);
    assert(b.subrange(b.len() - 6, b.len() as int) != "_floor"@) by {
        assert(b.subrange(b.len() - 6, b.len() as int)[1] != "_floor"@[1]);
    }
    assert(c.subrange(c.len() - 6, c.len() as int) =~= "_floor"@);
    assert(c.subrange(c.len() - 8, c.len() as int) != "_ceiling"@) by {
        assert(c.subrange(c.len() - 8, c.len() as int)[0] != "_ceiling"@[0]);
    }
    assert("above"@ != "below"@) by {
        assert("above"@[0] != "below"@[0]);
    }
    assert("transfer_function_gain"@ != "input_resistance_ohm"@) by {
        assert("transfer_function_gain"@[0] != "input_resistance_ohm"@[0]);
    }
    assert("output_resistance_ohm"@ != "input_resistance_ohm"@) by {
        assert("output_resistance_ohm"@[0] != "input_resistance_ohm"@[0]);
    }
    assert("output_resistance_ohm"@ != "transfer_function_gain"@) by {
        assert("output_resistance_ohm"@[0] != "transfer_function_gain"@[0]);
    }
}

} // verus!
