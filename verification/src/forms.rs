//! The defaults of the analog editor forms: which run setup, metric, relation and name an
//! editor shows when its current choice is missing or blank, and the lookups the forms use.
use vstd::prelude::*;
use crate::analog::AnalogScenarioChoice;
use crate::bundles::str_pairs;
use crate::metrics::{
    dc_sweep_name, default_dc_sweep_assertion_name, default_distortion_assertion_name,
    default_fourier_assertion_name, default_fourier_assertion_name_for, default_fourier_harmonic,
    default_fourier_harmonic_for, default_fourier_relation, default_fourier_relation_for,
    default_measure_assertion_name, below_limit_name, default_pole_zero_assertion_name,
    default_pole_zero_assertion_name_for, default_pole_zero_relation, default_pole_zero_relation_for,
    default_sensitivity_assertion_name, default_sensitivity_assertion_name_for,
    default_sensitivity_relation, default_sparameter_aggregation, default_sparameter_aggregation_for,
    default_sparameter_assertion_name, default_sparameter_assertion_name_for,
    default_sparameter_network_assertion_name, default_sparameter_network_assertion_name_for,
    default_sparameter_network_relation, default_sparameter_network_relation_for,
    sparameter_network_metric_options, sparameter_network_metric_options_list,
    sparameter_network_metric_requires_load_reflection,
    sparameter_network_metric_requires_source_reflection,
    default_sparameter_noise_assertion_name, default_sparameter_noise_assertion_name_for,
    default_sparameter_noise_relation, default_sparameter_parameter, default_sparameter_parameter_for,
    default_sparameter_relation, default_sparameter_relation_for,
    default_transfer_function_assertion_name, default_transfer_function_assertion_name_for,
    default_transfer_function_relation, default_transfer_function_relation_for,
    fourier_metric_options, fourier_metric_options_list, pole_zero_metric_options,
    pole_zero_metric_options_list, sensitivity_metric_options, sensitivity_metric_options_list,
    sparameter_metric_options, sparameter_metric_options_list, sparameter_noise_metric_options,
    sparameter_noise_metric_options_list, transfer_function_metric_options,
    transfer_function_metric_options_list,
};
use crate::text::{char_len, ends_with, str_ends_with, str_to_string, text_eq, trim, trim_str};

verus! {

/// The names of the run setup choices.
pub open spec fn choice_names(choices: Seq<AnalogScenarioChoice>) -> Seq<Seq<char>> {
    choices.map_values(|c: AnalogScenarioChoice| c.name@)
}

/// The run setup an editor shows: its own when set and still offered, else the first
/// offered one (or its own when none is offered).
pub open spec fn default_scenario(names: Seq<Seq<char>>, current: Seq<char>) -> Seq<char> {
    if (current.len() == 0 || !names.contains(current)) && names.len() > 0 {
        names[0]
    } else {
        current
    }
}

/// The keys of an option table.
pub open spec fn option_keys(options: Seq<(Seq<char>, Seq<char>)>) -> Seq<Seq<char>> {
    options.map_values(|p: (Seq<char>, Seq<char>)| p.0)
}

/// A metric kept when the table offers it, else `fallback`.
pub open spec fn offered_or(options: Seq<(Seq<char>, Seq<char>)>, metric: Seq<char>, fallback: Seq<char>) -> Seq<
    char,
> {
    if option_keys(options).contains(metric) {
        metric
    } else {
        fallback
    }
}

/// A relation kept when it is `above` or `below`, else `fallback`.
pub open spec fn relation_or(relation: Seq<char>, fallback: Seq<char>) -> Seq<char> {
    if relation == "above"@ || relation == "below"@ {
        relation
    } else {
        fallback
    }
}

/// A name kept when it is not blank, else `fallback`.
pub open spec fn name_or(name: Seq<char>, fallback: Seq<char>) -> Seq<char> {
    if trim(name).len() == 0 {
        fallback
    } else {
        name
    }
}

fn contains_choice(choices: &Vec<AnalogScenarioChoice>, name: &str) -> (r: bool)
    ensures
        r == choice_names(choices@).contains(name@),
{
    let ghost cn = choice_names(choices@);
    let mut i: usize = 0;
    while i < choices.len()
        invariant
            cn == choice_names(choices@),
            i <= choices@.len(),
            forall|k: int| 0 <= k < i ==> #[trigger] cn[k] != name@,
        decreases choices@.len() - i,
    {
        if text_eq(choices[i].name.as_str(), name) {
            assert(cn[i as int] == name@);
            return true;
        }
        i = i + 1;
    }
    assert(!cn.contains(name@)) by {
        if cn.contains(name@) {
            let k = choose|k: int| 0 <= k < cn.len() && cn[k] == name@;
            assert(cn[k] != name@);
        }
    }
    false
}

/// Points an editor at an offered run setup.
fn apply_default_scenario(choices: &Vec<AnalogScenarioChoice>, scenario: &mut String)
    ensures
        final(scenario)@ == default_scenario(choice_names(choices@), old(scenario)@),
{
    let missing = !contains_choice(choices, scenario.as_str());
    if (char_len(scenario.as_str()) == 0 || missing) && choices.len() > 0 {
        *scenario = str_to_string(choices[0].name.as_str());
    }
}

fn offers(options: &Vec<(&'static str, &'static str)>, metric: &str) -> (r: bool)
    ensures
        r == option_keys(str_pairs(options@)).contains(metric@),
{
    let ghost keys = option_keys(str_pairs(options@));
    let mut i: usize = 0;
    while i < options.len()
        invariant
            keys == option_keys(str_pairs(options@)),
            i <= options@.len(),
            forall|k: int| 0 <= k < i ==> #[trigger] keys[k] != metric@,
        decreases options@.len() - i,
    {
        if text_eq(options[i].0, metric) {
            assert(keys[i as int] == metric@);
            return true;
        }
        i = i + 1;
    }
    assert(!keys.contains(metric@)) by {
        if keys.contains(metric@) {
            let k = choose|k: int| 0 <= k < keys.len() && keys[k] == metric@;
            assert(keys[k] != metric@);
        }
    }
    false
}

fn apply_offered(options: &Vec<(&'static str, &'static str)>, metric: &mut String, fallback: &str)
    ensures
        final(metric)@ == offered_or(str_pairs(options@), old(metric)@, fallback@),
{
    if !offers(options, metric.as_str()) {
        *metric = str_to_string(fallback);
    }
}

fn apply_relation(relation: &mut String, fallback: &str)
    ensures
        final(relation)@ == relation_or(old(relation)@, fallback@),
{
    if !(text_eq(relation.as_str(), "above") || text_eq(relation.as_str(), "below")) {
        *relation = str_to_string(fallback);
    }
}

fn apply_name(name: &mut String, fallback: &str)
    ensures
        final(name)@ == name_or(old(name)@, fallback@),
{
    if char_len(trim_str(name.as_str()).as_str()) == 0 {
        *name = str_to_string(fallback);
    }
}

/// The text settings of the Fourier check editor.
pub struct FourierAssertionEditor {
    pub scenario: String,
    pub metric: String,
    pub relation: String,
    pub name: String,
    pub harmonic: u32,
}

impl FourierAssertionEditor {
    /// Switches the editor to a Fourier metric preset: the metric with its harmonic, check
    /// name and relation.
    pub fn apply_fourier_preset(&mut self, metric: &str)
        ensures
            final(self).scenario == old(self).scenario,
            final(self).metric@ == metric@,
            final(self).harmonic == default_fourier_harmonic_for(metric@),
            final(self).name@ == default_fourier_assertion_name_for(metric@),
            final(self).relation@ == default_fourier_relation_for(metric@),
    {
        self.metric = str_to_string(metric);
        self.harmonic = default_fourier_harmonic(metric);
        self.name = str_to_string(default_fourier_assertion_name(metric));
        self.relation = str_to_string(default_fourier_relation(metric));
    }
}

/// What filling in the Fourier check editor gives: `after` is `before` with its defaults applied.
pub open spec fn fourier_defaults(choices: Seq<AnalogScenarioChoice>, before: FourierAssertionEditor, after: FourierAssertionEditor) -> bool {
    &&& after.scenario@ == default_scenario(choice_names(choices), before.scenario@)
    &&& after.metric@ == offered_or(
        fourier_metric_options_list(),
        before.metric@,
        "normalized_magnitude"@
    )
    &&& after.relation@ == relation_or(
        before.relation@,
        default_fourier_relation_for(after.metric@)
    )
    &&& after.name@ == name_or(
        before.name@,
        default_fourier_assertion_name_for(after.metric@)
    )
    &&& after.harmonic == (if before.harmonic > 1024 {
        default_fourier_harmonic_for(after.metric@)
    } else {
        before.harmonic
    })
}

/// Fills in the Fourier check editor: an offered run setup, a known metric, a relation, a
/// name and a harmonic of at most 1024, each from the metric when missing.
pub fn initialize_fourier_assertion_defaults(
    choices: &Vec<AnalogScenarioChoice>,
    editor: &mut FourierAssertionEditor,
)
    ensures
        fourier_defaults(choices@, *old(editor), *final(editor)),
{
    apply_default_scenario(choices, &mut editor.scenario);
    let options = fourier_metric_options();
    apply_offered(&options, &mut editor.metric, "normalized_magnitude");
    let relation = default_fourier_relation(editor.metric.as_str());
    apply_relation(&mut editor.relation, relation);
    let name = default_fourier_assertion_name(editor.metric.as_str());
    apply_name(&mut editor.name, name);
    if editor.harmonic > 1024 {
        editor.harmonic = default_fourier_harmonic(editor.metric.as_str());
    }
}

/// The text settings of the pole-zero check editor.
pub struct PoleZeroAssertionEditor {
    pub scenario: String,
    pub root_kind: String,
    pub root_index_enabled: bool,
    pub root_index: usize,
    pub metric: String,
    pub relation: String,
    pub name: String,
}

impl PoleZeroAssertionEditor {
    /// Switches the editor to a pole-zero preset: the root kind and metric, the first root,
    /// and the metric's check name and relation.
    pub fn apply_pole_zero_preset(&mut self, root_kind: &str, metric: &str)
        ensures
            final(self).scenario == old(self).scenario,
            final(self).root_kind@ == root_kind@,
            final(self).metric@ == metric@,
            final(self).root_index_enabled,
            final(self).root_index == 1,
            final(self).name@ == default_pole_zero_assertion_name_for(metric@),
            final(self).relation@ == default_pole_zero_relation_for(metric@),
    {
        self.root_kind = str_to_string(root_kind);
        self.metric = str_to_string(metric);
        self.root_index_enabled = true;
        self.root_index = 1;
        self.name = str_to_string(default_pole_zero_assertion_name(metric));
        self.relation = str_to_string(default_pole_zero_relation(metric));
    }
}

/// What filling in the pole-zero check editor gives: `after` is `before` with its defaults applied.
pub open spec fn pole_zero_defaults(choices: Seq<AnalogScenarioChoice>, before: PoleZeroAssertionEditor, after: PoleZeroAssertionEditor) -> bool {
    &&& after.scenario@ == default_scenario(choice_names(choices), before.scenario@)
    &&& after.root_kind@ == (if before.root_kind@ == "pole"@ || before.root_kind@
        == "zero"@ {
        before.root_kind@
    } else {
        "pole"@
    })
    &&& after.root_index_enabled == before.root_index_enabled
    &&& after.root_index == (if before.root_index == 0 {
        1
    } else {
        before.root_index
    })
    &&& after.metric@ == offered_or(
        pole_zero_metric_options_list(),
        before.metric@,
        "real_rad_per_s"@
    )
    &&& after.relation@ == relation_or(
        before.relation@,
        default_pole_zero_relation_for(after.metric@)
    )
    &&& after.name@ == name_or(
        before.name@,
        default_pole_zero_assertion_name_for(after.metric@)
    )
}

/// Fills in the pole-zero check editor: an offered run setup, a pole or zero, a root index
/// from 1, a known metric, a relation and a name.
pub fn initialize_pole_zero_assertion_defaults(
    choices: &Vec<AnalogScenarioChoice>,
    editor: &mut PoleZeroAssertionEditor,
)
    ensures
        pole_zero_defaults(choices@, *old(editor), *final(editor)),
{
    apply_default_scenario(choices, &mut editor.scenario);
    if !(text_eq(editor.root_kind.as_str(), "pole") || text_eq(editor.root_kind.as_str(), "zero")) {
        editor.root_kind = str_to_string("pole");
    }
    if editor.root_index == 0 {
        editor.root_index = 1;
    }
    let options = pole_zero_metric_options();
    apply_offered(&options, &mut editor.metric, "real_rad_per_s");
    let relation = default_pole_zero_relation(editor.metric.as_str());
    apply_relation(&mut editor.relation, relation);
    let name = default_pole_zero_assertion_name(editor.metric.as_str());
    apply_name(&mut editor.name, name);
}

/// The text settings of the sensitivity check editor.
pub struct SensitivityAssertionEditor {
    pub scenario: String,
    pub parameter: String,
    pub metric: String,
    pub relation: String,
    pub name: String,
}

impl SensitivityAssertionEditor {
    /// Switches the editor to a sensitivity metric preset: the metric with its check name and
    /// relation.
    pub fn apply_sensitivity_preset(&mut self, metric: &str)
        ensures
            final(self).scenario == old(self).scenario,
            final(self).parameter == old(self).parameter,
            final(self).metric@ == metric@,
            final(self).name@ == default_sensitivity_assertion_name_for(metric@),
            final(self).relation@ == "below"@,
    {
        self.metric = str_to_string(metric);
        self.name = str_to_string(default_sensitivity_assertion_name(metric));
        self.relation = str_to_string(default_sensitivity_relation(metric));
    }
}

/// What filling in the sensitivity check editor gives: `after` is `before` with its defaults applied.
pub open spec fn sensitivity_defaults(choices: Seq<AnalogScenarioChoice>, before: SensitivityAssertionEditor, after: SensitivityAssertionEditor) -> bool {
    &&& after.scenario@ == default_scenario(choice_names(choices), before.scenario@)
    &&& after.parameter@ == name_or(before.parameter@, "R1"@)
    &&& after.metric@ == offered_or(
        sensitivity_metric_options_list(),
        before.metric@,
        "sensitivity_magnitude"@
    )
    &&& after.relation@ == relation_or(before.relation@, "below"@)
    &&& after.name@ == name_or(
        before.name@,
        default_sensitivity_assertion_name_for(after.metric@)
    )
}

/// Fills in the sensitivity check editor: an offered run setup, a parameter (`R1` when
/// blank), a known metric, a relation and a name.
pub fn initialize_sensitivity_assertion_defaults(
    choices: &Vec<AnalogScenarioChoice>,
    editor: &mut SensitivityAssertionEditor,
)
    ensures
        sensitivity_defaults(choices@, *old(editor), *final(editor)),
{
    apply_default_scenario(choices, &mut editor.scenario);
    apply_name(&mut editor.parameter, "R1");
    let options = sensitivity_metric_options();
    apply_offered(&options, &mut editor.metric, "sensitivity_magnitude");
    let relation = default_sensitivity_relation(editor.metric.as_str());
    apply_relation(&mut editor.relation, relation);
    let name = default_sensitivity_assertion_name(editor.metric.as_str());
    apply_name(&mut editor.name, name);
}

/// The text settings of the S-parameter check editor.
pub struct SparameterAssertionEditor {
    pub scenario: String,
    pub metric: String,
    pub name: String,
    pub parameter: String,
    pub aggregation: String,
    pub relation: String,
}

impl SparameterAssertionEditor {
    /// Switches the editor to an S-parameter metric preset: the metric with its check name,
    /// parameter, aggregation and relation.
    pub fn apply_sparameter_preset(&mut self, metric: &str)
        ensures
            final(self).scenario == old(self).scenario,
            final(self).metric@ == metric@,
            final(self).name@ == default_sparameter_assertion_name_for(metric@),
            final(self).parameter@ == default_sparameter_parameter_for(metric@),
            final(self).aggregation@ == default_sparameter_aggregation_for(metric@),
            final(self).relation@ == default_sparameter_relation_for(metric@),
    {
        self.metric = str_to_string(metric);
        self.name = str_to_string(default_sparameter_assertion_name(metric));
        self.parameter = str_to_string(default_sparameter_parameter(metric));
        self.aggregation = str_to_string(default_sparameter_aggregation(metric));
        self.relation = str_to_string(default_sparameter_relation(metric));
    }
}

/// What filling in the S-parameter check editor gives: `after` is `before` with its defaults applied.
pub open spec fn sparameter_defaults(choices: Seq<AnalogScenarioChoice>, before: SparameterAssertionEditor, after: SparameterAssertionEditor) -> bool {
    &&& after.scenario@ == default_scenario(choice_names(choices), before.scenario@)
    &&& after.metric@ == offered_or(
        sparameter_metric_options_list(),
        before.metric@,
        "return_loss_db"@
    )
    &&& after.name@ == name_or(
        before.name@,
        default_sparameter_assertion_name_for(after.metric@)
    )
    &&& after.parameter@ == name_or(
        before.parameter@,
        default_sparameter_parameter_for(after.metric@)
    )
    &&& after.aggregation@ == (if before.aggregation@ == "min"@ || before.aggregation@ == "max"@ {
        before.aggregation@
    } else {
        default_sparameter_aggregation_for(after.metric@)
    })
    &&& after.relation@ == relation_or(
        before.relation@,
        default_sparameter_relation_for(after.metric@)
    )
}

/// Fills in the S-parameter check editor: an offered run setup, a known metric, then a
/// name, a parameter, an aggregation (`min` or `max`) and a relation from the metric.
pub fn initialize_sparameter_assertion_defaults(
    choices: &Vec<AnalogScenarioChoice>,
    editor: &mut SparameterAssertionEditor,
)
    ensures
        sparameter_defaults(choices@, *old(editor), *final(editor)),
{
    apply_default_scenario(choices, &mut editor.scenario);
    let options = sparameter_metric_options();
    apply_offered(&options, &mut editor.metric, "return_loss_db");
    let name = default_sparameter_assertion_name(editor.metric.as_str());
    apply_name(&mut editor.name, name);
    let parameter = default_sparameter_parameter(editor.metric.as_str());
    apply_name(&mut editor.parameter, parameter);
    if !(text_eq(editor.aggregation.as_str(), "min") || text_eq(editor.aggregation.as_str(), "max")) {
        editor.aggregation = str_to_string(default_sparameter_aggregation(editor.metric.as_str()));
    }
    let relation = default_sparameter_relation(editor.metric.as_str());
    apply_relation(&mut editor.relation, relation);
}

/// The text settings of the RF noise check editor.
pub struct SparameterNoiseAssertionEditor {
    pub scenario: String,
    pub metric: String,
    pub relation: String,
    pub name: String,
}

impl SparameterNoiseAssertionEditor {
    /// Switches the editor to an RF noise metric preset: the metric with its check name and
    /// relation.
    pub fn apply_sparameter_noise_preset(&mut self, metric: &str)
        ensures
            final(self).scenario == old(self).scenario,
            final(self).metric@ == metric@,
            final(self).name@ == default_sparameter_noise_assertion_name_for(metric@),
            final(self).relation@ == "below"@,
    {
        self.metric = str_to_string(metric);
        self.name = str_to_string(default_sparameter_noise_assertion_name(metric));
        self.relation = str_to_string(default_sparameter_noise_relation(metric));
    }
}

/// What filling in the RF noise check editor gives: `after` is `before` with its defaults applied.
pub open spec fn sparameter_noise_defaults(choices: Seq<AnalogScenarioChoice>, before: SparameterNoiseAssertionEditor, after: SparameterNoiseAssertionEditor) -> bool {
    &&& after.scenario@ == default_scenario(choice_names(choices), before.scenario@)
    &&& after.metric@ == offered_or(
        sparameter_noise_metric_options_list(),
        before.metric@,
        "noise_figure_db_max"@
    )
    &&& after.relation@ == relation_or(before.relation@, "below"@)
    &&& after.name@ == name_or(
        before.name@,
        default_sparameter_noise_assertion_name_for(after.metric@)
    )
}

/// Fills in the RF noise check editor: an offered run setup, a known metric, a relation and
/// a name.
pub fn initialize_sparameter_noise_assertion_defaults(
    choices: &Vec<AnalogScenarioChoice>,
    editor: &mut SparameterNoiseAssertionEditor,
)
    ensures
        sparameter_noise_defaults(choices@, *old(editor), *final(editor)),
{
    apply_default_scenario(choices, &mut editor.scenario);
    let options = sparameter_noise_metric_options();
    apply_offered(&options, &mut editor.metric, "noise_figure_db_max");
    let relation = default_sparameter_noise_relation(editor.metric.as_str());
    apply_relation(&mut editor.relation, relation);
    let name = default_sparameter_noise_assertion_name(editor.metric.as_str());
    apply_name(&mut editor.name, name);
}

/// The text settings of the transfer-function check editor.
pub struct TransferFunctionAssertionEditor {
    pub scenario: String,
    pub metric: String,
    pub relation: String,
    pub name: String,
}

impl TransferFunctionAssertionEditor {
    /// Switches the editor to a transfer-function metric preset: the metric with its check
    /// name and relation.
    pub fn apply_transfer_function_preset(&mut self, metric: &str)
        ensures
            final(self).scenario == old(self).scenario,
            final(self).metric@ == metric@,
            final(self).name@ == default_transfer_function_assertion_name_for(metric@),
            final(self).relation@ == default_transfer_function_relation_for(metric@),
    {
        self.metric = str_to_string(metric);
        self.name = str_to_string(default_transfer_function_assertion_name(metric));
        self.relation = str_to_string(default_transfer_function_relation(metric));
    }
}

/// What filling in the transfer-function check editor gives: `after` is `before` with its defaults applied.
pub open spec fn transfer_function_defaults(choices: Seq<AnalogScenarioChoice>, before: TransferFunctionAssertionEditor, after: TransferFunctionAssertionEditor) -> bool {
    &&& after.scenario@ == default_scenario(choice_names(choices), before.scenario@)
    &&& after.metric@ == offered_or(
        transfer_function_metric_options_list(),
        before.metric@,
        "transfer_function_gain"@
    )
    &&& after.relation@ == relation_or(
        before.relation@,
        default_transfer_function_relation_for(after.metric@)
    )
    &&& after.name@ == name_or(
        before.name@,
        default_transfer_function_assertion_name_for(after.metric@)
    )
}

/// Fills in the transfer-function check editor: an offered run setup, a known metric, a
/// relation and a name.
pub fn initialize_transfer_function_assertion_defaults(
    choices: &Vec<AnalogScenarioChoice>,
    editor: &mut TransferFunctionAssertionEditor,
)
    ensures
        transfer_function_defaults(choices@, *old(editor), *final(editor)),
{
    apply_default_scenario(choices, &mut editor.scenario);
    let options = transfer_function_metric_options();
    apply_offered(&options, &mut editor.metric, "transfer_function_gain");
    let relation = default_transfer_function_relation(editor.metric.as_str());
    apply_relation(&mut editor.relation, relation);
    let name = default_transfer_function_assertion_name(editor.metric.as_str());
    apply_name(&mut editor.name, name);
}

/// The text settings of the measure check editor.
pub struct MeasureAssertionEditor {
    pub scenario: String,
    pub measurement: String,
    pub relation: String,
    pub name: String,
}

impl MeasureAssertionEditor {
    /// Switches the editor to a relation preset; a blank check name is named after the
    /// measurement.
    pub fn apply_measure_preset(&mut self, relation: &str)
        ensures
            final(self).scenario == old(self).scenario,
            final(self).measurement == old(self).measurement,
            final(self).relation@ == relation@,
            final(self).name@ == (if trim(old(self).name@).len() == 0 {
                below_limit_name(old(self).measurement@, "measure_below_limit"@)
            } else {
                old(self).name@
            }),
    {
        self.relation = str_to_string(relation);
        if char_len(trim_str(self.name.as_str()).as_str()) == 0 {
            self.name = default_measure_assertion_name(self.measurement.as_str());
        }
    }
}

/// What filling in the measure check editor gives: `after` is `before` with its defaults applied.
pub open spec fn measure_defaults(choices: Seq<AnalogScenarioChoice>, before: MeasureAssertionEditor, after: MeasureAssertionEditor) -> bool {
    &&& after.scenario@ == default_scenario(choice_names(choices), before.scenario@)
    &&& after.measurement@ == name_or(before.measurement@, "avg_out"@)
    &&& after.relation@ == relation_or(before.relation@, "below"@)
    &&& after.name@ == name_or(
        before.name@,
        below_limit_name(after.measurement@, "measure_below_limit"@)
    )
}

/// Fills in the measure check editor: an offered run setup, a measurement (`avg_out` when
/// blank), a relation (`below`) and a name from the measurement.
pub fn initialize_measure_assertion_defaults(
    choices: &Vec<AnalogScenarioChoice>,
    editor: &mut MeasureAssertionEditor,
)
    ensures
        measure_defaults(choices@, *old(editor), *final(editor)),
{
    apply_default_scenario(choices, &mut editor.scenario);
    apply_name(&mut editor.measurement, "avg_out");
    apply_relation(&mut editor.relation, "below");
    let name = default_measure_assertion_name(editor.measurement.as_str());
    apply_name(&mut editor.name, name.as_str());
}

/// The text settings of the distortion check editor.
pub struct DistortionAssertionEditor {
    pub scenario: String,
    pub component: String,
    pub relation: String,
    pub name: String,
}

impl DistortionAssertionEditor {
    /// Switches the editor to a distortion component preset with its check name; the
    /// relation becomes `below`.
    pub fn apply_distortion_preset(&mut self, component: &str, name: &str)
        ensures
            final(self).scenario == old(self).scenario,
            final(self).component@ == component@,
            final(self).name@ == name@,
            final(self).relation@ == "below"@,
    {
        self.component = str_to_string(component);
        self.name = str_to_string(name);
        self.relation = str_to_string("below");
    }
}

/// What filling in the distortion check editor gives: `after` is `before` with its defaults applied.
pub open spec fn distortion_defaults(choices: Seq<AnalogScenarioChoice>, before: DistortionAssertionEditor, after: DistortionAssertionEditor) -> bool {
    &&& after.scenario@ == default_scenario(choice_names(choices), before.scenario@)
    &&& after.component@ == name_or(before.component@, "im_f1_plus_f2"@)
    &&& after.relation@ == relation_or(before.relation@, "below"@)
    &&& after.name@ == name_or(
        before.name@,
        below_limit_name(after.component@, "distortion_below_limit"@)
    )
}

/// Fills in the distortion check editor: an offered run setup, a component
/// (`im_f1_plus_f2` when blank), a relation (`below`) and a name from the component.
pub fn initialize_distortion_assertion_defaults(
    choices: &Vec<AnalogScenarioChoice>,
    editor: &mut DistortionAssertionEditor,
)
    ensures
        distortion_defaults(choices@, *old(editor), *final(editor)),
{
    apply_default_scenario(choices, &mut editor.scenario);
    apply_name(&mut editor.component, "im_f1_plus_f2");
    apply_relation(&mut editor.relation, "below");
    let name = default_distortion_assertion_name(editor.component.as_str());
    apply_name(&mut editor.name, name.as_str());
}

/// The text settings of the S-parameter network check editor.
pub struct SparameterNetworkAssertionEditor {
    pub scenario: String,
    pub name: String,
    pub metric: String,
    pub relation: String,
    pub source_reflection_enabled: bool,
    pub load_reflection_enabled: bool,
}

impl SparameterNetworkAssertionEditor {
    /// After the metric changed from `previous_metric`: a blank check name, or the one the
    /// previous metric suggested, is renamed after the new metric; the relation follows the
    /// new metric; and the source and load reflection rows are switched on when the new
    /// metric needs them.
    pub fn apply_sparameter_network_metric_defaults(&mut self, previous_metric: &str)
        ensures
            final(self).scenario == old(self).scenario,
            final(self).metric == old(self).metric,
            final(self).name@ == (if trim(old(self).name@).len() == 0 || old(self).name@
                == default_sparameter_network_assertion_name_for(previous_metric@) {
                default_sparameter_network_assertion_name_for(old(self).metric@)
            } else {
                old(self).name@
            }),
            final(self).relation@ == default_sparameter_network_relation_for(old(self).metric@),
            final(self).source_reflection_enabled == (old(self).source_reflection_enabled || old(
                self,
            ).metric@ == "transducer_gain_db_min"@ || old(self).metric@ == "available_gain_db_min"@),
            final(self).load_reflection_enabled == (old(self).load_reflection_enabled || old(
                self,
            ).metric@ == "transducer_gain_db_min"@ || old(self).metric@ == "operating_gain_db_min"@),
    {
        if char_len(trim_str(self.name.as_str()).as_str()) == 0 || text_eq(
            self.name.as_str(),
            default_sparameter_network_assertion_name(previous_metric),
        ) {
            self.name = str_to_string(default_sparameter_network_assertion_name(self.metric.as_str()));
        }
        self.relation = str_to_string(default_sparameter_network_relation(self.metric.as_str()));
        if sparameter_network_metric_requires_source_reflection(self.metric.as_str()) {
            self.source_reflection_enabled = true;
        }
        if sparameter_network_metric_requires_load_reflection(self.metric.as_str()) {
            self.load_reflection_enabled = true;
        }
    }
}

/// What filling in the S-parameter network check editor gives: `after` is `before` with
/// its defaults applied.
pub open spec fn sparameter_network_defaults(
    choices: Seq<AnalogScenarioChoice>,
    before: SparameterNetworkAssertionEditor,
    after: SparameterNetworkAssertionEditor,
) -> bool {
    &&& after.scenario@ == default_scenario(choice_names(choices), before.scenario@)
    &&& after.metric@ == offered_or(sparameter_network_metric_options_list(), before.metric@, "rollet_k_min"@)
    &&& after.relation@ == relation_or(before.relation@, default_sparameter_network_relation_for(after.metric@))
    &&& after.name@ == name_or(before.name@, default_sparameter_network_assertion_name_for(after.metric@))
    &&& after.source_reflection_enabled == before.source_reflection_enabled
    &&& after.load_reflection_enabled == before.load_reflection_enabled
}

/// Fills in the S-parameter network check editor: an offered run setup, a known metric
/// (`rollet_k_min` otherwise), a relation and a name from the metric.
pub fn initialize_sparameter_network_assertion_defaults(
    choices: &Vec<AnalogScenarioChoice>,
    editor: &mut SparameterNetworkAssertionEditor,
)
    ensures
        sparameter_network_defaults(choices@, *old(editor), *final(editor)),
{
    apply_default_scenario(choices, &mut editor.scenario);
    let options = sparameter_network_metric_options();
    apply_offered(&options, &mut editor.metric, "rollet_k_min");
    let relation = default_sparameter_network_relation(editor.metric.as_str());
    apply_relation(&mut editor.relation, relation);
    let name = default_sparameter_network_assertion_name(editor.metric.as_str());
    apply_name(&mut editor.name, name);
}

/// The text settings of the DC sweep check editor.
pub struct DcSweepAssertionEditor {
    pub scenario: String,
    pub probe: String,
    pub aggregation: String,
    pub relation: String,
    pub name: String,
}

impl DcSweepAssertionEditor {
    /// Switches the editor to an aggregation and relation preset; a blank check name, or
    /// one that ends in `_limit`, is renamed after the probe, aggregation and relation.
    pub fn apply_dc_sweep_preset(&mut self, aggregation: &str, relation: &str)
        ensures
            final(self).scenario == old(self).scenario,
            final(self).probe == old(self).probe,
            final(self).aggregation@ == aggregation@,
            final(self).relation@ == relation@,
            final(self).name@ == (if trim(old(self).name@).len() == 0 || ends_with(
                trim(old(self).name@),
                "_limit"@,
            ) {
                dc_sweep_name(old(self).probe@, aggregation@, relation@)
            } else {
                old(self).name@
            }),
    {
        self.aggregation = str_to_string(aggregation);
        self.relation = str_to_string(relation);
        let t = trim_str(self.name.as_str());
        if char_len(t.as_str()) == 0 || str_ends_with(t.as_str(), "_limit") {
            self.name = default_dc_sweep_assertion_name(self.probe.as_str(), aggregation, relation);
        }
    }
}

/// The aggregations a DC sweep check knows.
pub open spec fn dc_aggregation_ok(a: Seq<char>) -> bool {
    a == "min"@ || a == "max"@ || a == "mean"@ || a == "sample"@
}

/// Whether the editor's run setup is replaced by the first offered one.
pub open spec fn dc_scenario_replaced(choices: Seq<AnalogScenarioChoice>, scenario: Seq<char>) -> bool {
    (scenario.len() == 0 || !choice_names(choices).contains(scenario)) && choices.len() > 0
}

/// What filling in the DC sweep check editor gives: `after` is `before` with its defaults applied.
pub open spec fn dc_sweep_defaults(choices: Seq<AnalogScenarioChoice>, before: DcSweepAssertionEditor, after: DcSweepAssertionEditor) -> bool {
    &&& after.scenario@ == default_scenario(choice_names(choices), before.scenario@)
    &&& after.probe@ == name_or(
        if dc_scenario_replaced(choices, before.scenario@) && choices[0].probes@.len() > 0 {
            choices[0].probes@[0].name@
        } else {
            before.probe@
        },
        "out_voltage"@
    )
    &&& after.aggregation@ == (if dc_aggregation_ok(before.aggregation@) {
        before.aggregation@
    } else {
        "max"@
    })
    &&& after.relation@ == relation_or(before.relation@, "below"@)
    &&& after.name@ == name_or(
        before.name@,
        dc_sweep_name(after.probe@, after.aggregation@, after.relation@)
    )
}

/// Fills in the DC sweep check editor: an offered run setup (taking that setup's first
/// probe when the setup is replaced), a probe (`out_voltage` when blank), an aggregation
/// (`max`), a relation (`below`) and a name from probe, aggregation and relation.
pub fn initialize_dc_sweep_assertion_defaults(
    choices: &Vec<AnalogScenarioChoice>,
    editor: &mut DcSweepAssertionEditor,
)
    ensures
        dc_sweep_defaults(choices@, *old(editor), *final(editor)),
{
    let missing = !contains_choice(choices, editor.scenario.as_str());
    if (char_len(editor.scenario.as_str()) == 0 || missing) && choices.len() > 0 {
        editor.scenario = str_to_string(choices[0].name.as_str());
        if choices[0].probes.len() > 0 {
            editor.probe = str_to_string(choices[0].probes[0].name.as_str());
        }
    }
    apply_name(&mut editor.probe, "out_voltage");
    let a = editor.aggregation.as_str();
    if !(text_eq(a, "min") || text_eq(a, "max") || text_eq(a, "mean") || text_eq(a, "sample")) {
        editor.aggregation = str_to_string("max");
    }
    apply_relation(&mut editor.relation, "below");
    let name = default_dc_sweep_assertion_name(
        editor.probe.as_str(),
        editor.aggregation.as_str(),
        editor.relation.as_str(),
    );
    apply_name(&mut editor.name, name.as_str());
}

// ---------------------------------------------------------------------------------------
// The probe check editor
// ---------------------------------------------------------------------------------------

/// The probe names of a run setup choice.
pub open spec fn choice_probe_names(c: AnalogScenarioChoice) -> Seq<Seq<char>> {
    c.probes@.map_values(|p: crate::analog::AnalogProbeChoice| p.name@)
}

/// The run setup a probe check reads its probes from: the first one named `scenario`,
/// else the first one.
pub open spec fn assertion_scenario_index(choices: Seq<AnalogScenarioChoice>, scenario: Seq<char>) -> Option<int> {
    match find_first(choice_names(choices), scenario) {
        Some(i) => Some(i),
        None => if choices.len() > 0 {
            Some(0)
        } else {
            None
        },
    }
}

/// The probe a probe check editor shows: its own when set and offered by the run setup,
/// else the setup's first probe (or its own when the setup has none).
pub open spec fn probe_default(choices: Seq<AnalogScenarioChoice>, scenario: Seq<char>, probe: Seq<char>) -> Seq<char> {
    match assertion_scenario_index(choices, scenario) {
        Some(i) => {
            let pn = choice_probe_names(choices[i]);
            if (probe.len() == 0 || !pn.contains(probe)) && pn.len() > 0 {
                pn[0]
            } else {
                probe
            }
        },
        None => probe,
    }
}

fn find_choice(choices: &Vec<AnalogScenarioChoice>, name: &str) -> (r: Option<usize>)
    ensures
        match r {
            Some(i) => find_first(choice_names(choices@), name@) == Some(i as int) && i < choices@.len(),
            None => find_first(choice_names(choices@), name@) is None,
        },
{
    let ghost b = choice_names(choices@).map_values(|x: Seq<char>| x == name@);
    let mut i: usize = 0;
    while i < choices.len()
        invariant
            b == choice_names(choices@).map_values(|x: Seq<char>| x == name@),
            i <= choices@.len(),
            forall|k: int| 0 <= k < i ==> !#[trigger] b[k],
        decreases choices@.len() - i,
    {
        if text_eq(choices[i].name.as_str(), name) {
            proof {
                lemma_first_true(b, i as int);
            }
            return Some(i);
        }
        i = i + 1;
    }
    proof {
        lemma_no_true(b);
    }
    None
}

fn probe_offered(c: &AnalogScenarioChoice, probe: &str) -> (r: bool)
    ensures
        r == choice_probe_names(*c).contains(probe@),
{
    let ghost pn = choice_probe_names(*c);
    let mut i: usize = 0;
    while i < c.probes.len()
        invariant
            pn == choice_probe_names(*c),
            i <= c.probes@.len(),
            forall|k: int| 0 <= k < i ==> #[trigger] pn[k] != probe@,
        decreases c.probes@.len() - i,
    {
        if text_eq(c.probes[i].name.as_str(), probe) {
            assert(pn[i as int] == probe@);
            return true;
        }
        i = i + 1;
    }
    assert(!pn.contains(probe@)) by {
        if pn.contains(probe@) {
            let k = choose|k: int| 0 <= k < pn.len() && pn[k] == probe@;
            assert(pn[k] != probe@);
        }
    }
    false
}

/// Fills in the run setup and probe of the probe check editor: an offered run setup, and a
/// probe that the setup offers.
pub fn initialize_analog_assertion_defaults(
    choices: &Vec<AnalogScenarioChoice>,
    scenario_name: &mut String,
    probe_name: &mut String,
)
    ensures
        final(scenario_name)@ == default_scenario(choice_names(choices@), old(scenario_name)@),
        final(probe_name)@ == probe_default(choices@, final(scenario_name)@, old(probe_name)@),
{
    apply_default_scenario(choices, scenario_name);
    let selected = match find_choice(choices, scenario_name.as_str()) {
        Some(i) => Some(i),
        None => if choices.len() > 0 {
            Some(0)
        } else {
            None
        },
    };
    if let Some(i) = selected {
        let c = &choices[i];
        let missing = !probe_offered(c, probe_name.as_str());
        if (char_len(probe_name.as_str()) == 0 || missing) && c.probes.len() > 0 {
            *probe_name = str_to_string(c.probes[0].name.as_str());
        }
    }
}

// ---------------------------------------------------------------------------------------
// Filling in an editor a second time
// ---------------------------------------------------------------------------------------

proof fn lemma_default_scenario_settles(names: Seq<Seq<char>>, current: Seq<char>)
    ensures
        default_scenario(names, default_scenario(names, current)) == default_scenario(names, current),
{
    if names.len() > 0 {
        assert(names.contains(names[0]));
    }
}

proof fn lemma_name_or_settles(name: Seq<char>, fallback: Seq<char>)
    ensures
        name_or(name_or(name, fallback), fallback) == name_or(name, fallback),
{
}

proof fn lemma_relation_or_settles(relation: Seq<char>, fallback: Seq<char>)
    ensures
        relation_or(relation_or(relation, fallback), fallback) == relation_or(relation, fallback),
{
}

proof fn lemma_offered_or_settles(options: Seq<(Seq<char>, Seq<char>)>, metric: Seq<char>, fallback: Seq<char>)
    ensures
        offered_or(options, offered_or(options, metric, fallback), fallback) == offered_or(
            options,
            metric,
            fallback,
        ),
{
}

/// Filling in the Fourier check editor a second time changes nothing.
pub proof fn law_fourier_defaults_settle(
    choices: Seq<AnalogScenarioChoice>,
    first: FourierAssertionEditor,
    once: FourierAssertionEditor,
    twice: FourierAssertionEditor,
)
    requires
        fourier_defaults(choices, first, once),
        fourier_defaults(choices, once, twice),
    ensures
        twice.scenario@ == once.scenario@,
        twice.metric@ == once.metric@,
        twice.relation@ == once.relation@,
        twice.name@ == once.name@,
        twice.harmonic == once.harmonic,
{
    lemma_default_scenario_settles(choice_names(choices), first.scenario@);
    lemma_offered_or_settles(fourier_metric_options_list(), first.metric@, "normalized_magnitude"@);
    lemma_relation_or_settles(first.relation@, default_fourier_relation_for(once.metric@));
    lemma_name_or_settles(first.name@, default_fourier_assertion_name_for(once.metric@));
}

/// Filling in the pole-zero check editor a second time changes nothing.
pub proof fn law_pole_zero_defaults_settle(
    choices: Seq<AnalogScenarioChoice>,
    first: PoleZeroAssertionEditor,
    once: PoleZeroAssertionEditor,
    twice: PoleZeroAssertionEditor,
)
    requires
        pole_zero_defaults(choices, first, once),
        pole_zero_defaults(choices, once, twice),
    ensures
        twice.scenario@ == once.scenario@,
        twice.root_kind@ == once.root_kind@,
        twice.root_index_enabled == once.root_index_enabled,
        twice.root_index == once.root_index,
        twice.metric@ == once.metric@,
        twice.relation@ == once.relation@,
        twice.name@ == once.name@,
{
    lemma_default_scenario_settles(choice_names(choices), first.scenario@);
    lemma_offered_or_settles(pole_zero_metric_options_list(), first.metric@, "real_rad_per_s"@);
    lemma_relation_or_settles(first.relation@, default_pole_zero_relation_for(once.metric@));
    lemma_name_or_settles(first.name@, default_pole_zero_assertion_name_for(once.metric@));
}

/// Filling in the sensitivity check editor a second time changes nothing.
pub proof fn law_sensitivity_defaults_settle(
    choices: Seq<AnalogScenarioChoice>,
    first: SensitivityAssertionEditor,
    once: SensitivityAssertionEditor,
    twice: SensitivityAssertionEditor,
)
    requires
        sensitivity_defaults(choices, first, once),
        sensitivity_defaults(choices, once, twice),
    ensures
        twice.scenario@ == once.scenario@,
        twice.parameter@ == once.parameter@,
        twice.metric@ == once.metric@,
        twice.relation@ == once.relation@,
        twice.name@ == once.name@,
{
    lemma_default_scenario_settles(choice_names(choices), first.scenario@);
    lemma_name_or_settles(first.parameter@, "R1"@);
    lemma_offered_or_settles(sensitivity_metric_options_list(), first.metric@, "sensitivity_magnitude"@);
    lemma_relation_or_settles(first.relation@, "below"@);
    lemma_name_or_settles(first.name@, default_sensitivity_assertion_name_for(once.metric@));
}

/// Filling in the S-parameter check editor a second time changes nothing.
pub proof fn law_sparameter_defaults_settle(
    choices: Seq<AnalogScenarioChoice>,
    first: SparameterAssertionEditor,
    once: SparameterAssertionEditor,
    twice: SparameterAssertionEditor,
)
    requires
        sparameter_defaults(choices, first, once),
        sparameter_defaults(choices, once, twice),
    ensures
        twice.scenario@ == once.scenario@,
        twice.metric@ == once.metric@,
        twice.name@ == once.name@,
        twice.parameter@ == once.parameter@,
        twice.aggregation@ == once.aggregation@,
        twice.relation@ == once.relation@,
{
    lemma_default_scenario_settles(choice_names(choices), first.scenario@);
    lemma_offered_or_settles(sparameter_metric_options_list(), first.metric@, "return_loss_db"@);
    lemma_name_or_settles(first.name@, default_sparameter_assertion_name_for(once.metric@));
    lemma_name_or_settles(first.parameter@, default_sparameter_parameter_for(once.metric@));
    lemma_relation_or_settles(first.relation@, default_sparameter_relation_for(once.metric@));
}

/// Filling in the RF noise check editor a second time changes nothing.
pub proof fn law_sparameter_noise_defaults_settle(
    choices: Seq<AnalogScenarioChoice>,
    first: SparameterNoiseAssertionEditor,
    once: SparameterNoiseAssertionEditor,
    twice: SparameterNoiseAssertionEditor,
)
    requires
        sparameter_noise_defaults(choices, first, once),
        sparameter_noise_defaults(choices, once, twice),
    ensures
        twice.scenario@ == once.scenario@,
        twice.metric@ == once.metric@,
        twice.relation@ == once.relation@,
        twice.name@ == once.name@,
{
    lemma_default_scenario_settles(choice_names(choices), first.scenario@);
    lemma_offered_or_settles(sparameter_noise_metric_options_list(), first.metric@, "noise_figure_db_max"@);
    lemma_relation_or_settles(first.relation@, "below"@);
    lemma_name_or_settles(first.name@, default_sparameter_noise_assertion_name_for(once.metric@));
}

/// Filling in the transfer-function check editor a second time changes nothing.
pub proof fn law_transfer_function_defaults_settle(
    choices: Seq<AnalogScenarioChoice>,
    first: TransferFunctionAssertionEditor,
    once: TransferFunctionAssertionEditor,
    twice: TransferFunctionAssertionEditor,
)
    requires
        transfer_function_defaults(choices, first, once),
        transfer_function_defaults(choices, once, twice),
    ensures
        twice.scenario@ == once.scenario@,
        twice.metric@ == once.metric@,
        twice.relation@ == once.relation@,
        twice.name@ == once.name@,
{
    lemma_default_scenario_settles(choice_names(choices), first.scenario@);
    lemma_offered_or_settles(transfer_function_metric_options_list(), first.metric@, "transfer_function_gain"@);
    lemma_relation_or_settles(first.relation@, default_transfer_function_relation_for(once.metric@));
    lemma_name_or_settles(first.name@, default_transfer_function_assertion_name_for(once.metric@));
}

/// Filling in the measure check editor a second time changes nothing.
pub proof fn law_measure_defaults_settle(
    choices: Seq<AnalogScenarioChoice>,
    first: MeasureAssertionEditor,
    once: MeasureAssertionEditor,
    twice: MeasureAssertionEditor,
)
    requires
        measure_defaults(choices, first, once),
        measure_defaults(choices, once, twice),
    ensures
        twice.scenario@ == once.scenario@,
        twice.measurement@ == once.measurement@,
        twice.relation@ == once.relation@,
        twice.name@ == once.name@,
{
    lemma_default_scenario_settles(choice_names(choices), first.scenario@);
    lemma_name_or_settles(first.measurement@, "avg_out"@);
    lemma_relation_or_settles(first.relation@, "below"@);
    lemma_name_or_settles(first.name@, below_limit_name(once.measurement@, "measure_below_limit"@));
}

/// Filling in the distortion check editor a second time changes nothing.
pub proof fn law_distortion_defaults_settle(
    choices: Seq<AnalogScenarioChoice>,
    first: DistortionAssertionEditor,
    once: DistortionAssertionEditor,
    twice: DistortionAssertionEditor,
)
    requires
        distortion_defaults(choices, first, once),
        distortion_defaults(choices, once, twice),
    ensures
        twice.scenario@ == once.scenario@,
        twice.component@ == once.component@,
        twice.relation@ == once.relation@,
        twice.name@ == once.name@,
{
    lemma_default_scenario_settles(choice_names(choices), first.scenario@);
    lemma_name_or_settles(first.component@, "im_f1_plus_f2"@);
    lemma_relation_or_settles(first.relation@, "below"@);
    lemma_name_or_settles(first.name@, below_limit_name(once.component@, "distortion_below_limit"@));
}

/// Filling in the S-parameter network check editor a second time changes nothing.
pub proof fn law_sparameter_network_defaults_settle(
    choices: Seq<AnalogScenarioChoice>,
    first: SparameterNetworkAssertionEditor,
    once: SparameterNetworkAssertionEditor,
    twice: SparameterNetworkAssertionEditor,
)
    requires
        sparameter_network_defaults(choices, first, once),
        sparameter_network_defaults(choices, once, twice),
    ensures
        twice.scenario@ == once.scenario@,
        twice.metric@ == once.metric@,
        twice.relation@ == once.relation@,
        twice.name@ == once.name@,
{
    lemma_default_scenario_settles(choice_names(choices), first.scenario@);
    lemma_offered_or_settles(sparameter_network_metric_options_list(), first.metric@, "rollet_k_min"@);
    lemma_relation_or_settles(first.relation@, default_sparameter_network_relation_for(once.metric@));
    lemma_name_or_settles(first.name@, default_sparameter_network_assertion_name_for(once.metric@));
}

/// Filling in the DC sweep check editor a second time changes nothing.
pub proof fn law_dc_sweep_defaults_settle(
    choices: Seq<AnalogScenarioChoice>,
    first: DcSweepAssertionEditor,
    once: DcSweepAssertionEditor,
    twice: DcSweepAssertionEditor,
)
    requires
        dc_sweep_defaults(choices, first, once),
        dc_sweep_defaults(choices, once, twice),
    ensures
        twice.scenario@ == once.scenario@,
        twice.probe@ == once.probe@,
        twice.aggregation@ == once.aggregation@,
        twice.relation@ == once.relation@,
        twice.name@ == once.name@,
{
    let names = choice_names(choices);
    lemma_default_scenario_settles(names, first.scenario@);
    if choices.len() > 0 {
        assert(names[0] == choices[0].name@);
        assert(names.contains(names[0]));
    }
    lemma_relation_or_settles(first.relation@, "below"@);
    lemma_name_or_settles(
        first.name@,
        dc_sweep_name(once.probe@, once.aggregation@, once.relation@),
    );
}

// ---------------------------------------------------------------------------------------
// Lookups
// ---------------------------------------------------------------------------------------

/// `i` is the first position where `b` holds.
pub open spec fn is_first_true(b: Seq<bool>, i: int) -> bool {
    0 <= i < b.len() && b[i] && forall|k: int| 0 <= k < i ==> !#[trigger] b[k]
}

/// The first position where `b` holds.
pub open spec fn first_true(b: Seq<bool>) -> Option<int> {
    if exists|i: int| is_first_true(b, i) {
        Some(choose|i: int| is_first_true(b, i))
    } else {
        None
    }
}

pub proof fn lemma_first_true(b: Seq<bool>, i: int)
    requires
        is_first_true(b, i),
    ensures
        first_true(b) == Some(i),
{
    let j = choose|j: int| is_first_true(b, j);
    if j < i {
        assert(!b[j]);
    } else if j > i {
        assert(!b[i]);
    }
}

pub proof fn lemma_no_true(b: Seq<bool>)
    requires
        forall|k: int| 0 <= k < b.len() ==> !#[trigger] b[k],
    ensures
        first_true(b) is None,
{
    if exists|i: int| is_first_true(b, i) {
        let i = choose|i: int| is_first_true(b, i);
        assert(!b[i]);
    }
}

/// The first position of name `n`.
pub open spec fn find_first(names: Seq<Seq<char>>, n: Seq<char>) -> Option<int> {
    first_true(names.map_values(|x: Seq<char>| x == n))
}

/// A sweep of a run setup.
pub struct AnalogSweepSummary {
    pub name: String,
}

/// A run setup with its sweeps.
pub struct AnalogSweepScenario {
    pub name: String,
    pub sweeps: Vec<AnalogSweepSummary>,
}

pub open spec fn sweep_scenario_names(s: Seq<AnalogSweepScenario>) -> Seq<Seq<char>> {
    s.map_values(|x: AnalogSweepScenario| x.name@)
}

pub open spec fn sweep_names(s: Seq<AnalogSweepSummary>) -> Seq<Seq<char>> {
    s.map_values(|x: AnalogSweepSummary| x.name@)
}

/// The first run setup named `selected_scenario`.
pub fn selected_analog_sweep_scenario<'a>(
    scenarios: &'a Vec<AnalogSweepScenario>,
    selected_scenario: &str,
) -> (r: Option<&'a AnalogSweepScenario>)
    ensures
        match r {
            Some(s) => find_first(sweep_scenario_names(scenarios@), selected_scenario@) matches Some(i)
                && *s == scenarios@[i],
            None => find_first(sweep_scenario_names(scenarios@), selected_scenario@) is None,
        },
{
    let ghost b = sweep_scenario_names(scenarios@).map_values(|x: Seq<char>| x == selected_scenario@);
    let mut i: usize = 0;
    while i < scenarios.len()
        invariant
            b == sweep_scenario_names(scenarios@).map_values(|x: Seq<char>| x == selected_scenario@),
            i <= scenarios@.len(),
            forall|k: int| 0 <= k < i ==> !#[trigger] b[k],
        decreases scenarios@.len() - i,
    {
        if text_eq(scenarios[i].name.as_str(), selected_scenario) {
            proof {
                lemma_first_true(b, i as int);
            }
            return Some(&scenarios[i]);
        }
        i = i + 1;
    }
    proof {
        lemma_no_true(b);
    }
    None
}

/// The sweep named `selected_sweep` of the run setup named `selected_scenario`.
pub fn selected_analog_sweep<'a>(
    scenarios: &'a Vec<AnalogSweepScenario>,
    selected_scenario: &str,
    selected_sweep: &str,
) -> (r: Option<&'a AnalogSweepSummary>)
    ensures
        match find_first(sweep_scenario_names(scenarios@), selected_scenario@) {
            None => r is None,
            Some(i) => match r {
                Some(w) => find_first(sweep_names(scenarios@[i].sweeps@), selected_sweep@) matches Some(j)
                    && *w == scenarios@[i].sweeps@[j],
                None => find_first(sweep_names(scenarios@[i].sweeps@), selected_sweep@) is None,
            },
        },
{
    let scenario = match selected_analog_sweep_scenario(scenarios, selected_scenario) {
        Some(s) => s,
        None => return None,
    };
    let ghost i0 = find_first(sweep_scenario_names(scenarios@), selected_scenario@)->0;
    let ghost b = sweep_names(scenario.sweeps@).map_values(|x: Seq<char>| x == selected_sweep@);
    let mut j: usize = 0;
    while j < scenario.sweeps.len()
        invariant
            find_first(sweep_scenario_names(scenarios@), selected_scenario@) == Some(i0),
            *scenario == scenarios@[i0],
            b == sweep_names(scenario.sweeps@).map_values(|x: Seq<char>| x == selected_sweep@),
            j <= scenario.sweeps@.len(),
            forall|k: int| 0 <= k < j ==> !#[trigger] b[k],
        decreases scenario.sweeps@.len() - j,
    {
        if text_eq(scenario.sweeps[j].name.as_str(), selected_sweep) {
            proof {
                lemma_first_true(b, j as int);
            }
            return Some(&scenario.sweeps[j]);
        }
        j = j + 1;
    }
    proof {
        lemma_no_true(b);
    }
    None
}

/// The run setup a sweep editor shows: its own when set and offered, else the first.
pub open spec fn sweep_scenario_default(names: Seq<Seq<char>>, current: Seq<char>) -> Seq<char> {
    if (trim(current).len() == 0 || !names.contains(current)) && names.len() > 0 {
        names[0]
    } else {
        current
    }
}

/// The sweep a sweep editor shows: its own when set and offered (or when the setup has no
/// sweeps), else the setup's first sweep.
pub open spec fn sweep_default(sweeps: Seq<Seq<char>>, current: Seq<char>) -> Seq<char> {
    if (trim(current).len() == 0 || (sweeps.len() > 0 && !sweeps.contains(current))) && sweeps.len() > 0 {
        sweeps[0]
    } else {
        current
    }
}

fn contains_text(names: &Vec<String>, name: &str) -> (r: bool)
    ensures
        r == crate::naming::names(names@).contains(name@),
{
    crate::naming::contains_name(names, name)
}

/// Points the sweep editor at an offered run setup and one of its sweeps.
pub fn initialize_analog_sweep_defaults(
    scenarios: &Vec<AnalogSweepScenario>,
    selected_scenario: &mut String,
    selected_sweep: &mut String,
)
    ensures
        final(selected_scenario)@ == sweep_scenario_default(
            sweep_scenario_names(scenarios@),
            old(selected_scenario)@,
        ),
        final(selected_sweep)@ == (match find_first(
            sweep_scenario_names(scenarios@),
            final(selected_scenario)@,
        ) {
            None => old(selected_sweep)@,
            Some(i) => sweep_default(sweep_names(scenarios@[i].sweeps@), old(selected_sweep)@),
        }),
{
    let mut names: Vec<String> = Vec::new();
    let mut i: usize = 0;
    while i < scenarios.len()
        invariant
            i <= scenarios@.len(),
            crate::naming::names(names@) == sweep_scenario_names(scenarios@).subrange(0, i as int),
        decreases scenarios@.len() - i,
    {
        let ghost before = names@;
        names.push(str_to_string(scenarios[i].name.as_str()));
        assert(crate::naming::names(names@) =~= crate::naming::names(before).push(scenarios@[i as int].name@));
        assert(sweep_scenario_names(scenarios@).subrange(0, i + 1) =~= sweep_scenario_names(scenarios@).subrange(0, i as int).push(scenarios@[i as int].name@));
        i = i + 1;
        assert(crate::naming::names(names@) =~= sweep_scenario_names(scenarios@).subrange(0, i as int));
    }
    assert(sweep_scenario_names(scenarios@).subrange(0, scenarios@.len() as int) =~= sweep_scenario_names(scenarios@));
    let stale = char_len(trim_str(selected_scenario.as_str()).as_str()) == 0 || !contains_text(
        &names,
        selected_scenario.as_str(),
    );
    if stale && scenarios.len() > 0 {
        *selected_scenario = str_to_string(scenarios[0].name.as_str());
    }
    let scenario = match selected_analog_sweep_scenario(scenarios, selected_scenario.as_str()) {
        Some(s) => s,
        None => return,
    };
    let mut sweeps: Vec<String> = Vec::new();
    let mut j: usize = 0;
    while j < scenario.sweeps.len()
        invariant
            j <= scenario.sweeps@.len(),
            crate::naming::names(sweeps@) == sweep_names(scenario.sweeps@).subrange(0, j as int),
        decreases scenario.sweeps@.len() - j,
    {
        let ghost before = sweeps@;
        sweeps.push(str_to_string(scenario.sweeps[j].name.as_str()));
        assert(crate::naming::names(sweeps@) =~= crate::naming::names(before).push(scenario.sweeps@[j as int].name@));
        assert(sweep_names(scenario.sweeps@).subrange(0, j + 1) =~= sweep_names(scenario.sweeps@).subrange(0, j as int).push(scenario.sweeps@[j as int].name@));
        j = j + 1;
        assert(crate::naming::names(sweeps@) =~= sweep_names(scenario.sweeps@).subrange(0, j as int));
    }
    assert(sweep_names(scenario.sweeps@).subrange(0, scenario.sweeps@.len() as int) =~= sweep_names(scenario.sweeps@));
    let sweep_stale = char_len(trim_str(selected_sweep.as_str()).as_str()) == 0 || (scenario.sweeps.len() > 0
        && !contains_text(&sweeps, selected_sweep.as_str()));
    if sweep_stale && scenario.sweeps.len() > 0 {
        *selected_sweep = str_to_string(scenario.sweeps[0].name.as_str());
    }
}

/// A board component of a generated netlist and whether the netlist includes it.
pub struct AnalogGeneratedComponent {
    pub id: String,
    pub included: bool,
}

/// A node binding: the node name and the net it stands for.
pub struct AnalogNodeBinding {
    pub node: String,
    pub net: String,
}

/// A net of the board and its kind.
pub struct AnalogBoardNet {
    pub id: String,
    pub kind: String,
}

/// A run setup that simulates a netlist generated from the board.
pub struct AnalogGeneratedScenario {
    pub name: String,
    pub ground_net: String,
    pub board_components: Vec<AnalogGeneratedComponent>,
    pub node_bindings: Vec<AnalogNodeBinding>,
    pub board_nets: Vec<AnalogBoardNet>,
}

pub open spec fn generated_names(s: Seq<AnalogGeneratedScenario>) -> Seq<Seq<char>> {
    s.map_values(|x: AnalogGeneratedScenario| x.name@)
}

/// The first generated-netlist run setup named `scenario_name`.
pub fn selected_generated_scenario<'a>(
    scenarios: &'a Vec<AnalogGeneratedScenario>,
    scenario_name: &str,
) -> (r: Option<&'a AnalogGeneratedScenario>)
    ensures
        match r {
            Some(s) => find_first(generated_names(scenarios@), scenario_name@) matches Some(i) && *s
                == scenarios@[i],
            None => find_first(generated_names(scenarios@), scenario_name@) is None,
        },
{
    let ghost b = generated_names(scenarios@).map_values(|x: Seq<char>| x == scenario_name@);
    let mut i: usize = 0;
    while i < scenarios.len()
        invariant
            b == generated_names(scenarios@).map_values(|x: Seq<char>| x == scenario_name@),
            i <= scenarios@.len(),
            forall|k: int| 0 <= k < i ==> !#[trigger] b[k],
        decreases scenarios@.len() - i,
    {
        if text_eq(scenarios[i].name.as_str(), scenario_name) {
            proof {
                lemma_first_true(b, i as int);
            }
            return Some(&scenarios[i]);
        }
        i = i + 1;
    }
    proof {
        lemma_no_true(b);
    }
    None
}

/// The component a generated-netlist editor shows: its own when set and on the board,
/// else the first component left out of the netlist, else the first component.
pub open spec fn component_default(components: Seq<AnalogGeneratedComponent>, current: Seq<char>) -> Seq<char> {
    let ids = components.map_values(|c: AnalogGeneratedComponent| c.id@);
    if current.len() == 0 || !ids.contains(current) {
        match first_true(components.map_values(|c: AnalogGeneratedComponent| !c.included)) {
            Some(k) => ids[k],
            None => if components.len() > 0 {
                ids[0]
            } else {
                current
            },
        }
    } else {
        current
    }
}

/// Points a generated-netlist editor at an offered run setup and one of its components.
pub fn initialize_generated_component_defaults(
    scenarios: &Vec<AnalogGeneratedScenario>,
    scenario_name: &mut String,
    component_id: &mut String,
)
    ensures
        final(scenario_name)@ == (if (old(scenario_name)@.len() == 0 || find_first(
            generated_names(scenarios@),
            old(scenario_name)@,
        ) is None) && scenarios@.len() > 0 {
            scenarios@[0].name@
        } else {
            old(scenario_name)@
        }),
        final(component_id)@ == (match find_first(generated_names(scenarios@), final(scenario_name)@) {
            None => old(component_id)@,
            Some(i) => component_default(scenarios@[i].board_components@, old(component_id)@),
        }),
{
    let missing = selected_generated_scenario(scenarios, scenario_name.as_str()).is_none();
    if (char_len(scenario_name.as_str()) == 0 || missing) && scenarios.len() > 0 {
        *scenario_name = str_to_string(scenarios[0].name.as_str());
    }
    let scenario = match selected_generated_scenario(scenarios, scenario_name.as_str()) {
        Some(s) => s,
        None => return,
    };
    let comps = &scenario.board_components;
    let ghost ids = comps@.map_values(|c: AnalogGeneratedComponent| c.id@);
    let mut present = false;
    let mut i: usize = 0;
    while i < comps.len()
        invariant
            ids == comps@.map_values(|c: AnalogGeneratedComponent| c.id@),
            i <= comps@.len(),
            present == ids.subrange(0, i as int).contains(component_id@),
        decreases comps@.len() - i,
    {
        assert(ids.subrange(0, i + 1) =~= ids.subrange(0, i as int).push(ids[i as int]));
        if text_eq(comps[i].id.as_str(), component_id.as_str()) {
            present = true;
            assert(ids.subrange(0, i + 1)[i as int] == component_id@);
        } else {
            proof {
                if ids.subrange(0, i + 1).contains(component_id@) {
                    let k = choose|k: int| 0 <= k < i + 1 && #[trigger] ids.subrange(0, i + 1)[k] == component_id@;
                    assert(ids.subrange(0, i as int)[k] == component_id@);
                }
            }
        }
        i = i + 1;
    }
    assert(ids.subrange(0, comps@.len() as int) =~= ids);
    if char_len(component_id.as_str()) == 0 || !present {
        let ghost b = comps@.map_values(|c: AnalogGeneratedComponent| !c.included);
        let mut k: usize = 0;
        while k < comps.len() && comps[k].included
            invariant
                b == comps@.map_values(|c: AnalogGeneratedComponent| !c.included),
                k <= comps@.len(),
                forall|q: int| 0 <= q < k ==> !#[trigger] b[q],
            decreases comps@.len() - k,
        {
            k = k + 1;
        }
        if k < comps.len() {
            proof {
                lemma_first_true(b, k as int);
            }
            *component_id = str_to_string(comps[k].id.as_str());
        } else {
            proof {
                lemma_no_true(b);
            }
            if comps.len() > 0 {
                *component_id = str_to_string(comps[0].id.as_str());
            }
        }
    }
}

/// The node binding a generated-netlist editor loads: the first on the ground net, else
/// the first; else the first board net, as node `0` when it is the ground net.
pub open spec fn node_binding_default(s: AnalogGeneratedScenario, net: Seq<char>, node: Seq<char>) -> (
    Seq<char>,
    Seq<char>,
) {
    let bl = s.node_bindings@;
    match first_true(bl.map_values(|b: AnalogNodeBinding| b.net@ == s.ground_net@)) {
        Some(j) => (bl[j].net@, bl[j].node@),
        None => if bl.len() > 0 {
            (bl[0].net@, bl[0].node@)
        } else if s.board_nets@.len() > 0 {
            let id = s.board_nets@[0].id@;
            (id, if id == s.ground_net@ { "0"@ } else { id })
        } else {
            (net, node)
        },
    }
}

/// The ground net a generated-netlist editor keeps: its own when it is a ground net of the
/// board, else the setup's ground net.
pub open spec fn generated_ground_default(s: AnalogGeneratedScenario, ground: Seq<char>) -> Seq<char> {
    if ground.len() == 0 || !(exists|k: int|
        0 <= k < s.board_nets@.len() && #[trigger] s.board_nets@[k].id@ == ground && s.board_nets@[k].kind@
            == "ground"@) {
        s.ground_net@
    } else {
        ground
    }
}

/// The board nets' ids of a generated-netlist setup.
pub open spec fn board_net_ids(s: AnalogGeneratedScenario) -> Seq<Seq<char>> {
    s.board_nets@.map_values(|n: AnalogBoardNet| n.id@)
}

fn is_ground_net_of(s: &AnalogGeneratedScenario, ground: &str) -> (r: bool)
    ensures
        r == exists|k: int|
            0 <= k < s.board_nets@.len() && #[trigger] s.board_nets@[k].id@ == ground@ && s.board_nets@[k].kind@
                == "ground"@,
{
    let mut k: usize = 0;
    while k < s.board_nets.len()
        invariant
            k <= s.board_nets@.len(),
            forall|q: int|
                0 <= q < k ==> !(#[trigger] s.board_nets@[q].id@ == ground@ && s.board_nets@[q].kind@ == "ground"@),
        decreases s.board_nets@.len() - k,
    {
        if text_eq(s.board_nets[k].id.as_str(), ground) && text_eq(s.board_nets[k].kind.as_str(), "ground") {
            return true;
        }
        k = k + 1;
    }
    false
}

fn is_board_net_of(s: &AnalogGeneratedScenario, net: &str) -> (r: bool)
    ensures
        r == board_net_ids(*s).contains(net@),
{
    let ghost ids = board_net_ids(*s);
    let mut k: usize = 0;
    while k < s.board_nets.len()
        invariant
            k <= s.board_nets@.len(),
            ids == board_net_ids(*s),
            forall|q: int| 0 <= q < k ==> #[trigger] ids[q] != net@,
        decreases s.board_nets@.len() - k,
    {
        if text_eq(s.board_nets[k].id.as_str(), net) {
            assert(ids[k as int] == net@);
            return true;
        }
        k = k + 1;
    }
    assert(!ids.contains(net@)) by {
        if ids.contains(net@) {
            let q = choose|q: int| 0 <= q < ids.len() && ids[q] == net@;
            assert(ids[q] != net@);
        }
    }
    false
}

fn find_generated(scenarios: &Vec<AnalogGeneratedScenario>, name: &str) -> (r: Option<usize>)
    ensures
        match r {
            Some(i) => find_first(generated_names(scenarios@), name@) == Some(i as int) && i < scenarios@.len(),
            None => find_first(generated_names(scenarios@), name@) is None,
        },
{
    let ghost b = generated_names(scenarios@).map_values(|x: Seq<char>| x == name@);
    let mut i: usize = 0;
    while i < scenarios.len()
        invariant
            b == generated_names(scenarios@).map_values(|x: Seq<char>| x == name@),
            i <= scenarios@.len(),
            forall|k: int| 0 <= k < i ==> !#[trigger] b[k],
        decreases scenarios@.len() - i,
    {
        if text_eq(scenarios[i].name.as_str(), name) {
            proof {
                lemma_first_true(b, i as int);
            }
            return Some(i);
        }
        i = i + 1;
    }
    proof {
        lemma_no_true(b);
    }
    None
}

/// Fills in the generated-netlist settings editor's text settings: an offered setup (the
/// first when the editor's own is blank or gone, loading its ground net and default node
/// binding), a ground net that is a ground net of the board, and a node binding on a board
/// net. Returns the position of the setup shown, and whether it was loaded afresh.
pub fn initialize_generated_settings_defaults(
    scenarios: &Vec<AnalogGeneratedScenario>,
    scenario_name: &mut String,
    ground_net: &mut String,
    node_net: &mut String,
    node_name: &mut String,
) -> (r: Option<(usize, bool)>)
    ensures
        ({
            let names = generated_names(scenarios@);
            let found = find_first(names, old(scenario_name)@);
            if (old(scenario_name)@.len() == 0 || found is None) && scenarios@.len() > 0 {
                let s = scenarios@[0];
                &&& r == Some((0usize, true))
                &&& final(scenario_name)@ == s.name@
                &&& final(ground_net)@ == s.ground_net@
                &&& (final(node_net)@, final(node_name)@) == node_binding_default(s, old(node_net)@, old(node_name)@)
            } else if let Some(i) = found {
                let s = scenarios@[i];
                &&& r == Some((i as usize, false))
                &&& final(scenario_name)@ == old(scenario_name)@
                &&& final(ground_net)@ == generated_ground_default(s, old(ground_net)@)
                &&& (final(node_net)@, final(node_name)@) == (if old(node_net)@.len() == 0
                    || !board_net_ids(s).contains(old(node_net)@) {
                    node_binding_default(s, old(node_net)@, old(node_name)@)
                } else {
                    (old(node_net)@, old(node_name)@)
                })
            } else {
                &&& r is None
                &&& final(scenario_name)@ == old(scenario_name)@
                &&& final(ground_net)@ == old(ground_net)@
                &&& final(node_net)@ == old(node_net)@
                &&& final(node_name)@ == old(node_name)@
            }
        }),
{
    let found = find_generated(scenarios, scenario_name.as_str());
    if (char_len(scenario_name.as_str()) == 0 || found.is_none()) && scenarios.len() > 0 {
        let s = &scenarios[0];
        *scenario_name = str_to_string(s.name.as_str());
        *ground_net = str_to_string(s.ground_net.as_str());
        load_generated_node_binding_values(s, node_net, node_name);
        return Some((0, true));
    }
    match found {
        None => None,
        Some(i) => {
            let s = &scenarios[i];
            if char_len(ground_net.as_str()) == 0 || !is_ground_net_of(s, ground_net.as_str()) {
                *ground_net = str_to_string(s.ground_net.as_str());
            }
            if char_len(node_net.as_str()) == 0 || !is_board_net_of(s, node_net.as_str()) {
                load_generated_node_binding_values(s, node_net, node_name);
            }
            Some((i, false))
        },
    }
}

/// Loads a generated-netlist setup's default node binding into the editor.
pub fn load_generated_node_binding_values(
    scenario: &AnalogGeneratedScenario,
    node_net: &mut String,
    node_name: &mut String,
)
    ensures
        (final(node_net)@, final(node_name)@) == node_binding_default(
            *scenario,
            old(node_net)@,
            old(node_name)@,
        ),
{
    let bl = &scenario.node_bindings;
    let ghost b = bl@.map_values(|x: AnalogNodeBinding| x.net@ == scenario.ground_net@);
    let mut j: usize = 0;
    while j < bl.len() && !text_eq(bl[j].net.as_str(), scenario.ground_net.as_str())
        invariant
            b == bl@.map_values(|x: AnalogNodeBinding| x.net@ == scenario.ground_net@),
            j <= bl@.len(),
            forall|q: int| 0 <= q < j ==> !#[trigger] b[q],
        decreases bl@.len() - j,
    {
        j = j + 1;
    }
    if j < bl.len() {
        proof {
            lemma_first_true(b, j as int);
        }
        *node_net = str_to_string(bl[j].net.as_str());
        *node_name = str_to_string(bl[j].node.as_str());
        return;
    }
    proof {
        lemma_no_true(b);
    }
    if bl.len() > 0 {
        *node_net = str_to_string(bl[0].net.as_str());
        *node_name = str_to_string(bl[0].node.as_str());
    } else if scenario.board_nets.len() > 0 {
        let id = scenario.board_nets[0].id.as_str();
        *node_net = str_to_string(id);
        *node_name = if text_eq(id, scenario.ground_net.as_str()) {
            str_to_string("0")
        } else {
            str_to_string(id)
        };
    }
}

/// A stimulus that can be edited: its run setup and source component.
pub struct AnalogStimulusChoice {
    pub scenario_name: String,
    pub component_id: String,
}

/// Points the stimulus editor at a stimulus that exists: when its run setup or component
/// is blank, or names no stimulus, the first stimulus is taken. Returns whether that
/// happened, so that the stimulus's values are loaded too.
pub fn initialize_analog_stimulus_defaults(
    choices: &Vec<AnalogStimulusChoice>,
    scenario_name: &mut String,
    component_id: &mut String,
) -> (loaded: bool)
    ensures
        loaded == ((old(scenario_name)@.len() == 0 || old(component_id)@.len() == 0 || first_true(
            choices@.map_values(
                |c: AnalogStimulusChoice|
                    c.scenario_name@ == old(scenario_name)@ && c.component_id@ == old(component_id)@,
            ),
        ) is None) && choices@.len() > 0),
        loaded ==> final(scenario_name)@ == choices@[0].scenario_name@ && final(component_id)@
            == choices@[0].component_id@,
        !loaded ==> final(scenario_name)@ == old(scenario_name)@ && final(component_id)@ == old(
            component_id,
        )@,
{
    let missing = selected_analog_stimulus_choice(choices, scenario_name.as_str(), component_id.as_str()).is_none();
    if (char_len(scenario_name.as_str()) == 0 || char_len(component_id.as_str()) == 0 || missing) && choices.len()
        > 0 {
        *scenario_name = str_to_string(choices[0].scenario_name.as_str());
        *component_id = str_to_string(choices[0].component_id.as_str());
        return true;
    }
    false
}

/// The first stimulus of the run setup and component given.
pub fn selected_analog_stimulus_choice<'a>(
    choices: &'a Vec<AnalogStimulusChoice>,
    scenario_name: &str,
    component_id: &str,
) -> (r: Option<&'a AnalogStimulusChoice>)
    ensures
        match first_true(
            choices@.map_values(
                |c: AnalogStimulusChoice| c.scenario_name@ == scenario_name@ && c.component_id@ == component_id@,
            ),
        ) {
            Some(i) => r matches Some(c) && *c == choices@[i],
            None => r is None,
        },
{
    let ghost b = choices@.map_values(
        |c: AnalogStimulusChoice| c.scenario_name@ == scenario_name@ && c.component_id@ == component_id@,
    );
    let mut i: usize = 0;
    while i < choices.len()
        invariant
            b == choices@.map_values(
                |c: AnalogStimulusChoice| c.scenario_name@ == scenario_name@ && c.component_id@ == component_id@,
            ),
            i <= choices@.len(),
            forall|k: int| 0 <= k < i ==> !#[trigger] b[k],
        decreases choices@.len() - i,
    {
        if text_eq(choices[i].scenario_name.as_str(), scenario_name) && text_eq(
            choices[i].component_id.as_str(),
            component_id,
        ) {
            proof {
                lemma_first_true(b, i as int);
            }
            return Some(&choices[i]);
        }
        i = i + 1;
    }
    proof {
        lemma_no_true(b);
    }
    None
}

/// A run setup that model files can be attached to.
pub struct AnalogModelFileScenario {
    pub name: String,
}

/// Points the model file editor at an offered run setup.
pub fn initialize_model_file_scenario_default(
    scenarios: &Vec<AnalogModelFileScenario>,
    scenario_name: &mut String,
)
    ensures
        final(scenario_name)@ == default_scenario(
            scenarios@.map_values(|x: AnalogModelFileScenario| x.name@),
            old(scenario_name)@,
        ),
{
    let ghost names = scenarios@.map_values(|x: AnalogModelFileScenario| x.name@);
    let mut present = false;
    let mut i: usize = 0;
    while i < scenarios.len()
        invariant
            names == scenarios@.map_values(|x: AnalogModelFileScenario| x.name@),
            i <= scenarios@.len(),
            present == names.subrange(0, i as int).contains(scenario_name@),
        decreases scenarios@.len() - i,
    {
        assert(names.subrange(0, i + 1) =~= names.subrange(0, i as int).push(names[i as int]));
        if text_eq(scenarios[i].name.as_str(), scenario_name.as_str()) {
            present = true;
            assert(names.subrange(0, i + 1)[i as int] == scenario_name@);
        } else {
            proof {
                if names.subrange(0, i + 1).contains(scenario_name@) {
                    let k = choose|k: int| 0 <= k < i + 1 && #[trigger] names.subrange(0, i + 1)[k] == scenario_name@;
                    assert(names.subrange(0, i as int)[k] == scenario_name@);
                }
            }
        }
        i = i + 1;
    }
    assert(names.subrange(0, scenarios@.len() as int) =~= names);
    if (char_len(scenario_name.as_str()) == 0 || !present) && scenarios.len() > 0 {
        *scenario_name = str_to_string(scenarios[0].name.as_str());
    }
}

} // verus!
