//! Automatic scope probes: for each analog run setup, voltage probes on the bound nets that
//! are not ground and current probes through its source components, each added only when no
//! probe of the setup already measures the same thing.
use vstd::prelude::*;
use crate::board::{board_child, board_of, board_table, close_child, open_child};
use crate::doc::{
    Yaml, YamlEntry, YamlNode, entries_of, field, lemma_list_view, lemma_map_view, list_field,
    list_of, map_find, map_get, map_insert, map_restore, map_take, node_field, node_list_field,
    node_text_field, take_field, text_field, text_node, text_or_empty,
};
use crate::naming::{
    auto_probe_base, contains_name, first_free, names, normalized_expression,
    normalized_expression_spec, unique_auto_probe_name,
};
use crate::board::{EditErr, EditError};
use crate::naming::{decimal, decimal_string};
use crate::order::{insert_sorted, lemma_sorted_unique, sorted_of, strictly_sorted};
use crate::state::{CircuitCiApp, ScopeProbeTarget, opt_target_view};
use crate::text::{new_string, str_to_string, text_eq};
use crate::yaml_io::{emit_doc, emitted, parse_yaml, parsed_yaml};

verus! {

/// At most this many voltage probes are added to one run setup at a time.
pub const MAX_AUTO_VOLTAGE_PROBES: usize = 8;

/// At most this many current probes are added to one run setup at a time.
pub const MAX_AUTO_CURRENT_PROBES: usize = 8;

/// What an automatic probe measures.
#[derive(Debug)]
pub enum AutoScopeProbeKind {
    Voltage { net_id: String },
    Current { component_id: String, generated: bool },
}

/// A probe that the automatic pass would add.
#[derive(Debug)]
pub struct AutoScopeProbeCandidate {
    pub scenario_name: String,
    pub probe_name: String,
    pub expression: String,
    pub kind: AutoScopeProbeKind,
}

/// The mathematical form of a candidate.
pub struct CandidateSpec {
    pub scenario: Seq<char>,
    pub probe: Seq<char>,
    pub expression: Seq<char>,
    pub voltage: bool,
    pub target: Seq<char>,
    pub generated: bool,
}

impl View for AutoScopeProbeCandidate {
    type V = CandidateSpec;

    open spec fn view(&self) -> CandidateSpec {
        CandidateSpec {
            scenario: self.scenario_name@,
            probe: self.probe_name@,
            expression: self.expression@,
            voltage: self.kind is Voltage,
            target: match self.kind {
                AutoScopeProbeKind::Voltage { net_id } => net_id@,
                AutoScopeProbeKind::Current { component_id, .. } => component_id@,
            },
            generated: match self.kind {
                AutoScopeProbeKind::Voltage { .. } => false,
                AutoScopeProbeKind::Current { generated, .. } => generated,
            },
        }
    }
}

pub open spec fn candidate_views(v: Seq<AutoScopeProbeCandidate>) -> Seq<CandidateSpec> {
    v.map_values(|c: AutoScopeProbeCandidate| c@)
}

/// The state of planning one run setup: the probe names taken, the measurements already
/// covered, how many probes the current pass added, and the candidates so far.
pub struct ProbePlan {
    pub names: Seq<Seq<char>>,
    pub keys: Seq<Seq<char>>,
    pub count: nat,
    pub out: Seq<CandidateSpec>,
}

/// The quantities a probe can measure.
#[derive(Clone, Copy, PartialEq, Eq, Structural)]
pub enum AnalogQuantity {
    Voltage,
    Current,
    Power,
}

pub open spec fn quantity_text(q: AnalogQuantity) -> Seq<char> {
    match q {
        AnalogQuantity::Voltage => "voltage"@,
        AnalogQuantity::Current => "current"@,
        AnalogQuantity::Power => "power"@,
    }
}

/// The key under which a probe's measurement is compared: quantity, `:`, the expression
/// without white space in ASCII lower case.
pub fn normalized_probe_expression(expression: &str, quantity: AnalogQuantity) -> (r: String)
    ensures
        r@ == normalized_expression_spec(expression@, quantity_text(quantity)),
{
    match quantity {
        AnalogQuantity::Voltage => normalized_expression(expression, "voltage"),
        AnalogQuantity::Current => normalized_expression(expression, "current"),
        AnalogQuantity::Power => normalized_expression(expression, "power"),
    }
}

/// The analog part of a run setup, when it is a mapping.
pub open spec fn scenario_analog(s: Yaml) -> Option<Yaml> {
    match field(s, "analog"@) {
        Some(Yaml::Mapping(m)) => Some(Yaml::Mapping(m)),
        _ => None,
    }
}

/// The names of a setup's probes.
pub open spec fn probe_names(probes: Seq<Yaml>) -> Seq<Seq<char>> {
    probes.map_values(|p: Yaml| text_or_empty(p, "name"@))
}

/// The measurement keys of a setup's probes.
pub open spec fn probe_keys(probes: Seq<Yaml>) -> Seq<Seq<char>> {
    probes.map_values(
        |p: Yaml|
            normalized_expression_spec(text_or_empty(p, "expression"@), text_or_empty(p, "quantity"@)),
    )
}

/// The net exists on the board and is not a ground net.
pub open spec fn net_is_probed(doc: Yaml, net: Seq<char>) -> bool {
    match board_child(doc, "nets"@) {
        Ok(nets) => match map_get(nets, net) {
            Some(e) => text_field(e, "kind"@) != Some("ground"@),
            None => false,
        },
        Err(_) => false,
    }
}

pub open spec fn voltage_expression(node: Seq<char>) -> Seq<char> {
    "V("@ + node + ")"@
}

/// The expression of the current through a source component's branch.
pub open spec fn current_expression(component: Seq<char>) -> Seq<char> {
    "I("@ + component + ")"@
}

pub open spec fn add_candidate(st: ProbePlan, key: Seq<char>, c: CandidateSpec) -> ProbePlan {
    ProbePlan {
        names: st.names.push(c.probe),
        keys: st.keys.push(key),
        count: st.count + 1,
        out: st.out.push(c),
    }
}

/// One node binding: a voltage probe on its net unless the net is missing or ground, or
/// the setup already measures that node voltage.
pub open spec fn voltage_step(doc: Yaml, scenario: Seq<char>, st: ProbePlan, b: Yaml) -> ProbePlan {
    match (text_field(b, "node"@), text_field(b, "net"@)) {
        (Some(node), Some(net)) => if !net_is_probed(doc, net) {
            st
        } else {
            let expr = voltage_expression(node);
            let key = normalized_expression_spec(expr, "voltage"@);
            if st.keys.contains(key) {
                st
            } else {
                add_candidate(
                    st,
                    key,
                    CandidateSpec {
                        scenario,
                        probe: first_free(auto_probe_base("v"@, net), st.names),
                        expression: expr,
                        voltage: true,
                        target: net,
                        generated: false,
                    },
                )
            }
        },
        _ => st,
    }
}

/// The node bindings taken in order until the voltage limit is reached.
pub open spec fn voltage_plan(doc: Yaml, scenario: Seq<char>, st: ProbePlan, bindings: Seq<Yaml>) -> ProbePlan
    decreases bindings.len(),
{
    if bindings.len() == 0 {
        st
    } else {
        let prev = voltage_plan(doc, scenario, st, bindings.drop_last());
        if prev.count >= MAX_AUTO_VOLTAGE_PROBES {
            prev
        } else {
            voltage_step(doc, scenario, prev, bindings.last())
        }
    }
}

/// The SPICE primitives whose branch current a probe can read.
pub open spec fn is_source_primitive(p: Seq<char>) -> bool {
    p == "dc_voltage_source"@ || p == "pulse_voltage_source"@ || p == "dc_current_source"@ || p
        == "pulse_current_source"@
}

/// The board component exists and is a voltage or current source.
pub open spec fn is_source_component(doc: Yaml, id: Seq<char>) -> bool {
    match board_child(doc, "components"@) {
        Ok(cs) => match map_get(cs, id) {
            Some(c) => match field(c, "spice"@) {
                Some(sp) => match text_field(sp, "primitive"@) {
                    Some(p) => is_source_primitive(p),
                    None => false,
                },
                None => false,
            },
            None => false,
        },
        Err(_) => false,
    }
}

/// The SPICE primitive of a board component, when the board has the component and it
/// names one.
pub open spec fn component_primitive(doc: Yaml, id: Seq<char>) -> Option<Seq<char>> {
    match board_child(doc, "components"@) {
        Ok(cs) => match map_get(cs, id) {
            Some(c) => match field(c, "spice"@) {
                Some(sp) => text_field(sp, "primitive"@),
                None => None,
            },
            None => None,
        },
        Err(_) => None,
    }
}

/// The components whose branch current gets an automatic probe are exactly those of the
/// given list whose SPICE primitive is a DC or pulse voltage source or a DC or pulse
/// current source.
pub proof fn law_current_probes_on_sources(doc: Yaml, ids: Seq<Seq<char>>, x: Seq<char>)
    ensures
        source_components(doc, ids).contains(x) <==> ids.contains(x) && (component_primitive(doc, x)
            == Some("dc_voltage_source"@) || component_primitive(doc, x) == Some("pulse_voltage_source"@)
            || component_primitive(doc, x) == Some("dc_current_source"@) || component_primitive(doc, x)
            == Some("pulse_current_source"@)),
    decreases ids.len(),
{
    if ids.len() > 0 {
        let pre = ids.drop_last();
        law_current_probes_on_sources(doc, pre, x);
        let p = source_components(doc, pre);
        assert(ids =~= pre.push(ids.last()));
        if is_source_component(doc, ids.last()) {
            assert(p.push(ids.last())[p.len() as int] == ids.last());
            if p.contains(x) {
                let k = choose|k: int| 0 <= k < p.len() && p[k] == x;
                assert(p.push(ids.last())[k] == x);
            }
            if p.push(ids.last()).contains(x) {
                let k = choose|k: int| 0 <= k < p.push(ids.last()).len() && p.push(ids.last())[k] == x;
                if k < p.len() {
                    assert(p[k] == x);
                }
            }
        }
        if pre.contains(x) {
            let k = choose|k: int| 0 <= k < pre.len() && pre[k] == x;
            assert(ids[k] == x);
        }
        if ids.contains(x) {
            let k = choose|k: int| 0 <= k < ids.len() && ids[k] == x;
            if k < pre.len() {
                assert(pre[k] == x);
            }
        }
    }
}

/// The strings of a list, others left out.
pub open spec fn texts(items: Seq<Yaml>) -> Seq<Seq<char>>
    decreases items.len(),
{
    if items.len() == 0 {
        Seq::empty()
    } else {
        let p = texts(items.drop_last());
        match items.last() {
            Yaml::Text(t) => p.push(t),
            _ => p,
        }
    }
}

/// The component of a pin binding's endpoint.
pub open spec fn endpoint_component(b: Yaml) -> Option<Seq<char>> {
    match field(b, "endpoint"@) {
        Some(e) => text_field(e, "component"@),
        None => None,
    }
}

/// The components that the first `n` pin bindings reach.
pub open spec fn pin_binding_components(bindings: Seq<Yaml>, n: int) -> Set<Seq<char>> {
    Set::new(
        |c: Seq<char>| exists|i: int| 0 <= i < n && endpoint_component(#[trigger] bindings[i]) == Some(c),
    )
}

/// The source components of a list, in order.
pub open spec fn source_components(doc: Yaml, ids: Seq<Seq<char>>) -> Seq<Seq<char>>
    decreases ids.len(),
{
    if ids.len() == 0 {
        Seq::empty()
    } else {
        let p = source_components(doc, ids.drop_last());
        if is_source_component(doc, ids.last()) {
            p.push(ids.last())
        } else {
            p
        }
    }
}

/// The components whose current is probed: the generated netlist's components in order
/// when the setup generates its netlist, else the components its pins are bound to, in
/// name order; sources only.
pub open spec fn current_candidates(doc: Yaml, analog: Yaml) -> Seq<Seq<char>> {
    let ids = match field(analog, "generated"@) {
        Some(Yaml::Mapping(g)) => texts(list_field(Yaml::Mapping(g), "components"@)),
        _ => sorted_of(
            pin_binding_components(
                list_field(analog, "pin_bindings"@),
                list_field(analog, "pin_bindings"@).len() as int,
            ),
        ),
    };
    source_components(doc, ids)
}

/// One source component: a current probe unless the setup already measures its current.
pub open spec fn current_step(
    scenario: Seq<char>,
    generated: bool,
    st: ProbePlan,
    component: Seq<char>,
) -> ProbePlan {
    let expr = current_expression(component);
    let key = normalized_expression_spec(expr, "current"@);
    if st.keys.contains(key) {
        st
    } else {
        add_candidate(
            st,
            key,
            CandidateSpec {
                scenario,
                probe: first_free(auto_probe_base("i"@, component), st.names),
                expression: expr,
                voltage: false,
                target: component,
                generated,
            },
        )
    }
}

/// The source components taken in order until the current limit is reached.
pub open spec fn current_plan(
    scenario: Seq<char>,
    generated: bool,
    st: ProbePlan,
    components: Seq<Seq<char>>,
) -> ProbePlan
    decreases components.len(),
{
    if components.len() == 0 {
        st
    } else {
        let prev = current_plan(scenario, generated, st, components.drop_last());
        if prev.count >= MAX_AUTO_CURRENT_PROBES {
            prev
        } else {
            current_step(scenario, generated, prev, components.last())
        }
    }
}

/// The plan of a run setup before anything is added: its probes' names and measurements.
pub open spec fn initial_plan(analog: Yaml) -> ProbePlan {
    ProbePlan {
        names: probe_names(list_field(analog, "probes"@)),
        keys: probe_keys(list_field(analog, "probes"@)),
        count: 0,
        out: Seq::empty(),
    }
}

/// Whether a setup simulates the netlist generated from the board.
pub open spec fn generated_netlist(analog: Yaml) -> bool {
    text_field(analog, "netlist_source"@) == Some("generated_from_board"@)
}

/// The plan after the voltage pass, with the count started over for the current pass.
pub open spec fn after_voltage(doc: Yaml, s: Yaml, analog: Yaml) -> ProbePlan {
    let v = voltage_plan(
        doc,
        text_or_empty(s, "name"@),
        initial_plan(analog),
        list_field(analog, "node_bindings"@),
    );
    ProbePlan { names: v.names, keys: v.keys, count: 0, out: v.out }
}

/// The probes the automatic pass adds to one run setup, voltages first.
pub open spec fn scenario_candidates(doc: Yaml, s: Yaml) -> Seq<CandidateSpec> {
    match scenario_analog(s) {
        None => Seq::empty(),
        Some(a) => current_plan(
            text_or_empty(s, "name"@),
            generated_netlist(a),
            after_voltage(doc, s, a),
            current_candidates(doc, a),
        ).out,
    }
}

/// The probes added to all run setups, setup by setup.
pub open spec fn all_candidates(doc: Yaml, scenarios: Seq<Yaml>) -> Seq<CandidateSpec>
    decreases scenarios.len(),
{
    if scenarios.len() == 0 {
        Seq::empty()
    } else {
        all_candidates(doc, scenarios.drop_last()) + scenario_candidates(doc, scenarios.last())
    }
}

/// The run setups of a project.
pub open spec fn scenarios_of(doc: Yaml) -> Seq<Yaml> {
    list_field(doc, "scenarios"@)
}

pub open spec fn plan_of(
    names_v: Seq<String>,
    keys_v: Seq<String>,
    count: usize,
    out: Seq<AutoScopeProbeCandidate>,
) -> ProbePlan {
    ProbePlan { names: names(names_v), keys: names(keys_v), count: count as nat, out: candidate_views(out) }
}

/// Whether a net exists on the board and is not ground.
fn net_probed(doc: &YamlNode, net: &str) -> (r: bool)
    ensures
        r == net_is_probed(doc@, net@),
{
    match board_table(doc, "nets") {
        Err(_) => false,
        Ok(nets) => {
            proof {
                lemma_map_view(*nets);
            }
            match map_find(nets, net) {
                None => false,
                Some(i) => match node_text_field(&nets[i].value, "kind") {
                    Some(k) => !text_eq(k.as_str(), "ground"),
                    None => true,
                },
            }
        },
    }
}

/// Whether a board component is a voltage or current source.
fn is_source(doc: &YamlNode, id: &str) -> (r: bool)
    ensures
        r == is_source_component(doc@, id@),
{
    match board_table(doc, "components") {
        Err(_) => false,
        Ok(cs) => match map_find(cs, id) {
            None => false,
            Some(i) => match node_field(&cs[i].value, "spice") {
                None => false,
                Some(sp) => match node_text_field(sp, "primitive") {
                    None => false,
                    Some(p) => {
                        let p = p.as_str();
                        text_eq(p, "dc_voltage_source") || text_eq(p, "pulse_voltage_source")
                            || text_eq(p, "dc_current_source") || text_eq(p, "pulse_current_source")
                    },
                },
            },
        },
    }
}

/// The components whose branch current the automatic pass probes for a run setup.
pub fn auto_current_probe_components(doc: &YamlNode, analog: &YamlNode) -> (r: Vec<String>)
    ensures
        names(r@) == current_candidates(doc@, analog@),
{
    let mut ids: Vec<String> = Vec::new();
    let ghost gen = field(analog@, "generated"@);
    let generated = match node_field(analog, "generated") {
        Some(g) => match g {
            YamlNode::Mapping(_) => Some(g),
            _ => None,
        },
        None => None,
    };
    match generated {
        Some(g) => {
            let items: &Vec<YamlNode> = match node_list_field(g, "components") {
                Some(v) => v,
                None => {
                    assert(texts(Seq::<Yaml>::empty()) =~= Seq::<Seq<char>>::empty());
                    assert(names(ids@) =~= Seq::<Seq<char>>::empty());
                    return filter_sources(doc, &ids);
                },
            };
            let ghost l = list_of(items@);
            let mut i: usize = 0;
            assert(names(ids@) =~= texts(l.subrange(0, 0)));
            while i < items.len()
                invariant
                    l == list_of(items@),
                    i <= items@.len(),
                    names(ids@) == texts(l.subrange(0, i as int)),
                decreases items@.len() - i,
            {
                assert(l.subrange(0, i + 1).drop_last() =~= l.subrange(0, i as int));
                match &items[i] {
                    YamlNode::Text(t) => {
                        ids.push(str_to_string(t.as_str()));
                    },
                    _ => {},
                }
                i = i + 1;
                assert(names(ids@) =~= texts(l.subrange(0, i as int)));
            }
            assert(l.subrange(0, items@.len() as int) =~= l);
        },
        None => {
            let empty: Vec<YamlNode> = Vec::new();
            let items: &Vec<YamlNode> = match node_list_field(analog, "pin_bindings") {
                Some(v) => v,
                None => &empty,
            };
            let ghost l = list_field(analog@, "pin_bindings"@);
            assert(l == list_of(items@)) by {
                assert(list_of(empty@) =~= Seq::<Yaml>::empty());
            }
            let mut i: usize = 0;
            assert(names(ids@).to_set() =~= pin_binding_components(l, 0));
            while i < items.len()
                invariant
                    l == list_of(items@),
                    i <= items@.len(),
                    strictly_sorted(names(ids@)),
                    names(ids@).to_set() == pin_binding_components(l, i as int),
                decreases items@.len() - i,
            {
                let ghost before = names(ids@).to_set();
                let c = match node_field(&items[i], "endpoint") {
                    Some(e) => node_text_field(e, "component"),
                    None => None,
                };
                match c {
                    Some(c) => {
                        insert_sorted(&mut ids, str_to_string(c.as_str()));
                        assert(names(ids@).to_set() =~= pin_binding_components(l, i + 1)) by {
                            assert(endpoint_component(l[i as int]) == Some(c@));
                        }
                    },
                    None => {
                        assert(names(ids@).to_set() =~= pin_binding_components(l, i + 1)) by {
                            assert(endpoint_component(l[i as int]) is None);
                        }
                    },
                }
                i = i + 1;
            }
            proof {
                let s = pin_binding_components(l, l.len() as int);
                assert(strictly_sorted(sorted_of(s)) && sorted_of(s).to_set() == s);
                lemma_sorted_unique(names(ids@), sorted_of(s));
            }
        },
    }
    filter_sources(doc, &ids)
}

/// The source components of a list, in order.
fn filter_sources(doc: &YamlNode, ids: &Vec<String>) -> (r: Vec<String>)
    ensures
        names(r@) == source_components(doc@, names(ids@)),
{
    let ghost n = names(ids@);
    let mut r: Vec<String> = Vec::new();
    let mut i: usize = 0;
    assert(names(r@) =~= source_components(doc@, n.subrange(0, 0)));
    while i < ids.len()
        invariant
            n == names(ids@),
            i <= ids@.len(),
            names(r@) == source_components(doc@, n.subrange(0, i as int)),
        decreases ids@.len() - i,
    {
        assert(n.subrange(0, i + 1).drop_last() =~= n.subrange(0, i as int));
        if is_source(doc, ids[i].as_str()) {
            r.push(str_to_string(ids[i].as_str()));
        }
        i = i + 1;
        assert(names(r@) =~= source_components(doc@, n.subrange(0, i as int)));
    }
    assert(n.subrange(0, ids@.len() as int) =~= n);
    r
}

/// A candidate with owned copies of its fields.
fn copy_candidate(c: &AutoScopeProbeCandidate) -> (r: AutoScopeProbeCandidate)
    ensures
        r@ == c@,
{
    AutoScopeProbeCandidate {
        scenario_name: str_to_string(c.scenario_name.as_str()),
        probe_name: str_to_string(c.probe_name.as_str()),
        expression: str_to_string(c.expression.as_str()),
        kind: match &c.kind {
            AutoScopeProbeKind::Voltage { net_id } => AutoScopeProbeKind::Voltage {
                net_id: str_to_string(net_id.as_str()),
            },
            AutoScopeProbeKind::Current { component_id, generated } => AutoScopeProbeKind::Current {
                component_id: str_to_string(component_id.as_str()),
                generated: *generated,
            },
        },
    }
}

/// The names and measurement keys of a setup's existing probes.
fn existing_probes(analog: &YamlNode) -> (r: (Vec<String>, Vec<String>))
    ensures
        names(r.0@) == probe_names(list_field(analog@, "probes"@)),
        names(r.1@) == probe_keys(list_field(analog@, "probes"@)),
{
    let mut taken: Vec<String> = Vec::new();
    let mut keys: Vec<String> = Vec::new();
    let ghost l = list_field(analog@, "probes"@);
    match node_list_field(analog, "probes") {
        None => {
            assert(names(taken@) =~= probe_names(l));
            assert(names(keys@) =~= probe_keys(l));
        },
        Some(probes) => {
            let mut i: usize = 0;
            while i < probes.len()
                invariant
                    l == list_of(probes@),
                    i <= probes@.len(),
                    names(taken@) == probe_names(l).subrange(0, i as int),
                    names(keys@) == probe_keys(l).subrange(0, i as int),
                decreases probes@.len() - i,
            {
                let p = &probes[i];
                assert(l[i as int] == p@);
                let name = match node_text_field(p, "name") {
                    Some(n) => str_to_string(n.as_str()),
                    None => new_string(),
                };
                let expression = match node_text_field(p, "expression") {
                    Some(x) => str_to_string(x.as_str()),
                    None => new_string(),
                };
                let quantity = match node_text_field(p, "quantity") {
                    Some(q) => str_to_string(q.as_str()),
                    None => new_string(),
                };
                assert(name@ == text_or_empty(l[i as int], "name"@));
                assert(probe_names(l)[i as int] == name@);
                let key = normalized_expression(expression.as_str(), quantity.as_str());
                assert(probe_keys(l)[i as int] == key@);
                let ghost t0 = taken@;
                let ghost k0 = keys@;
                taken.push(name);
                keys.push(key);
                assert(names(taken@) =~= names(t0).push(name@));
                assert(names(keys@) =~= names(k0).push(key@));
                i = i + 1;
                assert(names(taken@) =~= probe_names(l).subrange(0, i as int));
                assert(names(keys@) =~= probe_keys(l).subrange(0, i as int));
            }
            assert(probe_names(l).subrange(0, probes@.len() as int) =~= probe_names(l));
            assert(probe_keys(l).subrange(0, probes@.len() as int) =~= probe_keys(l));
        },
    }
    (taken, keys)
}

/// The probes the automatic pass adds to one run setup.
fn scenario_probe_candidates(doc: &YamlNode, s: &YamlNode) -> (r: Vec<AutoScopeProbeCandidate>)
    ensures
        candidate_views(r@) == scenario_candidates(doc@, s@),
{
    let mut out: Vec<AutoScopeProbeCandidate> = Vec::new();
    assert(candidate_views(out@) =~= Seq::<CandidateSpec>::empty());
    let analog = match node_field(s, "analog") {
        Some(a) => match a {
            YamlNode::Mapping(_) => a,
            _ => return out,
        },
        None => return out,
    };
    let scenario = match node_text_field(s, "name") {
        Some(n) => str_to_string(n.as_str()),
        None => new_string(),
    };
    let ghost sc = text_or_empty(s@, "name"@);
    let (mut taken, mut keys) = existing_probes(analog);
    let mut count: usize = 0;
    let empty: Vec<YamlNode> = Vec::new();
    let bindings: &Vec<YamlNode> = match node_list_field(analog, "node_bindings") {
        Some(v) => v,
        None => &empty,
    };
    let ghost bl = list_field(analog@, "node_bindings"@);
    assert(bl == list_of(bindings@)) by {
        assert(list_of(empty@) =~= Seq::<Yaml>::empty());
    }
    let ghost st0 = initial_plan(analog@);
    assert(plan_of(taken@, keys@, count, out@) == voltage_plan(doc@, sc, st0, bl.subrange(0, 0)));
    let mut i: usize = 0;
    while i < bindings.len()
        invariant
            bl == list_of(bindings@),
            i <= bindings@.len(),
            sc == scenario@,
            count <= MAX_AUTO_VOLTAGE_PROBES,
            plan_of(taken@, keys@, count, out@) == voltage_plan(doc@, sc, st0, bl.subrange(0, i as int)),
        decreases bindings@.len() - i,
    {
        assert(bl.subrange(0, i + 1).drop_last() =~= bl.subrange(0, i as int));
        let ghost prev = plan_of(taken@, keys@, count, out@);
        if count < MAX_AUTO_VOLTAGE_PROBES {
            let b = &bindings[i];
            let node = node_text_field(b, "node");
            let net = node_text_field(b, "net");
            match (node, net) {
                (Some(node), Some(net)) => {
                    if net_probed(doc, net.as_str()) {
                        let mut expr = str_to_string("V(");
                        expr.append(node.as_str());
                        expr.append(")");
                        let key = normalized_expression(expr.as_str(), "voltage");
                        if !contains_name(&keys, key.as_str()) {
                            assert(bl[i as int] == b@);
                            assert(expr@ == voltage_expression(node@));
                            let name = unique_auto_probe_name("v", net.as_str(), &mut taken);
                            assert(names(taken@) =~= prev.names.push(name@));
                            keys.push(key);
                            let c = AutoScopeProbeCandidate {
                                scenario_name: str_to_string(scenario.as_str()),
                                probe_name: name,
                                expression: expr,
                                kind: AutoScopeProbeKind::Voltage { net_id: str_to_string(net.as_str()) },
                            };
                            let ghost cv = c@;
                            out.push(c);
                            count = count + 1;
                            assert(names(keys@) =~= prev.keys.push(key@));
                            assert(candidate_views(out@) =~= prev.out.push(cv));
                            let ghost want = CandidateSpec {
                                scenario: sc,
                                probe: first_free(auto_probe_base("v"@, net@), prev.names),
                                expression: voltage_expression(node@),
                                voltage: true,
                                target: net@,
                                generated: false,
                            };
                            assert(cv == want);
                            assert(plan_of(taken@, keys@, count, out@) == add_candidate(prev, key@, want));
                            assert(plan_of(taken@, keys@, count, out@) == voltage_step(
                                doc@,
                                sc,
                                prev,
                                bl[i as int],
                            ));
                        }
                    }
                },
                _ => {},
            }
        }
        i = i + 1;
    }
    assert(bl.subrange(0, bindings@.len() as int) =~= bl);
    let comps = auto_current_probe_components(doc, analog);
    let generated = match node_text_field(analog, "netlist_source") {
        Some(t) => text_eq(t.as_str(), "generated_from_board"),
        None => false,
    };
    count = 0;
    let ghost cl = names(comps@);
    let ghost st1 = after_voltage(doc@, s@, analog@);
    assert(plan_of(taken@, keys@, count, out@) == current_plan(sc, generated, st1, cl.subrange(0, 0)));
    let mut j: usize = 0;
    while j < comps.len()
        invariant
            cl == names(comps@),
            j <= comps@.len(),
            sc == scenario@,
            count <= MAX_AUTO_CURRENT_PROBES,
            plan_of(taken@, keys@, count, out@) == current_plan(sc, generated, st1, cl.subrange(0, j as int)),
        decreases comps@.len() - j,
    {
        assert(cl.subrange(0, j + 1).drop_last() =~= cl.subrange(0, j as int));
        let ghost prev = plan_of(taken@, keys@, count, out@);
        if count < MAX_AUTO_CURRENT_PROBES {
            let id = comps[j].as_str();
            let mut expr = str_to_string("I(");
            expr.append(id);
            expr.append(")");
            let key = normalized_expression(expr.as_str(), "current");
            if !contains_name(&keys, key.as_str()) {
                assert(expr@ == current_expression(cl[j as int]));
                let name = unique_auto_probe_name("i", id, &mut taken);
                assert(names(taken@) =~= prev.names.push(name@));
                keys.push(key);
                let c = AutoScopeProbeCandidate {
                    scenario_name: str_to_string(scenario.as_str()),
                    probe_name: name,
                    expression: expr,
                    kind: AutoScopeProbeKind::Current { component_id: str_to_string(id), generated },
                };
                let ghost cv = c@;
                out.push(c);
                count = count + 1;
                assert(names(keys@) =~= prev.keys.push(key@));
                assert(candidate_views(out@) =~= prev.out.push(cv));
                let ghost want = CandidateSpec {
                    scenario: sc,
                    probe: first_free(auto_probe_base("i"@, cl[j as int]), prev.names),
                    expression: current_expression(cl[j as int]),
                    voltage: false,
                    target: cl[j as int],
                    generated,
                };
                assert(cv == want);
                assert(plan_of(taken@, keys@, count, out@) == add_candidate(prev, key@, want));
                assert(plan_of(taken@, keys@, count, out@) == current_step(
                    sc,
                    generated,
                    prev,
                    cl[j as int],
                ));
            }
        }
        j = j + 1;
    }
    assert(cl.subrange(0, comps@.len() as int) =~= cl);
    out
}

/// The probes for each run setup of the project, setup by setup.
fn scenario_plans(doc: &YamlNode) -> (r: Vec<Vec<AutoScopeProbeCandidate>>)
    ensures
        r@.len() == scenarios_of(doc@).len(),
        forall|i: int|
            0 <= i < r@.len() ==> candidate_views(#[trigger] r@[i]@) == scenario_candidates(
                doc@,
                scenarios_of(doc@)[i],
            ),
{
    let mut r: Vec<Vec<AutoScopeProbeCandidate>> = Vec::new();
    let scens = match node_list_field(doc, "scenarios") {
        Some(v) => v,
        None => return r,
    };
    let mut i: usize = 0;
    while i < scens.len()
        invariant
            scenarios_of(doc@) == list_of(scens@),
            i <= scens@.len(),
            r@.len() == i,
            forall|k: int|
                0 <= k < i ==> candidate_views(#[trigger] r@[k]@) == scenario_candidates(
                    doc@,
                    scenarios_of(doc@)[k],
                ),
        decreases scens@.len() - i,
    {
        let c = scenario_probe_candidates(doc, &scens[i]);
        r.push(c);
        i = i + 1;
    }
    r
}

/// Every probe the automatic pass would add to the project, setup by setup.
pub fn auto_scope_probe_candidates(doc: &YamlNode) -> (r: Vec<AutoScopeProbeCandidate>)
    ensures
        candidate_views(r@) == all_candidates(doc@, scenarios_of(doc@)),
{
    let plans = scenario_plans(doc);
    flatten_plans(doc, &plans)
}

fn flatten_plans(doc: &YamlNode, plans: &Vec<Vec<AutoScopeProbeCandidate>>) -> (r: Vec<AutoScopeProbeCandidate>)
    requires
        plans@.len() == scenarios_of(doc@).len(),
        forall|i: int|
            0 <= i < plans@.len() ==> candidate_views(#[trigger] plans@[i]@) == scenario_candidates(
                doc@,
                scenarios_of(doc@)[i],
            ),
    ensures
        candidate_views(r@) == all_candidates(doc@, scenarios_of(doc@)),
{
    let ghost sl = scenarios_of(doc@);
    let mut r: Vec<AutoScopeProbeCandidate> = Vec::new();
    let mut i: usize = 0;
    assert(candidate_views(r@) =~= all_candidates(doc@, sl.subrange(0, 0)));
    while i < plans.len()
        invariant
            sl == scenarios_of(doc@),
            plans@.len() == sl.len(),
            forall|k: int|
                0 <= k < plans@.len() ==> candidate_views(#[trigger] plans@[k]@) == scenario_candidates(
                    doc@,
                    sl[k],
                ),
            i <= plans@.len(),
            candidate_views(r@) == all_candidates(doc@, sl.subrange(0, i as int)),
        decreases plans@.len() - i,
    {
        assert(sl.subrange(0, i + 1).drop_last() =~= sl.subrange(0, i as int));
        let ghost before = candidate_views(r@);
        let p = &plans[i];
        let mut k: usize = 0;
        while k < p.len()
            invariant
                i < plans@.len(),
                p == plans@[i as int],
                k <= p@.len(),
                candidate_views(r@) == before + candidate_views(p@).subrange(0, k as int),
            decreases p@.len() - k,
        {
            let ghost old_r = r@;
            r.push(copy_candidate(&p[k]));
            assert(candidate_views(r@) =~= candidate_views(old_r).push(p@[k as int]@));
            k = k + 1;
            assert(candidate_views(r@) =~= before + candidate_views(p@).subrange(0, k as int));
        }
        assert(candidate_views(p@).subrange(0, p@.len() as int) =~= candidate_views(p@));
        i = i + 1;
    }
    assert(sl.subrange(0, plans@.len() as int) =~= sl);
    r
}

// ---------------------------------------------------------------------------------------
// Writing the probes
// ---------------------------------------------------------------------------------------

/// The probe entry written for a candidate: its name, expression and quantity.
pub open spec fn probe_entry(c: CandidateSpec) -> Yaml {
    Yaml::Mapping(
        seq![
            (Yaml::Text("name"@), Yaml::Text(c.probe)),
            (Yaml::Text("expression"@), Yaml::Text(c.expression)),
            (Yaml::Text("quantity"@), Yaml::Text(if c.voltage { "voltage"@ } else { "current"@ })),
        ],
    )
}

/// A run setup with `new` probes appended to its analog probe list.
pub open spec fn with_new_probes(s: Yaml, new: Seq<CandidateSpec>) -> Yaml {
    if new.len() == 0 {
        s
    } else {
        match s {
            Yaml::Mapping(sm) => match map_get(sm, "analog"@) {
                Some(Yaml::Mapping(am)) => Yaml::Mapping(
                    map_insert(
                        sm,
                        "analog"@,
                        Yaml::Mapping(
                            map_insert(
                                am,
                                "probes"@,
                                Yaml::List(
                                    list_field(Yaml::Mapping(am), "probes"@) + new.map_values(
                                        |c: CandidateSpec| probe_entry(c),
                                    ),
                                ),
                            ),
                        ),
                    ),
                ),
                _ => s,
            },
            _ => s,
        }
    }
}

/// The project with every run setup's automatic probes appended.
pub open spec fn auto_probe_doc(doc: Yaml) -> Yaml {
    match doc {
        Yaml::Mapping(m) => match map_get(m, "scenarios"@) {
            Some(Yaml::List(l)) => Yaml::Mapping(
                map_insert(
                    m,
                    "scenarios"@,
                    Yaml::List(
                        Seq::new(l.len(), |i: int| with_new_probes(l[i], scenario_candidates(doc, l[i]))),
                    ),
                ),
            ),
            _ => doc,
        },
        _ => doc,
    }
}

pub(crate) fn probe_entry_node(c: &AutoScopeProbeCandidate) -> (r: YamlNode)
    ensures
        r@ == probe_entry(c@),
{
    let mut m: Vec<YamlEntry> = Vec::new();
    m.push(YamlEntry { key: text_node("name"), value: text_node(c.probe_name.as_str()) });
    m.push(YamlEntry { key: text_node("expression"), value: text_node(c.expression.as_str()) });
    let q = match c.kind {
        AutoScopeProbeKind::Voltage { .. } => text_node("voltage"),
        AutoScopeProbeKind::Current { .. } => text_node("current"),
    };
    m.push(YamlEntry { key: text_node("quantity"), value: q });
    proof {
        lemma_map_view(m);
    }
    assert(entries_of(m@) =~= probe_entry(c@)->Mapping_0);
    YamlNode::Mapping(m)
}

/// Appends probe entries for `new` to a run setup's analog probes.
pub(crate) fn add_probes(s: YamlNode, new: &Vec<AutoScopeProbeCandidate>) -> (r: YamlNode)
    ensures
        r@ == with_new_probes(s@, candidate_views(new@)),
{
    if new.len() == 0 {
        return s;
    }
    match s {
        YamlNode::Mapping(mut sm) => {
            let ghost e = entries_of(sm@);
            proof {
                lemma_map_view(sm);
            }
            match open_child(&mut sm, "analog", false) {
                Err(_) => {
                    proof {
                        lemma_map_view(sm);
                    }
                    YamlNode::Mapping(sm)
                },
                Ok((i, mut am)) => {
                    let ghost ae = entries_of(am@);
                    let (j, p) = take_field(&mut am, "probes");
                    let mut list: Vec<YamlNode> = match p {
                        YamlNode::List(v) => {
                            proof {
                                lemma_list_view(v);
                            }
                            v
                        },
                        _ => Vec::new(),
                    };
                    let ghost old_list = list_field(Yaml::Mapping(ae), "probes"@);
                    assert(list_of(list@) =~= old_list);
                    let ghost nv = candidate_views(new@).map_values(|c: CandidateSpec| probe_entry(c));
                    let mut k: usize = 0;
                    while k < new.len()
                        invariant
                            k <= new@.len(),
                            nv == candidate_views(new@).map_values(|c: CandidateSpec| probe_entry(c)),
                            list_of(list@) == old_list + nv.subrange(0, k as int),
                        decreases new@.len() - k,
                    {
                        let ghost before = list@;
                        list.push(probe_entry_node(&new[k]));
                        k = k + 1;
                        assert(list_of(list@) =~= old_list + nv.subrange(0, k as int)) by {
                            assert(list_of(list@) =~= list_of(before).push(nv[k - 1]));
                        }
                    }
                    assert(nv.subrange(0, new@.len() as int) =~= nv);
                    proof {
                        lemma_list_view(list);
                    }
                    map_restore(&mut am, j, YamlNode::List(list));
                    close_child(&mut sm, i, am);
                    proof {
                        lemma_map_view(sm);
                    }
                    YamlNode::Mapping(sm)
                },
            }
        },
        _ => s,
    }
}

/// The project with every run setup's automatic probes appended, and those probes.
pub fn auto_scope_probe_doc(doc: YamlNode) -> (r: (YamlNode, Vec<AutoScopeProbeCandidate>))
    ensures
        r.0@ == auto_probe_doc(doc@),
        candidate_views(r.1@) == all_candidates(doc@, scenarios_of(doc@)),
{
    let ghost d = doc@;
    let plans = scenario_plans(&doc);
    let flat = flatten_plans(&doc, &plans);
    match doc {
        YamlNode::Mapping(mut m) => {
            proof {
                lemma_map_view(m);
            }
            let ghost e = entries_of(m@);
            match map_find(&m, "scenarios") {
                None => (YamlNode::Mapping(m), flat),
                Some(k) => {
                    let v = map_take(&mut m, k);
                    match v {
                        YamlNode::List(mut items) => {
                            proof {
                                lemma_list_view(items);
                            }
                            let ghost l = list_of(items@);
                            assert(l == scenarios_of(d));
                            let mut i: usize = 0;
                            while i < items.len()
                                invariant
                                    l == scenarios_of(d),
                                    plans@.len() == l.len(),
                                    forall|q: int|
                                        0 <= q < plans@.len() ==> candidate_views(#[trigger] plans@[q]@)
                                            == scenario_candidates(d, l[q]),
                                    items@.len() == l.len(),
                                    i <= items@.len(),
                                    forall|q: int|
                                        0 <= q < items@.len() ==> #[trigger] items@[q]@ == (if q < i {
                                            with_new_probes(l[q], scenario_candidates(d, l[q]))
                                        } else {
                                            l[q]
                                        }),
                                decreases items@.len() - i,
                            {
                                let mut item = YamlNode::Null;
                                items.set_and_swap(i, &mut item);
                                let changed = add_probes(item, &plans[i]);
                                let mut back = changed;
                                items.set_and_swap(i, &mut back);
                                i = i + 1;
                            }
                            proof {
                                lemma_list_view(items);
                            }
                            assert forall|q: int| 0 <= q < l.len() implies list_of(items@)[q]
                                == with_new_probes(l[q], scenario_candidates(d, l[q])) by {
                                assert(items@[q]@ == with_new_probes(l[q], scenario_candidates(d, l[q])));
                            }
                            assert(list_of(items@) =~= Seq::new(
                                l.len(),
                                |q: int| with_new_probes(l[q], scenario_candidates(d, l[q])),
                            ));
                            map_restore(&mut m, k, YamlNode::List(items));
                            assert(entries_of(m@) =~= crate::doc::map_insert(
                                e,
                                "scenarios"@,
                                Yaml::List(
                                    Seq::new(
                                        l.len(),
                                        |q: int| with_new_probes(l[q], scenario_candidates(d, l[q])),
                                    ),
                                ),
                            ));
                            proof {
                                lemma_map_view(m);
                            }
                            (YamlNode::Mapping(m), flat)
                        },
                        other => {
                            assert(!(other@ is List));
                            map_restore(&mut m, k, other);
                            assert(entries_of(m@) =~= e);
                            proof {
                                lemma_map_view(m);
                            }
                            (YamlNode::Mapping(m), flat)
                        },
                    }
                },
            }
        },
        other => (other, flat),
    }
}

// ---------------------------------------------------------------------------------------
// Project text
// ---------------------------------------------------------------------------------------

/// How many candidates are voltage probes.
pub open spec fn voltage_count(c: Seq<CandidateSpec>) -> nat
    decreases c.len(),
{
    if c.len() == 0 {
        0
    } else {
        voltage_count(c.drop_last()) + if c.last().voltage {
            1nat
        } else {
            0nat
        }
    }
}

pub proof fn lemma_voltage_count_bound(c: Seq<CandidateSpec>)
    ensures
        voltage_count(c) <= c.len(),
    decreases c.len(),
{
    if c.len() > 0 {
        lemma_voltage_count_bound(c.drop_last());
    }
}

/// The result of the automatic pass over project text.
#[derive(Debug)]
pub struct AutoScopeProbeEdit {
    pub updated_yaml: String,
    pub added_voltage: usize,
    pub added_current: usize,
    pub first_target: Option<ScopeProbeTarget>,
}

/// The mathematical form of an edit: the text, the voltage and current counts and the
/// first probe added.
pub open spec fn edit_view(e: AutoScopeProbeEdit) -> (Seq<char>, nat, nat, Option<(Seq<char>, Seq<char>)>) {
    (e.updated_yaml@, e.added_voltage as nat, e.added_current as nat, opt_target_view(e.first_target))
}

/// The automatic pass over project text: not Board IR when it does not parse; the text as
/// it was when nothing is missing; otherwise the text written for the edited project.
pub open spec fn auto_probe_edit(text: Seq<char>) -> Result<
    (Seq<char>, nat, nat, Option<(Seq<char>, Seq<char>)>),
    EditErr,
> {
    match parsed_yaml(text) {
        None => Err(EditErr::InvalidBoardIr),
        Some(d) => {
            let c = all_candidates(d, scenarios_of(d));
            if c.len() == 0 {
                Ok((text, 0, 0, None))
            } else {
                match emitted(auto_probe_doc(d)) {
                    None => Err(EditErr::EncodeFailed),
                    Some(t) => Ok(
                        (
                            t,
                            voltage_count(c),
                            (c.len() - voltage_count(c)) as nat,
                            Some((c[0].scenario, c[0].probe)),
                        ),
                    ),
                }
            }
        },
    }
}

/// The status line reporting an automatic pass that added probes.
pub open spec fn auto_probe_status(voltage: nat, current: nat) -> Seq<char> {
    "Auto Scope Probes added "@ + decimal(voltage + current) + " probe(s): "@ + decimal(voltage)
        + " voltage, "@ + decimal(current) + " current."@
}

impl AutoScopeProbeEdit {
    /// The number of probes added.
    pub fn added_total(&self) -> (r: usize)
        requires
            self.added_voltage + self.added_current <= usize::MAX,
        ensures
            r == self.added_voltage + self.added_current,
    {
        self.added_voltage + self.added_current
    }

    /// `Auto Scope Probes added N probe(s): V voltage, C current.`
    pub fn status_message(&self) -> (r: String)
        requires
            self.added_voltage + self.added_current <= usize::MAX,
        ensures
            r@ == auto_probe_status(self.added_voltage as nat, self.added_current as nat),
    {
        let total = self.added_total();
        let mut r = str_to_string("Auto Scope Probes added ");
        r.append(decimal_string(total as u128).as_str());
        r.append(" probe(s): ");
        r.append(decimal_string(self.added_voltage as u128).as_str());
        r.append(" voltage, ");
        r.append(decimal_string(self.added_current as u128).as_str());
        r.append(" current.");
        r
    }
}

/// Adds the missing useful scope probes to project text.
pub fn auto_scope_probe_project_yaml(project_yaml: &str) -> (r: Result<AutoScopeProbeEdit, EditError>)
    ensures
        match r {
            Ok(e) => auto_probe_edit(project_yaml@) == Ok::<_, EditErr>(edit_view(e))
                && e.added_voltage + e.added_current <= usize::MAX,
            Err(e) => auto_probe_edit(project_yaml@) == Err::<
                (Seq<char>, nat, nat, Option<(Seq<char>, Seq<char>)>),
                EditErr,
            >(e@),
        },
{
    let d = match parse_yaml(project_yaml) {
        Some(d) => d,
        None => return Err(EditError::InvalidBoardIr),
    };
    let ghost dv = d@;
    let (d2, cands) = auto_scope_probe_doc(d);
    let ghost c = candidate_views(cands@);
    if cands.len() == 0 {
        return Ok(
            AutoScopeProbeEdit {
                updated_yaml: str_to_string(project_yaml),
                added_voltage: 0,
                added_current: 0,
                first_target: None,
            },
        );
    }
    let updated = match emit_doc(&d2) {
        Some(t) => t,
        None => return Err(EditError::EncodeFailed),
    };
    let mut voltage: usize = 0;
    let mut i: usize = 0;
    while i < cands.len()
        invariant
            c == candidate_views(cands@),
            i <= cands@.len(),
            voltage == voltage_count(c.subrange(0, i as int)),
            voltage <= i,
        decreases cands@.len() - i,
    {
        assert(c.subrange(0, i + 1).drop_last() =~= c.subrange(0, i as int));
        if let AutoScopeProbeKind::Voltage { .. } = cands[i].kind {
            voltage = voltage + 1;
        }
        i = i + 1;
    }
    assert(c.subrange(0, cands@.len() as int) =~= c);
    let first = ScopeProbeTarget {
        scenario_name: str_to_string(cands[0].scenario_name.as_str()),
        probe_name: str_to_string(cands[0].probe_name.as_str()),
    };
    Ok(
        AutoScopeProbeEdit {
            updated_yaml: updated,
            added_voltage: voltage,
            added_current: cands.len() - voltage,
            first_target: Some(first),
        },
    )
}

/// One line of the run readiness preview.
#[derive(Debug)]
pub struct AutoScopeProbePreviewRow {
    pub scenario_name: String,
    pub probe_name: String,
    pub expression: String,
    pub quantity: String,
    pub target: String,
}

/// The preview line of a candidate: quantity, and `net N` or `source C` as the target.
pub open spec fn preview_of(c: CandidateSpec) -> (Seq<char>, Seq<char>, Seq<char>, Seq<char>, Seq<char>) {
    (
        c.scenario,
        c.probe,
        c.expression,
        if c.voltage { "voltage"@ } else { "current"@ },
        if c.voltage { "net "@ + c.target } else { "source "@ + c.target },
    )
}

pub open spec fn row_view(r: AutoScopeProbePreviewRow) -> (Seq<char>, Seq<char>, Seq<char>, Seq<char>, Seq<char>) {
    (r.scenario_name@, r.probe_name@, r.expression@, r.quantity@, r.target@)
}

/// The probes that a run would add, as preview lines.
pub fn auto_scope_probe_preview_rows(project_yaml: &str) -> (r: Result<Vec<AutoScopeProbePreviewRow>, EditError>)
    ensures
        match r {
            Ok(rows) => parsed_yaml(project_yaml@) matches Some(d) && rows@.map_values(
                |x: AutoScopeProbePreviewRow| row_view(x),
            ) == all_candidates(d, scenarios_of(d)).map_values(|c: CandidateSpec| preview_of(c)),
            Err(e) => parsed_yaml(project_yaml@) is None && e@ == EditErr::InvalidBoardIr,
        },
{
    let d = match parse_yaml(project_yaml) {
        Some(d) => d,
        None => return Err(EditError::InvalidBoardIr),
    };
    let cands = auto_scope_probe_candidates(&d);
    let ghost c = candidate_views(cands@);
    let mut rows: Vec<AutoScopeProbePreviewRow> = Vec::new();
    let mut i: usize = 0;
    while i < cands.len()
        invariant
            c == candidate_views(cands@),
            i <= cands@.len(),
            rows@.map_values(|x: AutoScopeProbePreviewRow| row_view(x)) == c.subrange(0, i as int).map_values(
                |q: CandidateSpec| preview_of(q),
            ),
        decreases cands@.len() - i,
    {
        let k = &cands[i];
        let (quantity, target) = match &k.kind {
            AutoScopeProbeKind::Voltage { net_id } => {
                let mut t = str_to_string("net ");
                t.append(net_id.as_str());
                (str_to_string("voltage"), t)
            },
            AutoScopeProbeKind::Current { component_id, .. } => {
                let mut t = str_to_string("source ");
                t.append(component_id.as_str());
                (str_to_string("current"), t)
            },
        };
        let row = AutoScopeProbePreviewRow {
            scenario_name: str_to_string(k.scenario_name.as_str()),
            probe_name: str_to_string(k.probe_name.as_str()),
            expression: str_to_string(k.expression.as_str()),
            quantity,
            target,
        };
        assert(c[i as int] == k@);
        assert(row_view(row) == preview_of(c[i as int]));
        let ghost before = rows@;
        rows.push(row);
        assert(c.subrange(0, i + 1) =~= c.subrange(0, i as int).push(c[i as int]));
        assert(rows@.map_values(|x: AutoScopeProbePreviewRow| row_view(x)) =~= before.map_values(
            |x: AutoScopeProbePreviewRow| row_view(x),
        ).push(row_view(row)));
        i = i + 1;
        assert(rows@.map_values(|x: AutoScopeProbePreviewRow| row_view(x)) =~= c.subrange(
            0,
            i as int,
        ).map_values(|q: CandidateSpec| preview_of(q)));
    }
    assert(c.subrange(0, cands@.len() as int) =~= c);
    Ok(rows)
}

impl CircuitCiApp {
    /// Before a run, when switched on, adds the missing useful scope probes to the project
    /// and remembers the first one to show; `Ok(true)` when the project changed.
    pub fn prepare_auto_scope_probes_for_run(&mut self) -> (r: Result<bool, EditError>)
        ensures
            !old(self).scope_auto_probes_before_run ==> r == Ok::<bool, EditError>(false)
                && *final(self) == *old(self),
            old(self).scope_auto_probes_before_run ==> match auto_probe_edit(old(self).project_yaml@) {
                Err(e) => r matches Err(x) && x@ == e && *final(self) == *old(self),
                Ok((t, v, c, first)) => if v + c == 0 {
                    &&& r == Ok::<bool, EditError>(false)
                    &&& final(self).project_yaml == old(self).project_yaml
                    &&& final(self).project_yaml_dirty == old(self).project_yaml_dirty
                    &&& final(self).pending_scope_probe == old(self).pending_scope_probe
                    &&& final(self).diagnostics@.last()@
                        == "Auto Scope Probes before Run found no missing useful probes."@
                } else {
                    &&& r == Ok::<bool, EditError>(true)
                    &&& final(self).project_yaml@ == t
                    &&& final(self).project_yaml_dirty
                    &&& final(self).status@ == auto_probe_status(v, c)
                    &&& opt_target_view(final(self).pending_scope_probe) == first
                },
            },
    {
        if !self.scope_auto_probes_before_run {
            return Ok(false);
        }
        let edit = match auto_scope_probe_project_yaml(self.project_yaml.as_str()) {
            Ok(e) => e,
            Err(e) => return Err(e),
        };
        if edit.added_total() == 0 {
            self.push_diagnostic("Auto Scope Probes before Run found no missing useful probes.");
            return Ok(false);
        }
        let status = edit.status_message();
        let AutoScopeProbeEdit { updated_yaml, first_target, .. } = edit;
        self.apply_edited_project_yaml(updated_yaml, status.as_str());
        if let Some(target) = first_target {
            self.remember_scope_probe_target(target.scenario_name.as_str(), target.probe_name.as_str());
        }
        Ok(true)
    }

    /// Adds the missing useful scope probes now, reporting when there are none and keeping
    /// an error of the pass.
    pub fn apply_auto_scope_probes(&mut self)
        ensures
            match auto_probe_edit(old(self).project_yaml@) {
                Err(e) => final(self).last_error matches Some(x) && x@ == e
                    && final(self).project_yaml == old(self).project_yaml,
                Ok((t, v, c, first)) => if v + c == 0 {
                    &&& final(self).project_yaml == old(self).project_yaml
                    &&& final(self).status@ == "Auto Scope Probes found no missing useful probes."@
                    &&& final(self).diagnostics@.last()@
                        == "Auto Scope Probes found no missing useful probes."@
                } else {
                    &&& final(self).project_yaml@ == t
                    &&& final(self).project_yaml_dirty
                    &&& final(self).status@ == auto_probe_status(v, c)
                    &&& opt_target_view(final(self).pending_scope_probe) == first
                },
            },
    {
        match auto_scope_probe_project_yaml(self.project_yaml.as_str()) {
            Err(e) => self.record_error(e),
            Ok(edit) => {
                if edit.added_total() == 0 {
                    self.status = str_to_string("Auto Scope Probes found no missing useful probes.");
                    self.push_diagnostic("Auto Scope Probes found no missing useful probes.");
                } else {
                    let status = edit.status_message();
                    let AutoScopeProbeEdit { updated_yaml, first_target, .. } = edit;
                    self.apply_edited_project_yaml(updated_yaml, status.as_str());
                    if let Some(target) = first_target {
                        self.remember_scope_probe_target(
                            target.scenario_name.as_str(),
                            target.probe_name.as_str(),
                        );
                    }
                }
            },
        }
    }
}

// ---------------------------------------------------------------------------------------
// The automatic pass settles
// ---------------------------------------------------------------------------------------

/// The measurement key of a candidate.
pub open spec fn cand_key(c: CandidateSpec) -> Seq<char> {
    normalized_expression_spec(c.expression, if c.voltage { "voltage"@ } else { "current"@ })
}

/// The keys of a plan are the keys it started from and those of its candidates.
pub open spec fn keys_track(st: ProbePlan, base: Seq<Seq<char>>) -> bool {
    st.keys == base + st.out.map_values(|c: CandidateSpec| cand_key(c))
}

/// The binding's node voltage is measured by one of `keys`, or needs no probe.
pub open spec fn binding_covered(doc: Yaml, b: Yaml, keys: Seq<Seq<char>>) -> bool {
    match (text_field(b, "node"@), text_field(b, "net"@)) {
        (Some(node), Some(net)) => net_is_probed(doc, net) ==> keys.contains(
            normalized_expression_spec(voltage_expression(node), "voltage"@),
        ),
        _ => true,
    }
}

/// The component's branch current is measured by one of `keys`.
pub open spec fn component_covered(c: Seq<char>, keys: Seq<Seq<char>>) -> bool {
    keys.contains(normalized_expression_spec(current_expression(c), "current"@))
}

/// Every key of `a` is a key of `b`.
pub open spec fn keys_within(a: Seq<Seq<char>>, b: Seq<Seq<char>>) -> bool {
    forall|k: Seq<char>| a.contains(k) ==> b.contains(k)
}

proof fn lemma_keys_push(a: Seq<Seq<char>>, k: Seq<char>)
    ensures
        keys_within(a, a.push(k)),
        a.push(k).contains(k),
{
    assert(a.push(k)[a.len() as int] == k);
    assert forall|x: Seq<char>| a.contains(x) implies a.push(k).contains(x) by {
        let i = choose|i: int| 0 <= i < a.len() && a[i] == x;
        assert(a.push(k)[i] == x);
    }
}

/// Two documents with the same board plan the same probes.
proof fn lemma_same_board_voltage(d1: Yaml, d2: Yaml, sc: Seq<char>, st: ProbePlan, bl: Seq<Yaml>)
    requires
        board_of(d1) == board_of(d2),
    ensures
        voltage_plan(d1, sc, st, bl) == voltage_plan(d2, sc, st, bl),
    decreases bl.len(),
{
    if bl.len() > 0 {
        lemma_same_board_voltage(d1, d2, sc, st, bl.drop_last());
    }
}

proof fn lemma_same_board_sources(d1: Yaml, d2: Yaml, ids: Seq<Seq<char>>)
    requires
        board_of(d1) == board_of(d2),
    ensures
        source_components(d1, ids) == source_components(d2, ids),
    decreases ids.len(),
{
    if ids.len() > 0 {
        lemma_same_board_sources(d1, d2, ids.drop_last());
    }
}

proof fn lemma_same_board_scenario(d1: Yaml, d2: Yaml, s: Yaml)
    requires
        board_of(d1) == board_of(d2),
    ensures
        scenario_candidates(d1, s) == scenario_candidates(d2, s),
{
    if let Some(a) = scenario_analog(s) {
        lemma_same_board_voltage(d1, d2, text_or_empty(s, "name"@), initial_plan(a), list_field(a, "node_bindings"@));
        let ids = match field(a, "generated"@) {
            Some(Yaml::Mapping(g)) => texts(list_field(Yaml::Mapping(g), "components"@)),
            _ => sorted_of(
                pin_binding_components(
                    list_field(a, "pin_bindings"@),
                    list_field(a, "pin_bindings"@).len() as int,
                ),
            ),
        };
        lemma_same_board_sources(d1, d2, ids);
    }
}

/// The voltage pass only adds: its keys track its candidates, its count only grows, and
/// the keys it had stay.
proof fn lemma_voltage_grows(doc: Yaml, sc: Seq<char>, st: ProbePlan, bl: Seq<Yaml>, base: Seq<Seq<char>>)
    requires
        keys_track(st, base),
    ensures
        keys_track(voltage_plan(doc, sc, st, bl), base),
        voltage_plan(doc, sc, st, bl).count >= st.count,
        keys_within(st.keys, voltage_plan(doc, sc, st, bl).keys),
    decreases bl.len(),
{
    if bl.len() > 0 {
        let p = voltage_plan(doc, sc, st, bl.drop_last());
        lemma_voltage_grows(doc, sc, st, bl.drop_last(), base);
        if p.count < MAX_AUTO_VOLTAGE_PROBES {
            let r = voltage_step(doc, sc, p, bl.last());
            if r != p {
                let c = r.out.last();
                assert(r.out == p.out.push(c));
                assert(r.keys == p.keys.push(cand_key(c)));
                assert(r.out.map_values(|c: CandidateSpec| cand_key(c)) =~= p.out.map_values(
                    |c: CandidateSpec| cand_key(c),
                ).push(cand_key(c)));
                assert(r.keys =~= base + r.out.map_values(|c: CandidateSpec| cand_key(c)));
                lemma_keys_push(p.keys, cand_key(c));
            }
        }
    }
}

/// The current pass only adds, in the same way.
proof fn lemma_current_grows(
    sc: Seq<char>,
    gen: bool,
    st: ProbePlan,
    comps: Seq<Seq<char>>,
    base: Seq<Seq<char>>,
)
    requires
        keys_track(st, base),
    ensures
        keys_track(current_plan(sc, gen, st, comps), base),
        current_plan(sc, gen, st, comps).count >= st.count,
        keys_within(st.keys, current_plan(sc, gen, st, comps).keys),
    decreases comps.len(),
{
    if comps.len() > 0 {
        let p = current_plan(sc, gen, st, comps.drop_last());
        lemma_current_grows(sc, gen, st, comps.drop_last(), base);
        if p.count < MAX_AUTO_CURRENT_PROBES {
            let r = current_step(sc, gen, p, comps.last());
            if r != p {
                let c = r.out.last();
                assert(r.out == p.out.push(c));
                assert(r.out.map_values(|c: CandidateSpec| cand_key(c)) =~= p.out.map_values(
                    |c: CandidateSpec| cand_key(c),
                ).push(cand_key(c)));
                assert(r.keys =~= base + r.out.map_values(|c: CandidateSpec| cand_key(c)));
                lemma_keys_push(p.keys, cand_key(c));
            }
        }
    }
}

/// A voltage pass that stays under its limit leaves every binding covered.
proof fn lemma_voltage_covers(doc: Yaml, sc: Seq<char>, st: ProbePlan, bl: Seq<Yaml>)
    requires
        keys_track(st, st.keys.subrange(0, st.keys.len() - st.out.len())),
        st.keys.len() >= st.out.len(),
        voltage_plan(doc, sc, st, bl).count < MAX_AUTO_VOLTAGE_PROBES,
    ensures
        forall|j: int|
            0 <= j < bl.len() ==> binding_covered(doc, #[trigger] bl[j], voltage_plan(doc, sc, st, bl).keys),
    decreases bl.len(),
{
    if bl.len() > 0 {
        let base = st.keys.subrange(0, st.keys.len() - st.out.len());
        let pre = bl.drop_last();
        let p = voltage_plan(doc, sc, st, pre);
        let r = voltage_plan(doc, sc, st, bl);
        lemma_voltage_grows(doc, sc, st, pre, base);
        lemma_voltage_grows(doc, sc, p, seq![bl.last()], base);
        assert(seq![bl.last()].drop_last() =~= Seq::<Yaml>::empty());
        assert(voltage_plan(doc, sc, p, Seq::<Yaml>::empty()) == p);
        assert(seq![bl.last()].last() == bl.last());
        assert(voltage_plan(doc, sc, p, seq![bl.last()]) == r);
        lemma_voltage_covers(doc, sc, st, pre);
        assert forall|j: int| 0 <= j < bl.len() implies binding_covered(doc, #[trigger] bl[j], r.keys) by {
            if j < bl.len() - 1 {
                assert(bl[j] == pre[j]);
                assert(binding_covered(doc, pre[j], p.keys));
            } else {
                let b = bl.last();
                if let (Some(node), Some(net)) = (text_field(b, "node"@), text_field(b, "net"@)) {
                    if net_is_probed(doc, net) {
                        let key = normalized_expression_spec(voltage_expression(node), "voltage"@);
                        if !p.keys.contains(key) {
                            lemma_keys_push(p.keys, key);
                        }
                    }
                }
            }
        }
    }
}

/// A voltage pass over covered bindings adds nothing.
proof fn lemma_voltage_noop(doc: Yaml, sc: Seq<char>, st: ProbePlan, bl: Seq<Yaml>)
    requires
        forall|j: int| 0 <= j < bl.len() ==> binding_covered(doc, #[trigger] bl[j], st.keys),
    ensures
        voltage_plan(doc, sc, st, bl) == st,
    decreases bl.len(),
{
    if bl.len() > 0 {
        let pre = bl.drop_last();
        assert forall|j: int| 0 <= j < pre.len() implies binding_covered(doc, #[trigger] pre[j], st.keys) by {
            assert(pre[j] == bl[j]);
        }
        lemma_voltage_noop(doc, sc, st, pre);
        assert(binding_covered(doc, bl[bl.len() - 1], st.keys));
    }
}

/// A current pass that stays under its limit leaves every component covered.
proof fn lemma_current_covers(sc: Seq<char>, gen: bool, st: ProbePlan, comps: Seq<Seq<char>>)
    requires
        keys_track(st, st.keys.subrange(0, st.keys.len() - st.out.len())),
        st.keys.len() >= st.out.len(),
        current_plan(sc, gen, st, comps).count < MAX_AUTO_CURRENT_PROBES,
    ensures
        forall|j: int|
            0 <= j < comps.len() ==> component_covered(#[trigger] comps[j], current_plan(sc, gen, st, comps).keys),
    decreases comps.len(),
{
    if comps.len() > 0 {
        let base = st.keys.subrange(0, st.keys.len() - st.out.len());
        let pre = comps.drop_last();
        let p = current_plan(sc, gen, st, pre);
        let r = current_plan(sc, gen, st, comps);
        lemma_current_grows(sc, gen, st, pre, base);
        lemma_current_grows(sc, gen, p, seq![comps.last()], base);
        assert(seq![comps.last()].drop_last() =~= Seq::<Seq<char>>::empty());
        assert(current_plan(sc, gen, p, Seq::<Seq<char>>::empty()) == p);
        assert(seq![comps.last()].last() == comps.last());
        assert(current_plan(sc, gen, p, seq![comps.last()]) == r);
        lemma_current_covers(sc, gen, st, pre);
        assert forall|j: int| 0 <= j < comps.len() implies component_covered(#[trigger] comps[j], r.keys) by {
            if j < comps.len() - 1 {
                assert(comps[j] == pre[j]);
                assert(component_covered(pre[j], p.keys));
            } else {
                let key = normalized_expression_spec(current_expression(comps.last()), "current"@);
                if !p.keys.contains(key) {
                    lemma_keys_push(p.keys, key);
                }
            }
        }
    }
}

/// A current pass over covered components adds nothing.
proof fn lemma_current_noop(sc: Seq<char>, gen: bool, st: ProbePlan, comps: Seq<Seq<char>>)
    requires
        forall|j: int| 0 <= j < comps.len() ==> component_covered(#[trigger] comps[j], st.keys),
    ensures
        current_plan(sc, gen, st, comps) == st,
    decreases comps.len(),
{
    if comps.len() > 0 {
        let pre = comps.drop_last();
        assert forall|j: int| 0 <= j < pre.len() implies component_covered(#[trigger] pre[j], st.keys) by {
            assert(pre[j] == comps[j]);
        }
        lemma_current_noop(sc, gen, st, pre);
        assert(component_covered(comps[comps.len() - 1], st.keys));
    }
}

/// The probe entry written for a candidate reads back its expression and quantity.
proof fn lemma_probe_entry_fields(c: CandidateSpec)
    ensures
        text_or_empty(probe_entry(c), "expression"@) == c.expression,
        text_or_empty(probe_entry(c), "quantity"@) == (if c.voltage { "voltage"@ } else { "current"@ }),
{
    reveal_strlit("name");
    reveal_strlit("expression");
    reveal_strlit("quantity");
    let m = probe_entry(c)->Mapping_0;
    assert("name"@.len() == 4 && "expression"@.len() == 10 && "quantity"@.len() == 8);
    assert(m[0].0 != Yaml::Text("expression"@));
    assert(m[0].0 != Yaml::Text("quantity"@) && m[1].0 != Yaml::Text("quantity"@));
    assert forall|j: int| 0 <= j < 2 implies #[trigger] m[j].0 != Yaml::Text("quantity"@) by {
        assert(j == 0 || j == 1);
    }
    assert(crate::doc::is_key_index(m, "expression"@, 1));
    crate::doc::lemma_key_index_unique(m, "expression"@, 1);
    assert(crate::doc::is_key_index(m, "quantity"@, 2));
    crate::doc::lemma_key_index_unique(m, "quantity"@, 2);
}

/// The keys of a probe list with candidates appended.
proof fn lemma_probe_keys_appended(l: Seq<Yaml>, new: Seq<CandidateSpec>)
    ensures
        probe_keys(l + new.map_values(|c: CandidateSpec| probe_entry(c))) == probe_keys(l) + new.map_values(
            |c: CandidateSpec| cand_key(c),
        ),
{
    let e = new.map_values(|c: CandidateSpec| probe_entry(c));
    assert forall|i: int| 0 <= i < new.len() implies #[trigger] probe_keys(l + e)[l.len() + i] == cand_key(new[i]) by {
        lemma_probe_entry_fields(new[i]);
        assert((l + e)[l.len() + i] == probe_entry(new[i]));
    }
    assert(probe_keys(l + e) =~= probe_keys(l) + new.map_values(|c: CandidateSpec| cand_key(c))) by {
        assert forall|i: int| 0 <= i < probe_keys(l + e).len() implies probe_keys(l + e)[i] == (probe_keys(l)
            + new.map_values(|c: CandidateSpec| cand_key(c)))[i] by {
            if i < l.len() {
                assert((l + e)[i] == l[i]);
            } else {
                assert(probe_keys(l + e)[l.len() + (i - l.len())] == cand_key(new[i - l.len()]));
            }
        }
    }
}

/// The node-voltage measurements that the bindings ask for and `keys` lacks, in binding
/// order (a binding asks for one when its net needs a probe).
pub open spec fn missing_voltage_keys(doc: Yaml, bl: Seq<Yaml>, keys: Seq<Seq<char>>) -> Seq<Seq<char>>
    decreases bl.len(),
{
    if bl.len() == 0 {
        Seq::empty()
    } else {
        let prev = missing_voltage_keys(doc, bl.drop_last(), keys);
        match (text_field(bl.last(), "node"@), text_field(bl.last(), "net"@)) {
            (Some(node), Some(net)) => {
                let k = normalized_expression_spec(voltage_expression(node), "voltage"@);
                if net_is_probed(doc, net) && !keys.contains(k) {
                    prev.push(k)
                } else {
                    prev
                }
            },
            _ => prev,
        }
    }
}

/// The branch-current measurements of the given source components that `keys` lacks.
pub open spec fn missing_current_keys(comps: Seq<Seq<char>>, keys: Seq<Seq<char>>) -> Seq<Seq<char>>
    decreases comps.len(),
{
    if comps.len() == 0 {
        Seq::empty()
    } else {
        let prev = missing_current_keys(comps.drop_last(), keys);
        let k = normalized_expression_spec(current_expression(comps.last()), "current"@);
        if !keys.contains(k) {
            prev.push(k)
        } else {
            prev
        }
    }
}

/// One automatic pass can add every probe a run setup misses: at most eight distinct node
/// voltages are unmeasured, and at most eight distinct source currents are unmeasured once
/// the voltage probes are planned.
pub open spec fn within_limits(doc: Yaml, s: Yaml) -> bool {
    match scenario_analog(s) {
        None => true,
        Some(a) => {
            &&& missing_voltage_keys(
                doc,
                list_field(a, "node_bindings"@),
                probe_keys(list_field(a, "probes"@)),
            ).to_set().len() <= MAX_AUTO_VOLTAGE_PROBES
            &&& missing_current_keys(current_candidates(doc, a), after_voltage(doc, s, a).keys).to_set().len()
                <= MAX_AUTO_CURRENT_PROBES
        },
    }
}

proof fn lemma_contains_push(s: Seq<Seq<char>>, x: Seq<char>, y: Seq<char>)
    ensures
        s.contains(x) ==> s.push(y).contains(x),
        s.push(y).contains(y),
        s.push(y).contains(x) ==> s.contains(x) || x == y,
{
    assert(s.push(y)[s.len() as int] == y);
    if s.contains(x) {
        let i = choose|i: int| 0 <= i < s.len() && s[i] == x;
        assert(s.push(y)[i] == x);
    }
    if s.push(y).contains(x) {
        let i = choose|i: int| 0 <= i < s.push(y).len() && s.push(y)[i] == x;
        if i < s.len() {
            assert(s[i] == x);
        }
    }
}

/// What the voltage pass adds: the keys `n` it appends are new, distinct and missing, one per
/// probe counted, and the count stays within the limit.
proof fn lemma_voltage_added(doc: Yaml, sc: Seq<char>, st: ProbePlan, bl: Seq<Yaml>) -> (n: Seq<Seq<char>>)
    requires
        st.count <= MAX_AUTO_VOLTAGE_PROBES,
    ensures
        voltage_plan(doc, sc, st, bl).keys == st.keys + n,
        voltage_plan(doc, sc, st, bl).count == st.count + n.len(),
        voltage_plan(doc, sc, st, bl).count <= MAX_AUTO_VOLTAGE_PROBES,
        n.no_duplicates(),
        forall|i: int| 0 <= i < n.len() ==> !st.keys.contains(#[trigger] n[i])
            && missing_voltage_keys(doc, bl, st.keys).contains(n[i]),
    decreases bl.len(),
{
    if bl.len() == 0 {
        assert(st.keys + Seq::<Seq<char>>::empty() =~= st.keys);
        Seq::empty()
    } else {
        let pre = bl.drop_last();
        let n0 = lemma_voltage_added(doc, sc, st, pre);
        let p = voltage_plan(doc, sc, st, pre);
        let m0 = missing_voltage_keys(doc, pre, st.keys);
        let m = missing_voltage_keys(doc, bl, st.keys);
        assert forall|x: Seq<char>| m0.contains(x) implies m.contains(x) by {
            match (text_field(bl.last(), "node"@), text_field(bl.last(), "net"@)) {
                (Some(node), Some(net)) => {
                    lemma_contains_push(m0, x, normalized_expression_spec(voltage_expression(node), "voltage"@));
                },
                _ => {},
            }
        }
        if p.count >= MAX_AUTO_VOLTAGE_PROBES {
            n0
        } else {
            let b = bl.last();
            match (text_field(b, "node"@), text_field(b, "net"@)) {
                (Some(node), Some(net)) => {
                    let k = normalized_expression_spec(voltage_expression(node), "voltage"@);
                    if net_is_probed(doc, net) && !p.keys.contains(k) {
                        let n = n0.push(k);
                        assert(p.keys.push(k) =~= st.keys + n);
                        assert(!st.keys.contains(k)) by {
                            if st.keys.contains(k) {
                                let i = choose|i: int| 0 <= i < st.keys.len() && st.keys[i] == k;
                                assert(p.keys[i] == k);
                            }
                        }
                        assert(!n0.contains(k)) by {
                            if n0.contains(k) {
                                let i = choose|i: int| 0 <= i < n0.len() && n0[i] == k;
                                assert(p.keys[st.keys.len() + i] == k);
                            }
                        }
                        lemma_contains_push(m0, k, k);
                        assert(m == m0.push(k));
                        assert forall|i: int, j: int| 0 <= i < j < n.len() implies n[i] != n[j] by {
                            if j == n0.len() {
                                assert(n0[i] == n[i]);
                            } else {
                                assert(n0[i] == n[i] && n0[j] == n[j]);
                            }
                        }
                        assert forall|i: int| 0 <= i < n.len() implies !st.keys.contains(#[trigger] n[i])
                            && m.contains(n[i]) by {
                            if i < n0.len() {
                                assert(n0[i] == n[i]);
                            }
                        }
                        n
                    } else {
                        n0
                    }
                },
                _ => n0,
            }
        }
    }
}

/// What the current pass adds, in the same way.
proof fn lemma_current_added(sc: Seq<char>, gen: bool, st: ProbePlan, comps: Seq<Seq<char>>) -> (n: Seq<
    Seq<char>,
>)
    requires
        st.count <= MAX_AUTO_CURRENT_PROBES,
    ensures
        current_plan(sc, gen, st, comps).keys == st.keys + n,
        current_plan(sc, gen, st, comps).count == st.count + n.len(),
        current_plan(sc, gen, st, comps).count <= MAX_AUTO_CURRENT_PROBES,
        n.no_duplicates(),
        forall|i: int| 0 <= i < n.len() ==> !st.keys.contains(#[trigger] n[i])
            && missing_current_keys(comps, st.keys).contains(n[i]),
    decreases comps.len(),
{
    if comps.len() == 0 {
        assert(st.keys + Seq::<Seq<char>>::empty() =~= st.keys);
        Seq::empty()
    } else {
        let pre = comps.drop_last();
        let n0 = lemma_current_added(sc, gen, st, pre);
        let p = current_plan(sc, gen, st, pre);
        let m0 = missing_current_keys(pre, st.keys);
        let m = missing_current_keys(comps, st.keys);
        let k = normalized_expression_spec(current_expression(comps.last()), "current"@);
        assert forall|x: Seq<char>| m0.contains(x) implies m.contains(x) by {
            lemma_contains_push(m0, x, k);
        }
        if p.count >= MAX_AUTO_CURRENT_PROBES {
            n0
        } else if !p.keys.contains(k) {
            let n = n0.push(k);
            assert(p.keys.push(k) =~= st.keys + n);
            assert(!st.keys.contains(k)) by {
                if st.keys.contains(k) {
                    let i = choose|i: int| 0 <= i < st.keys.len() && st.keys[i] == k;
                    assert(p.keys[i] == k);
                }
            }
            assert(!n0.contains(k)) by {
                if n0.contains(k) {
                    let i = choose|i: int| 0 <= i < n0.len() && n0[i] == k;
                    assert(p.keys[st.keys.len() + i] == k);
                }
            }
            lemma_contains_push(m0, k, k);
            assert(m == m0.push(k));
            assert forall|i: int, j: int| 0 <= i < j < n.len() implies n[i] != n[j] by {
                if j == n0.len() {
                    assert(n0[i] == n[i]);
                } else {
                    assert(n0[i] == n[i] && n0[j] == n[j]);
                }
            }
            assert forall|i: int| 0 <= i < n.len() implies !st.keys.contains(#[trigger] n[i]) && m.contains(
                n[i],
            ) by {
                if i < n0.len() {
                    assert(n0[i] == n[i]);
                }
            }
            n
        } else {
            n0
        }
    }
}

/// A binding whose net needs a probe and whose measurement `keys` lacks is among the missing
/// measurements.
proof fn lemma_voltage_missing_has(doc: Yaml, bl: Seq<Yaml>, keys: Seq<Seq<char>>, j: int)
    requires
        0 <= j < bl.len(),
        text_field(bl[j], "node"@) is Some,
        text_field(bl[j], "net"@) is Some,
        net_is_probed(doc, text_field(bl[j], "net"@).unwrap()),
        !keys.contains(normalized_expression_spec(voltage_expression(text_field(bl[j], "node"@).unwrap()), "voltage"@)),
    ensures
        missing_voltage_keys(doc, bl, keys).contains(
            normalized_expression_spec(voltage_expression(text_field(bl[j], "node"@).unwrap()), "voltage"@),
        ),
    decreases bl.len(),
{
    let k = normalized_expression_spec(voltage_expression(text_field(bl[j], "node"@).unwrap()), "voltage"@);
    let pre = bl.drop_last();
    let m0 = missing_voltage_keys(doc, pre, keys);
    if j < bl.len() - 1 {
        assert(pre[j] == bl[j]);
        lemma_voltage_missing_has(doc, pre, keys, j);
        match (text_field(bl.last(), "node"@), text_field(bl.last(), "net"@)) {
            (Some(node), Some(net)) => {
                lemma_contains_push(m0, k, normalized_expression_spec(voltage_expression(node), "voltage"@));
            },
            _ => {},
        }
    } else {
        lemma_contains_push(m0, k, k);
    }
}

/// A source whose measurement `keys` lacks is among the missing measurements.
proof fn lemma_current_missing_has(comps: Seq<Seq<char>>, keys: Seq<Seq<char>>, j: int)
    requires
        0 <= j < comps.len(),
        !keys.contains(normalized_expression_spec(current_expression(comps[j]), "current"@)),
    ensures
        missing_current_keys(comps, keys).contains(
            normalized_expression_spec(current_expression(comps[j]), "current"@),
        ),
    decreases comps.len(),
{
    let k = normalized_expression_spec(current_expression(comps[j]), "current"@);
    let pre = comps.drop_last();
    let m0 = missing_current_keys(pre, keys);
    let kl = normalized_expression_spec(current_expression(comps.last()), "current"@);
    if j < comps.len() - 1 {
        assert(pre[j] == comps[j]);
        lemma_current_missing_has(pre, keys, j);
        lemma_contains_push(m0, k, kl);
    } else {
        lemma_contains_push(m0, k, k);
    }
}

/// When the added keys fill the limit and no more are missing, every missing key was added.
proof fn lemma_all_missing_added(n: Seq<Seq<char>>, missing: Seq<Seq<char>>, limit: nat)
    requires
        n.no_duplicates(),
        n.len() == limit,
        missing.to_set().len() <= limit,
        forall|i: int| 0 <= i < n.len() ==> missing.contains(#[trigger] n[i]),
    ensures
        forall|x: Seq<char>| missing.contains(x) ==> n.contains(x),
{
    n.unique_seq_to_set();
    broadcast use vstd::seq_lib::seq_to_set_is_finite;
    assert(n.to_set().subset_of(missing.to_set())) by {
        assert forall|x: Seq<char>| n.to_set().contains(x) implies missing.to_set().contains(x) by {
            let i = choose|i: int| 0 <= i < n.len() && n[i] == x;
            assert(missing.contains(n[i]));
        }
    }
    vstd::set_lib::lemma_len_subset(n.to_set(), missing.to_set());
    vstd::set_lib::lemma_subset_equality(n.to_set(), missing.to_set());
    assert forall|x: Seq<char>| missing.contains(x) implies n.contains(x) by {
        assert(missing.to_set().contains(x));
        assert(n.to_set().contains(x));
    }
}

/// A voltage pass from an empty plan that can add every missing measurement leaves every
/// binding covered.
proof fn lemma_voltage_complete(doc: Yaml, sc: Seq<char>, st: ProbePlan, bl: Seq<Yaml>)
    requires
        st.count == 0,
        st.out.len() == 0,
        keys_track(st, st.keys),
        missing_voltage_keys(doc, bl, st.keys).to_set().len() <= MAX_AUTO_VOLTAGE_PROBES,
    ensures
        forall|j: int|
            0 <= j < bl.len() ==> binding_covered(doc, #[trigger] bl[j], voltage_plan(doc, sc, st, bl).keys),
{
    let r = voltage_plan(doc, sc, st, bl);
    if r.count < MAX_AUTO_VOLTAGE_PROBES {
        assert(st.keys.subrange(0, st.keys.len() - st.out.len()) =~= st.keys);
        lemma_voltage_covers(doc, sc, st, bl);
    } else {
        let n = lemma_voltage_added(doc, sc, st, bl);
        let m = missing_voltage_keys(doc, bl, st.keys);
        lemma_all_missing_added(n, m, MAX_AUTO_VOLTAGE_PROBES as nat);
        assert forall|j: int| 0 <= j < bl.len() implies binding_covered(doc, #[trigger] bl[j], r.keys) by {
            if let (Some(node), Some(net)) = (text_field(bl[j], "node"@), text_field(bl[j], "net"@)) {
                if net_is_probed(doc, net) {
                    let k = normalized_expression_spec(voltage_expression(node), "voltage"@);
                    if st.keys.contains(k) {
                        let i = choose|i: int| 0 <= i < st.keys.len() && st.keys[i] == k;
                        assert(r.keys[i] == k);
                    } else {
                        lemma_voltage_missing_has(doc, bl, st.keys, j);
                        assert(n.contains(k));
                        let i = choose|i: int| 0 <= i < n.len() && n[i] == k;
                        assert(r.keys[st.keys.len() + i] == k);
                    }
                }
            }
        }
    }
}

/// A current pass with a fresh count that can add every missing measurement leaves every
/// source covered.
proof fn lemma_current_complete(sc: Seq<char>, gen: bool, st: ProbePlan, comps: Seq<Seq<char>>)
    requires
        st.count == 0,
        keys_track(st, st.keys.subrange(0, st.keys.len() - st.out.len())),
        st.keys.len() >= st.out.len(),
        missing_current_keys(comps, st.keys).to_set().len() <= MAX_AUTO_CURRENT_PROBES,
    ensures
        forall|j: int|
            0 <= j < comps.len() ==> component_covered(#[trigger] comps[j], current_plan(sc, gen, st, comps).keys),
{
    let r = current_plan(sc, gen, st, comps);
    if r.count < MAX_AUTO_CURRENT_PROBES {
        lemma_current_covers(sc, gen, st, comps);
    } else {
        let n = lemma_current_added(sc, gen, st, comps);
        let m = missing_current_keys(comps, st.keys);
        lemma_all_missing_added(n, m, MAX_AUTO_CURRENT_PROBES as nat);
        assert forall|j: int| 0 <= j < comps.len() implies component_covered(#[trigger] comps[j], r.keys) by {
            let k = normalized_expression_spec(current_expression(comps[j]), "current"@);
            if st.keys.contains(k) {
                let i = choose|i: int| 0 <= i < st.keys.len() && st.keys[i] == k;
                assert(r.keys[i] == k);
            } else {
                lemma_current_missing_has(comps, st.keys, j);
                assert(n.contains(k));
                let i = choose|i: int| 0 <= i < n.len() && n[i] == k;
                assert(r.keys[st.keys.len() + i] == k);
            }
        }
    }
}

proof fn lemma_covered_within(doc: Yaml, b: Yaml, k1: Seq<Seq<char>>, k2: Seq<Seq<char>>)
    requires
        binding_covered(doc, b, k1),
        keys_within(k1, k2),
    ensures
        binding_covered(doc, b, k2),
{
}

/// One run setup: after its probes are added, the pass finds nothing more for it.
proof fn lemma_scenario_settles(doc: Yaml, doc2: Yaml, s: Yaml)
    requires
        board_of(doc) == board_of(doc2),
        within_limits(doc, s),
    ensures
        scenario_candidates(doc2, with_new_probes(s, scenario_candidates(doc, s))).len() == 0,
{
    lemma_same_board_scenario(doc, doc2, s);
    if let Some(a) = scenario_analog(s) {
        let sc = text_or_empty(s, "name"@);
        let bl = list_field(a, "node_bindings"@);
        let probes = list_field(a, "probes"@);
        let base = probe_keys(probes);
        let st0 = initial_plan(a);
        let v = voltage_plan(doc, sc, st0, bl);
        let av = after_voltage(doc, s, a);
        let comps = current_candidates(doc, a);
        let gen = generated_netlist(a);
        let c = current_plan(sc, gen, av, comps);
        let new = c.out;
        assert(st0.out.map_values(|c: CandidateSpec| cand_key(c)) =~= Seq::<Seq<char>>::empty());
        assert(keys_track(st0, base)) by {
            assert(base + st0.out.map_values(|c: CandidateSpec| cand_key(c)) =~= base);
        }
        lemma_voltage_grows(doc, sc, st0, bl, base);
        assert(keys_track(av, base));
        lemma_current_grows(sc, gen, av, comps, base);
        lemma_voltage_complete(doc, sc, st0, bl);
        assert(av.keys.subrange(0, av.keys.len() - av.out.len()) =~= base);
        lemma_current_complete(sc, gen, av, comps);
        if new.len() > 0 {
            let sm = s->Mapping_0;
            let am = a->Mapping_0;
            let l2 = list_field(Yaml::Mapping(am), "probes"@) + new.map_values(|c: CandidateSpec| probe_entry(c));
            let am2 = map_insert(am, "probes"@, Yaml::List(l2));
            let a2 = Yaml::Mapping(am2);
            let s2 = Yaml::Mapping(map_insert(sm, "analog"@, a2));
            assert(with_new_probes(s, new) == s2);
            reveal_strlit("analog");
            reveal_strlit("name");
            reveal_strlit("probes");
            reveal_strlit("node_bindings");
            reveal_strlit("generated");
            reveal_strlit("pin_bindings");
            reveal_strlit("netlist_source");
            assert("name"@.len() == 4 && "analog"@.len() == 6 && "probes"@.len() == 6);
            assert("node_bindings"@.len() == 13);
            crate::doc::lemma_get_insert(sm, "analog"@, a2);
            crate::doc::lemma_get_insert_other(sm, "analog"@, a2, "name"@);
            crate::doc::lemma_get_insert(am, "probes"@, Yaml::List(l2));
            crate::doc::lemma_get_insert_other(am, "probes"@, Yaml::List(l2), "node_bindings"@);
            crate::doc::lemma_get_insert_other(am, "probes"@, Yaml::List(l2), "generated"@);
            crate::doc::lemma_get_insert_other(am, "probes"@, Yaml::List(l2), "pin_bindings"@);
            crate::doc::lemma_get_insert_other(am, "probes"@, Yaml::List(l2), "netlist_source"@);
            assert(scenario_analog(s2) == Some(a2));
            assert(text_or_empty(s2, "name"@) == sc);
            assert(list_field(a2, "node_bindings"@) == bl);
            assert(list_field(a2, "probes"@) == l2);
            lemma_probe_keys_appended(probes, new);
            let st2 = initial_plan(a2);
            assert(st2.keys == c.keys);
            assert forall|j: int| 0 <= j < bl.len() implies binding_covered(doc, #[trigger] bl[j], st2.keys) by {
                assert(binding_covered(doc, bl[j], v.keys));
                lemma_covered_within(doc, bl[j], v.keys, c.keys);
            }
            lemma_voltage_noop(doc, sc, st2, bl);
            lemma_same_board_voltage(doc, doc2, sc, st2, bl);
            assert(current_candidates(doc, a2) == comps);
            let ids2 = match field(a2, "generated"@) {
                Some(Yaml::Mapping(g)) => texts(list_field(Yaml::Mapping(g), "components"@)),
                _ => sorted_of(
                    pin_binding_components(
                        list_field(a2, "pin_bindings"@),
                        list_field(a2, "pin_bindings"@).len() as int,
                    ),
                ),
            };
            lemma_same_board_sources(doc, doc2, ids2);
            assert(current_candidates(doc2, a2) == comps);
            let av2 = after_voltage(doc2, s2, a2);
            assert(av2.keys == c.keys);
            assert(av2.out == Seq::<CandidateSpec>::empty());
            lemma_current_noop(sc, generated_netlist(a2), av2, comps);
        }
    }
}

/// The candidates of run setups that each have none.
proof fn lemma_no_candidates(doc: Yaml, l: Seq<Yaml>)
    requires
        forall|i: int| 0 <= i < l.len() ==> (#[trigger] scenario_candidates(doc, l[i])).len() == 0,
    ensures
        all_candidates(doc, l).len() == 0,
    decreases l.len(),
{
    if l.len() > 0 {
        let p = l.drop_last();
        assert forall|i: int| 0 <= i < p.len() implies (#[trigger] scenario_candidates(doc, p[i])).len() == 0 by {
            assert(p[i] == l[i]);
        }
        lemma_no_candidates(doc, p);
        assert(scenario_candidates(doc, l[l.len() - 1]).len() == 0);
    }
}

/// Each run setup of the project misses at most eight node voltages and at most eight
/// source currents, so that one automatic pass can add them all.
pub open spec fn all_within_limits(doc: Yaml) -> bool {
    forall|i: int| 0 <= i < scenarios_of(doc).len() ==> within_limits(doc, #[trigger] scenarios_of(doc)[i])
}

/// The automatic scope probes are added once: on the project with them added, the pass
/// finds nothing more to add, when no run setup misses more than eight node voltages or
/// more than eight source currents.
pub proof fn law_auto_probes_settle(doc: Yaml)
    requires
        all_within_limits(doc),
    ensures
        all_candidates(auto_probe_doc(doc), scenarios_of(auto_probe_doc(doc))).len() == 0,
{
    let d2 = auto_probe_doc(doc);
    match doc {
        Yaml::Mapping(m) => match map_get(m, "scenarios"@) {
            Some(Yaml::List(l)) => {
                let l2 = Seq::new(l.len(), |i: int| with_new_probes(l[i], scenario_candidates(doc, l[i])));
                reveal_strlit("board");
                reveal_strlit("scenarios");
                assert("board"@.len() == 5 && "scenarios"@.len() == 9);
                crate::doc::lemma_get_insert(m, "scenarios"@, Yaml::List(l2));
                crate::doc::lemma_get_insert_other(m, "scenarios"@, Yaml::List(l2), "board"@);
                assert(board_of(d2) == board_of(doc));
                assert(scenarios_of(d2) == l2);
                assert(scenarios_of(doc) == l);
                assert forall|i: int| 0 <= i < l2.len() implies (#[trigger] scenario_candidates(d2, l2[i])).len()
                    == 0 by {
                    assert(within_limits(doc, scenarios_of(doc)[i]));
                    lemma_scenario_settles(doc, d2, l[i]);
                }
                lemma_no_candidates(d2, l2);
            },
            _ => {
                assert(scenarios_of(doc) =~= Seq::<Yaml>::empty());
            },
        },
        _ => {
            assert(scenarios_of(doc) =~= Seq::<Yaml>::empty());
        },
    }
}

/// When a list of run setups has no candidates, none of its run setups has any.
proof fn lemma_candidates_empty(doc: Yaml, l: Seq<Yaml>)
    requires
        all_candidates(doc, l).len() == 0,
    ensures
        forall|i: int| 0 <= i < l.len() ==> (#[trigger] scenario_candidates(doc, l[i])).len() == 0,
    decreases l.len(),
{
    if l.len() > 0 {
        let p = l.drop_last();
        lemma_candidates_empty(doc, p);
        assert forall|i: int| 0 <= i < l.len() implies (#[trigger] scenario_candidates(doc, l[i])).len()
            == 0 by {
            if i < l.len() - 1 {
                assert(l[i] == p[i]);
            }
        }
    }
}

/// A second automatic pass over the document finds nothing and changes nothing, when no run
/// setup misses more than eight node voltages or more than eight source currents.
pub proof fn law_auto_probes_added_once(doc: Yaml)
    requires
        all_within_limits(doc),
    ensures
        all_candidates(auto_probe_doc(doc), scenarios_of(auto_probe_doc(doc))).len() == 0,
        auto_probe_doc(auto_probe_doc(doc)) == auto_probe_doc(doc),
{
    law_auto_probes_settle(doc);
    let d2 = auto_probe_doc(doc);
    lemma_candidates_empty(d2, scenarios_of(d2));
    match d2 {
        Yaml::Mapping(m2) => match map_get(m2, "scenarios"@) {
            Some(Yaml::List(l2)) => {
                reveal_strlit("scenarios");
                assert(scenarios_of(d2) == l2);
                let l3 = Seq::new(l2.len(), |i: int| with_new_probes(l2[i], scenario_candidates(d2, l2[i])));
                assert forall|i: int| 0 <= i < l2.len() implies l3[i] == l2[i] by {
                    assert(scenario_candidates(d2, l2[i]).len() == 0);
                }
                assert(l3 =~= l2);
                crate::board::lemma_insert_same(m2, "scenarios"@);
            },
            _ => {},
        },
        _ => {},
    }
}

/// Running the automatic pass on its own result adds nothing and leaves that text as it
/// is, when no run setup misses more than eight node voltages or more than eight source
/// currents, and when reading the text that the pass wrote (if it wrote one) gives back the
/// edited project.
pub proof fn law_auto_probe_text_added_once(
    text: Seq<char>,
    written: (Seq<char>, nat, nat, Option<(Seq<char>, Seq<char>)>),
)
    requires
        auto_probe_edit(text) == Ok::<_, EditErr>(written),
        parsed_yaml(text) matches Some(d) && all_within_limits(d) && (all_candidates(
            d,
            scenarios_of(d),
        ).len() > 0 ==> parsed_yaml(written.0) == Some(auto_probe_doc(d))),
    ensures
        auto_probe_edit(written.0) == Ok::<_, EditErr>((written.0, 0nat, 0nat, None::<(Seq<char>, Seq<char>)>)),
{
    let d = parsed_yaml(text).unwrap();
    if all_candidates(d, scenarios_of(d)).len() == 0 {
        assert(written.0 == text);
    } else {
        law_auto_probes_settle(d);
    }
}

} // verus!
