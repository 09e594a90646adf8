//! Getting a project ready for a scope run: when no analog run setup has a probe yet, a
//! voltage probe is added to the first analog setup, or, when there is none, a transient
//! setup with one voltage probe is created.
use vstd::prelude::*;
use crate::board::{EditErr, EditError, board_child, board_of, board_table};
use crate::doc::{
    Yaml, YamlEntry, YamlNode, entries_of, has_key, lemma_list_view, lemma_map_view,
    list_field, list_of, map_find, map_get, map_insert, map_restore, map_take,
    node_field, node_list_field, node_text_field, take_field, text_field, text_node,
    text_or_empty,
};
use crate::naming::{first_free, names, nonblank, nonblank_id, unique_id};
use crate::order::{
    id_keys, lemma_lt_asymmetric, lemma_lt_irreflexive, lemma_lt_total, lemma_lt_transitive, map_keys_by_id,
    seq_lt, str_lt,
};
use crate::probes::{
    AutoScopeProbeCandidate, AutoScopeProbeKind, CandidateSpec, add_probes, net_is_probed, probe_entry,
    probe_names, scenario_analog, scenarios_of, voltage_expression, with_new_probes,
};
use crate::state::CircuitCiApp;
use crate::text::{new_string, str_to_string, text_eq};
use crate::yaml_io::{emit_doc, emitted, parse_yaml, parsed_yaml};

verus! {

/// What getting ready for a scope run added.
#[derive(Debug, PartialEq, Eq)]
pub enum ScopeRunPreparation {
    AddedScenario { scenario_name: String, probe_name: String, net_id: String },
    AddedProbe { scenario_name: String, probe_name: String, net_id: String },
}

/// The mathematical form of a preparation: whether a setup was created, the setup, the
/// probe and the net.
pub open spec fn prep_view(p: ScopeRunPreparation) -> (bool, Seq<char>, Seq<char>, Seq<char>) {
    match p {
        ScopeRunPreparation::AddedScenario { scenario_name, probe_name, net_id } => (
            true,
            scenario_name@,
            probe_name@,
            net_id@,
        ),
        ScopeRunPreparation::AddedProbe { scenario_name, probe_name, net_id } => (
            false,
            scenario_name@,
            probe_name@,
            net_id@,
        ),
    }
}

/// The status line reporting a preparation.
pub open spec fn prep_status(p: (bool, Seq<char>, Seq<char>, Seq<char>)) -> Seq<char> {
    if p.0 {
        "Run created transient setup "@ + p.1 + " with voltage probe "@ + p.2 + " on net "@ + p.3
            + "."@
    } else {
        "Run added voltage probe "@ + p.2 + " on net "@ + p.3 + " to run setup "@ + p.1 + "."@
    }
}

impl ScopeRunPreparation {
    /// The run setup the probe is in.
    pub fn scenario_name(&self) -> (r: &str)
        ensures
            r@ == prep_view(*self).1,
    {
        match self {
            ScopeRunPreparation::AddedScenario { scenario_name, .. } => scenario_name.as_str(),
            ScopeRunPreparation::AddedProbe { scenario_name, .. } => scenario_name.as_str(),
        }
    }

    /// The probe that was added.
    pub fn probe_name(&self) -> (r: &str)
        ensures
            r@ == prep_view(*self).2,
    {
        match self {
            ScopeRunPreparation::AddedScenario { probe_name, .. } => probe_name.as_str(),
            ScopeRunPreparation::AddedProbe { probe_name, .. } => probe_name.as_str(),
        }
    }

    /// The status line reporting what was added.
    pub fn status_message(&self) -> (r: String)
        ensures
            r@ == prep_status(prep_view(*self)),
    {
        match self {
            ScopeRunPreparation::AddedScenario { scenario_name, probe_name, net_id } => {
                let mut r = str_to_string("Run created transient setup ");
                r.append(scenario_name.as_str());
                r.append(" with voltage probe ");
                r.append(probe_name.as_str());
                r.append(" on net ");
                r.append(net_id.as_str());
                r.append(".");
                r
            },
            ScopeRunPreparation::AddedProbe { scenario_name, probe_name, net_id } => {
                let mut r = str_to_string("Run added voltage probe ");
                r.append(probe_name.as_str());
                r.append(" on net ");
                r.append(net_id.as_str());
                r.append(" to run setup ");
                r.append(scenario_name.as_str());
                r.append(".");
                r
            },
        }
    }
}

// ---------------------------------------------------------------------------------------
// Default nets
// ---------------------------------------------------------------------------------------

/// Net `k` is on the board and its kind is ground exactly when `ground` is set.
pub open spec fn net_matches(nets: Seq<(Yaml, Yaml)>, k: Seq<char>, ground: bool) -> bool {
    has_key(nets, k) && (text_field(map_get(nets, k)->0, "kind"@) == Some("ground"@)) == ground
}

/// `k` is the first such net in name order.
pub open spec fn is_least_net(nets: Seq<(Yaml, Yaml)>, k: Seq<char>, ground: bool) -> bool {
    net_matches(nets, k, ground) && forall|k2: Seq<char>|
        #![trigger net_matches(nets, k2, ground)]
        net_matches(nets, k2, ground) ==> !seq_lt(k2, k)
}

/// The first net in name order that is (or is not) a ground net.
pub open spec fn least_net(nets: Seq<(Yaml, Yaml)>, ground: bool) -> Option<Seq<char>> {
    if exists|k: Seq<char>| is_least_net(nets, k, ground) {
        Some(choose|k: Seq<char>| is_least_net(nets, k, ground))
    } else {
        None
    }
}

pub proof fn lemma_least_net_unique(nets: Seq<(Yaml, Yaml)>, a: Seq<char>, b: Seq<char>, ground: bool)
    requires
        is_least_net(nets, a, ground),
        is_least_net(nets, b, ground),
    ensures
        a == b,
{
    if a != b {
        lemma_lt_total(a, b);
    }
}

/// The nets of a project's board; empty when there are none.
pub open spec fn board_nets(doc: Yaml) -> Seq<(Yaml, Yaml)> {
    match board_child(doc, "nets"@) {
        Ok(n) => n,
        Err(_) => Seq::empty(),
    }
}

/// The net a new transient setup is grounded to: the first ground net by name.
pub open spec fn scope_ground_net(doc: Yaml) -> Result<Seq<char>, EditErr> {
    match least_net(board_nets(doc), true) {
        Some(k) => Ok(k),
        None => Err(EditErr::NoGroundNet),
    }
}

/// The net a new transient setup probes: the first net by name that is not ground, else the
/// first net.
pub open spec fn scope_probe_net(doc: Yaml) -> Result<Seq<char>, EditErr> {
    match least_net(board_nets(doc), false) {
        Some(k) => Ok(k),
        None => match least_net(board_nets(doc), true) {
            Some(k) => Ok(k),
            None => Err(EditErr::NoNets),
        },
    }
}

/// The key of entry `q` does not name a matching net that sorts before `b`.
pub open spec fn not_before(e: Seq<(Yaml, Yaml)>, q: int, ground: bool, b: Seq<char>) -> bool {
    match e[q].0 {
        Yaml::Text(k) => net_matches(e, k, ground) ==> !seq_lt(k, b),
        _ => true,
    }
}

/// The key of entry `q` does not name a matching net.
pub open spec fn no_match_at(e: Seq<(Yaml, Yaml)>, q: int, ground: bool) -> bool {
    match e[q].0 {
        Yaml::Text(k) => !net_matches(e, k, ground),
        _ => true,
    }
}

fn key_matches(nets: &Vec<YamlEntry>, k: &str, ground: bool) -> (r: bool)
    ensures
        r == net_matches(entries_of(nets@), k@, ground),
{
    match map_find(nets, k) {
        None => false,
        Some(i) => {
            let g = match node_text_field(&nets[i].value, "kind") {
                Some(t) => text_eq(t.as_str(), "ground"),
                None => false,
            };
            g == ground
        },
    }
}

/// The first net by name that is (or is not) ground.
fn least_net_of(nets: &Vec<YamlEntry>, ground: bool) -> (r: Option<String>)
    ensures
        match r {
            Some(k) => least_net(entries_of(nets@), ground) == Some(k@),
            None => least_net(entries_of(nets@), ground) is None,
        },
{
    let ghost e = entries_of(nets@);
    let mut best: Option<String> = None;
    let mut j: usize = 0;
    while j < nets.len()
        invariant
            e == entries_of(nets@),
            j <= nets@.len(),
            match best {
                Some(b) => net_matches(e, b@, ground) && forall|q: int|
                    0 <= q < j ==> #[trigger] not_before(e, q, ground, b@),
                None => forall|q: int| 0 <= q < j ==> #[trigger] no_match_at(e, q, ground),
            },
        decreases nets@.len() - j,
    {
        match &nets[j].key {
            YamlNode::Text(k) => {
                if key_matches(nets, k.as_str(), ground) {
                    match &best {
                        None => {
                            best = Some(str_to_string(k.as_str()));
                            assert forall|q: int| 0 <= q < j + 1 implies #[trigger] not_before(
                                e,
                                q,
                                ground,
                                k@,
                            ) by {
                                if q == j {
                                    lemma_lt_irreflexive(k@);
                                } else {
                                    assert(no_match_at(e, q, ground));
                                }
                            }
                        },
                        Some(b) => {
                            if str_lt(k.as_str(), b.as_str()) {
                                let ghost bv = b@;
                                best = Some(str_to_string(k.as_str()));
                                assert forall|q: int| 0 <= q < j + 1 implies #[trigger] not_before(
                                    e,
                                    q,
                                    ground,
                                    k@,
                                ) by {
                                    if q == j {
                                        lemma_lt_irreflexive(k@);
                                    } else {
                                        assert(not_before(e, q, ground, bv));
                                        if let Yaml::Text(k2) = e[q].0 {
                                            if net_matches(e, k2, ground) && seq_lt(k2, k@) {
                                                lemma_lt_transitive(k2, k@, bv);
                                            }
                                        }
                                    }
                                }
                            }
                        },
                    }
                }
            },
            _ => {},
        }
        j = j + 1;
    }
    match best {
        Some(b) => {
            assert(is_least_net(e, b@, ground)) by {
                assert forall|k2: Seq<char>| #[trigger] net_matches(e, k2, ground) implies !seq_lt(k2, b@) by {
                    let q = choose|q: int| 0 <= q < e.len() && #[trigger] e[q].0 == Yaml::Text(k2);
                    assert(not_before(e, q, ground, b@));
                }
            }
            proof {
                let c = choose|k: Seq<char>| is_least_net(e, k, ground);
                lemma_least_net_unique(e, c, b@, ground);
            }
            Some(b)
        },
        None => {
            assert(!exists|k: Seq<char>| is_least_net(e, k, ground)) by {
                if exists|k: Seq<char>| is_least_net(e, k, ground) {
                    let k = choose|k: Seq<char>| is_least_net(e, k, ground);
                    let q = choose|q: int| 0 <= q < e.len() && #[trigger] e[q].0 == Yaml::Text(k);
                    assert(no_match_at(e, q, ground));
                }
            }
            None
        },
    }
}

/// The nets of the board, read in place; none when the board has no nets mapping.
fn nets_table(doc: &YamlNode) -> (r: Option<&Vec<YamlEntry>>)
    ensures
        match r {
            Some(t) => board_nets(doc@) == entries_of(t@),
            None => board_nets(doc@) == Seq::<(Yaml, Yaml)>::empty(),
        },
{
    match board_table(doc, "nets") {
        Ok(t) => Some(t),
        Err(_) => None,
    }
}

/// The ground net of a new transient setup: the first ground net by name.
pub fn default_scope_ground_net(doc: &YamlNode) -> (r: Result<String, EditError>)
    ensures
        match r {
            Ok(k) => scope_ground_net(doc@) == Ok::<Seq<char>, EditErr>(k@),
            Err(e) => scope_ground_net(doc@) == Err::<Seq<char>, EditErr>(e@),
        },
{
    let empty: Vec<YamlEntry> = Vec::new();
    let nets = match nets_table(doc) {
        Some(t) => t,
        None => &empty,
    };
    assert(board_nets(doc@) == entries_of(nets@)) by {
        assert(entries_of(empty@) =~= Seq::<(Yaml, Yaml)>::empty());
    }
    match least_net_of(nets, true) {
        Some(k) => Ok(k),
        None => Err(EditError::NoGroundNet),
    }
}

/// The probed net of a new transient setup: the first net by name that is not ground, else
/// the first net.
pub fn default_scope_probe_net(doc: &YamlNode) -> (r: Result<String, EditError>)
    ensures
        match r {
            Ok(k) => scope_probe_net(doc@) == Ok::<Seq<char>, EditErr>(k@),
            Err(e) => scope_probe_net(doc@) == Err::<Seq<char>, EditErr>(e@),
        },
{
    let empty: Vec<YamlEntry> = Vec::new();
    let nets = match nets_table(doc) {
        Some(t) => t,
        None => &empty,
    };
    assert(board_nets(doc@) == entries_of(nets@)) by {
        assert(entries_of(empty@) =~= Seq::<(Yaml, Yaml)>::empty());
    }
    match least_net_of(nets, false) {
        Some(k) => Ok(k),
        None => match least_net_of(nets, true) {
            Some(k) => Ok(k),
            None => Err(EditError::NoNets),
        },
    }
}

// ---------------------------------------------------------------------------------------
// Names
// ---------------------------------------------------------------------------------------

/// The names of the run setups.
pub open spec fn scenario_names(scens: Seq<Yaml>) -> Seq<Seq<char>> {
    scens.map_values(|s: Yaml| text_or_empty(s, "name"@))
}

fn scenario_name_list(doc: &YamlNode) -> (r: Vec<String>)
    ensures
        names(r@) == scenario_names(scenarios_of(doc@)),
{
    let mut r: Vec<String> = Vec::new();
    let ghost sl = scenarios_of(doc@);
    match node_list_field(doc, "scenarios") {
        None => {
            assert(names(r@) =~= scenario_names(sl));
        },
        Some(items) => {
            let mut i: usize = 0;
            while i < items.len()
                invariant
                    sl == list_of(items@),
                    i <= items@.len(),
                    names(r@) == scenario_names(sl).subrange(0, i as int),
                decreases items@.len() - i,
            {
                assert(sl[i as int] == items@[i as int]@);
                let n = match node_text_field(&items[i], "name") {
                    Some(t) => str_to_string(t.as_str()),
                    None => new_string(),
                };
                assert(n@ == text_or_empty(sl[i as int], "name"@));
                let ghost before = r@;
                r.push(n);
                assert(names(r@) =~= names(before).push(text_or_empty(sl[i as int], "name"@)));
                i = i + 1;
                assert(names(r@) =~= scenario_names(sl).subrange(0, i as int));
            }
            assert(scenario_names(sl).subrange(0, items@.len() as int) =~= scenario_names(sl));
        },
    }
    r
}

/// A new run setup's name: the preferred name (or `gui_transient`) made unique among the
/// project's setups.
pub fn unique_scope_scenario_name(doc: &YamlNode, preferred_scenario_name: &str) -> (r: String)
    ensures
        r@ == first_free(
            nonblank(preferred_scenario_name@, "gui_transient"@),
            scenario_names(scenarios_of(doc@)),
        ),
{
    let existing = scenario_name_list(doc);
    unique_id(preferred_scenario_name, "gui_transient", &existing)
}

/// The probe names of an analog part.
fn probe_name_list(analog: &YamlNode) -> (r: Vec<String>)
    ensures
        names(r@) == probe_names(list_field(analog@, "probes"@)),
{
    let mut r: Vec<String> = Vec::new();
    let ghost l = list_field(analog@, "probes"@);
    match node_list_field(analog, "probes") {
        None => {
            assert(names(r@) =~= probe_names(l));
        },
        Some(items) => {
            let mut i: usize = 0;
            while i < items.len()
                invariant
                    l == list_of(items@),
                    i <= items@.len(),
                    names(r@) == probe_names(l).subrange(0, i as int),
                decreases items@.len() - i,
            {
                assert(l[i as int] == items@[i as int]@);
                let n = match node_text_field(&items[i], "name") {
                    Some(t) => str_to_string(t.as_str()),
                    None => new_string(),
                };
                assert(n@ == text_or_empty(l[i as int], "name"@));
                let ghost before = r@;
                r.push(n);
                assert(names(r@) =~= names(before).push(text_or_empty(l[i as int], "name"@)));
                i = i + 1;
                assert(names(r@) =~= probe_names(l).subrange(0, i as int));
            }
            assert(probe_names(l).subrange(0, items@.len() as int) =~= probe_names(l));
        },
    }
    r
}

/// A new probe's name: the preferred name (or `probe_voltage`) made unique among the setup's
/// probes.
pub fn unique_scope_probe_name(analog: &YamlNode, preferred_probe_name: &str) -> (r: String)
    ensures
        r@ == first_free(
            nonblank(preferred_probe_name@, "probe_voltage"@),
            probe_names(list_field(analog@, "probes"@)),
        ),
{
    let existing = probe_name_list(analog);
    unique_id(preferred_probe_name, "probe_voltage", &existing)
}

// ---------------------------------------------------------------------------------------
// Preparing a run
// ---------------------------------------------------------------------------------------

/// `i` is the first run setup with an analog part.
pub open spec fn is_first_analog(scens: Seq<Yaml>, i: int) -> bool {
    &&& 0 <= i < scens.len()
    &&& scenario_analog(scens[i]) is Some
    &&& forall|k: int| 0 <= k < i ==> #[trigger] scenario_analog(scens[k]) is None
}

/// The net of a node binding.
pub open spec fn binding_net(b: Yaml) -> Seq<char> {
    text_or_empty(b, "net"@)
}

/// The node of a node binding.
pub open spec fn binding_node(b: Yaml) -> Seq<char> {
    text_or_empty(b, "node"@)
}

/// `j` is the first binding whose net is on the board and not ground.
pub open spec fn is_first_probed(doc: Yaml, bl: Seq<Yaml>, j: int) -> bool {
    &&& 0 <= j < bl.len()
    &&& net_is_probed(doc, binding_net(bl[j]))
    &&& forall|k: int| 0 <= k < j ==> !net_is_probed(doc, binding_net(#[trigger] bl[k]))
}

/// The binding a scope probe goes on: the first with a probed net, else the first.
pub open spec fn scope_binding(doc: Yaml, bl: Seq<Yaml>) -> int {
    if exists|j: int| is_first_probed(doc, bl, j) {
        choose|j: int| is_first_probed(doc, bl, j)
    } else {
        0
    }
}

/// The node bindings of run setup `i`.
pub open spec fn bindings_of(doc: Yaml, i: int) -> Seq<Yaml> {
    list_field(scenario_analog(scenarios_of(doc)[i])->0, "node_bindings"@)
}

/// A probe for the first analog run setup: the setup, the binding it goes on and its name;
/// an error when that setup binds no nodes.
pub open spec fn existing_scope_probe(doc: Yaml, preferred: Seq<char>) -> Result<
    Option<(int, int, Seq<char>)>,
    EditErr,
> {
    let scens = scenarios_of(doc);
    if !(exists|i: int| is_first_analog(scens, i)) {
        Ok(None)
    } else {
        let i = choose|i: int| is_first_analog(scens, i);
        let a = scenario_analog(scens[i])->0;
        if bindings_of(doc, i).len() == 0 {
            Err(EditErr::NoNodeBindings(text_or_empty(scens[i], "name"@)))
        } else {
            Ok(
                Some(
                    (
                        i,
                        scope_binding(doc, bindings_of(doc, i)),
                        first_free(
                            nonblank(preferred, "probe_voltage"@),
                            probe_names(list_field(a, "probes"@)),
                        ),
                    ),
                ),
            )
        }
    }
}

fn existing_scope_probe_at(doc: &YamlNode, preferred_probe_name: &str) -> (r: Result<
    Option<(usize, usize, String)>,
    EditError,
>)
    ensures
        match r {
            Ok(None) => existing_scope_probe(doc@, preferred_probe_name@) == Ok::<
                Option<(int, int, Seq<char>)>,
                EditErr,
            >(None),
            Ok(Some((i, j, p))) => existing_scope_probe(doc@, preferred_probe_name@) == Ok::<
                Option<(int, int, Seq<char>)>,
                EditErr,
            >(Some((i as int, j as int, p@))),
            Err(e) => existing_scope_probe(doc@, preferred_probe_name@) == Err::<
                Option<(int, int, Seq<char>)>,
                EditErr,
            >(e@),
        },
{
    let ghost sl = scenarios_of(doc@);
    let items = match node_list_field(doc, "scenarios") {
        Some(v) => v,
        None => {
            assert(!(exists|i: int| is_first_analog(sl, i)));
            return Ok(None);
        },
    };
    let mut i: usize = 0;
    while i < items.len()
        invariant
            sl == scenarios_of(doc@),
            sl == list_of(items@),
            i <= items@.len(),
            forall|k: int| 0 <= k < i ==> #[trigger] scenario_analog(sl[k]) is None,
        decreases items@.len() - i,
    {
        assert(sl[i as int] == items@[i as int]@);
        let a = match node_field(&items[i], "analog") {
            Some(a) => match a {
                YamlNode::Mapping(_) => Some(a),
                _ => None,
            },
            None => None,
        };
        match a {
            None => {},
            Some(a) => {
                assert(a@ is Mapping);
                assert(scenario_analog(sl[i as int]) == Some(a@));
                assert(is_first_analog(sl, i as int));
                assert((choose|q: int| is_first_analog(sl, q)) == i) by {
                    let q = choose|q: int| is_first_analog(sl, q);
                    if q < i {
                        assert(scenario_analog(sl[q]) is None);
                    } else if q > i {
                        assert(scenario_analog(sl[i as int]) is None);
                    }
                }
                let empty: Vec<YamlNode> = Vec::new();
                let bindings: &Vec<YamlNode> = match node_list_field(a, "node_bindings") {
                    Some(v) => v,
                    None => &empty,
                };
                let ghost bl = bindings_of(doc@, i as int);
                assert(scenarios_of(doc@)[i as int] == sl[i as int]);
                assert(bl == list_field(a@, "node_bindings"@));
                assert(bl == list_of(bindings@)) by {
                    assert(list_of(empty@) =~= Seq::<Yaml>::empty());
                }
                if bindings.len() == 0 {
                    let name = match node_text_field(&items[i], "name") {
                        Some(t) => str_to_string(t.as_str()),
                        None => new_string(),
                    };
                    return Err(EditError::NoNodeBindings(name));
                }
                let mut j: usize = 0;
                let mut found = false;
                while j < bindings.len() && !found
                    invariant
                        bl == list_of(bindings@),
                        j <= bindings@.len(),
                        found ==> is_first_probed(doc@, bl, j as int),
                        !found ==> forall|k: int|
                            0 <= k < j ==> !net_is_probed(doc@, binding_net(#[trigger] bl[k])),
                    decreases bindings@.len() - j + (if found { 0int } else { 1int }),
                {
                    assert(bl[j as int] == bindings@[j as int]@);
                    let net = match node_text_field(&bindings[j], "net") {
                        Some(t) => str_to_string(t.as_str()),
                        None => new_string(),
                    };
                    if net_probed_text(doc, net.as_str()) {
                        found = true;
                    } else {
                        j = j + 1;
                    }
                }
                let pick: usize = if found {
                    assert((choose|q: int| is_first_probed(doc@, bl, q)) == j) by {
                        let q = choose|q: int| is_first_probed(doc@, bl, q);
                        if q < j {
                            assert(!net_is_probed(doc@, binding_net(bl[q])));
                        } else if q > j {
                            assert(!net_is_probed(doc@, binding_net(bl[j as int])));
                        }
                    }
                    j
                } else {
                    assert(!exists|q: int| is_first_probed(doc@, bl, q)) by {
                        if exists|q: int| is_first_probed(doc@, bl, q) {
                            let q = choose|q: int| is_first_probed(doc@, bl, q);
                            assert(!net_is_probed(doc@, binding_net(bl[q])));
                        }
                    }
                    0
                };
                let p = unique_scope_probe_name(a, preferred_probe_name);
                return Ok(Some((i, pick, p)));
            },
        }
        i = i + 1;
    }
    assert(!(exists|q: int| is_first_analog(sl, q))) by {
        if exists|q: int| is_first_analog(sl, q) {
            let q = choose|q: int| is_first_analog(sl, q);
            assert(scenario_analog(sl[q]) is None);
        }
    }
    Ok(None)
}

fn net_probed_text(doc: &YamlNode, net: &str) -> (r: bool)
    ensures
        r == net_is_probed(doc@, net@),
{
    match board_table(doc, "nets") {
        Err(_) => false,
        Ok(nets) => {
            proof {
                lemma_map_view(*nets);
            }
            match map_find(nets, net) {
                None => false,
                Some(i) => match node_text_field(&nets[i].value, "kind") {
                    Some(k) => !text_eq(k.as_str(), "ground"),
                    None => true,
                },
            }
        },
    }
}

/// For the first analog run setup: its name, the net of the binding the probe goes on (the
/// first whose net is on the board and not ground, else the first) and a free probe name.
pub fn scope_probe_for_existing_analog_scenario(doc: &YamlNode, preferred_probe_name: &str) -> (r:
    Result<Option<(String, String, String)>, EditError>)
    ensures
        match r {
            Ok(None) => existing_scope_probe(doc@, preferred_probe_name@) == Ok::<
                Option<(int, int, Seq<char>)>,
                EditErr,
            >(None),
            Ok(Some((s, n, p))) => existing_scope_probe(doc@, preferred_probe_name@) matches Ok(
                Some((i, j, name)),
            ) && s@ == text_or_empty(scenarios_of(doc@)[i], "name"@) && n@ == binding_net(
                bindings_of(doc@, i)[j],
            ) && p@ == name,
            Err(e) => existing_scope_probe(doc@, preferred_probe_name@) == Err::<
                Option<(int, int, Seq<char>)>,
                EditErr,
            >(e@),
        },
{
    match existing_scope_probe_at(doc, preferred_probe_name) {
        Err(e) => Err(e),
        Ok(None) => Ok(None),
        Ok(Some((i, j, p))) => {
            let (s, n, _) = scope_target_texts(doc, i, j);
            Ok(Some((s, n, p)))
        },
    }
}

/// The name of run setup `i` and the net and node of binding `j` of its analog part.
fn scope_target_texts(doc: &YamlNode, i: usize, j: usize) -> (r: (String, String, String))
    requires
        0 <= i < scenarios_of(doc@).len(),
        scenario_analog(scenarios_of(doc@)[i as int]) is Some,
        0 <= j < bindings_of(doc@, i as int).len(),
    ensures
        r.0@ == text_or_empty(scenarios_of(doc@)[i as int], "name"@),
        r.1@ == binding_net(bindings_of(doc@, i as int)[j as int]),
        r.2@ == binding_node(bindings_of(doc@, i as int)[j as int]),
{
    let items = match node_list_field(doc, "scenarios") {
        Some(v) => v,
        None => {
            assert(false);
            return (new_string(), new_string(), new_string());
        },
    };
    let s = &items[i];
    assert(scenarios_of(doc@)[i as int] == s@);
    let name = match node_text_field(s, "name") {
        Some(t) => str_to_string(t.as_str()),
        None => new_string(),
    };
    let a = match node_field(s, "analog") {
        Some(a) => a,
        None => {
            assert(false);
            return (name, new_string(), new_string());
        },
    };
    let bindings = match node_list_field(a, "node_bindings") {
        Some(v) => v,
        None => {
            assert(false);
            return (name, new_string(), new_string());
        },
    };
    let b = &bindings[j];
    assert(bindings_of(doc@, i as int)[j as int] == b@);
    let net = match node_text_field(b, "net") {
        Some(t) => str_to_string(t.as_str()),
        None => new_string(),
    };
    let node = match node_text_field(b, "node") {
        Some(t) => str_to_string(t.as_str()),
        None => new_string(),
    };
    (name, net, node)
}

/// Some analog run setup already has a probe.
pub open spec fn has_scope_probes(scens: Seq<Yaml>) -> bool {
    exists|i: int|
        0 <= i < scens.len() && #[trigger] scenario_analog(scens[i]) is Some && list_field(
            scenario_analog(scens[i])->0,
            "probes"@,
        ).len() > 0
}

/// The node a net is bound to in a new setup: `0` for its ground net, else the net's id.
pub open spec fn node_for(net: Seq<char>, ground: Seq<char>) -> Seq<char> {
    if net == ground {
        "0"@
    } else {
        net
    }
}

pub open spec fn text_pair(key: Seq<char>, value: Seq<char>) -> (Yaml, Yaml) {
    (Yaml::Text(key), Yaml::Text(value))
}

/// The voltage probe of a scope run.
pub open spec fn scope_probe(scenario: Seq<char>, probe: Seq<char>, node: Seq<char>, net: Seq<char>) -> CandidateSpec {
    CandidateSpec {
        scenario,
        probe,
        expression: voltage_expression(node),
        voltage: true,
        target: net,
        generated: false,
    }
}

/// The board's components; empty when there are none.
pub open spec fn board_components(doc: Yaml) -> Seq<(Yaml, Yaml)> {
    match board_child(doc, "components"@) {
        Ok(c) => c,
        Err(_) => Seq::empty(),
    }
}

/// A transient run setup simulating the netlist generated from the whole board, with every
/// net bound to a node and one voltage probe.
pub open spec fn transient_scenario(
    doc: Yaml,
    name: Seq<char>,
    ground: Seq<char>,
    probe_net: Seq<char>,
    probe: Seq<char>,
    stop_time_us: Seq<char>,
    max_step_us: Seq<char>,
) -> Yaml {
    let comps = id_keys(board_components(doc));
    let nets = id_keys(board_nets(doc));
    Yaml::Mapping(
        seq![
            text_pair("name"@, name),
            text_pair("type"@, "analog"@),
            (
                Yaml::Text("analog"@),
                Yaml::Mapping(
                    seq![
                        text_pair("backend"@, "auto"@),
                        text_pair("netlist_source"@, "generated_from_board"@),
                        (
                            Yaml::Text("generated"@),
                            Yaml::Mapping(
                                seq![
                                    (
                                        Yaml::Text("components"@),
                                        Yaml::List(comps.map_values(|c: Seq<char>| Yaml::Text(c))),
                                    ),
                                    text_pair("ground_net"@, ground),
                                ],
                            ),
                        ),
                        (Yaml::Text("model_files"@), Yaml::List(Seq::empty())),
                        (
                            Yaml::Text("node_bindings"@),
                            Yaml::List(
                                nets.map_values(
                                    |n: Seq<char>|
                                        Yaml::Mapping(
                                            seq![
                                                text_pair("node"@, node_for(n, ground)),
                                                text_pair("net"@, n),
                                            ],
                                        ),
                                ),
                            ),
                        ),
                        (Yaml::Text("pin_bindings"@), Yaml::List(Seq::empty())),
                        (
                            Yaml::Text("analysis"@),
                            Yaml::Mapping(
                                seq![
                                    text_pair("type"@, "tran"@),
                                    (Yaml::Text("stop_time_us"@), Yaml::Number(stop_time_us)),
                                    (Yaml::Text("max_step_us"@), Yaml::Number(max_step_us)),
                                ],
                            ),
                        ),
                        (Yaml::Text("stimuli"@), Yaml::List(Seq::empty())),
                        (
                            Yaml::Text("probes"@),
                            Yaml::List(
                                seq![probe_entry(scope_probe(name, probe, node_for(probe_net, ground), probe_net))],
                            ),
                        ),
                        (Yaml::Text("assertions"@), Yaml::List(Seq::empty())),
                    ],
                ),
            ),
        ],
    )
}

/// The project with its run setups replaced by `l`.
pub open spec fn with_scenarios(doc: Yaml, l: Seq<Yaml>) -> Yaml {
    match doc {
        Yaml::Mapping(m) => Yaml::Mapping(map_insert(m, "scenarios"@, Yaml::List(l))),
        _ => doc,
    }
}

/// Getting a project ready for a scope run: nothing when an analog setup has a probe; else
/// a voltage probe on the first analog setup; else a new transient setup.
pub open spec fn scope_run_plan(
    doc: Yaml,
    preferred_scenario: Seq<char>,
    preferred_probe: Seq<char>,
    stop_time_us: Seq<char>,
    max_step_us: Seq<char>,
) -> Result<Option<(Yaml, (bool, Seq<char>, Seq<char>, Seq<char>))>, EditErr> {
    let scens = scenarios_of(doc);
    if has_scope_probes(scens) {
        Ok(None)
    } else {
        match existing_scope_probe(doc, preferred_probe) {
            Err(e) => Err(e),
            Ok(Some((i, j, p))) => {
                let name = text_or_empty(scens[i], "name"@);
                let b = bindings_of(doc, i)[j];
                Ok(
                    Some(
                        (
                            with_scenarios(
                                doc,
                                scens.update(
                                    i,
                                    with_new_probes(
                                        scens[i],
                                        seq![scope_probe(name, p, binding_node(b), binding_net(b))],
                                    ),
                                ),
                            ),
                            (false, name, p, binding_net(b)),
                        ),
                    ),
                )
            },
            Ok(None) => match scope_ground_net(doc) {
                Err(e) => Err(e),
                Ok(g) => match scope_probe_net(doc) {
                    Err(e) => Err(e),
                    Ok(pn) => {
                        let name = first_free(
                            nonblank(preferred_scenario, "gui_transient"@),
                            scenario_names(scens),
                        );
                        let p = nonblank(preferred_probe, "probe_voltage"@);
                        Ok(
                            Some(
                                (
                                    with_scenarios(
                                        doc,
                                        scens.push(
                                            transient_scenario(doc, name, g, pn, p, stop_time_us, max_step_us),
                                        ),
                                    ),
                                    (true, name, p, pn),
                                ),
                            ),
                        )
                    },
                },
            },
        }
    }
}

fn has_probes_exec(doc: &YamlNode) -> (r: bool)
    ensures
        r == has_scope_probes(scenarios_of(doc@)),
{
    let ghost sl = scenarios_of(doc@);
    let items = match node_list_field(doc, "scenarios") {
        Some(v) => v,
        None => return false,
    };
    let mut i: usize = 0;
    while i < items.len()
        invariant
            sl == scenarios_of(doc@),
            sl == list_of(items@),
            i <= items@.len(),
            forall|k: int|
                0 <= k < i ==> !(#[trigger] scenario_analog(sl[k]) is Some && list_field(
                    scenario_analog(sl[k])->0,
                    "probes"@,
                ).len() > 0),
        decreases items@.len() - i,
    {
        assert(sl[i as int] == items@[i as int]@);
        match node_field(&items[i], "analog") {
            Some(a) => match a {
                YamlNode::Mapping(_) => {
                    assert(scenario_analog(sl[i as int]) == Some(a@));
                    match node_list_field(a, "probes") {
                        Some(v) => {
                            if v.len() > 0 {
                                assert(list_field(scenario_analog(sl[i as int])->0, "probes"@).len() > 0);
                                return true;
                            }
                        },
                        None => {},
                    }
                },
                _ => {},
            },
            None => {},
        }
        i = i + 1;
    }
    false
}

fn text_entry(key: &str, value: &str) -> (r: YamlEntry)
    ensures
        (r.key@, r.value@) == text_pair(key@, value@),
{
    YamlEntry { key: text_node(key), value: text_node(value) }
}

fn mapping_node(m: Vec<YamlEntry>) -> (r: YamlNode)
    ensures
        r@ == Yaml::Mapping(entries_of(m@)),
{
    proof {
        lemma_map_view(m);
    }
    YamlNode::Mapping(m)
}

fn empty_list() -> (r: YamlNode)
    ensures
        r@ == Yaml::List(Seq::empty()),
{
    let v: Vec<YamlNode> = Vec::new();
    assert(list_of(v@) =~= Seq::<Yaml>::empty());
    list_node(v)
}

fn list_node(v: Vec<YamlNode>) -> (r: YamlNode)
    ensures
        r@ == Yaml::List(list_of(v@)),
{
    proof {
        lemma_list_view(v);
    }
    YamlNode::List(v)
}

/// The string keys of a board mapping, by id; none when the board has no such mapping.
fn board_keys(doc: &YamlNode, field: &str) -> (r: Vec<String>)
    ensures
        names(r@) == id_keys(
            match board_child(doc@, field@) {
                Ok(c) => c,
                Err(_) => Seq::empty(),
            },
        ),
{
    match board_table(doc, field) {
        Ok(t) => map_keys_by_id(t),
        Err(_) => {
            let r: Vec<String> = Vec::new();
            assert(crate::order::keyed_entries(Seq::<(Yaml, Yaml)>::empty()) == Seq::<(Seq<char>, Yaml)>::empty());
            assert(names(r@) =~= id_keys(Seq::<(Yaml, Yaml)>::empty()));
            r
        },
    }
}

fn transient_scenario_node(
    doc: &YamlNode,
    name: &str,
    ground: &str,
    probe_net: &str,
    probe: &str,
    stop_time_us: &str,
    max_step_us: &str,
) -> (r: YamlNode)
    ensures
        r@ == transient_scenario(doc@, name@, ground@, probe_net@, probe@, stop_time_us@, max_step_us@),
{
    let comps = board_keys(doc, "components");
    let nets = board_keys(doc, "nets");
    let ghost cl = names(comps@);
    let ghost nl = names(nets@);
    let mut comp_nodes: Vec<YamlNode> = Vec::new();
    let mut i: usize = 0;
    while i < comps.len()
        invariant
            cl == names(comps@),
            i <= comps@.len(),
            list_of(comp_nodes@) == cl.subrange(0, i as int).map_values(|c: Seq<char>| Yaml::Text(c)),
        decreases comps@.len() - i,
    {
        let ghost before = comp_nodes@;
        comp_nodes.push(text_node(comps[i].as_str()));
        assert(list_of(comp_nodes@) =~= list_of(before).push(Yaml::Text(cl[i as int])));
        i = i + 1;
        assert(list_of(comp_nodes@) =~= cl.subrange(0, i as int).map_values(|c: Seq<char>| Yaml::Text(c)));
    }
    assert(cl.subrange(0, comps@.len() as int) =~= cl);
    let mut binding_nodes: Vec<YamlNode> = Vec::new();
    let mut j: usize = 0;
    while j < nets.len()
        invariant
            nl == names(nets@),
            j <= nets@.len(),
            list_of(binding_nodes@) == nl.subrange(0, j as int).map_values(
                |n: Seq<char>|
                    Yaml::Mapping(seq![text_pair("node"@, node_for(n, ground@)), text_pair("net"@, n)]),
            ),
        decreases nets@.len() - j,
    {
        let n = nets[j].as_str();
        let node = if text_eq(n, ground) {
            str_to_string("0")
        } else {
            str_to_string(n)
        };
        let mut b: Vec<YamlEntry> = Vec::new();
        b.push(text_entry("node", node.as_str()));
        b.push(text_entry("net", n));
        let bn = mapping_node(b);
        assert(bn@ == Yaml::Mapping(seq![text_pair("node"@, node_for(n@, ground@)), text_pair("net"@, n@)])) by {
            assert(entries_of(b@) =~= seq![text_pair("node"@, node_for(n@, ground@)), text_pair("net"@, n@)]);
        }
        let ghost before = binding_nodes@;
        binding_nodes.push(bn);
        assert(list_of(binding_nodes@) =~= list_of(before).push(bn@));
        j = j + 1;
        assert(list_of(binding_nodes@) =~= nl.subrange(0, j as int).map_values(
            |n: Seq<char>|
                Yaml::Mapping(seq![text_pair("node"@, node_for(n, ground@)), text_pair("net"@, n)]),
        ));
    }
    assert(nl.subrange(0, nets@.len() as int) =~= nl);
    let probe_node = if text_eq(probe_net, ground) {
        str_to_string("0")
    } else {
        str_to_string(probe_net)
    };
    let mut expr = str_to_string("V(");
    expr.append(probe_node.as_str());
    expr.append(")");
    let pc = AutoScopeProbeCandidate {
        scenario_name: str_to_string(name),
        probe_name: str_to_string(probe),
        expression: expr,
        kind: AutoScopeProbeKind::Voltage { net_id: str_to_string(probe_net) },
    };
    assert(pc@ == scope_probe(name@, probe@, node_for(probe_net@, ground@), probe_net@));
    let ghost comps_v = cl.map_values(|c: Seq<char>| Yaml::Text(c));
    let ghost binds_v = nl.map_values(
        |n: Seq<char>| Yaml::Mapping(seq![text_pair("node"@, node_for(n, ground@)), text_pair("net"@, n)]),
    );
    let mut probes: Vec<YamlNode> = Vec::new();
    probes.push(crate::probes::probe_entry_node(&pc));
    let probes_node = list_node(probes);
    assert(probes_node@ == Yaml::List(seq![probe_entry(pc@)])) by {
        assert(list_of(probes@) =~= seq![probe_entry(pc@)]);
    }
    let mut generated: Vec<YamlEntry> = Vec::new();
    generated.push(YamlEntry { key: text_node("components"), value: list_node(comp_nodes) });
    generated.push(text_entry("ground_net", ground));
    let gen_node = mapping_node(generated);
    assert(gen_node@ == Yaml::Mapping(
        seq![(Yaml::Text("components"@), Yaml::List(comps_v)), text_pair("ground_net"@, ground@)],
    )) by {
        assert(entries_of(generated@) =~= seq![(Yaml::Text("components"@), Yaml::List(comps_v)), text_pair("ground_net"@, ground@)]);
    }
    let mut analysis: Vec<YamlEntry> = Vec::new();
    analysis.push(text_entry("type", "tran"));
    analysis.push(YamlEntry { key: text_node("stop_time_us"), value: YamlNode::Number(str_to_string(stop_time_us)) });
    analysis.push(YamlEntry { key: text_node("max_step_us"), value: YamlNode::Number(str_to_string(max_step_us)) });
    let analysis_node = mapping_node(analysis);
    let ghost analysis_v = Yaml::Mapping(
        seq![
            text_pair("type"@, "tran"@),
            (Yaml::Text("stop_time_us"@), Yaml::Number(stop_time_us@)),
            (Yaml::Text("max_step_us"@), Yaml::Number(max_step_us@)),
        ],
    );
    assert(analysis_node@ == analysis_v) by {
        assert(entries_of(analysis@) =~= analysis_v->Mapping_0);
    }
    let bindings_node = list_node(binding_nodes);
    assert(bindings_node@ == Yaml::List(binds_v));
    let mut analog: Vec<YamlEntry> = Vec::new();
    analog.push(text_entry("backend", "auto"));
    analog.push(text_entry("netlist_source", "generated_from_board"));
    analog.push(YamlEntry { key: text_node("generated"), value: gen_node });
    analog.push(YamlEntry { key: text_node("model_files"), value: empty_list() });
    analog.push(YamlEntry { key: text_node("node_bindings"), value: bindings_node });
    analog.push(YamlEntry { key: text_node("pin_bindings"), value: empty_list() });
    analog.push(YamlEntry { key: text_node("analysis"), value: analysis_node });
    analog.push(YamlEntry { key: text_node("stimuli"), value: empty_list() });
    analog.push(YamlEntry { key: text_node("probes"), value: probes_node });
    analog.push(YamlEntry { key: text_node("assertions"), value: empty_list() });
    let ghost want = transient_scenario(doc@, name@, ground@, probe_net@, probe@, stop_time_us@, max_step_us@);
    let ghost analog_v = want->Mapping_0[2].1;
    let analog_node = mapping_node(analog);
    assert(analog_node@ == analog_v) by {
        assert(entries_of(analog@) =~= analog_v->Mapping_0);
    }
    let mut scen: Vec<YamlEntry> = Vec::new();
    scen.push(text_entry("name", name));
    scen.push(text_entry("type", "analog"));
    scen.push(YamlEntry { key: text_node("analog"), value: analog_node });
    let r = mapping_node(scen);
    assert(entries_of(scen@) =~= want->Mapping_0);
    r
}

/// Puts the run setups list `l` back into the project mapping.
fn put_scenarios(m: &mut Vec<YamlEntry>, k: usize, items: Vec<YamlNode>)
    requires
        k < old(m)@.len(),
    ensures
        entries_of(final(m)@) == entries_of(old(m)@).update(
            k as int,
            (entries_of(old(m)@)[k as int].0, Yaml::List(list_of(items@))),
        ),
{
    let node = list_node(items);
    map_restore(m, k, node);
}

/// The project with a new run setup appended.
fn push_scenario(doc: YamlNode, s: YamlNode) -> (r: YamlNode)
    ensures
        r@ == with_scenarios(doc@, scenarios_of(doc@).push(s@)),
{
    match doc {
        YamlNode::Mapping(mut m) => {
            proof {
                lemma_map_view(m);
            }
            let ghost e = entries_of(m@);
            let (k, old) = take_field(&mut m, "scenarios");
            let mut items: Vec<YamlNode> = match old {
                YamlNode::List(v) => {
                    proof {
                        lemma_list_view(v);
                    }
                    v
                },
                _ => Vec::new(),
            };
            let ghost l0 = list_field(Yaml::Mapping(e), "scenarios"@);
            assert(list_of(items@) =~= l0);
            let ghost sv = s@;
            items.push(s);
            assert(list_of(items@) =~= l0.push(sv));
            put_scenarios(&mut m, k, items);
            proof {
                lemma_map_view(m);
            }
            YamlNode::Mapping(m)
        },
        other => other,
    }
}

/// The project with a voltage probe appended to run setup `i`.
fn add_scope_probe(doc: YamlNode, i: usize, c: AutoScopeProbeCandidate) -> (r: YamlNode)
    requires
        i < scenarios_of(doc@).len(),
    ensures
        r@ == with_scenarios(
            doc@,
            scenarios_of(doc@).update(i as int, with_new_probes(scenarios_of(doc@)[i as int], seq![c@])),
        ),
{
    let ghost d = doc@;
    match doc {
        YamlNode::Mapping(mut m) => {
            proof {
                lemma_map_view(m);
            }
            let ghost e = entries_of(m@);
            let (k, old) = take_field(&mut m, "scenarios");
            match old {
                YamlNode::List(mut items) => {
                    proof {
                        lemma_list_view(items);
                    }
                    let ghost l = list_of(items@);
                    assert(l == scenarios_of(d));
                    let mut item = YamlNode::Null;
                    items.set_and_swap(i, &mut item);
                    let mut cs: Vec<AutoScopeProbeCandidate> = Vec::new();
                    let ghost cv = c@;
                    cs.push(c);
                    assert(crate::probes::candidate_views(cs@) =~= seq![cv]);
                    let mut changed = add_probes(item, &cs);
                    items.set_and_swap(i, &mut changed);
                    assert(list_of(items@) =~= l.update(i as int, with_new_probes(l[i as int], seq![cv])));
                    put_scenarios(&mut m, k, items);
                    proof {
                        lemma_map_view(m);
                    }
                    YamlNode::Mapping(m)
                },
                _ => {
                    assert(false);
                    YamlNode::Mapping(m)
                },
            }
        },
        other => {
            assert(false);
            other
        },
    }
}

/// Gets a project ready for a scope run; `None` when some analog run setup already has a
/// probe.
pub fn scope_run_doc(
    doc: YamlNode,
    preferred_scenario_name: &str,
    preferred_probe_name: &str,
    stop_time_us: &str,
    max_step_us: &str,
) -> (r: Result<Option<(YamlNode, ScopeRunPreparation)>, EditError>)
    ensures
        match r {
            Ok(None) => scope_run_plan(
                doc@,
                preferred_scenario_name@,
                preferred_probe_name@,
                stop_time_us@,
                max_step_us@,
            ) == Ok::<Option<(Yaml, (bool, Seq<char>, Seq<char>, Seq<char>))>, EditErr>(None),
            Ok(Some((d, p))) => scope_run_plan(
                doc@,
                preferred_scenario_name@,
                preferred_probe_name@,
                stop_time_us@,
                max_step_us@,
            ) == Ok::<Option<(Yaml, (bool, Seq<char>, Seq<char>, Seq<char>))>, EditErr>(
                Some((d@, prep_view(p))),
            ),
            Err(e) => scope_run_plan(
                doc@,
                preferred_scenario_name@,
                preferred_probe_name@,
                stop_time_us@,
                max_step_us@,
            ) == Err::<Option<(Yaml, (bool, Seq<char>, Seq<char>, Seq<char>))>, EditErr>(e@),
        },
{
    if has_probes_exec(&doc) {
        return Ok(None);
    }
    match existing_scope_probe_at(&doc, preferred_probe_name) {
        Err(e) => Err(e),
        Ok(Some((i, j, p))) => {
            let (name, net, node) = scope_target_texts(&doc, i, j);
            let mut expr = str_to_string("V(");
            expr.append(node.as_str());
            expr.append(")");
            let c = AutoScopeProbeCandidate {
                scenario_name: str_to_string(name.as_str()),
                probe_name: str_to_string(p.as_str()),
                expression: expr,
                kind: AutoScopeProbeKind::Voltage { net_id: str_to_string(net.as_str()) },
            };
            let ghost b = bindings_of(doc@, i as int)[j as int];
            assert(c@ == scope_probe(name@, p@, binding_node(b), binding_net(b)));
            let d = add_scope_probe(doc, i, c);
            Ok(Some((d, ScopeRunPreparation::AddedProbe { scenario_name: name, probe_name: p, net_id: net })))
        },
        Ok(None) => {
            let ground = match default_scope_ground_net(&doc) {
                Ok(g) => g,
                Err(e) => return Err(e),
            };
            let probe_net = match default_scope_probe_net(&doc) {
                Ok(n) => n,
                Err(e) => return Err(e),
            };
            let name = unique_scope_scenario_name(&doc, preferred_scenario_name);
            let probe = nonblank_id(preferred_probe_name, "probe_voltage");
            let s = transient_scenario_node(
                &doc,
                name.as_str(),
                ground.as_str(),
                probe_net.as_str(),
                probe.as_str(),
                stop_time_us,
                max_step_us,
            );
            let d = push_scenario(doc, s);
            Ok(
                Some(
                    (
                        d,
                        ScopeRunPreparation::AddedScenario {
                            scenario_name: name,
                            probe_name: probe,
                            net_id: probe_net,
                        },
                    ),
                ),
            )
        },
    }
}

/// Getting project text ready for a scope run.
pub open spec fn scope_run_text(
    text: Seq<char>,
    preferred_scenario: Seq<char>,
    preferred_probe: Seq<char>,
    stop_time_us: Seq<char>,
    max_step_us: Seq<char>,
) -> Result<Option<(Seq<char>, (bool, Seq<char>, Seq<char>, Seq<char>))>, EditErr> {
    match parsed_yaml(text) {
        None => Err(EditErr::InvalidBoardIr),
        Some(d) => match scope_run_plan(d, preferred_scenario, preferred_probe, stop_time_us, max_step_us) {
            Err(e) => Err(e),
            Ok(None) => Ok(None),
            Ok(Some((d2, p))) => match emitted(d2) {
                None => Err(EditErr::EncodeFailed),
                Some(t) => Ok(Some((t, p))),
            },
        },
    }
}

/// Gets project text ready for a scope run: the edited text and what was added, or `None`
/// when some analog run setup already has a probe. Times are written as given.
pub fn prepare_scope_run_yaml(
    text: &str,
    preferred_scenario_name: &str,
    preferred_probe_name: &str,
    stop_time_us: &str,
    max_step_us: &str,
) -> (r: Result<Option<(String, ScopeRunPreparation)>, EditError>)
    ensures
        match r {
            Ok(None) => scope_run_text(
                text@,
                preferred_scenario_name@,
                preferred_probe_name@,
                stop_time_us@,
                max_step_us@,
            ) == Ok::<Option<(Seq<char>, (bool, Seq<char>, Seq<char>, Seq<char>))>, EditErr>(None),
            Ok(Some((t, p))) => scope_run_text(
                text@,
                preferred_scenario_name@,
                preferred_probe_name@,
                stop_time_us@,
                max_step_us@,
            ) == Ok::<Option<(Seq<char>, (bool, Seq<char>, Seq<char>, Seq<char>))>, EditErr>(
                Some((t@, prep_view(p))),
            ),
            Err(e) => scope_run_text(
                text@,
                preferred_scenario_name@,
                preferred_probe_name@,
                stop_time_us@,
                max_step_us@,
            ) == Err::<Option<(Seq<char>, (bool, Seq<char>, Seq<char>, Seq<char>))>, EditErr>(e@),
        },
{
    let d = match parse_yaml(text) {
        Some(d) => d,
        None => return Err(EditError::InvalidBoardIr),
    };
    match scope_run_doc(d, preferred_scenario_name, preferred_probe_name, stop_time_us, max_step_us) {
        Err(e) => Err(e),
        Ok(None) => Ok(None),
        Ok(Some((d2, p))) => match emit_doc(&d2) {
            None => Err(EditError::EncodeFailed),
            Some(t) => Ok(Some((t, p))),
        },
    }
}

impl CircuitCiApp {
    /// Before a run: gets the project ready for a scope run with the editor's preferred
    /// setup and probe names, takes the edited text and remembers the probe to show;
    /// `Ok(true)` when the project changed.
    pub fn prepare_scope_run_inputs(&mut self, stop_time_us: &str, max_step_us: &str) -> (r: Result<
        bool,
        EditError,
    >)
        ensures
            match scope_run_text(
                old(self).project_yaml@,
                old(self).analog_scenario_name@,
                old(self).analog_probe_name@,
                stop_time_us@,
                max_step_us@,
            ) {
                Err(e) => r matches Err(x) && x@ == e && *final(self) == *old(self),
                Ok(None) => r == Ok::<bool, EditError>(false) && *final(self) == *old(self),
                Ok(Some((t, p))) => {
                    &&& r == Ok::<bool, EditError>(true)
                    &&& final(self).project_yaml@ == t
                    &&& final(self).project_yaml_dirty
                    &&& final(self).status@ == prep_status(p)
                    &&& crate::state::opt_target_view(final(self).pending_scope_probe) == Some((p.1, p.2))
                },
            },
    {
        let prepared = prepare_scope_run_yaml(
            self.project_yaml.as_str(),
            self.analog_scenario_name.as_str(),
            self.analog_probe_name.as_str(),
            stop_time_us,
            max_step_us,
        );
        match prepared {
            Err(e) => Err(e),
            Ok(None) => Ok(false),
            Ok(Some((updated, preparation))) => {
                self.remember_scope_probe_target(preparation.scenario_name(), preparation.probe_name());
                let status = preparation.status_message();
                self.apply_edited_project_yaml(updated, status.as_str());
                Ok(true)
            },
        }
    }
}

// ---------------------------------------------------------------------------------------
// Laws
// ---------------------------------------------------------------------------------------

/// Replacing the run setups: they can be read back.
proof fn lemma_scenarios_of_with(doc: Yaml, l: Seq<Yaml>)
    requires
        doc is Mapping,
    ensures
        scenarios_of(with_scenarios(doc, l)) == l,
{
    crate::doc::lemma_get_insert(doc->Mapping_0, "scenarios"@, Yaml::List(l));
}

/// A run setup with probes appended has at least one probe.
proof fn lemma_with_new_probes_has_probe(s: Yaml, new: Seq<CandidateSpec>)
    requires
        scenario_analog(s) is Some,
        new.len() > 0,
    ensures
        scenario_analog(with_new_probes(s, new)) is Some,
        list_field(scenario_analog(with_new_probes(s, new))->0, "probes"@).len() > 0,
{
    let sm = s->Mapping_0;
    let am = scenario_analog(s)->0->Mapping_0;
    let l = list_field(Yaml::Mapping(am), "probes"@) + new.map_values(|c: CandidateSpec| probe_entry(c));
    let am2 = map_insert(am, "probes"@, Yaml::List(l));
    crate::doc::lemma_get_insert(sm, "analog"@, Yaml::Mapping(am2));
    crate::doc::lemma_get_insert(am, "probes"@, Yaml::List(l));
}

/// The new transient run setup has an analog part with a probe.
proof fn lemma_transient_scenario_has_probe(
    doc: Yaml,
    name: Seq<char>,
    ground: Seq<char>,
    probe_net: Seq<char>,
    probe: Seq<char>,
    stop_time_us: Seq<char>,
    max_step_us: Seq<char>,
)
    ensures
        ({
            let t = transient_scenario(doc, name, ground, probe_net, probe, stop_time_us, max_step_us);
            scenario_analog(t) is Some && list_field(scenario_analog(t)->0, "probes"@).len() > 0
        }),
{
    let t = transient_scenario(doc, name, ground, probe_net, probe, stop_time_us, max_step_us);
    reveal_strlit("name");
    reveal_strlit("type");
    reveal_strlit("analog");
    reveal_strlit("backend");
    reveal_strlit("netlist_source");
    reveal_strlit("generated");
    reveal_strlit("model_files");
    reveal_strlit("node_bindings");
    reveal_strlit("pin_bindings");
    reveal_strlit("analysis");
    reveal_strlit("stimuli");
    reveal_strlit("probes");
    let sm = t->Mapping_0;
    assert("name"@.len() == 4 && "type"@.len() == 4 && "analog"@.len() == 6);
    assert forall|j: int| 0 <= j < 2 implies #[trigger] sm[j].0 != Yaml::Text("analog"@) by {
        assert(j == 0 || j == 1);
    }
    assert(crate::doc::is_key_index(sm, "analog"@, 2));
    crate::doc::lemma_key_index_unique(sm, "analog"@, 2);
    let am = sm[2].1->Mapping_0;
    assert("probes"@.len() == 6 && "backend"@.len() == 7 && "netlist_source"@.len() == 14);
    assert("generated"@.len() == 9 && "model_files"@.len() == 11 && "node_bindings"@.len() == 13);
    assert("pin_bindings"@.len() == 12 && "analysis"@.len() == 8 && "stimuli"@.len() == 7);
    assert forall|j: int| 0 <= j < 8 implies #[trigger] am[j].0 != Yaml::Text("probes"@) by {
        assert(j == 0 || j == 1 || j == 2 || j == 3 || j == 4 || j == 5 || j == 6 || j == 7);
    }
    assert(crate::doc::is_key_index(am, "probes"@, 8));
    crate::doc::lemma_key_index_unique(am, "probes"@, 8);
}

/// Once a project has been made ready for a scope run, making it ready again changes
/// nothing: some analog run setup then has a probe.
pub proof fn law_scope_run_preparation_settles(
    doc: Yaml,
    preferred_scenario: Seq<char>,
    preferred_probe: Seq<char>,
    stop_time_us: Seq<char>,
    max_step_us: Seq<char>,
    again_scenario: Seq<char>,
    again_probe: Seq<char>,
    again_stop: Seq<char>,
    again_step: Seq<char>,
)
    requires
        scope_run_plan(doc, preferred_scenario, preferred_probe, stop_time_us, max_step_us) matches Ok(
            Some(_),
        ),
    ensures
        scope_run_plan(
            (scope_run_plan(doc, preferred_scenario, preferred_probe, stop_time_us, max_step_us)->Ok_0->0).0,
            again_scenario,
            again_probe,
            again_stop,
            again_step,
        ) == Ok::<Option<(Yaml, (bool, Seq<char>, Seq<char>, Seq<char>))>, EditErr>(None),
{
    let scens = scenarios_of(doc);
    let d2 = (scope_run_plan(doc, preferred_scenario, preferred_probe, stop_time_us, max_step_us)->Ok_0->0).0;
    match existing_scope_probe(doc, preferred_probe) {
        Ok(Some((i, j, p))) => {
            let name = text_or_empty(scens[i], "name"@);
            let b = bindings_of(doc, i)[j];
            let c = scope_probe(name, p, binding_node(b), binding_net(b));
            let s2 = with_new_probes(scens[i], seq![c]);
            let l2 = scens.update(i, s2);
            assert(is_first_analog(scens, i));
            lemma_with_new_probes_has_probe(scens[i], seq![c]);
            assert(doc is Mapping);
            lemma_scenarios_of_with(doc, l2);
            assert(scenario_analog(l2[i]) is Some && list_field(scenario_analog(l2[i])->0, "probes"@).len() > 0);
            assert(has_scope_probes(scenarios_of(d2)));
        },
        Ok(None) => {
            let g = scope_ground_net(doc)->Ok_0;
            let pn = scope_probe_net(doc)->Ok_0;
            let name = first_free(nonblank(preferred_scenario, "gui_transient"@), scenario_names(scens));
            let p = nonblank(preferred_probe, "probe_voltage"@);
            let t = transient_scenario(doc, name, g, pn, p, stop_time_us, max_step_us);
            let l2 = scens.push(t);
            assert(board_of(doc) is Ok) by {
                if !(board_of(doc) is Ok) {
                    assert(board_nets(doc) == Seq::<(Yaml, Yaml)>::empty());
                    assert(!(exists|k: Seq<char>| is_least_net(board_nets(doc), k, true)));
                }
            }
            lemma_transient_scenario_has_probe(doc, name, g, pn, p, stop_time_us, max_step_us);
            lemma_scenarios_of_with(doc, l2);
            assert(l2[scens.len() as int] == t);
            assert(has_scope_probes(scenarios_of(d2)));
        },
        Err(_) => {},
    }
}

} // verus!
