//! The analog run setups of a project as the editors list them.
use vstd::prelude::*;
use crate::board::{EditErr, EditError};
use crate::doc::{Yaml, YamlNode, list_field, list_of, node_field, node_list_field, node_text_field, text_or_empty};
use crate::probes::{scenario_analog, scenarios_of};
use crate::text::{new_string, str_to_string};
use crate::yaml_io::{parse_yaml, parsed_yaml};

verus! {

/// A probe of a run setup.
#[derive(Debug)]
pub struct AnalogProbeChoice {
    pub name: String,
}

/// An analog run setup: its name, its type and its probes.
#[derive(Debug)]
pub struct AnalogScenarioChoice {
    pub name: String,
    pub scenario_type: String,
    pub probes: Vec<AnalogProbeChoice>,
}

/// The mathematical form of a choice: name, type and probe names.
pub open spec fn choice_view(c: AnalogScenarioChoice) -> (Seq<char>, Seq<char>, Seq<Seq<char>>) {
    (c.name@, c.scenario_type@, c.probes@.map_values(|p: AnalogProbeChoice| p.name@))
}

pub open spec fn choice_views(v: Seq<AnalogScenarioChoice>) -> Seq<(Seq<char>, Seq<char>, Seq<Seq<char>>)> {
    v.map_values(|c: AnalogScenarioChoice| choice_view(c))
}

/// The choice for a run setup with an analog part.
pub open spec fn choice_of(s: Yaml) -> (Seq<char>, Seq<char>, Seq<Seq<char>>) {
    (
        text_or_empty(s, "name"@),
        text_or_empty(s, "type"@),
        list_field(scenario_analog(s)->0, "probes"@).map_values(|p: Yaml| text_or_empty(p, "name"@)),
    )
}

/// The choices of the run setups with an analog part, in order.
pub open spec fn choices_of(scens: Seq<Yaml>) -> Seq<(Seq<char>, Seq<char>, Seq<Seq<char>>)>
    decreases scens.len(),
{
    if scens.len() == 0 {
        Seq::empty()
    } else {
        let p = choices_of(scens.drop_last());
        if scenario_analog(scens.last()) is Some {
            p.push(choice_of(scens.last()))
        } else {
            p
        }
    }
}

fn text_or_new(n: &YamlNode, key: &str) -> (r: String)
    ensures
        r@ == text_or_empty(n@, key@),
{
    match node_text_field(n, key) {
        Some(t) => str_to_string(t.as_str()),
        None => new_string(),
    }
}

/// The choice for one run setup, when it has an analog part.
fn scenario_choice(s: &YamlNode) -> (r: Option<AnalogScenarioChoice>)
    ensures
        match r {
            Some(c) => scenario_analog(s@) is Some && choice_view(c) == choice_of(s@),
            None => scenario_analog(s@) is None,
        },
{
    let analog = match node_field(s, "analog") {
        Some(a) => match a {
            YamlNode::Mapping(_) => a,
            _ => return None,
        },
        None => return None,
    };
    let ghost l = list_field(analog@, "probes"@);
    let mut probes: Vec<AnalogProbeChoice> = Vec::new();
    match node_list_field(analog, "probes") {
        None => {},
        Some(items) => {
            let mut i: usize = 0;
            while i < items.len()
                invariant
                    l == list_of(items@),
                    i <= items@.len(),
                    probes@.map_values(|p: AnalogProbeChoice| p.name@) == l.subrange(0, i as int).map_values(
                        |p: Yaml| text_or_empty(p, "name"@),
                    ),
                decreases items@.len() - i,
            {
                let ghost before = probes@;
                let name = text_or_new(&items[i], "name");
                assert(l[i as int] == items@[i as int]@);
                let ghost nm = name@;
                probes.push(AnalogProbeChoice { name });
                assert(l.subrange(0, i + 1) =~= l.subrange(0, i as int).push(l[i as int]));
                assert(probes@.map_values(|p: AnalogProbeChoice| p.name@) =~= before.map_values(
                    |p: AnalogProbeChoice| p.name@,
                ).push(nm));
                i = i + 1;
                assert(probes@.map_values(|p: AnalogProbeChoice| p.name@) =~= l.subrange(
                    0,
                    i as int,
                ).map_values(|p: Yaml| text_or_empty(p, "name"@)));
            }
            assert(l.subrange(0, items@.len() as int) =~= l);
        },
    }
    let c = AnalogScenarioChoice {
        name: text_or_new(s, "name"),
        scenario_type: text_or_new(s, "type"),
        probes,
    };
    assert(choice_view(c).2 =~= choice_of(s@).2);
    Some(c)
}

/// The run setups of a project that have an analog part, with their probes.
pub fn analog_scenario_choices(project_yaml: &str) -> (r: Result<Vec<AnalogScenarioChoice>, EditError>)
    ensures
        match r {
            Ok(v) => parsed_yaml(project_yaml@) matches Some(d) && choice_views(v@) == choices_of(
                scenarios_of(d),
            ),
            Err(e) => parsed_yaml(project_yaml@) is None && e@ == EditErr::InvalidBoardIr,
        },
{
    let d = match parse_yaml(project_yaml) {
        Some(d) => d,
        None => return Err(EditError::InvalidBoardIr),
    };
    let mut r: Vec<AnalogScenarioChoice> = Vec::new();
    let empty: Vec<YamlNode> = Vec::new();
    let scens: &Vec<YamlNode> = match node_list_field(&d, "scenarios") {
        Some(v) => v,
        None => &empty,
    };
    let ghost sl = scenarios_of(d@);
    assert(sl == list_of(scens@)) by {
        assert(list_of(empty@) =~= Seq::<Yaml>::empty());
    }
    let mut i: usize = 0;
    assert(choice_views(r@) =~= choices_of(sl.subrange(0, 0)));
    while i < scens.len()
        invariant
            sl == list_of(scens@),
            i <= scens@.len(),
            choice_views(r@) == choices_of(sl.subrange(0, i as int)),
        decreases scens@.len() - i,
    {
        assert(sl.subrange(0, i + 1).drop_last() =~= sl.subrange(0, i as int));
        assert(sl[i as int] == scens@[i as int]@);
        let ghost before = r@;
        match scenario_choice(&scens[i]) {
            Some(c) => {
                r.push(c);
                assert(choice_views(r@) =~= choice_views(before).push(choice_view(c)));
            },
            None => {},
        }
        i = i + 1;
    }
    assert(sl.subrange(0, scens@.len() as int) =~= sl);
    Ok(r)
}

} // verus!
