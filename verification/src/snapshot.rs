//! What the sketch shows of a project: its components with their pins and drawing style,
//! its nets with the pins connected to them, and the counts of the project's parts; and
//! the editor defaults that are picked from it.
use vstd::prelude::*;
use crate::board::{
    EditErr, EditError, SketchNodeStyle, SketchPinSide, board_child, board_of, board_table,
    collect_net_refs, lemma_map_view_not, net_refs, normalize_rotation_deg, normalized_rotation,
    refs_of_components, refs_of_pins,
};
use crate::doc::{
    Yaml, YamlEntry, YamlNode, entries_of, field, has_key, lemma_list_view, list_field, list_of,
    lemma_map_view, map_find, map_get, node_field,
    node_list_field, node_text_field, text_field, text_or_empty,
};
use crate::naming::{decimal_value, digit_value, names};
use crate::bundles::{SketchNetBundle, bundle_label_views, bundle_labels, derive_net_bundles, members_of};
use crate::probes::{is_source_primitive, scenarios_of};
use crate::selection::{SketchSelection, node_key, schematic_node_key, sel_view};
use crate::yaml_io::{parse_yaml, parsed_yaml};
use crate::labels::{
    opt_point_view, point_at, point_of,
    SketchComponentLabelPositions, SketchNetLabelPlacement, SketchWireRoute, collect_component_labels,
    collect_net_labels, collect_texts, collect_wire_routes, component_label_summaries_of,
    component_label_views, component_labels_of, lemma_component_labels_on_board,
    lemma_net_labels_on_board, net_label_summaries_of, net_label_views, net_labels_of, texts_of,
    wire_route_views, wire_routes_of,
};
use crate::order::{
    entries_at, id_order, id_order_positions, keyed_entries, insert_sorted, lemma_lt_irreflexive, lemma_lt_total, lemma_lt_transitive, lemma_sorted_unique, seq_lt,
    sorted_of, str_lt, strictly_sorted,
};
use crate::text::{
    char_at, char_len, is_ascii_digit, is_ascii_digit_char, str_to_string, text_eq, trim, trim_str,
};

verus! {

// ---------------------------------------------------------------------------------------
// Whole numbers written in the project
// ---------------------------------------------------------------------------------------

/// Every character is an ASCII digit.
pub open spec fn all_digits(s: Seq<char>) -> bool {
    forall|i: int| 0 <= i < s.len() ==> is_ascii_digit(#[trigger] s[i])
}

/// The value of a whole number written as ASCII digits after an optional `-`.
pub open spec fn int_text(s: Seq<char>) -> Option<int> {
    if s.len() > 1 && s[0] == '-' && all_digits(s.drop_first()) {
        Some(-decimal_value(s.drop_first()))
    } else if s.len() > 0 && all_digits(s) {
        Some(decimal_value(s))
    } else {
        None
    }
}

/// The value of a whole number that fits in an `i32`.
pub open spec fn i32_text(s: Seq<char>) -> Option<i32> {
    match int_text(s) {
        Some(v) => if i32::MIN <= v <= i32::MAX {
            Some(v as i32)
        } else {
            None
        },
        None => None,
    }
}

fn digit_number(c: char) -> (r: i64)
    requires
        is_ascii_digit(c),
    ensures
        r == digit_value(c),
        0 <= r <= 9,
{
    if c == '0' {
        0
    } else if c == '1' {
        1
    } else if c == '2' {
        2
    } else if c == '3' {
        3
    } else if c == '4' {
        4
    } else if c == '5' {
        5
    } else if c == '6' {
        6
    } else if c == '7' {
        7
    } else if c == '8' {
        8
    } else {
        9
    }
}

proof fn lemma_decimal_value_nonneg(s: Seq<char>)
    ensures
        decimal_value(s) >= 0,
    decreases s.len(),
{
    if s.len() > 0 {
        lemma_decimal_value_nonneg(s.drop_last());
    }
}

/// Reads the whole number in `s` from position `from` on: its value when at most
/// `2^31`, else `None`; the digits there must all be ASCII digits.
fn bounded_decimal(s: &str, from: usize) -> (r: Option<i64>)
    requires
        from <= s@.len(),
        all_digits(s@.subrange(from as int, s@.len() as int)),
    ensures
        match r {
            Some(v) => v == decimal_value(s@.subrange(from as int, s@.len() as int)) && 0 <= v <= 0x8000_0000,
            None => decimal_value(s@.subrange(from as int, s@.len() as int)) > 0x8000_0000,
        },
{
    let n = char_len(s);
    let mut acc: i64 = 0;
    let mut i: usize = from;
    while i < n
        invariant
            n == s@.len(),
            from <= i <= n,
            all_digits(s@.subrange(from as int, n as int)),
            acc == decimal_value(s@.subrange(from as int, i as int)),
            0 <= acc <= 0x8000_0000,
        decreases n - i,
    {
        let c = char_at(s, i);
        assert(s@.subrange(from as int, n as int)[i - from] == c);
        let d = digit_number(c);
        assert(s@.subrange(from as int, i + 1).drop_last() =~= s@.subrange(from as int, i as int));
        let next: i64 = acc * 10 + d;
        if next > 0x8000_0000 {
            proof {
                lemma_decimal_value_grows(s@.subrange(from as int, n as int), (i + 1 - from) as int);
                assert(s@.subrange(from as int, n as int).subrange(0, (i + 1 - from) as int) =~= s@.subrange(
                    from as int,
                    i + 1,
                ));
                assert(s@.subrange(from as int, n as int).subrange(0, (n - from) as int) =~= s@.subrange(
                    from as int,
                    n as int,
                ));
            }
            return None;
        }
        acc = next;
        i = i + 1;
    }
    Some(acc)
}

/// Longer digit strings never have smaller values.
proof fn lemma_decimal_value_grows(s: Seq<char>, k: int)
    requires
        0 <= k <= s.len(),
        all_digits(s),
    ensures
        decimal_value(s.subrange(0, k)) <= decimal_value(s),
    decreases s.len() - k,
{
    if k < s.len() {
        lemma_decimal_value_grows(s, k + 1);
        let t = s.subrange(0, k + 1);
        assert(t.drop_last() =~= s.subrange(0, k));
        lemma_decimal_value_nonneg(s.subrange(0, k));
        assert(0 <= digit_value(t.last()));
    } else {
        assert(s.subrange(0, k) =~= s);
    }
}

fn digits_from(s: &str, from: usize) -> (r: bool)
    requires
        from <= s@.len(),
    ensures
        r == all_digits(s@.subrange(from as int, s@.len() as int)),
{
    let n = char_len(s);
    let ghost t = s@.subrange(from as int, n as int);
    let mut i: usize = from;
    while i < n
        invariant
            n == s@.len(),
            from <= i <= n,
            t == s@.subrange(from as int, n as int),
            forall|k: int| 0 <= k < i - from ==> is_ascii_digit(#[trigger] t[k]),
        decreases n - i,
    {
        if !is_ascii_digit_char(char_at(s, i)) {
            assert(!is_ascii_digit(t[i - from]));
            return false;
        }
        i = i + 1;
    }
    true
}

/// The `i32` written in `s`: ASCII digits after an optional `-`.
pub fn parse_i32_text(s: &str) -> (r: Option<i32>)
    ensures
        r == i32_text(s@),
{
    let n = char_len(s);
    if n > 1 && char_at(s, 0) == '-' {
        if digits_from(s, 1) {
            assert(s@.subrange(1, n as int) =~= s@.drop_first());
            match bounded_decimal(s, 1) {
                Some(v) => return Some((-v) as i32),
                None => return None,
            }
        }
        proof {
            assert(s@.subrange(1, n as int) =~= s@.drop_first());
            assert(!is_ascii_digit(s@[0]));
        }
        return None;
    }
    if n > 0 && digits_from(s, 0) {
        assert(s@.subrange(0, n as int) =~= s@);
        match bounded_decimal(s, 0) {
            Some(v) => if v <= 0x7fff_ffff {
                return Some(v as i32);
            } else {
                return None;
            },
            None => return None,
        }
    }
    proof {
        if n > 0 {
            assert(s@.subrange(0, n as int) =~= s@);
        }
    }
    None
}

// ---------------------------------------------------------------------------------------
// Node styles
// ---------------------------------------------------------------------------------------

/// The style stored for a schematic node: its rotation turned into a quarter turn (none
/// or an unreadable one counts as 0), whether it is mirrored, and its pin side (`left`,
/// `right`, else automatic).
pub open spec fn style_of_entry(e: Yaml) -> SketchNodeStyle {
    SketchNodeStyle {
        rotation_deg: normalized_rotation(
            match field(e, "rotation_deg"@) {
                Some(Yaml::Number(t)) => match i32_text(t) {
                    Some(v) => v as int,
                    None => 0,
                },
                _ => 0,
            },
        ) as i32,
        mirrored: match field(e, "mirrored"@) {
            Some(Yaml::Bool(b)) => b,
            _ => false,
        },
        pin_side: match text_field(e, "pin_side"@) {
            Some(t) => if t == "left"@ {
                SketchPinSide::Left
            } else if t == "right"@ {
                SketchPinSide::Right
            } else {
                SketchPinSide::Auto
            },
            None => SketchPinSide::Auto,
        },
    }
}

/// The style of a node that has none stored.
pub open spec fn default_node_style() -> SketchNodeStyle {
    SketchNodeStyle { rotation_deg: 0, mirrored: false, pin_side: SketchPinSide::Auto }
}

/// The style a node is drawn with: the one stored under its schematic key, else the
/// default style.
pub open spec fn style_for(styles: Seq<(Yaml, Yaml)>, selection: (int, Seq<char>)) -> SketchNodeStyle {
    match node_key(selection) {
        Some(k) => match map_get(styles, k) {
            Some(e) => style_of_entry(e),
            None => default_node_style(),
        },
        None => default_node_style(),
    }
}

fn style_of_node(e: &YamlNode) -> (r: SketchNodeStyle)
    ensures
        r == style_of_entry(e@),
{
    let rotation: i32 = match node_field(e, "rotation_deg") {
        Some(YamlNode::Number(t)) => match parse_i32_text(t.as_str()) {
            Some(v) => v,
            None => 0,
        },
        _ => 0,
    };
    let mirrored = match node_field(e, "mirrored") {
        Some(YamlNode::Bool(b)) => *b,
        _ => false,
    };
    let pin_side = match node_text_field(e, "pin_side") {
        Some(t) => if text_eq(t.as_str(), "left") {
            SketchPinSide::Left
        } else if text_eq(t.as_str(), "right") {
            SketchPinSide::Right
        } else {
            SketchPinSide::Auto
        },
        None => SketchPinSide::Auto,
    };
    SketchNodeStyle { rotation_deg: normalize_rotation_deg(rotation), mirrored, pin_side }
}

/// Where the schematic places a sketch node, from its node positions.
pub fn sketch_position_for(positions: &Vec<YamlEntry>, selection: &SketchSelection) -> (r: Option<
    (String, String),
>)
    ensures
        opt_point_view(r) == position_for(entries_of(positions@), sel_view(*selection)),
{
    match schematic_node_key(selection) {
        Some(key) => match map_find(positions, key.as_str()) {
            Some(i) => point_at(&positions[i].value),
            None => None,
        },
        None => None,
    }
}

/// The style a sketch node is drawn with, from the schematic's node styles.
pub fn sketch_style_for(styles: &Vec<YamlEntry>, selection: &SketchSelection) -> (r: SketchNodeStyle)
    ensures
        r == style_for(entries_of(styles@), sel_view(*selection)),
{
    match schematic_node_key(selection) {
        Some(key) => match map_find(styles, key.as_str()) {
            Some(i) => style_of_node(&styles[i].value),
            None => SketchNodeStyle::default_style(),
        },
        None => SketchNodeStyle::default_style(),
    }
}

// ---------------------------------------------------------------------------------------
// Components and nets
// ---------------------------------------------------------------------------------------

/// A component as the sketch shows it: id, model, part number, SPICE primitive, its pins
/// with their nets, and its drawing style.
pub struct ComponentSummary {
    pub id: Seq<char>,
    pub model: Seq<char>,
    pub part_number: Option<Seq<char>>,
    pub primitive: Option<Seq<char>>,
    pub pins: Seq<(Seq<char>, Seq<char>)>,
    pub style: SketchNodeStyle,
    pub symbol: Option<Seq<char>>,
    pub source_paths: Seq<Seq<char>>,
    pub position: Option<(Seq<char>, Seq<char>)>,
}

/// A net as the sketch shows it: id, kind, powered flag and the pins connected to it.
pub struct NetSummary {
    pub id: Seq<char>,
    pub kind: Seq<char>,
    pub powered: Option<bool>,
    pub connections: Seq<Seq<char>>,
    pub position: Option<(Seq<char>, Seq<char>)>,
}

/// The given pins (name and value) whose net is a string, as pin and net.
pub open spec fn pin_pairs_of(pins: Seq<(Seq<char>, Yaml)>) -> Seq<(Seq<char>, Seq<char>)>
    decreases pins.len(),
{
    if pins.len() == 0 {
        Seq::empty()
    } else {
        let prev = pin_pairs_of(pins.drop_last());
        match pins.last().1 {
            Yaml::Text(n) => prev.push((pins.last().0, n)),
            _ => prev,
        }
    }
}

/// The pins of a pins mapping whose pin and net are strings, by pin name.
pub open spec fn pin_pairs(pins: Seq<(Yaml, Yaml)>) -> Seq<(Seq<char>, Seq<char>)> {
    pin_pairs_of(id_order(pins))
}

/// The pins mapping of a component; empty when it has none.
pub open spec fn pins_of(c: Yaml) -> Seq<(Yaml, Yaml)> {
    match field(c, "pins"@) {
        Some(Yaml::Mapping(p)) => p,
        _ => Seq::empty(),
    }
}

/// The SPICE primitive of a component.
pub open spec fn primitive_of(c: Yaml) -> Option<Seq<char>> {
    match field(c, "spice"@) {
        Some(s) => text_field(s, "primitive"@),
        None => None,
    }
}

/// The boolean under key `key`.
pub open spec fn bool_field(y: Yaml, key: Seq<char>) -> Option<bool> {
    match field(y, key) {
        Some(Yaml::Bool(b)) => Some(b),
        _ => None,
    }
}

/// Where the schematic places the node of a selection: the point stored under its node key.
pub open spec fn position_for(positions: Seq<(Yaml, Yaml)>, selection: (int, Seq<char>)) -> Option<
    (Seq<char>, Seq<char>),
> {
    match node_key(selection) {
        Some(k) => match map_get(positions, k) {
            Some(p) => point_of(p),
            None => None,
        },
        None => None,
    }
}

/// The symbol chosen for a component in the schematic's component symbols.
pub open spec fn symbol_of(symbols: Seq<(Yaml, Yaml)>, id: Seq<char>) -> Option<Seq<char>> {
    match map_get(symbols, id) {
        Some(Yaml::Text(t)) => Some(t),
        _ => None,
    }
}

/// The `path` strings of the given source instances, in order.
pub open spec fn paths_of(instances: Seq<Yaml>) -> Seq<Seq<char>>
    decreases instances.len(),
{
    if instances.len() == 0 {
        Seq::empty()
    } else {
        let prev = paths_of(instances.drop_last());
        match text_field(instances.last(), "path"@) {
            Some(t) => prev.push(t),
            None => prev,
        }
    }
}

/// The paths of the source instances a component was imported from.
pub open spec fn source_paths_of(c: Yaml) -> Seq<Seq<char>> {
    match field(c, "source"@) {
        Some(src) => paths_of(list_field(src, "instances"@)),
        None => Seq::empty(),
    }
}

pub open spec fn component_summary_of(
    id: Seq<char>,
    c: Yaml,
    styles: Seq<(Yaml, Yaml)>,
    symbols: Seq<(Yaml, Yaml)>,
    positions: Seq<(Yaml, Yaml)>,
) -> ComponentSummary {
    ComponentSummary {
        id,
        model: text_or_empty(c, "model"@),
        part_number: text_field(c, "part_number"@),
        primitive: primitive_of(c),
        pins: pin_pairs(pins_of(c)),
        style: style_for(styles, (0, id)),
        symbol: symbol_of(symbols, id),
        source_paths: source_paths_of(c),
        position: position_for(positions, (0, id)),
    }
}

/// The given components (id and value) whose value is a mapping, as the sketch shows them.
pub open spec fn summaries_of(
    cs: Seq<(Seq<char>, Yaml)>,
    styles: Seq<(Yaml, Yaml)>,
    symbols: Seq<(Yaml, Yaml)>,
    positions: Seq<(Yaml, Yaml)>,
) -> Seq<ComponentSummary>
    decreases cs.len(),
{
    if cs.len() == 0 {
        Seq::empty()
    } else {
        let prev = summaries_of(cs.drop_last(), styles, symbols, positions);
        match cs.last().1 {
            Yaml::Mapping(c) => prev.push(component_summary_of(cs.last().0, Yaml::Mapping(c), styles, symbols, positions)),
            _ => prev,
        }
    }
}

/// The components of a board's components mapping, by id: the entries with a string id
/// and a mapping value.
pub open spec fn components_of(
    comps: Seq<(Yaml, Yaml)>,
    styles: Seq<(Yaml, Yaml)>,
    symbols: Seq<(Yaml, Yaml)>,
    positions: Seq<(Yaml, Yaml)>,
) -> Seq<ComponentSummary> {
    summaries_of(id_order(comps), styles, symbols, positions)
}

/// The given nets (id and value) whose value is a mapping, each with the component pins on
/// it.
pub open spec fn net_summaries_of(
    ns: Seq<(Seq<char>, Yaml)>,
    comps: Seq<(Yaml, Yaml)>,
    positions: Seq<(Yaml, Yaml)>,
) -> Seq<NetSummary>
    decreases ns.len(),
{
    if ns.len() == 0 {
        Seq::empty()
    } else {
        let prev = net_summaries_of(ns.drop_last(), comps, positions);
        match ns.last().1 {
            Yaml::Mapping(n) => prev.push(
                NetSummary {
                    id: ns.last().0,
                    kind: text_or_empty(Yaml::Mapping(n), "kind"@),
                    powered: bool_field(Yaml::Mapping(n), "powered"@),
                    connections: net_refs(comps, ns.last().0),
                    position: position_for(positions, (1, ns.last().0)),
                },
            ),
            _ => prev,
        }
    }
}

/// The nets of a board's nets mapping, by id, each with the component pins on it.
pub open spec fn nets_of(nets: Seq<(Yaml, Yaml)>, comps: Seq<(Yaml, Yaml)>, positions: Seq<(Yaml, Yaml)>) -> Seq<
    NetSummary,
> {
    net_summaries_of(id_order(nets), comps, positions)
}

/// A component pin and the net it is on.
#[derive(Debug)]
pub struct SketchPin {
    pub pin: String,
    pub net: String,
}

/// A board component as the sketch shows it.
#[derive(Debug)]
pub struct SketchComponent {
    pub id: String,
    pub model: String,
    pub part_number: Option<String>,
    pub spice_primitive: Option<String>,
    pub pins: Vec<SketchPin>,
    pub style: SketchNodeStyle,
    pub kicad_symbol_id: Option<String>,
    pub source_paths: Vec<String>,
    pub position: Option<(String, String)>,
}

/// A board net as the sketch shows it.
#[derive(Debug)]
pub struct SketchNet {
    pub id: String,
    pub kind: String,
    pub powered: Option<bool>,
    pub connections: Vec<String>,
    pub position: Option<(String, String)>,
}

pub open spec fn opt_text(s: Option<String>) -> Option<Seq<char>> {
    match s {
        Some(s) => Some(s@),
        None => None,
    }
}

pub open spec fn pin_view(p: SketchPin) -> (Seq<char>, Seq<char>) {
    (p.pin@, p.net@)
}

pub open spec fn component_view(c: SketchComponent) -> ComponentSummary {
    ComponentSummary {
        id: c.id@,
        model: c.model@,
        part_number: opt_text(c.part_number),
        primitive: opt_text(c.spice_primitive),
        pins: c.pins@.map_values(|p: SketchPin| pin_view(p)),
        style: c.style,
        symbol: opt_text(c.kicad_symbol_id),
        source_paths: names(c.source_paths@),
        position: opt_point_view(c.position),
    }
}

pub open spec fn net_view(n: SketchNet) -> NetSummary {
    NetSummary {
        id: n.id@,
        kind: n.kind@,
        powered: n.powered,
        connections: names(n.connections@),
        position: opt_point_view(n.position),
    }
}

pub open spec fn component_views(v: Seq<SketchComponent>) -> Seq<ComponentSummary> {
    v.map_values(|c: SketchComponent| component_view(c))
}

pub open spec fn net_views(v: Seq<SketchNet>) -> Seq<NetSummary> {
    v.map_values(|n: SketchNet| net_view(n))
}

fn text_clone(s: &String) -> (r: String)
    ensures
        r@ == s@,
{
    str_to_string(s.as_str())
}

fn collect_pins(pins: &Vec<YamlEntry>) -> (r: Vec<SketchPin>)
    ensures
        r@.map_values(|p: SketchPin| pin_view(p)) == pin_pairs(entries_of(pins@)),
{
    let order = id_order_positions(pins);
    let ghost ps = entries_at(pins@, order@);
    let mut r: Vec<SketchPin> = Vec::new();
    let mut i: usize = 0;
    while i < order.len()
        invariant
            ps == entries_at(pins@, order@),
            ps == id_order(entries_of(pins@)),
            forall|k: int| 0 <= k < order@.len() ==> #[trigger] order@[k] < pins@.len() && pins@[order@[k] as int].key is Text,
            i <= order@.len(),
            r@.map_values(|p: SketchPin| pin_view(p)) == pin_pairs_of(ps.subrange(0, i as int)),
        decreases order@.len() - i,
    {
        assert(ps.subrange(0, i + 1).drop_last() =~= ps.subrange(0, i as int));
        assert(ps.subrange(0, i + 1).last() == ps[i as int]);
        let idx = order[i];
        assert(order@[i as int] < pins@.len());
        match (&pins[idx].key, &pins[idx].value) {
            (YamlNode::Text(p), YamlNode::Text(n)) => {
                assert(ps[i as int] == (p@, Yaml::Text(n@)));
                let ghost before = r@;
                r.push(SketchPin { pin: text_clone(p), net: text_clone(n) });
                assert(r@.map_values(|p: SketchPin| pin_view(p)) =~= before.map_values(
                    |p: SketchPin| pin_view(p),
                ).push((p@, n@)));
            },
            (_, v) => {
                proof {
                    crate::board::lemma_text_view(*v);
                }
            },
        }
        i = i + 1;
    }
    assert(ps.subrange(0, order@.len() as int) =~= ps);
    r
}

fn component_of(
    id: &String,
    c: &YamlNode,
    styles: &Vec<YamlEntry>,
    symbols: &Vec<YamlEntry>,
    positions: &Vec<YamlEntry>,
) -> (r: SketchComponent)
    ensures
        component_view(r) == component_summary_of(
            id@,
            c@,
            entries_of(styles@),
            entries_of(symbols@),
            entries_of(positions@),
        ),
{
    let model = match node_text_field(c, "model") {
        Some(t) => text_clone(t),
        None => str_to_string(""),
    };
    let part_number = match node_text_field(c, "part_number") {
        Some(t) => Some(text_clone(t)),
        None => None,
    };
    let spice_primitive = match node_field(c, "spice") {
        Some(sp) => match node_text_field(sp, "primitive") {
            Some(t) => Some(text_clone(t)),
            None => None,
        },
        None => None,
    };
    let pins = match node_field(c, "pins") {
        Some(YamlNode::Mapping(p)) => {
            proof {
                lemma_map_view(*p);
            }
            collect_pins(p)
        },
        other => {
            proof {
                if let Some(o) = other {
                    lemma_map_view_not(*o);
                }
            }
            let v: Vec<SketchPin> = Vec::new();
            assert(v@.map_values(|p: SketchPin| pin_view(p)) =~= Seq::<(Seq<char>, Seq<char>)>::empty());
            assert(pin_pairs(Seq::<(Yaml, Yaml)>::empty()) == Seq::<(Seq<char>, Seq<char>)>::empty());
            v
        },
    };
    proof {
        reveal_strlit("");
    }
    let style = sketch_style_for(styles, &SketchSelection::Component(text_clone(id)));
    let symbol = match map_find(symbols, id.as_str()) {
        Some(k) => match &symbols[k].value {
            YamlNode::Text(t) => Some(text_clone(t)),
            other => {
                proof {
                    crate::board::lemma_text_view(*other);
                }
                None
            },
        },
        None => None,
    };
    assert(opt_text(symbol) == symbol_of(entries_of(symbols@), id@));
    let source_paths = source_paths(c);
    let r = SketchComponent {
        id: text_clone(id),
        model,
        part_number,
        spice_primitive,
        pins,
        style,
        kicad_symbol_id: symbol,
        source_paths,
        position: sketch_position_for(positions, &SketchSelection::Component(text_clone(id))),
    };
    assert(r.model@ == text_or_empty(c@, "model"@));
    assert(opt_text(r.part_number) == text_field(c@, "part_number"@));
    assert(opt_text(r.spice_primitive) == primitive_of(c@));
    assert(r.pins@.map_values(|p: SketchPin| pin_view(p)) == pin_pairs(pins_of(c@)));
    assert(r.style == style_for(entries_of(styles@), (0, id@)));
    assert(names(r.source_paths@) == source_paths_of(c@));
    r
}

/// The paths of the source instances a component was imported from.
fn source_paths(c: &YamlNode) -> (r: Vec<String>)
    ensures
        names(r@) == source_paths_of(c@),
{
    let mut r: Vec<String> = Vec::new();
    let src = match node_field(c, "source") {
        Some(src) => src,
        None => {
            assert(names(r@) =~= Seq::<Seq<char>>::empty());
            return r;
        },
    };
    let items = match node_field(src, "instances") {
        Some(YamlNode::List(items)) => items,
        other => {
            proof {
                if let Some(o) = other {
                    assert(!(o@ is List));
                }
            }
            assert(names(r@) =~= Seq::<Seq<char>>::empty());
            return r;
        },
    };
    proof {
        lemma_list_view(*items);
    }
    let ghost s = list_of(items@);
    let mut i: usize = 0;
    while i < items.len()
        invariant
            s == list_of(items@),
            s == list_field(src@, "instances"@),
            i <= items@.len(),
            names(r@) == paths_of(s.subrange(0, i as int)),
        decreases items@.len() - i,
    {
        assert(s.subrange(0, i + 1).drop_last() =~= s.subrange(0, i as int));
        assert(s.subrange(0, i + 1).last() == items@[i as int]@);
        match node_text_field(&items[i], "path") {
            Some(t) => {
                let ghost before = r@;
                r.push(text_clone(t));
                assert(names(r@) =~= names(before).push(t@));
            },
            None => {},
        }
        i = i + 1;
    }
    assert(s.subrange(0, items@.len() as int) =~= s);
    r
}

/// The components of a board's components mapping as the sketch shows them.
pub fn collect_components(
    comps: &Vec<YamlEntry>,
    styles: &Vec<YamlEntry>,
    symbols: &Vec<YamlEntry>,
    positions: &Vec<YamlEntry>,
) -> (r: Vec<SketchComponent>)
    ensures
        component_views(r@) == components_of(
            entries_of(comps@),
            entries_of(styles@),
            entries_of(symbols@),
            entries_of(positions@),
        ),
{
    let order = id_order_positions(comps);
    let ghost cs = entries_at(comps@, order@);
    let ghost st = entries_of(styles@);
    let ghost sy = entries_of(symbols@);
    let ghost po = entries_of(positions@);
    let mut r: Vec<SketchComponent> = Vec::new();
    let mut i: usize = 0;
    while i < order.len()
        invariant
            cs == entries_at(comps@, order@),
            cs == id_order(entries_of(comps@)),
            st == entries_of(styles@),
            sy == entries_of(symbols@),
            po == entries_of(positions@),
            forall|k: int| 0 <= k < order@.len() ==> #[trigger] order@[k] < comps@.len() && comps@[order@[k] as int].key is Text,
            i <= order@.len(),
            component_views(r@) == summaries_of(cs.subrange(0, i as int), st, sy, po),
        decreases order@.len() - i,
    {
        assert(cs.subrange(0, i + 1).drop_last() =~= cs.subrange(0, i as int));
        assert(cs.subrange(0, i + 1).last() == cs[i as int]);
        let idx = order[i];
        assert(order@[i as int] < comps@.len());
        match (&comps[idx].key, &comps[idx].value) {
            (YamlNode::Text(id), YamlNode::Mapping(cm)) => {
                proof {
                    lemma_map_view(*cm);
                }
                assert(cs[i as int] == (id@, Yaml::Mapping(entries_of(cm@))));
                let ghost before = r@;
                let c = component_of(id, &comps[idx].value, styles, symbols, positions);
                r.push(c);
                assert(component_views(r@) =~= component_views(before).push(component_view(c)));
            },
            (_, v) => {
                proof {
                    if !(v is Mapping) {
                        lemma_map_view_not(*v);
                    }
                }
            },
        }
        i = i + 1;
    }
    assert(cs.subrange(0, order@.len() as int) =~= cs);
    r
}

/// The nets of a board's nets mapping as the sketch shows them.
pub fn collect_nets(nets: &Vec<YamlEntry>, comps: &Vec<YamlEntry>, positions: &Vec<YamlEntry>) -> (r: Vec<
    SketchNet,
>)
    ensures
        net_views(r@) == nets_of(entries_of(nets@), entries_of(comps@), entries_of(positions@)),
{
    let order = id_order_positions(nets);
    let ghost ns = entries_at(nets@, order@);
    let ghost ce = entries_of(comps@);
    let ghost po = entries_of(positions@);
    let mut r: Vec<SketchNet> = Vec::new();
    let mut i: usize = 0;
    while i < order.len()
        invariant
            ns == entries_at(nets@, order@),
            ns == id_order(entries_of(nets@)),
            ce == entries_of(comps@),
            po == entries_of(positions@),
            forall|k: int| 0 <= k < order@.len() ==> #[trigger] order@[k] < nets@.len() && nets@[order@[k] as int].key is Text,
            i <= order@.len(),
            net_views(r@) == net_summaries_of(ns.subrange(0, i as int), ce, po),
        decreases order@.len() - i,
    {
        assert(ns.subrange(0, i + 1).drop_last() =~= ns.subrange(0, i as int));
        assert(ns.subrange(0, i + 1).last() == ns[i as int]);
        let idx = order[i];
        assert(order@[i as int] < nets@.len());
        match (&nets[idx].key, &nets[idx].value) {
            (YamlNode::Text(id), YamlNode::Mapping(nm)) => {
                proof {
                    lemma_map_view(*nm);
                }
                assert(ns[i as int] == (id@, Yaml::Mapping(entries_of(nm@))));
                let node = &nets[idx].value;
                let kind = match node_text_field(node, "kind") {
                    Some(t) => text_clone(t),
                    None => str_to_string(""),
                };
                let powered = match node_field(node, "powered") {
                    Some(YamlNode::Bool(b)) => Some(*b),
                    _ => None,
                };
                proof {
                    reveal_strlit("");
                }
                let connections = collect_net_refs(comps, id.as_str());
                assert(kind@ == text_or_empty(node@, "kind"@));
                assert(powered == bool_field(node@, "powered"@));
                let ghost before = r@;
                let position = sketch_position_for(positions, &SketchSelection::Net(text_clone(id)));
                let n = SketchNet { id: text_clone(id), kind, powered, connections, position };
                r.push(n);
                assert(net_views(r@) =~= net_views(before).push(net_view(n)));
            },
            (_, v) => {
                proof {
                    if !(v is Mapping) {
                        lemma_map_view_not(*v);
                    }
                }
            },
        }
        i = i + 1;
    }
    assert(ns.subrange(0, order@.len() as int) =~= ns);
    r
}

// ---------------------------------------------------------------------------------------
// The project snapshot
// ---------------------------------------------------------------------------------------

/// What the sketch shows of a project.
#[derive(Debug)]
pub struct ProjectSnapshot {
    pub name: String,
    pub components: usize,
    pub nets: usize,
    pub scenarios: usize,
    pub libraries: Vec<String>,
    pub components_detail: Vec<SketchComponent>,
    pub nets_detail: Vec<SketchNet>,
    pub wire_routes: Vec<SketchWireRoute>,
    pub net_labels: Vec<SketchNetLabelPlacement>,
    pub component_labels: Vec<SketchComponentLabelPositions>,
}

/// The mapping under `field` of the board; empty when there is none.
pub open spec fn board_table_or_empty(doc: Yaml, name: Seq<char>) -> Seq<(Yaml, Yaml)> {
    match board_child(doc, name) {
        Ok(t) => t,
        Err(_) => Seq::empty(),
    }
}

/// The node styles of the board's schematic; empty when there are none.
pub open spec fn node_styles_of(doc: Yaml) -> Seq<(Yaml, Yaml)> {
    match map_get(board_table_or_empty(doc, "schematic"@), "node_styles"@) {
        Some(Yaml::Mapping(m)) => m,
        _ => Seq::empty(),
    }
}

/// The mapping under `name` of the board's schematic; empty when there is none.
pub open spec fn schematic_table_of(doc: Yaml, name: Seq<char>) -> Seq<(Yaml, Yaml)> {
    match map_get(board_table_or_empty(doc, "schematic"@), name) {
        Some(Yaml::Mapping(m)) => m,
        _ => Seq::empty(),
    }
}

/// The project's name: `project.name`, or empty.
pub open spec fn project_name_of(doc: Yaml) -> Seq<char> {
    match field(doc, "project"@) {
        Some(p) => text_or_empty(p, "name"@),
        None => Seq::empty(),
    }
}

/// The snapshot of a project: its name, how many components, nets and run setups it has,
/// its libraries, its components and nets as the sketch shows them, its wire routes, and
/// the schematic's net labels and component label placements of items on the board, each
/// by id.
pub open spec fn snapshot_holds(s: ProjectSnapshot, doc: Yaml) -> bool {
    let comps = board_table_or_empty(doc, "components"@);
    let nets = board_table_or_empty(doc, "nets"@);
    &&& s.name@ == project_name_of(doc)
    &&& s.components == comps.len()
    &&& s.nets == nets.len()
    &&& s.scenarios == scenarios_of(doc).len()
    &&& names(s.libraries@) == texts_of(list_field(doc, "libraries"@))
    &&& component_views(s.components_detail@) == components_of(
        comps,
        node_styles_of(doc),
        schematic_table_of(doc, "component_symbols"@),
        schematic_table_of(doc, "node_positions"@),
    )
    &&& net_views(s.nets_detail@) == nets_of(nets, comps, schematic_table_of(doc, "node_positions"@))
    &&& wire_route_views(s.wire_routes@) == wire_routes_of(schematic_table_of(doc, "wire_routes"@))
    &&& net_label_views(s.net_labels@) == net_labels_of(schematic_table_of(doc, "net_labels"@), nets)
    &&& component_label_views(s.component_labels@) == component_labels_of(
        schematic_table_of(doc, "component_labels"@),
        comps,
    )
}

/// The snapshot of a project document.
pub fn project_snapshot_from_project(doc: &YamlNode) -> (r: ProjectSnapshot)
    ensures
        snapshot_holds(r, doc@),
        forall|i: int| 0 <= i < r.net_labels@.len() ==> has_key(
            board_table_or_empty(doc@, "nets"@),
            (#[trigger] r.net_labels@[i]).net_id@,
        ),
        forall|i: int| 0 <= i < r.component_labels@.len() ==> has_key(
            board_table_or_empty(doc@, "components"@),
            (#[trigger] r.component_labels@[i]).component_id@,
        ),
{
    let empty_comps: Vec<YamlEntry> = Vec::new();
    let empty_nets: Vec<YamlEntry> = Vec::new();
    let empty_styles: Vec<YamlEntry> = Vec::new();
    proof {
        assert(entries_of(empty_comps@) =~= Seq::<(Yaml, Yaml)>::empty());
        assert(entries_of(empty_nets@) =~= Seq::<(Yaml, Yaml)>::empty());
        assert(entries_of(empty_styles@) =~= Seq::<(Yaml, Yaml)>::empty());
    }
    let comps: &Vec<YamlEntry> = match board_table(doc, "components") {
        Ok(t) => t,
        Err(_) => &empty_comps,
    };
    let nets: &Vec<YamlEntry> = match board_table(doc, "nets") {
        Ok(t) => t,
        Err(_) => &empty_nets,
    };
    let styles: &Vec<YamlEntry> = match board_table(doc, "schematic") {
        Ok(sch) => match map_find(sch, "node_styles") {
            Some(i) => match &sch[i].value {
                YamlNode::Mapping(m) => {
                    proof {
                        lemma_map_view(*m);
                    }
                    m
                },
                other => {
                    proof {
                        lemma_map_view_not(*other);
                    }
                    &empty_styles
                },
            },
            None => &empty_styles,
        },
        Err(_) => &empty_styles,
    };
    let name = match node_field(doc, "project") {
        Some(p) => match node_text_field(p, "name") {
            Some(t) => text_clone(t),
            None => str_to_string(""),
        },
        None => str_to_string(""),
    };
    let scenarios = match node_list_field(doc, "scenarios") {
        Some(v) => v.len(),
        None => 0,
    };
    proof {
        reveal_strlit("");
    }
    assert(name@ == project_name_of(doc@));
    assert(scenarios == scenarios_of(doc@).len());
    assert(entries_of(comps@) == board_table_or_empty(doc@, "components"@));
    assert(entries_of(nets@) == board_table_or_empty(doc@, "nets"@));
    assert(entries_of(styles@) == node_styles_of(doc@));
    let empty_schematic_table: Vec<YamlEntry> = Vec::new();
    proof {
        assert(entries_of(empty_schematic_table@) =~= Seq::<(Yaml, Yaml)>::empty());
    }
    let symbols = match schematic_table(doc, "component_symbols") {
        Some(t) => t,
        None => &empty_schematic_table,
    };
    let positions = match schematic_table(doc, "node_positions") {
        Some(t) => t,
        None => &empty_schematic_table,
    };
    let components_detail = collect_components(comps, styles, symbols, positions);
    let nets_detail = collect_nets(nets, comps, positions);
    let empty_items: Vec<YamlNode> = Vec::new();
    proof {
        lemma_list_view(empty_items);
        assert(list_of(empty_items@) =~= Seq::<Yaml>::empty());
    }
    let libraries = match node_field(doc, "libraries") {
        Some(YamlNode::List(items)) => {
            proof {
                lemma_list_view(*items);
            }
            collect_texts(items)
        },
        _ => collect_texts(&empty_items),
    };
    let empty_table: Vec<YamlEntry> = Vec::new();
    proof {
        assert(entries_of(empty_table@) =~= Seq::<(Yaml, Yaml)>::empty());
    }
    let routes = match schematic_table(doc, "wire_routes") {
        Some(t) => t,
        None => &empty_table,
    };
    let labels = match schematic_table(doc, "net_labels") {
        Some(t) => t,
        None => &empty_table,
    };
    let component_label_table = match schematic_table(doc, "component_labels") {
        Some(t) => t,
        None => &empty_table,
    };
    let wire_routes = collect_wire_routes(routes);
    let net_labels = collect_net_labels(labels, nets);
    let component_labels = collect_component_labels(component_label_table, comps);
    proof {
        lemma_net_labels_on_board(id_order(entries_of(labels@)), entries_of(nets@));
        lemma_component_labels_on_board(id_order(entries_of(component_label_table@)), entries_of(comps@));
        assert forall|i: int| 0 <= i < net_labels@.len() implies has_key(
            board_table_or_empty(doc@, "nets"@),
            (#[trigger] net_labels@[i]).net_id@,
        ) by {
            let v = net_label_views(net_labels@);
            let w = net_label_summaries_of(id_order(entries_of(labels@)), entries_of(nets@));
            assert(v == w);
            assert(v[i] == crate::labels::net_label_view(net_labels@[i]));
            assert(has_key(entries_of(nets@), w[i].net_id));
        }
        assert forall|i: int| 0 <= i < component_labels@.len() implies has_key(
            board_table_or_empty(doc@, "components"@),
            (#[trigger] component_labels@[i]).component_id@,
        ) by {
            let v = component_label_views(component_labels@);
            let w = component_label_summaries_of(
                id_order(entries_of(component_label_table@)),
                entries_of(comps@),
            );
            assert(v == w);
            assert(v[i] == crate::labels::component_label_view(component_labels@[i]));
            assert(has_key(entries_of(comps@), w[i].component_id));
        }
    }
    ProjectSnapshot {
        name,
        components: comps.len(),
        nets: nets.len(),
        scenarios,
        libraries,
        components_detail,
        nets_detail,
        wire_routes,
        net_labels,
        component_labels,
    }
}

/// The mapping under `name` of the board's schematic, when there is one.
fn schematic_table<'a>(doc: &'a YamlNode, name: &str) -> (r: Option<&'a Vec<YamlEntry>>)
    ensures
        match r {
            Some(t) => entries_of(t@) == schematic_table_of(doc@, name@),
            None => schematic_table_of(doc@, name@) == Seq::<(Yaml, Yaml)>::empty(),
        },
{
    match board_table(doc, "schematic") {
        Ok(sch) => match map_find(sch, name) {
            Some(i) => match &sch[i].value {
                YamlNode::Mapping(m) => {
                    proof {
                        lemma_map_view(*m);
                    }
                    Some(m)
                },
                other => {
                    proof {
                        lemma_map_view_not(*other);
                    }
                    None
                },
            },
            None => None,
        },
        Err(_) => None,
    }
}

/// Reads the snapshot of project text; a text that is not YAML, or has no board mapping,
/// is refused as not Board IR.
pub fn load_project_snapshot_from_yaml(text: &str) -> (r: Result<ProjectSnapshot, EditError>)
    ensures
        match parsed_yaml(text@) {
            Some(d) => if board_of(d) is Ok {
                r matches Ok(s) && snapshot_holds(s, d)
            } else {
                r matches Err(e) && e@ == EditErr::InvalidBoardIr
            },
            None => r matches Err(e) && e@ == EditErr::InvalidBoardIr,
        },
{
    match parse_yaml(text) {
        None => Err(EditError::InvalidBoardIr),
        Some(d) => {
            if !has_board(&d) {
                return Err(EditError::InvalidBoardIr);
            }
            Ok(project_snapshot_from_project(&d))
        },
    }
}

fn has_board(doc: &YamlNode) -> (r: bool)
    ensures
        r == board_of(doc@) is Ok,
{
    match node_field(doc, "board") {
        Some(YamlNode::Mapping(b)) => {
            proof {
                lemma_map_view(*b);
            }
            true
        },
        other => {
            proof {
                if let Some(o) = other {
                    lemma_map_view_not(*o);
                }
            }
            false
        },
    }
}

// ---------------------------------------------------------------------------------------
// Editor defaults picked from the snapshot
// ---------------------------------------------------------------------------------------

/// `k` is the least id, in name order, among the marked entries.
pub open spec fn is_least_marked(ids: Seq<Seq<char>>, marks: Seq<bool>, k: Seq<char>) -> bool {
    &&& exists|i: int| 0 <= i < ids.len() && i < marks.len() && marks[i] && #[trigger] ids[i] == k
    &&& forall|j: int|
        0 <= j < ids.len() && j < marks.len() && marks[j] ==> !seq_lt(#[trigger] ids[j], k)
}

/// The least marked id in name order, when some entry is marked.
pub open spec fn least_marked(ids: Seq<Seq<char>>, marks: Seq<bool>) -> Option<Seq<char>> {
    if exists|k: Seq<char>| is_least_marked(ids, marks, k) {
        Some(choose|k: Seq<char>| is_least_marked(ids, marks, k))
    } else {
        None
    }
}

proof fn lemma_least_marked_unique(ids: Seq<Seq<char>>, marks: Seq<bool>, a: Seq<char>, b: Seq<char>)
    requires
        is_least_marked(ids, marks, a),
        is_least_marked(ids, marks, b),
    ensures
        a == b,
{
    if a != b {
        lemma_lt_total(a, b);
        let i = choose|i: int| 0 <= i < ids.len() && i < marks.len() && marks[i] && #[trigger] ids[i] == a;
        let j = choose|j: int| 0 <= j < ids.len() && j < marks.len() && marks[j] && #[trigger] ids[j] == b;
        assert(!seq_lt(ids[i], b));
        assert(!seq_lt(ids[j], a));
    }
}

/// The least marked id in name order.
fn least_marked_id(ids: &Vec<String>, marks: &Vec<bool>) -> (r: Option<String>)
    requires
        ids@.len() == marks@.len(),
    ensures
        match r {
            Some(k) => least_marked(names(ids@), marks@) == Some(k@),
            None => least_marked(names(ids@), marks@) is None,
        },
{
    let ghost v = names(ids@);
    let mut best: Option<usize> = None;
    let mut j: usize = 0;
    while j < ids.len()
        invariant
            v == names(ids@),
            ids@.len() == marks@.len(),
            j <= ids@.len(),
            match best {
                Some(b) => b < j && marks@[b as int] && forall|q: int|
                    0 <= q < j && marks@[q] ==> !seq_lt(#[trigger] v[q], v[b as int]),
                None => forall|q: int| 0 <= q < j ==> !#[trigger] marks@[q],
            },
        decreases ids@.len() - j,
    {
        if marks[j] {
            match best {
                None => {
                    best = Some(j);
                    proof {
                        lemma_lt_irreflexive(v[j as int]);
                    }
                },
                Some(b) => {
                    if str_lt(ids[j].as_str(), ids[b].as_str()) {
                        best = Some(j);
                        assert forall|q: int| 0 <= q < j + 1 && marks@[q] implies !seq_lt(
                            #[trigger] v[q],
                            v[j as int],
                        ) by {
                            if q == j {
                                lemma_lt_irreflexive(v[j as int]);
                            } else if seq_lt(v[q], v[j as int]) {
                                lemma_lt_transitive(v[q], v[j as int], v[b as int]);
                            }
                        }
                    } else {
                        assert forall|q: int| 0 <= q < j + 1 && marks@[q] implies !seq_lt(
                            #[trigger] v[q],
                            v[b as int],
                        ) by {
                            if q == j {
                            }
                        }
                    }
                },
            }
        }
        j = j + 1;
    }
    match best {
        Some(b) => {
            assert(is_least_marked(v, marks@, v[b as int]));
            proof {
                let c = choose|k: Seq<char>| is_least_marked(v, marks@, k);
                lemma_least_marked_unique(v, marks@, c, v[b as int]);
            }
            Some(text_clone(&ids[b]))
        },
        None => {
            assert(!exists|k: Seq<char>| is_least_marked(v, marks@, k)) by {
                if exists|k: Seq<char>| is_least_marked(v, marks@, k) {
                    let k = choose|k: Seq<char>| is_least_marked(v, marks@, k);
                    let i = choose|i: int| 0 <= i < v.len() && i < marks@.len() && marks@[i] && #[trigger] v[i] == k;
                    assert(!marks@[i]);
                }
            }
            None
        },
    }
}

pub open spec fn net_ids(v: Seq<NetSummary>) -> Seq<Seq<char>> {
    v.map_values(|n: NetSummary| n.id)
}

pub open spec fn component_ids(v: Seq<ComponentSummary>) -> Seq<Seq<char>> {
    v.map_values(|c: ComponentSummary| c.id)
}

/// The ground net a new run setup is bound to: the first ground net by name.
pub open spec fn default_ground_net(v: Seq<NetSummary>) -> Option<Seq<char>> {
    least_marked(net_ids(v), v.map_values(|n: NetSummary| n.kind == "ground"@))
}

/// The net a new run setup probes: the first net by name that is not ground, else the
/// first net.
pub open spec fn default_probe_net(v: Seq<NetSummary>) -> Option<Seq<char>> {
    match least_marked(net_ids(v), v.map_values(|n: NetSummary| n.kind != "ground"@)) {
        Some(k) => Some(k),
        None => least_marked(net_ids(v), v.map_values(|n: NetSummary| true)),
    }
}

/// `current` when set, else the pick when there is one.
pub open spec fn blank_or(current: Seq<char>, pick: Option<Seq<char>>) -> Seq<char> {
    if current.len() == 0 && pick is Some {
        pick->0
    } else {
        current
    }
}

fn snapshot_net_ids(nets: &Vec<SketchNet>) -> (r: Vec<String>)
    ensures
        names(r@) == net_ids(net_views(nets@)),
{
    let mut r: Vec<String> = Vec::new();
    let mut i: usize = 0;
    while i < nets.len()
        invariant
            i <= nets@.len(),
            names(r@) == net_ids(net_views(nets@)).subrange(0, i as int),
        decreases nets@.len() - i,
    {
        let ghost before = r@;
        r.push(text_clone(&nets[i].id));
        assert(net_views(nets@)[i as int] == net_view(nets@[i as int]));
        assert(net_ids(net_views(nets@))[i as int] == nets@[i as int].id@);
        assert(names(r@) =~= names(before).push(nets@[i as int].id@));
        assert(names(r@) =~= net_ids(net_views(nets@)).subrange(0, i + 1));
        i = i + 1;
    }
    assert(net_ids(net_views(nets@)).subrange(0, nets@.len() as int) =~= net_ids(net_views(nets@)));
    r
}

/// Marks the nets that are ground (`Some(true)`), are not ground (`Some(false)`), or all.
fn net_marks(nets: &Vec<SketchNet>, ground: Option<bool>) -> (r: Vec<bool>)
    ensures
        r@ == net_views(nets@).map_values(
            |n: NetSummary|
                match ground {
                    Some(g) => (n.kind == "ground"@) == g,
                    None => true,
                },
        ),
{
    let ghost target = net_views(nets@).map_values(
        |n: NetSummary|
            match ground {
                Some(g) => (n.kind == "ground"@) == g,
                None => true,
            },
    );
    let mut r: Vec<bool> = Vec::new();
    let mut i: usize = 0;
    while i < nets.len()
        invariant
            i <= nets@.len(),
            target.len() == nets@.len(),
            target == net_views(nets@).map_values(
                |n: NetSummary|
                    match ground {
                        Some(g) => (n.kind == "ground"@) == g,
                        None => true,
                    },
            ),
            r@ == target.subrange(0, i as int),
        decreases nets@.len() - i,
    {
        let m = match ground {
            Some(g) => text_eq(nets[i].kind.as_str(), "ground") == g,
            None => true,
        };
        r.push(m);
        assert(r@ =~= target.subrange(0, i + 1));
        i = i + 1;
    }
    assert(target.subrange(0, nets@.len() as int) =~= target);
    r
}

/// Fills in a blank ground net and a blank probed net of the run setup editor from the
/// project: the first ground net by name, and the first net by name that is not ground
/// (else the first net).
pub fn initialize_analog_net_defaults(
    snapshot: &ProjectSnapshot,
    ground_net: &mut String,
    probe_net: &mut String,
)
    ensures
        final(ground_net)@ == blank_or(old(ground_net)@, default_ground_net(net_views(snapshot.nets_detail@))),
        final(probe_net)@ == blank_or(old(probe_net)@, default_probe_net(net_views(snapshot.nets_detail@))),
{
    let ghost nv = net_views(snapshot.nets_detail@);
    let ids = snapshot_net_ids(&snapshot.nets_detail);
    assert(ids@.len() == names(ids@).len());
    assert(ids@.len() == snapshot.nets_detail@.len());
    if char_len(ground_net.as_str()) == 0 {
        let marks = net_marks(&snapshot.nets_detail, Some(true));
        assert(marks@ =~= nv.map_values(|n: NetSummary| n.kind == "ground"@));
        if let Some(k) = least_marked_id(&ids, &marks) {
            *ground_net = k;
        }
    }
    if char_len(probe_net.as_str()) == 0 {
        let marks = net_marks(&snapshot.nets_detail, Some(false));
        assert(marks@ =~= nv.map_values(|n: NetSummary| n.kind != "ground"@));
        match least_marked_id(&ids, &marks) {
            Some(k) => {
                *probe_net = k;
            },
            None => {
                let all = net_marks(&snapshot.nets_detail, None);
                assert(all@ =~= nv.map_values(|n: NetSummary| true));
                if let Some(k) = least_marked_id(&ids, &all) {
                    *probe_net = k;
                }
            },
        }
    }
}

/// Whether a SPICE primitive is a voltage or current source, which a noise analysis can take
/// as its input.
pub fn is_noise_source_spice(primitive: &str) -> (r: bool)
    ensures
        r == is_source_primitive(primitive@),
{
    text_eq(primitive, "dc_voltage_source") || text_eq(primitive, "pulse_voltage_source") || text_eq(
        primitive,
        "dc_current_source",
    ) || text_eq(primitive, "pulse_current_source")
}

/// Marks the components that are voltage or current sources.
pub open spec fn source_marks(v: Seq<ComponentSummary>) -> Seq<bool> {
    v.map_values(
        |c: ComponentSummary|
            match c.primitive {
                Some(p) => is_source_primitive(p),
                None => false,
            },
    )
}

/// The input source a noise analysis defaults to: the first source component by name,
/// else the first component.
pub open spec fn default_noise_source(v: Seq<ComponentSummary>) -> Option<Seq<char>> {
    match least_marked(component_ids(v), source_marks(v)) {
        Some(k) => Some(k),
        None => least_marked(component_ids(v), v.map_values(|c: ComponentSummary| true)),
    }
}

fn snapshot_component_ids(comps: &Vec<SketchComponent>) -> (r: Vec<String>)
    ensures
        names(r@) == component_ids(component_views(comps@)),
{
    let mut r: Vec<String> = Vec::new();
    let mut i: usize = 0;
    while i < comps.len()
        invariant
            i <= comps@.len(),
            names(r@) == component_ids(component_views(comps@)).subrange(0, i as int),
        decreases comps@.len() - i,
    {
        let ghost before = r@;
        r.push(text_clone(&comps[i].id));
        assert(component_views(comps@)[i as int] == component_view(comps@[i as int]));
        assert(names(r@) =~= names(before).push(comps@[i as int].id@));
        assert(names(r@) =~= component_ids(component_views(comps@)).subrange(0, i + 1));
        i = i + 1;
    }
    assert(component_ids(component_views(comps@)).subrange(0, comps@.len() as int) =~= component_ids(
        component_views(comps@),
    ));
    r
}

/// Marks the source components (`true`) or every component (`false`).
fn component_marks(comps: &Vec<SketchComponent>, sources: bool) -> (r: Vec<bool>)
    ensures
        sources ==> r@ == source_marks(component_views(comps@)),
        !sources ==> r@ == component_views(comps@).map_values(|c: ComponentSummary| true),
{
    let ghost cv = component_views(comps@);
    let ghost target = if sources {
        source_marks(cv)
    } else {
        cv.map_values(|c: ComponentSummary| true)
    };
    let mut r: Vec<bool> = Vec::new();
    let mut i: usize = 0;
    while i < comps.len()
        invariant
            i <= comps@.len(),
            cv == component_views(comps@),
            target == (if sources {
                source_marks(cv)
            } else {
                cv.map_values(|c: ComponentSummary| true)
            }),
            target.len() == comps@.len(),
            r@ == target.subrange(0, i as int),
        decreases comps@.len() - i,
    {
        let m = if sources {
            match &comps[i].spice_primitive {
                Some(p) => is_noise_source_spice(p.as_str()),
                None => false,
            }
        } else {
            true
        };
        assert(cv[i as int] == component_view(comps@[i as int]));
        r.push(m);
        assert(r@ =~= target.subrange(0, i + 1));
        i = i + 1;
    }
    assert(target.subrange(0, comps@.len() as int) =~= target);
    r
}

/// Keeps the selected noise input source when it is a component of the project; otherwise
/// selects the first source component by name, else the first component.
pub fn initialize_noise_source_default(snapshot: &ProjectSnapshot, selected: &mut String)
    ensures
        final(selected)@ == ({
            let cv = component_views(snapshot.components_detail@);
            if old(selected)@.len() > 0 && component_ids(cv).contains(old(selected)@) {
                old(selected)@
            } else {
                match default_noise_source(cv) {
                    Some(k) => k,
                    None => old(selected)@,
                }
            }
        }),
{
    let ghost cv = component_views(snapshot.components_detail@);
    let ids = snapshot_component_ids(&snapshot.components_detail);
    assert(ids@.len() == names(ids@).len());
    assert(ids@.len() == snapshot.components_detail@.len());
    if char_len(selected.as_str()) > 0 && crate::naming::contains_name(&ids, selected.as_str()) {
        return;
    }
    let marks = component_marks(&snapshot.components_detail, true);
    match least_marked_id(&ids, &marks) {
        Some(k) => {
            *selected = k;
        },
        None => {
            let all = component_marks(&snapshot.components_detail, false);
            if let Some(k) = least_marked_id(&ids, &all) {
                *selected = k;
            }
        },
    }
}

/// Whether a SPICE primitive is a resistor, capacitor or inductor.
pub open spec fn is_passive_primitive(p: Seq<char>) -> bool {
    p == "resistor"@ || p == "capacitor"@ || p == "inductor"@
}

/// The ids of the resistors, capacitors and inductors among the first `n` components.
pub open spec fn passive_ids(v: Seq<ComponentSummary>, n: int) -> Set<Seq<char>> {
    Set::new(
        |k: Seq<char>|
            exists|i: int|
                0 <= i < n && #[trigger] v[i].id == k && (v[i].primitive matches Some(p)
                    && is_passive_primitive(p)),
    )
}

/// The components a blank sensitivity filter is filled with are exactly the listed
/// components whose SPICE primitive is `resistor`, `capacitor` or `inductor`, named by id.
pub proof fn law_sensitivity_filters_name_passives(cv: Seq<ComponentSummary>, k: Seq<char>)
    ensures
        passive_ids(cv, cv.len() as int).contains(k) <==> exists|i: int|
            0 <= i < cv.len() && #[trigger] cv[i].id == k && (cv[i].primitive == Some("resistor"@)
                || cv[i].primitive == Some("capacitor"@) || cv[i].primitive == Some("inductor"@)),
{
    if passive_ids(cv, cv.len() as int).contains(k) {
        let i = choose|i: int|
            0 <= i < cv.len() && #[trigger] cv[i].id == k && (cv[i].primitive matches Some(p)
                && is_passive_primitive(p));
        assert(cv[i].id == k);
    }
    if exists|i: int|
        0 <= i < cv.len() && #[trigger] cv[i].id == k && (cv[i].primitive == Some("resistor"@)
            || cv[i].primitive == Some("capacitor"@) || cv[i].primitive == Some("inductor"@)) {
        let i = choose|i: int|
            0 <= i < cv.len() && #[trigger] cv[i].id == k && (cv[i].primitive == Some("resistor"@)
                || cv[i].primitive == Some("capacitor"@) || cv[i].primitive == Some("inductor"@));
        assert(cv[i].id == k && (cv[i].primitive matches Some(p) && is_passive_primitive(p)));
    }
}

/// `parts` joined with `sep` between them.
pub open spec fn joined(parts: Seq<Seq<char>>, sep: Seq<char>) -> Seq<char>
    decreases parts.len(),
{
    if parts.len() == 0 {
        Seq::empty()
    } else if parts.len() == 1 {
        parts[0]
    } else {
        joined(parts.drop_last(), sep) + sep + parts.last()
    }
}

fn join_names(parts: &Vec<String>, sep: &str) -> (r: String)
    ensures
        r@ == joined(names(parts@), sep@),
{
    let ghost n = names(parts@);
    let mut r = str_to_string("");
    proof {
        reveal_strlit("");
    }
    let mut i: usize = 0;
    while i < parts.len()
        invariant
            n == names(parts@),
            i <= parts@.len(),
            r@ == joined(n.subrange(0, i as int), sep@),
        decreases parts@.len() - i,
    {
        assert(n.subrange(0, i + 1).drop_last() =~= n.subrange(0, i as int));
        if i > 0 {
            r.append(sep);
        } else {
            assert(n.subrange(0, 1)[0] == n[0]);
        }
        r.append(parts[i].as_str());
        i = i + 1;
    }
    assert(n.subrange(0, parts@.len() as int) =~= n);
    r
}

/// Fills a blank sensitivity filter with the resistors, capacitors and inductors of the
/// project, by name, separated by `, `; keeps it when none is there.
pub fn initialize_sensitivity_filters_default(snapshot: &ProjectSnapshot, selected: &mut String)
    ensures
        final(selected)@ == ({
            let cv = component_views(snapshot.components_detail@);
            let filters = sorted_of(passive_ids(cv, cv.len() as int));
            if trim(old(selected)@).len() > 0 || filters.len() == 0 {
                old(selected)@
            } else {
                joined(filters, ", "@)
            }
        }),
{
    let ghost cv = component_views(snapshot.components_detail@);
    if char_len(trim_str(selected.as_str()).as_str()) > 0 {
        return;
    }
    let comps = &snapshot.components_detail;
    let mut ids: Vec<String> = Vec::new();
    let mut i: usize = 0;
    assert(names(ids@).to_set() =~= passive_ids(cv, 0));
    while i < comps.len()
        invariant
            cv == component_views(comps@),
            i <= comps@.len(),
            strictly_sorted(names(ids@)),
            names(ids@).to_set() == passive_ids(cv, i as int),
        decreases comps@.len() - i,
    {
        assert(cv[i as int] == component_view(comps@[i as int]));
        let passive = match &comps[i].spice_primitive {
            Some(p) => text_eq(p.as_str(), "resistor") || text_eq(p.as_str(), "capacitor") || text_eq(
                p.as_str(),
                "inductor",
            ),
            None => false,
        };
        if passive {
            let ghost old_set = names(ids@).to_set();
            let id = text_clone(&comps[i].id);
            let ghost idv = id@;
            insert_sorted(&mut ids, id);
            assert(cv[i as int].id == idv);
            assert(cv[i as int].primitive matches Some(p) && is_passive_primitive(p));
            assert(passive_ids(cv, i + 1).contains(idv));
            assert forall|k: Seq<char>| passive_ids(cv, i + 1).contains(k) implies #[trigger] old_set.insert(
                idv,
            ).contains(k) by {
                let j = choose|j: int|
                    0 <= j < i + 1 && #[trigger] cv[j].id == k && (cv[j].primitive matches Some(p)
                        && is_passive_primitive(p));
                if j < i {
                    assert(passive_ids(cv, i as int).contains(k));
                }
            }
            assert forall|k: Seq<char>| #[trigger] old_set.insert(idv).contains(k) implies passive_ids(
                cv,
                i + 1,
            ).contains(k) by {
                if k != idv {
                    assert(passive_ids(cv, i as int).contains(k));
                    let j = choose|j: int|
                        0 <= j < i && #[trigger] cv[j].id == k && (cv[j].primitive matches Some(p)
                            && is_passive_primitive(p));
                    assert(0 <= j < i + 1);
                }
            }
            assert(names(ids@).to_set() =~= passive_ids(cv, i + 1));
        } else {
            assert(!(cv[i as int].primitive matches Some(p) && is_passive_primitive(p)));
            assert forall|k: Seq<char>| passive_ids(cv, i + 1).contains(k) implies passive_ids(
                cv,
                i as int,
            ).contains(k) by {
                let j = choose|j: int|
                    0 <= j < i + 1 && #[trigger] cv[j].id == k && (cv[j].primitive matches Some(p)
                        && is_passive_primitive(p));
                assert(j != i);
            }
            assert(names(ids@).to_set() =~= passive_ids(cv, i + 1));
        }
        i = i + 1;
    }
    proof {
        let s = passive_ids(cv, cv.len() as int);
        assert(strictly_sorted(sorted_of(s)) && sorted_of(s).to_set() == s);
        lemma_sorted_unique(names(ids@), sorted_of(s));
    }
    if ids.len() > 0 {
        *selected = join_names(&ids, ", ");
    }
}

// ---------------------------------------------------------------------------------------
// Nets and pins agree
// ---------------------------------------------------------------------------------------

/// `component.pin` for each of a component's pins that is on `net`, in order.
pub open spec fn component_pins_on(id: Seq<char>, pins: Seq<(Seq<char>, Seq<char>)>, net: Seq<char>) -> Seq<
    Seq<char>,
>
    decreases pins.len(),
{
    if pins.len() == 0 {
        Seq::empty()
    } else {
        let prev = component_pins_on(id, pins.drop_last(), net);
        if pins.last().1 == net {
            prev.push(id + seq!['.'] + pins.last().0)
        } else {
            prev
        }
    }
}

/// `component.pin` for every pin of the listed components that is on `net`, in order.
pub open spec fn pins_on(cs: Seq<ComponentSummary>, net: Seq<char>) -> Seq<Seq<char>>
    decreases cs.len(),
{
    if cs.len() == 0 {
        Seq::empty()
    } else {
        pins_on(cs.drop_last(), net) + component_pins_on(cs.last().id, cs.last().pins, net)
    }
}

proof fn lemma_component_refs(c: Seq<char>, ps: Seq<(Seq<char>, Yaml)>, net: Seq<char>)
    ensures
        refs_of_pins(c, ps, net) == component_pins_on(c, pin_pairs_of(ps), net),
    decreases ps.len(),
{
    if ps.len() > 0 {
        lemma_component_refs(c, ps.drop_last(), net);
        let pp = pin_pairs_of(ps.drop_last());
        match ps.last().1 {
            Yaml::Text(n) => {
                assert(pin_pairs_of(ps) == pp.push((ps.last().0, n)));
                assert(pp.push((ps.last().0, n)).drop_last() =~= pp);
            },
            _ => {},
        }
    }
}

proof fn lemma_net_refs_pins_on(
    cs: Seq<(Seq<char>, Yaml)>,
    styles: Seq<(Yaml, Yaml)>,
    symbols: Seq<(Yaml, Yaml)>,
    positions: Seq<(Yaml, Yaml)>,
    net: Seq<char>,
)
    ensures
        refs_of_components(cs, net) == pins_on(summaries_of(cs, styles, symbols, positions), net),
    decreases cs.len(),
{
    if cs.len() > 0 {
        let prev = cs.drop_last();
        lemma_net_refs_pins_on(prev, styles, symbols, positions, net);
        let sm = summaries_of(prev, styles, symbols, positions);
        match cs.last().1 {
            Yaml::Mapping(cm) => {
                let id = cs.last().0;
                let c = component_summary_of(id, Yaml::Mapping(cm), styles, symbols, positions);
                assert(summaries_of(cs, styles, symbols, positions) == sm.push(c));
                assert(sm.push(c).drop_last() =~= sm);
                match map_get(cm, "pins"@) {
                    Some(Yaml::Mapping(pins)) => {
                        lemma_component_refs(id, id_order(pins), net);
                    },
                    _ => {
                        assert(pins_of(Yaml::Mapping(cm)) == Seq::<(Yaml, Yaml)>::empty());
                        assert(keyed_entries(Seq::<(Yaml, Yaml)>::empty()) == Seq::<(Seq<char>, Yaml)>::empty());
                        assert(pin_pairs(Seq::<(Yaml, Yaml)>::empty()) == Seq::<(Seq<char>, Seq<char>)>::empty());
                        assert(component_pins_on(id, Seq::empty(), net) == Seq::<Seq<char>>::empty());
                        assert(refs_of_components(prev, net) + Seq::<Seq<char>>::empty() =~= refs_of_components(prev, net));
                    },
                }
            },
            _ => {},
        }
    }
}

/// In a project's snapshot, each net lists as its connections exactly the pins of the
/// listed components that are on it, in order.
pub proof fn law_snapshot_connections_are_pins(s: ProjectSnapshot, doc: Yaml, k: int)
    requires
        snapshot_holds(s, doc),
        0 <= k < s.nets_detail@.len(),
    ensures
        net_views(s.nets_detail@)[k].connections == pins_on(
            component_views(s.components_detail@),
            net_views(s.nets_detail@)[k].id,
        ),
{
    let comps = board_table_or_empty(doc, "components"@);
    let styles = node_styles_of(doc);
    let nets = board_table_or_empty(doc, "nets"@);
    let positions = schematic_table_of(doc, "node_positions"@);
    lemma_nets_of_connections(id_order(nets), comps, positions, k);
    lemma_net_refs_pins_on(
        id_order(comps),
        styles,
        schematic_table_of(doc, "component_symbols"@),
        positions,
        net_views(s.nets_detail@)[k].id,
    );
}

proof fn lemma_nets_of_connections(
    ns: Seq<(Seq<char>, Yaml)>,
    comps: Seq<(Yaml, Yaml)>,
    positions: Seq<(Yaml, Yaml)>,
    k: int,
)
    requires
        0 <= k < net_summaries_of(ns, comps, positions).len(),
    ensures
        net_summaries_of(ns, comps, positions)[k].connections == net_refs(
            comps,
            net_summaries_of(ns, comps, positions)[k].id,
        ),
    decreases ns.len(),
{
    if ns.len() > 0 {
        let prev = net_summaries_of(ns.drop_last(), comps, positions);
        if k < prev.len() {
            lemma_nets_of_connections(ns.drop_last(), comps, positions, k);
        }
    }
}

// ---------------------------------------------------------------------------------------
// Net bundles of the project
// ---------------------------------------------------------------------------------------

/// The bundles of the project's nets.
pub fn project_net_bundles(snapshot: &ProjectSnapshot) -> (r: Vec<SketchNetBundle>)
    ensures
        strictly_sorted(bundle_label_views(r@)),
        bundle_label_views(r@).to_set() == bundle_labels(net_ids(net_views(snapshot.nets_detail@))),
        forall|t: int|
            0 <= t < r@.len() ==> strictly_sorted(names(#[trigger] r@[t].members@)) && names(
                r@[t].members@,
            ).to_set() == members_of(net_ids(net_views(snapshot.nets_detail@)), r@[t].label@),
{
    let ids = snapshot_net_ids(&snapshot.nets_detail);
    derive_net_bundles(&ids)
}

/// The bundle of the project's nets that carries `label`, when there is one.
pub fn find_net_bundle(snapshot: &ProjectSnapshot, label: &str) -> (r: Option<SketchNetBundle>)
    ensures
        match r {
            Some(b) => b.label@ == label@ && bundle_labels(net_ids(net_views(snapshot.nets_detail@))).contains(
                label@,
            ) && strictly_sorted(names(b.members@)) && names(b.members@).to_set() == members_of(
                net_ids(net_views(snapshot.nets_detail@)),
                label@,
            ),
            None => !bundle_labels(net_ids(net_views(snapshot.nets_detail@))).contains(label@),
        },
{
    let bundles = project_net_bundles(snapshot);
    let ghost lv = bundle_label_views(bundles@);
    let mut i: usize = 0;
    while i < bundles.len()
        invariant
            i <= bundles@.len(),
            lv == bundle_label_views(bundles@),
            lv.len() == bundles@.len(),
            lv.to_set() == bundle_labels(net_ids(net_views(snapshot.nets_detail@))),
            forall|t: int|
                0 <= t < bundles@.len() ==> strictly_sorted(names(#[trigger] bundles@[t].members@)) && names(
                    bundles@[t].members@,
                ).to_set() == members_of(net_ids(net_views(snapshot.nets_detail@)), bundles@[t].label@),
            forall|k: int| 0 <= k < i ==> #[trigger] lv[k] != label@,
        decreases bundles@.len() - i,
    {
        assert(lv[i as int] == bundles@[i as int].label@);
        if text_eq(bundles[i].label.as_str(), label) {
            assert(lv.to_set().contains(lv[i as int]));
            assert(strictly_sorted(names(bundles@[i as int].members@)));
            assert(names(bundles@[i as int].members@).to_set() == members_of(
                net_ids(net_views(snapshot.nets_detail@)),
                bundles@[i as int].label@,
            ));
            let b = copy_bundle(&bundles[i]);
            return Some(b);
        }
        i = i + 1;
    }
    assert(!lv.to_set().contains(label@)) by {
        if lv.to_set().contains(label@) {
            let k = choose|k: int| 0 <= k < lv.len() && lv[k] == label@;
            assert(lv[k] != label@);
        }
    }
    None
}

fn copy_bundle(b: &SketchNetBundle) -> (r: SketchNetBundle)
    ensures
        r.label@ == b.label@,
        names(r.members@) == names(b.members@),
{
    let mut members: Vec<String> = Vec::new();
    let mut i: usize = 0;
    while i < b.members.len()
        invariant
            i <= b.members@.len(),
            names(members@) == names(b.members@).subrange(0, i as int),
        decreases b.members@.len() - i,
    {
        let ghost before = members@;
        members.push(text_clone(&b.members[i]));
        assert(names(members@) =~= names(before).push(b.members@[i as int]@));
        assert(names(members@) =~= names(b.members@).subrange(0, i + 1));
        i = i + 1;
    }
    assert(names(b.members@).subrange(0, b.members@.len() as int) =~= names(b.members@));
    SketchNetBundle { label: text_clone(&b.label), members }
}

} // verus!
