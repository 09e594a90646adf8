//! What the sketch shows of the schematic beside its nodes: net labels, component label
//! placements, wire routes and the project's libraries. Points keep the numbers as the
//! project writes them.
use vstd::prelude::*;
use crate::canvas::SketchNetLabelKind;
use crate::doc::{
    Yaml, YamlEntry, YamlNode, entries_of, field, has_key, lemma_list_view, lemma_map_view,
    list_field, list_of, map_contains, node_field, node_text_field, text_field,
};
use crate::order::{entries_at, id_order, id_order_positions};
use crate::text::{str_to_string, text_eq};

verus! {

/// A point as the project writes it: its `x` and `y` numbers, in their written form; none
/// when either is missing or not a number.
pub open spec fn point_of(y: Yaml) -> Option<(Seq<char>, Seq<char>)> {
    match (field(y, "x"@), field(y, "y"@)) {
        (Some(Yaml::Number(a)), Some(Yaml::Number(b))) => Some((a, b)),
        _ => None,
    }
}

/// The point stored under an optional value.
pub open spec fn opt_point(y: Option<Yaml>) -> Option<(Seq<char>, Seq<char>)> {
    match y {
        Some(p) => point_of(p),
        None => None,
    }
}

/// A net label's kind: off-page when its `kind` is `off_page`, else local.
pub open spec fn label_kind_of(y: Yaml) -> SketchNetLabelKind {
    if text_field(y, "kind"@) == Some("off_page"@) {
        SketchNetLabelKind::OffPage
    } else {
        SketchNetLabelKind::Local
    }
}

/// A net label as the sketch shows it: its id, its net, its kind and where it stands.
pub struct NetLabelSummary {
    pub id: Seq<char>,
    pub net_id: Seq<char>,
    pub kind: SketchNetLabelKind,
    pub position: Option<(Seq<char>, Seq<char>)>,
}

/// The given net labels (id and value) that name a net of the board.
pub open spec fn net_label_summaries_of(ls: Seq<(Seq<char>, Yaml)>, nets: Seq<(Yaml, Yaml)>) -> Seq<
    NetLabelSummary,
>
    decreases ls.len(),
{
    if ls.len() == 0 {
        Seq::empty()
    } else {
        let prev = net_label_summaries_of(ls.drop_last(), nets);
        let l = ls.last().1;
        match text_field(l, "net"@) {
            Some(n) => if has_key(nets, n) {
                prev.push(
                    NetLabelSummary {
                        id: ls.last().0,
                        net_id: n,
                        kind: label_kind_of(l),
                        position: point_of(l),
                    },
                )
            } else {
                prev
            },
            None => prev,
        }
    }
}

/// The net labels of the schematic, by id, those on a net of the board.
pub open spec fn net_labels_of(labels: Seq<(Yaml, Yaml)>, nets: Seq<(Yaml, Yaml)>) -> Seq<NetLabelSummary> {
    net_label_summaries_of(id_order(labels), nets)
}

/// Where a component's reference and value labels stand.
pub struct ComponentLabelSummary {
    pub component_id: Seq<char>,
    pub reference: Option<(Seq<char>, Seq<char>)>,
    pub value: Option<(Seq<char>, Seq<char>)>,
}

/// The given component label placements (component id and value) of components of the
/// board.
pub open spec fn component_label_summaries_of(ls: Seq<(Seq<char>, Yaml)>, comps: Seq<(Yaml, Yaml)>) -> Seq<
    ComponentLabelSummary,
>
    decreases ls.len(),
{
    if ls.len() == 0 {
        Seq::empty()
    } else {
        let prev = component_label_summaries_of(ls.drop_last(), comps);
        let l = ls.last().1;
        if has_key(comps, ls.last().0) {
            prev.push(
                ComponentLabelSummary {
                    component_id: ls.last().0,
                    reference: opt_point(field(l, "reference"@)),
                    value: opt_point(field(l, "value"@)),
                },
            )
        } else {
            prev
        }
    }
}

/// The component label placements of the schematic, by component id, those of components
/// of the board.
pub open spec fn component_labels_of(labels: Seq<(Yaml, Yaml)>, comps: Seq<(Yaml, Yaml)>) -> Seq<
    ComponentLabelSummary,
> {
    component_label_summaries_of(id_order(labels), comps)
}

/// The points of a route: its `points` items that are points.
pub open spec fn points_of(ps: Seq<Yaml>) -> Seq<(Seq<char>, Seq<char>)>
    decreases ps.len(),
{
    if ps.len() == 0 {
        Seq::empty()
    } else {
        let prev = points_of(ps.drop_last());
        match point_of(ps.last()) {
            Some(p) => prev.push(p),
            None => prev,
        }
    }
}

/// The stored wire routes, by key (`source->net`), each with its points.
pub open spec fn wire_routes_of_entries(rs: Seq<(Seq<char>, Yaml)>) -> Seq<(Seq<char>, Seq<(Seq<char>, Seq<char>)>)>
    decreases rs.len(),
{
    if rs.len() == 0 {
        Seq::empty()
    } else {
        wire_routes_of_entries(rs.drop_last()).push(
            (rs.last().0, points_of(list_field(rs.last().1, "points"@))),
        )
    }
}

/// The wire routes of the schematic, by key.
pub open spec fn wire_routes_of(routes: Seq<(Yaml, Yaml)>) -> Seq<(Seq<char>, Seq<(Seq<char>, Seq<char>)>)> {
    wire_routes_of_entries(id_order(routes))
}

/// The strings of a list, in order.
pub open spec fn texts_of(items: Seq<Yaml>) -> Seq<Seq<char>>
    decreases items.len(),
{
    if items.len() == 0 {
        Seq::empty()
    } else {
        let prev = texts_of(items.drop_last());
        match items.last() {
            Yaml::Text(t) => prev.push(t),
            _ => prev,
        }
    }
}

/// Every label summary names a net of the board.
pub proof fn lemma_net_labels_on_board(ls: Seq<(Seq<char>, Yaml)>, nets: Seq<(Yaml, Yaml)>)
    ensures
        forall|i: int| 0 <= i < net_label_summaries_of(ls, nets).len()
            ==> has_key(nets, #[trigger] net_label_summaries_of(ls, nets)[i].net_id),
    decreases ls.len(),
{
    if ls.len() > 0 {
        lemma_net_labels_on_board(ls.drop_last(), nets);
    }
}

/// Every component label summary is of a component of the board.
pub proof fn lemma_component_labels_on_board(ls: Seq<(Seq<char>, Yaml)>, comps: Seq<(Yaml, Yaml)>)
    ensures
        forall|i: int| 0 <= i < component_label_summaries_of(ls, comps).len()
            ==> has_key(comps, #[trigger] component_label_summaries_of(ls, comps)[i].component_id),
    decreases ls.len(),
{
    if ls.len() > 0 {
        lemma_component_labels_on_board(ls.drop_last(), comps);
    }
}

/// A net label of the sketch.
#[derive(Debug)]
pub struct SketchNetLabelPlacement {
    pub id: String,
    pub net_id: String,
    pub kind: SketchNetLabelKind,
    pub position: Option<(String, String)>,
}

/// Where a component's reference and value labels are drawn.
#[derive(Debug)]
pub struct SketchComponentLabelPositions {
    pub component_id: String,
    pub reference: Option<(String, String)>,
    pub value: Option<(String, String)>,
}

/// A wire drawn through points, stored under `source->net`.
#[derive(Debug)]
pub struct SketchWireRoute {
    pub key: String,
    pub points: Vec<(String, String)>,
}

pub open spec fn point_view(p: (String, String)) -> (Seq<char>, Seq<char>) {
    (p.0@, p.1@)
}

pub open spec fn opt_point_view(p: Option<(String, String)>) -> Option<(Seq<char>, Seq<char>)> {
    match p {
        Some(q) => Some(point_view(q)),
        None => None,
    }
}

pub open spec fn net_label_view(l: SketchNetLabelPlacement) -> NetLabelSummary {
    NetLabelSummary {
        id: l.id@,
        net_id: l.net_id@,
        kind: l.kind,
        position: opt_point_view(l.position),
    }
}

pub open spec fn net_label_views(v: Seq<SketchNetLabelPlacement>) -> Seq<NetLabelSummary> {
    v.map_values(|l: SketchNetLabelPlacement| net_label_view(l))
}

pub open spec fn component_label_view(l: SketchComponentLabelPositions) -> ComponentLabelSummary {
    ComponentLabelSummary {
        component_id: l.component_id@,
        reference: opt_point_view(l.reference),
        value: opt_point_view(l.value),
    }
}

pub open spec fn component_label_views(v: Seq<SketchComponentLabelPositions>) -> Seq<ComponentLabelSummary> {
    v.map_values(|l: SketchComponentLabelPositions| component_label_view(l))
}

pub open spec fn points_view(v: Seq<(String, String)>) -> Seq<(Seq<char>, Seq<char>)> {
    v.map_values(|p: (String, String)| point_view(p))
}

pub open spec fn wire_route_views(v: Seq<SketchWireRoute>) -> Seq<(Seq<char>, Seq<(Seq<char>, Seq<char>)>)> {
    v.map_values(|w: SketchWireRoute| (w.key@, points_view(w.points@)))
}

/// The point stored in a value.
pub fn point_at(n: &YamlNode) -> (r: Option<(String, String)>)
    ensures
        opt_point_view(r) == point_of(n@),
{
    match (node_field(n, "x"), node_field(n, "y")) {
        (Some(YamlNode::Number(a)), Some(YamlNode::Number(b))) => Some(
            (str_to_string(a.as_str()), str_to_string(b.as_str())),
        ),
        _ => None,
    }
}

fn opt_point_at(n: Option<&YamlNode>) -> (r: Option<(String, String)>)
    ensures
        opt_point_view(r) == opt_point(match n {
            Some(v) => Some(v@),
            None => None,
        }),
{
    match n {
        Some(v) => point_at(v),
        None => None,
    }
}

/// The net labels of the schematic that name a net of the board, by id.
pub fn collect_net_labels(labels: &Vec<YamlEntry>, nets: &Vec<YamlEntry>) -> (r: Vec<SketchNetLabelPlacement>)
    ensures
        net_label_views(r@) == net_labels_of(entries_of(labels@), entries_of(nets@)),
{
    let order = id_order_positions(labels);
    let ghost ls = entries_at(labels@, order@);
    let ghost ne = entries_of(nets@);
    let mut r: Vec<SketchNetLabelPlacement> = Vec::new();
    let mut i: usize = 0;
    while i < order.len()
        invariant
            ls == entries_at(labels@, order@),
            ls == id_order(entries_of(labels@)),
            ne == entries_of(nets@),
            forall|k: int| 0 <= k < order@.len() ==> #[trigger] order@[k] < labels@.len() && labels@[order@[k] as int].key is Text,
            i <= order@.len(),
            net_label_views(r@) == net_label_summaries_of(ls.subrange(0, i as int), ne),
        decreases order@.len() - i,
    {
        assert(ls.subrange(0, i + 1).drop_last() =~= ls.subrange(0, i as int));
        assert(ls.subrange(0, i + 1).last() == ls[i as int]);
        let idx = order[i];
        assert(order@[i as int] < labels@.len());
        if let YamlNode::Text(id) = &labels[idx].key {
            let l = &labels[idx].value;
            assert(ls[i as int] == (id@, l@));
            if let Some(net) = node_text_field(l, "net") {
                if map_contains(nets, net.as_str()) {
                    let kind = match node_text_field(l, "kind") {
                        Some(k) => if text_eq(k.as_str(), "off_page") {
                            SketchNetLabelKind::OffPage
                        } else {
                            SketchNetLabelKind::Local
                        },
                        None => SketchNetLabelKind::Local,
                    };
                    proof {
                        reveal_strlit("off_page");
                    }
                    assert(kind == label_kind_of(l@));
                    let ghost before = r@;
                    let p = SketchNetLabelPlacement {
                        id: str_to_string(id.as_str()),
                        net_id: str_to_string(net.as_str()),
                        kind,
                        position: point_at(l),
                    };
                    r.push(p);
                    assert(net_label_views(r@) =~= net_label_views(before).push(net_label_view(p)));
                }
            }
        }
        i = i + 1;
    }
    assert(ls.subrange(0, order@.len() as int) =~= ls);
    r
}

/// The component label placements of the schematic for components of the board, by id.
pub fn collect_component_labels(labels: &Vec<YamlEntry>, comps: &Vec<YamlEntry>) -> (r: Vec<
    SketchComponentLabelPositions,
>)
    ensures
        component_label_views(r@) == component_labels_of(entries_of(labels@), entries_of(comps@)),
{
    let order = id_order_positions(labels);
    let ghost ls = entries_at(labels@, order@);
    let ghost ce = entries_of(comps@);
    let mut r: Vec<SketchComponentLabelPositions> = Vec::new();
    let mut i: usize = 0;
    while i < order.len()
        invariant
            ls == entries_at(labels@, order@),
            ls == id_order(entries_of(labels@)),
            ce == entries_of(comps@),
            forall|k: int| 0 <= k < order@.len() ==> #[trigger] order@[k] < labels@.len() && labels@[order@[k] as int].key is Text,
            i <= order@.len(),
            component_label_views(r@) == component_label_summaries_of(ls.subrange(0, i as int), ce),
        decreases order@.len() - i,
    {
        assert(ls.subrange(0, i + 1).drop_last() =~= ls.subrange(0, i as int));
        assert(ls.subrange(0, i + 1).last() == ls[i as int]);
        let idx = order[i];
        assert(order@[i as int] < labels@.len());
        if let YamlNode::Text(id) = &labels[idx].key {
            let l = &labels[idx].value;
            assert(ls[i as int] == (id@, l@));
            if map_contains(comps, id.as_str()) {
                let ghost before = r@;
                let p = SketchComponentLabelPositions {
                    component_id: str_to_string(id.as_str()),
                    reference: opt_point_at(node_field(l, "reference")),
                    value: opt_point_at(node_field(l, "value")),
                };
                r.push(p);
                assert(component_label_views(r@) =~= component_label_views(before).push(
                    component_label_view(p),
                ));
            }
        }
        i = i + 1;
    }
    assert(ls.subrange(0, order@.len() as int) =~= ls);
    r
}

/// A value that is not a list does not view as one.
proof fn lemma_list_view_not(v: YamlNode)
    requires
        !(v is List),
    ensures
        !(v@ is List),
{
}

/// The points among the items of a route's `points` list.
fn collect_points(items: &Vec<YamlNode>) -> (r: Vec<(String, String)>)
    ensures
        points_view(r@) == points_of(list_of(items@)),
{
    let ghost s = list_of(items@);
    let mut r: Vec<(String, String)> = Vec::new();
    let mut i: usize = 0;
    while i < items.len()
        invariant
            s == list_of(items@),
            i <= items@.len(),
            points_view(r@) == points_of(s.subrange(0, i as int)),
        decreases items@.len() - i,
    {
        assert(s.subrange(0, i + 1).drop_last() =~= s.subrange(0, i as int));
        assert(s.subrange(0, i + 1).last() == items@[i as int]@);
        match point_at(&items[i]) {
            Some(p) => {
                let ghost before = r@;
                r.push(p);
                assert(points_view(r@) =~= points_view(before).push(point_view(p)));
            },
            None => {},
        }
        i = i + 1;
    }
    assert(s.subrange(0, items@.len() as int) =~= s);
    r
}

/// The wire routes of the schematic, by key, each with its points.
pub fn collect_wire_routes(routes: &Vec<YamlEntry>) -> (r: Vec<SketchWireRoute>)
    ensures
        wire_route_views(r@) == wire_routes_of(entries_of(routes@)),
{
    let order = id_order_positions(routes);
    let ghost rs = entries_at(routes@, order@);
    let mut r: Vec<SketchWireRoute> = Vec::new();
    let mut i: usize = 0;
    while i < order.len()
        invariant
            rs == entries_at(routes@, order@),
            rs == id_order(entries_of(routes@)),
            forall|k: int| 0 <= k < order@.len() ==> #[trigger] order@[k] < routes@.len() && routes@[order@[k] as int].key is Text,
            i <= order@.len(),
            wire_route_views(r@) == wire_routes_of_entries(rs.subrange(0, i as int)),
        decreases order@.len() - i,
    {
        assert(rs.subrange(0, i + 1).drop_last() =~= rs.subrange(0, i as int));
        assert(rs.subrange(0, i + 1).last() == rs[i as int]);
        let idx = order[i];
        assert(order@[i as int] < routes@.len());
        if let YamlNode::Text(key) = &routes[idx].key {
            let v = &routes[idx].value;
            assert(rs[i as int] == (key@, v@));
            let points = match node_field(v, "points") {
                Some(YamlNode::List(items)) => {
                    proof {
                        lemma_list_view(*items);
                    }
                    collect_points(items)
                },
                other => {
                    proof {
                        if let Some(o) = other {
                            lemma_list_view_not(*o);
                        }
                    }
                    let e: Vec<(String, String)> = Vec::new();
                    assert(points_view(e@) =~= Seq::<(Seq<char>, Seq<char>)>::empty());
                    e
                },
            };
            assert(points_view(points@) == points_of(list_field(v@, "points"@)));
            let ghost before = r@;
            let w = SketchWireRoute { key: str_to_string(key.as_str()), points };
            r.push(w);
            assert(wire_route_views(r@) =~= wire_route_views(before).push((w.key@, points_view(w.points@))));
        }
        i = i + 1;
    }
    assert(rs.subrange(0, order@.len() as int) =~= rs);
    r
}

/// The strings of a list, in order.
pub fn collect_texts(items: &Vec<YamlNode>) -> (r: Vec<String>)
    ensures
        r@.map_values(|s: String| s@) == texts_of(list_of(items@)),
{
    let ghost s = list_of(items@);
    let mut r: Vec<String> = Vec::new();
    let mut i: usize = 0;
    while i < items.len()
        invariant
            s == list_of(items@),
            i <= items@.len(),
            r@.map_values(|t: String| t@) == texts_of(s.subrange(0, i as int)),
        decreases items@.len() - i,
    {
        assert(s.subrange(0, i + 1).drop_last() =~= s.subrange(0, i as int));
        assert(s.subrange(0, i + 1).last() == items@[i as int]@);
        match &items[i] {
            YamlNode::Text(t) => {
                let ghost before = r@;
                r.push(str_to_string(t.as_str()));
                assert(r@.map_values(|t: String| t@) =~= before.map_values(|t: String| t@).push(t@));
            },
            other => {
                proof {
                    crate::board::lemma_text_view(*other);
                }
            },
        }
        i = i + 1;
    }
    assert(s.subrange(0, items@.len() as int) =~= s);
    r
}

} // verus!
