//! Where the schematic draws things: the positions of component and net nodes, and the
//! points of the wires drawn from a pin to its net. Coordinates are written as the numbers
//! the caller formatted.
use vstd::prelude::*;
use crate::board::{
    EditErr, EditError, ItemKind, IdRole, Section, board_child, board_of, board_table_has, close_board,
    close_child, component_pin_net, encode_project, ensured_child, graph_id, open_board, open_child,
    outcome, parse_project, parse_wire_source, pin_net_spec, single, text_edit, text_outcome,
    validated_graph_id, wire_route_key, wire_route_key_spec, wire_source_spec, with_board,
};
use crate::doc::{
    Yaml, YamlEntry, YamlNode, entries_of, has_key, lemma_list_view, lemma_map_view, list_of,
    map_insert, map_put,
};
use crate::selection::{SketchSelection, node_key, schematic_node_key, sel_view};
use crate::text::{str_to_string, text_eq, trim};

verus! {

// ---------------------------------------------------------------------------------------
// Coordinates
// ---------------------------------------------------------------------------------------

/// A coordinate as written is finite: not the YAML forms of NaN and of the infinities.
pub open spec fn finite_text(t: Seq<char>) -> bool {
    t != ".nan"@ && t != ".inf"@ && t != "-.inf"@
}

/// Both coordinates of every point are finite.
pub open spec fn points_finite(ps: Seq<(Seq<char>, Seq<char>)>) -> bool {
    forall|i: int| 0 <= i < ps.len() ==> finite_text(#[trigger] ps[i].0) && finite_text(ps[i].1)
}

/// Whether a written coordinate is finite.
pub fn coordinate_is_finite(t: &str) -> (r: bool)
    ensures
        r == finite_text(t@),
{
    !text_eq(t, ".nan") && !text_eq(t, ".inf") && !text_eq(t, "-.inf")
}

/// Whether both coordinates of every point are finite.
fn all_points_finite(points: &Vec<(String, String)>) -> (r: bool)
    ensures
        r == points_finite(points@.map_values(|p: (String, String)| (p.0@, p.1@))),
{
    let ghost pv = points@.map_values(|p: (String, String)| (p.0@, p.1@));
    let mut i: usize = 0;
    while i < points.len()
        invariant
            i <= points@.len(),
            pv == points@.map_values(|p: (String, String)| (p.0@, p.1@)),
            forall|k: int| 0 <= k < i ==> finite_text(#[trigger] pv[k].0) && finite_text(pv[k].1),
        decreases points@.len() - i,
    {
        assert(pv[i as int] == (points@[i as int].0@, points@[i as int].1@));
        let fx = coordinate_is_finite(points[i].0.as_str());
        let fy = coordinate_is_finite(points[i].1.as_str());
        assert(fx == finite_text(pv[i as int].0) && fy == finite_text(pv[i as int].1));
        if !fx || !fy {
            assert(!(finite_text(pv[i as int].0) && finite_text(pv[i as int].1)));
            return false;
        }
        assert forall|k: int| 0 <= k < i + 1 implies finite_text(#[trigger] pv[k].0) && finite_text(pv[k].1) by {
            if k == i {
                assert(fx && fy);
            }
        }
        i = i + 1;
    }
    true
}

// ---------------------------------------------------------------------------------------
// Node positions
// ---------------------------------------------------------------------------------------

/// A position as the project stores it: `x` and `y`, as written numbers.
pub open spec fn position_mapping(x: Seq<char>, y: Seq<char>) -> Seq<(Yaml, Yaml)> {
    map_insert(single("x"@, Yaml::Number(x)), "y"@, Yaml::Number(y))
}

fn position_node(x: &String, y: &String) -> (r: YamlNode)
    ensures
        r@ == Yaml::Mapping(position_mapping(x@, y@)),
{
    let mut m: Vec<YamlEntry> = Vec::new();
    assert(entries_of(m@) =~= Seq::<(Yaml, Yaml)>::empty());
    map_put(&mut m, "x", YamlNode::Number(str_to_string(x.as_str())));
    map_put(&mut m, "y", YamlNode::Number(str_to_string(y.as_str())));
    proof {
        lemma_map_view(m);
    }
    YamlNode::Mapping(m)
}

/// The mathematical form of a batch of node positions: node, `x` and `y`.
pub open spec fn position_views(ps: Seq<(SketchSelection, String, String)>) -> Seq<
    ((int, Seq<char>), Seq<char>, Seq<char>),
> {
    ps.map_values(|p: (SketchSelection, String, String)| (sel_view(p.0), p.1@, p.2@))
}

/// Both coordinates of every position of the batch are finite.
pub open spec fn positions_finite(ps: Seq<((int, Seq<char>), Seq<char>, Seq<char>)>) -> bool {
    forall|i: int| 0 <= i < ps.len() ==> finite_text(#[trigger] ps[i].1) && finite_text(ps[i].2)
}

fn all_positions_finite(positions: &Vec<(SketchSelection, String, String)>) -> (r: bool)
    ensures
        r == positions_finite(position_views(positions@)),
{
    let ghost pv = position_views(positions@);
    let mut i: usize = 0;
    while i < positions.len()
        invariant
            i <= positions@.len(),
            pv == position_views(positions@),
            forall|k: int| 0 <= k < i ==> finite_text(#[trigger] pv[k].1) && finite_text(pv[k].2),
        decreases positions@.len() - i,
    {
        assert(pv[i as int].1 == positions@[i as int].1@ && pv[i as int].2 == positions@[i as int].2@);
        let fx = coordinate_is_finite(positions[i].1.as_str());
        let fy = coordinate_is_finite(positions[i].2.as_str());
        assert(fx == finite_text(pv[i as int].1) && fy == finite_text(pv[i as int].2));
        if !fx || !fy {
            assert(!(finite_text(pv[i as int].1) && finite_text(pv[i as int].2)));
            return false;
        }
        assert forall|k: int| 0 <= k < i + 1 implies finite_text(#[trigger] pv[k].1) && finite_text(pv[k].2) by {
            if k == i {
                assert(fx && fy);
            }
        }
        i = i + 1;
    }
    true
}

/// Every node of the batch is a component or a net.
pub open spec fn positionable(ps: Seq<((int, Seq<char>), Seq<char>, Seq<char>)>) -> bool {
    forall|i: int| 0 <= i < ps.len() ==> #[trigger] node_key(ps[i].0) is Some
}

/// The node positions mapping with the batch written in order, each under its node's
/// schematic key.
pub open spec fn positions_written(
    np: Seq<(Yaml, Yaml)>,
    ps: Seq<((int, Seq<char>), Seq<char>, Seq<char>)>,
) -> Seq<(Yaml, Yaml)>
    decreases ps.len(),
{
    if ps.len() == 0 {
        np
    } else {
        map_insert(
            positions_written(np, ps.drop_last()),
            node_key(ps.last().0)->0,
            Yaml::Mapping(position_mapping(ps.last().1, ps.last().2)),
        )
    }
}

/// Writing node positions into `board.schematic.node_positions`, creating the sections
/// that are missing.
pub open spec fn edit_node_positions_spec(doc: Yaml, ps: Seq<((int, Seq<char>), Seq<char>, Seq<char>)>) -> Result<
    Yaml,
    EditErr,
> {
    match board_of(doc) {
        Err(e) => Err(e),
        Ok(b) => match ensured_child(b, "schematic"@, Section::BoardSchematic) {
            Err(e) => Err(e),
            Ok(sch) => match ensured_child(sch, "node_positions"@, Section::SchematicNodePositions) {
                Err(e) => Err(e),
                Ok(np) => Ok(
                    with_board(
                        doc,
                        map_insert(
                            b,
                            "schematic"@,
                            Yaml::Mapping(
                                map_insert(sch, "node_positions"@, Yaml::Mapping(positions_written(np, ps))),
                            ),
                        ),
                    ),
                ),
            },
        },
    }
}

/// Writes the positions of component and net nodes.
pub fn edit_node_positions_doc(doc: YamlNode, positions: &Vec<(SketchSelection, String, String)>) -> (r:
    Result<YamlNode, EditError>)
    requires
        positionable(position_views(positions@)),
    ensures
        outcome(r) == edit_node_positions_spec(doc@, position_views(positions@)),
{
    let ghost pv = position_views(positions@);
    let mut ob = match open_board(doc) {
        Ok(ob) => ob,
        Err(e) => return Err(e),
    };
    let (si, mut sch) = match open_child(&mut ob.board, "schematic", true) {
        Ok(x) => x,
        Err(_) => return Err(EditError::SectionNotObject(Section::BoardSchematic)),
    };
    let (ni, mut np) = match open_child(&mut sch, "node_positions", true) {
        Ok(x) => x,
        Err(_) => return Err(EditError::SectionNotObject(Section::SchematicNodePositions)),
    };
    let ghost np0 = entries_of(np@);
    let mut w: usize = 0;
    while w < positions.len()
        invariant
            w <= positions@.len(),
            pv == position_views(positions@),
            positionable(pv),
            entries_of(np@) == positions_written(np0, pv.subrange(0, w as int)),
        decreases positions@.len() - w,
    {
        assert(pv.subrange(0, w + 1).drop_last() =~= pv.subrange(0, w as int));
        assert(pv.subrange(0, w + 1).last() == pv[w as int]);
        assert(node_key(pv[w as int].0) is Some);
        let key = match schematic_node_key(&positions[w].0) {
            Some(k) => k,
            None => return Err(EditError::NodeNotPositionable),
        };
        let node = position_node(&positions[w].1, &positions[w].2);
        map_put(&mut np, key.as_str(), node);
        w = w + 1;
    }
    assert(pv.subrange(0, positions@.len() as int) =~= pv);
    close_child(&mut sch, ni, np);
    close_child(&mut ob.board, si, sch);
    Ok(close_board(ob))
}

fn all_positionable(positions: &Vec<(SketchSelection, String, String)>) -> (r: bool)
    ensures
        r == positionable(position_views(positions@)),
{
    let ghost pv = position_views(positions@);
    let mut i: usize = 0;
    while i < positions.len()
        invariant
            i <= positions@.len(),
            pv == position_views(positions@),
            forall|k: int| 0 <= k < i ==> #[trigger] node_key(pv[k].0) is Some,
        decreases positions@.len() - i,
    {
        if let SketchSelection::Overflow(_) = &positions[i].0 {
            assert(node_key(pv[i as int].0) is None);
            return false;
        }
        assert(node_key(pv[i as int].0) is Some);
        i = i + 1;
    }
    true
}

/// Moves component and net nodes of the schematic to the positions given (coordinates as
/// written numbers); at least one is needed, every coordinate must be finite, and overflow
/// markers cannot be placed.
pub fn edit_schematic_node_positions(text: &str, positions: &Vec<(SketchSelection, String, String)>) -> (r:
    Result<String, EditError>)
    ensures
        text_outcome(r) == (if positions@.len() == 0 {
            Err(EditErr::NoNodePositions)
        } else if !positions_finite(position_views(positions@)) {
            Err(EditErr::NonFinitePosition)
        } else if !positionable(position_views(positions@)) {
            Err(EditErr::NodeNotPositionable)
        } else {
            text_edit(text@, false, |d: Yaml| edit_node_positions_spec(d, position_views(positions@)))
        }),
{
    if positions.len() == 0 {
        return Err(EditError::NoNodePositions);
    }
    if !all_positions_finite(positions) {
        return Err(EditError::NonFinitePosition);
    }
    if !all_positionable(positions) {
        return Err(EditError::NodeNotPositionable);
    }
    let d = match parse_project(text, false) {
        Ok(d) => d,
        Err(e) => return Err(e),
    };
    encode_project(edit_node_positions_doc(d, positions))
}

/// Moves one schematic node.
pub fn edit_schematic_node_position(text: &str, selection: SketchSelection, x: String, y: String) -> (r:
    Result<String, EditError>)
    ensures
        text_outcome(r) == (if !(finite_text(x@) && finite_text(y@)) {
            Err(EditErr::NonFinitePosition)
        } else if node_key(sel_view(selection)) is None {
            Err(EditErr::NodeNotPositionable)
        } else {
            text_edit(text@, false, |d: Yaml| edit_node_positions_spec(d, seq![(sel_view(selection), x@, y@)]))
        }),
{
    let ghost v = seq![(sel_view(selection), x@, y@)];
    let mut batch: Vec<(SketchSelection, String, String)> = Vec::new();
    batch.push((selection, x, y));
    assert(position_views(batch@) =~= v);
    proof {
        if node_key(sel_view(selection)) is Some {
            assert forall|i: int| 0 <= i < v.len() implies #[trigger] node_key(v[i].0) is Some by {
                assert(i == 0);
            }
        } else {
            assert(node_key(v[0].0) is None);
        }
        if finite_text(x@) && finite_text(y@) {
            assert forall|i: int| 0 <= i < v.len() implies finite_text(#[trigger] v[i].1) && finite_text(v[i].2) by {
                assert(i == 0);
            }
        } else {
            assert(!(finite_text(v[0].1) && finite_text(v[0].2)));
        }
    }
    edit_schematic_node_positions(text, &batch)
}

// ---------------------------------------------------------------------------------------
// Wire routes
// ---------------------------------------------------------------------------------------

/// The mathematical form of a wire route: its source pin, its net and its points.
pub open spec fn route_view(r: (String, String, Vec<(String, String)>)) -> (
    Seq<char>,
    Seq<char>,
    Seq<(Seq<char>, Seq<char>)>,
) {
    (r.0@, r.1@, r.2@.map_values(|p: (String, String)| (p.0@, p.1@)))
}

pub open spec fn route_views(routes: Seq<(String, String, Vec<(String, String)>)>) -> Seq<
    (Seq<char>, Seq<char>, Seq<(Seq<char>, Seq<char>)>),
> {
    routes.map_values(|r: (String, String, Vec<(String, String)>)| route_view(r))
}

/// A route checked against the board: its source is `component.pin`, its net a graph id
/// on the board, it has a point, its points are finite, and the pin is connected to that
/// net. The result is the
/// net's id.
pub open spec fn route_net(doc: Yaml, route: (Seq<char>, Seq<char>, Seq<(Seq<char>, Seq<char>)>)) -> Result<
    Seq<char>,
    EditErr,
> {
    match wire_source_spec(route.0) {
        Err(e) => Err(e),
        Ok((c, p)) => match graph_id(route.1, IdRole::Net) {
            Err(e) => Err(e),
            Ok(n) => if route.2.len() == 0 {
                Err(EditErr::NoRoutePoints)
            } else if !points_finite(route.2) {
                Err(EditErr::NonFiniteRoutePoint)
            } else {
                match board_child(doc, "nets"@) {
                    Err(e) => Err(e),
                    Ok(nets) => if !has_key(nets, n) {
                        Err(EditErr::ItemNotFound(ItemKind::Net, n))
                    } else {
                        match pin_net_spec(doc, c, p) {
                            Err(e) => Err(e),
                            Ok(None) => Err(EditErr::PinNotConnected(route.0)),
                            Ok(Some(pn)) => if pn != n {
                                Err(EditErr::PinOnOtherNet(route.0, pn, n))
                            } else {
                                Ok(n)
                            },
                        }
                    },
                }
            },
        },
    }
}

/// The nets of a batch of routes, in order; the first route that fails fails the batch.
pub open spec fn route_nets(
    doc: Yaml,
    routes: Seq<(Seq<char>, Seq<char>, Seq<(Seq<char>, Seq<char>)>)>,
) -> Result<Seq<Seq<char>>, EditErr>
    decreases routes.len(),
{
    if routes.len() == 0 {
        Ok(Seq::empty())
    } else {
        match route_nets(doc, routes.drop_last()) {
            Err(e) => Err(e),
            Ok(nets) => match route_net(doc, routes.last()) {
                Err(e) => Err(e),
                Ok(n) => Ok(nets.push(n)),
            },
        }
    }
}

/// A route as the project stores it: its points, each with `x` and `y`.
pub open spec fn route_mapping(points: Seq<(Seq<char>, Seq<char>)>) -> Seq<(Yaml, Yaml)> {
    single(
        "points"@,
        Yaml::List(points.map_values(|p: (Seq<char>, Seq<char>)| Yaml::Mapping(position_mapping(p.0, p.1)))),
    )
}

/// The wire routes mapping with the batch written in order, each under `source->net`.
pub open spec fn routes_written(
    wr: Seq<(Yaml, Yaml)>,
    routes: Seq<(Seq<char>, Seq<char>, Seq<(Seq<char>, Seq<char>)>)>,
    nets: Seq<Seq<char>>,
) -> Seq<(Yaml, Yaml)>
    decreases routes.len(),
{
    if routes.len() == 0 || nets.len() != routes.len() {
        wr
    } else {
        map_insert(
            routes_written(wr, routes.drop_last(), nets.drop_last()),
            wire_route_key_spec(routes.last().0, nets.last()),
            Yaml::Mapping(route_mapping(routes.last().2)),
        )
    }
}

/// Writing wire routes into `board.schematic.wire_routes`, creating the sections that are
/// missing, once every route has been checked.
pub open spec fn edit_wire_routes_spec(
    doc: Yaml,
    routes: Seq<(Seq<char>, Seq<char>, Seq<(Seq<char>, Seq<char>)>)>,
) -> Result<Yaml, EditErr> {
    match route_nets(doc, routes) {
        Err(e) => Err(e),
        Ok(nets) => match board_of(doc) {
            Err(e) => Err(e),
            Ok(b) => match ensured_child(b, "schematic"@, Section::BoardSchematic) {
                Err(e) => Err(e),
                Ok(sch) => match ensured_child(sch, "wire_routes"@, Section::SchematicWireRoutes) {
                    Err(e) => Err(e),
                    Ok(wr) => Ok(
                        with_board(
                            doc,
                            map_insert(
                                b,
                                "schematic"@,
                                Yaml::Mapping(
                                    map_insert(sch, "wire_routes"@, Yaml::Mapping(routes_written(wr, routes, nets))),
                                ),
                            ),
                        ),
                    ),
                },
            },
        },
    }
}

fn route_net_of(doc: &YamlNode, route: &(String, String, Vec<(String, String)>)) -> (r: Result<String, EditError>)
    ensures
        match r {
            Ok(n) => route_net(doc@, route_view(*route)) == Ok::<Seq<char>, EditErr>(n@),
            Err(e) => route_net(doc@, route_view(*route)) == Err::<Seq<char>, EditErr>(e@),
        },
{
    let (c, p) = match parse_wire_source(route.0.as_str()) {
        Ok(x) => x,
        Err(e) => return Err(e),
    };
    let n = match validated_graph_id(route.1.as_str(), IdRole::Net) {
        Ok(x) => x,
        Err(e) => return Err(e),
    };
    if route.2.len() == 0 {
        return Err(EditError::NoRoutePoints);
    }
    if !all_points_finite(&route.2) {
        return Err(EditError::NonFiniteRoutePoint);
    }
    match board_table_has(doc, "nets", n.as_str()) {
        Err(e) => return Err(e),
        Ok(false) => return Err(EditError::ItemNotFound(ItemKind::Net, n)),
        Ok(true) => {},
    }
    match component_pin_net(doc, c.as_str(), p.as_str()) {
        Err(e) => Err(e),
        Ok(None) => Err(EditError::PinNotConnected(str_to_string(route.0.as_str()))),
        Ok(Some(pn)) => if !text_eq(pn.as_str(), n.as_str()) {
            Err(EditError::PinOnOtherNet(str_to_string(route.0.as_str()), pn, n))
        } else {
            Ok(n)
        },
    }
}

/// A failure on a prefix of a route batch is the failure of the whole batch.
proof fn lemma_route_nets_prefix_err(
    doc: Yaml,
    routes: Seq<(Seq<char>, Seq<char>, Seq<(Seq<char>, Seq<char>)>)>,
    i: int,
)
    requires
        0 <= i <= routes.len(),
        route_nets(doc, routes.subrange(0, i)) is Err,
    ensures
        route_nets(doc, routes) == route_nets(doc, routes.subrange(0, i)),
    decreases routes.len() - i,
{
    if i < routes.len() {
        assert(routes.subrange(0, i + 1).drop_last() =~= routes.subrange(0, i));
        lemma_route_nets_prefix_err(doc, routes, i + 1);
    } else {
        assert(routes.subrange(0, i) =~= routes);
    }
}

fn checked_route_nets(doc: &YamlNode, routes: &Vec<(String, String, Vec<(String, String)>)>) -> (r: Result<
    Vec<String>,
    EditError,
>)
    ensures
        match r {
            Ok(nets) => route_nets(doc@, route_views(routes@)) == Ok::<Seq<Seq<char>>, EditErr>(
                nets@.map_values(|s: String| s@),
            ) && nets@.len() == routes@.len(),
            Err(e) => route_nets(doc@, route_views(routes@)) == Err::<Seq<Seq<char>>, EditErr>(e@),
        },
{
    let ghost rv = route_views(routes@);
    let mut nets: Vec<String> = Vec::new();
    assert(nets@.map_values(|s: String| s@) =~= Seq::<Seq<char>>::empty());
    assert(rv.subrange(0, 0) =~= Seq::<(Seq<char>, Seq<char>, Seq<(Seq<char>, Seq<char>)>)>::empty());
    let mut i: usize = 0;
    while i < routes.len()
        invariant
            i <= routes@.len(),
            rv == route_views(routes@),
            nets@.len() == i,
            route_nets(doc@, rv.subrange(0, i as int)) == Ok::<Seq<Seq<char>>, EditErr>(
                nets@.map_values(|s: String| s@),
            ),
        decreases routes@.len() - i,
    {
        assert(rv.subrange(0, i + 1).drop_last() =~= rv.subrange(0, i as int));
        assert(rv.subrange(0, i + 1).last() == rv[i as int]);
        assert(rv[i as int] == route_view(routes@[i as int]));
        let n = match route_net_of(doc, &routes[i]) {
            Ok(n) => n,
            Err(e) => {
                proof {
                    lemma_route_nets_prefix_err(doc@, rv, i + 1);
                }
                return Err(e);
            },
        };
        let ghost before = nets@;
        nets.push(n);
        assert(nets@.map_values(|s: String| s@) =~= before.map_values(|s: String| s@).push(n@));
        i = i + 1;
    }
    assert(rv.subrange(0, routes@.len() as int) =~= rv);
    Ok(nets)
}

fn route_node(points: &Vec<(String, String)>) -> (r: YamlNode)
    ensures
        r@ == Yaml::Mapping(route_mapping(points@.map_values(|p: (String, String)| (p.0@, p.1@)))),
{
    let ghost pv = points@.map_values(|p: (String, String)| (p.0@, p.1@));
    let ghost target = pv.map_values(|p: (Seq<char>, Seq<char>)| Yaml::Mapping(position_mapping(p.0, p.1)));
    let mut items: Vec<YamlNode> = Vec::new();
    let mut i: usize = 0;
    while i < points.len()
        invariant
            i <= points@.len(),
            pv == points@.map_values(|p: (String, String)| (p.0@, p.1@)),
            target == pv.map_values(|p: (Seq<char>, Seq<char>)| Yaml::Mapping(position_mapping(p.0, p.1))),
            list_of(items@) == target.subrange(0, i as int),
        decreases points@.len() - i,
    {
        let node = position_node(&points[i].0, &points[i].1);
        let ghost before = items@;
        items.push(node);
        assert(list_of(items@) =~= list_of(before).push(node@));
        assert(target[i as int] == node@);
        assert(list_of(items@) =~= target.subrange(0, i + 1));
        i = i + 1;
    }
    assert(target.subrange(0, points@.len() as int) =~= target);
    proof {
        lemma_list_view(items);
    }
    let list = YamlNode::List(items);
    let mut m: Vec<YamlEntry> = Vec::new();
    assert(entries_of(m@) =~= Seq::<(Yaml, Yaml)>::empty());
    map_put(&mut m, "points", list);
    proof {
        lemma_map_view(m);
    }
    YamlNode::Mapping(m)
}

/// Writes checked wire routes.
pub fn edit_wire_routes_doc(doc: YamlNode, routes: &Vec<(String, String, Vec<(String, String)>)>) -> (r: Result<
    YamlNode,
    EditError,
>)
    ensures
        outcome(r) == edit_wire_routes_spec(doc@, route_views(routes@)),
{
    let ghost rv = route_views(routes@);
    let nets = match checked_route_nets(&doc, routes) {
        Ok(n) => n,
        Err(e) => return Err(e),
    };
    let ghost nv = nets@.map_values(|s: String| s@);
    let mut ob = match open_board(doc) {
        Ok(ob) => ob,
        Err(e) => return Err(e),
    };
    let (si, mut sch) = match open_child(&mut ob.board, "schematic", true) {
        Ok(x) => x,
        Err(_) => return Err(EditError::SectionNotObject(Section::BoardSchematic)),
    };
    let (wi, mut wr) = match open_child(&mut sch, "wire_routes", true) {
        Ok(x) => x,
        Err(_) => return Err(EditError::SectionNotObject(Section::SchematicWireRoutes)),
    };
    let ghost wr0 = entries_of(wr@);
    let mut w: usize = 0;
    while w < routes.len()
        invariant
            w <= routes@.len(),
            rv == route_views(routes@),
            nv == nets@.map_values(|s: String| s@),
            nets@.len() == routes@.len(),
            entries_of(wr@) == routes_written(wr0, rv.subrange(0, w as int), nv.subrange(0, w as int)),
        decreases routes@.len() - w,
    {
        assert(rv.subrange(0, w + 1).drop_last() =~= rv.subrange(0, w as int));
        assert(nv.subrange(0, w + 1).drop_last() =~= nv.subrange(0, w as int));
        assert(rv[w as int] == route_view(routes@[w as int]));
        let key = wire_route_key(routes[w].0.as_str(), nets[w].as_str());
        let node = route_node(&routes[w].2);
        map_put(&mut wr, key.as_str(), node);
        w = w + 1;
    }
    assert(rv.subrange(0, routes@.len() as int) =~= rv);
    assert(nv.subrange(0, routes@.len() as int) =~= nv);
    close_child(&mut sch, wi, wr);
    close_child(&mut ob.board, si, sch);
    Ok(close_board(ob))
}

/// Draws wires from pins to their nets through the points given (coordinates as written
/// numbers); no routes leaves the text as it is.
pub fn edit_schematic_wire_routes(text: &str, routes: &Vec<(String, String, Vec<(String, String)>)>) -> (r:
    Result<String, EditError>)
    ensures
        text_outcome(r) == (if routes@.len() == 0 {
            Ok(text@)
        } else {
            text_edit(text@, true, |d: Yaml| edit_wire_routes_spec(d, route_views(routes@)))
        }),
{
    if routes.len() == 0 {
        return Ok(str_to_string(text));
    }
    let d = match parse_project(text, true) {
        Ok(d) => d,
        Err(e) => return Err(e),
    };
    encode_project(edit_wire_routes_doc(d, routes))
}

/// Draws one wire from a pin to its net.
pub fn edit_schematic_wire_route(text: &str, source: String, net_id: String, points: Vec<(String, String)>) -> (r:
    Result<String, EditError>)
    ensures
        text_outcome(r) == text_edit(
            text@,
            true,
            |d: Yaml|
                edit_wire_routes_spec(
                    d,
                    seq![(source@, net_id@, points@.map_values(|p: (String, String)| (p.0@, p.1@)))],
                ),
        ),
{
    let ghost v = seq![(source@, net_id@, points@.map_values(|p: (String, String)| (p.0@, p.1@)))];
    let mut batch: Vec<(String, String, Vec<(String, String)>)> = Vec::new();
    batch.push((source, net_id, points));
    assert(route_views(batch@) =~= v);
    edit_schematic_wire_routes(text, &batch)
}

// ---------------------------------------------------------------------------------------
// Reading back what was written
// ---------------------------------------------------------------------------------------

/// The board's schematic section, when it is a mapping.
pub open spec fn schematic_of(doc: Yaml) -> Option<Seq<(Yaml, Yaml)>> {
    match board_of(doc) {
        Ok(b) => match crate::doc::map_get(b, "schematic"@) {
            Some(Yaml::Mapping(sch)) => Some(sch),
            _ => None,
        },
        Err(_) => None,
    }
}

/// The mapping under `field` of the board's schematic.
pub open spec fn schematic_table(doc: Yaml, field: Seq<char>) -> Option<Seq<(Yaml, Yaml)>> {
    match schematic_of(doc) {
        Some(sch) => match crate::doc::map_get(sch, field) {
            Some(Yaml::Mapping(t)) => Some(t),
            _ => None,
        },
        None => None,
    }
}

/// After a node is moved, the schematic stores the position written for it.
pub proof fn law_node_position_reads_back(doc: Yaml, node: (int, Seq<char>), x: Seq<char>, y: Seq<char>)
    requires
        node_key(node) is Some,
        edit_node_positions_spec(doc, seq![(node, x, y)]) is Ok,
    ensures
        ({
            let d2 = edit_node_positions_spec(doc, seq![(node, x, y)])->Ok_0;
            &&& schematic_table(d2, "node_positions"@) is Some
            &&& crate::doc::map_get(schematic_table(d2, "node_positions"@)->0, node_key(node)->0) == Some(
                Yaml::Mapping(position_mapping(x, y)),
            )
        }),
{
    let ps = seq![(node, x, y)];
    let b = board_of(doc)->Ok_0;
    let sch = ensured_child(b, "schematic"@, Section::BoardSchematic)->Ok_0;
    let np = ensured_child(sch, "node_positions"@, Section::SchematicNodePositions)->Ok_0;
    assert(ps.drop_last() =~= Seq::<((int, Seq<char>), Seq<char>, Seq<char>)>::empty());
    assert(positions_written(np, ps.drop_last()) == np);
    assert(ps.last() == (node, x, y));
    let np2 = positions_written(np, ps);
    assert(np2 == map_insert(np, node_key(node)->0, Yaml::Mapping(position_mapping(x, y))));
    let sch2 = map_insert(sch, "node_positions"@, Yaml::Mapping(np2));
    let b2 = map_insert(b, "schematic"@, Yaml::Mapping(sch2));
    let p = doc->Mapping_0;
    crate::doc::lemma_get_insert(p, "board"@, Yaml::Mapping(b2));
    crate::doc::lemma_get_insert(b, "schematic"@, Yaml::Mapping(sch2));
    crate::doc::lemma_get_insert(sch, "node_positions"@, Yaml::Mapping(np2));
    crate::doc::lemma_get_insert(np, node_key(node)->0, Yaml::Mapping(position_mapping(x, y)));
}

/// After a wire is drawn, the schematic stores its points under `source->net`, the net id
/// trimmed.
pub proof fn law_wire_route_reads_back(
    doc: Yaml,
    source: Seq<char>,
    net: Seq<char>,
    points: Seq<(Seq<char>, Seq<char>)>,
)
    requires
        edit_wire_routes_spec(doc, seq![(source, net, points)]) is Ok,
    ensures
        ({
            let d2 = edit_wire_routes_spec(doc, seq![(source, net, points)])->Ok_0;
            &&& schematic_table(d2, "wire_routes"@) is Some
            &&& crate::doc::map_get(schematic_table(d2, "wire_routes"@)->0, wire_route_key_spec(source, trim(net)))
                == Some(Yaml::Mapping(route_mapping(points)))
        }),
{
    let rs = seq![(source, net, points)];
    assert(rs.drop_last() =~= Seq::<(Seq<char>, Seq<char>, Seq<(Seq<char>, Seq<char>)>)>::empty());
    assert(route_nets(doc, rs.drop_last()) == Ok::<Seq<Seq<char>>, EditErr>(Seq::empty()));
    assert(rs.last() == (source, net, points));
    assert(route_net(doc, rs.last()) is Ok);
    assert(graph_id(net, IdRole::Net) == Ok::<Seq<char>, EditErr>(trim(net)));
    assert(route_net(doc, rs.last()) == Ok::<Seq<char>, EditErr>(trim(net)));
    let nets = route_nets(doc, rs)->Ok_0;
    assert(nets =~= seq![trim(net)]);
    assert(nets.drop_last() =~= Seq::<Seq<char>>::empty());
    let b = board_of(doc)->Ok_0;
    let sch = ensured_child(b, "schematic"@, Section::BoardSchematic)->Ok_0;
    let wr = ensured_child(sch, "wire_routes"@, Section::SchematicWireRoutes)->Ok_0;
    let key = wire_route_key_spec(source, trim(net));
    assert(routes_written(wr, rs.drop_last(), nets.drop_last()) == wr);
    assert(nets.last() == trim(net));
    let wr2 = routes_written(wr, rs, nets);
    assert(wr2 == map_insert(wr, key, Yaml::Mapping(route_mapping(points))));
    let sch2 = map_insert(sch, "wire_routes"@, Yaml::Mapping(wr2));
    let b2 = map_insert(b, "schematic"@, Yaml::Mapping(sch2));
    let p = doc->Mapping_0;
    crate::doc::lemma_get_insert(p, "board"@, Yaml::Mapping(b2));
    crate::doc::lemma_get_insert(b, "schematic"@, Yaml::Mapping(sch2));
    crate::doc::lemma_get_insert(sch, "wire_routes"@, Yaml::Mapping(wr2));
    crate::doc::lemma_get_insert(wr, key, Yaml::Mapping(route_mapping(points)));
}

} // verus!
