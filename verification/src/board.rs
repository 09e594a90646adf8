//! Graph edits of the Board IR project document: components, pins, nets and the schematic
//! sections that the sketch canvas writes.
use vstd::prelude::*;
use crate::doc::{
    Yaml, YamlEntry, YamlNode, entries_of, empty_map, has_key, is_key_index, key_index,
    lemma_key_index, lemma_map_view, map_contains, map_delete, map_find, map_get, map_insert,
    map_put, map_remove, map_restore, map_set_or_delete, map_set_or_remove, map_take, text_node,
    lemma_text_keys_has_key, map_text_keys, text_keys,
};
use crate::naming::{decimal, decimal_string, first_free, first_free_name, names};
use crate::order::{entries_at, id_order, id_order_positions};
use crate::yaml_io::{emit_doc, emitted, parse_yaml, parsed_yaml};
use crate::text::{
    ascii_lower, ascii_lower_str, char_at, char_len, is_ascii_alnum, is_ascii_alnum_char,
    push_char, str_to_string, sub_str, text_eq, trim, trim_str,
};

verus! {

/// What kind of id an editor validates; it names the id in messages.
#[derive(Debug, Clone, Copy, PartialEq, Eq, Structural)]
pub enum IdRole {
    Component,
    Net,
    Pin,
    SourceComponent,
    SourcePin,
    TargetPin,
}

/// The kind of board item an editor looked up.
#[derive(Debug, Clone, Copy, PartialEq, Eq, Structural)]
pub enum ItemKind {
    Component,
    Net,
}

/// A nested section of the board that an editor creates or opens.
#[derive(Debug, Clone, Copy, PartialEq, Eq, Structural)]
pub enum Section {
    BoardSchematic,
    ComponentPins,
    SchematicNodeStyles,
    SchematicNodePositions,
    SchematicWireRoutes,
}

/// Why an edit of the project document was refused.
#[derive(Debug)]
pub enum EditError {
    BlankId(IdRole),
    UnsupportedId(IdRole, String),
    UnsupportedNetKind(String),
    BlankModel,
    ProjectNotObject,
    MissingBoard,
    BoardNotObject,
    MissingBoardField(String),
    BoardFieldNotObject(String),
    ItemNotFound(ItemKind, String),
    ItemNotObject(ItemKind, String),
    AlreadyExists(ItemKind, String),
    SectionNotObject(Section),
    MissingSection(Section),
    PinNotFound(String, String),
    SelfWire,
    NetStillReferenced(String, Vec<String>),
    WireSourceFormat(String),
    PinNotConnected(String),
    PinOnOtherNet(String, String, String),
    UnsupportedRotation,
    InvalidYaml,
    InvalidBoardIr,
    EncodeFailed,
    NoNodeBindings(String),
    NoGroundNet,
    NoNets,
    NoNodePositions,
    NodeNotPositionable,
    NoRoutePoints,
    NonFinitePosition,
    NonFiniteRoutePoint,
}

/// The mathematical form of an [`EditError`].
pub enum EditErr {
    BlankId(IdRole),
    UnsupportedId(IdRole, Seq<char>),
    UnsupportedNetKind(Seq<char>),
    BlankModel,
    ProjectNotObject,
    MissingBoard,
    BoardNotObject,
    MissingBoardField(Seq<char>),
    BoardFieldNotObject(Seq<char>),
    ItemNotFound(ItemKind, Seq<char>),
    ItemNotObject(ItemKind, Seq<char>),
    AlreadyExists(ItemKind, Seq<char>),
    SectionNotObject(Section),
    MissingSection(Section),
    PinNotFound(Seq<char>, Seq<char>),
    SelfWire,
    NetStillReferenced(Seq<char>, Seq<Seq<char>>),
    WireSourceFormat(Seq<char>),
    PinNotConnected(Seq<char>),
    PinOnOtherNet(Seq<char>, Seq<char>, Seq<char>),
    UnsupportedRotation,
    InvalidYaml,
    InvalidBoardIr,
    EncodeFailed,
    NoNodeBindings(Seq<char>),
    NoGroundNet,
    NoNets,
    NoNodePositions,
    NodeNotPositionable,
    NoRoutePoints,
    NonFinitePosition,
    NonFiniteRoutePoint,
}

impl View for EditError {
    type V = EditErr;

    open spec fn view(&self) -> EditErr {
        match self {
            EditError::BlankId(r) => EditErr::BlankId(*r),
            EditError::UnsupportedId(r, s) => EditErr::UnsupportedId(*r, s@),
            EditError::UnsupportedNetKind(s) => EditErr::UnsupportedNetKind(s@),
            EditError::BlankModel => EditErr::BlankModel,
            EditError::ProjectNotObject => EditErr::ProjectNotObject,
            EditError::MissingBoard => EditErr::MissingBoard,
            EditError::BoardNotObject => EditErr::BoardNotObject,
            EditError::MissingBoardField(s) => EditErr::MissingBoardField(s@),
            EditError::BoardFieldNotObject(s) => EditErr::BoardFieldNotObject(s@),
            EditError::ItemNotFound(k, s) => EditErr::ItemNotFound(*k, s@),
            EditError::ItemNotObject(k, s) => EditErr::ItemNotObject(*k, s@),
            EditError::AlreadyExists(k, s) => EditErr::AlreadyExists(*k, s@),
            EditError::SectionNotObject(s) => EditErr::SectionNotObject(*s),
            EditError::MissingSection(s) => EditErr::MissingSection(*s),
            EditError::PinNotFound(c, p) => EditErr::PinNotFound(c@, p@),
            EditError::SelfWire => EditErr::SelfWire,
            EditError::NetStillReferenced(n, refs) => EditErr::NetStillReferenced(
                n@,
                refs@.map_values(|s: String| s@),
            ),
            EditError::WireSourceFormat(s) => EditErr::WireSourceFormat(s@),
            EditError::PinNotConnected(s) => EditErr::PinNotConnected(s@),
            EditError::PinOnOtherNet(s, p, n) => EditErr::PinOnOtherNet(s@, p@, n@),
            EditError::UnsupportedRotation => EditErr::UnsupportedRotation,
            EditError::InvalidYaml => EditErr::InvalidYaml,
            EditError::InvalidBoardIr => EditErr::InvalidBoardIr,
            EditError::EncodeFailed => EditErr::EncodeFailed,
            EditError::NoNodeBindings(s) => EditErr::NoNodeBindings(s@),
            EditError::NoGroundNet => EditErr::NoGroundNet,
            EditError::NoNets => EditErr::NoNets,
            EditError::NoNodePositions => EditErr::NoNodePositions,
            EditError::NodeNotPositionable => EditErr::NodeNotPositionable,
            EditError::NoRoutePoints => EditErr::NoRoutePoints,
            EditError::NonFinitePosition => EditErr::NonFinitePosition,
            EditError::NonFiniteRoutePoint => EditErr::NonFiniteRoutePoint,
        }
    }
}

/// The mathematical form of an edit's outcome.
pub open spec fn outcome(r: Result<YamlNode, EditError>) -> Result<Yaml, EditErr> {
    match r {
        Ok(d) => Ok(d@),
        Err(e) => Err(e@),
    }
}

// ---------------------------------------------------------------------------------------
// Ids
// ---------------------------------------------------------------------------------------

pub open spec fn is_graph_id_char(c: char) -> bool {
    is_ascii_alnum(c) || c == '_' || c == '-' || c == '.'
}

/// The trimmed id when it is non-blank and made of ASCII letters, digits, `_`, `-` and `.`.
pub open spec fn graph_id(id: Seq<char>, role: IdRole) -> Result<Seq<char>, EditErr> {
    let t = trim(id);
    if t.len() == 0 {
        Err(EditErr::BlankId(role))
    } else if !(forall|i: int| 0 <= i < t.len() ==> is_graph_id_char(#[trigger] t[i])) {
        Err(EditErr::UnsupportedId(role, t))
    } else {
        Ok(t)
    }
}

pub fn is_graph_id_character(c: char) -> (r: bool)
    ensures
        r == is_graph_id_char(c),
{
    is_ascii_alnum_char(c) || c == '_' || c == '-' || c == '.'
}

/// Checks an id that the graph editor writes into the document.
pub fn validated_graph_id(id: &str, role: IdRole) -> (r: Result<String, EditError>)
    ensures
        match r {
            Ok(s) => graph_id(id@, role) == Ok::<Seq<char>, EditErr>(s@),
            Err(e) => graph_id(id@, role) == Err::<Seq<char>, EditErr>(e@),
        },
{
    let t = trim_str(id);
    let n = char_len(t.as_str());
    if n == 0 {
        return Err(EditError::BlankId(role));
    }
    let mut i: usize = 0;
    while i < n
        invariant
            n == t@.len(),
            t@ == trim(id@),
            n > 0,
            i <= n,
            forall|k: int| 0 <= k < i ==> is_graph_id_char(#[trigger] t@[k]),
        decreases n - i,
    {
        if !is_graph_id_character(char_at(t.as_str(), i)) {
            assert(!is_graph_id_char(t@[i as int]));
            assert(graph_id(id@, role) == Err::<Seq<char>, EditErr>(EditErr::UnsupportedId(role, t@)));
            let e = EditError::UnsupportedId(role, t);
            assert(e@ == EditErr::UnsupportedId(role, t@));
            return Err(e);
        }
        i = i + 1;
    }
    Ok(t)
}

/// The net kinds the Board IR knows.
pub open spec fn net_kind_ok(kind: Seq<char>) -> bool {
    kind == "power"@ || kind == "ground"@ || kind == "digital_or_analog"@
}

pub open spec fn net_kind(kind: Seq<char>) -> Result<Seq<char>, EditErr> {
    if net_kind_ok(kind) {
        Ok(kind)
    } else {
        Err(EditErr::UnsupportedNetKind(kind))
    }
}

/// Accepts `power`, `ground` and `digital_or_analog`, exactly as written.
pub fn normalized_net_kind(kind: &str) -> (r: Result<String, EditError>)
    ensures
        match r {
            Ok(s) => net_kind(kind@) == Ok::<Seq<char>, EditErr>(s@),
            Err(e) => net_kind(kind@) == Err::<Seq<char>, EditErr>(e@),
        },
{
    if crate::text::text_eq(kind, "power") || crate::text::text_eq(kind, "ground")
        || crate::text::text_eq(kind, "digital_or_analog") {
        Ok(str_to_string(kind))
    } else {
        Err(EditError::UnsupportedNetKind(str_to_string(kind)))
    }
}

// ---------------------------------------------------------------------------------------
// Board sections
// ---------------------------------------------------------------------------------------

/// The board mapping of a project document.
pub open spec fn board_of(doc: Yaml) -> Result<Seq<(Yaml, Yaml)>, EditErr> {
    match doc {
        Yaml::Mapping(p) => match map_get(p, "board"@) {
            None => Err(EditErr::MissingBoard),
            Some(Yaml::Mapping(b)) => Ok(b),
            Some(_) => Err(EditErr::BoardNotObject),
        },
        _ => Err(EditErr::ProjectNotObject),
    }
}

/// The document with its board mapping replaced.
pub open spec fn with_board(doc: Yaml, board: Seq<(Yaml, Yaml)>) -> Yaml {
    match doc {
        Yaml::Mapping(p) => Yaml::Mapping(map_insert(p, "board"@, Yaml::Mapping(board))),
        _ => doc,
    }
}

/// A mapping under `field` of the board, which must be there.
pub open spec fn board_child(doc: Yaml, field: Seq<char>) -> Result<Seq<(Yaml, Yaml)>, EditErr> {
    match board_of(doc) {
        Err(e) => Err(e),
        Ok(b) => match map_get(b, field) {
            None => Err(EditErr::MissingBoardField(field)),
            Some(Yaml::Mapping(c)) => Ok(c),
            Some(_) => Err(EditErr::BoardFieldNotObject(field)),
        },
    }
}

/// A mapping under `field` of the board, taken as empty when absent.
pub open spec fn ensured_board_child(doc: Yaml, field: Seq<char>) -> Result<
    Seq<(Yaml, Yaml)>,
    EditErr,
> {
    match board_of(doc) {
        Err(e) => Err(e),
        Ok(b) => match map_get(b, field) {
            None => Ok(Seq::empty()),
            Some(Yaml::Mapping(c)) => Ok(c),
            Some(_) => Err(EditErr::BoardFieldNotObject(field)),
        },
    }
}

/// The document with the board's `field` set to the mapping `child`.
pub open spec fn with_board_child(doc: Yaml, field: Seq<char>, child: Seq<(Yaml, Yaml)>) -> Yaml {
    match board_of(doc) {
        Ok(b) => with_board(doc, map_insert(b, field, Yaml::Mapping(child))),
        Err(_) => doc,
    }
}

/// A nested mapping under `field`, taken as empty when absent.
pub open spec fn ensured_child(m: Seq<(Yaml, Yaml)>, field: Seq<char>, section: Section) -> Result<
    Seq<(Yaml, Yaml)>,
    EditErr,
> {
    match map_get(m, field) {
        None => Ok(Seq::empty()),
        Some(Yaml::Mapping(c)) => Ok(c),
        Some(_) => Err(EditErr::SectionNotObject(section)),
    }
}

/// The mapping of item `id` in a component or net table.
pub open spec fn named_child(m: Seq<(Yaml, Yaml)>, id: Seq<char>, kind: ItemKind) -> Result<
    Seq<(Yaml, Yaml)>,
    EditErr,
> {
    match map_get(m, id) {
        None => Err(EditErr::ItemNotFound(kind, id)),
        Some(Yaml::Mapping(c)) => Ok(c),
        Some(_) => Err(EditErr::ItemNotObject(kind, id)),
    }
}

/// A document whose board has been taken apart for editing.
pub struct OpenBoard {
    pub project: Vec<YamlEntry>,
    pub index: usize,
    pub board: Vec<YamlEntry>,
    pub doc: Ghost<Yaml>,
}

impl OpenBoard {
    /// Putting any board back at `index` gives the document it was taken from, with that board.
    pub open spec fn wf(self) -> bool {
        &&& self.index < self.project@.len()
        &&& forall|b: Seq<(Yaml, Yaml)>|
            #![trigger with_board(self.doc@, b)]
            Yaml::Mapping(
                entries_of(self.project@).update(
                    self.index as int,
                    (entries_of(self.project@)[self.index as int].0, Yaml::Mapping(b)),
                ),
            ) == with_board(self.doc@, b)
    }
}

/// Takes the board mapping out of a project document.
pub fn open_board(doc: YamlNode) -> (r: Result<OpenBoard, EditError>)
    ensures
        match r {
            Ok(ob) => {
                &&& ob.wf()
                &&& ob.doc@ == doc@
                &&& board_of(doc@) == Ok::<Seq<(Yaml, Yaml)>, EditErr>(entries_of(ob.board@))
            },
            Err(e) => board_of(doc@) == Err::<Seq<(Yaml, Yaml)>, EditErr>(e@),
        },
{
    let ghost d = doc@;
    match doc {
        YamlNode::Mapping(mut p) => {
            proof {
                lemma_map_view(p);
            }
            let ghost pv = entries_of(p@);
            match map_find(&p, "board") {
                None => Err(EditError::MissingBoard),
                Some(i) => {
                    let b = map_take(&mut p, i);
                    match b {
                        YamlNode::Mapping(bv) => {
                            proof {
                                lemma_map_view(bv);
                            }
                            let ob = OpenBoard { project: p, index: i, board: bv, doc: Ghost(d) };
                            assert forall|bb: Seq<(Yaml, Yaml)>|
                                #![trigger with_board(ob.doc@, bb)]
                                Yaml::Mapping(
                                    entries_of(ob.project@).update(
                                        ob.index as int,
                                        (
                                            entries_of(ob.project@)[ob.index as int].0,
                                            Yaml::Mapping(bb),
                                        ),
                                    ),
                                ) == with_board(ob.doc@, bb) by {
                                assert(entries_of(ob.project@).update(
                                    ob.index as int,
                                    (entries_of(ob.project@)[ob.index as int].0, Yaml::Mapping(bb)),
                                ) =~= map_insert(pv, "board"@, Yaml::Mapping(bb)));
                            }
                            Ok(ob)
                        },
                        _ => Err(EditError::BoardNotObject),
                    }
                },
            }
        },
        _ => Err(EditError::ProjectNotObject),
    }
}

/// Puts an edited board back into its document.
pub fn close_board(ob: OpenBoard) -> (r: YamlNode)
    requires
        ob.wf(),
    ensures
        r@ == with_board(ob.doc@, entries_of(ob.board@)),
{
    let ghost d = ob.doc@;
    let ghost bv = entries_of(ob.board@);
    let ghost pe = entries_of(ob.project@);
    let ghost idx = ob.index;
    assert(Yaml::Mapping(pe.update(idx as int, (pe[idx as int].0, Yaml::Mapping(bv)))) == with_board(
        d,
        bv,
    ));
    let OpenBoard { mut project, index, board, doc } = ob;
    proof {
        lemma_map_view(board);
    }
    map_restore(&mut project, index, YamlNode::Mapping(board));
    proof {
        lemma_map_view(project);
    }
    YamlNode::Mapping(project)
}

/// Takes the mapping under `field` out of `m` (null left in its place), adding an empty one
/// first when `create` is set and the field is absent. `Err(Some(()))` reports an absent
/// field, `Err(None)` a field that is not a mapping.
pub fn open_child(m: &mut Vec<YamlEntry>, field: &str, create: bool) -> (r: Result<
    (usize, Vec<YamlEntry>),
    Option<()>,
>)
    ensures
        match r {
            Ok((i, c)) => {
                &&& i < final(m)@.len()
                &&& (match map_get(entries_of(old(m)@), field@) {
                    Some(Yaml::Mapping(cv)) => cv == entries_of(c@),
                    None => create && entries_of(c@) == Seq::<(Yaml, Yaml)>::empty(),
                    Some(_) => false,
                })
                &&& forall|x: Yaml|
                    #![trigger map_insert(entries_of(old(m)@), field@, x)]
                    entries_of(final(m)@).update(i as int, (entries_of(final(m)@)[i as int].0, x))
                        == map_insert(entries_of(old(m)@), field@, x)
            },
            Err(missing) => {
                &&& entries_of(final(m)@) == entries_of(old(m)@)
                &&& missing is Some <==> map_get(entries_of(old(m)@), field@) is None
                &&& missing is Some ==> !create
                &&& missing is None ==> !(map_get(entries_of(old(m)@), field@) matches Some(
                    Yaml::Mapping(_),
                )) && map_get(entries_of(old(m)@), field@) is Some
            },
        },
{
    let ghost e = entries_of(m@);
    match map_find(m, field) {
        Some(i) => {
            let v = map_take(m, i);
            match v {
                YamlNode::Mapping(c) => {
                    proof {
                        lemma_map_view(c);
                    }
                    assert(entries_of(m@) =~= e.update(i as int, (e[i as int].0, Yaml::Null)));
                    assert forall|x: Yaml|
                        #![trigger map_insert(e, field@, x)]
                        entries_of(m@).update(i as int, (entries_of(m@)[i as int].0, x))
                            == map_insert(e, field@, x) by {
                        assert(entries_of(m@).update(i as int, (entries_of(m@)[i as int].0, x))
                            =~= map_insert(e, field@, x));
                    }
                    Ok((i, c))
                },
                _ => {
                    proof {
                        lemma_map_view_not(v);
                    }
                    assert(v@ == e[i as int].1);
                    map_restore(m, i, v);
                    assert(entries_of(m@) =~= e);
                    Err(None)
                },
            }
        },
        None => {
            if create {
                let i = m.len();
                m.push(YamlEntry { key: text_node(field), value: YamlNode::Null });
                assert(entries_of(m@) =~= e.push((Yaml::Text(field@), Yaml::Null)));
                assert forall|x: Yaml|
                    #![trigger map_insert(e, field@, x)]
                    entries_of(m@).update(i as int, (entries_of(m@)[i as int].0, x)) == map_insert(
                        e,
                        field@,
                        x,
                    ) by {
                    assert(entries_of(m@).update(i as int, (entries_of(m@)[i as int].0, x))
                        =~= map_insert(e, field@, x));
                }
                let c: Vec<YamlEntry> = Vec::new();
                assert(entries_of(c@) =~= Seq::<(Yaml, Yaml)>::empty());
                Ok((i, c))
            } else {
                Err(Some(()))
            }
        },
    }
}

/// A node that is not a mapping node has a view that is not a mapping.
pub proof fn lemma_map_view_not(v: YamlNode)
    requires
        !(v is Mapping),
    ensures
        !(v@ is Mapping),
{
}

/// Puts a nested mapping back at position `i`.
pub fn close_child(m: &mut Vec<YamlEntry>, i: usize, c: Vec<YamlEntry>)
    requires
        i < old(m)@.len(),
    ensures
        entries_of(final(m)@) == entries_of(old(m)@).update(
            i as int,
            (entries_of(old(m)@)[i as int].0, Yaml::Mapping(entries_of(c@))),
        ),
{
    proof {
        lemma_map_view(c);
    }
    map_restore(m, i, YamlNode::Mapping(c));
}

// ---------------------------------------------------------------------------------------
// Components and nets
// ---------------------------------------------------------------------------------------

/// A mapping with the one entry `key: value`.
pub open spec fn single(key: Seq<char>, value: Yaml) -> Seq<(Yaml, Yaml)> {
    map_insert(Seq::empty(), key, value)
}

/// Adding net `net_id` of `kind` to the board's nets.
pub open spec fn add_net_spec(doc: Yaml, net_id: Seq<char>, kind: Seq<char>) -> Result<Yaml, EditErr> {
    match graph_id(net_id, IdRole::Net) {
        Err(e) => Err(e),
        Ok(id) => match net_kind(kind) {
            Err(e) => Err(e),
            Ok(k) => match ensured_board_child(doc, "nets"@) {
                Err(e) => Err(e),
                Ok(nets) => if has_key(nets, id) {
                    Err(EditErr::AlreadyExists(ItemKind::Net, id))
                } else {
                    Ok(
                        with_board_child(
                            doc,
                            "nets"@,
                            map_insert(nets, id, Yaml::Mapping(single("kind"@, Yaml::Text(k)))),
                        ),
                    )
                },
            },
        },
    }
}

/// Adds a net with the given kind; the net must not exist yet.
pub fn add_net_doc(doc: YamlNode, net_id: &str, kind: &str) -> (r: Result<YamlNode, EditError>)
    ensures
        outcome(r) == add_net_spec(doc@, net_id@, kind@),
{
    let ghost d = doc@;
    let id = match validated_graph_id(net_id, IdRole::Net) {
        Ok(s) => s,
        Err(e) => return Err(e),
    };
    let k = match normalized_net_kind(kind) {
        Ok(s) => s,
        Err(e) => return Err(e),
    };
    let mut ob = match open_board(doc) {
        Ok(ob) => ob,
        Err(e) => return Err(e),
    };
    let ghost b0 = entries_of(ob.board@);
    let (i, mut nets) = match open_child(&mut ob.board, "nets", true) {
        Ok(x) => x,
        Err(_) => return Err(EditError::BoardFieldNotObject(str_to_string("nets"))),
    };
    if map_contains(&nets, id.as_str()) {
        return Err(EditError::AlreadyExists(ItemKind::Net, id));
    }
    let mut net: Vec<YamlEntry> = Vec::new();
    assert(entries_of(net@) =~= Seq::<(Yaml, Yaml)>::empty());
    map_put(&mut net, "kind", text_node(k.as_str()));
    assert(entries_of(net@) == single("kind"@, Yaml::Text(k@)));
    proof {
        lemma_map_view(net);
    }
    let ghost n1 = entries_of(nets@);
    map_put(&mut nets, id.as_str(), YamlNode::Mapping(net));
    let ghost n2 = entries_of(nets@);
    assert(ensured_board_child(d, "nets"@) == Ok::<Seq<(Yaml, Yaml)>, EditErr>(n1));
    assert(n2 == map_insert(n1, id@, Yaml::Mapping(single("kind"@, Yaml::Text(k@)))));
    close_child(&mut ob.board, i, nets);
    assert(entries_of(ob.board@) == map_insert(b0, "nets"@, Yaml::Mapping(n2)));
    let r = close_board(ob);
    assert(r@ == with_board_child(d, "nets"@, n2));
    Ok(r)
}

/// Adding component `component_id` with `model`.
pub open spec fn add_component_spec(doc: Yaml, component_id: Seq<char>, model: Seq<char>) -> Result<
    Yaml,
    EditErr,
> {
    match graph_id(component_id, IdRole::Component) {
        Err(e) => Err(e),
        Ok(id) => if trim(model).len() == 0 {
            Err(EditErr::BlankModel)
        } else {
            match ensured_board_child(doc, "components"@) {
                Err(e) => Err(e),
                Ok(comps) => if has_key(comps, id) {
                    Err(EditErr::AlreadyExists(ItemKind::Component, id))
                } else {
                    Ok(
                        with_board_child(
                            doc,
                            "components"@,
                            map_insert(
                                comps,
                                id,
                                Yaml::Mapping(single("model"@, Yaml::Text(trim(model)))),
                            ),
                        ),
                    )
                },
            }
        },
    }
}

/// Adds a component with the trimmed model; the component must not exist yet.
pub fn add_component_doc(doc: YamlNode, component_id: &str, model: &str) -> (r: Result<
    YamlNode,
    EditError,
>)
    ensures
        outcome(r) == add_component_spec(doc@, component_id@, model@),
{
    let id = match validated_graph_id(component_id, IdRole::Component) {
        Ok(s) => s,
        Err(e) => return Err(e),
    };
    let m = trim_str(model);
    if char_len(m.as_str()) == 0 {
        return Err(EditError::BlankModel);
    }
    let mut ob = match open_board(doc) {
        Ok(ob) => ob,
        Err(e) => return Err(e),
    };
    let (i, mut comps) = match open_child(&mut ob.board, "components", true) {
        Ok(x) => x,
        Err(_) => return Err(EditError::BoardFieldNotObject(str_to_string("components"))),
    };
    if map_contains(&comps, id.as_str()) {
        return Err(EditError::AlreadyExists(ItemKind::Component, id));
    }
    let mut comp: Vec<YamlEntry> = Vec::new();
    assert(entries_of(comp@) =~= Seq::<(Yaml, Yaml)>::empty());
    map_put(&mut comp, "model", text_node(m.as_str()));
    assert(entries_of(comp@) == single("model"@, Yaml::Text(m@)));
    proof {
        lemma_map_view(comp);
    }
    map_put(&mut comps, id.as_str(), YamlNode::Mapping(comp));
    close_child(&mut ob.board, i, comps);
    Ok(close_board(ob))
}

/// Removing component `component_id` (taken as written).
pub open spec fn remove_component_spec(doc: Yaml, component_id: Seq<char>) -> Result<Yaml, EditErr> {
    match board_child(doc, "components"@) {
        Err(e) => Err(e),
        Ok(comps) => if !has_key(comps, component_id) {
            Err(EditErr::ItemNotFound(ItemKind::Component, component_id))
        } else {
            Ok(with_board_child(doc, "components"@, map_remove(comps, component_id)))
        },
    }
}

/// Opens a board table that must exist.
fn open_board_table(ob: &mut OpenBoard, field: &str) -> (r: Result<
    (usize, Vec<YamlEntry>),
    EditError,
>)
    ensures
        final(ob).project == old(ob).project,
        final(ob).index == old(ob).index,
        final(ob).doc == old(ob).doc,
        match r {
            Ok((i, c)) => {
                &&& i < final(ob).board@.len()
                &&& map_get(entries_of(old(ob).board@), field@) == Some(
                    Yaml::Mapping(entries_of(c@)),
                )
                &&& forall|x: Yaml|
                    #![trigger map_insert(entries_of(old(ob).board@), field@, x)]
                    entries_of(final(ob).board@).update(
                        i as int,
                        (entries_of(final(ob).board@)[i as int].0, x),
                    ) == map_insert(entries_of(old(ob).board@), field@, x)
            },
            Err(e) => match map_get(entries_of(old(ob).board@), field@) {
                None => e@ == EditErr::MissingBoardField(field@),
                Some(Yaml::Mapping(_)) => false,
                Some(_) => e@ == EditErr::BoardFieldNotObject(field@),
            },
        },
{
    match open_child(&mut ob.board, field, false) {
        Ok((i, c)) => Ok((i, c)),
        Err(Some(_)) => Err(EditError::MissingBoardField(str_to_string(field))),
        Err(None) => Err(EditError::BoardFieldNotObject(str_to_string(field))),
    }
}

/// Removes a component; it must exist.
pub fn remove_component_doc(doc: YamlNode, component_id: &str) -> (r: Result<YamlNode, EditError>)
    ensures
        outcome(r) == remove_component_spec(doc@, component_id@),
{
    let mut ob = match open_board(doc) {
        Ok(ob) => ob,
        Err(e) => return Err(e),
    };
    let (i, mut comps) = match open_board_table(&mut ob, "components") {
        Ok(x) => x,
        Err(e) => return Err(e),
    };
    if map_delete(&mut comps, component_id).is_none() {
        return Err(EditError::ItemNotFound(ItemKind::Component, str_to_string(component_id)));
    }
    close_child(&mut ob.board, i, comps);
    Ok(close_board(ob))
}

/// Setting (or, with no value, removing) `field` of item `id` in the board table `table`.
pub open spec fn edit_item_field_spec(
    doc: Yaml,
    table: Seq<char>,
    kind: ItemKind,
    id: Seq<char>,
    field: Seq<char>,
    value: Option<Yaml>,
) -> Result<Yaml, EditErr> {
    match board_child(doc, table) {
        Err(e) => Err(e),
        Ok(items) => match named_child(items, id, kind) {
            Err(e) => Err(e),
            Ok(item) => Ok(
                with_board_child(
                    doc,
                    table,
                    map_insert(items, id, Yaml::Mapping(map_set_or_remove(item, field, value))),
                ),
            ),
        },
    }
}

pub open spec fn opt_view(v: Option<YamlNode>) -> Option<Yaml> {
    match v {
        Some(n) => Some(n@),
        None => None,
    }
}

/// Sets or removes one field of a component or net mapping.
fn edit_item_field(
    doc: YamlNode,
    table: &str,
    kind: ItemKind,
    id: &str,
    field: &str,
    value: Option<YamlNode>,
) -> (r: Result<YamlNode, EditError>)
    ensures
        outcome(r) == edit_item_field_spec(doc@, table@, kind, id@, field@, opt_view(value)),
{
    let mut ob = match open_board(doc) {
        Ok(ob) => ob,
        Err(e) => return Err(e),
    };
    let (i, mut items) = match open_board_table(&mut ob, table) {
        Ok(x) => x,
        Err(e) => return Err(e),
    };
    let (j, mut item) = match open_child(&mut items, id, false) {
        Ok(x) => x,
        Err(Some(_)) => return Err(EditError::ItemNotFound(kind, str_to_string(id))),
        Err(None) => return Err(EditError::ItemNotObject(kind, str_to_string(id))),
    };
    map_set_or_delete(&mut item, field, value);
    close_child(&mut items, j, item);
    close_child(&mut ob.board, i, items);
    Ok(close_board(ob))
}

/// Replacing a component's model with the trimmed `model`.
pub open spec fn edit_component_model_spec(doc: Yaml, component_id: Seq<char>, model: Seq<char>) -> Result<Yaml, EditErr> {
    edit_item_field_spec(
        doc,
        "components"@,
        ItemKind::Component,
        component_id,
        "model"@,
        Some(Yaml::Text(trim(model))),
    )
}

/// Sets a component's model to the trimmed text.
pub fn edit_component_model_doc(doc: YamlNode, component_id: &str, model: &str) -> (r: Result<
    YamlNode,
    EditError,
>)
    ensures
        outcome(r) == edit_component_model_spec(doc@, component_id@, model@),
{
    let m = trim_str(model);
    edit_item_field(
        doc,
        "components",
        ItemKind::Component,
        component_id,
        "model",
        Some(text_node(m.as_str())),
    )
}

/// Setting a component's part number, or removing it when the trimmed text is empty.
pub open spec fn edit_component_part_number_spec(
    doc: Yaml,
    component_id: Seq<char>,
    part_number: Seq<char>,
) -> Result<Yaml, EditErr> {
    edit_item_field_spec(
        doc,
        "components"@,
        ItemKind::Component,
        component_id,
        "part_number"@,
        if trim(part_number).len() == 0 {
            None
        } else {
            Some(Yaml::Text(trim(part_number)))
        },
    )
}

/// Sets a component's part number; a blank one removes the field.
pub fn edit_component_part_number_doc(doc: YamlNode, component_id: &str, part_number: &str) -> (r:
    Result<YamlNode, EditError>)
    ensures
        outcome(r) == edit_component_part_number_spec(doc@, component_id@, part_number@),
{
    let p = trim_str(part_number);
    let value = if char_len(p.as_str()) == 0 {
        None
    } else {
        Some(text_node(p.as_str()))
    };
    edit_item_field(doc, "components", ItemKind::Component, component_id, "part_number", value)
}

/// Setting a net's kind, which must be a known kind.
pub open spec fn edit_net_kind_spec(doc: Yaml, net_id: Seq<char>, kind: Seq<char>) -> Result<
    Yaml,
    EditErr,
> {
    match net_kind(kind) {
        Err(e) => Err(e),
        Ok(k) => edit_item_field_spec(
            doc,
            "nets"@,
            ItemKind::Net,
            net_id,
            "kind"@,
            Some(Yaml::Text(k)),
        ),
    }
}

/// Sets a net's kind.
pub fn edit_net_kind_doc(doc: YamlNode, net_id: &str, kind: &str) -> (r: Result<YamlNode, EditError>)
    ensures
        outcome(r) == edit_net_kind_spec(doc@, net_id@, kind@),
{
    let k = match normalized_net_kind(kind) {
        Ok(s) => s,
        Err(e) => return Err(e),
    };
    edit_item_field(doc, "nets", ItemKind::Net, net_id, "kind", Some(text_node(k.as_str())))
}

/// Setting a net's powered flag, or removing it when there is none.
pub open spec fn edit_net_powered_spec(doc: Yaml, net_id: Seq<char>, powered: Option<bool>) -> Result<
    Yaml,
    EditErr,
> {
    edit_item_field_spec(
        doc,
        "nets"@,
        ItemKind::Net,
        net_id,
        "powered"@,
        match powered {
            Some(b) => Some(Yaml::Bool(b)),
            None => None,
        },
    )
}

/// Sets or clears a net's powered flag.
pub fn edit_net_powered_doc(doc: YamlNode, net_id: &str, powered: Option<bool>) -> (r: Result<
    YamlNode,
    EditError,
>)
    ensures
        outcome(r) == edit_net_powered_spec(doc@, net_id@, powered),
{
    let value = match powered {
        Some(b) => Some(YamlNode::Bool(b)),
        None => None,
    };
    edit_item_field(doc, "nets", ItemKind::Net, net_id, "powered", value)
}

/// Setting (written number) or clearing a net's nominal voltage.
pub open spec fn edit_net_nominal_voltage_spec(doc: Yaml, net_id: Seq<char>, voltage: Option<Seq<char>>) -> Result<
    Yaml,
    EditErr,
> {
    edit_item_field_spec(
        doc,
        "nets"@,
        ItemKind::Net,
        net_id,
        "nominal_voltage"@,
        match voltage {
            Some(v) => Some(Yaml::Number(v)),
            None => None,
        },
    )
}

/// Sets (as a written number) or clears a net's nominal voltage.
pub fn edit_net_nominal_voltage_doc(doc: YamlNode, net_id: &str, voltage: Option<String>) -> (r: Result<
    YamlNode,
    EditError,
>)
    ensures
        outcome(r) == edit_net_nominal_voltage_spec(doc@, net_id@, match voltage {
            Some(v) => Some(v@),
            None => None,
        }),
{
    let value = match voltage {
        Some(v) => Some(YamlNode::Number(v)),
        None => None,
    };
    edit_item_field(doc, "nets", ItemKind::Net, net_id, "nominal_voltage", value)
}

// ---------------------------------------------------------------------------------------
// Pins
// ---------------------------------------------------------------------------------------

/// Connecting pin `pin` of component `comp` to net `net`, creating the pins mapping when
/// the component has none.
pub open spec fn set_pin_spec(doc: Yaml, comp: Seq<char>, pin: Seq<char>, net: Seq<char>) -> Result<
    Yaml,
    EditErr,
> {
    match board_child(doc, "components"@) {
        Err(e) => Err(e),
        Ok(comps) => match named_child(comps, comp, ItemKind::Component) {
            Err(e) => Err(e),
            Ok(c) => match ensured_child(c, "pins"@, Section::ComponentPins) {
                Err(e) => Err(e),
                Ok(pins) => Ok(
                    with_board_child(
                        doc,
                        "components"@,
                        map_insert(
                            comps,
                            comp,
                            Yaml::Mapping(
                                map_insert(
                                    c,
                                    "pins"@,
                                    Yaml::Mapping(map_insert(pins, pin, Yaml::Text(net))),
                                ),
                            ),
                        ),
                    ),
                ),
            },
        },
    }
}

/// Opens item `id` of a board table.
fn open_item(items: &mut Vec<YamlEntry>, id: &str, kind: ItemKind) -> (r: Result<
    (usize, Vec<YamlEntry>),
    EditError,
>)
    ensures
        match r {
            Ok((j, c)) => {
                &&& j < final(items)@.len()
                &&& named_child(entries_of(old(items)@), id@, kind) == Ok::<
                    Seq<(Yaml, Yaml)>,
                    EditErr,
                >(entries_of(c@))
                &&& forall|x: Yaml|
                    #![trigger map_insert(entries_of(old(items)@), id@, x)]
                    entries_of(final(items)@).update(
                        j as int,
                        (entries_of(final(items)@)[j as int].0, x),
                    ) == map_insert(entries_of(old(items)@), id@, x)
            },
            Err(e) => named_child(entries_of(old(items)@), id@, kind) == Err::<
                Seq<(Yaml, Yaml)>,
                EditErr,
            >(e@),
        },
{
    match open_child(items, id, false) {
        Ok(x) => Ok(x),
        Err(Some(_)) => Err(EditError::ItemNotFound(kind, str_to_string(id))),
        Err(None) => Err(EditError::ItemNotObject(kind, str_to_string(id))),
    }
}

/// Writes `pin: net` into a component's pins.
fn set_pin(doc: YamlNode, comp: &str, pin: &str, net: &str) -> (r: Result<YamlNode, EditError>)
    ensures
        outcome(r) == set_pin_spec(doc@, comp@, pin@, net@),
{
    let mut ob = match open_board(doc) {
        Ok(ob) => ob,
        Err(e) => return Err(e),
    };
    let (i, mut comps) = match open_board_table(&mut ob, "components") {
        Ok(x) => x,
        Err(e) => return Err(e),
    };
    let (j, mut c) = match open_item(&mut comps, comp, ItemKind::Component) {
        Ok(x) => x,
        Err(e) => return Err(e),
    };
    let (k, mut pins) = match open_child(&mut c, "pins", true) {
        Ok(x) => x,
        Err(_) => return Err(EditError::SectionNotObject(Section::ComponentPins)),
    };
    map_put(&mut pins, pin, text_node(net));
    close_child(&mut c, k, pins);
    close_child(&mut comps, j, c);
    close_child(&mut ob.board, i, comps);
    Ok(close_board(ob))
}

/// Assigning a pin to an existing net.
pub open spec fn assign_component_pin_spec(
    doc: Yaml,
    comp: Seq<char>,
    pin: Seq<char>,
    net: Seq<char>,
) -> Result<Yaml, EditErr> {
    match graph_id(pin, IdRole::Pin) {
        Err(e) => Err(e),
        Ok(p) => match graph_id(net, IdRole::Net) {
            Err(e) => Err(e),
            Ok(n) => match board_child(doc, "nets"@) {
                Err(e) => Err(e),
                Ok(nets) => if !has_key(nets, n) {
                    Err(EditErr::ItemNotFound(ItemKind::Net, n))
                } else {
                    set_pin_spec(doc, comp, p, n)
                },
            },
        },
    }
}

/// The mapping under `field` of a board, which must exist, read without changing it.
pub(crate) fn board_table_has(doc: &YamlNode, field: &str, key: &str) -> (r: Result<bool, EditError>)
    ensures
        match r {
            Ok(b) => board_child(doc@, field@) matches Ok(t) && b == has_key(t, key@),
            Err(e) => board_child(doc@, field@) == Err::<Seq<(Yaml, Yaml)>, EditErr>(e@),
        },
{
    match doc {
        YamlNode::Mapping(p) => {
            proof {
                lemma_map_view(*p);
            }
            match map_find(p, "board") {
                None => Err(EditError::MissingBoard),
                Some(i) => match &p[i].value {
                    YamlNode::Mapping(b) => {
                        proof {
                            lemma_map_view(*b);
                        }
                        match map_find(b, field) {
                            None => Err(EditError::MissingBoardField(str_to_string(field))),
                            Some(j) => match &b[j].value {
                                YamlNode::Mapping(t) => {
                                    proof {
                                        lemma_map_view(*t);
                                    }
                                    Ok(map_contains(t, key))
                                },
                                other => {
                                    proof {
                                        lemma_map_view_not(*other);
                                    }
                                    Err(EditError::BoardFieldNotObject(str_to_string(field)))
                                },
                            },
                        }
                    },
                    other => {
                        proof {
                            lemma_map_view_not(*other);
                        }
                        Err(EditError::BoardNotObject)
                    },
                },
            }
        },
        other => {
            proof {
                lemma_map_view_not(*other);
            }
            Err(EditError::ProjectNotObject)
        },
    }
}

/// Connects a component pin to an existing net.
pub fn assign_component_pin_doc(doc: YamlNode, comp: &str, pin: &str, net: &str) -> (r: Result<
    YamlNode,
    EditError,
>)
    ensures
        outcome(r) == assign_component_pin_spec(doc@, comp@, pin@, net@),
{
    let p = match validated_graph_id(pin, IdRole::Pin) {
        Ok(s) => s,
        Err(e) => return Err(e),
    };
    let n = match validated_graph_id(net, IdRole::Net) {
        Ok(s) => s,
        Err(e) => return Err(e),
    };
    match board_table_has(&doc, "nets", n.as_str()) {
        Err(e) => return Err(e),
        Ok(false) => return Err(EditError::ItemNotFound(ItemKind::Net, n)),
        Ok(true) => {},
    }
    set_pin(doc, comp, p.as_str(), n.as_str())
}

/// Disconnecting a pin: the component's pins mapping must exist and hold the pin.
pub open spec fn remove_component_pin_spec(doc: Yaml, comp: Seq<char>, pin: Seq<char>) -> Result<
    Yaml,
    EditErr,
> {
    match graph_id(pin, IdRole::Pin) {
        Err(e) => Err(e),
        Ok(p) => match board_child(doc, "components"@) {
            Err(e) => Err(e),
            Ok(comps) => match named_child(comps, comp, ItemKind::Component) {
                Err(e) => Err(e),
                Ok(c) => match map_get(c, "pins"@) {
                    None => Err(EditErr::MissingSection(Section::ComponentPins)),
                    Some(Yaml::Mapping(pins)) => if !has_key(pins, p) {
                        Err(EditErr::PinNotFound(comp, p))
                    } else {
                        Ok(
                            with_board_child(
                                doc,
                                "components"@,
                                map_insert(
                                    comps,
                                    comp,
                                    Yaml::Mapping(
                                        map_insert(c, "pins"@, Yaml::Mapping(map_remove(pins, p))),
                                    ),
                                ),
                            ),
                        )
                    },
                    Some(_) => Err(EditErr::SectionNotObject(Section::ComponentPins)),
                },
            },
        },
    }
}

/// Removes a pin from a component's pins.
pub fn remove_component_pin_doc(doc: YamlNode, comp: &str, pin: &str) -> (r: Result<
    YamlNode,
    EditError,
>)
    ensures
        outcome(r) == remove_component_pin_spec(doc@, comp@, pin@),
{
    let p = match validated_graph_id(pin, IdRole::Pin) {
        Ok(s) => s,
        Err(e) => return Err(e),
    };
    let mut ob = match open_board(doc) {
        Ok(ob) => ob,
        Err(e) => return Err(e),
    };
    let (i, mut comps) = match open_board_table(&mut ob, "components") {
        Ok(x) => x,
        Err(e) => return Err(e),
    };
    let (j, mut c) = match open_item(&mut comps, comp, ItemKind::Component) {
        Ok(x) => x,
        Err(e) => return Err(e),
    };
    let (k, mut pins) = match open_child(&mut c, "pins", false) {
        Ok(x) => x,
        Err(Some(_)) => return Err(EditError::MissingSection(Section::ComponentPins)),
        Err(None) => return Err(EditError::SectionNotObject(Section::ComponentPins)),
    };
    if map_delete(&mut pins, p.as_str()).is_none() {
        return Err(EditError::PinNotFound(str_to_string(comp), p));
    }
    close_child(&mut c, k, pins);
    close_child(&mut comps, j, c);
    close_child(&mut ob.board, i, comps);
    Ok(close_board(ob))
}

// ---------------------------------------------------------------------------------------
// Wiring
// ---------------------------------------------------------------------------------------

/// The net a component pin is connected to (none when the pin is not listed).
pub open spec fn pin_net_spec(doc: Yaml, comp: Seq<char>, pin: Seq<char>) -> Result<
    Option<Seq<char>>,
    EditErr,
> {
    match board_child(doc, "components"@) {
        Err(e) => Err(e),
        Ok(comps) => match named_child(comps, comp, ItemKind::Component) {
            Err(e) => Err(e),
            Ok(c) => match map_get(c, "pins"@) {
                Some(Yaml::Mapping(pins)) => match map_get(pins, pin) {
                    Some(Yaml::Text(n)) => Ok(Some(n)),
                    _ => Ok(None),
                },
                _ => Ok(None),
            },
        },
    }
}

/// The mapping under `field` of the board, read in place.
pub(crate) fn board_table<'a>(doc: &'a YamlNode, field: &str) -> (r: Result<&'a Vec<YamlEntry>, EditError>)
    ensures
        match r {
            Ok(t) => board_child(doc@, field@) == Ok::<Seq<(Yaml, Yaml)>, EditErr>(entries_of(t@)),
            Err(e) => board_child(doc@, field@) == Err::<Seq<(Yaml, Yaml)>, EditErr>(e@),
        },
{
    match doc {
        YamlNode::Mapping(p) => {
            proof {
                lemma_map_view(*p);
            }
            match map_find(p, "board") {
                None => Err(EditError::MissingBoard),
                Some(i) => match &p[i].value {
                    YamlNode::Mapping(b) => {
                        proof {
                            lemma_map_view(*b);
                        }
                        match map_find(b, field) {
                            None => Err(EditError::MissingBoardField(str_to_string(field))),
                            Some(j) => match &b[j].value {
                                YamlNode::Mapping(t) => {
                                    proof {
                                        lemma_map_view(*t);
                                    }
                                    Ok(t)
                                },
                                other => {
                                    proof {
                                        lemma_map_view_not(*other);
                                    }
                                    Err(EditError::BoardFieldNotObject(str_to_string(field)))
                                },
                            },
                        }
                    },
                    other => {
                        proof {
                            lemma_map_view_not(*other);
                        }
                        Err(EditError::BoardNotObject)
                    },
                },
            }
        },
        other => {
            proof {
                lemma_map_view_not(*other);
            }
            Err(EditError::ProjectNotObject)
        },
    }
}

/// The net of a component pin, if the pin is connected.
pub fn component_pin_net(doc: &YamlNode, comp: &str, pin: &str) -> (r: Result<
    Option<String>,
    EditError,
>)
    ensures
        match r {
            Ok(Some(n)) => pin_net_spec(doc@, comp@, pin@) == Ok::<Option<Seq<char>>, EditErr>(
                Some(n@),
            ),
            Ok(None) => pin_net_spec(doc@, comp@, pin@) == Ok::<Option<Seq<char>>, EditErr>(
                None,
            ),
            Err(e) => pin_net_spec(doc@, comp@, pin@) == Err::<Option<Seq<char>>, EditErr>(e@),
        },
{
    let comps = match board_table(doc, "components") {
        Ok(t) => t,
        Err(e) => return Err(e),
    };
    let j = match map_find(comps, comp) {
        Some(j) => j,
        None => return Err(EditError::ItemNotFound(ItemKind::Component, str_to_string(comp))),
    };
    match &comps[j].value {
        YamlNode::Mapping(c) => {
            proof {
                lemma_map_view(*c);
            }
            match map_find(c, "pins") {
                None => Ok(None),
                Some(k) => match &c[k].value {
                    YamlNode::Mapping(pins) => {
                        proof {
                            lemma_map_view(*pins);
                        }
                        match map_find(pins, pin) {
                            None => Ok(None),
                            Some(q) => match &pins[q].value {
                                YamlNode::Text(n) => Ok(Some(str_to_string(n.as_str()))),
                                _ => Ok(None),
                            },
                        }
                    },
                    other => {
                        proof {
                            lemma_map_view_not(*other);
                        }
                        Ok(None)
                    },
                },
            }
        },
        other => {
            proof {
                lemma_map_view_not(*other);
            }
            Err(EditError::ItemNotObject(ItemKind::Component, str_to_string(comp)))
        },
    }
}

/// Adding a net of `kind` named `base`, or `base_2`, `base_3`, ... when taken.
pub open spec fn insert_fresh_net_spec(doc: Yaml, base: Seq<char>, kind: Seq<char>) -> Result<
    (Yaml, Seq<char>),
    EditErr,
> {
    match ensured_board_child(doc, "nets"@) {
        Err(e) => Err(e),
        Ok(nets) => {
            let id = first_free(base, text_keys(nets));
            Ok(
                (
                    with_board_child(
                        doc,
                        "nets"@,
                        map_insert(nets, id, Yaml::Mapping(single("kind"@, Yaml::Text(kind)))),
                    ),
                    id,
                ),
            )
        },
    }
}

/// Adds a net under the first free name derived from `base`.
fn insert_fresh_net(doc: YamlNode, base: &str, kind: &str) -> (r: Result<
    (YamlNode, String),
    EditError,
>)
    ensures
        match r {
            Ok((d, id)) => insert_fresh_net_spec(doc@, base@, kind@) == Ok::<
                (Yaml, Seq<char>),
                EditErr,
            >((d@, id@)),
            Err(e) => insert_fresh_net_spec(doc@, base@, kind@) == Err::<
                (Yaml, Seq<char>),
                EditErr,
            >(e@),
        },
{
    let mut ob = match open_board(doc) {
        Ok(ob) => ob,
        Err(e) => return Err(e),
    };
    let (i, mut nets) = match open_child(&mut ob.board, "nets", true) {
        Ok(x) => x,
        Err(_) => return Err(EditError::BoardFieldNotObject(str_to_string("nets"))),
    };
    let keys = map_text_keys(&nets);
    let id = first_free_name(base, &keys);
    let mut net: Vec<YamlEntry> = Vec::new();
    assert(entries_of(net@) =~= Seq::<(Yaml, Yaml)>::empty());
    map_put(&mut net, "kind", text_node(kind));
    proof {
        lemma_map_view(net);
    }
    map_put(&mut nets, id.as_str(), YamlNode::Mapping(net));
    close_child(&mut ob.board, i, nets);
    Ok((close_board(ob), id))
}

/// The name of the net a new wire creates: `net_<component>_<pin>` in ASCII lower case.
pub open spec fn generated_wire_net_base_spec(comp: Seq<char>, pin: Seq<char>) -> Seq<char> {
    ascii_lower("net_"@ + comp + seq!['_'] + pin)
}

pub fn generated_wire_net_base(comp: &str, pin: &str) -> (r: String)
    ensures
        r@ == generated_wire_net_base_spec(comp@, pin@),
{
    let mut s = str_to_string("net_");
    s.append(comp);
    push_char(&mut s, '_');
    s.append(pin);
    ascii_lower_str(s.as_str())
}

/// Wiring two pins: an existing net of the source (or else the target) pin is shared;
/// with neither connected a new net is made for the source pin.
pub open spec fn connect_component_pins_spec(
    doc: Yaml,
    sc: Seq<char>,
    sp: Seq<char>,
    tc: Seq<char>,
    tp: Seq<char>,
) -> Result<Yaml, EditErr> {
    match graph_id(sp, IdRole::SourcePin) {
        Err(e) => Err(e),
        Ok(s) => match graph_id(tp, IdRole::TargetPin) {
            Err(e) => Err(e),
            Ok(t) => if sc == tc && s == t {
                Err(EditErr::SelfWire)
            } else {
                match pin_net_spec(doc, sc, s) {
                    Err(e) => Err(e),
                    Ok(source_net) => match pin_net_spec(doc, tc, t) {
                        Err(e) => Err(e),
                        Ok(target_net) => {
                            let chosen: Result<(Yaml, Seq<char>), EditErr> = match source_net {
                                Some(n) => Ok((doc, n)),
                                None => match target_net {
                                    Some(n) => Ok((doc, n)),
                                    None => insert_fresh_net_spec(
                                        doc,
                                        generated_wire_net_base_spec(sc, s),
                                        "digital_or_analog"@,
                                    ),
                                },
                            };
                            match chosen {
                                Err(e) => Err(e),
                                Ok((d1, n)) => match set_pin_spec(d1, sc, s, n) {
                                    Err(e) => Err(e),
                                    Ok(d2) => set_pin_spec(d2, tc, t, n),
                                },
                            }
                        },
                    },
                }
            },
        },
    }
}

/// Connects two component pins with one net.
pub fn connect_component_pins_doc(
    doc: YamlNode,
    source_component: &str,
    source_pin: &str,
    target_component: &str,
    target_pin: &str,
) -> (r: Result<YamlNode, EditError>)
    ensures
        outcome(r) == connect_component_pins_spec(
            doc@,
            source_component@,
            source_pin@,
            target_component@,
            target_pin@,
        ),
{
    let s = match validated_graph_id(source_pin, IdRole::SourcePin) {
        Ok(x) => x,
        Err(e) => return Err(e),
    };
    let t = match validated_graph_id(target_pin, IdRole::TargetPin) {
        Ok(x) => x,
        Err(e) => return Err(e),
    };
    if text_eq(source_component, target_component) && text_eq(s.as_str(), t.as_str()) {
        return Err(EditError::SelfWire);
    }
    let source_net = match component_pin_net(&doc, source_component, s.as_str()) {
        Ok(x) => x,
        Err(e) => return Err(e),
    };
    let target_net = match component_pin_net(&doc, target_component, t.as_str()) {
        Ok(x) => x,
        Err(e) => return Err(e),
    };
    let (d1, net) = match source_net {
        Some(n) => (doc, n),
        None => match target_net {
            Some(n) => (doc, n),
            None => {
                let base = generated_wire_net_base(source_component, s.as_str());
                match insert_fresh_net(doc, base.as_str(), "digital_or_analog") {
                    Ok(x) => x,
                    Err(e) => return Err(e),
                }
            },
        },
    };
    let d2 = match set_pin(d1, source_component, s.as_str(), net.as_str()) {
        Ok(d) => d,
        Err(e) => return Err(e),
    };
    set_pin(d2, target_component, t.as_str(), net.as_str())
}

// ---------------------------------------------------------------------------------------
// Components with ports
// ---------------------------------------------------------------------------------------

/// The net kind a new pin net gets from its library port kind.
pub open spec fn port_net_kind(port_kind: Seq<char>) -> Seq<char> {
    if port_kind == "electrical_power"@ {
        "power"@
    } else if port_kind == "electrical_ground"@ {
        "ground"@
    } else {
        "digital_or_analog"@
    }
}

pub fn default_net_kind_for_port(port_kind: &str) -> (r: &'static str)
    ensures
        r@ == port_net_kind(port_kind@),
{
    if text_eq(port_kind, "electrical_power") {
        "power"
    } else if text_eq(port_kind, "electrical_ground") {
        "ground"
    } else {
        "digital_or_analog"
    }
}

/// The name of the net a new component pin gets: `<component>_<pin>` in ASCII lower case.
pub open spec fn generated_net_base_spec(comp: Seq<char>, pin: Seq<char>) -> Seq<char> {
    ascii_lower(comp + seq!['_'] + pin)
}

pub fn generated_net_base(comp: &str, pin: &str) -> (r: String)
    ensures
        r@ == generated_net_base_spec(comp@, pin@),
{
    let mut s = str_to_string(comp);
    push_char(&mut s, '_');
    s.append(pin);
    ascii_lower_str(s.as_str())
}

pub open spec fn port_views(ports: Seq<(String, String)>) -> Seq<(Seq<char>, Seq<char>)> {
    ports.map_values(|p: (String, String)| (p.0@, p.1@))
}

/// One fresh net per port, in port order, for component `comp`; the pins with their nets.
pub open spec fn port_nets_spec(doc: Yaml, comp: Seq<char>, ports: Seq<(Seq<char>, Seq<char>)>) -> Result<
    (Yaml, Seq<(Seq<char>, Seq<char>)>),
    EditErr,
>
    decreases ports.len(),
{
    if ports.len() == 0 {
        Ok((doc, Seq::empty()))
    } else {
        match port_nets_spec(doc, comp, ports.drop_last()) {
            Err(e) => Err(e),
            Ok((d, pins)) => match graph_id(ports.last().0, IdRole::Pin) {
                Err(e) => Err(e),
                Ok(p) => match insert_fresh_net_spec(
                    d,
                    generated_net_base_spec(comp, p),
                    port_net_kind(ports.last().1),
                ) {
                    Err(e) => Err(e),
                    Ok((d2, n)) => Ok((d2, pins.push((p, n)))),
                },
            },
        }
    }
}

/// The pins mapping `pin: net` for the given pairs, in order.
pub open spec fn pins_mapping(pins: Seq<(Seq<char>, Seq<char>)>) -> Seq<(Yaml, Yaml)>
    decreases pins.len(),
{
    if pins.len() == 0 {
        Seq::empty()
    } else {
        map_insert(pins_mapping(pins.drop_last()), pins.last().0, Yaml::Text(pins.last().1))
    }
}

/// The mapping of a new component: its model, and its pins when there are any.
pub open spec fn component_mapping(model: Seq<char>, pins: Seq<(Seq<char>, Seq<char>)>) -> Seq<
    (Yaml, Yaml),
> {
    if pins.len() == 0 {
        single("model"@, Yaml::Text(model))
    } else {
        map_insert(single("model"@, Yaml::Text(model)), "pins"@, Yaml::Mapping(pins_mapping(pins)))
    }
}

/// The last step of adding a component with ports: writing the component itself.
pub open spec fn finish_component_with_ports(
    nets: Result<(Yaml, Seq<(Seq<char>, Seq<char>)>), EditErr>,
    id: Seq<char>,
    model: Seq<char>,
) -> Result<Yaml, EditErr> {
    match nets {
        Err(e) => Err(e),
        Ok((d2, pins)) => match ensured_board_child(d2, "components"@) {
            Err(e) => Err(e),
            Ok(comps) => Ok(
                with_board_child(
                    d2,
                    "components"@,
                    map_insert(comps, id, Yaml::Mapping(component_mapping(model, pins))),
                ),
            ),
        },
    }
}

/// Adding a component whose ports each get a fresh net of the matching kind.
pub open spec fn add_component_with_ports_spec(
    doc: Yaml,
    component_id: Seq<char>,
    model: Seq<char>,
    ports: Seq<(Seq<char>, Seq<char>)>,
) -> Result<Yaml, EditErr> {
    match graph_id(component_id, IdRole::Component) {
        Err(e) => Err(e),
        Ok(id) => if trim(model).len() == 0 {
            Err(EditErr::BlankModel)
        } else {
            match ensured_board_child(doc, "components"@) {
                Err(e) => Err(e),
                Ok(comps0) => if has_key(comps0, id) {
                    Err(EditErr::AlreadyExists(ItemKind::Component, id))
                } else {
                    finish_component_with_ports(
                        port_nets_spec(with_board_child(doc, "components"@, comps0), id, ports),
                        id,
                        trim(model),
                    )
                },
            }
        },
    }
}

/// A failure on a prefix of the ports is the failure of the whole list.
pub proof fn lemma_port_nets_prefix_err(
    d: Yaml,
    comp: Seq<char>,
    ports: Seq<(Seq<char>, Seq<char>)>,
    i: int,
)
    requires
        0 <= i <= ports.len(),
        port_nets_spec(d, comp, ports.subrange(0, i)) is Err,
    ensures
        port_nets_spec(d, comp, ports) == port_nets_spec(d, comp, ports.subrange(0, i)),
    decreases ports.len() - i,
{
    if i < ports.len() {
        let p = ports.subrange(0, i + 1);
        assert(p.drop_last() =~= ports.subrange(0, i));
        lemma_port_nets_prefix_err(d, comp, ports, i + 1);
    } else {
        assert(ports.subrange(0, i) =~= ports);
    }
}

/// Whether the board's `field` mapping (taken as empty when absent) has `key`.
fn ensured_table_has(doc: &YamlNode, field: &str, key: &str) -> (r: Result<bool, EditError>)
    ensures
        match r {
            Ok(b) => ensured_board_child(doc@, field@) matches Ok(t) && b == has_key(t, key@),
            Err(e) => ensured_board_child(doc@, field@) == Err::<Seq<(Yaml, Yaml)>, EditErr>(e@),
        },
{
    match board_table(doc, field) {
        Ok(t) => Ok(map_contains(t, key)),
        Err(EditError::MissingBoardField(f)) => {
            assert(Seq::<(Yaml, Yaml)>::empty().len() == 0);
            assert(!has_key(Seq::<(Yaml, Yaml)>::empty(), key@));
            Ok(false)
        },
        Err(e) => Err(e),
    }
}

/// The document with the board's `field` mapping present (an empty one added when absent).
fn ensure_table(doc: YamlNode, field: &str) -> (r: Result<YamlNode, EditError>)
    ensures
        match r {
            Ok(d) => ensured_board_child(doc@, field@) matches Ok(t) && d@ == with_board_child(
                doc@,
                field@,
                t,
            ),
            Err(e) => ensured_board_child(doc@, field@) == Err::<Seq<(Yaml, Yaml)>, EditErr>(e@),
        },
{
    let mut ob = match open_board(doc) {
        Ok(ob) => ob,
        Err(e) => return Err(e),
    };
    let (i, t) = match open_child(&mut ob.board, field, true) {
        Ok(x) => x,
        Err(_) => return Err(EditError::BoardFieldNotObject(str_to_string(field))),
    };
    close_child(&mut ob.board, i, t);
    Ok(close_board(ob))
}

/// Adds a component together with one new net per port; the pins are wired to those nets.
pub fn add_component_with_ports_doc(
    doc: YamlNode,
    component_id: &str,
    model: &str,
    ports: &Vec<(String, String)>,
) -> (r: Result<YamlNode, EditError>)
    ensures
        outcome(r) == add_component_with_ports_spec(
            doc@,
            component_id@,
            model@,
            port_views(ports@),
        ),
{
    let ghost d0 = doc@;
    let id = match validated_graph_id(component_id, IdRole::Component) {
        Ok(s) => s,
        Err(e) => return Err(e),
    };
    let m = trim_str(model);
    if char_len(m.as_str()) == 0 {
        return Err(EditError::BlankModel);
    }
    match ensured_table_has(&doc, "components", id.as_str()) {
        Err(e) => return Err(e),
        Ok(true) => return Err(EditError::AlreadyExists(ItemKind::Component, id)),
        Ok(false) => {},
    }
    let mut d = match ensure_table(doc, "components") {
        Ok(x) => x,
        Err(e) => return Err(e),
    };
    let ghost d1 = d@;
    let ghost pv = port_views(ports@);
    let mut pins: Vec<(String, String)> = Vec::new();
    assert(port_views(pins@) =~= Seq::<(Seq<char>, Seq<char>)>::empty());
    assert(pv.subrange(0, 0) =~= Seq::<(Seq<char>, Seq<char>)>::empty());
    let mut i: usize = 0;
    while i < ports.len()
        invariant
            i <= ports@.len(),
            pv == port_views(ports@),
            id@ == trim(component_id@),
            d0 == doc@,
            add_component_with_ports_spec(d0, component_id@, model@, pv)
                == finish_component_with_ports(port_nets_spec(d1, id@, pv), id@, m@),
            port_nets_spec(d1, id@, pv.subrange(0, i as int)) == Ok::<
                (Yaml, Seq<(Seq<char>, Seq<char>)>),
                EditErr,
            >((d@, port_views(pins@))),
        decreases ports@.len() - i,
    {
        assert(pv.subrange(0, i + 1).drop_last() =~= pv.subrange(0, i as int));
        assert(pv.subrange(0, i + 1).last() == pv[i as int]);
        assert(pv[i as int] == (ports@[i as int].0@, ports@[i as int].1@));
        let p = match validated_graph_id(ports[i].0.as_str(), IdRole::Pin) {
            Ok(x) => x,
            Err(e) => {
                assert(port_nets_spec(d1, id@, pv.subrange(0, i + 1)) == Err::<
                    (Yaml, Seq<(Seq<char>, Seq<char>)>),
                    EditErr,
                >(e@));
                proof {
                    lemma_port_nets_prefix_err(d1, id@, pv, i + 1);
                }
                return Err(e);
            },
        };
        let base = generated_net_base(id.as_str(), p.as_str());
        let kind = default_net_kind_for_port(ports[i].1.as_str());
        let (d2, n) = match insert_fresh_net(d, base.as_str(), kind) {
            Ok(x) => x,
            Err(e) => {
                assert(port_nets_spec(d1, id@, pv.subrange(0, i + 1)) == Err::<
                    (Yaml, Seq<(Seq<char>, Seq<char>)>),
                    EditErr,
                >(e@));
                proof {
                    lemma_port_nets_prefix_err(d1, id@, pv, i + 1);
                }
                return Err(e);
            },
        };
        d = d2;
        let ghost old_pins = pins@;
        pins.push((p, n));
        assert(port_views(pins@) =~= port_views(old_pins).push((pins@.last().0@, pins@.last().1@)));
        i = i + 1;
    }
    assert(pv.subrange(0, ports@.len() as int) =~= pv);
    let mut ob = match open_board(d) {
        Ok(ob) => ob,
        Err(e) => return Err(e),
    };
    let (j, mut comps) = match open_child(&mut ob.board, "components", true) {
        Ok(x) => x,
        Err(_) => return Err(EditError::BoardFieldNotObject(str_to_string("components"))),
    };
    let mut comp: Vec<YamlEntry> = Vec::new();
    assert(entries_of(comp@) =~= Seq::<(Yaml, Yaml)>::empty());
    map_put(&mut comp, "model", text_node(m.as_str()));
    if pins.len() > 0 {
        let mut pm: Vec<YamlEntry> = Vec::new();
        assert(entries_of(pm@) =~= Seq::<(Yaml, Yaml)>::empty());
        let mut k: usize = 0;
        while k < pins.len()
            invariant
                k <= pins@.len(),
                entries_of(pm@) == pins_mapping(port_views(pins@).subrange(0, k as int)),
            decreases pins@.len() - k,
        {
            assert(port_views(pins@).subrange(0, k + 1).drop_last() =~= port_views(
                pins@,
            ).subrange(0, k as int));
            map_put(&mut pm, pins[k].0.as_str(), text_node(pins[k].1.as_str()));
            k = k + 1;
        }
        assert(port_views(pins@).subrange(0, pins@.len() as int) =~= port_views(pins@));
        proof {
            lemma_map_view(pm);
        }
        map_put(&mut comp, "pins", YamlNode::Mapping(pm));
    }
    proof {
        lemma_map_view(comp);
    }
    map_put(&mut comps, id.as_str(), YamlNode::Mapping(comp));
    close_child(&mut ob.board, j, comps);
    Ok(close_board(ob))
}

// ---------------------------------------------------------------------------------------
// Removing nets
// ---------------------------------------------------------------------------------------

/// `component.pin` for each of the given pins (name and value) that is connected to `net`.
pub open spec fn refs_of_pins(comp: Seq<char>, pins: Seq<(Seq<char>, Yaml)>, net: Seq<char>) -> Seq<Seq<char>>
    decreases pins.len(),
{
    if pins.len() == 0 {
        Seq::empty()
    } else {
        let prev = refs_of_pins(comp, pins.drop_last(), net);
        match pins.last().1 {
            Yaml::Text(n) => if n == net {
                prev.push(comp + seq!['.'] + pins.last().0)
            } else {
                prev
            },
            _ => prev,
        }
    }
}

/// `component.pin` for each pin of one component that is connected to `net`, by pin name.
pub open spec fn component_net_refs(comp: Seq<char>, pins: Seq<(Yaml, Yaml)>, net: Seq<char>) -> Seq<
    Seq<char>,
> {
    refs_of_pins(comp, id_order(pins), net)
}

/// The pins of the given components (id and value) that are connected to `net`.
pub open spec fn refs_of_components(comps: Seq<(Seq<char>, Yaml)>, net: Seq<char>) -> Seq<Seq<char>>
    decreases comps.len(),
{
    if comps.len() == 0 {
        Seq::empty()
    } else {
        let prev = refs_of_components(comps.drop_last(), net);
        match comps.last().1 {
            Yaml::Mapping(cm) => match map_get(cm, "pins"@) {
                Some(Yaml::Mapping(pins)) => prev + component_net_refs(comps.last().0, pins, net),
                _ => prev,
            },
            _ => prev,
        }
    }
}

/// `component.pin` for every pin on the board that is connected to `net`, by component id
/// and then pin name.
pub open spec fn net_refs(comps: Seq<(Yaml, Yaml)>, net: Seq<char>) -> Seq<Seq<char>> {
    refs_of_components(id_order(comps), net)
}

/// Whether a schematic net label entry belongs to `net`.
pub open spec fn label_for_net(label: Yaml, net: Seq<char>) -> bool {
    match label {
        Yaml::Mapping(m) => map_get(m, "net"@) == Some(Yaml::Text(net)),
        _ => false,
    }
}

/// The net labels that do not belong to `net`, in order.
pub open spec fn labels_without(labels: Seq<(Yaml, Yaml)>, net: Seq<char>) -> Seq<(Yaml, Yaml)>
    decreases labels.len(),
{
    if labels.len() == 0 {
        Seq::empty()
    } else {
        let prev = labels_without(labels.drop_last(), net);
        if label_for_net(labels.last().1, net) {
            prev
        } else {
            prev.push(labels.last())
        }
    }
}

/// The document without the schematic net labels of `net` (unchanged when the board has no
/// schematic net label mapping).
pub open spec fn without_net_labels(doc: Yaml, net: Seq<char>) -> Yaml {
    match board_of(doc) {
        Ok(b) => match map_get(b, "schematic"@) {
            Some(Yaml::Mapping(sch)) => match map_get(sch, "net_labels"@) {
                Some(Yaml::Mapping(labels)) => with_board(
                    doc,
                    map_insert(
                        b,
                        "schematic"@,
                        Yaml::Mapping(
                            map_insert(
                                sch,
                                "net_labels"@,
                                Yaml::Mapping(labels_without(labels, net)),
                            ),
                        ),
                    ),
                ),
                _ => doc,
            },
            _ => doc,
        },
        _ => doc,
    }
}

/// Removing a net that no pin uses, together with its schematic net labels.
pub open spec fn remove_net_spec(doc: Yaml, net: Seq<char>) -> Result<Yaml, EditErr> {
    match ensured_board_child(doc, "components"@) {
        Err(e) => Err(e),
        Ok(comps) => if net_refs(comps, net).len() > 0 {
            Err(EditErr::NetStillReferenced(net, net_refs(comps, net)))
        } else {
            match board_child(doc, "nets"@) {
                Err(e) => Err(e),
                Ok(nets) => if !has_key(nets, net) {
                    Err(EditErr::ItemNotFound(ItemKind::Net, net))
                } else {
                    Ok(without_net_labels(with_board_child(doc, "nets"@, map_remove(nets, net)), net))
                },
            }
        },
    }
}

/// The pins of one component's pins mapping that are connected to `net`, as
/// `component.pin`, appended to `r`.
fn push_pin_refs(r: &mut Vec<String>, comp: &str, pins: &Vec<YamlEntry>, net: &str)
    ensures
        names(final(r)@) == names(old(r)@) + component_net_refs(comp@, entries_of(pins@), net@),
{
    let order = id_order_positions(pins);
    let ghost ps = entries_at(pins@, order@);
    let ghost before = names(r@);
    let mut j: usize = 0;
    while j < order.len()
        invariant
            ps == entries_at(pins@, order@),
            ps == id_order(entries_of(pins@)),
            forall|k: int| 0 <= k < order@.len() ==> #[trigger] order@[k] < pins@.len() && pins@[order@[k] as int].key is Text,
            j <= order@.len(),
            names(r@) == before + refs_of_pins(comp@, ps.subrange(0, j as int), net@),
        decreases order@.len() - j,
    {
        assert(ps.subrange(0, j + 1).drop_last() =~= ps.subrange(0, j as int));
        assert(ps.subrange(0, j + 1).last() == ps[j as int]);
        let idx = order[j];
        assert(order@[j as int] < pins@.len());
        let ghost prevseq = refs_of_pins(comp@, ps.subrange(0, j as int), net@);
        match (&pins[idx].key, &pins[idx].value) {
            (YamlNode::Text(p), YamlNode::Text(n)) => {
                assert(ps[j as int] == (p@, Yaml::Text(n@)));
                if text_eq(n.as_str(), net) {
                    let mut item = str_to_string(comp);
                    push_char(&mut item, '.');
                    item.append(p.as_str());
                    assert(item@ =~= comp@ + seq!['.'] + p@);
                    let ghost old_r = r@;
                    r.push(item);
                    assert(names(r@) =~= names(old_r).push(item@));
                    assert(refs_of_pins(comp@, ps.subrange(0, j + 1), net@) == prevseq.push(item@));
                    assert(names(r@) =~= before + prevseq.push(item@));
                } else {
                    assert(refs_of_pins(comp@, ps.subrange(0, j + 1), net@) == prevseq);
                }
            },
            (_, v) => {
                proof {
                    lemma_text_view(*v);
                }
                assert(refs_of_pins(comp@, ps.subrange(0, j + 1), net@) == prevseq);
            },
        }
        j = j + 1;
    }
    assert(ps.subrange(0, order@.len() as int) =~= ps);
}

/// The pins of component entries that are connected to `net`, as `component.pin`, by
/// component id and then pin name.
pub(crate) fn collect_net_refs(comps: &Vec<YamlEntry>, net: &str) -> (r: Vec<String>)
    ensures
        names(r@) == net_refs(entries_of(comps@), net@),
{
    let order = id_order_positions(comps);
    let ghost cs = entries_at(comps@, order@);
    let mut r: Vec<String> = Vec::new();
    let mut i: usize = 0;
    while i < order.len()
        invariant
            cs == entries_at(comps@, order@),
            cs == id_order(entries_of(comps@)),
            forall|k: int| 0 <= k < order@.len() ==> #[trigger] order@[k] < comps@.len() && comps@[order@[k] as int].key is Text,
            i <= order@.len(),
            names(r@) == refs_of_components(cs.subrange(0, i as int), net@),
        decreases order@.len() - i,
    {
        assert(cs.subrange(0, i + 1).drop_last() =~= cs.subrange(0, i as int));
        assert(cs.subrange(0, i + 1).last() == cs[i as int]);
        let idx = order[i];
        assert(order@[i as int] < comps@.len());
        match (&comps[idx].key, &comps[idx].value) {
            (YamlNode::Text(c), YamlNode::Mapping(cm)) => {
                proof {
                    lemma_map_view(*cm);
                }
                assert(cs[i as int] == (c@, Yaml::Mapping(entries_of(cm@))));
                match map_find(cm, "pins") {
                    Some(k) => match &cm[k].value {
                        YamlNode::Mapping(pins) => {
                            proof {
                                lemma_map_view(*pins);
                            }
                            push_pin_refs(&mut r, c.as_str(), pins, net);
                        },
                        other => {
                            proof {
                                lemma_map_view_not(*other);
                            }
                        },
                    },
                    None => {},
                }
            },
            (_, v) => {
                proof {
                    if !(v is Mapping) {
                        lemma_map_view_not(*v);
                    }
                }
            },
        }
        i = i + 1;
        assert(names(r@) =~= refs_of_components(cs.subrange(0, i as int), net@));
    }
    assert(cs.subrange(0, order@.len() as int) =~= cs);
    r
}

/// A node is a string node exactly when its view is a string.
pub proof fn lemma_text_view(n: YamlNode)
    ensures
        (n@ is Text) == (n is Text),
        n is Text ==> n@ == Yaml::Text(n->Text_0@),
{
}

/// Whether a label node belongs to `net`.
fn is_label_for_net(label: &YamlNode, net: &str) -> (r: bool)
    ensures
        r == label_for_net(label@, net@),
{
    match label {
        YamlNode::Mapping(m) => {
            proof {
                lemma_map_view(*m);
            }
            match map_find(m, "net") {
                Some(k) => crate::doc::node_is_text(&m[k].value, net),
                None => false,
            }
        },
        other => {
            proof {
                lemma_map_view_not(*other);
            }
            false
        },
    }
}

/// Drops the labels of `net` from a label mapping, keeping the order of the rest.
fn drop_labels_for_net(labels: Vec<YamlEntry>, net: &str) -> (r: Vec<YamlEntry>)
    ensures
        entries_of(r@) == labels_without(entries_of(labels@), net@),
{
    let ghost e = entries_of(labels@);
    let mut rest = labels;
    let mut kept: Vec<YamlEntry> = Vec::new();
    let ghost mut done: int = 0;
    assert(entries_of(kept@) =~= labels_without(e.subrange(0, 0), net@));
    while rest.len() > 0
        invariant
            0 <= done <= e.len(),
            entries_of(rest@) == e.subrange(done, e.len() as int),
            entries_of(kept@) == labels_without(e.subrange(0, done), net@),
        decreases rest@.len(),
    {
        let ghost r0 = rest@;
        assert(entries_of(r0).len() == r0.len());
        assert(done < e.len());
        assert(entries_of(r0)[0] == e.subrange(done, e.len() as int)[0]);
        let entry = rest.remove(0);
        assert(entries_of(r0)[0] == e[done]);
        assert(e.subrange(0, done + 1).drop_last() =~= e.subrange(0, done));
        assert(e.subrange(0, done + 1).last() == e[done]);
        if !is_label_for_net(&entry.value, net) {
            let ghost k0 = kept@;
            kept.push(entry);
            assert(entries_of(kept@) =~= entries_of(k0).push(e[done]));
        }
        proof {
            done = done + 1;
        }
        assert forall|k: int| 0 <= k < rest@.len() implies #[trigger] entries_of(rest@)[k]
            == e.subrange(done, e.len() as int)[k] by {
            assert(rest@[k] == r0[k + 1]);
            assert(entries_of(r0)[k + 1] == e.subrange(done - 1, e.len() as int)[k + 1]);
        }
        assert(entries_of(rest@) =~= e.subrange(done, e.len() as int));
    }
    assert(e.subrange(0, done) =~= e);
    kept
}

/// Removes the schematic net labels of `net`.
fn remove_net_labels_for_net(doc: YamlNode, net: &str) -> (r: YamlNode)
    requires
        board_of(doc@) is Ok,
    ensures
        r@ == without_net_labels(doc@, net@),
{
    let ghost d = doc@;
    let mut ob = match open_board(doc) {
        Ok(ob) => ob,
        Err(_) => {
            assert(false);
            return YamlNode::Null;
        },
    };
    let ghost b = entries_of(ob.board@);
    let (i, mut sch) = match open_child(&mut ob.board, "schematic", false) {
        Ok(x) => x,
        Err(_) => {
            proof {
                lemma_with_board_same(d, b);
            }
            return close_board(ob);
        },
    };
    let ghost sv = entries_of(sch@);
    let (j, labels) = match open_child(&mut sch, "net_labels", false) {
        Ok(x) => x,
        Err(_) => {
            assert(entries_of(sch@) == sv);
            close_child(&mut ob.board, i, sch);
            proof {
                lemma_insert_same(b, "schematic"@);
                lemma_with_board_same(d, b);
            }
            return close_board(ob);
        },
    };
    let kept = drop_labels_for_net(labels, net);
    close_child(&mut sch, j, kept);
    close_child(&mut ob.board, i, sch);
    close_board(ob)
}

/// Setting a key to the value it already has changes nothing.
pub proof fn lemma_insert_same(m: Seq<(Yaml, Yaml)>, name: Seq<char>)
    requires
        has_key(m, name),
    ensures
        map_insert(m, name, map_get(m, name).unwrap()) == m,
{
    lemma_key_index(m, name);
    assert(map_insert(m, name, map_get(m, name).unwrap()) =~= m);
}

/// Putting back the board a document already has changes nothing.
pub proof fn lemma_with_board_same(doc: Yaml, b: Seq<(Yaml, Yaml)>)
    requires
        board_of(doc) == Ok::<Seq<(Yaml, Yaml)>, EditErr>(b),
    ensures
        with_board(doc, b) == doc,
{
    match doc {
        Yaml::Mapping(p) => {
            lemma_insert_same(p, "board"@);
        },
        _ => {},
    }
}

/// Removes a net that no component pin uses, and its schematic net labels.
pub fn remove_net_doc(doc: YamlNode, net_id: &str) -> (r: Result<YamlNode, EditError>)
    ensures
        outcome(r) == remove_net_spec(doc@, net_id@),
{
    let refs = match board_table(&doc, "components") {
        Ok(t) => collect_net_refs(t, net_id),
        Err(EditError::MissingBoardField(f)) => {
            let v: Vec<String> = Vec::new();
            assert(names(v@) =~= net_refs(Seq::<(Yaml, Yaml)>::empty(), net_id@));
            v
        },
        Err(e) => return Err(e),
    };
    if refs.len() > 0 {
        return Err(EditError::NetStillReferenced(str_to_string(net_id), refs));
    }
    let mut ob = match open_board(doc) {
        Ok(ob) => ob,
        Err(e) => return Err(e),
    };
    let (i, mut nets) = match open_board_table(&mut ob, "nets") {
        Ok(x) => x,
        Err(e) => return Err(e),
    };
    if map_delete(&mut nets, net_id).is_none() {
        return Err(EditError::ItemNotFound(ItemKind::Net, str_to_string(net_id)));
    }
    close_child(&mut ob.board, i, nets);
    let d = close_board(ob);
    proof {
        lemma_board_of_with_board_child(doc@, "nets"@, entries_of(nets@));
    }
    Ok(remove_net_labels_for_net(d, net_id))
}

/// After writing a board field, the document still has a board mapping.
pub proof fn lemma_board_of_with_board_child(doc: Yaml, field: Seq<char>, c: Seq<(Yaml, Yaml)>)
    requires
        board_of(doc) is Ok,
    ensures
        board_of(with_board_child(doc, field, c)) is Ok,
{
    match doc {
        Yaml::Mapping(p) => {
            let b = board_of(doc)->Ok_0;
            let nb = map_insert(b, field, Yaml::Mapping(c));
            lemma_key_index(p, "board"@);
            let np = map_insert(p, "board"@, Yaml::Mapping(nb));
            let k = key_index(p, "board"@);
            assert(is_key_index(np, "board"@, k));
            crate::doc::lemma_key_index_unique(np, "board"@, k);
            assert(has_key(np, "board"@));
        },
        _ => {},
    }
}

// ---------------------------------------------------------------------------------------
// Schematic styles and wire routes
// ---------------------------------------------------------------------------------------

/// Which side a component's pins are drawn on.
#[derive(Debug, Clone, Copy, PartialEq, Eq, Structural)]
pub enum SketchPinSide {
    Auto,
    Left,
    Right,
}

pub open spec fn pin_side_text(side: SketchPinSide) -> Seq<char> {
    match side {
        SketchPinSide::Auto => "auto"@,
        SketchPinSide::Left => "left"@,
        SketchPinSide::Right => "right"@,
    }
}

impl SketchPinSide {
    pub fn as_str(self) -> (r: &'static str)
        ensures
            r@ == pin_side_text(self),
    {
        match self {
            SketchPinSide::Auto => "auto",
            SketchPinSide::Left => "left",
            SketchPinSide::Right => "right",
        }
    }
}

/// How a component node is drawn: quarter-turn rotation, mirroring and pin side.
#[derive(Debug, Clone, Copy, PartialEq, Eq, Structural)]
pub struct SketchNodeStyle {
    pub rotation_deg: i32,
    pub mirrored: bool,
    pub pin_side: SketchPinSide,
}

impl SketchNodeStyle {
    /// Upright, not mirrored, pins placed automatically.
    pub fn default_style() -> (r: SketchNodeStyle)
        ensures
            r == (SketchNodeStyle { rotation_deg: 0, mirrored: false, pin_side: SketchPinSide::Auto }),
    {
        SketchNodeStyle { rotation_deg: 0, mirrored: false, pin_side: SketchPinSide::Auto }
    }
}

pub open spec fn rotation_ok(rotation_deg: i32) -> bool {
    rotation_deg == 0 || rotation_deg == 90 || rotation_deg == 180 || rotation_deg == 270
}

/// A stored rotation turned into a quarter turn: taken modulo 360, rounded down to 90.
pub open spec fn normalized_rotation(rotation_deg: int) -> int {
    (rotation_deg % 360) / 90 * 90
}

pub fn normalize_rotation_deg(rotation_deg: i32) -> (r: i32)
    ensures
        r == normalized_rotation(rotation_deg as int),
        rotation_ok(r),
{
    let m: i32 = rotation_deg % 360;
    let e: i32 = if m < 0 {
        m + 360
    } else {
        m
    };
    assert(e == (rotation_deg as int) % 360);
    e / 90 * 90
}

pub fn validate_schematic_node_style(style: SketchNodeStyle) -> (r: Result<(), EditError>)
    ensures
        r is Ok <==> rotation_ok(style.rotation_deg),
        r matches Err(e) ==> e@ == EditErr::UnsupportedRotation,
{
    if style.rotation_deg == 0 || style.rotation_deg == 90 || style.rotation_deg == 180
        || style.rotation_deg == 270 {
        Ok(())
    } else {
        Err(EditError::UnsupportedRotation)
    }
}

/// The schematic mapping that records a node style.
pub open spec fn style_mapping(style: SketchNodeStyle) -> Seq<(Yaml, Yaml)> {
    map_insert(
        map_insert(
            single("rotation_deg"@, Yaml::Number(decimal(style.rotation_deg as nat))),
            "mirrored"@,
            Yaml::Bool(style.mirrored),
        ),
        "pin_side"@,
        Yaml::Text(pin_side_text(style.pin_side)),
    )
}

/// The mapping node for a node style.
pub fn schematic_node_style_mapping(style: SketchNodeStyle) -> (r: Result<YamlNode, EditError>)
    ensures
        match r {
            Ok(n) => rotation_ok(style.rotation_deg) && n@ == Yaml::Mapping(style_mapping(style)),
            Err(e) => !rotation_ok(style.rotation_deg) && e@ == EditErr::UnsupportedRotation,
        },
{
    if validate_schematic_node_style(style).is_err() {
        return Err(EditError::UnsupportedRotation);
    }
    let mut m: Vec<YamlEntry> = Vec::new();
    assert(entries_of(m@) =~= Seq::<(Yaml, Yaml)>::empty());
    let rot = decimal_string(style.rotation_deg as u128);
    map_put(&mut m, "rotation_deg", YamlNode::Number(rot));
    map_put(&mut m, "mirrored", YamlNode::Bool(style.mirrored));
    map_put(&mut m, "pin_side", text_node(style.pin_side.as_str()));
    proof {
        lemma_map_view(m);
    }
    Ok(YamlNode::Mapping(m))
}

pub open spec fn style_views(styles: Seq<(String, SketchNodeStyle)>) -> Seq<(Seq<char>, SketchNodeStyle)> {
    styles.map_values(|p: (String, SketchNodeStyle)| (p.0@, p.1))
}

/// The validated component ids of a style batch, in order; the first bad id fails it.
pub open spec fn style_ids(styles: Seq<(Seq<char>, SketchNodeStyle)>) -> Result<Seq<Seq<char>>, EditErr>
    decreases styles.len(),
{
    if styles.len() == 0 {
        Ok(Seq::empty())
    } else {
        match style_ids(styles.drop_last()) {
            Err(e) => Err(e),
            Ok(ids) => match graph_id(styles.last().0, IdRole::Component) {
                Err(e) => Err(e),
                Ok(id) => Ok(ids.push(id)),
            },
        }
    }
}

/// The schematic key of a component node.
pub open spec fn component_node_key(id: Seq<char>) -> Seq<char> {
    "component:"@ + id
}

/// The node styles mapping with the batch written in order.
pub open spec fn styles_written(
    node_styles: Seq<(Yaml, Yaml)>,
    ids: Seq<Seq<char>>,
    styles: Seq<(Seq<char>, SketchNodeStyle)>,
) -> Seq<(Yaml, Yaml)>
    decreases ids.len(),
{
    if ids.len() == 0 || styles.len() != ids.len() {
        node_styles
    } else {
        map_insert(
            styles_written(node_styles, ids.drop_last(), styles.drop_last()),
            component_node_key(ids.last()),
            Yaml::Mapping(style_mapping(styles.last().1)),
        )
    }
}

/// Writing the styles of several components into `board.schematic.node_styles`.
pub open spec fn edit_component_styles_spec(doc: Yaml, styles: Seq<(Seq<char>, SketchNodeStyle)>) -> Result<
    Yaml,
    EditErr,
> {
    if styles.len() == 0 {
        Ok(doc)
    } else {
        match style_ids(styles) {
            Err(e) => Err(e),
            Ok(ids) => if !rotations_ok(styles) {
                Err(EditErr::UnsupportedRotation)
            } else {
                match board_child(doc, "components"@) {
                    Err(e) => Err(e),
                    Ok(comps) => if exists|i: int| 0 <= i < ids.len() && !has_key(comps, #[trigger] ids[i]) {
                        Err(
                            EditErr::ItemNotFound(
                                ItemKind::Component,
                                ids[choose|i: int| 0 <= i < ids.len() && !has_key(comps, #[trigger] ids[i])
                                    && forall|j: int| 0 <= j < i ==> has_key(comps, #[trigger] ids[j])],
                            ),
                        )
                    } else {
                        let b = board_of(doc)->Ok_0;
                        match ensured_child(b, "schematic"@, Section::BoardSchematic) {
                            Err(e) => Err(e),
                            Ok(sch) => match ensured_child(sch, "node_styles"@, Section::SchematicNodeStyles) {
                                Err(e) => Err(e),
                                Ok(ns) => Ok(
                                    with_board(
                                        doc,
                                        map_insert(
                                            b,
                                            "schematic"@,
                                            Yaml::Mapping(
                                                map_insert(
                                                    sch,
                                                    "node_styles"@,
                                                    Yaml::Mapping(styles_written(ns, ids, styles)),
                                                ),
                                            ),
                                        ),
                                    ),
                                ),
                            },
                        }
                    },
                }
            },
        }
    }
}

/// A failure on a prefix of the style batch is the failure of the whole batch.
pub proof fn lemma_style_ids_prefix_err(styles: Seq<(Seq<char>, SketchNodeStyle)>, i: int)
    requires
        0 <= i <= styles.len(),
        style_ids(styles.subrange(0, i)) is Err,
    ensures
        style_ids(styles) == style_ids(styles.subrange(0, i)),
    decreases styles.len() - i,
{
    if i < styles.len() {
        assert(styles.subrange(0, i + 1).drop_last() =~= styles.subrange(0, i));
        lemma_style_ids_prefix_err(styles, i + 1);
    } else {
        assert(styles.subrange(0, i) =~= styles);
    }
}

/// The whole rotation check of a style batch.
pub open spec fn rotations_ok(styles: Seq<(Seq<char>, SketchNodeStyle)>) -> bool {
    forall|i: int| 0 <= i < styles.len() ==> rotation_ok(#[trigger] styles[i].1.rotation_deg)
}

/// Checks a style batch before any document is read: first every component id, in order,
/// then every rotation.
fn validated_style_ids(styles: &Vec<(String, SketchNodeStyle)>) -> (r: Result<Vec<String>, EditError>)
    requires
        styles@.len() > 0,
    ensures
        match r {
            Ok(ids) => style_ids(style_views(styles@)) == Ok::<Seq<Seq<char>>, EditErr>(names(ids@))
                && ids@.len() == styles@.len() && rotations_ok(style_views(styles@)),
            Err(e) => match style_ids(style_views(styles@)) {
                Err(e2) => e@ == e2,
                Ok(_) => e@ == EditErr::UnsupportedRotation && !rotations_ok(style_views(styles@)),
            },
        },
{
    let ghost sv = style_views(styles@);
    let mut ids: Vec<String> = Vec::new();
    assert(sv.subrange(0, 0) =~= Seq::<(Seq<char>, SketchNodeStyle)>::empty());
    assert(names(ids@) =~= Seq::<Seq<char>>::empty());
    let mut i: usize = 0;
    while i < styles.len()
        invariant
            i <= styles@.len(),
            sv == style_views(styles@),
            ids@.len() == i,
            style_ids(sv.subrange(0, i as int)) == Ok::<Seq<Seq<char>>, EditErr>(names(ids@)),
        decreases styles@.len() - i,
    {
        assert(sv.subrange(0, i + 1).drop_last() =~= sv.subrange(0, i as int));
        assert(sv.subrange(0, i + 1).last() == sv[i as int]);
        assert(sv[i as int] == (styles@[i as int].0@, styles@[i as int].1));
        let id = match validated_graph_id(styles[i].0.as_str(), IdRole::Component) {
            Ok(x) => x,
            Err(e) => {
                proof {
                    lemma_style_ids_prefix_err(sv, i + 1);
                }
                return Err(e);
            },
        };
        let ghost old_ids = ids@;
        ids.push(id);
        assert(names(ids@) =~= names(old_ids).push(ids@.last()@));
        i = i + 1;
    }
    assert(sv.subrange(0, styles@.len() as int) =~= sv);
    let mut k: usize = 0;
    while k < styles.len()
        invariant
            k <= styles@.len(),
            sv == style_views(styles@),
            ids@.len() == styles@.len(),
            style_ids(sv) == Ok::<Seq<Seq<char>>, EditErr>(names(ids@)),
            forall|j: int| 0 <= j < k ==> rotation_ok(#[trigger] sv[j].1.rotation_deg),
        decreases styles@.len() - k,
    {
        if validate_schematic_node_style(styles[k].1).is_err() {
            assert(!rotation_ok(sv[k as int].1.rotation_deg));
            return Err(EditError::UnsupportedRotation);
        }
        k = k + 1;
    }
    Ok(ids)
}

/// Writes the styles of several components; every id must name an existing component and
/// every rotation must be a quarter turn.
pub fn edit_component_styles_doc(doc: YamlNode, styles: &Vec<(String, SketchNodeStyle)>) -> (r: Result<
    YamlNode,
    EditError,
>)
    ensures
        outcome(r) == edit_component_styles_spec(doc@, style_views(styles@)),
{
    let ghost sv = style_views(styles@);
    if styles.len() == 0 {
        return Ok(doc);
    }
    let ids = match validated_style_ids(styles) {
        Ok(ids) => ids,
        Err(e) => return Err(e),
    };
    let comps = match board_table(&doc, "components") {
        Ok(t) => t,
        Err(e) => return Err(e),
    };
    let ghost cv = entries_of(comps@);
    let mut q: usize = 0;
    while q < ids.len()
        invariant
            q <= ids@.len(),
            cv == entries_of(comps@),
            sv == style_views(styles@),
            styles@.len() > 0,
            ids@.len() == styles@.len(),
            style_ids(sv) == Ok::<Seq<Seq<char>>, EditErr>(names(ids@)),
            forall|j: int| 0 <= j < styles@.len() ==> rotation_ok(#[trigger] sv[j].1.rotation_deg),
            board_child(doc@, "components"@) == Ok::<Seq<(Yaml, Yaml)>, EditErr>(cv),
            forall|j: int| 0 <= j < q ==> has_key(cv, #[trigger] names(ids@)[j]),
        decreases ids@.len() - q,
    {
        if !map_contains(comps, ids[q].as_str()) {
            let ghost nid = names(ids@);
            assert(!has_key(cv, nid[q as int]));
            let ghost c = choose|j: int|
                0 <= j < nid.len() && !has_key(cv, #[trigger] nid[j]) && forall|t: int|
                    0 <= t < j ==> has_key(cv, #[trigger] nid[t]);
            assert(c == q) by {
                assert(0 <= q < nid.len() && !has_key(cv, nid[q as int]) && forall|t: int|
                    0 <= t < q ==> has_key(cv, #[trigger] nid[t]));
                if c < q {
                    assert(has_key(cv, nid[c]));
                } else if c > q {
                    assert(has_key(cv, nid[q as int]));
                }
            }
            return Err(EditError::ItemNotFound(ItemKind::Component, str_to_string(ids[q].as_str())));
        }
        q = q + 1;
    }
    let mut ob = match open_board(doc) {
        Ok(ob) => ob,
        Err(e) => return Err(e),
    };
    let (si, mut sch) = match open_child(&mut ob.board, "schematic", true) {
        Ok(x) => x,
        Err(_) => return Err(EditError::SectionNotObject(Section::BoardSchematic)),
    };
    let (ni, mut ns) = match open_child(&mut sch, "node_styles", true) {
        Ok(x) => x,
        Err(_) => return Err(EditError::SectionNotObject(Section::SchematicNodeStyles)),
    };
    let ghost ns0 = entries_of(ns@);
    let ghost nid = names(ids@);
    assert(nid.len() == sv.len());
    let mut w: usize = 0;
    assert(nid.subrange(0, 0) =~= Seq::<Seq<char>>::empty());
    while w < ids.len()
        invariant
            w <= ids@.len(),
            ids@.len() == styles@.len(),
            nid == names(ids@),
            sv == style_views(styles@),
            forall|j: int| 0 <= j < styles@.len() ==> rotation_ok(#[trigger] sv[j].1.rotation_deg),
            entries_of(ns@) == styles_written(ns0, nid.subrange(0, w as int), sv.subrange(0, w as int)),
        decreases ids@.len() - w,
    {
        assert(nid.subrange(0, w + 1).drop_last() =~= nid.subrange(0, w as int));
        assert(sv.subrange(0, w + 1).drop_last() =~= sv.subrange(0, w as int));
        assert(rotation_ok(sv[w as int].1.rotation_deg));
        let mut key = str_to_string("component:");
        key.append(ids[w].as_str());
        let node = match schematic_node_style_mapping(styles[w].1) {
            Ok(n) => n,
            Err(e) => return Err(e),
        };
        map_put(&mut ns, key.as_str(), node);
        w = w + 1;
    }
    assert(nid.subrange(0, ids@.len() as int) =~= nid);
    assert(sv.subrange(0, ids@.len() as int) =~= sv);
    close_child(&mut sch, ni, ns);
    close_child(&mut ob.board, si, sch);
    Ok(close_board(ob))
}

/// The position of the first `.` in `s`, when there is one.
pub open spec fn is_first_dot(s: Seq<char>, k: int) -> bool {
    0 <= k < s.len() && s[k] == '.' && forall|j: int| 0 <= j < k ==> #[trigger] s[j] != '.'
}

/// `component.pin`, split at the first `.` of the trimmed text; both parts must be graph ids.
pub open spec fn wire_source_spec(source: Seq<char>) -> Result<(Seq<char>, Seq<char>), EditErr> {
    let t = trim(source);
    if !(exists|k: int| is_first_dot(t, k)) {
        Err(EditErr::WireSourceFormat(source))
    } else {
        let k = choose|k: int| is_first_dot(t, k);
        match graph_id(t.subrange(0, k), IdRole::SourceComponent) {
            Err(e) => Err(e),
            Ok(c) => match graph_id(t.subrange(k + 1, t.len() as int), IdRole::SourcePin) {
                Err(e) => Err(e),
                Ok(p) => Ok((c, p)),
            },
        }
    }
}

/// Splits a wire source `component.pin`.
pub fn parse_wire_source(source: &str) -> (r: Result<(String, String), EditError>)
    ensures
        match r {
            Ok((c, p)) => wire_source_spec(source@) == Ok::<(Seq<char>, Seq<char>), EditErr>(
                (c@, p@),
            ),
            Err(e) => wire_source_spec(source@) == Err::<(Seq<char>, Seq<char>), EditErr>(e@),
        },
{
    let t = trim_str(source);
    let n = char_len(t.as_str());
    let mut k: usize = 0;
    while k < n && char_at(t.as_str(), k) != '.'
        invariant
            n == t@.len(),
            k <= n,
            forall|j: int| 0 <= j < k ==> #[trigger] t@[j] != '.',
        decreases n - k,
    {
        k = k + 1;
    }
    if k == n {
        assert(!(exists|q: int| is_first_dot(t@, q))) by {
            if exists|q: int| is_first_dot(t@, q) {
                let q = choose|q: int| is_first_dot(t@, q);
                assert(t@[q] != '.');
            }
        }
        return Err(EditError::WireSourceFormat(str_to_string(source)));
    }
    assert(is_first_dot(t@, k as int));
    assert((choose|q: int| is_first_dot(t@, q)) == k) by {
        let q = choose|q: int| is_first_dot(t@, q);
        if q < k {
            assert(t@[q] != '.');
        } else if q > k {
            assert(t@[k as int] != '.');
        }
    }
    let left = sub_str(t.as_str(), 0, k);
    let right = sub_str(t.as_str(), k + 1, n);
    let c = match validated_graph_id(left.as_str(), IdRole::SourceComponent) {
        Ok(x) => x,
        Err(e) => return Err(e),
    };
    let p = match validated_graph_id(right.as_str(), IdRole::SourcePin) {
        Ok(x) => x,
        Err(e) => return Err(e),
    };
    Ok((c, p))
}

/// The key of a wire route: `source->net`, both trimmed.
pub open spec fn wire_route_key_spec(source: Seq<char>, net: Seq<char>) -> Seq<char> {
    trim(source) + "->"@ + trim(net)
}

pub fn wire_route_key(source: &str, net_id: &str) -> (r: String)
    ensures
        r@ == wire_route_key_spec(source@, net_id@),
{
    let mut r = trim_str(source);
    r.append("->");
    let n = trim_str(net_id);
    r.append(n.as_str());
    r
}

/// The document without the wire route `key` (unchanged when the board has no schematic
/// wire route mapping).
pub open spec fn without_wire_route(doc: Yaml, key: Seq<char>) -> Yaml {
    match board_of(doc) {
        Ok(b) => match map_get(b, "schematic"@) {
            Some(Yaml::Mapping(sch)) => match map_get(sch, "wire_routes"@) {
                Some(Yaml::Mapping(routes)) => with_board(
                    doc,
                    map_insert(
                        b,
                        "schematic"@,
                        Yaml::Mapping(
                            map_insert(sch, "wire_routes"@, Yaml::Mapping(map_remove(routes, key))),
                        ),
                    ),
                ),
                _ => doc,
            },
            _ => doc,
        },
        _ => doc,
    }
}

/// Removing the route drawn from a pin to its net; the pin must be on that net.
pub open spec fn remove_wire_route_spec(doc: Yaml, source: Seq<char>, net_id: Seq<char>) -> Result<
    Yaml,
    EditErr,
> {
    match wire_source_spec(source) {
        Err(e) => Err(e),
        Ok((c, p)) => match graph_id(net_id, IdRole::Net) {
            Err(e) => Err(e),
            Ok(n) => match board_child(doc, "nets"@) {
                Err(e) => Err(e),
                Ok(nets) => if !has_key(nets, n) {
                    Err(EditErr::ItemNotFound(ItemKind::Net, n))
                } else {
                    match pin_net_spec(doc, c, p) {
                        Err(e) => Err(e),
                        Ok(None) => Err(EditErr::PinNotConnected(source)),
                        Ok(Some(pn)) => if pn != n {
                            Err(EditErr::PinOnOtherNet(source, pn, n))
                        } else {
                            Ok(without_wire_route(doc, wire_route_key_spec(source, n)))
                        },
                    }
                },
            },
        },
    }
}

/// Removes one schematic wire route.
pub fn remove_schematic_wire_route_doc(doc: YamlNode, source: &str, net_id: &str) -> (r: Result<
    YamlNode,
    EditError,
>)
    ensures
        outcome(r) == remove_wire_route_spec(doc@, source@, net_id@),
{
    let (c, p) = match parse_wire_source(source) {
        Ok(x) => x,
        Err(e) => return Err(e),
    };
    let n = match validated_graph_id(net_id, IdRole::Net) {
        Ok(x) => x,
        Err(e) => return Err(e),
    };
    match board_table_has(&doc, "nets", n.as_str()) {
        Err(e) => return Err(e),
        Ok(false) => return Err(EditError::ItemNotFound(ItemKind::Net, n)),
        Ok(true) => {},
    }
    match component_pin_net(&doc, c.as_str(), p.as_str()) {
        Err(e) => return Err(e),
        Ok(None) => return Err(EditError::PinNotConnected(str_to_string(source))),
        Ok(Some(pn)) => {
            if !text_eq(pn.as_str(), n.as_str()) {
                return Err(EditError::PinOnOtherNet(str_to_string(source), pn, n));
            }
        },
    }
    let key = wire_route_key(source, n.as_str());
    assert(trim(n@) == n@) by {
        crate::text::lemma_trim_idempotent(net_id@);
    }
    Ok(remove_route(doc, key.as_str()))
}

/// Removes `key` from the schematic wire routes when that mapping exists.
fn remove_route(doc: YamlNode, key: &str) -> (r: YamlNode)
    requires
        board_of(doc@) is Ok,
    ensures
        r@ == without_wire_route(doc@, key@),
{
    let ghost d = doc@;
    let mut ob = match open_board(doc) {
        Ok(ob) => ob,
        Err(_) => {
            assert(false);
            return YamlNode::Null;
        },
    };
    let ghost b = entries_of(ob.board@);
    let (i, mut sch) = match open_child(&mut ob.board, "schematic", false) {
        Ok(x) => x,
        Err(_) => {
            proof {
                lemma_with_board_same(d, b);
            }
            return close_board(ob);
        },
    };
    let (j, mut routes) = match open_child(&mut sch, "wire_routes", false) {
        Ok(x) => x,
        Err(_) => {
            close_child(&mut ob.board, i, sch);
            proof {
                lemma_insert_same(b, "schematic"@);
                lemma_with_board_same(d, b);
            }
            return close_board(ob);
        },
    };
    map_delete(&mut routes, key);
    close_child(&mut sch, j, routes);
    close_child(&mut ob.board, i, sch);
    close_board(ob)
}

// ---------------------------------------------------------------------------------------
// Editing project text
// ---------------------------------------------------------------------------------------

/// The mathematical form of a text edit's outcome.
pub open spec fn text_outcome(r: Result<String, EditError>) -> Result<Seq<char>, EditErr> {
    match r {
        Ok(s) => Ok(s@),
        Err(e) => Err(e@),
    }
}

/// Editing project text: parse it, edit the document, write it back (a document holding an
/// empty tag cannot be written). A text that is not
/// YAML is refused as not YAML, or as not Board IR for edits that read the project model.
pub open spec fn text_edit(
    text: Seq<char>,
    board_ir: bool,
    edit: spec_fn(Yaml) -> Result<Yaml, EditErr>,
) -> Result<Seq<char>, EditErr> {
    match parsed_yaml(text) {
        None => Err(
            if board_ir {
                EditErr::InvalidBoardIr
            } else {
                EditErr::InvalidYaml
            },
        ),
        Some(d) => match edit(d) {
            Err(e) => Err(e),
            Ok(d2) => match emitted(d2) {
                None => Err(EditErr::EncodeFailed),
                Some(t) => Ok(t),
            },
        },
    }
}

/// Parses project text.
pub fn parse_project(text: &str, board_ir: bool) -> (r: Result<YamlNode, EditError>)
    ensures
        match r {
            Ok(d) => parsed_yaml(text@) == Some(d@),
            Err(e) => parsed_yaml(text@) is None && e@ == (if board_ir {
                EditErr::InvalidBoardIr
            } else {
                EditErr::InvalidYaml
            }),
        },
{
    match parse_yaml(text) {
        Some(d) => Ok(d),
        None => Err(
            if board_ir {
                EditError::InvalidBoardIr
            } else {
                EditError::InvalidYaml
            },
        ),
    }
}

/// Writes an edited document back to text.
pub fn encode_project(r: Result<YamlNode, EditError>) -> (t: Result<String, EditError>)
    ensures
        text_outcome(t) == (match outcome(r) {
            Err(e) => Err(e),
            Ok(d) => match emitted(d) {
                None => Err(EditErr::EncodeFailed),
                Some(s) => Ok(s),
            },
        }),
{
    match r {
        Err(e) => Err(e),
        Ok(d) => match emit_doc(&d) {
            Some(s) => Ok(s),
            None => Err(EditError::EncodeFailed),
        },
    }
}

/// Adds a net to project text.
pub fn add_net(text: &str, net_id: &str, kind: &str) -> (r: Result<String, EditError>)
    ensures
        text_outcome(r) == match graph_id(net_id@, IdRole::Net) {
            Err(e) => Err(e),
            Ok(_) => match net_kind(kind@) {
                Err(e) => Err(e),
                Ok(_) => text_edit(text@, false, |d: Yaml| add_net_spec(d, net_id@, kind@)),
            },
        },
{
    if let Err(e) = validated_graph_id(net_id, IdRole::Net) {
        return Err(e);
    }
    if let Err(e) = normalized_net_kind(kind) {
        return Err(e);
    }
    let d = match parse_project(text, false) {
        Ok(d) => d,
        Err(e) => return Err(e),
    };
    encode_project(add_net_doc(d, net_id, kind))
}

/// Adds a component to project text.
pub fn add_component(text: &str, component_id: &str, model: &str) -> (r: Result<String, EditError>)
    ensures
        text_outcome(r) == match graph_id(component_id@, IdRole::Component) {
            Err(e) => Err(e),
            Ok(_) => if trim(model@).len() == 0 {
                Err(EditErr::BlankModel)
            } else {
                text_edit(text@, false, |d: Yaml| add_component_spec(d, component_id@, model@))
            },
        },
{
    if let Err(e) = validated_graph_id(component_id, IdRole::Component) {
        return Err(e);
    }
    if char_len(trim_str(model).as_str()) == 0 {
        return Err(EditError::BlankModel);
    }
    let d = match parse_project(text, false) {
        Ok(d) => d,
        Err(e) => return Err(e),
    };
    encode_project(add_component_doc(d, component_id, model))
}

/// Adds a component with one new net per port to project text.
pub fn add_component_with_ports(
    text: &str,
    component_id: &str,
    model: &str,
    ports: &Vec<(String, String)>,
) -> (r: Result<String, EditError>)
    ensures
        text_outcome(r) == match graph_id(component_id@, IdRole::Component) {
            Err(e) => Err(e),
            Ok(_) => if trim(model@).len() == 0 {
                Err(EditErr::BlankModel)
            } else {
                text_edit(
                    text@,
                    false,
                    |d: Yaml|
                        add_component_with_ports_spec(d, component_id@, model@, port_views(ports@)),
                )
            },
        },
{
    if let Err(e) = validated_graph_id(component_id, IdRole::Component) {
        return Err(e);
    }
    if char_len(trim_str(model).as_str()) == 0 {
        return Err(EditError::BlankModel);
    }
    let d = match parse_project(text, false) {
        Ok(d) => d,
        Err(e) => return Err(e),
    };
    encode_project(add_component_with_ports_doc(d, component_id, model, ports))
}

/// Removes a component from project text.
pub fn remove_component(text: &str, component_id: &str) -> (r: Result<String, EditError>)
    ensures
        text_outcome(r) == text_edit(
            text@,
            false,
            |d: Yaml| remove_component_spec(d, component_id@),
        ),
{
    let d = match parse_project(text, false) {
        Ok(d) => d,
        Err(e) => return Err(e),
    };
    encode_project(remove_component_doc(d, component_id))
}

/// Sets a component's model in project text.
pub fn edit_component_model(text: &str, component_id: &str, model: &str) -> (r: Result<
    String,
    EditError,
>)
    ensures
        text_outcome(r) == text_edit(
            text@,
            false,
            |d: Yaml| edit_component_model_spec(d, component_id@, model@),
        ),
{
    let d = match parse_project(text, false) {
        Ok(d) => d,
        Err(e) => return Err(e),
    };
    encode_project(edit_component_model_doc(d, component_id, model))
}

/// Sets or clears a component's part number in project text.
pub fn edit_component_part_number(text: &str, component_id: &str, part_number: &str) -> (r:
    Result<String, EditError>)
    ensures
        text_outcome(r) == text_edit(
            text@,
            false,
            |d: Yaml| edit_component_part_number_spec(d, component_id@, part_number@),
        ),
{
    let d = match parse_project(text, false) {
        Ok(d) => d,
        Err(e) => return Err(e),
    };
    encode_project(edit_component_part_number_doc(d, component_id, part_number))
}

/// Sets a net's kind in project text.
pub fn edit_net_kind(text: &str, net_id: &str, kind: &str) -> (r: Result<String, EditError>)
    ensures
        text_outcome(r) == match net_kind(kind@) {
            Err(e) => Err(e),
            Ok(_) => text_edit(text@, false, |d: Yaml| edit_net_kind_spec(d, net_id@, kind@)),
        },
{
    if let Err(e) = normalized_net_kind(kind) {
        return Err(e);
    }
    let d = match parse_project(text, false) {
        Ok(d) => d,
        Err(e) => return Err(e),
    };
    encode_project(edit_net_kind_doc(d, net_id, kind))
}

/// Sets or clears a net's powered flag in project text.
pub fn edit_net_powered(text: &str, net_id: &str, powered: Option<bool>) -> (r: Result<
    String,
    EditError,
>)
    ensures
        text_outcome(r) == text_edit(
            text@,
            false,
            |d: Yaml| edit_net_powered_spec(d, net_id@, powered),
        ),
{
    let d = match parse_project(text, false) {
        Ok(d) => d,
        Err(e) => return Err(e),
    };
    encode_project(edit_net_powered_doc(d, net_id, powered))
}

/// Sets (as a written number) or clears a net's nominal voltage in project text.
pub fn edit_net_nominal_voltage(text: &str, net_id: &str, voltage: Option<String>) -> (r: Result<
    String,
    EditError,
>)
    ensures
        text_outcome(r) == text_edit(
            text@,
            false,
            |d: Yaml| edit_net_nominal_voltage_spec(d, net_id@, match voltage {
                Some(v) => Some(v@),
                None => None,
            }),
        ),
{
    let d = match parse_project(text, false) {
        Ok(d) => d,
        Err(e) => return Err(e),
    };
    encode_project(edit_net_nominal_voltage_doc(d, net_id, voltage))
}

/// Connects a component pin to an existing net in project text.
pub fn assign_component_pin(text: &str, comp: &str, pin: &str, net: &str) -> (r: Result<
    String,
    EditError,
>)
    ensures
        text_outcome(r) == match graph_id(pin@, IdRole::Pin) {
            Err(e) => Err(e),
            Ok(_) => match graph_id(net@, IdRole::Net) {
                Err(e) => Err(e),
                Ok(_) => text_edit(
                    text@,
                    false,
                    |d: Yaml| assign_component_pin_spec(d, comp@, pin@, net@),
                ),
            },
        },
{
    if let Err(e) = validated_graph_id(pin, IdRole::Pin) {
        return Err(e);
    }
    if let Err(e) = validated_graph_id(net, IdRole::Net) {
        return Err(e);
    }
    let d = match parse_project(text, false) {
        Ok(d) => d,
        Err(e) => return Err(e),
    };
    encode_project(assign_component_pin_doc(d, comp, pin, net))
}

/// Removes a pin from a component in project text.
pub fn remove_component_pin(text: &str, comp: &str, pin: &str) -> (r: Result<String, EditError>)
    ensures
        text_outcome(r) == match graph_id(pin@, IdRole::Pin) {
            Err(e) => Err(e),
            Ok(_) => text_edit(text@, false, |d: Yaml| remove_component_pin_spec(d, comp@, pin@)),
        },
{
    if let Err(e) = validated_graph_id(pin, IdRole::Pin) {
        return Err(e);
    }
    let d = match parse_project(text, false) {
        Ok(d) => d,
        Err(e) => return Err(e),
    };
    encode_project(remove_component_pin_doc(d, comp, pin))
}

/// Wires two component pins together in project text.
pub fn connect_component_pins(
    text: &str,
    source_component: &str,
    source_pin: &str,
    target_component: &str,
    target_pin: &str,
) -> (r: Result<String, EditError>)
    ensures
        text_outcome(r) == match graph_id(source_pin@, IdRole::SourcePin) {
            Err(e) => Err(e),
            Ok(s) => match graph_id(target_pin@, IdRole::TargetPin) {
                Err(e) => Err(e),
                Ok(t) => if source_component@ == target_component@ && s == t {
                    Err(EditErr::SelfWire)
                } else {
                    text_edit(
                        text@,
                        true,
                        |d: Yaml|
                            connect_component_pins_spec(
                                d,
                                source_component@,
                                source_pin@,
                                target_component@,
                                target_pin@,
                            ),
                    )
                },
            },
        },
{
    let s = match validated_graph_id(source_pin, IdRole::SourcePin) {
        Ok(x) => x,
        Err(e) => return Err(e),
    };
    let t = match validated_graph_id(target_pin, IdRole::TargetPin) {
        Ok(x) => x,
        Err(e) => return Err(e),
    };
    if text_eq(source_component, target_component) && text_eq(s.as_str(), t.as_str()) {
        return Err(EditError::SelfWire);
    }
    let d = match parse_project(text, true) {
        Ok(d) => d,
        Err(e) => return Err(e),
    };
    encode_project(
        connect_component_pins_doc(d, source_component, source_pin, target_component, target_pin),
    )
}

/// Removes an unused net and its labels from project text.
pub fn remove_net(text: &str, net_id: &str) -> (r: Result<String, EditError>)
    ensures
        text_outcome(r) == text_edit(text@, true, |d: Yaml| remove_net_spec(d, net_id@)),
{
    let d = match parse_project(text, true) {
        Ok(d) => d,
        Err(e) => return Err(e),
    };
    encode_project(remove_net_doc(d, net_id))
}

/// Writes component styles into project text; with no styles the text comes back as it was.
pub fn edit_schematic_component_styles(text: &str, styles: &Vec<(String, SketchNodeStyle)>) -> (r:
    Result<String, EditError>)
    ensures
        styles@.len() == 0 ==> text_outcome(r) == Ok::<Seq<char>, EditErr>(text@),
        styles@.len() > 0 ==> text_outcome(r) == match style_ids(style_views(styles@)) {
            Err(e) => Err(e),
            Ok(_) => if !rotations_ok(style_views(styles@)) {
                Err(EditErr::UnsupportedRotation)
            } else {
                text_edit(
                    text@,
                    true,
                    |d: Yaml| edit_component_styles_spec(d, style_views(styles@)),
                )
            },
        },
{
    if styles.len() == 0 {
        return Ok(str_to_string(text));
    }
    if let Err(e) = validated_style_ids(styles) {
        return Err(e);
    }
    let d = match parse_project(text, true) {
        Ok(d) => d,
        Err(e) => return Err(e),
    };
    encode_project(edit_component_styles_doc(d, styles))
}

/// Writes one component's style into project text.
pub fn edit_schematic_component_style(text: &str, component_id: &str, style: SketchNodeStyle) -> (r:
    Result<String, EditError>)
    ensures
        text_outcome(r) == match graph_id(component_id@, IdRole::Component) {
            Err(e) => Err(e),
            Ok(_) => if !rotation_ok(style.rotation_deg) {
                Err(EditErr::UnsupportedRotation)
            } else {
                text_edit(
                    text@,
                    true,
                    |d: Yaml| edit_component_styles_spec(d, seq![(component_id@, style)]),
                )
            },
        },
{
    let mut v: Vec<(String, SketchNodeStyle)> = Vec::new();
    v.push((str_to_string(component_id), style));
    let ghost sv = style_views(v@);
    assert(sv =~= seq![(component_id@, style)]);
    assert(sv.drop_last() =~= Seq::<(Seq<char>, SketchNodeStyle)>::empty());
    assert(style_ids(sv.drop_last()) == Ok::<Seq<Seq<char>>, EditErr>(Seq::empty()));
    assert(sv.last() == (component_id@, style));
    assert(rotations_ok(sv) == rotation_ok(style.rotation_deg)) by {
        if rotation_ok(style.rotation_deg) {
            assert forall|i: int| 0 <= i < sv.len() implies rotation_ok(#[trigger] sv[i].1.rotation_deg) by {
                assert(i == 0);
            }
        } else {
            assert(!rotation_ok(sv[0].1.rotation_deg));
        }
    }
    edit_schematic_component_styles(text, &v)
}

/// Removes one schematic wire route from project text.
pub fn remove_schematic_wire_route(text: &str, source: &str, net_id: &str) -> (r: Result<
    String,
    EditError,
>)
    ensures
        text_outcome(r) == match wire_source_spec(source@) {
            Err(e) => Err(e),
            Ok(_) => match graph_id(net_id@, IdRole::Net) {
                Err(e) => Err(e),
                Ok(_) => text_edit(
                    text@,
                    true,
                    |d: Yaml| remove_wire_route_spec(d, source@, net_id@),
                ),
            },
        },
{
    if let Err(e) = parse_wire_source(source) {
        return Err(e);
    }
    if let Err(e) = validated_graph_id(net_id, IdRole::Net) {
        return Err(e);
    }
    let d = match parse_project(text, true) {
        Ok(d) => d,
        Err(e) => return Err(e),
    };
    encode_project(remove_schematic_wire_route_doc(d, source, net_id))
}

// ---------------------------------------------------------------------------------------
// Laws of the graph edits
// ---------------------------------------------------------------------------------------

/// Setting a board table: the board then holds it under its name.
pub proof fn lemma_with_board_child(doc: Yaml, field: Seq<char>, c: Seq<(Yaml, Yaml)>)
    requires
        board_of(doc) is Ok,
    ensures
        board_of(with_board_child(doc, field, c)) == Ok::<Seq<(Yaml, Yaml)>, EditErr>(
            map_insert(board_of(doc)->Ok_0, field, Yaml::Mapping(c)),
        ),
        board_child(with_board_child(doc, field, c), field) == Ok::<Seq<(Yaml, Yaml)>, EditErr>(c),
{
    let b = board_of(doc)->Ok_0;
    let nb = map_insert(b, field, Yaml::Mapping(c));
    let p = doc->Mapping_0;
    crate::doc::lemma_get_insert(p, "board"@, Yaml::Mapping(nb));
    crate::doc::lemma_get_insert(b, field, Yaml::Mapping(c));
}

/// Setting a board table twice is setting it once.
pub proof fn lemma_with_board_child_twice(
    doc: Yaml,
    field: Seq<char>,
    c1: Seq<(Yaml, Yaml)>,
    c2: Seq<(Yaml, Yaml)>,
)
    requires
        board_of(doc) is Ok,
    ensures
        with_board_child(with_board_child(doc, field, c1), field, c2) == with_board_child(doc, field, c2),
{
    let b = board_of(doc)->Ok_0;
    let p = doc->Mapping_0;
    lemma_with_board_child(doc, field, c1);
    crate::doc::lemma_insert_insert(b, field, Yaml::Mapping(c1), Yaml::Mapping(c2));
    let nb1 = map_insert(b, field, Yaml::Mapping(c1));
    let nb2 = map_insert(b, field, Yaml::Mapping(c2));
    crate::doc::lemma_insert_insert(p, "board"@, Yaml::Mapping(nb1), Yaml::Mapping(nb2));
}

/// Setting a board table to what it holds changes nothing.
pub proof fn lemma_with_board_child_same(doc: Yaml, field: Seq<char>)
    requires
        board_child(doc, field) is Ok,
    ensures
        with_board_child(doc, field, board_child(doc, field)->Ok_0) == doc,
{
    let b = board_of(doc)->Ok_0;
    lemma_insert_same(b, field);
    lemma_with_board_same(doc, b);
}

/// Adding a component under an id already in normal form to an existing component table,
/// and then removing it, gives back the project.
pub proof fn law_remove_added_component(doc: Yaml, component_id: Seq<char>, model: Seq<char>)
    requires
        graph_id(component_id, IdRole::Component) == Ok::<Seq<char>, EditErr>(component_id),
        trim(model).len() > 0,
        board_child(doc, "components"@) is Ok,
        !has_key(board_child(doc, "components"@)->Ok_0, component_id),
    ensures
        add_component_spec(doc, component_id, model) is Ok,
        remove_component_spec(add_component_spec(doc, component_id, model)->Ok_0, component_id)
            == Ok::<Yaml, EditErr>(doc),
{
    let comps = board_child(doc, "components"@)->Ok_0;
    let v = Yaml::Mapping(single("model"@, Yaml::Text(trim(model))));
    let comps2 = map_insert(comps, component_id, v);
    let d2 = with_board_child(doc, "components"@, comps2);
    assert(add_component_spec(doc, component_id, model) == Ok::<Yaml, EditErr>(d2));
    lemma_with_board_child(doc, "components"@, comps2);
    crate::doc::lemma_get_insert(comps, component_id, v);
    crate::doc::lemma_remove_inserted(comps, component_id, v);
    lemma_with_board_child_twice(doc, "components"@, comps2, comps);
    lemma_with_board_child_same(doc, "components"@);
}

/// After a pin is assigned to a net, reading the pin gives that net (both ids trimmed).
pub proof fn law_assigned_pin_reads_back(doc: Yaml, comp: Seq<char>, pin: Seq<char>, net: Seq<char>)
    requires
        assign_component_pin_spec(doc, comp, pin, net) is Ok,
    ensures
        pin_net_spec(assign_component_pin_spec(doc, comp, pin, net)->Ok_0, comp, trim(pin))
            == Ok::<Option<Seq<char>>, EditErr>(Some(trim(net))),
{
    let p = trim(pin);
    let n = trim(net);
    let comps = board_child(doc, "components"@)->Ok_0;
    let c = named_child(comps, comp, ItemKind::Component)->Ok_0;
    let pins = ensured_child(c, "pins"@, Section::ComponentPins)->Ok_0;
    let pins2 = map_insert(pins, p, Yaml::Text(n));
    let c2 = map_insert(c, "pins"@, Yaml::Mapping(pins2));
    let comps2 = map_insert(comps, comp, Yaml::Mapping(c2));
    lemma_with_board_child(doc, "components"@, comps2);
    crate::doc::lemma_get_insert(comps, comp, Yaml::Mapping(c2));
    crate::doc::lemma_get_insert(c, "pins"@, Yaml::Mapping(pins2));
    crate::doc::lemma_get_insert(pins, p, Yaml::Text(n));
}

/// Normalizing a rotation twice is normalizing it once; a quarter turn is its own normal
/// form.
pub proof fn law_normalized_rotation_stable(rotation_deg: int)
    ensures
        normalized_rotation(normalized_rotation(rotation_deg)) == normalized_rotation(rotation_deg),
        rotation_deg == 0 || rotation_deg == 90 || rotation_deg == 180 || rotation_deg == 270
            ==> normalized_rotation(rotation_deg) == rotation_deg,
{
    let m = rotation_deg % 360;
    assert(0 <= m < 360);
    let r = m / 90 * 90;
    assert(r == 0 || r == 90 || r == 180 || r == 270);
}

/// Whether the board's schematic has a net label for `net`.
pub open spec fn has_net_label(doc: Yaml, net: Seq<char>) -> bool {
    match board_of(doc) {
        Ok(b) => match map_get(b, "schematic"@) {
            Some(Yaml::Mapping(sch)) => match map_get(sch, "net_labels"@) {
                Some(Yaml::Mapping(labels)) => exists|i: int|
                    0 <= i < labels.len() && label_for_net(#[trigger] labels[i].1, net),
                _ => false,
            },
            _ => false,
        },
        _ => false,
    }
}

/// Dropping the labels of a net that has none keeps them all.
proof fn lemma_labels_without_none(labels: Seq<(Yaml, Yaml)>, net: Seq<char>)
    requires
        forall|i: int| 0 <= i < labels.len() ==> !label_for_net(#[trigger] labels[i].1, net),
    ensures
        labels_without(labels, net) == labels,
    decreases labels.len(),
{
    if labels.len() > 0 {
        let p = labels.drop_last();
        assert forall|i: int| 0 <= i < p.len() implies !label_for_net(#[trigger] p[i].1, net) by {
            assert(p[i] == labels[i]);
        }
        lemma_labels_without_none(p, net);
        assert(!label_for_net(labels[labels.len() - 1].1, net));
        assert(p.push(labels.last()) =~= labels);
    }
}

/// Removing the labels of a net that has none changes nothing.
proof fn lemma_without_net_labels_none(doc: Yaml, net: Seq<char>)
    requires
        !has_net_label(doc, net),
    ensures
        without_net_labels(doc, net) == doc,
{
    if let Ok(b) = board_of(doc) {
        if let Some(Yaml::Mapping(sch)) = map_get(b, "schematic"@) {
            if let Some(Yaml::Mapping(labels)) = map_get(sch, "net_labels"@) {
                lemma_labels_without_none(labels, net);
                lemma_insert_same(sch, "net_labels"@);
                lemma_insert_same(b, "schematic"@);
                lemma_with_board_same(doc, b);
            }
        }
    }
}

/// Adding a net under an id already in normal form to an existing net table, and then
/// removing it, gives back the project, when no component pin and no schematic net label
/// refers to that id.
pub proof fn law_remove_added_net(doc: Yaml, net_id: Seq<char>, kind: Seq<char>)
    requires
        graph_id(net_id, IdRole::Net) == Ok::<Seq<char>, EditErr>(net_id),
        net_kind(kind) is Ok,
        board_child(doc, "nets"@) is Ok,
        !has_key(board_child(doc, "nets"@)->Ok_0, net_id),
        ensured_board_child(doc, "components"@) is Ok,
        net_refs(ensured_board_child(doc, "components"@)->Ok_0, net_id).len() == 0,
        !has_net_label(doc, net_id),
    ensures
        add_net_spec(doc, net_id, kind) is Ok,
        remove_net_spec(add_net_spec(doc, net_id, kind)->Ok_0, net_id) == Ok::<Yaml, EditErr>(doc),
{
    reveal_strlit("nets");
    reveal_strlit("components");
    reveal_strlit("schematic");
    assert("nets"@.len() == 4 && "components"@.len() == 10 && "schematic"@.len() == 9);
    let nets = board_child(doc, "nets"@)->Ok_0;
    let k = net_kind(kind)->Ok_0;
    let v = Yaml::Mapping(single("kind"@, Yaml::Text(k)));
    let nets2 = map_insert(nets, net_id, v);
    let d2 = with_board_child(doc, "nets"@, nets2);
    let b = board_of(doc)->Ok_0;
    assert(add_net_spec(doc, net_id, kind) == Ok::<Yaml, EditErr>(d2));
    lemma_with_board_child(doc, "nets"@, nets2);
    crate::doc::lemma_get_insert_other(b, "nets"@, Yaml::Mapping(nets2), "components"@);
    crate::doc::lemma_get_insert_other(b, "nets"@, Yaml::Mapping(nets2), "schematic"@);
    assert(ensured_board_child(d2, "components"@) == ensured_board_child(doc, "components"@));
    crate::doc::lemma_get_insert(nets, net_id, v);
    crate::doc::lemma_remove_inserted(nets, net_id, v);
    let d3 = with_board_child(d2, "nets"@, map_remove(nets2, net_id));
    lemma_with_board_child_twice(doc, "nets"@, nets2, nets);
    lemma_with_board_child_same(doc, "nets"@);
    assert(d3 == doc);
    assert(remove_net_spec(d2, net_id) == Ok::<Yaml, EditErr>(without_net_labels(d3, net_id)));
    lemma_without_net_labels_none(doc, net_id);
}

} // verus!
