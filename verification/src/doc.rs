//! The project document as a YAML tree, and the mapping operations the editors use.
//!
//! Mappings keep their entries in order. Inserting under a present key replaces the value
//! in place; inserting a new key appends it; removing a key moves the last entry into the
//! freed slot (the order `serde_yaml_ng::Mapping::insert` / `remove` keep).
use vstd::prelude::*;
use crate::text::{str_to_string, text_eq};

verus! {

/// A YAML value as the project editors see it. Numbers keep their written form.
#[derive(Debug)]
pub enum YamlNode {
    Null,
    Bool(bool),
    Number(String),
    Text(String),
    List(Vec<YamlNode>),
    Mapping(Vec<YamlEntry>),
    Tagged(String, Box<YamlNode>),
}

/// One key/value pair of a mapping.
#[derive(Debug)]
pub struct YamlEntry {
    pub key: YamlNode,
    pub value: YamlNode,
}

/// The mathematical form of a YAML value.
pub enum Yaml {
    Null,
    Bool(bool),
    Number(Seq<char>),
    Text(Seq<char>),
    List(Seq<Yaml>),
    Mapping(Seq<(Yaml, Yaml)>),
    Tagged(Seq<char>, Box<Yaml>),
}

pub open spec fn yaml_of(n: YamlNode) -> Yaml
    decreases n,
{
    match n {
        YamlNode::Null => Yaml::Null,
        YamlNode::Bool(b) => Yaml::Bool(b),
        YamlNode::Number(s) => Yaml::Number(s@),
        YamlNode::Text(s) => Yaml::Text(s@),
        YamlNode::List(v) => Yaml::List(
            Seq::new(
                v@.len(),
                |i: int|
                    if 0 <= i < v@.len() {
                        yaml_of(v@[i])
                    } else {
                        Yaml::Null
                    },
            ),
        ),
        YamlNode::Mapping(v) => Yaml::Mapping(
            Seq::new(
                v@.len(),
                |i: int|
                    if 0 <= i < v@.len() {
                        (yaml_of(v@[i].key), yaml_of(v@[i].value))
                    } else {
                        (Yaml::Null, Yaml::Null)
                    },
            ),
        ),
        YamlNode::Tagged(t, b) => Yaml::Tagged(t@, Box::new(yaml_of(*b))),
    }
}

impl View for YamlNode {
    type V = Yaml;

    open spec fn view(&self) -> Yaml {
        yaml_of(*self)
    }
}

pub open spec fn list_of(v: Seq<YamlNode>) -> Seq<Yaml> {
    Seq::new(v.len(), |i: int| yaml_of(v[i]))
}

pub open spec fn entries_of(v: Seq<YamlEntry>) -> Seq<(Yaml, Yaml)> {
    Seq::new(v.len(), |i: int| (yaml_of(v[i].key), yaml_of(v[i].value)))
}

pub proof fn lemma_map_view(v: Vec<YamlEntry>)
    ensures
        yaml_of(YamlNode::Mapping(v)) == Yaml::Mapping(entries_of(v@)),
{
    let n = YamlNode::Mapping(v);
    let y = yaml_of(n);
    assert(y is Mapping);
    let s = y->Mapping_0;
    assert(s.len() == v@.len());
    assert forall|i: int| 0 <= i < s.len() implies s[i] == entries_of(v@)[i] by {}
    assert(s =~= entries_of(v@));
}

pub proof fn lemma_list_view(v: Vec<YamlNode>)
    ensures
        yaml_of(YamlNode::List(v)) == Yaml::List(list_of(v@)),
{
    let n = YamlNode::List(v);
    let y = yaml_of(n);
    assert(y is List);
    let s = y->List_0;
    assert(s.len() == v@.len());
    assert forall|i: int| 0 <= i < s.len() implies s[i] == list_of(v@)[i] by {}
    assert(s =~= list_of(v@));
}

/// Every tag in the value is non-empty (YAML has no syntax for an empty tag).
pub open spec fn tags_named(y: Yaml) -> bool
    decreases y,
{
    match y {
        Yaml::List(s) => forall|i: int| 0 <= i < s.len() ==> tags_named(#[trigger] s[i]),
        Yaml::Mapping(m) => forall|i: int|
            0 <= i < m.len() ==> tags_named(#[trigger] m[i].0) && tags_named(m[i].1),
        Yaml::Tagged(t, b) => t.len() > 0 && tags_named(*b),
        _ => true,
    }
}

/// A list has only named tags when each of its items has.
pub proof fn lemma_tags_list(s: Seq<Yaml>)
    ensures
        tags_named(Yaml::List(s)) <==> (forall|k: int| 0 <= k < s.len() ==> tags_named(#[trigger] s[k])),
{
    let y = Yaml::List(s);
    assert forall|k: int| 0 <= k < s.len() implies decreases_to!(y => #[trigger] s[k]) by {
        assert(decreases_to!(y => y->List_0));
        assert(decreases_to!(y->List_0 => y->List_0[k]));
    }
    if forall|k: int| 0 <= k < s.len() ==> tags_named(#[trigger] s[k]) {
        assert(tags_named(y));
    } else {
        let k = choose|k: int| 0 <= k < s.len() && !tags_named(#[trigger] s[k]);
        assert(decreases_to!(y => y->List_0));
        assert(decreases_to!(y->List_0 => y->List_0[k]));
        assert(y->List_0[k] == s[k]);
        assert(!tags_named(y));
    }
}

/// A mapping has only named tags when each of its keys and values has.
pub proof fn lemma_tags_mapping(m: Seq<(Yaml, Yaml)>)
    ensures
        tags_named(Yaml::Mapping(m)) <==> (forall|k: int|
            0 <= k < m.len() ==> tags_named(#[trigger] m[k].0) && tags_named(m[k].1)),
{
    let y = Yaml::Mapping(m);
    assert forall|k: int| 0 <= k < m.len() implies decreases_to!(y => (#[trigger] m[k]).0)
        && decreases_to!(y => m[k].1) by {
        assert(decreases_to!(y => y->Mapping_0));
        assert(decreases_to!(y->Mapping_0 => y->Mapping_0[k]));
        assert(decreases_to!(y->Mapping_0[k] => y->Mapping_0[k].0));
        assert(decreases_to!(y->Mapping_0[k] => y->Mapping_0[k].1));
    }
    if forall|k: int| 0 <= k < m.len() ==> tags_named(#[trigger] m[k].0) && tags_named(m[k].1) {
        assert(tags_named(y));
    } else {
        let k = choose|k: int| 0 <= k < m.len() && !(tags_named(#[trigger] m[k].0) && tags_named(m[k].1));
        assert(decreases_to!(y => y->Mapping_0));
        assert(decreases_to!(y->Mapping_0 => y->Mapping_0[k]));
        assert(decreases_to!(y->Mapping_0[k] => y->Mapping_0[k].0));
        assert(decreases_to!(y->Mapping_0[k] => y->Mapping_0[k].1));
        assert(!tags_named(y));
    }
}

/// Whether every tag in the value is non-empty.
#[verifier::loop_isolation(false)]
pub fn node_tags_named(n: &YamlNode) -> (r: bool)
    ensures
        r == tags_named(n@),
    decreases n,
{
    match n {
        YamlNode::List(v) => {
            proof {
                lemma_list_view(*v);
                lemma_tags_list(list_of(v@));
            }
            let mut i: usize = 0;
            while i < v.len()
                invariant
                    i <= v@.len(),
                    n@ == Yaml::List(list_of(v@)),
                    forall|k: int| 0 <= k < i ==> tags_named(#[trigger] list_of(v@)[k]),
                decreases v@.len() - i,
            {
                assert(decreases_to!(*n => v@[i as int]));
                if !node_tags_named(&v[i]) {
                    let ghost s = list_of(v@);
                    assert(!tags_named(s[i as int]));
                    assert(!tags_named(Yaml::List(s)));
                    return false;
                }
                i = i + 1;
            }
            true
        },
        YamlNode::Mapping(v) => {
            proof {
                lemma_map_view(*v);
                lemma_tags_mapping(entries_of(v@));
            }
            let mut i: usize = 0;
            while i < v.len()
                invariant
                    i <= v@.len(),
                    n@ == Yaml::Mapping(entries_of(v@)),
                    forall|k: int|
                        0 <= k < i ==> tags_named(#[trigger] entries_of(v@)[k].0) && tags_named(
                            entries_of(v@)[k].1,
                        ),
                decreases v@.len() - i,
            {
                assert(decreases_to!(*n => v@[i as int].key));
                assert(decreases_to!(*n => v@[i as int].value));
                if !node_tags_named(&v[i].key) || !node_tags_named(&v[i].value) {
                    assert(!(tags_named(entries_of(v@)[i as int].0) && tags_named(
                        entries_of(v@)[i as int].1,
                    )));
                    let ghost m = entries_of(v@);
                    assert(!tags_named(Yaml::Mapping(m)));
                    return false;
                }
                i = i + 1;
            }
            true
        },
        YamlNode::Tagged(t, b) => t.unicode_len() > 0 && node_tags_named(b),
        _ => true,
    }
}

// ---------------------------------------------------------------------------------------
// Mappings
// ---------------------------------------------------------------------------------------

/// The index of the first entry whose key is the string `name`.
pub open spec fn is_key_index(m: Seq<(Yaml, Yaml)>, name: Seq<char>, i: int) -> bool {
    &&& 0 <= i < m.len()
    &&& m[i].0 == Yaml::Text(name)
    &&& forall|j: int| 0 <= j < i ==> #[trigger] m[j].0 != Yaml::Text(name)
}

pub open spec fn has_key(m: Seq<(Yaml, Yaml)>, name: Seq<char>) -> bool {
    exists|i: int| 0 <= i < m.len() && #[trigger] m[i].0 == Yaml::Text(name)
}

/// The position of key `name` in `m`, or -1 when absent.
pub open spec fn key_index(m: Seq<(Yaml, Yaml)>, name: Seq<char>) -> int {
    if has_key(m, name) {
        choose|i: int| is_key_index(m, name, i)
    } else {
        -1
    }
}

pub proof fn lemma_key_index(m: Seq<(Yaml, Yaml)>, name: Seq<char>)
    ensures
        has_key(m, name) ==> is_key_index(m, name, key_index(m, name)),
        !has_key(m, name) ==> key_index(m, name) == -1,
{
    if has_key(m, name) {
        let i0 = choose|i: int| 0 <= i < m.len() && #[trigger] m[i].0 == Yaml::Text(name);
        lemma_least_key(m, name, i0, 0);
    }
}

proof fn lemma_least_key(m: Seq<(Yaml, Yaml)>, name: Seq<char>, i0: int, lo: int)
    requires
        0 <= lo <= i0 < m.len(),
        m[i0].0 == Yaml::Text(name),
        forall|j: int| 0 <= j < lo ==> #[trigger] m[j].0 != Yaml::Text(name),
    ensures
        exists|i: int| is_key_index(m, name, i),
    decreases i0 - lo,
{
    if m[lo].0 == Yaml::Text(name) {
        assert(is_key_index(m, name, lo));
    } else {
        lemma_least_key(m, name, i0, lo + 1);
    }
}

pub proof fn lemma_key_index_unique(m: Seq<(Yaml, Yaml)>, name: Seq<char>, i: int)
    requires
        is_key_index(m, name, i),
    ensures
        key_index(m, name) == i,
{
    lemma_key_index(m, name);
    let k = key_index(m, name);
    if k < i {
        assert(m[k].0 != Yaml::Text(name));
    } else if k > i {
        assert(m[i].0 != Yaml::Text(name));
    }
}

/// The value under key `name`.
pub open spec fn map_get(m: Seq<(Yaml, Yaml)>, name: Seq<char>) -> Option<Yaml> {
    if has_key(m, name) {
        Some(m[key_index(m, name)].1)
    } else {
        None
    }
}

/// `m` with `name` set to `v`: replaced in place when present, appended otherwise.
pub open spec fn map_insert(m: Seq<(Yaml, Yaml)>, name: Seq<char>, v: Yaml) -> Seq<(Yaml, Yaml)> {
    if has_key(m, name) {
        m.update(key_index(m, name), (m[key_index(m, name)].0, v))
    } else {
        m.push((Yaml::Text(name), v))
    }
}

/// `m` without key `name`; the last entry takes the freed position.
pub open spec fn map_remove(m: Seq<(Yaml, Yaml)>, name: Seq<char>) -> Seq<(Yaml, Yaml)> {
    if has_key(m, name) {
        m.update(key_index(m, name), m.last()).drop_last()
    } else {
        m
    }
}

/// `m` with `name` set to `v`, or removed when there is no value.
pub open spec fn map_set_or_remove(m: Seq<(Yaml, Yaml)>, name: Seq<char>, v: Option<Yaml>) -> Seq<
    (Yaml, Yaml),
> {
    match v {
        Some(v) => map_insert(m, name, v),
        None => map_remove(m, name),
    }
}

/// The keys of a mapping that are strings, in order, with other keys left out.
pub open spec fn text_keys(m: Seq<(Yaml, Yaml)>) -> Seq<Seq<char>>
    decreases m.len(),
{
    if m.len() == 0 {
        Seq::empty()
    } else {
        let prev = text_keys(m.drop_last());
        match m.last().0 {
            Yaml::Text(s) => prev.push(s),
            _ => prev,
        }
    }
}

pub proof fn lemma_text_keys_has_key(m: Seq<(Yaml, Yaml)>, name: Seq<char>)
    ensures
        text_keys(m).contains(name) <==> has_key(m, name),
    decreases m.len(),
{
    if m.len() > 0 {
        let p = m.drop_last();
        lemma_text_keys_has_key(p, name);
        let last = m.len() - 1;
        assert(has_key(m, name) <==> (has_key(p, name) || m[last].0 == Yaml::Text(name))) by {
            if has_key(p, name) {
                let i = choose|i: int| 0 <= i < p.len() && #[trigger] p[i].0 == Yaml::Text(name);
                assert(m[i].0 == Yaml::Text(name));
            }
            if has_key(m, name) {
                let i = choose|i: int| 0 <= i < m.len() && #[trigger] m[i].0 == Yaml::Text(name);
                if i < last {
                    assert(p[i].0 == Yaml::Text(name));
                }
            }
        }
        match m.last().0 {
            Yaml::Text(s) => {
                let tp = text_keys(p);
                assert(text_keys(m) == tp.push(s));
                assert(tp.push(s).contains(name) <==> (tp.contains(name) || s == name)) by {
                    if tp.contains(name) {
                        let k = choose|k: int| 0 <= k < tp.len() && tp[k] == name;
                        assert(tp.push(s)[k] == name);
                    }
                    if s == name {
                        assert(tp.push(s)[tp.len() as int] == name);
                    }
                    if tp.push(s).contains(name) {
                        let k = choose|k: int| 0 <= k < tp.push(s).len() && tp.push(s)[k] == name;
                        if k < tp.len() {
                            assert(tp[k] == name);
                        }
                    }
                }
            },
            _ => {
                assert(text_keys(m) == text_keys(p));
            },
        }
    }
}

/// An empty mapping node.
pub fn empty_map() -> (r: YamlNode)
    ensures
        r@ == Yaml::Mapping(Seq::empty()),
{
    let v: Vec<YamlEntry> = Vec::new();
    proof {
        lemma_map_view(v);
        assert(entries_of(v@) =~= Seq::<(Yaml, Yaml)>::empty());
    }
    YamlNode::Mapping(v)
}

/// A string node.
pub fn text_node(s: &str) -> (r: YamlNode)
    ensures
        r@ == Yaml::Text(s@),
{
    YamlNode::Text(str_to_string(s))
}

/// Whether `node` is the string `name`.
pub fn node_is_text(node: &YamlNode, name: &str) -> (r: bool)
    ensures
        r == (node@ == Yaml::Text(name@)),
{
    match node {
        YamlNode::Text(s) => text_eq(s.as_str(), name),
        _ => false,
    }
}

/// The position of key `name`, if present.
pub fn map_find(m: &Vec<YamlEntry>, name: &str) -> (r: Option<usize>)
    ensures
        r is Some <==> has_key(entries_of(m@), name@),
        r matches Some(i) ==> i == key_index(entries_of(m@), name@) && is_key_index(
            entries_of(m@),
            name@,
            i as int,
        ),
{
    let ghost e = entries_of(m@);
    let mut i: usize = 0;
    while i < m.len()
        invariant
            e == entries_of(m@),
            i <= m.len(),
            forall|j: int| 0 <= j < i ==> #[trigger] e[j].0 != Yaml::Text(name@),
        decreases m.len() - i,
    {
        if node_is_text(&m[i].key, name) {
            assert(e[i as int].0 == Yaml::Text(name@));
            assert(is_key_index(e, name@, i as int));
            proof {
                lemma_key_index_unique(e, name@, i as int);
            }
            return Some(i);
        }
        i = i + 1;
    }
    proof {
        if has_key(e, name@) {
            let k = choose|k: int| 0 <= k < e.len() && #[trigger] e[k].0 == Yaml::Text(name@);
            assert(e[k].0 != Yaml::Text(name@));
        }
    }
    None
}

/// Whether the mapping has key `name`.
pub fn map_contains(m: &Vec<YamlEntry>, name: &str) -> (r: bool)
    ensures
        r == has_key(entries_of(m@), name@),
{
    map_find(m, name).is_some()
}

/// Sets key `name` to `value`.
pub fn map_put(m: &mut Vec<YamlEntry>, name: &str, value: YamlNode)
    ensures
        entries_of(final(m)@) == map_insert(entries_of(old(m)@), name@, value@),
{
    let ghost e = entries_of(m@);
    match map_find(m, name) {
        Some(i) => {
            let mut entry = YamlEntry { key: YamlNode::Null, value: YamlNode::Null };
            m.set_and_swap(i, &mut entry);
            entry.value = value;
            m.set_and_swap(i, &mut entry);
            assert(entries_of(m@) =~= e.update(i as int, (e[i as int].0, value@)));
        },
        None => {
            m.push(YamlEntry { key: text_node(name), value });
            assert(entries_of(m@) =~= e.push((Yaml::Text(name@), value@)));
        },
    }
}

/// Removes key `name`, handing back its value when it was present.
pub fn map_delete(m: &mut Vec<YamlEntry>, name: &str) -> (r: Option<YamlNode>)
    ensures
        entries_of(final(m)@) == map_remove(entries_of(old(m)@), name@),
        r is Some <==> has_key(entries_of(old(m)@), name@),
        r matches Some(v) ==> Some(v@) == map_get(entries_of(old(m)@), name@),
{
    let ghost e = entries_of(m@);
    match map_find(m, name) {
        Some(i) => {
            let entry = m.swap_remove(i);
            assert(entries_of(m@) =~= e.update(i as int, e.last()).drop_last());
            Some(entry.value)
        },
        None => None,
    }
}

/// Sets key `name` to the value given, or removes it when there is none.
pub fn map_set_or_delete(m: &mut Vec<YamlEntry>, name: &str, value: Option<YamlNode>)
    ensures
        entries_of(final(m)@) == map_set_or_remove(
            entries_of(old(m)@),
            name@,
            match value {
                Some(v) => Some(v@),
                None => None,
            },
        ),
{
    match value {
        Some(v) => map_put(m, name, v),
        None => {
            map_delete(m, name);
        },
    }
}

/// Takes the value under key `name` out of the mapping, leaving null in its place.
pub fn map_take(m: &mut Vec<YamlEntry>, i: usize) -> (r: YamlNode)
    requires
        i < old(m)@.len(),
    ensures
        r == old(m)@[i as int].value,
        final(m)@ == old(m)@.update(
            i as int,
            YamlEntry { key: old(m)@[i as int].key, value: YamlNode::Null },
        ),
{
    let mut entry = YamlEntry { key: YamlNode::Null, value: YamlNode::Null };
    m.set_and_swap(i, &mut entry);
    let YamlEntry { key, value } = entry;
    let mut back = YamlEntry { key, value: YamlNode::Null };
    m.set_and_swap(i, &mut back);
    value
}

/// Puts `value` back under the key at position `i`.
pub fn map_restore(m: &mut Vec<YamlEntry>, i: usize, value: YamlNode)
    requires
        i < old(m)@.len(),
    ensures
        entries_of(final(m)@) == entries_of(old(m)@).update(
            i as int,
            (entries_of(old(m)@)[i as int].0, value@),
        ),
        final(m)@.len() == old(m)@.len(),
{
    let ghost e = entries_of(m@);
    let mut entry = YamlEntry { key: YamlNode::Null, value: YamlNode::Null };
    m.set_and_swap(i, &mut entry);
    entry.value = value;
    m.set_and_swap(i, &mut entry);
    assert(entries_of(m@) =~= e.update(i as int, (e[i as int].0, value@)));
}

/// The string keys of a mapping, in order.
pub fn map_text_keys(m: &Vec<YamlEntry>) -> (r: Vec<String>)
    ensures
        r@.map_values(|s: String| s@) == text_keys(entries_of(m@)),
{
    let ghost e = entries_of(m@);
    let mut r: Vec<String> = Vec::new();
    let mut i: usize = 0;
    while i < m.len()
        invariant
            e == entries_of(m@),
            i <= m.len(),
            r@.map_values(|s: String| s@) == text_keys(e.subrange(0, i as int)),
        decreases m.len() - i,
    {
        assert(e.subrange(0, i + 1).drop_last() =~= e.subrange(0, i as int));
        match &m[i].key {
            YamlNode::Text(s) => {
                r.push(str_to_string(s.as_str()));
            },
            _ => {},
        }
        i = i + 1;
        assert(r@.map_values(|s: String| s@) =~= text_keys(e.subrange(0, i as int)));
    }
    assert(e.subrange(0, m.len() as int) =~= e);
    r
}

// ---------------------------------------------------------------------------------------
// Reading fields
// ---------------------------------------------------------------------------------------

/// The value under key `key` of a mapping value.
pub open spec fn field(y: Yaml, key: Seq<char>) -> Option<Yaml> {
    match y {
        Yaml::Mapping(m) => map_get(m, key),
        _ => None,
    }
}

/// The string under key `key` of a mapping value.
pub open spec fn text_field(y: Yaml, key: Seq<char>) -> Option<Seq<char>> {
    match field(y, key) {
        Some(Yaml::Text(t)) => Some(t),
        _ => None,
    }
}

/// The string under key `key`, or the empty string.
pub open spec fn text_or_empty(y: Yaml, key: Seq<char>) -> Seq<char> {
    match text_field(y, key) {
        Some(t) => t,
        None => Seq::empty(),
    }
}

/// The list under key `key` of a mapping value; empty when there is none.
pub open spec fn list_field(y: Yaml, key: Seq<char>) -> Seq<Yaml> {
    match field(y, key) {
        Some(Yaml::List(l)) => l,
        _ => Seq::empty(),
    }
}

/// The value under key `key`, read in place.
pub fn node_field<'a>(n: &'a YamlNode, key: &str) -> (r: Option<&'a YamlNode>)
    ensures
        match r {
            Some(v) => field(n@, key@) == Some(v@),
            None => field(n@, key@) is None,
        },
{
    match n {
        YamlNode::Mapping(m) => {
            proof {
                lemma_map_view(*m);
            }
            match map_find(m, key) {
                Some(i) => Some(&m[i].value),
                None => None,
            }
        },
        _ => None,
    }
}

/// The string under key `key`, read in place.
pub fn node_text_field<'a>(n: &'a YamlNode, key: &str) -> (r: Option<&'a String>)
    ensures
        match r {
            Some(s) => text_field(n@, key@) == Some(s@),
            None => text_field(n@, key@) is None,
        },
{
    match node_field(n, key) {
        Some(YamlNode::Text(s)) => Some(s),
        _ => None,
    }
}

/// The list under key `key`, read in place.
pub fn node_list_field<'a>(n: &'a YamlNode, key: &str) -> (r: Option<&'a Vec<YamlNode>>)
    ensures
        match r {
            Some(v) => list_field(n@, key@) == list_of(v@) && field(n@, key@) == Some(
                Yaml::List(list_of(v@)),
            ),
            None => list_field(n@, key@) == Seq::<Yaml>::empty() && !(field(n@, key@) matches Some(
                Yaml::List(_),
            )),
        },
{
    match node_field(n, key) {
        Some(YamlNode::List(v)) => {
            proof {
                lemma_list_view(*v);
            }
            Some(v)
        },
        _ => None,
    }
}

/// Takes the value under key `name` out of the mapping (adding the key with a null value
/// when absent), so that it can be changed and put back with [`map_restore`].
pub fn take_field(m: &mut Vec<YamlEntry>, name: &str) -> (r: (usize, YamlNode))
    ensures
        r.0 < final(m)@.len(),
        r.1@ == (match map_get(entries_of(old(m)@), name@) {
            Some(v) => v,
            None => Yaml::Null,
        }),
        forall|x: Yaml|
            #![trigger map_insert(entries_of(old(m)@), name@, x)]
            entries_of(final(m)@).update(r.0 as int, (entries_of(final(m)@)[r.0 as int].0, x))
                == map_insert(entries_of(old(m)@), name@, x),
{
    let ghost e = entries_of(m@);
    match map_find(m, name) {
        Some(i) => {
            let v = map_take(m, i);
            assert(entries_of(m@) =~= e.update(i as int, (e[i as int].0, Yaml::Null)));
            assert forall|x: Yaml|
                #![trigger map_insert(e, name@, x)]
                entries_of(m@).update(i as int, (entries_of(m@)[i as int].0, x)) == map_insert(
                    e,
                    name@,
                    x,
                ) by {
                assert(entries_of(m@).update(i as int, (entries_of(m@)[i as int].0, x))
                    =~= map_insert(e, name@, x));
            }
            (i, v)
        },
        None => {
            let i = m.len();
            m.push(YamlEntry { key: text_node(name), value: YamlNode::Null });
            assert(entries_of(m@) =~= e.push((Yaml::Text(name@), Yaml::Null)));
            assert forall|x: Yaml|
                #![trigger map_insert(e, name@, x)]
                entries_of(m@).update(i as int, (entries_of(m@)[i as int].0, x)) == map_insert(
                    e,
                    name@,
                    x,
                ) by {
                assert(entries_of(m@).update(i as int, (entries_of(m@)[i as int].0, x))
                    =~= map_insert(e, name@, x));
            }
            (i, YamlNode::Null)
        },
    }
}

/// After setting `name` to `v`, the mapping holds `v` under `name`.
pub proof fn lemma_get_insert(m: Seq<(Yaml, Yaml)>, name: Seq<char>, v: Yaml)
    ensures
        map_get(map_insert(m, name, v), name) == Some(v),
        has_key(map_insert(m, name, v), name),
        key_index(map_insert(m, name, v), name) == (if has_key(m, name) {
            key_index(m, name)
        } else {
            m.len() as int
        }),
{
    let m2 = map_insert(m, name, v);
    lemma_key_index(m, name);
    if has_key(m, name) {
        let k = key_index(m, name);
        assert(is_key_index(m2, name, k)) by {
            assert forall|j: int| 0 <= j < k implies #[trigger] m2[j].0 != Yaml::Text(name) by {
                assert(m2[j] == m[j]);
            }
        }
        lemma_key_index_unique(m2, name, k);
    } else {
        let k = m.len() as int;
        assert(is_key_index(m2, name, k)) by {
            assert forall|j: int| 0 <= j < k implies #[trigger] m2[j].0 != Yaml::Text(name) by {
                assert(m2[j] == m[j]);
            }
        }
        lemma_key_index_unique(m2, name, k);
    }
}

/// Setting `name` leaves the other keys as they were.
pub proof fn lemma_get_insert_other(m: Seq<(Yaml, Yaml)>, name: Seq<char>, v: Yaml, other: Seq<char>)
    requires
        other != name,
    ensures
        map_get(map_insert(m, name, v), other) == map_get(m, other),
        has_key(map_insert(m, name, v), other) == has_key(m, other),
{
    let m2 = map_insert(m, name, v);
    lemma_key_index(m, name);
    lemma_key_index(m, other);
    let k = key_index(m, name);
    assert(forall|j: int| 0 <= j < m.len() ==> (#[trigger] m2[j]).0 == m[j].0);
    assert(has_key(m2, other) == has_key(m, other)) by {
        if has_key(m, other) {
            let j = choose|j: int| 0 <= j < m.len() && #[trigger] m[j].0 == Yaml::Text(other);
            assert(m2[j].0 == Yaml::Text(other));
        }
        if has_key(m2, other) {
            let j = choose|j: int| 0 <= j < m2.len() && #[trigger] m2[j].0 == Yaml::Text(other);
            if j < m.len() {
                assert(m[j].0 == Yaml::Text(other));
            } else {
                assert(m2[j].0 == Yaml::Text(name));
            }
        }
    }
    if has_key(m, other) {
        let q = key_index(m, other);
        assert(q != k || !has_key(m, name)) by {
            if has_key(m, name) && q == k {
                assert(m[q].0 == Yaml::Text(other));
                assert(m[k].0 == Yaml::Text(name));
            }
        }
        assert(is_key_index(m2, other, q)) by {
            assert forall|j: int| 0 <= j < q implies #[trigger] m2[j].0 != Yaml::Text(other) by {
                assert(m2[j].0 == m[j].0);
            }
        }
        lemma_key_index_unique(m2, other, q);
        assert(m2[q] == m[q]);
    }
}

/// Setting a key twice is setting it once to the second value.
pub proof fn lemma_insert_insert(m: Seq<(Yaml, Yaml)>, name: Seq<char>, v: Yaml, w: Yaml)
    ensures
        map_insert(map_insert(m, name, v), name, w) == map_insert(m, name, w),
{
    lemma_get_insert(m, name, v);
    lemma_key_index(m, name);
    assert(map_insert(map_insert(m, name, v), name, w) =~= map_insert(m, name, w));
}

/// Removing a key that was just added gives back the mapping.
pub proof fn lemma_remove_inserted(m: Seq<(Yaml, Yaml)>, name: Seq<char>, v: Yaml)
    requires
        !has_key(m, name),
    ensures
        map_remove(map_insert(m, name, v), name) == m,
{
    lemma_get_insert(m, name, v);
    assert(map_remove(map_insert(m, name, v), name) =~= m);
}

} // verus!
