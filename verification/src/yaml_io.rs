//! Reading and writing project YAML text with `serde_yaml_ng`.
use vstd::prelude::*;
use crate::doc::{Yaml, YamlEntry, YamlNode, node_tags_named, tags_named};
use serde_yaml_ng::value::{Tag, TaggedValue};
use serde_yaml_ng::{Mapping, Value};

verus! {

#[verifier::external_type_specification]
#[verifier::external_body]
pub struct ExYamlValue(Value);

/// The YAML value that `serde_yaml_ng` reads from `text`, or none when the text is not YAML.
pub uninterp spec fn parsed_yaml(text: Seq<char>) -> Option<Yaml>;

/// The text that `serde_yaml_ng` writes for a YAML value, or none when it refuses it.
pub uninterp spec fn emitted_yaml(doc: Yaml) -> Option<Seq<char>>;

/// Parses YAML text with `serde_yaml_ng::from_str` into a `serde_yaml_ng::Value` and hands
/// it over as a [`YamlNode`]; claims that the result is the parse of this text, and that its
/// tags are non-empty (a tag is handed over as its `Display` text, which starts with `!`).
#[verifier::external_body]
pub(crate) fn parse_yaml(text: &str) -> (r: Option<YamlNode>)
    ensures
        match r {
            Some(n) => parsed_yaml(text@) == Some(n@) && tags_named(n@),
            None => parsed_yaml(text@) is None,
        },
{
    serde_yaml_ng::from_str::<Value>(text).ok().map(yaml_node_from_value)
}

/// Writes a YAML value with `serde_yaml_ng::to_string`; claims only that the result is the
/// text written for this value. Every tag must be non-empty: `Tag::new` panics on an empty
/// one.
#[verifier::external_body]
pub(crate) fn emit_yaml(doc: &YamlNode) -> (r: Option<String>)
    requires
        tags_named(doc@),
    ensures
        match r {
            Some(s) => emitted_yaml(doc@) == Some(s@),
            None => emitted_yaml(doc@) is None,
        },
{
    serde_yaml_ng::to_string(&yaml_value_from_node(doc)?).ok()
}

/// The text a document is written as: none when it holds an empty tag (YAML cannot write
/// one) or when `serde_yaml_ng` refuses it.
pub open spec fn emitted(doc: Yaml) -> Option<Seq<char>> {
    if tags_named(doc) {
        emitted_yaml(doc)
    } else {
        None
    }
}

/// Writes a document as YAML text, refusing one that holds an empty tag.
pub fn emit_doc(doc: &YamlNode) -> (r: Option<String>)
    ensures
        match r {
            Some(s) => emitted(doc@) == Some(s@),
            None => emitted(doc@) is None,
        },
{
    if node_tags_named(doc) {
        emit_yaml(doc)
    } else {
        None
    }
}

/// Turns a `serde_yaml_ng::Value` into a [`YamlNode`], variant by variant; numbers keep the
/// text that `serde_yaml_ng` prints for them and tags their `!` form.
#[verifier::external_body]
fn yaml_node_from_value(v: Value) -> YamlNode {
    match v {
        Value::Null => YamlNode::Null,
        Value::Bool(b) => YamlNode::Bool(b),
        Value::Number(n) => YamlNode::Number(n.to_string()),
        Value::String(s) => YamlNode::Text(s),
        Value::Sequence(items) => YamlNode::List(items.into_iter().map(yaml_node_from_value).collect()),
        Value::Mapping(m) => YamlNode::Mapping(m.into_iter().map(|(k, x)| YamlEntry { key: yaml_node_from_value(k), value: yaml_node_from_value(x) }).collect()),
        Value::Tagged(t) => YamlNode::Tagged(t.tag.to_string(), Box::new(yaml_node_from_value(t.value))),
    }
}

/// Turns a [`YamlNode`] back into a `serde_yaml_ng::Value`, variant by variant; none when a
/// number's text does not parse as a `serde_yaml_ng::Number`. Every tag must be non-empty.
#[verifier::external_body]
fn yaml_value_from_node(n: &YamlNode) -> Option<Value>
    requires
        tags_named(n@),
{
    Some(match n {
        YamlNode::Null => Value::Null,
        YamlNode::Bool(b) => Value::Bool(*b),
        YamlNode::Number(s) => Value::Number(s.parse().ok()?),
        YamlNode::Text(s) => Value::String(s.clone()),
        YamlNode::List(items) => Value::Sequence(items.iter().map(yaml_value_from_node).collect::<Option<_>>()?),
        YamlNode::Mapping(m) => Value::Mapping(m.iter().map(|e| Some((yaml_value_from_node(&e.key)?, yaml_value_from_node(&e.value)?))).collect::<Option<Mapping>>()?),
        YamlNode::Tagged(t, x) => tagged_value(t, x)?,
    })
}

/// Turns a tag and a [`YamlNode`] into a tagged `serde_yaml_ng::Value`; `Tag::new` panics on
/// an empty tag, so the tag must be non-empty.
#[verifier::external_body]
fn tagged_value(tag: &String, n: &YamlNode) -> Option<Value>
    requires
        tag@.len() > 0,
        tags_named(n@),
{
    Some(Value::Tagged(Box::new(TaggedValue { tag: Tag::new(tag.clone()), value: yaml_value_from_node(n)? })))
}

} // verus!
