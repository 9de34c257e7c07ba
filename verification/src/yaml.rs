//! YAML documents as plain values, read and written with serde_yaml.
use vstd::prelude::*;

use serde_yaml::Value;

use crate::error::HimitsuError;
use crate::text::copy_string;

verus! {

#[verifier::external_type_specification]
#[verifier::external_body]
pub struct ExYamlValue(serde_yaml::Value);

/// A YAML value: the shapes serde_yaml reads and writes.
#[derive(Debug, PartialEq, Eq)]
pub enum YamlNode {
    Null,
    Bool(bool),
    /// A number, as serde_yaml prints it.
    Number(String),
    Str(String),
    Sequence(Vec<YamlNode>),
    /// Key/value pairs in document order.
    Mapping(Vec<(YamlNode, YamlNode)>),
    /// A `!tag` (written with its `!`) and the tagged value.
    Tagged(String, Box<YamlNode>),
}

/// The mathematical shape of a YAML value.
pub enum YamlView {
    Null,
    Bool(bool),
    Number(Seq<char>),
    Str(Seq<char>),
    Sequence(Seq<YamlView>),
    Mapping(Seq<(YamlView, YamlView)>),
    Tagged(Seq<char>, Box<YamlView>),
}

impl YamlNode {
    /// The value with its strings by their characters.
    pub open spec fn view(&self) -> YamlView
        decreases self,
    {
        match self {
            YamlNode::Null => YamlView::Null,
            YamlNode::Bool(b) => YamlView::Bool(*b),
            YamlNode::Number(t) => YamlView::Number(t@),
            YamlNode::Str(s) => YamlView::Str(s@),
            YamlNode::Sequence(xs) => {
                proof {
                    assert forall|i: int| 0 <= i < xs@.len() implies decreases_to!(self => xs@[i]) by {
                        assert(decreases_to!(self => *xs));
                        assert(decreases_to!(*xs => xs@));
                        assert(decreases_to!(xs@ => xs@[i]));
                    }
                }
                YamlView::Sequence(
                    Seq::new(
                        xs@.len(),
                        |i: int|
                            if 0 <= i < xs@.len() {
                                xs@[i].view()
                            } else {
                                YamlView::Null
                            },
                    ),
                )
            },
            YamlNode::Mapping(ps) => {
                proof {
                    assert forall|i: int| 0 <= i < ps@.len() implies decreases_to!(self => ps@[i].0)
                        && decreases_to!(self => ps@[i].1) by {
                        assert(decreases_to!(self => *ps));
                        assert(decreases_to!(*ps => ps@));
                        assert(decreases_to!(ps@ => ps@[i]));
                        assert(decreases_to!(ps@[i] => ps@[i].0));
                        assert(decreases_to!(ps@[i] => ps@[i].1));
                    }
                }
                YamlView::Mapping(
                    Seq::new(
                        ps@.len(),
                        |i: int|
                            if 0 <= i < ps@.len() {
                                (ps@[i].0.view(), ps@[i].1.view())
                            } else {
                                (YamlView::Null, YamlView::Null)
                            },
                    ),
                )
            },
            YamlNode::Tagged(t, x) => YamlView::Tagged(t@, Box::new(x.view())),
        }
    }
}

/// The views of key/value pairs of YAML values.
pub open spec fn pair_views(v: Seq<(YamlNode, YamlNode)>) -> Seq<(YamlView, YamlView)> {
    v.map_values(|p: (YamlNode, YamlNode)| (p.0@, p.1@))
}

/// A mapping views as the views of its pairs.
pub proof fn lemma_mapping_view(ps: Vec<(YamlNode, YamlNode)>)
    ensures
        YamlNode::Mapping(ps)@ == YamlView::Mapping(pair_views(ps@)),
{
    assert(YamlNode::Mapping(ps)@->Mapping_0 =~= pair_views(ps@));
}

/// A sequence views as the views of its items.
pub proof fn lemma_sequence_view(xs: Vec<YamlNode>)
    ensures
        YamlNode::Sequence(xs)@ == YamlView::Sequence(xs@.map_values(|x: YamlNode| x@)),
{
    assert(YamlNode::Sequence(xs)@->Sequence_0 =~= xs@.map_values(|x: YamlNode| x@));
}

// ── Reading values ───────────────────────────────────────────────────────

/// A value with its tags taken off (what serde_yaml's `as_str`,
/// `as_sequence` and `as_mapping` look through).
pub open spec fn untag(v: YamlView) -> YamlView
    decreases v,
{
    match v {
        YamlView::Tagged(_, b) => untag(*b),
        _ => v,
    }
}

/// The value under any tags.
pub fn untag_node(n: &YamlNode) -> (r: &YamlNode)
    ensures
        r@ == untag(n@),
    decreases n,
{
    match n {
        YamlNode::Tagged(_, x) => untag_node(x),
        _ => n,
    }
}

/// A copy of a value, part for part.
pub fn copy_node(n: &YamlNode) -> (r: YamlNode)
    ensures
        r@ == n@,
    decreases n,
{
    match n {
        YamlNode::Null => YamlNode::Null,
        YamlNode::Bool(b) => YamlNode::Bool(*b),
        YamlNode::Number(t) => YamlNode::Number(copy_string(t)),
        YamlNode::Str(s) => YamlNode::Str(copy_string(s)),
        YamlNode::Sequence(xs) => {
            proof {
                assert forall|j: int| 0 <= j < xs@.len() implies decreases_to!(n => xs@[j]) by {
                    assert(decreases_to!(n => *xs));
                    assert(decreases_to!(*xs => xs@));
                    assert(decreases_to!(xs@ => xs@[j]));
                }
            }
            let ghost xv = xs@.map_values(|x: YamlNode| x@);
            let mut out: Vec<YamlNode> = Vec::new();
            let mut i: usize = 0;
            while i < xs.len()
                invariant
                    i <= xs@.len(),
                    xv == xs@.map_values(|x: YamlNode| x@),
                    forall|j: int| 0 <= j < xs@.len() ==> decreases_to!(n => xs@[j]),
                    out@.map_values(|x: YamlNode| x@) == xv.take(i as int),
                decreases xs.len() - i,
            {
                let c = copy_node(&xs[i]);
                let ghost b = out@;
                out.push(c);
                assert(out@.map_values(|x: YamlNode| x@) =~= b.map_values(|x: YamlNode| x@).push(c@));
                assert(xv.take(i + 1) =~= xv.take(i as int).push(xv[i as int]));
                i += 1;
            }
            assert(xv.take(xs@.len() as int) == xv);
            proof {
                lemma_sequence_view(*xs);
                lemma_sequence_view(out);
            }
            YamlNode::Sequence(out)
        },
        YamlNode::Mapping(ps) => {
            proof {
                assert forall|j: int| 0 <= j < ps@.len() implies decreases_to!(n => ps@[j].0)
                    && decreases_to!(n => ps@[j].1) by {
                    assert(decreases_to!(n => *ps));
                    assert(decreases_to!(*ps => ps@));
                    assert(decreases_to!(ps@ => ps@[j]));
                    assert(decreases_to!(ps@[j] => ps@[j].0));
                    assert(decreases_to!(ps@[j] => ps@[j].1));
                }
            }
            let ghost pv = pair_views(ps@);
            let mut out: Vec<(YamlNode, YamlNode)> = Vec::new();
            let mut i: usize = 0;
            while i < ps.len()
                invariant
                    i <= ps@.len(),
                    pv == pair_views(ps@),
                    forall|j: int|
                        0 <= j < ps@.len() ==> decreases_to!(n => ps@[j].0) && decreases_to!(n => ps@[j].1),
                    pair_views(out@) == pv.take(i as int),
                decreases ps.len() - i,
            {
                let k = copy_node(&ps[i].0);
                let v = copy_node(&ps[i].1);
                let ghost b = out@;
                out.push((k, v));
                assert(pair_views(out@) =~= pair_views(b).push((k@, v@)));
                assert(pv.take(i + 1) =~= pv.take(i as int).push(pv[i as int]));
                i += 1;
            }
            assert(pv.take(ps@.len() as int) == pv);
            proof {
                lemma_mapping_view(*ps);
                lemma_mapping_view(out);
            }
            YamlNode::Mapping(out)
        },
        YamlNode::Tagged(t, x) => YamlNode::Tagged(copy_string(t), Box::new(copy_node(x))),
    }
}

// ── Reading ──────────────────────────────────────────────────────────────

/// What `serde_yaml::from_str` reads from a text, as a value; `None` where
/// it refuses the text.
pub uninterp spec fn yaml_parsed(text: Seq<char>) -> Option<YamlView>;

/// A serde_yaml value as a plain value, part for part: numbers by their
/// printed form, tags by their `!`-prefixed name.
#[verifier::external_body]
fn yaml_node(v: Value) -> YamlNode {
    match v {
        Value::Null => YamlNode::Null,
        Value::Bool(b) => YamlNode::Bool(b),
        Value::Number(n) => YamlNode::Number(n.to_string()),
        Value::String(s) => YamlNode::Str(s),
        Value::Sequence(xs) => YamlNode::Sequence(xs.into_iter().map(yaml_node).collect()),
        Value::Mapping(m) => YamlNode::Mapping(m.into_iter().map(|(k, x)| (yaml_node(k), yaml_node(x))).collect()),
        Value::Tagged(t) => YamlNode::Tagged(t.tag.to_string(), Box::new(yaml_node(t.value))),
    }
}

/// Reads a YAML document (`serde_yaml::from_str` into a `Value`). It
/// succeeds exactly where serde_yaml accepts the text; the error carries
/// serde_yaml's message, whose text is not stated here.
#[verifier::external_body]
pub(crate) fn parse_yaml(text: &str) -> (r: Result<YamlNode, String>)
    ensures
        r is Ok <==> yaml_parsed(text@) is Some,
        r matches Ok(v) ==> yaml_parsed(text@) == Some(v@),
{
    serde_yaml::from_str::<Value>(text).map(yaml_node).map_err(|e| e.to_string())
}

// ── Writing ──────────────────────────────────────────────────────────────

/// What `serde_yaml::to_string` writes for a value (numbers read back from
/// their printed form).
pub uninterp spec fn yaml_text(v: YamlView) -> Seq<char>;

/// `Value::Null`.
#[verifier::external_body]
fn yaml_null() -> Value {
    Value::Null
}

/// `Value::Bool`.
#[verifier::external_body]
fn yaml_bool(b: bool) -> Value {
    Value::Bool(b)
}

/// A number read from its printed form (`Number::from_str`); the error
/// carries serde_yaml's message.
#[verifier::external_body]
fn yaml_number(t: &str) -> Result<Value, String> {
    t.parse::<serde_yaml::Number>().map(Value::Number).map_err(|e| e.to_string())
}

/// `Value::String`.
#[verifier::external_body]
fn yaml_string(s: String) -> Value {
    Value::String(s)
}

/// `Value::Sequence` of the items.
#[verifier::external_body]
fn yaml_sequence(xs: Vec<Value>) -> Value {
    Value::Sequence(xs)
}

/// `Value::Mapping` of the pairs, in order.
#[verifier::external_body]
fn yaml_mapping(ps: Vec<(Value, Value)>) -> Value {
    Value::Mapping(ps.into_iter().collect())
}

/// `Value::Tagged` with the tag named `t` (`Tag::new`, which refuses an
/// empty name).
#[verifier::external_body]
fn yaml_tagged(t: &str, v: Value) -> Value
    requires
        t@.len() > 0,
{
    Value::Tagged(Box::new(serde_yaml::value::TaggedValue { tag: serde_yaml::value::Tag::new(t), value: v }))
}

/// The serde_yaml value of a plain one, part for part; a number that does
/// not read back, or an empty tag, is refused.
fn yaml_value(n: &YamlNode) -> Result<Value, String>
    decreases n,
{
    match n {
        YamlNode::Null => Ok(yaml_null()),
        YamlNode::Bool(b) => Ok(yaml_bool(*b)),
        YamlNode::Number(t) => yaml_number(t.as_str()),
        YamlNode::Str(s) => Ok(yaml_string(copy_string(s))),
        YamlNode::Sequence(xs) => {
            proof {
                assert forall|j: int| 0 <= j < xs@.len() implies decreases_to!(n => xs@[j]) by {
                    assert(decreases_to!(n => *xs));
                    assert(decreases_to!(*xs => xs@));
                    assert(decreases_to!(xs@ => xs@[j]));
                }
            }
            let mut out: Vec<Value> = Vec::new();
            let mut i: usize = 0;
            while i < xs.len()
                invariant
                    i <= xs@.len(),
                    forall|j: int| 0 <= j < xs@.len() ==> decreases_to!(n => xs@[j]),
                decreases xs.len() - i,
            {
                out.push(yaml_value(&xs[i])?);
                i += 1;
            }
            Ok(yaml_sequence(out))
        },
        YamlNode::Mapping(ps) => {
            proof {
                assert forall|j: int| 0 <= j < ps@.len() implies decreases_to!(n => ps@[j].0)
                    && decreases_to!(n => ps@[j].1) by {
                    assert(decreases_to!(n => *ps));
                    assert(decreases_to!(*ps => ps@));
                    assert(decreases_to!(ps@ => ps@[j]));
                    assert(decreases_to!(ps@[j] => ps@[j].0));
                    assert(decreases_to!(ps@[j] => ps@[j].1));
                }
            }
            let mut out: Vec<(Value, Value)> = Vec::new();
            let mut i: usize = 0;
            while i < ps.len()
                invariant
                    i <= ps@.len(),
                    forall|j: int|
                        0 <= j < ps@.len() ==> decreases_to!(n => ps@[j].0) && decreases_to!(n => ps@[j].1),
                decreases ps.len() - i,
            {
                let k = yaml_value(&ps[i].0)?;
                let v = yaml_value(&ps[i].1)?;
                out.push((k, v));
                i += 1;
            }
            Ok(yaml_mapping(out))
        },
        YamlNode::Tagged(t, x) => {
            if t.unicode_len() == 0 {
                return Err(String::from_str("empty YAML tag is not allowed"));
            }
            let v = yaml_value(x)?;
            Ok(yaml_tagged(t.as_str(), v))
        },
    }
}

/// Writes a value as YAML (`serde_yaml::to_string` of the value converted
/// part for part). The error carries serde_yaml's message, or says that a
/// number did not read back or a tag was empty; when it fails is not stated.
#[verifier::external_body]
pub(crate) fn yaml_to_string(v: &YamlNode) -> (r: Result<String, String>)
    ensures
        r matches Ok(s) ==> s@ == yaml_text(v@),
{
    serde_yaml::to_string(&yaml_value(v)?).map_err(|e| e.to_string())
}

/// A value as a YAML document; when serde_yaml refuses to write it, a
/// generation error carrying its message.
pub fn to_yaml(v: &YamlNode) -> (r: Result<String, HimitsuError>)
    ensures
        r matches Ok(s) ==> s@ == yaml_text(v@),
        r matches Err(e) ==> e is GenerateError,
{
    match yaml_to_string(v) {
        Ok(s) => Ok(s),
        Err(m) => Err(HimitsuError::GenerateError(m)),
    }
}

} // verus!
