//! YAML values as the workflow reader sees them.
use crate::text::str_eq;
use vstd::prelude::*;

verus! {

/// A YAML node.
#[derive(Debug, PartialEq)]
pub enum YamlValue {
    Null,
    Bool(bool),
    Number(String),
    Str(String),
    Sequence(Vec<YamlValue>, String),
    Mapping(Vec<(YamlValue, YamlValue)>, String),
    Tagged(String),
}

/// The mathematical form of a YAML node.
pub enum Yaml {
    Null,
    Bool(bool),
    Number(Seq<char>),
    Str(Seq<char>),
    Sequence(Seq<Yaml>, Seq<char>),
    Mapping(Seq<(Yaml, Yaml)>, Seq<char>),
    Tagged(Seq<char>),
}

impl View for YamlValue {
    type V = Yaml;

    open spec fn view(&self) -> Yaml
        decreases self, 1nat,
    {
        match self {
            YamlValue::Null => Yaml::Null,
            YamlValue::Bool(b) => Yaml::Bool(*b),
            YamlValue::Number(t) => Yaml::Number(t@),
            YamlValue::Str(s) => Yaml::Str(s@),
            YamlValue::Sequence(items, r) => {
                proof { assert(decreases_to!(*self => *items)); assert(decreases_to!(*items => items@)); }
                Yaml::Sequence(items_view(items@), r@)
            },
            YamlValue::Mapping(entries, r) => {
                proof { assert(decreases_to!(*self => *entries)); assert(decreases_to!(*entries => entries@)); }
                Yaml::Mapping(entries_view(entries@), r@)
            },
            YamlValue::Tagged(r) => Yaml::Tagged(r@),
        }
    }
}

/// The forms of a list of nodes.
pub open spec fn items_view(items: Seq<YamlValue>) -> Seq<Yaml>
    decreases items, 0nat,
{
    if items.len() == 0 {
        Seq::empty()
    } else {
        proof { assert(decreases_to!(items => items[items.len() - 1])); }
        items_view(items.drop_last()).push(items.last()@)
    }
}

/// The forms of a list of key and value nodes.
pub open spec fn entries_view(entries: Seq<(YamlValue, YamlValue)>) -> Seq<(Yaml, Yaml)>
    decreases entries, 0nat,
{
    if entries.len() == 0 {
        Seq::empty()
    } else {
        proof {
            assert(decreases_to!(entries => entries[entries.len() - 1]));
        }
        entries_view(entries.drop_last()).push((entries.last().0@, entries.last().1@))
    }
}

/// The forms of a list are the forms of its members, one for one.
pub proof fn lemma_items_view(items: Seq<YamlValue>)
    ensures
        items_view(items).len() == items.len(),
        forall|j: int| 0 <= j < items.len() ==> #[trigger] items_view(items)[j] == items[j]@,
    decreases items.len(),
{
    if items.len() > 0 {
        lemma_items_view(items.drop_last());
        assert(items_view(items) == items_view(items.drop_last()).push(items.last()@));
    } else {
        assert(items_view(items) == Seq::<Yaml>::empty());
    }
}

/// The forms of a list of entries are the forms of its keys and values, one for one.
pub proof fn lemma_entries_view(entries: Seq<(YamlValue, YamlValue)>)
    ensures
        entries_view(entries).len() == entries.len(),
        forall|j: int| 0 <= j < entries.len() ==> #[trigger] entries_view(entries)[j] == (entries[j].0@, entries[j].1@),
    decreases entries.len(),
{
    if entries.len() > 0 {
        lemma_entries_view(entries.drop_last());
        assert(entries_view(entries) == entries_view(entries.drop_last()).push((entries.last().0@, entries.last().1@)));
    } else {
        assert(entries_view(entries) == Seq::<(Yaml, Yaml)>::empty());
    }
}

impl YamlValue {
    /// A copy of the node.
    pub fn duplicate(&self) -> (r: YamlValue)
        ensures
            r@ == self@,
        decreases self,
    {
        match self {
            YamlValue::Null => YamlValue::Null,
            YamlValue::Bool(b) => YamlValue::Bool(*b),
            YamlValue::Number(t) => YamlValue::Number(t.clone()),
            YamlValue::Str(s) => YamlValue::Str(s.clone()),
            YamlValue::Tagged(t) => YamlValue::Tagged(t.clone()),
            YamlValue::Sequence(items, r) => {
                let mut out: Vec<YamlValue> = Vec::new();
                let mut i: usize = 0;
                while i < items.len()
                    invariant
                        i <= items.len(),
                        out.len() == i,
                        *self is Sequence,
                        self->Sequence_0 == *items,
                        forall|j: int| 0 <= j < i ==> #[trigger] out[j]@ == items[j]@,
                    decreases items.len() - i,
                {
                    out.push(items[i].duplicate());
                    i += 1;
                }
                let res = YamlValue::Sequence(out, r.clone());
                assert(res@ == self@) by {
                    lemma_items_view(out@);
                    lemma_items_view(items@);
                    assert(items_view(out@) =~= items_view(items@));
                }
                res
            },
            YamlValue::Mapping(entries, r) => {
                let mut out: Vec<(YamlValue, YamlValue)> = Vec::new();
                let mut i: usize = 0;
                while i < entries.len()
                    invariant
                        i <= entries.len(),
                        out.len() == i,
                        *self is Mapping,
                        self->Mapping_0 == *entries,
                        forall|j: int| 0 <= j < i ==> (#[trigger] out[j]).0@ == entries[j].0@ && out[j].1@ == entries[j].1@,
                    decreases entries.len() - i,
                {
                    let k = entries[i].0.duplicate();
                    let v = entries[i].1.duplicate();
                    out.push((k, v));
                    i += 1;
                }
                let res = YamlValue::Mapping(out, r.clone());
                assert(res@ == self@) by {
                    lemma_entries_view(out@);
                    lemma_entries_view(entries@);
                    assert(entries_view(out@) =~= entries_view(entries@));
                }
                res
            },
        }
    }
}


/// The text of a scalar node (string, number or boolean); `None` for any other node.
pub open spec fn scalar_text(v: Yaml) -> Option<Seq<char>> {
    match v {
        Yaml::Str(s) => Some(s),
        Yaml::Number(t) => Some(t),
        Yaml::Bool(b) => Some(if b { "true"@ } else { "false"@ }),
        _ => None,
    }
}

/// The text a node is shown as: scalars by their text, `null` for a null node, and the
/// rendered YAML for anything else.
pub open spec fn display_text(v: Yaml) -> Seq<char> {
    match v {
        Yaml::Null => "null"@,
        Yaml::Bool(b) => if b { "true"@ } else { "false"@ },
        Yaml::Number(t) => t,
        Yaml::Str(s) => s,
        Yaml::Sequence(_, r) => r,
        Yaml::Mapping(_, r) => r,
        Yaml::Tagged(r) => r,
    }
}

/// The text of a string node; `None` for any other node.
pub open spec fn str_text(v: Yaml) -> Option<Seq<char>> {
    match v {
        Yaml::Str(s) => Some(s),
        _ => None,
    }
}

/// The value under the first entry whose key is the string `name`.
pub open spec fn lookup(entries: Seq<(Yaml, Yaml)>, name: Seq<char>) -> Option<Yaml>
    decreases entries.len(),
{
    if entries.len() == 0 {
        None
    } else if entries[0].0 == Yaml::Str(name) {
        Some(entries[0].1)
    } else {
        lookup(entries.drop_first(), name)
    }
}

/// The value under the string key `name` of a mapping node; `None` for other nodes.
pub open spec fn get(v: Yaml, name: Seq<char>) -> Option<Yaml> {
    match v {
        Yaml::Mapping(entries, _) => lookup(entries, name),
        _ => None,
    }
}

/// An optional string taken by its view.
pub open spec fn opt_view(o: Option<String>) -> Option<Seq<char>> {
    match o {
        Some(s) => Some(s@),
        None => None,
    }
}

/// The text of an optional node, when it is a scalar.
pub open spec fn opt_scalar(v: Option<Yaml>) -> Option<Seq<char>> {
    match v {
        Some(y) => scalar_text(y),
        None => None,
    }
}

fn bool_text(b: bool) -> (r: String)
    ensures
        r@ == (if b { "true"@ } else { "false"@ }),
{
    if b {
        proof { reveal_strlit("true"); }
        "true".to_owned()
    } else {
        proof { reveal_strlit("false"); }
        "false".to_owned()
    }
}

impl YamlValue {
    /// The text of a scalar node.
    pub fn scalar_string(&self) -> (r: Option<String>)
        ensures
            opt_view(r) == scalar_text(self@),
    {
        match self {
            YamlValue::Str(s) => Some(s.clone()),
            YamlValue::Number(t) => Some(t.clone()),
            YamlValue::Bool(b) => Some(bool_text(*b)),
            _ => None,
        }
    }

    /// The text of a string node.
    pub fn as_string(&self) -> (r: Option<String>)
        ensures
            opt_view(r) == str_text(self@),
    {
        match self {
            YamlValue::Str(s) => Some(s.clone()),
            _ => None,
        }
    }

    /// The text the node is shown as.
    pub fn display_string(&self) -> (r: String)
        ensures
            r@ == display_text(self@),
    {
        match self {
            YamlValue::Null => {
                proof { reveal_strlit("null"); }
                "null".to_owned()
            },
            YamlValue::Bool(b) => bool_text(*b),
            YamlValue::Number(t) => t.clone(),
            YamlValue::Str(s) => s.clone(),
            YamlValue::Sequence(_, r) => r.clone(),
            YamlValue::Mapping(_, r) => r.clone(),
            YamlValue::Tagged(r) => r.clone(),
        }
    }

    /// The value under the string key `name`, when this node is a mapping.
    pub fn get(&self, name: &str) -> (r: Option<&YamlValue>)
        ensures
            match r {
                Some(v) => get(self@, name@) == Some(v@),
                None => get(self@, name@) is None,
            },
    {
        match self {
            YamlValue::Mapping(entries, _) => {
                proof { lemma_entries_view(entries@); }
                let ghost model = entries_view(entries@);
                assert(model.skip(0) =~= model);
                let mut i: usize = 0;
                while i < entries.len()
                    invariant
                        i <= entries.len(),
                        get(self@, name@) == lookup(model, name@),
                        model == entries_view(entries@),
                        model.len() == entries.len(),
                        forall|j: int| 0 <= j < entries.len() ==> #[trigger] model[j] == (entries[j].0@, entries[j].1@),
                        lookup(model, name@) == lookup(model.skip(i as int), name@),
                    decreases entries.len() - i,
                {
                    let found = match &entries[i].0 {
                        YamlValue::Str(s) => str_eq(s.as_str(), name),
                        _ => false,
                    };
                    assert(model.skip(i as int)[0] == model[i as int]);
                    if found {
                        return Some(&entries[i].1);
                    }
                    assert(model.skip(i as int).drop_first() =~= model.skip(i as int + 1));
                    i += 1;
                }
                assert(model.skip(i as int).len() == 0);
                None
            },
            _ => None,
        }
    }
}

/// serde_yaml's parsed node, carried through the conversion below without being read by
/// verified code.
#[verifier::external_type_specification]
#[verifier::external_body]
pub struct ExYamlNode(serde_yaml::Value);

/// The document that `serde_yaml::from_str` reads from a text, as the library's YAML value,
/// or serde_yaml's message for the error.
pub uninterp spec fn yaml_document(text: Seq<char>) -> Result<Yaml, Seq<char>>;

/// One node that serde_yaml parsed, as the library's value: each of serde_yaml's variants to
/// its own, a number by serde_yaml's text for it, and a collection or tagged node together
/// with `serde_yaml::to_string` of it. Nothing is stated of it here: `yaml_document_of`, the
/// one caller, states what the whole conversion gives.
#[verifier::external_body]
fn yaml_node_of(value: &serde_yaml::Value) -> YamlValue {
    let text = || serde_yaml::to_string(value).unwrap_or_default();
    match value {
        serde_yaml::Value::Null => YamlValue::Null,
        serde_yaml::Value::Bool(b) => YamlValue::Bool(*b),
        serde_yaml::Value::Number(n) => YamlValue::Number(n.to_string()),
        serde_yaml::Value::String(s) => YamlValue::Str(s.clone()),
        serde_yaml::Value::Sequence(items) => YamlValue::Sequence(items.iter().map(yaml_node_of).collect(), text()),
        serde_yaml::Value::Mapping(m) => YamlValue::Mapping(m.iter().map(|(k, v)| (yaml_node_of(k), yaml_node_of(v))).collect(), text()),
        serde_yaml::Value::Tagged(_) => YamlValue::Tagged(text()),
    }
}

/// `serde_yaml::from_str` into serde_yaml's `Value`, converted into the library's value; an
/// error is given by its message (`to_string`). The contract names the outcome
/// (`yaml_document`) as a function of the text alone: serde_yaml's parser is deterministic and
/// its mappings keep the order of the text.
#[verifier::external_body]
pub(crate) fn yaml_document_of(text: &str) -> (r: Result<YamlValue, String>)
    ensures
        match r {
            Ok(v) => yaml_document(text@) == Ok::<Yaml, Seq<char>>(v@),
            Err(e) => yaml_document(text@) == Err::<Yaml, Seq<char>>(e@),
        },
{
    serde_yaml::from_str::<serde_yaml::Value>(text).map(|v| yaml_node_of(&v)).map_err(|e| e.to_string())
}

} // verus!
