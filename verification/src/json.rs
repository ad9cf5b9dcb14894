//! JSON documents of the runner protocol: the values the DTU server reads from seeded jobs, and
//! the values it answers with.
use crate::text::str_eq;
use vstd::prelude::*;

verus! {

/// A JSON value read from a request. Numbers keep the text serde_json prints for them; arrays
/// and objects keep the compact JSON text they serialize to.
#[derive(Debug, PartialEq)]
pub enum JsonInput {
    Null,
    Bool(bool),
    Number(String),
    Str(String),
    Array(Vec<JsonInput>, String),
    Object(Vec<(String, JsonInput)>, String),
}

/// A JSON value the server answers with; an object's entries are in order and a later key
/// replaces an earlier one when it is written out.
#[derive(Debug, PartialEq)]
pub enum JsonValue {
    Null,
    Bool(bool),
    Number(String),
    Str(String),
    Array(Vec<JsonValue>),
    Object(Vec<(String, JsonValue)>),
}

/// The mathematical form of a JSON value read from a request.
pub enum JIn {
    Null,
    Bool(bool),
    Number(Seq<char>),
    Str(Seq<char>),
    Array(Seq<JIn>, Seq<char>),
    Object(Seq<(Seq<char>, JIn)>, Seq<char>),
}

/// The mathematical form of a JSON value the server answers with.
pub enum Json {
    Null,
    Bool(bool),
    Number(Seq<char>),
    Str(Seq<char>),
    Array(Seq<Json>),
    Object(Seq<(Seq<char>, Json)>),
}

impl View for JsonInput {
    type V = JIn;

    open spec fn view(&self) -> JIn
        decreases self, 1nat,
    {
        match self {
            JsonInput::Null => JIn::Null,
            JsonInput::Bool(b) => JIn::Bool(*b),
            JsonInput::Number(t) => JIn::Number(t@),
            JsonInput::Str(s) => JIn::Str(s@),
            JsonInput::Array(items, r) => {
                proof { assert(decreases_to!(*self => *items)); assert(decreases_to!(*items => items@)); }
                JIn::Array(input_items_view(items@), r@)
            },
            JsonInput::Object(entries, r) => {
                proof { assert(decreases_to!(*self => *entries)); assert(decreases_to!(*entries => entries@)); }
                JIn::Object(input_entries_view(entries@), r@)
            },
        }
    }
}

/// The forms of a list of read values.
pub open spec fn input_items_view(items: Seq<JsonInput>) -> Seq<JIn>
    decreases items, 0nat,
{
    if items.len() == 0 {
        Seq::empty()
    } else {
        proof { assert(decreases_to!(items => items[items.len() - 1])); }
        input_items_view(items.drop_last()).push(items.last()@)
    }
}

/// The forms of the entries of a read object.
pub open spec fn input_entries_view(entries: Seq<(String, JsonInput)>) -> Seq<(Seq<char>, JIn)>
    decreases entries, 0nat,
{
    if entries.len() == 0 {
        Seq::empty()
    } else {
        proof { assert(decreases_to!(entries => entries[entries.len() - 1])); }
        input_entries_view(entries.drop_last()).push((entries.last().0@, entries.last().1@))
    }
}

pub proof fn lemma_input_items_view(items: Seq<JsonInput>)
    ensures
        input_items_view(items).len() == items.len(),
        forall|j: int| 0 <= j < items.len() ==> #[trigger] input_items_view(items)[j] == items[j]@,
    decreases items.len(),
{
    if items.len() > 0 {
        lemma_input_items_view(items.drop_last());
        assert(input_items_view(items) == input_items_view(items.drop_last()).push(items.last()@));
    } else {
        assert(input_items_view(items) == Seq::<JIn>::empty());
    }
}

pub proof fn lemma_input_entries_view(entries: Seq<(String, JsonInput)>)
    ensures
        input_entries_view(entries).len() == entries.len(),
        forall|j: int| 0 <= j < entries.len() ==> #[trigger] input_entries_view(entries)[j] == (entries[j].0@, entries[j].1@),
    decreases entries.len(),
{
    if entries.len() > 0 {
        lemma_input_entries_view(entries.drop_last());
        assert(input_entries_view(entries) == input_entries_view(entries.drop_last()).push((entries.last().0@, entries.last().1@)));
    } else {
        assert(input_entries_view(entries) == Seq::<(Seq<char>, JIn)>::empty());
    }
}

impl View for JsonValue {
    type V = Json;

    open spec fn view(&self) -> Json
        decreases self, 1nat,
    {
        match self {
            JsonValue::Null => Json::Null,
            JsonValue::Bool(b) => Json::Bool(*b),
            JsonValue::Number(t) => Json::Number(t@),
            JsonValue::Str(s) => Json::Str(s@),
            JsonValue::Array(items) => {
                proof { assert(decreases_to!(*self => *items)); assert(decreases_to!(*items => items@)); }
                Json::Array(value_items_view(items@))
            },
            JsonValue::Object(entries) => {
                proof { assert(decreases_to!(*self => *entries)); assert(decreases_to!(*entries => entries@)); }
                Json::Object(value_entries_view(entries@))
            },
        }
    }
}

/// The forms of a list of answered values.
pub open spec fn value_items_view(items: Seq<JsonValue>) -> Seq<Json>
    decreases items, 0nat,
{
    if items.len() == 0 {
        Seq::empty()
    } else {
        proof { assert(decreases_to!(items => items[items.len() - 1])); }
        value_items_view(items.drop_last()).push(items.last()@)
    }
}

/// The forms of the entries of an answered object.
pub open spec fn value_entries_view(entries: Seq<(String, JsonValue)>) -> Seq<(Seq<char>, Json)>
    decreases entries, 0nat,
{
    if entries.len() == 0 {
        Seq::empty()
    } else {
        proof { assert(decreases_to!(entries => entries[entries.len() - 1])); }
        value_entries_view(entries.drop_last()).push((entries.last().0@, entries.last().1@))
    }
}

pub proof fn lemma_value_items_view(items: Seq<JsonValue>)
    ensures
        value_items_view(items).len() == items.len(),
        forall|j: int| 0 <= j < items.len() ==> #[trigger] value_items_view(items)[j] == items[j]@,
    decreases items.len(),
{
    if items.len() > 0 {
        lemma_value_items_view(items.drop_last());
        assert(value_items_view(items) == value_items_view(items.drop_last()).push(items.last()@));
    } else {
        assert(value_items_view(items) == Seq::<Json>::empty());
    }
}

pub proof fn lemma_value_entries_view(entries: Seq<(String, JsonValue)>)
    ensures
        value_entries_view(entries).len() == entries.len(),
        forall|j: int| 0 <= j < entries.len() ==> #[trigger] value_entries_view(entries)[j] == (entries[j].0@, entries[j].1@),
    decreases entries.len(),
{
    if entries.len() > 0 {
        lemma_value_entries_view(entries.drop_last());
        assert(value_entries_view(entries) == value_entries_view(entries.drop_last()).push((entries.last().0@, entries.last().1@)));
    } else {
        assert(value_entries_view(entries) == Seq::<(Seq<char>, Json)>::empty());
    }
}

/// The value under the first entry named `key`.
pub open spec fn in_lookup(entries: Seq<(Seq<char>, JIn)>, key: Seq<char>) -> Option<JIn>
    decreases entries.len(),
{
    if entries.len() == 0 {
        None
    } else if entries[0].0 == key {
        Some(entries[0].1)
    } else {
        in_lookup(entries.drop_first(), key)
    }
}

/// The value under `key` of a read object; `None` for anything else.
pub open spec fn in_get(v: JIn, key: Seq<char>) -> Option<JIn> {
    match v {
        JIn::Object(entries, _) => in_lookup(entries, key),
        _ => None,
    }
}

/// The text of a read string; `None` for anything else.
pub open spec fn in_str(v: JIn) -> Option<Seq<char>> {
    match v {
        JIn::Str(s) => Some(s),
        _ => None,
    }
}

/// The text of an optional read value when it is a string.
pub open spec fn opt_in_str(v: Option<JIn>) -> Option<Seq<char>> {
    match v {
        Some(x) => in_str(x),
        None => None,
    }
}

/// A read value as text: nothing for null, the words for booleans, a number's or string's
/// own text, and the JSON text of an array or object.
pub open spec fn in_text(v: JIn) -> Seq<char> {
    match v {
        JIn::Null => Seq::empty(),
        JIn::Bool(b) => if b { "true"@ } else { "false"@ },
        JIn::Number(t) => t,
        JIn::Str(s) => s,
        JIn::Array(_, r) => r,
        JIn::Object(_, r) => r,
    }
}

impl JsonInput {
    /// The value under `key`, when this is an object.
    pub fn get(&self, key: &str) -> (r: Option<&JsonInput>)
        ensures
            match r {
                Some(v) => in_get(self@, key@) == Some(v@),
                None => in_get(self@, key@) is None,
            },
    {
        match self {
            JsonInput::Object(entries, _) => {
                proof { lemma_input_entries_view(entries@); }
                let ghost model = input_entries_view(entries@);
                assert(model.skip(0) =~= model);
                let mut i: usize = 0;
                while i < entries.len()
                    invariant
                        i <= entries.len(),
                        in_get(self@, key@) == in_lookup(model, key@),
                        model == input_entries_view(entries@),
                        model.len() == entries.len(),
                        forall|j: int| 0 <= j < entries.len() ==> #[trigger] model[j] == (entries[j].0@, entries[j].1@),
                        in_lookup(model, key@) == in_lookup(model.skip(i as int), key@),
                    decreases entries.len() - i,
                {
                    assert(model.skip(i as int)[0] == model[i as int]);
                    if str_eq(entries[i].0.as_str(), key) {
                        return Some(&entries[i].1);
                    }
                    assert(model.skip(i as int).drop_first() =~= model.skip(i + 1));
                    i += 1;
                }
                None
            },
            _ => None,
        }
    }

    /// The text, when this is a string.
    pub fn as_str(&self) -> (r: Option<&str>)
        ensures
            match r {
                Some(s) => in_str(self@) == Some(s@),
                None => in_str(self@) is None,
            },
    {
        match self {
            JsonInput::Str(s) => Some(s.as_str()),
            _ => None,
        }
    }

    /// The value as text.
    pub fn text(&self) -> (r: String)
        ensures
            r@ == in_text(self@),
    {
        match self {
            JsonInput::Null => String::new(),
            JsonInput::Bool(b) => if *b {
                proof { reveal_strlit("true"); }
                "true".to_owned()
            } else {
                proof { reveal_strlit("false"); }
                "false".to_owned()
            },
            JsonInput::Number(t) => t.clone(),
            JsonInput::Str(s) => s.clone(),
            JsonInput::Array(_, r) => r.clone(),
            JsonInput::Object(_, r) => r.clone(),
        }
    }
}

} // verus!

verus! {

/// A read value as an answered value: the same value, without the kept JSON text.
pub open spec fn out_of(v: JIn) -> Json
    decreases v, 1nat,
{
    match v {
        JIn::Null => Json::Null,
        JIn::Bool(b) => Json::Bool(b),
        JIn::Number(t) => Json::Number(t),
        JIn::Str(s) => Json::Str(s),
        JIn::Array(items, _) => Json::Array(out_items(items)),
        JIn::Object(entries, _) => Json::Object(out_entries(entries)),
    }
}

/// Read values as answered values, in order.
pub open spec fn out_items(items: Seq<JIn>) -> Seq<Json>
    decreases items, 0nat,
{
    if items.len() == 0 {
        Seq::empty()
    } else {
        out_items(items.drop_last()).push(out_of(items.last()))
    }
}

/// Read entries as answered entries, in order.
pub open spec fn out_entries(entries: Seq<(Seq<char>, JIn)>) -> Seq<(Seq<char>, Json)>
    decreases entries, 0nat,
{
    if entries.len() == 0 {
        Seq::empty()
    } else {
        out_entries(entries.drop_last()).push((entries.last().0, out_of(entries.last().1)))
    }
}

pub proof fn lemma_out_items(items: Seq<JIn>)
    ensures
        out_items(items).len() == items.len(),
        forall|j: int| 0 <= j < items.len() ==> #[trigger] out_items(items)[j] == out_of(items[j]),
    decreases items.len(),
{
    if items.len() > 0 {
        lemma_out_items(items.drop_last());
        assert(out_items(items) == out_items(items.drop_last()).push(out_of(items.last())));
    } else {
        assert(out_items(items) == Seq::<Json>::empty());
    }
}

pub proof fn lemma_out_entries(entries: Seq<(Seq<char>, JIn)>)
    ensures
        out_entries(entries).len() == entries.len(),
        forall|j: int| 0 <= j < entries.len() ==> #[trigger] out_entries(entries)[j] == (entries[j].0, out_of(entries[j].1)),
    decreases entries.len(),
{
    if entries.len() > 0 {
        lemma_out_entries(entries.drop_last());
        assert(out_entries(entries) == out_entries(entries.drop_last()).push((entries.last().0, out_of(entries.last().1))));
    } else {
        assert(out_entries(entries) == Seq::<(Seq<char>, Json)>::empty());
    }
}

impl JsonInput {
    /// The same value, to answer with.
    pub fn to_output(&self) -> (r: JsonValue)
        ensures
            r@ == out_of(self@),
        decreases self,
    {
        match self {
            JsonInput::Null => JsonValue::Null,
            JsonInput::Bool(b) => JsonValue::Bool(*b),
            JsonInput::Number(t) => JsonValue::Number(t.clone()),
            JsonInput::Str(s) => JsonValue::Str(s.clone()),
            JsonInput::Array(items, _) => {
                proof { lemma_input_items_view(items@); }
                let mut out: Vec<JsonValue> = Vec::new();
                let mut i: usize = 0;
                while i < items.len()
                    invariant
                        i <= items.len(),
                        out.len() == i,
                        *self is Array,
                        self->Array_0 == *items,
                        forall|j: int| 0 <= j < i ==> #[trigger] out[j]@ == out_of(items[j]@),
                    decreases items.len() - i,
                {
                    out.push(items[i].to_output());
                    i += 1;
                }
                let r = JsonValue::Array(out);
                proof {
                    lemma_value_items_view(out@);
                    lemma_out_items(input_items_view(items@));
                    assert(value_items_view(out@) =~= out_items(input_items_view(items@)));
                }
                r
            },
            JsonInput::Object(entries, _) => {
                proof { lemma_input_entries_view(entries@); }
                let mut out: Vec<(String, JsonValue)> = Vec::new();
                let mut i: usize = 0;
                while i < entries.len()
                    invariant
                        i <= entries.len(),
                        out.len() == i,
                        *self is Object,
                        self->Object_0 == *entries,
                        forall|j: int| 0 <= j < i ==> (#[trigger] out[j]).0@ == entries[j].0@ && out[j].1@ == out_of(entries[j].1@),
                    decreases entries.len() - i,
                {
                    let v = entries[i].1.to_output();
                    out.push((entries[i].0.clone(), v));
                    i += 1;
                }
                let r = JsonValue::Object(out);
                proof {
                    lemma_value_entries_view(out@);
                    lemma_out_entries(input_entries_view(entries@));
                    assert(value_entries_view(out@) =~= out_entries(input_entries_view(entries@)));
                }
                r
            },
        }
    }
}

} // verus!

verus! {

/// An object of one entry.
pub open spec fn obj1(k1: Seq<char>, v1: Json) -> Json {
    Json::Object(seq![(k1, v1)])
}

/// An object of two entries, in order.
pub open spec fn obj2(k1: Seq<char>, v1: Json, k2: Seq<char>, v2: Json) -> Json {
    Json::Object(seq![(k1, v1), (k2, v2)])
}

/// A number written as its text.
pub open spec fn num(t: Seq<char>) -> Json {
    Json::Number(t)
}

/// A string value.
pub open spec fn jstr(s: Seq<char>) -> Json {
    Json::Str(s)
}

/// A number value from its text.
pub fn number(t: &str) -> (r: JsonValue)
    ensures
        r@ == num(t@),
{
    JsonValue::Number(t.to_owned())
}

/// A string value.
pub fn string(s: &str) -> (r: JsonValue)
    ensures
        r@ == jstr(s@),
{
    JsonValue::Str(s.to_owned())
}

/// An object of one entry.
pub fn object1(k1: &str, v1: JsonValue) -> (r: JsonValue)
    ensures
        r@ == obj1(k1@, v1@),
{
    let mut e: Vec<(String, JsonValue)> = Vec::new();
    e.push((k1.to_owned(), v1));
    let r = JsonValue::Object(e);
    proof {
        lemma_value_entries_view(e@);
        assert(value_entries_view(e@) =~= seq![(k1@, e@[0].1@)]);
    }
    r
}

/// An object of two entries, in order.
pub fn object2(k1: &str, v1: JsonValue, k2: &str, v2: JsonValue) -> (r: JsonValue)
    ensures
        r@ == obj2(k1@, v1@, k2@, v2@),
{
    let mut e: Vec<(String, JsonValue)> = Vec::new();
    e.push((k1.to_owned(), v1));
    e.push((k2.to_owned(), v2));
    let r = JsonValue::Object(e);
    proof {
        lemma_value_entries_view(e@);
        assert(value_entries_view(e@) =~= seq![(k1@, e@[0].1@), (k2@, e@[1].1@)]);
    }
    r
}

/// An object from its entries, in order.
pub fn object_of(entries: Vec<(String, JsonValue)>) -> (r: JsonValue)
    ensures
        r@ == Json::Object(value_entries_view(entries@)),
{
    JsonValue::Object(entries)
}

/// An array from its items, in order.
pub fn array_of(items: Vec<JsonValue>) -> (r: JsonValue)
    ensures
        r@ == Json::Array(value_items_view(items@)),
{
    JsonValue::Array(items)
}

/// Appends an entry and gives the entries' forms with it.
pub fn push_entry(entries: &mut Vec<(String, JsonValue)>, k: &str, v: JsonValue)
    ensures
        value_entries_view(final(entries)@) == value_entries_view(old(entries)@).push((k@, v@)),
{
    let ghost before = entries@;
    entries.push((k.to_owned(), v));
    proof {
        assert(entries@.drop_last() =~= before);
    }
}

/// Appends an item and gives the items' forms with it.
pub fn push_item(items: &mut Vec<JsonValue>, v: JsonValue)
    ensures
        value_items_view(final(items)@) == value_items_view(old(items)@).push(v@),
{
    let ghost before = items@;
    items.push(v);
    proof {
        assert(items@.drop_last() =~= before);
    }
}

impl JsonValue {
    /// A copy of the value.
    pub fn duplicate(&self) -> (r: JsonValue)
        ensures
            r@ == self@,
        decreases self,
    {
        match self {
            JsonValue::Null => JsonValue::Null,
            JsonValue::Bool(b) => JsonValue::Bool(*b),
            JsonValue::Number(t) => JsonValue::Number(t.clone()),
            JsonValue::Str(s) => JsonValue::Str(s.clone()),
            JsonValue::Array(items) => {
                proof { lemma_value_items_view(items@); }
                let mut out: Vec<JsonValue> = Vec::new();
                let mut i: usize = 0;
                while i < items.len()
                    invariant
                        i <= items.len(),
                        out.len() == i,
                        *self is Array,
                        self->Array_0 == *items,
                        forall|j: int| 0 <= j < i ==> #[trigger] out[j]@ == items[j]@,
                    decreases items.len() - i,
                {
                    out.push(items[i].duplicate());
                    i += 1;
                }
                proof {
                    lemma_value_items_view(out@);
                    assert(value_items_view(out@) =~= value_items_view(items@));
                }
                JsonValue::Array(out)
            },
            JsonValue::Object(entries) => {
                proof { lemma_value_entries_view(entries@); }
                let mut out: Vec<(String, JsonValue)> = Vec::new();
                let mut i: usize = 0;
                while i < entries.len()
                    invariant
                        i <= entries.len(),
                        out.len() == i,
                        *self is Object,
                        self->Object_0 == *entries,
                        forall|j: int| 0 <= j < i ==> (#[trigger] out[j]).0@ == entries[j].0@ && out[j].1@ == entries[j].1@,
                    decreases entries.len() - i,
                {
                    let v = entries[i].1.duplicate();
                    out.push((entries[i].0.clone(), v));
                    i += 1;
                }
                proof {
                    lemma_value_entries_view(out@);
                    assert(value_entries_view(out@) =~= value_entries_view(entries@));
                }
                JsonValue::Object(out)
            },
        }
    }
}

/// The entries of an object without those whose key `dropped` names, each kept value turned by
/// `f` (which sees the key too), in order.
pub open spec fn normalized_entries(es: Seq<(Seq<char>, JIn)>, dropped: spec_fn(Seq<char>) -> bool,
    f: spec_fn(Seq<char>, JIn) -> Json) -> Seq<(Seq<char>, Json)>
    decreases es.len(),
{
    if es.len() == 0 {
        Seq::empty()
    } else {
        let rest = normalized_entries(es.drop_last(), dropped, f);
        if dropped(es.last().0) {
            rest
        } else {
            rest.push((es.last().0, f(es.last().0, es.last().1)))
        }
    }
}

/// Normalized entries hold no key that was to be dropped.
pub proof fn lemma_normalized_entries_drop(es: Seq<(Seq<char>, JIn)>, dropped: spec_fn(Seq<char>) -> bool,
    f: spec_fn(Seq<char>, JIn) -> Json)
    ensures
        forall|t: int| 0 <= t < normalized_entries(es, dropped, f).len()
            ==> !dropped(#[trigger] normalized_entries(es, dropped, f)[t].0),
    decreases es.len(),
{
    if es.len() > 0 {
        lemma_normalized_entries_drop(es.drop_last(), dropped, f);
        let rest = normalized_entries(es.drop_last(), dropped, f);
        let all = normalized_entries(es, dropped, f);
        assert forall|t: int| 0 <= t < all.len() implies !dropped(#[trigger] all[t].0) by {
            if t < rest.len() {
                assert(all[t] == rest[t]);
            }
        }
    }
}

/// serde_json's parsed value, carried through the conversion below without being read by
/// verified code.
#[verifier::external_type_specification]
#[verifier::external_body]
pub struct ExJsonNode(serde_json::Value);

/// The value that `serde_json::from_str` reads from one line of text, as the library's JSON
/// value, or `None` where the line is not JSON.
pub uninterp spec fn json_line(line: Seq<char>) -> Option<JIn>;

/// One value that serde_json parsed, as the library's value: each of serde_json's variants to
/// its own, a number by serde_json's text for it, and an array or object together with its
/// compact JSON text (`to_string`). Nothing is stated of it here: `json_line_of` and
/// `json_body_of`, its callers, state what the whole conversion gives.
#[verifier::external_body]
fn json_node_of(value: &serde_json::Value) -> JsonInput {
    match value {
        serde_json::Value::Null => JsonInput::Null,
        serde_json::Value::Bool(b) => JsonInput::Bool(*b),
        serde_json::Value::Number(n) => JsonInput::Number(n.to_string()),
        serde_json::Value::String(s) => JsonInput::Str(s.clone()),
        serde_json::Value::Array(items) => JsonInput::Array(items.iter().map(json_node_of).collect(), value.to_string()),
        serde_json::Value::Object(m) => JsonInput::Object(m.iter().map(|(k, v)| (k.clone(), json_node_of(v))).collect(), value.to_string()),
    }
}

/// `serde_json::from_str` of a line into serde_json's `Value`, converted into the library's
/// value; `None` where serde_json refuses the line. The contract names the outcome
/// (`json_line`) as a function of the line alone: serde_json's parser is deterministic and
/// its objects are ordered by key.
#[verifier::external_body]
pub(crate) fn json_line_of(line: &str) -> (r: Option<JsonInput>)
    ensures
        match r {
            Some(v) => json_line(line@) == Some(v@),
            None => json_line(line@) is None,
        },
{
    serde_json::from_str::<serde_json::Value>(line).ok().map(|v| json_node_of(&v))
}

/// The value that `serde_json::from_slice` reads from a request body, as the library's JSON
/// value, or `None` where the body is not JSON.
pub uninterp spec fn json_body(body: Seq<u8>) -> Option<JIn>;

/// `serde_json::from_slice` of a body into serde_json's `Value`, converted into the library's
/// value; `None` where serde_json refuses the body. The contract names the outcome
/// (`json_body`) as a function of the bytes alone.
#[verifier::external_body]
fn json_body_of(body: &[u8]) -> (r: Option<JsonInput>)
    ensures
        match r {
            Some(v) => json_body(body@) == Some(v@),
            None => json_body(body@) is None,
        },
{
    serde_json::from_slice::<serde_json::Value>(body).ok().map(|v| json_node_of(&v))
}

/// The JSON payload of a request body; a body that is not JSON reads as `null`.
pub fn request_payload(body: &[u8]) -> (r: JsonInput)
    ensures
        r@ == match json_body(body@) {
            Some(v) => v,
            None => JIn::Null,
        },
{
    match json_body_of(body) {
        Some(v) => v,
        None => JsonInput::Null,
    }
}

} // verus!
