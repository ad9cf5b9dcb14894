//! Event records with their volatile fields dropped, for stable comparisons.
use crate::json::{in_get, lemma_normalized_entries_drop, normalized_entries, opt_in_str, out_of, value_entries_view, value_items_view,
    lemma_input_entries_view, lemma_value_items_view, lemma_value_entries_view, input_entries_view, json_line, json_line_of, JIn, Json,
    JsonInput, JsonValue};
use crate::text::{lines, lines_of, str_eq, views};
use vstd::prelude::*;

verus! {

/// The version of the event format.
pub const EVENT_SCHEMA_VERSION: u8 = 1;

/// An event without its volatile fields: its name and its other fields in the order read.
#[derive(Debug, PartialEq)]
pub struct NormalizedEvent {
    pub event: String,
    pub fields: Vec<(String, JsonValue)>,
}

/// A key an event's normalized fields leave out: the event name itself and the fields that
/// change from run to run.
pub open spec fn event_dropped_key(k: Seq<char>) -> bool {
    k == "event"@ || k == "ts"@ || k == "runId"@ || k == "durationMs"@ || k == "logPath"@ || k == "debugLogPath"@
}

/// An event's name and kept fields: for an object whose `event` is a string.
pub open spec fn normalized_event(v: JIn) -> Option<(Seq<char>, Seq<(Seq<char>, Json)>)> {
    match v {
        JIn::Object(es, _) => match opt_in_str(in_get(v, "event"@)) {
            Some(e) => Some((e, normalized_entries(es, |k: Seq<char>| event_dropped_key(k), |k: Seq<char>, x: JIn| out_of(x)))),
            None => None,
        },
        _ => None,
    }
}

fn is_event_dropped_key(k: &str) -> (r: bool)
    ensures
        r == event_dropped_key(k@),
{
    str_eq(k, "event") || str_eq(k, "ts") || str_eq(k, "runId") || str_eq(k, "durationMs")
        || str_eq(k, "logPath") || str_eq(k, "debugLogPath")
}

/// An event record without its volatile fields (`ts`, `runId`, `durationMs`, `logPath`,
/// `debugLogPath`); none for a record that is not an object with a string `event`.
pub fn normalize_event_value(value: &JsonInput) -> (r: Option<NormalizedEvent>)
    ensures
        match r {
            Some(e) => normalized_event(value@) == Some((e.event@, value_entries_view(e.fields@))),
            None => normalized_event(value@) is None,
        },
{
    let entries = match value {
        JsonInput::Object(entries, _) => entries,
        _ => return None,
    };
    let event = match value.get("event") {
        Some(x) => match x.as_str() {
            Some(e) => e.to_owned(),
            None => return None,
        },
        None => return None,
    };
    proof { lemma_input_entries_view(entries@); }
    let ghost es = input_entries_view(entries@);
    let mut fields: Vec<(String, JsonValue)> = Vec::new();
    let mut i: usize = 0;
    assert(es.take(0) =~= Seq::<(Seq<char>, JIn)>::empty());
    assert(value_entries_view(fields@) =~= Seq::<(Seq<char>, Json)>::empty());
    while i < entries.len()
        invariant
            i <= entries.len(),
            es == input_entries_view(entries@),
            es.len() == entries.len(),
            forall|j: int| 0 <= j < entries.len() ==> #[trigger] es[j] == (entries[j].0@, entries[j].1@),
            value_entries_view(fields@) == normalized_entries(es.take(i as int), |k: Seq<char>| event_dropped_key(k), |k: Seq<char>, x: JIn| out_of(x)),
        decreases entries.len() - i,
    {
        assert(es.take(i + 1).drop_last() =~= es.take(i as int));
        assert(es.take(i + 1).last() == es[i as int]);
        if !is_event_dropped_key(entries[i].0.as_str()) {
            let v = entries[i].1.to_output();
            let ghost before = fields@;
            fields.push((entries[i].0.clone(), v));
            proof {
                assert(fields@.drop_last() =~= before);
                assert(value_entries_view(fields@) == value_entries_view(before).push((entries[i as int].0@, out_of(entries[i as int].1@))));
            }
        }
        i += 1;
    }
    assert(es.take(entries.len() as int) =~= es);
    Some(NormalizedEvent { event, fields })
}

/// The object an event is written as: its name under `event`, then its fields.
pub open spec fn event_object(e: NormalizedEvent) -> Json {
    Json::Object(seq![("event"@, Json::Str(e.event@))] + value_entries_view(e.fields@))
}

/// The events as a JSON array of objects, in order.
pub fn normalized_events_to_value(events: &Vec<NormalizedEvent>) -> (r: JsonValue)
    ensures
        r@ == Json::Array(events@.map_values(|e: NormalizedEvent| event_object(e))),
{
    let mut items: Vec<JsonValue> = Vec::new();
    let mut i: usize = 0;
    while i < events.len()
        invariant
            i <= events.len(),
            items.len() == i,
            forall|j: int| 0 <= j < i ==> #[trigger] items[j]@ == event_object(events[j]),
        decreases events.len() - i,
    {
        let e = &events[i];
        let mut entries: Vec<(String, JsonValue)> = Vec::new();
        entries.push(("event".to_owned(), JsonValue::Str(e.event.clone())));
        proof { lemma_value_entries_view(e.fields@); }
        let mut k: usize = 0;
        while k < e.fields.len()
            invariant
                k <= e.fields.len(),
                entries.len() == k + 1,
                entries[0].0@ == "event"@,
                entries[0].1@ == Json::Str(e.event@),
                forall|j: int| 0 <= j < k ==> (#[trigger] entries[j + 1]).0@ == e.fields[j].0@ && entries[j + 1].1@ == e.fields[j].1@,
            decreases e.fields.len() - k,
        {
            let v = e.fields[k].1.duplicate();
            entries.push((e.fields[k].0.clone(), v));
            k += 1;
        }
        proof {
            lemma_value_entries_view(entries@);
            let want = seq![("event"@, Json::Str(e.event@))] + value_entries_view(e.fields@);
            assert forall|t: int| 0 <= t < entries.len() implies #[trigger] value_entries_view(entries@)[t] == want[t] by {
                if t > 0 {
                    let j = t - 1;
                    assert(entries[j + 1].0@ == e.fields[j].0@ && entries[j + 1].1@ == e.fields[j].1@);
                }
            }
            assert(value_entries_view(entries@) =~= want);
        }
        items.push(JsonValue::Object(entries));
        i += 1;
    }
    proof {
        lemma_value_items_view(items@);
        assert(value_items_view(items@) =~= events@.map_values(|e: NormalizedEvent| event_object(e)));
    }
    JsonValue::Array(items)
}

/// A normalized event keeps none of the volatile fields, nor a second `event`.
pub proof fn lemma_normalized_event_drops_volatile_fields(v: JIn)
    ensures
        normalized_event(v) matches Some((e, fields)) ==> forall|t: int| 0 <= t < fields.len()
            ==> !event_dropped_key(#[trigger] fields[t].0),
{
    if let JIn::Object(es, _) = v {
        lemma_normalized_entries_drop(es, |k: Seq<char>| event_dropped_key(k), |k: Seq<char>, x: JIn| out_of(x));
    }
}

pub open spec fn event_view(e: NormalizedEvent) -> (Seq<char>, Seq<(Seq<char>, Json)>) {
    (e.event@, value_entries_view(e.fields@))
}

/// The events among parsed lines, in order: each line that parsed to a value that is an event;
/// lines that did not parse (`None`) and values that are not events are left out.
pub open spec fn events_of(lines: Seq<Option<JIn>>) -> Seq<(Seq<char>, Seq<(Seq<char>, Json)>)>
    decreases lines.len(),
{
    if lines.len() == 0 {
        Seq::empty()
    } else {
        let rest = events_of(lines.drop_last());
        match lines.last() {
            Some(v) => match normalized_event(v) {
                Some(e) => rest.push(e),
                None => rest,
            },
            None => rest,
        }
    }
}

/// Each line of a text (as `str::lines` splits it) as serde_json parses it.
pub open spec fn parsed_lines(input: Seq<char>) -> Seq<Option<JIn>> {
    lines_of(input).map_values(|l: Seq<char>| json_line(l))
}

/// The events of NDJSON text: each line is parsed, and the lines that are events are kept in
/// order with their volatile fields dropped.
pub fn normalize_event_lines(input: &str) -> (r: Vec<NormalizedEvent>)
    ensures
        r@.map_values(|e: NormalizedEvent| event_view(e)) == events_of(parsed_lines(input@)),
{
    let all = lines(input);
    let ghost parsed = parsed_lines(input@);
    let mut r: Vec<NormalizedEvent> = Vec::new();
    let mut i: usize = 0;
    while i < all.len()
        invariant
            i <= all.len(),
            views(all@) == lines_of(input@),
            parsed == parsed_lines(input@),
            parsed.len() == all.len(),
            r@.map_values(|e: NormalizedEvent| event_view(e)) == events_of(parsed.take(i as int)),
        decreases all.len() - i,
    {
        assert(parsed.take(i + 1).drop_last() =~= parsed.take(i as int));
        assert(parsed.take(i + 1).last() == parsed[i as int]);
        assert(views(all@)[i as int] == all[i as int]@);
        let line = json_line_of(all[i].as_str());
        if let Some(v) = line {
            if let Some(e) = normalize_event_value(&v) {
                let ghost before = r@;
                r.push(e);
                assert(r@.map_values(|e: NormalizedEvent| event_view(e)) =~= before.map_values(|e: NormalizedEvent| event_view(e)).push(event_view(e)));
            }
        }
        i += 1;
    }
    assert(parsed.take(all.len() as int) =~= parsed);
    r
}

} // verus!
