//! Job outputs the runner reports: which keys of a job's `outputs.json` a report writes.
use crate::json::{in_get, lemma_input_entries_view, input_entries_view, out_of, value_entries_view, JIn, Json,
    JsonInput, JsonValue};
use crate::text::{cat3, str_eq};
use vstd::prelude::*;

verus! {

/// The writes an output report makes, in order, for the entries of an object under `prefix`
/// (none for anything that is not an object).
pub open spec fn output_writes(prefix: Seq<char>, v: JIn) -> Seq<(Seq<char>, Json)>
    decreases v, 1nat,
{
    match v {
        JIn::Object(es, _) => entry_writes(prefix, es),
        _ => Seq::empty(),
    }
}

/// A key under a prefix: `prefix.key`, or the key itself under the empty prefix.
pub open spec fn flat_key(prefix: Seq<char>, key: Seq<char>) -> Seq<char> {
    if prefix.len() == 0 {
        key
    } else {
        prefix + "."@ + key
    }
}

/// The writes of a report's entries: an entry whose value has a `value` field writes that
/// field under both its flattened key and its own key; an object without one is flattened
/// under its key; any other value is written under both keys.
pub open spec fn entry_writes(prefix: Seq<char>, es: Seq<(Seq<char>, JIn)>) -> Seq<(Seq<char>, Json)>
    decreases es, 0nat,
{
    if es.len() == 0 {
        Seq::empty()
    } else {
        let key = es.last().0;
        let value = es.last().1;
        let flat = flat_key(prefix, key);
        entry_writes(prefix, es.drop_last()) + match in_get(value, "value"@) {
            Some(o) => seq![(flat, out_of(o)), (key, out_of(o))],
            None => if value is Object {
                output_writes(flat, value)
            } else {
                seq![(flat, out_of(value)), (key, out_of(value))]
            },
        }
    }
}

/// The writes an output report makes to a job's outputs (see `output_writes`); applied in
/// order, a later write of a key replaces an earlier one.
pub fn output_writes_of(prefix: &str, value: &JsonInput) -> (r: Vec<(String, JsonValue)>)
    ensures
        value_entries_view(r@) == output_writes(prefix@, value@),
    decreases value,
{
    let mut out: Vec<(String, JsonValue)> = Vec::new();
    match value {
        JsonInput::Object(entries, _) => {
            proof { lemma_input_entries_view(entries@); }
            let ghost es = input_entries_view(entries@);
            let mut i: usize = 0;
            assert(es.take(0) =~= Seq::<(Seq<char>, JIn)>::empty());
            assert(value_entries_view(out@) =~= Seq::<(Seq<char>, Json)>::empty());
            while i < entries.len()
                invariant
                    i <= entries.len(),
                    *value is Object,
                    value->Object_0 == *entries,
                    es == input_entries_view(entries@),
                    es.len() == entries.len(),
                    forall|j: int| 0 <= j < entries.len() ==> #[trigger] es[j] == (entries[j].0@, entries[j].1@),
                    value_entries_view(out@) == entry_writes(prefix@, es.take(i as int)),
                decreases entries.len() - i,
            {
                assert(es.take(i + 1).drop_last() =~= es.take(i as int));
                assert(es.take(i + 1).last() == es[i as int]);
                let key = &entries[i].0;
                let v = &entries[i].1;
                proof {
                    reveal_strlit(".");
                    reveal_strlit("");
                    if prefix@.len() == 0 {
                        assert(prefix@ =~= ""@);
                    }
                }
                let flat = if str_eq(prefix, "") { key.clone() } else { cat3(prefix, ".", key.as_str()) };
                assert(flat@ == flat_key(prefix@, key@));
                let ghost prev0 = out@;
                let ghost before = value_entries_view(out@);
                proof { reveal_strlit("value"); }
                match v.get("value") {
                    Some(o) => {
                        out.push((flat, o.to_output()));
                        out.push((key.clone(), o.to_output()));
                        proof {
                            crate::json::lemma_value_entries_view(out@);
                            crate::json::lemma_value_entries_view(prev0);
                            assert(value_entries_view(out@) =~= before + seq![(flat_key(prefix@, key@), out_of(o@)), (key@, out_of(o@))]);
                        }
                    },
                    None => {
                        if let JsonInput::Object(_, _) = v {
                            let sub = output_writes_of(flat.as_str(), v);
                            let mut k: usize = 0;
                            let ghost base = out@;
                            while k < sub.len()
                                invariant
                                    k <= sub.len(),
                                    value_entries_view(out@) == value_entries_view(base) + value_entries_view(sub@).take(k as int),
                                decreases sub.len() - k,
                            {
                                proof { crate::json::lemma_value_entries_view(sub@); }
                                let e = (sub[k].0.clone(), sub[k].1.duplicate());
                                let ghost prev = out@;
                                out.push(e);
                                proof {
                                    crate::json::lemma_value_entries_view(out@);
                                    crate::json::lemma_value_entries_view(prev);
                                    assert(value_entries_view(out@) =~= value_entries_view(prev).push((sub@[k as int].0@, sub@[k as int].1@)));
                                    assert(value_entries_view(sub@).take(k + 1) =~= value_entries_view(sub@).take(k as int).push(value_entries_view(sub@)[k as int]));
                                }
                                k += 1;
                            }
                            proof { crate::json::lemma_value_entries_view(sub@); }
                            assert(value_entries_view(sub@).take(sub.len() as int) =~= value_entries_view(sub@));
                        } else {
                            out.push((flat, v.to_output()));
                            out.push((key.clone(), v.to_output()));
                            proof {
                                crate::json::lemma_value_entries_view(out@);
                                crate::json::lemma_value_entries_view(prev0);
                                assert(value_entries_view(out@) =~= before + seq![(flat_key(prefix@, key@), out_of(v@)), (key@, out_of(v@))]);
                            }
                        }
                    },
                }
                i += 1;
            }
            assert(es.take(entries.len() as int) =~= es);
        },
        _ => {
            assert(value_entries_view(out@) =~= Seq::<(Seq<char>, Json)>::empty());
        },
    }
    out
}

} // verus!
