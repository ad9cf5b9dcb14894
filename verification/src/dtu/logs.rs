//! How the DTU server reads runner log lines and names step log files.
use crate::json::{in_get, in_str, opt_in_str, in_text, input_items_view, lemma_input_items_view, JIn, JsonInput};
use crate::text::{cat, split_once_char, strip_prefix, trim_end, trim_end_str, first_index_of,
    char_is_alnum, chars_of, contains, contains_seq, first_occurrence, find_chars, is_ascii_alnum, is_prefix, lemma_first_occurrence_unique,
    push_char, slice_string, starts_with, trim_char, trim_char_str, trim_start_char, trim_start_char_str,
};
use crate::text::{str_eq, views};
use vstd::prelude::*;
use vstd::utf8::encode_utf8;

verus! {

/// The byte-order mark some runner lines start with.
pub const BOM: char = '\u{feff}';

/// A runner log line without its byte-order marks and, when it starts with an ISO timestamp
/// (`YYYY-MM-DDT...Z `), without that timestamp.
pub open spec fn stripped_line(line: Seq<char>) -> Seq<char> {
    let s = trim_start_char(line, '\u{feff}');
    let b = encode_utf8(s);
    if b.len() > 22 && b[4] == 45u8 && b[7] == 45u8 && b[10] == 84u8 && contains_seq(s, "Z "@) {
        let i = choose|i: int| first_occurrence(s, "Z "@, i);
        trim_start_char(s.skip(i + 2), '\u{feff}')
    } else {
        s
    }
}

/// A runner log line without its timestamp prefix.
pub fn strip_runner_line_prefix(line: &str) -> (r: String)
    ensures
        r@ == stripped_line(line@),
{
    let stripped = trim_start_char_str(line, '\u{feff}');
    let b = stripped.as_str().as_bytes();
    if b.len() > 22 && b[4] == 45u8 && b[7] == 45u8 && b[10] == 84u8 {
        let x = chars_of(stripped.as_str());
        let pat = chars_of("Z ");
        proof { reveal_strlit("Z "); }
        if let Some(i) = find_chars(x.as_slice(), pat.as_slice()) {
            proof { lemma_first_occurrence_unique(stripped@, "Z "@, i as int); }
            assert(pat@.len() == 2);
            assert(i + 2 <= x.len());
            let rest = slice_string(x.as_slice(), i + 2, x.len());
            assert(rest@ =~= stripped@.skip(i + 2));
            return trim_start_char_str(rest.as_str(), '\u{feff}');
        }
    }
    stripped
}

/// A line the runner or worker process logs about itself.
pub open spec fn internal_line(line: Seq<char>) -> bool {
    (is_prefix("[RUNNER "@, line) || is_prefix("[WORKER "@, line))
        && (contains_seq(line, " INFO "@) || contains_seq(line, " WARN "@) || contains_seq(line, " ERR "@))
}

/// Whether a log line is the runner's or worker's own diagnostics.
pub fn is_runner_internal_line(line: &str) -> (r: bool)
    ensures
        r == internal_line(line@),
{
    (starts_with(line, "[RUNNER ") || starts_with(line, "[WORKER "))
        && (contains(line, " INFO ") || contains(line, " WARN ") || contains(line, " ERR "))
}

/// A character kept in a log file name, or `-` in its place.
pub open spec fn name_char(c: char) -> char {
    if is_ascii_alnum(c) || c == '_' || c == '.' || c == '-' {
        c
    } else {
        '-'
    }
}

/// The characters of `s` mapped into `acc`, a dash never following a dash, stopping once 80
/// characters are kept.
pub open spec fn sanitized_acc(s: Seq<char>, acc: Seq<char>) -> Seq<char>
    decreases s.len(),
{
    if s.len() == 0 || acc.len() >= 80 {
        acc
    } else {
        let m = name_char(s[0]);
        if m == '-' && acc.len() > 0 && acc.last() == '-' {
            sanitized_acc(s.drop_first(), acc)
        } else {
            sanitized_acc(s.drop_first(), acc.push(m))
        }
    }
}

/// A step name made into a log file name: other characters become dashes, runs of dashes
/// collapse, at most 80 characters are kept, and dashes at either end are dropped.
pub open spec fn sanitized_name(name: Seq<char>) -> Seq<char> {
    trim_char(sanitized_acc(name, Seq::empty()), '-')
}

/// The log file name of a step.
pub fn sanitize_step_log_name(name: &str) -> (r: String)
    ensures
        r@ == sanitized_name(name@),
{
    let x = chars_of(name);
    let mut result = String::new();
    let mut result_len: usize = 0;
    let mut previous_dash = false;
    let mut i: usize = 0;
    assert(name@.skip(0) =~= name@);
    while i < x.len() && result_len < 80
        invariant
            x@ == name@,
            i <= x.len(),
            result_len == result@.len(),
            result_len <= 80,
            previous_dash == (result@.len() > 0 && result@.last() == '-'),
            sanitized_acc(name@.skip(i as int), result@) == sanitized_acc(name@, Seq::empty()),
        decreases x.len() - i,
    {
        let ch = x[i];
        let mapped = if char_is_alnum(ch) || ch == '_' || ch == '.' || ch == '-' { ch } else { '-' };
        assert(mapped == name_char(name@.skip(i as int)[0]));
        assert(name@.skip(i as int).drop_first() =~= name@.skip(i + 1));
        let skip = mapped == '-' && previous_dash;
        if !skip {
            push_char(&mut result, mapped);
            result_len += 1;
            previous_dash = mapped == '-';
        }
        i += 1;
    }
    assert(sanitized_acc(name@.skip(i as int), result@) == result@);
    trim_char_str(result.as_str(), '-')
}

/// The JSON text of a value that is not a string, as `serde_json` writes it.
pub open spec fn json_text(v: JIn) -> Seq<char> {
    if v is Null { "null"@ } else { in_text(v) }
}

/// The text of a line the runner streams: a string, an object's `message` when that is a
/// string, or the value's JSON text.
pub open spec fn feed_line(v: JIn) -> Seq<char> {
    match in_str(v) {
        Some(s) => s,
        None => match in_get(v, "message"@) {
            Some(m) => match in_str(m) {
                Some(s) => s,
                None => json_text(v),
            },
            None => json_text(v),
        },
    }
}

/// The text of one streamed line.
pub fn feed_line_to_string(value: &JsonInput) -> (r: Option<String>)
    ensures
        r matches Some(t) && t@ == feed_line(value@),
{
    if let Some(s) = value.as_str() {
        return Some(s.to_owned());
    }
    if let Some(m) = value.get("message") {
        if let Some(s) = m.as_str() {
            return Some(s.to_owned());
        }
    }
    if let JsonInput::Null = value {
        return Some("null".to_owned());
    }
    Some(value.text())
}

/// The streamed lines of a list of values.
pub open spec fn feed_lines(items: Seq<JIn>) -> Seq<Seq<char>> {
    items.map_values(|v: JIn| feed_line(v))
}

/// The lines a log or feed payload carries: the items of its `value` array, or (when
/// `bare_array` is set and it has no such array) its own items; none otherwise.
pub open spec fn payload_lines(payload: JIn, bare_array: bool) -> Seq<Seq<char>> {
    match in_get(payload, "value"@) {
        Some(JIn::Array(items, _)) => feed_lines(items),
        _ => match payload {
            JIn::Array(items, _) => if bare_array { feed_lines(items) } else { Seq::empty() },
            _ => Seq::empty(),
        },
    }
}

fn lines_of_items(items: &Vec<JsonInput>) -> (r: Vec<String>)
    ensures
        views(r@) == feed_lines(input_items_view(items@)),
{
    proof { lemma_input_items_view(items@); }
    let mut r: Vec<String> = Vec::new();
    let mut i: usize = 0;
    while i < items.len()
        invariant
            i <= items.len(),
            r@.len() == i,
            forall|j: int| 0 <= j < i ==> #[trigger] r@[j]@ == feed_line(items@[j]@),
        decreases items.len() - i,
    {
        match feed_line_to_string(&items[i]) {
            Some(t) => r.push(t),
            None => {},
        }
        i += 1;
    }
    proof {
        lemma_input_items_view(items@);
        assert(views(r@) =~= feed_lines(input_items_view(items@)));
    }
    r
}

/// The lines a log or feed payload carries.
pub fn payload_log_lines(payload: &JsonInput, bare_array: bool) -> (r: Vec<String>)
    ensures
        views(r@) == payload_lines(payload@, bare_array),
{
    if let Some(v) = payload.get("value") {
        if let JsonInput::Array(items, _) = v {
            proof { lemma_input_items_view(items@); }
            return lines_of_items(items);
        }
    }
    match payload {
        JsonInput::Array(items, _) => {
            proof { lemma_input_items_view(items@); }
            if bare_array {
                lines_of_items(items)
            } else {
                let r: Vec<String> = Vec::new();
                assert(views(r@) =~= Seq::<Seq<char>>::empty());
                r
            }
        },
        _ => {
            let r: Vec<String> = Vec::new();
            assert(views(r@) =~= Seq::<Seq<char>>::empty());
            r
        },
    }
}

/// What a batch of step log lines leaves: the text for the step's log file, whether a group
/// is still open, and the `::local-ci-output::` entries it declared.
pub struct OutputState {
    pub content: Seq<char>,
    pub in_group: bool,
    pub outputs: Seq<(Seq<char>, Seq<char>)>,
}

/// The marker of a declared output line.
pub open spec fn output_marker() -> Seq<char> {
    "::local-ci-output::"@
}

/// One line's effect: blank lines keep a line break outside groups; output declarations with
/// a non-empty key are collected; group markers open and close groups; inside a group, and for
/// empty, `##[`, `[command]` and runner-internal lines, nothing is kept; any other line is kept
/// without its timestamp.
pub open spec fn output_step(st: OutputState, raw: Seq<char>) -> OutputState {
    let line = trim_end(raw);
    let stripped = stripped_line(line);
    if line.len() == 0 {
        if st.in_group { st } else { OutputState { content: st.content.push('\n'), ..st } }
    } else if is_prefix(output_marker(), stripped) {
        let kv = stripped.skip(output_marker().len() as int);
        if kv.contains('=') {
            let i = choose|i: int| first_index_of(kv, '=', i);
            if i > 0 {
                OutputState { outputs: st.outputs.push((kv.take(i), kv.skip(i + 1))), ..st }
            } else {
                st
            }
        } else {
            st
        }
    } else if is_prefix("##[group]"@, stripped) {
        OutputState { in_group: true, ..st }
    } else if is_prefix("##[endgroup]"@, stripped) {
        OutputState { in_group: false, ..st }
    } else if st.in_group || stripped.len() == 0 || is_prefix("##["@, stripped) || is_prefix("[command]"@, stripped)
        || internal_line(stripped) {
        st
    } else {
        OutputState { content: st.content + stripped + seq!['\n'], ..st }
    }
}

/// The effect of the lines in order, from no text, no group and no outputs.
pub open spec fn output_state(lines: Seq<Seq<char>>) -> OutputState
    decreases lines.len(),
{
    if lines.len() == 0 {
        OutputState { content: Seq::empty(), in_group: false, outputs: Seq::empty() }
    } else {
        output_step(output_state(lines.drop_last()), lines.last())
    }
}

/// The step log text and the declared outputs of a batch of runner log lines.
#[derive(Debug, Clone, PartialEq, Eq)]
pub struct StepOutput {
    pub content: String,
    pub outputs: Vec<(String, String)>,
}

/// The declared outputs as pairs of texts.
pub open spec fn pair_views(v: Seq<(String, String)>) -> Seq<(Seq<char>, Seq<char>)> {
    v.map_values(|p: (String, String)| (p.0@, p.1@))
}

/// Reads a batch of runner log lines into the text kept for the step's log and the outputs
/// they declare.
pub fn filter_step_output_lines(lines: &Vec<String>) -> (r: StepOutput)
    ensures
        r.content@ == output_state(views(lines@)).content,
        pair_views(r.outputs@) == output_state(views(lines@)).outputs,
{
    let ghost ls = views(lines@);
    let mut content = String::new();
    let mut in_group = false;
    let mut outputs: Vec<(String, String)> = Vec::new();
    proof {
        reveal_strlit("::local-ci-output::");
        reveal_strlit("");
    }
    assert(ls.take(0) =~= Seq::<Seq<char>>::empty());
    assert(content@ =~= Seq::<char>::empty());
    assert(pair_views(outputs@) =~= Seq::<(Seq<char>, Seq<char>)>::empty());
    let mut i: usize = 0;
    while i < lines.len()
        invariant
            i <= lines.len(),
            ls == views(lines@),
            content@ == output_state(ls.take(i as int)).content,
            in_group == output_state(ls.take(i as int)).in_group,
            pair_views(outputs@) == output_state(ls.take(i as int)).outputs,
        decreases lines.len() - i,
    {
        let ghost t = ls.take(i + 1);
        assert(t.drop_last() =~= ls.take(i as int));
        assert(t.last() == lines@[i as int]@);
        let line = trim_end_str(lines[i].as_str());
        if line.as_str().unicode_len() == 0 {
            if !in_group {
                let ghost before = content@;
                push_char(&mut content, '\n');
                assert(content@ =~= before.push('\n'));
            }
        } else {
            let stripped = strip_runner_line_prefix(line.as_str());
            match strip_prefix(stripped.as_str(), "::local-ci-output::") {
                Some(kv) => {
                    if let Some((k, v)) = split_once_char(kv.as_str(), '=') {
                        proof {
                            let j = choose|j: int| first_index_of(kv@, '=', j) && k@ == kv@.take(j) && v@ == kv@.skip(j + 1);
                            let q = choose|q: int| first_index_of(kv@, '=', q);
                            if q < j {
                                assert(kv@[q] != '=');
                            } else if j < q {
                                assert(kv@[j] != '=');
                            }
                        }
                        if k.as_str().unicode_len() > 0 {
                            let ghost before = pair_views(outputs@);
                            outputs.push((k, v));
                            assert(pair_views(outputs@) =~= before.push((outputs@.last().0@, outputs@.last().1@)));
                        }
                    }
                },
                None => {
                    if starts_with(stripped.as_str(), "##[group]") {
                        in_group = true;
                    } else if starts_with(stripped.as_str(), "##[endgroup]") {
                        in_group = false;
                    } else if in_group || stripped.as_str().unicode_len() == 0 || starts_with(stripped.as_str(), "##[")
                        || starts_with(stripped.as_str(), "[command]") || is_runner_internal_line(stripped.as_str()) {
                    } else {
                        let ghost before = content@;
                        content.append(stripped.as_str());
                        push_char(&mut content, '\n');
                        assert(content@ =~= before + stripped@ + seq!['\n']);
                    }
                },
            }
        }
        i += 1;
    }
    assert(ls.take(lines.len() as int) =~= ls);
    StepOutput { content, outputs }
}

/// A string field of a record, or the empty text.
pub open spec fn str_field_or_empty(r: JIn, key: Seq<char>) -> Seq<char> {
    match opt_in_str(in_get(r, key)) {
        Some(s) => s,
        None => Seq::empty(),
    }
}

/// A timeline record of a step the workflow defines, not the runner's set-up or completion.
pub open spec fn user_step_record(r: JIn) -> bool {
    let name = str_field_or_empty(r, "name"@);
    let ref_name = str_field_or_empty(r, "refName"@);
    name != "Set up job"@ && name != "Complete job"@ && ref_name != "JobExtension_Init"@
        && ref_name != "JobExtension_Final"@
}

fn str_field(r: &JsonInput, key: &str) -> (s: String)
    ensures
        s@ == str_field_or_empty(r@, key@),
{
    match r.get(key) {
        Some(v) => match v.as_str() {
            Some(t) => t.to_owned(),
            None => String::new(),
        },
        None => String::new(),
    }
}

/// Whether a timeline record is a step the workflow defines.
pub fn is_user_step_record(record: &JsonInput) -> (r: bool)
    ensures
        r == user_step_record(record@),
{
    let name = str_field(record, "name");
    let ref_name = str_field(record, "refName");
    !str_eq(name.as_str(), "Set up job") && !str_eq(name.as_str(), "Complete job")
        && !str_eq(ref_name.as_str(), "JobExtension_Init") && !str_eq(ref_name.as_str(), "JobExtension_Final")
}

/// How a timeline record of a named task maps to its step's log file: the sanitized step name,
/// the ids its lines may arrive under, and whether the step is in progress.
#[derive(Debug, Clone, PartialEq, Eq)]
pub struct StepLogMapping {
    pub sanitized: String,
    pub ids: Vec<String>,
    pub in_progress: bool,
}

/// The ids a task record's lines may arrive under: its id, its log's id, and (for a step the
/// workflow defines) its parent's id, each when present.
pub open spec fn record_ids(r: JIn) -> Seq<Seq<char>> {
    let a = match opt_in_str(in_get(r, "id"@)) {
        Some(id) => seq![id],
        None => Seq::empty(),
    };
    let b = match crate::runner::timeline::log_id(r) {
        Some(l) => a.push(l),
        None => a,
    };
    if user_step_record(r) {
        match opt_in_str(in_get(r, "parentId"@)) {
            Some(p) => b.push(p),
            None => b,
        }
    } else {
        b
    }
}

/// The mapping of a record: for a `Task` record with a string `name`.
pub open spec fn step_log_mapping_of(r: JIn) -> Option<(Seq<char>, Seq<Seq<char>>, bool)> {
    if opt_in_str(in_get(r, "type"@)) == Some("Task"@) && opt_in_str(in_get(r, "name"@)) is Some {
        let name = opt_in_str(in_get(r, "name"@))->Some_0;
        Some((sanitized_name(name), record_ids(r), match opt_in_str(in_get(r, "state"@)) {
            Some(s) => crate::text::ascii_lower(s) == "inprogress"@,
            None => false,
        }))
    } else {
        None
    }
}

fn opt_str_field(r: &JsonInput, key: &str) -> (s: Option<String>)
    ensures
        match s {
            Some(t) => opt_in_str(in_get(r@, key@)) == Some(t@),
            None => opt_in_str(in_get(r@, key@)) is None,
        },
{
    match r.get(key) {
        Some(v) => match v.as_str() {
            Some(t) => Some(t.to_owned()),
            None => None,
        },
        None => None,
    }
}

/// How a timeline record maps to its step's log file, when it is a named task.
pub fn step_log_mapping(record: &JsonInput) -> (r: Option<StepLogMapping>)
    ensures
        match r {
            Some(m) => step_log_mapping_of(record@) == Some((m.sanitized@, views(m.ids@), m.in_progress)),
            None => step_log_mapping_of(record@) is None,
        },
{
    let is_task = match opt_str_field(record, "type") {
        Some(t) => str_eq(t.as_str(), "Task"),
        None => false,
    };
    if !is_task {
        return None;
    }
    let name = match opt_str_field(record, "name") {
        Some(n) => n,
        None => return None,
    };
    let sanitized = sanitize_step_log_name(name.as_str());
    let mut ids: Vec<String> = Vec::new();
    assert(views(ids@) =~= Seq::<Seq<char>>::empty());
    if let Some(id) = opt_str_field(record, "id") {
        ids.push(id);
        assert(views(ids@) =~= seq![ids@[0]@]);
    }
    let ghost a = views(ids@);
    let lid: Option<String> = match record.get("log") {
        Some(l) => match l.get("id") {
            Some(id) => match id.as_str() {
                Some(s) => Some(s.to_owned()),
                None => match crate::runner::timeline::number_u64_of(id) {
                    Some(n) => Some(crate::text::u64_to_string(n)),
                    None => None,
                },
            },
            None => None,
        },
        None => None,
    };
    assert(crate::yaml::opt_view(lid) == crate::runner::timeline::log_id(record@));
    if let Some(l) = lid {
        ids.push(l);
        assert(views(ids@) =~= a.push(ids@.last()@));
    }
    let ghost b = views(ids@);
    if is_user_step_record(record) {
        if let Some(p) = opt_str_field(record, "parentId") {
            ids.push(p);
            assert(views(ids@) =~= b.push(ids@.last()@));
        }
    }
    let in_progress = match opt_str_field(record, "state") {
        Some(s) => {
            let lower = crate::text::to_ascii_lower(s.as_str());
            str_eq(lower.as_str(), "inprogress")
        },
        None => false,
    };
    Some(StepLogMapping { sanitized, ids, in_progress })
}

} // verus!
