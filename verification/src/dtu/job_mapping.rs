//! Identifiers and tokens the DTU server hands to runners.
use crate::json::{
    in_get, in_str, in_text, input_entries_view, input_items_view, lemma_input_entries_view, lemma_input_items_view,
    opt_in_str, out_of, JIn, JsonInput, array_of, jstr, lemma_value_entries_view, lemma_value_items_view, num, obj1, obj2, object1, object2, number,
    push_entry, push_item, string, value_entries_view, value_items_view, Json, JsonValue,
};
use crate::text::{cat, cat3, hex_digit, is_prefix, is_suffix, lower_hex_char, push_char, strip_prefix, strip_suffix, trim, trim_str};
use vstd::prelude::*;
use vstd::utf8::encode_utf8;

verus! {

/// The last `w` hexadecimal digits of `n`, most significant first.
pub open spec fn hex_fixed(n: nat, w: nat) -> Seq<char>
    decreases w,
{
    if w == 0 {
        Seq::empty()
    } else {
        hex_fixed(n / 16, (w - 1) as nat).push(lower_hex_char(n % 16))
    }
}

/// A version-4-shaped identifier whose last group is the low 48 bits of `id` in hexadecimal.
pub open spec fn mock_uuid_spec(id: nat) -> Seq<char> {
    "00000000-0000-4000-8000-"@ + hex_fixed(id % 0x1_0000_0000_0000, 12)
}

/// An identifier made from a counter.
pub fn mock_uuid(id: u64) -> (r: String)
    ensures
        r@ == mock_uuid_spec(id as nat),
{
    let tail = id & 0x0000_ffff_ffff_ffff;
    assert(tail == id % 0x1_0000_0000_0000) by (bit_vector)
        requires
            tail == id & 0x0000_ffff_ffff_ffff,
    ;
    let mut digits: Vec<char> = Vec::new();
    let mut z: usize = 0;
    while z < 12
        invariant
            z <= 12,
            digits@.len() == z,
        decreases 12 - z,
    {
        digits.push('0');
        z += 1;
    }
    let mut m: u64 = tail;
    let mut k: usize = 0;
    assert(digits@.subrange(12, 12) =~= Seq::<char>::empty());
    while k < 12
        invariant
            k <= 12,
            digits@.len() == 12,
            hex_fixed(tail as nat, 12) == hex_fixed(m as nat, (12 - k) as nat) + digits@.subrange(12 - k, 12),
        decreases 12 - k,
    {
        let d = (m % 16) as u8;
        let c = hex_digit(d);
        let ghost before = digits@;
        digits.set(11 - k, c);
        assert(digits@.subrange(11 - k, 12) =~= seq![c] + before.subrange(12 - k, 12));
        assert(hex_fixed(m as nat, (12 - k) as nat) == hex_fixed((m / 16) as nat, (11 - k) as nat).push(c));
        m = m / 16;
        k += 1;
    }
    assert(hex_fixed(m as nat, 0) =~= Seq::<char>::empty());
    assert(digits@.subrange(0, 12) =~= digits@);
    let mut r = String::new();
    proof { reveal_strlit("00000000-0000-4000-8000-"); }
    r.append("00000000-0000-4000-8000-");
    let mut i: usize = 0;
    let ghost prefix = r@;
    while i < 12
        invariant
            i <= 12,
            digits@.len() == 12,
            r@ == prefix + digits@.take(i as int),
        decreases 12 - i,
    {
        push_char(&mut r, digits[i]);
        i += 1;
        assert(r@ =~= prefix + digits@.take(i as int));
    }
    assert(digits@.take(12) =~= digits@);
    r
}

/// The URL-safe base64 alphabet.
pub open spec fn b64_char(v: nat) -> char {
    if v < 26 {
        (65 + v) as char
    } else if v < 52 {
        (97 + (v - 26)) as char
    } else if v < 62 {
        (48 + (v - 52)) as char
    } else if v == 62 {
        '-'
    } else {
        '_'
    }
}

/// One to three bytes in base64 without padding.
pub open spec fn b64_chunk(c: Seq<u8>) -> Seq<char> {
    let b0 = c[0] as nat;
    let b1 = if c.len() > 1 { c[1] as nat } else { 0 };
    let b2 = if c.len() > 2 { c[2] as nat } else { 0 };
    let first = seq![b64_char(b0 / 4), b64_char((b0 % 4) * 16 + b1 / 16)];
    let second = if c.len() > 1 { seq![b64_char((b1 % 16) * 4 + b2 / 64)] } else { Seq::empty() };
    let third = if c.len() > 2 { seq![b64_char(b2 % 64)] } else { Seq::empty() };
    first + second + third
}

/// Bytes in URL-safe base64 without padding, three bytes at a time.
pub open spec fn base64_url_spec(bytes: Seq<u8>) -> Seq<char>
    decreases bytes.len(),
{
    if bytes.len() == 0 {
        Seq::empty()
    } else if bytes.len() <= 3 {
        b64_chunk(bytes)
    } else {
        b64_chunk(bytes.take(3)) + base64_url_spec(bytes.skip(3))
    }
}

fn table_char(v: u8) -> (c: char)
    requires
        v < 64,
    ensures
        c == b64_char(v as nat),
{
    if v < 26 {
        (65u8 + v) as char
    } else if v < 52 {
        (97u8 + (v - 26)) as char
    } else if v < 62 {
        (48u8 + (v - 52)) as char
    } else if v == 62 {
        '-'
    } else {
        '_'
    }
}

/// Bytes in URL-safe base64 without padding.
pub fn base64_url(bytes: &[u8]) -> (r: String)
    ensures
        r@ == base64_url_spec(bytes@),
{
    let mut out = String::new();
    let n = bytes.len();
    let mut i: usize = 0;
    assert(bytes@.skip(0) =~= bytes@);
    while i < n
        invariant
            n == bytes@.len(),
            i <= n,
            out@ + base64_url_spec(bytes@.skip(i as int)) == base64_url_spec(bytes@),
        decreases n - i,
    {
        let rest = n - i;
        let b0 = bytes[i];
        let b1: u8 = if rest > 1 { bytes[i + 1] } else { 0 };
        let b2: u8 = if rest > 2 { bytes[i + 2] } else { 0 };
        let ghost chunk = if rest <= 3 { bytes@.skip(i as int) } else { bytes@.skip(i as int).take(3) };
        assert(chunk[0] == b0);
        assert(chunk.len() > 1 ==> chunk[1] == b1);
        assert(chunk.len() > 2 ==> chunk[2] == b2);
        let ghost start = out@;
        push_char(&mut out, table_char(b0 / 4));
        push_char(&mut out, table_char((b0 % 4) * 16 + b1 / 16));
        if rest > 1 {
            push_char(&mut out, table_char((b1 % 16) * 4 + b2 / 64));
        }
        if rest > 2 {
            push_char(&mut out, table_char(b2 % 64));
        }
        assert(out@ =~= start + b64_chunk(chunk));
        if rest <= 3 {
            assert(base64_url_spec(bytes@.skip(i as int)) == b64_chunk(chunk));
            i = n;
            assert(bytes@.skip(i as int) =~= Seq::<u8>::empty());
        } else {
            assert(bytes@.skip(i as int).skip(3) =~= bytes@.skip(i + 3));
            i = i + 3;
        }
    }
    assert(bytes@.skip(i as int) =~= Seq::<u8>::empty());
    out
}

/// The header of the tokens the DTU server hands out.
pub open spec fn jwt_header() -> Seq<char> {
    "{\"alg\":\"HS256\",\"typ\":\"JWT\"}"@
}

/// The payload of a token for a plan and job.
pub open spec fn jwt_payload(plan_id: Seq<char>, job_id: Seq<char>) -> Seq<char> {
    "{\"orchid\":\"123\",\"scp\":\"Actions.Results:"@ + plan_id + ":"@ + job_id + "\"}"@
}

/// An unsigned token scoped to a plan and job: header and payload in base64, then a fixed
/// signature.
pub open spec fn mock_jwt_spec(plan_id: Seq<char>, job_id: Seq<char>) -> Seq<char> {
    base64_url_spec(encode_utf8(jwt_header())) + "."@ + base64_url_spec(encode_utf8(jwt_payload(plan_id, job_id)))
        + ".mock-signature"@
}

/// The token a runner gets for a plan and job.
pub fn create_mock_jwt(plan_id: &str, job_id: &str) -> (r: String)
    ensures
        r@ == mock_jwt_spec(plan_id@, job_id@),
{
    let mut payload = cat3("{\"orchid\":\"123\",\"scp\":\"Actions.Results:", plan_id, ":");
    payload.append(job_id);
    payload.append("\"}");
    let header = "{\"alg\":\"HS256\",\"typ\":\"JWT\"}";
    let a = base64_url(header.as_bytes());
    let b = base64_url(payload.as_str().as_bytes());
    let mut r = cat3(a.as_str(), ".", b.as_str());
    r.append(".mock-signature");
    r
}


// ---------------------------------------------------------------------------
// Context data and template tokens
// ---------------------------------------------------------------------------

/// A value as runner context data: a tagged object per kind; objects keep their entries' order.
pub open spec fn ctx_data(v: Json) -> Json
    decreases v, 1nat,
{
    match v {
        Json::Str(s) => obj2("t"@, num("0"@), "s"@, jstr(s)),
        Json::Bool(b) => obj2("t"@, num("3"@), "b"@, Json::Bool(b)),
        Json::Number(n) => obj2("t"@, num("4"@), "n"@, Json::Number(n)),
        Json::Array(items) => obj2("t"@, num("1"@), "a"@, Json::Array(ctx_items(items))),
        Json::Object(entries) => obj2("t"@, num("2"@), "d"@, Json::Array(ctx_entries(entries))),
        Json::Null => obj2("t"@, num("0"@), "s"@, jstr(Seq::empty())),
    }
}

/// The context data of each item, in order.
pub open spec fn ctx_items(items: Seq<Json>) -> Seq<Json>
    decreases items, 0nat,
{
    if items.len() == 0 {
        Seq::empty()
    } else {
        ctx_items(items.drop_last()).push(ctx_data(items.last()))
    }
}

/// Each entry as `{k, v}` with its value's context data, in order.
pub open spec fn ctx_entries(entries: Seq<(Seq<char>, Json)>) -> Seq<Json>
    decreases entries, 0nat,
{
    if entries.len() == 0 {
        Seq::empty()
    } else {
        ctx_entries(entries.drop_last()).push(obj2("k"@, jstr(entries.last().0), "v"@, ctx_data(entries.last().1)))
    }
}

/// A value as runner context data.
pub fn to_context_data(value: &JsonValue) -> (r: JsonValue)
    ensures
        r@ == ctx_data(value@),
    decreases value,
{
    proof {
        reveal_strlit("t");
        reveal_strlit("s");
    }
    match value {
        JsonValue::Str(text) => {
            let copy = text.clone();
            assert(value@ == Json::Str(copy@));
            assert(ctx_data(Json::Str(copy@)) == obj2("t"@, num("0"@), "s"@, jstr(copy@)));
            let r = object2("t", number("0"), "s", JsonValue::Str(copy));
            assert(r@ == obj2("t"@, num("0"@), "s"@, jstr(copy@)));
            assert(r@ == ctx_data(value@));
            r
        },
        JsonValue::Bool(b) => {
            let r = object2("t", number("3"), "b", JsonValue::Bool(*b));
            assert(r@ == ctx_data(value@));
            r
        },
        JsonValue::Number(n) => {
            let r = object2("t", number("4"), "n", JsonValue::Number(n.clone()));
            assert(r@ == ctx_data(value@));
            r
        },
        JsonValue::Null => {
            proof { reveal_strlit(""); }
            assert(""@ =~= Seq::<char>::empty());
            let r = object2("t", number("0"), "s", string(""));
            assert(r@ == ctx_data(value@));
            r
        },
        JsonValue::Array(items) => {
            proof { lemma_value_items_view(items@); }
            let ghost model = value_items_view(items@);
            let mut out: Vec<JsonValue> = Vec::new();
            let mut i: usize = 0;
            assert(value_items_view(out@) =~= ctx_items(model.take(0)));
            while i < items.len()
                invariant
                    i <= items.len(),
                    *value is Array,
                    value->Array_0 == *items,
                    model == value_items_view(items@),
                    model.len() == items.len(),
                    forall|j: int| 0 <= j < items.len() ==> #[trigger] model[j] == items[j]@,
                    value_items_view(out@) == ctx_items(model.take(i as int)),
                decreases items.len() - i,
            {
                let c = to_context_data(&items[i]);
                push_item(&mut out, c);
                assert(model.take(i + 1).drop_last() =~= model.take(i as int));
                i += 1;
            }
            assert(model.take(items.len() as int) =~= model);
            let r = object2("t", number("1"), "a", array_of(out));
            assert(r@ == ctx_data(value@));
            r
        },
        JsonValue::Object(entries) => {
            proof { lemma_value_entries_view(entries@); }
            let ghost model = value_entries_view(entries@);
            let mut out: Vec<JsonValue> = Vec::new();
            let mut i: usize = 0;
            assert(value_items_view(out@) =~= ctx_entries(model.take(0)));
            while i < entries.len()
                invariant
                    i <= entries.len(),
                    *value is Object,
                    value->Object_0 == *entries,
                    model == value_entries_view(entries@),
                    model.len() == entries.len(),
                    forall|j: int| 0 <= j < entries.len() ==> #[trigger] model[j] == (entries[j].0@, entries[j].1@),
                    value_items_view(out@) == ctx_entries(model.take(i as int)),
                decreases entries.len() - i,
            {
                let c = to_context_data(&entries[i].1);
                let e = object2("k", JsonValue::Str(entries[i].0.clone()), "v", c);
                push_item(&mut out, e);
                assert(model.take(i + 1).drop_last() =~= model.take(i as int));
                i += 1;
            }
            assert(model.take(entries.len() as int) =~= model);
            let r = object2("t", number("2"), "d", array_of(out));
            assert(r@ == ctx_data(value@));
            r
        },
    }
}

/// A template token for a string: an expression token for `${{ ... }}` (its inner text
/// trimmed), else the string itself.
pub open spec fn token_value(v: Seq<char>) -> Json {
    let t = trim(v);
    if is_prefix("${{"@, t) && is_suffix("}}"@, t.skip(3)) {
        obj2("type"@, num("3"@), "expr"@, jstr(trim(t.skip(3).take(t.len() - 5))))
    } else {
        jstr(v)
    }
}

/// The template token of a string.
pub fn to_template_token_value(value: &str) -> (r: JsonValue)
    ensures
        r@ == token_value(value@),
{
    proof {
        reveal_strlit("${{");
        reveal_strlit("}}");
    }
    let trimmed = trim_str(value);
    if let Some(rest) = strip_prefix(trimmed.as_str(), "${{") {
        if let Some(inner) = strip_suffix(rest.as_str(), "}}") {
            assert(rest@ == trimmed@.skip(3));
            assert(inner@ =~= trimmed@.skip(3).take(trimmed@.len() - 5));
            return object2("type", number("3"), "expr", JsonValue::Str(trim_str(inner.as_str())));
        }
    }
    JsonValue::Str(value.to_owned())
}

/// The `{Key, Value}` tokens of key and text pairs, in order.
pub open spec fn token_entries(pairs: Seq<(Seq<char>, Seq<char>)>) -> Seq<Json>
    decreases pairs.len(),
{
    if pairs.len() == 0 {
        Seq::empty()
    } else {
        token_entries(pairs.drop_last()).push(obj2("Key"@, jstr(pairs.last().0), "Value"@, token_value(pairs.last().1)))
    }
}

/// A mapping token of key and text pairs: without a map when there are none.
pub open spec fn token_mapping(pairs: Seq<(Seq<char>, Seq<char>)>) -> Json {
    if pairs.len() == 0 {
        obj1("type"@, num("2"@))
    } else {
        obj2("type"@, num("2"@), "map"@, Json::Array(token_entries(pairs)))
    }
}

/// Pairs of strings taken by their views.
pub open spec fn pair_views(pairs: Seq<(String, String)>) -> Seq<(Seq<char>, Seq<char>)> {
    pairs.map_values(|p: (String, String)| (p.0@, p.1@))
}

/// The mapping token of key and text pairs.
pub fn template_token_mapping(pairs: &Vec<(String, String)>) -> (r: JsonValue)
    ensures
        r@ == token_mapping(pair_views(pairs@)),
{
    let ghost ps = pair_views(pairs@);
    if pairs.len() == 0 {
        return object1("type", number("2"));
    }
    let mut out: Vec<JsonValue> = Vec::new();
    let mut i: usize = 0;
    assert(value_items_view(out@) =~= token_entries(ps.take(0)));
    while i < pairs.len()
        invariant
            i <= pairs.len(),
            ps == pair_views(pairs@),
            value_items_view(out@) == token_entries(ps.take(i as int)),
        decreases pairs.len() - i,
    {
        let e = object2("Key", JsonValue::Str(pairs[i].0.clone()), "Value", to_template_token_value(pairs[i].1.as_str()));
        push_item(&mut out, e);
        assert(ps.take(i + 1).drop_last() =~= ps.take(i as int));
        assert(ps.take(i + 1).last() == (pairs@[i as int].0@, pairs@[i as int].1@));
        i += 1;
    }
    assert(ps.take(pairs.len() as int) =~= ps);
    object2("type", number("2"), "map", array_of(out))
}

/// A sequence token of strings.
pub open spec fn sequence_token(items: Seq<Seq<char>>) -> Json {
    obj2("type"@, num("1"@), "seq"@, Json::Array(items.map_values(|s: Seq<char>| jstr(s))))
}

/// The sequence token of strings.
pub fn template_sequence_from_strings(items: &Vec<String>) -> (r: JsonValue)
    ensures
        r@ == sequence_token(crate::text::views(items@)),
{
    let mut out: Vec<JsonValue> = Vec::new();
    let mut i: usize = 0;
    while i < items.len()
        invariant
            i <= items.len(),
            value_items_view(out@) == crate::text::views(items@).take(i as int).map_values(|s: Seq<char>| jstr(s)),
        decreases items.len() - i,
    {
        push_item(&mut out, JsonValue::Str(items[i].clone()));
        assert(crate::text::views(items@).take(i + 1).map_values(|s: Seq<char>| jstr(s)) =~= crate::text::views(items@).take(i as int).map_values(|s: Seq<char>| jstr(s)).push(jstr(items@[i as int]@)));
        i += 1;
    }
    assert(crate::text::views(items@).take(items.len() as int) =~= crate::text::views(items@));
    object2("type", number("1"), "seq", array_of(out))
}


// ---------------------------------------------------------------------------
// Reading seeded jobs
// ---------------------------------------------------------------------------

/// The first of the keys whose value is a string, and that string.
pub open spec fn field_of(v: JIn, keys: Seq<Seq<char>>) -> Option<Seq<char>>
    decreases keys.len(),
{
    if keys.len() == 0 {
        None
    } else {
        match opt_in_str(in_get(v, keys[0])) {
            Some(s) => Some(s),
            None => field_of(v, keys.drop_first()),
        }
    }
}

/// Keys taken by their views.
pub open spec fn key_views(keys: Seq<&str>) -> Seq<Seq<char>> {
    keys.map_values(|k: &str| k@)
}

/// The string under the first of `keys` that holds one.
pub fn string_field(value: &JsonInput, keys: &[&str]) -> (r: Option<String>)
    ensures
        match r {
            Some(s) => field_of(value@, key_views(keys@)) == Some(s@),
            None => field_of(value@, key_views(keys@)) is None,
        },
{
    let ghost ks = key_views(keys@);
    let mut i: usize = 0;
    assert(ks.skip(0) =~= ks);
    while i < keys.len()
        invariant
            i <= keys@.len(),
            ks == key_views(keys@),
            field_of(value@, ks) == field_of(value@, ks.skip(i as int)),
        decreases keys.len() - i,
    {
        assert(ks.skip(i as int)[0] == keys@[i as int]@);
        match value.get(keys[i]) {
            Some(v) => match v.as_str() {
                Some(s) => return Some(s.to_owned()),
                None => {},
            },
            None => {},
        }
        assert(ks.skip(i as int).drop_first() =~= ks.skip(i + 1));
        i += 1;
    }
    None
}

/// The entries of a read object with their values as text; a later key replaces an earlier one.
pub open spec fn text_entries_map(entries: Seq<(Seq<char>, JIn)>) -> Map<Seq<char>, Seq<char>>
    decreases entries.len(),
{
    if entries.len() == 0 {
        Map::empty()
    } else {
        text_entries_map(entries.drop_last()).insert(entries.last().0, in_text(entries.last().1))
    }
}

/// The string map of an optional read value: its entries' texts when it is an object.
pub open spec fn string_map_spec(v: Option<JIn>) -> Map<Seq<char>, Seq<char>> {
    match v {
        Some(JIn::Object(entries, _)) => text_entries_map(entries),
        _ => Map::empty(),
    }
}

/// An optional read value taken by its form.
pub open spec fn opt_in(v: Option<&JsonInput>) -> Option<JIn> {
    match v {
        Some(x) => Some(x@),
        None => None,
    }
}

/// The entries of a read object as a map of texts.
pub fn string_map_from_value(value: Option<&JsonInput>) -> (r: crate::strmap::StrMap<String>)
    ensures
        r.wf(),
        crate::strmap::text_map(r) == string_map_spec(opt_in(value)),
{
    let mut r: crate::strmap::StrMap<String> = crate::strmap::StrMap::new();
    assert(crate::strmap::text_map(r) =~= Map::empty());
    let entries = match value {
        Some(JsonInput::Object(entries, _)) => entries,
        _ => return r,
    };
    proof { lemma_input_entries_view(entries@); }
    let ghost model = input_entries_view(entries@);
    let mut i: usize = 0;
    while i < entries.len()
        invariant
            i <= entries.len(),
            model == input_entries_view(entries@),
            model.len() == entries.len(),
            forall|j: int| 0 <= j < entries.len() ==> #[trigger] model[j] == (entries[j].0@, entries[j].1@),
            r.wf(),
            crate::strmap::text_map(r) == text_entries_map(model.take(i as int)),
        decreases entries.len() - i,
    {
        assert(model.take(i + 1).drop_last() =~= model.take(i as int));
        assert(model.take(i + 1).last() == model[i as int]);
        let k = entries[i].0.clone();
        let v = entries[i].1.text();
        let ghost before = r;
        let ghost kv = k@;
        let ghost vv = v@;
        r.insert(k, v);
        proof { crate::strmap::lemma_text_map_insert(before, r, kv, vv); }
        i += 1;
    }
    assert(model.take(entries.len() as int) =~= model);
    r
}

/// The entries of a read object whose keys do not start with `__job_`, as answered entries.
pub open spec fn matrix_entries_spec(entries: Seq<(Seq<char>, JIn)>) -> Seq<(Seq<char>, Json)>
    decreases entries.len(),
{
    if entries.len() == 0 {
        Seq::empty()
    } else if is_prefix("__job_"@, entries.last().0) {
        matrix_entries_spec(entries.drop_last())
    } else {
        matrix_entries_spec(entries.drop_last()).push((entries.last().0, out_of(entries.last().1)))
    }
}

/// The matrix context of a seeded job: its matrix without the strategy metadata.
pub open spec fn matrix_context_spec(v: Option<JIn>) -> Json {
    match v {
        Some(JIn::Object(entries, _)) => Json::Object(matrix_entries_spec(entries)),
        _ => Json::Object(Seq::empty()),
    }
}

/// The matrix context of a seeded job.
pub fn matrix_context_value(value: Option<&JsonInput>) -> (r: JsonValue)
    ensures
        r@ == matrix_context_spec(opt_in(value)),
{
    let mut out: Vec<(String, JsonValue)> = Vec::new();
    proof { lemma_value_entries_view(out@); }
    let entries = match value {
        Some(JsonInput::Object(entries, _)) => entries,
        _ => {
            assert(value_entries_view(out@) =~= Seq::<(Seq<char>, Json)>::empty());
            return JsonValue::Object(out);
        },
    };
    proof { lemma_input_entries_view(entries@); }
    let ghost model = input_entries_view(entries@);
    let mut i: usize = 0;
    assert(value_entries_view(out@) =~= matrix_entries_spec(model.take(0)));
    proof { reveal_strlit("__job_"); }
    while i < entries.len()
        invariant
            i <= entries.len(),
            model == input_entries_view(entries@),
            model.len() == entries.len(),
            forall|j: int| 0 <= j < entries.len() ==> #[trigger] model[j] == (entries[j].0@, entries[j].1@),
            value_entries_view(out@) == matrix_entries_spec(model.take(i as int)),
        decreases entries.len() - i,
    {
        assert(model.take(i + 1).drop_last() =~= model.take(i as int));
        assert(model.take(i + 1).last() == model[i as int]);
        if !crate::text::starts_with(entries[i].0.as_str(), "__job_") {
            let v = entries[i].1.to_output();
            push_entry(&mut out, entries[i].0.as_str(), v);
        }
        i += 1;
    }
    assert(model.take(entries.len() as int) =~= model);
    JsonValue::Object(out)
}

/// A strategy number read from a matrix value written as decimal text, else the default.
pub open spec fn strategy_number(v: Option<JIn>, key: Seq<char>, default: nat) -> nat {
    let parsed = match v {
        Some(m) => match opt_in_str(in_get(m, key)) {
            Some(s) => crate::text::bounded(crate::text::unsigned_literal(s), u64::MAX as nat),
            None => None,
        },
        None => None,
    };
    match parsed {
        Some(n) => n,
        None => default,
    }
}

/// The strategy context of a seeded job: its leg index and leg count.
pub open spec fn strategy_context_spec(v: Option<JIn>) -> Json {
    obj2(
        "job-index"@,
        num(crate::text::decimal(strategy_number(v, "__job_index"@, 0))),
        "job-total"@,
        num(crate::text::decimal(strategy_number(v, "__job_total"@, 1))),
    )
}

fn strategy_number_of(matrix: Option<&JsonInput>, key: &str, default: u64) -> (r: u64)
    ensures
        r as nat == strategy_number(opt_in(matrix), key@, default as nat),
{
    match matrix {
        Some(m) => match m.get(key) {
            Some(v) => match v.as_str() {
                Some(s) => match crate::text::parse_u64(s) {
                    Some(n) => n,
                    None => default,
                },
                None => default,
            },
            None => default,
        },
        None => default,
    }
}

/// The strategy context of a seeded job.
pub fn strategy_context_value(matrix: Option<&JsonInput>) -> (r: JsonValue)
    ensures
        r@ == strategy_context_spec(opt_in(matrix)),
{
    let index = strategy_number_of(matrix, "__job_index", 0);
    let total = strategy_number_of(matrix, "__job_total", 1);
    let a = crate::text::u64_to_string(index);
    let b = crate::text::u64_to_string(total);
    object2("job-index", JsonValue::Number(a), "job-total", JsonValue::Number(b))
}

/// The key and text pairs of a read object, in order; none for anything else.
pub open spec fn text_pairs(v: JIn) -> Seq<(Seq<char>, Seq<char>)> {
    match v {
        JIn::Object(entries, _) => entries.map_values(|e: (Seq<char>, JIn)| (e.0, in_text(e.1))),
        _ => Seq::empty(),
    }
}

fn text_pairs_of(value: &JsonInput) -> (r: Vec<(String, String)>)
    ensures
        pair_views(r@) == text_pairs(value@),
{
    let mut r: Vec<(String, String)> = Vec::new();
    match value {
        JsonInput::Object(entries, _) => {
            proof { lemma_input_entries_view(entries@); }
            let ghost model = input_entries_view(entries@);
            let mut i: usize = 0;
            while i < entries.len()
                invariant
                    i <= entries.len(),
                    model == input_entries_view(entries@),
                    model.len() == entries.len(),
                    forall|j: int| 0 <= j < entries.len() ==> #[trigger] model[j] == (entries[j].0@, entries[j].1@),
                    pair_views(r@) == model.take(i as int).map_values(|e: (Seq<char>, JIn)| (e.0, in_text(e.1))),
                decreases entries.len() - i,
            {
                let ghost before = pair_views(r@);
                r.push((entries[i].0.clone(), entries[i].1.text()));
                assert(pair_views(r@) =~= before.push((entries@[i as int].0@, in_text(entries@[i as int].1@))));
                assert(model.take(i + 1).map_values(|e: (Seq<char>, JIn)| (e.0, in_text(e.1))) =~= model.take(i as int).map_values(|e: (Seq<char>, JIn)| (e.0, in_text(e.1))).push((model[i as int].0, in_text(model[i as int].1))));
                i += 1;
            }
            assert(model.take(entries.len() as int) =~= model);
            r
        },
        _ => {
            assert(pair_views(r@) =~= Seq::<(Seq<char>, Seq<char>)>::empty());
            r
        },
    }
}

/// The mapping token of a read value: its entries' texts when it is an object.
pub fn to_template_token_mapping(value: &JsonInput) -> (r: JsonValue)
    ensures
        r@ == token_mapping(text_pairs(value@)),
{
    let pairs = text_pairs_of(value);
    template_token_mapping(&pairs)
}

/// The texts of each item of a read array.
pub open spec fn item_texts(items: Seq<JIn>) -> Seq<Seq<char>> {
    items.map_values(|i: JIn| in_text(i))
}

/// The sequence token of an optional read value: present for a non-empty array.
pub open spec fn sequence_token_spec(v: Option<JIn>) -> Option<Json> {
    match v {
        Some(JIn::Array(items, _)) => if items.len() > 0 { Some(sequence_token(item_texts(items))) } else { None },
        _ => None,
    }
}

/// The sequence token of a non-empty read array.
pub fn template_sequence_token(value: Option<&JsonInput>) -> (r: Option<JsonValue>)
    ensures
        match r {
            Some(t) => sequence_token_spec(opt_in(value)) == Some(t@),
            None => sequence_token_spec(opt_in(value)) is None,
        },
{
    let items = match value {
        Some(JsonInput::Array(items, _)) => items,
        _ => return None,
    };
    if items.len() == 0 {
        return None;
    }
    proof { lemma_input_items_view(items@); }
    let mut strings: Vec<String> = Vec::new();
    let mut i: usize = 0;
    while i < items.len()
        invariant
            i <= items.len(),
            strings@.len() == i,
            forall|j: int| 0 <= j < i ==> (#[trigger] strings@[j])@ == in_text(items@[j]@),
        decreases items.len() - i,
    {
        strings.push(items[i].text());
        i += 1;
    }
    assert(crate::text::views(strings@) =~= item_texts(input_items_view(items@)));
    Some(template_sequence_from_strings(&strings))
}


// ---------------------------------------------------------------------------
// Containers, services and step references
// ---------------------------------------------------------------------------

/// A `{Key, Value}` entry of a mapping token.
pub open spec fn kv(k: Seq<char>, v: Json) -> Json {
    obj2("Key"@, jstr(k), "Value"@, v)
}

fn key_value(k: &str, v: JsonValue) -> (r: JsonValue)
    ensures
        r@ == kv(k@, v@),
{
    object2("Key", JsonValue::Str(k.to_owned()), "Value", v)
}

/// The entries of a container token: its image, then its options when not blank, its env when
/// an object, and its ports and volumes when non-empty arrays.
pub open spec fn container_entries(c: JIn, image: Seq<char>) -> Seq<Json> {
    let e0 = seq![kv("image"@, jstr(image))];
    let e1 = match opt_in_str(in_get(c, "options"@)) {
        Some(o) => if trim(o).len() > 0 { seq![kv("options"@, jstr(o))] } else { Seq::empty() },
        None => Seq::empty(),
    };
    let e2 = match in_get(c, "env"@) {
        Some(env) => if env is Object { seq![kv("env"@, token_mapping(text_pairs(env)))] } else { Seq::empty() },
        None => Seq::empty(),
    };
    let e3 = match sequence_token_spec(in_get(c, "ports"@)) {
        Some(t) => seq![kv("ports"@, t)],
        None => Seq::empty(),
    };
    let e4 = match sequence_token_spec(in_get(c, "volumes"@)) {
        Some(t) => seq![kv("volumes"@, t)],
        None => Seq::empty(),
    };
    e0 + e1 + e2 + e3 + e4
}

/// The container token of a read container: present when it names an image.
pub open spec fn container_token_spec(c: JIn) -> Option<Json> {
    match opt_in_str(in_get(c, "image"@)) {
        Some(image) => Some(obj2("type"@, num("2"@), "map"@, Json::Array(container_entries(c, image)))),
        None => None,
    }
}

/// The container token of a job or service container.
pub fn job_container_token(container: &JsonInput) -> (r: Option<JsonValue>)
    ensures
        match r {
            Some(t) => container_token_spec(container@) == Some(t@),
            None => container_token_spec(container@) is None,
        },
{
    let image = match container.get("image") {
        Some(v) => match v.as_str() {
            Some(i) => i,
            None => return None,
        },
        None => return None,
    };
    let ghost c = container@;
    let mut entries: Vec<JsonValue> = Vec::new();
    push_item(&mut entries, key_value("image", JsonValue::Str(image.to_owned())));
    assert(value_items_view(entries@) =~= seq![kv("image"@, jstr(image@))]);
    let ghost s0 = value_items_view(entries@);
    if let Some(v) = container.get("options") {
        if let Some(o) = v.as_str() {
            let t = trim_str(o);
            if t.as_str().unicode_len() > 0 {
                push_item(&mut entries, key_value("options", JsonValue::Str(o.to_owned())));
            }
        }
    }
    let ghost s1 = value_items_view(entries@);
    if let Some(env) = container.get("env") {
        if let JsonInput::Object(_, _) = env {
            push_item(&mut entries, key_value("env", to_template_token_mapping(env)));
        }
    }
    let ghost s2 = value_items_view(entries@);
    if let Some(t) = template_sequence_token(container.get("ports")) {
        push_item(&mut entries, key_value("ports", t));
    }
    let ghost s3 = value_items_view(entries@);
    if let Some(t) = template_sequence_token(container.get("volumes")) {
        push_item(&mut entries, key_value("volumes", t));
    }
    assert(value_items_view(entries@) =~= container_entries(c, image@));
    Some(object2("type", number("2"), "map", array_of(entries)))
}

/// The service entries of a services token: one per service with a string id and a container
/// token, in order.
pub open spec fn service_entries(services: Seq<JIn>) -> Seq<Json>
    decreases services.len(),
{
    if services.len() == 0 {
        Seq::empty()
    } else {
        let prev = service_entries(services.drop_last());
        let sv = services.last();
        match (opt_in_str(in_get(sv, "id"@)), container_token_spec(sv)) {
            (Some(id), Some(t)) => prev.push(kv(id, t)),
            _ => prev,
        }
    }
}

/// The service containers token of a job's services.
pub fn job_service_containers_token(services: &Vec<JsonInput>) -> (r: JsonValue)
    ensures
        r@ == obj2("type"@, num("2"@), "map"@, Json::Array(service_entries(input_items_view(services@)))),
{
    proof { lemma_input_items_view(services@); }
    let ghost model = input_items_view(services@);
    let mut out: Vec<JsonValue> = Vec::new();
    let mut i: usize = 0;
    assert(value_items_view(out@) =~= service_entries(model.take(0)));
    while i < services.len()
        invariant
            i <= services.len(),
            model == input_items_view(services@),
            model.len() == services.len(),
            forall|j: int| 0 <= j < services.len() ==> #[trigger] model[j] == services[j]@,
            value_items_view(out@) == service_entries(model.take(i as int)),
        decreases services.len() - i,
    {
        assert(model.take(i + 1).drop_last() =~= model.take(i as int));
        assert(model.take(i + 1).last() == model[i as int]);
        let service = &services[i];
        let id = match service.get("id") {
            Some(v) => v.as_str(),
            None => None,
        };
        if let Some(id) = id {
            if let Some(t) = job_container_token(service) {
                push_item(&mut out, key_value(id, t));
            }
        }
        i += 1;
    }
    assert(model.take(services.len() as int) =~= model);
    object2("type", number("2"), "map", array_of(out))
}

/// An object of five entries, in order.
pub open spec fn obj5(k1: Seq<char>, v1: Json, k2: Seq<char>, v2: Json, k3: Seq<char>, v3: Json, k4: Seq<char>, v4: Json, k5: Seq<char>, v5: Json) -> Json {
    Json::Object(seq![(k1, v1), (k2, v2), (k3, v3), (k4, v4), (k5, v5)])
}

fn object5(k1: &str, v1: JsonValue, k2: &str, v2: JsonValue, k3: &str, v3: JsonValue, k4: &str, v4: JsonValue, k5: &str, v5: JsonValue) -> (r: JsonValue)
    ensures
        r@ == obj5(k1@, v1@, k2@, v2@, k3@, v3@, k4@, v4@, k5@, v5@),
{
    let mut e: Vec<(String, JsonValue)> = Vec::new();
    push_entry(&mut e, k1, v1);
    push_entry(&mut e, k2, v2);
    push_entry(&mut e, k3, v3);
    push_entry(&mut e, k4, v4);
    push_entry(&mut e, k5, v5);
    let ghost w = value_entries_view(e@);
    assert(w =~= seq![(k1@, w[0].1), (k2@, w[1].1), (k3@, w[2].1), (k4@, w[3].1), (k5@, w[4].1)]);
    JsonValue::Object(e)
}

/// A repository reference.
pub open spec fn repo_reference(name: Seq<char>, r: Seq<char>, repo_type: Seq<char>, path: Seq<char>) -> Json {
    obj5("type"@, num("1"@), "name"@, jstr(name), "ref"@, jstr(r), "repositoryType"@, jstr(repo_type), "path"@, jstr(path))
}

/// The reference of a step's `uses`: the repository itself for `./` paths; `owner/repo[/path]@ref`
/// for an action in another repository; a script reference otherwise.
pub open spec fn uses_reference(uses: Seq<char>) -> Json {
    if is_prefix("./"@, uses) {
        repo_reference(Seq::empty(), Seq::empty(), "self"@, uses)
    } else if !uses.contains('@') {
        obj1("type"@, num("3"@))
    } else {
        let at = choose|i: int| crate::text::last_index_of(uses, '@', i);
        let parts = crate::text::split_char(uses.take(at), '/');
        if parts.len() < 2 {
            obj1("type"@, num("3"@))
        } else {
            let path = if parts.len() > 2 { crate::text::join(parts.skip(2), "/"@) } else { Seq::empty() };
            repo_reference(parts[0] + "/"@ + parts[1], uses.skip(at + 1), "GitHub"@, path)
        }
    }
}

/// `owner/rest@ref` read with its parts: where the owner holds no `/` and the ref no `@`, the
/// last `@` is the one before the ref, and the text before it splits at `/` into the owner
/// and the pieces of `rest`.
proof fn lemma_uses_parts(owner: Seq<char>, rest: Seq<char>, r: Seq<char>)
    requires
        !owner.contains('/'),
        !r.contains('@'),
    ensures
        ({
            let uses = owner + seq!['/'] + rest + seq!['@'] + r;
            let at = (owner + seq!['/'] + rest).len() as int;
            &&& uses.contains('@')
            &&& (choose|i: int| crate::text::last_index_of(uses, '@', i)) == at
            &&& uses.take(at) =~= owner + seq!['/'] + rest
            &&& uses.skip(at + 1) =~= r
            &&& crate::text::split_char(uses.take(at), '/') == seq![owner] + crate::text::split_char(rest, '/')
        }),
{
    let uses = owner + seq!['/'] + rest + seq!['@'] + r;
    let at = (owner + seq!['/'] + rest).len() as int;
    assert(uses[at] == '@');
    assert(crate::text::last_index_of(uses, '@', at)) by {
        assert forall|j: int| at < j < uses.len() implies uses[j] != '@' by {
            assert(uses[j] == r[j - at - 1]);
            assert(r.contains(r[j - at - 1]));
        }
    }
    let k = choose|i: int| crate::text::last_index_of(uses, '@', i);
    assert(crate::text::last_index_of(uses, '@', k));
    if k < at {
        assert(uses[at] != '@');
    } else if k > at {
        assert(uses[k] != '@');
    }
    assert(uses.take(at) =~= owner + seq!['/'] + rest);
    assert(uses.skip(at + 1) =~= r);
    crate::text::lemma_split_char_cons(owner, '/', rest);
}

/// A `uses` of an action in another repository is referenced by its parts: for
/// `owner/repo/p1/.../pk@ref` (owner and repository without `/`, the ref without `@`, the
/// owner not `.`), the name is `owner/repo`, the ref is the text after the last `@` and the path
/// is `p1/.../pk`, so name, `/`, path, `@` and ref give the `uses` back; for `owner/repo@ref`
/// the path is empty.
pub proof fn lemma_uses_reference_keeps_path(owner: Seq<char>, repo: Seq<char>, path: Seq<char>, r: Seq<char>)
    requires
        !owner.contains('/'),
        !repo.contains('/'),
        !r.contains('@'),
        owner != seq!['.'],
    ensures
        uses_reference(owner + "/"@ + repo + "/"@ + path + "@"@ + r)
            == repo_reference(owner + "/"@ + repo, r, "GitHub"@, path),
        uses_reference(owner + "/"@ + repo + "@"@ + r) == repo_reference(owner + "/"@ + repo, r, "GitHub"@, Seq::empty()),
{
    reveal_strlit("/");
    reveal_strlit("@");
    reveal_strlit("./");
    assert("/"@ =~= seq!['/']);
    assert("@"@ =~= seq!['@']);
    let slash = seq!['/'];
    // With a path.
    let rest = repo + slash + path;
    let u = owner + slash + rest + seq!['@'] + r;
    assert(owner + "/"@ + repo + "/"@ + path + "@"@ + r =~= u);
    lemma_uses_parts(owner, rest, r);
    crate::text::lemma_split_char_cons(repo, '/', path);
    crate::text::lemma_split_char_nonempty(path, '/');
    crate::text::lemma_join_split_char(path, '/');
    let at = (owner + slash + rest).len() as int;
    let parts = crate::text::split_char(u.take(at), '/');
    assert(parts =~= seq![owner, repo] + crate::text::split_char(path, '/'));
    assert(parts.skip(2) =~= crate::text::split_char(path, '/'));
    assert(!is_prefix("./"@, u)) by {
        if is_prefix("./"@, u) {
            assert(u[0] == '.' && u[1] == '/');
            if owner.len() == 0 {
                assert(u[0] == '/');
            } else if owner.len() == 1 {
                assert(owner =~= seq!['.']);
            } else {
                assert(owner.contains(owner[1]));
            }
        }
    }
    // Without a path.
    let u2 = owner + slash + repo + seq!['@'] + r;
    assert(owner + "/"@ + repo + "@"@ + r =~= u2);
    lemma_uses_parts(owner, repo, r);
    crate::text::lemma_split_char_none(repo, '/');
    let at2 = (owner + slash + repo).len() as int;
    assert(crate::text::split_char(u2.take(at2), '/') =~= seq![owner, repo]);
    assert(!is_prefix("./"@, u2)) by {
        if is_prefix("./"@, u2) {
            assert(u2[0] == '.' && u2[1] == '/');
            if owner.len() == 0 {
                assert(u2[0] == '/');
            } else if owner.len() == 1 {
                assert(owner =~= seq!['.']);
            } else {
                assert(owner.contains(owner[1]));
            }
        }
    }
}

/// A `uses` of a local action (`./...`) references the repository itself with that path, and
/// one without `@` (and not local) is a script reference.
pub proof fn lemma_local_and_script_references(uses: Seq<char>)
    ensures
        is_prefix("./"@, uses) ==> uses_reference(uses) == repo_reference(Seq::empty(), Seq::empty(), "self"@, uses),
        !is_prefix("./"@, uses) && !uses.contains('@') ==> uses_reference(uses) == obj1("type"@, num("3"@)),
{
}

/// The reference of a step's `uses`.
pub fn map_uses_reference(uses: &str) -> (r: JsonValue)
    ensures
        r@ == uses_reference(uses@),
{
    proof {
        reveal_strlit("./");
        reveal_strlit("");
    }
    assert(""@ =~= Seq::<char>::empty());
    if crate::text::starts_with(uses, "./") {
        return object5("type", number("1"), "name", string(""), "ref", string(""), "repositoryType", string("self"), "path", string(uses));
    }
    let (raw_name, reference) = match crate::text::rsplit_once_char(uses, '@') {
        Some(p) => p,
        None => return object1("type", number("3")),
    };
    proof {
        let i = choose|i: int| crate::text::last_index_of(uses@, '@', i) && raw_name@ == uses@.take(i) && reference@ == uses@.skip(i + 1);
        assert forall|k: int| crate::text::last_index_of(uses@, '@', k) implies k == i by {}
    }
    let parts = crate::text::split_on_char(raw_name.as_str(), '/');
    if parts.len() < 2 {
        return object1("type", number("3"));
    }
    let ghost pv = crate::text::views(parts@);
    assert(pv[0] == parts@[0]@ && pv[1] == parts@[1]@);
    proof { reveal_strlit("/"); }
    let name = cat3(parts[0].as_str(), "/", parts[1].as_str());
    let path = if parts.len() > 2 {
        let mut rest: Vec<String> = Vec::new();
        let mut i: usize = 2;
        while i < parts.len()
            invariant
                2 <= i <= parts@.len(),
                pv == crate::text::views(parts@),
                crate::text::views(rest@) == pv.subrange(2, i as int),
            decreases parts.len() - i,
        {
            let ghost before = crate::text::views(rest@);
            rest.push(parts[i].clone());
            assert(crate::text::views(rest@) =~= before.push(parts@[i as int]@));
            assert(pv.subrange(2, i + 1) =~= pv.subrange(2, i as int).push(pv[i as int]));
            i += 1;
        }
        assert(pv.subrange(2, parts@.len() as int) =~= pv.skip(2));
        crate::text::join_strings(&rest, "/")
    } else {
        String::new()
    };
    object5("type", number("1"), "name", JsonValue::Str(name), "ref", JsonValue::Str(reference), "repositoryType", string("GitHub"), "path", JsonValue::Str(path))
}

/// A string field of an optional reference, or the default.
pub open spec fn ref_field(reference: Option<JIn>, key: Seq<char>, default: Seq<char>) -> Seq<char> {
    match reference {
        Some(r) => match opt_in_str(in_get(r, key)) {
            Some(s) => s,
            None => default,
        },
        None => default,
    }
}

/// The kind named by a reference's `Type` (or, without that key, `type`), `Script` by default.
pub open spec fn reference_kind(reference: Option<JIn>) -> Seq<char> {
    let named = match reference {
        Some(r) => match in_get(r, "Type"@) {
            Some(x) => crate::json::in_str(x),
            None => opt_in_str(in_get(r, "type"@)),
        },
        None => None,
    };
    crate::text::ascii_lower(match named {
        Some(t) => t,
        None => "Script"@,
    })
}

/// The reference of a step: from its `uses` when it has no reference; a repository reference
/// with its name, ref, repository type and path; else the kind's number (container 2, other 3).
pub open spec fn step_reference(reference: Option<JIn>, uses: Option<Seq<char>>) -> Json {
    if reference is None && uses is Some {
        uses_reference(uses->Some_0)
    } else {
        let kind = reference_kind(reference);
        if kind == "repository"@ {
            repo_reference(
                ref_field(reference, "Name"@, Seq::empty()),
                ref_field(reference, "Ref"@, Seq::empty()),
                ref_field(reference, "RepositoryType"@, "GitHub"@),
                ref_field(reference, "Path"@, Seq::empty()),
            )
        } else if kind == "container"@ {
            obj1("type"@, num("2"@))
        } else {
            obj1("type"@, num("3"@))
        }
    }
}

fn ref_field_of(reference: Option<&JsonInput>, key: &str, default: &str) -> (r: String)
    ensures
        r@ == ref_field(opt_in(reference), key@, default@),
{
    match reference {
        Some(v) => match v.get(key) {
            Some(x) => match x.as_str() {
                Some(s) => s.to_owned(),
                None => default.to_owned(),
            },
            None => default.to_owned(),
        },
        None => default.to_owned(),
    }
}

/// The reference of a step.
pub fn map_step_reference(reference: Option<&JsonInput>, uses: Option<&str>) -> (r: JsonValue)
    ensures
        r@ == step_reference(opt_in(reference), match uses {
            Some(u) => Some(u@),
            None => None,
        }),
{
    if reference.is_none() {
        if let Some(u) = uses {
            return map_uses_reference(u);
        }
    }
    let named: Option<&str> = match reference {
        Some(r) => match r.get("Type") {
            Some(x) => x.as_str(),
            None => match r.get("type") {
                Some(y) => y.as_str(),
                None => None,
            },
        },
        None => None,
    };
    proof {
        reveal_strlit("Script");
        reveal_strlit("repository");
        reveal_strlit("container");
    }
    let kind = crate::text::to_ascii_lower(match named {
        Some(t) => t,
        None => "Script",
    });
    if str_eq_kind(kind.as_str(), "repository") {
        let name = ref_field_of(reference, "Name", "");
        let rf = ref_field_of(reference, "Ref", "");
        let repo_type = ref_field_of(reference, "RepositoryType", "GitHub");
        let path = ref_field_of(reference, "Path", "");
        proof { reveal_strlit(""); }
        assert(""@ =~= Seq::<char>::empty());
        object5("type", number("1"), "name", JsonValue::Str(name), "ref", JsonValue::Str(rf), "repositoryType", JsonValue::Str(repo_type), "path", JsonValue::Str(path))
    } else if str_eq_kind(kind.as_str(), "container") {
        object1("type", number("2"))
    } else {
        object1("type", number("3"))
    }
}

fn str_eq_kind(a: &str, b: &str) -> (r: bool)
    ensures
        r == (a@ == b@),
{
    crate::text::str_eq(a, b)
}


// ---------------------------------------------------------------------------
// Steps
// ---------------------------------------------------------------------------

/// The text, or the default when there is none.
pub open spec fn or_default(o: Option<Seq<char>>, d: Seq<char>) -> Seq<char> {
    match o {
        Some(s) => s,
        None => d,
    }
}

/// The inputs of a step: its `Inputs` (or, without that key, `inputs`) as key and text pairs;
/// without either, its `run` script as the `script` input.
pub open spec fn step_inputs(step: JIn) -> Seq<(Seq<char>, Seq<char>)> {
    match in_get(step, "Inputs"@) {
        Some(v) => text_pairs(v),
        None => match in_get(step, "inputs"@) {
            Some(v) => text_pairs(v),
            None => match opt_in_str(in_get(step, "run"@)) {
                Some(run) => seq![("script"@, run)],
                None => Seq::empty(),
            },
        },
    }
}

/// A step's environment: its `Env` object's texts, with the cache and results URLs of the server
/// added where absent.
pub open spec fn step_env_map(step: JIn, base: Seq<char>) -> Map<Seq<char>, Seq<char>> {
    let m = string_map_spec(in_get(step, "Env"@));
    let url = base + "/"@;
    let m1 = if m.contains_key("ACTIONS_CACHE_URL"@) { m } else { m.insert("ACTIONS_CACHE_URL"@, url) };
    if m1.contains_key("ACTIONS_RESULTS_URL"@) { m1 } else { m1.insert("ACTIONS_RESULTS_URL"@, url) }
}

/// The entries of a map of texts in ascending key order.
pub open spec fn map_pairs(m: Map<Seq<char>, Seq<char>>) -> Seq<(Seq<char>, Seq<char>)> {
    crate::strmap::sorted_seq_of(m.dom()).map_values(|k: Seq<char>| (k, m[k]))
}

/// A seeded step as the runner receives it.
pub open spec fn job_step_spec(step: JIn, index: nat, base: Seq<char>) -> Json {
    let name = or_default(field_of(step, seq!["Name"@, "name"@]), "step-"@ + crate::text::decimal(index));
    let display = or_default(field_of(step, seq!["DisplayName"@, "Name"@, "name"@]), name);
    let condition = or_default(field_of(step, seq!["condition"@, "Condition"@]), "success()"@);
    let id = or_default(field_of(step, seq!["Id"@, "id"@]), mock_uuid_spec(index + 1));
    let kind = crate::text::ascii_lower(or_default(field_of(step, seq!["Type"@, "type"@]), "Action"@));
    let reference_node = match in_get(step, "Reference"@) {
        Some(r) => Some(r),
        None => in_get(step, "reference"@),
    };
    let reference = step_reference(reference_node, opt_in_str(in_get(step, "uses"@)));
    let entries = seq![
        ("id"@, jstr(id)),
        ("name"@, jstr(name)),
        ("displayName"@, jstr(display)),
        ("type"@, jstr(kind)),
        ("reference"@, reference),
        ("inputs"@, token_mapping(step_inputs(step))),
        ("contextData"@, obj2("t"@, num("2"@), "d"@, Json::Array(Seq::empty()))),
        ("condition"@, jstr(condition)),
    ];
    let with_context = match field_of(step, seq!["ContextName"@, "contextName"@]) {
        Some(c) => entries.push(("contextName"@, jstr(c))),
        None => entries,
    };
    Json::Object(with_context.push(("environment"@, token_mapping(map_pairs(step_env_map(step, base))))))
}

fn or_default_of(o: Option<String>, d: String) -> (r: String)
    ensures
        r@ == or_default(crate::yaml::opt_view(o), d@),
{
    match o {
        Some(s) => s,
        None => d,
    }
}

fn map_entry_pairs(m: &crate::strmap::StrMap<String>) -> (r: Vec<(String, String)>)
    requires
        m.wf(),
    ensures
        pair_views(r@) == map_pairs(crate::strmap::text_map(*m)),
{
    let mut r: Vec<(String, String)> = Vec::new();
    let n = m.len();
    let mut i: usize = 0;
    while i < n
        invariant
            m.wf(),
            n == m.keys().len(),
            i <= n,
            r@.len() == i,
            forall|j: int| 0 <= j < i ==> (#[trigger] r@[j]).0@ == m.keys()[j] && r@[j].1@ == m.values()[j]@,
        decreases n - i,
    {
        r.push((m.key_at(i).clone(), m.value_at(i).clone()));
        i += 1;
    }
    proof {
        crate::strmap::lemma_sorted_seq_of(m.keys());
        let tm = crate::strmap::text_map(*m);
        assert(tm.dom() =~= m.keys().to_set());
        assert forall|j: int| 0 <= j < n implies #[trigger] pair_views(r@)[j] == map_pairs(tm)[j] by {
            m.lemma_index_of(j);
        }
        assert(pair_views(r@) =~= map_pairs(tm));
    }
    r
}

/// A seeded step as the runner receives it, at position `index`.
#[verifier::spinoff_prover]
#[verifier::rlimit(50)]
pub fn map_job_step(step: &JsonInput, index: usize, base_url: &str) -> (r: JsonValue)
    requires
        index < usize::MAX,
    ensures
        r@ == job_step_spec(step@, index as nat, base_url@),
{
    let keys_name: [&str; 2] = ["Name", "name"];
    let keys_display: [&str; 3] = ["DisplayName", "Name", "name"];
    let keys_condition: [&str; 2] = ["condition", "Condition"];
    let keys_id: [&str; 2] = ["Id", "id"];
    let keys_type: [&str; 2] = ["Type", "type"];
    let keys_context: [&str; 2] = ["ContextName", "contextName"];
    assert(key_views(keys_name@) =~= seq!["Name"@, "name"@]);
    assert(key_views(keys_display@) =~= seq!["DisplayName"@, "Name"@, "name"@]);
    assert(key_views(keys_condition@) =~= seq!["condition"@, "Condition"@]);
    assert(key_views(keys_id@) =~= seq!["Id"@, "id"@]);
    assert(key_views(keys_type@) =~= seq!["Type"@, "type"@]);
    assert(key_views(keys_context@) =~= seq!["ContextName"@, "contextName"@]);
    proof {
        reveal_strlit("step-");
        reveal_strlit("success()");
        reveal_strlit("Action");
        reveal_strlit("/");
        reveal_strlit("script");
    }
    let default_name = cat("step-", crate::text::usize_to_string(index).as_str());
    let ghost sv0 = step@;
    let name = or_default_of(string_field(step, keys_name.as_slice()), default_name);
    assert(name@ == or_default(field_of(sv0, seq!["Name"@, "name"@]), "step-"@ + crate::text::decimal(index as nat)));
    let display = or_default_of(string_field(step, keys_display.as_slice()), name.clone());
    assert(display@ == or_default(field_of(sv0, seq!["DisplayName"@, "Name"@, "name"@]), name@));
    let condition = or_default_of(string_field(step, keys_condition.as_slice()), "success()".to_owned());
    assert(condition@ == or_default(field_of(sv0, seq!["condition"@, "Condition"@]), "success()"@));
    let id = or_default_of(string_field(step, keys_id.as_slice()), mock_uuid(index as u64 + 1));
    assert(id@ == or_default(field_of(sv0, seq!["Id"@, "id"@]), mock_uuid_spec(index as nat + 1)));
    let kind_text = or_default_of(string_field(step, keys_type.as_slice()), "Action".to_owned());
    let kind = crate::text::to_ascii_lower(kind_text.as_str());
    assert(kind@ == crate::text::ascii_lower(or_default(field_of(sv0, seq!["Type"@, "type"@]), "Action"@)));
    let reference_node = match step.get("Reference") {
        Some(r) => Some(r),
        None => step.get("reference"),
    };
    let uses = match step.get("uses") {
        Some(u) => u.as_str(),
        None => None,
    };
    let reference = map_step_reference(reference_node, uses);
    assert(reference@ == step_reference(match in_get(sv0, "Reference"@) {
        Some(r) => Some(r),
        None => in_get(sv0, "reference"@),
    }, opt_in_str(in_get(sv0, "uses"@))));
    let input_pairs: Vec<(String, String)> = match step.get("Inputs") {
        Some(v) => text_pairs_of(v),
        None => match step.get("inputs") {
            Some(v) => text_pairs_of(v),
            None => match step.get("run") {
                Some(run_node) => match run_node.as_str() {
                    Some(run) => {
                        let mut p: Vec<(String, String)> = Vec::new();
                        p.push(("script".to_owned(), run.to_owned()));
                        assert(pair_views(p@) =~= seq![("script"@, run@)]);
                        p
                    },
                    None => {
                        let p: Vec<(String, String)> = Vec::new();
                        assert(pair_views(p@) =~= Seq::<(Seq<char>, Seq<char>)>::empty());
                        p
                    },
                },
                None => {
                    let p: Vec<(String, String)> = Vec::new();
                    assert(pair_views(p@) =~= Seq::<(Seq<char>, Seq<char>)>::empty());
                    p
                },
            },
        },
    };
    let mut entries: Vec<(String, JsonValue)> = Vec::new();
    push_entry(&mut entries, "id", JsonValue::Str(id));
    push_entry(&mut entries, "name", JsonValue::Str(name));
    push_entry(&mut entries, "displayName", JsonValue::Str(display));
    push_entry(&mut entries, "type", JsonValue::Str(kind));
    push_entry(&mut entries, "reference", reference);
    push_entry(&mut entries, "inputs", template_token_mapping(&input_pairs));
    let empty: Vec<JsonValue> = Vec::new();
    assert(value_items_view(empty@) =~= Seq::<Json>::empty());
    push_entry(&mut entries, "contextData", object2("t", number("2"), "d", array_of(empty)));
    push_entry(&mut entries, "condition", JsonValue::Str(condition));
    let ghost base_entries = seq![
        ("id"@, jstr(id@)),
        ("name"@, jstr(name@)),
        ("displayName"@, jstr(display@)),
        ("type"@, jstr(kind@)),
        ("reference"@, reference@),
        ("inputs"@, token_mapping(pair_views(input_pairs@))),
        ("contextData"@, obj2("t"@, num("2"@), "d"@, Json::Array(Seq::empty()))),
        ("condition"@, jstr(condition@)),
    ];
    assert(value_entries_view(entries@) =~= base_entries);
    let context = string_field(step, keys_context.as_slice());
    if let Some(c) = context {
        push_entry(&mut entries, "contextName", JsonValue::Str(c));
    }
    let ghost with_context = match field_of(sv0, seq!["ContextName"@, "contextName"@]) {
        Some(c) => base_entries.push(("contextName"@, jstr(c))),
        None => base_entries,
    };
    assert(value_entries_view(entries@) =~= with_context);
    let mut env = string_map_from_value(step.get("Env"));
    let url = cat(base_url, "/");
    proof {
        reveal_strlit("ACTIONS_CACHE_URL");
        reveal_strlit("ACTIONS_RESULTS_URL");
    }
    if !env.contains_key("ACTIONS_CACHE_URL") {
        let ghost before = env;
        env.insert("ACTIONS_CACHE_URL".to_owned(), url.clone());
        proof { crate::strmap::lemma_text_map_insert(before, env, "ACTIONS_CACHE_URL"@, url@); }
    }
    if !env.contains_key("ACTIONS_RESULTS_URL") {
        let ghost before = env;
        env.insert("ACTIONS_RESULTS_URL".to_owned(), url.clone());
        proof { crate::strmap::lemma_text_map_insert(before, env, "ACTIONS_RESULTS_URL"@, url@); }
    }
    let ghost sv = step@;
    let ghost m0 = string_map_spec(in_get(sv, "Env"@));
    let ghost u = base_url@ + "/"@;
    let ghost m1 = if m0.contains_key("ACTIONS_CACHE_URL"@) { m0 } else { m0.insert("ACTIONS_CACHE_URL"@, u) };
    let ghost m2 = if m1.contains_key("ACTIONS_RESULTS_URL"@) { m1 } else { m1.insert("ACTIONS_RESULTS_URL"@, u) };
    assert(crate::strmap::text_map(env) =~= m2);
    assert(m2 == step_env_map(sv, base_url@));
    let env_pairs = map_entry_pairs(&env);
    push_entry(&mut entries, "environment", template_token_mapping(&env_pairs));
    let r = JsonValue::Object(entries);
    assert(step_inputs(sv) == pair_views(input_pairs@));
    assert(value_entries_view(entries@) =~= with_context.push(("environment"@, token_mapping(map_pairs(step_env_map(sv, base_url@))))));
    assert(r@ == job_step_spec(step@, index as nat, base_url@));
    r
}

/// The steps of a seeded job as the runner receives them; none unless they form an array.
pub open spec fn job_steps_spec(steps: Option<JIn>, base: Seq<char>) -> Json {
    match steps {
        Some(JIn::Array(items, _)) => Json::Array(Seq::new(items.len(), |i: int| job_step_spec(items[i], i as nat, base))),
        _ => Json::Array(Seq::empty()),
    }
}

/// The steps of a seeded job as the runner receives them.
pub fn map_job_steps(steps: Option<&JsonInput>, base_url: &str) -> (r: JsonValue)
    ensures
        r@ == job_steps_spec(opt_in(steps), base_url@),
{
    let mut out: Vec<JsonValue> = Vec::new();
    let items = match steps {
        Some(JsonInput::Array(items, _)) => items,
        _ => {
            assert(value_items_view(out@) =~= Seq::<Json>::empty());
            return array_of(out);
        },
    };
    proof { lemma_input_items_view(items@); }
    let mut i: usize = 0;
    while i < items.len()
        invariant
            i <= items.len(),
            input_items_view(items@).len() == items@.len(),
            forall|j: int| 0 <= j < items@.len() ==> #[trigger] input_items_view(items@)[j] == items@[j]@,
            value_items_view(out@).len() == i,
            forall|j: int| 0 <= j < i ==> #[trigger] value_items_view(out@)[j] == job_step_spec(input_items_view(items@)[j], j as nat, base_url@),
        decreases items.len() - i,
    {
        let m = map_job_step(&items[i], i, base_url);
        push_item(&mut out, m);
        i += 1;
    }
    let r = array_of(out);
    assert(value_items_view(out@) =~= Seq::new(input_items_view(items@).len(), |j: int| job_step_spec(input_items_view(items@)[j], j as nat, base_url@)));
    r
}


// ---------------------------------------------------------------------------
// The job a runner is handed
// ---------------------------------------------------------------------------

/// The text at a path of nested keys of a read value, when it is a string.
pub open spec fn text_at2(v: JIn, a: Seq<char>, b: Seq<char>) -> Option<Seq<char>> {
    match in_get(v, a) {
        Some(x) => opt_in_str(in_get(x, b)),
        None => None,
    }
}

/// The text at a path of three nested keys of a read value, when it is a string.
pub open spec fn text_at3(v: JIn, a: Seq<char>, b: Seq<char>, c: Seq<char>) -> Option<Seq<char>> {
    match in_get(v, a) {
        Some(x) => match in_get(x, b) {
            Some(y) => opt_in_str(in_get(y, c)),
            None => None,
        },
        None => None,
    }
}

/// What a seeded job says of its repository, commit, workflow, name, workspace and runner.
#[derive(Debug, PartialEq, Eq)]
pub struct JobFacts {
    pub repo_full_name: String,
    pub owner_name: String,
    pub repo_name: String,
    pub real_head_sha: String,
    pub version_sha: String,
    pub workflow_name: String,
    pub job_name: String,
    pub workspace_path: String,
    pub runner_os: String,
    pub runner_arch: String,
    pub runner_temp: String,
    pub runner_tool_cache: String,
}

/// `owner/repo` of a seeded job: `githubRepo`, else `repository.full_name`, else empty.
pub open spec fn repo_full_name_spec(jd: JIn) -> Seq<char> {
    match field_of(jd, seq!["githubRepo"@]) {
        Some(s) => s,
        None => or_default(text_at2(jd, "repository"@, "full_name"@), Seq::empty()),
    }
}

/// The facts of a seeded job with id `job_id`: names fall back on the parts of `owner/repo`,
/// the commit on `HEAD`, the workspace on the runner's default work directory, the runner on
/// Linux/X64 (macOS runners use their own temp and tool cache directories).
pub open spec fn facts_of(f: JobFacts, job_id: Seq<char>, jd: JIn) -> bool {
    let full = repo_full_name_spec(jd);
    let parts = crate::text::split_char(full, '/');
    let repo = or_default(text_at2(jd, "repository"@, "name"@), if parts.len() > 1 { parts[1] } else { "repo"@ });
    let os = or_default(field_of(jd, seq!["runnerOs"@]), "Linux"@);
    let mac = crate::text::ascii_lower(os) == "macos"@;
    let root = or_default(field_of(jd, seq!["runnerWorkDir"@]), "/home/runner/_work"@);
    &&& f.repo_full_name@ == full
    &&& f.owner_name@ == or_default(text_at3(jd, "repository"@, "owner"@, "login"@), parts[0])
    &&& f.repo_name@ == repo
    &&& f.real_head_sha@ == or_default(field_of(jd, seq!["realHeadSha"@]), or_default(field_of(jd, seq!["headSha"@]), "HEAD"@))
    &&& f.version_sha@ == or_default(field_of(jd, seq!["headSha"@]), "HEAD"@)
    &&& f.workflow_name@ == or_default(field_of(jd, seq!["workflowName"@]), "local-workflow"@)
    &&& f.job_name@ == or_default(field_of(jd, seq!["name"@, "id"@]), job_id)
    &&& f.workspace_path@ == root + "/"@ + repo + "/"@ + repo
    &&& f.runner_os@ == os
    &&& f.runner_arch@ == or_default(field_of(jd, seq!["runnerArch"@]), "X64"@)
    &&& f.runner_temp@ == (if mac { "/Users/admin/local-ci-runner/_work/_temp"@ } else { "/tmp/runner"@ })
    &&& f.runner_tool_cache@ == (if mac { "/Users/admin/hostedtoolcache"@ } else { "/opt/hostedtoolcache"@ })
}

fn one_key(k: &str) -> (r: Vec<&str>)
    ensures
        key_views(r@) == seq![k@],
{
    let mut r: Vec<&str> = Vec::new();
    r.push(k);
    assert(key_views(r@) =~= seq![k@]);
    r
}

fn text_at2_of(v: &JsonInput, a: &str, b: &str) -> (r: Option<String>)
    ensures
        crate::yaml::opt_view(r) == text_at2(v@, a@, b@),
{
    match v.get(a) {
        Some(x) => match x.get(b) {
            Some(y) => match y.as_str() {
                Some(s) => Some(s.to_owned()),
                None => None,
            },
            None => None,
        },
        None => None,
    }
}

fn text_at3_of(v: &JsonInput, a: &str, b: &str, c: &str) -> (r: Option<String>)
    ensures
        crate::yaml::opt_view(r) == text_at3(v@, a@, b@, c@),
{
    match v.get(a) {
        Some(x) => text_at2_of(x, b, c),
        None => None,
    }
}

fn field1(v: &JsonInput, k: &str) -> (r: Option<String>)
    ensures
        crate::yaml::opt_view(r) == field_of(v@, seq![k@]),
{
    let keys = one_key(k);
    let r = string_field(v, keys.as_slice());
    r
}

/// The facts of a seeded job.
pub fn job_facts(job_id: &str, job_data: &JsonInput) -> (r: JobFacts)
    ensures
        facts_of(r, job_id@, job_data@),
{
    let ghost jd = job_data@;
    let full = match field1(job_data, "githubRepo") {
        Some(s) => s,
        None => or_default_of(text_at2_of(job_data, "repository", "full_name"), String::new()),
    };
    proof { reveal_strlit(""); }
    assert(""@ =~= Seq::<char>::empty());
    assert(full@ == repo_full_name_spec(jd));
    let parts = crate::text::split_on_char(full.as_str(), '/');
    proof { crate::text::lemma_split_char_nonempty(full@, '/'); }
    let ghost pv = crate::text::views(parts@);
    assert(pv[0] == parts@[0]@);
    let owner = or_default_of(text_at3_of(job_data, "repository", "owner", "login"), parts[0].clone());
    proof { reveal_strlit("repo"); }
    let fallback_repo = if parts.len() > 1 {
        assert(pv[1] == parts@[1]@);
        parts[1].clone()
    } else {
        "repo".to_owned()
    };
    let repo = or_default_of(text_at2_of(job_data, "repository", "name"), fallback_repo);
    proof {
        reveal_strlit("HEAD");
        reveal_strlit("local-workflow");
        reveal_strlit("/home/runner/_work");
        reveal_strlit("Linux");
        reveal_strlit("X64");
        reveal_strlit("macos");
        reveal_strlit("/");
    }
    let head = or_default_of(field1(job_data, "headSha"), "HEAD".to_owned());
    let real_head = or_default_of(field1(job_data, "realHeadSha"), head.clone());
    let workflow_name = or_default_of(field1(job_data, "workflowName"), "local-workflow".to_owned());
    let keys_name: [&str; 2] = ["name", "id"];
    assert(key_views(keys_name@) =~= seq!["name"@, "id"@]);
    let job_name = or_default_of(string_field(job_data, keys_name.as_slice()), job_id.to_owned());
    let root = or_default_of(field1(job_data, "runnerWorkDir"), "/home/runner/_work".to_owned());
    let mut workspace = cat3(root.as_str(), "/", repo.as_str());
    workspace.append("/");
    workspace.append(repo.as_str());
    let os = or_default_of(field1(job_data, "runnerOs"), "Linux".to_owned());
    let arch = or_default_of(field1(job_data, "runnerArch"), "X64".to_owned());
    let lower = crate::text::to_ascii_lower(os.as_str());
    let mac = crate::text::str_eq(lower.as_str(), "macos");
    let (temp, tool_cache) = if mac {
        ("/Users/admin/local-ci-runner/_work/_temp".to_owned(), "/Users/admin/hostedtoolcache".to_owned())
    } else {
        ("/tmp/runner".to_owned(), "/opt/hostedtoolcache".to_owned())
    };
    JobFacts {
        repo_full_name: full,
        owner_name: owner,
        repo_name: repo,
        real_head_sha: real_head,
        version_sha: head,
        workflow_name,
        job_name,
        workspace_path: workspace,
        runner_os: os,
        runner_arch: arch,
        runner_temp: temp,
        runner_tool_cache: tool_cache,
    }
}


/// A map of texts with the server's cache and results URLs added where absent.
pub open spec fn with_server_urls(m: Map<Seq<char>, Seq<char>>, base: Seq<char>) -> Map<Seq<char>, Seq<char>> {
    let url = base + "/"@;
    let m1 = if m.contains_key("ACTIONS_CACHE_URL"@) { m } else { m.insert("ACTIONS_CACHE_URL"@, url) };
    if m1.contains_key("ACTIONS_RESULTS_URL"@) { m1 } else { m1.insert("ACTIONS_RESULTS_URL"@, url) }
}

/// A seeded job's environment: its `env` object's texts with the server's URLs added where absent.
pub open spec fn job_env_spec(jd: JIn, base: Seq<char>) -> Map<Seq<char>, Seq<char>> {
    with_server_urls(string_map_spec(in_get(jd, "env"@)), base)
}

/// The environment of a seeded job.
pub fn job_env_of(job_data: &JsonInput, base_url: &str) -> (r: crate::strmap::StrMap<String>)
    ensures
        r.wf(),
        crate::strmap::text_map(r) == job_env_spec(job_data@, base_url@),
{
    let mut env = string_map_from_value(job_data.get("env"));
    let url = cat(base_url, "/");
    proof {
        reveal_strlit("ACTIONS_CACHE_URL");
        reveal_strlit("ACTIONS_RESULTS_URL");
        reveal_strlit("/");
    }
    let ghost m0 = crate::strmap::text_map(env);
    if !env.contains_key("ACTIONS_CACHE_URL") {
        let ghost before = env;
        env.insert("ACTIONS_CACHE_URL".to_owned(), url.clone());
        proof { crate::strmap::lemma_text_map_insert(before, env, "ACTIONS_CACHE_URL"@, url@); }
    }
    let ghost m1 = crate::strmap::text_map(env);
    if !env.contains_key("ACTIONS_RESULTS_URL") {
        let ghost before = env;
        env.insert("ACTIONS_RESULTS_URL".to_owned(), url.clone());
        proof { crate::strmap::lemma_text_map_insert(before, env, "ACTIONS_RESULTS_URL"@, url@); }
    }
    assert(crate::strmap::text_map(env) =~= with_server_urls(m0, base_url@));
    env
}

/// A runner variable: its value and whether it is secret.
pub open spec fn var(v: Seq<char>, secret: bool) -> Json {
    obj2("Value"@, jstr(v), "IsSecret"@, Json::Bool(secret))
}

fn var_of(v: &str, secret: bool) -> (r: JsonValue)
    ensures
        r@ == var(v@, secret),
{
    object2("Value", JsonValue::Str(v.to_owned()), "IsSecret", JsonValue::Bool(secret))
}

/// The fixed runner variables of a job.
pub open spec fn fixed_vars(f: JobFacts, base: Seq<char>) -> Seq<(Seq<char>, Json)> {
    let url = base + "/"@;
    let full = f.repo_full_name@;
    seq![
        ("CI"@, var("true"@, false)),
        ("GITHUB_CI"@, var("true"@, false)),
        ("GITHUB_ACTIONS"@, var("true"@, false)),
        ("RUNNER_OS"@, var(f.runner_os@, false)),
        ("RUNNER_ARCH"@, var(f.runner_arch@, false)),
        ("RUNNER_NAME"@, var("oa-local-runner"@, false)),
        ("RUNNER_TEMP"@, var(f.runner_temp@, false)),
        ("RUNNER_TOOL_CACHE"@, var(f.runner_tool_cache@, false)),
        ("GITHUB_RUN_ID"@, var("1"@, false)),
        ("GITHUB_RUN_NUMBER"@, var("1"@, false)),
        ("GITHUB_JOB"@, var(f.job_name@, false)),
        ("GITHUB_EVENT_NAME"@, var("push"@, false)),
        ("GITHUB_API_URL"@, var(base, false)),
        ("ACTIONS_CACHE_URL"@, var(url, false)),
        ("ACTIONS_RESULTS_URL"@, var(url, false)),
        ("GITHUB_SERVER_URL"@, var("https://github.com"@, false)),
        ("GITHUB_REF_NAME"@, var("main"@, false)),
        ("GITHUB_WORKFLOW"@, var(f.workflow_name@, false)),
        ("GITHUB_WORKSPACE"@, var(f.workspace_path@, false)),
        ("system.github.token"@, var("fake-token"@, true)),
        ("system.github.job"@, var("local-job"@, false)),
        ("system.github.repository"@, var(full, false)),
        ("github.repository"@, var(full, false)),
        ("github.actor"@, var(f.owner_name@, false)),
        ("github.sha"@, var(f.real_head_sha@, false)),
        ("github.ref"@, var("refs/heads/main"@, false)),
        ("repository"@, var(full, false)),
        ("GITHUB_REPOSITORY"@, var(full, false)),
        ("GITHUB_ACTOR"@, var(f.owner_name@, false)),
        ("GITHUB_SHA"@, var(f.real_head_sha@, false)),
        ("build.repository.name"@, var(full, false)),
        ("build.repository.uri"@, var("https://github.com/"@ + full, false)),
    ]
}

/// The runner variables of a job: the fixed ones, then each environment entry in key order (a
/// later entry replacing a fixed one of the same name).
pub open spec fn variables_spec(f: JobFacts, base: Seq<char>, env: Map<Seq<char>, Seq<char>>) -> Json {
    Json::Object(fixed_vars(f, base) + map_pairs(env).map_values(|p: (Seq<char>, Seq<char>)| (p.0, var(p.1, false))))
}

/// The runner variables of a job.
pub fn job_variables(f: &JobFacts, base_url: &str, env: &crate::strmap::StrMap<String>) -> (r: JsonValue)
    requires
        env.wf(),
    ensures
        r@ == variables_spec(*f, base_url@, crate::strmap::text_map(*env)),
{
    let url = cat(base_url, "/");
    let mut e: Vec<(String, JsonValue)> = Vec::new();
    push_entry(&mut e, "CI", var_of("true", false));
    push_entry(&mut e, "GITHUB_CI", var_of("true", false));
    push_entry(&mut e, "GITHUB_ACTIONS", var_of("true", false));
    push_entry(&mut e, "RUNNER_OS", var_of(f.runner_os.as_str(), false));
    push_entry(&mut e, "RUNNER_ARCH", var_of(f.runner_arch.as_str(), false));
    push_entry(&mut e, "RUNNER_NAME", var_of("oa-local-runner", false));
    push_entry(&mut e, "RUNNER_TEMP", var_of(f.runner_temp.as_str(), false));
    push_entry(&mut e, "RUNNER_TOOL_CACHE", var_of(f.runner_tool_cache.as_str(), false));
    push_entry(&mut e, "GITHUB_RUN_ID", var_of("1", false));
    push_entry(&mut e, "GITHUB_RUN_NUMBER", var_of("1", false));
    push_entry(&mut e, "GITHUB_JOB", var_of(f.job_name.as_str(), false));
    push_entry(&mut e, "GITHUB_EVENT_NAME", var_of("push", false));
    push_entry(&mut e, "GITHUB_API_URL", var_of(base_url, false));
    push_entry(&mut e, "ACTIONS_CACHE_URL", var_of(url.as_str(), false));
    push_entry(&mut e, "ACTIONS_RESULTS_URL", var_of(url.as_str(), false));
    push_entry(&mut e, "GITHUB_SERVER_URL", var_of("https://github.com", false));
    push_entry(&mut e, "GITHUB_REF_NAME", var_of("main", false));
    push_entry(&mut e, "GITHUB_WORKFLOW", var_of(f.workflow_name.as_str(), false));
    push_entry(&mut e, "GITHUB_WORKSPACE", var_of(f.workspace_path.as_str(), false));
    push_entry(&mut e, "system.github.token", var_of("fake-token", true));
    push_entry(&mut e, "system.github.job", var_of("local-job", false));
    push_entry(&mut e, "system.github.repository", var_of(f.repo_full_name.as_str(), false));
    push_entry(&mut e, "github.repository", var_of(f.repo_full_name.as_str(), false));
    push_entry(&mut e, "github.actor", var_of(f.owner_name.as_str(), false));
    push_entry(&mut e, "github.sha", var_of(f.real_head_sha.as_str(), false));
    push_entry(&mut e, "github.ref", var_of("refs/heads/main", false));
    push_entry(&mut e, "repository", var_of(f.repo_full_name.as_str(), false));
    push_entry(&mut e, "GITHUB_REPOSITORY", var_of(f.repo_full_name.as_str(), false));
    push_entry(&mut e, "GITHUB_ACTOR", var_of(f.owner_name.as_str(), false));
    push_entry(&mut e, "GITHUB_SHA", var_of(f.real_head_sha.as_str(), false));
    push_entry(&mut e, "build.repository.name", var_of(f.repo_full_name.as_str(), false));
    let uri = cat("https://github.com/", f.repo_full_name.as_str());
    push_entry(&mut e, "build.repository.uri", var_of(uri.as_str(), false));
    assert(value_entries_view(e@) =~= fixed_vars(*f, base_url@));
    let ghost fixed = value_entries_view(e@);
    let pairs = map_entry_pairs(env);
    let ghost pv = pair_views(pairs@);
    let mut i: usize = 0;
    assert(value_entries_view(e@) =~= fixed + pv.take(0).map_values(|p: (Seq<char>, Seq<char>)| (p.0, var(p.1, false))));
    while i < pairs.len()
        invariant
            i <= pairs@.len(),
            pv == pair_views(pairs@),
            value_entries_view(e@) == fixed + pv.take(i as int).map_values(|p: (Seq<char>, Seq<char>)| (p.0, var(p.1, false))),
        decreases pairs.len() - i,
    {
        let v = var_of(pairs[i].1.as_str(), false);
        push_entry(&mut e, pairs[i].0.as_str(), v);
        assert(pv.take(i + 1).map_values(|p: (Seq<char>, Seq<char>)| (p.0, var(p.1, false))) =~= pv.take(i as int).map_values(|p: (Seq<char>, Seq<char>)| (p.0, var(p.1, false))).push((pv[i as int].0, var(pv[i as int].1, false))));
        i += 1;
    }
    assert(pv.take(pairs@.len() as int) =~= pv);
    JsonValue::Object(e)
}


/// The `github` context of a job, its keys in ascending order.
pub open spec fn github_context_spec(f: JobFacts, base: Seq<char>) -> Json {
    let full = f.repo_full_name@;
    let repository = Json::Object(seq![
        ("default_branch"@, jstr("main"@)),
        ("full_name"@, jstr(full)),
        ("name"@, jstr(f.repo_name@)),
        ("owner"@, obj1("login"@, jstr(f.owner_name@))),
    ]);
    let event = Json::Object(seq![
        ("after"@, jstr(f.real_head_sha@)),
        ("before"@, jstr("0000000000000000000000000000000000000000"@)),
        ("repository"@, repository),
    ]);
    Json::Object(seq![
        ("action"@, jstr("__run"@)),
        ("actor"@, jstr(f.owner_name@)),
        ("api_url"@, jstr(base)),
        ("event"@, event),
        ("event_name"@, jstr("push"@)),
        ("graphql_url"@, jstr(base + "/_graphql"@)),
        ("job"@, jstr("local-job"@)),
        ("ref"@, jstr("refs/heads/main"@)),
        ("repository"@, jstr(full)),
        ("server_url"@, jstr("https://github.com"@)),
        ("sha"@, jstr(f.real_head_sha@)),
        ("token"@, jstr("fake-token"@)),
        ("workspace"@, jstr(f.workspace_path@)),
    ])
}

/// The `github` context of a job.
pub fn github_context(f: &JobFacts, base_url: &str) -> (r: JsonValue)
    ensures
        r@ == github_context_spec(*f, base_url@),
{
    let mut repo: Vec<(String, JsonValue)> = Vec::new();
    push_entry(&mut repo, "default_branch", string("main"));
    push_entry(&mut repo, "full_name", JsonValue::Str(f.repo_full_name.clone()));
    push_entry(&mut repo, "name", JsonValue::Str(f.repo_name.clone()));
    push_entry(&mut repo, "owner", object1("login", JsonValue::Str(f.owner_name.clone())));
    let ghost rv = value_entries_view(repo@);
    let mut event: Vec<(String, JsonValue)> = Vec::new();
    push_entry(&mut event, "after", JsonValue::Str(f.real_head_sha.clone()));
    push_entry(&mut event, "before", string("0000000000000000000000000000000000000000"));
    push_entry(&mut event, "repository", JsonValue::Object(repo));
    let ghost ev = value_entries_view(event@);
    let mut e: Vec<(String, JsonValue)> = Vec::new();
    push_entry(&mut e, "action", string("__run"));
    push_entry(&mut e, "actor", JsonValue::Str(f.owner_name.clone()));
    push_entry(&mut e, "api_url", string(base_url));
    push_entry(&mut e, "event", JsonValue::Object(event));
    push_entry(&mut e, "event_name", string("push"));
    push_entry(&mut e, "graphql_url", JsonValue::Str(cat(base_url, "/_graphql")));
    push_entry(&mut e, "job", string("local-job"));
    push_entry(&mut e, "ref", string("refs/heads/main"));
    push_entry(&mut e, "repository", JsonValue::Str(f.repo_full_name.clone()));
    push_entry(&mut e, "server_url", string("https://github.com"));
    push_entry(&mut e, "sha", JsonValue::Str(f.real_head_sha.clone()));
    push_entry(&mut e, "token", string("fake-token"));
    push_entry(&mut e, "workspace", JsonValue::Str(f.workspace_path.clone()));
    assert(rv =~= seq![
        ("default_branch"@, jstr("main"@)),
        ("full_name"@, jstr(f.repo_full_name@)),
        ("name"@, jstr(f.repo_name@)),
        ("owner"@, obj1("login"@, jstr(f.owner_name@))),
    ]);
    assert(ev =~= seq![
        ("after"@, jstr(f.real_head_sha@)),
        ("before"@, jstr("0000000000000000000000000000000000000000"@)),
        ("repository"@, Json::Object(rv)),
    ]);
    assert(value_entries_view(e@) =~= seq![
        ("action"@, jstr("__run"@)),
        ("actor"@, jstr(f.owner_name@)),
        ("api_url"@, jstr(base_url@)),
        ("event"@, Json::Object(ev)),
        ("event_name"@, jstr("push"@)),
        ("graphql_url"@, jstr(base_url@ + "/_graphql"@)),
        ("job"@, jstr("local-job"@)),
        ("ref"@, jstr("refs/heads/main"@)),
        ("repository"@, jstr(f.repo_full_name@)),
        ("server_url"@, jstr("https://github.com"@)),
        ("sha"@, jstr(f.real_head_sha@)),
        ("token"@, jstr("fake-token"@)),
        ("workspace"@, jstr(f.workspace_path@)),
    ]);
    JsonValue::Object(e)
}

/// An empty context: an object with no entries.
pub open spec fn empty_ctx() -> Json {
    obj2("t"@, num("2"@), "d"@, Json::Array(Seq::empty()))
}

fn empty_context() -> (r: JsonValue)
    ensures
        r@ == empty_ctx(),
{
    let d: Vec<JsonValue> = Vec::new();
    assert(value_items_view(d@) =~= Seq::<Json>::empty());
    object2("t", number("2"), "d", array_of(d))
}

/// A read value as an answered value, or an empty object when absent.
pub open spec fn out_or_empty(v: Option<JIn>) -> Json {
    match v {
        Some(x) => out_of(x),
        None => Json::Object(Seq::empty()),
    }
}

/// A map of texts as an object of strings in ascending key order.
pub open spec fn strings_object(m: Map<Seq<char>, Seq<char>>) -> Json {
    Json::Object(map_pairs(m).map_values(|p: (Seq<char>, Seq<char>)| (p.0, jstr(p.1))))
}

/// The context data a runner evaluates expressions against.
pub open spec fn context_data_spec(f: JobFacts, base: Seq<char>, jd: JIn, env: Map<Seq<char>, Seq<char>>) -> Json {
    let entries = seq![
        ("github"@, ctx_data(github_context_spec(f, base))),
        ("steps"@, empty_ctx()),
        ("needs"@, ctx_data(out_or_empty(in_get(jd, "needs"@)))),
        ("strategy"@, ctx_data(strategy_context_spec(in_get(jd, "matrix"@)))),
        ("matrix"@, ctx_data(matrix_context_spec(in_get(jd, "matrix"@)))),
        ("secrets"@, empty_ctx()),
        ("vars"@, empty_ctx()),
        ("inputs"@, empty_ctx()),
    ];
    if env == Map::<Seq<char>, Seq<char>>::empty() {
        Json::Object(entries)
    } else {
        Json::Object(entries.push(("env"@, ctx_data(strings_object(env)))))
    }
}

pub(crate) fn strings_object_of(env: &crate::strmap::StrMap<String>) -> (r: JsonValue)
    requires
        env.wf(),
    ensures
        r@ == strings_object(crate::strmap::text_map(*env)),
{
    let pairs = map_entry_pairs(env);
    let ghost pv = pair_views(pairs@);
    let mut e: Vec<(String, JsonValue)> = Vec::new();
    let mut i: usize = 0;
    assert(value_entries_view(e@) =~= pv.take(0).map_values(|p: (Seq<char>, Seq<char>)| (p.0, jstr(p.1))));
    while i < pairs.len()
        invariant
            i <= pairs@.len(),
            pv == pair_views(pairs@),
            value_entries_view(e@) == pv.take(i as int).map_values(|p: (Seq<char>, Seq<char>)| (p.0, jstr(p.1))),
        decreases pairs.len() - i,
    {
        push_entry(&mut e, pairs[i].0.as_str(), JsonValue::Str(pairs[i].1.clone()));
        assert(pv.take(i + 1).map_values(|p: (Seq<char>, Seq<char>)| (p.0, jstr(p.1))) =~= pv.take(i as int).map_values(|p: (Seq<char>, Seq<char>)| (p.0, jstr(p.1))).push((pv[i as int].0, jstr(pv[i as int].1))));
        i += 1;
    }
    assert(pv.take(pairs@.len() as int) =~= pv);
    JsonValue::Object(e)
}

/// The context data of a job.
pub fn job_context_data(f: &JobFacts, base_url: &str, job_data: &JsonInput, env: &crate::strmap::StrMap<String>) -> (r: JsonValue)
    requires
        env.wf(),
    ensures
        r@ == context_data_spec(*f, base_url@, job_data@, crate::strmap::text_map(*env)),
{
    let needs = match job_data.get("needs") {
        Some(n) => n.to_output(),
        None => {
            let e: Vec<(String, JsonValue)> = Vec::new();
            assert(value_entries_view(e@) =~= Seq::<(Seq<char>, Json)>::empty());
            JsonValue::Object(e)
        },
    };
    let matrix = job_data.get("matrix");
    let mut e: Vec<(String, JsonValue)> = Vec::new();
    push_entry(&mut e, "github", to_context_data(&github_context(f, base_url)));
    push_entry(&mut e, "steps", empty_context());
    push_entry(&mut e, "needs", to_context_data(&needs));
    push_entry(&mut e, "strategy", to_context_data(&strategy_context_value(matrix)));
    push_entry(&mut e, "matrix", to_context_data(&matrix_context_value(matrix)));
    push_entry(&mut e, "secrets", empty_context());
    push_entry(&mut e, "vars", empty_context());
    push_entry(&mut e, "inputs", empty_context());
    let ghost base_entries = value_entries_view(e@);
    let ghost jd = job_data@;
    assert(base_entries =~= seq![
        ("github"@, ctx_data(github_context_spec(*f, base_url@))),
        ("steps"@, empty_ctx()),
        ("needs"@, ctx_data(out_or_empty(in_get(jd, "needs"@)))),
        ("strategy"@, ctx_data(strategy_context_spec(in_get(jd, "matrix"@)))),
        ("matrix"@, ctx_data(matrix_context_spec(in_get(jd, "matrix"@)))),
        ("secrets"@, empty_ctx()),
        ("vars"@, empty_ctx()),
        ("inputs"@, empty_ctx()),
    ]);
    if !env.is_empty() {
        push_entry(&mut e, "env", to_context_data(&strings_object_of(env)));
    }
    proof {
        let tm = crate::strmap::text_map(*env);
        if env.keys().len() == 0 {
            assert(tm =~= Map::<Seq<char>, Seq<char>>::empty());
        } else {
            env.lemma_index_of(0);
            assert(tm.contains_key(env.keys()[0]));
        }
    }
    JsonValue::Object(e)
}


/// The OAuth authorization a runner uses with the server.
pub open spec fn authorization(token: Seq<char>) -> Json {
    obj2("Parameters"@, obj1("AccessToken"@, jstr(token)), "Scheme"@, jstr("OAuth"@))
}

fn authorization_of(token: &str) -> (r: JsonValue)
    ensures
        r@ == authorization(token@),
{
    object2("Parameters", object1("AccessToken", JsonValue::Str(token.to_owned())), "Scheme", string("OAuth"))
}

/// The repository and endpoint resources of a job.
pub open spec fn resources_spec(f: JobFacts, base: Seq<char>, token: Seq<char>) -> Json {
    let full = f.repo_full_name@;
    let properties = Json::Object(seq![
        ("id"@, jstr("repo-1"@)),
        ("name"@, jstr(f.repo_name@)),
        ("fullName"@, jstr(full)),
        ("repoFullName"@, jstr(full)),
        ("owner"@, jstr(f.owner_name@)),
        ("defaultBranch"@, jstr("main"@)),
        ("cloneUrl"@, jstr("https://github.com/"@ + full + ".git"@)),
    ]);
    let repository = Json::Object(seq![
        ("Alias"@, jstr("self"@)),
        ("Id"@, jstr("repo-1"@)),
        ("Type"@, jstr("git"@)),
        ("Version"@, jstr(f.version_sha@)),
        ("Url"@, jstr("https://github.com/"@ + full)),
        ("Properties"@, properties),
    ]);
    let endpoint = Json::Object(seq![
        ("Name"@, jstr("SystemVssConnection"@)),
        ("Url"@, jstr(base)),
        ("Authorization"@, authorization(token)),
    ]);
    obj2("Repositories"@, Json::Array(seq![repository]), "Endpoints"@, Json::Array(seq![endpoint]))
}

fn job_resources(f: &JobFacts, base_url: &str, token: &str) -> (r: JsonValue)
    ensures
        r@ == resources_spec(*f, base_url@, token@),
{
    let url = cat("https://github.com/", f.repo_full_name.as_str());
    let clone_url = cat(url.as_str(), ".git");
    let mut props: Vec<(String, JsonValue)> = Vec::new();
    push_entry(&mut props, "id", string("repo-1"));
    push_entry(&mut props, "name", JsonValue::Str(f.repo_name.clone()));
    push_entry(&mut props, "fullName", JsonValue::Str(f.repo_full_name.clone()));
    push_entry(&mut props, "repoFullName", JsonValue::Str(f.repo_full_name.clone()));
    push_entry(&mut props, "owner", JsonValue::Str(f.owner_name.clone()));
    push_entry(&mut props, "defaultBranch", string("main"));
    push_entry(&mut props, "cloneUrl", JsonValue::Str(clone_url));
    let ghost pv = value_entries_view(props@);
    let mut repo: Vec<(String, JsonValue)> = Vec::new();
    push_entry(&mut repo, "Alias", string("self"));
    push_entry(&mut repo, "Id", string("repo-1"));
    push_entry(&mut repo, "Type", string("git"));
    push_entry(&mut repo, "Version", JsonValue::Str(f.version_sha.clone()));
    push_entry(&mut repo, "Url", JsonValue::Str(url));
    push_entry(&mut repo, "Properties", JsonValue::Object(props));
    let ghost rv = value_entries_view(repo@);
    let mut endpoint: Vec<(String, JsonValue)> = Vec::new();
    push_entry(&mut endpoint, "Name", string("SystemVssConnection"));
    push_entry(&mut endpoint, "Url", string(base_url));
    push_entry(&mut endpoint, "Authorization", authorization_of(token));
    let ghost ev = value_entries_view(endpoint@);
    let mut repos: Vec<JsonValue> = Vec::new();
    push_item(&mut repos, JsonValue::Object(repo));
    let mut endpoints: Vec<JsonValue> = Vec::new();
    push_item(&mut endpoints, JsonValue::Object(endpoint));
    let ghost full = f.repo_full_name@;
    assert(pv =~= seq![
        ("id"@, jstr("repo-1"@)),
        ("name"@, jstr(f.repo_name@)),
        ("fullName"@, jstr(full)),
        ("repoFullName"@, jstr(full)),
        ("owner"@, jstr(f.owner_name@)),
        ("defaultBranch"@, jstr("main"@)),
        ("cloneUrl"@, jstr("https://github.com/"@ + full + ".git"@)),
    ]);
    assert(rv =~= seq![
        ("Alias"@, jstr("self"@)),
        ("Id"@, jstr("repo-1"@)),
        ("Type"@, jstr("git"@)),
        ("Version"@, jstr(f.version_sha@)),
        ("Url"@, jstr("https://github.com/"@ + full)),
        ("Properties"@, Json::Object(pv)),
    ]);
    assert(ev =~= seq![
        ("Name"@, jstr("SystemVssConnection"@)),
        ("Url"@, jstr(base_url@)),
        ("Authorization"@, authorization(token@)),
    ]);
    assert(value_items_view(repos@) =~= seq![Json::Object(rv)]);
    assert(value_items_view(endpoints@) =~= seq![Json::Object(ev)]);
    object2("Repositories", array_of(repos), "Endpoints", array_of(endpoints))
}

/// The ids the server gives a job request: its timeline, the job itself and its plan scope.
#[derive(Debug, Clone, PartialEq, Eq)]
pub struct JobRequestIds {
    pub plan_id: String,
    pub timeline_id: String,
    pub job_id: String,
    pub scope_id: String,
}

/// The request id of a job: its id read as a 64-bit number, else 1.
pub open spec fn request_id(job_id: Seq<char>) -> nat {
    match crate::text::bounded(crate::text::unsigned_literal(job_id), u64::MAX as nat) {
        Some(n) => n,
        None => 1,
    }
}

/// The job's environment variables token: none when the environment is empty.
pub open spec fn environment_variables(env: Map<Seq<char>, Seq<char>>) -> Json {
    if env == Map::<Seq<char>, Seq<char>>::empty() {
        Json::Array(Seq::empty())
    } else {
        Json::Array(seq![token_mapping(map_pairs(env))])
    }
}

/// The body of the job request a runner receives for the seeded job `job_id`: plan, timeline,
/// steps, variables, context data, resources and workspace, with the job's container and
/// services when it has them.
pub open spec fn job_request_spec(job_id: Seq<char>, jd: JIn, base: Seq<char>, ids: JobRequestIds, f: JobFacts) -> Json {
    let env = job_env_spec(jd, base);
    let token = mock_jwt_spec(ids.plan_id@, ids.job_id@);
    let outputs = match in_get(jd, "outputs"@) {
        Some(v) => text_pairs(v),
        None => Seq::empty(),
    };
    let entries = seq![
        ("MessageType"@, jstr("PipelineAgentJobRequest"@)),
        ("Plan"@, Json::Object(seq![("PlanId"@, jstr(ids.plan_id@)), ("PlanType"@, jstr("Action"@)), ("ScopeId"@, jstr(ids.scope_id@))])),
        ("Timeline"@, obj2("Id"@, jstr(ids.timeline_id@), "ChangeId"@, num("1"@))),
        ("JobId"@, jstr(ids.job_id@)),
        ("RequestId"@, num(crate::text::decimal(request_id(job_id)))),
        ("JobDisplayName"@, jstr(f.job_name@)),
        ("JobName"@, jstr(f.job_name@)),
        ("Steps"@, job_steps_spec(in_get(jd, "steps"@), base)),
        ("Variables"@, variables_spec(f, base, env)),
        ("ContextData"@, context_data_spec(f, base, jd, env)),
        ("Resources"@, resources_spec(f, base, token)),
        ("Workspace"@, obj1("Path"@, jstr(f.workspace_path@))),
        ("SystemVssConnection"@, obj2("Url"@, jstr(base), "Authorization"@, authorization(token))),
        ("Actions"@, Json::Array(Seq::empty())),
        ("MaskHints"@, Json::Array(Seq::empty())),
        ("EnvironmentVariables"@, environment_variables(env)),
        ("JobOutputs"@, token_mapping(outputs)),
    ];
    let with_container = match in_get(jd, "container"@) {
        Some(c) => match container_token_spec(c) {
            Some(t) => entries.push(("JobContainer"@, t)),
            None => entries,
        },
        None => entries,
    };
    Json::Object(match in_get(jd, "services"@) {
        Some(JIn::Array(items, _)) => if items.len() > 0 {
            with_container.push(("JobServiceContainers"@, obj2("type"@, num("2"@), "map"@, Json::Array(service_entries(items)))))
        } else {
            with_container
        },
        _ => with_container,
    })
}


/// The body of the job request a runner receives.
pub fn job_request_body(job_id: &str, job_data: &JsonInput, base_url: &str, ids: &JobRequestIds) -> (r: JsonValue)
    ensures
        exists|f: JobFacts| facts_of(f, job_id@, job_data@) && r@ == job_request_spec(job_id@, job_data@, base_url@, *ids, f),
{
    let f = job_facts(job_id, job_data);
    let env = job_env_of(job_data, base_url);
    let token = create_mock_jwt(ids.plan_id.as_str(), ids.job_id.as_str());
    let request_number: u64 = match crate::text::parse_u64(job_id) {
        Some(n) => n,
        None => 1,
    };
    let request_text = crate::text::u64_to_string(request_number);
    let mut plan: Vec<(String, JsonValue)> = Vec::new();
    push_entry(&mut plan, "PlanId", JsonValue::Str(ids.plan_id.clone()));
    push_entry(&mut plan, "PlanType", string("Action"));
    push_entry(&mut plan, "ScopeId", JsonValue::Str(ids.scope_id.clone()));
    let ghost planv = value_entries_view(plan@);
    let env_vars = if env.is_empty() {
        let v: Vec<JsonValue> = Vec::new();
        assert(value_items_view(v@) =~= Seq::<Json>::empty());
        array_of(v)
    } else {
        let pairs = map_entry_pairs(&env);
        let mut v: Vec<JsonValue> = Vec::new();
        push_item(&mut v, template_token_mapping(&pairs));
        assert(value_items_view(v@) =~= seq![token_mapping(map_pairs(crate::strmap::text_map(env)))]);
        array_of(v)
    };
    proof {
        let tm = crate::strmap::text_map(env);
        if env.keys().len() == 0 {
            assert(tm =~= Map::<Seq<char>, Seq<char>>::empty());
        } else {
            env.lemma_index_of(0);
            assert(tm.contains_key(env.keys()[0]));
        }
    }
    let outputs = match job_data.get("outputs") {
        Some(v) => to_template_token_mapping(v),
        None => {
            let p: Vec<(String, String)> = Vec::new();
            assert(pair_views(p@) =~= Seq::<(Seq<char>, Seq<char>)>::empty());
            template_token_mapping(&p)
        },
    };
    let no_items: Vec<JsonValue> = Vec::new();
    let no_masks: Vec<JsonValue> = Vec::new();
    assert(value_items_view(no_items@) =~= Seq::<Json>::empty());
    assert(value_items_view(no_masks@) =~= Seq::<Json>::empty());
    let mut e: Vec<(String, JsonValue)> = Vec::new();
    push_entry(&mut e, "MessageType", string("PipelineAgentJobRequest"));
    push_entry(&mut e, "Plan", JsonValue::Object(plan));
    push_entry(&mut e, "Timeline", object2("Id", JsonValue::Str(ids.timeline_id.clone()), "ChangeId", number("1")));
    push_entry(&mut e, "JobId", JsonValue::Str(ids.job_id.clone()));
    push_entry(&mut e, "RequestId", JsonValue::Number(request_text));
    push_entry(&mut e, "JobDisplayName", JsonValue::Str(f.job_name.clone()));
    push_entry(&mut e, "JobName", JsonValue::Str(f.job_name.clone()));
    push_entry(&mut e, "Steps", map_job_steps(job_data.get("steps"), base_url));
    push_entry(&mut e, "Variables", job_variables(&f, base_url, &env));
    push_entry(&mut e, "ContextData", job_context_data(&f, base_url, job_data, &env));
    push_entry(&mut e, "Resources", job_resources(&f, base_url, token.as_str()));
    push_entry(&mut e, "Workspace", object1("Path", JsonValue::Str(f.workspace_path.clone())));
    push_entry(&mut e, "SystemVssConnection", object2("Url", string(base_url), "Authorization", authorization_of(token.as_str())));
    push_entry(&mut e, "Actions", array_of(no_items));
    push_entry(&mut e, "MaskHints", array_of(no_masks));
    push_entry(&mut e, "EnvironmentVariables", env_vars);
    push_entry(&mut e, "JobOutputs", outputs);
    let ghost jd = job_data@;
    let ghost envm = job_env_spec(jd, base_url@);
    let ghost tok = mock_jwt_spec(ids.plan_id@, ids.job_id@);
    let ghost outs = match in_get(jd, "outputs"@) {
        Some(v) => text_pairs(v),
        None => Seq::empty(),
    };
    assert(planv =~= seq![("PlanId"@, jstr(ids.plan_id@)), ("PlanType"@, jstr("Action"@)), ("ScopeId"@, jstr(ids.scope_id@))]);
    let ghost entries = seq![
        ("MessageType"@, jstr("PipelineAgentJobRequest"@)),
        ("Plan"@, Json::Object(seq![("PlanId"@, jstr(ids.plan_id@)), ("PlanType"@, jstr("Action"@)), ("ScopeId"@, jstr(ids.scope_id@))])),
        ("Timeline"@, obj2("Id"@, jstr(ids.timeline_id@), "ChangeId"@, num("1"@))),
        ("JobId"@, jstr(ids.job_id@)),
        ("RequestId"@, num(crate::text::decimal(request_id(job_id@)))),
        ("JobDisplayName"@, jstr(f.job_name@)),
        ("JobName"@, jstr(f.job_name@)),
        ("Steps"@, job_steps_spec(in_get(jd, "steps"@), base_url@)),
        ("Variables"@, variables_spec(f, base_url@, envm)),
        ("ContextData"@, context_data_spec(f, base_url@, jd, envm)),
        ("Resources"@, resources_spec(f, base_url@, tok)),
        ("Workspace"@, obj1("Path"@, jstr(f.workspace_path@))),
        ("SystemVssConnection"@, obj2("Url"@, jstr(base_url@), "Authorization"@, authorization(tok))),
        ("Actions"@, Json::Array(Seq::empty())),
        ("MaskHints"@, Json::Array(Seq::empty())),
        ("EnvironmentVariables"@, environment_variables(envm)),
        ("JobOutputs"@, token_mapping(outs)),
    ];
    assert(value_entries_view(e@) =~= entries);
    let container_token = match job_data.get("container") {
        Some(c) => job_container_token(c),
        None => None,
    };
    if let Some(t) = container_token {
        push_entry(&mut e, "JobContainer", t);
    }
    let ghost with_container = match in_get(jd, "container"@) {
        Some(c) => match container_token_spec(c) {
            Some(t) => entries.push(("JobContainer"@, t)),
            None => entries,
        },
        None => entries,
    };
    assert(value_entries_view(e@) =~= with_container);
    if let Some(JsonInput::Array(items, _)) = job_data.get("services") {
        if items.len() > 0 {
            proof { lemma_input_items_view(items@); }
            push_entry(&mut e, "JobServiceContainers", job_service_containers_token(items));
        }
    }
    let r = JsonValue::Object(e);
    assert(r@ == job_request_spec(job_id@, job_data@, base_url@, *ids, f));
    r
}

} // verus!
