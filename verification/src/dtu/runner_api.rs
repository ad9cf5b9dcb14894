//! The records the runner API answers with when a runner registers, opens a session and
//! creates a log.
use crate::json::{in_get, opt_in_str, object_of, push_entry, string, value_entries_view, JIn, Json, JsonInput,
    JsonValue};
use crate::text::{cat, decimal, u64_to_string};
use vstd::prelude::*;

verus! {

/// The text of an optional string value, or a default.
pub open spec fn str_or(v: Option<JIn>, default: Seq<char>) -> Seq<char> {
    match opt_in_str(v) {
        Some(s) => s,
        None => default,
    }
}

/// The text of a payload's string field, or a default.
fn field_or(payload: &JsonInput, key: &str, default: &str) -> (r: String)
    ensures
        r@ == str_or(in_get(payload@, key@), default@),
{
    match payload.get(key) {
        Some(v) => match v.as_str() {
            Some(s) => s.to_owned(),
            None => default.to_owned(),
        },
        None => default.to_owned(),
    }
}

/// The agent a runner registers: its name, version and OS as the payload gives them (or the
/// defaults), online and ephemeral, with a mock client id and the URLs under `base`.
pub open spec fn agent_json(payload: JIn, agent_id: nat, client_id: nat, base: Seq<char>, pool: Seq<char>) -> Json {
    Json::Object(seq![
        ("id"@, Json::Number(decimal(agent_id))),
        ("name"@, Json::Str(str_or(in_get(payload, "name"@), "local-ci-runner"@))),
        ("version"@, Json::Str(str_or(in_get(payload, "version"@), "2.331.0"@))),
        ("osDescription"@, Json::Str(str_or(in_get(payload, "osDescription"@), "Linux"@))),
        ("ephemeral"@, Json::Bool(true)),
        ("disableUpdate"@, Json::Bool(true)),
        ("enabled"@, Json::Bool(true)),
        ("status"@, Json::Str("online"@)),
        ("provisioningState"@, Json::Str("Provisioned"@)),
        ("authorization"@, Json::Object(seq![
            ("clientId"@, Json::Str("mock-client-"@ + decimal(client_id))),
            ("authorizationUrl"@, Json::Str(base + "/auth/authorize"@)),
        ])),
        ("accessPoint"@, Json::Str(base + "/_apis/distributedtask/pools/"@ + pool + "/agents/"@ + decimal(agent_id))),
    ])
}

/// The answer to a runner's registration in `pool` (see `agent_json`).
pub fn agent_created(payload: &JsonInput, agent_id: u64, client_id: u64, base: &str, pool: &str) -> (r: JsonValue)
    ensures
        r@ == agent_json(payload@, agent_id as nat, client_id as nat, base@, pool@),
{
    let id_text = u64_to_string(agent_id);
    let mut auth: Vec<(String, JsonValue)> = Vec::new();
    push_entry(&mut auth, "clientId", JsonValue::Str(cat("mock-client-", u64_to_string(client_id).as_str())));
    push_entry(&mut auth, "authorizationUrl", JsonValue::Str(cat(base, "/auth/authorize")));
    let mut access = cat(base, "/_apis/distributedtask/pools/");
    access.append(pool);
    access.append("/agents/");
    access.append(id_text.as_str());
    let mut e: Vec<(String, JsonValue)> = Vec::new();
    push_entry(&mut e, "id", JsonValue::Number(id_text));
    push_entry(&mut e, "name", JsonValue::Str(field_or(payload, "name", "local-ci-runner")));
    push_entry(&mut e, "version", JsonValue::Str(field_or(payload, "version", "2.331.0")));
    push_entry(&mut e, "osDescription", JsonValue::Str(field_or(payload, "osDescription", "Linux")));
    push_entry(&mut e, "ephemeral", JsonValue::Bool(true));
    push_entry(&mut e, "disableUpdate", JsonValue::Bool(true));
    push_entry(&mut e, "enabled", JsonValue::Bool(true));
    push_entry(&mut e, "status", string("online"));
    push_entry(&mut e, "provisioningState", string("Provisioned"));
    push_entry(&mut e, "authorization", object_of(auth));
    push_entry(&mut e, "accessPoint", JsonValue::Str(access));
    proof {
        reveal_strlit("id");
        reveal_strlit("name");
        reveal_strlit("version");
        reveal_strlit("osDescription");
        reveal_strlit("ephemeral");
        reveal_strlit("disableUpdate");
        reveal_strlit("enabled");
        reveal_strlit("status");
        reveal_strlit("provisioningState");
        reveal_strlit("authorization");
        reveal_strlit("accessPoint");
        reveal_strlit("clientId");
        reveal_strlit("authorizationUrl");
        reveal_strlit("mock-client-");
        reveal_strlit("/auth/authorize");
        reveal_strlit("/_apis/distributedtask/pools/");
        reveal_strlit("/agents/");
        reveal_strlit("local-ci-runner");
        reveal_strlit("2.331.0");
        reveal_strlit("Linux");
        reveal_strlit("online");
        reveal_strlit("Provisioned");
        assert(value_entries_view(auth@) =~= seq![
            ("clientId"@, Json::Str("mock-client-"@ + decimal(client_id as nat))),
            ("authorizationUrl"@, Json::Str(base@ + "/auth/authorize"@)),
        ]);
        assert(value_entries_view(e@) =~= seq![
            ("id"@, Json::Number(decimal(agent_id as nat))),
            ("name"@, Json::Str(str_or(in_get(payload@, "name"@), "local-ci-runner"@))),
            ("version"@, Json::Str(str_or(in_get(payload@, "version"@), "2.331.0"@))),
            ("osDescription"@, Json::Str(str_or(in_get(payload@, "osDescription"@), "Linux"@))),
            ("ephemeral"@, Json::Bool(true)),
            ("disableUpdate"@, Json::Bool(true)),
            ("enabled"@, Json::Bool(true)),
            ("status"@, Json::Str("online"@)),
            ("provisioningState"@, Json::Str("Provisioned"@)),
            ("authorization"@, Json::Object(seq![
                ("clientId"@, Json::Str("mock-client-"@ + decimal(client_id as nat))),
                ("authorizationUrl"@, Json::Str(base@ + "/auth/authorize"@)),
            ])),
            ("accessPoint"@, Json::Str(base@ + "/_apis/distributedtask/pools/"@ + pool@ + "/agents/"@ + decimal(agent_id as nat))),
        ]);
    }
    object_of(e)
}

/// The name a session's payload gives its agent (`/agent/name`), or the default runner name.
pub open spec fn session_owner(payload: JIn) -> Seq<char> {
    str_or(
        match in_get(payload, "agent"@) {
            Some(a) => in_get(a, "name"@),
            None => None,
        },
        "local-ci-runner"@,
    )
}

/// The session opened for a runner: its id, its owner and agent, and the fixed encryption key.
pub open spec fn session_json(session_id: Seq<char>, owner: Seq<char>) -> Json {
    Json::Object(seq![
        ("sessionId"@, Json::Str(session_id)),
        ("ownerName"@, Json::Str(owner)),
        ("agent"@, Json::Object(seq![
            ("id"@, Json::Number("1"@)),
            ("name"@, Json::Str(owner)),
            ("version"@, Json::Str("2.331.0"@)),
            ("osDescription"@, Json::Str("Linux"@)),
            ("enabled"@, Json::Bool(true)),
            ("status"@, Json::Str("online"@)),
        ])),
        ("encryptionKey"@, Json::Object(seq![
            ("value"@, Json::Str("AAAAAAAAAAAAAAAAAAAAAAAAAAAAAAAAAAAAAAAAAAA="@)),
            ("k"@, Json::Str("encryptionKey"@)),
        ])),
    ])
}

/// The answer to a runner opening a session, with the session's owner (see `session_json`).
pub fn session_created(payload: &JsonInput, session_id: &str) -> (r: (String, JsonValue))
    ensures
        r.0@ == session_owner(payload@),
        r.1@ == session_json(session_id@, session_owner(payload@)),
{
    let owner = match payload.get("agent") {
        Some(a) => field_or(a, "name", "local-ci-runner"),
        None => "local-ci-runner".to_owned(),
    };
    let mut agent: Vec<(String, JsonValue)> = Vec::new();
    push_entry(&mut agent, "id", JsonValue::Number("1".to_owned()));
    push_entry(&mut agent, "name", JsonValue::Str(owner.clone()));
    push_entry(&mut agent, "version", string("2.331.0"));
    push_entry(&mut agent, "osDescription", string("Linux"));
    push_entry(&mut agent, "enabled", JsonValue::Bool(true));
    push_entry(&mut agent, "status", string("online"));
    let mut key: Vec<(String, JsonValue)> = Vec::new();
    push_entry(&mut key, "value", string("AAAAAAAAAAAAAAAAAAAAAAAAAAAAAAAAAAAAAAAAAAA="));
    push_entry(&mut key, "k", string("encryptionKey"));
    let mut e: Vec<(String, JsonValue)> = Vec::new();
    push_entry(&mut e, "sessionId", string(session_id));
    push_entry(&mut e, "ownerName", JsonValue::Str(owner.clone()));
    push_entry(&mut e, "agent", object_of(agent));
    push_entry(&mut e, "encryptionKey", object_of(key));
    proof {
        reveal_strlit("agent");
        reveal_strlit("name");
        reveal_strlit("local-ci-runner");
        reveal_strlit("id");
        reveal_strlit("1");
        reveal_strlit("version");
        reveal_strlit("2.331.0");
        reveal_strlit("osDescription");
        reveal_strlit("Linux");
        reveal_strlit("enabled");
        reveal_strlit("status");
        reveal_strlit("online");
        reveal_strlit("value");
        reveal_strlit("AAAAAAAAAAAAAAAAAAAAAAAAAAAAAAAAAAAAAAAAAAA=");
        reveal_strlit("k");
        reveal_strlit("encryptionKey");
        reveal_strlit("sessionId");
        reveal_strlit("ownerName");
        let owner_v = session_owner(payload@);
        assert(owner@ == owner_v);
        let agent_v = seq![
            ("id"@, Json::Number("1"@)),
            ("name"@, Json::Str(owner_v)),
            ("version"@, Json::Str("2.331.0"@)),
            ("osDescription"@, Json::Str("Linux"@)),
            ("enabled"@, Json::Bool(true)),
            ("status"@, Json::Str("online"@)),
        ];
        let key_v = seq![
            ("value"@, Json::Str("AAAAAAAAAAAAAAAAAAAAAAAAAAAAAAAAAAAAAAAAAAA="@)),
            ("k"@, Json::Str("encryptionKey"@)),
        ];
        assert(value_entries_view(agent@) =~= agent_v);
        assert(value_entries_view(key@) =~= key_v);
        assert(value_entries_view(e@) =~= seq![
            ("sessionId"@, Json::Str(session_id@)),
            ("ownerName"@, Json::Str(owner_v)),
            ("agent"@, Json::Object(agent_v)),
            ("encryptionKey"@, Json::Object(key_v)),
        ]);
    }
    (owner, object_of(e))
}

/// The log created for a plan: its id and path, when, and where it is written.
pub open spec fn log_json(log_id: nat, created_on: Seq<char>, base: Seq<char>, hub: Seq<char>, plan: Seq<char>) -> Json {
    Json::Object(seq![
        ("id"@, Json::Number(decimal(log_id))),
        ("path"@, Json::Str("logs/"@ + decimal(log_id))),
        ("createdOn"@, Json::Str(created_on)),
        ("location"@, Json::Str(base + "/_apis/distributedtask/hubs/"@ + hub + "/plans/"@ + plan + "/logs/"@
            + decimal(log_id))),
    ])
}

/// The answer to a runner creating a log (see `log_json`).
pub fn log_created(log_id: u64, created_on: &str, base: &str, hub: &str, plan: &str) -> (r: JsonValue)
    ensures
        r@ == log_json(log_id as nat, created_on@, base@, hub@, plan@),
{
    let id_text = u64_to_string(log_id);
    let mut location = cat(base, "/_apis/distributedtask/hubs/");
    location.append(hub);
    location.append("/plans/");
    location.append(plan);
    location.append("/logs/");
    location.append(id_text.as_str());
    let mut e: Vec<(String, JsonValue)> = Vec::new();
    push_entry(&mut e, "id", JsonValue::Number(id_text.clone()));
    push_entry(&mut e, "path", JsonValue::Str(cat("logs/", id_text.as_str())));
    push_entry(&mut e, "createdOn", string(created_on));
    push_entry(&mut e, "location", JsonValue::Str(location));
    proof {
        reveal_strlit("id");
        reveal_strlit("path");
        reveal_strlit("createdOn");
        reveal_strlit("location");
        reveal_strlit("logs/");
        reveal_strlit("/_apis/distributedtask/hubs/");
        reveal_strlit("/plans/");
        reveal_strlit("/logs/");
        assert(value_entries_view(e@) =~= seq![
            ("id"@, Json::Number(decimal(log_id as nat))),
            ("path"@, Json::Str("logs/"@ + decimal(log_id as nat))),
            ("createdOn"@, Json::Str(created_on@)),
            ("location"@, Json::Str(base@ + "/_apis/distributedtask/hubs/"@ + hub@ + "/plans/"@ + plan@ + "/logs/"@
                + decimal(log_id as nat))),
        ]);
    }
    object_of(e)
}

} // verus!
