//! The JSON payloads a seeded job, its steps, services and container are handed to the DTU
//! server as.
use crate::dtu::job_mapping::{strings_object, strings_object_of};
use crate::json::{jstr, lemma_value_entries_view, lemma_value_items_view, obj2, push_entry, string, value_entries_view,
    value_items_view, Json, JsonValue};
use crate::plan::NeedContext;
use crate::runner::pause::{apply_shell_override, normalize_step_condition, normalized_condition, shell_override_spec};
use crate::runner::runtime::ServiceSpec;
use crate::runner::types::{DtuJobContainer, DtuJobSeed, DtuJobStep};
use crate::strmap::{text_map, StrMap};
use crate::text::{cat3, split_char, split_on_char, split_once_char, first_index_of, views};
use vstd::prelude::*;

verus! {

/// An optional text as a string, or null.
pub open spec fn opt_json(o: Option<String>) -> Json {
    match o {
        Some(s) => jstr(s@),
        None => Json::Null,
    }
}

/// Texts as an array of strings.
pub open spec fn strings_json(v: Seq<String>) -> Json {
    Json::Array(v.map_values(|s: String| jstr(s@)))
}

/// A job container's payload.
pub open spec fn container_payload(c: DtuJobContainer) -> Json {
    Json::Object(seq![
        ("image"@, jstr(c.image@)),
        ("env"@, strings_object(text_map(c.env))),
        ("ports"@, strings_json(c.ports@)),
        ("volumes"@, strings_json(c.volumes@)),
        ("options"@, opt_json(c.options)),
    ])
}

/// The variables of `KEY=value` entries, in order (a later key replaces an earlier one when
/// written out); entries without `=` are left out.
pub open spec fn env_entries(env: Seq<Seq<char>>) -> Seq<(Seq<char>, Json)>
    decreases env.len(),
{
    if env.len() == 0 {
        Seq::empty()
    } else if env.last().contains('=') {
        let e = env.last();
        let i = choose|i: int| first_index_of(e, '=', i);
        env_entries(env.drop_last()).push((e.take(i), jstr(e.skip(i + 1))))
    } else {
        env_entries(env.drop_last())
    }
}

/// A published port: the container port alone without a host port, else `host:container`.
pub open spec fn port_text(host: Seq<char>, container: Seq<char>) -> Seq<char> {
    if host.len() == 0 {
        container
    } else {
        host + ":"@ + container
    }
}

/// A service's payload.
pub open spec fn service_payload(s: ServiceSpec) -> Json {
    Json::Object(seq![
        ("id"@, jstr(s.id@)),
        ("image"@, jstr(s.image@)),
        ("env"@, Json::Object(env_entries(views(s.env@)))),
        ("ports"@, Json::Array(Seq::new(s.ports.keys().len(), |i: int| jstr(port_text(s.ports.keys()[i], s.ports.values()[i]@))))),
        ("volumes"@, Json::Array(Seq::empty())),
        ("options"@, opt_json(s.options)),
    ])
}

/// A step's `Inputs` when it runs a script.
pub open spec fn script_inputs(s: DtuJobStep, run: Seq<char>) -> Json {
    let script = seq![("script"@, jstr(shell_override_spec(run, match s.shell {
        Some(sh) => Some(sh@),
        None => None,
    })))];
    match s.working_directory {
        Some(w) => Json::Object(script.push(("workingDirectory"@, jstr(w@)))),
        None => Json::Object(script),
    }
}

/// A step's payload: its name, then what it has of a context name, a script (with its inputs),
/// an action, a condition (without `${{ }}`), an environment, and an action's inputs.
pub open spec fn step_payload(s: DtuJobStep) -> Json {
    let e0 = seq![("name"@, jstr(s.name@))];
    let e1 = match s.context_name {
        Some(c) => e0.push(("ContextName"@, jstr(c@))),
        None => e0,
    };
    let e2 = match s.run {
        Some(r) => e1.push(("run"@, jstr(r@))).push(("Inputs"@, script_inputs(s, r@))),
        None => e1,
    };
    let e3 = match s.uses {
        Some(u) => e2.push(("uses"@, jstr(u@))),
        None => e2,
    };
    let e4 = match s.condition {
        Some(c) => e3.push(("condition"@, jstr(normalized_condition(c@)))),
        None => e3,
    };
    let e5 = if s.env.keys().len() > 0 { e4.push(("Env"@, strings_object(text_map(s.env)))) } else { e4 };
    let e6 = if s.run is None && s.with.keys().len() > 0 { e5.push(("Inputs"@, strings_object(text_map(s.with)))) } else { e5 };
    Json::Object(e6)
}

/// A needed job's context in the payload.
pub open spec fn need_payload(n: NeedContext) -> Json {
    obj2("result"@, jstr(n.result@), "outputs"@, strings_object(text_map(n.outputs)))
}

/// The needs contexts as an object, in key order.
pub open spec fn needs_payload(m: StrMap<NeedContext>) -> Json {
    Json::Object(Seq::new(m.keys().len(), |i: int| (m.keys()[i], need_payload(m.values()[i]))))
}

/// The repository description: full name, name (after the last `/`), owner (before the first)
/// and default branch.
pub open spec fn repository_payload(repo: Seq<char>) -> Json {
    let parts = split_char(repo, '/');
    Json::Object(seq![
        ("full_name"@, jstr(repo)),
        ("name"@, jstr(parts.last())),
        ("owner"@, Json::Object(seq![("login"@, jstr(parts[0]))])),
        ("default_branch"@, jstr("main"@)),
    ])
}

/// A seeded job's payload.
pub open spec fn seed_payload(s: DtuJobSeed) -> Json {
    Json::Object(seq![
        ("id"@, jstr(s.id@)),
        ("runnerName"@, jstr(s.runner_name@)),
        ("name"@, jstr(s.name@)),
        ("workflowName"@, jstr(s.workflow_name@)),
        ("repoRoot"@, jstr(s.repo_root@)),
        ("githubRepo"@, jstr(s.github_repo@)),
        ("headSha"@, jstr(s.head_sha@)),
        ("realHeadSha"@, jstr(s.real_head_sha@)),
        ("runnerWorkDir"@, opt_json(s.runner_work_dir)),
        ("runnerOs"@, opt_json(s.runner_os)),
        ("runnerArch"@, opt_json(s.runner_arch)),
        ("env"@, strings_object(text_map(s.env))),
        ("outputs"@, strings_object(text_map(s.outputs))),
        ("needs"@, needs_payload(s.needs_context)),
        ("container"@, match s.container {
            Some(c) => container_payload(c),
            None => Json::Null,
        }),
        ("services"@, Json::Array(s.services@.map_values(|x: ServiceSpec| service_payload(x)))),
        ("matrix"@, match s.matrix_context {
            Some(m) => strings_object(text_map(m)),
            None => Json::Object(Seq::empty()),
        }),
        ("repository"@, repository_payload(s.github_repo@)),
        ("steps"@, Json::Array(s.steps@.map_values(|x: DtuJobStep| step_payload(x)))),
    ])
}

/// The maps of a step are well formed.
pub open spec fn step_wf(s: DtuJobStep) -> bool {
    s.env.wf() && s.with.wf()
}

/// The maps of a seeded job are well formed.
pub open spec fn seed_wf(s: DtuJobSeed) -> bool {
    &&& s.env.wf()
    &&& s.outputs.wf()
    &&& s.needs_context.wf()
    &&& forall|i: int| 0 <= i < s.needs_context.keys().len() ==> (#[trigger] s.needs_context.values()[i]).outputs.wf()
    &&& (s.container matches Some(c) ==> c.env.wf())
    &&& forall|i: int| 0 <= i < s.services@.len() ==> (#[trigger] s.services@[i]).ports.wf()
    &&& (s.matrix_context matches Some(m) ==> m.wf())
    &&& forall|i: int| 0 <= i < s.steps@.len() ==> step_wf(#[trigger] s.steps@[i])
}

fn opt_string_value(o: &Option<String>) -> (r: JsonValue)
    ensures
        r@ == opt_json(*o),
{
    match o {
        Some(s) => string(s.as_str()),
        None => JsonValue::Null,
    }
}

fn strings_array(v: &Vec<String>) -> (r: JsonValue)
    ensures
        r@ == strings_json(v@),
{
    let mut items: Vec<JsonValue> = Vec::new();
    let mut i: usize = 0;
    while i < v.len()
        invariant
            i <= v.len(),
            items@.len() == i,
            forall|j: int| 0 <= j < i ==> #[trigger] items@[j]@ == jstr(v@[j]@),
        decreases v.len() - i,
    {
        items.push(string(v[i].as_str()));
        i += 1;
    }
    proof {
        lemma_value_items_view(items@);
        assert(value_items_view(items@) =~= v@.map_values(|s: String| jstr(s@)));
    }
    JsonValue::Array(items)
}

fn entries_object(entries: Vec<(String, JsonValue)>, want: Ghost<Seq<(Seq<char>, Json)>>) -> (r: JsonValue)
    requires
        value_entries_view(entries@) == want@,
    ensures
        r@ == Json::Object(want@),
{
    JsonValue::Object(entries)
}

fn container_payload_of(c: &DtuJobContainer) -> (r: JsonValue)
    requires
        c.env.wf(),
    ensures
        r@ == container_payload(*c),
{
    let mut e: Vec<(String, JsonValue)> = Vec::new();
    assert(value_entries_view(e@) =~= Seq::<(Seq<char>, Json)>::empty());
    push_entry(&mut e, "image", string(c.image.as_str()));
    push_entry(&mut e, "env", strings_object_of(&c.env));
    push_entry(&mut e, "ports", strings_array(&c.ports));
    push_entry(&mut e, "volumes", strings_array(&c.volumes));
    push_entry(&mut e, "options", opt_string_value(&c.options));
    let ghost want = seq![
        ("image"@, jstr(c.image@)),
        ("env"@, strings_object(text_map(c.env))),
        ("ports"@, strings_json(c.ports@)),
        ("volumes"@, strings_json(c.volumes@)),
        ("options"@, opt_json(c.options)),
    ];
    assert(value_entries_view(e@) =~= want);
    entries_object(e, Ghost(want))
}

proof fn lemma_first_index_unique(s: Seq<char>, c: char, i: int, j: int)
    requires
        first_index_of(s, c, i),
        first_index_of(s, c, j),
    ensures
        i == j,
{
    if i < j {
        assert(s[i] != c);
    } else if j < i {
        assert(s[j] != c);
    }
}

fn service_payload_of(s: &ServiceSpec) -> (r: JsonValue)
    requires
        s.ports.wf(),
    ensures
        r@ == service_payload(*s),
{
    let ghost ev = views(s.env@);
    let mut env: Vec<(String, JsonValue)> = Vec::new();
    assert(ev.take(0) =~= Seq::<Seq<char>>::empty());
    assert(value_entries_view(env@) =~= Seq::<(Seq<char>, Json)>::empty());
    let mut i: usize = 0;
    while i < s.env.len()
        invariant
            i <= s.env@.len(),
            ev == views(s.env@),
            value_entries_view(env@) == env_entries(ev.take(i as int)),
        decreases s.env.len() - i,
    {
        let ghost t = ev.take(i + 1);
        assert(t.drop_last() =~= ev.take(i as int));
        assert(t.last() == s.env@[i as int]@);
        if let Some((k, v)) = split_once_char(s.env[i].as_str(), '=') {
            proof {
                let e = s.env@[i as int]@;
                let j = choose|j: int| first_index_of(e, '=', j) && k@ == e.take(j) && v@ == e.skip(j + 1);
                let q = choose|q: int| first_index_of(e, '=', q);
                lemma_first_index_unique(e, '=', q, j);
            }
            push_entry(&mut env, k.as_str(), string(v.as_str()));
        }
        i += 1;
    }
    assert(ev.take(s.env.len() as int) =~= ev);
    let env_value = entries_object(env, Ghost(env_entries(ev)));
    let mut ports: Vec<JsonValue> = Vec::new();
    let n = s.ports.len();
    let mut k: usize = 0;
    while k < n
        invariant
            k <= n,
            n == s.ports.keys().len(),
            s.ports.keys().len() == s.ports.values().len(),
            ports@.len() == k,
            forall|j: int| 0 <= j < k ==> #[trigger] ports@[j]@ == jstr(port_text(s.ports.keys()[j], s.ports.values()[j]@)),
        decreases n - k,
    {
        let host = s.ports.key_at(k);
        let container = s.ports.value_at(k);
        let text = if host.as_str().unicode_len() == 0 {
            container.clone()
        } else {
            cat3(host.as_str(), ":", container.as_str())
        };
        ports.push(string(text.as_str()));
        k += 1;
    }
    proof {
        lemma_value_items_view(ports@);
        assert(value_items_view(ports@) =~= Seq::new(s.ports.keys().len(), |i: int| jstr(port_text(s.ports.keys()[i], s.ports.values()[i]@))));
    }
    let ports_value = JsonValue::Array(ports);
    let volumes: Vec<JsonValue> = Vec::new();
    assert(value_items_view(volumes@) =~= Seq::<Json>::empty());
    let mut e: Vec<(String, JsonValue)> = Vec::new();
    assert(value_entries_view(e@) =~= Seq::<(Seq<char>, Json)>::empty());
    push_entry(&mut e, "id", string(s.id.as_str()));
    push_entry(&mut e, "image", string(s.image.as_str()));
    push_entry(&mut e, "env", env_value);
    push_entry(&mut e, "ports", ports_value);
    push_entry(&mut e, "volumes", JsonValue::Array(volumes));
    push_entry(&mut e, "options", opt_string_value(&s.options));
    let ghost want = seq![
        ("id"@, jstr(s.id@)),
        ("image"@, jstr(s.image@)),
        ("env"@, Json::Object(env_entries(views(s.env@)))),
        ("ports"@, Json::Array(Seq::new(s.ports.keys().len(), |i: int| jstr(port_text(s.ports.keys()[i], s.ports.values()[i]@))))),
        ("volumes"@, Json::Array(Seq::empty())),
        ("options"@, opt_json(s.options)),
    ];
    assert(value_entries_view(e@) =~= want);
    entries_object(e, Ghost(want))
}

impl DtuJobStep {
    /// The step as the DTU server receives it.
    pub fn to_payload(&self) -> (r: JsonValue)
        requires
            step_wf(*self),
        ensures
            r@ == step_payload(*self),
    {
        let mut e: Vec<(String, JsonValue)> = Vec::new();
        assert(value_entries_view(e@) =~= Seq::<(Seq<char>, Json)>::empty());
        push_entry(&mut e, "name", string(self.name.as_str()));
        let ghost e0 = value_entries_view(e@);
        if let Some(c) = &self.context_name {
            push_entry(&mut e, "ContextName", string(c.as_str()));
        }
        let ghost e1 = value_entries_view(e@);
        if let Some(run) = &self.run {
            let shell = match &self.shell {
                Some(sh) => Some(sh.as_str()),
                None => None,
            };
            let script = apply_shell_override(run.as_str(), shell);
            let mut inputs: Vec<(String, JsonValue)> = Vec::new();
            assert(value_entries_view(inputs@) =~= Seq::<(Seq<char>, Json)>::empty());
            push_entry(&mut inputs, "script", string(script.as_str()));
            if let Some(w) = &self.working_directory {
                push_entry(&mut inputs, "workingDirectory", string(w.as_str()));
            }
            let inputs_value = JsonValue::Object(inputs);
            assert(inputs_value@ == script_inputs(*self, run@));
            push_entry(&mut e, "run", string(run.as_str()));
            push_entry(&mut e, "Inputs", inputs_value);
        }
        let ghost e2 = value_entries_view(e@);
        if let Some(u) = &self.uses {
            push_entry(&mut e, "uses", string(u.as_str()));
        }
        if let Some(c) = &self.condition {
            let normalized = normalize_step_condition(c.as_str());
            push_entry(&mut e, "condition", string(normalized.as_str()));
        }
        if !self.env.is_empty() {
            push_entry(&mut e, "Env", strings_object_of(&self.env));
        }
        if self.run.is_none() && !self.with.is_empty() {
            push_entry(&mut e, "Inputs", strings_object_of(&self.with));
        }
        JsonValue::Object(e)
    }
}

fn needs_payload_of(m: &StrMap<NeedContext>) -> (r: JsonValue)
    requires
        m.wf(),
        forall|i: int| 0 <= i < m.keys().len() ==> (#[trigger] m.values()[i]).outputs.wf(),
    ensures
        r@ == needs_payload(*m),
{
    let mut e: Vec<(String, JsonValue)> = Vec::new();
    let n = m.len();
    let mut i: usize = 0;
    while i < n
        invariant
            i <= n,
            n == m.keys().len(),
            m.keys().len() == m.values().len(),
            forall|j: int| 0 <= j < m.keys().len() ==> (#[trigger] m.values()[j]).outputs.wf(),
            e@.len() == i,
            forall|j: int| 0 <= j < i ==> (#[trigger] e@[j]).0@ == m.keys()[j] && e@[j].1@ == need_payload(m.values()[j]),
        decreases n - i,
    {
        let k = m.key_at(i);
        let v = m.value_at(i);
        let mut inner: Vec<(String, JsonValue)> = Vec::new();
        assert(value_entries_view(inner@) =~= Seq::<(Seq<char>, Json)>::empty());
        push_entry(&mut inner, "result", string(v.result.as_str()));
        push_entry(&mut inner, "outputs", strings_object_of(&v.outputs));
        assert(value_entries_view(inner@) =~= seq![("result"@, jstr(v.result@)), ("outputs"@, strings_object(text_map(v.outputs)))]);
        let obj = JsonValue::Object(inner);
        assert(obj@ == need_payload(m.values()[i as int]));
        e.push((k.clone(), obj));
        i += 1;
    }
    proof {
        lemma_value_entries_view(e@);
        assert(value_entries_view(e@) =~= Seq::new(m.keys().len(), |i: int| (m.keys()[i], need_payload(m.values()[i]))));
    }
    JsonValue::Object(e)
}

fn repository_payload_of(repo: &str) -> (r: JsonValue)
    ensures
        r@ == repository_payload(repo@),
{
    let parts = split_on_char(repo, '/');
    proof { crate::text::lemma_split_char_nonempty(repo@, '/'); }
    assert(views(parts@).len() > 0);
    assert(views(parts@).last() == parts@[parts@.len() - 1]@);
    assert(views(parts@)[0] == parts@[0]@);
    let mut owner: Vec<(String, JsonValue)> = Vec::new();
    assert(value_entries_view(owner@) =~= Seq::<(Seq<char>, Json)>::empty());
    push_entry(&mut owner, "login", string(parts[0].as_str()));
    assert(value_entries_view(owner@) =~= seq![("login"@, jstr(split_char(repo@, '/')[0]))]);
    let mut e: Vec<(String, JsonValue)> = Vec::new();
    assert(value_entries_view(e@) =~= Seq::<(Seq<char>, Json)>::empty());
    push_entry(&mut e, "full_name", string(repo));
    push_entry(&mut e, "name", string(parts[parts.len() - 1].as_str()));
    push_entry(&mut e, "owner", JsonValue::Object(owner));
    push_entry(&mut e, "default_branch", string("main"));
    assert(value_entries_view(e@) =~= seq![
        ("full_name"@, jstr(repo@)),
        ("name"@, jstr(split_char(repo@, '/').last())),
        ("owner"@, Json::Object(seq![("login"@, jstr(split_char(repo@, '/')[0]))])),
        ("default_branch"@, jstr("main"@)),
    ]);
    JsonValue::Object(e)
}

impl DtuJobSeed {
    /// The seeded job as the DTU server receives it.
    pub fn to_payload(&self) -> (r: JsonValue)
        requires
            seed_wf(*self),
        ensures
            r@ == seed_payload(*self),
    {
        let mut services: Vec<JsonValue> = Vec::new();
        let mut i: usize = 0;
        while i < self.services.len()
            invariant
                i <= self.services@.len(),
                seed_wf(*self),
                services@.len() == i,
                forall|j: int| 0 <= j < i ==> #[trigger] services@[j]@ == service_payload(self.services@[j]),
            decreases self.services.len() - i,
        {
            services.push(service_payload_of(&self.services[i]));
            i += 1;
        }
        proof {
            lemma_value_items_view(services@);
            assert(value_items_view(services@) =~= self.services@.map_values(|x: ServiceSpec| service_payload(x)));
        }
        let mut steps: Vec<JsonValue> = Vec::new();
        let mut k: usize = 0;
        while k < self.steps.len()
            invariant
                k <= self.steps@.len(),
                seed_wf(*self),
                steps@.len() == k,
                forall|j: int| 0 <= j < k ==> #[trigger] steps@[j]@ == step_payload(self.steps@[j]),
            decreases self.steps.len() - k,
        {
            assert(step_wf(self.steps@[k as int]));
            steps.push(self.steps[k].to_payload());
            k += 1;
        }
        proof {
            lemma_value_items_view(steps@);
            assert(value_items_view(steps@) =~= self.steps@.map_values(|x: DtuJobStep| step_payload(x)));
        }
        let container = match &self.container {
            Some(c) => container_payload_of(c),
            None => JsonValue::Null,
        };
        let matrix = match &self.matrix_context {
            Some(m) => strings_object_of(m),
            None => {
                let empty: Vec<(String, JsonValue)> = Vec::new();
                assert(value_entries_view(empty@) =~= Seq::<(Seq<char>, Json)>::empty());
                JsonValue::Object(empty)
            },
        };
        let mut e: Vec<(String, JsonValue)> = Vec::new();
        assert(value_entries_view(e@) =~= Seq::<(Seq<char>, Json)>::empty());
        push_entry(&mut e, "id", string(self.id.as_str()));
        push_entry(&mut e, "runnerName", string(self.runner_name.as_str()));
        push_entry(&mut e, "name", string(self.name.as_str()));
        push_entry(&mut e, "workflowName", string(self.workflow_name.as_str()));
        push_entry(&mut e, "repoRoot", string(self.repo_root.as_str()));
        push_entry(&mut e, "githubRepo", string(self.github_repo.as_str()));
        push_entry(&mut e, "headSha", string(self.head_sha.as_str()));
        push_entry(&mut e, "realHeadSha", string(self.real_head_sha.as_str()));
        push_entry(&mut e, "runnerWorkDir", opt_string_value(&self.runner_work_dir));
        push_entry(&mut e, "runnerOs", opt_string_value(&self.runner_os));
        push_entry(&mut e, "runnerArch", opt_string_value(&self.runner_arch));
        push_entry(&mut e, "env", strings_object_of(&self.env));
        push_entry(&mut e, "outputs", strings_object_of(&self.outputs));
        push_entry(&mut e, "needs", needs_payload_of(&self.needs_context));
        push_entry(&mut e, "container", container);
        push_entry(&mut e, "services", JsonValue::Array(services));
        push_entry(&mut e, "matrix", matrix);
        push_entry(&mut e, "repository", repository_payload_of(self.github_repo.as_str()));
        push_entry(&mut e, "steps", JsonValue::Array(steps));
        let ghost want = match seed_payload(*self) {
            Json::Object(es) => es,
            _ => Seq::empty(),
        };
        assert(value_entries_view(e@) =~= want);
        entries_object(e, Ghost(want))
    }
}

} // verus!
