use crate::runner::types::DtuJobStep;
use crate::text::{
    cat, decimal, is_prefix, is_suffix, owned, replace_all, replace_str, strip_prefix,
    strip_suffix, str_eq, trim, trim_str, usize_to_string,
};
use vstd::prelude::*;

verus! {

/// The heredoc delimiter used when a step's shell is not bash.
pub const SHELL_WRAP_DELIMITER: &'static str = "__LOCAL_CI_SHELL_WRAP_EOF__";

/// The interpreter invocation for a step shell other than bash, if it is one we wrap.
pub open spec fn shell_invocation(shell: Seq<char>) -> Option<Seq<char>> {
    if shell == "sh"@ {
        Some("sh -e"@)
    } else if shell == "python"@ {
        Some("python3"@)
    } else if shell == "pwsh"@ {
        Some("pwsh -NoLogo -NoProfile -NonInteractive -Command -"@)
    } else {
        None
    }
}

/// The script, fed to its shell through a heredoc when the step names `sh`, `python` or `pwsh`.
pub open spec fn shell_override_spec(script: Seq<char>, shell: Option<Seq<char>>) -> Seq<char> {
    match shell {
        Some(s) => match shell_invocation(trim(s)) {
            Some(inv) => inv + " <<'"@ + SHELL_WRAP_DELIMITER@ + "'\n"@ + script + "\n"@ + SHELL_WRAP_DELIMITER@,
            None => script,
        },
        None => script,
    }
}

/// Wraps a script for a non-bash step shell.
pub fn apply_shell_override(script: &str, shell: Option<&str>) -> (r: String)
    ensures
        r@ == shell_override_spec(script@, match shell {
            Some(s) => Some(s@),
            None => None,
        }),
{
    let shell = match shell {
        Some(s) => trim_str(s),
        None => {
            return owned(script);
        },
    };
    let invocation: &str = if str_eq(shell.as_str(), "sh") {
        "sh -e"
    } else if str_eq(shell.as_str(), "python") {
        "python3"
    } else if str_eq(shell.as_str(), "pwsh") {
        "pwsh -NoLogo -NoProfile -NonInteractive -Command -"
    } else {
        return owned(script);
    };
    let mut r = owned(invocation);
    r.append(" <<'");
    r.append(SHELL_WRAP_DELIMITER);
    r.append("'\n");
    r.append(script);
    r.append("\n");
    r.append(SHELL_WRAP_DELIMITER);
    r
}

/// A step condition without surrounding whitespace and without an enclosing `${{ }}`.
pub open spec fn normalized_condition(condition: Seq<char>) -> Seq<char> {
    let t = trim(condition);
    if is_prefix("${{"@, t) && is_suffix("}}"@, t.skip(3)) {
        trim(t.skip(3).take(t.skip(3).len() - 2))
    } else {
        t
    }
}

/// Removes `${{ }}` around a step condition.
pub fn normalize_step_condition(condition: &str) -> (r: String)
    ensures
        r@ == normalized_condition(condition@),
{
    let t = trim_str(condition);
    proof {
        reveal_strlit("${{");
        reveal_strlit("}}");
    }
    if let Some(rest) = strip_prefix(t.as_str(), "${{") {
        if let Some(inner) = strip_suffix(rest.as_str(), "}}") {
            return trim_str(inner.as_str());
        }
    }
    t
}

/// The retry-on-failure wrapper around one step's script.
pub open spec fn pause_wrapper_spec(script: Seq<char>, step_name: Seq<char>, step_index: nat) -> Seq<char> {
    "__SIGNALS=\"/tmp/local-ci-signals\"\nmkdir -p \"$__SIGNALS\"\n__STEP_INDEX="@ + decimal(step_index) + "\n__WORKDIR=\"${PWD:-}\"\n# ── from-step skip logic ──\nif [ -f \"$__SIGNALS/from-step\" ]; then\n  __FROM_STEP=$(cat \"$__SIGNALS/from-step\")\n  if [ \"$__FROM_STEP\" != '*' ] && [ \"$__STEP_INDEX\" -lt \"$__FROM_STEP\" ] 2>/dev/null; then\n    echo \"Skipping step $__STEP_INDEX (rewind target: step $__FROM_STEP)\"\n    exit 0\n  fi\n  rm -f \"$__SIGNALS/from-step\"\n  echo \"Resuming from step $__STEP_INDEX.\"\nfi\n__ATTEMPT=0\nwhile true; do\n  __ATTEMPT=$((__ATTEMPT + 1))\n  if [ -n \"$__WORKDIR\" ]; then cd / && cd \"$__WORKDIR\"; fi\n  set +e\n  (\n"@ + script + "\n  ) > \"$__SIGNALS/step-output\" 2>&1\n  __EC=$?\n  cat \"$__SIGNALS/step-output\"\n  set -e\n  if [ $__EC -eq 0 ]; then exit 0; fi\n  printf '%s\\n%s\\n%s' '"@ + replace_all(step_name, seq!['\''], "'\\''"@) + "' \"$__ATTEMPT\" \"$__STEP_INDEX\" > \"$__SIGNALS/paused\"\n  echo \"::error::Step failed (exit $__EC). Paused — waiting for retry signal.\"\n  while [ ! -f \"$__SIGNALS/retry\" ] && [ ! -f \"$__SIGNALS/abort\" ]; do sleep 1; done\n  if [ -f \"$__SIGNALS/abort\" ]; then rm -f \"$__SIGNALS/abort\" \"$__SIGNALS/paused\"; exit $__EC; fi\n  if [ -f \"$__SIGNALS/from-step\" ]; then\n    __FROM_STEP=$(cat \"$__SIGNALS/from-step\")\n    if [ \"$__FROM_STEP\" = '*' ]; then\n      touch \"$__SIGNALS/restart\"\n      rm -f \"$__SIGNALS/retry\" \"$__SIGNALS/paused\"\n      exit 86\n    fi\n    if [ \"$__FROM_STEP\" -lt \"$__STEP_INDEX\" ] 2>/dev/null; then\n      touch \"$__SIGNALS/restart\"\n      rm -f \"$__SIGNALS/retry\" \"$__SIGNALS/paused\"\n      exit 86\n    fi\n    if [ \"$__FROM_STEP\" -gt \"$__STEP_INDEX\" ] 2>/dev/null; then\n      rm -f \"$__SIGNALS/retry\" \"$__SIGNALS/paused\"\n      exit 0\n    fi\n    rm -f \"$__SIGNALS/from-step\"\n  fi\n  rm -f \"$__SIGNALS/retry\" \"$__SIGNALS/paused\"\n  echo \"Retrying step...\"\ndone"@
}

/// Wraps a step script so that a failure pauses the job until a retry, abort or rewind signal.
pub fn wrap_pause_on_failure_script(script: &str, step_name: &str, step_index: usize) -> (r: String)
    ensures
        r@ == pause_wrapper_spec(script@, step_name@, step_index as nat),
{
    proof {
        reveal_strlit("'");
    }
    assert("'"@ =~= seq!['\'']);
    let safe_name = replace_str(step_name, "'", "'\\''");
    let index = usize_to_string(step_index);
    let mut r = owned("__SIGNALS=\"/tmp/local-ci-signals\"\nmkdir -p \"$__SIGNALS\"\n__STEP_INDEX=");
    r.append(index.as_str());
    r.append("\n__WORKDIR=\"${PWD:-}\"\n# ── from-step skip logic ──\nif [ -f \"$__SIGNALS/from-step\" ]; then\n  __FROM_STEP=$(cat \"$__SIGNALS/from-step\")\n  if [ \"$__FROM_STEP\" != '*' ] && [ \"$__STEP_INDEX\" -lt \"$__FROM_STEP\" ] 2>/dev/null; then\n    echo \"Skipping step $__STEP_INDEX (rewind target: step $__FROM_STEP)\"\n    exit 0\n  fi\n  rm -f \"$__SIGNALS/from-step\"\n  echo \"Resuming from step $__STEP_INDEX.\"\nfi\n__ATTEMPT=0\nwhile true; do\n  __ATTEMPT=$((__ATTEMPT + 1))\n  if [ -n \"$__WORKDIR\" ]; then cd / && cd \"$__WORKDIR\"; fi\n  set +e\n  (\n");
    r.append(script);
    r.append("\n  ) > \"$__SIGNALS/step-output\" 2>&1\n  __EC=$?\n  cat \"$__SIGNALS/step-output\"\n  set -e\n  if [ $__EC -eq 0 ]; then exit 0; fi\n  printf '%s\\n%s\\n%s' '");
    r.append(safe_name.as_str());
    r.append("' \"$__ATTEMPT\" \"$__STEP_INDEX\" > \"$__SIGNALS/paused\"\n  echo \"::error::Step failed (exit $__EC). Paused — waiting for retry signal.\"\n  while [ ! -f \"$__SIGNALS/retry\" ] && [ ! -f \"$__SIGNALS/abort\" ]; do sleep 1; done\n  if [ -f \"$__SIGNALS/abort\" ]; then rm -f \"$__SIGNALS/abort\" \"$__SIGNALS/paused\"; exit $__EC; fi\n  if [ -f \"$__SIGNALS/from-step\" ]; then\n    __FROM_STEP=$(cat \"$__SIGNALS/from-step\")\n    if [ \"$__FROM_STEP\" = '*' ]; then\n      touch \"$__SIGNALS/restart\"\n      rm -f \"$__SIGNALS/retry\" \"$__SIGNALS/paused\"\n      exit 86\n    fi\n    if [ \"$__FROM_STEP\" -lt \"$__STEP_INDEX\" ] 2>/dev/null; then\n      touch \"$__SIGNALS/restart\"\n      rm -f \"$__SIGNALS/retry\" \"$__SIGNALS/paused\"\n      exit 86\n    fi\n    if [ \"$__FROM_STEP\" -gt \"$__STEP_INDEX\" ] 2>/dev/null; then\n      rm -f \"$__SIGNALS/retry\" \"$__SIGNALS/paused\"\n      exit 0\n    fi\n    rm -f \"$__SIGNALS/from-step\"\n  fi\n  rm -f \"$__SIGNALS/retry\" \"$__SIGNALS/paused\"\n  echo \"Retrying step...\"\ndone");
    r
}

/// Wraps every script step for pause-on-failure, applying any shell override first and
/// clearing the step's shell; steps without a script are unchanged.
pub fn wrap_pause_on_failure_steps(steps: &mut Vec<DtuJobStep>)
    ensures
        final(steps)@.len() == old(steps)@.len(),
        forall|i: int|
            0 <= i < old(steps)@.len() ==> {
                let o = #[trigger] old(steps)@[i];
                let n = final(steps)@[i];
                match o.run {
                    Some(script) => {
                        &&& n.run matches Some(w) && w@ == pause_wrapper_spec(
                            shell_override_spec(script@, match o.shell {
                                Some(s) => Some(s@),
                                None => None,
                            }),
                            o.name@,
                            (i + 1) as nat,
                        )
                        &&& n.shell is None
                        &&& n.name == o.name
                        &&& n.context_name == o.context_name
                        &&& n.uses == o.uses
                        &&& n.condition == o.condition
                        &&& n.working_directory == o.working_directory
                        &&& n.env == o.env
                        &&& n.with == o.with
                    },
                    None => n == o,
                }
            },
{
    let ghost old_steps = steps@;
    let mut i: usize = 0;
    while i < steps.len()
        invariant
            i <= steps@.len(),
            steps@.len() == old_steps.len(),
            forall|j: int| i <= j < steps@.len() ==> steps@[j] == old_steps[j],
            forall|j: int|
                0 <= j < i ==> {
                    let o = #[trigger] old_steps[j];
                    let n = steps@[j];
                    match o.run {
                        Some(script) => {
                            &&& n.run matches Some(w) && w@ == pause_wrapper_spec(
                                shell_override_spec(script@, match o.shell {
                                    Some(s) => Some(s@),
                                    None => None,
                                }),
                                o.name@,
                                (j + 1) as nat,
                            )
                            &&& n.shell is None
                            &&& n.name == o.name
                            &&& n.context_name == o.context_name
                            &&& n.uses == o.uses
                            &&& n.condition == o.condition
                            &&& n.working_directory == o.working_directory
                            &&& n.env == o.env
                            &&& n.with == o.with
                        },
                        None => n == o,
                    }
                },
        decreases steps@.len() - i,
    {
        let wrapped = match &steps[i].run {
            Some(script) => {
                let shell: Option<&str> = match &steps[i].shell {
                    Some(s) => Some(s.as_str()),
                    None => None,
                };
                let overridden = apply_shell_override(script.as_str(), shell);
                Some(wrap_pause_on_failure_script(overridden.as_str(), steps[i].name.as_str(), i + 1))
            },
            None => None,
        };
        if let Some(w) = wrapped {
            let mut step = steps.remove(i);
            step.run = Some(w);
            step.shell = None;
            steps.insert(i, step);
        }
        i += 1;
    }
}

} // verus!
