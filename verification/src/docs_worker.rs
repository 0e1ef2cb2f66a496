//! The documentation worker: the prompt it is given, the `codex exec` command line it runs
//! with, and how its run is reported.
use vstd::prelude::*;

use crate::config::{is_blank, is_blank_str, DocsConfig};
use crate::gitparse::{decode_lossy, trim_white, trim_white_chars, utf8_lossy};
use crate::guard::string_views;
use crate::text::{chars_of, push_str, string_of};

verus! {

/// The instructions the worker gets when the configuration gives none.
pub open spec fn default_docs_instructions() -> Seq<char> {
    "You are Sprocket's milestone documentation worker.\n\nTreat this as a pre-commit docs maintenance pass.\n\nRules:\n- You may edit only the managed docs outputs listed below.\n- Keep docs grounded in code that actually exists in the repository.\n- Recreate missing managed docs only when the config says that is allowed.\n- Update only stale or missing sections.\n- No-op cleanly when the docs are already current.\n- Do not touch code, tests, /.sprocket/state/, /.codex/hooks.json, or unrelated docs.\n"@
}

/// The project docs rules installed into `.sprocket/rules/project.md`.
pub open spec fn project_rules_text() -> Seq<char> {
    "# Project Docs Rules\n\n`docs/project/llms/llms.txt` is the agent-first navigation index.\n\nKeep it:\n- short\n- descriptive\n- navigation-oriented\n- grounded in the real repo layout\n\nIt should help an agent quickly answer:\n- what this project is\n- where the main systems live\n- which docs are the best starting points\n"@
}

/// The architecture docs rules installed into `.sprocket/rules/architecture.md`.
pub open spec fn architecture_rules_text() -> Seq<char> {
    "# Architecture Docs Rules\n\n`docs/ARCHITECTURE.md` should explain the real runtime shape of the repository.\n\nKeep it:\n- specific to code that exists now\n- organized around major systems and flows\n- clear about generated or managed repo surfaces\n- free of aspirational architecture that is not implemented\n"@
}

/// The project docs rules.
pub fn project_rules() -> (s: &'static str)
    ensures
        s@ == project_rules_text(),
{
    "# Project Docs Rules\n\n`docs/project/llms/llms.txt` is the agent-first navigation index.\n\nKeep it:\n- short\n- descriptive\n- navigation-oriented\n- grounded in the real repo layout\n\nIt should help an agent quickly answer:\n- what this project is\n- where the main systems live\n- which docs are the best starting points\n"
}

/// The architecture docs rules.
pub fn architecture_rules() -> (s: &'static str)
    ensures
        s@ == architecture_rules_text(),
{
    "# Architecture Docs Rules\n\n`docs/ARCHITECTURE.md` should explain the real runtime shape of the repository.\n\nKeep it:\n- specific to code that exists now\n- organized around major systems and flows\n- clear about generated or managed repo surfaces\n- free of aspirational architecture that is not implemented\n"
}

/// The worker's instructions: the configured ones, or the default ones when those are blank.
pub fn docs_instructions(configured: &str) -> (s: String)
    ensures
        s@ == (if is_blank(configured@) {
            default_docs_instructions()
        } else {
            configured@
        }),
{
    if is_blank_str(configured) {
        String::from_str(
            "You are Sprocket's milestone documentation worker.\n\nTreat this as a pre-commit docs maintenance pass.\n\nRules:\n- You may edit only the managed docs outputs listed below.\n- Keep docs grounded in code that actually exists in the repository.\n- Recreate missing managed docs only when the config says that is allowed.\n- Update only stale or missing sections.\n- No-op cleanly when the docs are already current.\n- Do not touch code, tests, /.sprocket/state/, /.codex/hooks.json, or unrelated docs.\n",
        )
    } else {
        configured.to_string()
    }
}

/// Texts joined with a separator between them.
pub open spec fn joined(items: Seq<Seq<char>>, sep: Seq<char>) -> Seq<char>
    decreases items.len(),
{
    if items.len() == 0 {
        Seq::empty()
    } else if items.len() == 1 {
        items[0]
    } else {
        joined(items.drop_last(), sep) + sep + items.last()
    }
}

fn join_strings(items: &Vec<String>, sep: &str) -> (r: String)
    ensures
        r@ == joined(string_views(items@), sep@),
{
    let mut r = String::new();
    let mut i: usize = 0;
    while i < items.len()
        invariant
            i <= items@.len(),
            r@ == joined(string_views(items@.take(i as int)), sep@),
        decreases items.len() - i,
    {
        let ghost before = r@;
        if i > 0 {
            push_str(&mut r, sep);
        }
        push_str(&mut r, items[i].as_str());
        proof {
            let t = string_views(items@.take(i + 1));
            assert(items@.take(i + 1).drop_last() =~= items@.take(i as int));
            assert(t.drop_last() =~= string_views(items@.take(i as int)));
            assert(t.last() == items@[i as int]@);
            if i == 0 {
                assert(t.len() == 1);
                assert(before =~= Seq::<char>::empty());
            }
        }
        i = i + 1;
    }
    assert(items@.take(items@.len() as int) =~= items@);
    r
}

/// The worker's prompt: instructions, the managed outputs as a list, both rule texts and
/// the summary of the change.
pub open spec fn spec_docs_prompt(
    instructions: Seq<char>,
    managed_outputs: Seq<Seq<char>>,
    project_rules: Seq<char>,
    architecture_rules: Seq<char>,
    summary: Seq<char>,
) -> Seq<char> {
    instructions + "\n\nManaged docs outputs:\n- "@ + joined(managed_outputs, "\n- "@)
        + "\n\nProject rules:\n"@ + project_rules + "\n\nArchitecture rules:\n"@ + architecture_rules
        + "\n\nChanged repo state summary:\n"@ + summary + "\n"@
}

/// Builds the worker's prompt (the summary is the change summary as pretty JSON).
pub fn build_docs_prompt(
    instructions: &str,
    managed_outputs: &Vec<String>,
    project_rules: &str,
    architecture_rules: &str,
    summary: &str,
) -> (p: String)
    ensures
        p@ == spec_docs_prompt(
            instructions@,
            string_views(managed_outputs@),
            project_rules@,
            architecture_rules@,
            summary@,
        ),
{
    let mut p = instructions.to_string();
    push_str(&mut p, "\n\nManaged docs outputs:\n- ");
    let outputs = join_strings(managed_outputs, "\n- ");
    push_str(&mut p, outputs.as_str());
    push_str(&mut p, "\n\nProject rules:\n");
    push_str(&mut p, project_rules);
    push_str(&mut p, "\n\nArchitecture rules:\n");
    push_str(&mut p, architecture_rules);
    push_str(&mut p, "\n\nChanged repo state summary:\n");
    push_str(&mut p, summary);
    push_str(&mut p, "\n");
    p
}

/// The arguments of the worker's `codex exec` run.
pub open spec fn spec_worker_args(repo: Seq<char>, docs: DocsConfig, prompt: Seq<char>) -> Seq<Seq<char>> {
    seq![
        "exec"@,
        "--ephemeral"@,
        "--ask-for-approval"@,
        docs.approval@,
        "--sandbox"@,
        docs.sandbox@,
        "-m"@,
        docs.model@,
        "-c"@,
        "model_reasoning_effort=\""@ + docs.reasoning_effort@ + "\""@,
        "-C"@,
        repo,
    ] + (if docs.disable_codex_hooks {
        seq!["--disable"@, "codex_hooks"@]
    } else {
        Seq::empty()
    }) + seq![prompt]
}

/// The command line of the worker, after the program name.
pub fn docs_worker_args(repo: &str, docs: &DocsConfig, prompt: &str) -> (r: Vec<String>)
    ensures
        string_views(r@) == spec_worker_args(repo@, *docs, prompt@),
{
    let mut effort = String::from_str("model_reasoning_effort=\"");
    push_str(&mut effort, docs.reasoning_effort.as_str());
    push_str(&mut effort, "\"");
    let mut r: Vec<String> = Vec::new();
    r.push(String::from_str("exec"));
    r.push(String::from_str("--ephemeral"));
    r.push(String::from_str("--ask-for-approval"));
    r.push(docs.approval.clone());
    r.push(String::from_str("--sandbox"));
    r.push(docs.sandbox.clone());
    r.push(String::from_str("-m"));
    r.push(docs.model.clone());
    r.push(String::from_str("-c"));
    r.push(effort);
    r.push(String::from_str("-C"));
    r.push(repo.to_string());
    if docs.disable_codex_hooks {
        r.push(String::from_str("--disable"));
        r.push(String::from_str("codex_hooks"));
    }
    r.push(prompt.to_string());
    assert(string_views(r@) =~= spec_worker_args(repo@, *docs, prompt@));
    r
}

/// How a worker run is reported: a timeout is a failure; otherwise the trimmed output (or,
/// for a failure with no output, a fixed message) with the exit status.
pub open spec fn spec_worker_outcome(timed_out: bool, success: bool, stdout: Seq<u8>, stderr: Seq<u8>) -> (
    bool,
    Seq<char>,
) {
    if timed_out {
        (false, "docs worker timed out"@)
    } else {
        let combined = trim_white(utf8_lossy(stdout) + utf8_lossy(stderr));
        if success {
            (true, combined)
        } else if combined.len() == 0 {
            (false, "docs worker failed"@)
        } else {
            (false, combined)
        }
    }
}

/// Reports a worker run.
pub fn docs_worker_outcome(timed_out: bool, success: bool, stdout: &[u8], stderr: &[u8]) -> (r: (
    bool,
    String,
))
    ensures
        (r.0, r.1@) == spec_worker_outcome(timed_out, success, stdout@, stderr@),
{
    if timed_out {
        return (false, String::from_str("docs worker timed out"));
    }
    let mut text = decode_lossy(stdout);
    let err = decode_lossy(stderr);
    push_str(&mut text, err.as_str());
    let chars = chars_of(text.as_str());
    let trimmed = trim_white_chars(chars.as_slice());
    let combined = string_of(trimmed.as_slice());
    if success {
        (true, combined)
    } else if trimmed.len() == 0 {
        (false, String::from_str("docs worker failed"))
    } else {
        (false, combined)
    }
}

} // verus!
