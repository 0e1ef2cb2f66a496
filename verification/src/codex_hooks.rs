//! The hook groups Sprocket installs into `.codex/hooks.json`.
use vstd::prelude::*;

use crate::payload::{item_views, json_view, lemma_item_views, lemma_member_views, member_views, JsonValue, JsonView};
use crate::text::{push_str, replace_all, replace_str};

verus! {

/// The argument that marks a command line as Sprocket's own.
pub open spec fn spec_hook_marker() -> Seq<char> {
    "--sprocket-managed"@
}

/// The argument that marks a command line as Sprocket's own.
pub fn hook_marker() -> (m: &'static str)
    ensures
        m@ == spec_hook_marker(),
{
    "--sprocket-managed"
}

/// A path quoted for a POSIX shell: in single quotes, each single quote written as
/// `'"'"'`.
pub open spec fn spec_shell_quote(raw: Seq<char>) -> Seq<char> {
    "'"@ + replace_all(raw, "'"@, "'\"'\"'"@) + "'"@
}

/// Quotes a path (as displayed) for a shell command line.
pub fn shell_quote(raw: &str) -> (q: String)
    ensures
        q@ == spec_shell_quote(raw@),
{
    proof {
        reveal_strlit("'");
    }
    let replaced = replace_str(raw, "'", "'\"'\"'");
    let mut q = String::from_str("'");
    push_str(&mut q, replaced.as_str());
    push_str(&mut q, "'");
    q
}

/// The command line of a generated hook.
pub open spec fn hook_command(base: Seq<char>, command: Seq<char>) -> Seq<char> {
    base + " "@ + spec_hook_marker() + " hook codex "@ + command
}

/// The hook of a generated group: a command, with a timeout and status message for the
/// checkpoint hook.
pub open spec fn generated_hook_view(base: Seq<char>, command: Seq<char>) -> JsonView {
    let fields = seq![("type"@, JsonView::Str("command"@)), ("command"@, JsonView::Str(hook_command(base, command)))];
    if command == "checkpoint"@ {
        JsonView::Object(
            fields + seq![
                ("timeout"@, JsonView::Number("120"@)),
                ("statusMessage"@, JsonView::Str("Evaluating Sprocket checkpoint state..."@)),
            ],
        )
    } else {
        JsonView::Object(fields)
    }
}

/// A generated hook group: its one hook, and the tool matcher when there is one.
pub open spec fn generated_group_view(base: Seq<char>, command: Seq<char>, matcher: Option<Seq<char>>) -> JsonView {
    let hooks = seq![("hooks"@, JsonView::Array(seq![generated_hook_view(base, command)]))];
    match matcher {
        Some(m) => JsonView::Object(hooks + seq![("matcher"@, JsonView::Str(m))]),
        None => JsonView::Object(hooks),
    }
}

fn str_value(s: &str) -> (v: JsonValue)
    ensures
        json_view(v) == JsonView::Str(s@),
{
    JsonValue::Str(s.to_string())
}

fn member(key: &str, value: JsonValue) -> (m: (String, JsonValue))
    ensures
        m.0@ == key@,
        m.1 == value,
{
    (key.to_string(), value)
}

/// The hook group that runs `sprocket ... hook codex <command>` with the installed binary.
pub fn generated_group(command: &str, binary_path: &str, matcher: Option<&str>) -> (g: JsonValue)
    ensures
        json_view(g) == generated_group_view(
            spec_shell_quote(binary_path@),
            command@,
            crate::payload::opt_text_of(matcher),
        ),
{
    let base = shell_quote(binary_path);
    let mut line = base.clone();
    push_str(&mut line, " ");
    push_str(&mut line, hook_marker());
    push_str(&mut line, " hook codex ");
    push_str(&mut line, command);
    let mut fields: Vec<(String, JsonValue)> = Vec::new();
    fields.push(member("type", str_value("command")));
    fields.push(member("command", JsonValue::Str(line)));
    if crate::text::str_eq(command, "checkpoint") {
        fields.push(member("timeout", JsonValue::Number(String::from_str("120"))));
        fields.push(member("statusMessage", str_value("Evaluating Sprocket checkpoint state...")));
    }
    let ghost fields_seq = fields@;
    let ghost q = spec_shell_quote(binary_path@);
    assert(line@ == hook_command(q, command@));
    let hook = JsonValue::Object(fields);
    proof {
        lemma_member_views(fields_seq);
        let base_fields = seq![("type"@, JsonView::Str("command"@)), ("command"@, JsonView::Str(hook_command(q, command@)))];
        if command@ == "checkpoint"@ {
            assert(member_views(fields_seq) =~= base_fields + seq![
                ("timeout"@, JsonView::Number("120"@)),
                ("statusMessage"@, JsonView::Str("Evaluating Sprocket checkpoint state..."@)),
            ]);
        } else {
            assert(member_views(fields_seq) =~= base_fields);
        }
    }
    assert(json_view(hook) == generated_hook_view(q, command@));
    let mut hooks: Vec<JsonValue> = Vec::new();
    hooks.push(hook);
    let ghost hooks_seq = hooks@;
    let mut group: Vec<(String, JsonValue)> = Vec::new();
    group.push(member("hooks", JsonValue::Array(hooks)));
    match matcher {
        Some(m) => group.push(member("matcher", str_value(m))),
        None => {},
    }
    let ghost group_seq = group@;
    proof {
        lemma_item_views(hooks_seq);
        lemma_member_views(group_seq);
        assert(item_views(hooks_seq) =~= seq![json_view(hook)]);
    }
    let g = JsonValue::Object(group);
    proof {
        let hooks_member = seq![("hooks"@, JsonView::Array(seq![generated_hook_view(q, command@)]))];
        match matcher {
            Some(m) => {
                assert(member_views(group_seq) =~= hooks_member + seq![("matcher"@, JsonView::Str(m@))]);
            },
            None => {
                assert(member_views(group_seq) =~= hooks_member);
            },
        }
    }
    g
}

/// The events Sprocket hooks into, each with its group: session start, prompt submission
/// (the turn baseline), shell tool use (the guard) and stop (the checkpoint).
pub open spec fn codex_groups_view(base: Seq<char>) -> Seq<(Seq<char>, JsonView)> {
    seq![
        ("SessionStart"@, generated_group_view(base, "session-start"@, None)),
        ("UserPromptSubmit"@, generated_group_view(base, "baseline"@, None)),
        ("PreToolUse"@, generated_group_view(base, "pre-tool-use"@, Some("Bash"@))),
        ("Stop"@, generated_group_view(base, "checkpoint"@, None)),
    ]
}

/// The hook groups to merge into `.codex/hooks.json` for the installed binary.
pub fn codex_hook_groups(binary_path: &str) -> (groups: Vec<(String, JsonValue)>)
    ensures
        member_views(groups@) == codex_groups_view(spec_shell_quote(binary_path@)),
{
    let mut groups: Vec<(String, JsonValue)> = Vec::new();
    groups.push(member("SessionStart", generated_group("session-start", binary_path, None)));
    groups.push(member("UserPromptSubmit", generated_group("baseline", binary_path, None)));
    groups.push(member("PreToolUse", generated_group("pre-tool-use", binary_path, Some("Bash"))));
    groups.push(member("Stop", generated_group("checkpoint", binary_path, None)));
    proof {
        lemma_member_views(groups@);
    }
    assert(member_views(groups@) =~= codex_groups_view(spec_shell_quote(binary_path@)));
    groups
}


/// The generated command line of a hook carries the marker.
proof fn lemma_hook_command_marked(base: Seq<char>, command: Seq<char>)
    ensures
        crate::text::contains_sub(hook_command(base, command), spec_hook_marker()),
{
    reveal_strlit(" ");
    let c = hook_command(base, command);
    let i: int = base.len() as int + 1;
    assert(c.subrange(i, i + spec_hook_marker().len() as int) =~= spec_hook_marker());
    assert(crate::text::occurs_at(c, spec_hook_marker(), i));
}

/// A generated group carries the marker.
proof fn lemma_generated_group_marked(base: Seq<char>, command: Seq<char>, matcher: Option<Seq<char>>)
    ensures
        crate::payload::view_group_has_marker(generated_group_view(base, command, matcher), spec_hook_marker()),
{
    reveal_strlit("type");
    reveal_strlit("command");
    reveal_strlit("hooks");
    let hook = generated_hook_view(base, command);
    lemma_hook_command_marked(base, command);
    let hc = JsonView::Str(hook_command(base, command));
    let es = match hook {
        JsonView::Object(es) => es,
        _ => Seq::empty(),
    };
    assert("type"@.len() != "command"@.len());
    assert(es[0].0 == "type"@);
    assert(es.drop_first()[0] == ("command"@, hc));
    assert(crate::payload::view_lookup(es.drop_first(), "command"@) == Some(hc));
    assert(crate::payload::view_lookup(es, "command"@) == Some(hc));
    assert(crate::payload::view_member(hook, "command"@) == Some(hc));
    assert(crate::payload::hook_has_marker(hook, spec_hook_marker()));
    assert(seq![hook][0] == hook);
    assert(crate::payload::hooks_have_marker(seq![hook], spec_hook_marker()));
}

/// Installing twice is installing once: merging the installer's hook groups into a hooks
/// file they were already merged into leaves it as it is.
pub proof fn law_install_is_idempotent(existing: Option<JsonView>, base: Seq<char>)
    requires
        crate::payload::spec_merge_hooks(existing, codex_groups_view(base), spec_hook_marker()) is Ok,
    ensures
        crate::payload::spec_merge_hooks(
            Some(crate::payload::spec_merge_hooks(existing, codex_groups_view(base), spec_hook_marker())->Ok_0),
            codex_groups_view(base),
            spec_hook_marker(),
        ) == crate::payload::spec_merge_hooks(existing, codex_groups_view(base), spec_hook_marker()),
{
    reveal_strlit("SessionStart");
    reveal_strlit("UserPromptSubmit");
    reveal_strlit("PreToolUse");
    reveal_strlit("Stop");
    let g = codex_groups_view(base);
    lemma_generated_group_marked(base, "session-start"@, None);
    lemma_generated_group_marked(base, "baseline"@, None);
    lemma_generated_group_marked(base, "pre-tool-use"@, Some("Bash"@));
    lemma_generated_group_marked(base, "checkpoint"@, None);
    assert(g[0].0.len() == 12 && g[1].0.len() == 16 && g[2].0.len() == 10 && g[3].0.len() == 4);
    assert forall|i: int, j: int| 0 <= i < j < g.len() implies (#[trigger] g[i]).0 != (#[trigger] g[j]).0 by {
        assert(g[i].0.len() != g[j].0.len());
    }
    assert(g[0].1 == generated_group_view(base, "session-start"@, None));
    assert(g[1].1 == generated_group_view(base, "baseline"@, None));
    assert(g[2].1 == generated_group_view(base, "pre-tool-use"@, Some("Bash"@)));
    assert(g[3].1 == generated_group_view(base, "checkpoint"@, None));
    assert forall|i: int| 0 <= i < g.len() implies crate::payload::view_group_has_marker((#[trigger] g[i]).1, spec_hook_marker()) by {
        if i == 0 {
        } else if i == 1 {
        } else if i == 2 {
        } else {
        }
    }
    assert(crate::payload::generated_groups_ok(g, spec_hook_marker()));
    crate::payload::law_merge_hooks_idempotent(existing, g, spec_hook_marker());
}

} // verus!
