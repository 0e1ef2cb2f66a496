//! The command line: which command the arguments name, and the arguments of each command.
use vstd::prelude::*;

use crate::codex_hooks::hook_marker;
use crate::engine::session_commit::{spec_stable_session_id, stable_session_id};
use crate::guard::string_views;
use crate::text::{push_str, str_eq};

verus! {

/// What the command line asks for.
#[derive(Debug, Clone)]
pub enum CliCommand {
    /// Print the help.
    Help,
    /// Print the version.
    Version,
    /// `install`, with the arguments after it.
    Install(Vec<String>),
    /// `hook`, with the arguments after it.
    Hook(Vec<String>),
    /// `session`, with the arguments after it.
    Session(Vec<String>),
    /// A reserved command that does nothing yet.
    NotImplemented(String),
    /// An unknown command.
    Unknown(String),
}

/// A command line that cannot be run.
#[derive(Debug, Clone)]
pub enum CliError {
    UnknownCommand(String),
    InstallUsage,
    TargetRepoNeedsPath,
    UnknownInstallArgument(String),
    HookUsage,
    UnknownHook(String),
    SessionUsage,
    SessionIdNeedsValue,
    UnknownSessionArgument(String),
    SessionIdRequired,
    UnstableSessionId,
    UnknownSessionSubcommand(String),
}

/// A command-line error as a mathematical value.
pub enum CliErrorView {
    UnknownCommand(Seq<char>),
    InstallUsage,
    TargetRepoNeedsPath,
    UnknownInstallArgument(Seq<char>),
    HookUsage,
    UnknownHook(Seq<char>),
    SessionUsage,
    SessionIdNeedsValue,
    UnknownSessionArgument(Seq<char>),
    SessionIdRequired,
    UnstableSessionId,
    UnknownSessionSubcommand(Seq<char>),
}

impl View for CliError {
    type V = CliErrorView;

    open spec fn view(&self) -> CliErrorView {
        match self {
            CliError::UnknownCommand(s) => CliErrorView::UnknownCommand(s@),
            CliError::InstallUsage => CliErrorView::InstallUsage,
            CliError::TargetRepoNeedsPath => CliErrorView::TargetRepoNeedsPath,
            CliError::UnknownInstallArgument(s) => CliErrorView::UnknownInstallArgument(s@),
            CliError::HookUsage => CliErrorView::HookUsage,
            CliError::UnknownHook(s) => CliErrorView::UnknownHook(s@),
            CliError::SessionUsage => CliErrorView::SessionUsage,
            CliError::SessionIdNeedsValue => CliErrorView::SessionIdNeedsValue,
            CliError::UnknownSessionArgument(s) => CliErrorView::UnknownSessionArgument(s@),
            CliError::SessionIdRequired => CliErrorView::SessionIdRequired,
            CliError::UnstableSessionId => CliErrorView::UnstableSessionId,
            CliError::UnknownSessionSubcommand(s) => CliErrorView::UnknownSessionSubcommand(s@),
        }
    }
}

impl CliError {
    /// The error's message.
    pub fn message(&self) -> (m: String)
        ensures
            m@ == spec_error_message(self@),
    {
        match self {
            CliError::UnknownCommand(s) => {
                let mut m = String::from_str("unknown command: ");
                push_str(&mut m, s.as_str());
                m
            },
            CliError::InstallUsage => String::from_str(
                "usage: sprocket install codex [--target-repo <path>]",
            ),
            CliError::TargetRepoNeedsPath => String::from_str("--target-repo requires a path"),
            CliError::UnknownInstallArgument(s) => {
                let mut m = String::from_str("unknown install argument: ");
                push_str(&mut m, s.as_str());
                m
            },
            CliError::HookUsage => String::from_str(
                "usage: sprocket hook codex <session-start|baseline|pre-tool-use|checkpoint>",
            ),
            CliError::UnknownHook(s) => {
                let mut m = String::from_str("unknown codex hook subcommand: ");
                push_str(&mut m, s.as_str());
                m
            },
            CliError::SessionUsage => String::from_str(
                "usage: sprocket session <status|plan-commit|commit-now> --session-id <id> [--target-repo <path>]",
            ),
            CliError::SessionIdNeedsValue => String::from_str("--session-id requires a value"),
            CliError::UnknownSessionArgument(s) => {
                let mut m = String::from_str("unknown session argument: ");
                push_str(&mut m, s.as_str());
                m
            },
            CliError::SessionIdRequired => String::from_str("--session-id is required"),
            CliError::UnstableSessionId => String::from_str(
                "session attribution requires a stable session id",
            ),
            CliError::UnknownSessionSubcommand(s) => {
                let mut m = String::from_str("unknown session subcommand: ");
                push_str(&mut m, s.as_str());
                m
            },
        }
    }
}

/// The message of a command-line error.
pub open spec fn spec_error_message(e: CliErrorView) -> Seq<char> {
    match e {
        CliErrorView::UnknownCommand(s) => "unknown command: "@ + s,
        CliErrorView::InstallUsage => "usage: sprocket install codex [--target-repo <path>]"@,
        CliErrorView::TargetRepoNeedsPath => "--target-repo requires a path"@,
        CliErrorView::UnknownInstallArgument(s) => "unknown install argument: "@ + s,
        CliErrorView::HookUsage => "usage: sprocket hook codex <session-start|baseline|pre-tool-use|checkpoint>"@,
        CliErrorView::UnknownHook(s) => "unknown codex hook subcommand: "@ + s,
        CliErrorView::SessionUsage => "usage: sprocket session <status|plan-commit|commit-now> --session-id <id> [--target-repo <path>]"@,
        CliErrorView::SessionIdNeedsValue => "--session-id requires a value"@,
        CliErrorView::UnknownSessionArgument(s) => "unknown session argument: "@ + s,
        CliErrorView::SessionIdRequired => "--session-id is required"@,
        CliErrorView::UnstableSessionId => "session attribution requires a stable session id"@,
        CliErrorView::UnknownSessionSubcommand(s) => "unknown session subcommand: "@ + s,
    }
}

/// The arguments without the hook marker.
pub open spec fn unmarked_args(args: Seq<Seq<char>>) -> Seq<Seq<char>> {
    args.filter(|a: Seq<char>| a != "--sprocket-managed"@)
}

/// The reserved command names.
pub open spec fn is_reserved(c: Seq<char>) -> bool {
    c == "init"@ || c == "migrate"@ || c == "doctor"@ || c == "repair"@ || c == "validate"@
}

/// The command the arguments (after the program name, hook marker removed) name.
pub open spec fn command_kind(args: Seq<Seq<char>>) -> int {
    if args.len() == 0 {
        0
    } else if args[0] == "install"@ {
        1
    } else if args[0] == "hook"@ {
        2
    } else if args[0] == "session"@ {
        3
    } else if args[0] == "--help"@ || args[0] == "-h"@ {
        0
    } else if args[0] == "--version"@ || args[0] == "-V"@ {
        4
    } else if is_reserved(args[0]) {
        5
    } else {
        6
    }
}

/// Whether a command is the one the arguments name, carrying the rest of them.
pub open spec fn is_command(c: CliCommand, args: Seq<Seq<char>>) -> bool {
    let kind = command_kind(args);
    match c {
        CliCommand::Help => kind == 0,
        CliCommand::Install(rest) => kind == 1 && string_views(rest@) == args.drop_first(),
        CliCommand::Hook(rest) => kind == 2 && string_views(rest@) == args.drop_first(),
        CliCommand::Session(rest) => kind == 3 && string_views(rest@) == args.drop_first(),
        CliCommand::Version => kind == 4,
        CliCommand::NotImplemented(name) => kind == 5 && name@ == args[0],
        CliCommand::Unknown(name) => kind == 6 && name@ == args[0],
    }
}

fn rest_of(args: &Vec<String>) -> (r: Vec<String>)
    requires
        args@.len() > 0,
    ensures
        string_views(r@) == string_views(args@).drop_first(),
{
    let mut r: Vec<String> = Vec::new();
    let mut i: usize = 1;
    while i < args.len()
        invariant
            1 <= i <= args@.len(),
            string_views(r@) == string_views(args@).subrange(1, i as int),
        decreases args.len() - i,
    {
        let ghost before = r@;
        r.push(args[i].clone());
        assert(string_views(r@) =~= string_views(before).push(args@[i as int]@));
        assert(string_views(args@).subrange(1, i + 1) =~= string_views(args@).subrange(1, i as int).push(
            args@[i as int]@,
        ));
        i = i + 1;
    }
    assert(string_views(args@).subrange(1, args@.len() as int) =~= string_views(args@).drop_first());
    r
}

fn without_marker(args: Vec<String>) -> (r: Vec<String>)
    ensures
        string_views(r@) == unmarked_args(string_views(args@)),
{
    let ghost all = string_views(args@);
    let ghost keep = |a: Seq<char>| a != "--sprocket-managed"@;
    let mut r: Vec<String> = Vec::new();
    let mut rest = args;
    let ghost mut i: int = 0;
    assert(all.take(0).filter(keep) =~= Seq::<Seq<char>>::empty()) by {
        reveal(Seq::filter);
    }
    assert(string_views(rest@) =~= all.skip(0));
    while rest.len() > 0
        invariant
            0 <= i <= all.len(),
            keep == (|a: Seq<char>| a != "--sprocket-managed"@),
            all == string_views(args@),
            string_views(rest@) == all.skip(i),
            string_views(r@) == all.take(i).filter(keep),
        decreases rest.len(),
    {
        let ghost rest_before = rest@;
        let a = rest.remove(0);
        proof {
            reveal(Seq::filter);
            assert(string_views(rest_before).len() == rest_before.len());
            assert(i < all.len());
            assert(string_views(rest_before)[0] == a@);
            assert(all.skip(i)[0] == all[i]);
            assert(all.take(i + 1).drop_last() =~= all.take(i));
            assert(all.take(i + 1).last() == a@);
            assert(string_views(rest@) =~= string_views(rest_before).drop_first());
            assert(all.skip(i).drop_first() =~= all.skip(i + 1));
            i = i + 1;
        }
        if !str_eq(a.as_str(), hook_marker()) {
            let ghost before = r@;
            r.push(a);
            assert(string_views(r@) =~= string_views(before).push(all[i - 1]));
        }
    }
    assert(all.take(all.len() as int) =~= all);
    r
}

/// Decides which command the arguments after the program name ask for (the hook marker
/// that installed hooks add is ignored).
pub fn dispatch(args: Vec<String>) -> (c: CliCommand)
    ensures
        is_command(c, unmarked_args(string_views(args@))),
{
    let filtered = without_marker(args);
    let ghost fv = string_views(filtered@);
    if filtered.len() == 0 {
        return CliCommand::Help;
    }
    let first = filtered[0].as_str();
    assert(first@ == fv[0]);
    if str_eq(first, "install") {
        CliCommand::Install(rest_of(&filtered))
    } else if str_eq(first, "hook") {
        CliCommand::Hook(rest_of(&filtered))
    } else if str_eq(first, "session") {
        CliCommand::Session(rest_of(&filtered))
    } else if str_eq(first, "--help") || str_eq(first, "-h") {
        CliCommand::Help
    } else if str_eq(first, "--version") || str_eq(first, "-V") {
        CliCommand::Version
    } else if str_eq(first, "init") || str_eq(first, "migrate") || str_eq(first, "doctor")
        || str_eq(first, "repair") || str_eq(first, "validate") {
        CliCommand::NotImplemented(first.to_string())
    } else {
        CliCommand::Unknown(first.to_string())
    }
}

/// The target repository `install` is given: the last `--target-repo` value, after `codex`.
pub open spec fn install_from(args: Seq<Seq<char>>, i: int, target: Option<Seq<char>>) -> Result<
    Option<Seq<char>>,
    CliErrorView,
>
    decreases args.len() - i,
{
    if i < 0 || i >= args.len() {
        Ok(target)
    } else if args[i] == "--target-repo"@ {
        if i + 1 >= args.len() {
            Err(CliErrorView::TargetRepoNeedsPath)
        } else {
            install_from(args, i + 2, Some(args[i + 1]))
        }
    } else {
        Err(CliErrorView::UnknownInstallArgument(args[i]))
    }
}

/// The arguments of `install`: `codex`, then any number of `--target-repo <path>`.
pub open spec fn spec_install_args(args: Seq<Seq<char>>) -> Result<Option<Seq<char>>, CliErrorView> {
    if args.len() == 0 || args[0] != "codex"@ {
        Err(CliErrorView::InstallUsage)
    } else {
        install_from(args, 1, None)
    }
}

/// The optional text of an optional string.
pub open spec fn opt_string(o: Option<String>) -> Option<Seq<char>> {
    match o {
        Some(s) => Some(s@),
        None => None,
    }
}

/// Reads the arguments of `install`.
pub fn parse_install_args(args: &Vec<String>) -> (r: Result<Option<String>, CliError>)
    ensures
        match r {
            Ok(t) => spec_install_args(string_views(args@)) == Ok::<Option<Seq<char>>, CliErrorView>(
                opt_string(t),
            ),
            Err(e) => spec_install_args(string_views(args@)) == Err::<Option<Seq<char>>, CliErrorView>(
                e@,
            ),
        },
{
    let ghost av = string_views(args@);
    if args.len() == 0 || !str_eq(args[0].as_str(), "codex") {
        return Err(CliError::InstallUsage);
    }
    let mut target: Option<String> = None;
    let mut index: usize = 1;
    while index < args.len()
        invariant
            1 <= index,
            av == string_views(args@),
            spec_install_args(av) == install_from(av, index as int, opt_string(target)),
        decreases args.len() - index,
    {
        if str_eq(args[index].as_str(), "--target-repo") {
            if index + 1 >= args.len() {
                return Err(CliError::TargetRepoNeedsPath);
            }
            target = Some(args[index + 1].clone());
            index = index + 2;
        } else {
            return Err(CliError::UnknownInstallArgument(args[index].clone()));
        }
    }
    Ok(target)
}

/// The hooks Codex calls.
#[derive(Debug, Clone, Copy, PartialEq, Eq, Structural)]
pub enum HookKind {
    SessionStart,
    Baseline,
    PreToolUse,
    Checkpoint,
}

/// The hook the arguments of `hook` name: `codex` and the hook's name.
pub open spec fn spec_hook_args(args: Seq<Seq<char>>) -> Result<HookKind, CliErrorView> {
    if args.len() < 2 || args[0] != "codex"@ {
        Err(CliErrorView::HookUsage)
    } else if args[1] == "session-start"@ {
        Ok(HookKind::SessionStart)
    } else if args[1] == "baseline"@ {
        Ok(HookKind::Baseline)
    } else if args[1] == "pre-tool-use"@ {
        Ok(HookKind::PreToolUse)
    } else if args[1] == "checkpoint"@ {
        Ok(HookKind::Checkpoint)
    } else {
        Err(CliErrorView::UnknownHook(args[1]))
    }
}

/// `hook codex <name>` picks the hook by its name: `session-start`, `baseline`,
/// `pre-tool-use` and `checkpoint` give the session-start, baseline, pre-tool-use and
/// checkpoint hooks, whatever arguments follow; two argument lists pick the same hook only
/// when they name it alike; any other name is refused with that name.
pub proof fn law_hook_named_by_its_name(args: Seq<Seq<char>>, other: Seq<Seq<char>>)
    requires
        args.len() >= 2,
        args[0] == "codex"@,
    ensures
        args[1] == "session-start"@ ==> spec_hook_args(args) == Ok::<HookKind, CliErrorView>(HookKind::SessionStart),
        args[1] == "baseline"@ ==> spec_hook_args(args) == Ok::<HookKind, CliErrorView>(HookKind::Baseline),
        args[1] == "pre-tool-use"@ ==> spec_hook_args(args) == Ok::<HookKind, CliErrorView>(HookKind::PreToolUse),
        args[1] == "checkpoint"@ ==> spec_hook_args(args) == Ok::<HookKind, CliErrorView>(HookKind::Checkpoint),
        (args[1] != "session-start"@ && args[1] != "baseline"@ && args[1] != "pre-tool-use"@ && args[1]
            != "checkpoint"@) ==> spec_hook_args(args) == Err::<HookKind, CliErrorView>(
            CliErrorView::UnknownHook(args[1]),
        ),
        (other.len() >= 2 && other[0] == "codex"@ && spec_hook_args(args) is Ok && spec_hook_args(args)
            == spec_hook_args(other)) ==> args[1] == other[1],
{
    reveal_strlit("session-start");
    reveal_strlit("baseline");
    reveal_strlit("pre-tool-use");
    reveal_strlit("checkpoint");
    assert("session-start"@.len() == 13 && "baseline"@.len() == 8);
    assert("pre-tool-use"@.len() == 12 && "checkpoint"@.len() == 10);
}

/// `hook` without the `codex` adapter and a hook name is a usage error, whatever else the
/// arguments hold.
pub proof fn law_hook_needs_codex_and_a_name(args: Seq<Seq<char>>)
    requires
        args.len() < 2 || args[0] != "codex"@,
    ensures
        spec_hook_args(args) == Err::<HookKind, CliErrorView>(CliErrorView::HookUsage),
{
}

/// Reads the arguments of `hook`.
pub fn parse_hook_args(args: &Vec<String>) -> (r: Result<HookKind, CliError>)
    ensures
        match r {
            Ok(k) => spec_hook_args(string_views(args@)) == Ok::<HookKind, CliErrorView>(k),
            Err(e) => spec_hook_args(string_views(args@)) == Err::<HookKind, CliErrorView>(e@),
        },
{
    if args.len() < 2 || !str_eq(args[0].as_str(), "codex") {
        return Err(CliError::HookUsage);
    }
    let name = args[1].as_str();
    if str_eq(name, "session-start") {
        Ok(HookKind::SessionStart)
    } else if str_eq(name, "baseline") {
        Ok(HookKind::Baseline)
    } else if str_eq(name, "pre-tool-use") {
        Ok(HookKind::PreToolUse)
    } else if str_eq(name, "checkpoint") {
        Ok(HookKind::Checkpoint)
    } else {
        Err(CliError::UnknownHook(args[1].clone()))
    }
}

/// The arguments of a `session` command.
#[derive(Debug, Clone)]
pub struct SessionArgs {
    pub subcommand: String,
    pub target_repo: Option<String>,
    pub session_id: String,
}

/// The options after the `session` subcommand: the last value of each of `--target-repo`
/// and `--session-id`.
pub open spec fn session_from(
    args: Seq<Seq<char>>,
    i: int,
    target: Option<Seq<char>>,
    session: Option<Seq<char>>,
) -> Result<(Option<Seq<char>>, Option<Seq<char>>), CliErrorView>
    decreases args.len() - i,
{
    if i < 0 || i >= args.len() {
        Ok((target, session))
    } else if args[i] == "--target-repo"@ {
        if i + 1 >= args.len() {
            Err(CliErrorView::TargetRepoNeedsPath)
        } else {
            session_from(args, i + 2, Some(args[i + 1]), session)
        }
    } else if args[i] == "--session-id"@ {
        if i + 1 >= args.len() {
            Err(CliErrorView::SessionIdNeedsValue)
        } else {
            session_from(args, i + 2, target, Some(args[i + 1]))
        }
    } else {
        Err(CliErrorView::UnknownSessionArgument(args[i]))
    }
}

/// The arguments of `session`: a subcommand, options, a required and stable session id.
pub open spec fn spec_session_args(args: Seq<Seq<char>>) -> Result<
    (Seq<char>, Option<Seq<char>>, Seq<char>),
    CliErrorView,
> {
    if args.len() == 0 {
        Err(CliErrorView::SessionUsage)
    } else {
        match session_from(args, 1, None, None) {
            Err(e) => Err(e),
            Ok((target, session)) => match session {
                None => Err(CliErrorView::SessionIdRequired),
                Some(id) => if !spec_stable_session_id(id) {
                    Err(CliErrorView::UnstableSessionId)
                } else {
                    Ok((args[0], target, id))
                },
            },
        }
    }
}

/// Reads the arguments of `session`.
pub fn parse_session_args(args: &Vec<String>) -> (r: Result<SessionArgs, CliError>)
    ensures
        match r {
            Ok(a) => spec_session_args(string_views(args@)) == Ok::<
                (Seq<char>, Option<Seq<char>>, Seq<char>),
                CliErrorView,
            >((a.subcommand@, opt_string(a.target_repo), a.session_id@)),
            Err(e) => spec_session_args(string_views(args@)) == Err::<
                (Seq<char>, Option<Seq<char>>, Seq<char>),
                CliErrorView,
            >(e@),
        },
{
    let ghost av = string_views(args@);
    if args.len() == 0 {
        return Err(CliError::SessionUsage);
    }
    let mut target: Option<String> = None;
    let mut session: Option<String> = None;
    let mut index: usize = 1;
    while index < args.len()
        invariant
            1 <= index,
            av == string_views(args@),
            av.len() > 0,
            session_from(av, 1, None, None) == session_from(
                av,
                index as int,
                opt_string(target),
                opt_string(session),
            ),
        decreases args.len() - index,
    {
        if str_eq(args[index].as_str(), "--target-repo") {
            if index + 1 >= args.len() {
                return Err(CliError::TargetRepoNeedsPath);
            }
            target = Some(args[index + 1].clone());
            index = index + 2;
        } else if str_eq(args[index].as_str(), "--session-id") {
            if index + 1 >= args.len() {
                return Err(CliError::SessionIdNeedsValue);
            }
            session = Some(args[index + 1].clone());
            index = index + 2;
        } else {
            return Err(CliError::UnknownSessionArgument(args[index].clone()));
        }
    }
    let session_id = match session {
        None => return Err(CliError::SessionIdRequired),
        Some(id) => id,
    };
    if !stable_session_id(session_id.as_str()) {
        return Err(CliError::UnstableSessionId);
    }
    Ok(SessionArgs { subcommand: args[0].clone(), target_repo: target, session_id })
}

} // verus!
