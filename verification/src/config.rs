//! The repository configuration in `.sprocket/sprocket.toml`: defaults, filling in missing
//! values, validation and commit messages.
use vstd::prelude::*;

use crate::domain::manager::names;
use crate::text::{push_str, replace_all, replace_str, starts_with, str_eq, trim_char, trim_char_chars};

verus! {

/// The checkpoint commit subject template.
pub open spec fn default_checkpoint_message() -> Seq<char> {
    "checkpoint({area}): save current work [auto]"@
}

/// The milestone commit subject template.
pub open spec fn default_milestone_message() -> Seq<char> {
    "milestone({area}): sync docs and save current work [auto]"@
}

/// The configuration as a whole.
#[derive(Debug, Clone)]
pub struct SprocketConfig {
    pub version: u32,
    pub backend: BackendConfig,
    pub commit: CommitConfig,
    pub docs: DocsConfig,
}

/// Backend settings.
#[derive(Debug, Clone)]
pub struct BackendConfig {
    pub codex: CodexBackendConfig,
}

/// Codex backend settings.
#[derive(Debug, Clone)]
pub struct CodexBackendConfig {
    pub binary_path: String,
}

/// Commit settings.
#[derive(Debug, Clone)]
pub struct CommitConfig {
    pub owned_paths: Vec<String>,
    pub checkpoint_turn_threshold: u32,
    pub checkpoint_file_threshold: u32,
    pub checkpoint_age_minutes: u64,
    pub milestone_file_threshold: u32,
    pub lock_timeout_seconds: u64,
    pub default_area: String,
    pub checkpoint_message_template: String,
    pub milestone_message_template: String,
}

/// Documentation worker settings.
#[derive(Debug, Clone)]
pub struct DocsConfig {
    pub enabled: bool,
    pub managed_outputs: Vec<String>,
    pub timeout_seconds: u64,
    pub model: String,
    pub reasoning_effort: String,
    pub sandbox: String,
    pub approval: String,
    pub disable_codex_hooks: bool,
    pub recreate_missing: bool,
    pub instructions: String,
    pub triggers: DocsTriggerConfig,
}

/// What makes a change a milestone.
#[derive(Debug, Clone)]
pub struct DocsTriggerConfig {
    pub source_roots: Vec<String>,
    pub test_roots: Vec<String>,
    pub milestone_globs: Vec<String>,
}

/// What kind of commit a change calls for.
#[derive(Debug, Clone, Copy, PartialEq, Eq, Structural)]
pub enum CommitKind {
    /// No commit (named `None` in the commit-kind vocabulary).
    NoCommit,
    Checkpoint,
    Milestone,
}

fn strings(items: &[&str]) -> (v: Vec<String>)
    ensures
        names(v@) == items@.map_values(|s: &str| s@),
{
    let mut v: Vec<String> = Vec::new();
    let mut i: usize = 0;
    while i < items.len()
        invariant
            i <= items@.len(),
            names(v@) == items@.take(i as int).map_values(|s: &str| s@),
        decreases items.len() - i,
    {
        let ghost before = v@;
        let s = items[i].to_string();
        v.push(s);
        proof {
            assert(names(v@) =~= names(before).push(items@[i as int]@));
            assert(items@.take(i + 1) =~= items@.take(i as int).push(items@[i as int]));
            assert(names(v@) =~= items@.take(i + 1).map_values(|s: &str| s@));
        }
        i = i + 1;
    }
    assert(items@.take(items@.len() as int) =~= items@);
    v
}

/// The default owned paths.
pub open spec fn default_owned_paths() -> Seq<Seq<char>> {
    seq!["src"@, "tests"@]
}

/// The default managed documentation outputs.
pub open spec fn default_managed_outputs() -> Seq<Seq<char>> {
    seq!["docs/ARCHITECTURE.md"@, "docs/project/llms/llms.txt"@]
}

/// The default milestone globs.
pub open spec fn default_milestone_globs() -> Seq<Seq<char>> {
    seq![
        "pyproject.toml"@,
        "package.json"@,
        "Cargo.toml"@,
        "justfile"@,
        "Makefile"@,
        "Dockerfile"@,
        ".github/workflows/**"@,
    ]
}

/// The default commit settings.
pub open spec fn is_default_commit(c: CommitConfig) -> bool {
    &&& names(c.owned_paths@) == default_owned_paths()
    &&& c.checkpoint_turn_threshold == 2
    &&& c.checkpoint_file_threshold == 3
    &&& c.checkpoint_age_minutes == 20
    &&& c.milestone_file_threshold == 6
    &&& c.lock_timeout_seconds == 300
    &&& c.default_area@ == "core"@
    &&& c.checkpoint_message_template@ == default_checkpoint_message()
    &&& c.milestone_message_template@ == default_milestone_message()
}

impl Default for CommitConfig {
    fn default() -> (c: Self)
        ensures
            is_default_commit(c),
    {
        let paths: [&str; 2] = ["src", "tests"];
        let owned_paths = strings(&paths);
        assert(paths@.map_values(|s: &str| s@) =~= default_owned_paths());
        CommitConfig {
            owned_paths,
            checkpoint_turn_threshold: 2,
            checkpoint_file_threshold: 3,
            checkpoint_age_minutes: 20,
            milestone_file_threshold: 6,
            lock_timeout_seconds: 300,
            default_area: String::from_str("core"),
            checkpoint_message_template: String::from_str(
                "checkpoint({area}): save current work [auto]",
            ),
            milestone_message_template: String::from_str(
                "milestone({area}): sync docs and save current work [auto]",
            ),
        }
    }
}

/// The default trigger settings.
pub open spec fn is_default_triggers(t: DocsTriggerConfig) -> bool {
    &&& names(t.source_roots@) == seq!["src"@]
    &&& names(t.test_roots@) == seq!["tests"@]
    &&& names(t.milestone_globs@) == default_milestone_globs()
}

impl Default for DocsTriggerConfig {
    fn default() -> (t: Self)
        ensures
            is_default_triggers(t),
    {
        let sources: [&str; 1] = ["src"];
        let tests: [&str; 1] = ["tests"];
        let globs: [&str; 7] = [
            "pyproject.toml",
            "package.json",
            "Cargo.toml",
            "justfile",
            "Makefile",
            "Dockerfile",
            ".github/workflows/**",
        ];
        let source_roots = strings(&sources);
        let test_roots = strings(&tests);
        let milestone_globs = strings(&globs);
        assert(sources@.map_values(|s: &str| s@) =~= seq!["src"@]);
        assert(tests@.map_values(|s: &str| s@) =~= seq!["tests"@]);
        assert(globs@.map_values(|s: &str| s@) =~= default_milestone_globs());
        DocsTriggerConfig { source_roots, test_roots, milestone_globs }
    }
}

/// The default documentation settings.
pub open spec fn is_default_docs(d: DocsConfig) -> bool {
    &&& d.enabled
    &&& names(d.managed_outputs@) == default_managed_outputs()
    &&& d.timeout_seconds == 90
    &&& d.model@ == "gpt-5.3-codex-spark"@
    &&& d.reasoning_effort@ == "medium"@
    &&& d.sandbox@ == "workspace-write"@
    &&& d.approval@ == "never"@
    &&& d.disable_codex_hooks
    &&& d.recreate_missing
    &&& d.instructions@ == Seq::<char>::empty()
    &&& is_default_triggers(d.triggers)
}

impl Default for DocsConfig {
    fn default() -> (d: Self)
        ensures
            is_default_docs(d),
    {
        let outputs: [&str; 2] = ["docs/ARCHITECTURE.md", "docs/project/llms/llms.txt"];
        let managed_outputs = strings(&outputs);
        assert(outputs@.map_values(|s: &str| s@) =~= default_managed_outputs());
        DocsConfig {
            enabled: true,
            managed_outputs,
            timeout_seconds: 90,
            model: String::from_str("gpt-5.3-codex-spark"),
            reasoning_effort: String::from_str("medium"),
            sandbox: String::from_str("workspace-write"),
            approval: String::from_str("never"),
            disable_codex_hooks: true,
            recreate_missing: true,
            instructions: String::new(),
            triggers: DocsTriggerConfig::default(),
        }
    }
}

impl Default for SprocketConfig {
    fn default() -> (c: Self)
        ensures
            c.version == 1,
            c.backend.codex.binary_path@ == Seq::<char>::empty(),
            is_default_commit(c.commit),
            is_default_docs(c.docs),
    {
        SprocketConfig {
            version: 1,
            backend: BackendConfig { codex: CodexBackendConfig { binary_path: String::new() } },
            commit: CommitConfig::default(),
            docs: DocsConfig::default(),
        }
    }
}

/// Whether a character is white space (Unicode `White_Space`, as `char::is_whitespace`).
pub open spec fn is_white_space(c: char) -> bool {
    ('\t' <= c <= '\r') || c == ' ' || c == '\u{85}' || c == '\u{a0}' || c == '\u{1680}' || (
    '\u{2000}' <= c <= '\u{200a}') || c == '\u{2028}' || c == '\u{2029}' || c == '\u{202f}' || c
        == '\u{205f}' || c == '\u{3000}'
}

/// A text that is empty once trimmed: nothing but white space.
pub open spec fn is_blank(s: Seq<char>) -> bool {
    forall|i: int| 0 <= i < s.len() ==> is_white_space(#[trigger] s[i])
}

fn is_white_space_exec(c: char) -> (r: bool)
    ensures
        r == is_white_space(c),
{
    ('\t' <= c && c <= '\r') || c == ' ' || c == '\u{85}' || c == '\u{a0}' || c == '\u{1680}' || (
    '\u{2000}' <= c && c <= '\u{200a}') || c == '\u{2028}' || c == '\u{2029}' || c == '\u{202f}'
        || c == '\u{205f}' || c == '\u{3000}'
}

/// Whether a text is empty once trimmed (`str::trim().is_empty()`).
pub fn is_blank_str(s: &str) -> (r: bool)
    ensures
        r == is_blank(s@),
{
    let cs = crate::text::chars_of(s);
    let mut i: usize = 0;
    while i < cs.len()
        invariant
            cs@ == s@,
            i <= cs@.len(),
            forall|k: int| 0 <= k < i ==> is_white_space(#[trigger] cs@[k]),
        decreases cs.len() - i,
    {
        if !is_white_space_exec(cs[i]) {
            return false;
        }
        i = i + 1;
    }
    true
}

/// The configuration with every unset value filled in from the defaults: zero numbers,
/// empty lists and blank texts count as unset.
pub open spec fn is_filled(before: SprocketConfig, after: SprocketConfig) -> bool {
    &&& after.version == (if before.version == 0 { 1 } else { before.version })
    &&& after.backend == before.backend
    &&& (if before.commit.owned_paths@.len() == 0 {
        names(after.commit.owned_paths@) == default_owned_paths()
    } else {
        after.commit.owned_paths == before.commit.owned_paths
    })
    &&& after.commit.checkpoint_turn_threshold == (if before.commit.checkpoint_turn_threshold == 0 {
        2
    } else {
        before.commit.checkpoint_turn_threshold
    })
    &&& after.commit.checkpoint_file_threshold == (if before.commit.checkpoint_file_threshold == 0 {
        3
    } else {
        before.commit.checkpoint_file_threshold
    })
    &&& after.commit.checkpoint_age_minutes == before.commit.checkpoint_age_minutes
    &&& after.commit.lock_timeout_seconds == (if before.commit.lock_timeout_seconds == 0 {
        300
    } else {
        before.commit.lock_timeout_seconds
    })
    &&& after.commit.milestone_file_threshold == (if before.commit.milestone_file_threshold == 0 {
        6
    } else {
        before.commit.milestone_file_threshold
    })
    &&& (if is_blank(before.commit.default_area@) {
        after.commit.default_area@ == "core"@
    } else {
        after.commit.default_area == before.commit.default_area
    })
    &&& (if is_blank(before.commit.checkpoint_message_template@) {
        after.commit.checkpoint_message_template@ == default_checkpoint_message()
    } else {
        after.commit.checkpoint_message_template == before.commit.checkpoint_message_template
    })
    &&& (if is_blank(before.commit.milestone_message_template@) {
        after.commit.milestone_message_template@ == default_milestone_message()
    } else {
        after.commit.milestone_message_template == before.commit.milestone_message_template
    })
    &&& (if before.docs.managed_outputs@.len() == 0 {
        names(after.docs.managed_outputs@) == default_managed_outputs()
    } else {
        after.docs.managed_outputs == before.docs.managed_outputs
    })
    &&& after.docs.timeout_seconds == (if before.docs.timeout_seconds == 0 {
        90
    } else {
        before.docs.timeout_seconds
    })
    &&& (if is_blank(before.docs.model@) {
        after.docs.model@ == "gpt-5.3-codex-spark"@
    } else {
        after.docs.model == before.docs.model
    })
    &&& (if is_blank(before.docs.reasoning_effort@) {
        after.docs.reasoning_effort@ == "medium"@
    } else {
        after.docs.reasoning_effort == before.docs.reasoning_effort
    })
    &&& (if is_blank(before.docs.sandbox@) {
        after.docs.sandbox@ == "workspace-write"@
    } else {
        after.docs.sandbox == before.docs.sandbox
    })
    &&& (if is_blank(before.docs.approval@) {
        after.docs.approval@ == "never"@
    } else {
        after.docs.approval == before.docs.approval
    })
    &&& after.docs.enabled == before.docs.enabled
    &&& after.docs.disable_codex_hooks == before.docs.disable_codex_hooks
    &&& after.docs.recreate_missing == before.docs.recreate_missing
    &&& after.docs.instructions == before.docs.instructions
    &&& (if before.docs.triggers.source_roots@.len() == 0 {
        names(after.docs.triggers.source_roots@) == seq!["src"@]
    } else {
        after.docs.triggers.source_roots == before.docs.triggers.source_roots
    })
    &&& (if before.docs.triggers.test_roots@.len() == 0 {
        names(after.docs.triggers.test_roots@) == seq!["tests"@]
    } else {
        after.docs.triggers.test_roots == before.docs.triggers.test_roots
    })
    &&& (if before.docs.triggers.milestone_globs@.len() == 0 {
        names(after.docs.triggers.milestone_globs@) == default_milestone_globs()
    } else {
        after.docs.triggers.milestone_globs == before.docs.triggers.milestone_globs
    })
}

fn apply_commit_defaults(commit: &mut CommitConfig)
    ensures
        (if old(commit).owned_paths@.len() == 0 {
            names(final(commit).owned_paths@) == default_owned_paths()
        } else {
            final(commit).owned_paths == old(commit).owned_paths
        }),
        final(commit).checkpoint_turn_threshold == (if old(commit).checkpoint_turn_threshold == 0 {
            2
        } else {
            old(commit).checkpoint_turn_threshold
        }),
        final(commit).checkpoint_file_threshold == (if old(commit).checkpoint_file_threshold == 0 {
            3
        } else {
            old(commit).checkpoint_file_threshold
        }),
        final(commit).checkpoint_age_minutes == old(commit).checkpoint_age_minutes,
        final(commit).lock_timeout_seconds == (if old(commit).lock_timeout_seconds == 0 {
            300
        } else {
            old(commit).lock_timeout_seconds
        }),
        final(commit).milestone_file_threshold == (if old(commit).milestone_file_threshold == 0 {
            6
        } else {
            old(commit).milestone_file_threshold
        }),
        (if is_blank(old(commit).default_area@) {
            final(commit).default_area@ == "core"@
        } else {
            final(commit).default_area == old(commit).default_area
        }),
        (if is_blank(old(commit).checkpoint_message_template@) {
            final(commit).checkpoint_message_template@ == default_checkpoint_message()
        } else {
            final(commit).checkpoint_message_template == old(commit).checkpoint_message_template
        }),
        (if is_blank(old(commit).milestone_message_template@) {
            final(commit).milestone_message_template@ == default_milestone_message()
        } else {
            final(commit).milestone_message_template == old(commit).milestone_message_template
        }),
{
    let defaults = CommitConfig::default();
    if commit.owned_paths.len() == 0 {
        commit.owned_paths = defaults.owned_paths;
    }
    if commit.checkpoint_turn_threshold == 0 {
        commit.checkpoint_turn_threshold = defaults.checkpoint_turn_threshold;
    }
    if commit.checkpoint_file_threshold == 0 {
        commit.checkpoint_file_threshold = defaults.checkpoint_file_threshold;
    }
    if commit.lock_timeout_seconds == 0 {
        commit.lock_timeout_seconds = defaults.lock_timeout_seconds;
    }
    if commit.milestone_file_threshold == 0 {
        commit.milestone_file_threshold = defaults.milestone_file_threshold;
    }
    if is_blank_str(commit.default_area.as_str()) {
        commit.default_area = defaults.default_area;
    }
    if is_blank_str(commit.checkpoint_message_template.as_str()) {
        commit.checkpoint_message_template = defaults.checkpoint_message_template;
    }
    if is_blank_str(commit.milestone_message_template.as_str()) {
        commit.milestone_message_template = defaults.milestone_message_template;
    }
}

fn apply_trigger_defaults(t: &mut DocsTriggerConfig)
    ensures
        (if old(t).source_roots@.len() == 0 {
            names(final(t).source_roots@) == seq!["src"@]
        } else {
            final(t).source_roots == old(t).source_roots
        }),
        (if old(t).test_roots@.len() == 0 {
            names(final(t).test_roots@) == seq!["tests"@]
        } else {
            final(t).test_roots == old(t).test_roots
        }),
        (if old(t).milestone_globs@.len() == 0 {
            names(final(t).milestone_globs@) == default_milestone_globs()
        } else {
            final(t).milestone_globs == old(t).milestone_globs
        }),
{
    let defaults = DocsTriggerConfig::default();
    if t.source_roots.len() == 0 {
        t.source_roots = defaults.source_roots;
    }
    if t.test_roots.len() == 0 {
        t.test_roots = defaults.test_roots;
    }
    if t.milestone_globs.len() == 0 {
        t.milestone_globs = defaults.milestone_globs;
    }
}

fn apply_docs_defaults(docs: &mut DocsConfig)
    ensures
        (if old(docs).managed_outputs@.len() == 0 {
            names(final(docs).managed_outputs@) == default_managed_outputs()
        } else {
            final(docs).managed_outputs == old(docs).managed_outputs
        }),
        final(docs).timeout_seconds == (if old(docs).timeout_seconds == 0 {
            90
        } else {
            old(docs).timeout_seconds
        }),
        (if is_blank(old(docs).model@) {
            final(docs).model@ == "gpt-5.3-codex-spark"@
        } else {
            final(docs).model == old(docs).model
        }),
        (if is_blank(old(docs).reasoning_effort@) {
            final(docs).reasoning_effort@ == "medium"@
        } else {
            final(docs).reasoning_effort == old(docs).reasoning_effort
        }),
        (if is_blank(old(docs).sandbox@) {
            final(docs).sandbox@ == "workspace-write"@
        } else {
            final(docs).sandbox == old(docs).sandbox
        }),
        (if is_blank(old(docs).approval@) {
            final(docs).approval@ == "never"@
        } else {
            final(docs).approval == old(docs).approval
        }),
        final(docs).enabled == old(docs).enabled,
        final(docs).disable_codex_hooks == old(docs).disable_codex_hooks,
        final(docs).recreate_missing == old(docs).recreate_missing,
        final(docs).instructions == old(docs).instructions,
        (if old(docs).triggers.source_roots@.len() == 0 {
            names(final(docs).triggers.source_roots@) == seq!["src"@]
        } else {
            final(docs).triggers.source_roots == old(docs).triggers.source_roots
        }),
        (if old(docs).triggers.test_roots@.len() == 0 {
            names(final(docs).triggers.test_roots@) == seq!["tests"@]
        } else {
            final(docs).triggers.test_roots == old(docs).triggers.test_roots
        }),
        (if old(docs).triggers.milestone_globs@.len() == 0 {
            names(final(docs).triggers.milestone_globs@) == default_milestone_globs()
        } else {
            final(docs).triggers.milestone_globs == old(docs).triggers.milestone_globs
        }),
{
    let defaults = DocsConfig::default();
    if docs.managed_outputs.len() == 0 {
        docs.managed_outputs = defaults.managed_outputs;
    }
    if docs.timeout_seconds == 0 {
        docs.timeout_seconds = defaults.timeout_seconds;
    }
    if is_blank_str(docs.model.as_str()) {
        docs.model = defaults.model;
    }
    if is_blank_str(docs.reasoning_effort.as_str()) {
        docs.reasoning_effort = defaults.reasoning_effort;
    }
    if is_blank_str(docs.sandbox.as_str()) {
        docs.sandbox = defaults.sandbox;
    }
    if is_blank_str(docs.approval.as_str()) {
        docs.approval = defaults.approval;
    }
    apply_trigger_defaults(&mut docs.triggers);
}

/// Fills in every unset value of a configuration from the defaults.
pub fn apply_defaults(config: &mut SprocketConfig)
    ensures
        is_filled(*old(config), *final(config)),
{
    if config.version == 0 {
        config.version = 1;
    }
    apply_commit_defaults(&mut config.commit);
    apply_docs_defaults(&mut config.docs);
}

/// Two pathspecs overlap when, without leading or trailing slashes, both are non-empty and
/// one equals the other or lies inside it.
pub open spec fn spec_pathspecs_overlap(left: Seq<char>, right: Seq<char>) -> bool {
    let l = trim_char(left, '/');
    let r = trim_char(right, '/');
    l.len() > 0 && r.len() > 0 && (l == r || starts_with(r, l.push('/')) || starts_with(
        l,
        r.push('/'),
    ))
}

/// Whether two pathspecs overlap.
pub fn pathspecs_overlap(left: &str, right: &str) -> (r: bool)
    ensures
        r == spec_pathspecs_overlap(left@, right@),
{
    let l = trim_char_chars(crate::text::chars_of(left).as_slice(), '/');
    let r = trim_char_chars(crate::text::chars_of(right).as_slice(), '/');
    if l.len() == 0 || r.len() == 0 {
        return false;
    }
    let mut l_slash = l.clone();
    l_slash.push('/');
    let mut r_slash = r.clone();
    r_slash.push('/');
    crate::lines::chars_equal(l.as_slice(), r.as_slice()) || crate::text::chars_start_with(
        r.as_slice(),
        l_slash.as_slice(),
    ) || crate::text::chars_start_with(l.as_slice(), r_slash.as_slice())
}

/// Why a configuration is refused.
#[derive(Debug, Clone)]
pub enum ConfigError {
    /// A managed documentation output overlaps an owned path.
    ManagedOutputOverlapsOwnedPath { output: String, owned: String },
}

/// Checks that no managed documentation output overlaps an owned path; reports the first
/// overlapping pair, owned paths scanned in order and, for each, the outputs in order.
pub fn validate_config(config: &SprocketConfig) -> (r: Result<(), ConfigError>)
    ensures
        match r {
            Ok(()) => forall|i: int, j: int|
                0 <= i < config.commit.owned_paths@.len() && 0 <= j
                    < config.docs.managed_outputs@.len() ==> !#[trigger] spec_pathspecs_overlap(
                    config.commit.owned_paths@[i]@,
                    config.docs.managed_outputs@[j]@,
                ),
            Err(ConfigError::ManagedOutputOverlapsOwnedPath { output, owned }) => exists|
                i: int,
                j: int,
            |
                0 <= i < config.commit.owned_paths@.len() && 0 <= j
                    < config.docs.managed_outputs@.len() && #[trigger] spec_pathspecs_overlap(
                    config.commit.owned_paths@[i]@,
                    config.docs.managed_outputs@[j]@,
                ) && owned@ == config.commit.owned_paths@[i]@ && output@
                    == config.docs.managed_outputs@[j]@ && (forall|k: int, m: int|
                    0 <= k < i && 0 <= m < config.docs.managed_outputs@.len()
                        ==> !#[trigger] spec_pathspecs_overlap(
                        config.commit.owned_paths@[k]@,
                        config.docs.managed_outputs@[m]@,
                    )) && (forall|m: int|
                    0 <= m < j ==> !#[trigger] spec_pathspecs_overlap(
                        config.commit.owned_paths@[i]@,
                        config.docs.managed_outputs@[m]@,
                    )),
        },
{
    let owned = &config.commit.owned_paths;
    let outputs = &config.docs.managed_outputs;
    let mut i: usize = 0;
    while i < owned.len()
        invariant
            i <= owned@.len(),
            owned@ == config.commit.owned_paths@,
            outputs@ == config.docs.managed_outputs@,
            forall|k: int, m: int|
                0 <= k < i && 0 <= m < outputs@.len() ==> !#[trigger] spec_pathspecs_overlap(
                    owned@[k]@,
                    outputs@[m]@,
                ),
        decreases owned.len() - i,
    {
        let mut j: usize = 0;
        while j < outputs.len()
            invariant
                i < owned@.len(),
                j <= outputs@.len(),
                owned@ == config.commit.owned_paths@,
                outputs@ == config.docs.managed_outputs@,
                forall|k: int, m: int|
                    0 <= k < i && 0 <= m < outputs@.len() ==> !#[trigger] spec_pathspecs_overlap(
                        owned@[k]@,
                        outputs@[m]@,
                    ),
                forall|m: int| 0 <= m < j ==> !#[trigger] spec_pathspecs_overlap(owned@[i as int]@, outputs@[m]@),
            decreases outputs.len() - j,
        {
            if pathspecs_overlap(owned[i].as_str(), outputs[j].as_str()) {
                return Err(
                    ConfigError::ManagedOutputOverlapsOwnedPath {
                        output: outputs[j].clone(),
                        owned: owned[i].clone(),
                    },
                );
            }
            j = j + 1;
        }
        i = i + 1;
    }
    Ok(())
}

impl ConfigError {
    /// The error's message.
    pub fn message(&self) -> (m: String)
        ensures
            match self {
                ConfigError::ManagedOutputOverlapsOwnedPath { output, owned } => m@
                    == "docs.managed_outputs overlaps commit.owned_paths: `"@ + output@ + "` vs `"@
                    + owned@ + "`"@,
            },
    {
        match self {
            ConfigError::ManagedOutputOverlapsOwnedPath { output, owned } => {
                let mut m = String::from_str("docs.managed_outputs overlaps commit.owned_paths: `");
                push_str(&mut m, output.as_str());
                push_str(&mut m, "` vs `");
                push_str(&mut m, owned.as_str());
                push_str(&mut m, "`");
                m
            },
        }
    }
}

/// The subject of a commit of some kind: its template with `{area}` replaced by the area.
pub open spec fn spec_render_commit_message(commit: CommitConfig, kind: CommitKind) -> Seq<char> {
    let template = match kind {
        CommitKind::Milestone => commit.milestone_message_template@,
        _ => commit.checkpoint_message_template@,
    };
    replace_all(template, "{area}"@, commit.default_area@)
}

/// Renders the subject of a commit.
pub fn render_commit_message(commit: &CommitConfig, kind: CommitKind) -> (s: String)
    ensures
        s@ == spec_render_commit_message(*commit, kind),
{
    proof {
        reveal_strlit("{area}");
    }
    let template = match kind {
        CommitKind::Milestone => commit.milestone_message_template.as_str(),
        _ => commit.checkpoint_message_template.as_str(),
    };
    replace_str(template, "{area}", commit.default_area.as_str())
}

} // verus!
