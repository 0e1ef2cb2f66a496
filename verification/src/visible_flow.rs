//! The decisions of the visible-checkpoint hooks: when a turn needs no commit, the Git
//! command lines that stage and commit owned paths, and reading their results.
use vstd::prelude::*;

use crate::config::CommitConfig;
use crate::gitparse::{decode_lossy, trim_white, trim_white_chars, utf8_lossy};
use crate::guard::string_views;
use crate::order::{char_key, key_is, keys, sort_stable, sorted, SortKey};
use crate::text::{chars_contain, chars_of, contains_sub, push_str, str_eq, string_of};
use crate::visible::{spec_should_checkpoint, should_checkpoint, Delta, ManagerState, ManifestEntry};

verus! {

impl SortKey for ManifestEntry {
    open spec fn key(&self) -> Seq<int> {
        char_key(self.path@)
    }

    fn compare_key(&self, other: &Self) -> (r: i8) {
        self.path.compare_key(&other.path)
    }
}

/// Sorts manifest entries by path (equal paths keep their order).
pub fn sort_manifest(entries: Vec<ManifestEntry>) -> (r: Vec<ManifestEntry>)
    ensures
        sorted(keys(r@)),
        r@.to_multiset() == entries@.to_multiset(),
        forall|k: Seq<int>| #[trigger] r@.filter(key_is(k)) == entries@.filter(key_is(k)),
{
    sort_stable(entries)
}

/// What the checkpoint hook does once it holds the lock and has the state.
#[derive(Debug, Clone, Copy, PartialEq, Eq, Structural)]
pub enum VisibleDecision {
    /// The worktree is what the last checkpoint recorded.
    AlreadyCheckpointed,
    /// Nothing owned changed since the last checkpoint.
    NoChanges,
    /// Record the turn as pending.
    Pending,
    /// Stage and commit the owned paths.
    Commit,
}

/// The decision for a turn: nothing when the last checkpoint has this fingerprint or no path
/// changed, pending when no threshold is reached, a commit otherwise.
pub open spec fn spec_visible_decision(
    m: ManagerState,
    fingerprint: Seq<char>,
    d: Delta,
    c: CommitConfig,
    now: u64,
) -> VisibleDecision {
    if m.last_checkpoint_fingerprint matches Some(f) && f@ == fingerprint {
        VisibleDecision::AlreadyCheckpointed
    } else if d.changed_paths@.len() == 0 {
        VisibleDecision::NoChanges
    } else if !spec_should_checkpoint(d, m, c, now) {
        VisibleDecision::Pending
    } else {
        VisibleDecision::Commit
    }
}

/// Decides what the checkpoint hook does with a turn's change.
pub fn visible_decision(
    manager: &ManagerState,
    fingerprint: &str,
    delta: &Delta,
    config: &CommitConfig,
    now: u64,
) -> (d: VisibleDecision)
    requires
        manager.pending_turn_count < u32::MAX,
    ensures
        d == spec_visible_decision(*manager, fingerprint@, *delta, *config, now),
{
    match &manager.last_checkpoint_fingerprint {
        Some(f) => {
            if str_eq(f.as_str(), fingerprint) {
                return VisibleDecision::AlreadyCheckpointed;
            }
        },
        None => {},
    }
    if delta.changed_paths.len() == 0 {
        return VisibleDecision::NoChanges;
    }
    if !should_checkpoint(delta, manager, config, now) {
        return VisibleDecision::Pending;
    }
    VisibleDecision::Commit
}

/// The first checkpoint state of a repository: the baseline snapshot counts as checkpointed.
pub fn adopt_baseline(
    manager: &mut ManagerState,
    fingerprint: &str,
    manifest: Vec<ManifestEntry>,
    head: Option<String>,
    now: u64,
)
    ensures
        match old(manager).last_checkpoint_fingerprint {
            Some(_) => *final(manager) == *old(manager),
            None => {
                &&& final(manager).last_checkpoint_fingerprint matches Some(f) && f@ == fingerprint@
                &&& final(manager).last_checkpoint_manifest@ == manifest@
                &&& final(manager).last_checkpoint_commit == head
                &&& final(manager).last_checkpoint_at == Some(now)
                &&& final(manager).pending_turn_count == old(manager).pending_turn_count
                &&& final(manager).generation == old(manager).generation
            },
        },
{
    if manager.last_checkpoint_fingerprint.is_none() {
        manager.last_checkpoint_fingerprint = Some(fingerprint.to_string());
        manager.last_checkpoint_manifest = manifest;
        manager.last_checkpoint_commit = head;
        manager.last_checkpoint_at = Some(now);
    }
}

/// The state a turn recorded at its start.
#[derive(Debug, Clone)]
pub struct TurnState {
    pub version: u32,
    pub turn_id: String,
    pub started_at: u64,
    pub baseline_fingerprint: String,
    pub baseline_manifest: Vec<ManifestEntry>,
}

fn strings_with(prefix: &[&str], rest: &Vec<String>) -> (r: Vec<String>)
    ensures
        string_views(r@) == prefix@.map_values(|s: &str| s@) + string_views(rest@),
{
    let mut r: Vec<String> = Vec::new();
    let mut i: usize = 0;
    while i < prefix.len()
        invariant
            i <= prefix@.len(),
            string_views(r@) == prefix@.take(i as int).map_values(|s: &str| s@),
        decreases prefix.len() - i,
    {
        let ghost before = r@;
        r.push(prefix[i].to_string());
        assert(string_views(r@) =~= string_views(before).push(prefix@[i as int]@));
        assert(prefix@.take(i + 1).map_values(|s: &str| s@) =~= prefix@.take(i as int).map_values(
            |s: &str| s@,
        ).push(prefix@[i as int]@));
        i = i + 1;
    }
    assert(prefix@.take(prefix@.len() as int) =~= prefix@);
    let mut j: usize = 0;
    while j < rest.len()
        invariant
            j <= rest@.len(),
            string_views(r@) == prefix@.map_values(|s: &str| s@) + string_views(rest@.take(j as int)),
        decreases rest.len() - j,
    {
        let ghost before = r@;
        r.push(rest[j].clone());
        assert(string_views(r@) =~= string_views(before).push(rest@[j as int]@));
        assert(string_views(rest@.take(j + 1)) =~= string_views(rest@.take(j as int)).push(
            rest@[j as int]@,
        ));
        j = j + 1;
    }
    assert(rest@.take(rest@.len() as int) =~= rest@);
    r
}

/// `git add -A -- <paths>`.
pub fn stage_args(paths: &Vec<String>) -> (r: Vec<String>)
    ensures
        string_views(r@) == seq!["add"@, "-A"@, "--"@] + string_views(paths@),
{
    let prefix: [&str; 3] = ["add", "-A", "--"];
    assert(prefix@.map_values(|s: &str| s@) =~= seq!["add"@, "-A"@, "--"@]);
    strings_with(&prefix, paths)
}

/// `git diff --cached --quiet -- <paths>`: exits 1 when something is staged.
pub fn staged_check_args(paths: &Vec<String>) -> (r: Vec<String>)
    ensures
        string_views(r@) == seq!["diff"@, "--cached"@, "--quiet"@, "--"@] + string_views(paths@),
{
    let prefix: [&str; 4] = ["diff", "--cached", "--quiet", "--"];
    assert(prefix@.map_values(|s: &str| s@) =~= seq!["diff"@, "--cached"@, "--quiet"@, "--"@]);
    strings_with(&prefix, paths)
}

/// `git diff --cached --name-only -z -- <paths>`: the staged files.
pub fn staged_files_args(paths: &Vec<String>) -> (r: Vec<String>)
    ensures
        string_views(r@) == seq!["diff"@, "--cached"@, "--name-only"@, "-z"@, "--"@] + string_views(
            paths@,
        ),
{
    let prefix: [&str; 5] = ["diff", "--cached", "--name-only", "-z", "--"];
    assert(prefix@.map_values(|s: &str| s@) =~= seq![
        "diff"@,
        "--cached"@,
        "--name-only"@,
        "-z"@,
        "--"@,
    ]);
    strings_with(&prefix, paths)
}

/// `git commit --no-verify -m <message> -- <files>`.
pub fn commit_args(message: &str, files: &Vec<String>) -> (r: Vec<String>)
    ensures
        string_views(r@) == seq!["commit"@, "--no-verify"@, "-m"@, message@, "--"@] + string_views(
            files@,
        ),
{
    let prefix: [&str; 5] = ["commit", "--no-verify", "-m", message, "--"];
    assert(prefix@.map_values(|s: &str| s@) =~= seq![
        "commit"@,
        "--no-verify"@,
        "-m"@,
        message@,
        "--"@,
    ]);
    strings_with(&prefix, files)
}

/// `git status --porcelain=v1 --untracked-files=all -- :(literal)<path>`: whether a path has
/// any status.
pub fn path_status_args(pathspec: &str) -> (r: Vec<String>)
    ensures
        string_views(r@) == seq![
            "status"@,
            "--porcelain=v1"@,
            "--untracked-files=all"@,
            "--"@,
            ":(literal)"@ + pathspec@,
        ],
{
    let mut literal = String::from_str(":(literal)");
    push_str(&mut literal, pathspec);
    let mut r: Vec<String> = Vec::new();
    r.push(String::from_str("status"));
    r.push(String::from_str("--porcelain=v1"));
    r.push(String::from_str("--untracked-files=all"));
    r.push(String::from_str("--"));
    r.push(literal);
    assert(string_views(r@) =~= seq![
        "status"@,
        "--porcelain=v1"@,
        "--untracked-files=all"@,
        "--"@,
        ":(literal)"@ + pathspec@,
    ]);
    r
}

/// Why a commit did not happen.
#[derive(Debug, Clone)]
pub enum CommitFailure {
    /// Git found nothing to commit.
    NothingToCommit,
    /// Git failed, with this (trimmed) output.
    Failed(String),
}

/// A failed `git commit`: nothing to commit when its output says so, else a failure with
/// the trimmed output.
pub open spec fn spec_commit_failure(stdout: Seq<u8>, stderr: Seq<u8>) -> Option<Seq<char>> {
    let text = utf8_lossy(stdout) + utf8_lossy(stderr);
    if contains_sub(text, "nothing to commit"@) {
        None
    } else {
        Some(trim_white(text))
    }
}

/// Reads the output of a `git commit` that exited with an error.
pub fn commit_failure(stdout: &[u8], stderr: &[u8]) -> (r: CommitFailure)
    ensures
        match r {
            CommitFailure::NothingToCommit => spec_commit_failure(stdout@, stderr@) is None,
            CommitFailure::Failed(t) => spec_commit_failure(stdout@, stderr@) == Some(t@),
        },
{
    let mut text = decode_lossy(stdout);
    let err = decode_lossy(stderr);
    push_str(&mut text, err.as_str());
    let chars = chars_of(text.as_str());
    let marker = chars_of("nothing to commit");
    if chars_contain(chars.as_slice(), marker.as_slice()) {
        return CommitFailure::NothingToCommit;
    }
    let trimmed = trim_white_chars(chars.as_slice());
    CommitFailure::Failed(string_of(trimmed.as_slice()))
}

/// The commit id Git printed: the trimmed text, or none when it is empty.
pub fn head_from_output(text: &str) -> (r: Option<String>)
    ensures
        match r {
            Some(h) => h@ == trim_white(text@) && h@.len() > 0,
            None => trim_white(text@).len() == 0,
        },
{
    let chars = chars_of(text);
    let trimmed = trim_white_chars(chars.as_slice());
    if trimmed.len() == 0 {
        None
    } else {
        Some(string_of(trimmed.as_slice()))
    }
}

/// Whether some line of a file, trimmed, is the rule.
pub open spec fn has_rule_line(content: Seq<char>, rule: Seq<char>) -> bool {
    exists|i: int|
        0 <= i < crate::lines::text_lines(content).len() && trim_white(
            #[trigger] crate::lines::text_lines(content)[i],
        ) == rule
}

/// `.gitignore` with the rule added on a line of its own, unless a line already holds it.
pub open spec fn spec_gitignore_with(content: Seq<char>, rule: Seq<char>) -> Option<Seq<char>> {
    if has_rule_line(content, rule) {
        None
    } else {
        let sep = if content.len() > 0 && content.last() != '\n' {
            seq!['\n']
        } else {
            Seq::empty()
        };
        Some(content + sep + rule + seq!['\n'])
    }
}

/// Adding a rule that reads back as itself (one line, trimmed) makes adding it again a no-op.
pub proof fn law_gitignore_rule_added_once(content: Seq<char>, rule: Seq<char>)
    requires
        forall|j: int| 0 <= j < rule.len() ==> rule[j] != '\n',
        trim_white(crate::lines::strip_cr(rule)) == rule,
        spec_gitignore_with(content, rule) is Some,
    ensures
        spec_gitignore_with(spec_gitignore_with(content, rule)->0, rule) is None,
{
    let sep = if content.len() > 0 && content.last() != '\n' {
        seq!['\n']
    } else {
        Seq::empty()
    };
    let a = content + sep;
    let updated = spec_gitignore_with(content, rule)->0;
    assert(updated =~= a + rule.push('\n'));
    crate::lines::lemma_single_line(rule, Seq::empty());
    assert(Seq::<char>::empty() + rule =~= rule);
    let tail_lines = crate::lines::text_lines(rule.push('\n'));
    assert(tail_lines == seq![crate::lines::strip_cr(rule)]);
    let lines = crate::lines::text_lines(updated);
    if a.len() == 0 {
        assert(updated =~= rule.push('\n'));
    } else {
        assert(a.last() == '\n');
        crate::lines::lemma_text_lines_concat(a, rule.push('\n'));
    }
    let i = lines.len() - 1;
    assert(lines[i] == crate::lines::strip_cr(rule));
    assert(0 <= i < lines.len() && trim_white(lines[i]) == rule);
    assert(has_rule_line(updated, rule));
}

fn lines_of(content: &str) -> (r: Vec<Vec<char>>)
    ensures
        r@.map_values(|v: Vec<char>| v@) == crate::lines::text_lines(content@),
{
    let s = chars_of(content);
    let mut out: Vec<Vec<char>> = Vec::new();
    let mut cur: Vec<char> = Vec::new();
    let mut i: usize = 0;
    assert(s@.skip(0) =~= s@);
    while i < s.len()
        invariant
            s@ == content@,
            i <= s@.len(),
            crate::lines::text_lines(s@) == out@.map_values(|v: Vec<char>| v@)
                + crate::lines::lines_from(s@.skip(i as int), cur@),
        decreases s.len() - i,
    {
        assert(s@.skip(i as int).drop_first() =~= s@.skip(i + 1));
        assert(s@.skip(i as int)[0] == s@[i as int]);
        if s[i] == '\n' {
            if cur.len() > 0 && cur[cur.len() - 1] == '\r' {
                cur.pop();
            }
            let ghost before = out@;
            let ghost line = cur@;
            out.push(cur);
            cur = Vec::new();
            proof {
                assert(out@.map_values(|v: Vec<char>| v@) =~= before.map_values(|v: Vec<char>| v@).push(line));
                assert(before.map_values(|v: Vec<char>| v@).push(line) + crate::lines::lines_from(
                    s@.skip(i + 1),
                    Seq::empty(),
                ) =~= before.map_values(|v: Vec<char>| v@) + (seq![line] + crate::lines::lines_from(
                    s@.skip(i + 1),
                    Seq::empty(),
                )));
            }
        } else {
            cur.push(s[i]);
        }
        i = i + 1;
    }
    if cur.len() > 0 {
        let ghost before = out@;
        let ghost line = cur@;
        out.push(cur);
        assert(out@.map_values(|v: Vec<char>| v@) =~= before.map_values(|v: Vec<char>| v@).push(line));
        assert(before.map_values(|v: Vec<char>| v@) + seq![line] =~= before.map_values(|v: Vec<char>| v@).push(line));
    } else {
        assert(out@.map_values(|v: Vec<char>| v@) + Seq::<Seq<char>>::empty() =~= out@.map_values(
            |v: Vec<char>| v@,
        ));
    }
    out
}

/// The new `.gitignore` content with a rule added, or none when it already has the rule.
pub fn ensure_gitignore_rule(content: &str, rule: &str) -> (r: Option<String>)
    ensures
        match r {
            Some(c) => spec_gitignore_with(content@, rule@) == Some(c@),
            None => spec_gitignore_with(content@, rule@) is None,
        },
{
    let lines = lines_of(content);
    let ghost lv = lines@.map_values(|v: Vec<char>| v@);
    let rule_chars = chars_of(rule);
    let mut i: usize = 0;
    while i < lines.len()
        invariant
            i <= lines@.len(),
            lv == lines@.map_values(|v: Vec<char>| v@),
            lv == crate::lines::text_lines(content@),
            rule_chars@ == rule@,
            forall|k: int| 0 <= k < i ==> trim_white(#[trigger] lv[k]) != rule@,
        decreases lines.len() - i,
    {
        let t = trim_white_chars(lines[i].as_slice());
        assert(lines[i as int]@ == lv[i as int]);
        if crate::lines::chars_equal(t.as_slice(), rule_chars.as_slice()) {
            assert(trim_white(lv[i as int]) == rule@);
            return None;
        }
        i = i + 1;
    }
    let mut out = content.to_string();
    let cs = chars_of(content);
    if cs.len() > 0 && cs[cs.len() - 1] != '\n' {
        crate::text::push_char(&mut out, '\n');
    }
    push_str(&mut out, rule);
    crate::text::push_char(&mut out, '\n');
    assert(out@ =~= spec_gitignore_with(content@, rule@)->0);
    Some(out)
}

} // verus!
