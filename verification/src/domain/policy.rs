//! The shared repository policy: owned paths, thresholds and guards.
use vstd::prelude::*;
use vstd::string::*;
use vstd::utf8::encode_utf8;

use crate::domain::ids::{blake3_hex, hash_hex};
use crate::domain::manager::names;
use crate::domain::repopath::RepoPath;
use crate::text::{
    chars_of, push_str, replace_all, replace_str, starts_with, str_eq, str_strip_prefix,
    strip_prefix, trim_char, trim_char_chars,
};

verus! {

/// Which paths a stream checkpoints.
#[derive(Debug, Clone)]
pub struct OwnedPolicy {
    pub includes: Vec<String>,
    pub exclude: Vec<String>,
}

/// How checkpoints are published.
#[derive(Debug, Clone, PartialEq, Eq, Structural)]
pub enum CheckpointMode {
    HiddenOnly,
    HiddenThenPromote,
    VisibleDirect,
}

/// When and how checkpoints are taken.
#[derive(Debug, Clone)]
pub struct CheckpointPolicy {
    pub mode: CheckpointMode,
    pub turn_threshold: u32,
    pub file_threshold: u32,
    pub age_minutes: u64,
    pub default_area: String,
    pub message_template: String,
    pub lock_timeout_seconds: u64,
}

/// Visible promotion settings.
#[derive(Debug, Clone)]
pub struct PromotionPolicy {
    pub enabled: bool,
    pub validators: Vec<String>,
    pub continue_on_failure: bool,
}

/// Which guards are installed.
#[derive(Debug, Clone)]
pub struct GuardPolicy {
    pub codex_pretool: bool,
    pub git_prepare_commit_msg: bool,
}

/// Compatibility switches.
#[derive(Debug, Clone)]
pub struct CompatPolicy {
    pub allow_sparse_checkout: bool,
}

/// The repository policy (`.sprocket/policy.toml`).
#[derive(Debug, Clone)]
pub struct Policy {
    pub version: u32,
    pub owned: OwnedPolicy,
    pub checkpoint: CheckpointPolicy,
    pub promotion: PromotionPolicy,
    pub guard: GuardPolicy,
    pub compat: CompatPolicy,
}

/// The identity of the snapshot rules a policy implies.
#[derive(Debug, Clone)]
pub struct PolicyEpoch(pub String);

/// The owned-path exclusions installed by default.
pub open spec fn default_excludes() -> Seq<Seq<char>> {
    seq![
        ":(exclude).git"@,
        ":(exclude).sprocket"@,
        ":(exclude)node_modules"@,
        ":(exclude)target"@,
        ":(exclude)dist"@,
        ":(exclude)build"@,
        ":(exclude).next"@,
        ":(exclude)coverage"@,
        ":(exclude).venv"@,
    ]
}

impl Default for OwnedPolicy {
    fn default() -> (p: Self)
        ensures
            names(p.includes@) == seq!["."@],
            names(p.exclude@) == default_excludes(),
    {
        let mut includes: Vec<String> = Vec::new();
        includes.push(String::from_str("."));
        let mut exclude: Vec<String> = Vec::new();
        exclude.push(String::from_str(":(exclude).git"));
        exclude.push(String::from_str(":(exclude).sprocket"));
        exclude.push(String::from_str(":(exclude)node_modules"));
        exclude.push(String::from_str(":(exclude)target"));
        exclude.push(String::from_str(":(exclude)dist"));
        exclude.push(String::from_str(":(exclude)build"));
        exclude.push(String::from_str(":(exclude).next"));
        exclude.push(String::from_str(":(exclude)coverage"));
        exclude.push(String::from_str(":(exclude).venv"));
        proof {
            assert(names(includes@) =~= seq!["."@]);
            assert(names(exclude@) =~= default_excludes());
        }
        OwnedPolicy { includes, exclude }
    }
}

impl Default for CheckpointPolicy {
    fn default() -> (p: Self)
        ensures
            p.mode == CheckpointMode::HiddenOnly,
            p.turn_threshold == 2,
            p.file_threshold == 4,
            p.age_minutes == 20,
            p.default_area@ == "core"@,
            p.message_template@ == "checkpoint({area}): save current work [auto]"@,
            p.lock_timeout_seconds == 300,
    {
        CheckpointPolicy {
            mode: CheckpointMode::HiddenOnly,
            turn_threshold: 2,
            file_threshold: 4,
            age_minutes: 20,
            default_area: String::from_str("core"),
            message_template: String::from_str("checkpoint({area}): save current work [auto]"),
            lock_timeout_seconds: 300,
        }
    }
}

impl Default for PromotionPolicy {
    fn default() -> (p: Self)
        ensures
            !p.enabled,
            p.validators@.len() == 0,
            p.continue_on_failure,
    {
        PromotionPolicy { enabled: false, validators: Vec::new(), continue_on_failure: true }
    }
}

impl Default for GuardPolicy {
    fn default() -> (p: Self)
        ensures
            p.codex_pretool,
            p.git_prepare_commit_msg,
    {
        GuardPolicy { codex_pretool: true, git_prepare_commit_msg: true }
    }
}

impl Default for CompatPolicy {
    fn default() -> (p: Self)
        ensures
            !p.allow_sparse_checkout,
    {
        CompatPolicy { allow_sparse_checkout: false }
    }
}

impl Default for Policy {
    fn default() -> (p: Self)
        ensures
            p.version == 2,
            names(p.owned.includes@) == seq!["."@],
            names(p.owned.exclude@) == default_excludes(),
            p.checkpoint.mode == CheckpointMode::HiddenOnly,
            p.checkpoint.turn_threshold == 2,
            p.checkpoint.file_threshold == 4,
            p.checkpoint.age_minutes == 20,
            p.checkpoint.default_area@ == "core"@,
            p.checkpoint.message_template@ == "checkpoint({area}): save current work [auto]"@,
            p.checkpoint.lock_timeout_seconds == 300,
            !p.promotion.enabled,
            p.promotion.validators@.len() == 0,
            p.promotion.continue_on_failure,
            p.guard.codex_pretool,
            p.guard.git_prepare_commit_msg,
            !p.compat.allow_sparse_checkout,
    {
        Policy {
            version: 2,
            owned: OwnedPolicy::default(),
            checkpoint: CheckpointPolicy::default(),
            promotion: PromotionPolicy::default(),
            guard: GuardPolicy::default(),
            compat: CompatPolicy::default(),
        }
    }
}

/// The include pathspecs handed to Git: the configured ones, or `.` when none are.
pub open spec fn spec_include_pathspecs(p: Policy) -> Seq<Seq<char>> {
    if p.owned.includes@.len() == 0 {
        seq!["."@]
    } else {
        names(p.owned.includes@)
    }
}

/// The lines `prefix` + rule for each rule.
pub open spec fn rule_lines(prefix: Seq<char>, rules: Seq<Seq<char>>) -> Seq<char>
    decreases rules.len(),
{
    if rules.len() == 0 {
        Seq::empty()
    } else {
        rule_lines(prefix, rules.drop_last()) + prefix + rules.last() + "\n"@
    }
}

/// The text a policy epoch hashes: the snapshot schema, the include and exclude rules and
/// the sparse-checkout switch.
pub open spec fn epoch_payload(p: Policy) -> Seq<char> {
    "snapshot-schema:v1\n"@ + rule_lines("include:"@, spec_include_pathspecs(p)) + rule_lines(
        "exclude:"@,
        names(p.owned.exclude@),
    ) + "allow_sparse_checkout:"@ + (if p.compat.allow_sparse_checkout {
        "true"@
    } else {
        "false"@
    })
}

/// The policy epoch: `policy:` and the BLAKE3 digest of the epoch payload.
pub open spec fn spec_policy_epoch(p: Policy) -> Seq<char> {
    "policy:"@ + blake3_hex(encode_utf8(epoch_payload(p)))
}

/// Whether an owned-path rule covers a path. Exclusion rules may carry the `:(exclude)`
/// magic; `.` and rules that are empty once slashes are trimmed cover everything; otherwise
/// the path must be the rule or lie below it.
pub open spec fn spec_matches_rule(rule: Seq<char>, path: Seq<u8>, exclude_rule: bool) -> bool {
    let raw0 = if exclude_rule {
        match strip_prefix(rule, ":(exclude)"@) {
            Some(r) => r,
            None => rule,
        }
    } else {
        rule
    };
    if raw0 == "."@ {
        true
    } else {
        let raw = trim_char(raw0, '/');
        let rb = encode_utf8(raw);
        raw.len() == 0 || path == rb || (starts_with(path, rb) && path.len() > rb.len()
            && path[rb.len() as int] == 47u8)
    }
}

/// Some rule of the list covers the path.
pub open spec fn any_rule_matches(rules: Seq<Seq<char>>, path: Seq<u8>, exclude_rule: bool) -> bool {
    exists|i: int| 0 <= i < rules.len() && spec_matches_rule(#[trigger] rules[i], path, exclude_rule)
}

/// The path is owned: some include rule covers it and no exclude rule does.
pub open spec fn spec_matches_owned_path(p: Policy, path: Seq<u8>) -> bool {
    any_rule_matches(names(p.owned.includes@), path, false) && !any_rule_matches(
        names(p.owned.exclude@),
        path,
        true,
    )
}

/// An include rule naming a path (not `.`, no `/` at either end) covers that path and every
/// path below it, and no path that does not begin with it.
pub proof fn law_rule_covers_its_path_and_below(rule: Seq<char>, rest: Seq<u8>, other: Seq<u8>)
    requires
        rule.len() > 0,
        rule != "."@,
        rule[0] != '/',
        rule[rule.len() - 1] != '/',
    ensures
        spec_matches_rule(rule, encode_utf8(rule), false),
        spec_matches_rule(rule, encode_utf8(rule) + seq![47u8] + rest, false),
        !starts_with(other, encode_utf8(rule)) ==> !spec_matches_rule(rule, other, false),
{
    assert(crate::text::trim_start_char(rule, '/') == rule);
    assert(crate::text::trim_end_char(rule, '/') == rule);
    assert(trim_char(rule, '/') == rule);
    let rb = encode_utf8(rule);
    let below = rb + seq![47u8] + rest;
    assert(below.subrange(0, rb.len() as int) =~= rb);
    assert(below[rb.len() as int] == 47u8);
    assert(starts_with(rb, rb)) by {
        assert(rb.subrange(0, rb.len() as int) =~= rb);
    }
}

/// How a rule is written: an exclude rule with the `:(exclude)` magic covers exactly what the
/// rest of it covers as an include rule, an exclude rule without the magic covers what it
/// covers as an include rule, and `.` covers every path, whichever list it is in.
pub proof fn law_rule_forms(rule: Seq<char>, path: Seq<u8>)
    ensures
        spec_matches_rule(":(exclude)"@ + rule, path, true) == spec_matches_rule(rule, path, false),
        !starts_with(rule, ":(exclude)"@) ==> spec_matches_rule(rule, path, true)
            == spec_matches_rule(rule, path, false),
        spec_matches_rule("."@, path, false),
        spec_matches_rule("."@, path, true),
{
    let magic = ":(exclude)"@;
    let tagged = magic + rule;
    assert(tagged.subrange(0, magic.len() as int) =~= magic);
    assert(tagged.subrange(magic.len() as int, tagged.len() as int) =~= rule);
    assert(strip_prefix(tagged, magic) == Some(rule));
    reveal_strlit(".");
    reveal_strlit(":(exclude)");
    assert(!starts_with("."@, magic));
}

/// Whether an owned-path rule covers a path.
#[verifier::loop_isolation(false)]
pub fn matches_rule(rule: &str, path: &RepoPath, exclude_rule: bool) -> (r: bool)
    ensures
        r == spec_matches_rule(rule@, path@, exclude_rule),
{
    let raw0: String = if exclude_rule {
        match str_strip_prefix(rule, ":(exclude)") {
            Some(r) => r,
            None => rule.to_string(),
        }
    } else {
        rule.to_string()
    };
    if str_eq(raw0.as_str(), ".") {
        return true;
    }
    let raw_chars = chars_of(raw0.as_str());
    let trimmed = trim_char_chars(raw_chars.as_slice(), '/');
    if trimmed.len() == 0 {
        return true;
    }
    let raw = crate::text::string_of(trimmed.as_slice());
    let rb = raw.as_str().as_bytes();
    let candidate = path.as_bytes();
    proof {
        assert(rb@ == encode_utf8(trim_char(raw0@, '/')));
    }
    if candidate.len() < rb.len() {
        proof {
            assert(candidate@ != rb@);
            assert(!starts_with(candidate@, rb@));
        }
        return false;
    }
    let mut i: usize = 0;
    while i < rb.len()
        invariant
            i <= rb.len(),
            rb.len() <= candidate.len(),
            forall|k: int| 0 <= k < i ==> candidate@[k] == rb@[k],
        decreases rb.len() - i,
    {
        if candidate[i] != rb[i] {
            proof {
                assert(candidate@.subrange(0, rb@.len() as int)[i as int] != rb@[i as int]);
                assert(candidate@ != rb@);
            }
            return false;
        }
        i = i + 1;
    }
    proof {
        assert(candidate@.subrange(0, rb@.len() as int) =~= rb@);
    }
    if candidate.len() == rb.len() {
        proof { assert(candidate@ =~= rb@); }
        true
    } else {
        candidate[rb.len()] == 47u8
    }
}

/// Whether some rule of the list covers the path.
fn any_matches(rules: &Vec<String>, path: &RepoPath, exclude_rule: bool) -> (r: bool)
    ensures
        r == any_rule_matches(names(rules@), path@, exclude_rule),
{
    let mut i: usize = 0;
    while i < rules.len()
        invariant
            i <= rules.len(),
            forall|k: int| 0 <= k < i ==> !spec_matches_rule(#[trigger] names(rules@)[k], path@, exclude_rule),
        decreases rules.len() - i,
    {
        if matches_rule(rules[i].as_str(), path, exclude_rule) {
            assert(spec_matches_rule(names(rules@)[i as int], path@, exclude_rule));
            return true;
        }
        i = i + 1;
    }
    false
}

impl Policy {
    /// The policy epoch: snapshots taken under the same epoch are comparable.
    pub fn policy_epoch(&self) -> (e: PolicyEpoch)
        ensures
            e.0@ == spec_policy_epoch(*self),
    {
        proof {
            reveal_strlit("include:");
            reveal_strlit("exclude:");
            reveal_strlit("\n");
            reveal_strlit("snapshot-schema:v1\n");
        }
        let mut payload = String::from_str("snapshot-schema:v1\n");
        let specs = self.git_include_pathspecs();
        assert(names(specs@).take(0) =~= Seq::<Seq<char>>::empty());
        assert(payload@ =~= "snapshot-schema:v1\n"@ + rule_lines("include:"@, names(specs@).take(0)));
        let mut i: usize = 0;
        while i < specs.len()
            invariant
                i <= specs.len(),
                names(specs@) == spec_include_pathspecs(*self),
                payload@ == "snapshot-schema:v1\n"@ + rule_lines("include:"@, names(specs@).take(i as int)),
            decreases specs.len() - i,
        {
            let ghost before = payload@;
            push_str(&mut payload, "include:");
            push_str(&mut payload, specs[i].as_str());
            push_str(&mut payload, "\n");
            proof {
                reveal_strlit("include:");
                reveal_strlit("\n");
                let t = names(specs@).take(i + 1);
                assert(t.drop_last() =~= names(specs@).take(i as int));
                assert(t.last() == specs@[i as int]@);
                assert(payload@ =~= before + "include:"@ + specs@[i as int]@ + "\n"@);
                assert(rule_lines("include:"@, t) == rule_lines("include:"@, t.drop_last()) + "include:"@ + t.last() + "\n"@);
            }
            i = i + 1;
        }
        assert(names(specs@).take(specs@.len() as int) =~= names(specs@));
        let ghost after_include = payload@;
        assert(names(self.owned.exclude@).take(0) =~= Seq::<Seq<char>>::empty());
        assert(payload@ =~= after_include + rule_lines("exclude:"@, names(self.owned.exclude@).take(0)));
        let mut j: usize = 0;
        while j < self.owned.exclude.len()
            invariant
                j <= self.owned.exclude.len(),
                payload@ == after_include + rule_lines("exclude:"@, names(self.owned.exclude@).take(j as int)),
            decreases self.owned.exclude.len() - j,
        {
            let ghost before = payload@;
            push_str(&mut payload, "exclude:");
            push_str(&mut payload, self.owned.exclude[j].as_str());
            push_str(&mut payload, "\n");
            proof {
                reveal_strlit("exclude:");
                reveal_strlit("\n");
                let t = names(self.owned.exclude@).take(j + 1);
                assert(t.drop_last() =~= names(self.owned.exclude@).take(j as int));
                assert(t.last() == self.owned.exclude@[j as int]@);
                assert(payload@ =~= before + "exclude:"@ + self.owned.exclude@[j as int]@ + "\n"@);
                assert(rule_lines("exclude:"@, t) == rule_lines("exclude:"@, t.drop_last()) + "exclude:"@ + t.last() + "\n"@);
            }
            j = j + 1;
        }
        assert(names(self.owned.exclude@).take(self.owned.exclude@.len() as int) =~= names(self.owned.exclude@));
        push_str(&mut payload, "allow_sparse_checkout:");
        if self.compat.allow_sparse_checkout {
            push_str(&mut payload, "true");
        } else {
            push_str(&mut payload, "false");
        }
        proof {
            reveal_strlit("allow_sparse_checkout:");
            reveal_strlit("true");
            reveal_strlit("false");
            reveal_strlit("snapshot-schema:v1\n");
            assert(payload@ =~= epoch_payload(*self));
        }
        let digest = hash_hex(payload.as_str().as_bytes());
        let mut e = String::from_str("policy:");
        push_str(&mut e, digest.as_str());
        proof { reveal_strlit("policy:"); }
        PolicyEpoch(e)
    }

    /// The include pathspecs handed to Git.
    pub fn git_include_pathspecs(&self) -> (v: Vec<String>)
        ensures
            names(v@) == spec_include_pathspecs(*self),
    {
        if self.owned.includes.len() == 0 {
            let mut v: Vec<String> = Vec::new();
            v.push(String::from_str("."));
            assert(names(v@) =~= seq!["."@]);
            v
        } else {
            let mut v: Vec<String> = Vec::new();
            let mut i: usize = 0;
            while i < self.owned.includes.len()
                invariant
                    i <= self.owned.includes.len(),
                    names(v@) == names(self.owned.includes@).take(i as int),
                decreases self.owned.includes.len() - i,
            {
                let ghost before = v@;
                let item = self.owned.includes[i].clone();
                assert(item@ == self.owned.includes@[i as int]@);
                v.push(item);
                assert(names(v@) =~= names(before).push(item@));
                assert(names(self.owned.includes@).take(i + 1) =~= names(self.owned.includes@).take(i as int).push(item@));
                i = i + 1;
            }
            assert(names(self.owned.includes@).take(self.owned.includes@.len() as int) =~= names(self.owned.includes@));
            v
        }
    }

    /// Whether a path is owned by this policy.
    pub fn matches_owned_path(&self, path: &RepoPath) -> (r: bool)
        ensures
            r == spec_matches_owned_path(*self, path@),
    {
        let included = any_matches(&self.owned.includes, path, false);
        let excluded = any_matches(&self.owned.exclude, path, true);
        included && !excluded
    }

    /// The checkpoint commit subject: the template with `{area}` replaced by the default area.
    pub fn checkpoint_subject(&self) -> (s: String)
        ensures
            s@ == replace_all(self.checkpoint.message_template@, "{area}"@, self.checkpoint.default_area@),
    {
        proof { reveal_strlit("{area}"); }
        replace_str(self.checkpoint.message_template.as_str(), "{area}", self.checkpoint.default_area.as_str())
    }

    /// Whether checkpoints stay hidden (the only mode the engine runs in).
    pub fn hidden_only_mode(&self) -> (r: bool)
        ensures
            r == (self.checkpoint.mode == CheckpointMode::HiddenOnly),
    {
        self.checkpoint.mode == CheckpointMode::HiddenOnly
    }
}

} // verus!
