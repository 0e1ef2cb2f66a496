//! The pre-tool-use guard: which shell commands run a Git subcommand that Sprocket owns.
use vstd::prelude::*;

use crate::text::{chars_of, starts_with, str_eq, str_starts_with};

verus! {

/// The words of a command line as `shlex::split` splits them, or `None` when the line cannot
/// be split (an unterminated quote or a trailing backslash).
pub uninterp spec fn shlex_words(line: Seq<char>) -> Option<Seq<Seq<char>>>;

/// The views of a list of strings.
pub open spec fn string_views(v: Seq<String>) -> Seq<Seq<char>> {
    v.map_values(|s: String| s@)
}

/// `shlex::split`: the words of a command line, split as a POSIX shell would.
#[verifier::external_body]
pub(crate) fn split_words(line: &str) -> (r: Option<Vec<String>>)
    ensures
        match r {
            Some(v) => shlex_words(line@) == Some(string_views(v@)),
            None => shlex_words(line@) is None,
        },
{
    shlex::split(line)
}

/// Options of `git` itself that take the next word as their value.
pub open spec fn is_value_option(t: Seq<char>) -> bool {
    t == "-c"@ || t == "-C"@ || t == "--git-dir"@ || t == "--work-tree"@ || t == "--namespace"@
        || t == "--super-prefix"@
}

/// An option word: `--` and anything, or `-` and at least one more character.
pub open spec fn is_option_word(t: Seq<char>) -> bool {
    starts_with(t, "--"@) || (starts_with(t, "-"@) && t.len() > 1)
}

/// The position of the subcommand among the words from `i` on: value options are skipped
/// with their value, other options alone; the first other word is the subcommand.
pub open spec fn subcommand_at(argv: Seq<Seq<char>>, i: int) -> Option<int>
    decreases argv.len() + 1 - i,
{
    if i < 0 || i >= argv.len() {
        None
    } else if is_value_option(argv[i]) {
        subcommand_at(argv, i + 2)
    } else if is_option_word(argv[i]) {
        subcommand_at(argv, i + 1)
    } else {
        Some(i)
    }
}

/// The Git subcommand of a command line's words, when the first word is `git`.
pub open spec fn spec_git_subcommand(argv: Seq<Seq<char>>) -> Option<Seq<char>> {
    if argv.len() > 0 && argv[0] == "git"@ {
        match subcommand_at(argv, 1) {
            Some(j) => Some(argv[j]),
            None => None,
        }
    } else {
        None
    }
}

fn is_value_option_exec(t: &str) -> (r: bool)
    ensures
        r == is_value_option(t@),
{
    str_eq(t, "-c") || str_eq(t, "-C") || str_eq(t, "--git-dir") || str_eq(t, "--work-tree")
        || str_eq(t, "--namespace") || str_eq(t, "--super-prefix")
}

/// The Git subcommand that a list of words runs, if it is a `git` command.
pub fn git_subcommand(argv: &[String]) -> (r: Option<&str>)
    ensures
        match r {
            Some(s) => spec_git_subcommand(string_views(argv@)) == Some(s@),
            None => spec_git_subcommand(string_views(argv@)) is None,
        },
{
    let ghost words = string_views(argv@);
    if argv.len() == 0 || !str_eq(argv[0].as_str(), "git") {
        return None;
    }
    let mut index: usize = 1;
    while index < argv.len()
        invariant
            words == string_views(argv@),
            argv@.len() > 0,
            words[0] == "git"@,
            1 <= index,
            subcommand_at(words, index as int) == subcommand_at(words, 1),
        decreases argv.len() - index,
    {
        let token = argv[index].as_str();
        assert(token@ == words[index as int]);
        if is_value_option_exec(token) {
            if index >= argv.len() - 1 {
                assert(subcommand_at(words, index + 2) is None);
                return None;
            }
            index = index + 2;
            continue;
        }
        if str_starts_with(token, "--") || (str_starts_with(token, "-") && chars_of(token).len()
            > 1) {
            index = index + 1;
            continue;
        }
        return Some(token);
    }
    assert(subcommand_at(words, index as int) is None);
    None
}

/// The Git subcommands that Sprocket owns: the agent may not run them itself.
pub open spec fn is_owned_subcommand(s: Seq<char>) -> bool {
    s == "add"@ || s == "commit"@ || s == "merge"@ || s == "rebase"@ || s == "cherry-pick"@ || s
        == "push"@ || s == "tag"@ || s == "stash"@ || s == "am"@ || s == "checkout"@ || s
        == "switch"@ || s == "restore"@ || s == "pull"@ || s == "reset"@
}

/// Whether a command line is blocked: it splits into words, they run `git`, and the
/// subcommand is one that Sprocket owns.
pub open spec fn spec_should_block(command_text: Option<Seq<char>>) -> bool {
    match command_text {
        None => false,
        Some(line) => match shlex_words(line) {
            None => false,
            Some(argv) => match spec_git_subcommand(argv) {
                None => false,
                Some(sub) => is_owned_subcommand(sub),
            },
        },
    }
}

/// A word that is neither a `git` option nor an option's value: it does not begin with `-`.
proof fn lemma_plain_word(t: Seq<char>)
    requires
        t.len() > 0,
        t[0] != '-',
    ensures
        !is_value_option(t),
        !is_option_word(t),
{
    reveal_strlit("-c");
    reveal_strlit("-C");
    reveal_strlit("--git-dir");
    reveal_strlit("--work-tree");
    reveal_strlit("--namespace");
    reveal_strlit("--super-prefix");
    reveal_strlit("--");
    reveal_strlit("-");
    assert(t[0] != "-c"@[0]);
    assert(!starts_with(t, "--"@)) by {
        if starts_with(t, "--"@) {
            assert(t.subrange(0, 2)[0] == t[0]);
        }
    }
    assert(!starts_with(t, "-"@)) by {
        if starts_with(t, "-"@) {
            assert(t.subrange(0, 1)[0] == t[0]);
        }
    }
}

/// The guard denies a command line whose words run `git` with one of the subcommands that
/// Sprocket owns right after `git` (`add`, `commit`, `merge`, `rebase`, `cherry-pick`,
/// `push`, `tag`, `stash`, `am`, `checkout`, `switch`, `restore`, `pull`, `reset`), whatever
/// follows; it lets through one whose subcommand there is any other plain word (such as
/// `status`).
pub proof fn law_guard_denies_owned_subcommands(line: Seq<char>, words: Seq<Seq<char>>)
    requires
        shlex_words(line) == Some(words),
        words.len() >= 2,
        words[0] == "git"@,
        words[1].len() > 0,
        words[1][0] != '-',
    ensures
        ({
            let s = words[1];
            let owned = seq![
                "add"@, "commit"@, "merge"@, "rebase"@, "cherry-pick"@, "push"@, "tag"@,
                "stash"@, "am"@, "checkout"@, "switch"@, "restore"@, "pull"@, "reset"@,
            ].contains(s);
            spec_should_block(Some(line)) == owned
        }),
{
    lemma_plain_word(words[1]);
    assert(subcommand_at(words, 1) == Some(1int));
}

/// Dropping leading words after `git` moves the subcommand search with them: from position
/// `i` of the shorter list and position `i + k - 1` of the longer one the same word is found,
/// or none in both.
proof fn lemma_subcommand_shift(long: Seq<Seq<char>>, short: Seq<Seq<char>>, k: int, i: int)
    requires
        k >= 1,
        short.len() >= 1,
        long.len() >= k,
        short.subrange(1, short.len() as int) =~= long.subrange(k, long.len() as int),
        i >= 1,
    ensures
        match (subcommand_at(short, i), subcommand_at(long, i + k - 1)) {
            (None, None) => true,
            (Some(a), Some(b)) => short[a] == long[b],
            _ => false,
        },
    decreases short.len() + 1 - i,
{
    assert(short.len() - 1 == long.len() - k) by {
        assert(short.subrange(1, short.len() as int).len() == long.subrange(k, long.len() as int).len());
    }
    if i < short.len() {
        assert(short[i] == short.subrange(1, short.len() as int)[i - 1]);
        assert(long[i + k - 1] == long.subrange(k, long.len() as int)[i - 1]);
        if is_value_option(short[i]) {
            lemma_subcommand_shift(long, short, k, i + 2);
        } else if is_option_word(short[i]) {
            lemma_subcommand_shift(long, short, k, i + 1);
        }
    }
}

/// Leading options of the `git` command leave the answer unchanged: a line whose words are `git`, a value
/// option (`-c`, `-C`, `--git-dir`, `--work-tree`, `--namespace`, `--super-prefix`) with its
/// value, then some words, is blocked exactly when `git` followed by those words is; so is
/// a line with any other word of `-` and more characters (a flag) in that place.
pub proof fn law_guard_skips_git_options(
    line: Seq<char>,
    words: Seq<Seq<char>>,
    bare_line: Seq<char>,
    bare_words: Seq<Seq<char>>,
)
    requires
        shlex_words(line) == Some(words),
        shlex_words(bare_line) == Some(bare_words),
        words.len() >= 2,
        words[0] == "git"@,
        bare_words.len() >= 1,
        bare_words[0] == "git"@,
        ({
            let value_options = seq![
                "-c"@, "-C"@, "--git-dir"@, "--work-tree"@, "--namespace"@, "--super-prefix"@,
            ];
            ||| (value_options.contains(words[1]) && words.len() >= 3 && bare_words.subrange(
                1,
                bare_words.len() as int,
            ) == words.subrange(3, words.len() as int))
            ||| (!value_options.contains(words[1]) && words[1].len() > 1 && words[1][0] == '-'
                && bare_words.subrange(1, bare_words.len() as int) == words.subrange(
                2,
                words.len() as int,
            ))
        }),
    ensures
        spec_should_block(Some(line)) == spec_should_block(Some(bare_line)),
{
    let value_options = seq![
        "-c"@, "-C"@, "--git-dir"@, "--work-tree"@, "--namespace"@, "--super-prefix"@,
    ];
    if value_options.contains(words[1]) && words.len() >= 3 && bare_words.subrange(
        1,
        bare_words.len() as int,
    ) == words.subrange(3, words.len() as int) {
        assert(is_value_option(words[1]));
        assert(subcommand_at(words, 1) == subcommand_at(words, 3));
        lemma_subcommand_shift(words, bare_words, 3, 1);
    } else {
        assert(!is_value_option(words[1])) by {
            if is_value_option(words[1]) {
                if words[1] == "-c"@ { assert(value_options[0] == words[1]); }
                else if words[1] == "-C"@ { assert(value_options[1] == words[1]); }
                else if words[1] == "--git-dir"@ { assert(value_options[2] == words[1]); }
                else if words[1] == "--work-tree"@ { assert(value_options[3] == words[1]); }
                else if words[1] == "--namespace"@ { assert(value_options[4] == words[1]); }
                else { assert(value_options[5] == words[1]); }
            }
        }
        reveal_strlit("-");
        assert(words[1].subrange(0, 1) =~= "-"@);
        assert(is_option_word(words[1]));
        assert(subcommand_at(words, 1) == subcommand_at(words, 2));
        lemma_subcommand_shift(words, bare_words, 2, 1);
    }
}

/// The guard lets through what does not run a Git subcommand: no command, a line that does
/// not split into words, words that do not begin with `git`, and `git` alone.
pub proof fn law_guard_lets_through_non_git(line: Seq<char>)
    ensures
        !spec_should_block(None),
        shlex_words(line) is None ==> !spec_should_block(Some(line)),
        (shlex_words(line) matches Some(w) && (w.len() == 0 || w[0] != "git"@)) ==> !spec_should_block(
            Some(line),
        ),
        shlex_words(line) == Some(seq!["git"@]) ==> !spec_should_block(Some(line)),
{
}

fn is_owned_subcommand_exec(s: &str) -> (r: bool)
    ensures
        r == is_owned_subcommand(s@),
{
    str_eq(s, "add") || str_eq(s, "commit") || str_eq(s, "merge") || str_eq(s, "rebase") || str_eq(
        s,
        "cherry-pick",
    ) || str_eq(s, "push") || str_eq(s, "tag") || str_eq(s, "stash") || str_eq(s, "am") || str_eq(
        s,
        "checkout",
    ) || str_eq(s, "switch") || str_eq(s, "restore") || str_eq(s, "pull") || str_eq(s, "reset")
}

/// Whether the pre-tool-use hook denies a command.
pub fn should_block_git_command(command_text: Option<&str>) -> (r: bool)
    ensures
        r == spec_should_block(crate::engine::repair::opt_str(command_text)),
{
    let line = match command_text {
        None => return false,
        Some(line) => line,
    };
    let argv = match split_words(line) {
        None => return false,
        Some(argv) => argv,
    };
    match git_subcommand(argv.as_slice()) {
        None => false,
        Some(sub) => is_owned_subcommand_exec(sub),
    }
}

} // verus!
