//! The `.hoox.conf` data model: hooks, their commands and the options of each.
use vstd::prelude::*;
use crate::strmap::{StrMap, entries_map, keys_distinct, lemma_entries_map_index};
use crate::text::str_eq;

verus! {

/// Name of the configuration file at the repository root.
pub const HOOX_FILE_NAME: &'static str = ".hoox.conf";

/// Name of the cache file at the repository root.
pub const CACHE_FILE_NAME: &'static str = ".hoox.cache";

/// The Git hooks that hoox installs wrappers for, in the order Git documents them.
pub open spec fn git_hook_name_list() -> Seq<Seq<char>> {
    seq![
        "applypatch-msg"@,
        "commit-msg"@,
        "post-applypatch"@,
        "post-checkout"@,
        "post-commit"@,
        "post-merge"@,
        "post-receive"@,
        "post-rewrite"@,
        "post-update"@,
        "pre-applypatch"@,
        "pre-auto-gc"@,
        "pre-commit"@,
        "pre-push"@,
        "pre-rebase"@,
        "pre-receive"@,
        "prepare-commit-msg"@,
        "push-to-checkout"@,
        "sendemail-validate"@,
        "update"@,
    ]
}

/// The Git hooks that hoox supports.
pub fn git_hook_names() -> (res: Vec<&'static str>)
    ensures
        res@.map_values(|s: &str| s@) == git_hook_name_list(),
{
    let v: Vec<&'static str> = vec![
        "applypatch-msg",
        "commit-msg",
        "post-applypatch",
        "post-checkout",
        "post-commit",
        "post-merge",
        "post-receive",
        "post-rewrite",
        "post-update",
        "pre-applypatch",
        "pre-auto-gc",
        "pre-commit",
        "pre-push",
        "pre-rebase",
        "pre-receive",
        "prepare-commit-msg",
        "push-to-checkout",
        "sendemail-validate",
        "update",
    ];
    proof {
        assert(v@.map_values(|s: &str| s@) =~= git_hook_name_list());
    }
    v
}

/// Hooks whose changed files are the staged ones (index against HEAD).
pub open spec fn spec_is_staged_hook(hook: Seq<char>) -> bool {
    hook == "pre-commit"@ || hook == "prepare-commit-msg"@ || hook == "commit-msg"@
}

/// True for the hooks that look at staged files rather than the working tree.
pub fn is_staged_hook(hook: &str) -> (res: bool)
    ensures
        res == spec_is_staged_hook(hook@),
{
    str_eq(hook, "pre-commit") || str_eq(hook, "prepare-commit-msg") || str_eq(hook, "commit-msg")
}

/// The part of the configuration that is read before anything else.
#[derive(Debug, Clone, PartialEq, Eq)]
pub struct WithVersion {
    pub version: String,
}

/// Which output streams of a command are shown.
#[derive(Debug, Clone, Copy, PartialEq, Eq, Structural)]
pub enum Verbosity {
    All,
    Quiet,
    Stdout,
    Stderr,
}

/// Whether a failing command stops the hook.
#[derive(Debug, Clone, Copy, PartialEq, Eq, Structural)]
pub enum CommandSeverity {
    Error,
    Warn,
}

/// Command specification: exactly one of `inline` or `file` must be set.
#[derive(Debug, Clone, PartialEq, Eq)]
pub struct CommandSpec {
    pub inline: Option<String>,
    pub file: Option<String>,
}

/// A single pattern or list of patterns.
#[derive(Debug, Clone, PartialEq, Eq)]
pub enum PatternList {
    Single(String),
    Multiple(Vec<String>),
}

impl PatternList {
    /// The patterns of the list, in order.
    pub open spec fn pattern_seq(&self) -> Seq<Seq<char>> {
        match self {
            PatternList::Single(s) => seq![s@],
            PatternList::Multiple(v) => v@.map_values(|s: String| s@),
        }
    }

    /// The patterns of the list, borrowed, in order.
    pub fn patterns(&self) -> (res: Vec<&str>)
        ensures
            res@.map_values(|s: &str| s@) == self.pattern_seq(),
    {
        match self {
            PatternList::Single(s) => {
                let mut v: Vec<&str> = Vec::new();
                v.push(s.as_str());
                proof {
                    assert(v@.map_values(|s: &str| s@) =~= self.pattern_seq());
                }
                v
            },
            PatternList::Multiple(list) => {
                let mut v: Vec<&str> = Vec::new();
                let mut i: usize = 0;
                while i < list.len()
                    invariant
                        i <= list@.len(),
                        v@.map_values(|s: &str| s@) =~= list@.take(i as int).map_values(|s: String| s@),
                    decreases list@.len() - i,
                {
                    let ghost before = v@;
                    v.push(list[i].as_str());
                    proof {
                        assert(list@.take(i + 1) =~= list@.take(i as int).push(list@[i as int]));
                        assert(v@.map_values(|s: &str| s@) =~= before.map_values(|s: &str| s@).push(list@[i as int]@));
                        assert(list@.take(i + 1).map_values(|s: String| s@) =~= list@.take(i as int).map_values(|s: String| s@).push(list@[i as int]@));
                    }
                    i = i + 1;
                }
                proof {
                    assert(list@.take(list@.len() as int) =~= list@);
                }
                v
            },
        }
    }
}

/// File selector for matching changed files.
#[derive(Debug, Clone, PartialEq, Eq)]
pub struct FileSelector {
    pub glob: Option<PatternList>,
    pub regex: Option<PatternList>,
}

impl FileSelector {
    /// True when at least one kind of pattern is given.
    pub fn has_patterns(&self) -> (res: bool)
        ensures
            res == (self.glob is Some || self.regex is Some),
    {
        self.glob.is_some() || self.regex.is_some()
    }
}

/// Environment variable configuration for a command.
#[derive(Debug, Clone, PartialEq, Eq)]
pub struct EnvConfig {
    /// Variables set on top of the inherited environment.
    pub vars: Option<StrMap<String>>,
    /// Patterns for the names of the inherited variables to keep.
    pub keep: Option<Vec<String>>,
}

/// One command of a hook.
#[derive(Debug, Clone, PartialEq, Eq)]
pub struct HookCommand {
    pub command: CommandSpec,
    pub program: Option<Vec<String>>,
    pub severity: Option<CommandSeverity>,
    pub verbosity: Option<Verbosity>,
    /// File selector to match against changed files.
    pub files: Option<FileSelector>,
    /// Working directory for this command (relative to repo root).
    pub cwd: Option<String>,
    /// Run this command in parallel with adjacent `parallel = true` commands.
    pub parallel: Option<bool>,
    /// Environment variable configuration.
    pub env: Option<EnvConfig>,
    /// Timeout in seconds.
    pub timeout: Option<u64>,
    /// Regex pattern matched against the current branch name.
    pub branch: Option<String>,
    /// Skip the command when the matched files have not changed since its last success.
    pub cache: Option<bool>,
    /// Number of retry attempts on failure before giving up.
    pub retry: Option<u32>,
}

/// The whole configuration.
#[derive(Debug, Clone, PartialEq, Eq)]
pub struct Hoox {
    pub version: String,
    pub verbosity: Option<Verbosity>,
    pub severity: Option<CommandSeverity>,
    pub hooks: StrMap<Vec<HookCommand>>,
    /// Paths to additional `.hoox.conf` files (relative to repo root).
    pub includes: Option<Vec<String>>,
}

/// The commands that `hooks` holds for `name`, none when it has no entry.
pub open spec fn commands_of(hooks: Map<Seq<char>, Vec<HookCommand>>, name: Seq<char>) -> Seq<HookCommand> {
    if hooks.contains_key(name) {
        hooks[name]@
    } else {
        Seq::empty()
    }
}

impl Hoox {
    /// The commands configured for `hook`, if it is configured.
    pub fn hook_commands(&self, hook: &str) -> (res: Option<&Vec<HookCommand>>)
        ensures
            res is Some <==> self.hooks@.contains_key(hook@),
            res matches Some(v) ==> v@ == commands_of(self.hooks@, hook@),
    {
        self.hooks.get(hook)
    }

    /// Takes the includes list out of the configuration.
    pub fn take_includes(&mut self) -> (res: Option<Vec<String>>)
        ensures
            res == old(self).includes,
            final(self).includes is None,
            final(self).version == old(self).version,
            final(self).verbosity == old(self).verbosity,
            final(self).severity == old(self).severity,
            final(self).hooks == old(self).hooks,
    {
        self.includes.take()
    }

    /// Appends the hooks of an included configuration: for every hook name the
    /// commands of `self` come first, then those of `included`.
    pub fn merge_included(&mut self, included: Hoox)
        ensures
            forall|name: Seq<char>|
                #[trigger] commands_of(final(self).hooks@, name) == commands_of(old(self).hooks@, name)
                    + commands_of(included.hooks@, name),
            forall|name: Seq<char>|
                #[trigger] final(self).hooks@.contains_key(name) <==> old(self).hooks@.contains_key(name)
                    || included.hooks@.contains_key(name),
            final(self).version == old(self).version,
            final(self).verbosity == old(self).verbosity,
            final(self).severity == old(self).severity,
            final(self).includes == old(self).includes,
    {
        let ghost inc_map = included.hooks@;
        let mut entries = included.hooks.into_entries();
        let ghost all = entries@;
        proof {
            assert(all.subrange(0, all.len() as int) =~= all);
        }
        while entries.len() > 0
            invariant
                all == entries@ + all.subrange(entries@.len() as int, all.len() as int),
                entries@.len() <= all.len(),
                keys_distinct(all),
                entries_map(all) == inc_map,
                self.version == old(self).version,
                self.verbosity == old(self).verbosity,
                self.severity == old(self).severity,
                self.includes == old(self).includes,
                forall|name: Seq<char>|
                    #[trigger] commands_of(self.hooks@, name) == commands_of(old(self).hooks@, name)
                        + later_commands(all, entries@.len() as int, name),
                forall|name: Seq<char>|
                    #[trigger] self.hooks@.contains_key(name) <==> old(self).hooks@.contains_key(name)
                        || later_has(all, entries@.len() as int, name),
            decreases entries@.len(),
        {
            let ghost k = entries@.len() - 1;
            let ghost before = self.hooks@;
            let (name, mut cmds) = entries.pop().unwrap();
            proof {
                assert(all[k] == (name, cmds));
            }
            let ghost added = cmds@;
            let existing = self.hooks.remove(name.as_str());
            let mut merged = match existing {
                Some(v) => v,
                None => Vec::new(),
            };
            let ghost prev = merged@;
            merged.append(&mut cmds);
            self.hooks.insert(name, merged);
            proof {
                assert(prev == commands_of(before, all[k].0@));
                assert forall|n: Seq<char>| #[trigger] commands_of(self.hooks@, n) == commands_of(old(self).hooks@, n)
                    + later_commands(all, k, n) by {
                    lemma_later_step(all, k, n);
                    if n == all[k].0@ {
                        assert(commands_of(self.hooks@, n) =~= prev + added);
                        assert(later_commands(all, k + 1, n) =~= Seq::<HookCommand>::empty());
                    } else {
                        assert(commands_of(self.hooks@, n) == commands_of(before, n));
                    }
                }
                assert forall|n: Seq<char>| #[trigger] self.hooks@.contains_key(n) <==> old(self).hooks@.contains_key(n)
                    || later_has(all, k, n) by {
                    lemma_later_step(all, k, n);
                }
            }
        }
        proof {
            assert forall|n: Seq<char>| #[trigger] commands_of(self.hooks@, n) == commands_of(old(self).hooks@, n)
                + commands_of(included.hooks@, n) by {
                lemma_later_all(all, n);
            }
            assert forall|n: Seq<char>| #[trigger] self.hooks@.contains_key(n) <==> old(self).hooks@.contains_key(n)
                || included.hooks@.contains_key(n) by {
                lemma_later_all(all, n);
            }
        }
    }
}

/// Whether an entry at index `k` or later holds `name`.
pub open spec fn later_has(all: Seq<(String, Vec<HookCommand>)>, k: int, name: Seq<char>) -> bool {
    exists|j: int| k <= j < all.len() && #[trigger] all[j].0@ == name
}

/// The commands of the entry at index `k` or later that holds `name`, if any.
pub open spec fn later_commands(all: Seq<(String, Vec<HookCommand>)>, k: int, name: Seq<char>) -> Seq<HookCommand> {
    if later_has(all, k, name) {
        all[choose|j: int| k <= j < all.len() && #[trigger] all[j].0@ == name].1@
    } else {
        Seq::empty()
    }
}

proof fn lemma_later_step(all: Seq<(String, Vec<HookCommand>)>, k: int, name: Seq<char>)
    requires
        keys_distinct(all),
        0 <= k < all.len(),
    ensures
        later_has(all, k, name) <==> (all[k].0@ == name || later_has(all, k + 1, name)),
        all[k].0@ == name ==> later_commands(all, k, name) == all[k].1@ && !later_has(all, k + 1, name),
        all[k].0@ != name ==> later_commands(all, k, name) == later_commands(all, k + 1, name),
{
    if all[k].0@ == name {
        assert(all[k].0@ == name);
        let j = choose|j: int| k <= j < all.len() && #[trigger] all[j].0@ == name;
        assert(j == k) by {
            if j != k {
                assert(all[j].0@ != all[k].0@);
            }
        }
        if later_has(all, k + 1, name) {
            let j2 = choose|j: int| k + 1 <= j < all.len() && #[trigger] all[j].0@ == name;
            assert(all[j2].0@ != all[k].0@);
        }
    } else {
        if later_has(all, k, name) {
            let j = choose|j: int| k <= j < all.len() && #[trigger] all[j].0@ == name;
            assert(k + 1 <= j);
            assert(later_has(all, k + 1, name));
            let j2 = choose|j: int| k + 1 <= j < all.len() && #[trigger] all[j].0@ == name;
            assert(j == j2) by {
                if j != j2 {
                    assert(all[j].0@ != all[j2].0@);
                }
            }
        }
        if later_has(all, k + 1, name) {
            let j2 = choose|j: int| k + 1 <= j < all.len() && #[trigger] all[j].0@ == name;
            assert(k <= j2);
        }
    }
}

proof fn lemma_later_all(all: Seq<(String, Vec<HookCommand>)>, name: Seq<char>)
    requires
        keys_distinct(all),
    ensures
        later_has(all, 0, name) <==> entries_map(all).contains_key(name),
        later_commands(all, 0, name) == commands_of(entries_map(all), name),
{
    lemma_entries_map_index(all, name);
    if later_has(all, 0, name) {
        let j = choose|j: int| 0 <= j < all.len() && #[trigger] all[j].0@ == name;
        assert(entries_map(all)[name] == all[j].1);
    }
}

} // verus!
