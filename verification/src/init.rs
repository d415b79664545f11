//! Setting a repository up: finding its root, the starter configuration and the hook wrappers.
use vstd::prelude::*;
use crate::config::{git_hook_name_list, git_hook_names};
use crate::error::{ErrorView, HooxError};
use crate::text::{concat2, join, join_strings, views};

verus! {

/// The index of the first candidate that holds a `.git` directory.
pub open spec fn first_git_dir(has_git: Seq<bool>) -> Option<int>
    decreases has_git.len(),
{
    if has_git.len() == 0 {
        None
    } else {
        match first_git_dir(has_git.drop_last()) {
            Some(i) => Some(i),
            None => if has_git.last() {
                Some(has_git.len() - 1)
            } else {
                None
            },
        }
    }
}

/// The repository root among the working directory and its ancestors, listed
/// from the working directory up (`candidates[i]` holds a `.git` directory when
/// `has_git_dir[i]`): the nearest one that holds `.git`.
pub fn find_repo_root(candidates: &Vec<String>, has_git_dir: &Vec<bool>) -> (res: Result<String, HooxError>)
    requires
        candidates@.len() == has_git_dir@.len(),
    ensures
        match first_git_dir(has_git_dir@) {
            Some(i) => res matches Ok(r) && r@ == candidates@[i]@,
            None => res matches Err(e) && e@ == ErrorView::NotAGitRepository,
        },
{
    let mut i: usize = 0;
    while i < candidates.len()
        invariant
            i <= candidates@.len(),
            candidates@.len() == has_git_dir@.len(),
            first_git_dir(has_git_dir@.take(i as int)) is None,
        decreases candidates@.len() - i,
    {
        proof {
            assert(has_git_dir@.take(i + 1).drop_last() =~= has_git_dir@.take(i as int));
            lemma_first_git_dir_prefix(has_git_dir@, i as int + 1);
        }
        if has_git_dir[i] {
            return Ok(candidates[i].clone());
        }
        i = i + 1;
    }
    proof {
        assert(has_git_dir@.take(i as int) =~= has_git_dir@);
    }
    Err(HooxError::NotAGitRepository)
}

proof fn lemma_first_git_dir_prefix(s: Seq<bool>, n: int)
    requires
        0 <= n <= s.len(),
    ensures
        first_git_dir(s.take(n)) is Some ==> first_git_dir(s) == first_git_dir(s.take(n)),
    decreases s.len() - n,
{
    if n < s.len() {
        lemma_first_git_dir_prefix(s, n + 1);
        assert(s.take(n + 1).drop_last() =~= s.take(n));
    } else {
        assert(s.take(n) =~= s);
    }
}

/// The repository root is the nearest candidate holding `.git`: no earlier
/// candidate holds one; and there is no root only when none holds one.
pub proof fn law_nearest_git_dir(has_git: Seq<bool>)
    ensures
        first_git_dir(has_git) matches Some(i) ==> (0 <= i < has_git.len() && has_git[i] && forall|j: int|
            0 <= j < i ==> !#[trigger] has_git[j]),
        first_git_dir(has_git) is None ==> forall|j: int| 0 <= j < has_git.len() ==> !#[trigger] has_git[j],
    decreases has_git.len(),
{
    if has_git.len() > 0 {
        let t = has_git.drop_last();
        law_nearest_git_dir(t);
        assert forall|j: int| 0 <= j < t.len() implies t[j] == has_git[j] by {}
    }
}

/// The hooks section written when no template is given.
pub open spec fn default_template() -> Seq<char> {
    "hooks {\n  pre-commit = [\n    { command.inline = \"echo hello\" }\n  ]\n}\n"@
}

/// The comment lines that list the supported hooks, one `//   <hook>` per hook.
pub open spec fn hooks_comment() -> Seq<char> {
    join(git_hook_name_list().map_values(|h: Seq<char>| "//   "@ + h), "\n"@)
}

/// The starter `.hoox.conf`: the version, the default verbosity, the list of
/// supported hooks as comments, and the template (or a default hooks section).
pub open spec fn spec_config_content(version: Seq<char>, template: Option<Seq<char>>) -> Seq<char> {
    "version = \""@ + version + "\"\nverbosity = all\n\n// Available Git hooks:\n"@ + hooks_comment() + "\n\n"@
        + match template {
        Some(t) => t,
        None => default_template(),
    } + "\n"@
}

/// The starter configuration for a CLI of version `version`.
pub fn config_content(version: &str, template: Option<&str>) -> (res: String)
    ensures
        res@ == spec_config_content(
            version@,
            match template {
                Some(t) => Some(t@),
                None => None,
            },
        ),
{
    let names = git_hook_names();
    let mut lines: Vec<String> = Vec::new();
    let mut i: usize = 0;
    while i < names.len()
        invariant
            i <= names@.len(),
            names@.map_values(|s: &str| s@) == git_hook_name_list(),
            views(lines@) == git_hook_name_list().take(i as int).map_values(|h: Seq<char>| "//   "@ + h),
        decreases names@.len() - i,
    {
        let ghost before = lines@;
        lines.push(concat2("//   ", names[i]));
        proof {
            assert(names@[i as int]@ == git_hook_name_list()[i as int]);
            assert(views(lines@) =~= views(before).push("//   "@ + names@[i as int]@));
            assert(git_hook_name_list().take(i + 1).map_values(|h: Seq<char>| "//   "@ + h) =~= git_hook_name_list().take(
                i as int,
            ).map_values(|h: Seq<char>| "//   "@ + h).push("//   "@ + git_hook_name_list()[i as int]));
        }
        i = i + 1;
    }
    proof {
        assert(git_hook_name_list().take(names@.len() as int) =~= git_hook_name_list());
    }
    let comment = join_strings(&lines, "\n");
    let mut s = "version = \"".to_owned();
    s.append(version);
    s.append("\"\nverbosity = all\n\n// Available Git hooks:\n");
    s.append(comment.as_str());
    s.append("\n\n");
    match template {
        Some(t) => s.append(t),
        None => s.append("hooks {\n  pre-commit = [\n    { command.inline = \"echo hello\" }\n  ]\n}\n"),
    }
    s.append("\n");
    proof {
        assert(s@ =~= spec_config_content(
            version@,
            match template {
                Some(t) => Some(t@),
                None => None,
            },
        ));
    }
    s
}

/// The wrapper script installed for every hook; it hands the hook over to `hoox run`.
pub fn hook_wrapper_script() -> (res: &'static str)
    ensures
        res@ == "#!/bin/sh\nhoox run --ignore-missing \"${0##*/}\" \"$@\"\n"@,
{
    "#!/bin/sh\nhoox run --ignore-missing \"${0##*/}\" \"$@\"\n"
}

} // verus!
