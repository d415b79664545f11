//! Reports on a configuration: the problems `validate` finds and the summary `list` prints.
use vstd::prelude::*;
use crate::config::{HookCommand, Hoox, PatternList, commands_of};
use crate::error::{ErrorView, HooxError};
use crate::matching::{compile_regex, parse_glob, glob_parse_error, regex_compile_error};
use crate::strmap::{entries_map, keys_distinct, lemma_entries_map_index};
use crate::text::{concat2, decimal, dec, extend_strings, first_line, first_line_of, join, join_strings, views};
use vstd::string::*;

verus! {

/// The label of the command at `index` of `hook` in validation messages: `hooks.<hook>[<index>]`.
pub open spec fn spec_validation_label(hook: Seq<char>, index: nat) -> Seq<char> {
    "hooks."@ + hook + "["@ + dec(index) + "]"@
}

/// The validation label of a command.
pub fn validation_label(hook: &str, index: usize) -> (res: String)
    ensures
        res@ == spec_validation_label(hook@, index as nat),
{
    let mut s = "hooks.".to_owned();
    s.append(hook);
    s.append("[");
    let n = decimal(index as u64);
    s.append(n.as_str());
    s.append("]");
    proof {
        assert(s@ =~= spec_validation_label(hook@, index as nat));
    }
    s
}

/// One message per glob pattern that does not parse:
/// `<label>: invalid glob '<pattern>': <error>`.
pub open spec fn glob_messages(label: Seq<char>, pats: Seq<Seq<char>>) -> Seq<Seq<char>>
    decreases pats.len(),
{
    if pats.len() == 0 {
        Seq::empty()
    } else {
        glob_messages(label, pats.drop_last()) + match glob_parse_error(pats.last()) {
            Some(m) => seq![label + ": invalid glob '"@ + pats.last() + "': "@ + m],
            None => Seq::empty(),
        }
    }
}

/// One message per regex pattern that does not compile:
/// `<label><what><pattern>': <error>`.
pub open spec fn regex_messages(label: Seq<char>, what: Seq<char>, pats: Seq<Seq<char>>) -> Seq<Seq<char>>
    decreases pats.len(),
{
    if pats.len() == 0 {
        Seq::empty()
    } else {
        regex_messages(label, what, pats.drop_last()) + match regex_compile_error(pats.last()) {
            Some(m) => seq![label + what + pats.last() + "': "@ + m],
            None => Seq::empty(),
        }
    }
}

/// The problem with a command's specification: both or neither of `inline`
/// and `file`, or a script file that does not exist.
pub open spec fn command_spec_messages(label: Seq<char>, cmd: HookCommand, file_exists: bool) -> Seq<Seq<char>> {
    match (cmd.command.inline, cmd.command.file) {
        (Some(_), Some(_)) => seq![label + ": both inline and file set"@],
        (None, None) => seq![label + ": neither inline nor file set"@],
        (_, Some(f)) => if file_exists {
            Seq::empty()
        } else {
            seq![label + ": file not found: "@ + f@]
        },
        _ => Seq::empty(),
    }
}

/// The problems with a command's glob and regex file patterns.
pub open spec fn file_pattern_messages(label: Seq<char>, cmd: HookCommand) -> Seq<Seq<char>> {
    match cmd.files {
        Some(sel) => (match sel.glob {
            Some(pl) => glob_messages(label, pl.pattern_seq()),
            None => Seq::empty(),
        }) + (match sel.regex {
            Some(pl) => regex_messages(label, ": invalid regex '"@, pl.pattern_seq()),
            None => Seq::empty(),
        }),
        None => Seq::empty(),
    }
}

/// The problem with a command's branch pattern.
pub open spec fn branch_messages(label: Seq<char>, cmd: HookCommand) -> Seq<Seq<char>> {
    match cmd.branch {
        Some(p) => regex_messages(label, ": invalid branch regex '"@, seq![p@]),
        None => Seq::empty(),
    }
}

/// The problems with a command's `env.keep` patterns.
pub open spec fn keep_messages(label: Seq<char>, cmd: HookCommand) -> Seq<Seq<char>> {
    match cmd.env {
        Some(ec) => match ec.keep {
            Some(k) => regex_messages(label, ": invalid keep regex '"@, views(k@)),
            None => Seq::empty(),
        },
        None => Seq::empty(),
    }
}

/// The problem of an empty `program`.
pub open spec fn program_messages(label: Seq<char>, cmd: HookCommand) -> Seq<Seq<char>> {
    match cmd.program {
        Some(p) => if p@.len() == 0 {
            seq![label + ": program array is empty"@]
        } else {
            Seq::empty()
        },
        None => Seq::empty(),
    }
}

/// The problems of one command, in the order they are checked: its command
/// specification, its file patterns, its branch pattern, its `env.keep`
/// patterns, and an empty `program`.
pub open spec fn spec_validate_command(label: Seq<char>, cmd: HookCommand, file_exists: bool) -> Seq<Seq<char>> {
    command_spec_messages(label, cmd, file_exists) + file_pattern_messages(label, cmd) + branch_messages(label, cmd)
        + keep_messages(label, cmd) + program_messages(label, cmd)
}

fn push_glob_messages(out: &mut Vec<String>, label: &str, pats: &PatternList)
    ensures
        views(final(out)@) == views(old(out)@) + glob_messages(label@, pats.pattern_seq()),
{
    let list = pats.patterns();
    let ghost all = pats.pattern_seq();
    let mut i: usize = 0;
    while i < list.len()
        invariant
            i <= list@.len(),
            list@.map_values(|s: &str| s@) == all,
            views(out@) == views(old(out)@) + glob_messages(label@, all.take(i as int)),
        decreases list@.len() - i,
    {
        proof {
            assert(all.take(i + 1).drop_last() =~= all.take(i as int));
            assert(all.take(i + 1).last() == list@[i as int]@);
        }
        let ghost before = out@;
        match parse_glob(list[i]) {
            Ok(_) => {
                proof {
                    assert(views(out@) =~= views(old(out)@) + glob_messages(label@, all.take(i + 1)));
                }
            },
            Err(m) => {
                let mut s = concat2(label, ": invalid glob '");
                s.append(list[i]);
                s.append("': ");
                s.append(m.as_str());
                out.push(s);
                proof {
                    assert(views(out@) =~= views(before).push(s@));
                    assert(views(out@) =~= views(old(out)@) + glob_messages(label@, all.take(i + 1)));
                }
            },
        }
        i = i + 1;
    }
    proof {
        assert(all.take(list@.len() as int) =~= all);
    }
}

fn push_regex_messages(out: &mut Vec<String>, label: &str, what: &str, pats: &Vec<&str>)
    ensures
        views(final(out)@) == views(old(out)@) + regex_messages(label@, what@, pats@.map_values(|s: &str| s@)),
{
    let ghost all = pats@.map_values(|s: &str| s@);
    let mut i: usize = 0;
    while i < pats.len()
        invariant
            i <= pats@.len(),
            pats@.map_values(|s: &str| s@) == all,
            views(out@) == views(old(out)@) + regex_messages(label@, what@, all.take(i as int)),
        decreases pats@.len() - i,
    {
        proof {
            assert(all.take(i + 1).drop_last() =~= all.take(i as int));
            assert(all.take(i + 1).last() == pats@[i as int]@);
        }
        let ghost before = out@;
        match compile_regex(pats[i]) {
            Ok(_) => {
                proof {
                    assert(views(out@) =~= views(old(out)@) + regex_messages(label@, what@, all.take(i + 1)));
                }
            },
            Err(m) => {
                let mut s = concat2(label, what);
                s.append(pats[i]);
                s.append("': ");
                s.append(m.as_str());
                out.push(s);
                proof {
                    assert(views(out@) =~= views(before).push(s@));
                    assert(views(out@) =~= views(old(out)@) + regex_messages(label@, what@, all.take(i + 1)));
                }
            },
        }
        i = i + 1;
    }
    proof {
        assert(all.take(pats@.len() as int) =~= all);
    }
}

fn borrow_all(v: &Vec<String>) -> (res: Vec<&str>)
    ensures
        res@.map_values(|s: &str| s@) == views(v@),
{
    let mut out: Vec<&str> = Vec::new();
    let mut i: usize = 0;
    while i < v.len()
        invariant
            i <= v@.len(),
            out@.map_values(|s: &str| s@) == views(v@.take(i as int)),
        decreases v@.len() - i,
    {
        let ghost before = out@;
        out.push(v[i].as_str());
        proof {
            assert(out@.map_values(|s: &str| s@) =~= before.map_values(|s: &str| s@).push(v@[i as int]@));
            assert(views(v@.take(i + 1)) =~= views(v@.take(i as int)).push(v@[i as int]@));
        }
        i = i + 1;
    }
    proof {
        assert(v@.take(v@.len() as int) =~= v@);
    }
    out
}

/// The problems of one command; `file_exists` tells whether its script file
/// (when it names one) exists.
pub fn validate_command(label: &str, cmd: &HookCommand, file_exists: bool) -> (res: Vec<String>)
    ensures
        views(res@) == spec_validate_command(label@, *cmd, file_exists),
{
    let mut out: Vec<String> = Vec::new();
    match (&cmd.command.inline, &cmd.command.file) {
        (Some(_), Some(_)) => out.push(concat2(label, ": both inline and file set")),
        (None, None) => out.push(concat2(label, ": neither inline nor file set")),
        (_, Some(f)) => {
            if !file_exists {
                let mut s = concat2(label, ": file not found: ");
                s.append(f.as_str());
                out.push(s);
            }
        },
        _ => {},
    }
    let ghost after_spec = views(out@);
    proof {
        assert(after_spec =~= command_spec_messages(label@, *cmd, file_exists));
    }
    if let Some(sel) = &cmd.files {
        if let Some(pl) = &sel.glob {
            push_glob_messages(&mut out, label, pl);
        }
        if let Some(pl) = &sel.regex {
            let pats = pl.patterns();
            push_regex_messages(&mut out, label, ": invalid regex '", &pats);
        }
    }
    let ghost after_files = views(out@);
    proof {
        assert(after_files =~= after_spec + file_pattern_messages(label@, *cmd));
    }
    if let Some(p) = &cmd.branch {
        let mut one: Vec<&str> = Vec::new();
        one.push(p.as_str());
        proof {
            assert(one@.map_values(|s: &str| s@) =~= seq![p@]);
        }
        push_regex_messages(&mut out, label, ": invalid branch regex '", &one);
    }
    let ghost after_branch = views(out@);
    proof {
        assert(after_branch =~= after_files + branch_messages(label@, *cmd));
    }
    if let Some(ec) = &cmd.env {
        if let Some(k) = &ec.keep {
            let pats = borrow_all(k);
            push_regex_messages(&mut out, label, ": invalid keep regex '", &pats);
        }
    }
    let ghost after_keep = views(out@);
    proof {
        assert(after_keep =~= after_branch + keep_messages(label@, *cmd));
    }
    if let Some(p) = &cmd.program {
        if p.len() == 0 {
            out.push(concat2(label, ": program array is empty"));
        }
    }
    proof {
        assert(views(out@) =~= after_keep + program_messages(label@, *cmd));
        assert(views(out@) =~= spec_validate_command(label@, *cmd, file_exists));
    }
    out
}

/// The result of a validation: success when nothing was found, else an error
/// counting the problems.
pub fn validation_result(errors: &Vec<String>) -> (res: Result<(), HooxError>)
    ensures
        errors@.len() == 0 ==> res is Ok,
        errors@.len() > 0 ==> (res matches Err(e) && e@ == (ErrorView::ValidationFailed { count: errors@.len() })),
{
    if errors.len() == 0 {
        Ok(())
    } else {
        Err(HooxError::ValidationFailed { count: errors.len() })
    }
}


/// The message for a glob pattern, when it does not parse.
spec fn glob_msg(label: Seq<char>, p: Seq<char>) -> Option<Seq<char>> {
    match glob_parse_error(p) {
        Some(m) => Some(label + ": invalid glob '"@ + p + "': "@ + m),
        None => None,
    }
}

/// The message for a regex pattern, when it does not compile.
spec fn regex_msg(label: Seq<char>, what: Seq<char>, p: Seq<char>) -> Option<Seq<char>> {
    match regex_compile_error(p) {
        Some(m) => Some(label + what + p + "': "@ + m),
        None => None,
    }
}

proof fn lemma_glob_messages(label: Seq<char>, pats: Seq<Seq<char>>, msg: Seq<char>)
    ensures
        glob_messages(label, pats).contains(msg) <==> exists|i: int|
            0 <= i < pats.len() && #[trigger] glob_msg(label, pats[i]) == Some(msg),
    decreases pats.len(),
{
    if pats.len() > 0 {
        let t = pats.drop_last();
        lemma_glob_messages(label, t, msg);
        let last: Seq<Seq<char>> = match glob_parse_error(pats.last()) {
            Some(m) => seq![label + ": invalid glob '"@ + pats.last() + "': "@ + m],
            None => Seq::empty(),
        };
        lemma_contains_concat(glob_messages(label, t), last, msg);
        if last.contains(msg) {
            assert(last[0] == msg);
            assert(glob_msg(label, pats[pats.len() - 1]) == Some(msg));
        }
        if exists|i: int| 0 <= i < pats.len() && #[trigger] glob_msg(label, pats[i]) == Some(msg) {
            let i = choose|i: int| 0 <= i < pats.len() && #[trigger] glob_msg(label, pats[i]) == Some(msg);
            if i < t.len() {
                assert(t[i] == pats[i]);
            } else {
                assert(last[0] == msg);
            }
        }
        if exists|i: int| 0 <= i < t.len() && #[trigger] glob_msg(label, t[i]) == Some(msg) {
            let i = choose|i: int| 0 <= i < t.len() && #[trigger] glob_msg(label, t[i]) == Some(msg);
            assert(pats[i] == t[i]);
        }
    }
}

proof fn lemma_regex_messages(label: Seq<char>, what: Seq<char>, pats: Seq<Seq<char>>, msg: Seq<char>)
    ensures
        regex_messages(label, what, pats).contains(msg) <==> exists|i: int|
            0 <= i < pats.len() && #[trigger] regex_msg(label, what, pats[i]) == Some(msg),
    decreases pats.len(),
{
    if pats.len() > 0 {
        let t = pats.drop_last();
        lemma_regex_messages(label, what, t, msg);
        let last: Seq<Seq<char>> = match regex_compile_error(pats.last()) {
            Some(m) => seq![label + what + pats.last() + "': "@ + m],
            None => Seq::empty(),
        };
        lemma_contains_concat(regex_messages(label, what, t), last, msg);
        if last.contains(msg) {
            assert(last[0] == msg);
            assert(regex_msg(label, what, pats[pats.len() - 1]) == Some(msg));
        }
        if exists|i: int| 0 <= i < pats.len() && #[trigger] regex_msg(label, what, pats[i]) == Some(msg) {
            let i = choose|i: int| 0 <= i < pats.len() && #[trigger] regex_msg(label, what, pats[i]) == Some(msg);
            if i < t.len() {
                assert(t[i] == pats[i]);
            } else {
                assert(last[0] == msg);
            }
        }
        if exists|i: int| 0 <= i < t.len() && #[trigger] regex_msg(label, what, t[i]) == Some(msg) {
            let i = choose|i: int| 0 <= i < t.len() && #[trigger] regex_msg(label, what, t[i]) == Some(msg);
            assert(pats[i] == t[i]);
        }
    }
}

proof fn lemma_validate_parts(label: Seq<char>, cmd: HookCommand, file_exists: bool, msg: Seq<char>)
    ensures
        spec_validate_command(label, cmd, file_exists).contains(msg) <==> (command_spec_messages(
            label,
            cmd,
            file_exists,
        ).contains(msg) || file_pattern_messages(label, cmd).contains(msg) || branch_messages(label, cmd).contains(msg)
            || keep_messages(label, cmd).contains(msg) || program_messages(label, cmd).contains(msg)),
{
    let a = command_spec_messages(label, cmd, file_exists);
    let b = file_pattern_messages(label, cmd);
    let c = branch_messages(label, cmd);
    let d = keep_messages(label, cmd);
    let e = program_messages(label, cmd);
    lemma_contains_concat(a, b, msg);
    lemma_contains_concat(a + b, c, msg);
    lemma_contains_concat(a + b + c, d, msg);
    lemma_contains_concat(a + b + c + d, e, msg);
}

/// Every pattern of a command that does not compile is reported, with the
/// outside crate's message, whatever the form of its list: each glob and each
/// regex of `files` (a single pattern or a list), the `branch` pattern, and
/// each `env.keep` pattern.
pub proof fn law_every_bad_pattern_reported(label: Seq<char>, cmd: HookCommand, file_exists: bool, p: Seq<char>)
    ensures
        (cmd.files matches Some(sel) ==> (sel.glob matches Some(pl) ==> (pl.pattern_seq().contains(p) ==> (
        glob_parse_error(p) matches Some(m) ==> spec_validate_command(label, cmd, file_exists).contains(
            label + ": invalid glob '"@ + p + "': "@ + m,
        ))))),
        (cmd.files matches Some(sel) ==> (sel.regex matches Some(pl) ==> (pl.pattern_seq().contains(p) ==> (
        regex_compile_error(p) matches Some(m) ==> spec_validate_command(label, cmd, file_exists).contains(
            label + ": invalid regex '"@ + p + "': "@ + m,
        ))))),
        (cmd.branch matches Some(b) ==> (b@ == p ==> (regex_compile_error(p) matches Some(m)
            ==> spec_validate_command(label, cmd, file_exists).contains(
            label + ": invalid branch regex '"@ + p + "': "@ + m,
        )))),
        (cmd.env matches Some(ec) ==> (ec.keep matches Some(k) ==> (views(k@).contains(p) ==> (
        regex_compile_error(p) matches Some(m) ==> spec_validate_command(label, cmd, file_exists).contains(
            label + ": invalid keep regex '"@ + p + "': "@ + m,
        ))))),
{
    if let Some(sel) = cmd.files {
        if let Some(pl) = sel.glob {
            if pl.pattern_seq().contains(p) {
                if let Some(m) = glob_parse_error(p) {
                    let msg = label + ": invalid glob '"@ + p + "': "@ + m;
                    let i = choose|i: int| 0 <= i < pl.pattern_seq().len() && pl.pattern_seq()[i] == p;
                    assert(glob_msg(label, pl.pattern_seq()[i]) == Some(msg));
                    lemma_glob_messages(label, pl.pattern_seq(), msg);
                    let rg = match sel.regex {
                        Some(r) => regex_messages(label, ": invalid regex '"@, r.pattern_seq()),
                        None => Seq::empty(),
                    };
                    lemma_contains_concat(glob_messages(label, pl.pattern_seq()), rg, msg);
                    lemma_validate_parts(label, cmd, file_exists, msg);
                }
            }
        }
        if let Some(pl) = sel.regex {
            if pl.pattern_seq().contains(p) {
                if let Some(m) = regex_compile_error(p) {
                    let msg = label + ": invalid regex '"@ + p + "': "@ + m;
                    let i = choose|i: int| 0 <= i < pl.pattern_seq().len() && pl.pattern_seq()[i] == p;
                    assert(regex_msg(label, ": invalid regex '"@, pl.pattern_seq()[i]) == Some(msg));
                    lemma_regex_messages(label, ": invalid regex '"@, pl.pattern_seq(), msg);
                    let gl = match sel.glob {
                        Some(g) => glob_messages(label, g.pattern_seq()),
                        None => Seq::empty(),
                    };
                    lemma_contains_concat(gl, regex_messages(label, ": invalid regex '"@, pl.pattern_seq()), msg);
                    lemma_validate_parts(label, cmd, file_exists, msg);
                }
            }
        }
    }
    if let Some(b) = cmd.branch {
        if b@ == p {
            if let Some(m) = regex_compile_error(p) {
                let msg = label + ": invalid branch regex '"@ + p + "': "@ + m;
                assert(regex_msg(label, ": invalid branch regex '"@, seq![b@][0]) == Some(msg));
                lemma_regex_messages(label, ": invalid branch regex '"@, seq![b@], msg);
                lemma_validate_parts(label, cmd, file_exists, msg);
            }
        }
    }
    if let Some(ec) = cmd.env {
        if let Some(k) = ec.keep {
            if views(k@).contains(p) {
                if let Some(m) = regex_compile_error(p) {
                    let msg = label + ": invalid keep regex '"@ + p + "': "@ + m;
                    let i = choose|i: int| 0 <= i < views(k@).len() && views(k@)[i] == p;
                    assert(regex_msg(label, ": invalid keep regex '"@, views(k@)[i]) == Some(msg));
                    lemma_regex_messages(label, ": invalid keep regex '"@, views(k@), msg);
                    lemma_validate_parts(label, cmd, file_exists, msg);
                }
            }
        }
    }
}

/// A command's specification problems are reported: both or neither of
/// `inline` and `file`, a script file that does not exist, and an empty
/// `program`.
pub proof fn law_command_problems_reported(label: Seq<char>, cmd: HookCommand, file_exists: bool)
    ensures
        (cmd.command.inline is Some && cmd.command.file is Some) ==> spec_validate_command(
            label,
            cmd,
            file_exists,
        ).contains(label + ": both inline and file set"@),
        (cmd.command.inline is None && cmd.command.file is None) ==> spec_validate_command(
            label,
            cmd,
            file_exists,
        ).contains(label + ": neither inline nor file set"@),
        (cmd.command.inline is None && !file_exists) ==> (cmd.command.file matches Some(f)
            ==> spec_validate_command(label, cmd, file_exists).contains(label + ": file not found: "@ + f@)),
        (cmd.program matches Some(pr) && pr@.len() == 0) ==> spec_validate_command(label, cmd, file_exists).contains(
            label + ": program array is empty"@,
        ),
{
    let a = command_spec_messages(label, cmd, file_exists);
    if a.len() == 1 {
        lemma_validate_parts(label, cmd, file_exists, a[0]);
    }
    if cmd.program matches Some(pr) && pr@.len() == 0 {
        let msg = label + ": program array is empty"@;
        assert(program_messages(label, cmd)[0] == msg);
        lemma_validate_parts(label, cmd, file_exists, msg);
    }
}

/// A command that sets only an inline script, and none of `files`, `branch`,
/// `env` and `program`, has no problems.
pub proof fn law_clean_command_has_no_problems(label: Seq<char>, cmd: HookCommand, file_exists: bool)
    requires
        cmd.command.inline is Some,
        cmd.command.file is None,
        cmd.files is None,
        cmd.branch is None,
        cmd.env is None,
        cmd.program is None,
    ensures
        spec_validate_command(label, cmd, file_exists).len() == 0,
{
}

/// The problems of the first `n` commands of one hook.
pub open spec fn hook_messages(name: Seq<char>, cmds: Seq<HookCommand>, exists: Seq<bool>, n: nat) -> Seq<Seq<char>>
    decreases n,
{
    if n == 0 {
        Seq::empty()
    } else {
        hook_messages(name, cmds, exists, (n - 1) as nat) + spec_validate_command(
            spec_validation_label(name, (n - 1) as nat),
            cmds[n - 1],
            exists[n - 1],
        )
    }
}

/// The problems of the first `k` hooks of the table, hook after hook.
pub open spec fn table_messages(entries: Seq<(String, Vec<HookCommand>)>, exists: Seq<Vec<bool>>, k: nat) -> Seq<
    Seq<char>,
>
    decreases k,
{
    if k == 0 {
        Seq::empty()
    } else {
        table_messages(entries, exists, (k - 1) as nat) + hook_messages(
            entries[k - 1].0@,
            entries[k - 1].1@,
            exists[k - 1]@,
            entries[k - 1].1@.len(),
        )
    }
}

/// Whether `exists` has one row per hook entry and one flag per command.
pub open spec fn exists_shape(entries: Seq<(String, Vec<HookCommand>)>, exists: Seq<Vec<bool>>) -> bool {
    &&& exists.len() == entries.len()
    &&& forall|k: int| 0 <= k < entries.len() ==> (#[trigger] exists[k])@.len() == entries[k].1@.len()
}

/// All problems of a configuration, hook after hook in the order of
/// `hooks.entries()`; `file_exists[k][i]` tells whether the script file of
/// command `i` of hook `k` exists.
pub fn validate_hooks(hoox: &Hoox, file_exists: &Vec<Vec<bool>>) -> (res: Vec<String>)
    requires
        exists_shape(hoox.hooks.entry_seq(), file_exists@),
    ensures
        views(res@) == table_messages(hoox.hooks.entry_seq(), file_exists@, hoox.hooks.entry_seq().len()),
{
    let entries = hoox.hooks.entries();
    let mut out: Vec<String> = Vec::new();
    let mut k: usize = 0;
    while k < entries.len()
        invariant
            k <= entries@.len(),
            entries@ == hoox.hooks.entry_seq(),
            exists_shape(entries@, file_exists@),
            views(out@) == table_messages(entries@, file_exists@, k as nat),
        decreases entries@.len() - k,
    {
        let name = &entries[k].0;
        let cmds = &entries[k].1;
        let row = &file_exists[k];
        let ghost base = views(out@);
        let mut i: usize = 0;
        while i < cmds.len()
            invariant
                i <= cmds@.len(),
                k < entries@.len(),
                cmds@ == entries@[k as int].1@,
                name@ == entries@[k as int].0@,
                row@ == file_exists@[k as int]@,
                row@.len() == cmds@.len(),
                views(out@) == base + hook_messages(name@, cmds@, row@, i as nat),
            decreases cmds@.len() - i,
        {
            let label = validation_label(name.as_str(), i);
            let msgs = validate_command(label.as_str(), &cmds[i], row[i]);
            extend_strings(&mut out, &msgs);
            proof {
                assert(views(out@) =~= base + hook_messages(name@, cmds@, row@, (i + 1) as nat));
            }
            i = i + 1;
        }
        proof {
            assert(views(out@) =~= table_messages(entries@, file_exists@, (k + 1) as nat));
        }
        k = k + 1;
    }
    out
}


/// Lexicographic order on character sequences, by code point: the order of
/// `String`'s `Ord`, since UTF-8 keeps the order of code points.
pub open spec fn lex_lt(a: Seq<char>, b: Seq<char>) -> bool
    decreases a.len(),
{
    if a.len() == 0 {
        b.len() > 0
    } else if b.len() == 0 {
        false
    } else if a[0] != b[0] {
        (a[0] as u32) < (b[0] as u32)
    } else {
        lex_lt(a.drop_first(), b.drop_first())
    }
}

proof fn lemma_lex_lt_asymmetric(a: Seq<char>, b: Seq<char>)
    ensures
        lex_lt(a, b) ==> !lex_lt(b, a),
    decreases a.len(),
{
    if a.len() > 0 && b.len() > 0 && a[0] == b[0] {
        lemma_lex_lt_asymmetric(a.drop_first(), b.drop_first());
    }
}

/// Whether `a` comes before `b` in lexicographic order.
pub fn str_lt(a: &str, b: &str) -> (res: bool)
    ensures
        res == lex_lt(a@, b@),
{
    let n = a.unicode_len();
    let m = b.unicode_len();
    let mut i: usize = 0;
    proof {
        assert(a@.skip(0) =~= a@);
        assert(b@.skip(0) =~= b@);
    }
    while i < n && i < m
        invariant
            n == a@.len(),
            m == b@.len(),
            i <= n,
            i <= m,
            lex_lt(a@, b@) == lex_lt(a@.skip(i as int), b@.skip(i as int)),
        decreases n - i,
    {
        let x = a.get_char(i);
        let y = b.get_char(i);
        if x != y {
            return (x as u32) < (y as u32);
        }
        proof {
            assert(a@.skip(i as int).drop_first() =~= a@.skip(i + 1));
            assert(b@.skip(i as int).drop_first() =~= b@.skip(i + 1));
        }
        i = i + 1;
    }
    i < m && i == n
}

/// Each element is not after its successor.
pub open spec fn sorted_adjacent(s: Seq<Seq<char>>) -> bool {
    forall|i: int| 0 <= i < s.len() - 1 ==> !lex_lt(#[trigger] s[i + 1], s[i])
}

/// The strings in lexicographic order.
pub fn sort_strings(v: &Vec<String>) -> (res: Vec<String>)
    ensures
        sorted_adjacent(views(res@)),
        views(res@).to_multiset() == views(v@).to_multiset(),
{
    broadcast use vstd::seq_lib::to_multiset_insert, vstd::seq_lib::group_to_multiset_ensures;
    let mut out: Vec<String> = Vec::new();
    let mut k: usize = 0;
    proof {
        assert(views(out@) =~= views(v@.take(0)));
    }
    while k < v.len()
        invariant
            k <= v@.len(),
            sorted_adjacent(views(out@)),
            views(out@).to_multiset() == views(v@.take(k as int)).to_multiset(),
        decreases v@.len() - k,
    {
        let x = v[k].clone();
        let mut p: usize = 0;
        while p < out.len() && !str_lt(x.as_str(), out[p].as_str())
            invariant
                p <= out@.len(),
                forall|j: int| 0 <= j < p ==> !lex_lt(x@, #[trigger] out@[j]@),
            decreases out@.len() - p,
        {
            p = p + 1;
        }
        let ghost before = views(out@);
        out.insert(p, x);
        proof {
            assert(views(out@) =~= before.insert(p as int, x@));
            before.insert_ensures(p as int, x@);
            let after = views(out@);
            assert forall|i: int| 0 <= i < after.len() - 1 implies !lex_lt(#[trigger] after[i + 1], after[i]) by {
                if i + 1 < p {
                    assert(after[i + 1] == before[i + 1] && after[i] == before[i]);
                } else if i + 1 == p {
                    assert(after[i + 1] == x@ && after[i] == before[i]);
                    assert(!lex_lt(x@, out@[i]@));
                } else if i == p {
                    assert(after[i] == x@ && after[i + 1] == before[i]);
                    assert(lex_lt(x@, before[i]));
                    lemma_lex_lt_asymmetric(x@, before[i]);
                } else {
                    assert(after[i] == before[i - 1] && after[i + 1] == before[i]);
                }
            }
            let prefix = views(v@.take(k as int));
            assert(views(v@.take(k + 1)) =~= prefix.push(x@));
            assert(prefix.push(x@) =~= prefix.insert(prefix.len() as int, x@));
            vstd::seq_lib::to_multiset_insert(before, p as int, x@);
            vstd::seq_lib::to_multiset_insert(prefix, prefix.len() as int, x@);
        }
        k = k + 1;
    }
    proof {
        assert(v@.take(v@.len() as int) =~= v@);
    }
    out
}


/// The length in bytes of the UTF-8 encoding of `s`.
pub open spec fn utf8_len(s: Seq<char>) -> nat {
    vstd::utf8::encode_utf8(s).len()
}

proof fn lemma_encode_push(s: Seq<char>, c: char)
    ensures
        vstd::utf8::encode_utf8(s.push(c)) == vstd::utf8::encode_utf8(s) + vstd::utf8::encode_scalar(c as u32),
    decreases s.len(),
{
    if s.len() == 0 {
        assert(s.push(c).drop_first() =~= Seq::<char>::empty());
        assert(vstd::utf8::encode_utf8(Seq::<char>::empty()) =~= Seq::<u8>::empty());
        assert(s.push(c)[0] == c);
        assert(vstd::utf8::encode_utf8(s.push(c)) =~= vstd::utf8::encode_scalar(c as u32));
    } else {
        assert(s.push(c).drop_first() =~= s.drop_first().push(c));
        lemma_encode_push(s.drop_first(), c);
        assert(vstd::utf8::encode_utf8(s.push(c)) =~= vstd::utf8::encode_utf8(s) + vstd::utf8::encode_scalar(c as u32));
    }
}

proof fn lemma_utf8_len_take_increasing(s: Seq<char>, i: int, j: int)
    requires
        0 <= i < j <= s.len(),
    ensures
        utf8_len(s.take(i)) < utf8_len(s.take(j)),
    decreases j - i,
{
    assert(s.take(j) =~= s.take(j - 1).push(s[j - 1]));
    lemma_encode_push(s.take(j - 1), s[j - 1]);
    if i < j - 1 {
        lemma_utf8_len_take_increasing(s, i, j - 1);
    }
}

/// Whether the first 57 bytes of a long line end on a character boundary, so
/// that the line can be cut there; short lines need no cut.
pub open spec fn preview_cut_ok(line: Seq<char>) -> bool {
    utf8_len(line) <= 60 || exists|k: int| 0 <= k <= line.len() && utf8_len(line.take(k)) == 57
}

/// The preview of an inline script: its first line, cut to its first 57 bytes
/// followed by `...` when it is longer than 60 bytes.
pub open spec fn inline_preview(script: Seq<char>) -> Seq<char> {
    let line = first_line(script);
    if utf8_len(line) > 60 {
        line.take(choose|k: int| 0 <= k <= line.len() && utf8_len(line.take(k)) == 57) + "..."@
    } else {
        line
    }
}

/// The preview of an inline script.
fn preview(script: &str) -> (res: String)
    requires
        preview_cut_ok(first_line(script@)),
    ensures
        res@ == inline_preview(script@),
{
    let line = first_line_of(script);
    let l = line.as_str();
    if l.as_bytes().len() <= 60 {
        return line;
    }
    let n = l.unicode_len();
    let mut k: usize = 0;
    proof {
        assert(l@.subrange(0, 0) =~= Seq::<char>::empty());
    }
    while k < n && l.substring_char(0, k).as_bytes().len() < 57
        invariant
            n == l@.len(),
            l@ == first_line(script@),
            utf8_len(l@) > 60,
            k <= n,
            forall|j: int| 0 <= j < k ==> utf8_len(#[trigger] l@.take(j)) < 57,
        decreases n - k,
    {
        proof {
            assert(l@.subrange(0, k as int) =~= l@.take(k as int));
        }
        k = k + 1;
    }
    proof {
        assert(l@.take(n as int) =~= l@);
        assert(l@.subrange(0, k as int) =~= l@.take(k as int));
        let k0 = choose|k: int| 0 <= k <= l@.len() && utf8_len(l@.take(k)) == 57;
        assert(utf8_len(l@.take(k as int)) >= 57);
        if k0 < k {
            assert(utf8_len(l@.take(k0)) < 57);
        } else if k0 > k {
            lemma_utf8_len_take_increasing(l@, k as int, k0);
        }
        assert(k0 == k);
    }
    let mut s = l.substring_char(0, k).to_owned();
    s.append("...");
    s
}

/// Whether the inline script's preview can be cut safely.
pub fn preview_ok(script: &str) -> (res: bool)
    ensures
        res == preview_cut_ok(first_line(script@)),
{
    let line = first_line_of(script);
    let l = line.as_str();
    if l.as_bytes().len() <= 60 {
        return true;
    }
    let n = l.unicode_len();
    let mut k: usize = 0;
    loop
        invariant
            n == l@.len(),
            l@ == first_line(script@),
            utf8_len(l@) > 60,
            k <= n,
            forall|j: int| 0 <= j < k ==> utf8_len(#[trigger] l@.take(j)) != 57,
        decreases n - k,
    {
        proof {
            assert(l@.subrange(0, k as int) =~= l@.take(k as int));
        }
        if l.substring_char(0, k).as_bytes().len() == 57 {
            proof {
                assert(utf8_len(l@.take(k as int)) == 57);
                assert(l@ == first_line(script@));
            }
            return true;
        }
        proof {
            assert(utf8_len(l@.take(k as int)) != 57);
        }
        if k == n {
            proof {
                assert(l@ == first_line(script@));
                assert(utf8_len(l@) > 60);
                assert forall|j: int| 0 <= j <= l@.len() implies utf8_len(#[trigger] l@.take(j)) != 57 by {
                    if j < k {
                        assert(utf8_len(l@.take(j)) != 57);
                    }
                }
            }
            return false;
        }
        k = k + 1;
    }
}

/// The tags of a command's active features, in a fixed order: files,
/// parallel, cwd, timeout, branch, cache, retry, env.
pub open spec fn spec_tags(cmd: HookCommand) -> Seq<Seq<char>> {
    (if cmd.files matches Some(sel) && (sel.glob is Some || sel.regex is Some) { seq!["files"@] } else { Seq::empty() })
        + (if cmd.parallel == Some(true) { seq!["parallel"@] } else { Seq::empty() })
        + (if cmd.cwd is Some { seq!["cwd"@] } else { Seq::empty() })
        + (if cmd.timeout is Some { seq!["timeout"@] } else { Seq::empty() })
        + (if cmd.branch is Some { seq!["branch"@] } else { Seq::empty() })
        + (if cmd.cache == Some(true) { seq!["cache"@] } else { Seq::empty() })
        + (if cmd.retry is Some { seq!["retry"@] } else { Seq::empty() })
        + (if cmd.env is Some { seq!["env"@] } else { Seq::empty() })
}

proof fn lemma_contains_concat(a: Seq<Seq<char>>, b: Seq<Seq<char>>, x: Seq<char>)
    ensures
        (a + b).contains(x) <==> a.contains(x) || b.contains(x),
{
    if (a + b).contains(x) {
        let i = choose|i: int| 0 <= i < (a + b).len() && (a + b)[i] == x;
        if i < a.len() {
            assert(a[i] == x);
        } else {
            assert(b[i - a.len()] == x);
        }
    }
    if a.contains(x) {
        let i = choose|i: int| 0 <= i < a.len() && a[i] == x;
        assert((a + b)[i] == x);
    }
    if b.contains(x) {
        let i = choose|i: int| 0 <= i < b.len() && b[i] == x;
        assert((a + b)[a.len() + i] == x);
    }
}

/// The part of the tags that names `tag` when `on`.
spec fn tag_part(on: bool, tag: Seq<char>) -> Seq<Seq<char>> {
    if on {
        seq![tag]
    } else {
        Seq::empty()
    }
}

proof fn lemma_tag_part(on: bool, tag: Seq<char>, x: Seq<char>)
    ensures
        tag_part(on, tag).contains(x) <==> on && x == tag,
{
    if on {
        assert(tag_part(on, tag)[0] == tag);
    }
}

/// The listing tags name exactly the features a command uses: `files` when its
/// selector has glob or regex patterns, `parallel` when it runs in parallel,
/// `cwd`, `timeout`, `branch` and `retry` when those are set, `cache` when it
/// caches, and `env` when it has an environment section.
pub proof fn law_tags_name_active_features(cmd: HookCommand)
    ensures
        spec_tags(cmd).contains("files"@) <==> (cmd.files matches Some(sel) && (sel.glob is Some || sel.regex is Some)),
        spec_tags(cmd).contains("parallel"@) <==> cmd.parallel == Some(true),
        spec_tags(cmd).contains("cwd"@) <==> cmd.cwd is Some,
        spec_tags(cmd).contains("timeout"@) <==> cmd.timeout is Some,
        spec_tags(cmd).contains("branch"@) <==> cmd.branch is Some,
        spec_tags(cmd).contains("cache"@) <==> cmd.cache == Some(true),
        spec_tags(cmd).contains("retry"@) <==> cmd.retry is Some,
        spec_tags(cmd).contains("env"@) <==> cmd.env is Some,
{
    reveal_strlit("files");
    reveal_strlit("parallel");
    reveal_strlit("cwd");
    reveal_strlit("timeout");
    reveal_strlit("branch");
    reveal_strlit("cache");
    reveal_strlit("retry");
    reveal_strlit("env");
    let names = seq!["files"@, "parallel"@, "cwd"@, "timeout"@, "branch"@, "cache"@, "retry"@, "env"@];
    let ons = seq![
        cmd.files matches Some(sel) && (sel.glob is Some || sel.regex is Some),
        cmd.parallel == Some(true),
        cmd.cwd is Some,
        cmd.timeout is Some,
        cmd.branch is Some,
        cmd.cache == Some(true),
        cmd.retry is Some,
        cmd.env is Some,
    ];
    assert("files"@[0] == 'f' && "parallel"@[0] == 'p' && "cwd"@[0] == 'c' && "timeout"@[0] == 't');
    assert("branch"@[0] == 'b' && "cache"@[0] == 'c' && "retry"@[0] == 'r' && "env"@[0] == 'e');
    assert("cwd"@.len() == 3 && "cache"@.len() == 5);
    let p0 = tag_part(ons[0], names[0]);
    let p1 = tag_part(ons[1], names[1]);
    let p2 = tag_part(ons[2], names[2]);
    let p3 = tag_part(ons[3], names[3]);
    let p4 = tag_part(ons[4], names[4]);
    let p5 = tag_part(ons[5], names[5]);
    let p6 = tag_part(ons[6], names[6]);
    let p7 = tag_part(ons[7], names[7]);
    assert(spec_tags(cmd) == p0 + p1 + p2 + p3 + p4 + p5 + p6 + p7);
    assert forall|x: Seq<char>| #[trigger] spec_tags(cmd).contains(x) <==> (p0.contains(x) || p1.contains(x)
        || p2.contains(x) || p3.contains(x) || p4.contains(x) || p5.contains(x) || p6.contains(x) || p7.contains(
        x,
    )) by {
        lemma_contains_concat(p0, p1, x);
        lemma_contains_concat(p0 + p1, p2, x);
        lemma_contains_concat(p0 + p1 + p2, p3, x);
        lemma_contains_concat(p0 + p1 + p2 + p3, p4, x);
        lemma_contains_concat(p0 + p1 + p2 + p3 + p4, p5, x);
        lemma_contains_concat(p0 + p1 + p2 + p3 + p4 + p5, p6, x);
        lemma_contains_concat(p0 + p1 + p2 + p3 + p4 + p5 + p6, p7, x);
    }
    assert forall|k: int, x: Seq<char>| 0 <= k < 8 implies #[trigger] tag_part(ons[k], names[k]).contains(x) <==> (
    ons[k] && x == names[k]) by {
        lemma_tag_part(ons[k], names[k], x);
    }
    assert(tag_part(ons[0], names[0]) == p0);
}

/// How a command is described in the listing.
pub open spec fn spec_command_desc(cmd: HookCommand) -> Seq<char> {
    match (cmd.command.inline, cmd.command.file) {
        (Some(s), _) => "inline: "@ + inline_preview(s@),
        (_, Some(f)) => "file: "@ + f@,
        _ => "invalid"@,
    }
}

/// The listing line of command `index`: `  <index>: <description>` followed by
/// ` [<tags>]` when it has any.
pub open spec fn spec_command_entry(index: nat, cmd: HookCommand) -> Seq<char> {
    "  "@ + dec(index) + ": "@ + spec_command_desc(cmd) + (if spec_tags(cmd).len() == 0 {
        Seq::empty()
    } else {
        " ["@ + join(spec_tags(cmd), ", "@) + "]"@
    })
}

/// Whether every inline command's preview can be cut safely.
pub open spec fn command_previews_ok(cmds: Seq<HookCommand>) -> bool {
    forall|i: int| 0 <= i < cmds.len() ==> ((#[trigger] cmds[i]).command.inline matches Some(s) ==> preview_cut_ok(first_line(s@)))
}

fn push_tag(t: &mut Vec<String>, cond: bool, tag: &str)
    ensures
        views(final(t)@) == views(old(t)@) + (if cond { seq![tag@] } else { Seq::<Seq<char>>::empty() }),
{
    if cond {
        let ghost before = t@;
        t.push(tag.to_owned());
        proof {
            assert(views(t@) =~= views(before) + seq![tag@]);
        }
    } else {
        proof {
            assert(views(t@) =~= views(t@) + Seq::<Seq<char>>::empty());
        }
    }
}

fn tags_of(cmd: &HookCommand) -> (res: Vec<String>)
    ensures
        views(res@) == spec_tags(*cmd),
{
    let mut t: Vec<String> = Vec::new();
    let has_files = match &cmd.files {
        Some(sel) => sel.has_patterns(),
        None => false,
    };
    push_tag(&mut t, has_files, "files");
    push_tag(&mut t, cmd.parallel == Some(true), "parallel");
    push_tag(&mut t, cmd.cwd.is_some(), "cwd");
    push_tag(&mut t, cmd.timeout.is_some(), "timeout");
    push_tag(&mut t, cmd.branch.is_some(), "branch");
    push_tag(&mut t, cmd.cache == Some(true), "cache");
    push_tag(&mut t, cmd.retry.is_some(), "retry");
    push_tag(&mut t, cmd.env.is_some(), "env");
    proof {
        assert(views(t@) =~= spec_tags(*cmd));
    }
    t
}

/// The listing line of one command.
pub fn command_entry(index: usize, cmd: &HookCommand) -> (res: String)
    requires
        cmd.command.inline matches Some(s) ==> preview_cut_ok(first_line(s@)),
    ensures
        res@ == spec_command_entry(index as nat, *cmd),
{
    let mut s = "  ".to_owned();
    let n = decimal(index as u64);
    s.append(n.as_str());
    s.append(": ");
    match (&cmd.command.inline, &cmd.command.file) {
        (Some(text), _) => {
            s.append("inline: ");
            let p = preview(text.as_str());
            s.append(p.as_str());
        },
        (_, Some(f)) => {
            s.append("file: ");
            s.append(f.as_str());
        },
        _ => {
            s.append("invalid");
        },
    }
    let tags = tags_of(cmd);
    if tags.len() > 0 {
        s.append(" [");
        let j = join_strings(&tags, ", ");
        s.append(j.as_str());
        s.append("]");
    }
    proof {
        assert(s@ =~= spec_command_entry(index as nat, *cmd));
    }
    s
}

/// The listing header of a hook: `<name> (<n> command[s])`.
pub open spec fn spec_hook_header(name: Seq<char>, n: nat) -> Seq<char> {
    name + " ("@ + dec(n) + (if n == 1 { " command"@ } else { " commands"@ }) + ")"@
}

/// The listing lines of the first `n` commands of a hook.
pub open spec fn command_entries(cmds: Seq<HookCommand>, n: nat) -> Seq<Seq<char>>
    decreases n,
{
    if n == 0 {
        Seq::empty()
    } else {
        command_entries(cmds, (n - 1) as nat).push(spec_command_entry((n - 1) as nat, cmds[n - 1]))
    }
}

/// The listing of the hooks named in `names`, in that order: each hook's
/// header, then one line per command.
pub open spec fn spec_listing(hooks: Map<Seq<char>, Vec<HookCommand>>, names: Seq<Seq<char>>) -> Seq<Seq<char>>
    decreases names.len(),
{
    if names.len() == 0 {
        Seq::empty()
    } else {
        let name = names.last();
        let cmds = commands_of(hooks, name);
        spec_listing(hooks, names.drop_last()).push(spec_hook_header(name, cmds.len())) + command_entries(
            cmds,
            cmds.len(),
        )
    }
}

/// The names of the hooks of a table, in the order of its entries.
pub open spec fn entry_names(entries: Seq<(String, Vec<HookCommand>)>) -> Seq<Seq<char>> {
    entries.map_values(|e: (String, Vec<HookCommand>)| e.0@)
}

/// Whether every inline command of every hook can be previewed safely.
pub open spec fn listing_ok(hooks: Map<Seq<char>, Vec<HookCommand>>) -> bool {
    forall|name: Seq<char>| #[trigger] hooks.contains_key(name) ==> command_previews_ok(hooks[name]@)
}

/// Whether [`list_lines`] may be called: every inline preview can be cut on a
/// character boundary.
pub fn listing_previews_ok(hoox: &Hoox) -> (res: bool)
    ensures
        res == listing_ok(hoox.hooks@),
{
    let entries = hoox.hooks.entries();
    let mut k: usize = 0;
    while k < entries.len()
        invariant
            k <= entries@.len(),
            entries_map(entries@) == hoox.hooks@,
            keys_distinct(entries@),
            forall|j: int| 0 <= j < k ==> command_previews_ok((#[trigger] entries@[j]).1@),
        decreases entries@.len() - k,
    {
        let cmds = &entries[k].1;
        let mut i: usize = 0;
        while i < cmds.len()
            invariant
                i <= cmds@.len(),
                k < entries@.len(),
                cmds@ == entries@[k as int].1@,
                entries_map(entries@) == hoox.hooks@,
                keys_distinct(entries@),
                forall|j: int| 0 <= j < i ==> ((#[trigger] cmds@[j]).command.inline matches Some(s) ==> preview_cut_ok(first_line(s@))),
            decreases cmds@.len() - i,
        {
            if let Some(text) = &cmds[i].command.inline {
                if !preview_ok(text.as_str()) {
                    proof {
                        let nm = entries@[k as int].0@;
                        lemma_entries_map_index(entries@, nm);
                        assert(entries@[k as int].0@ == nm);
                        assert(hoox.hooks@.contains_key(nm));
                        assert(hoox.hooks@[nm] == entries@[k as int].1);
                        assert(cmds@[i as int].command.inline == Some(*text));
                        assert(!command_previews_ok(hoox.hooks@[nm]@));
                    }
                    return false;
                }
            }
            i = i + 1;
        }
        k = k + 1;
    }
    proof {
        assert forall|name: Seq<char>| #[trigger] hoox.hooks@.contains_key(name) implies command_previews_ok(hoox.hooks@[name]@) by {
            lemma_entries_map_index(entries@, name);
            let j = choose|j: int| 0 <= j < entries@.len() && #[trigger] entries@[j].0@ == name;
            assert(command_previews_ok(entries@[j].1@));
        }
    }
    true
}

/// The lines `hoox list` prints: the hooks in lexicographic order of their
/// names, each with its header and one line per command.
pub fn list_lines(hoox: &Hoox) -> (res: Vec<String>)
    requires
        listing_ok(hoox.hooks@),
    ensures
        exists|names: Seq<Seq<char>>|
            sorted_adjacent(names) && names.to_multiset() == entry_names(hoox.hooks.entry_seq()).to_multiset()
                && views(res@) == spec_listing(hoox.hooks@, names),
{
    let entries = hoox.hooks.entries();
    let mut keys: Vec<String> = Vec::new();
    let mut k: usize = 0;
    while k < entries.len()
        invariant
            k <= entries@.len(),
            views(keys@) == entry_names(entries@.take(k as int)),
        decreases entries@.len() - k,
    {
        let ghost before = keys@;
        keys.push(entries[k].0.clone());
        proof {
            assert(views(keys@) =~= views(before).push(entries@[k as int].0@));
            assert(entry_names(entries@.take(k + 1)) =~= entry_names(entries@.take(k as int)).push(entries@[k as int].0@));
        }
        k = k + 1;
    }
    proof {
        assert(entries@.take(entries@.len() as int) =~= entries@);
    }
    let names = sort_strings(&keys);
    let ghost ns = views(names@);
    let mut out: Vec<String> = Vec::new();
    let mut n: usize = 0;
    while n < names.len()
        invariant
            n <= names@.len(),
            ns == views(names@),
            listing_ok(hoox.hooks@),
            ns.to_multiset() == entry_names(entries@).to_multiset(),
            entries_map(entries@) == hoox.hooks@,
            views(out@) == spec_listing(hoox.hooks@, ns.take(n as int)),
        decreases names@.len() - n,
    {
        let name = &names[n];
        proof {
            assert(ns.take(n + 1).drop_last() =~= ns.take(n as int));
            assert(ns.take(n + 1).last() == name@);
        }
        let ghost before = views(out@);
        match hoox.hook_commands(name.as_str()) {
            Some(cmds) => {
                let count = cmds.len();
                let mut h = name.clone();
                h.append(" (");
                let d = decimal(count as u64);
                h.append(d.as_str());
                if count == 1 {
                    h.append(" command");
                } else {
                    h.append(" commands");
                }
                h.append(")");
                proof {
                    assert(h@ =~= spec_hook_header(name@, cmds@.len()));
                }
                out.push(h);
                let ghost base = views(out@);
                proof {
                    assert(base =~= before.push(spec_hook_header(name@, cmds@.len())));
                    assert(command_previews_ok(cmds@));
                }
                let mut i: usize = 0;
                while i < cmds.len()
                    invariant
                        i <= cmds@.len(),
                        command_previews_ok(cmds@),
                        views(out@) == base + command_entries(cmds@, i as nat),
                    decreases cmds@.len() - i,
                {
                    let line = command_entry(i, &cmds[i]);
                    let ghost prev = views(out@);
                    out.push(line);
                    proof {
                        assert(views(out@) =~= prev.push(line@));
                        assert(views(out@) =~= base + command_entries(cmds@, (i + 1) as nat));
                    }
                    i = i + 1;
                }
            },
            None => {
                let mut h = name.clone();
                h.append(" (");
                h.append("0");
                h.append(" commands");
                h.append(")");
                proof {
                    reveal_strlit("0");
                    assert(dec(0) =~= seq!['0']);
                    assert(h@ =~= spec_hook_header(name@, 0));
                    assert(command_entries(Seq::<HookCommand>::empty(), 0) =~= Seq::<Seq<char>>::empty());
                }
                out.push(h);
            },
        }
        proof {
            assert(views(out@) =~= spec_listing(hoox.hooks@, ns.take(n + 1)));
        }
        n = n + 1;
    }
    proof {
        assert(ns.take(names@.len() as int) =~= ns);
    }
    out
}

} // verus!
