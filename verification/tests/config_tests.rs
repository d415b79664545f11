use hoox::config::{
    git_hook_names, is_staged_hook, CommandSpec, FileSelector, HookCommand, Hoox, PatternList, CACHE_FILE_NAME,
    HOOX_FILE_NAME,
};
use hoox::strmap::StrMap;

fn inline(s: &str) -> HookCommand {
    HookCommand {
        command: CommandSpec { inline: Some(s.to_string()), file: None },
        program: None,
        severity: None,
        verbosity: None,
        files: None,
        cwd: None,
        parallel: None,
        env: None,
        timeout: None,
        branch: None,
        cache: None,
        retry: None,
    }
}

fn config(hooks: Vec<(&str, Vec<HookCommand>)>) -> Hoox {
    let mut table = StrMap::new();
    for (name, cmds) in hooks {
        table.insert(name.to_string(), cmds);
    }
    Hoox { version: "0.0.0".to_string(), verbosity: None, severity: None, hooks: table, includes: None }
}

fn scripts(cmds: &Vec<HookCommand>) -> Vec<String> {
    cmds.iter().map(|c| c.command.inline.clone().unwrap()).collect()
}

#[test]
fn single_pattern_lists_itself() {
    let p = PatternList::Single("**/*.rs".to_string());
    assert_eq!(p.patterns(), vec!["**/*.rs"]);
}

#[test]
fn multiple_patterns_keep_their_order() {
    let p = PatternList::Multiple(vec!["**/*.js".to_string(), "**/*.ts".to_string()]);
    assert_eq!(p.patterns(), vec!["**/*.js", "**/*.ts"]);
    let empty = PatternList::Multiple(vec![]);
    assert!(empty.patterns().is_empty());
}

#[test]
fn selector_has_patterns_when_either_kind_is_set() {
    let none = FileSelector { glob: None, regex: None };
    assert!(!none.has_patterns());
    let glob = FileSelector { glob: Some(PatternList::Single("*.rs".to_string())), regex: None };
    assert!(glob.has_patterns());
    let regex = FileSelector { glob: None, regex: Some(PatternList::Single(".*".to_string())) };
    assert!(regex.has_patterns());
}

#[test]
fn staged_hooks_are_the_commit_hooks() {
    assert!(is_staged_hook("pre-commit"));
    assert!(is_staged_hook("prepare-commit-msg"));
    assert!(is_staged_hook("commit-msg"));
    assert!(!is_staged_hook("pre-push"));
    assert!(!is_staged_hook("post-commit"));
    assert!(!is_staged_hook(""));
}

#[test]
fn all_nineteen_git_hooks_are_supported() {
    let names = git_hook_names();
    assert_eq!(names.len(), 19);
    assert_eq!(names[0], "applypatch-msg");
    assert_eq!(names[11], "pre-commit");
    assert_eq!(names[18], "update");
    assert_eq!(HOOX_FILE_NAME, ".hoox.conf");
    assert_eq!(CACHE_FILE_NAME, ".hoox.cache");
}

#[test]
fn hook_commands_finds_configured_hooks_only() {
    let h = config(vec![("pre-commit", vec![inline("cargo test")])]);
    assert_eq!(scripts(h.hook_commands("pre-commit").unwrap()), vec!["cargo test"]);
    assert!(h.hook_commands("pre-push").is_none());
}

#[test]
fn included_hooks_are_appended_after_the_root_ones() {
    let mut root = config(vec![("pre-commit", vec![inline("A"), inline("B")])]);
    let inc = config(vec![("pre-commit", vec![inline("C")]), ("pre-push", vec![inline("D")])]);
    root.merge_included(inc);
    assert_eq!(scripts(root.hook_commands("pre-commit").unwrap()), vec!["A", "B", "C"]);
    assert_eq!(scripts(root.hook_commands("pre-push").unwrap()), vec!["D"]);
    assert_eq!(root.hooks.entries().len(), 2);
}

#[test]
fn includes_are_processed_in_order() {
    let mut root = config(vec![("pre-commit", vec![inline("A")])]);
    root.merge_included(config(vec![("pre-commit", vec![inline("B")])]));
    root.merge_included(config(vec![("pre-commit", vec![inline("C")])]));
    assert_eq!(scripts(root.hook_commands("pre-commit").unwrap()), vec!["A", "B", "C"]);
}

#[test]
fn take_includes_empties_the_list() {
    let mut h = config(vec![]);
    h.includes = Some(vec!["sub/.hoox.conf".to_string()]);
    assert_eq!(h.take_includes(), Some(vec!["sub/.hoox.conf".to_string()]));
    assert_eq!(h.includes, None);
    assert_eq!(h.take_includes(), None);
}

#[test]
fn strmap_read_after_write() {
    let mut m: StrMap<u32> = StrMap::new();
    m.insert("a".to_string(), 1);
    m.insert("b".to_string(), 2);
    m.insert("a".to_string(), 3);
    assert_eq!(m.get("a"), Some(&3));
    assert_eq!(m.get("b"), Some(&2));
    assert_eq!(m.get("c"), None);
    assert_eq!(m.entries().len(), 2);
    assert_eq!(m.remove("a"), Some(3));
    assert_eq!(m.get("a"), None);
    assert_eq!(m.remove("a"), None);
}
