use hoox::config::{CommandSpec, EnvConfig, FileSelector, HookCommand, Hoox, PatternList};
use hoox::error::HooxError;
use hoox::report::{
    command_entry, list_lines, listing_previews_ok, preview_ok, sort_strings, str_lt, validate_command,
    validate_hooks, validation_label, validation_result,
};
use hoox::strmap::StrMap;

fn inline(s: &str) -> HookCommand {
    HookCommand {
        command: CommandSpec { inline: Some(s.to_string()), file: None },
        program: None,
        severity: None,
        verbosity: None,
        files: None,
        cwd: None,
        parallel: None,
        env: None,
        timeout: None,
        branch: None,
        cache: None,
        retry: None,
    }
}

fn script_file(path: &str) -> HookCommand {
    HookCommand { command: CommandSpec { inline: None, file: Some(path.to_string()) }, ..inline("x") }
}

fn config(hooks: Vec<(&str, Vec<HookCommand>)>) -> Hoox {
    let mut table = StrMap::new();
    for (name, cmds) in hooks {
        table.insert(name.to_string(), cmds);
    }
    Hoox { version: "0.0.0".to_string(), verbosity: None, severity: None, hooks: table, includes: None }
}

#[test]
fn validation_labels_name_hook_and_index() {
    assert_eq!(validation_label("pre-commit", 0), "hooks.pre-commit[0]");
    assert_eq!(validation_label("pre-push", 10), "hooks.pre-push[10]");
}

#[test]
fn a_valid_command_has_no_problems() {
    assert!(validate_command("L", &inline("echo"), false).is_empty());
    assert!(validate_command("L", &script_file("./s.sh"), true).is_empty());
}

#[test]
fn command_spec_problems() {
    let both = HookCommand {
        command: CommandSpec { inline: Some("a".to_string()), file: Some("b.sh".to_string()) },
        ..inline("x")
    };
    assert_eq!(validate_command("L", &both, false), vec!["L: both inline and file set"]);
    let neither = HookCommand { command: CommandSpec { inline: None, file: None }, ..inline("x") };
    assert_eq!(validate_command("L", &neither, true), vec!["L: neither inline nor file set"]);
    assert_eq!(validate_command("L", &script_file("./gone.sh"), false), vec!["L: file not found: ./gone.sh"]);
}

#[test]
fn pattern_problems_come_in_check_order() {
    let cmd = HookCommand {
        files: Some(FileSelector {
            glob: Some(PatternList::Multiple(vec!["*.rs".to_string(), "a[".to_string()])),
            regex: Some(PatternList::Single("(".to_string())),
        }),
        branch: Some("[".to_string()),
        env: Some(EnvConfig { vars: None, keep: Some(vec!["PATH".to_string(), ")".to_string()]) }),
        program: Some(vec![]),
        ..script_file("./gone.sh")
    };
    let msgs = validate_command("hooks.pre-commit[0]", &cmd, false);
    assert_eq!(msgs.len(), 6);
    assert_eq!(msgs[0], "hooks.pre-commit[0]: file not found: ./gone.sh");
    assert!(msgs[1].starts_with("hooks.pre-commit[0]: invalid glob 'a[': "));
    assert!(msgs[2].starts_with("hooks.pre-commit[0]: invalid regex '(': "));
    assert!(msgs[3].starts_with("hooks.pre-commit[0]: invalid branch regex '[': "));
    assert!(msgs[4].starts_with("hooks.pre-commit[0]: invalid keep regex ')': "));
    assert_eq!(msgs[5], "hooks.pre-commit[0]: program array is empty");
}

#[test]
fn validation_result_counts_problems() {
    assert_eq!(validation_result(&vec![]), Ok(()));
    let errs = vec!["a".to_string(), "b".to_string()];
    assert_eq!(validation_result(&errs), Err(HooxError::ValidationFailed { count: 2 }));
}

#[test]
fn validate_hooks_goes_hook_by_hook() {
    let h = config(vec![
        ("pre-commit", vec![inline("ok"), script_file("./a.sh")]),
        ("pre-push", vec![script_file("./b.sh")]),
    ]);
    let msgs = validate_hooks(&h, &vec![vec![true, false], vec![false]]);
    assert_eq!(msgs, vec!["hooks.pre-commit[1]: file not found: ./a.sh", "hooks.pre-push[0]: file not found: ./b.sh"]);
    assert!(validate_hooks(&h, &vec![vec![true, true], vec![true]]).is_empty());
}

#[test]
fn strings_sort_lexicographically() {
    assert!(str_lt("pre-commit", "pre-push"));
    assert!(!str_lt("pre-push", "pre-commit"));
    assert!(str_lt("pre", "pre-commit"));
    assert!(!str_lt("same", "same"));
    let v = vec!["pre-push".to_string(), "commit-msg".to_string(), "pre-commit".to_string(), "b".to_string()];
    assert_eq!(sort_strings(&v), vec!["b", "commit-msg", "pre-commit", "pre-push"]);
}

#[test]
fn command_entries_show_preview_and_tags() {
    let cmd = HookCommand {
        files: Some(FileSelector { glob: Some(PatternList::Single("*.rs".to_string())), regex: None }),
        parallel: Some(true),
        cache: Some(true),
        retry: Some(1),
        ..inline("cargo test\ncargo build")
    };
    assert_eq!(command_entry(0, &cmd), "  0: inline: cargo test [files, parallel, cache, retry]");
    assert_eq!(command_entry(1, &script_file("./s.sh")), "  1: file: ./s.sh");
    let neither = HookCommand { command: CommandSpec { inline: None, file: None }, ..inline("x") };
    assert_eq!(command_entry(2, &neither), "  2: invalid");
    let all = HookCommand {
        cwd: Some("d".to_string()),
        timeout: Some(5),
        branch: Some("main".to_string()),
        env: Some(EnvConfig { vars: None, keep: None }),
        cache: Some(false),
        parallel: Some(false),
        files: Some(FileSelector { glob: None, regex: None }),
        ..inline("x")
    };
    assert_eq!(command_entry(3, &all), "  3: inline: x [cwd, timeout, branch, env]");
}

#[test]
fn long_first_lines_are_cut_at_57_bytes() {
    let long = "x".repeat(70);
    assert!(preview_ok(&long));
    assert_eq!(command_entry(0, &inline(&long)), format!("  0: inline: {}...", "x".repeat(57)));
    let sixty = "y".repeat(60);
    assert_eq!(command_entry(0, &inline(&sixty)), format!("  0: inline: {}", sixty));
}

#[test]
fn a_cut_inside_a_character_is_refused() {
    let s = format!("{}é{}", "a".repeat(56), "b".repeat(10));
    assert!(!preview_ok(&s));
    assert!(preview_ok(&format!("{}é{}", "a".repeat(55), "b".repeat(10))));
    assert!(preview_ok(&format!("short\n{}", s)));
    let h = config(vec![("pre-commit", vec![inline(&s)])]);
    assert!(!listing_previews_ok(&h));
}

#[test]
fn listing_sorts_hooks_and_numbers_commands() {
    let h = config(vec![
        ("pre-push", vec![inline("cargo test")]),
        ("pre-commit", vec![inline("fmt"), script_file("./lint.sh")]),
    ]);
    assert!(listing_previews_ok(&h));
    assert_eq!(
        list_lines(&h),
        vec![
            "pre-commit (2 commands)",
            "  0: inline: fmt",
            "  1: file: ./lint.sh",
            "pre-push (1 command)",
            "  0: inline: cargo test",
        ]
    );
    let empty = config(vec![("post-merge", vec![])]);
    assert_eq!(list_lines(&empty), vec!["post-merge (0 commands)"]);
}
