use hoox::config::git_hook_names;
use hoox::error::HooxError;
use hoox::init::{config_content, find_repo_root, hook_wrapper_script};
use hoox::reference::{doc_command_path, doc_file_name};
use hoox::text::{concat2, decimal, first_line_of, join_strings, split_str, str_eq};

fn strings(v: &[&str]) -> Vec<String> {
    v.iter().map(|s| s.to_string()).collect()
}

#[test]
fn repo_root_is_the_nearest_directory_with_git() {
    let dirs = strings(&["/a/b/c", "/a/b", "/a", "/"]);
    assert_eq!(find_repo_root(&dirs, &vec![false, true, true, false]), Ok("/a/b".to_string()));
    assert_eq!(find_repo_root(&dirs, &vec![true, false, false, false]), Ok("/a/b/c".to_string()));
    assert_eq!(find_repo_root(&dirs, &vec![false, false, false, false]), Err(HooxError::NotAGitRepository));
    assert_eq!(find_repo_root(&vec![], &vec![]), Err(HooxError::NotAGitRepository));
}

#[test]
fn starter_config_lists_every_hook() {
    let comment: Vec<String> = git_hook_names().iter().map(|h| format!("//   {}", h)).collect();
    let expected = format!(
        "version = \"0.4.2\"\nverbosity = all\n\n// Available Git hooks:\n{}\n\nhooks {{\n  pre-commit = [\n    {{ command.inline = \"echo hello\" }}\n  ]\n}}\n\n",
        comment.join("\n")
    );
    assert_eq!(config_content("0.4.2", None), expected);
    let with = config_content("0.0.0", Some("hooks { }"));
    assert!(with.starts_with("version = \"0.0.0\"\nverbosity = all\n\n// Available Git hooks:\n//   applypatch-msg\n//   commit-msg\n"));
    assert!(with.ends_with("//   update\n\nhooks { }\n"));
}

#[test]
fn wrapper_script_delegates_to_hoox_run() {
    assert_eq!(hook_wrapper_script(), "#!/bin/sh\nhoox run --ignore-missing \"${0##*/}\" \"$@\"\n");
}

#[test]
fn documentation_file_names() {
    let root = doc_command_path("", "hoox");
    assert_eq!(root, "-hoox");
    let run = doc_command_path(&root, "run");
    assert_eq!(run, "-hoox-run");
    assert_eq!(doc_file_name(&root, "1"), "hoox.1");
    assert_eq!(doc_file_name(&run, "md"), "hoox-run.md");
    assert_eq!(doc_file_name("plain", "md"), "plain.md");
    assert_eq!(doc_file_name("", "md"), ".md");
}

#[test]
fn text_helpers() {
    assert_eq!(decimal(0), "0");
    assert_eq!(decimal(7), "7");
    assert_eq!(decimal(1234567890), "1234567890");
    assert_eq!(decimal(u64::MAX), u64::MAX.to_string());
    assert!(str_eq("abc", "abc"));
    assert!(!str_eq("abc", "abd"));
    assert_eq!(split_str("0.1.2", '.'), strings(&["0", "1", "2"]));
    assert_eq!(split_str("a..b.", '.'), strings(&["a", "", "b", ""]));
    assert_eq!(split_str("", '.'), strings(&[""]));
    assert_eq!(join_strings(&strings(&["a", "b", "c"]), ", "), "a, b, c");
    assert_eq!(join_strings(&vec![], ", "), "");
    assert_eq!(first_line_of("one\ntwo"), "one");
    assert_eq!(first_line_of("one\r\ntwo"), "one");
    assert_eq!(first_line_of("\nx"), "");
    assert_eq!(first_line_of("only"), "only");
    assert_eq!(first_line_of(""), "");
    assert_eq!(concat2("pre-", "commit"), "pre-commit");
}
