use hoox::config::{FileSelector, PatternList};
use hoox::error::HooxError;
use hoox::hooks::{ChangeType, ChangedFile};
use hoox::matching::filter_files;

fn file(path: &str, change_type: ChangeType) -> ChangedFile {
    ChangedFile { path: path.to_string(), change_type }
}

fn changed() -> Vec<ChangedFile> {
    vec![
        file("src/main.rs", ChangeType::Modified),
        file("README.md", ChangeType::Added),
        file("src/lib.rs", ChangeType::Deleted),
        file("docs/guide.md", ChangeType::Modified),
    ]
}

fn paths(files: &[ChangedFile]) -> Vec<&str> {
    files.iter().map(|f| f.path.as_str()).collect()
}

fn single(p: &str) -> Option<PatternList> {
    Some(PatternList::Single(p.to_string()))
}

fn many(ps: &[&str]) -> Option<PatternList> {
    Some(PatternList::Multiple(ps.iter().map(|p| p.to_string()).collect()))
}

#[test]
fn glob_selects_matching_paths_in_order() {
    let sel = FileSelector { glob: single("**/*.rs"), regex: None };
    let m = filter_files(&sel, &changed()).unwrap();
    assert_eq!(paths(&m), vec!["src/main.rs", "src/lib.rs"]);
    assert_eq!(m[1].change_type, ChangeType::Deleted);
}

#[test]
fn several_globs_match_any() {
    let sel = FileSelector { glob: many(&["**/*.md", "src/main.rs"]), regex: None };
    let m = filter_files(&sel, &changed()).unwrap();
    assert_eq!(paths(&m), vec!["src/main.rs", "README.md", "docs/guide.md"]);
}

#[test]
fn regex_matches_anywhere_in_the_path() {
    let sel = FileSelector { glob: None, regex: single("lib") };
    let m = filter_files(&sel, &changed()).unwrap();
    assert_eq!(paths(&m), vec!["src/lib.rs"]);
    let anchored = FileSelector { glob: None, regex: many(&["^docs/", "\\.md$"]) };
    let m = filter_files(&anchored, &changed()).unwrap();
    assert_eq!(paths(&m), vec!["README.md", "docs/guide.md"]);
}

#[test]
fn glob_and_regex_combine_with_or_glob_matches_first() {
    let sel = FileSelector { glob: single("**/*.md"), regex: single("^src/") };
    let m = filter_files(&sel, &changed()).unwrap();
    assert_eq!(paths(&m), vec!["README.md", "docs/guide.md", "src/main.rs", "src/lib.rs"]);
}

#[test]
fn a_path_is_selected_once() {
    let sel = FileSelector { glob: single("**/*.rs"), regex: single("main") };
    let m = filter_files(&sel, &changed()).unwrap();
    assert_eq!(paths(&m), vec!["src/main.rs", "src/lib.rs"]);
    let twice = vec![file("a.rs", ChangeType::Modified), file("a.rs", ChangeType::Added)];
    let sel = FileSelector { glob: single("*.rs"), regex: None };
    let m = filter_files(&sel, &twice).unwrap();
    assert_eq!(m, vec![file("a.rs", ChangeType::Modified)]);
}

#[test]
fn no_patterns_select_nothing() {
    let sel = FileSelector { glob: None, regex: None };
    assert_eq!(filter_files(&sel, &changed()).unwrap(), vec![]);
    let sel = FileSelector { glob: single("*.toml"), regex: None };
    assert_eq!(filter_files(&sel, &changed()).unwrap(), vec![]);
}

#[test]
fn invalid_glob_is_reported_with_its_pattern() {
    let sel = FileSelector { glob: many(&["*.rs", "a["]), regex: single("(") };
    match filter_files(&sel, &changed()) {
        Err(HooxError::InvalidGlob { pattern, message }) => {
            assert_eq!(pattern, "a[");
            assert!(!message.is_empty());
        },
        other => panic!("unexpected: {:?}", other),
    }
}

#[test]
fn invalid_regex_is_reported_with_its_pattern() {
    let sel = FileSelector { glob: single("**/*.rs"), regex: many(&["ok", "("]) };
    match filter_files(&sel, &changed()) {
        Err(HooxError::InvalidRegex { pattern, message }) => {
            assert_eq!(pattern, "(");
            assert!(!message.is_empty());
        },
        other => panic!("unexpected: {:?}", other),
    }
}

#[test]
fn star_does_not_cross_a_slash() {
    let files = vec![
        file("main.rs", ChangeType::Modified),
        file("src/main.rs", ChangeType::Modified),
        file("src/a/b.rs", ChangeType::Added),
    ];
    let top = FileSelector { glob: single("*.rs"), regex: None };
    assert_eq!(paths(&filter_files(&top, &files).unwrap()), vec!["main.rs"]);
    let one_level = FileSelector { glob: single("src/*.rs"), regex: None };
    assert_eq!(paths(&filter_files(&one_level, &files).unwrap()), vec!["src/main.rs"]);
    let question = FileSelector { glob: single("src?main.rs"), regex: None };
    assert_eq!(paths(&filter_files(&question, &files).unwrap()), Vec::<&str>::new());
    let any_depth = FileSelector { glob: single("**/*.rs"), regex: None };
    assert_eq!(paths(&filter_files(&any_depth, &files).unwrap()), vec!["main.rs", "src/main.rs", "src/a/b.rs"]);
}
