use hocon::{Hocon, HoconLoader};
use hoox::config::{CommandSpec, EnvConfig, FileSelector, HookCommand, Hoox, PatternList};
use hoox::strmap::StrMap;

fn opt_string(h: &Hocon) -> Option<String> {
    h.as_string()
}

fn string_list(h: &Hocon) -> Option<Vec<String>> {
    match h {
        Hocon::Array(items) => Some(items.iter().map(|i| i.as_string().unwrap()).collect()),
        _ => None,
    }
}

fn pattern_list(h: &Hocon) -> Option<PatternList> {
    match h {
        Hocon::String(s) => Some(PatternList::Single(s.clone())),
        Hocon::Array(_) => Some(PatternList::Multiple(string_list(h).unwrap())),
        _ => None,
    }
}

fn command(h: &Hocon) -> HookCommand {
    let files = match &h["files"] {
        Hocon::Hash(_) => Some(FileSelector { glob: pattern_list(&h["files"]["glob"]), regex: pattern_list(&h["files"]["regex"]) }),
        _ => None,
    };
    let env = match &h["env"] {
        Hocon::Hash(_) => {
            let vars = match &h["env"]["vars"] {
                Hocon::Hash(m) => {
                    let mut out = StrMap::new();
                    for (k, v) in m.iter() {
                        out.insert(k.clone(), v.as_string().unwrap());
                    }
                    Some(out)
                },
                _ => None,
            };
            Some(EnvConfig { vars, keep: string_list(&h["env"]["keep"]) })
        },
        _ => None,
    };
    HookCommand {
        command: CommandSpec { inline: opt_string(&h["command"]["inline"]), file: opt_string(&h["command"]["file"]) },
        program: string_list(&h["program"]),
        severity: None,
        verbosity: None,
        files,
        cwd: opt_string(&h["cwd"]),
        parallel: h["parallel"].as_bool(),
        env,
        timeout: h["timeout"].as_i64().map(|t| t as u64),
        branch: opt_string(&h["branch"]),
        cache: h["cache"].as_bool(),
        retry: h["retry"].as_i64().map(|r| r as u32),
    }
}

fn parse(conf: &str) -> Hoox {
    let doc = HoconLoader::new().load_str(conf).unwrap().hocon().unwrap();
    let mut hooks = StrMap::new();
    if let Hocon::Hash(m) = &doc["hooks"] {
        for (name, cmds) in m.iter() {
            let list = match cmds {
                Hocon::Array(items) => items.iter().map(command).collect(),
                _ => vec![],
            };
            hooks.insert(name.clone(), list);
        }
    }
    Hoox {
        version: doc["version"].as_string().unwrap(),
        verbosity: None,
        severity: None,
        hooks,
        includes: string_list(&doc["include"]),
    }
}

#[test]
fn test_deserialize_glob() {
    let conf = r#"
version = "0.0.0"
hooks {
  pre-commit = [
    { command.inline = "cargo test", files.glob = "**/*.rs" }
    { command.inline = "npm test", files.glob = ["**/*.js", "**/*.ts"] }
    { command.inline = "echo always" }
  ]
}
"#;
    let hoox = parse(conf);
    let cmds = hoox.hook_commands("pre-commit").unwrap();
    assert_eq!(cmds.len(), 3);
    assert_eq!(cmds[0].files.as_ref().unwrap().glob.as_ref().unwrap().patterns(), vec!["**/*.rs"]);
    assert_eq!(cmds[1].files.as_ref().unwrap().glob.as_ref().unwrap().patterns(), vec!["**/*.js", "**/*.ts"]);
    assert!(cmds[2].files.is_none());
}

#[test]
fn test_deserialize_regex() {
    let conf = r#"
version = "0.0.0"
hooks {
  pre-commit = [
    { command.inline = "lint", files.regex = "src/.*\\.rs$" }
    { command.inline = "check", files.regex = [".*\\.rs$", ".*test.*"] }
  ]
}
"#;
    let hoox = parse(conf);
    let cmds = hoox.hook_commands("pre-commit").unwrap();
    assert_eq!(cmds[0].files.as_ref().unwrap().regex.as_ref().unwrap().patterns(), vec!["src/.*\\.rs$"]);
    assert_eq!(cmds[1].files.as_ref().unwrap().regex.as_ref().unwrap().patterns(), vec![".*\\.rs$", ".*test.*"]);
}

#[test]
fn test_deserialize_all_features() {
    let conf = r#"
version = "0.0.0"
include = ["sub/.hoox.conf"]
hooks {
  pre-commit = [
    {
      command.inline = "cargo test"
      cwd = "crates/api"
      files.glob = "crates/api/**/*.rs"
      parallel = true
      timeout = 120
      branch = "main|develop"
      cache = true
      env {
        keep = ["PATH", "HOME"]
        vars { CI = "true" }
      }
    }
  ]
}
"#;
    let hoox = parse(conf);
    let c = &hoox.hook_commands("pre-commit").unwrap()[0];
    assert_eq!(c.cwd.as_ref().unwrap(), "crates/api");
    assert_eq!(c.parallel, Some(true));
    assert_eq!(c.timeout, Some(120));
    assert_eq!(c.branch.as_ref().unwrap(), "main|develop");
    assert_eq!(c.cache, Some(true));
    assert_eq!(hoox.includes.as_ref().unwrap(), &["sub/.hoox.conf"]);
}
