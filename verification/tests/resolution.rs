use epithet::EpithetError;
use epithet::config::Alias;
use epithet::config::EpithetConfig;
use epithet::config::Execution;
use epithet::config::SubAlias;
use epithet::expansions::Expansion;
use epithet::sequencer::Outcome;

fn strs(v: &[&str]) -> Vec<String> {
    v.iter().map(|s| s.to_string()).collect()
}

fn alias_with_sub() -> Alias {
    Alias {
        command: Some(Execution::Command("direct {0}".to_string())),
        sub_aliases: Some(vec![SubAlias {
            name: "b1".to_string(),
            execution: Execution::Command("sub".to_string()),
        }]),
        expansions: None,
    }
}

#[test]
fn matching_first_argument_dispatches_to_sub_alias() {
    let a = alias_with_sub();
    let run = a.execute(&strs(&["b1", "extra"]), &[]).unwrap();
    assert_eq!(run.commands, vec![strs(&["sub", "extra"])]);
}

#[test]
fn unmatched_first_argument_falls_back_to_direct_command() {
    let a = alias_with_sub();
    let run = a.execute(&strs(&["extra"]), &[]).unwrap();
    assert_eq!(run.commands, vec![strs(&["direct", "extra"])]);
}

#[test]
fn alias_without_command_or_matching_sub_is_a_noop() {
    let a = Alias { command: None, sub_aliases: None, expansions: None };
    let run = a.execute(&strs(&["x"]), &[]).unwrap();
    assert!(run.commands.is_empty());
    assert_eq!(run.outcome, Some(Outcome::Success));
}

#[test]
fn unknown_alias_reports_alias_not_found() {
    let config = EpithetConfig {
        global_expansions: None,
        aliases: Some(vec![("known".to_string(), alias_with_sub())]),
    };
    let r = config.execute("unknown", &strs(&[]));
    assert!(matches!(r, Err(EpithetError::AliasNotFound)));
}

#[test]
fn config_execute_uses_global_and_local_expansions() {
    let alias = Alias {
        command: Some(Execution::Command("run".to_string())),
        sub_aliases: None,
        expansions: Some(vec![Expansion {
            key: "x".to_string(),
            value: "local value".to_string(),
        }]),
    };
    let config = EpithetConfig {
        global_expansions: Some(vec![
            Expansion { key: "x".to_string(), value: "global".to_string() },
            Expansion { key: "g".to_string(), value: "kept".to_string() },
        ]),
        aliases: Some(vec![("a".to_string(), alias)]),
    };
    let run = config.execute("a", &strs(&["@x", "@g"])).unwrap();
    assert_eq!(run.commands, vec![strs(&["run", "local", "value", "kept"])]);
}

#[test]
fn lookup_alias_renders_without_expanding() {
    let alias = Alias {
        command: Some(Execution::And(strs(&["make build", "make test"]))),
        sub_aliases: None,
        expansions: None,
    };
    let config = EpithetConfig {
        global_expansions: None,
        aliases: Some(vec![("m".to_string(), alias)]),
    };
    let line = config.lookup_alias("m", &strs(&[])).unwrap();
    assert_eq!(line, "make build && make test");
}

#[test]
fn lookup_alias_prefers_matching_sub_alias() {
    let config = EpithetConfig {
        global_expansions: None,
        aliases: Some(vec![("a".to_string(), alias_with_sub())]),
    };
    assert_eq!(config.lookup_alias("a", &strs(&["b1"])).unwrap(), "sub");
    assert_eq!(config.lookup_alias("a", &strs(&["zz"])).unwrap(), "direct {0}");
    assert_eq!(config.lookup_alias("missing", &strs(&[])), None);
}

#[test]
fn lookup_renders_or_and_pipeline_operators() {
    let or_alias = Alias {
        command: Some(Execution::Or(strs(&["a", "b"]))),
        sub_aliases: None,
        expansions: None,
    };
    let pipe_alias = Alias {
        command: Some(Execution::Pipeline(strs(&["a", "b"]))),
        sub_aliases: None,
        expansions: None,
    };
    assert_eq!(or_alias.lookup(&strs(&[])).unwrap(), "a || b");
    assert_eq!(pipe_alias.lookup(&strs(&[])).unwrap(), "a | b");
}
