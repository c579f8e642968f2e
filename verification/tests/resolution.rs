use prog::alias::{Alias, AliasKey, AliasValue};
use prog::command::{resolve_all, resolve_invoc, Commands};
use prog::error::{KindMismatch, ResolveError};
use prog::invoc::{Invoc, InvocType};
use prog::prelude::TryParseFrom;

fn decl(name: &str) -> Invoc {
    Invoc {
        alias_key: name.to_string(),
        invoc_type: InvocType::Declarative,
    }
}

fn command_alias(name: &str, cmd: &str) -> Alias {
    Alias {
        key: AliasKey::Declaration(name.to_string()),
        value: AliasValue::Command(cmd.to_string()),
    }
}

fn list_alias(name: &str, cmds: &[&str]) -> Alias {
    Alias {
        key: AliasKey::Declaration(name.to_string()),
        value: AliasValue::List(cmds.iter().map(|c| c.to_string()).collect()),
    }
}

#[test]
fn declarative_against_command() {
    let aliases = vec![command_alias("build", "make all")];
    let cmds = resolve_invoc(&decl("build"), &aliases).unwrap();
    assert_eq!(cmds, vec!["make all".to_string()]);
}

#[test]
fn declarative_against_list() {
    let aliases = vec![list_alias("push", &["git add .", "git commit"])];
    let cmds = resolve_invoc(&decl("push"), &aliases).unwrap();
    assert_eq!(
        cmds,
        vec!["git add .".to_string(), "git commit".to_string()]
    );
}

#[test]
fn imperative_substitutes_positionally() {
    let aliases = vec![Alias {
        key: AliasKey::Function("run".to_string(), 1),
        value: AliasValue::Command("./$1".to_string()),
    }];
    let inv = Invoc {
        alias_key: "run".to_string(),
        invoc_type: InvocType::Imperative(vec!["5".to_string()]),
    };
    assert_eq!(resolve_invoc(&inv, &aliases).unwrap(), vec!["./5".to_string()]);
}

#[test]
fn imperative_substitution_ignores_literal_digits() {
    // Strict left-to-right positional replacement: the first placeholder
    // takes the first argument whatever its literal digits say.
    let aliases = vec![command_alias("swap", "$2 $1")];
    let inv = Invoc {
        alias_key: "swap".to_string(),
        invoc_type: InvocType::Imperative(vec!["a".to_string(), "b".to_string()]),
    };
    assert_eq!(resolve_invoc(&inv, &aliases).unwrap(), vec!["a b".to_string()]);
}

#[test]
fn imperative_leaves_unmatched_placeholders() {
    let aliases = vec![command_alias("run", "$1 $2")];
    let inv = Invoc {
        alias_key: "run".to_string(),
        invoc_type: InvocType::Imperative(vec!["x".to_string()]),
    };
    assert_eq!(resolve_invoc(&inv, &aliases).unwrap(), vec!["x $2".to_string()]);
}

#[test]
fn imperative_ignores_extra_arguments() {
    let aliases = vec![command_alias("run", "go $1")];
    let inv = Invoc {
        alias_key: "run".to_string(),
        invoc_type: InvocType::Imperative(vec!["a".to_string(), "b".to_string()]),
    };
    assert_eq!(resolve_invoc(&inv, &aliases).unwrap(), vec!["go a".to_string()]);
}

#[test]
fn imperative_substitutes_every_list_element() {
    let aliases = vec![list_alias("both", &["echo $1", "cat $1"])];
    let inv = Invoc {
        alias_key: "both".to_string(),
        invoc_type: InvocType::Imperative(vec!["f".to_string()]),
    };
    assert_eq!(
        resolve_invoc(&inv, &aliases).unwrap(),
        vec!["echo f".to_string(), "cat f".to_string()]
    );
}

#[test]
fn indexical_keeps_list_order() {
    let aliases = vec![list_alias("list", &["a", "b", "c"])];
    let inv = Invoc {
        alias_key: "list".to_string(),
        invoc_type: InvocType::Indexical(vec![0, 2]),
    };
    assert_eq!(
        resolve_invoc(&inv, &aliases).unwrap(),
        vec!["a".to_string(), "c".to_string()]
    );
    let reversed = Invoc {
        alias_key: "list".to_string(),
        invoc_type: InvocType::Indexical(vec![2, 0]),
    };
    assert_eq!(
        resolve_invoc(&reversed, &aliases).unwrap(),
        vec!["a".to_string(), "c".to_string()]
    );
}

#[test]
fn indexical_out_of_range_is_empty_not_error() {
    let aliases = vec![list_alias("list", &["a", "b", "c"])];
    let inv = Invoc {
        alias_key: "list".to_string(),
        invoc_type: InvocType::Indexical(vec![5]),
    };
    assert_eq!(resolve_invoc(&inv, &aliases).unwrap(), Vec::<String>::new());
}

#[test]
fn scoped_resolves_in_nested_level() {
    let aliases = vec![Alias {
        key: AliasKey::Declaration("grp".to_string()),
        value: AliasValue::Mapping(vec![command_alias("build", "make all")]),
    }];
    let inv = Invoc {
        alias_key: "grp".to_string(),
        invoc_type: InvocType::Scoped(vec![decl("build")]),
    };
    assert_eq!(
        resolve_invoc(&inv, &aliases).unwrap(),
        vec!["make all".to_string()]
    );
}

#[test]
fn scoped_concatenates_in_order() {
    let aliases = vec![Alias {
        key: AliasKey::Declaration("grp".to_string()),
        value: AliasValue::Mapping(vec![
            command_alias("a", "first"),
            list_alias("b", &["second", "third"]),
        ]),
    }];
    let inv = Invoc {
        alias_key: "grp".to_string(),
        invoc_type: InvocType::Scoped(vec![decl("a"), decl("b")]),
    };
    assert_eq!(
        resolve_invoc(&inv, &aliases).unwrap(),
        vec![
            "first".to_string(),
            "second".to_string(),
            "third".to_string()
        ]
    );
}

#[test]
fn selective_resolves_one_member() {
    let aliases = vec![Alias {
        key: AliasKey::Declaration("grp".to_string()),
        value: AliasValue::Mapping(vec![
            command_alias("build", "make all"),
            command_alias("test", "make test"),
        ]),
    }];
    let inv = Invoc {
        alias_key: "grp".to_string(),
        invoc_type: InvocType::Selective(Box::new(decl("test"))),
    };
    assert_eq!(
        resolve_invoc(&inv, &aliases).unwrap(),
        vec!["make test".to_string()]
    );
}

#[test]
fn shadowing_later_entry_wins() {
    let aliases = vec![
        command_alias("x", "old"),
        command_alias("x", "new"),
    ];
    assert_eq!(resolve_invoc(&decl("x"), &aliases).unwrap(), vec!["new".to_string()]);
}

#[test]
fn indexical_against_command_is_kind_mismatch() {
    let aliases = vec![command_alias("build", "make all")];
    let inv = Invoc {
        alias_key: "build".to_string(),
        invoc_type: InvocType::Indexical(vec![0]),
    };
    let err = resolve_invoc(&inv, &aliases).unwrap_err();
    assert_eq!(
        err,
        ResolveError::KindMismatch(KindMismatch::IndexicalOnNonList)
    );
}

#[test]
fn declarative_against_mapping_is_kind_mismatch() {
    let aliases = vec![Alias {
        key: AliasKey::Declaration("grp".to_string()),
        value: AliasValue::Mapping(vec![]),
    }];
    let err = resolve_invoc(&decl("grp"), &aliases).unwrap_err();
    assert_eq!(
        err,
        ResolveError::KindMismatch(KindMismatch::DeclarativeOnMap)
    );
}

#[test]
fn imperative_against_mapping_is_kind_mismatch() {
    let aliases = vec![Alias {
        key: AliasKey::Declaration("grp".to_string()),
        value: AliasValue::Mapping(vec![]),
    }];
    let inv = Invoc {
        alias_key: "grp".to_string(),
        invoc_type: InvocType::Imperative(vec![]),
    };
    let err = resolve_invoc(&inv, &aliases).unwrap_err();
    assert_eq!(
        err,
        ResolveError::KindMismatch(KindMismatch::ImperativeOnMap)
    );
}

#[test]
fn scoped_against_command_is_kind_mismatch() {
    let aliases = vec![command_alias("build", "make all")];
    let inv = Invoc {
        alias_key: "build".to_string(),
        invoc_type: InvocType::Scoped(vec![]),
    };
    let err = resolve_invoc(&inv, &aliases).unwrap_err();
    assert_eq!(err, ResolveError::KindMismatch(KindMismatch::ScopedOnNonMap));
}

#[test]
fn selective_against_list_is_kind_mismatch() {
    let aliases = vec![list_alias("list", &["a"])];
    let inv = Invoc {
        alias_key: "list".to_string(),
        invoc_type: InvocType::Selective(Box::new(decl("a"))),
    };
    let err = resolve_invoc(&inv, &aliases).unwrap_err();
    assert_eq!(
        err,
        ResolveError::KindMismatch(KindMismatch::SelectiveOnNonMap)
    );
}

#[test]
fn missing_alias_is_lookup_error() {
    let aliases = vec![command_alias("build", "make all")];
    let err = resolve_invoc(&decl("missing"), &aliases).unwrap_err();
    assert_eq!(err, ResolveError::Lookup);
}

#[test]
fn batch_failure_returns_no_commands() {
    let aliases = vec![command_alias("build", "make all")];
    let invs = vec![decl("build"), decl("missing")];
    let r = resolve_all(&invs, &aliases);
    assert_eq!(r, Err(ResolveError::Lookup));
}

#[test]
fn empty_batch_resolves_to_no_commands() {
    let aliases = vec![command_alias("build", "make all")];
    assert_eq!(resolve_all(&Vec::new(), &aliases).unwrap(), Vec::<String>::new());
}

#[test]
fn batch_concatenates_in_order() {
    let aliases = vec![
        command_alias("a", "one"),
        list_alias("b", &["two", "three"]),
    ];
    let invs = vec![decl("a"), decl("b")];
    assert_eq!(
        resolve_all(&invs, &aliases).unwrap(),
        vec!["one".to_string(), "two".to_string(), "three".to_string()]
    );
}

#[test]
fn commands_try_parse_from_resolves() {
    let aliases = vec![command_alias("build", "make all")];
    let inv = decl("build");
    let cmds = Commands::try_parse_from((&inv, &aliases)).unwrap();
    assert_eq!(cmds, vec!["make all".to_string()]);
}

#[test]
fn resolve_error_messages() {
    assert_eq!(
        ResolveError::Lookup.message(),
        "alias not found".to_string()
    );
    assert_eq!(
        ResolveError::KindMismatch(KindMismatch::DeclarativeOnMap).message(),
        "cannot invoke map alias declaratively".to_string()
    );
    assert_eq!(
        ResolveError::KindMismatch(KindMismatch::ImperativeOnMap).message(),
        "cannot invoke map alias imperatively".to_string()
    );
    assert_eq!(
        ResolveError::KindMismatch(KindMismatch::ScopedOnNonMap).message(),
        "only map aliases can be invoked with a scope".to_string()
    );
    assert_eq!(
        ResolveError::KindMismatch(KindMismatch::IndexicalOnNonList).message(),
        "only list aliases can be indexed".to_string()
    );
    assert_eq!(
        ResolveError::KindMismatch(KindMismatch::SelectiveOnNonMap).message(),
        "only map aliases can be invoked selectively".to_string()
    );
}

#[test]
fn end_to_end_target_to_commands() {
    let aliases = vec![
        Alias {
            key: AliasKey::Function("run".to_string(), 1),
            value: AliasValue::Command("python $1.py".to_string()),
        },
        list_alias("push", &["git add .", "git commit", "git push"]),
    ];
    let invs =
        prog::invoc::Invocs::try_parse_from(&"run(main);push[0, 2]".to_string()).unwrap();
    assert_eq!(
        resolve_all(&invs, &aliases).unwrap(),
        vec![
            "python main.py".to_string(),
            "git add .".to_string(),
            "git push".to_string()
        ]
    );
}
