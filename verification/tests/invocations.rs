use prog::error::ParseError;
use prog::invoc::{split_statements, Invoc, InvocType, Invocs};
use prog::prelude::TryParseFrom;

#[test]
fn parse_declarative() {
    let inv = Invoc::try_parse_from("build").unwrap();
    assert_eq!(inv.alias_key, "build".to_string());
    assert!(matches!(inv.invoc_type, InvocType::Declarative));
}

#[test]
fn parse_declarative_alphanumeric() {
    let inv = Invoc::try_parse_from("build2").unwrap();
    assert_eq!(inv.alias_key, "build2".to_string());
    assert!(matches!(inv.invoc_type, InvocType::Declarative));
}

#[test]
fn parse_imperative_trims_arguments() {
    let inv = Invoc::try_parse_from("run(5, x)").unwrap();
    assert_eq!(inv.alias_key, "run".to_string());
    match inv.invoc_type {
        InvocType::Imperative(args) => {
            assert_eq!(args, vec!["5".to_string(), "x".to_string()]);
        }
        other => panic!("expected imperative, got {:?}", other),
    }
}

#[test]
fn parse_imperative_empty_arguments() {
    let inv = Invoc::try_parse_from("run()").unwrap();
    assert_eq!(inv.alias_key, "run".to_string());
    match inv.invoc_type {
        InvocType::Imperative(args) => assert!(args.is_empty()),
        other => panic!("expected imperative, got {:?}", other),
    }
}

#[test]
fn parse_imperative_requires_alphabetic_name() {
    assert!(Invoc::try_parse_from("run2(x)").is_err());
}

#[test]
fn parse_scoped() {
    let inv = Invoc::try_parse_from("grp{build,test}").unwrap();
    assert_eq!(inv.alias_key, "grp".to_string());
    match inv.invoc_type {
        InvocType::Scoped(subs) => {
            assert_eq!(subs.len(), 2);
            assert_eq!(subs[0].alias_key, "build".to_string());
            assert!(matches!(subs[0].invoc_type, InvocType::Declarative));
            assert_eq!(subs[1].alias_key, "test".to_string());
        }
        other => panic!("expected scoped, got {:?}", other),
    }
}

#[test]
fn parse_scoped_empty() {
    let inv = Invoc::try_parse_from("grp{}").unwrap();
    match inv.invoc_type {
        InvocType::Scoped(subs) => assert!(subs.is_empty()),
        other => panic!("expected scoped, got {:?}", other),
    }
}

#[test]
fn parse_indexical() {
    let inv = Invoc::try_parse_from("list[0, 2]").unwrap();
    assert_eq!(inv.alias_key, "list".to_string());
    match inv.invoc_type {
        InvocType::Indexical(idxs) => assert_eq!(idxs, vec![0, 2]),
        other => panic!("expected indexical, got {:?}", other),
    }
}

#[test]
fn parse_indexical_rejects_non_digits() {
    assert!(Invoc::try_parse_from("list[x]").is_err());
    assert!(Invoc::try_parse_from("list[1 2]").is_err());
}

#[test]
fn parse_selective() {
    let inv = Invoc::try_parse_from("grp.build").unwrap();
    assert_eq!(inv.alias_key, "grp".to_string());
    match inv.invoc_type {
        InvocType::Selective(child) => {
            assert_eq!(child.alias_key, "build".to_string());
            assert!(matches!(child.invoc_type, InvocType::Declarative));
        }
        other => panic!("expected selective, got {:?}", other),
    }
}

#[test]
fn parse_selective_nested() {
    let inv = Invoc::try_parse_from("a.b.c").unwrap();
    assert_eq!(inv.alias_key, "a".to_string());
    match inv.invoc_type {
        InvocType::Selective(child) => {
            assert_eq!(child.alias_key, "b".to_string());
            match &child.invoc_type {
                InvocType::Selective(grandchild) => {
                    assert_eq!(grandchild.alias_key, "c".to_string());
                }
                other => panic!("expected selective, got {:?}", other),
            }
        }
        other => panic!("expected selective, got {:?}", other),
    }
}

#[test]
fn parse_rejects_invalid_syntax() {
    assert!(Invoc::try_parse_from("").is_err());
    assert!(Invoc::try_parse_from("a-b").is_err());
    assert!(Invoc::try_parse_from("(x)").is_err());
    assert!(Invoc::try_parse_from("a{b").is_err());
}

#[test]
fn parse_error_message() {
    let e = Invoc::try_parse_from("").unwrap_err();
    assert_eq!(e, ParseError::Syntax);
    assert_eq!(e.message(), "invalid invocation syntax".to_string());
}

#[test]
fn split_statements_on_delimiters() {
    let stmts = split_statements("a;b\nc");
    assert_eq!(
        stmts,
        vec!["a".to_string(), "b".to_string(), "c".to_string()]
    );
}

#[test]
fn split_statements_discards_empty() {
    assert_eq!(split_statements(""), Vec::<String>::new());
    assert_eq!(split_statements(";;;"), Vec::<String>::new());
    assert_eq!(split_statements("a;;b"), vec!["a".to_string(), "b".to_string()]);
}

#[test]
fn split_statements_eats_single_bounding_whitespace() {
    assert_eq!(
        split_statements("a ; b"),
        vec!["a".to_string(), "b".to_string()]
    );
    assert_eq!(
        split_statements("run(1, 2) ;\n test"),
        vec!["run(1, 2)".to_string(), "test".to_string()]
    );
}

#[test]
fn parse_targets_in_order() {
    let invs = Invocs::try_parse_from(&"build;run(x)\ngrp.test".to_string()).unwrap();
    assert_eq!(invs.len(), 3);
    assert_eq!(invs[0].alias_key, "build".to_string());
    assert_eq!(invs[1].alias_key, "run".to_string());
    assert_eq!(invs[2].alias_key, "grp".to_string());
}

#[test]
fn parse_targets_fails_on_any_bad_statement() {
    assert!(Invocs::try_parse_from(&"build;!!".to_string()).is_err());
}

#[test]
fn parse_targets_empty_input_is_empty() {
    let invs = Invocs::try_parse_from(&"".to_string()).unwrap();
    assert!(invs.is_empty());
}

#[test]
fn parse_indexical_rejects_oversized_index() {
    // One past the largest machine word: matches the index grammar but
    // cannot be represented, so the statement is rejected.
    assert!(Invoc::try_parse_from("a[18446744073709551616]").is_err());
    let inv = Invoc::try_parse_from("a[18446744073709551615]").unwrap();
    match inv.invoc_type {
        InvocType::Indexical(idxs) => assert_eq!(idxs, vec![usize::MAX]),
        other => panic!("expected indexical, got {:?}", other),
    }
}
