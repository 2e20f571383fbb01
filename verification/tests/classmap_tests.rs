use composer_rs::classmap::{
    classmap_of_statements, get_classes_of_statements, scan_root_mode, str_ends_with,
    walk_decision, PhpStatement, ScanRoot, WalkDecision,
};
use composer_rs::str_equal;
use php_parser_rs::parser::ast::namespaces::NamespaceStatement;
use php_parser_rs::parser::ast::Statement;

/// Mirrors the surrounding program's mapping from the analyzer's statement
/// enum onto the library's closed variant.
fn statement_model(s: Statement) -> PhpStatement {
    match s {
        Statement::Class(c) => PhpStatement::Class {
            name: String::from_utf8_lossy(&c.name.value.bytes).into_owned(),
        },
        Statement::Namespace(NamespaceStatement::Braced(b)) => PhpStatement::BracedNamespace {
            name: b.name.map(|n| String::from_utf8_lossy(&n.value.bytes).into_owned()),
            body: b.body.statements.into_iter().map(statement_model).collect(),
        },
        Statement::Namespace(NamespaceStatement::Unbraced(u)) => PhpStatement::UnbracedNamespace {
            name: String::from_utf8_lossy(&u.name.value.bytes).into_owned(),
            body: u.statements.into_iter().map(statement_model).collect(),
        },
        _ => PhpStatement::Other,
    }
}

fn scan_source(map: &mut Vec<(String, String)>, source: &[u8], relative_path: &str) -> bool {
    match php_parser_rs::parse(source) {
        Ok(statements) => {
            let modeled: Vec<PhpStatement> = statements.into_iter().map(statement_model).collect();
            classmap_of_statements(map, &modeled, &relative_path.to_string());
            true
        }
        Err(_) => false,
    }
}

#[test]
fn unbraced_namespace_qualifies_class() {
    let mut map: Vec<(String, String)> = Vec::new();
    let parsed = scan_source(&mut map, b"<?php namespace Foo; class Bar {}", "src/Bar.php");
    assert!(parsed);
    assert_eq!(map, vec![("Foo\\Bar".to_string(), "src/Bar.php".to_string())]);
}

#[test]
fn braced_namespaces_each_qualify_their_classes() {
    let mut map: Vec<(String, String)> = Vec::new();
    let parsed = scan_source(
        &mut map,
        b"<?php namespace Foo { class Bar {} } namespace Baz { class Qux {} }",
        "src/multi.php",
    );
    assert!(parsed);
    assert_eq!(
        map,
        vec![
            ("Foo\\Bar".to_string(), "src/multi.php".to_string()),
            ("Baz\\Qux".to_string(), "src/multi.php".to_string()),
        ]
    );
}

#[test]
fn global_class_keeps_bare_name() {
    let mut map: Vec<(String, String)> = Vec::new();
    let parsed = scan_source(&mut map, b"<?php class Plain {}", "Plain.php");
    assert!(parsed);
    assert_eq!(map, vec![("Plain".to_string(), "Plain.php".to_string())]);
}

#[test]
fn parse_failure_contributes_nothing() {
    let mut map: Vec<(String, String)> = Vec::new();
    map.push(("Kept\\Entry".to_string(), "kept.php".to_string()));
    let parsed = scan_source(&mut map, b"<?php class {", "broken.php");
    assert!(!parsed);
    assert_eq!(map, vec![("Kept\\Entry".to_string(), "kept.php".to_string())]);
}

#[test]
fn duplicate_class_name_overwrites_silently() {
    let mut map: Vec<(String, String)> = Vec::new();
    assert!(scan_source(&mut map, b"<?php namespace Foo; class Bar {}", "a.php"));
    assert!(scan_source(&mut map, b"<?php namespace Foo; class Bar {}", "b.php"));
    assert_eq!(map, vec![("Foo\\Bar".to_string(), "b.php".to_string())]);
}

#[test]
fn statement_walk_handles_nesting_and_inert_shapes() {
    let statements = vec![
        PhpStatement::Class { name: "Top".to_string() },
        PhpStatement::Other,
        PhpStatement::BracedNamespace {
            name: Some("Outer".to_string()),
            body: vec![
                PhpStatement::Class { name: "Inner".to_string() },
                PhpStatement::BracedNamespace {
                    name: None,
                    body: vec![PhpStatement::Class { name: "Global".to_string() }],
                },
            ],
        },
        PhpStatement::UnbracedNamespace {
            name: "Tail".to_string(),
            body: vec![PhpStatement::Class { name: "Last".to_string() }],
        },
    ];
    let classes = get_classes_of_statements(&statements, &"".to_string());
    assert_eq!(
        classes,
        vec![
            "Top".to_string(),
            "Outer\\Inner".to_string(),
            "Outer\\Global".to_string(),
            "Tail\\Last".to_string(),
        ]
    );
}

#[test]
fn classmap_records_statement_tree_against_path() {
    let mut map: Vec<(String, String)> = Vec::new();
    let statements = vec![PhpStatement::UnbracedNamespace {
        name: "Acme".to_string(),
        body: vec![
            PhpStatement::Class { name: "One".to_string() },
            PhpStatement::Class { name: "Two".to_string() },
        ],
    }];
    classmap_of_statements(&mut map, &statements, &"src/lib.php".to_string());
    assert_eq!(
        map,
        vec![
            ("Acme\\One".to_string(), "src/lib.php".to_string()),
            ("Acme\\Two".to_string(), "src/lib.php".to_string()),
        ]
    );
}

#[test]
fn missing_scan_root_yields_empty_fragment() {
    assert_eq!(scan_root_mode(false, false), ScanRoot::Missing);
    assert_eq!(scan_root_mode(false, true), ScanRoot::Missing);
    let map: Vec<(String, String)> = Vec::new();
    assert!(map.is_empty());
}

#[test]
fn scan_root_distinguishes_file_and_directory() {
    assert_eq!(scan_root_mode(true, true), ScanRoot::SingleFile);
    assert_eq!(scan_root_mode(true, false), ScanRoot::Directory);
}

#[test]
fn walk_skips_hidden_and_node_modules() {
    assert_eq!(walk_decision(".git", "pkg/.git"), WalkDecision::SkipDirectory);
    assert_eq!(
        walk_decision("node_modules", "pkg/node_modules"),
        WalkDecision::SkipDirectory
    );
    assert_eq!(walk_decision("readme.md", "pkg/readme.md"), WalkDecision::SkipEntry);
    assert_eq!(walk_decision("Bar.php", "pkg/src/Bar.php"), WalkDecision::Visit);
    assert_eq!(walk_decision("util.inc", "pkg/src/util.inc"), WalkDecision::Visit);
}

#[test]
fn string_helpers_compare_characterwise() {
    assert!(str_ends_with("src/Bar.php", ".php"));
    assert!(!str_ends_with("src/Bar.phps", ".php"));
    assert!(!str_ends_with("hp", ".php"));
    assert!(str_equal("node_modules", "node_modules"));
    assert!(!str_equal("node_modules", "node_module"));
}
