use composer_rs::autoload::{build_autoload_index, php_escape};
use composer_rs::lock::{ComposerAutoload, ComposerLock, ComposerPackage};
use composer_rs::package_qualified;

fn package(name: &str, autoload: Option<ComposerAutoload>) -> ComposerPackage {
    ComposerPackage {
        name: name.to_string(),
        version: "1.0.0".to_string(),
        source: None,
        dist: None,
        package_type: Some("metapackage".to_string()),
        autoload,
    }
}

fn lock_of(packages: Vec<ComposerPackage>) -> ComposerLock {
    ComposerLock { packages, content_hash: "hash123".to_string() }
}

#[test]
fn psr4_accumulates_in_declaration_order() {
    let p1 = package(
        "vendor1/p1",
        Some(ComposerAutoload {
            files: None,
            psr0: None,
            psr4: Some(vec![("App\\".to_string(), "src/".to_string())]),
        }),
    );
    let p2 = package(
        "vendor2/p2",
        Some(ComposerAutoload {
            files: None,
            psr0: None,
            psr4: Some(vec![("App\\".to_string(), "lib/".to_string())]),
        }),
    );
    let ix = build_autoload_index(&lock_of(vec![p1, p2]));
    assert_eq!(ix.psr4_paths.len(), 1);
    assert_eq!(ix.psr4_paths[0].0, "App\\".to_string());
    assert_eq!(
        ix.psr4_paths[0].1,
        vec!["vendor1/p1/src/".to_string(), "vendor2/p2/lib/".to_string()]
    );
    assert_eq!(ix.psr4_prefix.len(), 1);
    assert_eq!(ix.psr4_prefix[0].0, 'A');
    assert_eq!(ix.psr4_prefix[0].1, vec![("App\\".to_string(), 4usize)]);
}

#[test]
fn autoload_index_is_deterministic() {
    let make = || {
        lock_of(vec![
            package(
                "v/a",
                Some(ComposerAutoload {
                    files: Some(vec!["boot.php".to_string(), "extra.php".to_string()]),
                    psr0: Some(vec![("Acme_".to_string(), "lib/".to_string())]),
                    psr4: Some(vec![("Acme\\".to_string(), "src/".to_string())]),
                }),
            ),
            package("v/b", None),
            package(
                "v/c",
                Some(ComposerAutoload {
                    files: None,
                    psr0: None,
                    psr4: Some(vec![("Acme\\".to_string(), "other/".to_string())]),
                }),
            ),
        ])
    };
    let ix1 = build_autoload_index(&make());
    let ix2 = build_autoload_index(&make());
    assert_eq!(ix1, ix2);
    assert_eq!(ix1.content_hash, "hash123".to_string());
}

#[test]
fn files_index_keys_by_xxh3_digest() {
    let p = package(
        "v/p",
        Some(ComposerAutoload {
            files: Some(vec!["bootstrap.php".to_string()]),
            psr0: None,
            psr4: None,
        }),
    );
    let ix = build_autoload_index(&lock_of(vec![p]));
    let expected_key = xxhash_rust::xxh3::xxh3_64("bootstrap.php".as_bytes());
    assert_eq!(ix.files, vec![(expected_key, "v/p/bootstrap.php".to_string())]);
}

#[test]
fn files_index_overwrites_on_equal_identifier() {
    let p1 = package(
        "v/p1",
        Some(ComposerAutoload {
            files: Some(vec!["boot.php".to_string()]),
            psr0: None,
            psr4: None,
        }),
    );
    let p2 = package(
        "v/p2",
        Some(ComposerAutoload {
            files: Some(vec!["boot.php".to_string()]),
            psr0: None,
            psr4: None,
        }),
    );
    let ix = build_autoload_index(&lock_of(vec![p1, p2]));
    let key = xxhash_rust::xxh3::xxh3_64("boot.php".as_bytes());
    assert_eq!(ix.files, vec![(key, "v/p2/boot.php".to_string())]);
}

#[test]
fn psr0_buckets_by_first_character_and_dedupes_paths() {
    let p = package(
        "v/p",
        Some(ComposerAutoload {
            files: None,
            psr0: Some(vec![
                ("Acme_".to_string(), "lib/".to_string()),
                ("Acme_".to_string(), "lib/".to_string()),
                ("Acme_".to_string(), "other/".to_string()),
                ("Beta_".to_string(), "b/".to_string()),
            ]),
            psr4: None,
        }),
    );
    let ix = build_autoload_index(&lock_of(vec![p]));
    assert_eq!(ix.psr0.len(), 2);
    assert_eq!(ix.psr0[0].0, 'A');
    assert_eq!(
        ix.psr0[0].1,
        vec![(
            "Acme_".to_string(),
            vec!["v/p/lib/".to_string(), "v/p/other/".to_string()]
        )]
    );
    assert_eq!(ix.psr0[1].0, 'B');
    assert_eq!(ix.psr0[1].1, vec![("Beta_".to_string(), vec!["v/p/b/".to_string()])]);
}

#[test]
fn content_hash_is_threaded_through() {
    let ix = build_autoload_index(&lock_of(vec![]));
    assert_eq!(ix.content_hash, "hash123".to_string());
    assert!(ix.files.is_empty());
    assert!(ix.psr0.is_empty());
    assert!(ix.psr4_paths.is_empty());
    assert!(ix.psr4_prefix.is_empty());
}

#[test]
fn php_escape_doubles_backslashes() {
    assert_eq!(php_escape("App\\Name"), "App\\\\Name".to_string());
    assert_eq!(php_escape("no slashes"), "no slashes".to_string());
    assert_eq!(php_escape(""), "".to_string());
    assert_eq!(php_escape("\\"), "\\\\".to_string());
}

#[test]
fn package_qualified_joins_with_slash() {
    assert_eq!(package_qualified("acme/widget", "src/"), "acme/widget/src/".to_string());
}
