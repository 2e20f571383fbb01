use composer_rs::install::{
    aggregate_results, cache_file_name, destination_directory, install_plan, package_action,
    zip_install_steps, ArchiveStep, InstallAction, InstallError,
};
use composer_rs::lock::{ComposerLock, ComposerPackage, ComposerPackageSource};

fn descriptor(kind: &str, url: &str, reference: &str) -> ComposerPackageSource {
    ComposerPackageSource {
        source_type: kind.to_string(),
        url: url.to_string(),
        reference: reference.to_string(),
    }
}

fn plain_package(name: &str, dist: Option<ComposerPackageSource>) -> ComposerPackage {
    ComposerPackage {
        name: name.to_string(),
        version: "1.0.0".to_string(),
        source: None,
        dist,
        package_type: None,
        autoload: None,
    }
}

#[test]
fn missing_descriptor_fails_naming_the_package() {
    let p = plain_package("acme/empty", None);
    let action = package_action(&p);
    assert_eq!(
        action,
        Err(InstallError::MissingArtifactDescriptor { package: "acme/empty".to_string() })
    );
}

#[test]
fn metapackage_never_requires_a_descriptor() {
    let mut p = plain_package("acme/meta", None);
    p.package_type = Some("metapackage".to_string());
    assert_eq!(package_action(&p), Ok(InstallAction::Skip));
}

#[test]
fn dist_is_preferred_over_source() {
    let mut p = plain_package(
        "acme/widget",
        Some(descriptor("zip", "https://example/dist.zip", "distref")),
    );
    p.source = Some(descriptor("zip", "https://example/src.zip", "srcref"));
    match package_action(&p) {
        Ok(InstallAction::InstallZip { url, reference, .. }) => {
            assert_eq!(url, "https://example/dist.zip".to_string());
            assert_eq!(reference, "distref".to_string());
        },
        other => panic!("expected a zip install, got {:?}", other),
    }
}

#[test]
fn source_is_the_fallback() {
    let mut p = plain_package("acme/widget", None);
    p.source = Some(descriptor("zip", "https://example/src.zip", "srcref"));
    match package_action(&p) {
        Ok(InstallAction::InstallZip { reference, .. }) => {
            assert_eq!(reference, "srcref".to_string());
        },
        other => panic!("expected a zip install, got {:?}", other),
    }
}

#[test]
fn unsupported_kind_fails_for_that_package() {
    let p = plain_package("acme/tarred", Some(descriptor("tar", "https://example/t.tar", "r1")));
    assert_eq!(
        package_action(&p),
        Err(InstallError::UnsupportedDistributionKind {
            package: "acme/tarred".to_string(),
            kind: "tar".to_string(),
        })
    );
}

#[test]
fn concrete_scenario_plans_fetch_cache_and_destination() {
    let p = plain_package(
        "acme/widget",
        Some(descriptor("zip", "https://example/widget.zip", "abc123")),
    );
    let action = package_action(&p);
    assert_eq!(
        action,
        Ok(InstallAction::InstallZip {
            url: "https://example/widget.zip".to_string(),
            reference: "abc123".to_string(),
            cache_file: "abc123.zip".to_string(),
            destination: "vendor/acme/widget".to_string(),
        })
    );
    assert_eq!(cache_file_name("abc123"), "abc123.zip".to_string());
    assert_eq!(destination_directory("acme/widget"), "vendor/acme/widget".to_string());
}

#[test]
fn cold_cache_fetches_then_persists_after_extraction() {
    let steps = zip_install_steps(false);
    assert_eq!(
        steps,
        vec![
            ArchiveStep::FetchArchive,
            ArchiveStep::CreateTargetDir,
            ArchiveStep::ExtractArchive,
            ArchiveStep::PersistArchive,
        ]
    );
}

#[test]
fn warm_cache_makes_zero_network_calls() {
    let steps = zip_install_steps(true);
    assert_eq!(
        steps,
        vec![
            ArchiveStep::ReadCachedArchive,
            ArchiveStep::CreateTargetDir,
            ArchiveStep::ExtractArchive,
        ]
    );
    assert!(!steps.contains(&ArchiveStep::FetchArchive));
}

#[test]
fn plan_covers_every_package_despite_one_failure() {
    let lock = ComposerLock {
        packages: vec![
            plain_package("acme/first", Some(descriptor("zip", "https://example/a.zip", "ra"))),
            plain_package("acme/bad", Some(descriptor("tar", "https://example/b.tar", "rb"))),
            plain_package("acme/third", Some(descriptor("zip", "https://example/c.zip", "rc"))),
        ],
        content_hash: "h".to_string(),
    };
    let plan = install_plan(&lock);
    assert_eq!(plan.len(), 3);
    assert_eq!(plan[0].0, "acme/first".to_string());
    assert!(matches!(plan[0].1, Ok(InstallAction::InstallZip { .. })));
    assert_eq!(
        plan[1].1,
        Err(InstallError::UnsupportedDistributionKind {
            package: "acme/bad".to_string(),
            kind: "tar".to_string(),
        })
    );
    assert!(matches!(plan[2].1, Ok(InstallAction::InstallZip { .. })));
}

#[test]
fn aggregation_surfaces_first_failure_after_all_finish() {
    let results: Vec<Result<(), InstallError>> = vec![
        Ok(()),
        Err(InstallError::UnsupportedDistributionKind {
            package: "acme/bad".to_string(),
            kind: "tar".to_string(),
        }),
        Err(InstallError::ExtractionFailure { package: "acme/later".to_string() }),
        Ok(()),
    ];
    let overall = aggregate_results(results);
    assert_eq!(
        overall,
        Err(InstallError::UnsupportedDistributionKind {
            package: "acme/bad".to_string(),
            kind: "tar".to_string(),
        })
    );
}

#[test]
fn aggregation_succeeds_only_when_every_package_did() {
    let results: Vec<Result<(), InstallError>> = vec![Ok(()), Ok(()), Ok(())];
    assert_eq!(aggregate_results(results), Ok(()));
    let empty: Vec<Result<(), InstallError>> = Vec::new();
    assert_eq!(aggregate_results(empty), Ok(()));
}

#[test]
fn network_and_extraction_errors_name_their_package() {
    let network = InstallError::NetworkFailure {
        package: "acme/widget".to_string(),
        url: "https://example/widget.zip".to_string(),
    };
    assert_eq!(network.package_name(), &"acme/widget".to_string());
    let extraction = InstallError::ExtractionFailure { package: "acme/zipless".to_string() };
    assert_eq!(extraction.package_name(), &"acme/zipless".to_string());
}
