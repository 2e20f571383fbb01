//! The installer's decisions: per-package validation and planning, the
//! cache-or-fetch step order for one archive, and the aggregation of the
//! per-package outcomes after every unit of work has finished. The network
//! and filesystem work itself is carried out by the surrounding program,
//! step by step as planned here.

use vstd::prelude::*;

use crate::lock::{
    descriptor, is_metapackage, spec_descriptor, spec_is_metapackage, ComposerLock,
    ComposerPackage, PackageView,
};
use crate::str_equal;

verus! {

/// Why one package, or the whole run, failed.
#[derive(Debug, PartialEq, Eq)]
pub enum InstallError {
    MissingArtifactDescriptor { package: String },
    UnsupportedDistributionKind { package: String, kind: String },
    NetworkFailure { package: String, url: String },
    ExtractionFailure { package: String },
}

/// Mathematical model of an install error.
pub enum InstallErrorView {
    MissingArtifactDescriptor { package: Seq<char> },
    UnsupportedDistributionKind { package: Seq<char>, kind: Seq<char> },
    NetworkFailure { package: Seq<char>, url: Seq<char> },
    ExtractionFailure { package: Seq<char> },
}

impl View for InstallError {
    type V = InstallErrorView;

    open spec fn view(&self) -> InstallErrorView {
        match self {
            InstallError::MissingArtifactDescriptor { package } => {
                InstallErrorView::MissingArtifactDescriptor { package: package@ }
            },
            InstallError::UnsupportedDistributionKind { package, kind } => {
                InstallErrorView::UnsupportedDistributionKind { package: package@, kind: kind@ }
            },
            InstallError::NetworkFailure { package, url } => {
                InstallErrorView::NetworkFailure { package: package@, url: url@ }
            },
            InstallError::ExtractionFailure { package } => {
                InstallErrorView::ExtractionFailure { package: package@ }
            },
        }
    }
}

impl InstallError {
    /// The package the failure belongs to.
    pub fn package_name(&self) -> (r: &String)
        ensures
            r@ == self@.spec_package_name(),
    {
        match self {
            InstallError::MissingArtifactDescriptor { package } => package,
            InstallError::UnsupportedDistributionKind { package, kind } => package,
            InstallError::NetworkFailure { package, url } => package,
            InstallError::ExtractionFailure { package } => package,
        }
    }
}

impl InstallErrorView {
    pub open spec fn spec_package_name(self) -> Seq<char> {
        match self {
            InstallErrorView::MissingArtifactDescriptor { package } => package,
            InstallErrorView::UnsupportedDistributionKind { package, kind } => package,
            InstallErrorView::NetworkFailure { package, url } => package,
            InstallErrorView::ExtractionFailure { package } => package,
        }
    }
}

/// What the installer does for one package: nothing for a virtual package,
/// or one zip install with everything the steps need.
#[derive(Debug, PartialEq, Eq)]
pub enum InstallAction {
    Skip,
    InstallZip { url: String, reference: String, cache_file: String, destination: String },
}

/// Mathematical model of a package's install action.
pub enum InstallActionView {
    Skip,
    InstallZip {
        url: Seq<char>,
        reference: Seq<char>,
        cache_file: Seq<char>,
        destination: Seq<char>,
    },
}

impl View for InstallAction {
    type V = InstallActionView;

    open spec fn view(&self) -> InstallActionView {
        match self {
            InstallAction::Skip => InstallActionView::Skip,
            InstallAction::InstallZip { url, reference, cache_file, destination } => {
                InstallActionView::InstallZip {
                    url: url@,
                    reference: reference@,
                    cache_file: cache_file@,
                    destination: destination@,
                }
            },
        }
    }
}

/// The archive file name a reference is cached under.
pub open spec fn spec_cache_file_name(reference: Seq<char>) -> Seq<char> {
    reference + ".zip"@
}

/// The vendor-tree directory a package is extracted into.
pub open spec fn spec_destination(name: Seq<char>) -> Seq<char> {
    "vendor/"@ + name
}

/// The installer's decision for one package. A virtual package is skipped;
/// a package without any descriptor is invalid; `dist` is preferred over
/// `source`; and only the zip kind is supported.
pub open spec fn spec_package_action(p: PackageView) -> Result<InstallActionView, InstallErrorView> {
    if spec_is_metapackage(p) {
        Ok(InstallActionView::Skip)
    } else {
        match spec_descriptor(p) {
            None => Err(InstallErrorView::MissingArtifactDescriptor { package: p.name }),
            Some(d) => {
                if d.source_type == "zip"@ {
                    Ok(
                        InstallActionView::InstallZip {
                            url: d.url,
                            reference: d.reference,
                            cache_file: spec_cache_file_name(d.reference),
                            destination: spec_destination(p.name),
                        },
                    )
                } else {
                    Err(
                        InstallErrorView::UnsupportedDistributionKind {
                            package: p.name,
                            kind: d.source_type,
                        },
                    )
                }
            },
        }
    }
}

/// Builds `<reference>.zip`, the cache slot of an archive.
pub fn cache_file_name(reference: &str) -> (r: String)
    ensures
        r@ == spec_cache_file_name(reference@),
{
    let mut r = String::from_str(reference);
    r.append(".zip");
    r
}

/// Builds `vendor/<package-name>`, the directory a package is extracted
/// into, relative to the working directory.
pub fn destination_directory(name: &str) -> (r: String)
    ensures
        r@ == spec_destination(name@),
{
    let mut r = String::from_str("vendor/");
    r.append(name);
    r
}

/// Decides what the installer does for one package.
pub fn package_action(p: &ComposerPackage) -> (r: Result<InstallAction, InstallError>)
    ensures
        match r {
            Ok(a) => spec_package_action(p@) == Ok::<InstallActionView, InstallErrorView>(a@),
            Err(e) => spec_package_action(p@) == Err::<InstallActionView, InstallErrorView>(e@),
        },
{
    if is_metapackage(p) {
        return Ok(InstallAction::Skip);
    }
    match descriptor(p) {
        None => Err(
            InstallError::MissingArtifactDescriptor { package: p.name.clone() },
        ),
        Some(d) => {
            if str_equal(d.source_type.as_str(), "zip") {
                Ok(
                    InstallAction::InstallZip {
                        url: d.url.clone(),
                        reference: d.reference.clone(),
                        cache_file: cache_file_name(d.reference.as_str()),
                        destination: destination_directory(p.name.clone().as_str()),
                    },
                )
            } else {
                Err(
                    InstallError::UnsupportedDistributionKind {
                        package: p.name.clone(),
                        kind: d.source_type.clone(),
                    },
                )
            }
        },
    }
}


/// A non-virtual package without `source` and without `dist` always fails
/// validation, with the error naming the package.
pub proof fn lemma_missing_descriptor_fails(p: PackageView)
    requires
        !spec_is_metapackage(p),
        p.dist is None,
        p.source is None,
    ensures
        spec_package_action(p) == Err::<InstallActionView, InstallErrorView>(
            InstallErrorView::MissingArtifactDescriptor { package: p.name },
        ),
{
}

/// A virtual package never requires a descriptor: it is skipped whatever
/// `source` and `dist` hold.
pub proof fn lemma_metapackage_needs_no_descriptor(p: PackageView)
    requires
        spec_is_metapackage(p),
    ensures
        spec_package_action(p) == Ok::<InstallActionView, InstallErrorView>(
            InstallActionView::Skip,
        ),
{
}

/// One plan entry is correct: it carries the package's name beside the
/// decision `spec_package_action` takes for it.
pub open spec fn plan_entry_ok(
    p: PackageView,
    entry: (String, Result<InstallAction, InstallError>),
) -> bool {
    &&& entry.0@ == p.name
    &&& match entry.1 {
        Ok(a) => spec_package_action(p) == Ok::<InstallActionView, InstallErrorView>(a@),
        Err(e) => spec_package_action(p) == Err::<InstallActionView, InstallErrorView>(e@),
    }
}

/// Plans the whole run: one decision per package, in manifest order. Every
/// package is planned whatever its siblings hold, so one invalid package
/// does not keep the rest from being attempted.
pub fn install_plan(lock: &ComposerLock) -> (r: Vec<(String, Result<InstallAction, InstallError>)>)
    ensures
        r@.len() == lock@.packages.len(),
        forall|i: int|
            0 <= i < r@.len() ==> #[trigger] plan_entry_ok(lock@.packages[i], r@[i]),
{
    let mut r: Vec<(String, Result<InstallAction, InstallError>)> = Vec::new();
    let n = lock.packages.len();
    for i in 0..n
        invariant
            n == lock.packages.len(),
            r@.len() == i,
            forall|j: int| 0 <= j < i ==> #[trigger] plan_entry_ok(lock@.packages[j], r@[j]),
    {
        let package = &lock.packages[i];
        proof {
            assert(lock@.packages[i as int] == package@);
        }
        let action = package_action(package);
        r.push((package.name.clone(), action));
        proof {
            assert(plan_entry_ok(lock@.packages[i as int], r@[i as int]));
        }
    }
    r
}

/// The I/O steps one zip install performs, in order.
#[derive(Debug, PartialEq, Eq, Structural, Clone, Copy)]
pub enum ArchiveStep {
    ReadCachedArchive,
    FetchArchive,
    CreateTargetDir,
    ExtractArchive,
    PersistArchive,
}

/// The step order for one archive: a warm cache is read and never fetched;
/// a cold cache is fetched, and the archive is persisted only after a
/// successful extraction, so a failed run never leaves a corrupt entry.
pub open spec fn spec_zip_steps(cache_hit: bool) -> Seq<ArchiveStep> {
    if cache_hit {
        seq![
            ArchiveStep::ReadCachedArchive,
            ArchiveStep::CreateTargetDir,
            ArchiveStep::ExtractArchive,
        ]
    } else {
        seq![
            ArchiveStep::FetchArchive,
            ArchiveStep::CreateTargetDir,
            ArchiveStep::ExtractArchive,
            ArchiveStep::PersistArchive,
        ]
    }
}

/// Plans the I/O steps of one zip install from whether the cache already
/// holds the reference.
pub fn zip_install_steps(cache_hit: bool) -> (r: Vec<ArchiveStep>)
    ensures
        r@ == spec_zip_steps(cache_hit),
{
    let r: Vec<ArchiveStep> = if cache_hit {
        vec![
            ArchiveStep::ReadCachedArchive,
            ArchiveStep::CreateTargetDir,
            ArchiveStep::ExtractArchive,
        ]
    } else {
        vec![
            ArchiveStep::FetchArchive,
            ArchiveStep::CreateTargetDir,
            ArchiveStep::ExtractArchive,
            ArchiveStep::PersistArchive,
        ]
    };
    proof {
        assert(r@ =~= spec_zip_steps(cache_hit));
    }
    r
}

/// With a warm cache no step fetches from the network: the second run of an
/// unchanged manifest makes zero network calls.
pub proof fn lemma_warm_cache_makes_no_fetch()
    ensures
        forall|i: int|
            0 <= i < spec_zip_steps(true).len() ==> spec_zip_steps(true)[i]
                != ArchiveStep::FetchArchive,
{
    assert forall|i: int| 0 <= i < spec_zip_steps(true).len() implies spec_zip_steps(true)[i]
        != ArchiveStep::FetchArchive by {
        assert(spec_zip_steps(true) == seq![
            ArchiveStep::ReadCachedArchive,
            ArchiveStep::CreateTargetDir,
            ArchiveStep::ExtractArchive,
        ]);
    }
}

/// On a cache miss the archive is persisted only after extraction: every
/// persist step comes after every extract step.
pub proof fn lemma_persist_follows_extract()
    ensures
        forall|i: int, j: int|
            0 <= i < spec_zip_steps(false).len() && 0 <= j < spec_zip_steps(false).len()
                && spec_zip_steps(false)[i] == ArchiveStep::PersistArchive && spec_zip_steps(
                false,
            )[j] == ArchiveStep::ExtractArchive ==> j < i,
{
}

/// Model of a run's outcomes, one per unit of work.
pub open spec fn results_view(s: Seq<Result<(), InstallError>>) -> Seq<
    Result<(), InstallErrorView>,
> {
    s.map_values(
        |r: Result<(), InstallError>|
            match r {
                Ok(u) => Ok(u),
                Err(e) => Err(e@),
            },
    )
}

/// The run's overall outcome: the first failure in task order, or success
/// when every unit of work succeeded.
pub open spec fn spec_first_error(rs: Seq<Result<(), InstallErrorView>>) -> Result<
    (),
    InstallErrorView,
>
    decreases rs.len(),
{
    if rs.len() == 0 {
        Ok(())
    } else {
        let prev = spec_first_error(rs.drop_last());
        if prev is Err {
            prev
        } else {
            rs.last()
        }
    }
}

/// A prefix of successes leaves the first error untouched.
proof fn lemma_first_error_at(rs: Seq<Result<(), InstallErrorView>>, j: int)
    requires
        0 <= j < rs.len(),
        rs[j] is Err,
        forall|k: int| 0 <= k < j ==> rs[k] is Ok,
    ensures
        spec_first_error(rs) == rs[j],
    decreases rs.len(),
{
    if rs.len() - 1 > j {
        lemma_first_error_at(rs.drop_last(), j);
    } else {
        lemma_first_error_all_ok(rs.drop_last());
    }
}

/// With every outcome a success the run succeeds.
proof fn lemma_first_error_all_ok(rs: Seq<Result<(), InstallErrorView>>)
    requires
        forall|k: int| 0 <= k < rs.len() ==> rs[k] is Ok,
    ensures
        spec_first_error(rs) is Ok,
    decreases rs.len(),
{
    if rs.len() > 0 {
        lemma_first_error_all_ok(rs.drop_last());
        assert(rs.last() is Ok);
    }
}

broadcast proof fn lemma_results_view_len(v: Seq<Result<(), InstallError>>)
    ensures
        #[trigger] results_view(v).len() == v.len(),
{
}

broadcast proof fn lemma_results_view_index(v: Seq<Result<(), InstallError>>, j: int)
    requires
        0 <= j < v.len(),
    ensures
        #[trigger] results_view(v)[j] == (match v[j] {
            Ok(u) => Ok::<(), InstallErrorView>(u),
            Err(e) => Err::<(), InstallErrorView>(e@),
        }),
{
}

/// Joins every unit of work's outcome after all have finished: the first
/// observed failure is surfaced, sibling failures are not enumerated, and
/// the run succeeds only when every package did.
pub fn aggregate_results(results: Vec<Result<(), InstallError>>) -> (r: Result<(), InstallError>)
    ensures
        r is Ok <==> spec_first_error(results_view(results@)) is Ok,
        r matches Err(e) ==> spec_first_error(results_view(results@)) == Err::<
            (),
            InstallErrorView,
        >(e@),
{
    broadcast use {lemma_results_view_len, lemma_results_view_index};

    let ghost rs = results_view(results@);
    let mut remaining = results;
    let n = remaining.len();
    let mut i: usize = 0;
    while i < n && remaining[i].is_ok()
        invariant
            n == remaining.len(),
            i <= n,
            rs == results_view(remaining@),
            forall|k: int| 0 <= k < i ==> rs[k] is Ok,
        decreases n - i,
    {
        i += 1;
    }
    if i < n {
        let e = remaining.remove(i);
        proof {
            assert(e is Err);
            lemma_first_error_at(rs, i as int);
            assert(rs[i as int] == (match e {
                Ok(u) => Ok::<(), InstallErrorView>(u),
                Err(er) => Err::<(), InstallErrorView>(er@),
            }));
        }
        return e;
    }
    proof {
        lemma_first_error_all_ok(rs);
    }
    Ok(())
}

} // verus!
