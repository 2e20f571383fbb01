//! The resolved lock manifest: packages, artifact descriptors and autoload
//! directives. Pure data with validation helpers.
//!
//! PSR-0 and PSR-4 directives are kept as ordered key/value pairs so that
//! every index built from a manifest is a deterministic function of it and
//! preserves declaration order.

use vstd::prelude::*;

verus! {

/// A distribution or source artifact locator. `reference` is a stable,
/// content-derived identifier used as the cache key.
#[derive(Clone, Debug)]
pub struct ComposerPackageSource {
    pub source_type: String,
    pub url: String,
    pub reference: String,
}

/// Autoload directives of one package. An absent section means "no entries
/// of that kind".
#[derive(Clone, Debug)]
pub struct ComposerAutoload {
    pub files: Option<Vec<String>>,
    pub psr0: Option<Vec<(String, String)>>,
    pub psr4: Option<Vec<(String, String)>>,
}

/// One resolved package of the manifest.
#[derive(Clone, Debug)]
pub struct ComposerPackage {
    pub name: String,
    pub version: String,
    pub source: Option<ComposerPackageSource>,
    pub dist: Option<ComposerPackageSource>,
    pub package_type: Option<String>,
    pub autoload: Option<ComposerAutoload>,
}

/// The resolved manifest: an ordered package list and a content hash that is
/// threaded through to the renderer unchanged.
#[derive(Clone, Debug)]
pub struct ComposerLock {
    pub packages: Vec<ComposerPackage>,
    pub content_hash: String,
}

/// Mathematical model of an artifact locator.
pub struct SourceView {
    pub source_type: Seq<char>,
    pub url: Seq<char>,
    pub reference: Seq<char>,
}

/// Mathematical model of one package's autoload directives.
pub struct AutoloadView {
    pub files: Option<Seq<Seq<char>>>,
    pub psr0: Option<Seq<(Seq<char>, Seq<char>)>>,
    pub psr4: Option<Seq<(Seq<char>, Seq<char>)>>,
}

/// Mathematical model of a package.
pub struct PackageView {
    pub name: Seq<char>,
    pub version: Seq<char>,
    pub source: Option<SourceView>,
    pub dist: Option<SourceView>,
    pub package_type: Option<Seq<char>>,
    pub autoload: Option<AutoloadView>,
}

/// Mathematical model of the manifest.
pub struct LockView {
    pub packages: Seq<PackageView>,
    pub content_hash: Seq<char>,
}

pub open spec fn strings_view(s: Seq<String>) -> Seq<Seq<char>> {
    s.map_values(|x: String| x@)
}

pub open spec fn pairs_view(s: Seq<(String, String)>) -> Seq<(Seq<char>, Seq<char>)> {
    s.map_values(|p: (String, String)| (p.0@, p.1@))
}

impl View for ComposerPackageSource {
    type V = SourceView;

    open spec fn view(&self) -> SourceView {
        SourceView { source_type: self.source_type@, url: self.url@, reference: self.reference@ }
    }
}

impl View for ComposerAutoload {
    type V = AutoloadView;

    open spec fn view(&self) -> AutoloadView {
        AutoloadView {
            files: match self.files {
                Some(f) => Some(strings_view(f@)),
                None => None,
            },
            psr0: match self.psr0 {
                Some(p) => Some(pairs_view(p@)),
                None => None,
            },
            psr4: match self.psr4 {
                Some(p) => Some(pairs_view(p@)),
                None => None,
            },
        }
    }
}

impl View for ComposerPackage {
    type V = PackageView;

    open spec fn view(&self) -> PackageView {
        PackageView {
            name: self.name@,
            version: self.version@,
            source: match self.source {
                Some(s) => Some(s@),
                None => None,
            },
            dist: match self.dist {
                Some(d) => Some(d@),
                None => None,
            },
            package_type: match self.package_type {
                Some(t) => Some(t@),
                None => None,
            },
            autoload: match self.autoload {
                Some(a) => Some(a@),
                None => None,
            },
        }
    }
}

impl View for ComposerLock {
    type V = LockView;

    open spec fn view(&self) -> LockView {
        LockView {
            packages: self.packages@.map_values(|p: ComposerPackage| p@),
            content_hash: self.content_hash@,
        }
    }
}

/// A virtual package: it carries no installable artifact, only metadata and
/// (possibly) autoload directives.
pub open spec fn spec_is_metapackage(p: PackageView) -> bool {
    p.package_type == Some("metapackage"@)
}

/// Tests whether a package is virtual and must be skipped by the installer.
pub fn is_metapackage(p: &ComposerPackage) -> (r: bool)
    ensures
        r == spec_is_metapackage(p@),
{
    match &p.package_type {
        Some(t) => {
            let m = String::from_str("metapackage");
            t.eq(&m)
        },
        None => false,
    }
}

/// The descriptor the installer works from: `dist` preferred, `source` as
/// the fallback, and none at all for an invalid package.
pub open spec fn spec_descriptor(p: PackageView) -> Option<SourceView> {
    if p.dist is Some {
        p.dist
    } else {
        p.source
    }
}

/// Picks the artifact descriptor a package is installed from.
pub fn descriptor(p: &ComposerPackage) -> (r: Option<&ComposerPackageSource>)
    ensures
        match r {
            Some(d) => spec_descriptor(p@) == Some(d@),
            None => spec_descriptor(p@) is None,
        },
{
    match &p.dist {
        Some(d) => Some(d),
        None => match &p.source {
            Some(s) => Some(s),
            None => None,
        },
    }
}

} // verus!
