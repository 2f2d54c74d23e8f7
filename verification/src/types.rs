//! Shared types: npm registry data as the resolver reads it, resolution results
//! and the build manifest. Maps of the registry are held as lists of pairs.
use vstd::prelude::*;
use crate::externals::opt_view;

verus! {

/// A list of string pairs, as text.
pub open spec fn pair_views(v: Seq<(String, String)>) -> Seq<(Seq<char>, Seq<char>)> {
    v.map_values(|p: (String, String)| (p.0@, p.1@))
}

pub open spec fn opt_list_view(o: Option<Vec<String>>) -> Option<Seq<Seq<char>>> {
    match o {
        Some(v) => Some(crate::text::string_views(v@)),
        None => None,
    }
}

pub struct NpmDistView {
    pub tarball: Seq<char>,
    pub integrity: Option<Seq<char>>,
    pub shasum: Option<Seq<char>>,
}

pub struct NpmVersionInfoView {
    pub name: Seq<char>,
    pub version: Seq<char>,
    pub dependencies: Seq<(Seq<char>, Seq<char>)>,
    pub dev_dependencies: Seq<(Seq<char>, Seq<char>)>,
    pub peer_dependencies: Seq<(Seq<char>, Seq<char>)>,
    pub optional_dependencies: Seq<(Seq<char>, Seq<char>)>,
    pub dist: NpmDistView,
    pub has_bin: bool,
    pub os: Option<Seq<Seq<char>>>,
    pub cpu: Option<Seq<Seq<char>>>,
}

pub struct NpmPackageMetadataView {
    pub name: Seq<char>,
    pub dist_tags: Seq<(Seq<char>, Seq<char>)>,
    pub versions: Seq<(Seq<char>, NpmVersionInfoView)>,
}

pub struct ResolvedPackageView {
    pub pname: Seq<char>,
    pub version: Seq<char>,
    pub url: Seq<char>,
    pub integrity: Seq<char>,
    pub dependencies: Seq<Seq<char>>,
    pub has_bin: Option<bool>,
}

pub struct WorkspacePackageRefView {
    pub name: Seq<char>,
    pub relative_path: Seq<char>,
}

/// Full package metadata from the npm registry.
#[derive(Debug)]
pub struct NpmPackageMetadata {
    pub name: String,
    /// `dist-tags`: tag name to version
    pub dist_tags: Vec<(String, String)>,
    /// version string to version info
    pub versions: Vec<(String, NpmVersionInfo)>,
}

/// Version-specific info from the npm registry.
#[derive(Debug)]
pub struct NpmVersionInfo {
    pub name: String,
    pub version: String,
    pub dependencies: Vec<(String, String)>,
    pub dev_dependencies: Vec<(String, String)>,
    pub peer_dependencies: Vec<(String, String)>,
    pub optional_dependencies: Vec<(String, String)>,
    pub dist: NpmDist,
    /// Whether the registry lists a `bin` entry
    pub has_bin: bool,
    pub os: Option<Vec<String>>,
    pub cpu: Option<Vec<String>>,
}

/// Distribution info from the npm registry.
#[derive(Debug)]
pub struct NpmDist {
    pub tarball: String,
    pub integrity: Option<String>,
    pub shasum: Option<String>,
}

impl View for NpmDist {
    type V = NpmDistView;

    open spec fn view(&self) -> NpmDistView {
        NpmDistView { tarball: self.tarball@, integrity: opt_view(self.integrity), shasum: opt_view(self.shasum) }
    }
}

impl View for NpmVersionInfo {
    type V = NpmVersionInfoView;

    open spec fn view(&self) -> NpmVersionInfoView {
        NpmVersionInfoView {
            name: self.name@,
            version: self.version@,
            dependencies: pair_views(self.dependencies@),
            dev_dependencies: pair_views(self.dev_dependencies@),
            peer_dependencies: pair_views(self.peer_dependencies@),
            optional_dependencies: pair_views(self.optional_dependencies@),
            dist: self.dist@,
            has_bin: self.has_bin,
            os: opt_list_view(self.os),
            cpu: opt_list_view(self.cpu),
        }
    }
}

pub open spec fn version_entry_views(v: Seq<(String, NpmVersionInfo)>) -> Seq<(Seq<char>, NpmVersionInfoView)> {
    v.map_values(|p: (String, NpmVersionInfo)| (p.0@, p.1@))
}

impl View for NpmPackageMetadata {
    type V = NpmPackageMetadataView;

    open spec fn view(&self) -> NpmPackageMetadataView {
        NpmPackageMetadataView {
            name: self.name@,
            dist_tags: pair_views(self.dist_tags@),
            versions: version_entry_views(self.versions@),
        }
    }
}

/// Workspace package detected from file: dependencies
#[derive(Debug)]
pub struct WorkspacePackageRef {
    /// Package name (e.g., "@curupira/shared")
    pub name: String,
    /// Relative path from package.json (e.g., "../shared")
    pub relative_path: String,
}

/// A resolved package with all details needed for deps.nix
#[derive(Debug)]
pub struct ResolvedPackage {
    pub pname: String,
    pub version: String,
    pub url: String,
    pub integrity: String,
    pub dependencies: Vec<String>,
    pub has_bin: Option<bool>,
}

impl View for WorkspacePackageRef {
    type V = WorkspacePackageRefView;

    open spec fn view(&self) -> WorkspacePackageRefView {
        WorkspacePackageRefView { name: self.name@, relative_path: self.relative_path@ }
    }
}

impl View for ResolvedPackage {
    type V = ResolvedPackageView;

    open spec fn view(&self) -> ResolvedPackageView {
        ResolvedPackageView {
            pname: self.pname@,
            version: self.version@,
            url: self.url@,
            integrity: self.integrity@,
            dependencies: crate::text::string_views(self.dependencies@),
            has_bin: self.has_bin,
        }
    }
}

/// npm alias info: "npm:package@version"
#[derive(Debug)]
pub struct NpmAlias {
    pub target_package: String,
    pub target_constraint: String,
}

/// Manifest entry for build command
#[derive(Debug)]
pub struct BuildManifestEntry {
    pub pname: String,
    pub version: String,
    pub tarball: String,
    pub dependencies: Vec<String>,
    pub has_bin: bool,
}

/// Workspace package from manifest
#[derive(Debug)]
pub struct WorkspacePackageEntry {
    pub name: String,
    pub path: String,
}

/// Full build manifest
#[derive(Debug)]
pub struct BuildManifest {
    pub packages: Vec<BuildManifestEntry>,
    pub workspace_packages: Vec<WorkspacePackageEntry>,
    /// Root dependencies from package.json (e.g., ["typescript@5.9.3", "react@18.3.1"])
    pub root_dependencies: Vec<String>,
}

/// Result of bundling
#[derive(Debug)]
pub struct BundleResult {
    /// Path to the bundled JavaScript file
    pub js_bundle: String,
    /// Path to the generated index.html
    pub index_html: String,
    /// Paths to copied assets
    pub assets: Vec<String>,
    /// Content hash of the bundle (for cache busting)
    pub bundle_hash: String,
}

} // verus!
