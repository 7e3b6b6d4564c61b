//! Typed records produced by the text parsers: package rows, source and
//! feature entries, search results, and the key-value details of one
//! package.

use vstd::prelude::*;

verus! {

/// One installed or upgradable package, as one row of tabular output.
#[derive(Debug, Clone, PartialEq, Eq)]
pub struct WingetPackage {
    /// Display name.
    pub name: String,
    /// Unique package id (for example `Microsoft.Edge`).
    pub id: String,
    /// Installed version.
    pub version: String,
    /// Version an upgrade would install, when one is listed.
    pub available: Option<String>,
    /// Source the row came from (for example `winget`).
    pub source: Option<String>,
}

/// One configured package source.
#[derive(Debug, Clone, PartialEq, Eq)]
pub struct SourceEntry {
    /// Source name (for example `winget`).
    pub name: String,
    /// Argument or URL of the source.
    pub arg: String,
    /// Whether the source was added explicitly.
    pub explicit: String,
}

/// One experimental feature and its state.
#[derive(Debug, Clone, PartialEq, Eq)]
pub struct FeatureEntry {
    /// Feature name.
    pub feature: String,
    /// State, for example `enabled` or `disabled`.
    pub status: String,
    /// Trailing property column, when present.
    pub property: Option<String>,
    /// Documentation link, when present.
    pub link: Option<String>,
}

/// One row of search output.
#[derive(Debug, Clone, PartialEq, Eq)]
pub struct SearchResult {
    /// Display name.
    pub name: String,
    /// Unique package id.
    pub id: String,
    /// Newest available version.
    pub version: Option<String>,
    /// The keyword column, when the table has one.
    pub matched: Option<String>,
    /// Source the row came from.
    pub source: Option<String>,
}

/// The key-value details of one package, as shown by the tool's detail
/// output.  Absent keys stay `None`.
#[derive(Debug, Clone, PartialEq, Eq)]
pub struct ShowDetails {
    pub name: Option<String>,
    pub id: Option<String>,
    pub version: Option<String>,
    pub source: Option<String>,
    pub publisher: Option<String>,
    pub author: Option<String>,
    pub homepage: Option<String>,
    pub license: Option<String>,
    pub description: Option<String>,
    pub moniker: Option<String>,
    pub tags: Option<Vec<String>>,
    pub manifest: Option<String>,
    pub installer_type: Option<String>,
    pub installer_locale: Option<String>,
    pub download_url: Option<String>,
    pub sha256: Option<String>,
    pub size: Option<String>,
    pub architecture: Option<String>,
    pub installed_version: Option<String>,
    pub available_version: Option<String>,
    pub dependencies: Option<Vec<String>>,
    pub release_notes: Option<String>,
    pub release_notes_url: Option<String>,
    pub raw_details: Option<String>,
}

} // verus!
