//! Choosing the version field out of a manifest: the package section's
//! version for a standalone package, the workspace package section's version
//! under the workspace flag, with a distinct error for every missing or
//! inherited location.
use vstd::prelude::*;

use crate::codec::{parse_spec, ParseError};
use crate::version::SemVer;
use vstd::utf8::encode_utf8;

verus! {

/// The version entry of a `[workspace.package]` section.
pub struct WorkspacePackage {
    pub version: Option<String>,
}

/// The `[workspace]` section: present or not, with an optional package
/// subsection.
pub struct WorkspaceSection {
    pub package: Option<WorkspacePackage>,
}

/// A package version entry: written locally, or inherited from a workspace.
pub enum VersionField {
    Local(String),
    Inherited,
}

/// The `[package]` section.
pub struct PackageSection {
    pub version: Option<VersionField>,
}

/// What the extraction reads of a manifest: the two sections that can carry
/// a version.
pub struct ManifestInfo {
    pub workspace: Option<WorkspaceSection>,
    pub package: Option<PackageSection>,
}

/// Why no version could be extracted.
#[derive(Clone, Copy, Debug, PartialEq, Eq, Structural)]
pub enum ExtractError {
    /// No `[workspace]` section although one was asked for.
    MissingWorkspace,
    /// No `[workspace.package]` section.
    MissingWorkspacePackage,
    /// No version in the `[workspace.package]` section.
    MissingWorkspaceVersion,
    /// No `[package]` section.
    MissingPackage,
    /// No version in the `[package]` section.
    MissingVersion,
    /// The package version is inherited from a workspace, but the workspace
    /// flag was not given.
    InheritedVersion,
    /// The version text does not parse.
    Invalid(ParseError),
}

impl ExtractError {
    pub open spec fn spec_message(self) -> Seq<char> {
        match self {
            ExtractError::MissingWorkspace => "Expected to find a workspace"@,
            ExtractError::MissingWorkspacePackage => "Expected to find a package section in the workspace"@,
            ExtractError::MissingWorkspaceVersion => "Expected to find a package version in the package section"@,
            ExtractError::MissingPackage => "Expected to find a package section in the manifest"@,
            ExtractError::MissingVersion => "Expected to find a package version in the package section"@,
            ExtractError::InheritedVersion => "The package version is inherited from a workspace (use --workspace)"@,
            ExtractError::Invalid(_) => "Malformed version string"@,
        }
    }

    /// A human-readable description of the error.
    pub fn message(&self) -> (r: &'static str)
        ensures
            r@ == self.spec_message(),
    {
        match self {
            ExtractError::MissingWorkspace => "Expected to find a workspace",
            ExtractError::MissingWorkspacePackage => "Expected to find a package section in the workspace",
            ExtractError::MissingWorkspaceVersion => "Expected to find a package version in the package section",
            ExtractError::MissingPackage => "Expected to find a package section in the manifest",
            ExtractError::MissingVersion => "Expected to find a package version in the package section",
            ExtractError::InheritedVersion => "The package version is inherited from a workspace (use --workspace)",
            ExtractError::Invalid(_) => "Malformed version string",
        }
    }
}

/// Which text the extraction hands to the parser, or which error it stops
/// with, before any parsing happens.
pub open spec fn spec_version_field(m: ManifestInfo, workspace: bool) -> Result<Seq<char>, ExtractError> {
    if workspace {
        match m.workspace {
            None => Err(ExtractError::MissingWorkspace),
            Some(ws) => match ws.package {
                None => Err(ExtractError::MissingWorkspacePackage),
                Some(p) => match p.version {
                    None => Err(ExtractError::MissingWorkspaceVersion),
                    Some(s) => Ok(s@),
                },
            },
        }
    } else {
        match m.package {
            None => Err(ExtractError::MissingPackage),
            Some(p) => match p.version {
                None => Err(ExtractError::MissingVersion),
                Some(VersionField::Inherited) => Err(ExtractError::InheritedVersion),
                Some(VersionField::Local(s)) => Ok(s@),
            },
        }
    }
}

/// Reads the version out of the manifest: under the workspace flag from the
/// `[workspace.package]` section, otherwise from a locally written
/// `[package]` version; every other shape is the matching error, and text
/// that the grammar rejects is `Invalid`.
pub fn extract_version(workspace: bool, manifest: &ManifestInfo) -> (r: Result<SemVer, ExtractError>)
    ensures
        match spec_version_field(*manifest, workspace) {
            Ok(s) => match r {
                Ok(v) => parse_spec(encode_utf8(s)) == Some(v@) && v.wf(),
                Err(e) => e is Invalid && parse_spec(encode_utf8(s)) is None,
            },
            Err(e0) => r == Err::<SemVer, ExtractError>(e0),
        },
{
    let text: &String = if workspace {
        match &manifest.workspace {
            None => {
                return Err(ExtractError::MissingWorkspace);
            },
            Some(ws) => match &ws.package {
                None => {
                    return Err(ExtractError::MissingWorkspacePackage);
                },
                Some(p) => match &p.version {
                    None => {
                        return Err(ExtractError::MissingWorkspaceVersion);
                    },
                    Some(s) => s,
                },
            },
        }
    } else {
        match &manifest.package {
            None => {
                return Err(ExtractError::MissingPackage);
            },
            Some(p) => match &p.version {
                None => {
                    return Err(ExtractError::MissingVersion);
                },
                Some(VersionField::Inherited) => {
                    return Err(ExtractError::InheritedVersion);
                },
                Some(VersionField::Local(s)) => s,
            },
        }
    };
    match SemVer::parse(text.as_str()) {
        Ok(v) => Ok(v),
        Err(e) => Err(ExtractError::Invalid(e)),
    }
}

} // verus!
