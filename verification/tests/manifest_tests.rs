use version_bump::manifest::{
    extract_version, ExtractError, ManifestInfo, PackageSection, VersionField, WorkspacePackage,
    WorkspaceSection,
};

fn package_manifest(version: Option<VersionField>) -> ManifestInfo {
    ManifestInfo { workspace: None, package: Some(PackageSection { version }) }
}

#[test]
fn extracts_local_package_version() {
    let m = package_manifest(Some(VersionField::Local(String::from("1.2.3"))));
    let v = extract_version(false, &m).unwrap();
    assert_eq!(v.to_string(), "1.2.3");
}

#[test]
fn extracts_workspace_version() {
    let m = ManifestInfo {
        workspace: Some(WorkspaceSection {
            package: Some(WorkspacePackage { version: Some(String::from("0.4.0-alpha.2")) }),
        }),
        package: None,
    };
    let v = extract_version(true, &m).unwrap();
    assert_eq!(v.to_string(), "0.4.0-alpha.2");
}

#[test]
fn missing_package_section() {
    let m = ManifestInfo { workspace: None, package: None };
    assert_eq!(extract_version(false, &m).unwrap_err(), ExtractError::MissingPackage);
}

#[test]
fn missing_package_version() {
    let m = package_manifest(None);
    assert_eq!(extract_version(false, &m).unwrap_err(), ExtractError::MissingVersion);
}

#[test]
fn inherited_version_needs_workspace_flag() {
    let m = package_manifest(Some(VersionField::Inherited));
    assert_eq!(extract_version(false, &m).unwrap_err(), ExtractError::InheritedVersion);
}

#[test]
fn missing_workspace_section() {
    let m = package_manifest(Some(VersionField::Local(String::from("1.2.3"))));
    assert_eq!(extract_version(true, &m).unwrap_err(), ExtractError::MissingWorkspace);
}

#[test]
fn missing_workspace_package_section() {
    let m = ManifestInfo {
        workspace: Some(WorkspaceSection { package: None }),
        package: None,
    };
    assert_eq!(extract_version(true, &m).unwrap_err(), ExtractError::MissingWorkspacePackage);
}

#[test]
fn missing_workspace_package_version() {
    let m = ManifestInfo {
        workspace: Some(WorkspaceSection { package: Some(WorkspacePackage { version: None }) }),
        package: None,
    };
    assert_eq!(extract_version(true, &m).unwrap_err(), ExtractError::MissingWorkspaceVersion);
}

#[test]
fn malformed_version_text() {
    let m = package_manifest(Some(VersionField::Local(String::from("not-a-version"))));
    match extract_version(false, &m).unwrap_err() {
        ExtractError::Invalid(_) => {},
        other => panic!("expected Invalid, got {:?}", other),
    }
}

#[test]
fn error_messages() {
    assert_eq!(ExtractError::MissingWorkspace.message(), "Expected to find a workspace");
    assert_eq!(
        ExtractError::MissingWorkspacePackage.message(),
        "Expected to find a package section in the workspace"
    );
    assert_eq!(
        ExtractError::MissingWorkspaceVersion.message(),
        "Expected to find a package version in the package section"
    );
    assert_eq!(
        ExtractError::MissingPackage.message(),
        "Expected to find a package section in the manifest"
    );
    assert_eq!(
        ExtractError::MissingVersion.message(),
        "Expected to find a package version in the package section"
    );
    assert_eq!(
        ExtractError::InheritedVersion.message(),
        "The package version is inherited from a workspace (use --workspace)"
    );
}
