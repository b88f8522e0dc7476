use monman::updater::{
    check_digest, installer_file, is_stale_installer, offer_release, select_update,
    AvailableUpdate, DownloadError, GitHubAsset, GitHubRelease, InstallerDownload, UpdateError,
    MAX_INSTALLER_SIZE,
};

fn release(tag: &str, digest: Option<&str>) -> GitHubRelease {
    GitHubRelease {
        tag_name: tag.into(),
        assets: vec![GitHubAsset {
            name: format!("monman-{tag}-windows-x86_64-setup.exe"),
            browser_download_url: "https://example.invalid/installer.exe".into(),
            digest: digest.map(str::to_owned),
            size: 42,
        }],
    }
}

fn update(sha256: &str, size: u64) -> AvailableUpdate {
    AvailableUpdate {
        tag: "v1.2.0".into(),
        asset_name: "monman-v1.2.0-windows-x86_64-setup.exe".into(),
        download_url: "https://example.invalid/installer.exe".into(),
        sha256: sha256.into(),
        size,
    }
}

#[test]
fn selects_newer_semver_release() {
    let digest = format!("sha256:{}", "a".repeat(64));
    let update = select_update(&release("v1.2.0", Some(&digest)), "1.1.9")
        .unwrap()
        .unwrap();
    assert_eq!(update.tag, "v1.2.0");
}

#[test]
fn ignores_current_or_older_release() {
    assert!(select_update(&release("v1.2.0", None), "1.2.0")
        .unwrap()
        .is_none());
    assert!(select_update(&release("v1.1.9", None), "1.2.0")
        .unwrap()
        .is_none());
}

#[test]
fn rejects_unverified_installer() {
    assert!(select_update(&release("v1.2.0", None), "1.1.0").is_err());
}

#[test]
fn an_offer_names_the_file_and_its_digest() {
    let digest = format!("sha256:{}", "AB".repeat(32));
    let update = select_update(&release("v2.0.0", Some(&digest)), "1.9.9")
        .unwrap()
        .unwrap();
    assert_eq!(update.asset_name, "monman-v2.0.0-windows-x86_64-setup.exe");
    assert_eq!(update.download_url, "https://example.invalid/installer.exe");
    assert_eq!(update.sha256, "ab".repeat(32));
    assert_eq!(update.size, 42);
}

#[test]
fn prereleases_come_before_their_release_and_in_order() {
    let digest = format!("sha256:{}", "0".repeat(64));
    let newer = |tag: &str, current: &str| {
        select_update(&release(tag, Some(&digest)), current)
            .unwrap()
            .is_some()
    };
    assert!(newer("v1.2.0", "1.2.0-rc.1"));
    assert!(!newer("v1.2.0-rc.1", "1.2.0"));
    assert!(newer("v1.2.0-rc.10", "1.2.0-rc.9"));
    assert!(!newer("v1.2.0-rc.9", "1.2.0-rc.10"));
    assert!(!newer("v1.2.0+later", "1.2.0+earlier"));
    assert!(newer("v10.0.0", "9.9.9"));
}

#[test]
fn each_refusal_of_a_release_says_why() {
    let digest = format!("sha256:{}", "a".repeat(64));
    let refusal = |release: &GitHubRelease, current: &str| select_update(release, current).err();

    let error = refusal(&release("v1.2.0", Some(&digest)), "one").unwrap();
    assert!(matches!(error, UpdateError::CurrentVersion));
    assert_eq!(error.message(), "the application version is invalid");

    let error = refusal(&release("1.2.0", Some(&digest)), "1.0.0").unwrap();
    assert!(matches!(error, UpdateError::UnprefixedTag));
    assert_eq!(error.message(), "release tag is not v-prefixed");

    let error = refusal(&release("vnext", Some(&digest)), "1.0.0").unwrap();
    assert!(matches!(error, UpdateError::TagVersion));
    assert_eq!(
        error.message(),
        "the latest release tag is not a semantic version"
    );

    let mut other = release("v1.2.0", Some(&digest));
    other.assets[0].name = "notes.txt".into();
    let error = refusal(&other, "1.0.0").unwrap();
    assert!(matches!(error, UpdateError::MissingInstaller(_)));
    assert_eq!(
        error.message(),
        "release does not contain monman-v1.2.0-windows-x86_64-setup.exe"
    );

    let mut large = release("v1.2.0", Some(&digest));
    large.assets[0].size = MAX_INSTALLER_SIZE + 1;
    let error = refusal(&large, "1.0.0").unwrap();
    assert!(matches!(error, UpdateError::TooLarge));
    assert_eq!(error.message(), "release installer is unexpectedly large");
    large.assets[0].size = MAX_INSTALLER_SIZE;
    assert!(select_update(&large, "1.0.0").unwrap().is_some());

    for digest in ["sha256:abc", "md5:abc", ""] {
        let error = refusal(&release("v1.2.0", Some(digest)), "1.0.0").unwrap();
        assert!(matches!(error, UpdateError::NoDigest));
    }
    let odd = format!("sha256:{}g", "a".repeat(63));
    let error = refusal(&release("v1.2.0", Some(&odd)), "1.0.0").unwrap();
    assert_eq!(
        error.message(),
        "release installer does not have a valid SHA-256 digest"
    );
}

#[test]
fn nothing_is_offered_of_a_release_that_is_not_newer() {
    let digest = format!("sha256:{}", "a".repeat(64));
    let release = release("v1.2.0", Some(&digest));
    assert!(offer_release(&release, false).unwrap().is_none());
    assert_eq!(offer_release(&release, true).unwrap().unwrap().tag, "v1.2.0");
}

#[test]
fn a_download_is_held_to_its_size_and_digest() {
    let abc = "ba7816bf8f01cfea414140de5dae2223b00361a396177a9cb410ff61f20015ad";
    let mut download = InstallerDownload::new();
    download.accept(b"a").unwrap();
    download.accept(b"bc").unwrap();
    assert!(download.finish(&update(abc, 3)).is_ok());

    let error = download.finish(&update(abc, 4)).unwrap_err();
    assert_eq!(
        error,
        DownloadError::WrongSize {
            expected: 4,
            received: 3
        }
    );
    assert_eq!(
        error.message(),
        "installer size mismatch: expected 4 bytes, received 3"
    );

    let error = download.finish(&update(&"0".repeat(64), 3)).unwrap_err();
    assert_eq!(error, DownloadError::WrongDigest);
    assert_eq!(
        error.message(),
        "installer SHA-256 digest did not match the GitHub release"
    );
    assert!(check_digest(abc, &update(abc, 3)).is_ok());
    assert!(check_digest("", &update(abc, 3)).is_err());
}

#[test]
fn a_download_that_grows_too_large_is_refused() {
    let part = vec![0_u8; MAX_INSTALLER_SIZE as usize];
    let mut download = InstallerDownload::new();
    assert!(download.accept(&part).is_ok());
    let error = download.accept(&[1]).unwrap_err();
    assert_eq!(error, DownloadError::TooLarge);
    assert_eq!(
        error.message(),
        "downloaded installer is unexpectedly large"
    );
}

#[test]
fn old_installers_are_recognised_by_name_and_age() {
    let name = installer_file("v1.2.0", 1234);
    assert_eq!(name, "monman-update-v1.2.0-1234.exe");
    assert!(is_stale_installer(&name, Some((86_401, 0))));
    assert!(is_stale_installer(&name, Some((86_400, 1))));
    assert!(!is_stale_installer(&name, Some((86_400, 0))));
    assert!(!is_stale_installer(&name, None));
    assert!(!is_stale_installer("monman-update-v1.2.0-1234.txt", Some((90_000, 0))));
    assert!(!is_stale_installer("setup.exe", Some((90_000, 0))));
}
