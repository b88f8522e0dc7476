//! Updates: which release to offer, and whether what was downloaded is it.

use vstd::prelude::*;
use vstd::string::*;
use crate::model;
use crate::order;
use crate::text;

verus! {

/// The largest installer that is downloaded, in bytes.
pub const MAX_INSTALLER_SIZE: u64 = 104_857_600;

/// How long an installer is kept, in seconds.
pub const INSTALLER_LIFETIME: u64 = 86_400;

// ---------------------------------------------------------------------------
// Versions
// ---------------------------------------------------------------------------

/// The error of `semver`, which says where a text is no version.
#[verifier::external_type_specification]
#[verifier::external_body]
pub struct ExVersionError(semver::Error);

/// What `semver::Version::parse` makes of a text: major, minor and patch number
/// and the pre-release part, or nothing where the text is no version. Build
/// metadata is left out.
pub uninterp spec fn semver_parse(version: Seq<char>) -> Option<(u64, u64, u64, Seq<char>)>;

/// How `semver::Prerelease` orders two pre-release parts: negative where the
/// first comes before the second, positive where it comes after.
pub uninterp spec fn prerelease_order(a: Seq<char>, b: Seq<char>) -> int;

/// The parts of a version that count when versions are compared.
#[derive(Debug)]
pub struct ReleaseVersion {
    pub major: u64,
    pub minor: u64,
    pub patch: u64,
    pub pre: String,
}

impl View for ReleaseVersion {
    type V = (u64, u64, u64, Seq<char>);

    open spec fn view(&self) -> (u64, u64, u64, Seq<char>) {
        (self.major, self.minor, self.patch, self.pre@)
    }
}

/// `semver::Version::parse`: whether a text is a version, and the parts of it.
/// Which texts are versions is left to the name.
#[verifier::external_body]
fn parse_version(version: &str) -> (r: Result<ReleaseVersion, semver::Error>)
    ensures
        r is Ok <==> semver_parse(version@) is Some,
        r matches Ok(parsed) ==> semver_parse(version@) == Some(parsed@),
{
    let parsed = semver::Version::parse(version)?;
    Ok(
        ReleaseVersion {
            major: parsed.major,
            minor: parsed.minor,
            patch: parsed.patch,
            pre: parsed.pre.as_str().to_string(),
        },
    )
}

/// How one version stands to another.
#[derive(Debug, Clone, Copy, PartialEq, Eq, Structural)]
pub enum Precedence {
    Lower,
    Same,
    Higher,
}

/// How two numbers stand to each other.
pub open spec fn number_precedence(a: u64, b: u64) -> Precedence {
    if a < b {
        Precedence::Lower
    } else if a > b {
        Precedence::Higher
    } else {
        Precedence::Same
    }
}

/// How two pre-release parts stand to each other, given how `semver` orders
/// them: a version without one is higher than any with one.
pub open spec fn prerelease_precedence(a: Seq<char>, b: Seq<char>, order: int) -> Precedence {
    if a == b {
        Precedence::Same
    } else if a.len() == 0 {
        Precedence::Higher
    } else if b.len() == 0 {
        Precedence::Lower
    } else if order < 0 {
        Precedence::Lower
    } else if order > 0 {
        Precedence::Higher
    } else {
        Precedence::Same
    }
}

/// How two versions stand to each other: by their numbers, then by their
/// pre-release parts, given how `semver` orders these.
pub open spec fn ordered_precedence(
    a: (u64, u64, u64, Seq<char>),
    b: (u64, u64, u64, Seq<char>),
    order: int,
) -> Precedence {
    if a.0 != b.0 {
        number_precedence(a.0, b.0)
    } else if a.1 != b.1 {
        number_precedence(a.1, b.1)
    } else if a.2 != b.2 {
        number_precedence(a.2, b.2)
    } else {
        prerelease_precedence(a.3, b.3, order)
    }
}

/// How two versions stand to each other.
pub open spec fn precedence(
    a: (u64, u64, u64, Seq<char>),
    b: (u64, u64, u64, Seq<char>),
) -> Precedence {
    ordered_precedence(a, b, prerelease_order(a.3, b.3))
}

/// `semver::Version::cmp_precedence` on the versions that two texts stand for:
/// the numbers decide, then the pre-release parts, and build metadata does not
/// count. How two different pre-release parts stand to each other is left to
/// the name.
#[verifier::external_body]
fn compare_versions(a: &str, b: &str) -> (r: Precedence)
    requires
        semver_parse(a@) is Some,
        semver_parse(b@) is Some,
    ensures
        r == ordered_precedence(
            semver_parse(a@)->0,
            semver_parse(b@)->0,
            prerelease_order((semver_parse(a@)->0).3, (semver_parse(b@)->0).3),
        ),
{
    let left = semver::Version::parse(a).unwrap();
    let right = semver::Version::parse(b).unwrap();
    match left.cmp_precedence(&right) {
        std::cmp::Ordering::Less => Precedence::Lower,
        std::cmp::Ordering::Equal => Precedence::Same,
        std::cmp::Ordering::Greater => Precedence::Higher,
    }
}

// ---------------------------------------------------------------------------
// Choosing a release
// ---------------------------------------------------------------------------

/// A file of a release.
#[derive(Debug)]
pub struct GitHubAsset {
    pub name: String,
    pub browser_download_url: String,
    pub digest: Option<String>,
    pub size: u64,
}

/// The contents of a [`GitHubAsset`].
#[verifier::ext_equal]
pub struct AssetView {
    pub name: Seq<char>,
    pub browser_download_url: Seq<char>,
    pub digest: Option<Seq<char>>,
    pub size: u64,
}

impl View for GitHubAsset {
    type V = AssetView;

    open spec fn view(&self) -> AssetView {
        AssetView {
            name: self.name@,
            browser_download_url: self.browser_download_url@,
            digest: model::option_view(self.digest),
            size: self.size,
        }
    }
}

/// A release.
#[derive(Debug)]
pub struct GitHubRelease {
    pub tag_name: String,
    pub assets: Vec<GitHubAsset>,
}

/// The contents of a [`GitHubRelease`].
#[verifier::ext_equal]
pub struct ReleaseView {
    pub tag_name: Seq<char>,
    pub assets: Seq<AssetView>,
}

impl View for GitHubRelease {
    type V = ReleaseView;

    open spec fn view(&self) -> ReleaseView {
        ReleaseView { tag_name: self.tag_name@, assets: order::views(self.assets@) }
    }
}

/// A release that can be installed.
#[derive(Debug)]
pub struct AvailableUpdate {
    pub tag: String,
    pub asset_name: String,
    pub download_url: String,
    pub sha256: String,
    pub size: u64,
}

/// The contents of an [`AvailableUpdate`].
#[verifier::ext_equal]
pub struct UpdateView {
    pub tag: Seq<char>,
    pub asset_name: Seq<char>,
    pub download_url: Seq<char>,
    pub sha256: Seq<char>,
    pub size: u64,
}

impl View for AvailableUpdate {
    type V = UpdateView;

    open spec fn view(&self) -> UpdateView {
        UpdateView {
            tag: self.tag@,
            asset_name: self.asset_name@,
            download_url: self.download_url@,
            sha256: self.sha256@,
            size: self.size,
        }
    }
}

impl Clone for AvailableUpdate {
    fn clone(&self) -> (r: Self)
        ensures
            r@ == self@,
    {
        AvailableUpdate {
            tag: self.tag.clone(),
            asset_name: self.asset_name.clone(),
            download_url: self.download_url.clone(),
            sha256: self.sha256.clone(),
            size: self.size,
        }
    }
}

/// What the updater has to tell.
#[derive(Debug)]
pub enum UpdateEvent {
    Available(AvailableUpdate),
    InstallerLaunched,
    InstallFailed(String),
}

/// Why no release can be offered.
#[derive(Debug)]
pub enum UpdateError {
    /// The version of the running program is none.
    CurrentVersion,
    /// The tag does not begin with a `v`.
    UnprefixedTag,
    /// What follows the `v` is no version.
    TagVersion,
    /// The release lacks the installer of this name.
    MissingInstaller(String),
    /// The installer is larger than is downloaded.
    TooLarge,
    /// The installer has no usable digest.
    NoDigest,
}

/// The contents of an [`UpdateError`].
#[verifier::ext_equal]
pub enum UpdateFault {
    CurrentVersion,
    UnprefixedTag,
    TagVersion,
    MissingInstaller(Seq<char>),
    TooLarge,
    NoDigest,
}

impl View for UpdateError {
    type V = UpdateFault;

    open spec fn view(&self) -> UpdateFault {
        match self {
            UpdateError::CurrentVersion => UpdateFault::CurrentVersion,
            UpdateError::UnprefixedTag => UpdateFault::UnprefixedTag,
            UpdateError::TagVersion => UpdateFault::TagVersion,
            UpdateError::MissingInstaller(name) => UpdateFault::MissingInstaller(name@),
            UpdateError::TooLarge => UpdateFault::TooLarge,
            UpdateError::NoDigest => UpdateFault::NoDigest,
        }
    }
}

impl UpdateFault {
    /// What the user reads.
    pub open spec fn message(self) -> Seq<char> {
        match self {
            UpdateFault::CurrentVersion => "the application version is invalid"@,
            UpdateFault::UnprefixedTag => "release tag is not v-prefixed"@,
            UpdateFault::TagVersion => "the latest release tag is not a semantic version"@,
            UpdateFault::MissingInstaller(name) => "release does not contain "@ + name,
            UpdateFault::TooLarge => "release installer is unexpectedly large"@,
            UpdateFault::NoDigest => "release installer does not have a valid SHA-256 digest"@,
        }
    }
}

/// What the user reads says what a release lacks.
pub proof fn lemma_update_messages(name: Seq<char>)
    ensures
        UpdateFault::CurrentVersion.message() == "the application version is invalid"@,
        UpdateFault::UnprefixedTag.message() == "release tag is not v-prefixed"@,
        UpdateFault::TagVersion.message() == "the latest release tag is not a semantic version"@,
        UpdateFault::MissingInstaller(name).message() == "release does not contain "@ + name,
        UpdateFault::TooLarge.message() == "release installer is unexpectedly large"@,
        UpdateFault::NoDigest.message()
            == "release installer does not have a valid SHA-256 digest"@,
{
}

impl UpdateError {
    /// What the user reads.
    pub fn message(&self) -> (r: String)
        ensures
            r@ == self@.message(),
    {
        match self {
            UpdateError::CurrentVersion => "the application version is invalid".to_string(),
            UpdateError::UnprefixedTag => "release tag is not v-prefixed".to_string(),
            UpdateError::TagVersion =>
                "the latest release tag is not a semantic version".to_string(),
            UpdateError::MissingInstaller(name) => {
                let mut out = "release does not contain ".to_string();
                out.append(name.as_str());
                out
            },
            UpdateError::TooLarge => "release installer is unexpectedly large".to_string(),
            UpdateError::NoDigest =>
                "release installer does not have a valid SHA-256 digest".to_string(),
        }
    }
}

/// The name of a release's installer.
pub open spec fn installer_name(tag: Seq<char>) -> Seq<char> {
    "monman-"@ + tag + "-windows-x86_64-setup.exe"@
}

/// The first file with this name at or after `from`.
pub open spec fn asset_named(
    assets: Seq<AssetView>,
    name: Seq<char>,
    from: int,
) -> Option<AssetView>
    decreases assets.len() - from,
{
    if from < 0 || from >= assets.len() {
        None
    } else if assets[from].name == name {
        Some(assets[from])
    } else {
        asset_named(assets, name, from + 1)
    }
}

/// Whether a character is a hexadecimal digit.
pub open spec fn is_hex_digit(c: char) -> bool {
    ('0' <= c && c <= '9') || ('a' <= c && c <= 'f') || ('A' <= c && c <= 'F')
}

/// Whether a text is the 64 hexadecimal digits of a SHA-256 digest.
pub open spec fn is_sha256(digest: Seq<char>) -> bool {
    digest.len() == 64 && forall|i: int|
        0 <= i < digest.len() ==> is_hex_digit(#[trigger] digest[i])
}

/// The digest of a file in small letters, where the release gives a usable one.
pub open spec fn usable_digest(digest: Option<Seq<char>>) -> Option<Seq<char>> {
    match digest {
        None => None,
        Some(given) => match text::without_prefix(given, "sha256:"@) {
            Some(digits) if is_sha256(digits) => Some(text::lower(digits)),
            _ => None,
        },
    }
}

/// What is offered of a release, given whether it is newer than the running
/// program.
pub open spec fn offer(release: ReleaseView, is_newer: bool) -> Result<
    Option<UpdateView>,
    UpdateFault,
> {
    let name = installer_name(release.tag_name);
    if !is_newer {
        Ok(None)
    } else {
        match asset_named(release.assets, name, 0) {
            None => Err(UpdateFault::MissingInstaller(name)),
            Some(asset) => if asset.size > MAX_INSTALLER_SIZE {
                Err(UpdateFault::TooLarge)
            } else {
                match usable_digest(asset.digest) {
                    None => Err(UpdateFault::NoDigest),
                    Some(sha256) => Ok(
                        Some(
                            UpdateView {
                                tag: release.tag_name,
                                asset_name: asset.name,
                                download_url: asset.browser_download_url,
                                sha256,
                                size: asset.size,
                            },
                        ),
                    ),
                }
            },
        }
    }
}

/// What is offered of a release to a program of version `current`.
pub open spec fn selection(release: ReleaseView, current: Seq<char>) -> Result<
    Option<UpdateView>,
    UpdateFault,
> {
    match semver_parse(current) {
        None => Err(UpdateFault::CurrentVersion),
        Some(running) => match text::without_prefix(release.tag_name, "v"@) {
            None => Err(UpdateFault::UnprefixedTag),
            Some(version) => match semver_parse(version) {
                None => Err(UpdateFault::TagVersion),
                Some(latest) => offer(release, precedence(latest, running) is Higher),
            },
        },
    }
}

proof fn lemma_asset_named(assets: Seq<AssetView>, name: Seq<char>, from: int)
    requires
        0 <= from,
        asset_named(assets, name, from) is Some,
    ensures
        asset_named(assets, name, from)->0.name == name,
        assets.contains(asset_named(assets, name, from)->0),
    decreases assets.len() - from,
{
    if assets[from].name != name {
        lemma_asset_named(assets, name, from + 1);
    }
}

/// Only a release that is newer than the running program is offered, only its
/// own installer, none that is too large, and none without a digest to hold it
/// to. That digest is in small letters, as the one it is held against.
pub proof fn lemma_offer(release: ReleaseView, current: Seq<char>)
    ensures
        selection(release, current) matches Ok(Some(update)) ==> {
            &&& semver_parse(current) is Some
            &&& text::without_prefix(release.tag_name, "v"@) matches Some(version)
            &&& semver_parse(text::without_prefix(release.tag_name, "v"@)->0) is Some
            &&& precedence(
                semver_parse(text::without_prefix(release.tag_name, "v"@)->0)->0,
                semver_parse(current)->0,
            ) is Higher
            &&& update.tag == release.tag_name
            &&& update.asset_name == installer_name(release.tag_name)
            &&& update.size <= MAX_INSTALLER_SIZE
            &&& is_sha256(update.sha256)
            &&& update.sha256 == text::lower(update.sha256)
        },
{
    if let Ok(Some(update)) = selection(release, current) {
        let name = installer_name(release.tag_name);
        lemma_asset_named(release.assets, name, 0);
        let asset = asset_named(release.assets, name, 0)->0;
        let digits = text::without_prefix(asset.digest->0, "sha256:"@)->0;
        assert forall|i: int| 0 <= i < update.sha256.len() implies is_hex_digit(
            #[trigger] update.sha256[i],
        ) by {
            assert(update.sha256[i] == text::lower_char(digits[i]));
            assert(is_hex_digit(digits[i]));
        }
        assert(update.sha256 =~= text::lower(update.sha256));
    }
}

/// The program's own release, or an older one, is never offered.
pub proof fn lemma_older_is_not_offered(release: ReleaseView, current: Seq<char>)
    requires
        semver_parse(current) is Some,
        text::without_prefix(release.tag_name, "v"@) matches Some(version) && semver_parse(
            version,
        ) is Some,
        !(precedence(
            semver_parse(text::without_prefix(release.tag_name, "v"@)->0)->0,
            semver_parse(current)->0,
        ) is Higher),
    ensures
        selection(release, current) == Ok::<Option<UpdateView>, UpdateFault>(None),
{
}

/// A version is never higher than itself, and of two versions that differ in
/// their numbers exactly one is higher.
pub proof fn lemma_precedence(a: (u64, u64, u64, Seq<char>), b: (u64, u64, u64, Seq<char>))
    ensures
        precedence(a, a) is Same,
        (a.0, a.1, a.2) != (b.0, b.1, b.2) ==> (precedence(a, b) is Higher <==> precedence(
            b,
            a,
        ) is Lower) && !(precedence(a, b) is Same),
        (a.0, a.1, a.2) == (b.0, b.1, b.2) && a.3.len() == 0 && b.3.len() > 0 ==> precedence(
            a,
            b,
        ) is Higher,
{
}

/// Versions are compared by their major number, then their minor number, then
/// their patch number; only where all three agree does the pre-release part
/// count, and one without such a part is higher.
pub proof fn lemma_version_order(a: (u64, u64, u64, Seq<char>), b: (u64, u64, u64, Seq<char>))
    ensures
        a.0 > b.0 ==> precedence(a, b) is Higher,
        a.0 == b.0 && a.1 > b.1 ==> precedence(a, b) is Higher,
        a.0 == b.0 && a.1 == b.1 && a.2 > b.2 ==> precedence(a, b) is Higher,
        a.0 < b.0 ==> precedence(a, b) is Lower,
        a.0 == b.0 && a.1 < b.1 ==> precedence(a, b) is Lower,
        a.0 == b.0 && a.1 == b.1 && a.2 < b.2 ==> precedence(a, b) is Lower,
        a.0 == b.0 && a.1 == b.1 && a.2 == b.2 && a.3.len() == 0 && b.3.len() > 0 ==> precedence(
            a,
            b,
        ) is Higher && precedence(b, a) is Lower,
        a.0 == b.0 && a.1 == b.1 && a.2 == b.2 && a.3 == b.3 ==> precedence(a, b) is Same,
        a.0 == b.0 && a.1 == b.1 && a.2 == b.2 && a.3 != b.3 && a.3.len() > 0 && b.3.len() > 0 ==> {
            &&& precedence(a, b) is Higher <==> prerelease_order(a.3, b.3) > 0
            &&& precedence(a, b) is Lower <==> prerelease_order(a.3, b.3) < 0
        },
{
}

/// A release that is newer is offered, with its own installer's address, size
/// and digest, where it has that installer, of at most a hundred mebibytes, with
/// a digest of 64 hexadecimal digits in whatever case.
pub proof fn lemma_newer_is_offered(
    release: ReleaseView,
    current: Seq<char>,
    version: Seq<char>,
    at: int,
    digits: Seq<char>,
)
    requires
        semver_parse(current) is Some,
        release.tag_name == "v"@ + version,
        semver_parse(version) is Some,
        precedence(semver_parse(version)->0, semver_parse(current)->0) is Higher,
        0 <= at < release.assets.len(),
        release.assets[at].name == "monman-"@ + release.tag_name + "-windows-x86_64-setup.exe"@,
        forall|i: int|
            0 <= i < at ==> (#[trigger] release.assets[i]).name != release.assets[at].name,
        release.assets[at].size <= 104_857_600,
        release.assets[at].digest == Some("sha256:"@ + digits),
        digits.len() == 64,
        forall|i: int|
            0 <= i < 64 ==> ('0' <= #[trigger] digits[i] && digits[i] <= '9') || ('a' <= digits[i]
                && digits[i] <= 'f') || ('A' <= digits[i] && digits[i] <= 'F'),
    ensures
        selection(release, current) == Ok::<Option<UpdateView>, UpdateFault>(
            Some(
                UpdateView {
                    tag: release.tag_name,
                    asset_name: release.assets[at].name,
                    download_url: release.assets[at].browser_download_url,
                    sha256: text::lower(digits),
                    size: release.assets[at].size,
                },
            ),
        ),
{
    text::lemma_without_prefix(release.tag_name, "v"@, version);
    text::lemma_without_prefix("sha256:"@ + digits, "sha256:"@, digits);
    lemma_first_asset(release.assets, release.assets[at].name, 0, at);
    assert(is_sha256(digits));
}

proof fn lemma_first_asset(assets: Seq<AssetView>, name: Seq<char>, from: int, at: int)
    requires
        0 <= from <= at < assets.len(),
        assets[at].name == name,
        forall|i: int| from <= i < at ==> (#[trigger] assets[i]).name != name,
    ensures
        asset_named(assets, name, from) == Some(assets[at]),
    decreases at - from,
{
    if from < at {
        lemma_first_asset(assets, name, from + 1, at);
    }
}

proof fn lemma_no_asset(assets: Seq<AssetView>, name: Seq<char>, from: int)
    requires
        0 <= from,
        forall|i: int| from <= i < assets.len() ==> (#[trigger] assets[i]).name != name,
    ensures
        asset_named(assets, name, from) is None,
    decreases assets.len() - from,
{
    if from < assets.len() {
        lemma_no_asset(assets, name, from + 1);
    }
}

/// A release that cannot be offered is refused for the first thing that it
/// lacks: a version of the program, a `v` before the tag, a version behind it,
/// the installer, a size within the limit, a digest.
pub proof fn lemma_refused_releases(release: ReleaseView, current: Seq<char>, version: Seq<char>)
    ensures
        semver_parse(current) is None ==> selection(release, current) == Err::<
            Option<UpdateView>,
            UpdateFault,
        >(UpdateFault::CurrentVersion),
        semver_parse(current) is Some && (release.tag_name.len() == 0 || release.tag_name[0] != 'v')
            ==> selection(release, current) == Err::<Option<UpdateView>, UpdateFault>(
            UpdateFault::UnprefixedTag,
        ),
        semver_parse(current) is Some && release.tag_name == "v"@ + version && semver_parse(
            version,
        ) is None ==> selection(release, current) == Err::<Option<UpdateView>, UpdateFault>(
            UpdateFault::TagVersion,
        ),
        (forall|i: int|
            0 <= i < release.assets.len() ==> (#[trigger] release.assets[i]).name != "monman-"@
                + release.tag_name + "-windows-x86_64-setup.exe"@) ==> offer(release, true) == Err::<
            Option<UpdateView>,
            UpdateFault,
        >(
            UpdateFault::MissingInstaller(
                "monman-"@ + release.tag_name + "-windows-x86_64-setup.exe"@,
            ),
        ),
        offer(release, false) == Ok::<Option<UpdateView>, UpdateFault>(None),
{
    reveal_strlit("v");
    if release.tag_name.len() == 0 || release.tag_name[0] != 'v' {
        if "v"@.is_prefix_of(release.tag_name) {
            assert(release.tag_name[0] == "v"@[0]);
        }
    }
    text::lemma_without_prefix(release.tag_name, "v"@, version);
    if forall|i: int|
        0 <= i < release.assets.len() ==> (#[trigger] release.assets[i]).name != "monman-"@
            + release.tag_name + "-windows-x86_64-setup.exe"@ {
        lemma_no_asset(
            release.assets,
            "monman-"@ + release.tag_name + "-windows-x86_64-setup.exe"@,
            0,
        );
    }
}

/// An installer that is too large, or whose digest is missing, of another kind
/// or length, or no hexadecimal number, is not offered.
pub proof fn lemma_refused_installers(release: ReleaseView, at: int)
    requires
        0 <= at < release.assets.len(),
        release.assets[at].name == installer_name(release.tag_name),
        forall|i: int|
            0 <= i < at ==> (#[trigger] release.assets[i]).name != release.assets[at].name,
    ensures
        release.assets[at].size > 104_857_600 ==> offer(release, true) == Err::<
            Option<UpdateView>,
            UpdateFault,
        >(UpdateFault::TooLarge),
        release.assets[at].size <= 104_857_600 && release.assets[at].digest is None ==> offer(
            release,
            true,
        ) == Err::<Option<UpdateView>, UpdateFault>(UpdateFault::NoDigest),
        forall|digits: Seq<char>|
            release.assets[at].size <= 104_857_600 && release.assets[at].digest == Some(
                #[trigger] ("sha256:"@ + digits),
            ) && (digits.len() != 64 || exists|i: int|
                0 <= i < digits.len() && !(('0' <= #[trigger] digits[i] && digits[i] <= '9') || (
                'a' <= digits[i] && digits[i] <= 'f') || ('A' <= digits[i] && digits[i] <= 'F')))
                ==> offer(release, true) == Err::<Option<UpdateView>, UpdateFault>(
                UpdateFault::NoDigest,
            ),
{
    lemma_first_asset(release.assets, release.assets[at].name, 0, at);
    assert forall|digits: Seq<char>|
        release.assets[at].size <= 104_857_600 && release.assets[at].digest == Some(
            #[trigger] ("sha256:"@ + digits),
        ) && (digits.len() != 64 || exists|i: int|
            0 <= i < digits.len() && !(('0' <= #[trigger] digits[i] && digits[i] <= '9') || ('a'
                <= digits[i] && digits[i] <= 'f') || ('A' <= digits[i] && digits[i] <= 'F')))
            implies offer(release, true) == Err::<Option<UpdateView>, UpdateFault>(
        UpdateFault::NoDigest,
    ) by {
        text::lemma_without_prefix("sha256:"@ + digits, "sha256:"@, digits);
        if digits.len() == 64 {
            let i = choose|i: int|
                0 <= i < digits.len() && !(('0' <= #[trigger] digits[i] && digits[i] <= '9') || ('a'
                    <= digits[i] && digits[i] <= 'f') || ('A' <= digits[i] && digits[i] <= 'F'));
            assert(!is_hex_digit(digits[i]));
        }
    }
}

fn find_asset(assets: &Vec<GitHubAsset>, name: &str) -> (r: Option<usize>)
    ensures
        r is Some <==> asset_named(order::views(assets@), name@, 0) is Some,
        r matches Some(at) ==> at < assets@.len() && asset_named(order::views(assets@), name@, 0)
            == Some(assets@[at as int]@),
{
    let ghost all = order::views(assets@);
    let mut at: usize = 0;
    while at < assets.len()
        invariant
            at <= assets@.len(),
            all == order::views(assets@),
            asset_named(all, name@, 0) == asset_named(all, name@, at as int),
        decreases assets@.len() - at,
    {
        assert(all[at as int] == assets@[at as int]@);
        if text::same_text(assets[at].name.as_str(), name) {
            return Some(at);
        }
        at = at + 1;
    }
    None
}

fn valid_sha256(digest: &str) -> (r: bool)
    ensures
        r == is_sha256(digest@),
{
    let digits = text::chars_of(digest);
    if digits.len() != 64 {
        return false;
    }
    let mut at: usize = 0;
    while at < digits.len()
        invariant
            at <= digits@.len(),
            digits@ == digest@,
            forall|i: int| 0 <= i < at ==> is_hex_digit(#[trigger] digest@[i]),
        decreases digits@.len() - at,
    {
        let c = digits[at];
        if !(('0' <= c && c <= '9') || ('a' <= c && c <= 'f') || ('A' <= c && c <= 'F')) {
            assert(!is_hex_digit(digest@[at as int]));
            return false;
        }
        at = at + 1;
    }
    true
}

fn digest_of(digest: &Option<String>) -> (r: Option<String>)
    ensures
        model::option_view(r) == usable_digest(model::option_view(*digest)),
{
    match digest {
        None => None,
        Some(given) => match text::strip_prefix(given.as_str(), "sha256:") {
            None => None,
            Some(digits) => if valid_sha256(digits.as_str()) {
                Some(text::lowercase(digits.as_str()))
            } else {
                None
            },
        },
    }
}

/// What is offered of a release, given whether it is newer than the running
/// program.
pub fn offer_release(release: &GitHubRelease, is_newer: bool) -> (r: Result<
    Option<AvailableUpdate>,
    UpdateError,
>)
    ensures
        r is Ok <==> offer(release@, is_newer) is Ok,
        r matches Ok(update) ==> offer(release@, is_newer) == Ok::<
            Option<UpdateView>,
            UpdateFault,
        >(model::option_view(update)),
        r matches Err(error) ==> offer(release@, is_newer) == Err::<
            Option<UpdateView>,
            UpdateFault,
        >(error@),
{
    if !is_newer {
        return Ok(None);
    }
    let mut name = "monman-".to_string();
    name.append(release.tag_name.as_str());
    name.append("-windows-x86_64-setup.exe");
    let at = match find_asset(&release.assets, name.as_str()) {
        Some(at) => at,
        None => {
            return Err(UpdateError::MissingInstaller(name));
        },
    };
    let asset = &release.assets[at];
    if asset.size > MAX_INSTALLER_SIZE {
        return Err(UpdateError::TooLarge);
    }
    match digest_of(&asset.digest) {
        None => Err(UpdateError::NoDigest),
        Some(sha256) => Ok(
            Some(
                AvailableUpdate {
                    tag: release.tag_name.clone(),
                    asset_name: asset.name.clone(),
                    download_url: asset.browser_download_url.clone(),
                    sha256,
                    size: asset.size,
                },
            ),
        ),
    }
}

/// What is offered of a release to a program of version `current`.
pub fn select_update(release: &GitHubRelease, current: &str) -> (r: Result<
    Option<AvailableUpdate>,
    UpdateError,
>)
    ensures
        r is Ok <==> selection(release@, current@) is Ok,
        r matches Ok(update) ==> selection(release@, current@) == Ok::<
            Option<UpdateView>,
            UpdateFault,
        >(model::option_view(update)),
        r matches Err(error) ==> selection(release@, current@) == Err::<
            Option<UpdateView>,
            UpdateFault,
        >(error@),
{
    if parse_version(current).is_err() {
        return Err(UpdateError::CurrentVersion);
    }
    let latest = match text::strip_prefix(release.tag_name.as_str(), "v") {
        Some(latest) => latest,
        None => {
            return Err(UpdateError::UnprefixedTag);
        },
    };
    if parse_version(latest.as_str()).is_err() {
        return Err(UpdateError::TagVersion);
    }
    let is_newer = match compare_versions(latest.as_str(), current) {
        Precedence::Higher => true,
        _ => false,
    };
    offer_release(release, is_newer)
}

// ---------------------------------------------------------------------------
// Downloading
// ---------------------------------------------------------------------------

/// The SHA-256 digest of some bytes, as `sha2::Sha256` computes it.
pub uninterp spec fn sha256_of(data: Seq<u8>) -> Seq<u8>;

/// `sha2::Sha256::digest`: the 32 bytes of the digest.
#[verifier::external_body]
fn sha256(data: &Vec<u8>) -> (r: Vec<u8>)
    ensures
        r@ == sha256_of(data@),
        r@.len() == 32,
{
    <sha2::Sha256 as sha2::Digest>::digest(data.as_slice()).to_vec()
}

/// Why a download is not installed.
#[derive(Debug, Clone, Copy, PartialEq, Eq, Structural)]
pub enum DownloadError {
    /// More was received than is downloaded.
    TooLarge,
    /// What was received is not as long as the release says.
    WrongSize { expected: u64, received: u64 },
    /// What was received is not what the release holds.
    WrongDigest,
}

impl DownloadError {
    /// What the user reads.
    pub open spec fn text(self) -> Seq<char> {
        match self {
            DownloadError::TooLarge => "downloaded installer is unexpectedly large"@,
            DownloadError::WrongSize { expected, received } =>
                "installer size mismatch: expected "@ + text::decimal(expected as nat)
                + " bytes, received "@ + text::decimal(received as nat),
            DownloadError::WrongDigest =>
                "installer SHA-256 digest did not match the GitHub release"@,
        }
    }

    /// What the user reads.
    pub fn message(self) -> (r: String)
        ensures
            r@ == self.text(),
    {
        match self {
            DownloadError::TooLarge => "downloaded installer is unexpectedly large".to_string(),
            DownloadError::WrongSize { expected, received } => {
                let mut out = "installer size mismatch: expected ".to_string();
                out.append(text::decimal_text(expected).as_str());
                out.append(" bytes, received ");
                out.append(text::decimal_text(received).as_str());
                out
            },
            DownloadError::WrongDigest =>
                "installer SHA-256 digest did not match the GitHub release".to_string(),
        }
    }
}

/// What the user reads says what is wrong with a download.
pub proof fn lemma_download_messages(expected: u64, received: u64)
    ensures
        DownloadError::TooLarge.text() == "downloaded installer is unexpectedly large"@,
        (DownloadError::WrongSize { expected, received }).text()
            == "installer size mismatch: expected "@ + text::decimal(expected as nat)
            + " bytes, received "@ + text::decimal(received as nat),
        DownloadError::WrongDigest.text()
            == "installer SHA-256 digest did not match the GitHub release"@,
{
}

/// What has been received of an installer.
pub struct InstallerDownload {
    received: Vec<u8>,
}

impl View for InstallerDownload {
    type V = Seq<u8>;

    closed spec fn view(&self) -> Seq<u8> {
        self.received@
    }
}

/// Whether what was received is the installer of an update.
pub open spec fn download_fault(received: Seq<u8>, update: UpdateView) -> Option<DownloadError> {
    if received.len() != update.size {
        Some(
            DownloadError::WrongSize { expected: update.size, received: received.len() as u64 },
        )
    } else if text::hex_bytes(sha256_of(received)) != update.sha256 {
        Some(DownloadError::WrongDigest)
    } else {
        None
    }
}

/// Only what has the promised length and the promised digest is installed; a
/// wrong length is told before a wrong digest.
pub proof fn lemma_download_fault(received: Seq<u8>, update: UpdateView)
    ensures
        download_fault(received, update) is None <==> received.len() == update.size
            && text::hex_bytes(sha256_of(received)) == update.sha256,
        received.len() != update.size && received.len() <= u64::MAX ==> (download_fault(
            received,
            update,
        ) matches Some(DownloadError::WrongSize { expected, received: got }) && expected
            == update.size && got == received.len()),
        received.len() == update.size && text::hex_bytes(sha256_of(received)) != update.sha256
            ==> download_fault(received, update) == Some(DownloadError::WrongDigest),
        MAX_INSTALLER_SIZE == 104_857_600 && INSTALLER_LIFETIME == 86_400,
{
}

impl InstallerDownload {
    /// Nothing has been received.
    pub fn new() -> (r: InstallerDownload)
        ensures
            r@ == Seq::<u8>::empty(),
    {
        InstallerDownload { received: Vec::new() }
    }

    /// Takes in the next part. Where that makes it too large, nothing more is
    /// to be received.
    pub fn accept(&mut self, part: &[u8]) -> (r: Result<(), DownloadError>)
        ensures
            r is Ok <==> old(self)@.len() + part@.len() <= MAX_INSTALLER_SIZE,
            r is Ok ==> final(self)@ == old(self)@ + part@,
            r is Err ==> r == Err::<(), DownloadError>(DownloadError::TooLarge) && final(self)@
                == old(self)@,
    {
        let length: u64 = self.received.len() as u64;
        if length > MAX_INSTALLER_SIZE || part.len() as u64 > MAX_INSTALLER_SIZE - length {
            return Err(DownloadError::TooLarge);
        }
        let ghost before = self.received@;
        let mut at: usize = 0;
        proof {
            assert(before + part@.take(0) =~= before);
        }
        while at < part.len()
            invariant
                at <= part@.len(),
                self.received@ == before + part@.take(at as int),
            decreases part@.len() - at,
        {
            self.received.push(part[at]);
            proof {
                assert(before + part@.take(at + 1) =~= (before + part@.take(at as int)).push(
                    part@[at as int],
                ));
            }
            at = at + 1;
        }
        proof {
            assert(part@.take(part@.len() as int) =~= part@);
        }
        Ok(())
    }

    /// Holds what was received against the release.
    pub fn finish(&self, update: &AvailableUpdate) -> (r: Result<(), DownloadError>)
        ensures
            r is Ok <==> download_fault(self@, update@) is None,
            r matches Err(error) ==> download_fault(self@, update@) == Some(error),
    {
        let received: u64 = self.received.len() as u64;
        if received != update.size {
            return Err(DownloadError::WrongSize { expected: update.size, received });
        }
        let digest = text::hex_text(&sha256(&self.received));
        check_digest(digest.as_str(), update)
    }
}

/// Holds a digest against the release.
pub fn check_digest(digest: &str, update: &AvailableUpdate) -> (r: Result<(), DownloadError>)
    ensures
        r is Ok <==> digest@ == update@.sha256,
        r matches Err(error) ==> error == DownloadError::WrongDigest,
{
    if text::same_text(digest, update.sha256.as_str()) {
        Ok(())
    } else {
        Err(DownloadError::WrongDigest)
    }
}

/// The name of the file that an installer is written to.
pub open spec fn file_of(tag: Seq<char>, process: u32) -> Seq<char> {
    "monman-update-"@ + tag + "-"@ + text::decimal(process as nat) + ".exe"@
}

/// The name of the file that an installer is written to.
pub fn installer_file(tag: &str, process: u32) -> (r: String)
    ensures
        r@ == file_of(tag@, process),
{
    let mut name = "monman-update-".to_string();
    name.append(tag);
    name.append("-");
    name.append(text::decimal_text(process as u64).as_str());
    name.append(".exe");
    name
}

/// Whether a file with this name is an installer that is left over, given how
/// long ago it was written.
pub open spec fn is_left_over(name: Seq<char>, age: Option<(u64, u32)>) -> bool {
    "monman-update-"@.is_prefix_of(name) && ".exe"@.is_suffix_of(name) && (
    age matches Some(elapsed) && (elapsed.0 > INSTALLER_LIFETIME || (elapsed.0
        == INSTALLER_LIFETIME && elapsed.1 > 0)))
}

/// Whether a file with this name is an installer that is left over. `age` is
/// how long ago it was written, in whole seconds and the nanoseconds beyond,
/// where that is known.
pub fn is_stale_installer(name: &str, age: Option<(u64, u32)>) -> (r: bool)
    ensures
        r == is_left_over(name@, age),
{
    if !text::starts_with(name, "monman-update-") || !text::ends_with(name, ".exe") {
        return false;
    }
    match age {
        Some((seconds, nanoseconds)) => seconds > INSTALLER_LIFETIME || (seconds
            == INSTALLER_LIFETIME && nanoseconds > 0),
        None => false,
    }
}

/// Every file that an installer is written to is recognised once it is old.
pub proof fn lemma_installer_files_are_recognised(tag: Seq<char>, process: u32)
    ensures
        ({
            let name = "monman-update-"@ + tag + "-"@ + text::decimal(process as nat) + ".exe"@;
            "monman-update-"@.is_prefix_of(name) && ".exe"@.is_suffix_of(name)
        }),
{
    let start = "monman-update-"@;
    let end = ".exe"@;
    let middle = tag + "-"@ + text::decimal(process as nat);
    let name = start + tag + "-"@ + text::decimal(process as nat) + end;
    assert(name =~= start + middle + end);
    assert(name.subrange(0, start.len() as int) =~= start);
    assert(name.subrange(name.len() - end.len(), name.len() as int) =~= end);
}

/// What an installer was written to is left over once it is more than a day old,
/// and not before. A file of unknown age stays, and so does every file with
/// another start or another end to its name.
pub proof fn lemma_left_over(
    tag: Seq<char>,
    process: u32,
    name: Seq<char>,
    seconds: u64,
    nanoseconds: u32,
)
    requires
        nanoseconds < 1_000_000_000,
    ensures
        is_left_over(file_of(tag, process), Some((seconds, nanoseconds))) <==> seconds
            * 1_000_000_000 + nanoseconds > 24 * 60 * 60 * 1_000_000_000,
        !is_left_over(name, None),
        !"monman-update-"@.is_prefix_of(name) || !".exe"@.is_suffix_of(name) ==> !is_left_over(
            name,
            Some((seconds, nanoseconds)),
        ),
{
    lemma_installer_files_are_recognised(tag, process);
}

} // verus!
