//! Typst release binaries: platforms, release metadata, the choice of the
//! asset for a platform, and the checks around downloading and unpacking it.

use vstd::prelude::*;
use crate::github::WebUrl;
use crate::text::{chars_of, has_prefix};

verus! {

/// Operating systems with release binaries.
#[derive(Clone, Copy, Debug, PartialEq, Eq, Structural)]
pub enum Os {
    MacOS,
    Linux,
    Windows,
}

/// Processor architectures with release binaries.
#[derive(Clone, Copy, Debug, PartialEq, Eq, Structural)]
pub enum Arch {
    X86_64,
    Aarch64,
}

/// The part of an asset name that names a platform.
pub open spec fn platform_pattern(os: Os, arch: Arch) -> Seq<char> {
    match (os, arch) {
        (Os::MacOS, Arch::X86_64) => "x86_64-apple-darwin"@,
        (Os::MacOS, Arch::Aarch64) => "aarch64-apple-darwin"@,
        (Os::Linux, Arch::X86_64) => "x86_64-unknown-linux"@,
        (Os::Linux, Arch::Aarch64) => "aarch64-unknown-linux"@,
        (Os::Windows, Arch::X86_64) => "x86_64-pc-windows"@,
        (Os::Windows, Arch::Aarch64) => "aarch64-pc-windows"@,
    }
}

/// The part of an asset name that names the platform (e.g. `x86_64-apple-darwin`).
pub fn asset_name_pattern(os: Os, arch: Arch) -> (r: String)
    ensures
        r@ == platform_pattern(os, arch),
{
    let p = match (os, arch) {
        (Os::MacOS, Arch::X86_64) => "x86_64-apple-darwin",
        (Os::MacOS, Arch::Aarch64) => "aarch64-apple-darwin",
        (Os::Linux, Arch::X86_64) => "x86_64-unknown-linux",
        (Os::Linux, Arch::Aarch64) => "aarch64-unknown-linux",
        (Os::Windows, Arch::X86_64) => "x86_64-pc-windows",
        (Os::Windows, Arch::Aarch64) => "aarch64-pc-windows",
    };
    p.to_owned()
}

/// The name of the Typst binary on an operating system.
pub open spec fn typst_binary(os: Os) -> Seq<char> {
    match os {
        Os::Windows => "typst.exe"@,
        _ => "typst"@,
    }
}

/// The name of the Typst binary on an operating system: `typst.exe` on Windows,
/// `typst` elsewhere.
pub fn binary_name_for(os: Os) -> (r: &'static str)
    ensures
        r@ == typst_binary(os),
{
    match os {
        Os::Windows => "typst.exe",
        _ => "typst",
    }
}

/// The debug name of an operating system.
pub open spec fn os_name(os: Os) -> Seq<char> {
    match os {
        Os::MacOS => "MacOS"@,
        Os::Linux => "Linux"@,
        Os::Windows => "Windows"@,
    }
}

/// The debug name of an architecture.
pub open spec fn arch_name(arch: Arch) -> Seq<char> {
    match arch {
        Arch::X86_64 => "X86_64"@,
        Arch::Aarch64 => "Aarch64"@,
    }
}

impl Os {
    /// The name of the operating system, as `{:?}` writes it.
    pub fn name(&self) -> (r: String)
        ensures
            r@ == os_name(*self),
    {
        match self {
            Os::MacOS => "MacOS".to_owned(),
            Os::Linux => "Linux".to_owned(),
            Os::Windows => "Windows".to_owned(),
        }
    }
}

impl Arch {
    /// The name of the architecture, as `{:?}` writes it.
    pub fn name(&self) -> (r: String)
        ensures
            r@ == arch_name(*self),
    {
        match self {
            Arch::X86_64 => "X86_64".to_owned(),
            Arch::Aarch64 => "Aarch64".to_owned(),
        }
    }
}

/// A GitHub release.
#[derive(Debug)]
pub struct Release {
    pub tag_name: String,
    pub assets: Vec<Asset>,
}

/// A downloadable file of a release.
#[derive(Debug)]
pub struct Asset {
    pub name: String,
    pub browser_download_url: WebUrl,
    /// Size in bytes.
    pub size: u64,
}

/// Release download and installation errors.
#[derive(Debug)]
pub enum ReleaseError {
    /// No asset of the release is built for the platform.
    AssetNotFound { version: String, os: String, arch: String },
    /// The downloaded size differs from the announced one.
    SizeMismatch { expected: u64, actual: u64 },
    /// The archive could not be unpacked.
    ExtractionFailed { archive_type: String, reason: String },
    /// The archive holds no Typst binary.
    BinaryNotFoundInArchive { binary_name: String },
    /// A file-system operation failed: what was done, and the error.
    IoError { operation: String, message: String },
    /// The download failed.
    DownloadFailed { url: String, message: String },
}

/// `s` holds `p` as a contiguous part.
pub open spec fn contains_seq(s: Seq<char>, p: Seq<char>) -> bool {
    exists|i: int| 0 <= i <= s.len() - p.len() && #[trigger] s.subrange(i, i + p.len()) == p
}

/// Whether `s` holds `p`.
fn contains_text(s: &str, p: &str) -> (r: bool)
    ensures
        r == contains_seq(s@, p@),
{
    let cs = chars_of(s);
    let ps = chars_of(p);
    if ps.len() == 0 {
        assert(s@.subrange(0int, 0int + p@.len()) =~= p@);
        return true;
    }
    if ps.len() > cs.len() {
        return false;
    }
    let n = cs.len();
    let positions = cs.len() - ps.len() + 1;
    let mut i: usize = 0;
    while i < positions
        invariant
            n == cs@.len(),
            cs@ == s@,
            ps@ == p@,
            1 <= ps@.len() <= cs@.len(),
            positions == cs@.len() - ps@.len() + 1,
            i <= positions,
            forall|k: int| 0 <= k < i ==> #[trigger] cs@.subrange(k, k + ps@.len()) != ps@,
        decreases positions - i,
    {
        let mut j: usize = 0;
        let mut same = true;
        while j < ps.len()
            invariant
                n == cs@.len(),
                cs@ == s@,
                ps@ == p@,
                1 <= ps@.len() <= cs@.len(),
                i < positions,
                positions == cs@.len() - ps@.len() + 1,
                j <= ps@.len(),
                same ==> forall|m: int| 0 <= m < j ==> cs@[i + m] == ps@[m],
                !same ==> cs@.subrange(i as int, i + ps@.len()) != ps@,
            decreases ps.len() - j,
        {
            if cs[i + j] != ps[j] {
                assert(cs@.subrange(i as int, i + ps@.len())[j as int] != ps@[j as int]);
                same = false;
            }
            j = j + 1;
        }
        if same {
            assert(cs@.subrange(i as int, i + ps@.len()) =~= ps@);
            return true;
        }
        i = i + 1;
    }
    assert forall|k: int| 0 <= k <= s@.len() - p@.len() implies #[trigger] s@.subrange(k, k + p@.len()) != p@ by {
        assert(k < i);
    }
    false
}

/// Selects the first asset of the release built for the platform: the first
/// whose name holds the platform's pattern. Fails with `AssetNotFound` (the
/// release's tag and the platform's names) when there is none.
pub fn select_asset<'a>(release: &'a Release, os: Os, arch: Arch) -> (r: Result<&'a Asset, ReleaseError>)
    ensures
        match r {
            Ok(a) => exists|i: int|
                0 <= i < release.assets@.len() && release.assets@[i] == *a && contains_seq(
                    a.name@,
                    platform_pattern(os, arch),
                ) && forall|j: int|
                    0 <= j < i ==> !contains_seq(#[trigger] release.assets@[j].name@, platform_pattern(os, arch)),
            Err(e) => {
                &&& forall|i: int|
                    0 <= i < release.assets@.len() ==> !contains_seq(
                        #[trigger] release.assets@[i].name@,
                        platform_pattern(os, arch),
                    )
                &&& e matches ReleaseError::AssetNotFound { version, os: o, arch: a } && version@
                    == release.tag_name@ && o@ == os_name(os) && a@ == arch_name(arch)
            },
        },
{
    let pattern = asset_name_pattern(os, arch);
    let mut i: usize = 0;
    while i < release.assets.len()
        invariant
            pattern@ == platform_pattern(os, arch),
            i <= release.assets@.len(),
            forall|j: int| 0 <= j < i ==> !contains_seq(#[trigger] release.assets@[j].name@, platform_pattern(os, arch)),
        decreases release.assets.len() - i,
    {
        if contains_text(release.assets[i].name.as_str(), pattern.as_str()) {
            return Ok(&release.assets[i]);
        }
        i = i + 1;
    }
    Err(ReleaseError::AssetNotFound { version: release.tag_name.clone(), os: os.name(), arch: arch.name() })
}

/// The kinds of release archives.
#[derive(Clone, Copy, Debug, PartialEq, Eq, Structural)]
pub enum ArchiveKind {
    TarXz,
    TarGz,
    Zip,
}

/// `s` ends with `p`.
pub open spec fn has_suffix(s: Seq<char>, p: Seq<char>) -> bool {
    p.len() <= s.len() && s.subrange(s.len() - p.len(), s.len() as int) == p
}

/// Whether `s` ends with `p`.
fn ends_with_text(s: &str, p: &str) -> (r: bool)
    ensures
        r == has_suffix(s@, p@),
{
    let cs = chars_of(s);
    let ps = chars_of(p);
    if ps.len() > cs.len() {
        return false;
    }
    let n = cs.len();
    let off = cs.len() - ps.len();
    let mut j: usize = 0;
    while j < ps.len()
        invariant
            n == cs@.len(),
            cs@ == s@,
            ps@ == p@,
            off + ps@.len() == cs@.len(),
            j <= ps@.len(),
            forall|m: int| 0 <= m < j ==> cs@[off + m] == ps@[m],
        decreases ps.len() - j,
    {
        if cs[off + j] != ps[j] {
            assert(cs@.subrange(off as int, cs@.len() as int)[j as int] != ps@[j as int]);
            return false;
        }
        j = j + 1;
    }
    assert(cs@.subrange(off as int, cs@.len() as int) =~= ps@);
    true
}

/// The kind of archive a file name announces, if it is one that can be unpacked.
pub open spec fn archive_kind_of(name: Seq<char>) -> Option<ArchiveKind> {
    if has_suffix(name, ".tar.xz"@) {
        Some(ArchiveKind::TarXz)
    } else if has_suffix(name, ".tar.gz"@) {
        Some(ArchiveKind::TarGz)
    } else if has_suffix(name, ".zip"@) {
        Some(ArchiveKind::Zip)
    } else {
        None
    }
}

/// The kind of an archive by its file name (`.tar.xz`, `.tar.gz` or `.zip`);
/// other names fail with `ExtractionFailed` ("Unsupported archive format").
pub fn archive_kind(name: &str) -> (r: Result<ArchiveKind, ReleaseError>)
    ensures
        match archive_kind_of(name@) {
            Some(k) => r == Ok::<ArchiveKind, ReleaseError>(k),
            None => r matches Err(ReleaseError::ExtractionFailed { archive_type, reason }) && archive_type@
                == name@ && reason@ == "Unsupported archive format"@,
        },
{
    if ends_with_text(name, ".tar.xz") {
        Ok(ArchiveKind::TarXz)
    } else if ends_with_text(name, ".tar.gz") {
        Ok(ArchiveKind::TarGz)
    } else if ends_with_text(name, ".zip") {
        Ok(ArchiveKind::Zip)
    } else {
        Err(
            ReleaseError::ExtractionFailed {
                archive_type: name.to_owned(),
                reason: "Unsupported archive format".to_owned(),
            },
        )
    }
}

/// Checks the size of a download against the size the release announced.
pub fn check_download_size(expected: u64, actual: u64) -> (r: Result<(), ReleaseError>)
    ensures
        expected == actual <==> r is Ok,
        expected != actual ==> (r matches Err(ReleaseError::SizeMismatch { expected: x, actual: y }) && x
            == expected && y == actual),
{
    if actual != expected {
        return Err(ReleaseError::SizeMismatch { expected, actual });
    }
    Ok(())
}

} // verus!
