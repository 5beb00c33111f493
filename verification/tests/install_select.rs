use typstlab_typst::github::WebUrl;
use typstlab_typst::install::{
    archive_kind, asset_name_pattern, binary_name_for, check_download_size, select_asset, Arch,
    ArchiveKind, Asset, Os, Release, ReleaseError,
};

fn url(s: &str) -> WebUrl {
    WebUrl::parse(s).unwrap()
}

fn create_mock_release_multiplatform() -> Release {
    Release {
        tag_name: "v0.18.0".to_string(),
        assets: vec![
            Asset {
                name: "typst-x86_64-apple-darwin.tar.gz".to_string(),
                browser_download_url: url("https://example.com/darwin.tar.gz"),
                size: 10000000,
            },
            Asset {
                name: "typst-aarch64-apple-darwin.tar.gz".to_string(),
                browser_download_url: url("https://example.com/darwin-arm.tar.gz"),
                size: 10000000,
            },
            Asset {
                name: "typst-x86_64-unknown-linux-gnu.tar.gz".to_string(),
                browser_download_url: url("https://example.com/linux.tar.gz"),
                size: 11000000,
            },
            Asset {
                name: "typst-aarch64-unknown-linux-gnu.tar.gz".to_string(),
                browser_download_url: url("https://example.com/linux-arm.tar.gz"),
                size: 11000000,
            },
            Asset {
                name: "typst-x86_64-pc-windows-msvc.zip".to_string(),
                browser_download_url: url("https://example.com/windows.zip"),
                size: 12000000,
            },
            Asset {
                name: "typst-aarch64-pc-windows-msvc.zip".to_string(),
                browser_download_url: url("https://example.com/windows-arm.zip"),
                size: 12000000,
            },
        ],
    }
}

#[test]
fn test_asset_name_pattern_macos_x86() {
    assert_eq!(asset_name_pattern(Os::MacOS, Arch::X86_64), "x86_64-apple-darwin");
}

#[test]
fn test_asset_name_pattern_macos_aarch64() {
    assert_eq!(asset_name_pattern(Os::MacOS, Arch::Aarch64), "aarch64-apple-darwin");
}

#[test]
fn test_asset_name_pattern_linux_x86() {
    assert_eq!(asset_name_pattern(Os::Linux, Arch::X86_64), "x86_64-unknown-linux");
}

#[test]
fn test_asset_name_pattern_linux_aarch64() {
    assert_eq!(asset_name_pattern(Os::Linux, Arch::Aarch64), "aarch64-unknown-linux");
}

#[test]
fn test_asset_name_pattern_windows_x86() {
    assert_eq!(asset_name_pattern(Os::Windows, Arch::X86_64), "x86_64-pc-windows");
}

#[test]
fn test_asset_name_pattern_windows_aarch64() {
    assert_eq!(asset_name_pattern(Os::Windows, Arch::Aarch64), "aarch64-pc-windows");
}

#[test]
fn test_binary_name_windows() {
    assert_eq!(binary_name_for(Os::Windows), "typst.exe");
}

#[test]
fn test_binary_name_unix() {
    assert_eq!(binary_name_for(Os::Linux), "typst");
    assert_eq!(binary_name_for(Os::MacOS), "typst");
}

#[test]
fn test_select_asset_macos_x86_64_returns_correct_asset() {
    let release = create_mock_release_multiplatform();
    let asset = select_asset(&release, Os::MacOS, Arch::X86_64).unwrap();
    assert!(asset.name.contains("x86_64-apple-darwin"), "Asset name should contain MacOS x86_64 pattern");
    assert_eq!(asset.size, 10000000);
}

#[test]
fn test_select_asset_macos_aarch64_returns_correct_asset() {
    let release = create_mock_release_multiplatform();
    let asset = select_asset(&release, Os::MacOS, Arch::Aarch64).unwrap();
    assert!(asset.name.contains("aarch64-apple-darwin"), "Asset name should contain MacOS aarch64 pattern");
}

#[test]
fn test_select_asset_linux_x86_64_returns_correct_asset() {
    let release = create_mock_release_multiplatform();
    let asset = select_asset(&release, Os::Linux, Arch::X86_64).unwrap();
    assert!(asset.name.contains("x86_64-unknown-linux"), "Asset name should contain Linux x86_64 pattern");
    assert_eq!(asset.size, 11000000);
}

#[test]
fn test_select_asset_linux_aarch64_returns_correct_asset() {
    let release = create_mock_release_multiplatform();
    let asset = select_asset(&release, Os::Linux, Arch::Aarch64).unwrap();
    assert!(asset.name.contains("aarch64-unknown-linux"), "Asset name should contain Linux aarch64 pattern");
}

#[test]
fn test_select_asset_windows_x86_64_returns_correct_asset() {
    let release = create_mock_release_multiplatform();
    let asset = select_asset(&release, Os::Windows, Arch::X86_64).unwrap();
    assert!(asset.name.contains("x86_64-pc-windows"), "Asset name should contain Windows x86_64 pattern");
    assert_eq!(asset.size, 12000000);
}

#[test]
fn test_select_asset_windows_aarch64_returns_correct_asset() {
    let release = create_mock_release_multiplatform();
    let asset = select_asset(&release, Os::Windows, Arch::Aarch64).unwrap();
    assert!(asset.name.contains("aarch64-pc-windows"), "Asset name should contain Windows aarch64 pattern");
}

#[test]
fn test_select_asset_no_matching_asset_returns_error() {
    let release = Release {
        tag_name: "v0.18.0".to_string(),
        assets: vec![Asset {
            name: "typst-x86_64-unknown-linux-gnu.tar.gz".to_string(),
            browser_download_url: url("https://example.com/linux.tar.gz"),
            size: 11000000,
        }],
    };
    let result = select_asset(&release, Os::MacOS, Arch::X86_64);
    assert!(result.is_err(), "Should return error when no matching asset found");
    match result.unwrap_err() {
        ReleaseError::AssetNotFound { version, os, arch } => {
            assert_eq!(version, "v0.18.0");
            assert!(os.contains("MacOS") || os.contains("macos"));
            assert!(arch.contains("X86_64") || arch.contains("x86_64"));
        }
        err => panic!("Expected AssetNotFound error, got: {:?}", err),
    }
}

#[test]
fn test_select_asset_empty_asset_list_returns_error() {
    let release = Release { tag_name: "v0.16.0".to_string(), assets: vec![] };
    let result = select_asset(&release, Os::Linux, Arch::X86_64);
    assert!(result.is_err(), "Should return error when asset list is empty");
}

#[test]
fn test_select_asset_multiple_matching_returns_first() {
    let release = Release {
        tag_name: "v0.18.0".to_string(),
        assets: vec![
            Asset {
                name: "typst-x86_64-apple-darwin.tar.gz".to_string(),
                browser_download_url: url("https://example.com/first.tar.gz"),
                size: 10000000,
            },
            Asset {
                name: "typst-x86_64-apple-darwin-alternative.tar.gz".to_string(),
                browser_download_url: url("https://example.com/second.tar.gz"),
                size: 10000001,
            },
        ],
    };
    let asset = select_asset(&release, Os::MacOS, Arch::X86_64).unwrap();
    assert_eq!(asset.browser_download_url.as_str(), "https://example.com/first.tar.gz");
    assert_eq!(asset.size, 10000000);
}

#[test]
fn test_select_asset_for_current_platform_macos_x86() {
    let release = create_mock_release_multiplatform();
    let asset = select_asset(&release, Os::MacOS, Arch::X86_64).unwrap();
    assert!(asset.name.contains("darwin"), "Should select MacOS asset on MacOS platform");
    assert!(asset.name.contains("x86_64"), "Should select x86_64 asset on x86_64 architecture");
}

#[test]
fn test_select_asset_for_current_platform_macos_aarch64() {
    let release = create_mock_release_multiplatform();
    let asset = select_asset(&release, Os::MacOS, Arch::Aarch64).unwrap();
    assert!(asset.name.contains("darwin"), "Should select MacOS asset on MacOS platform");
    assert!(asset.name.contains("aarch64"), "Should select aarch64 asset on aarch64 architecture");
}

#[test]
fn test_select_asset_for_current_platform_linux_x86() {
    let release = create_mock_release_multiplatform();
    let asset = select_asset(&release, Os::Linux, Arch::X86_64).unwrap();
    assert!(asset.name.contains("linux"), "Should select Linux asset on Linux platform");
    assert!(asset.name.contains("x86_64"), "Should select x86_64 asset on x86_64 architecture");
}

#[test]
fn test_select_asset_for_current_platform_linux_aarch64() {
    let release = create_mock_release_multiplatform();
    let asset = select_asset(&release, Os::Linux, Arch::Aarch64).unwrap();
    assert!(asset.name.contains("linux"), "Should select Linux asset on Linux platform");
    assert!(asset.name.contains("aarch64"), "Should select aarch64 asset on aarch64 architecture");
}

#[test]
fn test_select_asset_for_current_platform_windows_x86() {
    let release = create_mock_release_multiplatform();
    let asset = select_asset(&release, Os::Windows, Arch::X86_64).unwrap();
    assert!(asset.name.contains("windows"), "Should select Windows asset on Windows platform");
    assert!(asset.name.contains("x86_64"), "Should select x86_64 asset on x86_64 architecture");
}

#[test]
fn test_select_asset_for_current_platform_windows_aarch64() {
    let release = create_mock_release_multiplatform();
    let asset = select_asset(&release, Os::Windows, Arch::Aarch64).unwrap();
    assert!(asset.name.contains("windows"), "Should select Windows asset on Windows platform");
    assert!(asset.name.contains("aarch64"), "Should select aarch64 asset on aarch64 architecture");
}

#[test]
fn test_select_asset_with_real_typst_release_schema() {
    let release = Release {
        tag_name: "v0.17.0".to_string(),
        assets: vec![
            Asset {
                name: "typst-x86_64-apple-darwin.tar.gz".to_string(),
                browser_download_url: url("https://github.com/typst/typst/releases/download/v0.17.0/typst-x86_64-apple-darwin.tar.gz"),
                size: 8675309,
            },
            Asset {
                name: "typst-x86_64-unknown-linux-gnu.tar.gz".to_string(),
                browser_download_url: url("https://github.com/typst/typst/releases/download/v0.17.0/typst-x86_64-unknown-linux-gnu.tar.gz"),
                size: 8765432,
            },
            Asset {
                name: "typst-x86_64-pc-windows-msvc.zip".to_string(),
                browser_download_url: url("https://github.com/typst/typst/releases/download/v0.17.0/typst-x86_64-pc-windows-msvc.zip"),
                size: 9123456,
            },
        ],
    };
    let macos_asset = select_asset(&release, Os::MacOS, Arch::X86_64).unwrap();
    assert_eq!(macos_asset.name, "typst-x86_64-apple-darwin.tar.gz");
    assert!(macos_asset.browser_download_url.as_str().contains("github.com"));
    let linux_asset = select_asset(&release, Os::Linux, Arch::X86_64).unwrap();
    assert_eq!(linux_asset.name, "typst-x86_64-unknown-linux-gnu.tar.gz");
    let windows_asset = select_asset(&release, Os::Windows, Arch::X86_64).unwrap();
    assert_eq!(windows_asset.name, "typst-x86_64-pc-windows-msvc.zip");
}

#[test]
fn test_select_asset_preserves_download_url() {
    let release = create_mock_release_multiplatform();
    let asset = select_asset(&release, Os::MacOS, Arch::X86_64).unwrap();
    assert_eq!(asset.browser_download_url.as_str(), "https://example.com/darwin.tar.gz");
    assert!(asset.browser_download_url.scheme() == "https");
    assert!(asset.browser_download_url.host_str().is_some());
}

#[test]
fn test_web_url_parse_parts_and_error() {
    let u = url("https://example.com/a/b");
    assert_eq!(u.scheme(), "https");
    assert_eq!(u.host_str(), Some("example.com"));
    assert!(WebUrl::parse("not a url").is_err());
}

#[test]
fn test_archive_kind_by_extension() {
    assert_eq!(archive_kind("typst-x86_64-unknown-linux-musl.tar.xz").unwrap(), ArchiveKind::TarXz);
    assert_eq!(archive_kind("typst-x86_64-apple-darwin.tar.gz").unwrap(), ArchiveKind::TarGz);
    assert_eq!(archive_kind("typst-x86_64-pc-windows-msvc.zip").unwrap(), ArchiveKind::Zip);
    match archive_kind("typst.rar").unwrap_err() {
        ReleaseError::ExtractionFailed { archive_type, reason } => {
            assert_eq!(archive_type, "typst.rar");
            assert_eq!(reason, "Unsupported archive format");
        }
        e => panic!("unexpected error {:?}", e),
    }
}

#[test]
fn test_check_download_size() {
    assert!(check_download_size(10, 10).is_ok());
    match check_download_size(10, 9).unwrap_err() {
        ReleaseError::SizeMismatch { expected, actual } => {
            assert_eq!(expected, 10);
            assert_eq!(actual, 9);
        }
        e => panic!("unexpected error {:?}", e),
    }
}
