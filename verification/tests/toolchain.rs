use typstlab_typst::docs_source::{
    check_docs_json_size, docs_entry_path, path_components, plan_docs_extraction, DocsError, DocsJsonError, PathComponent,
    MAX_DOCS_JSON_SIZE,
};
use typstlab_typst::exec::{resolve_options_for, resolved_binary, ExecError, ExecOptions};
use typstlab_typst::github::{add_path_segments, github_base_url, UrlError, WebUrl};
use typstlab_typst::manifest::{file_manifest_entry, format_manifest, hash_matches, parse_manifest};
use typstlab_typst::resolve::{
    check_expected_version, judge_version_output, should_retry_exec, ResolveAction, ResolveError, ResolveEvent,
    ResolveOptions, ResolveResult, Resolver, TypstInfo, TypstSource,
};

const ABC_SHA256: &str = "ba7816bf8f01cfea414140de5dae2223b00361a396177a9cb410ff61f20015ad";

fn options(version: &str, force_refresh: bool) -> ResolveOptions {
    ResolveOptions { required_version: version.to_string(), project_root: "/project".to_string(), force_refresh }
}

fn info(version: &str, source: TypstSource) -> TypstInfo {
    TypstInfo { version: version.to_string(), source, path: "/bin/typst".to_string() }
}

#[test]
fn test_resolver_managed_hit() {
    let mut r = Resolver::new(&options("0.13.1", false));
    assert!(matches!(r.step(ResolveEvent::Start), ResolveAction::CheckManaged));
    let action = r.step(ResolveEvent::ManagedChecked {
        found: Some(info("0.13.1", TypstSource::Managed)),
        location: "/cache/typstlab/typst".to_string(),
    });
    match action {
        ResolveAction::Finish(ResolveResult::Resolved(i)) => {
            assert_eq!(i.version, "0.13.1");
            assert_eq!(i.source, TypstSource::Managed);
        }
        other => panic!("unexpected {:?}", other),
    }
}

#[test]
fn test_resolver_system_hit_after_managed_miss() {
    let mut r = Resolver::new(&options("0.12.0", true));
    assert!(matches!(r.step(ResolveEvent::Start), ResolveAction::CheckManaged));
    assert!(matches!(
        r.step(ResolveEvent::ManagedChecked { found: None, location: "/cache/0.12.0".to_string() }),
        ResolveAction::CheckSystem
    ));
    match r.step(ResolveEvent::SystemChecked { found: Some(info("0.12.0", TypstSource::System)) }) {
        ResolveAction::Finish(ResolveResult::Resolved(i)) => assert_eq!(i.source, TypstSource::System),
        other => panic!("unexpected {:?}", other),
    }
}

#[test]
fn test_resolver_not_found_lists_searched_locations() {
    let mut r = Resolver::new(&options("99.99.99", false));
    r.step(ResolveEvent::Start);
    r.step(ResolveEvent::ManagedChecked { found: None, location: "/cache/99.99.99".to_string() });
    match r.step(ResolveEvent::SystemChecked { found: None }) {
        ResolveAction::Finish(ResolveResult::NotFound { required_version, searched_locations }) => {
            assert_eq!(required_version, "99.99.99");
            assert_eq!(searched_locations, vec!["managed cache: /cache/99.99.99".to_string(), "system PATH".to_string()]);
        }
        other => panic!("unexpected {:?}", other),
    }
}

#[test]
fn test_check_expected_version() {
    assert!(check_expected_version("0.13.1").is_ok());
    match check_expected_version("not-a-version").unwrap_err() {
        ResolveError::Generic(m) => assert!(m.starts_with("Invalid expected version format 'not-a-version': ")),
        e => panic!("unexpected {:?}", e),
    }
}

#[test]
fn test_judge_version_output() {
    assert_eq!(judge_version_output("0.13.1", true, "exit status: 0", "typst 0.13.1 (abc)\n").unwrap(), true);
    assert_eq!(judge_version_output("0.13.1", true, "exit status: 0", "typst 0.12.0\n").unwrap(), false);
    match judge_version_output("0.13.1", false, "exit status: 1", "").unwrap_err() {
        ResolveError::TypstExecFailed(m) => assert_eq!(m, "typst --version exited with status: exit status: 1"),
        e => panic!("unexpected {:?}", e),
    }
    match judge_version_output("0.13.1", true, "exit status: 0", "garbage").unwrap_err() {
        ResolveError::TypstExecFailed(m) => {
            assert_eq!(m, "Could not parse version from typst --version output: garbage")
        }
        e => panic!("unexpected {:?}", e),
    }
}

#[test]
fn test_should_retry_exec() {
    assert!(should_retry_exec(true, None));
    assert!(should_retry_exec(false, Some(26)));
    assert!(!should_retry_exec(false, Some(2)));
    assert!(!should_retry_exec(false, None));
}

#[test]
fn test_typst_source_labels() {
    assert_eq!(TypstSource::Managed.label(), "managed cache");
    assert_eq!(TypstSource::System.label(), "system PATH");
    assert_eq!(TypstSource::InstalledRelease.label(), "installed release");
    assert_eq!(TypstSource::InstalledCargo.label(), "installed cargo");
}

#[test]
fn test_manifest_roundtrip_and_digest() {
    let entry = file_manifest_entry("reference/index.md", b"abc");
    assert_eq!(entry.0, ABC_SHA256);
    assert_eq!(entry.1, "reference/index.md");
    let entries = vec![entry, ("0".repeat(64), "a b.md".to_string())];
    let text = format_manifest(&entries);
    assert_eq!(text, format!("{} reference/index.md\n{} a b.md\n", ABC_SHA256, "0".repeat(64)));
    assert_eq!(parse_manifest(&text), entries);
}

#[test]
fn test_parse_manifest_skips_blank_and_short_lines() {
    let parsed = parse_manifest("\n  \nnospace\nabc  x.md\r\n");
    assert_eq!(parsed, vec![("abc".to_string(), " x.md".to_string())]);
}

#[test]
fn test_hash_matches() {
    assert!(hash_matches(ABC_SHA256, b"abc"));
    assert!(!hash_matches(ABC_SHA256, b"abd"));
    assert!(!hash_matches("abc", b"abc"));
}

#[test]
fn test_check_docs_json_size() {
    assert!(check_docs_json_size(MAX_DOCS_JSON_SIZE).is_ok());
    match check_docs_json_size(MAX_DOCS_JSON_SIZE + 1).unwrap_err() {
        DocsJsonError::SizeExceeded { size, max } => {
            assert_eq!(size, MAX_DOCS_JSON_SIZE + 1);
            assert_eq!(max, 10 * 1024 * 1024);
        }
        e => panic!("unexpected {:?}", e),
    }
}

#[test]
fn test_docs_entry_path() {
    let n = |s: &str| PathComponent::Normal(s.to_string());
    let ok = docs_entry_path(&vec![n("typst-0.12.0"), n("docs"), n("guide"), n("a.md")]).unwrap();
    assert_eq!(ok, Some(vec!["docs".to_string(), "guide".to_string(), "a.md".to_string()]));
    assert!(docs_entry_path(&vec![n("typst-0.12.0"), n("src"), n("lib.rs")]).unwrap().is_none());
    assert!(docs_entry_path(&vec![n("typst-0.12.0")]).unwrap().is_none());
    assert!(matches!(
        docs_entry_path(&vec![n("typst-0.12.0"), n("docs"), PathComponent::ParentDir, n("x")]),
        Err(DocsError::PathTraversal)
    ));
    assert!(docs_entry_path(&vec![n("typst-0.12.0"), n("docs"), PathComponent::CurDir]).unwrap().is_none());
}

fn names(c: &[PathComponent]) -> Vec<String> {
    c.iter()
        .map(|p| match p {
            PathComponent::Prefix => "<prefix>".to_string(),
            PathComponent::RootDir => "/".to_string(),
            PathComponent::CurDir => ".".to_string(),
            PathComponent::ParentDir => "..".to_string(),
            PathComponent::Normal(n) => n.clone(),
        })
        .collect()
}

#[test]
fn test_path_components_like_std() {
    for p in ["a/b", "a//b/", "a/./b/.", "./a/b", ".", "./", "/x/y", "/./x", "a/../b", "..", "", "typst-0.12.0/docs/", "//a"] {
        let expected: Vec<String> = std::path::Path::new(p)
            .components()
            .map(|c| match c {
                std::path::Component::RootDir => "/".to_string(),
                std::path::Component::CurDir => ".".to_string(),
                std::path::Component::ParentDir => "..".to_string(),
                std::path::Component::Normal(n) => n.to_string_lossy().into_owned(),
                std::path::Component::Prefix(_) => "<prefix>".to_string(),
            })
            .collect();
        assert_eq!(names(&path_components(p)), expected, "path {:?}", p);
    }
    assert_eq!(names(&path_components("./a/./b")), vec![".", "a", "b"]);
}

fn tar_gz(entries: &[(&str, bool, &[u8])]) -> Vec<u8> {
    let encoder = flate2::write::GzEncoder::new(Vec::new(), flate2::Compression::default());
    let mut builder = tar::Builder::new(encoder);
    for (name, is_dir, data) in entries {
        let mut header = tar::Header::new_gnu();
        header.as_old_mut().name[..name.len()].copy_from_slice(name.as_bytes());
        header.set_entry_type(if *is_dir { tar::EntryType::Directory } else { tar::EntryType::Regular });
        header.set_size(data.len() as u64);
        header.set_mode(0o644);
        header.set_cksum();
        builder.append(&header, *data).unwrap();
    }
    builder.into_inner().unwrap().finish().unwrap()
}

#[test]
fn test_plan_docs_extraction_keeps_docs_members_in_order() {
    let bytes = tar_gz(&[
        ("typst-0.12.0/", true, b""),
        ("typst-0.12.0/docs/", true, b""),
        ("typst-0.12.0/docs/guide.md", false, b"# Guide"),
        ("typst-0.12.0/src/lib.rs", false, b"fn main() {}"),
        ("typst-0.12.0/docs/ref/a.md", false, b"A"),
        ("typst-0.12.0/docs/./dot.md", false, b"S"),
    ]);
    let plan = plan_docs_extraction(&bytes).unwrap();
    assert_eq!(plan.file_count, 3);
    let got: Vec<(Vec<String>, bool, Vec<u8>)> =
        plan.members.into_iter().map(|m| (m.names, m.is_dir, m.contents)).collect();
    let s = |v: &[&str]| v.iter().map(|x| x.to_string()).collect::<Vec<_>>();
    assert_eq!(
        got,
        vec![
            (s(&["docs"]), true, vec![]),
            (s(&["docs", "guide.md"]), false, b"# Guide".to_vec()),
            (s(&["docs", "ref", "a.md"]), false, b"A".to_vec()),
            (s(&["docs", "dot.md"]), false, b"S".to_vec()),
        ]
    );
}

#[test]
fn test_plan_docs_extraction_refuses_traversal() {
    let bytes = tar_gz(&[
        ("typst-0.12.0/docs/guide.md", false, b"# Guide"),
        ("typst-0.12.0/docs/../../evil.sh", false, b"rm"),
    ]);
    assert!(matches!(plan_docs_extraction(&bytes), Err(DocsError::PathTraversal)));
}

#[test]
fn test_plan_docs_extraction_without_docs_files() {
    let only_src = tar_gz(&[("typst-0.12.0/src/lib.rs", false, b"fn main() {}")]);
    assert!(matches!(plan_docs_extraction(&only_src), Err(DocsError::NoDocsFound)));
    let only_dirs = tar_gz(&[("typst-0.12.0/docs/", true, b""), ("typst-0.12.0/docs/ref/", true, b"")]);
    assert!(matches!(plan_docs_extraction(&only_dirs), Err(DocsError::NoDocsFound)));
}

#[test]
fn test_plan_docs_extraction_unreadable_archive() {
    assert!(matches!(plan_docs_extraction(b"not a gzip archive"), Err(DocsError::IoError(_))));
}

#[test]
fn test_url_error_messages() {
    let mut mail = WebUrl::parse("mailto:someone@example.com").unwrap();
    match add_path_segments(&mut mail, &["a"]).unwrap_err() {
        e @ UrlError::CannotBeABase { .. } => assert_eq!(e.message(), "URL cannot be a base: mailto:someone@example.com"),
        e => panic!("unexpected {:?}", e),
    }
    assert_eq!(mail.as_str(), "mailto:someone@example.com");
    let err = WebUrl::parse("no scheme").unwrap_err();
    assert_eq!(UrlError::ParseError(err).message(), "Invalid URL: relative URL without a base");
    let base = github_base_url().unwrap();
    assert_eq!(base.host_str(), Some("github.com"));
}

#[test]
fn test_exec_resolution_choice() {
    let options = ExecOptions {
        project_root: "/project".to_string(),
        args: vec!["compile".to_string()],
        required_version: "0.13.1".to_string(),
    };
    let ro = resolve_options_for(&options);
    assert_eq!(ro.required_version, "0.13.1");
    assert_eq!(ro.project_root, "/project");
    assert!(!ro.force_refresh);
    assert_eq!(resolved_binary(ResolveResult::Resolved(info("0.13.1", TypstSource::System))).unwrap(), "/bin/typst");
    match resolved_binary(ResolveResult::NotFound { required_version: "0.13.1".to_string(), searched_locations: vec![] }) {
        Err(ExecError::TypstNotResolved { required_version }) => assert_eq!(required_version, "0.13.1"),
        other => panic!("unexpected {:?}", other),
    }
}
