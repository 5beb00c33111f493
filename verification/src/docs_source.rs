//! Where Typst documentation comes from: the URLs of docs.json and of the
//! source archive, the size limits, and which archive entries are extracted.

use vstd::prelude::*;
use std::io::Read;
use crate::github::{add_path_segments, github_base_url, url_with_segments, parsed_url, UrlError, WebUrl};

verus! {

/// The largest documentation archive accepted, in bytes.
pub const MAX_DOCS_SIZE: u64 = 50 * 1024 * 1024;

/// The largest docs.json accepted, in bytes.
pub const MAX_DOCS_JSON_SIZE: u64 = 10 * 1024 * 1024;

/// Errors of fetching documentation.
#[derive(Debug)]
pub enum DocsError {
    SizeExceeded { size: u64, max: u64 },
    GitHubError(String),
    UrlError(String),
    UrlParseError(String),
    HttpClientError(String),
    IoError(String),
    LockError(String),
    DocsJsonError(String),
    SchemaError(String),
    GenerateError(String),
    JsonParseError(String),
    /// An archive entry reaches outside the docs directory.
    PathTraversal,
    /// The archive holds no documentation.
    NoDocsFound,
}

/// Errors of fetching docs.json.
#[derive(Debug)]
pub enum DocsJsonError {
    SizeExceeded { size: u64, max: u64 },
    GitHubError(String),
    UrlError(String),
    UrlParseError(String),
    HttpClientError(String),
    IoError(String),
}

/// The path segments of docs.json for a version, below the GitHub base URL.
pub open spec fn docs_json_segments(version: Seq<char>) -> Seq<Seq<char>> {
    seq!["typst-community"@, "dev-builds"@, "releases"@, "download"@, "v"@ + version, "docs.json"@]
}

/// The URL of docs.json for a version: the GitHub base URL with the path
/// `typst-community/dev-builds/releases/download/v{version}/docs.json`.
pub fn build_docs_json_url(version: &str) -> (r: Result<WebUrl, DocsJsonError>)
    ensures
        match parsed_url("https://github.com"@) {
            Err(m) => r matches Err(DocsJsonError::UrlParseError(x)) && x@ == m,
            Ok(base) => match url_with_segments(base.text, docs_json_segments(version@)) {
                Some(u) => r matches Ok(x) && x@ == u,
                None => r matches Err(DocsJsonError::UrlError(x)) && x@ == "URL cannot be a base: "@ + base.text,
            },
        },
{
    let mut url = match github_base_url() {
        Ok(u) => u,
        Err(e) => return Err(DocsJsonError::UrlParseError(e.message)),
    };
    let mut tag = "v".to_owned();
    tag.append(version);
    let segments = ["typst-community", "dev-builds", "releases", "download", tag.as_str(), "docs.json"];
    proof {
        reveal_strlit("typst-community");
        reveal_strlit("dev-builds");
        reveal_strlit("releases");
        reveal_strlit("download");
        reveal_strlit("docs.json");
        reveal_strlit("v");
        assert(segments@.map_values(|s: &str| s@) =~= docs_json_segments(version@));
    }
    match add_path_segments(&mut url, &segments) {
        Ok(()) => Ok(url),
        Err(e) => Err(DocsJsonError::UrlError(e.message())),
    }
}

/// Checks the size of a downloaded docs.json against [`MAX_DOCS_JSON_SIZE`].
pub fn check_docs_json_size(size: u64) -> (r: Result<(), DocsJsonError>)
    ensures
        size <= MAX_DOCS_JSON_SIZE <==> r is Ok,
        size > MAX_DOCS_JSON_SIZE ==> (r matches Err(DocsJsonError::SizeExceeded { size: s, max: m }) && s
            == size && m == MAX_DOCS_JSON_SIZE),
{
    if size > MAX_DOCS_JSON_SIZE {
        return Err(DocsJsonError::SizeExceeded { size, max: MAX_DOCS_JSON_SIZE });
    }
    Ok(())
}

/// The path segments of the source archive of a version, below the GitHub base URL.
pub open spec fn docs_archive_segments(version: Seq<char>) -> Seq<Seq<char>> {
    seq!["typst"@, "typst"@, "archive"@, "refs"@, "tags"@, "v"@ + version + ".tar.gz"@]
}

/// The URL of the source archive of a version: the GitHub base URL with the
/// path `typst/typst/archive/refs/tags/v{version}.tar.gz`, each segment
/// percent-encoded.
pub fn build_docs_archive_url(version: &str) -> (r: Result<WebUrl, UrlError>)
    ensures
        match parsed_url("https://github.com"@) {
            Err(m) => r matches Err(UrlError::ParseError(e)) && e.message@ == m,
            Ok(base) => match url_with_segments(base.text, docs_archive_segments(version@)) {
                Some(u) => r matches Ok(x) && x@ == u,
                None => r matches Err(UrlError::CannotBeABase { url }) && url@ == base,
            },
        },
{
    let mut url = match github_base_url() {
        Ok(u) => u,
        Err(e) => return Err(UrlError::ParseError(e)),
    };
    let mut file = "v".to_owned();
    file.append(version);
    file.append(".tar.gz");
    let segments = ["typst", "typst", "archive", "refs", "tags", file.as_str()];
    proof {
        reveal_strlit("typst");
        reveal_strlit("archive");
        reveal_strlit("refs");
        reveal_strlit("tags");
        reveal_strlit("v");
        reveal_strlit(".tar.gz");
        assert(segments@.map_values(|s: &str| s@) =~= docs_archive_segments(version@));
    }
    match add_path_segments(&mut url, &segments) {
        Ok(()) => Ok(url),
        Err(e) => Err(e),
    }
}

/// A component of a path in an archive.
#[derive(Debug)]
pub enum PathComponent {
    /// A Windows path prefix.
    Prefix,
    /// The root directory.
    RootDir,
    /// `.`
    CurDir,
    /// `..`
    ParentDir,
    /// A name.
    Normal(String),
}

/// A path component as a value: a name is its characters.
pub enum PartView {
    Prefix,
    RootDir,
    CurDir,
    ParentDir,
    Normal(Seq<char>),
}

impl View for PathComponent {
    type V = PartView;

    open spec fn view(&self) -> PartView {
        match self {
            PathComponent::Prefix => PartView::Prefix,
            PathComponent::RootDir => PartView::RootDir,
            PathComponent::CurDir => PartView::CurDir,
            PathComponent::ParentDir => PartView::ParentDir,
            PathComponent::Normal(n) => PartView::Normal(n@),
        }
    }
}

/// What becomes of an archive entry: skipped (`None`), or extracted under the
/// docs target at the relative path of its names from `docs` on; an entry
/// that climbs out with `..` or a root is refused.
pub open spec fn entry_target(cs: Seq<PartView>) -> Result<Option<Seq<Seq<char>>>, ()> {
    if cs.len() < 2 {
        Ok(None)
    } else if !(cs[1] matches PartView::Normal(n) && n == "docs"@) {
        Ok(None)
    } else if exists|i: int| 1 <= i < cs.len() && (#[trigger] cs[i] is ParentDir || cs[i] is RootDir)
        && forall|j: int| 1 <= j < i ==> #[trigger] cs[j] is Normal {
        Err(())
    } else if exists|i: int| 1 <= i < cs.len() && !(#[trigger] cs[i] is Normal) {
        Ok(None)
    } else {
        Ok(Some(Seq::new((cs.len() - 1) as nat, |i: int| cs[i + 1]->Normal_0)))
    }
}

/// Decides an archive entry by the components of its path (archive format:
/// `typst-{version}/docs/...`): entries outside `docs` are skipped, and so
/// are entries with `.` or prefix components; `..` or a root after the
/// archive's top directory is refused as path traversal (the first
/// non-name component decides); otherwise the names from `docs` on.
pub fn docs_entry_path(components: &Vec<PathComponent>) -> (r: Result<Option<Vec<String>>, DocsError>)
    ensures
        match entry_target(components@.map_values(|c: PathComponent| c@)) {
            Ok(None) => r matches Ok(None),
            Ok(Some(names)) => r matches Ok(Some(v)) && v@.map_values(|s: String| s@) == names,
            Err(()) => r matches Err(DocsError::PathTraversal),
        },
{
    let ghost cs = components@.map_values(|c: PathComponent| c@);
    if components.len() < 2 {
        return Ok(None);
    }
    proof { reveal_strlit("docs"); }
    match &components[1] {
        PathComponent::Normal(n) => {
            if !crate::text::text_eq(n.as_str(), "docs") {
                return Ok(None);
            }
        },
        _ => return Ok(None),
    }
    assert(cs[1] == components@[1]@);
    let mut names: Vec<String> = Vec::new();
    let mut i: usize = 1;
    while i < components.len()
        invariant
            cs == components@.map_values(|c: PathComponent| c@),
            cs.len() >= 2,
            cs[1] matches PartView::Normal(n) && n == "docs"@,
            1 <= i <= cs.len(),
            forall|j: int| 1 <= j < i ==> #[trigger] cs[j] is Normal,
            names@.len() == i - 1,
            forall|j: int| 0 <= j < i - 1 ==> #[trigger] names@[j]@ == cs[j + 1]->Normal_0,
        decreases components.len() - i,
    {
        assert(cs[i as int] == components@[i as int]@);
        match &components[i] {
            PathComponent::Normal(n) => {
                names.push(n.clone());
            },
            PathComponent::ParentDir | PathComponent::RootDir => {
                assert(1 <= i < cs.len() && (cs[i as int] is ParentDir || cs[i as int] is RootDir) && forall|j: int|
                    1 <= j < i ==> #[trigger] cs[j] is Normal);
                return Err(DocsError::PathTraversal);
            },
            _ => {
                assert(!(cs[i as int] is Normal));
                assert(!exists|k: int| 1 <= k < cs.len() && (#[trigger] cs[k] is ParentDir || cs[k] is RootDir)
                    && forall|j: int| 1 <= j < k ==> #[trigger] cs[j] is Normal) by {
                    assert forall|k: int| 1 <= k < cs.len() && (#[trigger] cs[k] is ParentDir || cs[k] is RootDir) implies !(forall|j: int| 1 <= j < k ==> #[trigger] cs[j] is Normal) by {
                        if k < i {
                            assert(cs[k] is Normal);
                        } else if k > i {
                            assert(!(cs[i as int] is Normal));
                        }
                    }
                }
                return Ok(None);
            },
        }
        i = i + 1;
    }
    assert(names@.map_values(|s: String| s@) =~= Seq::new((cs.len() - 1) as nat, |k: int| cs[k + 1]->Normal_0));
    Ok(Some(names))
}

/// The components that one piece of a path between separators gives: none
/// for an empty piece or `.`, the parent for `..`, a name otherwise.
pub open spec fn piece_parts(piece: Seq<char>) -> Seq<PartView> {
    if piece.len() == 0 || piece == seq!['.'] {
        seq![]
    } else if piece == seq!['.', '.'] {
        seq![PartView::ParentDir]
    } else {
        seq![PartView::Normal(piece)]
    }
}

/// The components of `p` split at `/`, where `piece` holds the characters
/// read since the last separator.
pub open spec fn split_parts(p: Seq<char>, piece: Seq<char>) -> Seq<PartView>
    decreases p.len(),
{
    if p.len() == 0 {
        piece_parts(piece)
    } else if p[0] == '/' {
        piece_parts(piece) + split_parts(p.drop_first(), seq![])
    } else {
        split_parts(p.drop_first(), piece.push(p[0]))
    }
}

/// The components of a Unix path as std `Path::components` gives them: a
/// leading `/` is the root, a leading `.` piece is kept as the current
/// directory, and after that empty pieces and `.` are dropped.
pub open spec fn unix_components(p: Seq<char>) -> Seq<PartView> {
    if p.len() > 0 && p[0] == '/' {
        seq![PartView::RootDir] + split_parts(p.drop_first(), seq![])
    } else if p == seq!['.'] || (p.len() >= 2 && p[0] == '.' && p[1] == '/') {
        seq![PartView::CurDir] + split_parts(p.drop_first(), seq![])
    } else {
        split_parts(p, seq![])
    }
}

/// The views of a sequence of components.
pub open spec fn part_views(v: Seq<PathComponent>) -> Seq<PartView> {
    v.map_values(|c: PathComponent| c@)
}

/// Appends the components of the piece `cs[from..to]`.
fn push_piece(out: &mut Vec<PathComponent>, cs: &Vec<char>, from: usize, to: usize)
    requires
        from <= to <= cs@.len(),
    ensures
        part_views(final(out)@) == part_views(old(out)@) + piece_parts(cs@.subrange(from as int, to as int)),
{
    let ghost piece = cs@.subrange(from as int, to as int);
    let ghost before = part_views(out@);
    let n = to - from;
    if n == 0 {
        assert(before + piece_parts(piece) =~= before);
        return;
    }
    if n == 1 && cs[from] == '.' {
        assert(piece =~= seq!['.']);
        assert(before + piece_parts(piece) =~= before);
        return;
    }
    assert(piece != seq!['.']) by {
        if n == 1 {
            assert(piece[0] != seq!['.'][0]);
        }
    }
    if n == 2 && cs[from] == '.' && cs[from + 1] == '.' {
        assert(piece =~= seq!['.', '.']);
        out.push(PathComponent::ParentDir);
        assert(part_views(out@) =~= before + piece_parts(piece));
        return;
    }
    assert(piece != seq!['.', '.']) by {
        if n == 2 {
            if cs[from as int] != '.' {
                assert(piece[0] != seq!['.', '.'][0]);
            } else {
                assert(piece[1] != seq!['.', '.'][1]);
            }
        }
    }
    out.push(PathComponent::Normal(crate::text::string_from_range(cs, from, to)));
    assert(part_views(out@) =~= before + piece_parts(piece));
}

/// The components of a Unix path, as std `Path::components` gives them.
pub fn path_components(path: &str) -> (r: Vec<PathComponent>)
    ensures
        part_views(r@) == unix_components(path@),
{
    let cs = crate::text::chars_of(path);
    let ghost p = cs@;
    let mut out: Vec<PathComponent> = Vec::new();
    let mut start: usize = 0;
    if cs.len() > 0 && cs[0] == '/' {
        out.push(PathComponent::RootDir);
        start = 1;
    } else if (cs.len() == 1 && cs[0] == '.') || (cs.len() >= 2 && cs[0] == '.' && cs[1] == '/') {
        assert(cs.len() == 1 ==> p =~= seq!['.']);
        out.push(PathComponent::CurDir);
        start = 1;
    } else {
        assert(p != seq!['.']) by {
            if p.len() == 1 {
                assert(p[0] != seq!['.'][0]);
            }
        }
    }
    assert(p.skip(start as int) =~= if start == 0 { p } else { p.drop_first() });
    assert(p.subrange(start as int, start as int) =~= Seq::<char>::empty());
    assert(part_views(out@) + split_parts(p.skip(start as int), p.subrange(start as int, start as int))
        =~= unix_components(p));
    let mut from: usize = start;
    let mut i: usize = start;
    while i < cs.len()
        invariant
            p == cs@,
            p == path@,
            from <= i <= p.len(),
            part_views(out@) + split_parts(p.skip(i as int), p.subrange(from as int, i as int)) == unix_components(p),
        decreases cs.len() - i,
    {
        let ghost rest = p.skip(i as int);
        assert(rest.drop_first() =~= p.skip(i + 1));
        if cs[i] == '/' {
            let ghost before = part_views(out@);
            let ghost piece = p.subrange(from as int, i as int);
            push_piece(&mut out, &cs, from, i);
            assert(p.subrange(i + 1, i + 1) =~= Seq::<char>::empty());
            assert(before + (piece_parts(piece) + split_parts(p.skip(i + 1), seq![]))
                =~= part_views(out@) + split_parts(p.skip(i + 1), p.subrange(i + 1, i + 1)));
            from = i + 1;
        } else {
            assert(p.subrange(from as int, i as int).push(p[i as int]) =~= p.subrange(from as int, i + 1));
        }
        i = i + 1;
    }
    assert(p.skip(i as int) =~= Seq::<char>::empty());
    push_piece(&mut out, &cs, from, cs.len());
    out
}

/// A member of an archive: its path, whether it is a directory, and its bytes.
pub struct ArchiveMember {
    pub path: String,
    pub is_dir: bool,
    pub contents: Vec<u8>,
}

impl View for ArchiveMember {
    type V = (Seq<char>, bool, Seq<u8>);

    open spec fn view(&self) -> (Seq<char>, bool, Seq<u8>) {
        (self.path@, self.is_dir, self.contents@)
    }
}

/// The members of a gzip-compressed tar archive as the `tar` crate reads them
/// from what `flate2` decompresses: each member's path (as UTF-8, lossily),
/// whether its header marks a directory, and its bytes, in archive order up
/// to the first read error; and the message of that error, if one came.
pub uninterp spec fn tar_gz_members(bytes: Seq<u8>) -> (Seq<(Seq<char>, bool, Seq<u8>)>, Option<Seq<char>>);

/// Reads the members of a gzip-compressed tar archive: `flate2::read::GzDecoder`
/// under `tar::Archive::entries`, with each entry's `path`, its header's
/// entry type and `read_to_end`. The contract claims that what comes back is
/// the named reading of the bytes.
#[verifier::external_body]
fn read_tar_gz_members(bytes: &[u8]) -> (r: (Vec<ArchiveMember>, Option<String>))
    ensures
        r.0@.map_values(|m: ArchiveMember| m@) == tar_gz_members(bytes@).0,
        match tar_gz_members(bytes@).1 {
            Some(e) => r.1 matches Some(x) && x@ == e,
            None => r.1 is None,
        },
{
    let mut archive = tar::Archive::new(flate2::read::GzDecoder::new(bytes));
    let mut members = Vec::new();
    let outcome = (|| -> std::io::Result<()> {
        for entry in archive.entries()? {
            let mut entry = entry?;
            let path = entry.path()?.to_string_lossy().into_owned();
            let mut contents = Vec::new();
            entry.read_to_end(&mut contents)?;
            members.push(ArchiveMember { path, is_dir: entry.header().entry_type().is_dir(), contents });
        }
        Ok(())
    })();
    (members, outcome.err().map(|e| e.to_string()))
}

/// What becomes of an archive member: the target of its path's components.
pub open spec fn member_target(m: (Seq<char>, bool, Seq<u8>)) -> Result<Option<Seq<Seq<char>>>, ()> {
    entry_target(unix_components(m.0))
}

/// Whether some member of `ms` is refused as path traversal.
pub open spec fn any_traversal(ms: Seq<(Seq<char>, bool, Seq<u8>)>) -> bool {
    exists|i: int| 0 <= i < ms.len() && #[trigger] member_target(ms[i]) is Err
}

/// The members that are extracted, in archive order: the names below the
/// target directory, whether it is a directory, and the bytes.
pub open spec fn kept_members(ms: Seq<(Seq<char>, bool, Seq<u8>)>) -> Seq<(Seq<Seq<char>>, bool, Seq<u8>)>
    decreases ms.len(),
{
    if ms.len() == 0 {
        seq![]
    } else {
        let rest = kept_members(ms.drop_last());
        let m = ms.last();
        match member_target(m) {
            Ok(Some(names)) => rest.push((names, m.1, m.2)),
            _ => rest,
        }
    }
}

/// How many of the extracted members are files.
pub open spec fn file_count(ks: Seq<(Seq<Seq<char>>, bool, Seq<u8>)>) -> nat
    decreases ks.len(),
{
    if ks.len() == 0 {
        0
    } else {
        file_count(ks.drop_last()) + if ks.last().1 { 0nat } else { 1nat }
    }
}

/// An archive member to extract: its names below the target directory,
/// whether it is a directory, and its bytes.
pub struct ExtractedMember {
    pub names: Vec<String>,
    pub is_dir: bool,
    pub contents: Vec<u8>,
}

impl View for ExtractedMember {
    type V = (Seq<Seq<char>>, bool, Seq<u8>);

    open spec fn view(&self) -> (Seq<Seq<char>>, bool, Seq<u8>) {
        (self.names@.map_values(|s: String| s@), self.is_dir, self.contents@)
    }
}

/// What extracting the docs directory of an archive writes: the members in
/// archive order, and how many of them are files.
pub struct DocsExtraction {
    pub members: Vec<ExtractedMember>,
    pub file_count: usize,
}

/// Decides what to extract from a gzip-compressed source archive (format
/// `typst-{version}/docs/...`): a member whose path climbs out of the docs
/// directory refuses the archive, members outside `docs` are skipped, a read
/// error of the archive is an I/O error, and an archive without any docs
/// file has no documentation.
pub fn plan_docs_extraction(bytes: &[u8]) -> (r: Result<DocsExtraction, DocsError>)
    ensures
        ({
            let (ms, err) = tar_gz_members(bytes@);
            if any_traversal(ms) {
                r matches Err(DocsError::PathTraversal)
            } else if err is Some {
                r matches Err(DocsError::IoError(x)) && x@ == err->0
            } else if file_count(kept_members(ms)) == 0 {
                r matches Err(DocsError::NoDocsFound)
            } else {
                r matches Ok(plan) && plan.members@.map_values(|k: ExtractedMember| k@) == kept_members(ms)
                    && plan.file_count == file_count(kept_members(ms))
            }
        }),
{
    let (members, err) = read_tar_gz_members(bytes);
    let ghost ms = tar_gz_members(bytes@).0;
    let mut kept: Vec<ExtractedMember> = Vec::new();
    let mut count: usize = 0;
    let mut i: usize = 0;
    while i < members.len()
        invariant
            ms == members@.map_values(|m: ArchiveMember| m@),
            ms == tar_gz_members(bytes@).0,
            i <= ms.len(),
            forall|j: int| 0 <= j < i ==> !(#[trigger] member_target(ms[j]) is Err),
            kept@.map_values(|k: ExtractedMember| k@) == kept_members(ms.take(i as int)),
            count == file_count(kept_members(ms.take(i as int))),
            count <= i,
        decreases members.len() - i,
    {
        let m = &members[i];
        assert(ms[i as int] == m@);
        let components = path_components(m.path.as_str());
        assert(part_views(components@) == components@.map_values(|c: PathComponent| c@));
        assert(ms.take(i + 1).drop_last() =~= ms.take(i as int));
        assert(ms.take(i + 1).last() == ms[i as int]);
        let ghost before = kept@.map_values(|k: ExtractedMember| k@);
        match docs_entry_path(&components) {
            Err(_) => {
                assert(member_target(ms[i as int]) is Err);
                return Err(DocsError::PathTraversal);
            },
            Ok(None) => {},
            Ok(Some(names)) => {
                let contents = m.contents.clone();
                assert(contents@ =~= m.contents@);
                let is_dir = m.is_dir;
                kept.push(ExtractedMember { names, is_dir, contents });
                assert(kept@.map_values(|k: ExtractedMember| k@) =~= before.push(
                    (member_target(ms[i as int])->Ok_0->Some_0, m.is_dir, m.contents@),
                ));
                if !is_dir {
                    count = count + 1;
                }
                let ghost ks = kept_members(ms.take(i + 1));
                assert(ks.drop_last() =~= kept_members(ms.take(i as int)));
            },
        }
        i = i + 1;
    }
    assert(ms.take(i as int) =~= ms);
    if let Some(e) = err {
        return Err(DocsError::IoError(e));
    }
    if count == 0 {
        return Err(DocsError::NoDocsFound);
    }
    Ok(DocsExtraction { members: kept, file_count: count })
}

} // verus!
