//! Finding a Typst binary of a required version: reading the version a
//! binary reports, when to retry running it, and the order in which the
//! places are searched.

use vstd::prelude::*;
use crate::text::{chars_of, has_prefix, lines, lines_of, string_from_range, trim_bounds, trim_ws, is_ws, is_whitespace_char};

verus! {

/// Where a Typst binary was found.
#[derive(Clone, Copy, Debug, PartialEq, Eq, Structural)]
pub enum TypstSource {
    Managed,
    System,
    InstalledRelease,
    InstalledCargo,
}

/// The description of a source.
pub open spec fn source_label(s: TypstSource) -> Seq<char> {
    match s {
        TypstSource::Managed => "managed cache"@,
        TypstSource::System => "system PATH"@,
        TypstSource::InstalledRelease => "installed release"@,
        TypstSource::InstalledCargo => "installed cargo"@,
    }
}

impl TypstSource {
    /// The description of the source (`managed cache`, `system PATH`, ...).
    pub fn label(&self) -> (r: String)
        ensures
            r@ == source_label(*self),
    {
        match self {
            TypstSource::Managed => "managed cache".to_owned(),
            TypstSource::System => "system PATH".to_owned(),
            TypstSource::InstalledRelease => "installed release".to_owned(),
            TypstSource::InstalledCargo => "installed cargo".to_owned(),
        }
    }
}

/// A Typst binary: its version, where it was found, and its path.
#[derive(Debug)]
pub struct TypstInfo {
    pub version: String,
    pub source: TypstSource,
    pub path: String,
}

/// What `semver::Version::parse` says of a text: `None` when it is a version,
/// else the text of its error.
pub uninterp spec fn semver_error(text: Seq<char>) -> Option<Seq<char>>;

/// Parses `text` with `semver::Version::parse` and returns the error message,
/// if any. The contract claims only that the outcome is a function of the
/// text (named `semver_error`).
#[verifier::external_body]
fn semver_parse_error(text: &str) -> (r: Option<String>)
    ensures
        match semver_error(text@) {
            Some(m) => r matches Some(x) && x@ == m,
            None => r is None,
        },
{
    match semver::Version::parse(text) {
        Ok(_) => None,
        Err(e) => Some(e.to_string()),
    }
}

/// The first position at or after `i` that holds no whitespace (or the end).
pub open spec fn skip_ws(s: Seq<char>, i: int) -> int
    decreases s.len() - i,
{
    if i < 0 || i >= s.len() {
        s.len() as int
    } else if is_ws(s[i]) {
        skip_ws(s, i + 1)
    } else {
        i
    }
}

/// The first position at or after `i` that holds whitespace (or the end).
pub open spec fn word_end(s: Seq<char>, i: int) -> int
    decreases s.len() - i,
{
    if i < 0 || i >= s.len() {
        s.len() as int
    } else if is_ws(s[i]) {
        i
    } else {
        word_end(s, i + 1)
    }
}

/// The second whitespace-separated word of `s`, if any.
pub open spec fn second_word(s: Seq<char>) -> Option<Seq<char>> {
    let e0 = word_end(s, skip_ws(s, 0));
    let a1 = skip_ws(s, e0);
    if a1 < s.len() {
        Some(s.subrange(a1, word_end(s, a1)))
    } else {
        None
    }
}

/// `s` without leading `c`.
pub open spec fn trim_start_char(s: Seq<char>, c: char) -> Seq<char>
    decreases s.len(),
{
    if s.len() > 0 && s[0] == c {
        trim_start_char(s.drop_first(), c)
    } else {
        s
    }
}

/// The version a line announces: for a (trimmed) line starting with `typst`,
/// its second word without leading `v`, when that is a semantic version.
pub open spec fn line_version(line: Seq<char>) -> Option<Seq<char>> {
    let t = trim_ws(line);
    if has_prefix(t, "typst"@) {
        match second_word(t) {
            Some(w) => {
                let v = trim_start_char(w, 'v');
                if semver_error(v) is None {
                    Some(v)
                } else {
                    None
                }
            },
            None => None,
        }
    } else {
        None
    }
}

/// The version announced by the first line from index `i` on that announces one.
pub open spec fn first_line_version(ls: Seq<Seq<char>>, i: int) -> Option<Seq<char>>
    decreases ls.len() - i,
{
    if i < 0 || i >= ls.len() {
        None
    } else {
        match line_version(ls[i]) {
            Some(v) => Some(v),
            None => first_line_version(ls, i + 1),
        }
    }
}

/// The version in the output of `typst --version`: the first line of the
/// trimmed output that reads `typst X.Y.Z` or `typst vX.Y.Z` with a semantic
/// version.
pub open spec fn output_version(output: Seq<char>) -> Option<Seq<char>> {
    first_line_version(lines_of(trim_ws(output)), 0)
}

/// The first position at or after `i` in `cs[..end]` that holds no whitespace.
fn skip_ws_from(cs: &Vec<char>, i: usize) -> (r: usize)
    requires
        i <= cs@.len(),
    ensures
        r as int == skip_ws(cs@, i as int),
        i <= r <= cs@.len(),
{
    let mut j = i;
    while j < cs.len() && is_whitespace_char(cs[j])
        invariant
            i <= j <= cs@.len(),
            skip_ws(cs@, i as int) == skip_ws(cs@, j as int),
        decreases cs.len() - j,
    {
        j = j + 1;
    }
    j
}

/// The first position at or after `i` that holds whitespace.
fn word_end_from(cs: &Vec<char>, i: usize) -> (r: usize)
    requires
        i <= cs@.len(),
    ensures
        r as int == word_end(cs@, i as int),
        i <= r <= cs@.len(),
{
    let mut j = i;
    while j < cs.len() && !is_whitespace_char(cs[j])
        invariant
            i <= j <= cs@.len(),
            word_end(cs@, i as int) == word_end(cs@, j as int),
        decreases cs.len() - j,
    {
        j = j + 1;
    }
    j
}

/// The version a line announces (see [`line_version`]).
fn version_of_line(line: &Vec<char>) -> (r: Option<String>)
    ensures
        match line_version(line@) {
            Some(v) => r matches Some(x) && x@ == v,
            None => r is None,
        },
{
    let (a, b) = trim_bounds(line, 0, line.len());
    assert(line@.subrange(0, line@.len() as int) =~= line@);
    let t = string_from_range(line, a, b);
    let ts = chars_of(t.as_str());
    proof { reveal_strlit("typst"); }
    if !crate::text::starts_with_str(&ts, "typst") {
        return None;
    }
    let a0 = skip_ws_from(&ts, 0);
    let e0 = word_end_from(&ts, a0);
    let a1 = skip_ws_from(&ts, e0);
    if a1 >= ts.len() {
        return None;
    }
    let e1 = word_end_from(&ts, a1);
    let ghost w = ts@.subrange(a1 as int, e1 as int);
    let mut k = a1;
    while k < e1 && ts[k] == 'v'
        invariant
            a1 <= k <= e1 <= ts@.len(),
            trim_start_char(w, 'v') == trim_start_char(ts@.subrange(k as int, e1 as int), 'v'),
        decreases e1 - k,
    {
        assert(ts@.subrange(k as int, e1 as int).drop_first() =~= ts@.subrange(k + 1, e1 as int));
        k = k + 1;
    }
    let v = string_from_range(&ts, k, e1);
    assert(trim_start_char(ts@.subrange(k as int, e1 as int), 'v') == ts@.subrange(k as int, e1 as int));
    match semver_parse_error(v.as_str()) {
        None => Some(v),
        Some(_) => None,
    }
}

/// The version in the output of `typst --version` (see [`output_version`]).
pub fn parse_typst_version(output: &str) -> (r: Option<String>)
    ensures
        match output_version(output@) {
            Some(v) => r matches Some(x) && x@ == v,
            None => r is None,
        },
{
    let cs = chars_of(output);
    let (a, b) = trim_bounds(&cs, 0, cs.len());
    assert(cs@.subrange(0, cs@.len() as int) =~= output@);
    let trimmed = string_from_range(&cs, a, b);
    let ls = lines(trimmed.as_str());
    let ghost all = lines_of(trim_ws(output@));
    let mut i: usize = 0;
    while i < ls.len()
        invariant
            all == lines_of(trim_ws(output@)),
            ls@.len() == all.len(),
            forall|k: int| 0 <= k < ls@.len() ==> #[trigger] ls@[k]@ == all[k],
            i <= ls@.len(),
            first_line_version(all, 0) == first_line_version(all, i as int),
        decreases ls.len() - i,
    {
        assert(ls@[i as int]@ == all[i as int]);
        match version_of_line(&ls[i]) {
            Some(v) => return Some(v),
            None => {},
        }
        i = i + 1;
    }
    None
}

/// Whether running the binary should be tried again after a failure: when
/// permission was denied, or the OS error is 26 (text file busy).
pub fn should_retry_exec(permission_denied: bool, raw_os_error: Option<i32>) -> (r: bool)
    ensures
        r == (permission_denied || raw_os_error == Some(26i32)),
{
    if permission_denied {
        return true;
    }
    match raw_os_error {
        Some(code) => code == 26,
        None => false,
    }
}

/// The cached binary for a version. No cache is kept yet: always `None`.
pub fn check_cache(version: &str) -> (r: Option<TypstInfo>)
    ensures
        r is None,
{
    None
}

/// Errors of resolving and running Typst.
#[derive(Debug)]
pub enum ResolveError {
    Generic(String),
    TypstExecFailed(String),
}

/// Checks that the required version is a semantic version.
pub fn check_expected_version(expected: &str) -> (r: Result<(), ResolveError>)
    ensures
        match semver_error(expected@) {
            None => r is Ok,
            Some(m) => r matches Err(ResolveError::Generic(x)) && x@ == "Invalid expected version format '"@
                + expected@ + "': "@ + m,
        },
{
    match semver_parse_error(expected) {
        None => Ok(()),
        Some(m) => {
            let mut x = "Invalid expected version format '".to_owned();
            x.append(expected);
            x.append("': ");
            x.append(m.as_str());
            Err(ResolveError::Generic(x))
        },
    }
}

/// Judges the run of `typst --version`: a failed run or unreadable output is
/// an error; otherwise whether the reported version is the expected one.
pub fn judge_version_output(expected: &str, success: bool, status: &str, stdout: &str) -> (r: Result<bool, ResolveError>)
    ensures
        !success ==> (r matches Err(ResolveError::TypstExecFailed(x)) && x@ == "typst --version exited with status: "@
            + status@),
        success ==> match output_version(stdout@) {
            Some(v) => r == Ok::<bool, ResolveError>(v == expected@),
            None => r matches Err(ResolveError::TypstExecFailed(x)) && x@
                == "Could not parse version from typst --version output: "@ + stdout@,
        },
{
    if !success {
        let mut x = "typst --version exited with status: ".to_owned();
        x.append(status);
        return Err(ResolveError::TypstExecFailed(x));
    }
    match parse_typst_version(stdout) {
        Some(v) => Ok(crate::text::text_eq(v.as_str(), expected)),
        None => {
            let mut x = "Could not parse version from typst --version output: ".to_owned();
            x.append(stdout);
            Err(ResolveError::TypstExecFailed(x))
        },
    }
}

/// Options of a resolution.
#[derive(Debug)]
pub struct ResolveOptions {
    pub required_version: String,
    pub project_root: String,
    pub force_refresh: bool,
}

/// The outcome of a resolution.
#[derive(Debug)]
pub enum ResolveResult {
    Cached(TypstInfo),
    Resolved(TypstInfo),
    NotFound { required_version: String, searched_locations: Vec<String> },
}

/// What a resolution asks its driver to do next.
#[derive(Debug)]
pub enum ResolveAction {
    /// Look for the binary in the managed cache.
    CheckManaged,
    /// Look for the binary on the system `PATH`.
    CheckSystem,
    /// The resolution is over.
    Finish(ResolveResult),
}

/// What the driver reports back.
#[derive(Debug)]
pub enum ResolveEvent {
    /// The resolution begins.
    Start,
    /// The managed cache was searched (in `location`).
    ManagedChecked { found: Option<TypstInfo>, location: String },
    /// The system `PATH` was searched.
    SystemChecked { found: Option<TypstInfo> },
}

/// A resolution in progress: the cache first (unless refreshing), then the
/// managed cache, then the system `PATH`; the places searched in vain are
/// reported when nothing is found.
#[derive(Debug)]
pub struct Resolver {
    pub version: String,
    pub force_refresh: bool,
    pub searched: Vec<String>,
}

impl Resolver {
    pub fn new(options: &ResolveOptions) -> (r: Resolver)
        ensures
            r.version@ == options.required_version@,
            r.force_refresh == options.force_refresh,
            r.searched@.len() == 0,
    {
        Resolver { version: options.required_version.clone(), force_refresh: options.force_refresh, searched: Vec::new() }
    }

    /// Takes the next step after an event.
    pub fn step(&mut self, event: ResolveEvent) -> (action: ResolveAction)
        ensures
            final(self).version == old(self).version,
            final(self).force_refresh == old(self).force_refresh,
            match event {
                ResolveEvent::Start => action is CheckManaged && final(self).searched@ == old(self).searched@,
                ResolveEvent::ManagedChecked { found, location } => match found {
                    Some(info) => action matches ResolveAction::Finish(ResolveResult::Resolved(i)) && i == info
                        && final(self).searched@ == old(self).searched@,
                    None => action is CheckSystem && final(self).searched@.len() == old(self).searched@.len() + 1
                        && final(self).searched@.drop_last() == old(self).searched@
                        && final(self).searched@.last()@ == "managed cache: "@ + location@,
                },
                ResolveEvent::SystemChecked { found } => match found {
                    Some(info) => action matches ResolveAction::Finish(ResolveResult::Resolved(i)) && i == info
                        && final(self).searched@ == old(self).searched@,
                    None => action matches ResolveAction::Finish(
                        ResolveResult::NotFound { required_version, searched_locations },
                    ) && required_version@ == old(self).version@ && searched_locations@.len() == old(
                        self,
                    ).searched@.len() + 1 && searched_locations@.drop_last() == old(self).searched@
                        && searched_locations@.last()@ == "system PATH"@ && final(self).searched@.len() == 0,
                },
            },
    {
        match event {
            ResolveEvent::Start => {
                if !self.force_refresh {
                    match check_cache(self.version.as_str()) {
                        Some(info) => return ResolveAction::Finish(ResolveResult::Cached(info)),
                        None => {},
                    }
                }
                ResolveAction::CheckManaged
            },
            ResolveEvent::ManagedChecked { found, location } => match found {
                Some(info) => ResolveAction::Finish(ResolveResult::Resolved(info)),
                None => {
                    let mut entry = "managed cache: ".to_owned();
                    entry.append(location.as_str());
                    self.searched.push(entry);
                    ResolveAction::CheckSystem
                },
            },
            ResolveEvent::SystemChecked { found } => match found {
                Some(info) => ResolveAction::Finish(ResolveResult::Resolved(info)),
                None => {
                    self.searched.push("system PATH".to_owned());
                    let mut searched: Vec<String> = Vec::new();
                    std::mem::swap(&mut searched, &mut self.searched);
                    let ghost before = searched@;
                    let result = ResolveResult::NotFound {
                        required_version: self.version.clone(),
                        searched_locations: searched,
                    };
                    ResolveAction::Finish(result)
                },
            },
        }
    }
}

} // verus!
