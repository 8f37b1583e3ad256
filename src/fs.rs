//! The decisions of the file-access layer. The caller performs each file-system
//! operation and hands its outcome back; these functions say what comes next.
use vstd::prelude::*;
use crate::path::{
    absolute, is_absolute, join_path, joined, normal_form, normal_names, normalize_p, normalized,
    prefix_of, render, rooted,
};
pub use crate::path::Platform;

verus! {

/// The kind of a failed file-system operation.
#[derive(Clone, Copy, Debug, PartialEq, Eq, Structural)]
pub enum IoErrorKind {
    NotFound,
    AlreadyExists,
    PermissionDenied,
    Other,
}

/// A failure of the file-access layer.
#[derive(Clone, Debug, PartialEq)]
pub enum FsError {
    FileNotFound(String),
    FailedToReadFile(String),
    FailedToReadFileWithError(String),
    Io(IoErrorKind),
}

/// What to do first to open a file.
#[derive(Clone, Debug, PartialEq)]
pub enum OpenPlan {
    /// Open this path as it is.
    Direct(String),
    /// Canonicalize this path, then go on with `after_canonicalize`.
    Canonicalize(String),
}

/// What to do once a path has been canonicalized, or has failed to be.
#[derive(Clone, Debug, PartialEq)]
pub enum CanonicalStep {
    /// Open this path.
    Open(String),
    /// Canonicalize `parent`, then go on with `after_parent_canonicalize`.
    CanonicalizeParent { parent: String, leaf: String },
    /// Give up with this error.
    Fail(FsError),
}

/// The prefix that marks an extended-length path.
pub open spec fn verbatim_prefix() -> Seq<char> {
    seq!['\\', '\\', '?', '\\']
}

/// The prefix that marks a raw device path.
pub open spec fn device_prefix() -> Seq<char> {
    seq!['\\', '\\', '.', '\\']
}

/// `s` without a leading extended-length prefix.
pub open spec fn strip_verbatim(s: Seq<char>) -> Seq<char> {
    if s.len() >= 4 && s.take(4) == verbatim_prefix() {
        s.skip(4)
    } else {
        s
    }
}

/// A raw device path, opened as given.
pub open spec fn device_path(s: Seq<char>, platform: Platform) -> bool {
    &&& platform == Platform::Windows
    &&& s.len() >= 4
    &&& s.take(4) == device_prefix()
    &&& !s.contains(':')
}

/// A path at or below the process file system's root.
pub open spec fn under_proc(s: Seq<char>) -> bool {
    let root = seq!['/', 'p', 'r', 'o', 'c'];
    s == root || (s.len() > 5 && s.take(5) == root && s[5] == '/')
}

/// The path to open, before any canonicalization: normalized, and resolved
/// against `cwd` when it is not absolute on `platform`.
pub open spec fn open_target(path: Seq<char>, cwd: Seq<char>, platform: Platform) -> Seq<char> {
    if absolute(path, platform) {
        normalized(path, platform)
    } else {
        normalized(joined(cwd, path, platform), platform)
    }
}

/// Whether a normalized target must be canonicalized: always but on Linux,
/// where only the process file system asks for it.
pub open spec fn needs_canonicalization(target: Seq<char>, platform: Platform) -> bool {
    platform != Platform::Linux || under_proc(target)
}

/// `s` starts with the four characters of `prefix`.
fn starts_with4(s: &str, prefix: &str) -> (r: bool)
    requires
        prefix@.len() == 4,
    ensures
        r == (s@.len() >= 4 && s@.take(4) == prefix@),
{
    if s.unicode_len() < 4 {
        return false;
    }
    let mut i: usize = 0;
    while i < 4
        invariant
            i <= 4 <= s@.len(),
            prefix@.len() == 4,
            forall|j: int| 0 <= j < i ==> s@[j] == prefix@[j],
        decreases 4 - i,
    {
        if s.get_char(i) != prefix.get_char(i) {
            assert(s@.take(4)[i as int] != prefix@[i as int]);
            return false;
        }
        i = i + 1;
    }
    assert(s@.take(4) == prefix@);
    true
}

/// `s` without a leading extended-length prefix.
pub fn strip_verbatim_prefix(s: &str) -> (r: String)
    ensures
        r@ == strip_verbatim(s@),
{
    let prefix = "\\\\?\\";
    proof {
        reveal_strlit("\\\\?\\");
    }
    assert(prefix@ == verbatim_prefix());
    if starts_with4(s, prefix) {
        String::from_str(s.substring_char(4, s.unicode_len()))
    } else {
        String::from_str(s)
    }
}

/// Whether `path` is a raw device path on `platform`.
pub fn is_device_path(path: &str, platform: Platform) -> (r: bool)
    ensures
        r == device_path(path@, platform),
{
    let prefix = "\\\\.\\";
    proof {
        reveal_strlit("\\\\.\\");
    }
    assert(prefix@ == device_prefix());
    if platform != Platform::Windows || !starts_with4(path, prefix) {
        return false;
    }
    let n = path.unicode_len();
    let mut i: usize = 0;
    while i < n
        invariant
            i <= n == path@.len(),
            forall|j: int| 0 <= j < i ==> path@[j] != ':',
        decreases n - i,
    {
        if path.get_char(i) == ':' {
            assert(path@.contains(':'));
            return false;
        }
        i = i + 1;
    }
    true
}

/// Whether `s` lies at or below the process file system's root.
pub fn is_under_proc(s: &str) -> (r: bool)
    ensures
        r == under_proc(s@),
{
    let ghost root = seq!['/', 'p', 'r', 'o', 'c'];
    let n = s.unicode_len();
    if n < 5 {
        return false;
    }
    let mut i: usize = 0;
    while i < 5
        invariant
            i <= 5 <= n == s@.len(),
            root == seq!['/', 'p', 'r', 'o', 'c'],
            forall|j: int| 0 <= j < i ==> s@[j] == root[j],
        decreases 5 - i,
    {
        let c = s.get_char(i);
        let expected = if i == 0 {
            '/'
        } else if i == 1 {
            'p'
        } else if i == 2 {
            'r'
        } else if i == 3 {
            'o'
        } else {
            'c'
        };
        if c != expected {
            assert(s@.take(5)[i as int] != root[i as int]);
            return false;
        }
        i = i + 1;
    }
    assert(s@.take(5) == root);
    if n == 5 {
        assert(s@ == root);
        true
    } else {
        s.get_char(5) == '/'
    }
}

/// The path to give to canonicalization: `path` resolved against `root` when
/// it is not absolute on `platform`.
pub fn absolute_path(path: &str, root: &str, platform: Platform) -> (r: String)
    ensures
        r@ == (if absolute(path@, platform) {
            path@
        } else {
            joined(root@, path@, platform)
        }),
{
    if is_absolute(path, platform) {
        String::from_str(path)
    } else {
        join_path(root, path, platform)
    }
}

/// The error for a file at `path` that could not be read or resolved: a
/// missing file is told apart from every other failure.
pub fn read_failure(path: &str, kind: IoErrorKind) -> (r: FsError)
    ensures
        kind == IoErrorKind::NotFound ==> r is FileNotFound && r->FileNotFound_0@ == path@,
        kind != IoErrorKind::NotFound ==> r is FailedToReadFile && r->FailedToReadFile_0@ == path@,
{
    match kind {
        IoErrorKind::NotFound => FsError::FileNotFound(String::from_str(path)),
        _ => FsError::FailedToReadFile(String::from_str(path)),
    }
}

/// The canonical form of `path` from the outcome of canonicalizing it: the
/// extended-length prefix is removed; a missing file and any other failure are
/// told apart.
pub fn normalize_path(path: &str, canonical: Result<String, IoErrorKind>) -> (r: Result<
    String,
    FsError,
>)
    ensures
        match canonical {
            Ok(c) => r is Ok && r->Ok_0@ == strip_verbatim(c@),
            Err(IoErrorKind::NotFound) => r is Err && r->Err_0 is FileNotFound
                && r->Err_0->FileNotFound_0@ == path@,
            Err(_) => r is Err && r->Err_0 is FailedToReadFile && r->Err_0->FailedToReadFile_0@
                == path@,
        },
{
    match canonical {
        Ok(c) => Ok(strip_verbatim_prefix(c.as_str())),
        Err(k) => Err(read_failure(path, k)),
    }
}

/// The first step of opening `path`. A device path is opened as given;
/// anything else is normalized (resolved against `cwd` unless absolute) and,
/// where the platform asks for it, canonicalized.
pub fn plan_open(path: &str, cwd: &str, platform: Platform) -> (r: OpenPlan)
    ensures
        device_path(path@, platform) ==> r is Direct && r->Direct_0@ == path@,
        !device_path(path@, platform) ==> {
            let t = open_target(path@, cwd@, platform);
            if needs_canonicalization(t, platform) {
                r is Canonicalize && r->Canonicalize_0@ == t
            } else {
                r is Direct && r->Direct_0@ == t
            }
        },
{
    if is_device_path(path, platform) {
        return OpenPlan::Direct(String::from_str(path));
    }
    let target = if is_absolute(path, platform) {
        normalize_p(path, platform)
    } else {
        let full = join_path(cwd, path, platform);
        normalize_p(full.as_str(), platform)
    };
    assert(target@ == open_target(path@, cwd@, platform));
    if platform != Platform::Linux || is_under_proc(target.as_str()) {
        OpenPlan::Canonicalize(target)
    } else {
        OpenPlan::Direct(target)
    }
}

/// An absolute path is opened from itself alone: the working directory plays
/// no part in its target.
pub proof fn lemma_absolute_target_ignores_cwd(
    path: Seq<char>,
    cwd: Seq<char>,
    other_cwd: Seq<char>,
    platform: Platform,
)
    requires
        absolute(path, platform),
    ensures
        open_target(path, cwd, platform) == open_target(path, other_cwd, platform),
        open_target(path, cwd, platform) == normalized(path, platform),
{
}

/// The step after canonicalizing `target`. On success the canonical path is
/// opened. On failure, a target with a last name falls back to canonicalizing
/// its parent; one without fails with that error.
pub fn after_canonicalize(
    target: &str,
    outcome: Result<String, IoErrorKind>,
    platform: Platform,
) -> (r: CanonicalStep)
    ensures
        match outcome {
            Ok(c) => r == CanonicalStep::Open(c),
            Err(k) => {
                let names = normal_names(target@, platform);
                if names.len() > 0 {
                    r is CanonicalizeParent && r->parent@ == render(
                        prefix_of(target@, platform),
                        rooted(target@, platform),
                        names.drop_last(),
                        platform,
                    ) && r->leaf@ == names.last()
                } else {
                    r == CanonicalStep::Fail(FsError::Io(k))
                }
            },
        },
{
    match outcome {
        Ok(c) => CanonicalStep::Open(c),
        Err(k) => {
            let nf = normal_form(target, platform);
            let n = nf.names.len();
            if n > 0 {
                let parent = nf.render_prefix(n - 1);
                let leaf = nf.names[n - 1].clone();
                assert(nf.names_view().take(n - 1) == nf.names_view().drop_last());
                CanonicalStep::CanonicalizeParent { parent, leaf }
            } else {
                CanonicalStep::Fail(FsError::Io(k))
            }
        },
    }
}

/// The path to open once the parent has been canonicalized: the canonical
/// parent with the leaf name appended. If the parent failed too, the first
/// failure is reported.
pub fn after_parent_canonicalize(
    leaf: &str,
    first_failure: IoErrorKind,
    outcome: Result<String, IoErrorKind>,
    platform: Platform,
) -> (r: Result<String, FsError>)
    ensures
        match outcome {
            Ok(p) => r is Ok && r->Ok_0@ == joined(p@, leaf@, platform),
            Err(_) => r == Err::<String, _>(FsError::Io(first_failure)),
        },
{
    match outcome {
        Ok(p) => Ok(join_path(p.as_str(), leaf, platform)),
        Err(_) => Err(FsError::Io(first_failure)),
    }
}

/// A path made of `parent` and a last name `leaf` ends with that name.
pub proof fn lemma_fallback_keeps_leaf(parent: Seq<char>, leaf: Seq<char>, platform: Platform)
    ensures
        joined(parent, leaf, platform).len() >= leaf.len(),
        joined(parent, leaf, platform).skip(joined(parent, leaf, platform).len() - leaf.len())
            == leaf,
{
    let j = joined(parent, leaf, platform);
    assert(j.skip(j.len() - leaf.len()) == leaf);
}

/// Whether `haystack` has a match of `pattern`; `None` when the pattern does
/// not compile.
pub uninterp spec fn regex_search(pattern: Seq<char>, haystack: Seq<char>) -> Option<bool>;

/// Relies on `regex::Regex::new` (an error for a pattern it cannot compile) and
/// `regex::Regex::is_match`; the outcome depends on the two strings alone.
#[verifier::external_body]
fn search_regex(pattern: &str, haystack: &str) -> (r: Option<bool>)
    ensures
        r == regex_search(pattern@, haystack@),
{
    match regex::Regex::new(pattern) {
        Ok(re) => Some(re.is_match(haystack)),
        Err(_) => None,
    }
}

/// A path that ends in an extension: a dot and at least one ASCII letter or digit.
pub const FILE_EXTENSION_PATTERN: &'static str = "\\.[a-zA-Z0-9]+$";

/// Whether `path` names a file, judged by its ending in an extension.
pub fn is_file(path: &str) -> (r: bool)
    ensures
        r == (regex_search(FILE_EXTENSION_PATTERN@, path@) == Some(true)),
{
    match search_regex(FILE_EXTENSION_PATTERN, path) {
        Some(found) => found,
        None => false,
    }
}

/// Directory creation.
pub struct FileSystem;

impl FileSystem {
    /// The result of creating a directory and its missing ancestors, given
    /// whether the path is a directory afterwards: "already exists" counts as
    /// created when a directory is there (another creator made it), and stays
    /// an error when something else is.
    pub fn settle_create_dir_all(outcome: Result<(), IoErrorKind>, is_dir: bool) -> (r: Result<
        (),
        FsError,
    >)
        ensures
            settled_all(outcome, is_dir, r),
    {
        match outcome {
            Ok(()) => Ok(()),
            Err(IoErrorKind::AlreadyExists) => {
                if is_dir {
                    Ok(())
                } else {
                    Err(FsError::Io(IoErrorKind::AlreadyExists))
                }
            },
            Err(k) => Err(FsError::Io(k)),
        }
    }

    /// The result of creating a single directory: every failure is reported.
    pub fn settle_create_dir(outcome: Result<(), IoErrorKind>) -> (r: Result<(), FsError>)
        ensures
            match outcome {
                Ok(()) => r is Ok,
                Err(k) => r == Err::<(), _>(FsError::Io(k)),
            },
    {
        match outcome {
            Ok(()) => Ok(()),
            Err(k) => Err(FsError::Io(k)),
        }
    }
}

/// Two creators of the same directory tree both succeed, whichever of them
/// finds it already made by the other, once the directory is there.
pub proof fn lemma_concurrent_create_dir_all(
    first: Result<(), IoErrorKind>,
    second: Result<(), IoErrorKind>,
)
    requires
        first is Ok || first == Err::<(), _>(IoErrorKind::AlreadyExists),
        second is Ok || second == Err::<(), _>(IoErrorKind::AlreadyExists),
    ensures
        forall|r1: Result<(), FsError>, r2: Result<(), FsError>|
            settled_all(first, true, r1) && settled_all(second, true, r2) ==> r1 is Ok && r2 is Ok,
{
}

/// `r` meets the contract of `settle_create_dir_all` for `outcome`, with
/// `is_dir` telling whether the path is a directory afterwards.
pub open spec fn settled_all(outcome: Result<(), IoErrorKind>, is_dir: bool, r: Result<(), FsError>) -> bool {
    match outcome {
        Ok(()) => r is Ok,
        Err(IoErrorKind::AlreadyExists) => if is_dir {
            r is Ok
        } else {
            r == Err::<(), _>(FsError::Io(IoErrorKind::AlreadyExists))
        },
        Err(k) => r == Err::<(), _>(FsError::Io(k)),
    }
}

} // verus!
