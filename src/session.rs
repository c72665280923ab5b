use vstd::prelude::*;
use vstd::string::StringExecFns;
use crate::error::LocaleError;

verus! {

/// What `std::path::Path::parent` makes of a path: the path without its
/// final component, or none where the path ends in a root or prefix or is
/// empty.
pub uninterp spec fn parent_of(p: Seq<char>) -> Option<Seq<char>>;

/// Relies on `std::path::Path::parent`, its result rendered back as a string
/// (lossless, since the parent of a `str` path is a prefix of it).
#[verifier::external_body]
fn parent_dir(p: &str) -> (r: Option<String>)
    ensures
        r matches Some(d) ==> parent_of(p@) == Some(d@),
        r is None ==> parent_of(p@) is None,
{
    match std::path::Path::new(p).parent() {
        Some(d) => Some(d.to_string_lossy().into_owned()),
        None => None,
    }
}

/// What the host found at a candidate path.
#[derive(PartialEq, Eq, Structural, Clone, Copy, Debug)]
pub enum PathKind {
    Missing,
    Directory,
    File,
}

/// The current directory, `.`.
pub open spec fn current_directory() -> Seq<char> {
    seq!['.']
}

/// The directory that holds a file: its parent, where the parent is the
/// empty path (a bare file name) the current directory.
pub open spec fn containing_directory(file: Seq<char>) -> Option<Seq<char>> {
    match parent_of(file) {
        Some(p) => if p.len() == 0 {
            Some(current_directory())
        } else {
            Some(p)
        },
        None => None,
    }
}

/// The directory that a candidate path designates, or none where it cannot
/// become the session directory: a directory stands for itself, a file for
/// the directory that holds it.
pub open spec fn resolve_directory(candidate: Seq<char>, kind: PathKind) -> Option<Seq<char>> {
    match kind {
        PathKind::Missing => None,
        PathKind::Directory => Some(candidate),
        PathKind::File => containing_directory(candidate),
    }
}

/// The session directory after an attempt to move it from `current` to
/// `candidate`: last write wins, a failed attempt changes nothing.
pub open spec fn directory_after(current: Seq<char>, candidate: Seq<char>, kind: PathKind) -> Seq<
    char,
> {
    match resolve_directory(candidate, kind) {
        Some(d) => d,
        None => current,
    }
}

/// The directory used when the configuration names none.
pub open spec fn fallback_directory() -> Seq<char> {
    seq!['l', 'o', 'c', 'a', 'l', 'e', 's']
}

/// The initial session directory: the configured one, else `locales`.
pub fn default_directory(configured: Option<String>) -> (r: String)
    ensures
        configured matches Some(c) ==> r@ == c@,
        configured is None ==> r@ == fallback_directory(),
{
    match configured {
        Some(c) => c,
        None => {
            proof {
                reveal_strlit("locales");
                assert("locales"@ =~= fallback_directory());
            }
            String::from_str("locales")
        },
    }
}

/// The one piece of session state: the active locale directory.
pub struct Session {
    active_directory: String,
}

impl View for Session {
    type V = Seq<char>;

    closed spec fn view(&self) -> Seq<char> {
        self.active_directory@
    }
}

impl Session {
    pub fn new(initial: String) -> (s: Session)
        ensures
            s@ == initial@,
    {
        Session { active_directory: initial }
    }

    /// The active directory.
    pub fn get_directory(&self) -> (r: String)
        ensures
            r@ == self@,
    {
        self.active_directory.clone()
    }

    /// Moves the session to `candidate`, which the host found to be of
    /// `kind`: a directory becomes the active directory verbatim, a file
    /// makes its parent active (`.` for a bare file name, whose parent is the
    /// empty path). A missing path fails with `NotFound`, a file without a
    /// parent with `InvalidPath`; either leaves the session as it was.
    /// Returns the new active directory, which is never empty for a file.
    pub fn set_directory(&mut self, candidate: &str, kind: PathKind) -> (r: Result<
        String,
        LocaleError,
    >)
        ensures
            final(self)@ == directory_after(old(self)@, candidate@, kind),
            r is Ok <==> resolve_directory(candidate@, kind) is Some,
            r matches Ok(d) ==> Some(d@) == resolve_directory(candidate@, kind),
            kind == PathKind::Missing ==> (r matches Err(LocaleError::NotFound(p)) && p@
                == candidate@),
            (kind == PathKind::File && parent_of(candidate@) is None) ==> (r matches Err(
                LocaleError::InvalidPath(p),
            ) && p@ == candidate@),
            (kind == PathKind::File && parent_of(candidate@) == Some(Seq::<char>::empty())) ==> (
            r matches Ok(d) && d@ == current_directory()),
            (kind == PathKind::File && r is Ok) ==> r->Ok_0@.len() > 0,
    {
        match kind {
            PathKind::Missing => Err(LocaleError::NotFound(String::from_str(candidate))),
            PathKind::Directory => {
                let d = String::from_str(candidate);
                self.active_directory = d.clone();
                Ok(d)
            },
            PathKind::File => match parent_dir(candidate) {
                Some(p) => {
                    let d = if p.as_str().is_empty() {
                        proof {
                            reveal_strlit(".");
                            assert("."@ =~= current_directory());
                        }
                        String::from_str(".")
                    } else {
                        p
                    };
                    self.active_directory = d.clone();
                    Ok(d)
                },
                None => Err(LocaleError::InvalidPath(String::from_str(candidate))),
            },
        }
    }
}

/// Setting an existing directory makes exactly that directory active.
pub proof fn lemma_set_existing_directory(current: Seq<char>, d: Seq<char>)
    ensures
        resolve_directory(d, PathKind::Directory) == Some(d),
        directory_after(current, d, PathKind::Directory) == d,
{
}

/// Setting an existing file makes its parent active, wherever it has one:
/// the parent itself where it is a non-empty path, `.` where it is empty.
pub proof fn lemma_set_file(current: Seq<char>, f: Seq<char>)
    requires
        parent_of(f) is Some,
    ensures
        parent_of(f)->Some_0.len() > 0 ==> directory_after(current, f, PathKind::File)
            == parent_of(f)->Some_0,
        parent_of(f)->Some_0.len() == 0 ==> directory_after(current, f, PathKind::File)
            == current_directory(),
        directory_after(current, f, PathKind::File).len() > 0,
{
}

/// Setting a path that does not exist fails and keeps the active directory.
pub proof fn lemma_set_missing(current: Seq<char>, p: Seq<char>)
    ensures
        resolve_directory(p, PathKind::Missing) is None,
        directory_after(current, p, PathKind::Missing) == current,
{
}

} // verus!
