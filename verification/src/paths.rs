//! Paths, read by the rules of the machine that the library runs on: those of
//! Unix or those of Windows.
use vstd::prelude::*;

verus! {

/// The path rules of a machine. The rules of Unix and those of Windows are told
/// apart by the separator that the machine puts between the parts of a path: a
/// slash or a backslash. [`PathRules::host`] alone makes a value of this type,
/// and the field is private, so a value exists only on a machine with its
/// separator. What is claimed of paths below rests on that.
#[derive(Debug, Clone, Copy)]
pub struct PathRules {
    separator: char,
}

impl View for PathRules {
    type V = char;

    closed spec fn view(&self) -> char {
        self.separator
    }
}

/// Whether a machine with this separator takes a path as absolute: what
/// `Path::is_absolute` answers there.
pub uninterp spec fn absolute_path(separator: char, path: Seq<char>) -> bool;

/// A path seen from a directory, on a machine with this separator: what
/// `Path::join` gives there.
pub uninterp spec fn joined_path(separator: char, base: Seq<char>, path: Seq<char>) -> Seq<char>;

/// Whether two paths have the same components, on a machine with this
/// separator: what `==` on `Path` answers there.
pub uninterp spec fn same_path(separator: char, left: Seq<char>, right: Seq<char>) -> bool;

/// A path that begins with a slash.
pub open spec fn begins_with_slash(path: Seq<char>) -> bool {
    path.len() > 0 && path[0] == '/'
}

/// A path seen from a directory, where the separator is a slash and the path
/// does not begin with one: behind the directory, with one slash between them
/// unless the directory is empty or ends in one.
pub open spec fn beneath(base: Seq<char>, path: Seq<char>) -> Seq<char> {
    if base.len() == 0 || base.last() == '/' {
        base + path
    } else {
        base.push('/') + path
    }
}

/// A path is absolute: it begins with a slash, where that is the separator; on
/// other machines it is what the machine takes as absolute.
pub open spec fn absolute(separator: char, path: Seq<char>) -> bool {
    if separator == '/' {
        begins_with_slash(path)
    } else {
        absolute_path(separator, path)
    }
}

/// A path that is not absolute, seen from a directory.
pub open spec fn joined(separator: char, base: Seq<char>, path: Seq<char>) -> Seq<char> {
    if separator == '/' {
        beneath(base, path)
    } else {
        joined_path(separator, base, path)
    }
}

/// `std::path::MAIN_SEPARATOR`: the separator of the machine. Which one that
/// is depends on the machine, so nothing is claimed of it.
#[verifier::external_body]
fn main_separator() -> (separator: char) {
    std::path::MAIN_SEPARATOR
}

impl PathRules {
    /// The rules of the machine that runs this. Which rules those are depends
    /// on the machine, so nothing is stated of them.
    pub fn host() -> (rules: PathRules) {
        PathRules { separator: main_separator() }
    }

    /// `Path::is_absolute`: the answer depends on the path and on the machine
    /// alone; where the separator is a slash, the absolute paths are those
    /// that begin with a slash.
    #[verifier::external_body]
    pub(crate) fn is_absolute(&self, path: &str) -> (absolute: bool)
        ensures
            absolute == absolute_path(self@, path@),
            self@ == '/' ==> absolute == begins_with_slash(path@),
    {
        std::path::Path::new(path).is_absolute()
    }

    /// `Path::join`: the result depends on the two paths and on the machine
    /// alone; an absolute path replaces the directory. Where the separator is a
    /// slash, a path that does not begin with one is put behind the directory,
    /// with a slash between them where it is needed.
    #[verifier::external_body]
    pub(crate) fn join(&self, base: &str, path: &str) -> (joined: String)
        ensures
            joined@ == joined_path(self@, base@, path@),
            absolute_path(self@, path@) ==> joined@ == path@,
            self@ == '/' && !begins_with_slash(path@) ==> joined@ == beneath(base@, path@),
    {
        std::path::Path::new(base).join(path).to_string_lossy().to_string()
    }

    /// `==` of `Path`: the answer depends on the two paths and on the machine
    /// alone; a path is the same as itself.
    #[verifier::external_body]
    pub(crate) fn is_same(&self, left: &str, right: &str) -> (same: bool)
        ensures
            same == same_path(self@, left@, right@),
            left@ == right@ ==> same,
    {
        std::path::Path::new(left) == std::path::Path::new(right)
    }
}

} // verus!
