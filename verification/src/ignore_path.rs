//! The set of paths that a run leaves alone, given as gitignore patterns.
use vstd::prelude::*;

use ignore::gitignore::{Gitignore, GitignoreBuilder};

verus! {

#[verifier::external_type_specification]
#[verifier::external_body]
pub struct ExGitignore(Gitignore);

/// The name of a file a run reads: standard input, or a path.
#[derive(Clone, Debug, PartialEq, Eq)]
pub enum FileName {
    Stdin,
    Real(String),
}

/// `path` after the prefixes that `Gitignore::matched_path_or_any_parents`
/// strips on a matcher rooted at the empty path: a leading `./`, then a
/// leading `/`.
pub open spec fn stripped_path(path: Seq<char>) -> Seq<char> {
    let p = if path.len() >= 2 && path[0] == '.' && path[1] == '/' {
        path.skip(2)
    } else {
        path
    };
    if p.len() >= 1 && p[0] == '/' {
        p.skip(1)
    } else {
        p
    }
}

/// Whether `path` may keep a root once those prefixes are stripped, on some
/// platform: where it starts with `/` after stripping, or where it holds a
/// backslash or a colon, which Windows reads as a separator or as the start of
/// a drive prefix such as `C:\`.
pub open spec fn keeps_root(path: Seq<char>) -> bool {
    ||| stripped_path(path).len() >= 1 && stripped_path(path)[0] == '/'
    ||| !portable_path(path)
}

/// The views of a list of texts.
pub open spec fn line_views(lines: Seq<String>) -> Seq<Seq<char>> {
    lines.map_values(|l: String| l@)
}

/// Whether no line holds a pattern: each is empty or a comment, starting with
/// `#`.
pub open spec fn no_patterns(lines: Seq<Seq<char>>) -> bool {
    forall|i: int| 0 <= i < lines.len() ==> (#[trigger] lines[i]).len() == 0 || lines[i][0] == '#'
}

/// The text of the error that building a gitignore matcher from `lines`
/// (`GitignoreBuilder::new("")`, `add_line` for each line, `build`) ends in, or
/// `None` where it succeeds.
pub uninterp spec fn gitignore_error(lines: Seq<Seq<char>>) -> Option<Seq<char>>;

/// The pattern lines a `Gitignore` was built from.
pub uninterp spec fn gitignore_source(g: Gitignore) -> Seq<Seq<char>>;

/// Whether a matcher built from `lines` and rooted at the empty path ignores
/// the file `path` or one of its directories
/// (`matched_path_or_any_parents(path, false).is_ignore()`).
pub uninterp spec fn gitignore_matched(lines: Seq<Seq<char>>, path: Seq<char>) -> bool;

/// Whether `path` reads the same on every platform: no backslash, which
/// Windows takes for a separator, and no colon, which starts a drive prefix
/// there.
pub open spec fn portable_path(path: Seq<char>) -> bool {
    forall|i: int| 0 <= i < path.len() ==> #[trigger] path[i] != '\\' && path[i] != ':'
}

/// Builds a `Gitignore` rooted at the empty path from the pattern lines, with
/// `GitignoreBuilder::new`, `add_line` and `build`; the text of the first error,
/// if any. Whether it fails, and with what text, is named `gitignore_error`; it
/// does not fail where no line holds a pattern (`add_line` skips empty lines
/// and comments, and `build` with no glob gives the empty matcher). The matcher
/// built is tied to its lines by `gitignore_source`.
#[verifier::external_body]
fn gitignore_build(lines: &Vec<String>) -> (r: Result<Gitignore, String>)
    ensures
        match r {
            Ok(g) => gitignore_error(line_views(lines@)) is None && gitignore_source(g)
                == line_views(lines@),
            Err(e) => gitignore_error(line_views(lines@)) == Some(e@),
        },
        no_patterns(line_views(lines@)) ==> r is Ok,
{
    let mut builder = GitignoreBuilder::new(std::path::PathBuf::from(""));
    for line in lines.iter() {
        builder.add_line(None, line).map_err(|e| e.to_string())?;
    }
    builder.build().map_err(|e| e.to_string())
}

/// `Gitignore::matched_path_or_any_parents(path, false).is_ignore()`: whether
/// the path, as a file, or one of its directories is ignored, named
/// `gitignore_matched`, a function of the matcher's lines and the path. A
/// matcher built from no pattern is empty and ignores nothing (the method
/// answers `Match::None` at once). It panics (`assert!(!path.has_root())`) on a
/// path that keeps a root after its prefixes are stripped; the `requires`
/// leaves out every path that may keep one on some platform, and so every path
/// that `Path` reads otherwise on Windows than elsewhere, on which the same
/// text would not give the same answer everywhere.
#[verifier::external_body]
fn gitignore_ignores(g: &Gitignore, path: &str) -> (r: bool)
    requires
        !keeps_root(path@),
    ensures
        r == gitignore_matched(gitignore_source(*g), path@),
        no_patterns(gitignore_source(*g)) ==> !r,
{
    g.matched_path_or_any_parents(path, false).is_ignore()
}

/// The paths to leave alone.
pub struct IgnorePathSet {
    ignore_set: Gitignore,
}

impl IgnorePathSet {
    /// The pattern lines of the set.
    pub closed spec fn patterns(&self) -> Seq<Seq<char>> {
        gitignore_source(self.ignore_set)
    }

    /// The set of the gitignore patterns `ignore_list`, or the text of the error
    /// in them.
    pub fn from_ignore_list(ignore_list: &Vec<String>) -> (r: Result<IgnorePathSet, String>)
        ensures
            match r {
                Ok(_) => gitignore_error(line_views(ignore_list@)) is None,
                Err(e) => gitignore_error(line_views(ignore_list@)) == Some(e@),
            },
            r matches Ok(s) ==> s.patterns() == line_views(ignore_list@),
            no_patterns(line_views(ignore_list@)) ==> r is Ok,
    {
        match gitignore_build(ignore_list) {
            Ok(ignore_set) => Ok(IgnorePathSet { ignore_set }),
            Err(e) => Err(e),
        }
    }

    /// Whether `file_name` is left alone: never standard input; a path when it
    /// or one of its directories matches the patterns. A path must not start
    /// with `/` once a leading `./` is stripped, nor hold `\` or `:`, by which
    /// it could keep a root on some platform.
    pub fn is_match(&self, file_name: &FileName) -> (r: bool)
        requires
            file_name matches FileName::Real(p) ==> !keeps_root(p@),
        ensures
            *file_name == FileName::Stdin ==> !r,
            file_name matches FileName::Real(p) ==> r == gitignore_matched(self.patterns(), p@),
            no_patterns(self.patterns()) ==> !r,
    {
        match file_name {
            FileName::Stdin => false,
            FileName::Real(p) => gitignore_ignores(&self.ignore_set, p.as_str()),
        }
    }
}

} // verus!
