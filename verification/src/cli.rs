//! The arguments of the command line, and which cursor files they name.
//! What stands at a path is found out by the caller.

use crate::fs_utils::{DirEntry, has_extension, listing_view, name_has_extension};
use vstd::prelude::*;

verus! {

/// The arguments as they are given.
#[derive(Debug, Clone, PartialEq, Eq)]
pub struct Args {
    /// The path of a cursor file, or of a directory that holds cursor files.
    pub path: String,
    /// Where the Xcursor files are put.
    pub out: String,
}

/// The arguments, worked out.
#[derive(Debug, Clone, PartialEq, Eq)]
pub struct ParsedArgs {
    /// The cursor files to convert: the path itself where it is a file, the
    /// names of the cursor files in it where it is a directory.
    pub cur_paths: Vec<String>,
    /// Where the Xcursor files are put.
    pub out: String,
}

/// What stands at the path of the arguments.
#[derive(Debug, Clone, PartialEq, Eq)]
pub enum PathKind {
    /// A regular file of this name.
    File { name: String },
    /// A directory with these entries.
    Dir { entries: Vec<DirEntry> },
    /// Something else.
    Other,
}

/// Why the path of the arguments is not accepted.
#[derive(Debug, Clone, Copy, PartialEq, Eq)]
pub enum ArgsError {
    /// The directory holds no file with the extension `cur`.
    NoCursorFiles,
    /// The file has neither the extension `cur` nor `ani`.
    NotACursorFile,
    /// The path is neither a file nor a directory.
    NotFileOrDir,
}

/// The names among the first `n` entries that have the extension `cur`, in
/// order.
pub open spec fn spec_extract_curs(entries: Seq<(Seq<char>, bool)>, n: int) -> Seq<Seq<char>>
    decreases n,
{
    if n <= 0 {
        Seq::empty()
    } else if has_extension(entries[n - 1].0, "cur"@) {
        spec_extract_curs(entries, n - 1).push(entries[n - 1].0)
    } else {
        spec_extract_curs(entries, n - 1)
    }
}

/// The value of what stands at a path.
pub enum PathKindView {
    File { name: Seq<char> },
    Dir { entries: Seq<(Seq<char>, bool)> },
    Other,
}

impl View for PathKind {
    type V = PathKindView;

    open spec fn view(&self) -> PathKindView {
        match self {
            PathKind::File { name } => PathKindView::File { name: name@ },
            PathKind::Dir { entries } => PathKindView::Dir { entries: listing_view(entries@) },
            PathKind::Other => PathKindView::Other,
        }
    }
}

/// The cursor files that a path names: the path itself where a file with
/// the extension `cur` or `ani` stands at it; the entries with the extension
/// `cur` where a directory stands at it, which must hold one at least.
pub open spec fn spec_validate_cur_path(path: Seq<char>, kind: PathKindView) -> Result<
    Seq<Seq<char>>,
    ArgsError,
> {
    match kind {
        PathKindView::File { name } => if has_extension(name, "cur"@) || has_extension(
            name,
            "ani"@,
        ) {
            Ok(seq![path])
        } else {
            Err(ArgsError::NotACursorFile)
        },
        PathKindView::Dir { entries } => if spec_extract_curs(entries, entries.len() as int).len()
            == 0 {
            Err(ArgsError::NoCursorFiles)
        } else {
            Ok(spec_extract_curs(entries, entries.len() as int))
        },
        PathKindView::Other => Err(ArgsError::NotFileOrDir),
    }
}

/// The texts of a list of strings.
pub open spec fn strings_view(v: Seq<String>) -> Seq<Seq<char>> {
    Seq::new(v.len(), |i: int| v[i]@)
}

impl ParsedArgs {
    /// The names of the entries of a directory that have the extension
    /// `cur`. Directories below it are not looked into.
    pub fn extract_curs(entries: &[DirEntry]) -> (r: Vec<String>)
        ensures
            strings_view(r@) == spec_extract_curs(listing_view(entries@), entries.len() as int),
    {
        let ghost all = listing_view(entries@);
        let mut found: Vec<String> = Vec::new();
        let mut i: usize = 0;
        assert(strings_view(found@) =~= spec_extract_curs(all, 0));
        while i < entries.len()
            invariant
                i <= entries.len(),
                all == listing_view(entries@),
                strings_view(found@) == spec_extract_curs(all, i as int),
            decreases entries.len() - i,
        {
            assert(all[i as int].0 == entries@[i as int].name@);
            if name_has_extension(entries[i].name.as_str(), "cur") {
                let ghost before = strings_view(found@);
                let name = entries[i].name.clone();
                found.push(name);
                assert(strings_view(found@) =~= before.push(name@));
            }
            i += 1;
        }
        found
    }

    /// The cursor files that the path names, given what stands at it.
    pub fn validate_cur_path(path: &str, kind: &PathKind) -> (r: Result<Vec<String>, ArgsError>)
        ensures
            r matches Ok(paths) ==> spec_validate_cur_path(path@, kind@) == Ok::<
                Seq<Seq<char>>,
                ArgsError,
            >(strings_view(paths@)),
            r matches Err(e) ==> spec_validate_cur_path(path@, kind@) == Err::<
                Seq<Seq<char>>,
                ArgsError,
            >(e),
    {
        match kind {
            PathKind::File { name } => {
                if name_has_extension(name.as_str(), "cur") || name_has_extension(
                    name.as_str(),
                    "ani",
                ) {
                    let mut paths: Vec<String> = Vec::new();
                    let p = path.to_owned();
                    paths.push(p);
                    assert(strings_view(paths@) =~= seq![path@]);
                    Ok(paths)
                } else {
                    Err(ArgsError::NotACursorFile)
                }
            },
            PathKind::Dir { entries } => {
                let found = ParsedArgs::extract_curs(entries.as_slice());
                assert(found.len() == strings_view(found@).len());
                if found.len() == 0 {
                    Err(ArgsError::NoCursorFiles)
                } else {
                    Ok(found)
                }
            },
            PathKind::Other => Err(ArgsError::NotFileOrDir),
        }
    }

    /// Works the arguments out, given what stands at their path.
    pub fn from_args(args: &Args, kind: &PathKind) -> (r: Result<ParsedArgs, ArgsError>)
        ensures
            r matches Ok(parsed) ==> spec_validate_cur_path(args.path@, kind@) == Ok::<
                Seq<Seq<char>>,
                ArgsError,
            >(strings_view(parsed.cur_paths@)) && parsed.out@ == args.out@,
            r matches Err(e) ==> spec_validate_cur_path(args.path@, kind@) == Err::<
                Seq<Seq<char>>,
                ArgsError,
            >(e),
    {
        match ParsedArgs::validate_cur_path(args.path.as_str(), kind) {
            Err(e) => Err(e),
            Ok(cur_paths) => Ok(ParsedArgs { cur_paths, out: args.out.clone() }),
        }
    }
}

} // verus!
