//! Looking files up in the listing of a directory, without regard to the
//! case of ASCII letters. The listing is read by the caller.

use crate::text::{
    chars_of, copy_chars, eq_chars, eq_ignore_ascii_case, rfind_before, rfind_char,
    spec_eq_ignore_ascii_case,
};
use vstd::prelude::*;

verus! {

/// Why a file was not found.
#[derive(Debug, Clone, Copy, PartialEq, Eq)]
pub enum FindError {
    /// The name is that of an entry which is no file.
    NotAFile,
    /// Several files have the name but for the case of their letters.
    Ambiguous,
}

/// An entry of a directory.
#[derive(Debug, Clone, PartialEq, Eq)]
pub struct DirEntry {
    /// The name of the entry, without the directory.
    pub name: String,
    /// Whether the entry is a regular file.
    pub is_file: bool,
}

impl View for DirEntry {
    type V = (Seq<char>, bool);

    open spec fn view(&self) -> (Seq<char>, bool) {
        (self.name@, self.is_file)
    }
}

/// The entries of a listing, as texts.
pub open spec fn listing_view(entries: Seq<DirEntry>) -> Seq<(Seq<char>, bool)> {
    Seq::new(entries.len(), |i: int| entries[i]@)
}

/// The first position from `from` on whose entry has the name `name`, or
/// the length of the listing if there is none.
pub open spec fn first_exact(entries: Seq<(Seq<char>, bool)>, name: Seq<char>, from: int) -> int
    decreases entries.len() - from,
{
    if from < 0 || from >= entries.len() {
        entries.len() as int
    } else if entries[from].0 == name {
        from
    } else {
        first_exact(entries, name, from + 1)
    }
}

/// Whether the entry is a file whose name is `name` but for the case of
/// ASCII letters.
pub open spec fn matches_icase(entry: (Seq<char>, bool), name: Seq<char>) -> bool {
    entry.1 && spec_eq_ignore_ascii_case(entry.0, name)
}

/// The first position from `from` on whose entry matches `name`, or the
/// length of the listing if there is none.
pub open spec fn first_icase(entries: Seq<(Seq<char>, bool)>, name: Seq<char>, from: int) -> int
    decreases entries.len() - from,
{
    if from < 0 || from >= entries.len() {
        entries.len() as int
    } else if matches_icase(entries[from], name) {
        from
    } else {
        first_icase(entries, name, from + 1)
    }
}

/// Where the file `name` stands in the listing of its directory.
///
/// An entry of exactly that name is the answer if it is a file, and an
/// error if it is not. Else the answer is the one file whose name differs
/// from `name` in the case of ASCII letters only; none if there is none,
/// and an error if there are several.
pub open spec fn spec_find_icase(entries: Seq<(Seq<char>, bool)>, name: Seq<char>) -> Result<
    Option<int>,
    FindError,
> {
    let exact = first_exact(entries, name, 0);
    let first = first_icase(entries, name, 0);
    if exact < entries.len() {
        if entries[exact].1 {
            Ok(Some(exact))
        } else {
            Err(FindError::NotAFile)
        }
    } else if first >= entries.len() {
        Ok(None)
    } else if first_icase(entries, name, first + 1) < entries.len() {
        Err(FindError::Ambiguous)
    } else {
        Ok(Some(first))
    }
}

/// The extension of a file name: what follows its last dot, if the name has
/// a dot that is not its first character. The name `..` has none.
pub open spec fn spec_extension(name: Seq<char>) -> Option<Seq<char>> {
    let dot = rfind_before(name, '.', name.len() as int);
    if dot <= 0 || name == ".."@ {
        None
    } else {
        Some(name.subrange(dot + 1, name.len() as int))
    }
}

/// Whether the name has the extension `extension`, in this very case.
pub open spec fn has_extension(name: Seq<char>, extension: Seq<char>) -> bool {
    spec_extension(name) == Some(extension)
}

/// Whether `extension` is one of `extensions` but for the case of ASCII
/// letters.
pub open spec fn extension_in(extension: Seq<char>, extensions: Seq<Seq<char>>) -> bool {
    exists|i: int|
        0 <= i < extensions.len() && spec_eq_ignore_ascii_case(
            extension,
            #[trigger] extensions[i],
        )
}

/// Whether the entry is a file with one of the extensions.
pub open spec fn has_extension_in(entry: (Seq<char>, bool), extensions: Seq<Seq<char>>) -> bool {
    entry.1 && spec_extension(entry.0) is Some && extension_in(
        spec_extension(entry.0)->0,
        extensions,
    )
}

/// The positions among the first `n` of the entries that are files with one
/// of the extensions, in order.
pub open spec fn spec_find_extensions(
    entries: Seq<(Seq<char>, bool)>,
    extensions: Seq<Seq<char>>,
    n: int,
) -> Seq<int>
    decreases n,
{
    if n <= 0 {
        Seq::empty()
    } else if has_extension_in(entries[n - 1], extensions) {
        spec_find_extensions(entries, extensions, n - 1).push(n - 1)
    } else {
        spec_find_extensions(entries, extensions, n - 1)
    }
}

/// The texts of a list of extensions.
pub open spec fn extensions_view(extensions: Seq<&str>) -> Seq<Seq<char>> {
    Seq::new(extensions.len(), |i: int| extensions[i]@)
}

/// The positions of a list, as numbers.
pub open spec fn positions_view(positions: Seq<usize>) -> Seq<int> {
    Seq::new(positions.len(), |i: int| positions[i] as int)
}

/// Finds the first entry from `from` on that matches `name`.
fn next_icase(entries: &[DirEntry], name: &[char], from: usize) -> (r: usize)
    requires
        from <= entries.len(),
    ensures
        r == first_icase(listing_view(entries@), name@, from as int),
        from <= r <= entries.len(),
{
    let mut i: usize = from;
    while i < entries.len()
        invariant
            from <= i <= entries.len(),
            first_icase(listing_view(entries@), name@, i as int) == first_icase(
                listing_view(entries@),
                name@,
                from as int,
            ),
        decreases entries.len() - i,
    {
        if entries[i].is_file {
            let n = chars_of(entries[i].name.as_str());
            if eq_ignore_ascii_case(n.as_slice(), name) {
                return i;
            }
        }
        i += 1;
    }
    i
}

/// Finds the file `file_name` in the listing of its directory; see
/// [`spec_find_icase`].
#[verifier::rlimit(50)]
pub fn find_icase(entries: &[DirEntry], file_name: &str) -> (r: Result<Option<usize>, FindError>)
    ensures
        r matches Ok(Some(at)) ==> spec_find_icase(listing_view(entries@), file_name@) == Ok::<
            Option<int>,
            FindError,
        >(Some(at as int)) && at < entries.len(),
        r matches Ok(None) ==> spec_find_icase(listing_view(entries@), file_name@) == Ok::<
            Option<int>,
            FindError,
        >(None),
        r matches Err(e) ==> spec_find_icase(listing_view(entries@), file_name@) == Err::<
            Option<int>,
            FindError,
        >(e),
{
    let name = chars_of(file_name);
    let mut i: usize = 0;
    while i < entries.len()
        invariant
            i <= entries.len(),
            name@ == file_name@,
            first_exact(listing_view(entries@), name@, i as int) == first_exact(
                listing_view(entries@),
                name@,
                0,
            ),
        decreases entries.len() - i,
    {
        let n = chars_of(entries[i].name.as_str());
        if eq_chars(n.as_slice(), name.as_slice()) {
            if entries[i].is_file {
                return Ok(Some(i));
            }
            return Err(FindError::NotAFile);
        }
        i += 1;
    }
    let first = next_icase(entries, name.as_slice(), 0);
    if first >= entries.len() {
        return Ok(None);
    }
    if next_icase(entries, name.as_slice(), first + 1) < entries.len() {
        return Err(FindError::Ambiguous);
    }
    Ok(Some(first))
}

/// The extension of a file name, if it has one.
pub fn extension_of(name: &[char]) -> (r: Option<Vec<char>>)
    ensures
        r matches Some(e) ==> spec_extension(name@) == Some(e@),
        r is None ==> spec_extension(name@) is None,
{
    proof {
        reveal_strlit("..");
    }
    if name.len() == 2 && name[0] == '.' && name[1] == '.' {
        assert(name@ =~= ".."@);
        return None;
    }
    match rfind_char(name, '.') {
        None => None,
        Some(dot) => {
            if dot == 0 {
                None
            } else {
                Some(copy_chars(name, dot + 1, name.len()))
            }
        },
    }
}

/// Tells whether a name has the extension `extension`, in this very case.
pub fn name_has_extension(name: &str, extension: &str) -> (r: bool)
    ensures
        r == has_extension(name@, extension@),
{
    let chars = chars_of(name);
    match extension_of(chars.as_slice()) {
        None => false,
        Some(e) => {
            let want = chars_of(extension);
            eq_chars(e.as_slice(), want.as_slice())
        },
    }
}

/// Finds the files with one of the extensions, whatever the case of their
/// letters. Gives their positions in the listing, in order.
#[verifier::loop_isolation(false)]
#[verifier::rlimit(50)]
pub fn find_extensions_icase(entries: &[DirEntry], extensions: &[&str]) -> (r: Vec<usize>)
    ensures
        positions_view(r@) == spec_find_extensions(
            listing_view(entries@),
            extensions_view(extensions@),
            entries.len() as int,
        ),
        forall|i: int| 0 <= i < r.len() ==> #[trigger] r@[i] < entries.len(),
{
    let ghost all = listing_view(entries@);
    let ghost exts = extensions_view(extensions@);
    let mut found: Vec<usize> = Vec::new();
    let mut i: usize = 0;
    assert(positions_view(found@) =~= spec_find_extensions(all, exts, 0));
    while i < entries.len()
        invariant
            i <= entries.len(),
            positions_view(found@) == spec_find_extensions(all, exts, i as int),
            forall|k: int| 0 <= k < found.len() ==> #[trigger] found@[k] < entries.len(),
        decreases entries.len() - i,
    {
        let mut hit = false;
        if entries[i].is_file {
            let name = chars_of(entries[i].name.as_str());
            if let Some(extension) = extension_of(name.as_slice()) {
                let mut k: usize = 0;
                while k < extensions.len() && !hit
                    invariant
                        k <= extensions.len(),
                        !hit ==> forall|j: int|
                            0 <= j < k ==> !spec_eq_ignore_ascii_case(
                                extension@,
                                #[trigger] exts[j],
                            ),
                        hit ==> extension_in(extension@, exts),
                    decreases extensions.len() - k + (if hit { 0int } else { 1int }),
                {
                    let want = chars_of(extensions[k]);
                    if eq_ignore_ascii_case(extension.as_slice(), want.as_slice()) {
                        assert(spec_eq_ignore_ascii_case(extension@, exts[k as int]));
                        hit = true;
                    } else {
                        k += 1;
                    }
                }
            }
        }
        assert(hit == has_extension_in(all[i as int], exts));
        let ghost before = positions_view(found@);
        if hit {
            found.push(i);
            assert(positions_view(found@) =~= before.push(i as int));
        }
        i += 1;
    }
    found
}

} // verus!
