//! Building a theme from the files of a Windows theme directory. The files
//! are read by the caller; which of them make the theme is decided here.

use crate::cursors::generic_cursor::{GenericCursor, GenericCursorView};
use crate::cursors::sources::{CursorWarning, spec_load, spec_load_warnings};
use crate::formats::inf::{
    CursorMapping, InfError, ini_sections, mappings_view, parse_inf_installer, spec_parse_inf,
};
use crate::fs_utils::{
    DirEntry, extension_of, find_extensions_icase, find_icase, listing_view, positions_view,
    spec_extension, spec_find_extensions, spec_find_icase,
};
use crate::text::{chars_of, eq_chars};
use crate::themes::theme::{
    CursorTheme, CursorType, ThemeError, ThemeView, TypedCursor, spec_new_theme, typed_view,
};
use vstd::prelude::*;
use vstd::utf8::{decode_utf8, valid_utf8};

verus! {

/// A file or another entry of a theme directory, with what it holds.
#[derive(Debug, Clone, PartialEq, Eq)]
pub struct ThemeFile {
    /// The name of the entry, without the directory.
    pub name: String,
    /// Whether the entry is a regular file.
    pub is_file: bool,
    /// The bytes of the file; empty for an entry that is no file.
    pub data: Vec<u8>,
}

impl View for ThemeFile {
    type V = (Seq<char>, bool, Seq<u8>);

    open spec fn view(&self) -> (Seq<char>, bool, Seq<u8>) {
        (self.name@, self.is_file, self.data@)
    }
}

/// The files of a directory, as texts and bytes.
pub open spec fn files_view(files: Seq<ThemeFile>) -> Seq<(Seq<char>, bool, Seq<u8>)> {
    Seq::new(files.len(), |i: int| files[i]@)
}

/// The listing of a directory whose files are `files`.
pub open spec fn files_listing(files: Seq<(Seq<char>, bool, Seq<u8>)>) -> Seq<(Seq<char>, bool)> {
    Seq::new(files.len(), |i: int| (files[i].0, files[i].1))
}

/// Reads bytes as UTF-8 text.
///
/// Calls `std::str::from_utf8`, of which the standard library says that it
/// gives the text where the bytes are valid UTF-8 and fails where they are
/// not. Claimed and not proved: validity is the one that `vstd` defines, and
/// the text is the one that `vstd` decodes.
#[verifier::external_body]
fn text_of(bytes: &[u8]) -> (r: Option<&str>)
    ensures
        r is Some <==> valid_utf8(bytes@),
        r matches Some(text) ==> text@ == decode_utf8(bytes@),
{
    std::str::from_utf8(bytes).ok()
}

/// Lists the names of the files.
pub fn listing_of(files: &[ThemeFile]) -> (r: Vec<DirEntry>)
    ensures
        listing_view(r@) == files_listing(files_view(files@)),
{
    let mut r: Vec<DirEntry> = Vec::new();
    let mut i: usize = 0;
    while i < files.len()
        invariant
            i <= files.len(),
            r.len() == i,
            forall|k: int|
                0 <= k < i ==> (#[trigger] r@[k])@ == (files@[k].name@, files@[k].is_file),
        decreases files.len() - i,
    {
        r.push(DirEntry { name: files[i].name.clone(), is_file: files[i].is_file });
        i += 1;
    }
    assert(listing_view(r@) =~= files_listing(files_view(files@)));
    r
}

/// Where the installer stands in the listing: the one file with the
/// extension `inf`, in any case.
pub open spec fn spec_resolve_inf(listing: Seq<(Seq<char>, bool)>) -> Result<int, ThemeError> {
    let found = spec_find_extensions(listing, seq!["inf"@], listing.len() as int);
    if found.len() > 1 {
        Err(ThemeError::MultipleInf)
    } else if found.len() == 0 {
        Err(ThemeError::NoInf)
    } else {
        Ok(found[0])
    }
}

/// Finds the installer of a theme directory.
pub fn resolve_inf(entries: &[DirEntry]) -> (r: Result<usize, ThemeError>)
    ensures
        r matches Ok(at) ==> spec_resolve_inf(listing_view(entries@)) == Ok::<int, ThemeError>(
            at as int,
        ) && at < entries.len(),
        r matches Err(e) ==> spec_resolve_inf(listing_view(entries@)) == Err::<int, ThemeError>(e),
{
    let mut extensions: Vec<&str> = Vec::new();
    extensions.push("inf");
    assert(crate::fs_utils::extensions_view(extensions@) =~= seq!["inf"@]);
    let found = find_extensions_icase(entries, extensions.as_slice());
    assert(found.len() == positions_view(found@).len());
    if found.len() > 1 {
        return Err(ThemeError::MultipleInf);
    }
    if found.len() == 0 {
        return Err(ThemeError::NoInf);
    }
    assert(positions_view(found@)[0] == found@[0]);
    Ok(found[0])
}

/// The cursor of a mapping: the file is looked up by its name, without
/// regard to case where no file has the exact name, and decoded as an
/// animated cursor where the name ends in `.ani`, else as a static one.
pub open spec fn spec_typed_cursor(
    files: Seq<(Seq<char>, bool, Seq<u8>)>,
    mapping: (CursorType, Seq<char>),
) -> Result<(CursorType, GenericCursorView), ThemeError> {
    match spec_extension(mapping.1) {
        None => Err(ThemeError::NoExtension),
        Some(extension) => match spec_find_icase(files_listing(files), mapping.1) {
            Err(e) => Err(ThemeError::Find(e)),
            Ok(None) => Err(ThemeError::Inf(InfError::InfPathNotFound)),
            Ok(Some(at)) => match spec_load(extension == "ani"@, files[at].2) {
                Err(e) => Err(ThemeError::Cursor(e)),
                Ok(cursor) => Ok((mapping.0, cursor)),
            },
        },
    }
}

/// What is odd about the file of a mapping whose cursor is `cursor`, each
/// warning with the role of the mapping.
pub open spec fn spec_mapping_warnings(
    files: Seq<(Seq<char>, bool, Seq<u8>)>,
    mapping: (CursorType, Seq<char>),
    cursor: GenericCursorView,
) -> Seq<(CursorType, CursorWarning)> {
    let found = spec_load_warnings(
        spec_extension(mapping.1) == Some("ani"@),
        files[spec_find_icase(files_listing(files), mapping.1)->Ok_0->0].2,
        cursor,
    );
    Seq::new(found.len(), |i: int| (mapping.0, found[i]))
}

/// What is odd about the files of the first `n` mappings, mapping by
/// mapping; nothing for a mapping that gives no cursor.
pub open spec fn spec_warnings_upto(
    files: Seq<(Seq<char>, bool, Seq<u8>)>,
    mappings: Seq<(CursorType, Seq<char>)>,
    n: int,
) -> Seq<(CursorType, CursorWarning)>
    decreases n,
{
    if n <= 0 {
        Seq::empty()
    } else {
        spec_warnings_upto(files, mappings, n - 1) + (match spec_typed_cursor(
            files,
            mappings[n - 1],
        ) {
            Ok(typed) => spec_mapping_warnings(files, mappings[n - 1], typed.1),
            Err(_) => Seq::empty(),
        })
    }
}

/// What is odd about the cursor files of a theme directory that gives a
/// theme.
pub open spec fn spec_theme_warnings(files: Seq<(Seq<char>, bool, Seq<u8>)>) -> Seq<
    (CursorType, CursorWarning),
> {
    match spec_resolve_inf(files_listing(files)) {
        Err(_) => Seq::empty(),
        Ok(at) => match spec_parse_inf(ini_sections(decode_utf8(files[at].2))) {
            Err(_) => Seq::empty(),
            Ok((_, mappings)) => spec_warnings_upto(files, mappings, mappings.len() as int),
        },
    }
}

/// The cursors of the first `n` mappings, or the error of the first mapping
/// that gives none.
pub open spec fn spec_load_upto(
    files: Seq<(Seq<char>, bool, Seq<u8>)>,
    mappings: Seq<(CursorType, Seq<char>)>,
    n: int,
) -> Result<Seq<(CursorType, GenericCursorView)>, ThemeError>
    decreases n,
{
    if n <= 0 {
        Ok(Seq::empty())
    } else {
        match spec_load_upto(files, mappings, n - 1) {
            Err(e) => Err(e),
            Ok(cursors) => match spec_typed_cursor(files, mappings[n - 1]) {
                Err(e) => Err(e),
                Ok(cursor) => Ok(cursors.push(cursor)),
            },
        }
    }
}

/// An error among the first mappings is the error of the whole.
pub proof fn lemma_load_error(
    files: Seq<(Seq<char>, bool, Seq<u8>)>,
    mappings: Seq<(CursorType, Seq<char>)>,
    k: int,
    n: int,
)
    requires
        0 <= k <= n,
        spec_load_upto(files, mappings, k) is Err,
    ensures
        spec_load_upto(files, mappings, n) == spec_load_upto(files, mappings, k),
    decreases n - k,
{
    if k < n {
        lemma_load_error(files, mappings, k, n - 1);
    }
}

/// The theme of a directory: its one installer is read as UTF-8 text and
/// parsed, the file of each role is decoded, and the cursors are put
/// together under the name that the installer gives.
pub open spec fn spec_from_theme_dir(files: Seq<(Seq<char>, bool, Seq<u8>)>) -> Result<
    ThemeView,
    ThemeError,
> {
    match spec_resolve_inf(files_listing(files)) {
        Err(e) => Err(e),
        Ok(at) => if !valid_utf8(files[at].2) {
            Err(ThemeError::InfNotText)
        } else {
            match spec_parse_inf(ini_sections(decode_utf8(files[at].2))) {
                Err(e) => Err(ThemeError::Inf(e)),
                Ok((name, mappings)) => match spec_load_upto(files, mappings, mappings.len() as int) {
                    Err(e) => Err(e),
                    Ok(cursors) => spec_new_theme(cursors, name),
                },
            }
        },
    }
}

impl TypedCursor {
    /// Finds and decodes the file of a mapping among the files of the theme
    /// directory.
    pub fn from_mapping(mapping: &CursorMapping, files: &[ThemeFile]) -> (r: Result<
        TypedCursor,
        ThemeError,
    >)
        ensures
            r matches Ok(cursor) ==> spec_typed_cursor(files_view(files@), mapping@) == Ok::<
                (CursorType, GenericCursorView),
                ThemeError,
            >(cursor@),
            r matches Err(e) ==> spec_typed_cursor(files_view(files@), mapping@) == Err::<
                (CursorType, GenericCursorView),
                ThemeError,
            >(e),
    {
        match TypedCursor::load_mapping(mapping, files) {
            Err(e) => Err(e),
            Ok((cursor, _)) => Ok(cursor),
        }
    }

    /// Finds and decodes the file of a mapping among the files of the theme
    /// directory, and tells what is odd about the file.
    #[verifier::rlimit(50)]
    pub fn load_mapping(mapping: &CursorMapping, files: &[ThemeFile]) -> (r: Result<
        (TypedCursor, Vec<(CursorType, CursorWarning)>),
        ThemeError,
    >)
        ensures
            r matches Ok((cursor, warnings)) ==> spec_typed_cursor(files_view(files@), mapping@)
                == Ok::<(CursorType, GenericCursorView), ThemeError>(cursor@) && warnings@
                == spec_mapping_warnings(files_view(files@), mapping@, cursor@.1),
            r matches Err(e) ==> spec_typed_cursor(files_view(files@), mapping@) == Err::<
                (CursorType, GenericCursorView),
                ThemeError,
            >(e),
    {
        let path = chars_of(mapping.path.as_str());
        let extension = match extension_of(path.as_slice()) {
            None => { return Err(ThemeError::NoExtension); },
            Some(e) => e,
        };
        let listing = listing_of(files);
        let at = match find_icase(listing.as_slice(), mapping.path.as_str()) {
            Err(e) => { return Err(ThemeError::Find(e)); },
            Ok(None) => { return Err(ThemeError::Inf(InfError::InfPathNotFound)); },
            Ok(Some(at)) => at,
        };
        assert(listing.len() == files.len()) by {
            assert(listing_view(listing@).len() == files_listing(files_view(files@)).len());
        }
        assert(files_view(files@)[at as int].2 == files@[at as int].data@);
        let ani = chars_of("ani");
        let animated = eq_chars(extension.as_slice(), ani.as_slice());
        match GenericCursor::load(animated, files[at].data.as_slice()) {
            Err(e) => Err(ThemeError::Cursor(e)),
            Ok((cursor, found)) => {
                let mut warnings: Vec<(CursorType, CursorWarning)> = Vec::new();
                let mut i: usize = 0;
                while i < found.len()
                    invariant
                        i <= found.len(),
                        warnings.len() == i,
                        forall|k: int|
                            0 <= k < i ==> #[trigger] warnings@[k] == (
                                mapping.cursor_type,
                                found@[k],
                            ),
                    decreases found.len() - i,
                {
                    warnings.push((mapping.cursor_type, found[i]));
                    i += 1;
                }
                let typed = TypedCursor::new(cursor, mapping.cursor_type);
                assert(warnings@ =~= spec_mapping_warnings(files_view(files@), mapping@, typed@.1));
                Ok((typed, warnings))
            },
        }
    }
}

impl CursorTheme {
    /// Builds the theme of a Windows theme directory from its files.
    pub fn from_theme_dir(files: &[ThemeFile]) -> (r: Result<CursorTheme, ThemeError>)
        ensures
            r matches Ok(theme) ==> spec_from_theme_dir(files_view(files@)) == Ok::<
                ThemeView,
                ThemeError,
            >(theme@) && theme@.wf(),
            r matches Err(e) ==> spec_from_theme_dir(files_view(files@)) == Err::<
                ThemeView,
                ThemeError,
            >(e),
    {
        match CursorTheme::load_theme_dir(files) {
            Err(e) => Err(e),
            Ok((theme, _)) => Ok(theme),
        }
    }

    /// Builds the theme of a Windows theme directory from its files, and
    /// tells what is odd about the cursor files, each warning with the role
    /// of its cursor.
    #[verifier::loop_isolation(false)]
    #[verifier::rlimit(50)]
    pub fn load_theme_dir(files: &[ThemeFile]) -> (r: Result<
        (CursorTheme, Vec<(CursorType, CursorWarning)>),
        ThemeError,
    >)
        ensures
            r matches Ok((theme, warnings)) ==> spec_from_theme_dir(files_view(files@)) == Ok::<
                ThemeView,
                ThemeError,
            >(theme@) && theme@.wf() && warnings@ == spec_theme_warnings(files_view(files@)),
            r matches Err(e) ==> spec_from_theme_dir(files_view(files@)) == Err::<
                ThemeView,
                ThemeError,
            >(e),
    {
        let ghost all = files_view(files@);
        let listing = listing_of(files);
        assert(listing.len() == files.len()) by {
            assert(listing_view(listing@).len() == files_listing(all).len());
        }
        let at = match resolve_inf(listing.as_slice()) {
            Err(e) => { return Err(e); },
            Ok(at) => at,
        };
        assert(all[at as int].2 == files@[at as int].data@);
        let text = match text_of(files[at].data.as_slice()) {
            None => { return Err(ThemeError::InfNotText); },
            Some(text) => text,
        };
        let (name, mappings) = match parse_inf_installer(text) {
            Err(e) => { return Err(ThemeError::Inf(e)); },
            Ok(parsed) => parsed,
        };
        let ghost maps = mappings_view(mappings@);
        let mut cursors: Vec<TypedCursor> = Vec::new();
        let mut warnings: Vec<(CursorType, CursorWarning)> = Vec::new();
        let mut k: usize = 0;
        assert(typed_view(cursors@) =~= Seq::<(CursorType, GenericCursorView)>::empty());
        assert(warnings@ =~= spec_warnings_upto(all, maps, 0));
        while k < mappings.len()
            invariant
                k <= mappings.len(),
                spec_load_upto(all, maps, k as int) == Ok::<
                    Seq<(CursorType, GenericCursorView)>,
                    ThemeError,
                >(typed_view(cursors@)),
                warnings@ == spec_warnings_upto(all, maps, k as int),
            decreases mappings.len() - k,
        {
            assert(maps[k as int] == mappings@[k as int]@);
            match TypedCursor::load_mapping(&mappings[k], files) {
                Err(e) => {
                    proof {
                        lemma_load_error(all, maps, k as int + 1, mappings.len() as int);
                    }
                    return Err(e);
                },
                Ok((cursor, mut more)) => {
                    let ghost before = typed_view(cursors@);
                    let ghost head = warnings@;
                    let ghost tail = more@;
                    cursors.push(cursor);
                    warnings.append(&mut more);
                    assert(typed_view(cursors@) =~= before.push(cursor@));
                    assert(warnings@ =~= head + tail);
                },
            }
            k += 1;
        }
        match CursorTheme::new(cursors, name) {
            Err(e) => Err(e),
            Ok(theme) => Ok((theme, warnings)),
        }
    }
}

} // verus!
