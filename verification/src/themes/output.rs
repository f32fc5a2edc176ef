//! What writing a theme as an X11 cursor theme puts on disk: the cursor
//! files, the links to them and the theme's `index.theme`. The caller does
//! the writing.

use crate::cursors::generic_cursor::GenericCursorView;
use crate::formats::xcursor::spec_xcursor;
use crate::themes::symlinks::{names_view, spec_symlinks};
use crate::themes::theme::{CursorTheme, CursorType, ThemeError, TypedCursor, typed_view};
use vstd::prelude::*;
use vstd::string::StringExecFns;

verus! {

/// A file to write into the directory `cursors` of the theme.
#[derive(Debug, Clone, PartialEq, Eq)]
pub struct OutputFile {
    /// The name of the file.
    pub name: String,
    /// The bytes of the file.
    pub data: Vec<u8>,
}

/// A symbolic link to make in the directory `cursors` of the theme. The
/// target is relative: the name of a file in the same directory.
#[derive(Debug, Clone, PartialEq, Eq)]
pub struct Symlink {
    /// The name of the link.
    pub name: String,
    /// What the link points to.
    pub target: String,
}

/// An X11 cursor theme, ready to be written.
#[derive(Debug, Clone, PartialEq, Eq)]
pub struct ThemeOutput {
    /// The name of the theme's directory.
    pub name: String,
    /// The cursor files, one for each cursor, in the order of the cursors.
    pub cursor_files: Vec<OutputFile>,
    /// The links, cursor by cursor. Each cursor's file is written before its
    /// links are made.
    pub links: Vec<Symlink>,
    /// The text of `index.theme`.
    pub index_theme: String,
}

impl View for OutputFile {
    type V = (Seq<char>, Seq<u8>);

    open spec fn view(&self) -> (Seq<char>, Seq<u8>) {
        (self.name@, self.data@)
    }
}

impl View for Symlink {
    type V = (Seq<char>, Seq<char>);

    open spec fn view(&self) -> (Seq<char>, Seq<char>) {
        (self.name@, self.target@)
    }
}

/// The values of a list of files.
pub open spec fn output_files_view(files: Seq<OutputFile>) -> Seq<(Seq<char>, Seq<u8>)> {
    Seq::new(files.len(), |i: int| files[i]@)
}

/// The values of a list of links.
pub open spec fn links_view(links: Seq<Symlink>) -> Seq<(Seq<char>, Seq<char>)> {
    Seq::new(links.len(), |i: int| links[i]@)
}

/// The text of `index.theme` for a theme of the name `name`.
pub open spec fn spec_index_theme(name: Seq<char>) -> Seq<char> {
    "# https://specifications.freedesktop.org/icon-theme/latest/#id-1.5.3.2\n"@
        + "[Icon Theme]\n"@ + "Name="@ + name + "\n"@
        + "Comment=made with currust; edit index.theme to change this\n"@
        + "# Inherits=fallback_theme\n"@
}

/// The links of a role: each name but the first, with the first as target.
pub open spec fn spec_links_of(cursor_type: CursorType) -> Seq<(Seq<char>, Seq<char>)> {
    Seq::new(
        (spec_symlinks(cursor_type).len() - 1) as nat,
        |j: int| (spec_symlinks(cursor_type)[j + 1], spec_symlinks(cursor_type)[0]),
    )
}

/// The links of the first `n` cursors, cursor by cursor.
pub open spec fn spec_links_upto(cursors: Seq<(CursorType, GenericCursorView)>, n: int) -> Seq<
    (Seq<char>, Seq<char>),
>
    decreases n,
{
    if n <= 0 {
        Seq::empty()
    } else {
        spec_links_upto(cursors, n - 1) + spec_links_of(cursors[n - 1].0)
    }
}

/// The cursor files of the first `n` cursors: each has the first name of
/// its role and holds the Xcursor file of its cursor. The first cursor that
/// cannot be written decides the error.
pub open spec fn spec_files_upto(cursors: Seq<(CursorType, GenericCursorView)>, n: int) -> Result<
    Seq<(Seq<char>, Seq<u8>)>,
    ThemeError,
>
    decreases n,
{
    if n <= 0 {
        Ok(Seq::empty())
    } else {
        match spec_files_upto(cursors, n - 1) {
            Err(e) => Err(e),
            Ok(files) => match spec_xcursor(cursors[n - 1].1) {
                Err(e) => Err(ThemeError::Xcursor(e)),
                Ok(file) => Ok(files.push((spec_symlinks(cursors[n - 1].0)[0], file.bytes()))),
            },
        }
    }
}

/// An error among the first cursors is the error of the whole.
pub proof fn lemma_files_error(cursors: Seq<(CursorType, GenericCursorView)>, k: int, n: int)
    requires
        0 <= k <= n,
        spec_files_upto(cursors, k) is Err,
    ensures
        spec_files_upto(cursors, n) == spec_files_upto(cursors, k),
    decreases n - k,
{
    if k < n {
        lemma_files_error(cursors, k, n - 1);
    }
}

/// The lines of the script for the first `n` links: one `ln -s` for each.
pub open spec fn spec_script_lines(links: Seq<(Seq<char>, Seq<char>)>, n: int) -> Seq<char>
    decreases n,
{
    if n <= 0 {
        Seq::empty()
    } else {
        spec_script_lines(links, n - 1) + "ln -s "@ + links[n - 1].1 + " "@ + links[n - 1].0
            + "\n"@
    }
}

/// The shell script that makes the links on a host that has them.
pub open spec fn spec_symlink_script(links: Seq<(Seq<char>, Seq<char>)>) -> Seq<char> {
    "#!/usr/bin/env bash\n\n"@ + spec_script_lines(links, links.len() as int)
}

impl TypedCursor {
    /// The links of the cursor: each name of its role but the first, with
    /// the first as target.
    pub fn links(&self) -> (r: Vec<Symlink>)
        ensures
            links_view(r@) == spec_links_of(self@.0),
    {
        let aliases = self.aliases();
        let ghost names = spec_symlinks(self@.0);
        assert(forall|i: int| 0 <= i < aliases.len() ==> (#[trigger] aliases@[i])@ == names[i]) by {
            assert forall|i: int| 0 <= i < aliases.len() implies (#[trigger] aliases@[i])@
                == names[i] by {
                assert(names_view(aliases@)[i] == aliases@[i]@);
            }
        }
        assert(aliases.len() == names.len()) by {
            assert(names_view(aliases@).len() == names.len());
        }
        let mut links: Vec<Symlink> = Vec::new();
        let mut j: usize = 1;
        while j < aliases.len()
            invariant
                1 <= j <= aliases.len(),
                aliases.len() == names.len(),
                names == spec_symlinks(self@.0),
                forall|i: int| 0 <= i < aliases.len() ==> (#[trigger] aliases@[i])@ == names[i],
                links.len() == j - 1,
                forall|i: int|
                    0 <= i < j - 1 ==> (#[trigger] links@[i])@ == (names[i + 1], names[0]),
            decreases aliases.len() - j,
        {
            links.push(
                Symlink { name: String::from_str(aliases[j]), target: String::from_str(aliases[0]) },
            );
            j += 1;
        }
        assert(links_view(links@) =~= spec_links_of(self@.0));
        links
    }
}

impl CursorTheme {
    /// The links of all cursors, cursor by cursor.
    pub fn links(&self) -> (r: Vec<Symlink>)
        ensures
            links_view(r@) == spec_links_upto(self@.cursors, self@.cursors.len() as int),
    {
        let cursors = self.cursors();
        let ghost all = self@.cursors;
        let mut links: Vec<Symlink> = Vec::new();
        let mut k: usize = 0;
        assert(links_view(links@) =~= spec_links_upto(all, 0));
        while k < cursors.len()
            invariant
                k <= cursors.len(),
                all == typed_view(cursors@),
                links_view(links@) == spec_links_upto(all, k as int),
            decreases cursors.len() - k,
        {
            let mut more = cursors[k].links();
            let ghost head = links_view(links@);
            let ghost tail = links_view(more@);
            links.append(&mut more);
            assert(links_view(links@) =~= head + tail);
            assert(all[k as int].0 == cursors@[k as int]@.0);
            k += 1;
        }
        links
    }

    /// The text of the theme's `index.theme`.
    pub fn index_theme(&self) -> (r: String)
        ensures
            r@ == spec_index_theme(self@.name),
    {
        let mut text = String::from_str(
            "# https://specifications.freedesktop.org/icon-theme/latest/#id-1.5.3.2\n",
        );
        text.append("[Icon Theme]\n");
        text.append("Name=");
        text.append(self.name());
        text.append("\n");
        text.append("Comment=made with currust; edit index.theme to change this\n");
        text.append("# Inherits=fallback_theme\n");
        text
    }

    /// The shell script that makes the links of the theme, for a host that
    /// cannot make them itself. It is run in the directory of the cursor
    /// files, after they are written.
    pub fn write_symlink_script(&self) -> (r: String)
        ensures
            r@ == spec_symlink_script(
                spec_links_upto(self@.cursors, self@.cursors.len() as int),
            ),
    {
        let links = self.links();
        let ghost all = links_view(links@);
        let mut text = String::from_str("#!/usr/bin/env bash\n\n");
        let ghost head = text@;
        let mut i: usize = 0;
        assert(text@ =~= head + spec_script_lines(all, 0));
        while i < links.len()
            invariant
                i <= links.len(),
                all == links_view(links@),
                text@ == head + spec_script_lines(all, i as int),
            decreases links.len() - i,
        {
            text.append("ln -s ");
            text.append(links[i].target.as_str());
            text.append(" ");
            text.append(links[i].name.as_str());
            text.append("\n");
            assert(all[i as int] == links@[i as int]@);
            i += 1;
            assert(text@ =~= head + spec_script_lines(all, i as int));
        }
        text
    }

    /// Lays the theme out as an X11 cursor theme: the directory has the
    /// theme's name; it holds `index.theme` and, in `cursors`, the Xcursor
    /// file of each cursor under the first name of its role and a link to
    /// that file under each other name.
    #[verifier::loop_isolation(false)]
    #[verifier::rlimit(50)]
    pub fn save_as_x11_theme(&self) -> (r: Result<ThemeOutput, ThemeError>)
        ensures
            r matches Ok(out) ==> {
                &&& out.name@ == self@.name
                &&& spec_files_upto(self@.cursors, self@.cursors.len() as int) == Ok::<
                    Seq<(Seq<char>, Seq<u8>)>,
                    ThemeError,
                >(output_files_view(out.cursor_files@))
                &&& links_view(out.links@) == spec_links_upto(
                    self@.cursors,
                    self@.cursors.len() as int,
                )
                &&& out.index_theme@ == spec_index_theme(self@.name)
            },
            r matches Err(e) ==> spec_files_upto(self@.cursors, self@.cursors.len() as int)
                == Err::<Seq<(Seq<char>, Seq<u8>)>, ThemeError>(e),
    {
        let cursors = self.cursors();
        let ghost all = self@.cursors;
        let mut files: Vec<OutputFile> = Vec::new();
        let mut k: usize = 0;
        assert(output_files_view(files@) =~= Seq::<(Seq<char>, Seq<u8>)>::empty());
        while k < cursors.len()
            invariant
                k <= cursors.len(),
                spec_files_upto(all, k as int) == Ok::<Seq<(Seq<char>, Seq<u8>)>, ThemeError>(
                    output_files_view(files@),
                ),
            decreases cursors.len() - k,
        {
            assert(all[k as int] == cursors@[k as int]@);
            let aliases = cursors[k].aliases();
            assert(names_view(aliases@)[0] == aliases@[0]@);
            match cursors[k].cursor().save_as_xcursor() {
                Err(e) => {
                    proof {
                        lemma_files_error(all, k as int + 1, cursors.len() as int);
                    }
                    return Err(ThemeError::Xcursor(e));
                },
                Ok(data) => {
                    let ghost before = output_files_view(files@);
                    let file = OutputFile { name: String::from_str(aliases[0]), data };
                    files.push(file);
                    assert(output_files_view(files@) =~= before.push(file@));
                },
            }
            k += 1;
        }
        Ok(
            ThemeOutput {
                name: String::from_str(self.name()),
                cursor_files: files,
                links: self.links(),
                index_theme: self.index_theme(),
            },
        )
    }
}

} // verus!
