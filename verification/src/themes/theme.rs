//! A cursor theme: cursors with their roles, under one name.

use crate::cursors::cursor_image::ScalingType;
use crate::cursors::generic_cursor::{
    CursorError, GenericCursor, GenericCursorView, scale_added, scale_refusal,
};
use crate::formats::inf::InfError;
use crate::formats::xcursor::XcursorError;
use crate::fs_utils::FindError;
use crate::scaling::ScalingAlgorithm;
use crate::text::{chars_of, eq_chars};
use crate::themes::symlinks::{get_symlinks, names_view, spec_symlinks};
use vstd::prelude::*;

verus! {

/// The roles that exist both on Windows and on X11.
#[derive(Debug, Clone, Copy, PartialEq, Eq, Structural)]
pub enum CursorType {
    /// The default pointer.
    Arrow,
    /// Shown over a link, usually a hand.
    Hand,
    /// Shown while something loads.
    Watch,
    /// The pointer with a sign of loading beside it.
    LeftPtrWatch,
    /// Usually a question mark.
    Help,
    /// Shown over text, usually an I-beam.
    Text,
    /// Shown while drawing.
    Pencil,
    /// Usually a plus sign.
    Crosshair,
    /// Usually a crossed circle.
    Forbidden,
    /// Resizing up and down.
    NsResize,
    /// Resizing left and right.
    EwResize,
    /// Resizing along the falling diagonal.
    NwseResize,
    /// Resizing along the rising diagonal.
    NeswResize,
    /// Moving something.
    Move,
    /// The pointer Windows calls "alternate".
    CenterPtr,
}

/// The role that a key of an installer's `Strings` section names.
pub open spec fn spec_from_inf_key(key: Seq<char>) -> Option<CursorType> {
    if key == "pointer"@ {
        Some(CursorType::Arrow)
    } else if key == "help"@ {
        Some(CursorType::Help)
    } else if key == "work"@ || key == "working"@ {
        Some(CursorType::LeftPtrWatch)
    } else if key == "busy"@ {
        Some(CursorType::Watch)
    } else if key == "cross"@ || key == "precision"@ {
        Some(CursorType::Crosshair)
    } else if key == "text"@ {
        Some(CursorType::Text)
    } else if key == "hand"@ {
        Some(CursorType::Pencil)
    } else if key == "unavailable"@ || key == "unavailiable"@ {
        Some(CursorType::Forbidden)
    } else if key == "vert"@ {
        Some(CursorType::NsResize)
    } else if key == "horz"@ {
        Some(CursorType::EwResize)
    } else if key == "dgn1"@ {
        Some(CursorType::NwseResize)
    } else if key == "dgn2"@ {
        Some(CursorType::NeswResize)
    } else if key == "move"@ {
        Some(CursorType::Move)
    } else if key == "alternate"@ {
        Some(CursorType::CenterPtr)
    } else if key == "link"@ {
        Some(CursorType::Hand)
    } else {
        None
    }
}

/// Tells whether `key` is the text `word`.
fn is_word(key: &[char], word: &str) -> (r: bool)
    ensures
        r == (key@ == word@),
{
    let w = chars_of(word);
    eq_chars(key, w.as_slice())
}

impl CursorType {
    /// How many roles there are.
    pub const NUM_VARIANTS: usize = 15;

    /// The role that a key of an installer's `Strings` section names, if it
    /// names one. The keys are the names Windows gives the roles, and two
    /// misspellings that occur in the wild.
    pub fn from_inf_key(key: &str) -> (r: Option<CursorType>)
        ensures
            r == spec_from_inf_key(key@),
    {
        let k = chars_of(key);
        let k = k.as_slice();
        if is_word(k, "pointer") {
            Some(CursorType::Arrow)
        } else if is_word(k, "help") {
            Some(CursorType::Help)
        } else if is_word(k, "work") || is_word(k, "working") {
            Some(CursorType::LeftPtrWatch)
        } else if is_word(k, "busy") {
            Some(CursorType::Watch)
        } else if is_word(k, "cross") || is_word(k, "precision") {
            Some(CursorType::Crosshair)
        } else if is_word(k, "text") {
            Some(CursorType::Text)
        } else if is_word(k, "hand") {
            Some(CursorType::Pencil)
        } else if is_word(k, "unavailable") || is_word(k, "unavailiable") {
            Some(CursorType::Forbidden)
        } else if is_word(k, "vert") {
            Some(CursorType::NsResize)
        } else if is_word(k, "horz") {
            Some(CursorType::EwResize)
        } else if is_word(k, "dgn1") {
            Some(CursorType::NwseResize)
        } else if is_word(k, "dgn2") {
            Some(CursorType::NeswResize)
        } else if is_word(k, "move") {
            Some(CursorType::Move)
        } else if is_word(k, "alternate") {
            Some(CursorType::CenterPtr)
        } else if is_word(k, "link") {
            Some(CursorType::Hand)
        } else {
            None
        }
    }
}


/// Why a theme could not be built or written.
#[derive(Debug, Clone, Copy, PartialEq, Eq)]
pub enum ThemeError {
    /// A theme needs one cursor at least.
    NoCursors,
    /// A theme has no more cursors than there are roles.
    TooManyCursors,
    /// Two cursors have the same role.
    DuplicateCursorType,
    /// The theme's directory holds no installer.
    NoInf,
    /// The theme's directory holds more than one installer.
    MultipleInf,
    /// The installer is not UTF-8 text.
    InfNotText,
    /// The installer was refused, or names a file that is not there.
    Inf(InfError),
    /// The file of a role could not be told from others.
    Find(FindError),
    /// The file of a role has no extension, so it cannot be told whether it
    /// is animated.
    NoExtension,
    /// A cursor could not be decoded or scaled.
    Cursor(CursorError),
    /// A cursor cannot be written as an Xcursor file.
    Xcursor(XcursorError),
}

/// A cursor with its role.
#[derive(Debug, PartialEq, Eq)]
pub struct TypedCursor {
    inner: GenericCursor,
    cursor_type: CursorType,
}

impl View for TypedCursor {
    type V = (CursorType, GenericCursorView);

    closed spec fn view(&self) -> (CursorType, GenericCursorView) {
        (self.cursor_type, self.inner@)
    }
}

impl TypedCursor {
    /// Gives a cursor its role.
    pub fn new(cursor: GenericCursor, cursor_type: CursorType) -> (r: TypedCursor)
        ensures
            r@ == (cursor_type, cursor@),
    {
        TypedCursor { inner: cursor, cursor_type }
    }

    /// The role.
    pub fn cursor_type(&self) -> (r: CursorType)
        ensures
            r == self@.0,
    {
        self.cursor_type
    }

    /// The cursor.
    pub fn cursor(&self) -> (r: &GenericCursor)
        ensures
            r@ == self@.1,
            self@.1.wf(),
    {
        proof {
            use_type_invariant(&self.inner);
        }
        &self.inner
    }

    /// The names of the role: the first is the name of the cursor's file,
    /// the others are the names of the links to it.
    pub fn aliases(&self) -> (r: Vec<&'static str>)
        ensures
            names_view(r@) == spec_symlinks(self@.0),
            r.len() >= 2,
    {
        get_symlinks(&self.cursor_type)
    }
}

/// The mathematical value of a [`CursorTheme`].
pub struct ThemeView {
    pub name: Seq<char>,
    pub cursors: Seq<(CursorType, GenericCursorView)>,
}

impl ThemeView {
    /// What holds of every theme: it has a cursor and no more cursors than
    /// there are roles, no two cursors have the same role, and every cursor
    /// is well formed.
    pub open spec fn wf(self) -> bool {
        &&& 1 <= self.cursors.len() <= CursorType::NUM_VARIANTS
        &&& forall|i: int, j: int|
            0 <= i < j < self.cursors.len() ==> (#[trigger] self.cursors[i]).0 != (
            #[trigger] self.cursors[j]).0
        &&& forall|i: int| 0 <= i < self.cursors.len() ==> (#[trigger] self.cursors[i]).1.wf()
    }
}

/// Whether two of the cursors have the same role.
pub open spec fn has_duplicate_type(cursors: Seq<(CursorType, GenericCursorView)>) -> bool {
    exists|i: int, j: int|
        0 <= i < j < cursors.len() && (#[trigger] cursors[i]).0 == (#[trigger] cursors[j]).0
}

/// The theme of the cursors `cursors` under the name `name`, or why there
/// is none. The tests are made in this order.
pub open spec fn spec_new_theme(cursors: Seq<(CursorType, GenericCursorView)>, name: Seq<char>)
    -> Result<ThemeView, ThemeError> {
    if cursors.len() == 0 {
        Err(ThemeError::NoCursors)
    } else if cursors.len() > CursorType::NUM_VARIANTS {
        Err(ThemeError::TooManyCursors)
    } else if has_duplicate_type(cursors) {
        Err(ThemeError::DuplicateCursorType)
    } else {
        Ok(ThemeView { name, cursors })
    }
}

/// The values of a list of cursors with roles.
pub open spec fn typed_view(cursors: Seq<TypedCursor>) -> Seq<(CursorType, GenericCursorView)> {
    Seq::new(cursors.len(), |i: int| cursors[i]@)
}

/// A cursor theme.
#[derive(Debug, PartialEq, Eq)]
pub struct CursorTheme {
    cursors: Vec<TypedCursor>,
    name: String,
}

impl View for CursorTheme {
    type V = ThemeView;

    closed spec fn view(&self) -> ThemeView {
        ThemeView { name: self.name@, cursors: typed_view(self.cursors@) }
    }
}

impl CursorTheme {
    /// Builds a theme from its cursors.
    #[verifier::loop_isolation(false)]
    #[verifier::rlimit(50)]
    pub fn new(cursors: Vec<TypedCursor>, name: String) -> (r: Result<CursorTheme, ThemeError>)
        ensures
            r matches Ok(theme) ==> spec_new_theme(typed_view(cursors@), name@) == Ok::<
                ThemeView,
                ThemeError,
            >(theme@) && theme@.wf(),
            r matches Err(e) ==> spec_new_theme(typed_view(cursors@), name@) == Err::<
                ThemeView,
                ThemeError,
            >(e),
    {
        let ghost all = typed_view(cursors@);
        if cursors.len() == 0 {
            return Err(ThemeError::NoCursors);
        }
        if cursors.len() > CursorType::NUM_VARIANTS {
            return Err(ThemeError::TooManyCursors);
        }
        let mut j: usize = 0;
        while j < cursors.len()
            invariant
                j <= cursors.len(),
                forall|a: int, b: int|
                    0 <= a < b < j ==> (#[trigger] all[a]).0 != (#[trigger] all[b]).0,
                forall|a: int| 0 <= a < j ==> (#[trigger] all[a]).1.wf(),
            decreases cursors.len() - j,
        {
            let mut i: usize = 0;
            while i < j
                invariant
                    i <= j < cursors.len(),
                    forall|a: int| 0 <= a < i ==> (#[trigger] all[a]).0 != all[j as int].0,
                decreases j - i,
            {
                if cursors[i].cursor_type() == cursors[j].cursor_type() {
                    assert(all[i as int].0 == all[j as int].0);
                    return Err(ThemeError::DuplicateCursorType);
                }
                i += 1;
            }
            let typed = &cursors[j];
            proof {
                use_type_invariant(&typed.inner);
            }
            j += 1;
        }
        Ok(CursorTheme { cursors, name })
    }

    /// The theme's name.
    pub fn name(&self) -> (r: &str)
        ensures
            r@ == self@.name,
    {
        self.name.as_str()
    }

    /// The cursors.
    pub fn cursors(&self) -> (r: &[TypedCursor])
        ensures
            typed_view(r@) == self@.cursors,
    {
        self.cursors.as_slice()
    }
}


impl TypedCursor {
    /// Adds a scaled group to the cursor; see [`GenericCursor::add_scale`].
    pub fn add_scale(
        &mut self,
        scale_factor: u32,
        scale_type: ScalingType,
        algorithm: ScalingAlgorithm,
    ) -> (r: Result<(), CursorError>)
        ensures
            final(self)@.0 == old(self)@.0,
            final(self)@.1.wf(),
            scale_added(old(self)@.1, final(self)@.1, r, scale_factor, scale_type),
    {
        self.inner.add_scale(scale_factor, scale_type, algorithm)
    }
}

/// Whether `after` is `before` with the base of each of the first `k`
/// cursors scaled by `factor` and added as that cursor's last group, and
/// nothing else changed.
pub open spec fn scaled_upto(
    before: ThemeView,
    after: ThemeView,
    k: int,
    factor: u32,
    scale_type: ScalingType,
) -> bool {
    &&& after.name == before.name
    &&& after.cursors.len() == before.cursors.len()
    &&& forall|i: int|
        0 <= i < before.cursors.len() ==> (#[trigger] after.cursors[i]).0 == before.cursors[i].0
    &&& forall|i: int|
        k <= i < before.cursors.len() ==> #[trigger] after.cursors[i] == before.cursors[i]
    &&& forall|i: int|
        0 <= i < k && i < before.cursors.len() ==> scale_added(
            before.cursors[i].1,
            (#[trigger] after.cursors[i]).1,
            Ok(()),
            factor,
            scale_type,
        )
}

/// The first cursor of the theme that cannot be scaled by `factor`, among
/// the first `n`; `n` if there is none.
pub open spec fn first_refusal(
    cursors: Seq<(CursorType, GenericCursorView)>,
    n: int,
    factor: u32,
    scale_type: ScalingType,
) -> int
    decreases n,
{
    if n <= 0 {
        0
    } else if first_refusal(cursors, n - 1, factor, scale_type) < n - 1 {
        first_refusal(cursors, n - 1, factor, scale_type)
    } else if scale_refusal(cursors[n - 1].1, factor, scale_type) is Some {
        n - 1
    } else {
        n
    }
}

/// A refusal among the first cursors is the first refusal of all.
pub proof fn lemma_first_refusal_stays(
    cursors: Seq<(CursorType, GenericCursorView)>,
    m: int,
    n: int,
    factor: u32,
    scale_type: ScalingType,
)
    requires
        0 <= m <= n,
        first_refusal(cursors, m, factor, scale_type) < m,
    ensures
        first_refusal(cursors, n, factor, scale_type) == first_refusal(
            cursors,
            m,
            factor,
            scale_type,
        ),
    decreases n - m,
{
    if m < n {
        lemma_first_refusal_stays(cursors, m, n - 1, factor, scale_type);
    }
}

/// Whether scaling the theme `before` by `factor` fails at the cursor `k`
/// with the error `e`: the cursors before it can be scaled and are scaled
/// in `after`, and it cannot.
pub open spec fn scale_failed_at(
    before: ThemeView,
    after: ThemeView,
    k: int,
    e: CursorError,
    factor: u32,
    scale_type: ScalingType,
) -> bool {
    &&& 0 <= k < before.cursors.len()
    &&& k == first_refusal(before.cursors, before.cursors.len() as int, factor, scale_type)
    &&& scaled_upto(before, after, k, factor, scale_type)
    &&& scale_refusal(before.cursors[k].1, factor, scale_type) == Some(e)
}

impl CursorTheme {
    /// Adds a scaled group to every cursor of the theme, one cursor after
    /// the other. The first cursor that cannot be scaled ends the work with
    /// its error: the cursors before it keep their new group, it and the
    /// cursors after it are as they were. Where every cursor can be scaled,
    /// the call succeeds.
    #[verifier::loop_isolation(false)]
    #[verifier::rlimit(50)]
    pub fn add_scale(
        &mut self,
        scale_factor: u32,
        scale_type: ScalingType,
        algorithm: ScalingAlgorithm,
    ) -> (r: Result<(), ThemeError>)
        ensures
            old(self)@.wf() ==> final(self)@.wf(),
            scaled_upto(
                old(self)@,
                final(self)@,
                first_refusal(
                    old(self)@.cursors,
                    old(self)@.cursors.len() as int,
                    scale_factor,
                    scale_type,
                ),
                scale_factor,
                scale_type,
            ),
            match r {
                Ok(_) => first_refusal(
                    old(self)@.cursors,
                    old(self)@.cursors.len() as int,
                    scale_factor,
                    scale_type,
                ) == old(self)@.cursors.len(),
                Err(e) => e matches ThemeError::Cursor(c) && scale_failed_at(
                    old(self)@,
                    final(self)@,
                    first_refusal(
                        old(self)@.cursors,
                        old(self)@.cursors.len() as int,
                        scale_factor,
                        scale_type,
                    ),
                    c,
                    scale_factor,
                    scale_type,
                ),
            },
    {
        let ghost before = self@;
        let n = self.cursors.len();
        let mut k: usize = 0;
        while k < n
            invariant
                k <= n,
                n == before.cursors.len(),
                before.wf() ==> self@.wf(),
                self.cursors.len() == n,
                scaled_upto(before, self@, k as int, scale_factor, scale_type),
                first_refusal(before.cursors, k as int, scale_factor, scale_type) == k,
            decreases n - k,
        {
            let ghost prev = self@;
            let ghost prev_cursors = self.cursors@;
            let r = self.cursors[k].add_scale(scale_factor, scale_type, algorithm);
            proof {
                assert(self.cursors@.len() == prev_cursors.len());
                assert forall|i: int| 0 <= i < n && i != k implies #[trigger] self@.cursors[i]
                    == prev.cursors[i] by {
                    assert(self.cursors@[i] == prev_cursors[i]);
                }
                assert(self@.cursors[k as int] == self.cursors@[k as int]@);
                assert(prev.cursors[k as int] == prev_cursors[k as int]@);
            }
            match r {
                Err(e) => {
                    assert(self@.cursors =~= prev.cursors);
                    assert(self@ == prev);
                    proof {
                        lemma_first_refusal_stays(
                            before.cursors,
                            k as int + 1,
                            n as int,
                            scale_factor,
                            scale_type,
                        );
                    }
                    return Err(ThemeError::Cursor(e));
                },
                Ok(()) => {},
            }
            k += 1;
        }
        Ok(())
    }
}

} // verus!
