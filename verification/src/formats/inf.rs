//! The `INF` installer of a Windows cursor theme: the theme's name and the
//! file of each role, taken from the one key of the section `Scheme.Reg`.

use crate::text::{
    chars_of, copy_chars, count_char, count_from, eq_chars, eq_ignore_ascii_case, find_char,
    find_from, lemma_find_from, rfind_before, rfind_char, spec_eq_ignore_ascii_case, spec_split,
    split, string_of,
};
use crate::themes::theme::CursorType;
use configparser::ini::Ini;
use vstd::prelude::*;

verus! {

/// Why an installer is not accepted.
#[derive(Debug, Clone, Copy, PartialEq, Eq)]
pub enum InfError {
    /// The text is not of the expected form: it is no INI text, the section
    /// `Scheme.Reg` is absent or does not hold exactly one key without a
    /// value, the key does not start with `HKCU`, the theme's name is not in
    /// double quotes, a path holds no backslash, or the list of paths is
    /// absent or not closed by a double quote.
    InfParse,
    /// A `%` opens a substitution that no second `%` closes.
    InfUnclosedSubstitution,
    /// A substitution names a key that `Strings` does not hold.
    InfUnknownSubstitution,
    /// The file of a role is not in the theme's directory.
    InfPathNotFound,
}

/// The file that plays a role.
#[derive(Debug, Clone, PartialEq, Eq)]
pub struct CursorMapping {
    /// The role.
    pub cursor_type: CursorType,
    /// The file's name, relative to the theme's directory.
    pub path: String,
}

/// A key of an INI section with its value, if it has one.
#[derive(Debug, Clone, PartialEq, Eq)]
pub struct IniEntry {
    /// The key.
    pub key: String,
    /// What follows the delimiter, if the line has one.
    pub value: Option<String>,
}

/// A section of an INI text.
#[derive(Debug, Clone, PartialEq, Eq)]
pub struct IniSection {
    /// The name between the brackets.
    pub name: String,
    /// The keys of the section with their values.
    pub entries: Vec<IniEntry>,
}

/// The keys of a section with their values.
pub type SectionMap = Map<Seq<char>, Option<Seq<char>>>;

/// The text of an optional string.
pub open spec fn text_view(o: Option<String>) -> Option<Seq<char>> {
    match o {
        Some(s) => Some(s@),
        None => None,
    }
}

impl View for IniEntry {
    type V = (Seq<char>, Option<Seq<char>>);

    open spec fn view(&self) -> (Seq<char>, Option<Seq<char>>) {
        (self.key@, text_view(self.value))
    }
}

/// The entries of a section, as texts.
pub open spec fn entries_view(entries: Seq<IniEntry>) -> Seq<(Seq<char>, Option<Seq<char>>)> {
    Seq::new(entries.len(), |i: int| entries[i]@)
}

impl View for IniSection {
    type V = (Seq<char>, Seq<(Seq<char>, Option<Seq<char>>)>);

    open spec fn view(&self) -> (Seq<char>, Seq<(Seq<char>, Option<Seq<char>>)>) {
        (self.name@, entries_view(self.entries@))
    }
}

/// The sections of a list, as texts.
pub open spec fn sections_view(sections: Seq<IniSection>) -> Seq<
    (Seq<char>, Seq<(Seq<char>, Option<Seq<char>>)>),
> {
    Seq::new(sections.len(), |i: int| sections[i]@)
}

impl View for CursorMapping {
    type V = (CursorType, Seq<char>);

    open spec fn view(&self) -> (CursorType, Seq<char>) {
        (self.cursor_type, self.path@)
    }
}

/// The mappings of a list, as texts.
pub open spec fn mappings_view(mappings: Seq<CursorMapping>) -> Seq<(CursorType, Seq<char>)> {
    Seq::new(mappings.len(), |i: int| mappings[i]@)
}

/// How many items lie between `from` and the end of `l`.
pub open spec fn items_left<V>(l: Seq<(Seq<char>, V)>, from: int) -> nat {
    if from < l.len() {
        (l.len() - from) as nat
    } else {
        0
    }
}

/// The first position from `from` on whose key is `key`, or the length of
/// the list if there is none.
pub open spec fn first_key<V>(l: Seq<(Seq<char>, V)>, key: Seq<char>, from: int) -> int
    decreases items_left(l, from),
{
    if from < 0 || from >= l.len() {
        l.len() as int
    } else if l[from].0 == key {
        from
    } else {
        first_key(l, key, from + 1)
    }
}

/// Where the first item with the key `key` stands.
pub proof fn lemma_first_key<V>(l: Seq<(Seq<char>, V)>, key: Seq<char>, from: int)
    requires
        0 <= from <= l.len(),
    ensures
        from <= first_key(l, key, from) <= l.len(),
        first_key(l, key, from) < l.len() ==> l[first_key(l, key, from)].0 == key,
        forall|k: int| from <= k < first_key(l, key, from) ==> l[k].0 != key,
    decreases l.len() - from,
{
    if from < l.len() && l[from].0 != key {
        lemma_first_key(l, key, from + 1);
    }
}

/// The section that a list of entries stands for: where a key occurs more
/// than once, its first entry counts.
pub open spec fn entries_map(l: Seq<(Seq<char>, Option<Seq<char>>)>) -> SectionMap {
    Map::new(
        |k: Seq<char>| first_key(l, k, 0) < l.len(),
        |k: Seq<char>| l[first_key(l, k, 0)].1,
    )
}

/// The INI text that a list of sections stands for: where a name occurs more
/// than once, its first section counts.
pub open spec fn ini_map(l: Seq<(Seq<char>, Seq<(Seq<char>, Option<Seq<char>>)>)>) -> Map<
    Seq<char>,
    SectionMap,
> {
    Map::new(
        |k: Seq<char>| first_key(l, k, 0) < l.len(),
        |k: Seq<char>| entries_map(l[first_key(l, k, 0)].1),
    )
}

/// What `configparser` makes of an INI text when it keeps the case of names
/// and keys: for each section its keys and their values, or `None` where it
/// refuses the text.
pub uninterp spec fn ini_sections(text: Seq<char>) -> Option<Map<Seq<char>, SectionMap>>;

/// The value `v` without the double quotes that enclose it; `v` itself where
/// it is not enclosed in them.
pub open spec fn spec_dequote(v: Seq<char>) -> Seq<char> {
    if v.len() >= 2 && v[0] == '"' && v[v.len() - 1] == '"' {
        v.subrange(1, v.len() - 1)
    } else {
        v
    }
}

/// Whether `v` is enclosed in double quotes.
pub open spec fn is_quoted(v: Seq<char>) -> bool {
    v.len() >= 2 && v[0] == '"' && v[v.len() - 1] == '"'
}

/// Whether `key` is made of the digits 0 to 9 alone.
pub open spec fn is_digits(key: Seq<char>) -> bool {
    forall|i: int| 0 <= i < key.len() ==> 48 <= #[trigger] key[i] as u32 <= 57
}

/// What stands in the place of `%key%`: a percent sign for the empty key,
/// the token itself where the key is a number (a directory id, which is
/// left as it is), else the value that `strings` gives the key, without its
/// quotes.
pub open spec fn spec_substitute(key: Seq<char>, strings: SectionMap) -> Option<Seq<char>> {
    if key.len() == 0 {
        Some(seq!['%'])
    } else if is_digits(key) {
        Some(seq!['%'] + key + seq!['%'])
    } else if strings.contains_key(key) && strings[key] is Some {
        Some(spec_dequote(strings[key]->0))
    } else {
        None
    }
}

/// `s` from `from` on, with every `%key%` replaced.
pub open spec fn spec_expand_from(s: Seq<char>, strings: SectionMap, from: int) -> Result<
    Seq<char>,
    InfError,
>
    decreases crate::text::chars_left(s, from),
    via spec_expand_from_terminates
{
    if from < 0 || from > s.len() {
        Ok(Seq::empty())
    } else {
        let i = find_from(s, '%', from);
        if i >= s.len() {
            Ok(s.subrange(from, s.len() as int))
        } else {
            let j = find_from(s, '%', i + 1);
            if j >= s.len() {
                Err(InfError::InfUnclosedSubstitution)
            } else {
                match spec_substitute(s.subrange(i + 1, j), strings) {
                    None => Err(InfError::InfUnknownSubstitution),
                    Some(value) => match spec_expand_from(s, strings, j + 1) {
                        Err(e) => Err(e),
                        Ok(rest) => Ok(s.subrange(from, i) + value + rest),
                    },
                }
            }
        }
    }
}

#[via_fn]
proof fn spec_expand_from_terminates(s: Seq<char>, strings: SectionMap, from: int) {
    if 0 <= from <= s.len() {
        lemma_find_from(s, '%', from);
        let i = find_from(s, '%', from);
        if i < s.len() {
            lemma_find_from(s, '%', i + 1);
        }
    }
}

/// `s` with every `%key%` replaced. A text with an odd number of percent
/// signs is refused before any key is looked up.
pub open spec fn spec_expand(s: Seq<char>, strings: SectionMap) -> Result<Seq<char>, InfError> {
    if count_from(s, '%', 0) % 2 == 1 {
        Err(InfError::InfUnclosedSubstitution)
    } else {
        spec_expand_from(s, strings, 0)
    }
}

/// The role of the path that stands at `index` in the list of an installer.
pub open spec fn spec_index_to_cursor_type(index: int) -> CursorType {
    if index == 0 {
        CursorType::Arrow
    } else if index == 1 {
        CursorType::Help
    } else if index == 2 {
        CursorType::LeftPtrWatch
    } else if index == 3 {
        CursorType::Watch
    } else if index == 4 {
        CursorType::Crosshair
    } else if index == 5 {
        CursorType::Text
    } else if index == 6 {
        CursorType::Pencil
    } else if index == 7 {
        CursorType::Forbidden
    } else if index == 8 {
        CursorType::NsResize
    } else if index == 9 {
        CursorType::EwResize
    } else if index == 10 {
        CursorType::NwseResize
    } else if index == 11 {
        CursorType::NeswResize
    } else if index == 12 {
        CursorType::Move
    } else if index == 13 {
        CursorType::CenterPtr
    } else {
        CursorType::Hand
    }
}

/// How many paths of an installer have a role: the first fifteen. The two
/// that may follow (pin and person) have no counterpart on X11.
pub const MAPPED_PATHS: usize = 15;

/// The part of a path after its last backslash.
pub open spec fn spec_file_name(path: Seq<char>) -> Seq<char> {
    path.subrange(rfind_before(path, '\\', path.len() as int) + 1, path.len() as int)
}

/// The file name of the path that stands at `i` among the `n` paths `paths`:
/// the last one without the double quote that closes the list.
pub open spec fn spec_path_file(paths: Seq<Seq<char>>, i: int) -> Seq<char> {
    let name = spec_file_name(paths[i]);
    if i == paths.len() - 1 {
        name.drop_last()
    } else {
        name
    }
}

/// Whether the tokens after the fourth are a list of paths: there is one at
/// least, each holds a backslash, and the last ends with a double quote.
pub open spec fn paths_well_formed(paths: Seq<Seq<char>>) -> bool {
    &&& paths.len() >= 1
    &&& forall|i: int|
        0 <= i < paths.len() ==> rfind_before(#[trigger] paths[i], '\\', paths[i].len() as int)
            >= 0
    &&& spec_file_name(paths[paths.len() - 1]).len() >= 1
    &&& spec_file_name(paths[paths.len() - 1]).last() == '"'
}

/// The roles and files of a list of paths.
pub open spec fn spec_mappings(paths: Seq<Seq<char>>) -> Seq<(CursorType, Seq<char>)> {
    Seq::new(
        if paths.len() < MAPPED_PATHS {
            paths.len()
        } else {
            MAPPED_PATHS as nat
        },
        |i: int| (spec_index_to_cursor_type(i), spec_path_file(paths, i)),
    )
}

/// The theme's name and the file of each role, from the expanded key of
/// `Scheme.Reg`. The key is a list separated by commas: `HKCU` in any case, a
/// token that is passed over, the name in double quotes, another token that
/// is passed over, and the paths.
pub open spec fn spec_parse_reg(reg: Seq<char>) -> Result<
    (Seq<char>, Seq<(CursorType, Seq<char>)>),
    InfError,
> {
    let tokens = spec_split(reg, ',');
    if tokens.len() < 5 || !spec_eq_ignore_ascii_case(tokens[0], "hkcu"@) || !is_quoted(tokens[2])
        || !paths_well_formed(tokens.skip(4)) {
        Err(InfError::InfParse)
    } else {
        Ok((spec_dequote(tokens[2]), spec_mappings(tokens.skip(4))))
    }
}

/// Whether a section holds exactly one key.
pub open spec fn has_one_key(section: SectionMap) -> bool {
    exists|k: Seq<char>| section.dom() == set![k]
}

/// The one key of a section that holds exactly one.
pub open spec fn the_key(section: SectionMap) -> Seq<char> {
    choose|k: Seq<char>| section.dom() == set![k]
}

/// Whether the text has a section of the name `name`, whatever the case of
/// its ASCII letters.
pub open spec fn has_section(sections: Map<Seq<char>, SectionMap>, name: Seq<char>) -> bool {
    exists|k: Seq<char>| sections.contains_key(k) && spec_eq_ignore_ascii_case(k, name)
}

/// Whether no two sections of the text have the name `name` in differing
/// case.
pub open spec fn one_section(sections: Map<Seq<char>, SectionMap>, name: Seq<char>) -> bool {
    forall|j: Seq<char>, k: Seq<char>|
        sections.contains_key(j) && sections.contains_key(k) && spec_eq_ignore_ascii_case(j, name)
            && spec_eq_ignore_ascii_case(k, name) ==> j == k
}

/// The section of the name `name`, where there is exactly one.
pub open spec fn the_section(sections: Map<Seq<char>, SectionMap>, name: Seq<char>)
    -> SectionMap {
    sections[choose|k: Seq<char>| sections.contains_key(k) && spec_eq_ignore_ascii_case(k, name)]
}

/// The theme's name and the file of each role, from the sections of an
/// installer; `None` stands for a text that is no INI text.
///
/// The sections `Scheme.Reg` and `Strings` are found whatever the case of
/// their names; two sections whose names differ in case only are refused.
/// Keys are looked up in their very case.
pub open spec fn spec_parse_inf(ini: Option<Map<Seq<char>, SectionMap>>) -> Result<
    (Seq<char>, Seq<(CursorType, Seq<char>)>),
    InfError,
> {
    match ini {
        None => Err(InfError::InfParse),
        Some(sections) => {
            if !has_section(sections, "scheme.reg"@) || !one_section(sections, "scheme.reg"@)
                || !one_section(sections, "strings"@) {
                Err(InfError::InfParse)
            } else {
                let reg = the_section(sections, "scheme.reg"@);
                if !has_one_key(reg) || reg[the_key(reg)] is Some {
                    Err(InfError::InfParse)
                } else {
                    let strings = if has_section(sections, "strings"@) {
                        the_section(sections, "strings"@)
                    } else {
                        Map::empty()
                    };
                    match spec_expand(the_key(reg), strings) {
                        Err(e) => Err(e),
                        Ok(expanded) => spec_parse_reg(expanded),
                    }
                }
            }
        },
    }
}


/// Parses an INI text.
///
/// Calls `Ini::new_cs` and `Ini::read` of `configparser` and lists the
/// sections and entries of the map that comes back, in the order in which
/// the map hands them out. Claimed and not proved: the call fails exactly where
/// [`ini_sections`] is `None`, and the list stands for the map that
/// [`ini_sections`] names.
#[verifier::external_body]
fn read_ini(text: &str) -> (r: Option<Vec<IniSection>>)
    ensures
        r matches Some(sections) ==> ini_sections(text@) == Some(
            ini_map(sections_view(sections@)),
        ),
        r is None ==> ini_sections(text@) is None,
{
    let sections = Ini::new_cs().read(text.to_string()).ok()?;
    Some(
        sections.into_iter().map(
            |(name, entries)|
                IniSection {
                    name,
                    entries: entries.into_iter().map(|(key, value)| IniEntry { key, value }).collect(),
                },
        ).collect(),
    )
}

/// Appends `src` to `out`.
fn extend_chars(out: &mut Vec<char>, src: &[char])
    ensures
        final(out)@ == old(out)@ + src@,
{
    let mut i: usize = 0;
    while i < src.len()
        invariant
            i <= src.len(),
            out@ == old(out)@ + src@.take(i as int),
        decreases src.len() - i,
    {
        out.push(src[i]);
        i += 1;
        assert(out@ =~= old(out)@ + src@.take(i as int));
    }
    assert(src@.take(src.len() as int) =~= src@);
}

/// Finds the first entry with the key `key`.
fn lookup_entry(entries: &[IniEntry], key: &[char]) -> (r: usize)
    ensures
        r == first_key(entries_view(entries@), key@, 0),
        r <= entries.len(),
{
    let mut i: usize = 0;
    while i < entries.len()
        invariant
            i <= entries.len(),
            first_key(entries_view(entries@), key@, i as int) == first_key(
                entries_view(entries@),
                key@,
                0,
            ),
        decreases entries.len() - i,
    {
        let k = chars_of(entries[i].key.as_str());
        if eq_chars(k.as_slice(), key) {
            return i;
        }
        i += 1;
    }
    i
}

/// Finds the section of the name `name`, whatever the case of its ASCII
/// letters: `Ok(None)` where there is none, an error where two sections
/// have the name in differing case.
#[verifier::loop_isolation(false)]
#[verifier::rlimit(40)]
fn find_section(sections: &[IniSection], name: &str) -> (r: Result<Option<usize>, InfError>)
    ensures
        r is Ok <==> one_section(ini_map(sections_view(sections@)), name@),
        r matches Ok(None) ==> !has_section(ini_map(sections_view(sections@)), name@),
        r matches Ok(Some(at)) ==> at < sections.len() && has_section(
            ini_map(sections_view(sections@)),
            name@,
        ) && the_section(ini_map(sections_view(sections@)), name@) == entries_map(
            sections@[at as int]@.1,
        ),
        r matches Err(e) ==> e == InfError::InfParse,
{
    let ghost l = sections_view(sections@);
    let ghost m = ini_map(l);
    let want = chars_of(name);
    let mut first: usize = 0;
    while first < sections.len()
        invariant
            first <= sections.len(),
            forall|i: int| 0 <= i < first ==> !spec_eq_ignore_ascii_case((#[trigger] l[i]).0, name@),
        decreases sections.len() - first,
    {
        let k = chars_of(sections[first].name.as_str());
        if eq_ignore_ascii_case(k.as_slice(), want.as_slice()) {
            break;
        }
        first += 1;
    }
    if first >= sections.len() {
        proof {
            assert forall|k: Seq<char>| m.contains_key(k) implies !spec_eq_ignore_ascii_case(
                k,
                name@,
            ) by {
                lemma_first_key(l, k, 0);
                assert(l[first_key(l, k, 0)].0 == k);
            }
        }
        return Ok(None);
    }
    let found = chars_of(sections[first].name.as_str());
    assert(l[first as int].0 == found@);
    assert(spec_eq_ignore_ascii_case(found@, name@));
    proof {
        lemma_first_key(l, found@, 0);
        let at = first_key(l, found@, 0);
        assert(at == first) by {
            if at < first {
                assert(l[at].0 == found@);
            }
        }
        assert(m.contains_key(found@));
    }
    let mut j: usize = first + 1;
    while j < sections.len()
        invariant
            first < j <= sections.len(),
            forall|i: int|
                first <= i < j && spec_eq_ignore_ascii_case((#[trigger] l[i]).0, name@) ==> l[i].0
                    == found@,
        decreases sections.len() - j,
    {
        let k = chars_of(sections[j].name.as_str());
        if eq_ignore_ascii_case(k.as_slice(), want.as_slice()) && !eq_chars(
            k.as_slice(),
            found.as_slice(),
        ) {
            proof {
                assert(l[j as int].0 == k@);
                lemma_first_key(l, k@, 0);
                assert(m.contains_key(k@));
            }
            return Err(InfError::InfParse);
        }
        j += 1;
    }
    proof {
        assert forall|k: Seq<char>|
            m.contains_key(k) && spec_eq_ignore_ascii_case(k, name@) implies k == found@ by {
            lemma_first_key(l, k, 0);
            let i = first_key(l, k, 0);
            assert(l[i].0 == k);
        }
        let chosen = choose|k: Seq<char>| m.contains_key(k) && spec_eq_ignore_ascii_case(k, name@);
        assert(chosen == found@);
    }
    Ok(Some(first))
}

/// Takes the double quotes off a value that is enclosed in them.
fn dequote_value(v: &[char]) -> (r: Vec<char>)
    ensures
        r@ == spec_dequote(v@),
{
    if v.len() >= 2 && v[0] == '"' && v[v.len() - 1] == '"' {
        copy_chars(v, 1, v.len() - 1)
    } else {
        let all = copy_chars(v, 0, v.len());
        assert(v@.subrange(0, v.len() as int) =~= v@);
        all
    }
}

/// Tells whether `key` is made of digits alone.
fn all_digits(key: &[char]) -> (r: bool)
    ensures
        r == is_digits(key@),
{
    let mut i: usize = 0;
    while i < key.len()
        invariant
            i <= key.len(),
            forall|k: int| 0 <= k < i ==> 48 <= #[trigger] key@[k] as u32 <= 57,
        decreases key.len() - i,
    {
        let code: u32 = key[i] as u32;
        if code < 48 || code > 57 {
            return false;
        }
        i += 1;
    }
    true
}

/// Finds what stands in the place of `%key%`.
fn substitute(key: &[char], subs: &[IniEntry]) -> (r: Option<Vec<char>>)
    ensures
        r matches Some(v) ==> spec_substitute(key@, entries_map(entries_view(subs@))) == Some(v@),
        r is None ==> spec_substitute(key@, entries_map(entries_view(subs@))) is None,
{
    if key.len() == 0 {
        let mut v: Vec<char> = Vec::new();
        v.push('%');
        assert(v@ =~= seq!['%']);
        return Some(v);
    }
    if all_digits(key) {
        let mut v: Vec<char> = Vec::new();
        v.push('%');
        extend_chars(&mut v, key);
        v.push('%');
        assert(v@ =~= seq!['%'] + key@ + seq!['%']);
        return Some(v);
    }
    let at = lookup_entry(subs, key);
    if at >= subs.len() {
        return None;
    }
    match &subs[at].value {
        None => None,
        Some(value) => {
            let chars = chars_of(value.as_str());
            Some(dequote_value(chars.as_slice()))
        },
    }
}

/// Replaces every `%key%` of `value`, with `subs` as the table of values.
#[verifier::rlimit(50)]
fn expand(value: &[char], subs: &[IniEntry]) -> (r: Result<Vec<char>, InfError>)
    ensures
        r matches Ok(v) ==> spec_expand(value@, entries_map(entries_view(subs@))) == Ok::<
            Seq<char>,
            InfError,
        >(v@),
        r matches Err(e) ==> spec_expand(value@, entries_map(entries_view(subs@))) == Err::<
            Seq<char>,
            InfError,
        >(e),
{
    if count_char(value, '%') % 2 == 1 {
        return Err(InfError::InfUnclosedSubstitution);
    }
    let ghost strings = entries_map(entries_view(subs@));
    let ghost whole = spec_expand_from(value@, strings, 0);
    let mut out: Vec<char> = Vec::new();
    let mut from: usize = 0;
    loop
        invariant
            from <= value.len(),
            strings == entries_map(entries_view(subs@)),
            whole == spec_expand(value@, strings),
            whole == match spec_expand_from(value@, strings, from as int) {
                Err(e) => Err(e),
                Ok(rest) => Ok(out@ + rest),
            },
        decreases value.len() - from,
    {
        let i = find_char(value, '%', from);
        let ghost before = out@;
        let piece = copy_chars(value, from, i);
        extend_chars(&mut out, piece.as_slice());
        if i >= value.len() {
            return Ok(out);
        }
        let j = find_char(value, '%', i + 1);
        if j >= value.len() {
            return Err(InfError::InfUnclosedSubstitution);
        }
        let key = copy_chars(value, i + 1, j);
        match substitute(key.as_slice(), subs) {
            None => { return Err(InfError::InfUnknownSubstitution); },
            Some(v) => {
                extend_chars(&mut out, v.as_slice());
                proof {
                    match spec_expand_from(value@, strings, j + 1) {
                        Err(e) => {},
                        Ok(rest) => {
                            assert(out@ + rest =~= before + (value@.subrange(from as int, i as int)
                                + v@ + rest));
                        },
                    }
                }
            },
        }
        from = j + 1;
    }
}

/// Replaces every `%key%` of the key of `Scheme.Reg`, with the section
/// `Strings` as the table of values, if the installer has that section.
fn expand_reg(reg: &[char], subs: Option<&IniSection>) -> (r: Result<Vec<char>, InfError>)
    ensures
        r matches Ok(v) ==> spec_expand(
            reg@,
            match subs {
                Some(section) => entries_map(section@.1),
                None => Map::empty(),
            },
        ) == Ok::<Seq<char>, InfError>(v@),
        r matches Err(e) ==> spec_expand(
            reg@,
            match subs {
                Some(section) => entries_map(section@.1),
                None => Map::empty(),
            },
        ) == Err::<Seq<char>, InfError>(e),
{
    match subs {
        Some(section) => expand(reg, section.entries.as_slice()),
        None => {
            let none: Vec<IniEntry> = Vec::new();
            assert(entries_map(entries_view(none@)) =~= Map::<
                Seq<char>,
                Option<Seq<char>>,
            >::empty());
            expand(reg, none.as_slice())
        },
    }
}

/// The role of the path that stands at `index` in the list of an installer.
pub fn index_to_cursor_type(index: usize) -> (r: CursorType)
    requires
        index < MAPPED_PATHS,
    ensures
        r == spec_index_to_cursor_type(index as int),
{
    if index == 0 {
        CursorType::Arrow
    } else if index == 1 {
        CursorType::Help
    } else if index == 2 {
        CursorType::LeftPtrWatch
    } else if index == 3 {
        CursorType::Watch
    } else if index == 4 {
        CursorType::Crosshair
    } else if index == 5 {
        CursorType::Text
    } else if index == 6 {
        CursorType::Pencil
    } else if index == 7 {
        CursorType::Forbidden
    } else if index == 8 {
        CursorType::NsResize
    } else if index == 9 {
        CursorType::EwResize
    } else if index == 10 {
        CursorType::NwseResize
    } else if index == 11 {
        CursorType::NeswResize
    } else if index == 12 {
        CursorType::Move
    } else if index == 13 {
        CursorType::CenterPtr
    } else {
        CursorType::Hand
    }
}


/// Reads the theme's name and the file of each role from the expanded key of
/// `Scheme.Reg`.
#[verifier::loop_isolation(false)]
#[verifier::rlimit(40)]
fn parse_reg(reg: &[char]) -> (r: Result<(String, Vec<CursorMapping>), InfError>)
    ensures
        r matches Ok((name, mappings)) ==> spec_parse_reg(reg@) == Ok::<
            (Seq<char>, Seq<(CursorType, Seq<char>)>),
            InfError,
        >((name@, mappings_view(mappings@))),
        r matches Err(e) ==> spec_parse_reg(reg@) == Err::<
            (Seq<char>, Seq<(CursorType, Seq<char>)>),
            InfError,
        >(e),
{
    let tokens = split(reg, ',');
    let ghost toks = spec_split(reg@, ',');
    let ghost paths = toks.skip(4);
    assert(forall|i: int| 0 <= i < tokens.len() ==> tokens@[i]@ == #[trigger] toks[i]);
    if tokens.len() < 5 {
        return Err(InfError::InfParse);
    }
    let hkcu = chars_of("hkcu");
    if !eq_ignore_ascii_case(tokens[0].as_slice(), hkcu.as_slice()) {
        return Err(InfError::InfParse);
    }
    let name_token = tokens[2].as_slice();
    if !(name_token.len() >= 2 && name_token[0] == '"' && name_token[name_token.len() - 1]
        == '"') {
        return Err(InfError::InfParse);
    }
    let n: usize = tokens.len() - 4;
    assert(paths.len() == n);
    assert(forall|i: int| 0 <= i < n ==> #[trigger] paths[i] == tokens@[i + 4]@);
    let mut starts: Vec<usize> = Vec::new();
    let mut i: usize = 0;
    while i < n
        invariant
            i <= n,
            starts.len() == i,
            forall|k: int|
                0 <= k < i ==> rfind_before(#[trigger] paths[k], '\\', paths[k].len() as int) >= 0
                    && starts@[k] == rfind_before(paths[k], '\\', paths[k].len() as int) + 1
                    && starts@[k] <= paths[k].len(),
        decreases n - i,
    {
        match rfind_char(tokens[i + 4].as_slice(), '\\') {
            None => {
                assert(rfind_before(paths[i as int], '\\', paths[i as int].len() as int) == -1);
                return Err(InfError::InfParse);
            },
            Some(k) => {
                starts.push(k + 1);
            },
        }
        i += 1;
    }
    let last = tokens[n + 3].as_slice();
    assert(last@ == paths[n - 1]);
    assert(spec_file_name(paths[n - 1]) == last@.subrange(starts@[n - 1] as int, last.len() as int));
    if !(starts[n - 1] < last.len() && last[last.len() - 1] == '"') {
        return Err(InfError::InfParse);
    }
    assert(paths_well_formed(paths));
    let count: usize = if n < MAPPED_PATHS {
        n
    } else {
        MAPPED_PATHS
    };
    let mut mappings: Vec<CursorMapping> = Vec::new();
    let mut j: usize = 0;
    while j < count
        invariant
            j <= count,
            mappings.len() == j,
            forall|k: int|
                0 <= k < j ==> #[trigger] mappings@[k]@ == (
                    spec_index_to_cursor_type(k),
                    spec_path_file(paths, k),
                ),
        decreases count - j,
    {
        let token = tokens[j + 4].as_slice();
        assert(token@ == paths[j as int]);
        let end: usize = if j == n - 1 {
            (token.len() - 1) as usize
        } else {
            token.len()
        };
        let file = copy_chars(token, starts[j], end);
        proof {
            let name = spec_file_name(paths[j as int]);
            assert(name == token@.subrange(starts@[j as int] as int, token.len() as int));
            if j == n - 1 {
                assert(file@ =~= name.drop_last());
            } else {
                assert(file@ =~= name);
            }
        }
        mappings.push(
            CursorMapping { cursor_type: index_to_cursor_type(j), path: string_of(file.as_slice()) },
        );
        j += 1;
    }
    assert(mappings_view(mappings@) =~= spec_mappings(paths));
    let name = dequote_value(name_token);
    Ok((string_of(name.as_slice()), mappings))
}

/// Tells whether the entries stand for a section with exactly one key: there
/// is an entry, and all entries have the key of the first.
#[verifier::loop_isolation(false)]
#[verifier::rlimit(50)]
fn one_key(entries: &[IniEntry]) -> (r: bool)
    ensures
        r == has_one_key(entries_map(entries_view(entries@))),
        r ==> entries.len() >= 1 && the_key(entries_map(entries_view(entries@)))
            == entries@[0].key@,
{
    let ghost l = entries_view(entries@);
    let ghost m = entries_map(l);
    if entries.len() == 0 {
        assert forall|k: Seq<char>| m.dom() != set![k] by {
            assert(set![k].contains(k));
            assert(!m.dom().contains(k));
        }
        return false;
    }
    let first = chars_of(entries[0].key.as_str());
    assert(m.dom().contains(first@)) by {
        assert(l[0].0 == first@);
        assert(first_key(l, first@, 0) == 0);
    }
    let mut i: usize = 1;
    while i < entries.len()
        invariant
            1 <= i <= entries.len(),
            forall|k: int| 0 <= k < i ==> (#[trigger] l[k]).0 == first@,
        decreases entries.len() - i,
    {
        let key = chars_of(entries[i].key.as_str());
        if !eq_chars(key.as_slice(), first.as_slice()) {
            assert(m.dom().contains(key@)) by {
                assert(l[i as int].0 == key@);
                lemma_first_key(l, key@, 0);
            }
            assert forall|k: Seq<char>| m.dom() != set![k] by {
                if m.dom() == set![k] {
                    assert(set![k].contains(first@));
                    assert(set![k].contains(key@));
                }
            }
            return false;
        }
        i += 1;
    }
    proof {
        assert forall|k: Seq<char>| m.dom().contains(k) <==> k == first@ by {
            lemma_first_key(l, k, 0);
        }
        assert(m.dom() =~= set![first@]);
        let chosen = the_key(m);
        assert(set![chosen].contains(first@));
    }
    true
}

/// Reads the theme's name and the file of each role from the sections of an
/// installer. Where two sections have one name in one case, or two entries
/// of a section one key, the first counts.
#[verifier::rlimit(50)]
pub fn parse_inf_sections(sections: &Vec<IniSection>) -> (r: Result<
    (String, Vec<CursorMapping>),
    InfError,
>)
    ensures
        r matches Ok((name, mappings)) ==> spec_parse_inf(Some(ini_map(sections_view(sections@))))
            == Ok::<(Seq<char>, Seq<(CursorType, Seq<char>)>), InfError>(
            (name@, mappings_view(mappings@)),
        ),
        r matches Err(e) ==> spec_parse_inf(Some(ini_map(sections_view(sections@)))) == Err::<
            (Seq<char>, Seq<(CursorType, Seq<char>)>),
            InfError,
        >(e),
{
    let ghost l = sections_view(sections@);
    let ghost ini = ini_map(l);
    let found = find_section(sections.as_slice(), "scheme.reg");
    let strings = find_section(sections.as_slice(), "strings");
    let at = match found {
        Ok(Some(at)) => at,
        _ => { return Err(InfError::InfParse); },
    };
    let subs: Option<&IniSection> = match strings {
        Err(e) => { return Err(e); },
        Ok(Some(strings_at)) => Some(&sections[strings_at]),
        Ok(None) => None,
    };
    let reg = &sections[at];
    if !one_key(reg.entries.as_slice()) {
        return Err(InfError::InfParse);
    }
    let entry = &reg.entries[0];
    assert(entries_map(entries_view(reg.entries@))[entry.key@] == text_view(entry.value)) by {
        let e = entries_view(reg.entries@);
        assert(e[0].0 == entry.key@);
        assert(first_key(e, entry.key@, 0) == 0);
    }
    if entry.value.is_some() {
        return Err(InfError::InfParse);
    }
    let key = chars_of(entry.key.as_str());
    match expand_reg(key.as_slice(), subs) {
        Err(e) => Err(e),
        Ok(expanded) => parse_reg(expanded.as_slice()),
    }
}

/// Reads the theme's name and the file of each role from the text of an
/// installer.
///
/// The text is read as INI text, in which names and keys keep their case.
/// The section `Scheme.Reg` must hold exactly one key and no value for it.
/// In that key every `%name%` is replaced by the value that the section
/// `Strings` gives `name`, in this very case; then the key is read as a
/// list separated by commas. The first fifteen paths get their roles by
/// their place in the list.
pub fn parse_inf_installer(inf_text: &str) -> (r: Result<(String, Vec<CursorMapping>), InfError>)
    ensures
        r matches Ok((name, mappings)) ==> spec_parse_inf(ini_sections(inf_text@)) == Ok::<
            (Seq<char>, Seq<(CursorType, Seq<char>)>),
            InfError,
        >((name@, mappings_view(mappings@))),
        r matches Err(e) ==> spec_parse_inf(ini_sections(inf_text@)) == Err::<
            (Seq<char>, Seq<(CursorType, Seq<char>)>),
            InfError,
        >(e),
{
    match read_ini(inf_text) {
        None => Err(InfError::InfParse),
        Some(sections) => parse_inf_sections(&sections),
    }
}

} // verus!
