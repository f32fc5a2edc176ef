use currust::cli::{Args, ArgsError, ParsedArgs, PathKind};
use currust::fs_utils::{extension_of, find_extensions_icase, find_icase, DirEntry, FindError};
use currust::text::{chars_of, eq_ignore_ascii_case, split, string_of};

fn entry(name: &str, is_file: bool) -> DirEntry {
    DirEntry { name: name.to_string(), is_file }
}

fn extension(name: &str) -> Option<String> {
    let chars: Vec<char> = name.chars().collect();
    extension_of(&chars).map(|e| e.into_iter().collect())
}

#[test]
fn exact_name_wins() {
    let entries = vec![entry("A.cur", true), entry("a.cur", true)];
    assert_eq!(find_icase(&entries, "a.cur"), Ok(Some(1)));
    assert_eq!(find_icase(&entries, "A.cur"), Ok(Some(0)));
}

#[test]
fn exact_name_of_a_directory_is_an_error() {
    let entries = vec![entry("a.cur", false), entry("A.CUR", true)];
    assert_eq!(find_icase(&entries, "a.cur"), Err(FindError::NotAFile));
}

#[test]
fn other_case_is_found() {
    let entries = vec![entry("readme", true), entry("Precision.CUR", true)];
    assert_eq!(find_icase(&entries, "precision.cur"), Ok(Some(1)));
}

#[test]
fn directories_do_not_match_in_other_case() {
    let entries = vec![entry("Precision.CUR", false)];
    assert_eq!(find_icase(&entries, "precision.cur"), Ok(None));
}

#[test]
fn several_candidates_are_an_error() {
    let entries = vec![entry("A.Cur", true), entry("x", true), entry("a.CUR", true)];
    assert_eq!(find_icase(&entries, "a.cur"), Err(FindError::Ambiguous));
}

#[test]
fn missing_file_is_none() {
    assert_eq!(find_icase(&[], "a.cur"), Ok(None));
    assert_eq!(find_icase(&[entry("b.cur", true)], "a.cur"), Ok(None));
}

#[test]
fn only_ascii_letters_are_folded() {
    let entries = vec![entry("É.cur", true)];
    assert_eq!(find_icase(&entries, "é.cur"), Ok(None));
}

#[test]
fn extension_follows_the_last_dot() {
    assert_eq!(extension("a.cur"), Some("cur".to_string()));
    assert_eq!(extension("a.b.Ani"), Some("Ani".to_string()));
    assert_eq!(extension("a."), Some("".to_string()));
    assert_eq!(extension("a"), None);
    assert_eq!(extension(".hidden"), None);
    assert_eq!(extension(".hidden.txt"), Some("txt".to_string()));
    assert_eq!(extension(".."), None);
    assert_eq!(extension(""), None);
}

#[test]
fn files_are_found_by_extension() {
    let entries = vec![
        entry("a.INF", true),
        entry("b.cur", true),
        entry("c.inf", false),
        entry("d.Inf", true),
        entry("inf", true),
        entry(".inf", true),
        entry("e.ani", true),
    ];
    assert_eq!(find_extensions_icase(&entries, &["inf"]), vec![0, 3]);
    assert_eq!(find_extensions_icase(&entries, &["CUR", "ani"]), vec![1, 6]);
    assert!(find_extensions_icase(&entries, &[]).is_empty());
    assert!(find_extensions_icase(&[], &["inf"]).is_empty());
}

#[test]
fn text_is_split_at_every_separator() {
    let chars: Vec<char> = "a,,bc,".chars().collect();
    let pieces: Vec<String> = split(&chars, ',').iter().map(|p| p.iter().collect()).collect();
    assert_eq!(pieces, vec!["a", "", "bc", ""]);
    let pieces = split(&[], ',');
    assert_eq!(pieces, vec![Vec::<char>::new()]);
}

#[test]
fn text_goes_to_characters_and_back() {
    assert_eq!(chars_of("héllo"), vec!['h', 'é', 'l', 'l', 'o']);
    assert_eq!(string_of(&['h', 'é', 'y']), "héy");
    assert_eq!(string_of(&[]), "");
}

#[test]
fn case_of_ascii_letters_is_ignored() {
    let a: Vec<char> = "HkCu".chars().collect();
    let b: Vec<char> = "hKcU".chars().collect();
    let c: Vec<char> = "hkc".chars().collect();
    let d: Vec<char> = "h[cu".chars().collect();
    let e: Vec<char> = "h{cu".chars().collect();
    assert!(eq_ignore_ascii_case(&a, &b));
    assert!(!eq_ignore_ascii_case(&a, &c));
    assert!(!eq_ignore_ascii_case(&d, &e));
}

#[test]
fn file_with_cursor_extension_is_taken() {
    let kind = PathKind::File { name: "a.cur".to_string() };
    assert_eq!(
        ParsedArgs::validate_cur_path("/x/a.cur", &kind),
        Ok(vec!["/x/a.cur".to_string()])
    );
    let kind = PathKind::File { name: "a.ani".to_string() };
    assert_eq!(
        ParsedArgs::validate_cur_path("a.ani", &kind),
        Ok(vec!["a.ani".to_string()])
    );
}

#[test]
fn file_with_another_extension_is_refused() {
    let kind = PathKind::File { name: "a.png".to_string() };
    assert_eq!(
        ParsedArgs::validate_cur_path("a.png", &kind),
        Err(ArgsError::NotACursorFile)
    );
    let kind = PathKind::File { name: "a.CUR".to_string() };
    assert_eq!(
        ParsedArgs::validate_cur_path("a.CUR", &kind),
        Err(ArgsError::NotACursorFile)
    );
}

#[test]
fn directory_gives_its_cursor_files() {
    let entries = vec![
        entry("a.cur", true),
        entry("b.ani", true),
        entry("c.cur", true),
        entry("d.txt", true),
    ];
    assert_eq!(ParsedArgs::extract_curs(&entries), vec!["a.cur", "c.cur"]);
    let kind = PathKind::Dir { entries };
    assert_eq!(
        ParsedArgs::validate_cur_path("dir", &kind),
        Ok(vec!["a.cur".to_string(), "c.cur".to_string()])
    );
}

#[test]
fn directory_without_cursor_files_is_refused() {
    let kind = PathKind::Dir { entries: vec![entry("b.ani", true)] };
    assert_eq!(
        ParsedArgs::validate_cur_path("dir", &kind),
        Err(ArgsError::NoCursorFiles)
    );
}

#[test]
fn other_things_are_refused() {
    assert_eq!(
        ParsedArgs::validate_cur_path("/dev/null", &PathKind::Other),
        Err(ArgsError::NotFileOrDir)
    );
}

#[test]
fn arguments_are_worked_out() {
    let args = Args { path: "a.cur".to_string(), out: "./out".to_string() };
    let kind = PathKind::File { name: "a.cur".to_string() };
    assert_eq!(
        ParsedArgs::from_args(&args, &kind),
        Ok(ParsedArgs { cur_paths: vec!["a.cur".to_string()], out: "./out".to_string() })
    );
    assert_eq!(
        ParsedArgs::from_args(&args, &PathKind::Other),
        Err(ArgsError::NotFileOrDir)
    );
}
