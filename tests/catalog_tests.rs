use locale_manager::catalog::{infer_language, list_languages, select_locale_files, sort_names, strip_suffixes, DirEntry};
use locale_manager::error::LocaleError;
use locale_manager::text::{has_suffix, join_path, name_le};

fn file(name: &str) -> DirEntry {
    DirEntry { name: name.to_string(), is_dir: false }
}

fn dir(name: &str) -> DirEntry {
    DirEntry { name: name.to_string(), is_dir: true }
}

#[test]
fn listing_is_sorted_and_keeps_only_json_files() {
    let entries = vec![
        file("fr.default.json"),
        file("readme.md"),
        dir("nested.json"),
        file("en.default.json"),
        file("Zz.json"),
        file("de.JSON"),
        file("de.json.bak"),
    ];
    let r = list_languages("locales", Ok(entries)).unwrap();
    assert_eq!(r, vec!["Zz.json", "en.default.json", "fr.default.json"]);
}

#[test]
fn listing_of_two_locale_files() {
    let entries = vec![file("fr.default.json"), file("en.default.json")];
    assert_eq!(
        list_languages("d", Ok(entries)).unwrap(),
        vec!["en.default.json", "fr.default.json"]
    );
}

#[test]
fn empty_listing_gives_no_languages() {
    assert_eq!(list_languages("d", Ok(vec![])).unwrap(), Vec::<String>::new());
}

#[test]
fn unreadable_directory_is_reported() {
    let r = list_languages("gone", Err("permission denied".to_string()));
    assert_eq!(
        r,
        Err(LocaleError::DirectoryUnreadable {
            dir: "gone".to_string(),
            message: "permission denied".to_string()
        })
    );
}

#[test]
fn duplicates_collapse_in_selection() {
    let entries = vec![file("b.json"), file("a.json"), file("b.json"), file("ab.json"), file("a.json")];
    assert_eq!(select_locale_files(&entries), vec!["a.json", "ab.json", "b.json"]);
}

#[test]
fn sort_matches_str_order() {
    let v: Vec<String> = ["é.json", "e.json", "E.json", "", "ee", "e"].iter().map(|s| s.to_string()).collect();
    let mut expected = v.clone();
    expected.sort();
    assert_eq!(sort_names(v.clone()), expected);
    let mut doubled = v.clone();
    doubled.extend(v);
    assert_eq!(sort_names(doubled), expected);
}

#[test]
fn infer_language_strips_known_suffixes() {
    assert_eq!(infer_language("d", "en.default.json", true), Ok("en".to_string()));
    assert_eq!(infer_language("d", "en.json", true), Ok("en".to_string()));
    assert_eq!(infer_language("d", "EN.schema.json", true), Ok("en".to_string()));
    assert_eq!(infer_language("d", "pt-BR.json", true), Ok("pt-br".to_string()));
}

#[test]
fn infer_language_strips_anywhere_in_the_name() {
    assert_eq!(infer_language("d", "en.default.schema.json", true), Ok("en".to_string()));
    assert_eq!(infer_language("d", "fr.json.default", true), Ok("fr".to_string()));
    assert_eq!(infer_language("d", "EN.schema.default.json", true), Ok("en".to_string()));
    assert_eq!(infer_language("d", "en.json.schema.default", true), Ok("en".to_string()));
    assert_eq!(infer_language("d", "en", true), Ok("en".to_string()));
}

#[test]
fn infer_language_of_missing_file() {
    assert_eq!(
        infer_language("locales", "xx.json", false),
        Err(LocaleError::NotFound("locales/xx.json".to_string()))
    );
}

#[test]
fn strip_suffixes_keeps_case() {
    assert_eq!(strip_suffixes("EN.default.json"), "EN");
    assert_eq!(strip_suffixes("plain"), "plain");
    assert_eq!(strip_suffixes(".json.json"), "");
}

#[test]
fn text_helpers() {
    assert!(has_suffix("a.json", ".json"));
    assert!(!has_suffix("a.JSON", ".json"));
    assert!(!has_suffix("json", ".json"));
    assert!(name_le("a", "b"));
    assert!(name_le("a", "a"));
    assert!(!name_le("b", "a"));
    assert!(name_le("Z", "a"));
    assert!(name_le("ab", "abc"));
    assert_eq!(join_path("dir", "en.json"), "dir/en.json");
}
