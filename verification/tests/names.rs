use page_context::names::{data_key, extension, file_stem, find_dividing_dot, Format};

#[test]
fn json_and_text_files_are_recognised() {
    assert_eq!(data_key("a.json"), Some(("a".to_string(), Format::Json)));
    assert_eq!(data_key("notes.txt"), Some(("notes".to_string(), Format::Text)));
}

#[test]
fn other_extensions_are_passed_over() {
    assert_eq!(data_key("c.csv"), None);
    assert_eq!(data_key("page.html"), None);
    assert_eq!(data_key("a.jsonx"), None);
    assert_eq!(data_key("a.tx"), None);
    assert_eq!(data_key("a.txtt"), None);
}

#[test]
fn extensions_are_compared_letter_for_letter() {
    assert_eq!(data_key("a.JSON"), None);
    assert_eq!(data_key("a.Txt"), None);
}

#[test]
fn only_the_last_dot_divides() {
    assert_eq!(data_key("a.b.json"), Some(("a.b".to_string(), Format::Json)));
    assert_eq!(data_key("a.json.txt"), Some(("a.json".to_string(), Format::Text)));
    assert_eq!(data_key("a.txt.bak"), None);
    assert_eq!(file_stem("archive.tar.gz"), "archive.tar");
    assert_eq!(extension("archive.tar.gz"), Some("gz".to_string()));
}

#[test]
fn names_without_extension_are_passed_over() {
    assert_eq!(data_key("json"), None);
    assert_eq!(data_key("README"), None);
    assert_eq!(data_key(""), None);
    assert_eq!(extension("README"), None);
    assert_eq!(file_stem("README"), "README");
    assert_eq!(file_stem(""), "");
}

#[test]
fn a_leading_dot_does_not_divide() {
    assert_eq!(data_key(".json"), None);
    assert_eq!(data_key(".txt"), None);
    assert_eq!(extension(".json"), None);
    assert_eq!(file_stem(".json"), ".json");
    assert_eq!(find_dividing_dot(".json"), None);
    assert_eq!(data_key(".hidden.txt"), Some((".hidden".to_string(), Format::Text)));
}

#[test]
fn a_trailing_dot_gives_an_empty_extension() {
    assert_eq!(extension("a."), Some(String::new()));
    assert_eq!(file_stem("a."), "a");
    assert_eq!(data_key("a."), None);
}

#[test]
fn the_parent_name_has_no_extension() {
    assert_eq!(extension(".."), None);
    assert_eq!(file_stem(".."), "..");
    assert_eq!(find_dividing_dot(".."), None);
    assert_eq!(extension("..."), Some(String::new()));
    assert_eq!(file_stem("..."), "..");
}

#[test]
fn the_dividing_dot_is_counted_in_characters() {
    assert_eq!(find_dividing_dot("a.json"), Some(1));
    assert_eq!(find_dividing_dot("a.b.c"), Some(3));
    assert_eq!(find_dividing_dot("füße.txt"), Some(4));
    assert_eq!(data_key("füße.txt"), Some(("füße".to_string(), Format::Text)));
    assert_eq!(data_key("日本語.json"), Some(("日本語".to_string(), Format::Json)));
}

#[test]
fn stem_and_extension_agree_with_std_paths() {
    let names = [
        "a.json", "a.b.json", ".json", "json", "a.", "..", "...", ".a.b", "x.txt", "", ".", "a..b",
    ];
    for name in names {
        let path = std::path::Path::new(name);
        let expected = path.extension().map(|e| e.to_string_lossy().to_string());
        if path.file_name().is_some() {
            assert_eq!(extension(name), expected, "extension of {:?}", name);
            let stem = path.file_stem().map(|s| s.to_string_lossy().to_string());
            assert_eq!(Some(file_stem(name)), stem, "stem of {:?}", name);
        }
    }
}
