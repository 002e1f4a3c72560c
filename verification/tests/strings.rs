use std::collections::HashMap;
use stella_app::strings::{locale_plan, parse, quoted, skip_space, Strings};

#[test]
fn strings_preserve_unicode_escapes_and_comment_boundaries() {
    let strings: HashMap<String, String> = parse(
        r#"/* quoted " ignored */ "email" = "邮件";
            // another "ignored"
            "message" = "first\n\"second\""; "slash" = "https://example/";"#,
    )
    .into_iter()
    .collect();
    assert_eq!(strings["email"], "邮件");
    assert_eq!(strings["message"], "first\n\"second\"");
    assert_eq!(strings["slash"], "https://example/");
}

#[test]
fn parsing_stops_at_the_first_malformed_entry_and_keeps_earlier_ones() {
    let pairs = parse("\u{feff}\"a\" = \"1\";\n\"b\" \"2\"; \"c\" = \"3\";");
    assert_eq!(pairs, vec![("a".to_owned(), "1".to_owned())]);
    let pairs = parse("\"a\" = \"1\"");
    assert_eq!(pairs, vec![("a".to_owned(), "1".to_owned())]);
    assert!(parse("\"unterminated = \"x\";").is_empty());
    assert!(parse("\"a\" = \"\\").is_empty());
}

#[test]
fn later_entries_replace_earlier_ones() {
    let strings = Strings::from_lproj("\"k\" = \"old\"; \"k\" = \"new\";", "ru");
    assert_eq!(strings.get("k", "fallback"), "new");
    assert_eq!(strings.get("missing", "fallback"), "fallback");
    assert!(strings.is_russian());
    assert!(!Strings::from_lproj("", "de").is_russian());
    assert!(!Strings::default().is_russian());
    assert_eq!(Strings::default().get("k", "English"), "English");
}

#[test]
fn tokens_skip_spaces_comments_and_escapes() {
    let chars: Vec<char> = " \t/* a */ // b\n\"x\\ty\"".chars().collect();
    let start = skip_space(&chars, 0);
    assert_eq!(chars[start], '"');
    assert_eq!(quoted(&chars, start), Some(("x\ty".to_owned(), chars.len())));
    assert_eq!(quoted(&chars, 0), None);
    let open: Vec<char> = "/* never closed".chars().collect();
    assert_eq!(skip_space(&open, 0), open.len());
    let slash: Vec<char> = "/x".chars().collect();
    assert_eq!(skip_space(&slash, 0), 0);
}

#[test]
fn locale_plan_maps_languages_to_lproj_tables() {
    assert_eq!(locale_plan(&["zh_CN".to_owned()]), vec!["zh-Hans", "zh"]);
    assert_eq!(locale_plan(&["zh-TW".to_owned()]), vec!["zh-Hant", "zh"]);
    assert_eq!(locale_plan(&["zh_Hant_HK.UTF-8".to_owned()]), vec!["zh-Hant", "zh"]);
    assert_eq!(locale_plan(&["en-US".to_owned(), "zh-CN".to_owned()]), vec!["en-US"]);
    assert_eq!(locale_plan(&["de_DE@euro".to_owned()]), vec!["de-DE", "de"]);
    assert_eq!(locale_plan(&["ru".to_owned()]), vec!["ru", "ru"]);
    // The text before the first dot is empty: only the empty table name is
    // tried, which stays inside the bundle's data directory.
    assert_eq!(
        locale_plan(&["../../etc".to_owned(), "fr".to_owned()]),
        vec!["", "", "fr", "fr"]
    );
    assert_eq!(locale_plan(&["x/y".to_owned()]), vec!["x/y"; 0]);
    assert!(locale_plan(&["en".to_owned(), "fr".to_owned()]).is_empty());
    assert!(locale_plan(&[]).is_empty());
}
