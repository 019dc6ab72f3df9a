use simple_localization::catalog::{tr, trl, Catalog, Condition};

fn resource_text() -> String {
    let mut s = String::new();
    s.push_str("\"Hello\" => \"Merhaba\"\n");
    s.push_str("\"How are you?\" => \"Nasılsın?\"\n");
    s.push_str("\"This is a long text\" => \"Bu uzun bir yazı\"\n\n");
    s.push_str(
        r##"#"This is a multiline text.

You can write anything you want here.

Don't need to use \n.

The translation of this is next the quoted text."#
=>
#"Bu bir çok satırlı yazı.

Buraya istediğin her şeyi yazabilirsin.

\n kullanman gerekmez.

Bu yazının çevirisi bir sonraki tırnak içindeki yazıdır."#"##,
    );
    s
}

fn catalog() -> Catalog {
    let resources = vec![("tr_TR".to_string(), resource_text())];
    Catalog::new(&resources)
}

#[test]
fn single_word() {
    let cat = catalog();
    assert_eq!(tr(&cat, "Hello", Some("tr_TR.UTF-8")), "Merhaba");
}

#[test]
fn long_sentence() {
    let cat = catalog();
    assert_eq!(tr(&cat, "How are you?", Some("tr_TR.UTF-8")), "Nasılsın?");
    assert_eq!(tr(&cat, "This is a long text", Some("tr_TR.UTF-8")), "Bu uzun bir yazı");
}

#[test]
fn multi_line() {
    let cat = catalog();
    assert_eq!(
        tr(
            &cat,
            r#"This is a multiline text.

You can write anything you want here.

Don't need to use \n.

The translation of this is next the quoted text."#,
            Some("tr_TR.UTF-8"),
        ),
        r#"Bu bir çok satırlı yazı.

Buraya istediğin her şeyi yazabilirsin.

\n kullanman gerekmez.

Bu yazının çevirisi bir sonraki tırnak içindeki yazıdır."#
    );
}

#[test]
fn lib_single_word() {
    let cat = catalog();
    assert_eq!(trl(&cat, "Hello", "tr_TR"), "Merhaba");
}

#[test]
fn lib_long_sentence() {
    let cat = catalog();
    assert_eq!(trl(&cat, "How are you?", "tr_TR"), "Nasılsın?");
    assert_eq!(trl(&cat, "This is a long text", "tr_TR"), "Bu uzun bir yazı");
}

#[test]
fn lib_multi_line() {
    let cat = catalog();
    assert_eq!(
        trl(
            &cat,
            r#"This is a multiline text.

You can write anything you want here.

Don't need to use \n.

The translation of this is next the quoted text."#,
            "tr_TR",
        ),
        r#"Bu bir çok satırlı yazı.

Buraya istediğin her şeyi yazabilirsin.

\n kullanman gerekmez.

Bu yazının çevirisi bir sonraki tırnak içindeki yazıdır."#
    );
}

#[test]
fn locale_absent_falls_back() {
    let cat = catalog();
    assert_eq!(trl(&cat, "Hello", "fr_FR"), "Hello");
    let (text, condition) = cat.lookup("Hello", "fr_FR");
    assert_eq!(text, "Hello");
    match condition {
        Some(Condition::LocaleNotFound { locale_key }) => assert_eq!(locale_key, "fr_FR"),
        other => panic!("unexpected condition: {:?}", other),
    }
}

#[test]
fn phrase_absent_falls_back() {
    let cat = catalog();
    assert_eq!(trl(&cat, "Goodbye", "tr_TR"), "Goodbye");
    let (text, condition) = cat.lookup("Goodbye", "tr_TR");
    assert_eq!(text, "Goodbye");
    match condition {
        Some(Condition::PhraseNotFound { text, locale_key }) => {
            assert_eq!(text, "Goodbye");
            assert_eq!(locale_key, "tr_TR");
        }
        other => panic!("unexpected condition: {:?}", other),
    }
}

#[test]
fn indicator_absent_falls_back() {
    let cat = catalog();
    assert_eq!(tr(&cat, "Hello", None), "Hello");
    let (text, condition) = cat.lookup_by_indicator("Hello", None);
    assert_eq!(text, "Hello");
    assert!(matches!(condition, Some(Condition::EnvironmentIndicatorMissing)));
}

#[test]
fn malformed_indicator_falls_back() {
    let cat = catalog();
    assert_eq!(tr(&cat, "Hello", Some(".UTF-8")), "Hello");
    let (text, condition) = cat.lookup_by_indicator("Hello", Some(".UTF-8"));
    assert_eq!(text, "Hello");
    match condition {
        Some(Condition::MalformedEnvironmentIndicator { raw }) => assert_eq!(raw, ".UTF-8"),
        other => panic!("unexpected condition: {:?}", other),
    }
}

#[test]
fn indicator_matches_plain_lookup() {
    let cat = catalog();
    for text in ["Hello", "How are you?", "Goodbye"] {
        assert_eq!(tr(&cat, text, Some("tr_TR.UTF-8")), trl(&cat, text, "tr_TR"));
    }
    assert_eq!(tr(&cat, "Hello", Some("tr_TR")), trl(&cat, "Hello", "tr_TR"));
}

#[test]
fn hit_yields_no_condition() {
    let cat = catalog();
    let (text, condition) = cat.lookup("Hello", "tr_TR");
    assert_eq!(text, "Merhaba");
    assert!(condition.is_none());
}

#[test]
fn later_resource_wins_on_duplicate_name() {
    let resources = vec![
        ("tr_TR".to_string(), "\"Hello\" => \"first\"".to_string()),
        ("tr_TR".to_string(), "\"Hello\" => \"second\"".to_string()),
    ];
    let cat = Catalog::new(&resources);
    assert_eq!(trl(&cat, "Hello", "tr_TR"), "second");
}

#[test]
fn empty_text_falls_back_like_any_phrase() {
    let cat = catalog();
    assert_eq!(trl(&cat, "", "tr_TR"), "");
}
