use simple_localization::parser::create_translation_hashmap;

#[test]
fn non_greedy_single_line() {
    let mapping = create_translation_hashmap(r#""A" => "B" "C" => "D""#);
    assert_eq!(mapping.get("A"), Some("B".to_string()));
    assert_eq!(mapping.get("C"), Some("D".to_string()));
    assert_eq!(mapping.get(r#"A" => "B" "C"#), None);
}

#[test]
fn parse_is_deterministic() {
    let text = r##""Hello" => "Merhaba"
#"a
b"# => #"c
d"#"##;
    let first = create_translation_hashmap(text);
    let second = create_translation_hashmap(text);
    for source in ["Hello", "a\nb", "missing"] {
        assert_eq!(first.get(source), second.get(source));
    }
}

#[test]
fn multiline_literal_backslash_n() {
    let mapping = create_translation_hashmap(r##"#"a\nb"# => #"c"#"##);
    assert_eq!(mapping.get("a\\nb"), Some("c".to_string()));
    assert_eq!(mapping.get("a\nb"), None);
}

#[test]
fn multiline_five_line_blocks() {
    let mapping = create_translation_hashmap(
        r##"#"L one
L two
L three
L four
L five"# => #"T one
T two
T three
T four
T five"#"##,
    );
    assert_eq!(
        mapping.get("L one\nL two\nL three\nL four\nL five"),
        Some("T one\nT two\nT three\nT four\nT five".to_string())
    );
}

#[test]
fn empty_translation_stored() {
    let mapping = create_translation_hashmap(r#""X" => """#);
    assert_eq!(mapping.get("X"), Some(String::new()));
}

#[test]
fn unmatched_text_skipped() {
    let mapping = create_translation_hashmap("no entries here => nothing quoted\n# stray hash \"lonely");
    assert_eq!(mapping.get("no entries here"), None);
    assert_eq!(mapping.get("lonely"), None);
}

#[test]
fn later_entry_wins() {
    let mapping = create_translation_hashmap(r#""A" => "B" "A" => "C""#);
    assert_eq!(mapping.get("A"), Some("C".to_string()));
    let mixed = create_translation_hashmap(r##""A" => "B" #"A"# => #"M"#"##);
    assert_eq!(mixed.get("A"), Some("M".to_string()));
}

#[test]
fn entry_forms_interleave() {
    let mapping = create_translation_hashmap(
        r##"#"first
block"# => #"ilk
blok"#
"greeting" => "selam"
"##,
    );
    assert_eq!(mapping.get("first\nblock"), Some("ilk\nblok".to_string()));
    assert_eq!(mapping.get("greeting"), Some("selam".to_string()));
}

#[test]
fn empty_resource_yields_empty_mapping() {
    let mapping = create_translation_hashmap("");
    assert_eq!(mapping.get(""), None);
    assert_eq!(mapping.get("Hello"), None);
}
