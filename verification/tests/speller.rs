use speller::engine::spell;
use speller::errors::SpellerError;
use speller::session::{parse_selection, Session};
use speller::table::{build, LanguageTable, PhoneticMap};

fn pairs(ps: &[(&str, &str)]) -> Vec<(String, String)> {
    ps.iter().map(|(k, v)| (k.to_string(), v.to_string())).collect()
}

fn map_of(ps: &[(&str, &str)]) -> PhoneticMap {
    PhoneticMap::from_pairs(&pairs(ps)).unwrap()
}

fn table_of(langs: &[(&str, &[(&str, &str)])]) -> LanguageTable {
    let config: Vec<(String, Vec<(String, String)>)> =
        langs.iter().map(|(id, ps)| (id.to_string(), pairs(ps))).collect();
    build(&config).unwrap()
}

fn rendered(word: &str, map: &PhoneticMap) -> Vec<(String, String)> {
    spell(word, map)
        .into_iter()
        .map(|e| (e.grapheme, e.phonetic))
        .collect()
}

#[test]
fn spell_known_graphemes() {
    let map = map_of(&[("a", "alpha"), ("b", "bravo")]);
    let out = rendered("ab", &map);
    assert_eq!(
        out,
        vec![
            ("a".to_string(), "Alpha".to_string()),
            ("b".to_string(), "Bravo".to_string()),
        ]
    );
}

#[test]
fn spell_folds_case_and_echoes_unknown() {
    let map = map_of(&[("a", "alpha")]);
    let out = rendered("Ax", &map);
    assert_eq!(
        out,
        vec![
            ("A".to_string(), "Alpha".to_string()),
            ("x".to_string(), "X".to_string()),
        ]
    );
}

#[test]
fn spell_with_empty_map_echoes_capitalized() {
    let map = map_of(&[]);
    let out = rendered("hi", &map);
    assert_eq!(
        out,
        vec![
            ("h".to_string(), "H".to_string()),
            ("i".to_string(), "I".to_string()),
        ]
    );
}

#[test]
fn spell_empty_word_yields_empty_sequence() {
    let map = map_of(&[("a", "alpha")]);
    assert_eq!(rendered("", &map), vec![]);
}

#[test]
fn spell_length_equals_grapheme_count() {
    let map = map_of(&[("a", "alpha")]);
    assert_eq!(spell("hello", &map).len(), 5);
    // A combining acute accent rides its base letter: one cluster, not two.
    assert_eq!(spell("ae\u{301}o", &map).len(), 3);
}

#[test]
fn spell_keeps_combining_marks_with_their_base() {
    let map = map_of(&[]);
    let out = rendered("e\u{301}", &map);
    assert_eq!(out.len(), 1);
    assert_eq!(out[0].0, "e\u{301}");
}

#[test]
fn spell_is_deterministic() {
    let map = map_of(&[("a", "alpha"), ("b", "bravo")]);
    assert_eq!(rendered("aBba x", &map), rendered("aBba x", &map));
}

#[test]
fn spell_whitespace_and_punctuation_are_echoed() {
    let map = map_of(&[("a", "alpha"), ("b", "bravo")]);
    let out = rendered("a b!", &map);
    assert_eq!(
        out,
        vec![
            ("a".to_string(), "Alpha".to_string()),
            (" ".to_string(), " ".to_string()),
            ("b".to_string(), "Bravo".to_string()),
            ("!".to_string(), "!".to_string()),
        ]
    );
}

#[test]
fn spell_empty_phonetic_word_renders_empty() {
    let map = map_of(&[("a", "")]);
    let out = rendered("a", &map);
    assert_eq!(out, vec![("a".to_string(), "".to_string())]);
}

#[test]
fn spell_capitalizes_only_first_cluster() {
    let map = map_of(&[("x", "e\u{301}cho bravo")]);
    let out = rendered("x", &map);
    assert_eq!(
        out,
        vec![("x".to_string(), "E\u{301}cho bravo".to_string())]
    );
}

#[test]
fn from_pairs_rejects_duplicate_keys() {
    let err = PhoneticMap::from_pairs(&pairs(&[("a", "alpha"), ("a", "anton")])).unwrap_err();
    assert!(matches!(err, SpellerError::ConfigurationError));
}

#[test]
fn build_rejects_empty_configuration() {
    let err = build(&vec![]).unwrap_err();
    assert!(matches!(err, SpellerError::ConfigurationError));
}

#[test]
fn build_rejects_duplicate_language_ids() {
    let config = vec![
        ("en".to_string(), pairs(&[("a", "alpha")])),
        ("en".to_string(), pairs(&[("a", "anton")])),
    ];
    let err = build(&config).unwrap_err();
    assert!(matches!(err, SpellerError::ConfigurationError));
}

#[test]
fn language_ids_are_sorted_regardless_of_input_order() {
    let table = table_of(&[
        ("fr", &[("a", "anatole")]),
        ("de", &[("a", "anton")]),
        ("en", &[("a", "alpha")]),
    ]);
    let ids = table.list_language_ids();
    assert_eq!(ids, vec!["de".to_string(), "en".to_string(), "fr".to_string()]);
}

#[test]
fn lookup_language_finds_present_and_misses_absent() {
    let table = table_of(&[("en", &[("a", "alpha")]), ("de", &[("a", "anton")])]);
    let en = table.lookup_language(&"en".to_string());
    assert!(en.is_some());
    assert_eq!(rendered("a", en.unwrap())[0].1, "Alpha");
    assert!(table.lookup_language(&"xx".to_string()).is_none());
}

#[test]
fn absent_language_is_reported_not_crashed() {
    let table = table_of(&[("de", &[("a", "anton")])]);
    let session = Session::new();
    let err = session.spell_current(&table, "abc").unwrap_err();
    assert!(matches!(err, SpellerError::LanguageNotFound));
}

#[test]
fn spell_current_uses_selected_language() {
    let table = table_of(&[("en", &[("a", "alpha")]), ("de", &[("a", "anton")])]);
    let session = Session::new();
    let out = session.spell_current(&table, "a").unwrap();
    assert_eq!(out[0].phonetic, "Alpha");
}

#[test]
fn selection_menu_rejects_out_of_range_then_accepts() {
    let table = table_of(&[
        ("fr", &[("a", "anatole")]),
        ("de", &[("a", "anton")]),
        ("en", &[("a", "alpha")]),
    ]);
    let mut session = Session::new();
    let err = session.select_language(&table, "4").unwrap_err();
    assert!(matches!(err, SpellerError::InvalidSelection));
    assert_eq!(session.current, "en");
    let chosen = session.select_language(&table, "2").unwrap();
    assert_eq!(chosen, "en");
    assert_eq!(session.current, "en");
    let chosen = session.select_language(&table, "3").unwrap();
    assert_eq!(chosen, "fr");
    assert_eq!(session.current, "fr");
    let chosen = session.select_language(&table, "+1").unwrap();
    assert_eq!(chosen, "de");
    assert_eq!(session.current, "de");
}

#[test]
fn parse_selection_accepts_a_leading_plus_sign() {
    assert_eq!(parse_selection("+2", 3).unwrap(), 2);
    assert_eq!(parse_selection("+3", 3).unwrap(), 3);
    assert!(matches!(
        parse_selection("+", 3).unwrap_err(),
        SpellerError::InvalidSelection
    ));
    assert!(matches!(
        parse_selection("++2", 3).unwrap_err(),
        SpellerError::InvalidSelection
    ));
    assert!(matches!(
        parse_selection("+0", 3).unwrap_err(),
        SpellerError::InvalidSelection
    ));
    assert!(matches!(
        parse_selection("2+", 3).unwrap_err(),
        SpellerError::InvalidSelection
    ));
    assert!(matches!(
        parse_selection("-2", 3).unwrap_err(),
        SpellerError::InvalidSelection
    ));
}

#[test]
fn parse_selection_accepts_only_in_range_numbers() {
    assert_eq!(parse_selection("1", 3).unwrap(), 1);
    assert_eq!(parse_selection("3", 3).unwrap(), 3);
    assert!(matches!(
        parse_selection("0", 3).unwrap_err(),
        SpellerError::InvalidSelection
    ));
    assert!(matches!(
        parse_selection("4", 3).unwrap_err(),
        SpellerError::InvalidSelection
    ));
    assert!(matches!(
        parse_selection("", 3).unwrap_err(),
        SpellerError::InvalidSelection
    ));
    assert!(matches!(
        parse_selection("two", 3).unwrap_err(),
        SpellerError::InvalidSelection
    ));
    assert!(matches!(
        parse_selection("1x", 3).unwrap_err(),
        SpellerError::InvalidSelection
    ));
    assert!(matches!(
        parse_selection("99999999999999999999999999", 3).unwrap_err(),
        SpellerError::InvalidSelection
    ));
}

#[test]
fn error_messages_name_their_condition() {
    assert!(SpellerError::ConfigurationError.message().starts_with("Configuration error"));
    assert_eq!(SpellerError::LanguageNotFound.message(), "Language not found");
    assert!(SpellerError::InvalidSelection.message().starts_with("Invalid selection"));
}
