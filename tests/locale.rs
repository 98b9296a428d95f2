use morph_test2::locale::{
    find_best_match, locale_tag, normalize_language_code, parse_locale, select_best_locale, LocaleId,
};

fn id(tag: &str) -> LocaleId {
    parse_locale(tag).unwrap()
}

#[test]
fn test_fallback_logic() {
    let available = vec![id("en"), id("nn"), id("nn-Runr")];

    // Test exact match
    let requested = id("nn-Runr");
    assert_eq!(find_best_match(&available, &requested), Some(requested));

    // Test fallback from region to script
    let with_region = id("nn-Runr-NO");
    let expected = id("nn-Runr");
    assert_eq!(find_best_match(&available, &with_region), Some(expected));

    // Test fallback to language only
    let script_only = id("nn-Latn");
    let expected_lang = id("nn");
    assert_eq!(find_best_match(&available, &script_only), Some(expected_lang));

    // Test three-letter language code normalization with script
    let nno_runr = id("nno-Runr");
    let expected_nn_runr = id("nn-Runr");
    assert_eq!(find_best_match(&available, &nno_runr), Some(expected_nn_runr));

    // Test three-letter language code normalization without script
    let nno_only = id("nno");
    let expected_nn = id("nn");
    assert_eq!(find_best_match(&available, &nno_only), Some(expected_nn));
}

#[test]
fn test_locale_parsing() {
    let test_cases = vec![
        ("en", true),
        ("nn", true),
        ("nn-Runr", true),
        ("nn-Runr-NO", true),
        ("123-invalid", false),
    ];
    for (locale_str, should_parse) in test_cases {
        let result = parse_locale(locale_str);
        assert_eq!(result.is_some(), should_parse, "Failed parsing: {}", locale_str);
    }
}

#[test]
fn test_iso639_normalization() {
    assert_eq!(normalize_language_code("nno"), "nn");
    assert_eq!(normalize_language_code("nor"), "no");
    assert_eq!(normalize_language_code("deu"), "de");
    assert_eq!(normalize_language_code("fra"), "fr");

    assert_eq!(normalize_language_code("en"), "en");
    assert_eq!(normalize_language_code("nn"), "nn");
    assert_eq!(normalize_language_code("de"), "de");

    assert_eq!(normalize_language_code("xyz"), "xyz");
}

#[test]
fn locale_tags_and_selection() {
    assert_eq!(locale_tag(&id("nn-runr-no")), "nn-Runr-NO");
    let available = vec![id("nn-Runr"), id("en")];
    let chosen = select_best_locale(&available, &vec![id("de"), id("nno-Runr-NO")]);
    assert_eq!(locale_tag(&chosen), "nn-Runr");
    let fallback = select_best_locale(&available, &vec![id("de")]);
    assert_eq!(locale_tag(&fallback), "en");
    assert_eq!(find_best_match(&available, &id("sv")), None);
}
