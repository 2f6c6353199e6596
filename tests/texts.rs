use asset_proxy::i18n::{
    i18n_value_for_language_and_key, i18n_value_for_language_id_and_key, language, Language,
    Languages,
};

fn lang(pairs: &[(&str, &str)]) -> Language {
    Language { texts: pairs.iter().map(|(k, v)| (k.to_string(), v.to_string())).collect() }
}

fn languages() -> Languages {
    Languages {
        languages: vec![
            ("de-DE".to_string(), lang(&[("name", "Deutsch"), ("play", "Spielen")])),
            ("en-US".to_string(), lang(&[("name", "English"), ("play", "Play")])),
        ],
    }
}

#[test]
fn picks_the_requested_language() {
    let ls = languages();
    let de = language(&ls, &"de-DE".to_string());
    assert_eq!(de.texts[0].1, "Deutsch");
}

#[test]
fn falls_back_to_the_default_language() {
    let ls = languages();
    let fallback = language(&ls, &"fr-FR".to_string());
    assert_eq!(fallback.texts[0].1, "English");
}

#[test]
fn looks_up_texts() {
    let ls = languages();
    assert_eq!(
        i18n_value_for_language_id_and_key(&ls, &"de-DE".to_string(), &"play".to_string()),
        "Spielen"
    );
    assert_eq!(
        i18n_value_for_language_id_and_key(&ls, &"xx".to_string(), &"play".to_string()),
        "Play"
    );
    let en = lang(&[("name", "English"), ("name", "Other")]);
    assert_eq!(
        i18n_value_for_language_and_key(&en, &"en-US".to_string(), &"name".to_string()),
        "English"
    );
}
