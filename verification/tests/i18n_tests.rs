use br::i18n::{en, pt_br, tr, Key};

#[test]
fn falls_back_to_english_for_unknown_language() {
    assert_eq!(tr(Key::Save, "fr"), "Save");
}

#[test]
fn translates_pt_br() {
    assert_eq!(tr(Key::Save, "pt-BR"), "Salvar");
    assert_eq!(tr(Key::Save, "pt"), "Salvar");
}

#[test]
fn language_matching_is_case_insensitive() {
    assert_eq!(tr(Key::TabGeneral, "PT-br"), "Geral");
}

#[test]
fn every_key_has_both_wordings() {
    let keys = [
        Key::SettingsTitle,
        Key::TabGeneral,
        Key::TabBrowsers,
        Key::TabFilters,
        Key::TabRules,
        Key::Save,
        Key::DiscoverBrowsers,
        Key::RegisterDefaultBrowser,
        Key::StartOnLogin,
        Key::OnboardingWelcomeTitle,
        Key::OnboardingWelcomeBody,
        Key::OnboardingFinish,
        Key::PickerOpenWith,
        Key::PickerHelp,
    ];
    for k in keys {
        assert_eq!(tr(k, "en"), en(k));
        assert_eq!(tr(k, "de"), en(k));
        assert_eq!(tr(k, "PT"), pt_br(k));
        assert!(!en(k).is_empty());
        assert!(!pt_br(k).is_empty());
    }
    assert_eq!(en(Key::PickerOpenWith), "Open:");
    assert_eq!(pt_br(Key::TabRules), "Regras");
}
