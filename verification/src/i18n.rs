//! Minimal localization for UI strings: English and Brazilian Portuguese,
//! selected by the configured language, with English as the fallback.
use vstd::prelude::*;

use crate::text::{eq_ignore_ascii_case, eq_ignore_case};

verus! {

/// A UI string identifier, translated by [`tr`].
#[derive(Debug, Clone, Copy, PartialEq, Eq)]
pub enum Key {
    SettingsTitle,
    TabGeneral,
    TabBrowsers,
    TabFilters,
    TabRules,
    Save,
    DiscoverBrowsers,
    RegisterDefaultBrowser,
    StartOnLogin,
    OnboardingWelcomeTitle,
    OnboardingWelcomeBody,
    OnboardingFinish,
    PickerOpenWith,
    PickerHelp,
}

/// The language selects the Portuguese table: `"pt-BR"` or `"pt"`, in any ASCII case.
pub open spec fn is_portuguese(language: Seq<char>) -> bool {
    eq_ignore_ascii_case(language, "pt-BR"@) || eq_ignore_ascii_case(language, "pt"@)
}

/// The English text of `key`.
pub open spec fn spec_en(key: Key) -> Seq<char> {
    match key {
        Key::SettingsTitle => "br — Settings"@,
        Key::TabGeneral => "General"@,
        Key::TabBrowsers => "Browsers"@,
        Key::TabFilters => "Filters"@,
        Key::TabRules => "Rules"@,
        Key::Save => "Save"@,
        Key::DiscoverBrowsers => "Discover browsers"@,
        Key::RegisterDefaultBrowser => "Register as default browser"@,
        Key::StartOnLogin => "Start on login (runs br-daemon)"@,
        Key::OnboardingWelcomeTitle => "Welcome to br"@,
        Key::OnboardingWelcomeBody => "br routes links to the right browser/profile based on rules you define."@,
        Key::OnboardingFinish => "Finish and open settings"@,
        Key::PickerOpenWith => "Open:"@,
        Key::PickerHelp => "Up/Down + Enter, or 1-9 to choose. Hold Shift for private mode. Esc to cancel."@,
    }
}

/// The Brazilian Portuguese text of `key`.
pub open spec fn spec_pt_br(key: Key) -> Seq<char> {
    match key {
        Key::SettingsTitle => "br — Configurações"@,
        Key::TabGeneral => "Geral"@,
        Key::TabBrowsers => "Navegadores"@,
        Key::TabFilters => "Filtros"@,
        Key::TabRules => "Regras"@,
        Key::Save => "Salvar"@,
        Key::DiscoverBrowsers => "Detectar navegadores"@,
        Key::RegisterDefaultBrowser => "Definir como navegador padrão"@,
        Key::StartOnLogin => "Iniciar com o sistema (executa br-daemon)"@,
        Key::OnboardingWelcomeTitle => "Bem-vindo ao br"@,
        Key::OnboardingWelcomeBody => "O br direciona links para o navegador/perfil certo com base em regras definidas por você."@,
        Key::OnboardingFinish => "Concluir e abrir configurações"@,
        Key::PickerOpenWith => "Abrir:"@,
        Key::PickerHelp => "Setas + Enter, ou 1-9 para escolher. Segure Shift para modo privado. Esc para cancelar."@,
    }
}

/// The text of `key` in `language`.
pub open spec fn spec_tr(key: Key, language: Seq<char>) -> Seq<char> {
    if is_portuguese(language) {
        spec_pt_br(key)
    } else {
        spec_en(key)
    }
}

/// Returns the translated string for `key` in `language` (e.g. `"pt-BR"`,
/// `"pt"`, `"en"`). Unknown languages fall back to English.
pub fn tr(key: Key, language: &str) -> (res: &'static str)
    ensures
        res@ == spec_tr(key, language@),
{
    if eq_ignore_case(language, "pt-BR") || eq_ignore_case(language, "pt") {
        pt_br(key)
    } else {
        en(key)
    }
}

/// The English table.
pub fn en(key: Key) -> (res: &'static str)
    ensures
        res@ == spec_en(key),
{
    match key {
        Key::SettingsTitle => "br — Settings",
        Key::TabGeneral => "General",
        Key::TabBrowsers => "Browsers",
        Key::TabFilters => "Filters",
        Key::TabRules => "Rules",
        Key::Save => "Save",
        Key::DiscoverBrowsers => "Discover browsers",
        Key::RegisterDefaultBrowser => "Register as default browser",
        Key::StartOnLogin => "Start on login (runs br-daemon)",
        Key::OnboardingWelcomeTitle => "Welcome to br",
        Key::OnboardingWelcomeBody => "br routes links to the right browser/profile based on rules you define.",
        Key::OnboardingFinish => "Finish and open settings",
        Key::PickerOpenWith => "Open:",
        Key::PickerHelp => "Up/Down + Enter, or 1-9 to choose. Hold Shift for private mode. Esc to cancel.",
    }
}

/// The Brazilian Portuguese table.
pub fn pt_br(key: Key) -> (res: &'static str)
    ensures
        res@ == spec_pt_br(key),
{
    match key {
        Key::SettingsTitle => "br — Configurações",
        Key::TabGeneral => "Geral",
        Key::TabBrowsers => "Navegadores",
        Key::TabFilters => "Filtros",
        Key::TabRules => "Regras",
        Key::Save => "Salvar",
        Key::DiscoverBrowsers => "Detectar navegadores",
        Key::RegisterDefaultBrowser => "Definir como navegador padrão",
        Key::StartOnLogin => "Iniciar com o sistema (executa br-daemon)",
        Key::OnboardingWelcomeTitle => "Bem-vindo ao br",
        Key::OnboardingWelcomeBody => "O br direciona links para o navegador/perfil certo com base em regras definidas por você.",
        Key::OnboardingFinish => "Concluir e abrir configurações",
        Key::PickerOpenWith => "Abrir:",
        Key::PickerHelp => "Setas + Enter, ou 1-9 para escolher. Segure Shift para modo privado. Esc para cancelar.",
    }
}

/// Unknown languages get the English text.
pub proof fn law_unknown_language_is_english(key: Key, language: Seq<char>)
    requires
        !is_portuguese(language),
    ensures
        spec_tr(key, language) == spec_en(key),
{
}

} // verus!
