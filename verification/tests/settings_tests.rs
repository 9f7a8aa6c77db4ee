use br::engine::route;
use br::model::{BrowserTarget, Config, Filter, Rule, RoutingContext, RoutingDecision};
use br::settings::{
    add_browser, add_filter, add_rule, browser_target_label, edit_list, ensure_fallback_rule,
    is_dark_theme, join_csv, material_color, merge_discovered, section_title, set_membership,
    sort_rules_by_priority, split_csv, status_text, t, theme_preference, ListEdit, MaterialRole,
    SettingsStatus, ThemePreference,
};

fn target(id: &str, name: &str) -> BrowserTarget {
    BrowserTarget {
        id: id.to_string(),
        name: name.to_string(),
        kind: "generic".to_string(),
        executable: "auto".to_string(),
        args: vec![],
        profile_dir: None,
        profile_name: None,
        icon: None,
        hidden: false,
    }
}

fn rule(id: &str, priority: i64) -> Rule {
    Rule { id: id.to_string(), priority, enabled: true, ..Default::default() }
}

#[test]
fn translates_settings_labels() {
    assert_eq!(t("pt-BR", "Add rule"), "Adicionar regra");
    assert_eq!(t("PT", "px wide"), " px de largura");
    assert_eq!(t("pt", "Unknown label"), "Unknown label");
    assert_eq!(t("en", "Add rule"), "Add rule");
    assert_eq!(t("fr", "Remove"), "Remove");
}

#[test]
fn csv_fields_round_trip() {
    assert_eq!(split_csv(" a, b ,,c "), vec!["a", "b", "c"]);
    assert!(split_csv("").is_empty());
    assert!(split_csv(" , ").is_empty());
    let items = vec!["utm_*".to_string(), "gclid".to_string()];
    let text = join_csv(&items);
    assert_eq!(text, "utm_*, gclid");
    assert_eq!(split_csv(&text), items);
    assert_eq!(join_csv(&vec![]), "");
}

#[test]
fn labels_and_titles() {
    let browsers = vec![target("a", "Alpha"), target("b", "Beta")];
    assert_eq!(browser_target_label("b", &browsers), "Beta (b)");
    assert_eq!(browser_target_label("z", &browsers), "z");
    assert_eq!(section_title("en", "Browser", "", 0), "Browser 1");
    assert_eq!(section_title("pt-BR", "Rule", "", 9), "Regra 10");
    assert_eq!(section_title("en", "Rule", "Mine", 3), "Mine");
    assert_eq!(theme_preference("DARK"), ThemePreference::Dark);
    assert_eq!(theme_preference("system"), ThemePreference::System);
    assert!(is_dark_theme("dark", false));
    assert!(!is_dark_theme("Light", true));
    assert!(is_dark_theme("system", true));
}

#[test]
fn onboarding_adds_the_fallback_rule() {
    let mut config = Config::default();
    ensure_fallback_rule(&mut config);
    assert_eq!(config.config_version, 1);
    assert_eq!(config.rules.len(), 1);
    assert_eq!(config.rules[0].id, "fallback");
    assert_eq!(config.rules[0].name, "Default: ask");
    assert_eq!(config.rules[0].match_.url_pattern, vec!["*".to_string()]);
    assert!(config.rules[0].action.ask);
    assert_eq!(
        route("https://anything.example/", &RoutingContext::default(), &config),
        RoutingDecision::AskUser
    );

    let mut existing = Config::default();
    existing.config_version = 1;
    existing.rules = vec![rule("mine", 3)];
    ensure_fallback_rule(&mut existing);
    assert_eq!(existing.rules.len(), 1);
    assert_eq!(existing.rules[0].id, "mine");
}

#[test]
fn labels_outside_the_table_are_kept() {
    assert_eq!(t("pt-BR", "Save"), "Save");
    assert_eq!(t("pt", "Save"), "Save");
    assert_eq!(t("PT-br", "Add rule"), t("pt-BR", "Add rule"));
}

#[test]
fn adds_entries() {
    let mut browsers = vec![target("a", "A")];
    add_browser(&mut browsers, "pt-BR");
    assert_eq!(browsers[1].id, "browser-1");
    assert_eq!(browsers[1].name, "Novo navegador");
    assert_eq!(browsers[1].executable, "auto");

    let mut filters: Vec<Filter> = vec![];
    add_filter(&mut filters);
    assert_eq!(filters[0].id, "filter-1");
    assert!(filters[0].enabled);

    let mut rules = vec![rule("x", -5), rule("y", 7)];
    add_rule(&mut rules, "en");
    assert_eq!(rules[2].id, "rule-1");
    assert_eq!(rules[2].name, "New rule");
    assert_eq!(rules[2].priority, 17);
    assert!(rules[2].action.ask);
    let mut none: Vec<Rule> = vec![];
    add_rule(&mut none, "en");
    assert_eq!(none[0].priority, 10);
}

#[test]
fn new_entries_take_the_first_unused_number() {
    let mut browsers = vec![target("browser-2", "B"), target("browser-1", "A")];
    add_browser(&mut browsers, "en");
    assert_eq!(browsers[2].id, "browser-3");
    let mut gap = vec![target("browser-2", "B")];
    add_browser(&mut gap, "en");
    assert_eq!(gap[1].id, "browser-1");
    add_browser(&mut gap, "en");
    assert_eq!(gap[2].id, "browser-3");

    let mut rules = vec![rule("rule-1", 0), rule("rule-3", 0)];
    add_rule(&mut rules, "en");
    assert_eq!(rules[2].id, "rule-2");
}

#[test]
fn moves_and_removes_entries() {
    let mut v = vec![1, 2, 3];
    edit_list(&mut v, ListEdit::MoveUp(2));
    assert_eq!(v, vec![1, 3, 2]);
    edit_list(&mut v, ListEdit::MoveDown(0));
    assert_eq!(v, vec![3, 1, 2]);
    edit_list(&mut v, ListEdit::Remove(1));
    assert_eq!(v, vec![3, 2]);

    let mut ticked = vec!["chrome".to_string(), "ff".to_string(), "chrome".to_string()];
    set_membership(&mut ticked, "chrome", false);
    assert_eq!(ticked, vec!["ff".to_string()]);
    set_membership(&mut ticked, "edge", true);
    assert_eq!(ticked, vec!["ff".to_string(), "edge".to_string()]);
}

#[test]
fn merges_discovered_browsers() {
    let mut browsers = vec![target("a", "A")];
    let added = merge_discovered(
        &mut browsers,
        vec![target("a", "A again"), target("b", "B"), target("b", "B twice")],
    );
    assert_eq!(added, 2);
    let names: Vec<&str> = browsers.iter().map(|b| b.name.as_str()).collect();
    assert_eq!(names, vec!["A", "B", "B twice"]);
}

#[test]
fn sorts_rules_by_priority_keeping_ties_in_order() {
    let mut rules = vec![rule("a", 1), rule("b", 5), rule("c", 1), rule("d", 5), rule("e", -2)];
    sort_rules_by_priority(&mut rules);
    let ids: Vec<&str> = rules.iter().map(|r| r.id.as_str()).collect();
    assert_eq!(ids, vec!["b", "d", "a", "c", "e"]);
}

#[test]
fn status_lines() {
    assert_eq!(
        status_text("en", &SettingsStatus::Saved { path: "/c.toml".to_string() }),
        "Saved to /c.toml"
    );
    assert_eq!(
        status_text("pt-BR", &SettingsStatus::Discovered { added: 3 }),
        "3 novo(s) navegador(es) detectado(s)."
    );
    assert_eq!(
        status_text("en", &SettingsStatus::Discovered { added: 12 }),
        "Discovered 12 new browser(s)."
    );
    assert_eq!(
        status_text("en", &SettingsStatus::RegistrationFailed { error: "denied".to_string() }),
        "Registration failed: denied"
    );
    assert_eq!(
        status_text("pt", &SettingsStatus::AutostartDisabled),
        "Inicialização automática do br-daemon desativada."
    );
    assert_eq!(
        status_text("pt", &SettingsStatus::NeedsManualConfirmation { instructions: "do it".to_string() }),
        "do it"
    );
}

#[test]
fn material_colours() {
    assert_eq!(material_color(MaterialRole::Background, true), (5, 17, 39));
    assert_eq!(material_color(MaterialRole::Background, false), (244, 248, 252));
    assert_eq!(material_color(MaterialRole::Primary, true), (255, 203, 64));
    assert_eq!(material_color(MaterialRole::OnPrimary, false), (255, 255, 255));
}
