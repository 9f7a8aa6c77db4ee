//! Decisions of the settings window: its label table, the comma-separated
//! list fields, the entries it adds, moves and removes, the order it shows
//! rules in, and the status lines it reports.
use vstd::prelude::*;

use crate::config::{decimal, lemma_decimal_injective, usize_to_decimal, CURRENT_CONFIG_VERSION};
use vstd::relations::injective_on;
use vstd::set_lib::{lemma_int_range, lemma_len_subset, lemma_map_size, set_int_range};
use crate::engine::{
    best_rule, better_rule, eligible, is_winner, lemma_route_by_winning_rule, lemma_spec_winner_is,
    lemma_winning_rule_is_best, pattern_matches, spec_normalized, spec_route, winning_rule,
};
use crate::glob::{glob, law_glob_star};
use crate::i18n::is_portuguese;
use crate::model::{
    Action, BrowserTarget, Config, DecisionView, Filter, MatchCondition, Rule, RoutingContext,
};
use crate::picker::{first_target_with, max_priority, next_rule_priority, position_of_id};
use crate::text::{
    chars_of, concat, eq_ignore_ascii_case, eq_ignore_case, eq_str, is_ws, join,
    lemma_split_join, owned, split, split_vec, string_of_range, trim, trim_bounds, trim_end,
    trim_start, vec_views, views,
};

verus! {

/// The Brazilian Portuguese wording of a settings-window label, when the
/// table has one.
pub open spec fn pt_label(text: Seq<char>) -> Option<Seq<char>> {
    if text == "Actions"@ {
        Some("Ações"@)
    } else if text == "About"@ {
        Some("Sobre"@)
    } else if text == "Add browser"@ {
        Some("Adicionar navegador"@)
    } else if text == "Add filter"@ {
        Some("Adicionar filtro"@)
    } else if text == "Add rule"@ {
        Some("Adicionar regra"@)
    } else if text == "App"@ {
        Some("Aplicativo"@)
    } else if text == "Args"@ {
        Some("Argumentos"@)
    } else if text == "Ask"@ {
        Some("Perguntar"@)
    } else if text == "Background"@ {
        Some("Fundo"@)
    } else if text == "Background blur"@ {
        Some("Desfoque de fundo"@)
    } else if text == "Background color"@ {
        Some("Cor de fundo"@)
    } else if text == "Background image"@ {
        Some("Imagem de fundo"@)
    } else if text == "Block"@ {
        Some("Bloquear"@)
    } else if text == "Browse..."@ {
        Some("Procurar..."@)
    } else if text == "Browser"@ {
        Some("Navegador"@)
    } else if text == "Browser target"@ {
        Some("Destino de navegador"@)
    } else if text == "Browsers"@ {
        Some("Navegadores"@)
    } else if text == "Bubbles"@ {
        Some("Bolhas"@)
    } else if text == "Center"@ {
        Some("Centro"@)
    } else if text == "Creator"@ {
        Some("Criador"@)
    } else if text == "Cursor"@ {
        Some("Cursor"@)
    } else if text == "Dark"@ {
        Some("Escuro"@)
    } else if text == "Default action"@ {
        Some("Ação padrão"@)
    } else if text == "Default handler"@ {
        Some("Manipulador padrão"@)
    } else if text == "Discover installed browsers"@ {
        Some("Detectar navegadores instalados"@)
    } else if text == "Enabled"@ {
        Some("Ativado"@)
    } else if text == "English"@ {
        Some("Inglês"@)
    } else if text == "Exceptions"@ {
        Some("Exceções"@)
    } else if text == "Executable"@ {
        Some("Executável"@)
    } else if text == "Filter"@ {
        Some("Filtro"@)
    } else if text == "Rule"@ {
        Some("Regra"@)
    } else if text == "Hidden"@ {
        Some("Oculto"@)
    } else if text == "Hide from picker"@ {
        Some("Ocultar no seletor"@)
    } else if text == "Icon"@ {
        Some("Ícone"@)
    } else if text == "Icon size"@ {
        Some("Tamanho do ícone"@)
    } else if text == "Id"@ {
        Some("Id"@)
    } else if text == "Image"@ {
        Some("Imagem"@)
    } else if text == "Kind"@ {
        Some("Tipo"@)
    } else if text == "Language"@ {
        Some("Idioma"@)
    } else if text == "Light"@ {
        Some("Claro"@)
    } else if text == "Link and browser profile router"@ {
        Some("Roteador de links e perfis de navegador"@)
    } else if text == "Log level"@ {
        Some("Nível de log"@)
    } else if text == "Mode"@ {
        Some("Modo"@)
    } else if text == "Modifier keys"@ {
        Some("Teclas modificadoras"@)
    } else if text == "Name"@ {
        Some("Nome"@)
    } else if text == "New browser"@ {
        Some("Novo navegador"@)
    } else if text == "New rule"@ {
        Some("Nova regra"@)
    } else if text == "Open with"@ {
        Some("Abrir com"@)
    } else if text == "Open with all"@ {
        Some("Abrir com todos"@)
    } else if text == "Move down"@ {
        Some("Mover para baixo"@)
    } else if text == "Move up"@ {
        Some("Mover para cima"@)
    } else if text == "Padding"@ {
        Some("Espaçamento"@)
    } else if text == "Picker"@ {
        Some("Seletor"@)
    } else if text == "Picker size"@ {
        Some("Tamanho do seletor"@)
    } else if text == "Position"@ {
        Some("Posição"@)
    } else if text == "Portuguese (Brazil)"@ {
        Some("Português (Brasil)"@)
    } else if text == "Priority"@ {
        Some("Prioridade"@)
    } else if text == "Private"@ {
        Some("Privado"@)
    } else if text == "Profile directory"@ {
        Some("Diretório do perfil"@)
    } else if text == "Profile name"@ {
        Some("Nome do perfil"@)
    } else if text == "Remove"@ {
        Some("Remover"@)
    } else if text == "Repository"@ {
        Some("Repositório"@)
    } else if text == "Routing rule"@ {
        Some("Regra de roteamento"@)
    } else if text == "Set br as default browser"@ {
        Some("Definir br como navegador padrão"@)
    } else if text == "Solid"@ {
        Some("Sólido"@)
    } else if text == "Source apps"@ {
        Some("Apps de origem"@)
    } else if text == "Strip query params"@ {
        Some("Remover parâmetros de consulta"@)
    } else if text == "System"@ {
        Some("Sistema"@)
    } else if text == "Theme"@ {
        Some("Tema"@)
    } else if text == "Timeout"@ {
        Some("Tempo limite"@)
    } else if text == "Upgrade HTTPS"@ {
        Some("Atualizar para HTTPS"@)
    } else if text == "URL cleanup"@ {
        Some("Limpeza de URL"@)
    } else if text == "URL patterns"@ {
        Some("Padrões de URL"@)
    } else if text == "Version"@ {
        Some("Versão"@)
    } else if text == "Window opacity"@ {
        Some("Opacidade da janela"@)
    } else if text == "br is not the default browser handler."@ {
        Some("br não é o manipulador de navegador padrão."@)
    } else if text == "br is the default browser handler."@ {
        Some("br é o manipulador de navegador padrão."@)
    } else if text == "px high"@ {
        Some(" px de altura"@)
    } else if text == "px wide"@ {
        Some(" px de largura"@)
    } else {
        None
    }
}

/// A settings-window label in `language`: the Portuguese wording when the
/// language is Portuguese and the table has one, else the label itself.
pub open spec fn spec_t(language: Seq<char>, text: Seq<char>) -> Seq<char> {
    if is_portuguese(language) {
        match pt_label(text) {
            Some(l) => l,
            None => text,
        }
    } else {
        text
    }
}

/// The Portuguese wording of `text`, or `text` itself.
fn pt_text(text: &'static str) -> (res: &'static str)
    ensures
        res@ == match pt_label(text@) {
            Some(l) => l,
            None => text@,
        },
{
    if eq_str(text, "Actions") {
        "Ações"
    } else if eq_str(text, "About") {
        "Sobre"
    } else if eq_str(text, "Add browser") {
        "Adicionar navegador"
    } else if eq_str(text, "Add filter") {
        "Adicionar filtro"
    } else if eq_str(text, "Add rule") {
        "Adicionar regra"
    } else if eq_str(text, "App") {
        "Aplicativo"
    } else if eq_str(text, "Args") {
        "Argumentos"
    } else if eq_str(text, "Ask") {
        "Perguntar"
    } else if eq_str(text, "Background") {
        "Fundo"
    } else if eq_str(text, "Background blur") {
        "Desfoque de fundo"
    } else if eq_str(text, "Background color") {
        "Cor de fundo"
    } else if eq_str(text, "Background image") {
        "Imagem de fundo"
    } else if eq_str(text, "Block") {
        "Bloquear"
    } else if eq_str(text, "Browse...") {
        "Procurar..."
    } else if eq_str(text, "Browser") {
        "Navegador"
    } else if eq_str(text, "Browser target") {
        "Destino de navegador"
    } else if eq_str(text, "Browsers") {
        "Navegadores"
    } else if eq_str(text, "Bubbles") {
        "Bolhas"
    } else if eq_str(text, "Center") {
        "Centro"
    } else if eq_str(text, "Creator") {
        "Criador"
    } else if eq_str(text, "Cursor") {
        "Cursor"
    } else if eq_str(text, "Dark") {
        "Escuro"
    } else if eq_str(text, "Default action") {
        "Ação padrão"
    } else if eq_str(text, "Default handler") {
        "Manipulador padrão"
    } else if eq_str(text, "Discover installed browsers") {
        "Detectar navegadores instalados"
    } else if eq_str(text, "Enabled") {
        "Ativado"
    } else if eq_str(text, "English") {
        "Inglês"
    } else if eq_str(text, "Exceptions") {
        "Exceções"
    } else if eq_str(text, "Executable") {
        "Executável"
    } else if eq_str(text, "Filter") {
        "Filtro"
    } else if eq_str(text, "Rule") {
        "Regra"
    } else if eq_str(text, "Hidden") {
        "Oculto"
    } else if eq_str(text, "Hide from picker") {
        "Ocultar no seletor"
    } else if eq_str(text, "Icon") {
        "Ícone"
    } else if eq_str(text, "Icon size") {
        "Tamanho do ícone"
    } else if eq_str(text, "Id") {
        "Id"
    } else if eq_str(text, "Image") {
        "Imagem"
    } else if eq_str(text, "Kind") {
        "Tipo"
    } else if eq_str(text, "Language") {
        "Idioma"
    } else if eq_str(text, "Light") {
        "Claro"
    } else if eq_str(text, "Link and browser profile router") {
        "Roteador de links e perfis de navegador"
    } else if eq_str(text, "Log level") {
        "Nível de log"
    } else if eq_str(text, "Mode") {
        "Modo"
    } else if eq_str(text, "Modifier keys") {
        "Teclas modificadoras"
    } else if eq_str(text, "Name") {
        "Nome"
    } else if eq_str(text, "New browser") {
        "Novo navegador"
    } else if eq_str(text, "New rule") {
        "Nova regra"
    } else if eq_str(text, "Open with") {
        "Abrir com"
    } else if eq_str(text, "Open with all") {
        "Abrir com todos"
    } else if eq_str(text, "Move down") {
        "Mover para baixo"
    } else if eq_str(text, "Move up") {
        "Mover para cima"
    } else if eq_str(text, "Padding") {
        "Espaçamento"
    } else if eq_str(text, "Picker") {
        "Seletor"
    } else if eq_str(text, "Picker size") {
        "Tamanho do seletor"
    } else if eq_str(text, "Position") {
        "Posição"
    } else if eq_str(text, "Portuguese (Brazil)") {
        "Português (Brasil)"
    } else if eq_str(text, "Priority") {
        "Prioridade"
    } else if eq_str(text, "Private") {
        "Privado"
    } else if eq_str(text, "Profile directory") {
        "Diretório do perfil"
    } else if eq_str(text, "Profile name") {
        "Nome do perfil"
    } else if eq_str(text, "Remove") {
        "Remover"
    } else if eq_str(text, "Repository") {
        "Repositório"
    } else if eq_str(text, "Routing rule") {
        "Regra de roteamento"
    } else if eq_str(text, "Set br as default browser") {
        "Definir br como navegador padrão"
    } else if eq_str(text, "Solid") {
        "Sólido"
    } else if eq_str(text, "Source apps") {
        "Apps de origem"
    } else if eq_str(text, "Strip query params") {
        "Remover parâmetros de consulta"
    } else if eq_str(text, "System") {
        "Sistema"
    } else if eq_str(text, "Theme") {
        "Tema"
    } else if eq_str(text, "Timeout") {
        "Tempo limite"
    } else if eq_str(text, "Upgrade HTTPS") {
        "Atualizar para HTTPS"
    } else if eq_str(text, "URL cleanup") {
        "Limpeza de URL"
    } else if eq_str(text, "URL patterns") {
        "Padrões de URL"
    } else if eq_str(text, "Version") {
        "Versão"
    } else if eq_str(text, "Window opacity") {
        "Opacidade da janela"
    } else if eq_str(text, "br is not the default browser handler.") {
        "br não é o manipulador de navegador padrão."
    } else if eq_str(text, "br is the default browser handler.") {
        "br é o manipulador de navegador padrão."
    } else if eq_str(text, "px high") {
        " px de altura"
    } else if eq_str(text, "px wide") {
        " px de largura"
    } else {
        text
    }
}

/// A label reads the same in every language the settings window treats as
/// Portuguese, and as given in any other; a label the table does not know is
/// kept as given in every language.
pub proof fn law_label_languages(language: Seq<char>, text: Seq<char>)
    ensures
        spec_t(language, text) == if is_portuguese(language) {
            spec_t("pt-BR"@, text)
        } else {
            text
        },
        pt_label(text).is_none() ==> spec_t(language, text) == text,
{
    reveal_strlit("pt-BR");
    assert(is_portuguese("pt-BR"@));
}

/// Translates a settings-window label into `language` (Portuguese for
/// `"pt-BR"` or `"pt"`, in any ASCII case); other languages, and labels the
/// table does not know, keep the label as given.
pub fn t(language: &str, text: &'static str) -> (res: &'static str)
    ensures
        res@ == spec_t(language@, text@),
{
    if !(eq_ignore_case(language, "pt-BR") || eq_ignore_case(language, "pt")) {
        return text;
    }
    pt_text(text)
}


// ---------------------------------------------------------------------------
// Comma-separated list fields
// ---------------------------------------------------------------------------

/// The trimmed pieces of `parts` that are not empty, in order.
pub open spec fn nonempty_trimmed(parts: Seq<Seq<char>>) -> Seq<Seq<char>>
    decreases parts.len(),
{
    if parts.len() == 0 {
        Seq::<Seq<char>>::empty()
    } else {
        let r = nonempty_trimmed(parts.drop_last());
        let t = trim(parts.last());
        if t.len() == 0 {
            r
        } else {
            r.push(t)
        }
    }
}

/// The items of a comma-separated field: the pieces between commas,
/// trimmed, leaving out the empty ones.
pub open spec fn spec_split_csv(value: Seq<char>) -> Seq<Seq<char>> {
    nonempty_trimmed(split(value, ','))
}

/// Reads the items of a comma-separated field.
pub fn split_csv(value: &str) -> (res: Vec<String>)
    ensures
        views(res@) == spec_split_csv(value@),
{
    let v = chars_of(value);
    let parts = split_vec(&v, ',');
    let ghost ps = vec_views(parts@);
    let mut res: Vec<String> = Vec::new();
    let mut i: usize = 0;
    while i < parts.len()
        invariant
            i <= parts@.len(),
            ps == vec_views(parts@),
            ps == split(value@, ','),
            views(res@) == nonempty_trimmed(ps.take(i as int)),
        decreases parts@.len() - i,
    {
        let p = &parts[i];
        let (lo, hi) = trim_bounds(p, 0, p.len());
        assert(p@.subrange(0, p@.len() as int) =~= p@);
        assert(ps.take(i + 1).drop_last() =~= ps.take(i as int));
        assert(ps.take(i + 1).last() == p@);
        if lo < hi {
            let item = string_of_range(p, lo, hi);
            let ghost before = res@;
            res.push(item);
            assert(views(res@) =~= views(before).push(item@));
        }
        i = i + 1;
    }
    assert(ps.take(ps.len() as int) =~= ps);
    res
}

/// The items of a list written as one field, separated by `", "`.
pub open spec fn spec_join_csv(items: Seq<Seq<char>>) -> Seq<char>
    decreases items.len(),
{
    if items.len() == 0 {
        Seq::<char>::empty()
    } else if items.len() == 1 {
        items[0]
    } else {
        spec_join_csv(items.drop_last()) + ", "@ + items.last()
    }
}

/// Writes a list as one comma-separated field.
pub fn join_csv(items: &Vec<String>) -> (res: String)
    ensures
        res@ == spec_join_csv(views(items@)),
{
    let ghost all = views(items@);
    let mut res = String::new();
    let mut i: usize = 0;
    while i < items.len()
        invariant
            i <= items@.len(),
            all == views(items@),
            res@ == spec_join_csv(all.take(i as int)),
        decreases items@.len() - i,
    {
        assert(all.take(i + 1).drop_last() =~= all.take(i as int));
        assert(all.take(i + 1).last() == items@[i as int]@);
        if i > 0 {
            res.append(", ");
        } else {
            assert(res@ =~= Seq::<char>::empty());
        }
        res.append(items[i].as_str());
        i = i + 1;
    }
    assert(all.take(all.len() as int) =~= all);
    res
}

/// The pieces that splitting a `", "`-joined list at its commas gives: the
/// first item, then each further item behind a space.
pub open spec fn spaced(items: Seq<Seq<char>>) -> Seq<Seq<char>> {
    Seq::new(items.len(), |i: int| if i == 0 { items[0] } else { seq![' '] + items[i] })
}

proof fn lemma_join_csv_spaced(items: Seq<Seq<char>>)
    requires
        items.len() >= 1,
    ensures
        spec_join_csv(items) == join(spaced(items), ','),
    decreases items.len(),
{
    if items.len() > 1 {
        let init = items.drop_last();
        lemma_join_csv_spaced(init);
        assert(spaced(items).drop_last() =~= spaced(init));
        reveal_strlit(", ");
        assert(spec_join_csv(init) + ", "@ + items.last() =~= join(spaced(init), ',').push(',') + (
        seq![' '] + items.last()));
    }
}

proof fn lemma_trim_space_prefix(x: Seq<char>)
    ensures
        trim(seq![' '] + x) == trim(x),
{
    assert((seq![' '] + x).drop_first() =~= x);
    assert(is_ws(' '));
}

proof fn lemma_nonempty_trimmed_id(parts: Seq<Seq<char>>, items: Seq<Seq<char>>)
    requires
        parts.len() == items.len(),
        forall|i: int| 0 <= i < parts.len() ==> trim(#[trigger] parts[i]) == items[i],
        forall|i: int| 0 <= i < items.len() ==> (#[trigger] items[i]).len() > 0,
    ensures
        nonempty_trimmed(parts) == items,
    decreases parts.len(),
{
    if parts.len() > 0 {
        let pi = parts.drop_last();
        let ii = items.drop_last();
        assert forall|i: int| 0 <= i < pi.len() implies trim(#[trigger] pi[i]) == ii[i] by {
            assert(pi[i] == parts[i]);
        }
        lemma_nonempty_trimmed_id(pi, ii);
        assert(trim(parts[parts.len() - 1]) == items[items.len() - 1]);
        assert(ii.push(items.last()) =~= items);
    } else {
        assert(items =~= Seq::<Seq<char>>::empty());
    }
}

/// A list field shows the items joined by `", "` and stores what reading the
/// text back gives: that is the list again whenever every item is non-empty,
/// has no surrounding white space and holds no comma.
pub proof fn law_csv_round_trip(items: Seq<Seq<char>>)
    requires
        forall|i: int|
            0 <= i < items.len() ==> (#[trigger] items[i]).len() > 0 && trim(items[i]) == items[i]
                && !items[i].contains(','),
    ensures
        spec_split_csv(spec_join_csv(items)) == items,
{
    if items.len() == 0 {
        let e = Seq::<char>::empty();
        assert(spec_join_csv(items) == e);
        assert(split(e, ',') == seq![e]);
        assert(seq![e].drop_last() =~= Seq::<Seq<char>>::empty());
        assert(seq![e].last() == e);
        assert(trim_start(e) == e);
        assert(trim_end(e) == e);
        let q = seq![e];
        assert(q.drop_last() =~= Seq::<Seq<char>>::empty());
        assert(nonempty_trimmed(q.drop_last()) == Seq::<Seq<char>>::empty());
        assert(trim(q.last()).len() == 0);
        assert(nonempty_trimmed(q) == Seq::<Seq<char>>::empty());
        assert(items =~= Seq::<Seq<char>>::empty());
    } else {
        let sp = spaced(items);
        lemma_join_csv_spaced(items);
        assert forall|i: int| 0 <= i < sp.len() implies !(#[trigger] sp[i]).contains(',') by {
            if i > 0 {
                if sp[i].contains(',') {
                    let k = choose|k: int| 0 <= k < sp[i].len() && sp[i][k] == ',';
                    assert(k > 0);
                    assert(items[i][k - 1] == ',');
                }
            }
        }
        lemma_split_join(sp, ',');
        assert forall|i: int| 0 <= i < sp.len() implies trim(#[trigger] sp[i]) == items[i] by {
            if i > 0 {
                lemma_trim_space_prefix(items[i]);
            }
        }
        lemma_nonempty_trimmed_id(sp, items);
        assert(split(spec_join_csv(items), ',') == sp);
    }
}

// ---------------------------------------------------------------------------
// Labels
// ---------------------------------------------------------------------------

/// How a browser target is named in a selection list.
pub open spec fn target_choice_label(b: BrowserTarget) -> Seq<char> {
    b.name@ + " ("@ + b.id@ + ")"@
}

/// The label of the browser target with id `id`: its name and id when a
/// configured browser has that id (the first one), else the id itself.
pub fn browser_target_label(id: &str, browsers: &Vec<BrowserTarget>) -> (res: String)
    ensures
        (exists|i: int| first_target_with(browsers@, id@, i) && res@ == target_choice_label(browsers@[i]))
            || ((forall|j: int| 0 <= j < browsers@.len() ==> (#[trigger] browsers@[j]).id@ != id@)
            && res@ == id@),
{
    match position_of_id(browsers, id) {
        Some(i) => {
            let b = &browsers[i];
            let mut s = concat(b.name.as_str(), " (");
            s.append(b.id.as_str());
            s.append(")");
            s
        },
        None => owned(id),
    }
}

/// The title of the `index`-th entry (from 0) of a list: its name, or the
/// translated `label` and its position (from 1) when it has no name.
pub fn section_title(language: &str, label: &'static str, name: &str, index: usize) -> (res: String)
    requires
        index < usize::MAX,
    ensures
        res@ == if name@.len() == 0 {
            spec_t(language@, label@) + " "@ + decimal(index as nat + 1)
        } else {
            name@
        },
{
    if name.is_empty() {
        let mut s = concat(t(language, label), " ");
        let n = usize_to_decimal(index + 1);
        s.append(n.as_str());
        s
    } else {
        owned(name)
    }
}

/// The theme a configuration asks for.
#[derive(Debug, Clone, Copy, PartialEq, Eq)]
pub enum ThemePreference {
    Dark,
    Light,
    /// Follow the operating system.
    System,
}

/// The theme named by the configuration's `theme` (in any ASCII case):
/// `dark`, `light`, or anything else for the system's.
pub fn theme_preference(theme: &str) -> (res: ThemePreference)
    ensures
        res == if eq_ignore_ascii_case(theme@, "dark"@) {
            ThemePreference::Dark
        } else if eq_ignore_ascii_case(theme@, "light"@) {
            ThemePreference::Light
        } else {
            ThemePreference::System
        },
{
    if eq_ignore_case(theme, "dark") {
        ThemePreference::Dark
    } else if eq_ignore_case(theme, "light") {
        ThemePreference::Light
    } else {
        ThemePreference::System
    }
}

/// Whether the settings window is drawn dark: as the configuration's theme
/// says, or as the system's when it asks to follow it.
pub fn is_dark_theme(theme: &str, system_is_dark: bool) -> (res: bool)
    ensures
        res == if eq_ignore_ascii_case(theme@, "dark"@) {
            true
        } else if eq_ignore_ascii_case(theme@, "light"@) {
            false
        } else {
            system_is_dark
        },
{
    match theme_preference(theme) {
        ThemePreference::Dark => true,
        ThemePreference::Light => false,
        ThemePreference::System => system_is_dark,
    }
}

// ---------------------------------------------------------------------------
// Entries added, moved and removed
// ---------------------------------------------------------------------------

/// `r` is the rule that onboarding adds to a configuration without rules:
/// every URL goes to the picker.
pub open spec fn is_fallback_rule(r: Rule) -> bool {
    &&& r.id@ == "fallback"@
    &&& r.name@ == "Default: ask"@
    &&& r.enabled
    &&& r.priority == 0
    &&& r.match_.url_pattern@.len() == 1
    &&& r.match_.url_pattern@[0]@ == "*"@
    &&& r.match_.host@.len() == 0
    &&& r.match_.path@.len() == 0
    &&& r.match_.query_param@.len() == 0
    &&& r.match_.source_app@.len() == 0
    &&& r.match_.modifier_keys@.len() == 0
    &&& r.action.ask
    &&& r.action.open_with.is_none()
    &&& r.action.open_with_all@.len() == 0
    &&& !r.action.private
    &&& !r.action.block
}

/// Finishing onboarding: a configuration without rules gets the rule that
/// sends every URL to the picker, and one without a version gets the
/// current one.
pub fn ensure_fallback_rule(cfg: &mut Config)
    ensures
        old(cfg).rules@.len() == 0 ==> final(cfg).rules@.len() == 1 && is_fallback_rule(
            final(cfg).rules@[0],
        ),
        old(cfg).rules@.len() > 0 ==> final(cfg).rules == old(cfg).rules,
        final(cfg).config_version == if old(cfg).config_version == 0 {
            CURRENT_CONFIG_VERSION
        } else {
            old(cfg).config_version
        },
        final(cfg).general == old(cfg).general,
        final(cfg).browsers == old(cfg).browsers,
        final(cfg).filters == old(cfg).filters,
{
    if cfg.rules.len() == 0 {
        let mut patterns: Vec<String> = Vec::new();
        patterns.push(owned("*"));
        cfg.rules.push(
            Rule {
                id: owned("fallback"),
                name: owned("Default: ask"),
                enabled: true,
                priority: 0,
                match_: MatchCondition {
                    url_pattern: patterns,
                    host: Vec::new(),
                    path: Vec::new(),
                    query_param: Vec::new(),
                    source_app: Vec::new(),
                    modifier_keys: Vec::new(),
                },
                action: Action {
                    open_with: None,
                    open_with_all: Vec::new(),
                    private: false,
                    ask: true,
                    block: false,
                },
            },
        );
    }
    if cfg.config_version == 0 {
        cfg.config_version = CURRENT_CONFIG_VERSION;
    }
}

/// A configuration whose only rule is the onboarding fallback sends every
/// URL to the picker.
pub proof fn law_fallback_rule_asks(cfg: Config, url: Seq<char>, ctx: RoutingContext)
    requires
        cfg.rules@.len() == 1,
        is_fallback_rule(cfg.rules@[0]),
    ensures
        spec_route(url, ctx, cfg) == DecisionView::AskUser,
{
    let rules = cfg.rules@;
    let n = crate::engine::spec_normalized(url, cfg);
    reveal_strlit("*");
    reveal_strlit("regex:");
    assert(rules[0].match_.url_pattern@[0]@ == seq!['*']);
    assert(!crate::text::starts_with(seq!['*'], "regex:"@));
    law_glob_star(n);
    assert(pattern_matches(rules[0].match_.url_pattern@[0]@, n));
    assert(eligible(rules, 0, n, ctx));
    assert(is_winner(rules, 0, n, ctx));
    lemma_spec_winner_is(rules, 0, n, ctx);
}

/// The id made of `prefix` and the number `n` in decimal.
pub open spec fn numbered_id(prefix: Seq<char>, n: nat) -> Seq<char> {
    prefix + decimal(n)
}

/// `n` is the smallest number from one on whose id is not among `ids`.
pub open spec fn first_free_number(ids: Seq<Seq<char>>, prefix: Seq<char>, n: nat) -> bool {
    &&& n >= 1
    &&& !ids.contains(numbered_id(prefix, n))
    &&& forall|m: nat| 1 <= m < n ==> ids.contains(#[trigger] numbered_id(prefix, m))
}

/// The ids of `browsers`, in order.
pub open spec fn browser_ids(browsers: Seq<BrowserTarget>) -> Seq<Seq<char>> {
    browsers.map_values(|b: BrowserTarget| b.id@)
}

/// The ids of `rules`, in order.
pub open spec fn rule_ids(rules: Seq<Rule>) -> Seq<Seq<char>> {
    rules.map_values(|r: Rule| r.id@)
}

/// Among the numbers one to one more than there are ids, some number's id is
/// free: the ids of distinct numbers differ, and there are too few ids.
proof fn lemma_some_number_free(ids: Seq<Seq<char>>, prefix: Seq<char>)
    ensures
        exists|k: nat| 1 <= k <= ids.len() + 1 && !ids.contains(#[trigger] numbered_id(prefix, k)),
{
    broadcast use vstd::seq_lib::seq_to_set_is_finite;

    if !exists|k: nat| 1 <= k <= ids.len() + 1 && !ids.contains(#[trigger] numbered_id(prefix, k)) {
        let x = set_int_range(1, ids.len() as int + 2);
        lemma_int_range(1, ids.len() as int + 2);
        let f = |i: int| numbered_id(prefix, i as nat);
        assert forall|a: int, b: int| x.contains(a) && x.contains(b) && #[trigger] f(a) == #[trigger] f(b) implies a
            == b by {
            assert(f(a).skip(prefix.len() as int) =~= decimal(a as nat));
            assert(f(b).skip(prefix.len() as int) =~= decimal(b as nat));
            lemma_decimal_injective(a as nat, b as nat);
        }
        assert(injective_on(f, x));
        let y = x.map(f);
        lemma_map_size(x, y, f);
        assert forall|e: Seq<char>| y.contains(e) implies ids.to_set().contains(e) by {
            let i = choose|i: int| x.contains(i) && f(i) == e;
            assert(1 <= (i as nat) <= ids.len() + 1);
            assert(ids.contains(numbered_id(prefix, i as nat)));
        }
        lemma_len_subset(y, ids.to_set());
        ids.lemma_cardinality_of_set();
    }
}

/// The id `prefix` and the smallest number from one on that is not among
/// `ids`.
fn first_free_id(ids: &Vec<String>, prefix: &str) -> (res: String)
    requires
        ids@.len() < usize::MAX,
    ensures
        exists|n: nat| first_free_number(views(ids@), prefix@, n) && res@ == numbered_id(prefix@, n),
{
    proof {
        lemma_some_number_free(views(ids@), prefix@);
    }
    let ghost v = views(ids@);
    let mut n: usize = 1;
    loop
        invariant
            1 <= n <= ids@.len() + 1,
            ids@.len() < usize::MAX,
            v == views(ids@),
            v.len() == ids@.len(),
            forall|m: nat| 1 <= m < n ==> v.contains(#[trigger] numbered_id(prefix@, m)),
            exists|k: nat| 1 <= k <= ids@.len() + 1 && !v.contains(#[trigger] numbered_id(prefix@, k)),
        decreases ids@.len() + 1 - n,
    {
        let cand = concat(prefix, usize_to_decimal(n).as_str());
        assert(cand@ == numbered_id(prefix@, n as nat));
        let mut taken = false;
        let mut j: usize = 0;
        while j < ids.len()
            invariant
                j <= ids@.len(),
                v == views(ids@),
                v.len() == ids@.len(),
                taken == exists|i: int| 0 <= i < j && v[i] == cand@,
            decreases ids@.len() - j,
        {
            assert(v[j as int] == ids@[j as int]@);
            if eq_str(ids[j].as_str(), cand.as_str()) {
                taken = true;
            }
            j = j + 1;
        }
        if !taken {
            assert(!v.contains(cand@));
            assert(first_free_number(v, prefix@, n as nat));
            return cand;
        }
        assert(v.contains(numbered_id(prefix@, n as nat)));
        proof {
            if n == ids@.len() + 1 {
                let k = choose|k: nat| 1 <= k <= ids@.len() + 1 && !v.contains(
                    #[trigger] numbered_id(prefix@, k),
                );
                assert(k <= n);
            }
        }
        n = n + 1;
    }
}

/// The browser entry that "Add browser" appends to `browsers`: its id is
/// `browser-` and the smallest number from one on not yet taken, so it
/// differs from the id of every entry already there.
pub open spec fn is_new_browser(b: BrowserTarget, browsers: Seq<BrowserTarget>, language: Seq<char>) -> bool {
    &&& exists|n: nat| first_free_number(browser_ids(browsers), "browser-"@, n) && b.id@ == numbered_id(
        "browser-"@,
        n,
    )
    &&& forall|j: int| 0 <= j < browsers.len() ==> (#[trigger] browsers[j]).id@ != b.id@
    &&& b.name@ == spec_t(language, "New browser"@)
    &&& b.kind@ == "generic"@
    &&& b.executable@ == "auto"@
    &&& b.args@.len() == 0
    &&& b.profile_dir.is_none()
    &&& b.profile_name.is_none()
    &&& b.icon.is_none()
    &&& !b.hidden
}

/// The ids of `browsers`.
fn browser_id_list(browsers: &Vec<BrowserTarget>) -> (res: Vec<String>)
    ensures
        views(res@) == browser_ids(browsers@),
        res@.len() == browsers@.len(),
{
    let mut ids: Vec<String> = Vec::new();
    let mut i: usize = 0;
    while i < browsers.len()
        invariant
            i <= browsers@.len(),
            views(ids@) == browser_ids(browsers@.take(i as int)),
            ids@.len() == i,
        decreases browsers@.len() - i,
    {
        let ghost old_ids = ids@;
        ids.push(browsers[i].id.clone());
        assert(views(ids@) =~= views(old_ids).push(browsers@[i as int].id@));
        assert(browser_ids(browsers@.take(i + 1)) =~= browser_ids(browsers@.take(i as int)).push(browsers@[i as int].id@));
        i = i + 1;
    }
    assert(browsers@.take(browsers@.len() as int) =~= browsers@);
    ids
}

/// Appends a new, not yet configured browser entry with an unused id.
pub fn add_browser(browsers: &mut Vec<BrowserTarget>, language: &str)
    requires
        old(browsers)@.len() < usize::MAX,
    ensures
        final(browsers)@.len() == old(browsers)@.len() + 1,
        final(browsers)@.take(old(browsers)@.len() as int) == old(browsers)@,
        is_new_browser(final(browsers)@.last(), old(browsers)@, language@),
{
    let ghost before = browsers@;
    let ids = browser_id_list(browsers);
    let id = first_free_id(&ids, "browser-");
    proof {
        let n = choose|n: nat| first_free_number(views(ids@), "browser-"@, n) && id@ == numbered_id("browser-"@, n);
        assert forall|j: int| 0 <= j < before.len() implies (#[trigger] before[j]).id@ != id@ by {
            assert(browser_ids(before)[j] == before[j].id@);
        }
    }
    browsers.push(
        BrowserTarget {
            id,
            name: owned(t(language, "New browser")),
            kind: owned("generic"),
            executable: owned("auto"),
            args: Vec::new(),
            profile_dir: None,
            profile_name: None,
            icon: None,
            hidden: false,
        },
    );
    assert(browsers@.take(before.len() as int) =~= before);
}

/// The filter entry that "Add filter" appends after `count` entries.
pub open spec fn is_new_filter(f: Filter, count: int) -> bool {
    &&& f.id@ == "filter-"@ + decimal((count + 1) as nat)
    &&& f.enabled
    &&& f.strip_query_params@.len() == 0
    &&& !f.upgrade_http_to_https
    &&& f.exceptions@.len() == 0
    &&& f.rewrite_pattern.is_none()
    &&& f.rewrite_replacement.is_none()
}

/// Appends a new, enabled filter that changes nothing yet.
pub fn add_filter(filters: &mut Vec<Filter>)
    requires
        old(filters)@.len() < usize::MAX,
    ensures
        final(filters)@.len() == old(filters)@.len() + 1,
        final(filters)@.take(old(filters)@.len() as int) == old(filters)@,
        is_new_filter(final(filters)@.last(), old(filters)@.len() as int),
{
    let ghost before = filters@;
    let n = usize_to_decimal(filters.len() + 1);
    filters.push(
        Filter {
            id: concat("filter-", n.as_str()),
            enabled: true,
            strip_query_params: Vec::new(),
            upgrade_http_to_https: false,
            exceptions: Vec::new(),
            rewrite_pattern: None,
            rewrite_replacement: None,
        },
    );
    assert(filters@.take(before.len() as int) =~= before);
}

/// The rule entry that "Add rule" appends to `rules`: it asks, for every
/// URL, ten above the highest priority; its id is `rule-` and the smallest
/// number from one on not yet taken, so it differs from every rule's id.
pub open spec fn is_new_rule(r: Rule, rules: Seq<Rule>, language: Seq<char>) -> bool {
    &&& exists|n: nat| first_free_number(rule_ids(rules), "rule-"@, n) && r.id@ == numbered_id(
        "rule-"@,
        n,
    )
    &&& forall|j: int| 0 <= j < rules.len() ==> (#[trigger] rules[j]).id@ != r.id@
    &&& r.name@ == spec_t(language, "New rule"@)
    &&& r.enabled
    &&& r.priority == max_priority(rules) + 10
    &&& r.match_.url_pattern@.len() == 0
    &&& r.match_.host@.len() == 0
    &&& r.match_.path@.len() == 0
    &&& r.match_.query_param@.len() == 0
    &&& r.match_.source_app@.len() == 0
    &&& r.match_.modifier_keys@.len() == 0
    &&& r.action.ask
    &&& r.action.open_with.is_none()
    &&& r.action.open_with_all@.len() == 0
    &&& !r.action.private
    &&& !r.action.block
}

/// The ids of `rules`.
fn rule_id_list(rules: &Vec<Rule>) -> (res: Vec<String>)
    ensures
        views(res@) == rule_ids(rules@),
        res@.len() == rules@.len(),
{
    let mut ids: Vec<String> = Vec::new();
    let mut i: usize = 0;
    while i < rules.len()
        invariant
            i <= rules@.len(),
            views(ids@) == rule_ids(rules@.take(i as int)),
            ids@.len() == i,
        decreases rules@.len() - i,
    {
        let ghost old_ids = ids@;
        ids.push(rules[i].id.clone());
        assert(views(ids@) =~= views(old_ids).push(rules@[i as int].id@));
        assert(rule_ids(rules@.take(i + 1)) =~= rule_ids(rules@.take(i as int)).push(rules@[i as int].id@));
        i = i + 1;
    }
    assert(rules@.take(rules@.len() as int) =~= rules@);
    ids
}

/// Appends a new rule above all others, with an unused id.
pub fn add_rule(rules: &mut Vec<Rule>, language: &str)
    requires
        old(rules)@.len() < usize::MAX,
        max_priority(old(rules)@) + 10 <= i64::MAX,
    ensures
        final(rules)@.len() == old(rules)@.len() + 1,
        final(rules)@.take(old(rules)@.len() as int) == old(rules)@,
        is_new_rule(final(rules)@.last(), old(rules)@, language@),
{
    let ghost before = rules@;
    let priority = next_rule_priority(rules);
    let ids = rule_id_list(rules);
    let id = first_free_id(&ids, "rule-");
    proof {
        let n = choose|n: nat| first_free_number(views(ids@), "rule-"@, n) && id@ == numbered_id("rule-"@, n);
        assert forall|j: int| 0 <= j < before.len() implies (#[trigger] before[j]).id@ != id@ by {
            assert(rule_ids(before)[j] == before[j].id@);
        }
    }
    rules.push(
        Rule {
            id,
            name: owned(t(language, "New rule")),
            enabled: true,
            priority,
            match_: MatchCondition {
                url_pattern: Vec::new(),
                host: Vec::new(),
                path: Vec::new(),
                query_param: Vec::new(),
                source_app: Vec::new(),
                modifier_keys: Vec::new(),
            },
            action: Action {
                open_with: None,
                open_with_all: Vec::new(),
                private: false,
                ask: true,
                block: false,
            },
        },
    );
    assert(rules@.take(before.len() as int) =~= before);
}

/// An edit of one entry of a list.
#[derive(Debug, Clone, Copy, PartialEq, Eq)]
pub enum ListEdit {
    /// Remove the entry at this position.
    Remove(usize),
    /// Swap the entry at this position with the one before it.
    MoveUp(usize),
    /// Swap the entry at this position with the one after it.
    MoveDown(usize),
}

/// The edit names an entry that can be edited so.
pub open spec fn edit_applies(edit: ListEdit, len: int) -> bool {
    match edit {
        ListEdit::Remove(i) => i < len,
        ListEdit::MoveUp(i) => 0 < i < len,
        ListEdit::MoveDown(i) => i + 1 < len,
    }
}

/// `s` after `edit`.
pub open spec fn spec_edit<T>(s: Seq<T>, edit: ListEdit) -> Seq<T> {
    match edit {
        ListEdit::Remove(i) => s.remove(i as int),
        ListEdit::MoveUp(i) => s.update(i as int, s[i - 1]).update(i - 1, s[i as int]),
        ListEdit::MoveDown(i) => s.update(i as int, s[i + 1]).update(i + 1, s[i as int]),
    }
}

/// Removes an entry of a list, or swaps it with a neighbour.
pub fn edit_list<T>(list: &mut Vec<T>, edit: ListEdit)
    requires
        edit_applies(edit, old(list)@.len() as int),
    ensures
        final(list)@ == spec_edit(old(list)@, edit),
{
    let ghost s = list@;
    match edit {
        ListEdit::Remove(i) => {
            list.remove(i);
        },
        ListEdit::MoveUp(i) => {
            let x = list.remove(i);
            list.insert(i - 1, x);
            assert(list@ =~= s.update(i as int, s[i - 1]).update(i - 1, s[i as int]));
        },
        ListEdit::MoveDown(i) => {
            let n = list.len();
            assert(i + 1 < n);
            let x = list.remove(i);
            list.insert(i + 1, x);
            assert(list@ =~= s.update(i as int, s[i + 1]).update(i + 1, s[i as int]));
        },
    }
}

/// `v` without the strings equal to `item`, in order.
pub open spec fn without(v: Seq<Seq<char>>, item: Seq<char>) -> Seq<Seq<char>>
    decreases v.len(),
{
    if v.len() == 0 {
        v
    } else {
        let r = without(v.drop_last(), item);
        if v.last() == item {
            r
        } else {
            r.push(v.last())
        }
    }
}

/// Ticks or unticks `item` in a list of ticked values: ticking appends it,
/// unticking removes every copy.
pub fn set_membership(list: &mut Vec<String>, item: &str, member: bool)
    ensures
        member ==> views(final(list)@) == views(old(list)@).push(item@),
        !member ==> views(final(list)@) == without(views(old(list)@), item@),
{
    if member {
        let ghost before = list@;
        list.push(owned(item));
        assert(views(list@) =~= views(before).push(item@));
        return;
    }
    let mut src: Vec<String> = Vec::new();
    std::mem::swap(&mut src, list);
    let ghost orig = views(src@);
    let n = src.len();
    let mut i: usize = 0;
    while i < n
        invariant
            n == src@.len(),
            i <= n,
            orig == views(src@),
            views(list@) == without(orig.take(i as int), item@),
        decreases n - i,
    {
        assert(orig.take(i + 1).drop_last() =~= orig.take(i as int));
        assert(orig.take(i + 1).last() == src@[i as int]@);
        if !eq_str(src[i].as_str(), item) {
            let ghost before = list@;
            list.push(src[i].clone());
            assert(views(list@) =~= views(before).push(src@[i as int]@));
        }
        i = i + 1;
    }
    assert(orig.take(n as int) =~= orig);
}

/// Among `found`, the browsers whose id none of `existing` has, in order.
pub open spec fn new_targets(found: Seq<BrowserTarget>, existing: Seq<BrowserTarget>) -> Seq<
    BrowserTarget,
>
    decreases found.len(),
{
    if found.len() == 0 {
        found
    } else {
        let r = new_targets(found.drop_last(), existing);
        if exists|j: int| 0 <= j < existing.len() && (#[trigger] existing[j]).id@ == found.last().id@ {
            r
        } else {
            r.push(found.last())
        }
    }
}

proof fn lemma_new_targets_len(found: Seq<BrowserTarget>, existing: Seq<BrowserTarget>)
    ensures
        new_targets(found, existing).len() <= found.len(),
    decreases found.len(),
{
    if found.len() > 0 {
        lemma_new_targets_len(found.drop_last(), existing);
    }
}

/// Whether one of the first `n` browsers has id `id`.
fn id_in_prefix(browsers: &Vec<BrowserTarget>, n: usize, id: &str) -> (res: bool)
    requires
        n <= browsers@.len(),
    ensures
        res == exists|j: int| 0 <= j < n && (#[trigger] browsers@[j]).id@ == id@,
{
    let mut j: usize = 0;
    while j < n
        invariant
            j <= n <= browsers@.len(),
            forall|k: int| 0 <= k < j ==> (#[trigger] browsers@[k]).id@ != id@,
        decreases n - j,
    {
        if eq_str(browsers[j].id.as_str(), id) {
            return true;
        }
        j = j + 1;
    }
    false
}

/// Adds the discovered browsers whose id is not configured yet, keeping the
/// configured ones as they are; returns how many were added.
pub fn merge_discovered(browsers: &mut Vec<BrowserTarget>, found: Vec<BrowserTarget>) -> (added:
    usize)
    ensures
        final(browsers)@ == old(browsers)@ + new_targets(found@, old(browsers)@),
        added == new_targets(found@, old(browsers)@).len(),
{
    let ghost existing = browsers@;
    let ghost all = found@;
    let total = found.len();
    let old_len = browsers.len();
    let mut rest = found;
    let mut added: usize = 0;
    let mut k: usize = 0;
    while rest.len() > 0
        invariant
            old_len == existing.len(),
            total == all.len(),
            k + rest@.len() == all.len(),
            rest@ == all.skip(k as int),
            browsers@ == existing + new_targets(all.take(k as int), existing),
            added == new_targets(all.take(k as int), existing).len(),
        decreases rest@.len(),
    {
        let b = rest.remove(0);
        assert(all.take(k + 1).drop_last() =~= all.take(k as int));
        assert(all.take(k + 1).last() == b);
        assert(rest@ =~= all.skip(k + 1));
        assert(browsers@.take(old_len as int) =~= existing);
        let known = id_in_prefix(browsers, old_len, b.id.as_str());
        proof {
            lemma_new_targets_len(all.take(k as int), existing);
        }
        proof {
            assert forall|j: int| 0 <= j < old_len implies browsers@[j] == existing[j] by {
                assert(browsers@[j] == browsers@.take(old_len as int)[j]);
            }
        }
        if !known {
            browsers.push(b);
            added = added + 1;
        }
        k = k + 1;
    }
    assert(all.take(k as int) =~= all);
    added
}

// ---------------------------------------------------------------------------
// The order rules are listed in
// ---------------------------------------------------------------------------

/// `sorted` with `r` inserted before the trailing rules of lower priority
/// than `r`'s.
pub open spec fn insert_by_priority(sorted: Seq<Rule>, r: Rule) -> Seq<Rule>
    decreases sorted.len(),
{
    if sorted.len() == 0 {
        seq![r]
    } else if sorted.last().priority >= r.priority {
        sorted.push(r)
    } else {
        insert_by_priority(sorted.drop_last(), r).push(sorted.last())
    }
}

/// `rules` from the highest priority to the lowest, rules of equal priority
/// in the order given.
pub open spec fn sorted_by_priority(rules: Seq<Rule>) -> Seq<Rule>
    decreases rules.len(),
{
    if rules.len() == 0 {
        rules
    } else {
        insert_by_priority(sorted_by_priority(rules.drop_last()), rules.last())
    }
}

proof fn lemma_insert_at(s: Seq<Rule>, r: Rule, j: int)
    requires
        0 <= j <= s.len(),
        forall|k: int| j <= k < s.len() ==> (#[trigger] s[k]).priority < r.priority,
        j == 0 || s[j - 1].priority >= r.priority,
    ensures
        insert_by_priority(s, r) == s.insert(j, r),
    decreases s.len(),
{
    if j == s.len() {
        if s.len() == 0 {
            assert(s.insert(0, r) =~= seq![r]);
        } else {
            assert(s.insert(j, r) =~= s.push(r));
        }
    } else {
        let d = s.drop_last();
        assert(s.last() == s[s.len() - 1]);
        assert forall|k: int| j <= k < d.len() implies (#[trigger] d[k]).priority < r.priority by {
            assert(d[k] == s[k]);
        }
        if j > 0 {
            assert(d[j - 1] == s[j - 1]);
        }
        lemma_insert_at(d, r, j);
        assert(d.insert(j, r).push(s.last()) =~= s.insert(j, r));
    }
}

/// Orders `rules` from the highest priority to the lowest, keeping rules of
/// equal priority in the order given.
pub fn sort_rules_by_priority(rules: &mut Vec<Rule>)
    ensures
        final(rules)@ == sorted_by_priority(old(rules)@),
{
    let mut src: Vec<Rule> = Vec::new();
    std::mem::swap(&mut src, rules);
    let ghost orig = src@;
    let total = src.len();
    let mut k: usize = 0;
    while src.len() > 0
        invariant
            total == orig.len(),
            k + src@.len() == orig.len(),
            src@ == orig.skip(k as int),
            rules@ == sorted_by_priority(orig.take(k as int)),
        decreases src@.len(),
    {
        let r = src.remove(0);
        assert(orig.take(k + 1).drop_last() =~= orig.take(k as int));
        assert(orig.take(k + 1).last() == r);
        assert(src@ =~= orig.skip(k + 1));
        let mut j = rules.len();
        while j > 0 && rules[j - 1].priority < r.priority
            invariant
                j <= rules@.len(),
                forall|m: int| j <= m < rules@.len() ==> (#[trigger] rules@[m]).priority < r.priority,
            decreases j,
        {
            j = j - 1;
        }
        proof {
            lemma_insert_at(rules@, r, j as int);
        }
        rules.insert(j, r);
        k = k + 1;
    }
    assert(orig.take(k as int) =~= orig);
}

/// Every rule of `s` has a priority at least that of every later rule.
pub open spec fn sorted_desc(s: Seq<Rule>) -> bool {
    forall|i: int, j: int| 0 <= i < j < s.len() ==> (#[trigger] s[i]).priority >= (#[trigger] s[j]).priority
}

/// The rules of `s` with priority `p`, in order.
pub open spec fn with_priority(s: Seq<Rule>, p: i64) -> Seq<Rule>
    decreases s.len(),
{
    if s.len() == 0 {
        s
    } else {
        let r = with_priority(s.drop_last(), p);
        if s.last().priority == p {
            r.push(s.last())
        } else {
            r
        }
    }
}

/// The position at which [`insert_by_priority`] puts `r`.
pub open spec fn insert_pos(s: Seq<Rule>, r: Rule) -> int
    decreases s.len(),
{
    if s.len() == 0 {
        0
    } else if s.last().priority >= r.priority {
        s.len() as int
    } else {
        insert_pos(s.drop_last(), r)
    }
}

proof fn lemma_insert_pos(s: Seq<Rule>, r: Rule)
    ensures
        0 <= insert_pos(s, r) <= s.len(),
        forall|k: int| insert_pos(s, r) <= k < s.len() ==> (#[trigger] s[k]).priority < r.priority,
        insert_pos(s, r) == 0 || s[insert_pos(s, r) - 1].priority >= r.priority,
    decreases s.len(),
{
    if s.len() > 0 && s.last().priority < r.priority {
        let d = s.drop_last();
        lemma_insert_pos(d, r);
        assert forall|k: int| insert_pos(s, r) <= k < s.len() implies (#[trigger] s[k]).priority
            < r.priority by {
            if k < s.len() - 1 {
                assert(s[k] == d[k]);
            }
        }
        if insert_pos(s, r) > 0 {
            assert(s[insert_pos(s, r) - 1] == d[insert_pos(s, r) - 1]);
        }
    }
}

proof fn lemma_with_priority_insert(s: Seq<Rule>, r: Rule, p: i64)
    ensures
        with_priority(insert_by_priority(s, r), p) == with_priority(s.push(r), p),
    decreases s.len(),
{
    if s.len() > 0 && s.last().priority < r.priority {
        let d = s.drop_last();
        let l = s.last();
        let x = insert_by_priority(d, r);
        lemma_with_priority_insert(d, r, p);
        assert(insert_by_priority(s, r) == x.push(l));
        assert(x.push(l).drop_last() =~= x);
        assert(s.push(r).drop_last() =~= s);
        assert(d.push(r).drop_last() =~= d);
        let wd = with_priority(d, p);
        assert(with_priority(x.push(l), p) == if l.priority == p { with_priority(x, p).push(l) } else { with_priority(x, p) });
        assert(with_priority(d.push(r), p) == if r.priority == p { wd.push(r) } else { wd });
        assert(with_priority(s, p) == if l.priority == p { wd.push(l) } else { wd });
        assert(with_priority(s.push(r), p) == if r.priority == p { with_priority(s, p).push(r) } else { with_priority(s, p) });
    } else if s.len() == 0 {
        assert(insert_by_priority(s, r) =~= s.push(r));
    }
}

/// Listing rules by priority puts them from the highest priority to the
/// lowest, loses and adds none, and keeps the rules of each priority in
/// the order given.
pub proof fn law_sorted_by_priority(rules: Seq<Rule>, p: i64)
    ensures
        sorted_desc(sorted_by_priority(rules)),
        sorted_by_priority(rules).to_multiset() == rules.to_multiset(),
        with_priority(sorted_by_priority(rules), p) == with_priority(rules, p),
    decreases rules.len(),
{
    broadcast use vstd::seq_lib::to_multiset_build, vstd::seq_lib::to_multiset_insert;

    if rules.len() == 0 {
        return;
    }
    let d = rules.drop_last();
    let r = rules.last();
    let s = sorted_by_priority(d);
    law_sorted_by_priority(d, p);
    lemma_insert_pos(s, r);
    let j = insert_pos(s, r);
    lemma_insert_at(s, r, j);
    let res = s.insert(j, r);
    assert(sorted_by_priority(rules) == res);
    assert forall|a: int, b: int| 0 <= a < b < res.len() implies (#[trigger] res[a]).priority
        >= (#[trigger] res[b]).priority by {
        if b < j {
            assert(res[a] == s[a] && res[b] == s[b]);
        } else if b == j {
            assert(res[a] == s[a]);
            assert(s[a].priority >= s[j - 1].priority);
        } else if a < j {
            assert(res[a] == s[a] && res[b] == s[b - 1]);
        } else if a == j {
            assert(res[b] == s[b - 1]);
        } else {
            assert(res[a] == s[a - 1] && res[b] == s[b - 1]);
        }
    }
    assert(d.push(r) =~= rules);
    lemma_with_priority_insert(s, r, p);
    assert(s.push(r).drop_last() =~= s);
    assert(d.push(r).drop_last() =~= d);
}

// ---------------------------------------------------------------------------
// Status lines
// ---------------------------------------------------------------------------

/// Something the settings window reports in its status line.
#[derive(Debug, Clone, PartialEq, Eq)]
pub enum SettingsStatus {
    /// The configuration was written to this path.
    Saved { path: String },
    /// Writing the configuration failed.
    SaveFailed { error: String },
    /// Discovery added this many browsers.
    Discovered { added: usize },
    /// Discovery failed.
    DiscoveryFailed { error: String },
    /// `br` is now the default browser.
    Registered,
    /// The system asks the user to confirm; these are its instructions.
    NeedsManualConfirmation { instructions: String },
    /// Registration failed.
    RegistrationFailed { error: String },
    /// The daemon now starts on login.
    AutostartEnabled,
    /// The daemon no longer starts on login.
    AutostartDisabled,
    /// Changing the autostart setting failed.
    AutostartFailed { error: String },
}

/// The status line for `status` in `language` (Portuguese or English).
pub open spec fn spec_status_text(language: Seq<char>, status: SettingsStatus) -> Seq<char> {
    let pt = is_portuguese(language);
    match status {
        SettingsStatus::Saved { path } => if pt {
            "Salvo em "@ + path@
        } else {
            "Saved to "@ + path@
        },
        SettingsStatus::SaveFailed { error } => if pt {
            "Falha ao salvar: "@ + error@
        } else {
            "Failed to save: "@ + error@
        },
        SettingsStatus::Discovered { added } => if pt {
            decimal(added as nat) + " novo(s) navegador(es) detectado(s)."@
        } else {
            "Discovered "@ + decimal(added as nat) + " new browser(s)."@
        },
        SettingsStatus::DiscoveryFailed { error } => if pt {
            "Falha na detecção: "@ + error@
        } else {
            "Discovery failed: "@ + error@
        },
        SettingsStatus::Registered => if pt {
            "br agora é o navegador padrão."@
        } else {
            "br is now the default browser."@
        },
        SettingsStatus::NeedsManualConfirmation { instructions } => instructions@,
        SettingsStatus::RegistrationFailed { error } => if pt {
            "Falha no registro: "@ + error@
        } else {
            "Registration failed: "@ + error@
        },
        SettingsStatus::AutostartEnabled => if pt {
            "br-daemon agora iniciará com o sistema."@
        } else {
            "br-daemon will now start on login."@
        },
        SettingsStatus::AutostartDisabled => if pt {
            "Inicialização automática do br-daemon desativada."@
        } else {
            "br-daemon autostart disabled."@
        },
        SettingsStatus::AutostartFailed { error } => if pt {
            "Falha ao atualizar inicialização automática: "@ + error@
        } else {
            "Failed to update autostart: "@ + error@
        },
    }
}

/// The status line for `status` in `language`.
pub fn status_text(language: &str, status: &SettingsStatus) -> (res: String)
    ensures
        res@ == spec_status_text(language@, *status),
{
    let pt = eq_ignore_case(language, "pt-BR") || eq_ignore_case(language, "pt");
    match status {
        SettingsStatus::Saved { path } => if pt {
            concat("Salvo em ", path.as_str())
        } else {
            concat("Saved to ", path.as_str())
        },
        SettingsStatus::SaveFailed { error } => if pt {
            concat("Falha ao salvar: ", error.as_str())
        } else {
            concat("Failed to save: ", error.as_str())
        },
        SettingsStatus::Discovered { added } => {
            let n = usize_to_decimal(*added);
            if pt {
                let mut s = n;
                s.append(" novo(s) navegador(es) detectado(s).");
                s
            } else {
                let mut s = concat("Discovered ", n.as_str());
                s.append(" new browser(s).");
                s
            }
        },
        SettingsStatus::DiscoveryFailed { error } => if pt {
            concat("Falha na detecção: ", error.as_str())
        } else {
            concat("Discovery failed: ", error.as_str())
        },
        SettingsStatus::Registered => if pt {
            owned("br agora é o navegador padrão.")
        } else {
            owned("br is now the default browser.")
        },
        SettingsStatus::NeedsManualConfirmation { instructions } => instructions.clone(),
        SettingsStatus::RegistrationFailed { error } => if pt {
            concat("Falha no registro: ", error.as_str())
        } else {
            concat("Registration failed: ", error.as_str())
        },
        SettingsStatus::AutostartEnabled => if pt {
            owned("br-daemon agora iniciará com o sistema.")
        } else {
            owned("br-daemon will now start on login.")
        },
        SettingsStatus::AutostartDisabled => if pt {
            owned("Inicialização automática do br-daemon desativada.")
        } else {
            owned("br-daemon autostart disabled.")
        },
        SettingsStatus::AutostartFailed { error } => if pt {
            concat("Falha ao atualizar inicialização automática: ", error.as_str())
        } else {
            concat("Failed to update autostart: ", error.as_str())
        },
    }
}

// ---------------------------------------------------------------------------
// Colours
// ---------------------------------------------------------------------------

/// A colour role of the settings window's Material look.
#[derive(Debug, Clone, Copy, PartialEq, Eq)]
pub enum MaterialRole {
    Background,
    Surface,
    SurfaceContainer,
    SurfaceContainerLow,
    Outline,
    Primary,
    OnSurface,
    OnSurfaceVariant,
    Error,
    Hover,
    Active,
    Tonal,
    OnPrimary,
}

/// The RGB colour of `role` in the dark or the light theme.
pub open spec fn spec_material_color(role: MaterialRole, dark: bool) -> (u8, u8, u8) {
    match role {
        MaterialRole::Background => if dark { (5, 17, 39) } else { (244, 248, 252) },
        MaterialRole::Surface => if dark { (7, 24, 54) } else { (250, 252, 255) },
        MaterialRole::SurfaceContainer => if dark { (16, 42, 82) } else { (229, 239, 250) },
        MaterialRole::SurfaceContainerLow => if dark { (11, 30, 62) } else { (238, 245, 252) },
        MaterialRole::Outline => if dark { (57, 91, 135) } else { (176, 194, 218) },
        MaterialRole::Primary => if dark { (255, 203, 64) } else { (20, 83, 170) },
        MaterialRole::OnSurface => if dark { (238, 244, 250) } else { (5, 17, 39) },
        MaterialRole::OnSurfaceVariant => if dark { (190, 207, 229) } else { (47, 69, 98) },
        MaterialRole::Error => if dark { (242, 184, 181) } else { (179, 38, 30) },
        MaterialRole::Hover => if dark { (20, 56, 106) } else { (219, 234, 250) },
        MaterialRole::Active => if dark { (32, 86, 156) } else { (194, 221, 250) },
        MaterialRole::Tonal => if dark { (28, 76, 139) } else { (219, 234, 250) },
        MaterialRole::OnPrimary => if dark { (5, 17, 39) } else { (255, 255, 255) },
    }
}

/// The RGB colour of `role` in the dark or the light theme.
pub fn material_color(role: MaterialRole, dark: bool) -> (res: (u8, u8, u8))
    ensures
        res == spec_material_color(role, dark),
{
    match role {
        MaterialRole::Background => if dark { (5, 17, 39) } else { (244, 248, 252) },
        MaterialRole::Surface => if dark { (7, 24, 54) } else { (250, 252, 255) },
        MaterialRole::SurfaceContainer => if dark { (16, 42, 82) } else { (229, 239, 250) },
        MaterialRole::SurfaceContainerLow => if dark { (11, 30, 62) } else { (238, 245, 252) },
        MaterialRole::Outline => if dark { (57, 91, 135) } else { (176, 194, 218) },
        MaterialRole::Primary => if dark { (255, 203, 64) } else { (20, 83, 170) },
        MaterialRole::OnSurface => if dark { (238, 244, 250) } else { (5, 17, 39) },
        MaterialRole::OnSurfaceVariant => if dark { (190, 207, 229) } else { (47, 69, 98) },
        MaterialRole::Error => if dark { (242, 184, 181) } else { (179, 38, 30) },
        MaterialRole::Hover => if dark { (20, 56, 106) } else { (219, 234, 250) },
        MaterialRole::Active => if dark { (32, 86, 156) } else { (194, 221, 250) },
        MaterialRole::Tonal => if dark { (28, 76, 139) } else { (219, 234, 250) },
        MaterialRole::OnPrimary => if dark { (5, 17, 39) } else { (255, 255, 255) },
    }
}


/// The rule found in order is one of the rules.
proof fn lemma_best_rule_in(rules: Seq<Rule>, url: Seq<char>, ctx: RoutingContext)
    ensures
        best_rule(rules, url, ctx) matches Some(b) ==> rules.contains(b),
    decreases rules.len(),
{
    if rules.len() > 0 {
        lemma_best_rule_in(rules.drop_last(), url, ctx);
        if best_rule(rules, url, ctx) == best_rule(rules.drop_last(), url, ctx) {
            if let Some(b) = best_rule(rules, url, ctx) {
                let k = choose|k: int| 0 <= k < rules.drop_last().len() && rules.drop_last()[k] == b;
                assert(rules[k] == b);
            }
        } else {
            assert(rules[rules.len() - 1] == rules.last());
        }
    }
}

/// Inserting a rule by priority into rules ordered by priority gives the
/// same winner as looking at that rule last.
proof fn lemma_best_rule_insert(s: Seq<Rule>, r: Rule, url: Seq<char>, ctx: RoutingContext)
    requires
        sorted_desc(s),
    ensures
        best_rule(insert_by_priority(s, r), url, ctx) == better_rule(best_rule(s, url, ctx), r, url, ctx),
    decreases s.len(),
{
    if s.len() == 0 {
        assert(seq![r].drop_last() =~= Seq::<Rule>::empty());
        assert(best_rule(Seq::<Rule>::empty(), url, ctx) is None);
        assert(seq![r].last() == r);
    } else if s.last().priority >= r.priority {
        assert(s.push(r).drop_last() =~= s);
    } else {
        let d = s.drop_last();
        let l = s.last();
        assert(sorted_desc(d)) by {
            assert forall|a: int, b: int| 0 <= a < b < d.len() implies (#[trigger] d[a]).priority
                >= (#[trigger] d[b]).priority by {
                assert(d[a] == s[a] && d[b] == s[b]);
            }
        }
        lemma_best_rule_insert(d, r, url, ctx);
        let ins = insert_by_priority(d, r);
        assert(insert_by_priority(s, r) == ins.push(l));
        assert(ins.push(l).drop_last() =~= ins);
        assert(best_rule(ins.push(l), url, ctx) == better_rule(best_rule(ins, url, ctx), l, url, ctx));
        assert(best_rule(s, url, ctx) == better_rule(best_rule(d, url, ctx), l, url, ctx));
        lemma_best_rule_in(d, url, ctx);
        match best_rule(d, url, ctx) {
            Some(b) => {
                let k = choose|k: int| 0 <= k < d.len() && d[k] == b;
                assert(s[k] == d[k]);
                assert(s[k].priority >= s[s.len() - 1].priority);
                assert(better_rule(Some(b), l, url, ctx) == Some(b));
            },
            None => {},
        }
    }
}

/// Ordering rules by priority keeps the rule that wins, for every URL and
/// context.
proof fn lemma_sorted_keeps_best(rules: Seq<Rule>, url: Seq<char>, ctx: RoutingContext)
    ensures
        best_rule(sorted_by_priority(rules), url, ctx) == best_rule(rules, url, ctx),
    decreases rules.len(),
{
    if rules.len() > 0 {
        lemma_sorted_keeps_best(rules.drop_last(), url, ctx);
        law_sorted_by_priority(rules.drop_last(), 0);
        lemma_best_rule_insert(sorted_by_priority(rules.drop_last()), rules.last(), url, ctx);
    }
}

/// Showing the rules ordered by priority changes no routing: for every URL
/// and context the configuration with its rules ordered by priority takes
/// the same decision, through the same rule, as before.
pub proof fn law_sorting_rules_keeps_routing(cfg: Config, sorted: Config, url: Seq<char>, ctx: RoutingContext)
    requires
        sorted.rules@ == sorted_by_priority(cfg.rules@),
        sorted.general == cfg.general,
        sorted.filters == cfg.filters,
    ensures
        spec_route(url, ctx, sorted) == spec_route(url, ctx, cfg),
        winning_rule(sorted.rules@, spec_normalized(url, sorted), ctx) == winning_rule(
            cfg.rules@,
            spec_normalized(url, cfg),
            ctx,
        ),
{
    let n = spec_normalized(url, cfg);
    assert(spec_normalized(url, sorted) == n);
    lemma_sorted_keeps_best(cfg.rules@, n, ctx);
    lemma_winning_rule_is_best(cfg.rules@, n, ctx);
    lemma_winning_rule_is_best(sorted.rules@, n, ctx);
    lemma_route_by_winning_rule(url, ctx, sorted, cfg);
}

} // verus!
