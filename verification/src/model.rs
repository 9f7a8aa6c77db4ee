//! Configuration model: browsers, filters, rules and routing results.
use vstd::prelude::*;

use crate::text::{chars_of, concat, owned, starts_with, starts_with_at, string_of_range, views, eq_str};

verus! {

/// What happens when no rule matches (or a matching rule names no target).
#[derive(Debug, Clone, PartialEq, Eq)]
pub enum DefaultAction {
    Ask,
    OpenWith(String),
}

impl Default for DefaultAction {
    fn default() -> (r: Self)
        ensures
            r == DefaultAction::Ask,
    {
        DefaultAction::Ask
    }
}

/// `default_action` as stored in the configuration file: `"ask"` or `"open_with:<id>"`.
#[derive(Debug, Clone, PartialEq, Eq)]
pub struct DefaultActionSerde(pub DefaultAction);

impl Default for DefaultActionSerde {
    fn default() -> (r: Self)
        ensures
            r.0 == DefaultAction::Ask,
    {
        DefaultActionSerde(DefaultAction::Ask)
    }
}

/// The mathematical value of a [`DefaultAction`].
pub enum DefaultActionView {
    Ask,
    OpenWith(Seq<char>),
}

impl View for DefaultAction {
    type V = DefaultActionView;

    open spec fn view(&self) -> DefaultActionView {
        match self {
            DefaultAction::Ask => DefaultActionView::Ask,
            DefaultAction::OpenWith(id) => DefaultActionView::OpenWith(id@),
        }
    }
}

/// How a default action is written: `"ask"` or `"open_with:<id>"`.
pub open spec fn spec_default_action_string(a: DefaultActionView) -> Seq<char> {
    match a {
        DefaultActionView::Ask => "ask"@,
        DefaultActionView::OpenWith(id) => "open_with:"@ + id,
    }
}

/// The default action a string denotes, if it is `"ask"` or starts with `"open_with:"`.
pub open spec fn spec_parse_default_action(s: Seq<char>) -> Option<DefaultActionView> {
    if s == "ask"@ {
        Some(DefaultActionView::Ask)
    } else if starts_with(s, "open_with:"@) {
        Some(DefaultActionView::OpenWith(s.skip(10)))
    } else {
        None
    }
}

/// The message for a string that denotes no default action.
pub open spec fn spec_default_action_error(s: Seq<char>) -> Seq<char> {
    "invalid default_action '"@ + s + "': expected 'ask' or 'open_with:<id>'"@
}

impl DefaultActionSerde {
    /// Reads a default action from its configuration-file form.
    pub fn try_from(value: String) -> (res: Result<Self, String>)
        ensures
            match res {
                Ok(a) => spec_parse_default_action(value@) == Some(a.0@),
                Err(msg) => spec_parse_default_action(value@).is_none() && msg@
                    == spec_default_action_error(value@),
            },
    {
        if eq_str(value.as_str(), "ask") {
            return Ok(DefaultActionSerde(DefaultAction::Ask));
        }
        let v = chars_of(value.as_str());
        let prefix = chars_of("open_with:");
        assert(v@.skip(0) =~= v@);
        if starts_with_at(&v, 0, &prefix) {
            proof {
                reveal_strlit("open_with:");
            }
            let id = string_of_range(&v, 10, v.len());
            assert(v@.subrange(10, v@.len() as int) =~= v@.skip(10));
            Ok(DefaultActionSerde(DefaultAction::OpenWith(id)))
        } else {
            let mut msg = concat("invalid default_action '", value.as_str());
            msg.append("': expected 'ask' or 'open_with:<id>'");
            Err(msg)
        }
    }

    /// Writes a default action in its configuration-file form.
    pub fn into_string(self) -> (res: String)
        ensures
            res@ == spec_default_action_string(self.0@),
    {
        match self.0 {
            DefaultAction::Ask => owned("ask"),
            DefaultAction::OpenWith(id) => concat("open_with:", id.as_str()),
        }
    }
}

/// Reading back a written default action gives the same action.
pub proof fn law_default_action_round_trip(a: DefaultActionView)
    ensures
        spec_parse_default_action(spec_default_action_string(a)) == Some(a),
{
    reveal_strlit("ask");
    reveal_strlit("open_with:");
    match a {
        DefaultActionView::Ask => {},
        DefaultActionView::OpenWith(id) => {
            let s = "open_with:"@ + id;
            assert(s.len() != "ask"@.len());
            assert(s.subrange(0, 10) =~= "open_with:"@);
            assert(s.skip(10) =~= id);
        },
    }
}

/// Writing back a default action read from a string gives the same string.
pub proof fn law_default_action_string_round_trip(s: Seq<char>)
    requires
        spec_parse_default_action(s).is_some(),
    ensures
        spec_default_action_string(spec_parse_default_action(s).unwrap()) == s,
{
    reveal_strlit("ask");
    reveal_strlit("open_with:");
    if s != "ask"@ {
        assert(s =~= s.subrange(0, 10) + s.skip(10));
    }
}

/// General settings (the numeric window-geometry settings of the picker
/// window are handled by the user interface and are not part of this model).
#[derive(Debug, Clone, PartialEq, Eq)]
pub struct General {
    pub default_action: DefaultActionSerde,
    pub picker_timeout_ms: u64,
    pub picker_position: String,
    pub theme: String,
    pub picker_background: String,
    pub picker_background_color: String,
    pub picker_background_image: Option<String>,
    pub picker_acrylic: bool,
    pub language: String,
    pub start_on_login: bool,
    pub log_level: String,
}

/// The settings a fresh configuration starts from.
pub open spec fn is_default_general(g: General) -> bool {
    &&& g.default_action.0 == DefaultAction::Ask
    &&& g.picker_timeout_ms == 0
    &&& g.picker_position@ == "cursor"@
    &&& g.theme@ == "system"@
    &&& g.picker_background@ == "bubbles"@
    &&& g.picker_background_color@ == "#1453aa"@
    &&& g.picker_background_image.is_none()
    &&& !g.picker_acrylic
    &&& g.language@ == "en"@
    &&& !g.start_on_login
    &&& g.log_level@ == "warn"@
}

impl Default for General {
    fn default() -> (r: Self)
        ensures
            is_default_general(r),
    {
        General {
            default_action: DefaultActionSerde(DefaultAction::Ask),
            picker_timeout_ms: 0,
            picker_position: default_picker_position(),
            theme: default_theme(),
            picker_background: default_picker_background(),
            picker_background_color: default_picker_background_color(),
            picker_background_image: None,
            picker_acrylic: default_picker_acrylic(),
            language: default_language(),
            start_on_login: false,
            log_level: default_log_level(),
        }
    }
}

/// Default picker position.
pub fn default_picker_position() -> (r: String)
    ensures
        r@ == "cursor"@,
{
    owned("cursor")
}

/// Default theme.
pub fn default_theme() -> (r: String)
    ensures
        r@ == "system"@,
{
    owned("system")
}

/// Default picker background style.
pub fn default_picker_background() -> (r: String)
    ensures
        r@ == "bubbles"@,
{
    owned("bubbles")
}

/// Default picker background color.
pub fn default_picker_background_color() -> (r: String)
    ensures
        r@ == "#1453aa"@,
{
    owned("#1453aa")
}

/// Default for the picker's acrylic effect (off).
pub fn default_picker_acrylic() -> (r: bool)
    ensures
        !r,
{
    false
}

/// Default UI language.
pub fn default_language() -> (r: String)
    ensures
        r@ == "en"@,
{
    owned("en")
}

/// Default log level.
pub fn default_log_level() -> (r: String)
    ensures
        r@ == "warn"@,
{
    owned("warn")
}

/// Default browser kind.
pub fn default_kind() -> (r: String)
    ensures
        r@ == "generic"@,
{
    owned("generic")
}

/// Default executable (`"auto"`: resolved against discovered browsers).
pub fn default_executable() -> (r: String)
    ensures
        r@ == "auto"@,
{
    owned("auto")
}

/// Default for boolean switches that are on unless stated otherwise.
pub fn default_true() -> (r: bool)
    ensures
        r,
{
    true
}

/// A browser (or browser profile) that URLs can be opened in.
#[derive(Debug, Clone, PartialEq, Eq)]
pub struct BrowserTarget {
    pub id: String,
    pub name: String,
    pub kind: String,
    pub executable: String,
    pub args: Vec<String>,
    pub profile_dir: Option<String>,
    pub profile_name: Option<String>,
    pub icon: Option<String>,
    pub hidden: bool,
}

/// A URL filter: tracking-parameter stripping, HTTPS upgrade, regex rewrite.
#[derive(Debug, Clone, PartialEq, Eq)]
pub struct Filter {
    pub id: String,
    pub enabled: bool,
    pub strip_query_params: Vec<String>,
    pub upgrade_http_to_https: bool,
    pub exceptions: Vec<String>,
    pub rewrite_pattern: Option<String>,
    pub rewrite_replacement: Option<String>,
}

impl Default for Filter {
    fn default() -> (r: Self)
        ensures
            r.id@ == Seq::<char>::empty(),
            !r.enabled,
            r.strip_query_params@.len() == 0,
            !r.upgrade_http_to_https,
            r.exceptions@.len() == 0,
            r.rewrite_pattern.is_none(),
            r.rewrite_replacement.is_none(),
    {
        Filter {
            id: String::new(),
            enabled: false,
            strip_query_params: Vec::new(),
            upgrade_http_to_https: false,
            exceptions: Vec::new(),
            rewrite_pattern: None,
            rewrite_replacement: None,
        }
    }
}

/// A routing rule: conditions on the URL and its context, and an action.
#[derive(Debug, Clone, PartialEq, Eq)]
pub struct Rule {
    pub id: String,
    pub name: String,
    pub enabled: bool,
    pub priority: i64,
    pub match_: MatchCondition,
    pub action: Action,
}

impl Default for Rule {
    fn default() -> (r: Self)
        ensures
            r.id@ == Seq::<char>::empty(),
            r.name@ == Seq::<char>::empty(),
            !r.enabled,
            r.priority == 0,
            is_empty_condition(r.match_),
            is_empty_action(r.action),
    {
        Rule {
            id: String::new(),
            name: String::new(),
            enabled: false,
            priority: 0,
            match_: MatchCondition::default(),
            action: Action::default(),
        }
    }
}

/// Conditions of a rule; every non-empty list must be satisfied.
#[derive(Debug, Clone, PartialEq, Eq)]
pub struct MatchCondition {
    pub url_pattern: Vec<String>,
    pub host: Vec<String>,
    pub path: Vec<String>,
    pub query_param: Vec<QueryParamMatch>,
    pub source_app: Vec<String>,
    pub modifier_keys: Vec<String>,
}

/// A condition with no constraints.
pub open spec fn is_empty_condition(c: MatchCondition) -> bool {
    &&& c.url_pattern@.len() == 0
    &&& c.host@.len() == 0
    &&& c.path@.len() == 0
    &&& c.query_param@.len() == 0
    &&& c.source_app@.len() == 0
    &&& c.modifier_keys@.len() == 0
}

impl Default for MatchCondition {
    fn default() -> (r: Self)
        ensures
            is_empty_condition(r),
    {
        MatchCondition {
            url_pattern: Vec::new(),
            host: Vec::new(),
            path: Vec::new(),
            query_param: Vec::new(),
            source_app: Vec::new(),
            modifier_keys: Vec::new(),
        }
    }
}

/// A query-parameter condition: a bare name, or a name with an optional value.
#[derive(Debug, Clone, PartialEq, Eq)]
pub enum QueryParamMatch {
    Name(String),
    Condition { name: String, value: Option<String> },
}

/// What a matching rule does.
#[derive(Debug, Clone, PartialEq, Eq)]
pub struct Action {
    pub open_with: Option<String>,
    pub open_with_all: Vec<String>,
    pub private: bool,
    pub ask: bool,
    pub block: bool,
}

/// An action with nothing set.
pub open spec fn is_empty_action(a: Action) -> bool {
    &&& a.open_with.is_none()
    &&& a.open_with_all@.len() == 0
    &&& !a.private
    &&& !a.ask
    &&& !a.block
}

impl Default for Action {
    fn default() -> (r: Self)
        ensures
            is_empty_action(r),
    {
        Action { open_with: None, open_with_all: Vec::new(), private: false, ask: false, block: false }
    }
}

/// The whole configuration.
#[derive(Debug, Clone, PartialEq, Eq)]
pub struct Config {
    pub config_version: u32,
    pub general: General,
    pub browsers: Vec<BrowserTarget>,
    pub filters: Vec<Filter>,
    pub rules: Vec<Rule>,
}

impl Default for Config {
    /// The fail-safe configuration: no browsers, filters or rules, so every
    /// URL goes to the picker.
    fn default() -> (r: Self)
        ensures
            r.config_version == 0,
            is_default_general(r.general),
            r.browsers@.len() == 0,
            r.filters@.len() == 0,
            r.rules@.len() == 0,
    {
        Config {
            config_version: 0,
            general: General::default(),
            browsers: Vec::new(),
            filters: Vec::new(),
            rules: Vec::new(),
        }
    }
}

/// The result of evaluating filters and rules for a URL.
#[derive(Debug, Clone, PartialEq, Eq)]
pub enum RoutingDecision {
    OpenWith { target: String, private: bool },
    OpenWithAll { targets: Vec<String>, private: bool },
    AskUser,
    Block,
}

/// The mathematical value of a [`RoutingDecision`].
pub enum DecisionView {
    OpenWith { target: Seq<char>, private: bool },
    OpenWithAll { targets: Seq<Seq<char>>, private: bool },
    AskUser,
    Block,
}

impl View for RoutingDecision {
    type V = DecisionView;

    open spec fn view(&self) -> DecisionView {
        match self {
            RoutingDecision::OpenWith { target, private } => DecisionView::OpenWith {
                target: target@,
                private: *private,
            },
            RoutingDecision::OpenWithAll { targets, private } => DecisionView::OpenWithAll {
                targets: views(targets@),
                private: *private,
            },
            RoutingDecision::AskUser => DecisionView::AskUser,
            RoutingDecision::Block => DecisionView::Block,
        }
    }
}

/// Context of a routing request (e.g. the app that originated the click).
#[derive(Debug, Clone, PartialEq, Eq)]
pub struct RoutingContext {
    pub source_app: Option<String>,
    pub modifier_keys: Vec<String>,
}

impl Default for RoutingContext {
    fn default() -> (r: Self)
        ensures
            r.source_app.is_none(),
            r.modifier_keys@.len() == 0,
    {
        RoutingContext { source_app: None, modifier_keys: Vec::new() }
    }
}

/// Which rule (if any) produced a [`RoutingDecision`], and the filtered URL.
#[derive(Debug, Clone, PartialEq, Eq)]
pub struct RoutingExplanation {
    pub normalized_url: String,
    pub matched_rule: Option<String>,
    pub decision: RoutingDecision,
}

} // verus!
