//! Structural validation of a configuration: supported version, unique
//! browser and rule ids, and rules that only name known browsers.
use vstd::prelude::*;

use crate::model::{BrowserTarget, Config, Rule};
use crate::text::{concat, eq_str, owned, push_char, views};

verus! {

/// The newest configuration format this library understands.
pub const CURRENT_CONFIG_VERSION: u32 = 1;

/// Why a configuration was rejected.
#[derive(Debug, Clone, PartialEq, Eq)]
pub enum ConfigError {
    /// `config_version` is newer than [`CURRENT_CONFIG_VERSION`].
    NewerVersion { found: u32, supported: u32 },
    /// Two browsers share this id.
    DuplicateBrowserId(String),
    /// Two rules share this id.
    DuplicateRuleId(String),
    /// A rule names a browser id that no browser has.
    UnknownBrowserTarget { rule: String, target: String },
}

/// Browser `i` repeats the id of an earlier browser.
pub open spec fn browser_dup_at(browsers: Seq<BrowserTarget>, i: int) -> bool {
    exists|j: int| #![trigger browsers[j]] 0 <= j < i && browsers[j].id@ == browsers[i].id@
}

/// Some browser repeats an earlier id.
pub open spec fn has_dup_browser(browsers: Seq<BrowserTarget>) -> bool {
    exists|i: int| 0 <= i < browsers.len() && #[trigger] browser_dup_at(browsers, i)
}

/// Rule `i` repeats the id of an earlier rule.
pub open spec fn rule_dup_at(rules: Seq<Rule>, i: int) -> bool {
    exists|j: int| #![trigger rules[j]] 0 <= j < i && rules[j].id@ == rules[i].id@
}

/// The browser ids a rule's action names: `open_with_all` in order, then `open_with`.
pub open spec fn rule_targets(rule: Rule) -> Seq<Seq<char>> {
    views(rule.action.open_with_all@) + match rule.action.open_with {
        Some(t) => seq![t@],
        None => Seq::<Seq<char>>::empty(),
    }
}

/// Some browser has id `id`.
pub open spec fn known_browser(browsers: Seq<BrowserTarget>, id: Seq<char>) -> bool {
    exists|k: int| 0 <= k < browsers.len() && #[trigger] browsers[k].id@ == id
}

/// Target `k` of `targets` is the first one that is not a known browser.
pub open spec fn first_unknown_target(
    browsers: Seq<BrowserTarget>,
    targets: Seq<Seq<char>>,
    k: int,
) -> bool {
    &&& 0 <= k < targets.len()
    &&& !known_browser(browsers, targets[k])
    &&& forall|m: int| 0 <= m < k ==> known_browser(browsers, #[trigger] targets[m])
}

/// Rule `i` repeats an id or names an unknown browser.
pub open spec fn rule_bad(config: Config, i: int) -> bool {
    ||| rule_dup_at(config.rules@, i)
    ||| exists|k: int|
        0 <= k < rule_targets(config.rules@[i]).len() && !known_browser(
            config.browsers@,
            #[trigger] rule_targets(config.rules@[i])[k],
        )
}

/// Rule `i` is the first rule that repeats an id or names an unknown browser.
pub open spec fn first_bad_rule(config: Config, i: int) -> bool {
    &&& 0 <= i < config.rules@.len()
    &&& rule_bad(config, i)
    &&& forall|j: int| 0 <= j < i ==> !#[trigger] rule_bad(config, j)
}

/// The configuration passes validation.
pub open spec fn spec_valid(config: Config) -> bool {
    &&& config.config_version <= CURRENT_CONFIG_VERSION
    &&& !has_dup_browser(config.browsers@)
    &&& forall|i: int| 0 <= i < config.rules@.len() ==> !#[trigger] rule_bad(config, i)
}

/// The error `validate` reports for `config`, as a predicate on the error.
pub open spec fn reports(config: Config, err: ConfigError) -> bool {
    match err {
        ConfigError::NewerVersion { found, supported } => {
            &&& config.config_version > CURRENT_CONFIG_VERSION
            &&& found == config.config_version
            &&& supported == CURRENT_CONFIG_VERSION
        },
        ConfigError::DuplicateBrowserId(id) => {
            &&& config.config_version <= CURRENT_CONFIG_VERSION
            &&& exists|i: int|
                #![trigger browser_dup_at(config.browsers@, i)]
                0 <= i < config.browsers@.len() && browser_dup_at(config.browsers@, i) && (forall|
                    j: int,
                | 0 <= j < i ==> !#[trigger] browser_dup_at(config.browsers@, j)) && id@
                    == config.browsers@[i].id@
        },
        ConfigError::DuplicateRuleId(id) => {
            &&& config.config_version <= CURRENT_CONFIG_VERSION
            &&& !has_dup_browser(config.browsers@)
            &&& exists|i: int|
                first_bad_rule(config, i) && rule_dup_at(config.rules@, i) && id@
                    == config.rules@[i].id@
        },
        ConfigError::UnknownBrowserTarget { rule, target } => {
            &&& config.config_version <= CURRENT_CONFIG_VERSION
            &&& !has_dup_browser(config.browsers@)
            &&& exists|i: int, k: int|
                first_bad_rule(config, i) && !rule_dup_at(config.rules@, i) && first_unknown_target(
                    config.browsers@,
                    rule_targets(config.rules@[i]),
                    k,
                ) && rule@ == config.rules@[i].id@ && target@ == rule_targets(config.rules@[i])[k]
        },
    }
}

/// Performs structural validation beyond what parsing checks: `config_version`
/// compatibility, duplicate ids, and dangling references from rules to browser
/// targets. The first problem found, in that order, is reported.
pub fn validate(config: &Config) -> (res: Result<(), ConfigError>)
    ensures
        res.is_ok() == spec_valid(*config),
        match res {
            Ok(()) => true,
            Err(e) => reports(*config, e),
        },
{
    if config.config_version > CURRENT_CONFIG_VERSION {
        return Err(
            ConfigError::NewerVersion {
                found: config.config_version,
                supported: CURRENT_CONFIG_VERSION,
            },
        );
    }
    let browsers = &config.browsers;
    let mut i: usize = 0;
    while i < browsers.len()
        invariant
            i <= browsers@.len(),
            browsers@ == config.browsers@,
            config.config_version <= CURRENT_CONFIG_VERSION,
            forall|j: int| 0 <= j < i ==> !#[trigger] browser_dup_at(browsers@, j),
        decreases browsers@.len() - i,
    {
        if id_among(browsers, i, browsers[i].id.as_str()) {
            assert(browser_dup_at(browsers@, i as int));
            assert(has_dup_browser(config.browsers@));
            assert(forall|j: int| 0 <= j < i ==> !#[trigger] browser_dup_at(config.browsers@, j));
            assert(0 <= i < config.browsers@.len() && browser_dup_at(config.browsers@, i as int)
                && (forall|j: int| 0 <= j < i ==> !#[trigger] browser_dup_at(config.browsers@, j))
                && browsers[i as int].id@ == config.browsers@[i as int].id@);
            let e = ConfigError::DuplicateBrowserId(browsers[i].id.clone());
            assert(reports(*config, e));
            return Err(e);
        }
        i = i + 1;
    }
    let rules = &config.rules;
    let mut r: usize = 0;
    while r < rules.len()
        invariant
            r <= rules@.len(),
            rules@ == config.rules@,
            browsers@ == config.browsers@,
            config.config_version <= CURRENT_CONFIG_VERSION,
            !has_dup_browser(config.browsers@),
            forall|j: int| 0 <= j < r ==> !#[trigger] rule_bad(*config, j),
        decreases rules@.len() - r,
    {
        let rule = &rules[r];
        if rule_id_among(rules, r, rule.id.as_str()) {
            assert(rule_bad(*config, r as int));
            assert(first_bad_rule(*config, r as int));
            return Err(ConfigError::DuplicateRuleId(rule.id.clone()));
        }
        let ghost targets = rule_targets(*rule);
        let all = &rule.action.open_with_all;
        let mut k: usize = 0;
        while k < all.len()
            invariant
                k <= all@.len(),
                all@ == rule.action.open_with_all@,
                targets == rule_targets(*rule),
                browsers@ == config.browsers@,
                *rule == config.rules@[r as int],
                r < config.rules@.len(),
                config.config_version <= CURRENT_CONFIG_VERSION,
                !has_dup_browser(config.browsers@),
                !rule_dup_at(config.rules@, r as int),
                forall|j: int| 0 <= j < r ==> !#[trigger] rule_bad(*config, j),
                forall|m: int| 0 <= m < k ==> known_browser(config.browsers@, #[trigger] targets[m]),
            decreases all@.len() - k,
        {
            assert(targets[k as int] == all@[k as int]@);
            if !known_id(browsers, all[k].as_str()) {
                assert(first_unknown_target(config.browsers@, targets, k as int));
                assert(rule_bad(*config, r as int));
                assert(first_bad_rule(*config, r as int));
                return Err(
                    ConfigError::UnknownBrowserTarget { rule: rule.id.clone(), target: all[k].clone() },
                );
            }
            k = k + 1;
        }
        match &rule.action.open_with {
            Some(t) => {
                assert(targets[k as int] == t@);
                if !known_id(browsers, t.as_str()) {
                    assert(first_unknown_target(config.browsers@, targets, k as int));
                    assert(rule_bad(*config, r as int));
                    assert(first_bad_rule(*config, r as int));
                    return Err(
                        ConfigError::UnknownBrowserTarget { rule: rule.id.clone(), target: t.clone() },
                    );
                }
            },
            None => {},
        }
        assert forall|m: int| 0 <= m < targets.len() implies known_browser(
            config.browsers@,
            targets[m],
        ) by {
            if m >= k {
                assert(m == k);
            }
        }
        r = r + 1;
    }
    Ok(())
}

/// Whether some browser before position `end` has id `id`.
fn id_among(browsers: &Vec<BrowserTarget>, end: usize, id: &str) -> (res: bool)
    requires
        end <= browsers@.len(),
        id@ == browsers@[end as int].id@ || end == browsers@.len(),
    ensures
        end < browsers@.len() ==> res == browser_dup_at(browsers@, end as int),
        res == exists|j: int| #![trigger browsers@[j]] 0 <= j < end && browsers@[j].id@ == id@,
{
    proof {
        if end < browsers@.len() {
            assert(browser_dup_at(browsers@, end as int) == exists|j: int|
                #![trigger browsers@[j]] 0 <= j < end && browsers@[j].id@ == id@);
        }
    }
    let mut j: usize = 0;
    while j < end
        invariant
            j <= end <= browsers@.len(),
            end < browsers@.len() ==> id@ == browsers@[end as int].id@,
            forall|m: int| 0 <= m < j ==> browsers@[m].id@ != id@,
        decreases end - j,
    {
        if eq_str(browsers[j].id.as_str(), id) {
            assert(browsers@[j as int].id@ == id@);
            return true;
        }
        j = j + 1;
    }
    false
}

/// Whether some browser has id `id`.
fn known_id(browsers: &Vec<BrowserTarget>, id: &str) -> (res: bool)
    ensures
        res == known_browser(browsers@, id@),
{
    id_among(browsers, browsers.len(), id)
}

/// Whether some rule before position `end` has id `id`.
fn rule_id_among(rules: &Vec<Rule>, end: usize, id: &str) -> (res: bool)
    requires
        end < rules@.len(),
        id@ == rules@[end as int].id@,
    ensures
        res == rule_dup_at(rules@, end as int),
{
    assert(rule_dup_at(rules@, end as int) == exists|j: int|
        #![trigger rules@[j]] 0 <= j < end && rules@[j].id@ == id@);
    let mut j: usize = 0;
    while j < end
        invariant
            j <= end < rules@.len(),
            id@ == rules@[end as int].id@,
            forall|m: int| 0 <= m < j ==> rules@[m].id@ != id@,
        decreases end - j,
    {
        if eq_str(rules[j].id.as_str(), id) {
            assert(rules@[j as int].id@ == id@);
            return true;
        }
        j = j + 1;
    }
    false
}

/// The decimal digits of `n`.
pub open spec fn decimal(n: nat) -> Seq<char>
    decreases n,
{
    if n < 10 {
        seq![digit_char(n)]
    } else {
        decimal(n / 10).push(digit_char(n % 10))
    }
}

/// The character of a decimal digit.
pub open spec fn digit_char(d: nat) -> char {
    ('0' as u32 + d) as char
}

/// Distinct digits have distinct characters.
proof fn lemma_digit_char_injective(a: nat, b: nat)
    requires
        a < 10,
        b < 10,
        digit_char(a) == digit_char(b),
    ensures
        a == b,
{
    assert(digit_char(a) as u32 == 48 + a);
    assert(digit_char(b) as u32 == 48 + b);
}

/// A decimal has at least one digit, and two when the number is ten or more.
proof fn lemma_decimal_len(n: nat)
    ensures
        decimal(n).len() >= 1,
        n >= 10 ==> decimal(n).len() >= 2,
    decreases n,
{
    if n >= 10 {
        lemma_decimal_len(n / 10);
    }
}

/// Distinct numbers are written differently.
pub proof fn lemma_decimal_injective(a: nat, b: nat)
    requires
        decimal(a) == decimal(b),
    ensures
        a == b,
    decreases a,
{
    lemma_decimal_len(a);
    lemma_decimal_len(b);
    if a < 10 && b < 10 {
        assert(decimal(a)[0] == digit_char(a));
        lemma_digit_char_injective(a, b);
    } else if a >= 10 && b >= 10 {
        assert(decimal(a).last() == digit_char(a % 10));
        assert(decimal(b).last() == digit_char(b % 10));
        lemma_digit_char_injective(a % 10, b % 10);
        assert(decimal(a).drop_last() =~= decimal(a / 10));
        assert(decimal(b).drop_last() =~= decimal(b / 10));
        lemma_decimal_injective(a / 10, b / 10);
    }
}

/// `n` written in decimal.
pub fn u32_to_decimal(n: u32) -> (res: String)
    ensures
        res@ == decimal(n as nat),
    decreases n,
{
    if n < 10 {
        let mut s = String::new();
        push_char(&mut s, digit(n));
        assert(s@ =~= seq![digit_char(n as nat)]);
        s
    } else {
        let mut s = u32_to_decimal(n / 10);
        push_char(&mut s, digit(n % 10));
        s
    }
}

/// `n` written in decimal.
pub fn usize_to_decimal(n: usize) -> (res: String)
    ensures
        res@ == decimal(n as nat),
    decreases n,
{
    if n < 10 {
        let mut s = String::new();
        push_char(&mut s, digit(n as u32));
        assert(s@ =~= seq![digit_char(n as nat)]);
        s
    } else {
        let mut s = usize_to_decimal(n / 10);
        push_char(&mut s, digit((n % 10) as u32));
        s
    }
}

/// `n` written in decimal.
pub fn u64_to_decimal(n: u64) -> (res: String)
    ensures
        res@ == decimal(n as nat),
    decreases n,
{
    if n < 10 {
        let mut s = String::new();
        push_char(&mut s, digit(n as u32));
        assert(s@ =~= seq![digit_char(n as nat)]);
        s
    } else {
        let mut s = u64_to_decimal(n / 10);
        push_char(&mut s, digit((n % 10) as u32));
        s
    }
}

fn digit(d: u32) -> (c: char)
    requires
        d < 10,
    ensures
        c == digit_char(d as nat),
{
    let b = (48 + d) as u8;
    b as char
}

impl ConfigError {
    /// A human-readable description of the error.
    pub fn message(&self) -> (res: String)
        ensures
            res@ == match self {
                ConfigError::NewerVersion { found, supported } => "config_version "@ + decimal(
                    *found as nat,
                ) + " is newer than supported version "@ + decimal(*supported as nat),
                ConfigError::DuplicateBrowserId(id) => "duplicate browser id: "@ + id@,
                ConfigError::DuplicateRuleId(id) => "duplicate rule id: "@ + id@,
                ConfigError::UnknownBrowserTarget { rule, target } => "rule '"@ + rule@
                    + "' references unknown browser target '"@ + target@ + "'"@,
            },
    {
        match self {
            ConfigError::NewerVersion { found, supported } => {
                let mut s = owned("config_version ");
                s.append(u32_to_decimal(*found).as_str());
                s.append(" is newer than supported version ");
                s.append(u32_to_decimal(*supported).as_str());
                s
            },
            ConfigError::DuplicateBrowserId(id) => concat("duplicate browser id: ", id.as_str()),
            ConfigError::DuplicateRuleId(id) => concat("duplicate rule id: ", id.as_str()),
            ConfigError::UnknownBrowserTarget { rule, target } => {
                let mut s = owned("rule '");
                s.append(rule.as_str());
                s.append("' references unknown browser target '");
                s.append(target.as_str());
                s.append("'");
                s
            },
        }
    }
}

} // verus!
