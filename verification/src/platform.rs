//! Platform integration: the per-OS hooks `br` needs, browser classification
//! and naming, and how a browser target is launched.
//!
//! The operating-system side (registry, `.desktop` files, spawning processes)
//! is performed by the application; this module decides what to do.
use vstd::prelude::*;

use crate::model::{BrowserTarget, Config};
use crate::windows::WindowsPlatform;
use crate::text::{
    chars_of, concat, contains, contains_str, contains_vec, eq_str, is_ascii_alnum,
    is_ascii_alnum_char, owned, push_char, views,
};
use crate::urls::{spec_to_lowercase, to_lowercase};
use crate::text::ascii_lower;

verus! {

/// An error reported by a platform hook.
#[derive(Debug, Clone, PartialEq, Eq)]
pub struct PlatformError {
    pub message: String,
}

/// Outcome of [`PlatformIntegration::register_as_default_handler`].
#[derive(Debug, Clone, PartialEq, Eq)]
pub enum RegisterOutcome {
    /// Registration completed and `br` is fully active as the default handler.
    Registered,
    /// `br` was registered as a candidate; the user must confirm it manually.
    NeedsManualConfirmation { instructions: String },
}

/// Per-OS hooks for browser discovery and default-handler management.
pub trait PlatformIntegration {
    /// Scans well-known locations for installed browsers and their profiles.
    fn discover_browsers(&self) -> Result<Vec<BrowserTarget>, PlatformError>;

    /// Returns whether `br` is currently registered as the default `http`/`https` handler.
    fn is_default_handler(&self) -> Result<bool, PlatformError>;

    /// Registers `br` as a candidate default handler and, where the OS requires manual
    /// confirmation, opens the relevant system settings page.
    fn register_as_default_handler(&self) -> Result<RegisterOutcome, PlatformError>;

    /// Best-effort name of the foreground application (for `source_app` rule matching).
    fn get_foreground_app_name(&self) -> Option<String>;
}

/// Fallback platform integration for OSes without a dedicated implementation:
/// discovers nothing, is never the default handler, cannot register, and
/// knows no foreground application.
#[derive(Debug, Default, Clone, Copy, PartialEq, Eq)]
pub struct UnsupportedPlatform;

/// The message of a registration attempt on an unsupported platform.
pub open spec fn spec_unsupported_message() -> Seq<char> {
    "default handler registration is not yet implemented for this platform"@
}

impl PlatformIntegration for UnsupportedPlatform {
    fn discover_browsers(&self) -> (res: Result<Vec<BrowserTarget>, PlatformError>)
        ensures
            res matches Ok(v) && v@.len() == 0,
    {
        Ok(Vec::new())
    }

    fn is_default_handler(&self) -> (res: Result<bool, PlatformError>)
        ensures
            res == Ok::<bool, PlatformError>(false),
    {
        Ok(false)
    }

    fn register_as_default_handler(&self) -> (res: Result<RegisterOutcome, PlatformError>)
        ensures
            res matches Err(e) && e.message@ == spec_unsupported_message(),
    {
        Err(PlatformError { message: unsupported_message() })
    }

    fn get_foreground_app_name(&self) -> (res: Option<String>)
        ensures
            res.is_none(),
    {
        None
    }
}

/// The message of a registration attempt on an unsupported platform.
pub fn unsupported_message() -> (res: String)
    ensures
        res@ == spec_unsupported_message(),
{
    owned("default handler registration is not yet implemented for this platform")
}

/// The platform integration for the operating system the program runs on.
#[derive(Debug, Clone, Copy, PartialEq, Eq)]
pub enum CurrentPlatform {
    /// The Windows integration.
    Windows(WindowsPlatform),
    /// The fallback for every other operating system.
    Unsupported(UnsupportedPlatform),
}

/// The integration [`current`] picks for the operating system `target_os`.
pub open spec fn spec_current(target_os: Seq<char>) -> CurrentPlatform {
    if target_os == "windows"@ {
        CurrentPlatform::Windows(WindowsPlatform)
    } else {
        CurrentPlatform::Unsupported(UnsupportedPlatform)
    }
}

/// Returns the platform integration for the operating system `target_os`,
/// named as `std::env::consts::OS` names it: the Windows integration on
/// `"windows"`, the fallback on every other system.
pub fn current(target_os: &str) -> (res: CurrentPlatform)
    ensures
        res == spec_current(target_os@),
{
    if eq_str(target_os, "windows") {
        CurrentPlatform::Windows(WindowsPlatform)
    } else {
        CurrentPlatform::Unsupported(UnsupportedPlatform)
    }
}

/// macOS cannot report whether `br` is the default browser without Cocoa
/// bindings, so it always answers no.
pub fn is_default_handler() -> (res: bool)
    ensures
        !res,
{
    false
}

// ---------------------------------------------------------------------------
// Classification and naming
// ---------------------------------------------------------------------------

/// The browser family a lower-cased display name belongs to.
pub open spec fn spec_classify(lower: Seq<char>) -> Seq<char> {
    if contains(lower, "firefox"@) || contains(lower, "librewolf"@) || contains(lower, "zen"@) {
        "firefox"@
    } else if contains(lower, "chrome"@) || contains(lower, "edge"@) || contains(lower, "brave"@)
        || contains(lower, "vivaldi"@) || contains(lower, "opera"@) || contains(lower, "chromium"@)
        || contains(lower, "arc"@) {
        "chromium"@
    } else {
        "generic"@
    }
}

/// Classifies a browser by its display name into `"chromium"`, `"firefox"`, or `"generic"`.
pub fn classify(name: &str) -> (res: &'static str)
    ensures
        res@ == spec_classify(lower_case(name@)),
{
    let lower = to_lowercase(name);
    let l = chars_of(lower.as_str());
    if contains_str(&l, "firefox") || contains_str(&l, "librewolf") || contains_str(&l, "zen") {
        "firefox"
    } else if contains_str(&l, "chrome") || contains_str(&l, "edge") || contains_str(&l, "brave")
        || contains_str(&l, "vivaldi") || contains_str(&l, "opera") || contains_str(
        &l,
        "chromium",
    ) || contains_str(&l, "arc") {
        "chromium"
    } else {
        "generic"
    }
}

/// Every character that is not an ASCII letter or digit replaced by `-`.
pub open spec fn dashed(s: Seq<char>) -> Seq<char> {
    Seq::new(s.len(), |i: int| if is_ascii_alnum(s[i]) { s[i] } else { '-' })
}

/// `s` without leading and trailing `c`.
pub open spec fn trim_matches(s: Seq<char>, c: char) -> Seq<char>
    decreases s.len(),
{
    if s.len() > 0 && s[0] == c {
        trim_matches(s.drop_first(), c)
    } else if s.len() > 0 && s.last() == c {
        trim_matches(s.drop_last(), c)
    } else {
        s
    }
}

/// Every character of `s` is ASCII.
pub open spec fn is_ascii_text(s: Seq<char>) -> bool {
    forall|i: int| 0 <= i < s.len() ==> (#[trigger] s[i] as u32) < 128
}

/// `s` lower-cased: on ASCII text each capital letter becomes its small
/// letter; other text gets the Unicode lower-case mapping.
pub open spec fn lower_case(s: Seq<char>) -> Seq<char> {
    if is_ascii_text(s) {
        s.map_values(|c: char| ascii_lower(c))
    } else {
        spec_to_lowercase(s)
    }
}

/// The id fragment of a display name.
pub open spec fn spec_slug(name: Seq<char>) -> Seq<char> {
    trim_matches(dashed(lower_case(name)), '-')
}

proof fn lemma_trim_matches_bounds(s: Seq<char>, c: char, lo: int, hi: int)
    requires
        0 <= lo <= hi <= s.len(),
        forall|k: int| 0 <= k < lo ==> s[k] == c,
        forall|k: int| hi <= k < s.len() ==> s[k] == c,
        lo < hi ==> s[lo] != c && s[hi - 1] != c,
        lo == hi ==> hi == s.len(),
    ensures
        trim_matches(s, c) == s.subrange(lo, hi),
    decreases s.len(),
{
    if s.len() > 0 && s[0] == c {
        lemma_trim_matches_bounds(s.drop_first(), c, lo - 1, hi - 1);
        assert(s.drop_first().subrange(lo - 1, hi - 1) =~= s.subrange(lo, hi));
    } else if s.len() > 0 && s.last() == c {
        assert(lo == 0);
        if lo == hi {
            assert(s[0] == c);
        }
        lemma_trim_matches_bounds(s.drop_last(), c, lo, hi);
        assert(s.drop_last().subrange(lo, hi) =~= s.subrange(lo, hi));
    } else {
        if s.len() > 0 {
            assert(lo == 0 && hi == s.len()) by {
                if lo == hi {
                    assert(s[0] == c);
                }
                if hi < s.len() {
                    assert(s[s.len() - 1] == c);
                }
            }
        }
        assert(s.subrange(lo, hi) =~= s);
    }
}

/// A small ASCII letter, an ASCII digit or `-`.
pub open spec fn is_slug_char(c: char) -> bool {
    ('a' <= c && c <= 'z') || ('0' <= c && c <= '9') || c == '-'
}

/// Normalizes a display name into a lowercase, hyphen-separated id fragment.
pub fn slug(name: &str) -> (res: String)
    ensures
        res@ == spec_slug(name@),
        forall|i: int| 0 <= i < res@.len() ==> is_slug_char(#[trigger] res@[i]),
        spec_slug(res@) == res@,
{
    let lower = to_lowercase(name);
    assert(lower@ == lower_case(name@));
    let l = chars_of(lower.as_str());
    let mut d: Vec<char> = Vec::new();
    let mut i: usize = 0;
    while i < l.len()
        invariant
            i <= l@.len(),
            d@ == dashed(l@).take(i as int),
        decreases l@.len() - i,
    {
        let c = l[i];
        d.push(if is_ascii_alnum_char(c) { c } else { '-' });
        assert(d@ =~= dashed(l@).take(i + 1));
        i = i + 1;
    }
    assert(d@ =~= dashed(l@));
    let t = trim_matches_vec(&d, '-');
    proof {
        assert forall|i: int| 0 <= i < d@.len() implies is_slug_char(#[trigger] d@[i]) by {
            assert(!('A' <= l@[i] && l@[i] <= 'Z'));
        }
        lemma_trim_matches_sub(d@, '-');
        lemma_trim_matches_shape(d@, '-');
        law_slug_fixed_point(t@);
    }
    crate::text::string_of(&t)
}

/// What is left after trimming is a stretch of the input.
proof fn lemma_trim_matches_sub(s: Seq<char>, c: char)
    ensures
        exists|lo: int, hi: int| 0 <= lo <= hi <= s.len() && trim_matches(s, c) == s.subrange(lo, hi),
    decreases s.len(),
{
    if s.len() > 0 && s[0] == c {
        lemma_trim_matches_sub(s.drop_first(), c);
        let (lo, hi) = choose|lo: int, hi: int|
            0 <= lo <= hi <= s.drop_first().len() && trim_matches(s.drop_first(), c)
                == s.drop_first().subrange(lo, hi);
        assert(s.drop_first().subrange(lo, hi) =~= s.subrange(lo + 1, hi + 1));
    } else if s.len() > 0 && s.last() == c {
        lemma_trim_matches_sub(s.drop_last(), c);
        let (lo, hi) = choose|lo: int, hi: int|
            0 <= lo <= hi <= s.drop_last().len() && trim_matches(s.drop_last(), c)
                == s.drop_last().subrange(lo, hi);
        assert(s.drop_last().subrange(lo, hi) =~= s.subrange(lo, hi));
    } else {
        assert(s.subrange(0, s.len() as int) =~= s);
    }
}

/// `v` without leading and trailing `c`.
pub fn trim_matches_vec(d: &Vec<char>, c: char) -> (res: Vec<char>)
    ensures
        res@ == trim_matches(d@, c),
{
    let mut lo: usize = 0;
    while lo < d.len() && d[lo] == c
        invariant
            lo <= d@.len(),
            forall|k: int| 0 <= k < lo ==> d@[k] == c,
        decreases d@.len() - lo,
    {
        lo = lo + 1;
    }
    let mut hi: usize = d.len();
    while hi > lo && d[hi - 1] == c
        invariant
            lo <= hi <= d@.len(),
            forall|k: int| hi <= k < d@.len() ==> d@[k] == c,
            forall|k: int| 0 <= k < lo ==> d@[k] == c,
            lo < d@.len() ==> d@[lo as int] != c && hi > lo,
        decreases hi,
    {
        hi = hi - 1;
    }
    proof {
        lemma_trim_matches_bounds(d@, c, lo as int, hi as int);
    }
    crate::text::sub_vec(d, lo, hi)
}

/// A slug has no leading or trailing `-`, consists of ASCII letters, digits
/// and `-`, and is no longer than the lower-cased name (each character
/// becomes itself or one `-`; runs of `-` are kept). That its letters are
/// small, and so that it is its own slug, is stated by [`slug`].
pub proof fn law_slug_shape(name: Seq<char>)
    ensures
        forall|i: int|
            0 <= i < spec_slug(name).len() ==> is_ascii_alnum(#[trigger] spec_slug(name)[i])
                || spec_slug(name)[i] == '-',
        spec_slug(name).len() > 0 ==> spec_slug(name)[0] != '-' && spec_slug(name).last() != '-',
        spec_slug(name).len() <= lower_case(name).len(),
{
    let d = dashed(lower_case(name));
    lemma_trim_matches_shape(d, '-');
    lemma_trim_matches_sub(d, '-');
}

/// A text of small ASCII letters, digits and `-` that neither begins nor
/// ends with `-` is its own slug.
pub proof fn law_slug_fixed_point(s: Seq<char>)
    requires
        forall|i: int| 0 <= i < s.len() ==> is_slug_char(#[trigger] s[i]),
        s.len() > 0 ==> s[0] != '-' && s.last() != '-',
    ensures
        spec_slug(s) == s,
{
    assert(is_ascii_text(s)) by {
        assert forall|i: int| 0 <= i < s.len() implies (#[trigger] s[i] as u32) < 128 by {
            assert(is_slug_char(s[i]));
        }
    }
    let ds = dashed(lower_case(s));
    assert(ds =~= s) by {
        assert forall|i: int| 0 <= i < s.len() implies ds[i] == s[i] by {
            assert(is_slug_char(s[i]));
        }
    }
    if s.len() > 0 {
        assert(ds[0] == s[0]);
        assert(ds.last() == s.last());
    }
}

proof fn lemma_trim_matches_shape(s: Seq<char>, c: char)
    requires
        forall|i: int| 0 <= i < s.len() ==> is_ascii_alnum(#[trigger] s[i]) || s[i] == '-',
    ensures
        forall|i: int|
            0 <= i < trim_matches(s, c).len() ==> is_ascii_alnum(#[trigger] trim_matches(s, c)[i])
                || trim_matches(s, c)[i] == '-',
        trim_matches(s, c).len() > 0 ==> trim_matches(s, c)[0] != c && trim_matches(s, c).last()
            != c,
    decreases s.len(),
{
    if s.len() > 0 && s[0] == c {
        assert forall|i: int| 0 <= i < s.drop_first().len() implies is_ascii_alnum(
            #[trigger] s.drop_first()[i],
        ) || s.drop_first()[i] == '-' by {
            assert(s.drop_first()[i] == s[i + 1]);
        }
        lemma_trim_matches_shape(s.drop_first(), c);
    } else if s.len() > 0 && s.last() == c {
        assert forall|i: int| 0 <= i < s.drop_last().len() implies is_ascii_alnum(
            #[trigger] s.drop_last()[i],
        ) || s.drop_last()[i] == '-' by {
            assert(s.drop_last()[i] == s[i]);
        }
        lemma_trim_matches_shape(s.drop_last(), c);
    }
}

// ---------------------------------------------------------------------------
// Launching
// ---------------------------------------------------------------------------

/// A process to start: the program and its arguments.
#[derive(Debug, Clone, PartialEq, Eq)]
pub struct LaunchCommand {
    pub program: String,
    pub args: Vec<String>,
}

/// Why a browser target cannot be launched.
#[derive(Debug, Clone, PartialEq, Eq)]
pub enum LaunchError {
    /// No browser in the configuration has this id.
    UnknownTarget(String),
    /// The target's executable is `"auto"` and no discovered browser matches it.
    NotDetected(String),
    /// The target's executable is `"auto"`, which this launcher does not resolve.
    AutoUnsupported(String),
}

impl LaunchError {
    /// A human-readable description of the error.
    pub fn message(&self) -> (res: String)
        ensures
            res@ == match self {
                LaunchError::UnknownTarget(id) => "unknown browser target '"@ + id@ + "'"@,
                LaunchError::NotDetected(id) => "browser '"@ + id@
                    + "' has executable = \"auto\" but could not be auto-detected; set an explicit executable path"@,
                LaunchError::AutoUnsupported(id) => "browser '"@ + id@
                    + "' has executable = \"auto\"; automatic detection is not yet implemented"@,
            },
    {
        match self {
            LaunchError::UnknownTarget(id) => {
                let mut s = concat("unknown browser target '", id.as_str());
                s.append("'");
                s
            },
            LaunchError::NotDetected(id) => {
                let mut s = concat("browser '", id.as_str());
                s.append(
                    "' has executable = \"auto\" but could not be auto-detected; set an explicit executable path",
                );
                s
            },
            LaunchError::AutoUnsupported(id) => {
                let mut s = concat("browser '", id.as_str());
                s.append("' has executable = \"auto\"; automatic detection is not yet implemented");
                s
            },
        }
    }
}

/// Browser `i` is the first one with id `id`.
pub open spec fn first_with_id(browsers: Seq<BrowserTarget>, id: Seq<char>, i: int) -> bool {
    &&& 0 <= i < browsers.len()
    &&& browsers[i].id@ == id
    &&& forall|j: int| 0 <= j < i ==> (#[trigger] browsers[j]).id@ != id
}

/// The browser target with id `target_id` (the first such one), if any.
pub fn find_target<'a>(cfg: &'a Config, target_id: &str) -> (res: Option<&'a BrowserTarget>)
    ensures
        match res {
            Some(t) => exists|i: int|
                first_with_id(cfg.browsers@, target_id@, i) && *t == cfg.browsers@[i],
            None => forall|i: int|
                0 <= i < cfg.browsers@.len() ==> (#[trigger] cfg.browsers@[i]).id@ != target_id@,
        },
{
    let mut i: usize = 0;
    while i < cfg.browsers.len()
        invariant
            i <= cfg.browsers@.len(),
            forall|j: int| 0 <= j < i ==> (#[trigger] cfg.browsers@[j]).id@ != target_id@,
        decreases cfg.browsers@.len() - i,
    {
        if eq_str(cfg.browsers[i].id.as_str(), target_id) {
            assert(first_with_id(cfg.browsers@, target_id@, i as int));
            return Some(&cfg.browsers[i]);
        }
        i = i + 1;
    }
    None
}

/// Discovered browser `b` stands for `target`: same id, or same kind and a
/// name containing the target's name.
pub open spec fn auto_matches(b: BrowserTarget, target: BrowserTarget) -> bool {
    b.id@ == target.id@ || (b.kind@ == target.kind@ && contains(b.name@, target.name@))
}

/// Index of the first discovered browser that stands for `target`, if any.
pub fn resolve_auto(target: &BrowserTarget, discovered: &Vec<BrowserTarget>) -> (res: Option<usize>)
    ensures
        match res {
            Some(i) => i < discovered@.len() && auto_matches(discovered@[i as int], *target)
                && forall|j: int| 0 <= j < i ==> !auto_matches(#[trigger] discovered@[j], *target),
            None => forall|j: int|
                0 <= j < discovered@.len() ==> !auto_matches(#[trigger] discovered@[j], *target),
        },
{
    let tn = chars_of(target.name.as_str());
    let mut i: usize = 0;
    while i < discovered.len()
        invariant
            i <= discovered@.len(),
            tn@ == target.name@,
            forall|j: int| 0 <= j < i ==> !auto_matches(#[trigger] discovered@[j], *target),
        decreases discovered@.len() - i,
    {
        let b = &discovered[i];
        let hit = if eq_str(b.id.as_str(), target.id.as_str()) {
            true
        } else if eq_str(b.kind.as_str(), target.kind.as_str()) {
            let bn = chars_of(b.name.as_str());
            contains_vec(&bn, &tn)
        } else {
            false
        };
        if hit {
            return Some(i);
        }
        i = i + 1;
    }
    None
}

/// The extra arguments that open `url` in `target`: the target's own
/// arguments, its Chromium profile directory, its Firefox profile name, the
/// private-mode switch of its kind when `private`, then the URL.
pub open spec fn spec_launch_args(target: BrowserTarget, url: Seq<char>, private: bool) -> Seq<
    Seq<char>,
> {
    views(target.args@) + match target.profile_dir {
        Some(d) => seq!["--profile-directory="@ + d@],
        None => Seq::<Seq<char>>::empty(),
    } + match target.profile_name {
        Some(n) => seq!["-P"@, n@],
        None => Seq::<Seq<char>>::empty(),
    } + (if private && target.kind@ == "chromium"@ {
        seq!["--incognito"@]
    } else if private && target.kind@ == "firefox"@ {
        seq!["--private-window"@]
    } else {
        Seq::<Seq<char>>::empty()
    }) + seq![url]
}

/// The private-mode switch appears only when asked for: a launch that is
/// not private passes the target's own arguments, then its profile
/// arguments (`--profile-directory=<dir>`, then `-P <name>`), then the URL,
/// and nothing else; a private launch of a
/// Chromium or Firefox target passes the same arguments with its switch
/// (`--incognito` or `--private-window`) just before the URL, and of any
/// other target exactly the same arguments.
pub proof fn law_private_switch_only_when_private(target: BrowserTarget, url: Seq<char>)
    ensures
        ({
            let plain = spec_launch_args(target, url, false);
            let profile_count = (if target.profile_dir.is_some() { 1int } else { 0 }) + (if target.profile_name.is_some() {
                2int
            } else {
                0
            });
            &&& plain.len() == target.args@.len() + profile_count + 1
            &&& plain.take(target.args@.len() as int) == views(target.args@)
            &&& plain.last() == url
            &&& (target.profile_dir matches Some(d) ==> plain[target.args@.len() as int]
                == "--profile-directory="@ + d@)
            &&& (target.profile_name matches Some(n) ==> plain[plain.len() - 3] == "-P"@ && plain[plain.len() - 2] == n@)
            &&& spec_launch_args(target, url, true) == if target.kind@ == "chromium"@ {
                plain.insert(plain.len() - 1, "--incognito"@)
            } else if target.kind@ == "firefox"@ {
                plain.insert(plain.len() - 1, "--private-window"@)
            } else {
                plain
            }
        }),
{
    let plain = spec_launch_args(target, url, false);
    let own = views(target.args@);
    assert(plain.take(own.len() as int) =~= own);
    assert(spec_launch_args(target, url, true) =~= if target.kind@ == "chromium"@ {
        plain.insert(plain.len() - 1, "--incognito"@)
    } else if target.kind@ == "firefox"@ {
        plain.insert(plain.len() - 1, "--private-window"@)
    } else {
        plain
    });
}

/// The URL is handed to the browser whole, as the last argument, after the
/// target's own arguments.
pub proof fn law_url_is_last_argument(target: BrowserTarget, url: Seq<char>, private: bool)
    ensures
        spec_launch_args(target, url, private).last() == url,
        spec_launch_args(target, url, private).take(target.args@.len() as int) == views(target.args@),
{
    let a = spec_launch_args(target, url, private);
    assert(a.take(target.args@.len() as int) =~= views(target.args@));
}

/// `res` is what launching `url` in `target` gives, with `discovered` the
/// browsers found on the system: the command runs the target's executable
/// (for `"auto"`, that of the first discovered browser standing for it) with
/// [`spec_launch_args`]; an `"auto"` target that none stands for is an error.
pub open spec fn launch_result(
    target: BrowserTarget,
    discovered: Seq<BrowserTarget>,
    url: Seq<char>,
    private: bool,
    res: Result<LaunchCommand, LaunchError>,
) -> bool {
    match res {
        Ok(cmd) => views(cmd.args@) == spec_launch_args(target, url, private) && if target.executable@
            == "auto"@ {
            exists|i: int|
                0 <= i < discovered.len() && auto_matches(discovered[i], target) && (forall|j: int|
                    0 <= j < i ==> !auto_matches(#[trigger] discovered[j], target))
                    && cmd.program@ == discovered[i].executable@
        } else {
            cmd.program@ == target.executable@
        },
        Err(e) => target.executable@ == "auto"@ && e == LaunchError::NotDetected(target.id) && forall|
            j: int,
        | 0 <= j < discovered.len() ==> !auto_matches(#[trigger] discovered[j], target),
    }
}

/// The command that opens `url` in `target`, resolving an `"auto"`
/// executable against `discovered`.
pub fn launch_command(
    target: &BrowserTarget,
    discovered: &Vec<BrowserTarget>,
    url: &str,
    private: bool,
) -> (res: Result<LaunchCommand, LaunchError>)
    ensures
        launch_result(*target, discovered@, url@, private, res),
{
    let program = if eq_str(target.executable.as_str(), "auto") {
        match resolve_auto(target, discovered) {
            Some(i) => discovered[i].executable.clone(),
            None => {
                return Err(LaunchError::NotDetected(target.id.clone()));
            },
        }
    } else {
        target.executable.clone()
    };
    let mut args = crate::text::clone_strings(&target.args);
    let ghost a0 = views(args@);
    match &target.profile_dir {
        Some(d) => {
            args.push(concat("--profile-directory=", d.as_str()));
        },
        None => {},
    }
    let ghost a1 = views(args@);
    assert(a1 =~= a0 + match target.profile_dir {
        Some(d) => seq!["--profile-directory="@ + d@],
        None => Seq::<Seq<char>>::empty(),
    });
    match &target.profile_name {
        Some(n) => {
            args.push(owned("-P"));
            args.push(n.clone());
        },
        None => {},
    }
    let ghost a2 = views(args@);
    assert(a2 =~= a1 + match target.profile_name {
        Some(n) => seq!["-P"@, n@],
        None => Seq::<Seq<char>>::empty(),
    });
    if private {
        if eq_str(target.kind.as_str(), "chromium") {
            args.push(owned("--incognito"));
        } else if eq_str(target.kind.as_str(), "firefox") {
            args.push(owned("--private-window"));
        }
    }
    let ghost a3 = views(args@);
    assert(a3 =~= a2 + (if private && target.kind@ == "chromium"@ {
        seq!["--incognito"@]
    } else if private && target.kind@ == "firefox"@ {
        seq!["--private-window"@]
    } else {
        Seq::<Seq<char>>::empty()
    }));
    args.push(owned(url));
    assert(views(args@) =~= a3 + seq![url@]);
    Ok(LaunchCommand { program, args })
}

/// The command that opens `url` in the configured browser `target_id`,
/// resolving an `"auto"` executable against what `platform` discovers (no
/// browser when discovery fails).
pub fn launch_with<P: PlatformIntegration>(
    platform: &P,
    cfg: &Config,
    target_id: &str,
    url: &str,
    private: bool,
) -> (res: Result<LaunchCommand, LaunchError>)
    ensures
        (forall|i: int| 0 <= i < cfg.browsers@.len() ==> (#[trigger] cfg.browsers@[i]).id@ != target_id@)
            ==> (res matches Err(LaunchError::UnknownTarget(id)) && id@ == target_id@),
        forall|i: int|
            first_with_id(cfg.browsers@, target_id@, i) ==> exists|d: Seq<BrowserTarget>|
                launch_result(#[trigger] cfg.browsers@[i], d, url@, private, res),
{
    let target = match find_target(cfg, target_id) {
        Some(t) => t,
        None => {
            return Err(LaunchError::UnknownTarget(owned(target_id)));
        },
    };
    let discovered = if eq_str(target.executable.as_str(), "auto") {
        match platform.discover_browsers() {
            Ok(found) => found,
            Err(_) => Vec::new(),
        }
    } else {
        Vec::new()
    };
    let res = launch_command(target, &discovered, url, private);
    proof {
        assert forall|i: int| first_with_id(cfg.browsers@, target_id@, i) implies exists|
            d: Seq<BrowserTarget>,
        | launch_result(#[trigger] cfg.browsers@[i], d, url@, private, res) by {
            let w = choose|w: int| first_with_id(cfg.browsers@, target_id@, w) && *target == cfg.browsers@[w];
            if w < i {
                assert(cfg.browsers@[w].id@ == target_id@);
            } else if i < w {
                assert(cfg.browsers@[i].id@ == target_id@);
            }
            assert(launch_result(cfg.browsers@[i], discovered@, url@, private, res));
        }
    }
    res
}

/// The command `br open` runs to open `url` in the configured browser
/// `target_id`; it does not resolve `"auto"` executables.
pub fn cli_launch_command(cfg: &Config, target_id: &str, url: &str, private: bool) -> (res: Result<
    LaunchCommand,
    LaunchError,
>)
    ensures
        (forall|i: int| 0 <= i < cfg.browsers@.len() ==> (#[trigger] cfg.browsers@[i]).id@ != target_id@)
            ==> (res matches Err(LaunchError::UnknownTarget(id)) && id@ == target_id@),
        forall|i: int|
            #![trigger cfg.browsers@[i]]
            first_with_id(cfg.browsers@, target_id@, i) ==> if cfg.browsers@[i].executable@ == "auto"@ {
                res matches Err(LaunchError::AutoUnsupported(id)) && id@ == cfg.browsers@[i].id@
            } else {
                res matches Ok(cmd) && cmd.program@ == cfg.browsers@[i].executable@ && views(cmd.args@)
                    == spec_launch_args(cfg.browsers@[i], url@, private)
            },
{
    let target = match find_target(cfg, target_id) {
        Some(t) => t,
        None => {
            return Err(LaunchError::UnknownTarget(owned(target_id)));
        },
    };
    let ghost w = choose|w: int| first_with_id(cfg.browsers@, target_id@, w) && *target == cfg.browsers@[w];
    proof {
        assert forall|i: int| first_with_id(cfg.browsers@, target_id@, i) implies i == w by {
            if w < i {
                assert(cfg.browsers@[w].id@ == target_id@);
            } else if i < w {
                assert(cfg.browsers@[i].id@ == target_id@);
            }
        }
    }
    if eq_str(target.executable.as_str(), "auto") {
        return Err(LaunchError::AutoUnsupported(target.id.clone()));
    }
    let none: Vec<BrowserTarget> = Vec::new();
    launch_command(target, &none, url, private)
}

} // verus!
