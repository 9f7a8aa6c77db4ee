//! Decisions of the Windows integration: reading installed browsers from
//! their registry commands and profile files, the registry values `br`
//! writes and reads, and the foreground process's name.
use vstd::prelude::*;
use vstd::string::StringSliceAdditionalSpecFns;
use vstd::utf8::{encode_utf8, is_char_boundary};

use crate::desktop_entry::is_section_header;
use crate::linux::{is_plain_target, target_offer};
use crate::model::BrowserTarget;
use crate::platform::{classify, lower_case, slug, spec_classify, spec_slug, RegisterOutcome};
use crate::text::{
    chars_of, concat, contains, contains_str, ends_with, eq_str, first_word, first_word_vec,
    lines, lines_vec, owned, starts_with, string_of, string_of_range, sub_vec, trim, trim_bounds,
    trim_str, vec_views, views,
};
use crate::urls::to_lowercase;

verus! {

/// The unit the Windows integration works for; the registry and file system
/// are read by the application, which asks this module what they mean.
#[derive(Debug, Default, Clone, Copy, PartialEq, Eq)]
pub struct WindowsPlatform;

// ---------------------------------------------------------------------------
// The executable of a registry command
// ---------------------------------------------------------------------------

/// The UTF-8 bytes of `.exe`.
pub open spec fn exe_bytes() -> Seq<u8> {
    seq![46u8, 101u8, 120u8, 101u8]
}

/// Position of the first `.exe` in `b`, or -1.
pub open spec fn first_exe(b: Seq<u8>) -> int
    decreases b.len(),
{
    if b.len() < 4 {
        -1
    } else if b.take(4) == exe_bytes() {
        0
    } else {
        let r = first_exe(b.drop_first());
        if r < 0 {
            -1
        } else {
            r + 1
        }
    }
}

/// The text of `command` before its first `"` after an opening one.
pub open spec fn quoted_part(rest: Seq<char>) -> Seq<char> {
    let i = crate::text::first_index(rest, '"');
    if i < 0 {
        rest
    } else {
        rest.take(i)
    }
}

/// Where the executable of a registry command ends when it is not quoted:
/// the byte position after the first `.exe` of its lower-cased form, if any.
pub open spec fn exe_end(command: Seq<char>) -> int {
    let r = first_exe(encode_utf8(lower_case(trim(command))));
    if r < 0 {
        -1
    } else {
        r + 4
    }
}

/// The executable of a registry `shell\open\command` value, trimmed: the
/// text inside a leading pair of quotes; else everything up to and
/// including the first `.exe` (found ignoring case); else the first word.
/// `Some(Ok(s))` gives the executable's characters, `Some(Err(b))` its
/// UTF-8 bytes.
pub open spec fn executable_matches(command: Seq<char>, res: Option<String>) -> bool {
    let t = trim(command);
    if t.len() > 0 && t[0] == '"' {
        res matches Some(s) && s@ == quoted_part(t.drop_first())
    } else if exe_end(command) >= 0 {
        res matches Some(s) && encode_utf8(s@) == encode_utf8(t).take(exe_end(command))
    } else {
        match first_word(t) {
            Some(w) => res matches Some(s) && s@ == w,
            None => res.is_none(),
        }
    }
}

/// The byte position of the first `.exe` in `b`, if any.
fn find_exe(b: &[u8]) -> (res: Option<usize>)
    ensures
        match res {
            Some(i) => first_exe(b@) == i as int && i + 4 <= b@.len(),
            None => first_exe(b@) < 0,
        },
{
    let n = b.len();
    let mut i: usize = 0;
    assert(b@.skip(0) =~= b@);
    while n - i >= 4
        invariant
            n == b@.len(),
            i <= n,
            first_exe(b@) == if first_exe(b@.skip(i as int)) < 0 {
                -1
            } else {
                first_exe(b@.skip(i as int)) + i
            },
        decreases n - i,
    {
        let ghost rest = b@.skip(i as int);
        assert(rest.take(4) =~= seq![b@[i as int], b@[i + 1], b@[i + 2], b@[i + 3]]);
        assert(rest.drop_first() =~= b@.skip(i + 1));
        if b[i] == 46u8 && b[i + 1] == 101u8 && b[i + 2] == 120u8 && b[i + 3] == 101u8 {
            assert(rest.take(4) =~= exe_bytes());
            return Some(i);
        }
        assert(rest.take(4) != exe_bytes()) by {
            if rest.take(4) == exe_bytes() {
                assert(rest.take(4)[0] == b@[i as int]);
                assert(rest.take(4)[1] == b@[i + 1]);
                assert(rest.take(4)[2] == b@[i + 2]);
                assert(rest.take(4)[3] == b@[i + 3]);
            }
        }
        i = i + 1;
    }
    assert(b@.skip(i as int).len() < 4);
    None
}

/// Extracts the executable path from a `shell\open\command` value, which is
/// typically `"C:\Path\To\App.exe"` optionally followed by arguments.
pub fn extract_executable(command: &str) -> (res: Option<String>)
    requires
        !(trim(command@).len() > 0 && trim(command@)[0] == '"') && exe_end(command@) >= 0
            ==> is_char_boundary(encode_utf8(trim(command@)), exe_end(command@)),
    ensures
        executable_matches(command@, res),
{
    let t = trim_str(command);
    let v = chars_of(t.as_str());
    if v.len() > 0 && v[0] == '"' {
        let rest = sub_vec(&v, 1, v.len());
        assert(rest@ =~= v@.drop_first());
        let part = match crate::text::first_index_vec(&rest, '"') {
            Some(i) => string_of_range(&rest, 0, i),
            None => string_of(&rest),
        };
        proof {
            if crate::text::first_index(rest@, '"') >= 0 {
                assert(rest@.subrange(0, crate::text::first_index(rest@, '"')) =~= rest@.take(
                    crate::text::first_index(rest@, '"'),
                ));
            } else {
                assert(rest@.subrange(0, rest@.len() as int) =~= rest@);
            }
        }
        return Some(part);
    }
    let lower = to_lowercase(t.as_str());
    let lb = lower.as_str().as_bytes();
    let lbn = lb.len();
    match find_exe(lb) {
        Some(idx) => {
            assert(idx + 4 <= lbn);
            let ts = t.as_str();
            let (head, _) = ts.split_at(idx + 4);
            assert(head.spec_bytes() =~= encode_utf8(t@).take(idx + 4));
            Some(head.to_owned())
        },
        None => match first_word_vec(&v) {
            Some(w) => Some(string_of(&w)),
            None => None,
        },
    }
}

/// Whether [`extract_executable`] can read `command`: when the executable is
/// found by its `.exe`, the position after that `.exe` in the lower-cased
/// command falls between two characters of the command itself.
pub fn command_is_readable(command: &str) -> (res: bool)
    ensures
        res == command_readable(command@),
{
    let t = trim_str(command);
    let v = chars_of(t.as_str());
    if v.len() > 0 && v[0] == '"' {
        return true;
    }
    let lower = to_lowercase(t.as_str());
    let lb = lower.as_str().as_bytes();
    let lbn = lb.len();
    match find_exe(lb) {
        Some(idx) => {
            assert(idx + 4 <= lbn);
            t.as_str().is_char_boundary(idx + 4)
        },
        None => true,
    }
}

/// The executable of a registry command, when [`extract_executable`] can
/// read it: `None` when it cannot (the `.exe` of the lower-cased command
/// ends inside a character of the command), else what it reads.
pub fn executable_of(command: &str) -> (res: Option<Option<String>>)
    ensures
        match res {
            None => !command_readable(command@),
            Some(e) => command_readable(command@) && executable_matches(command@, e),
        },
{
    if command_is_readable(command) {
        Some(extract_executable(command))
    } else {
        None
    }
}

// ---------------------------------------------------------------------------
// Firefox profiles
// ---------------------------------------------------------------------------

/// Reading `profiles.ini`: whether the current section is a profile, and the
/// profile names found so far.
pub struct IniState {
    pub in_profile: bool,
    pub names: Seq<Seq<char>>,
}

/// The reading state after one more line: a `[section]` header starts a
/// section, which is a profile when its name starts with `Profile`; inside
/// one, a `Name=` line adds its trimmed value.
pub open spec fn ini_step(st: IniState, raw: Seq<char>) -> IniState {
    let line = trim(raw);
    if is_section_header(line) {
        IniState {
            in_profile: starts_with(line.subrange(1, line.len() - 1), "Profile"@),
            names: st.names,
        }
    } else if st.in_profile && starts_with(line, "Name="@) {
        IniState { in_profile: st.in_profile, names: st.names.push(trim(line.skip(5))) }
    } else {
        st
    }
}

/// The reading state after the lines `ls`.
pub open spec fn ini_read(ls: Seq<Seq<char>>) -> IniState
    decreases ls.len(),
{
    if ls.len() == 0 {
        IniState { in_profile: false, names: Seq::empty() }
    } else {
        ini_step(ini_read(ls.drop_last()), ls.last())
    }
}

/// The profile names of a `profiles.ini`, in file order.
pub open spec fn spec_profiles_ini(contents: Seq<char>) -> Seq<Seq<char>> {
    ini_read(lines(contents)).names
}

/// Parses `profiles.ini`, returning the `Name=` of each `[ProfileN]` section.
pub fn parse_profiles_ini(contents: &str) -> (res: Vec<String>)
    ensures
        views(res@) == spec_profiles_ini(contents@),
{
    let all = chars_of(contents);
    let ls = lines_vec(&all);
    let ghost lv = lines(contents@);
    let profile = chars_of("Profile");
    let name_key = chars_of("Name=");
    proof {
        reveal_strlit("Name=");
    }
    let mut in_profile = false;
    let mut names: Vec<String> = Vec::new();
    let mut i: usize = 0;
    while i < ls.len()
        invariant
            i <= ls@.len(),
            vec_views(ls@) == lv,
            profile@ == "Profile"@,
            name_key@ == "Name="@,
            name_key@.len() == 5,
            ini_read(lv.take(i as int)).in_profile == in_profile,
            ini_read(lv.take(i as int)).names == views(names@),
        decreases ls@.len() - i,
    {
        let raw = &ls[i];
        assert(lv.take(i + 1).drop_last() =~= lv.take(i as int));
        assert(lv.take(i + 1).last() == raw@);
        let (lo, hi) = trim_bounds(raw, 0, raw.len());
        assert(raw@.subrange(0, raw@.len() as int) =~= raw@);
        let line = sub_vec(raw, lo, hi);
        assert(line@ == trim(raw@));
        if line.len() >= 2 && line[0] == '[' && line[line.len() - 1] == ']' {
            let inner = sub_vec(&line, 1, line.len() - 1);
            in_profile = crate::text::starts_with_at(&inner, 0, &profile);
            assert(inner@.skip(0) =~= inner@);
        } else if in_profile && crate::text::starts_with_at(&line, 0, &name_key) {
            assert(line@.skip(0) =~= line@);
            let (vlo, vhi) = trim_bounds(&line, 5, line.len());
            assert(line@.subrange(5, line@.len() as int) =~= line@.skip(5));
            let ghost before = names@;
            names.push(string_of_range(&line, vlo, vhi));
            assert(views(names@) =~= views(before).push(trim(line@.skip(5))));
        } else {
            assert(line@.skip(0) =~= line@);
        }
        i = i + 1;
    }
    assert(lv.take(lv.len() as int) =~= lv);
    names
}

/// The folder under the roaming application data that holds the
/// `profiles.ini` of a Firefox-family browser, from its display name.
pub fn firefox_vendor_dir(name: &str) -> (res: &'static str)
    ensures
        res@ == if contains(lower_case(name@), "librewolf"@) {
            "LibreWolf"@
        } else if contains(lower_case(name@), "zen"@) {
            "zen"@
        } else {
            "Mozilla\\Firefox"@
        },
{
    let lower = to_lowercase(name);
    let l = chars_of(lower.as_str());
    if contains_str(&l, "librewolf") {
        "LibreWolf"
    } else if contains_str(&l, "zen") {
        "zen"
    } else {
        "Mozilla\\Firefox"
    }
}

/// The folder under the local application data that holds the user data of
/// a Chromium-family browser, from its executable; none for Opera, whose
/// profiles are laid out otherwise.
pub fn chromium_user_data_dir(executable: &str) -> (res: Option<&'static str>)
    ensures
        ({
            let l = lower_case(executable@);
            if contains(l, "msedge"@) {
                res matches Some(d) && d@ == "Microsoft\\Edge\\User Data"@
            } else if contains(l, "brave"@) {
                res matches Some(d) && d@ == "BraveSoftware\\Brave-Browser\\User Data"@
            } else if contains(l, "vivaldi"@) {
                res matches Some(d) && d@ == "Vivaldi\\User Data"@
            } else if contains(l, "opera"@) {
                res.is_none()
            } else {
                res matches Some(d) && d@ == "Google\\Chrome\\User Data"@
            }
        }),
{
    let lower = to_lowercase(executable);
    let l = chars_of(lower.as_str());
    if contains_str(&l, "msedge") {
        Some("Microsoft\\Edge\\User Data")
    } else if contains_str(&l, "brave") {
        Some("BraveSoftware\\Brave-Browser\\User Data")
    } else if contains_str(&l, "vivaldi") {
        Some("Vivaldi\\User Data")
    } else if contains_str(&l, "opera") {
        None
    } else {
        Some("Google\\Chrome\\User Data")
    }
}

// ---------------------------------------------------------------------------
// Registration and the foreground process
// ---------------------------------------------------------------------------

/// The `ProgId` `br` registers under `HKEY_CURRENT_USER\Software\Classes`.
pub open spec fn spec_prog_id() -> Seq<char> {
    "BrowserRouter.HTTP"@
}

/// The `ProgId` `br` registers under `HKEY_CURRENT_USER\Software\Classes`.
pub fn prog_id() -> (res: &'static str)
    ensures
        res@ == spec_prog_id(),
{
    "BrowserRouter.HTTP"
}

/// `br` is the default handler when the user's choice for both `http` and
/// `https` is its `ProgId` (a choice that could not be read counts as no).
pub fn is_default_from_choices(http: Option<&str>, https: Option<&str>) -> (res: bool)
    ensures
        res == (http.is_some() && http.unwrap()@ == spec_prog_id() && https.is_some()
            && https.unwrap()@ == spec_prog_id()),
{
    match (http, https) {
        (Some(h), Some(s)) => eq_str(h, "BrowserRouter.HTTP") && eq_str(s, "BrowserRouter.HTTP"),
        _ => false,
    }
}

/// The `shell\open\command` that runs `br` at `exe` on a URL.
pub fn open_command(exe: &str) -> (res: String)
    ensures
        res@ == "\""@ + exe@ + "\" open \"%1\""@,
{
    let mut s = concat("\"", exe);
    s.append("\" open \"%1\"");
    s
}

/// The outcome of registering: Windows always asks the user to confirm in
/// its Default apps settings, which are opened for them.
pub fn registration_outcome() -> (res: RegisterOutcome)
    ensures
        res matches RegisterOutcome::NeedsManualConfirmation { instructions } && instructions@
            == "br has been registered as a candidate handler (BrowserRouter.HTTP). Windows 'Default apps' settings has been opened — search for 'BrowserRouter' and set it as the default for HTTP and HTTPS."@,
{
    RegisterOutcome::NeedsManualConfirmation {
        instructions: owned(
            "br has been registered as a candidate handler (BrowserRouter.HTTP). Windows 'Default apps' settings has been opened — search for 'BrowserRouter' and set it as the default for HTTP and HTTPS.",
        ),
    }
}

/// `s` without every trailing `.exe`.
pub open spec fn without_exe_suffixes(s: Seq<char>) -> Seq<char>
    decreases s.len(),
{
    if ends_with(s, ".exe"@) && s.len() >= 4 {
        without_exe_suffixes(s.take(s.len() - 4))
    } else {
        s
    }
}

/// The name shown for a process: its module name without `.exe` suffixes.
pub fn process_base_name(module_name: &str) -> (res: String)
    ensures
        res@ == without_exe_suffixes(module_name@),
{
    let v = chars_of(module_name);
    let suffix = chars_of(".exe");
    proof {
        reveal_strlit(".exe");
    }
    let mut end = v.len();
    assert(v@.take(end as int) =~= v@);
    while end >= 4 && crate::text::ends_with_vec(&sub_vec(&v, 0, end), &suffix)
        invariant
            end <= v@.len(),
            suffix@ == ".exe"@,
            suffix@.len() == 4,
            without_exe_suffixes(v@) == without_exe_suffixes(v@.take(end as int)),
        decreases end,
    {
        assert(v@.subrange(0, end as int) =~= v@.take(end as int));
        assert(v@.take(end as int).take(end - 4) =~= v@.take(end - 4));
        end = end - 4;
    }
    assert(v@.subrange(0, end as int) =~= v@.take(end as int));
    assert(v@.take(v@.len() as int) =~= v@);
    string_of_range(&v, 0, end)
}

// ---------------------------------------------------------------------------
// Installed browsers and their profiles
// ---------------------------------------------------------------------------

/// A browser registered under `StartMenuInternet`: its display name and
/// executable.
#[derive(Debug, Clone, PartialEq, Eq)]
pub struct InstalledClient {
    pub name: String,
    pub executable: String,
}

/// What a Chromium `Local State` file says of one profile.
#[derive(Debug, Clone, PartialEq, Eq)]
pub struct ProfileInfo {
    pub name: Option<String>,
    pub user_name: Option<String>,
    pub gaia_name: Option<String>,
}

/// `a` sorts before or with `b`: compared character by character by code
/// point (which is the byte order of their UTF-8 forms), a prefix first.
pub open spec fn text_le(a: Seq<char>, b: Seq<char>) -> bool
    decreases a.len(),
{
    if a.len() == 0 {
        true
    } else if b.len() == 0 {
        false
    } else if a[0] != b[0] {
        (a[0] as u32) < (b[0] as u32)
    } else {
        text_le(a.drop_first(), b.drop_first())
    }
}

/// Whether `a` sorts before or with `b`.
fn text_le_exec(a: &str, b: &str) -> (res: bool)
    ensures
        res == text_le(a@, b@),
{
    let x = chars_of(a);
    let y = chars_of(b);
    let mut i: usize = 0;
    assert(x@.skip(0) =~= x@);
    assert(y@.skip(0) =~= y@);
    while i < x.len() && i < y.len() && x[i] == y[i]
        invariant
            i <= x@.len(),
            i <= y@.len(),
            text_le(a@, b@) == text_le(x@.skip(i as int), y@.skip(i as int)),
            x@ == a@,
            y@ == b@,
        decreases x@.len() - i,
    {
        assert(x@.skip(i as int).drop_first() =~= x@.skip(i + 1));
        assert(y@.skip(i as int).drop_first() =~= y@.skip(i + 1));
        i = i + 1;
    }
    if i == x.len() {
        true
    } else if i == y.len() {
        false
    } else {
        assert(x@.skip(i as int)[0] == x@[i as int]);
        assert(y@.skip(i as int)[0] == y@[i as int]);
        let cx = x[i];
        let cy = y[i];
        (cx as u32) < (cy as u32)
    }
}

/// `sorted` with `p` inserted before the trailing profiles whose folder
/// sorts after `p`'s.
pub open spec fn insert_by_dir(sorted: Seq<(String, ProfileInfo)>, p: (String, ProfileInfo)) -> Seq<
    (String, ProfileInfo),
>
    decreases sorted.len(),
{
    if sorted.len() == 0 {
        seq![p]
    } else if text_le(sorted.last().0@, p.0@) {
        sorted.push(p)
    } else {
        insert_by_dir(sorted.drop_last(), p).push(sorted.last())
    }
}

/// The profiles ordered by folder name, equal names in their given order.
pub open spec fn sorted_by_dir(ps: Seq<(String, ProfileInfo)>) -> Seq<(String, ProfileInfo)>
    decreases ps.len(),
{
    if ps.len() == 0 {
        ps
    } else {
        insert_by_dir(sorted_by_dir(ps.drop_last()), ps.last())
    }
}

proof fn lemma_insert_by_dir_at(s: Seq<(String, ProfileInfo)>, p: (String, ProfileInfo), j: int)
    requires
        0 <= j <= s.len(),
        forall|k: int| j <= k < s.len() ==> !text_le(#[trigger] s[k].0@, p.0@),
        j == 0 || text_le(s[j - 1].0@, p.0@),
    ensures
        insert_by_dir(s, p) == s.insert(j, p),
    decreases s.len(),
{
    if j == s.len() {
        if s.len() == 0 {
            assert(s.insert(0, p) =~= seq![p]);
        } else {
            assert(s.insert(j, p) =~= s.push(p));
        }
    } else {
        let d = s.drop_last();
        assert(s.last() == s[s.len() - 1]);
        assert forall|k: int| j <= k < d.len() implies !text_le(#[trigger] d[k].0@, p.0@) by {
            assert(d[k] == s[k]);
        }
        if j > 0 {
            assert(d[j - 1] == s[j - 1]);
        }
        lemma_insert_by_dir_at(d, p, j);
        assert(d.insert(j, p).push(s.last()) =~= s.insert(j, p));
    }
}

/// Orders profiles by folder name, keeping equal names in their order.
pub fn sort_profiles_by_dir(ps: Vec<(String, ProfileInfo)>) -> (res: Vec<(String, ProfileInfo)>)
    ensures
        res@ == sorted_by_dir(ps@),
{
    let ghost orig = ps@;
    let mut src = ps;
    let total = src.len();
    let mut out: Vec<(String, ProfileInfo)> = Vec::new();
    let mut k: usize = 0;
    while src.len() > 0
        invariant
            total == orig.len(),
            k + src@.len() == orig.len(),
            src@ == orig.skip(k as int),
            out@ == sorted_by_dir(orig.take(k as int)),
        decreases src@.len(),
    {
        let p = src.remove(0);
        assert(orig.take(k + 1).drop_last() =~= orig.take(k as int));
        assert(orig.take(k + 1).last() == p);
        assert(src@ =~= orig.skip(k + 1));
        let mut j = out.len();
        while j > 0 && !text_le_exec(out[j - 1].0.as_str(), p.0.as_str())
            invariant
                j <= out@.len(),
                forall|m: int| j <= m < out@.len() ==> !text_le(#[trigger] out@[m].0@, p.0@),
            decreases j,
        {
            j = j - 1;
        }
        proof {
            lemma_insert_by_dir_at(out@, p, j as int);
        }
        out.insert(j, p);
        k = k + 1;
    }
    assert(orig.take(k as int) =~= orig);
    out
}

/// The name a Chromium profile is shown with: its own name, else its Google
/// account name, else its user name, else its folder.
pub open spec fn profile_display_name(dir: Seq<char>, info: ProfileInfo) -> Seq<char> {
    match info.name {
        Some(n) => n@,
        None => match info.gaia_name {
            Some(g) => g@,
            None => match info.user_name {
                Some(u) => u@,
                None => dir,
            },
        },
    }
}

/// `t` is the target of the Chromium profile in folder `dir` of `client`.
pub open spec fn is_chromium_profile_target(
    t: BrowserTarget,
    client: InstalledClient,
    dir: Seq<char>,
    info: ProfileInfo,
) -> bool {
    &&& t.id@ == spec_slug(client.name@) + "-"@ + spec_slug(dir)
    &&& t.name@ == client.name@ + " ("@ + profile_display_name(dir, info) + ")"@
    &&& t.kind@ == "chromium"@
    &&& t.executable@ == client.executable@
    &&& t.args@.len() == 0
    &&& t.profile_dir matches Some(d) && d@ == dir
    &&& t.profile_name.is_none()
    &&& t.icon.is_none()
    &&& !t.hidden
}

/// `t` is the single target of `client` when its profiles are unknown, of
/// kind `kind`.
pub open spec fn is_fallback_target(t: BrowserTarget, client: InstalledClient, kind: Seq<char>) -> bool {
    &&& t.id@ == spec_slug(client.name@)
    &&& t.name@ == client.name@
    &&& t.kind@ == kind
    &&& t.executable@ == client.executable@
    &&& is_plain_target(t)
}

/// The single target of `client` when its profiles are unknown.
pub fn fallback_target(client: &InstalledClient, kind: &str) -> (res: BrowserTarget)
    ensures
        is_fallback_target(res, *client, kind@),
{
    BrowserTarget {
        id: slug(client.name.as_str()),
        name: client.name.clone(),
        kind: owned(kind),
        executable: client.executable.clone(),
        args: Vec::new(),
        profile_dir: None,
        profile_name: None,
        icon: None,
        hidden: false,
    }
}

/// One target per profile of a Chromium-family `client`, ordered by profile
/// folder; the single fallback target when there are no profiles.
pub fn chromium_profiles(client: &InstalledClient, profiles: Vec<(String, ProfileInfo)>) -> (res: Vec<
    BrowserTarget,
>)
    ensures
        profiles@.len() == 0 ==> res@.len() == 1 && is_fallback_target(res@[0], *client, "chromium"@),
        profiles@.len() > 0 ==> res@.len() == profiles@.len() && forall|i: int|
            0 <= i < res@.len() ==> is_chromium_profile_target(
                #[trigger] res@[i],
                *client,
                sorted_by_dir(profiles@)[i].0@,
                sorted_by_dir(profiles@)[i].1,
            ),
{
    if profiles.len() == 0 {
        let mut res: Vec<BrowserTarget> = Vec::new();
        res.push(fallback_target(client, "chromium"));
        return res;
    }
    let ghost n = profiles@.len();
    let sorted = sort_profiles_by_dir(profiles);
    proof {
        lemma_sorted_by_dir_len(profiles@);
    }
    let base_id = slug(client.name.as_str());
    let mut res: Vec<BrowserTarget> = Vec::new();
    let mut i: usize = 0;
    while i < sorted.len()
        invariant
            i <= sorted@.len(),
            base_id@ == spec_slug(client.name@),
            res@.len() == i,
            forall|m: int|
                0 <= m < i ==> is_chromium_profile_target(
                    #[trigger] res@[m],
                    *client,
                    sorted@[m].0@,
                    sorted@[m].1,
                ),
        decreases sorted@.len() - i,
    {
        let (dir, info) = (&sorted[i].0, &sorted[i].1);
        let display = match &info.name {
            Some(n) => n.clone(),
            None => match &info.gaia_name {
                Some(g) => g.clone(),
                None => match &info.user_name {
                    Some(u) => u.clone(),
                    None => dir.clone(),
                },
            },
        };
        let mut id = concat(base_id.as_str(), "-");
        let ds = slug(dir.as_str());
        id.append(ds.as_str());
        let mut name = concat(client.name.as_str(), " (");
        name.append(display.as_str());
        name.append(")");
        res.push(
            BrowserTarget {
                id,
                name,
                kind: owned("chromium"),
                executable: client.executable.clone(),
                args: Vec::new(),
                profile_dir: Some(dir.clone()),
                profile_name: None,
                icon: None,
                hidden: false,
            },
        );
        i = i + 1;
    }
    res
}

proof fn lemma_insert_by_dir_len(s: Seq<(String, ProfileInfo)>, p: (String, ProfileInfo))
    ensures
        insert_by_dir(s, p).len() == s.len() + 1,
    decreases s.len(),
{
    if s.len() > 0 && !text_le(s.last().0@, p.0@) {
        lemma_insert_by_dir_len(s.drop_last(), p);
    }
}

proof fn lemma_sorted_by_dir_len(ps: Seq<(String, ProfileInfo)>)
    ensures
        sorted_by_dir(ps).len() == ps.len(),
    decreases ps.len(),
{
    if ps.len() > 0 {
        lemma_sorted_by_dir_len(ps.drop_last());
        lemma_insert_by_dir_len(sorted_by_dir(ps.drop_last()), ps.last());
    }
}

/// `t` is the target of the Firefox profile `name` of `client`.
pub open spec fn is_firefox_profile_target(t: BrowserTarget, client: InstalledClient, name: Seq<char>) -> bool {
    &&& t.id@ == spec_slug(client.name@) + "-"@ + spec_slug(name)
    &&& t.name@ == client.name@ + " ("@ + name + ")"@
    &&& t.kind@ == "firefox"@
    &&& t.executable@ == client.executable@
    &&& t.args@.len() == 0
    &&& t.profile_dir.is_none()
    &&& t.profile_name matches Some(p) && p@ == name
    &&& t.icon.is_none()
    &&& !t.hidden
}

/// One target per profile of a Firefox-family `client`, in `profiles.ini`
/// order; the single fallback target when there are no profiles.
pub fn firefox_profiles(client: &InstalledClient, names: &Vec<String>) -> (res: Vec<BrowserTarget>)
    ensures
        names@.len() == 0 ==> res@.len() == 1 && is_fallback_target(res@[0], *client, "firefox"@),
        names@.len() > 0 ==> res@.len() == names@.len() && forall|i: int|
            0 <= i < res@.len() ==> is_firefox_profile_target(#[trigger] res@[i], *client, names@[i]@),
{
    let mut res: Vec<BrowserTarget> = Vec::new();
    if names.len() == 0 {
        res.push(fallback_target(client, "firefox"));
        return res;
    }
    let base_id = slug(client.name.as_str());
    let mut i: usize = 0;
    while i < names.len()
        invariant
            i <= names@.len(),
            base_id@ == spec_slug(client.name@),
            res@.len() == i,
            forall|m: int| 0 <= m < i ==> is_firefox_profile_target(#[trigger] res@[m], *client, names@[m]@),
        decreases names@.len() - i,
    {
        let name = &names[i];
        let mut id = concat(base_id.as_str(), "-");
        let ns = slug(name.as_str());
        id.append(ns.as_str());
        let mut display = concat(client.name.as_str(), " (");
        display.append(name.as_str());
        display.append(")");
        res.push(
            BrowserTarget {
                id,
                name: display,
                kind: owned("firefox"),
                executable: client.executable.clone(),
                args: Vec::new(),
                profile_dir: None,
                profile_name: Some(name.clone()),
                icon: None,
                hidden: false,
            },
        );
        i = i + 1;
    }
    res
}

/// The targets of an installed browser: by its kind, one per Chromium
/// profile, one per Firefox profile, or the browser itself. `chromium` and
/// `firefox` are the profiles read for it (left empty when its files could
/// not be read, or do not apply to its kind).
pub fn client_targets(
    client: &InstalledClient,
    chromium: Vec<(String, ProfileInfo)>,
    firefox: &Vec<String>,
) -> (res: Vec<BrowserTarget>)
    ensures
        ({
            let kind = spec_classify(lower_case(client.name@));
            if kind == "chromium"@ {
                (chromium@.len() == 0 ==> res@.len() == 1 && is_fallback_target(res@[0], *client, "chromium"@))
                    && (chromium@.len() > 0 ==> res@.len() == chromium@.len() && forall|i: int|
                    0 <= i < res@.len() ==> is_chromium_profile_target(
                        #[trigger] res@[i],
                        *client,
                        sorted_by_dir(chromium@)[i].0@,
                        sorted_by_dir(chromium@)[i].1,
                    ))
            } else if kind == "firefox"@ {
                (firefox@.len() == 0 ==> res@.len() == 1 && is_fallback_target(res@[0], *client, "firefox"@))
                    && (firefox@.len() > 0 ==> res@.len() == firefox@.len() && forall|i: int|
                    0 <= i < res@.len() ==> is_firefox_profile_target(#[trigger] res@[i], *client, firefox@[i]@))
            } else {
                res@.len() == 1 && is_fallback_target(res@[0], *client, "generic"@)
            }
        }),
{
    let kind = classify(client.name.as_str());
    if eq_str(kind, "chromium") {
        chromium_profiles(client, chromium)
    } else if eq_str(kind, "firefox") {
        firefox_profiles(client, firefox)
    } else {
        let mut res: Vec<BrowserTarget> = Vec::new();
        res.push(fallback_target(client, "generic"));
        res
    }
}

/// An executable can be read from a registry command without a slicing
/// fault (see [`extract_executable`]).
pub open spec fn command_readable(command: Seq<char>) -> bool {
    !(trim(command).len() > 0 && trim(command)[0] == '"') && exe_end(command) >= 0 ==> is_char_boundary(
        encode_utf8(trim(command)),
        exe_end(command),
    )
}

/// The UTF-8 bytes of the executable [`extract_executable`] reads from a
/// registry command, if any.
pub open spec fn command_exe(command: Seq<char>) -> Option<Seq<u8>> {
    let t = trim(command);
    if t.len() > 0 && t[0] == '"' {
        Some(encode_utf8(quoted_part(t.drop_first())))
    } else if exe_end(command) >= 0 {
        Some(encode_utf8(t).take(exe_end(command)))
    } else {
        match first_word(t) {
            Some(w) => Some(encode_utf8(w)),
            None => None,
        }
    }
}

/// The installed browsers the registry entries (display name, command)
/// describe, as (name, executable bytes): those whose command names an
/// executable, in order, keeping the first entry of each executable.
pub open spec fn clients_of(entries: Seq<(String, String)>) -> Seq<(Seq<char>, Seq<u8>)>
    decreases entries.len(),
{
    if entries.len() == 0 {
        Seq::empty()
    } else {
        let r = clients_of(entries.drop_last());
        match command_exe(entries.last().1@) {
            Some(b) => if exists|j: int| 0 <= j < r.len() && (#[trigger] r[j]).1 == b {
                r
            } else {
                r.push((entries.last().0@, b))
            },
            None => r,
        }
    }
}

/// A client as (name, executable bytes).
pub open spec fn client_key(c: InstalledClient) -> (Seq<char>, Seq<u8>) {
    (c.name@, encode_utf8(c.executable@))
}

proof fn lemma_encode_injective(a: Seq<char>, b: Seq<char>)
    ensures
        encode_utf8(a) == encode_utf8(b) <==> a == b,
{
    vstd::utf8::encode_utf8_decode_utf8(a);
    vstd::utf8::encode_utf8_decode_utf8(b);
}

/// The installed browsers from registry entries (display name, command),
/// in order: those whose command names an executable, keeping the first
/// entry of each executable.
pub fn collect_clients(entries: Vec<(String, String)>) -> (res: Vec<InstalledClient>)
    requires
        forall|i: int| 0 <= i < entries@.len() ==> command_readable(#[trigger] entries@[i].1@),
    ensures
        res@.map_values(|c: InstalledClient| client_key(c)) == clients_of(entries@),
{
    let ghost all = entries@;
    let mut rest = entries;
    let total = rest.len();
    let mut k: usize = 0;
    let mut res: Vec<InstalledClient> = Vec::new();
    while rest.len() > 0
        invariant
            total == all.len(),
            k + rest@.len() == all.len(),
            rest@ == all.skip(k as int),
            forall|i: int| 0 <= i < all.len() ==> command_readable(#[trigger] all[i].1@),
            res@.map_values(|c: InstalledClient| client_key(c)) == clients_of(all.take(k as int)),
        decreases rest@.len(),
    {
        let (name, command) = rest.remove(0);
        let ghost before = res@;
        let ghost r = clients_of(all.take(k as int));
        assert(all.take(k + 1).drop_last() =~= all.take(k as int));
        assert(all.take(k + 1).last() == (name, command));
        assert(rest@ =~= all.skip(k + 1));
        assert(command_readable(all[k as int].1@));
        let found = extract_executable(command.as_str());
        match found {
            Some(exe) => {
                assert(command_exe(command@) == Some(encode_utf8(exe@)));
                let mut dup = false;
                let mut m: usize = 0;
                while m < res.len()
                    invariant
                        m <= res@.len(),
                        res@ == before,
                        !dup ==> forall|q: int| 0 <= q < m ==> (#[trigger] res@[q]).executable@ != exe@,
                        dup ==> exists|q: int| 0 <= q < res@.len() && (#[trigger] res@[q]).executable@ == exe@,
                    decreases res@.len() - m,
                {
                    if eq_str(res[m].executable.as_str(), exe.as_str()) {
                        dup = true;
                    }
                    m = m + 1;
                }
                proof {
                    let mv = before.map_values(|c: InstalledClient| client_key(c));
                    if dup {
                        let q = choose|q: int| 0 <= q < res@.len() && (#[trigger] res@[q]).executable@ == exe@;
                        assert(mv[q].1 == encode_utf8(exe@));
                    } else {
                        assert forall|q: int| 0 <= q < r.len() implies (#[trigger] r[q]).1 != encode_utf8(exe@) by {
                            assert(r[q] == mv[q]);
                            lemma_encode_injective(before[q].executable@, exe@);
                        }
                    }
                }
                if !dup {
                    res.push(InstalledClient { name, executable: exe });
                    assert(res@.map_values(|c: InstalledClient| client_key(c)) =~= before.map_values(
                        |c: InstalledClient| client_key(c),
                    ).push(client_key(res@.last())));
                }
            },
            None => {
                assert(command_exe(command@).is_none());
            },
        }
        k = k + 1;
    }
    assert(all.take(k as int) =~= all);
    res
}

/// The installed clients of registry entries whose commands
/// [`extract_executable`] can all read (see [`collect_clients`]); `None`
/// when one of the commands cannot be read.
pub fn collect_readable_clients(entries: Vec<(String, String)>) -> (res: Option<Vec<InstalledClient>>)
    ensures
        match res {
            None => exists|i: int| 0 <= i < entries@.len() && !command_readable(#[trigger] entries@[i].1@),
            Some(v) => (forall|i: int| 0 <= i < entries@.len() ==> command_readable(#[trigger] entries@[i].1@))
                && v@.map_values(|c: InstalledClient| client_key(c)) == clients_of(entries@),
        },
{
    let mut i: usize = 0;
    while i < entries.len()
        invariant
            i <= entries@.len(),
            forall|k: int| 0 <= k < i ==> command_readable(#[trigger] entries@[k].1@),
        decreases entries@.len() - i,
    {
        if !command_is_readable(entries[i].1.as_str()) {
            return None;
        }
        i = i + 1;
    }
    Some(collect_clients(entries))
}

} // verus!
