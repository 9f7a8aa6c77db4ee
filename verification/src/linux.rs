//! Decisions of the Linux integration: the `.desktop` files `br` installs,
//! reading whether it is the default browser, and finding the focused
//! window's process in a Sway layout tree.
use vstd::prelude::*;

use crate::desktop_entry::{parse, spec_is_browser, spec_parse, DesktopEntry};
use crate::model::BrowserTarget;
use crate::platform::{classify, lower_case, slug, spec_classify, spec_slug, RegisterOutcome};
use crate::text::{concat, eq_str, first_word, owned, trim, trim_str};

verus! {

/// A node of the Sway layout tree (`swaymsg -t get_tree`), holding what the
/// search reads: whether it is focused (`true` only for a JSON `true`), its
/// process id when it is an unsigned integer, and its children: the tiling
/// nodes followed by the floating ones.
#[derive(Debug)]
pub struct SwayNode {
    pub focused: bool,
    pub pid: Option<u64>,
    pub children: Vec<SwayNode>,
}

/// The process id of the first focused node with a process id, searching a
/// node before its children, depth first; cut to 32 bits.
pub open spec fn focused_pid(node: SwayNode) -> Option<u32>
    decreases node,
{
    if node.focused && node.pid.is_some() {
        Some(node.pid.unwrap() as u32)
    } else {
        first_focused(node.children@)
    }
}

/// [`focused_pid`] of the first of `nodes` that has one.
pub open spec fn first_focused(nodes: Seq<SwayNode>) -> Option<u32>
    decreases nodes,
{
    if nodes.len() == 0 {
        None
    } else {
        match focused_pid(nodes[0]) {
            Some(p) => Some(p),
            None => first_focused(nodes.subrange(1, nodes.len() as int)),
        }
    }
}

/// The process id of the focused window in a Sway layout tree: the first
/// focused node with a process id, searching a node before its children.
pub fn find_focused_pid(node: &SwayNode) -> (res: Option<u32>)
    ensures
        res == focused_pid(*node),
    decreases node,
{
    if node.focused {
        if let Some(p) = node.pid {
            return Some(p as u32);
        }
    }
    first_focused_in(&node.children)
}

/// [`find_focused_pid`] of the first of `nodes` that has one.
fn first_focused_in(nodes: &Vec<SwayNode>) -> (res: Option<u32>)
    ensures
        res == first_focused(nodes@),
    decreases nodes,
{
    let n = nodes.len();
    assert(nodes@.subrange(0, n as int) =~= nodes@);
    let mut i: usize = 0;
    while i < n
        invariant
            n == nodes@.len(),
            i <= n,
            first_focused(nodes@) == first_focused(nodes@.subrange(i as int, n as int)),
        decreases n - i,
    {
        let ghost rest = nodes@.subrange(i as int, n as int);
        assert(rest[0] == nodes@[i as int]);
        assert(rest.subrange(1, rest.len() as int) =~= nodes@.subrange(i + 1, n as int));
        proof {
            assert(decreases_to!(nodes => nodes@));
            assert(decreases_to!(nodes@ => nodes@[i as int]));
        }
        match find_focused_pid(&nodes[i]) {
            Some(p) => {
                return Some(p);
            },
            None => {},
        }
        i = i + 1;
    }
    assert(nodes@.subrange(n as int, n as int) =~= Seq::<SwayNode>::empty());
    None
}

// ---------------------------------------------------------------------------
// Installed files
// ---------------------------------------------------------------------------

/// The unit the Linux integration works for; the system calls are made by
/// the application, which asks this module what to write and how to read
/// the answers.
#[derive(Debug, Default, Clone, Copy, PartialEq, Eq)]
pub struct LinuxPlatform;

/// Name of the `.desktop` file that declares `br` a URL handler.
pub open spec fn spec_desktop_file_name() -> Seq<char> {
    "browserrouter.desktop"@
}

/// Name of the `.desktop` file that declares `br` a URL handler.
pub fn desktop_file_name() -> (res: &'static str)
    ensures
        res@ == spec_desktop_file_name(),
{
    "browserrouter.desktop"
}

/// Name of the autostart entry of the daemon.
pub fn autostart_file_name() -> (res: &'static str)
    ensures
        res@ == "browserrouter-daemon.desktop"@,
{
    "browserrouter-daemon.desktop"
}

/// The autostart entry that starts the daemon at `daemon_exe` on login.
pub fn autostart_entry(daemon_exe: &str) -> (res: String)
    ensures
        res@ == "[Desktop Entry]\nType=Application\nName=BrowserRouter Daemon\nExec="@ + daemon_exe@
            + "\nTerminal=false\nNoDisplay=true\nX-GNOME-Autostart-enabled=true\n"@,
{
    let mut s = concat("[Desktop Entry]\nType=Application\nName=BrowserRouter Daemon\nExec=", daemon_exe);
    s.append("\nTerminal=false\nNoDisplay=true\nX-GNOME-Autostart-enabled=true\n");
    s
}

/// The `.desktop` file that declares `br` at `exe` a handler of `http` and
/// `https` URLs, run as `<exe> open <url>`.
pub fn handler_entry(exe: &str) -> (res: String)
    ensures
        res@ == "[Desktop Entry]\nType=Application\nName=BrowserRouter\nComment=Routes links to the right browser/profile based on rules\nExec="@
            + exe@
            + " open %u\nTerminal=false\nNoDisplay=true\nMimeType=x-scheme-handler/http;x-scheme-handler/https;\n"@,
{
    let mut s = concat(
        "[Desktop Entry]\nType=Application\nName=BrowserRouter\nComment=Routes links to the right browser/profile based on rules\nExec=",
        exe,
    );
    s.append(
        " open %u\nTerminal=false\nNoDisplay=true\nMimeType=x-scheme-handler/http;x-scheme-handler/https;\n",
    );
    s
}

/// `br` is the default browser when `xdg-settings get default-web-browser`
/// succeeded and printed, without surrounding white space, its file's name.
pub fn is_default_from_xdg(success: bool, stdout: &str) -> (res: bool)
    ensures
        res == (success && trim(stdout@) == spec_desktop_file_name()),
{
    if !success {
        return false;
    }
    let t = trim_str(stdout);
    eq_str(t.as_str(), "browserrouter.desktop")
}

/// The outcome of registering, once the handler file is installed at
/// `desktop_file`: registered when `xdg-settings` accepted it as the default
/// browser, else instructions for doing it by hand.
pub fn registration_outcome(set_succeeded: bool, desktop_file: &str) -> (res: RegisterOutcome)
    ensures
        set_succeeded ==> res == RegisterOutcome::Registered,
        !set_succeeded ==> (res matches RegisterOutcome::NeedsManualConfirmation { instructions }
            && instructions@ == "br has been installed as "@ + desktop_file@
            + " but could not be set as the default browser automatically. Run `xdg-settings set default-web-browser browserrouter.desktop` or set it via your desktop environment's settings."@),
{
    if set_succeeded {
        RegisterOutcome::Registered
    } else {
        let mut s = concat("br has been installed as ", desktop_file);
        s.append(
            " but could not be set as the default browser automatically. Run `xdg-settings set default-web-browser browserrouter.desktop` or set it via your desktop environment's settings.",
        );
        RegisterOutcome::NeedsManualConfirmation { instructions: s }
    }
}

// ---------------------------------------------------------------------------
// The foreground application
// ---------------------------------------------------------------------------

/// A decimal digit.
pub open spec fn is_digit(c: char) -> bool {
    '0' <= c && c <= '9'
}

/// The value of a string of decimal digits.
pub open spec fn digits_value(s: Seq<char>) -> nat
    decreases s.len(),
{
    if s.len() == 0 {
        0
    } else {
        digits_value(s.drop_last()) * 10 + ((s.last() as u32) - ('0' as u32)) as nat
    }
}

/// What `u32::from_str` accepts: an optional `+` followed by at least one
/// decimal digit, of value below 2^32.
pub open spec fn spec_parse_u32(s: Seq<char>) -> Option<u32> {
    let d = unsigned_part(s);
    if d.len() > 0 && all_digits(d) && digits_value(d) <= u32::MAX {
        Some(digits_value(d) as u32)
    } else {
        None
    }
}

/// `s` without one leading `+`.
pub open spec fn unsigned_part(s: Seq<char>) -> Seq<char> {
    if s.len() > 0 && s[0] == '+' {
        s.drop_first()
    } else {
        s
    }
}

/// Every character of `s` is a decimal digit.
pub open spec fn all_digits(s: Seq<char>) -> bool {
    forall|i: int| 0 <= i < s.len() ==> is_digit(#[trigger] s[i])
}

proof fn lemma_digits_value_monotone(s: Seq<char>, i: int)
    requires
        0 <= i <= s.len(),
        forall|k: int| 0 <= k < s.len() ==> is_digit(#[trigger] s[k]),
    ensures
        digits_value(s.take(i)) <= digits_value(s),
    decreases s.len() - i,
{
    if i < s.len() {
        let d = s.drop_last();
        assert(d.take(i) =~= s.take(i));
        assert forall|k: int| 0 <= k < d.len() implies is_digit(#[trigger] d[k]) by {
            assert(d[k] == s[k]);
        }
        lemma_digits_value_monotone(d, i);
        assert(s.take(s.len() as int) =~= s);
    } else {
        assert(s.take(i) =~= s);
    }
}

/// Reads a process id printed by a tool: the output without surrounding
/// white space, as `u32::from_str` reads it.
pub fn parse_pid(stdout: &str) -> (res: Option<u32>)
    ensures
        res == spec_parse_u32(trim(stdout@)),
{
    let t = trim_str(stdout);
    let v = crate::text::chars_of(t.as_str());
    let ghost s = v@;
    assert(s == trim(stdout@));
    let start: usize = if v.len() > 0 && v[0] == '+' {
        1
    } else {
        0
    };
    let ghost d = s.skip(start as int);
    assert(d =~= if s.len() > 0 && s[0] == '+' { s.drop_first() } else { s });
    if start >= v.len() {
        return None;
    }
    let mut value: u64 = 0;
    let mut i: usize = start;
    while i < v.len()
        invariant
            start <= i <= v@.len(),
            s == v@,
            d == s.skip(start as int),
            d == unsigned_part(s),
            s == trim(stdout@),
            forall|k: int| 0 <= k < i - start ==> is_digit(#[trigger] d[k]),
            value == digits_value(d.take(i - start)),
            value <= u32::MAX,
        decreases v@.len() - i,
    {
        let c = v[i];
        assert(d[i - start] == c);
        if !('0' <= c && c <= '9') {
            assert(!is_digit(d[i - start]));
            assert(!all_digits(d));
            assert(spec_parse_u32(s).is_none());
            return None;
        }
        let ghost t1 = d.take(i - start + 1);
        assert(t1.drop_last() =~= d.take(i - start));
        assert(t1.last() == c);
        let digit = ((c as u32) - ('0' as u32)) as u64;
        let next = value * 10 + digit;
        if next > 0xffff_ffff {
            proof {
                assert forall|k: int| 0 <= k < i - start + 1 implies is_digit(#[trigger] d[k]) by {}
                assert(digits_value(t1) == next);
                if all_digits(d) {
                    lemma_digits_value_monotone(d, i - start + 1);
                    assert(digits_value(d) > u32::MAX);
                }
                assert(spec_parse_u32(s).is_none());
            }
            return None;
        }
        value = next;
        i = i + 1;
    }
    assert(d.take(i - start) =~= d);
    Some(value as u32)
}

/// The process whose window is active: the one `xdotool` names, else the
/// focused one of the Sway tree.
pub fn active_window_pid(xdotool: Option<u32>, sway: Option<u32>) -> (res: Option<u32>)
    ensures
        res == if xdotool.is_some() { xdotool } else { sway },
{
    match xdotool {
        Some(p) => Some(p),
        None => sway,
    }
}

/// The name of a process read from `/proc/<pid>/comm`, without surrounding
/// white space.
pub fn process_name(comm: &str) -> (res: String)
    ensures
        res@ == trim(comm@),
{
    trim_str(comm)
}

// ---------------------------------------------------------------------------
// Discovering browsers from `.desktop` files
// ---------------------------------------------------------------------------

/// The kind of the browser a `.desktop` entry describes, from its name.
pub fn classify_desktop_entry(entry: &DesktopEntry) -> (res: String)
    ensures
        res@ == spec_classify(lower_case(entry.name@)),
{
    owned(classify(entry.name.as_str()))
}

/// The browser a `.desktop` file offers, as (id, name, kind, executable):
/// present when the file parses, handles `http`/`https`, is shown, and names
/// an executable.
pub open spec fn desktop_offer(contents: Seq<char>) -> Option<(Seq<char>, Seq<char>, Seq<char>, Seq<char>)> {
    match spec_parse(contents) {
        Some(e) => if spec_is_browser(e.mime_types) && !e.no_display {
            match first_word(e.exec_line) {
                Some(x) => Some((spec_slug(e.name), e.name, spec_classify(lower_case(e.name)), x)),
                None => None,
            }
        } else {
            None
        },
        None => None,
    }
}

/// The browsers the `.desktop` files `files` offer, in order, keeping the
/// first offer of each id.
pub open spec fn desktop_offers(files: Seq<Seq<char>>) -> Seq<(Seq<char>, Seq<char>, Seq<char>, Seq<char>)>
    decreases files.len(),
{
    if files.len() == 0 {
        Seq::empty()
    } else {
        let r = desktop_offers(files.drop_last());
        match desktop_offer(files.last()) {
            Some(o) => if exists|j: int| 0 <= j < r.len() && (#[trigger] r[j]).0 == o.0 {
                r
            } else {
                r.push(o)
            },
            None => r,
        }
    }
}

/// The (id, name, kind, executable) of a browser target.
pub open spec fn target_offer(b: BrowserTarget) -> (Seq<char>, Seq<char>, Seq<char>, Seq<char>) {
    (b.id@, b.name@, b.kind@, b.executable@)
}

/// A discovered target: no arguments, profile or icon, and shown.
pub open spec fn is_plain_target(b: BrowserTarget) -> bool {
    &&& b.args@.len() == 0
    &&& b.profile_dir.is_none()
    &&& b.profile_name.is_none()
    &&& b.icon.is_none()
    &&& !b.hidden
}

/// The browsers offered by the `.desktop` files with contents `files`,
/// read in the order of the application directories.
pub fn targets_from_desktop_files(files: &Vec<String>) -> (res: Vec<BrowserTarget>)
    ensures
        res@.map_values(|b: BrowserTarget| target_offer(b)) == desktop_offers(
            files@.map_values(|f: String| f@),
        ),
        forall|i: int| 0 <= i < res@.len() ==> is_plain_target(#[trigger] res@[i]),
{
    let ghost fs = files@.map_values(|f: String| f@);
    let mut res: Vec<BrowserTarget> = Vec::new();
    let mut i: usize = 0;
    while i < files.len()
        invariant
            i <= files@.len(),
            fs == files@.map_values(|f: String| f@),
            res@.map_values(|b: BrowserTarget| target_offer(b)) == desktop_offers(fs.take(i as int)),
            forall|k: int| 0 <= k < res@.len() ==> is_plain_target(#[trigger] res@[k]),
        decreases files@.len() - i,
    {
        let ghost before = res@;
        let ghost r = desktop_offers(fs.take(i as int));
        assert(fs.take(i + 1).drop_last() =~= fs.take(i as int));
        assert(fs.take(i + 1).last() == files@[i as int]@);
        if let Some(entry) = parse(files[i].as_str()) {
            if entry.is_browser() && !entry.no_display {
                if let Some(executable) = entry.executable() {
                    let id = slug(entry.name.as_str());
                    let mut seen = false;
                    let mut j: usize = 0;
                    while j < res.len()
                        invariant
                            j <= res@.len(),
                            res@ == before,
                            !seen ==> forall|k: int| 0 <= k < j ==> (#[trigger] res@[k]).id@ != id@,
                            seen ==> exists|k: int| 0 <= k < res@.len() && (#[trigger] res@[k]).id@ == id@,
                        decreases res@.len() - j,
                    {
                        if eq_str(res[j].id.as_str(), id.as_str()) {
                            seen = true;
                        }
                        j = j + 1;
                    }
                    proof {
                        let m = before.map_values(|b: BrowserTarget| target_offer(b));
                        assert forall|k: int| 0 <= k < m.len() implies (#[trigger] m[k]).0 == before[k].id@ by {}
                        if seen {
                            let k = choose|k: int| 0 <= k < res@.len() && (#[trigger] res@[k]).id@ == id@;
                            assert(m[k].0 == id@);
                        } else {
                            assert forall|k: int| 0 <= k < r.len() implies (#[trigger] r[k]).0 != id@ by {
                                assert(r[k] == m[k]);
                            }
                        }
                    }
                    if !seen {
                        let kind = classify_desktop_entry(&entry);
                        res.push(
                            BrowserTarget {
                                id,
                                name: entry.name,
                                kind,
                                executable,
                                args: Vec::new(),
                                profile_dir: None,
                                profile_name: None,
                                icon: None,
                                hidden: false,
                            },
                        );
                        assert(res@.map_values(|b: BrowserTarget| target_offer(b)) =~= before.map_values(
                            |b: BrowserTarget| target_offer(b),
                        ).push(target_offer(res@.last())));
                    }
                }
            }
        }
        i = i + 1;
    }
    assert(fs.take(files@.len() as int) =~= fs);
    res
}

} // verus!
