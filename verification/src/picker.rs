//! Decisions of the browser picker: the labels it shows for a URL and a
//! target, its keyboard navigation and timeout, and the "always open this
//! domain here" rule it can add to the configuration.
use vstd::prelude::*;
use vstd::string::StringSliceAdditionalSpecFns;

use crate::engine::{
    eligible, is_winner, lemma_spec_winner_is, spec_normalized, spec_route, url_host, winning_rule,
};
use crate::filters::{apply_filters, matches_any_glob};
use crate::glob::{glob, lemma_glob_refl};
use crate::model::{
    Action, BrowserTarget, Config, DecisionView, DefaultAction, MatchCondition, Rule,
    RoutingContext,
};
use crate::text::{
    chars_of, concat, eq_str, find, find_vec, first_index, first_index_vec, is_whitespace, is_ws, lemma_first_index, occurs_at, owned,
    string_of, string_of_range, sub_vec, trim, trim_bounds, trim_str,
};
use crate::urls::{parse_url, spec_to_uppercase, to_uppercase};

verus! {

// ---------------------------------------------------------------------------
// The host of a URL, read as text
// ---------------------------------------------------------------------------

/// The text after the first `://` of `url`, up to the next `://` if there is
/// one; the whole of `url` when it has no `://`.
pub open spec fn after_scheme(url: Seq<char>) -> Seq<char> {
    match find(url, "://"@) {
        Some(i) => {
            let rest = url.skip(i + 3);
            match find(rest, "://"@) {
                Some(j) => rest.take(j),
                None => rest,
            }
        },
        None => url,
    }
}

/// A character that ends the authority part of a URL.
pub open spec fn is_path_start(c: char) -> bool {
    c == '/' || c == '?' || c == '#'
}

/// Length of the leading run of `s` that holds no `/`, `?` or `#`.
pub open spec fn authority_len(s: Seq<char>) -> int
    decreases s.len(),
{
    if s.len() == 0 || is_path_start(s[0]) {
        0
    } else {
        1 + authority_len(s.drop_first())
    }
}

/// The part of `s` after its last `@` (all of `s` when it has none).
pub open spec fn after_last_at(s: Seq<char>) -> Seq<char>
    decreases s.len(),
{
    if s.len() == 0 {
        s
    } else if s.last() == '@' {
        Seq::<char>::empty()
    } else {
        after_last_at(s.drop_last()).push(s.last())
    }
}

/// `h` without its port: an IPv6 literal (`[...]`) is kept up to its closing
/// bracket, any other host up to its first `:`.
pub open spec fn strip_port(h: Seq<char>) -> Seq<char> {
    if h.len() > 0 && h[0] == '[' {
        let i = first_index(h, ']');
        if i < 0 {
            h
        } else {
            h.take(i + 1)
        }
    } else {
        let i = first_index(h, ':');
        if i < 0 {
            h
        } else {
            h.take(i)
        }
    }
}

/// The host shown for `url`: the authority after the scheme separator,
/// without user information and port; none when that is empty.
pub open spec fn spec_extract_host(url: Seq<char>) -> Option<Seq<char>> {
    let a = after_scheme(url);
    let h = strip_port(after_last_at(a.take(authority_len(a))));
    if h.len() == 0 {
        None
    } else {
        Some(h)
    }
}

proof fn lemma_authority_len_is(s: Seq<char>, i: int)
    requires
        0 <= i <= s.len(),
        forall|j: int| 0 <= j < i ==> !is_path_start(#[trigger] s[j]),
        i == s.len() || is_path_start(s[i]),
    ensures
        authority_len(s) == i,
    decreases i,
{
    if i > 0 {
        assert forall|j: int| 0 <= j < i - 1 implies !is_path_start(#[trigger] s.drop_first()[j]) by {
            assert(s.drop_first()[j] == s[j + 1]);
        }
        if i < s.len() {
            assert(s.drop_first()[i - 1] == s[i]);
        }
        lemma_authority_len_is(s.drop_first(), i - 1);
    }
}

/// Length of the leading run of `v` that holds no `/`, `?` or `#`.
fn authority_end(v: &Vec<char>) -> (res: usize)
    ensures
        res == authority_len(v@),
        res <= v@.len(),
{
    let mut i: usize = 0;
    while i < v.len()
        invariant
            i <= v@.len(),
            forall|j: int| 0 <= j < i ==> !is_path_start(#[trigger] v@[j]),
        decreases v@.len() - i,
    {
        let c = v[i];
        if c == '/' || c == '?' || c == '#' {
            proof {
                lemma_authority_len_is(v@, i as int);
            }
            return i;
        }
        i = i + 1;
    }
    proof {
        lemma_authority_len_is(v@, i as int);
    }
    i
}

/// Start of the part of `v` after its last `@`.
fn after_last_at_start(v: &Vec<char>) -> (res: usize)
    ensures
        res <= v@.len(),
        v@.subrange(res as int, v@.len() as int) == after_last_at(v@),
{
    let mut start: usize = 0;
    let mut i: usize = 0;
    while i < v.len()
        invariant
            start <= i <= v@.len(),
            v@.subrange(start as int, i as int) == after_last_at(v@.take(i as int)),
        decreases v@.len() - i,
    {
        let ghost t = v@.take(i + 1);
        assert(t.drop_last() =~= v@.take(i as int));
        assert(t.last() == v@[i as int]);
        if v[i] == '@' {
            start = i + 1;
            assert(v@.subrange(start as int, i + 1) =~= Seq::<char>::empty());
        } else {
            assert(v@.subrange(start as int, i + 1) =~= v@.subrange(start as int, i as int).push(
                v@[i as int],
            ));
        }
        i = i + 1;
    }
    assert(v@.take(v@.len() as int) =~= v@);
    start
}

/// The host part of `url` (without scheme, path, query, fragment or user
/// information), or `None` when that part is empty.
pub fn extract_host(url: &str) -> (res: Option<String>)
    ensures
        match res {
            Some(h) => spec_extract_host(url@) == Some(h@),
            None => spec_extract_host(url@).is_none(),
        },
{
    let u = chars_of(url);
    let sep = chars_of("://");
    proof {
        reveal_strlit("://");
    }
    assert(sep@.len() == 3);
    let a = match find_vec(&u, &sep) {
        Some(i) => {
            assert(occurs_at(u@, sep@, i as int));
            let n = u.len();
            assert(i + 3 <= n);
            let rest = sub_vec(&u, i + 3, n);
            assert(rest@ =~= u@.skip(i + 3));
            match find_vec(&rest, &sep) {
                Some(j) => {
                    let r = sub_vec(&rest, 0, j);
                    assert(r@ =~= rest@.take(j as int));
                    r
                },
                None => rest,
            }
        },
        None => u,
    };
    assert(a@ == after_scheme(url@));
    let e = authority_end(&a);
    let head = sub_vec(&a, 0, e);
    assert(head@ =~= a@.take(e as int));
    let start = after_last_at_start(&head);
    let h = sub_vec(&head, start, head.len());
    let end = port_start(&h);
    if end == 0 {
        None
    } else {
        Some(string_of_range(&h, 0, end))
    }
}

/// Length of `h` without its port (see [`strip_port`]).
fn port_start(h: &Vec<char>) -> (res: usize)
    ensures
        res <= h@.len(),
        h@.take(res as int) == strip_port(h@),
{
    proof {
        lemma_first_index(h@, ']');
        lemma_first_index(h@, ':');
    }
    if h.len() > 0 && h[0] == '[' {
        match first_index_vec(h, ']') {
            Some(i) => i + 1,
            None => {
                assert(h@.take(h@.len() as int) =~= h@);
                h.len()
            },
        }
    } else {
        match first_index_vec(h, ':') {
            Some(i) => i,
            None => {
                assert(h@.take(h@.len() as int) =~= h@);
                h.len()
            },
        }
    }
}

// ---------------------------------------------------------------------------
// Labels
// ---------------------------------------------------------------------------

/// The line shown under a target's name: its profile when it has one, else
/// a description of its kind.
pub open spec fn spec_target_subtitle(t: BrowserTarget) -> Seq<char> {
    match t.profile_dir {
        Some(p) => "Profile: "@ + p@,
        None => match t.profile_name {
            Some(p) => "Profile: "@ + p@,
            None => if t.kind@ == "chromium"@ {
                "Chromium browser"@
            } else if t.kind@ == "firefox"@ {
                "Firefox browser"@
            } else {
                t.kind@ + " target"@
            },
        },
    }
}

/// The line shown under a target's name in the picker.
pub fn target_subtitle(target: &BrowserTarget) -> (res: String)
    ensures
        res@ == spec_target_subtitle(*target),
{
    if let Some(profile) = &target.profile_dir {
        concat("Profile: ", profile.as_str())
    } else if let Some(profile) = &target.profile_name {
        concat("Profile: ", profile.as_str())
    } else if eq_str(target.kind.as_str(), "chromium") {
        owned("Chromium browser")
    } else if eq_str(target.kind.as_str(), "firefox") {
        owned("Firefox browser")
    } else {
        concat(target.kind.as_str(), " target")
    }
}

/// A character that separates the words of a name for its initials.
pub open spec fn is_initial_sep(c: char) -> bool {
    is_ws(c) || c == '(' || c == ')' || c == '-' || c == '_'
}

/// The first character of each word of `s`, in order.
pub open spec fn word_starts(s: Seq<char>) -> Seq<char>
    decreases s.len(),
{
    if s.len() == 0 {
        s
    } else {
        let r = word_starts(s.drop_last());
        if !is_initial_sep(s.last()) && (s.len() == 1 || is_initial_sep(s[s.len() - 2])) {
            r.push(s.last())
        } else {
            r
        }
    }
}

/// At most the first two characters of `s`.
pub open spec fn first_two(s: Seq<char>) -> Seq<char> {
    if s.len() > 2 {
        s.take(2)
    } else {
        s
    }
}

/// The initials shown for a target without an icon: the upper-cased first
/// characters of its first two words, or `B` for a name without words.
pub open spec fn spec_initials(name: Seq<char>) -> Seq<char> {
    let firsts = first_two(word_starts(name));
    spec_to_uppercase(if firsts.len() == 0 { seq!['B'] } else { firsts })
}

/// Initials of a target's name, for the tile of a target without an icon.
pub fn initials(name: &str) -> (res: String)
    ensures
        res@ == spec_initials(name@),
{
    let v = chars_of(name);
    let mut picked: Vec<char> = Vec::new();
    let mut prev_sep = true;
    let mut i: usize = 0;
    while i < v.len()
        invariant
            i <= v@.len(),
            picked@ == first_two(word_starts(v@.take(i as int))),
            prev_sep == (i == 0 || is_initial_sep(v@[i - 1])),
        decreases v@.len() - i,
    {
        let c = v[i];
        let sep = is_whitespace(c) || c == '(' || c == ')' || c == '-' || c == '_';
        let ghost t = v@.take(i + 1);
        let ghost r = word_starts(v@.take(i as int));
        assert(t.drop_last() =~= v@.take(i as int));
        assert(t.last() == c);
        if i > 0 {
            assert(t[t.len() - 2] == v@[i - 1]);
        }
        if !sep && prev_sep {
            assert(word_starts(t) == r.push(c));
            if picked.len() < 2 {
                assert(picked@ == r);
                picked.push(c);
            } else {
                assert(r.push(c).take(2) =~= r.take(2));
            }
        } else {
            assert(word_starts(t) == r);
        }
        prev_sep = sep;
        i = i + 1;
    }
    assert(v@.take(v@.len() as int) =~= v@);
    let base = if picked.len() == 0 {
        let mut b = String::new();
        crate::text::push_char(&mut b, 'B');
        assert(b@ =~= seq!['B']);
        b
    } else {
        string_of(&picked)
    };
    to_uppercase(base.as_str())
}

/// The picker's title: `fallback` when no URL is being opened, else the
/// prompt to select a browser.
pub fn header_title(url: &str, fallback: &str) -> (res: String)
    ensures
        res@ == if trim(url@).len() == 0 { fallback@ } else { "Select a Browser"@ },
{
    let t = trim_str(url);
    if t.as_str().is_empty() {
        owned(fallback)
    } else {
        owned("Select a Browser")
    }
}

/// `value` cut to at most `max` characters: one that is longer keeps its
/// first `max - 1` characters (none when `max` is 0) followed by `...`.
pub open spec fn spec_short_label(value: Seq<char>, max: int) -> Seq<char> {
    if value.len() <= max {
        value
    } else {
        value.take(if max > 0 { max - 1 } else { 0 }) + "..."@
    }
}

/// `value` shortened to fit a label of `max` characters.
pub fn short_label(value: &str, max: usize) -> (res: String)
    ensures
        res@ == spec_short_label(value@, max as int),
{
    let v = chars_of(value);
    if v.len() <= max {
        return owned(value);
    }
    let keep = if max > 0 {
        max - 1
    } else {
        0
    };
    let mut s = string_of_range(&v, 0, keep);
    assert(v@.subrange(0, keep as int) =~= v@.take(keep as int));
    s.append("...");
    s
}

/// The URL line at the bottom of the picker: a placeholder when no URL is
/// being opened, else the URL cut to 22 characters.
pub fn bottom_label(url: &str) -> (res: String)
    ensures
        res@ == if trim(url@).len() == 0 { "No Url Opened"@ } else { spec_short_label(url@, 22) },
{
    let t = trim_str(url);
    if t.as_str().is_empty() {
        owned("No Url Opened")
    } else {
        short_label(url, 22)
    }
}

// ---------------------------------------------------------------------------
// Tile colour
// ---------------------------------------------------------------------------

/// The hash of a target id that picks its tile colour: over the id's UTF-8
/// bytes, `h = h * 33 + byte`, wrapping at 32 bits, from 0.
pub open spec fn color_hash(bytes: Seq<u8>) -> u32
    decreases bytes.len(),
{
    if bytes.len() == 0 {
        0
    } else {
        color_hash(bytes.drop_last()).wrapping_mul(33).wrapping_add(bytes.last() as u32)
    }
}

/// The tile colours, as RGB triples.
pub open spec fn tile_palette(i: int) -> (u8, u8, u8) {
    if i == 0 {
        (46, 144, 250)
    } else if i == 1 {
        (22, 163, 74)
    } else if i == 2 {
        (232, 93, 52)
    } else if i == 3 {
        (217, 119, 6)
    } else if i == 4 {
        (124, 58, 237)
    } else {
        (8, 145, 178)
    }
}

/// The RGB colour of the tile of the target with id `id`.
pub fn target_color(id: &str) -> (res: (u8, u8, u8))
    ensures
        res == tile_palette((color_hash(id.spec_bytes()) % 6) as int),
{
    let bytes = id.as_bytes();
    let mut hash: u32 = 0;
    let mut i: usize = 0;
    while i < bytes.len()
        invariant
            i <= bytes@.len(),
            hash == color_hash(bytes@.take(i as int)),
        decreases bytes@.len() - i,
    {
        let ghost t = bytes@.take(i + 1);
        assert(t.drop_last() =~= bytes@.take(i as int));
        hash = hash.wrapping_mul(33).wrapping_add(bytes[i] as u32);
        i = i + 1;
    }
    assert(bytes@.take(bytes@.len() as int) =~= bytes@);
    let k = hash % 6;
    if k == 0 {
        (46, 144, 250)
    } else if k == 1 {
        (22, 163, 74)
    } else if k == 2 {
        (232, 93, 52)
    } else if k == 3 {
        (217, 119, 6)
    } else if k == 4 {
        (124, 58, 237)
    } else {
        (8, 145, 178)
    }
}

// ---------------------------------------------------------------------------
// Keyboard navigation
// ---------------------------------------------------------------------------

/// A key the picker reacts to.
#[derive(Debug, Clone, Copy, PartialEq, Eq)]
pub enum PickerKey {
    Escape,
    ArrowRight,
    ArrowLeft,
    ArrowDown,
    ArrowUp,
    Enter,
    /// One of the number keys `1` to `9`.
    Number(u8),
}

/// What a key press does.
#[derive(Debug, Clone, Copy, PartialEq, Eq)]
pub enum KeyOutcome {
    /// Close the picker without opening anything.
    Close,
    /// Move the selection to this tile.
    Select(usize),
    /// Open the URL with the target of this tile.
    Choose { index: usize, private: bool },
    /// Nothing happens.
    Ignore,
}

/// The effect of pressing `key` on a grid of `count` tiles laid out in
/// `columns` columns, with tile `selected` selected; a choice opens in
/// private mode when `shift` is held. Only the number keys 1 to 9 choose a
/// tile; any other number is ignored.
pub open spec fn spec_handle_key(
    key: PickerKey,
    selected: int,
    columns: int,
    count: int,
    shift: bool,
) -> KeyOutcome {
    let last = if count > 0 { count - 1 } else { 0 };
    match key {
        PickerKey::Escape => KeyOutcome::Close,
        PickerKey::ArrowRight => KeyOutcome::Select(
            (if selected + 1 < last { selected + 1 } else { last }) as usize,
        ),
        PickerKey::ArrowLeft => KeyOutcome::Select(
            (if selected >= 1 { selected - 1 } else { 0 }) as usize,
        ),
        PickerKey::ArrowDown => KeyOutcome::Select(
            (if selected + columns < last { selected + columns } else { last }) as usize,
        ),
        PickerKey::ArrowUp => KeyOutcome::Select(
            (if selected >= columns { selected - columns } else { 0 }) as usize,
        ),
        PickerKey::Enter => if count > 0 {
            KeyOutcome::Choose { index: selected as usize, private: shift }
        } else {
            KeyOutcome::Ignore
        },
        PickerKey::Number(n) => if 1 <= n <= 9 && n - 1 < count {
            KeyOutcome::Choose { index: (n - 1) as usize, private: shift }
        } else {
            KeyOutcome::Ignore
        },
    }
}

/// Left moves the selection exactly one tile back (staying on the first
/// tile), and it undoes Right: from any tile but the last, Right then Left
/// comes back to the same tile, and from any tile but the first, Left then
/// Right does.
pub proof fn law_left_steps_back_one_tile(selected: int, columns: int, count: int, shift: bool)
    requires
        0 <= selected < count,
    ensures
        spec_handle_key(PickerKey::ArrowLeft, selected, columns, count, shift) == KeyOutcome::Select(
            (if selected >= 1 { selected - 1 } else { 0 }) as usize,
        ),
        selected + 1 < count ==> spec_handle_key(PickerKey::ArrowRight, selected, columns, count, shift)
            == KeyOutcome::Select((selected + 1) as usize) && spec_handle_key(
            PickerKey::ArrowLeft,
            selected + 1,
            columns,
            count,
            shift,
        ) == KeyOutcome::Select(selected as usize),
        selected >= 1 ==> spec_handle_key(PickerKey::ArrowRight, selected - 1, columns, count, shift)
            == KeyOutcome::Select(selected as usize),
{
}

/// Right moves one tile on and Down one row on, each stopping at the last
/// tile; Up moves one row back, stopping at the first; Up undoes Down when a
/// full row lies below. Enter chooses the selected tile, and number key `n`
/// (1 to 9) chooses tile `n - 1` when there is one; a choice is private
/// exactly when Shift is held; Escape closes.
pub proof fn law_keys_move_and_choose(selected: int, columns: int, count: int, shift: bool, n: u8)
    requires
        0 <= selected < count,
        columns >= 1,
    ensures
        spec_handle_key(PickerKey::ArrowRight, selected, columns, count, shift) == KeyOutcome::Select(
            (if selected + 1 < count { selected + 1 } else { count - 1 }) as usize,
        ),
        spec_handle_key(PickerKey::ArrowDown, selected, columns, count, shift) == KeyOutcome::Select(
            (if selected + columns < count { selected + columns } else { count - 1 }) as usize,
        ),
        spec_handle_key(PickerKey::ArrowUp, selected, columns, count, shift) == KeyOutcome::Select(
            (if selected >= columns { selected - columns } else { 0 }) as usize,
        ),
        selected + columns < count ==> spec_handle_key(
            PickerKey::ArrowUp,
            selected + columns,
            columns,
            count,
            shift,
        ) == KeyOutcome::Select(selected as usize),
        spec_handle_key(PickerKey::Enter, selected, columns, count, shift) == (KeyOutcome::Choose {
            index: selected as usize,
            private: shift,
        }),
        1 <= n <= 9 && n - 1 < count ==> spec_handle_key(PickerKey::Number(n), selected, columns, count, shift)
            == (KeyOutcome::Choose { index: (n - 1) as usize, private: shift }),
        !(1 <= n <= 9 && n - 1 < count) ==> spec_handle_key(PickerKey::Number(n), selected, columns, count, shift)
            == KeyOutcome::Ignore,
        spec_handle_key(PickerKey::Escape, selected, columns, count, shift) == KeyOutcome::Close,
{
}

/// What pressing `key` does in the picker. The selection never leaves the
/// grid: when `selected` is a tile, every tile moved to or chosen is one.
pub fn handle_key(key: PickerKey, selected: usize, columns: usize, count: usize, shift: bool) -> (res:
    KeyOutcome)
    ensures
        res == spec_handle_key(key, selected as int, columns as int, count as int, shift),
        selected < count ==> match res {
            KeyOutcome::Select(i) => i < count,
            KeyOutcome::Choose { index, .. } => index < count,
            _ => true,
        },
{
    let last = if count > 0 {
        count - 1
    } else {
        0
    };
    match key {
        PickerKey::Escape => KeyOutcome::Close,
        PickerKey::ArrowRight => KeyOutcome::Select(
            if selected < last {
                selected + 1
            } else {
                last
            },
        ),
        PickerKey::ArrowLeft => KeyOutcome::Select(
            if selected >= 1 {
                selected - 1
            } else {
                0
            },
        ),
        PickerKey::ArrowDown => KeyOutcome::Select(
            if columns < last && selected < last - columns {
                selected + columns
            } else {
                last
            },
        ),
        PickerKey::ArrowUp => KeyOutcome::Select(
            if selected >= columns {
                selected - columns
            } else {
                0
            },
        ),
        PickerKey::Enter => if count > 0 {
            KeyOutcome::Choose { index: selected, private: shift }
        } else {
            KeyOutcome::Ignore
        },
        PickerKey::Number(n) => {
            if 1 <= n && n <= 9 && ((n - 1) as usize) < count {
                KeyOutcome::Choose { index: (n - 1) as usize, private: shift }
            } else {
                KeyOutcome::Ignore
            }
        },
    }
}

// ---------------------------------------------------------------------------
// Timeout
// ---------------------------------------------------------------------------

/// Target `i` is the first one with id `id`.
pub open spec fn first_target_with(targets: Seq<BrowserTarget>, id: Seq<char>, i: int) -> bool {
    &&& 0 <= i < targets.len()
    &&& targets[i].id@ == id
    &&& forall|j: int| 0 <= j < i ==> (#[trigger] targets[j]).id@ != id
}

/// Position of the first target with id `id`, if any.
pub fn position_of_id(targets: &Vec<BrowserTarget>, id: &str) -> (res: Option<usize>)
    ensures
        match res {
            Some(i) => first_target_with(targets@, id@, i as int),
            None => forall|j: int| 0 <= j < targets@.len() ==> (#[trigger] targets@[j]).id@ != id@,
        },
{
    let mut i: usize = 0;
    while i < targets.len()
        invariant
            i <= targets@.len(),
            forall|j: int| 0 <= j < i ==> (#[trigger] targets@[j]).id@ != id@,
        decreases targets@.len() - i,
    {
        if eq_str(targets[i].id.as_str(), id) {
            return Some(i);
        }
        i = i + 1;
    }
    None
}

/// What the picker does about its timeout on a frame.
#[derive(Debug, Clone, Copy, PartialEq, Eq)]
pub enum TimeoutStep {
    /// The picker has no timeout.
    Disabled,
    /// The timeout has not run out yet.
    Wait,
    /// The timeout ran out: open the URL with this target.
    Choose(usize),
    /// The timeout ran out and no target is the default: close the picker.
    Close,
}

/// The timeout step after `elapsed_ms` milliseconds, for a timeout of
/// `timeout_ms` (0 for none): once it runs out, the default action's target
/// is chosen when it is one of `targets`, else the picker closes.
pub fn timeout_step(
    timeout_ms: u64,
    elapsed_ms: u128,
    default_action: &DefaultAction,
    targets: &Vec<BrowserTarget>,
) -> (res: TimeoutStep)
    ensures
        timeout_ms == 0 ==> res == TimeoutStep::Disabled,
        timeout_ms > 0 && elapsed_ms < timeout_ms ==> res == TimeoutStep::Wait,
        timeout_ms > 0 && elapsed_ms >= timeout_ms ==> match default_action {
            DefaultAction::OpenWith(id) => match res {
                TimeoutStep::Choose(i) => first_target_with(targets@, id@, i as int),
                TimeoutStep::Close => forall|j: int|
                    0 <= j < targets@.len() ==> (#[trigger] targets@[j]).id@ != id@,
                _ => false,
            },
            DefaultAction::Ask => res == TimeoutStep::Close,
        },
{
    if timeout_ms == 0 {
        return TimeoutStep::Disabled;
    }
    if elapsed_ms < timeout_ms as u128 {
        return TimeoutStep::Wait;
    }
    if let DefaultAction::OpenWith(id) = default_action {
        if let Some(index) = position_of_id(targets, id.as_str()) {
            return TimeoutStep::Choose(index);
        }
    }
    TimeoutStep::Close
}

// ---------------------------------------------------------------------------
// "Always open this domain here"
// ---------------------------------------------------------------------------

/// The highest priority among `rules`, or 0 when there are none.
pub open spec fn max_priority(rules: Seq<Rule>) -> int
    decreases rules.len(),
{
    if rules.len() == 0 {
        0
    } else if rules.len() == 1 {
        rules[0].priority as int
    } else {
        let m = max_priority(rules.drop_last());
        let p = rules.last().priority as int;
        if p > m {
            p
        } else {
            m
        }
    }
}

/// Every rule's priority is at most [`max_priority`], which is that of one
/// of the rules when there are any.
pub proof fn lemma_max_priority(rules: Seq<Rule>)
    ensures
        forall|j: int| 0 <= j < rules.len() ==> (#[trigger] rules[j]).priority <= max_priority(rules),
        rules.len() > 0 ==> exists|j: int|
            0 <= j < rules.len() && (#[trigger] rules[j]).priority == max_priority(rules),
        i64::MIN <= max_priority(rules) <= i64::MAX,
    decreases rules.len(),
{
    if rules.len() > 1 {
        let r = rules.drop_last();
        lemma_max_priority(r);
        assert forall|j: int| 0 <= j < rules.len() implies (#[trigger] rules[j]).priority
            <= max_priority(rules) by {
            if j < rules.len() - 1 {
                assert(rules[j] == r[j]);
            }
        }
        if rules.last().priority <= max_priority(r) {
            let w = choose|j: int| 0 <= j < r.len() && (#[trigger] r[j]).priority == max_priority(r);
            assert(rules[w] == r[w]);
        } else {
            assert(rules[rules.len() - 1].priority == max_priority(rules));
        }
    } else if rules.len() == 1 {
        assert(rules[0].priority == max_priority(rules));
    }
}

/// The priority of a rule added above all of `rules`: ten more than the
/// highest one (ten when there are none).
pub fn next_rule_priority(rules: &Vec<Rule>) -> (res: i64)
    requires
        max_priority(rules@) + 10 <= i64::MAX,
    ensures
        res == max_priority(rules@) + 10,
{
    let mut m: i64 = 0;
    let mut i: usize = 0;
    while i < rules.len()
        invariant
            i <= rules@.len(),
            m == max_priority(rules@.take(i as int)),
        decreases rules@.len() - i,
    {
        let ghost t = rules@.take(i + 1);
        assert(t.drop_last() =~= rules@.take(i as int));
        let p = rules[i].priority;
        if i == 0 || p > m {
            m = p;
        }
        i = i + 1;
    }
    assert(rules@.take(rules@.len() as int) =~= rules@);
    m + 10
}

/// `r` is the rule that always opens `host` with `target`, at `priority`:
/// enabled, matching exactly that host, opening the target (not privately).
pub open spec fn is_always_rule(r: Rule, host: Seq<char>, target: BrowserTarget, priority: int) -> bool {
    &&& r.id@ == "always-"@ + host
    &&& r.name@ == "Always open "@ + host + " in "@ + target.name@
    &&& r.enabled
    &&& r.priority == priority
    &&& r.match_.url_pattern@.len() == 0
    &&& r.match_.host@.len() == 1
    &&& r.match_.host@[0]@ == host
    &&& r.match_.path@.len() == 0
    &&& r.match_.query_param@.len() == 0
    &&& r.match_.source_app@.len() == 0
    &&& r.match_.modifier_keys@.len() == 0
    &&& r.action.open_with matches Some(t) && t@ == target.id@
    &&& r.action.open_with_all@.len() == 0
    &&& !r.action.private
    &&& !r.action.ask
    &&& !r.action.block
}

/// `new` is `old` with the always-open rule for `host` and `target` appended,
/// ten above the highest priority of `old`.
pub open spec fn added_always_rule(old: Config, new: Config, host: Seq<char>, target: BrowserTarget) -> bool {
    &&& new.config_version == old.config_version
    &&& new.general == old.general
    &&& new.browsers == old.browsers
    &&& new.filters == old.filters
    &&& new.rules@.len() == old.rules@.len() + 1
    &&& new.rules@.take(old.rules@.len() as int) == old.rules@
    &&& is_always_rule(new.rules@.last(), host, target, max_priority(old.rules@) + 10)
}

/// The result of asking the picker to always open the current URL's domain
/// with the selected target.
#[derive(Debug, Clone, PartialEq, Eq)]
pub enum AlwaysOpen {
    /// No target is selected.
    NoSelection,
    /// The URL has no host.
    NoDomain,
    /// The configuration has no file to be saved to.
    NoConfigPath,
    /// The rule for `host` was added; the configuration is to be saved.
    Added { host: String },
}

impl AlwaysOpen {
    /// The status line shown for this result (for [`AlwaysOpen::Added`], once
    /// the configuration has been saved).
    pub fn status_message(&self) -> (res: Option<String>)
        ensures
            match self {
                AlwaysOpen::NoSelection => res.is_none(),
                AlwaysOpen::NoDomain => res matches Some(m) && m@ == "Could not determine domain."@,
                AlwaysOpen::NoConfigPath => res matches Some(m) && m@
                    == "No config path available."@,
                AlwaysOpen::Added { host } => res matches Some(m) && m@ == "Always opening "@
                    + host@ + " here."@,
            },
    {
        match self {
            AlwaysOpen::NoSelection => None,
            AlwaysOpen::NoDomain => Some(owned("Could not determine domain.")),
            AlwaysOpen::NoConfigPath => Some(owned("No config path available.")),
            AlwaysOpen::Added { host } => {
                let mut m = concat("Always opening ", host.as_str());
                m.append(" here.");
                Some(m)
            },
        }
    }
}

/// The host the rules see for `url` under `cfg`: that of the filtered URL as
/// the URL parser reads it (empty when it has none).
pub open spec fn routing_host(url: Seq<char>, cfg: Config) -> Seq<char> {
    url_host(spec_normalized(url, cfg))
}

/// Adds to `cfg` the rule that always opens the domain of `url` with the
/// selected target, ten above every other rule's priority. The domain is the
/// host the rules see, that of the filtered URL, so the new rule applies to
/// `url` itself. Nothing changes when no target is selected, the URL has no
/// host, or there is no configuration file to save the rule to.
pub fn always_open_selected(
    cfg: &mut Config,
    targets: &Vec<BrowserTarget>,
    selected: usize,
    url: &str,
    has_config_path: bool,
) -> (res: AlwaysOpen)
    requires
        selected < targets@.len() && routing_host(url@, *old(cfg)).len() > 0 && has_config_path
            ==> max_priority(old(cfg).rules@) + 10 <= i64::MAX,
    ensures
        selected >= targets@.len() ==> res == AlwaysOpen::NoSelection && *final(cfg) == *old(cfg),
        selected < targets@.len() && routing_host(url@, *old(cfg)).len() == 0 ==> res
            == AlwaysOpen::NoDomain && *final(cfg) == *old(cfg),
        selected < targets@.len() && routing_host(url@, *old(cfg)).len() > 0 && !has_config_path
            ==> res == AlwaysOpen::NoConfigPath && *final(cfg) == *old(cfg),
        selected < targets@.len() && routing_host(url@, *old(cfg)).len() > 0 && has_config_path
            ==> (res matches AlwaysOpen::Added { host } && host@ == routing_host(url@, *old(cfg)))
            && added_always_rule(
            *old(cfg),
            *final(cfg),
            routing_host(url@, *old(cfg)),
            targets@[selected as int],
        ),
{
    if selected >= targets.len() {
        return AlwaysOpen::NoSelection;
    }
    let target = &targets[selected];
    let normalized = apply_filters(url, &cfg.filters);
    let host = match parse_url(normalized.as_str()) {
        Some(u) => match u.host {
            Some(h) => h,
            None => String::new(),
        },
        None => String::new(),
    };
    assert(host@ == routing_host(url@, *cfg));
    if chars_of(host.as_str()).len() == 0 {
        return AlwaysOpen::NoDomain;
    }
    if !has_config_path {
        return AlwaysOpen::NoConfigPath;
    }
    let priority = next_rule_priority(&cfg.rules);
    let mut name = concat("Always open ", host.as_str());
    name.append(" in ");
    name.append(target.name.as_str());
    let mut hosts: Vec<String> = Vec::new();
    hosts.push(host.clone());
    let rule = Rule {
        id: concat("always-", host.as_str()),
        name,
        enabled: true,
        priority,
        match_: MatchCondition {
            url_pattern: Vec::new(),
            host: hosts,
            path: Vec::new(),
            query_param: Vec::new(),
            source_app: Vec::new(),
            modifier_keys: Vec::new(),
        },
        action: Action {
            open_with: Some(target.id.clone()),
            open_with_all: Vec::new(),
            private: false,
            ask: false,
            block: false,
        },
    };
    let ghost old_rules = cfg.rules@;
    cfg.rules.push(rule);
    assert(cfg.rules@.take(old_rules.len() as int) =~= old_rules);
    AlwaysOpen::Added { host }
}

/// Once the always-open rule for `host` and `target` is added, every URL whose
/// filtered form has that host is opened with that target, whatever the
/// other rules say: the new rule is the one that wins.
pub proof fn law_always_open_wins(
    old_cfg: Config,
    new_cfg: Config,
    host: Seq<char>,
    target: BrowserTarget,
    url: Seq<char>,
    ctx: RoutingContext,
)
    requires
        added_always_rule(old_cfg, new_cfg, host, target),
        url_host(spec_normalized(url, new_cfg)) == host,
    ensures
        spec_route(url, ctx, new_cfg) == (DecisionView::OpenWith { target: target.id@, private: false }),
        winning_rule(new_cfg.rules@, spec_normalized(url, new_cfg), ctx) == Some(new_cfg.rules@.last()),
{
    let rules = new_cfg.rules@;
    let old_rules = old_cfg.rules@;
    let k = rules.len() - 1;
    let n = spec_normalized(url, new_cfg);
    lemma_glob_refl(host);
    lemma_max_priority(old_rules);
    let r = rules[k];
    assert(glob(r.match_.host@[0]@, url_host(n)));
    assert(matches_any_glob(r.match_.host@, url_host(n)));
    assert(eligible(rules, k, n, ctx));
    assert forall|j: int| #![trigger eligible(rules, j, n, ctx)] eligible(rules, j, n, ctx) implies rules[j].priority
        < rules[k].priority || (rules[j].priority == rules[k].priority && k <= j) by {
        if j < k {
            assert(rules[j] == rules.take(old_rules.len() as int)[j]);
            assert(rules[j] == old_rules[j]);
        }
    }
    assert(is_winner(rules, k, n, ctx));
    lemma_spec_winner_is(rules, k, n, ctx);
}

/// "Always open here" routes the URL it was asked for: once the rule for the
/// host the rules see in `url` is added, `url` (and every URL with that host)
/// opens with the chosen target, whatever the context, and the rule that
/// decides is the new one.
pub proof fn law_always_open_routes_its_url(
    old_cfg: Config,
    new_cfg: Config,
    target: BrowserTarget,
    url: Seq<char>,
    ctx: RoutingContext,
)
    requires
        routing_host(url, old_cfg).len() > 0,
        added_always_rule(old_cfg, new_cfg, routing_host(url, old_cfg), target),
    ensures
        spec_route(url, ctx, new_cfg) == (DecisionView::OpenWith { target: target.id@, private: false }),
        winning_rule(new_cfg.rules@, spec_normalized(url, new_cfg), ctx) == Some(new_cfg.rules@.last()),
{
    law_always_open_wins(old_cfg, new_cfg, routing_host(url, old_cfg), target, url, ctx);
}

// ---------------------------------------------------------------------------
// Targets and icons
// ---------------------------------------------------------------------------

/// The browsers of `browsers` that are not hidden, in order.
pub open spec fn shown(browsers: Seq<BrowserTarget>) -> Seq<BrowserTarget>
    decreases browsers.len(),
{
    if browsers.len() == 0 {
        browsers
    } else {
        let r = shown(browsers.drop_last());
        if browsers.last().hidden {
            r
        } else {
            r.push(browsers.last())
        }
    }
}

/// The targets the picker offers from the configured browsers: those not
/// hidden. When none is left, the picker offers the discovered browsers.
pub fn visible_targets(browsers: Vec<BrowserTarget>) -> (res: Vec<BrowserTarget>)
    ensures
        res@ == shown(browsers@),
{
    let ghost all = browsers@;
    let mut rest = browsers;
    let total = rest.len();
    let mut k: usize = 0;
    let mut res: Vec<BrowserTarget> = Vec::new();
    while rest.len() > 0
        invariant
            total == all.len(),
            k + rest@.len() == all.len(),
            rest@ == all.skip(k as int),
            res@ == shown(all.take(k as int)),
        decreases rest@.len(),
    {
        let b = rest.remove(0);
        assert(all.take(k + 1).drop_last() =~= all.take(k as int));
        assert(all.take(k + 1).last() == b);
        assert(rest@ =~= all.skip(k + 1));
        if !b.hidden {
            res.push(b);
        }
        k = k + 1;
    }
    assert(all.take(k as int) =~= all);
    res
}

/// An icon setting that names no icon: `auto` (in any ASCII case) or blank.
pub open spec fn no_icon(s: Seq<char>) -> bool {
    crate::text::eq_ignore_ascii_case(s, "auto"@) || trim(s).len() == 0
}

/// Where a target's icon is read from: its icon setting when that names
/// one, else its executable, unless that names none either.
pub fn icon_source(target: &BrowserTarget) -> (res: Option<String>)
    ensures
        ({
            let src = match target.icon {
                Some(i) => if no_icon(i@) { target.executable@ } else { i@ },
                None => target.executable@,
            };
            if no_icon(src) {
                res.is_none()
            } else {
                res matches Some(r) && r@ == src
            }
        }),
{
    let src: &String = match &target.icon {
        Some(i) => {
            let t = trim_str(i.as_str());
            if crate::text::eq_ignore_case(i.as_str(), "auto") || t.as_str().is_empty() {
                &target.executable
            } else {
                i
            }
        },
        None => &target.executable,
    };
    let t = trim_str(src.as_str());
    if crate::text::eq_ignore_case(src.as_str(), "auto") || t.as_str().is_empty() {
        None
    } else {
        Some(src.clone())
    }
}

/// `s` without leading and trailing `c`.
pub open spec fn strip_char(s: Seq<char>, c: char) -> Seq<char> {
    crate::platform::trim_matches(s, c)
}

/// An icon setting trimmed of white space and quotes.
pub open spec fn icon_base(source: Seq<char>) -> Seq<char> {
    strip_char(trim(source), '"')
}

/// The environment variable an icon setting starts with, as in `%NAME%...`.
pub open spec fn spec_icon_env_var(source: Seq<char>) -> Option<Seq<char>> {
    let v = icon_base(source);
    if v.len() > 0 && v[0] == '%' {
        let rest = v.drop_first();
        let end = crate::text::first_index(rest, '%');
        if end >= 0 {
            Some(rest.take(end))
        } else {
            None
        }
    } else {
        None
    }
}

/// The file an icon setting names, given the value of the environment
/// variable it starts with (if it starts with one and it is set): the
/// variable expanded, then a trailing `,<index>` dropped when what precedes
/// it is not blank once trimmed of white space and quotes.
pub open spec fn spec_normalize_icon_source(source: Seq<char>, env_value: Option<Seq<char>>) -> Seq<char> {
    let v = icon_base(source);
    let expanded = match (spec_icon_env_var(source), env_value) {
        (Some(name), Some(value)) => value + v.skip(name.len() as int + 2),
        _ => v,
    };
    let comma = last_index(expanded, ',');
    if comma >= 0 {
        let path = strip_char(trim(expanded.take(comma)), '"');
        if path.len() > 0 {
            path
        } else {
            expanded
        }
    } else {
        expanded
    }
}

/// Position of the last `c` in `s`, or -1.
pub open spec fn last_index(s: Seq<char>, c: char) -> int
    decreases s.len(),
{
    if s.len() == 0 {
        -1
    } else if s.last() == c {
        s.len() - 1
    } else {
        last_index(s.drop_last(), c)
    }
}

/// `s` without leading and trailing `"`.
fn strip_quotes(v: &Vec<char>) -> (res: Vec<char>)
    ensures
        res@ == strip_char(v@, '"'),
{
    crate::platform::trim_matches_vec(v, '"')
}

/// The environment variable an icon setting starts with (`%NAME%...`), whose
/// value [`normalize_icon_source`] needs.
pub fn icon_env_var(source: &str) -> (res: Option<String>)
    ensures
        match res {
            Some(n) => spec_icon_env_var(source@) == Some(n@),
            None => spec_icon_env_var(source@).is_none(),
        },
{
    let t = trim_str(source);
    let tv = chars_of(t.as_str());
    let v = strip_quotes(&tv);
    if v.len() > 0 && v[0] == '%' {
        let rest = sub_vec(&v, 1, v.len());
        assert(rest@ =~= v@.drop_first());
        match crate::text::first_index_vec(&rest, '%') {
            Some(end) => {
                let name = string_of_range(&rest, 0, end);
                assert(rest@.subrange(0, end as int) =~= rest@.take(end as int));
                Some(name)
            },
            None => None,
        }
    } else {
        None
    }
}

/// The file an icon setting names, with `env_value` the value of the
/// environment variable it starts with, when set.
pub fn normalize_icon_source(source: &str, env_value: Option<String>) -> (res: String)
    ensures
        res@ == spec_normalize_icon_source(source@, match env_value {
            Some(e) => Some(e@),
            None => None,
        }),
{
    let t = trim_str(source);
    let tv = chars_of(t.as_str());
    let v = strip_quotes(&tv);
    let var = icon_env_var(source);
    let expanded: Vec<char> = match (var, env_value) {
        (Some(name), Some(value)) => {
            let nl = chars_of(name.as_str()).len();
            let vl = v.len();
            proof {
                let rest = v@.drop_first();
                crate::text::lemma_first_index(rest, '%');
                assert(v@ == icon_base(source@));
                assert(nl + 2 <= vl);
            }
            let mut e = chars_of(value.as_str());
            let mut i = nl + 2;
            let ghost base = e@;
            while i < v.len()
                invariant
                    nl + 2 <= i <= v@.len(),
                    e@ == base + v@.subrange((nl + 2) as int, i as int),
                decreases v@.len() - i,
            {
                e.push(v[i]);
                assert(v@.subrange((nl + 2) as int, i + 1) =~= v@.subrange((nl + 2) as int, i as int).push(
                    v@[i as int],
                ));
                i = i + 1;
            }
            assert(v@.subrange((nl + 2) as int, v@.len() as int) =~= v@.skip(nl + 2));
            e
        },
        _ => v,
    };
    let mut comma: Option<usize> = None;
    let mut j: usize = 0;
    while j < expanded.len()
        invariant
            j <= expanded@.len(),
            match comma {
                Some(c) => c < j && last_index(expanded@.take(j as int), ',') == c,
                None => last_index(expanded@.take(j as int), ',') == -1,
            },
        decreases expanded@.len() - j,
    {
        assert(expanded@.take(j + 1).drop_last() =~= expanded@.take(j as int));
        if expanded[j] == ',' {
            comma = Some(j);
        }
        j = j + 1;
    }
    assert(expanded@.take(expanded@.len() as int) =~= expanded@);
    match comma {
        Some(c) => {
            let (lo, hi) = trim_bounds(&expanded, 0, c);
            assert(expanded@.subrange(0, c as int) =~= expanded@.take(c as int));
            let inner = sub_vec(&expanded, lo, hi);
            let path = strip_quotes(&inner);
            if path.len() > 0 {
                string_of(&path)
            } else {
                string_of(&expanded)
            }
        },
        None => string_of(&expanded),
    }
}

/// The picture formats the picker reads icons from, by file extension in
/// any ASCII case.
pub fn is_raster_extension(ext: &str) -> (res: bool)
    ensures
        res == (crate::text::eq_ignore_ascii_case(ext@, "ico"@) || crate::text::eq_ignore_ascii_case(
            ext@,
            "jpg"@,
        ) || crate::text::eq_ignore_ascii_case(ext@, "jpeg"@) || crate::text::eq_ignore_ascii_case(
            ext@,
            "png"@,
        )),
{
    crate::text::eq_ignore_case(ext, "ico") || crate::text::eq_ignore_case(ext, "jpg")
        || crate::text::eq_ignore_case(ext, "jpeg") || crate::text::eq_ignore_case(ext, "png")
}

// ---------------------------------------------------------------------------
// Colour settings
// ---------------------------------------------------------------------------

/// The value of an ASCII hexadecimal digit.
pub open spec fn hex_value(b: u8) -> Option<u8> {
    if 48 <= b <= 57 {
        Some((b - 48) as u8)
    } else if 97 <= b <= 102 {
        Some((b - 87) as u8)
    } else if 65 <= b <= 70 {
        Some((b - 55) as u8)
    } else {
        None
    }
}

/// What `u8::from_str_radix` reads, in base 16, from the two bytes `a b`:
/// two hexadecimal digits, or `+` and one.
pub open spec fn hex_pair(a: u8, b: u8) -> Option<u8> {
    if a == 43 {
        hex_value(b)
    } else {
        match (hex_value(a), hex_value(b)) {
            (Some(x), Some(y)) => Some((x * 16 + y) as u8),
            _ => None,
        }
    }
}

/// `s` without its leading `c`s.
pub open spec fn strip_leading(s: Seq<char>, c: char) -> Seq<char>
    decreases s.len(),
{
    if s.len() > 0 && s[0] == c {
        strip_leading(s.drop_first(), c)
    } else {
        s
    }
}

/// The UTF-8 bytes of a colour setting once trimmed and without its
/// leading `#`s.
pub open spec fn color_bytes(value: Seq<char>) -> Seq<u8> {
    vstd::utf8::encode_utf8(strip_leading(trim(value), '#'))
}

/// The colour a setting such as `#1453aa` names: six bytes read as three
/// base-16 pairs.
pub open spec fn spec_hex_color(value: Seq<char>) -> Option<(u8, u8, u8)> {
    let b = color_bytes(value);
    if b.len() != 6 {
        None
    } else {
        match (hex_pair(b[0], b[1]), hex_pair(b[2], b[3]), hex_pair(b[4], b[5])) {
            (Some(r), Some(g), Some(bl)) => Some((r, g, bl)),
            _ => None,
        }
    }
}

fn hex_digit(b: u8) -> (res: Option<u8>)
    ensures
        res == hex_value(b),
{
    if 48 <= b && b <= 57 {
        Some(b - 48)
    } else if 97 <= b && b <= 102 {
        Some(b - 87)
    } else if 65 <= b && b <= 70 {
        Some(b - 55)
    } else {
        None
    }
}

fn hex_byte_pair(a: u8, b: u8) -> (res: Option<u8>)
    ensures
        res == hex_pair(a, b),
{
    if a == 43 {
        return hex_digit(b);
    }
    match (hex_digit(a), hex_digit(b)) {
        (Some(x), Some(y)) => Some(x * 16 + y),
        _ => None,
    }
}

/// Reads a colour setting such as `#1453aa` as RGB, as the picker's colour
/// field does; the text it rejects is left as it was.
pub fn parse_hex_color(value: &str) -> (res: Option<(u8, u8, u8)>)
    requires
        color_bytes(value@).len() == 6 ==> vstd::utf8::is_char_boundary(color_bytes(value@), 2) && (
        hex_pair(color_bytes(value@)[0], color_bytes(value@)[1]).is_some()
            ==> vstd::utf8::is_char_boundary(color_bytes(value@), 4)),
    ensures
        res == spec_hex_color(value@),
{
    let t = trim_str(value);
    let v = chars_of(t.as_str());
    let mut start: usize = 0;
    assert(v@.skip(0) =~= v@);
    while start < v.len() && v[start] == '#'
        invariant
            start <= v@.len(),
            strip_leading(v@, '#') == strip_leading(v@.skip(start as int), '#'),
        decreases v@.len() - start,
    {
        assert(v@.skip(start as int).drop_first() =~= v@.skip(start + 1));
        start = start + 1;
    }
    let h = string_of_range(&v, start, v.len());
    assert(h@ =~= v@.skip(start as int));
    if start < v.len() {
        assert(v@.skip(start as int)[0] == v@[start as int]);
    }
    assert(strip_leading(v@.skip(start as int), '#') == v@.skip(start as int));
    assert(h@ == strip_leading(trim(value@), '#'));
    let b = h.as_str().as_bytes();
    if b.len() != 6 {
        return None;
    }
    let r = hex_byte_pair(b[0], b[1]);
    let g = hex_byte_pair(b[2], b[3]);
    let bl = hex_byte_pair(b[4], b[5]);
    match (r, g, bl) {
        (Some(r), Some(g), Some(bl)) => Some((r, g, bl)),
        _ => None,
    }
}

/// The status line after saving the picker's settings: none without a file
/// to save to; else saved, or the error.
pub fn save_status(has_config_path: bool, error: Option<&str>) -> (res: String)
    ensures
        res@ == if !has_config_path {
            "No config path available."@
        } else {
            match error {
                None => "Picker settings saved."@,
                Some(e) => "Failed to save settings: "@ + e@,
            }
        },
{
    if !has_config_path {
        return owned("No config path available.");
    }
    match error {
        None => owned("Picker settings saved."),
        Some(e) => concat("Failed to save settings: ", e),
    }
}

} // verus!
