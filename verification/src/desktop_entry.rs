//! Parsing of freedesktop `.desktop` entry files, used on Linux to discover
//! browsers and their launch commands.
use vstd::prelude::*;

use crate::text::{
    chars_of, eq_ignore_ascii_case, eq_ignore_case_vec, eq_vec, first_word, first_word_vec,
    first_index_vec, lemma_split_append, lemma_split_len, lines, lines_vec, split, split_once,
    split_vec, string_of, string_of_range, strip_cr, trim, trim_bounds, vec_views, views,
};

verus! {

/// A parsed `.desktop` file's `[Desktop Entry]` section, relevant fields only.
#[derive(Debug, Clone, PartialEq, Eq)]
pub struct DesktopEntry {
    pub name: String,
    /// The `Exec=` command line.
    pub exec_line: String,
    pub mime_types: Vec<String>,
    pub no_display: bool,
}

/// The fields gathered while reading a `.desktop` file line by line.
pub struct ParseState {
    pub in_section: bool,
    pub name: Option<Seq<char>>,
    pub exec_line: Option<Seq<char>>,
    pub mime_types: Seq<Seq<char>>,
    pub no_display: bool,
}

/// The trimmed, non-empty pieces of a `;`-separated list, in order.
pub open spec fn mime_list(parts: Seq<Seq<char>>) -> Seq<Seq<char>>
    decreases parts.len(),
{
    if parts.len() == 0 {
        Seq::<Seq<char>>::empty()
    } else {
        let r = mime_list(parts.drop_last());
        if trim(parts.last()).len() == 0 {
            r
        } else {
            r.push(trim(parts.last()))
        }
    }
}

/// `line` is a section header `[<name>]`.
pub open spec fn is_section_header(line: Seq<char>) -> bool {
    line.len() >= 2 && line[0] == '[' && line.last() == ']'
}

/// The effect of one line on the state: blank lines and `#` comments are
/// skipped; `[section]` headers switch whether the `Desktop Entry` section is
/// being read; inside it, `Name`, `Exec`, `NoDisplay` and `MimeType` keys
/// (with trimmed keys and values) are recorded, the last occurrence winning.
pub open spec fn step(st: ParseState, raw: Seq<char>) -> ParseState {
    let line = trim(raw);
    if line.len() == 0 || line[0] == '#' {
        st
    } else if is_section_header(line) {
        ParseState { in_section: line.subrange(1, line.len() - 1) == "Desktop Entry"@, ..st }
    } else if !st.in_section {
        st
    } else {
        match split_once(line, '=') {
            None => st,
            Some((k, v)) => {
                let key = trim(k);
                let value = trim(v);
                if key == "Name"@ {
                    ParseState { name: Some(value), ..st }
                } else if key == "Exec"@ {
                    ParseState { exec_line: Some(value), ..st }
                } else if key == "NoDisplay"@ {
                    ParseState { no_display: eq_ignore_ascii_case(value, "true"@), ..st }
                } else if key == "MimeType"@ {
                    ParseState { mime_types: mime_list(split(value, ';')), ..st }
                } else {
                    st
                }
            },
        }
    }
}

/// The state after reading `ls` in order.
pub open spec fn read_lines(ls: Seq<Seq<char>>) -> ParseState
    decreases ls.len(),
{
    if ls.len() == 0 {
        ParseState {
            in_section: false,
            name: None,
            exec_line: None,
            mime_types: Seq::<Seq<char>>::empty(),
            no_display: false,
        }
    } else {
        step(read_lines(ls.drop_last()), ls.last())
    }
}

/// The mathematical value of a [`DesktopEntry`].
pub struct EntryView {
    pub name: Seq<char>,
    pub exec_line: Seq<char>,
    pub mime_types: Seq<Seq<char>>,
    pub no_display: bool,
}

impl View for DesktopEntry {
    type V = EntryView;

    open spec fn view(&self) -> EntryView {
        EntryView {
            name: self.name@,
            exec_line: self.exec_line@,
            mime_types: views(self.mime_types@),
            no_display: self.no_display,
        }
    }
}

/// The entry described by `contents`: present when its `[Desktop Entry]`
/// section gives both `Name` and `Exec`.
pub open spec fn spec_parse(contents: Seq<char>) -> Option<EntryView> {
    let st = read_lines(lines(contents));
    match (st.name, st.exec_line) {
        (Some(n), Some(e)) => Some(
            EntryView { name: n, exec_line: e, mime_types: st.mime_types, no_display: st.no_display },
        ),
        _ => None,
    }
}

/// Some MIME type is an `http` or `https` URL-scheme handler.
pub open spec fn spec_is_browser(mime_types: Seq<Seq<char>>) -> bool {
    exists|i: int|
        0 <= i < mime_types.len() && (#[trigger] mime_types[i] == "x-scheme-handler/http"@
            || mime_types[i] == "x-scheme-handler/https"@)
}

impl DesktopEntry {
    /// Whether this entry declares itself a handler for `http`/`https` URLs.
    pub fn is_browser(&self) -> (res: bool)
        ensures
            res == spec_is_browser(views(self.mime_types@)),
    {
        let http = chars_of("x-scheme-handler/http");
        let https = chars_of("x-scheme-handler/https");
        let mut i: usize = 0;
        while i < self.mime_types.len()
            invariant
                i <= self.mime_types@.len(),
                http@ == "x-scheme-handler/http"@,
                https@ == "x-scheme-handler/https"@,
                forall|j: int|
                    0 <= j < i ==> !(#[trigger] views(self.mime_types@)[j]
                        == "x-scheme-handler/http"@ || views(self.mime_types@)[j]
                        == "x-scheme-handler/https"@),
            decreases self.mime_types@.len() - i,
        {
            let m = chars_of(self.mime_types[i].as_str());
            if eq_vec(&m, &http) || eq_vec(&m, &https) {
                assert(views(self.mime_types@)[i as int] == m@);
                return true;
            }
            i = i + 1;
        }
        false
    }

    /// Returns the executable path/name from `Exec=`: its first
    /// white-space-separated word, without `%`-field codes or arguments.
    pub fn executable(&self) -> (res: Option<String>)
        ensures
            match res {
                Some(s) => first_word(self.exec_line@) == Some(s@),
                None => first_word(self.exec_line@).is_none(),
            },
    {
        let v = chars_of(self.exec_line.as_str());
        match first_word_vec(&v) {
            Some(w) => Some(string_of(&w)),
            None => None,
        }
    }
}

/// The trimmed, non-empty pieces of `value` split at `;`.
fn mime_types_of(value: &Vec<char>) -> (res: Vec<String>)
    ensures
        views(res@) == mime_list(split(value@, ';')),
{
    let parts = split_vec(value, ';');
    let ghost ps = split(value@, ';');
    let mut res: Vec<String> = Vec::new();
    let mut i: usize = 0;
    while i < parts.len()
        invariant
            i <= parts@.len(),
            vec_views(parts@) == ps,
            views(res@) == mime_list(ps.take(i as int)),
        decreases parts@.len() - i,
    {
        let p = &parts[i];
        assert(ps.take(i + 1).drop_last() =~= ps.take(i as int));
        assert(ps.take(i + 1).last() == p@);
        let (lo, hi) = trim_bounds(p, 0, p.len());
        assert(p@.subrange(0, p@.len() as int) =~= p@);
        if lo < hi {
            let piece = string_of_range(p, lo, hi);
            res.push(piece);
            assert(views(res@) =~= mime_list(ps.take(i as int)).push(trim(p@)));
        }
        i = i + 1;
    }
    assert(ps.take(ps.len() as int) =~= ps);
    res
}

/// `line` opens a section other than `[Desktop Entry]`.
pub open spec fn opens_other_section(line: Seq<char>) -> bool {
    let l = trim(line);
    is_section_header(l) && l.subrange(1, l.len() - 1) != "Desktop Entry"@
}

/// `line` opens the `[Desktop Entry]` section.
pub open spec fn opens_entry_section(line: Seq<char>) -> bool {
    let l = trim(line);
    is_section_header(l) && l.subrange(1, l.len() - 1) == "Desktop Entry"@
}

/// Reading lines that start another section, and never reopen
/// `[Desktop Entry]`, leaves every recorded field as it was.
proof fn lemma_other_section_lines(ls: Seq<Seq<char>>, more: Seq<Seq<char>>)
    requires
        more.len() > 0,
        opens_other_section(more[0]),
        forall|k: int| 0 <= k < more.len() ==> !opens_entry_section(#[trigger] more[k]),
    ensures
        ({
            let a = read_lines(ls);
            let b = read_lines(ls + more);
            &&& !b.in_section
            &&& b.name == a.name
            &&& b.exec_line == a.exec_line
            &&& b.mime_types == a.mime_types
            &&& b.no_display == a.no_display
        }),
    decreases more.len(),
{
    let all = ls + more;
    assert(all.drop_last() =~= ls + more.drop_last());
    assert(all.last() == more.last());
    if more.len() > 1 {
        assert forall|k: int| 0 <= k < more.drop_last().len() implies !opens_entry_section(
            #[trigger] more.drop_last()[k],
        ) by {
            assert(more.drop_last()[k] == more[k]);
        }
        lemma_other_section_lines(ls, more.drop_last());
    } else {
        assert(ls + more.drop_last() =~= ls);
    }
    assert(!opens_entry_section(more[more.len() - 1]));
}

/// The lines of `a + b`, when `a` is empty or ends a line, are those of `a`
/// followed by those of `b`.
proof fn lemma_lines_append(a: Seq<char>, b: Seq<char>)
    requires
        a.len() == 0 || a.last() == '\n',
    ensures
        lines(a + b) == lines(a) + lines(b),
{
    lemma_split_len(b, '\n');
    if a.len() == 0 {
        assert(a + b =~= b);
        assert(split(a, '\n') == seq![Seq::<char>::empty()]);
        assert(lines(a) =~= Seq::<Seq<char>>::empty());
    } else {
        let a0 = a.drop_last();
        assert(a0.push('\n') =~= a);
        lemma_split_append(a0, b, '\n');
        lemma_split_append(a0, Seq::<char>::empty(), '\n');
        assert(a0.push('\n') + Seq::<char>::empty() =~= a);
        assert(a0.push('\n') + b =~= a + b);
        let pa = split(a0, '\n');
        lemma_split_len(a0, '\n');
        assert(split(a, '\n') == pa + seq![Seq::<char>::empty()]);
        assert(lines(a) =~= pa.map_values(|x: Seq<char>| strip_cr(x)));
        assert(lines(a + b) =~= lines(a) + lines(b));
    }
}

/// Sections other than `[Desktop Entry]` never change what is read:
/// appending to a file (one that is empty or ends a line) a section whose
/// header is not `[Desktop Entry]`, with any keys and no later
/// `[Desktop Entry]` header, leaves the parsed entry as it was.
pub proof fn law_other_sections_are_ignored(file: Seq<char>, section: Seq<char>)
    requires
        file.len() == 0 || file.last() == '\n',
        lines(section).len() > 0,
        opens_other_section(lines(section)[0]),
        forall|k: int| 0 <= k < lines(section).len() ==> !opens_entry_section(#[trigger] lines(section)[k]),
    ensures
        spec_parse(file + section) == spec_parse(file),
{
    lemma_lines_append(file, section);
    lemma_other_section_lines(lines(file), lines(section));
}

/// Parses the `[Desktop Entry]` section of a `.desktop` file's contents.
/// Returns `None` if the file has no `[Desktop Entry]` section or it is missing `Name`/`Exec`.
pub fn parse(contents: &str) -> (res: Option<DesktopEntry>)
    ensures
        match res {
            Some(e) => spec_parse(contents@) == Some(e@),
            None => spec_parse(contents@).is_none(),
        },
{
    let all = chars_of(contents);
    let ls = lines_vec(&all);
    let ghost lv = lines(contents@);
    let section = chars_of("Desktop Entry");
    let k_name = chars_of("Name");
    let k_exec = chars_of("Exec");
    let k_nodisplay = chars_of("NoDisplay");
    let k_mime = chars_of("MimeType");
    let v_true = chars_of("true");
    let mut in_section = false;
    let mut name: Option<String> = None;
    let mut exec_line: Option<String> = None;
    let mut mime_types: Vec<String> = Vec::new();
    let mut no_display = false;
    let mut i: usize = 0;
    while i < ls.len()
        invariant
            i <= ls@.len(),
            vec_views(ls@) == lv,
            section@ == "Desktop Entry"@,
            k_name@ == "Name"@,
            k_exec@ == "Exec"@,
            k_nodisplay@ == "NoDisplay"@,
            k_mime@ == "MimeType"@,
            v_true@ == "true"@,
            ({
                let st = read_lines(lv.take(i as int));
                &&& st.in_section == in_section
                &&& st.name == crate::daemon::opt_str(name)
                &&& st.exec_line == crate::daemon::opt_str(exec_line)
                &&& st.mime_types == views(mime_types@)
                &&& st.no_display == no_display
            }),
        decreases ls@.len() - i,
    {
        let raw = &ls[i];
        assert(lv.take(i + 1).drop_last() =~= lv.take(i as int));
        assert(lv.take(i + 1).last() == raw@);
        let (lo, hi) = trim_bounds(raw, 0, raw.len());
        assert(raw@.subrange(0, raw@.len() as int) =~= raw@);
        let line = crate::text::sub_vec(raw, lo, hi);
        assert(line@ == trim(raw@));
        if line.len() == 0 || line[0] == '#' {
        } else if line.len() >= 2 && line[0] == '[' && line[line.len() - 1] == ']' {
            let inner = crate::text::sub_vec(&line, 1, line.len() - 1);
            in_section = eq_vec(&inner, &section);
        } else if !in_section {
        } else {
            match first_index_vec(&line, '=') {
                None => {},
                Some(eq) => {
                    let (klo, khi) = trim_bounds(&line, 0, eq);
                    let (vlo, vhi) = trim_bounds(&line, eq + 1, line.len());
                    assert(line@.subrange(0, eq as int) =~= line@.take(eq as int));
                    assert(line@.subrange(eq + 1, line@.len() as int) =~= line@.skip(eq + 1));
                    let key = crate::text::sub_vec(&line, klo, khi);
                    let value = crate::text::sub_vec(&line, vlo, vhi);
                    if eq_vec(&key, &k_name) {
                        name = Some(string_of(&value));
                    } else if eq_vec(&key, &k_exec) {
                        exec_line = Some(string_of(&value));
                    } else if eq_vec(&key, &k_nodisplay) {
                        no_display = eq_ignore_case_vec(&value, &v_true);
                    } else if eq_vec(&key, &k_mime) {
                        mime_types = mime_types_of(&value);
                    }
                },
            }
        }
        i = i + 1;
    }
    assert(lv.take(lv.len() as int) =~= lv);
    match (name, exec_line) {
        (Some(n), Some(e)) => Some(DesktopEntry { name: n, exec_line: e, mime_types, no_display }),
        _ => None,
    }
}

} // verus!
