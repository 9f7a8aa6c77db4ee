//! The line protocol between `br open` and the background daemon.
//!
//! The daemon listens on a loopback TCP port and accepts newline-terminated
//! `OPEN` requests, avoiding the cold-start cost of loading the config and
//! discovering browsers on every link click.
use vstd::prelude::*;

use crate::text::{
    chars_of, eq_vec, is_ws, join, lemma_join_last, lemma_split_append, lemma_split_join,
    lemma_split_len, lemma_split_no_sep, split,
    split_vec, string_of, trim_end, trim_end_vec, vec_views, views,
};

verus! {

/// Loopback TCP port used for daemon IPC (in the IANA dynamic/private range).
pub const PORT: u16 = 47823;

/// One request sent by `br open` to the daemon:
/// `OPEN\t<url>\t<source_app>\t<app>\t<private>\t<modifier_keys>\n`, where
/// absent values are written `-`, `<private>` is `0` or `1`, and the modifier
/// keys are joined by `,`.
#[derive(Debug, Clone, PartialEq, Eq)]
pub struct OpenRequest {
    pub url: String,
    pub source_app: Option<String>,
    pub app: Option<String>,
    pub private: bool,
    pub modifier_keys: Vec<String>,
}

/// The mathematical value of an [`OpenRequest`].
pub struct RequestView {
    pub url: Seq<char>,
    pub source_app: Option<Seq<char>>,
    pub app: Option<Seq<char>>,
    pub private: bool,
    pub modifier_keys: Seq<Seq<char>>,
}

/// The view of an optional string.
pub open spec fn opt_str(o: Option<String>) -> Option<Seq<char>> {
    match o {
        Some(s) => Some(s@),
        None => None,
    }
}

impl View for OpenRequest {
    type V = RequestView;

    open spec fn view(&self) -> RequestView {
        RequestView {
            url: self.url@,
            source_app: opt_str(self.source_app),
            app: opt_str(self.app),
            private: self.private,
            modifier_keys: views(self.modifier_keys@),
        }
    }
}

/// An optional field as written on the wire.
pub open spec fn dash_or(o: Option<Seq<char>>) -> Seq<char> {
    match o {
        Some(s) => s,
        None => "-"@,
    }
}

/// An optional field as read from the wire.
pub open spec fn field_opt(f: Seq<char>) -> Option<Seq<char>> {
    if f == "-"@ {
        None
    } else {
        Some(f)
    }
}

/// The modifier-key field as written on the wire.
pub open spec fn keys_field(keys: Seq<Seq<char>>) -> Seq<char> {
    if keys.len() == 0 {
        "-"@
    } else {
        join(keys, ',')
    }
}

/// The encoded request line.
pub open spec fn spec_encode(r: RequestView) -> Seq<char> {
    "OPEN\t"@ + r.url + "\t"@ + dash_or(r.source_app) + "\t"@ + dash_or(r.app) + "\t"@ + (if r.private {
        "1"@
    } else {
        "0"@
    }) + "\t"@ + keys_field(r.modifier_keys) + "\n"@
}

/// The request a line decodes to: the line without trailing white space is
/// split at tabs; it must start with `OPEN` and have at least five fields; a
/// sixth field, when present, holds the modifier keys.
pub open spec fn spec_decode(line: Seq<char>) -> Option<RequestView> {
    let parts = split(trim_end(line), '\t');
    if parts[0] != "OPEN"@ || parts.len() < 5 {
        None
    } else {
        Some(
            RequestView {
                url: parts[1],
                source_app: field_opt(parts[2]),
                app: field_opt(parts[3]),
                private: parts[4] == "1"@,
                modifier_keys: if parts.len() >= 6 {
                    if parts[5] == "-"@ {
                        Seq::<Seq<char>>::empty()
                    } else {
                        split(parts[5], ',')
                    }
                } else {
                    Seq::<Seq<char>>::empty()
                },
            },
        )
    }
}

/// The strings of `v` joined with `sep`.
fn join_strings(v: &Vec<String>, sep: char) -> (res: String)
    ensures
        res@ == join(views(v@), sep),
{
    let mut res = String::new();
    let mut i: usize = 0;
    while i < v.len()
        invariant
            i <= v@.len(),
            res@ == join(views(v@.take(i as int)), sep),
        decreases v@.len() - i,
    {
        assert(views(v@.take(i + 1)).drop_last() =~= views(v@.take(i as int)));
        if i > 0 {
            crate::text::push_char(&mut res, sep);
        }
        res.append(v[i].as_str());
        assert(views(v@.take(i + 1)).last() == v@[i as int]@);
        i = i + 1;
    }
    assert(v@.take(v@.len() as int) =~= v@);
    res
}

impl OpenRequest {
    /// The request as one protocol line.
    pub fn encode(&self) -> (res: String)
        ensures
            res@ == spec_encode(self@),
    {
        let mut s = String::from_str("OPEN\t");
        s.append(self.url.as_str());
        s.append("\t");
        match &self.source_app {
            Some(a) => s.append(a.as_str()),
            None => s.append("-"),
        }
        s.append("\t");
        match &self.app {
            Some(a) => s.append(a.as_str()),
            None => s.append("-"),
        }
        s.append("\t");
        if self.private {
            s.append("1");
        } else {
            s.append("0");
        }
        s.append("\t");
        if self.modifier_keys.len() == 0 {
            s.append("-");
        } else {
            let keys = join_strings(&self.modifier_keys, ',');
            s.append(keys.as_str());
        }
        s.append("\n");
        s
    }

    /// Parses one protocol line; `None` when it is not a well-formed `OPEN` request.
    pub fn decode(line: &str) -> (res: Option<Self>)
        ensures
            match res {
                Some(r) => spec_decode(line@) == Some(r@),
                None => spec_decode(line@).is_none(),
            },
    {
        let chars = chars_of(line);
        let trimmed = trim_end_vec(&chars);
        let parts = split_vec(&trimmed, '\t');
        proof {
            lemma_split_len(trimmed@, '\t');
        }
        let ghost ps = split(trim_end(line@), '\t');
        assert(parts@.len() == ps.len());
        assert(parts@[0]@ == ps[0]);
        let open = chars_of("OPEN");
        if !eq_vec(&parts[0], &open) || parts.len() < 5 {
            return None;
        }
        assert(parts@[1]@ == ps[1]);
        assert(parts@[2]@ == ps[2]);
        assert(parts@[3]@ == ps[3]);
        assert(parts@[4]@ == ps[4]);
        let dash = chars_of("-");
        let url = string_of(&parts[1]);
        let source_app = if eq_vec(&parts[2], &dash) {
            None
        } else {
            Some(string_of(&parts[2]))
        };
        let app = if eq_vec(&parts[3], &dash) {
            None
        } else {
            Some(string_of(&parts[3]))
        };
        let one = chars_of("1");
        let private = eq_vec(&parts[4], &one);
        let mut modifier_keys: Vec<String> = Vec::new();
        if parts.len() >= 6 {
            assert(parts@[5]@ == ps[5]);
            if !eq_vec(&parts[5], &dash) {
                let keys = split_vec(&parts[5], ',');
                let mut k: usize = 0;
                while k < keys.len()
                    invariant
                        k <= keys@.len(),
                        modifier_keys@.len() == k,
                        forall|m: int| 0 <= m < k ==> #[trigger] modifier_keys@[m]@ == keys@[m]@,
                    decreases keys@.len() - k,
                {
                    modifier_keys.push(string_of(&keys[k]));
                    k = k + 1;
                }
                assert(views(modifier_keys@) =~= vec_views(keys@));
            }
        }
        let r = OpenRequest { url, source_app, app, private, modifier_keys };
        assert(r@.modifier_keys =~= spec_decode(line@).unwrap().modifier_keys);
        Some(r)
    }
}

/// A request whose fields survive the line format: no field holds a tab, no
/// modifier key holds a comma, absent-looking values (`-`) are not used as
/// present ones, and the line does not end in white space before its newline.
pub open spec fn well_formed(r: RequestView) -> bool {
    &&& !r.url.contains('\t')
    &&& (r.source_app matches Some(s) ==> !s.contains('\t') && s != "-"@)
    &&& (r.app matches Some(s) ==> !s.contains('\t') && s != "-"@)
    &&& forall|i: int|
        0 <= i < r.modifier_keys.len() ==> !(#[trigger] r.modifier_keys[i]).contains('\t')
            && !r.modifier_keys[i].contains(',')
    &&& !(r.modifier_keys.len() == 1 && r.modifier_keys[0] == "-"@)
    &&& (r.modifier_keys.len() > 0 ==> r.modifier_keys.last().len() > 0 && !is_ws(
        r.modifier_keys.last().last(),
    ))
}

/// The private flag as written on the wire.
pub open spec fn flag_field(private: bool) -> Seq<char> {
    if private {
        "1"@
    } else {
        "0"@
    }
}

/// The fields of an encoded well-formed request, as decoding splits them.
proof fn lemma_encode_parts(r: RequestView)
    requires
        well_formed(r),
    ensures
        split(trim_end(spec_encode(r)), '\t') == seq![
            "OPEN"@,
            r.url,
            dash_or(r.source_app),
            dash_or(r.app),
            flag_field(r.private),
            keys_field(r.modifier_keys),
        ],
{
    reveal_strlit("OPEN\t");
    reveal_strlit("\t");
    reveal_strlit("-");
    reveal_strlit("1");
    reveal_strlit("0");
    reveal_strlit("\n");
    reveal_strlit("OPEN");
    let f0 = "OPEN"@;
    let f1 = r.url;
    let f2 = dash_or(r.source_app);
    let f3 = dash_or(r.app);
    let f4 = flag_field(r.private);
    let f5 = keys_field(r.modifier_keys);
    let b4 = f4.push('\t') + f5;
    let b3 = f3.push('\t') + b4;
    let b2 = f2.push('\t') + b3;
    let b1 = f1.push('\t') + b2;
    let body = f0.push('\t') + b1;
    assert(spec_encode(r) =~= body.push('\n'));
    assert(f5.len() > 0 && !is_ws(f5.last())) by {
        if r.modifier_keys.len() > 0 {
            lemma_join_last(r.modifier_keys, ',');
        }
    }
    assert(body.len() > 0 && body.last() == f5.last());
    assert(body.push('\n').drop_last() =~= body);
    assert(trim_end(body.push('\n')) == trim_end(body));
    assert(trim_end(body) == body);
    assert(!f0.contains('\t'));
    assert(!f4.contains('\t'));
    assert(!f5.contains('\t')) by {
        if r.modifier_keys.len() > 0 {
            lemma_join_no_char(r.modifier_keys, ',', '\t');
        }
    }
    assert(!f2.contains('\t'));
    assert(!f3.contains('\t'));
    lemma_split_no_sep(f5, '\t');
    lemma_split_append(f4, f5, '\t');
    lemma_split_no_sep(f4, '\t');
    lemma_split_append(f3, b4, '\t');
    lemma_split_no_sep(f3, '\t');
    lemma_split_append(f2, b3, '\t');
    lemma_split_no_sep(f2, '\t');
    lemma_split_append(f1, b2, '\t');
    lemma_split_no_sep(f1, '\t');
    lemma_split_append(f0, b1, '\t');
    lemma_split_no_sep(f0, '\t');
    assert(split(body, '\t') =~= seq![f0, f1, f2, f3, f4, f5]);
}

/// Decoding an encoded well-formed request gives the request back.
pub proof fn law_decode_encode(r: RequestView)
    requires
        well_formed(r),
    ensures
        spec_decode(spec_encode(r)) == Some(r),
{
    reveal_strlit("-");
    reveal_strlit("1");
    reveal_strlit("0");
    reveal_strlit("OPEN");
    lemma_encode_parts(r);
    let parts = split(trim_end(spec_encode(r)), '\t');
    let f5 = keys_field(r.modifier_keys);
    if r.modifier_keys.len() > 0 {
        lemma_split_join(r.modifier_keys, ',');
        assert(f5 != "-"@) by {
            if r.modifier_keys.len() == 1 {
                assert(join(r.modifier_keys, ',') == r.modifier_keys[0]);
            } else {
                lemma_join_has_sep(r.modifier_keys, ',');
                if f5 == "-"@ {
                    let k = choose|k: int| 0 <= k < f5.len() && f5[k] == ',';
                    assert(f5[0] == '-');
                }
            }
        }
    }
    let keys = if parts[5] == "-"@ {
        Seq::<Seq<char>>::empty()
    } else {
        split(parts[5], ',')
    };
    assert(keys =~= r.modifier_keys);
    assert(field_opt(parts[2]) == r.source_app);
    assert(field_opt(parts[3]) == r.app);
    assert("0"@[0] != "1"@[0]);
    assert((parts[4] == "1"@) == r.private);
    let v = RequestView {
        url: parts[1],
        source_app: field_opt(parts[2]),
        app: field_opt(parts[3]),
        private: parts[4] == "1"@,
        modifier_keys: keys,
    };
    assert(v == r);
}

/// A join of pieces without `c` has no `c` (for `c` other than the separator).
proof fn lemma_join_no_char(parts: Seq<Seq<char>>, sep: char, c: char)
    requires
        sep != c,
        forall|i: int| 0 <= i < parts.len() ==> !(#[trigger] parts[i]).contains(c),
    ensures
        !join(parts, sep).contains(c),
    decreases parts.len(),
{
    if parts.len() > 1 {
        let init = parts.drop_last();
        assert forall|i: int| 0 <= i < init.len() implies !(#[trigger] init[i]).contains(c) by {
            assert(init[i] == parts[i]);
        }
        lemma_join_no_char(init, sep, c);
        let j = join(init, sep).push(sep) + parts.last();
        assert(!parts[parts.len() - 1].contains(c));
        if j.contains(c) {
            let k = choose|k: int| 0 <= k < j.len() && j[k] == c;
            if k < join(init, sep).len() {
                assert(join(init, sep)[k] == c);
            } else if k > join(init, sep).len() {
                assert(parts.last()[k - join(init, sep).len() - 1] == c);
            }
        }
    } else if parts.len() == 1 {
        assert(!parts[0].contains(c));
    }
}

/// A join of two or more pieces contains the separator.
proof fn lemma_join_has_sep(parts: Seq<Seq<char>>, sep: char)
    requires
        parts.len() >= 2,
    ensures
        join(parts, sep).contains(sep),
{
    let j = join(parts, sep);
    let l = join(parts.drop_last(), sep).len();
    assert(j[l as int] == sep);
}

} // verus!
