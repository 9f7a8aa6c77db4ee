//! The calls into the `url` and `regex` crates and into std's Unicode case
//! mapping, each behind a trusted wrapper.
//!
//! What these functions return takes pages to state (the WHATWG URL parser and
//! serializer, `application/x-www-form-urlencoded`, regular-expression
//! semantics, Unicode case tables), so their results are given names below (the
//! form serialization, which a few lines state, is stated instead); the
//! wrappers state that the call returns exactly the named value for its
//! arguments, plus the few facts the callers rely on.
use vstd::prelude::*;

use crate::text::ascii_lower;
use vstd::utf8::encode_utf8;

verus! {

/// The parts of a parsed URL that the routing logic reads.
#[derive(Debug, Clone, PartialEq, Eq)]
pub struct ParsedUrl {
    /// The scheme, lower-cased by the parser (e.g. `"https"`).
    pub scheme: String,
    /// The host, if the URL has one.
    pub host: Option<String>,
    /// The path (`"/"` for a bare `https://host`).
    pub path: String,
    /// The percent-decoded `name=value` pairs of the query, in order.
    pub query: Vec<(String, String)>,
}

/// The mathematical value of a [`ParsedUrl`].
pub struct UrlView {
    pub scheme: Seq<char>,
    pub host: Option<Seq<char>>,
    pub path: Seq<char>,
    pub query: Seq<(Seq<char>, Seq<char>)>,
}

/// The views of a sequence of string pairs.
pub open spec fn pair_views(v: Seq<(String, String)>) -> Seq<(Seq<char>, Seq<char>)> {
    v.map_values(|p: (String, String)| (p.0@, p.1@))
}

/// The view of an optional string.
pub open spec fn opt_view(o: Option<String>) -> Option<Seq<char>> {
    match o {
        Some(s) => Some(s@),
        None => None,
    }
}

impl View for ParsedUrl {
    type V = UrlView;

    open spec fn view(&self) -> UrlView {
        UrlView {
            scheme: self.scheme@,
            host: opt_view(self.host),
            path: self.path@,
            query: pair_views(self.query@),
        }
    }
}

/// The view of an optional parsed URL.
pub open spec fn opt_url_view(o: Option<ParsedUrl>) -> Option<UrlView> {
    match o {
        Some(u) => Some(u@),
        None => None,
    }
}

/// What `url::Url::parse` yields for `input`: `None` when it fails, else the
/// scheme, host, path and decoded query pairs of the parsed URL.
pub uninterp spec fn spec_url_parse(input: Seq<char>) -> Option<UrlView>;

/// The serialization of the URL parsed from `input` after
/// `url::Url::set_query(query)`; `None` when `input` does not parse.
pub uninterp spec fn spec_url_with_query(input: Seq<char>, query: Option<Seq<char>>) -> Option<
    Seq<char>,
>;

/// The serialization of the URL parsed from `input` after
/// `url::Url::set_scheme(scheme)` (whose refusal leaves the URL unchanged);
/// `None` when `input` does not parse.
pub uninterp spec fn spec_url_with_scheme(input: Seq<char>, scheme: Seq<char>) -> Option<
    Seq<char>,
>;

/// A byte the form serializer writes as itself: `*`, `-`, `.`, `_`, ASCII
/// digits and letters.
pub open spec fn form_unchanged(b: u8) -> bool {
    b == 0x2A || b == 0x2D || b == 0x2E || b == 0x5F || (0x30 <= b && b <= 0x39) || (0x41 <= b
        && b <= 0x5A) || (0x61 <= b && b <= 0x7A)
}

/// The upper-case hexadecimal digit of `d` (below sixteen).
pub open spec fn hex_digit_upper(d: int) -> char {
    if d < 10 {
        (48 + d) as char
    } else {
        (55 + d) as char
    }
}

/// How the form serializer writes one byte: itself, `+` for a space, else
/// `%` and two upper-case hexadecimal digits.
pub open spec fn form_byte(b: u8) -> Seq<char> {
    if form_unchanged(b) {
        seq![b as char]
    } else if b == 0x20 {
        seq!['+']
    } else {
        seq!['%', hex_digit_upper(b as int / 16), hex_digit_upper(b as int % 16)]
    }
}

/// How the form serializer writes a byte string.
pub open spec fn form_bytes(bytes: Seq<u8>) -> Seq<char>
    decreases bytes.len(),
{
    if bytes.len() == 0 {
        Seq::empty()
    } else {
        form_bytes(bytes.drop_last()) + form_byte(bytes.last())
    }
}

/// One `name=value` pair, each side's UTF-8 bytes written by [`form_bytes`].
pub open spec fn form_pair(p: (Seq<char>, Seq<char>)) -> Seq<char> {
    form_bytes(encode_utf8(p.0)) + seq!['='] + form_bytes(encode_utf8(p.1))
}

/// The `application/x-www-form-urlencoded` serialization of `pairs`: the
/// pairs in order, separated by `&`.
pub open spec fn spec_form_urlencoded(pairs: Seq<(Seq<char>, Seq<char>)>) -> Seq<char>
    decreases pairs.len(),
{
    if pairs.len() == 0 {
        Seq::empty()
    } else if pairs.len() == 1 {
        form_pair(pairs[0])
    } else {
        spec_form_urlencoded(pairs.drop_last()) + seq!['&'] + form_pair(pairs.last())
    }
}

/// Whether the regular expression `pattern` matches somewhere in `text`;
/// `None` when `pattern` is not a valid regular expression.
pub uninterp spec fn spec_regex_is_match(pattern: Seq<char>, text: Seq<char>) -> Option<bool>;

/// `text` with the first match of the regular expression `pattern` replaced by
/// `replacement` (with `$name` / `${name}` group expansion); `None` when
/// `pattern` is not a valid regular expression.
pub uninterp spec fn spec_regex_replace(
    pattern: Seq<char>,
    text: Seq<char>,
    replacement: Seq<char>,
) -> Option<Seq<char>>;

/// `str::to_lowercase` of `s` (Unicode lower-case mapping).
pub uninterp spec fn spec_to_lowercase(s: Seq<char>) -> Seq<char>;

/// `str::to_uppercase` of `s` (Unicode upper-case mapping).
pub uninterp spec fn spec_to_uppercase(s: Seq<char>) -> Seq<char>;

/// Calls `url::Url::parse(input)` and, when it succeeds, reads the parsed
/// URL's `scheme()`, `host_str()`, `path()` and `query_pairs()` into plain values.
/// Claimed: the result is exactly the named value `spec_url_parse(input)`.
#[verifier::external_body]
pub(crate) fn parse_url(input: &str) -> (r: Option<ParsedUrl>)
    ensures
        opt_url_view(r) == spec_url_parse(input@),
{
    match url::Url::parse(input) {
        Ok(u) => Some(
            ParsedUrl {
                scheme: u.scheme().to_string(),
                host: u.host_str().map(str::to_string),
                path: u.path().to_string(),
                query: u.query_pairs().into_owned().collect(),
            },
        ),
        Err(_) => None,
    }
}

/// Calls `url::Url::parse(input)`, then `set_query(query)` and serializes
/// the URL. Claimed: the result is the named value
/// `spec_url_with_query(input, query)`, which is present exactly when
/// `input` parses (the same `Url::parse` call as [`parse_url`]).
#[verifier::external_body]
pub(crate) fn url_with_query(input: &str, query: Option<&str>) -> (r: Option<String>)
    ensures
        opt_view(r) == spec_url_with_query(
            input@,
            match query {
                Some(q) => Some(q@),
                None => None,
            },
        ),
        r.is_some() == spec_url_parse(input@).is_some(),
{
    match url::Url::parse(input) {
        Ok(mut u) => {
            u.set_query(query);
            Some(u.to_string())
        },
        Err(_) => None,
    }
}

/// Calls `url::Url::parse(input)`, then `set_scheme(scheme)` (ignoring a
/// refusal, as the routing logic does) and serializes the URL. Claimed: the
/// result is the named value `spec_url_with_scheme(input, scheme)`, present
/// exactly when `input` parses.
#[verifier::external_body]
pub(crate) fn url_with_scheme(input: &str, scheme: &str) -> (r: Option<String>)
    ensures
        opt_view(r) == spec_url_with_scheme(input@, scheme@),
        r.is_some() == spec_url_parse(input@).is_some(),
{
    match url::Url::parse(input) {
        Ok(mut u) => {
            let _ = u.set_scheme(scheme);
            Some(u.to_string())
        },
        Err(_) => None,
    }
}

/// Calls `form_urlencoded::Serializer::new(String::new()).extend_pairs(pairs).finish()`.
/// Claimed: the result is `spec_form_urlencoded(pairs)`, the pairs written
/// as `name=value` separated by `&`, each side's UTF-8 bytes kept when they
/// are `*`, `-`, `.`, `_` or ASCII letters and digits, a space written as
/// `+`, and every other byte as `%XX` in upper-case hexadecimal.
#[verifier::external_body]
pub(crate) fn form_urlencode(pairs: &Vec<(String, String)>) -> (r: String)
    ensures
        r@ == spec_form_urlencoded(pair_views(pairs@)),
{
    url::form_urlencoded::Serializer::new(String::new()).extend_pairs(pairs.iter()).finish()
}

/// Calls `regex::Regex::new(pattern)` and, when it compiles, `is_match(text)`.
/// Claimed: the result is the named value `spec_regex_is_match(pattern, text)`.
#[verifier::external_body]
pub(crate) fn regex_is_match(pattern: &str, text: &str) -> (r: Option<bool>)
    ensures
        r == spec_regex_is_match(pattern@, text@),
{
    match regex::Regex::new(pattern) {
        Ok(re) => Some(re.is_match(text)),
        Err(_) => None,
    }
}

/// Calls `regex::Regex::new(pattern)` and, when it compiles,
/// `replace(text, replacement)`. Claimed: the result is the named value
/// `spec_regex_replace(pattern, text, replacement)`.
#[verifier::external_body]
pub(crate) fn regex_replace(pattern: &str, text: &str, replacement: &str) -> (r: Option<String>)
    ensures
        opt_view(r) == spec_regex_replace(pattern@, text@, replacement@),
{
    match regex::Regex::new(pattern) {
        Ok(re) => Some(re.replace(text, replacement).into_owned()),
        Err(_) => None,
    }
}

/// Calls `str::to_lowercase`. Claimed: the result is the named value
/// `spec_to_lowercase(s)`; as the Unicode lower-case mapping that std
/// documents, it holds no ASCII capital letter, and on ASCII text it maps each
/// capital letter to its small letter and leaves every other character as it
/// is. Nothing more is claimed of non-ASCII text.
#[verifier::external_body]
pub(crate) fn to_lowercase(s: &str) -> (r: String)
    ensures
        r@ == spec_to_lowercase(s@),
        forall|i: int| 0 <= i < r@.len() ==> !('A' <= #[trigger] r@[i] && r@[i] <= 'Z'),
        (forall|i: int| 0 <= i < s@.len() ==> (#[trigger] s@[i] as u32) < 128) ==> r@
            == s@.map_values(|c: char| ascii_lower(c)),
{
    s.to_lowercase()
}

/// Calls `str::to_uppercase`. Claimed: the result is the named value
/// `spec_to_uppercase(s)`.
#[verifier::external_body]
pub(crate) fn to_uppercase(s: &str) -> (r: String)
    ensures
        r@ == spec_to_uppercase(s@),
{
    s.to_uppercase()
}

} // verus!
