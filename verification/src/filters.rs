//! URL filters: tracking-parameter stripping, HTTP→HTTPS upgrade, regex rewrite.
use vstd::prelude::*;

pub use crate::glob::glob_match;

use crate::glob::glob;
use crate::model::Filter;
use crate::text::owned;
use crate::urls::{
    form_urlencode, pair_views, parse_url, regex_replace, spec_form_urlencoded, spec_regex_replace,
    spec_url_parse, spec_url_with_query, spec_url_with_scheme, url_with_query, url_with_scheme,
    ParsedUrl, UrlView,
};

verus! {

/// Some pattern of `patterns` glob-matches `text`.
pub open spec fn matches_any_glob(patterns: Seq<String>, text: Seq<char>) -> bool {
    exists|i: int| 0 <= i < patterns.len() && glob(#[trigger] patterns[i]@, text)
}

/// The pairs whose name no pattern matches, in the order given.
pub open spec fn kept_pairs(pairs: Seq<(Seq<char>, Seq<char>)>, patterns: Seq<String>) -> Seq<
    (Seq<char>, Seq<char>),
>
    decreases pairs.len(),
{
    if pairs.len() == 0 {
        pairs
    } else {
        let r = kept_pairs(pairs.drop_last(), patterns);
        if matches_any_glob(patterns, pairs.last().0) {
            r
        } else {
            r.push(pairs.last())
        }
    }
}

/// Stripping keeps exactly the parameters whose name matches no pattern, in
/// the order given: the kept pairs are the query pairs filtered by "no
/// pattern matches the name", so no kept name matches a pattern and every
/// pair whose name matches none is kept.
pub proof fn law_stripping_keeps_exactly_the_unmatched(
    pairs: Seq<(Seq<char>, Seq<char>)>,
    patterns: Seq<String>,
)
    ensures
        kept_pairs(pairs, patterns) == pairs.filter(
            |p: (Seq<char>, Seq<char>)| !matches_any_glob(patterns, p.0),
        ),
        forall|k: int|
            0 <= k < kept_pairs(pairs, patterns).len() ==> !matches_any_glob(
                patterns,
                (#[trigger] kept_pairs(pairs, patterns)[k]).0,
            ),
        forall|j: int|
            0 <= j < pairs.len() && !matches_any_glob(patterns, (#[trigger] pairs[j]).0)
                ==> kept_pairs(pairs, patterns).contains(pairs[j]),
    decreases pairs.len(),
{
    let pred = |p: (Seq<char>, Seq<char>)| !matches_any_glob(patterns, p.0);
    reveal(Seq::filter);
    if pairs.len() > 0 {
        let d = pairs.drop_last();
        law_stripping_keeps_exactly_the_unmatched(d, patterns);
        let r = kept_pairs(d, patterns);
        assert forall|j: int|
            0 <= j < pairs.len() && !matches_any_glob(patterns, (#[trigger] pairs[j]).0)
                implies kept_pairs(pairs, patterns).contains(pairs[j]) by {
            if j < pairs.len() - 1 {
                assert(d[j] == pairs[j]);
                let k = choose|k: int| 0 <= k < r.len() && r[k] == d[j];
                if !matches_any_glob(patterns, pairs.last().0) {
                    assert(r.push(pairs.last())[k] == pairs[j]);
                }
            } else {
                let res = r.push(pairs.last());
                assert(res[res.len() - 1] == pairs[j]);
            }
        }
    }
}

/// `input` with the query parameters whose name matches a pattern removed;
/// the URL is re-serialized by the URL library, and an unparseable input is
/// returned unchanged.
pub open spec fn spec_strip_query_params(input: Seq<char>, patterns: Seq<String>) -> Seq<char> {
    match spec_url_parse(input) {
        None => input,
        Some(u) => {
            let kept = kept_pairs(u.query, patterns);
            let query = if kept.len() == 0 {
                None
            } else {
                Some(spec_form_urlencoded(kept))
            };
            match spec_url_with_query(input, query) {
                Some(s) => s,
                None => input,
            }
        },
    }
}

/// `input` with its scheme changed from `http` to `https`, unless it does not
/// parse, is not `http`, or its host (empty when it has none) matches one of
/// the exception patterns; in those cases `input` unchanged.
pub open spec fn spec_upgrade_https(input: Seq<char>, exceptions: Seq<String>) -> Seq<char> {
    match spec_url_parse(input) {
        None => input,
        Some(u) => {
            if !spec_upgrade_applies(u, exceptions) {
                input
            } else {
                match spec_url_with_scheme(input, "https"@) {
                    Some(s) => s,
                    None => input,
                }
            }
        },
    }
}

/// `input` rewritten by the regular expression `pattern`, or unchanged when
/// `pattern` is invalid.
pub open spec fn spec_rewrite(input: Seq<char>, pattern: Seq<char>, replacement: Seq<char>) -> Seq<
    char,
> {
    match spec_regex_replace(pattern, input, replacement) {
        Some(s) => s,
        None => input,
    }
}

/// One filter applied to `url`: a disabled filter changes nothing, nor does
/// any filter change a URL that does not parse; otherwise the filter strips
/// parameters (when it lists any), then upgrades to HTTPS (when asked), then
/// rewrites (when both a pattern and a replacement are set).
pub open spec fn spec_apply_filter(url: Seq<char>, f: Filter) -> Seq<char> {
    if !f.enabled || spec_url_parse(url).is_none() {
        url
    } else {
        let a = if f.strip_query_params@.len() > 0 {
            spec_strip_query_params(url, f.strip_query_params@)
        } else {
            url
        };
        let b = if f.upgrade_http_to_https {
            spec_upgrade_https(a, f.exceptions@)
        } else {
            a
        };
        match (f.rewrite_pattern, f.rewrite_replacement) {
            (Some(p), Some(r)) => spec_rewrite(b, p@, r@),
            _ => b,
        }
    }
}

/// All filters applied to `url`, in order.
pub open spec fn spec_apply_filters(url: Seq<char>, filters: Seq<Filter>) -> Seq<char>
    decreases filters.len(),
{
    if filters.len() == 0 {
        url
    } else {
        spec_apply_filter(spec_apply_filters(url, filters.drop_last()), filters.last())
    }
}

/// A URL that does not parse comes out of the filters unchanged, whatever
/// the filters are.
pub proof fn law_unparseable_url_passes_through(url: Seq<char>, filters: Seq<Filter>)
    requires
        spec_url_parse(url).is_none(),
    ensures
        spec_apply_filters(url, filters) == url,
    decreases filters.len(),
{
    if filters.len() > 0 {
        law_unparseable_url_passes_through(url, filters.drop_last());
    }
}

/// Applying two filter lists one after the other is applying the joined
/// list: the filters act one at a time, in order; no filters change nothing.
pub proof fn law_filters_compose(url: Seq<char>, first: Seq<Filter>, second: Seq<Filter>)
    ensures
        spec_apply_filters(url, first + second) == spec_apply_filters(
            spec_apply_filters(url, first),
            second,
        ),
        spec_apply_filters(url, Seq::<Filter>::empty()) == url,
    decreases second.len(),
{
    if second.len() == 0 {
        assert(first + second =~= first);
    } else {
        law_filters_compose(url, first, second.drop_last());
        assert((first + second).drop_last() =~= first + second.drop_last());
        assert((first + second).last() == second.last());
    }
}

/// The enabled filters of `filters`, in order.
pub open spec fn enabled_filters(filters: Seq<Filter>) -> Seq<Filter>
    decreases filters.len(),
{
    if filters.len() == 0 {
        filters
    } else if filters.last().enabled {
        enabled_filters(filters.drop_last()).push(filters.last())
    } else {
        enabled_filters(filters.drop_last())
    }
}

/// Disabled filters have no effect: applying a list is applying its enabled
/// filters alone.
pub proof fn law_disabled_filters_do_nothing(url: Seq<char>, filters: Seq<Filter>)
    ensures
        spec_apply_filters(url, filters) == spec_apply_filters(url, enabled_filters(filters)),
    decreases filters.len(),
{
    if filters.len() > 0 {
        law_disabled_filters_do_nothing(url, filters.drop_last());
        let e = enabled_filters(filters.drop_last());
        if filters.last().enabled {
            assert(e.push(filters.last()).drop_last() =~= e);
        }
    }
}

/// The upgrade to HTTPS changes only `http` URLs whose host matches no
/// exception, and those it hands to the URL library to switch the scheme to
/// `https`; every other URL, and every URL that does not parse, is left as
/// it is.
pub proof fn law_upgrade_only_plain_http(input: Seq<char>, exceptions: Seq<String>)
    ensures
        match spec_url_parse(input) {
            None => spec_upgrade_https(input, exceptions) == input,
            Some(u) => if u.scheme == "http"@ && !matches_any_glob(exceptions, host_or_empty(u)) {
                spec_upgrade_https(input, exceptions) == match spec_url_with_scheme(input, "https"@) {
                    Some(out) => out,
                    None => input,
                }
            } else {
                spec_upgrade_https(input, exceptions) == input
            },
        },
{
}

/// A URL whose host matches an exception keeps its scheme: the upgrade to
/// HTTPS leaves it unchanged.
pub proof fn law_exception_hosts_are_not_upgraded(input: Seq<char>, exceptions: Seq<String>)
    requires
        spec_url_parse(input) matches Some(u) && matches_any_glob(
            exceptions,
            match u.host {
                Some(h) => h,
                None => Seq::<char>::empty(),
            },
        ),
    ensures
        spec_upgrade_https(input, exceptions) == input,
{
}

/// Whether some pattern of `patterns` glob-matches `text`.
pub fn any_glob(patterns: &Vec<String>, text: &str) -> (res: bool)
    ensures
        res == matches_any_glob(patterns@, text@),
{
    let mut i: usize = 0;
    while i < patterns.len()
        invariant
            i <= patterns@.len(),
            forall|j: int| 0 <= j < i ==> !glob(#[trigger] patterns@[j]@, text@),
        decreases patterns@.len() - i,
    {
        if glob_match(patterns[i].as_str(), text) {
            return true;
        }
        i = i + 1;
    }
    false
}

/// Applies all enabled filters in order to `input`, returning the normalized URL.
///
/// Unparseable URLs are returned unchanged so that filters never block routing.
pub fn apply_filters(input: &str, filters: &Vec<Filter>) -> (res: String)
    ensures
        res@ == spec_apply_filters(input@, filters@),
{
    let mut current = owned(input);
    let mut i: usize = 0;
    while i < filters.len()
        invariant
            i <= filters@.len(),
            current@ == spec_apply_filters(input@, filters@.take(i as int)),
        decreases filters@.len() - i,
    {
        let filter = &filters[i];
        assert(filters@.take(i + 1).drop_last() =~= filters@.take(i as int));
        if filter.enabled && parse_url(current.as_str()).is_some() {
            if filter.strip_query_params.len() > 0 {
                current = strip_query_params(current.as_str(), &filter.strip_query_params);
            }
            if filter.upgrade_http_to_https {
                current = upgrade_https(current.as_str(), &filter.exceptions);
            }
            match (&filter.rewrite_pattern, &filter.rewrite_replacement) {
                (Some(pattern), Some(replacement)) => {
                    current = rewrite(current.as_str(), pattern.as_str(), replacement.as_str());
                },
                _ => {},
            }
        }
        i = i + 1;
    }
    assert(filters@.take(filters@.len() as int) =~= filters@);
    current
}

/// The pairs of `query` whose name no pattern of `patterns` matches, in
/// order.
pub fn kept_query_pairs(query: &Vec<(String, String)>, patterns: &Vec<String>) -> (res: Vec<
    (String, String),
>)
    ensures
        pair_views(res@) == kept_pairs(pair_views(query@), patterns@),
{
    let ghost pairs = pair_views(query@);
    let mut kept: Vec<(String, String)> = Vec::new();
    let mut i: usize = 0;
    while i < query.len()
        invariant
            i <= query@.len(),
            pairs == pair_views(query@),
            pair_views(kept@) == kept_pairs(pairs.take(i as int), patterns@),
        decreases query@.len() - i,
    {
        let pair = &query[i];
        assert(pairs.take(i + 1).drop_last() =~= pairs.take(i as int));
        assert(pairs.take(i + 1).last() == (pair.0@, pair.1@));
        if !any_glob(patterns, pair.0.as_str()) {
            kept.push((pair.0.clone(), pair.1.clone()));
            assert(pair_views(kept@) =~= kept_pairs(pairs.take(i as int), patterns@).push(
                (pair.0@, pair.1@),
            ));
        }
        i = i + 1;
    }
    assert(pairs.take(pairs.len() as int) =~= pairs);
    kept
}

/// Removes query parameters whose name matches any of `patterns` (glob `*`
/// wildcards supported), keeping the others in order.
pub fn strip_query_params(input: &str, patterns: &Vec<String>) -> (res: String)
    ensures
        res@ == spec_strip_query_params(input@, patterns@),
{
    let parsed = match parse_url(input) {
        Some(p) => p,
        None => {
            return owned(input);
        },
    };
    let kept = kept_query_pairs(&parsed.query, patterns);
    let result = if kept.len() == 0 {
        url_with_query(input, None)
    } else {
        let query = form_urlencode(&kept);
        url_with_query(input, Some(query.as_str()))
    };
    match result {
        Some(s) => s,
        None => owned(input),
    }
}

/// The host of a parsed URL, empty when it has none.
pub open spec fn host_or_empty(u: UrlView) -> Seq<char> {
    match u.host {
        Some(h) => h,
        None => Seq::<char>::empty(),
    }
}

/// The upgrade to HTTPS applies to a parsed URL: its scheme is `http` and
/// its host (empty when it has none) matches no exception pattern.
pub open spec fn spec_upgrade_applies(u: UrlView, exceptions: Seq<String>) -> bool {
    u.scheme == "http"@ && !matches_any_glob(exceptions, host_or_empty(u))
}

/// Whether the upgrade to HTTPS applies to the parsed URL `parsed`.
pub fn upgrade_applies(parsed: &ParsedUrl, exceptions: &Vec<String>) -> (res: bool)
    ensures
        res == spec_upgrade_applies(parsed@, exceptions@),
{
    if !crate::text::eq_str(parsed.scheme.as_str(), "http") {
        return false;
    }
    let host = match &parsed.host {
        Some(h) => h.clone(),
        None => String::new(),
    };
    !any_glob(exceptions, host.as_str())
}

/// Upgrades `http://` URLs to `https://`, unless the host matches an exception pattern.
pub fn upgrade_https(input: &str, exceptions: &Vec<String>) -> (res: String)
    ensures
        res@ == spec_upgrade_https(input@, exceptions@),
{
    let parsed = match parse_url(input) {
        Some(p) => p,
        None => {
            return owned(input);
        },
    };
    if !upgrade_applies(&parsed, exceptions) {
        return owned(input);
    }
    match url_with_scheme(input, "https") {
        Some(s) => s,
        None => owned(input),
    }
}

/// Applies a regex rewrite, supporting named capture groups and `${name}` substitution.
pub fn rewrite(input: &str, pattern: &str, replacement: &str) -> (res: String)
    ensures
        res@ == spec_rewrite(input@, pattern@, replacement@),
{
    match regex_replace(pattern, input, replacement) {
        Some(s) => s,
        None => owned(input),
    }
}

} // verus!
