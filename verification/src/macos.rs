//! Decisions of the macOS integration: reading an application bundle's
//! `Info.plist` for the URL schemes it handles, turning bundles into browser
//! targets, and reading the frontmost application's name.
use vstd::prelude::*;

use crate::linux::{is_plain_target, target_offer};
use crate::model::BrowserTarget;
use crate::platform::{classify, lower_case, slug, spec_classify, spec_slug, RegisterOutcome};
use crate::text::{eq_ignore_ascii_case, eq_ignore_case, eq_str, owned, trim, trim_str, views};

verus! {

/// The unit the macOS integration works for; the system calls are made by
/// the application, which asks this module what they mean.
#[derive(Debug, Default, Clone, Copy, PartialEq, Eq)]
pub struct MacosPlatform;

/// Relevant subset of an application bundle's `Info.plist`.
#[derive(Debug, Clone, PartialEq, Eq)]
pub struct BundleInfo {
    pub name: String,
    pub bundle_id: String,
    pub url_schemes: Vec<String>,
}

/// Some scheme is `http` or `https`, in any ASCII case.
pub open spec fn handles_http(schemes: Seq<Seq<char>>) -> bool {
    exists|i: int|
        0 <= i < schemes.len() && (eq_ignore_ascii_case(#[trigger] schemes[i], "http"@)
            || eq_ignore_ascii_case(schemes[i], "https"@))
}

impl BundleInfo {
    /// Whether this bundle declares itself a handler for `http`/`https` URLs.
    pub fn is_browser(&self) -> (res: bool)
        ensures
            res == handles_http(views(self.url_schemes@)),
    {
        let mut i: usize = 0;
        while i < self.url_schemes.len()
            invariant
                i <= self.url_schemes@.len(),
                forall|j: int|
                    0 <= j < i ==> !(eq_ignore_ascii_case(#[trigger] views(self.url_schemes@)[j], "http"@)
                        || eq_ignore_ascii_case(views(self.url_schemes@)[j], "https"@)),
            decreases self.url_schemes@.len() - i,
        {
            let s = self.url_schemes[i].as_str();
            assert(views(self.url_schemes@)[i as int] == s@);
            if eq_ignore_case(s, "http") || eq_ignore_case(s, "https") {
                return true;
            }
            i = i + 1;
        }
        false
    }
}

/// A property-list value, holding what bundle reading looks at: dictionaries
/// (their entries in order), arrays, strings, and every other kind of value.
#[derive(Debug)]
pub enum PlistValue {
    Dictionary(Vec<(String, PlistValue)>),
    Array(Vec<PlistValue>),
    String(String),
    Other,
}

/// The value of the first entry with key `key`.
pub open spec fn dict_get(entries: Seq<(String, PlistValue)>, key: Seq<char>) -> Option<PlistValue>
    decreases entries.len(),
{
    if entries.len() == 0 {
        None
    } else if entries[0].0@ == key {
        Some(entries[0].1)
    } else {
        dict_get(entries.drop_first(), key)
    }
}

/// The text of a string value.
pub open spec fn as_string(v: Option<PlistValue>) -> Option<Seq<char>> {
    match v {
        Some(PlistValue::String(s)) => Some(s@),
        _ => None,
    }
}

/// The string values among `values`, in order.
pub open spec fn strings_of(values: Seq<PlistValue>) -> Seq<Seq<char>>
    decreases values.len(),
{
    if values.len() == 0 {
        Seq::empty()
    } else {
        let r = strings_of(values.drop_last());
        match values.last() {
            PlistValue::String(s) => r.push(s@),
            _ => r,
        }
    }
}

/// The schemes one `CFBundleURLTypes` entry declares: the strings of its
/// `CFBundleURLSchemes` array.
pub open spec fn entry_schemes(entry: PlistValue) -> Seq<Seq<char>> {
    match entry {
        PlistValue::Dictionary(d) => match dict_get(d@, "CFBundleURLSchemes"@) {
            Some(PlistValue::Array(xs)) => strings_of(xs@),
            _ => Seq::empty(),
        },
        _ => Seq::empty(),
    }
}

/// The schemes all of `types` declare, in order.
pub open spec fn types_schemes(types: Seq<PlistValue>) -> Seq<Seq<char>>
    decreases types.len(),
{
    if types.len() == 0 {
        Seq::empty()
    } else {
        types_schemes(types.drop_last()) + entry_schemes(types.last())
    }
}

/// The name a bundle shows: its display name, else its bundle name (a key
/// that is present but not a string counts as absent only for the second).
pub open spec fn bundle_name(d: Seq<(String, PlistValue)>, fallback: Seq<char>) -> Seq<char> {
    let v = match dict_get(d, "CFBundleDisplayName"@) {
        Some(x) => Some(x),
        None => dict_get(d, "CFBundleName"@),
    };
    match as_string(v) {
        Some(n) => n,
        None => fallback,
    }
}

/// The schemes a bundle declares in `CFBundleURLTypes`.
pub open spec fn bundle_schemes(d: Seq<(String, PlistValue)>) -> Seq<Seq<char>> {
    match dict_get(d, "CFBundleURLTypes"@) {
        Some(PlistValue::Array(types)) => types_schemes(types@),
        _ => Seq::empty(),
    }
}

/// `info` is what a root `Info.plist` dictionary `d` describes.
pub open spec fn describes(info: BundleInfo, d: Seq<(String, PlistValue)>, fallback: Seq<char>) -> bool {
    &&& as_string(dict_get(d, "CFBundleIdentifier"@)) == Some(info.bundle_id@)
    &&& info.name@ == bundle_name(d, fallback)
    &&& views(info.url_schemes@) == bundle_schemes(d)
}

/// The value of the first entry of `entries` with key `key`.
fn get<'a>(entries: &'a Vec<(String, PlistValue)>, key: &str) -> (res: Option<&'a PlistValue>)
    ensures
        match res {
            Some(v) => dict_get(entries@, key@) == Some(*v),
            None => dict_get(entries@, key@).is_none(),
        },
{
    let mut i: usize = 0;
    assert(entries@.skip(0) =~= entries@);
    while i < entries.len()
        invariant
            i <= entries@.len(),
            dict_get(entries@, key@) == dict_get(entries@.skip(i as int), key@),
        decreases entries@.len() - i,
    {
        let ghost rest = entries@.skip(i as int);
        assert(rest[0] == entries@[i as int]);
        assert(rest.drop_first() =~= entries@.skip(i + 1));
        if eq_str(entries[i].0.as_str(), key) {
            return Some(&entries[i].1);
        }
        i = i + 1;
    }
    None
}

/// The string values among `values`, in order.
fn push_strings(out: &mut Vec<String>, values: &Vec<PlistValue>)
    ensures
        views(final(out)@) == views(old(out)@) + strings_of(values@),
{
    let ghost start = views(out@);
    let mut i: usize = 0;
    while i < values.len()
        invariant
            i <= values@.len(),
            views(out@) == start + strings_of(values@.take(i as int)),
        decreases values@.len() - i,
    {
        assert(values@.take(i + 1).drop_last() =~= values@.take(i as int));
        assert(values@.take(i + 1).last() == values@[i as int]);
        match &values[i] {
            PlistValue::String(s) => {
                let ghost before = out@;
                out.push(s.clone());
                assert(views(out@) =~= views(before).push(s@));
                assert(start + strings_of(values@.take(i as int)).push(s@) =~= start + strings_of(
                    values@.take(i + 1),
                ));
            },
            _ => {},
        }
        i = i + 1;
    }
    assert(values@.take(values@.len() as int) =~= values@);
}

/// Extracts bundle name, identifier, and declared URL schemes from the root
/// dictionary of an `Info.plist`; none when the value is not a dictionary
/// or has no string `CFBundleIdentifier`.
pub fn from_plist(value: &PlistValue, fallback_name: &str) -> (res: Option<BundleInfo>)
    ensures
        match value {
            PlistValue::Dictionary(d) => match res {
                Some(info) => describes(info, d@, fallback_name@),
                None => as_string(dict_get(d@, "CFBundleIdentifier"@)).is_none(),
            },
            _ => res.is_none(),
        },
{
    let dict = match value {
        PlistValue::Dictionary(d) => d,
        _ => {
            return None;
        },
    };
    let bundle_id = match get(dict, "CFBundleIdentifier") {
        Some(PlistValue::String(s)) => s.clone(),
        _ => {
            return None;
        },
    };
    let name_value = match get(dict, "CFBundleDisplayName") {
        Some(v) => Some(v),
        None => get(dict, "CFBundleName"),
    };
    let name = match name_value {
        Some(PlistValue::String(s)) => s.clone(),
        _ => owned(fallback_name),
    };
    let mut url_schemes: Vec<String> = Vec::new();
    if let Some(PlistValue::Array(types)) = get(dict, "CFBundleURLTypes") {
        let mut i: usize = 0;
        while i < types.len()
            invariant
                i <= types@.len(),
                views(url_schemes@) == types_schemes(types@.take(i as int)),
            decreases types@.len() - i,
        {
            assert(types@.take(i + 1).drop_last() =~= types@.take(i as int));
            assert(types@.take(i + 1).last() == types@[i as int]);
            let ghost before = views(url_schemes@);
            if let PlistValue::Dictionary(d) = &types[i] {
                if let Some(PlistValue::Array(xs)) = get(d, "CFBundleURLSchemes") {
                    push_strings(&mut url_schemes, xs);
                } else {
                    assert(before + Seq::<Seq<char>>::empty() =~= before);
                }
            } else {
                assert(before + Seq::<Seq<char>>::empty() =~= before);
            }
            i = i + 1;
        }
        assert(types@.take(types@.len() as int) =~= types@);
    } else {
        assert(views(url_schemes@) =~= Seq::<Seq<char>>::empty());
    }
    assert(views(url_schemes@) == bundle_schemes(dict@));
    assert(name@ == bundle_name(dict@, fallback_name@));
    assert(as_string(dict_get(dict@, "CFBundleIdentifier"@)) == Some(bundle_id@));
    Some(BundleInfo { name, bundle_id, url_schemes })
}

/// The bundle an application's `Info.plist` describes, if it could be read.
pub fn read_bundle_info(plist: Option<&PlistValue>, fallback_name: &str) -> (res: Option<BundleInfo>)
    ensures
        plist.is_none() ==> res.is_none(),
        match plist {
            Some(PlistValue::Dictionary(d)) => match res {
                Some(info) => describes(info, d@, fallback_name@),
                None => as_string(dict_get(d@, "CFBundleIdentifier"@)).is_none(),
            },
            _ => res.is_none(),
        },
{
    match plist {
        Some(v) => from_plist(v, fallback_name),
        None => None,
    }
}

/// The outcome of asking macOS to make `br` the default browser: the user
/// always confirms it in System Settings, which is opened for them.
pub fn registration_outcome() -> (res: RegisterOutcome)
    ensures
        res matches RegisterOutcome::NeedsManualConfirmation { instructions } && instructions@
            == "br cannot register itself as the default browser automatically on macOS. System Settings > General > Default web browser has been opened — select 'BrowserRouter' (or its app name) from the list."@,
{
    RegisterOutcome::NeedsManualConfirmation {
        instructions: owned(
            "br cannot register itself as the default browser automatically on macOS. System Settings > General > Default web browser has been opened — select 'BrowserRouter' (or its app name) from the list.",
        ),
    }
}

/// The frontmost application's name from `osascript`'s output: none when
/// the call failed or printed only white space.
pub fn frontmost_app_name(success: bool, stdout: &str) -> (res: Option<String>)
    ensures
        !success ==> res.is_none(),
        success ==> if trim(stdout@).len() == 0 {
            res.is_none()
        } else {
            res matches Some(n) && n@ == trim(stdout@)
        },
{
    if !success {
        return None;
    }
    let name = trim_str(stdout);
    if name.as_str().is_empty() {
        None
    } else {
        Some(name)
    }
}

/// The browser an application bundle at `path` offers, as (id, name, kind,
/// executable): present when it handles `http`/`https`.
pub open spec fn bundle_offer(path: Seq<char>, info: BundleInfo) -> Option<(Seq<char>, Seq<char>, Seq<char>, Seq<char>)> {
    if handles_http(views(info.url_schemes@)) {
        Some((spec_slug(info.name@), info.name@, spec_classify(lower_case(info.name@)), path))
    } else {
        None
    }
}

/// The browsers the bundles offer, in order, keeping the first of each id.
pub open spec fn bundle_offers(bundles: Seq<(String, BundleInfo)>) -> Seq<(Seq<char>, Seq<char>, Seq<char>, Seq<char>)>
    decreases bundles.len(),
{
    if bundles.len() == 0 {
        Seq::empty()
    } else {
        let r = bundle_offers(bundles.drop_last());
        match bundle_offer(bundles.last().0@, bundles.last().1) {
            Some(o) => if exists|j: int| 0 <= j < r.len() && (#[trigger] r[j]).0 == o.0 {
                r
            } else {
                r.push(o)
            },
            None => r,
        }
    }
}

/// The browsers offered by the application bundles found, each given by its
/// path and what its `Info.plist` says, in the order of the application
/// directories.
pub fn targets_from_bundles(bundles: Vec<(String, BundleInfo)>) -> (res: Vec<BrowserTarget>)
    ensures
        res@.map_values(|b: BrowserTarget| target_offer(b)) == bundle_offers(bundles@),
        forall|i: int| 0 <= i < res@.len() ==> is_plain_target(#[trigger] res@[i]),
{
    let ghost all = bundles@;
    let mut rest = bundles;
    let total = rest.len();
    let mut k: usize = 0;
    let mut res: Vec<BrowserTarget> = Vec::new();
    while rest.len() > 0
        invariant
            total == all.len(),
            k + rest@.len() == all.len(),
            rest@ == all.skip(k as int),
            res@.map_values(|b: BrowserTarget| target_offer(b)) == bundle_offers(all.take(k as int)),
            forall|m: int| 0 <= m < res@.len() ==> is_plain_target(#[trigger] res@[m]),
        decreases rest@.len(),
    {
        let (path, info) = rest.remove(0);
        let ghost before = res@;
        let ghost r = bundle_offers(all.take(k as int));
        assert(all.take(k + 1).drop_last() =~= all.take(k as int));
        assert(all.take(k + 1).last() == (path, info));
        assert(rest@ =~= all.skip(k + 1));
        if info.is_browser() {
            let id = slug(info.name.as_str());
            let mut seen = false;
            let mut j: usize = 0;
            while j < res.len()
                invariant
                    j <= res@.len(),
                    res@ == before,
                    !seen ==> forall|m: int| 0 <= m < j ==> (#[trigger] res@[m]).id@ != id@,
                    seen ==> exists|m: int| 0 <= m < res@.len() && (#[trigger] res@[m]).id@ == id@,
                decreases res@.len() - j,
            {
                if eq_str(res[j].id.as_str(), id.as_str()) {
                    seen = true;
                }
                j = j + 1;
            }
            proof {
                let mv = before.map_values(|b: BrowserTarget| target_offer(b));
                if seen {
                    let m = choose|m: int| 0 <= m < res@.len() && (#[trigger] res@[m]).id@ == id@;
                    assert(mv[m].0 == id@);
                } else {
                    assert forall|m: int| 0 <= m < r.len() implies (#[trigger] r[m]).0 != id@ by {
                        assert(r[m] == mv[m]);
                    }
                }
            }
            if !seen {
                let kind = owned(classify(info.name.as_str()));
                res.push(
                    BrowserTarget {
                        id,
                        name: info.name,
                        kind,
                        executable: path,
                        args: Vec::new(),
                        profile_dir: None,
                        profile_name: None,
                        icon: None,
                        hidden: false,
                    },
                );
                assert(res@.map_values(|b: BrowserTarget| target_offer(b)) =~= before.map_values(
                    |b: BrowserTarget| target_offer(b),
                ).push(target_offer(res@.last())));
            }
        }
        k = k + 1;
    }
    assert(all.take(k as int) =~= all);
    res
}

} // verus!
