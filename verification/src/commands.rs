//! The decisions behind the frontend's commands: which apps are enabled, the stored
//! string sets, favorites, folder grants, the index status breakdown and the settings
//! side effects.

use vstd::prelude::*;

use crate::apps::{copy_entry, dirs_to_scan, opt_text, scan_dirs, texts, views, AppEntry, AppEntryView};
use crate::codec::{base64_bytes, base64_text, decode_base64, encode_base64};
use crate::i18n::{localized, tr, Key, Lang};
use crate::iap::{error_key, IapError};
use crate::text::{concat, has_prefix, same_text, starts_with, trim_slashes, trim_trailing_slashes};

verus! {

// ---------- enabled / disabled apps ----------

/// `path` lies inside `folder` (trailing slashes of `folder` ignored): it starts with the
/// folder followed by `/`. A sibling that merely shares a prefix does not.
pub open spec fn under_folder(path: Seq<char>, folder: Seq<char>) -> bool {
    has_prefix(path, trim_trailing_slashes(folder) + seq!['/'])
}

/// An app is enabled unless its path is explicitly disabled or lies inside a disabled
/// folder.
pub open spec fn is_enabled(path: Seq<char>, disabled_apps: Seq<Seq<char>>, disabled_folders: Seq<Seq<char>>) -> bool {
    &&& !disabled_apps.contains(path)
    &&& forall|i: int| 0 <= i < disabled_folders.len() ==> !under_folder(path, #[trigger] disabled_folders[i])
}

/// Whether `s` is one of the texts of `v`.
pub fn contains_str(v: &Vec<String>, s: &str) -> (r: bool)
    ensures
        r == texts(v@).contains(s@),
{
    let mut i: usize = 0;
    while i < v.len()
        invariant
            i <= v.len(),
            forall|k: int| 0 <= k < i ==> v@[k]@ != s@,
        decreases v.len() - i,
    {
        if same_text(v[i].as_str(), s) {
            assert(texts(v@)[i as int] == s@);
            return true;
        }
        i = i + 1;
    }
    assert forall|k: int| 0 <= k < texts(v@).len() implies texts(v@)[k] != s@ by {
        assert(texts(v@)[k] == v@[k]@);
    }
    false
}

/// Whether `path` lies inside `folder`.
pub fn inside_folder(path: &str, folder: &str) -> (r: bool)
    ensures
        r == under_folder(path@, folder@),
{
    proof {
        reveal_strlit("/");
    }
    let base = trim_slashes(folder);
    let prefix = concat(base.as_str(), "/");
    assert("/"@ =~= seq!['/']);
    starts_with(path, prefix.as_str())
}

/// An app is enabled unless it's explicitly disabled or sits under a disabled folder.
pub fn app_enabled(path: &str, disabled_apps: &Vec<String>, disabled_folders: &Vec<String>) -> (r: bool)
    ensures
        r == is_enabled(path@, texts(disabled_apps@), texts(disabled_folders@)),
{
    if contains_str(disabled_apps, path) {
        return false;
    }
    let mut i: usize = 0;
    while i < disabled_folders.len()
        invariant
            i <= disabled_folders.len(),
            forall|k: int| 0 <= k < i ==> !under_folder(path@, #[trigger] texts(disabled_folders@)[k]),
        decreases disabled_folders.len() - i,
    {
        if inside_folder(path, disabled_folders[i].as_str()) {
            assert(texts(disabled_folders@)[i as int] == disabled_folders@[i as int]@);
            return false;
        }
        assert(texts(disabled_folders@)[i as int] == disabled_folders@[i as int]@);
        i = i + 1;
    }
    true
}

/// The entries of `s` that are enabled, in order.
pub open spec fn enabled_only(s: Seq<AppEntryView>, disabled_apps: Seq<Seq<char>>, disabled_folders: Seq<Seq<char>>) -> Seq<AppEntryView>
    decreases s.len(),
{
    if s.len() == 0 {
        s
    } else if is_enabled(s.last().path, disabled_apps, disabled_folders) {
        enabled_only(s.drop_last(), disabled_apps, disabled_folders).push(s.last())
    } else {
        enabled_only(s.drop_last(), disabled_apps, disabled_folders)
    }
}

/// The launcher's app list: enabled apps only, in index order.
pub fn list_apps(apps: &Vec<AppEntry>, disabled_apps: &Vec<String>, disabled_folders: &Vec<String>) -> (r: Vec<AppEntry>)
    ensures
        views(r@) == enabled_only(views(apps@), texts(disabled_apps@), texts(disabled_folders@)),
{
    let ghost da = texts(disabled_apps@);
    let ghost df = texts(disabled_folders@);
    let mut out: Vec<AppEntry> = Vec::new();
    let mut i: usize = 0;
    while i < apps.len()
        invariant
            da == texts(disabled_apps@),
            df == texts(disabled_folders@),
            i <= apps.len(),
            views(out@) == enabled_only(views(apps@).take(i as int), da, df),
        decreases apps.len() - i,
    {
        let ghost pre = views(apps@).take(i as int);
        assert(views(apps@).take(i + 1).drop_last() =~= pre);
        assert(views(apps@).take(i + 1).last() == apps@[i as int]@);
        if app_enabled(apps[i].path.as_str(), disabled_apps, disabled_folders) {
            let c = copy_entry(&apps[i]);
            out.push(c);
            assert(views(out@) =~= views(out@).drop_last().push(apps@[i as int]@));
        }
        i = i + 1;
    }
    assert(views(apps@).take(apps@.len() as int) =~= views(apps@));
    out
}

/// An indexed app with its enabled flag, for the settings view.
#[derive(Debug)]
pub struct IndexedApp {
    pub name: String,
    pub path: String,
    pub bundle_id: Option<String>,
    pub enabled: bool,
}

/// Every indexed app plus its enabled flag, in index order.
pub fn indexed_apps(apps: &Vec<AppEntry>, disabled_apps: &Vec<String>, disabled_folders: &Vec<String>) -> (r: Vec<IndexedApp>)
    ensures
        r@.len() == apps@.len(),
        forall|i: int| 0 <= i < r@.len() ==> {
            &&& (#[trigger] r@[i]).name@ == apps@[i].name@
            &&& r@[i].path@ == apps@[i].path@
            &&& opt_text(r@[i].bundle_id) == opt_text(apps@[i].bundle_id)
            &&& r@[i].enabled == is_enabled(apps@[i].path@, texts(disabled_apps@), texts(disabled_folders@))
        },
{
    let mut out: Vec<IndexedApp> = Vec::new();
    let mut i: usize = 0;
    while i < apps.len()
        invariant
            i <= apps.len(),
            out@.len() == i,
            forall|k: int| 0 <= k < i ==> {
                &&& (#[trigger] out@[k]).name@ == apps@[k].name@
                &&& out@[k].path@ == apps@[k].path@
                &&& opt_text(out@[k].bundle_id) == opt_text(apps@[k].bundle_id)
                &&& out@[k].enabled == is_enabled(apps@[k].path@, texts(disabled_apps@), texts(disabled_folders@))
            },
        decreases apps.len() - i,
    {
        let a = copy_entry(&apps[i]);
        let enabled = app_enabled(apps[i].path.as_str(), disabled_apps, disabled_folders);
        out.push(IndexedApp { name: a.name, path: a.path, bundle_id: a.bundle_id, enabled });
        i = i + 1;
    }
    out
}

// ---------- stored string sets ----------

/// The elements of `s` without repeats, each at its first occurrence.
pub open spec fn distinct<A>(s: Seq<A>) -> Seq<A>
    decreases s.len(),
{
    if s.len() == 0 {
        s
    } else if s.drop_last().contains(s.last()) {
        distinct(s.drop_last())
    } else {
        distinct(s.drop_last()).push(s.last())
    }
}

/// `s` without the elements equal to `v`.
pub open spec fn without<A>(s: Seq<A>, v: A) -> Seq<A>
    decreases s.len(),
{
    if s.len() == 0 {
        s
    } else if s.last() == v {
        without(s.drop_last(), v)
    } else {
        without(s.drop_last(), v).push(s.last())
    }
}

/// The stored set after making `v` present or absent: the set's texts without repeats,
/// with `v` appended when it becomes present, or removed.
pub open spec fn with_member(set: Seq<Seq<char>>, v: Seq<char>, present: bool) -> Seq<Seq<char>> {
    let d = distinct(set);
    if present {
        if d.contains(v) { d } else { d.push(v) }
    } else {
        without(d, v)
    }
}

/// The stored set after making each of `values` present or absent, in order.
pub open spec fn with_members(set: Seq<Seq<char>>, values: Seq<Seq<char>>, present: bool) -> Seq<Seq<char>>
    decreases values.len(),
{
    if values.len() == 0 {
        distinct(set)
    } else {
        with_member(with_members(set, values.drop_last(), present), values.last(), present)
    }
}

/// What `distinct` keeps is what `s` holds, once each.
pub proof fn lemma_distinct<A>(s: Seq<A>)
    ensures
        forall|x: A| #[trigger] distinct(s).contains(x) == s.contains(x),
        distinct(s).no_duplicates(),
    decreases s.len(),
{
    if s.len() > 0 {
        let d = s.drop_last();
        lemma_distinct(d);
        assert forall|x: A| distinct(s).contains(x) == s.contains(x) by {
            if s.contains(x) {
                let j = choose|j: int| 0 <= j < s.len() && s[j] == x;
                if j < s.len() - 1 {
                    assert(d[j] == x);
                    assert(d.contains(x));
                }
            }
            if d.contains(x) {
                let j = choose|j: int| 0 <= j < d.len() && d[j] == x;
                assert(s[j] == x);
            }
            if !d.contains(s.last()) {
                let e = distinct(d).push(s.last());
                if distinct(d).contains(x) {
                    let j = choose|j: int| 0 <= j < distinct(d).len() && distinct(d)[j] == x;
                    assert(e[j] == x);
                }
                if e.contains(x) {
                    let j = choose|j: int| 0 <= j < e.len() && e[j] == x;
                    if j < distinct(d).len() {
                        assert(distinct(d)[j] == x);
                    }
                }
                assert(e[distinct(d).len() as int] == s.last());
                assert(s[s.len() - 1] == s.last());
            }
        }
        if !d.contains(s.last()) {
            let e = distinct(d).push(s.last());
            assert forall|i: int, j: int| 0 <= i < e.len() && 0 <= j < e.len() && i != j implies e[i] != e[j] by {
                if i == distinct(d).len() || j == distinct(d).len() {
                    if i < distinct(d).len() {
                        assert(distinct(d).contains(e[i]));
                    }
                    if j < distinct(d).len() {
                        assert(distinct(d).contains(e[j]));
                    }
                }
            }
        }
    }
}

/// `without(s, v)` holds exactly the elements of `s` other than `v`, and keeps `s`'s
/// lack of repeats.
pub proof fn lemma_without<A>(s: Seq<A>, v: A)
    ensures
        forall|x: A| #[trigger] without(s, v).contains(x) == (s.contains(x) && x != v),
        s.no_duplicates() ==> without(s, v).no_duplicates(),
    decreases s.len(),
{
    if s.len() > 0 {
        let d = s.drop_last();
        lemma_without(d, v);
        let w = without(d, v);
        assert forall|x: A| without(s, v).contains(x) == (s.contains(x) && x != v) by {
            if s.contains(x) {
                let j = choose|j: int| 0 <= j < s.len() && s[j] == x;
                if j < s.len() - 1 {
                    assert(d[j] == x);
                }
            }
            if d.contains(x) {
                let j = choose|j: int| 0 <= j < d.len() && d[j] == x;
                assert(s[j] == x);
            }
            if s.last() != v {
                let e = w.push(s.last());
                if w.contains(x) {
                    let j = choose|j: int| 0 <= j < w.len() && w[j] == x;
                    assert(e[j] == x);
                }
                if e.contains(x) {
                    let j = choose|j: int| 0 <= j < e.len() && e[j] == x;
                    if j < w.len() {
                        assert(w[j] == x);
                    }
                }
                assert(e[w.len() as int] == s.last());
                assert(s[s.len() - 1] == s.last());
            }
        }
        if s.no_duplicates() {
            assert(d.no_duplicates()) by {
                assert forall|i: int, j: int| 0 <= i < d.len() && 0 <= j < d.len() && i != j implies d[i] != d[j] by {
                    assert(d[i] == s[i] && d[j] == s[j]);
                }
            }
            if s.last() != v {
                let e = w.push(s.last());
                assert(!d.contains(s.last())) by {
                    if d.contains(s.last()) {
                        let j = choose|j: int| 0 <= j < d.len() && d[j] == s.last();
                        assert(s[j] == s[s.len() - 1]);
                    }
                }
                assert forall|i: int, j: int| 0 <= i < e.len() && 0 <= j < e.len() && i != j implies e[i] != e[j] by {
                    if i < w.len() {
                        assert(w.contains(e[i]));
                    }
                    if j < w.len() {
                        assert(w.contains(e[j]));
                    }
                }
            }
        }
    }
}

/// The texts of `v` without repeats, each at its first occurrence.
pub fn distinct_strings(v: &Vec<String>) -> (r: Vec<String>)
    ensures
        texts(r@) == distinct(texts(v@)),
{
    let ghost tv = texts(v@);
    let mut out: Vec<String> = Vec::new();
    let mut i: usize = 0;
    while i < v.len()
        invariant
            tv == texts(v@),
            i <= v.len(),
            texts(out@) == distinct(tv.take(i as int)),
        decreases v.len() - i,
    {
        let ghost pre = tv.take(i as int);
        assert(tv.take(i + 1).drop_last() =~= pre);
        assert(tv.take(i + 1).last() == v@[i as int]@);
        proof {
            lemma_distinct(pre);
        }
        if !contains_str(&out, v[i].as_str()) {
            let ghost before = out@;
            out.push(v[i].clone());
            assert(texts(out@) =~= texts(before).push(v@[i as int]@));
        }
        i = i + 1;
    }
    assert(tv.take(v@.len() as int) =~= tv);
    out
}

/// `v`'s texts other than `s`, in order.
fn strings_without(v: &Vec<String>, s: &str) -> (r: Vec<String>)
    ensures
        texts(r@) == without(texts(v@), s@),
{
    let ghost tv = texts(v@);
    let mut out: Vec<String> = Vec::new();
    let mut i: usize = 0;
    while i < v.len()
        invariant
            tv == texts(v@),
            i <= v.len(),
            texts(out@) == without(tv.take(i as int), s@),
        decreases v.len() - i,
    {
        assert(tv.take(i + 1).drop_last() =~= tv.take(i as int));
        assert(tv.take(i + 1).last() == v@[i as int]@);
        if !same_text(v[i].as_str(), s) {
            let ghost before = out@;
            out.push(v[i].clone());
            assert(texts(out@) =~= texts(before).push(v@[i as int]@));
        }
        i = i + 1;
    }
    assert(tv.take(v@.len() as int) =~= tv);
    out
}

/// The stored string set after making `value` present (`present`) or absent: what
/// `set_app_disabled` and `set_folder_disabled` write back.
pub fn set_membership(set: &Vec<String>, value: &str, present: bool) -> (r: Vec<String>)
    ensures
        texts(r@) == with_member(texts(set@), value@, present),
{
    let d = distinct_strings(set);
    if present {
        if contains_str(&d, value) {
            d
        } else {
            let mut d = d;
            let ghost before = d@;
            d.push(String::from_str(value));
            assert(texts(d@) =~= texts(before).push(value@));
            d
        }
    } else {
        strings_without(&d, value)
    }
}

/// The stored string set after making each of `values` present or absent: what
/// `set_apps_disabled` writes back.
pub fn set_members(set: &Vec<String>, values: &Vec<String>, present: bool) -> (r: Vec<String>)
    ensures
        texts(r@) == with_members(texts(set@), texts(values@), present),
{
    let ghost tv = texts(values@);
    let mut cur = distinct_strings(set);
    let mut i: usize = 0;
    while i < values.len()
        invariant
            tv == texts(values@),
            i <= values.len(),
            texts(cur@) == with_members(texts(set@), tv.take(i as int), present),
        decreases values.len() - i,
    {
        assert(tv.take(i + 1).drop_last() =~= tv.take(i as int));
        assert(tv.take(i + 1).last() == values@[i as int]@);
        let next = set_membership(&cur, values[i].as_str(), present);
        proof {
            lemma_distinct(texts(cur@));
            lemma_distinct_idempotent(texts(cur@));
        }
        cur = next;
        i = i + 1;
    }
    assert(tv.take(values@.len() as int) =~= tv);
    cur
}

/// `distinct` of a sequence without repeats is the sequence itself.
pub proof fn lemma_distinct_of_unique<A>(s: Seq<A>)
    requires
        s.no_duplicates(),
    ensures
        distinct(s) == s,
    decreases s.len(),
{
    if s.len() > 0 {
        let d = s.drop_last();
        assert(d.no_duplicates()) by {
            assert forall|i: int, j: int| 0 <= i < d.len() && 0 <= j < d.len() && i != j implies d[i] != d[j] by {
                assert(d[i] == s[i] && d[j] == s[j]);
            }
        }
        lemma_distinct_of_unique(d);
        assert(!d.contains(s.last())) by {
            if d.contains(s.last()) {
                let j = choose|j: int| 0 <= j < d.len() && d[j] == s.last();
                assert(s[j] == s[s.len() - 1]);
            }
        }
        assert(d.push(s.last()) =~= s);
    }
}

/// `distinct` is idempotent.
pub proof fn lemma_distinct_idempotent<A>(s: Seq<A>)
    ensures
        distinct(distinct(s)) == distinct(s),
{
    lemma_distinct(s);
    lemma_distinct_of_unique(distinct(s));
}

// ---------- favorites ----------

/// The most favorites kept.
pub const MAX_FAVORITES: usize = 10;

/// The favorites list stored for a requested list: de-duplicated (first occurrence
/// wins) and capped at [`MAX_FAVORITES`], order kept.
pub open spec fn favorites_list(paths: Seq<Seq<char>>) -> Seq<Seq<char>> {
    let d = distinct(paths);
    if d.len() <= MAX_FAVORITES { d } else { d.take(MAX_FAVORITES as int) }
}

/// De-duplicates and caps a requested favorites list.
pub fn capped_favorites(paths: &Vec<String>) -> (r: Vec<String>)
    ensures
        texts(r@) == favorites_list(texts(paths@)),
{
    let mut d = distinct_strings(paths);
    if d.len() > MAX_FAVORITES {
        let ghost before = d@;
        d.truncate(MAX_FAVORITES);
        assert(texts(d@) =~= texts(before).take(MAX_FAVORITES as int));
    }
    d
}

/// The favorites list to store when the user replaces it (add / remove / reorder in one
/// call): de-duplicated and capped; refused with the localized "unlock first" message when
/// favorites are not unlocked.
pub fn set_favorites(unlocked: bool, lang: Lang, paths: &Vec<String>) -> (r: Result<Vec<String>, String>)
    ensures
        unlocked ==> (r matches Ok(v) && texts(v@) == favorites_list(texts(paths@))),
        !unlocked ==> (r matches Err(e) && e@ == localized(lang, Key::ErrUnlockFavorites)),
{
    if !unlocked {
        return Err(String::from_str(tr(lang, Key::ErrUnlockFavorites)));
    }
    Ok(capped_favorites(paths))
}

/// Has the user bought the favorites unlock? True if the store backend reports the
/// entitlement, or the persisted mirror flag is set.
pub fn favorites_purchased(stored_flag: bool) -> (r: bool)
    ensures
        r == stored_flag,
{
    crate::iap::is_purchased() || stored_flag
}

/// Are favorites usable right now? Purchased forever, or unlocked for this session.
pub fn favorites_unlocked(stored_flag: bool, session_unlocked: bool) -> (r: bool)
    ensures
        r == (stored_flag || session_unlocked),
{
    favorites_purchased(stored_flag) || session_unlocked
}

/// Entitlement and product information for the paywall.
#[derive(Debug)]
pub struct FavoritesStatus {
    pub unlocked: bool,
    pub purchased: bool,
    pub purchasable: bool,
    pub price: Option<String>,
}

/// The paywall's view of the entitlement.
pub fn favorites_status(stored_flag: bool, session_unlocked: bool) -> (r: FavoritesStatus)
    ensures
        r.unlocked == (stored_flag || session_unlocked),
        r.purchased == stored_flag,
        !r.purchasable,
        r.price.is_none(),
{
    FavoritesStatus {
        unlocked: favorites_unlocked(stored_flag, session_unlocked),
        purchased: favorites_purchased(stored_flag),
        purchasable: crate::iap::purchasable(),
        price: crate::iap::price(),
    }
}

/// The localized message for a purchase failure.
pub fn iap_error_message(e: IapError, lang: Lang) -> (r: String)
    ensures
        r@ == localized(lang, error_key(e)),
{
    String::from_str(tr(lang, e.key()))
}

/// Buys the unlock. `Ok` means the purchase went through and the mirror flag is to be
/// persisted; otherwise the localized failure message.
pub fn purchase_favorites(lang: Lang) -> (r: Result<(), String>)
    ensures
        r matches Err(e) && e@ == localized(lang, Key::IapStoreOnly),
{
    match crate::iap::purchase() {
        Ok(()) => Ok(()),
        Err(e) => Err(iap_error_message(e, lang)),
    }
}

/// Restores a previous purchase. `Ok(true)` means something was restored and the mirror
/// flag is to be persisted; otherwise the localized failure message.
pub fn restore_favorites(lang: Lang) -> (r: Result<bool, String>)
    ensures
        r matches Err(e) && e@ == localized(lang, Key::IapStoreOnly),
{
    match crate::iap::restore() {
        Ok(b) => Ok(b),
        Err(e) => Err(iap_error_message(e, lang)),
    }
}

// ---------- launch counts ----------

/// The launch count recorded for an app whose stored count is `previous` (missing or
/// not a number counts as 0).
pub fn frecency_count(previous: Option<u64>) -> (r: u64)
    requires
        previous != Some(u64::MAX),
    ensures
        r == (match previous { Some(c) => c + 1, None => 1 }),
{
    match previous {
        Some(c) => c + 1,
        None => 1,
    }
}

/// The (path, count) values of a launch-count table.
pub open spec fn launch_view(t: Seq<(String, Option<u64>)>) -> Seq<(Seq<char>, Option<u64>)> {
    t.map_values(|e: (String, Option<u64>)| (e.0@, e.1))
}

/// `i` is the first entry of `t` for `path`.
pub open spec fn first_entry_for(t: Seq<(Seq<char>, Option<u64>)>, path: Seq<char>, i: int) -> bool {
    &&& 0 <= i < t.len()
    &&& t[i].0 == path
    &&& forall|j: int| 0 <= j < i ==> (#[trigger] t[j]).0 != path
}

/// The table after one more launch of `path`: its entry now holds the previous count
/// plus one (a missing count counting as 0), or a new entry with count 1 is added at the
/// end; every other entry is kept as it was.
pub open spec fn launched(t: Seq<(Seq<char>, Option<u64>)>, path: Seq<char>) -> Seq<(Seq<char>, Option<u64>)> {
    if exists|i: int| first_entry_for(t, path, i) {
        let i = choose|i: int| first_entry_for(t, path, i);
        let c: int = match t[i].1 { Some(c) => c as int, None => 0 };
        t.update(i, (path, Some((c + 1) as u64)))
    } else {
        t.push((path, Some(1u64)))
    }
}

/// The count stored for `path`, if it has an entry with a count.
pub open spec fn stored_launch_count(t: Seq<(Seq<char>, Option<u64>)>, path: Seq<char>) -> Option<u64> {
    if exists|i: int| first_entry_for(t, path, i) {
        t[choose|i: int| first_entry_for(t, path, i)].1
    } else {
        None
    }
}

/// An app has at most one first entry.
pub proof fn lemma_first_entry_unique(t: Seq<(Seq<char>, Option<u64>)>, path: Seq<char>, a: int, b: int)
    requires
        first_entry_for(t, path, a),
        first_entry_for(t, path, b),
    ensures
        a == b,
{
    if a < b {
        assert(t[a].0 != path);
    } else if b < a {
        assert(t[b].0 != path);
    }
}

/// An entry for `path` at `m` means `path` has a first entry.
pub proof fn lemma_first_entry_exists(t: Seq<(Seq<char>, Option<u64>)>, path: Seq<char>, m: int)
    requires
        0 <= m < t.len(),
        t[m].0 == path,
    ensures
        exists|i: int| first_entry_for(t, path, i),
    decreases m,
{
    if exists|j: int| 0 <= j < m && (#[trigger] t[j]).0 == path {
        let j = choose|j: int| 0 <= j < m && (#[trigger] t[j]).0 == path;
        lemma_first_entry_exists(t, path, j);
    } else {
        assert(first_entry_for(t, path, m));
    }
}

/// Whether `j` is the first entry for a key depends only on the keys up to `j`.
pub proof fn lemma_first_entry_same_keys(
    t: Seq<(Seq<char>, Option<u64>)>,
    t2: Seq<(Seq<char>, Option<u64>)>,
    key: Seq<char>,
    j: int,
)
    requires
        0 <= j < t.len(),
        j < t2.len(),
        forall|m: int| 0 <= m <= j ==> (#[trigger] t2[m]).0 == t[m].0,
    ensures
        first_entry_for(t2, key, j) == first_entry_for(t, key, j),
{
    assert(t2[j].0 == t[j].0);
    if first_entry_for(t, key, j) {
        assert forall|m: int| 0 <= m < j implies (#[trigger] t2[m]).0 != key by {
            assert(t[m].0 != key);
        }
    }
    if first_entry_for(t2, key, j) {
        assert forall|m: int| 0 <= m < j implies (#[trigger] t[m]).0 != key by {
            assert(t2[m].0 != key);
        }
    }
}

/// The launched table's counts: `path` gets its new count, any other key keeps its own.
pub proof fn lemma_launched_counts(t: Seq<(Seq<char>, Option<u64>)>, path: Seq<char>, other: Seq<char>)
    requires
        stored_launch_count(t, path) != Some(u64::MAX),
        other != path,
    ensures
        stored_launch_count(launched(t, path), other) == stored_launch_count(t, other),
{
    let t2 = launched(t, path);
    let found = exists|i: int| first_entry_for(t, path, i);
    let i = choose|i: int| first_entry_for(t, path, i);
    assert forall|j: int| #[trigger] first_entry_for(t2, other, j) ==> first_entry_for(t, other, j) && t2[j] == t[j] by {
        if first_entry_for(t2, other, j) {
            if j < t.len() {
                assert forall|m: int| 0 <= m <= j implies (#[trigger] t2[m]).0 == t[m].0 by {
                    if found && m == i {
                        assert(t2[m].0 == path && t[m].0 == path);
                    }
                }
                lemma_first_entry_same_keys(t, t2, other, j);
                if found && j == i {
                    assert(t[j].0 == path);
                }
            } else {
                assert(t2[j].0 == path);
            }
        }
    }
    if exists|j: int| first_entry_for(t, other, j) {
        let j1 = choose|j: int| first_entry_for(t, other, j);
        assert forall|m: int| 0 <= m <= j1 implies (#[trigger] t2[m]).0 == t[m].0 by {
            if found && m == i {
                assert(t2[m].0 == path && t[m].0 == path);
            }
        }
        lemma_first_entry_same_keys(t, t2, other, j1);
        let j2 = choose|j: int| first_entry_for(t2, other, j);
        lemma_first_entry_unique(t, other, j1, j2);
    }
}

/// Records one launch of the app at `path` in the launch-count table (each app's stored
/// count, `None` where its entry holds no number) and returns its new count.
pub fn record_launch(table: &mut Vec<(String, Option<u64>)>, path: &str) -> (r: u64)
    requires
        stored_launch_count(launch_view(old(table)@), path@) != Some(u64::MAX),
    ensures
        launch_view(final(table)@) == launched(launch_view(old(table)@), path@),
        r == (match stored_launch_count(launch_view(old(table)@), path@) {
            Some(c) => c + 1,
            None => 1,
        }),
{
    let ghost t0 = launch_view(table@);
    let mut i: usize = 0;
    while i < table.len()
        invariant
            t0 == launch_view(table@),
            t0 == launch_view(old(table)@),
            stored_launch_count(t0, path@) != Some(u64::MAX),
            i <= table.len(),
            forall|j: int| 0 <= j < i ==> (#[trigger] t0[j]).0 != path@,
        decreases table.len() - i,
    {
        if same_text(table[i].0.as_str(), path) {
            assert(first_entry_for(t0, path@, i as int));
            proof {
                let k = choose|k: int| first_entry_for(t0, path@, k);
                if k < i {
                    assert(t0[k].0 != path@);
                } else if k > i {
                    assert(t0[i as int].0 != path@);
                }
                assert(k == i);
                assert(t0[i as int].1 == table@[i as int].1);
            }
            let count = frecency_count(table[i].1);
            let key = table[i].0.clone();
            table.set(i, (key, Some(count)));
            assert(launch_view(table@) =~= launched(t0, path@));
            return count;
        }
        i = i + 1;
    }
    table.push((String::from_str(path), Some(1)));
    assert(launch_view(table@) =~= launched(t0, path@));
    1
}

// ---------- folder grants ----------

/// A persisted folder grant: the folder's path and its security-scoped bookmark, kept as
/// base64 text.
#[derive(Debug, PartialEq)]
pub struct Bookmark {
    pub path: String,
    pub bookmark: String,
}

/// The (path, bookmark text) values of a list of grants.
pub open spec fn grants(v: Seq<Bookmark>) -> Seq<(Seq<char>, Seq<char>)> {
    v.map_values(|b: Bookmark| (b.path@, b.bookmark@))
}

/// The grants of `g` for other paths than `p`, in order.
pub open spec fn grants_without(g: Seq<(Seq<char>, Seq<char>)>, p: Seq<char>) -> Seq<(Seq<char>, Seq<char>)>
    decreases g.len(),
{
    if g.len() == 0 {
        g
    } else if g.last().0 == p {
        grants_without(g.drop_last(), p)
    } else {
        grants_without(g.drop_last(), p).push(g.last())
    }
}

/// The grants other than those for `path`: what `remove_granted_folder` writes back.
pub fn without_bookmark(list: &Vec<Bookmark>, path: &str) -> (r: Vec<Bookmark>)
    ensures
        grants(r@) == grants_without(grants(list@), path@),
{
    let ghost g = grants(list@);
    let mut out: Vec<Bookmark> = Vec::new();
    let mut i: usize = 0;
    while i < list.len()
        invariant
            g == grants(list@),
            i <= list.len(),
            grants(out@) == grants_without(g.take(i as int), path@),
        decreases list.len() - i,
    {
        assert(g.take(i + 1).drop_last() =~= g.take(i as int));
        assert(g.take(i + 1).last() == (list@[i as int].path@, list@[i as int].bookmark@));
        if !same_text(list[i].path.as_str(), path) {
            let ghost before = out@;
            out.push(Bookmark { path: list[i].path.clone(), bookmark: list[i].bookmark.clone() });
            assert(grants(out@) =~= grants(before).push((list@[i as int].path@, list@[i as int].bookmark@)));
        }
        i = i + 1;
    }
    assert(g.take(list@.len() as int) =~= g);
    out
}

/// The grants after granting `path` with bookmark `bytes`: any earlier grant for the same
/// path is replaced, and the new one goes last.
pub fn with_bookmark(list: &Vec<Bookmark>, path: &str, bytes: &[u8]) -> (r: Vec<Bookmark>)
    requires
        bytes@.len() <= usize::MAX / 2,
    ensures
        grants(r@) == grants_without(grants(list@), path@).push((path@, base64_text(bytes@))),
        base64_bytes(grants(r@).last().1) == Some(bytes@),
{
    let mut out = without_bookmark(list, path);
    let ghost before = out@;
    out.push(Bookmark { path: String::from_str(path), bookmark: encode_base64(bytes) });
    assert(grants(out@) =~= grants(before).push((path@, base64_text(bytes@))));
    out
}

/// The bookmark bytes a grant holds, `None` when its text is not valid base64.
pub fn bookmark_bytes(bm: &Bookmark) -> (r: Option<Vec<u8>>)
    ensures
        match r {
            Some(v) => base64_bytes(bm.bookmark@) == Some(v@),
            None => base64_bytes(bm.bookmark@).is_none(),
        },
{
    decode_base64(bm.bookmark.as_str())
}

/// The granted folders' paths, in order.
pub fn list_granted_folders(list: &Vec<Bookmark>) -> (r: Vec<String>)
    ensures
        r@.len() == list@.len(),
        forall|i: int| 0 <= i < r@.len() ==> (#[trigger] r@[i])@ == list@[i].path@,
{
    let mut out: Vec<String> = Vec::new();
    let mut i: usize = 0;
    while i < list.len()
        invariant
            i <= list.len(),
            out@.len() == i,
            forall|k: int| 0 <= k < i ==> (#[trigger] out@[k])@ == list@[k].path@,
        decreases list.len() - i,
    {
        out.push(list[i].path.clone());
        i = i + 1;
    }
    out
}

/// The resolved granted paths after a new grant resolves to `resolved`: added unless
/// already there.
pub fn add_granted(granted: &mut Vec<String>, resolved: String)
    ensures
        texts(final(granted)@) == (if texts(old(granted)@).contains(resolved@) {
            texts(old(granted)@)
        } else {
            texts(old(granted)@).push(resolved@)
        }),
{
    if !contains_str(granted, resolved.as_str()) {
        let ghost before = granted@;
        granted.push(resolved);
        assert(texts(granted@) =~= texts(before).push(resolved@));
    }
}

/// The resolved granted paths after removing the grant for `path`.
pub fn remove_granted(granted: &Vec<String>, path: &str) -> (r: Vec<String>)
    ensures
        texts(r@) == without(texts(granted@), path@),
{
    strings_without(granted, path)
}

/// The first base that covers `target`: a non-empty base equal to it, or of which it is
/// a descendant.
pub open spec fn covering_base(target: Seq<char>, bases: Seq<Seq<char>>) -> Option<Seq<char>>
    decreases bases.len(),
{
    if bases.len() == 0 {
        None
    } else if bases[0].len() > 0 && (target == bases[0] || has_prefix(target, bases[0] + seq!['/'])) {
        Some(bases[0])
    } else {
        covering_base(target, bases.drop_first())
    }
}

/// The trimmed paths of the default scanned locations, then of the granted folders.
pub open spec fn candidate_bases(home: Option<Seq<char>>, g: Seq<(Seq<char>, Seq<char>)>) -> Seq<Seq<char>> {
    scan_dirs(home, Seq::empty()).map_values(|d: Seq<char>| trim_trailing_slashes(d))
        + g.map_values(|b: (Seq<char>, Seq<char>)| trim_trailing_slashes(b.0))
}

/// If `path` is already reachable (equal to, or nested under, a default scanned location
/// or an existing granted folder; trailing slashes ignored), the covering base path.
pub fn folder_already_covered(path: &str, home: Option<&str>, bookmarks: &Vec<Bookmark>) -> (r: Option<String>)
    ensures
        opt_text(r) == covering_base(
            trim_trailing_slashes(path@),
            candidate_bases(match home { Some(h) => Some(h@), None => None }, grants(bookmarks@)),
        ),
{
    proof {
        reveal_strlit("/");
    }
    assert("/"@ =~= seq!['/']);
    let ghost home_v = match home { Some(h) => Some(h@), None => None };
    let target = trim_slashes(path);
    let no_extra: Vec<String> = Vec::new();
    let defaults = dirs_to_scan(home, &no_extra);
    assert(texts(no_extra@) =~= Seq::<Seq<char>>::empty());
    let mut bases: Vec<String> = Vec::new();
    let mut i: usize = 0;
    while i < defaults.len()
        invariant
            texts(defaults@) == scan_dirs(home_v, Seq::empty()),
            i <= defaults.len(),
            texts(bases@) == texts(defaults@).take(i as int).map_values(|d: Seq<char>| trim_trailing_slashes(d)),
        decreases defaults.len() - i,
    {
        let ghost before = bases@;
        let t = trim_slashes(defaults[i].as_str());
        bases.push(t);
        assert(texts(bases@) =~= texts(before).push(trim_trailing_slashes(defaults@[i as int]@)));
        assert(texts(defaults@).take(i + 1) =~= texts(defaults@).take(i as int).push(defaults@[i as int]@));
        assert(texts(bases@) =~= texts(defaults@).take(i + 1).map_values(|d: Seq<char>| trim_trailing_slashes(d)));
        i = i + 1;
    }
    assert(texts(defaults@).take(defaults@.len() as int) =~= texts(defaults@));
    let ghost first = texts(bases@);
    let mut j: usize = 0;
    while j < bookmarks.len()
        invariant
            j <= bookmarks.len(),
            texts(bases@) == first + grants(bookmarks@).take(j as int).map_values(|b: (Seq<char>, Seq<char>)| trim_trailing_slashes(b.0)),
        decreases bookmarks.len() - j,
    {
        let ghost before = bases@;
        let t = trim_slashes(bookmarks[j].path.as_str());
        bases.push(t);
        assert(texts(bases@) =~= texts(before).push(trim_trailing_slashes(bookmarks@[j as int].path@)));
        assert(grants(bookmarks@).take(j + 1) =~= grants(bookmarks@).take(j as int).push((bookmarks@[j as int].path@, bookmarks@[j as int].bookmark@)));
        assert(texts(bases@) =~= first + grants(bookmarks@).take(j + 1).map_values(|b: (Seq<char>, Seq<char>)| trim_trailing_slashes(b.0)));
        j = j + 1;
    }
    assert(grants(bookmarks@).take(bookmarks@.len() as int) =~= grants(bookmarks@));
    let ghost all = texts(bases@);
    assert(all =~= candidate_bases(home_v, grants(bookmarks@)));
    let mut k: usize = 0;
    assert(all.subrange(0, all.len() as int) =~= all);
    while k < bases.len()
        invariant
            all == texts(bases@),
            all == candidate_bases(home_v, grants(bookmarks@)),
            target@ == trim_trailing_slashes(path@),
            home_v == (match home { Some(h) => Some(h@), None => None }),
            k <= bases.len(),
            "/"@ == seq!['/'],
            covering_base(target@, all) == covering_base(target@, all.subrange(k as int, all.len() as int)),
        decreases bases.len() - k,
    {
        let ghost rest = all.subrange(k as int, all.len() as int);
        assert(rest[0] == bases@[k as int]@);
        let base = bases[k].as_str();
        let prefix = concat(base, "/");
        if base.unicode_len() > 0 && (same_text(target.as_str(), base) || starts_with(target.as_str(), prefix.as_str())) {
            let found = bases[k].clone();
            assert(rest[0].len() > 0);
            assert(target@ == rest[0] || has_prefix(target@, rest[0] + seq!['/']));
            assert(covering_base(target@, rest) == Some(rest[0]));
            return Some(found);
        }
        assert(rest.drop_first() =~= all.subrange(k + 1, all.len() as int));
        k = k + 1;
    }
    None
}

// ---------- index status ----------

/// One scanned location in the index status breakdown.
#[derive(Debug)]
pub struct DirInfo {
    pub path: String,
    /// `"system"` or `"granted"`.
    pub kind: String,
    /// How many indexed apps lie inside it.
    pub count: usize,
    pub readable: bool,
    pub disabled: bool,
}

/// A snapshot of the index for the settings view.
#[derive(Debug)]
pub struct IndexStatus {
    pub indexing: bool,
    pub count: usize,
    pub last_indexed_ms: Option<u64>,
    pub dirs: Vec<DirInfo>,
}

/// How many entries of `apps` have a path starting with `prefix`.
pub open spec fn count_under(apps: Seq<AppEntryView>, prefix: Seq<char>) -> nat
    decreases apps.len(),
{
    if apps.len() == 0 {
        0
    } else {
        count_under(apps.drop_last(), prefix) + (if has_prefix(apps.last().path, prefix) { 1nat } else { 0nat })
    }
}

/// The breakdown entry a scanned directory gets.
pub open spec fn dir_info_for(
    dir: Seq<char>,
    apps: Seq<AppEntryView>,
    granted: Seq<Seq<char>>,
    disabled_folders: Seq<Seq<char>>,
    readable: bool,
) -> (Seq<char>, Seq<char>, nat, bool, bool) {
    (
        dir,
        if granted.contains(dir) { "granted"@ } else { "system"@ },
        count_under(apps, trim_trailing_slashes(dir) + seq!['/']),
        readable,
        disabled_folders.contains(dir),
    )
}

/// The values of a breakdown.
pub open spec fn dir_rows(v: Seq<DirInfo>) -> Seq<(Seq<char>, Seq<char>, nat, bool, bool)> {
    v.map_values(|d: DirInfo| (d.path@, d.kind@, d.count as nat, d.readable, d.disabled))
}

/// The breakdown of `dirs` (with `readable[i]` telling whether `dirs[i]` can be read),
/// keeping granted folders always and system locations only when readable.
pub open spec fn dir_breakdown(
    dirs: Seq<Seq<char>>,
    readable: Seq<bool>,
    apps: Seq<AppEntryView>,
    granted: Seq<Seq<char>>,
    disabled_folders: Seq<Seq<char>>,
) -> Seq<(Seq<char>, Seq<char>, nat, bool, bool)>
    decreases dirs.len(),
{
    if dirs.len() == 0 || readable.len() != dirs.len() {
        Seq::empty()
    } else {
        let rest = dir_breakdown(dirs.drop_last(), readable.drop_last(), apps, granted, disabled_folders);
        if granted.contains(dirs.last()) || readable.last() {
            rest.push(dir_info_for(dirs.last(), apps, granted, disabled_folders, readable.last()))
        } else {
            rest
        }
    }
}

/// Counts the apps inside the folder whose prefix is `prefix`.
fn count_apps_under(apps: &Vec<AppEntry>, prefix: &str) -> (r: usize)
    ensures
        r as nat == count_under(views(apps@), prefix@),
{
    let mut n: usize = 0;
    let mut i: usize = 0;
    while i < apps.len()
        invariant
            i <= apps.len(),
            n <= i,
            n as nat == count_under(views(apps@).take(i as int), prefix@),
        decreases apps.len() - i,
    {
        assert(views(apps@).take(i + 1).drop_last() =~= views(apps@).take(i as int));
        assert(views(apps@).take(i + 1).last() == apps@[i as int]@);
        if starts_with(apps[i].path.as_str(), prefix) {
            n = n + 1;
        }
        i = i + 1;
    }
    assert(views(apps@).take(apps@.len() as int) =~= views(apps@));
    n
}

/// The per-folder breakdown of the index status: for each scanned directory, its kind,
/// how many indexed apps lie inside it, whether it is readable and whether it is
/// disabled; unreadable system locations are left out, granted folders always kept (so a
/// stale grant can be removed).
pub fn dir_infos(
    dirs: &Vec<String>,
    readable: &Vec<bool>,
    apps: &Vec<AppEntry>,
    granted: &Vec<String>,
    disabled_folders: &Vec<String>,
) -> (r: Vec<DirInfo>)
    requires
        readable@.len() == dirs@.len(),
    ensures
        dir_rows(r@) == dir_breakdown(texts(dirs@), readable@, views(apps@), texts(granted@), texts(disabled_folders@)),
{
    proof {
        reveal_strlit("/");
        reveal_strlit("granted");
        reveal_strlit("system");
    }
    assert("/"@ =~= seq!['/']);
    let ghost td = texts(dirs@);
    let mut out: Vec<DirInfo> = Vec::new();
    let mut i: usize = 0;
    while i < dirs.len()
        invariant
            td == texts(dirs@),
            readable@.len() == dirs@.len(),
            "/"@ == seq!['/'],
            i <= dirs.len(),
            dir_rows(out@) == dir_breakdown(td.take(i as int), readable@.take(i as int), views(apps@), texts(granted@), texts(disabled_folders@)),
        decreases dirs.len() - i,
    {
        assert(td.take(i + 1).drop_last() =~= td.take(i as int));
        assert(readable@.take(i + 1).drop_last() =~= readable@.take(i as int));
        assert(td.take(i + 1).last() == dirs@[i as int]@);
        assert(readable@.take(i + 1).last() == readable@[i as int]);
        let p = dirs[i].as_str();
        let is_granted = contains_str(granted, p);
        if is_granted || readable[i] {
            let base = trim_slashes(p);
            let prefix = concat(base.as_str(), "/");
            let count = count_apps_under(apps, prefix.as_str());
            let kind = if is_granted { String::from_str("granted") } else { String::from_str("system") };
            let disabled = contains_str(disabled_folders, p);
            let ghost before = out@;
            out.push(DirInfo { path: dirs[i].clone(), kind, count, readable: readable[i], disabled });
            assert(dir_rows(out@) =~= dir_rows(before).push(dir_info_for(dirs@[i as int]@, views(apps@), texts(granted@), texts(disabled_folders@), readable@[i as int])));
        }
        i = i + 1;
    }
    assert(td.take(dirs@.len() as int) =~= td);
    assert(readable@.take(dirs@.len() as int) =~= readable@);
    out
}

/// The index status snapshot.
pub fn index_status(
    indexing: bool,
    apps: &Vec<AppEntry>,
    last_indexed_ms: Option<u64>,
    dirs: &Vec<String>,
    readable: &Vec<bool>,
    granted: &Vec<String>,
    disabled_folders: &Vec<String>,
) -> (r: IndexStatus)
    requires
        readable@.len() == dirs@.len(),
    ensures
        r.indexing == indexing,
        r.count == apps@.len(),
        r.last_indexed_ms == last_indexed_ms,
        dir_rows(r.dirs@) == dir_breakdown(texts(dirs@), readable@, views(apps@), texts(granted@), texts(disabled_folders@)),
{
    IndexStatus {
        indexing,
        count: apps.len(),
        last_indexed_ms,
        dirs: dir_infos(dirs, readable, apps, granted, disabled_folders),
    }
}

/// Whether the real `~/Applications` is unreadable, and where it is.
#[derive(Debug)]
pub struct AccessStatus {
    pub limited: bool,
    pub suggested_path: String,
}

/// The real `~/Applications`, given `HOME` (if set).
pub fn suggested_apps_folder(home: Option<&str>) -> (r: Option<String>)
    ensures
        match home {
            None => r.is_none(),
            Some(h) => r matches Some(s) && s@ == crate::text::joined(crate::permissions::real_home_of(h@), "Applications"@),
        },
{
    proof {
        reveal_strlit("Applications");
    }
    match crate::permissions::real_home(home) {
        Some(h) => Some(crate::text::join_component(h.as_str(), "Applications")),
        None => None,
    }
}

/// The access status: limited when the suggested folder exists but cannot be read; with
/// no home directory, not limited and no suggestion.
pub fn access_status(suggested: Option<String>, readable: bool) -> (r: AccessStatus)
    ensures
        match suggested {
            Some(s) => r.limited == !readable && r.suggested_path@ == s@,
            None => !r.limited && r.suggested_path@.len() == 0,
        },
{
    match suggested {
        Some(s) => AccessStatus { limited: !readable, suggested_path: s },
        None => AccessStatus { limited: false, suggested_path: String::new() },
    }
}

// ---------- settings ----------

/// The settings the frontend reads: each default key with its stored value when there is
/// one, else its default.
pub fn merge_settings<V>(defaults: Vec<(String, V)>, stored: Vec<Option<V>>) -> (r: Vec<(String, V)>)
    requires
        stored@.len() == defaults@.len(),
    ensures
        r@.len() == defaults@.len(),
        forall|i: int| 0 <= i < r@.len() ==> (#[trigger] r@[i]).0@ == defaults@[i].0@ && r@[i].1 == (match stored@[i] {
            Some(v) => v,
            None => defaults@[i].1,
        }),
{
    let mut out: Vec<(String, V)> = Vec::new();
    let mut defaults = defaults;
    let mut stored = stored;
    let ghost d0 = defaults@;
    let ghost s0 = stored@;
    let n = defaults.len();
    while defaults.len() > 0
        invariant
            n == d0.len(),
            s0.len() == d0.len(),
            defaults@.len() == stored@.len(),
            out@.len() + defaults@.len() == n,
            defaults@ == d0.subrange(out@.len() as int, n as int),
            stored@ == s0.subrange(out@.len() as int, n as int),
            forall|i: int| 0 <= i < out@.len() ==> (#[trigger] out@[i]).0@ == d0[i].0@ && out@[i].1 == (match s0[i] {
                Some(v) => v,
                None => d0[i].1,
            }),
        decreases defaults@.len(),
    {
        let (k, dv) = defaults.remove(0);
        let sv = stored.remove(0);
        let v = match sv {
            Some(v) => v,
            None => dv,
        };
        out.push((k, v));
        assert(defaults@ =~= d0.subrange(out@.len() as int, n as int));
        assert(stored@ =~= s0.subrange(out@.len() as int, n as int));
    }
    out
}

/// The default global shortcut.
pub const DEFAULT_SHORTCUT: &'static str = "CmdOrCtrl+Shift+Space";

/// The stored shortcut, or the default when unset or not a string.
pub fn current_shortcut(stored: Option<String>) -> (r: String)
    ensures
        r@ == (match stored { Some(s) => s@, None => DEFAULT_SHORTCUT@ }),
{
    match stored {
        Some(s) => s,
        None => String::from_str(DEFAULT_SHORTCUT),
    }
}

/// The saved theme preference, `"system"` when unset or not a string.
pub fn current_theme(stored: Option<String>) -> (r: String)
    ensures
        r@ == (match stored { Some(s) => s@, None => "system"@ }),
{
    match stored {
        Some(s) => s,
        None => String::from_str("system"),
    }
}

/// The launcher's saved surface style, `"glass"` when unset or not a string.
pub fn current_launcher_style(stored: Option<String>) -> (r: String)
    ensures
        r@ == (match stored { Some(s) => s@, None => "glass"@ }),
{
    match stored {
        Some(s) => s,
        None => String::from_str("glass"),
    }
}

/// A default settings value: a string, a flag, a count or an empty object.
#[derive(Debug, PartialEq)]
pub enum SettingValue {
    Text(String),
    Flag(bool),
    Count(u64),
    EmptyObject,
}

/// The mathematical value of a [`SettingValue`].
pub ghost enum SettingValueView {
    Text(Seq<char>),
    Flag(bool),
    Count(nat),
    EmptyObject,
}

impl View for SettingValue {
    type V = SettingValueView;

    open spec fn view(&self) -> SettingValueView {
        match self {
            SettingValue::Text(s) => SettingValueView::Text(s@),
            SettingValue::Flag(b) => SettingValueView::Flag(*b),
            SettingValue::Count(n) => SettingValueView::Count(*n as nat),
            SettingValue::EmptyObject => SettingValueView::EmptyObject,
        }
    }
}

/// The settings keys the frontend reads, in order, each with its default.
pub open spec fn settings_defaults() -> Seq<(Seq<char>, SettingValueView)> {
    seq![
        ("shortcut"@, SettingValueView::Text(DEFAULT_SHORTCUT@)),
        ("menubar_visible"@, SettingValueView::Flag(true)),
        ("theme"@, SettingValueView::Text("system"@)),
        ("launcher_style"@, SettingValueView::Text("glass"@)),
        ("language"@, SettingValueView::Text("system"@)),
        ("font_scale"@, SettingValueView::Text("normal"@)),
        ("result_limit"@, SettingValueView::Count(10)),
        ("frecency"@, SettingValueView::EmptyObject),
    ]
}

/// The values of a list of (key, default) pairs.
pub open spec fn setting_views(v: Seq<(String, SettingValue)>) -> Seq<(Seq<char>, SettingValueView)> {
    v.map_values(|e: (String, SettingValue)| (e.0@, e.1@))
}

/// The settings keys with their defaults (see [`settings_defaults`]); the frontend gets
/// each key's stored value where there is one (see [`merge_settings`]).
pub fn default_settings() -> (r: Vec<(String, SettingValue)>)
    ensures
        setting_views(r@) == settings_defaults(),
{
    let mut r: Vec<(String, SettingValue)> = Vec::new();
    r.push((String::from_str("shortcut"), SettingValue::Text(String::from_str(DEFAULT_SHORTCUT))));
    r.push((String::from_str("menubar_visible"), SettingValue::Flag(true)));
    r.push((String::from_str("theme"), SettingValue::Text(String::from_str("system"))));
    r.push((String::from_str("launcher_style"), SettingValue::Text(String::from_str("glass"))));
    r.push((String::from_str("language"), SettingValue::Text(String::from_str("system"))));
    r.push((String::from_str("font_scale"), SettingValue::Text(String::from_str("normal"))));
    r.push((String::from_str("result_limit"), SettingValue::Count(10)));
    r.push((String::from_str("frecency"), SettingValue::EmptyObject));
    assert(setting_views(r@) =~= settings_defaults());
    r
}

/// Whether a language change needs a restart to show everywhere: when the tray menu
/// (`None` if there is no tray) or the app menu could not be swapped live.
pub fn language_needs_restart(tray_swapped: Option<bool>, menu_swapped: bool) -> (r: bool)
    ensures
        r == (tray_swapped == Some(false) || !menu_swapped),
{
    let tray_failed = match tray_swapped {
        Some(ok) => !ok,
        None => false,
    };
    tray_failed || !menu_swapped
}

/// The forced appearance for a theme: `Some(true)` dark, `Some(false)` light, `None`
/// to follow the system.
pub open spec fn appearance_for(theme: Seq<char>) -> Option<bool> {
    if theme == "light"@ {
        Some(false)
    } else if theme == "dark"@ {
        Some(true)
    } else {
        None
    }
}

/// The forced appearance for a theme preference.
pub fn theme_appearance(theme: &str) -> (r: Option<bool>)
    ensures
        r == appearance_for(theme@),
{
    if same_text(theme, "light") {
        Some(false)
    } else if same_text(theme, "dark") {
        Some(true)
    } else {
        None
    }
}

/// The launcher's translucent surface.
#[derive(Clone, Copy, Debug, PartialEq, Eq)]
pub enum Surface {
    /// Liquid Glass, in its clear or regular style (falls back to vibrancy where
    /// unavailable).
    Glass { clear: bool },
    /// A frosted vibrancy material.
    Vibrancy,
}

/// The surface a style asks for: `"glass"` and `"glass_clear"` ask for Liquid Glass,
/// anything else for vibrancy.
pub open spec fn surface_for(style: Seq<char>) -> Surface {
    if style == "glass"@ {
        Surface::Glass { clear: false }
    } else if style == "glass_clear"@ {
        Surface::Glass { clear: true }
    } else {
        Surface::Vibrancy
    }
}

/// The surface a launcher style asks for.
pub fn launcher_surface(style: &str) -> (r: Surface)
    ensures
        r == surface_for(style@),
{
    if same_text(style, "glass") {
        Surface::Glass { clear: false }
    } else if same_text(style, "glass_clear") {
        Surface::Glass { clear: true }
    } else {
        Surface::Vibrancy
    }
}

/// What changing a setting does besides storing it.
#[derive(Clone, Copy, Debug, PartialEq, Eq)]
pub enum SideEffect {
    /// Show or hide the menu-bar icon.
    TrayVisibility,
    /// Re-apply the theme and launcher surface.
    Theme,
    /// Re-localize the native surfaces.
    Language,
    /// Tell the windows to re-apply the font scale.
    FontScale,
    /// Nothing more.
    Nothing,
}

/// The side effect of each settings key.
pub open spec fn side_effect_of(key: Seq<char>) -> SideEffect {
    if key == "menubar_visible"@ {
        SideEffect::TrayVisibility
    } else if key == "theme"@ || key == "launcher_style"@ {
        SideEffect::Theme
    } else if key == "language"@ {
        SideEffect::Language
    } else if key == "font_scale"@ {
        SideEffect::FontScale
    } else {
        SideEffect::Nothing
    }
}

/// Decides the side effect of storing a setting.
pub fn side_effect_for(key: &str) -> (r: SideEffect)
    ensures
        r == side_effect_of(key@),
{
    if same_text(key, "menubar_visible") {
        SideEffect::TrayVisibility
    } else if same_text(key, "theme") || same_text(key, "launcher_style") {
        SideEffect::Theme
    } else if same_text(key, "language") {
        SideEffect::Language
    } else if same_text(key, "font_scale") {
        SideEffect::FontScale
    } else {
        SideEffect::Nothing
    }
}

/// What follows an attempt to register a new global shortcut.
#[derive(Debug, PartialEq, Eq)]
pub enum ShortcutOutcome {
    /// The new shortcut works: persist it.
    Persist(String),
    /// It failed: re-register the previous one and report the error; nothing is persisted.
    RollBack { restore: String, error: String },
}

/// Decides what happens after unregistering the old shortcut and trying to register
/// `accelerator`, so that the app never ends up without a working hotkey.
pub fn shortcut_outcome(previous: String, accelerator: &str, registration: Result<(), String>) -> (r: ShortcutOutcome)
    ensures
        match registration {
            Ok(()) => r matches ShortcutOutcome::Persist(a) && a@ == accelerator@,
            Err(e) => r matches ShortcutOutcome::RollBack { restore, error } && restore@ == previous@
                && error@ == "could not register '"@ + accelerator@ + "': "@ + e@,
        },
{
    match registration {
        Ok(()) => ShortcutOutcome::Persist(String::from_str(accelerator)),
        Err(e) => {
            let a = concat("could not register '", accelerator);
            let b = concat(a.as_str(), "': ");
            let c = concat(b.as_str(), e.as_str());
            ShortcutOutcome::RollBack { restore: previous, error: c }
        },
    }
}

/// What a tray menu item does.
#[derive(Clone, Copy, Debug, PartialEq, Eq)]
pub enum TrayAction {
    Open,
    Settings,
    Reindex,
    Quit,
    Nothing,
}

/// The action of each tray menu item id.
pub open spec fn tray_action_of(id: Seq<char>) -> TrayAction {
    if id == "open"@ {
        TrayAction::Open
    } else if id == "settings"@ {
        TrayAction::Settings
    } else if id == "reindex"@ {
        TrayAction::Reindex
    } else if id == "quit"@ {
        TrayAction::Quit
    } else {
        TrayAction::Nothing
    }
}

/// Dispatches a tray menu event by its item id.
pub fn tray_action(id: &str) -> (r: TrayAction)
    ensures
        r == tray_action_of(id@),
{
    if same_text(id, "open") {
        TrayAction::Open
    } else if same_text(id, "settings") {
        TrayAction::Settings
    } else if same_text(id, "reindex") {
        TrayAction::Reindex
    } else if same_text(id, "quit") {
        TrayAction::Quit
    } else {
        TrayAction::Nothing
    }
}

} // verus!
