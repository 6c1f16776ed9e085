//! Properties the library keeps across its functions, proved over the specifications
//! that the functions' contracts use.

use vstd::prelude::*;

use crate::apps::{
    container_marker, flatten, lemma_stable_sort_unique, path_seen, scan_dirs, stable_sort_of, standard_dirs,
    unique_by_path, AppEntryView,
};
use crate::commands::{
    covering_base, enabled_only, first_entry_for, launched, lemma_first_entry_exists, lemma_first_entry_same_keys,
    lemma_first_entry_unique, lemma_launched_counts, stored_launch_count,
    distinct, favorites_list, grants_without, is_enabled, lemma_distinct, lemma_without,
    under_folder, with_member, without, MAX_FAVORITES,
};
use crate::i18n::{lang_for_locale, lang_for_setting, lang_tag, localized, Key, Lang};
use crate::windows::{monitor_key_text, placement_for, restored, stored_at, with_position, MonitorRect, Placement};
use crate::text::{contains_text, has_prefix, trim_trailing_slashes};
use crate::{
    closed_step, loaded_step, open_step, watch_transition, SettingsWindow, WatchAction, WatchEvent,
    WatchPhase,
};

verus! {

/// A disabled app is hidden: after its path is added to the disabled apps, it is not
/// enabled, whatever the disabled folders.
pub proof fn law_disabling_an_app_hides_it(path: Seq<char>, disabled_apps: Seq<Seq<char>>, disabled_folders: Seq<Seq<char>>)
    ensures
        !is_enabled(path, with_member(disabled_apps, path, true), disabled_folders),
{
    lemma_distinct(disabled_apps);
    let d = distinct(disabled_apps);
    if !d.contains(path) {
        assert(d.push(path)[d.len() as int] == path);
    }
}

/// Re-enabling an app takes it off the disabled apps; it is then enabled exactly when no
/// disabled folder holds it.
pub proof fn law_enabling_an_app(path: Seq<char>, disabled_apps: Seq<Seq<char>>, disabled_folders: Seq<Seq<char>>)
    ensures
        is_enabled(path, with_member(disabled_apps, path, false), disabled_folders) == (forall|i: int|
            0 <= i < disabled_folders.len() ==> !under_folder(path, #[trigger] disabled_folders[i])),
{
    lemma_distinct(disabled_apps);
    lemma_without(distinct(disabled_apps), path);
    assert(!without(distinct(disabled_apps), path).contains(path));
}

/// A disabled folder hides every app inside it, whatever the disabled apps.
pub proof fn law_disabled_folder_hides_its_apps(path: Seq<char>, folder: Seq<char>, disabled_apps: Seq<Seq<char>>, disabled_folders: Seq<Seq<char>>)
    requires
        under_folder(path, folder),
    ensures
        !is_enabled(path, disabled_apps, with_member(disabled_folders, folder, true)),
{
    lemma_distinct(disabled_folders);
    let d = distinct(disabled_folders);
    if d.contains(folder) {
        let j = choose|j: int| 0 <= j < d.len() && d[j] == folder;
        assert(under_folder(path, with_member(disabled_folders, folder, true)[j]));
    } else {
        assert(d.push(folder)[d.len() as int] == folder);
    }
}

/// Making a value present or absent in a stored set leaves it present or absent, keeps
/// every other member as it was, and leaves no repeats.
pub proof fn law_set_membership(set: Seq<Seq<char>>, v: Seq<char>, present: bool, other: Seq<char>)
    ensures
        with_member(set, v, present).contains(v) == present,
        other != v ==> with_member(set, v, present).contains(other) == set.contains(other),
        with_member(set, v, present).no_duplicates(),
{
    lemma_distinct(set);
    let d = distinct(set);
    lemma_without(d, v);
    if !present {
        assert(!without(d, v).contains(v));
        assert(without(d, v).contains(other) == (d.contains(other) && other != v));
    }
    if present && !d.contains(v) {
        let e = d.push(v);
        assert(e[d.len() as int] == v);
        assert(e.contains(v));
        if d.contains(other) {
            let j = choose|j: int| 0 <= j < d.len() && d[j] == other;
            assert(e[j] == other);
        }
        if e.contains(other) && other != v {
            let j = choose|j: int| 0 <= j < e.len() && e[j] == other;
            assert(d[j] == other);
        }
        assert forall|i: int, j: int| 0 <= i < e.len() && 0 <= j < e.len() && i != j implies e[i] != e[j] by {
            if i < d.len() {
                assert(d.contains(e[i]));
            }
            if j < d.len() {
                assert(d.contains(e[j]));
            }
        }
    }
}

/// The stored favorites hold no repeats, at most ten paths, each of them requested, in
/// the order first requested.
pub proof fn law_favorites_capped_and_unique(paths: Seq<Seq<char>>)
    ensures
        favorites_list(paths).no_duplicates(),
        favorites_list(paths).len() <= MAX_FAVORITES,
        forall|p: Seq<char>| favorites_list(paths).contains(p) ==> paths.contains(p),
        favorites_list(paths) == distinct(paths).take(favorites_list(paths).len() as int),
{
    lemma_distinct(paths);
    let d = distinct(paths);
    let f = favorites_list(paths);
    if d.len() > MAX_FAVORITES {
        assert forall|p: Seq<char>| f.contains(p) implies paths.contains(p) by {
            let j = choose|j: int| 0 <= j < f.len() && f[j] == p;
            assert(d[j] == p);
            assert(d.contains(p));
        }
        assert forall|i: int, j: int| 0 <= i < f.len() && 0 <= j < f.len() && i != j implies f[i] != f[j] by {
            assert(f[i] == d[i] && f[j] == d[j]);
        }
    } else {
        assert(d.take(d.len() as int) =~= d);
    }
}

/// A stored language tag resolves back to its language.
pub proof fn law_language_tag_round_trip(lang: Lang)
    ensures
        lang_for_setting(lang_tag(lang)) == Some(lang),
{
    reveal_strlit("en-US");
    reveal_strlit("pt-BR");
    assert("en-US"@ != "pt-BR"@) by {
        assert("en-US"@[0] != "pt-BR"@[0]);
    }
}

/// The cancellation text is a sentinel the frontend swallows: the same in every language.
pub proof fn law_cancelled_is_language_independent()
    ensures
        localized(Lang::EnUs, Key::IapCancelled) == localized(Lang::PtBr, Key::IapCancelled),
{
}

/// A position saved for a monitor is what is restored for it.
pub proof fn law_saved_position_restored(saved: Seq<(Seq<char>, Option<i64>, Option<i64>)>, key: Seq<char>, x: i32, y: i32)
    ensures
        restored(with_position(saved, key, x, y), key) == Some((x, y)),
    decreases saved.len(),
{
    if saved.len() > 0 && saved[0].0 != key {
        law_saved_position_restored(saved.drop_first(), key, x, y);
        let w = with_position(saved, key, x, y);
        assert(w.drop_first() =~= with_position(saved.drop_first(), key, x, y));
    } else if saved.len() > 0 {
        let w = with_position(saved, key, x, y);
        assert(w[0] == (key, Some(x as i64), Some(y as i64)));
    }
}

/// Saving a position for one monitor leaves what is restored for every other monitor.
pub proof fn law_other_monitors_untouched(saved: Seq<(Seq<char>, Option<i64>, Option<i64>)>, key: Seq<char>, other: Seq<char>, x: i32, y: i32)
    requires
        other != key,
    ensures
        restored(with_position(saved, key, x, y), other) == restored(saved, other),
    decreases saved.len(),
{
    let w = with_position(saved, key, x, y);
    if saved.len() == 0 {
        assert(w.drop_first() =~= Seq::<(Seq<char>, Option<i64>, Option<i64>)>::empty());
        assert(stored_at(w.drop_first(), other).is_none());
        assert(stored_at(w, other) == stored_at(w.drop_first(), other));
    } else if saved[0].0 == key {
        assert(w.drop_first() =~= saved.drop_first());
        assert(stored_at(w, other) == stored_at(w.drop_first(), other));
        assert(stored_at(saved, other) == stored_at(saved.drop_first(), other));
    } else {
        law_other_monitors_untouched(saved.drop_first(), key, other, x, y);
        assert(w.drop_first() =~= with_position(saved.drop_first(), key, x, y));
        assert(w[0] == saved[0]);
    }
}

/// After a grant for `path`, exactly one grant is kept for it: the new one, last.
pub proof fn law_one_grant_per_folder(g: Seq<(Seq<char>, Seq<char>)>, path: Seq<char>, text: Seq<char>, i: int)
    requires
        0 <= i < grants_without(g, path).len(),
    ensures
        grants_without(g, path)[i].0 != path,
        grants_without(g, path).push((path, text)).last() == (path, text),
    decreases g.len(),
{
    if g.len() > 0 {
        let d = g.drop_last();
        if g.last().0 == path {
            law_one_grant_per_folder(d, path, text, i);
        } else if i < grants_without(d, path).len() {
            law_one_grant_per_folder(d, path, text, i);
        }
    }
}

/// A show requested while the settings page is still loading is honoured once, when it
/// has loaded, and not again.
pub proof fn law_pending_show_honoured_once(w: SettingsWindow)
    requires
        !w.loaded,
    ensures
        !open_step(w).1,
        loaded_step(open_step(w).0).1,
        !loaded_step(loaded_step(open_step(w).0).0).1,
{
}

/// Closing the settings window drops a pending show, and each restart of its countdown
/// makes the earlier timer stale.
pub proof fn law_close_cancels_and_restarts(w: SettingsWindow)
    ensures
        !closed_step(w).wants_show,
        closed_step(w).ttl_gen != w.ttl_gen,
        closed_step(closed_step(w)).ttl_gen != closed_step(w).ttl_gen,
{
    let t = w.ttl_gen;
    assert(t.wrapping_add(1) != t);
    let g = closed_step(w).ttl_gen;
    assert(g.wrapping_add(1) != g);
}

/// The entry kept for a path is the first one found with that path.
pub proof fn law_first_found_wins(s: Seq<AppEntryView>, i: int)
    requires
        0 <= i < unique_by_path(s).len(),
    ensures
        exists|j: int| 0 <= j < s.len() && s[j] == unique_by_path(s)[i] && !path_seen(s.take(j), s[j].path),
    decreases s.len(),
{
    let d = s.drop_last();
    let u = unique_by_path(d);
    if i < u.len() {
        law_first_found_wins(d, i);
        let j = choose|j: int| 0 <= j < d.len() && d[j] == u[i] && !path_seen(d.take(j), d[j].path);
        assert(s.take(j) =~= d.take(j));
        assert(s[j] == d[j]);
        if path_seen(s, s.last().path) {
        } else {
            assert(unique_by_path(s)[i] == u[i]);
        }
    } else {
        let j = s.len() - 1;
        assert(s.take(j) =~= d);
        assert(unique_by_path(s)[i] == s.last());
    }
}

/// Scanning more entries never lowers the number of distinct apps found.
pub proof fn lemma_unique_grows(a: Seq<AppEntryView>, b: Seq<AppEntryView>)
    ensures
        unique_by_path(a).len() <= unique_by_path(a + b).len(),
    decreases b.len(),
{
    if b.len() > 0 {
        lemma_unique_grows(a, b.drop_last());
        assert((a + b).drop_last() =~= a + b.drop_last());
    }
}

/// The per-directory progress totals never decrease, and the last one is the number of
/// apps found in all.
pub proof fn law_progress_totals(s: Seq<Seq<AppEntryView>>, d: int)
    requires
        0 <= d,
        d + 1 < s.len(),
    ensures
        unique_by_path(flatten(s.take(d + 1))).len() <= unique_by_path(flatten(s.take(d + 2))).len(),
        unique_by_path(flatten(s.take(s.len() as int))) == unique_by_path(flatten(s)),
{
    assert(s.take(d + 2).drop_last() =~= s.take(d + 1));
    assert(s.take(d + 2).last() == s[d + 1]);
    lemma_unique_grows(flatten(s.take(d + 1)), s[d + 1]);
    assert(s.take(s.len() as int) =~= s);
}

/// A folder reported as already covered lies inside (or is) a non-empty base it was
/// checked against.
pub proof fn law_covered_folder_is_inside_its_base(target: Seq<char>, bases: Seq<Seq<char>>)
    ensures
        covering_base(target, bases) matches Some(b) ==> b.len() > 0 && bases.contains(b) && (target == b
            || has_prefix(target, b + seq!['/'])),
    decreases bases.len(),
{
    if bases.len() > 0 {
        law_covered_folder_is_inside_its_base(target, bases.drop_first());
        if let Some(b) = covering_base(target, bases.drop_first()) {
            if covering_base(target, bases) == Some(b) && bases[0] != b {
                let j = choose|j: int| 0 <= j < bases.drop_first().len() && bases.drop_first()[j] == b;
                assert(bases[j + 1] == b);
            }
        }
    }
}

/// Under the sandbox (a container home), the container's `~/Applications` is not
/// scanned: only the standard folders and the granted ones are.
pub proof fn law_container_home_not_scanned(home: Seq<char>, extra: Seq<Seq<char>>)
    requires
        contains_text(home, container_marker()),
    ensures
        scan_dirs(Some(home), extra) == standard_dirs() + extra,
{
    assert(standard_dirs() + Seq::<Seq<char>>::empty() + extra =~= standard_dirs() + extra);
}

/// The folder watcher rebuilds the index only once changes have been seen and have gone
/// quiet, and any change starts (or continues) a quiet-period wait.
pub proof fn law_watcher_debounces(phase: WatchPhase, event: WatchEvent)
    ensures
        watch_transition(phase, event).1 == WatchAction::Reindex ==> phase == WatchPhase::Draining
            && event == WatchEvent::Quiet,
        event == WatchEvent::Changed ==> watch_transition(phase, event) == (WatchPhase::Draining, WatchAction::Wait),
        event == WatchEvent::Closed ==> watch_transition(phase, event).1 == WatchAction::Stop,
{
}

/// Whether an app is enabled depends only on which folders are disabled, not on their
/// order or repeats.
pub proof fn lemma_enabled_by_members(path: Seq<char>, da: Seq<Seq<char>>, df1: Seq<Seq<char>>, df2: Seq<Seq<char>>)
    requires
        forall|x: Seq<char>| df1.contains(x) == df2.contains(x),
    ensures
        is_enabled(path, da, df1) == is_enabled(path, da, df2),
{
    if is_enabled(path, da, df1) {
        assert forall|i: int| 0 <= i < df2.len() implies !under_folder(path, #[trigger] df2[i]) by {
            assert(df2.contains(df2[i]));
            let j = choose|j: int| 0 <= j < df1.len() && df1[j] == df2[i];
            assert(!under_folder(path, df1[j]));
        }
    }
    if is_enabled(path, da, df2) {
        assert forall|i: int| 0 <= i < df1.len() implies !under_folder(path, #[trigger] df1[i]) by {
            assert(df1.contains(df1[i]));
            let j = choose|j: int| 0 <= j < df2.len() && df2[j] == df1[i];
            assert(!under_folder(path, df2[j]));
        }
    }
}

/// Disabling a folder never touches the per-app choices: re-enabling it restores every
/// app's previous state.
pub proof fn law_folder_toggle_restores(path: Seq<char>, da: Seq<Seq<char>>, df: Seq<Seq<char>>, folder: Seq<char>)
    requires
        !df.contains(folder),
    ensures
        is_enabled(path, da, with_member(with_member(df, folder, true), folder, false)) == is_enabled(path, da, df),
{
    let once = with_member(df, folder, true);
    let twice = with_member(once, folder, false);
    assert forall|x: Seq<char>| twice.contains(x) == df.contains(x) by {
        law_set_membership(once, folder, false, x);
        law_set_membership(df, folder, true, x);
    }
    lemma_enabled_by_members(path, da, twice, df);
}

/// The launcher's list holds exactly the indexed apps that are enabled: an entry is
/// listed if and only if it is indexed and enabled.
pub proof fn law_listed_iff_enabled(s: Seq<AppEntryView>, da: Seq<Seq<char>>, df: Seq<Seq<char>>, e: AppEntryView)
    ensures
        enabled_only(s, da, df).contains(e) == (s.contains(e) && is_enabled(e.path, da, df)),
    decreases s.len(),
{
    if s.len() > 0 {
        let d = s.drop_last();
        law_listed_iff_enabled(d, da, df, e);
        let r = enabled_only(d, da, df);
        if s.contains(e) {
            let j = choose|j: int| 0 <= j < s.len() && s[j] == e;
            if j < s.len() - 1 {
                assert(d[j] == e);
            }
        }
        if d.contains(e) {
            let j = choose|j: int| 0 <= j < d.len() && d[j] == e;
            assert(s[j] == e);
        }
        if is_enabled(s.last().path, da, df) {
            let r2 = r.push(s.last());
            if r.contains(e) {
                let j = choose|j: int| 0 <= j < r.len() && r[j] == e;
                assert(r2[j] == e);
            }
            if r2.contains(e) {
                let j = choose|j: int| 0 <= j < r2.len() && r2[j] == e;
                if j < r.len() {
                    assert(r[j] == e);
                }
            }
            assert(r2[r.len() as int] == s.last());
            assert(s[s.len() - 1] == s.last());
        }
    }
}

/// The app list is determined by the scan results: two lists that are both the stable
/// sort by name of the same de-duplicated entries are the same list, so `enumerate` and
/// `enumerate_with` list the same apps in the same order.
pub proof fn law_listing_is_determined(a: Seq<AppEntryView>, b: Seq<AppEntryView>, scanned: Seq<Seq<AppEntryView>>)
    requires
        stable_sort_of(a, unique_by_path(flatten(scanned))),
        stable_sort_of(b, unique_by_path(flatten(scanned))),
    ensures
        a == b,
{
    lemma_stable_sort_unique(a, b, unique_by_path(flatten(scanned)));
}

/// Recording a launch raises that app's count by one (a missing count counting as 0) and
/// leaves every other app's count as it was.
pub proof fn law_launch_counted_once(t: Seq<(Seq<char>, Option<u64>)>, path: Seq<char>, other: Seq<char>)
    requires
        stored_launch_count(t, path) != Some(u64::MAX),
    ensures
        stored_launch_count(launched(t, path), path) == Some(
            (match stored_launch_count(t, path) {
                Some(c) => c + 1,
                None => 1int,
            }) as u64,
        ),
        other != path ==> stored_launch_count(launched(t, path), other) == stored_launch_count(t, other),
{
    let t2 = launched(t, path);
    if exists|i: int| first_entry_for(t, path, i) {
        let i = choose|i: int| first_entry_for(t, path, i);
        assert forall|m: int| 0 <= m <= i implies (#[trigger] t2[m]).0 == t[m].0 by {}
        lemma_first_entry_same_keys(t, t2, path, i);
        let k = choose|k: int| first_entry_for(t2, path, k);
        lemma_first_entry_unique(t2, path, i, k);
    } else {
        let n = t.len() as int;
        assert forall|m: int| 0 <= m < n implies (#[trigger] t2[m]).0 != path by {
            assert(t2[m] == t[m]);
            if t[m].0 == path {
                lemma_first_entry_exists(t, path, m);
            }
        }
        assert(first_entry_for(t2, path, n));
        let k = choose|k: int| first_entry_for(t2, path, k);
        lemma_first_entry_unique(t2, path, n, k);
    }
    if other != path {
        lemma_launched_counts(t, path, other);
    }
}

/// A disabled folder hides every app below it, at any depth: any path made of the folder
/// (trailing slashes dropped), a `/`, and anything after it is not enabled.
pub proof fn law_disabled_folder_hides_all_below(
    folder: Seq<char>,
    rest: Seq<char>,
    disabled_apps: Seq<Seq<char>>,
    disabled_folders: Seq<Seq<char>>,
)
    requires
        disabled_folders.contains(folder),
    ensures
        !is_enabled(trim_trailing_slashes(folder) + seq!['/'] + rest, disabled_apps, disabled_folders),
{
    let base = trim_trailing_slashes(folder) + seq!['/'];
    let path = base + rest;
    assert(path.subrange(0, base.len() as int) =~= base);
    let i = choose|i: int| 0 <= i < disabled_folders.len() && disabled_folders[i] == folder;
    assert(under_folder(path, disabled_folders[i]));
}

/// An app is enabled exactly when its path is not a disabled app and does not start with
/// any disabled folder (trailing slashes dropped) followed by `/`.
pub proof fn law_enabled_iff_outside_disabled(
    path: Seq<char>,
    disabled_apps: Seq<Seq<char>>,
    disabled_folders: Seq<Seq<char>>,
)
    ensures
        is_enabled(path, disabled_apps, disabled_folders) == (!disabled_apps.contains(path) && forall|i: int|
            0 <= i < disabled_folders.len() ==> !has_prefix(
                path,
                trim_trailing_slashes(#[trigger] disabled_folders[i]) + seq!['/'],
            )),
{
}

/// A folder is covered exactly when some non-empty base equals it or holds it (it starts
/// with the base followed by `/`); the base reported is then one of the bases, and it
/// covers the folder.
pub proof fn law_covered_iff_some_base_covers(target: Seq<char>, bases: Seq<Seq<char>>)
    ensures
        covering_base(target, bases).is_some() == exists|j: int|
            0 <= j < bases.len() && (#[trigger] bases[j]).len() > 0 && (target == bases[j] || has_prefix(
                target,
                bases[j] + seq!['/'],
            )),
        covering_base(target, bases) matches Some(b) ==> bases.contains(b) && b.len() > 0 && (target == b
            || has_prefix(target, b + seq!['/'])),
    decreases bases.len(),
{
    if bases.len() > 0 {
        let rest = bases.drop_first();
        law_covered_iff_some_base_covers(target, rest);
        if exists|j: int|
            0 <= j < rest.len() && (#[trigger] rest[j]).len() > 0 && (target == rest[j] || has_prefix(
                target,
                rest[j] + seq!['/'],
            )) {
            let j = choose|j: int|
                0 <= j < rest.len() && (#[trigger] rest[j]).len() > 0 && (target == rest[j] || has_prefix(
                    target,
                    rest[j] + seq!['/'],
                ));
            assert(bases[j + 1] == rest[j]);
        }
        if exists|j: int|
            0 <= j < bases.len() && (#[trigger] bases[j]).len() > 0 && (target == bases[j] || has_prefix(
                target,
                bases[j] + seq!['/'],
            )) {
            let j = choose|j: int|
                0 <= j < bases.len() && (#[trigger] bases[j]).len() > 0 && (target == bases[j] || has_prefix(
                    target,
                    bases[j] + seq!['/'],
                ));
            if j > 0 {
                assert(rest[j - 1] == bases[j]);
            }
        }
        if let Some(b) = covering_base(target, rest) {
            let k = choose|k: int| 0 <= k < rest.len() && rest[k] == b;
            assert(bases[k + 1] == b);
        }
        assert(bases[0] == bases[0]);
    }
}

/// Removing the grants for `p` keeps every other grant, in order, and nothing else.
pub proof fn law_removing_grants_keeps_the_others(g: Seq<(Seq<char>, Seq<char>)>, p: Seq<char>)
    ensures
        grants_without(g, p) == g.filter(|b: (Seq<char>, Seq<char>)| b.0 != p),
        forall|i: int| 0 <= i < g.len() && (#[trigger] g[i]).0 != p ==> grants_without(g, p).contains(g[i]),
        forall|q: (Seq<char>, Seq<char>)| #[trigger] grants_without(g, p).contains(q) ==> g.contains(q) && q.0 != p,
    decreases g.len(),
{
    let f = |b: (Seq<char>, Seq<char>)| b.0 != p;
    if g.len() == 0 {
        assert(g.filter(f) == g) by {
            reveal(Seq::filter);
        }
    } else {
        let d = g.drop_last();
        law_removing_grants_keeps_the_others(d, p);
        assert(d.filter(f) == grants_without(d, p));
        assert(g.filter(f) == (if f(g.last()) { d.filter(f).push(g.last()) } else { d.filter(f) })) by {
            reveal(Seq::filter);
        }
        assert(grants_without(g, p) == g.filter(f));
        assert forall|i: int| 0 <= i < g.len() && (#[trigger] g[i]).0 != p implies grants_without(g, p).contains(
            g[i],
        ) by {
            if i < g.len() - 1 {
                assert(d[i] == g[i]);
                let k = choose|k: int| 0 <= k < grants_without(d, p).len() && grants_without(d, p)[k] == d[i];
                if g.last().0 != p {
                    assert(grants_without(g, p)[k] == d[i]);
                }
            } else {
                assert(g[i] == g.last());
                assert(grants_without(g, p)[grants_without(d, p).len() as int] == g.last());
            }
        }
        assert forall|q: (Seq<char>, Seq<char>)| #[trigger] grants_without(g, p).contains(q) implies g.contains(q)
            && q.0 != p by {
            let k = choose|k: int| 0 <= k < grants_without(g, p).len() && grants_without(g, p)[k] == q;
            if k < grants_without(d, p).len() {
                if g.last().0 != p {
                    assert(grants_without(d, p)[k] == q);
                }
                assert(grants_without(d, p).contains(q));
                let m = choose|m: int| 0 <= m < d.len() && d[m] == q;
                assert(g[m] == q);
            } else {
                assert(q == g.last());
                assert(g[g.len() - 1] == q);
            }
        }
    }
}

/// The launcher goes back to the position saved for its monitor whenever that point lies
/// inside the monitor, measured from the monitor's own origin; otherwise (or with nothing
/// saved) it goes to the monitor's upper third.
pub proof fn law_saved_position_used_inside_monitor(
    m: MonitorRect,
    saved: Seq<(Seq<char>, Option<i64>, Option<i64>)>,
    x: i32,
    y: i32,
)
    requires
        restored(saved, monitor_key_text(m)) == Some((x, y)),
    ensures
        (m.x <= x < m.x + m.width && m.y <= y < m.y + m.height) ==> placement_for(Some(m), saved)
            == Placement::At(x, y),
        !(m.x <= x < m.x + m.width && m.y <= y < m.y + m.height) ==> placement_for(Some(m), saved)
            == Placement::UpperThird(m),
{
}

/// After saving a position inside a monitor, the launcher is placed there on that
/// monitor.
pub proof fn law_saved_position_is_where_the_launcher_returns(
    m: MonitorRect,
    saved: Seq<(Seq<char>, Option<i64>, Option<i64>)>,
    x: i32,
    y: i32,
)
    requires
        m.x <= x < m.x + m.width,
        m.y <= y < m.y + m.height,
    ensures
        placement_for(Some(m), with_position(saved, monitor_key_text(m), x, y)) == Placement::At(x, y),
{
    law_saved_position_restored(saved, monitor_key_text(m), x, y);
}

/// The OS locale gives pt-BR exactly when it starts with `pt`, in either case; every other
/// locale, and no locale, gives en-US.
pub proof fn law_portuguese_locale_only(locale: Option<Seq<char>>)
    ensures
        (lang_for_locale(locale) == Lang::PtBr) == (locale matches Some(l) && l.len() >= 2 && (l[0] == 'p'
            || l[0] == 'P') && (l[1] == 't' || l[1] == 'T')),
        lang_for_locale(locale) == Lang::PtBr || lang_for_locale(locale) == Lang::EnUs,
{
    if let Some(l) = locale {
        if l.len() >= 2 {
            assert(('A' as u32) == 65 && ('Z' as u32) == 90 && ('p' as u32) == 112 && ('t' as u32) == 116);
            assert(('P' as u32) == 80 && ('T' as u32) == 84);
        }
    }
}

} // verus!
