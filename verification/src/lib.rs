//! My App Spot: a keyboard-first macOS app launcher. This library holds its logic: the
//! app index (scanning decisions, de-duplication, ordering), which apps are enabled,
//! favorites, folder grants, window placement, settings decisions and localized
//! strings, each with its contract. The windowing, file-system and operating-system
//! calls live in the application around it.

pub mod apps;
pub mod codec;
pub mod commands;
pub mod i18n;
pub mod iap;
pub mod laws;
pub mod macos;
pub mod order;
pub mod permissions;
pub mod text;
pub mod windows;

use vstd::prelude::*;

use crate::apps::{opt_text, texts, views, AppEntry};
use crate::text::same_text;

verus! {

/// Calls `SystemTime::now().duration_since(UNIX_EPOCH)` and gives its milliseconds; `None`
/// when the clock is before the epoch. The time is the machine's, so nothing is stated
/// of it.
#[verifier::external_body]
fn millis_since_epoch() -> Option<u128> {
    std::time::SystemTime::now().duration_since(std::time::UNIX_EPOCH).ok().map(|d| d.as_millis())
}

/// Milliseconds since the Unix epoch (cut to 64 bits), or 0 when the clock reads
/// earlier.
pub fn now_ms() -> (r: u64) {
    epoch_millis_to_u64(millis_since_epoch())
}

/// A clock reading in milliseconds since the Unix epoch, as stored: cut to 64 bits as
/// `as u64` does, or 0 when the clock read earlier than the epoch (`None`).
pub fn epoch_millis_to_u64(ms: Option<u128>) -> (r: u64)
    ensures
        r == (match ms {
            Some(m) => m as u64,
            None => 0u64,
        }),
{
    match ms {
        Some(m) => m as u64,
        None => 0,
    }
}

/// Whether two entries have the same value.
pub fn same_entry(a: &AppEntry, b: &AppEntry) -> (r: bool)
    ensures
        r == (a@ == b@),
{
    if a.name != b.name || a.path != b.path {
        return false;
    }
    match (&a.bundle_id, &b.bundle_id) {
        (Some(x), Some(y)) => *x == *y,
        (None, None) => true,
        _ => false,
    }
}

/// Whether two entry lists have the same values, in the same order.
pub fn same_entries(a: &Vec<AppEntry>, b: &Vec<AppEntry>) -> (r: bool)
    ensures
        r == (views(a@) == views(b@)),
{
    if a.len() != b.len() {
        assert(views(a@).len() != views(b@).len());
        return false;
    }
    let mut i: usize = 0;
    while i < a.len()
        invariant
            a.len() == b.len(),
            i <= a.len(),
            forall|k: int| 0 <= k < i ==> a@[k]@ == b@[k]@,
        decreases a.len() - i,
    {
        if !same_entry(&a[i], &b[i]) {
            assert(views(a@)[i as int] != views(b@)[i as int]);
            return false;
        }
        i = i + 1;
    }
    assert(views(a@) =~= views(b@)) by {
        assert forall|k: int| 0 <= k < views(a@).len() implies views(a@)[k] == views(b@)[k] by {
            assert(a@[k]@ == b@[k]@);
        }
    }
    true
}

/// The settings window's lifecycle: whether its page has finished loading, whether a
/// show was requested before that, and the generation counter of its teardown timer.
pub ghost struct SettingsWindow {
    pub loaded: bool,
    pub wants_show: bool,
    pub ttl_gen: u64,
}

/// Shared app state: the app index, the icon cache, the granted folders, the index cache
/// location, indexing status, the session unlock of favorites and the settings window
/// lifecycle.
pub struct AppState {
    pub apps: Vec<AppEntry>,
    /// Icons already extracted, by app path (`None` when extraction failed).
    pub icons: Vec<(String, Option<String>)>,
    pub granted: Vec<String>,
    pub cache_path: Option<String>,
    pub indexing: bool,
    pub last_indexed_ms: Option<u64>,
    /// Free "unlock favorites for this session" flag.
    pub fav_session: bool,
    pub settings_loaded: bool,
    pub settings_wants_show: bool,
    pub settings_ttl_gen: u64,
}

/// The icon cached for `path`, if one is: the first entry for it.
pub open spec fn icon_lookup(icons: Seq<(Seq<char>, Option<Seq<char>>)>, path: Seq<char>) -> Option<Option<Seq<char>>>
    decreases icons.len(),
{
    if icons.len() == 0 {
        None
    } else if icons[0].0 == path {
        Some(icons[0].1)
    } else {
        icon_lookup(icons.drop_first(), path)
    }
}

/// The values of the icon cache.
pub open spec fn icon_view(v: Seq<(String, Option<String>)>) -> Seq<(Seq<char>, Option<Seq<char>>)> {
    v.map_values(|e: (String, Option<String>)| (e.0@, opt_text(e.1)))
}

/// Opening the settings window: the teardown timer's generation moves on; the window is
/// shown at once when loaded, else a show is recorded for when it loads.
pub open spec fn open_step(w: SettingsWindow) -> (SettingsWindow, bool) {
    (
        SettingsWindow {
            loaded: w.loaded,
            wants_show: w.wants_show || !w.loaded,
            ttl_gen: w.ttl_gen.wrapping_add(1),
        },
        w.loaded,
    )
}

/// The settings page finished loading: a recorded show is honoured and cleared.
pub open spec fn loaded_step(w: SettingsWindow) -> (SettingsWindow, bool) {
    (SettingsWindow { loaded: true, wants_show: false, ttl_gen: w.ttl_gen }, w.wants_show)
}

/// The settings window was closed: any recorded show is dropped and the countdown
/// restarts with the next generation.
pub open spec fn closed_step(w: SettingsWindow) -> SettingsWindow {
    SettingsWindow { loaded: w.loaded, wants_show: false, ttl_gen: w.ttl_gen.wrapping_add(1) }
}

/// The idle window was torn down.
pub open spec fn torn_down_step(w: SettingsWindow) -> SettingsWindow {
    SettingsWindow { loaded: false, wants_show: false, ttl_gen: w.ttl_gen }
}

impl AppState {
    /// The settings window's lifecycle state.
    pub open spec fn settings(&self) -> SettingsWindow {
        SettingsWindow {
            loaded: self.settings_loaded,
            wants_show: self.settings_wants_show,
            ttl_gen: self.settings_ttl_gen,
        }
    }

    /// The state at startup: the given index (from the cache or a fresh scan) and granted
    /// folders, indexed at `now`, nothing else yet.
    pub fn new(apps: Vec<AppEntry>, granted: Vec<String>, cache_path: Option<String>, now: u64) -> (r: AppState)
        ensures
            r.apps == apps,
            r.granted == granted,
            r.cache_path == cache_path,
            r.icons@.len() == 0,
            !r.indexing,
            r.last_indexed_ms == Some(now),
            !r.fav_session,
            !r.settings_loaded,
            !r.settings_wants_show,
            r.settings_ttl_gen == 0,
    {
        AppState {
            apps,
            icons: Vec::new(),
            granted,
            cache_path,
            indexing: false,
            last_indexed_ms: Some(now),
            fav_session: false,
            settings_loaded: false,
            settings_wants_show: false,
            settings_ttl_gen: 0,
        }
    }

    /// The granted folders to scan besides the standard ones.
    pub fn granted_dirs(&self) -> (r: Vec<String>)
        ensures
            texts(r@) == texts(self.granted@),
    {
        let mut out: Vec<String> = Vec::new();
        let mut i: usize = 0;
        while i < self.granted.len()
            invariant
                i <= self.granted.len(),
                texts(out@) == texts(self.granted@).take(i as int),
            decreases self.granted.len() - i,
        {
            let ghost before = out@;
            out.push(self.granted[i].clone());
            assert(texts(out@) =~= texts(before).push(self.granted@[i as int]@));
            assert(texts(self.granted@).take(i + 1) =~= texts(self.granted@).take(i as int).push(self.granted@[i as int]@));
            i = i + 1;
        }
        assert(texts(self.granted@).take(self.granted@.len() as int) =~= texts(self.granted@));
        out
    }

    /// Marks a rebuild of the index as running.
    pub fn begin_reindex(&mut self)
        ensures
            *final(self) == (AppState { indexing: true, ..*old(self) }),
    {
        self.indexing = true;
    }

    /// Ends a rebuild of the index that found `fresh`: the index and icon cache change only
    /// when the list actually changed (the icons are then dropped), while the time of the
    /// last check is always refreshed. Returns whether the list changed, i.e. whether the
    /// disk cache is to be rewritten and the frontend told.
    pub fn finish_reindex(&mut self, fresh: Vec<AppEntry>, now: u64) -> (changed: bool)
        ensures
            changed == (views(old(self).apps@) != views(fresh@)),
            views(final(self).apps@) == views(fresh@),
            changed ==> final(self).icons@.len() == 0,
            !changed ==> final(self).icons == old(self).icons,
            !changed ==> final(self).apps == old(self).apps,
            *final(self) == (AppState {
                apps: final(self).apps,
                icons: final(self).icons,
                last_indexed_ms: Some(now),
                indexing: false,
                ..*old(self)
            }),
    {
        let changed = !same_entries(&self.apps, &fresh);
        if changed {
            self.apps = fresh;
            self.icons = Vec::new();
        }
        self.last_indexed_ms = Some(now);
        self.indexing = false;
        changed
    }

    /// Records that the effective app list changed at `now` (an app or folder was enabled
    /// or disabled).
    pub fn touch_index(&mut self, now: u64)
        ensures
            *final(self) == (AppState { last_indexed_ms: Some(now), ..*old(self) }),
    {
        self.last_indexed_ms = Some(now);
    }

    /// The icon cached for `path`: `None` when none is cached yet.
    pub fn cached_icon(&self, path: &str) -> (r: Option<Option<String>>)
        ensures
            match r {
                Some(v) => icon_lookup(icon_view(self.icons@), path@) == Some(opt_text(v)),
                None => icon_lookup(icon_view(self.icons@), path@).is_none(),
            },
    {
        let ghost iv = icon_view(self.icons@);
        let mut i: usize = 0;
        assert(iv.subrange(0, iv.len() as int) =~= iv);
        while i < self.icons.len()
            invariant
                iv == icon_view(self.icons@),
                i <= self.icons.len(),
                icon_lookup(iv, path@) == icon_lookup(iv.subrange(i as int, iv.len() as int), path@),
            decreases self.icons.len() - i,
        {
            let ghost rest = iv.subrange(i as int, iv.len() as int);
            assert(rest[0] == (self.icons@[i as int].0@, opt_text(self.icons@[i as int].1)));
            if same_text(self.icons[i].0.as_str(), path) {
                let v = match &self.icons[i].1 {
                    Some(u) => Some(u.clone()),
                    None => None,
                };
                return Some(v);
            }
            assert(rest.drop_first() =~= iv.subrange(i + 1, iv.len() as int));
            i = i + 1;
        }
        None
    }

    /// Caches the icon extracted for `path`, in front of any older entry for it.
    pub fn cache_icon(&mut self, path: String, uri: Option<String>)
        ensures
            icon_view(final(self).icons@) == seq![(path@, opt_text(uri))] + icon_view(old(self).icons@),
            *final(self) == (AppState { icons: final(self).icons, ..*old(self) }),
    {
        let ghost before = icon_view(self.icons@);
        self.icons.insert(0, (path, uri));
        assert(icon_view(self.icons@) =~= seq![(path@, opt_text(uri))] + before);
    }

    /// Unlocks favorites until the app quits.
    pub fn unlock_favorites_session(&mut self)
        ensures
            *final(self) == (AppState { fav_session: true, ..*old(self) }),
    {
        self.fav_session = true;
    }

    /// Restarts the settings window's idle countdown: the generation moves on, so every
    /// earlier timer is stale. Returns the new generation, which the new timer carries.
    pub fn touch_settings_ttl(&mut self) -> (gen: u64)
        ensures
            gen == old(self).settings_ttl_gen.wrapping_add(1),
            *final(self) == (AppState { settings_ttl_gen: gen, ..*old(self) }),
    {
        self.settings_ttl_gen = self.settings_ttl_gen.wrapping_add(1);
        self.settings_ttl_gen
    }

    /// Whether a teardown timer started with generation `gen` is still the current one.
    pub fn settings_ttl_current(&self, gen: u64) -> (r: bool)
        ensures
            r == (self.settings_ttl_gen == gen),
    {
        self.settings_ttl_gen == gen
    }

    /// Opening the settings window: cancels any pending teardown; returns true when the
    /// page is loaded and the window can be shown now, else records that it is to be
    /// shown as soon as it loads.
    pub fn open_settings(&mut self) -> (show_now: bool)
        ensures
            (final(self).settings(), show_now) == open_step(old(self).settings()),
            *final(self) == (AppState {
                settings_loaded: final(self).settings_loaded,
                settings_wants_show: final(self).settings_wants_show,
                settings_ttl_gen: final(self).settings_ttl_gen,
                ..*old(self)
            }),
    {
        self.settings_ttl_gen = self.settings_ttl_gen.wrapping_add(1);
        if self.settings_loaded {
            true
        } else {
            self.settings_wants_show = true;
            false
        }
    }

    /// The settings page finished loading: returns whether a show was requested before
    /// it did (and clears the request).
    pub fn settings_page_loaded(&mut self) -> (show_now: bool)
        ensures
            (final(self).settings(), show_now) == loaded_step(old(self).settings()),
            *final(self) == (AppState {
                settings_loaded: final(self).settings_loaded,
                settings_wants_show: final(self).settings_wants_show,
                settings_ttl_gen: final(self).settings_ttl_gen,
                ..*old(self)
            }),
    {
        self.settings_loaded = true;
        let was = self.settings_wants_show;
        self.settings_wants_show = false;
        was
    }

    /// The settings window was closed (hidden and kept warm): drops any pending show and
    /// restarts the idle countdown; returns the countdown's generation.
    pub fn settings_closed(&mut self) -> (gen: u64)
        ensures
            final(self).settings() == closed_step(old(self).settings()),
            gen == final(self).settings_ttl_gen,
            *final(self) == (AppState {
                settings_loaded: final(self).settings_loaded,
                settings_wants_show: final(self).settings_wants_show,
                settings_ttl_gen: final(self).settings_ttl_gen,
                ..*old(self)
            }),
    {
        self.settings_wants_show = false;
        self.touch_settings_ttl()
    }

    /// The idle settings window was torn down: it must load again before it is shown.
    pub fn settings_torn_down(&mut self)
        ensures
            final(self).settings() == torn_down_step(old(self).settings()),
            *final(self) == (AppState {
                settings_loaded: final(self).settings_loaded,
                settings_wants_show: final(self).settings_wants_show,
                settings_ttl_gen: final(self).settings_ttl_gen,
                ..*old(self)
            }),
    {
        self.settings_loaded = false;
        self.settings_wants_show = false;
    }
}

/// The folder watcher's phase: waiting for a change, or draining further changes until a
/// quiet period.
#[derive(Clone, Copy, Debug, PartialEq, Eq)]
pub enum WatchPhase {
    Idle,
    Draining,
}

/// What the watcher observed: a change event, a quiet period (no event within the
/// debounce window), or the event channel closing.
#[derive(Clone, Copy, Debug, PartialEq, Eq)]
pub enum WatchEvent {
    Changed,
    Quiet,
    Closed,
}

/// What the watcher does next.
#[derive(Clone, Copy, Debug, PartialEq, Eq)]
pub enum WatchAction {
    /// Wait for the next event, with the debounce timeout while draining.
    Wait,
    /// Rebuild the index, then wait for the next change.
    Reindex,
    /// Stop watching.
    Stop,
}

/// The watcher's next phase and action.
pub open spec fn watch_transition(phase: WatchPhase, event: WatchEvent) -> (WatchPhase, WatchAction) {
    match event {
        WatchEvent::Closed => (phase, WatchAction::Stop),
        WatchEvent::Changed => (WatchPhase::Draining, WatchAction::Wait),
        WatchEvent::Quiet => match phase {
            WatchPhase::Draining => (WatchPhase::Idle, WatchAction::Reindex),
            WatchPhase::Idle => (WatchPhase::Idle, WatchAction::Wait),
        },
    }
}

/// Debounces folder changes: after the first change, further changes are drained until a
/// quiet period, then the index is rebuilt once; a closed channel stops the watcher.
pub fn watch_step(phase: WatchPhase, event: WatchEvent) -> (r: (WatchPhase, WatchAction))
    ensures
        r == watch_transition(phase, event),
{
    match event {
        WatchEvent::Closed => (phase, WatchAction::Stop),
        WatchEvent::Changed => (WatchPhase::Draining, WatchAction::Wait),
        WatchEvent::Quiet => match phase {
            WatchPhase::Draining => (WatchPhase::Idle, WatchAction::Reindex),
            WatchPhase::Idle => (WatchPhase::Idle, WatchAction::Wait),
        },
    }
}

} // verus!
