use spotlight::epoch_millis_to_u64;
use spotlight::{watch_step, WatchAction, WatchEvent, WatchPhase};
use spotlight::apps::AppEntry;
use spotlight::codec::png_data_uri;
use spotlight::permissions::real_home;
use spotlight::{now_ms, same_entries, AppState};

fn entry(name: &str, path: &str) -> AppEntry {
    AppEntry { name: name.to_string(), path: path.to_string(), bundle_id: Some("id".into()) }
}

#[test]
fn reindex_swaps_only_on_change() {
    let mut st = AppState::new(vec![entry("A", "/A.app")], vec!["/G".into()], None, 5);
    assert_eq!(st.last_indexed_ms, Some(5));
    st.cache_icon("/A.app".into(), Some("data:x".into()));
    st.begin_reindex();
    assert!(st.indexing);
    let changed = st.finish_reindex(vec![entry("A", "/A.app")], 9);
    assert!(!changed);
    assert!(!st.indexing);
    assert_eq!(st.last_indexed_ms, Some(9));
    assert_eq!(st.cached_icon("/A.app"), Some(Some("data:x".to_string())));
    let changed = st.finish_reindex(vec![entry("A", "/A.app"), entry("B", "/B.app")], 12);
    assert!(changed);
    assert_eq!(st.apps.len(), 2);
    assert_eq!(st.cached_icon("/A.app"), None);
    assert_eq!(st.granted_dirs(), vec!["/G".to_string()]);
}

#[test]
fn icon_cache_returns_latest() {
    let mut st = AppState::new(Vec::new(), Vec::new(), None, 0);
    assert_eq!(st.cached_icon("/X.app"), None);
    st.cache_icon("/X.app".into(), None);
    assert_eq!(st.cached_icon("/X.app"), Some(None));
    st.cache_icon("/X.app".into(), Some("u".into()));
    assert_eq!(st.cached_icon("/X.app"), Some(Some("u".to_string())));
}

#[test]
fn settings_window_lifecycle() {
    let mut st = AppState::new(Vec::new(), Vec::new(), None, 0);
    // Opened before it has loaded: shown when the page finishes loading, once.
    assert!(!st.open_settings());
    assert!(st.settings_page_loaded());
    assert!(!st.settings_page_loaded());
    assert!(st.open_settings());
    let g1 = st.settings_closed();
    assert!(st.settings_ttl_current(g1));
    let g2 = st.touch_settings_ttl();
    assert!(!st.settings_ttl_current(g1));
    assert!(st.settings_ttl_current(g2));
    st.settings_torn_down();
    assert!(!st.open_settings());
    st.unlock_favorites_session();
    assert!(st.fav_session);
}

#[test]
fn entries_compare_by_value() {
    assert!(same_entries(&vec![entry("A", "/A")], &vec![entry("A", "/A")]));
    assert!(!same_entries(&vec![entry("A", "/A")], &vec![entry("a", "/A")]));
    let mut b = entry("A", "/A");
    b.bundle_id = None;
    assert!(!same_entries(&vec![entry("A", "/A")], &vec![b]));
    assert!(!same_entries(&vec![], &vec![entry("A", "/A")]));
}

#[test]
fn clock_and_codec() {
    assert!(now_ms() > 1_600_000_000_000);
    assert_eq!(png_data_uri(b"foo"), "data:image/png;base64,Zm9v");
    assert_eq!(png_data_uri(b""), "data:image/png;base64,");
}

#[test]
fn real_home_strips_the_container() {
    assert_eq!(
        real_home(Some("/Users/jp/Library/Containers/co.amis.myappspot/Data")),
        Some("/Users/jp".to_string())
    );
    assert_eq!(real_home(Some("/Users/jp")), Some("/Users/jp".to_string()));
    assert_eq!(real_home(None), None);
}

#[test]
fn watcher_debounces_changes() {
    let (p, a) = watch_step(WatchPhase::Idle, WatchEvent::Changed);
    assert_eq!((p, a), (WatchPhase::Draining, WatchAction::Wait));
    let (p, a) = watch_step(p, WatchEvent::Changed);
    assert_eq!((p, a), (WatchPhase::Draining, WatchAction::Wait));
    let (p, a) = watch_step(p, WatchEvent::Quiet);
    assert_eq!((p, a), (WatchPhase::Idle, WatchAction::Reindex));
    assert_eq!(watch_step(p, WatchEvent::Quiet), (WatchPhase::Idle, WatchAction::Wait));
    assert_eq!(watch_step(WatchPhase::Draining, WatchEvent::Closed).1, WatchAction::Stop);
    assert_eq!(watch_step(WatchPhase::Idle, WatchEvent::Closed).1, WatchAction::Stop);
}

#[test]
fn clock_readings_are_cut_to_64_bits() {

    assert_eq!(epoch_millis_to_u64(None), 0);
    assert_eq!(epoch_millis_to_u64(Some(1_700_000_000_123)), 1_700_000_000_123);
    assert_eq!(epoch_millis_to_u64(Some((1u128 << 64) + 3)), 3);
}

#[test]
fn reindex_leaves_other_state_alone() {
    let mut st = AppState::new(vec![entry("A", "/A.app")], vec!["/G".into()], Some("/cache.json".into()), 1);
    st.unlock_favorites_session();
    let show = st.open_settings();
    assert!(!show);
    st.begin_reindex();
    let changed = st.finish_reindex(vec![entry("B", "/B.app")], 2);
    assert!(changed);
    assert_eq!(st.cache_path.as_deref(), Some("/cache.json"));
    assert!(st.fav_session);
    assert!(st.settings_wants_show);
    assert!(!st.settings_loaded);
    assert_eq!(st.settings_ttl_gen, 1);
    assert_eq!(st.granted, vec!["/G".to_string()]);
    st.touch_index(3);
    assert_eq!(st.last_indexed_ms, Some(3));
    assert_eq!(st.apps.len(), 1);
    assert!(!st.indexing);
}
