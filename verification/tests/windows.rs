use spotlight::windows::{
    active_monitor, load_position, monitor_containing, monitor_key, place_launcher,
    save_position, should_reposition, window_monitor, within_monitor, MonitorRect, Placement,
    SavedPosition, WindowFrame,
};

fn mon(x: i32, y: i32, w: i32, h: i32) -> MonitorRect {
    MonitorRect::checked(x, y, w, h).unwrap()
}

#[test]
fn monitor_geometry() {
    let primary = mon(0, 0, 1920, 1080);
    let left = mon(-2560, -360, 2560, 1440);
    assert!(within_monitor(&primary, 0, 0));
    assert!(!within_monitor(&primary, 1920, 10));
    assert!(within_monitor(&left, -1, 0));
    assert_eq!(monitor_key(&primary), "0x0");
    assert_eq!(monitor_key(&left), "-2560x-360");
    assert_eq!(monitor_key(&mon(i32::MIN, 7, 0, 0)), "-2147483648x7");
    let all = vec![primary, left];
    assert_eq!(monitor_containing(&all, -5, 5), Some(left));
    assert_eq!(monitor_containing(&all, 5000, 5), None);
    assert_eq!(active_monitor(&all, Some((-5, 5)), Some(primary)), Some(left));
    assert_eq!(active_monitor(&all, Some((9000, 5)), Some(primary)), Some(primary));
    assert_eq!(active_monitor(&all, None, None), None);
    assert!(MonitorRect::checked(i32::MAX, 0, 1, 1).is_none());
}

#[test]
fn window_monitor_uses_the_centre() {
    let primary = mon(0, 0, 1920, 1080);
    let left = mon(-2560, -360, 2560, 1440);
    let all = vec![primary, left];
    let frame = WindowFrame::checked(-100, 100, 180, 50).unwrap();
    // centre (-10, 125) is on the left monitor
    assert_eq!(window_monitor(&all, Some(frame), Some(primary)), Some(left));
    let off = WindowFrame::checked(10000, 10000, 10, 10).unwrap();
    assert_eq!(window_monitor(&all, Some(off), Some(primary)), Some(primary));
    assert_eq!(window_monitor(&all, None, Some(primary)), None);
    let neg = WindowFrame::checked(1, 0, -3, 0).unwrap();
    // -3 / 2 rounds toward zero: centre x is 0
    assert_eq!(window_monitor(&all, Some(neg), None), Some(primary));
}

#[test]
fn saved_positions_round_trip_per_monitor() {
    let saved = vec![
        SavedPosition { monitor: "0x0".into(), x: Some(10), y: Some(20) },
        SavedPosition { monitor: "1920x0".into(), x: Some(5), y: None },
    ];
    assert_eq!(load_position(&saved, "0x0"), Some((10, 20)));
    assert_eq!(load_position(&saved, "1920x0"), None);
    assert_eq!(load_position(&saved, "9x9"), None);
    let saved2 = save_position(&saved, "1920x0", -7, 300);
    assert_eq!(load_position(&saved2, "1920x0"), Some((-7, 300)));
    assert_eq!(load_position(&saved2, "0x0"), Some((10, 20)));
    assert_eq!(saved2.len(), 2);
    let saved3 = save_position(&saved2, "5x5", 1, 2);
    assert_eq!(saved3.len(), 3);
    assert_eq!(load_position(&saved3, "5x5"), Some((1, 2)));
    // stored integers are cut to 32 bits as `as i32` does
    let wide = vec![SavedPosition { monitor: "0x0".into(), x: Some(4294967297), y: Some(0) }];
    assert_eq!(load_position(&wide, "0x0"), Some((1, 0)));
}

#[test]
fn launcher_placement() {
    let primary = mon(0, 0, 1920, 1080);
    let saved = vec![SavedPosition { monitor: "0x0".into(), x: Some(100), y: Some(200) }];
    assert_eq!(place_launcher(Some(primary), &saved), Placement::At(100, 200));
    let stale = vec![SavedPosition { monitor: "0x0".into(), x: Some(5000), y: Some(200) }];
    assert_eq!(place_launcher(Some(primary), &stale), Placement::UpperThird(primary));
    let other = mon(1920, 0, 1920, 1080);
    assert_eq!(place_launcher(Some(other), &saved), Placement::UpperThird(other));
    assert_eq!(place_launcher(None, &saved), Placement::Center);
}

#[test]
fn hidden_launcher_follows_the_cursor() {
    let a = mon(0, 0, 10, 10);
    let b = mon(10, 0, 10, 10);
    assert!(should_reposition(false, Some(a), Some(b)));
    assert!(!should_reposition(false, Some(a), Some(a)));
    assert!(should_reposition(false, Some(a), None));
    assert!(!should_reposition(false, None, Some(a)));
    assert!(!should_reposition(true, Some(a), Some(b)));
}
