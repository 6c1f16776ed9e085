use spotlight::commands::merge_settings;
use spotlight::apps::AppEntry;
use spotlight::commands::{
    access_status, add_granted, app_enabled, default_settings, language_needs_restart, record_launch,
    SettingValue, bookmark_bytes, capped_favorites, current_shortcut,
    dir_infos, favorites_status, favorites_unlocked, folder_already_covered, frecency_count,
    indexed_apps, inside_folder, launcher_surface, list_apps, list_granted_folders,
    purchase_favorites, remove_granted, restore_favorites, set_favorites, set_members,
    set_membership, shortcut_outcome, side_effect_for, suggested_apps_folder, theme_appearance,
    tray_action, with_bookmark, without_bookmark, Bookmark, ShortcutOutcome, SideEffect, Surface,
    TrayAction, DEFAULT_SHORTCUT,
};
use spotlight::i18n::Lang;

fn set(items: &[&str]) -> Vec<String> {
    items.iter().map(|s| s.to_string()).collect()
}

fn entry(name: &str, path: &str) -> AppEntry {
    AppEntry { name: name.to_string(), path: path.to_string(), bundle_id: None }
}

#[test]
fn enabled_by_default() {
    assert!(app_enabled("/Applications/Safari.app", &set(&[]), &set(&[])));
}

#[test]
fn disabled_individual_app() {
    let da = set(&["/Applications/Safari.app"]);
    assert!(!app_enabled("/Applications/Safari.app", &da, &set(&[])));
    assert!(app_enabled("/Applications/Mail.app", &da, &set(&[])));
}

#[test]
fn disabled_folder_hides_its_apps() {
    let df = set(&["/Users/jp/Applications"]);
    assert!(!app_enabled("/Users/jp/Applications/CLion.app", &set(&[]), &df));
    // a sibling path that merely shares a prefix string must NOT match
    assert!(app_enabled("/Users/jp/ApplicationsX/Foo.app", &set(&[]), &df));
    assert!(app_enabled("/Applications/Safari.app", &set(&[]), &df));
}

#[test]
fn disabled_folder_with_trailing_slash_still_matches() {
    let df = set(&["/Users/jp/Applications///"]);
    assert!(!app_enabled("/Users/jp/Applications/CLion.app", &set(&[]), &df));
    assert!(inside_folder("/a/b/c.app", "/a/b"));
    assert!(!inside_folder("/a/b", "/a/b"));
    // the root folder "/" trims to "" and covers every absolute path
    assert!(inside_folder("/x.app", "/"));
}

#[test]
fn launcher_list_keeps_only_enabled_apps_in_order() {
    let apps = vec![
        entry("Calculator", "/System/Applications/Calculator.app"),
        entry("CLion", "/Users/jp/Applications/CLion.app"),
        entry("Mail", "/Applications/Mail.app"),
        entry("Safari", "/Applications/Safari.app"),
    ];
    let da = set(&["/Applications/Safari.app"]);
    let df = set(&["/Users/jp/Applications/"]);
    let listed = list_apps(&apps, &da, &df);
    let names: Vec<&str> = listed.iter().map(|a| a.name.as_str()).collect();
    assert_eq!(names, vec!["Calculator", "Mail"]);
    let all = indexed_apps(&apps, &da, &df);
    let flags: Vec<bool> = all.iter().map(|a| a.enabled).collect();
    assert_eq!(flags, vec![true, false, true, false]);
    assert_eq!(all[1].path, "/Users/jp/Applications/CLion.app");
}

#[test]
fn toggling_a_set_member() {
    let s = set(&["a", "b", "a"]);
    assert_eq!(set_membership(&s, "c", true), set(&["a", "b", "c"]));
    assert_eq!(set_membership(&s, "b", true), set(&["a", "b"]));
    assert_eq!(set_membership(&s, "a", false), set(&["b"]));
    assert_eq!(set_membership(&s, "z", false), set(&["a", "b"]));
    assert_eq!(set_members(&s, &set(&["x", "a", "y"]), true), set(&["a", "b", "x", "y"]));
    assert_eq!(set_members(&s, &set(&["a", "b"]), false), set(&[]));
}

#[test]
fn disabling_then_enabling_an_app_round_trips() {
    let da = set_membership(&set(&[]), "/Applications/Safari.app", true);
    assert!(!app_enabled("/Applications/Safari.app", &da, &set(&[])));
    let da = set_membership(&da, "/Applications/Safari.app", false);
    assert!(app_enabled("/Applications/Safari.app", &da, &set(&[])));
}

#[test]
fn favorites_are_deduplicated_and_capped() {
    let req = set(&["a", "b", "a", "c", "d", "e", "f", "g", "h", "i", "j", "k", "l"]);
    let kept = capped_favorites(&req);
    assert_eq!(kept, set(&["a", "b", "c", "d", "e", "f", "g", "h", "i", "j"]));
    assert_eq!(set_favorites(true, Lang::EnUs, &set(&["x", "x"])), Ok(set(&["x"])));
    assert_eq!(
        set_favorites(false, Lang::EnUs, &req),
        Err("Unlock favorites first.".to_string())
    );
    assert_eq!(
        set_favorites(false, Lang::PtBr, &req),
        Err("Desbloqueie os favoritos primeiro.".to_string())
    );
}

#[test]
fn favorites_entitlement() {
    assert!(!favorites_unlocked(false, false));
    assert!(favorites_unlocked(true, false));
    assert!(favorites_unlocked(false, true));
    let st = favorites_status(false, true);
    assert!(st.unlocked && !st.purchased && !st.purchasable && st.price.is_none());
    assert_eq!(
        purchase_favorites(Lang::EnUs),
        Err("In-app purchase is only available in the App Store build.".to_string())
    );
    assert_eq!(
        restore_favorites(Lang::PtBr),
        Err("As compras no app só estão disponíveis na versão da App Store.".to_string())
    );
}

#[test]
fn launch_counts_increase() {
    assert_eq!(frecency_count(None), 1);
    assert_eq!(frecency_count(Some(4)), 5);
}

#[test]
fn grants_replace_and_remove() {
    let list = vec![
        Bookmark { path: "/A".into(), bookmark: "AAAA".into() },
        Bookmark { path: "/B".into(), bookmark: "BBBB".into() },
    ];
    let list = with_bookmark(&list, "/A", b"foo");
    assert_eq!(list_granted_folders(&list), set(&["/B", "/A"]));
    assert_eq!(list[1].bookmark, "Zm9v");
    assert_eq!(bookmark_bytes(&list[1]), Some(b"foo".to_vec()));
    assert_eq!(bookmark_bytes(&Bookmark { path: "/C".into(), bookmark: "!!".into() }), None);
    let list = without_bookmark(&list, "/B");
    assert_eq!(list_granted_folders(&list), set(&["/A"]));
}

#[test]
fn granted_paths_are_added_once() {
    let mut g = set(&["/A"]);
    add_granted(&mut g, "/B".to_string());
    add_granted(&mut g, "/A".to_string());
    assert_eq!(g, set(&["/A", "/B"]));
    assert_eq!(remove_granted(&g, "/A"), set(&["/B"]));
}

#[test]
fn covered_folders_are_rejected() {
    let bms = vec![Bookmark { path: "/Volumes/Apps/".into(), bookmark: String::new() }];
    let home = Some("/Users/jp");
    assert_eq!(
        folder_already_covered("/Applications/Utilities/", home, &bms),
        Some("/Applications".to_string())
    );
    assert_eq!(
        folder_already_covered("/Users/jp/Applications/Games", home, &bms),
        Some("/Users/jp/Applications".to_string())
    );
    assert_eq!(
        folder_already_covered("/Volumes/Apps/x", home, &bms),
        Some("/Volumes/Apps".to_string())
    );
    assert_eq!(folder_already_covered("/Volumes/AppsX", home, &bms), None);
    // Under the sandbox the container's ~/Applications is not a base.
    let sandboxed = Some("/Users/jp/Library/Containers/id/Data");
    assert_eq!(
        folder_already_covered("/Users/jp/Library/Containers/id/Data/Applications", sandboxed, &Vec::new()),
        None
    );
}

#[test]
fn index_breakdown_counts_and_filters() {
    let apps = vec![
        entry("A", "/Applications/A.app"),
        entry("U", "/Applications/Utilities/U.app"),
        entry("G", "/Granted/G.app"),
    ];
    let dirs = set(&["/Applications", "/Applications/Utilities", "/Missing", "/Granted", "/Stale"]);
    let readable = vec![true, true, false, true, false];
    let granted = set(&["/Granted", "/Stale"]);
    let disabled = set(&["/Applications/Utilities"]);
    let rows = dir_infos(&dirs, &readable, &apps, &granted, &disabled);
    let summary: Vec<(&str, &str, usize, bool, bool)> = rows
        .iter()
        .map(|d| (d.path.as_str(), d.kind.as_str(), d.count, d.readable, d.disabled))
        .collect();
    assert_eq!(
        summary,
        vec![
            ("/Applications", "system", 2, true, false),
            ("/Applications/Utilities", "system", 1, true, true),
            ("/Granted", "granted", 1, true, false),
            ("/Stale", "granted", 0, false, false),
        ]
    );
}

#[test]
fn access_status_reports_the_real_applications_folder() {
    let s = suggested_apps_folder(Some("/Users/jp/Library/Containers/co.x/Data"));
    assert_eq!(s, Some("/Users/jp/Applications".to_string()));
    let st = access_status(s, false);
    assert!(st.limited);
    assert_eq!(st.suggested_path, "/Users/jp/Applications");
    let none = access_status(suggested_apps_folder(None), true);
    assert!(!none.limited && none.suggested_path.is_empty());
}

#[test]
fn settings_decisions() {
    assert_eq!(current_shortcut(None), DEFAULT_SHORTCUT);
    assert_eq!(current_shortcut(Some("Alt+Space".into())), "Alt+Space");
    assert_eq!(theme_appearance("light"), Some(false));
    assert_eq!(theme_appearance("dark"), Some(true));
    assert_eq!(theme_appearance("system"), None);
    assert_eq!(launcher_surface("glass"), Surface::Glass { clear: false });
    assert_eq!(launcher_surface("glass_clear"), Surface::Glass { clear: true });
    assert_eq!(launcher_surface("vibrancy"), Surface::Vibrancy);
    assert_eq!(side_effect_for("menubar_visible"), SideEffect::TrayVisibility);
    assert_eq!(side_effect_for("theme"), SideEffect::Theme);
    assert_eq!(side_effect_for("launcher_style"), SideEffect::Theme);
    assert_eq!(side_effect_for("language"), SideEffect::Language);
    assert_eq!(side_effect_for("font_scale"), SideEffect::FontScale);
    assert_eq!(side_effect_for("result_limit"), SideEffect::Nothing);
    assert_eq!(tray_action("open"), TrayAction::Open);
    assert_eq!(tray_action("settings"), TrayAction::Settings);
    assert_eq!(tray_action("reindex"), TrayAction::Reindex);
    assert_eq!(tray_action("quit"), TrayAction::Quit);
    assert_eq!(tray_action("other"), TrayAction::Nothing);
}

#[test]
fn failed_shortcut_rolls_back() {
    let ok = shortcut_outcome("Cmd+Space".into(), "Alt+Space", Ok(()));
    assert_eq!(ok, ShortcutOutcome::Persist("Alt+Space".into()));
    let bad = shortcut_outcome("Cmd+Space".into(), "Bogus", Err("bad key".into()));
    assert_eq!(
        bad,
        ShortcutOutcome::RollBack {
            restore: "Cmd+Space".into(),
            error: "could not register 'Bogus': bad key".into()
        }
    );
}

#[test]
fn settings_merge_over_defaults() {
    let defaults = vec![("shortcut".to_string(), 1), ("theme".to_string(), 2), ("result_limit".to_string(), 10)];
    let merged = merge_settings(defaults, vec![None, Some(7), Some(20)]);
    assert_eq!(merged, vec![("shortcut".to_string(), 1), ("theme".to_string(), 7), ("result_limit".to_string(), 20)]);
}

#[test]
fn folder_toggle_restores_app_preferences() {
    let da = set(&["/Users/jp/Applications/CLion.app"]);
    let df = set_membership(&set(&[]), "/Users/jp/Applications", true);
    assert!(!app_enabled("/Users/jp/Applications/Xcode.app", &da, &df));
    let df = set_membership(&df, "/Users/jp/Applications", false);
    assert!(app_enabled("/Users/jp/Applications/Xcode.app", &da, &df));
    assert!(!app_enabled("/Users/jp/Applications/CLion.app", &da, &df));
}

#[test]
fn default_settings_keys_and_values() {
    let d = default_settings();
    let expected = vec![
        ("shortcut".to_string(), SettingValue::Text("CmdOrCtrl+Shift+Space".to_string())),
        ("menubar_visible".to_string(), SettingValue::Flag(true)),
        ("theme".to_string(), SettingValue::Text("system".to_string())),
        ("launcher_style".to_string(), SettingValue::Text("glass".to_string())),
        ("language".to_string(), SettingValue::Text("system".to_string())),
        ("font_scale".to_string(), SettingValue::Text("normal".to_string())),
        ("result_limit".to_string(), SettingValue::Count(10)),
        ("frecency".to_string(), SettingValue::EmptyObject),
    ];
    assert_eq!(d, expected);
}

#[test]
fn stored_settings_override_defaults() {
    let defaults: Vec<(String, String)> = default_settings()
        .into_iter()
        .map(|(k, v)| (k, format!("{v:?}")))
        .collect();
    let mut stored: Vec<Option<String>> = vec![None; defaults.len()];
    stored[2] = Some("dark".to_string());
    let merged = merge_settings(defaults, stored);
    assert_eq!(merged.len(), 8);
    assert_eq!(merged[2], ("theme".to_string(), "dark".to_string()));
    assert_eq!(merged[6].0, "result_limit");
    assert_eq!(merged[6].1, "Count(10)");
}

#[test]
fn launch_recorded_for_existing_app() {
    let mut table = vec![
        ("/A.app".to_string(), Some(3)),
        ("/B.app".to_string(), None),
        ("/C.app".to_string(), Some(7)),
    ];
    assert_eq!(record_launch(&mut table, "/A.app"), 4);
    assert_eq!(
        table,
        vec![
            ("/A.app".to_string(), Some(4)),
            ("/B.app".to_string(), None),
            ("/C.app".to_string(), Some(7)),
        ]
    );
    // An entry without a number counts as 0.
    assert_eq!(record_launch(&mut table, "/B.app"), 1);
    assert_eq!(table[1], ("/B.app".to_string(), Some(1)));
    assert_eq!(table[2], ("/C.app".to_string(), Some(7)));
}

#[test]
fn launch_recorded_for_new_app() {
    let mut table = vec![("/A.app".to_string(), Some(3))];
    assert_eq!(record_launch(&mut table, "/N.app"), 1);
    assert_eq!(table, vec![("/A.app".to_string(), Some(3)), ("/N.app".to_string(), Some(1))]);
    assert_eq!(record_launch(&mut table, "/N.app"), 2);
    assert_eq!(table[1], ("/N.app".to_string(), Some(2)));
}

#[test]
fn language_restart_needed_only_on_failed_swap() {
    assert!(!language_needs_restart(None, true));
    assert!(!language_needs_restart(Some(true), true));
    assert!(language_needs_restart(Some(false), true));
    assert!(language_needs_restart(None, false));
    assert!(language_needs_restart(Some(true), false));
}
