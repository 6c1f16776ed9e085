use std::collections::HashSet;

use spotlight::apps::{
    classify_entry, dirs_to_scan, enumerate, enumerate_with, make_entry, read_info_plist,
    AppEntry, ScanStep,
};

fn plist(entries: &[(&str, &str)]) -> Vec<u8> {
    let mut body = String::new();
    for (k, v) in entries {
        body.push_str(&format!("<key>{k}</key>{v}"));
    }
    format!(
        "<?xml version=\"1.0\" encoding=\"UTF-8\"?>\n<!DOCTYPE plist PUBLIC \"-//Apple//DTD PLIST 1.0//EN\" \"http://www.apple.com/DTDs/PropertyList-1.0.dtd\">\n<plist version=\"1.0\"><dict>{body}</dict></plist>\n"
    )
    .into_bytes()
}

/// One directory listing entry: its path, whether it is a directory, and the bytes of
/// its `Contents/Info.plist` when it has one.
type Listing = Vec<(&'static str, bool, Option<Vec<u8>>)>;

/// Applies the library's scanning decisions to a listing, as the launcher does on disk:
/// bundles become entries, folders at depth 0 are listed one level deeper (their
/// entries are in the same listing with depth 1).
fn scan(listing: &Listing, depth_of: &dyn Fn(&str) -> u8) -> Vec<AppEntry> {
    let mut out = Vec::new();
    for (path, is_dir, info) in listing {
        match classify_entry(path, *is_dir, depth_of(path)) {
            ScanStep::App => {
                if let Some(a) = make_entry(path, info.as_deref()) {
                    out.push(a);
                }
            }
            ScanStep::Descend | ScanStep::Skip => {}
        }
    }
    out
}

fn apps_listing() -> Listing {
    vec![
        ("/T/Apps/Zeta.app", true, None),
        ("/T/Apps/alpha.app", true, Some(plist(&[("CFBundleName", "<string>beta</string>"), ("CFBundleIdentifier", "<string>com.x.beta</string>")]))),
        ("/T/Apps/Blank.app", true, Some(plist(&[("CFBundleDisplayName", "<string>   </string>")]))),
        ("/T/Apps/notes.txt", false, None),
        ("/T/Apps/Utilities", true, None),
        ("/T/Apps/Utilities/Gamma.app", true, Some(plist(&[("CFBundleDisplayName", "<string>Alpha</string>"), ("CFBundleName", "<string>Ignored</string>")]))),
        ("/T/Apps/Utilities/Deep", true, None),
    ]
}

fn depth(p: &str) -> u8 {
    if p.starts_with("/T/Apps/Utilities/") { 1 } else { 0 }
}

fn fixture() -> (Vec<AppEntry>, Vec<AppEntry>) {
    let more: Listing = vec![("/T/More/Delta.app", true, None)];
    (scan(&apps_listing(), &depth), scan(&more, &depth))
}

/// The standard locations of a stock macOS install, as listings.
fn system_listings() -> Vec<Listing> {
    let app = |name: &str, id: &str| Some(plist(&[("CFBundleName", &format!("<string>{name}</string>")), ("CFBundleIdentifier", &format!("<string>{id}</string>"))]));
    vec![
        vec![("/Applications/Safari.app", true, app("Safari", "com.apple.Safari"))],
        vec![],
        vec![
            ("/System/Applications/Calculator.app", true, app("Calculator", "com.apple.calculator")),
            ("/System/Applications/Mail.app", true, app("Mail", "com.apple.mail")),
            ("/System/Applications/Utilities", true, None),
            ("/System/Applications/Utilities/Terminal.app", true, app("Terminal", "com.apple.Terminal")),
        ],
        vec![("/System/Applications/Utilities/Terminal.app", true, app("Terminal", "com.apple.Terminal"))],
    ]
}

fn system_depth(p: &str) -> u8 {
    if p.starts_with("/System/Applications/Utilities/") && p.matches('/').count() > 4 { 1 } else { 0 }
}

#[test]
fn enumerates_system_apps() {
    let scanned: Vec<Vec<AppEntry>> = system_listings().iter().map(|l| scan(l, &system_depth)).collect();
    let apps = enumerate(&scanned);
    // Every macOS install has these; if enumeration works at all, they appear.
    assert!(!apps.is_empty(), "expected some apps");
    let names: Vec<_> = apps.iter().map(|a| a.name.to_lowercase()).collect();
    assert!(
        names.iter().any(|n| n.contains("calculator")),
        "expected Calculator in {names:?}"
    );
    assert_eq!(names, vec!["calculator", "mail", "safari", "terminal"]);
}

#[test]
fn entries_are_sorted_and_unique() {
    let (apps_dir, more_dir) = fixture();
    // The same folder twice: every bundle in it is found twice.
    let apps = enumerate(&vec![apps_dir.clone(), more_dir, apps_dir]);
    let mut paths = HashSet::new();
    for a in &apps {
        assert!(paths.insert(a.path.clone()), "duplicate path {}", a.path);
        assert!(a.path.ends_with(".app"));
    }
    let mut sorted = apps.clone();
    sorted.sort_by(|a, b| a.name.to_lowercase().cmp(&b.name.to_lowercase()));
    let a: Vec<_> = apps.iter().map(|x| &x.name).collect();
    let b: Vec<_> = sorted.iter().map(|x| &x.name).collect();
    assert_eq!(a, b, "enumerate() should return sorted entries");
    let names: Vec<&str> = apps.iter().map(|x| x.name.as_str()).collect();
    assert_eq!(names, vec!["Alpha", "beta", "Blank", "Delta", "Zeta"]);
}

#[test]
fn progress_counts_running_totals() {
    let (apps_dir, more_dir) = fixture();
    let (apps, counts) = enumerate_with(&vec![apps_dir.clone(), more_dir, apps_dir, Vec::new()]);
    assert_eq!(counts, vec![4, 5, 5, 5]);
    assert_eq!(apps.len(), 5);
    let beta = apps.iter().find(|a| a.name == "beta").unwrap();
    assert_eq!(beta.bundle_id.as_deref(), Some("com.x.beta"));
    assert_eq!(beta.path, "/T/Apps/alpha.app");
}

#[test]
fn first_found_entry_wins_and_ties_keep_scan_order() {
    let e = |n: &str, p: &str| AppEntry { name: n.into(), path: p.into(), bundle_id: None };
    let scanned = vec![
        vec![e("b", "/1/b.app"), e("Same", "/1/x.app")],
        vec![e("Other", "/1/b.app"), e("same", "/2/x.app"), e("A", "/2/a.app")],
    ];
    let (apps, counts) = enumerate_with(&scanned);
    let got: Vec<(&str, &str)> = apps.iter().map(|a| (a.name.as_str(), a.path.as_str())).collect();
    assert_eq!(got, vec![("A", "/2/a.app"), ("b", "/1/b.app"), ("Same", "/1/x.app"), ("same", "/2/x.app")]);
    assert_eq!(counts, vec![2, 4]);
}

#[test]
fn info_plist_fields() {
    let b = plist(&[("CFBundleDisplayName", "<string>Shown</string>"), ("CFBundleName", "<string>Name</string>"), ("CFBundleIdentifier", "<string>id.x</string>")]);
    assert_eq!(read_info_plist(&b), Some((Some("Shown".to_string()), Some("id.x".to_string()))));
    // A non-string display name is taken as no name: there is no fall back to CFBundleName.
    let b = plist(&[("CFBundleDisplayName", "<integer>3</integer>"), ("CFBundleName", "<string>Name</string>")]);
    assert_eq!(read_info_plist(&b), Some((None, None)));
    let b = plist(&[("CFBundleName", "<string>Name</string>")]);
    assert_eq!(read_info_plist(&b), Some((Some("Name".to_string()), None)));
    assert_eq!(read_info_plist(b"not a plist"), None);
}

#[test]
fn entries_fall_back_to_the_file_stem() {
    let blank = plist(&[("CFBundleDisplayName", "<string> \t</string>")]);
    let e = make_entry("/Applications/Calc.app", Some(&blank)).unwrap();
    assert_eq!(e, AppEntry { name: "Calc".into(), path: "/Applications/Calc.app".into(), bundle_id: None });
    let e = make_entry("/Applications/Calc.app", None).unwrap();
    assert_eq!(e.name, "Calc");
    let named = plist(&[("CFBundleDisplayName", "<string>Calculator</string>"), ("CFBundleIdentifier", "<string>com.apple.calculator</string>")]);
    let e = make_entry("/System/Applications/Calculator.app", Some(&named)).unwrap();
    assert_eq!(e.bundle_id.as_deref(), Some("com.apple.calculator"));
}

#[test]
fn classify_scan_entries() {
    assert_eq!(classify_entry("/Applications/Safari.app", true, 0), ScanStep::App);
    assert_eq!(classify_entry("/Applications/Safari.app", true, 1), ScanStep::App);
    assert_eq!(classify_entry("/Applications/Utilities", true, 0), ScanStep::Descend);
    assert_eq!(classify_entry("/Applications/Utilities/Deep", true, 1), ScanStep::Skip);
    assert_eq!(classify_entry("/Applications/readme.txt", false, 0), ScanStep::Skip);
    assert_eq!(classify_entry("/Applications/.app", true, 0), ScanStep::Descend);
}

#[test]
fn scanned_directories() {
    let none: Vec<String> = Vec::new();
    assert_eq!(
        dirs_to_scan(Some("/Users/jp"), &vec!["/Volumes/X".to_string()]),
        vec![
            "/Applications",
            "/Applications/Utilities",
            "/System/Applications",
            "/System/Applications/Utilities",
            "/Users/jp/Applications",
            "/Volumes/X"
        ]
    );
    assert_eq!(dirs_to_scan(Some("/Users/jp/Library/Containers/co.x/Data"), &none).len(), 4);
    assert_eq!(dirs_to_scan(None, &none).len(), 4);
    assert_eq!(dirs_to_scan(Some("/"), &none)[4], "/Applications");
}

#[test]
fn enumerate_lists_what_enumerate_with_lists() {
    let (apps_dir, more_dir) = fixture();
    let e = |n: &str, p: &str| AppEntry { name: n.into(), path: p.into(), bundle_id: None };
    let ties = vec![e("Same", "/1/x.app"), e("same", "/2/x.app"), e("SAME", "/3/x.app")];
    let scanned = vec![apps_dir, ties, more_dir];
    let (with_totals, _) = enumerate_with(&scanned);
    assert_eq!(enumerate(&scanned), with_totals);
    let paths: Vec<&str> = with_totals.iter().map(|a| a.path.as_str()).collect();
    assert!(paths.iter().all(|p| p.ends_with(".app")));
    let tied: Vec<&str> = paths.iter().copied().filter(|p| p.ends_with("x.app")).collect();
    assert_eq!(tied, vec!["/1/x.app", "/2/x.app", "/3/x.app"]);
}

#[test]
fn bundles_end_in_dot_app() {
    assert_eq!(classify_entry("/Applications/Foo.bar.app", true, 0), ScanStep::App);
    assert_eq!(classify_entry("/Applications/Foo.application", true, 1), ScanStep::Skip);
    assert_eq!(classify_entry("/Applications/app", true, 1), ScanStep::Skip);
}
