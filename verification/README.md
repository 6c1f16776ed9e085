# spotlight

The logic of My App Spot, a keyboard-first macOS app launcher, as a Verus-verified
library, with the Tauri application around it.

- `src/` — the verified library:
  - `apps` — scanning decisions, `Info.plist` fields, de-duplication by path and the
    stable, case-insensitive ordering by display name;
  - `commands` — enabled/disabled apps and folders, the stored string sets, favorites,
    folder grants, the index status breakdown, the settings defaults and decisions, the
    launch counts;
  - `windows` — monitors, per-monitor saved positions, launcher placement;
  - `i18n`, `iap`, `macos`, `permissions`, `codec` — localized strings, purchase
    outcomes, login-item results, the real home directory, base64 text;
  - `lib` — the shared app state (reindexing, icon cache, settings window lifecycle,
    folder-watcher debouncing);
  - `laws` — properties proved across functions;
  - `text`, `order` — character-level helpers and the lexicographic order.
- `tests/` — tests of the library on concrete values.
- `app/` — the Tauri shell: windows, menus, the settings store, the file system and
  the AppKit calls.
