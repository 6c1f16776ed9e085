//! Localized strings for the native surfaces (tray menu, app menu, settings title,
//! folder picker, error messages). Supported languages: en-US and pt-BR.

use vstd::prelude::*;

use crate::text::concat;

verus! {

/// A supported UI language.
#[derive(Clone, Copy, PartialEq, Eq, Debug)]
pub enum Lang {
    EnUs,
    PtBr,
}

/// The tag of a language, as stored and sent to the frontend.
pub open spec fn lang_tag(lang: Lang) -> Seq<char> {
    match lang {
        Lang::EnUs => "en-US"@,
        Lang::PtBr => "pt-BR"@,
    }
}

impl Lang {
    /// BCP-47-ish tag used in the store and over the wire to the frontend.
    pub fn as_tag(self) -> (r: &'static str)
        ensures
            r@ == lang_tag(self),
    {
        match self {
            Lang::EnUs => "en-US",
            Lang::PtBr => "pt-BR",
        }
    }
}

/// `c` with ASCII upper-case letters mapped to lower case.
pub open spec fn ascii_lower(c: char) -> char {
    if 'A' <= c && c <= 'Z' {
        ((c as u32) + 32) as char
    } else {
        c
    }
}

/// The language for an OS locale tag: Portuguese in any region maps to pt-BR; anything
/// else, or no locale at all, to en-US.
pub open spec fn lang_for_locale(locale: Option<Seq<char>>) -> Lang {
    match locale {
        Some(l) => if l.len() >= 2 && ascii_lower(l[0]) == 'p' && ascii_lower(l[1]) == 't' {
            Lang::PtBr
        } else {
            Lang::EnUs
        },
        None => Lang::EnUs,
    }
}

/// Maps an OS locale tag to a supported language, as `to_ascii_lowercase().starts_with("pt")`
/// decides.
pub fn lang_from_locale(locale: Option<String>) -> (r: Lang)
    ensures
        r == lang_for_locale(match locale { Some(l) => Some(l@), None => None }),
{
    match locale {
        Some(l) => {
            let n = l.as_str().unicode_len();
            if n >= 2 {
                let a = l.as_str().get_char(0);
                let b = l.as_str().get_char(1);
                if (a == 'p' || a == 'P') && (b == 't' || b == 'T') {
                    Lang::PtBr
                } else {
                    Lang::EnUs
                }
            } else {
                Lang::EnUs
            }
        },
        None => Lang::EnUs,
    }
}

/// Calls `sys_locale::get_locale`, the OS's preferred UI locale. What it returns depends
/// on the machine, so nothing is stated of it.
#[verifier::external_body]
fn os_locale() -> Option<String> {
    sys_locale::get_locale()
}

/// Detects the OS UI language and maps it to a supported [`Lang`] (see
/// [`lang_from_locale`]). Whatever the OS reports, the result is a supported language.
pub fn detect_os() -> (r: Lang) {
    lang_from_locale(os_locale())
}

/// The stored `language` preference, `"system"` when unset or not a string.
pub fn setting(stored: Option<String>) -> (r: String)
    ensures
        r@ == (match stored { Some(s) => s@, None => "system"@ }),
{
    match stored {
        Some(s) => s,
        None => String::from_str("system"),
    }
}

/// The language a stored preference names, if it names one.
pub open spec fn lang_for_setting(setting: Seq<char>) -> Option<Lang> {
    if setting == "en-US"@ {
        Some(Lang::EnUs)
    } else if setting == "pt-BR"@ {
        Some(Lang::PtBr)
    } else {
        None
    }
}

/// The effective language for a stored preference when the OS reports `locale`:
/// `"en-US"` and `"pt-BR"` name theirs; anything else (normally `"system"`) follows the
/// locale.
pub open spec fn resolved_lang(setting: Seq<char>, locale: Option<Seq<char>>) -> Lang {
    match lang_for_setting(setting) {
        Some(l) => l,
        None => lang_for_locale(locale),
    }
}

/// Resolves the effective language from the stored preference and the OS locale (see
/// [`resolved_lang`]).
pub fn resolve_for(setting: &str, locale: Option<String>) -> (r: Lang)
    ensures
        r == resolved_lang(setting@, match locale { Some(l) => Some(l@), None => None }),
{
    proof {
        reveal_strlit("en-US");
        reveal_strlit("pt-BR");
    }
    if crate::text::same_text(setting, "en-US") {
        Lang::EnUs
    } else if crate::text::same_text(setting, "pt-BR") {
        Lang::PtBr
    } else {
        lang_from_locale(locale)
    }
}

/// Resolves the effective language from the stored preference: `"en-US"` and `"pt-BR"`
/// name theirs; anything else (normally `"system"`) follows the OS locale, which is read
/// only in that case.
pub fn resolve(setting: &str) -> (r: Lang)
    ensures
        lang_for_setting(setting@) matches Some(l) ==> r == l,
{
    proof {
        reveal_strlit("en-US");
        reveal_strlit("pt-BR");
    }
    if crate::text::same_text(setting, "en-US") || crate::text::same_text(setting, "pt-BR") {
        resolve_for(setting, None)
    } else {
        resolve_for(setting, os_locale())
    }
}

/// Keys for the static backend strings.
#[derive(Clone, Copy, PartialEq, Eq, Debug)]
pub enum Key {
    TrayOpen,
    TraySettings,
    TrayReindex,
    TrayQuit,
    MenuEdit,
    MenuWindow,
    SettingsTitle,
    PickerPrompt,
    PickerMessage,
    ErrUnlockFavorites,
    IapCancelled,
    IapUnavailable,
    IapPurchaseFailed,
    IapRestoreFailed,
    IapStoreOnly,
    LoginNeedsMacos13,
    LoginServiceUnavailable,
    LoginUnknownError,
}

/// The text of `key` in `lang`.
pub open spec fn localized(lang: Lang, key: Key) -> Seq<char> {
    match (lang, key) {
        (Lang::EnUs, Key::TrayOpen) => "Open My App Spot"@,
        (Lang::PtBr, Key::TrayOpen) => "Abrir o My App Spot"@,
        (Lang::EnUs, Key::TraySettings) => "Settings..."@,
        (Lang::PtBr, Key::TraySettings) => "Ajustes..."@,
        (Lang::EnUs, Key::TrayReindex) => "Reindex Apps"@,
        (Lang::PtBr, Key::TrayReindex) => "Reindexar apps"@,
        (Lang::EnUs, Key::TrayQuit) => "Quit"@,
        (Lang::PtBr, Key::TrayQuit) => "Encerrar"@,
        (Lang::EnUs, Key::MenuEdit) => "Edit"@,
        (Lang::PtBr, Key::MenuEdit) => "Editar"@,
        (Lang::EnUs, Key::MenuWindow) => "Window"@,
        (Lang::PtBr, Key::MenuWindow) => "Janela"@,
        (Lang::EnUs, Key::SettingsTitle) => "My App Spot Settings"@,
        (Lang::PtBr, Key::SettingsTitle) => "Ajustes do My App Spot"@,
        (Lang::EnUs, Key::PickerPrompt) => "Grant Access"@,
        (Lang::PtBr, Key::PickerPrompt) => "Conceder acesso"@,
        (Lang::EnUs, Key::PickerMessage) => "Choose a folder for My App Spot to search (e.g. your Applications folder)."@,
        (Lang::PtBr, Key::PickerMessage) => "Escolha uma pasta para o My App Spot buscar (por exemplo, sua pasta de Aplicativos)."@,
        (Lang::EnUs, Key::ErrUnlockFavorites) => "Unlock favorites first."@,
        (Lang::PtBr, Key::ErrUnlockFavorites) => "Desbloqueie os favoritos primeiro."@,
        (Lang::EnUs, Key::IapCancelled) => "cancelled"@,
        (Lang::PtBr, Key::IapCancelled) => "cancelled"@,
        (Lang::EnUs, Key::IapUnavailable) => "Purchasing isn't available right now."@,
        (Lang::PtBr, Key::IapUnavailable) => "As compras não estão disponíveis no momento."@,
        (Lang::EnUs, Key::IapPurchaseFailed) => "The purchase couldn't be completed."@,
        (Lang::PtBr, Key::IapPurchaseFailed) => "Não foi possível concluir a compra."@,
        (Lang::EnUs, Key::IapRestoreFailed) => "Restore failed."@,
        (Lang::PtBr, Key::IapRestoreFailed) => "A restauração falhou."@,
        (Lang::EnUs, Key::IapStoreOnly) => "In-app purchase is only available in the App Store build."@,
        (Lang::PtBr, Key::IapStoreOnly) => "As compras no app só estão disponíveis na versão da App Store."@,
        (Lang::EnUs, Key::LoginNeedsMacos13) => "Launch at login requires macOS 13 or later"@,
        (Lang::PtBr, Key::LoginNeedsMacos13) => "Abrir ao iniciar a sessão requer o macOS 13 ou posterior"@,
        (Lang::EnUs, Key::LoginServiceUnavailable) => "SMAppService.mainApp unavailable"@,
        (Lang::PtBr, Key::LoginServiceUnavailable) => "SMAppService.mainApp indisponível"@,
        (Lang::EnUs, Key::LoginUnknownError) => "unknown error"@,
        (Lang::PtBr, Key::LoginUnknownError) => "erro desconhecido"@,
    }
}

/// The text of a static key in an already-resolved language.
pub fn tr(lang: Lang, key: Key) -> (r: &'static str)
    ensures
        r@ == localized(lang, key),
{
    match (lang, key) {
        (Lang::EnUs, Key::TrayOpen) => "Open My App Spot",
        (Lang::PtBr, Key::TrayOpen) => "Abrir o My App Spot",
        (Lang::EnUs, Key::TraySettings) => "Settings...",
        (Lang::PtBr, Key::TraySettings) => "Ajustes...",
        (Lang::EnUs, Key::TrayReindex) => "Reindex Apps",
        (Lang::PtBr, Key::TrayReindex) => "Reindexar apps",
        (Lang::EnUs, Key::TrayQuit) => "Quit",
        (Lang::PtBr, Key::TrayQuit) => "Encerrar",
        (Lang::EnUs, Key::MenuEdit) => "Edit",
        (Lang::PtBr, Key::MenuEdit) => "Editar",
        (Lang::EnUs, Key::MenuWindow) => "Window",
        (Lang::PtBr, Key::MenuWindow) => "Janela",
        (Lang::EnUs, Key::SettingsTitle) => "My App Spot Settings",
        (Lang::PtBr, Key::SettingsTitle) => "Ajustes do My App Spot",
        (Lang::EnUs, Key::PickerPrompt) => "Grant Access",
        (Lang::PtBr, Key::PickerPrompt) => "Conceder acesso",
        (Lang::EnUs, Key::PickerMessage) => "Choose a folder for My App Spot to search (e.g. your Applications folder).",
        (Lang::PtBr, Key::PickerMessage) => "Escolha uma pasta para o My App Spot buscar (por exemplo, sua pasta de Aplicativos).",
        (Lang::EnUs, Key::ErrUnlockFavorites) => "Unlock favorites first.",
        (Lang::PtBr, Key::ErrUnlockFavorites) => "Desbloqueie os favoritos primeiro.",
        (Lang::EnUs, Key::IapCancelled) => "cancelled",
        (Lang::PtBr, Key::IapCancelled) => "cancelled",
        (Lang::EnUs, Key::IapUnavailable) => "Purchasing isn't available right now.",
        (Lang::PtBr, Key::IapUnavailable) => "As compras não estão disponíveis no momento.",
        (Lang::EnUs, Key::IapPurchaseFailed) => "The purchase couldn't be completed.",
        (Lang::PtBr, Key::IapPurchaseFailed) => "Não foi possível concluir a compra.",
        (Lang::EnUs, Key::IapRestoreFailed) => "Restore failed.",
        (Lang::PtBr, Key::IapRestoreFailed) => "A restauração falhou.",
        (Lang::EnUs, Key::IapStoreOnly) => "In-app purchase is only available in the App Store build.",
        (Lang::PtBr, Key::IapStoreOnly) => "As compras no app só estão disponíveis na versão da App Store.",
        (Lang::EnUs, Key::LoginNeedsMacos13) => "Launch at login requires macOS 13 or later",
        (Lang::PtBr, Key::LoginNeedsMacos13) => "Abrir ao iniciar a sessão requer o macOS 13 ou posterior",
        (Lang::EnUs, Key::LoginServiceUnavailable) => "SMAppService.mainApp unavailable",
        (Lang::PtBr, Key::LoginServiceUnavailable) => "SMAppService.mainApp indisponível",
        (Lang::EnUs, Key::LoginUnknownError) => "unknown error",
        (Lang::PtBr, Key::LoginUnknownError) => "erro desconhecido",
    }
}

/// The text of `key` in the language the stored preference `setting` resolves to.
pub fn t(setting: &str, key: Key) -> (r: String)
    ensures
        lang_for_setting(setting@) matches Some(l) ==> r@ == localized(l, key),
{
    String::from_str(tr(resolve(setting), key))
}

/// The grant-folder rejection message: `path` is already searched via `base`.
pub open spec fn already_searched_text(lang: Lang, path: Seq<char>, base: Seq<char>) -> Seq<char> {
    match lang {
        Lang::EnUs => "\""@ + path + "\" is already searched (via "@ + base + ")."@,
        Lang::PtBr => "\""@ + path + "\" já está na busca (via "@ + base + ")."@,
    }
}

/// "<path> is already searched (via <base>)." in `lang`.
pub fn already_searched(lang: Lang, path: &str, base: &str) -> (r: String)
    ensures
        r@ == already_searched_text(lang, path@, base@),
{
    let middle = match lang {
        Lang::EnUs => "\" is already searched (via ",
        Lang::PtBr => "\" já está na busca (via ",
    };
    let a = concat("\"", path);
    let b = concat(a.as_str(), middle);
    let c = concat(b.as_str(), base);
    let r = concat(c.as_str(), ").");
    proof {
        assert(r@ =~= already_searched_text(lang, path@, base@));
    }
    r
}

} // verus!
