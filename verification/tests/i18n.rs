use spotlight::macos::login_result;
use spotlight::i18n::{already_searched, lang_from_locale, resolve, resolve_for, setting, t, tr, Key, Lang};
use spotlight::iap::{purchase, purchase_from_status, restore, restore_from_status, IapError};
use spotlight::macos::{launcher_material, login_error_message, LoginError, Material};

#[test]
fn tags_and_resolution() {
    assert_eq!(Lang::EnUs.as_tag(), "en-US");
    assert_eq!(Lang::PtBr.as_tag(), "pt-BR");
    assert_eq!(resolve("en-US"), Lang::EnUs);
    assert_eq!(resolve("pt-BR"), Lang::PtBr);
    assert_eq!(resolve(Lang::PtBr.as_tag()), Lang::PtBr);
    assert_eq!(setting(None), "system");
    assert_eq!(setting(Some("pt-BR".into())), "pt-BR");
}

#[test]
fn locale_mapping() {
    assert_eq!(lang_from_locale(Some("pt-PT".into())), Lang::PtBr);
    assert_eq!(lang_from_locale(Some("PT".into())), Lang::PtBr);
    assert_eq!(lang_from_locale(Some("pt_BR".into())), Lang::PtBr);
    assert_eq!(lang_from_locale(Some("en-US".into())), Lang::EnUs);
    assert_eq!(lang_from_locale(Some("p".into())), Lang::EnUs);
    assert_eq!(lang_from_locale(None), Lang::EnUs);
}

#[test]
fn localized_strings() {
    assert_eq!(tr(Lang::EnUs, Key::TrayOpen), "Open My App Spot");
    assert_eq!(t("pt-BR", Key::TraySettings), "Ajustes...");
    assert_eq!(t("en-US", Key::SettingsTitle), "My App Spot Settings");
    assert_eq!(tr(Lang::PtBr, Key::TrayQuit), "Encerrar");
    assert_eq!(tr(Lang::PtBr, Key::MenuWindow), "Janela");
    assert_eq!(tr(Lang::EnUs, Key::IapCancelled), tr(Lang::PtBr, Key::IapCancelled));
    assert_eq!(tr(Lang::PtBr, Key::LoginServiceUnavailable), "SMAppService.mainApp indisponível");
    assert_eq!(
        already_searched(Lang::EnUs, "/a/b", "/a"),
        "\"/a/b\" is already searched (via /a)."
    );
    assert_eq!(
        already_searched(Lang::PtBr, "/a/b", "/a"),
        "\"/a/b\" já está na busca (via /a)."
    );
}

#[test]
fn purchase_errors() {
    assert_eq!(IapError::Cancelled.key(), Key::IapCancelled);
    assert_eq!(IapError::StoreOnly.key(), Key::IapStoreOnly);
    assert!(matches!(purchase(), Err(IapError::StoreOnly)));
    assert!(matches!(restore(), Err(IapError::StoreOnly)));
    assert!(matches!(purchase_from_status(0), Ok(())));
    assert!(matches!(purchase_from_status(1), Err(IapError::Cancelled)));
    assert!(matches!(purchase_from_status(3), Err(IapError::Unavailable)));
    assert!(matches!(purchase_from_status(2), Err(IapError::PurchaseFailed)));
    assert!(matches!(restore_from_status(0), Ok(true)));
    assert!(matches!(restore_from_status(1), Ok(false)));
    assert!(matches!(restore_from_status(3), Err(IapError::Unavailable)));
    assert!(matches!(restore_from_status(7), Err(IapError::RestoreFailed)));
}

#[test]
fn login_errors() {
    assert_eq!(LoginError::NeedsMacos13.key(), Key::LoginNeedsMacos13);
    assert_eq!(LoginError::ServiceUnavailable.key(), Key::LoginServiceUnavailable);
    assert_eq!(LoginError::Unknown.key(), Key::LoginUnknownError);
    assert_eq!(login_error_message(LoginError::Os("denied".into()), Lang::EnUs), "denied");
    assert_eq!(login_error_message(LoginError::Unknown, Lang::PtBr), "erro desconhecido");
    assert_eq!(
        login_error_message(LoginError::NeedsMacos13, Lang::EnUs),
        "Launch at login requires macOS 13 or later"
    );
    assert_eq!(launcher_material(true), Material::HudWindow);
    assert_eq!(launcher_material(false), Material::Sidebar);
}

#[test]
fn login_results() {
    assert_eq!(login_result(false, true, true, None), Err(LoginError::NeedsMacos13));
    assert_eq!(login_result(true, false, true, None), Err(LoginError::ServiceUnavailable));
    assert_eq!(login_result(true, true, true, None), Ok(()));
    assert_eq!(login_result(true, true, false, None), Err(LoginError::Unknown));
    assert_eq!(login_result(true, true, false, Some(None)), Err(LoginError::Unknown));
    assert_eq!(
        login_result(true, true, false, Some(Some("Operation not permitted".into()))),
        Err(LoginError::Os("Operation not permitted".into()))
    );
}

#[test]
fn resolution_with_a_given_locale() {
    assert_eq!(resolve_for("system", Some("pt_BR".into())), Lang::PtBr);
    assert_eq!(resolve_for("system", Some("en-GB".into())), Lang::EnUs);
    assert_eq!(resolve_for("system", None), Lang::EnUs);
    assert_eq!(resolve_for("en-US", Some("pt-BR".into())), Lang::EnUs);
    assert_eq!(resolve_for("pt-BR", Some("en-US".into())), Lang::PtBr);
    assert_eq!(resolve_for("something-else", Some("PT".into())), Lang::PtBr);
}
