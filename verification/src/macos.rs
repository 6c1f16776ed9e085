//! Decisions of the macOS layer that do not touch AppKit: the launcher's vibrancy
//! material and the "open at login" failures.

use vstd::prelude::*;

use crate::i18n::{localized, tr, Key, Lang};

verus! {

/// The vibrancy materials the launcher uses.
#[derive(Clone, Copy, Debug, PartialEq, Eq)]
pub enum Material {
    /// The dark HUD glass.
    HudWindow,
    /// An adaptive light material.
    Sidebar,
}

/// The vibrancy material for a given effective appearance: the dark HUD glass in dark
/// mode, an adaptive light material in light mode.
pub fn launcher_material(dark: bool) -> (m: Material)
    ensures
        m == (if dark { Material::HudWindow } else { Material::Sidebar }),
{
    if dark {
        Material::HudWindow
    } else {
        Material::Sidebar
    }
}

/// A localizable "open at login" failure. `Os` carries the system's own (already
/// localized) description.
#[derive(Debug, PartialEq, Eq)]
pub enum LoginError {
    NeedsMacos13,
    ServiceUnavailable,
    Unknown,
    Os(String),
}

/// The message key of each failure (`Os` has its own text; it maps to the fallback key).
pub open spec fn login_error_key(e: LoginError) -> Key {
    match e {
        LoginError::NeedsMacos13 => Key::LoginNeedsMacos13,
        LoginError::ServiceUnavailable => Key::LoginServiceUnavailable,
        _ => Key::LoginUnknownError,
    }
}

impl LoginError {
    /// The i18n key for the non-OS variants.
    pub fn key(&self) -> (k: Key)
        ensures
            k == login_error_key(*self),
    {
        match self {
            LoginError::NeedsMacos13 => Key::LoginNeedsMacos13,
            LoginError::ServiceUnavailable => Key::LoginServiceUnavailable,
            _ => Key::LoginUnknownError,
        }
    }
}

/// The message shown for a failure: the system's description for `Os`, else the
/// localized text of its key.
pub fn login_error_message(e: LoginError, lang: Lang) -> (r: String)
    ensures
        r@ == (match e {
            LoginError::Os(s) => s@,
            other => localized(lang, login_error_key(other)),
        }),
{
    match e {
        LoginError::Os(s) => s,
        other => String::from_str(tr(lang, other.key())),
    }
}

/// What a registration attempt with `SMAppService.mainApp` observed, in order: whether
/// the class exists (macOS 13+), whether the service object exists, whether the call
/// succeeded, and, on failure, the error object (`None` when there is none) with its
/// localized description (`None` when it has none).
pub open spec fn login_outcome(
    has_class: bool,
    has_service: bool,
    succeeded: bool,
    error: Option<Option<Seq<char>>>,
) -> Result<(), (Key, Option<Seq<char>>)> {
    if !has_class {
        Err((Key::LoginNeedsMacos13, None))
    } else if !has_service {
        Err((Key::LoginServiceUnavailable, None))
    } else if succeeded {
        Ok(())
    } else {
        match error {
            Some(Some(d)) => Err((Key::LoginUnknownError, Some(d))),
            _ => Err((Key::LoginUnknownError, None)),
        }
    }
}

/// Maps what an "open at login" registration observed to its result.
pub fn login_result(has_class: bool, has_service: bool, succeeded: bool, error: Option<Option<String>>) -> (r: Result<(), LoginError>)
    ensures
        match r {
            Ok(()) => login_outcome(has_class, has_service, succeeded, match error {
                Some(Some(d)) => Some(Some(d@)),
                Some(None) => Some(None),
                None => None,
            }) == Ok::<(), (Key, Option<Seq<char>>)>(()),
            Err(e) => login_outcome(has_class, has_service, succeeded, match error {
                Some(Some(d)) => Some(Some(d@)),
                Some(None) => Some(None),
                None => None,
            }) == Err::<(), (Key, Option<Seq<char>>)>((login_error_key(e), match e {
                LoginError::Os(d) => Some(d@),
                _ => None,
            })),
        },
{
    if !has_class {
        Err(LoginError::NeedsMacos13)
    } else if !has_service {
        Err(LoginError::ServiceUnavailable)
    } else if succeeded {
        Ok(())
    } else {
        match error {
            Some(Some(d)) => Err(LoginError::Os(d)),
            _ => Err(LoginError::Unknown),
        }
    }
}

} // verus!
