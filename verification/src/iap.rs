//! In-app purchase entitlement for the Favorites feature: the error kinds, their
//! localized keys, and the purchase backend of builds that do not ship StoreKit.

use vstd::prelude::*;

use crate::i18n::Key;

verus! {

/// A localizable purchase failure.
#[derive(Clone, Copy, Debug, PartialEq, Eq)]
pub enum IapError {
    Cancelled,
    Unavailable,
    PurchaseFailed,
    RestoreFailed,
    StoreOnly,
}

/// The message key of each failure.
pub open spec fn error_key(e: IapError) -> Key {
    match e {
        IapError::Cancelled => Key::IapCancelled,
        IapError::Unavailable => Key::IapUnavailable,
        IapError::PurchaseFailed => Key::IapPurchaseFailed,
        IapError::RestoreFailed => Key::IapRestoreFailed,
        IapError::StoreOnly => Key::IapStoreOnly,
    }
}

impl IapError {
    /// The i18n key for this error's user-facing message.
    pub fn key(self) -> (k: Key)
        ensures
            k == error_key(self),
    {
        match self {
            IapError::Cancelled => Key::IapCancelled,
            IapError::Unavailable => Key::IapUnavailable,
            IapError::PurchaseFailed => Key::IapPurchaseFailed,
            IapError::RestoreFailed => Key::IapRestoreFailed,
            IapError::StoreOnly => Key::IapStoreOnly,
        }
    }
}

/// The product's localized price: none outside the App Store build.
pub fn price() -> (r: Option<String>)
    ensures
        r.is_none(),
{
    None
}

/// Whether the unlock can be bought: never outside the App Store build.
pub fn purchasable() -> (r: bool)
    ensures
        !r,
{
    false
}

/// Whether the unlock has been bought: never outside the App Store build.
pub fn is_purchased() -> (r: bool)
    ensures
        !r,
{
    false
}

/// Buys the unlock: outside the App Store build this always fails with `StoreOnly`.
pub fn purchase() -> (r: Result<(), IapError>)
    ensures
        r == Err::<(), IapError>(IapError::StoreOnly),
{
    Err(IapError::StoreOnly)
}

/// Restores a previous purchase: outside the App Store build this always fails with
/// `StoreOnly`.
pub fn restore() -> (r: Result<bool, IapError>)
    ensures
        r == Err::<bool, IapError>(IapError::StoreOnly),
{
    Err(IapError::StoreOnly)
}

/// The outcome the StoreKit helper's purchase status code stands for: 0 bought,
/// 1 cancelled, 3 unavailable, anything else a failure.
pub open spec fn purchase_outcome(code: i32) -> Result<(), IapError> {
    if code == 0 {
        Ok(())
    } else if code == 1 {
        Err(IapError::Cancelled)
    } else if code == 3 {
        Err(IapError::Unavailable)
    } else {
        Err(IapError::PurchaseFailed)
    }
}

/// Decodes the StoreKit helper's purchase status code.
pub fn purchase_from_status(code: i32) -> (r: Result<(), IapError>)
    ensures
        r == purchase_outcome(code),
{
    if code == 0 {
        Ok(())
    } else if code == 1 {
        Err(IapError::Cancelled)
    } else if code == 3 {
        Err(IapError::Unavailable)
    } else {
        Err(IapError::PurchaseFailed)
    }
}

/// The outcome the StoreKit helper's restore status code stands for: 0 restored,
/// 1 nothing to restore, 3 unavailable, anything else a failure.
pub open spec fn restore_outcome(code: i32) -> Result<bool, IapError> {
    if code == 0 {
        Ok(true)
    } else if code == 1 {
        Ok(false)
    } else if code == 3 {
        Err(IapError::Unavailable)
    } else {
        Err(IapError::RestoreFailed)
    }
}

/// Decodes the StoreKit helper's restore status code.
pub fn restore_from_status(code: i32) -> (r: Result<bool, IapError>)
    ensures
        r == restore_outcome(code),
{
    if code == 0 {
        Ok(true)
    } else if code == 1 {
        Ok(false)
    } else if code == 3 {
        Err(IapError::Unavailable)
    } else {
        Err(IapError::RestoreFailed)
    }
}

} // verus!
