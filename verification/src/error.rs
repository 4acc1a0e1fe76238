//! The engine's error taxonomy.  Fatal conditions propagate to the
//! transaction boundary and roll the whole write back; soft failures
//! (unavailable items) are ordinary return values of the checker and
//! never appear here.

use vstd::prelude::*;

verus! {

/// A fatal engine error.
#[derive(Clone, Copy, Debug, PartialEq, Eq, Structural)]
pub enum EngineError {
    /// A mutation met a sku the registry does not know.
    SkuNotFound,
    /// An update touched no row: a lost update or a concurrent removal.
    UpdateAffectedZero,
}

impl EngineError {
    /// A short description, for callers that log or display errors.
    pub fn message(&self) -> &'static str {
        match self {
            EngineError::SkuNotFound => "SKU not found!",
            EngineError::UpdateAffectedZero => "Please ensure order is correct!",
        }
    }
}

/// The request-level error codes the service surfaces to clients.
#[derive(Clone, Copy, Debug, PartialEq, Eq, Structural)]
pub enum CustomErrorCode {
    PersonNotFound,
    AreaNotFound,
    WarehouseNotFound,
    SKUCategoryNotFound,
    SKUNotFound,
    OrderNotFound,
    OrderStatusNotFound,
    OrderPaymentSettled,
    OrderPaymentNotFound,
    OrderPaymentIsNone,
    OrderItemsIsEmpty,
    UserNotFound,
    WrongPassword,
    NoPermission,
    SameObject,
    CheckFailed,
    NotAllowed,
    TotalAmountUnexpected,
    SomeoneIsDepentIt,
    Linked,
    Unlinked,
    NotLinked,
    GuestOrderConfirmed,
    GuestOrderExpired,
    FromGuestOrder,
    UserLimitExceeded,
    WarehouseLimitExceeded,
    AreaLimitExceeded,
    PersonLimitExceeded,
    SKUCategoryLimitExceeded,
    SKULimitExceeded,
    OrderLimitExceeded,
    OrderStatusLimitExceeded,
    OrderPaymentLimitExceeded,
    GuestOrderLimitExceeded,
}

/// Why a guest order could not be confirmed.
#[derive(Clone, Copy, Debug, PartialEq, Eq, Structural)]
pub enum GuestConfirmError {
    /// No guest order under that id.
    OrderNotFound,
    /// The guest order is already confirmed; a terminal state.
    GuestOrderConfirmed,
    /// The guest order has expired; a terminal state.
    GuestOrderExpired,
    /// The confirmation's own mutation failed fatally.
    Engine(EngineError),
}

} // verus!
