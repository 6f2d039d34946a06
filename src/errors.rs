use vstd::prelude::*;

verus! {

/// Every way an operation of the invoice platform can fail. A failed
/// operation leaves the platform state exactly as it was.
#[derive(Clone, Copy, Debug, PartialEq, Eq, Structural)]
pub enum ContractError {
    /// The platform has already been initialized.
    AlreadyInitialized,
    /// The caller is not the party the operation is reserved for.
    Unauthorized,
    /// No invoice has the given id.
    InvoiceNotFound,
    /// The invoice's lifecycle status does not allow the operation.
    InvalidStatus,
    /// A non-positive amount, or one outside the supported range.
    InvalidAmount,
    /// The source holding or order has fewer tokens than requested.
    InsufficientTokens,
    /// The investor or order buyer is not KYC-approved.
    KYCRequired,
    /// The invoice is frozen by a dispute.
    InvoiceDisputed,
    /// The offered settlement payment is below what is owed.
    InsufficientPayment,
    /// The invoice can no longer be revoked.
    CannotRevoke,
    /// No dispute was recorded for the invoice.
    DisputeNotFound,
    /// The holder has no tokens of the invoice.
    HoldingNotFound,
    /// No auction was started for the invoice.
    AuctionNotStarted,
    /// The auction is not running.
    AuctionNotActive,
    /// The insurance pool cannot pay anything for the claim.
    InsufficientInsurancePool,
    /// Insurance is claimable only on a defaulted invoice.
    NotDefaulted,
    /// The holder already claimed insurance for this invoice.
    AlreadyClaimed,
    /// No sell order has the given id.
    OrderNotFound,
    /// The order is filled or cancelled.
    OrderNotActive,
    /// A filled order cannot be cancelled.
    OrderAlreadyFilled,
    /// Auction duration or discount out of range.
    InvalidAuctionParams,
}

} // verus!
