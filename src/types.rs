use vstd::prelude::*;

verus! {

/// Identity of a party (supplier, buyer, investor, administrator, or the
/// platform itself). Proof of control is established outside the library.
#[derive(Clone, Copy, Debug, PartialEq, Eq, Structural, Hash)]
pub struct Address {
    pub id: u64,
}

/// Invoice lifecycle states.
#[derive(Clone, Copy, Debug, PartialEq, Eq, Structural)]
pub enum InvoiceStatus {
    /// Created by the supplier, awaiting buyer approval.
    Draft,
    /// Approved by the buyer, tokens minted to the supplier.
    Verified,
    /// Dutch auction running.
    Funding,
    /// Every token sold.
    Funded,
    /// Past the due date without repayment.
    Overdue,
    /// Paid by the buyer and distributed to the holders.
    Settled,
    /// Past the grace period without repayment.
    Defaulted,
    /// Frozen by a dispute of the buyer.
    Disputed,
    /// Withdrawn by the supplier.
    Revoked,
}

/// Outcome of a dispute.
#[derive(Clone, Copy, Debug, PartialEq, Eq, Structural)]
pub enum DisputeResolution {
    Pending,
    Valid,
    Invalid,
}

/// State of a secondary-market sell order.
#[derive(Clone, Copy, Debug, PartialEq, Eq, Structural)]
pub enum OrderStatus {
    Open,
    PartiallyFilled,
    Filled,
    Cancelled,
}

/// An originated receivable and the state of its tokens and auction.
#[derive(Clone, Debug)]
pub struct Invoice {
    pub id: u64,
    pub supplier: Address,
    pub buyer: Address,
    /// Face amount in fixed-point base units.
    pub amount: i128,
    pub currency: String,
    pub created_at: u64,
    pub due_date: u64,
    /// Zero while unset.
    pub verified_at: u64,
    /// Zero while unset.
    pub settled_at: u64,
    pub status: InvoiceStatus,
    pub token_symbol: String,
    pub total_tokens: i128,
    pub tokens_sold: i128,
    pub tokens_remaining: i128,
    pub description: String,
    pub purchase_order: String,
    pub document_hash: String,
    pub repayment_received: i128,
    /// Zero while unset.
    pub buyer_signed_at: u64,
    /// Zero while no auction was started.
    pub auction_start: u64,
    pub auction_end: u64,
    pub start_price: i128,
    pub min_price: i128,
    /// Hourly price drop in basis points.
    pub price_drop_rate: u32,
}

/// A dispute raised by an invoice's buyer.
#[derive(Clone, Debug)]
pub struct Dispute {
    pub invoice_id: u64,
    pub raised_by: Address,
    pub reason: String,
    pub raised_at: u64,
    pub resolution: DisputeResolution,
    /// Zero while unresolved.
    pub resolved_at: u64,
}

/// Tokens of one invoice held by one holder.
#[derive(Clone, Copy, Debug, PartialEq, Eq, Structural)]
pub struct TokenHolding {
    pub invoice_id: u64,
    pub holder: Address,
    pub amount: i128,
    pub acquired_at: u64,
    /// Accumulated price paid, used for insurance claims.
    pub acquired_price: i128,
}

/// Platform-wide rates and defaults; rates are in basis points.
#[derive(Clone, Copy, Debug, PartialEq, Eq, Structural)]
pub struct RateConfig {
    pub base_interest_rate: u32,
    pub penalty_rate: u32,
    pub grace_period_days: u32,
    /// In seconds.
    pub default_auction_duration: u64,
    pub default_price_drop_rate: u32,
    pub default_max_discount: u32,
    pub insurance_cut_bps: u32,
}

impl Default for RateConfig {
    /// Ten percent base rate, twenty-four percent penalty, thirty days of
    /// grace, a seven-day auction dropping half a percent an hour down to a
    /// fifteen percent discount, and a five percent insurance cut.
    fn default() -> (r: Self)
        ensures
            r.base_interest_rate == 1000,
            r.penalty_rate == 2400,
            r.grace_period_days == 30,
            r.default_auction_duration == 604800,
            r.default_price_drop_rate == 50,
            r.default_max_discount == 1500,
            r.insurance_cut_bps == 500,
    {
        RateConfig {
            base_interest_rate: 1000,
            penalty_rate: 2400,
            grace_period_days: 30,
            default_auction_duration: 604800,
            default_price_drop_rate: 50,
            default_max_discount: 1500,
            insurance_cut_bps: 500,
        }
    }
}

/// A resale listing of a holder's tokens.
#[derive(Clone, Copy, Debug, PartialEq, Eq, Structural)]
pub struct SellOrder {
    pub id: u64,
    pub invoice_id: u64,
    pub seller: Address,
    pub token_amount: i128,
    pub price_per_token: i128,
    pub tokens_remaining: i128,
    pub created_at: u64,
    pub status: OrderStatus,
}

/// Record of a primary investment.
#[derive(Clone, Copy, Debug, PartialEq, Eq, Structural)]
pub struct Investment {
    pub id: u64,
    pub invoice_id: u64,
    pub investor: Address,
    pub token_amount: i128,
    pub invested_amount: i128,
    pub discount_rate: u32,
    pub invested_at: u64,
    pub settled_amount: i128,
    pub settled_at: u64,
}

/// Record of a token transfer between two holders.
#[derive(Clone, Copy, Debug, PartialEq, Eq, Structural)]
pub struct TokenTransfer {
    pub from: Address,
    pub to: Address,
    pub amount: i128,
    pub transferred_at: u64,
}

/// A movement of the payment asset that an operation requires; the payment
/// ledger carries it out, and a failure there aborts the whole operation.
#[derive(Clone, Copy, Debug, PartialEq, Eq, Structural)]
pub struct Payment {
    pub from: Address,
    pub to: Address,
    pub amount: i128,
}

} // verus!
