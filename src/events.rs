//! Notifications of what the platform did, in order, for the event sink
//! to publish.
use vstd::prelude::*;
use crate::types::Address;

verus! {

/// One notification.
#[derive(Clone, Copy, Debug, PartialEq, Eq, Structural)]
pub enum InvoiceEvent {
    /// A draft invoice was created.
    InvoiceCreated { invoice_id: u64, supplier: Address, buyer: Address, amount: i128 },
    /// The buyer approved an invoice and its tokens were minted.
    InvoiceVerified { invoice_id: u64, buyer: Address, tokens_minted: i128 },
    /// Tokens moved between holders.
    TokenTransfer { invoice_id: u64, from: Address, to: Address, amount: i128 },
    /// An investor bought tokens in the primary sale.
    InvestmentMade { invoice_id: u64, investor: Address, token_amount: i128, payment_amount: i128 },
    /// The buyer settled an invoice.
    InvoiceSettled { invoice_id: u64, amount: i128 },
    /// An invoice passed its grace period unpaid.
    InvoiceDefaulted { invoice_id: u64 },
    /// The supplier revoked an invoice.
    InvoiceRevoked { invoice_id: u64 },
    /// The buyer disputed an invoice.
    DisputeRaised { invoice_id: u64, buyer: Address },
    /// The administrator ruled on a dispute.
    DisputeResolved { invoice_id: u64, is_valid: bool },
    /// An investor's KYC approval changed.
    KycUpdated { investor: Address, approved: bool },
    /// A holder was paid its share of a settlement.
    SettlementDistributed { invoice_id: u64, holder: Address, amount: i128 },
    /// A holding was seized after a valid dispute.
    ClawbackExecuted { invoice_id: u64, holder: Address, amount: i128 },
    /// A Dutch auction opened.
    AuctionStarted { invoice_id: u64, end_time: u64, start_price: i128, min_price: i128 },
    /// The last token of an invoice was sold.
    AuctionEnded { invoice_id: u64, final_price: i128 },
    /// A holder was paid from the insurance pool.
    InsuranceClaimed { invoice_id: u64, investor: Address, amount: i128 },
    /// The insurance pool received funds.
    InsuranceFunded { amount: i128, new_total: i128 },
    /// A sell order was listed.
    OrderCreated { order_id: u64, invoice_id: u64, seller: Address, token_amount: i128, price_per_token: i128 },
    /// A sell order was filled, wholly or in part.
    OrderFilled { order_id: u64, buyer: Address, token_amount: i128, payment: i128 },
    /// A sell order was withdrawn.
    OrderCancelled { order_id: u64 },
}

/// The notifications not yet handed to the event sink, oldest first.
pub struct InvoiceEvents {
    pub log: Vec<InvoiceEvent>,
}

impl InvoiceEvents {
    /// An empty log.
    pub fn new() -> (r: Self)
        ensures
            r.log@.len() == 0,
    {
        InvoiceEvents { log: Vec::new() }
    }

    /// Hands over the notifications, oldest first, and forgets them.
    pub fn take(&mut self) -> (r: Vec<InvoiceEvent>)
        ensures
            r@ == old(self).log@,
            final(self).log@.len() == 0,
    {
        let mut out: Vec<InvoiceEvent> = Vec::new();
        std::mem::swap(&mut out, &mut self.log);
        out
    }

    /// Records: a draft invoice was created.
    pub fn invoice_created(&mut self, invoice_id: u64, supplier: Address, buyer: Address, amount: i128)
        ensures
            final(self).log@ == old(self).log@.push(InvoiceEvent::InvoiceCreated { invoice_id, supplier, buyer, amount }),
    {
        self.log.push(InvoiceEvent::InvoiceCreated { invoice_id, supplier, buyer, amount });
    }

    /// Records: the buyer approved an invoice and its tokens were minted.
    pub fn invoice_verified(&mut self, invoice_id: u64, buyer: Address, tokens_minted: i128)
        ensures
            final(self).log@ == old(self).log@.push(InvoiceEvent::InvoiceVerified { invoice_id, buyer, tokens_minted }),
    {
        self.log.push(InvoiceEvent::InvoiceVerified { invoice_id, buyer, tokens_minted });
    }

    /// Records: tokens moved between holders.
    pub fn token_transfer(&mut self, invoice_id: u64, from: Address, to: Address, amount: i128)
        ensures
            final(self).log@ == old(self).log@.push(InvoiceEvent::TokenTransfer { invoice_id, from, to, amount }),
    {
        self.log.push(InvoiceEvent::TokenTransfer { invoice_id, from, to, amount });
    }

    /// Records: an investor bought tokens in the primary sale.
    pub fn investment_made(&mut self, invoice_id: u64, investor: Address, token_amount: i128, payment_amount: i128)
        ensures
            final(self).log@ == old(self).log@.push(InvoiceEvent::InvestmentMade { invoice_id, investor, token_amount, payment_amount }),
    {
        self.log.push(InvoiceEvent::InvestmentMade { invoice_id, investor, token_amount, payment_amount });
    }

    /// Records: the buyer settled an invoice.
    pub fn invoice_settled(&mut self, invoice_id: u64, amount: i128)
        ensures
            final(self).log@ == old(self).log@.push(InvoiceEvent::InvoiceSettled { invoice_id, amount }),
    {
        self.log.push(InvoiceEvent::InvoiceSettled { invoice_id, amount });
    }

    /// Records: an invoice passed its grace period unpaid.
    pub fn invoice_defaulted(&mut self, invoice_id: u64)
        ensures
            final(self).log@ == old(self).log@.push(InvoiceEvent::InvoiceDefaulted { invoice_id }),
    {
        self.log.push(InvoiceEvent::InvoiceDefaulted { invoice_id });
    }

    /// Records: the supplier revoked an invoice.
    pub fn invoice_revoked(&mut self, invoice_id: u64)
        ensures
            final(self).log@ == old(self).log@.push(InvoiceEvent::InvoiceRevoked { invoice_id }),
    {
        self.log.push(InvoiceEvent::InvoiceRevoked { invoice_id });
    }

    /// Records: the buyer disputed an invoice.
    pub fn dispute_raised(&mut self, invoice_id: u64, buyer: Address)
        ensures
            final(self).log@ == old(self).log@.push(InvoiceEvent::DisputeRaised { invoice_id, buyer }),
    {
        self.log.push(InvoiceEvent::DisputeRaised { invoice_id, buyer });
    }

    /// Records: the administrator ruled on a dispute.
    pub fn dispute_resolved(&mut self, invoice_id: u64, is_valid: bool)
        ensures
            final(self).log@ == old(self).log@.push(InvoiceEvent::DisputeResolved { invoice_id, is_valid }),
    {
        self.log.push(InvoiceEvent::DisputeResolved { invoice_id, is_valid });
    }

    /// Records: an investor's KYC approval changed.
    pub fn kyc_updated(&mut self, investor: Address, approved: bool)
        ensures
            final(self).log@ == old(self).log@.push(InvoiceEvent::KycUpdated { investor, approved }),
    {
        self.log.push(InvoiceEvent::KycUpdated { investor, approved });
    }

    /// Records: a holder was paid its share of a settlement.
    pub fn settlement_distributed(&mut self, invoice_id: u64, holder: Address, amount: i128)
        ensures
            final(self).log@ == old(self).log@.push(InvoiceEvent::SettlementDistributed { invoice_id, holder, amount }),
    {
        self.log.push(InvoiceEvent::SettlementDistributed { invoice_id, holder, amount });
    }

    /// Records: a holding was seized after a valid dispute.
    pub fn clawback_executed(&mut self, invoice_id: u64, holder: Address, amount: i128)
        ensures
            final(self).log@ == old(self).log@.push(InvoiceEvent::ClawbackExecuted { invoice_id, holder, amount }),
    {
        self.log.push(InvoiceEvent::ClawbackExecuted { invoice_id, holder, amount });
    }

    /// Records: a Dutch auction opened.
    pub fn auction_started(&mut self, invoice_id: u64, end_time: u64, start_price: i128, min_price: i128)
        ensures
            final(self).log@ == old(self).log@.push(InvoiceEvent::AuctionStarted { invoice_id, end_time, start_price, min_price }),
    {
        self.log.push(InvoiceEvent::AuctionStarted { invoice_id, end_time, start_price, min_price });
    }

    /// Records: the last token of an invoice was sold.
    pub fn auction_ended(&mut self, invoice_id: u64, final_price: i128)
        ensures
            final(self).log@ == old(self).log@.push(InvoiceEvent::AuctionEnded { invoice_id, final_price }),
    {
        self.log.push(InvoiceEvent::AuctionEnded { invoice_id, final_price });
    }

    /// Records: a holder was paid from the insurance pool.
    pub fn insurance_claimed(&mut self, invoice_id: u64, investor: Address, amount: i128)
        ensures
            final(self).log@ == old(self).log@.push(InvoiceEvent::InsuranceClaimed { invoice_id, investor, amount }),
    {
        self.log.push(InvoiceEvent::InsuranceClaimed { invoice_id, investor, amount });
    }

    /// Records: the insurance pool received funds.
    pub fn insurance_funded(&mut self, amount: i128, new_total: i128)
        ensures
            final(self).log@ == old(self).log@.push(InvoiceEvent::InsuranceFunded { amount, new_total }),
    {
        self.log.push(InvoiceEvent::InsuranceFunded { amount, new_total });
    }

    /// Records: a sell order was listed.
    pub fn order_created(&mut self, order_id: u64, invoice_id: u64, seller: Address, token_amount: i128, price_per_token: i128)
        ensures
            final(self).log@ == old(self).log@.push(InvoiceEvent::OrderCreated { order_id, invoice_id, seller, token_amount, price_per_token }),
    {
        self.log.push(InvoiceEvent::OrderCreated { order_id, invoice_id, seller, token_amount, price_per_token });
    }

    /// Records: a sell order was filled, wholly or in part.
    pub fn order_filled(&mut self, order_id: u64, buyer: Address, token_amount: i128, payment: i128)
        ensures
            final(self).log@ == old(self).log@.push(InvoiceEvent::OrderFilled { order_id, buyer, token_amount, payment }),
    {
        self.log.push(InvoiceEvent::OrderFilled { order_id, buyer, token_amount, payment });
    }

    /// Records: a sell order was withdrawn.
    pub fn order_cancelled(&mut self, order_id: u64)
        ensures
            final(self).log@ == old(self).log@.push(InvoiceEvent::OrderCancelled { order_id }),
    {
        self.log.push(InvoiceEvent::OrderCancelled { order_id });
    }

}

} // verus!
