//! Properties that hold across operations and states of the platform.
use vstd::prelude::*;
use crate::auction::lemma_auction_price_monotonic;
use crate::contract::{record_wf, settlement_payouts, SanginiInvoiceContract, FIRST_INVOICE_ID};
use crate::errors::ContractError;
use crate::ledger::{amounts_of, total_held};
use crate::settlement::{lemma_pro_rata_within_payment, pro_rata_shares, sum_of};
use crate::types::{Address, InvoiceStatus, Payment, TokenHolding};

verus! {

/// The payment amounts of a sequence of payments.
pub open spec fn payment_amounts(p: Seq<Payment>) -> Seq<int> {
    p.map_values(|x: Payment| x.amount as int)
}

/// Token conservation: in every reachable state, the tokens held over an
/// invoice's holdings are its total tokens less those burned by
/// settlement, clawback or revocation.
pub proof fn lemma_token_conservation(s: &SanginiInvoiceContract, invoice_id: u64)
    requires
        s.wf(),
        s.has_invoice(invoice_id),
    ensures
        total_held(s.ledger(invoice_id)) == s.inv(invoice_id).total_tokens - s.rec(invoice_id).tokens_burned,
        0 <= s.rec(invoice_id).tokens_burned <= s.inv(invoice_id).total_tokens,
{
    let i = invoice_id - FIRST_INVOICE_ID;
    assert(record_wf(s.records@[i], (FIRST_INVOICE_ID + i) as u64));
    crate::ledger::lemma_total_nonneg(s.ledger(invoice_id));
}

/// The auction price of an invoice never rises as time passes, and never
/// falls below the invoice's floor.
pub proof fn lemma_current_price_monotonic(s: &SanginiInvoiceContract, invoice_id: u64, t1: u64, t2: u64)
    requires
        s.wf(),
        s.has_invoice(invoice_id),
        t1 <= t2,
    ensures
        s.current_price(invoice_id, t2) <= s.current_price(invoice_id, t1),
        s.current_price(invoice_id, t2) >= s.inv(invoice_id).min_price,
{
    let inv = s.inv(invoice_id);
    let i = invoice_id - FIRST_INVOICE_ID;
    assert(record_wf(s.records@[i], (FIRST_INVOICE_ID + i) as u64));
    lemma_auction_price_monotonic(
        inv.start_price as int,
        inv.min_price as int,
        inv.price_drop_rate as int,
        inv.auction_start,
        inv.auction_end,
        t1,
        t2,
    );
}

/// Settlement happens once: on a settled invoice every further settlement
/// by its buyer fails with `InvalidStatus`.
pub proof fn lemma_settle_once(
    s: &SanginiInvoiceContract,
    invoice_id: u64,
    buyer: Address,
    payment_amount: i128,
    now: u64,
)
    requires
        s.has_invoice(invoice_id),
        s.inv(invoice_id).buyer == buyer,
        s.inv(invoice_id).status == InvoiceStatus::Settled,
    ensures
        s.settle_error(invoice_id, buyer, payment_amount, now) == Some(ContractError::InvalidStatus),
{
}

/// Pro-rata fairness of a settlement: each holder is paid the truncated
/// share `amount * payment / total` of the payment, and the payouts
/// together never exceed the payment.
pub proof fn lemma_settlement_fair(h: Seq<TokenHolding>, from: Address, payment: int, total: int)
    requires
        forall|i: int| 0 <= i < h.len() ==> (#[trigger] h[i]).amount >= 0,
        total_held(h) == total,
        0 < total,
        0 <= payment <= i128::MAX,
    ensures
        ({
            let p = settlement_payouts(h, from, payment, total);
            &&& p.len() == h.len()
            &&& forall|i: int|
                0 <= i < h.len() ==> (#[trigger] p[i]).to == h[i].holder && p[i].from == from
                    && p[i].amount == h[i].amount * payment / total
            &&& 0 <= sum_of(payment_amounts(p)) <= payment
        }),
{
    let p = settlement_payouts(h, from, payment, total);
    let a = amounts_of(h);
    lemma_pro_rata_within_payment(a, payment, total);
    assert forall|i: int| 0 <= i < h.len() implies 0 <= (#[trigger] h[i]).amount * payment / total <= payment by {
        crate::ledger::lemma_amount_le_total(h, i);
        assert(0 <= h[i].amount * payment <= total * payment) by (nonlinear_arith)
            requires 0 <= h[i].amount <= total, 0 <= payment;
        vstd::arithmetic::div_mod::lemma_div_is_ordered(h[i].amount * payment, total * payment, total);
        vstd::arithmetic::div_mod::lemma_div_pos_is_pos(h[i].amount * payment, total);
        assert(total * payment == payment * total) by (nonlinear_arith);
        vstd::arithmetic::div_mod::lemma_div_by_multiple(payment, total);
    }
    assert(payment_amounts(p) =~= pro_rata_shares(a, payment, total));
}

} // verus!
