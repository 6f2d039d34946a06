//! The administrator's allow-lists and the read-only views of the
//! platform.
use vstd::prelude::*;
use crate::contract::{record_wf, SanginiInvoiceContract};
use crate::errors::ContractError;
use crate::events::InvoiceEvent;
use crate::ledger::{find_holding, holding_of, index_of};
use crate::types::{Address, Dispute, Invoice, Payment, TokenHolding};

verus! {

/// Adds `x` to `v` or takes it out, so that it is there exactly when
/// `member` holds; `v` keeps no duplicates.
pub fn set_membership(v: &mut Vec<Address>, x: Address, member: bool)
    requires
        old(v)@.no_duplicates(),
    ensures
        final(v)@.no_duplicates(),
        forall|y: Address| #[trigger] final(v)@.contains(y) == if y == x {
            member
        } else {
            old(v)@.contains(y)
        },
{
    let found = position_of(v, x);
    if let Some(i) = found {
        if !member {
            let ghost before = v@;
            v.remove(i);
            proof {
                assert(before[i as int] == x);
                assert forall|a: int, b: int| 0 <= a < v@.len() && 0 <= b < v@.len() && a != b
                    implies v@[a] != v@[b] by {
                    let a1 = if a < i { a } else { a + 1 };
                    let b1 = if b < i { b } else { b + 1 };
                    assert(v@[a] == before[a1]);
                    assert(v@[b] == before[b1]);
                }
                assert forall|y: Address| #[trigger] v@.contains(y) == if y == x {
                    false
                } else {
                    before.contains(y)
                } by {
                    if v@.contains(y) {
                        let j = choose|j: int| 0 <= j < v@.len() && v@[j] == y;
                        if j < i {
                            assert(before[j] == y);
                        } else {
                            assert(before[j + 1] == y);
                        }
                        assert(y != x);
                    }
                    if y != x && before.contains(y) {
                        let j = choose|j: int| 0 <= j < before.len() && before[j] == y;
                        if j < i {
                            assert(v@[j] == y);
                        } else {
                            assert(j != i);
                            assert(v@[j - 1] == y);
                        }
                    }
                }
            }
        } else {
            proof {
                assert forall|y: Address| #[trigger] v@.contains(y) == if y == x {
                    member
                } else {
                    old(v)@.contains(y)
                } by {
                    if y == x {
                        assert(v@[i as int] == x);
                    }
                }
            }
        }
    } else {
        if member {
            let ghost before = v@;
            v.push(x);
            proof {
                assert forall|a: int, b: int| 0 <= a < v@.len() && 0 <= b < v@.len() && a != b
                    implies v@[a] != v@[b] by {
                    if a == before.len() {
                        assert(before[b] != x);
                    } else if b == before.len() {
                        assert(before[a] != x);
                    }
                }
                assert forall|y: Address| #[trigger] v@.contains(y) == if y == x {
                    member
                } else {
                    before.contains(y)
                } by {
                    if y == x {
                        assert(v@[before.len() as int] == x);
                    } else if v@.contains(y) {
                        let j = choose|j: int| 0 <= j < v@.len() && v@[j] == y;
                        assert(j < before.len());
                        assert(before[j] == y);
                    } else if before.contains(y) {
                        let j = choose|j: int| 0 <= j < before.len() && before[j] == y;
                        assert(v@[j] == y);
                    }
                }
            }
        }
    }
}

/// Position of `x` in `v`.
pub fn position_of(v: &Vec<Address>, x: Address) -> (r: Option<usize>)
    ensures
        match r {
            Some(i) => i < v@.len() && v@[i as int] == x,
            None => !v@.contains(x),
        },
{
    let mut i: usize = 0;
    while i < v.len()
        invariant
            i <= v@.len(),
            forall|j: int| 0 <= j < i ==> v@[j] != x,
        decreases v@.len() - i,
    {
        if v[i] == x {
            return Some(i);
        }
        i += 1;
    }
    None
}

/// Whether `v` holds `x`.
pub fn vec_contains(v: &Vec<Address>, x: Address) -> (r: bool)
    ensures
        r == v@.contains(x),
{
    position_of(v, x).is_some()
}

/// A copy of an invoice.
pub fn copy_invoice(inv: &Invoice) -> (r: Invoice)
    ensures
        r == *inv,
{
    Invoice {
        id: inv.id,
        supplier: inv.supplier,
        buyer: inv.buyer,
        amount: inv.amount,
        currency: inv.currency.clone(),
        created_at: inv.created_at,
        due_date: inv.due_date,
        verified_at: inv.verified_at,
        settled_at: inv.settled_at,
        status: inv.status,
        token_symbol: inv.token_symbol.clone(),
        total_tokens: inv.total_tokens,
        tokens_sold: inv.tokens_sold,
        tokens_remaining: inv.tokens_remaining,
        description: inv.description.clone(),
        purchase_order: inv.purchase_order.clone(),
        document_hash: inv.document_hash.clone(),
        repayment_received: inv.repayment_received,
        buyer_signed_at: inv.buyer_signed_at,
        auction_start: inv.auction_start,
        auction_end: inv.auction_end,
        start_price: inv.start_price,
        min_price: inv.min_price,
        price_drop_rate: inv.price_drop_rate,
    }
}

/// A copy of a dispute.
pub fn copy_dispute(d: &Dispute) -> (r: Dispute)
    ensures
        r == *d,
{
    Dispute {
        invoice_id: d.invoice_id,
        raised_by: d.raised_by,
        reason: d.reason.clone(),
        raised_at: d.raised_at,
        resolution: d.resolution,
        resolved_at: d.resolved_at,
    }
}

impl SanginiInvoiceContract {
    /// The administrator approves or withdraws an investor's KYC.
    pub fn set_investor_kyc(&mut self, admin: Address, investor: Address, approved: bool) -> (r: Result<
        (),
        ContractError,
    >)
        requires
            old(self).wf(),
        ensures
            final(self).wf(),
            r.is_err() <==> !old(self).is_admin(admin),
            r.is_err() ==> r == Err::<(), ContractError>(ContractError::Unauthorized)
                && *final(self) == *old(self),
            r.is_ok() ==> {
                &&& *final(self) == (SanginiInvoiceContract {
                    kyc: final(self).kyc,
                    events: final(self).events,
                    ..*old(self)
                })
                &&& final(self).events.log@ == old(self).events.log@.push(
                    InvoiceEvent::KycUpdated { investor, approved },
                )
                &&& forall|who: Address| #[trigger] final(self).kyc_approved(who) == if who == investor {
                    approved
                } else {
                    old(self).kyc_approved(who)
                }
            },
    {
        if !self.admin_is(admin) {
            return Err(ContractError::Unauthorized);
        }
        set_membership(&mut self.kyc, investor, approved);
        self.events.kyc_updated(investor, approved);
        Ok(())
    }

    /// The administrator authorizes or deauthorizes a relayer.
    pub fn set_relayer(&mut self, admin: Address, relayer: Address, authorized: bool) -> (r: Result<
        (),
        ContractError,
    >)
        requires
            old(self).wf(),
        ensures
            final(self).wf(),
            r.is_err() <==> !old(self).is_admin(admin),
            r.is_err() ==> r == Err::<(), ContractError>(ContractError::Unauthorized)
                && *final(self) == *old(self),
            r.is_ok() ==> {
                &&& *final(self) == (SanginiInvoiceContract { relayers: final(self).relayers, ..*old(self) })
                &&& forall|who: Address| #[trigger] final(self).relayers@.contains(who) == if who == relayer {
                    authorized
                } else {
                    old(self).relayers@.contains(who)
                }
            },
    {
        if !self.admin_is(admin) {
            return Err(ContractError::Unauthorized);
        }
        set_membership(&mut self.relayers, relayer, authorized);
        Ok(())
    }

    /// Whether the investor is KYC-approved.
    pub fn is_kyc_approved(&self, investor: Address) -> (r: bool)
        ensures
            r == self.kyc_approved(investor),
    {
        vec_contains(&self.kyc, investor)
    }

    /// Invoice `invoice_id`.
    pub fn get_invoice(&self, invoice_id: u64) -> (r: Result<Invoice, ContractError>)
        ensures
            self.has_invoice(invoice_id) ==> r == Ok::<Invoice, ContractError>(self.inv(invoice_id)),
            !self.has_invoice(invoice_id) ==> r == Err::<Invoice, ContractError>(ContractError::InvoiceNotFound),
    {
        match self.record_index(invoice_id) {
            Some(i) => Ok(copy_invoice(&self.records[i].invoice)),
            None => Err(ContractError::InvoiceNotFound),
        }
    }

    /// `holder`'s holding of invoice `invoice_id`; `HoldingNotFound` when it
    /// holds none, or the invoice does not exist.
    pub fn get_holding(&self, invoice_id: u64, holder: Address) -> (r: Result<TokenHolding, ContractError>)
        requires
            self.wf(),
        ensures
            self.has_invoice(invoice_id) && holding_of(self.ledger(invoice_id), holder).is_some() ==> r
                == Ok::<TokenHolding, ContractError>(holding_of(self.ledger(invoice_id), holder).unwrap()),
            !(self.has_invoice(invoice_id) && holding_of(self.ledger(invoice_id), holder).is_some()) ==> r
                == Err::<TokenHolding, ContractError>(ContractError::HoldingNotFound),
    {
        let i = match self.record_index(invoice_id) {
            Some(i) => i,
            None => return Err(ContractError::HoldingNotFound),
        };
        match find_holding(&self.records[i].holdings, holder) {
            Some(k) => {
                proof {
                    assert(record_wf(self.records@[i as int], invoice_id));
                    assert(index_of(self.records@[i as int].holdings@, holder) == k as int);
                }
                Ok(self.records[i].holdings[k])
            },
            None => Err(ContractError::HoldingNotFound),
        }
    }

    /// The dispute of invoice `invoice_id`; `DisputeNotFound` when none was
    /// raised, or the invoice does not exist.
    pub fn get_dispute(&self, invoice_id: u64) -> (r: Result<Dispute, ContractError>)
        ensures
            self.has_invoice(invoice_id) && self.rec(invoice_id).dispute.is_some() ==> r == Ok::<
                Dispute,
                ContractError,
            >(self.rec(invoice_id).dispute.unwrap()),
            !(self.has_invoice(invoice_id) && self.rec(invoice_id).dispute.is_some()) ==> r == Err::<
                Dispute,
                ContractError,
            >(ContractError::DisputeNotFound),
    {
        let i = match self.record_index(invoice_id) {
            Some(i) => i,
            None => return Err(ContractError::DisputeNotFound),
        };
        match &self.records[i].dispute {
            Some(d) => Ok(copy_dispute(d)),
            None => Err(ContractError::DisputeNotFound),
        }
    }

    /// Whether invoice `invoice_id` exists and carries `document_hash`.
    pub fn verify_document(&self, invoice_id: u64, document_hash: &String) -> (r: bool)
        ensures
            r == (self.has_invoice(invoice_id) && self.inv(invoice_id).document_hash@ == document_hash@),
    {
        match self.record_index(invoice_id) {
            Some(i) => self.records[i].invoice.document_hash == *document_hash,
            None => false,
        }
    }

    /// Hands over the notifications so far, oldest first, for the event
    /// sink to publish, and forgets them.
    pub fn take_events(&mut self) -> (r: Vec<InvoiceEvent>)
        requires
            old(self).wf(),
        ensures
            final(self).wf(),
            r@ == old(self).events.log@,
            final(self).events.log@.len() == 0,
            *final(self) == (SanginiInvoiceContract { events: final(self).events, ..*old(self) }),
    {
        self.events.take()
    }

    /// Hands over the payments decided so far, oldest first, for the payment
    /// ledger to carry out, and forgets them.
    pub fn take_payments(&mut self) -> (r: Vec<Payment>)
        requires
            old(self).wf(),
        ensures
            final(self).wf(),
            r@ == old(self).pending_payments@,
            final(self).pending_payments@.len() == 0,
            *final(self) == (SanginiInvoiceContract { pending_payments: final(self).pending_payments, ..*old(self) }),
    {
        let mut out: Vec<Payment> = Vec::new();
        std::mem::swap(&mut out, &mut self.pending_payments);
        out
    }
}

} // verus!
