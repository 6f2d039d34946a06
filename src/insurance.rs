//! The insurance pool: funded by a cut of every primary investment, it pays
//! holders of defaulted invoices half of what they paid, as far as it can,
//! once per holder and invoice.
use vstd::prelude::*;
use crate::access::vec_contains;
use crate::contract::{record_wf, SanginiInvoiceContract, FIRST_INVOICE_ID};
use crate::errors::ContractError;
use crate::events::InvoiceEvent;
use crate::ledger::{find_holding, holding_of, holds, index_of};
use crate::types::{Address, InvoiceStatus, Payment};

verus! {

/// The smaller of two integers.
pub open spec fn min_int(a: int, b: int) -> int {
    if a <= b { a } else { b }
}

impl SanginiInvoiceContract {
    /// What a claim by `investor` on invoice `id` pays: half the holding's
    /// acquisition price, capped at the pool's balance.
    pub open spec fn claim_payout(&self, id: u64, investor: Address) -> int {
        min_int(holding_of(self.ledger(id), investor).unwrap().acquired_price / 2, self.insurance_pool as int)
    }

    /// Why `claim_insurance` fails, if it does.
    pub open spec fn claim_error(&self, invoice_id: u64, investor: Address) -> Option<ContractError> {
        if !self.has_invoice(invoice_id) {
            Some(ContractError::InvoiceNotFound)
        } else if self.inv(invoice_id).status != InvoiceStatus::Defaulted {
            Some(ContractError::NotDefaulted)
        } else if self.rec(invoice_id).claimed@.contains(investor) {
            Some(ContractError::AlreadyClaimed)
        } else if !holds(self.ledger(invoice_id), investor) {
            Some(ContractError::HoldingNotFound)
        } else if self.claim_payout(invoice_id, investor) == 0 {
            Some(ContractError::InsufficientInsurancePool)
        } else {
            None
        }
    }

    /// A holder of a `Defaulted` invoice claims insurance: the pool pays it
    /// half of the holding's acquisition price, capped at the pool's
    /// balance, and returns the payout. Each holder claims once per invoice.
    pub fn claim_insurance(&mut self, invoice_id: u64, investor: Address) -> (r: Result<i128, ContractError>)
        requires
            old(self).wf(),
        ensures
            final(self).wf(),
            r.is_err() <==> old(self).claim_error(invoice_id, investor).is_some(),
            r.is_err() ==> r == Err::<i128, ContractError>(old(self).claim_error(invoice_id, investor).unwrap())
                && *final(self) == *old(self),
            r.is_ok() ==> {
                let payout = old(self).claim_payout(invoice_id, investor);
                let rec = final(self).rec(invoice_id);
                &&& r.unwrap() == payout
                &&& final(self).records@ == old(self).records@.update(invoice_id - FIRST_INVOICE_ID, rec)
                &&& rec.invoice == old(self).inv(invoice_id)
                &&& rec.holdings == old(self).rec(invoice_id).holdings
                &&& rec.dispute == old(self).rec(invoice_id).dispute
                &&& rec.tokens_burned == old(self).rec(invoice_id).tokens_burned
                &&& rec.claimed@ == old(self).rec(invoice_id).claimed@.push(investor)
                &&& final(self).insurance_pool == old(self).insurance_pool - payout
                &&& final(self).pending_payments@ == old(self).pending_payments@.push(
                    Payment { from: old(self).contract_address, to: investor, amount: payout as i128 },
                )
                &&& *final(self) == (SanginiInvoiceContract {
                    records: final(self).records,
                    insurance_pool: final(self).insurance_pool,
                    pending_payments: final(self).pending_payments,
                    events: final(self).events,
                    ..*old(self)
                })
                &&& final(self).events.log@ == old(self).events.log@.push(
                    InvoiceEvent::InsuranceClaimed { invoice_id, investor, amount: payout as i128 },
                )
                &&& final(self).claim_error(invoice_id, investor) == Some(ContractError::AlreadyClaimed)
            },
    {
        let idx = match self.record_index(invoice_id) {
            Some(i) => i,
            None => return Err(ContractError::InvoiceNotFound),
        };
        let ghost ix = idx as int;
        if self.records[idx].invoice.status != InvoiceStatus::Defaulted {
            return Err(ContractError::NotDefaulted);
        }
        if vec_contains(&self.records[idx].claimed, investor) {
            return Err(ContractError::AlreadyClaimed);
        }
        let ghost h = self.records@[ix].holdings@;
        let k = match find_holding(&self.records[idx].holdings, investor) {
            Some(k) => k,
            None => return Err(ContractError::HoldingNotFound),
        };
        proof {
            assert(record_wf(old(self).records@[ix], invoice_id));
            assert(index_of(h, investor) == k as int);
        }
        let half: i128 = self.records[idx].holdings[k].acquired_price / 2;
        let pool = self.insurance_pool;
        let payout: i128 = if half <= pool { half } else { pool };
        if payout == 0 {
            return Err(ContractError::InsufficientInsurancePool);
        }
        self.insurance_pool = pool - payout;
        self.records[idx].claimed.push(investor);
        let me = self.contract_address;
        self.pending_payments.push(Payment { from: me, to: investor, amount: payout });
        self.events.insurance_claimed(invoice_id, investor, payout);
        proof {
            assert(self.records@ =~= old(self).records@.update(ix, self.records@[ix]));
            assert(self.records@[ix].claimed@.contains(investor)) by {
                assert(self.records@[ix].claimed@.last() == investor);
            }
            Self::lemma_record_update_keeps_wf(old(self), self, invoice_id);
        }
        Ok(payout)
    }

    /// The insurance pool's balance.
    pub fn get_insurance_pool_balance(&self) -> (r: i128)
        ensures
            r == self.insurance_pool,
    {
        self.insurance_pool
    }
}

} // verus!
