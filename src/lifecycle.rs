//! Lifecycle transitions that do not move tokens between holders: the
//! overdue and default checks, disputes with their clawback, and
//! revocation.
use vstd::prelude::*;
use crate::contract::{record_wf, settleable, total_tokens_held, SanginiInvoiceContract, FIRST_INVOICE_ID, SECONDS_PER_DAY};
use crate::errors::ContractError;
use crate::events::InvoiceEvent;
use crate::contract::{clawback_events, seizure_events};
use crate::ledger::total_held;
use crate::types::{Address, Dispute, DisputeResolution, Invoice, InvoiceStatus, TokenHolding};
use crate::contract::InvoiceRecord;

verus! {

impl SanginiInvoiceContract {
    /// Burns every holding of the record at `idx`, counting the tokens as
    /// burned.
    pub(crate) fn burn_all(&mut self, idx: usize)
        requires
            old(self).wf(),
            idx < old(self).records@.len(),
        ensures
            ({
                let id = (FIRST_INVOICE_ID + idx) as u64;
                let old_rec = old(self).rec(id);
                let rec = final(self).rec(id);
                &&& Self::only_record_changed(old(self), final(self), id)
                &&& rec == (InvoiceRecord {
                    holdings: rec.holdings,
                    tokens_burned: (old_rec.tokens_burned + total_held(old_rec.holdings@)) as i128,
                    ..old_rec
                })
                &&& rec.holdings@.len() == 0
                &&& record_wf(rec, id)
                &&& final(self).events == old(self).events
            }),
    {
        let ghost ix = idx as int;
        let ghost id = (FIRST_INVOICE_ID + idx) as u64;
        proof {
            assert(record_wf(old(self).records@[ix], id));
            crate::ledger::lemma_total_nonneg(self.records@[ix].holdings@);
        }
        let held = total_tokens_held(&self.records[idx].holdings);
        self.records[idx].holdings = Vec::new();
        self.records[idx].tokens_burned = self.records[idx].tokens_burned + held;
        proof {
            assert(crate::ledger::amounts_of(Seq::<TokenHolding>::empty()) =~= Seq::<int>::empty());
            assert(self.records@ =~= old(self).records@.update(ix, self.records@[ix]));
        }
    }

    /// The status `check_status` moves invoice `id` to at `now`.
    pub open spec fn checked_status(&self, id: u64, now: u64) -> InvoiceStatus {
        let inv = self.inv(id);
        let grace = self.rate_config.grace_period_days as int * 86400;
        if (inv.status == InvoiceStatus::Verified || inv.status == InvoiceStatus::Funded
            || inv.status == InvoiceStatus::Funding || inv.status == InvoiceStatus::Overdue)
            && inv.repayment_received == 0 {
            if now > inv.due_date + grace {
                InvoiceStatus::Defaulted
            } else if now > inv.due_date {
                InvoiceStatus::Overdue
            } else {
                inv.status
            }
        } else {
            inv.status
        }
    }

    /// Brings an unpaid invoice's status up to date and returns it: past the
    /// due date it is `Overdue`, past the grace period too `Defaulted`.
    /// Calling it again at the same time changes nothing.
    pub fn check_status(&mut self, invoice_id: u64, now: u64) -> (r: Result<InvoiceStatus, ContractError>)
        requires
            old(self).wf(),
        ensures
            final(self).wf(),
            !old(self).has_invoice(invoice_id) ==> r == Err::<InvoiceStatus, ContractError>(ContractError::InvoiceNotFound)
                && *final(self) == *old(self),
            old(self).has_invoice(invoice_id) ==> {
                let st = old(self).checked_status(invoice_id, now);
                let rec = final(self).rec(invoice_id);
                &&& r == Ok::<InvoiceStatus, ContractError>(st)
                &&& Self::only_record_changed(old(self), final(self), invoice_id)
                &&& rec == (InvoiceRecord {
                    invoice: Invoice { status: st, ..old(self).inv(invoice_id) },
                    ..old(self).rec(invoice_id)
                })
                &&& final(self).events.log@ == if st == InvoiceStatus::Defaulted
                    && old(self).inv(invoice_id).status != InvoiceStatus::Defaulted {
                    old(self).events.log@.push(InvoiceEvent::InvoiceDefaulted { invoice_id })
                } else {
                    old(self).events.log@
                }
            },
    {
        let idx = match self.record_index(invoice_id) {
            Some(i) => i,
            None => return Err(ContractError::InvoiceNotFound),
        };
        let ghost ix = idx as int;
        proof {
            assert(record_wf(old(self).records@[ix], invoice_id));
        }
        let status = self.records[idx].invoice.status;
        let due = self.records[idx].invoice.due_date;
        if (status == InvoiceStatus::Verified || status == InvoiceStatus::Funded
            || status == InvoiceStatus::Funding || status == InvoiceStatus::Overdue)
            && self.records[idx].invoice.repayment_received == 0 {
            let grace: u64 = self.rate_config.grace_period_days as u64 * SECONDS_PER_DAY;
            if now > due && now - due > grace {
                self.records[idx].invoice.status = InvoiceStatus::Defaulted;
                self.events.invoice_defaulted(invoice_id);
            } else if now > due && status != InvoiceStatus::Overdue {
                self.records[idx].invoice.status = InvoiceStatus::Overdue;
            }
        }
        proof {
            assert(self.records@ =~= old(self).records@.update(ix, self.records@[ix]));
            Self::lemma_record_update_keeps_wf(old(self), self, invoice_id);
        }
        Ok(self.records[idx].invoice.status)
    }

    /// Why `raise_dispute` fails, if it does.
    pub open spec fn raise_dispute_error(&self, invoice_id: u64, buyer: Address) -> Option<ContractError> {
        if !self.has_invoice(invoice_id) {
            Some(ContractError::InvoiceNotFound)
        } else if self.inv(invoice_id).buyer != buyer {
            Some(ContractError::Unauthorized)
        } else if !settleable(self.inv(invoice_id).status) {
            Some(ContractError::InvalidStatus)
        } else {
            None
        }
    }

    /// The buyer disputes an invoice that is not yet settled: a `Pending`
    /// dispute is recorded and the invoice is frozen as `Disputed`.
    pub fn raise_dispute(&mut self, invoice_id: u64, buyer: Address, reason: String, now: u64) -> (r: Result<
        (),
        ContractError,
    >)
        requires
            old(self).wf(),
        ensures
            final(self).wf(),
            r.is_err() <==> old(self).raise_dispute_error(invoice_id, buyer).is_some(),
            r.is_err() ==> r == Err::<(), ContractError>(old(self).raise_dispute_error(invoice_id, buyer).unwrap())
                && *final(self) == *old(self),
            r.is_ok() ==> {
                let rec = final(self).rec(invoice_id);
                &&& Self::only_record_changed(old(self), final(self), invoice_id)
                &&& rec == (InvoiceRecord {
                    invoice: Invoice { status: InvoiceStatus::Disputed, ..old(self).inv(invoice_id) },
                    dispute: Some(
                        Dispute {
                            invoice_id,
                            raised_by: buyer,
                            reason,
                            raised_at: now,
                            resolution: DisputeResolution::Pending,
                            resolved_at: 0,
                        },
                    ),
                    ..old(self).rec(invoice_id)
                })
                &&& final(self).events.log@ == old(self).events.log@.push(
                    InvoiceEvent::DisputeRaised { invoice_id, buyer },
                )
            },
    {
        let idx = match self.record_index(invoice_id) {
            Some(i) => i,
            None => return Err(ContractError::InvoiceNotFound),
        };
        let ghost ix = idx as int;
        if self.records[idx].invoice.buyer != buyer {
            return Err(ContractError::Unauthorized);
        }
        let status = self.records[idx].invoice.status;
        if status != InvoiceStatus::Verified && status != InvoiceStatus::Funded
            && status != InvoiceStatus::Funding && status != InvoiceStatus::Overdue {
            return Err(ContractError::InvalidStatus);
        }
        proof {
            assert(record_wf(old(self).records@[ix], invoice_id));
        }
        self.records[idx].dispute = Some(
            Dispute {
                invoice_id,
                raised_by: buyer,
                reason,
                raised_at: now,
                resolution: DisputeResolution::Pending,
                resolved_at: 0,
            },
        );
        self.records[idx].invoice.status = InvoiceStatus::Disputed;
        self.events.dispute_raised(invoice_id, buyer);
        proof {
            assert(self.records@ =~= old(self).records@.update(ix, self.records@[ix]));
            Self::lemma_record_update_keeps_wf(old(self), self, invoice_id);
        }
        Ok(())
    }

    /// Why `resolve_dispute` fails, if it does.
    pub open spec fn resolve_dispute_error(&self, invoice_id: u64, admin: Address) -> Option<ContractError> {
        if !self.is_admin(admin) {
            Some(ContractError::Unauthorized)
        } else if !self.has_invoice(invoice_id) {
            Some(ContractError::InvoiceNotFound)
        } else if self.inv(invoice_id).status != InvoiceStatus::Disputed {
            Some(ContractError::InvalidStatus)
        } else if self.rec(invoice_id).dispute.is_none() {
            Some(ContractError::DisputeNotFound)
        } else if self.rec(invoice_id).dispute.unwrap().resolution != DisputeResolution::Pending {
            Some(ContractError::InvalidStatus)
        } else {
            None
        }
    }

    /// The administrator rules, once, on the pending dispute of a
    /// `Disputed` invoice. A valid dispute claws back every holding, burning
    /// the tokens without payment, and leaves the invoice frozen; an invalid
    /// one returns it to `Funded`. A dispute already ruled on fails with
    /// `InvalidStatus`.
    pub fn resolve_dispute(&mut self, invoice_id: u64, admin: Address, is_valid: bool, now: u64) -> (r: Result<
        (),
        ContractError,
    >)
        requires
            old(self).wf(),
        ensures
            final(self).wf(),
            r.is_err() <==> old(self).resolve_dispute_error(invoice_id, admin).is_some(),
            r.is_err() ==> r == Err::<(), ContractError>(old(self).resolve_dispute_error(invoice_id, admin).unwrap())
                && *final(self) == *old(self),
            r.is_ok() ==> {
                let old_rec = old(self).rec(invoice_id);
                let d = old_rec.dispute.unwrap();
                let rec = final(self).rec(invoice_id);
                &&& Self::only_record_changed(old(self), final(self), invoice_id)
                &&& rec.dispute == Some(
                    Dispute {
                        resolution: if is_valid {
                            DisputeResolution::Valid
                        } else {
                            DisputeResolution::Invalid
                        },
                        resolved_at: now,
                        ..d
                    },
                )
                &&& rec.claimed == old_rec.claimed
                &&& final(self).events.log@ == (old(self).events.log@ + if is_valid {
                    clawback_events(old_rec.holdings@, invoice_id)
                } else {
                    Seq::<InvoiceEvent>::empty()
                }).push(InvoiceEvent::DisputeResolved { invoice_id, is_valid })
                &&& if is_valid {
                    &&& rec.invoice == old_rec.invoice
                    &&& rec.holdings@.len() == 0
                    &&& rec.tokens_burned == old_rec.tokens_burned + total_held(old_rec.holdings@)
                } else {
                    &&& rec.invoice == (Invoice { status: InvoiceStatus::Funded, ..old_rec.invoice })
                    &&& rec.holdings == old_rec.holdings
                    &&& rec.tokens_burned == old_rec.tokens_burned
                }
            },
    {
        if !self.admin_is(admin) {
            return Err(ContractError::Unauthorized);
        }
        let idx = match self.record_index(invoice_id) {
            Some(i) => i,
            None => return Err(ContractError::InvoiceNotFound),
        };
        let ghost ix = idx as int;
        if self.records[idx].invoice.status != InvoiceStatus::Disputed {
            return Err(ContractError::InvalidStatus);
        }
        let resolved = match &self.records[idx].dispute {
            None => return Err(ContractError::DisputeNotFound),
            Some(d) if d.resolution != DisputeResolution::Pending => {
                return Err(ContractError::InvalidStatus);
            },
            Some(d) => Dispute {
                invoice_id: d.invoice_id,
                raised_by: d.raised_by,
                reason: d.reason.clone(),
                raised_at: d.raised_at,
                resolution: if is_valid {
                    DisputeResolution::Valid
                } else {
                    DisputeResolution::Invalid
                },
                resolved_at: now,
            },
        };
        if is_valid {
            let mut notices = seizure_events(&self.records[idx].holdings, invoice_id);
            self.burn_all(idx);
            self.events.log.append(&mut notices);
        } else {
            self.records[idx].invoice.status = InvoiceStatus::Funded;
            proof {
                assert(record_wf(old(self).records@[ix], invoice_id));
            }
        }
        self.records[idx].dispute = Some(resolved);
        self.events.dispute_resolved(invoice_id, is_valid);
        proof {
            if !is_valid {
                assert(old(self).events.log@ + Seq::<InvoiceEvent>::empty() =~= old(self).events.log@);
            }
        }
        proof {
            assert(self.records@ =~= old(self).records@.update(ix, self.records@[ix]));
            Self::lemma_record_update_keeps_wf(old(self), self, invoice_id);
        }
        Ok(())
    }

    /// Whether `who` is the administrator.
    pub(crate) fn admin_is(&self, who: Address) -> (r: bool)
        ensures
            r == self.is_admin(who),
    {
        match self.admin {
            Some(a) => a == who,
            None => false,
        }
    }

    /// Why `revoke` fails, if it does.
    pub open spec fn revoke_error(&self, invoice_id: u64, supplier: Address, now: u64) -> Option<ContractError> {
        if !self.has_invoice(invoice_id) {
            Some(ContractError::InvoiceNotFound)
        } else if self.inv(invoice_id).supplier != supplier {
            Some(ContractError::Unauthorized)
        } else if !(self.inv(invoice_id).status == InvoiceStatus::Draft
            || (self.inv(invoice_id).status == InvoiceStatus::Verified && now > self.inv(invoice_id).due_date)) {
            Some(ContractError::CannotRevoke)
        } else {
            None
        }
    }

    /// The supplier withdraws a `Draft` invoice, or a `Verified` one past
    /// its due date; its holdings are burned and it becomes `Revoked`.
    pub fn revoke(&mut self, invoice_id: u64, supplier: Address, now: u64) -> (r: Result<(), ContractError>)
        requires
            old(self).wf(),
        ensures
            final(self).wf(),
            r.is_err() <==> old(self).revoke_error(invoice_id, supplier, now).is_some(),
            r.is_err() ==> r == Err::<(), ContractError>(old(self).revoke_error(invoice_id, supplier, now).unwrap())
                && *final(self) == *old(self),
            r.is_ok() ==> {
                let old_rec = old(self).rec(invoice_id);
                let rec = final(self).rec(invoice_id);
                &&& Self::only_record_changed(old(self), final(self), invoice_id)
                &&& rec == (InvoiceRecord {
                    invoice: Invoice { status: InvoiceStatus::Revoked, ..old_rec.invoice },
                    holdings: rec.holdings,
                    tokens_burned: (old_rec.tokens_burned + total_held(old_rec.holdings@)) as i128,
                    ..old_rec
                })
                &&& rec.holdings@.len() == 0
                &&& final(self).events.log@ == old(self).events.log@.push(InvoiceEvent::InvoiceRevoked { invoice_id })
            },
    {
        let idx = match self.record_index(invoice_id) {
            Some(i) => i,
            None => return Err(ContractError::InvoiceNotFound),
        };
        let ghost ix = idx as int;
        if self.records[idx].invoice.supplier != supplier {
            return Err(ContractError::Unauthorized);
        }
        let status = self.records[idx].invoice.status;
        let can_revoke = match status {
            InvoiceStatus::Draft => true,
            InvoiceStatus::Verified => now > self.records[idx].invoice.due_date,
            _ => false,
        };
        if !can_revoke {
            return Err(ContractError::CannotRevoke);
        }
        self.burn_all(idx);
        self.records[idx].invoice.status = InvoiceStatus::Revoked;
        self.events.invoice_revoked(invoice_id);
        proof {
            assert(self.records@ =~= old(self).records@.update(ix, self.records@[ix]));
            Self::lemma_record_update_keeps_wf(old(self), self, invoice_id);
        }
        Ok(())
    }
}

} // verus!
