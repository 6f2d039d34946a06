//! The secondary market: holders list tokens for resale, KYC-approved
//! buyers fill the listings in whole or in part, and sellers withdraw them.
use vstd::prelude::*;
use crate::access::vec_contains;
use crate::contract::{
    lemma_orders_wf, open_order_of, order_active, order_wf, record_wf, transferred, SanginiInvoiceContract,
    FIRST_INVOICE_ID, MAX_IDS,
};
use crate::errors::ContractError;
use crate::events::InvoiceEvent;
use crate::ledger::{balance_of, find_holding, holds, index_of, lemma_amount_le_total, lemma_balance_at};
use crate::contract::InvoiceRecord;
use crate::types::{Address, OrderStatus, Payment, SellOrder};

verus! {

impl SanginiInvoiceContract {
    /// Why `create_sell_order` fails, if it does.
    pub open spec fn create_order_error(&self, invoice_id: u64, seller: Address, token_amount: i128, price_per_token: i128) -> Option<ContractError> {
        if !self.has_invoice(invoice_id) || !holds(self.ledger(invoice_id), seller) {
            Some(ContractError::HoldingNotFound)
        } else if balance_of(self.ledger(invoice_id), seller) < token_amount {
            Some(ContractError::InsufficientTokens)
        } else if token_amount <= 0 || price_per_token < 0 {
            Some(ContractError::InvalidAmount)
        } else {
            None
        }
    }

    /// A holder lists `token_amount` of its tokens for resale at
    /// `price_per_token`, and gets the order's id. The tokens are checked,
    /// not reserved. Fails with `InvalidAmount` unless the amount is
    /// positive and the price non-negative.
    pub fn create_sell_order(&mut self, invoice_id: u64, seller: Address, token_amount: i128, price_per_token: i128, now: u64) -> (r:
        Result<u64, ContractError>)
        requires
            old(self).wf(),
            old(self).orders@.len() < MAX_IDS,
        ensures
            final(self).wf(),
            r.is_err() <==> old(self).create_order_error(invoice_id, seller, token_amount, price_per_token).is_some(),
            r.is_err() ==> r == Err::<u64, ContractError>(
                old(self).create_order_error(invoice_id, seller, token_amount, price_per_token).unwrap(),
            ) && *final(self) == *old(self),
            r.is_ok() ==> {
                &&& r.unwrap() == old(self).orders@.len() + 1
                &&& *final(self) == (SanginiInvoiceContract {
                    orders: final(self).orders,
                    events: final(self).events,
                    ..*old(self)
                })
                &&& final(self).events.log@ == old(self).events.log@.push(
                    InvoiceEvent::OrderCreated {
                        order_id: r.unwrap(),
                        invoice_id,
                        seller,
                        token_amount,
                        price_per_token,
                    },
                )
                &&& final(self).orders@ == old(self).orders@.push(
                    SellOrder {
                        id: r.unwrap(),
                        invoice_id,
                        seller,
                        token_amount,
                        price_per_token,
                        tokens_remaining: token_amount,
                        created_at: now,
                        status: OrderStatus::Open,
                    },
                )
            },
    {
        let idx = match self.record_index(invoice_id) {
            Some(i) => i,
            None => return Err(ContractError::HoldingNotFound),
        };
        let ghost h0 = self.records@[idx as int].holdings@;
        proof {
            assert(record_wf(old(self).records@[idx as int], invoice_id));
        }
        let k = match find_holding(&self.records[idx].holdings, seller) {
            Some(k) => k,
            None => return Err(ContractError::HoldingNotFound),
        };
        proof {
            lemma_balance_at(h0, k as int);
            lemma_amount_le_total(h0, k as int);
            assert(index_of(h0, seller) == k as int);
        }
        if self.records[idx].holdings[k].amount < token_amount {
            return Err(ContractError::InsufficientTokens);
        }
        if token_amount <= 0 || price_per_token < 0 {
            return Err(ContractError::InvalidAmount);
        }
        let order_id: u64 = self.orders.len() as u64 + 1;
        self.orders.push(
            SellOrder {
                id: order_id,
                invoice_id,
                seller,
                token_amount,
                price_per_token,
                tokens_remaining: token_amount,
                created_at: now,
                status: OrderStatus::Open,
            },
        );
        self.events.order_created(order_id, invoice_id, seller, token_amount, price_per_token);
        proof {
            let n = self.records@.len() as int;
            lemma_orders_wf(old(self).orders@, self.orders@, n, n, old(self).orders@.len() as int);
        }
        Ok(order_id)
    }

    /// Why `fill_order` fails, if it does.
    pub open spec fn fill_error(&self, order_id: u64, buyer: Address, token_amount: i128) -> Option<ContractError> {
        if !self.kyc_approved(buyer) {
            Some(ContractError::KYCRequired)
        } else if !self.has_order(order_id) {
            Some(ContractError::OrderNotFound)
        } else if !order_active(self.order(order_id)) {
            Some(ContractError::OrderNotActive)
        } else if token_amount > self.order(order_id).tokens_remaining {
            Some(ContractError::InsufficientTokens)
        } else if token_amount <= 0 {
            Some(ContractError::InvalidAmount)
        } else if balance_of(self.ledger(self.order(order_id).invoice_id), self.order(order_id).seller)
            < token_amount {
            Some(ContractError::InsufficientTokens)
        } else if token_amount * self.order(order_id).price_per_token > i128::MAX {
            Some(ContractError::InvalidAmount)
        } else {
            None
        }
    }

    /// A KYC-approved buyer takes `token_amount` tokens of an open order,
    /// paying the seller directly at the order's price; the tokens move from
    /// the seller's holding to the buyer's. The order is `Filled` once
    /// nothing remains, `PartiallyFilled` before. A payment beyond the
    /// `i128` range fails with `InvalidAmount`.
    pub fn fill_order(&mut self, order_id: u64, buyer: Address, token_amount: i128, now: u64) -> (r:
        Result<(), ContractError>)
        requires
            old(self).wf(),
        ensures
            final(self).wf(),
            r.is_err() <==> old(self).fill_error(order_id, buyer, token_amount).is_some(),
            r.is_err() ==> r == Err::<(), ContractError>(old(self).fill_error(order_id, buyer, token_amount).unwrap())
                && *final(self) == *old(self),
            r.is_ok() ==> {
                let o = old(self).order(order_id);
                let id = o.invoice_id;
                let rec = final(self).rec(id);
                let remaining = o.tokens_remaining - token_amount;
                &&& final(self).records@ == old(self).records@.update(id - FIRST_INVOICE_ID, rec)
                &&& rec == (InvoiceRecord { holdings: rec.holdings, ..old(self).rec(id) })
                &&& rec.holdings@ == transferred(old(self).ledger(id), id, o.seller, buyer, token_amount as int, now)
                &&& final(self).orders@ == old(self).orders@.update(
                    order_id - 1,
                    SellOrder {
                        tokens_remaining: remaining as i128,
                        status: if remaining == 0 {
                            OrderStatus::Filled
                        } else {
                            OrderStatus::PartiallyFilled
                        },
                        ..o
                    },
                )
                &&& final(self).pending_payments@ == old(self).pending_payments@.push(
                    Payment { from: buyer, to: o.seller, amount: (token_amount * o.price_per_token) as i128 },
                )
                &&& *final(self) == (SanginiInvoiceContract {
                    records: final(self).records,
                    orders: final(self).orders,
                    pending_payments: final(self).pending_payments,
                    events: final(self).events,
                    ..*old(self)
                })
                &&& final(self).events.log@ == old(self).events.log@.push(
                    InvoiceEvent::OrderFilled {
                        order_id,
                        buyer,
                        token_amount,
                        payment: (token_amount * o.price_per_token) as i128,
                    },
                )
            },
    {
        if !vec_contains(&self.kyc, buyer) {
            return Err(ContractError::KYCRequired);
        }
        if order_id == 0 || order_id > self.orders.len() as u64 {
            return Err(ContractError::OrderNotFound);
        }
        let k: usize = (order_id - 1) as usize;
        let order = self.orders[k];
        proof {
            assert(order_wf(order, k as int, self.records@.len() as int));
        }
        if order.status != OrderStatus::Open && order.status != OrderStatus::PartiallyFilled {
            return Err(ContractError::OrderNotActive);
        }
        if token_amount > order.tokens_remaining {
            return Err(ContractError::InsufficientTokens);
        }
        if token_amount <= 0 {
            return Err(ContractError::InvalidAmount);
        }
        let idx: usize = (order.invoice_id - FIRST_INVOICE_ID) as usize;
        if self.holder_balance(idx, order.seller) < token_amount {
            return Err(ContractError::InsufficientTokens);
        }
        if order.price_per_token > 0 && token_amount > i128::MAX / order.price_per_token {
            proof {
                let m = i128::MAX as int;
                let p = order.price_per_token as int;
                vstd::arithmetic::div_mod::lemma_fundamental_div_mod(m, p);
                assert(token_amount * p >= (m / p + 1) * p) by (nonlinear_arith)
                    requires token_amount >= m / p + 1, p > 0;
                assert((m / p + 1) * p == p * (m / p) + p) by (nonlinear_arith);
            }
            return Err(ContractError::InvalidAmount);
        }
        proof {
            let m = i128::MAX as int;
            let p = order.price_per_token as int;
            if p > 0 {
                vstd::arithmetic::div_mod::lemma_fundamental_div_mod(m, p);
                assert(token_amount * p <= (m / p) * p) by (nonlinear_arith)
                    requires token_amount <= m / p, p > 0;
                assert((m / p) * p == p * (m / p)) by (nonlinear_arith);
            } else {
                assert(token_amount * p == 0) by (nonlinear_arith)
                    requires p == 0;
            }
            assert(0 <= token_amount * p) by (nonlinear_arith)
                requires 0 < token_amount, 0 <= p;
        }
        let ghost fits = token_amount * order.price_per_token <= i128::MAX;
        assert(fits);
        match self.move_holding(idx, order.seller, buyer, token_amount, now) {
            Ok(()) => {},
            Err(e) => return Err(e),
        }
        let payment: i128 = token_amount * order.price_per_token;
        let remaining: i128 = order.tokens_remaining - token_amount;
        let status = if remaining == 0 {
            OrderStatus::Filled
        } else {
            OrderStatus::PartiallyFilled
        };
        let ghost mid = *self;
        self.orders[k] = SellOrder { tokens_remaining: remaining, status, ..order };
        self.pending_payments.push(Payment { from: buyer, to: order.seller, amount: payment });
        self.events.order_filled(order_id, buyer, token_amount, payment);
        proof {
            let n = self.records@.len() as int;
            lemma_orders_wf(mid.orders@, self.orders@, n, n, k as int);
            assert forall|i: int| 0 <= i < self.records@.len() implies record_wf(
                #[trigger] self.records@[i],
                (FIRST_INVOICE_ID + i) as u64,
            ) by {
                assert(record_wf(mid.records@[i], (FIRST_INVOICE_ID + i) as u64));
            }
        }
        Ok(())
    }

    /// The seller withdraws an order that is not yet filled.
    pub fn cancel_order(&mut self, order_id: u64, seller: Address) -> (r: Result<(), ContractError>)
        requires
            old(self).wf(),
        ensures
            final(self).wf(),
            !old(self).has_order(order_id) ==> r == Err::<(), ContractError>(ContractError::OrderNotFound),
            old(self).has_order(order_id) && old(self).order(order_id).seller != seller ==> r == Err::<
                (),
                ContractError,
            >(ContractError::Unauthorized),
            old(self).has_order(order_id) && old(self).order(order_id).seller == seller
                && old(self).order(order_id).status == OrderStatus::Filled ==> r == Err::<
                (),
                ContractError,
            >(ContractError::OrderAlreadyFilled),
            r.is_err() <==> !old(self).has_order(order_id) || old(self).order(order_id).seller != seller
                || old(self).order(order_id).status == OrderStatus::Filled,
            r.is_err() ==> *final(self) == *old(self),
            r.is_ok() ==> {
                &&& old(self).has_order(order_id)
                &&& final(self).orders@ == old(self).orders@.update(
                    order_id - 1,
                    SellOrder { status: OrderStatus::Cancelled, ..old(self).order(order_id) },
                )
                &&& *final(self) == (SanginiInvoiceContract {
                    orders: final(self).orders,
                    events: final(self).events,
                    ..*old(self)
                })
                &&& final(self).events.log@ == old(self).events.log@.push(
                    InvoiceEvent::OrderCancelled { order_id },
                )
            },
    {
        if order_id == 0 || order_id > self.orders.len() as u64 {
            return Err(ContractError::OrderNotFound);
        }
        let k: usize = (order_id - 1) as usize;
        let order = self.orders[k];
        if order.seller != seller {
            return Err(ContractError::Unauthorized);
        }
        if order.status == OrderStatus::Filled {
            return Err(ContractError::OrderAlreadyFilled);
        }
        self.orders[k] = SellOrder { status: OrderStatus::Cancelled, ..order };
        self.events.order_cancelled(order_id);
        proof {
            let n = self.records@.len() as int;
            lemma_orders_wf(old(self).orders@, self.orders@, n, n, k as int);
        }
        Ok(())
    }

    /// Order `order_id`.
    pub fn get_order(&self, order_id: u64) -> (r: Result<SellOrder, ContractError>)
        ensures
            self.has_order(order_id) ==> r == Ok::<SellOrder, ContractError>(self.order(order_id)),
            !self.has_order(order_id) ==> r == Err::<SellOrder, ContractError>(ContractError::OrderNotFound),
    {
        if order_id == 0 || order_id > self.orders.len() as u64 {
            return Err(ContractError::OrderNotFound);
        }
        Ok(self.orders[(order_id - 1) as usize])
    }

    /// The orders of invoice `invoice_id` that can still be filled, oldest
    /// first.
    pub fn get_open_orders(&self, invoice_id: u64) -> (r: Vec<SellOrder>)
        ensures
            r@ == self.orders@.filter(|o: SellOrder| open_order_of(o, invoice_id)),
    {
        let mut out: Vec<SellOrder> = Vec::new();
        let mut i: usize = 0;
        while i < self.orders.len()
            invariant
                i <= self.orders@.len(),
                out@ == self.orders@.take(i as int).filter(|o: SellOrder| open_order_of(o, invoice_id)),
            decreases self.orders@.len() - i,
        {
            let o = self.orders[i];
            proof {
                let s1 = self.orders@.take(i as int + 1);
                assert(s1.drop_last() =~= self.orders@.take(i as int));
                assert(s1.last() == o);
                reveal(Seq::filter);
                let pred = |o: SellOrder| open_order_of(o, invoice_id);
                assert(s1.filter(pred) == if pred(o) {
                    s1.drop_last().filter(pred).push(o)
                } else {
                    s1.drop_last().filter(pred)
                });
                assert(pred(o) == open_order_of(o, invoice_id));
            }
            if o.invoice_id == invoice_id && (o.status == OrderStatus::Open || o.status
                == OrderStatus::PartiallyFilled) {
                out.push(o);
            }
            i += 1;
        }
        proof {
            assert(self.orders@.take(self.orders@.len() as int) =~= self.orders@);
        }
        out
    }
}

} // verus!
