//! The invoice platform's state and invariant: every invoice's lifecycle
//! together with its ownership ledger, dispute, and insurance claims; the
//! secondary order book; the KYC allow-list; and the shared insurance pool.
//! Here stand origination, approval, the Dutch auction, primary
//! investment, transfers between holders, and settlement.
//!
//! Each operation is one atomic step: it either fails with a
//! `ContractError` and leaves the state untouched, or applies all of its
//! effects. Movements of the payment asset are queued as `Payment`s for the
//! payment ledger to carry out, and notifications as `InvoiceEvent`s for
//! the event sink; a failure of the payment ledger must abort the step.
use vstd::prelude::*;
use crate::arith::{bps_of, mul_div};
use crate::auction::{auction_price, auction_price_at, BPS_DENOMINATOR, SECONDS_PER_HOUR};
use crate::access::vec_contains;
use crate::errors::ContractError;
use crate::events::{InvoiceEvent, InvoiceEvents};
use crate::ledger::{
    balance_of, credit, credited, debit, debited, find_holding, holdings_wf, holds,
    index_of, lemma_amount_le_total, lemma_balance_at, lemma_credited, lemma_debited,
    total_held,
};
use crate::settlement::{pro_rata, settlement_amount, settlement_due};
use crate::types::{
    Address, Dispute, Invoice, InvoiceStatus, OrderStatus, Payment, RateConfig,
    SellOrder, TokenHolding,
};

verus! {

/// Id of the first invoice; later ones follow in order.
pub const FIRST_INVOICE_ID: u64 = 1001;

/// Largest number of invoices, and of sell orders, ids are drawn for.
pub const MAX_IDS: usize = 0xffff_ffff;

/// Seconds in a day.
pub const SECONDS_PER_DAY: u64 = 86400;

/// The largest discount, in basis points, an auction may offer.
pub const MAX_AUCTION_DISCOUNT_BPS: u32 = 5000;

/// One invoice with everything kept per invoice.
pub struct InvoiceRecord {
    pub invoice: Invoice,
    /// The ownership ledger: one holding per holder, in order of arrival.
    pub holdings: Vec<TokenHolding>,
    pub dispute: Option<Dispute>,
    /// Holders that have claimed insurance on this invoice.
    pub claimed: Vec<Address>,
    /// Tokens burned by settlement, clawback or revocation.
    pub tokens_burned: i128,
}

/// Well-formedness of one invoice record stored under `id`.
pub open spec fn record_wf(rec: InvoiceRecord, id: u64) -> bool {
    let inv = rec.invoice;
    &&& inv.id == id
    &&& 0 < inv.amount
    &&& inv.status == InvoiceStatus::Draft ==> inv.total_tokens == 0
    &&& inv.status != InvoiceStatus::Draft && inv.status != InvoiceStatus::Revoked
        ==> inv.total_tokens == inv.amount
    &&& inv.total_tokens == 0 || inv.total_tokens == inv.amount
    &&& 0 <= inv.tokens_sold
    &&& 0 <= inv.tokens_remaining
    &&& inv.tokens_sold + inv.tokens_remaining == inv.total_tokens
    &&& holdings_wf(rec.holdings@, id, i128::MAX as int)
    &&& 0 <= rec.tokens_burned
    &&& total_held(rec.holdings@) + rec.tokens_burned == inv.total_tokens
    &&& 0 <= inv.min_price <= inv.start_price <= inv.amount
}

/// Well-formedness of the sell order stored at position `k`.
pub open spec fn order_wf(o: SellOrder, k: int, n_invoices: int) -> bool {
    &&& o.id == k + 1
    &&& FIRST_INVOICE_ID <= o.invoice_id < FIRST_INVOICE_ID + n_invoices
    &&& 0 <= o.tokens_remaining <= o.token_amount
    &&& 0 <= o.price_per_token
}

/// An order of invoice `invoice_id` that can still be filled.
pub open spec fn open_order_of(o: SellOrder, invoice_id: u64) -> bool {
    o.invoice_id == invoice_id && order_active(o)
}

/// Orders stay well formed when invoices are added and at most the order
/// at position `k` changes or is appended, to a well-formed one.
pub proof fn lemma_orders_wf(old: Seq<SellOrder>, new: Seq<SellOrder>, n_old: int, n_new: int, k: int)
    requires
        forall|j: int| 0 <= j < old.len() ==> order_wf(#[trigger] old[j], j, n_old),
        n_old <= n_new,
        new.len() == old.len() || new.len() == old.len() + 1,
        new.len() == old.len() + 1 ==> k == old.len(),
        forall|j: int| 0 <= j < new.len() && j != k ==> new[j] == old[j],
        0 <= k < new.len() ==> order_wf(new[k], k, n_new),
    ensures
        forall|j: int| 0 <= j < new.len() ==> order_wf(#[trigger] new[j], j, n_new),
{
    assert forall|j: int| 0 <= j < new.len() implies order_wf(#[trigger] new[j], j, n_new) by {
        if j != k {
            assert(new[j] == old[j]);
            assert(order_wf(old[j], j, n_old));
        }
    }
}

/// An order that can still be filled.
pub open spec fn order_active(o: SellOrder) -> bool {
    o.status == OrderStatus::Open || o.status == OrderStatus::PartiallyFilled
}

/// The platform state.
pub struct SanginiInvoiceContract {
    /// The platform's own account in the payment ledger.
    pub contract_address: Address,
    pub admin: Option<Address>,
    pub payment_token: Option<Address>,
    pub rate_config: RateConfig,
    /// Invoice `FIRST_INVOICE_ID + i` is at position `i`.
    pub records: Vec<InvoiceRecord>,
    /// Order `k + 1` is at position `k`.
    pub orders: Vec<SellOrder>,
    /// KYC-approved investors.
    pub kyc: Vec<Address>,
    /// Authorized relayers.
    pub relayers: Vec<Address>,
    pub insurance_pool: i128,
    /// Payments decided by completed operations, oldest first, not yet
    /// handed to the payment ledger.
    pub pending_payments: Vec<Payment>,
    /// Notifications of completed operations not yet published.
    pub events: InvoiceEvents,
}

impl SanginiInvoiceContract {
    /// Whether an invoice has the id.
    pub open spec fn has_invoice(&self, id: u64) -> bool {
        FIRST_INVOICE_ID <= id && id - FIRST_INVOICE_ID < self.records@.len()
    }

    /// The record of invoice `id`.
    pub open spec fn rec(&self, id: u64) -> InvoiceRecord {
        self.records@[id - FIRST_INVOICE_ID]
    }

    /// Invoice `id`.
    pub open spec fn inv(&self, id: u64) -> Invoice {
        self.rec(id).invoice
    }

    /// The ownership ledger of invoice `id`.
    pub open spec fn ledger(&self, id: u64) -> Seq<TokenHolding> {
        self.rec(id).holdings@
    }

    /// Whether the investor is KYC-approved.
    pub open spec fn kyc_approved(&self, who: Address) -> bool {
        self.kyc@.contains(who)
    }

    /// Whether `who` is the administrator.
    pub open spec fn is_admin(&self, who: Address) -> bool {
        self.admin == Some(who)
    }

    /// Whether order `order_id` exists.
    pub open spec fn has_order(&self, order_id: u64) -> bool {
        1 <= order_id <= self.orders@.len()
    }

    /// Order `order_id`.
    pub open spec fn order(&self, order_id: u64) -> SellOrder {
        self.orders@[order_id - 1]
    }

    /// The platform invariant.
    pub open spec fn wf(&self) -> bool {
        &&& forall|i: int|
            0 <= i < self.records@.len() ==> record_wf(
                #[trigger] self.records@[i],
                (FIRST_INVOICE_ID + i) as u64,
            )
        &&& self.records@.len() <= MAX_IDS
        &&& forall|k: int|
            0 <= k < self.orders@.len() ==> order_wf(
                #[trigger] self.orders@[k],
                k,
                self.records@.len() as int,
            )
        &&& self.orders@.len() <= MAX_IDS
        &&& self.kyc@.no_duplicates()
        &&& self.relayers@.no_duplicates()
        &&& 0 <= self.insurance_pool
    }

    /// A platform with no invoices, not yet initialized, whose own account in
    /// the payment ledger is `contract_address`.
    pub fn new(contract_address: Address) -> (r: Self)
        ensures
            r.wf(),
            r.contract_address == contract_address,
            r.admin.is_none(),
            r.payment_token.is_none(),
            r.records@.len() == 0,
            r.orders@.len() == 0,
            r.kyc@.len() == 0,
            r.relayers@.len() == 0,
            r.insurance_pool == 0,
            r.pending_payments@.len() == 0,
            r.events.log@.len() == 0,
    {
        SanginiInvoiceContract {
            contract_address,
            admin: None,
            payment_token: None,
            rate_config: RateConfig::default(),
            records: Vec::new(),
            orders: Vec::new(),
            kyc: Vec::new(),
            relayers: Vec::new(),
            insurance_pool: 0,
            pending_payments: Vec::new(),
            events: InvoiceEvents::new(),
        }
    }

    /// Sets the administrator, the payment asset and the rates, once.
    pub fn initialize(
        &mut self,
        admin: Address,
        payment_token: Address,
        base_interest_rate: u32,
        penalty_rate: u32,
        grace_period_days: u32,
        insurance_cut_bps: u32,
    ) -> (r: Result<(), ContractError>)
        requires
            old(self).wf(),
        ensures
            final(self).wf(),
            r.is_err() <==> old(self).admin.is_some(),
            r.is_err() ==> r == Err::<(), ContractError>(ContractError::AlreadyInitialized)
                && *final(self) == *old(self),
            r.is_ok() ==> *final(self) == (SanginiInvoiceContract {
                admin: Some(admin),
                payment_token: Some(payment_token),
                rate_config: RateConfig {
                    base_interest_rate,
                    penalty_rate,
                    grace_period_days,
                    default_auction_duration: 604800,
                    default_price_drop_rate: 50,
                    default_max_discount: 1500,
                    insurance_cut_bps,
                },
                ..*old(self)
            }),
    {
        if self.admin.is_some() {
            return Err(ContractError::AlreadyInitialized);
        }
        self.admin = Some(admin);
        self.payment_token = Some(payment_token);
        self.rate_config = RateConfig {
            base_interest_rate,
            penalty_rate,
            grace_period_days,
            default_auction_duration: 604800,
            default_price_drop_rate: 50,
            default_max_discount: 1500,
            insurance_cut_bps,
        };
        Ok(())
    }

    /// Position of invoice `id`'s record.
    pub(crate) fn record_index(&self, id: u64) -> (r: Option<usize>)
        ensures
            r.is_some() <==> self.has_invoice(id),
            r.is_some() ==> r.unwrap() == id - FIRST_INVOICE_ID,
    {
        if id < FIRST_INVOICE_ID {
            return None;
        }
        let off: u64 = id - FIRST_INVOICE_ID;
        if off >= self.records.len() as u64 {
            None
        } else {
            Some(off as usize)
        }
    }
    /// `new` differs from `old` only in invoice `id`'s record.
    pub open spec fn only_record_changed(old: &Self, new: &Self, id: u64) -> bool {
        &&& new.records@ == old.records@.update(id - FIRST_INVOICE_ID, new.records@[id - FIRST_INVOICE_ID])
        &&& *new == (SanginiInvoiceContract { records: new.records, events: new.events, ..*old })
    }

    /// Why `approve_invoice` fails, if it does.
    pub open spec fn approve_error(&self, invoice_id: u64, buyer: Address) -> Option<ContractError> {
        if !self.has_invoice(invoice_id) {
            Some(ContractError::InvoiceNotFound)
        } else if self.inv(invoice_id).buyer != buyer {
            Some(ContractError::Unauthorized)
        } else if self.inv(invoice_id).status != InvoiceStatus::Draft {
            Some(ContractError::InvalidStatus)
        } else {
            None
        }
    }

    /// Creates an invoice in `Draft` for `supplier`, owed by `buyer`, and
    /// returns its id. Fails with `InvalidAmount` unless the amount is
    /// positive.
    pub fn mint_draft(
        &mut self,
        supplier: Address,
        buyer: Address,
        amount: i128,
        currency: String,
        due_date: u64,
        description: String,
        purchase_order: String,
        document_hash: String,
        now: u64,
    ) -> (r: Result<u64, ContractError>)
        requires
            old(self).wf(),
            old(self).records@.len() < MAX_IDS,
        ensures
            final(self).wf(),
            r.is_err() <==> amount <= 0,
            r.is_err() ==> r == Err::<u64, ContractError>(ContractError::InvalidAmount)
                && *final(self) == *old(self),
            r.is_ok() ==> {
                let id = r.unwrap();
                let rec = final(self).rec(id);
                &&& id == FIRST_INVOICE_ID + old(self).records@.len()
                &&& final(self).records@ == old(self).records@.push(rec)
                &&& *final(self) == (SanginiInvoiceContract {
                    records: final(self).records,
                    events: final(self).events,
                    ..*old(self)
                })
                &&& final(self).events.log@ == old(self).events.log@.push(
                    InvoiceEvent::InvoiceCreated { invoice_id: id, supplier, buyer, amount },
                )
                &&& rec.invoice == (Invoice {
                    id,
                    supplier,
                    buyer,
                    amount,
                    currency,
                    created_at: now,
                    due_date,
                    verified_at: 0,
                    settled_at: 0,
                    status: InvoiceStatus::Draft,
                    token_symbol: rec.invoice.token_symbol,
                    total_tokens: 0,
                    tokens_sold: 0,
                    tokens_remaining: 0,
                    description,
                    purchase_order,
                    document_hash,
                    repayment_received: 0,
                    buyer_signed_at: 0,
                    auction_start: 0,
                    auction_end: 0,
                    start_price: 0,
                    min_price: 0,
                    price_drop_rate: 0,
                })
                &&& rec.invoice.token_symbol@.len() == 0
                &&& rec.holdings@.len() == 0
                &&& rec.dispute.is_none()
                &&& rec.claimed@.len() == 0
                &&& rec.tokens_burned == 0
            },
    {
        if amount <= 0 {
            return Err(ContractError::InvalidAmount);
        }
        let id: u64 = FIRST_INVOICE_ID + self.records.len() as u64;
        let invoice = Invoice {
            id,
            supplier,
            buyer,
            amount,
            currency,
            created_at: now,
            due_date,
            verified_at: 0,
            settled_at: 0,
            status: InvoiceStatus::Draft,
            token_symbol: String::new(),
            total_tokens: 0,
            tokens_sold: 0,
            tokens_remaining: 0,
            description,
            purchase_order,
            document_hash,
            repayment_received: 0,
            buyer_signed_at: 0,
            auction_start: 0,
            auction_end: 0,
            start_price: 0,
            min_price: 0,
            price_drop_rate: 0,
        };
        let rec = InvoiceRecord {
            invoice,
            holdings: Vec::new(),
            dispute: None,
            claimed: Vec::new(),
            tokens_burned: 0,
        };
        self.records.push(rec);
        self.events.invoice_created(id, supplier, buyer, amount);
        proof {
            assert(total_held(Seq::<TokenHolding>::empty()) == 0);
            assert(record_wf(self.records@[self.records@.len() - 1], id));
            lemma_orders_wf(old(self).orders@, self.orders@, old(self).records@.len() as int, self.records@.len() as int, -1);
        }
        Ok(id)
    }

    /// The buyer approves a `Draft` invoice: it becomes `Verified`, and its
    /// whole amount is minted as tokens held by the supplier.
    pub fn approve_invoice(&mut self, invoice_id: u64, buyer: Address, now: u64) -> (r: Result<
        (),
        ContractError,
    >)
        requires
            old(self).wf(),
        ensures
            final(self).wf(),
            r.is_err() <==> old(self).approve_error(invoice_id, buyer).is_some(),
            r.is_err() ==> r == Err::<(), ContractError>(old(self).approve_error(invoice_id, buyer).unwrap())
                && *final(self) == *old(self),
            r.is_ok() ==> {
                let old_inv = old(self).inv(invoice_id);
                let rec = final(self).rec(invoice_id);
                &&& Self::only_record_changed(old(self), final(self), invoice_id)
                &&& rec == (InvoiceRecord { invoice: rec.invoice, holdings: rec.holdings, ..old(self).rec(invoice_id) })
                &&& rec.invoice == (Invoice {
                    status: InvoiceStatus::Verified,
                    verified_at: now,
                    buyer_signed_at: now,
                    token_symbol: rec.invoice.token_symbol,
                    total_tokens: old_inv.amount,
                    tokens_sold: 0,
                    tokens_remaining: old_inv.amount,
                    ..old_inv
                })
                &&& rec.invoice.token_symbol@ == seq!['S', 'N', 'G', '-']
                &&& final(self).events.log@ == old(self).events.log@.push(
                    InvoiceEvent::InvoiceVerified { invoice_id, buyer, tokens_minted: old_inv.amount },
                )
                &&& rec.holdings@ == seq![TokenHolding {
                    invoice_id,
                    holder: old_inv.supplier,
                    amount: old_inv.amount,
                    acquired_at: now,
                    acquired_price: old_inv.amount,
                }]
            },
    {
        let idx = match self.record_index(invoice_id) {
            Some(i) => i,
            None => return Err(ContractError::InvoiceNotFound),
        };
        if self.records[idx].invoice.buyer != buyer {
            return Err(ContractError::Unauthorized);
        }
        if self.records[idx].invoice.status != InvoiceStatus::Draft {
            return Err(ContractError::InvalidStatus);
        }
        let amount = self.records[idx].invoice.amount;
        let supplier = self.records[idx].invoice.supplier;
        proof {
            reveal_strlit("SNG-");
        }
        let symbol = "SNG-".to_owned();
        assert(symbol@ == seq!['S', 'N', 'G', '-']);
        self.records[idx].invoice.status = InvoiceStatus::Verified;
        self.records[idx].invoice.verified_at = now;
        self.records[idx].invoice.buyer_signed_at = now;
        self.records[idx].invoice.token_symbol = symbol;
        self.records[idx].invoice.total_tokens = amount;
        self.records[idx].invoice.tokens_sold = 0;
        self.records[idx].invoice.tokens_remaining = amount;
        let mut holdings: Vec<TokenHolding> = Vec::new();
        holdings.push(
            TokenHolding {
                invoice_id,
                holder: supplier,
                amount,
                acquired_at: now,
                acquired_price: amount,
            },
        );
        self.records[idx].holdings = holdings;
        self.events.invoice_verified(invoice_id, buyer, amount);
        proof {
            assert(record_wf(old(self).records@[idx as int], invoice_id));
            crate::ledger::lemma_total_nonneg(old(self).records@[idx as int].holdings@);
            let h = self.records@[idx as int].holdings@;
            assert(holdings_wf(h, invoice_id, self.records@[idx as int].invoice.amount + 0));
            assert(h.drop_last() =~= Seq::<TokenHolding>::empty());
            crate::ledger::lemma_total_push(Seq::<TokenHolding>::empty(), h[0]);
            assert(h =~= Seq::<TokenHolding>::empty().push(h[0]));
            assert(crate::ledger::amounts_of(Seq::<TokenHolding>::empty()) =~= Seq::<int>::empty());
            assert(total_held(h) == self.records@[idx as int].invoice.total_tokens);
            assert(self.records@[idx as int].invoice.status != InvoiceStatus::Draft);
            assert(record_wf(self.records@[idx as int], invoice_id));
            assert(self.records@ =~= old(self).records@.update(idx as int, self.records@[idx as int]));
            Self::lemma_record_update_keeps_wf(old(self), self, invoice_id);
        }
        Ok(())
    }

    /// Re-establishes the invariant after an operation that changed only
    /// invoice `id`'s record, the pool and the queued payments.
    pub(crate) proof fn lemma_record_update_keeps_wf(old: &Self, new: &Self, id: u64)
        requires
            old.wf(),
            old.has_invoice(id),
            new.records@ == old.records@.update(id - FIRST_INVOICE_ID, new.records@[id - FIRST_INVOICE_ID]),
            new.orders@ == old.orders@,
            new.kyc@ == old.kyc@,
            new.relayers@ == old.relayers@,
            0 <= new.insurance_pool,
            record_wf(new.rec(id), id),
        ensures
            new.wf(),
    {
        assert forall|i: int| 0 <= i < new.records@.len() implies record_wf(
            #[trigger] new.records@[i],
            (FIRST_INVOICE_ID + i) as u64,
        ) by {
            if i != id - FIRST_INVOICE_ID {
                assert(record_wf(old.records@[i], (FIRST_INVOICE_ID + i) as u64));
            }
        }
        lemma_orders_wf(old.orders@, new.orders@, old.records@.len() as int, new.records@.len() as int, -1);
    }

    /// Why `start_auction` fails, if it does.
    pub open spec fn start_auction_error(
        &self,
        invoice_id: u64,
        supplier: Address,
        duration_hours: u64,
        max_discount_bps: u32,
        now: u64,
    ) -> Option<ContractError> {
        if !self.has_invoice(invoice_id) {
            Some(ContractError::InvoiceNotFound)
        } else if self.inv(invoice_id).status != InvoiceStatus::Verified {
            Some(ContractError::InvalidStatus)
        } else if self.inv(invoice_id).supplier != supplier {
            Some(ContractError::Unauthorized)
        } else if duration_hours == 0 || max_discount_bps > MAX_AUCTION_DISCOUNT_BPS
            || now + duration_hours * 3600 > u64::MAX {
            Some(ContractError::InvalidAuctionParams)
        } else {
            None
        }
    }

    /// The supplier opens a Dutch auction on a `Verified` invoice: the price
    /// starts at face value and falls to at most `max_discount_bps` below it
    /// over `duration_hours`; the invoice moves to `Funding`.
    pub fn start_auction(
        &mut self,
        invoice_id: u64,
        supplier: Address,
        duration_hours: u64,
        max_discount_bps: u32,
        now: u64,
    ) -> (r: Result<(), ContractError>)
        requires
            old(self).wf(),
        ensures
            final(self).wf(),
            r.is_err() <==> old(self).start_auction_error(invoice_id, supplier, duration_hours, max_discount_bps, now).is_some(),
            r.is_err() ==> r == Err::<(), ContractError>(
                old(self).start_auction_error(invoice_id, supplier, duration_hours, max_discount_bps, now).unwrap(),
            ) && *final(self) == *old(self),
            r.is_ok() ==> {
                let old_inv = old(self).inv(invoice_id);
                let rec = final(self).rec(invoice_id);
                &&& Self::only_record_changed(old(self), final(self), invoice_id)
                &&& rec == (InvoiceRecord { invoice: rec.invoice, ..old(self).rec(invoice_id) })
                &&& rec.invoice == (Invoice {
                    status: InvoiceStatus::Funding,
                    auction_start: now,
                    auction_end: (now + duration_hours * 3600) as u64,
                    start_price: old_inv.amount,
                    min_price: (old_inv.amount - old_inv.amount * max_discount_bps / 10000) as i128,
                    price_drop_rate: old(self).rate_config.default_price_drop_rate,
                    ..old_inv
                })
                &&& final(self).events.log@ == old(self).events.log@.push(
                    InvoiceEvent::AuctionStarted {
                        invoice_id,
                        end_time: rec.invoice.auction_end,
                        start_price: rec.invoice.start_price,
                        min_price: rec.invoice.min_price,
                    },
                )
            },
    {
        let idx = match self.record_index(invoice_id) {
            Some(i) => i,
            None => return Err(ContractError::InvoiceNotFound),
        };
        if self.records[idx].invoice.status != InvoiceStatus::Verified {
            return Err(ContractError::InvalidStatus);
        }
        if self.records[idx].invoice.supplier != supplier {
            return Err(ContractError::Unauthorized);
        }
        if duration_hours == 0 || max_discount_bps > MAX_AUCTION_DISCOUNT_BPS {
            return Err(ContractError::InvalidAuctionParams);
        }
        if duration_hours > (u64::MAX - now) / SECONDS_PER_HOUR {
            proof {
                vstd::arithmetic::div_mod::lemma_fundamental_div_mod((u64::MAX - now) as int, 3600);
            }
            return Err(ContractError::InvalidAuctionParams);
        }
        proof {
            vstd::arithmetic::div_mod::lemma_fundamental_div_mod((u64::MAX - now) as int, 3600);
            assert(duration_hours * 3600 <= (u64::MAX - now) / 3600 * 3600) by (nonlinear_arith)
                requires duration_hours <= (u64::MAX - now) / 3600;
            assert(record_wf(old(self).records@[idx as int], invoice_id));
        }
        let end: u64 = now + duration_hours * SECONDS_PER_HOUR;
        let amount = self.records[idx].invoice.amount;
        assert(0 <= amount * max_discount_bps <= amount * 5000) by (nonlinear_arith)
            requires 0 < amount, max_discount_bps <= 5000;
        assert(amount * 5000 / 10000 <= amount) by (nonlinear_arith)
            requires 0 < amount;
        proof {
            vstd::arithmetic::div_mod::lemma_div_is_ordered(amount * max_discount_bps, amount * 5000, 10000);
            vstd::arithmetic::div_mod::lemma_div_pos_is_pos(amount * max_discount_bps, 10000);
        }
        let discount: i128 = mul_div(amount, max_discount_bps as i128, BPS_DENOMINATOR);
        let drop_rate = self.rate_config.default_price_drop_rate;
        self.records[idx].invoice.auction_start = now;
        self.records[idx].invoice.auction_end = end;
        self.records[idx].invoice.start_price = amount;
        self.records[idx].invoice.min_price = amount - discount;
        self.records[idx].invoice.price_drop_rate = drop_rate;
        self.records[idx].invoice.status = InvoiceStatus::Funding;
        self.events.auction_started(invoice_id, end, amount, amount - discount);
        proof {
            assert(self.records@ =~= old(self).records@.update(idx as int, self.records@[idx as int]));
            Self::lemma_record_update_keeps_wf(old(self), self, invoice_id);
        }
        Ok(())
    }

    /// The current unit price of invoice `invoice_id`'s tokens in its
    /// auction. Fails with `InvoiceNotFound`, or with `AuctionNotStarted`
    /// when no auction was started.
    pub fn get_current_price(&self, invoice_id: u64, now: u64) -> (r: Result<i128, ContractError>)
        requires
            self.wf(),
        ensures
            !self.has_invoice(invoice_id) ==> r == Err::<i128, ContractError>(ContractError::InvoiceNotFound),
            self.has_invoice(invoice_id) && self.inv(invoice_id).auction_start == 0 ==> r == Err::<
                i128,
                ContractError,
            >(ContractError::AuctionNotStarted),
            self.has_invoice(invoice_id) && self.inv(invoice_id).auction_start != 0 ==> r == Ok::<
                i128,
                ContractError,
            >(self.current_price(invoice_id, now) as i128),
    {
        let idx = match self.record_index(invoice_id) {
            Some(i) => i,
            None => return Err(ContractError::InvoiceNotFound),
        };
        let inv = &self.records[idx].invoice;
        if inv.auction_start == 0 {
            return Err(ContractError::AuctionNotStarted);
        }
        proof {
            assert(record_wf(self.records@[idx as int], invoice_id));
        }
        Ok(auction_price(inv.start_price, inv.min_price, inv.price_drop_rate, inv.auction_start, inv.auction_end, now))
    }

    /// The auction price of invoice `id` at `now`.
    pub open spec fn current_price(&self, id: u64, now: u64) -> int {
        let inv = self.inv(id);
        auction_price_at(
            inv.start_price as int,
            inv.min_price as int,
            inv.price_drop_rate as int,
            inv.auction_start,
            inv.auction_end,
            now,
        )
    }

    /// Tokens of the invoice not yet sold in the primary sale.
    pub fn get_available_tokens(&self, invoice_id: u64) -> (r: Result<i128, ContractError>)
        ensures
            !self.has_invoice(invoice_id) ==> r == Err::<i128, ContractError>(ContractError::InvoiceNotFound),
            self.has_invoice(invoice_id) ==> r == Ok::<i128, ContractError>(self.inv(invoice_id).tokens_remaining),
    {
        match self.record_index(invoice_id) {
            Some(i) => Ok(self.records[i].invoice.tokens_remaining),
            None => Err(ContractError::InvoiceNotFound),
        }
    }
    /// The unit price an investment pays now: the auction price while an
    /// auction was started, face value otherwise.
    pub open spec fn invest_price(&self, id: u64, now: u64) -> int {
        if self.inv(id).auction_start > 0 {
            self.current_price(id, now)
        } else {
            self.inv(id).amount as int
        }
    }

    /// What an investment of `token_amount` tokens pays now.
    pub open spec fn invest_payment(&self, id: u64, token_amount: int, now: u64) -> int {
        token_amount * self.invest_price(id, now) / self.inv(id).total_tokens as int
    }

    /// The insurance cut withheld from a payment.
    pub open spec fn insurance_cut(&self, payment: int) -> int {
        payment * self.rate_config.insurance_cut_bps / 10000
    }

    /// Why `invest` fails, if it does.
    pub open spec fn invest_error(&self, invoice_id: u64, investor: Address, token_amount: i128, now: u64) -> Option<ContractError> {
        if !self.kyc_approved(investor) {
            Some(ContractError::KYCRequired)
        } else if !self.has_invoice(invoice_id) {
            Some(ContractError::InvoiceNotFound)
        } else if self.inv(invoice_id).status != InvoiceStatus::Funding
            && self.inv(invoice_id).status != InvoiceStatus::Verified {
            Some(ContractError::InvalidStatus)
        } else if token_amount > self.inv(invoice_id).tokens_remaining {
            Some(ContractError::InsufficientTokens)
        } else if token_amount <= 0 {
            Some(ContractError::InvalidAmount)
        } else if balance_of(self.ledger(invoice_id), self.inv(invoice_id).supplier) < token_amount {
            Some(ContractError::InsufficientTokens)
        } else if self.insurance_cut(self.invest_payment(invoice_id, token_amount as int, now)) > i128::MAX
            || self.insurance_pool + self.insurance_cut(
            self.invest_payment(invoice_id, token_amount as int, now),
        ) > i128::MAX {
            Some(ContractError::InvalidAmount)
        } else if self.investor_price_overflows(invoice_id, investor, token_amount, now) {
            Some(ContractError::InvalidAmount)
        } else {
            None
        }
    }

    /// The ledger of invoice `id` once `token_amount` tokens have left the
    /// supplier's holding.
    pub open spec fn after_sale(&self, id: u64, token_amount: int) -> Seq<TokenHolding> {
        let h = self.ledger(id);
        debited(h, index_of(h, self.inv(id).supplier), token_amount)
    }

    /// Whether the investor's accumulated acquisition price would leave the
    /// `i128` range.
    pub open spec fn investor_price_overflows(&self, id: u64, investor: Address, token_amount: i128, now: u64) -> bool {
        let d = self.after_sale(id, token_amount as int);
        holds(d, investor) && d[index_of(d, investor)].acquired_price + self.invest_payment(
            id,
            token_amount as int,
            now,
        ) > i128::MAX
    }

    /// A KYC-approved investor buys `token_amount` tokens in the primary
    /// sale at the current price. The investor pays the platform; the
    /// platform keeps the insurance cut in the pool and passes the rest to
    /// the supplier; the tokens move from the supplier's holding to the
    /// investor's. Selling the last token makes the invoice `Funded`.
    /// Fails with `InvalidAmount` on a non-positive amount, or when the
    /// insurance cut, the pool, or the investor's acquisition price would
    /// leave the `i128` range.
    pub fn invest(&mut self, invoice_id: u64, investor: Address, token_amount: i128, now: u64) -> (r:
        Result<(), ContractError>)
        requires
            old(self).wf(),
        ensures
            final(self).wf(),
            r.is_err() <==> old(self).invest_error(invoice_id, investor, token_amount, now).is_some(),
            r.is_err() ==> r == Err::<(), ContractError>(
                old(self).invest_error(invoice_id, investor, token_amount, now).unwrap(),
            ) && *final(self) == *old(self),
            r.is_ok() ==> {
                let old_inv = old(self).inv(invoice_id);
                let rec = final(self).rec(invoice_id);
                let payment = old(self).invest_payment(invoice_id, token_amount as int, now);
                let cut = old(self).insurance_cut(payment);
                let h = old(self).ledger(invoice_id);
                let remaining = old_inv.tokens_remaining - token_amount;
                &&& final(self).records@ == old(self).records@.update(
                    invoice_id - FIRST_INVOICE_ID,
                    rec,
                )
                &&& *final(self) == (SanginiInvoiceContract {
                    records: final(self).records,
                    insurance_pool: final(self).insurance_pool,
                    pending_payments: final(self).pending_payments,
                    events: final(self).events,
                    ..*old(self)
                })
                &&& final(self).events.log@ == (if remaining == 0 {
                    old(self).events.log@.push(
                        InvoiceEvent::AuctionEnded {
                            invoice_id,
                            final_price: old(self).invest_price(invoice_id, now) as i128,
                        },
                    )
                } else {
                    old(self).events.log@
                }).push(
                    InvoiceEvent::InvestmentMade {
                        invoice_id,
                        investor,
                        token_amount,
                        payment_amount: payment as i128,
                    },
                )
                &&& final(self).insurance_pool == old(self).insurance_pool + cut
                &&& final(self).pending_payments@ == old(self).pending_payments@.push(
                    Payment { from: investor, to: old(self).contract_address, amount: payment as i128 },
                ).push(
                    Payment {
                        from: old(self).contract_address,
                        to: old_inv.supplier,
                        amount: (payment - cut) as i128,
                    },
                )
                &&& rec == (InvoiceRecord { invoice: rec.invoice, holdings: rec.holdings, ..old(self).rec(invoice_id) })
                &&& rec.invoice == (Invoice {
                    tokens_sold: (old_inv.tokens_sold + token_amount) as i128,
                    tokens_remaining: remaining as i128,
                    status: if remaining == 0 {
                        InvoiceStatus::Funded
                    } else {
                        old_inv.status
                    },
                    ..old_inv
                })
                &&& rec.holdings@ == credited(
                    debited(h, index_of(h, old_inv.supplier), token_amount as int),
                    invoice_id,
                    investor,
                    token_amount as int,
                    now,
                    payment,
                    payment,
                )
            },
    {
        if !vec_contains(&self.kyc, investor) {
            return Err(ContractError::KYCRequired);
        }
        let idx = match self.record_index(invoice_id) {
            Some(i) => i,
            None => return Err(ContractError::InvoiceNotFound),
        };
        let ghost id_ix = idx as int;
        let status = self.records[idx].invoice.status;
        if status != InvoiceStatus::Funding && status != InvoiceStatus::Verified {
            return Err(ContractError::InvalidStatus);
        }
        if token_amount > self.records[idx].invoice.tokens_remaining {
            return Err(ContractError::InsufficientTokens);
        }
        if token_amount <= 0 {
            return Err(ContractError::InvalidAmount);
        }
        let supplier = self.records[idx].invoice.supplier;
        proof {
            assert(record_wf(old(self).records@[id_ix], invoice_id));
        }
        let ghost h0 = self.records@[id_ix].holdings@;
        let k = match find_holding(&self.records[idx].holdings, supplier) {
            Some(k) => k,
            None => {
                proof {
                    crate::ledger::lemma_balance_absent(h0, supplier);
                }
                return Err(ContractError::InsufficientTokens);
            },
        };
        proof {
            lemma_balance_at(h0, k as int);
            lemma_amount_le_total(h0, k as int);
            assert(index_of(h0, supplier) == k as int);
        }
        if self.records[idx].holdings[k].amount < token_amount {
            return Err(ContractError::InsufficientTokens);
        }
        let amount = self.records[idx].invoice.amount;
        let price: i128 = if self.records[idx].invoice.auction_start > 0 {
            let inv = &self.records[idx].invoice;
            auction_price(inv.start_price, inv.min_price, inv.price_drop_rate, inv.auction_start, inv.auction_end, now)
        } else {
            amount
        };
        proof {
            // The auction price never exceeds the start price, which is face value.
            if self.records@[id_ix].invoice.auction_start > 0 {
                let inv = self.records@[id_ix].invoice;
                if now < inv.auction_end {
                    let hrs = crate::auction::hours_elapsed(inv.auction_start, now);
                    assert(hrs >= 0);
                    assert(inv.start_price * inv.price_drop_rate * hrs >= 0) by (nonlinear_arith)
                        requires inv.start_price >= 0, inv.price_drop_rate >= 0, hrs >= 0;
                    vstd::arithmetic::div_mod::lemma_div_pos_is_pos(inv.start_price * inv.price_drop_rate * hrs, 10000);
                }
            }
            assert(0 <= price <= amount);
        }
        let total = self.records[idx].invoice.total_tokens;
        proof {
            assert(token_amount * price <= total * price) by (nonlinear_arith)
                requires 0 < token_amount <= total, 0 <= price;
            vstd::arithmetic::div_mod::lemma_div_is_ordered(token_amount * price, total * price, total as int);
            assert(total * price == price * total) by (nonlinear_arith);
            vstd::arithmetic::div_mod::lemma_div_by_multiple(price as int, total as int);
            assert(token_amount * price <= token_amount * total) by (nonlinear_arith)
                requires 0 < token_amount, 0 <= price <= total;
            vstd::arithmetic::div_mod::lemma_div_is_ordered(token_amount * price, token_amount * total, total as int);
            assert(token_amount * total == total * token_amount) by (nonlinear_arith);
            vstd::arithmetic::div_mod::lemma_div_by_multiple(token_amount as int, total as int);
            assert(0 <= token_amount * price) by (nonlinear_arith)
                requires 0 < token_amount, 0 <= price;
            vstd::arithmetic::div_mod::lemma_div_pos_is_pos(token_amount * price, total as int);
        }
        let payment: i128 = mul_div(token_amount, price, total);
        assert(0 <= payment <= token_amount);
        let cut: i128 = match bps_of(payment, self.rate_config.insurance_cut_bps) {
            Some(c) => c,
            None => return Err(ContractError::InvalidAmount),
        };
        if self.insurance_pool > i128::MAX - cut {
            return Err(ContractError::InvalidAmount);
        }
        let ghost h_sale = debited(h0, k as int, token_amount as int);
        proof {
            lemma_debited(h0, invoice_id, i128::MAX as int, supplier, token_amount as int);
            crate::ledger::lemma_debited_prices(h0, k as int, token_amount as int);
        }
        match find_holding(&self.records[idx].holdings, investor) {
            Some(j) => {
                proof {
                    assert(index_of(h0, investor) == j as int);
                }
                let keeps = !(investor == supplier && self.records[idx].holdings[k].amount == token_amount);
                if keeps && self.records[idx].holdings[j].acquired_price > i128::MAX - payment {
                    proof {
                        assert(holds(h_sale, investor));
                    }
                    return Err(ContractError::InvalidAmount);
                }
                proof {
                    if holds(h_sale, investor) {
                        assert(keeps);
                    }
                }
            },
            None => {
                proof {
                    assert(!holds(h_sale, investor));
                }
            },
        }
        let from_price = debit(&mut self.records[idx].holdings, supplier, token_amount);
        let ghost h1 = self.records@[id_ix].holdings@;
        assert(h1 == h_sale);
        credit(&mut self.records[idx].holdings, invoice_id, investor, token_amount, now, payment, payment);
        proof {
            lemma_credited(h1, invoice_id, i128::MAX as int, investor, token_amount as int, now, payment as int, payment as int);
        }
        self.records[idx].invoice.tokens_sold = self.records[idx].invoice.tokens_sold + token_amount;
        self.records[idx].invoice.tokens_remaining = self.records[idx].invoice.tokens_remaining - token_amount;
        if self.records[idx].invoice.tokens_remaining == 0 {
            self.records[idx].invoice.status = InvoiceStatus::Funded;
            self.events.auction_ended(invoice_id, price);
        }
        self.events.investment_made(invoice_id, investor, token_amount, payment);
        self.insurance_pool = self.insurance_pool + cut;
        let me = self.contract_address;
        self.pending_payments.push(Payment { from: investor, to: me, amount: payment });
        self.pending_payments.push(Payment { from: me, to: supplier, amount: payment - cut });
        proof {
            assert(record_wf(self.records@[id_ix], invoice_id));
            assert(self.records@ =~= old(self).records@.update(id_ix, self.records@[id_ix]));
            Self::lemma_record_update_keeps_wf(old(self), self, invoice_id);
        }
        Ok(())
    }
    /// Why `transfer_tokens` fails, if it does.
    pub open spec fn transfer_error(&self, invoice_id: u64, from: Address, amount: i128) -> Option<ContractError> {
        if !self.has_invoice(invoice_id) {
            Some(ContractError::InvoiceNotFound)
        } else if self.inv(invoice_id).status != InvoiceStatus::Verified
            && self.inv(invoice_id).status != InvoiceStatus::Funded
            && self.inv(invoice_id).status != InvoiceStatus::Funding {
            Some(ContractError::InvalidStatus)
        } else if amount <= 0 {
            Some(ContractError::InvalidAmount)
        } else if balance_of(self.ledger(invoice_id), from) < amount {
            Some(ContractError::InsufficientTokens)
        } else {
            None
        }
    }

    /// Tokens `who` holds of the invoice recorded at `idx`.
    pub(crate) fn holder_balance(&self, idx: usize, who: Address) -> (r: i128)
        requires
            self.wf(),
            idx < self.records@.len(),
        ensures
            r == balance_of(self.records@[idx as int].holdings@, who),
    {
        let ghost h = self.records@[idx as int].holdings@;
        proof {
            assert(record_wf(self.records@[idx as int], (FIRST_INVOICE_ID + idx) as u64));
        }
        match find_holding(&self.records[idx].holdings, who) {
            Some(k) => {
                proof {
                    lemma_balance_at(h, k as int);
                }
                self.records[idx].holdings[k].amount
            },
            None => {
                proof {
                    crate::ledger::lemma_balance_absent(h, who);
                }
                0
            },
        }
    }

    /// Moves `amount` tokens of invoice `id` from `from` to `to`: the
    /// ownership-transfer primitive. The receiver's new holding inherits
    /// the sender's acquisition price; an existing one keeps its own.
    pub(crate) fn move_holding(&mut self, idx: usize, from: Address, to: Address, amount: i128, now: u64) -> (r:
        Result<(), ContractError>)
        requires
            old(self).wf(),
            idx < old(self).records@.len(),
            amount > 0,
        ensures
            final(self).wf(),
            ({
                let id = (FIRST_INVOICE_ID + idx) as u64;
                let h = old(self).ledger(id);
                &&& r.is_err() <==> balance_of(h, from) < amount
                &&& r.is_err() ==> r == Err::<(), ContractError>(ContractError::InsufficientTokens)
                    && *final(self) == *old(self)
                &&& r.is_ok() ==> {
                    let rec = final(self).rec(id);
                    &&& Self::only_record_changed(old(self), final(self), id)
                    &&& rec == (InvoiceRecord { holdings: rec.holdings, ..old(self).rec(id) })
                    &&& rec.holdings@ == transferred(h, id, from, to, amount as int, now)
                    &&& final(self).events == old(self).events
                }
            }),
    {
        let ghost id = (FIRST_INVOICE_ID + idx) as u64;
        let ghost ix = idx as int;
        let ghost h0 = self.records@[ix].holdings@;
        proof {
            assert(record_wf(old(self).records@[ix], id));
        }
        let k = match find_holding(&self.records[idx].holdings, from) {
            Some(k) => k,
            None => {
                proof {
                    crate::ledger::lemma_balance_absent(h0, from);
                }
                return Err(ContractError::InsufficientTokens);
            },
        };
        proof {
            lemma_balance_at(h0, k as int);
            lemma_amount_le_total(h0, k as int);
            assert(index_of(h0, from) == k as int);
        }
        if self.records[idx].holdings[k].amount < amount {
            return Err(ContractError::InsufficientTokens);
        }
        let ghost bound = i128::MAX as int;
        let price = match debit(&mut self.records[idx].holdings, from, amount) {
            Ok(p) => p,
            Err(e) => return Err(e),
        };
        proof {
            lemma_debited(h0, id, bound, from, amount as int);
        }
        let ghost h1 = self.records@[ix].holdings@;
        proof {
            if holds(h1, to) {
                let j = index_of(h1, to);
                assert(h1[j].acquired_price <= bound);
            }
        }
        let inv_id = self.records[idx].invoice.id;
        credit(&mut self.records[idx].holdings, inv_id, to, amount, now, price, 0);
        proof {
            lemma_credited(h1, id, bound, to, amount as int, now, price as int, 0);
            assert(record_wf(self.records@[ix], id));
            assert(self.records@ =~= old(self).records@.update(ix, self.records@[ix]));
            Self::lemma_record_update_keeps_wf(old(self), self, id);
        }
        Ok(())
    }

    /// A holder gives `amount` tokens of a `Verified`, `Funding` or `Funded`
    /// invoice to `to`; a non-positive amount fails with `InvalidAmount`.
    pub fn transfer_tokens(&mut self, invoice_id: u64, from: Address, to: Address, amount: i128, now: u64) -> (r:
        Result<(), ContractError>)
        requires
            old(self).wf(),
        ensures
            final(self).wf(),
            r.is_err() <==> old(self).transfer_error(invoice_id, from, amount).is_some(),
            r.is_err() ==> r == Err::<(), ContractError>(old(self).transfer_error(invoice_id, from, amount).unwrap())
                && *final(self) == *old(self),
            r.is_ok() ==> {
                let rec = final(self).rec(invoice_id);
                &&& Self::only_record_changed(old(self), final(self), invoice_id)
                &&& rec == (InvoiceRecord { holdings: rec.holdings, ..old(self).rec(invoice_id) })
                &&& rec.holdings@ == transferred(old(self).ledger(invoice_id), invoice_id, from, to, amount as int, now)
                &&& final(self).events.log@ == old(self).events.log@.push(
                    InvoiceEvent::TokenTransfer { invoice_id, from, to, amount },
                )
            },
    {
        let idx = match self.record_index(invoice_id) {
            Some(i) => i,
            None => return Err(ContractError::InvoiceNotFound),
        };
        let status = self.records[idx].invoice.status;
        if status != InvoiceStatus::Verified && status != InvoiceStatus::Funded
            && status != InvoiceStatus::Funding {
            return Err(ContractError::InvalidStatus);
        }
        if amount <= 0 {
            return Err(ContractError::InvalidAmount);
        }
        match self.move_holding(idx, from, to, amount, now) {
            Ok(()) => {},
            Err(e) => return Err(e),
        }
        self.events.token_transfer(invoice_id, from, to, amount);
        Ok(())
    }
    /// Why `settle` fails, if it does.
    pub open spec fn settle_error(&self, invoice_id: u64, buyer: Address, payment_amount: i128, now: u64) -> Option<ContractError> {
        if !self.has_invoice(invoice_id) {
            Some(ContractError::InvoiceNotFound)
        } else if self.inv(invoice_id).buyer != buyer {
            Some(ContractError::Unauthorized)
        } else if !settleable(self.inv(invoice_id).status) {
            Some(ContractError::InvalidStatus)
        } else if self.amount_due(invoice_id, now) > i128::MAX {
            Some(ContractError::InvalidAmount)
        } else if payment_amount < self.amount_due(invoice_id, now) {
            Some(ContractError::InsufficientPayment)
        } else {
            None
        }
    }

    /// What settling invoice `id` costs at `now`: principal plus simple
    /// interest since creation, at the penalty rate once overdue.
    pub open spec fn amount_due(&self, id: u64, now: u64) -> int {
        let inv = self.inv(id);
        settlement_due(
            inv.amount as int,
            self.rate_config.base_interest_rate,
            self.rate_config.penalty_rate,
            inv.created_at,
            inv.due_date,
            now,
        )
    }

    /// What settling invoice `invoice_id` costs now; `InvoiceNotFound` when
    /// there is no such invoice, `InvalidAmount` when the sum does not fit
    /// an `i128`.
    pub fn get_settlement_amount(&self, invoice_id: u64, now: u64) -> (r: Result<i128, ContractError>)
        requires
            self.wf(),
        ensures
            !self.has_invoice(invoice_id) ==> r == Err::<i128, ContractError>(ContractError::InvoiceNotFound),
            self.has_invoice(invoice_id) && self.amount_due(invoice_id, now) > i128::MAX ==> r == Err::<
                i128,
                ContractError,
            >(ContractError::InvalidAmount),
            self.has_invoice(invoice_id) && self.amount_due(invoice_id, now) <= i128::MAX ==> r == Ok::<
                i128,
                ContractError,
            >(self.amount_due(invoice_id, now) as i128),
            self.has_invoice(invoice_id) ==> self.amount_due(invoice_id, now) >= self.inv(invoice_id).amount,
    {
        let idx = match self.record_index(invoice_id) {
            Some(i) => i,
            None => return Err(ContractError::InvoiceNotFound),
        };
        proof {
            assert(record_wf(self.records@[idx as int], invoice_id));
        }
        let inv = &self.records[idx].invoice;
        match settlement_amount(
            inv.amount,
            self.rate_config.base_interest_rate,
            self.rate_config.penalty_rate,
            inv.created_at,
            inv.due_date,
            now,
        ) {
            Some(v) => Ok(v),
            None => Err(ContractError::InvalidAmount),
        }
    }

    /// The buyer pays at least what is owed; the platform takes the payment
    /// and pays each holder its pro-rata share, in ledger order, burning
    /// every holding. The invoice becomes `Settled`, for good. Fails with
    /// `InvalidAmount` when what is owed does not fit an `i128`.
    pub fn settle(&mut self, invoice_id: u64, buyer: Address, payment_amount: i128, now: u64) -> (r:
        Result<(), ContractError>)
        requires
            old(self).wf(),
        ensures
            final(self).wf(),
            r.is_err() <==> old(self).settle_error(invoice_id, buyer, payment_amount, now).is_some(),
            r.is_err() ==> r == Err::<(), ContractError>(
                old(self).settle_error(invoice_id, buyer, payment_amount, now).unwrap(),
            ) && *final(self) == *old(self),
            r.is_ok() ==> {
                let old_rec = old(self).rec(invoice_id);
                let rec = final(self).rec(invoice_id);
                &&& final(self).records@ == old(self).records@.update(invoice_id - FIRST_INVOICE_ID, rec)
                &&& *final(self) == (SanginiInvoiceContract {
                    records: final(self).records,
                    pending_payments: final(self).pending_payments,
                    events: final(self).events,
                    ..*old(self)
                })
                &&& final(self).events.log@ == (old(self).events.log@ + settlement_events(
                    old_rec.holdings@,
                    invoice_id,
                    payment_amount as int,
                    old_rec.invoice.total_tokens as int,
                )).push(InvoiceEvent::InvoiceSettled { invoice_id, amount: payment_amount })
                &&& final(self).pending_payments@ == old(self).pending_payments@.push(
                    Payment { from: buyer, to: old(self).contract_address, amount: payment_amount },
                ) + settlement_payouts(
                    old_rec.holdings@,
                    old(self).contract_address,
                    payment_amount as int,
                    old_rec.invoice.total_tokens as int,
                )
                &&& rec == (InvoiceRecord {
                    invoice: rec.invoice,
                    holdings: rec.holdings,
                    tokens_burned: (old_rec.tokens_burned + total_held(old_rec.holdings@)) as i128,
                    ..old_rec
                })
                &&& rec.holdings@.len() == 0
                &&& rec.invoice == (Invoice {
                    status: InvoiceStatus::Settled,
                    settled_at: now,
                    repayment_received: payment_amount,
                    ..old_rec.invoice
                })
                &&& forall|p: i128, t: u64| #[trigger] final(self).settle_error(invoice_id, buyer, p, t)
                    == Some(ContractError::InvalidStatus)
            },
    {
        let idx = match self.record_index(invoice_id) {
            Some(i) => i,
            None => return Err(ContractError::InvoiceNotFound),
        };
        let ghost ix = idx as int;
        if self.records[idx].invoice.buyer != buyer {
            return Err(ContractError::Unauthorized);
        }
        let status = self.records[idx].invoice.status;
        if status != InvoiceStatus::Funded && status != InvoiceStatus::Overdue
            && status != InvoiceStatus::Verified && status != InvoiceStatus::Funding {
            return Err(ContractError::InvalidStatus);
        }
        let required = match self.get_settlement_amount(invoice_id, now) {
            Ok(v) => v,
            Err(e) => return Err(e),
        };
        if payment_amount < required {
            return Err(ContractError::InsufficientPayment);
        }
        proof {
            assert(record_wf(old(self).records@[ix], invoice_id));
            crate::ledger::lemma_total_nonneg(self.records@[ix].holdings@);
        }
        proof {
            let h = self.records@[ix].holdings@;
            assert forall|j: int| 0 <= j < h.len() implies 0 <= (#[trigger] h[j]).amount
                <= self.records@[ix].invoice.total_tokens by {
                lemma_amount_le_total(h, j);
            }
        }
        let me = self.contract_address;
        let total = self.records[idx].invoice.total_tokens;
        let mut payouts = distribution(&self.records[idx].holdings, me, payment_amount, total);
        let mut notices = distribution_events(&self.records[idx].holdings, invoice_id, payment_amount, total);
        let held = total_tokens_held(&self.records[idx].holdings);
        self.pending_payments.push(Payment { from: buyer, to: me, amount: payment_amount });
        self.pending_payments.append(&mut payouts);
        self.events.log.append(&mut notices);
        self.events.invoice_settled(invoice_id, payment_amount);
        self.records[idx].holdings = Vec::new();
        self.records[idx].tokens_burned = self.records[idx].tokens_burned + held;
        self.records[idx].invoice.status = InvoiceStatus::Settled;
        self.records[idx].invoice.settled_at = now;
        self.records[idx].invoice.repayment_received = payment_amount;
        proof {
            assert(crate::ledger::amounts_of(Seq::<TokenHolding>::empty()) =~= Seq::<int>::empty());
            assert(record_wf(self.records@[ix], invoice_id));
            assert(self.records@ =~= old(self).records@.update(ix, self.records@[ix]));
            Self::lemma_record_update_keeps_wf(old(self), self, invoice_id);
        }
        Ok(())
    }
}

/// The ledger after `amount` tokens move from `from` to `to`: a debit of
/// the sender followed by a credit of the receiver, whose new holding would
/// inherit the sender's acquisition price.
pub open spec fn transferred(
    h: Seq<TokenHolding>,
    invoice_id: u64,
    from: Address,
    to: Address,
    amount: int,
    now: u64,
) -> Seq<TokenHolding> {
    let k = index_of(h, from);
    credited(debited(h, k, amount), invoice_id, to, amount, now, h[k].acquired_price as int, 0)
}

/// Statuses from which the buyer may settle.
pub open spec fn settleable(status: InvoiceStatus) -> bool {
    status == InvoiceStatus::Verified || status == InvoiceStatus::Funding
        || status == InvoiceStatus::Funded || status == InvoiceStatus::Overdue
}

/// The payouts of a settlement of `payment` from `from`: one per holding, in
/// ledger order, each the holder's pro-rata share.
pub open spec fn settlement_payouts(h: Seq<TokenHolding>, from: Address, payment: int, total: int) -> Seq<Payment> {
    h.map_values(
        |x: TokenHolding|
            Payment {
                from,
                to: x.holder,
                amount: crate::settlement::pro_rata_share(x.amount as int, payment, total) as i128,
            },
    )
}

/// The payouts of settling `payment` over `holdings`, which together hold
/// `total` tokens.
pub fn distribution(holdings: &Vec<TokenHolding>, from: Address, payment: i128, total: i128) -> (r: Vec<Payment>)
    requires
        0 < total,
        0 <= payment,
        forall|i: int| 0 <= i < holdings@.len() ==> 0 <= (#[trigger] holdings@[i]).amount <= total,
    ensures
        r@ == settlement_payouts(holdings@, from, payment as int, total as int),
{
    let mut out: Vec<Payment> = Vec::new();
    let mut i: usize = 0;
    while i < holdings.len()
        invariant
            i <= holdings@.len(),
            0 < total,
            0 <= payment,
            forall|j: int| 0 <= j < holdings@.len() ==> 0 <= (#[trigger] holdings@[j]).amount <= total,
            out@ == settlement_payouts(holdings@.take(i as int), from, payment as int, total as int),
        decreases holdings@.len() - i,
    {
        let x = holdings[i];
        let share: i128 = pro_rata(x.amount, payment, total);
        out.push(Payment { from, to: x.holder, amount: share });
        proof {
            assert(holdings@.take(i as int + 1) =~= holdings@.take(i as int).push(x));
            assert(out@ =~= settlement_payouts(holdings@.take(i as int + 1), from, payment as int, total as int));
        }
        i += 1;
    }
    proof {
        assert(holdings@.take(holdings@.len() as int) =~= holdings@);
    }
    out
}

/// The notifications of a settlement of `payment` over the holdings of
/// invoice `invoice_id`: one per holding, in ledger order, with its share.
pub open spec fn settlement_events(h: Seq<TokenHolding>, invoice_id: u64, payment: int, total: int) -> Seq<InvoiceEvent> {
    h.map_values(
        |x: TokenHolding|
            InvoiceEvent::SettlementDistributed {
                invoice_id,
                holder: x.holder,
                amount: crate::settlement::pro_rata_share(x.amount as int, payment, total) as i128,
            },
    )
}

/// The notifications of settling `payment` over `holdings`, which together
/// hold `total` tokens.
pub fn distribution_events(holdings: &Vec<TokenHolding>, invoice_id: u64, payment: i128, total: i128) -> (r: Vec<InvoiceEvent>)
    requires
        0 < total,
        0 <= payment,
        forall|i: int| 0 <= i < holdings@.len() ==> 0 <= (#[trigger] holdings@[i]).amount <= total,
    ensures
        r@ == settlement_events(holdings@, invoice_id, payment as int, total as int),
{
    let mut out: Vec<InvoiceEvent> = Vec::new();
    let mut i: usize = 0;
    while i < holdings.len()
        invariant
            i <= holdings@.len(),
            0 < total,
            0 <= payment,
            forall|j: int| 0 <= j < holdings@.len() ==> 0 <= (#[trigger] holdings@[j]).amount <= total,
            out@ == settlement_events(holdings@.take(i as int), invoice_id, payment as int, total as int),
        decreases holdings@.len() - i,
    {
        let x = holdings[i];
        let share: i128 = pro_rata(x.amount, payment, total);
        out.push(InvoiceEvent::SettlementDistributed { invoice_id, holder: x.holder, amount: share });
        proof {
            assert(holdings@.take(i as int + 1) =~= holdings@.take(i as int).push(x));
            assert(out@ =~= settlement_events(holdings@.take(i as int + 1), invoice_id, payment as int, total as int));
        }
        i += 1;
    }
    proof {
        assert(holdings@.take(holdings@.len() as int) =~= holdings@);
    }
    out
}

/// The notifications of a clawback of the holdings of invoice `invoice_id`:
/// one per holding, in ledger order, with the amount seized.
pub open spec fn clawback_events(h: Seq<TokenHolding>, invoice_id: u64) -> Seq<InvoiceEvent> {
    h.map_values(
        |x: TokenHolding| InvoiceEvent::ClawbackExecuted { invoice_id, holder: x.holder, amount: x.amount },
    )
}

/// The notifications of clawing back `holdings`.
pub fn seizure_events(holdings: &Vec<TokenHolding>, invoice_id: u64) -> (r: Vec<InvoiceEvent>)
    ensures
        r@ == clawback_events(holdings@, invoice_id),
{
    let mut out: Vec<InvoiceEvent> = Vec::new();
    let mut i: usize = 0;
    while i < holdings.len()
        invariant
            i <= holdings@.len(),
            out@ == clawback_events(holdings@.take(i as int), invoice_id),
        decreases holdings@.len() - i,
    {
        let x = holdings[i];
        out.push(InvoiceEvent::ClawbackExecuted { invoice_id, holder: x.holder, amount: x.amount });
        proof {
            assert(holdings@.take(i as int + 1) =~= holdings@.take(i as int).push(x));
            assert(out@ =~= clawback_events(holdings@.take(i as int + 1), invoice_id));
        }
        i += 1;
    }
    proof {
        assert(holdings@.take(holdings@.len() as int) =~= holdings@);
    }
    out
}

/// Tokens held over all holdings of a well-formed ledger.
pub fn total_tokens_held(holdings: &Vec<TokenHolding>) -> (r: i128)
    requires
        forall|i: int| 0 <= i < holdings@.len() ==> 0 <= (#[trigger] holdings@[i]).amount,
        total_held(holdings@) <= i128::MAX,
    ensures
        r == total_held(holdings@),
{
    let mut acc: i128 = 0;
    let mut i: usize = 0;
    while i < holdings.len()
        invariant
            i <= holdings@.len(),
            forall|j: int| 0 <= j < holdings@.len() ==> 0 <= (#[trigger] holdings@[j]).amount,
            total_held(holdings@) <= i128::MAX,
            acc == total_held(holdings@.take(i as int)),
        decreases holdings@.len() - i,
    {
        let ghost t = holdings@.take(i as int + 1);
        proof {
            assert(t.drop_last() =~= holdings@.take(i as int));
            assert(crate::ledger::amounts_of(t).drop_last() =~= crate::ledger::amounts_of(t.drop_last()));
            lemma_prefix_total_le(holdings@, i as int + 1);
        }
        acc = acc + holdings[i].amount;
        i += 1;
    }
    proof {
        assert(holdings@.take(holdings@.len() as int) =~= holdings@);
    }
    acc
}

/// A prefix of a ledger with non-negative amounts holds no more than the
/// whole ledger.
proof fn lemma_prefix_total_le(h: Seq<TokenHolding>, n: int)
    requires
        0 <= n <= h.len(),
        forall|j: int| 0 <= j < h.len() ==> 0 <= (#[trigger] h[j]).amount,
    ensures
        0 <= total_held(h.take(n)) <= total_held(h),
    decreases h.len(),
{
    if n == h.len() {
        assert(h.take(n) =~= h);
        crate::ledger::lemma_total_nonneg(h);
    } else {
        assert(crate::ledger::amounts_of(h).drop_last() =~= crate::ledger::amounts_of(h.drop_last()));
        assert(h.take(n) =~= h.drop_last().take(n));
        lemma_prefix_total_le(h.drop_last(), n);
    }
}

} // verus!
