//! The fractional-ownership ledger of one invoice: at most one holding per
//! holder, each with a positive amount, moved by a single debit/credit
//! primitive that conserves the invoice's tokens.
use vstd::prelude::*;
use crate::settlement::sum_of;
use crate::errors::ContractError;
use crate::types::{Address, TokenHolding};

verus! {

/// The amounts of the holdings, in order.
pub open spec fn amounts_of(h: Seq<TokenHolding>) -> Seq<int> {
    h.map_values(|x: TokenHolding| x.amount as int)
}

/// Tokens held over all holdings.
pub open spec fn total_held(h: Seq<TokenHolding>) -> int {
    sum_of(amounts_of(h))
}

/// Whether `who` has a holding.
pub open spec fn holds(h: Seq<TokenHolding>, who: Address) -> bool {
    exists|i: int| 0 <= i < h.len() && h[i].holder == who
}

/// Tokens held by `who` (zero without a holding), in a well-formed ledger.
pub open spec fn balance_of(h: Seq<TokenHolding>, who: Address) -> int
    decreases h.len(),
{
    if h.len() == 0 {
        0
    } else {
        balance_of(h.drop_last(), who) + if h.last().holder == who {
            h.last().amount as int
        } else {
            0
        }
    }
}

/// Every holding belongs to the invoice, is positive, has a non-negative
/// acquisition price within `max_price`, and no holder appears twice.
pub open spec fn holdings_wf(h: Seq<TokenHolding>, invoice_id: u64, max_price: int) -> bool {
    &&& forall|i: int|
        0 <= i < h.len() ==> {
            &&& (#[trigger] h[i]).invoice_id == invoice_id
            &&& h[i].amount > 0
            &&& 0 <= h[i].acquired_price <= max_price
        }
    &&& unique_holders(h)
}

/// No holder has two holdings.
pub open spec fn unique_holders(h: Seq<TokenHolding>) -> bool {
    forall|i: int, j: int|
        0 <= i < h.len() && 0 <= j < h.len() && i != j ==> (#[trigger] h[i]).holder
            != (#[trigger] h[j]).holder
}

pub proof fn lemma_total_push(h: Seq<TokenHolding>, x: TokenHolding)
    ensures
        total_held(h.push(x)) == total_held(h) + x.amount,
        forall|who: Address|
            balance_of(h.push(x), who) == balance_of(h, who) + if x.holder == who {
                x.amount as int
            } else {
                0
            },
{
    assert(amounts_of(h.push(x)).drop_last() =~= amounts_of(h));
    assert forall|who: Address|
        balance_of(h.push(x), who) == balance_of(h, who) + if x.holder == who {
            x.amount as int
        } else {
            0
        } by {
        assert(h.push(x).drop_last() =~= h);
    }
}

pub proof fn lemma_total_update(h: Seq<TokenHolding>, k: int, x: TokenHolding)
    requires
        0 <= k < h.len(),
    ensures
        total_held(h.update(k, x)) == total_held(h) - h[k].amount + x.amount,
        forall|who: Address|
            balance_of(h.update(k, x), who) == balance_of(h, who) - (if h[k].holder == who {
                h[k].amount as int
            } else {
                0
            }) + (if x.holder == who {
                x.amount as int
            } else {
                0
            }),
    decreases h.len(),
{
    let u = h.update(k, x);
    if k == h.len() - 1 {
        assert(u.drop_last() =~= h.drop_last());
        assert(amounts_of(u).drop_last() =~= amounts_of(h.drop_last()));
        assert(amounts_of(h).drop_last() =~= amounts_of(h.drop_last()));
        assert forall|who: Address|
            balance_of(u, who) == balance_of(h, who) - (if h[k].holder == who {
                h[k].amount as int
            } else {
                0
            }) + (if x.holder == who {
                x.amount as int
            } else {
                0
            }) by {
            assert(balance_of(u, who) == balance_of(u.drop_last(), who) + if u.last().holder
                == who {
                u.last().amount as int
            } else {
                0
            });
        }
    } else {
        lemma_total_update(h.drop_last(), k, x);
        assert(u.drop_last() =~= h.drop_last().update(k, x));
        assert(amounts_of(u).drop_last() =~= amounts_of(h.drop_last().update(k, x)));
        assert(amounts_of(h).drop_last() =~= amounts_of(h.drop_last()));
        assert forall|who: Address|
            balance_of(u, who) == balance_of(h, who) - (if h[k].holder == who {
                h[k].amount as int
            } else {
                0
            }) + (if x.holder == who {
                x.amount as int
            } else {
                0
            }) by {
            assert(balance_of(u, who) == balance_of(u.drop_last(), who) + if u.last().holder
                == who {
                u.last().amount as int
            } else {
                0
            });
            assert(balance_of(h, who) == balance_of(h.drop_last(), who) + if h.last().holder
                == who {
                h.last().amount as int
            } else {
                0
            });
        }
    }
}

pub proof fn lemma_total_remove(h: Seq<TokenHolding>, k: int)
    requires
        0 <= k < h.len(),
    ensures
        total_held(h.remove(k)) == total_held(h) - h[k].amount,
        forall|who: Address|
            balance_of(h.remove(k), who) == balance_of(h, who) - if h[k].holder == who {
                h[k].amount as int
            } else {
                0
            },
    decreases h.len(),
{
    let r = h.remove(k);
    if k == h.len() - 1 {
        assert(r =~= h.drop_last());
        assert(amounts_of(h).drop_last() =~= amounts_of(h.drop_last()));
    } else {
        lemma_total_remove(h.drop_last(), k);
        assert(r.drop_last() =~= h.drop_last().remove(k));
        assert(amounts_of(r).drop_last() =~= amounts_of(h.drop_last().remove(k)));
        assert(amounts_of(h).drop_last() =~= amounts_of(h.drop_last()));
        assert forall|who: Address|
            balance_of(r, who) == balance_of(h, who) - if h[k].holder == who {
                h[k].amount as int
            } else {
                0
            } by {
            assert(balance_of(r, who) == balance_of(r.drop_last(), who) + if r.last().holder
                == who {
                r.last().amount as int
            } else {
                0
            });
            assert(balance_of(h, who) == balance_of(h.drop_last(), who) + if h.last().holder
                == who {
                h.last().amount as int
            } else {
                0
            });
        }
    }
}

/// In a ledger without repeated holders, the balance of the holder at `k`
/// is that holding's amount, and every other holder's balance is zero
/// unless it holds.
pub proof fn lemma_balance_at(h: Seq<TokenHolding>, k: int)
    requires
        0 <= k < h.len(),
        unique_holders(h),
    ensures
        balance_of(h, h[k].holder) == h[k].amount,
    decreases h.len(),
{
    if k == h.len() - 1 {
        lemma_balance_absent(h.drop_last(), h[k].holder);
    } else {
        lemma_balance_at(h.drop_last(), k);
    }
}

pub proof fn lemma_balance_absent(h: Seq<TokenHolding>, who: Address)
    requires
        !holds(h, who),
    ensures
        balance_of(h, who) == 0,
    decreases h.len(),
{
    if h.len() > 0 {
        assert(!holds(h.drop_last(), who)) by {
            if holds(h.drop_last(), who) {
                let i = choose|i: int| 0 <= i < h.drop_last().len() && h.drop_last()[i].holder == who;
                assert(h[i].holder == who);
            }
        }
        lemma_balance_absent(h.drop_last(), who);
        assert(h[h.len() - 1].holder != who);
    }
}

/// Each amount is at most the total when all amounts are non-negative.
pub proof fn lemma_amount_le_total(h: Seq<TokenHolding>, k: int)
    requires
        0 <= k < h.len(),
        forall|i: int| 0 <= i < h.len() ==> (#[trigger] h[i]).amount >= 0,
    ensures
        h[k].amount <= total_held(h),
        total_held(h) >= 0,
    decreases h.len(),
{
    assert(amounts_of(h).drop_last() =~= amounts_of(h.drop_last()));
    if k == h.len() - 1 {
        lemma_total_nonneg(h.drop_last());
    } else {
        lemma_amount_le_total(h.drop_last(), k);
    }
}

pub proof fn lemma_total_nonneg(h: Seq<TokenHolding>)
    requires
        forall|i: int| 0 <= i < h.len() ==> (#[trigger] h[i]).amount >= 0,
    ensures
        total_held(h) >= 0,
    decreases h.len(),
{
    if h.len() > 0 {
        assert(amounts_of(h).drop_last() =~= amounts_of(h.drop_last()));
        lemma_total_nonneg(h.drop_last());
    }
}

/// Finds the position of `who`'s holding.
pub fn find_holding(h: &Vec<TokenHolding>, who: Address) -> (r: Option<usize>)
    ensures
        match r {
            Some(k) => k < h@.len() && h@[k as int].holder == who,
            None => !holds(h@, who),
        },
{
    let mut i: usize = 0;
    while i < h.len()
        invariant
            i <= h@.len(),
            forall|j: int| 0 <= j < i ==> h@[j].holder != who,
        decreases h@.len() - i,
    {
        if h[i].holder == who {
            return Some(i);
        }
        i += 1;
    }
    None
}

/// Position of `who`'s holding, when it has one.
pub open spec fn index_of(h: Seq<TokenHolding>, who: Address) -> int {
    choose|i: int| 0 <= i < h.len() && h[i].holder == who
}

/// `who`'s holding, if any.
pub open spec fn holding_of(h: Seq<TokenHolding>, who: Address) -> Option<TokenHolding> {
    if holds(h, who) {
        Some(h[index_of(h, who)])
    } else {
        None
    }
}

/// The ledger after `amount` tokens leave `from`'s holding at position `k`:
/// the holding shrinks, and disappears when it reaches zero.
pub open spec fn debited(h: Seq<TokenHolding>, k: int, amount: int) -> Seq<TokenHolding> {
    if h[k].amount == amount {
        h.remove(k)
    } else {
        h.update(k, TokenHolding { amount: (h[k].amount - amount) as i128, ..h[k] })
    }
}

/// The ledger after `amount` tokens reach `to`: an existing holding grows and
/// its acquisition price rises by `price_add`; otherwise a new holding with
/// acquisition time `now` and price `new_price` is appended.
pub open spec fn credited(
    h: Seq<TokenHolding>,
    invoice_id: u64,
    to: Address,
    amount: int,
    now: u64,
    new_price: int,
    price_add: int,
) -> Seq<TokenHolding> {
    if holds(h, to) {
        let k = index_of(h, to);
        h.update(
            k,
            TokenHolding {
                amount: (h[k].amount + amount) as i128,
                acquired_price: (h[k].acquired_price + price_add) as i128,
                ..h[k]
            },
        )
    } else {
        h.push(
            TokenHolding {
                invoice_id,
                holder: to,
                amount: amount as i128,
                acquired_at: now,
                acquired_price: new_price as i128,
            },
        )
    }
}

/// Takes `amount` tokens out of `from`'s holding, removing the holding when
/// it is used up, and returns the holding's acquisition price. Fails with
/// `InsufficientTokens`, changing nothing, when `from` holds fewer tokens.
pub fn debit(h: &mut Vec<TokenHolding>, from: Address, amount: i128) -> (r: Result<
    i128,
    ContractError,
>)
    requires
        amount > 0,
        unique_holders(old(h)@),
    ensures
        r.is_ok() <==> holds(old(h)@, from) && old(h)@[index_of(old(h)@, from)].amount >= amount,
        r.is_ok() ==> {
            let k = index_of(old(h)@, from);
            &&& r.unwrap() == old(h)@[k].acquired_price
            &&& final(h)@ == debited(old(h)@, k, amount as int)
        },
        r.is_err() ==> r == Err::<i128, ContractError>(ContractError::InsufficientTokens)
            && final(h)@ == old(h)@,
{
    match find_holding(h, from) {
        None => Err(ContractError::InsufficientTokens),
        Some(k) => {
            assert(index_of(old(h)@, from) == k as int);
            let cur = h[k];
            if cur.amount < amount {
                return Err(ContractError::InsufficientTokens);
            }
            if cur.amount == amount {
                h.remove(k);
            } else {
                h[k] = TokenHolding { amount: cur.amount - amount, ..cur };
            }
            Ok(cur.acquired_price)
        },
    }
}

/// Adds `amount` tokens to `to`'s holding (raising its acquisition price by
/// `price_add`), or opens a holding for `to` bought at `new_price` at `now`.
pub fn credit(
    h: &mut Vec<TokenHolding>,
    invoice_id: u64,
    to: Address,
    amount: i128,
    now: u64,
    new_price: i128,
    price_add: i128,
)
    requires
        0 < amount,
        0 <= price_add,
        holdings_wf(old(h)@, invoice_id, i128::MAX as int),
        total_held(old(h)@) + amount <= i128::MAX,
        holds(old(h)@, to) ==> old(h)@[index_of(old(h)@, to)].acquired_price + price_add <= i128::MAX,
    ensures
        final(h)@ == credited(
            old(h)@,
            invoice_id,
            to,
            amount as int,
            now,
            new_price as int,
            price_add as int,
        ),
{
    match find_holding(h, to) {
        None => {
            h.push(
                TokenHolding {
                    invoice_id,
                    holder: to,
                    amount,
                    acquired_at: now,
                    acquired_price: new_price,
                },
            );
        },
        Some(k) => {
            assert(index_of(old(h)@, to) == k as int);
            let cur = h[k];
            proof {
                lemma_amount_le_total(old(h)@, k as int);
            }
            h[k] = TokenHolding {
                amount: cur.amount + amount,
                acquired_price: cur.acquired_price + price_add,
                ..cur
            };
        },
    }
}

/// A debit keeps the ledger well formed, lowers the total and the
/// debited holder's balance by the amount, and leaves other balances alone.
pub proof fn lemma_debited(h: Seq<TokenHolding>, invoice_id: u64, max_price: int, from: Address, amount: int)
    requires
        holdings_wf(h, invoice_id, max_price),
        holds(h, from),
        0 < amount <= h[index_of(h, from)].amount,
    ensures
        ({
            let d = debited(h, index_of(h, from), amount);
            &&& holdings_wf(d, invoice_id, max_price)
            &&& total_held(d) == total_held(h) - amount
            &&& forall|who: Address|
                #[trigger] balance_of(d, who) == balance_of(h, who) - if who == from {
                    amount
                } else {
                    0
                }
            &&& holds(d, from) <==> h[index_of(h, from)].amount > amount
            &&& forall|who: Address| who != from ==> (holds(d, who) <==> holds(h, who))
        }),
{
    let k = index_of(h, from);
    let d = debited(h, k, amount);
    if h[k].amount == amount {
        lemma_total_remove(h, k);
        assert(!holds(d, from)) by {
            if holds(d, from) {
                let i = choose|i: int| 0 <= i < d.len() && d[i].holder == from;
                if i < k {
                    assert(h[i].holder == from);
                } else {
                    assert(h[i + 1].holder == from);
                }
            }
        }
        assert forall|who: Address| who != from implies (holds(d, who) <==> holds(h, who)) by {
            if holds(h, who) {
                let i = choose|i: int| 0 <= i < h.len() && h[i].holder == who;
                if i < k {
                    assert(d[i].holder == who);
                } else {
                    assert(i != k);
                    assert(d[i - 1].holder == who);
                }
            }
            if holds(d, who) {
                let i = choose|i: int| 0 <= i < d.len() && d[i].holder == who;
                if i < k {
                    assert(h[i].holder == who);
                } else {
                    assert(h[i + 1].holder == who);
                }
            }
        }
    } else {
        let x = TokenHolding { amount: (h[k].amount - amount) as i128, ..h[k] };
        lemma_total_update(h, k, x);
        assert(d[k].holder == from);
        assert forall|who: Address| who != from implies (holds(d, who) <==> holds(h, who)) by {
            if holds(h, who) {
                let i = choose|i: int| 0 <= i < h.len() && h[i].holder == who;
                assert(d[i].holder == who);
            }
            if holds(d, who) {
                let i = choose|i: int| 0 <= i < d.len() && d[i].holder == who;
                assert(h[i].holder == who);
            }
        }
    }
}

/// A debit changes no acquisition price of the holdings that remain.
pub proof fn lemma_debited_prices(h: Seq<TokenHolding>, k: int, amount: int)
    requires
        unique_holders(h),
        0 <= k < h.len(),
        0 < amount <= h[k].amount,
    ensures
        forall|who: Address|
            #[trigger] holds(debited(h, k, amount), who) ==> debited(h, k, amount)[index_of(
                debited(h, k, amount),
                who,
            )].acquired_price == h[index_of(h, who)].acquired_price,
{
    let d = debited(h, k, amount);
    assert forall|who: Address| #[trigger] holds(d, who) implies d[index_of(d, who)].acquired_price
        == h[index_of(h, who)].acquired_price by {
        let i = index_of(d, who);
        let i2 = if h[k].amount == amount && i >= k { i + 1 } else { i };
        assert(d[i] == if h[k].amount == amount { h[i2] } else if i == k {
            TokenHolding { amount: (h[k].amount - amount) as i128, ..h[k] }
        } else {
            h[i]
        });
        assert(h[i2].holder == who);
        let j = index_of(h, who);
        if j != i2 {
            assert(h[j].holder != h[i2].holder);
        }
    }
}

/// A credit keeps the ledger well formed (given room for the price), raises
/// the total and the credited holder's balance by the amount, and leaves
/// other balances alone.
pub proof fn lemma_credited(
    h: Seq<TokenHolding>,
    invoice_id: u64,
    max_price: int,
    to: Address,
    amount: int,
    now: u64,
    new_price: int,
    price_add: int,
)
    requires
        holdings_wf(h, invoice_id, max_price),
        max_price <= i128::MAX,
        0 < amount,
        0 <= total_held(h),
        total_held(h) + amount <= i128::MAX,
        holds(h, to) ==> 0 <= h[index_of(h, to)].acquired_price + price_add <= max_price,
        !holds(h, to) ==> 0 <= new_price <= max_price,
    ensures
        ({
            let c = credited(h, invoice_id, to, amount, now, new_price, price_add);
            &&& holdings_wf(c, invoice_id, max_price)
            &&& total_held(c) == total_held(h) + amount
            &&& forall|who: Address|
                #[trigger] balance_of(c, who) == balance_of(h, who) + if who == to {
                    amount
                } else {
                    0
                }
            &&& holds(c, to)
            &&& forall|who: Address| who != to ==> (holds(c, who) <==> holds(h, who))
        }),
{
    let c = credited(h, invoice_id, to, amount, now, new_price, price_add);
    if holds(h, to) {
        let k = index_of(h, to);
        lemma_amount_le_total(h, k);
        let x = TokenHolding {
            amount: (h[k].amount + amount) as i128,
            acquired_price: (h[k].acquired_price + price_add) as i128,
            ..h[k]
        };
        lemma_total_update(h, k, x);
        assert(c[k].holder == to);
        assert forall|who: Address| who != to implies (holds(c, who) <==> holds(h, who)) by {
            if holds(h, who) {
                let i = choose|i: int| 0 <= i < h.len() && h[i].holder == who;
                assert(c[i].holder == who);
            }
            if holds(c, who) {
                let i = choose|i: int| 0 <= i < c.len() && c[i].holder == who;
                assert(h[i].holder == who);
            }
        }
    } else {
        let x = TokenHolding {
            invoice_id,
            holder: to,
            amount: amount as i128,
            acquired_at: now,
            acquired_price: new_price as i128,
        };
        lemma_total_push(h, x);
        assert(c[h.len() as int].holder == to);
        assert forall|who: Address| who != to implies (holds(c, who) <==> holds(h, who)) by {
            if holds(h, who) {
                let i = choose|i: int| 0 <= i < h.len() && h[i].holder == who;
                assert(c[i].holder == who);
            }
            if holds(c, who) {
                let i = choose|i: int| 0 <= i < c.len() && c[i].holder == who;
                assert(h[i].holder == who);
            }
        }
    }
}

} // verus!
