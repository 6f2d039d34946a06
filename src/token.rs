//! The invoice claim token: a fungible token with admin minting and
//! clawback, burning, time-limited allowances, and a KYC gate on
//! transfers. Ledger sequence numbers are supplied by the caller.
use vstd::prelude::*;
use crate::access::vec_contains;
use crate::types::Address;

verus! {

/// Decimal places of every claim token.
pub const TOKEN_DECIMALS: u32 = 7;

/// Ways a token operation can fail; a failed operation changes nothing.
#[derive(Clone, Copy, Debug, PartialEq, Eq, Structural)]
pub enum TokenError {
    AlreadyInitialized,
    NotInitialized,
    NegativeAmount,
    InsufficientBalance,
    InsufficientAllowance,
    /// Neither the administrator, the invoice platform, nor KYC-approved.
    NotAuthorized,
    /// A balance would leave the `i128` range.
    Overflow,
}

/// The token's amounts are never negative. A negative amount is excluded
/// by the precondition: the token's operations test it first and answer
/// `NegativeAmount`.
pub fn check_nonnegative_amount(amount: i128)
    requires
        amount >= 0,
{
}

/// Who may spend whose tokens.
#[derive(Clone, Copy, Debug, PartialEq, Eq, Structural)]
pub struct AllowanceDataKey {
    pub from: Address,
    pub spender: Address,
}

/// An allowance and the last ledger it is valid in.
#[derive(Clone, Copy, Debug, PartialEq, Eq, Structural)]
pub struct AllowanceValue {
    pub amount: i128,
    pub expiration_ledger: u32,
}

/// Name, symbol and decimals of the token, and the invoice it belongs to.
#[derive(Clone, Debug)]
pub struct TokenMetadata {
    pub name: String,
    pub symbol: String,
    pub decimals: u32,
    pub invoice_id: String,
}

/// Recorded balance of `who` (zero without an entry), for entries with
/// unique accounts.
pub open spec fn balance_in(v: Seq<(Address, i128)>, who: Address) -> int {
    if exists|i: int| 0 <= i < v.len() && v[i].0 == who {
        v[choose|i: int| 0 <= i < v.len() && v[i].0 == who].1 as int
    } else {
        0
    }
}

/// No account has two balance entries.
pub open spec fn unique_accounts(v: Seq<(Address, i128)>) -> bool {
    forall|i: int, j: int|
        0 <= i < v.len() && 0 <= j < v.len() && i != j ==> (#[trigger] v[i]).0 != (#[trigger] v[j]).0
}

/// Recorded allowance under `key`, if any.
pub open spec fn allowance_in(v: Seq<(AllowanceDataKey, AllowanceValue)>, key: AllowanceDataKey) -> Option<AllowanceValue> {
    if exists|i: int| 0 <= i < v.len() && v[i].0 == key {
        Some(v[choose|i: int| 0 <= i < v.len() && v[i].0 == key].1)
    } else {
        None
    }
}

/// No key has two allowance entries.
pub open spec fn unique_keys(v: Seq<(AllowanceDataKey, AllowanceValue)>) -> bool {
    forall|i: int, j: int|
        0 <= i < v.len() && 0 <= j < v.len() && i != j ==> (#[trigger] v[i]).0 != (#[trigger] v[j]).0
}

/// Records `amount` as `who`'s balance.
fn write_balance_entry(v: &mut Vec<(Address, i128)>, who: Address, amount: i128)
    requires
        unique_accounts(old(v)@),
    ensures
        unique_accounts(final(v)@),
        forall|w: Address| #[trigger] balance_in(final(v)@, w) == if w == who {
            amount as int
        } else {
            balance_in(old(v)@, w)
        },
{
    let mut i: usize = 0;
    while i < v.len()
        invariant
            i <= v@.len(),
            v@ == old(v)@,
            forall|j: int| 0 <= j < i ==> v@[j].0 != who,
            unique_accounts(v@),
        decreases v@.len() - i,
    {
        if v[i].0 == who {
            let ghost before = v@;
            v[i] = (who, amount);
            proof {
                assert forall|a: int, b: int|
                    0 <= a < v@.len() && 0 <= b < v@.len() && a != b implies (#[trigger] v@[a]).0
                    != (#[trigger] v@[b]).0 by {
                    assert(v@[a].0 == before[a].0);
                    assert(v@[b].0 == before[b].0);
                }
                assert forall|w: Address| #[trigger] balance_in(v@, w) == if w == who {
                    amount as int
                } else {
                    balance_in(before, w)
                } by {
                    if w == who {
                        assert(v@[i as int].0 == who);
                        let k = choose|k: int| 0 <= k < v@.len() && v@[k].0 == who;
                        if k != i as int {
                            assert(v@[k].0 != v@[i as int].0);
                        }
                    } else {
                        if exists|k: int| 0 <= k < before.len() && before[k].0 == w {
                            let k = choose|k: int| 0 <= k < before.len() && before[k].0 == w;
                            assert(v@[k].0 == w);
                        }
                        if exists|k: int| 0 <= k < v@.len() && v@[k].0 == w {
                            let k = choose|k: int| 0 <= k < v@.len() && v@[k].0 == w;
                            assert(before[k].0 == w);
                        }
                    }
                }
            }
            return;
        }
        i += 1;
    }
    let ghost before = v@;
    v.push((who, amount));
    proof {
        assert forall|a: int, b: int|
            0 <= a < v@.len() && 0 <= b < v@.len() && a != b implies (#[trigger] v@[a]).0
            != (#[trigger] v@[b]).0 by {
            if a < before.len() && b < before.len() {
                assert(v@[a] == before[a]);
                assert(v@[b] == before[b]);
            } else if a < before.len() {
                assert(v@[a] == before[a]);
            } else {
                assert(v@[b] == before[b]);
            }
        }
        assert forall|w: Address| #[trigger] balance_in(v@, w) == if w == who {
            amount as int
        } else {
            balance_in(before, w)
        } by {
            if w == who {
                assert(v@[before.len() as int].0 == who);
                let k = choose|k: int| 0 <= k < v@.len() && v@[k].0 == who;
                if k != before.len() as int {
                    assert(v@[k] == before[k]);
                }
            } else {
                if exists|k: int| 0 <= k < before.len() && before[k].0 == w {
                    let k = choose|k: int| 0 <= k < before.len() && before[k].0 == w;
                    assert(v@[k].0 == w);
                }
                if exists|k: int| 0 <= k < v@.len() && v@[k].0 == w {
                    let k = choose|k: int| 0 <= k < v@.len() && v@[k].0 == w;
                    assert(before[k].0 == w);
                }
            }
        }
    }
}

/// Recorded balance of `who`.
fn read_balance_entry(v: &Vec<(Address, i128)>, who: Address) -> (r: i128)
    requires
        unique_accounts(v@),
    ensures
        r == balance_in(v@, who),
{
    let mut i: usize = 0;
    while i < v.len()
        invariant
            i <= v@.len(),
            forall|j: int| 0 <= j < i ==> v@[j].0 != who,
            unique_accounts(v@),
        decreases v@.len() - i,
    {
        if v[i].0 == who {
            proof {
                let k = choose|k: int| 0 <= k < v@.len() && v@[k].0 == who;
                if k != i as int {
                    assert(v@[k].0 != v@[i as int].0);
                }
            }
            return v[i].1;
        }
        i += 1;
    }
    0
}

/// Records `value` under `key`.
fn write_allowance_entry(v: &mut Vec<(AllowanceDataKey, AllowanceValue)>, key: AllowanceDataKey, value: AllowanceValue)
    requires
        unique_keys(old(v)@),
    ensures
        unique_keys(final(v)@),
        forall|k: AllowanceDataKey| #[trigger] allowance_in(final(v)@, k) == if k == key {
            Some(value)
        } else {
            allowance_in(old(v)@, k)
        },
{
    let mut i: usize = 0;
    while i < v.len()
        invariant
            i <= v@.len(),
            v@ == old(v)@,
            forall|j: int| 0 <= j < i ==> v@[j].0 != key,
            unique_keys(v@),
        decreases v@.len() - i,
    {
        if v[i].0 == key {
            let ghost before = v@;
            v[i] = (key, value);
            proof {
                assert forall|a: int, b: int|
                    0 <= a < v@.len() && 0 <= b < v@.len() && a != b implies (#[trigger] v@[a]).0
                    != (#[trigger] v@[b]).0 by {
                    assert(v@[a].0 == before[a].0);
                    assert(v@[b].0 == before[b].0);
                }
                assert forall|k: AllowanceDataKey| #[trigger] allowance_in(v@, k) == if k == key {
                    Some(value)
                } else {
                    allowance_in(before, k)
                } by {
                    if k == key {
                        assert(v@[i as int].0 == key);
                        let m = choose|m: int| 0 <= m < v@.len() && v@[m].0 == key;
                        if m != i as int {
                            assert(v@[m].0 != v@[i as int].0);
                        }
                    } else {
                        if exists|m: int| 0 <= m < before.len() && before[m].0 == k {
                            let m = choose|m: int| 0 <= m < before.len() && before[m].0 == k;
                            assert(v@[m].0 == k);
                        }
                        if exists|m: int| 0 <= m < v@.len() && v@[m].0 == k {
                            let m = choose|m: int| 0 <= m < v@.len() && v@[m].0 == k;
                            assert(before[m].0 == k);
                        }
                    }
                }
            }
            return;
        }
        i += 1;
    }
    let ghost before = v@;
    v.push((key, value));
    proof {
        assert forall|a: int, b: int|
            0 <= a < v@.len() && 0 <= b < v@.len() && a != b implies (#[trigger] v@[a]).0
            != (#[trigger] v@[b]).0 by {
            if a < before.len() && b < before.len() {
                assert(v@[a] == before[a]);
                assert(v@[b] == before[b]);
            } else if a < before.len() {
                assert(v@[a] == before[a]);
            } else {
                assert(v@[b] == before[b]);
            }
        }
        assert forall|k: AllowanceDataKey| #[trigger] allowance_in(v@, k) == if k == key {
            Some(value)
        } else {
            allowance_in(before, k)
        } by {
            if k == key {
                assert(v@[before.len() as int].0 == key);
                let m = choose|m: int| 0 <= m < v@.len() && v@[m].0 == key;
                if m != before.len() as int {
                    assert(v@[m] == before[m]);
                }
            } else {
                if exists|m: int| 0 <= m < before.len() && before[m].0 == k {
                    let m = choose|m: int| 0 <= m < before.len() && before[m].0 == k;
                    assert(v@[m].0 == k);
                }
                if exists|m: int| 0 <= m < v@.len() && v@[m].0 == k {
                    let m = choose|m: int| 0 <= m < v@.len() && v@[m].0 == k;
                    assert(before[m].0 == k);
                }
            }
        }
    }
}

/// Recorded allowance under `key`.
fn read_allowance_entry(v: &Vec<(AllowanceDataKey, AllowanceValue)>, key: AllowanceDataKey) -> (r: Option<AllowanceValue>)
    requires
        unique_keys(v@),
    ensures
        r == allowance_in(v@, key),
{
    let mut i: usize = 0;
    while i < v.len()
        invariant
            i <= v@.len(),
            forall|j: int| 0 <= j < i ==> v@[j].0 != key,
            unique_keys(v@),
        decreases v@.len() - i,
    {
        if v[i].0 == key {
            proof {
                let m = choose|m: int| 0 <= m < v@.len() && v@[m].0 == key;
                if m != i as int {
                    assert(v@[m].0 != v@[i as int].0);
                }
            }
            return Some(v[i].1);
        }
        i += 1;
    }
    None
}

/// The token's state.
pub struct SanginiTokenContract {
    pub admin: Option<Address>,
    /// The invoice platform, which may always hold and move tokens.
    pub invoice_contract: Option<Address>,
    pub metadata: Option<TokenMetadata>,
    pub balances: Vec<(Address, i128)>,
    pub allowances: Vec<(AllowanceDataKey, AllowanceValue)>,
    /// KYC-approved accounts.
    pub authorized: Vec<Address>,
}

impl SanginiTokenContract {
    /// The token invariant: one entry per account and per allowance key.
    pub open spec fn wf(&self) -> bool {
        &&& unique_accounts(self.balances@)
        &&& unique_keys(self.allowances@)
        &&& self.authorized@.no_duplicates()
    }

    /// `who`'s balance.
    pub open spec fn balance_of(&self, who: Address) -> int {
        balance_in(self.balances@, who)
    }

    /// What `spender` may still spend of `from`'s tokens at ledger `sequence`:
    /// nothing once the allowance has expired.
    pub open spec fn allowance_at(&self, from: Address, spender: Address, sequence: u32) -> int {
        match allowance_in(self.allowances@, AllowanceDataKey { from, spender }) {
            None => 0,
            Some(a) => if a.expiration_ledger < sequence {
                0
            } else {
                a.amount as int
            },
        }
    }

    /// Whether `who` may send and receive tokens.
    pub open spec fn may_transact(&self, who: Address) -> bool {
        self.admin == Some(who) || self.invoice_contract == Some(who) || self.authorized@.contains(who)
    }

    /// The allowances after `amount` is recorded for `key` at ledger
    /// `sequence`: only a positive, unexpired allowance is stored; otherwise
    /// the previous entry stays as it was.
    pub open spec fn allowance_written(
        &self,
        key: AllowanceDataKey,
        amount: i128,
        expiration_ledger: u32,
        sequence: u32,
        other: &Self,
    ) -> bool {
        if amount > 0 && expiration_ledger > sequence {
            forall|k: AllowanceDataKey| #[trigger] allowance_in(other.allowances@, k) == if k == key {
                Some(AllowanceValue { amount, expiration_ledger })
            } else {
                allowance_in(self.allowances@, k)
            }
        } else {
            other.allowances@ == self.allowances@
        }
    }

    /// `other`'s balances are `self`'s with `delta` added to `who`'s.
    pub open spec fn balance_moved(&self, other: &Self, who: Address, delta: int) -> bool {
        forall|w: Address| #[trigger] other.balance_of(w) == self.balance_of(w) + if w == who {
            delta
        } else {
            0
        }
    }

    /// A token with no administrator yet.
    pub fn new() -> (r: Self)
        ensures
            r.wf(),
            r.admin.is_none(),
            r.invoice_contract.is_none(),
            r.metadata.is_none(),
            r.balances@.len() == 0,
            r.allowances@.len() == 0,
            r.authorized@.len() == 0,
    {
        SanginiTokenContract {
            admin: None,
            invoice_contract: None,
            metadata: None,
            balances: Vec::new(),
            allowances: Vec::new(),
            authorized: Vec::new(),
        }
    }

    /// Sets the administrator, the invoice platform and the metadata, once.
    pub fn initialize(
        &mut self,
        admin: Address,
        invoice_contract: Address,
        name: String,
        symbol: String,
        invoice_id: String,
    ) -> (r: Result<(), TokenError>)
        requires
            old(self).wf(),
        ensures
            final(self).wf(),
            r.is_err() <==> old(self).admin.is_some(),
            r.is_err() ==> r == Err::<(), TokenError>(TokenError::AlreadyInitialized) && *final(self) == *old(self),
            r.is_ok() ==> *final(self) == (SanginiTokenContract {
                admin: Some(admin),
                invoice_contract: Some(invoice_contract),
                metadata: Some(TokenMetadata { name, symbol, decimals: TOKEN_DECIMALS, invoice_id }),
                ..*old(self)
            }),
    {
        if self.admin.is_some() {
            return Err(TokenError::AlreadyInitialized);
        }
        self.admin = Some(admin);
        self.invoice_contract = Some(invoice_contract);
        self.metadata = Some(TokenMetadata { name, symbol, decimals: TOKEN_DECIMALS, invoice_id });
        Ok(())
    }

    fn spend_balance(&mut self, from: Address, amount: i128)
        requires
            old(self).wf(),
            0 <= amount <= old(self).balance_of(from),
        ensures
            final(self).wf(),
            old(self).balance_moved(final(self), from, -amount),
            *final(self) == (SanginiTokenContract { balances: final(self).balances, ..*old(self) }),
    {
        let cur = read_balance_entry(&self.balances, from);
        write_balance_entry(&mut self.balances, from, cur - amount);
    }

    fn receive_balance(&mut self, to: Address, amount: i128)
        requires
            old(self).wf(),
            0 <= amount,
            old(self).balance_of(to) + amount <= i128::MAX,
        ensures
            final(self).wf(),
            old(self).balance_moved(final(self), to, amount as int),
            *final(self) == (SanginiTokenContract { balances: final(self).balances, ..*old(self) }),
    {
        let cur = read_balance_entry(&self.balances, to);
        write_balance_entry(&mut self.balances, to, cur + amount);
    }

    /// Why `mint` fails, if it does.
    pub open spec fn mint_error(&self, to: Address, amount: i128) -> Option<TokenError> {
        if amount < 0 {
            Some(TokenError::NegativeAmount)
        } else if self.admin.is_none() {
            Some(TokenError::NotInitialized)
        } else if self.balance_of(to) + amount > i128::MAX {
            Some(TokenError::Overflow)
        } else {
            None
        }
    }

    /// The administrator creates `amount` tokens for `to`.
    pub fn mint(&mut self, to: Address, amount: i128) -> (r: Result<(), TokenError>)
        requires
            old(self).wf(),
        ensures
            final(self).wf(),
            r.is_err() <==> old(self).mint_error(to, amount).is_some(),
            r.is_err() ==> r == Err::<(), TokenError>(old(self).mint_error(to, amount).unwrap()) && *final(self) == *old(self),
            r.is_ok() ==> old(self).balance_moved(final(self), to, amount as int)
                && *final(self) == (SanginiTokenContract { balances: final(self).balances, ..*old(self) }),
    {
        if amount < 0 {
            return Err(TokenError::NegativeAmount);
        }
        check_nonnegative_amount(amount);
        if self.admin.is_none() {
            return Err(TokenError::NotInitialized);
        }
        let cur = read_balance_entry(&self.balances, to);
        if cur > i128::MAX - amount {
            return Err(TokenError::Overflow);
        }
        self.receive_balance(to, amount);
        Ok(())
    }

    /// The administrator grants or withdraws `addr`'s KYC authorization.
    pub fn set_authorized(&mut self, addr: Address, authorized: bool) -> (r: Result<(), TokenError>)
        requires
            old(self).wf(),
        ensures
            final(self).wf(),
            r.is_err() <==> old(self).admin.is_none(),
            r.is_err() ==> r == Err::<(), TokenError>(TokenError::NotInitialized) && *final(self) == *old(self),
            r.is_ok() ==> {
                &&& *final(self) == (SanginiTokenContract { authorized: final(self).authorized, ..*old(self) })
                &&& forall|w: Address| #[trigger] final(self).authorized@.contains(w) == if w == addr {
                    authorized
                } else {
                    old(self).authorized@.contains(w)
                }
            },
    {
        if self.admin.is_none() {
            return Err(TokenError::NotInitialized);
        }
        crate::access::set_membership(&mut self.authorized, addr, authorized);
        Ok(())
    }

    /// Whether `addr` is KYC-authorized.
    pub fn authorized(&self, addr: Address) -> (r: bool)
        ensures
            r == self.authorized@.contains(addr),
    {
        vec_contains(&self.authorized, addr)
    }

    /// Why `clawback` or `burn` fails, if it does.
    pub open spec fn take_error(&self, from: Address, amount: i128, by_admin: bool) -> Option<TokenError> {
        if amount < 0 {
            Some(TokenError::NegativeAmount)
        } else if by_admin && self.admin.is_none() {
            Some(TokenError::NotInitialized)
        } else if self.balance_of(from) < amount {
            Some(TokenError::InsufficientBalance)
        } else {
            None
        }
    }

    /// The administrator seizes `amount` of `from`'s tokens.
    pub fn clawback(&mut self, from: Address, amount: i128) -> (r: Result<(), TokenError>)
        requires
            old(self).wf(),
        ensures
            final(self).wf(),
            r.is_err() <==> old(self).take_error(from, amount, true).is_some(),
            r.is_err() ==> r == Err::<(), TokenError>(old(self).take_error(from, amount, true).unwrap()) && *final(self) == *old(self),
            r.is_ok() ==> old(self).balance_moved(final(self), from, -amount)
                && *final(self) == (SanginiTokenContract { balances: final(self).balances, ..*old(self) }),
    {
        if amount < 0 {
            return Err(TokenError::NegativeAmount);
        }
        check_nonnegative_amount(amount);
        if self.admin.is_none() {
            return Err(TokenError::NotInitialized);
        }
        if read_balance_entry(&self.balances, from) < amount {
            return Err(TokenError::InsufficientBalance);
        }
        self.spend_balance(from, amount);
        Ok(())
    }

    /// A holder destroys `amount` of its own tokens.
    pub fn burn(&mut self, from: Address, amount: i128) -> (r: Result<(), TokenError>)
        requires
            old(self).wf(),
        ensures
            final(self).wf(),
            r.is_err() <==> old(self).take_error(from, amount, false).is_some(),
            r.is_err() ==> r == Err::<(), TokenError>(old(self).take_error(from, amount, false).unwrap()) && *final(self) == *old(self),
            r.is_ok() ==> old(self).balance_moved(final(self), from, -amount)
                && *final(self) == (SanginiTokenContract { balances: final(self).balances, ..*old(self) }),
    {
        if amount < 0 {
            return Err(TokenError::NegativeAmount);
        }
        check_nonnegative_amount(amount);
        if read_balance_entry(&self.balances, from) < amount {
            return Err(TokenError::InsufficientBalance);
        }
        self.spend_balance(from, amount);
        Ok(())
    }

    /// What `spender` may spend of `from`'s tokens at ledger `sequence`.
    fn read_allowance(&self, from: Address, spender: Address, sequence: u32) -> (r: AllowanceValue)
        requires
            self.wf(),
        ensures
            r.amount == self.allowance_at(from, spender, sequence),
            r == match allowance_in(self.allowances@, AllowanceDataKey { from, spender }) {
                None => AllowanceValue { amount: 0, expiration_ledger: 0 },
                Some(a) => if a.expiration_ledger < sequence {
                    AllowanceValue { amount: 0, expiration_ledger: a.expiration_ledger }
                } else {
                    a
                },
            },
    {
        match read_allowance_entry(&self.allowances, AllowanceDataKey { from, spender }) {
            Some(a) => if a.expiration_ledger < sequence {
                AllowanceValue { amount: 0, expiration_ledger: a.expiration_ledger }
            } else {
                a
            },
            None => AllowanceValue { amount: 0, expiration_ledger: 0 },
        }
    }

    /// Records `amount` for `spender` over `from`'s tokens until
    /// `expiration_ledger`, when positive and not yet expired.
    fn write_allowance(&mut self, from: Address, spender: Address, amount: i128, expiration_ledger: u32, sequence: u32)
        requires
            old(self).wf(),
        ensures
            final(self).wf(),
            old(self).allowance_written(AllowanceDataKey { from, spender }, amount, expiration_ledger, sequence, final(self)),
            *final(self) == (SanginiTokenContract { allowances: final(self).allowances, ..*old(self) }),
    {
        if amount > 0 && expiration_ledger > sequence {
            write_allowance_entry(
                &mut self.allowances,
                AllowanceDataKey { from, spender },
                AllowanceValue { amount, expiration_ledger },
            );
        }
    }

    /// `from` allows `spender` to spend `amount` of its tokens until ledger
    /// `expiration_ledger`. A zero or already expired allowance is not
    /// recorded, and leaves any earlier one in place.
    pub fn approve(&mut self, from: Address, spender: Address, amount: i128, expiration_ledger: u32, sequence: u32) -> (r:
        Result<(), TokenError>)
        requires
            old(self).wf(),
        ensures
            final(self).wf(),
            r.is_err() <==> amount < 0,
            r.is_err() ==> r == Err::<(), TokenError>(TokenError::NegativeAmount) && *final(self) == *old(self),
            r.is_ok() ==> old(self).allowance_written(AllowanceDataKey { from, spender }, amount, expiration_ledger, sequence, final(self))
                && *final(self) == (SanginiTokenContract { allowances: final(self).allowances, ..*old(self) }),
    {
        if amount < 0 {
            return Err(TokenError::NegativeAmount);
        }
        check_nonnegative_amount(amount);
        self.write_allowance(from, spender, amount, expiration_ledger, sequence);
        Ok(())
    }

    /// What `spender` may spend of `from`'s tokens at ledger `sequence`.
    pub fn allowance(&self, from: Address, spender: Address, sequence: u32) -> (r: i128)
        requires
            self.wf(),
        ensures
            r == self.allowance_at(from, spender, sequence),
    {
        self.read_allowance(from, spender, sequence).amount
    }

    /// `id`'s balance.
    pub fn balance(&self, id: Address) -> (r: i128)
        requires
            self.wf(),
        ensures
            r == self.balance_of(id),
    {
        read_balance_entry(&self.balances, id)
    }

    /// Whether `addr` may send and receive tokens: the administrator and the
    /// invoice platform always may, anyone else only with KYC.
    fn require_authorized(&self, addr: Address) -> (r: Result<(), TokenError>)
        ensures
            r.is_err() <==> !self.may_transact(addr),
            r.is_err() ==> r == Err::<(), TokenError>(TokenError::NotAuthorized),
    {
        if self.admin == Some(addr) {
            return Ok(());
        }
        if self.invoice_contract == Some(addr) {
            return Ok(());
        }
        if !vec_contains(&self.authorized, addr) {
            return Err(TokenError::NotAuthorized);
        }
        Ok(())
    }

    /// `to`'s balance once `amount` has left `from`.
    pub open spec fn balance_after_spend(&self, from: Address, to: Address, amount: i128) -> int {
        self.balance_of(to) - if to == from {
            amount as int
        } else {
            0
        }
    }

    /// Why `transfer` fails, if it does.
    pub open spec fn transfer_error(&self, from: Address, to: Address, amount: i128) -> Option<TokenError> {
        if amount < 0 {
            Some(TokenError::NegativeAmount)
        } else if self.admin.is_none() {
            Some(TokenError::NotInitialized)
        } else if !self.may_transact(from) || !self.may_transact(to) {
            Some(TokenError::NotAuthorized)
        } else if self.balance_of(from) < amount {
            Some(TokenError::InsufficientBalance)
        } else if self.balance_after_spend(from, to, amount) + amount > i128::MAX {
            Some(TokenError::Overflow)
        } else {
            None
        }
    }

    /// Moves `amount` tokens from `from` to `to`; both must be allowed to
    /// transact.
    pub fn transfer(&mut self, from: Address, to: Address, amount: i128) -> (r: Result<(), TokenError>)
        requires
            old(self).wf(),
        ensures
            final(self).wf(),
            r.is_err() <==> old(self).transfer_error(from, to, amount).is_some(),
            r.is_err() ==> r == Err::<(), TokenError>(old(self).transfer_error(from, to, amount).unwrap()) && *final(self) == *old(self),
            r.is_ok() ==> {
                &&& *final(self) == (SanginiTokenContract { balances: final(self).balances, ..*old(self) })
                &&& forall|w: Address| #[trigger] final(self).balance_of(w) == old(self).balance_of(w)
                    - (if w == from { amount as int } else { 0 }) + (if w == to { amount as int } else { 0 })
            },
    {
        if amount < 0 {
            return Err(TokenError::NegativeAmount);
        }
        check_nonnegative_amount(amount);
        if self.admin.is_none() {
            return Err(TokenError::NotInitialized);
        }
        match self.require_authorized(from) {
            Ok(()) => {},
            Err(e) => return Err(e),
        }
        match self.require_authorized(to) {
            Ok(()) => {},
            Err(e) => return Err(e),
        }
        match self.check_movable(from, to, amount) {
            Ok(()) => {},
            Err(e) => return Err(e),
        }
        self.move_balance(from, to, amount);
        Ok(())
    }

    /// Fails when `from` holds fewer than `amount` tokens, or `to` could not
    /// receive them.
    fn check_movable(&self, from: Address, to: Address, amount: i128) -> (r: Result<(), TokenError>)
        requires
            self.wf(),
            amount >= 0,
        ensures
            self.balance_of(from) < amount ==> r == Err::<(), TokenError>(TokenError::InsufficientBalance),
            self.balance_of(from) >= amount && self.balance_after_spend(from, to, amount) + amount > i128::MAX
                ==> r == Err::<(), TokenError>(TokenError::Overflow),
            self.balance_of(from) >= amount && self.balance_after_spend(from, to, amount) + amount <= i128::MAX
                ==> r.is_ok(),
    {
        let from_balance = read_balance_entry(&self.balances, from);
        if from_balance < amount {
            return Err(TokenError::InsufficientBalance);
        }
        let to_balance = if to == from {
            from_balance - amount
        } else {
            read_balance_entry(&self.balances, to)
        };
        if to_balance > i128::MAX - amount {
            return Err(TokenError::Overflow);
        }
        Ok(())
    }

    fn move_balance(&mut self, from: Address, to: Address, amount: i128)
        requires
            old(self).wf(),
            0 <= amount <= old(self).balance_of(from),
            old(self).balance_after_spend(from, to, amount) + amount <= i128::MAX,
        ensures
            final(self).wf(),
            *final(self) == (SanginiTokenContract { balances: final(self).balances, ..*old(self) }),
            forall|w: Address| #[trigger] final(self).balance_of(w) == old(self).balance_of(w)
                - (if w == from { amount as int } else { 0 }) + (if w == to { amount as int } else { 0 }),
    {
        let ghost s0 = *self;
        self.spend_balance(from, amount);
        let ghost s1 = *self;
        assert(s1.balance_of(to) == s0.balance_after_spend(from, to, amount));
        self.receive_balance(to, amount);
        assert forall|w: Address| #[trigger] self.balance_of(w) == s0.balance_of(w)
            - (if w == from { amount as int } else { 0 }) + (if w == to { amount as int } else { 0 }) by {
            assert(s1.balance_of(w) == s0.balance_of(w) - if w == from { amount as int } else { 0 });
            assert(self.balance_of(w) == s1.balance_of(w) + if w == to { amount as int } else { 0 });
        }
    }
    /// The allowances after `spender` used `amount` of `from`'s allowance at
    /// ledger `sequence`: a positive use records what is left, under the
    /// same expiration.
    pub open spec fn allowance_spent(&self, from: Address, spender: Address, amount: i128, sequence: u32, other: &Self) -> bool {
        let key = AllowanceDataKey { from, spender };
        if amount > 0 {
            self.allowance_written(
                key,
                (self.allowance_at(from, spender, sequence) - amount) as i128,
                allowance_in(self.allowances@, key).unwrap().expiration_ledger,
                sequence,
                other,
            )
        } else {
            other.allowances@ == self.allowances@
        }
    }

    fn spend_allowance(&mut self, from: Address, spender: Address, amount: i128, sequence: u32)
        requires
            old(self).wf(),
            0 <= amount <= old(self).allowance_at(from, spender, sequence),
        ensures
            final(self).wf(),
            old(self).allowance_spent(from, spender, amount, sequence, final(self)),
            *final(self) == (SanginiTokenContract { allowances: final(self).allowances, ..*old(self) }),
    {
        let allowance = self.read_allowance(from, spender, sequence);
        if amount > 0 {
            self.write_allowance(from, spender, allowance.amount - amount, allowance.expiration_ledger, sequence);
        }
    }

    /// Why `burn_from` fails, if it does.
    pub open spec fn burn_from_error(&self, spender: Address, from: Address, amount: i128, sequence: u32) -> Option<TokenError> {
        if amount < 0 {
            Some(TokenError::NegativeAmount)
        } else if self.allowance_at(from, spender, sequence) < amount {
            Some(TokenError::InsufficientAllowance)
        } else if self.balance_of(from) < amount {
            Some(TokenError::InsufficientBalance)
        } else {
            None
        }
    }

    /// `spender` destroys `amount` of `from`'s tokens under its allowance.
    pub fn burn_from(&mut self, spender: Address, from: Address, amount: i128, sequence: u32) -> (r: Result<(), TokenError>)
        requires
            old(self).wf(),
        ensures
            final(self).wf(),
            r.is_err() <==> old(self).burn_from_error(spender, from, amount, sequence).is_some(),
            r.is_err() ==> r == Err::<(), TokenError>(old(self).burn_from_error(spender, from, amount, sequence).unwrap())
                && *final(self) == *old(self),
            r.is_ok() ==> {
                &&& *final(self) == (SanginiTokenContract {
                    balances: final(self).balances,
                    allowances: final(self).allowances,
                    ..*old(self)
                })
                &&& old(self).allowance_spent(from, spender, amount, sequence, final(self))
                &&& old(self).balance_moved(final(self), from, -amount)
            },
    {
        if amount < 0 {
            return Err(TokenError::NegativeAmount);
        }
        check_nonnegative_amount(amount);
        if self.read_allowance(from, spender, sequence).amount < amount {
            return Err(TokenError::InsufficientAllowance);
        }
        if read_balance_entry(&self.balances, from) < amount {
            return Err(TokenError::InsufficientBalance);
        }
        let ghost s0 = *self;
        self.spend_allowance(from, spender, amount, sequence);
        let ghost s1 = *self;
        self.spend_balance(from, amount);
        assert forall|w: Address| #[trigger] self.balance_of(w) == s0.balance_of(w) + if w == from {
            -amount
        } else {
            0
        } by {
            assert(s1.balance_of(w) == s0.balance_of(w));
        }
        Ok(())
    }

    /// Why `transfer_from` fails, if it does.
    pub open spec fn transfer_from_error(&self, spender: Address, from: Address, to: Address, amount: i128, sequence: u32) -> Option<TokenError> {
        if amount < 0 {
            Some(TokenError::NegativeAmount)
        } else if self.admin.is_none() {
            Some(TokenError::NotInitialized)
        } else if !self.may_transact(from) || !self.may_transact(to) {
            Some(TokenError::NotAuthorized)
        } else if self.allowance_at(from, spender, sequence) < amount {
            Some(TokenError::InsufficientAllowance)
        } else if self.balance_of(from) < amount {
            Some(TokenError::InsufficientBalance)
        } else if self.balance_after_spend(from, to, amount) + amount > i128::MAX {
            Some(TokenError::Overflow)
        } else {
            None
        }
    }

    /// `spender` moves `amount` of `from`'s tokens to `to` under its
    /// allowance; `from` and `to` must be allowed to transact.
    pub fn transfer_from(&mut self, spender: Address, from: Address, to: Address, amount: i128, sequence: u32) -> (r:
        Result<(), TokenError>)
        requires
            old(self).wf(),
        ensures
            final(self).wf(),
            r.is_err() <==> old(self).transfer_from_error(spender, from, to, amount, sequence).is_some(),
            r.is_err() ==> r == Err::<(), TokenError>(old(self).transfer_from_error(spender, from, to, amount, sequence).unwrap())
                && *final(self) == *old(self),
            r.is_ok() ==> {
                &&& *final(self) == (SanginiTokenContract {
                    balances: final(self).balances,
                    allowances: final(self).allowances,
                    ..*old(self)
                })
                &&& old(self).allowance_spent(from, spender, amount, sequence, final(self))
                &&& forall|w: Address| #[trigger] final(self).balance_of(w) == old(self).balance_of(w)
                    - (if w == from { amount as int } else { 0 }) + (if w == to { amount as int } else { 0 })
            },
    {
        if amount < 0 {
            return Err(TokenError::NegativeAmount);
        }
        check_nonnegative_amount(amount);
        if self.admin.is_none() {
            return Err(TokenError::NotInitialized);
        }
        match self.require_authorized(from) {
            Ok(()) => {},
            Err(e) => return Err(e),
        }
        match self.require_authorized(to) {
            Ok(()) => {},
            Err(e) => return Err(e),
        }
        if self.read_allowance(from, spender, sequence).amount < amount {
            return Err(TokenError::InsufficientAllowance);
        }
        match self.check_movable(from, to, amount) {
            Ok(()) => {},
            Err(e) => return Err(e),
        }
        let ghost s0 = *self;
        self.spend_allowance(from, spender, amount, sequence);
        let ghost s1 = *self;
        assert forall|w: Address| #[trigger] s1.balance_of(w) == s0.balance_of(w) by {}
        self.move_balance(from, to, amount);
        Ok(())
    }

    /// The token's decimal places.
    pub fn decimals(&self) -> (r: Result<u32, TokenError>)
        ensures
            self.metadata.is_none() ==> r == Err::<u32, TokenError>(TokenError::NotInitialized),
            self.metadata.is_some() ==> r == Ok::<u32, TokenError>(self.metadata.unwrap().decimals),
    {
        match &self.metadata {
            Some(m) => Ok(m.decimals),
            None => Err(TokenError::NotInitialized),
        }
    }

    /// The token's name.
    pub fn name(&self) -> (r: Result<String, TokenError>)
        ensures
            self.metadata.is_none() ==> r == Err::<String, TokenError>(TokenError::NotInitialized),
            self.metadata.is_some() ==> r == Ok::<String, TokenError>(self.metadata.unwrap().name),
    {
        match &self.metadata {
            Some(m) => Ok(m.name.clone()),
            None => Err(TokenError::NotInitialized),
        }
    }

    /// The token's symbol.
    pub fn symbol(&self) -> (r: Result<String, TokenError>)
        ensures
            self.metadata.is_none() ==> r == Err::<String, TokenError>(TokenError::NotInitialized),
            self.metadata.is_some() ==> r == Ok::<String, TokenError>(self.metadata.unwrap().symbol),
    {
        match &self.metadata {
            Some(m) => Ok(m.symbol.clone()),
            None => Err(TokenError::NotInitialized),
        }
    }

    /// The administrator hands the role to `new_admin`.
    pub fn set_admin(&mut self, new_admin: Address) -> (r: Result<(), TokenError>)
        ensures
            r.is_err() <==> old(self).admin.is_none(),
            r.is_err() ==> r == Err::<(), TokenError>(TokenError::NotInitialized) && *final(self) == *old(self),
            r.is_ok() ==> *final(self) == (SanginiTokenContract { admin: Some(new_admin), ..*old(self) }),
    {
        if self.admin.is_none() {
            return Err(TokenError::NotInitialized);
        }
        self.admin = Some(new_admin);
        Ok(())
    }

    /// The administrator.
    pub fn admin(&self) -> (r: Result<Address, TokenError>)
        ensures
            self.admin.is_none() ==> r == Err::<Address, TokenError>(TokenError::NotInitialized),
            self.admin.is_some() ==> r == Ok::<Address, TokenError>(self.admin.unwrap()),
    {
        match self.admin {
            Some(a) => Ok(a),
            None => Err(TokenError::NotInitialized),
        }
    }
}

} // verus!
