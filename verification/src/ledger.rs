//! The token ledger and its operations.
//!
//! A [`Ledger`] owns the token metadata, the total supply, the balance
//! table and the admin identity. The balance table is an association list
//! with one entry per account and no zero entries; two invariants hold in
//! every well-formed state and are preserved by every operation:
//!
//! * supply conservation: the recorded total supply equals the sum of all
//!   stored balances;
//! * no zero entries: no account is stored with a balance of zero.

use vstd::prelude::*;

use crate::amount::Amount;

verus! {

/// An opaque account identifier with value equality. The host's identity
/// type is mapped to and from this one at the boundary.
#[derive(PartialEq, Eq, Structural, Clone, Copy, Hash, Debug)]
pub struct AccountId(pub u64);

/// The two ways an operation can fail; neither leaves any state changed.
#[derive(PartialEq, Eq, Structural, Clone, Copy, Debug)]
pub enum ErrorKind {
    /// The sender's balance is strictly less than the requested amount.
    InsufficientFunds,
    /// The caller of `mint` is not the configured admin.
    Unauthorized,
}

/// The success value of `transfer` and `mint`: the amount moved and the
/// token symbol, for display.
pub struct Receipt {
    pub amount: Amount,
    pub symbol: String,
}

/// The sum of all stored balances in a balance table.
pub open spec fn sum_of(s: Seq<(AccountId, Amount)>) -> nat
    decreases s.len(),
{
    if s.len() == 0 {
        0
    } else {
        s[0].1@ + sum_of(s.drop_first())
    }
}

/// The balance a table stores for an account: the value of its first entry
/// for that account, or zero when it has none.
pub open spec fn bal_of(s: Seq<(AccountId, Amount)>, a: AccountId) -> nat
    decreases s.len(),
{
    if s.len() == 0 {
        0
    } else if s[0].0 == a {
        s[0].1@
    } else {
        bal_of(s.drop_first(), a)
    }
}

/// Each account has at most one entry.
pub open spec fn keys_distinct(s: Seq<(AccountId, Amount)>) -> bool {
    forall|i: int, j: int| 0 <= i < j < s.len() ==> s[i].0 != s[j].0
}

/// No entry stores a zero balance.
pub open spec fn no_zero_entries(s: Seq<(AccountId, Amount)>) -> bool {
    forall|i: int| 0 <= i < s.len() ==> s[i].1@ > 0
}

/// An account with no entry has balance zero.
proof fn lemma_bal_absent(s: Seq<(AccountId, Amount)>, a: AccountId)
    requires
        forall|i: int| 0 <= i < s.len() ==> s[i].0 != a,
    ensures
        bal_of(s, a) == 0,
    decreases s.len(),
{
    if s.len() > 0 {
        assert forall|i: int| 0 <= i < s.drop_first().len() implies s.drop_first()[i].0 != a by {
            assert(s.drop_first()[i] == s[i + 1]);
        }
        lemma_bal_absent(s.drop_first(), a);
    }
}

/// With distinct keys, the balance of the account of entry `i` is the value
/// stored there.
proof fn lemma_bal_index(s: Seq<(AccountId, Amount)>, i: int)
    requires
        0 <= i < s.len(),
        keys_distinct(s),
    ensures
        bal_of(s, s[i].0) == s[i].1@,
    decreases i,
{
    if i > 0 {
        assert(s[0].0 != s[i].0);
        assert forall|p: int, q: int|
            0 <= p < q < s.drop_first().len() implies s.drop_first()[p].0 != s.drop_first()[q].0 by {
            assert(s.drop_first()[p] == s[p + 1]);
            assert(s.drop_first()[q] == s[q + 1]);
        }
        assert(s.drop_first()[i - 1] == s[i]);
        lemma_bal_index(s.drop_first(), i - 1);
    }
}

/// Appending an entry for an absent account adds its value to the sum, sets
/// that account's balance, and leaves every other balance unchanged.
proof fn lemma_push(s: Seq<(AccountId, Amount)>, p: (AccountId, Amount))
    requires
        forall|i: int| 0 <= i < s.len() ==> s[i].0 != p.0,
    ensures
        sum_of(s.push(p)) == sum_of(s) + p.1@,
        bal_of(s.push(p), p.0) == p.1@,
        forall|x: AccountId| x != p.0 ==> bal_of(s.push(p), x) == bal_of(s, x),
    decreases s.len(),
{
    if s.len() == 0 {
        assert(s.push(p)[0] == p);
        assert(s.push(p).drop_first() =~= Seq::<(AccountId, Amount)>::empty());
        assert(sum_of(Seq::<(AccountId, Amount)>::empty()) == 0);
        assert(sum_of(s.push(p)) == p.1@ + sum_of(s.push(p).drop_first()));
        assert(bal_of(s.push(p), p.0) == p.1@);
        assert forall|x: AccountId| x != p.0 implies bal_of(s.push(p), x) == bal_of(s, x) by {
            assert(bal_of(Seq::<(AccountId, Amount)>::empty(), x) == 0);
        }
    } else {
        assert(s.push(p)[0] == s[0]);
        assert(s.push(p).drop_first() =~= s.drop_first().push(p));
        assert forall|i: int| 0 <= i < s.drop_first().len() implies s.drop_first()[i].0 != p.0 by {
            assert(s.drop_first()[i] == s[i + 1]);
        }
        lemma_push(s.drop_first(), p);
        assert(sum_of(s) == s[0].1@ + sum_of(s.drop_first()));
        assert(sum_of(s.push(p)) == s[0].1@ + sum_of(s.drop_first().push(p)));
        assert(s[0].0 != p.0);
        assert(bal_of(s.push(p), p.0) == bal_of(s.drop_first().push(p), p.0));
        assert forall|x: AccountId| x != p.0 implies bal_of(s.push(p), x) == bal_of(s, x) by {
            if s[0].0 != x {
                assert(bal_of(s.push(p), x) == bal_of(s.drop_first().push(p), x));
                assert(bal_of(s, x) == bal_of(s.drop_first(), x));
            }
        }
    }
}

/// Removing entry `i` of a table with distinct keys subtracts its value
/// from the sum, zeroes that account's balance, leaves every other balance
/// unchanged, and keeps the keys distinct and the entries nonzero.
proof fn lemma_remove(s: Seq<(AccountId, Amount)>, i: int)
    requires
        0 <= i < s.len(),
        keys_distinct(s),
    ensures
        sum_of(s.remove(i)) + s[i].1@ == sum_of(s),
        forall|j: int| 0 <= j < s.remove(i).len() ==> s.remove(i)[j].0 != s[i].0,
        bal_of(s.remove(i), s[i].0) == 0,
        forall|x: AccountId| x != s[i].0 ==> bal_of(s.remove(i), x) == bal_of(s, x),
        keys_distinct(s.remove(i)),
        no_zero_entries(s) ==> no_zero_entries(s.remove(i)),
    decreases s.len(),
{
    assert forall|j: int| 0 <= j < s.remove(i).len() implies s.remove(i)[j].0 != s[i].0 by {
        if j < i {
            assert(s.remove(i)[j] == s[j]);
        } else {
            assert(s.remove(i)[j] == s[j + 1]);
        }
    }
    lemma_bal_absent(s.remove(i), s[i].0);
    assert forall|p: int, q: int|
        0 <= p < q < s.remove(i).len() implies s.remove(i)[p].0 != s.remove(i)[q].0 by {
        assert(s.remove(i)[p] == if p < i { s[p] } else { s[p + 1] });
        assert(s.remove(i)[q] == if q < i { s[q] } else { s[q + 1] });
    }
    if i == 0 {
        assert(s.remove(0) =~= s.drop_first());
    } else {
        assert forall|p: int, q: int|
            0 <= p < q < s.drop_first().len() implies s.drop_first()[p].0 != s.drop_first()[q].0 by {
            assert(s.drop_first()[p] == s[p + 1]);
            assert(s.drop_first()[q] == s[q + 1]);
        }
        assert(s.remove(i).drop_first() =~= s.drop_first().remove(i - 1));
        assert(s.drop_first()[i - 1] == s[i]);
        lemma_remove(s.drop_first(), i - 1);
        assert forall|x: AccountId| x != s[i].0 implies bal_of(s.remove(i), x) == bal_of(s, x) by {
            if s[0].0 != x {
                assert(bal_of(s.remove(i).drop_first(), x) == bal_of(s.drop_first(), x));
            }
        }
    }
}

/// The index of the entry for an account, if the table has one.
fn find_index(v: &Vec<(AccountId, Amount)>, a: AccountId) -> (r: Option<usize>)
    ensures
        match r {
            Some(i) => i < v@.len() && v@[i as int].0 == a,
            None => forall|i: int| 0 <= i < v@.len() ==> v@[i].0 != a,
        },
{
    let mut i: usize = 0;
    while i < v.len()
        invariant
            i <= v@.len(),
            forall|k: int| 0 <= k < i ==> v@[k].0 != a,
        decreases v@.len() - i,
    {
        if v[i].0 == a {
            return Some(i);
        }
        i = i + 1;
    }
    None
}

/// The stored balance of an account, as a fresh [`Amount`].
fn get_balance(v: &Vec<(AccountId, Amount)>, a: AccountId) -> (r: Amount)
    requires
        keys_distinct(v@),
    ensures
        r@ == bal_of(v@, a),
{
    match find_index(v, a) {
        Some(i) => {
            proof {
                lemma_bal_index(v@, i as int);
            }
            v[i].1.duplicate()
        },
        None => {
            proof {
                lemma_bal_absent(v@, a);
            }
            Amount::zero()
        },
    }
}

/// The token ledger: metadata set once at initialization, the total supply,
/// the balance table and the admin identity.
pub struct Ledger {
    token_name: String,
    token_symbol: String,
    total_supply: Amount,
    balances: Vec<(AccountId, Amount)>,
    admin: Option<AccountId>,
}

/// The admin chosen at initialization: the override when one is given, the
/// invoker otherwise.
pub open spec fn chosen_admin(invoker: AccountId, admin: Option<AccountId>) -> AccountId {
    match admin {
        Some(a) => a,
        None => invoker,
    }
}

impl Ledger {
    /// The balance table, as a sequence of (account, amount) entries.
    pub closed spec fn balances_seq(self) -> Seq<(AccountId, Amount)> {
        self.balances@
    }

    /// The balance the ledger records for an account; zero when the account
    /// has no entry.
    pub closed spec fn balance_nat(self, a: AccountId) -> nat {
        bal_of(self.balances@, a)
    }

    /// The recorded total supply.
    pub closed spec fn supply_nat(self) -> nat {
        self.total_supply@
    }

    /// The admin account, if one was configured.
    pub closed spec fn admin_id(self) -> Option<AccountId> {
        self.admin
    }

    /// The token name.
    pub closed spec fn name_chars(self) -> Seq<char> {
        self.token_name@
    }

    /// The token symbol.
    pub closed spec fn symbol_chars(self) -> Seq<char> {
        self.token_symbol@
    }

    /// Well-formedness: one entry per account, no zero entries, and the
    /// recorded total supply equal to the sum of all stored balances.
    pub closed spec fn wf(self) -> bool {
        &&& keys_distinct(self.balances@)
        &&& no_zero_entries(self.balances@)
        &&& self.total_supply@ == sum_of(self.balances@)
    }

    /// Create the ledger. Every input is optional: the admin defaults to the
    /// invoker, the name to `"EduCoin"`, the symbol to `"EDU"`, and the
    /// initial supply to zero. A nonzero initial supply is credited in full
    /// to the admin.
    pub fn init(
        invoker: AccountId,
        admin: Option<AccountId>,
        name: Option<String>,
        symbol: Option<String>,
        initial_supply: Option<Amount>,
    ) -> (r: Ledger)
        ensures
            r.wf(),
            r.admin_id() == Some(chosen_admin(invoker, admin)),
            r.name_chars() == match name {
                Some(n) => n@,
                None => "EduCoin"@,
            },
            r.symbol_chars() == match symbol {
                Some(sy) => sy@,
                None => "EDU"@,
            },
            r.supply_nat() == match initial_supply {
                Some(s) => s@,
                None => 0nat,
            },
            r.balance_nat(chosen_admin(invoker, admin)) == r.supply_nat(),
            forall|x: AccountId| x != chosen_admin(invoker, admin) ==> r.balance_nat(x) == 0,
    {
        let a = match admin {
            Some(x) => x,
            None => invoker,
        };
        let token_name = match name {
            Some(n) => n,
            None => "EduCoin".to_owned(),
        };
        let token_symbol = match symbol {
            Some(sy) => sy,
            None => "EDU".to_owned(),
        };
        let total_supply = match initial_supply {
            Some(s) => s,
            None => Amount::zero(),
        };
        let mut balances: Vec<(AccountId, Amount)> = Vec::new();
        if !total_supply.is_zero() {
            let credit = total_supply.duplicate();
            proof {
                lemma_push(balances@, (a, credit));
            }
            balances.push((a, credit));
        }
        proof {
            assert(sum_of(Seq::<(AccountId, Amount)>::empty()) == 0);
            assert(bal_of(Seq::<(AccountId, Amount)>::empty(), a) == 0);
            assert forall|x: AccountId| x != a implies bal_of(balances@, x) == 0 by {
                assert(bal_of(Seq::<(AccountId, Amount)>::empty(), x) == 0);
            }
        }
        Ledger { token_name, token_symbol, total_supply, balances, admin: Some(a) }
    }

    /// The token name.
    pub fn token_name(&self) -> (r: String)
        ensures
            r@ == self.name_chars(),
    {
        self.token_name.clone()
    }

    /// The token symbol.
    pub fn token_symbol(&self) -> (r: String)
        ensures
            r@ == self.symbol_chars(),
    {
        self.token_symbol.clone()
    }

    /// The total supply.
    pub fn total_supply(&self) -> (r: Amount)
        ensures
            r@ == self.supply_nat(),
    {
        self.total_supply.duplicate()
    }

    /// The balance of an account; zero when the account has no entry.
    pub fn balance_of(&self, account: AccountId) -> (r: Amount)
        requires
            self.wf(),
        ensures
            r@ == self.balance_nat(account),
    {
        get_balance(&self.balances, account)
    }

    /// Record `amt` as the balance of `a`: the old entry, if any, is
    /// dropped, and a new one is stored unless `amt` is zero.
    fn set_balance(&mut self, a: AccountId, amt: Amount)
        requires
            keys_distinct(old(self).balances@),
            no_zero_entries(old(self).balances@),
        ensures
            keys_distinct(final(self).balances@),
            no_zero_entries(final(self).balances@),
            bal_of(final(self).balances@, a) == amt@,
            forall|x: AccountId|
                x != a ==> bal_of(final(self).balances@, x) == bal_of(old(self).balances@, x),
            sum_of(final(self).balances@) + bal_of(old(self).balances@, a) == sum_of(
                old(self).balances@,
            ) + amt@,
            final(self).token_name == old(self).token_name,
            final(self).token_symbol == old(self).token_symbol,
            final(self).total_supply == old(self).total_supply,
            final(self).admin == old(self).admin,
    {
        match find_index(&self.balances, a) {
            Some(i) => {
                proof {
                    lemma_bal_index(self.balances@, i as int);
                    lemma_remove(self.balances@, i as int);
                }
                self.balances.remove(i);
            },
            None => {
                proof {
                    lemma_bal_absent(self.balances@, a);
                }
            },
        }
        if !amt.is_zero() {
            proof {
                lemma_push(self.balances@, (a, amt));
                assert forall|p: int, q: int|
                    0 <= p < q < self.balances@.push((a, amt)).len() implies self.balances@.push(
                    (a, amt),
                )[p].0 != self.balances@.push((a, amt))[q].0 by {
                    if q < self.balances@.len() {
                        assert(self.balances@.push((a, amt))[p] == self.balances@[p]);
                        assert(self.balances@.push((a, amt))[q] == self.balances@[q]);
                    } else {
                        assert(self.balances@.push((a, amt))[q] == (a, amt));
                        assert(self.balances@.push((a, amt))[p] == self.balances@[p]);
                    }
                }
            }
            self.balances.push((a, amt));
        }
    }

    /// Move `amount` from `from` to `to`.
    ///
    /// Fails with `InsufficientFunds`, changing nothing, exactly when the
    /// sender's balance is strictly less than `amount`. On success the
    /// sender's balance decreases and the receiver's increases by `amount`
    /// (a self-transfer changes nothing), every other balance and the total
    /// supply are unchanged, and the receipt carries the transferred amount
    /// and the token symbol.
    pub fn transfer(&mut self, from: AccountId, to: AccountId, amount: &Amount) -> (r: Result<
        Receipt,
        ErrorKind,
    >)
        requires
            old(self).wf(),
        ensures
            final(self).wf(),
            r is Ok <==> amount@ <= old(self).balance_nat(from),
            r is Err ==> *final(self) == *old(self),
            r is Ok ==> final(self).supply_nat() == old(self).supply_nat() && (forall|x: AccountId|
                x != from && x != to ==> final(self).balance_nat(x) == old(self).balance_nat(x)) && (
            from == to ==> final(self).balance_nat(from) == old(self).balance_nat(from)) && (from
                != to ==> final(self).balance_nat(from) + amount@ == old(self).balance_nat(from)
                && final(self).balance_nat(to) == old(self).balance_nat(to) + amount@),
            final(self).admin_id() == old(self).admin_id(),
            final(self).name_chars() == old(self).name_chars(),
            final(self).symbol_chars() == old(self).symbol_chars(),
            match r {
                Ok(receipt) => receipt.amount@ == amount@ && receipt.symbol@ == old(self).symbol_chars(),
                Err(e) => e == ErrorKind::InsufficientFunds,
            },
    {
        let sender_balance = get_balance(&self.balances, from);
        if !amount.le(&sender_balance) {
            return Err(ErrorKind::InsufficientFunds);
        }
        let new_sender = sender_balance.sub(amount);
        self.set_balance(from, new_sender);
        let receiver_balance = get_balance(&self.balances, to);
        let new_receiver = receiver_balance.add(amount);
        self.set_balance(to, new_receiver);
        Ok(Receipt { amount: amount.duplicate(), symbol: self.token_symbol.clone() })
    }

    /// Create `amount` new tokens on `to`'s balance.
    ///
    /// Fails with `Unauthorized`, changing nothing, exactly when the caller
    /// is not the configured admin (in particular whenever no admin is
    /// configured). On success the receiver's balance and the total supply
    /// both increase by `amount`, every other balance is unchanged, and the
    /// receipt carries the minted amount and the token symbol.
    pub fn mint(&mut self, caller: AccountId, to: AccountId, amount: &Amount) -> (r: Result<
        Receipt,
        ErrorKind,
    >)
        requires
            old(self).wf(),
        ensures
            final(self).wf(),
            r is Ok <==> old(self).admin_id() == Some(caller),
            r is Err ==> *final(self) == *old(self),
            r is Ok ==> final(self).supply_nat() == old(self).supply_nat() + amount@ && final(self).balance_nat(to) == old(self).balance_nat(to) + amount@ && (forall|x: AccountId|
                x != to ==> final(self).balance_nat(x) == old(self).balance_nat(x)),
            final(self).admin_id() == old(self).admin_id(),
            final(self).name_chars() == old(self).name_chars(),
            final(self).symbol_chars() == old(self).symbol_chars(),
            match r {
                Ok(receipt) => receipt.amount@ == amount@ && receipt.symbol@ == old(self).symbol_chars(),
                Err(e) => e == ErrorKind::Unauthorized,
            },
    {
        let authorized = match self.admin {
            Some(a) => a == caller,
            None => false,
        };
        if !authorized {
            return Err(ErrorKind::Unauthorized);
        }
        let receiver_balance = get_balance(&self.balances, to);
        let new_receiver = receiver_balance.add(amount);
        self.set_balance(to, new_receiver);
        let new_supply = self.total_supply.add(amount);
        self.total_supply = new_supply;
        Ok(Receipt { amount: amount.duplicate(), symbol: self.token_symbol.clone() })
    }
}

/// Supply conservation: in every well-formed state the recorded total
/// supply equals the sum of all stored balances.
pub proof fn lemma_supply_conservation(l: Ledger)
    requires
        l.wf(),
    ensures
        l.supply_nat() == sum_of(l.balances_seq()),
{
}

/// No zero entries: in every well-formed state no account is stored with a
/// balance of exactly zero, and each account has at most one entry.
pub proof fn lemma_no_zero_entries(l: Ledger)
    requires
        l.wf(),
    ensures
        no_zero_entries(l.balances_seq()),
        keys_distinct(l.balances_seq()),
{
}

/// Reading a balance is idempotent: two reads of the same account from the
/// same state return the same value.
pub proof fn lemma_balance_read_idempotent(l: Ledger, a: AccountId, r1: Amount, r2: Amount)
    requires
        r1@ == l.balance_nat(a),
        r2@ == l.balance_nat(a),
    ensures
        r1@ == r2@,
{
}

} // verus!
