//! A ledger of fungible tokens: anyone can create a token with a supply held
//! by its creator, and holders move balances to other accounts.
use crate::dispatch::{ensure_signed, signer_of, DispatchError, DispatchResult, Origin};
use std::collections::HashMap;
use vstd::prelude::*;

verus! {

broadcast use vstd::std_specs::hash::group_hash_axioms;

/// A token: its name, its ticker and its total supply.
#[derive(Default, Clone, PartialEq, Debug)]
pub struct Erc20 {
    name: Vec<u8>,
    ticker: Vec<u8>,
    total_supply: u128,
}

/// A token as values.
pub struct Erc20View {
    pub name: Seq<u8>,
    pub ticker: Seq<u8>,
    pub total_supply: u128,
}

impl View for Erc20 {
    type V = Erc20View;

    closed spec fn view(&self) -> Erc20View {
        Erc20View { name: self.name@, ticker: self.ticker@, total_supply: self.total_supply }
    }
}

impl Erc20 {
    /// A token with the given name, ticker and supply.
    pub fn new(name: Vec<u8>, ticker: Vec<u8>, total_supply: u128) -> (r: Erc20)
        ensures
            r@ == (Erc20View { name: name@, ticker: ticker@, total_supply }),
    {
        Erc20 { name, ticker, total_supply }
    }

    /// The name of the token.
    pub fn name(&self) -> (r: &Vec<u8>)
        ensures
            r@ == self@.name,
    {
        &self.name
    }

    /// The ticker of the token.
    pub fn ticker(&self) -> (r: &Vec<u8>)
        ensures
            r@ == self@.ticker,
    {
        &self.ticker
    }

    /// The total supply of the token.
    pub fn total_supply(&self) -> (r: u128)
        ensures
            r == self@.total_supply,
    {
        self.total_supply
    }

    fn copy(&self) -> (r: Erc20)
        ensures
            r@ == self@,
    {
        Erc20 { name: self.name.clone(), ticker: self.ticker.clone(), total_supply: self.total_supply }
    }
}

/// The errors of the token pallet.
#[derive(Clone, Copy, PartialEq, Eq, Debug)]
pub enum Error {
    /// Attempted to initialize the token after it had already been initialized.
    AlreadyInitialized,
    /// Attempted to transfer more funds than were available.
    InsufficientFunds,
    TokenNotExists,
}

/// What the token pallet reports.
#[derive(Clone, Copy, PartialEq, Eq, Debug)]
pub enum Event {
    /// A balance moved. (from, to, token, amount)
    Transfer(u64, u64, u64, u128),
    /// A token was created. (creator, token, supply)
    NewToken(u64, u64, u128),
}

/// The sum of the values of a finite map.
pub open spec fn map_sum(m: Map<u64, u128>) -> int
    decreases m.dom().len(),
{
    if m.dom().finite() && m.dom().len() > 0 {
        let k = m.dom().choose();
        m[k] + map_sum(m.remove(k))
    } else {
        0
    }
}

/// The value stored under `k`, or 0.
pub open spec fn value_or_zero(m: Map<u64, u128>, k: u64) -> u128 {
    if m.contains_key(k) {
        m[k]
    } else {
        0
    }
}

/// The sum of a map is its value under any key plus the sum of the rest.
pub proof fn lemma_map_sum_remove(m: Map<u64, u128>, k: u64)
    requires
        m.dom().finite(),
        m.contains_key(k),
    ensures
        map_sum(m) == m[k] + map_sum(m.remove(k)),
    decreases m.dom().len(),
{
    let c = m.dom().choose();
    assert(m.dom().len() > 0);
    if c != k {
        let mc = m.remove(c);
        let mk = m.remove(k);
        assert(mc.dom().len() < m.dom().len());
        lemma_map_sum_remove(mc, k);
        assert(mk.dom().len() < m.dom().len());
        lemma_map_sum_remove(mk, c);
        assert(mc.remove(k) =~= mk.remove(c));
    }
}

/// The sum of a map never is negative.
pub proof fn lemma_map_sum_nonneg(m: Map<u64, u128>)
    ensures
        map_sum(m) >= 0,
    decreases m.dom().len(),
{
    if m.dom().finite() && m.dom().len() > 0 {
        let k = m.dom().choose();
        assert(m.contains_key(k));
        lemma_map_sum_nonneg(m.remove(k));
    }
}

/// Storing `v` under `k` changes the sum by `v` less the value it replaces.
pub proof fn lemma_map_sum_insert(m: Map<u64, u128>, k: u64, v: u128)
    requires
        m.dom().finite(),
    ensures
        map_sum(m.insert(k, v)) == map_sum(m) - value_or_zero(m, k) + v,
{
    let m2 = m.insert(k, v);
    lemma_map_sum_remove(m2, k);
    if m.contains_key(k) {
        lemma_map_sum_remove(m, k);
        assert(m2.remove(k) =~= m.remove(k));
    } else {
        assert(m2.remove(k) =~= m);
    }
}

/// One key holds no more than the sum.
pub proof fn lemma_map_sum_one(m: Map<u64, u128>, a: u64)
    requires
        m.dom().finite(),
    ensures
        value_or_zero(m, a) <= map_sum(m),
{
    if m.contains_key(a) {
        lemma_map_sum_remove(m, a);
        lemma_map_sum_nonneg(m.remove(a));
    } else {
        lemma_map_sum_nonneg(m);
    }
}

/// Two different keys together hold no more than the sum.
pub proof fn lemma_map_sum_two(m: Map<u64, u128>, a: u64, b: u64)
    requires
        m.dom().finite(),
        a != b,
    ensures
        value_or_zero(m, a) + value_or_zero(m, b) <= map_sum(m),
{
    if m.contains_key(a) {
        lemma_map_sum_remove(m, a);
        let ma = m.remove(a);
        if ma.contains_key(b) {
            lemma_map_sum_remove(ma, b);
            lemma_map_sum_nonneg(ma.remove(b));
        } else {
            lemma_map_sum_nonneg(ma);
        }
    } else if m.contains_key(b) {
        lemma_map_sum_remove(m, b);
        lemma_map_sum_nonneg(m.remove(b));
    } else {
        lemma_map_sum_nonneg(m);
    }
}

/// The state of the token pallet, as maps.
#[verifier::ext_equal]
pub struct LedgerView {
    /// For each token that has balances, the balance of each account.
    pub balances: Map<u64, Map<u64, u128>>,
    /// The tokens, by index.
    pub tokens: Map<u64, Erc20View>,
    /// The index the next token gets.
    pub token_id: u64,
    /// The events reported so far.
    pub events: Seq<Event>,
}

impl LedgerView {
    /// The balances of token `token`, account by account.
    pub open spec fn holdings(self, token: u64) -> Map<u64, u128> {
        if self.balances.contains_key(token) {
            self.balances[token]
        } else {
            Map::empty()
        }
    }

    /// The balance of `who` in token `token` (0 where none is stored).
    pub open spec fn balance_of(self, token: u64, who: u64) -> u128 {
        value_or_zero(self.holdings(token), who)
    }

    /// The invariant of the ledger: the tokens are those below the next
    /// index, balances exist only for tokens, each token's balances are
    /// finitely many and sum to its total supply.
    pub open spec fn wf(self) -> bool {
        &&& forall|t: u64| #[trigger] self.tokens.contains_key(t) <==> t < self.token_id
        &&& forall|t: u64| #[trigger] self.balances.contains_key(t) ==> self.tokens.contains_key(t)
        &&& forall|t: u64| #[trigger] self.holdings(t).dom().finite()
        &&& forall|t: u64| #[trigger]
            self.tokens.contains_key(t) ==> map_sum(self.holdings(t)) == self.tokens[t].total_supply
    }

    /// The state after the balance of `who` in `token` is set to `amount`.
    pub open spec fn with_balance(self, token: u64, who: u64, amount: u128) -> LedgerView {
        LedgerView {
            balances: self.balances.insert(token, self.holdings(token).insert(who, amount)),
            ..self
        }
    }

    /// The state after `sender` creates token `self.token_id`, holding all of it.
    pub open spec fn with_new_token(self, sender: u64, token: Erc20View) -> LedgerView {
        LedgerView {
            tokens: self.tokens.insert(self.token_id, token),
            token_id: (self.token_id + 1) as u64,
            ..self.with_balance(self.token_id, sender, token.total_supply)
        }
    }

    /// Why a transfer of `amount` of `token` by `sender` is refused, if it is.
    pub open spec fn transfer_error(self, token: u64, sender: u64, amount: u128) -> Option<
        DispatchError<Error>,
    > {
        if !self.tokens.contains_key(token) {
            Some(DispatchError::Module(Error::TokenNotExists))
        } else if self.balance_of(token, sender) < amount {
            Some(DispatchError::Module(Error::InsufficientFunds))
        } else {
            None
        }
    }

    /// The state after `amount` of `token` moves from `sender` to `to`.
    pub open spec fn moved(self, token: u64, sender: u64, to: u64, amount: u128) -> LedgerView {
        let debited = self.with_balance(
            token,
            sender,
            (self.balance_of(token, sender) - amount) as u128,
        );
        let credited = debited.with_balance(
            token,
            to,
            (debited.balance_of(token, to) + amount) as u128,
        );
        LedgerView { events: self.events.push(Event::Transfer(sender, to, token, amount)), ..credited }
    }
}

/// A transfer keeps the invariant and the sum of the token's balances; it
/// takes `amount` from the sender and gives it to the receiver (nothing
/// changes where they are the same account), and leaves every other
/// balance, the tokens and the next index as they were.
pub proof fn lemma_moved(v: LedgerView, token: u64, sender: u64, to: u64, amount: u128)
    requires
        v.wf(),
        v.transfer_error(token, sender, amount) is None,
    ensures
        ({
            let w = v.moved(token, sender, to, amount);
            &&& w.wf()
            &&& w.tokens == v.tokens
            &&& w.token_id == v.token_id
            &&& map_sum(w.holdings(token)) == map_sum(v.holdings(token))
            &&& sender != to ==> w.balance_of(token, sender) == v.balance_of(token, sender) - amount
                && w.balance_of(token, to) == v.balance_of(token, to) + amount
            &&& sender == to ==> w.balance_of(token, sender) == v.balance_of(token, sender)
            &&& forall|t: u64, a: u64|
                (t != token || (a != sender && a != to)) ==> #[trigger] w.balance_of(t, a)
                    == v.balance_of(t, a)
            &&& w.events == v.events.push(Event::Transfer(sender, to, token, amount))
        }),
{
    let h0 = v.holdings(token);
    let s0 = v.balance_of(token, sender);
    assert(v.tokens.contains_key(token));
    assert(h0.dom().finite());
    let supply = v.tokens[token].total_supply;
    assert(map_sum(h0) == supply);
    let debited = v.with_balance(token, sender, (s0 - amount) as u128);
    let h1 = debited.holdings(token);
    assert(h1 == h0.insert(sender, (s0 - amount) as u128));
    lemma_map_sum_insert(h0, sender, (s0 - amount) as u128);
    let r0 = debited.balance_of(token, to);
    if to != sender {
        lemma_map_sum_two(h1, sender, to);
        assert(r0 == v.balance_of(token, to));
    } else {
        lemma_map_sum_one(h0, sender);
    }
    assert(r0 + amount <= supply);
    let credited = debited.with_balance(token, to, (r0 + amount) as u128);
    let h2 = credited.holdings(token);
    assert(h2 == h1.insert(to, (r0 + amount) as u128));
    lemma_map_sum_insert(h1, to, (r0 + amount) as u128);
    let w = v.moved(token, sender, to, amount);
    assert forall|t: u64| #[trigger] w.holdings(t).dom().finite() by {
        if t != token {
            assert(w.holdings(t) == v.holdings(t));
        }
    }
    assert forall|t: u64| #[trigger] w.tokens.contains_key(t) implies map_sum(w.holdings(t))
        == w.tokens[t].total_supply by {
        if t != token {
            assert(w.holdings(t) == v.holdings(t));
        }
    }
    assert forall|t: u64, a: u64|
        (t != token || (a != sender && a != to)) implies #[trigger] w.balance_of(t, a)
        == v.balance_of(t, a) by {
        if t != token {
            assert(w.holdings(t) == v.holdings(t));
        }
    }
}

/// The storage of the token pallet.
pub struct Module {
    balances: HashMap<u64, HashMap<u64, u128>>,
    tokens: HashMap<u64, Erc20>,
    token_id: u64,
    events: Vec<Event>,
}

impl View for Module {
    type V = LedgerView;

    closed spec fn view(&self) -> LedgerView {
        LedgerView {
            balances: self.balances@.map_values(|m: HashMap<u64, u128>| m@),
            tokens: self.tokens@.map_values(|t: Erc20| t@),
            token_id: self.token_id,
            events: self.events@,
        }
    }
}

impl Module {
    /// The invariant of the storage.
    pub open spec fn wf(&self) -> bool {
        self@.wf()
    }

    /// A ledger with no tokens.
    pub fn new() -> (r: Module)
        ensures
            r.wf(),
            r@.balances == Map::<u64, Map<u64, u128>>::empty(),
            r@.tokens == Map::<u64, Erc20View>::empty(),
            r@.token_id == 0,
            r@.events == Seq::<Event>::empty(),
    {
        let r = Module {
            balances: HashMap::new(),
            tokens: HashMap::new(),
            token_id: 0,
            events: Vec::new(),
        };
        assert(r@.balances =~= Map::<u64, Map<u64, u128>>::empty());
        assert(r@.tokens =~= Map::<u64, Erc20View>::empty());
        assert forall|t: u64| #[trigger] r@.holdings(t).dom().finite() by {
            assert(r@.holdings(t) == Map::<u64, u128>::empty());
        }
        r
    }

    /// The balance of `who` in token `token`; 0 where none is stored.
    pub fn balance_of(&self, key: (u64, u64)) -> (r: u128)
        ensures
            r == self@.balance_of(key.0, key.1),
    {
        match self.balances.get(&key.0) {
            Some(m) => match m.get(&key.1) {
                Some(b) => *b,
                None => 0,
            },
            None => 0,
        }
    }

    /// The token with index `token`, if any.
    pub fn tokens(&self, token: u64) -> (r: Option<Erc20>)
        ensures
            match r {
                Some(t) => self@.tokens.contains_key(token) && t@ == self@.tokens[token],
                None => !self@.tokens.contains_key(token),
            },
    {
        match self.tokens.get(&token) {
            Some(t) => Some(t.copy()),
            None => None,
        }
    }

    /// The index the next token gets.
    pub fn token_id(&self) -> (r: u64)
        ensures
            r == self@.token_id,
    {
        self.token_id
    }

    /// The events reported so far.
    pub fn events(&self) -> (r: &Vec<Event>)
        ensures
            r@ == self@.events,
    {
        &self.events
    }

    fn set_balance(&mut self, token: u64, who: u64, amount: u128)
        ensures
            final(self)@ == old(self)@.with_balance(token, who, amount),
    {
        let mut holdings = match self.balances.remove(&token) {
            Some(m) => m,
            None => HashMap::new(),
        };
        holdings.insert(who, amount);
        self.balances.insert(token, holdings);
        assert(self@.balances =~= old(self)@.with_balance(token, who, amount).balances);
        assert(self@ =~= old(self)@.with_balance(token, who, amount));
    }

    /// Creates a token held entirely by the signer under the next index.
    pub fn init(&mut self, origin: Origin, name: Vec<u8>, ticker: Vec<u8>, total_supply: u128) -> (r:
        DispatchResult<Error>)
        requires
            old(self).wf(),
            old(self)@.token_id < u64::MAX,
        ensures
            final(self).wf(),
            match signer_of::<Error>(origin) {
                Err(e) => r == Err::<(), DispatchError<Error>>(e) && final(self)@ == old(self)@,
                Ok(sender) => r == Ok::<(), DispatchError<Error>>(()) && final(self)@ == old(
                    self,
                )@.with_new_token(
                    sender,
                    Erc20View { name: name@, ticker: ticker@, total_supply },
                ),
            },
    {
        let sender = ensure_signed(origin)?;
        let ghost old_v = self@;
        let token = self.token_id;
        proof {
            assert(!old_v.tokens.contains_key(token));
            assert(!old_v.balances.contains_key(token));
            assert(old_v.holdings(token) == Map::<u64, u128>::empty());
        }
        self.set_balance(token, sender, total_supply);
        let erc20 = Erc20::new(name, ticker, total_supply);
        let ghost erc20_v = erc20@;
        self.tokens.insert(token, erc20);
        self.token_id = token + 1;
        proof {
            let exp = old_v.with_new_token(sender, erc20_v);
            assert(self@.tokens =~= exp.tokens);
            assert(self@ =~= exp);
            let v = self@;
            let h = v.holdings(token);
            assert(h =~= Map::<u64, u128>::empty().insert(sender, total_supply));
            lemma_map_sum_insert(Map::<u64, u128>::empty(), sender, total_supply);
            assert(map_sum(Map::<u64, u128>::empty()) == 0);
            assert forall|t: u64| #[trigger] v.holdings(t).dom().finite() by {
                if t != token {
                    assert(v.holdings(t) == old_v.holdings(t));
                }
            }
            assert forall|t: u64| #[trigger] v.tokens.contains_key(t) implies map_sum(v.holdings(t))
                == v.tokens[t].total_supply by {
                if t != token {
                    assert(v.holdings(t) == old_v.holdings(t));
                }
            }
        }
        Ok(())
    }

    /// Moves `balance` of token `token_id` from the signer to `to_account`.
    pub fn transfer(&mut self, origin: Origin, token_id: u64, to_account: u64, balance: u128) -> (r:
        DispatchResult<Error>)
        requires
            old(self).wf(),
        ensures
            final(self).wf(),
            match signer_of::<Error>(origin) {
                Err(e) => r == Err::<(), DispatchError<Error>>(e) && final(self)@ == old(self)@,
                Ok(sender) => match old(self)@.transfer_error(token_id, sender, balance) {
                    Some(e) => r == Err::<(), DispatchError<Error>>(e) && final(self)@ == old(self)@,
                    None => r == Ok::<(), DispatchError<Error>>(()) && final(self)@ == old(
                        self,
                    )@.moved(token_id, sender, to_account, balance),
                },
            },
    {
        let sender = ensure_signed(origin)?;
        if !self.tokens.contains_key(&token_id) {
            return Err(DispatchError::Module(Error::TokenNotExists));
        }
        if !(self.balance_of((token_id, sender)) >= balance) {
            return Err(DispatchError::Module(Error::InsufficientFunds));
        }
        let ghost old_v = self@;
        proof {
            lemma_moved(old_v, token_id, sender, to_account, balance);
        }
        let sender_balance = self.balance_of((token_id, sender));
        self.set_balance(token_id, sender, sender_balance - balance);
        let to_balance = self.balance_of((token_id, to_account));
        proof {
            if to_account != sender {
                assert(to_balance == old_v.balance_of(token_id, to_account));
            }
        }
        self.set_balance(token_id, to_account, to_balance + balance);
        self.events.push(Event::Transfer(sender, to_account, token_id, balance));
        proof {
            assert(self@ =~= old_v.moved(token_id, sender, to_account, balance));
        }
        Ok(())
    }
}

} // verus!
