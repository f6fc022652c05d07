//! The kitty pallet: kitties with a random DNA, owned in per-account linked
//! lists, bred from two parents, listed for sale and bought.
use crate::dispatch::{ensure_signed, signer_of, DispatchError, DispatchResult, Origin};
use crate::hashing::{blake2_128, blake2_128_digest, encode_random_payload, random_payload};
use crate::linked_item::{
    appended, lemma_append_links, lemma_remove_links, lemma_without_contains, no_nodes, node_entry,
    removed, well_linked, without, LinkedItem, LinkedList, ListNodes,
};
use std::collections::HashMap;
use vstd::prelude::*;

verus! {

broadcast use vstd::std_specs::hash::group_hash_axioms;

/// A kitty: its 16 bytes of DNA.
#[derive(Clone, Copy, PartialEq, Eq, Debug)]
pub struct HelloKitty(pub [u8; 16]);

/// The errors of the kitty pallet.
#[derive(Clone, Copy, PartialEq, Eq, Debug)]
pub enum Error {
    KittiesCountOverflow,
    InvalidKittyId,
    RequireDifferentParent,
    RequireOwner,
    NotForSale,
    PriceTooLow,
    TransferToSelf,
}

/// What the kitty pallet reports.
#[derive(Clone, Copy, PartialEq, Eq, Debug)]
pub enum Event {
    /// A kitty is created. (owner, kitty_id)
    Created(u64, u32),
    /// A kitty is transferred. (from, to, kitty_id)
    Transferred(u64, u64, u32),
    /// A kitty is available for sale. (owner, kitty_id, price)
    Ask(u64, u32, Option<u64>),
    /// A kitty is sold. (from, to, kitty_id, price)
    Sold(u64, u64, u32, u64),
    /// Funds are reserved. (who, amount, block number)
    LockFunds(u64, u64, u64),
    /// Funds are unreserved. (who, amount, block number)
    UnlockFunds(u64, u64, u64),
    /// Funds are transferred. (sender, dest, amount, block number)
    TransferFunds(u64, u64, u64, u64),
}

/// Whether a transfer may leave the sending account below the existential deposit.
#[derive(Clone, Copy, PartialEq, Eq, Debug)]
pub enum ExistenceRequirement {
    KeepAlive,
    AllowDeath,
}

/// What the runtime provides to the pallet: a source of random seeds and a
/// currency whose funds can be reserved. The currency is modelled by the
/// free and the reserved balance of each account; each method states what it
/// does to them, as `Currency` and `ReservableCurrency` document it.
pub trait Trait: Sized {
    /// The free balance of `who`.
    spec fn free_of(&self, who: u64) -> nat;

    /// The reserved balance of `who`.
    spec fn reserved_of(&self, who: u64) -> nat;

    /// The answer the currency gives, in this state, to a transfer of
    /// `value` from `source` to `dest`.
    spec fn transfer_outcome(
        &self,
        source: u64,
        dest: u64,
        value: u64,
        existence: ExistenceRequirement,
    ) -> DispatchResult<Error>;

    /// The answer the currency gives, in this state, to a reservation of
    /// `value` of the funds of `who` (what `can_reserve` tells in advance).
    spec fn reserve_outcome(&self, who: u64, value: u64) -> DispatchResult<Error>;

    /// A random seed (the runtime's randomness source); no balance changes,
    /// and the currency answers as before.
    fn random_seed(&mut self) -> (r: [u8; 32])
        ensures
            forall|w: u64| #[trigger] final(self).free_of(w) == old(self).free_of(w),
            forall|w: u64| #[trigger] final(self).reserved_of(w) == old(self).reserved_of(w),
            forall|source: u64, dest: u64, value: u64, existence: ExistenceRequirement|
                #[trigger] final(self).transfer_outcome(source, dest, value, existence) == old(
                    self,
                ).transfer_outcome(source, dest, value, existence),
            forall|who: u64, value: u64| #[trigger] final(self).reserve_outcome(who, value)
                == old(self).reserve_outcome(who, value),
    ;

    /// Moves `value` of the free balance of `source` to `dest`: nothing
    /// changes where they are the same account; else `dest` gains `value` and
    /// `source` loses it (with `AllowDeath` it may lose more, where the rest
    /// is below the existential deposit and removed as dust), and no reserved
    /// balance changes; with `KeepAlive` no other account changes. A failed
    /// transfer moves nothing.
    fn transfer(
        &mut self,
        source: u64,
        dest: u64,
        value: u64,
        existence: ExistenceRequirement,
    ) -> (r: DispatchResult<Error>)
        ensures
            r == old(self).transfer_outcome(source, dest, value, existence),
            r is Ok && source != dest ==> final(self).free_of(dest) == old(self).free_of(dest)
                + value,
            r is Ok && source != dest && existence is KeepAlive ==> final(self).free_of(source)
                == old(self).free_of(source) - value,
            r is Ok && source != dest && existence is AllowDeath ==> final(self).free_of(source)
                <= old(self).free_of(source) - value,
            r is Ok && source != dest && existence is KeepAlive ==> forall|w: u64|
                w != source && w != dest ==> #[trigger] final(self).free_of(w) == old(
                    self,
                ).free_of(w),
            r is Err || source == dest ==> forall|w: u64| #[trigger] final(self).free_of(w)
                == old(self).free_of(w),
            forall|w: u64| #[trigger] final(self).reserved_of(w) == old(self).reserved_of(w),
    ;

    /// Moves `value` of the free balance of `who` into its reserved balance.
    /// Where it cannot, nothing is moved and it fails; so it fails where the
    /// free balance is lower than `value`.
    fn reserve(&mut self, who: u64, value: u64) -> (r: DispatchResult<Error>)
        ensures
            r == old(self).reserve_outcome(who, value),
            r is Ok ==> final(self).free_of(who) == old(self).free_of(who) - value
                && final(self).reserved_of(who) == old(self).reserved_of(who) + value,
            r is Ok ==> forall|w: u64| w != who ==> #[trigger] final(self).free_of(w) == old(
                self,
            ).free_of(w),
            r is Ok ==> forall|w: u64| w != who ==> #[trigger] final(self).reserved_of(w) == old(
                self,
            ).reserved_of(w),
            r is Err ==> forall|w: u64| #[trigger] final(self).free_of(w) == old(self).free_of(w),
            r is Err ==> forall|w: u64| #[trigger] final(self).reserved_of(w) == old(
                self,
            ).reserved_of(w),
    ;

    /// Moves as much as it can, up to `value`, of the reserved balance of
    /// `who` back to its free balance, and returns the part of `value` that
    /// could not be moved. It does not fail.
    fn unreserve(&mut self, who: u64, value: u64) -> (remaining: u64)
        ensures
            remaining == value - unreservable(old(self).reserved_of(who), value),
            final(self).free_of(who) == old(self).free_of(who) + unreservable(
                old(self).reserved_of(who),
                value,
            ),
            final(self).reserved_of(who) == old(self).reserved_of(who) - unreservable(
                old(self).reserved_of(who),
                value,
            ),
            forall|w: u64| w != who ==> #[trigger] final(self).free_of(w) == old(self).free_of(w),
            forall|w: u64| w != who ==> #[trigger] final(self).reserved_of(w) == old(
                self,
            ).reserved_of(w),
    ;
}

/// Every account has the same free and reserved balances in `after` as in
/// `before`.
pub open spec fn balances_kept<T: Trait>(before: T, after: T) -> bool {
    &&& forall|w: u64| #[trigger] after.free_of(w) == before.free_of(w)
    &&& forall|w: u64| #[trigger] after.reserved_of(w) == before.reserved_of(w)
}

/// `after` is `before` with `moved` of the free balance of `who` placed in
/// its reserved balance (where `moved` is negative, taken back from it);
/// every other account keeps its balances.
pub open spec fn reserve_shifted<T: Trait>(before: T, after: T, who: u64, moved: int) -> bool {
    &&& after.free_of(who) == before.free_of(who) - moved
    &&& after.reserved_of(who) == before.reserved_of(who) + moved
    &&& forall|w: u64| w != who ==> #[trigger] after.free_of(w) == before.free_of(w)
    &&& forall|w: u64| w != who ==> #[trigger] after.reserved_of(w) == before.reserved_of(w)
}

/// How much an unreservation of `value` moves from a reserved balance of
/// `reserved`: all of `value` where it can, else all that is reserved.
pub open spec fn unreservable(reserved: nat, value: u64) -> nat {
    if reserved < value {
        reserved
    } else {
        value as nat
    }
}

/// `after` is `before` with `value` paid from `source` to `dest`: nothing
/// changes where they are the same account; else `dest` gains `value` and
/// `source` loses it (with `AllowDeath` it may lose more, where the rest is
/// below the existential deposit and removed as dust), and no reserved
/// balance changes. With `KeepAlive` no other account changes.
pub open spec fn payment_made<T: Trait>(
    before: T,
    after: T,
    source: u64,
    dest: u64,
    value: nat,
    existence: ExistenceRequirement,
) -> bool {
    if source == dest {
        balances_kept(before, after)
    } else {
        &&& after.free_of(dest) == before.free_of(dest) + value
        &&& forall|w: u64| #[trigger] after.reserved_of(w) == before.reserved_of(w)
        &&& match existence {
            ExistenceRequirement::KeepAlive => {
                &&& after.free_of(source) == before.free_of(source) - value
                &&& forall|w: u64|
                    w != source && w != dest ==> #[trigger] after.free_of(w) == before.free_of(w)
            },
            ExistenceRequirement::AllowDeath => after.free_of(source) <= before.free_of(source)
                - value,
        }
    }
}

/// Mixes one byte of two parents' DNA: where the selector has a 1 bit the
/// first parent's bit is taken, elsewhere the second parent's.
pub fn combine_dna(dna1: u8, dna2: u8, selector: u8) -> (r: u8)
    ensures
        r == (selector & dna1) | (!selector & dna2),
{
    (selector & dna1) | (!selector & dna2)
}

/// The DNA of a child: each byte mixes the parents' bytes under the selector's.
pub fn breed_dna(dna1: [u8; 16], dna2: [u8; 16], selector: [u8; 16]) -> (r: [u8; 16])
    ensures
        forall|i: int|
            0 <= i < 16 ==> #[trigger] r[i] == (selector[i] & dna1[i]) | (!selector[i] & dna2[i]),
{
    let mut new_dna = [0u8; 16];
    let mut i: usize = 0;
    while i < 16
        invariant
            0 <= i <= 16,
            forall|j: int|
                0 <= j < i ==> #[trigger] new_dna[j] == (selector[j] & dna1[j]) | (!selector[j]
                    & dna2[j]),
        decreases 16 - i,
    {
        new_dna[i] = combine_dna(dna1[i], dna2[i], selector[i]);
        i = i + 1;
    }
    new_dna
}

/// A 128-bit random value for `sender`: the Blake2 digest of the SCALE
/// encoding of the random seed, the sender and the extrinsic index.
pub fn random_value(sender: u64, seed: [u8; 32], extrinsic_index: Option<u32>) -> (r: [u8; 16])
    ensures
        r@ == blake2_128_digest(random_payload(seed@, sender, extrinsic_index)),
{
    let payload = encode_random_payload(seed, sender, extrinsic_index);
    blake2_128(payload.as_slice())
}

/// The random value drawn for `sender` at `extrinsic_index` from `seed`.
pub open spec fn random_from_seed(seed: Seq<u8>, sender: u64, extrinsic_index: Option<u32>) -> Seq<u8> {
    blake2_128_digest(random_payload(seed, sender, extrinsic_index))
}

/// `dna` is a random value drawn for `sender` at `extrinsic_index`, from some seed.
pub open spec fn is_random_value(dna: [u8; 16], sender: u64, extrinsic_index: Option<u32>) -> bool {
    exists|seed: Seq<u8>|
        seed.len() == 32 && dna@ == blake2_128_digest(
            #[trigger] random_payload(seed, sender, extrinsic_index),
        )
}

/// The DNA bred from `dna1` and `dna2` under `selector`: each byte takes the
/// bits of `dna1` where the selector's byte has a 1 bit, and of `dna2` elsewhere.
pub open spec fn bred_dna_view(dna1: Seq<u8>, dna2: Seq<u8>, selector: Seq<u8>) -> Seq<u8> {
    Seq::new(16, |i: int| (selector[i] & dna1[i]) | (!selector[i] & dna2[i]))
}

/// The storage key of the children of a pair of parents.
pub open spec fn pair_key(father: u32, mother: u32) -> u64 {
    (father as int * 0x1_0000_0000 + mother as int) as u64
}

proof fn lemma_pair_key_injective(a: u32, b: u32, c: u32, d: u32)
    ensures
        pair_key(a, b) == pair_key(c, d) ==> a == c && b == d,
{
    assert(a as int * 0x1_0000_0000 + b as int <= 0xffff_ffff_ffff_ffff) by (nonlinear_arith);
    assert(c as int * 0x1_0000_0000 + d as int <= 0xffff_ffff_ffff_ffff) by (nonlinear_arith);
    if a != c {
        assert(a as int * 0x1_0000_0000 + b as int != c as int * 0x1_0000_0000 + d as int)
            by (nonlinear_arith)
            requires
                a != c,
                0 <= b < 0x1_0000_0000,
                0 <= d < 0x1_0000_0000,
        ;
    }
}

fn children_key(father: u32, mother: u32) -> (r: u64)
    ensures
        r == pair_key(father, mother),
{
    assert(father as int * 0x1_0000_0000 + mother as int <= 0xffff_ffff_ffff_ffff)
        by (nonlinear_arith);
    (father as u64) * 0x1_0000_0000 + (mother as u64)
}

/// The state of the kitty pallet, as maps.
#[verifier::ext_equal]
pub struct KittiesView {
    /// All kitties, by index.
    pub kitties: Map<u32, HelloKitty>,
    /// The number of kitties, which is the next index.
    pub kitties_count: u32,
    /// The stored linked-list nodes of each account (every account has an entry).
    pub owned_nodes: Map<u64, ListNodes>,
    /// The kitties each account owns, in the order they came (every account has an entry).
    pub owned: Map<u64, Seq<u32>>,
    /// The owner of each kitty.
    pub kitty_owners: Map<u32, u64>,
    /// The price of each kitty for sale.
    pub kitty_prices: Map<u32, u64>,
    /// The parents (father, mother) of each bred kitty.
    pub kitties_parents: Map<u32, (u32, u32)>,
    /// The children of each pair of parents.
    pub kitties_children: Map<(u32, u32), Seq<u32>>,
    /// The siblings of each bred kitty.
    pub kitties_sibling: Map<u32, Seq<u32>>,
    /// The partners each kitty was bred with.
    pub kitties_partner: Map<u32, Seq<u32>>,
    /// The events reported so far.
    pub events: Seq<Event>,
    /// The current block number, as the system reports it.
    pub block_number: u64,
    /// The index of the extrinsic being applied, as the system reports it.
    pub extrinsic_index: Option<u32>,
}

impl KittiesView {
    /// Every account's list is linked up, and a kitty is in the list of an
    /// account exactly when that account is its owner.
    pub open spec fn ownership_ok(self) -> bool {
        &&& forall|a: u64| #[trigger] self.owned_nodes.contains_key(a)
        &&& forall|a: u64| #[trigger] self.owned.contains_key(a)
        &&& forall|a: u64| #[trigger] well_linked(self.owned_nodes[a], self.owned[a])
        &&& forall|a: u64, k: u32| #[trigger]
            self.owned[a].contains(k) <==> (self.kitty_owners.contains_key(k)
                && self.kitty_owners[k] == a)
    }

    /// The invariant of the pallet's storage.
    pub open spec fn wf(self) -> bool {
        &&& self.ownership_ok()
        &&& forall|k: u32| #[trigger] self.kitties.contains_key(k) <==> k < self.kitties_count
        &&& forall|k: u32| #[trigger]
            self.kitty_owners.contains_key(k) <==> self.kitties.contains_key(k)
        &&& forall|k: u32| #[trigger]
            self.kitties_partner.contains_key(k) ==> self.kitties_partner[k].no_duplicates()
        &&& forall|k: u32| #[trigger] self.kitty_prices.contains_key(k) ==> self.kitties.contains_key(k)
    }

    /// `who` owns kitty `kitty_id`.
    pub open spec fn owns(self, who: u64, kitty_id: u32) -> bool {
        self.owned[who].contains(kitty_id)
    }

    /// The state after `kitty_id` is appended to the list of `owner` and
    /// recorded as owned by it.
    pub open spec fn with_owned_kitty(self, owner: u64, kitty_id: u32) -> KittiesView {
        KittiesView {
            owned_nodes: self.owned_nodes.insert(
                owner,
                appended(self.owned_nodes[owner], kitty_id),
            ),
            owned: self.owned.insert(owner, self.owned[owner].push(kitty_id)),
            kitty_owners: self.kitty_owners.insert(kitty_id, owner),
            ..self
        }
    }

    /// The state after kitty `kitty_id` is stored, the count set past it,
    /// and the kitty given to `owner`.
    pub open spec fn with_kitty(self, owner: u64, kitty_id: u32, kitty: HelloKitty) -> KittiesView {
        KittiesView {
            kitties: self.kitties.insert(kitty_id, kitty),
            kitties_count: (kitty_id + 1) as u32,
            ..self
        }.with_owned_kitty(owner, kitty_id)
    }

    /// The state after `kitty_id` moves from the list of `from` to the end
    /// of the list of `to`.
    pub open spec fn transferred(self, from: u64, to: u64, kitty_id: u32) -> KittiesView {
        KittiesView {
            owned_nodes: self.owned_nodes.insert(
                from,
                removed(self.owned_nodes[from], kitty_id),
            ),
            owned: self.owned.insert(from, without(self.owned[from], kitty_id)),
            ..self
        }.with_owned_kitty(to, kitty_id)
    }

    /// The state after `event` is reported.
    pub open spec fn with_event(self, event: Event) -> KittiesView {
        KittiesView { events: self.events.push(event), ..self }
    }
}

/// The result of asking for the next kitty index.
pub open spec fn next_id_spec(v: KittiesView) -> Result<u32, DispatchError<Error>> {
    if v.kitties_count == u32::MAX {
        Err(DispatchError::Module(Error::KittiesCountOverflow))
    } else {
        Ok(v.kitties_count)
    }
}

/// The values stored under `key`, or none.
pub open spec fn seq_or_empty<K>(m: Map<K, Seq<u32>>, key: K) -> Seq<u32> {
    if m.contains_key(key) {
        m[key]
    } else {
        Seq::empty()
    }
}

/// Whether a value differs from `k`.
pub open spec fn differs_from(k: u32) -> spec_fn(u32) -> bool {
    |x: u32| x != k
}

/// The values of `s` other than `k`, in order.
pub open spec fn others(s: Seq<u32>, k: u32) -> Seq<u32> {
    s.filter(differs_from(k))
}

/// The parents of `kitty_id` as storage reads them: `(0, 0)` where none are stored.
pub open spec fn parents_of(v: KittiesView, kitty_id: u32) -> (u32, u32) {
    if v.kitties_parents.contains_key(kitty_id) {
        v.kitties_parents[kitty_id]
    } else {
        (0, 0)
    }
}

/// The partner lists after `partner2` is added to those of `partner1`, unless
/// it is already there.
pub open spec fn partner_added(p: Map<u32, Seq<u32>>, partner1: u32, partner2: u32) -> Map<
    u32,
    Seq<u32>,
> {
    if p.contains_key(partner1) {
        if p[partner1].contains(partner2) {
            p
        } else {
            p.insert(partner1, p[partner1].push(partner2))
        }
    } else {
        p.insert(partner1, seq![partner2])
    }
}

impl KittiesView {
    /// The state after `(father, mother)` is stored as the parents of `child`.
    pub open spec fn with_parents(self, child: u32, father: u32, mother: u32) -> KittiesView {
        KittiesView { kitties_parents: self.kitties_parents.insert(child, (father, mother)), ..self }
    }

    /// The state after `child` is added to the children of `(father, mother)`.
    pub open spec fn with_child(self, child: u32, father: u32, mother: u32) -> KittiesView {
        KittiesView {
            kitties_children: self.kitties_children.insert(
                (father, mother),
                seq_or_empty(self.kitties_children, (father, mother)).push(child),
            ),
            ..self
        }
    }

    /// The state after the siblings of `kitty_id` are set to the other children
    /// of its parents.
    pub open spec fn with_siblings(self, kitty_id: u32) -> KittiesView {
        KittiesView {
            kitties_sibling: self.kitties_sibling.insert(
                kitty_id,
                others(seq_or_empty(self.kitties_children, parents_of(self, kitty_id)), kitty_id),
            ),
            ..self
        }
    }

    /// The state after `partner2` is recorded as a partner of `partner1`.
    pub open spec fn with_partner(self, partner1: u32, partner2: u32) -> KittiesView {
        KittiesView {
            kitties_partner: partner_added(self.kitties_partner, partner1, partner2),
            ..self
        }
    }

    /// The state after a kitty with `dna` is bred by `sender` from `kitty_id_1`
    /// and `kitty_id_2`: stored under the next index, given to `sender`, the
    /// parents recorded as partners of each other, and its parents, the
    /// parents' children and its siblings recorded.
    pub open spec fn bred(self, sender: u64, kitty_id_1: u32, kitty_id_2: u32, dna: [u8; 16]) -> KittiesView {
        let kitty_id = self.kitties_count;
        self.with_kitty(sender, kitty_id, HelloKitty(dna)).with_partner(
            kitty_id_1,
            kitty_id_2,
        ).with_partner(kitty_id_2, kitty_id_1).with_parents(
            kitty_id,
            kitty_id_1,
            kitty_id_2,
        ).with_child(kitty_id, kitty_id_1, kitty_id_2).with_siblings(kitty_id)
    }

    /// The state after the price of `kitty_id` is set (`None` takes it off sale).
    pub open spec fn priced(self, kitty_id: u32, new_price: Option<u64>) -> KittiesView {
        KittiesView {
            kitty_prices: match new_price {
                Some(p) => self.kitty_prices.insert(kitty_id, p),
                None => self.kitty_prices.remove(kitty_id),
            },
            ..self
        }
    }

    /// The state after `buyer` buys `kitty_id` from `seller` at `price`.
    pub open spec fn sold(self, seller: u64, buyer: u64, kitty_id: u32, price: u64) -> KittiesView {
        self.priced(kitty_id, None).transferred(seller, buyer, kitty_id).with_event(
            Event::Sold(seller, buyer, kitty_id, price),
        )
    }
}

/// `after` is `before` with `then` reported, preceded by the report of a
/// reservation of `amount` for `locker` where the currency accepts that
/// reservation: then it has moved `amount` of the free balance of `locker`
/// into its reserved balance; where it refuses, every balance is kept.
pub open spec fn after_reservation<T: Trait>(
    before: KittiesView,
    after: KittiesView,
    rt_before: T,
    rt_after: T,
    locker: u64,
    amount: u64,
    then: Event,
) -> bool {
    if rt_before.reserve_outcome(locker, amount) is Ok {
        &&& after == before.with_event(Event::LockFunds(locker, amount, before.block_number))
            .with_event(then)
        &&& reserve_shifted(rt_before, rt_after, locker, amount as int)
    } else {
        &&& after == before.with_event(then)
        &&& balances_kept(rt_before, rt_after)
    }
}

/// `after`, `rt_after` and `r` follow `before` and `rt_before` by an
/// unreservation of up to `collateral` of the funds of `to_punish` and the
/// transfer of what it moved to `dest`: the transfer succeeds and is
/// reported where the currency, once the funds are unreserved, accepts it;
/// else the call fails with the currency's answer and reports nothing.
pub open spec fn after_punishment<T: Trait>(
    before: KittiesView,
    after: KittiesView,
    rt_before: T,
    rt_after: T,
    to_punish: u64,
    dest: u64,
    collateral: u64,
    r: DispatchResult<Error>,
) -> bool {
    let moved = unreservable(rt_before.reserved_of(to_punish), collateral);
    exists|unreserved: T|
        #[trigger] reserve_shifted(rt_before, unreserved, to_punish, -(moved as int)) && match unreserved.transfer_outcome(
            to_punish,
            dest,
            moved as u64,
            ExistenceRequirement::AllowDeath,
        ) {
            Ok(_) => {
                &&& r == Ok::<(), DispatchError<Error>>(())
                &&& after == before.with_event(
                    Event::TransferFunds(to_punish, dest, moved as u64, before.block_number),
                )
                &&& payment_made(
                    unreserved,
                    rt_after,
                    to_punish,
                    dest,
                    moved,
                    ExistenceRequirement::AllowDeath,
                )
            },
            Err(e) => {
                &&& r == Err::<(), DispatchError<Error>>(e)
                &&& after == before
                &&& balances_kept(unreserved, rt_after)
            },
        }
}

/// Where the currency accepts a reservation of `amount` for `locker`, the
/// reservation is made: `amount` leaves the free balance of `locker` for its
/// reserved balance and `LockFunds` is reported before `then`. Only where
/// the currency refuses does nothing move and only `then` is reported.
pub proof fn lemma_reservation_follows_the_currency<T: Trait>(
    before: KittiesView,
    after: KittiesView,
    rt_before: T,
    rt_after: T,
    locker: u64,
    amount: u64,
    then: Event,
)
    requires
        after_reservation(before, after, rt_before, rt_after, locker, amount, then),
    ensures
        rt_before.reserve_outcome(locker, amount) is Ok ==> {
            &&& rt_after.free_of(locker) + amount == rt_before.free_of(locker)
            &&& rt_after.reserved_of(locker) == rt_before.reserved_of(locker) + amount
            &&& after.events == before.events.push(
                Event::LockFunds(locker, amount, before.block_number),
            ).push(then)
        },
        rt_before.reserve_outcome(locker, amount) is Err ==> {
            &&& rt_after.free_of(locker) == rt_before.free_of(locker)
            &&& rt_after.reserved_of(locker) == rt_before.reserved_of(locker)
            &&& after.events == before.events.push(then)
        },
{
}

/// Whatever the transfer's answer, the smaller of `collateral` and what
/// `to_punish` had reserved leaves its reserved balance. The call succeeds
/// exactly where the currency accepts the transfer of that amount (after the
/// unreservation), and fails with the currency's own answer otherwise; on
/// success `dest` gains that amount and the transfer is reported, on failure
/// the amount stays free with `to_punish` and nothing is reported.
pub proof fn lemma_punishment_follows_the_transfer<T: Trait>(
    before: KittiesView,
    after: KittiesView,
    rt_before: T,
    rt_after: T,
    to_punish: u64,
    dest: u64,
    collateral: u64,
    r: DispatchResult<Error>,
)
    requires
        after_punishment(before, after, rt_before, rt_after, to_punish, dest, collateral, r),
        to_punish != dest,
    ensures
        rt_after.reserved_of(to_punish) == rt_before.reserved_of(to_punish) - unreservable(
            rt_before.reserved_of(to_punish),
            collateral,
        ),
        exists|unreserved: T|
            #[trigger] reserve_shifted(
                rt_before,
                unreserved,
                to_punish,
                -(unreservable(rt_before.reserved_of(to_punish), collateral) as int),
            ) && r == unreserved.transfer_outcome(
                to_punish,
                dest,
                unreservable(rt_before.reserved_of(to_punish), collateral) as u64,
                ExistenceRequirement::AllowDeath,
            ),
        r is Ok ==> {
            &&& rt_after.free_of(dest) == rt_before.free_of(dest) + unreservable(
                rt_before.reserved_of(to_punish),
                collateral,
            )
            &&& after == before.with_event(
                Event::TransferFunds(
                    to_punish,
                    dest,
                    unreservable(rt_before.reserved_of(to_punish), collateral) as u64,
                    before.block_number,
                ),
            )
        },
        r is Err ==> {
            &&& after == before
            &&& rt_after.free_of(to_punish) == rt_before.free_of(to_punish) + unreservable(
                rt_before.reserved_of(to_punish),
                collateral,
            )
            &&& rt_after.free_of(dest) == rt_before.free_of(dest)
        },
{
    let moved = unreservable(rt_before.reserved_of(to_punish), collateral);
    let unreserved = choose|unreserved: T|
        #[trigger] reserve_shifted(rt_before, unreserved, to_punish, -(moved as int)) && match unreserved.transfer_outcome(
            to_punish,
            dest,
            moved as u64,
            ExistenceRequirement::AllowDeath,
        ) {
            Ok(_) => {
                &&& r == Ok::<(), DispatchError<Error>>(())
                &&& after == before.with_event(
                    Event::TransferFunds(to_punish, dest, moved as u64, before.block_number),
                )
                &&& payment_made(
                    unreserved,
                    rt_after,
                    to_punish,
                    dest,
                    moved,
                    ExistenceRequirement::AllowDeath,
                )
            },
            Err(e) => {
                &&& r == Err::<(), DispatchError<Error>>(e)
                &&& after == before
                &&& balances_kept(unreserved, rt_after)
            },
        };
    assert(unreserved.free_of(dest) == rt_before.free_of(dest));
    assert(unreserved.reserved_of(to_punish) == rt_after.reserved_of(to_punish));
    let answer = unreserved.transfer_outcome(
        to_punish,
        dest,
        moved as u64,
        ExistenceRequirement::AllowDeath,
    );
    if answer is Ok {
        let unit: () = answer->Ok_0;
        assert(answer == Ok::<(), DispatchError<Error>>(unit));
    }
    assert(r == unreserved.transfer_outcome(
        to_punish,
        dest,
        moved as u64,
        ExistenceRequirement::AllowDeath,
    ));
}

/// Why breeding `kitty_id_1` with `kitty_id_2` for `sender` is refused, if it is.
pub open spec fn breed_error(v: KittiesView, sender: u64, kitty_id_1: u32, kitty_id_2: u32) -> Option<
    DispatchError<Error>,
> {
    if !v.kitties.contains_key(kitty_id_1) || !v.kitties.contains_key(kitty_id_2) {
        Some(DispatchError::Module(Error::InvalidKittyId))
    } else if !v.owns(sender, kitty_id_1) || !v.owns(sender, kitty_id_2) {
        Some(DispatchError::Module(Error::RequireOwner))
    } else if kitty_id_1 == kitty_id_2 {
        Some(DispatchError::Module(Error::RequireDifferentParent))
    } else if v.kitties_count == u32::MAX {
        Some(DispatchError::Module(Error::KittiesCountOverflow))
    } else {
        None
    }
}

/// `dna` mixes `dna1` and `dna2` under a random selector drawn for `sender`
/// from some seed.
pub open spec fn is_bred_dna(
    dna: [u8; 16],
    dna1: [u8; 16],
    dna2: [u8; 16],
    sender: u64,
    extrinsic_index: Option<u32>,
) -> bool {
    exists|seed: Seq<u8>|
        seed.len() == 32 && dna@ == bred_dna_view(
            dna1@,
            dna2@,
            blake2_128_digest(#[trigger] random_payload(seed, sender, extrinsic_index)),
        )
}

/// The seller and the price of a purchase of `kitty_id` offering `price`, or
/// why it is refused.
pub open spec fn buy_terms(v: KittiesView, kitty_id: u32, price: u64) -> Result<
    (u64, u64),
    DispatchError<Error>,
> {
    if !v.kitty_owners.contains_key(kitty_id) {
        Err(DispatchError::Module(Error::InvalidKittyId))
    } else if !v.kitty_prices.contains_key(kitty_id) {
        Err(DispatchError::Module(Error::NotForSale))
    } else if price < v.kitty_prices[kitty_id] {
        Err(DispatchError::Module(Error::PriceTooLow))
    } else {
        Ok((v.kitty_owners[kitty_id], v.kitty_prices[kitty_id]))
    }
}

/// A kitty that is for sale can be bought at any offer of at least its asked
/// price, from its owner at the asked price; an offer below the asked price,
/// and only such an offer, is refused with `PriceTooLow`.
pub proof fn lemma_buy_at_asked_price(v: KittiesView, kitty_id: u32, price: u64)
    ensures
        v.kitty_owners.contains_key(kitty_id) && v.kitty_prices.contains_key(kitty_id) && price
            >= v.kitty_prices[kitty_id] ==> buy_terms(v, kitty_id, price) == Ok::<
            (u64, u64),
            DispatchError<Error>,
        >((v.kitty_owners[kitty_id], v.kitty_prices[kitty_id])),
        buy_terms(v, kitty_id, price) == Err::<(u64, u64), DispatchError<Error>>(
            DispatchError::Module(Error::PriceTooLow),
        ) <==> (v.kitty_owners.contains_key(kitty_id) && v.kitty_prices.contains_key(kitty_id)
            && price < v.kitty_prices[kitty_id]),
        buy_terms(v, kitty_id, price) is Ok ==> v.kitty_prices.contains_key(kitty_id) && price
            >= v.kitty_prices[kitty_id],
        !v.kitty_owners.contains_key(kitty_id) ==> buy_terms(v, kitty_id, price) == Err::<
            (u64, u64),
            DispatchError<Error>,
        >(DispatchError::Module(Error::InvalidKittyId)),
        v.kitty_owners.contains_key(kitty_id) && !v.kitty_prices.contains_key(kitty_id)
            ==> buy_terms(v, kitty_id, price) == Err::<(u64, u64), DispatchError<Error>>(
            DispatchError::Module(Error::NotForSale),
        ),
{
}

/// Two distinct existing kitties that `sender` owns can be bred while the
/// count has room; refusals come in this order: a missing kitty, one that
/// `sender` does not own, the same kitty twice, a full count.
pub proof fn lemma_breeding_allowed(v: KittiesView, sender: u64, kitty_id_1: u32, kitty_id_2: u32)
    ensures
        breed_error(v, sender, kitty_id_1, kitty_id_2) is None <==> (v.kitties.contains_key(
            kitty_id_1,
        ) && v.kitties.contains_key(kitty_id_2) && v.owns(sender, kitty_id_1) && v.owns(
            sender,
            kitty_id_2,
        ) && kitty_id_1 != kitty_id_2 && v.kitties_count < u32::MAX),
        !v.kitties.contains_key(kitty_id_1) || !v.kitties.contains_key(kitty_id_2) ==> breed_error(
            v,
            sender,
            kitty_id_1,
            kitty_id_2,
        ) == Some(DispatchError::<Error>::Module(Error::InvalidKittyId)),
        v.kitties.contains_key(kitty_id_1) && v.kitties.contains_key(kitty_id_2) && (!v.owns(
            sender,
            kitty_id_1,
        ) || !v.owns(sender, kitty_id_2)) ==> breed_error(v, sender, kitty_id_1, kitty_id_2)
            == Some(DispatchError::<Error>::Module(Error::RequireOwner)),
        v.kitties.contains_key(kitty_id_1) && v.owns(sender, kitty_id_1) && kitty_id_1 == kitty_id_2
            ==> breed_error(v, sender, kitty_id_1, kitty_id_2) == Some(
            DispatchError::<Error>::Module(Error::RequireDifferentParent),
        ),
{
}

/// What an unreservation of `collateral` moved, where `overdraft` of it
/// could not be moved.
pub fn unreserved_amount(collateral: u64, overdraft: u64) -> (r: u64)
    requires
        overdraft <= collateral,
    ensures
        r == collateral - overdraft,
{
    collateral - overdraft
}

/// The message of a failed reservation.
pub const CANNOT_LOCK: &'static str = "locker can't afford to lock the amount requested";

fn vec_contains(v: &Vec<u32>, x: u32) -> (r: bool)
    ensures
        r == v@.contains(x),
{
    let mut i: usize = 0;
    while i < v.len()
        invariant
            0 <= i <= v.len(),
            forall|j: int| 0 <= j < i ==> v@[j] != x,
        decreases v.len() - i,
    {
        if v[i] == x {
            return true;
        }
        i = i + 1;
    }
    false
}

fn others_of(v: &Vec<u32>, k: u32) -> (r: Vec<u32>)
    ensures
        r@ == others(v@, k),
{
    let mut out: Vec<u32> = Vec::new();
    let mut i: usize = 0;
    while i < v.len()
        invariant
            0 <= i <= v.len(),
            out@ == others(v@.take(i as int), k),
        decreases v.len() - i,
    {
        proof {
            assert(v@.take(i + 1) =~= v@.take(i as int).push(v@[i as int]));
            v@.take(i as int).lemma_filter_push(v@[i as int], differs_from(k));
        }
        if v[i] != k {
            out.push(v[i]);
        }
        i = i + 1;
    }
    assert(v@.take(v.len() as int) =~= v@);
    out
}

/// `k` is in `s.push(x)` exactly when it is `x` or in `s`.
proof fn lemma_push_contains(s: Seq<u32>, x: u32, k: u32)
    ensures
        s.push(x).contains(k) <==> (k == x || s.contains(k)),
{
    let t = s.push(x);
    if t.contains(k) && k != x {
        let j = choose|j: int| 0 <= j < t.len() && t[j] == k;
        assert(j != s.len());
        assert(s[j] == k);
    }
    if s.contains(k) {
        let j = choose|j: int| 0 <= j < s.len() && s[j] == k;
        assert(t[j] == k);
    }
    if k == x {
        assert(t[s.len() as int] == k);
    }
}

/// Giving a kitty that nobody owns to `owner` keeps every list linked and
/// the owner records in agreement with the lists.
pub proof fn lemma_with_owned_kitty_ok(v: KittiesView, owner: u64, kitty_id: u32)
    requires
        v.ownership_ok(),
        !v.kitty_owners.contains_key(kitty_id),
    ensures
        v.with_owned_kitty(owner, kitty_id).ownership_ok(),
        v.with_owned_kitty(owner, kitty_id).owns(owner, kitty_id),
{
    let w = v.with_owned_kitty(owner, kitty_id);
    assert(!v.owned[owner].contains(kitty_id));
    assert(well_linked(v.owned_nodes[owner], v.owned[owner]));
    lemma_append_links(v.owned_nodes[owner], v.owned[owner], kitty_id);
    assert forall|a: u64| #[trigger] well_linked(w.owned_nodes[a], w.owned[a]) by {
        if a != owner {
            assert(well_linked(v.owned_nodes[a], v.owned[a]));
        }
    }
    assert forall|a: u64, k: u32| #[trigger]
        w.owned[a].contains(k) <==> (w.kitty_owners.contains_key(k) && w.kitty_owners[k] == a) by {
        assert(v.owned[a].contains(k) <==> (v.kitty_owners.contains_key(k) && v.kitty_owners[k]
            == a));
        if a == owner {
            lemma_push_contains(v.owned[a], kitty_id, k);
        }
    }
    lemma_push_contains(v.owned[owner], kitty_id, kitty_id);
}

/// Moving a kitty from its owner `from` to `to` keeps the invariant; then
/// `to` owns it, the owner record names `to`, `from` no longer owns it
/// (unless it is `to`), and no other kitty changes hands.
pub proof fn lemma_transferred_ok(v: KittiesView, from: u64, to: u64, kitty_id: u32)
    requires
        v.wf(),
        v.owns(from, kitty_id),
    ensures
        v.transferred(from, to, kitty_id).wf(),
        v.transferred(from, to, kitty_id).owns(to, kitty_id),
        v.transferred(from, to, kitty_id).kitty_owners == v.kitty_owners.insert(kitty_id, to),
        from != to ==> !v.transferred(from, to, kitty_id).owns(from, kitty_id),
        forall|a: u64, k: u32|
            k != kitty_id ==> (#[trigger] v.transferred(from, to, kitty_id).owns(a, k) <==> v.owns(
                a,
                k,
            )),
{
    let m = KittiesView {
        owned_nodes: v.owned_nodes.insert(from, removed(v.owned_nodes[from], kitty_id)),
        owned: v.owned.insert(from, without(v.owned[from], kitty_id)),
        ..v
    };
    let w = v.transferred(from, to, kitty_id);
    assert(w == m.with_owned_kitty(to, kitty_id));
    assert(v.kitty_owners[kitty_id] == from);
    assert forall|a: u64| #[trigger] well_linked(m.owned_nodes[a], m.owned[a]) by {
        assert(well_linked(v.owned_nodes[a], v.owned[a]));
        if a == from {
            lemma_remove_links(v.owned_nodes[a], v.owned[a], kitty_id);
        }
    }
    assert forall|a: u64, k: u32| #[trigger]
        m.owned[a].contains(k) <==> (m.kitty_owners.contains_key(k) && m.kitty_owners[k] == a && k
            != kitty_id) by {
        assert(v.owned[a].contains(k) <==> (v.kitty_owners.contains_key(k) && v.kitty_owners[k]
            == a));
        if a == from {
            assert(well_linked(v.owned_nodes[a], v.owned[a]));
            lemma_without_contains(v.owned[a], kitty_id, k);
        }
    }
    assert(!m.owned[to].contains(kitty_id));
    assert(well_linked(m.owned_nodes[to], m.owned[to]));
    lemma_append_links(m.owned_nodes[to], m.owned[to], kitty_id);
    assert forall|a: u64| #[trigger] well_linked(w.owned_nodes[a], w.owned[a]) by {
        if a != to {
            assert(well_linked(m.owned_nodes[a], m.owned[a]));
        }
    }
    assert forall|a: u64, k: u32| #[trigger]
        w.owned[a].contains(k) <==> (w.kitty_owners.contains_key(k) && w.kitty_owners[k] == a) by {
        assert(m.owned[a].contains(k) <==> (m.kitty_owners.contains_key(k) && m.kitty_owners[k]
            == a && k != kitty_id));
        if a == to {
            lemma_push_contains(m.owned[a], kitty_id, k);
        }
    }
    assert forall|k: u32| #[trigger] w.kitty_owners.contains_key(k) <==> w.kitties.contains_key(k) by {
        assert(v.kitty_owners.contains_key(k) <==> v.kitties.contains_key(k));
    }
    assert forall|a: u64, k: u32| k != kitty_id implies (#[trigger] w.owns(a, k) <==> v.owns(a, k)) by {
        assert(w.owned[a].contains(k) <==> (w.kitty_owners.contains_key(k) && w.kitty_owners[k]
            == a));
        assert(v.owned[a].contains(k) <==> (v.kitty_owners.contains_key(k) && v.kitty_owners[k]
            == a));
    }
    assert(w.owned[to].contains(kitty_id) <==> (w.kitty_owners.contains_key(kitty_id)
        && w.kitty_owners[kitty_id] == to));
    assert(w.owned[from].contains(kitty_id) <==> (w.kitty_owners.contains_key(kitty_id)
        && w.kitty_owners[kitty_id] == from));
}

/// Storing a kitty under the next index and giving it to `owner` keeps the
/// invariant, and `owner` then owns it.
pub proof fn lemma_with_kitty_wf(v: KittiesView, owner: u64, kitty: HelloKitty)
    requires
        v.wf(),
        v.kitties_count < u32::MAX,
    ensures
        v.with_kitty(owner, v.kitties_count, kitty).wf(),
        v.with_kitty(owner, v.kitties_count, kitty).owns(owner, v.kitties_count),
{
    let id = v.kitties_count;
    let m = KittiesView { kitties: v.kitties.insert(id, kitty), kitties_count: (id + 1) as u32, ..v };
    assert(!v.kitties.contains_key(id));
    assert(!m.kitty_owners.contains_key(id));
    lemma_with_owned_kitty_ok(m, owner, id);
    let w = m.with_owned_kitty(owner, id);
    assert forall|k: u32| #[trigger] w.kitties.contains_key(k) <==> k < w.kitties_count by {
        assert(v.kitties.contains_key(k) <==> k < v.kitties_count);
    }
    assert forall|k: u32| #[trigger] w.kitty_owners.contains_key(k) <==> w.kitties.contains_key(k) by {
        assert(v.kitty_owners.contains_key(k) <==> v.kitties.contains_key(k));
    }
}

/// Recording a partner keeps every partner list free of duplicates, and the
/// partner is then in the list.
pub proof fn lemma_partner_added(p: Map<u32, Seq<u32>>, partner1: u32, partner2: u32)
    requires
        forall|k: u32| #[trigger] p.contains_key(k) ==> p[k].no_duplicates(),
    ensures
        forall|k: u32| #[trigger]
            partner_added(p, partner1, partner2).contains_key(k) ==> partner_added(
                p,
                partner1,
                partner2,
            )[k].no_duplicates(),
        partner_added(p, partner1, partner2).contains_key(partner1),
        partner_added(p, partner1, partner2)[partner1].contains(partner2),
{
    let q = partner_added(p, partner1, partner2);
    if p.contains_key(partner1) {
        let s0 = p[partner1];
        lemma_push_contains(s0, partner2, partner2);
        if !s0.contains(partner2) {
            let t = s0.push(partner2);
            assert forall|a: int, b: int|
                0 <= a < t.len() && 0 <= b < t.len() && a != b implies t[a] != t[b] by {
                if a < s0.len() && b < s0.len() {
                } else if a < s0.len() {
                    assert(s0.contains(t[a]));
                } else {
                    assert(s0.contains(t[b]));
                }
            }
        }
    } else {
        assert(q[partner1][0] == partner2);
    }
}

/// A kitty is never among its own siblings.
pub proof fn lemma_not_own_sibling(s: Seq<u32>, kitty_id: u32)
    ensures
        !others(s, kitty_id).contains(kitty_id),
{
    if others(s, kitty_id).contains(kitty_id) {
        let j = choose|j: int|
            0 <= j < others(s, kitty_id).len() && others(s, kitty_id)[j] == kitty_id;
        s.lemma_filter_pred(differs_from(kitty_id), j);
    }
}

/// Breeding keeps the invariant. The new kitty, under the old count, has the
/// bred DNA and belongs to the breeder; its parents are recorded, it is the
/// newest child of its parents, it is not among its own siblings, and each
/// parent is a partner of the other.
pub proof fn lemma_bred(v: KittiesView, sender: u64, kitty_id_1: u32, kitty_id_2: u32, dna: [u8; 16])
    requires
        v.wf(),
        breed_error(v, sender, kitty_id_1, kitty_id_2) is None,
    ensures
        ({
            let w = v.bred(sender, kitty_id_1, kitty_id_2, dna);
            let id = v.kitties_count;
            &&& w.wf()
            &&& w.kitties_count == id + 1
            &&& w.kitties[id] == HelloKitty(dna)
            &&& w.owns(sender, id)
            &&& w.kitties_parents[id] == (kitty_id_1, kitty_id_2)
            &&& seq_or_empty(w.kitties_children, (kitty_id_1, kitty_id_2)).last() == id
            &&& !seq_or_empty(w.kitties_sibling, id).contains(id)
            &&& w.kitties_partner[kitty_id_1].contains(kitty_id_2)
            &&& w.kitties_partner[kitty_id_2].contains(kitty_id_1)
            &&& !w.kitty_prices.contains_key(id)
        }),
{
    let id = v.kitties_count;
    let v1 = v.with_kitty(sender, id, HelloKitty(dna));
    lemma_with_kitty_wf(v, sender, HelloKitty(dna));
    assert(!v.kitties.contains_key(id));
    let v2 = v1.with_partner(kitty_id_1, kitty_id_2);
    lemma_partner_added(v1.kitties_partner, kitty_id_1, kitty_id_2);
    let v3 = v2.with_partner(kitty_id_2, kitty_id_1);
    lemma_partner_added(v2.kitties_partner, kitty_id_2, kitty_id_1);
    let p3 = v3.kitties_partner;
    if kitty_id_1 != kitty_id_2 {
        assert(p3.contains_key(kitty_id_1));
        assert(v2.kitties_partner[kitty_id_1].contains(kitty_id_2));
        assert(p3[kitty_id_1] == v2.kitties_partner[kitty_id_1]);
    }
    let v4 = v3.with_parents(id, kitty_id_1, kitty_id_2);
    let v5 = v4.with_child(id, kitty_id_1, kitty_id_2);
    let w = v5.with_siblings(id);
    assert(w == v.bred(sender, kitty_id_1, kitty_id_2, dna));
    assert(parents_of(v5, id) == (kitty_id_1, kitty_id_2));
    lemma_not_own_sibling(seq_or_empty(v5.kitties_children, (kitty_id_1, kitty_id_2)), id);
}

/// Reading the price of a kitty gives back the price last set for it.
pub proof fn lemma_price_read_back(v: KittiesView, kitty_id: u32, new_price: Option<u64>)
    ensures
        v.priced(kitty_id, new_price).kitty_prices.get(kitty_id) == new_price,
{
}

/// Setting the price of one kitty leaves the price of every other kitty, and
/// everything but the prices, as it was.
pub proof fn lemma_price_of_others_kept(v: KittiesView, kitty_id: u32, new_price: Option<u64>, other: u32)
    requires
        other != kitty_id,
    ensures
        v.priced(kitty_id, new_price).kitty_prices.get(other) == v.kitty_prices.get(other),
        v.priced(kitty_id, new_price).kitty_owners == v.kitty_owners,
        v.priced(kitty_id, new_price).kitties == v.kitties,
        v.priced(kitty_id, new_price).events == v.events,
{
}

/// A sale keeps the invariant; afterwards the buyer owns the kitty, it is no
/// longer for sale, and the sale is the last event.
pub proof fn lemma_sold(v: KittiesView, seller: u64, buyer: u64, kitty_id: u32, price: u64)
    requires
        v.wf(),
        v.kitty_owners.contains_key(kitty_id),
        v.kitty_owners[kitty_id] == seller,
    ensures
        v.sold(seller, buyer, kitty_id, price).wf(),
        v.sold(seller, buyer, kitty_id, price).owns(buyer, kitty_id),
        v.sold(seller, buyer, kitty_id, price).kitty_owners[kitty_id] == buyer,
        !v.sold(seller, buyer, kitty_id, price).kitty_prices.contains_key(kitty_id),
        v.sold(seller, buyer, kitty_id, price).events.last() == Event::Sold(
            seller,
            buyer,
            kitty_id,
            price,
        ),
{
    let p = v.priced(kitty_id, None);
    assert(v.owned[seller].contains(kitty_id) <==> (v.kitty_owners.contains_key(kitty_id)
        && v.kitty_owners[kitty_id] == seller));
    lemma_transferred_ok(p, seller, buyer, kitty_id);
}

/// Each bit of a mixed DNA byte is the first parent's bit where the
/// selector's bit is set, and the second parent's bit elsewhere.
pub proof fn lemma_combine_dna_bits(dna1: u8, dna2: u8, selector: u8, i: u8)
    requires
        i < 8,
    ensures
        (((selector & dna1) | (!selector & dna2)) >> i) & 1 == if (selector >> i) & 1 == 1 {
            (dna1 >> i) & 1
        } else {
            (dna2 >> i) & 1
        },
{
    assert((((selector & dna1) | (!selector & dna2)) >> i) & 1 == if (selector >> i) & 1 == 1 {
        (dna1 >> i) & 1
    } else {
        (dna2 >> i) & 1
    }) by (bit_vector)
        requires
            i < 8,
    ;
}

/// Mixing a DNA byte with itself gives it back, whatever the selector.
pub proof fn lemma_combine_dna_same(dna: u8, selector: u8)
    ensures
        (selector & dna) | (!selector & dna) == dna,
{
    assert((selector & dna) | (!selector & dna) == dna) by (bit_vector);
}

/// The state of the pallet before anything happened: no kitties, empty
/// lists, no events, block 0 and no extrinsic being applied.
pub open spec fn genesis() -> KittiesView {
    KittiesView {
        kitties: Map::empty(),
        kitties_count: 0,
        owned_nodes: Map::new(|a: u64| true, |a: u64| no_nodes()),
        owned: Map::new(|a: u64| true, |a: u64| Seq::<u32>::empty()),
        kitty_owners: Map::empty(),
        kitty_prices: Map::empty(),
        kitties_parents: Map::empty(),
        kitties_children: Map::empty(),
        kitties_sibling: Map::empty(),
        kitties_partner: Map::empty(),
        events: Seq::empty(),
        block_number: 0,
        extrinsic_index: None,
    }
}

/// The storage of the kitty pallet, with the block number and extrinsic
/// index that the system reports to it.
pub struct Module {
    kitties: HashMap<u32, HelloKitty>,
    kitties_count: u32,
    owned_kitties: LinkedList,
    kitty_owners: HashMap<u32, u64>,
    kitty_prices: HashMap<u32, u64>,
    kitties_parents: HashMap<u32, (u32, u32)>,
    kitties_children: HashMap<u64, Vec<u32>>,
    kitties_sibling: HashMap<u32, Vec<u32>>,
    kitties_partner: HashMap<u32, Vec<u32>>,
    events: Vec<Event>,
    block_number: u64,
    extrinsic_index: Option<u32>,
}

impl View for Module {
    type V = KittiesView;

    closed spec fn view(&self) -> KittiesView {
        KittiesView {
            kitties: self.kitties@,
            kitties_count: self.kitties_count,
            owned_nodes: Map::new(|a: u64| true, |a: u64| self.owned_kitties.nodes(a)),
            owned: Map::new(|a: u64| true, |a: u64| self.owned_kitties.values(a)),
            kitty_owners: self.kitty_owners@,
            kitty_prices: self.kitty_prices@,
            kitties_parents: self.kitties_parents@,
            kitties_children: Map::new(
                |k: (u32, u32)| self.kitties_children@.contains_key(pair_key(k.0, k.1)),
                |k: (u32, u32)| self.kitties_children@[pair_key(k.0, k.1)]@,
            ),
            kitties_sibling: self.kitties_sibling@.map_values(|v: Vec<u32>| v@),
            kitties_partner: self.kitties_partner@.map_values(|v: Vec<u32>| v@),
            events: self.events@,
            block_number: self.block_number,
            extrinsic_index: self.extrinsic_index,
        }
    }
}

impl Module {
    /// The invariant of the storage.
    pub open spec fn wf(&self) -> bool {
        self@.wf()
    }

    /// Empty storage at block 0.
    pub fn new() -> (r: Module)
        ensures
            r.wf(),
            r@ == genesis(),
    {
        let r = Module {
            kitties: HashMap::new(),
            kitties_count: 0,
            owned_kitties: LinkedList::new(),
            kitty_owners: HashMap::new(),
            kitty_prices: HashMap::new(),
            kitties_parents: HashMap::new(),
            kitties_children: HashMap::new(),
            kitties_sibling: HashMap::new(),
            kitties_partner: HashMap::new(),
            events: Vec::new(),
            block_number: 0,
            extrinsic_index: None,
        };
        proof {
            let g = genesis();
            assert(r@.owned =~= g.owned);
            assert(r@.owned_nodes =~= g.owned_nodes);
            assert(r@.kitties =~= g.kitties);
            assert(r@.kitty_owners =~= g.kitty_owners);
            assert(r@.kitty_prices =~= g.kitty_prices);
            assert(r@.kitties_parents =~= g.kitties_parents);
            assert(r@.kitties_children =~= g.kitties_children);
            assert(r@.kitties_sibling =~= g.kitties_sibling);
            assert(r@.kitties_partner =~= g.kitties_partner);
            assert(r@.events =~= g.events);
            assert(r@ =~= g);
            assert forall|a: u64| #[trigger] well_linked(r@.owned_nodes[a], r@.owned[a]) by {
                assert(well_linked(r.owned_kitties.nodes(a), r.owned_kitties.values(a)));
            }
        }
        r
    }

    /// The kitty with index `kitty_id`, if any.
    pub fn kitties(&self, kitty_id: u32) -> (r: Option<HelloKitty>)
        ensures
            r == self@.kitties.get(kitty_id),
    {
        match self.kitties.get(&kitty_id) {
            Some(k) => Some(*k),
            None => None,
        }
    }

    /// The number of kitties, which is the next kitty index.
    pub fn kitties_count(&self) -> (r: u32)
        ensures
            r == self@.kitties_count,
    {
        self.kitties_count
    }

    /// The stored list node of `(account, key)`; `None` as key is the head.
    pub fn owned_kitties(&self, key: (u64, Option<u32>)) -> (r: Option<LinkedItem<u32>>)
        ensures
            r == node_entry(self@.owned_nodes[key.0], key.1),
    {
        self.owned_kitties.get(key.0, key.1)
    }

    /// The owner of kitty `kitty_id`, if any.
    pub fn kitty_owner(&self, kitty_id: u32) -> (r: Option<u64>)
        ensures
            r == self@.kitty_owners.get(kitty_id),
    {
        match self.kitty_owners.get(&kitty_id) {
            Some(o) => Some(*o),
            None => None,
        }
    }

    /// The price of kitty `kitty_id`; `None` means it is not for sale.
    pub fn kitty_price(&self, kitty_id: u32) -> (r: Option<u64>)
        ensures
            r == self@.kitty_prices.get(kitty_id),
    {
        match self.kitty_prices.get(&kitty_id) {
            Some(p) => Some(*p),
            None => None,
        }
    }

    /// Sets the block number that the system reports.
    pub fn set_block_number(&mut self, block_number: u64)
        ensures
            final(self)@ == (KittiesView { block_number, ..old(self)@ }),
    {
        self.block_number = block_number;
        assert(self@ =~= (KittiesView { block_number, ..old(self)@ }));
    }

    /// Sets the index of the extrinsic being applied.
    pub fn set_extrinsic_index(&mut self, extrinsic_index: Option<u32>)
        ensures
            final(self)@ == (KittiesView { extrinsic_index, ..old(self)@ }),
    {
        self.extrinsic_index = extrinsic_index;
        assert(self@ =~= (KittiesView { extrinsic_index, ..old(self)@ }));
    }

    /// The current block number.
    pub fn block_number(&self) -> (r: u64)
        ensures
            r == self@.block_number,
    {
        self.block_number
    }

    /// The events reported so far.
    pub fn events(&self) -> (r: &Vec<Event>)
        ensures
            r@ == self@.events,
    {
        &self.events
    }

    /// Whether `who` owns kitty `kitty_id` (its list holds a node for it).
    fn owns(&self, who: u64, kitty_id: u32) -> (r: bool)
        requires
            self.wf(),
        ensures
            r == self@.owns(who, kitty_id),
    {
        proof {
            assert(self@.owned[who] == self.owned_kitties.values(who));
            assert(self.owned_kitties.wf()) by {
                assert forall|a: u64| #[trigger]
                    well_linked(self.owned_kitties.nodes(a), self.owned_kitties.values(a)) by {
                    assert(well_linked(self@.owned_nodes[a], self@.owned[a]));
                }
            }
        }
        self.owned_kitties.contains_key(who, kitty_id)
    }

    fn deposit_event(&mut self, event: Event)
        ensures
            final(self)@ == old(self)@.with_event(event),
    {
        self.events.push(event);
        assert(self@ =~= old(self)@.with_event(event));
    }

    /// The next kitty index, or `KittiesCountOverflow` when the count is at
    /// its maximum.
    pub fn next_kitty_id(&self) -> (r: Result<u32, DispatchError<Error>>)
        ensures
            r == next_id_spec(self@),
    {
        let kitty_id = self.kitties_count;
        if kitty_id == u32::MAX {
            return Err(DispatchError::Module(Error::KittiesCountOverflow));
        }
        Ok(kitty_id)
    }

    /// Appends `kitty_id` to the list of `owner` and records `owner` as its owner.
    pub fn insert_owned_kitty(&mut self, owner: u64, kitty_id: u32)
        ensures
            final(self)@ == old(self)@.with_owned_kitty(owner, kitty_id),
            old(self)@.ownership_ok() && !old(self)@.kitty_owners.contains_key(kitty_id)
                ==> final(self)@.ownership_ok(),
    {
        let ghost old_v = self@;
        self.owned_kitties.append(owner, kitty_id);
        self.kitty_owners.insert(kitty_id, owner);
        proof {
            let exp = old_v.with_owned_kitty(owner, kitty_id);
            assert(self@.owned_nodes =~= exp.owned_nodes);
            assert(self@.owned =~= exp.owned);
            assert(self@ =~= exp);
            if old_v.ownership_ok() && !old_v.kitty_owners.contains_key(kitty_id) {
                lemma_with_owned_kitty_ok(old_v, owner, kitty_id);
            }
        }
    }

    /// Stores kitty `kitty_id`, sets the count past it and gives it to `owner`.
    pub fn insert_kitty(&mut self, owner: u64, kitty_id: u32, hello_kitty: HelloKitty)
        requires
            kitty_id < u32::MAX,
        ensures
            final(self)@ == old(self)@.with_kitty(owner, kitty_id, hello_kitty),
            old(self).wf() && kitty_id == old(self)@.kitties_count ==> final(self).wf(),
    {
        let ghost old_v = self@;
        self.kitties.insert(kitty_id, hello_kitty);
        self.kitties_count = kitty_id + 1;
        proof {
            assert(self@ =~= KittiesView {
                kitties: old_v.kitties.insert(kitty_id, hello_kitty),
                kitties_count: (kitty_id + 1) as u32,
                ..old_v
            });
        }
        self.insert_owned_kitty(owner, kitty_id);
        proof {
            if old_v.wf() && kitty_id == old_v.kitties_count {
                lemma_with_kitty_wf(old_v, owner, hello_kitty);
            }
        }
    }

    /// Moves `kitty_id` from the list of `from` to the end of the list of `to`.
    pub fn do_transfer(&mut self, from: u64, to: u64, kitty_id: u32)
        ensures
            final(self)@ == old(self)@.transferred(from, to, kitty_id),
            old(self).wf() && old(self)@.owns(from, kitty_id) ==> final(self).wf(),
    {
        let ghost old_v = self@;
        self.owned_kitties.remove(from, kitty_id);
        proof {
            let exp_mid = KittiesView {
                owned_nodes: old_v.owned_nodes.insert(
                    from,
                    removed(old_v.owned_nodes[from], kitty_id),
                ),
                owned: old_v.owned.insert(from, without(old_v.owned[from], kitty_id)),
                ..old_v
            };
            assert(self@.owned_nodes =~= exp_mid.owned_nodes);
            assert(self@.owned =~= exp_mid.owned);
            assert(self@ =~= exp_mid);
        }
        self.insert_owned_kitty(to, kitty_id);
        proof {
            if old_v.wf() && old_v.owns(from, kitty_id) {
                lemma_transferred_ok(old_v, from, to, kitty_id);
            }
        }
    }

    /// The parents of `kitty_id`; `(0, 0)` where none are stored.
    pub fn kitty_parents(&self, kitty_id: u32) -> (r: (u32, u32))
        ensures
            r == parents_of(self@, kitty_id),
    {
        match self.kitties_parents.get(&kitty_id) {
            Some(p) => *p,
            None => (0, 0),
        }
    }

    /// The children of `(father, mother)`; empty where none are stored.
    pub fn kitty_children(&self, father: u32, mother: u32) -> (r: Vec<u32>)
        ensures
            r@ == seq_or_empty(self@.kitties_children, (father, mother)),
    {
        let key = children_key(father, mother);
        match self.kitties_children.get(&key) {
            Some(v) => v.clone(),
            None => Vec::new(),
        }
    }

    /// The siblings of `kitty_id`; empty where none are stored.
    pub fn kitty_sibling(&self, kitty_id: u32) -> (r: Vec<u32>)
        ensures
            r@ == seq_or_empty(self@.kitties_sibling, kitty_id),
    {
        match self.kitties_sibling.get(&kitty_id) {
            Some(v) => v.clone(),
            None => Vec::new(),
        }
    }

    /// The partners of `kitty_id`; empty where none are stored.
    pub fn kitty_partner(&self, kitty_id: u32) -> (r: Vec<u32>)
        ensures
            r@ == seq_or_empty(self@.kitties_partner, kitty_id),
    {
        match self.kitties_partner.get(&kitty_id) {
            Some(v) => v.clone(),
            None => Vec::new(),
        }
    }

    /// Records `(father, mother)` as the parents of `children`.
    pub fn update_kitties_parents(&mut self, children: u32, father: u32, mother: u32)
        ensures
            final(self)@ == old(self)@.with_parents(children, father, mother),
            old(self).wf() ==> final(self).wf(),
    {
        self.kitties_parents.insert(children, (father, mother));
        assert(self@ =~= old(self)@.with_parents(children, father, mother));
    }

    /// Adds `children` to the children of `(father, mother)`.
    pub fn update_kitties_children(&mut self, children: u32, father: u32, mother: u32)
        ensures
            final(self)@ == old(self)@.with_child(children, father, mother),
            old(self).wf() ==> final(self).wf(),
    {
        let key = children_key(father, mother);
        let mut list = match self.kitties_children.remove(&key) {
            Some(v) => v,
            None => Vec::new(),
        };
        list.push(children);
        self.kitties_children.insert(key, list);
        proof {
            let exp = old(self)@.with_child(children, father, mother);
            assert forall|k: (u32, u32)| #[trigger] self@.kitties_children.contains_key(k)
                == exp.kitties_children.contains_key(k) && (exp.kitties_children.contains_key(k)
                ==> self@.kitties_children[k] == exp.kitties_children[k]) by {
                lemma_pair_key_injective(k.0, k.1, father, mother);
            }
            assert(self@.kitties_children =~= exp.kitties_children);
            assert(self@ =~= exp);
        }
    }

    /// Sets the siblings of `kitty_id` to the other children of its parents.
    pub fn update_kitties_sibling(&mut self, kitty_id: u32)
        ensures
            final(self)@ == old(self)@.with_siblings(kitty_id),
            old(self).wf() ==> final(self).wf(),
    {
        let (father, mother) = self.kitty_parents(kitty_id);
        let key = children_key(father, mother);
        let reserve_val = match self.kitties_children.get(&key) {
            Some(val) => others_of(val, kitty_id),
            None => others_of(&Vec::new(), kitty_id),
        };
        self.kitties_sibling.insert(kitty_id, reserve_val);
        proof {
            let exp = old(self)@.with_siblings(kitty_id);
            assert(self@.kitties_sibling =~= exp.kitties_sibling);
            assert(self@ =~= exp);
        }
    }

    /// Records `partner2` as a partner of `partner1` unless it already is one.
    pub fn update_kitties_partner(&mut self, partner1: u32, partner2: u32)
        ensures
            final(self)@ == old(self)@.with_partner(partner1, partner2),
            old(self).wf() ==> final(self).wf(),
    {
        match self.kitties_partner.remove(&partner1) {
            Some(mut val) => {
                if !vec_contains(&val, partner2) {
                    val.push(partner2);
                }
                self.kitties_partner.insert(partner1, val);
            },
            None => {
                let mut val = Vec::new();
                val.push(partner2);
                self.kitties_partner.insert(partner1, val);
            },
        }
        proof {
            let exp = old(self)@.with_partner(partner1, partner2);
            assert(self@.kitties_partner =~= exp.kitties_partner);
            assert(self@ =~= exp);
            if old(self).wf() {
                lemma_partner_added(old(self)@.kitties_partner, partner1, partner2);
            }
        }
    }

    /// Breeds a new kitty for `sender` from two kitties it owns.
    pub fn do_breed<T: Trait>(&mut self, rt: &mut T, sender: u64, kitty_id_1: u32, kitty_id_2: u32) -> (r:
        Result<u32, DispatchError<Error>>)
        requires
            old(self).wf(),
        ensures
            final(self).wf(),
            balances_kept(*old(rt), *final(rt)),
            forall|who: u64, value: u64| #[trigger] final(rt).reserve_outcome(who, value)
                == old(rt).reserve_outcome(who, value),
            match breed_error(old(self)@, sender, kitty_id_1, kitty_id_2) {
                Some(e) => r == Err::<u32, DispatchError<Error>>(e) && final(self)@ == old(self)@,
                None => r == Ok::<u32, DispatchError<Error>>(old(self)@.kitties_count) && exists|
                    dna: [u8; 16],
                |
                    #[trigger] is_bred_dna(
                        dna,
                        old(self)@.kitties[kitty_id_1].0,
                        old(self)@.kitties[kitty_id_2].0,
                        sender,
                        old(self)@.extrinsic_index,
                    ) && final(self)@ == old(self)@.bred(sender, kitty_id_1, kitty_id_2, dna),
            },
    {
        self.breed_check(sender, kitty_id_1, kitty_id_2)?;
        let seed = rt.random_seed();
        let kitty_id = self.breed_with_seed(sender, kitty_id_1, kitty_id_2, seed);
        proof {
            let dna = self@.kitties[kitty_id].0;
            assert(seed@.len() == 32);
            assert(dna@ == bred_dna_view(
                old(self)@.kitties[kitty_id_1].0@,
                old(self)@.kitties[kitty_id_2].0@,
                blake2_128_digest(random_payload(seed@, sender, old(self)@.extrinsic_index)),
            ));
            assert(is_bred_dna(
                dna,
                old(self)@.kitties[kitty_id_1].0,
                old(self)@.kitties[kitty_id_2].0,
                sender,
                old(self)@.extrinsic_index,
            ));
        }
        Ok(kitty_id)
    }

    /// Checks that `sender` may breed `kitty_id_1` with `kitty_id_2`.
    pub fn breed_check(&self, sender: u64, kitty_id_1: u32, kitty_id_2: u32) -> (r: Result<
        (),
        DispatchError<Error>,
    >)
        requires
            self.wf(),
        ensures
            r == match breed_error(self@, sender, kitty_id_1, kitty_id_2) {
                Some(e) => Err::<(), DispatchError<Error>>(e),
                None => Ok::<(), DispatchError<Error>>(()),
            },
    {
        if self.kitties(kitty_id_1).is_none() || self.kitties(kitty_id_2).is_none() {
            return Err(DispatchError::Module(Error::InvalidKittyId));
        }
        if !self.owns(sender, kitty_id_1) || !self.owns(sender, kitty_id_2) {
            return Err(DispatchError::Module(Error::RequireOwner));
        }
        if kitty_id_1 == kitty_id_2 {
            return Err(DispatchError::Module(Error::RequireDifferentParent));
        }
        self.next_kitty_id()?;
        Ok(())
    }

    /// Breeds the kitty that `seed` gives for `sender` from `kitty_id_1` and
    /// `kitty_id_2`, once breeding them is allowed: the selector is the random
    /// value of `seed`, and the kitty gets the next index.
    pub fn breed_with_seed(&mut self, sender: u64, kitty_id_1: u32, kitty_id_2: u32, seed: [u8; 32]) -> (r:
        u32)
        requires
            old(self).wf(),
            breed_error(old(self)@, sender, kitty_id_1, kitty_id_2) is None,
        ensures
            final(self).wf(),
            r == old(self)@.kitties_count,
            final(self)@.kitties[r].0@ == bred_dna_view(
                old(self)@.kitties[kitty_id_1].0@,
                old(self)@.kitties[kitty_id_2].0@,
                random_from_seed(seed@, sender, old(self)@.extrinsic_index),
            ),
            final(self)@ == old(self)@.bred(sender, kitty_id_1, kitty_id_2, final(self)@.kitties[r].0),
    {
        let kitty1 = match self.kitties(kitty_id_1) {
            Some(k) => k,
            None => {
                proof {
                    assert(false);
                }
                HelloKitty([0u8; 16])
            },
        };
        let kitty2 = match self.kitties(kitty_id_2) {
            Some(k) => k,
            None => {
                proof {
                    assert(false);
                }
                HelloKitty([0u8; 16])
            },
        };
        let kitty_id = self.kitties_count;
        let selector = random_value(sender, seed, self.extrinsic_index);
        let new_dna = breed_dna(kitty1.0, kitty2.0, selector);
        proof {
            assert(new_dna@ =~= bred_dna_view(
                kitty1.0@,
                kitty2.0@,
                random_from_seed(seed@, sender, old(self)@.extrinsic_index),
            ));
            lemma_bred(old(self)@, sender, kitty_id_1, kitty_id_2, new_dna);
        }
        self.insert_kitty(sender, kitty_id, HelloKitty(new_dna));
        self.update_kitties_partner(kitty_id_1, kitty_id_2);
        self.update_kitties_partner(kitty_id_2, kitty_id_1);
        self.update_kitties_parents(kitty_id, kitty_id_1, kitty_id_2);
        self.update_kitties_children(kitty_id, kitty_id_1, kitty_id_2);
        self.update_kitties_sibling(kitty_id);
        kitty_id
    }

    /// Creates the kitty that `seed` gives for `sender`, under the next index:
    /// its DNA is the random value of `seed`.
    pub fn create_with_seed(&mut self, sender: u64, seed: [u8; 32]) -> (r: u32)
        requires
            old(self).wf(),
            old(self)@.kitties_count < u32::MAX,
        ensures
            final(self).wf(),
            r == old(self)@.kitties_count,
            final(self)@.kitties[r].0@ == random_from_seed(seed@, sender, old(self)@.extrinsic_index),
            final(self)@ == old(self)@.with_kitty(sender, r, final(self)@.kitties[r]),
    {
        let kitty_id = self.kitties_count;
        let dna = random_value(sender, seed, self.extrinsic_index);
        self.insert_kitty(sender, kitty_id, HelloKitty(dna));
        kitty_id
    }

    /// Creates a kitty with a random DNA for the signer, reserves `amount` of
    /// its funds (a failed reservation is ignored) and reports the kitty.
    pub fn create<T: Trait>(&mut self, rt: &mut T, origin: Origin, amount: u64) -> (r: DispatchResult<Error>)
        requires
            old(self).wf(),
        ensures
            final(self).wf(),
            match signer_of::<Error>(origin) {
                Err(e) => r == Err::<(), DispatchError<Error>>(e) && final(self)@ == old(self)@
                    && balances_kept(*old(rt), *final(rt)),
                Ok(sender) => match next_id_spec(old(self)@) {
                    Err(e) => r == Err::<(), DispatchError<Error>>(e) && final(self)@ == old(self)@
                        && balances_kept(*old(rt), *final(rt)),
                    Ok(kitty_id) => r == Ok::<(), DispatchError<Error>>(()) && exists|dna: [u8; 16]|
                        #[trigger] is_random_value(dna, sender, old(self)@.extrinsic_index)
                            && after_reservation(
                            old(self)@.with_kitty(sender, kitty_id, HelloKitty(dna)),
                            final(self)@,
                            *old(rt),
                            *final(rt),
                            sender,
                            amount,
                            Event::Created(sender, kitty_id),
                        ),
                },
            },
    {
        let origin_c = origin;
        let sender = ensure_signed(origin)?;
        self.next_kitty_id()?;
        let seed = rt.random_seed();
        let kitty_id = self.create_with_seed(sender, seed);
        proof {
            let dna = self@.kitties[kitty_id].0;
            assert(seed@.len() == 32);
            assert(dna@ == blake2_128_digest(random_payload(seed@, sender, old(self)@.extrinsic_index)));
            assert(is_random_value(dna, sender, old(self)@.extrinsic_index));
        }
        let _ = self.reserve_funds(rt, origin_c, amount);
        self.deposit_event(Event::Created(sender, kitty_id));
        Ok(())
    }

    /// Breeds a kitty for the signer from two of its kitties, reserves
    /// `amount` of its funds (a failed reservation is ignored) and reports
    /// the new kitty.
    pub fn breed<T: Trait>(
        &mut self,
        rt: &mut T,
        origin: Origin,
        kitty_id_1: u32,
        kitty_id_2: u32,
        amount: u64,
    ) -> (r: DispatchResult<Error>)
        requires
            old(self).wf(),
        ensures
            final(self).wf(),
            match signer_of::<Error>(origin) {
                Err(e) => r == Err::<(), DispatchError<Error>>(e) && final(self)@ == old(self)@
                    && balances_kept(*old(rt), *final(rt)),
                Ok(sender) => match breed_error(old(self)@, sender, kitty_id_1, kitty_id_2) {
                    Some(e) => r == Err::<(), DispatchError<Error>>(e) && final(self)@ == old(self)@
                        && balances_kept(*old(rt), *final(rt)),
                    None => r == Ok::<(), DispatchError<Error>>(()) && exists|dna: [u8; 16]|
                        #[trigger] is_bred_dna(
                            dna,
                            old(self)@.kitties[kitty_id_1].0,
                            old(self)@.kitties[kitty_id_2].0,
                            sender,
                            old(self)@.extrinsic_index,
                        ) && after_reservation(
                            old(self)@.bred(sender, kitty_id_1, kitty_id_2, dna),
                            final(self)@,
                            *old(rt),
                            *final(rt),
                            sender,
                            amount,
                            Event::Created(sender, old(self)@.kitties_count),
                        ),
                },
            },
    {
        let origin_c = origin;
        let sender = ensure_signed(origin)?;
        let new_kitty_id = self.do_breed(rt, sender, kitty_id_1, kitty_id_2)?;
        let _ = self.reserve_funds(rt, origin_c, amount);
        self.deposit_event(Event::Created(sender, new_kitty_id));
        Ok(())
    }

    /// Gives kitty `kitty_id` of the signer to `to`, unreserves `amount` of
    /// the signer's funds and reports the transfer.
    pub fn transfer<T: Trait>(
        &mut self,
        rt: &mut T,
        origin: Origin,
        to: u64,
        kitty_id: u32,
        amount: u64,
    ) -> (r: DispatchResult<Error>)
        requires
            old(self).wf(),
        ensures
            final(self).wf(),
            match signer_of::<Error>(origin) {
                Err(e) => r == Err::<(), DispatchError<Error>>(e) && final(self)@ == old(self)@
                    && balances_kept(*old(rt), *final(rt)),
                Ok(sender) => if !old(self)@.owns(sender, kitty_id) {
                    r == Err::<(), DispatchError<Error>>(DispatchError::Module(Error::RequireOwner))
                        && final(self)@ == old(self)@ && balances_kept(*old(rt), *final(rt))
                } else {
                    r == Ok::<(), DispatchError<Error>>(()) && final(self)@ == old(self)@.transferred(sender, to, kitty_id).with_event(
                        Event::UnlockFunds(sender, amount, old(self)@.block_number),
                    ).with_event(Event::Transferred(sender, to, kitty_id)) && reserve_shifted(
                        *old(rt),
                        *final(rt),
                        sender,
                        -(unreservable(old(rt).reserved_of(sender), amount) as int),
                    )
                },
            },
    {
        let origin_c = origin;
        let sender = ensure_signed(origin)?;
        if !self.owns(sender, kitty_id) {
            return Err(DispatchError::Module(Error::RequireOwner));
        }
        self.do_transfer(sender, to, kitty_id);
        let _ = self.unreserve_funds(rt, origin_c, amount);
        self.deposit_event(Event::Transferred(sender, to, kitty_id));
        Ok(())
    }

    /// Sets the price of a kitty of the signer; `None` takes it off sale.
    pub fn ask(&mut self, origin: Origin, kitty_id: u32, new_price: Option<u64>) -> (r: DispatchResult<Error>)
        requires
            old(self).wf(),
        ensures
            final(self).wf(),
            match signer_of::<Error>(origin) {
                Err(e) => r == Err::<(), DispatchError<Error>>(e) && final(self)@ == old(self)@,
                Ok(sender) => if !old(self)@.owns(sender, kitty_id) {
                    r == Err::<(), DispatchError<Error>>(DispatchError::Module(Error::RequireOwner))
                        && final(self)@ == old(self)@
                } else {
                    r == Ok::<(), DispatchError<Error>>(()) && final(self)@ == old(self)@.priced(
                        kitty_id,
                        new_price,
                    ).with_event(Event::Ask(sender, kitty_id, new_price))
                },
            },
    {
        let sender = ensure_signed(origin)?;
        if !self.owns(sender, kitty_id) {
            return Err(DispatchError::Module(Error::RequireOwner));
        }
        match new_price {
            Some(p) => {
                self.kitty_prices.insert(kitty_id, p);
            },
            None => {
                self.kitty_prices.remove(&kitty_id);
            },
        }
        assert(self@ =~= old(self)@.priced(kitty_id, new_price));
        self.deposit_event(Event::Ask(sender, kitty_id, new_price));
        Ok(())
    }

    /// The seller and the asked price of `kitty_id` for a buyer offering
    /// `price`: the kitty must exist, be for sale, and ask no more than `price`.
    pub fn sale_terms(&self, kitty_id: u32, price: u64) -> (r: Result<(u64, u64), DispatchError<Error>>)
        ensures
            r == buy_terms(self@, kitty_id, price),
    {
        let owner = match self.kitty_owner(kitty_id) {
            Some(o) => o,
            None => return Err(DispatchError::Module(Error::InvalidKittyId)),
        };
        let kitty_price = match self.kitty_price(kitty_id) {
            Some(p) => p,
            None => return Err(DispatchError::Module(Error::NotForSale)),
        };
        if !(price >= kitty_price) {
            return Err(DispatchError::Module(Error::PriceTooLow));
        }
        Ok((owner, kitty_price))
    }

    /// Buys kitty `kitty_id` for the signer, offering `price`: the asked price
    /// is paid to the owner, the kitty taken off sale and given to the signer.
    pub fn buy<T: Trait>(&mut self, rt: &mut T, origin: Origin, kitty_id: u32, price: u64) -> (r:
        DispatchResult<Error>)
        requires
            old(self).wf(),
        ensures
            final(self).wf(),
            match signer_of::<Error>(origin) {
                Err(e) => r == Err::<(), DispatchError<Error>>(e) && final(self)@ == old(self)@
                    && balances_kept(*old(rt), *final(rt)),
                Ok(sender) => match buy_terms(old(self)@, kitty_id, price) {
                    Err(e) => r == Err::<(), DispatchError<Error>>(e) && final(self)@ == old(self)@
                        && balances_kept(*old(rt), *final(rt)),
                    Ok((owner, kitty_price)) => match old(rt).transfer_outcome(
                        sender,
                        owner,
                        kitty_price,
                        ExistenceRequirement::KeepAlive,
                    ) {
                        Ok(_) => {
                            &&& r == Ok::<(), DispatchError<Error>>(())
                            &&& final(self)@ == old(self)@.sold(owner, sender, kitty_id, kitty_price)
                            &&& payment_made(
                                *old(rt),
                                *final(rt),
                                sender,
                                owner,
                                kitty_price as nat,
                                ExistenceRequirement::KeepAlive,
                            )
                        },
                        Err(e) => {
                            &&& r == Err::<(), DispatchError<Error>>(e)
                            &&& final(self)@ == old(self)@
                            &&& balances_kept(*old(rt), *final(rt))
                        },
                    },
                },
            },
    {
        let sender = ensure_signed(origin)?;
        let (owner, kitty_price) = self.sale_terms(kitty_id, price)?;
        let paid = rt.transfer(sender, owner, kitty_price, ExistenceRequirement::KeepAlive);
        self.settle_purchase(paid, owner, sender, kitty_id, kitty_price)
    }

    /// Completes a purchase of `kitty_id` by `buyer` from its owner `seller`
    /// at `price`, given the outcome of the payment: once paid the kitty is
    /// taken off sale, given to the buyer and the sale reported; an unpaid
    /// purchase changes nothing and fails with the payment's error.
    pub fn settle_purchase(
        &mut self,
        paid: DispatchResult<Error>,
        seller: u64,
        buyer: u64,
        kitty_id: u32,
        price: u64,
    ) -> (r: DispatchResult<Error>)
        requires
            old(self).wf(),
            old(self)@.kitty_owners.contains_key(kitty_id),
            old(self)@.kitty_owners[kitty_id] == seller,
        ensures
            final(self).wf(),
            paid is Ok ==> r == Ok::<(), DispatchError<Error>>(()) && final(self)@ == old(
                self,
            )@.sold(seller, buyer, kitty_id, price),
            paid is Err ==> r == paid && final(self)@ == old(self)@,
    {
        if paid.is_err() {
            return paid;
        }
        let ghost before = self@;
        self.kitty_prices.remove(&kitty_id);
        proof {
            assert(self@ =~= before.priced(kitty_id, None));
            lemma_sold(before, seller, buyer, kitty_id, price);
            assert(self@.owns(seller, kitty_id));
        }
        self.do_transfer(seller, buyer, kitty_id);
        self.deposit_event(Event::Sold(seller, buyer, kitty_id, price));
        Ok(())
    }

    /// Reserves `amount` of the signer's funds and reports it.
    pub fn reserve_funds<T: Trait>(&mut self, rt: &mut T, origin: Origin, amount: u64) -> (r:
        DispatchResult<Error>)
        ensures
            old(self).wf() ==> final(self).wf(),
            match signer_of::<Error>(origin) {
                Err(e) => r == Err::<(), DispatchError<Error>>(e) && final(self)@ == old(self)@
                    && balances_kept(*old(rt), *final(rt)),
                Ok(locker) => if old(rt).reserve_outcome(locker, amount) is Ok {
                    &&& r == Ok::<(), DispatchError<Error>>(())
                    &&& final(self)@ == old(self)@.with_event(
                        Event::LockFunds(locker, amount, old(self)@.block_number),
                    )
                    &&& reserve_shifted(*old(rt), *final(rt), locker, amount as int)
                } else {
                    &&& r == Err::<(), DispatchError<Error>>(DispatchError::Other(CANNOT_LOCK))
                    &&& final(self)@ == old(self)@
                    &&& balances_kept(*old(rt), *final(rt))
                },
            },
    {
        let locker = ensure_signed(origin)?;
        let reserved = rt.reserve(locker, amount);
        self.settle_reservation(reserved, locker, amount)
    }

    /// Completes a reservation of `amount` for `locker`, given its outcome:
    /// a reservation made is reported; a refused one changes nothing and
    /// fails with `CANNOT_LOCK`.
    pub fn settle_reservation(&mut self, reserved: DispatchResult<Error>, locker: u64, amount: u64) -> (r:
        DispatchResult<Error>)
        ensures
            old(self).wf() ==> final(self).wf(),
            reserved is Ok ==> r == Ok::<(), DispatchError<Error>>(()) && final(self)@ == old(
                self,
            )@.with_event(Event::LockFunds(locker, amount, old(self)@.block_number)),
            reserved is Err ==> r == Err::<(), DispatchError<Error>>(DispatchError::Other(CANNOT_LOCK))
                && final(self)@ == old(self)@,
    {
        if reserved.is_err() {
            return Err(DispatchError::Other(CANNOT_LOCK));
        }
        let now = self.block_number;
        self.deposit_event(Event::LockFunds(locker, amount, now));
        Ok(())
    }

    /// Unreserves up to `amount` of the signer's funds and reports it.
    pub fn unreserve_funds<T: Trait>(&mut self, rt: &mut T, origin: Origin, amount: u64) -> (r:
        DispatchResult<Error>)
        ensures
            old(self).wf() ==> final(self).wf(),
            match signer_of::<Error>(origin) {
                Err(e) => r == Err::<(), DispatchError<Error>>(e) && final(self)@ == old(self)@
                    && balances_kept(*old(rt), *final(rt)),
                Ok(unlocker) => r == Ok::<(), DispatchError<Error>>(()) && final(self)@ == old(
                    self,
                )@.with_event(Event::UnlockFunds(unlocker, amount, old(self)@.block_number))
                    && reserve_shifted(
                    *old(rt),
                    *final(rt),
                    unlocker,
                    -(unreservable(old(rt).reserved_of(unlocker), amount) as int),
                ),
            },
    {
        let unlocker = ensure_signed(origin)?;
        let _ = rt.unreserve(unlocker, amount);
        let now = self.block_number;
        self.deposit_event(Event::UnlockFunds(unlocker, amount, now));
        Ok(())
    }

    /// Transfers `amount` from the signer to `dest` and reports it.
    pub fn transfer_funds<T: Trait>(&mut self, rt: &mut T, origin: Origin, dest: u64, amount: u64) -> (r:
        DispatchResult<Error>)
        ensures
            old(self).wf() ==> final(self).wf(),
            match signer_of::<Error>(origin) {
                Err(e) => r == Err::<(), DispatchError<Error>>(e) && final(self)@ == old(self)@
                    && balances_kept(*old(rt), *final(rt)),
                Ok(sender) => match old(rt).transfer_outcome(
                    sender,
                    dest,
                    amount,
                    ExistenceRequirement::AllowDeath,
                ) {
                    Ok(_) => {
                        &&& r == Ok::<(), DispatchError<Error>>(())
                        &&& final(self)@ == old(self)@.with_event(
                            Event::TransferFunds(sender, dest, amount, old(self)@.block_number),
                        )
                        &&& payment_made(
                            *old(rt),
                            *final(rt),
                            sender,
                            dest,
                            amount as nat,
                            ExistenceRequirement::AllowDeath,
                        )
                    },
                    Err(e) => {
                        &&& r == Err::<(), DispatchError<Error>>(e)
                        &&& final(self)@ == old(self)@
                        &&& balances_kept(*old(rt), *final(rt))
                    },
                },
            },
    {
        let sender = ensure_signed(origin)?;
        let paid = rt.transfer(sender, dest, amount, ExistenceRequirement::AllowDeath);
        self.settle_funds_transfer(paid, sender, dest, amount)
    }

    /// Completes a transfer of `amount` from `sender` to `dest`, given its
    /// outcome: a transfer made is reported; a failed one changes nothing and
    /// fails with its error.
    pub fn settle_funds_transfer(
        &mut self,
        paid: DispatchResult<Error>,
        sender: u64,
        dest: u64,
        amount: u64,
    ) -> (r: DispatchResult<Error>)
        ensures
            old(self).wf() ==> final(self).wf(),
            paid is Ok ==> r == Ok::<(), DispatchError<Error>>(()) && final(self)@ == old(
                self,
            )@.with_event(Event::TransferFunds(sender, dest, amount, old(self)@.block_number)),
            paid is Err ==> r == paid && final(self)@ == old(self)@,
    {
        if paid.is_err() {
            return paid;
        }
        let now = self.block_number;
        self.deposit_event(Event::TransferFunds(sender, dest, amount, now));
        Ok(())
    }

    /// Unreserves up to `collateral` of the funds of `to_punish` and
    /// transfers what was unreserved to `dest`.
    pub fn unreserve_and_transfer<T: Trait>(
        &mut self,
        rt: &mut T,
        origin: Origin,
        to_punish: u64,
        dest: u64,
        collateral: u64,
    ) -> (r: DispatchResult<Error>)
        ensures
            old(self).wf() ==> final(self).wf(),
            match signer_of::<Error>(origin) {
                Err(e) => r == Err::<(), DispatchError<Error>>(e) && final(self)@ == old(self)@
                    && balances_kept(*old(rt), *final(rt)),
                Ok(_) => after_punishment(
                    old(self)@,
                    final(self)@,
                    *old(rt),
                    *final(rt),
                    to_punish,
                    dest,
                    collateral,
                    r,
                ),
            },
    {
        let _ = ensure_signed(origin)?;
        let overdraft = rt.unreserve(to_punish, collateral);
        let ghost unreserved = *rt;
        let moved = unreserved_amount(collateral, overdraft);
        let paid = rt.transfer(to_punish, dest, moved, ExistenceRequirement::AllowDeath);
        let r = self.settle_funds_transfer(paid, to_punish, dest, moved);
        proof {
            assert(reserve_shifted(
                *old(rt),
                unreserved,
                to_punish,
                -(unreservable(old(rt).reserved_of(to_punish), collateral) as int),
            ));
        }
        r
    }

}

} // verus!
