//! A runtime for the kitty pallet that keeps its currency in memory: the
//! free and reserved balance of each account, and a counter as the source of
//! seeds. It meets the contract of `hellokitty::Trait`.
use crate::dispatch::{DispatchError, DispatchResult};
use crate::hellokitty::{unreservable, Error, ExistenceRequirement, Trait};
use std::collections::HashMap;
use vstd::prelude::*;

verus! {

broadcast use vstd::std_specs::hash::group_hash_axioms;

/// The balance that `m` holds for `who`; none held is 0.
pub open spec fn held(m: Map<u64, u64>, who: u64) -> nat {
    if m.contains_key(who) {
        m[who] as nat
    } else {
        0
    }
}

/// The balance of `who` in `m`.
fn balance_in(m: &HashMap<u64, u64>, who: u64) -> (r: u64)
    ensures
        r == held(m@, who),
{
    match m.get(&who) {
        Some(b) => *b,
        None => 0,
    }
}

/// The free balance and the reserved balance of each account together fit
/// in a `u64`.
pub open spec fn fits(free: Map<u64, u64>, reserved: Map<u64, u64>) -> bool {
    forall|w: u64|
        #![trigger held(free, w)]
        #![trigger held(reserved, w)]
        held(free, w) + held(reserved, w) <= u64::MAX
}

/// A currency held in memory, and a counter that gives the seeds.
pub struct InMemoryRuntime {
    free: HashMap<u64, u64>,
    reserved: HashMap<u64, u64>,
    seed: u8,
}

impl InMemoryRuntime {
    /// The balances of each account fit in a `u64`.
    #[verifier::type_invariant]
    spec fn balances_fit(self) -> bool {
        fits(self.free@, self.reserved@)
    }

    /// A runtime in which no account holds anything.
    pub fn new() -> (r: InMemoryRuntime)
        ensures
            forall|w: u64| #[trigger] r.free_of(w) == 0,
            forall|w: u64| #[trigger] r.reserved_of(w) == 0,
    {
        InMemoryRuntime { free: HashMap::new(), reserved: HashMap::new(), seed: 0 }
    }

    /// This runtime with the free balance of `who` set to `amount`, where
    /// that fits beside what `who` has reserved; else unchanged.
    pub fn with_balance(self, who: u64, amount: u64) -> (r: InMemoryRuntime)
        ensures
            self.reserved_of(who) + amount <= u64::MAX ==> r.free_of(who) == amount,
            self.reserved_of(who) + amount > u64::MAX ==> r.free_of(who) == self.free_of(who),
            forall|w: u64| w != who ==> #[trigger] r.free_of(w) == self.free_of(w),
            forall|w: u64| #[trigger] r.reserved_of(w) == self.reserved_of(w),
    {
        proof {
            use_type_invariant(&self);
        }
        let mut r = self;
        let reserved = balance_in(&r.reserved, who);
        if amount <= u64::MAX - reserved {
            let mut free = HashMap::new();
            std::mem::swap(&mut free, &mut r.free);
            free.insert(who, amount);
            proof {
                assert forall|w: u64| w != who implies #[trigger] held(free@, w) == held(self.free@, w)
                    by {}
                assert(fits(free@, r.reserved@));
            }
            r.free = free;
        }
        r
    }

    /// The free balance of `who`.
    pub fn free(&self, who: u64) -> (r: u64)
        ensures
            r == self.free_of(who),
    {
        balance_in(&self.free, who)
    }

    /// The reserved balance of `who`.
    pub fn reserved(&self, who: u64) -> (r: u64)
        ensures
            r == self.reserved_of(who),
    {
        balance_in(&self.reserved, who)
    }
}

impl Trait for InMemoryRuntime {
    closed spec fn free_of(&self, who: u64) -> nat {
        held(self.free@, who)
    }

    closed spec fn reserved_of(&self, who: u64) -> nat {
        held(self.reserved@, who)
    }

    /// Nothing to move is accepted; else `InsufficientBalance` where `source`
    /// has less than `value` free, `Overflow` where `dest` cannot hold
    /// `value` more.
    closed spec fn transfer_outcome(
        &self,
        source: u64,
        dest: u64,
        value: u64,
        existence: ExistenceRequirement,
    ) -> DispatchResult<Error> {
        if value == 0 || source == dest {
            Ok(())
        } else if held(self.free@, source) < value {
            Err(DispatchError::Other("InsufficientBalance"))
        } else if held(self.free@, dest) + held(self.reserved@, dest) + value > u64::MAX {
            Err(DispatchError::Other("Overflow"))
        } else {
            Ok(())
        }
    }

    /// `InsufficientBalance` where `who` has less than `value` free.
    closed spec fn reserve_outcome(&self, who: u64, value: u64) -> DispatchResult<Error> {
        if held(self.free@, who) < value {
            Err(DispatchError::Other("InsufficientBalance"))
        } else {
            Ok(())
        }
    }

    /// The next value of the counter, in every byte.
    fn random_seed(&mut self) -> (r: [u8; 32]) {
        proof {
            use_type_invariant(&*self);
        }
        self.seed = self.seed.wrapping_add(1);
        [self.seed; 32]
    }

    /// Fails with `InsufficientBalance` where `source` has less than `value`
    /// free, and with `Overflow` where `dest` cannot hold `value` more.
    fn transfer(
        &mut self,
        source: u64,
        dest: u64,
        value: u64,
        existence: ExistenceRequirement,
    ) -> (r: DispatchResult<Error>) {
        proof {
            use_type_invariant(&*self);
        }
        if value == 0 || source == dest {
            return Ok(());
        }
        let from = balance_in(&self.free, source);
        if from < value {
            return Err(DispatchError::Other("InsufficientBalance"));
        }
        let to = balance_in(&self.free, dest);
        let to_reserved = balance_in(&self.reserved, dest);
        proof {
            assert(held(self.free@, dest) + held(self.reserved@, dest) <= u64::MAX);
        }
        if value > u64::MAX - to_reserved - to {
            return Err(DispatchError::Other("Overflow"));
        }
        let ghost before = self.free@;
        let mut free = HashMap::new();
        std::mem::swap(&mut free, &mut self.free);
        free.insert(source, from - value);
        free.insert(dest, to + value);
        proof {
            assert forall|w: u64| w != source && w != dest implies #[trigger] held(free@, w)
                == held(before, w) by {}
            assert forall|w: u64| #![trigger held(free@, w)] #![trigger held(self.reserved@, w)]
                held(free@, w) + held(self.reserved@, w) <= u64::MAX by {
                assert(held(before, w) + held(self.reserved@, w) <= u64::MAX);
            }
        }
        self.free = free;
        Ok(())
    }

    /// Fails with `InsufficientBalance` where `who` has less than `value` free.
    fn reserve(&mut self, who: u64, value: u64) -> (r: DispatchResult<Error>) {
        proof {
            use_type_invariant(&*self);
        }
        let free_now = balance_in(&self.free, who);
        if free_now < value {
            return Err(DispatchError::Other("InsufficientBalance"));
        }
        let reserved_now = balance_in(&self.reserved, who);
        let ghost (free0, reserved0) = (self.free@, self.reserved@);
        let mut free = HashMap::new();
        std::mem::swap(&mut free, &mut self.free);
        let mut reserved = HashMap::new();
        std::mem::swap(&mut reserved, &mut self.reserved);
        proof {
            assert(held(free0, who) + held(reserved0, who) <= u64::MAX);
        }
        free.insert(who, free_now - value);
        reserved.insert(who, reserved_now + value);
        proof {
            assert forall|w: u64| w != who implies #[trigger] held(free@, w) == held(free0, w)
                by {}
            assert forall|w: u64| w != who implies #[trigger] held(reserved@, w) == held(
                reserved0,
                w,
            ) by {}
            assert forall|w: u64| #![trigger held(free@, w)] #![trigger held(reserved@, w)]
                held(free@, w) + held(reserved@, w) <= u64::MAX by {
                assert(held(free0, w) + held(reserved0, w) <= u64::MAX);
            }
            assert forall|w: u64| #![trigger held(free@, w)] #![trigger held(self.reserved@, w)]
                held(free@, w) + held(self.reserved@, w) <= u64::MAX by {}
        }
        self.free = free;
        self.reserved = reserved;
        Ok(())
    }

    /// Moves the smaller of `value` and the reserved balance of `who`.
    fn unreserve(&mut self, who: u64, value: u64) -> (remaining: u64) {
        proof {
            use_type_invariant(&*self);
        }
        let free_now = balance_in(&self.free, who);
        let reserved_now = balance_in(&self.reserved, who);
        let moved = if reserved_now < value {
            reserved_now
        } else {
            value
        };
        let ghost (free0, reserved0) = (self.free@, self.reserved@);
        let mut free = HashMap::new();
        std::mem::swap(&mut free, &mut self.free);
        let mut reserved = HashMap::new();
        std::mem::swap(&mut reserved, &mut self.reserved);
        proof {
            assert(held(free0, who) + held(reserved0, who) <= u64::MAX);
        }
        free.insert(who, free_now + moved);
        reserved.insert(who, reserved_now - moved);
        proof {
            assert forall|w: u64| w != who implies #[trigger] held(free@, w) == held(free0, w)
                by {}
            assert forall|w: u64| w != who implies #[trigger] held(reserved@, w) == held(
                reserved0,
                w,
            ) by {}
            assert forall|w: u64| #![trigger held(free@, w)] #![trigger held(reserved@, w)]
                held(free@, w) + held(reserved@, w) <= u64::MAX by {
                assert(held(free0, w) + held(reserved0, w) <= u64::MAX);
            }
            assert forall|w: u64| #![trigger held(free@, w)] #![trigger held(self.reserved@, w)]
                held(free@, w) + held(self.reserved@, w) <= u64::MAX by {}
        }
        self.free = free;
        self.reserved = reserved;
        value - moved
    }
}

/// The in-memory currency accepts a reservation exactly where the free
/// balance covers it.
pub proof fn lemma_reservation_accepted(rt: InMemoryRuntime, who: u64, value: u64)
    ensures
        rt.reserve_outcome(who, value) is Ok <==> rt.free_of(who) >= value,
{
}

/// The in-memory currency accepts a transfer exactly where there is nothing
/// to move, or the source's free balance covers it and the destination can
/// hold it.
pub proof fn lemma_transfer_accepted(
    rt: InMemoryRuntime,
    source: u64,
    dest: u64,
    value: u64,
    existence: ExistenceRequirement,
)
    ensures
        rt.transfer_outcome(source, dest, value, existence) is Ok <==> (value == 0 || source == dest
            || (rt.free_of(source) >= value && rt.free_of(dest) + rt.reserved_of(dest) + value
            <= u64::MAX)),
{
}

} // verus!
