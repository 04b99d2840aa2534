//! The choice of destination for each transaction.

use crate::chain::AccountId;
use crate::rng;
use crate::rng::Rng;
use crate::text::owned;
use vstd::prelude::*;

verus! {

/// How to pick the destination for each transaction.
#[derive(Clone, Copy, Debug, PartialEq, Eq, Structural)]
pub enum DestMode {
    /// Cycle through the list in order.
    RoundRobin,
    /// Pick a uniformly random entry each time.
    Random,
}

/// Chooses a destination from a fixed, non-empty list.
#[derive(Debug)]
pub struct DestSelector {
    dests: Vec<AccountId>,
    mode: DestMode,
    cursor: usize,
}

/// The texts of a list of accounts.
pub open spec fn texts(accounts: Seq<AccountId>) -> Seq<Seq<char>> {
    accounts.map_values(|a: AccountId| a@)
}

impl DestSelector {
    /// The list.
    pub closed spec fn list(&self) -> Seq<Seq<char>> {
        texts(self.dests@)
    }

    /// How an entry is picked.
    pub closed spec fn spec_mode(&self) -> DestMode {
        self.mode
    }

    /// Where the cycle stands.
    pub closed spec fn cursor(&self) -> int {
        self.cursor as int
    }

    /// The cycle stands on an entry of the list.
    pub open spec fn wf(&self) -> bool {
        0 <= self.cursor() < self.list().len()
    }

    /// Build a selector. Fails if the destination list is empty.
    pub fn new(dests: Vec<AccountId>, mode: DestMode) -> (r: Result<Self, String>)
        ensures
            r is Ok <==> dests@.len() > 0,
            r matches Ok(s) ==> s.wf() && s.list() == texts(dests@) && s.spec_mode() == mode
                && s.cursor() == 0,
            r matches Err(e) ==> e@ == "add at least one destination address"@,
    {
        if dests.len() == 0 {
            return Err(owned("add at least one destination address"));
        }
        Ok(DestSelector { dests, mode, cursor: 0 })
    }

    /// The next destination. The generator is consulted only in random mode.
    pub fn next(&mut self, rng: &mut Rng) -> (a: AccountId)
        requires
            old(self).wf(),
        ensures
            final(self).wf(),
            final(self).list() == old(self).list(),
            final(self).spec_mode() == old(self).spec_mode(),
            match old(self).spec_mode() {
                DestMode::RoundRobin => {
                    &&& a@ == old(self).list()[old(self).cursor()]
                    &&& final(self).cursor() == cycled(old(self).cursor(), old(self).list().len())
                    &&& final(rng)@ == old(rng)@
                },
                DestMode::Random => {
                    &&& a@ == old(self).list()[rng::drawn(
                        old(rng)@,
                        old(self).list().len(),
                    ) as int]
                    &&& final(self).cursor() == old(self).cursor()
                    &&& final(rng)@ == rng::after_draw(old(rng)@)
                },
            },
            old(rng).wf() ==> final(rng).wf(),
    {
        let n: usize = self.dests.len();
        let idx: usize = match self.mode {
            DestMode::RoundRobin => {
                let i: usize = self.cursor;
                self.cursor = if i + 1 == n {
                    0
                } else {
                    i + 1
                };
                assert(self.cursor == cycled(i as int, n as nat)) by {
                    if i + 1 == n {
                        vstd::arithmetic::div_mod::lemma_mod_self_0(n as int);
                    } else {
                        vstd::arithmetic::div_mod::lemma_small_mod((i + 1) as nat, n as nat);
                    }
                }
                i
            },
            DestMode::Random => {
                let i: u128 = rng.below(n as u128);
                i as usize
            },
        };
        self.dests[idx].clone()
    }
}

/// The entry after `cursor` in a cycle of `n`.
pub open spec fn cycled(cursor: int, n: nat) -> int {
    (cursor + 1) % (n as int)
}

/// Where a cycle of `n` stands after `k` picks.
pub open spec fn cycled_many(n: nat, k: nat) -> int
    decreases k,
{
    if k == 0 {
        0
    } else {
        cycled(cycled_many(n, (k - 1) as nat), n)
    }
}

/// Round robin pays every destination in turn: the `k`-th pick is entry `k` modulo
/// the length of the list.
pub proof fn law_round_robin_pays_everyone_in_turn(n: nat, k: nat)
    requires
        n > 0,
    ensures
        cycled_many(n, k) == k % n,
    decreases k,
{
    if k == 0 {
        vstd::arithmetic::div_mod::lemma_small_mod(0, n);
    } else {
        law_round_robin_pays_everyone_in_turn(n, (k - 1) as nat);
        vstd::arithmetic::div_mod::lemma_add_mod_noop(k - 1, 1, n as int);
        vstd::arithmetic::div_mod::lemma_add_mod_noop((k - 1) % n as int, 1, n as int);
        vstd::arithmetic::div_mod::lemma_mod_twice(k - 1, n as int);
    }
}

} // verus!
