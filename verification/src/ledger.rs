//! The ledger aggregate: one object owning the allocator counter, the
//! asset store, the ownership map, the per-account owned-lists, the
//! escrow balances and the notification log, together with the three
//! atomic operations — create (mint), breed and transfer.
//!
//! Every operation either reaches exactly the successor state the model
//! describes, or returns the error the model names and leaves the ledger
//! untouched.

use vstd::prelude::*;
use std::collections::HashMap;
use crate::genome::Kitty;
use crate::genome::cross;
use crate::genome::genome_for;
use crate::genome::random_genome;
use crate::model::Config;
use crate::model::Error;
use crate::model::Event;
use crate::model::EventView;
use crate::model::LedgerView;
use crate::model::initial_view;
use crate::model::lemma_record_preserves_wf;
use crate::model::breed_outcome;
use crate::model::breed_state;
use crate::model::mint_outcome;
use crate::model::mint_state;
use crate::model::lemma_transfer_preserves_wf;
use crate::model::swap_remove_value;
use crate::model::transfer_outcome;
use crate::model::transfer_state;

verus! {

broadcast use vstd::std_specs::hash::group_hash_axioms;

/// An account's balances as the escrow accountant sees them: what is
/// spendable and what is locked as bonds.
#[derive(Clone, Copy, Debug, PartialEq, Eq, Structural)]
pub struct Funds {
    /// The spendable part of the balance.
    pub free: u64,
    /// The part locked in escrow, one bond per creature owned.
    pub reserved: u64,
}

/// The whole mutable state of the registry, exclusively mutated by its
/// own operations, one call at a time.
pub struct Ledger {
    config: Config,
    next_id: u64,
    kitties: HashMap<u64, Kitty>,
    kitty_owner: HashMap<u64, u64>,
    owner_kitties: HashMap<u64, Vec<u64>>,
    balances: HashMap<u64, Funds>,
    events: Vec<Event>,
}

impl View for Ledger {
    type V = LedgerView;

    closed spec fn view(&self) -> LedgerView {
        LedgerView {
            next_id: self.next_id,
            genomes: Map::new(
                |id: u64| self.kitties@.contains_key(id),
                |id: u64| self.kitties@[id].0@,
            ),
            owner: self.kitty_owner@,
            owned: Map::new(
                |a: u64| true,
                |a: u64|
                    if self.owner_kitties@.contains_key(a) {
                        self.owner_kitties@[a]@
                    } else {
                        Seq::empty()
                    },
            ),
            free: Map::new(
                |a: u64| true,
                |a: u64|
                    if self.balances@.contains_key(a) {
                        self.balances@[a].free
                    } else {
                        0u64
                    },
            ),
            reserved: Map::new(
                |a: u64| true,
                |a: u64|
                    if self.balances@.contains_key(a) {
                        self.balances@[a].reserved
                    } else {
                        0u64
                    },
            ),
            events: Seq::new(self.events@.len(), |i: int| self.events@[i]@),
        }
    }
}

impl Ledger {
    /// The configuration the ledger was deployed with.
    pub closed spec fn config(self) -> Config {
        self.config
    }

    /// The ledger invariant: its abstract state is well formed under its
    /// own configuration.
    pub open spec fn wf(self) -> bool {
        self@.wf(self.config())
    }

    /// A freshly deployed, empty ledger under `config`.
    pub fn new(config: Config) -> (l: Ledger)
        ensures
            l.wf(),
            l.config() == config,
            l@ == initial_view(),
    {
        let l = Ledger {
            config,
            next_id: 0,
            kitties: HashMap::new(),
            kitty_owner: HashMap::new(),
            owner_kitties: HashMap::new(),
            balances: HashMap::new(),
            events: Vec::new(),
        };
        proof {
            assert(l@.genomes =~= initial_view().genomes);
            assert(l@.owned =~= initial_view().owned);
            assert(l@.free =~= initial_view().free);
            assert(l@.reserved =~= initial_view().reserved);
            assert(l@.events =~= initial_view().events);
            assert(l@ =~= initial_view());
        }
        l
    }

    /// The allocator counter: the id the next successful mint or breed
    /// will take.
    pub fn next_kitty_id(&self) -> (id: u64)
        ensures
            id == self@.next_id,
    {
        self.next_id
    }

    /// The stored creature under `kitty_id`, if it exists.
    pub fn kitties(&self, kitty_id: u64) -> (r: Option<Kitty>)
        ensures
            match r {
                Some(k) => self@.genomes.contains_key(kitty_id) && k.0@ == self@.genomes[kitty_id],
                None => !self@.genomes.contains_key(kitty_id),
            },
    {
        match self.kitties.get(&kitty_id) {
            Some(k) => Some(*k),
            None => None,
        }
    }

    /// The current owner of the creature under `kitty_id`, if it exists.
    pub fn kitty_owner(&self, kitty_id: u64) -> (r: Option<u64>)
        ensures
            match r {
                Some(a) => self@.owner.contains_key(kitty_id) && a == self@.owner[kitty_id],
                None => !self@.owner.contains_key(kitty_id),
            },
    {
        match self.kitty_owner.get(&kitty_id) {
            Some(a) => Some(*a),
            None => None,
        }
    }

    /// The owned-list of `account`; `None` stands for the empty list.
    pub fn owner_kitties(&self, account: u64) -> (r: Option<&Vec<u64>>)
        ensures
            match r {
                Some(v) => v@ == self@.owned[account],
                None => self@.owned[account] == Seq::<u64>::empty(),
            },
    {
        self.owner_kitties.get(&account)
    }

    /// The spendable balance of `account`.
    pub fn free_balance(&self, account: u64) -> (r: u64)
        ensures
            r == self@.free[account],
    {
        self.funds_of(account).free
    }

    /// The escrow-locked balance of `account`.
    pub fn reserved_balance(&self, account: u64) -> (r: u64)
        ensures
            r == self@.reserved[account],
    {
        self.funds_of(account).reserved
    }

    /// Every notification emitted so far, oldest first.
    pub fn events(&self) -> (r: &Vec<Event>)
        ensures
            r@.len() == self@.events.len(),
            forall|i: int| 0 <= i < r@.len() ==> r@[i]@ == self@.events[i],
    {
        &self.events
    }

    fn vec_contains(v: &Vec<u64>, x: u64) -> (b: bool)
        ensures
            b == v@.contains(x),
    {
        let mut i: usize = 0;
        while i < v.len()
            invariant
                i <= v@.len(),
                forall|j: int| 0 <= j < i ==> v@[j] != x,
            decreases v@.len() - i,
        {
            if v[i] == x {
                proof {
                    assert(v@.contains(x));
                }
                return true;
            }
            i += 1;
        }
        proof {
            if v@.contains(x) {
                let j = choose|j: int| 0 <= j < v@.len() && v@[j] == x;
                assert(v@[j] != x);
            }
        }
        false
    }

    fn remove_first(v: &mut Vec<u64>, x: u64)
        requires
            old(v)@.contains(x),
            forall|i: int, j: int|
                #![trigger old(v)@[i], old(v)@[j]]
                0 <= i < j < old(v)@.len() ==> old(v)@[i] != old(v)@[j],
        ensures
            final(v)@ == swap_remove_value(old(v)@, x),
    {
        let mut i: usize = 0;
        while i < v.len()
            invariant
                v@ == old(v)@,
                i <= v@.len(),
                forall|j: int| 0 <= j < i ==> v@[j] != x,
                old(v)@.contains(x),
                forall|a: int, b: int|
                    #![trigger old(v)@[a], old(v)@[b]]
                    0 <= a < b < old(v)@.len() ==> old(v)@[a] != old(v)@[b],
            decreases v@.len() - i,
        {
            if v[i] == x {
                proof {
                    let i0 = old(v)@.index_of(x);
                    assert(0 <= i0 < old(v)@.len() && old(v)@[i0] == x);
                    assert(old(v)@[i as int] == x);
                    assert forall|a: int, b: int|
                        0 <= a < b < old(v)@.len() && old(v)@[a] == x implies old(v)@[b] != x by {
                        assert(old(v)@[a] != old(v)@[b]);
                    }
                    assert(i0 == i);
                }
                v.swap_remove(i);
                return;
            }
            i += 1;
        }
        proof {
            let j = choose|j: int| 0 <= j < old(v)@.len() && old(v)@[j] == x;
            assert(old(v)@[j] != x);
            assert(false);
        }
    }

    fn funds_of(&self, account: u64) -> (f: Funds)
        ensures
            f.free == self@.free[account],
            f.reserved == self@.reserved[account],
    {
        match self.balances.get(&account) {
            Some(f) => *f,
            None => Funds { free: 0, reserved: 0 },
        }
    }

    /// Endow `account` with spendable funds, as the surrounding funds
    /// ledger does at genesis or on a top-up.  The whole balance must
    /// still fit the machine word.
    pub fn deposit(&mut self, account: u64, amount: u64)
        requires
            old(self).wf(),
            old(self)@.free[account] + amount + old(self)@.reserved[account] <= u64::MAX,
        ensures
            final(self).wf(),
            final(self).config() == old(self).config(),
            final(self)@ == (LedgerView {
                free: old(self)@.free.insert(
                    account,
                    (old(self)@.free[account] + amount) as u64,
                ),
                ..old(self)@
            }),
    {
        let f = self.funds_of(account);
        self.balances.insert(account, Funds { free: f.free + amount, reserved: f.reserved });
        proof {
            let expected = LedgerView {
                free: old(self)@.free.insert(
                    account,
                    (old(self)@.free[account] + amount) as u64,
                ),
                ..old(self)@
            };
            assert(self@.genomes =~= expected.genomes);
            assert(self@.owned =~= expected.owned);
            assert(self@.free =~= expected.free);
            assert(self@.reserved =~= expected.reserved);
            assert(self@.events =~= expected.events);
            assert(self@ =~= expected);
            assert forall|a: u64| (#[trigger] self@.reserved[a]) == self@.owned[a].len()
                * self.config().reserve_per_asset && self@.free[a] + self@.reserved[a]
                <= u64::MAX by {
                if a != account {
                    assert(self@.free[a] == old(self)@.free[a]);
                }
            }
        }
    }

    /// Mint a creature for `caller`: allocate the next id, lock one
    /// bond, synthesise a genome from the supplied entropy, record the
    /// creature and its ownership, advance the counter and emit
    /// `Created`.  Any failing step rejects the whole operation and
    /// leaves the ledger untouched.
    ///
    /// The returned id is strictly greater than every id allocated
    /// before, and the counter afterwards is that id plus one.
    pub fn create(&mut self, caller: u64, seed: &[u8; 32], nonce: u64) -> (r: Result<u64, Error>)
        requires
            old(self).wf(),
        ensures
            final(self).wf(),
            final(self).config() == old(self).config(),
            r == mint_outcome(old(self)@, old(self).config(), caller),
            r matches Ok(id) ==> {
                &&& id == old(self)@.next_id
                &&& final(self)@.next_id == id + 1
                &&& forall|prev: u64| old(self)@.genomes.contains_key(prev) ==> prev < id
                &&& final(self)@ == mint_state(
                    old(self)@,
                    old(self).config(),
                    caller,
                    genome_for(seed@, caller, nonce),
                )
            },
            r is Err ==> *final(self) == *old(self),
    {
        if self.next_id == self.config.max_id {
            return Err(Error::IndexExhausted);
        }
        let reserve = self.config.reserve_per_asset;
        let funds = self.funds_of(caller);
        if funds.free < reserve {
            return Err(Error::InsufficientFunds);
        }
        let owned_len = match self.owner_kitties.get(&caller) {
            Some(v) => v.len(),
            None => 0,
        };
        if owned_len >= self.config.max_owned as usize {
            return Err(Error::TooManyOwned);
        }

        let id = self.next_id;
        let dna = random_genome(seed, caller, nonce);
        let kitty = Kitty(dna);
        self.kitties.insert(id, kitty);
        self.kitty_owner.insert(id, caller);
        self.next_id = id + 1;
        let mut list = match self.owner_kitties.remove(&caller) {
            Some(l) => l,
            None => Vec::new(),
        };
        list.push(id);
        self.owner_kitties.insert(caller, list);
        self.balances.insert(
            caller,
            Funds { free: funds.free - reserve, reserved: funds.reserved + reserve },
        );
        self.events.push(Event::Created(caller, id, kitty));

        proof {
            let cfg = old(self).config();
            let v0 = old(self)@;
            let dna_s = genome_for(seed@, caller, nonce);
            let ev = EventView::Created { account: caller, id, genome: dna_s };
            let exp = mint_state(v0, cfg, caller, dna_s);
            assert(self@.genomes =~= exp.genomes);
            assert(self@.owner =~= exp.owner);
            assert(self@.owned =~= exp.owned);
            assert(self@.free =~= exp.free);
            assert(self@.reserved =~= exp.reserved);
            assert(self@.events =~= exp.events);
            assert(self@ =~= exp);
            lemma_record_preserves_wf(v0, cfg, caller, dna_s, ev);
        }
        Ok(id)
    }

    /// Breed a creature for `caller` from two existing, distinct
    /// parents: the child genome takes each bit from the first parent
    /// where a freshly generated selector mask has a 1 and from the
    /// second parent where it has a 0.  The caller need not own either
    /// parent; both must merely exist.  Any failing step rejects the
    /// whole operation and leaves the ledger untouched.
    pub fn breed(
        &mut self,
        caller: u64,
        parent1: u64,
        parent2: u64,
        seed: &[u8; 32],
        nonce: u64,
    ) -> (r: Result<u64, Error>)
        requires
            old(self).wf(),
        ensures
            final(self).wf(),
            final(self).config() == old(self).config(),
            r == breed_outcome(old(self)@, old(self).config(), caller, parent1, parent2),
            r matches Ok(id) ==> {
                &&& id == old(self)@.next_id
                &&& final(self)@.next_id == id + 1
                &&& forall|prev: u64| old(self)@.genomes.contains_key(prev) ==> prev < id
                &&& final(self)@ == breed_state(
                    old(self)@,
                    old(self).config(),
                    caller,
                    parent1,
                    parent2,
                    genome_for(seed@, caller, nonce),
                )
            },
            r is Err ==> *final(self) == *old(self),
    {
        if parent1 == parent2 {
            return Err(Error::SameAsset);
        }
        let kitty_1 = match self.kitties.get(&parent1) {
            Some(k) => *k,
            None => {
                return Err(Error::UnknownAsset);
            },
        };
        let kitty_2 = match self.kitties.get(&parent2) {
            Some(k) => *k,
            None => {
                return Err(Error::UnknownAsset);
            },
        };
        if self.next_id == self.config.max_id {
            return Err(Error::IndexExhausted);
        }
        let reserve = self.config.reserve_per_asset;
        let funds = self.funds_of(caller);
        if funds.free < reserve {
            return Err(Error::InsufficientFunds);
        }
        let owned_len = match self.owner_kitties.get(&caller) {
            Some(v) => v.len(),
            None => 0,
        };
        if owned_len >= self.config.max_owned as usize {
            return Err(Error::TooManyOwned);
        }

        let id = self.next_id;
        let mask = random_genome(seed, caller, nonce);
        let child = cross(&kitty_1.0, &kitty_2.0, &mask);
        let kitty = Kitty(child);
        self.kitties.insert(id, kitty);
        self.kitty_owner.insert(id, caller);
        self.next_id = id + 1;
        let mut list = match self.owner_kitties.remove(&caller) {
            Some(l) => l,
            None => Vec::new(),
        };
        list.push(id);
        self.owner_kitties.insert(caller, list);
        self.balances.insert(
            caller,
            Funds { free: funds.free - reserve, reserved: funds.reserved + reserve },
        );
        self.events.push(Event::Bred(caller, id, kitty));

        proof {
            let cfg = old(self).config();
            let v0 = old(self)@;
            let mask_s = genome_for(seed@, caller, nonce);
            let dna_s = crate::genome::cross_genome(v0.genomes[parent1], v0.genomes[parent2], mask_s);
            let ev = EventView::Bred { account: caller, id, genome: dna_s };
            let exp = breed_state(v0, cfg, caller, parent1, parent2, mask_s);
            assert(self@.genomes =~= exp.genomes);
            assert(self@.owner =~= exp.owner);
            assert(self@.owned =~= exp.owned);
            assert(self@.free =~= exp.free);
            assert(self@.reserved =~= exp.reserved);
            assert(self@.events =~= exp.events);
            assert(self@ =~= exp);
            lemma_record_preserves_wf(v0, cfg, caller, dna_s, ev);
        }
        Ok(id)
    }

    /// Transfer the creature under `kitty_id` from `caller`, its
    /// current owner, to `new_owner`: the id leaves the caller's
    /// owned-list, the caller's bond is released, a bond is locked for
    /// the receiver, ownership is rewritten, the id joins the
    /// receiver's list and `Transferred` is emitted.  Any failing step
    /// rejects the whole operation and leaves the ledger untouched.
    pub fn transfer(&mut self, caller: u64, kitty_id: u64, new_owner: u64) -> (r: Result<
        (),
        Error,
    >)
        requires
            old(self).wf(),
        ensures
            final(self).wf(),
            final(self).config() == old(self).config(),
            r == transfer_outcome(old(self)@, old(self).config(), caller, kitty_id, new_owner),
            r is Ok ==> final(self)@ == transfer_state(
                old(self)@,
                old(self).config(),
                caller,
                kitty_id,
                new_owner,
            ),
            r is Err ==> *final(self) == *old(self),
    {
        if !self.kitties.contains_key(&kitty_id) {
            return Err(Error::UnknownAsset);
        }
        let owner_ok = match self.kitty_owner.get(&kitty_id) {
            Some(o) => *o == caller,
            None => false,
        };
        if !owner_ok {
            return Err(Error::NotOwner);
        }
        // Defensively require the caller's own list to name the asset;
        // under the invariant this can only agree with the check above.
        let in_list = match self.owner_kitties.get(&caller) {
            Some(v) => Self::vec_contains(v, kitty_id),
            None => false,
        };
        if !in_list {
            return Err(Error::NotOwner);
        }

        let reserve = self.config.reserve_per_asset;
        let caller_funds = self.funds_of(caller);
        let new_funds = self.funds_of(new_owner);
        proof {
            // the caller holds at least one creature, so at least one
            // bond is locked and releasing it cannot overflow
            let n = self@.owned[caller].len() as int;
            assert(n >= 1);
            assert(self@.reserved[caller] == n * reserve);
            assert(n * reserve >= 1 * reserve) by (nonlinear_arith)
                requires
                    n >= 1,
                    reserve >= 0,
            ;
        }
        let avail = if new_owner == caller {
            caller_funds.free + reserve
        } else {
            new_funds.free
        };
        if avail < reserve {
            return Err(Error::InsufficientFunds);
        }
        let caller_len = match self.owner_kitties.get(&caller) {
            Some(v) => v.len(),
            None => 0,
        };
        let target_len = if new_owner == caller {
            caller_len - 1
        } else {
            match self.owner_kitties.get(&new_owner) {
                Some(v) => v.len(),
                None => 0,
            }
        };
        if target_len >= self.config.max_owned as usize {
            return Err(Error::TooManyOwned);
        }

        let mut caller_list = match self.owner_kitties.remove(&caller) {
            Some(l) => l,
            None => Vec::new(),
        };
        Self::remove_first(&mut caller_list, kitty_id);
        if new_owner == caller {
            caller_list.push(kitty_id);
            self.owner_kitties.insert(caller, caller_list);
        } else {
            self.owner_kitties.insert(caller, caller_list);
            let mut target_list = match self.owner_kitties.remove(&new_owner) {
                Some(l) => l,
                None => Vec::new(),
            };
            target_list.push(kitty_id);
            self.owner_kitties.insert(new_owner, target_list);
            self.balances.insert(
                caller,
                Funds {
                    free: caller_funds.free + reserve,
                    reserved: caller_funds.reserved - reserve,
                },
            );
            self.balances.insert(
                new_owner,
                Funds { free: new_funds.free - reserve, reserved: new_funds.reserved + reserve },
            );
        }
        self.kitty_owner.insert(kitty_id, new_owner);
        self.events.push(Event::Transferred(caller, new_owner, kitty_id));

        proof {
            let cfg = old(self).config();
            let v0 = old(self)@;
            let exp = transfer_state(v0, cfg, caller, kitty_id, new_owner);
            assert(self@.genomes =~= exp.genomes);
            assert(self@.owner =~= exp.owner);
            assert(self@.owned =~= exp.owned);
            assert(self@.free =~= exp.free);
            assert(self@.reserved =~= exp.reserved);
            assert(self@.events =~= exp.events);
            assert(self@ =~= exp);
            lemma_transfer_preserves_wf(v0, cfg, caller, kitty_id, new_owner);
        }
        Ok(())
    }

    /// Overwrite the allocator counter, as deployment tooling may.  The
    /// counter can only move forward, so every existing id stays below
    /// it, and never beyond the configured maximum.
    pub fn set_next_id(&mut self, id: u64)
        requires
            old(self).wf(),
            old(self)@.next_id <= id,
            id <= old(self).config().max_id,
        ensures
            final(self).wf(),
            final(self).config() == old(self).config(),
            final(self)@ == (LedgerView { next_id: id, ..old(self)@ }),
    {
        self.next_id = id;
        proof {
            let expected = LedgerView { next_id: id, ..old(self)@ };
            assert(self@.genomes =~= expected.genomes);
            assert(self@.owned =~= expected.owned);
            assert(self@.free =~= expected.free);
            assert(self@.reserved =~= expected.reserved);
            assert(self@.events =~= expected.events);
            assert(self@ =~= expected);
        }
    }
}

} // verus!
