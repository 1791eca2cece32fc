//! The mathematical model of the ledger: configuration, errors,
//! notifications, the ledger's abstract state, its well-formedness
//! invariant, and the transition functions that say exactly what each
//! operation returns and what state it leaves behind.

use vstd::prelude::*;
use crate::genome::Kitty;
use crate::genome::cross_genome;

verus! {

/// Deployment-time configuration, fixed for the life of a ledger.
#[derive(Clone, Copy, Debug, PartialEq, Eq, Structural)]
pub struct Config {
    /// Bound on the length of any account's owned-list.
    pub max_owned: u32,
    /// The bond locked from an owner's balance for each creature held.
    pub reserve_per_asset: u64,
    /// Exclusive upper bound of the identifier space: allocation fails
    /// once the counter reaches this value, so it is never an id.
    pub max_id: u64,
}

/// Why an operation was rejected.  Every rejection leaves the ledger
/// exactly as it was.
#[derive(Clone, Copy, Debug, PartialEq, Eq, Structural)]
pub enum Error {
    /// The identifier counter is at the maximum configured value.
    IndexExhausted,
    /// A referenced asset id has no stored record.
    UnknownAsset,
    /// Breed was invoked with two identical parent ids.
    SameAsset,
    /// The caller is not the current owner of the referenced asset.
    NotOwner,
    /// The escrow bond could not be locked from the payer's balance.
    InsufficientFunds,
    /// The receiving account's owned-list is already at the bound.
    TooManyOwned,
}

/// A domain notification, observable by external subscribers.
#[derive(Clone, Copy, Debug, PartialEq, Eq)]
pub enum Event {
    /// Owner, id and genome of a creature minted from scratch.
    Created(u64, u64, Kitty),
    /// Owner, id and genome of a creature bred from two parents.
    Bred(u64, u64, Kitty),
    /// Previous owner, new owner and id of a transferred creature.
    Transferred(u64, u64, u64),
}

/// The abstract content of a notification, with the genome as a byte
/// sequence.
pub enum EventView {
    Created { account: u64, id: u64, genome: Seq<u8> },
    Bred { account: u64, id: u64, genome: Seq<u8> },
    Transferred { from: u64, to: u64, id: u64 },
}

impl View for Event {
    type V = EventView;

    open spec fn view(&self) -> EventView {
        match *self {
            Event::Created(account, id, kitty) => EventView::Created {
                account,
                id,
                genome: kitty.0@,
            },
            Event::Bred(account, id, kitty) => EventView::Bred { account, id, genome: kitty.0@ },
            Event::Transferred(from, to, id) => EventView::Transferred { from, to, id },
        }
    }
}

/// The abstract state of the whole ledger.  `owned`, `free` and
/// `reserved` are total over accounts: an account never seen holds
/// nothing and has a zero balance.
#[verifier::ext_equal]
pub struct LedgerView {
    /// The allocator counter: the id the next successful mint or breed
    /// will take.
    pub next_id: u64,
    /// The genome bytes of every existing creature; absent id means the
    /// asset does not exist.
    pub genomes: Map<u64, Seq<u8>>,
    /// The current owner of every existing creature.
    pub owner: Map<u64, u64>,
    /// Each account's owned-list of asset ids.
    pub owned: Map<u64, Seq<u64>>,
    /// Each account's spendable balance.
    pub free: Map<u64, u64>,
    /// Each account's escrow-locked balance.
    pub reserved: Map<u64, u64>,
    /// Every notification emitted so far, oldest first.
    pub events: Seq<EventView>,
}

impl LedgerView {
    /// The per-account maps cover every account.
    pub open spec fn maps_total(self) -> bool {
        &&& forall|a: u64| #[trigger] self.owned.contains_key(a)
        &&& forall|a: u64| #[trigger] self.free.contains_key(a)
        &&& forall|a: u64| #[trigger] self.reserved.contains_key(a)
    }

    /// Every asset record is a 16-byte genome, carries an id below the
    /// allocator counter, and has exactly the owners the ownership map
    /// says: an entry there if and only if the record exists.
    pub open spec fn assets_ok(self, cfg: Config) -> bool {
        &&& self.next_id <= cfg.max_id
        &&& forall|id: u64| #[trigger] self.genomes.contains_key(id)
            ==> id < self.next_id && self.genomes[id].len() == 16
        &&& forall|id: u64| #[trigger] self.genomes.contains_key(id)
            <==> #[trigger] self.owner.contains_key(id)
    }

    /// Bidirectional consistency of the ownership map and the
    /// owned-lists: an id stands in exactly one account's list, and
    /// exactly in the list of the account the ownership map names.
    pub open spec fn owners_consistent(self) -> bool {
        &&& forall|id: u64| #[trigger] self.owner.contains_key(id)
            ==> self.owned[self.owner[id]].contains(id)
        &&& forall|a: u64, i: int|
            0 <= i < self.owned[a].len() ==> {
                &&& self.owner.contains_key(#[trigger] self.owned[a][i])
                &&& self.owner[self.owned[a][i]] == a
            }
        &&& forall|a: u64, i: int, j: int|
            #![trigger self.owned[a][i], self.owned[a][j]]
            0 <= i < j < self.owned[a].len() ==> self.owned[a][i] != self.owned[a][j]
    }

    /// No owned-list is longer than the configured bound.
    pub open spec fn lists_bounded(self, cfg: Config) -> bool {
        forall|a: u64| (#[trigger] self.owned[a]).len() <= cfg.max_owned
    }

    /// Every account's escrow-locked amount is exactly the number of
    /// creatures it owns times the per-asset bond, and its whole balance
    /// fits the machine word.
    pub open spec fn escrow_consistent(self, cfg: Config) -> bool {
        forall|a: u64|
            {
                &&& (#[trigger] self.reserved[a]) == self.owned[a].len() * cfg.reserve_per_asset
                &&& self.free[a] + self.reserved[a] <= u64::MAX
            }
    }

    /// The ledger invariant, preserved by every operation.
    pub open spec fn wf(self, cfg: Config) -> bool {
        &&& self.maps_total()
        &&& self.assets_ok(cfg)
        &&& self.owners_consistent()
        &&& self.lists_bounded(cfg)
        &&& self.escrow_consistent(cfg)
    }
}

/// The state of a freshly deployed ledger: no assets, no owners, no
/// balances, no notifications, counter at zero.
pub open spec fn initial_view() -> LedgerView {
    LedgerView {
        next_id: 0,
        genomes: Map::empty(),
        owner: Map::empty(),
        owned: Map::new(|a: u64| true, |a: u64| Seq::empty()),
        free: Map::new(|a: u64| true, |a: u64| 0u64),
        reserved: Map::new(|a: u64| true, |a: u64| 0u64),
        events: Seq::empty(),
    }
}

/// What a mint returns on a given state: the fresh id, or the first
/// failing check in operation order — allocation, escrow, list bound.
pub open spec fn mint_outcome(v: LedgerView, cfg: Config, caller: u64) -> Result<u64, Error> {
    if v.next_id == cfg.max_id {
        Err(Error::IndexExhausted)
    } else if v.free[caller] < cfg.reserve_per_asset {
        Err(Error::InsufficientFunds)
    } else if v.owned[caller].len() >= cfg.max_owned {
        Err(Error::TooManyOwned)
    } else {
        Ok(v.next_id)
    }
}

/// The state after a creature with genome `dna` is recorded for `caller`
/// under the fresh id `v.next_id`: the shared tail of mint and breed.
/// One bond moves from `caller`'s spendable balance into escrow, the
/// record and its ownership are written, the counter advances, and the
/// notification `ev` is emitted.
pub open spec fn record_new_asset(
    v: LedgerView,
    cfg: Config,
    caller: u64,
    dna: Seq<u8>,
    ev: EventView,
) -> LedgerView {
    let id = v.next_id;
    LedgerView {
        next_id: (id + 1) as u64,
        genomes: v.genomes.insert(id, dna),
        owner: v.owner.insert(id, caller),
        owned: v.owned.insert(caller, v.owned[caller].push(id)),
        free: v.free.insert(caller, (v.free[caller] - cfg.reserve_per_asset) as u64),
        reserved: v.reserved.insert(
            caller,
            (v.reserved[caller] + cfg.reserve_per_asset) as u64,
        ),
        events: v.events.push(ev),
    }
}

/// The state after a successful mint of genome `dna` for `caller`.
pub open spec fn mint_state(v: LedgerView, cfg: Config, caller: u64, dna: Seq<u8>) -> LedgerView {
    record_new_asset(
        v,
        cfg,
        caller,
        dna,
        EventView::Created { account: caller, id: v.next_id, genome: dna },
    )
}

/// What a breed returns on a given state: the fresh id, or the first
/// failing check in operation order — distinct parents, both parents
/// exist, allocation, escrow, list bound.
pub open spec fn breed_outcome(
    v: LedgerView,
    cfg: Config,
    caller: u64,
    parent1: u64,
    parent2: u64,
) -> Result<u64, Error> {
    if parent1 == parent2 {
        Err(Error::SameAsset)
    } else if !v.genomes.contains_key(parent1) || !v.genomes.contains_key(parent2) {
        Err(Error::UnknownAsset)
    } else if v.next_id == cfg.max_id {
        Err(Error::IndexExhausted)
    } else if v.free[caller] < cfg.reserve_per_asset {
        Err(Error::InsufficientFunds)
    } else if v.owned[caller].len() >= cfg.max_owned {
        Err(Error::TooManyOwned)
    } else {
        Ok(v.next_id)
    }
}

/// The state after a successful breed: the child genome is the bitwise
/// crossover of the parents' genomes under `mask`.
pub open spec fn breed_state(
    v: LedgerView,
    cfg: Config,
    caller: u64,
    parent1: u64,
    parent2: u64,
    mask: Seq<u8>,
) -> LedgerView {
    let dna = cross_genome(v.genomes[parent1], v.genomes[parent2], mask);
    record_new_asset(
        v,
        cfg,
        caller,
        dna,
        EventView::Bred { account: caller, id: v.next_id, genome: dna },
    )
}

/// Recording a fresh creature preserves the ledger invariant whenever
/// the three checks of a mint or breed have passed.
pub proof fn lemma_record_preserves_wf(
    v: LedgerView,
    cfg: Config,
    caller: u64,
    dna: Seq<u8>,
    ev: EventView,
)
    requires
        v.wf(cfg),
        v.next_id < cfg.max_id,
        v.free[caller] >= cfg.reserve_per_asset,
        v.owned[caller].len() < cfg.max_owned,
        dna.len() == 16,
    ensures
        record_new_asset(v, cfg, caller, dna, ev).wf(cfg),
{
    let w = record_new_asset(v, cfg, caller, dna, ev);
    let id = v.next_id;
    let r = cfg.reserve_per_asset;

    // every id standing in some list already exists, so it is below the
    // fresh id
    assert forall|a: u64, i: int| 0 <= i < v.owned[a].len() implies v.owned[a][i] < id by {
        assert(v.owner.contains_key(v.owned[a][i]));
        assert(v.genomes.contains_key(v.owned[a][i]));
    }

    assert forall|id2: u64| #[trigger] w.owner.contains_key(id2) implies w.owned[w.owner[id2]].contains(
        id2,
    ) by {
        if id2 == id {
            assert(w.owned[caller] == v.owned[caller].push(id));
            assert(w.owned[caller][v.owned[caller].len() as int] == id);
        } else {
            let a = v.owner[id2];
            assert(v.owner.contains_key(id2));
            assert(v.owned[a].contains(id2));
            let j = choose|j: int| 0 <= j < v.owned[a].len() && v.owned[a][j] == id2;
            if a == caller {
                assert(w.owned[caller][j] == id2);
            } else {
                assert(w.owned[a] == v.owned[a]);
            }
        }
    }

    assert forall|a: u64, i: int| 0 <= i < w.owned[a].len() implies {
        &&& w.owner.contains_key(#[trigger] w.owned[a][i])
        &&& w.owner[w.owned[a][i]] == a
    } by {
        if a == caller && i == v.owned[caller].len() {
            assert(w.owned[a][i] == id);
        } else {
            assert(w.owned[a][i] == v.owned[a][i]);
            assert(v.owned[a][i] < id);
        }
    }

    assert forall|a: u64, i: int, j: int|
        0 <= i < j < w.owned[a].len() implies #[trigger] w.owned[a][i] != #[trigger] w.owned[a][j] by {
        if a == caller && j == v.owned[caller].len() {
            assert(w.owned[a][i] == v.owned[a][i]);
            assert(v.owned[a][i] < id);
            assert(w.owned[a][j] == id);
        } else {
            assert(w.owned[a][i] == v.owned[a][i]);
            assert(w.owned[a][j] == v.owned[a][j]);
        }
    }

    assert forall|a: u64| (#[trigger] w.owned[a]).len() <= cfg.max_owned by {
        if a != caller {
            assert(w.owned[a] == v.owned[a]);
        }
    }

    assert forall|a: u64| (#[trigger] w.reserved[a]) == w.owned[a].len() * r && w.free[a]
        + w.reserved[a] <= u64::MAX by {
        if a == caller {
            let n = v.owned[caller].len();
            assert(v.reserved[caller] == n * r);
            assert((n + 1) * r == n * r + r) by (nonlinear_arith);
            assert(w.owned[caller].len() == n + 1);
        } else {
            assert(w.owned[a] == v.owned[a]);
            assert(w.reserved[a] == v.reserved[a]);
            assert(w.free[a] == v.free[a]);
        }
    }
}

/// A sequence with one occurrence of `x` taken out the way a
/// swap-removal does it: the hole is filled with the last element.
/// Meaningful only when `s` contains `x`.
pub open spec fn swap_remove_value(s: Seq<u64>, x: u64) -> Seq<u64> {
    s.update(s.index_of(x), s.last()).drop_last()
}

/// On a duplicate-free sequence containing `x`, swap-removal takes out
/// exactly the one occurrence of `x`: the result is one shorter,
/// duplicate-free, and holds exactly the other elements.
pub proof fn lemma_swap_remove_value(s: Seq<u64>, x: u64)
    requires
        s.contains(x),
        forall|i: int, j: int| 0 <= i < j < s.len() ==> s[i] != s[j],
    ensures
        swap_remove_value(s, x).len() == s.len() - 1,
        forall|i: int|
            0 <= i < swap_remove_value(s, x).len() ==> s.contains(
                #[trigger] swap_remove_value(s, x)[i],
            ) && swap_remove_value(s, x)[i] != x,
        forall|y: u64|
            s.contains(y) && y != x ==> #[trigger] swap_remove_value(s, x).contains(y),
        forall|i: int, j: int|
            0 <= i < j < swap_remove_value(s, x).len() ==> swap_remove_value(s, x)[i]
                != swap_remove_value(s, x)[j],
{
    let t = swap_remove_value(s, x);
    let n = s.len() as int;
    let i0 = s.index_of(x);
    assert(0 <= i0 < n && s[i0] == x);

    assert forall|i: int| 0 <= i < t.len() implies s.contains(#[trigger] t[i]) && t[i] != x by {
        if i == i0 {
            assert(t[i] == s[n - 1]);
        } else {
            assert(t[i] == s[i]);
        }
    }

    assert forall|y: u64| s.contains(y) && y != x implies #[trigger] t.contains(y) by {
        let j = choose|j: int| 0 <= j < n && s[j] == y;
        if j == n - 1 {
            assert(i0 != n - 1);
            assert(t[i0] == y);
        } else {
            assert(j != i0);
            assert(t[j] == y);
        }
    }

    assert forall|i: int, j: int| 0 <= i < j < t.len() implies t[i] != t[j] by {
        let pi = if i == i0 { n - 1 } else { i };
        let pj = if j == i0 { n - 1 } else { j };
        assert(t[i] == s[pi]);
        assert(t[j] == s[pj]);
        assert(pi != pj);
    }
}

/// The spendable balance the receiving account has at the moment the
/// bond for a transfer is locked: the caller's own bond has already been
/// released, which matters when an owner transfers to itself.
pub open spec fn transfer_avail(v: LedgerView, cfg: Config, caller: u64, new_owner: u64) -> int {
    if new_owner == caller {
        v.free[caller] + cfg.reserve_per_asset
    } else {
        v.free[new_owner] as int
    }
}

/// The length the receiving account's owned-list has at the moment the
/// transferred id is appended: the id has already left the caller's
/// list, which matters when an owner transfers to itself.
pub open spec fn transfer_capacity(v: LedgerView, caller: u64, new_owner: u64) -> int {
    if new_owner == caller {
        v.owned[caller].len() - 1
    } else {
        v.owned[new_owner].len() as int
    }
}

/// What a transfer returns on a given state: the first failing check in
/// operation order — the asset exists, the caller owns it (both by the
/// ownership map and, defensively, by its own list), the receiver can
/// lock the bond, the receiver's list has room.
pub open spec fn transfer_outcome(
    v: LedgerView,
    cfg: Config,
    caller: u64,
    id: u64,
    new_owner: u64,
) -> Result<(), Error> {
    if !v.genomes.contains_key(id) {
        Err(Error::UnknownAsset)
    } else if !(v.owner.contains_key(id) && v.owner[id] == caller && v.owned[caller].contains(id)) {
        Err(Error::NotOwner)
    } else if transfer_avail(v, cfg, caller, new_owner) < cfg.reserve_per_asset {
        Err(Error::InsufficientFunds)
    } else if transfer_capacity(v, caller, new_owner) >= cfg.max_owned {
        Err(Error::TooManyOwned)
    } else {
        Ok(())
    }
}

/// The state after a successful transfer, written as the operation runs:
/// the id leaves the caller's list, the caller's bond is released, the
/// receiver's bond is locked, ownership is rewritten, the id joins the
/// receiver's list, and the notification is emitted.  The asset records
/// and the allocator counter are untouched.
pub open spec fn transfer_state(
    v: LedgerView,
    cfg: Config,
    caller: u64,
    id: u64,
    new_owner: u64,
) -> LedgerView {
    let r = cfg.reserve_per_asset;
    let owned_removed = v.owned.insert(caller, swap_remove_value(v.owned[caller], id));
    let free_released = v.free.insert(caller, (v.free[caller] + r) as u64);
    let reserved_released = v.reserved.insert(caller, (v.reserved[caller] - r) as u64);
    LedgerView {
        next_id: v.next_id,
        genomes: v.genomes,
        owner: v.owner.insert(id, new_owner),
        owned: owned_removed.insert(new_owner, owned_removed[new_owner].push(id)),
        free: free_released.insert(new_owner, (free_released[new_owner] - r) as u64),
        reserved: reserved_released.insert(new_owner, (reserved_released[new_owner] + r) as u64),
        events: v.events.push(EventView::Transferred { from: caller, to: new_owner, id }),
    }
}

/// A transfer whose checks have all passed preserves the ledger
/// invariant.
pub proof fn lemma_transfer_preserves_wf(
    v: LedgerView,
    cfg: Config,
    caller: u64,
    id: u64,
    new_owner: u64,
)
    requires
        v.wf(cfg),
        transfer_outcome(v, cfg, caller, id, new_owner) is Ok,
    ensures
        transfer_state(v, cfg, caller, id, new_owner).wf(cfg),
{
    let w = transfer_state(v, cfg, caller, id, new_owner);
    let r = cfg.reserve_per_asset;
    let ell = v.owned[caller];
    let l2 = swap_remove_value(ell, id);
    let n = ell.len() as int;
    lemma_swap_remove_value(ell, id);
    assert(n >= 1);

    // the receiving list just before the append, and why `id` is not in it
    let m = if new_owner == caller {
        l2
    } else {
        v.owned[new_owner]
    };
    assert(w.owned[new_owner] == m.push(id));
    assert(forall|i: int| 0 <= i < m.len() ==> #[trigger] m[i] != id);
    assert(forall|i: int| 0 <= i < m.len() ==> v.owned[if new_owner == caller {
        caller
    } else {
        new_owner
    }].contains(#[trigger] m[i]));

    assert forall|id2: u64| #[trigger] w.owner.contains_key(id2) implies w.owned[w.owner[id2]].contains(
        id2,
    ) by {
        if id2 == id {
            assert(w.owned[new_owner][m.len() as int] == id);
        } else {
            let a = v.owner[id2];
            assert(v.owner.contains_key(id2));
            assert(v.owned[a].contains(id2));
            assert(w.owner[id2] == a);
            if a == caller {
                assert(l2.contains(id2));
                if new_owner == caller {
                    let j = choose|j: int| 0 <= j < l2.len() && l2[j] == id2;
                    assert(w.owned[caller][j] == id2);
                } else {
                    assert(w.owned[caller] == l2);
                }
            } else if a == new_owner {
                let j = choose|j: int| 0 <= j < v.owned[a].len() && v.owned[a][j] == id2;
                assert(w.owned[a][j] == id2);
            } else {
                assert(w.owned[a] == v.owned[a]);
            }
        }
    }

    assert forall|a: u64, i: int| 0 <= i < w.owned[a].len() implies {
        &&& w.owner.contains_key(#[trigger] w.owned[a][i])
        &&& w.owner[w.owned[a][i]] == a
    } by {
        if a == new_owner {
            if i == m.len() {
                assert(w.owned[a][i] == id);
            } else {
                let e = m[i];
                assert(w.owned[a][i] == e);
                if new_owner == caller {
                    assert(ell.contains(e));
                    assert(v.owner.contains_key(e) && v.owner[e] == caller);
                } else {
                    assert(v.owner.contains_key(e) && v.owner[e] == new_owner);
                }
                assert(e != id);
            }
        } else if a == caller {
            let e = l2[i];
            assert(ell.contains(e) && e != id);
            assert(v.owner.contains_key(e) && v.owner[e] == caller);
        } else {
            let e = v.owned[a][i];
            assert(w.owned[a][i] == e);
            assert(v.owner.contains_key(e) && v.owner[e] == a);
            assert(e != id);
        }
    }

    assert forall|a: u64, i: int, j: int|
        0 <= i < j < w.owned[a].len() implies #[trigger] w.owned[a][i] != #[trigger] w.owned[a][j] by {
        if a == new_owner {
            if j == m.len() {
                assert(w.owned[a][j] == id);
                assert(w.owned[a][i] == m[i]);
            } else {
                assert(w.owned[a][i] == m[i] && w.owned[a][j] == m[j]);
                if new_owner != caller {
                    assert(v.owned[a][i] != v.owned[a][j]);
                }
            }
        } else if a == caller {
            assert(w.owned[a][i] == l2[i] && w.owned[a][j] == l2[j]);
        } else {
            assert(w.owned[a][i] == v.owned[a][i] && w.owned[a][j] == v.owned[a][j]);
        }
    }

    assert forall|a: u64| (#[trigger] w.owned[a]).len() <= cfg.max_owned by {
        if a == new_owner {
            assert(m.len() == transfer_capacity(v, caller, new_owner));
        } else if a == caller {
        } else {
            assert(w.owned[a] == v.owned[a]);
        }
    }

    // escrow: the caller holds at least one creature, so at least one
    // bond is locked
    assert(v.reserved[caller] == n * r);
    assert(n * r >= 1 * r) by (nonlinear_arith)
        requires n >= 1 && r >= 0;

    assert forall|a: u64| (#[trigger] w.reserved[a]) == w.owned[a].len() * r && w.free[a]
        + w.reserved[a] <= u64::MAX by {
        if new_owner == caller {
            if a == caller {
                assert(w.free[a] == v.free[a] && w.reserved[a] == v.reserved[a]);
                assert(w.owned[a].len() == n);
            } else {
                assert(w.owned[a] == v.owned[a]);
                assert(w.free[a] == v.free[a] && w.reserved[a] == v.reserved[a]);
            }
        } else {
            if a == caller {
                assert(w.owned[a].len() == n - 1);
                assert((n - 1) * r == n * r - r) by (nonlinear_arith);
                assert(w.reserved[a] == v.reserved[a] - r);
                assert(w.free[a] == v.free[a] + r);
            } else if a == new_owner {
                let k = v.owned[a].len() as int;
                assert(v.reserved[a] == k * r);
                assert((k + 1) * r == k * r + r) by (nonlinear_arith);
                assert(w.owned[a].len() == k + 1);
                assert(v.free[a] >= r);
                assert(w.reserved[a] == v.reserved[a] + r);
                assert(w.free[a] == v.free[a] - r);
            } else {
                assert(w.owned[a] == v.owned[a]);
                assert(w.free[a] == v.free[a] && w.reserved[a] == v.reserved[a]);
            }
        }
    }
}

} // verus!
