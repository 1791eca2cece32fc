//! Property scenarios: crossover selection on concrete masks, strictly
//! increasing identifiers, ownership/escrow consistency, exhaustion of
//! the identifier space, rollback on failure, and the exact genome
//! synthesis.

use kitties::genome::cross;
use kitties::genome::random_genome;
use kitties::Config;
use kitties::Error;
use kitties::Event;
use kitties::Kitty;
use kitties::Ledger;

const RESERVE: u64 = 100;

fn funded_ledger() -> Ledger {
    let mut ledger = Ledger::new(Config {
        max_owned: 3,
        reserve_per_asset: RESERVE,
        max_id: u64::MAX,
    });
    ledger.deposit(1, 1_000);
    ledger.deposit(2, 1_000);
    ledger
}

fn seed() -> [u8; 32] {
    [7u8; 32]
}

#[test]
fn cross_all_ones_mask_selects_first_parent() {
    let a = [0xF0u8; 16];
    let b = [0x0Fu8; 16];
    let mask = [0xFFu8; 16];
    assert_eq!(cross(&a, &b, &mask), a);
}

#[test]
fn cross_all_zero_mask_selects_second_parent() {
    let a = [0xF0u8; 16];
    let b = [0x0Fu8; 16];
    let mask = [0x00u8; 16];
    assert_eq!(cross(&a, &b, &mask), b);
}

#[test]
fn cross_alternating_mask_mixes_bits() {
    let a = [0xF0u8; 16];
    let b = [0x0Fu8; 16];
    let mask = [0xAAu8; 16];
    // per bit: 0xF0 where mask has 1 (0xAA & 0xF0 = 0xA0), 0x0F where
    // it has 0 (0x55 & 0x0F = 0x05)
    assert_eq!(cross(&a, &b, &mask), [0xA5u8; 16]);
}

#[test]
fn cross_selects_per_byte_position() {
    let mut a = [0u8; 16];
    let mut b = [0u8; 16];
    let mut mask = [0u8; 16];
    for i in 0..16 {
        a[i] = i as u8;
        b[i] = 0xFF - i as u8;
        mask[i] = if i % 2 == 0 { 0xFF } else { 0x00 };
    }
    let child = cross(&a, &b, &mask);
    for i in 0..16 {
        if i % 2 == 0 {
            assert_eq!(child[i], a[i]);
        } else {
            assert_eq!(child[i], b[i]);
        }
    }
}

#[test]
fn minted_ids_strictly_increase_and_advance_counter() {
    let mut ledger = funded_ledger();
    let id0 = ledger.create(1, &seed(), 0).unwrap();
    assert_eq!(ledger.next_kitty_id(), id0 + 1);
    let id1 = ledger.create(2, &seed(), 1).unwrap();
    assert!(id1 > id0);
    assert_eq!(ledger.next_kitty_id(), id1 + 1);
    let id2 = ledger.breed(1, id0, id1, &seed(), 2).unwrap();
    assert!(id2 > id1);
    assert_eq!(ledger.next_kitty_id(), id2 + 1);
}

#[test]
fn ownership_map_and_lists_stay_consistent() {
    let mut ledger = funded_ledger();
    let id0 = ledger.create(1, &seed(), 0).unwrap();
    let id1 = ledger.create(1, &seed(), 1).unwrap();
    ledger.transfer(1, id0, 2).unwrap();

    assert_eq!(ledger.kitty_owner(id0), Some(2));
    assert_eq!(ledger.kitty_owner(id1), Some(1));
    let list1: &Vec<u64> = ledger.owner_kitties(1).unwrap();
    let list2: &Vec<u64> = ledger.owner_kitties(2).unwrap();
    assert!(list1.contains(&id1) && !list1.contains(&id0));
    assert!(list2.contains(&id0) && !list2.contains(&id1));
    assert_eq!(list1.len(), 1);
    assert_eq!(list2.len(), 1);
}

#[test]
fn escrow_equals_owned_count_times_reserve() {
    let mut ledger = funded_ledger();
    let id0 = ledger.create(1, &seed(), 0).unwrap();
    ledger.create(1, &seed(), 1).unwrap();
    assert_eq!(ledger.reserved_balance(1), 2 * RESERVE);
    assert_eq!(ledger.free_balance(1), 1_000 - 2 * RESERVE);

    ledger.transfer(1, id0, 2).unwrap();
    assert_eq!(ledger.reserved_balance(1), RESERVE);
    assert_eq!(ledger.free_balance(1), 1_000 - RESERVE);
    assert_eq!(ledger.reserved_balance(2), RESERVE);
    assert_eq!(ledger.free_balance(2), 1_000 - RESERVE);
}

#[test]
fn transfer_to_self_keeps_ledger_balanced() {
    let mut ledger = funded_ledger();
    let id0 = ledger.create(1, &seed(), 0).unwrap();
    assert!(ledger.transfer(1, id0, 1).is_ok());
    assert_eq!(ledger.kitty_owner(id0), Some(1));
    assert_eq!(ledger.reserved_balance(1), RESERVE);
    assert_eq!(ledger.free_balance(1), 1_000 - RESERVE);
    let list1 = ledger.owner_kitties(1).unwrap();
    assert_eq!(list1.len(), 1);
    assert!(list1.contains(&id0));
}

#[test]
fn exhausted_counter_rejects_breed_and_stays_put() {
    let mut ledger = funded_ledger();
    let id0 = ledger.create(1, &seed(), 0).unwrap();
    let id1 = ledger.create(1, &seed(), 1).unwrap();
    ledger.set_next_id(u64::MAX);
    assert_eq!(
        ledger.breed(1, id0, id1, &seed(), 2),
        Err(Error::IndexExhausted)
    );
    assert_eq!(ledger.next_kitty_id(), u64::MAX);
}

#[test]
fn failed_operation_rolls_back_everything() {
    let mut ledger = funded_ledger();
    let id0 = ledger.create(1, &seed(), 0).unwrap();
    let id1 = ledger.create(2, &seed(), 1).unwrap();

    let events_before = ledger.events().len();
    let next_before = ledger.next_kitty_id();
    let free_before = (ledger.free_balance(1), ledger.free_balance(2), ledger.free_balance(4));
    let reserved_before = (
        ledger.reserved_balance(1),
        ledger.reserved_balance(2),
        ledger.reserved_balance(4),
    );
    let list1_before = ledger.owner_kitties(1).unwrap().clone();

    // account 4 has no funds: breeding for it fails at the escrow step
    assert_eq!(
        ledger.breed(4, id0, id1, &seed(), 2),
        Err(Error::InsufficientFunds)
    );

    assert_eq!(ledger.events().len(), events_before);
    assert_eq!(ledger.next_kitty_id(), next_before);
    assert_eq!(
        (ledger.free_balance(1), ledger.free_balance(2), ledger.free_balance(4)),
        free_before
    );
    assert_eq!(
        (
            ledger.reserved_balance(1),
            ledger.reserved_balance(2),
            ledger.reserved_balance(4),
        ),
        reserved_before
    );
    assert_eq!(ledger.owner_kitties(1).unwrap(), &list1_before);
    assert_eq!(ledger.kitty_owner(id0), Some(1));
    assert_eq!(ledger.kitty_owner(id1), Some(2));
}

#[test]
fn random_genome_matches_blake2_of_payload() {
    let s = seed();
    let caller: u64 = 0x1122334455667788;
    let nonce: u64 = 9;
    let mut payload = Vec::new();
    payload.extend_from_slice(&s);
    payload.extend_from_slice(&caller.to_le_bytes());
    payload.extend_from_slice(&nonce.to_le_bytes());
    let expected = sp_core_hashing::blake2_128(&payload);
    assert_eq!(random_genome(&s, caller, nonce), expected);
}

#[test]
fn random_genome_is_deterministic_and_input_sensitive() {
    let s = seed();
    assert_eq!(random_genome(&s, 1, 0), random_genome(&s, 1, 0));
    assert_ne!(random_genome(&s, 1, 0), random_genome(&s, 1, 1));
    assert_ne!(random_genome(&s, 1, 0), random_genome(&s, 2, 0));
}

#[test]
fn mint_stores_the_synthesised_genome_and_emits_created() {
    let mut ledger = funded_ledger();
    let s = seed();
    let id = ledger.create(1, &s, 5).unwrap();
    let expected = Kitty(random_genome(&s, 1, 5));
    assert_eq!(ledger.kitties(id), Some(expected));
    assert_eq!(ledger.events().last(), Some(&Event::Created(1, id, expected)));
}

#[test]
fn bred_genome_is_crossover_of_parents_under_fresh_mask() {
    let mut ledger = funded_ledger();
    let s = seed();
    let id0 = ledger.create(1, &s, 0).unwrap();
    let id1 = ledger.create(2, &s, 1).unwrap();
    let g0 = ledger.kitties(id0).unwrap();
    let g1 = ledger.kitties(id1).unwrap();

    let child_id = ledger.breed(2, id0, id1, &s, 7).unwrap();
    let mask = random_genome(&s, 2, 7);
    let expected = Kitty(cross(&g0.0, &g1.0, &mask));
    assert_eq!(ledger.kitties(child_id), Some(expected));
    assert_eq!(
        ledger.events().last(),
        Some(&Event::Bred(2, child_id, expected))
    );
}

#[test]
fn breeding_needs_no_ownership_of_parents() {
    let mut ledger = funded_ledger();
    let id0 = ledger.create(1, &seed(), 0).unwrap();
    let id1 = ledger.create(1, &seed(), 1).unwrap();
    // account 2 owns neither parent, yet breeding succeeds
    let child_id = ledger.breed(2, id0, id1, &seed(), 2).unwrap();
    assert_eq!(ledger.kitty_owner(child_id), Some(2));
}

#[test]
fn transferred_asset_record_is_untouched() {
    let mut ledger = funded_ledger();
    let id = ledger.create(1, &seed(), 0).unwrap();
    let before = ledger.kitties(id);
    ledger.transfer(1, id, 2).unwrap();
    assert_eq!(ledger.kitties(id), before);
}
