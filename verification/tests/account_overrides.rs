use block_stage::account_overrides::{AccountKey, AccountOverrides, AccountState, LoadPath};
use solana_account::{AccountSharedData, ReadableAccount};
use solana_pubkey::Pubkey;
use solana_sdk_ids::sysvar;

fn key_of(byte: u8) -> AccountKey {
    AccountKey::new([byte; 32])
}

fn account(lamports: u64, data: Vec<u8>, owner: u8) -> AccountState {
    AccountState {
        lamports,
        data,
        owner: key_of(owner),
        executable: false,
        rent_epoch: 7,
    }
}

#[test]
fn test_set_account() {
    let mut accounts = AccountOverrides::default();
    let data = AccountState::default();
    let key = AccountKey::new(Pubkey::new_unique().to_bytes());
    accounts.set_account(&key, Some(data.clone()));
    assert_eq!(accounts.get(&key), Some(data));

    accounts.set_account(&key, None);
    assert!(accounts.get(&key).is_none());
}

#[test]
fn test_slot_history() {
    let mut accounts = AccountOverrides::default();
    let data = AccountState::default();
    let slot_history = AccountKey::new(sysvar::slot_history::id().to_bytes());

    assert!(accounts.get(&slot_history).is_none());
    accounts.set_slot_history(Some(data.clone()));

    assert_eq!(accounts.get(&slot_history), Some(data));
}

#[test]
fn default_account_state_is_the_empty_account() {
    let state = AccountState::default();
    assert_eq!(state.lamports, 0);
    assert_eq!(state.data, Vec::<u8>::new());
    assert_eq!(state.owner, AccountKey::new([0u8; 32]));
    assert!(!state.executable);
    assert_eq!(state.rent_epoch, 0);
}

#[test]
fn default_overlay_is_empty() {
    let accounts = AccountOverrides::default();
    assert!(accounts.is_empty());
    assert_eq!(accounts.len(), 0);
    assert!(accounts.entries().is_empty());
    assert!(accounts.get(&key_of(1)).is_none());
}

#[test]
fn get_returns_every_field_that_was_set() {
    let mut accounts = AccountOverrides::default();
    let stored = AccountState {
        lamports: 1_000_000,
        data: vec![9, 8, 7, 6],
        owner: key_of(0xAB),
        executable: true,
        rent_epoch: 42,
    };
    accounts.set_account(&key_of(3), Some(stored.clone()));
    let found = accounts.get(&key_of(3)).unwrap();
    assert_eq!(found.lamports, 1_000_000);
    assert_eq!(found.data, vec![9, 8, 7, 6]);
    assert_eq!(found.owner, key_of(0xAB));
    assert!(found.executable);
    assert_eq!(found.rent_epoch, 42);
    assert_eq!(found, stored);
    assert!(accounts.get(&key_of(4)).is_none());
}

#[test]
fn set_replaces_the_earlier_account() {
    let mut accounts = AccountOverrides::default();
    accounts.set_account(&key_of(1), Some(account(10, vec![1], 2)));
    accounts.set_account(&key_of(1), Some(account(20, vec![2, 2], 3)));
    assert_eq!(accounts.get(&key_of(1)), Some(account(20, vec![2, 2], 3)));
    assert_eq!(accounts.len(), 1);
}

#[test]
fn set_leaves_other_keys_alone() {
    let mut accounts = AccountOverrides::default();
    accounts.set_account(&key_of(1), Some(account(10, vec![1], 2)));
    accounts.set_account(&key_of(2), Some(account(20, vec![2], 2)));
    accounts.set_account(&key_of(1), None);
    assert!(accounts.get(&key_of(1)).is_none());
    assert_eq!(accounts.get(&key_of(2)), Some(account(20, vec![2], 2)));
}

#[test]
fn removing_an_absent_key_changes_nothing() {
    let mut accounts = AccountOverrides::default();
    accounts.set_account(&key_of(5), Some(account(1, vec![], 0)));
    accounts.set_account(&key_of(6), None);
    assert_eq!(accounts.len(), 1);
    assert_eq!(accounts.get(&key_of(5)), Some(account(1, vec![], 0)));
}

#[test]
fn len_and_is_empty_follow_the_entries() {
    let mut accounts = AccountOverrides::default();
    assert!(accounts.is_empty());
    accounts.set_account(&key_of(1), Some(account(1, vec![], 0)));
    accounts.set_account(&key_of(2), Some(account(2, vec![], 0)));
    accounts.set_account(&key_of(3), Some(account(3, vec![], 0)));
    assert!(!accounts.is_empty());
    assert_eq!(accounts.len(), 3);
    accounts.set_account(&key_of(2), None);
    assert_eq!(accounts.len(), 2);
    accounts.set_account(&key_of(1), None);
    accounts.set_account(&key_of(3), None);
    assert!(accounts.is_empty());
    assert_eq!(accounts.len(), 0);
}

#[test]
fn entries_lists_each_override_once() {
    let mut accounts = AccountOverrides::default();
    accounts.set_account(&key_of(1), Some(account(1, vec![1], 0)));
    accounts.set_account(&key_of(2), Some(account(2, vec![2], 0)));
    let mut entries = accounts.entries();
    entries.sort_by_key(|entry| entry.0.bytes);
    assert_eq!(
        entries,
        vec![
            (key_of(1), account(1, vec![1], 0)),
            (key_of(2), account(2, vec![2], 0)),
        ]
    );
}

#[test]
fn merge_prefers_the_merged_in_overlay() {
    let mut base = AccountOverrides::default();
    base.set_account(&key_of(1), Some(account(10, vec![1], 0)));
    base.set_account(&key_of(2), Some(account(20, vec![2], 0)));

    let mut other = AccountOverrides::default();
    other.set_account(&key_of(2), Some(account(200, vec![2, 2], 9)));
    other.set_account(&key_of(3), Some(account(300, vec![3], 9)));

    base.merge(other);

    assert_eq!(base.get(&key_of(1)), Some(account(10, vec![1], 0)));
    assert_eq!(base.get(&key_of(2)), Some(account(200, vec![2, 2], 9)));
    assert_eq!(base.get(&key_of(3)), Some(account(300, vec![3], 9)));
    assert!(base.get(&key_of(4)).is_none());
    assert_eq!(base.len(), 3);
}

#[test]
fn merge_of_an_empty_overlay_changes_nothing() {
    let mut base = AccountOverrides::default();
    base.set_account(&key_of(1), Some(account(10, vec![1], 0)));
    base.merge(AccountOverrides::default());
    assert_eq!(base.len(), 1);
    assert_eq!(base.get(&key_of(1)), Some(account(10, vec![1], 0)));
}

#[test]
fn slot_history_override_can_be_removed() {
    let mut accounts = AccountOverrides::default();
    let slot_history = AccountKey::new(sysvar::slot_history::id().to_bytes());
    accounts.set_slot_history(Some(account(5, vec![1, 2, 3], 1)));
    assert_eq!(accounts.get(&slot_history), Some(account(5, vec![1, 2, 3], 1)));
    assert_eq!(
        slot_history.bytes,
        [
            6, 167, 213, 23, 25, 47, 10, 175, 200, 117, 226, 225, 132, 87, 124, 80, 105, 207,
            200, 70, 73, 227, 235, 146, 120, 47, 149, 141, 72, 0, 0, 0
        ]
    );
    accounts.set_slot_history(None);
    assert!(accounts.get(&slot_history).is_none());
    assert!(accounts.is_empty());
}

#[test]
fn accounts_hands_out_the_backing_map() {
    let mut accounts = AccountOverrides::default();
    accounts.set_account(&key_of(1), Some(account(1, vec![], 0)));
    let _map = accounts.accounts();
    assert_eq!(accounts.len(), 1);
}

#[test]
fn ordinary_load_prefers_the_override() {
    let mut accounts = AccountOverrides::default();
    accounts.set_account(&key_of(1), Some(account(10, vec![1], 0)));
    let canonical = account(99, vec![9], 9);
    assert_eq!(
        accounts.resolve(&key_of(1), LoadPath::Ordinary, Some(canonical.clone())),
        Some(account(10, vec![1], 0))
    );
    assert_eq!(
        accounts.resolve(&key_of(2), LoadPath::Ordinary, Some(canonical.clone())),
        Some(canonical)
    );
    assert_eq!(accounts.resolve(&key_of(2), LoadPath::Ordinary, None), None);
    assert_eq!(
        accounts.resolve(&key_of(1), LoadPath::Ordinary, None),
        Some(account(10, vec![1], 0))
    );
}

#[test]
fn nonce_and_instructions_loads_bypass_the_overlay() {
    let mut accounts = AccountOverrides::default();
    accounts.set_account(&key_of(1), Some(account(10, vec![1], 0)));
    let canonical = account(99, vec![9], 9);
    assert_eq!(
        accounts.resolve(&key_of(1), LoadPath::DurableNonce, Some(canonical.clone())),
        Some(canonical.clone())
    );
    assert_eq!(
        accounts.resolve(&key_of(1), LoadPath::InstructionsSysvar, Some(canonical.clone())),
        Some(canonical)
    );
    assert_eq!(accounts.resolve(&key_of(1), LoadPath::DurableNonce, None), None);
}

#[test]
fn sets_of_distinct_keys_give_the_same_overlay_in_either_order() {
    let mut one = AccountOverrides::default();
    one.set_account(&key_of(1), Some(account(10, vec![1], 0)));
    one.set_account(&key_of(2), Some(account(20, vec![2], 0)));
    let mut other = AccountOverrides::default();
    other.set_account(&key_of(2), Some(account(20, vec![2], 0)));
    other.set_account(&key_of(1), Some(account(10, vec![1], 0)));
    let mut left = one.entries();
    let mut right = other.entries();
    left.sort_by_key(|entry| entry.0.bytes);
    right.sort_by_key(|entry| entry.0.bytes);
    assert_eq!(left, right);
    assert_eq!(left.len(), 2);
}

#[test]
fn default_state_is_the_default_shared_account() {
    let shared = AccountSharedData::default();
    let state = AccountState::default();
    assert_eq!(state.lamports, shared.lamports());
    assert_eq!(state.data.as_slice(), shared.data());
    assert_eq!(state.owner.bytes, shared.owner().to_bytes());
    assert_eq!(state.executable, shared.executable());
    assert_eq!(state.rent_epoch, shared.rent_epoch());
}

fn lamports(n: u64) -> AccountState {
    account(n, vec![], 0)
}

#[test]
fn len_moves_by_one_with_each_new_or_removed_key() {
    let mut accounts = AccountOverrides::default();
    assert_eq!(accounts.len(), 0);
    accounts.set_account(&key_of(7), Some(AccountState::default()));
    assert!(accounts.get(&key_of(7)).is_some());
    assert_eq!(accounts.len(), 1);
    assert!(!accounts.is_empty());
    accounts.set_account(&key_of(8), Some(lamports(1)));
    assert_eq!(accounts.len(), 2);
    accounts.set_account(&key_of(8), Some(lamports(2)));
    assert_eq!(accounts.len(), 2);
    accounts.set_account(&key_of(9), None);
    assert_eq!(accounts.len(), 2);
    accounts.set_account(&key_of(7), None);
    assert_eq!(accounts.len(), 1);
    assert_eq!(accounts.len(), accounts.len());
    assert_eq!(accounts.is_empty(), accounts.len() == 0);
    assert_eq!(accounts.len(), accounts.entries().len());
}

#[test]
fn two_sets_of_one_key_keep_one_entry() {
    let mut accounts = AccountOverrides::default();
    accounts.set_account(&key_of(1), Some(lamports(1)));
    accounts.set_account(&key_of(1), Some(lamports(2)));
    assert_eq!(accounts.get(&key_of(1)), Some(lamports(2)));
    assert_eq!(accounts.len(), 1);
}

#[test]
fn merge_counts_the_union_of_the_keys() {
    let mut base = AccountOverrides::default();
    base.set_account(&key_of(1), Some(lamports(1)));
    base.set_account(&key_of(2), Some(lamports(2)));
    let mut other = AccountOverrides::default();
    other.set_account(&key_of(2), Some(lamports(20)));
    other.set_account(&key_of(3), Some(lamports(30)));
    base.merge(other);
    assert_eq!(base.len(), 3);
    assert_eq!(base.get(&key_of(1)), Some(lamports(1)));
    assert_eq!(base.get(&key_of(2)), Some(lamports(20)));
    assert_eq!(base.get(&key_of(3)), Some(lamports(30)));
}

#[test]
fn merge_ignores_a_key_that_was_set_and_removed() {
    let mut base = AccountOverrides::default();
    base.set_account(&key_of(1), Some(lamports(1)));
    let mut other = AccountOverrides::default();
    other.set_account(&key_of(1), Some(lamports(2)));
    other.set_account(&key_of(1), None);
    base.merge(other);
    assert_eq!(base.get(&key_of(1)), Some(lamports(1)));
    assert_eq!(base.len(), 1);
}

#[test]
fn merge_of_transfer_deltas_updates_payer_and_payee() {
    let mut state = AccountOverrides::default();
    state.set_account(&key_of(1), Some(lamports(100)));
    let mut deltas = AccountOverrides::default();
    deltas.set_account(&key_of(1), Some(lamports(99)));
    deltas.set_account(&key_of(2), Some(lamports(1)));
    state.merge(deltas);
    assert_eq!(state.len(), 2);
    assert_eq!(state.get(&key_of(1)), Some(lamports(99)));
    assert_eq!(state.get(&key_of(2)), Some(lamports(1)));
}

#[test]
fn merge_into_an_empty_overlay_gives_the_other_overlay() {
    let mut other = AccountOverrides::default();
    other.set_account(&key_of(1), Some(lamports(1)));
    other.set_account(&key_of(2), Some(lamports(2)));
    let mut base = AccountOverrides::default();
    base.merge(other);
    assert_eq!(base.len(), 2);
    assert_eq!(base.get(&key_of(1)), Some(lamports(1)));
    assert_eq!(base.get(&key_of(2)), Some(lamports(2)));
}

#[test]
fn chain_of_sets_reads_what_the_step_before_wrote() {
    let mut accounts = AccountOverrides::default();
    accounts.set_account(&key_of(0), Some(lamports(3)));
    for i in 0..3u8 {
        let held = accounts.get(&key_of(i)).unwrap().lamports;
        accounts.set_account(&key_of(i + 1), Some(lamports(held - 1)));
    }
    assert_eq!(accounts.len(), 4);
    assert_eq!(accounts.get(&key_of(1)), Some(lamports(2)));
    assert_eq!(accounts.get(&key_of(2)), Some(lamports(1)));
    assert_eq!(accounts.get(&key_of(3)), Some(lamports(0)));
}

#[test]
fn staged_write_that_is_never_merged_leaves_the_shared_overlay_alone() {
    let mut shared = AccountOverrides::default();
    shared.set_account(&key_of(1), Some(lamports(5)));
    {
        let mut staged = AccountOverrides::default();
        staged.set_account(&key_of(1), Some(lamports(9)));
        staged.set_account(&key_of(2), Some(lamports(1)));
        assert_eq!(staged.len(), 2);
    }
    assert_eq!(shared.get(&key_of(1)), Some(lamports(5)));
    assert!(shared.get(&key_of(2)).is_none());
    assert_eq!(shared.len(), 1);
}

#[test]
fn len_stays_exact_while_the_map_grows_and_shrinks() {
    let mut accounts = AccountOverrides::default();
    for round in 0..4u64 {
        for i in 0..2000u32 {
            let mut bytes = [0u8; 32];
            bytes[..4].copy_from_slice(&i.to_le_bytes());
            accounts.set_account(&AccountKey::new(bytes), Some(lamports(round)));
            assert_eq!(accounts.len(), i as usize + 1);
        }
        for i in 0..2000u32 {
            let mut bytes = [0u8; 32];
            bytes[..4].copy_from_slice(&i.to_le_bytes());
            accounts.set_account(&AccountKey::new(bytes), None);
            assert_eq!(accounts.len(), 1999 - i as usize);
        }
        assert!(accounts.is_empty());
    }
}
