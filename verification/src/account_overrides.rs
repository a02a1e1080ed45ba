//! The account override overlay: a key-to-account map that execution consults
//! before it falls back to canonical ledger state.
//!
//! A key that is absent from the overlay means "not overridden"; callers fall
//! back to canonical state themselves. The overlay is stored in an
//! `scc::HashMap`, and its contracts are stated over a mathematical map from
//! the key's bytes to the account's contents.

use solana_account::{Account, AccountSharedData, ReadableAccount};
use solana_pubkey::Pubkey;
use vstd::prelude::*;

verus! {

/// The `scc::HashMap` that stores the overlay, keyed by `solana_pubkey::Pubkey`
/// and holding `solana_account::AccountSharedData`. Its contents are opaque
/// to the verifier and are spoken of through `overlay_entries`.
///
/// The holder can move between threads but cannot be shared between them
/// (the marker field takes `Sync` away), so no other call walks the map while
/// one call reads it. The exact count that `map_len` claims rests on this.
#[verifier::external_body]
pub struct AccountMap {
    inner: scc::HashMap<Pubkey, AccountSharedData, ahash::RandomState>,
    unshared: std::marker::PhantomData<std::cell::Cell<()>>,
}

/// The 32 bytes that identify an account.
#[derive(Clone, Copy, Debug, PartialEq, Eq, Hash)]
pub struct AccountKey {
    pub bytes: [u8; 32],
}

impl View for AccountKey {
    type V = Seq<u8>;

    open spec fn view(&self) -> Seq<u8> {
        self.bytes@
    }
}

impl AccountKey {
    /// The key made of the given bytes.
    pub fn new(bytes: [u8; 32]) -> (key: AccountKey)
        ensures
            key.bytes == bytes,
            key@ == bytes@,
    {
        AccountKey { bytes }
    }
}

/// The contents of an account, as plain values.
#[derive(Clone, Debug, PartialEq, Eq)]
pub struct AccountState {
    /// Lamports held by the account.
    pub lamports: u64,
    /// The account's data.
    pub data: Vec<u8>,
    /// The program that owns the account.
    pub owner: AccountKey,
    /// Whether the data holds a loaded program.
    pub executable: bool,
    /// The epoch at which the account next owes rent.
    pub rent_epoch: u64,
}

/// What an `AccountState` holds, as a mathematical value.
pub struct AccountStateView {
    pub lamports: u64,
    pub data: Seq<u8>,
    pub owner: Seq<u8>,
    pub executable: bool,
    pub rent_epoch: u64,
}

impl View for AccountState {
    type V = AccountStateView;

    open spec fn view(&self) -> AccountStateView {
        AccountStateView {
            lamports: self.lamports,
            data: self.data@,
            owner: self.owner@,
            executable: self.executable,
            rent_epoch: self.rent_epoch,
        }
    }
}

impl Default for AccountState {
    /// The empty account: no lamports, no data, the all-zero owner.
    fn default() -> (state: AccountState)
        ensures
            state@ == (AccountStateView {
                lamports: 0,
                data: Seq::empty(),
                owner: Seq::new(32, |i: int| 0u8),
                executable: false,
                rent_epoch: 0,
            }),
    {
        let state = AccountState {
            lamports: 0,
            data: Vec::new(),
            owner: AccountKey { bytes: [0u8; 32] },
            executable: false,
            rent_epoch: 0,
        };
        assert(state.owner@ =~= Seq::new(32, |i: int| 0u8));
        state
    }
}

/// The entries of the map that stores an overlay: each key by its 32 bytes,
/// each account by its contents.
pub uninterp spec fn overlay_entries(map: AccountMap) -> Map<Seq<u8>, AccountStateView>;

/// The overlay in which no account is overridden.
pub open spec fn no_overrides() -> Map<Seq<u8>, AccountStateView> {
    Map::empty()
}

/// The overlay after `set_account`: the key maps to the account where one is
/// given, and is absent where none is; every other key is untouched.
pub open spec fn after_set(
    overlay: Map<Seq<u8>, AccountStateView>,
    key: Seq<u8>,
    account: Option<AccountStateView>,
) -> Map<Seq<u8>, AccountStateView> {
    match account {
        Some(state) => overlay.insert(key, state),
        None => overlay.remove(key),
    }
}

/// What the overlay says of a key: the overriding account, or `None` where
/// the key is not overridden.
pub open spec fn lookup(overlay: Map<Seq<u8>, AccountStateView>, key: Seq<u8>) -> Option<
    AccountStateView,
> {
    if overlay.contains_key(key) {
        Some(overlay[key])
    } else {
        None
    }
}

/// The overlay after `other` was merged into `overlay`: key by key, the
/// account of `other` wins.
pub open spec fn after_merge(
    overlay: Map<Seq<u8>, AccountStateView>,
    other: Map<Seq<u8>, AccountStateView>,
) -> Map<Seq<u8>, AccountStateView> {
    overlay.union_prefer_right(other)
}

/// How an account is being loaded. The overlay is consulted for ordinary
/// loads only: a durable nonce account and the instructions sysvar always
/// read canonical state.
#[derive(Clone, Copy, Debug, PartialEq, Eq)]
pub enum LoadPath {
    Ordinary,
    DurableNonce,
    InstructionsSysvar,
}

/// What a load sees: on the ordinary path the overriding account where the
/// overlay holds the key and the canonical account otherwise; on the other
/// paths the canonical account, whatever the overlay holds.
pub open spec fn resolved(
    overlay: Map<Seq<u8>, AccountStateView>,
    key: Seq<u8>,
    path: LoadPath,
    canonical: Option<AccountStateView>,
) -> Option<AccountStateView> {
    match path {
        LoadPath::Ordinary => match lookup(overlay, key) {
            Some(state) => Some(state),
            None => canonical,
        },
        LoadPath::DurableNonce => canonical,
        LoadPath::InstructionsSysvar => canonical,
    }
}

/// The contents of an account that may be absent.
pub open spec fn contents(account: Option<AccountState>) -> Option<AccountStateView> {
    match account {
        Some(state) => Some(state@),
        None => None,
    }
}

/// Whether the overlay overrides no key at all.
pub open spec fn overrides_nothing(overlay: Map<Seq<u8>, AccountStateView>) -> bool {
    forall|key: Seq<u8>| !overlay.contains_key(key)
}

/// Whether `entries` is finite and has exactly `count` keys.
pub open spec fn counted_by(entries: Map<Seq<u8>, AccountStateView>, count: usize) -> bool {
    entries.dom().finite() && entries.len() == count
}

/// The bytes of the slot-history sysvar's identifier.
pub open spec fn slot_history_key_bytes() -> Seq<u8> {
    seq![
        6u8, 167u8, 213u8, 23u8, 25u8, 47u8, 10u8, 175u8,
        200u8, 117u8, 226u8, 225u8, 132u8, 87u8, 124u8, 80u8,
        105u8, 207u8, 200u8, 70u8, 73u8, 227u8, 235u8, 146u8,
        120u8, 47u8, 149u8, 141u8, 72u8, 0u8, 0u8, 0u8,
    ]
}

/// Calls `scc::HashMap::with_hasher` with a fresh `ahash::RandomState`.
/// Claims that the map it returns has no entries.
#[verifier::external_body]
fn map_empty() -> (fresh: AccountMap)
    ensures
        overlay_entries(fresh) == no_overrides(),
{
    let inner = scc::HashMap::with_hasher(ahash::RandomState::new());
    AccountMap { inner, unshared: std::marker::PhantomData }
}

/// Calls `scc::HashMap::upsert_sync` with the key and the account converted
/// field by field. Claims that afterwards the key maps to the given account
/// and every other key is as before.
#[verifier::external_body]
fn map_upsert(map: &mut AccountMap, key: &AccountKey, state: &AccountState)
    ensures
        overlay_entries(*final(map)) == overlay_entries(*old(map)).insert(key@, state@),
{
    let account = Account {
        lamports: state.lamports,
        data: state.data.clone(),
        owner: Pubkey::new_from_array(state.owner.bytes),
        executable: state.executable,
        rent_epoch: state.rent_epoch,
    };
    let shared = AccountSharedData::from(account);
    let _ = map.inner.upsert_sync(Pubkey::new_from_array(key.bytes), shared);
}

/// Calls `scc::HashMap::remove_sync`. Claims that afterwards the key is
/// absent and every other key is as before.
#[verifier::external_body]
fn map_remove(map: &mut AccountMap, key: &AccountKey)
    ensures
        overlay_entries(*final(map)) == overlay_entries(*old(map)).remove(key@),
{
    let _ = map.inner.remove_sync(&Pubkey::new_from_array(key.bytes));
}

/// Calls `scc::HashMap::get_sync` and copies the entry's account out field by
/// field. Claims that the result is the account stored under the key, and
/// `None` exactly when the key is absent.
#[verifier::external_body]
fn map_get(map: &AccountMap, key: &AccountKey) -> (found: Option<AccountState>)
    ensures
        match found {
            Some(state) => overlay_entries(*map).contains_key(key@)
                && overlay_entries(*map)[key@] == state@,
            None => !overlay_entries(*map).contains_key(key@),
        },
{
    map.inner.get_sync(&Pubkey::new_from_array(key.bytes)).map(|entry| AccountState {
        lamports: entry.get().lamports(),
        data: entry.get().data().to_vec(),
        owner: AccountKey { bytes: entry.get().owner().to_bytes() },
        executable: entry.get().executable(),
        rent_epoch: entry.get().rent_epoch(),
    })
}

/// Calls `scc::HashMap::len`, which adds up the entry counts of the buckets
/// of the current array and of an old one that is still linked. An entry
/// that moves from the old array leaves the old bucket's count as it enters
/// the new one, and no other call walks the map meanwhile (see `AccountMap`),
/// so each entry is counted once. Claims that the map is finite and that the
/// result is the number of its keys.
#[verifier::external_body]
fn map_len(map: &AccountMap) -> (count: usize)
    ensures
        counted_by(overlay_entries(*map), count),
{
    map.inner.len()
}

/// Calls `scc::HashMap::is_empty`. Claims that the result is `true` exactly
/// when the map has no entry.
#[verifier::external_body]
fn map_is_empty(map: &AccountMap) -> (empty: bool)
    ensures
        empty <==> overrides_nothing(overlay_entries(*map)),
{
    map.inner.is_empty()
}

/// Calls `scc::HashMap::iter_sync` and copies every entry out, in the order
/// in which the map is walked. Claims that every pair handed out is an entry
/// of the map and that every entry of the map is handed out; nothing is
/// claimed of the order.
#[verifier::external_body]
fn map_entries(map: &AccountMap) -> (entries: Vec<(AccountKey, AccountState)>)
    ensures
        forall|i: int|
            0 <= i < entries@.len() ==> overlay_entries(*map).contains_key(
                (#[trigger] entries@[i]).0@,
            ) && overlay_entries(*map)[entries@[i].0@] == entries@[i].1@,
        forall|key: Seq<u8>| #[trigger]
            overlay_entries(*map).contains_key(key) ==> listed(
                entries@,
                entries@.len() as int,
                key,
            ),
{
    let mut entries = Vec::new();
    map.inner.iter_sync(|key, account| {
        let state = AccountState {
            lamports: account.lamports(),
            data: account.data().to_vec(),
            owner: AccountKey { bytes: account.owner().to_bytes() },
            executable: account.executable(),
            rent_epoch: account.rent_epoch(),
        };
        entries.push((AccountKey { bytes: key.to_bytes() }, state));
        true
    });
    entries
}

/// Calls `solana_sdk_ids::sysvar::slot_history::id`. Claims that the
/// identifier is the 32 bytes that its base-58 text decodes to.
#[verifier::external_body]
fn slot_history_key() -> (key: AccountKey)
    ensures
        key@ == slot_history_key_bytes(),
{
    AccountKey { bytes: solana_sdk_ids::sysvar::slot_history::id().to_bytes() }
}

/// Whether `key` is the key of one of the first `n` pairs of `entries`.
pub open spec fn listed(entries: Seq<(AccountKey, AccountState)>, n: int, key: Seq<u8>) -> bool {
    exists|j: int| 0 <= j < n && j < entries.len() && (#[trigger] entries[j]).0@ == key
}

/// Overridden accounts, consulted before canonical ledger state.
pub struct AccountOverrides {
    accounts: AccountMap,
}

impl View for AccountOverrides {
    type V = Map<Seq<u8>, AccountStateView>;

    closed spec fn view(&self) -> Map<Seq<u8>, AccountStateView> {
        overlay_entries(self.accounts)
    }
}

impl AccountOverrides {
    /// Inserts the account under `pubkey` when one is given, and removes the
    /// override of `pubkey` when none is.
    pub fn set_account(&mut self, pubkey: &AccountKey, account: Option<AccountState>)
        ensures
            final(self)@ == after_set(old(self)@, pubkey@, contents(account)),
    {
        match account {
            Some(state) => {
                map_upsert(&mut self.accounts, pubkey, &state);
            },
            None => {
                map_remove(&mut self.accounts, pubkey);
            },
        }
    }

    /// Sets or removes the override of the slot-history sysvar. The account's
    /// contents are not examined.
    pub fn set_slot_history(&mut self, slot_history: Option<AccountState>)
        ensures
            final(self)@ == after_set(old(self)@, slot_history_key_bytes(), contents(slot_history)),
    {
        let key = slot_history_key();
        self.set_account(&key, slot_history);
    }

    /// The account that overrides `pubkey`, if there is one. `None` means
    /// that the overlay says nothing of the key.
    pub fn get(&self, pubkey: &AccountKey) -> (found: Option<AccountState>)
        ensures
            contents(found) == lookup(self@, pubkey@),
    {
        map_get(&self.accounts, pubkey)
    }

    /// The account that a load of `pubkey` sees, given the account that
    /// canonical state holds for it: the override on the ordinary path where
    /// there is one, and the canonical account in every other case.
    pub fn resolve(
        &self,
        pubkey: &AccountKey,
        path: LoadPath,
        canonical: Option<AccountState>,
    ) -> (seen: Option<AccountState>)
        ensures
            contents(seen) == resolved(self@, pubkey@, path, contents(canonical)),
    {
        match path {
            LoadPath::Ordinary => match self.get(pubkey) {
                Some(state) => Some(state),
                None => canonical,
            },
            LoadPath::DurableNonce => canonical,
            LoadPath::InstructionsSysvar => canonical,
        }
    }

    /// The number of overridden accounts.
    pub fn len(&self) -> (count: usize)
        ensures
            self@.dom().finite(),
            count == self@.len(),
            (count == 0) == overrides_nothing(self@),
    {
        let count = map_len(&self.accounts);
        proof {
            law_empty_iff_len_zero(self@);
        }
        count
    }

    /// Whether no account is overridden.
    pub fn is_empty(&self) -> (empty: bool)
        ensures
            empty <==> overrides_nothing(self@),
    {
        map_is_empty(&self.accounts)
    }

    /// The map that stores the overrides.
    pub fn accounts(&self) -> (map: &AccountMap)
        ensures
            overlay_entries(*map) == self@,
    {
        &self.accounts
    }

    /// Every overridden key with its account, in no particular order: each
    /// pair is an override of this overlay, and each override is among the
    /// pairs.
    pub fn entries(&self) -> (entries: Vec<(AccountKey, AccountState)>)
        ensures
            forall|i: int|
                0 <= i < entries@.len() ==> lookup(self@, (#[trigger] entries@[i]).0@) == Some(
                    entries@[i].1@,
                ),
            forall|key: Seq<u8>| #[trigger]
                self@.contains_key(key) ==> listed(entries@, entries@.len() as int, key),
    {
        map_entries(&self.accounts)
    }

    /// Applies every override of `other` to this overlay, one key at a time.
    /// Where both hold a key, the account of `other` wins.
    pub fn merge(&mut self, other: AccountOverrides)
        ensures
            final(self)@ == after_merge(old(self)@, other@),
            final(self)@.dom() == old(self)@.dom().union(other@.dom()),
            overrides_nothing(other@) ==> final(self)@ == old(self)@,
            overrides_nothing(old(self)@) ==> final(self)@ == other@,
            old(self)@.dom().finite() && other@.dom().finite() ==> final(self)@.dom().finite()
                && old(self)@.len() <= final(self)@.len() && other@.len() <= final(self)@.len()
                && final(self)@.len() <= old(self)@.len() + other@.len(),
    {
        let entries = map_entries(&other.accounts);
        let mut i: usize = 0;
        while i < entries.len()
            invariant
                i <= entries.len(),
                self@ == applied(old(self)@, entries@, i as int),
            decreases entries.len() - i,
        {
            map_upsert(&mut self.accounts, &entries[i].0, &entries[i].1);
            i += 1;
        }
        proof {
            let merged = old(self)@.union_prefer_right(other@);
            let result = self@;
            assert forall|key: Seq<u8>|
                (#[trigger] result.dom().contains(key)) == merged.dom().contains(key) && (
                result.dom().contains(key) ==> result[key] == merged[key]) by {
                lemma_applied(old(self)@, other@, entries@, entries@.len() as int, key);
                if listed(entries@, entries@.len() as int, key) {
                    let j = choose|j: int|
                        0 <= j < entries@.len() && j < entries@.len() && (#[trigger] entries@[j]).0@
                            == key;
                    assert(other@.contains_key(entries@[j].0@));
                }
            }
            assert(result =~= merged);
            assert(merged.dom() =~= old(self)@.dom().union(other@.dom()));
            if overrides_nothing(other@) {
                assert(merged =~= old(self)@);
            }
            if overrides_nothing(old(self)@) {
                assert(merged =~= other@);
            }
            if old(self)@.dom().finite() && other@.dom().finite() {
                law_len_after_merge(old(self)@, other@);
            }
        }
    }
}

/// `base` after the first `n` pairs of `entries` were inserted, in order.
spec fn applied(
    base: Map<Seq<u8>, AccountStateView>,
    entries: Seq<(AccountKey, AccountState)>,
    n: int,
) -> Map<Seq<u8>, AccountStateView>
    decreases n,
{
    if n <= 0 {
        base
    } else {
        applied(base, entries, n - 1).insert(entries[n - 1].0@, entries[n - 1].1@)
    }
}

/// Where every pair of `entries` is an entry of `other`, inserting the first
/// `n` pairs into `base` gives a listed key the value that `other` has for
/// it and leaves every other key as `base` has it.
proof fn lemma_applied(
    base: Map<Seq<u8>, AccountStateView>,
    other: Map<Seq<u8>, AccountStateView>,
    entries: Seq<(AccountKey, AccountState)>,
    n: int,
    key: Seq<u8>,
)
    requires
        0 <= n <= entries.len(),
        forall|j: int|
            0 <= j < entries.len() ==> other.contains_key((#[trigger] entries[j]).0@)
                && other[entries[j].0@] == entries[j].1@,
    ensures
        listed(entries, n, key) ==> applied(base, entries, n).contains_key(key) && applied(
            base,
            entries,
            n,
        )[key] == other[key],
        !listed(entries, n, key) ==> applied(base, entries, n).contains_key(key)
            == base.contains_key(key) && (base.contains_key(key) ==> applied(base, entries, n)[key]
            == base[key]),
    decreases n,
{
    if n > 0 {
        lemma_applied(base, other, entries, n - 1, key);
        let last = entries[n - 1];
        assert(other.contains_key(last.0@) && other[last.0@] == last.1@);
        if listed(entries, n - 1, key) {
            let j = choose|j: int|
                0 <= j < n - 1 && j < entries.len() && (#[trigger] entries[j]).0@ == key;
            assert(listed(entries, n, key));
        }
        if last.0@ == key {
            assert(listed(entries, n, key));
        }
        if listed(entries, n, key) && last.0@ != key {
            let j = choose|j: int|
                0 <= j < n && j < entries.len() && (#[trigger] entries[j]).0@ == key;
            assert(j < n - 1);
            assert(listed(entries, n - 1, key));
        }
    }
}

impl Default for AccountOverrides {
    /// The empty overlay: no account is overridden.
    fn default() -> (overrides: AccountOverrides)
        ensures
            overrides@ == no_overrides(),
    {
        AccountOverrides { accounts: map_empty() }
    }
}

/// Reading a key right after it was set gives back what was set: the account
/// where one was given, nothing where the override was removed.
pub proof fn law_get_after_set(
    overlay: Map<Seq<u8>, AccountStateView>,
    key: Seq<u8>,
    account: Option<AccountStateView>,
)
    ensures
        lookup(after_set(overlay, key, account), key) == account,
{
}

/// Setting one key leaves what the overlay says of every other key as it was.
pub proof fn law_set_keeps_other_keys(
    overlay: Map<Seq<u8>, AccountStateView>,
    key: Seq<u8>,
    account: Option<AccountStateView>,
    other_key: Seq<u8>,
)
    requires
        other_key != key,
    ensures
        lookup(after_set(overlay, key, account), other_key) == lookup(overlay, other_key),
{
}

/// Sets of two different keys give the same overlay in either order, so
/// neither update is lost to the other.
pub proof fn law_sets_of_distinct_keys_commute(
    overlay: Map<Seq<u8>, AccountStateView>,
    first_key: Seq<u8>,
    first: Option<AccountStateView>,
    second_key: Seq<u8>,
    second: Option<AccountStateView>,
)
    requires
        first_key != second_key,
    ensures
        after_set(after_set(overlay, first_key, first), second_key, second) == after_set(
            after_set(overlay, second_key, second),
            first_key,
            first,
        ),
{
    assert(after_set(after_set(overlay, first_key, first), second_key, second) =~= after_set(
        after_set(overlay, second_key, second),
        first_key,
        first,
    ));
}

/// A load off the ordinary path never sees the overlay.
pub proof fn law_overlay_bypassed_off_the_ordinary_path(
    overlay: Map<Seq<u8>, AccountStateView>,
    key: Seq<u8>,
    path: LoadPath,
    canonical: Option<AccountStateView>,
)
    requires
        path != LoadPath::Ordinary,
    ensures
        resolved(overlay, key, path, canonical) == canonical,
{
}

/// A finite overlay overrides nothing exactly when it has no keys.
pub proof fn law_empty_iff_len_zero(overlay: Map<Seq<u8>, AccountStateView>)
    requires
        overlay.dom().finite(),
    ensures
        overrides_nothing(overlay) <==> overlay.len() == 0,
{
    if overlay.len() == 0 {
        overlay.dom().lemma_len0_is_empty();
        assert forall|key: Seq<u8>| !overlay.contains_key(key) by {
            assert(!Set::<Seq<u8>>::empty().contains(key));
        }
    }
    if overrides_nothing(overlay) {
        assert(overlay.dom() =~= Set::<Seq<u8>>::empty());
    }
}

/// The empty overlay is finite and has no keys.
pub proof fn law_len_of_no_overrides()
    ensures
        no_overrides().dom().finite(),
        no_overrides().len() == 0,
{
}

/// How the number of keys moves with a set: up by one where an account is
/// set under a key that was absent, down by one where the override of a
/// present key is removed, and not at all otherwise.
pub proof fn law_len_after_set(
    overlay: Map<Seq<u8>, AccountStateView>,
    key: Seq<u8>,
    account: Option<AccountStateView>,
)
    requires
        overlay.dom().finite(),
    ensures
        after_set(overlay, key, account).dom().finite(),
        account is Some && !overlay.contains_key(key) ==> after_set(overlay, key, account).len()
            == overlay.len() + 1,
        account is None && overlay.contains_key(key) ==> after_set(overlay, key, account).len()
            == overlay.len() - 1,
        account is Some == overlay.contains_key(key) ==> after_set(overlay, key, account).len()
            == overlay.len(),
{
    match account {
        Some(state) => {
            assert(overlay.insert(key, state).dom() =~= overlay.dom().insert(key));
        },
        None => {
            assert(overlay.remove(key).dom() =~= overlay.dom().remove(key));
        },
    }
}

/// After a merge the keys are those of either overlay, so the number of keys
/// is that of the union: no fewer than either overlay had, and no more than
/// both together.
pub proof fn law_len_after_merge(
    overlay: Map<Seq<u8>, AccountStateView>,
    other: Map<Seq<u8>, AccountStateView>,
)
    requires
        overlay.dom().finite(),
        other.dom().finite(),
    ensures
        after_merge(overlay, other).dom() == overlay.dom().union(other.dom()),
        after_merge(overlay, other).dom().finite(),
        after_merge(overlay, other).len() == overlay.dom().union(other.dom()).len(),
        overlay.len() <= after_merge(overlay, other).len(),
        other.len() <= after_merge(overlay, other).len(),
        after_merge(overlay, other).len() <= overlay.len() + other.len(),
{
    let both = overlay.dom().union(other.dom());
    assert(after_merge(overlay, other).dom() =~= both);
    vstd::set_lib::lemma_len_union(overlay.dom(), other.dom());
    vstd::set_lib::lemma_len_subset(overlay.dom(), both);
    vstd::set_lib::lemma_len_subset(other.dom(), both);
}

/// After a merge, a key reads as the merged-in overlay has it where that
/// overlay holds the key, and as the receiving overlay had it otherwise.
pub proof fn law_get_after_merge(
    overlay: Map<Seq<u8>, AccountStateView>,
    other: Map<Seq<u8>, AccountStateView>,
    key: Seq<u8>,
)
    ensures
        lookup(after_merge(overlay, other), key) == if other.contains_key(key) {
            lookup(other, key)
        } else {
            lookup(overlay, key)
        },
{
}

/// The empty overlay overrides no key.
pub proof fn law_empty_overrides_nothing(key: Seq<u8>)
    ensures
        overrides_nothing(no_overrides()),
        lookup(no_overrides(), key) == None::<AccountStateView>,
{
}

} // verus!
