//! Indexes held in the contract-storage hash map of `ink_storage`: service
//! numbers by uuid, and lists of record numbers by string key or by account.
//!
//! The map itself is not verified: each index holds it in a private field, and
//! the few calls made on it are trusted wrappers whose contracts state what the
//! map's source shows of them.
use vstd::prelude::*;
use crate::account::AccountId;

verus! {

/// The list filed under `key` once `id` is appended to it; a key with no
/// list gets a list of its own.
pub open spec fn appended<K>(m: Map<K, Seq<u64>>, key: K, id: u64) -> Map<K, Seq<u64>> {
    if m.contains_key(key) {
        m.insert(key, m[key].push(id))
    } else {
        m.insert(key, seq![id])
    }
}

/// The list filed under `key`; empty when there is none.
pub open spec fn ids_under<K>(m: Map<K, Seq<u64>>, key: K) -> Seq<u64> {
    if m.contains_key(key) {
        m[key]
    } else {
        Seq::empty()
    }
}

/// The positions of `s` that hold `k`, in increasing order.
pub open spec fn positions_of<K>(s: Seq<K>, k: K) -> Seq<u64>
    decreases s.len(),
{
    if s.len() == 0 {
        Seq::empty()
    } else {
        let prev = positions_of(s.drop_last(), k);
        if s.last() == k {
            prev.push((s.len() - 1) as u64)
        } else {
            prev
        }
    }
}

/// Appending `x` adds its position to the positions of `x`, and no others.
pub proof fn lemma_positions_push<K>(s: Seq<K>, x: K, k: K)
    ensures
        positions_of(s.push(x), k) == if x == k {
            positions_of(s, k).push(s.len() as u64)
        } else {
            positions_of(s, k)
        },
{
    assert(s.push(x).drop_last() =~= s);
}

/// The positions of `k` in `s` are strictly increasing, each holds `k`, and
/// every position that holds `k` is among them.
pub proof fn law_positions_of<K>(s: Seq<K>, k: K)
    requires
        s.len() <= u64::MAX,
    ensures
        positions_of(s, k).len() <= s.len(),
        forall|j: int|
            0 <= j < positions_of(s, k).len() ==> {
                &&& #[trigger] positions_of(s, k)[j] < s.len()
                &&& s[positions_of(s, k)[j] as int] == k
            },
        forall|j1: int, j2: int|
            0 <= j1 < j2 < positions_of(s, k).len() ==> #[trigger] positions_of(s, k)[j1]
                < #[trigger] positions_of(s, k)[j2],
        forall|i: int|
            0 <= i < s.len() && #[trigger] s[i] == k ==> exists|j: int|
                0 <= j < positions_of(s, k).len() && #[trigger] positions_of(s, k)[j] == i,
    decreases s.len(),
{
    if s.len() > 0 {
        let prev = s.drop_last();
        let pp = positions_of(prev, k);
        law_positions_of(prev, k);
        let pos = positions_of(s, k);
        assert forall|j: int| 0 <= j < pos.len() implies {
            &&& #[trigger] pos[j] < s.len()
            &&& s[pos[j] as int] == k
        } by {
            if j < pp.len() {
                assert(pos[j] == pp[j]);
                assert(pp[j] < prev.len());
            }
        }
        assert forall|j1: int, j2: int| 0 <= j1 < j2 < pos.len() implies #[trigger] pos[j1]
            < #[trigger] pos[j2] by {
            assert(pos[j1] == pp[j1]);
            assert(pp[j1] < prev.len());
            if j2 < pp.len() {
                assert(pos[j2] == pp[j2]);
            }
        }
        assert forall|i: int| 0 <= i < s.len() && #[trigger] s[i] == k implies exists|j: int|
            0 <= j < pos.len() && #[trigger] pos[j] == i by {
            if i < prev.len() {
                assert(prev[i] == k);
                let j = choose|j: int| 0 <= j < pp.len() && #[trigger] pp[j] == i;
                assert(pos[j] == pp[j]);
            } else {
                assert(pos[pp.len() as int] == i);
            }
        }
    }
}

/// The map can take one more key: the key is already there, or fewer than
/// `u32::MAX` keys are (the map numbers its keys with a `u32`, and panics on
/// overflow).
pub open spec fn room_for<K, V>(m: Map<K, V>, key: K) -> bool {
    m.contains_key(key) || m.dom().len() < u32::MAX
}

/// Service numbers by uuid.
#[verifier::external_body]
pub struct UuidIndex {
    m: ink_storage::collections::HashMap<String, u64>,
}

/// What a `UuidIndex` holds: the number stored under each uuid.
pub uninterp spec fn uuid_index_contents(m: UuidIndex) -> Map<Seq<char>, u64>;

impl View for UuidIndex {
    type V = Map<Seq<char>, u64>;

    open spec fn view(&self) -> Map<Seq<char>, u64> {
        uuid_index_contents(*self)
    }
}

impl UuidIndex {
    /// `ink_storage::collections::HashMap::new`: a map with no keys.
    #[verifier::external_body]
    fn storage_new() -> (res: UuidIndex)
        ensures
            res@.dom() == Set::<Seq<char>>::empty(),
    {
        UuidIndex { m: ink_storage::collections::HashMap::new() }
    }

    /// `ink_storage::collections::HashMap::get`: the value stored under `key`,
    /// if any (copied out).
    #[verifier::external_body]
    fn storage_get(&self, key: &String) -> (res: Option<u64>)
        ensures
            match res {
                Some(v) => uuid_index_contents(*self).contains_key(key@) && v
                    == uuid_index_contents(*self)[key@],
                None => !uuid_index_contents(*self).contains_key(key@),
            },
    {
        self.m.get(key).copied()
    }

    /// `ink_storage::collections::HashMap::insert`: stores `value` under
    /// `key`, replacing any value there; returns the value replaced.
    #[verifier::external_body]
    fn storage_insert(&mut self, key: String, value: u64) -> (res: Option<u64>)
        requires
            uuid_index_contents(*old(self)).dom().finite(),
            room_for(uuid_index_contents(*old(self)), key@),
        ensures
            uuid_index_contents(*final(self)) == uuid_index_contents(*old(self)).insert(key@, value),
            res == (if uuid_index_contents(*old(self)).contains_key(key@) {
                Some(uuid_index_contents(*old(self))[key@])
            } else {
                None
            }),
    {
        self.m.insert(key, value)
    }

    /// An empty index.
    pub fn new() -> (res: Self)
        ensures
            res@ == Map::<Seq<char>, u64>::empty(),
            res@.dom().finite(),
    {
        let res = Self::storage_new();
        assert(res@ =~= Map::empty());
        res
    }

    /// The number stored under `key`, if any.
    pub fn get(&self, key: &String) -> (res: Option<u64>)
        ensures
            match res {
                Some(v) => self@.contains_key(key@) && v == self@[key@],
                None => !self@.contains_key(key@),
            },
    {
        self.storage_get(key)
    }

    /// Stores `value` under `key`.
    pub fn insert(&mut self, key: String, value: u64)
        requires
            old(self)@.dom().finite(),
            room_for(old(self)@, key@),
        ensures
            final(self)@ == old(self)@.insert(key@, value),
            final(self)@.dom().finite(),
    {
        let _ = self.storage_insert(key, value);
    }
}

/// Lists of record numbers by string key.
#[verifier::external_body]
pub struct StringLists {
    m: ink_storage::collections::HashMap<String, Vec<u64>>,
}

/// What a `StringLists` holds: the list stored under each key.
pub uninterp spec fn string_lists_contents(m: StringLists) -> Map<Seq<char>, Seq<u64>>;

impl View for StringLists {
    type V = Map<Seq<char>, Seq<u64>>;

    open spec fn view(&self) -> Map<Seq<char>, Seq<u64>> {
        string_lists_contents(*self)
    }
}

impl StringLists {
    /// `ink_storage::collections::HashMap::new`: a map with no keys.
    #[verifier::external_body]
    fn storage_new() -> (res: StringLists)
        ensures
            res@.dom() == Set::<Seq<char>>::empty(),
    {
        StringLists { m: ink_storage::collections::HashMap::new() }
    }

    /// `ink_storage::collections::HashMap::get`: the list stored under `key`,
    /// if any.
    #[verifier::external_body]
    fn storage_get(&self, key: &String) -> (res: Option<&Vec<u64>>)
        ensures
            match res {
                Some(v) => string_lists_contents(*self).contains_key(key@) && v@
                    == string_lists_contents(*self)[key@],
                None => !string_lists_contents(*self).contains_key(key@),
            },
    {
        self.m.get(key)
    }

    /// `ink_storage::collections::HashMap::entry` followed by `or_insert`: the
    /// list stored under `key`, where `default` is first stored if the key has
    /// none; what is written through the reference is what the map holds.
    #[verifier::external_body]
    fn storage_entry_or_insert(&mut self, key: String, default: Vec<u64>) -> (res: &mut Vec<u64>)
        requires
            string_lists_contents(*old(self)).dom().finite(),
            room_for(string_lists_contents(*old(self)), key@),
        ensures
            res@ == (if string_lists_contents(*old(self)).contains_key(key@) {
                string_lists_contents(*old(self))[key@]
            } else {
                default@
            }),
            string_lists_contents(*final(self)) == string_lists_contents(*old(self)).insert(
                key@,
                final(res)@,
            ),
    {
        self.m.entry(key).or_insert(default)
    }

    /// An empty set of lists.
    pub fn new() -> (res: Self)
        ensures
            res@ == Map::<Seq<char>, Seq<u64>>::empty(),
            res@.dom().finite(),
    {
        let res = Self::storage_new();
        assert(res@ =~= Map::empty());
        res
    }

    /// The list filed under `key`, if there is one.
    pub fn get(&self, key: &String) -> (res: Option<&Vec<u64>>)
        ensures
            match res {
                Some(v) => self@.contains_key(key@) && v@ == self@[key@],
                None => !self@.contains_key(key@),
            },
    {
        self.storage_get(key)
    }

    /// Appends `id` to the list filed under `key`.
    pub fn push_id(&mut self, key: String, id: u64)
        requires
            old(self)@.dom().finite(),
            room_for(old(self)@, key@),
        ensures
            final(self)@ == appended(old(self)@, key@, id),
            final(self)@.dom().finite(),
    {
        let ghost k = key@;
        let ids = self.storage_entry_or_insert(key, Vec::new());
        ids.push(id);
        assert(final(self)@ =~= appended(old(self)@, k, id));
    }
}

/// Lists of record numbers by account.
#[verifier::external_body]
pub struct AccountLists {
    m: ink_storage::collections::HashMap<[u8; 32], Vec<u64>>,
}

/// What an `AccountLists` holds: the list stored under each account's bytes.
pub uninterp spec fn account_lists_contents(m: AccountLists) -> Map<Seq<u8>, Seq<u64>>;

impl View for AccountLists {
    type V = Map<Seq<u8>, Seq<u64>>;

    open spec fn view(&self) -> Map<Seq<u8>, Seq<u64>> {
        account_lists_contents(*self)
    }
}

impl AccountLists {
    /// `ink_storage::collections::HashMap::new`: a map with no keys.
    #[verifier::external_body]
    fn storage_new() -> (res: AccountLists)
        ensures
            res@.dom() == Set::<Seq<u8>>::empty(),
    {
        AccountLists { m: ink_storage::collections::HashMap::new() }
    }

    /// `ink_storage::collections::HashMap::get`: the list stored under `key`,
    /// if any.
    #[verifier::external_body]
    fn storage_get(&self, key: &[u8; 32]) -> (res: Option<&Vec<u64>>)
        ensures
            match res {
                Some(v) => account_lists_contents(*self).contains_key(key@) && v@
                    == account_lists_contents(*self)[key@],
                None => !account_lists_contents(*self).contains_key(key@),
            },
    {
        self.m.get(key)
    }

    /// `ink_storage::collections::HashMap::entry` followed by `or_insert`: the
    /// list stored under `key`, where `default` is first stored if the key has
    /// none; what is written through the reference is what the map holds.
    #[verifier::external_body]
    fn storage_entry_or_insert(&mut self, key: [u8; 32], default: Vec<u64>) -> (res: &mut Vec<u64>)
        requires
            account_lists_contents(*old(self)).dom().finite(),
            room_for(account_lists_contents(*old(self)), key@),
        ensures
            res@ == (if account_lists_contents(*old(self)).contains_key(key@) {
                account_lists_contents(*old(self))[key@]
            } else {
                default@
            }),
            account_lists_contents(*final(self)) == account_lists_contents(*old(self)).insert(
                key@,
                final(res)@,
            ),
    {
        self.m.entry(key).or_insert(default)
    }

    /// An empty set of lists.
    pub fn new() -> (res: Self)
        ensures
            res@ == Map::<Seq<u8>, Seq<u64>>::empty(),
            res@.dom().finite(),
    {
        let res = Self::storage_new();
        assert(res@ =~= Map::empty());
        res
    }

    /// The list filed under `a`, if there is one.
    pub fn get(&self, a: &AccountId) -> (res: Option<&Vec<u64>>)
        ensures
            match res {
                Some(v) => self@.contains_key(a@) && v@ == self@[a@],
                None => !self@.contains_key(a@),
            },
    {
        self.storage_get(&a.0)
    }

    /// Appends `id` to the list filed under `a`.
    pub fn push_id(&mut self, a: &AccountId, id: u64)
        requires
            old(self)@.dom().finite(),
            room_for(old(self)@, a@),
        ensures
            final(self)@ == appended(old(self)@, a@, id),
            final(self)@.dom().finite(),
    {
        let ids = self.storage_entry_or_insert(a.0, Vec::new());
        ids.push(id);
        assert(final(self)@ =~= appended(old(self)@, a@, id));
    }
}

} // verus!
