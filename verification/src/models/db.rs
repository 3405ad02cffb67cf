//! The shared store: the node's role and listening port, the entries that
//! clients set and get, and the settings that replicas have announced.
//!
//! The store knows no clock and no lock. Callers pass the current time, in
//! milliseconds, to the operations that look at deadlines, and guard the
//! store with a lock of their own so that one operation runs at a time.

use vstd::prelude::*;
use crate::resp_parser::shared::byte_strings;
use crate::utils::{bytes_eq, check_token, copy_bytes, is_token};

verus! {

/// The node's place in replication.
#[derive(Debug, PartialEq, Eq)]
pub enum Role {
    /// The origin of writes, known to its replicas by its replication id.
    Master { replication_id: Vec<u8>, offset: u64 },
    /// A follower of the master at the given address.
    Replica { master_host: Vec<u8>, master_port: u32 },
}

/// What a role says.
pub enum RoleView {
    Master { replication_id: Seq<u8>, offset: u64 },
    Replica { master_host: Seq<u8>, master_port: u32 },
}

impl View for Role {
    type V = RoleView;

    open spec fn view(&self) -> RoleView {
        match *self {
            Role::Master { replication_id, offset } => RoleView::Master {
                replication_id: replication_id@,
                offset,
            },
            Role::Replica { master_host, master_port } => RoleView::Replica {
                master_host: master_host@,
                master_port,
            },
        }
    }
}

impl RoleView {
    /// A master's replication id is one word of a status line.
    pub open spec fn wf(self) -> bool {
        self matches RoleView::Master { replication_id, .. } ==> is_token(replication_id)
    }
}

/// What the node is told at startup: its role and the port it listens on.
#[derive(Debug, PartialEq, Eq)]
pub struct AppData {
    role: Role,
    listening_port: u32,
}

/// What the startup data says.
pub struct AppDataView {
    pub role: RoleView,
    pub listening_port: u32,
}

impl View for AppData {
    type V = AppDataView;

    closed spec fn view(&self) -> AppDataView {
        AppDataView { role: self.role@, listening_port: self.listening_port }
    }
}

impl AppData {
    #[verifier::type_invariant]
    spec fn inv(self) -> bool {
        self.role@.wf()
    }

    /// The startup data of a master that listens on `listening_port` and
    /// starts at offset zero. There is none where the replication id cannot
    /// stand as one word of a status line.
    pub fn new_master(listening_port: u32, replication_id: Vec<u8>) -> (made: Option<AppData>)
        ensures
            made is Some <==> is_token(replication_id@),
            made matches Some(data) ==> data@ == (AppDataView {
                role: RoleView::Master { replication_id: replication_id@, offset: 0 },
                listening_port,
            }),
    {
        if !check_token(replication_id.as_slice()) {
            return None;
        }
        Some(AppData { role: Role::Master { replication_id, offset: 0 }, listening_port })
    }

    /// The startup data of a replica that listens on `listening_port` and
    /// follows the master at the given address.
    pub fn new_replica(
        listening_port: u32,
        master_host: Vec<u8>,
        master_port: u32,
    ) -> (made: AppData)
        ensures
            made@ == (AppDataView {
                role: RoleView::Replica { master_host: master_host@, master_port },
                listening_port,
            }),
    {
        AppData { role: Role::Replica { master_host, master_port }, listening_port }
    }

    /// The node's role.
    pub fn role(&self) -> (role: &Role)
        ensures
            role@ == self@.role,
            self@.role.wf(),
    {
        proof {
            use_type_invariant(self);
        }
        &self.role
    }

    /// The port the node listens on.
    pub fn listening_port(&self) -> (port: u32)
        ensures
            port == self@.listening_port,
    {
        self.listening_port
    }

    /// Whether the node follows a master.
    pub fn is_replica(&self) -> (replica: bool)
        ensures
            replica == (self@.role is Replica),
    {
        match self.role {
            Role::Replica { .. } => true,
            Role::Master { .. } => false,
        }
    }
}

/// A value as the store holds it: the bytes, and the time from which it
/// counts as gone, if it has one.
pub struct StoredValue {
    pub value: Seq<u8>,
    pub expires_at: Option<u64>,
}

impl StoredValue {
    /// Whether the value can still be read at time `now`: it has no
    /// deadline, or `now` is before it.
    pub open spec fn is_live(self, now: u64) -> bool {
        match self.expires_at {
            Some(deadline) => now < deadline,
            None => true,
        }
    }
}

/// What a read of `key` at time `now` returns: the value, unless the key is
/// absent or its deadline has passed.
pub open spec fn lookup(entries: Map<Seq<u8>, StoredValue>, key: Seq<u8>, now: u64) -> Option<
    Seq<u8>,
> {
    if entries.contains_key(key) && entries[key].is_live(now) {
        Some(entries[key].value)
    } else {
        None
    }
}

/// The entries after a read of `key` at time `now`: an entry whose deadline
/// has passed is dropped by the read that finds it so.
pub open spec fn after_lookup(entries: Map<Seq<u8>, StoredValue>, key: Seq<u8>, now: u64) -> Map<
    Seq<u8>,
    StoredValue,
> {
    if entries.contains_key(key) && !entries[key].is_live(now) {
        entries.remove(key)
    } else {
        entries
    }
}

/// One write: the key and what it is set to.
pub struct SetRequest {
    pub key: Seq<u8>,
    pub stored: StoredValue,
}

/// The entries after the writes of `requests` were served one at a time, in
/// the order of the sequence.
pub open spec fn apply_sets(entries: Map<Seq<u8>, StoredValue>, requests: Seq<SetRequest>) -> Map<
    Seq<u8>,
    StoredValue,
>
    decreases requests.len(),
{
    if requests.len() == 0 {
        entries
    } else {
        apply_sets(entries, requests.drop_last()).insert(
            requests.last().key,
            requests.last().stored,
        )
    }
}

/// Whether the writes of `requests` go to keys that all differ.
pub open spec fn distinct_requests(requests: Seq<SetRequest>) -> bool {
    forall|i: int, j: int|
        0 <= i < requests.len() && 0 <= j < requests.len() && i != j ==> requests[i].key
            != requests[j].key
}

/// Whether one of the writes of `requests` goes to `key`.
pub open spec fn writes_to(requests: Seq<SetRequest>, key: Seq<u8>) -> bool {
    exists|i: int| 0 <= i < requests.len() && (#[trigger] requests[i]).key == key
}

/// Dropping the last of a run of writes to keys that all differ leaves
/// writes to keys that all differ.
proof fn lemma_distinct_requests_drop_last(requests: Seq<SetRequest>)
    requires
        distinct_requests(requests),
        requests.len() > 0,
    ensures
        distinct_requests(requests.drop_last()),
        !writes_to(requests.drop_last(), requests.last().key),
{
    let earlier = requests.drop_last();
    assert forall|i: int, j: int|
        0 <= i < earlier.len() && 0 <= j < earlier.len() && i != j implies earlier[i].key
        != earlier[j].key by {
        assert(earlier[i] == requests[i]);
        assert(earlier[j] == requests[j]);
    }
    if writes_to(earlier, requests.last().key) {
        let i = choose|i: int|
            0 <= i < earlier.len() && (#[trigger] earlier[i]).key == requests.last().key;
        assert(earlier[i] == requests[i]);
        assert(requests[i].key != requests[requests.len() - 1].key);
    }
}

/// Writes to keys that all differ lose no update, in whatever order they
/// are served: afterwards each key holds what its write set, and every
/// other key is as it was.
pub proof fn lemma_sets_on_distinct_keys_keep_every_update(
    entries: Map<Seq<u8>, StoredValue>,
    requests: Seq<SetRequest>,
)
    requires
        distinct_requests(requests),
    ensures
        forall|i: int|
            0 <= i < requests.len() ==> apply_sets(entries, requests).contains_key(
                (#[trigger] requests[i]).key,
            ) && apply_sets(entries, requests)[requests[i].key] == requests[i].stored,
        forall|key: Seq<u8>|
            !writes_to(requests, key) ==> (#[trigger] apply_sets(entries, requests).contains_key(
                key,
            ) <==> entries.contains_key(key)),
        forall|key: Seq<u8>|
            !writes_to(requests, key) && entries.contains_key(key) ==> #[trigger] apply_sets(
                entries,
                requests,
            )[key] == entries[key],
    decreases requests.len(),
{
    if requests.len() > 0 {
        let earlier = requests.drop_last();
        let last = requests.last();
        lemma_distinct_requests_drop_last(requests);
        lemma_sets_on_distinct_keys_keep_every_update(entries, earlier);
        let before = apply_sets(entries, earlier);
        let after = apply_sets(entries, requests);
        assert(after == before.insert(last.key, last.stored));
        assert forall|i: int| 0 <= i < requests.len() implies after.contains_key(
            (#[trigger] requests[i]).key,
        ) && after[requests[i].key] == requests[i].stored by {
            if i < earlier.len() {
                assert(earlier[i] == requests[i]);
                assert(requests[i].key != requests[requests.len() - 1].key);
                assert(before.contains_key(earlier[i].key));
            }
        }
        assert forall|key: Seq<u8>| !writes_to(requests, key) implies (after.contains_key(key)
            <==> entries.contains_key(key)) && (entries.contains_key(key) ==> after[key]
            == entries[key]) by {
            assert(requests[requests.len() - 1].key != key);
            if writes_to(earlier, key) {
                let i = choose|i: int| 0 <= i < earlier.len() && (#[trigger] earlier[i]).key == key;
                assert(earlier[i] == requests[i]);
                assert(requests[i].key == key);
            }
            assert(before.contains_key(key) <==> entries.contains_key(key));
        }
    }
}

/// Writes to keys that all differ lead to the same entries in whatever
/// order they are served.
pub proof fn lemma_sets_on_distinct_keys_commute(
    entries: Map<Seq<u8>, StoredValue>,
    one_order: Seq<SetRequest>,
    other_order: Seq<SetRequest>,
)
    requires
        distinct_requests(one_order),
        distinct_requests(other_order),
        forall|i: int| 0 <= i < one_order.len() ==> other_order.contains(#[trigger] one_order[i]),
        forall|i: int| 0 <= i < other_order.len() ==> one_order.contains(#[trigger] other_order[i]),
    ensures
        apply_sets(entries, one_order) == apply_sets(entries, other_order),
{
    lemma_sets_on_distinct_keys_keep_every_update(entries, one_order);
    lemma_sets_on_distinct_keys_keep_every_update(entries, other_order);
    let a = apply_sets(entries, one_order);
    let b = apply_sets(entries, other_order);
    assert forall|key: Seq<u8>| (a.contains_key(key) <==> b.contains_key(key)) && (a.contains_key(
        key,
    ) ==> a[key] == b[key]) by {
        if writes_to(one_order, key) {
            let i = choose|i: int| 0 <= i < one_order.len() && (#[trigger] one_order[i]).key == key;
            assert(other_order.contains(one_order[i]));
            let j = choose|j: int| 0 <= j < other_order.len() && other_order[j] == one_order[i];
            assert(a.contains_key(one_order[i].key));
            assert(b.contains_key(other_order[j].key));
            assert(a[one_order[i].key] == one_order[i].stored);
            assert(b[other_order[j].key] == other_order[j].stored);
        } else {
            if writes_to(other_order, key) {
                let j = choose|j: int|
                    0 <= j < other_order.len() && (#[trigger] other_order[j]).key == key;
                assert(one_order.contains(other_order[j]));
                let i = choose|i: int| 0 <= i < one_order.len() && one_order[i] == other_order[j];
                assert(one_order[i].key == key);
            }
            assert(a.contains_key(key) <==> entries.contains_key(key));
            assert(b.contains_key(key) <==> entries.contains_key(key));
        }
    }
    assert(a =~= b);
}

/// After writes to keys that all differ, a store that was empty holds as
/// many entries as there were writes.
pub proof fn lemma_sets_on_distinct_keys_count(requests: Seq<SetRequest>)
    requires
        distinct_requests(requests),
    ensures
        apply_sets(Map::empty(), requests).dom().finite(),
        apply_sets(Map::empty(), requests).dom().len() == requests.len(),
    decreases requests.len(),
{
    let empty = Map::<Seq<u8>, StoredValue>::empty();
    if requests.len() > 0 {
        let earlier = requests.drop_last();
        let last = requests.last();
        lemma_distinct_requests_drop_last(requests);
        lemma_sets_on_distinct_keys_count(earlier);
        lemma_sets_on_distinct_keys_keep_every_update(empty, earlier);
        let before = apply_sets(empty, earlier);
        assert(before.contains_key(last.key) <==> empty.contains_key(last.key));
        assert(!before.contains_key(last.key));
        assert(apply_sets(empty, requests).dom() =~= before.dom().insert(last.key));
    }
}

/// One entry of the store.
#[derive(Debug)]
pub struct Entry {
    key: Vec<u8>,
    value: Vec<u8>,
    expires_at: Option<u64>,
}

impl Entry {
    spec fn key_view(self) -> Seq<u8> {
        self.key@
    }

    spec fn stored(self) -> StoredValue {
        StoredValue { value: self.value@, expires_at: self.expires_at }
    }
}

/// Whether no key occurs twice among the entries.
spec fn distinct_keys(entries: Seq<Entry>) -> bool {
    forall|i: int, j: int|
        0 <= i < entries.len() && 0 <= j < entries.len() && #[trigger] entries[i].key_view()
            == #[trigger] entries[j].key_view() ==> i == j
}

/// Whether the entry at index `i` has the key `key`.
spec fn holds_key(entries: Seq<Entry>, key: Seq<u8>, i: int) -> bool {
    0 <= i < entries.len() && entries[i].key_view() == key
}

/// The mapping that a list of entries stands for.
spec fn entries_map(entries: Seq<Entry>) -> Map<Seq<u8>, StoredValue> {
    Map::new(
        |key: Seq<u8>| exists|i: int| holds_key(entries, key, i),
        |key: Seq<u8>| entries[choose|i: int| holds_key(entries, key, i)].stored(),
    )
}

/// The entry at index `i` is what its key maps to.
proof fn lemma_entry_at(entries: Seq<Entry>, i: int)
    requires
        distinct_keys(entries),
        0 <= i < entries.len(),
    ensures
        entries_map(entries).contains_key(entries[i].key_view()),
        entries_map(entries)[entries[i].key_view()] == entries[i].stored(),
{
    let key = entries[i].key_view();
    assert(holds_key(entries, key, i));
    let j = choose|j: int| holds_key(entries, key, j);
    assert(holds_key(entries, key, j));
    assert(i == j);
}

/// A list of entries whose keys all differ stands for a mapping with as many
/// keys as the list has entries.
proof fn lemma_entries_count(entries: Seq<Entry>)
    requires
        distinct_keys(entries),
    ensures
        entries_map(entries).dom().finite(),
        entries_map(entries).dom().len() == entries.len(),
    decreases entries.len(),
{
    if entries.len() == 0 {
        assert(entries_map(entries).dom() =~= Set::<Seq<u8>>::empty());
    } else {
        let earlier = entries.drop_last();
        let last = entries.last();
        assert(distinct_keys(earlier)) by {
            assert forall|i: int, j: int|
                0 <= i < earlier.len() && 0 <= j < earlier.len() && #[trigger] earlier[i].key_view()
                    == #[trigger] earlier[j].key_view() implies i == j by {
                assert(entries[i].key_view() == entries[j].key_view());
            }
        }
        lemma_entries_count(earlier);
        let before = entries_map(earlier).dom();
        let after = entries_map(entries).dom();
        assert forall|key: Seq<u8>|
            after.contains(key) <==> before.insert(last.key_view()).contains(key) by {
            if after.contains(key) {
                let i = choose|i: int| holds_key(entries, key, i);
                if i < earlier.len() {
                    assert(holds_key(earlier, key, i));
                }
            }
            if before.contains(key) {
                let i = choose|i: int| holds_key(earlier, key, i);
                assert(holds_key(entries, key, i));
            }
            if key == last.key_view() {
                assert(holds_key(entries, key, entries.len() - 1));
            }
        }
        assert(after =~= before.insert(last.key_view()));
        if before.contains(last.key_view()) {
            let i = choose|i: int| holds_key(earlier, last.key_view(), i);
            assert(entries[i].key_view() == entries[entries.len() - 1].key_view());
        }
    }
}

/// What a key that no entry has maps to: nothing.
proof fn lemma_key_absent(entries: Seq<Entry>, key: Seq<u8>)
    requires
        forall|i: int| !holds_key(entries, key, i),
    ensures
        !entries_map(entries).contains_key(key),
{
}

/// Taking the entry at index `i` out of the list takes its key out of the
/// mapping, and leaves keys that all differ.
proof fn lemma_map_after_remove(before: Seq<Entry>, i: int)
    requires
        distinct_keys(before),
        0 <= i < before.len(),
    ensures
        distinct_keys(before.remove(i)),
        entries_map(before.remove(i)) == entries_map(before).remove(before[i].key_view()),
{
    let after = before.remove(i);
    let key = before[i].key_view();
    assert forall|a: int, b: int|
        0 <= a < after.len() && 0 <= b < after.len() && #[trigger] after[a].key_view()
            == #[trigger] after[b].key_view() implies a == b by {
        let a0 = if a < i { a } else { a + 1 };
        let b0 = if b < i { b } else { b + 1 };
        assert(before[a0].key_view() == before[b0].key_view());
    }
    assert forall|k: Seq<u8>|
        entries_map(after).contains_key(k) <==> entries_map(before).remove(key).contains_key(
            k,
        ) by {
        if entries_map(after).contains_key(k) {
            let a = choose|a: int| holds_key(after, k, a);
            let a0 = if a < i { a } else { a + 1 };
            assert(holds_key(before, k, a0));
            assert(before[a0].key_view() == before[i].key_view() ==> a0 == i);
        }
        if entries_map(before).remove(key).contains_key(k) {
            let b = choose|b: int| holds_key(before, k, b);
            let b1 = if b < i { b } else { b - 1 };
            assert(holds_key(after, k, b1));
        }
    }
    assert forall|k: Seq<u8>| entries_map(after).contains_key(k) implies entries_map(after)[k]
        == entries_map(before).remove(key)[k] by {
        let a = choose|a: int| holds_key(after, k, a);
        let a0 = if a < i { a } else { a + 1 };
        assert(holds_key(before, k, a0));
        lemma_entry_at(before, a0);
        lemma_entry_at(after, a);
    }
    assert(entries_map(after) =~= entries_map(before).remove(key));
}

/// Putting an entry in the place of one with the same key gives the key its
/// new value in the mapping, and leaves keys that all differ.
proof fn lemma_map_after_update(before: Seq<Entry>, i: int, entry: Entry)
    requires
        distinct_keys(before),
        0 <= i < before.len(),
        entry.key_view() == before[i].key_view(),
    ensures
        distinct_keys(before.update(i, entry)),
        entries_map(before.update(i, entry)) == entries_map(before).insert(
            entry.key_view(),
            entry.stored(),
        ),
{
    let after = before.update(i, entry);
    let key = entry.key_view();
    assert forall|a: int| 0 <= a < after.len() implies #[trigger] after[a].key_view()
        == before[a].key_view() by {}
    assert forall|a: int, b: int|
        0 <= a < after.len() && 0 <= b < after.len() && #[trigger] after[a].key_view()
            == #[trigger] after[b].key_view() implies a == b by {
        assert(before[a].key_view() == before[b].key_view());
    }
    assert forall|k: Seq<u8>|
        entries_map(after).contains_key(k) <==> entries_map(before).insert(
            key,
            entry.stored(),
        ).contains_key(k) by {
        if entries_map(after).contains_key(k) {
            let a = choose|a: int| holds_key(after, k, a);
            assert(holds_key(before, k, a));
        }
        if entries_map(before).contains_key(k) {
            let b = choose|b: int| holds_key(before, k, b);
            assert(holds_key(after, k, b));
        }
        if k == key {
            assert(holds_key(after, k, i));
        }
    }
    assert forall|k: Seq<u8>| entries_map(after).contains_key(k) implies entries_map(after)[k]
        == entries_map(before).insert(key, entry.stored())[k] by {
        let a = choose|a: int| holds_key(after, k, a);
        assert(holds_key(before, k, a));
        lemma_entry_at(after, a);
        lemma_entry_at(before, a);
    }
    assert(entries_map(after) =~= entries_map(before).insert(key, entry.stored()));
}

/// Putting an entry with a new key behind the list gives the key its value
/// in the mapping, and leaves keys that all differ.
proof fn lemma_map_after_push(before: Seq<Entry>, entry: Entry)
    requires
        distinct_keys(before),
        forall|i: int| !holds_key(before, entry.key_view(), i),
    ensures
        distinct_keys(before.push(entry)),
        entries_map(before.push(entry)) == entries_map(before).insert(
            entry.key_view(),
            entry.stored(),
        ),
{
    let after = before.push(entry);
    let key = entry.key_view();
    let last = before.len() as int;
    assert forall|a: int, b: int|
        0 <= a < after.len() && 0 <= b < after.len() && #[trigger] after[a].key_view()
            == #[trigger] after[b].key_view() implies a == b by {
        if a < last && b < last {
            assert(before[a].key_view() == before[b].key_view());
        } else if a < last {
            assert(holds_key(before, key, a));
        } else if b < last {
            assert(holds_key(before, key, b));
        }
    }
    assert forall|k: Seq<u8>|
        entries_map(after).contains_key(k) <==> entries_map(before).insert(
            key,
            entry.stored(),
        ).contains_key(k) by {
        if entries_map(after).contains_key(k) {
            let a = choose|a: int| holds_key(after, k, a);
            if a < last {
                assert(holds_key(before, k, a));
            }
        }
        if entries_map(before).contains_key(k) {
            let b = choose|b: int| holds_key(before, k, b);
            assert(holds_key(after, k, b));
        }
        if k == key {
            assert(holds_key(after, k, last));
        }
    }
    assert forall|k: Seq<u8>| entries_map(after).contains_key(k) implies entries_map(after)[k]
        == entries_map(before).insert(key, entry.stored())[k] by {
        let a = choose|a: int| holds_key(after, k, a);
        lemma_entry_at(after, a);
        if a < last {
            assert(holds_key(before, k, a));
            lemma_entry_at(before, a);
        }
    }
    assert(entries_map(after) =~= entries_map(before).insert(key, entry.stored()));
}

/// The settings held by a list of announcements, each the byte strings of
/// one announcement.
pub open spec fn settings_view(settings: Seq<Vec<Vec<u8>>>) -> Seq<Seq<Seq<u8>>> {
    Seq::new(settings.len(), |i: int| byte_strings(settings[i]@))
}

/// The store shared by all connections: the startup data, the entries, and
/// the settings that replicas have announced.
///
/// The entries are kept as a list in which no key occurs twice; an operation
/// finds its key by going through the list. What the list stands for is the
/// mapping from each key to its value.
#[derive(Debug)]
pub struct InMemoryDb {
    app_data: AppData,
    entries: Vec<Entry>,
    replica_settings: Vec<Vec<Vec<u8>>>,
}

/// What the store holds.
pub struct DbView {
    pub role: RoleView,
    pub listening_port: u32,
    /// What each key is set to.
    pub entries: Map<Seq<u8>, StoredValue>,
    /// The settings that replicas have announced, in the order received,
    /// each with its name first and its arguments behind.
    pub replica_settings: Seq<Seq<Seq<u8>>>,
}

impl View for InMemoryDb {
    type V = DbView;

    closed spec fn view(&self) -> DbView {
        DbView {
            role: self.app_data@.role,
            listening_port: self.app_data@.listening_port,
            entries: entries_map(self.entries@),
            replica_settings: settings_view(self.replica_settings@),
        }
    }
}

impl InMemoryDb {
    #[verifier::type_invariant]
    spec fn inv(self) -> bool {
        distinct_keys(self.entries@)
    }

    /// An empty store for a node with the given startup data.
    pub fn new(app_data: AppData) -> (db: InMemoryDb)
        ensures
            db@.role == app_data@.role,
            db@.listening_port == app_data@.listening_port,
            db@.entries == Map::<Seq<u8>, StoredValue>::empty(),
            db@.replica_settings == Seq::<Seq<Seq<u8>>>::empty(),
    {
        let db = InMemoryDb { app_data, entries: Vec::new(), replica_settings: Vec::new() };
        assert(entries_map(db.entries@) =~= Map::<Seq<u8>, StoredValue>::empty());
        assert(settings_view(db.replica_settings@) =~= Seq::<Seq<Seq<u8>>>::empty());
        db
    }

    /// The startup data.
    pub fn get_app_data_ref(&self) -> (app_data: &AppData)
        ensures
            app_data@.role == self@.role,
            app_data@.listening_port == self@.listening_port,
    {
        &self.app_data
    }

    /// The node's role.
    pub fn role(&self) -> (role: &Role)
        ensures
            role@ == self@.role,
            self@.role.wf(),
    {
        self.app_data.role()
    }

    /// The port the node listens on.
    pub fn listening_port(&self) -> (port: u32)
        ensures
            port == self@.listening_port,
    {
        self.app_data.listening_port()
    }

    /// The number of entries held, live or past their deadline.
    pub fn len(&self) -> (count: usize)
        ensures
            self@.entries.dom().finite(),
            count == self@.entries.dom().len(),
    {
        proof {
            use_type_invariant(self);
            lemma_entries_count(self.entries@);
        }
        self.entries.len()
    }

    /// The settings that replicas have announced, in the order received.
    pub fn replica_settings(&self) -> (settings: &Vec<Vec<Vec<u8>>>)
        ensures
            settings_view(settings@) == self@.replica_settings,
    {
        &self.replica_settings
    }

    /// Keeps a setting that a replica has announced: its name first, its
    /// arguments behind.
    pub fn record_replica_setting(&mut self, setting: Vec<Vec<u8>>)
        ensures
            final(self)@ == (DbView {
                replica_settings: old(self)@.replica_settings.push(byte_strings(setting@)),
                ..old(self)@
            }),
    {
        proof {
            use_type_invariant(&*self);
        }
        let mut settings: Vec<Vec<Vec<u8>>> = Vec::new();
        core::mem::swap(&mut self.replica_settings, &mut settings);
        settings.push(setting);
        assert(settings_view(settings@) =~= old(self)@.replica_settings.push(
            byte_strings(setting@),
        ));
        core::mem::swap(&mut self.replica_settings, &mut settings);
    }

    /// The index of the entry with the given key.
    fn position(&self, key: &[u8]) -> (found: Option<usize>)
        ensures
            match found {
                Some(i) => holds_key(self.entries@, key@, i as int),
                None => forall|i: int| !holds_key(self.entries@, key@, i),
            },
    {
        let mut i: usize = 0;
        while i < self.entries.len()
            invariant
                i <= self.entries@.len(),
                forall|j: int| 0 <= j < i ==> !holds_key(self.entries@, key@, j),
            decreases self.entries@.len() - i,
        {
            if bytes_eq(self.entries[i].key.as_slice(), key) {
                return Some(i);
            }
            i += 1;
        }
        None
    }

    /// Reads the value of `key` at time `now`. A key that was never set, or
    /// whose deadline has passed, has no value; the read that finds a
    /// deadline passed drops the entry.
    pub fn get(&mut self, key: &[u8], now: u64) -> (value: Option<Vec<u8>>)
        ensures
            match lookup(old(self)@.entries, key@, now) {
                Some(bytes) => value matches Some(v) && v@ == bytes,
                None => value is None,
            },
            final(self)@ == (DbView {
                entries: after_lookup(old(self)@.entries, key@, now),
                ..old(self)@
            }),
    {
        proof {
            use_type_invariant(&*self);
        }
        let i: usize = match self.position(key) {
            None => {
                proof {
                    lemma_key_absent(self.entries@, key@);
                }
                return None;
            },
            Some(i) => i,
        };
        proof {
            lemma_entry_at(self.entries@, i as int);
        }
        let live = match self.entries[i].expires_at {
            Some(deadline) => now < deadline,
            None => true,
        };
        if live {
            return Some(copy_bytes(self.entries[i].value.as_slice()));
        }
        let mut entries: Vec<Entry> = Vec::new();
        core::mem::swap(&mut self.entries, &mut entries);
        proof {
            lemma_map_after_remove(entries@, i as int);
        }
        entries.remove(i);
        core::mem::swap(&mut self.entries, &mut entries);
        None
    }

    /// Sets `key` to `value`, with the time from which the value counts as
    /// gone, if it is to have one. An earlier value of the key is replaced.
    pub fn set(&mut self, key: Vec<u8>, value: Vec<u8>, expires_at: Option<u64>)
        ensures
            final(self)@ == (DbView {
                entries: old(self)@.entries.insert(key@, StoredValue { value: value@, expires_at }),
                ..old(self)@
            }),
    {
        proof {
            use_type_invariant(&*self);
        }
        let found = self.position(key.as_slice());
        let entry = Entry { key, value, expires_at };
        let mut entries: Vec<Entry> = Vec::new();
        core::mem::swap(&mut self.entries, &mut entries);
        match found {
            Some(i) => {
                proof {
                    lemma_map_after_update(entries@, i as int, entry);
                }
                entries.set(i, entry);
            },
            None => {
                proof {
                    lemma_map_after_push(entries@, entry);
                }
                entries.push(entry);
            },
        }
        core::mem::swap(&mut self.entries, &mut entries);
    }
}

} // verus!
