//! The bounded tables shared between the classifier, which fills them, and
//! the sampler, which drains them.

use vstd::prelude::*;
use crate::addr::{same_v4, same_v6, IpAddr};

verus! {

/// The number of ports that the port filter can hold.
pub const PORTS_MAP_SIZE: u32 = 100;

/// The number of source addresses that one flow table can hold.
pub const PACKETS_MAP_SIZE: u32 = 10240;

/// Why a table refused an entry.
#[derive(PartialEq, Eq, Structural, Clone, Copy, Debug)]
pub enum TableError {
    /// The table holds as many entries as it was made for.
    Full,
}

/// A source address as a flow table keys it: the four octets of an IPv4
/// address or the eight segments of an IPv6 address, in host order.
pub trait FlowAddress: Copy + Sized {
    /// The address with its family.
    spec fn ip_spec(&self) -> IpAddr;

    /// Whether two keys are the same address.
    fn same(&self, other: &Self) -> (r: bool)
        ensures
            r == (*self == *other),
    ;

    /// The address with its family.
    fn ip(&self) -> (ip: IpAddr)
        ensures
            ip == self.ip_spec(),
    ;
}

impl FlowAddress for [u8; 4] {
    open spec fn ip_spec(&self) -> IpAddr {
        IpAddr::V4(*self)
    }

    fn same(&self, other: &Self) -> (r: bool) {
        same_v4(self, other)
    }

    fn ip(&self) -> (ip: IpAddr) {
        IpAddr::V4(*self)
    }
}

impl FlowAddress for [u16; 8] {
    open spec fn ip_spec(&self) -> IpAddr {
        IpAddr::V6(*self)
    }

    fn same(&self, other: &Self) -> (r: bool) {
        same_v6(self, other)
    }

    fn ip(&self) -> (ip: IpAddr) {
        IpAddr::V6(*self)
    }
}

// ---------------------------------------------------------------------------
// The model: entries in the order in which they were inserted
// ---------------------------------------------------------------------------

/// Whether some entry has the key.
pub open spec fn has_key<K>(entries: Seq<(K, u16)>, key: K) -> bool {
    exists|i: int| 0 <= i < entries.len() && (#[trigger] entries[i]).0 == key
}

/// The place of an entry with the key; meaningful where `has_key` holds.
pub open spec fn position<K>(entries: Seq<(K, u16)>, key: K) -> int {
    choose|i: int| 0 <= i < entries.len() && (#[trigger] entries[i]).0 == key
}

/// No two entries have the same key.
pub open spec fn distinct_keys<K>(entries: Seq<(K, u16)>) -> bool {
    forall|i: int, j: int|
        0 <= i < j < entries.len() ==> (#[trigger] entries[i]).0 != (#[trigger] entries[j]).0
}

/// The value stored under the key, if any.
pub open spec fn lookup<K>(entries: Seq<(K, u16)>, key: K) -> Option<u16> {
    if has_key(entries, key) {
        Some(entries[position(entries, key)].1)
    } else {
        None
    }
}

/// The entries after an insertion into a table of the given capacity: an
/// existing key keeps its value, a full table stays as it is, and otherwise
/// the new entry comes last.
pub open spec fn inserted<K>(entries: Seq<(K, u16)>, capacity: nat, key: K, value: u16) -> Seq<
    (K, u16),
> {
    if has_key(entries, key) || entries.len() >= capacity {
        entries
    } else {
        entries.push((key, value))
    }
}

/// The entries after the removal of a key: the others, in their order.
pub open spec fn removed<K>(entries: Seq<(K, u16)>, key: K) -> Seq<(K, u16)> {
    if has_key(entries, key) {
        entries.remove(position(entries, key))
    } else {
        entries
    }
}

/// The keys of the entries, in their order.
pub open spec fn keys_of<K>(entries: Seq<(K, u16)>) -> Seq<K> {
    Seq::new(entries.len(), |i: int| entries[i].0)
}

/// The entries after the removal of each of the keys, one after another.
pub open spec fn removed_all<K>(entries: Seq<(K, u16)>, keys: Seq<K>) -> Seq<(K, u16)>
    decreases keys.len(),
{
    if keys.len() == 0 {
        entries
    } else {
        removed(removed_all(entries, keys.drop_last()), keys.last())
    }
}

/// The entries after the insertion of each of the given ones, one after
/// another, into a table of the given capacity that starts with `entries`.
pub open spec fn inserted_all<K>(entries: Seq<(K, u16)>, capacity: nat, new: Seq<(K, u16)>) -> Seq<
    (K, u16),
>
    decreases new.len(),
{
    if new.len() == 0 {
        entries
    } else {
        inserted(inserted_all(entries, capacity, new.drop_last()), capacity, new.last().0, new.last().1)
    }
}

/// Every entry is on one of the ports.
pub open spec fn entries_within<K>(entries: Seq<(K, u16)>, ports: Set<u16>) -> bool {
    forall|i: int| 0 <= i < entries.len() ==> ports.contains((#[trigger] entries[i]).1)
}

/// The entries as a map from key to value.
pub open spec fn entries_map<K>(entries: Seq<(K, u16)>) -> Map<K, u16> {
    Map::new(|key: K| has_key(entries, key), |key: K| entries[position(entries, key)].1)
}

/// Where the keys are distinct, the place of a key is the one place at
/// which it stands.
pub proof fn lemma_position<K>(entries: Seq<(K, u16)>, i: int)
    requires
        distinct_keys(entries),
        0 <= i < entries.len(),
    ensures
        has_key(entries, entries[i].0),
        position(entries, entries[i].0) == i,
        lookup(entries, entries[i].0) == Some(entries[i].1),
{
    let key = entries[i].0;
    assert(has_key(entries, key));
    let p = position(entries, key);
    assert(0 <= p < entries.len() && entries[p].0 == key);
    if p < i {
        assert(entries[p].0 != entries[i].0);
    } else if i < p {
        assert(entries[i].0 != entries[p].0);
    }
}

/// Insertion keeps the keys distinct and the table within its capacity.
pub proof fn lemma_inserted_wf<K>(entries: Seq<(K, u16)>, capacity: nat, key: K, value: u16)
    requires
        distinct_keys(entries),
        entries.len() <= capacity,
    ensures
        distinct_keys(inserted(entries, capacity, key, value)),
        inserted(entries, capacity, key, value).len() <= capacity,
{
    let after = inserted(entries, capacity, key, value);
    if !(has_key(entries, key) || entries.len() >= capacity) {
        assert forall|i: int, j: int| 0 <= i < j < after.len() implies (#[trigger] after[i]).0 != (
        #[trigger] after[j]).0 by {
            if j == entries.len() {
                assert(entries[i].0 != key);
            } else {
                assert(entries[i].0 != entries[j].0);
            }
        }
    }
}

/// Removal keeps the keys distinct, never grows the table, and leaves
/// exactly the entries of the other keys.
pub proof fn lemma_removed_wf<K>(entries: Seq<(K, u16)>, key: K)
    requires
        distinct_keys(entries),
    ensures
        distinct_keys(removed(entries, key)),
        removed(entries, key).len() <= entries.len(),
        !has_key(removed(entries, key), key),
        forall|other: K|
            other != key ==> (has_key(removed(entries, key), other) <==> has_key(entries, other)),
        forall|other: K|
            has_key(removed(entries, key), other) ==> has_key(entries, other) && other != key,
{
    let after = removed(entries, key);
    if has_key(entries, key) {
        let p = position(entries, key);
        assert forall|i: int, j: int| 0 <= i < j < after.len() implies (#[trigger] after[i]).0 != (
        #[trigger] after[j]).0 by {
            let i0 = if i < p { i } else { i + 1 };
            let j0 = if j < p { j } else { j + 1 };
            assert(entries[i0].0 != entries[j0].0);
        }
        assert forall|other: K| has_key(after, other) implies has_key(entries, other) && other
            != key by {
            let i = choose|i: int| 0 <= i < after.len() && (#[trigger] after[i]).0 == other;
            let i0 = if i < p { i } else { i + 1 };
            assert(entries[i0].0 == other);
            if i0 < p {
                assert(entries[i0].0 != entries[p].0);
            } else {
                assert(entries[p].0 != entries[i0].0);
            }
        }
        assert forall|other: K| other != key && has_key(entries, other) implies has_key(
            after,
            other,
        ) by {
            let i0 = choose|i: int| 0 <= i < entries.len() && (#[trigger] entries[i]).0 == other;
            let i = if i0 < p { i0 } else { i0 - 1 };
            assert(after[i].0 == other);
        }
    }
}

/// The table as a map: insertion adds the pair of a key that the map does
/// not hold, where there is room, and changes nothing otherwise; removal
/// takes the key out; a look-up gives what the map holds.
pub proof fn lemma_entries_map<K>(entries: Seq<(K, u16)>, capacity: nat, key: K, value: u16)
    requires
        distinct_keys(entries),
    ensures
        entries_map(entries).dom().finite(),
        entries_map(entries).dom().len() == entries.len(),
        lookup(entries, key) == if entries_map(entries).contains_key(key) {
            Some(entries_map(entries)[key])
        } else {
            None
        },
        entries_map(inserted(entries, capacity, key, value)) == if entries_map(
            entries,
        ).contains_key(key) || entries.len() >= capacity {
            entries_map(entries)
        } else {
            entries_map(entries).insert(key, value)
        },
        entries_map(removed(entries, key)) == entries_map(entries).remove(key),
{
    let map = entries_map(entries);
    // The domain is the set of the keys, which are as many as the entries.
    let keys = keys_of(entries);
    assert(keys.no_duplicates()) by {
        assert forall|i: int, j: int| 0 <= i < keys.len() && 0 <= j < keys.len() && i
            != j implies keys[i] != keys[j] by {
            if i < j {
                assert(entries[i].0 != entries[j].0);
            } else {
                assert(entries[j].0 != entries[i].0);
            }
        }
    }
    assert(map.dom() =~= keys.to_set()) by {
        assert forall|k: K| map.dom().contains(k) <==> keys.to_set().contains(k) by {
            if has_key(entries, k) {
                let i = position(entries, k);
                assert(keys[i] == k);
            }
            if keys.contains(k) {
                let i = choose|i: int| 0 <= i < keys.len() && keys[i] == k;
                assert(entries[i].0 == k);
            }
        }
    }
    keys.unique_seq_to_set();
    vstd::seq_lib::seq_to_set_is_finite(keys);
    // Insertion.
    let more = inserted(entries, capacity, key, value);
    if !(has_key(entries, key) || entries.len() >= capacity) {
        lemma_inserted_wf(entries, capacity, key, value);
        assert forall|k: K| has_key(more, k) <==> (k == key || has_key(entries, k)) by {
            if has_key(more, k) {
                let i = choose|i: int| 0 <= i < more.len() && (#[trigger] more[i]).0 == k;
                if i < entries.len() {
                    assert(entries[i].0 == k);
                }
            }
            if has_key(entries, k) {
                let i = position(entries, k);
                assert(more[i].0 == k);
            }
            if k == key {
                assert(more[entries.len() as int].0 == k);
            }
        }
        assert forall|k: K| has_key(more, k) implies more[position(more, k)].1 == if k == key {
            value
        } else {
            entries[position(entries, k)].1
        } by {
            let i = position(more, k);
            if k == key {
                lemma_position(more, entries.len() as int);
            } else {
                let j = position(entries, k);
                assert(more[j].0 == k);
                lemma_position(more, j);
            }
        }
        assert(entries_map(more) =~= map.insert(key, value));
    }
    // Removal.
    let fewer = removed(entries, key);
    lemma_removed_wf(entries, key);
    if has_key(entries, key) {
        let p = position(entries, key);
        assert forall|k: K| has_key(fewer, k) implies fewer[position(fewer, k)].1
            == entries[position(entries, k)].1 by {
            let i = position(fewer, k);
            let i0 = if i < p { i } else { i + 1 };
            assert(entries[i0] == fewer[i]);
            lemma_position(entries, i0);
        }
        assert(entries_map(fewer) =~= map.remove(key));
    } else {
        assert(entries_map(fewer) =~= map.remove(key));
    }
}

/// Inserting into an empty table, in any sequence, keeps the keys distinct
/// and the table within its capacity.
pub proof fn lemma_inserted_all_wf<K>(entries: Seq<(K, u16)>, capacity: nat, new: Seq<(K, u16)>)
    requires
        distinct_keys(entries),
        entries.len() <= capacity,
    ensures
        distinct_keys(inserted_all(entries, capacity, new)),
        inserted_all(entries, capacity, new).len() <= capacity,
    decreases new.len(),
{
    if new.len() > 0 {
        lemma_inserted_all_wf(entries, capacity, new.drop_last());
        lemma_inserted_wf(
            inserted_all(entries, capacity, new.drop_last()),
            capacity,
            new.last().0,
            new.last().1,
        );
    }
}

/// Inserting a key that the table holds changes nothing, whatever value
/// comes with it: the key keeps the value it had. And after one insertion
/// of a key, a second one of the same key changes nothing.
pub proof fn lemma_insert_idempotent<K>(
    entries: Seq<(K, u16)>,
    capacity: nat,
    key: K,
    first: u16,
    second: u16,
)
    requires
        distinct_keys(entries),
    ensures
        has_key(entries, key) ==> inserted(entries, capacity, key, second) == entries,
        has_key(entries, key) ==> lookup(inserted(entries, capacity, key, second), key) == lookup(
            entries,
            key,
        ),
        inserted(inserted(entries, capacity, key, first), capacity, key, second) == inserted(
            entries,
            capacity,
            key,
            first,
        ),
{
    let once = inserted(entries, capacity, key, first);
    if !has_key(entries, key) && entries.len() < capacity {
        assert(once[entries.len() as int].0 == key);
        assert(has_key(once, key));
    }
}

/// Removing keys one after another keeps the keys distinct and leaves
/// exactly the entries of the keys that were not removed.
pub proof fn lemma_removed_all<K>(entries: Seq<(K, u16)>, keys: Seq<K>)
    requires
        distinct_keys(entries),
    ensures
        distinct_keys(removed_all(entries, keys)),
        removed_all(entries, keys).len() <= entries.len(),
        forall|key: K|
            has_key(removed_all(entries, keys), key) <==> has_key(entries, key) && !keys.contains(
                key,
            ),
    decreases keys.len(),
{
    if keys.len() > 0 {
        let before = removed_all(entries, keys.drop_last());
        lemma_removed_all(entries, keys.drop_last());
        lemma_removed_wf(before, keys.last());
        assert forall|key: K|
            has_key(removed_all(entries, keys), key) <==> has_key(entries, key) && !keys.contains(
                key,
            ) by {
            if keys.contains(key) {
                let m = choose|m: int| 0 <= m < keys.len() && keys[m] == key;
                if m < keys.len() - 1 {
                    assert(keys.drop_last()[m] == key);
                    assert(keys.drop_last().contains(key));
                }
            } else {
                if keys.drop_last().contains(key) {
                    let m = choose|m: int|
                        0 <= m < keys.drop_last().len() && keys.drop_last()[m] == key;
                    assert(keys[m] == key);
                }
                assert(key != keys.last()) by {
                    if key == keys.last() {
                        assert(keys[keys.len() - 1] == key);
                    }
                }
            }
        }
    } else {
        assert forall|key: K| !keys.contains(key) by {}
    }
}

/// Removing a set of keys that holds every key of the table leaves the
/// table empty.
pub proof fn lemma_removed_all_empty<K>(entries: Seq<(K, u16)>, keys: Seq<K>)
    requires
        distinct_keys(entries),
        forall|i: int| 0 <= i < entries.len() ==> keys.contains((#[trigger] entries[i]).0),
    ensures
        removed_all(entries, keys) == Seq::<(K, u16)>::empty(),
{
    lemma_removed_all(entries, keys);
    let rest = removed_all(entries, keys);
    if rest.len() > 0 {
        assert(has_key(rest, rest[0].0));
        let key = rest[0].0;
        assert(has_key(entries, key));
        let j = choose|j: int| 0 <= j < entries.len() && (#[trigger] entries[j]).0 == key;
        assert(keys.contains(entries[j].0));
    }
    assert(rest =~= Seq::<(K, u16)>::empty());
}

/// Draining leaves nothing behind: whatever sequence of insertions filled
/// a table, removing every key that an enumeration of it reports leaves the
/// table empty.
pub proof fn lemma_drain_leaves_empty<K>(capacity: nat, insertions: Seq<(K, u16)>)
    ensures
        ({
            let filled = inserted_all(Seq::<(K, u16)>::empty(), capacity, insertions);
            removed_all(filled, keys_of(filled)) == Seq::<(K, u16)>::empty()
        }),
{
    let filled = inserted_all(Seq::<(K, u16)>::empty(), capacity, insertions);
    lemma_inserted_all_wf(Seq::<(K, u16)>::empty(), capacity, insertions);
    assert forall|i: int| 0 <= i < filled.len() implies keys_of(filled).contains(
        (#[trigger] filled[i]).0,
    ) by {
        assert(keys_of(filled)[i] == filled[i].0);
    }
    lemma_removed_all_empty(filled, keys_of(filled));
}

// ---------------------------------------------------------------------------
// Flow tables
// ---------------------------------------------------------------------------

/// A table of fixed capacity from source address to destination port, one
/// entry per address.
pub struct BoundedFlowTable<K> {
    entries: Vec<(K, u16)>,
    max_entries: usize,
}

impl<K> BoundedFlowTable<K> {
    /// The entries in the order in which they were inserted.
    pub closed spec fn entries(&self) -> Seq<(K, u16)> {
        self.entries@
    }

    /// The number of entries that the table was made for.
    pub closed spec fn capacity(&self) -> nat {
        self.max_entries as nat
    }

    /// The keys are distinct and the entries fit the capacity.
    pub open spec fn wf(&self) -> bool {
        &&& distinct_keys(self.entries())
        &&& self.entries().len() <= self.capacity()
    }

    /// The table as a map from source address to destination port.
    pub open spec fn view(&self) -> Map<K, u16> {
        entries_map(self.entries())
    }
}

impl<K: FlowAddress> BoundedFlowTable<K> {
    /// An empty table that holds at most `max_entries` entries.
    pub fn with_max_entries(max_entries: u32) -> (table: Self)
        ensures
            table.entries() == Seq::<(K, u16)>::empty(),
            table.capacity() == max_entries,
            table.wf(),
    {
        BoundedFlowTable { entries: Vec::new(), max_entries: max_entries as usize }
    }

    /// The number of entries.
    pub fn len(&self) -> (n: usize)
        ensures
            n == self.entries().len(),
    {
        self.entries.len()
    }

    /// Whether the table holds no entry.
    pub fn is_empty(&self) -> (r: bool)
        ensures
            r == (self.entries().len() == 0),
    {
        self.entries.len() == 0
    }

    /// The place of the key's entry, or the number of entries where the
    /// table does not hold the key.
    fn find(&self, key: &K) -> (i: usize)
        requires
            self.wf(),
        ensures
            i <= self.entries().len(),
            i < self.entries().len() <==> has_key(self.entries(), *key),
            i < self.entries().len() ==> position(self.entries(), *key) == i,
    {
        let mut i: usize = 0;
        while i < self.entries.len()
            invariant
                i <= self.entries@.len(),
                distinct_keys(self.entries@),
                forall|j: int| 0 <= j < i ==> (#[trigger] self.entries@[j]).0 != *key,
            decreases self.entries@.len() - i,
        {
            if self.entries[i].0.same(key) {
                proof {
                    lemma_position(self.entries@, i as int);
                }
                return i;
            }
            i += 1;
        }
        i
    }

    /// The destination port stored for the address, if the table holds it.
    pub fn get(&self, key: &K) -> (value: Option<u16>)
        requires
            self.wf(),
        ensures
            value == lookup(self.entries(), *key),
            value == if self@.contains_key(*key) {
                Some(self@[*key])
            } else {
                None
            },
    {
        proof {
            lemma_entries_map(self.entries(), self.capacity(), *key, 0);
        }
        let i = self.find(key);
        if i < self.entries.len() {
            Some(self.entries[i].1)
        } else {
            None
        }
    }

    /// Stores the destination port for the address. An address that the
    /// table already holds keeps its port; a full table stays as it is and
    /// reports so.
    pub fn insert(&mut self, key: &K, value: &u16) -> (r: Result<(), TableError>)
        requires
            old(self).wf(),
        ensures
            final(self).entries() == inserted(old(self).entries(), old(self).capacity(), *key, *value),
            final(self).capacity() == old(self).capacity(),
            final(self).wf(),
            final(self)@ == if old(self)@.contains_key(*key) || old(self).entries().len() >= old(
                self,
            ).capacity() {
                old(self)@
            } else {
                old(self)@.insert(*key, *value)
            },
            r is Err <==> !has_key(old(self).entries(), *key) && old(self).entries().len()
                >= old(self).capacity(),
    {
        proof {
            lemma_inserted_wf(self.entries@, self.max_entries as nat, *key, *value);
            lemma_entries_map(self.entries@, self.max_entries as nat, *key, *value);
        }
        let i = self.find(key);
        if i < self.entries.len() {
            Ok(())
        } else if self.entries.len() >= self.max_entries {
            Err(TableError::Full)
        } else {
            self.entries.push((*key, *value));
            Ok(())
        }
    }

    /// Takes the address out of the table and says whether the table held
    /// it. A table that does not hold the address stays as it is.
    pub fn remove(&mut self, key: &K) -> (held: bool)
        requires
            old(self).wf(),
        ensures
            final(self).entries() == removed(old(self).entries(), *key),
            final(self).capacity() == old(self).capacity(),
            final(self).wf(),
            final(self)@ == old(self)@.remove(*key),
            held == has_key(old(self).entries(), *key),
    {
        proof {
            lemma_removed_wf(self.entries@, *key);
            lemma_entries_map(self.entries@, self.max_entries as nat, *key, 0);
        }
        let i = self.find(key);
        if i < self.entries.len() {
            self.entries.remove(i);
            true
        } else {
            false
        }
    }

    /// All entries, in the order in which they were inserted.
    pub fn to_vec(&self) -> (all: Vec<(K, u16)>)
        ensures
            all@ == self.entries(),
    {
        let mut all: Vec<(K, u16)> = Vec::new();
        let mut i: usize = 0;
        while i < self.entries.len()
            invariant
                i <= self.entries@.len(),
                all@ == self.entries@.take(i as int),
            decreases self.entries@.len() - i,
        {
            all.push(self.entries[i]);
            assert(all@ =~= self.entries@.take(i + 1));
            i += 1;
        }
        assert(all@ =~= self.entries@);
        all
    }
}

// ---------------------------------------------------------------------------
// The port filter
// ---------------------------------------------------------------------------

/// A set of destination ports of fixed capacity: the ports that the
/// classifier counts while the filter is on.
pub struct CustomPortSet {
    ports: Vec<u16>,
    max_entries: usize,
}

impl CustomPortSet {
    /// The ports of the set.
    pub closed spec fn view(&self) -> Set<u16> {
        self.ports@.to_set()
    }

    /// The number of ports that the set was made for.
    pub closed spec fn capacity(&self) -> nat {
        self.max_entries as nat
    }

    /// No port is stored twice and the ports fit the capacity.
    pub closed spec fn wf(&self) -> bool {
        &&& self.ports@.no_duplicates()
        &&& self.ports@.len() <= self.max_entries
    }

    /// A well-formed set is finite and within its capacity.
    pub proof fn lemma_wf(&self)
        requires
            self.wf(),
        ensures
            self@.finite(),
            self@.len() <= self.capacity(),
    {
        self.ports@.unique_seq_to_set();
        vstd::seq_lib::seq_to_set_is_finite(self.ports@);
    }

    /// An empty set that holds at most `max_entries` ports.
    pub fn with_max_entries(max_entries: u32) -> (set: Self)
        ensures
            set@ == Set::<u16>::empty(),
            set.capacity() == max_entries,
            set.wf(),
    {
        let set = CustomPortSet { ports: Vec::new(), max_entries: max_entries as usize };
        assert(set.ports@.to_set() =~= Set::<u16>::empty());
        set
    }

    /// The number of ports in the set.
    pub fn len(&self) -> (n: usize)
        requires
            self.wf(),
        ensures
            n == self@.len(),
    {
        proof {
            self.ports@.unique_seq_to_set();
        }
        self.ports.len()
    }

    /// Whether the set holds the port.
    pub fn contains(&self, port: u16) -> (r: bool)
        ensures
            r == self@.contains(port),
    {
        let mut i: usize = 0;
        while i < self.ports.len()
            invariant
                i <= self.ports@.len(),
                forall|j: int| 0 <= j < i ==> self.ports@[j] != port,
            decreases self.ports@.len() - i,
        {
            if self.ports[i] == port {
                assert(self.ports@.contains(port));
                return true;
            }
            i += 1;
        }
        assert(!self.ports@.contains(port));
        false
    }

    /// Adds a port. A port that the set already holds changes nothing; a
    /// full set stays as it is and reports so.
    pub fn insert(&mut self, port: u16) -> (r: Result<(), TableError>)
        requires
            old(self).wf(),
        ensures
            final(self).wf(),
            final(self).capacity() == old(self).capacity(),
            final(self)@ == if old(self)@.contains(port) || old(self)@.len() >= old(self).capacity() {
                old(self)@
            } else {
                old(self)@.insert(port)
            },
            r is Err <==> !old(self)@.contains(port) && old(self)@.len() >= old(self).capacity(),
    {
        proof {
            self.ports@.unique_seq_to_set();
        }
        if self.contains(port) {
            Ok(())
        } else if self.ports.len() >= self.max_entries {
            Err(TableError::Full)
        } else {
            proof {
                self.ports@.lemma_push_to_set_commute(port);
                assert forall|i: int, j: int|
                    0 <= i < self.ports@.push(port).len() && 0 <= j < self.ports@.push(port).len()
                        && i != j implies self.ports@.push(port)[i] != self.ports@.push(port)[j] by {
                    if i < self.ports@.len() {
                        assert(self.ports@.contains(self.ports@[i]));
                    }
                    if j < self.ports@.len() {
                        assert(self.ports@.contains(self.ports@[j]));
                    }
                }
            }
            self.ports.push(port);
            Ok(())
        }
    }

    /// Adds every port of the list, or none: where the set cannot hold them
    /// all, it stays as it is and reports so.
    pub fn insert_all(&mut self, ports: &Vec<u16>) -> (r: Result<(), TableError>)
        requires
            old(self).wf(),
        ensures
            final(self).wf(),
            final(self).capacity() == old(self).capacity(),
            r is Ok <==> old(self)@.union(ports@.to_set()).len() <= old(self).capacity(),
            r is Ok ==> final(self)@ == old(self)@.union(ports@.to_set()),
            r is Err ==> *final(self) == *old(self),
    {
        // The ports of the list that the set does not hold yet, each once.
        let mut added: Vec<u16> = Vec::new();
        let mut i: usize = 0;
        assert((self.ports@ + added@) =~= self.ports@);
        assert(ports@.take(0).to_set() =~= Set::<u16>::empty());
        assert(self.ports@.to_set().union(Set::<u16>::empty()) =~= self.ports@.to_set());
        while i < ports.len()
            invariant
                i <= ports@.len(),
                self.wf(),
                *self == *old(self),
                (self.ports@ + added@).no_duplicates(),
                (self.ports@ + added@).to_set() == self.ports@.to_set().union(
                    ports@.take(i as int).to_set(),
                ),
                added@.len() <= i,
            decreases ports@.len() - i,
        {
            let port = ports[i];
            let ghost all = self.ports@ + added@;
            let mut known = self.contains(port);
            proof {
                if known {
                    assert(self.ports@.contains(port));
                    let m = choose|m: int| 0 <= m < self.ports@.len() && self.ports@[m] == port;
                    assert(all[m] == port);
                }
            }
            let mut j: usize = 0;
            while !known && j < added.len()
                invariant
                    j <= added@.len(),
                    known ==> all.contains(port),
                    !known ==> !self.ports@.contains(port),
                    !known ==> forall|m: int| 0 <= m < j ==> added@[m] != port,
                    all == self.ports@ + added@,
                decreases added@.len() - j + if known { 0int } else { 1int },
            {
                if added[j] == port {
                    assert(all[self.ports@.len() + j] == port);
                    known = true;
                } else {
                    j += 1;
                }
            }
            proof {
                assert(ports@.take(i + 1) =~= ports@.take(i as int).push(port));
                ports@.take(i as int).lemma_push_to_set_commute(port);
                if known {
                    assert(all.to_set().contains(port));
                    assert(all.to_set() =~= self.ports@.to_set().union(
                        ports@.take(i + 1).to_set(),
                    ));
                } else {
                    assert(!all.contains(port)) by {
                        if all.contains(port) {
                            let m = choose|m: int| 0 <= m < all.len() && all[m] == port;
                            if m < self.ports@.len() {
                                assert(self.ports@[m] == port);
                                assert(self.ports@.contains(port));
                            } else {
                                assert(added@[m - self.ports@.len()] == port);
                            }
                        }
                    }
                    let next = self.ports@ + added@.push(port);
                    assert(next =~= all.push(port));
                    all.lemma_push_to_set_commute(port);
                    assert(next.to_set() =~= self.ports@.to_set().union(
                        ports@.take(i + 1).to_set(),
                    ));
                    assert forall|a: int, b: int|
                        0 <= a < next.len() && 0 <= b < next.len() && a != b implies next[a]
                        != next[b] by {
                        if a < all.len() {
                            assert(all.contains(all[a]));
                        }
                        if b < all.len() {
                            assert(all.contains(all[b]));
                        }
                    }
                }
            }
            if !known {
                added.push(port);
            }
            i += 1;
        }
        proof {
            assert(ports@.take(ports@.len() as int) =~= ports@);
            (self.ports@ + added@).unique_seq_to_set();
        }
        if added.len() > self.max_entries - self.ports.len() {
            return Err(TableError::Full);
        }
        let ghost target = self.ports@ + added@;
        let mut k: usize = 0;
        assert(self.ports@ =~= old(self).ports@ + added@.take(0));
        while k < added.len()
            invariant
                k <= added@.len(),
                self.max_entries == old(self).max_entries,
                old(self).ports@.len() + added@.len() <= self.max_entries,
                self.ports@ == old(self).ports@ + added@.take(k as int),
                target == old(self).ports@ + added@,
            decreases added@.len() - k,
        {
            self.ports.push(added[k]);
            assert(self.ports@ =~= old(self).ports@ + added@.take(k + 1));
            k += 1;
        }
        assert(self.ports@ =~= target);
        Ok(())
    }
}

// ---------------------------------------------------------------------------
// The shared maps
// ---------------------------------------------------------------------------

/// The maps that the classifier and the sampler share: the port filter and
/// its toggle, and one flow table for each pair of network and transport
/// protocol.
pub struct SharedMaps {
    /// Whether the classifier counts only the ports of `custom_ports`.
    pub use_custom_ports: bool,
    /// The ports that the classifier counts while the filter is on.
    pub custom_ports: CustomPortSet,
    /// TCP over IPv4.
    pub tcp_v4: BoundedFlowTable<[u8; 4]>,
    /// UDP over IPv4.
    pub udp_v4: BoundedFlowTable<[u8; 4]>,
    /// TCP over IPv6.
    pub tcp_v6: BoundedFlowTable<[u16; 8]>,
    /// UDP over IPv6.
    pub udp_v6: BoundedFlowTable<[u16; 8]>,
}

impl SharedMaps {
    /// Every map is well formed.
    pub open spec fn wf(&self) -> bool {
        &&& self.custom_ports.wf()
        &&& self.tcp_v4.wf()
        &&& self.udp_v4.wf()
        &&& self.tcp_v6.wf()
        &&& self.udp_v6.wf()
    }

    /// No flow table holds an entry.
    pub open spec fn is_drained(&self) -> bool {
        &&& self.tcp_v4.entries().len() == 0
        &&& self.udp_v4.entries().len() == 0
        &&& self.tcp_v6.entries().len() == 0
        &&& self.udp_v6.entries().len() == 0
    }

    /// Whether the filter lets a destination port through.
    pub open spec fn admits(&self, port: u16) -> bool {
        self.use_custom_ports ==> self.custom_ports@.contains(port)
    }

    /// While the filter is on, every entry of every table is on a port that
    /// the filter holds.
    pub open spec fn respects_filter(&self) -> bool {
        self.use_custom_ports ==> {
            &&& entries_within(self.tcp_v4.entries(), self.custom_ports@)
            &&& entries_within(self.udp_v4.entries(), self.custom_ports@)
            &&& entries_within(self.tcp_v6.entries(), self.custom_ports@)
            &&& entries_within(self.udp_v6.entries(), self.custom_ports@)
        }
    }

    /// Empty maps of the reference capacities, with the filter off.
    pub fn new() -> (maps: Self)
        ensures
            maps.wf(),
            maps.is_drained(),
            !maps.use_custom_ports,
            maps.custom_ports@ == Set::<u16>::empty(),
            maps.custom_ports.capacity() == PORTS_MAP_SIZE,
            maps.tcp_v4.capacity() == PACKETS_MAP_SIZE,
            maps.udp_v4.capacity() == PACKETS_MAP_SIZE,
            maps.tcp_v6.capacity() == PACKETS_MAP_SIZE,
            maps.udp_v6.capacity() == PACKETS_MAP_SIZE,
    {
        SharedMaps {
            use_custom_ports: false,
            custom_ports: CustomPortSet::with_max_entries(PORTS_MAP_SIZE),
            tcp_v4: BoundedFlowTable::with_max_entries(PACKETS_MAP_SIZE),
            udp_v4: BoundedFlowTable::with_max_entries(PACKETS_MAP_SIZE),
            tcp_v6: BoundedFlowTable::with_max_entries(PACKETS_MAP_SIZE),
            udp_v6: BoundedFlowTable::with_max_entries(PACKETS_MAP_SIZE),
        }
    }

    /// Configures the port filter. With no list the filter is switched off.
    /// With a list the ports are added to the filter and the filter is
    /// switched on, unless the filter cannot hold them all: then nothing
    /// changes.
    pub fn add_custom_ports(&mut self, ports: Option<Vec<u16>>) -> (r: Result<(), TableError>)
        requires
            old(self).wf(),
        ensures
            final(self).wf(),
            final(self).tcp_v4 == old(self).tcp_v4,
            final(self).udp_v4 == old(self).udp_v4,
            final(self).tcp_v6 == old(self).tcp_v6,
            final(self).udp_v6 == old(self).udp_v6,
            final(self).custom_ports.capacity() == old(self).custom_ports.capacity(),
            match ports {
                None => r is Ok && !final(self).use_custom_ports && final(self).custom_ports == old(
                    self,
                ).custom_ports,
                Some(list) => {
                    let all = old(self).custom_ports@.union(list@.to_set());
                    if all.len() <= old(self).custom_ports.capacity() {
                        r is Ok && final(self).use_custom_ports && final(self).custom_ports@ == all
                    } else {
                        r is Err && *final(self) == *old(self)
                    }
                },
            },
    {
        match ports {
            None => {
                self.use_custom_ports = false;
                Ok(())
            },
            Some(list) => {
                match self.custom_ports.insert_all(&list) {
                    Ok(()) => {
                        self.use_custom_ports = true;
                        Ok(())
                    },
                    Err(e) => Err(e),
                }
            },
        }
    }

    /// The table of TCP over IPv4.
    pub fn get_tcp_v4(&self) -> (table: &BoundedFlowTable<[u8; 4]>)
        ensures
            *table == self.tcp_v4,
    {
        &self.tcp_v4
    }

    /// The table of UDP over IPv4.
    pub fn get_udp_v4(&self) -> (table: &BoundedFlowTable<[u8; 4]>)
        ensures
            *table == self.udp_v4,
    {
        &self.udp_v4
    }

    /// The table of TCP over IPv6.
    pub fn get_tcp_v6(&self) -> (table: &BoundedFlowTable<[u16; 8]>)
        ensures
            *table == self.tcp_v6,
    {
        &self.tcp_v6
    }

    /// The table of UDP over IPv6.
    pub fn get_udp_v6(&self) -> (table: &BoundedFlowTable<[u16; 8]>)
        ensures
            *table == self.udp_v6,
    {
        &self.udp_v6
    }

    /// Takes the address out of the table of TCP over IPv4; nothing changes
    /// where the table does not hold it.
    pub fn remove_from_tcp_v4(&mut self, ip: &[u8; 4])
        requires
            old(self).wf(),
        ensures
            final(self).wf(),
            final(self).tcp_v4.entries() == removed(old(self).tcp_v4.entries(), *ip),
            final(self).tcp_v4.capacity() == old(self).tcp_v4.capacity(),
            *final(self) == (SharedMaps { tcp_v4: final(self).tcp_v4, ..*old(self) }),
    {
        if self.tcp_v4.get(ip).is_some() {
            self.tcp_v4.remove(ip);
        }
    }

    /// Takes the address out of the table of UDP over IPv4; nothing changes
    /// where the table does not hold it.
    pub fn remove_from_udp_v4(&mut self, ip: &[u8; 4])
        requires
            old(self).wf(),
        ensures
            final(self).wf(),
            final(self).udp_v4.entries() == removed(old(self).udp_v4.entries(), *ip),
            final(self).udp_v4.capacity() == old(self).udp_v4.capacity(),
            *final(self) == (SharedMaps { udp_v4: final(self).udp_v4, ..*old(self) }),
    {
        if self.udp_v4.get(ip).is_some() {
            self.udp_v4.remove(ip);
        }
    }

    /// Takes the address out of the table of TCP over IPv6; nothing changes
    /// where the table does not hold it.
    pub fn remove_from_tcp_v6(&mut self, ip: &[u16; 8])
        requires
            old(self).wf(),
        ensures
            final(self).wf(),
            final(self).tcp_v6.entries() == removed(old(self).tcp_v6.entries(), *ip),
            final(self).tcp_v6.capacity() == old(self).tcp_v6.capacity(),
            *final(self) == (SharedMaps { tcp_v6: final(self).tcp_v6, ..*old(self) }),
    {
        if self.tcp_v6.get(ip).is_some() {
            self.tcp_v6.remove(ip);
        }
    }

    /// Takes the address out of the table of UDP over IPv6; nothing changes
    /// where the table does not hold it.
    pub fn remove_from_udp_v6(&mut self, ip: &[u16; 8])
        requires
            old(self).wf(),
        ensures
            final(self).wf(),
            final(self).udp_v6.entries() == removed(old(self).udp_v6.entries(), *ip),
            final(self).udp_v6.capacity() == old(self).udp_v6.capacity(),
            *final(self) == (SharedMaps { udp_v6: final(self).udp_v6, ..*old(self) }),
    {
        if self.udp_v6.get(ip).is_some() {
            self.udp_v6.remove(ip);
        }
    }
}

} // verus!
