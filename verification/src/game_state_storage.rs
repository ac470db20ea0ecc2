//! The transposition cache: one payload per game state, qualified by the
//! search depth that produced it.

use crate::board::{Board, Grid};
use crate::interfaces::BoardStateEntry;
use std::collections::HashMap;
use vstd::prelude::*;

verus! {

/// A key that is compared, copied and hashed by its value.
pub trait CacheKey: View + Sized {
    /// The hash of a key of the given value.
    spec fn hash_of(value: Self::V) -> u64;

    /// The hash of the key's value.
    fn hash_key(&self) -> (hash: u64)
        ensures
            hash == Self::hash_of(self@),
    ;

    /// Whether the two keys have the same value.
    fn same_key(&self, other: &Self) -> (same: bool)
        ensures
            same == (self@ == other@),
    ;

    /// A key of the same value.
    fn copy_key(&self) -> (copy: Self)
        ensures
            copy@ == self@,
    ;
}

/// The multiplier of the hash.
pub const HASH_FACTOR: u64 = 1_099_511_628_211;

/// The modulus of the hash: the largest prime below 2^64.
pub const HASH_MODULUS: u64 = 18_446_744_073_709_551_557;

/// The hash `hash` with `code` mixed in.
pub open spec fn mixed(hash: u64, code: u64) -> u64 {
    ((hash as int * HASH_FACTOR as int + code as int) % (HASH_MODULUS as int)) as u64
}

/// Mixes `code` into `hash`.
pub fn mix(hash: u64, code: u64) -> (out: u64)
    ensures
        out == mixed(hash, code),
{
    let wide: u128 = hash as u128 * HASH_FACTOR as u128 + code as u128;
    (wide % HASH_MODULUS as u128) as u64
}

/// The number that stands for a cell in the hash: `0` for a free cell,
/// the owner's id plus one for an occupied one.
pub open spec fn cell_code(cell: BoardStateEntry) -> u64 {
    match cell.0 {
        Some(id) => (id + 1) as u64,
        None => 0,
    }
}

/// The hash `start` with the first `upto` of the cells mixed in, in their order.
pub open spec fn hashed_cells(start: u64, cells: Seq<BoardStateEntry>, upto: nat) -> u64
    decreases upto,
{
    if upto == 0 {
        start
    } else {
        mixed(hashed_cells(start, cells, (upto - 1) as nat), cell_code(cells[upto - 1]))
    }
}

/// The hash of a game state: its number of rows, its number of columns
/// and its cells in row-major order, mixed in one after the other.
pub open spec fn hash_of_grid(grid: Grid<BoardStateEntry>) -> u64 {
    hashed_cells(
        mixed(mixed(0, (grid.rows % 65536) as u64), (grid.columns % 65536) as u64),
        grid.cells,
        grid.cells.len(),
    )
}

impl CacheKey for Board<BoardStateEntry> {
    open spec fn hash_of(value: Grid<BoardStateEntry>) -> u64 {
        hash_of_grid(value)
    }

    fn hash_key(&self) -> (hash: u64) {
        self.hash_cells()
    }

    fn same_key(&self, other: &Self) -> (same: bool) {
        self.same_cells(other)
    }

    fn copy_key(&self) -> (copy: Self) {
        self.clone()
    }
}

/// Whether `entries` holds a payload for `key` that was derived with a
/// lookahead of at least `depth`.
pub open spec fn covers<K, P>(entries: Map<K, (u32, P)>, key: K, depth: u32) -> bool {
    entries.contains_key(key) && entries[key].0 >= depth
}

/// The payload that a lookup of `key` at `depth` finds, if any.
pub open spec fn lookup<K, P>(entries: Map<K, (u32, P)>, key: K, depth: u32) -> Option<P> {
    if covers(entries, key, depth) {
        Some(entries[key].1)
    } else {
        None
    }
}

/// The entries after `payload` has been registered for `key` at `depth`:
/// unchanged where the key is already covered at that depth, and with the
/// key's entry replaced otherwise.
pub open spec fn registered<K, P>(
    entries: Map<K, (u32, P)>,
    key: K,
    payload: P,
    depth: u32,
) -> Map<K, (u32, P)> {
    if covers(entries, key, depth) {
        entries
    } else {
        entries.insert(key, (depth, payload))
    }
}

/// A cache of payloads by game state and search depth. For each state it
/// keeps the payload of the deepest search that was registered.
pub trait GameStateStorage<KeyT: CacheKey, Payload> {
    /// What the storage holds: for each key at most one depth and payload.
    spec fn entries(&self) -> Map<KeyT::V, (u32, Payload)>;

    /// Registers a game state with a given payload and depth.
    ///
    /// # Arguments
    /// * `board` - The board to register.
    /// * `payload` - The payload for the given board.
    /// * `depth` - The search depth used to derive the payload.
    fn register_game_state(&mut self, board: &KeyT, payload: Payload, depth: u32)
        ensures
            final(self).entries() == registered(old(self).entries(), board@, payload, depth),
    ;

    /// Retrieves the payload for a given board.
    ///
    /// Given a board and a search depth, this function will return the associated payload, if
    /// there is one that was derived with a lookahead of at least the given depth.
    ///
    /// # Arguments
    /// * `board` - The board to retrieve the payload for.
    /// * `depth` - The minimal required search depth.
    fn get_payload(&self, board: &KeyT, depth: u32) -> (found: Option<&Payload>)
        ensures
            found.is_some() == covers(self.entries(), board@, depth),
            found.is_some() ==> *found.unwrap() == self.entries()[board@].1,
    ;
}

/// The entry at position `i` of `list` is the first one stored under `key`.
pub open spec fn list_holds_at<KeyT: CacheKey, Payload>(
    list: Seq<(KeyT, u32, Payload)>,
    key: KeyT::V,
    i: int,
) -> bool {
    &&& 0 <= i < list.len()
    &&& list[i].0@ == key
    &&& forall|k: int| 0 <= k < i ==> (#[trigger] list[k]).0@ != key
}

/// The position of the first entry of `list` stored under `key`.
pub open spec fn list_position<KeyT: CacheKey, Payload>(
    list: Seq<(KeyT, u32, Payload)>,
    key: KeyT::V,
) -> int {
    choose|i: int| list_holds_at(list, key, i)
}

/// What a list of entries holds: for each key the depth and payload of
/// the first entry stored under it.
pub open spec fn list_entries<KeyT: CacheKey, Payload>(list: Seq<(KeyT, u32, Payload)>) -> Map<
    KeyT::V,
    (u32, Payload),
> {
    Map::new(
        |key: KeyT::V| exists|i: int| list_holds_at(list, key, i),
        |key: KeyT::V| (list[list_position(list, key)].1, list[list_position(list, key)].2),
    )
}

/// Where some entry of a list is stored under a key, a first such entry exists.
pub proof fn lemma_some_entry_is_first<KeyT: CacheKey, Payload>(
    list: Seq<(KeyT, u32, Payload)>,
    key: KeyT::V,
    m: int,
)
    requires
        0 <= m < list.len(),
        list[m].0@ == key,
    ensures
        list_holds_at(list, key, list_position(list, key)),
    decreases m,
{
    if exists|k: int| 0 <= k < m && (#[trigger] list[k]).0@ == key {
        let k = choose|k: int| 0 <= k < m && (#[trigger] list[k]).0@ == key;
        lemma_some_entry_is_first(list, key, k);
    } else {
        assert(list_holds_at(list, key, m));
    }
}

/// Replacing the first entry stored under a key replaces what the list holds for it.
pub proof fn lemma_list_replaced<KeyT: CacheKey, Payload>(
    list: Seq<(KeyT, u32, Payload)>,
    i: int,
    entry: (KeyT, u32, Payload),
)
    requires
        list_holds_at(list, entry.0@, i),
    ensures
        list_entries(list.update(i, entry)) == list_entries(list).insert(
            entry.0@,
            (entry.1, entry.2),
        ),
{
    let after = list.update(i, entry);
    assert forall|key: KeyT::V, k: int| list_holds_at(after, key, k) == list_holds_at(
        list,
        key,
        k,
    ) by {
        if list_holds_at(after, key, k) {
            assert forall|m: int| 0 <= m < k implies (#[trigger] list[m]).0@ != key by {
                assert(after[m].0@ != key);
            }
        }
        if list_holds_at(list, key, k) {
            assert forall|m: int| 0 <= m < k implies (#[trigger] after[m]).0@ != key by {
                assert(list[m].0@ != key);
            }
        }
    }
    assert(list_holds_at(after, entry.0@, i));
    assert(list_entries(after) =~= list_entries(list).insert(entry.0@, (entry.1, entry.2)));
}

/// Appending an entry under a key that the list does not hold adds it to
/// what the list holds.
pub proof fn lemma_list_extended<KeyT: CacheKey, Payload>(
    list: Seq<(KeyT, u32, Payload)>,
    entry: (KeyT, u32, Payload),
)
    requires
        forall|i: int| !list_holds_at(list, entry.0@, i),
    ensures
        list_entries(list.push(entry)) == list_entries(list).insert(entry.0@, (entry.1, entry.2)),
{
    let after = list.push(entry);
    let last = list.len() as int;
    assert forall|m: int| 0 <= m < last implies (#[trigger] after[m]).0@ != entry.0@ by {
        if list[m].0@ == entry.0@ {
            lemma_some_entry_is_first(list, entry.0@, m);
        }
    }
    assert(list_holds_at(after, entry.0@, last));
    assert forall|key: KeyT::V, k: int|
        list_holds_at(after, key, k) == (list_holds_at(list, key, k) || (k == last && key
            == entry.0@)) by {
        if list_holds_at(after, key, k) && k < last {
            assert forall|m: int| 0 <= m < k implies (#[trigger] list[m]).0@ != key by {
                assert(after[m].0@ != key);
            }
        }
        if list_holds_at(list, key, k) {
            assert forall|m: int| 0 <= m < k implies (#[trigger] after[m]).0@ != key by {
                assert(list[m].0@ != key);
            }
        }
    }
    assert(list_entries(after) =~= list_entries(list).insert(entry.0@, (entry.1, entry.2)));
}

/// Where `board` is stored in `list`, if it is: the first such position.
fn find_in_list<KeyT: CacheKey, Payload>(list: &Vec<(KeyT, u32, Payload)>, board: &KeyT) -> (found:
    Option<usize>)
    ensures
        match found {
            Some(i) => list_holds_at(list@, board@, i as int) && list_position(list@, board@) == i,
            None => forall|i: int| !list_holds_at(list@, board@, i),
        },
{
    let mut i: usize = 0;
    while i < list.len()
        invariant
            i <= list.len(),
            forall|k: int| 0 <= k < i ==> (#[trigger] list[k]).0@ != board@,
        decreases list.len() - i,
    {
        if list[i].0.same_key(board) {
            assert(list_holds_at(list@, board@, i as int));
            return Some(i);
        }
        i += 1;
    }
    None
}

/// A storage that keeps its entries in a hash map: under each hash the
/// list of the entries whose keys have that hash. The map is keyed by the
/// hash, an integer, because the hash map is specified for keys of the
/// primitive types only; the keys themselves are told apart by `same_key`.
pub struct NaiveGameStateStorage<KeyT: CacheKey, Payload> {
    storage: HashMap<u64, Vec<(KeyT, u32, Payload)>>,
}

impl<KeyT: CacheKey, Payload> NaiveGameStateStorage<KeyT, Payload> {
    /// The list in which an entry for `key` is stored if there is one.
    spec fn bucket(self, key: KeyT::V) -> Seq<(KeyT, u32, Payload)> {
        if self.storage@.contains_key(KeyT::hash_of(key)) {
            self.storage@[KeyT::hash_of(key)]@
        } else {
            Seq::empty()
        }
    }

    /// A storage that holds nothing.
    #[allow(dead_code)]
    pub fn new() -> (storage: Self)
        ensures
            storage.entries() == Map::<KeyT::V, (u32, Payload)>::empty(),
    {
        let storage = Self { storage: HashMap::new() };
        assert(storage.entries() =~= Map::<KeyT::V, (u32, Payload)>::empty());
        storage
    }
}

impl<KeyT: CacheKey, Payload> GameStateStorage<KeyT, Payload> for NaiveGameStateStorage<
    KeyT,
    Payload,
> {
    closed spec fn entries(&self) -> Map<KeyT::V, (u32, Payload)> {
        Map::new(
            |key: KeyT::V| list_entries(self.bucket(key)).contains_key(key),
            |key: KeyT::V| list_entries(self.bucket(key))[key],
        )
    }

    fn register_game_state(&mut self, board: &KeyT, payload: Payload, depth: u32) {
        broadcast use vstd::std_specs::hash::group_hash_axioms;

        let ghost before = *self;
        let hash = board.hash_key();
        let mut list = match self.storage.remove(&hash) {
            Some(list) => list,
            None => Vec::new(),
        };
        assert(list@ == before.bucket(board@));
        let ghost list_before = list@;
        match find_in_list(&list, board) {
            Some(i) => {
                if list[i].1 < depth {
                    let key = board.copy_key();
                    list.set(i, (key, depth, payload));
                    proof {
                        lemma_list_replaced(list_before, i as int, (key, depth, payload));
                    }
                }
            },
            None => {
                let key = board.copy_key();
                list.push((key, depth, payload));
                proof {
                    lemma_list_extended(list_before, (key, depth, payload));
                }
            },
        }
        let ghost list_after = list@;
        self.storage.insert(hash, list);
        proof {
            let after = *self;
            assert(after.storage@ == before.storage@.insert(hash, after.storage@[hash]));
            assert forall|key: KeyT::V| #[trigger] after.bucket(key) == (if KeyT::hash_of(key)
                == hash {
                list_after
            } else {
                before.bucket(key)
            }) by {}
            assert(after.entries() =~= registered(before.entries(), board@, payload, depth));
        }
    }

    fn get_payload(&self, board: &KeyT, depth: u32) -> (found: Option<&Payload>) {
        broadcast use vstd::std_specs::hash::group_hash_axioms;

        let hash = board.hash_key();
        match self.storage.get(&hash) {
            Some(list) => {
                assert(list@ == self.bucket(board@));
                match find_in_list(list, board) {
                    Some(i) => {
                        let entry = &list[i];
                        if entry.1 >= depth {
                            Some(&entry.2)
                        } else {
                            None
                        }
                    },
                    None => None,
                }
            },
            None => {
                assert(self.bucket(board@) =~= Seq::empty());
                None
            },
        }
    }
}

/// Once a payload is stored for a key at some depth, registering another at
/// the same or a smaller depth changes nothing: every lookup that the first
/// payload answers still returns it.
pub proof fn lemma_shallower_registration_is_ignored<K, P>(
    entries: Map<K, (u32, P)>,
    key: K,
    deep_payload: P,
    deep: u32,
    shallow_payload: P,
    shallow: u32,
    asked: u32,
)
    requires
        shallow <= deep,
        asked <= deep,
        !covers(entries, key, deep),
    ensures
        registered(registered(entries, key, deep_payload, deep), key, shallow_payload, shallow)
            == registered(entries, key, deep_payload, deep),
        lookup(
            registered(registered(entries, key, deep_payload, deep), key, shallow_payload, shallow),
            key,
            asked,
        ) == Some(deep_payload),
{
}

/// Registering a payload at a depth that the stored one does not reach
/// replaces it: every lookup up to the new depth returns the new payload.
pub proof fn lemma_deeper_registration_replaces<K, P>(
    entries: Map<K, (u32, P)>,
    key: K,
    shallow_payload: P,
    shallow: u32,
    deep_payload: P,
    deep: u32,
    asked: u32,
)
    requires
        shallow < deep,
        asked <= deep,
        !covers(entries, key, shallow),
    ensures
        lookup(
            registered(registered(entries, key, shallow_payload, shallow), key, deep_payload, deep),
            key,
            asked,
        ) == Some(deep_payload),
{
}

/// A registration never lowers the depth stored for any key, and afterwards
/// the registered key is covered at the registered depth.
pub proof fn lemma_registration_keeps_the_deepest<K, P>(
    entries: Map<K, (u32, P)>,
    key: K,
    payload: P,
    depth: u32,
    other: K,
)
    ensures
        covers(registered(entries, key, payload, depth), key, depth),
        entries.contains_key(other) ==> registered(entries, key, payload, depth).contains_key(other)
            && registered(entries, key, payload, depth)[other].0 >= entries[other].0,
        other != key && entries.contains_key(other) ==> registered(
            entries,
            key,
            payload,
            depth,
        )[other] == entries[other],
{
}

} // verus!
