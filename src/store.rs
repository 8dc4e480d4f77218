//! Durable ordered collections: stable B-tree maps, each in its own partition
//! of one durable memory region, so that they survive restarts. Each map is
//! held in a private field of a struct; what the map holds is named by a spec
//! function, and every operation states its effect over that name.
use ic_stable_structures::memory_manager::{MemoryId, MemoryManager, VirtualMemory};
use ic_stable_structures::{DefaultMemoryImpl, StableBTreeMap};
use vstd::prelude::*;

verus! {

/// Partition numbers of the durable memory region.
pub const DOCUMENTS_PARTITION: u8 = 1;

pub const LOANS_PARTITION: u8 = 2;

pub const ACID_VALIDATIONS_PARTITION: u8 = 3;

pub const BALANCES_PARTITION: u8 = 4;

pub const MAPPINGS_PARTITION: u8 = 5;

pub const VERIFICATIONS_PARTITION: u8 = 6;

pub const COUNTERS_PARTITION: u8 = 7;

/// The durable memory region, split into numbered partitions.
#[verifier::external_body]
pub(crate) struct MemoryRegion {
    manager: MemoryManager<DefaultMemoryImpl>,
}

/// A map from text keys to encoded records.
#[verifier::external_body]
pub struct RecordMap {
    map: StableBTreeMap<String, Vec<u8>, VirtualMemory<DefaultMemoryImpl>>,
}

/// A map from identity bytes to token balances.
#[verifier::external_body]
pub struct BalanceMap {
    map: StableBTreeMap<Vec<u8>, u64, VirtualMemory<DefaultMemoryImpl>>,
}

/// A map from counter names to their last value.
#[verifier::external_body]
pub struct CounterMap {
    map: StableBTreeMap<String, u64, VirtualMemory<DefaultMemoryImpl>>,
}

/// What a record map holds.
pub uninterp spec fn record_entries(m: RecordMap) -> Map<Seq<char>, Seq<u8>>;

/// What a balance map holds.
pub uninterp spec fn balance_entries(m: BalanceMap) -> Map<Seq<u8>, u64>;

/// What a counter map holds.
pub uninterp spec fn counter_entries(m: CounterMap) -> Map<Seq<char>, u64>;

impl View for RecordMap {
    type V = Map<Seq<char>, Seq<u8>>;

    open spec fn view(&self) -> Map<Seq<char>, Seq<u8>> {
        record_entries(*self)
    }
}

impl View for BalanceMap {
    type V = Map<Seq<u8>, u64>;

    open spec fn view(&self) -> Map<Seq<u8>, u64> {
        balance_entries(*self)
    }
}

impl View for CounterMap {
    type V = Map<Seq<char>, u64>;

    open spec fn view(&self) -> Map<Seq<char>, u64> {
        counter_entries(*self)
    }
}

impl MemoryRegion {
    /// Relies on `MemoryManager::init`: it lays the partitions over the
    /// default durable memory, keeping what an earlier run stored there.
    #[verifier::external_body]
    pub(crate) fn init() -> MemoryRegion {
        MemoryRegion { manager: MemoryManager::init(DefaultMemoryImpl::default()) }
    }

    /// Relies on `StableBTreeMap::init` over `MemoryManager::get`: the map
    /// stored in the partition; `MemoryId::new` refuses the number 255.
    #[verifier::external_body]
    pub(crate) fn open_records(&self, partition: u8) -> RecordMap
        requires
            partition < 255,
    {
        RecordMap { map: StableBTreeMap::init(self.manager.get(MemoryId::new(partition))) }
    }

    /// Relies on `StableBTreeMap::init` over `MemoryManager::get`, as above.
    #[verifier::external_body]
    pub(crate) fn open_balances(&self, partition: u8) -> BalanceMap
        requires
            partition < 255,
    {
        BalanceMap { map: StableBTreeMap::init(self.manager.get(MemoryId::new(partition))) }
    }

    /// Relies on `StableBTreeMap::init` over `MemoryManager::get`, as above.
    #[verifier::external_body]
    pub(crate) fn open_counters(&self, partition: u8) -> CounterMap
        requires
            partition < 255,
    {
        CounterMap { map: StableBTreeMap::init(self.manager.get(MemoryId::new(partition))) }
    }
}

impl RecordMap {
    /// Relies on `StableBTreeMap::get`: the value stored under the key.
    #[verifier::external_body]
    pub fn get(&self, key: &String) -> (r: Option<Vec<u8>>)
        ensures
            r is Some <==> record_entries(*self).contains_key(key@),
            r matches Some(v) ==> v@ == record_entries(*self)[key@],
    {
        self.map.get(key)
    }

    /// Relies on `StableBTreeMap::contains_key`.
    #[verifier::external_body]
    pub fn contains_key(&self, key: &String) -> (r: bool)
        ensures
            r == record_entries(*self).contains_key(key@),
    {
        self.map.contains_key(key)
    }

    /// Relies on `StableBTreeMap::insert`: the key now maps to the value,
    /// and the value it had before is returned.
    #[verifier::external_body]
    pub fn insert(&mut self, key: String, value: Vec<u8>) -> (r: Option<Vec<u8>>)
        ensures
            record_entries(*final(self)) == record_entries(*old(self)).insert(key@, value@),
            r is Some <==> record_entries(*old(self)).contains_key(key@),
            r matches Some(v) ==> v@ == record_entries(*old(self))[key@],
    {
        self.map.insert(key, value)
    }

    /// Relies on `StableBTreeMap::keys`: every key of the map, each once.
    #[verifier::external_body]
    pub fn keys(&self) -> (r: Vec<String>)
        ensures
            forall|i: int| 0 <= i < r@.len() ==> record_entries(*self).contains_key(#[trigger] r@[i]@),
            forall|k: Seq<char>|
                record_entries(*self).contains_key(k) ==> exists|i: int| 0 <= i < r@.len() && #[trigger] r@[i]@ == k,
            forall|i: int, j: int| 0 <= i < j < r@.len() ==> r@[i]@ != r@[j]@,
    {
        self.map.keys().collect()
    }
}

impl BalanceMap {
    /// Relies on `StableBTreeMap::get`: the balance stored for the identity.
    #[verifier::external_body]
    pub fn get(&self, key: &Vec<u8>) -> (r: Option<u64>)
        ensures
            r is Some <==> balance_entries(*self).contains_key(key@),
            r matches Some(v) ==> v == balance_entries(*self)[key@],
    {
        self.map.get(key)
    }

    /// Relies on `StableBTreeMap::insert`: the identity now has the balance.
    #[verifier::external_body]
    pub fn insert(&mut self, key: Vec<u8>, value: u64)
        ensures
            balance_entries(*final(self)) == balance_entries(*old(self)).insert(key@, value),
    {
        self.map.insert(key, value);
    }
}

impl CounterMap {
    /// Relies on `StableBTreeMap::get`: the value stored for the counter.
    #[verifier::external_body]
    pub fn get(&self, key: &String) -> (r: Option<u64>)
        ensures
            r is Some <==> counter_entries(*self).contains_key(key@),
            r matches Some(v) ==> v == counter_entries(*self)[key@],
    {
        self.map.get(key)
    }

    /// Relies on `StableBTreeMap::insert`: the counter now has the value.
    #[verifier::external_body]
    pub fn insert(&mut self, key: String, value: u64)
        ensures
            counter_entries(*final(self)) == counter_entries(*old(self)).insert(key@, value),
    {
        self.map.insert(key, value);
    }
}

} // verus!
