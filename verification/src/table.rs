//! The two bounded tables that the hooks share: the service registry and
//! the translation table.
//!
//! Each holds at most [`CAPACITY`] entries. A table that is full refuses a
//! new key and stays as it was; it never evicts. A key that is already
//! there gets its new value also in a full table.

use vstd::prelude::*;
use crate::assoc::{
    distinct_keys, has_key, lemma_to_map_keys, lemma_to_map_len, lemma_to_map_push,
    lemma_to_map_update, lemma_to_map_value, to_map,
};
use crate::error::MapError;
use crate::types::{DnsQuery, DnsRecordA, NatKey, NatOrigin, Question};

verus! {

/// The most entries that a table holds.
pub const CAPACITY: usize = 1024;

/// What putting `value` under `key` makes of a table that holds `m`: the
/// map with the pair in it, unless the key is new and the table is full.
pub open spec fn inserted<K, V>(m: Map<K, V>, key: K, value: V) -> Map<K, V> {
    if m.contains_key(key) || m.dom().len() < CAPACITY {
        m.insert(key, value)
    } else {
        m
    }
}

/// An entry of the translation table.
#[derive(Debug)]
struct NatEntry {
    key: NatKey,
    origin: NatOrigin,
}

/// The translation table: from one direction of a flow to the endpoint
/// that its packets are rewritten to.
#[derive(Debug)]
pub struct NatTable {
    entries: Vec<NatEntry>,
}

impl View for NatTable {
    type V = Map<NatKey, NatOrigin>;

    closed spec fn view(&self) -> Map<NatKey, NatOrigin> {
        to_map(self.pairs())
    }
}

impl NatTable {
    /// The entries as pairs, in the order in which they were put in.
    pub closed spec fn pairs(&self) -> Seq<(NatKey, NatOrigin)> {
        Seq::new(self.entries@.len(), |i: int| (self.entries@[i].key, self.entries@[i].origin))
    }

    /// Whether the table is in order: no more entries than it may hold, and
    /// no key twice.
    pub closed spec fn wf(&self) -> bool {
        &&& self.entries@.len() <= CAPACITY
        &&& distinct_keys(self.pairs())
    }

    /// A well-formed table holds a finite map of at most [`CAPACITY`]
    /// entries.
    pub proof fn lemma_bounded(&self)
        requires
            self.wf(),
        ensures
            self@.dom().finite(),
            self@.dom().len() <= CAPACITY,
    {
        lemma_to_map_len(self.pairs());
    }

    /// An empty table.
    pub fn new() -> (table: NatTable)
        ensures
            table.wf(),
            table@ == Map::<NatKey, NatOrigin>::empty(),
    {
        let table = NatTable { entries: Vec::new() };
        assert(table.pairs() =~= Seq::empty());
        table
    }

    /// How many entries the table holds.
    pub fn len(&self) -> (n: usize)
        requires
            self.wf(),
        ensures
            n == self@.dom().len(),
            n <= CAPACITY,
    {
        proof {
            lemma_to_map_len(self.pairs());
        }
        self.entries.len()
    }

    /// Where the entry with `key` stands, if there is one.
    fn position(&self, key: &NatKey) -> (at: Option<usize>)
        ensures
            match at {
                Some(i) => i < self.entries@.len() && self.pairs()[i as int].0 == *key,
                None => !has_key(self.pairs(), *key),
            },
    {
        let mut i: usize = 0;
        while i < self.entries.len()
            invariant
                i <= self.entries@.len(),
                forall|j: int| 0 <= j < i ==> (#[trigger] self.pairs()[j]).0 != *key,
            decreases self.entries@.len() - i,
        {
            if self.entries[i].key == *key {
                return Some(i);
            }
            i = i + 1;
        }
        None
    }

    /// The endpoint stored under `key`, if there is one.
    pub fn get(&self, key: &NatKey) -> (found: Option<NatOrigin>)
        requires
            self.wf(),
        ensures
            found == (if self@.contains_key(*key) {
                Some(self@[*key])
            } else {
                None
            }),
    {
        proof {
            lemma_to_map_keys(self.pairs(), *key);
        }
        match self.position(key) {
            Some(i) => {
                proof {
                    lemma_to_map_value(self.pairs(), i as int);
                }
                Some(self.entries[i].origin)
            },
            None => None,
        }
    }

    /// Store `origin` under `key`. A full table refuses a key that it does
    /// not hold, and stays as it was.
    pub fn insert(&mut self, key: NatKey, origin: NatOrigin) -> (r: Result<(), MapError>)
        requires
            old(self).wf(),
        ensures
            final(self).wf(),
            final(self)@ == inserted(old(self)@, key, origin),
            r == (if old(self)@.contains_key(key) || old(self)@.dom().len() < CAPACITY {
                Ok::<(), MapError>(())
            } else {
                Err::<(), MapError>(MapError::Full)
            }),
    {
        proof {
            lemma_to_map_keys(self.pairs(), key);
            lemma_to_map_len(self.pairs());
        }
        let ghost before = self.pairs();
        match self.position(&key) {
            Some(i) => {
                self.entries.set(i, NatEntry { key, origin });
                proof {
                    lemma_to_map_update(before, i as int, origin);
                    assert(self.pairs() =~= before.update(i as int, (before[i as int].0, origin)));
                }
                Ok(())
            },
            None => {
                if self.entries.len() >= CAPACITY {
                    return Err(MapError::Full);
                }
                self.entries.push(NatEntry { key, origin });
                proof {
                    lemma_to_map_push(before, key, origin);
                    assert(self.pairs() =~= before.push((key, origin)));
                    assert forall|a: int, b: int| 0 <= a < b < self.pairs().len() implies self.pairs()[a].0
                        != self.pairs()[b].0 by {
                        if b < before.len() {
                            assert(before[a].0 != before[b].0);
                        } else {
                            assert(before[a].0 != key);
                        }
                    }
                }
                Ok(())
            },
        }
    }
}

/// An entry of the service registry.
#[derive(Debug)]
struct RegistryEntry {
    query: DnsQuery,
    record: DnsRecordA,
}

/// The service registry: from a DNS question to the address that answers
/// it. The hooks only read it.
#[derive(Debug)]
pub struct ServiceRegistry {
    entries: Vec<RegistryEntry>,
}

impl View for ServiceRegistry {
    type V = Map<Question, DnsRecordA>;

    closed spec fn view(&self) -> Map<Question, DnsRecordA> {
        to_map(self.pairs())
    }
}

impl ServiceRegistry {
    /// The entries as pairs, in the order in which they were put in.
    pub closed spec fn pairs(&self) -> Seq<(Question, DnsRecordA)> {
        Seq::new(self.entries@.len(), |i: int| (self.entries@[i].query@, self.entries@[i].record))
    }

    /// Whether the registry is in order: no more entries than it may hold,
    /// and no question twice.
    pub closed spec fn wf(&self) -> bool {
        &&& self.entries@.len() <= CAPACITY
        &&& distinct_keys(self.pairs())
    }

    /// A well-formed registry holds a finite map of at most [`CAPACITY`]
    /// entries.
    pub proof fn lemma_bounded(&self)
        requires
            self.wf(),
        ensures
            self@.dom().finite(),
            self@.dom().len() <= CAPACITY,
    {
        lemma_to_map_len(self.pairs());
    }

    /// An empty registry.
    pub fn new() -> (registry: ServiceRegistry)
        ensures
            registry.wf(),
            registry@ == Map::<Question, DnsRecordA>::empty(),
    {
        let registry = ServiceRegistry { entries: Vec::new() };
        assert(registry.pairs() =~= Seq::empty());
        registry
    }

    /// How many entries the registry holds.
    pub fn len(&self) -> (n: usize)
        requires
            self.wf(),
        ensures
            n == self@.dom().len(),
            n <= CAPACITY,
    {
        proof {
            lemma_to_map_len(self.pairs());
        }
        self.entries.len()
    }

    /// Where the entry with `query` stands, if there is one.
    fn position(&self, query: &DnsQuery) -> (at: Option<usize>)
        ensures
            match at {
                Some(i) => i < self.entries@.len() && self.pairs()[i as int].0 == query@,
                None => !has_key(self.pairs(), query@),
            },
    {
        let mut i: usize = 0;
        while i < self.entries.len()
            invariant
                i <= self.entries@.len(),
                forall|j: int| 0 <= j < i ==> (#[trigger] self.pairs()[j]).0 != query@,
            decreases self.entries@.len() - i,
        {
            if self.entries[i].query.same(query) {
                return Some(i);
            }
            i = i + 1;
        }
        None
    }

    /// The record stored for `query`, if there is one.
    pub fn get(&self, query: &DnsQuery) -> (found: Option<DnsRecordA>)
        requires
            self.wf(),
        ensures
            found == (if self@.contains_key(query@) {
                Some(self@[query@])
            } else {
                None
            }),
    {
        proof {
            lemma_to_map_keys(self.pairs(), query@);
        }
        match self.position(query) {
            Some(i) => {
                proof {
                    lemma_to_map_value(self.pairs(), i as int);
                }
                Some(self.entries[i].record)
            },
            None => None,
        }
    }

    /// Store `record` for `query`. A full registry refuses a question that
    /// it does not hold, and stays as it was.
    pub fn insert(&mut self, query: DnsQuery, record: DnsRecordA) -> (r: Result<(), MapError>)
        requires
            old(self).wf(),
        ensures
            final(self).wf(),
            final(self)@ == inserted(old(self)@, query@, record),
            r == (if old(self)@.contains_key(query@) || old(self)@.dom().len() < CAPACITY {
                Ok::<(), MapError>(())
            } else {
                Err::<(), MapError>(MapError::Full)
            }),
    {
        proof {
            lemma_to_map_keys(self.pairs(), query@);
            lemma_to_map_len(self.pairs());
        }
        let ghost before = self.pairs();
        let ghost key = query@;
        match self.position(&query) {
            Some(i) => {
                self.entries.set(i, RegistryEntry { query, record });
                proof {
                    lemma_to_map_update(before, i as int, record);
                    assert(self.pairs() =~= before.update(i as int, (before[i as int].0, record)));
                }
                Ok(())
            },
            None => {
                if self.entries.len() >= CAPACITY {
                    return Err(MapError::Full);
                }
                self.entries.push(RegistryEntry { query, record });
                proof {
                    lemma_to_map_push(before, key, record);
                    assert(self.pairs() =~= before.push((key, record)));
                    assert forall|a: int, b: int| 0 <= a < b < self.pairs().len() implies self.pairs()[a].0
                        != self.pairs()[b].0 by {
                        if b < before.len() {
                            assert(before[a].0 != before[b].0);
                        } else {
                            assert(before[a].0 != key);
                        }
                    }
                }
                Ok(())
            },
        }
    }
}

} // verus!
