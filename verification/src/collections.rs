//! The collection-management and index-status use cases.
use vstd::prelude::*;
use crate::collection::CollectionName;
use crate::errors::{
    CreateCollectionError, DestroyCollectionError, IndexStatusError, ListCollectionsError,
};
use crate::order::str_lt;
use crate::ports::{collection_names, holds_key, Clock, CollectionStore, IndexStatus, LexicalIndexStore};
use crate::sorted::views;

verus! {

/// Orchestrates creation of one empty collection.
pub struct CreateCollection<S, C> {
    store: S,
    clock: C,
}

impl<S: CollectionStore, C: Clock> CreateCollection<S, C> {
    /// The store port.
    pub closed spec fn store_port(&self) -> S {
        self.store
    }

    /// The clock port.
    pub closed spec fn clock_port(&self) -> C {
        self.clock
    }

    /// Creates a collection use case with its persistence and clock ports.
    pub fn new(store: S, clock: C) -> (u: CreateCollection<S, C>)
        ensures
            u.store_port() == store,
            u.clock_port() == clock,
    {
        CreateCollection { store, clock }
    }

    /// Persists the supplied validated collection name, stamped with the
    /// clock's current time, and gives the name back; fails with the clock's
    /// error before the store is touched, or else with the store's.
    pub fn execute(&mut self, name: CollectionName) -> (r: Result<
        CollectionName,
        CreateCollectionError,
    >)
        ensures
            r matches Ok(n) ==> n@ == name@ && exists|t: u64|
                #[trigger] final(self).store_port().collections().contains((name@, t)),
            r matches Err(CreateCollectionError::Clock(_)) ==> final(self).store_port() == old(
                self,
            ).store_port(),
            r matches Err(CreateCollectionError::Store(e)) ==> exists|t: u64|
                #[trigger] old(self).store_port().create_answer(name@, t) == Err::<
                    (),
                    crate::errors::CollectionStoreError,
                >(e),
            r is Ok ==> exists|t: u64| #[trigger] old(self).store_port().create_answer(name@, t) is Ok,
            final(self).clock_port() == old(self).clock_port(),
    {
        let created_at = match self.clock.now() {
            Ok(t) => t,
            Err(e) => return Err(CreateCollectionError::Clock(e)),
        };
        let ghost before = self.store;
        let created = self.store.create_collection(&name, created_at);
        assert(before.create_answer(name@, created_at@) == created);
        assert(old(self).store_port() == before);
        assert(old(self).store_port().create_answer(name@, created_at@) == created);
        match created {
            Ok(()) => {
                proof {
                    let cs = self.store.collections();
                    let i = choose|i: int| 0 <= i < cs.len() && #[trigger] cs[i] == (name@, created_at@);
                    assert(cs.contains((name@, created_at@)));
                    assert(self.store_port().collections().contains((name@, created_at@)));
                    assert(old(self).store_port().create_answer(name@, created_at@) is Ok);
                }
                Ok(name)
            },
            Err(e) => Err(CreateCollectionError::Store(e)),
        }
    }

    /// Returns the underlying store for composition and integration testing.
    pub fn store(&self) -> (s: &S)
        ensures
            *s == self.store_port(),
    {
        &self.store
    }
}

/// Orchestrates listing all collections in the selected database.
pub struct ListCollections<S> {
    store: S,
}

impl<S: CollectionStore> ListCollections<S> {
    /// The store port.
    pub closed spec fn store_port(&self) -> S {
        self.store
    }

    /// Creates a list-collections use case with its persistence port.
    pub fn new(store: S) -> (u: ListCollections<S>)
        ensures
            u.store_port() == store,
    {
        ListCollections { store }
    }

    /// Returns all collections in case-insensitive alphabetical order, as the
    /// store lists them; a store failure is passed on.
    pub fn execute(&self) -> (r: Result<Vec<CollectionName>, ListCollectionsError>)
        ensures
            r matches Ok(v) ==> views(v@) == collection_names(self.store_port().collections())
                && forall|i: int, j: int|
                0 <= i < j < v@.len() ==> str_lt((#[trigger] v@[i])@.1, (#[trigger] v@[j])@.1),
            match self.store_port().list_answer() {
                Ok(names) => r matches Ok(v) && views(v@) == names,
                Err(e) => r == Err::<Vec<CollectionName>, ListCollectionsError>(
                    ListCollectionsError::Store(e),
                ),
            },
    {
        match self.store.list_collections() {
            Ok(names) => Ok(names),
            Err(e) => Err(ListCollectionsError::Store(e)),
        }
    }
}

/// Orchestrates destruction of one named collection.
pub struct DestroyCollection<S> {
    store: S,
}

impl<S: CollectionStore> DestroyCollection<S> {
    /// The store port.
    pub closed spec fn store_port(&self) -> S {
        self.store
    }

    /// Creates a destroy-collection use case with its persistence port.
    pub fn new(store: S) -> (u: DestroyCollection<S>)
        ensures
            u.store_port() == store,
    {
        DestroyCollection { store }
    }

    /// Destroys the collection matching the supplied name, returning the
    /// spelling the store retained; a store failure is passed on.
    pub fn execute(&mut self, name: &CollectionName) -> (r: Result<
        CollectionName,
        DestroyCollectionError,
    >)
        ensures
            r matches Ok(n) ==> n@.1 == name@.1 && collection_names(
                old(self).store_port().collections(),
            ).contains(n@) && !holds_key(final(self).store_port().collections(), name@.1),
            match old(self).store_port().destroy_answer(name@) {
                Ok(n) => r matches Ok(m) && m@ == n,
                Err(e) => r == Err::<CollectionName, DestroyCollectionError>(
                    DestroyCollectionError::Store(e),
                ),
            },
            !holds_key(old(self).store_port().collections(), name@.1) ==> r == Err::<
                CollectionName,
                DestroyCollectionError,
            >(DestroyCollectionError::Store(crate::errors::CollectionStoreError::CollectionNotFound)),
    {
        match self.store.destroy_collection(name) {
            Ok(n) => Ok(n),
            Err(e) => Err(DestroyCollectionError::Store(e)),
        }
    }
}

/// Reads the lexical index status of every collection.
pub struct ReadIndexStatus<S> {
    store: S,
}

impl<S: LexicalIndexStore> ReadIndexStatus<S> {
    /// The store port.
    pub closed spec fn store_port(&self) -> S {
        self.store
    }

    /// Creates an index-status use case with its store port.
    pub fn new(store: S) -> (u: ReadIndexStatus<S>)
        ensures
            u.store_port() == store,
    {
        ReadIndexStatus { store }
    }

    /// Returns the lexical index status of every collection, as the store
    /// reports it; a store failure is passed on.
    pub fn execute(&self) -> (r: Result<Vec<IndexStatus>, IndexStatusError>)
        ensures
            match self.store_port().status_failure() {
                None => r matches Ok(v) && views(v@) == self.store_port().statuses(),
                Some(e) => r == Err::<Vec<IndexStatus>, IndexStatusError>(IndexStatusError::Store(e)),
            },
    {
        match self.store.status() {
            Ok(v) => Ok(v),
            Err(e) => Err(IndexStatusError::Store(e)),
        }
    }
}

} // verus!
