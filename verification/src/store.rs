//! The chunk store: sealed chunks kept under named locations. The store
//! lives in memory; the caller moves its contents to and from whatever
//! holds them for good.

use vstd::prelude::*;
use vstd::slice::slice_to_vec;
use vstd::string::StringExecFns;
use crate::error::StoreError;

verus! {

/// One stored chunk: where it is kept, and its bytes.
pub struct StoredChunk {
    pub location: String,
    pub bytes: Vec<u8>,
}

/// Chunks by location. No location is held twice.
pub struct ChunkStore {
    root: String,
    entries: Vec<StoredChunk>,
}

/// What a list of chunks holds, as a map from location to bytes.
spec fn entries_map(entries: Seq<StoredChunk>) -> Map<Seq<char>, Seq<u8>>
    decreases entries.len(),
{
    if entries.len() == 0 {
        Map::empty()
    } else {
        entries_map(entries.drop_last()).insert(entries.last().location@, entries.last().bytes@)
    }
}

/// No two chunks of the list share a location.
spec fn distinct_locations(entries: Seq<StoredChunk>) -> bool {
    forall|i: int, j: int|
        0 <= i < j < entries.len() ==> (#[trigger] entries[i]).location@ != (
        #[trigger] entries[j]).location@
}

/// A location is in the map exactly if some chunk of the list has it.
proof fn lemma_map_keys(entries: Seq<StoredChunk>, key: Seq<char>)
    ensures
        entries_map(entries).contains_key(key) <==> exists|i: int|
            0 <= i < entries.len() && (#[trigger] entries[i]).location@ == key,
    decreases entries.len(),
{
    if entries.len() > 0 {
        let front = entries.drop_last();
        lemma_map_keys(front, key);
        if entries_map(entries).contains_key(key) {
            if entries.last().location@ == key {
                assert(entries[entries.len() - 1].location@ == key);
            } else {
                let i = choose|i: int| 0 <= i < front.len() && (#[trigger] front[i]).location@ == key;
                assert(entries[i].location@ == key);
            }
        }
        if exists|i: int| 0 <= i < entries.len() && (#[trigger] entries[i]).location@ == key {
            let i = choose|i: int| 0 <= i < entries.len() && (#[trigger] entries[i]).location@ == key;
            if i < entries.len() - 1 {
                assert(front[i].location@ == key);
            }
        }
    }
}

/// The map gives, for the location of a chunk of the list, that chunk's bytes.
proof fn lemma_map_lookup(entries: Seq<StoredChunk>, index: int)
    requires
        distinct_locations(entries),
        0 <= index < entries.len(),
    ensures
        entries_map(entries).contains_key(entries[index].location@),
        entries_map(entries)[entries[index].location@] == entries[index].bytes@,
    decreases entries.len(),
{
    let front = entries.drop_last();
    if index < entries.len() - 1 {
        assert(distinct_locations(front)) by {
            assert forall|i: int, j: int| 0 <= i < j < front.len() implies (#[trigger] front[i]).location@
                != (#[trigger] front[j]).location@ by {
                assert(entries[i].location@ != entries[j].location@);
            }
        }
        lemma_map_lookup(front, index);
        assert(front[index] == entries[index]);
        assert(entries[index].location@ != entries[entries.len() - 1].location@);
    }
}

/// Taking a chunk out of the list takes its location out of the map.
proof fn lemma_map_remove(entries: Seq<StoredChunk>, index: int)
    requires
        distinct_locations(entries),
        0 <= index < entries.len(),
    ensures
        distinct_locations(entries.remove(index)),
        entries_map(entries.remove(index)) == entries_map(entries).remove(
            entries[index].location@,
        ),
    decreases entries.len(),
{
    let key = entries[index].location@;
    let front = entries.drop_last();
    let rest = entries.remove(index);
    assert(distinct_locations(rest)) by {
        assert forall|i: int, j: int| 0 <= i < j < rest.len() implies (#[trigger] rest[i]).location@
            != (#[trigger] rest[j]).location@ by {
            let a = if i < index { i } else { i + 1 };
            let b = if j < index { j } else { j + 1 };
            assert(rest[i] == entries[a]);
            assert(rest[j] == entries[b]);
            assert(entries[a].location@ != entries[b].location@);
        }
    }
    assert(distinct_locations(front)) by {
        assert forall|i: int, j: int| 0 <= i < j < front.len() implies (#[trigger] front[i]).location@
            != (#[trigger] front[j]).location@ by {
            assert(entries[i].location@ != entries[j].location@);
        }
    }
    if index == entries.len() - 1 {
        assert(rest =~= front);
        lemma_map_keys(front, key);
        if entries_map(front).contains_key(key) {
            let i = choose|i: int| 0 <= i < front.len() && (#[trigger] front[i]).location@ == key;
            assert(entries[i].location@ != entries[index].location@);
        }
        assert(entries_map(front) =~= entries_map(entries).remove(key));
    } else {
        lemma_map_remove(front, index);
        let last = entries.last();
        assert(rest.drop_last() =~= front.remove(index));
        assert(rest.last() == last);
        assert(entries[index].location@ != entries[entries.len() - 1].location@);
        assert(entries_map(rest) =~= entries_map(entries).remove(key));
    }
}

/// The location that a store with root `root` assigns to a hint: the hint
/// itself under an empty root, else root, a slash and the hint.
pub open spec fn spec_assigned_location(root: Seq<char>, hint: Seq<char>) -> Seq<char> {
    if root.len() == 0 {
        hint
    } else {
        root + seq!['/'] + hint
    }
}

impl View for ChunkStore {
    type V = Map<Seq<char>, Seq<u8>>;

    closed spec fn view(&self) -> Map<Seq<char>, Seq<u8>> {
        entries_map(self.entries@)
    }
}

impl ChunkStore {
    #[verifier::type_invariant]
    spec fn valid(self) -> bool {
        distinct_locations(self.entries@)
    }

    /// The prefix under which this store assigns locations.
    pub closed spec fn root_view(&self) -> Seq<char> {
        self.root@
    }

    /// An empty store that assigns locations under `root`.
    pub fn new(root: &str) -> (store: ChunkStore)
        ensures
            store@ == Map::<Seq<char>, Seq<u8>>::empty(),
            store.root_view() == root@,
    {
        ChunkStore { root: String::from_str(root), entries: Vec::new() }
    }

    /// The prefix under which this store assigns locations.
    pub fn root(&self) -> (root: &str)
        ensures
            root@ == self.root_view(),
    {
        self.root.as_str()
    }

    /// The location that `put` assigns to `hint`.
    pub fn assigned_location(&self, hint: &str) -> (location: String)
        ensures
            location@ == spec_assigned_location(self.root_view(), hint@),
    {
        if self.root.as_str().is_empty() {
            String::from_str(hint)
        } else {
            let mut location = self.root.clone();
            location.append("/");
            location.append(hint);
            proof {
                reveal_strlit("/");
                assert("/"@ =~= seq!['/']);
            }
            location
        }
    }

    /// Where in the list the chunk at `location` stands.
    fn find(&self, location: &String) -> (res: Option<usize>)
        ensures
            res matches Some(index) ==> index < self.entries@.len() && self.entries@[index as int].location@
                == location@,
            res is None ==> !self@.contains_key(location@),
            res is Some ==> self@.contains_key(location@),
    {
        let mut i: usize = 0;
        while i < self.entries.len()
            invariant
                i <= self.entries@.len(),
                forall|j: int| 0 <= j < i ==> (#[trigger] self.entries@[j]).location@ != location@,
            decreases self.entries@.len() - i,
        {
            if self.entries[i].location == *location {
                proof {
                    lemma_map_keys(self.entries@, location@);
                    assert(self.entries@[i as int].location@ == location@);
                }
                return Some(i);
            }
            i = i + 1;
        }
        proof {
            lemma_map_keys(self.entries@, location@);
        }
        None
    }

    /// Whether a chunk is kept at `location`.
    pub fn contains(&self, location: &str) -> (found: bool)
        ensures
            found == self@.contains_key(location@),
    {
        let key = String::from_str(location);
        self.find(&key).is_some()
    }

    /// Keeps `bytes` as a new chunk and returns the location assigned to it.
    /// A location that is taken is not overwritten: the call fails with
    /// `AlreadyExists` and the store stays as it was.
    pub fn put(&mut self, hint: &str, bytes: Vec<u8>) -> (res: Result<String, StoreError>)
        ensures
            final(self).root_view() == old(self).root_view(),
            res is Ok <==> !old(self)@.contains_key(
                spec_assigned_location(old(self).root_view(), hint@),
            ),
            res matches Ok(location) ==> location@ == spec_assigned_location(
                old(self).root_view(),
                hint@,
            ) && final(self)@ == old(self)@.insert(location@, bytes@),
            res matches Err(e) ==> e == StoreError::AlreadyExists && final(self)@ == old(self)@,
    {
        proof {
            use_type_invariant(&*self);
        }
        let location = self.assigned_location(hint);
        match self.find(&location) {
            Some(_) => Err(StoreError::AlreadyExists),
            None => {
                let ghost before = self.entries@;
                let chunk = StoredChunk { location: location.clone(), bytes };
                proof {
                    let after = before.push(chunk);
                    assert(after.drop_last() =~= before);
                    assert(distinct_locations(after)) by {
                        assert forall|i: int, j: int| 0 <= i < j < after.len() implies (
                        #[trigger] after[i]).location@ != (#[trigger] after[j]).location@ by {
                            lemma_map_keys(before, location@);
                            if j == after.len() - 1 {
                                assert(before[i].location@ != location@);
                            } else {
                                assert(before[i].location@ != before[j].location@);
                            }
                        }
                    }
                }
                let mut list: Vec<StoredChunk> = Vec::new();
                core::mem::swap(&mut self.entries, &mut list);
                list.push(chunk);
                self.entries = list;
                Ok(location)
            },
        }
    }

    /// The bytes kept at `location`, or `NotFound`.
    pub fn get(&self, location: &str) -> (res: Result<Vec<u8>, StoreError>)
        ensures
            res is Ok <==> self@.contains_key(location@),
            res matches Ok(bytes) ==> bytes@ == self@[location@],
            res matches Err(e) ==> e == StoreError::NotFound,
    {
        proof {
            use_type_invariant(self);
        }
        let key = String::from_str(location);
        match self.find(&key) {
            None => Err(StoreError::NotFound),
            Some(index) => {
                proof {
                    lemma_map_lookup(self.entries@, index as int);
                }
                Ok(slice_to_vec(self.entries[index].bytes.as_slice()))
            },
        }
    }

    /// Takes the chunk at `location` out of the store and returns its bytes,
    /// or `NotFound`.
    pub fn remove(&mut self, location: &str) -> (res: Result<Vec<u8>, StoreError>)
        ensures
            final(self).root_view() == old(self).root_view(),
            res is Ok <==> old(self)@.contains_key(location@),
            res matches Ok(bytes) ==> bytes@ == old(self)@[location@] && final(self)@ == old(self)@.remove(
                location@,
            ),
            res matches Err(e) ==> e == StoreError::NotFound && final(self)@ == old(self)@,
    {
        proof {
            use_type_invariant(&*self);
        }
        let key = String::from_str(location);
        match self.find(&key) {
            None => Err(StoreError::NotFound),
            Some(index) => {
                proof {
                    lemma_map_lookup(self.entries@, index as int);
                    lemma_map_remove(self.entries@, index as int);
                }
                let mut list: Vec<StoredChunk> = Vec::new();
                core::mem::swap(&mut self.entries, &mut list);
                let chunk = list.remove(index);
                self.entries = list;
                Ok(chunk.bytes)
            },
        }
    }

    /// Places `bytes` at exactly `location`, in place of what was kept there.
    /// This is how chunks that were persisted elsewhere come back into a
    /// store.
    pub fn load(&mut self, location: &str, bytes: Vec<u8>)
        ensures
            final(self).root_view() == old(self).root_view(),
            final(self)@ == old(self)@.insert(location@, bytes@),
    {
        let ghost before = self@;
        let _ = self.remove(location);
        proof {
            use_type_invariant(&*self);
        }
        let ghost list = self.entries@;
        let chunk = StoredChunk { location: String::from_str(location), bytes };
        proof {
            let after = list.push(chunk);
            assert(after.drop_last() =~= list);
            assert(!self@.contains_key(location@));
            assert(distinct_locations(after)) by {
                assert forall|i: int, j: int| 0 <= i < j < after.len() implies (
                #[trigger] after[i]).location@ != (#[trigger] after[j]).location@ by {
                    lemma_map_keys(list, location@);
                    if j == after.len() - 1 {
                        assert(list[i].location@ != location@);
                    } else {
                        assert(list[i].location@ != list[j].location@);
                    }
                }
            }
            assert(before.remove(location@).insert(location@, bytes@) =~= before.insert(
                location@,
                bytes@,
            ));
        }
        let mut list: Vec<StoredChunk> = Vec::new();
        core::mem::swap(&mut self.entries, &mut list);
        list.push(chunk);
        self.entries = list;
    }

    /// Every location at which the store keeps a chunk.
    pub fn locations(&self) -> (list: Vec<String>)
        ensures
            forall|key: Seq<char>|
                self@.contains_key(key) <==> exists|i: int|
                    0 <= i < list@.len() && (#[trigger] list@[i])@ == key,
    {
        let mut list: Vec<String> = Vec::new();
        let mut i: usize = 0;
        while i < self.entries.len()
            invariant
                i <= self.entries@.len(),
                list@.len() == i,
                forall|j: int| 0 <= j < i ==> (#[trigger] list@[j])@ == self.entries@[j].location@,
            decreases self.entries@.len() - i,
        {
            list.push(self.entries[i].location.clone());
            i = i + 1;
        }
        proof {
            assert forall|key: Seq<char>|
                self@.contains_key(key) <==> exists|i: int|
                    0 <= i < list@.len() && (#[trigger] list@[i])@ == key by {
                lemma_map_keys(self.entries@, key);
                if self@.contains_key(key) {
                    let i = choose|i: int|
                        0 <= i < self.entries@.len() && (#[trigger] self.entries@[i]).location@ == key;
                    assert(list@[i]@ == key);
                }
                if exists|i: int| 0 <= i < list@.len() && (#[trigger] list@[i])@ == key {
                    let i = choose|i: int| 0 <= i < list@.len() && (#[trigger] list@[i])@ == key;
                    assert(self.entries@[i].location@ == key);
                }
            }
        }
        list
    }
}

} // verus!
