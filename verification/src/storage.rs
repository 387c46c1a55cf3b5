//! Where artifacts are kept.
//!
//! [`BackupStorage`] is what a backup or restore run needs of a backend.
//! [`MemoryStorage`] is the backend that keeps everything in memory; what
//! its operations do is stated over the map from identifier to content
//! that it stands for, and it says what it holds.

use crate::error::BackupError;
use crate::record::{copy_bytes, same_bytes};
use vstd::prelude::*;

verus! {

/// A place that keeps byte blobs under identifiers: a directory, an object
/// store, or memory. A backend is added by implementing these four
/// operations.
///
/// A backend may say what it holds: `contents`, the blob behind each
/// handle. Of a backend that does, a write that succeeds adds one blob
/// under a handle that was free, a write that fails adds none, and a read
/// that succeeds gives the blob behind the handle. No operation is owed
/// success. A backend that says nothing of what it holds, as one outside
/// this crate does, owes nothing, and nothing is believed of it.
pub trait BackupStorage {
    /// Whether `contents` says what this storage holds. It does not unless
    /// the storage says so.
    open spec fn keeps_contents(&self) -> bool {
        false
    }

    /// The blob behind each handle, where the storage says what it holds.
    open spec fn contents(&self) -> Map<Seq<u8>, Seq<u8>> {
        Map::empty()
    }

    /// Creates the artifact `identifier`, writes `content` to it and closes
    /// it. The handle comes back only when all of it went well. Writing to
    /// an identifier that is taken fails.
    fn create_for_write(&mut self, identifier: &Vec<u8>, content: &Vec<u8>) -> (r: Result<
        Vec<u8>,
        BackupError,
    >)
        ensures
            old(self).keeps_contents() ==> final(self).keeps_contents(),
            old(self).keeps_contents() ==> match r {
                Ok(handle) => {
                    &&& !old(self).contents().contains_key(handle@)
                    &&& final(self).contents() == old(self).contents().insert(handle@, content@)
                },
                Err(_) => final(self).contents() == old(self).contents(),
            },
    ;

    /// The whole content of the artifact behind `handle`.
    fn open_for_read(&self, handle: &Vec<u8>) -> (r: Result<Vec<u8>, BackupError>)
        ensures
            self.keeps_contents() ==> match r {
                Ok(content) => self.contents().contains_key(handle@) && self.contents()[handle@]
                    == content@,
                Err(_) => true,
            },
    ;

    /// Whether `identifier` is taken.
    fn contains(&self, identifier: &Vec<u8>) -> Result<bool, BackupError>;

    /// The identifiers that start with `prefix`.
    fn list(&self, prefix: &Vec<u8>) -> Result<Vec<Vec<u8>>, BackupError>;
}

/// What a storage holds, if it says what it holds.
pub open spec fn storage_contents<S: BackupStorage>(storage: &S) -> Option<Map<Seq<u8>, Seq<u8>>> {
    if storage.keeps_contents() {
        Some(storage.contents())
    } else {
        None
    }
}

/// What a storage held before a run and holds after it, if it says what it
/// holds.
pub open spec fn storage_record<S: BackupStorage>(before: &S, after: &S) -> Option<
    (Map<Seq<u8>, Seq<u8>>, Map<Seq<u8>, Seq<u8>>),
> {
    if before.keeps_contents() {
        Some((before.contents(), after.contents()))
    } else {
        None
    }
}

/// What a storage that refuses taken identifiers answers to a write, and
/// what it holds afterwards: the identifier as the handle and the content
/// under it, or a storage error and no change.
pub open spec fn write_outcome(
    store: Map<Seq<u8>, Seq<u8>>,
    identifier: Seq<u8>,
    content: Seq<u8>,
) -> (Result<Seq<u8>, BackupError>, Map<Seq<u8>, Seq<u8>>) {
    if store.contains_key(identifier) {
        (Err(BackupError::StorageError), store)
    } else {
        (Ok(identifier), store.insert(identifier, content))
    }
}

/// What a storage answers to a read: the content behind the handle, or a
/// storage error where there is none.
pub open spec fn read_outcome(store: Map<Seq<u8>, Seq<u8>>, handle: Seq<u8>) -> Result<
    Seq<u8>,
    BackupError,
> {
    if store.contains_key(handle) {
        Ok(store[handle])
    } else {
        Err(BackupError::StorageError)
    }
}

/// One stored blob and its identifier.
#[derive(Clone, Debug, PartialEq, Eq)]
pub struct Artifact {
    pub identifier: Vec<u8>,
    pub content: Vec<u8>,
}

/// The identifiers of the artifacts, in the same order.
pub open spec fn identifiers_of(artifacts: Seq<Artifact>) -> Seq<Seq<u8>> {
    Seq::new(artifacts.len(), |i: int| artifacts[i].identifier@)
}

/// The map from identifier to content that the artifacts stand for: each
/// artifact in turn is put under its identifier.
pub open spec fn contents_of(artifacts: Seq<Artifact>) -> Map<Seq<u8>, Seq<u8>>
    decreases artifacts.len(),
{
    if artifacts.len() == 0 {
        Map::empty()
    } else {
        contents_of(artifacts.drop_last()).insert(
            artifacts.last().identifier@,
            artifacts.last().content@,
        )
    }
}

/// Whether `name` starts with `prefix`.
pub open spec fn has_prefix(name: Seq<u8>, prefix: Seq<u8>) -> bool {
    prefix.len() <= name.len() && name.subrange(0, prefix.len() as int) == prefix
}

/// The names that start with `prefix`, in the order in which they stand.
pub open spec fn with_prefix(names: Seq<Seq<u8>>, prefix: Seq<u8>) -> Seq<Seq<u8>>
    decreases names.len(),
{
    if names.len() == 0 {
        Seq::empty()
    } else if has_prefix(names.last(), prefix) {
        with_prefix(names.drop_last(), prefix).push(names.last())
    } else {
        with_prefix(names.drop_last(), prefix)
    }
}

/// The views of the byte strings, in the same order.
pub open spec fn byte_strings(v: Seq<Vec<u8>>) -> Seq<Seq<u8>> {
    Seq::new(v.len(), |i: int| v[i]@)
}

/// Artifacts behind the first `k` that are not kept under `name` do not
/// change what is kept under `name`.
pub proof fn lemma_contents_of_tail(artifacts: Seq<Artifact>, k: int, name: Seq<u8>)
    requires
        0 <= k <= artifacts.len(),
        forall|j: int| k <= j < artifacts.len() ==> (#[trigger] artifacts[j]).identifier@ != name,
    ensures
        contents_of(artifacts).contains_key(name) == contents_of(
            artifacts.subrange(0, k),
        ).contains_key(name),
        contents_of(artifacts).contains_key(name) ==> contents_of(artifacts)[name] == contents_of(
            artifacts.subrange(0, k),
        )[name],
    decreases artifacts.len() - k,
{
    if k == artifacts.len() {
        assert(artifacts.subrange(0, k) =~= artifacts);
    } else {
        let init = artifacts.drop_last();
        assert(artifacts.last().identifier@ != name);
        assert forall|j: int| k <= j < init.len() implies (#[trigger] init[j]).identifier@
            != name by {
            assert(init[j] == artifacts[j]);
        }
        lemma_contents_of_tail(init, k, name);
        assert(init.subrange(0, k) =~= artifacts.subrange(0, k));
    }
}

/// Whether `name` starts with `prefix`.
pub fn starts_with(name: &Vec<u8>, prefix: &Vec<u8>) -> (r: bool)
    ensures
        r == has_prefix(name@, prefix@),
{
    if prefix.len() > name.len() {
        return false;
    }
    let mut i: usize = 0;
    while i < prefix.len()
        invariant
            i <= prefix.len(),
            prefix.len() <= name.len(),
            forall|j: int| 0 <= j < i ==> name@[j] == prefix@[j],
        decreases prefix.len() - i,
    {
        if name[i] != prefix[i] {
            assert(name@.subrange(0, prefix.len() as int)[i as int] != prefix@[i as int]);
            return false;
        }
        i += 1;
    }
    assert(name@.subrange(0, prefix.len() as int) =~= prefix@);
    true
}

/// A storage that keeps its artifacts in memory, in the order in which they
/// were written. Every identifier is written at most once.
#[derive(Clone, Debug, PartialEq, Eq)]
pub struct MemoryStorage {
    artifacts: Vec<Artifact>,
}

impl View for MemoryStorage {
    type V = Map<Seq<u8>, Seq<u8>>;

    /// The content kept under each identifier.
    closed spec fn view(&self) -> Map<Seq<u8>, Seq<u8>> {
        contents_of(self.artifacts@)
    }
}

impl MemoryStorage {
    /// The identifiers in the order in which they were written.
    pub closed spec fn identifiers(&self) -> Seq<Seq<u8>> {
        identifiers_of(self.artifacts@)
    }

    /// A storage that holds nothing.
    pub fn new() -> (s: MemoryStorage)
        ensures
            s@ == Map::<Seq<u8>, Seq<u8>>::empty(),
            s.identifiers() == Seq::<Seq<u8>>::empty(),
    {
        let s = MemoryStorage { artifacts: Vec::new() };
        assert(s.identifiers() =~= Seq::<Seq<u8>>::empty());
        s
    }

    /// The number of artifacts.
    pub fn len(&self) -> (n: usize)
        ensures
            n == self.identifiers().len(),
    {
        self.artifacts.len()
    }

    /// The place of the artifact kept under `identifier`, if there is one.
    fn find(&self, identifier: &Vec<u8>) -> (r: Option<usize>)
        ensures
            match r {
                Some(i) => i < self.artifacts@.len() && self@.contains_key(identifier@)
                    && self@[identifier@] == self.artifacts@[i as int].content@,
                None => !self@.contains_key(identifier@),
            },
    {
        let mut i: usize = self.artifacts.len();
        while i > 0
            invariant
                i <= self.artifacts.len(),
                forall|j: int|
                    i <= j < self.artifacts@.len() ==> (#[trigger] self.artifacts@[j]).identifier@
                        != identifier@,
            decreases i,
        {
            i -= 1;
            if same_bytes(&self.artifacts[i].identifier, identifier) {
                proof {
                    lemma_contents_of_tail(self.artifacts@, i + 1, identifier@);
                    assert(self.artifacts@.subrange(0, i + 1).last() == self.artifacts@[i as int]);
                }
                return Some(i);
            }
        }
        proof {
            lemma_contents_of_tail(self.artifacts@, 0, identifier@);
        }
        None
    }
}

impl BackupStorage for MemoryStorage {
    /// A storage in memory says what it holds.
    open spec fn keeps_contents(&self) -> bool {
        true
    }

    /// The content kept under each identifier; the identifier is the
    /// handle.
    open spec fn contents(&self) -> Map<Seq<u8>, Seq<u8>> {
        self@
    }

    /// Keeps `content` under `identifier` if the identifier is free, and
    /// gives the identifier back as the handle. A taken identifier is a
    /// storage error and changes nothing.
    fn create_for_write(&mut self, identifier: &Vec<u8>, content: &Vec<u8>) -> (r: Result<
        Vec<u8>,
        BackupError,
    >)
        ensures
            write_outcome(old(self)@, identifier@, content@) == (
                match r {
                    Ok(handle) => Ok::<Seq<u8>, BackupError>(handle@),
                    Err(e) => Err(e),
                },
                final(self)@,
            ),
            final(self).identifiers() == if r is Ok {
                old(self).identifiers().push(identifier@)
            } else {
                old(self).identifiers()
            },
    {
        if self.find(identifier).is_some() {
            return Err(BackupError::StorageError);
        }
        let ghost before = self.artifacts@;
        let artifact = Artifact { identifier: copy_bytes(identifier), content: copy_bytes(content) };
        proof {
            let now = before.push(artifact);
            assert(now.drop_last() =~= before);
            assert(identifiers_of(now) =~= identifiers_of(before).push(identifier@));
        }
        self.artifacts.push(artifact);
        Ok(copy_bytes(identifier))
    }

    /// The content kept behind `handle`; a storage error if there is none.
    fn open_for_read(&self, handle: &Vec<u8>) -> (r: Result<Vec<u8>, BackupError>)
        ensures
            read_outcome(self@, handle@) == match r {
                Ok(content) => Ok::<Seq<u8>, BackupError>(content@),
                Err(e) => Err(e),
            },
    {
        match self.find(handle) {
            Some(i) => Ok(copy_bytes(&self.artifacts[i].content)),
            None => Err(BackupError::StorageError),
        }
    }

    /// Whether something is kept under `identifier`.
    fn contains(&self, identifier: &Vec<u8>) -> (r: Result<bool, BackupError>)
        ensures
            r == Ok::<bool, BackupError>(self@.contains_key(identifier@)),
    {
        Ok(self.find(identifier).is_some())
    }

    /// The identifiers that start with `prefix`, in the order in which they
    /// were written.
    fn list(&self, prefix: &Vec<u8>) -> (r: Result<Vec<Vec<u8>>, BackupError>)
        ensures
            r is Ok,
            byte_strings(r.unwrap()@) == with_prefix(self.identifiers(), prefix@),
    {
        let ghost names = identifiers_of(self.artifacts@);
        let mut found: Vec<Vec<u8>> = Vec::new();
        let mut i: usize = 0;
        assert(names.subrange(0, 0) =~= Seq::<Seq<u8>>::empty());
        assert(byte_strings(found@) =~= Seq::<Seq<u8>>::empty());
        while i < self.artifacts.len()
            invariant
                i <= self.artifacts.len(),
                names == identifiers_of(self.artifacts@),
                byte_strings(found@) == with_prefix(names.subrange(0, i as int), prefix@),
            decreases self.artifacts.len() - i,
        {
            let ghost before = byte_strings(found@);
            let name = &self.artifacts[i].identifier;
            proof {
                let upto = names.subrange(0, i + 1);
                assert(upto.drop_last() =~= names.subrange(0, i as int));
                assert(upto.last() == name@);
            }
            if starts_with(name, prefix) {
                found.push(copy_bytes(name));
                assert(byte_strings(found@) =~= before.push(name@));
            }
            i += 1;
        }
        assert(names.subrange(0, i as int) =~= names);
        Ok(found)
    }
}

} // verus!
