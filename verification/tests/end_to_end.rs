use snapshot_backup::backup::{
    GlobalBackupOpt, StateSnapshotBackupController, StateSnapshotBackupOpt,
};
use snapshot_backup::chunk::decode_chunk;
use snapshot_backup::chunking::count_chunks;
use snapshot_backup::error::BackupError;
use snapshot_backup::hash::HashValue;
use snapshot_backup::manifest::Manifest;
use snapshot_backup::manifest_codec::decode_manifest;
use snapshot_backup::record::StateRecord;
use snapshot_backup::restore::{
    StateSnapshotRestoreController, StateSnapshotRestoreOpt, PRE_GENESIS_VERSION,
};
use snapshot_backup::service::{BackupService, RecordedService, RecordedWriter, StateWriter};
use snapshot_backup::storage::{BackupStorage, MemoryStorage};
use snapshot_backup::version::next_first_version;
use std::collections::BTreeMap;

// A small ledger to back up from and to restore into. Its root hash is a
// running digest over the entries in key order; the proof fragment of an
// entry is the digest up to and including that entry.

const EMPTY_STATE_ROOT: [u8; 32] = *b"the root hash of the empty state";

fn absorb(state: &mut [u64; 4], bytes: &[u8]) {
    for b in bytes {
        state[0] = (state[0] ^ *b as u64).wrapping_mul(0x0000_0100_0000_01b3);
        state[1] = state[1].rotate_left(5) ^ state[0];
        state[2] = state[2].wrapping_add(state[1]).rotate_left(11);
        state[3] ^= state[2].wrapping_mul(0x9e37_79b9_7f4a_7c15);
    }
}

fn fold(acc: &[u8; 32], key: &[u8], value: &[u8]) -> [u8; 32] {
    let mut state = [0u64; 4];
    for (i, lane) in state.iter_mut().enumerate() {
        let mut word = [0u8; 8];
        word.copy_from_slice(&acc[8 * i..8 * i + 8]);
        *lane = u64::from_le_bytes(word);
    }
    absorb(&mut state, &(key.len() as u64).to_le_bytes());
    absorb(&mut state, key);
    absorb(&mut state, &(value.len() as u64).to_le_bytes());
    absorb(&mut state, value);
    let mut out = [0u8; 32];
    for (i, lane) in state.iter().enumerate() {
        out[8 * i..8 * i + 8].copy_from_slice(&lane.to_le_bytes());
    }
    out
}

struct TreeState {
    account_state_root_hash: HashValue,
}

struct Ledger {
    state: BTreeMap<Vec<u8>, Vec<u8>>,
    next_version: u64,
    restoring: [u8; 32],
    applied_chunks: usize,
    bound: Option<Option<u64>>,
    snapshot_calls: usize,
}

type Transaction = Vec<(Vec<u8>, Vec<u8>)>;

/// What closes a block: the version that the next block starts at.
struct LedgerInfoWithSignatures {
    next_version: u64,
}

impl Ledger {
    fn save_transactions(
        &mut self,
        txns: &[Transaction],
        first_version: u64,
        ledger_info_with_sigs: Option<&LedgerInfoWithSignatures>,
    ) -> Result<(), ()> {
        if first_version != self.next_version {
            return Err(());
        }
        let next = next_first_version(first_version, txns.len()).ok_or(())?;
        if let Some(info) = ledger_info_with_sigs {
            if info.next_version != next {
                return Err(());
            }
        }
        for txn in txns {
            for (key, value) in txn {
                self.state.insert(key.clone(), value.clone());
            }
        }
        self.next_version = next;
        Ok(())
    }

    fn root(&self) -> [u8; 32] {
        let mut acc = EMPTY_STATE_ROOT;
        for (key, value) in self.state.iter() {
            acc = fold(&acc, key, value);
        }
        acc
    }

    fn get_latest_tree_state(&self) -> TreeState {
        TreeState { account_state_root_hash: HashValue::new(self.root()) }
    }

    fn records(&self) -> Vec<StateRecord> {
        let mut acc = EMPTY_STATE_ROOT;
        let mut out = Vec::new();
        for (key, value) in self.state.iter() {
            acc = fold(&acc, key, value);
            out.push(StateRecord { key: key.clone(), value: value.clone(), proof: acc.to_vec() });
        }
        out
    }
}

impl BackupService for Ledger {
    fn get_latest_state_root(&mut self) -> Result<(u64, HashValue), BackupError> {
        if self.next_version == 0 {
            return Err(BackupError::NotFoundError);
        }
        Ok((self.next_version - 1, HashValue::new(self.root())))
    }

    fn get_state_snapshot(
        &mut self,
        version: u64,
        start_index: u64,
        end_index: u64,
    ) -> Result<Vec<StateRecord>, BackupError> {
        self.snapshot_calls += 1;
        if self.next_version == 0 || version != self.next_version - 1 {
            return Err(BackupError::NotFoundError);
        }
        let records = self.records();
        let n = records.len() as u64;
        let lo = start_index.min(n) as usize;
        let hi = end_index.min(n) as usize;
        if lo >= hi {
            return Ok(Vec::new());
        }
        Ok(records[lo..hi].to_vec())
    }
}

impl StateWriter for Ledger {
    fn apply_chunk(
        &mut self,
        _expected_root: &HashValue,
        records: Vec<StateRecord>,
    ) -> Result<(), BackupError> {
        let mut acc = self.restoring;
        for record in records.iter() {
            acc = fold(&acc, &record.key, &record.value);
            if record.proof != acc.to_vec() {
                return Err(BackupError::CorruptionError);
            }
        }
        for record in records {
            self.state.insert(record.key, record.value);
        }
        self.restoring = acc;
        self.applied_chunks += 1;
        Ok(())
    }

    fn finalize(&mut self, version: Option<u64>) -> Result<HashValue, BackupError> {
        self.bound = Some(version);
        if let Some(v) = version {
            self.next_version = v + 1;
        }
        Ok(HashValue::new(self.root()))
    }
}

/// A service whose stream breaks off after a number of answers.
struct BrokenService {
    inner: Ledger,
    answers_left: usize,
}

impl BackupService for BrokenService {
    fn get_latest_state_root(&mut self) -> Result<(u64, HashValue), BackupError> {
        self.inner.get_latest_state_root()
    }

    fn get_state_snapshot(
        &mut self,
        version: u64,
        start_index: u64,
        end_index: u64,
    ) -> Result<Vec<StateRecord>, BackupError> {
        if self.answers_left == 0 {
            return Err(BackupError::ConnectionError);
        }
        self.answers_left -= 1;
        self.inner.get_state_snapshot(version, start_index, end_index)
    }
}

/// A storage that fails after a number of writes.
struct FullStorage {
    inner: MemoryStorage,
    writes_left: usize,
}

impl BackupStorage for FullStorage {
    fn create_for_write(
        &mut self,
        identifier: &Vec<u8>,
        content: &Vec<u8>,
    ) -> Result<Vec<u8>, BackupError> {
        if self.writes_left == 0 {
            return Err(BackupError::StorageError);
        }
        self.writes_left -= 1;
        self.inner.create_for_write(identifier, content)
    }

    fn open_for_read(&self, handle: &Vec<u8>) -> Result<Vec<u8>, BackupError> {
        self.inner.open_for_read(handle)
    }

    fn contains(&self, identifier: &Vec<u8>) -> Result<bool, BackupError> {
        self.inner.contains(identifier)
    }

    fn list(&self, prefix: &Vec<u8>) -> Result<Vec<Vec<u8>>, BackupError> {
        self.inner.list(prefix)
    }
}

struct Generator {
    seed: u64,
}

impl Generator {
    fn next(&mut self) -> u64 {
        self.seed ^= self.seed << 13;
        self.seed ^= self.seed >> 7;
        self.seed ^= self.seed << 17;
        self.seed
    }

    fn bytes(&mut self, len: usize) -> Vec<u8> {
        (0..len).map(|_| (self.next() >> 24) as u8).collect()
    }

    fn blocks_to_commit(
        &mut self,
        blocks: usize,
        writes: u64,
    ) -> Vec<(Vec<Transaction>, LedgerInfoWithSignatures)> {
        let mut out = Vec::new();
        let mut next_version = 0;
        for _ in 0..blocks {
            let mut block = Vec::new();
            for _ in 0..1 + self.next() % 20 {
                let mut txn = Vec::new();
                for _ in 0..self.next() % (writes + 1) {
                    let key = self.bytes(16);
                    let len = (self.next() % 40) as usize;
                    txn.push((key, self.bytes(len)));
                }
                block.push(txn);
            }
            next_version += block.len() as u64;
            out.push((block, LedgerInfoWithSignatures { next_version }));
        }
        out
    }
}

fn tmp_db_empty() -> Ledger {
    Ledger {
        state: BTreeMap::new(),
        next_version: 0,
        restoring: EMPTY_STATE_ROOT,
        applied_chunks: 0,
        bound: None,
        snapshot_calls: 0,
    }
}

fn tmp_db_with_random_content() -> Ledger {
    let mut db = tmp_db_empty();
    let mut cur_ver = 0;
    for (txns_to_commit, ledger_info_with_sigs) in
        (Generator { seed: 0x2545_f491_4f6c_dd1d }).blocks_to_commit(40, 7)
    {
        db.save_transactions(
            &txns_to_commit,
            cur_ver, /* first_version */
            Some(&ledger_info_with_sigs),
        )
        .unwrap();
        cur_ver = next_first_version(cur_ver, txns_to_commit.len()).unwrap();
    }
    db
}

fn db_with_entries(n: usize) -> Ledger {
    let mut db = tmp_db_empty();
    let mut generator = Generator { seed: 0x9e37_79b9_7f4a_7c15 ^ n as u64 };
    let mut txn = Vec::new();
    while txn.len() < n {
        let mut key = (txn.len() as u32).to_be_bytes().to_vec();
        key.extend(generator.bytes(3));
        let len = (generator.next() % 9) as usize;
        txn.push((key, generator.bytes(len)));
    }
    db.save_transactions(&[txn], 0, None).unwrap();
    db
}

fn run_backup(
    db: &mut Ledger,
    store: &mut MemoryStorage,
    version: u64,
    max_chunk_size: u64,
) -> Result<Vec<u8>, BackupError> {
    snapshot_backup::run_backup(version, max_chunk_size, db, store)
}

fn run_restore(
    store: &MemoryStorage,
    db: &mut Ledger,
    manifest_handle: Vec<u8>,
    version: u64,
) -> Result<(), BackupError> {
    snapshot_backup::run_restore(manifest_handle, version, store, db)
}

fn manifest_of(store: &MemoryStorage, handle: &Vec<u8>) -> Manifest {
    decode_manifest(&store.open_for_read(handle).unwrap()).unwrap()
}

/// A storage with the content of `store`, but `changed` under `handle`.
fn with_changed(store: &MemoryStorage, handle: &Vec<u8>, changed: &Vec<u8>) -> MemoryStorage {
    let mut out = MemoryStorage::new();
    for id in store.list(&Vec::new()).unwrap() {
        let content = if &id == handle { changed.clone() } else { store.open_for_read(&id).unwrap() };
        out.create_for_write(&id, &content).unwrap();
    }
    out
}

#[test]
fn end_to_end() {
    let mut src_db = tmp_db_with_random_content();
    let mut tgt_db = tmp_db_empty();
    let mut store = MemoryStorage::new();

    let (version, state_root_hash) = src_db.get_latest_state_root().unwrap();
    let manifest_handle = StateSnapshotBackupController::new(
        StateSnapshotBackupOpt { version },
        GlobalBackupOpt {
            max_chunk_size: 500,
        },
    )
    .run(&mut src_db, &mut store)
    .unwrap();

    StateSnapshotRestoreController::new(StateSnapshotRestoreOpt {
        manifest_handle,
        version: PRE_GENESIS_VERSION,
    })
    .run(&store, &mut tgt_db)
    .unwrap();
    assert_eq!(
        tgt_db
            .get_latest_tree_state()
            .account_state_root_hash,
        state_root_hash,
    );
}

#[test]
fn end_to_end_snapshot_has_several_chunks() {
    let mut src_db = tmp_db_with_random_content();
    let mut store = MemoryStorage::new();
    let (version, root) = src_db.get_latest_state_root().unwrap();
    let n = src_db.state.len() as u64;
    assert!(n > 1000);
    let handle = run_backup(&mut src_db, &mut store, version, 500).unwrap();
    assert_eq!(handle, format!("manifests/{}", version).into_bytes());
    let manifest = manifest_of(&store, &handle);
    assert_eq!(manifest.version(), version);
    assert_eq!(manifest.root_hash(), root);
    assert_eq!(manifest.max_chunk_size(), 500);
    assert_eq!(manifest.entry_total(), n);
    assert_eq!(manifest.chunk_count() as u64, count_chunks(n, 500));
    assert_eq!(store.len(), manifest.chunk_count() + 1);
}

#[test]
fn round_trip_for_many_sizes() {
    for n in [0usize, 1, 2, 3, 7, 8, 9, 40] {
        for max_chunk_size in [1u64, 2, 3, 4, 8, 39, 40, 41, 500, u64::MAX] {
            for target_version in [PRE_GENESIS_VERSION, 0, 17] {
                let mut src = db_with_entries(n);
                let mut tgt = tmp_db_empty();
                let mut store = MemoryStorage::new();
                let (version, root) = src.get_latest_state_root().unwrap();
                let handle = run_backup(&mut src, &mut store, version, max_chunk_size).unwrap();
                assert_eq!(run_restore(&store, &mut tgt, handle, target_version), Ok(()));
                assert_eq!(tgt.get_latest_tree_state().account_state_root_hash, root);
                assert_eq!(tgt.state, src.state);
                assert_eq!(tgt.applied_chunks as u64, count_chunks(n as u64, max_chunk_size));
                if target_version == PRE_GENESIS_VERSION {
                    assert_eq!(tgt.bound, Some(None));
                    assert_eq!(tgt.next_version, 0);
                } else {
                    assert_eq!(tgt.bound, Some(Some(target_version)));
                }
            }
        }
    }
}

#[test]
fn chunks_are_cut_by_count_and_hold_the_snapshot_in_order() {
    let mut src = db_with_entries(23);
    let mut store = MemoryStorage::new();
    let handle = run_backup(&mut src, &mut store, 0, 5).unwrap();
    let manifest = manifest_of(&store, &handle);
    let sizes: Vec<u64> = manifest.chunks().iter().map(|c| c.entry_count).collect();
    assert_eq!(sizes, vec![5, 5, 5, 5, 3]);
    let mut all = Vec::new();
    for (i, chunk) in manifest.chunks().iter().enumerate() {
        assert_eq!(chunk.handle, format!("chunks/0/0/{}", i).into_bytes());
        let records = decode_chunk(&store.open_for_read(&chunk.handle).unwrap()).unwrap();
        assert_eq!(records.len() as u64, chunk.entry_count);
        assert_eq!(records[0].key, chunk.first_key);
        assert_eq!(records[records.len() - 1].key, chunk.last_key);
        all.extend(records);
    }
    assert_eq!(all, src.records());
}

#[test]
fn chunking_is_deterministic() {
    let mut src = db_with_entries(57);
    let mut first = MemoryStorage::new();
    let mut second = MemoryStorage::new();
    let a = run_backup(&mut src, &mut first, 0, 10).unwrap();
    let b = run_backup(&mut src, &mut second, 0, 10).unwrap();
    assert_eq!(a, b);
    assert_eq!(first, second);
    assert_eq!(manifest_of(&first, &a), manifest_of(&second, &b));
}

#[test]
fn chunk_size_one_yields_one_chunk_per_entry() {
    let mut src = db_with_entries(12);
    let mut store = MemoryStorage::new();
    let handle = run_backup(&mut src, &mut store, 0, 1).unwrap();
    let manifest = manifest_of(&store, &handle);
    assert_eq!(manifest.chunk_count(), 12);
    let records = src.records();
    for (i, chunk) in manifest.chunks().iter().enumerate() {
        assert_eq!(chunk.entry_count, 1);
        assert_eq!(chunk.first_key, records[i].key);
        assert_eq!(chunk.last_key, records[i].key);
    }
}

#[test]
fn oversized_chunk_size_yields_one_chunk() {
    for max_chunk_size in [12u64, 13, 500, u64::MAX] {
        let mut src = db_with_entries(12);
        let mut store = MemoryStorage::new();
        let handle = run_backup(&mut src, &mut store, 0, max_chunk_size).unwrap();
        let manifest = manifest_of(&store, &handle);
        assert_eq!(manifest.chunk_count(), 1);
        assert_eq!(manifest.chunks()[0].entry_count, 12);
    }
}

#[test]
fn a_full_last_chunk_takes_one_more_question() {
    let mut src = db_with_entries(10);
    let mut store = MemoryStorage::new();
    let handle = run_backup(&mut src, &mut store, 0, 5).unwrap();
    assert_eq!(manifest_of(&store, &handle).chunk_count(), 2);
    assert_eq!(src.snapshot_calls, 3);
    let mut src = db_with_entries(9);
    let mut store = MemoryStorage::new();
    run_backup(&mut src, &mut store, 0, 5).unwrap();
    assert_eq!(src.snapshot_calls, 2);
}

#[test]
fn empty_snapshot() {
    let mut src = tmp_db_empty();
    src.save_transactions(&[vec![]], 0, None).unwrap();
    let mut tgt = tmp_db_empty();
    let mut store = MemoryStorage::new();
    let (version, root) = src.get_latest_state_root().unwrap();
    assert_eq!(root, HashValue::new(EMPTY_STATE_ROOT));
    let handle = run_backup(&mut src, &mut store, version, 500).unwrap();
    assert_eq!(store.len(), 1);
    assert_eq!(manifest_of(&store, &handle).chunk_count(), 0);
    assert_eq!(run_restore(&store, &mut tgt, handle, PRE_GENESIS_VERSION), Ok(()));
    assert_eq!(
        tgt.get_latest_tree_state().account_state_root_hash,
        HashValue::new(EMPTY_STATE_ROOT)
    );
    assert_eq!(tgt.applied_chunks, 0);
    assert!(tgt.state.is_empty());
}

#[test]
fn corruption_of_any_chunk_byte_is_detected() {
    let mut src = db_with_entries(11);
    let mut store = MemoryStorage::new();
    let handle = run_backup(&mut src, &mut store, 0, 4).unwrap();
    let manifest = manifest_of(&store, &handle);
    let root = src.get_latest_tree_state().account_state_root_hash;
    let mut detected = 0;
    for chunk in manifest.chunks() {
        let bytes = store.open_for_read(&chunk.handle).unwrap();
        for at in 0..bytes.len() {
            for flip in [0x01u8, 0xFF] {
                let mut changed = bytes.clone();
                changed[at] ^= flip;
                let tampered = with_changed(&store, &chunk.handle, &changed);
                let mut tgt = tmp_db_empty();
                let result = run_restore(&tampered, &mut tgt, handle.clone(), PRE_GENESIS_VERSION);
                assert!(
                    result == Err(BackupError::CorruptionError)
                        || result == Err(BackupError::VerificationError)
                );
                assert!(tgt.bound.is_none() || tgt.root() != root.bytes);
                detected += 1;
            }
        }
    }
    assert!(detected > 500);
}

#[test]
fn a_truncated_chunk_is_a_corruption() {
    let mut src = db_with_entries(11);
    let mut store = MemoryStorage::new();
    let handle = run_backup(&mut src, &mut store, 0, 4).unwrap();
    let manifest = manifest_of(&store, &handle);
    let chunk = &manifest.chunks()[1];
    let mut bytes = store.open_for_read(&chunk.handle).unwrap();
    bytes.truncate(bytes.len() - 1);
    let tampered = with_changed(&store, &chunk.handle, &bytes);
    let mut tgt = tmp_db_empty();
    assert_eq!(
        run_restore(&tampered, &mut tgt, handle, PRE_GENESIS_VERSION),
        Err(BackupError::CorruptionError)
    );
    assert_eq!(tgt.applied_chunks, 1);
}

#[test]
fn a_changed_value_is_caught_by_the_writer() {
    let mut src = db_with_entries(6);
    let mut store = MemoryStorage::new();
    let handle = run_backup(&mut src, &mut store, 0, 6).unwrap();
    let chunk = manifest_of(&store, &handle).chunks()[0].clone();
    let mut records = decode_chunk(&store.open_for_read(&chunk.handle).unwrap()).unwrap();
    records[2].value.push(1);
    let changed = snapshot_backup::chunk::encode_chunk(&records);
    let tampered = with_changed(&store, &chunk.handle, &changed);
    let mut tgt = tmp_db_empty();
    assert_eq!(
        run_restore(&tampered, &mut tgt, handle, PRE_GENESIS_VERSION),
        Err(BackupError::CorruptionError)
    );
    assert!(tgt.state.is_empty());
}

#[test]
fn swapped_chunks_are_a_corruption() {
    let mut src = db_with_entries(8);
    let mut store = MemoryStorage::new();
    let handle = run_backup(&mut src, &mut store, 0, 4).unwrap();
    let manifest = manifest_of(&store, &handle);
    let first = store.open_for_read(&manifest.chunks()[0].handle).unwrap();
    let second = store.open_for_read(&manifest.chunks()[1].handle).unwrap();
    let swapped = with_changed(&store, &manifest.chunks()[0].handle, &second);
    let swapped = with_changed(&swapped, &manifest.chunks()[1].handle, &first);
    let mut tgt = tmp_db_empty();
    assert_eq!(
        run_restore(&swapped, &mut tgt, handle, PRE_GENESIS_VERSION),
        Err(BackupError::CorruptionError)
    );
}

#[test]
fn a_wrong_root_hash_in_the_manifest_is_a_verification_error() {
    let mut src = tmp_db_empty();
    src.save_transactions(&[vec![]], 0, None).unwrap();
    let mut store = MemoryStorage::new();
    let handle = run_backup(&mut src, &mut store, 0, 4).unwrap();
    let mut bytes = store.open_for_read(&handle).unwrap();
    bytes[8] ^= 1;
    let tampered = with_changed(&store, &handle, &bytes);
    let mut tgt = tmp_db_empty();
    assert_eq!(
        run_restore(&tampered, &mut tgt, handle, PRE_GENESIS_VERSION),
        Err(BackupError::VerificationError)
    );
}

#[test]
fn a_missing_manifest_is_a_storage_error() {
    let store = MemoryStorage::new();
    let mut tgt = tmp_db_empty();
    assert_eq!(
        run_restore(&store, &mut tgt, b"manifests/0".to_vec(), PRE_GENESIS_VERSION),
        Err(BackupError::StorageError)
    );
}

#[test]
fn a_missing_chunk_is_a_storage_error() {
    let mut src = db_with_entries(8);
    let mut store = MemoryStorage::new();
    let handle = run_backup(&mut src, &mut store, 0, 4).unwrap();
    let manifest = manifest_of(&store, &handle);
    let mut partial = MemoryStorage::new();
    for id in store.list(&Vec::new()).unwrap() {
        if id != manifest.chunks()[1].handle {
            partial.create_for_write(&id, &store.open_for_read(&id).unwrap()).unwrap();
        }
    }
    let mut tgt = tmp_db_empty();
    assert_eq!(
        run_restore(&partial, &mut tgt, handle, PRE_GENESIS_VERSION),
        Err(BackupError::StorageError)
    );
    assert_eq!(tgt.applied_chunks, 1);
    assert_eq!(tgt.bound, None);
}

#[test]
fn a_version_that_was_never_committed_is_not_found() {
    let mut src = db_with_entries(8);
    let mut store = MemoryStorage::new();
    assert_eq!(run_backup(&mut src, &mut store, 5, 4), Err(BackupError::NotFoundError));
    assert_eq!(store.len(), 0);
    let mut nothing = tmp_db_empty();
    assert_eq!(run_backup(&mut nothing, &mut store, 0, 4), Err(BackupError::NotFoundError));
}

#[test]
fn a_broken_stream_ends_the_backup_without_a_manifest() {
    let mut store = MemoryStorage::new();
    let mut service = BrokenService { inner: db_with_entries(10), answers_left: 2 };
    let result = StateSnapshotBackupController::new(
        StateSnapshotBackupOpt { version: 0 },
        GlobalBackupOpt { max_chunk_size: 3 },
    )
    .run(&mut service, &mut store);
    assert_eq!(result, Err(BackupError::ConnectionError));
    assert_eq!(store.len(), 2);
    assert_eq!(store.list(&b"manifests/".to_vec()), Ok(vec![]));
}

#[test]
fn a_failed_write_ends_the_backup_without_a_manifest() {
    for writes_left in 0..4 {
        let mut store = FullStorage { inner: MemoryStorage::new(), writes_left };
        let mut src = db_with_entries(10);
        let result = StateSnapshotBackupController::new(
            StateSnapshotBackupOpt { version: 0 },
            GlobalBackupOpt { max_chunk_size: 4 },
        )
        .run(&mut src, &mut store);
        assert_eq!(result, Err(BackupError::StorageError));
        assert_eq!(store.inner.len(), writes_left);
        assert_eq!(store.inner.list(&b"manifests/".to_vec()), Ok(vec![]));
    }
}

#[test]
fn a_retry_after_a_broken_run_writes_under_a_new_attempt() {
    let mut store = MemoryStorage::new();
    let mut service = BrokenService { inner: db_with_entries(10), answers_left: 2 };
    let broken = StateSnapshotBackupController::new(
        StateSnapshotBackupOpt { version: 0 },
        GlobalBackupOpt { max_chunk_size: 3 },
    )
    .run(&mut service, &mut store);
    assert_eq!(broken, Err(BackupError::ConnectionError));
    let left_behind = store.list(&Vec::new()).unwrap();
    assert_eq!(left_behind, vec![b"chunks/0/0/0".to_vec(), b"chunks/0/0/1".to_vec()]);

    let mut src = db_with_entries(10);
    let handle = run_backup(&mut src, &mut store, 0, 3).unwrap();
    let manifest = manifest_of(&store, &handle);
    assert_eq!(manifest.chunk_count(), 4);
    for (i, chunk) in manifest.chunks().iter().enumerate() {
        assert_eq!(chunk.handle, format!("chunks/0/1/{}", i).into_bytes());
    }
    let mut tgt = tmp_db_empty();
    assert_eq!(run_restore(&store, &mut tgt, handle, PRE_GENESIS_VERSION), Ok(()));
    assert_eq!(tgt.state, src.state);
}

#[test]
fn a_version_is_sealed_once() {
    let mut src = db_with_entries(5);
    let mut store = MemoryStorage::new();
    let handle = run_backup(&mut src, &mut store, 0, 2).unwrap();
    let sealed = store.open_for_read(&handle).unwrap();
    assert_eq!(run_backup(&mut src, &mut store, 0, 3), Err(BackupError::StorageError));
    assert_eq!(store.open_for_read(&handle).unwrap(), sealed);
    let mut tgt = tmp_db_empty();
    assert_eq!(run_restore(&store, &mut tgt, handle, PRE_GENESIS_VERSION), Ok(()));
    assert_eq!(tgt.state, src.state);
}

#[test]
fn a_manifest_is_restored_more_than_once() {
    let mut src = db_with_entries(9);
    let mut store = MemoryStorage::new();
    let handle = run_backup(&mut src, &mut store, 0, 2).unwrap();
    let before = store.clone();
    for _ in 0..3 {
        let mut tgt = tmp_db_empty();
        assert_eq!(run_restore(&store, &mut tgt, handle.clone(), 4), Ok(()));
        assert_eq!(tgt.state, src.state);
    }
    assert_eq!(store, before);
}

#[test]
fn a_restore_into_a_target_that_is_not_empty_fails() {
    let mut src = db_with_entries(9);
    let mut store = MemoryStorage::new();
    let handle = run_backup(&mut src, &mut store, 0, 4).unwrap();
    let mut tgt = tmp_db_empty();
    tgt.save_transactions(&[vec![(vec![0xFF; 4], vec![1])]], 0, None).unwrap();
    assert_eq!(
        run_restore(&store, &mut tgt, handle, PRE_GENESIS_VERSION),
        Err(BackupError::VerificationError)
    );
}

#[test]
fn blocks_are_committed_one_behind_the_other() {
    let mut db = tmp_db_empty();
    let block = |n: usize| -> Vec<Transaction> { (0..n).map(|_| Vec::new()).collect() };
    let mut cur_ver = 0;
    let mut first_versions = Vec::new();
    for len in [3usize, 2, 4] {
        first_versions.push(cur_ver);
        db.save_transactions(&block(len), cur_ver, None).unwrap();
        cur_ver = next_first_version(cur_ver, len).unwrap();
    }
    assert_eq!(first_versions, vec![0, 3, 5]);
    assert_eq!(cur_ver, 9);
    assert_eq!(db.get_latest_state_root().unwrap().0, 8);
    assert_eq!(db.save_transactions(&block(1), 8, None), Err(()));
}

#[test]
fn a_block_with_the_ledger_info_of_another_is_refused() {
    let mut db = tmp_db_empty();
    let info = LedgerInfoWithSignatures { next_version: 3 };
    assert_eq!(db.save_transactions(&[vec![], vec![]], 0, Some(&info)), Err(()));
    assert_eq!(db.save_transactions(&[vec![], vec![], vec![]], 0, Some(&info)), Ok(()));
}

#[test]
fn recorded_parties_answer_as_the_parties_do() {
    let mut src = RecordedService::new(tmp_db_with_random_content());
    let mut tgt = RecordedWriter::new(tmp_db_empty());
    let mut store = MemoryStorage::new();
    let (version, root) = src.get_latest_state_root().unwrap();
    let handle = snapshot_backup::run_backup(version, 500, &mut src, &mut store).unwrap();
    assert_eq!(
        snapshot_backup::run_restore(handle, PRE_GENESIS_VERSION, &store, &mut tgt),
        Ok(())
    );
    let src = src.into_inner();
    let tgt = tgt.into_inner();
    assert_eq!(tgt.get_latest_tree_state().account_state_root_hash, root);
    assert_eq!(tgt.state, src.state);
    assert_eq!(tgt.bound, Some(None));
}

#[test]
fn a_recorded_writer_hands_on_the_refusal_of_the_writer() {
    let mut tgt = RecordedWriter::new(tmp_db_empty());
    let record = StateRecord { key: vec![1], value: vec![2], proof: vec![3] };
    assert_eq!(
        tgt.apply_chunk(&HashValue::new(EMPTY_STATE_ROOT), vec![record]),
        Err(BackupError::CorruptionError)
    );
    assert_eq!(tgt.finalize(Some(4)), Ok(HashValue::new(EMPTY_STATE_ROOT)));
    assert_eq!(tgt.into_inner().bound, Some(Some(4)));
}
