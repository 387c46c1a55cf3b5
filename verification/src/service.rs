//! The two outside parties of a run besides storage: the backup service of
//! the ledger that is backed up, and the writer of the ledger that is
//! restored.
//!
//! Both are reached over a network or a database handle, so nothing is known
//! of what they answer, and the controllers judge every answer they get.
//! What a party may keep is a record of the calls that were made of it,
//! with their answers: `asked`. The record promises nothing of an answer;
//! it is there so that a run can say which calls it made and what it was
//! told. A party outside this crate keeps none, and nothing is believed of
//! it; [`RecordedService`] and [`RecordedWriter`] keep one for any party.

use crate::error::BackupError;
use crate::hash::HashValue;
use crate::record::{record_models, RecordModel, StateRecord};
use vstd::prelude::*;

verus! {

/// One call of the backup service, with its answer.
pub enum ServiceCall {
    LatestStateRoot { latest: Result<(u64, Seq<u8>), BackupError> },
    StateSnapshot {
        version: u64,
        start_index: u64,
        end_index: u64,
        entries: Result<Seq<RecordModel>, BackupError>,
    },
}

/// One call of the writer, with its answer.
pub enum WriterCall {
    ApplyChunk {
        expected_root: Seq<u8>,
        records: Seq<RecordModel>,
        applied: Result<(), BackupError>,
    },
    Finalize { version: Option<u64>, root: Result<Seq<u8>, BackupError> },
}

/// The answer to a question for the latest state root, as mathematical
/// values.
pub open spec fn state_root_answer(r: Result<(u64, HashValue), BackupError>) -> Result<
    (u64, Seq<u8>),
    BackupError,
> {
    match r {
        Ok((version, root)) => Ok((version, root@)),
        Err(e) => Err(e),
    }
}

/// The answer to a question for entries, as mathematical values.
pub open spec fn records_answer(r: Result<Vec<StateRecord>, BackupError>) -> Result<
    Seq<RecordModel>,
    BackupError,
> {
    match r {
        Ok(records) => Ok(record_models(records@)),
        Err(e) => Err(e),
    }
}

/// An answer that holds a digest, as mathematical values.
pub open spec fn root_answer(r: Result<HashValue, BackupError>) -> Result<Seq<u8>, BackupError> {
    match r {
        Ok(root) => Ok(root@),
        Err(e) => Err(e),
    }
}

/// The backup service of a running ledger.
pub trait BackupService {
    /// Whether this service keeps a record of what it is asked. A service
    /// keeps none unless it says so.
    open spec fn keeps_record(&self) -> bool {
        false
    }

    /// The calls that were made of this service so far, in order, each with
    /// its answer, where the service keeps a record.
    open spec fn asked(&self) -> Seq<ServiceCall> {
        Seq::empty()
    }

    /// The latest committed version and the root hash of its state.
    fn get_latest_state_root(&mut self) -> (r: Result<(u64, HashValue), BackupError>)
        ensures
            old(self).keeps_record() ==> final(self).keeps_record(),
            old(self).keeps_record() ==> final(self).asked() == old(self).asked().push(
                ServiceCall::LatestStateRoot { latest: state_root_answer(r) },
            ),
    ;

    /// The entries of the snapshot at `version` from place `start_index` up
    /// to, not including, place `end_index`, in key order. Fewer entries
    /// than asked for mean that the snapshot ends there.
    fn get_state_snapshot(&mut self, version: u64, start_index: u64, end_index: u64) -> (r: Result<
        Vec<StateRecord>,
        BackupError,
    >)
        ensures
            old(self).keeps_record() ==> final(self).keeps_record(),
            old(self).keeps_record() ==> final(self).asked() == old(self).asked().push(
                ServiceCall::StateSnapshot {
                    version,
                    start_index,
                    end_index,
                    entries: records_answer(r),
                },
            ),
    ;
}

/// The writer of the ledger that a snapshot is restored into. One restore
/// run owns it.
pub trait StateWriter {
    /// Whether this writer keeps a record of what it is asked. A writer
    /// keeps none unless it says so.
    open spec fn keeps_record(&self) -> bool {
        false
    }

    /// The calls that were made of this writer so far, in order, each with
    /// its answer, where the writer keeps a record.
    open spec fn asked(&self) -> Seq<WriterCall> {
        Seq::empty()
    }

    /// Folds the proof fragments of the chunk into the state that is being
    /// built towards `expected_root`, and adds the entries as one batch. The
    /// writer refuses a chunk whose fragments do not fit, with a corruption
    /// error.
    fn apply_chunk(&mut self, expected_root: &HashValue, records: Vec<StateRecord>) -> (r: Result<
        (),
        BackupError,
    >)
        ensures
            old(self).keeps_record() ==> final(self).keeps_record(),
            old(self).keeps_record() ==> final(self).asked() == old(self).asked().push(
                WriterCall::ApplyChunk {
                    expected_root: expected_root@,
                    records: record_models(records@),
                    applied: r,
                },
            ),
    ;

    /// Ends the restore: binds the state to `version`, or to no version for
    /// `None`, and gives the root hash of the state as it now is.
    fn finalize(&mut self, version: Option<u64>) -> (r: Result<HashValue, BackupError>)
        ensures
            old(self).keeps_record() ==> final(self).keeps_record(),
            old(self).keeps_record() ==> final(self).asked() == old(self).asked().push(
                WriterCall::Finalize { version, root: root_answer(r) },
            ),
    ;
}

/// The record of a service before and after a run, if the service keeps
/// one.
pub open spec fn service_record<C: BackupService>(before: &C, after: &C) -> Option<
    (Seq<ServiceCall>, Seq<ServiceCall>),
> {
    if before.keeps_record() {
        Some((before.asked(), after.asked()))
    } else {
        None
    }
}

/// The record of a writer before and after a run, if the writer keeps one.
pub open spec fn writer_record<W: StateWriter>(before: &W, after: &W) -> Option<
    (Seq<WriterCall>, Seq<WriterCall>),
> {
    if before.keeps_record() {
        Some((before.asked(), after.asked()))
    } else {
        None
    }
}

/// A backup service together with a record of what it was asked. The
/// record is kept here, beside the service, so it holds of every service:
/// each call is handed on as it is, and its answer is written down as it
/// came.
pub struct RecordedService<C: BackupService> {
    service: C,
    calls: Ghost<Seq<ServiceCall>>,
}

impl<C: BackupService> RecordedService<C> {
    /// The service with an empty record.
    pub fn new(service: C) -> (r: Self)
        ensures
            r.keeps_record(),
            r.asked() == Seq::<ServiceCall>::empty(),
            r.service() == service,
    {
        RecordedService { service, calls: Ghost(Seq::empty()) }
    }

    /// The service that is recorded.
    pub closed spec fn service(&self) -> C {
        self.service
    }

    /// Gives the service back.
    pub fn into_inner(self) -> (service: C)
        ensures
            service == self.service(),
    {
        self.service
    }
}

impl<C: BackupService> BackupService for RecordedService<C> {
    open spec fn keeps_record(&self) -> bool {
        true
    }

    closed spec fn asked(&self) -> Seq<ServiceCall> {
        self.calls@
    }

    fn get_latest_state_root(&mut self) -> (r: Result<(u64, HashValue), BackupError>) {
        let r = self.service.get_latest_state_root();
        proof {
            self.calls@ = self.calls@.push(
                ServiceCall::LatestStateRoot { latest: state_root_answer(r) },
            );
        }
        r
    }

    fn get_state_snapshot(&mut self, version: u64, start_index: u64, end_index: u64) -> (r: Result<
        Vec<StateRecord>,
        BackupError,
    >) {
        let r = self.service.get_state_snapshot(version, start_index, end_index);
        proof {
            self.calls@ = self.calls@.push(
                ServiceCall::StateSnapshot {
                    version,
                    start_index,
                    end_index,
                    entries: records_answer(r),
                },
            );
        }
        r
    }
}

/// A writer together with a record of what it was asked. The record is
/// kept here, beside the writer, so it holds of every writer: each call is
/// handed on as it is, and its answer is written down as it came.
pub struct RecordedWriter<W: StateWriter> {
    writer: W,
    calls: Ghost<Seq<WriterCall>>,
}

impl<W: StateWriter> RecordedWriter<W> {
    /// The writer with an empty record.
    pub fn new(writer: W) -> (r: Self)
        ensures
            r.keeps_record(),
            r.asked() == Seq::<WriterCall>::empty(),
            r.writer() == writer,
    {
        RecordedWriter { writer, calls: Ghost(Seq::empty()) }
    }

    /// The writer that is recorded.
    pub closed spec fn writer(&self) -> W {
        self.writer
    }

    /// Gives the writer back.
    pub fn into_inner(self) -> (writer: W)
        ensures
            writer == self.writer(),
    {
        self.writer
    }
}

impl<W: StateWriter> StateWriter for RecordedWriter<W> {
    open spec fn keeps_record(&self) -> bool {
        true
    }

    closed spec fn asked(&self) -> Seq<WriterCall> {
        self.calls@
    }

    fn apply_chunk(&mut self, expected_root: &HashValue, records: Vec<StateRecord>) -> (r: Result<
        (),
        BackupError,
    >) {
        let ghost models = record_models(records@);
        let r = self.writer.apply_chunk(expected_root, records);
        proof {
            self.calls@ = self.calls@.push(
                WriterCall::ApplyChunk {
                    expected_root: expected_root@,
                    records: models,
                    applied: r,
                },
            );
        }
        r
    }

    fn finalize(&mut self, version: Option<u64>) -> (r: Result<HashValue, BackupError>) {
        let r = self.writer.finalize(version);
        proof {
            self.calls@ = self.calls@.push(WriterCall::Finalize { version, root: root_answer(r) });
        }
        r
    }
}

} // verus!
