use vstd::prelude::*;
use crate::archive::{archive_members, member_count, open_archive, read_member, zip_contents, Archive};
use crate::error::{ErrorKind, InternalError};
use crate::member::{member_outcome, parse_member, records_view, RecordView};
use crate::record::FieldRecord;

verus! {

/// Creates the destination table unless it is already there.
pub const CREATE_TABLE_SQL: &'static str = "CREATE TABLE IF NOT EXISTS field (
            character INTEGER NOT NULL,
            name      TEXT NOT NULL,
            value     TEXT NOT NULL,
            PRIMARY KEY (character, name)
        )";

/// Inserts one record: codepoint, name, value.
pub const INSERT_SQL: &'static str = "INSERT INTO field VALUES (?1, ?2, ?3)";

/// What the store has to do next for an ingestion run.
#[derive(Debug)]
pub enum IngestAction {
    /// Create the destination table if it does not exist yet.
    CreateTable,
    /// In one transaction: insert these rows, in order, then commit.
    StoreMember(Vec<FieldRecord>),
    /// The run is over, with this outcome.
    Finish(Result<(), InternalError>),
}

/// How the store carried out the last action.
#[derive(Clone, Debug)]
pub enum StoreOutcome {
    Succeeded,
    Failed(String),
}

/// What a member yields for the store: its records, or why it fails.
pub open spec fn member_plan(m: Option<Seq<u8>>) -> Result<Seq<RecordView>, ErrorKind> {
    match m {
        None => Err(ErrorKind::Archive),
        Some(b) => member_outcome(b),
    }
}

/// An ingestion run over one archive. Members are handed out one at a time,
/// in index order, each only after the store has committed the one before;
/// the first failure ends the run, and members committed before it stay.
pub struct Ingestion {
    archive: Option<Archive>,
    next: usize,
    finished: bool,
}

impl Ingestion {
    /// The archive's members (none when it could not be opened).
    pub closed spec fn members(&self) -> Seq<Option<Seq<u8>>> {
        match self.archive {
            Some(a) => archive_members(a),
            None => Seq::<Option<Seq<u8>>>::empty(),
        }
    }

    /// How many members have been handed to the store.
    pub closed spec fn handed_out(&self) -> nat {
        self.next as nat
    }

    pub closed spec fn finished(&self) -> bool {
        self.finished
    }

    pub open spec fn wf(&self) -> bool {
        self.handed_out() <= self.members().len()
    }

    /// Opens the archive. On success the store is first asked to create the
    /// table; on failure the run ends at once with an archive error.
    pub fn start(bytes: Vec<u8>) -> (r: (Ingestion, IngestAction))
        ensures
            r.0.wf(),
            r.0.handed_out() == 0,
            r.1 is CreateTable <==> !r.0.finished(),
            r.1 is CreateTable <==> zip_contents(bytes@) is Some,
            zip_contents(bytes@) is Some ==> r.0.members() == zip_contents(bytes@)->Some_0,
            r.1 is CreateTable || (r.1 is Finish && r.1->Finish_0 is Err
                && r.1->Finish_0->Err_0.kind == ErrorKind::Archive),
    {
        match open_archive(bytes) {
            Ok(a) => (Ingestion { archive: Some(a), next: 0, finished: false }, IngestAction::CreateTable),
            Err(message) => (
                Ingestion { archive: None, next: 0, finished: true },
                IngestAction::Finish(Err(InternalError::new(ErrorKind::Archive, message))),
            ),
        }
    }

    pub fn is_finished(&self) -> (r: bool)
        ensures
            r == self.finished(),
    {
        self.finished
    }

    /// Takes the outcome of the last action and decides the next one.
    ///
    /// A store failure ends the run with a store error carrying the store's
    /// message. After a success, the next member is read and parsed: its
    /// records go to the store, or its failure ends the run; when no member is
    /// left the run ends in success.
    pub fn step(&mut self, outcome: StoreOutcome) -> (r: IngestAction)
        requires
            old(self).wf(),
            !old(self).finished(),
        ensures
            final(self).wf(),
            final(self).members() == old(self).members(),
            final(self).finished() <==> r is Finish,
            match outcome {
                StoreOutcome::Failed(m) => r is Finish && r->Finish_0 is Err
                    && r->Finish_0->Err_0.kind == ErrorKind::Store
                    && r->Finish_0->Err_0.message@ == m@
                    && final(self).handed_out() == old(self).handed_out(),
                StoreOutcome::Succeeded => if old(self).handed_out() == old(self).members().len() {
                    r is Finish && r->Finish_0 is Ok
                        && final(self).handed_out() == old(self).handed_out()
                } else {
                    match member_plan(old(self).members()[old(self).handed_out() as int]) {
                        Ok(recs) => r is StoreMember && records_view(r->StoreMember_0@) == recs
                            && final(self).handed_out() == old(self).handed_out() + 1,
                        Err(k) => r is Finish && r->Finish_0 is Err && r->Finish_0->Err_0.kind == k
                            && final(self).handed_out() == old(self).handed_out(),
                    }
                },
            },
    {
        match outcome {
            StoreOutcome::Failed(message) => {
                self.finished = true;
                IngestAction::Finish(Err(InternalError::store(message)))
            },
            StoreOutcome::Succeeded => {
                match &mut self.archive {
                    None => {
                        self.finished = true;
                        IngestAction::Finish(Ok(()))
                    },
                    Some(a) => {
                        let n = member_count(a);
                        if self.next >= n {
                            self.finished = true;
                            return IngestAction::Finish(Ok(()));
                        }
                        match read_member(a, self.next) {
                            Err(message) => {
                                self.finished = true;
                                IngestAction::Finish(Err(InternalError::new(ErrorKind::Archive, message)))
                            },
                            Ok(bytes) => match parse_member(&bytes) {
                                Ok(records) => {
                                    self.next = self.next + 1;
                                    IngestAction::StoreMember(records)
                                },
                                Err(e) => {
                                    self.finished = true;
                                    IngestAction::Finish(Err(e))
                                },
                            },
                        }
                    },
                }
            },
        }
    }
}

} // verus!
