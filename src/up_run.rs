//! Applying pending migrations, one at a time, in identifier order.
use vstd::prelude::*;
use crate::error::{ErrorKind, MigrateError};
use crate::reconcile::names_view;
use crate::scanner::{files_view, sorted_by_id, MigrationFile};
use crate::splitter::{parse_migration, split_points, up_block, well_formed};

verus! {

/// Where an up run stands with the current migration file.
#[derive(Debug, Clone, Copy, PartialEq, Eq, Structural)]
pub enum UpStage {
    /// Asking the ledger whether the current migration is applied.
    Check,
    /// Reading the current migration file.
    Load,
    /// Executing the current migration's up block.
    Execute,
    /// Recording the current migration in the ledger.
    Record,
    /// The run is over.
    Done,
}

/// What the caller is to do next for an up run.
#[derive(Debug)]
pub enum UpAction {
    /// Ask the ledger whether this identifier is applied; answer with `Checked`.
    CheckApplied(String),
    /// Read this file of the migrations directory; answer with `FileRead`.
    ReadFile(String),
    /// Execute this SQL as one batch; answer with `Executed`.
    Execute(String),
    /// Record this identifier as applied; answer with `Recorded`.
    Record(String),
    /// The run is over and every pending migration was applied.
    Finished,
    /// The run stopped on this error.
    Failed(MigrateError),
}

/// What came of the last action of an up run.
#[derive(Debug)]
pub enum UpEvent {
    /// Whether the ledger holds the identifier.
    Checked(bool),
    /// The file's text, or `None` where it could not be read.
    FileRead(Option<String>),
    /// Whether the batch executed without error.
    Executed(bool),
    /// Whether the ledger row was written.
    Recorded(bool),
}

/// The abstract form of an event, with texts as character sequences.
pub enum UpEventView {
    Checked(bool),
    FileRead(Option<Seq<char>>),
    Executed(bool),
    Recorded(bool),
}

impl View for UpEvent {
    type V = UpEventView;

    open spec fn view(&self) -> UpEventView {
        match self {
            UpEvent::Checked(b) => UpEventView::Checked(*b),
            UpEvent::FileRead(c) => UpEventView::FileRead(
                match c {
                    Some(t) => Some(t@),
                    None => None,
                },
            ),
            UpEvent::Executed(b) => UpEventView::Executed(*b),
            UpEvent::Recorded(b) => UpEventView::Recorded(*b),
        }
    }
}

/// The abstract form of an action, with texts as character sequences.
pub enum UpActionView {
    CheckApplied(Seq<char>),
    ReadFile(Seq<char>),
    Execute(Seq<char>),
    Record(Seq<char>),
    Finished,
    Failed(ErrorKind, Seq<char>),
}

impl View for UpAction {
    type V = UpActionView;

    open spec fn view(&self) -> UpActionView {
        match self {
            UpAction::CheckApplied(s) => UpActionView::CheckApplied(s@),
            UpAction::ReadFile(s) => UpActionView::ReadFile(s@),
            UpAction::Execute(s) => UpActionView::Execute(s@),
            UpAction::Record(s) => UpActionView::Record(s@),
            UpAction::Finished => UpActionView::Finished,
            UpAction::Failed(e) => UpActionView::Failed(e.kind_spec(), e.subject()),
        }
    }
}

/// The abstract state of an up run.
pub struct UpState {
    /// The discovered files, sorted, as (identifier, file name).
    pub files: Seq<(Seq<char>, Seq<char>)>,
    /// The index of the current file.
    pub pos: int,
    pub stage: UpStage,
    /// The up block of the current file, once read.
    pub sql: Seq<char>,
    /// The identifiers that this run has applied, in order.
    pub applied: Seq<Seq<char>>,
    /// The error that stopped the run, if any.
    pub failure: Option<(ErrorKind, Seq<char>)>,
}

/// The state of a run that has yet to handle file `pos`.
pub open spec fn up_at(
    files: Seq<(Seq<char>, Seq<char>)>,
    pos: int,
    applied: Seq<Seq<char>>,
) -> UpState {
    UpState {
        files,
        pos,
        stage: if pos < files.len() {
            UpStage::Check
        } else {
            UpStage::Done
        },
        sql: Seq::empty(),
        applied,
        failure: None,
    }
}

/// The state in which a run over `files` starts.
pub open spec fn up_start(files: Seq<(Seq<char>, Seq<char>)>) -> UpState {
    up_at(files, 0, Seq::empty())
}

/// The run stops with an error of `kind` about `subject`.
pub open spec fn up_halt(s: UpState, kind: ErrorKind, subject: Seq<char>) -> UpState {
    UpState { stage: UpStage::Done, failure: Some((kind, subject)), ..s }
}

/// The up block of a well-formed file text.
pub open spec fn up_sql_of(content: Seq<char>) -> Seq<char> {
    let (u, d) = choose|u: int, d: int| split_points(content, u, d);
    up_block(content, u, d)
}

/// The state after `ev`; an event that does not answer the pending action
/// changes nothing.
pub open spec fn up_next(s: UpState, ev: UpEventView) -> UpState {
    let id = s.files[s.pos].0;
    let name = s.files[s.pos].1;
    match s.stage {
        UpStage::Check => match ev {
            UpEventView::Checked(true) => up_at(s.files, s.pos + 1, s.applied),
            UpEventView::Checked(false) => UpState { stage: UpStage::Load, ..s },
            _ => s,
        },
        UpStage::Load => match ev {
            UpEventView::FileRead(Some(c)) => if well_formed(c) {
                UpState { stage: UpStage::Execute, sql: up_sql_of(c), ..s }
            } else {
                up_halt(s, ErrorKind::Format, name)
            },
            UpEventView::FileRead(None) => up_halt(s, ErrorKind::Io, name),
            _ => s,
        },
        UpStage::Execute => match ev {
            UpEventView::Executed(true) => UpState { stage: UpStage::Record, ..s },
            UpEventView::Executed(false) => up_halt(s, ErrorKind::Execution, id),
            _ => s,
        },
        UpStage::Record => match ev {
            UpEventView::Recorded(true) => up_at(s.files, s.pos + 1, s.applied.push(id)),
            UpEventView::Recorded(false) => up_halt(s, ErrorKind::Conflict, id),
            _ => s,
        },
        UpStage::Done => s,
    }
}

/// The action that a run in state `s` asks for.
pub open spec fn up_action(s: UpState) -> UpActionView {
    let id = s.files[s.pos].0;
    match s.stage {
        UpStage::Check => UpActionView::CheckApplied(id),
        UpStage::Load => UpActionView::ReadFile(s.files[s.pos].1),
        UpStage::Execute => UpActionView::Execute(s.sql),
        UpStage::Record => UpActionView::Record(id),
        UpStage::Done => match s.failure {
            Some((k, m)) => UpActionView::Failed(k, m),
            None => UpActionView::Finished,
        },
    }
}

/// The states that a run can be in.
pub open spec fn up_valid(s: UpState) -> bool {
    &&& 0 <= s.pos <= s.files.len()
    &&& s.stage != UpStage::Done ==> s.pos < s.files.len()
}

/// A copy of `e`.
pub fn copy_error(e: &MigrateError) -> (r: MigrateError)
    ensures
        r.kind_spec() == e.kind_spec(),
        r.subject() == e.subject(),
{
    match e {
        MigrateError::Format(s) => MigrateError::Format(s.clone()),
        MigrateError::Execution(s) => MigrateError::Execution(s.clone()),
        MigrateError::Conflict(s) => MigrateError::Conflict(s.clone()),
        MigrateError::Io(s) => MigrateError::Io(s.clone()),
    }
}

/// An up run over the discovered migration files.
pub struct UpRun {
    files: Vec<MigrationFile>,
    pos: usize,
    stage: UpStage,
    sql: String,
    applied: Vec<String>,
    failure: Option<MigrateError>,
}

impl View for UpRun {
    type V = UpState;

    closed spec fn view(&self) -> UpState {
        UpState {
            files: files_view(self.files@),
            pos: self.pos as int,
            stage: self.stage,
            sql: self.sql@,
            applied: names_view(self.applied@),
            failure: match self.failure {
                Some(e) => Some((e.kind_spec(), e.subject())),
                None => None,
            },
        }
    }
}

impl UpRun {
    pub closed spec fn wf(&self) -> bool {
        up_valid(self@)
    }

    /// A run over `files`, which are sorted by identifier.
    pub fn new(files: Vec<MigrationFile>) -> (r: UpRun)
        requires
            sorted_by_id(files_view(files@)),
        ensures
            r.wf(),
            r@ == up_start(files_view(files@)),
    {
        let stage = if files.len() > 0 {
            UpStage::Check
        } else {
            UpStage::Done
        };
        let r = UpRun { files, pos: 0, stage, sql: String::new(), applied: Vec::new(), failure: None };
        assert(names_view(r.applied@) =~= Seq::empty());
        r
    }

    /// The identifiers applied so far, in order.
    pub fn applied(&self) -> (r: &Vec<String>)
        ensures
            names_view(r@) == self@.applied,
    {
        &self.applied
    }

    /// What the caller is to do next.
    pub fn next_action(&self) -> (r: UpAction)
        requires
            self.wf(),
        ensures
            r@ == up_action(self@),
    {
        match self.stage {
            UpStage::Check => UpAction::CheckApplied(self.files[self.pos].identifier.clone()),
            UpStage::Load => UpAction::ReadFile(self.files[self.pos].file_name.clone()),
            UpStage::Execute => UpAction::Execute(self.sql.clone()),
            UpStage::Record => UpAction::Record(self.files[self.pos].identifier.clone()),
            UpStage::Done => match &self.failure {
                Some(e) => UpAction::Failed(copy_error(e)),
                None => UpAction::Finished,
            },
        }
    }

    fn move_on(&mut self)
        requires
            old(self).wf(),
            old(self).stage != UpStage::Done,
        ensures
            final(self)@ == up_at(old(self)@.files, old(self)@.pos + 1, old(self)@.applied),
            final(self).wf(),
    {
        let n = self.files.len();
        assert(self.pos < files_view(self.files@).len() == n);
        self.pos = self.pos + 1;
        self.sql = String::new();
        self.failure = None;
        self.stage = if self.pos < self.files.len() {
            UpStage::Check
        } else {
            UpStage::Done
        };
    }

    fn halt(&mut self, e: MigrateError)
        requires
            old(self).wf(),
        ensures
            final(self)@ == up_halt(old(self)@, e.kind_spec(), e.subject()),
            final(self).wf(),
    {
        self.stage = UpStage::Done;
        self.failure = Some(e);
    }

    /// Hands the run what came of its last action.
    pub fn on_event(&mut self, ev: UpEvent)
        requires
            old(self).wf(),
        ensures
            final(self).wf(),
            final(self)@ == up_next(old(self)@, ev@),
    {
        match self.stage {
            UpStage::Check => match ev {
                UpEvent::Checked(true) => self.move_on(),
                UpEvent::Checked(false) => {
                    self.stage = UpStage::Load;
                },
                _ => {},
            },
            UpStage::Load => match ev {
                UpEvent::FileRead(Some(c)) => {
                    let name = self.files[self.pos].file_name.clone();
                    match parse_migration(name.as_str(), c.as_str()) {
                        Ok(m) => {
                            proof {
                                let (u, d) = choose|u: int, d: int| split_points(c@, u, d);
                                assert(split_points(c@, u, d));
                            }
                            self.sql = m.up_sql;
                            self.stage = UpStage::Execute;
                        },
                        Err(_) => self.halt(MigrateError::Format(name)),
                    }
                },
                UpEvent::FileRead(None) => {
                    let name = self.files[self.pos].file_name.clone();
                    self.halt(MigrateError::Io(name));
                },
                _ => {},
            },
            UpStage::Execute => match ev {
                UpEvent::Executed(true) => {
                    self.stage = UpStage::Record;
                },
                UpEvent::Executed(false) => {
                    let id = self.files[self.pos].identifier.clone();
                    self.halt(MigrateError::Execution(id));
                },
                _ => {},
            },
            UpStage::Record => match ev {
                UpEvent::Recorded(true) => {
                    let id = self.files[self.pos].identifier.clone();
                    let ghost before = names_view(self.applied@);
                    self.applied.push(id);
                    assert(names_view(self.applied@) =~= before.push(id@));
                    self.move_on();
                },
                UpEvent::Recorded(false) => {
                    let id = self.files[self.pos].identifier.clone();
                    self.halt(MigrateError::Conflict(id));
                },
                _ => {},
            },
            UpStage::Done => {},
        }
    }
}

} // verus!
