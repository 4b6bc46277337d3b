//! Reverting the most recently applied migrations, newest first.
use vstd::prelude::*;
use crate::error::{ErrorKind, MigrateError};
use crate::reconcile::names_view;
use crate::scanner::{files_view, MigrationFile};
use crate::splitter::{down_block, parse_migration, split_points, well_formed};
use crate::up_run::copy_error;

verus! {

/// The step value that asks to revert every applied migration.
pub const REVERT_ALL: i32 = -1;

/// How many migrations a step parameter asks to revert, out of `n` applied.
///
/// No step means one; the sentinel `REVERT_ALL` means all `n`; a positive step
/// means that many. Any other value (zero, or a negative other than the sentinel)
/// is taken leniently as the default of one rather than rejected.
pub open spec fn rollback_count_spec(step: Option<i32>, n: nat) -> nat {
    match step {
        Some(v) => if v == REVERT_ALL {
            n
        } else if v > 0 {
            v as nat
        } else {
            1
        },
        None => 1,
    }
}

/// How many migrations a step parameter asks to revert, out of `n` applied.
pub fn rollback_count(step: Option<i32>, n: usize) -> (r: usize)
    ensures
        r == rollback_count_spec(step, n as nat),
{
    match step {
        Some(v) => if v == REVERT_ALL {
            n
        } else if v > 0 {
            v as usize
        } else {
            1
        },
        None => 1,
    }
}

/// The file name of the first of `files` whose identifier is `id`.
pub open spec fn resolve(files: Seq<(Seq<char>, Seq<char>)>, id: Seq<char>) -> Option<Seq<char>>
    decreases files.len(),
{
    if files.len() == 0 {
        None
    } else if files[0].0 == id {
        Some(files[0].1)
    } else {
        resolve(files.drop_first(), id)
    }
}

/// The migrations a down run reverts, newest first, each with its file name where
/// a discovered file has its identifier.
pub open spec fn down_targets(
    applied_desc: Seq<Seq<char>>,
    step: Option<i32>,
    files: Seq<(Seq<char>, Seq<char>)>,
) -> Seq<(Seq<char>, Option<Seq<char>>)> {
    let k = rollback_count_spec(step, applied_desc.len());
    let n = if k < applied_desc.len() {
        k as int
    } else {
        applied_desc.len() as int
    };
    applied_desc.take(n).map_values(|id: Seq<char>| (id, resolve(files, id)))
}

/// Where a down run stands with the current migration.
#[derive(Debug, Clone, Copy, PartialEq, Eq, Structural)]
pub enum DownStage {
    /// Reading the current migration's file.
    Load,
    /// Executing its down block.
    Execute,
    /// Deleting its ledger row.
    Revert,
    /// The run is over.
    Done,
}

/// What the caller is to do next for a down run.
#[derive(Debug)]
pub enum DownAction {
    /// Read this file of the migrations directory; answer with `FileRead`.
    ReadFile(String),
    /// No file has this identifier: warn, and answer with `FileRead(None)`.
    ReportMissing(String),
    /// Execute this SQL as one batch; answer with `Executed`.
    Execute(String),
    /// Delete this identifier's ledger row; answer with `Reverted`.
    Revert(String),
    /// The run is over.
    Finished,
    /// The run stopped on this error.
    Failed(MigrateError),
}

/// What came of the last action of a down run.
#[derive(Debug)]
pub enum DownEvent {
    /// The file's text, or `None` where it is not on disk.
    FileRead(Option<String>),
    /// Whether the batch executed without error.
    Executed(bool),
    /// Whether the ledger row was deleted.
    Reverted(bool),
}

/// The abstract form of an event, with texts as character sequences.
pub enum DownEventView {
    FileRead(Option<Seq<char>>),
    Executed(bool),
    Reverted(bool),
}

impl View for DownEvent {
    type V = DownEventView;

    open spec fn view(&self) -> DownEventView {
        match self {
            DownEvent::FileRead(c) => DownEventView::FileRead(
                match c {
                    Some(t) => Some(t@),
                    None => None,
                },
            ),
            DownEvent::Executed(b) => DownEventView::Executed(*b),
            DownEvent::Reverted(b) => DownEventView::Reverted(*b),
        }
    }
}

/// The abstract form of an action, with texts as character sequences.
pub enum DownActionView {
    ReadFile(Seq<char>),
    ReportMissing(Seq<char>),
    Execute(Seq<char>),
    Revert(Seq<char>),
    Finished,
    Failed(ErrorKind, Seq<char>),
}

impl View for DownAction {
    type V = DownActionView;

    open spec fn view(&self) -> DownActionView {
        match self {
            DownAction::ReadFile(s) => DownActionView::ReadFile(s@),
            DownAction::ReportMissing(s) => DownActionView::ReportMissing(s@),
            DownAction::Execute(s) => DownActionView::Execute(s@),
            DownAction::Revert(s) => DownActionView::Revert(s@),
            DownAction::Finished => DownActionView::Finished,
            DownAction::Failed(e) => DownActionView::Failed(e.kind_spec(), e.subject()),
        }
    }
}

/// The abstract state of a down run.
pub struct DownState {
    /// The migrations to revert, newest first, with their file names if found.
    pub targets: Seq<(Seq<char>, Option<Seq<char>>)>,
    /// The index of the current target.
    pub pos: int,
    pub stage: DownStage,
    /// The down block of the current target, once read.
    pub sql: Seq<char>,
    /// The identifiers reverted so far, in order.
    pub reverted: Seq<Seq<char>>,
    /// The identifiers skipped because their file is missing, in order.
    pub skipped: Seq<Seq<char>>,
    /// The error that stopped the run, if any.
    pub failure: Option<(ErrorKind, Seq<char>)>,
}

/// The state of a run that has yet to handle target `pos`.
pub open spec fn down_at(
    targets: Seq<(Seq<char>, Option<Seq<char>>)>,
    pos: int,
    reverted: Seq<Seq<char>>,
    skipped: Seq<Seq<char>>,
) -> DownState {
    DownState {
        targets,
        pos,
        stage: if pos < targets.len() {
            DownStage::Load
        } else {
            DownStage::Done
        },
        sql: Seq::empty(),
        reverted,
        skipped,
        failure: None,
    }
}

/// The run stops with an error of `kind` about `subject`.
pub open spec fn down_halt(s: DownState, kind: ErrorKind, subject: Seq<char>) -> DownState {
    DownState { stage: DownStage::Done, failure: Some((kind, subject)), ..s }
}

/// The down block of a well-formed file text.
pub open spec fn down_sql_of(content: Seq<char>) -> Seq<char> {
    let (u, d) = choose|u: int, d: int| split_points(content, u, d);
    down_block(content, d)
}

/// The state after `ev`; an event that does not answer the pending action
/// changes nothing.
pub open spec fn down_next(s: DownState, ev: DownEventView) -> DownState {
    let id = s.targets[s.pos].0;
    let file = s.targets[s.pos].1;
    match s.stage {
        DownStage::Load => match ev {
            DownEventView::FileRead(Some(c)) => match file {
                Some(name) => if well_formed(c) {
                    DownState { stage: DownStage::Execute, sql: down_sql_of(c), ..s }
                } else {
                    down_halt(s, ErrorKind::Format, name)
                },
                None => down_at(s.targets, s.pos + 1, s.reverted, s.skipped.push(id)),
            },
            DownEventView::FileRead(None) => down_at(
                s.targets,
                s.pos + 1,
                s.reverted,
                s.skipped.push(id),
            ),
            _ => s,
        },
        DownStage::Execute => match ev {
            DownEventView::Executed(true) => DownState { stage: DownStage::Revert, ..s },
            DownEventView::Executed(false) => down_halt(s, ErrorKind::Execution, id),
            _ => s,
        },
        DownStage::Revert => match ev {
            DownEventView::Reverted(true) => down_at(
                s.targets,
                s.pos + 1,
                s.reverted.push(id),
                s.skipped,
            ),
            DownEventView::Reverted(false) => down_halt(s, ErrorKind::Conflict, id),
            _ => s,
        },
        DownStage::Done => s,
    }
}

/// The action that a run in state `s` asks for.
pub open spec fn down_action(s: DownState) -> DownActionView {
    let id = s.targets[s.pos].0;
    match s.stage {
        DownStage::Load => match s.targets[s.pos].1 {
            Some(name) => DownActionView::ReadFile(name),
            None => DownActionView::ReportMissing(id),
        },
        DownStage::Execute => DownActionView::Execute(s.sql),
        DownStage::Revert => DownActionView::Revert(id),
        DownStage::Done => match s.failure {
            Some((k, m)) => DownActionView::Failed(k, m),
            None => DownActionView::Finished,
        },
    }
}

/// The states that a run can be in.
pub open spec fn down_valid(s: DownState) -> bool {
    &&& 0 <= s.pos <= s.targets.len()
    &&& s.stage != DownStage::Done ==> s.pos < s.targets.len()
}

/// One migration to revert.
struct Target {
    identifier: String,
    file_name: Option<String>,
}

spec fn target_view(t: Target) -> (Seq<char>, Option<Seq<char>>) {
    (
        t.identifier@,
        match t.file_name {
            Some(n) => Some(n@),
            None => None,
        },
    )
}

/// A down run.
pub struct DownRun {
    targets: Vec<Target>,
    pos: usize,
    stage: DownStage,
    sql: String,
    reverted: Vec<String>,
    skipped: Vec<String>,
    failure: Option<MigrateError>,
}

impl View for DownRun {
    type V = DownState;

    closed spec fn view(&self) -> DownState {
        DownState {
            targets: self.targets@.map_values(|t: Target| target_view(t)),
            pos: self.pos as int,
            stage: self.stage,
            sql: self.sql@,
            reverted: names_view(self.reverted@),
            skipped: names_view(self.skipped@),
            failure: match self.failure {
                Some(e) => Some((e.kind_spec(), e.subject())),
                None => None,
            },
        }
    }
}

/// The file name of the first of `files` whose identifier is `id`.
fn resolve_exec(files: &Vec<MigrationFile>, id: &String) -> (r: Option<String>)
    ensures
        match r {
            Some(n) => resolve(files_view(files@), id@) == Some(n@),
            None => resolve(files_view(files@), id@) is None,
        },
{
    let mut i: usize = 0;
    assert(files_view(files@).skip(0) =~= files_view(files@));
    while i < files.len()
        invariant
            i <= files@.len(),
            resolve(files_view(files@), id@) == resolve(files_view(files@).skip(i as int), id@),
        decreases files@.len() - i,
    {
        assert(files_view(files@).skip(i as int).drop_first() =~= files_view(files@).skip(i + 1));
        if files[i].identifier == *id {
            return Some(files[i].file_name.clone());
        }
        i += 1;
    }
    None
}

impl DownRun {
    pub closed spec fn wf(&self) -> bool {
        down_valid(self@)
    }

    /// A run that reverts, newest first, the migrations that `step` asks for
    /// out of `applied_desc` (the ledger's names, most recently applied first),
    /// finding their files among the discovered `files`.
    pub fn new(applied_desc: &Vec<String>, step: Option<i32>, files: &Vec<MigrationFile>) -> (r: DownRun)
        ensures
            r.wf(),
            r@ == down_at(
                down_targets(names_view(applied_desc@), step, files_view(files@)),
                0,
                Seq::empty(),
                Seq::empty(),
            ),
    {
        let k = rollback_count(step, applied_desc.len());
        let n = if k < applied_desc.len() {
            k
        } else {
            applied_desc.len()
        };
        let ghost want = down_targets(names_view(applied_desc@), step, files_view(files@));
        let mut targets: Vec<Target> = Vec::new();
        let mut i: usize = 0;
        while i < n
            invariant
                n <= applied_desc@.len(),
                i <= n,
                want.len() == n,
                want == names_view(applied_desc@).take(n as int).map_values(
                    |id: Seq<char>| (id, resolve(files_view(files@), id)),
                ),
                targets@.len() == i,
                forall|j: int| 0 <= j < i ==> target_view(#[trigger] targets@[j]) == want[j],
            decreases n - i,
        {
            let id = applied_desc[i].clone();
            let file_name = resolve_exec(files, &id);
            targets.push(Target { identifier: id, file_name });
            i += 1;
        }
        let stage = if n > 0 {
            DownStage::Load
        } else {
            DownStage::Done
        };
        let r = DownRun {
            targets,
            pos: 0,
            stage,
            sql: String::new(),
            reverted: Vec::new(),
            skipped: Vec::new(),
            failure: None,
        };
        assert(r@.targets =~= want);
        assert(names_view(r.reverted@) =~= Seq::empty());
        assert(names_view(r.skipped@) =~= Seq::empty());
        r
    }

    /// How many migrations the run is to revert.
    pub fn target_count(&self) -> (r: usize)
        ensures
            r == self@.targets.len(),
    {
        self.targets.len()
    }

    /// The identifiers reverted so far, in order.
    pub fn reverted(&self) -> (r: &Vec<String>)
        ensures
            names_view(r@) == self@.reverted,
    {
        &self.reverted
    }

    /// The identifiers skipped so far for want of a file, in order.
    pub fn skipped(&self) -> (r: &Vec<String>)
        ensures
            names_view(r@) == self@.skipped,
    {
        &self.skipped
    }

    /// What the caller is to do next.
    pub fn next_action(&self) -> (r: DownAction)
        requires
            self.wf(),
        ensures
            r@ == down_action(self@),
    {
        match self.stage {
            DownStage::Load => {
                let t = &self.targets[self.pos];
                match &t.file_name {
                    Some(n) => DownAction::ReadFile(n.clone()),
                    None => DownAction::ReportMissing(t.identifier.clone()),
                }
            },
            DownStage::Execute => DownAction::Execute(self.sql.clone()),
            DownStage::Revert => DownAction::Revert(self.targets[self.pos].identifier.clone()),
            DownStage::Done => match &self.failure {
                Some(e) => DownAction::Failed(copy_error(e)),
                None => DownAction::Finished,
            },
        }
    }

    fn move_on(&mut self)
        requires
            old(self).wf(),
            old(self).stage != DownStage::Done,
        ensures
            final(self)@ == down_at(
                old(self)@.targets,
                old(self)@.pos + 1,
                old(self)@.reverted,
                old(self)@.skipped,
            ),
            final(self).wf(),
    {
        let n = self.targets.len();
        assert(self.pos < self@.targets.len() == n);
        self.pos = self.pos + 1;
        self.sql = String::new();
        self.failure = None;
        self.stage = if self.pos < self.targets.len() {
            DownStage::Load
        } else {
            DownStage::Done
        };
    }

    fn halt(&mut self, e: MigrateError)
        requires
            old(self).wf(),
        ensures
            final(self)@ == down_halt(old(self)@, e.kind_spec(), e.subject()),
            final(self).wf(),
    {
        self.stage = DownStage::Done;
        self.failure = Some(e);
    }

    fn skip_current(&mut self)
        requires
            old(self).wf(),
            old(self).stage != DownStage::Done,
        ensures
            final(self)@ == down_at(
                old(self)@.targets,
                old(self)@.pos + 1,
                old(self)@.reverted,
                old(self)@.skipped.push(old(self)@.targets[old(self)@.pos].0),
            ),
            final(self).wf(),
    {
        let id = self.targets[self.pos].identifier.clone();
        let ghost before = names_view(self.skipped@);
        self.skipped.push(id);
        assert(names_view(self.skipped@) =~= before.push(id@));
        self.move_on();
    }

    /// Hands the run what came of its last action.
    pub fn on_event(&mut self, ev: DownEvent)
        requires
            old(self).wf(),
        ensures
            final(self).wf(),
            final(self)@ == down_next(old(self)@, ev@),
    {
        match self.stage {
            DownStage::Load => match ev {
                DownEvent::FileRead(Some(c)) => {
                    match &self.targets[self.pos].file_name {
                        Some(name) => {
                            let name = name.clone();
                            match parse_migration(name.as_str(), c.as_str()) {
                                Ok(m) => {
                                    proof {
                                        let (u, d) = choose|u: int, d: int| split_points(c@, u, d);
                                        assert(split_points(c@, u, d));
                                    }
                                    self.sql = m.down_sql;
                                    self.stage = DownStage::Execute;
                                },
                                Err(_) => self.halt(MigrateError::Format(name)),
                            }
                        },
                        None => self.skip_current(),
                    }
                },
                DownEvent::FileRead(None) => self.skip_current(),
                _ => {},
            },
            DownStage::Execute => match ev {
                DownEvent::Executed(true) => {
                    self.stage = DownStage::Revert;
                },
                DownEvent::Executed(false) => {
                    let id = self.targets[self.pos].identifier.clone();
                    self.halt(MigrateError::Execution(id));
                },
                _ => {},
            },
            DownStage::Revert => match ev {
                DownEvent::Reverted(true) => {
                    let id = self.targets[self.pos].identifier.clone();
                    let ghost before = names_view(self.reverted@);
                    self.reverted.push(id);
                    assert(names_view(self.reverted@) =~= before.push(id@));
                    self.move_on();
                },
                DownEvent::Reverted(false) => {
                    let id = self.targets[self.pos].identifier.clone();
                    self.halt(MigrateError::Conflict(id));
                },
                _ => {},
            },
            DownStage::Done => {},
        }
    }
}

} // verus!
