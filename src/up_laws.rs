//! What an up run does against a ledger, a migrations directory and a database
//! that answer its actions faithfully.
use vstd::prelude::*;
use crate::error::ErrorKind;
use crate::splitter::well_formed;
use crate::up_run::{up_at, up_next, up_sql_of, up_start, UpEventView, UpStage, UpState};

verus! {

/// The outside world of an up run.
pub struct UpWorld {
    /// The identifiers that the ledger holds.
    pub ledger: Set<Seq<char>>,
    /// The migrations directory: file name to text.
    pub disk: Map<Seq<char>, Seq<char>>,
    /// The identifiers whose up block the database rejects.
    pub broken: Set<Seq<char>>,
    /// The batches handed to the database so far, in order.
    pub executed: Seq<Seq<char>>,
}

/// The world's answer to the action of `s`.
pub open spec fn up_answer(s: UpState, w: UpWorld) -> UpEventView {
    let id = s.files[s.pos].0;
    let name = s.files[s.pos].1;
    match s.stage {
        UpStage::Check => UpEventView::Checked(w.ledger.contains(id)),
        UpStage::Load => UpEventView::FileRead(
            if w.disk.contains_key(name) {
                Some(w.disk[name])
            } else {
                None
            },
        ),
        UpStage::Execute => UpEventView::Executed(!w.broken.contains(id)),
        UpStage::Record => UpEventView::Recorded(!w.ledger.contains(id)),
        UpStage::Done => UpEventView::Checked(false),
    }
}

/// The world after it performs the action of `s`: executing hands the batch
/// to the database, recording adds a ledger row.
pub open spec fn up_effect(s: UpState, w: UpWorld) -> UpWorld {
    if s.stage == UpStage::Execute {
        UpWorld { executed: w.executed.push(s.sql), ..w }
    } else if s.stage == UpStage::Record && !w.ledger.contains(s.files[s.pos].0) {
        UpWorld { ledger: w.ledger.insert(s.files[s.pos].0), ..w }
    } else {
        w
    }
}

/// The up blocks that applying `files` in order hands to the database, with
/// `ledger` applied before and `disk` the directory.
pub open spec fn up_batches(
    files: Seq<(Seq<char>, Seq<char>)>,
    ledger: Set<Seq<char>>,
    disk: Map<Seq<char>, Seq<char>>,
) -> Seq<Seq<char>>
    decreases files.len(),
{
    if files.len() == 0 {
        Seq::empty()
    } else if ledger.contains(files[0].0) {
        up_batches(files.drop_first(), ledger, disk)
    } else {
        seq![up_sql_of(disk[files[0].1])] + up_batches(
            files.drop_first(),
            ledger.insert(files[0].0),
            disk,
        )
    }
}

/// The run and the world after at most `fuel` actions.
pub open spec fn up_drive(s: UpState, w: UpWorld, fuel: nat) -> (UpState, UpWorld)
    decreases fuel,
{
    if fuel == 0 || s.stage == UpStage::Done {
        (s, w)
    } else {
        up_drive(up_next(s, up_answer(s, w)), up_effect(s, w), (fuel - 1) as nat)
    }
}

/// A complete up run over `files` in world `w`.
pub open spec fn up_run(files: Seq<(Seq<char>, Seq<char>)>, w: UpWorld) -> (UpState, UpWorld) {
    up_drive(up_start(files), w, 4 * files.len())
}

/// The error on which applying file `f` stops, if it does.
pub open spec fn up_failure(w: UpWorld, f: (Seq<char>, Seq<char>)) -> Option<(ErrorKind, Seq<char>)> {
    if !w.disk.contains_key(f.1) {
        Some((ErrorKind::Io, f.1))
    } else if !well_formed(w.disk[f.1]) {
        Some((ErrorKind::Format, f.1))
    } else if w.broken.contains(f.0) {
        Some((ErrorKind::Execution, f.0))
    } else {
        None
    }
}

/// File `f` is applied, or would apply without error.
pub open spec fn up_fine(w: UpWorld, f: (Seq<char>, Seq<char>)) -> bool {
    w.ledger.contains(f.0) || up_failure(w, f) is None
}

/// The identifiers of `files`.
pub open spec fn id_set(files: Seq<(Seq<char>, Seq<char>)>) -> Set<Seq<char>>
    decreases files.len(),
{
    if files.len() == 0 {
        Set::empty()
    } else {
        id_set(files.drop_first()).insert(files[0].0)
    }
}

/// The identifiers that applying `files` in order adds to `ledger`, in order.
pub open spec fn newly_applied(files: Seq<(Seq<char>, Seq<char>)>, ledger: Set<Seq<char>>) -> Seq<
    Seq<char>,
>
    decreases files.len(),
{
    if files.len() == 0 {
        Seq::empty()
    } else if ledger.contains(files[0].0) {
        newly_applied(files.drop_first(), ledger)
    } else {
        seq![files[0].0] + newly_applied(files.drop_first(), ledger.insert(files[0].0))
    }
}

proof fn lemma_drive_step(s: UpState, w: UpWorld, fuel: nat)
    requires
        fuel > 0,
        s.stage != UpStage::Done,
    ensures
        up_drive(s, w, fuel) == up_drive(up_next(s, up_answer(s, w)), up_effect(s, w), (fuel - 1) as nat),
{
}

/// Applying file `p`, which is not in the ledger and has no fault, takes four
/// actions and records it.
proof fn lemma_apply_one(
    files: Seq<(Seq<char>, Seq<char>)>,
    p: int,
    applied: Seq<Seq<char>>,
    w: UpWorld,
    fuel: nat,
)
    requires
        0 <= p < files.len(),
        fuel >= 4,
        !w.ledger.contains(files[p].0),
        up_failure(w, files[p]) is None,
    ensures
        up_drive(up_at(files, p, applied), w, fuel) == up_drive(
            up_at(files, p + 1, applied.push(files[p].0)),
            UpWorld {
                ledger: w.ledger.insert(files[p].0),
                executed: w.executed.push(up_sql_of(w.disk[files[p].1])),
                ..w
            },
            (fuel - 4) as nat,
        ),
{
    let s = up_at(files, p, applied);
    let f = files[p];
    let c = w.disk[f.1];
    lemma_drive_step(s, w, fuel);
    let s1 = UpState { stage: UpStage::Load, ..s };
    assert(up_next(s, up_answer(s, w)) == s1);
    lemma_drive_step(s1, w, (fuel - 1) as nat);
    let s2 = UpState { stage: UpStage::Execute, sql: crate::up_run::up_sql_of(c), ..s1 };
    assert(up_next(s1, up_answer(s1, w)) == s2);
    lemma_drive_step(s2, w, (fuel - 2) as nat);
    let s3 = UpState { stage: UpStage::Record, ..s2 };
    let w3 = UpWorld { executed: w.executed.push(up_sql_of(c)), ..w };
    assert(up_next(s2, up_answer(s2, w)) == s3);
    assert(up_effect(s2, w) == w3);
    lemma_drive_step(s3, w3, (fuel - 3) as nat);
    assert(up_effect(s3, w3) == UpWorld {
        ledger: w.ledger.insert(f.0),
        executed: w.executed.push(up_sql_of(c)),
        ..w
    });
    assert(up_next(s3, up_answer(s3, w3)) == up_at(files, p + 1, applied.push(f.0)));
}

/// From file `p` on, a run over fine files applies each one that is not yet in
/// the ledger, and stops at the end without error.
proof fn lemma_up_completes(
    files: Seq<(Seq<char>, Seq<char>)>,
    p: int,
    applied: Seq<Seq<char>>,
    w: UpWorld,
    fuel: nat,
)
    requires
        0 <= p <= files.len(),
        fuel >= 4 * (files.len() - p),
        forall|i: int| p <= i < files.len() ==> up_fine(w, #[trigger] files[i]),
    ensures
        ({
            let (s2, w2) = up_drive(up_at(files, p, applied), w, fuel);
            &&& s2 == up_at(files, files.len() as int, applied + newly_applied(files.skip(p), w.ledger))
            &&& w2 == UpWorld {
                ledger: w.ledger + id_set(files.skip(p)),
                executed: w.executed + up_batches(files.skip(p), w.ledger, w.disk),
                ..w
            }
        }),
    decreases files.len() - p,
{
    let s = up_at(files, p, applied);
    let rest = files.skip(p);
    if p == files.len() {
        assert(rest =~= Seq::empty());
        assert(applied + Seq::empty() =~= applied);
        assert(w.ledger + Set::empty() =~= w.ledger);
        assert(w.executed + Seq::empty() =~= w.executed);
        assert(UpWorld { ledger: w.ledger, executed: w.executed, ..w } == w);
        return;
    }
    assert(rest.drop_first() =~= files.skip(p + 1));
    assert(rest[0] == files[p]);
    let f = files[p];
    if w.ledger.contains(f.0) {
        lemma_drive_step(s, w, fuel);
        lemma_up_completes(files, p + 1, applied, w, (fuel - 1) as nat);
        assert(w.ledger + id_set(files.skip(p + 1)) =~= w.ledger + id_set(rest));
    } else {
        let w4 = UpWorld {
            ledger: w.ledger.insert(f.0),
            executed: w.executed.push(up_sql_of(w.disk[f.1])),
            ..w
        };
        lemma_apply_one(files, p, applied, w, fuel);
        assert forall|i: int| p + 1 <= i < files.len() implies up_fine(w4, #[trigger] files[i]) by {
            assert(up_fine(w, files[i]));
        }
        lemma_up_completes(files, p + 1, applied.push(f.0), w4, (fuel - 4) as nat);
        assert(w4.executed + up_batches(files.skip(p + 1), w4.ledger, w.disk) =~= w.executed
            + up_batches(rest, w.ledger, w.disk));
        assert(applied.push(f.0) + newly_applied(files.skip(p + 1), w4.ledger) =~= applied
            + newly_applied(rest, w.ledger));
        assert(w4.ledger + id_set(files.skip(p + 1)) =~= w.ledger + id_set(rest));
    }
}

/// From file `p` on, a run over fine files up to file `b`, which is not applied
/// and has a fault, applies those before `b` and stops on `b`'s fault.
proof fn lemma_up_stops(
    files: Seq<(Seq<char>, Seq<char>)>,
    p: int,
    b: int,
    applied: Seq<Seq<char>>,
    w: UpWorld,
    fuel: nat,
)
    requires
        0 <= p <= b < files.len(),
        fuel >= 4 * (b - p) + 4,
        forall|i: int| p <= i < b ==> up_fine(w, #[trigger] files[i]),
        !w.ledger.contains(files[b].0),
        !id_set(files.subrange(p, b)).contains(files[b].0),
        up_failure(w, files[b]) is Some,
    ensures
        ({
            let (s2, w2) = up_drive(up_at(files, p, applied), w, fuel);
            &&& s2.stage == UpStage::Done
            &&& s2.pos == b
            &&& s2.failure == up_failure(w, files[b])
            &&& s2.applied == applied + newly_applied(files.subrange(p, b), w.ledger)
            &&& w2.ledger == w.ledger + id_set(files.subrange(p, b))
            &&& w2.executed == w.executed + up_batches(files.subrange(p, b), w.ledger, w.disk) + (
            if up_failure(w, files[b]) == Some((ErrorKind::Execution, files[b].0)) {
                seq![up_sql_of(w.disk[files[b].1])]
            } else {
                Seq::empty()
            })
        }),
    decreases b - p,
{
    let s = up_at(files, p, applied);
    let mid = files.subrange(p, b);
    let f = files[p];
    if p == b {
        assert(mid =~= Seq::empty());
        assert(applied + Seq::empty() =~= applied);
        assert(w.ledger + Set::empty() =~= w.ledger);
        let c = w.disk[f.1];
        lemma_drive_step(s, w, fuel);
        let s1 = UpState { stage: UpStage::Load, ..s };
        assert(up_next(s, up_answer(s, w)) == s1);
        lemma_drive_step(s1, w, (fuel - 1) as nat);
        if !w.disk.contains_key(f.1) || !well_formed(c) {
            assert(w.executed + Seq::empty() + Seq::empty() =~= w.executed);
            return;
        }
        let s2 = UpState { stage: UpStage::Execute, sql: crate::up_run::up_sql_of(c), ..s1 };
        assert(up_next(s1, up_answer(s1, w)) == s2);
        lemma_drive_step(s2, w, (fuel - 2) as nat);
        assert(w.executed + Seq::empty() + seq![up_sql_of(c)] =~= w.executed.push(up_sql_of(c)));
        return;
    }
    assert(mid.drop_first() =~= files.subrange(p + 1, b));
    assert(mid[0] == f);
    assert(!id_set(files.subrange(p + 1, b)).contains(files[b].0));
    if w.ledger.contains(f.0) {
        lemma_drive_step(s, w, fuel);
        lemma_up_stops(files, p + 1, b, applied, w, (fuel - 1) as nat);
        assert(w.ledger + id_set(files.subrange(p + 1, b)) =~= w.ledger + id_set(mid));
        assert(up_batches(files.subrange(p + 1, b), w.ledger, w.disk) == up_batches(mid, w.ledger, w.disk));
    } else {
        let w4 = UpWorld {
            ledger: w.ledger.insert(f.0),
            executed: w.executed.push(up_sql_of(w.disk[f.1])),
            ..w
        };
        lemma_apply_one(files, p, applied, w, fuel);
        assert forall|i: int| p + 1 <= i < b implies up_fine(w4, #[trigger] files[i]) by {
            assert(up_fine(w, files[i]));
        }
        assert(f.0 != files[b].0);
        lemma_up_stops(files, p + 1, b, applied.push(f.0), w4, (fuel - 4) as nat);
        assert(up_failure(w4, files[b]) == up_failure(w, files[b]));
        assert(w4.executed + up_batches(files.subrange(p + 1, b), w4.ledger, w.disk) =~= w.executed
            + up_batches(mid, w.ledger, w.disk));
        assert(applied.push(f.0) + newly_applied(files.subrange(p + 1, b), w4.ledger) =~= applied
            + newly_applied(mid, w.ledger));
        assert(w4.ledger + id_set(files.subrange(p + 1, b)) =~= w.ledger + id_set(mid));
    }
}

proof fn lemma_id_set_has(files: Seq<(Seq<char>, Seq<char>)>, i: int)
    requires
        0 <= i < files.len(),
    ensures
        id_set(files).contains(files[i].0),
    decreases files.len(),
{
    if i > 0 {
        lemma_id_set_has(files.drop_first(), i - 1);
    }
}

proof fn lemma_nothing_new(
    files: Seq<(Seq<char>, Seq<char>)>,
    ledger: Set<Seq<char>>,
    disk: Map<Seq<char>, Seq<char>>,
)
    requires
        id_set(files).subset_of(ledger),
    ensures
        newly_applied(files, ledger) == Seq::<Seq<char>>::empty(),
        up_batches(files, ledger, disk) == Seq::<Seq<char>>::empty(),
    decreases files.len(),
{
    if files.len() > 0 {
        assert(id_set(files.drop_first()).subset_of(ledger));
        lemma_nothing_new(files.drop_first(), ledger, disk);
    }
}

/// A run from file `p` that ends without error has finished, kept every
/// ledger row, and left every identifier from `p` on in the ledger.
proof fn lemma_ok_run_covers(
    files: Seq<(Seq<char>, Seq<char>)>,
    p: int,
    applied: Seq<Seq<char>>,
    w: UpWorld,
    fuel: nat,
)
    requires
        0 <= p <= files.len(),
        fuel >= 4 * (files.len() - p),
    ensures
        ({
            let (s2, w2) = up_drive(up_at(files, p, applied), w, fuel);
            s2.failure is None ==> {
                &&& s2.stage == UpStage::Done
                &&& w.ledger.subset_of(w2.ledger)
                &&& id_set(files.skip(p)).subset_of(w2.ledger)
                &&& w2.disk == w.disk
            }
        }),
    decreases files.len() - p,
{
    let s = up_at(files, p, applied);
    let rest = files.skip(p);
    if p == files.len() {
        assert(rest =~= Seq::empty());
        return;
    }
    assert(rest.drop_first() =~= files.skip(p + 1));
    assert(rest[0] == files[p]);
    let f = files[p];
    lemma_drive_step(s, w, fuel);
    if w.ledger.contains(f.0) {
        lemma_ok_run_covers(files, p + 1, applied, w, (fuel - 1) as nat);
    } else if up_failure(w, f) is None {
        let w4 = UpWorld {
            ledger: w.ledger.insert(f.0),
            executed: w.executed.push(up_sql_of(w.disk[f.1])),
            ..w
        };
        lemma_apply_one(files, p, applied, w, fuel);
        lemma_ok_run_covers(files, p + 1, applied.push(f.0), w4, (fuel - 4) as nat);
    } else {
        let c = w.disk[f.1];
        let s1 = UpState { stage: UpStage::Load, ..s };
        assert(up_next(s, up_answer(s, w)) == s1);
        lemma_drive_step(s1, w, (fuel - 1) as nat);
        if w.disk.contains_key(f.1) && well_formed(c) {
            let s2 = UpState { stage: UpStage::Execute, sql: up_sql_of(c), ..s1 };
            assert(up_next(s1, up_answer(s1, w)) == s2);
            lemma_drive_step(s2, w, (fuel - 2) as nat);
        }
    }
}

/// Running up twice in a row, with no new files, applies nothing the second
/// time: when the first run ends without error, the second run finishes
/// without error, applies no migration, hands no batch to the database and
/// leaves the ledger as the first run left it.
pub proof fn lemma_up_idempotent(files: Seq<(Seq<char>, Seq<char>)>, w: UpWorld)
    ensures
        ({
            let (s1, w1) = up_run(files, w);
            let (s2, w2) = up_run(files, w1);
            s1.failure is None ==> {
                &&& s1.stage == UpStage::Done
                &&& s2.stage == UpStage::Done && s2.failure is None
                &&& s2.applied == Seq::<Seq<char>>::empty()
                &&& w2 == w1
            }
        }),
{
    assert(files.skip(0) =~= files);
    lemma_ok_run_covers(files, 0, Seq::empty(), w, 4 * files.len());
    let (s1, w1) = up_run(files, w);
    if s1.failure is None {
        assert forall|i: int| 0 <= i < files.len() implies up_fine(w1, #[trigger] files[i]) by {
            lemma_id_set_has(files, i);
        }
        lemma_up_completes(files, 0, Seq::empty(), w1, 4 * files.len());
        lemma_nothing_new(files, w1.ledger, w1.disk);
        assert(Seq::<Seq<char>>::empty() + Seq::<Seq<char>>::empty() =~= Seq::<Seq<char>>::empty());
        assert(w1.ledger + id_set(files) =~= w1.ledger);
        assert(w1.executed + Seq::<Seq<char>>::empty() =~= w1.executed);
    }
}

/// A run in which the database rejects the up block of file `b` (not yet
/// applied, all files before it fine) leaves the ledger holding exactly what it
/// held plus the files before `b`; `b` is not recorded, and the run stops on it,
/// so no later file is attempted: the batches handed to the database are those
/// of the pending files before `b`, in order, then `b`'s.
pub proof fn lemma_up_prefix_consistent(files: Seq<(Seq<char>, Seq<char>)>, w: UpWorld, b: int)
    requires
        0 <= b < files.len(),
        forall|i: int| 0 <= i < b ==> up_failure(w, #[trigger] files[i]) is None,
        !w.ledger.contains(files[b].0),
        !id_set(files.take(b)).contains(files[b].0),
        w.disk.contains_key(files[b].1),
        well_formed(w.disk[files[b].1]),
        w.broken.contains(files[b].0),
    ensures
        ({
            let (s, w2) = up_run(files, w);
            &&& s.stage == UpStage::Done
            &&& s.pos == b
            &&& s.failure == Some((ErrorKind::Execution, files[b].0))
            &&& w2.ledger == w.ledger + id_set(files.take(b))
            &&& !w2.ledger.contains(files[b].0)
            &&& w2.executed == w.executed + up_batches(files.take(b), w.ledger, w.disk) + seq![
                up_sql_of(w.disk[files[b].1]),
            ]
        }),
{
    assert(files.subrange(0, b) =~= files.take(b));
    lemma_up_stops(files, 0, b, Seq::empty(), w, 4 * files.len());
}

/// A file without a down marker is malformed.
pub proof fn lemma_no_down_marker_malformed(content: Seq<char>)
    requires
        forall|k: int| !crate::splitter::marker_at(content, k, crate::splitter::down_word()),
    ensures
        !well_formed(content),
{
}

/// A run that meets a malformed file `b` (not yet applied, all files before it
/// fine) reports a format error naming it, applies nothing from it, and still
/// applies the files before it.
pub proof fn lemma_up_malformed_file(files: Seq<(Seq<char>, Seq<char>)>, w: UpWorld, b: int)
    requires
        0 <= b < files.len(),
        forall|i: int| 0 <= i < b ==> up_failure(w, #[trigger] files[i]) is None,
        !w.ledger.contains(files[b].0),
        !id_set(files.take(b)).contains(files[b].0),
        w.disk.contains_key(files[b].1),
        !well_formed(w.disk[files[b].1]),
    ensures
        ({
            let (s, w2) = up_run(files, w);
            &&& s.stage == UpStage::Done
            &&& s.pos == b
            &&& s.failure == Some((ErrorKind::Format, files[b].1))
            &&& s.applied == newly_applied(files.take(b), w.ledger)
            &&& w2.ledger == w.ledger + id_set(files.take(b))
            &&& !w2.ledger.contains(files[b].0)
            &&& w2.executed == w.executed + up_batches(files.take(b), w.ledger, w.disk)
        }),
{
    assert(files.subrange(0, b) =~= files.take(b));
    lemma_up_stops(files, 0, b, Seq::empty(), w, 4 * files.len());
    assert(w.executed + up_batches(files.take(b), w.ledger, w.disk) + Seq::<Seq<char>>::empty()
        =~= w.executed + up_batches(files.take(b), w.ledger, w.disk));
    assert(Seq::<Seq<char>>::empty() + newly_applied(files.take(b), w.ledger) =~= newly_applied(
        files.take(b),
        w.ledger,
    ));
}

proof fn lemma_id_set_within(files: Seq<(Seq<char>, Seq<char>)>, ledger: Set<Seq<char>>)
    requires
        forall|i: int| 0 <= i < files.len() ==> ledger.contains(#[trigger] files[i].0),
    ensures
        id_set(files).subset_of(ledger),
    decreases files.len(),
{
    if files.len() > 0 {
        assert(ledger.contains(files[0].0));
        assert forall|i: int| 0 <= i < files.drop_first().len() implies ledger.contains(
            #[trigger] files.drop_first()[i].0,
        ) by {
            assert(ledger.contains(files[i + 1].0));
        }
        lemma_id_set_within(files.drop_first(), ledger);
    }
}

proof fn lemma_newly_only(
    files: Seq<(Seq<char>, Seq<char>)>,
    q: int,
    ledger: Set<Seq<char>>,
    disk: Map<Seq<char>, Seq<char>>,
)
    requires
        0 <= q < files.len(),
        !ledger.contains(files[q].0),
        forall|i: int| 0 <= i < files.len() && i != q ==> ledger.contains(#[trigger] files[i].0),
    ensures
        newly_applied(files, ledger) == seq![files[q].0],
    decreases files.len(),
{
    let rest = files.drop_first();
    if q == 0 {
        let l2 = ledger.insert(files[0].0);
        assert forall|i: int| 0 <= i < rest.len() implies l2.contains(#[trigger] rest[i].0) by {
            assert(ledger.contains(files[i + 1].0));
        }
        lemma_id_set_within(rest, l2);
        lemma_nothing_new(rest, l2, disk);
        assert(seq![files[0].0] + Seq::<Seq<char>>::empty() =~= seq![files[0].0]);
    } else {
        assert(ledger.contains(files[0].0));
        assert forall|i: int| 0 <= i < rest.len() && i != q - 1 implies ledger.contains(
            #[trigger] rest[i].0,
        ) by {
            assert(ledger.contains(files[i + 1].0));
        }
        lemma_newly_only(rest, q - 1, ledger, disk);
    }
}

/// An up run over files all applied but one, `q`, which is fine, applies that
/// one alone and adds it to the ledger.
pub proof fn lemma_up_run_only_pending(files: Seq<(Seq<char>, Seq<char>)>, q: int, w: UpWorld)
    requires
        0 <= q < files.len(),
        !w.ledger.contains(files[q].0),
        up_failure(w, files[q]) is None,
        forall|i: int| 0 <= i < files.len() && i != q ==> w.ledger.contains(#[trigger] files[i].0),
    ensures
        ({
            let (s, w2) = up_run(files, w);
            &&& s.stage == UpStage::Done && s.failure is None
            &&& s.applied == seq![files[q].0]
            &&& w2.ledger == w.ledger.insert(files[q].0)
            &&& w2.disk == w.disk
        }),
{
    assert forall|i: int| 0 <= i < files.len() implies up_fine(w, #[trigger] files[i]) by {
        if i != q {
            assert(w.ledger.contains(files[i].0));
        }
    }
    assert(files.skip(0) =~= files);
    lemma_up_completes(files, 0, Seq::empty(), w, 4 * files.len());
    lemma_newly_only(files, q, w.ledger, w.disk);
    assert(Seq::<Seq<char>>::empty() + seq![files[q].0] =~= seq![files[q].0]);
    let l2 = w.ledger.insert(files[q].0);
    assert forall|i: int| 0 <= i < files.len() implies l2.contains(#[trigger] files[i].0) by {
        if i != q {
            assert(w.ledger.contains(files[i].0));
        }
    }
    lemma_id_set_within(files, l2);
    lemma_id_set_has(files, q);
    assert(w.ledger + id_set(files) =~= l2);
}

} // verus!
