//! What a down run does against a ledger, a migrations directory and a
//! database that answer its actions faithfully.
use vstd::prelude::*;
use crate::down_run::{
    down_at, down_next, down_targets, resolve, DownEventView, DownStage, DownState, REVERT_ALL,
};
use crate::splitter::well_formed;
use crate::up_laws::{up_run, UpWorld};
use crate::up_run::UpStage;

verus! {

/// The outside world of a down run.
pub struct DownWorld {
    /// The identifiers that the ledger holds.
    pub ledger: Set<Seq<char>>,
    /// The migrations directory: file name to text.
    pub disk: Map<Seq<char>, Seq<char>>,
    /// The identifiers whose down block the database rejects.
    pub broken: Set<Seq<char>>,
}

/// The world's answer to the action of `s`.
pub open spec fn down_answer(s: DownState, w: DownWorld) -> DownEventView {
    let t = s.targets[s.pos];
    match s.stage {
        DownStage::Load => DownEventView::FileRead(
            match t.1 {
                Some(name) => if w.disk.contains_key(name) {
                    Some(w.disk[name])
                } else {
                    None
                },
                None => None,
            },
        ),
        DownStage::Execute => DownEventView::Executed(!w.broken.contains(t.0)),
        DownStage::Revert => DownEventView::Reverted(true),
        DownStage::Done => DownEventView::FileRead(None),
    }
}

/// The world after it performs the action of `s`: reverting deletes a ledger row.
pub open spec fn down_effect(s: DownState, w: DownWorld) -> DownWorld {
    if s.stage == DownStage::Revert {
        DownWorld { ledger: w.ledger.remove(s.targets[s.pos].0), ..w }
    } else {
        w
    }
}

/// The run and the world after at most `fuel` actions.
pub open spec fn down_drive(s: DownState, w: DownWorld, fuel: nat) -> (DownState, DownWorld)
    decreases fuel,
{
    if fuel == 0 || s.stage == DownStage::Done {
        (s, w)
    } else {
        down_drive(down_next(s, down_answer(s, w)), down_effect(s, w), (fuel - 1) as nat)
    }
}

/// A complete down run in world `w`, with the ledger's names `applied_desc`
/// (most recent first), the step parameter `step` and the discovered `files`.
pub open spec fn down_run_in(
    applied_desc: Seq<Seq<char>>,
    step: Option<i32>,
    files: Seq<(Seq<char>, Seq<char>)>,
    w: DownWorld,
) -> (DownState, DownWorld) {
    let targets = down_targets(applied_desc, step, files);
    down_drive(down_at(targets, 0, Seq::empty(), Seq::empty()), w, 3 * targets.len())
}

/// The target's file was discovered and is on disk.
pub open spec fn present(w: DownWorld, t: (Seq<char>, Option<Seq<char>>)) -> bool {
    t.1 is Some && w.disk.contains_key(t.1->Some_0)
}

/// The target's file is missing, or it reverts without error.
pub open spec fn down_fine(w: DownWorld, t: (Seq<char>, Option<Seq<char>>)) -> bool {
    present(w, t) ==> well_formed(w.disk[t.1->Some_0]) && !w.broken.contains(t.0)
}

/// The identifiers of the targets whose file is present, in order.
pub open spec fn present_ids(targets: Seq<(Seq<char>, Option<Seq<char>>)>, w: DownWorld) -> Seq<
    Seq<char>,
>
    decreases targets.len(),
{
    if targets.len() == 0 {
        Seq::empty()
    } else if present(w, targets[0]) {
        seq![targets[0].0] + present_ids(targets.drop_first(), w)
    } else {
        present_ids(targets.drop_first(), w)
    }
}

/// The identifiers of the targets whose file is missing, in order.
pub open spec fn missing_ids(targets: Seq<(Seq<char>, Option<Seq<char>>)>, w: DownWorld) -> Seq<
    Seq<char>,
>
    decreases targets.len(),
{
    if targets.len() == 0 {
        Seq::empty()
    } else if present(w, targets[0]) {
        missing_ids(targets.drop_first(), w)
    } else {
        seq![targets[0].0] + missing_ids(targets.drop_first(), w)
    }
}

proof fn lemma_down_step(s: DownState, w: DownWorld, fuel: nat)
    requires
        fuel > 0,
        s.stage != DownStage::Done,
    ensures
        down_drive(s, w, fuel) == down_drive(
            down_next(s, down_answer(s, w)),
            down_effect(s, w),
            (fuel - 1) as nat,
        ),
{
}

proof fn lemma_down_completes(
    targets: Seq<(Seq<char>, Option<Seq<char>>)>,
    p: int,
    reverted: Seq<Seq<char>>,
    skipped: Seq<Seq<char>>,
    w: DownWorld,
    fuel: nat,
)
    requires
        0 <= p <= targets.len(),
        fuel >= 3 * (targets.len() - p),
        forall|i: int| p <= i < targets.len() ==> down_fine(w, #[trigger] targets[i]),
    ensures
        ({
            let (s2, w2) = down_drive(down_at(targets, p, reverted, skipped), w, fuel);
            &&& s2 == down_at(
                targets,
                targets.len() as int,
                reverted + present_ids(targets.skip(p), w),
                skipped + missing_ids(targets.skip(p), w),
            )
            &&& w2 == DownWorld {
                ledger: w.ledger.difference(present_ids(targets.skip(p), w).to_set()),
                ..w
            }
        }),
    decreases targets.len() - p,
{
    let s = down_at(targets, p, reverted, skipped);
    let rest = targets.skip(p);
    if p == targets.len() {
        assert(rest =~= Seq::empty());
        assert(reverted + Seq::empty() =~= reverted);
        assert(skipped + Seq::empty() =~= skipped);
        assert(w.ledger.difference(Seq::<Seq<char>>::empty().to_set()) =~= w.ledger);
        assert(DownWorld { ledger: w.ledger, ..w } == w);
        return;
    }
    assert(rest.drop_first() =~= targets.skip(p + 1));
    assert(rest[0] == targets[p]);
    let t = targets[p];
    let tail = targets.skip(p + 1);
    lemma_down_step(s, w, fuel);
    if !present(w, t) {
        assert(down_next(s, down_answer(s, w)) == down_at(targets, p + 1, reverted, skipped.push(t.0)));
        lemma_down_completes(targets, p + 1, reverted, skipped.push(t.0), w, (fuel - 1) as nat);
        assert(skipped.push(t.0) + missing_ids(tail, w) =~= skipped + missing_ids(rest, w));
    } else {
        let c = w.disk[t.1->Some_0];
        let s1 = DownState {
            stage: DownStage::Execute,
            sql: crate::down_run::down_sql_of(c),
            ..s
        };
        assert(down_next(s, down_answer(s, w)) == s1);
        lemma_down_step(s1, w, (fuel - 1) as nat);
        let s2 = DownState { stage: DownStage::Revert, ..s1 };
        assert(down_next(s1, down_answer(s1, w)) == s2);
        lemma_down_step(s2, w, (fuel - 2) as nat);
        let w3 = DownWorld { ledger: w.ledger.remove(t.0), ..w };
        assert(down_effect(s2, w) == w3);
        assert(down_next(s2, down_answer(s2, w)) == down_at(targets, p + 1, reverted.push(t.0), skipped));
        assert forall|i: int| p + 1 <= i < targets.len() implies down_fine(w3, #[trigger] targets[i]) by {
            assert(down_fine(w, targets[i]));
        }
        assert forall|x: (Seq<char>, Option<Seq<char>>)| present(w3, x) == present(w, x) by {}
        assert(present_ids(tail, w3) == present_ids(tail, w) && missing_ids(tail, w3) == missing_ids(tail, w)) by {
            lemma_ids_same_disk(tail, w, w3);
        }
        lemma_down_completes(targets, p + 1, reverted.push(t.0), skipped, w3, (fuel - 3) as nat);
        assert(reverted.push(t.0) + present_ids(tail, w) =~= reverted + present_ids(rest, w));
        assert(present_ids(rest, w) == seq![t.0] + present_ids(tail, w));
        vstd::seq_lib::seq_to_set_distributes_over_add(seq![t.0], present_ids(tail, w));
        assert(seq![t.0].to_set() =~= set![t.0]) by {
            assert(seq![t.0][0] == t.0);
        }
        assert(present_ids(rest, w).to_set() =~= present_ids(tail, w).to_set().insert(t.0));
        assert(w3.ledger.difference(present_ids(tail, w).to_set()) =~= w.ledger.difference(
            present_ids(rest, w).to_set(),
        ));
    }
}

proof fn lemma_ids_same_disk(
    targets: Seq<(Seq<char>, Option<Seq<char>>)>,
    w: DownWorld,
    v: DownWorld,
)
    requires
        w.disk == v.disk,
    ensures
        present_ids(targets, w) == present_ids(targets, v),
        missing_ids(targets, w) == missing_ids(targets, v),
    decreases targets.len(),
{
    if targets.len() > 0 {
        lemma_ids_same_disk(targets.drop_first(), w, v);
    }
}

proof fn lemma_all_present(targets: Seq<(Seq<char>, Option<Seq<char>>)>, w: DownWorld)
    requires
        forall|i: int| 0 <= i < targets.len() ==> present(w, #[trigger] targets[i]),
    ensures
        present_ids(targets, w) == targets.map_values(|t: (Seq<char>, Option<Seq<char>>)| t.0),
        missing_ids(targets, w) == Seq::<Seq<char>>::empty(),
    decreases targets.len(),
{
    if targets.len() > 0 {
        assert(present(w, targets[0]));
        assert forall|i: int| 0 <= i < targets.drop_first().len() implies present(
            w,
            #[trigger] targets.drop_first()[i],
        ) by {
            assert(present(w, targets[i + 1]));
        }
        lemma_all_present(targets.drop_first(), w);
        assert(targets.map_values(|t: (Seq<char>, Option<Seq<char>>)| t.0) =~= seq![targets[0].0]
            + targets.drop_first().map_values(|t: (Seq<char>, Option<Seq<char>>)| t.0));
    } else {
        assert(targets.map_values(|t: (Seq<char>, Option<Seq<char>>)| t.0) =~= Seq::<
            Seq<char>,
        >::empty());
    }
}

/// A down run reverts, newest first, each target whose file is present, and
/// skips each whose file is missing (discovered under no file, or gone from
/// disk) and goes on with the next; it ends without error, and the ledger loses
/// exactly the reverted names.
pub proof fn lemma_down_skips_missing(
    applied_desc: Seq<Seq<char>>,
    step: Option<i32>,
    files: Seq<(Seq<char>, Seq<char>)>,
    w: DownWorld,
)
    requires
        forall|i: int|
            0 <= i < down_targets(applied_desc, step, files).len() ==> down_fine(
                w,
                #[trigger] down_targets(applied_desc, step, files)[i],
            ),
    ensures
        ({
            let targets = down_targets(applied_desc, step, files);
            let (s, w2) = down_run_in(applied_desc, step, files, w);
            &&& s.stage == DownStage::Done && s.failure is None
            &&& s.reverted == present_ids(targets, w)
            &&& s.skipped == missing_ids(targets, w)
            &&& w2.ledger == w.ledger.difference(present_ids(targets, w).to_set())
        }),
{
    let targets = down_targets(applied_desc, step, files);
    assert(targets.skip(0) =~= targets);
    lemma_down_completes(targets, 0, Seq::empty(), Seq::empty(), w, 3 * targets.len());
    assert(Seq::<Seq<char>>::empty() + present_ids(targets, w) =~= present_ids(targets, w));
    assert(Seq::<Seq<char>>::empty() + missing_ids(targets, w) =~= missing_ids(targets, w));
}

/// With every file present and fine, a down run with a positive step `n`
/// reverts the `n` most recently applied migrations (or all, if fewer), newest
/// first, and the ledger loses exactly those.
pub proof fn lemma_down_lifo(
    applied_desc: Seq<Seq<char>>,
    n: i32,
    files: Seq<(Seq<char>, Seq<char>)>,
    w: DownWorld,
)
    requires
        n > 0,
        forall|i: int|
            0 <= i < down_targets(applied_desc, Some(n), files).len() ==> {
                let t = #[trigger] down_targets(applied_desc, Some(n), files)[i];
                present(w, t) && down_fine(w, t)
            },
    ensures
        ({
            let k = if n < applied_desc.len() {
                n as int
            } else {
                applied_desc.len() as int
            };
            let (s, w2) = down_run_in(applied_desc, Some(n), files, w);
            &&& s.stage == DownStage::Done && s.failure is None
            &&& s.reverted == applied_desc.take(k)
            &&& s.skipped == Seq::<Seq<char>>::empty()
            &&& w2.ledger == w.ledger.difference(applied_desc.take(k).to_set())
        }),
{
    let targets = down_targets(applied_desc, Some(n), files);
    lemma_down_skips_missing(applied_desc, Some(n), files, w);
    lemma_all_present(targets, w);
    let k = if n < applied_desc.len() {
        n as int
    } else {
        applied_desc.len() as int
    };
    assert(targets.map_values(|t: (Seq<char>, Option<Seq<char>>)| t.0) =~= applied_desc.take(k));
}

/// With every file present and fine, a down run with the revert-all sentinel
/// reverts every applied migration, newest first, and leaves the ledger empty.
pub proof fn lemma_down_revert_all(
    applied_desc: Seq<Seq<char>>,
    files: Seq<(Seq<char>, Seq<char>)>,
    w: DownWorld,
)
    requires
        w.ledger == applied_desc.to_set(),
        forall|i: int|
            0 <= i < down_targets(applied_desc, Some(REVERT_ALL), files).len() ==> {
                let t = #[trigger] down_targets(applied_desc, Some(REVERT_ALL), files)[i];
                present(w, t) && down_fine(w, t)
            },
    ensures
        ({
            let (s, w2) = down_run_in(applied_desc, Some(REVERT_ALL), files, w);
            &&& s.stage == DownStage::Done && s.failure is None
            &&& s.reverted == applied_desc
            &&& w2.ledger == Set::<Seq<char>>::empty()
        }),
{
    let targets = down_targets(applied_desc, Some(REVERT_ALL), files);
    lemma_down_skips_missing(applied_desc, Some(REVERT_ALL), files, w);
    lemma_all_present(targets, w);
    assert(applied_desc.take(applied_desc.len() as int) =~= applied_desc);
    assert(targets.map_values(|t: (Seq<char>, Option<Seq<char>>)| t.0) =~= applied_desc);
    assert(w.ledger.difference(applied_desc.to_set()) =~= Set::<Seq<char>>::empty());
}

proof fn lemma_resolve_first(files: Seq<(Seq<char>, Seq<char>)>, q: int)
    requires
        0 <= q < files.len(),
        forall|i: int| 0 <= i < q ==> (#[trigger] files[i]).0 != files[q].0,
    ensures
        resolve(files, files[q].0) == Some(files[q].1),
    decreases q,
{
    if q > 0 {
        assert(files[0].0 != files[q].0);
        assert forall|i: int| 0 <= i < q - 1 implies (#[trigger] files.drop_first()[i]).0
            != files.drop_first()[q - 1].0 by {
            assert(files[i + 1].0 != files[q].0);
        }
        lemma_resolve_first(files.drop_first(), q - 1);
    }
}

/// Applying a fine migration `q`, the only one of `files` not yet applied, and
/// then reverting one step, with it the most recently applied, leaves the
/// ledger as it was before: the up run applies it alone and the down run
/// reverts it.
pub proof fn lemma_up_down_round_trip(
    files: Seq<(Seq<char>, Seq<char>)>,
    q: int,
    older: Seq<Seq<char>>,
    w: UpWorld,
    down_broken: Set<Seq<char>>,
)
    requires
        0 <= q < files.len(),
        !w.ledger.contains(files[q].0),
        forall|i: int| 0 <= i < files.len() && i != q ==> w.ledger.contains(#[trigger] files[i].0),
        w.disk.contains_key(files[q].1),
        well_formed(w.disk[files[q].1]),
        !w.broken.contains(files[q].0),
        !down_broken.contains(files[q].0),
    ensures
        ({
            let f = files[q];
            let (s1, w1) = up_run(files, w);
            let dw = DownWorld { ledger: w1.ledger, disk: w1.disk, broken: down_broken };
            let (s2, w2) = down_run_in(seq![f.0] + older, None, files, dw);
            &&& s1.stage == UpStage::Done && s1.failure is None
            &&& s1.applied == seq![f.0]
            &&& s2.stage == DownStage::Done && s2.failure is None
            &&& s2.reverted == seq![f.0]
            &&& w2.ledger == w.ledger
        }),
{
    let f = files[q];
    crate::up_laws::lemma_up_run_only_pending(files, q, w);
    let (s1, w1) = up_run(files, w);
    let dw = DownWorld { ledger: w1.ledger, disk: w1.disk, broken: down_broken };
    let applied_desc = seq![f.0] + older;
    let targets = down_targets(applied_desc, None, files);
    assert(applied_desc.take(1) =~= seq![f.0]);
    assert forall|i: int| 0 <= i < q implies (#[trigger] files[i]).0 != files[q].0 by {
        assert(w.ledger.contains(files[i].0));
    }
    lemma_resolve_first(files, q);
    assert(targets =~= seq![(f.0, Some(f.1))]);
    assert(present(dw, targets[0]));
    lemma_down_skips_missing(applied_desc, None, files, dw);
    lemma_all_present(targets, dw);
    assert(targets.map_values(|t: (Seq<char>, Option<Seq<char>>)| t.0) =~= seq![f.0]);
    assert(seq![f.0].to_set() =~= set![f.0]) by {
        assert(seq![f.0][0] == f.0);
    }
    assert(w1.ledger.difference(set![f.0]) =~= w.ledger);
}

} // verus!
