//! Reconciliation of the migration files against the ledger.
//!
//! Listing is a pure function of the discovered files and the applied names.
//! Applying and reverting alternate database work and decisions, so each is a
//! state machine: the caller performs the action that the machine asks for and
//! hands back what came of it as an event.
use vstd::prelude::*;
use crate::scanner::{files_view, MigrationFile};

verus! {

/// The names in a vector of strings.
pub open spec fn names_view(v: Seq<String>) -> Seq<Seq<char>> {
    v.map_values(|s: String| s@)
}

/// The files of `files` whose identifier is not in `applied`, in order.
pub open spec fn pending_of(files: Seq<(Seq<char>, Seq<char>)>, applied: Set<Seq<char>>) -> Seq<
    (Seq<char>, Seq<char>),
> {
    files.filter(|f: (Seq<char>, Seq<char>)| !applied.contains(f.0))
}

pub(crate) fn contains_name(names: &Vec<String>, id: &String) -> (r: bool)
    ensures
        r == names_view(names@).contains(id@),
{
    let mut i: usize = 0;
    while i < names.len()
        invariant
            i <= names@.len(),
            forall|k: int| 0 <= k < i ==> names@[k]@ != id@,
        decreases names@.len() - i,
    {
        if names[i] == *id {
            assert(names_view(names@)[i as int] == id@);
            return true;
        }
        i += 1;
    }
    assert(!names_view(names@).contains(id@)) by {
        if names_view(names@).contains(id@) {
            let k = choose|k: int| 0 <= k < names@.len() && names_view(names@)[k] == id@;
            assert(names@[k]@ != id@);
        }
    }
    false
}

/// The pending migrations: the files, in their order, whose identifier the
/// ledger's applied names do not hold.
pub fn pending(files: &Vec<MigrationFile>, applied: &Vec<String>) -> (r: Vec<MigrationFile>)
    ensures
        files_view(r@) == pending_of(files_view(files@), names_view(applied@).to_set()),
{
    let ghost done = names_view(applied@).to_set();
    let mut r: Vec<MigrationFile> = Vec::new();
    let mut i: usize = 0;
    proof {
        reveal(Seq::filter);
        assert(files_view(r@) =~= Seq::empty());
        assert(files_view(files@).take(0) =~= Seq::empty());
    }
    while i < files.len()
        invariant
            i <= files@.len(),
            done == names_view(applied@).to_set(),
            files_view(r@) == pending_of(files_view(files@).take(i as int), done),
        decreases files@.len() - i,
    {
        let f = &files[i];
        let ghost before = files_view(r@);
        proof {
            reveal(Seq::filter);
            assert(files_view(files@).take(i + 1).drop_last() =~= files_view(files@).take(i as int));
            assert(files_view(files@).take(i + 1).last() == f@);
        }
        if !contains_name(applied, &f.identifier) {
            let g = MigrationFile { identifier: f.identifier.clone(), file_name: f.file_name.clone() };
            r.push(g);
            assert(files_view(r@) =~= before.push(g@));
        }
        i += 1;
    }
    assert(files_view(files@).take(i as int) =~= files_view(files@));
    r
}

/// Once the ledger holds an identifier, however it came there, no file with
/// that identifier is listed as pending.
pub proof fn lemma_list_reflects_ledger(
    files: Seq<(Seq<char>, Seq<char>)>,
    applied: Set<Seq<char>>,
    id: Seq<char>,
)
    ensures
        forall|i: int|
            0 <= i < pending_of(files, applied.insert(id)).len() ==> (#[trigger] pending_of(
                files,
                applied.insert(id),
            )[i]).0 != id,
{
    let pred = |f: (Seq<char>, Seq<char>)| !applied.insert(id).contains(f.0);
    assert forall|i: int| 0 <= i < files.filter(pred).len() implies (#[trigger] files.filter(
        pred,
    )[i]).0 != id by {
        files.lemma_filter_pred(pred, i);
    }
}

} // verus!
