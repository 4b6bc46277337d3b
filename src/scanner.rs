//! Discovery of migration files: which directory entries are migrations, what
//! identifier each has, and the order in which they apply.
use vstd::prelude::*;
use crate::error::MigrateError;
use crate::reconcile::{contains_name, names_view};
use crate::splitter::chars_of;

verus! {

broadcast use vstd::seq_lib::to_multiset_insert, vstd::seq_lib::to_multiset_build;

/// How a migration's identifier is taken from its file name.
#[derive(Debug, Clone, Copy, PartialEq, Eq, Structural)]
pub enum IdPolicy {
    /// The whole file name is the identifier.
    FullFilename,
    /// The part of the file name before the first occurrence of the separator;
    /// every migration file name must hold it.
    PrefixBeforeSeparator(char),
}

/// One entry of the migrations directory, as listed.
#[derive(Debug, Clone)]
pub struct FileEntry {
    pub name: String,
    pub is_file: bool,
}

/// A migration file: its identifier and its file name in the migrations directory.
#[derive(Debug, Clone)]
pub struct MigrationFile {
    pub identifier: String,
    pub file_name: String,
}

impl View for MigrationFile {
    type V = (Seq<char>, Seq<char>);

    open spec fn view(&self) -> (Seq<char>, Seq<char>) {
        (self.identifier@, self.file_name@)
    }
}

/// The identifiers and file names of a sequence of migration files.
pub open spec fn files_view(v: Seq<MigrationFile>) -> Seq<(Seq<char>, Seq<char>)> {
    v.map_values(|f: MigrationFile| f@)
}

/// `a` sorts before `b`, or equals it, in the order of `str` (by code point).
pub open spec fn id_le(a: Seq<char>, b: Seq<char>) -> bool
    decreases a.len(),
{
    if a.len() == 0 {
        true
    } else if b.len() == 0 {
        false
    } else if a[0] as u32 != b[0] as u32 {
        (a[0] as u32) < (b[0] as u32)
    } else {
        id_le(a.drop_first(), b.drop_first())
    }
}

pub proof fn lemma_id_le_total(a: Seq<char>, b: Seq<char>)
    ensures
        id_le(a, b) || id_le(b, a),
    decreases a.len(),
{
    if a.len() > 0 && b.len() > 0 && a[0] as u32 == b[0] as u32 {
        lemma_id_le_total(a.drop_first(), b.drop_first());
    }
}

pub proof fn lemma_id_le_trans(a: Seq<char>, b: Seq<char>, c: Seq<char>)
    requires
        id_le(a, b),
        id_le(b, c),
    ensures
        id_le(a, c),
    decreases a.len(),
{
    if a.len() > 0 && b.len() > 0 && c.len() > 0 && a[0] as u32 == b[0] as u32 && b[0] as u32 == c[0] as u32 {
        lemma_id_le_trans(a.drop_first(), b.drop_first(), c.drop_first());
    }
}

/// The identifiers of `v`, in order, never decrease.
pub open spec fn sorted_by_id(v: Seq<(Seq<char>, Seq<char>)>) -> bool {
    forall|i: int, j: int| 0 <= i < j < v.len() ==> id_le(v[i].0, v[j].0)
}

/// A file name with the SQL extension: `.sql` after a non-empty stem.
pub open spec fn is_sql_name(n: Seq<char>) -> bool {
    n.len() > 4 && n.subrange(n.len() - 4, n.len() as int) == seq!['.', 's', 'q', 'l']
}

/// An entry that is a migration file.
pub open spec fn is_candidate(e: FileEntry) -> bool {
    e.is_file && is_sql_name(e.name@)
}

/// `i` is the first position of `c` in `s`.
pub open spec fn first_index(s: Seq<char>, c: char, i: int) -> bool {
    0 <= i < s.len() && s[i] == c && forall|k: int| 0 <= k < i ==> s[k] != c
}

/// A file name yields an identifier under `policy`.
pub open spec fn has_identifier(policy: IdPolicy, name: Seq<char>) -> bool {
    match policy {
        IdPolicy::FullFilename => true,
        IdPolicy::PrefixBeforeSeparator(c) => exists|i: int| 0 <= i < name.len() && name[i] == c,
    }
}

/// The identifier that `policy` takes from a file name.
pub open spec fn identifier_of(policy: IdPolicy, name: Seq<char>) -> Seq<char> {
    match policy {
        IdPolicy::FullFilename => name,
        IdPolicy::PrefixBeforeSeparator(c) => name.take(choose|i: int| first_index(name, c, i)),
    }
}

/// Every migration file among `entries` yields an identifier.
pub open spec fn all_named(policy: IdPolicy, entries: Seq<FileEntry>) -> bool {
    forall|i: int|
        0 <= i < entries.len() && is_candidate(#[trigger] entries[i]) ==> has_identifier(
            policy,
            entries[i].name@,
        )
}

/// The migration files among `entries`, as (identifier, file name), in listing order.
pub open spec fn discovered(policy: IdPolicy, entries: Seq<FileEntry>) -> Seq<(Seq<char>, Seq<char>)>
    decreases entries.len(),
{
    if entries.len() == 0 {
        Seq::empty()
    } else {
        let rest = discovered(policy, entries.drop_last());
        let e = entries.last();
        if is_candidate(e) {
            rest.push((identifier_of(policy, e.name@), e.name@))
        } else {
            rest
        }
    }
}

proof fn lemma_first_index_unique(s: Seq<char>, c: char, i: int, j: int)
    requires
        first_index(s, c, i),
        first_index(s, c, j),
    ensures
        i == j,
{
    if i < j {
        assert(s[i] != c);
    } else if j < i {
        assert(s[j] != c);
    }
}

fn le_from(a: &Vec<char>, b: &Vec<char>, i: usize) -> (r: bool)
    requires
        i <= a@.len(),
        i <= b@.len(),
    ensures
        r == id_le(a@.skip(i as int), b@.skip(i as int)),
    decreases a@.len() - i,
{
    if i == a.len() {
        true
    } else if i == b.len() {
        false
    } else if a[i] as u32 != b[i] as u32 {
        (a[i] as u32) < (b[i] as u32)
    } else {
        assert(a@.skip(i as int).drop_first() =~= a@.skip(i + 1));
        assert(b@.skip(i as int).drop_first() =~= b@.skip(i + 1));
        le_from(a, b, i + 1)
    }
}

/// Whether `a` sorts before `b` or equals it.
fn key_le(a: &Vec<char>, b: &Vec<char>) -> (r: bool)
    ensures
        r == id_le(a@, b@),
{
    assert(a@.skip(0) =~= a@);
    assert(b@.skip(0) =~= b@);
    le_from(a, b, 0)
}

fn is_sql_name_exec(n: &Vec<char>) -> (r: bool)
    ensures
        r == is_sql_name(n@),
{
    let l = n.len();
    if l <= 4 {
        return false;
    }
    let r = n[l - 4] == '.' && n[l - 3] == 's' && n[l - 2] == 'q' && n[l - 1] == 'l';
    assert(r == (n@.subrange(l - 4, l as int) =~= seq!['.', 's', 'q', 'l']));
    r
}

/// The identifier of a file name under `policy`, or `None` where it holds no separator.
pub fn identifier_for(policy: IdPolicy, name: &str) -> (r: Option<String>)
    ensures
        r is Some <==> has_identifier(policy, name@),
        r matches Some(id) ==> id@ == identifier_of(policy, name@),
{
    match policy {
        IdPolicy::FullFilename => Some(name.to_owned()),
        IdPolicy::PrefixBeforeSeparator(c) => {
            let cs = chars_of(name);
            let mut i: usize = 0;
            while i < cs.len()
                invariant
                    policy == IdPolicy::PrefixBeforeSeparator(c),
                    cs@ == name@,
                    i <= cs@.len(),
                    forall|k: int| 0 <= k < i ==> cs@[k] != c,
                decreases cs@.len() - i,
            {
                if cs[i] == c {
                    proof {
                        assert(first_index(name@, c, i as int));
                        let j = choose|j: int| first_index(name@, c, j);
                        lemma_first_index_unique(name@, c, i as int, j);
                        assert(name@[i as int] == c);
                    }
                    let id = name.substring_char(0, i).to_owned();
                    assert(id@ =~= name@.take(i as int));
                    return Some(id);
                }
                i += 1;
            }
            None
        },
    }
}

/// Inserts `f`, whose key is `k`, into `files` after every file whose key is not
/// greater, keeping the identifiers in order.
fn insert_sorted(
    files: &mut Vec<MigrationFile>,
    keys: &mut Vec<Vec<char>>,
    f: MigrationFile,
    k: Vec<char>,
) -> (p: usize)
    requires
        old(files)@.len() == old(keys)@.len(),
        forall|i: int| 0 <= i < old(keys)@.len() ==> (#[trigger] old(keys)@[i])@ == old(files)@[i].identifier@,
        sorted_by_id(files_view(old(files)@)),
        k@ == f.identifier@,
    ensures
        final(files)@.len() == final(keys)@.len(),
        forall|i: int| 0 <= i < final(keys)@.len() ==> (#[trigger] final(keys)@[i])@ == final(files)@[i].identifier@,
        sorted_by_id(files_view(final(files)@)),
        files_view(final(files)@).to_multiset() == files_view(old(files)@).to_multiset().insert(f@),
        p <= old(files)@.len(),
        final(files)@ == old(files)@.insert(p as int, f),
{
    let mut p: usize = 0;
    while p < keys.len() && key_le(&keys[p], &k)
        invariant
            p <= keys@.len(),
            files@.len() == keys@.len(),
            forall|i: int| 0 <= i < keys@.len() ==> (#[trigger] keys@[i])@ == files@[i].identifier@,
            forall|i: int| 0 <= i < p ==> id_le(files@[i].identifier@, k@),
        decreases keys@.len() - p,
    {
        p += 1;
    }
    let ghost before = files_view(files@);
    proof {
        if p < keys@.len() {
            lemma_id_le_total(keys@[p as int]@, k@);
            assert forall|j: int| p <= j < files@.len() implies id_le(k@, files@[j].identifier@) by {
                if j > p {
                    assert(id_le(before[p as int].0, before[j].0));
                    lemma_id_le_trans(k@, files@[p as int].identifier@, files@[j].identifier@);
                }
            }
        }
    }
    files.insert(p, f);
    keys.insert(p, k);
    proof {
        assert(files_view(files@) =~= before.insert(p as int, f@));
        assert forall|i: int, j: int| 0 <= i < j < files@.len() implies id_le(
            files_view(files@)[i].0,
            files_view(files@)[j].0,
        ) by {
            if j < p {
                assert(id_le(before[i].0, before[j].0));
            } else if i < p && j == p {
            } else if i < p {
                assert(id_le(before[i].0, k@));
                assert(id_le(k@, before[j - 1].0));
                lemma_id_le_trans(before[i].0, k@, before[j - 1].0);
            } else if i == p {
            } else {
                assert(id_le(before[i - 1].0, before[j - 1].0));
            }
        }
        assert forall|i: int| 0 <= i < keys@.len() implies (#[trigger] keys@[i])@ == files@[i].identifier@ by {
        }
    }
    p
}

proof fn lemma_push_keeps(s: Seq<Seq<char>>, x: Seq<char>, y: Seq<char>)
    requires
        s.contains(y),
    ensures
        s.push(x).contains(y),
{
    let q = choose|q: int| 0 <= q < s.len() && s[q] == y;
    assert(s.push(x)[q] == y);
}

/// No two migration files among `entries` have the same identifier.
pub open spec fn distinct_ids(policy: IdPolicy, entries: Seq<FileEntry>) -> bool {
    forall|i: int, j: int|
        0 <= i < j < entries.len() && is_candidate(#[trigger] entries[i]) && is_candidate(
            #[trigger] entries[j],
        ) ==> identifier_of(policy, entries[i].name@) != identifier_of(policy, entries[j].name@)
}

/// No two of the files have the same identifier.
pub open spec fn unique_ids(v: Seq<(Seq<char>, Seq<char>)>) -> bool {
    forall|a: int, b: int| 0 <= a < b < v.len() ==> (#[trigger] v[a]).0 != (#[trigger] v[b]).0
}

/// The migration files among `entries`, sorted by identifier.
///
/// Entries that are not files with the SQL extension are skipped. The discovery
/// fails with a `Format` error naming the file where a migration file's name
/// lacks the separator (under `PrefixBeforeSeparator`), or where its identifier
/// repeats that of a file listed before it.
pub fn discover(policy: IdPolicy, entries: &Vec<FileEntry>) -> (r: Result<Vec<MigrationFile>, MigrateError>)
    ensures
        r is Ok <==> all_named(policy, entries@) && distinct_ids(policy, entries@),
        r matches Ok(files) ==> sorted_by_id(files_view(files@)) && unique_ids(files_view(files@))
            && files_view(files@).to_multiset() == discovered(policy, entries@).to_multiset(),
        r matches Err(e) ==> e is Format && exists|i: int|
            0 <= i < entries@.len() && is_candidate(entries@[i]) && e.subject() == entries@[i].name@
                && (!has_identifier(policy, entries@[i].name@) || exists|j: int|
                0 <= j < i && is_candidate(entries@[j]) && has_identifier(policy, entries@[j].name@)
                    && has_identifier(policy, entries@[i].name@) && identifier_of(
                    policy,
                    entries@[j].name@,
                ) == identifier_of(policy, entries@[i].name@)),
{
    let mut files: Vec<MigrationFile> = Vec::new();
    let mut keys: Vec<Vec<char>> = Vec::new();
    let mut seen: Vec<String> = Vec::new();
    let ghost mut origin: Seq<int> = Seq::empty();
    let mut i: usize = 0;
    assert(files_view(files@) =~= Seq::empty());
    assert(discovered(policy, entries@.take(0)) =~= Seq::empty());
    while i < entries.len()
        invariant
            i <= entries@.len(),
            files@.len() == keys@.len(),
            forall|j: int| 0 <= j < keys@.len() ==> (#[trigger] keys@[j])@ == files@[j].identifier@,
            sorted_by_id(files_view(files@)),
            files_view(files@).to_multiset() == discovered(policy, entries@.take(i as int)).to_multiset(),
            all_named(policy, entries@.take(i as int)),
            forall|j: int|
                0 <= j < i && is_candidate(#[trigger] entries@[j]) ==> names_view(seen@).contains(
                    identifier_of(policy, entries@[j].name@),
                ),
            origin.len() == seen@.len(),
            forall|m: int|
                0 <= m < seen@.len() ==> 0 <= #[trigger] origin[m] < i && is_candidate(
                    entries@[origin[m]],
                ) && identifier_of(policy, entries@[origin[m]].name@) == seen@[m]@,
            forall|a: int, b: int|
                0 <= a < b < i && is_candidate(#[trigger] entries@[a]) && is_candidate(
                    #[trigger] entries@[b],
                ) ==> identifier_of(policy, entries@[a].name@) != identifier_of(
                    policy,
                    entries@[b].name@,
                ),
            forall|m: int|
                0 <= m < files@.len() ==> names_view(seen@).contains(
                    (#[trigger] files@[m]).identifier@,
                ),
            unique_ids(files_view(files@)),
        decreases entries@.len() - i,
    {
        let e = &entries[i];
        assert(entries@.take(i + 1).drop_last() =~= entries@.take(i as int));
        let name_chars = chars_of(e.name.as_str());
        if e.is_file && is_sql_name_exec(&name_chars) {
            match identifier_for(policy, e.name.as_str()) {
                Some(id) => {
                    if contains_name(&seen, &id) {
                        proof {
                            let m = choose|m: int|
                                0 <= m < seen@.len() && names_view(seen@)[m] == id@;
                            assert(names_view(seen@)[m] == seen@[m]@);
                            let j = origin[m];
                            assert(entries@.take(i as int)[j] == entries@[j]);
                            assert(!distinct_ids(policy, entries@));
                        }
                        return Err(MigrateError::Format(e.name.clone()));
                    }
                    let k = chars_of(id.as_str());
                    let f = MigrationFile { identifier: id.clone(), file_name: e.name.clone() };
                    let ghost old_files = files@;
                    let ghost old_seen = names_view(seen@);
                    let ghost old_seen_v = seen@;
                    seen.push(id);
                    assert(names_view(seen@) =~= old_seen.push(id@));
                    let p = insert_sorted(&mut files, &mut keys, f, k);
                    proof {
                        assert forall|m: int| 0 <= m < files@.len() implies names_view(
                            seen@,
                        ).contains((#[trigger] files@[m]).identifier@) by {
                            if m == p {
                                assert(names_view(seen@)[old_seen.len() as int] == id@);
                            } else {
                                let om = if m < p {
                                    m
                                } else {
                                    m - 1
                                };
                                assert(files@[m] == old_files[om]);
                                assert(old_seen.contains(old_files[om].identifier@));
                                lemma_push_keeps(old_seen, id@, old_files[om].identifier@);
                            }
                        }
                        assert forall|a: int, b: int|
                            0 <= a < b < files_view(files@).len() implies (#[trigger] files_view(
                            files@,
                        )[a]).0 != (#[trigger] files_view(files@)[b]).0 by {
                            let oa = if a < p {
                                a
                            } else {
                                a - 1
                            };
                            let ob = if b < p {
                                b
                            } else {
                                b - 1
                            };
                            if a == p {
                                assert(old_seen.contains(old_files[ob].identifier@));
                            } else if b == p {
                                assert(old_seen.contains(old_files[oa].identifier@));
                            } else {
                                assert(files_view(old_files)[oa].0 != files_view(old_files)[ob].0);
                            }
                        }
                        origin = origin.push(i as int);
                        assert forall|m: int| 0 <= m < seen@.len() implies 0 <= #[trigger] origin[m]
                            < i + 1 && is_candidate(entries@[origin[m]]) && identifier_of(
                            policy,
                            entries@[origin[m]].name@,
                        ) == seen@[m]@ by {
                            if m < seen@.len() - 1 {
                                assert(seen@[m] == old_seen_v[m]);
                            }
                        }
                        assert forall|j: int|
                            0 <= j < i && is_candidate(#[trigger] entries@[j]) implies identifier_of(
                            policy,
                            entries@[j].name@,
                        ) != id@ by {
                            assert(old_seen.contains(identifier_of(policy, entries@[j].name@)));
                        }
                        assert forall|j: int|
                            0 <= j < i + 1 && is_candidate(#[trigger] entries@[j]) implies names_view(
                            seen@,
                        ).contains(identifier_of(policy, entries@[j].name@)) by {
                            if j < i {
                                lemma_push_keeps(
                                    old_seen,
                                    id@,
                                    identifier_of(policy, entries@[j].name@),
                                );
                            } else {
                                assert(names_view(seen@)[old_seen.len() as int] == id@);
                            }
                        }
                    }
                },
                None => {
                    return Err(MigrateError::Format(e.name.clone()));
                },
            }
        } else {
            assert(!is_candidate(entries@[i as int]));
        }
        assert forall|j: int|
            0 <= j < entries@.take(i + 1).len() && is_candidate(
                #[trigger] entries@.take(i + 1)[j],
            ) implies has_identifier(policy, entries@.take(i + 1)[j].name@) by {
            if j < i {
                assert(entries@.take(i + 1)[j] == entries@.take(i as int)[j]);
            }
        }
        i += 1;
    }
    assert(entries@.take(i as int) =~= entries@);
    Ok(files)
}

} // verus!
