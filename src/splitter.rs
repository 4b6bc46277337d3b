//! Splitting a migration file into its up block and its down block.
use vstd::prelude::*;
use crate::error::MigrateError;
use crate::text::{
    line_ends_after, line_starts_before, line_starts_before_exec, occurs_at, occurs_at_exec,
    skip_blanks, skip_blanks_exec, trim, trim_bounds,
};

verus! {

/// The two statement blocks of one migration file.
#[derive(Debug, Clone)]
pub struct Migration {
    pub up_sql: String,
    pub down_sql: String,
}

/// The word of the marker that opens the up block.
pub open spec fn up_word() -> Seq<char> {
    seq!['u', 'p']
}

/// The word of the marker that opens the down block.
pub open spec fn down_word() -> Seq<char> {
    seq!['d', 'o', 'w', 'n']
}

/// Where the word of a marker whose dashes stand at `i` begins.
pub open spec fn word_start(s: Seq<char>, i: int) -> int {
    skip_blanks(s, i + 2)
}

/// Where a marker whose dashes stand at `i` ends.
pub open spec fn marker_end(s: Seq<char>, i: int, word: Seq<char>) -> int {
    word_start(s, i) + word.len()
}

/// A marker stands at `i`: `--`, any run of spaces or tabs, then `word` in any
/// letter case, alone on its line apart from spaces and tabs.
pub open spec fn marker_at(s: Seq<char>, i: int, word: Seq<char>) -> bool {
    &&& 0 <= i
    &&& i + 2 <= s.len()
    &&& s[i] == '-'
    &&& s[i + 1] == '-'
    &&& line_starts_before(s, i)
    &&& occurs_at(s, word_start(s, i), word)
    &&& line_ends_after(s, marker_end(s, i, word))
}

/// `i` is the first position of `s` at which a marker of `word` stands.
pub open spec fn first_at(s: Seq<char>, word: Seq<char>, i: int) -> bool {
    &&& marker_at(s, i, word)
    &&& forall|k: int| 0 <= k < i ==> !marker_at(s, k, word)
}

/// The up marker stands once, at `u`; the first down marker stands at `d`, after it.
pub open spec fn split_points(s: Seq<char>, u: int, d: int) -> bool {
    &&& first_at(s, up_word(), u)
    &&& first_at(s, down_word(), d)
    &&& marker_end(s, u, up_word()) <= d
    &&& forall|k: int| marker_at(s, k, up_word()) ==> k == u
}

/// A file's text splits into an up block and a down block.
pub open spec fn well_formed(s: Seq<char>) -> bool {
    exists|u: int, d: int| split_points(s, u, d)
}

/// The up block of a file whose markers stand at `u` and `d`.
pub open spec fn up_block(s: Seq<char>, u: int, d: int) -> Seq<char> {
    trim(s.subrange(marker_end(s, u, up_word()), d))
}

/// The down block of a file whose down marker stands at `d`.
pub open spec fn down_block(s: Seq<char>, d: int) -> Seq<char> {
    trim(s.subrange(marker_end(s, d, down_word()), s.len() as int))
}

/// The characters of `s`, in order.
pub(crate) fn chars_of(s: &str) -> (r: Vec<char>)
    ensures
        r@ == s@,
{
    let mut v: Vec<char> = Vec::new();
    for c in it: s.chars()
        invariant
            it.seq() == s@,
            v@ == it.seq().take(it.index() as int),
    {
        v.push(c);
        assert(v@ =~= it.seq().take(it.index() as int + 1));
    }
    assert(v@ =~= s@);
    v
}

fn make_word(up: bool) -> (r: Vec<char>)
    ensures
        up ==> r@ == up_word(),
        !up ==> r@ == down_word(),
{
    let mut v: Vec<char> = Vec::new();
    if up {
        v.push('u');
        v.push('p');
        assert(v@ =~= up_word());
    } else {
        v.push('d');
        v.push('o');
        v.push('w');
        v.push('n');
        assert(v@ =~= down_word());
    }
    v
}

/// Where the marker of `word` whose dashes stand at `i` ends, if one stands there.
fn marker_at_exec(s: &Vec<char>, i: usize, word: &Vec<char>) -> (r: Option<usize>)
    ensures
        r is Some <==> marker_at(s@, i as int, word@),
        r matches Some(e) ==> e == marker_end(s@, i as int, word@) && e <= s@.len(),
{
    let n = s.len();
    if i > n || n - i < 2 || s[i] != '-' || s[i + 1] != '-' {
        return None;
    }
    if !line_starts_before_exec(s, i) {
        return None;
    }
    let w = skip_blanks_exec(s, i + 2);
    if !occurs_at_exec(s, w, word) {
        return None;
    }
    let e = w + word.len();
    let m = skip_blanks_exec(s, e);
    if m >= n || s[m] == '\n' || s[m] == '\r' {
        Some(e)
    } else {
        None
    }
}

/// The first position at or after `from` where a marker of `word` stands, with
/// the position where that marker ends.
fn find_from(s: &Vec<char>, from: usize, word: &Vec<char>) -> (r: Option<(usize, usize)>)
    ensures
        match r {
            Some((i, e)) => from <= i && marker_at(s@, i as int, word@) && e == marker_end(
                s@,
                i as int,
                word@,
            ) && e <= s@.len() && forall|k: int| from <= k < i ==> !marker_at(s@, k, word@),
            None => forall|k: int| from <= k ==> !marker_at(s@, k, word@),
        },
{
    let mut i: usize = from;
    while i < s.len()
        invariant
            from <= i,
            forall|k: int| from <= k < i ==> !marker_at(s@, k, word@),
        decreases s@.len() - i,
    {
        if let Some(e) = marker_at_exec(s, i, word) {
            return Some((i, e));
        }
        i += 1;
    }
    None
}

fn sub_string(s: &str, from: usize, to: usize) -> (r: String)
    requires
        from <= to <= s@.len(),
    ensures
        r@ == s@.subrange(from as int, to as int),
{
    s.substring_char(from, to).to_owned()
}

/// Splits the text of migration file `name` into its up and down blocks.
///
/// A marker is a line holding `--`, then any run of spaces or tabs, then `up`
/// or `down` in any letter case, with only spaces or tabs around. The up block is
/// what lies between the up marker and the first down marker, the down block what
/// follows that down marker; both are trimmed. The text is malformed, and the
/// result a `Format` error naming `name`, where either marker is missing, the
/// first down marker comes before the up marker, or the up marker occurs twice.
pub fn parse_migration(name: &str, content: &str) -> (r: Result<Migration, MigrateError>)
    ensures
        r is Ok <==> well_formed(content@),
        forall|u: int, d: int|
            split_points(content@, u, d) ==> r is Ok && r->Ok_0.up_sql@ == up_block(content@, u, d)
                && r->Ok_0.down_sql@ == down_block(content@, d),
        r matches Err(e) ==> e == MigrateError::Format(e->Format_0) && e->Format_0@ == name@,
{
    let cs = chars_of(content);
    let up = make_word(true);
    let down = make_word(false);
    let fail = MigrateError::Format(name.to_owned());
    let (u, ue) = match find_from(&cs, 0, &up) {
        Some(p) => p,
        None => {
            return Err(fail);
        },
    };
    let (d, de) = match find_from(&cs, 0, &down) {
        Some(p) => p,
        None => {
            return Err(fail);
        },
    };
    if d < ue {
        assert(!well_formed(content@)) by {
            if exists|u2: int, d2: int| split_points(content@, u2, d2) {
                let (u2, d2) = choose|u2: int, d2: int| split_points(content@, u2, d2);
                assert(u2 == u);
                assert(d2 == d);
            }
        }
        return Err(fail);
    }
    let n = cs.len();
    assert(u < n);
    if find_from(&cs, u + 1, &up).is_some() {
        return Err(fail);
    }
    assert(split_points(content@, u as int, d as int));
    assert forall|u2: int, d2: int| split_points(content@, u2, d2) implies u2 == u && d2
        == d by {}
    let (a, b) = trim_bounds(&cs, ue, d);
    let (c, e) = trim_bounds(&cs, de, cs.len());
    Ok(Migration { up_sql: sub_string(content, a, b), down_sql: sub_string(content, c, e) })
}

} // verus!
