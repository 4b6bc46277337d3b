//! Character-sequence helpers shared by the scanner and the splitter.
use vstd::prelude::*;

verus! {

/// The characters that trimming removes: Unicode's White_Space set.
pub open spec fn is_space(c: char) -> bool {
    ||| '\t' <= c <= '\r'
    ||| c == ' '
    ||| c == '\u{85}'
    ||| c == '\u{a0}'
    ||| c == '\u{1680}'
    ||| '\u{2000}' <= c <= '\u{200a}'
    ||| c == '\u{2028}'
    ||| c == '\u{2029}'
    ||| c == '\u{202f}'
    ||| c == '\u{205f}'
    ||| c == '\u{3000}'
}

/// The characters that may stand around a marker on its line.
pub open spec fn is_blank(c: char) -> bool {
    c == ' ' || c == '\t'
}

/// The first position at or after `k` that does not hold a blank.
pub open spec fn skip_blanks(s: Seq<char>, k: int) -> int
    decreases s.len() - k,
{
    if 0 <= k < s.len() && is_blank(s[k]) {
        skip_blanks(s, k + 1)
    } else {
        k
    }
}

/// Only blanks stand between the start of the line and position `i`.
pub open spec fn line_starts_before(s: Seq<char>, i: int) -> bool
    decreases i,
{
    if i <= 0 {
        true
    } else if s[i - 1] == '\n' {
        true
    } else if is_blank(s[i - 1]) {
        line_starts_before(s, i - 1)
    } else {
        false
    }
}

/// Only blanks stand between position `k` and the end of the line.
pub open spec fn line_ends_after(s: Seq<char>, k: int) -> bool {
    let m = skip_blanks(s, k);
    m >= s.len() || s[m] == '\n' || s[m] == '\r'
}

/// The first position at or after `k` that does not hold a blank.
pub fn skip_blanks_exec(s: &Vec<char>, k: usize) -> (r: usize)
    requires
        k <= s@.len(),
    ensures
        r == skip_blanks(s@, k as int),
        k <= r <= s@.len(),
{
    let mut j: usize = k;
    while j < s.len() && (s[j] == ' ' || s[j] == '\t')
        invariant
            k <= j <= s@.len(),
            skip_blanks(s@, k as int) == skip_blanks(s@, j as int),
        decreases s@.len() - j,
    {
        j += 1;
    }
    j
}

/// Whether only blanks stand between the start of the line and position `i`.
pub fn line_starts_before_exec(s: &Vec<char>, i: usize) -> (r: bool)
    requires
        i <= s@.len(),
    ensures
        r == line_starts_before(s@, i as int),
{
    let mut j: usize = i;
    while j > 0 && (s[j - 1] == ' ' || s[j - 1] == '\t')
        invariant
            j <= i <= s@.len(),
            line_starts_before(s@, i as int) == line_starts_before(s@, j as int),
        decreases j,
    {
        j -= 1;
    }
    j == 0 || s[j - 1] == '\n'
}

/// `c` equals `pattern` up to ASCII letter case; `pattern` is written in lower case.
pub open spec fn same_ci(c: char, pattern: char) -> bool {
    c == pattern || ('a' <= pattern && pattern <= 'z' && c as u32 + 32 == pattern as u32)
}

/// `s` holds `pattern`, up to ASCII letter case, starting at position `i`.
pub open spec fn occurs_at(s: Seq<char>, i: int, pattern: Seq<char>) -> bool {
    &&& 0 <= i
    &&& i + pattern.len() <= s.len()
    &&& forall|j: int| 0 <= j < pattern.len() ==> same_ci(#[trigger] s[i + j], pattern[j])
}

pub open spec fn trim_start(s: Seq<char>) -> Seq<char>
    decreases s.len(),
{
    if s.len() > 0 && is_space(s[0]) {
        trim_start(s.drop_first())
    } else {
        s
    }
}

pub open spec fn trim_end(s: Seq<char>) -> Seq<char>
    decreases s.len(),
{
    if s.len() > 0 && is_space(s.last()) {
        trim_end(s.drop_last())
    } else {
        s
    }
}

/// `s` without its leading and trailing white space.
pub open spec fn trim(s: Seq<char>) -> Seq<char> {
    trim_end(trim_start(s))
}

pub fn is_space_exec(c: char) -> (r: bool)
    ensures
        r == is_space(c),
{
    ('\t' <= c && c <= '\r') || c == ' ' || c == '\u{85}' || c == '\u{a0}' || c == '\u{1680}' || (
    '\u{2000}' <= c && c <= '\u{200a}') || c == '\u{2028}' || c == '\u{2029}' || c == '\u{202f}'
        || c == '\u{205f}' || c == '\u{3000}'
}

pub fn same_ci_exec(c: char, pattern: char) -> (r: bool)
    ensures
        r == same_ci(c, pattern),
{
    c == pattern || ('a' <= pattern && pattern <= 'z' && c as u32 + 32 == pattern as u32)
}

/// Whether `pattern` occurs in `s` at position `i`, up to ASCII letter case.
pub fn occurs_at_exec(s: &Vec<char>, i: usize, pattern: &Vec<char>) -> (r: bool)
    ensures
        r == occurs_at(s@, i as int, pattern@),
{
    if i > s.len() || pattern.len() > s.len() - i {
        return false;
    }
    let n = s.len();
    let mut j: usize = 0;
    while j < pattern.len()
        invariant
            n == s@.len(),
            i + pattern@.len() <= s@.len(),
            i <= s@.len(),
            j <= pattern@.len(),
            forall|k: int| 0 <= k < j ==> same_ci(#[trigger] s@[i + k], pattern@[k]),
        decreases pattern@.len() - j,
    {
        if !same_ci_exec(s[i + j], pattern[j]) {
            assert(!same_ci(s@[i + j as int], pattern@[j as int]));
            return false;
        }
        j += 1;
    }
    true
}

/// The bounds `(a, b)` of `s[from..to]` with white space stripped at both ends.
pub fn trim_bounds(s: &Vec<char>, from: usize, to: usize) -> (r: (usize, usize))
    requires
        from <= to <= s@.len(),
    ensures
        from <= r.0 <= r.1 <= to,
        s@.subrange(r.0 as int, r.1 as int) == trim(s@.subrange(from as int, to as int)),
{
    let mut a: usize = from;
    while a < to && is_space_exec(s[a])
        invariant
            from <= a <= to <= s@.len(),
            trim_start(s@.subrange(from as int, to as int)) == trim_start(
                s@.subrange(a as int, to as int),
            ),
        decreases to - a,
    {
        assert(s@.subrange(a as int, to as int).drop_first() =~= s@.subrange(
            a + 1,
            to as int,
        ));
        a += 1;
    }
    assert(trim_start(s@.subrange(a as int, to as int)) == s@.subrange(a as int, to as int));
    let mut b: usize = to;
    while b > a && is_space_exec(s[b - 1])
        invariant
            from <= a <= b <= to <= s@.len(),
            trim(s@.subrange(from as int, to as int)) == trim_end(
                s@.subrange(a as int, b as int),
            ),
        decreases b - a,
    {
        assert(s@.subrange(a as int, b as int).drop_last() =~= s@.subrange(
            a as int,
            b - 1,
        ));
        b -= 1;
    }
    (a, b)
}

} // verus!
