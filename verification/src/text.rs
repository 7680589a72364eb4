//! Character-level text helpers over `Seq<char>` models, used by the
//! diagnostic, reflection and rendering code.
use vstd::prelude::*;

verus! {

/// Unicode `White_Space`, the property behind `char::is_whitespace`.
pub open spec fn is_space(c: char) -> bool {
    ||| c == ' '
    ||| ('\t' <= c && c <= '\r')
    ||| c == '\u{85}'
    ||| c == '\u{a0}'
    ||| c == '\u{1680}'
    ||| ('\u{2000}' <= c && c <= '\u{200a}')
    ||| c == '\u{2028}'
    ||| c == '\u{2029}'
    ||| c == '\u{202f}'
    ||| c == '\u{205f}'
    ||| c == '\u{3000}'
}

/// `t` without its leading white space.
pub open spec fn trim_start(t: Seq<char>) -> Seq<char>
    decreases t.len(),
{
    if t.len() > 0 && is_space(t[0]) {
        trim_start(t.drop_first())
    } else {
        t
    }
}

/// `t` without its trailing white space.
pub open spec fn trim_end(t: Seq<char>) -> Seq<char>
    decreases t.len(),
{
    if t.len() > 0 && is_space(t.last()) {
        trim_end(t.drop_last())
    } else {
        t
    }
}

/// `t` without leading and trailing white space.
pub open spec fn trim(t: Seq<char>) -> Seq<char> {
    trim_end(trim_start(t))
}

/// `p` is a prefix of `t`.
pub open spec fn has_prefix(t: Seq<char>, p: Seq<char>) -> bool {
    p.len() <= t.len() && t.subrange(0, p.len() as int) == p
}

/// `p` is a suffix of `t`.
pub open spec fn has_suffix(t: Seq<char>, p: Seq<char>) -> bool {
    p.len() <= t.len() && t.subrange(t.len() - p.len(), t.len() as int) == p
}

/// `t` with the prefix `p` removed, when it has it.
pub open spec fn strip_prefix(t: Seq<char>, p: Seq<char>) -> Option<Seq<char>> {
    if has_prefix(t, p) {
        Some(t.subrange(p.len() as int, t.len() as int))
    } else {
        None
    }
}

/// `p` occurs in `t` starting at index `i`.
pub open spec fn occurs_at(t: Seq<char>, p: Seq<char>, i: int) -> bool {
    0 <= i && i + p.len() <= t.len() && t.subrange(i, i + p.len()) == p
}

/// `p` occurs somewhere in `t`.
pub open spec fn contains_seq(t: Seq<char>, p: Seq<char>) -> bool {
    exists|i: int| occurs_at(t, p, i)
}

/// Index of the first occurrence of `p` in `t` at or after `from`.
pub open spec fn first_occurrence_from(t: Seq<char>, p: Seq<char>, from: int) -> Option<int>
    decreases t.len() + 1 - from,
{
    if from < 0 || from + p.len() > t.len() {
        None
    } else if occurs_at(t, p, from) {
        Some(from)
    } else {
        first_occurrence_from(t, p, from + 1)
    }
}

/// Index of the first occurrence of `p` in `t`.
pub open spec fn first_occurrence(t: Seq<char>, p: Seq<char>) -> Option<int> {
    first_occurrence_from(t, p, 0)
}

/// Index of the last character of `t` before index `end` that equals `c`.
pub open spec fn last_char_before(t: Seq<char>, end: int, c: char) -> Option<int>
    decreases end,
{
    if end <= 0 || end > t.len() {
        None
    } else if t[end - 1] == c {
        Some(end - 1)
    } else {
        last_char_before(t, end - 1, c)
    }
}

/// Index of the last character of `t` that equals `c`.
pub open spec fn last_index_of(t: Seq<char>, c: char) -> Option<int> {
    last_char_before(t, t.len() as int, c)
}

pub open spec fn is_path_separator(c: char) -> bool {
    c == '/' || c == '\\'
}

/// Index of the last path separator of `t` before index `end`.
pub open spec fn last_separator_before(t: Seq<char>, end: int) -> Option<int>
    decreases end,
{
    if end <= 0 || end > t.len() {
        None
    } else if is_path_separator(t[end - 1]) {
        Some(end - 1)
    } else {
        last_separator_before(t, end - 1)
    }
}

/// `t` split around the last character equal to `c` (`str::rsplit_once`).
pub open spec fn rsplit_once(t: Seq<char>, c: char) -> Option<(Seq<char>, Seq<char>)> {
    match last_index_of(t, c) {
        Some(i) => Some((t.subrange(0, i), t.subrange(i + 1, t.len() as int))),
        None => None,
    }
}

/// `t` split around the first occurrence of the pattern `p` (`str::split_once`).
pub open spec fn split_once(t: Seq<char>, p: Seq<char>) -> Option<(Seq<char>, Seq<char>)> {
    match first_occurrence(t, p) {
        Some(i) => Some((t.subrange(0, i), t.subrange(i + p.len(), t.len() as int))),
        None => None,
    }
}

/// The last path component of `t`: what follows its last `/` or `\`.
pub open spec fn last_path_component(t: Seq<char>) -> Seq<char> {
    match last_separator_before(t, t.len() as int) {
        Some(i) => t.subrange(i + 1, t.len() as int),
        None => t,
    }
}

/// `t` with one trailing carriage return removed.
pub open spec fn strip_cr(t: Seq<char>) -> Seq<char> {
    if t.len() > 0 && t.last() == '\r' {
        t.drop_last()
    } else {
        t
    }
}

/// The finished lines of `t` and the unfinished line that follows them.
pub open spec fn line_state(t: Seq<char>) -> (Seq<Seq<char>>, Seq<char>)
    decreases t.len(),
{
    if t.len() == 0 {
        (Seq::empty(), Seq::empty())
    } else {
        let (done, current) = line_state(t.drop_last());
        if t.last() == '\n' {
            (done.push(strip_cr(current)), Seq::empty())
        } else {
            (done, current.push(t.last()))
        }
    }
}

/// The lines of `t` as `str::lines` yields them: split at `\n`, one `\r`
/// before each `\n` removed, and no empty line after a final `\n`.
pub open spec fn lines(t: Seq<char>) -> Seq<Seq<char>> {
    let (done, current) = line_state(t);
    if current.len() > 0 {
        done.push(current)
    } else {
        done
    }
}

pub open spec fn is_ascii_digit(c: char) -> bool {
    '0' <= c && c <= '9'
}

pub open spec fn all_ascii_digits(t: Seq<char>) -> bool {
    forall|i: int| 0 <= i < t.len() ==> is_ascii_digit(#[trigger] t[i])
}

pub open spec fn digit_value(c: char) -> int {
    (c as int) - ('0' as int)
}

/// The decimal number spelled by the digits `t`.
pub open spec fn decimal_value(t: Seq<char>) -> int
    decreases t.len(),
{
    if t.len() == 0 {
        0
    } else {
        decimal_value(t.drop_last()) * 10 + digit_value(t.last())
    }
}

/// What `str::parse::<usize>` gives for a string of ASCII digits.
pub open spec fn parse_usize_digits(t: Seq<char>) -> Option<int> {
    if t.len() == 0 || !all_ascii_digits(t) || decimal_value(t) > usize::MAX {
        None
    } else {
        Some(decimal_value(t))
    }
}

/// The characters of `s`, in order.
pub fn chars_of(s: &str) -> (v: Vec<char>)
    ensures
        v@ == s@,
{
    let mut v: Vec<char> = Vec::new();
    for c in it: s.chars()
        invariant
            v@ == it.seq().take(it.index() as int),
    {
        v.push(c);
    }
    proof {
        assert(v@ =~= s@);
    }
    v
}

/// Appends one character to a string.
#[verifier::external_body]
pub fn push_char(s: &mut String, c: char)
    ensures
        final(s)@ == old(s)@.push(c),
{
    s.push(c);
}

/// A string holding the characters `v[lo..hi]`.
pub fn string_of(v: &[char], lo: usize, hi: usize) -> (r: String)
    requires
        lo <= hi <= v@.len(),
    ensures
        r@ == v@.subrange(lo as int, hi as int),
{
    let mut r = String::new();
    let mut i = lo;
    while i < hi
        invariant
            lo <= i <= hi <= v@.len(),
            r@ == v@.subrange(lo as int, i as int),
        decreases hi - i,
    {
        push_char(&mut r, v[i]);
        proof {
            assert(v@.subrange(lo as int, i + 1) =~= v@.subrange(lo as int, i as int).push(v@[i as int]));
        }
        i = i + 1;
    }
    r
}

/// `char::is_whitespace`.
pub fn is_space_char(c: char) -> (r: bool)
    ensures
        r == is_space(c),
{
    c == ' ' || ('\t' <= c && c <= '\r') || c == '\u{85}' || c == '\u{a0}' || c == '\u{1680}'
        || ('\u{2000}' <= c && c <= '\u{200a}') || c == '\u{2028}' || c == '\u{2029}'
        || c == '\u{202f}' || c == '\u{205f}' || c == '\u{3000}'
}

proof fn lemma_trim_start_fixed(t: Seq<char>)
    requires
        t.len() == 0 || !is_space(t[0]),
    ensures
        trim_start(t) == t,
{
}

proof fn lemma_trim_end_fixed(t: Seq<char>)
    requires
        t.len() == 0 || !is_space(t.last()),
    ensures
        trim_end(t) == t,
{
}

/// The bounds of `v[lo..hi]` with leading white space removed.
pub fn trim_start_bounds(v: &[char], lo: usize, hi: usize) -> (a: usize)
    requires
        lo <= hi <= v@.len(),
    ensures
        lo <= a <= hi,
        v@.subrange(a as int, hi as int) == trim_start(v@.subrange(lo as int, hi as int)),
{
    let mut a = lo;
    while a < hi && is_space_char(v[a])
        invariant
            lo <= a <= hi <= v@.len(),
            trim_start(v@.subrange(lo as int, hi as int)) == trim_start(v@.subrange(a as int, hi as int)),
        decreases hi - a,
    {
        proof {
            assert(v@.subrange(a as int, hi as int).drop_first() =~= v@.subrange(a + 1, hi as int));
        }
        a = a + 1;
    }
    proof {
        lemma_trim_start_fixed(v@.subrange(a as int, hi as int));
    }
    a
}

/// The bounds of `v[lo..hi]` with leading and trailing white space removed.
pub fn trim_bounds(v: &[char], lo: usize, hi: usize) -> (r: (usize, usize))
    requires
        lo <= hi <= v@.len(),
    ensures
        lo <= r.0 <= r.1 <= hi,
        v@.subrange(r.0 as int, r.1 as int) == trim(v@.subrange(lo as int, hi as int)),
{
    let a = trim_start_bounds(v, lo, hi);
    let mut b = hi;
    while b > a && is_space_char(v[b - 1])
        invariant
            lo <= a <= b <= hi <= v@.len(),
            trim_end(v@.subrange(a as int, hi as int)) == trim_end(v@.subrange(a as int, b as int)),
        decreases b - a,
    {
        proof {
            assert(v@.subrange(a as int, b as int).drop_last() =~= v@.subrange(a as int, b - 1));
        }
        b = b - 1;
    }
    proof {
        lemma_trim_end_fixed(v@.subrange(a as int, b as int));
    }
    (a, b)
}

/// Whether `v[lo..hi]` starts with `p`.
pub fn starts_with_at(v: &[char], lo: usize, hi: usize, p: &[char]) -> (r: bool)
    requires
        lo <= hi <= v@.len(),
    ensures
        r == has_prefix(v@.subrange(lo as int, hi as int), p@),
{
    if p.len() > hi - lo {
        return false;
    }
    let mut i: usize = 0;
    while i < p.len()
        invariant
            i <= p@.len(),
            lo + p@.len() <= hi <= v@.len(),
            forall|k: int| 0 <= k < i ==> v@[lo + k] == p@[k],
        decreases p@.len() - i,
    {
        if v[lo + i] != p[i] {
            proof {
                assert(v@.subrange(lo as int, hi as int).subrange(0, p@.len() as int)[i as int] != p@[i as int]);
            }
            return false;
        }
        i = i + 1;
    }
    proof {
        assert(v@.subrange(lo as int, hi as int).subrange(0, p@.len() as int) =~= p@);
    }
    true
}

/// Whether `v[lo..hi]` ends with `p`.
pub fn ends_with_at(v: &[char], lo: usize, hi: usize, p: &[char]) -> (r: bool)
    requires
        lo <= hi <= v@.len(),
    ensures
        r == has_suffix(v@.subrange(lo as int, hi as int), p@),
{
    if p.len() > hi - lo {
        return false;
    }
    let start = hi - p.len();
    let r = starts_with_at(v, start, hi, p);
    proof {
        let t = v@.subrange(lo as int, hi as int);
        assert(t.subrange(t.len() - p@.len(), t.len() as int) =~= v@.subrange(start as int, hi as int));
        assert(v@.subrange(start as int, hi as int).subrange(0, p@.len() as int) =~= v@.subrange(start as int, hi as int));
    }
    r
}

/// Whether `p` occurs in `v[lo..hi]` starting at index `i` (relative to `lo`).
pub fn occurs_at_exec(v: &[char], lo: usize, hi: usize, p: &[char], i: usize) -> (r: bool)
    requires
        lo <= hi <= v@.len(),
        i <= hi - lo,
    ensures
        r == occurs_at(v@.subrange(lo as int, hi as int), p@, i as int),
{
    let r = starts_with_at(v, lo + i, hi, p);
    proof {
        let t = v@.subrange(lo as int, hi as int);
        if i + p@.len() <= t.len() {
            assert(t.subrange(i as int, i + p@.len()) =~= v@.subrange(lo + i, hi as int).subrange(0, p@.len() as int));
        }
    }
    r
}

/// Index (relative to `lo`) of the first occurrence of `p` in `v[lo..hi]`.
pub fn find_first(v: &[char], lo: usize, hi: usize, p: &[char]) -> (r: Option<usize>)
    requires
        lo <= hi <= v@.len(),
    ensures
        match r {
            Some(i) => i + p@.len() <= hi - lo && first_occurrence(v@.subrange(lo as int, hi as int), p@) == Some(i as int),
            None => first_occurrence(v@.subrange(lo as int, hi as int), p@) is None,
        },
{
    let ghost t = v@.subrange(lo as int, hi as int);
    if p.len() > hi - lo {
        return None;
    }
    let limit = hi - lo - p.len();
    let mut i: usize = 0;
    loop
        invariant
            lo <= hi <= v@.len(),
            p@.len() <= hi - lo,
            limit == hi - lo - p@.len(),
            i <= limit,
            t == v@.subrange(lo as int, hi as int),
            first_occurrence(t, p@) == first_occurrence_from(t, p@, i as int),
        decreases limit - i,
    {
        if occurs_at_exec(v, lo, hi, p, i) {
            return Some(i);
        }
        if i >= limit {
            proof {
                assert(first_occurrence_from(t, p@, i + 1) is None);
            }
            return None;
        }
        i = i + 1;
    }
}

/// Whether `p` occurs anywhere in `v[lo..hi]`.
pub fn contains_at(v: &[char], lo: usize, hi: usize, p: &[char]) -> (r: bool)
    requires
        lo <= hi <= v@.len(),
    ensures
        r == contains_seq(v@.subrange(lo as int, hi as int), p@),
{
    let found = find_first(v, lo, hi, p);
    proof {
        lemma_first_occurrence_iff_contains(v@.subrange(lo as int, hi as int), p@, 0);
    }
    found.is_some()
}

/// The first-occurrence search from `from` finds something exactly when `p`
/// occurs at some index not before `from`, and what it finds is such an index.
pub proof fn lemma_first_occurrence_iff_contains(t: Seq<char>, p: Seq<char>, from: int)
    requires
        0 <= from,
    ensures
        (first_occurrence_from(t, p, from) is Some) == (exists|i: int| from <= i && occurs_at(t, p, i)),
        first_occurrence_from(t, p, from) matches Some(i) ==> from <= i && occurs_at(t, p, i),
    decreases t.len() + 1 - from,
{
    if from + p.len() > t.len() {
        assert forall|i: int| from <= i implies !occurs_at(t, p, i) by {}
    } else if !occurs_at(t, p, from) {
        lemma_first_occurrence_iff_contains(t, p, from + 1);
        assert forall|i: int| from <= i && occurs_at(t, p, i) implies from + 1 <= i by {}
    }
}

proof fn lemma_last_char_before_bounds(t: Seq<char>, end: int, c: char)
    ensures
        last_char_before(t, end, c) matches Some(i) ==> 0 <= i < end && i < t.len() && t[i] == c,
    decreases end,
{
    if 0 < end <= t.len() && t[end - 1] != c {
        lemma_last_char_before_bounds(t, end - 1, c);
    }
}

proof fn lemma_last_separator_before_bounds(t: Seq<char>, end: int)
    ensures
        last_separator_before(t, end) matches Some(i) ==> 0 <= i < end && i < t.len() && is_path_separator(t[i]),
    decreases end,
{
    if 0 < end <= t.len() && !is_path_separator(t[end - 1]) {
        lemma_last_separator_before_bounds(t, end - 1);
    }
}

/// Index (relative to `lo`) of the last character of `v[lo..hi]` equal to `c`.
pub fn find_last_char(v: &[char], lo: usize, hi: usize, c: char) -> (r: Option<usize>)
    requires
        lo <= hi <= v@.len(),
    ensures
        match r {
            Some(i) => i < hi - lo && last_index_of(v@.subrange(lo as int, hi as int), c) == Some(i as int),
            None => last_index_of(v@.subrange(lo as int, hi as int), c) is None,
        },
{
    let ghost t = v@.subrange(lo as int, hi as int);
    let mut end = hi - lo;
    while end > 0
        invariant
            lo <= hi <= v@.len(),
            end <= hi - lo,
            t == v@.subrange(lo as int, hi as int),
            last_index_of(t, c) == last_char_before(t, end as int, c),
        decreases end,
    {
        if v[lo + end - 1] == c {
            return Some(end - 1);
        }
        end = end - 1;
    }
    None
}

/// Index (relative to `lo`) of the last `/` or `\` in `v[lo..hi]`.
pub fn find_last_separator(v: &[char], lo: usize, hi: usize) -> (r: Option<usize>)
    requires
        lo <= hi <= v@.len(),
    ensures
        match r {
            Some(i) => i < hi - lo && last_separator_before(v@.subrange(lo as int, hi as int), hi - lo) == Some(i as int),
            None => last_separator_before(v@.subrange(lo as int, hi as int), hi - lo) is None,
        },
{
    let ghost t = v@.subrange(lo as int, hi as int);
    let mut end = hi - lo;
    while end > 0
        invariant
            lo <= hi <= v@.len(),
            end <= hi - lo,
            t == v@.subrange(lo as int, hi as int),
            last_separator_before(t, hi - lo) == last_separator_before(t, end as int),
        decreases end,
    {
        let x = v[lo + end - 1];
        if x == '/' || x == '\\' {
            return Some(end - 1);
        }
        end = end - 1;
    }
    None
}

/// Whether `v[lo..hi]` equals `p`.
pub fn equals_at(v: &[char], lo: usize, hi: usize, p: &[char]) -> (r: bool)
    requires
        lo <= hi <= v@.len(),
    ensures
        r == (v@.subrange(lo as int, hi as int) == p@),
{
    if hi - lo != p.len() {
        proof {
            assert(v@.subrange(lo as int, hi as int).len() != p@.len());
        }
        return false;
    }
    let r = starts_with_at(v, lo, hi, p);
    proof {
        assert(v@.subrange(lo as int, hi as int).subrange(0, p@.len() as int) =~= v@.subrange(lo as int, hi as int));
    }
    r
}

/// The decimal value of the ASCII digits `v[lo..hi]`, when it fits in `usize`
/// (`str::parse::<usize>` on a string already known to be digits only).
pub fn parse_usize_at(v: &[char], lo: usize, hi: usize) -> (r: Option<usize>)
    requires
        lo <= hi <= v@.len(),
    ensures
        match r {
            Some(n) => parse_usize_digits(v@.subrange(lo as int, hi as int)) == Some(n as int),
            None => parse_usize_digits(v@.subrange(lo as int, hi as int)) is None,
        },
{
    let ghost t = v@.subrange(lo as int, hi as int);
    if lo == hi {
        return None;
    }
    let mut value: usize = 0;
    let mut i = lo;
    while i < hi
        invariant
            lo <= i <= hi <= v@.len(),
            t == v@.subrange(lo as int, hi as int),
            all_ascii_digits(v@.subrange(lo as int, i as int)),
            value as int == decimal_value(v@.subrange(lo as int, i as int)),
        decreases hi - i,
    {
        let c = v[i];
        proof {
            assert(v@.subrange(lo as int, i + 1).drop_last() =~= v@.subrange(lo as int, i as int));
            assert(t.subrange(0, i - lo) =~= v@.subrange(lo as int, i as int));
            assert(t[i - lo] == c);
        }
        if !('0' <= c && c <= '9') {
            proof {
                assert(t[i - lo] == c);
            }
            return None;
        }
        let digit = (c as u32 - '0' as u32) as usize;
        match value.checked_mul(10) {
            None => {
                proof {
                    lemma_decimal_value_prefix_bound(t, (i - lo) as int);
                }
                return None;
            },
            Some(scaled) => match scaled.checked_add(digit) {
                None => {
                    proof {
                        lemma_decimal_value_prefix_bound(t, (i - lo) as int);
                    }
                    return None;
                },
                Some(next) => {
                    value = next;
                },
            },
        }
        i = i + 1;
    }
    proof {
        assert(v@.subrange(lo as int, hi as int) =~= t);
    }
    Some(value)
}

pub proof fn lemma_decimal_value_monotone(t: Seq<char>, k: int)
    requires
        0 <= k <= t.len(),
        all_ascii_digits(t),
    ensures
        decimal_value(t.subrange(0, k)) <= decimal_value(t),
        0 <= decimal_value(t.subrange(0, k)),
    decreases t.len(),
{
    if k == t.len() {
        assert(t.subrange(0, k) =~= t);
        lemma_decimal_value_nonneg(t);
    } else {
        let d = t.drop_last();
        assert(all_ascii_digits(d));
        assert(d.subrange(0, k) =~= t.subrange(0, k));
        lemma_decimal_value_monotone(d, k);
        lemma_decimal_value_nonneg(d);
    }
}

pub proof fn lemma_decimal_value_nonneg(t: Seq<char>)
    requires
        all_ascii_digits(t),
    ensures
        0 <= decimal_value(t),
    decreases t.len(),
{
    if t.len() > 0 {
        assert(all_ascii_digits(t.drop_last()));
        lemma_decimal_value_nonneg(t.drop_last());
    }
}

/// When the digits of `t` up to and including index `k` already exceed
/// `usize::MAX`, so does the whole number (or `t` has a non-digit).
proof fn lemma_decimal_value_prefix_bound(t: Seq<char>, k: int)
    requires
        0 <= k < t.len(),
        all_ascii_digits(t.subrange(0, k)),
        is_ascii_digit(t[k]),
        decimal_value(t.subrange(0, k)) * 10 + digit_value(t[k]) > usize::MAX,
    ensures
        parse_usize_digits(t) is None,
{
    if all_ascii_digits(t) {
        assert(t.subrange(0, k + 1).drop_last() =~= t.subrange(0, k));
        lemma_decimal_value_monotone(t, k + 1);
    }
}

/// The line bounds of `v`: `lines(v)` as index pairs into `v`.
pub fn line_bounds(v: &[char]) -> (r: Vec<(usize, usize)>)
    ensures
        r@.len() == lines(v@).len(),
        forall|i: int| 0 <= i < r@.len() ==> (#[trigger] r@[i]).0 <= r@[i].1 <= v@.len(),
        forall|i: int| 0 <= i < r@.len() ==> #[trigger] v@.subrange(r@[i].0 as int, r@[i].1 as int) == lines(v@)[i],
{
    let mut done: Vec<(usize, usize)> = Vec::new();
    let mut start: usize = 0;
    let mut i: usize = 0;
    while i < v.len()
        invariant
            start <= i <= v@.len(),
            done@.len() == line_state(v@.subrange(0, i as int)).0.len(),
            forall|k: int| 0 <= k < done@.len() ==> (#[trigger] done@[k]).0 <= done@[k].1 <= v@.len(),
            forall|k: int| 0 <= k < done@.len() ==> #[trigger] v@.subrange(done@[k].0 as int, done@[k].1 as int)
                == line_state(v@.subrange(0, i as int)).0[k],
            v@.subrange(start as int, i as int) == line_state(v@.subrange(0, i as int)).1,
        decreases v@.len() - i,
    {
        let ghost prefix = v@.subrange(0, i + 1);
        proof {
            assert(prefix.drop_last() =~= v@.subrange(0, i as int));
        }
        if v[i] == '\n' {
            let end = if i > start && v[i - 1] == '\r' { i - 1 } else { i };
            proof {
                let cur = v@.subrange(start as int, i as int);
                if i > start && v@[i - 1] == '\r' {
                    assert(cur.drop_last() =~= v@.subrange(start as int, i - 1));
                }
            }
            done.push((start, end));
            start = i + 1;
            proof {
                assert(v@.subrange(start as int, i + 1) =~= Seq::<char>::empty());
            }
        } else {
            proof {
                assert(v@.subrange(start as int, i + 1) =~= v@.subrange(start as int, i as int).push(v@[i as int]));
            }
        }
        i = i + 1;
    }
    proof {
        assert(v@.subrange(0, v@.len() as int) =~= v@);
    }
    if start < v.len() {
        done.push((start, v.len()));
    }
    done
}

} // verus!

verus! {

/// The ASCII digit for `d < 10`.
pub open spec fn digit_char(d: nat) -> char {
    (('0' as nat) + d) as char
}

/// The decimal spelling of `n`, without sign or leading zeros.
pub open spec fn decimal(n: nat) -> Seq<char>
    decreases n,
{
    if n < 10 {
        seq![digit_char(n)]
    } else {
        decimal(n / 10).push(digit_char(n % 10))
    }
}

/// The ASCII digit for `d`.
pub fn digit_char_exec(d: u64) -> (c: char)
    requires
        d < 10,
    ensures
        c == digit_char(d as nat),
{
    match d {
        0 => '0',
        1 => '1',
        2 => '2',
        3 => '3',
        4 => '4',
        5 => '5',
        6 => '6',
        7 => '7',
        8 => '8',
        _ => '9',
    }
}

/// Appends the decimal spelling of `n`.
pub fn push_decimal(out: &mut String, n: u64)
    ensures
        final(out)@ == old(out)@ + decimal(n as nat),
    decreases n,
{
    if n >= 10 {
        push_decimal(out, n / 10);
    }
    push_char(out, digit_char_exec(n % 10));
    proof {
        if n >= 10 {
            assert(decimal(n as nat) == decimal((n / 10) as nat).push(digit_char((n % 10) as nat)));
        }
    }
    assert(out@ =~= old(out)@ + decimal(n as nat));
}

} // verus!
