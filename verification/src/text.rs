//! Character and text utilities shared by the parser: character classes,
//! first-occurrence search, whitespace trimming and line splitting, each with
//! an exact specification over the character sequence.

use vstd::prelude::*;

verus! {

/// Whitespace that may surround a value token or fill a blank line.
pub open spec fn is_space(c: char) -> bool {
    c == ' ' || c == '\t' || c == '\r'
}

/// A decimal digit.
pub open spec fn is_digit(c: char) -> bool {
    '0' as int <= c as int && c as int <= '9' as int
}

/// The numeric value of a decimal digit.
pub open spec fn digit_val(c: char) -> int {
    c as int - '0' as int
}

/// Whitespace test, executable form.
pub fn is_space_char(c: char) -> (r: bool)
    ensures
        r == is_space(c),
{
    c == ' ' || c == '\t' || c == '\r'
}

/// Decimal digit test, executable form.
pub fn is_digit_char(c: char) -> (r: bool)
    ensures
        r == is_digit(c),
{
    c >= '0' && c <= '9'
}

/// The numeric value of a decimal digit, executable form.
pub fn digit_value(c: char) -> (r: u64)
    requires
        is_digit(c),
    ensures
        r == digit_val(c),
        r <= 9,
{
    (c as u64) - ('0' as u64)
}

/// The index of the first occurrence of `c` in `s`, or `s.len()` when `c`
/// does not occur.
pub open spec fn find_first(s: Seq<char>, c: char) -> int
    decreases s.len(),
{
    if s.len() == 0 {
        0
    } else if s[0] == c {
        0
    } else {
        1 + find_first(s.skip(1), c)
    }
}

/// `find_first` lands in bounds, on an occurrence of `c` unless none exists,
/// and nothing before it is an occurrence.
pub proof fn lemma_find_first(s: Seq<char>, c: char)
    ensures
        0 <= find_first(s, c) <= s.len(),
        find_first(s, c) < s.len() ==> s[find_first(s, c)] == c,
        forall|j: int| 0 <= j < find_first(s, c) ==> s[j] != c,
    decreases s.len(),
{
    if s.len() == 0 {
    } else if s[0] == c {
    } else {
        lemma_find_first(s.skip(1), c);
        assert forall|j: int| 0 <= j < find_first(s, c) implies s[j] != c by {
            if j >= 1 {
                assert(s.skip(1)[j - 1] == s[j]);
            }
        }
        if find_first(s, c) < s.len() {
            assert(s.skip(1)[find_first(s.skip(1), c)] == c);
        }
    }
}

/// An index with no occurrence of `c` before it, and an occurrence at it
/// unless it is the length, is exactly `find_first`.
pub proof fn lemma_find_first_is(s: Seq<char>, c: char, i: int)
    requires
        0 <= i <= s.len(),
        i < s.len() ==> s[i] == c,
        forall|j: int| 0 <= j < i ==> s[j] != c,
    ensures
        find_first(s, c) == i,
{
    lemma_find_first(s, c);
    if find_first(s, c) < i {
        assert(s[find_first(s, c)] != c);
    }
    if find_first(s, c) > i {
        assert(s[i] != c);
    }
}

/// `t` with its leading whitespace removed.
pub open spec fn trim_left(t: Seq<char>) -> Seq<char>
    decreases t.len(),
{
    if t.len() > 0 && is_space(t[0]) {
        trim_left(t.skip(1))
    } else {
        t
    }
}

/// `t` with its trailing whitespace removed.
pub open spec fn trim_right(t: Seq<char>) -> Seq<char>
    decreases t.len(),
{
    if t.len() > 0 && is_space(t.last()) {
        trim_right(t.drop_last())
    } else {
        t
    }
}

/// `t` with whitespace removed from both ends.
pub open spec fn trim(t: Seq<char>) -> Seq<char> {
    trim_right(trim_left(t))
}

/// When everything before `lo` is whitespace and `lo` is not (or is the end),
/// trimming on the left drops exactly the first `lo` characters.
pub proof fn lemma_trim_left_at(t: Seq<char>, lo: int)
    requires
        0 <= lo <= t.len(),
        forall|j: int| 0 <= j < lo ==> is_space(t[j]),
        lo < t.len() ==> !is_space(t[lo]),
    ensures
        trim_left(t) == t.skip(lo),
    decreases lo,
{
    if lo == 0 {
        assert(t.skip(0) =~= t);
    } else {
        assert(is_space(t[0]));
        lemma_trim_left_at(t.skip(1), lo - 1);
        assert(t.skip(1).skip(lo - 1) =~= t.skip(lo));
    }
}

/// When everything from `hi` on is whitespace and the character before `hi`
/// is not (or `hi` is zero), trimming on the right keeps exactly the first
/// `hi` characters.
pub proof fn lemma_trim_right_at(t: Seq<char>, hi: int)
    requires
        0 <= hi <= t.len(),
        forall|j: int| hi <= j < t.len() ==> is_space(t[j]),
        hi > 0 ==> !is_space(t[hi - 1]),
    ensures
        trim_right(t) == t.take(hi),
    decreases t.len(),
{
    if t.len() > hi {
        assert(is_space(t.last()));
        lemma_trim_right_at(t.drop_last(), hi);
    } else {
        assert(t.take(hi) =~= t);
        if t.len() > 0 {
            assert(!is_space(t.last()));
        }
    }
}

/// Trimming on the right keeps something whenever the head is not
/// whitespace.
pub proof fn lemma_trim_right_keeps_head(t: Seq<char>)
    requires
        t.len() > 0,
        !is_space(t[0]),
    ensures
        trim_right(t).len() > 0,
    decreases t.len(),
{
    if is_space(t.last()) {
        lemma_trim_right_keeps_head(t.drop_last());
    }
}

/// Character-by-character string equality.
pub fn str_eq(a: &str, b: &str) -> (r: bool)
    ensures
        r == (a@ == b@),
{
    let an = a.unicode_len();
    let bn = b.unicode_len();
    if an != bn {
        return false;
    }
    let mut i: usize = 0;
    while i < an
        invariant
            an == a@.len(),
            an == b@.len(),
            i <= an,
            forall|k: int| 0 <= k < i ==> a@[k] == b@[k],
        decreases an - i,
    {
        if a.get_char(i) != b.get_char(i) {
            return false;
        }
        i += 1;
    }
    proof {
        assert(a@ =~= b@);
    }
    true
}

/// `s` trimmed of whitespace at both ends.
pub fn trim_str(s: &str) -> (r: String)
    ensures
        r@ == trim(s@),
{
    let n = s.unicode_len();
    let mut lo: usize = 0;
    while lo < n && is_space_char(s.get_char(lo))
        invariant
            lo <= n,
            n == s@.len(),
            forall|j: int| 0 <= j < lo ==> is_space(s@[j]),
        decreases n - lo,
    {
        lo += 1;
    }
    if lo == n {
        proof {
            lemma_trim_left_at(s@, n as int);
            assert(s@.skip(n as int) =~= Seq::<char>::empty());
        }
        return String::new();
    }
    let mut hi: usize = n;
    while hi > lo && is_space_char(s.get_char(hi - 1))
        invariant
            lo <= hi <= n,
            n == s@.len(),
            lo < n,
            !is_space(s@[lo as int]),
            forall|j: int| hi <= j < n ==> is_space(s@[j]),
        decreases hi,
    {
        hi -= 1;
    }
    let sub = s.substring_char(lo, hi);
    proof {
        lemma_trim_left_at(s@, lo as int);
        let t = s@.skip(lo as int);
        lemma_trim_right_at(t, hi - lo as int);
        assert(t.take(hi - lo as int) =~= s@.subrange(lo as int, hi as int));
    }
    sub.to_owned()
}

/// The lines of `s`: the maximal newline-free stretches between the newline
/// characters. A text of `k` newlines has `k + 1` lines; the empty text has
/// one empty line.
pub open spec fn spec_lines(s: Seq<char>) -> Seq<Seq<char>>
    decreases s.len(),
    via spec_lines_decreases
{
    let j = find_first(s, '\n');
    if j == s.len() {
        seq![s]
    } else {
        seq![s.take(j)] + spec_lines(s.skip(j + 1))
    }
}

#[via_fn]
proof fn spec_lines_decreases(s: Seq<char>) {
    lemma_find_first(s, '\n');
}

/// The views of a sequence of strings.
pub open spec fn views_of(v: Seq<String>) -> Seq<Seq<char>> {
    v.map_values(|x: String| x@)
}

/// Splits `s` at its newline characters.
pub fn split_lines(s: &str) -> (r: Vec<String>)
    ensures
        views_of(r@) == spec_lines(s@),
{
    let n = s.unicode_len();
    let mut lines: Vec<String> = Vec::new();
    let mut start: usize = 0;
    let mut i: usize = 0;
    proof {
        assert(s@.skip(0) =~= s@);
        assert(views_of(lines@) + spec_lines(s@) =~= spec_lines(s@));
    }
    while i < n
        invariant
            start <= i <= n,
            n == s@.len(),
            forall|k: int| start <= k < i ==> s@[k] != '\n',
            spec_lines(s@) == views_of(lines@) + spec_lines(s@.skip(start as int)),
        decreases n - i,
    {
        if s.get_char(i) == '\n' {
            let line = s.substring_char(start, i).to_owned();
            proof {
                let t = s@.skip(start as int);
                assert forall|j: int| 0 <= j < i - start implies t[j] != '\n' by {
                    assert(t[j] == s@[j + start]);
                }
                assert(t[i - start] == s@[i as int]);
                lemma_find_first_is(t, '\n', i - start);
                assert(t.take(i - start) =~= s@.subrange(start as int, i as int));
                assert(t.skip(i - start + 1) =~= s@.skip(i + 1));
                assert(spec_lines(t) == seq![line@] + spec_lines(s@.skip(i + 1)));
                assert(views_of(lines@ + seq![line]) =~= views_of(lines@) + seq![line@]);
                assert(lines@.push(line) == lines@ + seq![line]);
            }
            lines.push(line);
            start = i + 1;
        }
        i += 1;
    }
    let tail = s.substring_char(start, n).to_owned();
    proof {
        let t = s@.skip(start as int);
        assert forall|j: int| 0 <= j < t.len() implies t[j] != '\n' by {
            assert(t[j] == s@[j + start]);
        }
        lemma_find_first_is(t, '\n', t.len() as int);
        assert(t =~= s@.subrange(start as int, n as int));
        assert(spec_lines(t) == seq![tail@]);
        assert(views_of(lines@ + seq![tail]) =~= views_of(lines@) + seq![tail@]);
        assert(lines@.push(tail) == lines@ + seq![tail]);
    }
    lines.push(tail);
    proof {
        assert(views_of(lines@) =~= spec_lines(s@));
    }
    lines
}

} // verus!
