//! The input model: parsing and validation of the six-field textual payload.
//!
//! The payload is a block of `KEY: value` lines. The six required keys
//! `A`..`F` are matched case-insensitively; unknown keys are ignored; a
//! non-blank line without a colon, a duplicated required key, a missing
//! required key or a value of the wrong shape all fail the parse — there is
//! no partial success. `A`, `B`, `C` carry the boolean literals `true` and
//! `false`; `D` carries a decimal numeric token (kept verbatim as text, for
//! the boundary layer to evaluate); `E` and `F` carry decimal integers.

use vstd::prelude::*;

use crate::text::digit_val;
use crate::text::digit_value;
use crate::text::find_first;
use crate::text::is_digit;
use crate::text::is_digit_char;
use crate::text::is_space;
use crate::text::is_space_char;
use crate::text::lemma_find_first_is;
use crate::text::lemma_trim_left_at;
use crate::text::lemma_trim_right_keeps_head;
use crate::text::spec_lines;
use crate::text::split_lines;
use crate::text::str_eq;
use crate::text::trim;
use crate::text::trim_str;
use crate::text::views_of;

verus! {

/// A fully validated input record. The three booleans select the category;
/// `d` is the numeric token for the floating-point field, kept verbatim as
/// validated text; `e` and `f` are the two integer fields.
#[derive(Debug)]
pub struct Input {
    pub a: bool,
    pub b: bool,
    pub c: bool,
    pub d: String,
    pub e: i32,
    pub f: i32,
}

/// The mathematical model of an input record.
#[verifier::ext_equal]
pub ghost struct InputV {
    pub a: bool,
    pub b: bool,
    pub c: bool,
    pub d: Seq<char>,
    pub e: int,
    pub f: int,
}

impl View for Input {
    type V = InputV;

    open spec fn view(&self) -> InputV {
        InputV {
            a: self.a,
            b: self.b,
            c: self.c,
            d: self.d@,
            e: self.e as int,
            f: self.f as int,
        }
    }
}

impl PartialEq for Input {
    fn eq(&self, other: &Input) -> bool {
        self.a == other.a && self.b == other.b && self.c == other.c && self.d == other.d
            && self.e == other.e && self.f == other.f
    }
}

impl vstd::std_specs::cmp::PartialEqSpecImpl for Input {
    open spec fn obeys_eq_spec() -> bool {
        true
    }

    open spec fn eq_spec(&self, other: &Input) -> bool {
        self.a == other.a && self.b == other.b && self.c == other.c && self.d@ == other.d@
            && self.e == other.e && self.f == other.f
    }
}

/// The boolean a value token denotes: exactly the literals `true` and
/// `false`, anything else being malformed.
pub open spec fn spec_bool_token(t: Seq<char>) -> Option<bool> {
    if t == "true"@ {
        Some(true)
    } else if t == "false"@ {
        Some(false)
    } else {
        None
    }
}

/// Whether every character of `t` is a decimal digit.
pub open spec fn all_digits(t: Seq<char>) -> bool {
    forall|i: int| 0 <= i < t.len() ==> is_digit(t[i])
}

/// The number a digit string denotes.
pub open spec fn digits_val(t: Seq<char>) -> int
    decreases t.len(),
{
    if t.len() == 0 {
        0
    } else {
        digits_val(t.drop_last()) * 10 + digit_val(t.last())
    }
}

/// The integer an integer token denotes: an optional sign followed by one or
/// more decimal digits; `None` when the token is malformed.
pub open spec fn spec_int_token(t: Seq<char>) -> Option<int> {
    if t.len() > 0 && t[0] == '-' {
        if t.len() > 1 && all_digits(t.skip(1)) {
            Some(-digits_val(t.skip(1)))
        } else {
            None
        }
    } else if t.len() > 0 && t[0] == '+' {
        if t.len() > 1 && all_digits(t.skip(1)) {
            Some(digits_val(t.skip(1)))
        } else {
            None
        }
    } else if t.len() > 0 && all_digits(t) {
        Some(digits_val(t))
    } else {
        None
    }
}

/// The unsigned part of a well-formed numeric token: only digits and at most
/// one decimal point, with at least one digit.
pub open spec fn is_float_body(u: Seq<char>) -> bool {
    u.len() > 0 && (forall|i: int| 0 <= i < u.len() ==> is_digit(u[i]) || u[i] == '.') && (forall|
        i: int,
        j: int,
    |
        0 <= i < u.len() && 0 <= j < u.len() && u[i] == '.' && u[j] == '.' ==> i == j) && (exists|
        i: int,
    | 0 <= i < u.len() && is_digit(u[i]))
}

/// Whether `t` is a well-formed numeric token for the floating-point field:
/// an optional sign, then digits with at most one decimal point among them.
pub open spec fn is_float_token(t: Seq<char>) -> bool {
    if t.len() > 0 && (t[0] == '-' || t[0] == '+') {
        is_float_body(t.skip(1))
    } else {
        is_float_body(t)
    }
}

/// A digit string denotes a nonnegative number.
pub proof fn lemma_digits_val_nonneg(t: Seq<char>)
    requires
        all_digits(t),
    ensures
        digits_val(t) >= 0,
    decreases t.len(),
{
    if t.len() > 0 {
        lemma_digits_val_nonneg(t.drop_last());
    }
}

/// A digit string denotes at least as much as any of its prefixes.
pub proof fn lemma_digits_val_prefix(t: Seq<char>, i: int)
    requires
        all_digits(t),
        0 <= i <= t.len(),
    ensures
        digits_val(t.take(i)) <= digits_val(t),
    decreases t.len() - i,
{
    if i == t.len() {
        assert(t.take(i) =~= t);
    } else {
        assert(t.take(i + 1).drop_last() =~= t.take(i));
        assert(all_digits(t.take(i)));
        lemma_digits_val_nonneg(t.take(i));
        assert(digits_val(t.take(i + 1)) == digits_val(t.take(i)) * 10 + digit_val(t[i]));
        lemma_digits_val_prefix(t, i + 1);
    }
}

/// Parses a boolean value token.
fn parse_bool_token(v: &str) -> (r: Option<bool>)
    ensures
        r == spec_bool_token(v@),
{
    proof {
        reveal_strlit("true");
        reveal_strlit("false");
    }
    if str_eq(v, "true") {
        Some(true)
    } else if str_eq(v, "false") {
        Some(false)
    } else {
        None
    }
}

/// Parses an integer value token, rejecting values outside the 32-bit range.
fn parse_i32_token(v: &str) -> (r: Option<i32>)
    ensures
        (match spec_int_token(v@) {
            None => r is None,
            Some(m) => if -2147483648 <= m && m <= 2147483647 {
                r == Some(m as i32)
            } else {
                r is None
            },
        }),
{
    let n = v.unicode_len();
    if n == 0 {
        return None;
    }
    let c0 = v.get_char(0);
    let neg = c0 == '-';
    let signed = c0 == '-' || c0 == '+';
    let start: usize = if signed {
        1
    } else {
        0
    };
    if start == n {
        return None;
    }
    let ghost digits = v@.skip(start as int);
    let mut i: usize = start;
    let mut acc: u64 = 0;
    while i < n
        invariant
            start <= i <= n,
            n == v@.len(),
            start == 1 <==> (v@[0] == '-' || v@[0] == '+'),
            start == 0 || start == 1,
            start < n,
            digits == v@.skip(start as int),
            forall|k: int| start <= k < i ==> is_digit(v@[k]),
            acc as int == digits_val(digits.take(i - start)),
            acc <= 2147483648,
        decreases n - i,
    {
        let ch = v.get_char(i);
        if !is_digit_char(ch) {
            proof {
                assert(digits[i - start] == v@[i as int]);
                assert(!all_digits(digits));
                if start == 0 {
                    assert(v@.skip(0) =~= v@);
                }
            }
            return None;
        }
        let d = digit_value(ch);
        proof {
            assert(digits.take(i - start + 1).drop_last() =~= digits.take(i - start));
            assert(digits.take(i - start + 1).last() == v@[i as int]);
        }
        acc = acc * 10 + d;
        i += 1;
        if acc > 2147483648 {
            proof {
                if all_digits(digits) {
                    lemma_digits_val_prefix(digits, i - start);
                }
                if start == 0 {
                    assert(v@.skip(0) =~= v@);
                }
            }
            return None;
        }
    }
    proof {
        assert(digits.take(n - start) =~= digits);
        assert(all_digits(digits));
        lemma_digits_val_nonneg(digits);
    }
    if neg {
        if acc == 2147483648 {
            Some(i32::MIN)
        } else {
            Some(-(acc as i32))
        }
    } else {
        proof {
            assert(v@.skip(0) =~= v@);
        }
        if acc > 2147483647 {
            None
        } else {
            Some(acc as i32)
        }
    }
}

/// Checks the shape of a numeric token for the floating-point field.
fn check_float_token(v: &str) -> (r: bool)
    ensures
        r == is_float_token(v@),
{
    let n = v.unicode_len();
    if n == 0 {
        return false;
    }
    let c0 = v.get_char(0);
    let signed = c0 == '-' || c0 == '+';
    let start: usize = if signed {
        1
    } else {
        0
    };
    let ghost body = if signed {
        v@.skip(1)
    } else {
        v@
    };
    proof {
        if signed {
            assert forall|k: int| 0 <= k < body.len() implies body[k] == v@[k + 1] by {}
        } else {
            assert(v@.skip(0) =~= v@);
        }
    }
    let mut i: usize = start;
    let mut seen_dot = false;
    let mut seen_digit = false;
    let ghost mut dot_at: int = 0;
    while i < n
        invariant
            start <= i <= n,
            n == v@.len(),
            start == 0 || start == 1,
            start == 1 <==> (v@[0] == '-' || v@[0] == '+'),
            body == if start == 1 {
                v@.skip(1)
            } else {
                v@
            },
            body.len() == n - start,
            forall|k: int| start <= k < i ==> (is_digit(v@[k]) || v@[k] == '.'),
            seen_digit <==> exists|k: int| start <= k < i && is_digit(v@[k]),
            seen_dot <==> exists|k: int| start <= k < i && v@[k] == '.',
            seen_dot ==> start <= dot_at < i && v@[dot_at] == '.' && (forall|k: int|
                start <= k < i && v@[k] == '.' ==> k == dot_at),
        decreases n - i,
    {
        let ch = v.get_char(i);
        if is_digit_char(ch) {
            seen_digit = true;
        } else if ch == '.' {
            if seen_dot {
                proof {
                    assert(body[dot_at - start] == '.');
                    assert(body[i - start] == '.');
                    assert(!is_float_body(body));
                }
                return false;
            }
            seen_dot = true;
            proof {
                dot_at = i as int;
            }
        } else {
            proof {
                assert(body[i - start] == v@[i as int]);
                assert(!is_float_body(body));
            }
            return false;
        }
        i += 1;
    }
    proof {
        if seen_digit {
            let k = choose|k: int| start <= k < n && is_digit(v@[k]);
            assert(body[k - start] == v@[k]);
            assert(is_float_body(body)) by {
                assert forall|p: int, q: int|
                    0 <= p < body.len() && 0 <= q < body.len() && body[p] == '.' && body[q]
                        == '.' implies p == q by {
                    assert(body[p] == v@[p + start]);
                    assert(body[q] == v@[q + start]);
                }
                assert forall|p: int| 0 <= p < body.len() implies (is_digit(body[p]) || body[p]
                    == '.') by {
                    assert(body[p] == v@[p + start]);
                }
            }
        } else {
            if body.len() > 0 {
                assert(body[0] == v@[start as int]);
                if is_digit(body[0]) {
                    assert(false);
                }
                assert(!is_float_body(body)) by {
                    if is_float_body(body) {
                        let k = choose|k: int| 0 <= k < body.len() && is_digit(body[k]);
                        assert(v@[k + start] == body[k]);
                    }
                }
            }
        }
    }
    seen_digit
}

/// The shape of one line of the payload: blank, malformed (no colon), or a
/// key paired with its trimmed value.
pub ghost enum LineParse {
    Blank,
    Bad,
    Pair { key: Seq<char>, value: Seq<char> },
}

/// How one line parses: a whitespace-only line is blank; any other line must
/// carry a colon, splitting it into the key before the first colon and the
/// value after it, trimmed of surrounding whitespace.
pub open spec fn spec_line(line: Seq<char>) -> LineParse {
    if trim(line).len() == 0 {
        LineParse::Blank
    } else {
        let j = find_first(line, ':');
        if j == line.len() {
            LineParse::Bad
        } else {
            LineParse::Pair { key: line.take(j), value: trim(line.skip(j + 1)) }
        }
    }
}

/// The six required fields of the input record.
#[derive(Debug, Clone, Copy, PartialEq, Eq, Structural)]
pub enum Field {
    A,
    B,
    C,
    D,
    E,
    F,
}

/// The required field a key selects: the field's one-letter name, matched
/// case-insensitively. Any other key belongs to no required field.
pub open spec fn spec_key_field(k: Seq<char>) -> Option<Field> {
    if k.len() == 1 {
        if k[0] == 'a' || k[0] == 'A' {
            Some(Field::A)
        } else if k[0] == 'b' || k[0] == 'B' {
            Some(Field::B)
        } else if k[0] == 'c' || k[0] == 'C' {
            Some(Field::C)
        } else if k[0] == 'd' || k[0] == 'D' {
            Some(Field::D)
        } else if k[0] == 'e' || k[0] == 'E' {
            Some(Field::E)
        } else if k[0] == 'f' || k[0] == 'F' {
            Some(Field::F)
        } else {
            None
        }
    } else {
        None
    }
}

/// A record in the middle of parsing: each required field either still
/// missing or already bound.
#[verifier::ext_equal]
pub ghost struct PartialV {
    pub a: Option<bool>,
    pub b: Option<bool>,
    pub c: Option<bool>,
    pub d: Option<Seq<char>>,
    pub e: Option<int>,
    pub f: Option<int>,
}

/// The state before any line was consumed: every field missing.
pub open spec fn empty_partial() -> PartialV {
    PartialV { a: None, b: None, c: None, d: None, e: None, f: None }
}

/// Binds field `fld` to the given value token: fails on a duplicate binding,
/// on a malformed token, and on an integer outside the 32-bit range.
pub open spec fn spec_set_field(p: PartialV, fld: Field, value: Seq<char>) -> Option<PartialV> {
    match fld {
        Field::A => if p.a is Some {
            None
        } else {
            match spec_bool_token(value) {
                None => None,
                Some(x) => Some(PartialV { a: Some(x), ..p }),
            }
        },
        Field::B => if p.b is Some {
            None
        } else {
            match spec_bool_token(value) {
                None => None,
                Some(x) => Some(PartialV { b: Some(x), ..p }),
            }
        },
        Field::C => if p.c is Some {
            None
        } else {
            match spec_bool_token(value) {
                None => None,
                Some(x) => Some(PartialV { c: Some(x), ..p }),
            }
        },
        Field::D => if p.d is Some {
            None
        } else if is_float_token(value) {
            Some(PartialV { d: Some(value), ..p })
        } else {
            None
        },
        Field::E => if p.e is Some {
            None
        } else {
            match spec_int_token(value) {
                None => None,
                Some(m) => if -2147483648 <= m && m <= 2147483647 {
                    Some(PartialV { e: Some(m), ..p })
                } else {
                    None
                },
            }
        },
        Field::F => if p.f is Some {
            None
        } else {
            match spec_int_token(value) {
                None => None,
                Some(m) => if -2147483648 <= m && m <= 2147483647 {
                    Some(PartialV { f: Some(m), ..p })
                } else {
                    None
                },
            }
        },
    }
}

/// Consumes one line: a blank line changes nothing, a malformed line fails
/// the parse, a line with an unknown key is ignored, and a line with a
/// required key binds that field.
pub open spec fn spec_consume_line(st: Option<PartialV>, line: Seq<char>) -> Option<PartialV> {
    match st {
        None => None,
        Some(p) => match spec_line(line) {
            LineParse::Blank => Some(p),
            LineParse::Bad => None,
            LineParse::Pair { key, value } => match spec_key_field(key) {
                None => Some(p),
                Some(fld) => spec_set_field(p, fld, value),
            },
        },
    }
}

/// Consumes the lines in order, starting from state `st`.
pub open spec fn spec_parse_lines(lines: Seq<Seq<char>>, st: Option<PartialV>) -> Option<
    PartialV,
>
    decreases lines.len(),
{
    if lines.len() == 0 {
        st
    } else {
        spec_parse_lines(lines.skip(1), spec_consume_line(st, lines[0]))
    }
}

/// A failed parse stays failed whatever lines follow.
pub proof fn lemma_parse_lines_none(lines: Seq<Seq<char>>)
    ensures
        spec_parse_lines(lines, None) == None::<PartialV>,
    decreases lines.len(),
{
    if lines.len() > 0 {
        lemma_parse_lines_none(lines.skip(1));
    }
}

/// The finished record, provided every required field was bound.
pub open spec fn spec_finalize(p: PartialV) -> Option<InputV> {
    if p.a is Some && p.b is Some && p.c is Some && p.d is Some && p.e is Some && p.f is Some {
        Some(
            InputV {
                a: p.a.unwrap(),
                b: p.b.unwrap(),
                c: p.c.unwrap(),
                d: p.d.unwrap(),
                e: p.e.unwrap(),
                f: p.f.unwrap(),
            },
        )
    } else {
        None
    }
}

/// What parsing the whole payload yields: the record, exactly when every
/// line is well formed and each required field is bound exactly once by a
/// well-typed value.
pub open spec fn spec_parse(s: Seq<char>) -> Option<InputV> {
    match spec_parse_lines(spec_lines(s), Some(empty_partial())) {
        None => None,
        Some(p) => spec_finalize(p),
    }
}

/// One parsed line, executable form.
enum ParsedLine {
    Blank,
    Bad,
    Pair(String, String),
}

spec fn parsed_line_view(r: ParsedLine) -> LineParse {
    match r {
        ParsedLine::Blank => LineParse::Blank,
        ParsedLine::Bad => LineParse::Bad,
        ParsedLine::Pair(k, v) => LineParse::Pair { key: k@, value: v@ },
    }
}

/// Takes one line apart into its key and trimmed value.
fn parse_line(line: &str) -> (r: ParsedLine)
    ensures
        parsed_line_view(r) == spec_line(line@),
{
    let n = line.unicode_len();
    let mut lo: usize = 0;
    while lo < n && is_space_char(line.get_char(lo))
        invariant
            lo <= n,
            n == line@.len(),
            forall|j: int| 0 <= j < lo ==> is_space(line@[j]),
        decreases n - lo,
    {
        lo += 1;
    }
    if lo == n {
        proof {
            lemma_trim_left_at(line@, n as int);
            assert(line@.skip(n as int) =~= Seq::<char>::empty());
        }
        return ParsedLine::Blank;
    }
    proof {
        lemma_trim_left_at(line@, lo as int);
        lemma_trim_right_keeps_head(line@.skip(lo as int));
    }
    let mut j: usize = 0;
    while j < n && line.get_char(j) != ':'
        invariant
            j <= n,
            n == line@.len(),
            forall|k: int| 0 <= k < j ==> line@[k] != ':',
        decreases n - j,
    {
        j += 1;
    }
    proof {
        lemma_find_first_is(line@, ':', j as int);
    }
    if j == n {
        return ParsedLine::Bad;
    }
    let key = line.substring_char(0, j).to_owned();
    let rest = line.substring_char(j + 1, n);
    let value = trim_str(rest);
    proof {
        assert(line@.subrange(0, j as int) =~= line@.take(j as int));
        assert(rest@ =~= line@.skip(j + 1));
    }
    ParsedLine::Pair(key, value)
}

/// Recognizes a required field's key.
fn key_field(k: &str) -> (r: Option<Field>)
    ensures
        r == spec_key_field(k@),
{
    if k.unicode_len() != 1 {
        return None;
    }
    let c = k.get_char(0);
    if c == 'a' || c == 'A' {
        Some(Field::A)
    } else if c == 'b' || c == 'B' {
        Some(Field::B)
    } else if c == 'c' || c == 'C' {
        Some(Field::C)
    } else if c == 'd' || c == 'D' {
        Some(Field::D)
    } else if c == 'e' || c == 'E' {
        Some(Field::E)
    } else if c == 'f' || c == 'F' {
        Some(Field::F)
    } else {
        None
    }
}

/// A record in the middle of parsing, executable form.
struct Partial {
    a: Option<bool>,
    b: Option<bool>,
    c: Option<bool>,
    d: Option<String>,
    e: Option<i32>,
    f: Option<i32>,
}

spec fn partial_view(p: Partial) -> PartialV {
    PartialV {
        a: p.a,
        b: p.b,
        c: p.c,
        d: match p.d {
            None => None,
            Some(s) => Some(s@),
        },
        e: match p.e {
            None => None,
            Some(x) => Some(x as int),
        },
        f: match p.f {
            None => None,
            Some(x) => Some(x as int),
        },
    }
}

spec fn opt_partial_view(r: Option<Partial>) -> Option<PartialV> {
    match r {
        None => None,
        Some(p) => Some(partial_view(p)),
    }
}

/// Consumes one line into the partial record.
fn consume_line(p: Partial, line: &str) -> (r: Option<Partial>)
    ensures
        opt_partial_view(r) == spec_consume_line(Some(partial_view(p)), line@),
{
    match parse_line(line) {
        ParsedLine::Blank => Some(p),
        ParsedLine::Bad => None,
        ParsedLine::Pair(k, v) => match key_field(k.as_str()) {
            None => Some(p),
            Some(Field::A) => {
                if p.a.is_some() {
                    None
                } else {
                    match parse_bool_token(v.as_str()) {
                        None => None,
                        Some(x) => Some(Partial { a: Some(x), ..p }),
                    }
                }
            },
            Some(Field::B) => {
                if p.b.is_some() {
                    None
                } else {
                    match parse_bool_token(v.as_str()) {
                        None => None,
                        Some(x) => Some(Partial { b: Some(x), ..p }),
                    }
                }
            },
            Some(Field::C) => {
                if p.c.is_some() {
                    None
                } else {
                    match parse_bool_token(v.as_str()) {
                        None => None,
                        Some(x) => Some(Partial { c: Some(x), ..p }),
                    }
                }
            },
            Some(Field::D) => {
                if p.d.is_some() {
                    None
                } else if check_float_token(v.as_str()) {
                    Some(Partial { d: Some(v), ..p })
                } else {
                    None
                }
            },
            Some(Field::E) => {
                if p.e.is_some() {
                    None
                } else {
                    match parse_i32_token(v.as_str()) {
                        None => None,
                        Some(x) => Some(Partial { e: Some(x), ..p }),
                    }
                }
            },
            Some(Field::F) => {
                if p.f.is_some() {
                    None
                } else {
                    match parse_i32_token(v.as_str()) {
                        None => None,
                        Some(x) => Some(Partial { f: Some(x), ..p }),
                    }
                }
            },
        },
    }
}

impl Input {
    /// Parses the whole payload: the record, exactly when every line is well
    /// formed and each required field is bound exactly once by a well-typed
    /// value; `None` otherwise, with no partial success.
    pub fn from_str(s: &str) -> (r: Option<Input>)
        ensures
            (r is None) == (spec_parse(s@) is None),
            r matches Some(x) ==> spec_parse(s@) == Some(x@),
    {
        let lines = split_lines(s);
        let mut p = Partial { a: None, b: None, c: None, d: None, e: None, f: None };
        let ghost ls = spec_lines(s@);
        proof {
            assert(ls.skip(0) =~= ls);
            assert(partial_view(p) =~= empty_partial());
        }
        let mut i: usize = 0;
        while i < lines.len()
            invariant
                i <= lines@.len(),
                ls == spec_lines(s@),
                views_of(lines@) == ls,
                spec_parse_lines(ls, Some(empty_partial())) == spec_parse_lines(
                    ls.skip(i as int),
                    Some(partial_view(p)),
                ),
            decreases lines@.len() - i,
        {
            proof {
                assert(views_of(lines@)[i as int] == lines@[i as int]@);
                assert(ls.skip(i as int)[0] == ls[i as int]);
                assert(ls.skip(i as int).skip(1) =~= ls.skip(i + 1));
            }
            let line: &String = &lines[i];
            match consume_line(p, line.as_str()) {
                None => {
                    proof {
                        lemma_parse_lines_none(ls.skip(i + 1));
                    }
                    return None;
                },
                Some(q) => {
                    p = q;
                },
            }
            i += 1;
        }
        proof {
            assert(ls.skip(lines@.len() as int) =~= Seq::<Seq<char>>::empty());
        }
        match (p.a, p.b, p.c, p.d, p.e, p.f) {
            (Some(a), Some(b), Some(c), Some(d), Some(e), Some(f)) => {
                let inp = Input { a, b, c, d, e, f };
                proof {
                    assert(spec_parse(s@) matches Some(x) && x =~= inp@);
                }
                Some(inp)
            },
            _ => None,
        }
    }
}

} // verus!
