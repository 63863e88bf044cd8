//! The library's general laws, stated and proved over the parsing model:
//! a payload in the canonical six-line form always parses, to exactly the
//! written field values; and a payload missing a required field, or carrying
//! a malformed line or value, never parses.

use vstd::prelude::*;

use crate::input::all_digits;
use crate::input::empty_partial;
use crate::input::is_float_body;
use crate::input::is_float_token;
use crate::input::spec_bool_token;
use crate::input::spec_consume_line;
use crate::input::spec_int_token;
use crate::input::spec_key_field;
use crate::input::spec_line;
use crate::input::spec_parse;
use crate::input::spec_parse_lines;
use crate::input::Field;
use crate::input::InputV;
use crate::input::LineParse;
use crate::input::PartialV;
use crate::input::lemma_parse_lines_none;
use crate::text::is_digit;
use crate::text::is_space;
use crate::text::lemma_find_first_is;
use crate::text::lemma_trim_left_at;
use crate::text::lemma_trim_right_keeps_head;
use crate::text::spec_lines;
use crate::text::trim;
use crate::text::trim_left;
use crate::text::trim_right;

verus! {

/// The boolean literal written for `x`.
pub open spec fn spec_bool_text(x: bool) -> Seq<char> {
    if x {
        "true"@
    } else {
        "false"@
    }
}

/// The canonical line binding the field named `k` to the value token `t`.
pub open spec fn input_line(k: char, t: Seq<char>) -> Seq<char> {
    seq![k, ':', ' '] + t
}

/// The canonical six-line payload for the given field values.
pub open spec fn input_text(
    a: bool,
    b: bool,
    c: bool,
    td: Seq<char>,
    te: Seq<char>,
    tf: Seq<char>,
) -> Seq<char> {
    input_line('A', spec_bool_text(a)) + seq!['\n'] + (input_line('B', spec_bool_text(b))
        + seq!['\n'] + (input_line('C', spec_bool_text(c)) + seq!['\n'] + (input_line('D', td)
        + seq!['\n'] + (input_line('E', te) + seq!['\n'] + (input_line('F', tf) + seq!['\n'])))))
}

/// A value token of clean shape: nonempty, no surrounding whitespace, no
/// newline anywhere.
pub open spec fn clean_token(t: Seq<char>) -> bool {
    t.len() > 0 && !is_space(t[0]) && !is_space(t.last()) && (forall|i: int|
        0 <= i < t.len() ==> t[i] != '\n')
}

/// The boolean literals are clean tokens.
proof fn lemma_bool_text_clean(x: bool)
    ensures
        clean_token(spec_bool_text(x)),
        spec_bool_token(spec_bool_text(x)) == Some(x),
{
    reveal_strlit("true");
    reveal_strlit("false");
    assert(("true"@).len() == 4);
    assert(("false"@).len() == 5);
    if x {
        assert(spec_bool_text(x) != "false"@);
    } else {
        assert(spec_bool_text(x) != "true"@);
    }
}

/// A well-formed integer token is a clean token.
proof fn lemma_int_token_clean(t: Seq<char>)
    requires
        spec_int_token(t) is Some,
    ensures
        clean_token(t),
{
    if t.len() > 0 && (t[0] == '-' || t[0] == '+') {
        assert(all_digits(t.skip(1)));
        assert forall|i: int| 0 <= i < t.len() implies t[i] != '\n' by {
            if i >= 1 {
                assert(is_digit(t.skip(1)[i - 1]));
            }
        }
        assert(is_digit(t.skip(1)[t.len() - 2]));
    } else {
        assert(all_digits(t));
    }
}

/// A well-formed numeric token is a clean token.
proof fn lemma_float_token_clean(t: Seq<char>)
    requires
        is_float_token(t),
    ensures
        clean_token(t),
{
    if t.len() > 0 && (t[0] == '-' || t[0] == '+') {
        let u = t.skip(1);
        assert(u.len() > 0);
        assert forall|i: int| 0 <= i < t.len() implies t[i] != '\n' && (i > 0 ==> !is_space(t[i]))
            by {
            if i >= 1 {
                assert(is_digit(u[i - 1]) || u[i - 1] == '.');
            }
        }
        assert(is_digit(u[u.len() - 1]) || u[u.len() - 1] == '.');
    } else {
        assert(is_float_body(t));
        assert forall|i: int| 0 <= i < t.len() implies t[i] != '\n' && !is_space(t[i]) by {
            assert(is_digit(t[i]) || t[i] == '.');
        }
    }
}

/// Splitting off one newline-free line: the lines of `l + '\n' + rest` are
/// `l` followed by the lines of `rest`.
proof fn lemma_lines_cons(l: Seq<char>, rest: Seq<char>)
    requires
        forall|i: int| 0 <= i < l.len() ==> l[i] != '\n',
    ensures
        spec_lines(l + seq!['\n'] + rest) == seq![l] + spec_lines(rest),
{
    let s = l + seq!['\n'] + rest;
    assert(s[l.len() as int] == '\n');
    lemma_find_first_is(s, '\n', l.len() as int);
    assert(s.take(l.len() as int) =~= l);
    assert(s.skip(l.len() as int + 1) =~= rest);
}

/// A canonical line parses to its key and its token.
proof fn lemma_line_shape(k: char, t: Seq<char>)
    requires
        clean_token(t),
        !is_space(k),
        k != ':',
        k != '\n',
    ensures
        spec_line(input_line(k, t)) == (LineParse::Pair { key: seq![k], value: t }),
        forall|i: int| 0 <= i < input_line(k, t).len() ==> input_line(k, t)[i] != '\n',
{
    let l = input_line(k, t);
    assert(l[0] == k);
    assert(l[1] == ':');
    assert(l[2] == ' ');
    assert forall|i: int| 0 <= i < l.len() implies l[i] != '\n' by {
        if i >= 3 {
            assert(l[i] == t[i - 3]);
        }
    }
    lemma_trim_right_keeps_head(l);
    assert(trim(l).len() > 0);
    lemma_find_first_is(l, ':', 1);
    assert(l.take(1) =~= seq![k]);
    let v = l.skip(2);
    assert(v[0] == ' ');
    assert(v.skip(1) =~= t);
    lemma_trim_left_at(v, 1);
    assert(trim_left(v) == t);
    assert(trim_right(t) == t);
    assert(trim(v) == t);
}

/// Law: a payload in the canonical six-line form always parses, and parsing
/// round-trips the exact field values that were written.
#[verifier::rlimit(100)]
pub proof fn lemma_parse_round_trip(
    a: bool,
    b: bool,
    c: bool,
    td: Seq<char>,
    te: Seq<char>,
    tf: Seq<char>,
)
    requires
        is_float_token(td),
        spec_int_token(te) is Some,
        -2147483648 <= spec_int_token(te).unwrap() <= 2147483647,
        spec_int_token(tf) is Some,
        -2147483648 <= spec_int_token(tf).unwrap() <= 2147483647,
    ensures
        spec_parse(input_text(a, b, c, td, te, tf)) == Some(
            InputV {
                a,
                b,
                c,
                d: td,
                e: spec_int_token(te).unwrap(),
                f: spec_int_token(tf).unwrap(),
            },
        ),
{
    let ta = spec_bool_text(a);
    let tb = spec_bool_text(b);
    let tc = spec_bool_text(c);
    lemma_bool_text_clean(a);
    lemma_bool_text_clean(b);
    lemma_bool_text_clean(c);
    lemma_float_token_clean(td);
    lemma_int_token_clean(te);
    lemma_int_token_clean(tf);
    let la = input_line('A', ta);
    let lb = input_line('B', tb);
    let lc = input_line('C', tc);
    let ld = input_line('D', td);
    let le = input_line('E', te);
    let lf = input_line('F', tf);
    lemma_line_shape('A', ta);
    lemma_line_shape('B', tb);
    lemma_line_shape('C', tc);
    lemma_line_shape('D', td);
    lemma_line_shape('E', te);
    lemma_line_shape('F', tf);
    let s5 = lf + seq!['\n'];
    let s4 = le + seq!['\n'] + s5;
    let s3 = ld + seq!['\n'] + s4;
    let s2 = lc + seq!['\n'] + s3;
    let s1 = lb + seq!['\n'] + s2;
    let s0 = la + seq!['\n'] + s1;
    assert(s0 == input_text(a, b, c, td, te, tf));
    lemma_lines_cons(lf, Seq::<char>::empty());
    assert(lf + seq!['\n'] + Seq::<char>::empty() =~= s5);
    assert(spec_lines(Seq::<char>::empty()) == seq![Seq::<char>::empty()]);
    lemma_lines_cons(le, s5);
    lemma_lines_cons(ld, s4);
    lemma_lines_cons(lc, s3);
    lemma_lines_cons(lb, s2);
    lemma_lines_cons(la, s1);
    let lines = spec_lines(s0);
    assert(lines =~= seq![la, lb, lc, ld, le, lf, Seq::<char>::empty()]);
    let p0 = empty_partial();
    let p1 = PartialV { a: Some(a), ..p0 };
    let p2 = PartialV { b: Some(b), ..p1 };
    let p3 = PartialV { c: Some(c), ..p2 };
    let p4 = PartialV { d: Some(td), ..p3 };
    let p5 = PartialV { e: Some(spec_int_token(te).unwrap()), ..p4 };
    let p6 = PartialV { f: Some(spec_int_token(tf).unwrap()), ..p5 };
    assert(spec_key_field(seq!['A']) == Some(Field::A));
    assert(spec_key_field(seq!['B']) == Some(Field::B));
    assert(spec_key_field(seq!['C']) == Some(Field::C));
    assert(spec_key_field(seq!['D']) == Some(Field::D));
    assert(spec_key_field(seq!['E']) == Some(Field::E));
    assert(spec_key_field(seq!['F']) == Some(Field::F));
    assert(spec_consume_line(Some(p0), la) == Some(p1));
    assert(spec_consume_line(Some(p1), lb) == Some(p2));
    assert(spec_consume_line(Some(p2), lc) == Some(p3));
    assert(spec_consume_line(Some(p3), ld) == Some(p4));
    assert(spec_consume_line(Some(p4), le) == Some(p5));
    assert(spec_consume_line(Some(p5), lf) == Some(p6));
    assert(trim(Seq::<char>::empty()).len() == 0);
    assert(spec_consume_line(Some(p6), Seq::<char>::empty()) == Some(p6));
    let r1 = seq![lb, lc, ld, le, lf, Seq::<char>::empty()];
    let r2 = seq![lc, ld, le, lf, Seq::<char>::empty()];
    let r3 = seq![ld, le, lf, Seq::<char>::empty()];
    let r4 = seq![le, lf, Seq::<char>::empty()];
    let r5 = seq![lf, Seq::<char>::empty()];
    let r6 = seq![Seq::<char>::empty()];
    assert(lines.skip(1) =~= r1);
    assert(r1.skip(1) =~= r2);
    assert(r2.skip(1) =~= r3);
    assert(r3.skip(1) =~= r4);
    assert(r4.skip(1) =~= r5);
    assert(r5.skip(1) =~= r6);
    assert(r6.skip(1) =~= Seq::<Seq<char>>::empty());
    assert(spec_parse_lines(lines, Some(p0)) == spec_parse_lines(r1, Some(p1)));
    assert(spec_parse_lines(r1, Some(p1)) == spec_parse_lines(r2, Some(p2)));
    assert(spec_parse_lines(r2, Some(p2)) == spec_parse_lines(r3, Some(p3)));
    assert(spec_parse_lines(r3, Some(p3)) == spec_parse_lines(r4, Some(p4)));
    assert(spec_parse_lines(r4, Some(p4)) == spec_parse_lines(r5, Some(p5)));
    assert(spec_parse_lines(r5, Some(p5)) == spec_parse_lines(r6, Some(p6)));
    assert(spec_parse_lines(r6, Some(p6)) == spec_parse_lines(
        Seq::<Seq<char>>::empty(),
        Some(p6),
    ));
    assert(spec_parse_lines(lines, Some(p0)) == Some(p6));
}

/// Whether field `fld` is already bound in the partial record.
pub open spec fn field_bound(p: PartialV, fld: Field) -> bool {
    match fld {
        Field::A => p.a is Some,
        Field::B => p.b is Some,
        Field::C => p.c is Some,
        Field::D => p.d is Some,
        Field::E => p.e is Some,
        Field::F => p.f is Some,
    }
}

/// The required field a line binds, if any.
pub open spec fn spec_line_field(line: Seq<char>) -> Option<Field> {
    match spec_line(line) {
        LineParse::Pair { key, value } => spec_key_field(key),
        _ => None,
    }
}

/// A field that no line binds stays unbound through the whole fold.
proof fn lemma_fold_keeps_unbound(lines: Seq<Seq<char>>, p: PartialV, fld: Field)
    requires
        !field_bound(p, fld),
        forall|i: int| 0 <= i < lines.len() ==> spec_line_field(#[trigger] lines[i]) != Some(fld),
    ensures
        spec_parse_lines(lines, Some(p)) matches Some(q) ==> !field_bound(q, fld),
    decreases lines.len(),
{
    if lines.len() > 0 {
        let st1 = spec_consume_line(Some(p), lines[0]);
        match st1 {
            None => {
                lemma_parse_lines_none(lines.skip(1));
            },
            Some(q1) => {
                assert(!field_bound(q1, fld));
                assert forall|i: int|
                    0 <= i < lines.skip(1).len() implies spec_line_field(
                    #[trigger] lines.skip(1)[i],
                ) != Some(fld) by {
                    assert(lines.skip(1)[i] == lines[i + 1]);
                }
                lemma_fold_keeps_unbound(lines.skip(1), q1, fld);
            },
        }
    }
}

/// Law: a payload none of whose lines binds the required field `fld` fails
/// to parse.
pub proof fn lemma_parse_missing_field_fails(s: Seq<char>, fld: Field)
    requires
        forall|i: int|
            0 <= i < spec_lines(s).len() ==> spec_line_field(#[trigger] spec_lines(s)[i]) != Some(
                fld,
            ),
    ensures
        spec_parse(s) is None,
{
    lemma_fold_keeps_unbound(spec_lines(s), empty_partial(), fld);
}

/// Whether a value token is acceptable for field `fld`.
pub open spec fn value_ok(fld: Field, value: Seq<char>) -> bool {
    match fld {
        Field::A | Field::B | Field::C => spec_bool_token(value) is Some,
        Field::D => is_float_token(value),
        Field::E | Field::F => spec_int_token(value) matches Some(m) && -2147483648 <= m
            <= 2147483647,
    }
}

/// Whether a line dooms the parse on its own: a non-blank line without a
/// colon, or a required field bound to an unacceptable value.
pub open spec fn line_fails(line: Seq<char>) -> bool {
    match spec_line(line) {
        LineParse::Blank => false,
        LineParse::Bad => true,
        LineParse::Pair { key, value } => match spec_key_field(key) {
            None => false,
            Some(fld) => !value_ok(fld, value),
        },
    }
}

/// One failing line turns any fold state into a failure.
proof fn lemma_fold_fails(lines: Seq<Seq<char>>, st: Option<PartialV>, i: int)
    requires
        0 <= i < lines.len(),
        line_fails(lines[i]),
    ensures
        spec_parse_lines(lines, st) == None::<PartialV>,
    decreases i,
{
    match st {
        None => {
            lemma_parse_lines_none(lines);
        },
        Some(p) => {
            let st1 = spec_consume_line(st, lines[0]);
            if i == 0 {
                assert(st1 is None);
                lemma_parse_lines_none(lines.skip(1));
            } else {
                assert(lines.skip(1)[i - 1] == lines[i]);
                lemma_fold_fails(lines.skip(1), st1, i - 1);
            }
        },
    }
}

/// Law: a payload with a malformed line, or with a required field bound to a
/// malformed or out-of-range value, fails to parse.
pub proof fn lemma_parse_bad_line_fails(s: Seq<char>, i: int)
    requires
        0 <= i < spec_lines(s).len(),
        line_fails(spec_lines(s)[i]),
    ensures
        spec_parse(s) is None,
{
    lemma_fold_fails(spec_lines(s), Some(empty_partial()), i);
}

} // verus!
