//! The rule engine: the per-variant category tables, category lookup from the
//! three boolean input fields, and formula selection from (variant, category).

use vstd::prelude::*;

use crate::input::Input;
use crate::text::str_eq;

verus! {

/// A classification category. The declared order M, P, T is the lookup
/// tie-break order for category lookup.
#[derive(Debug, Clone, Copy, PartialEq, Eq, Structural)]
pub enum HValue {
    M,
    P,
    T,
}

/// A substitution variant: `Base` is the fallback table; `Custom1` and
/// `Custom2` may override parts of the category table and of the formula
/// dispatch.
#[derive(Debug, Clone, Copy, PartialEq, Eq, Structural)]
pub enum Substitution {
    Base,
    Custom1,
    Custom2,
}

/// Which variant name each accepted string denotes: exactly `"base"`,
/// `"custom1"` and `"custom2"`, case-sensitively.
pub open spec fn spec_substitution_of(s: Seq<char>) -> Option<Substitution> {
    if s == "base"@ {
        Some(Substitution::Base)
    } else if s == "custom1"@ {
        Some(Substitution::Custom1)
    } else if s == "custom2"@ {
        Some(Substitution::Custom2)
    } else {
        None
    }
}

impl Substitution {
    /// Turns a variant name into the variant it denotes; any other string is
    /// an unrecognized variant.
    pub fn from_str(s: &str) -> (r: Option<Self>)
        ensures
            r == spec_substitution_of(s@),
    {
        proof {
            reveal_strlit("base");
            reveal_strlit("custom1");
            reveal_strlit("custom2");
        }
        if str_eq(s, "base") {
            Some(Self::Base)
        } else if str_eq(s, "custom1") {
            Some(Self::Custom1)
        } else if str_eq(s, "custom2") {
            Some(Self::Custom2)
        } else {
            None
        }
    }
}

/// The boolean triple `(expect_a, expect_b, expect_c)` that selects category
/// `h` under variant `s`. `Custom2` overrides the `T` and `M` entries;
/// every other (variant, category) pair uses the `Base` table.
pub open spec fn spec_rule(s: Substitution, h: HValue) -> (bool, bool, bool) {
    match (s, h) {
        (Substitution::Custom2, HValue::T) => (true, true, false),
        (Substitution::Custom2, HValue::M) => (true, false, true),
        (_, HValue::M) => (true, true, false),
        (_, HValue::P) => (true, true, true),
        (_, HValue::T) => (false, true, true),
    }
}

/// The category selected by the boolean triple `(a, b, c)` under variant `s`:
/// the first category, in the declared order M, P, T, whose expected triple
/// equals `(a, b, c)`; `None` when no category's triple matches, the defined
/// "unclassifiable" outcome.
pub open spec fn spec_h_value(s: Substitution, a: bool, b: bool, c: bool) -> Option<HValue> {
    if spec_rule(s, HValue::M) == (a, b, c) {
        Some(HValue::M)
    } else if spec_rule(s, HValue::P) == (a, b, c) {
        Some(HValue::P)
    } else if spec_rule(s, HValue::T) == (a, b, c) {
        Some(HValue::T)
    } else {
        None
    }
}

/// Law: category lookup is deterministic under overlapping rule tables. A
/// matching triple always classifies; the category returned is always one
/// whose triple matches; and ties are broken in the declared order M, P, T,
/// so a table in which two categories share a triple still has a single
/// well-defined answer.
pub proof fn lemma_h_value_order(s: Substitution, a: bool, b: bool, c: bool)
    ensures
        spec_rule(s, HValue::M) == (a, b, c) ==> spec_h_value(s, a, b, c) == Some(HValue::M),
        spec_rule(s, HValue::P) == (a, b, c) && spec_rule(s, HValue::M) != (a, b, c)
            ==> spec_h_value(s, a, b, c) == Some(HValue::P),
        spec_rule(s, HValue::T) == (a, b, c) && spec_rule(s, HValue::M) != (a, b, c) && spec_rule(
            s,
            HValue::P,
        ) != (a, b, c) ==> spec_h_value(s, a, b, c) == Some(HValue::T),
        spec_h_value(s, a, b, c) matches Some(h) ==> spec_rule(s, h) == (a, b, c),
        spec_h_value(s, a, b, c) is None <==> (forall|h: HValue| spec_rule(s, h) != (a, b, c)),
{
    if spec_h_value(s, a, b, c) is None {
        assert forall|h: HValue| spec_rule(s, h) != (a, b, c) by {
            match h {
                HValue::M => assert(spec_rule(s, HValue::M) != (a, b, c)),
                HValue::P => assert(spec_rule(s, HValue::P) != (a, b, c)),
                HValue::T => assert(spec_rule(s, HValue::T) != (a, b, c)),
            }
        }
    }
}

/// One of the five numeric formulas over the input fields `d`, `e`, `f`
/// (`e` and `f` widened to floating point). The library selects the formula;
/// the boundary layer evaluates it as IEEE-754 arithmetic.
#[derive(Debug, Clone, Copy, PartialEq, Eq, Structural)]
pub enum KFormula {
    /// `f + d + d*e/100`
    Custom2M,
    /// `2*d + d*e/100`
    Custom1P,
    /// `d + d*e/10`
    BaseM,
    /// `d + d*(e-f)/25.5`
    BaseP,
    /// `d - d*f/30`
    BaseT,
}

/// The formula selected by `(variant, category)`: the two variant-specific
/// overrides take precedence over the generic per-category formulas. Total:
/// every pair resolves to exactly one formula.
pub open spec fn spec_k_formula(s: Substitution, h: HValue) -> KFormula {
    match (s, h) {
        (Substitution::Custom2, HValue::M) => KFormula::Custom2M,
        (Substitution::Custom1, HValue::P) => KFormula::Custom1P,
        (_, HValue::M) => KFormula::BaseM,
        (_, HValue::P) => KFormula::BaseP,
        (_, HValue::T) => KFormula::BaseT,
    }
}

/// The full evaluation of a boolean triple under a variant: the category, if
/// one matches, paired with the formula selected for it.
pub open spec fn spec_output(s: Substitution, a: bool, b: bool, c: bool) -> Option<Output> {
    match spec_h_value(s, a, b, c) {
        None => None,
        Some(h) => Some(Output { h, k: spec_k_formula(s, h) }),
    }
}

/// The result of an evaluation: the category and the selected formula. The
/// boundary layer evaluates `k` on the numeric fields to obtain the numeric
/// result, then renders both as text.
#[derive(Debug, Clone, Copy, PartialEq, Eq, Structural)]
pub struct Output {
    pub h: HValue,
    pub k: KFormula,
}

impl HValue {
    /// The category's one-letter name.
    pub open spec fn spec_name(self) -> Seq<char> {
        match self {
            HValue::M => seq!['M'],
            HValue::P => seq!['P'],
            HValue::T => seq!['T'],
        }
    }

    /// The category's one-letter name, as text.
    pub fn name(&self) -> (r: &'static str)
        ensures
            r@ == self.spec_name(),
    {
        proof {
            reveal_strlit("M");
            reveal_strlit("P");
            reveal_strlit("T");
        }
        let r = match self {
            HValue::M => "M",
            HValue::P => "P",
            HValue::T => "T",
        };
        proof {
            assert(r@ =~= self.spec_name());
        }
        r
    }
}

impl Substitution {
    /// Looks the category up for `input`'s boolean triple under this variant's
    /// rule table, trying the categories in the declared order M, P, T.
    pub fn get_h_value(&self, input: &Input) -> (r: Option<HValue>)
        ensures
            r == spec_h_value(*self, input.a, input.b, input.c),
            r matches Some(h) ==> spec_rule(*self, h) == (input.a, input.b, input.c),
            r is None ==> forall|h: HValue| spec_rule(*self, h) != (input.a, input.b, input.c),
    {
        let a = input.a;
        let b = input.b;
        let c = input.c;
        let m = self.rule(HValue::M);
        let p = self.rule(HValue::P);
        let t = self.rule(HValue::T);
        if m.0 == a && m.1 == b && m.2 == c {
            Some(HValue::M)
        } else if p.0 == a && p.1 == b && p.2 == c {
            Some(HValue::P)
        } else if t.0 == a && t.1 == b && t.2 == c {
            Some(HValue::T)
        } else {
            proof {
                assert(forall|h: HValue| spec_rule(*self, h) != (a, b, c)) by {
                    assert(spec_rule(*self, HValue::M) != (a, b, c));
                    assert(spec_rule(*self, HValue::P) != (a, b, c));
                    assert(spec_rule(*self, HValue::T) != (a, b, c));
                }
            }
            None
        }
    }

    /// The expected boolean triple for category `h` under this variant.
    pub fn rule(&self, h: HValue) -> (r: (bool, bool, bool))
        ensures
            r == spec_rule(*self, h),
    {
        match (self, h) {
            (Substitution::Custom2, HValue::T) => (true, true, false),
            (Substitution::Custom2, HValue::M) => (true, false, true),
            (_, HValue::M) => (true, true, false),
            (_, HValue::P) => (true, true, true),
            (_, HValue::T) => (false, true, true),
        }
    }

    /// The formula for category `h` under this variant: the `Custom2`/`M` and
    /// `Custom1`/`P` overrides first, then the generic per-category formulas.
    pub fn get_k_formula(&self, h: HValue) -> (r: KFormula)
        ensures
            r == spec_k_formula(*self, h),
    {
        match (self, h) {
            (Substitution::Custom2, HValue::M) => KFormula::Custom2M,
            (Substitution::Custom1, HValue::P) => KFormula::Custom1P,
            (_, HValue::M) => KFormula::BaseM,
            (_, HValue::P) => KFormula::BaseP,
            (_, HValue::T) => KFormula::BaseT,
        }
    }

    /// Evaluates an input record under this variant: category lookup, then,
    /// only when a category matched, formula selection. The result is a pure
    /// function of the variant and the record's boolean triple.
    pub fn get_output(&self, input: &Input) -> (r: Option<Output>)
        ensures
            r == spec_output(*self, input.a, input.b, input.c),
    {
        match self.get_h_value(input) {
            None => None,
            Some(h) => Some(Output { h, k: self.get_k_formula(h) }),
        }
    }
}

/// The rendered text of an output record whose numeric result reads `k_text`:
/// the two lines `H: <category>` and `K: <k_text>`.
pub open spec fn spec_render_output(h: HValue, k_text: Seq<char>) -> Seq<char> {
    seq!['H', ':', ' '] + h.spec_name() + seq!['\n', 'K', ':', ' '] + k_text + seq!['\n']
}

/// Renders an output record as the two text lines `H: <category>` and
/// `K: <k_text>`, where `k_text` is the already-rendered numeric result.
pub fn render_output(h: HValue, k_text: &str) -> (r: String)
    ensures
        r@ == spec_render_output(h, k_text@),
{
    proof {
        reveal_strlit("H: ");
        reveal_strlit("\nK: ");
        reveal_strlit("\n");
    }
    let mut r = String::new();
    r.append("H: ");
    r.append(h.name());
    r.append("\nK: ");
    r.append(k_text);
    r.append("\n");
    proof {
        assert(r@ =~= spec_render_output(h, k_text@));
    }
    r
}

} // verus!
