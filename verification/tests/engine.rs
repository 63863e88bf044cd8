use substcalc::rules::render_output;
use substcalc::HValue;
use substcalc::Input;
use substcalc::KFormula;
use substcalc::Output;
use substcalc::Substitution;

/// Evaluates a selected formula on the numeric fields, as the boundary layer
/// does (floating point stays outside the verified library).
fn eval_formula(k: KFormula, d: f64, e: i32, f: i32) -> f64 {
    let e = e as f64;
    let f = f as f64;
    match k {
        KFormula::Custom2M => f + d + d * e / 100.,
        KFormula::Custom1P => 2. * d + d * e / 100.,
        KFormula::BaseM => d + d * e / 10.,
        KFormula::BaseP => d + d * (e - f) / 25.5,
        KFormula::BaseT => d - d * f / 30.,
    }
}

fn record(a: bool, b: bool, c: bool, d: &str, e: i32, f: i32) -> Input {
    Input { a, b, c, d: String::from(d), e, f }
}

#[test]
fn substitution_from_str_works() {
    assert_eq!(Substitution::from_str("base"), Some(Substitution::Base));
    assert_eq!(Substitution::from_str("custom1"), Some(Substitution::Custom1));
    assert_eq!(Substitution::from_str("custom2"), Some(Substitution::Custom2));
    assert_eq!(Substitution::from_str("Base"), None);
    assert_eq!(Substitution::from_str(""), None);
}

#[test]
fn output_can_be_serialized() {
    let rendered = render_output(HValue::M, "33.33");

    assert_eq!(rendered, "H: M\nK: 33.33\n");
}

#[test]
fn substitution_get_output_works() {
    let input = record(true, true, false, "33.3", 10, 7);
    let expexted_output = Output { h: HValue::M, k: KFormula::BaseM };

    let subst = Substitution::Base;
    let output_opt = subst.get_output(&input);
    assert_eq!(output_opt, Some(expexted_output));
    let k = eval_formula(output_opt.unwrap().k, 33.3, 10, 7);
    assert_eq!(k, 66.6);
}

#[test]
fn substitution_get_output_returns_none() {
    let input = record(true, false, true, "33.3", 10, 7);

    let subst = Substitution::Base;
    let output_opt = subst.get_output(&input);
    assert_eq!(output_opt, None);
}

#[test]
fn get_h_value_works() {
    let input = record(true, true, false, "30", 10, 7);

    let h_opt = Substitution::Base.get_h_value(&input);
    assert_eq!(h_opt, Some(HValue::M));
}

#[test]
fn get_h_value_returns_none() {
    let input = record(true, false, true, "30", 10, 7);

    let h_opt = Substitution::Base.get_h_value(&input);
    assert_eq!(h_opt, None);
}

#[test]
fn get_h_value_uses_overrides() {
    let input = record(true, true, false, "30", 10, 7);

    let h_for_base = Substitution::Base.get_h_value(&input);
    let h_for_custom = Substitution::Custom2.get_h_value(&input);
    assert_eq!(h_for_base, Some(HValue::M));
    assert_eq!(h_for_custom, Some(HValue::T));
}

#[test]
fn get_k_value_works() {
    let kf = Substitution::Base.get_k_formula(HValue::M);
    assert_eq!(kf, KFormula::BaseM);

    let k = eval_formula(kf, 30., 10, 7);
    assert_eq!(k, 60.);
}

#[test]
fn get_k_value_uses_overrides() {
    let kf_base = Substitution::Base.get_k_formula(HValue::M);
    let kf_custom = Substitution::Custom2.get_k_formula(HValue::M);

    let k_for_base = eval_formula(kf_base, 30., 10, 7);
    let k_for_custom = eval_formula(kf_custom, 30., 10, 7);
    assert_eq!(k_for_base, 60.);
    assert_eq!(k_for_custom, 40.);
}

#[test]
fn custom1_p_uses_override_formula() {
    let kf = Substitution::Custom1.get_k_formula(HValue::P);
    assert_eq!(kf, KFormula::Custom1P);
    assert_ne!(kf, KFormula::BaseP);

    let k = eval_formula(kf, 33.3, 10, 7);
    assert_eq!(k, 2. * 33.3 + 33.3 * 10. / 100.);
    assert_ne!(k, eval_formula(KFormula::BaseP, 33.3, 10, 7));
}

#[test]
fn all_rules_resolve_each_category() {
    let t_input = record(false, true, true, "1", 0, 0);
    assert_eq!(Substitution::Base.get_h_value(&t_input), Some(HValue::T));
    assert_eq!(Substitution::Custom1.get_h_value(&t_input), Some(HValue::T));
    assert_eq!(Substitution::Custom2.get_h_value(&t_input), None);

    let p_input = record(true, true, true, "1", 0, 0);
    assert_eq!(Substitution::Base.get_h_value(&p_input), Some(HValue::P));
    assert_eq!(Substitution::Custom2.get_h_value(&p_input), Some(HValue::P));

    let custom2_m_input = record(true, false, true, "1", 0, 0);
    assert_eq!(Substitution::Custom2.get_h_value(&custom2_m_input), Some(HValue::M));
    assert_eq!(Substitution::Base.get_h_value(&custom2_m_input), None);
}

#[test]
fn evaluate_is_deterministic() {
    let input = record(true, true, false, "33.3", 10, 7);
    let once = Substitution::Base.get_output(&input);
    let again = Substitution::Base.get_output(&input);
    assert_eq!(once, again);
}

#[test]
fn end_to_end_base_m() {
    let payload = "A: true\nB: true\nC: false\nD: 33.3\nE: 10\nF: 7\n";
    let subst = Substitution::from_str("base").unwrap();
    let input = Input::from_str(payload).unwrap();

    let output = subst.get_output(&input).unwrap();
    assert_eq!(output.h, HValue::M);

    let d: f64 = input.d.parse().unwrap();
    let k = eval_formula(output.k, d, input.e, input.f);
    let rendered = render_output(output.h, &format!("{}", k));
    assert_eq!(rendered, "H: M\nK: 66.6\n");
}

#[test]
fn render_output_shapes_two_lines() {
    assert_eq!(render_output(HValue::T, "0"), "H: T\nK: 0\n");
    assert_eq!(render_output(HValue::P, "-1.25"), "H: P\nK: -1.25\n");
}
