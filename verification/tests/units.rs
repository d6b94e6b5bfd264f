use eqgui::units::{
    base_unit_atoms, display_candidates, named_display_units, parse_unit, parse_unit_in_range, unit_dims_fit, Dim, Scale,
};

fn scale_f64(s: Scale) -> f64 {
    let r = s.num as f64 / s.den as f64;
    if s.times_pi {
        std::f64::consts::PI * s.num as f64 / s.den as f64
    } else {
        r
    }
}

/// Dimension and SI multiplier of a unit string, the multiplier folded in
/// floating point from the factors that the parser found.
fn parse(u: &str) -> (Dim, f64) {
    assert!(unit_dims_fit(u), "exponents of {u:?} out of range");
    let p = parse_unit(u).unwrap_or_else(|| panic!("parse_unit({u:?}) returned None"));
    let atoms = base_unit_atoms();
    let mut scale = 1.0_f64;
    for f in &p.factors {
        let a = scale_f64(atoms[f.atom].2).powi(f.exp);
        if f.divide {
            scale /= a;
        } else {
            scale *= a;
        }
    }
    (p.dim, scale)
}

#[test]
fn unit_simple_atoms() {
    assert_eq!(parse("mm").0, Dim::m());
    assert_eq!(parse("kN").0, Dim::n());
    assert_eq!(parse("MPa").0, Dim::pa());
    assert!((parse("mm").1 - 1e-3).abs() < 1e-15);
    assert!((parse("MPa").1 - 1e6).abs() < 1.0);
}

#[test]
fn unit_composite_mul() {
    let (d, s) = parse("kN\u{00B7}m");
    assert_eq!(d, Dim::j());
    assert!((s - 1e3).abs() < 1.0, "kN·m scale={s}");
}

#[test]
fn unit_composite_div() {
    let (d, s) = parse("N/mm\u{00B2}");
    assert_eq!(d, Dim::pa());
    assert!((s - 1e6).abs() < 1.0, "N/mm² scale={s}");
}

#[test]
fn unit_caret_exponent() {
    let (d, s) = parse("mm^4");
    assert_eq!(d, Dim::m4());
    assert!((s - 1e-12).abs() < 1e-20, "mm^4 scale={s}");
}

#[test]
fn unit_superscript_exponent() {
    let (d, s) = parse("mm\u{2074}");
    assert_eq!(d, Dim::m4());
    assert!((s - 1e-12).abs() < 1e-20, "mm⁴ scale={s}");
}

#[test]
fn unit_composite_stress() {
    let (d, s) = parse("kN/m\u{00B2}");
    assert_eq!(d, Dim::pa());
    assert!((s - 1e3).abs() < 1.0, "kN/m² scale={s}");
}

#[test]
fn unit_empty_is_dimensionless() {
    let p = parse_unit("  ").unwrap();
    assert!(p.dim.is_dimensionless());
    assert!(p.factors.is_empty());
}

#[test]
fn unit_star_and_dot_multiply() {
    assert_eq!(parse("N*m").0, Dim::j());
    assert_eq!(parse("N\u{22C5}m").0, Dim::j());
}

#[test]
fn unit_negative_exponents() {
    let (d, _) = parse("m^-2");
    assert_eq!(d, Dim([-2, 0, 0, 0, 0, 0, 0]));
    let (d, _) = parse("s\u{207B}\u{00B9}");
    assert_eq!(d, Dim([0, 0, -1, 0, 0, 0, 0]));
}

#[test]
fn unit_divide_applies_to_next_atom_only() {
    // N/mm·mm: the division ends at the next multiplication sign
    let p = parse_unit("N/mm\u{00B7}mm").unwrap();
    assert_eq!(p.dim, Dim::n());
    assert_eq!(p.factors.len(), 3);
    assert!(!p.factors[0].divide);
    assert!(p.factors[1].divide);
    assert!(!p.factors[2].divide);
}

#[test]
fn unit_unknown_atom_is_none() {
    assert!(parse_unit("furlong").is_none());
    assert!(parse_unit("mm+").is_none());
}

#[test]
fn unit_degree_is_pi_over_180() {
    let (d, s) = parse("deg");
    assert!(d.is_dimensionless());
    assert!((s - std::f64::consts::PI / 180.0).abs() < 1e-15);
}

#[test]
fn unit_exponent_wraps_into_eight_bits() {
    // an exponent is taken modulo 2^8, as the i8 cast does
    assert!(unit_dims_fit("m^200"));
    assert_eq!(parse("m^200").0, Dim([-56, 0, 0, 0, 0, 0, 0]));
}

#[test]
fn unit_exponent_sum_out_of_range_is_refused() {
    assert!(unit_dims_fit("m^100"));
    assert!(!unit_dims_fit("m^100*m^100"));
}

#[test]
fn dim_mul_div_pow() {
    assert_eq!(Dim::n().mul(Dim::m()), Dim::j());
    assert_eq!(Dim::j().div(Dim::m()), Dim::n());
    assert_eq!(Dim::m().pow_int(4), Dim::m4());
    assert_eq!(Dim::m().pow_int(0), Dim::none());
    assert_eq!(Dim::m2().pow_int(-1), Dim([-2, 0, 0, 0, 0, 0, 0]));
}

#[test]
fn dim_is_dimensionless() {
    assert!(Dim::none().is_dimensionless());
    assert!(!Dim::kg().is_dimensionless());
    assert!(Dim::pa().div(Dim::pa()).is_dimensionless());
}

#[test]
fn law_mul_then_div_is_identity_example() {
    let a = Dim::pa();
    let b = Dim::m2();
    assert_eq!(a.mul(b).div(b), a);
    assert_eq!(a.mul(b), b.mul(a));
    assert_eq!(a.pow_int(2), a.mul(a));
}

#[test]
fn atom_table_in_order() {
    let atoms = base_unit_atoms();
    assert_eq!(atoms.len(), 30);
    assert_eq!(atoms[0].0, "mm");
    assert_eq!(atoms[29].0, "deg");
    assert!((scale_f64(atoms[4].2) - 0.0254).abs() < 1e-15);
}

#[test]
fn display_candidates_for_length() {
    let c = display_candidates(Dim::m());
    let names: Vec<&str> = c.iter().map(|&k| named_display_units()[k].0).collect();
    assert_eq!(names, vec!["mm", "cm", "m", "km"]);
    assert!(display_candidates(Dim::none()).is_empty());
    let moment: Vec<&str> = display_candidates(Dim::j()).iter().map(|&k| named_display_units()[k].0).collect();
    assert_eq!(moment, vec!["N\u{00B7}mm", "N\u{00B7}m", "kN\u{00B7}m", "MN\u{00B7}m"]);
}

#[test]
fn unit_parse_in_range() {
    assert!(parse_unit_in_range("m^100*m^100").is_none());
    assert_eq!(parse_unit_in_range("kN/m\u{00B2}").unwrap().unwrap().dim, Dim::pa());
    assert!(parse_unit_in_range("furlong").unwrap().is_none());
}

#[test]
fn unit_bare_caret_minus_is_minus_one() {
    assert_eq!(parse("m^-").0, Dim([-1, 0, 0, 0, 0, 0, 0]));
    assert_eq!(parse("m^").0, Dim::m());
}

#[test]
fn unit_product_and_quotient_of_atoms() {
    for (u, dim) in [("kN\u{00B7}m", Dim::j()), ("kN*m", Dim::j()), ("kN\u{22C5}m", Dim::j()), ("kN/m", Dim([0, 1, -2, 0, 0, 0, 0]))] {
        let p = parse_unit(u).unwrap();
        assert_eq!(p.dim, dim, "{u}");
        assert_eq!(p.factors.len(), 2);
        assert_eq!((p.factors[0].atom, p.factors[0].exp, p.factors[0].divide), (14, 1, false));
        assert_eq!((p.factors[1].atom, p.factors[1].exp, p.factors[1].divide), (2, 1, u.contains('/')));
    }
}

#[test]
fn unit_blank_around_is_trimmed() {
    assert_eq!(parse_unit("\u{00A0}kN\u{3000}").unwrap().dim, Dim::n());
}
