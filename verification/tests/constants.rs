use lau_electromagnetism::constants::{
    boltzmann, c, e_charge, electron_mass, epsilon_0, k_coulomb, mu_0, proton_mass,
    verify_speed_of_light, z_0, Quantity, PI_BRACKET_DEN, PI_LOWER_NUM, PI_UPPER_NUM,
};

fn approx(q: &Quantity) -> f64 {
    q.num as f64 / q.den as f64 * 10f64.powi(q.exp10) * std::f64::consts::PI.powi(q.pi_exp)
}

#[test]
fn test_speed_of_light_relation() {
    assert!(verify_speed_of_light());
}

#[test]
fn test_coulomb_constant() {
    let expected = 8.987_551_787_368_176_4e9;
    let k = approx(&k_coulomb());
    assert!((k - expected).abs() / expected < 1e-6);
}

#[test]
fn test_characteristic_impedance() {
    // Z₀ ≈ 376.73 Ω
    let z = approx(&z_0());
    assert!((z - 376.73).abs() < 0.1);
}

#[test]
fn test_exact_decimal_constants() {
    let e0 = epsilon_0();
    assert_eq!((e0.num, e0.den, e0.exp10, e0.pi_exp), (8854187817, 1, -21, 0));
    let m0 = mu_0();
    assert_eq!((m0.num, m0.den, m0.exp10, m0.pi_exp), (4, 1, -7, 1));
    let light = c();
    assert_eq!((light.num, light.den, light.exp10, light.pi_exp), (299792458, 1, 0, 0));
    let e = e_charge();
    assert_eq!((e.num, e.den, e.exp10, e.pi_exp), (1602176634, 1, -28, 0));
    let me = electron_mass();
    assert_eq!((me.num, me.den, me.exp10, me.pi_exp), (91093837015, 1, -41, 0));
    let mp = proton_mass();
    assert_eq!((mp.num, mp.den, mp.exp10, mp.pi_exp), (167262192369, 1, -38, 0));
    let kb = boltzmann();
    assert_eq!((kb.num, kb.den, kb.exp10, kb.pi_exp), (1380649, 1, -29, 0));
}

#[test]
fn test_constants_match_float_values() {
    assert!((approx(&epsilon_0()) - 8.854187817e-12).abs() < 1e-24);
    assert!((approx(&mu_0()) - 4.0 * std::f64::consts::PI * 1e-7).abs() < 1e-18);
    assert!((approx(&e_charge()) - 1.602176634e-19).abs() < 1e-31);
    assert!((approx(&electron_mass()) - 9.1093837015e-31).abs() < 1e-43);
    assert!((approx(&proton_mass()) - 1.67262192369e-27).abs() < 1e-39);
    assert!((approx(&boltzmann()) - 1.380649e-23).abs() < 1e-35);
}

#[test]
fn test_coulomb_constant_times_four_pi_epsilon_is_one() {
    let k = approx(&k_coulomb());
    let product = k * 4.0 * std::f64::consts::PI * approx(&epsilon_0());
    assert!((product - 1.0).abs() < 1e-12);
}

#[test]
fn test_impedance_is_mu_times_c() {
    let z = approx(&z_0());
    assert!((z - approx(&mu_0()) * approx(&c())).abs() < 1e-9);
}

#[test]
fn test_pi_bracket_contains_pi() {
    let lo = PI_LOWER_NUM as f64 / PI_BRACKET_DEN as f64;
    let hi = PI_UPPER_NUM as f64 / PI_BRACKET_DEN as f64;
    assert!(lo <= std::f64::consts::PI && std::f64::consts::PI <= hi);
}
