use lau_electromagnetism::waves::{Handedness, Polarization, TransverseField, WaveTerm};

fn field(ycos: i8, ysin: i8, zcos: i8, zsin: i8) -> TransverseField {
    TransverseField {
        y: WaveTerm { cos_coeff: ycos, sin_coeff: ysin },
        z: WaveTerm { cos_coeff: zcos, sin_coeff: zsin },
    }
}

#[test]
fn test_handedness_direction() {
    assert_eq!(Handedness::Right.direction(), 1);
    assert_eq!(Handedness::Left.direction(), -1);
}

#[test]
fn test_linear_y_pattern() {
    assert_eq!(Polarization::LinearY.e_field_components(), field(1, 0, 0, 0));
    assert_eq!(Polarization::LinearY.b_field_components(), field(0, 0, 1, 0));
}

#[test]
fn test_linear_z_pattern() {
    assert_eq!(Polarization::LinearZ.e_field_components(), field(0, 0, 1, 0));
    assert_eq!(Polarization::LinearZ.b_field_components(), field(-1, 0, 0, 0));
}

#[test]
fn test_circular_patterns() {
    let right = Polarization::Circular(Handedness::Right);
    let left = Polarization::Circular(Handedness::Left);
    assert_eq!(right.e_field_components(), field(1, 0, 0, 1));
    assert_eq!(right.b_field_components(), field(0, -1, 1, 0));
    assert_eq!(left.e_field_components(), field(1, 0, 0, -1));
    assert_eq!(left.b_field_components(), field(0, 1, 1, 0));
}

fn value(t: WaveTerm, phase: f64) -> f64 {
    t.cos_coeff as f64 * phase.cos() + t.sin_coeff as f64 * phase.sin()
}

#[test]
fn test_fields_perpendicular_and_poynting_forward() {
    let all = [
        Polarization::LinearY,
        Polarization::LinearZ,
        Polarization::Circular(Handedness::Right),
        Polarization::Circular(Handedness::Left),
    ];
    for p in all.iter() {
        let e = p.e_field_components();
        let b = p.b_field_components();
        for k in 0..16 {
            let phase = k as f64 * 0.4;
            let dot = value(e.y, phase) * value(b.y, phase) + value(e.z, phase) * value(b.z, phase);
            assert!(dot.abs() < 1e-12);
            let sx = value(e.y, phase) * value(b.z, phase) - value(e.z, phase) * value(b.y, phase);
            assert!(sx >= -1e-12);
        }
    }
}

#[test]
fn test_circular_magnitude_constant() {
    let e = Polarization::Circular(Handedness::Left).e_field_components();
    for k in 0..16 {
        let phase = k as f64 * 0.3;
        let m = value(e.y, phase).powi(2) + value(e.z, phase).powi(2);
        assert!((m - 1.0).abs() < 1e-12);
    }
}
