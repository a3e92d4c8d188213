use vstd::prelude::*;

verus! {

/// Sense of rotation of a circularly polarized wave.
#[derive(Debug, Clone, Copy, PartialEq, Eq, Structural)]
pub enum Handedness {
    Right,
    Left,
}

/// Polarization of a plane electromagnetic wave travelling along +x.
#[derive(Debug, Clone, Copy)]
pub enum Polarization {
    LinearY,
    LinearZ,
    Circular(Handedness),
}

/// One Cartesian component of a plane-wave field, relative to the wave's
/// amplitude: `amplitude * (cos_coeff * cos(phase) + sin_coeff * sin(phase))`,
/// where `phase = k x - omega t`.
#[derive(Debug, Clone, Copy, PartialEq, Eq, Structural)]
pub struct WaveTerm {
    pub cos_coeff: i8,
    pub sin_coeff: i8,
}

/// The field of a plane wave travelling along +x, relative to its amplitude.
/// Its x component is always zero: the wave is transverse.
#[derive(Debug, Clone, Copy, PartialEq, Eq, Structural)]
pub struct TransverseField {
    pub y: WaveTerm,
    pub z: WaveTerm,
}

/// The component `c cos(phase) + s sin(phase)`.
pub open spec fn term(c: i8, s: i8) -> WaveTerm {
    WaveTerm { cos_coeff: c, sin_coeff: s }
}

/// `+1` for a right-handed wave, `-1` for a left-handed one.
pub open spec fn handedness_sign(h: Handedness) -> i8 {
    match h {
        Handedness::Right => 1,
        Handedness::Left => -1i8,
    }
}

/// The electric field of a wave of each polarization:
/// linear along y: `(0, cos, 0)`; linear along z: `(0, 0, cos)`;
/// circular: `(0, cos, d sin)`, with `d` the handedness sign.
pub open spec fn electric_pattern(p: Polarization) -> TransverseField {
    match p {
        Polarization::LinearY => TransverseField { y: term(1, 0), z: term(0, 0) },
        Polarization::LinearZ => TransverseField { y: term(0, 0), z: term(1, 0) },
        Polarization::Circular(Handedness::Right) => TransverseField { y: term(1, 0), z: term(0, 1) },
        Polarization::Circular(Handedness::Left) => TransverseField { y: term(1, 0), z: term(0, -1i8) },
    }
}

/// The magnetic field of a wave of each polarization:
/// linear along y: `(0, 0, cos)`; linear along z: `(0, -cos, 0)`;
/// circular: `(0, -d sin, cos)`, with `d` the handedness sign.
pub open spec fn magnetic_pattern(p: Polarization) -> TransverseField {
    match p {
        Polarization::LinearY => TransverseField { y: term(0, 0), z: term(1, 0) },
        Polarization::LinearZ => TransverseField { y: term(-1i8, 0), z: term(0, 0) },
        Polarization::Circular(Handedness::Right) => TransverseField { y: term(0, -1i8), z: term(1, 0) },
        Polarization::Circular(Handedness::Left) => TransverseField { y: term(0, 1), z: term(1, 0) },
    }
}

impl Handedness {
    /// The sign that the handedness gives the rotating component:
    /// `+1` for right-handed, `-1` for left-handed.
    pub fn direction(&self) -> (r: i8)
        ensures
            r == handedness_sign(*self),
    {
        match self {
            Handedness::Right => 1,
            Handedness::Left => -1i8,
        }
    }
}

impl Polarization {
    /// The electric field of a wave with this polarization, relative to its
    /// electric amplitude.
    pub fn e_field_components(&self) -> (r: TransverseField)
        ensures
            r == electric_pattern(*self),
    {
        match self {
            Polarization::LinearY => TransverseField {
                y: WaveTerm { cos_coeff: 1, sin_coeff: 0 },
                z: WaveTerm { cos_coeff: 0, sin_coeff: 0 },
            },
            Polarization::LinearZ => TransverseField {
                y: WaveTerm { cos_coeff: 0, sin_coeff: 0 },
                z: WaveTerm { cos_coeff: 1, sin_coeff: 0 },
            },
            Polarization::Circular(direction) => TransverseField {
                y: WaveTerm { cos_coeff: 1, sin_coeff: 0 },
                z: WaveTerm { cos_coeff: 0, sin_coeff: direction.direction() },
            },
        }
    }

    /// The magnetic field of a wave with this polarization, relative to its
    /// magnetic amplitude.
    pub fn b_field_components(&self) -> (r: TransverseField)
        ensures
            r == magnetic_pattern(*self),
    {
        match self {
            Polarization::LinearY => TransverseField {
                y: WaveTerm { cos_coeff: 0, sin_coeff: 0 },
                z: WaveTerm { cos_coeff: 1, sin_coeff: 0 },
            },
            Polarization::LinearZ => TransverseField {
                y: WaveTerm { cos_coeff: -1, sin_coeff: 0 },
                z: WaveTerm { cos_coeff: 0, sin_coeff: 0 },
            },
            Polarization::Circular(direction) => TransverseField {
                y: WaveTerm { cos_coeff: 0, sin_coeff: -direction.direction() },
                z: WaveTerm { cos_coeff: 1, sin_coeff: 0 },
            },
        }
    }
}

/// A quadratic form in `cos(phase)` and `sin(phase)`:
/// `cc cos^2 + ss sin^2 + cs cos sin`.
pub struct TrigQuadratic {
    pub cc: int,
    pub ss: int,
    pub cs: int,
}

/// The product of two wave components, as a quadratic form.
pub open spec fn term_product(a: WaveTerm, b: WaveTerm) -> TrigQuadratic {
    TrigQuadratic {
        cc: a.cos_coeff * b.cos_coeff,
        ss: a.sin_coeff * b.sin_coeff,
        cs: a.cos_coeff * b.sin_coeff + a.sin_coeff * b.cos_coeff,
    }
}

/// The sum of two quadratic forms.
pub open spec fn quadratic_add(a: TrigQuadratic, b: TrigQuadratic) -> TrigQuadratic {
    TrigQuadratic { cc: a.cc + b.cc, ss: a.ss + b.ss, cs: a.cs + b.cs }
}

/// The difference of two quadratic forms.
pub open spec fn quadratic_sub(a: TrigQuadratic, b: TrigQuadratic) -> TrigQuadratic {
    TrigQuadratic { cc: a.cc - b.cc, ss: a.ss - b.ss, cs: a.cs - b.cs }
}

/// `E . B` for two transverse fields (their x components are zero).
pub open spec fn dot_form(e: TransverseField, b: TransverseField) -> TrigQuadratic {
    quadratic_add(term_product(e.y, b.y), term_product(e.z, b.z))
}

/// The x component of `E x B` for two transverse fields; its y and z
/// components are zero, since both x components are zero.
pub open spec fn cross_x_form(e: TransverseField, b: TransverseField) -> TrigQuadratic {
    quadratic_sub(term_product(e.y, b.z), term_product(e.z, b.y))
}

/// The component-wise negation of a wave term.
pub open spec fn negated(t: WaveTerm) -> WaveTerm {
    WaveTerm { cos_coeff: (-t.cos_coeff) as i8, sin_coeff: (-t.sin_coeff) as i8 }
}

/// In a plane wave travelling along +x, `B` is `x_hat x E` (scaled by `1/c`):
/// `B_y = -E_z` and `B_z = E_y`, for every polarization.
pub proof fn lemma_magnetic_is_propagation_cross_electric(p: Polarization)
    ensures
        magnetic_pattern(p).y == negated(electric_pattern(p).z),
        magnetic_pattern(p).z == electric_pattern(p).y,
{
}

/// The electric and magnetic fields of a plane wave are perpendicular at every
/// point and time: `E . B = 0` identically in the phase.
pub proof fn lemma_fields_perpendicular(p: Polarization)
    ensures
        dot_form(electric_pattern(p), magnetic_pattern(p)) == (TrigQuadratic { cc: 0, ss: 0, cs: 0 }),
{
    match p {
        Polarization::Circular(h) => {
            match h {
                Handedness::Right => {},
                Handedness::Left => {},
            }
        },
        _ => {},
    }
}

/// The Poynting vector `E x B / mu_0` of a plane wave points along the direction
/// of propagation +x at every point and time: its x component is
/// `cos^2` (linear) or `cos^2 + sin^2 = 1` (circular) times a positive factor,
/// and never negative.
pub proof fn lemma_poynting_along_propagation(p: Polarization)
    ensures
        cross_x_form(electric_pattern(p), magnetic_pattern(p)) == (match p {
            Polarization::Circular(_) => TrigQuadratic { cc: 1, ss: 1, cs: 0 },
            _ => TrigQuadratic { cc: 1, ss: 0, cs: 0 },
        }),
{
    match p {
        Polarization::Circular(h) => {
            match h {
                Handedness::Right => {},
                Handedness::Left => {},
            }
        },
        _ => {},
    }
}

/// A circularly polarized wave has an electric field of constant magnitude:
/// `|E|^2 = cos^2 + sin^2 = 1` (relative to the amplitude), whatever its handedness.
pub proof fn lemma_circular_constant_magnitude(h: Handedness)
    ensures
        dot_form(
            electric_pattern(Polarization::Circular(h)),
            electric_pattern(Polarization::Circular(h)),
        ) == (TrigQuadratic { cc: 1, ss: 1, cs: 0 }),
{
    match h {
        Handedness::Right => {},
        Handedness::Left => {},
    }
}

/// Reversing the handedness of a circularly polarized wave mirrors its
/// rotating component: the y components stay, the z components change sign.
pub proof fn lemma_handedness_mirror()
    ensures
        electric_pattern(Polarization::Circular(Handedness::Left)).y == electric_pattern(
            Polarization::Circular(Handedness::Right),
        ).y,
        electric_pattern(Polarization::Circular(Handedness::Left)).z == negated(
            electric_pattern(Polarization::Circular(Handedness::Right)).z,
        ),
        magnetic_pattern(Polarization::Circular(Handedness::Left)).y == negated(
            magnetic_pattern(Polarization::Circular(Handedness::Right)).y,
        ),
        magnetic_pattern(Polarization::Circular(Handedness::Left)).z == magnetic_pattern(
            Polarization::Circular(Handedness::Right),
        ).z,
{
}

} // verus!
