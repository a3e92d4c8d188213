use vstd::prelude::*;

verus! {

/// 2^64 as a mathematical integer.
pub open spec fn two_pow_64() -> int {
    0x1_0000_0000_0000_0000int
}

/// 2^128 as a mathematical integer.
pub open spec fn two_pow_128() -> int {
    0x1_0000_0000_0000_0000_0000_0000_0000_0000int
}

/// Splits `x` into its high and low 64-bit halves.
fn split_u128(x: u128) -> (r: (u128, u128))
    ensures
        r.0 < two_pow_64(),
        r.1 < two_pow_64(),
        x == r.0 * two_pow_64() + r.1,
{
    let hi = x >> 64u32;
    let lo = x & 0xffff_ffff_ffff_ffffu128;
    assert(hi == x / 0x1_0000_0000_0000_0000u128) by (bit_vector)
        requires
            hi == x >> 64u32,
    ;
    assert(lo == x % 0x1_0000_0000_0000_0000u128) by (bit_vector)
        requires
            lo == x & 0xffff_ffff_ffff_ffffu128,
    ;
    (hi, lo)
}

/// The full 256-bit product of two 128-bit numbers, as (high word, low word).
fn mul_wide(a: u128, b: u128) -> (r: (u128, u128))
    ensures
        r.0 * two_pow_128() + r.1 == a * b,
{
    let (a1, a0) = split_u128(a);
    let (b1, b0) = split_u128(b);
    assert(a0 * b0 < two_pow_128()) by (nonlinear_arith)
        requires a0 < two_pow_64(), b0 < two_pow_64(), two_pow_128() == two_pow_64() * two_pow_64();
    assert(a0 * b1 < two_pow_128()) by (nonlinear_arith)
        requires a0 < two_pow_64(), b1 < two_pow_64(), two_pow_128() == two_pow_64() * two_pow_64();
    assert(a1 * b0 < two_pow_128()) by (nonlinear_arith)
        requires a1 < two_pow_64(), b0 < two_pow_64(), two_pow_128() == two_pow_64() * two_pow_64();
    assert(a1 * b1 < two_pow_128()) by (nonlinear_arith)
        requires a1 < two_pow_64(), b1 < two_pow_64(), two_pow_128() == two_pow_64() * two_pow_64();
    let p00 = a0 * b0;
    let p01 = a0 * b1;
    let p10 = a1 * b0;
    let p11 = a1 * b1;
    let (p00h, p00l) = split_u128(p00);
    let (p01h, p01l) = split_u128(p01);
    let (p10h, p10l) = split_u128(p10);
    let mid = p00h + p01l + p10l;
    let (midh, midl) = split_u128(mid);
    assert(a * b == p11 * two_pow_128() + (p01 + p10) * two_pow_64() + p00) by (nonlinear_arith)
        requires
            a == a1 * two_pow_64() + a0,
            b == b1 * two_pow_64() + b0,
            two_pow_128() == two_pow_64() * two_pow_64(),
            p00 == a0 * b0,
            p01 == a0 * b1,
            p10 == a1 * b0,
            p11 == a1 * b1,
    ;
    assert(a * b == (p11 + p01h + p10h + midh) * two_pow_128() + midl * two_pow_64() + p00l)
        by (nonlinear_arith)
        requires
            a * b == p11 * two_pow_128() + (p01 + p10) * two_pow_64() + p00,
            two_pow_128() == two_pow_64() * two_pow_64(),
            p00 == p00h * two_pow_64() + p00l,
            p01 == p01h * two_pow_64() + p01l,
            p10 == p10h * two_pow_64() + p10l,
            mid == p00h + p01l + p10l,
            mid == midh * two_pow_64() + midl,
    ;
    assert(p11 + p01h + p10h + midh < two_pow_128()) by (nonlinear_arith)
        requires
            a * b == (p11 + p01h + p10h + midh) * two_pow_128() + midl * two_pow_64() + p00l,
            a < two_pow_128(),
            b < two_pow_128(),
            midl >= 0,
            p00l >= 0,
            p11 + p01h + p10h + midh >= 0,
    ;
    let hi = p11 + p01h + p10h + midh;
    let lo = midl * 0x1_0000_0000_0000_0000u128 + p00l;
    (hi, lo)
}


/// Whether `a * b > c * d`, computed exactly on 256-bit products.
fn product_exceeds(a: u128, b: u128, c: u128, d: u128) -> (r: bool)
    ensures
        r == (a * b > c * d),
{
    let (h1, l1) = mul_wide(a, b);
    let (h2, l2) = mul_wide(c, d);
    proof {
        lemma_wide_order(h1 as int, l1 as int, h2 as int, l2 as int);
    }
    h1 > h2 || (h1 == h2 && l1 > l2)
}

/// Two-word numbers are ordered lexicographically.
proof fn lemma_wide_order(h1: int, l1: int, h2: int, l2: int)
    requires
        0 <= l1 < two_pow_128(),
        0 <= l2 < two_pow_128(),
    ensures
        (h1 * two_pow_128() + l1 > h2 * two_pow_128() + l2) == (h1 > h2 || (h1 == h2 && l1 > l2)),
{
    if h1 > h2 {
        assert(h1 * two_pow_128() >= h2 * two_pow_128() + two_pow_128()) by (nonlinear_arith)
            requires h1 > h2, two_pow_128() > 0;
    } else if h1 < h2 {
        assert(h2 * two_pow_128() >= h1 * two_pow_128() + two_pow_128()) by (nonlinear_arith)
            requires h1 < h2, two_pow_128() > 0;
    }
}


/// `base` raised to the natural power `e`.
pub open spec fn ipow(base: int, e: nat) -> int
    decreases e,
{
    if e == 0 {
        1
    } else {
        base * ipow(base, (e - 1) as nat)
    }
}

/// Powers of a positive base grow with the exponent.
proof fn lemma_ipow_monotone(base: int, k: nat, e: nat)
    requires
        base >= 1,
        k <= e,
    ensures
        1 <= ipow(base, k) <= ipow(base, e),
    decreases e,
{
    if e > k {
        lemma_ipow_monotone(base, k, (e - 1) as nat);
        let prev = ipow(base, (e - 1) as nat);
        assert(prev <= base * prev) by (nonlinear_arith)
            requires base >= 1, prev >= 1;
    } else if e > 0 {
        lemma_ipow_monotone(base, 0, (e - 1) as nat);
        let prev = ipow(base, (e - 1) as nat);
        assert(1 <= base * prev) by (nonlinear_arith)
            requires base >= 1, prev >= 1;
    }
}

/// `base^e`, or `None` when it does not fit in a `u128`.
fn checked_pow(base: u128, e: u32) -> (r: Option<u128>)
    ensures
        r matches Some(v) ==> v == ipow(base as int, e as nat),
        ipow(base as int, e as nat) <= u128::MAX ==> r is Some,
{
    let mut acc: u128 = 1;
    let mut i: u32 = 0;
    while i < e
        invariant
            i <= e,
            acc == ipow(base as int, i as nat),
            ipow(base as int, e as nat) <= u128::MAX ==> acc <= u128::MAX,
        decreases e - i,
    {
        let next = acc.checked_mul(base);
        proof {
            assert(ipow(base as int, (i + 1) as nat) == base * ipow(base as int, i as nat));
            assert(acc * base == base * acc) by (nonlinear_arith);
        }
        match next {
            Some(v) => {
                acc = v;
                i = i + 1;
            },
            None => {
                proof {
                    if ipow(base as int, e as nat) <= u128::MAX {
                        if base >= 1 {
                            lemma_ipow_monotone(base as int, (i + 1) as nat, e as nat);
                        }
                        assert(false);
                    }
                }
                return None;
            },
        }
    }
    Some(acc)
}

/// The exact mathematical value of a [`Quantity`]:
/// `num / den * 10^exp10 * pi^pi_exp`.
pub struct QuantityModel {
    pub num: int,
    pub den: int,
    pub exp10: int,
    pub pi_exp: int,
}

/// A physical quantity held exactly, in SI units, as a rational multiple of a
/// power of ten and of a power of pi: `num / den * 10^exp10 * pi^pi_exp`.
///
/// Decimal constants are held digit for digit, and constants defined through
/// pi (such as the vacuum permeability `4 pi 10^-7`) are held symbolically,
/// so that identities between constants hold exactly.
#[derive(Clone, Copy, Debug)]
pub struct Quantity {
    pub num: u128,
    pub den: u128,
    pub exp10: i32,
    pub pi_exp: i32,
}

impl View for Quantity {
    type V = QuantityModel;

    open spec fn view(&self) -> QuantityModel {
        QuantityModel {
            num: self.num as int,
            den: self.den as int,
            exp10: self.exp10 as int,
            pi_exp: self.pi_exp as int,
        }
    }
}

/// The exact product of two quantities.
pub open spec fn product(a: QuantityModel, b: QuantityModel) -> QuantityModel {
    QuantityModel {
        num: a.num * b.num,
        den: a.den * b.den,
        exp10: a.exp10 + b.exp10,
        pi_exp: a.pi_exp + b.pi_exp,
    }
}

/// Whether two quantities (with positive denominators) denote the same number,
/// whatever the value of pi.
pub open spec fn same_value(a: QuantityModel, b: QuantityModel) -> bool {
    &&& a.pi_exp == b.pi_exp
    &&& if a.exp10 >= b.exp10 {
        a.num * ipow(10, (a.exp10 - b.exp10) as nat) * b.den == b.num * a.den
    } else {
        a.num * b.den == b.num * ipow(10, (b.exp10 - a.exp10) as nat) * a.den
    }
}

/// The numerator of the value of `q` when pi is taken as `a / b`.
pub open spec fn value_numerator(q: QuantityModel, a: int, b: int) -> int {
    q.num * (if q.exp10 >= 0 { ipow(10, q.exp10 as nat) } else { 1 }) * (if q.pi_exp >= 0 {
        ipow(a, q.pi_exp as nat)
    } else {
        ipow(b, (-q.pi_exp) as nat)
    })
}

/// The denominator of the value of `q` when pi is taken as `a / b`.
pub open spec fn value_denominator(q: QuantityModel, a: int, b: int) -> int {
    q.den * (if q.exp10 >= 0 { 1 } else { ipow(10, (-q.exp10) as nat) }) * (if q.pi_exp >= 0 {
        ipow(b, q.pi_exp as nat)
    } else {
        ipow(a, (-q.pi_exp) as nat)
    })
}


/// The magnitude of an exponent.
fn magnitude(e: i32) -> (r: u32)
    ensures
        r == (if e >= 0 { e as int } else { -e }),
{
    if e >= 0 {
        e as u32
    } else {
        (-(e as i64)) as u32
    }
}

/// `x * y * z`, or `None` when a partial product does not fit in a `u128`.
fn checked_product3(x: u128, y: u128, z: u128) -> (r: Option<u128>)
    ensures
        r matches Some(v) ==> v == x * y * z,
        x >= 1 && y >= 1 && z >= 1 && x * y * z <= u128::MAX ==> r is Some,
{
    match x.checked_mul(y) {
        Some(xy) => xy.checked_mul(z),
        None => {
            proof {
                if x >= 1 && y >= 1 && z >= 1 && x * y * z <= u128::MAX {
                    assert(x * y <= x * y * z) by (nonlinear_arith)
                        requires x >= 1, y >= 1, z >= 1;
                }
            }
            None
        },
    }
}

/// The value of `q` with pi taken as `a / b`, as an exact fraction
/// `(numerator, denominator)`, or `None` when a part of it does not fit in a `u128`.
fn value_at(q: &Quantity, a: u128, b: u128) -> (r: Option<(u128, u128)>)
    ensures
        r matches Some(v) ==> v.0 == value_numerator(q@, a as int, b as int) && v.1
            == value_denominator(q@, a as int, b as int),
        q.num >= 1 && q.den >= 1 && a >= 1 && b >= 1 && value_numerator(q@, a as int, b as int)
            <= u128::MAX && value_denominator(q@, a as int, b as int) <= u128::MAX ==> r is Some,
{
    let e10 = magnitude(q.exp10);
    let epi = magnitude(q.pi_exp);
    let ten = checked_pow(10, e10);
    let pa = checked_pow(a, epi);
    let pb = checked_pow(b, epi);
    proof {
        lemma_ipow_monotone(10, 0, e10 as nat);
        if a >= 1 {
            lemma_ipow_monotone(a as int, 0, epi as nat);
        }
        if b >= 1 {
            lemma_ipow_monotone(b as int, 0, epi as nat);
        }
        let ghost t = ipow(10, e10 as nat);
        let ghost ia = ipow(a as int, epi as nat);
        let ghost ib = ipow(b as int, epi as nat);
        if q.num >= 1 && q.den >= 1 && a >= 1 && b >= 1 {
            if value_numerator(q@, a as int, b as int) <= u128::MAX {
                assert(t <= q.num * t * ia && ia <= q.num * t * ia && ib <= q.num * t * ib
                    && t <= q.num * t * ib) by (nonlinear_arith)
                    requires q.num >= 1, t >= 1, ia >= 1, ib >= 1;
                assert(ia <= q.num * 1 * ia && ib <= q.num * 1 * ib) by (nonlinear_arith)
                    requires q.num >= 1, ia >= 1, ib >= 1;
            }
            if value_denominator(q@, a as int, b as int) <= u128::MAX {
                assert(t <= q.den * t * ia && ia <= q.den * t * ia && ib <= q.den * t * ib
                    && t <= q.den * t * ib) by (nonlinear_arith)
                    requires q.den >= 1, t >= 1, ia >= 1, ib >= 1;
                assert(ia <= q.den * 1 * ia && ib <= q.den * 1 * ib) by (nonlinear_arith)
                    requires q.den >= 1, ia >= 1, ib >= 1;
            }
        }
    }
    match (ten, pa, pb) {
        (Some(ten), Some(pa), Some(pb)) => {
            let num_ten = if q.exp10 >= 0 { ten } else { 1 };
            let den_ten = if q.exp10 >= 0 { 1 } else { ten };
            let num_pi = if q.pi_exp >= 0 { pa } else { pb };
            let den_pi = if q.pi_exp >= 0 { pb } else { pa };
            let n = checked_product3(q.num, num_ten, num_pi);
            let d = checked_product3(q.den, den_ten, den_pi);
            match (n, d) {
                (Some(n), Some(d)) => Some((n, d)),
                _ => None,
            }
        },
        _ => None,
    }
}


/// Whether a value `n / d` passes the library's test for the relation
/// `c = 1 / sqrt(epsilon_0 mu_0)`, when `n / d` is `epsilon_0 mu_0 c^2`:
/// `|1 / sqrt(n / d) - 1| < 10^-6`, that is
/// `1 / (1 + 10^-6)^2 < n / d < 1 / (1 - 10^-6)^2`, where
/// `(10^6 + 1)^2 = 1_000_002_000_001`, `(10^6 - 1)^2 = 999_998_000_001`
/// and `(10^6)^2 = 10^12`.
pub open spec fn within_light_tolerance(n: int, d: int) -> bool {
    &&& n * 1_000_002_000_001 > d * 1_000_000_000_000
    &&& n * 999_998_000_001 < d * 1_000_000_000_000
}

/// Decides [`within_light_tolerance`] for the value of `q` with pi taken as `a / b`,
/// or gives `None` when that value does not fit in 128-bit words.
fn light_tolerance_at(q: &Quantity, a: u128, b: u128) -> (r: Option<bool>)
    ensures
        r matches Some(v) ==> v == within_light_tolerance(
            value_numerator(q@, a as int, b as int),
            value_denominator(q@, a as int, b as int),
        ),
        q.num >= 1 && q.den >= 1 && a >= 1 && b >= 1 && value_numerator(q@, a as int, b as int)
            <= u128::MAX && value_denominator(q@, a as int, b as int) <= u128::MAX ==> r is Some,
{
    match value_at(q, a, b) {
        Some((n, d)) => {
            let above = product_exceeds(n, 1_000_002_000_001, d, 1_000_000_000_000);
            let below = product_exceeds(d, 1_000_000_000_000, n, 999_998_000_001);
            Some(above && below)
        },
        None => None,
    }
}

/// The exact product of two quantities, or `None` when it does not fit.
fn mul_quantity(a: &Quantity, b: &Quantity) -> (r: Option<Quantity>)
    ensures
        r matches Some(v) ==> v@ == product(a@, b@),
        a.num * b.num <= u128::MAX && a.den * b.den <= u128::MAX && i32::MIN <= a.exp10 + b.exp10
            <= i32::MAX && i32::MIN <= a.pi_exp + b.pi_exp <= i32::MAX ==> r is Some,
{
    match (
        a.num.checked_mul(b.num),
        a.den.checked_mul(b.den),
        a.exp10.checked_add(b.exp10),
        a.pi_exp.checked_add(b.pi_exp),
    ) {
        (Some(num), Some(den), Some(exp10), Some(pi_exp)) => Some(Quantity { num, den, exp10, pi_exp }),
        _ => None,
    }
}


/// Vacuum permittivity (F/m): 8.854187817 x 10^-12.
#[verifier::allow_in_spec]
pub fn epsilon_0() -> Quantity
    returns
        (Quantity { num: 8854187817u128, den: 1u128, exp10: -21i32, pi_exp: 0i32 }),
{
    Quantity { num: 8854187817, den: 1, exp10: -21, pi_exp: 0 }
}

/// Vacuum permeability (H/m = T m/A): 4 pi x 10^-7.
#[verifier::allow_in_spec]
pub fn mu_0() -> Quantity
    returns
        (Quantity { num: 4u128, den: 1u128, exp10: -7i32, pi_exp: 1i32 }),
{
    Quantity { num: 4, den: 1, exp10: -7, pi_exp: 1 }
}

/// Speed of light in vacuum (m/s): 299 792 458.
#[verifier::allow_in_spec]
pub fn c() -> Quantity
    returns
        (Quantity { num: 299792458u128, den: 1u128, exp10: 0i32, pi_exp: 0i32 }),
{
    Quantity { num: 299792458, den: 1, exp10: 0, pi_exp: 0 }
}

/// Coulomb's constant (N m^2/C^2): 1 / (4 pi epsilon_0), about 8.988 x 10^9.
#[verifier::allow_in_spec]
pub fn k_coulomb() -> Quantity
    returns
        (Quantity { num: 1u128, den: 35416751268u128, exp10: 21i32, pi_exp: -1i32 }),
{
    Quantity { num: 1, den: 35416751268, exp10: 21, pi_exp: -1 }
}

/// Elementary charge (C): 1.602176634 x 10^-19.
#[verifier::allow_in_spec]
pub fn e_charge() -> Quantity
    returns
        (Quantity { num: 1602176634u128, den: 1u128, exp10: -28i32, pi_exp: 0i32 }),
{
    Quantity { num: 1602176634, den: 1, exp10: -28, pi_exp: 0 }
}

/// Electron mass (kg): 9.1093837015 x 10^-31.
#[verifier::allow_in_spec]
pub fn electron_mass() -> Quantity
    returns
        (Quantity { num: 91093837015u128, den: 1u128, exp10: -41i32, pi_exp: 0i32 }),
{
    Quantity { num: 91093837015, den: 1, exp10: -41, pi_exp: 0 }
}

/// Proton mass (kg): 1.67262192369 x 10^-27.
#[verifier::allow_in_spec]
pub fn proton_mass() -> Quantity
    returns
        (Quantity { num: 167262192369u128, den: 1u128, exp10: -38i32, pi_exp: 0i32 }),
{
    Quantity { num: 167262192369, den: 1, exp10: -38, pi_exp: 0 }
}

/// Boltzmann constant (J/K): 1.380649 x 10^-23.
#[verifier::allow_in_spec]
pub fn boltzmann() -> Quantity
    returns
        (Quantity { num: 1380649u128, den: 1u128, exp10: -29i32, pi_exp: 0i32 }),
{
    Quantity { num: 1380649, den: 1, exp10: -29, pi_exp: 0 }
}

/// Characteristic impedance of free space (ohm): mu_0 c, about 376.73.
#[verifier::allow_in_spec]
pub fn z_0() -> Quantity
    returns
        (Quantity { num: 1199169832u128, den: 1u128, exp10: -7i32, pi_exp: 1i32 }),
{
    Quantity { num: 1199169832, den: 1, exp10: -7, pi_exp: 1 }
}

/// Numerator of the lower end of the bracket `[3.1415926535, 3.1415926536]` of pi.
pub const PI_LOWER_NUM: u128 = 31415926535;

/// Numerator of the upper end of the bracket `[3.1415926535, 3.1415926536]` of pi.
pub const PI_UPPER_NUM: u128 = 31415926536;

/// Common denominator of the two ends of the bracket of pi.
pub const PI_BRACKET_DEN: u128 = 10000000000;

/// Whether the rational `a / b` lies in the bracket of pi.
pub open spec fn in_pi_bracket(a: int, b: int) -> bool {
    &&& b >= 1
    &&& PI_LOWER_NUM * b <= a * PI_BRACKET_DEN
    &&& a * PI_BRACKET_DEN <= PI_UPPER_NUM * b
}

/// `epsilon_0 mu_0 c^2`, which is 1 when `c = 1 / sqrt(epsilon_0 mu_0)` holds exactly.
pub open spec fn light_relation_product() -> QuantityModel {
    product(product(epsilon_0()@, mu_0()@), product(c()@, c()@))
}

/// The relation `c = 1 / sqrt(epsilon_0 mu_0)` holds within a relative 10^-6
/// when pi is taken as `a / b`.
pub open spec fn light_relation_at(a: int, b: int) -> bool {
    within_light_tolerance(
        value_numerator(light_relation_product(), a, b),
        value_denominator(light_relation_product(), a, b),
    )
}

/// The relation `c = 1 / sqrt(epsilon_0 mu_0)` holds within a relative 10^-6
/// for every rational value of pi in the bracket `[3.1415926535, 3.1415926536]`.
pub open spec fn speed_of_light_relation() -> bool {
    forall|a: int, b: int| #[trigger] in_pi_bracket(a, b) ==> light_relation_at(a, b)
}

/// The two ends of the bracket bound the relation on the whole bracket:
/// `epsilon_0 mu_0 c^2` grows with pi.
proof fn lemma_bracket_ends_suffice(k: int, m: int, lo: int, hi: int, den: int, a: int, b: int)
    requires
        k >= 0,
        m >= 0,
        den >= 1,
        b >= 1,
        lo * b <= a * den,
        a * den <= hi * b,
        k * lo * 1_000_002_000_001 > m * den * 1_000_000_000_000,
        k * hi * 999_998_000_001 < m * den * 1_000_000_000_000,
    ensures
        k * a * 1_000_002_000_001 > m * b * 1_000_000_000_000,
        k * a * 999_998_000_001 < m * b * 1_000_000_000_000,
{
    assert(k * a * 1_000_002_000_001 * den >= k * lo * 1_000_002_000_001 * b) by (nonlinear_arith)
        requires k >= 0, lo * b <= a * den;
    assert(k * lo * 1_000_002_000_001 * b > m * den * 1_000_000_000_000 * b) by (nonlinear_arith)
        requires b >= 1, k * lo * 1_000_002_000_001 > m * den * 1_000_000_000_000;
    assert(k * a * 1_000_002_000_001 > m * b * 1_000_000_000_000) by (nonlinear_arith)
        requires
            den >= 1,
            k * a * 1_000_002_000_001 * den > m * den * 1_000_000_000_000 * b;
    assert(k * a * 999_998_000_001 * den <= k * hi * 999_998_000_001 * b) by (nonlinear_arith)
        requires k >= 0, a * den <= hi * b;
    assert(k * hi * 999_998_000_001 * b < m * den * 1_000_000_000_000 * b) by (nonlinear_arith)
        requires b >= 1, k * hi * 999_998_000_001 < m * den * 1_000_000_000_000;
    assert(k * a * 999_998_000_001 < m * b * 1_000_000_000_000) by (nonlinear_arith)
        requires
            den >= 1,
            k * a * 999_998_000_001 * den < m * den * 1_000_000_000_000 * b;
}

/// The value of `epsilon_0 mu_0 c^2` with pi taken as `a / b`:
/// `3183098861614875278975476752 a / (10^28 b)`.
proof fn lemma_light_relation_value(a: int, b: int)
    ensures
        light_relation_product() == (QuantityModel {
            num: 3183098861614875278975476752,
            den: 1,
            exp10: -28,
            pi_exp: 1,
        }),
        value_numerator(light_relation_product(), a, b) == 3183098861614875278975476752 * a,
        value_denominator(light_relation_product(), a, b) == 10_000_000_000_000_000_000_000_000_000
            * b,
{
    reveal_with_fuel(ipow, 30);
    assert(ipow(10, 28) == 10_000_000_000_000_000_000_000_000_000);
    assert(ipow(a, 1) == a);
    assert(ipow(b, 1) == b);
    let em = product(epsilon_0()@, mu_0()@);
    let cc = product(c()@, c()@);
    assert(epsilon_0()@.den == 1 && mu_0()@.den == 1 && c()@.den == 1);
    assert(em.den == 1 && cc.den == 1) by (nonlinear_arith)
        requires
            em.den == epsilon_0()@.den * mu_0()@.den,
            cc.den == c()@.den * c()@.den,
            epsilon_0()@.den == 1 && mu_0()@.den == 1 && c()@.den == 1,
    ;
    assert(em.den * cc.den == 1) by (nonlinear_arith)
        requires em.den == 1, cc.den == 1;
    let x = light_relation_product();
    assert(x.den * ipow(10, 28) * ipow(b, 1) == 10_000_000_000_000_000_000_000_000_000 * b)
        by (nonlinear_arith)
        requires
            x.den == 1,
            ipow(10, 28) == 10_000_000_000_000_000_000_000_000_000,
            ipow(b, 1) == b,
    ;
    assert(8854187817 * 4 == 35416751268int) by (nonlinear_arith);
    assert(299792458 * 299792458 == 89875517873681764int) by (nonlinear_arith);
    assert(35416751268 * 89875517873681764 == 3183098861614875278975476752int) by (nonlinear_arith);
}

/// Checks the relation `c = 1 / sqrt(epsilon_0 mu_0)` within a relative 10^-6,
/// exactly, for every value of pi in the bracket `[3.1415926535, 3.1415926536]`.
/// The library's constants pass the check.
pub fn verify_speed_of_light() -> (r: bool)
    ensures
        r == speed_of_light_relation(),
        r,
{
    proof {
        lemma_speed_of_light_relation_holds();
    }
    let x = match mul_quantity(&epsilon_0(), &mu_0()) {
        Some(em) => match mul_quantity(&c(), &c()) {
            Some(cc) => mul_quantity(&em, &cc),
            None => None,
        },
        None => None,
    };
    proof {
        lemma_light_relation_value(PI_LOWER_NUM as int, PI_BRACKET_DEN as int);
        lemma_light_relation_value(PI_UPPER_NUM as int, PI_BRACKET_DEN as int);
    }
    match x {
        Some(x) => {
            let lower = light_tolerance_at(&x, PI_LOWER_NUM, PI_BRACKET_DEN);
            let upper = light_tolerance_at(&x, PI_UPPER_NUM, PI_BRACKET_DEN);
            match (lower, upper) {
                (Some(lower), Some(upper)) => {
                    proof {
                        assert(in_pi_bracket(PI_LOWER_NUM as int, PI_BRACKET_DEN as int));
                        assert(in_pi_bracket(PI_UPPER_NUM as int, PI_BRACKET_DEN as int));
                        if lower && upper {
                            assert forall|a: int, b: int| #[trigger]
                                in_pi_bracket(a, b) implies light_relation_at(a, b) by {
                                lemma_light_relation_value(a, b);
                                lemma_bracket_ends_suffice(
                                    3183098861614875278975476752,
                                    10_000_000_000_000_000_000_000_000_000,
                                    PI_LOWER_NUM as int,
                                    PI_UPPER_NUM as int,
                                    PI_BRACKET_DEN as int,
                                    a,
                                    b,
                                );
                            }
                        }
                    }
                    lower && upper
                },
                _ => false,
            }
        },
        None => false,
    }
}


/// The relation `c = 1 / sqrt(epsilon_0 mu_0)` holds within a relative 10^-6 for
/// every value of pi in the bracket `[3.1415926535, 3.1415926536]`; so
/// [`verify_speed_of_light`] returns `true`.
pub proof fn lemma_speed_of_light_relation_holds()
    ensures
        speed_of_light_relation(),
{
    let k = 3183098861614875278975476752int;
    let m = 10_000_000_000_000_000_000_000_000_000int;
    let den = PI_BRACKET_DEN as int;
    let lo = PI_LOWER_NUM as int;
    let hi = PI_UPPER_NUM as int;
    assert(k * lo * 1_000_002_000_001 > m * den * 1_000_000_000_000) by (nonlinear_arith)
        requires
            k == 3183098861614875278975476752int,
            m == 10_000_000_000_000_000_000_000_000_000int,
            lo == 31415926535int,
            den == 10000000000int,
    ;
    assert(k * hi * 999_998_000_001 < m * den * 1_000_000_000_000) by (nonlinear_arith)
        requires
            k == 3183098861614875278975476752int,
            m == 10_000_000_000_000_000_000_000_000_000int,
            hi == 31415926536int,
            den == 10000000000int,
    ;
    assert forall|a: int, b: int| #[trigger] in_pi_bracket(a, b) implies light_relation_at(a, b) by {
        lemma_light_relation_value(a, b);
        lemma_bracket_ends_suffice(k, m, lo, hi, den, a, b);
    }
}

/// pi, as a quantity.
pub open spec fn pi_quantity() -> QuantityModel {
    QuantityModel { num: 1, den: 1, exp10: 0, pi_exp: 1 }
}

/// The number one, as a quantity.
pub open spec fn one_quantity() -> QuantityModel {
    QuantityModel { num: 1, den: 1, exp10: 0, pi_exp: 0 }
}

/// The number four, as a quantity.
pub open spec fn four_quantity() -> QuantityModel {
    QuantityModel { num: 4, den: 1, exp10: 0, pi_exp: 0 }
}

/// Coulomb's constant is `1 / (4 pi epsilon_0)`: `k * 4 * pi * epsilon_0 = 1` exactly.
pub proof fn lemma_coulomb_constant_definition()
    ensures
        same_value(
            product(product(product(k_coulomb()@, four_quantity()), pi_quantity()), epsilon_0()@),
            one_quantity(),
        ),
{
    let k = k_coulomb()@;
    let e = epsilon_0()@;
    let x = product(product(product(k, four_quantity()), pi_quantity()), e);
    assert(k.num == 1 && k.den == 35416751268 && e.num == 8854187817 && e.den == 1);
    assert(x.num == 35416751268 && x.den == 35416751268) by (nonlinear_arith)
        requires
            x.num == k.num * 4 * 1 * e.num,
            x.den == k.den * 1 * 1 * e.den,
            k.num == 1 && k.den == 35416751268 && e.num == 8854187817 && e.den == 1,
    ;
    assert(ipow(10, 0) == 1);
}

/// The characteristic impedance of free space is `mu_0 c` exactly.
pub proof fn lemma_characteristic_impedance_definition()
    ensures
        same_value(z_0()@, product(mu_0()@, c()@)),
{
    let z = z_0()@;
    let mc = product(mu_0()@, c()@);
    assert(mu_0()@.num == 4 && c()@.num == 299792458 && mu_0()@.den == 1 && c()@.den == 1);
    assert(mc.num == 1199169832 && mc.den == 1) by (nonlinear_arith)
        requires
            mc.num == mu_0()@.num * c()@.num,
            mc.den == mu_0()@.den * c()@.den,
            mu_0()@.num == 4 && c()@.num == 299792458 && mu_0()@.den == 1 && c()@.den == 1,
    ;
    assert(ipow(10, 0) == 1);
}

} // verus!
