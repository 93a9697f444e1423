//! What it costs to step onto a tile, and how scarce energy is against
//! material when a plan is made.

use vstd::prelude::*;
use vstd::arithmetic::div_mod::{lemma_fundamental_div_mod, lemma_fundamental_div_mod_converse};
use crate::tile::TileType;

verus! {

/// The price of stepping onto terrain `tile`: the energy spent and the change
/// in carried material. A positive change consumes material, a negative one
/// yields it. `None` means that the terrain cannot be entered.
pub open spec fn edge_cost(tile: TileType) -> Option<(int, int)> {
    match tile {
        TileType::Grass | TileType::Sand | TileType::Hill | TileType::Snow => Some((1, 1)),
        TileType::ShallowWater => Some((2, 2)),
        TileType::DeepWater => Some((6, 3)),
        TileType::Lava => Some((9, 3)),
        TileType::Mountain => Some((16, -4)),
        _ => None,
    }
}

/// Returns the price of stepping onto terrain `tile` as `(energy, material)`,
/// or `None` where the terrain cannot be entered.
pub fn get_edge_cost(tile: TileType) -> (r: Option<(isize, isize)>)
    ensures
        match r {
            Some((e, m)) => edge_cost(tile) == Some((e as int, m as int)),
            None => edge_cost(tile) is None,
        },
{
    match tile {
        TileType::Grass | TileType::Sand | TileType::Hill | TileType::Snow => Some((1, 1)),
        TileType::ShallowWater => Some((2, 2)),
        TileType::DeepWater => Some((6, 3)),
        TileType::Lava => Some((9, 3)),
        TileType::Mountain => Some((16, -4)),
        _ => None,
    }
}

/// Every terrain that can be entered costs between 1 and 16 energy and
/// changes the carried material by between -4 and 3.
pub proof fn lemma_edge_cost_bounds(tile: TileType)
    ensures
        edge_cost(tile) matches Some((e, m)) ==> 1 <= e <= 16 && -4 <= m <= 3,
{
}

/// A non-negative fraction `num / den`, kept exact. A zero denominator
/// stands for a value beyond every bound when the numerator is positive.
#[derive(Clone, Copy, Debug, PartialEq, Eq, Structural)]
pub struct Ratio {
    pub num: u128,
    pub den: u64,
}

/// The largest weight a single step can have; larger values saturate here.
pub const WEIGHT_MAX: u64 = 0xffff_ffff_ffff_ffff;

/// How scarce energy is against material: `energy / (materials / divider)`,
/// that is `energy * divider / materials`, and zero as soon as one of the two
/// budgets is zero.
pub open spec fn weight_ratio(energy: nat, materials: nat, divider: nat) -> (nat, nat) {
    if energy == 0 || materials == 0 {
        (0, 1)
    } else {
        (energy * divider, materials)
    }
}

impl Ratio {
    /// The fraction as a pair of naturals.
    pub open spec fn parts(self) -> (nat, nat) {
        (self.num as nat, self.den as nat)
    }

    /// Whether the fraction is zero.
    pub fn is_zero(&self) -> (r: bool)
        ensures
            r == (self.num == 0),
    {
        self.num == 0
    }

    /// Whether the fraction is exactly the whole number `n`.
    pub fn is_whole(&self, n: u64) -> (r: bool)
        ensures
            r == (self.den != 0 && self.num == n * self.den),
    {
        if self.den == 0 {
            return false;
        }
        let n_wide: u128 = n as u128;
        let den_wide: u128 = self.den as u128;
        assert(n_wide * den_wide <= u64::MAX * u64::MAX) by (nonlinear_arith)
            requires
                n_wide <= u64::MAX,
                den_wide <= u64::MAX,
        ;
        self.num == n_wide * den_wide
    }
}

/// Computes the scarcity of energy against material for a plan that starts
/// with `energy` and `materials` and weighs material by `divider`.
///
/// The result is zero when either budget is zero, and the exact fraction
/// `energy * divider / materials` otherwise. It is meant to be computed once,
/// from the budgets at the start of a plan: it does not follow the budgets as
/// a route spends them.
pub fn costs_relation(energy: usize, materials: usize, divider: usize) -> (r: Ratio)
    ensures
        r.parts() == weight_ratio(energy as nat, materials as nat, divider as nat),
{
    if energy == 0 || materials == 0 {
        return Ratio { num: 0, den: 1 };
    }
    let e: u128 = energy as u128;
    let d: u128 = divider as u128;
    assert(e * d <= u64::MAX * u64::MAX) by (nonlinear_arith)
        requires
            e <= u64::MAX,
            d <= u64::MAX,
    ;
    Ratio { num: e * d, den: materials as u64 }
}

/// `a / b` rounded to the nearest whole number, halves upwards, and saturated
/// at [`WEIGHT_MAX`]. Zero divided by anything is zero; a positive number
/// divided by zero saturates.
pub open spec fn rounded_quotient(a: nat, b: nat) -> nat {
    if a == 0 {
        0
    } else if b == 0 {
        WEIGHT_MAX as nat
    } else {
        let q = (2 * a + b) / (2 * b);
        if q > WEIGHT_MAX {
            WEIGHT_MAX as nat
        } else {
            q as nat
        }
    }
}

/// The energy part of a step's weight: `cost * relation`, rounded.
pub open spec fn energy_term(cost: int, relation: Ratio) -> nat {
    if cost <= 0 {
        0
    } else {
        rounded_quotient((cost * relation.num) as nat, relation.den as nat)
    }
}

/// The material part of a step's weight: `cost / relation`, rounded. A step
/// that yields material (a cost below zero) weighs nothing.
pub open spec fn material_term(cost: int, relation: Ratio) -> nat {
    if cost <= 0 {
        0
    } else {
        rounded_quotient((cost * relation.den) as nat, relation.num as nat)
    }
}

/// Rounding to nearest can be read off the truncated quotient and the
/// remainder: round up exactly when twice the remainder reaches the divisor.
proof fn lemma_round_from_remainder(a: int, b: int)
    requires
        0 <= a,
        0 < b,
    ensures
        (2 * a + b) / (2 * b) == a / b + if 2 * (a % b) >= b { 1int } else { 0int },
{
    let q = a / b;
    let rem = a % b;
    lemma_fundamental_div_mod(a, b);
    if 2 * rem >= b {
        assert(2 * a + b == (q + 1) * (2 * b) + (2 * rem - b)) by (nonlinear_arith)
            requires
                a == b * q + rem,
        ;
        lemma_fundamental_div_mod_converse(2 * a + b, 2 * b, q + 1, 2 * rem - b);
    } else {
        assert(2 * a + b == q * (2 * b) + (2 * rem + b)) by (nonlinear_arith)
            requires
                a == b * q + rem,
        ;
        lemma_fundamental_div_mod_converse(2 * a + b, 2 * b, q, 2 * rem + b);
    }
}

/// A dividend of at least `2^128` over a divisor below `2^64` saturates.
proof fn lemma_huge_dividend_saturates(a: nat, b: nat)
    requires
        a >= 0x1_0000_0000_0000_0000_0000_0000_0000_0000,
        b <= 0xffff_ffff_ffff_ffff,
    ensures
        rounded_quotient(a, b) == WEIGHT_MAX,
{
    if b != 0 {
        let x = 2 * a + b;
        let d = 2 * b;
        lemma_fundamental_div_mod(x as int, d as int);
        vstd::arithmetic::div_mod::lemma_mod_bound(x as int, d as int);
        let q = x as int / d as int;
        assert(q > 0xffff_ffff_ffff_ffff) by (nonlinear_arith)
            requires
                x == d * q + (x as int % d as int),
                0 <= (x as int % d as int) < d,
                x >= 0x2_0000_0000_0000_0000_0000_0000_0000_0000,
                0 < d <= 0x1_ffff_ffff_ffff_fffe,
        ;
    }
}

/// Divides `a` by `b`, rounds to nearest with halves upwards and saturates.
pub fn round_div(a: u128, b: u128) -> (r: u64)
    ensures
        r == rounded_quotient(a as nat, b as nat),
{
    if a == 0 {
        return 0;
    }
    if b == 0 {
        return WEIGHT_MAX;
    }
    let q: u128 = a / b;
    let rem: u128 = a % b;
    proof {
        lemma_round_from_remainder(a as int, b as int);
    }
    let up: bool = rem >= b - rem;
    if q >= WEIGHT_MAX as u128 {
        WEIGHT_MAX
    } else if up {
        (q + 1) as u64
    } else {
        q as u64
    }
}

/// Computes the energy part of the weight of a step that costs `cost`
/// energy.
pub fn energy_weight(cost: isize, relation: &Ratio) -> (r: u64)
    ensures
        r == energy_term(cost as int, *relation),
{
    if cost <= 0 {
        return 0;
    }
    let c: u128 = cost as u128;
    match c.checked_mul(relation.num) {
        Some(a) => round_div(a, relation.den as u128),
        None => {
            proof {
                lemma_huge_dividend_saturates((cost * relation.num) as nat, relation.den as nat);
            }
            WEIGHT_MAX
        },
    }
}

/// Computes the material part of the weight of a step that changes the
/// carried material by `cost`.
pub fn material_weight(cost: isize, relation: &Ratio) -> (r: u64)
    ensures
        r == material_term(cost as int, *relation),
{
    if cost <= 0 {
        return 0;
    }
    let c: u128 = cost as u128;
    let d: u128 = relation.den as u128;
    assert(c * d <= u64::MAX * u64::MAX) by (nonlinear_arith)
        requires
            c <= u64::MAX,
            d <= u64::MAX,
    ;
    round_div(c * d, relation.num)
}

} // verus!
