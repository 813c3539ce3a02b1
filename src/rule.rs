use vstd::prelude::*;

verus! {

/// Tunable constants of the infection rule: the two attenuation rates and
/// the per-step severity growth.
pub struct BoardParameter {
    pub k1: u16,
    pub k2: u16,
    pub g: u8,
}

impl BoardParameter {
    /// Both rates are positive, so the divisions of the rule are defined.
    pub open spec fn valid(&self) -> bool {
        self.k1 > 0 && self.k2 > 0
    }
}

/// A neighbour that is infected but not yet fully ill.
pub open spec fn is_infected(v: u8) -> bool {
    0 < v && v < 255
}

/// A fully ill neighbour.
pub open spec fn is_illed(v: u8) -> bool {
    v == 255
}

/// How many values of `s` are infected.
pub open spec fn count_infected_in(s: Seq<u8>) -> nat
    decreases s.len(),
{
    if s.len() == 0 {
        0
    } else {
        count_infected_in(s.drop_last()) + if is_infected(s.last()) {
            1nat
        } else {
            0nat
        }
    }
}

/// How many values of `s` are fully ill.
pub open spec fn count_illed_in(s: Seq<u8>) -> nat
    decreases s.len(),
{
    if s.len() == 0 {
        0
    } else {
        count_illed_in(s.drop_last()) + if is_illed(s.last()) {
            1nat
        } else {
            0nat
        }
    }
}

/// The sum of the values of `s`.
pub open spec fn sum_of(s: Seq<u8>) -> nat
    decreases s.len(),
{
    if s.len() == 0 {
        0
    } else {
        sum_of(s.drop_last()) + s.last() as nat
    }
}

/// `n` clamped to the largest byte.
pub open spec fn saturate(n: int) -> u8 {
    if n > 255 {
        255
    } else {
        n as u8
    }
}

/// Whether the rule divides by zero for a cell of value `v` with `infected`
/// infected neighbours: an infected cell with no infected neighbour.
pub open spec fn divides_by_zero(v: u8, infected: nat) -> bool {
    0 < v < 255 && infected == 0
}

/// The next value of a cell before it is clamped to a byte, for a cell that
/// is not fully ill and whose update does not divide by zero.
/// A healthy cell takes `infected / k1 + illed / k2`; an infected one takes
/// `total / infected + g`, where `total` is the sum of its neighbours and
/// itself.
pub open spec fn raw_next(
    v: u8,
    infected: nat,
    illed: nat,
    total: nat,
    p: BoardParameter,
) -> int {
    if v == 0 {
        infected as int / p.k1 as int + illed as int / p.k2 as int
    } else {
        total as int / infected as int + p.g as int
    }
}

/// The next value of a cell of value `v`.
/// A fully ill cell recovers to 0. An infected cell with no infected
/// neighbour would divide by zero: its quotient is taken as unbounded, so it
/// saturates to 255 whatever the growth. Otherwise the raw value, clamped
/// to 255.
pub open spec fn next_cell_value(
    v: u8,
    infected: nat,
    illed: nat,
    total: nat,
    p: BoardParameter,
) -> u8 {
    if v == 255 {
        0
    } else if divides_by_zero(v, infected) {
        255
    } else {
        saturate(raw_next(v, infected, illed, total, p))
    }
}

/// The next value of a cell of value `value`, given how many of its
/// neighbours are infected and fully ill, and the sum `total` of its
/// neighbours and itself.
pub fn next_value(value: u8, infected: u8, illed: u8, total: u16, params: &BoardParameter) -> (r: u8)
    requires
        params.valid(),
    ensures
        r == next_cell_value(value, infected as nat, illed as nat, total as nat, *params),
{
    if value == 255 {
        0
    } else if value == 0 {
        let n: u32 = (infected as u16 / params.k1) as u32 + (illed as u16 / params.k2) as u32;
        if n > 255 {
            255
        } else {
            n as u8
        }
    } else if infected == 0 {
        255
    } else {
        let n: u32 = (total / infected as u16) as u32 + params.g as u32;
        if n > 255 {
            255
        } else {
            n as u8
        }
    }
}

/// A fully ill cell recovers to healthy in one step, whatever its
/// neighbours and the parameters.
pub proof fn lemma_ill_recovers(infected: nat, illed: nat, total: nat, p: BoardParameter)
    ensures
        next_cell_value(255, infected, illed, total, p) == 0,
{
}

/// Where the raw next value exceeds 255 the stored value is exactly 255, and
/// where it does not it is stored unchanged: the value never wraps.
pub proof fn lemma_saturates(v: u8, infected: nat, illed: nat, total: nat, p: BoardParameter)
    requires
        p.valid(),
        v != 255,
        !divides_by_zero(v, infected),
    ensures
        raw_next(v, infected, illed, total, p) > 255 ==> next_cell_value(
            v,
            infected,
            illed,
            total,
            p,
        ) == 255,
        0 <= raw_next(v, infected, illed, total, p) <= 255 ==> next_cell_value(
            v,
            infected,
            illed,
            total,
            p,
        ) == raw_next(v, infected, illed, total, p),
{
}

} // verus!
