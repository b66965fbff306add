//! Damage and healing, and the chance that they land.

use vstd::prelude::*;

verus! {

/// Some basic effect of an attack.
#[derive(Clone, Copy, Debug, PartialEq, Eq, Structural)]
pub enum DmgType {
    /// Heal the target by this amount.
    Heal(u32),
    /// Damage the target by this amount.
    Dmg(u32),
}

/// The signed amount a damage type stands for; heals are negative.
pub open spec fn signed_amount(d: DmgType) -> int {
    match d {
        DmgType::Heal(h) => -h,
        DmgType::Dmg(x) => x as int,
    }
}

impl DmgType {
    /// Creates a damage type from `dmg`; a negative amount is a heal.
    pub fn new(dmg: i32) -> (r: DmgType)
        ensures
            signed_amount(r) == dmg,
            dmg < 0 <==> r is Heal,
    {
        if dmg < 0 {
            let m: u32 = (-(dmg as i64)) as u32;
            DmgType::Heal(m)
        } else {
            DmgType::Dmg(dmg as u32)
        }
    }
}

/// A probability given as a ratio `num / den`, with `num <= den` and `den > 0`.
#[derive(Clone, Copy, Debug, PartialEq, Eq, Structural)]
pub struct Chance {
    pub num: u32,
    pub den: u32,
}

impl Chance {
    pub open spec fn wf(self) -> bool {
        0 < self.den && self.num <= self.den
    }

    /// The chance is one.
    pub open spec fn is_certain(self) -> bool {
        self.num == self.den
    }

    /// A chance of `num` in `den`, or `None` when that is no probability.
    pub fn new(num: u32, den: u32) -> (r: Option<Chance>)
        ensures
            r.is_some() <==> (0 < den && num <= den),
            r.is_some() ==> r.unwrap() == (Chance { num, den }),
    {
        if den > 0 && num <= den {
            Some(Chance { num, den })
        } else {
            None
        }
    }

    /// Certainty.
    pub fn certain() -> (r: Chance)
        ensures
            r.wf(),
            r.is_certain(),
    {
        Chance { num: 1, den: 1 }
    }
}

/// An instance of damage against a target.
#[derive(Clone, Copy, Debug, PartialEq, Eq, Structural)]
pub struct DmgInst {
    /// Basic effect.
    pub dmg: DmgType,
    /// Chance of hitting.
    pub acc: Chance,
}

impl DmgInst {
    /// A damage instance with the given amount and accuracy.
    pub fn dmg(dmg: u32, acc: Chance) -> (r: DmgInst)
        ensures
            r.dmg == DmgType::Dmg(dmg),
            r.acc == acc,
    {
        DmgInst { dmg: DmgType::Dmg(dmg), acc }
    }

    /// A heal that always lands.
    pub fn heal(heal: u32) -> (r: DmgInst)
        ensures
            r.dmg == DmgType::Heal(heal),
            r.acc.wf(),
            r.acc.is_certain(),
    {
        DmgInst { dmg: DmgType::Heal(heal), acc: Chance::certain() }
    }

    /// A heal with the given accuracy.
    pub fn heal_with(heal: u32, acc: Chance) -> (r: DmgInst)
        ensures
            r.dmg == DmgType::Heal(heal),
            r.acc == acc,
    {
        DmgInst { dmg: DmgType::Heal(heal), acc }
    }

    /// The amount of damage this instance deals; heals count as negative.
    pub fn total_dmg(&self) -> (r: i64)
        ensures
            r == signed_amount(self.dmg),
    {
        match self.dmg {
            DmgType::Heal(h) => -(h as i64),
            DmgType::Dmg(d) => d as i64,
        }
    }
}

/// Relies on rand::random_ratio, which is true with probability `num / den`,
/// always true when `num == den` and always false when `num == 0`; it panics
/// when `den == 0` or `num > den`, which `wf` excludes.
#[verifier::external_body]
pub(crate) fn roll(c: Chance) -> (r: bool)
    requires
        c.wf(),
    ensures
        c.num == c.den ==> r,
        c.num == 0 ==> !r,
{
    rand::random_ratio(c.num, c.den)
}

} // verus!
