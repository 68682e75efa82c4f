//! The records of the event log.

use crate::date::DateTime;
use vstd::prelude::*;

verus! {

/// An event as the store holds it.
#[derive(Debug, Clone, Copy, PartialEq, Eq, Structural)]
pub struct BabyEvent {
    /// The identifier that the store gave the event.
    pub id: i32,
    /// When the event happened.
    pub dt: DateTime,
    /// Whether there was urine.
    pub urine: bool,
    /// Whether there was stool.
    pub stool: bool,
    /// Minutes of skin-to-skin contact.
    pub skin2skin: i32,
    /// Minutes of breastfeeding.
    pub breastfeed: i32,
    /// Millilitres of breast milk taken.
    pub breastmilk: i32,
    /// Millilitres of formula taken.
    pub formula: i32,
    /// Millilitres pumped.
    pub pump: i32,
}

/// An event that the store has not seen yet, and so without an identifier.
#[derive(Debug, Clone, Copy, PartialEq, Eq, Structural)]
pub struct NewBabyEvent {
    /// When the event happened.
    pub dt: DateTime,
    /// Whether there was urine.
    pub urine: bool,
    /// Whether there was stool.
    pub stool: bool,
    /// Minutes of skin-to-skin contact.
    pub skin2skin: i32,
    /// Minutes of breastfeeding.
    pub breastfeed: i32,
    /// Millilitres of breast milk taken.
    pub breastmilk: i32,
    /// Millilitres of formula taken.
    pub formula: i32,
    /// Millilitres pumped.
    pub pump: i32,
}

/// The measurement that a missing amount stands for: none.
pub open spec fn amount_or_zero(amount: Option<u16>) -> int {
    match amount {
        Some(a) => a as int,
        None => 0,
    }
}

/// The flag that a missing observation stands for: not seen.
pub open spec fn flag_or_false(flag: Option<bool>) -> bool {
    match flag {
        Some(f) => f,
        None => false,
    }
}

/// The event that happened at `dt` with the given observations, each missing
/// one taken as "no" or as zero.
pub open spec fn event_at(
    dt: DateTime,
    urine: Option<bool>,
    stool: Option<bool>,
    skin2skin: Option<u16>,
    breastfeed: Option<u16>,
    breastmilk: Option<u16>,
    formula: Option<u16>,
    pump: Option<u16>,
) -> NewBabyEvent {
    NewBabyEvent {
        dt,
        urine: flag_or_false(urine),
        stool: flag_or_false(stool),
        skin2skin: amount_or_zero(skin2skin) as i32,
        breastfeed: amount_or_zero(breastfeed) as i32,
        breastmilk: amount_or_zero(breastmilk) as i32,
        formula: amount_or_zero(formula) as i32,
        pump: amount_or_zero(pump) as i32,
    }
}

fn amount(value: Option<u16>) -> (r: i32)
    ensures
        r == amount_or_zero(value),
{
    match value {
        Some(a) => a as i32,
        None => 0,
    }
}

fn flag(value: Option<bool>) -> (r: bool)
    ensures
        r == flag_or_false(value),
{
    match value {
        Some(f) => f,
        None => false,
    }
}

/// Makes the event that happened at `dt` with the given observations. A
/// missing flag counts as `false`, a missing amount as zero.
pub fn create_event_at(
    dt: DateTime,
    urine: Option<bool>,
    stool: Option<bool>,
    skin2skin: Option<u16>,
    breastfeed: Option<u16>,
    breastmilk: Option<u16>,
    formula: Option<u16>,
    pump: Option<u16>,
) -> (event: NewBabyEvent)
    ensures
        event == event_at(dt, urine, stool, skin2skin, breastfeed, breastmilk, formula, pump),
{
    NewBabyEvent {
        dt,
        urine: flag(urine),
        stool: flag(stool),
        skin2skin: amount(skin2skin),
        breastfeed: amount(breastfeed),
        breastmilk: amount(breastmilk),
        formula: amount(formula),
        pump: amount(pump),
    }
}

} // verus!
