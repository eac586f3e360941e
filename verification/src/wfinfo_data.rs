//! The records that the price table and the equipment and relic tables are
//! made of.
//!
//! Prices are in thousandths of a platinum. Where the tables are keyed by
//! name, the entries are kept as a list of name and record, in the order in
//! which they were given.

use vstd::prelude::*;

verus! {

/// The weights of the drop chances are in units of one over this.
pub const CHANCE_SCALE: u32 = 10000;

/// One line of the price table.
#[derive(Clone, Debug)]
pub struct PriceItem {
    pub name: String,
    /// The average price, in thousandths of a platinum.
    pub custom_avg: u32,
    pub yesterday_vol: usize,
    pub today_vol: usize,
}

/// What a part is worth in ducats.
#[derive(Clone, Debug)]
pub struct DucatItem {
    pub ducats: usize,
}

/// The kind of equipment a part belongs to.
#[derive(Clone, Copy, Debug, PartialEq, Eq, Structural)]
pub enum EquipmentType {
    Warframes,
    Primary,
    Secondary,
    Melee,
    Sentinels,
    Archwing,
    ArchGun,
    Skins,
}

/// A piece of equipment and its parts, each under its name.
#[derive(Clone, Debug)]
pub struct EquipmentItem {
    pub item_type: EquipmentType,
    pub vaulted: bool,
    pub parts: Vec<(String, DucatItem)>,
}

/// The quality of a relic.
#[derive(Clone, Copy, Debug, PartialEq, Eq, Structural)]
pub enum Refinement {
    Intact,
    Exceptional,
    Flawless,
    Radiant,
}

/// A drop table: three common, two uncommon and one rare reward, each the
/// name of a catalog item.
#[derive(Clone, Debug)]
pub struct Relic {
    pub vaulted: bool,
    pub rare1: String,
    pub uncommon1: String,
    pub uncommon2: String,
    pub common1: String,
    pub common2: String,
    pub common3: String,
}

/// The relics of each era, each under its name.
#[derive(Clone, Debug)]
pub struct Relics {
    pub lith: Vec<(String, Relic)>,
    pub neo: Vec<(String, Relic)>,
    pub meso: Vec<(String, Relic)>,
    pub axi: Vec<(String, Relic)>,
}

/// The equipment table with all that comes with it.
#[derive(Clone, Debug)]
pub struct FilteredItems {
    pub errors: Vec<String>,
    pub relics: Relics,
    pub eqmt: Vec<(String, EquipmentItem)>,
    pub ignored_items: Vec<(String, DucatItem)>,
}

impl Refinement {
    /// The weight of each of the three common rewards.
    pub open spec fn spec_common_chance(self) -> int {
        match self {
            Refinement::Intact => 2533,
            Refinement::Exceptional => 2333,
            Refinement::Flawless => 2000,
            Refinement::Radiant => 1667,
        }
    }

    /// The weight of each of the two uncommon rewards.
    pub open spec fn spec_uncommon_chance(self) -> int {
        match self {
            Refinement::Intact => 1100,
            Refinement::Exceptional => 1300,
            Refinement::Flawless => 1700,
            Refinement::Radiant => 2000,
        }
    }

    /// The weight of the rare reward.
    pub open spec fn spec_rare_chance(self) -> int {
        match self {
            Refinement::Intact => 200,
            Refinement::Exceptional => 400,
            Refinement::Flawless => 600,
            Refinement::Radiant => 1000,
        }
    }

    /// The chance of each common reward, in units of one over
    /// `CHANCE_SCALE`.
    pub fn common_chance(&self) -> (chance: u32)
        ensures
            chance == self.spec_common_chance(),
    {
        match self {
            Refinement::Intact => 2533,
            Refinement::Exceptional => 2333,
            Refinement::Flawless => 2000,
            Refinement::Radiant => 1667,
        }
    }

    /// The chance of each uncommon reward, in units of one over
    /// `CHANCE_SCALE`.
    pub fn uncommon_chance(&self) -> (chance: u32)
        ensures
            chance == self.spec_uncommon_chance(),
    {
        match self {
            Refinement::Intact => 1100,
            Refinement::Exceptional => 1300,
            Refinement::Flawless => 1700,
            Refinement::Radiant => 2000,
        }
    }

    /// The chance of the rare reward, in units of one over `CHANCE_SCALE`.
    pub fn rare_chance(&self) -> (chance: u32)
        ensures
            chance == self.spec_rare_chance(),
    {
        match self {
            Refinement::Intact => 200,
            Refinement::Exceptional => 400,
            Refinement::Flawless => 600,
            Refinement::Radiant => 1000,
        }
    }
}

} // verus!
