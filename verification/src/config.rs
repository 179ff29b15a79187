use vstd::prelude::*;
use crate::ddr4::{DDR4Org, Speed};
use crate::memory::MappingType;

verus! {

/// What a simulation is built from; fixed for its lifetime.
pub struct Config {
    pub channels: usize,
    pub ranks: usize,
    pub ddr4_org: DDR4Org,
    pub ddr4_speed: Speed,
    pub mapping_type: MappingType,
}

impl Default for Config {
    /// One channel of one rank of 2Gb x4 devices at DDR4-3200, with the
    /// channel in the lowest address bits.
    fn default() -> (c: Self)
        ensures
            c.channels == 1,
            c.ranks == 1,
            c.mapping_type == MappingType::RoBaRaCoCh,
            c.ddr4_org == DDR4Org::DDR4_2Gb_x4,
            c.ddr4_speed == Speed::DDR4_3200,
    {
        Self {
            channels: 1,
            ranks: 1,
            mapping_type: MappingType::RoBaRaCoCh,
            ddr4_org: DDR4Org::DDR4_2Gb_x4,
            ddr4_speed: Speed::DDR4_3200,
        }
    }
}

} // verus!
