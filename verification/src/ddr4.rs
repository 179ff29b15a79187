use vstd::prelude::*;
use vstd::arithmetic::logarithm::log;
use vstd::arithmetic::power2::pow2;
use crate::command::{Command, COMMAND_COUNT};
use crate::config::Config;
use crate::dram::{Dram, DramSpec, State, TimeEntry};
use crate::memory::{Level, LEVEL_COUNT};
use crate::request::ReqType;

verus! {

/// The largest delay, in cycles, that a table built from a well-formed
/// `SpeedEntry` holds: four parameters of at most `0xFFFF` and a constant.
pub const DDR4_MAX_DELAY: u64 = 0x4_0000;

/// The floor of the binary logarithm, with `log2(0) == 0`.
pub fn log2(x: usize) -> (r: usize)
    ensures
        r == log(2, x as int),
        x >= 1 ==> pow2(r as nat) <= x < 2 * pow2(r as nat),
        r < usize::BITS,
{
    let ghost x0 = x;
    let mut x = x;
    let mut i: usize = 0;
    proof {
        vstd::arithmetic::power2::lemma2_to64();
    }
    while x > 1
        invariant
            log(2, x0 as int) == i + log(2, x as int),
            x0 >= 1 ==> x >= 1,
            x0 >= 1 ==> x * pow2(i as nat) <= x0,
            x0 >= 1 ==> x0 < (x + 1) * pow2(i as nat),
            x0 == 0 ==> x == 0,
            i < usize::BITS,
        decreases x,
    {
        let ghost p = pow2(i as nat) as int;
        let ghost xi = x as int;
        proof {
            vstd::arithmetic::logarithm::lemma_log_s(2, x as int);
            vstd::arithmetic::power2::lemma_pow2_unfold((i + 1) as nat);
            vstd::arithmetic::power2::lemma_pow2_pos(i as nat);
            vstd::arithmetic::power2::lemma2_to64();
            vstd::arithmetic::power2::lemma2_to64_rest();
            assert(x >> 1usize == x / 2) by (bit_vector);
            assert(2 * p <= x0) by (nonlinear_arith)
                requires
                    xi * p <= x0,
                    xi >= 2,
                    p >= 1,
            ;
            if i + 1 >= usize::BITS {
                vstd::arithmetic::power2::lemma_pow2_strictly_increases(
                    usize::BITS as nat,
                    (i + 1) as nat,
                );
            }
        }
        x = x >> 1;
        i += 1;
        proof {
            let h = x as int;
            assert(h * (2 * p) <= x0) by (nonlinear_arith)
                requires
                    xi * p <= x0,
                    2 * h <= xi,
                    p >= 1,
            ;
            assert(x0 < (h + 1) * (2 * p)) by (nonlinear_arith)
                requires
                    x0 < (xi + 1) * p,
                    xi + 1 <= 2 * h + 2,
                    p >= 1,
            ;
        }
    }
    proof {
        vstd::arithmetic::logarithm::lemma_log0(2, x as int);
    }
    i
}

/// Density and data width of one device.
#[allow(non_camel_case_types)]
#[derive(Debug, Clone, Copy, PartialEq, Eq, Structural)]
pub enum DDR4Org {
    DDR4_2Gb_x4,
    DDR4_2Gb_x8,
    DDR4_2Gb_x16,
    DDR4_4Gb_x4,
    DDR4_4Gb_x8,
    DDR4_4Gb_x16,
    DDR4_8Gb_x4,
    DDR4_8Gb_x8,
    DDR4_8Gb_x16,
    /// End marker; names no organization.
    MAX,
}

impl DDR4Org {
    /// Bank groups per rank.
    pub open spec fn bank_groups(self) -> usize {
        match self {
            DDR4Org::DDR4_2Gb_x16 | DDR4Org::DDR4_4Gb_x16 | DDR4Org::DDR4_8Gb_x16 => 2,
            _ => 4,
        }
    }

    /// Rows per bank.
    pub open spec fn rows(self) -> usize {
        match self {
            DDR4Org::DDR4_2Gb_x8 | DDR4Org::DDR4_2Gb_x16 => 0x4000,
            DDR4Org::DDR4_2Gb_x4 | DDR4Org::DDR4_4Gb_x8 | DDR4Org::DDR4_4Gb_x16 => 0x8000,
            DDR4Org::DDR4_4Gb_x4 | DDR4Org::DDR4_8Gb_x8 | DDR4Org::DDR4_8Gb_x16 => 0x1_0000,
            DDR4Org::DDR4_8Gb_x4 => 0x2_0000,
            DDR4Org::MAX => 0,
        }
    }

    /// The number of instances at each level, by level position: channels,
    /// ranks per channel, bank groups per rank, four banks per group, rows
    /// per bank, 1024 columns per row.
    pub open spec fn counts(self, channels: usize, ranks: usize) -> Seq<usize> {
        seq![channels, ranks, self.bank_groups(), 4, self.rows(), 0x400]
    }
}

/// Speed grade of the device.
#[allow(non_camel_case_types)]
#[derive(Debug, Clone, Copy, PartialEq, Eq, Structural)]
pub enum Speed {
    DDR4_1600K,
    DDR4_1600L,
    DDR4_1866M,
    DDR4_1866N,
    DDR4_2133P,
    DDR4_2133R,
    DDR4_2400R,
    DDR4_2400U,
    DDR4_3200,
}

/// The timing parameters of one speed grade, in cycles; `rate` is the data
/// rate in MT/s.
#[allow(non_snake_case)]
#[derive(Debug, Clone, Copy)]
pub struct SpeedEntry {
    pub rate: u64,
    pub nBL: u64,
    pub nCCDS: u64,
    pub nCCDL: u64,
    pub nRTRS: u64,
    pub nCL: u64,
    pub nRCD: u64,
    pub nRP: u64,
    pub nCWL: u64,
    pub nRAS: u64,
    pub nRC: u64,
    pub nRTP: u64,
    pub nWTRS: u64,
    pub nWTRL: u64,
    pub nWR: u64,
    pub nRRDS: u64,
    pub nRRDL: u64,
    pub nFAW: u64,
    pub nRFC: u64,
    pub nREFI: u64,
    pub nPD: u64,
    pub nXP: u64,
    pub nXPDLL: u64,
    pub nCKESR: u64,
    pub nXS: u64,
    pub nXSDLL: u64,
}

impl SpeedEntry {
    /// The parameters that the constraint table reads are small, and the
    /// three differences that it takes are not negative.
    pub open spec fn wf(self) -> bool {
        &&& self.nBL <= 0xFFFF
        &&& self.nCCDS <= 0xFFFF
        &&& self.nCCDL <= 0xFFFF
        &&& self.nRTRS <= 0xFFFF
        &&& self.nCL <= 0xFFFF
        &&& self.nRCD <= 0xFFFF
        &&& self.nRP <= 0xFFFF
        &&& self.nCWL <= 0xFFFF
        &&& self.nRAS <= 0xFFFF
        &&& self.nRC <= 0xFFFF
        &&& self.nRTP <= 0xFFFF
        &&& self.nWTRS <= 0xFFFF
        &&& self.nWTRL <= 0xFFFF
        &&& self.nWR <= 0xFFFF
        &&& self.nRRDS <= 0xFFFF
        &&& self.nRRDL <= 0xFFFF
        &&& self.nFAW <= 0xFFFF
        &&& self.nRFC <= 0xFFFF
        &&& self.nPD <= 0xFFFF
        &&& self.nXP <= 0xFFFF
        &&& self.nCKESR <= 0xFFFF
        &&& self.nXS <= 0xFFFF
        &&& self.nCL + self.nBL + 2 >= self.nCWL
        &&& self.nCL + self.nBL + self.nRTRS >= self.nCWL
        &&& self.nCWL + self.nBL + self.nRTRS >= self.nCL
    }
}

impl Speed {
    /// The timing parameters of the speed grade.
    pub open spec fn entry(self) -> SpeedEntry {
        match self {
            Speed::DDR4_1600K => SpeedEntry {
                rate: 1600, nBL: 4, nCCDS: 4, nCCDL: 5, nRTRS: 2, nCL: 11, nRCD: 11,
                nRP: 11, nCWL: 9, nRAS: 28, nRC: 39, nRTP: 6, nWTRS: 2, nWTRL: 6, nWR: 12,
                nRRDS: 0, nRRDL: 0, nFAW: 0, nRFC: 0, nREFI: 0, nPD: 4, nXP: 5, nXPDLL: 0,
                nCKESR: 5, nXS: 0, nXSDLL: 0,
            },
            Speed::DDR4_1600L => SpeedEntry {
                rate: 1600, nBL: 4, nCCDS: 4, nCCDL: 5, nRTRS: 2, nCL: 12, nRCD: 12,
                nRP: 12, nCWL: 9, nRAS: 28, nRC: 40, nRTP: 6, nWTRS: 2, nWTRL: 6, nWR: 12,
                nRRDS: 0, nRRDL: 0, nFAW: 0, nRFC: 0, nREFI: 0, nPD: 4, nXP: 5, nXPDLL: 0,
                nCKESR: 5, nXS: 0, nXSDLL: 0,
            },
            Speed::DDR4_1866M => SpeedEntry {
                rate: 1866, nBL: 4, nCCDS: 4, nCCDL: 5, nRTRS: 2, nCL: 13, nRCD: 13,
                nRP: 13, nCWL: 10, nRAS: 32, nRC: 45, nRTP: 7, nWTRS: 3, nWTRL: 7, nWR: 14,
                nRRDS: 0, nRRDL: 0, nFAW: 0, nRFC: 0, nREFI: 0, nPD: 5, nXP: 6, nXPDLL: 0,
                nCKESR: 6, nXS: 0, nXSDLL: 0,
            },
            Speed::DDR4_1866N => SpeedEntry {
                rate: 1866, nBL: 4, nCCDS: 4, nCCDL: 5, nRTRS: 2, nCL: 14, nRCD: 14,
                nRP: 14, nCWL: 10, nRAS: 32, nRC: 46, nRTP: 7, nWTRS: 3, nWTRL: 7, nWR: 14,
                nRRDS: 0, nRRDL: 0, nFAW: 0, nRFC: 0, nREFI: 0, nPD: 5, nXP: 6, nXPDLL: 0,
                nCKESR: 6, nXS: 0, nXSDLL: 0,
            },
            Speed::DDR4_2133P => SpeedEntry {
                rate: 2133, nBL: 4, nCCDS: 4, nCCDL: 6, nRTRS: 2, nCL: 15, nRCD: 15,
                nRP: 15, nCWL: 11, nRAS: 36, nRC: 51, nRTP: 8, nWTRS: 3, nWTRL: 8, nWR: 16,
                nRRDS: 0, nRRDL: 0, nFAW: 0, nRFC: 0, nREFI: 0, nPD: 6, nXP: 7, nXPDLL: 0,
                nCKESR: 7, nXS: 0, nXSDLL: 0,
            },
            Speed::DDR4_2133R => SpeedEntry {
                rate: 2133, nBL: 4, nCCDS: 4, nCCDL: 6, nRTRS: 2, nCL: 16, nRCD: 16,
                nRP: 16, nCWL: 11, nRAS: 36, nRC: 52, nRTP: 8, nWTRS: 3, nWTRL: 8, nWR: 16,
                nRRDS: 0, nRRDL: 0, nFAW: 0, nRFC: 0, nREFI: 0, nPD: 6, nXP: 7, nXPDLL: 0,
                nCKESR: 7, nXS: 0, nXSDLL: 0,
            },
            Speed::DDR4_2400R => SpeedEntry {
                rate: 2400, nBL: 4, nCCDS: 4, nCCDL: 6, nRTRS: 2, nCL: 16, nRCD: 16,
                nRP: 16, nCWL: 12, nRAS: 39, nRC: 55, nRTP: 9, nWTRS: 3, nWTRL: 9, nWR: 18,
                nRRDS: 0, nRRDL: 0, nFAW: 0, nRFC: 0, nREFI: 0, nPD: 6, nXP: 8, nXPDLL: 0,
                nCKESR: 7, nXS: 0, nXSDLL: 0,
            },
            Speed::DDR4_2400U => SpeedEntry {
                rate: 2400, nBL: 4, nCCDS: 4, nCCDL: 6, nRTRS: 2, nCL: 18, nRCD: 18,
                nRP: 18, nCWL: 12, nRAS: 39, nRC: 57, nRTP: 9, nWTRS: 3, nWTRL: 9, nWR: 18,
                nRRDS: 0, nRRDL: 0, nFAW: 0, nRFC: 0, nREFI: 0, nPD: 6, nXP: 8, nXPDLL: 0,
                nCKESR: 7, nXS: 0, nXSDLL: 0,
            },
            Speed::DDR4_3200 => SpeedEntry {
                rate: 3200, nBL: 4, nCCDS: 4, nCCDL: 10, nRTRS: 2, nCL: 22, nRCD: 22,
                nRP: 22, nCWL: 16, nRAS: 56, nRC: 78, nRTP: 12, nWTRS: 4, nWTRL: 12,
                nWR: 24, nRRDS: 8, nRRDL: 10, nFAW: 40, nRFC: 0, nREFI: 0, nPD: 8, nXP: 10,
                nXPDLL: 0, nCKESR: 8, nXS: 0, nXSDLL: 0,
            },
        }
    }
}

/// A table entry with its delay given as a mathematical integer.
pub open spec fn entry(cmd: Command, dist: usize, val: int, sibling: bool) -> TimeEntry {
    TimeEntry { cmd, dist, val: val as u64, sibling }
}

/// The DDR4 technology: the organization of the device and the constraint
/// table of its speed grade.
pub struct DDR4 {
    child_size: Vec<usize>,
    addr_bits: Vec<usize>,
    timing: Vec<Vec<Vec<TimeEntry>>>,
    read_latency: u64,
}

impl DDR4 {
    /// The constraints that a command issued at a channel puts on later
    /// commands there, in table order.
    pub open spec fn channel_timing(s: SpeedEntry, cmd: Command) -> Seq<TimeEntry> {
        match cmd {
            Command::RD | Command::RDA => seq![
                entry(Command::RD, 1, s.nBL as int, false),
                entry(Command::RDA, 1, s.nBL as int, false),
            ],
            Command::WR | Command::WRA => seq![
                entry(Command::WR, 1, s.nBL as int, false),
                entry(Command::WRA, 1, s.nBL as int, false),
            ],
            _ => seq![],
        }
    }

    /// The constraints that a command issued at a rank puts on later
    /// commands there, in table order.
    pub open spec fn rank_timing(s: SpeedEntry, cmd: Command) -> Seq<TimeEntry> {
        let rd_to_wr = s.nCL + s.nBL + 2 - s.nCWL;
        let rd_to_wr_far = s.nCL + s.nBL + s.nRTRS - s.nCWL;
        let wr_to_rd_far = s.nCWL + s.nBL + s.nRTRS - s.nCL;
        match cmd {
            Command::ACT => seq![
                entry(Command::ACT, 1, s.nRRDS as int, false),
                entry(Command::ACT, 4, s.nFAW as int, false),
                entry(Command::PREA, 1, s.nRAS as int, false),
                entry(Command::REF, 1, s.nRC as int, false),
                entry(Command::PDE, 1, 1, false),
            ],
            Command::PRE => seq![
                entry(Command::REF, 1, s.nRP as int, false),
                entry(Command::SRE, 1, s.nRP as int, false),
            ],
            Command::PREA => seq![
                entry(Command::ACT, 1, s.nRP as int, false),
                entry(Command::REF, 1, s.nRP as int, false),
                entry(Command::SRE, 1, s.nRP as int, false),
            ],
            Command::RD => seq![
                entry(Command::RD, 1, s.nCCDS as int, false),
                entry(Command::RDA, 1, s.nCCDS as int, false),
                entry(Command::WR, 1, rd_to_wr, false),
                entry(Command::WRA, 1, rd_to_wr, false),
                entry(Command::RD, 1, s.nBL + s.nRTRS, true),
                entry(Command::RDA, 1, s.nBL + s.nRTRS, true),
                entry(Command::WR, 1, s.nBL + s.nRTRS, true),
                entry(Command::WRA, 1, s.nBL + s.nRTRS, true),
                entry(Command::WR, 1, rd_to_wr_far, true),
                entry(Command::WRA, 1, rd_to_wr_far, true),
                entry(Command::PREA, 1, s.nRTP as int, false),
                entry(Command::PDE, 1, s.nCL + s.nBL + 1, false),
            ],
            Command::WR => seq![
                entry(Command::WR, 1, s.nCCDS as int, false),
                entry(Command::WRA, 1, s.nCCDS as int, false),
                entry(Command::RD, 1, s.nCWL + s.nBL + s.nWTRS, false),
                entry(Command::RDA, 1, s.nCWL + s.nBL + s.nWTRS, false),
                entry(Command::RD, 1, wr_to_rd_far, true),
                entry(Command::RDA, 1, wr_to_rd_far, true),
                entry(Command::PREA, 1, s.nCWL + s.nBL + s.nWR, false),
                entry(Command::PDE, 1, s.nCWL + s.nBL + s.nWR, false),
            ],
            Command::RDA => seq![
                entry(Command::RD, 1, s.nCCDS as int, false),
                entry(Command::RDA, 1, s.nCCDS as int, false),
                entry(Command::WR, 1, rd_to_wr, false),
                entry(Command::WRA, 1, rd_to_wr, false),
                entry(Command::RD, 1, s.nBL + s.nRTRS, true),
                entry(Command::RDA, 1, s.nBL + s.nRTRS, true),
                entry(Command::WR, 1, s.nBL + s.nRTRS, true),
                entry(Command::WRA, 1, s.nBL + s.nRTRS, true),
                entry(Command::WR, 1, rd_to_wr_far, true),
                entry(Command::WRA, 1, rd_to_wr_far, true),
                entry(Command::PDE, 1, s.nCL + s.nBL + 1, false),
                entry(Command::REF, 1, s.nRTP + s.nRP, false),
            ],
            Command::WRA => seq![
                entry(Command::WR, 1, s.nCCDS as int, false),
                entry(Command::WRA, 1, s.nCCDS as int, false),
                entry(Command::RD, 1, s.nCWL + s.nBL + s.nWTRS, false),
                entry(Command::RDA, 1, s.nCWL + s.nBL + s.nWTRS, false),
                entry(Command::RD, 1, wr_to_rd_far, true),
                entry(Command::RDA, 1, wr_to_rd_far, true),
                entry(Command::PDE, 1, s.nCWL + s.nBL + s.nWR + 1, false),
                entry(Command::REF, 1, s.nCWL + s.nBL + s.nWR + s.nRP, false),
            ],
            Command::REF => seq![
                entry(Command::ACT, 1, s.nRFC as int, false),
                entry(Command::REF, 1, s.nRFC as int, false),
                entry(Command::PDE, 1, 1, false),
            ],
            Command::PDE => seq![
                entry(Command::PDX, 1, s.nPD as int, false),
            ],
            Command::PDX => seq![
                entry(Command::RD, 1, s.nXP as int, false),
                entry(Command::RDA, 1, s.nXP as int, false),
                entry(Command::WR, 1, s.nXP as int, false),
                entry(Command::WRA, 1, s.nXP as int, false),
                entry(Command::ACT, 1, s.nXP as int, false),
                entry(Command::PRE, 1, s.nXP as int, false),
                entry(Command::PREA, 1, s.nXP as int, false),
                entry(Command::REF, 1, s.nXP as int, false),
                entry(Command::PDE, 1, s.nXP as int, false),
                entry(Command::SRE, 1, s.nXP as int, false),
            ],
            Command::SRE => seq![
                entry(Command::SRX, 1, s.nCKESR as int, false),
            ],
            Command::SRX => seq![
                entry(Command::ACT, 1, s.nXS as int, false),
                entry(Command::REF, 1, s.nXS as int, false),
                entry(Command::PDE, 1, s.nXS as int, false),
                entry(Command::SRE, 1, s.nXS as int, false),
            ],
            _ => seq![],
        }
    }

    /// The constraints that a command issued at a bank group puts on later
    /// commands there, in table order.
    pub open spec fn bank_group_timing(s: SpeedEntry, cmd: Command) -> Seq<TimeEntry> {
        match cmd {
            Command::ACT => seq![
                entry(Command::ACT, 1, s.nRRDL as int, false),
            ],
            Command::RD | Command::RDA => seq![
                entry(Command::RD, 1, s.nCCDL as int, false),
                entry(Command::RDA, 1, s.nCCDL as int, false),
            ],
            Command::WR | Command::WRA => seq![
                entry(Command::WR, 1, s.nCCDL as int, false),
                entry(Command::WRA, 1, s.nCCDL as int, false),
                entry(Command::RD, 1, s.nCWL + s.nBL + s.nWTRL, false),
                entry(Command::RDA, 1, s.nCWL + s.nBL + s.nWTRL, false),
            ],
            _ => seq![],
        }
    }

    /// The constraints that a command issued at a bank puts on later
    /// commands there, in table order.
    pub open spec fn bank_timing(s: SpeedEntry, cmd: Command) -> Seq<TimeEntry> {
        match cmd {
            Command::ACT => seq![
                entry(Command::RD, 1, s.nRCD as int, false),
                entry(Command::RDA, 1, s.nRCD as int, false),
                entry(Command::WR, 1, s.nRCD as int, false),
                entry(Command::WRA, 1, s.nRCD as int, false),
                entry(Command::ACT, 1, s.nRC as int, false),
                entry(Command::PRE, 1, s.nRAS as int, false),
            ],
            Command::PRE => seq![
                entry(Command::ACT, 1, s.nRP as int, false),
            ],
            Command::RD => seq![
                entry(Command::PRE, 1, s.nRTP as int, false),
            ],
            Command::WR => seq![
                entry(Command::PRE, 1, s.nCWL + s.nBL + s.nWR, false),
            ],
            Command::RDA => seq![
                entry(Command::ACT, 1, s.nRTP + s.nRP, false),
            ],
            Command::WRA => seq![
                entry(Command::ACT, 1, s.nCWL + s.nBL + s.nWR + s.nRP, false),
            ],
            _ => seq![],
        }
    }

    /// The constraint table: the entries of `(level, cmd)`, in table order.
    /// Rows and columns are not nodes and have no entries.
    pub open spec fn timing_of(s: SpeedEntry, level: Level, cmd: Command) -> Seq<TimeEntry> {
        match level {
            Level::Channel => Self::channel_timing(s, cmd),
            Level::Rank => Self::rank_timing(s, cmd),
            Level::BankGroup => Self::bank_group_timing(s, cmd),
            Level::Bank => Self::bank_timing(s, cmd),
            _ => seq![],
        }
    }

    /// The timing parameters of a speed grade.
    pub fn get_speed(speed: &Speed) -> (s: SpeedEntry)
        ensures
            s == speed.entry(),
            s.wf(),
    {
        match speed {
            Speed::DDR4_1600K => SpeedEntry {
                rate: 1600, nBL: 4, nCCDS: 4, nCCDL: 5, nRTRS: 2, nCL: 11, nRCD: 11,
                nRP: 11, nCWL: 9, nRAS: 28, nRC: 39, nRTP: 6, nWTRS: 2, nWTRL: 6, nWR: 12,
                nRRDS: 0, nRRDL: 0, nFAW: 0, nRFC: 0, nREFI: 0, nPD: 4, nXP: 5, nXPDLL: 0,
                nCKESR: 5, nXS: 0, nXSDLL: 0,
            },
            Speed::DDR4_1600L => SpeedEntry {
                rate: 1600, nBL: 4, nCCDS: 4, nCCDL: 5, nRTRS: 2, nCL: 12, nRCD: 12,
                nRP: 12, nCWL: 9, nRAS: 28, nRC: 40, nRTP: 6, nWTRS: 2, nWTRL: 6, nWR: 12,
                nRRDS: 0, nRRDL: 0, nFAW: 0, nRFC: 0, nREFI: 0, nPD: 4, nXP: 5, nXPDLL: 0,
                nCKESR: 5, nXS: 0, nXSDLL: 0,
            },
            Speed::DDR4_1866M => SpeedEntry {
                rate: 1866, nBL: 4, nCCDS: 4, nCCDL: 5, nRTRS: 2, nCL: 13, nRCD: 13,
                nRP: 13, nCWL: 10, nRAS: 32, nRC: 45, nRTP: 7, nWTRS: 3, nWTRL: 7, nWR: 14,
                nRRDS: 0, nRRDL: 0, nFAW: 0, nRFC: 0, nREFI: 0, nPD: 5, nXP: 6, nXPDLL: 0,
                nCKESR: 6, nXS: 0, nXSDLL: 0,
            },
            Speed::DDR4_1866N => SpeedEntry {
                rate: 1866, nBL: 4, nCCDS: 4, nCCDL: 5, nRTRS: 2, nCL: 14, nRCD: 14,
                nRP: 14, nCWL: 10, nRAS: 32, nRC: 46, nRTP: 7, nWTRS: 3, nWTRL: 7, nWR: 14,
                nRRDS: 0, nRRDL: 0, nFAW: 0, nRFC: 0, nREFI: 0, nPD: 5, nXP: 6, nXPDLL: 0,
                nCKESR: 6, nXS: 0, nXSDLL: 0,
            },
            Speed::DDR4_2133P => SpeedEntry {
                rate: 2133, nBL: 4, nCCDS: 4, nCCDL: 6, nRTRS: 2, nCL: 15, nRCD: 15,
                nRP: 15, nCWL: 11, nRAS: 36, nRC: 51, nRTP: 8, nWTRS: 3, nWTRL: 8, nWR: 16,
                nRRDS: 0, nRRDL: 0, nFAW: 0, nRFC: 0, nREFI: 0, nPD: 6, nXP: 7, nXPDLL: 0,
                nCKESR: 7, nXS: 0, nXSDLL: 0,
            },
            Speed::DDR4_2133R => SpeedEntry {
                rate: 2133, nBL: 4, nCCDS: 4, nCCDL: 6, nRTRS: 2, nCL: 16, nRCD: 16,
                nRP: 16, nCWL: 11, nRAS: 36, nRC: 52, nRTP: 8, nWTRS: 3, nWTRL: 8, nWR: 16,
                nRRDS: 0, nRRDL: 0, nFAW: 0, nRFC: 0, nREFI: 0, nPD: 6, nXP: 7, nXPDLL: 0,
                nCKESR: 7, nXS: 0, nXSDLL: 0,
            },
            Speed::DDR4_2400R => SpeedEntry {
                rate: 2400, nBL: 4, nCCDS: 4, nCCDL: 6, nRTRS: 2, nCL: 16, nRCD: 16,
                nRP: 16, nCWL: 12, nRAS: 39, nRC: 55, nRTP: 9, nWTRS: 3, nWTRL: 9, nWR: 18,
                nRRDS: 0, nRRDL: 0, nFAW: 0, nRFC: 0, nREFI: 0, nPD: 6, nXP: 8, nXPDLL: 0,
                nCKESR: 7, nXS: 0, nXSDLL: 0,
            },
            Speed::DDR4_2400U => SpeedEntry {
                rate: 2400, nBL: 4, nCCDS: 4, nCCDL: 6, nRTRS: 2, nCL: 18, nRCD: 18,
                nRP: 18, nCWL: 12, nRAS: 39, nRC: 57, nRTP: 9, nWTRS: 3, nWTRL: 9, nWR: 18,
                nRRDS: 0, nRRDL: 0, nFAW: 0, nRFC: 0, nREFI: 0, nPD: 6, nXP: 8, nXPDLL: 0,
                nCKESR: 7, nXS: 0, nXSDLL: 0,
            },
            Speed::DDR4_3200 => SpeedEntry {
                rate: 3200, nBL: 4, nCCDS: 4, nCCDL: 10, nRTRS: 2, nCL: 22, nRCD: 22,
                nRP: 22, nCWL: 16, nRAS: 56, nRC: 78, nRTP: 12, nWTRS: 4, nWTRL: 12,
                nWR: 24, nRRDS: 8, nRRDL: 10, nFAW: 40, nRFC: 0, nREFI: 0, nPD: 8, nXP: 10,
                nXPDLL: 0, nCKESR: 8, nXS: 0, nXSDLL: 0,
            },
        }
    }

    /// The entries of `cmd` at a channel.
    fn channel_row(s: &SpeedEntry, cmd: &Command) -> (row: Vec<TimeEntry>)
        requires
            s.wf(),
        ensures
            row@ == Self::channel_timing(*s, *cmd),
    {
        match cmd {
            Command::RD | Command::RDA => vec![
                TimeEntry::new(Command::RD, 1, s.nBL, false),
                TimeEntry::new(Command::RDA, 1, s.nBL, false),
            ],
            Command::WR | Command::WRA => vec![
                TimeEntry::new(Command::WR, 1, s.nBL, false),
                TimeEntry::new(Command::WRA, 1, s.nBL, false),
            ],
            _ => Vec::new(),
        }
    }

    /// The entries of `cmd` at a rank.
    fn rank_row(s: &SpeedEntry, cmd: &Command) -> (row: Vec<TimeEntry>)
        requires
            s.wf(),
        ensures
            row@ == Self::rank_timing(*s, *cmd),
    {
        let rd_to_wr: u64 = s.nCL + s.nBL + 2 - s.nCWL;
        let rd_to_wr_far: u64 = s.nCL + s.nBL + s.nRTRS - s.nCWL;
        let wr_to_rd_far: u64 = s.nCWL + s.nBL + s.nRTRS - s.nCL;
        match cmd {
            Command::ACT => vec![
                TimeEntry::new(Command::ACT, 1, s.nRRDS, false),
                TimeEntry::new(Command::ACT, 4, s.nFAW, false),
                TimeEntry::new(Command::PREA, 1, s.nRAS, false),
                TimeEntry::new(Command::REF, 1, s.nRC, false),
                TimeEntry::new(Command::PDE, 1, 1, false),
            ],
            Command::PRE => vec![
                TimeEntry::new(Command::REF, 1, s.nRP, false),
                TimeEntry::new(Command::SRE, 1, s.nRP, false),
            ],
            Command::PREA => vec![
                TimeEntry::new(Command::ACT, 1, s.nRP, false),
                TimeEntry::new(Command::REF, 1, s.nRP, false),
                TimeEntry::new(Command::SRE, 1, s.nRP, false),
            ],
            Command::RD => vec![
                TimeEntry::new(Command::RD, 1, s.nCCDS, false),
                TimeEntry::new(Command::RDA, 1, s.nCCDS, false),
                TimeEntry::new(Command::WR, 1, rd_to_wr, false),
                TimeEntry::new(Command::WRA, 1, rd_to_wr, false),
                TimeEntry::new(Command::RD, 1, s.nBL + s.nRTRS, true),
                TimeEntry::new(Command::RDA, 1, s.nBL + s.nRTRS, true),
                TimeEntry::new(Command::WR, 1, s.nBL + s.nRTRS, true),
                TimeEntry::new(Command::WRA, 1, s.nBL + s.nRTRS, true),
                TimeEntry::new(Command::WR, 1, rd_to_wr_far, true),
                TimeEntry::new(Command::WRA, 1, rd_to_wr_far, true),
                TimeEntry::new(Command::PREA, 1, s.nRTP, false),
                TimeEntry::new(Command::PDE, 1, s.nCL + s.nBL + 1, false),
            ],
            Command::WR => vec![
                TimeEntry::new(Command::WR, 1, s.nCCDS, false),
                TimeEntry::new(Command::WRA, 1, s.nCCDS, false),
                TimeEntry::new(Command::RD, 1, s.nCWL + s.nBL + s.nWTRS, false),
                TimeEntry::new(Command::RDA, 1, s.nCWL + s.nBL + s.nWTRS, false),
                TimeEntry::new(Command::RD, 1, wr_to_rd_far, true),
                TimeEntry::new(Command::RDA, 1, wr_to_rd_far, true),
                TimeEntry::new(Command::PREA, 1, s.nCWL + s.nBL + s.nWR, false),
                TimeEntry::new(Command::PDE, 1, s.nCWL + s.nBL + s.nWR, false),
            ],
            Command::RDA => vec![
                TimeEntry::new(Command::RD, 1, s.nCCDS, false),
                TimeEntry::new(Command::RDA, 1, s.nCCDS, false),
                TimeEntry::new(Command::WR, 1, rd_to_wr, false),
                TimeEntry::new(Command::WRA, 1, rd_to_wr, false),
                TimeEntry::new(Command::RD, 1, s.nBL + s.nRTRS, true),
                TimeEntry::new(Command::RDA, 1, s.nBL + s.nRTRS, true),
                TimeEntry::new(Command::WR, 1, s.nBL + s.nRTRS, true),
                TimeEntry::new(Command::WRA, 1, s.nBL + s.nRTRS, true),
                TimeEntry::new(Command::WR, 1, rd_to_wr_far, true),
                TimeEntry::new(Command::WRA, 1, rd_to_wr_far, true),
                TimeEntry::new(Command::PDE, 1, s.nCL + s.nBL + 1, false),
                TimeEntry::new(Command::REF, 1, s.nRTP + s.nRP, false),
            ],
            Command::WRA => vec![
                TimeEntry::new(Command::WR, 1, s.nCCDS, false),
                TimeEntry::new(Command::WRA, 1, s.nCCDS, false),
                TimeEntry::new(Command::RD, 1, s.nCWL + s.nBL + s.nWTRS, false),
                TimeEntry::new(Command::RDA, 1, s.nCWL + s.nBL + s.nWTRS, false),
                TimeEntry::new(Command::RD, 1, wr_to_rd_far, true),
                TimeEntry::new(Command::RDA, 1, wr_to_rd_far, true),
                TimeEntry::new(Command::PDE, 1, s.nCWL + s.nBL + s.nWR + 1, false),
                TimeEntry::new(Command::REF, 1, s.nCWL + s.nBL + s.nWR + s.nRP, false),
            ],
            Command::REF => vec![
                TimeEntry::new(Command::ACT, 1, s.nRFC, false),
                TimeEntry::new(Command::REF, 1, s.nRFC, false),
                TimeEntry::new(Command::PDE, 1, 1, false),
            ],
            Command::PDE => vec![
                TimeEntry::new(Command::PDX, 1, s.nPD, false),
            ],
            Command::PDX => vec![
                TimeEntry::new(Command::RD, 1, s.nXP, false),
                TimeEntry::new(Command::RDA, 1, s.nXP, false),
                TimeEntry::new(Command::WR, 1, s.nXP, false),
                TimeEntry::new(Command::WRA, 1, s.nXP, false),
                TimeEntry::new(Command::ACT, 1, s.nXP, false),
                TimeEntry::new(Command::PRE, 1, s.nXP, false),
                TimeEntry::new(Command::PREA, 1, s.nXP, false),
                TimeEntry::new(Command::REF, 1, s.nXP, false),
                TimeEntry::new(Command::PDE, 1, s.nXP, false),
                TimeEntry::new(Command::SRE, 1, s.nXP, false),
            ],
            Command::SRE => vec![
                TimeEntry::new(Command::SRX, 1, s.nCKESR, false),
            ],
            Command::SRX => vec![
                TimeEntry::new(Command::ACT, 1, s.nXS, false),
                TimeEntry::new(Command::REF, 1, s.nXS, false),
                TimeEntry::new(Command::PDE, 1, s.nXS, false),
                TimeEntry::new(Command::SRE, 1, s.nXS, false),
            ],
            _ => Vec::new(),
        }
    }

    /// The entries of `cmd` at a bank group.
    fn bank_group_row(s: &SpeedEntry, cmd: &Command) -> (row: Vec<TimeEntry>)
        requires
            s.wf(),
        ensures
            row@ == Self::bank_group_timing(*s, *cmd),
    {
        match cmd {
            Command::ACT => vec![
                TimeEntry::new(Command::ACT, 1, s.nRRDL, false),
            ],
            Command::RD | Command::RDA => vec![
                TimeEntry::new(Command::RD, 1, s.nCCDL, false),
                TimeEntry::new(Command::RDA, 1, s.nCCDL, false),
            ],
            Command::WR | Command::WRA => vec![
                TimeEntry::new(Command::WR, 1, s.nCCDL, false),
                TimeEntry::new(Command::WRA, 1, s.nCCDL, false),
                TimeEntry::new(Command::RD, 1, s.nCWL + s.nBL + s.nWTRL, false),
                TimeEntry::new(Command::RDA, 1, s.nCWL + s.nBL + s.nWTRL, false),
            ],
            _ => Vec::new(),
        }
    }

    /// The entries of `cmd` at a bank.
    fn bank_row(s: &SpeedEntry, cmd: &Command) -> (row: Vec<TimeEntry>)
        requires
            s.wf(),
        ensures
            row@ == Self::bank_timing(*s, *cmd),
    {
        match cmd {
            Command::ACT => vec![
                TimeEntry::new(Command::RD, 1, s.nRCD, false),
                TimeEntry::new(Command::RDA, 1, s.nRCD, false),
                TimeEntry::new(Command::WR, 1, s.nRCD, false),
                TimeEntry::new(Command::WRA, 1, s.nRCD, false),
                TimeEntry::new(Command::ACT, 1, s.nRC, false),
                TimeEntry::new(Command::PRE, 1, s.nRAS, false),
            ],
            Command::PRE => vec![
                TimeEntry::new(Command::ACT, 1, s.nRP, false),
            ],
            Command::RD => vec![
                TimeEntry::new(Command::PRE, 1, s.nRTP, false),
            ],
            Command::WR => vec![
                TimeEntry::new(Command::PRE, 1, s.nCWL + s.nBL + s.nWR, false),
            ],
            Command::RDA => vec![
                TimeEntry::new(Command::ACT, 1, s.nRTP + s.nRP, false),
            ],
            Command::WRA => vec![
                TimeEntry::new(Command::ACT, 1, s.nCWL + s.nBL + s.nWR + s.nRP, false),
            ],
            _ => Vec::new(),
        }
    }

    /// The entries of `(level, cmd)`, in table order.
    pub fn timing_row(s: &SpeedEntry, level: &Level, cmd: &Command) -> (row: Vec<TimeEntry>)
        requires
            s.wf(),
        ensures
            row@ == Self::timing_of(*s, *level, *cmd),
            forall|i: int| 0 <= i < row@.len() ==> (#[trigger] row@[i]).wf(DDR4_MAX_DELAY),
    {
        match level {
            Level::Channel => Self::channel_row(s, cmd),
            Level::Rank => Self::rank_row(s, cmd),
            Level::BankGroup => Self::bank_group_row(s, cmd),
            Level::Bank => Self::bank_row(s, cmd),
            _ => Vec::new(),
        }
    }
}

impl DDR4 {
    /// The technology of a configuration: the organization's counts with
    /// the configured channels and ranks, the width of each level's
    /// address field, and the constraint table of the speed grade.
    pub fn new(config: &Config) -> (ddr4: Self)
        requires
            !(config.ddr4_org is MAX),
        ensures
            ddr4.wf(),
            ddr4.child_size() == config.ddr4_org.counts(config.channels, config.ranks),
            ddr4.addr_bits().len() == LEVEL_COUNT,
            forall|l: int|
                0 <= l < LEVEL_COUNT ==> #[trigger] ddr4.addr_bits()[l] == log(
                    2,
                    ddr4.child_size()[l] as int,
                ),
            forall|level: Level, cmd: Command|
                !(level is Max) && !(cmd is Max) ==> #[trigger] ddr4.timing(level, cmd) == Self::timing_of(
                    config.ddr4_speed.entry(),
                    level,
                    cmd,
                ),
            ddr4.read_latency() == config.ddr4_speed.entry().nCL + config.ddr4_speed.entry().nBL,
            ddr4.max_delay() == DDR4_MAX_DELAY,
            config.channels >= 1 && config.ranks >= 1 ==> crate::memory::addressable(ddr4),
    {
        let channels = config.channels;
        let ranks = config.ranks;
        let child_size: Vec<usize> = match config.ddr4_org {
            DDR4Org::DDR4_2Gb_x4 => vec![channels, ranks, 4, 4, 0x8000, 0x400],
            DDR4Org::DDR4_2Gb_x8 => vec![channels, ranks, 4, 4, 0x4000, 0x400],
            DDR4Org::DDR4_2Gb_x16 => vec![channels, ranks, 2, 4, 0x4000, 0x400],
            DDR4Org::DDR4_4Gb_x4 => vec![channels, ranks, 4, 4, 0x1_0000, 0x400],
            DDR4Org::DDR4_4Gb_x8 => vec![channels, ranks, 4, 4, 0x8000, 0x400],
            DDR4Org::DDR4_4Gb_x16 => vec![channels, ranks, 2, 4, 0x8000, 0x400],
            DDR4Org::DDR4_8Gb_x4 => vec![channels, ranks, 4, 4, 0x2_0000, 0x400],
            DDR4Org::DDR4_8Gb_x8 => vec![channels, ranks, 4, 4, 0x1_0000, 0x400],
            DDR4Org::DDR4_8Gb_x16 => vec![channels, ranks, 2, 4, 0x1_0000, 0x400],
            DDR4Org::MAX => vstd::pervasive::unreached(),
        };
        let mut addr_bits: Vec<usize> = Vec::new();
        let mut l: usize = 0;
        while l < LEVEL_COUNT
            invariant
                l <= LEVEL_COUNT,
                child_size@.len() == LEVEL_COUNT,
                addr_bits@.len() == l,
                forall|k: int|
                    0 <= k < l ==> #[trigger] addr_bits@[k] == log(
                        2,
                        child_size@[k] as int,
                    ),
                forall|k: int|
                    0 <= k < l ==> #[trigger] addr_bits@[k] < 64 && (child_size@[k] >= 1
                        ==> pow2(addr_bits@[k] as nat) <= child_size@[k]),
            decreases LEVEL_COUNT - l,
        {
            addr_bits.push(log2(child_size[l]));
            l += 1;
        }
        let speed_entry = Self::get_speed(&config.ddr4_speed);
        let mut timing: Vec<Vec<Vec<TimeEntry>>> = Vec::new();
        let mut l: usize = 0;
        while l < LEVEL_COUNT
            invariant
                l <= LEVEL_COUNT,
                timing@.len() == l,
                forall|k: int| 0 <= k < l ==> (#[trigger] timing@[k])@.len() == COMMAND_COUNT,
                forall|k: int, c: int|
                    0 <= k < l && 0 <= c < COMMAND_COUNT ==> (#[trigger] timing@[k]@[c])@.len() == 0,
            decreases LEVEL_COUNT - l,
        {
            let mut rows: Vec<Vec<TimeEntry>> = Vec::new();
            let mut c: usize = 0;
            while c < COMMAND_COUNT
                invariant
                    c <= COMMAND_COUNT,
                    rows@.len() == c,
                    forall|k: int| 0 <= k < c ==> (#[trigger] rows@[k])@.len() == 0,
                decreases COMMAND_COUNT - c,
            {
                rows.push(Vec::new());
                c += 1;
            }
            timing.push(rows);
            l += 1;
        }
        Self::init_timing(&mut timing, &speed_entry);
        let read_latency = speed_entry.nCL + speed_entry.nBL;
        let ddr4 = Self { child_size, addr_bits, timing, read_latency };
        proof {
            assert forall|level: Level, cmd: Command| !(level is Max) && !(cmd is Max) implies #[trigger] ddr4.timing(
                level,
                cmd,
            ) == Self::timing_of(speed_entry, level, cmd) by {
                crate::memory::lemma_level_round_trip(level);
                crate::command::lemma_command_round_trip(cmd);
                assert(Seq::<TimeEntry>::empty() + Self::timing_of(speed_entry, level, cmd) =~= Self::timing_of(
                    speed_entry,
                    level,
                    cmd,
                ));
            }
            assert(ddr4.wf()) by {
                assert forall|lv: int, c: int, i: int|
                    0 <= lv < LEVEL_COUNT && 0 <= c < COMMAND_COUNT && 0 <= i < ddr4.timing@[lv]@[c]@.len() implies (
                #[trigger] ddr4.timing@[lv]@[c]@[i]).wf(DDR4_MAX_DELAY) by {
                    Self::lemma_timing_of_wf(speed_entry, Level::at(lv)->0, Command::at(c)->0);
                    assert(Seq::<TimeEntry>::empty() + Self::timing_of(
                        speed_entry,
                        Level::at(lv)->0,
                        Command::at(c)->0,
                    ) =~= Self::timing_of(speed_entry, Level::at(lv)->0, Command::at(c)->0));
                }
            }
        }
        ddr4
    }

    /// Every entry of the table of a well-formed speed entry is well
    /// formed.
    pub proof fn lemma_timing_of_wf(s: SpeedEntry, level: Level, cmd: Command)
        requires
            s.wf(),
        ensures
            forall|i: int|
                0 <= i < Self::timing_of(s, level, cmd).len() ==> (#[trigger] Self::timing_of(s, level, cmd)[i]).wf(
                    DDR4_MAX_DELAY,
                ),
    {
    }

    /// Appends to each row of a table of one row per level and command the
    /// entries of that level and command.
    #[verifier::loop_isolation(false)]
    pub fn init_timing(timing: &mut Vec<Vec<Vec<TimeEntry>>>, s: &SpeedEntry)
        requires
            s.wf(),
            old(timing)@.len() == LEVEL_COUNT,
            forall|l: int| 0 <= l < LEVEL_COUNT ==> (#[trigger] old(timing)@[l])@.len() == COMMAND_COUNT,
        ensures
            final(timing)@.len() == LEVEL_COUNT,
            forall|l: int| 0 <= l < LEVEL_COUNT ==> (#[trigger] final(timing)@[l])@.len() == COMMAND_COUNT,
            forall|l: int, c: int|
                0 <= l < LEVEL_COUNT && 0 <= c < COMMAND_COUNT ==> (#[trigger] final(timing)@[l]@[c])@ == old(
                    timing,
                )@[l]@[c]@ + Self::timing_of(*s, Level::at(l)->0, Command::at(c)->0),
    {
        let mut l: usize = 0;
        while l < LEVEL_COUNT
            invariant
                l <= LEVEL_COUNT,
                s.wf(),
                timing@.len() == LEVEL_COUNT,
                forall|k: int| 0 <= k < LEVEL_COUNT ==> (#[trigger] timing@[k])@.len() == COMMAND_COUNT,
                forall|k: int, c: int|
                    0 <= k < l && 0 <= c < COMMAND_COUNT ==> (#[trigger] timing@[k]@[c])@ == old(timing)@[k]@[c]@
                        + Self::timing_of(*s, Level::at(k)->0, Command::at(c)->0),
                forall|k: int| l <= k < LEVEL_COUNT ==> timing@[k] == old(timing)@[k],
            decreases LEVEL_COUNT - l,
        {
            let level = match Level::from_index(l) {
                Some(level) => level,
                None => Level::Max,
            };
            let ghost before = timing@;
            let mut c: usize = 0;
            while c < COMMAND_COUNT
                invariant
                    c <= COMMAND_COUNT,
                    l < LEVEL_COUNT,
                    s.wf(),
                    Level::at(l as int) == Some(level),
                    timing@.len() == LEVEL_COUNT,
                    timing@[l as int]@.len() == COMMAND_COUNT,
                    forall|k: int| 0 <= k < LEVEL_COUNT && k != l ==> timing@[k] == before[k],
                    forall|k: int|
                        0 <= k < c ==> (#[trigger] timing@[l as int]@[k])@ == before[l as int]@[k]@
                            + Self::timing_of(*s, level, Command::at(k)->0),
                    forall|k: int| c <= k < COMMAND_COUNT ==> timing@[l as int]@[k] == before[l as int]@[k],
                decreases COMMAND_COUNT - c,
            {
                let cmd = match Command::from_index(c) {
                    Some(cmd) => cmd,
                    None => Command::Max,
                };
                let mut row = Self::timing_row(s, &level, &cmd);
                timing[l][c].append(&mut row);
                c += 1;
            }
            proof {
                assert forall|k: int| 0 <= k < LEVEL_COUNT implies (#[trigger] timing@[k])@.len() == COMMAND_COUNT by {
                    if k != l {
                        assert(timing@[k] == before[k]);
                    }
                }
                assert forall|k: int, c: int| 0 <= k < l + 1 && 0 <= c < COMMAND_COUNT implies (
                #[trigger] timing@[k]@[c])@ == old(timing)@[k]@[c]@ + Self::timing_of(
                    *s,
                    Level::at(k)->0,
                    Command::at(c)->0,
                ) by {
                    if k != l {
                        assert(before[k]@[c]@ == old(timing)@[k]@[c]@ + Self::timing_of(
                            *s,
                            Level::at(k)->0,
                            Command::at(c)->0,
                        ));
                    }
                }
            }
            l += 1;
        }
    }
}

impl DramSpec for DDR4 {
    closed spec fn wf(&self) -> bool {
        &&& self.child_size@.len() == LEVEL_COUNT
        &&& self.addr_bits@.len() == LEVEL_COUNT
        &&& self.timing@.len() == LEVEL_COUNT
        &&& forall|l: int| 0 <= l < LEVEL_COUNT ==> (#[trigger] self.timing@[l])@.len() == COMMAND_COUNT
        &&& forall|l: int, c: int, i: int|
            0 <= l < LEVEL_COUNT && 0 <= c < COMMAND_COUNT && 0 <= i < self.timing@[l]@[c]@.len() ==> (
            #[trigger] self.timing@[l]@[c]@[i]).wf(DDR4_MAX_DELAY)
    }

    open spec fn first_cmd(req_type: ReqType) -> Command {
        match req_type {
            ReqType::Read => Command::RD,
            ReqType::Write => Command::WR,
        }
    }

    /// A rank is in a power state, a bank is closed or open, and the
    /// other nodes have no state.
    open spec fn state_ok(level: Level, state: State) -> bool {
        match level {
            Level::Rank => state is PowerUp || state is ActPowerDown || state is PrePowerDown
                || state is SelfRefresh,
            Level::Bank => state is Closed || state is Opened,
            _ => state is NoUse,
        }
    }

    /// A rank that is powered down or in self-refresh has to be woken
    /// first; a refresh needs every row of the rank closed; a column
    /// command needs its row open in the bank, which takes an `ACT` on a
    /// closed bank and a `PRE` on a bank that is open on another row.
    open spec fn pre_cmd(level: Level, state: State, open_row: bool, cmd: Command, child_id: u64) -> Option<
        Command,
    > {
        match (level, cmd) {
            (Level::Rank, Command::RD) | (Level::Rank, Command::WR) => match state {
                State::ActPowerDown | State::PrePowerDown => Some(Command::PDX),
                State::SelfRefresh => Some(Command::SRX),
                _ => None,
            },
            (Level::Rank, Command::REF) => if open_row {
                Some(Command::PREA)
            } else {
                Some(Command::REF)
            },
            (Level::Rank, Command::PDE) => match state {
                State::SelfRefresh => Some(Command::SRX),
                _ => Some(Command::PDE),
            },
            (Level::Rank, Command::SRE) => match state {
                State::ActPowerDown | State::PrePowerDown => Some(Command::PDX),
                State::SelfRefresh => Some(Command::SRX),
                _ => Some(Command::SRE),
            },
            (Level::Bank, Command::RD) | (Level::Bank, Command::WR) => match state {
                State::Opened(row) => if row == child_id {
                    Some(cmd)
                } else {
                    Some(Command::PRE)
                },
                _ => Some(Command::ACT),
            },
            _ => None,
        }
    }

    open spec fn start_state(level: Level) -> State {
        match level {
            Level::Rank => State::PowerUp,
            Level::Bank | Level::Row => State::Closed,
            _ => State::NoUse,
        }
    }

    closed spec fn addr_bits(&self) -> Seq<usize> {
        self.addr_bits@
    }

    closed spec fn child_size(&self) -> Seq<usize> {
        self.child_size@
    }

    open spec fn scope(&self, cmd: Command) -> Level {
        match cmd {
            Command::ACT => Level::Row,
            Command::PRE => Level::Bank,
            Command::RD | Command::WR | Command::RDA | Command::WRA => Level::Column,
            Command::PREA | Command::REF => Level::Rank,
            Command::PDE | Command::PDX | Command::SRE | Command::SRX => Level::Rank,
            Command::Max => Level::Max,
        }
    }

    /// `ACT` opens the addressed row of a bank; `PRE` and the column
    /// commands with auto-precharge close it. `PDE` powers a rank down, to
    /// `ActPowerDown` where a row is open beneath it and to `PrePowerDown`
    /// otherwise; `PDX` and `SRX` power it up; `SRE` puts it in
    /// self-refresh.
    open spec fn next_state(
        &self,
        level: Level,
        state: State,
        open_row: bool,
        cmd: Command,
        child_id: u64,
    ) -> State {
        match (level, cmd) {
            (Level::Bank, Command::ACT) => State::Opened(child_id),
            (Level::Bank, Command::PRE) => State::Closed,
            (Level::Bank, Command::RDA) | (Level::Bank, Command::WRA) => State::Closed,
            (Level::Rank, Command::PDE) => if open_row {
                State::ActPowerDown
            } else {
                State::PrePowerDown
            },
            (Level::Rank, Command::PDX) | (Level::Rank, Command::SRX) => State::PowerUp,
            (Level::Rank, Command::SRE) => State::SelfRefresh,
            _ => state,
        }
    }

    /// `PREA` closes every row of the rank.
    open spec fn closes_rows(&self, level: Level, cmd: Command) -> bool {
        level is Rank && cmd is PREA
    }

    closed spec fn timing(&self, level: Level, cmd: Command) -> Seq<TimeEntry> {
        if level.ord() < LEVEL_COUNT && cmd.ord() < COMMAND_COUNT {
            self.timing@[level.ord()]@[cmd.ord()]@
        } else {
            Seq::empty()
        }
    }

    open spec fn max_delay(&self) -> u64 {
        DDR4_MAX_DELAY
    }

    closed spec fn read_latency(&self) -> u64 {
        self.read_latency
    }

    proof fn lemma_first_cmd_real(req_type: ReqType) {
    }

    proof fn lemma_pre_cmd_real(level: Level, state: State, open_row: bool, cmd: Command, child_id: u64) {
    }

    proof fn lemma_closed_is_ok(level: Level, row: u64) {
    }

    proof fn lemma_start_state_ok(level: Level) {
    }

    proof fn lemma_next_state_ok(
        &self,
        level: Level,
        state: State,
        open_row: bool,
        cmd: Command,
        child_id: u64,
    ) {
    }

    proof fn lemma_timing_wf(&self, level: Level, cmd: Command) {
    }

    fn get_first_cmd(req_type: &ReqType) -> (cmd: Command) {
        match req_type {
            ReqType::Read => Command::RD,
            ReqType::Write => Command::WR,
        }
    }

    fn get_pre_cmd<'a>(dram: &Dram<'a, Self>, cmd: &Command, child_id: u64) -> (pre: Option<Command>) {
        match (&dram.level, cmd) {
            (Level::Rank, Command::RD) | (Level::Rank, Command::WR) => match dram.state {
                State::PowerUp => None,
                State::ActPowerDown => Some(Command::PDX),
                State::PrePowerDown => Some(Command::PDX),
                State::SelfRefresh => Some(Command::SRX),
                _ => vstd::pervasive::unreached(),
            },
            (Level::Rank, Command::REF) => {
                if dram.any_row_open() {
                    Some(Command::PREA)
                } else {
                    Some(Command::REF)
                }
            },
            (Level::Rank, Command::PDE) => match dram.state {
                State::PowerUp | State::ActPowerDown | State::PrePowerDown => Some(Command::PDE),
                State::SelfRefresh => Some(Command::SRX),
                _ => vstd::pervasive::unreached(),
            },
            (Level::Rank, Command::SRE) => match dram.state {
                State::PowerUp => Some(Command::SRE),
                State::ActPowerDown | State::PrePowerDown => Some(Command::PDX),
                State::SelfRefresh => Some(Command::SRX),
                _ => vstd::pervasive::unreached(),
            },
            (Level::Bank, Command::RD) | (Level::Bank, Command::WR) => match dram.state {
                State::Closed => Some(Command::ACT),
                State::Opened(row_id) => {
                    if row_id == child_id {
                        Some(*cmd)
                    } else {
                        Some(Command::PRE)
                    }
                },
                _ => vstd::pervasive::unreached(),
            },
            _ => None,
        }
    }

    fn get_start_state(level: &Level) -> (state: State) {
        match level {
            Level::Channel => State::NoUse,
            Level::Rank => State::PowerUp,
            Level::BankGroup => State::NoUse,
            Level::Bank => State::Closed,
            Level::Row => State::Closed,
            Level::Column => State::NoUse,
            Level::Max => State::NoUse,
        }
    }

    fn get_addr_bits(&self) -> (bits: &[usize]) {
        self.addr_bits.as_slice()
    }

    fn get_child_size(&self) -> (sizes: &[usize]) {
        self.child_size.as_slice()
    }

    fn get_scope(&self, cmd: &Command) -> (level: Level) {
        match cmd {
            Command::ACT => Level::Row,
            Command::PRE => Level::Bank,
            Command::PREA => Level::Rank,
            Command::RD => Level::Column,
            Command::WR => Level::Column,
            Command::RDA => Level::Column,
            Command::WRA => Level::Column,
            Command::REF => Level::Rank,
            Command::PDE => Level::Rank,
            Command::PDX => Level::Rank,
            Command::SRE => Level::Rank,
            Command::SRX => Level::Rank,
            Command::Max => vstd::pervasive::unreached(),
        }
    }

    fn update_state<'a>(&self, dram: &Dram<'a, Self>, cmd: &Command, child_id: u64) -> (state: State) {
        match (dram.level, cmd) {
            (Level::Bank, Command::ACT) => State::Opened(child_id),
            (Level::Bank, Command::PRE) => State::Closed,
            (Level::Bank, Command::RDA) | (Level::Bank, Command::WRA) => State::Closed,
            (Level::Rank, Command::PDE) => {
                if dram.any_row_open() {
                    State::ActPowerDown
                } else {
                    State::PrePowerDown
                }
            },
            (Level::Rank, Command::PDX) => State::PowerUp,
            (Level::Rank, Command::SRE) => State::SelfRefresh,
            (Level::Rank, Command::SRX) => State::PowerUp,
            _ => dram.state,
        }
    }

    fn precharges_all(&self, level: &Level, cmd: &Command) -> (all: bool) {
        matches!((level, cmd), (Level::Rank, Command::PREA))
    }

    fn get_timming(&self, level: &Level, cmd: &Command) -> (entries: &[TimeEntry]) {
        self.timing[level.index()][cmd.index()].as_slice()
    }

    fn get_read_latency(&self) -> (cycles: u64) {
        self.read_latency
    }
}

} // verus!
