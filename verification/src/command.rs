use vstd::prelude::*;

verus! {

/// Number of commands that a device accepts (`Command::Max` is not one).
pub const COMMAND_COUNT: usize = 12;

/// The commands of the device, in table order. `Max` is the end marker of
/// the enumeration and is never issued.
#[allow(clippy::upper_case_acronyms)]
#[derive(Debug, Clone, Copy, PartialEq, Eq, PartialOrd, Ord, Structural)]
pub enum Command {
    /// Activate a row.
    ACT,
    /// Precharge one bank.
    PRE,
    /// Precharge all banks of a rank.
    PREA,
    /// Column read.
    RD,
    /// Column write.
    WR,
    /// Column read with auto-precharge.
    RDA,
    /// Column write with auto-precharge.
    WRA,
    /// Refresh.
    REF,
    /// Power-down entry.
    PDE,
    /// Power-down exit.
    PDX,
    /// Self-refresh entry.
    SRE,
    /// Self-refresh exit.
    SRX,
    /// End marker.
    Max,
}

impl Command {
    /// Position of the command in the enumeration; the index of its row in
    /// every per-command table.
    pub open spec fn ord(self) -> int {
        match self {
            Command::ACT => 0,
            Command::PRE => 1,
            Command::PREA => 2,
            Command::RD => 3,
            Command::WR => 4,
            Command::RDA => 5,
            Command::WRA => 6,
            Command::REF => 7,
            Command::PDE => 8,
            Command::PDX => 9,
            Command::SRE => 10,
            Command::SRX => 11,
            Command::Max => 12,
        }
    }

    /// The command at position `i`, if there is one.
    pub open spec fn at(i: int) -> Option<Command> {
        if i == 0 {
            Some(Command::ACT)
        } else if i == 1 {
            Some(Command::PRE)
        } else if i == 2 {
            Some(Command::PREA)
        } else if i == 3 {
            Some(Command::RD)
        } else if i == 4 {
            Some(Command::WR)
        } else if i == 5 {
            Some(Command::RDA)
        } else if i == 6 {
            Some(Command::WRA)
        } else if i == 7 {
            Some(Command::REF)
        } else if i == 8 {
            Some(Command::PDE)
        } else if i == 9 {
            Some(Command::PDX)
        } else if i == 10 {
            Some(Command::SRE)
        } else if i == 11 {
            Some(Command::SRX)
        } else if i == 12 {
            Some(Command::Max)
        } else {
            None
        }
    }

    /// The position of the command, as a table index.
    pub fn index(&self) -> (i: usize)
        ensures
            i == self.ord(),
            i <= COMMAND_COUNT,
            !(*self is Max) ==> i < COMMAND_COUNT,
    {
        match self {
            Command::ACT => 0,
            Command::PRE => 1,
            Command::PREA => 2,
            Command::RD => 3,
            Command::WR => 4,
            Command::RDA => 5,
            Command::WRA => 6,
            Command::REF => 7,
            Command::PDE => 8,
            Command::PDX => 9,
            Command::SRE => 10,
            Command::SRX => 11,
            Command::Max => 12,
        }
    }

    /// The command at table index `i`; `None` past the end marker.
    pub fn from_index(i: usize) -> (c: Option<Command>)
        ensures
            c == Command::at(i as int),
            c matches Some(k) ==> k.ord() == i,
            c is Some <==> i <= COMMAND_COUNT,
            i < COMMAND_COUNT ==> c is Some && !(c->0 is Max),
    {
        match i {
            0 => Some(Command::ACT),
            1 => Some(Command::PRE),
            2 => Some(Command::PREA),
            3 => Some(Command::RD),
            4 => Some(Command::WR),
            5 => Some(Command::RDA),
            6 => Some(Command::WRA),
            7 => Some(Command::REF),
            8 => Some(Command::PDE),
            9 => Some(Command::PDX),
            10 => Some(Command::SRE),
            11 => Some(Command::SRX),
            12 => Some(Command::Max),
            _ => None,
        }
    }

    /// Whether the command is `ACT`.
    pub fn is_act(&self) -> (b: bool)
        ensures
            b == (*self is ACT),
    {
        matches!(self, Command::ACT)
    }
}

/// Looking a command up by its own position gives the command back, and
/// positions below the end marker name distinct issuable commands.
pub proof fn lemma_command_round_trip(c: Command)
    ensures
        Command::at(c.ord()) == Some(c),
        0 <= c.ord() <= COMMAND_COUNT,
        c.ord() == COMMAND_COUNT <==> c is Max,
{
}

} // verus!
