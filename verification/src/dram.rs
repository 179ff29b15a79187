use vstd::prelude::*;
use std::collections::VecDeque;
use crate::command::{Command, COMMAND_COUNT};
use crate::memory::{Level, LEVEL_COUNT};
use crate::request::ReqType;

verus! {

/// State of one node of the device tree.
///
/// A bank is `Closed` or `Opened` on a row; a rank is in one of the four
/// power states; nodes of the other levels carry `NoUse`.
#[derive(Debug, Clone, Copy, PartialEq, Eq, Structural)]
pub enum State {
    Opened(u64),
    Closed,
    PowerUp,
    ActPowerDown,
    PrePowerDown,
    SelfRefresh,
    NoUse,
}

/// One timing constraint of a source command at a level: if the source was
/// issued `dist` issues ago at clock `t`, then `cmd` is not legal at the
/// node before `t + val`. `sibling` marks a constraint between sibling
/// subtrees; those are kept in the table and not enforced.
#[derive(Debug, Clone, Copy)]
pub struct TimeEntry {
    pub cmd: Command,
    pub dist: usize,
    pub val: u64,
    pub sibling: bool,
}

impl TimeEntry {
    /// An entry from its four parts.
    pub fn new(cmd: Command, dist: usize, val: u64, sibling: bool) -> (e: Self)
        ensures
            e == (TimeEntry { cmd, dist, val, sibling }),
    {
        TimeEntry { cmd, dist, val, sibling }
    }

    /// What every entry of a usable table satisfies: it looks at least one
    /// issue back, delays by at most `max_delay`, and targets a real command.
    pub open spec fn wf(self, max_delay: u64) -> bool {
        &&& self.dist >= 1
        &&& self.val <= max_delay
        &&& !(self.cmd is Max)
    }
}

/// The largest `dist` among the entries: the number of past issues of the
/// source command that a node has to remember.
pub open spec fn max_dist(entries: Seq<TimeEntry>) -> nat
    decreases entries.len(),
{
    if entries.len() == 0 {
        0
    } else {
        let rest = max_dist(entries.drop_last());
        if entries.last().dist > rest {
            entries.last().dist as nat
        } else {
            rest
        }
    }
}

/// Every entry looks back no further than `max_dist`.
pub proof fn lemma_max_dist_bounds(entries: Seq<TimeEntry>, i: int)
    requires
        0 <= i < entries.len(),
    ensures
        entries[i].dist <= max_dist(entries),
    decreases entries.len(),
{
    if i < entries.len() - 1 {
        lemma_max_dist_bounds(entries.drop_last(), i);
    }
}

/// The history of a command after an issue at `clk`: the new clock in
/// front, the oldest dropped. A history of length zero stays empty.
pub open spec fn recorded(ring: Seq<Option<u64>>, clk: u64) -> Seq<Option<u64>> {
    if ring.len() == 0 {
        ring
    } else {
        seq![Some(clk)] + ring.drop_last()
    }
}

/// The clock before which entry `e` forbids its target, read from the
/// history `ring` of the source command: the issue `e.dist` back plus the
/// delay. `None` where the entry is a sibling entry or that issue has not
/// happened yet.
pub open spec fn candidate(ring: Seq<Option<u64>>, e: TimeEntry) -> Option<int> {
    if !e.sibling && 1 <= e.dist <= ring.len() && ring[e.dist - 1] is Some {
        Some(ring[e.dist - 1]->0 + e.val)
    } else {
        None
    }
}

/// The earliest clock of the command at position `target` once the
/// entries have been applied to `old`: the largest of `old` and the
/// candidates of the entries that target it.
pub open spec fn raised(old: u64, ring: Seq<Option<u64>>, entries: Seq<TimeEntry>, target: int) -> u64
    decreases entries.len(),
{
    if entries.len() == 0 {
        old
    } else {
        let rest = raised(old, ring, entries.drop_last(), target);
        let e = entries.last();
        match candidate(ring, e) {
            Some(c) => if e.cmd.ord() == target && rest < c <= u64::MAX {
                c as u64
            } else {
                rest
            },
            None => rest,
        }
    }
}

/// Applying entries never lowers a clock.
pub proof fn lemma_raised_not_before(old: u64, ring: Seq<Option<u64>>, entries: Seq<TimeEntry>, target: int)
    ensures
        old <= raised(old, ring, entries, target),
    decreases entries.len(),
{
    if entries.len() > 0 {
        lemma_raised_not_before(old, ring, entries.drop_last(), target);
    }
}

/// The mathematical value of a device tree: the technology it was built
/// for, and of each node its level, state, children, the earliest legal
/// clock of every command and the issue history of every command, newest
/// first, `None` where no issue has been recorded yet.
pub ghost struct DramView<T> {
    pub tech: T,
    pub level: Level,
    pub state: State,
    pub children: Seq<DramView<T>>,
    pub next_clk: Seq<u64>,
    pub prev: Seq<Seq<Option<u64>>>,
}

impl<T> DramView<T> {
    /// Whether a row is open at this node or anywhere beneath it.
    pub open spec fn has_open_row(self) -> bool
        decreases self,
    {
        ||| self.state is Opened
        ||| exists|i: int| 0 <= i < self.children.len() && (#[trigger] self.children[i]).has_open_row()
    }

    /// The tree with every open row closed, at this node and beneath it.
    pub open spec fn closed(self) -> DramView<T>
        decreases self,
    {
        DramView {
            state: if self.state is Opened {
                State::Closed
            } else {
                self.state
            },
            children: Seq::new(
                self.children.len(),
                |i: int|
                    if 0 <= i < self.children.len() {
                        self.children[i].closed()
                    } else {
                        self
                    },
            ),
            ..self
        }
    }

    /// Whether two trees have the same nodes at the same levels.
    pub open spec fn same_shape(self, other: DramView<T>) -> bool
        decreases self,
    {
        &&& self.level == other.level
        &&& self.children.len() == other.children.len()
        &&& forall|i: int|
            0 <= i < self.children.len() ==> (#[trigger] self.children[i]).same_shape(
                other.children[i],
            )
    }

    /// Whether the coordinates lead from this node down to a bank: at
    /// every node above the bank level the coordinate of the level below
    /// names a child.
    pub open spec fn reaches_bank(self, addr: Seq<u64>) -> bool
        decreases self,
    {
        &&& self.level.ord() + 1 < addr.len()
        &&& self.level is Bank || {
            &&& addr[self.level.ord() + 1] < self.children.len()
            &&& self.children[addr[self.level.ord() + 1] as int].reaches_bank(addr)
        }
    }

    /// Whether the coordinates name a child wherever there are children,
    /// from this node down.
    pub open spec fn in_range(self, addr: Seq<u64>) -> bool
        decreases self,
    {
        &&& self.level.ord() + 1 < addr.len()
        &&& self.children.len() == 0 || {
            &&& addr[self.level.ord() + 1] < self.children.len()
            &&& self.children[addr[self.level.ord() + 1] as int].in_range(addr)
        }
    }

    /// Whether no earliest legal clock of `self` is later than that of
    /// `other`, at this node and at every node beneath it.
    pub open spec fn not_after(self, other: DramView<T>) -> bool
        decreases self,
    {
        &&& self.next_clk.len() == other.next_clk.len()
        &&& forall|c: int| 0 <= c < self.next_clk.len() ==> self.next_clk[c] <= other.next_clk[c]
        &&& self.children.len() == other.children.len()
        &&& forall|i: int|
            0 <= i < self.children.len() ==> (#[trigger] self.children[i]).not_after(
                other.children[i],
            )
    }
}

/// One node of the device tree, with the nodes beneath it.
///
/// `next_clk[c]` is the earliest clock at which command `c` is legal at
/// this node. `prev[c]` holds the clocks of the last issues of `c`, newest
/// first, as many as the farthest-looking constraint of `c` at this level
/// needs.
pub struct Dram<'a, T> {
    pub spec: &'a T,
    pub level: Level,
    pub children: Vec<Dram<'a, T>>,
    pub state: State,
    pub next_clk: Vec<u64>,
    pub prev: Vec<VecDeque<Option<u64>>>,
}

impl<'a, T> Dram<'a, T> {
    /// The mathematical value of the tree.
    pub open spec fn view(&self) -> DramView<T>
        decreases self,
    {
        DramView {
            tech: *self.spec,
            level: self.level,
            state: self.state,
            children: Seq::new(
                self.children@.len(),
                |i: int|
                    if 0 <= i < self.children@.len() {
                        self.children@[i].view()
                    } else {
                        arbitrary()
                    },
            ),
            next_clk: self.next_clk@,
            prev: Seq::new(self.prev@.len(), |c: int| self.prev@[c]@),
        }
    }
}

/// A memory technology: its commands' scopes and prerequisites, the state
/// machine of a node, the organization of the device and the constraint
/// table. The device tree is written against this trait alone.
///
/// The spec functions say what the technology is; each executable method
/// returns what the spec function of the same matter says.
pub trait DramSpec: Sized {
    /// Whether the value's tables are complete.
    spec fn wf(&self) -> bool;

    /// The column command that serves a request of this kind.
    spec fn first_cmd(req_type: ReqType) -> Command;

    /// Whether a node of this level can be in this state.
    spec fn state_ok(level: Level, state: State) -> bool;

    /// The command that has to be issued before `cmd` at a node of this
    /// level in this state, where `open_row` says whether a row is open at
    /// or beneath the node and `child_id` is the coordinate of the level
    /// below. `Some(cmd)` when `cmd` can go ahead and is settled at this
    /// node; `None` when this node has no say.
    spec fn pre_cmd(
        level: Level,
        state: State,
        open_row: bool,
        cmd: Command,
        child_id: u64,
    ) -> Option<Command>;

    /// The state of a new node of this level.
    spec fn start_state(level: Level) -> State;

    /// Width in bits of each level's field of an address.
    spec fn addr_bits(&self) -> Seq<usize>;

    /// Number of instances at each level, by level position.
    spec fn child_size(&self) -> Seq<usize>;

    /// The level at which a command takes effect.
    spec fn scope(&self, cmd: Command) -> Level;

    /// The state of a node of this level after `cmd`.
    spec fn next_state(
        &self,
        level: Level,
        state: State,
        open_row: bool,
        cmd: Command,
        child_id: u64,
    ) -> State;

    /// Whether `cmd` at a node of this level closes every row beneath it.
    spec fn closes_rows(&self, level: Level, cmd: Command) -> bool;

    /// The constraints that `cmd`, issued at a node of this level, puts on
    /// later commands there.
    spec fn timing(&self, level: Level, cmd: Command) -> Seq<TimeEntry>;

    /// An upper bound of every delay in the table.
    spec fn max_delay(&self) -> u64;

    /// Cycles from a column read to its data.
    spec fn read_latency(&self) -> u64;

    /// A node that may be open may be closed.
    proof fn lemma_closed_is_ok(level: Level, row: u64)
        requires
            Self::state_ok(level, State::Opened(row)),
        ensures
            Self::state_ok(level, State::Closed),
    ;

    /// The command that serves a request is a real command.
    proof fn lemma_first_cmd_real(req_type: ReqType)
        ensures
            !(Self::first_cmd(req_type) is Max),
    ;

    /// The prerequisite of a real command is a real command.
    proof fn lemma_pre_cmd_real(level: Level, state: State, open_row: bool, cmd: Command, child_id: u64)
        requires
            !(cmd is Max),
        ensures
            Self::pre_cmd(level, state, open_row, cmd, child_id) matches Some(pre) ==> !(pre is Max),
    ;

    /// A new node is in a state of its level.
    proof fn lemma_start_state_ok(level: Level)
        requires
            level.is_node(),
        ensures
            Self::state_ok(level, Self::start_state(level)),
    ;

    /// A command leaves a node in a state of its level.
    proof fn lemma_next_state_ok(
        &self,
        level: Level,
        state: State,
        open_row: bool,
        cmd: Command,
        child_id: u64,
    )
        requires
            level.is_node(),
            Self::state_ok(level, state),
        ensures
            Self::state_ok(level, self.next_state(level, state, open_row, cmd, child_id)),
    ;

    /// The entries of a complete table are well formed.
    proof fn lemma_timing_wf(&self, level: Level, cmd: Command)
        requires
            self.wf(),
        ensures
            forall|i: int|
                0 <= i < self.timing(level, cmd).len() ==> (#[trigger] self.timing(level, cmd)[i]).wf(
                    self.max_delay(),
                ),
    ;

    /// The column command that serves a request of this kind.
    fn get_first_cmd(req_type: &ReqType) -> (cmd: Command)
        ensures
            cmd == Self::first_cmd(*req_type),
            !(cmd is Max),
    ;

    /// The command that has to be issued before `cmd` at the node `dram`,
    /// where `child_id` is the coordinate of the level below.
    fn get_pre_cmd<'a>(dram: &Dram<'a, Self>, cmd: &Command, child_id: u64) -> (pre: Option<Command>)
        requires
            dram.level.is_node(),
            Self::state_ok(dram.level, dram.state),
            !(*cmd is Max),
        ensures
            pre == Self::pre_cmd(dram.level, dram.state, dram@.has_open_row(), *cmd, child_id),
            pre matches Some(c) ==> !(c is Max),
    ;

    /// The state of a new node of this level.
    fn get_start_state(level: &Level) -> (state: State)
        ensures
            state == Self::start_state(*level),
    ;

    /// Width in bits of each level's field of an address.
    fn get_addr_bits(&self) -> (bits: &[usize])
        ensures
            bits@ == self.addr_bits(),
    ;

    /// Number of instances at each level, by level position.
    fn get_child_size(&self) -> (sizes: &[usize])
        ensures
            sizes@ == self.child_size(),
    ;

    /// The level at which a command takes effect.
    fn get_scope(&self, cmd: &Command) -> (level: Level)
        requires
            !(*cmd is Max),
        ensures
            level == self.scope(*cmd),
    ;

    /// The state that `cmd` leaves the node in. The node is not changed:
    /// the tree stores what is returned.
    fn update_state<'a>(&self, dram: &Dram<'a, Self>, cmd: &Command, child_id: u64) -> (state: State)
        requires
            dram.level.is_node(),
            Self::state_ok(dram.level, dram.state),
            !(*cmd is Max),
        ensures
            state == self.next_state(dram.level, dram.state, dram@.has_open_row(), *cmd, child_id),
    ;

    /// Whether `cmd` at a node of this level closes every row beneath it.
    fn precharges_all(&self, level: &Level, cmd: &Command) -> (all: bool)
        requires
            !(*cmd is Max),
        ensures
            all == self.closes_rows(*level, *cmd),
    ;

    /// The constraints that `cmd`, issued at a node of this level, puts on
    /// later commands there, in table order.
    fn get_timming(&self, level: &Level, cmd: &Command) -> (entries: &[TimeEntry])
        requires
            self.wf(),
            !(*level is Max),
            !(*cmd is Max),
        ensures
            entries@ == self.timing(*level, *cmd),
    ;

    /// Cycles from a column read to its data.
    fn get_read_latency(&self) -> (cycles: u64)
        ensures
            cycles == self.read_latency(),
    ;
}

impl<T: DramSpec> DramView<T> {
    /// Whether the history of the command at position `c` has the length
    /// that the table asks for and holds no clock so late that a delay
    /// added to it would overflow.
    pub open spec fn ring_ok(self, c: int) -> bool {
        &&& self.prev[c].len() == max_dist(self.tech.timing(self.level, Command::at(c)->0))
        &&& forall|j: int|
            0 <= j < self.prev[c].len() ==> ((#[trigger] self.prev[c][j]) matches Some(h) ==> h
                + self.tech.max_delay() <= u64::MAX)
    }

    /// Well-formedness of a tree: every node is of a node level and in a
    /// state of that level, has one clock and one history per command,
    /// each history as long as the table asks, and children of the level
    /// below, built for the same technology; banks have no children.
    pub open spec fn wf(self) -> bool
        decreases self,
    {
        &&& self.tech.wf()
        &&& self.level.is_node()
        &&& T::state_ok(self.level, self.state)
        &&& self.next_clk.len() == COMMAND_COUNT
        &&& self.prev.len() == COMMAND_COUNT
        &&& forall|c: int| 0 <= c < COMMAND_COUNT ==> #[trigger] self.ring_ok(c)
        &&& self.level is Bank ==> self.children.len() == 0
        &&& forall|i: int|
            0 <= i < self.children.len() ==> {
                &&& (#[trigger] self.children[i]).level.ord() == self.level.ord() + 1
                &&& self.children[i].tech == self.tech
                &&& self.children[i].wf()
            }
    }

    /// A new tree below a node of `level`, with `sizes[l]` nodes of level
    /// `l` under each node of the level above: every node in its start
    /// state, every clock at zero, every history unrecorded.
    pub open spec fn fresh(tech: T, level: Level, sizes: Seq<usize>) -> DramView<T>
        decreases LEVEL_COUNT - level.ord(),
    {
        DramView {
            tech,
            level,
            state: T::start_state(level),
            children: if level is Channel || level is Rank || level is BankGroup {
                Seq::new(
                    sizes[level.ord() + 1] as nat,
                    |i: int| Self::fresh(tech, level.next()->0, sizes),
                )
            } else {
                Seq::empty()
            },
            next_clk: Seq::new(COMMAND_COUNT as nat, |c: int| 0u64),
            prev: Seq::new(
                COMMAND_COUNT as nat,
                |c: int|
                    Seq::new(
                        max_dist(tech.timing(level, Command::at(c)->0)),
                        |j: int| None::<u64>,
                    ),
            ),
        }
    }

    /// The command to issue next on the way to `cmd` at the addressed
    /// bank: the first prerequisite that a node on the path names, from
    /// this node down, or `cmd` itself where the bank has none.
    pub open spec fn resolve(self, cmd: Command, addr: Seq<u64>) -> Command
        decreases self,
    {
        let child_id = addr[self.level.ord() + 1];
        match T::pre_cmd(self.level, self.state, self.has_open_row(), cmd, child_id) {
            Some(pre) => pre,
            None => if self.level is Bank || child_id >= self.children.len() {
                cmd
            } else {
                self.children[child_id as int].resolve(cmd, addr)
            },
        }
    }

    /// Whether `cmd` may be issued at `clk`: the clock has reached the
    /// earliest legal clock of `cmd` at this node and, down to the scope
    /// of `cmd`, at every node on the addressed path.
    pub open spec fn legal(self, cmd: Command, addr: Seq<u64>, clk: u64) -> bool
        decreases self,
    {
        let child_id = addr[self.level.ord() + 1];
        &&& clk >= self.next_clk[cmd.ord()]
        &&& (self.tech.scope(cmd) != self.level && 0 <= child_id < self.children.len())
            ==> self.children[child_id as int].legal(cmd, addr, clk)
    }

    /// The tree after the state update of `cmd`: from this node down the
    /// addressed path to the scope of `cmd`, every node takes the state
    /// that the technology names; where the technology says so, every row
    /// beneath the node is closed.
    pub open spec fn state_step(self, cmd: Command, addr: Seq<u64>) -> DramView<T>
        decreases self,
    {
        let child_id = addr[self.level.ord() + 1];
        let stepped = if self.tech.scope(cmd) != self.level && 0 <= child_id < self.children.len() {
            self.children.update(child_id as int, self.children[child_id as int].state_step(cmd, addr))
        } else {
            self.children
        };
        DramView {
            state: self.tech.next_state(self.level, self.state, self.has_open_row(), cmd, child_id),
            children: if self.tech.closes_rows(self.level, cmd) {
                Seq::new(stepped.len(), |i: int| stepped[i].closed())
            } else {
                stepped
            },
            ..self
        }
    }

    /// The tree after the timing update of `cmd` issued at `clk`: at this
    /// node and at every node beneath it, the issue is recorded in the
    /// history of `cmd`, and the earliest legal clock of every command is
    /// raised to what the entries of `cmd` at the node's level ask.
    pub open spec fn timing_step(self, cmd: Command, clk: u64) -> DramView<T>
        decreases self,
    {
        let ring = recorded(self.prev[cmd.ord()], clk);
        DramView {
            next_clk: Seq::new(
                self.next_clk.len(),
                |t: int| raised(self.next_clk[t], ring, self.tech.timing(self.level, cmd), t),
            ),
            prev: self.prev.update(cmd.ord(), ring),
            children: Seq::new(
                self.children.len(),
                |i: int|
                    if 0 <= i < self.children.len() {
                        self.children[i].timing_step(cmd, clk)
                    } else {
                        self
                    },
            ),
            ..self
        }
    }

    /// The tree after `cmd` has been issued at `clk`: the state update,
    /// then the timing update.
    pub open spec fn apply(self, cmd: Command, addr: Seq<u64>, clk: u64) -> DramView<T> {
        self.state_step(cmd, addr).timing_step(cmd, clk)
    }
}

impl<'a, T> Dram<'a, T> {
    /// Whether a row is open at this node or anywhere beneath it.
    pub fn any_row_open(&self) -> (open: bool)
        ensures
            open == self@.has_open_row(),
        decreases self,
    {
        if let State::Opened(_) = self.state {
            return true;
        }
        let n = self.children.len();
        let mut i: usize = 0;
        while i < n
            invariant
                i <= n,
                n == self.children@.len(),
                forall|j: int| 0 <= j < i ==> !(#[trigger] self@.children[j]).has_open_row(),
            decreases n - i,
        {
            assert(self@.children[i as int] == self.children@[i as int]@);
            if self.children[i].any_row_open() {
                return true;
            }
            i += 1;
        }
        false
    }

    /// Closes every open row, at this node and beneath it.
    pub fn close_rows(&mut self)
        ensures
            final(self)@ == old(self)@.closed(),
        decreases *old(self),
    {
        if let State::Opened(_) = self.state {
            self.state = State::Closed;
        }
        let n = self.children.len();
        let mut i: usize = 0;
        while i < n
            invariant
                i <= n,
                n == self.children@.len(),
                n == old(self).children@.len(),
                self.spec == old(self).spec,
                self.level == old(self).level,
                self.state == old(self)@.closed().state,
                self.next_clk == old(self).next_clk,
                self.prev == old(self).prev,
                forall|j: int|
                    0 <= j < i ==> (#[trigger] self.children@[j])@ == old(self).children@[j]@.closed(),
                forall|j: int| i <= j < n ==> self.children@[j] == old(self).children@[j],
            decreases n - i,
        {
            self.children[i].close_rows();
            i += 1;
        }
        assert(self@.children =~= old(self)@.closed().children);
    }
}

impl<'a, T: DramSpec> Dram<'a, T> {
    /// A new tree below a node of `level`, with `child_size[l]` nodes of
    /// level `l` under each node of the level above.
    pub fn new(spec: &'a T, level: Level, child_size: &[usize]) -> (dram: Self)
        requires
            spec.wf(),
            level.is_node(),
            level is Bank || child_size@.len() > Level::Bank.ord(),
        ensures
            dram@ == DramView::fresh(*spec, level, child_size@),
            dram@.wf(),
        decreases LEVEL_COUNT - level.ord(),
    {
        let state = T::get_start_state(&level);
        let mut children: Vec<Dram<'a, T>> = Vec::new();
        match level {
            Level::Channel | Level::Rank | Level::BankGroup => {
                let child_level = match level {
                    Level::Channel => Level::Rank,
                    Level::Rank => Level::BankGroup,
                    _ => Level::Bank,
                };
                let n = child_size[child_level.index()];
                let mut i: usize = 0;
                while i < n
                    invariant
                        i <= n,
                        spec.wf(),
                        child_level.is_node(),
                        child_level.ord() == level.ord() + 1,
                        child_level == level.next()->0,
                        child_size@.len() > Level::Bank.ord(),
                        children@.len() == i,
                        forall|j: int|
                            0 <= j < i ==> (#[trigger] children@[j])@ == DramView::fresh(
                                *spec,
                                child_level,
                                child_size@,
                            ) && children@[j]@.wf(),
                    decreases n - i,
                {
                    children.push(Dram::new(spec, child_level, child_size));
                    i += 1;
                }
            },
            _ => {},
        }
        let mut prev: Vec<VecDeque<Option<u64>>> = Vec::new();
        let mut next_clk: Vec<u64> = Vec::new();
        let mut c: usize = 0;
        while c < COMMAND_COUNT
            invariant
                c <= COMMAND_COUNT,
                spec.wf(),
                level.is_node(),
                prev@.len() == c,
                next_clk@.len() == c,
                forall|k: int| 0 <= k < c ==> next_clk@[k] == 0,
                forall|k: int|
                    0 <= k < c ==> (#[trigger] prev@[k])@ == Seq::new(
                        max_dist(spec.timing(level, Command::at(k)->0)),
                        |j: int| None::<u64>,
                    ),
            decreases COMMAND_COUNT - c,
        {
            let cmd = match Command::from_index(c) {
                Some(cmd) => cmd,
                None => Command::ACT,
            };
            let entries = spec.get_timming(&level, &cmd);
            let mut dist: usize = 0;
            let mut k: usize = 0;
            while k < entries.len()
                invariant
                    k <= entries@.len(),
                    dist == max_dist(entries@.take(k as int)),
                decreases entries@.len() - k,
            {
                assert(entries@.take(k + 1).drop_last() =~= entries@.take(k as int));
                if entries[k].dist > dist {
                    dist = entries[k].dist;
                }
                k += 1;
            }
            assert(entries@.take(k as int) =~= entries@);
            let mut ring: VecDeque<Option<u64>> = VecDeque::new();
            let mut j: usize = 0;
            while j < dist
                invariant
                    j <= dist,
                    ring@.len() == j,
                    forall|h: int| 0 <= h < j ==> ring@[h] == None::<u64>,
                decreases dist - j,
            {
                ring.push_back(None);
                j += 1;
            }
            prev.push(ring);
            next_clk.push(0);
            c += 1;
        }
        let dram = Self { spec, level, children, state, next_clk, prev };
        proof {
            let fresh = DramView::fresh(*spec, level, child_size@);
            assert(dram@.children =~= fresh.children);
            assert(dram@.next_clk =~= fresh.next_clk);
            assert(dram@.prev =~= fresh.prev);
            T::lemma_start_state_ok(level);
            assert forall|k: int| 0 <= k < COMMAND_COUNT implies #[trigger] dram@.ring_ok(k) by {}
        }
        dram
    }

    /// Issues `cmd` at `clk`: the state update, then the timing update.
    pub fn update(&mut self, cmd: &Command, addr_vec: &[u64], clk: u64)
        requires
            old(self)@.wf(),
            old(self)@.in_range(addr_vec@),
            !(*cmd is Max),
            clk + old(self).spec.max_delay() <= u64::MAX,
        ensures
            final(self)@ == old(self)@.apply(*cmd, addr_vec@, clk),
            final(self)@.wf(),
            old(self)@.same_shape(final(self)@),
            old(self)@.not_after(final(self)@),
    {
        proof {
            old(self)@.lemma_apply(*cmd, addr_vec@, clk);
            old(self)@.lemma_apply_monotonic(*cmd, addr_vec@, clk);
            old(self)@.lemma_state_step(*cmd, addr_vec@);
        }
        self.update_state(cmd, addr_vec);
        self.update_timming(cmd, addr_vec, clk);
    }

    /// The state update of `cmd`, from this node down the addressed path
    /// to the scope of `cmd`.
    pub fn update_state(&mut self, cmd: &Command, addr_vec: &[u64])
        requires
            old(self)@.wf(),
            old(self)@.in_range(addr_vec@),
            !(*cmd is Max),
        ensures
            final(self)@ == old(self)@.state_step(*cmd, addr_vec@),
        decreases *old(self),
    {
        let child_id = addr_vec[self.level.index() + 1];
        let state = self.spec.update_state(self, cmd, child_id);
        let n = self.children.len();
        let ghost stepped = self@.children;
        if self.spec.get_scope(cmd) != self.level && n > 0 {
            self.children[child_id as usize].update_state(cmd, addr_vec);
            proof {
                stepped = old(self)@.children.update(
                    child_id as int,
                    old(self)@.children[child_id as int].state_step(*cmd, addr_vec@),
                );
            }
        }
        if self.spec.precharges_all(&self.level, cmd) {
            let mut i: usize = 0;
            while i < n
                invariant
                    i <= n,
                    n == self.children@.len(),
                    n == stepped.len(),
                    self.spec == old(self).spec,
                    self.level == old(self).level,
                    self.next_clk == old(self).next_clk,
                    self.prev == old(self).prev,
                    forall|j: int| 0 <= j < i ==> (#[trigger] self.children@[j])@ == stepped[j].closed(),
                    forall|j: int| i <= j < n ==> (#[trigger] self.children@[j])@ == stepped[j],
                decreases n - i,
            {
                self.children[i].close_rows();
                i += 1;
            }
        }
        self.state = state;
        proof {
            let after = old(self)@.state_step(*cmd, addr_vec@);
            assert(self@.children =~= after.children);
        }
    }

    /// The timing update of `cmd` issued at `clk`, at this node and at
    /// every node beneath it.
    pub fn update_timming(&mut self, cmd: &Command, addr_vec: &[u64], clk: u64)
        requires
            old(self)@.wf(),
            !(*cmd is Max),
            clk + old(self).spec.max_delay() <= u64::MAX,
        ensures
            final(self)@ == old(self)@.timing_step(*cmd, clk),
        decreases *old(self),
    {
        let c = cmd.index();
        let ghost before = self@;
        proof {
            assert(before.ring_ok(c as int));
            self.spec.lemma_timing_wf(self.level, *cmd);
        }
        if self.prev[c].len() > 0 {
            self.prev[c].pop_back();
            self.prev[c].push_front(Some(clk));
        }
        let ghost ring = recorded(before.prev[c as int], clk);
        let spec = self.spec;
        let entries = spec.get_timming(&self.level, cmd);
        let mut k: usize = 0;
        while k < entries.len()
            invariant
                k <= entries@.len(),
                c == cmd.ord(),
                c < COMMAND_COUNT,
                entries@ == before.tech.timing(before.level, *cmd),
                forall|i: int|
                    0 <= i < entries@.len() ==> (#[trigger] entries@[i]).wf(before.tech.max_delay()),
                ring.len() == max_dist(entries@),
                forall|j: int|
                    0 <= j < ring.len() ==> ((#[trigger] ring[j]) matches Some(h) ==> h
                        + before.tech.max_delay() <= u64::MAX),
                self.spec == old(self).spec,
                self.level == old(self).level,
                self.state == old(self).state,
                self.children == old(self).children,
                self.prev@.len() == COMMAND_COUNT,
                self.prev@[c as int]@ == ring,
                forall|x: int| 0 <= x < COMMAND_COUNT && x != c ==> self.prev@[x] == old(self).prev@[x],
                self.next_clk@.len() == COMMAND_COUNT,
                forall|t: int|
                    0 <= t < COMMAND_COUNT ==> self.next_clk@[t] == raised(
                        before.next_clk[t],
                        ring,
                        entries@.take(k as int),
                        t,
                    ),
            decreases entries@.len() - k,
        {
            let e = entries[k];
            proof {
                assert(entries@.take(k + 1).drop_last() =~= entries@.take(k as int));
                lemma_max_dist_bounds(entries@, k as int);
            }
            if !e.sibling {
                if let Some(past) = self.prev[c][e.dist - 1] {
                    let future = past + e.val;
                    let target = e.cmd.index();
                    if future > self.next_clk[target] {
                        self.next_clk[target] = future;
                    }
                }
            }
            k += 1;
        }
        assert(entries@.take(k as int) =~= entries@);
        let n = self.children.len();
        let mut i: usize = 0;
        while i < n
            invariant
                i <= n,
                n == self.children@.len(),
                n == old(self).children@.len(),
                !(*cmd is Max),
                clk + old(self).spec.max_delay() <= u64::MAX,
                old(self)@.wf(),
                self.spec == old(self).spec,
                self.level == old(self).level,
                self.state == old(self).state,
                self@.next_clk == old(self)@.timing_step(*cmd, clk).next_clk,
                self@.prev == old(self)@.timing_step(*cmd, clk).prev,
                forall|j: int|
                    0 <= j < i ==> (#[trigger] self.children@[j])@ == old(self).children@[j]@.timing_step(
                        *cmd,
                        clk,
                    ),
                forall|j: int| i <= j < n ==> self.children@[j] == old(self).children@[j],
            decreases n - i,
        {
            assert(old(self)@.children[i as int].wf());
            self.children[i].update_timming(cmd, addr_vec, clk);
            i += 1;
        }
        assert(self@.children =~= old(self)@.timing_step(*cmd, clk).children);
    }
}

impl<'a, T: DramSpec> Dram<'a, T> {
    /// The command to issue next on the way to `cmd` at the addressed
    /// bank: the first prerequisite on the path from this node down, or
    /// `cmd` itself.
    pub fn decode(&self, cmd: &Command, addr_vec: &[u64]) -> (next: Command)
        requires
            self@.wf(),
            !(*cmd is Max),
            self@.reaches_bank(addr_vec@),
        ensures
            next == self@.resolve(*cmd, addr_vec@),
            !(next is Max),
        decreases self,
    {
        let child_index = addr_vec[self.level.index() + 1];
        if let Some(pre) = T::get_pre_cmd(self, cmd, child_index) {
            pre
        } else {
            match self.level {
                Level::Bank => *cmd,
                _ => {
                    assert(self@.children[child_index as int] == self.children@[child_index as int]@);
                    self.children[child_index as usize].decode(cmd, addr_vec)
                },
            }
        }
    }

    /// The column command that serves a request of this kind.
    pub fn get_first_cmd(&self, req_type: &ReqType) -> (cmd: Command)
        ensures
            cmd == T::first_cmd(*req_type),
            !(cmd is Max),
    {
        T::get_first_cmd(req_type)
    }

    /// Whether `cmd` may be issued at `clk`.
    pub fn check(&self, cmd: &Command, addr_vec: &[u64], clk: u64) -> (ok: bool)
        requires
            self@.wf(),
            !(*cmd is Max),
            self@.in_range(addr_vec@),
        ensures
            ok == self@.legal(*cmd, addr_vec@, clk),
        decreases self,
    {
        if clk < self.get_next_avaliable_clk(cmd) {
            return false;
        }
        if self.spec.get_scope(cmd) != self.level && self.children.len() > 0 {
            let child_index = addr_vec[self.level.index() + 1];
            return self.children[child_index as usize].check(cmd, addr_vec, clk);
        }
        true
    }

    /// The earliest clock at which `cmd` is legal at this node.
    pub fn get_next_avaliable_clk(&self, cmd: &Command) -> (clk: u64)
        requires
            self@.wf(),
            !(*cmd is Max),
        ensures
            clk == self@.next_clk[cmd.ord()],
    {
        self.next_clk[cmd.index()]
    }
}

impl<T> DramView<T> {
    /// No clock of a tree is later than itself.
    pub proof fn lemma_not_after_refl(self)
        ensures
            self.not_after(self),
        decreases self,
    {
        assert forall|i: int| 0 <= i < self.children.len() implies (#[trigger] self.children[i]).not_after(
            self.children[i],
        ) by {
            self.children[i].lemma_not_after_refl();
        }
    }

    /// `not_after` is transitive.
    pub proof fn lemma_not_after_trans(self, mid: DramView<T>, last: DramView<T>)
        requires
            self.not_after(mid),
            mid.not_after(last),
        ensures
            self.not_after(last),
        decreases self,
    {
        assert forall|i: int| 0 <= i < self.children.len() implies (#[trigger] self.children[i]).not_after(
            last.children[i],
        ) by {
            self.children[i].lemma_not_after_trans(mid.children[i], last.children[i]);
        }
    }

    /// Closing rows changes neither the shape of a tree nor a clock.
    pub proof fn lemma_closed_keeps(self)
        ensures
            self.same_shape(self.closed()),
            self.not_after(self.closed()),
        decreases self,
    {
        assert forall|i: int| 0 <= i < self.children.len() implies (#[trigger] self.children[i]).same_shape(
            self.closed().children[i],
        ) && self.children[i].not_after(self.closed().children[i]) by {
            self.children[i].lemma_closed_keeps();
        }
    }

    /// Coordinates that lead to a bank in one tree do so in every tree of
    /// the same shape, and so for coordinates in range.
    pub proof fn lemma_same_shape_paths(self, other: DramView<T>, addr: Seq<u64>)
        requires
            self.same_shape(other),
        ensures
            self.reaches_bank(addr) ==> other.reaches_bank(addr),
            self.in_range(addr) ==> other.in_range(addr),
        decreases self,
    {
        if self.level.ord() + 1 < addr.len() {
            let k = addr[self.level.ord() + 1] as int;
            if k < self.children.len() {
                self.children[k].lemma_same_shape_paths(other.children[k], addr);
            }
        }
    }

    /// `same_shape` is transitive.
    pub proof fn lemma_same_shape_trans(self, mid: DramView<T>, last: DramView<T>)
        requires
            self.same_shape(mid),
            mid.same_shape(last),
        ensures
            self.same_shape(last),
        decreases self,
    {
        assert forall|i: int| 0 <= i < self.children.len() implies (#[trigger] self.children[i]).same_shape(
            last.children[i],
        ) by {
            self.children[i].lemma_same_shape_trans(mid.children[i], last.children[i]);
        }
    }

    /// A tree has its own shape.
    pub proof fn lemma_same_shape_refl(self)
        ensures
            self.same_shape(self),
        decreases self,
    {
        assert forall|i: int| 0 <= i < self.children.len() implies (#[trigger] self.children[i]).same_shape(
            self.children[i],
        ) by {
            self.children[i].lemma_same_shape_refl();
        }
    }
}

impl<T: DramSpec> DramView<T> {
    /// Closing rows keeps a tree well formed.
    pub proof fn lemma_closed_wf(self)
        requires
            self.wf(),
        ensures
            self.closed().wf(),
        decreases self,
    {
        let c = self.closed();
        if self.state is Opened {
            T::lemma_closed_is_ok(self.level, self.state->Opened_0);
        }
        assert forall|k: int| 0 <= k < COMMAND_COUNT implies #[trigger] c.ring_ok(k) by {
            assert(self.ring_ok(k));
        }
        assert forall|i: int| 0 <= i < c.children.len() implies {
            &&& (#[trigger] c.children[i]).level.ord() == c.level.ord() + 1
            &&& c.children[i].tech == c.tech
            &&& c.children[i].wf()
        } by {
            self.children[i].lemma_closed_wf();
        }
    }

    /// What a real command resolves to is a real command.
    pub proof fn lemma_resolve_real(self, cmd: Command, addr: Seq<u64>)
        requires
            !(cmd is Max),
        ensures
            !(self.resolve(cmd, addr) is Max),
        decreases self,
    {
        let child_id = addr[self.level.ord() + 1];
        T::lemma_pre_cmd_real(self.level, self.state, self.has_open_row(), cmd, child_id);
        if T::pre_cmd(self.level, self.state, self.has_open_row(), cmd, child_id) is None && !(self.level is Bank)
            && child_id < self.children.len() {
            self.children[child_id as int].lemma_resolve_real(cmd, addr);
        }
    }

    /// In a new tree, coordinates below the sizes of their levels lead to
    /// a bank.
    pub proof fn lemma_fresh_reaches(tech: T, level: Level, sizes: Seq<usize>, addr: Seq<u64>)
        requires
            level.is_node(),
            sizes.len() > Level::Bank.ord(),
            addr.len() > Level::Bank.ord() + 1,
            forall|l: int| level.ord() < l <= Level::Bank.ord() ==> addr[l] < #[trigger] sizes[l],
        ensures
            Self::fresh(tech, level, sizes).reaches_bank(addr),
        decreases LEVEL_COUNT - level.ord(),
    {
        if !(level is Bank) {
            Self::lemma_fresh_reaches(tech, level.next()->0, sizes, addr);
        }
    }

    /// Coordinates that lead to a bank are in range.
    pub proof fn lemma_reaches_in_range(self, addr: Seq<u64>)
        requires
            self.wf(),
            self.reaches_bank(addr),
        ensures
            self.in_range(addr),
        decreases self,
    {
        if !(self.level is Bank) {
            let k = addr[self.level.ord() + 1] as int;
            self.children[k].lemma_reaches_in_range(addr);
        }
    }

    /// The state update keeps a tree well formed and keeps its shape.
    pub proof fn lemma_state_step(self, cmd: Command, addr: Seq<u64>)
        requires
            self.wf(),
            self.in_range(addr),
        ensures
            self.state_step(cmd, addr).wf(),
            self.same_shape(self.state_step(cmd, addr)),
        decreases self,
    {
        let k = addr[self.level.ord() + 1];
        let after = self.state_step(cmd, addr);
        let descend = self.tech.scope(cmd) != self.level && 0 <= k < self.children.len();
        let stepped = if descend {
            self.children.update(k as int, self.children[k as int].state_step(cmd, addr))
        } else {
            self.children
        };
        self.tech.lemma_next_state_ok(self.level, self.state, self.has_open_row(), cmd, k);
        assert forall|c: int| 0 <= c < COMMAND_COUNT implies #[trigger] after.ring_ok(c) by {
            assert(self.ring_ok(c));
        }
        assert forall|i: int| 0 <= i < self.children.len() implies {
            &&& (#[trigger] after.children[i]).level.ord() == after.level.ord() + 1
            &&& after.children[i].tech == after.tech
            &&& after.children[i].wf()
            &&& self.children[i].same_shape(after.children[i])
        } by {
            if descend && i == k {
                self.children[i].lemma_state_step(cmd, addr);
            } else {
                self.children[i].lemma_same_shape_refl();
            }
            if self.tech.closes_rows(self.level, cmd) {
                stepped[i].lemma_closed_wf();
                stepped[i].lemma_closed_keeps();
                self.children[i].lemma_same_shape_trans(stepped[i], stepped[i].closed());
            }
        }
    }

    /// The timing update keeps a tree well formed and keeps its shape.
    pub proof fn lemma_timing_step(self, cmd: Command, clk: u64)
        requires
            self.wf(),
            !(cmd is Max),
            clk + self.tech.max_delay() <= u64::MAX,
        ensures
            self.timing_step(cmd, clk).wf(),
            self.same_shape(self.timing_step(cmd, clk)),
        decreases self,
    {
        let after = self.timing_step(cmd, clk);
        assert forall|c: int| 0 <= c < COMMAND_COUNT implies #[trigger] after.ring_ok(c) by {
            assert(self.ring_ok(c));
        }
        assert forall|i: int| 0 <= i < self.children.len() implies {
            &&& (#[trigger] after.children[i]).level.ord() == after.level.ord() + 1
            &&& after.children[i].tech == after.tech
            &&& after.children[i].wf()
            &&& self.children[i].same_shape(after.children[i])
        } by {
            self.children[i].lemma_timing_step(cmd, clk);
        }
    }

    /// Issuing a command keeps a tree well formed and keeps its shape.
    pub proof fn lemma_apply(self, cmd: Command, addr: Seq<u64>, clk: u64)
        requires
            self.wf(),
            self.in_range(addr),
            !(cmd is Max),
            clk + self.tech.max_delay() <= u64::MAX,
        ensures
            self.apply(cmd, addr, clk).wf(),
            self.same_shape(self.apply(cmd, addr, clk)),
    {
        let mid = self.state_step(cmd, addr);
        self.lemma_state_step(cmd, addr);
        mid.lemma_timing_step(cmd, clk);
        self.lemma_same_shape_trans(mid, mid.timing_step(cmd, clk));
    }

    /// The state update changes no clock.
    pub proof fn lemma_state_step_monotonic(self, cmd: Command, addr: Seq<u64>)
        ensures
            self.not_after(self.state_step(cmd, addr)),
        decreases self,
    {
        let k = addr[self.level.ord() + 1];
        let after = self.state_step(cmd, addr);
        let descend = self.tech.scope(cmd) != self.level && 0 <= k < self.children.len();
        let stepped = if descend {
            self.children.update(k as int, self.children[k as int].state_step(cmd, addr))
        } else {
            self.children
        };
        assert forall|i: int| 0 <= i < self.children.len() implies (#[trigger] self.children[i]).not_after(
            after.children[i],
        ) by {
            if descend && i == k {
                self.children[i].lemma_state_step_monotonic(cmd, addr);
            } else {
                self.children[i].lemma_not_after_refl();
            }
            if self.tech.closes_rows(self.level, cmd) {
                stepped[i].lemma_closed_keeps();
                self.children[i].lemma_not_after_trans(stepped[i], stepped[i].closed());
            }
        }
    }

    /// The timing update lowers no clock.
    pub proof fn lemma_timing_step_monotonic(self, cmd: Command, clk: u64)
        ensures
            self.not_after(self.timing_step(cmd, clk)),
        decreases self,
    {
        let after = self.timing_step(cmd, clk);
        let ring = recorded(self.prev[cmd.ord()], clk);
        assert forall|t: int| 0 <= t < self.next_clk.len() implies self.next_clk[t] <= after.next_clk[t] by {
            lemma_raised_not_before(self.next_clk[t], ring, self.tech.timing(self.level, cmd), t);
        }
        assert forall|i: int| 0 <= i < self.children.len() implies (#[trigger] self.children[i]).not_after(
            after.children[i],
        ) by {
            self.children[i].lemma_timing_step_monotonic(cmd, clk);
        }
    }

    /// Monotonic timing: whatever command is issued, on whatever
    /// coordinates and at whatever clock, no node of the tree has the
    /// earliest legal clock of any command lowered.
    pub proof fn lemma_apply_monotonic(self, cmd: Command, addr: Seq<u64>, clk: u64)
        ensures
            self.not_after(self.apply(cmd, addr, clk)),
    {
        let mid = self.state_step(cmd, addr);
        self.lemma_state_step_monotonic(cmd, addr);
        mid.lemma_timing_step_monotonic(cmd, clk);
        self.lemma_not_after_trans(mid, mid.timing_step(cmd, clk));
    }
}

} // verus!
