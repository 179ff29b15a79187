use vstd::prelude::*;
use vstd::arithmetic::power2::pow2;
use std::collections::VecDeque;
use crate::config::Config;
use crate::controller::{Controller, ControllerView};
use crate::dram::{Dram, DramSpec, DramView};
use crate::request::Request;

verus! {

/// Number of hierarchy levels (`Level::Max` is not one).
pub const LEVEL_COUNT: usize = 6;

/// The levels of the device hierarchy, from coarse to fine. `Max` is the end
/// marker of the enumeration.
///
/// Channel, rank, bank group and bank are nodes of the device tree. A row is
/// the state of its bank, and a column has no state: neither is a node.
#[derive(Debug, Clone, Copy, PartialEq, Eq, Structural)]
pub enum Level {
    Channel,
    Rank,
    BankGroup,
    Bank,
    Row,
    Column,
    Max,
}

/// The order in which the address mapper takes the levels' fields from an
/// address, lowest bits first. The name lists the levels from the highest
/// bits down: `RoBaRaCoCh` has the channel in the lowest bits.
#[derive(Debug, Clone, Copy, PartialEq, Eq, Structural)]
pub enum MappingType {
    ChRaBaRoCo,
    RoBaRaCoCh,
    CoRoBaRaCh,
    RoCoBaRaCh,
}

impl Level {
    /// Position of the level in the enumeration; the index of its
    /// coordinate in an address vector.
    pub open spec fn ord(self) -> int {
        match self {
            Level::Channel => 0,
            Level::Rank => 1,
            Level::BankGroup => 2,
            Level::Bank => 3,
            Level::Row => 4,
            Level::Column => 5,
            Level::Max => 6,
        }
    }

    /// The level at position `i`, if there is one.
    pub open spec fn at(i: int) -> Option<Level> {
        if i == 0 {
            Some(Level::Channel)
        } else if i == 1 {
            Some(Level::Rank)
        } else if i == 2 {
            Some(Level::BankGroup)
        } else if i == 3 {
            Some(Level::Bank)
        } else if i == 4 {
            Some(Level::Row)
        } else if i == 5 {
            Some(Level::Column)
        } else if i == 6 {
            Some(Level::Max)
        } else {
            None
        }
    }

    /// Whether a device tree has nodes of this level.
    pub open spec fn is_node(self) -> bool {
        self is Channel || self is Rank || self is BankGroup || self is Bank
    }

    /// The level below, `None` below the end marker.
    pub open spec fn next(self) -> Option<Level> {
        match self {
            Level::Channel => Some(Level::Rank),
            Level::Rank => Some(Level::BankGroup),
            Level::BankGroup => Some(Level::Bank),
            Level::Bank => Some(Level::Row),
            Level::Row => Some(Level::Column),
            Level::Column => Some(Level::Max),
            Level::Max => None,
        }
    }

    /// The position of the level, as an index.
    pub fn index(&self) -> (i: usize)
        ensures
            i == self.ord(),
            i <= LEVEL_COUNT,
            !(*self is Max) ==> i < LEVEL_COUNT,
            self.is_node() ==> i + 1 < LEVEL_COUNT,
    {
        match self {
            Level::Channel => 0,
            Level::Rank => 1,
            Level::BankGroup => 2,
            Level::Bank => 3,
            Level::Row => 4,
            Level::Column => 5,
            Level::Max => 6,
        }
    }

    /// The level at index `i`; `None` past the end marker.
    pub fn from_index(i: usize) -> (l: Option<Level>)
        ensures
            l == Level::at(i as int),
            l matches Some(k) ==> k.ord() == i,
            l is Some <==> i <= LEVEL_COUNT,
    {
        match i {
            0 => Some(Level::Channel),
            1 => Some(Level::Rank),
            2 => Some(Level::BankGroup),
            3 => Some(Level::Bank),
            4 => Some(Level::Row),
            5 => Some(Level::Column),
            6 => Some(Level::Max),
            _ => None,
        }
    }

    /// The level below this one: `Max` below `Column`, nothing below `Max`.
    pub fn next_level(&self) -> (l: Option<Level>)
        ensures
            l == self.next(),
            l matches Some(k) ==> k.ord() == self.ord() + 1,
            l is None <==> *self is Max,
    {
        match self {
            Level::Channel => Some(Level::Rank),
            Level::Rank => Some(Level::BankGroup),
            Level::BankGroup => Some(Level::Bank),
            Level::Bank => Some(Level::Row),
            Level::Row => Some(Level::Column),
            Level::Column => Some(Level::Max),
            Level::Max => None,
        }
    }
}

/// Looking a level up by its own position gives the level back.
pub proof fn lemma_level_round_trip(l: Level)
    ensures
        Level::at(l.ord()) == Some(l),
        0 <= l.ord() <= LEVEL_COUNT,
        l.ord() == LEVEL_COUNT <==> l is Max,
{
}

/// Width in bits of the block that an address names: the six lowest bits
/// of an address are not mapped.
pub const BLOCK_BITS: usize = 6;

impl MappingType {
    /// The levels in the order in which their fields are taken from an
    /// address, lowest bits first.
    pub open spec fn order(self) -> Seq<usize> {
        match self {
            MappingType::ChRaBaRoCo => seq![5usize, 4, 3, 2, 1, 0],
            MappingType::RoBaRaCoCh => seq![0usize, 5, 1, 2, 3, 4],
            MappingType::CoRoBaRaCh => seq![0usize, 1, 2, 3, 4, 5],
            MappingType::RoCoBaRaCh => seq![0usize, 1, 2, 3, 5, 4],
        }
    }

    /// The levels in the order in which their fields are taken from an
    /// address, lowest bits first.
    pub fn get_slice_sequence(&self) -> (sequence: [usize; 6])
        ensures
            sequence@ == self.order(),
            is_permutation(sequence@),
    {
        let sequence = match self {
            MappingType::ChRaBaRoCo => [5, 4, 3, 2, 1, 0],
            MappingType::RoBaRaCoCh => [0, 5, 1, 2, 3, 4],
            MappingType::CoRoBaRaCh => [0, 1, 2, 3, 4, 5],
            MappingType::RoCoBaRaCh => [0, 1, 2, 3, 5, 4],
        };
        sequence
    }
}

/// Whether `order` names every level once.
pub open spec fn is_permutation(order: Seq<usize>) -> bool {
    &&& order.len() == LEVEL_COUNT
    &&& forall|k: int| 0 <= k < order.len() ==> #[trigger] order[k] < LEVEL_COUNT
    &&& forall|j: int, k: int| 0 <= j < k < order.len() ==> order[j] != order[k]
}

/// The coordinates of `addr`: in the order `order`, each level takes the
/// lowest `bits[level]` bits of what is left of the address; `vec` gives
/// the coordinates of the levels that `order` does not name.
pub open spec fn slice_fields(addr: nat, bits: Seq<usize>, order: Seq<usize>, vec: Seq<u64>) -> Seq<u64>
    decreases order.len(),
{
    if order.len() == 0 {
        vec
    } else {
        let level = order[0] as int;
        let width = pow2(bits[level] as nat);
        slice_fields(addr / width, bits, order.drop_first(), vec.update(level, (addr % width) as u64))
    }
}

/// The address whose fields, taken in the order `order`, are the
/// coordinates `vec`.
pub open spec fn assemble(vec: Seq<u64>, bits: Seq<usize>, order: Seq<usize>) -> nat
    decreases order.len(),
{
    if order.len() == 0 {
        0
    } else {
        let level = order[0] as int;
        vec[level] as nat + pow2(bits[level] as nat) * assemble(
            vec,
            bits,
            order.drop_first(),
        )
    }
}

/// The number of address bits that the levels of `order` take together.
pub open spec fn total_bits(bits: Seq<usize>, order: Seq<usize>) -> nat
    decreases order.len(),
{
    if order.len() == 0 {
        0
    } else {
        bits[order[0] as int] as nat + total_bits(bits, order.drop_first())
    }
}

/// The coordinates of the block address `addr` under a mapping: one per
/// level, taken from the address without its `BLOCK_BITS` lowest bits.
pub open spec fn map_addr(addr: u64, bits: Seq<usize>, mapping: MappingType) -> Seq<u64> {
    slice_fields(
        addr as nat / pow2(BLOCK_BITS as nat),
        bits,
        mapping.order(),
        Seq::new(bits.len(), |l: int| 0u64),
    )
}

/// Slicing keeps the length of the vector and the coordinates of the
/// levels that `order` does not name, and gives every level that it names
/// a coordinate below two to the power of its width.
pub proof fn lemma_slice_fields_frame(addr: nat, bits: Seq<usize>, order: Seq<usize>, vec: Seq<u64>)
    requires
        forall|k: int| 0 <= k < order.len() ==> #[trigger] order[k] < vec.len(),
        forall|k: int| 0 <= k < order.len() ==> order[k] < bits.len() && bits[#[trigger] order[k] as int] < 64,
    ensures
        slice_fields(addr, bits, order, vec).len() == vec.len(),
        forall|l: int|
            0 <= l < vec.len() && !order.contains(l as usize) ==> #[trigger] slice_fields(addr, bits, order, vec)[l]
                == vec[l],
        forall|k: int|
            0 <= k < order.len() ==> slice_fields(addr, bits, order, vec)[#[trigger] order[k] as int]
                < pow2(bits[order[k] as int] as nat),
    decreases order.len(),
{
    if order.len() > 0 {
        let level = order[0] as int;
        let width = pow2(bits[level] as nat);
        let rest = order.drop_first();
        let low = (addr % width) as u64;
        let next = vec.update(level, low);
        vstd::bits::lemma_u64_pow2_no_overflow(bits[level] as nat);
        vstd::arithmetic::div_mod::lemma_mod_bound(addr as int, width as int);
        assert forall|k: int| 0 <= k < rest.len() implies #[trigger] rest[k] < next.len() && rest[k] < bits.len()
            && bits[rest[k] as int] < 64 by {}
        lemma_slice_fields_frame(addr / width, bits, rest, next);
        let out = slice_fields(addr, bits, order, vec);
        assert forall|l: int| 0 <= l < vec.len() && !order.contains(l as usize) implies #[trigger] out[l]
            == vec[l] by {
            if rest.contains(l as usize) {
                let k = choose|k: int| 0 <= k < rest.len() && rest[k] == l as usize;
                assert(order[k + 1] == l as usize);
            }
        }
        assert forall|k: int| 0 <= k < order.len() implies out[#[trigger] order[k] as int]
            < pow2(bits[order[k] as int] as nat) by {
            if k > 0 {
                assert(rest[k - 1] == order[k]);
            } else if rest.contains(order[0]) {
                let j = choose|j: int| 0 <= j < rest.len() && rest[j] == order[0];
                assert(rest[j] == order[j + 1]);
            }
        }
    }
}

/// Round trip of the mapper: where `order` names no level twice, the
/// address assembled from the coordinates of `addr` is `addr` without the
/// bits above those that the levels take.
pub proof fn lemma_slice_assemble(addr: nat, bits: Seq<usize>, order: Seq<usize>, vec: Seq<u64>)
    requires
        forall|k: int| 0 <= k < order.len() ==> #[trigger] order[k] < vec.len(),
        forall|k: int| 0 <= k < order.len() ==> order[k] < bits.len() && bits[#[trigger] order[k] as int] < 64,
        forall|j: int, k: int| 0 <= j < k < order.len() ==> order[j] != order[k],
    ensures
        assemble(slice_fields(addr, bits, order, vec), bits, order) == addr % pow2(
            total_bits(bits, order),
        ),
    decreases order.len(),
{
    if order.len() == 0 {
        vstd::arithmetic::power2::lemma2_to64();
    } else {
        let level = order[0] as int;
        let width = pow2(bits[level] as nat);
        let rest = order.drop_first();
        let low = (addr % width) as u64;
        let next = vec.update(level, low);
        let out = slice_fields(addr, bits, order, vec);
        let upper = pow2(total_bits(bits, rest));
        vstd::bits::lemma_u64_pow2_no_overflow(bits[level] as nat);
        vstd::arithmetic::power2::lemma_pow2_pos(total_bits(bits, rest));
        vstd::arithmetic::div_mod::lemma_mod_bound(addr as int, width as int);
        assert forall|k: int| 0 <= k < rest.len() implies #[trigger] rest[k] < next.len() && rest[k] < bits.len()
            && bits[rest[k] as int] < 64 by {}
        assert forall|j: int, k: int| 0 <= j < k < rest.len() implies rest[j] != rest[k] by {}
        lemma_slice_assemble(addr / width, bits, rest, next);
        lemma_slice_fields_frame(addr / width, bits, rest, next);
        assert(!rest.contains(order[0])) by {
            if rest.contains(order[0]) {
                let k = choose|k: int| 0 <= k < rest.len() && rest[k] == order[0];
                assert(order[k + 1] == order[0]);
            }
        }
        vstd::arithmetic::power2::lemma_pow2_adds(bits[level] as nat, total_bits(bits, rest));
        vstd::arithmetic::div_mod::lemma_mod_breakdown(addr as int, width as int, upper as int);
    }
}

/// Round trip of the mapper, for every mapping and every address whose
/// block address fits in the bits that the levels take: the address
/// assembled from the coordinates, moved up past the block bits, is the
/// address with its block bits cleared.
pub proof fn lemma_address_round_trip(addr: u64, bits: Seq<usize>, mapping: MappingType)
    requires
        bits.len() == LEVEL_COUNT,
        forall|l: int| 0 <= l < LEVEL_COUNT ==> #[trigger] bits[l] < 64,
        addr / 64 < pow2(total_bits(bits, mapping.order())),
    ensures
        assemble(map_addr(addr, bits, mapping), bits, mapping.order()) * 64 == addr - addr % 64,
{
    let order = mapping.order();
    let zero = Seq::new(bits.len(), |l: int| 0u64);
    vstd::arithmetic::power2::lemma2_to64();
    assert forall|k: int| 0 <= k < order.len() implies #[trigger] order[k] < zero.len() && order[k] < bits.len()
        && bits[order[k] as int] < 64 by {}
    lemma_slice_assemble(addr as nat / 64, bits, order, zero);
    vstd::arithmetic::div_mod::lemma_small_mod(
        addr as nat / 64,
        pow2(total_bits(bits, order)),
    );
    vstd::arithmetic::div_mod::lemma_fundamental_div_mod(addr as int, 64);
}

/// Takes the lowest `bits` bits off `addr` and returns them.
pub fn slicing_lower_bits(addr: &mut u64, bits: usize) -> (lower: u64)
    requires
        bits < 64,
    ensures
        lower == *old(addr) as nat % pow2(bits as nat),
        *final(addr) == *old(addr) as nat / pow2(bits as nat),
{
    let shift = bits as u64;
    proof {
        vstd::bits::lemma_u64_pow2_no_overflow(bits as nat);
        vstd::bits::lemma_u64_shl_is_mul(1, shift);
        vstd::bits::lemma_u64_shr_is_div(*addr, shift);
        vstd::bits::lemma_u64_low_bits_mask_is_mod(*addr, bits as nat);
    }
    let mask: u64 = (1u64 << shift) - 1;
    let lower_bits = *addr & mask;
    *addr = *addr >> shift;
    lower_bits
}

/// Drops the lowest `bits` bits of `addr`.
pub fn clear_lower_bits(addr: &mut u64, bits: usize)
    requires
        bits < 64,
    ensures
        *final(addr) == *old(addr) as nat / pow2(bits as nat),
{
    let shift = bits as u64;
    proof {
        vstd::bits::lemma_u64_pow2_no_overflow(bits as nat);
        vstd::bits::lemma_u64_shr_is_div(*addr, shift);
    }
    *addr = *addr >> shift;
}

/// Fills `addr_vec` with the coordinates of `addr`: in the order
/// `sequence`, each level takes the lowest `addr_bits[level]` bits of what
/// is left of the address.
pub fn setup_addr_vec(addr: u64, addr_bits: &[usize], addr_vec: &mut [u64], sequence: &[usize])
    requires
        forall|k: int| 0 <= k < sequence@.len() ==> #[trigger] sequence@[k] < old(addr_vec)@.len(),
        forall|k: int|
            0 <= k < sequence@.len() ==> sequence@[k] < addr_bits@.len() && addr_bits@[#[trigger] sequence@[k] as int]
                < 64,
    ensures
        final(addr_vec)@ == slice_fields(addr as nat, addr_bits@, sequence@, old(addr_vec)@),
{
    let mut addr = addr;
    let ghost start = addr;
    let mut k: usize = 0;
    assert(sequence@.skip(0) =~= sequence@);
    while k < sequence.len()
        invariant
            k <= sequence@.len(),
            addr_vec@.len() == old(addr_vec)@.len(),
            forall|i: int| 0 <= i < sequence@.len() ==> #[trigger] sequence@[i] < addr_vec@.len(),
            forall|i: int|
                0 <= i < sequence@.len() ==> sequence@[i] < addr_bits@.len() && addr_bits@[#[trigger] sequence@[i] as int]
                    < 64,
            slice_fields(start as nat, addr_bits@, sequence@, old(addr_vec)@) == slice_fields(
                addr as nat,
                addr_bits@,
                sequence@.skip(k as int),
                addr_vec@,
            ),
        decreases sequence@.len() - k,
    {
        let level = sequence[k];
        assert(sequence@.skip(k as int).drop_first() =~= sequence@.skip(k + 1));
        let field = slicing_lower_bits(&mut addr, addr_bits[level]);
        addr_vec[level] = field;
        k += 1;
    }
}

/// Whether `order` names level `l`.
pub open spec fn names(order: Seq<usize>, l: int) -> bool {
    exists|k: int| 0 <= k < order.len() && #[trigger] order[k] == l
}

/// Slicing gives the levels that `order` names the same coordinates
/// whatever the vector held before.
pub proof fn lemma_slice_fields_same(addr: nat, bits: Seq<usize>, order: Seq<usize>, a: Seq<u64>, b: Seq<u64>)
    requires
        a.len() == b.len(),
        forall|k: int| 0 <= k < order.len() ==> #[trigger] order[k] < a.len(),
    ensures
        slice_fields(addr, bits, order, a).len() == slice_fields(addr, bits, order, b).len(),
        forall|l: int|
            0 <= l < a.len() && (a[l] == b[l] || names(order, l)) ==> #[trigger] slice_fields(addr, bits, order, a)[l]
                == slice_fields(addr, bits, order, b)[l],
    decreases order.len(),
{
    if order.len() > 0 {
        let level = order[0] as int;
        let width = pow2(bits[level] as nat);
        let rest = order.drop_first();
        let low = (addr % width) as u64;
        assert forall|k: int| 0 <= k < rest.len() implies #[trigger] rest[k] < a.len() by {}
        vstd::arithmetic::power2::lemma_pow2_pos(bits[level] as nat);
        lemma_slice_fields_same(addr / width, bits, rest, a.update(level, low), b.update(level, low));
        assert forall|l: int| 0 <= l < a.len() && (a[l] == b[l] || names(order, l)) implies #[trigger] slice_fields(
            addr,
            bits,
            order,
            a,
        )[l] == slice_fields(addr, bits, order, b)[l] by {
            if a[l] != b[l] && l != level {
                let k = choose|k: int| 0 <= k < order.len() && #[trigger] order[k] == l;
                assert(rest[k - 1] == order[k]);
            }
        }
    }
}

/// Every mapping names every level.
pub proof fn lemma_order_covers(mapping: MappingType, l: int)
    requires
        0 <= l < LEVEL_COUNT,
    ensures
        mapping.order().contains(l as usize),
        is_permutation(mapping.order()),
{
    let order = mapping.order();
    let k: int = match mapping {
        MappingType::ChRaBaRoCo => 5 - l,
        MappingType::RoBaRaCoCh => if l == 0 {
            0
        } else if l == 5 {
            1
        } else {
            l + 1
        },
        MappingType::CoRoBaRaCh => l,
        MappingType::RoCoBaRaCh => if l == 4 {
            5
        } else if l == 5 {
            4
        } else {
            l
        },
    };
}

/// The coordinates of an address do not depend on what the vector held
/// before, and each is below two to the power of its level's width.
pub proof fn lemma_map_addr(addr: u64, bits: Seq<usize>, mapping: MappingType, vec: Seq<u64>)
    requires
        bits.len() == LEVEL_COUNT,
        vec.len() == LEVEL_COUNT,
        forall|l: int| 0 <= l < LEVEL_COUNT ==> #[trigger] bits[l] < 64,
    ensures
        slice_fields(addr as nat / pow2(BLOCK_BITS as nat), bits, mapping.order(), vec)
            == map_addr(addr, bits, mapping),
        map_addr(addr, bits, mapping).len() == LEVEL_COUNT,
        forall|l: int|
            0 <= l < LEVEL_COUNT ==> #[trigger] map_addr(addr, bits, mapping)[l] < pow2(
                bits[l] as nat,
            ),
{
    let order = mapping.order();
    let block = addr as nat / pow2(BLOCK_BITS as nat);
    let zero = Seq::new(bits.len(), |l: int| 0u64);
    lemma_order_covers(mapping, 0);
    assert forall|k: int| 0 <= k < order.len() implies #[trigger] order[k] < zero.len() && order[k] < bits.len()
        && bits[order[k] as int] < 64 by {}
    lemma_slice_fields_same(block, bits, order, vec, zero);
    lemma_slice_fields_frame(block, bits, order, zero);
    lemma_slice_fields_frame(block, bits, order, vec);
    assert forall|l: int| 0 <= l < LEVEL_COUNT implies #[trigger] map_addr(addr, bits, mapping)[l]
        < pow2(bits[l] as nat) && slice_fields(block, bits, order, vec)[l] == map_addr(
        addr,
        bits,
        mapping,
    )[l] by {
        lemma_order_covers(mapping, l);
        let k = choose|k: int| 0 <= k < order.len() && order[k] == l as usize;
        assert(map_addr(addr, bits, mapping)[order[k] as int] < pow2(
            bits[order[k] as int] as nat,
        ));
    }
}

/// The mathematical value of a memory: the clock, the width of each
/// level's address field, the mapping, the controllers by channel, and the
/// completed requests that have not been received yet.
pub ghost struct MemoryView<T> {
    pub clk: u64,
    pub addr_bits: Seq<usize>,
    pub mapping_type: MappingType,
    pub controllers: Seq<ControllerView<T>>,
    pub ret_queue: Seq<Request>,
}

/// The controller after a cycle at `clk`, without the request that the
/// memory collects from it: the front of its finished queue.
pub open spec fn collected<T: DramSpec>(controller: ControllerView<T>, clk: u64) -> ControllerView<T> {
    let after = controller.tick(clk);
    if after.finished.len() > 0 {
        ControllerView { finished: after.finished.drop_first(), ..after }
    } else {
        after
    }
}

/// The requests that the memory collects in a cycle at `clk`: of each
/// controller, in order, the front of its finished queue after the cycle.
pub open spec fn returned<T: DramSpec>(controllers: Seq<ControllerView<T>>, clk: u64) -> Seq<Request>
    decreases controllers.len(),
{
    if controllers.len() == 0 {
        Seq::empty()
    } else {
        let after = controllers.last().tick(clk);
        returned(controllers.drop_last(), clk) + if after.finished.len() > 0 {
            seq![after.finished[0]]
        } else {
            Seq::empty()
        }
    }
}

/// The number of requests that wait for a command in the controllers.
pub open spec fn waiting<T: DramSpec>(controllers: Seq<ControllerView<T>>) -> nat
    decreases controllers.len(),
{
    if controllers.len() == 0 {
        0
    } else {
        waiting(controllers.drop_last()) + controllers.last().waiting()
    }
}

impl<T: DramSpec> MemoryView<T> {
    /// Whether `coords` are coordinates that the mapper can give: one per
    /// level, each below two to the power of its level's width.
    pub open spec fn fits(self, coords: Seq<u64>) -> bool {
        &&& coords.len() == self.addr_bits.len()
        &&& forall|l: int|
            0 <= l < coords.len() ==> #[trigger] coords[l] < pow2(
                self.addr_bits[l] as nat,
            )
    }

    /// Whether `coords` name a channel of the memory and a bank of that
    /// channel.
    pub open spec fn routes(self, coords: Seq<u64>) -> bool {
        &&& coords.len() > 0
        &&& coords[0] < self.controllers.len()
        &&& self.controllers[coords[0] as int].channel.reaches_bank(coords)
    }

    /// Well-formedness: an address field of less than 64 bits for every
    /// level, well-formed controllers, and a bank for every coordinate
    /// vector that the mapper can give.
    pub open spec fn wf(self) -> bool {
        &&& self.addr_bits.len() == LEVEL_COUNT
        &&& forall|l: int| 0 <= l < LEVEL_COUNT ==> #[trigger] self.addr_bits[l] < 64
        &&& forall|i: int| 0 <= i < self.controllers.len() ==> (#[trigger] self.controllers[i]).wf()
        &&& forall|coords: Seq<u64>| #[trigger] self.fits(coords) ==> self.routes(coords)
    }

    /// The coordinates of a request: its own if it has been set up, else
    /// those of its address.
    pub open spec fn coords_of(self, req: Request) -> Seq<u64> {
        if req.done_setup {
            req.addr_vec@
        } else {
            map_addr(req.addr, self.addr_bits, self.mapping_type)
        }
    }

    /// Whether `sent` is `req` after its setup: the same request, with
    /// its coordinates filled in.
    pub open spec fn is_setup_of(self, sent: Request, req: Request) -> bool {
        &&& sent.addr == req.addr
        &&& sent.addr_vec@ == self.coords_of(req)
        &&& sent.done_setup
        &&& sent.req_type == req.req_type
        &&& sent.arrival_time == req.arrival_time
        &&& sent.finish_time == req.finish_time
    }

    /// The memory after `sent` has been offered to the controller of its
    /// channel.
    pub open spec fn send(self, sent: Request) -> MemoryView<T> {
        let channel = sent.addr_vec@[0] as int;
        MemoryView {
            controllers: self.controllers.update(channel, self.controllers[channel].enqueue(sent)),
            ..self
        }
    }

    /// Whether two memories have as many controllers, each over a channel
    /// of the same technology.
    pub open spec fn same_techs(self, other: MemoryView<T>) -> bool {
        &&& self.controllers.len() == other.controllers.len()
        &&& forall|i: int|
            0 <= i < self.controllers.len() ==> (#[trigger] self.controllers[i]).channel.tech
                == other.controllers[i].channel.tech
    }

    /// Whether the clock can advance by one cycle and every controller
    /// can issue a command at the new clock.
    pub open spec fn can_tick(self) -> bool {
        &&& self.clk < u64::MAX
        &&& forall|i: int|
            0 <= i < self.controllers.len() ==> (#[trigger] self.controllers[i]).clock_ok((self.clk + 1) as u64)
    }

    /// The memory after one cycle: the clock advances by one, every
    /// controller takes a cycle at the new clock, and the front of each
    /// finished queue is collected.
    pub open spec fn tick(self) -> MemoryView<T> {
        let clk = (self.clk + 1) as u64;
        MemoryView {
            clk,
            controllers: Seq::new(self.controllers.len(), |i: int| collected(self.controllers[i], clk)),
            ret_queue: self.ret_queue + returned(self.controllers, clk),
            ..self
        }
    }
}

/// What a memory offers to the processor side.
///
/// The spec functions say when a method may be called; what a method does
/// is stated by the memory that implements it.
pub trait MemoryTrait {
    /// Whether the memory can take a cycle.
    spec fn can_tick(&self) -> bool;

    /// Whether the memory can be offered `req`.
    spec fn can_send(&self, req: Request) -> bool;

    /// Whether the number of waiting requests fits in a `usize`.
    spec fn can_count(&self) -> bool;

    /// Advances the memory by one cycle.
    fn tick(&mut self)
        requires
            old(self).can_tick(),
    ;

    /// Offers a request to the memory; hands it back if the memory cannot
    /// take it now.
    fn try_send(&mut self, req: Request) -> (result: Result<(), Request>)
        requires
            old(self).can_send(req),
    ;

    /// Receives a completed request, if there is one.
    fn try_recv(&mut self) -> (req: Option<Request>)
    ;

    /// The number of requests that wait for a command.
    fn pending_requests(&self) -> (n: usize)
        requires
            self.can_count(),
    ;
}

/// Whether every coordinate that the mapper can give for a level of the
/// tree names an instance of that level: the technology has one field
/// width and one count per level, each width is below 64, and two to the
/// power of the width of a channel, rank, bank group or bank is at most
/// the count of that level.
pub open spec fn addressable<T: DramSpec>(tech: T) -> bool {
    &&& tech.addr_bits().len() == LEVEL_COUNT
    &&& tech.child_size().len() == LEVEL_COUNT
    &&& forall|l: int| 0 <= l < LEVEL_COUNT ==> #[trigger] tech.addr_bits()[l] < 64
    &&& forall|l: int|
        0 <= l <= Level::Bank.ord() ==> pow2(tech.addr_bits()[l] as nat)
            <= #[trigger] tech.child_size()[l]
}

/// Whether the controllers are those of a memory for `tech`: one for each
/// channel that `tech` counts, each well formed, over a channel of the
/// shape of a new tree.
pub open spec fn built_for<T: DramSpec>(controllers: Seq<ControllerView<T>>, tech: T) -> bool {
    &&& controllers.len() == tech.child_size()[0]
    &&& forall|i: int|
        0 <= i < controllers.len() ==> {
            &&& (#[trigger] controllers[i]).wf()
            &&& DramView::fresh(tech, Level::Channel, tech.child_size()).same_shape(controllers[i].channel)
        }
}

/// A memory of one controller per channel.
pub struct SimpleMemory<'a, T> {
    clk: u64,
    addr_bits: Vec<usize>,
    mapping_type: MappingType,
    controllers: Vec<Controller<'a, T>>,
    ret_queue: VecDeque<Request>,
}

impl<'a, T: DramSpec> SimpleMemory<'a, T> {
    /// The mathematical value of the memory.
    pub closed spec fn view(&self) -> MemoryView<T> {
        MemoryView {
            clk: self.clk,
            addr_bits: self.addr_bits@,
            mapping_type: self.mapping_type,
            controllers: Seq::new(self.controllers@.len(), |i: int| self.controllers@[i]@),
            ret_queue: self.ret_queue@,
        }
    }

    /// A memory over the given controllers, one per channel in channel
    /// order, at clock zero.
    pub fn new(config: &Config, controllers: Vec<Controller<'a, T>>, spec: &'a T) -> (memory: Self)
        ensures
            memory@ == (MemoryView {
                clk: 0,
                addr_bits: spec.addr_bits(),
                mapping_type: config.mapping_type,
                controllers: Seq::new(controllers@.len(), |i: int| controllers@[i]@),
                ret_queue: Seq::empty(),
            }),
            addressable(*spec) && built_for(memory@.controllers, *spec) ==> memory@.wf(),
    {
        let memory = SimpleMemory {
            clk: 0,
            addr_bits: vstd::slice::slice_to_vec(spec.get_addr_bits()),
            mapping_type: config.mapping_type,
            controllers,
            ret_queue: VecDeque::new(),
        };
        proof {
            if addressable(*spec) && built_for(memory@.controllers, *spec) {
                let fresh = DramView::fresh(*spec, Level::Channel, spec.child_size());
                assert forall|coords: Seq<u64>| #[trigger] memory@.fits(coords) implies memory@.routes(
                    coords,
                ) by {
                    assert forall|l: int| 0 < l <= Level::Bank.ord() implies coords[l]
                        < #[trigger] spec.child_size()[l] by {}
                    DramView::lemma_fresh_reaches(*spec, Level::Channel, spec.child_size(), coords);
                    fresh.lemma_same_shape_paths(memory@.controllers[coords[0] as int].channel, coords);
                }
            }
        }
        memory
    }

    /// A memory for a technology: one new controller over a new channel
    /// for each channel that the technology counts.
    pub fn with_config(config: &Config, spec: &'a T) -> (memory: Self)
        requires
            spec.wf(),
            spec.child_size().len() > Level::Bank.ord(),
        ensures
            memory@.clk == 0,
            memory@.addr_bits == spec.addr_bits(),
            memory@.mapping_type == config.mapping_type,
            memory@.ret_queue == Seq::<Request>::empty(),
            memory@.controllers.len() == spec.child_size()[0],
            forall|i: int|
                0 <= i < memory@.controllers.len() ==> #[trigger] memory@.controllers[i] == ControllerView::fresh(
                    DramView::fresh(*spec, Level::Channel, spec.child_size()),
                ),
            addressable(*spec) ==> memory@.wf(),
    {
        let mut controllers: Vec<Controller<'a, T>> = Vec::new();
        let child_size = spec.get_child_size();
        let n = child_size[0];
        let mut i: usize = 0;
        while i < n
            invariant
                i <= n,
                spec.wf(),
                child_size@ == spec.child_size(),
                child_size@.len() > Level::Bank.ord(),
                controllers@.len() == i,
                forall|j: int|
                    0 <= j < i ==> (#[trigger] controllers@[j])@ == ControllerView::fresh(
                        DramView::fresh(*spec, Level::Channel, spec.child_size()),
                    ) && controllers@[j]@.wf(),
            decreases n - i,
        {
            controllers.push(Controller::new(config, Dram::new(spec, Level::Channel, child_size)));
            i += 1;
        }
        let memory = SimpleMemory::new(config, controllers, spec);
        proof {
            DramView::fresh(*spec, Level::Channel, spec.child_size()).lemma_same_shape_refl();
            assert(built_for(memory@.controllers, *spec));
        }
        memory
    }
}

impl<'a, T: DramSpec> MemoryTrait for SimpleMemory<'a, T> {
    open spec fn can_tick(&self) -> bool {
        self@.wf() && self@.can_tick()
    }

    /// A request that has been set up by its sender has to name a bank of
    /// the memory.
    open spec fn can_send(&self, req: Request) -> bool {
        self@.wf() && (req.done_setup ==> self@.routes(req.addr_vec@))
    }

    open spec fn can_count(&self) -> bool {
        waiting(self@.controllers) <= usize::MAX
    }

    /// One cycle: the clock advances by one, every controller takes a
    /// cycle at the new clock, and the front of each finished queue moves
    /// to the queue of completed requests.
    fn tick(&mut self)
        ensures
            final(self)@ == old(self)@.tick(),
            final(self)@.wf(),
            final(self)@.same_techs(old(self)@),
    {
        self.clk += 1;
        let clk = self.clk;
        let n = self.controllers.len();
        let mut i: usize = 0;
        while i < n
            invariant
                i <= n,
                n == self.controllers@.len(),
                n == old(self).controllers@.len(),
                old(self)@.wf(),
                old(self)@.can_tick(),
                clk == old(self).clk + 1,
                self.clk == clk,
                self.addr_bits == old(self).addr_bits,
                self.mapping_type == old(self).mapping_type,
                self.ret_queue@ == old(self).ret_queue@ + returned(old(self)@.controllers.take(i as int), clk),
                forall|j: int|
                    0 <= j < i ==> (#[trigger] self.controllers@[j])@ == collected(old(self)@.controllers[j], clk),
                forall|j: int| i <= j < n ==> self.controllers@[j] == old(self).controllers@[j],
            decreases n - i,
        {
            proof {
                assert(old(self)@.controllers.take(i + 1).drop_last() =~= old(self)@.controllers.take(i as int));
            }
            self.controllers[i].tick(clk);
            if let Some(req) = self.controllers[i].finished_queue.pop_front() {
                self.ret_queue.push_back(req);
            }
            proof {
                let after = old(self)@.controllers[i as int].tick(clk);
                assert(self.controllers@[i as int]@.finished =~= collected(
                    old(self)@.controllers[i as int],
                    clk,
                ).finished);
                assert(self.ret_queue@ =~= old(self).ret_queue@ + returned(
                    old(self)@.controllers.take(i + 1),
                    clk,
                ));
            }
            i += 1;
        }
        proof {
            assert(old(self)@.controllers.take(n as int) =~= old(self)@.controllers);
            assert(self@.controllers =~= old(self)@.tick().controllers);
            old(self)@.lemma_tick_wf();
        }
    }

    /// Maps the address of `req`, unless its sender has done so, and
    /// offers the request to the controller of its channel. The controller
    /// takes it at the back of its read or write queue, or, if that queue
    /// is full, stays as it is and has the request handed back, set up.
    fn try_send(&mut self, req: Request) -> (result: Result<(), Request>)
        ensures
            exists|sent: Request|
                {
                    &&& old(self)@.is_setup_of(sent, req)
                    &&& final(self)@ == old(self)@.send(sent)
                    &&& result is Err <==> old(self)@.controllers[sent.addr_vec@[0] as int].rejects(sent)
                    &&& result matches Err(back) ==> back == sent
                },
            final(self)@.wf(),
            final(self)@.clk == old(self)@.clk,
            final(self)@.same_techs(old(self)@),
    {
        let mut req = req;
        let ghost given = req;
        if !req.done_setup {
            req.addr_vec.resize(self.addr_bits.len(), 0);
            let mut addr = req.addr;
            clear_lower_bits(&mut addr, BLOCK_BITS);
            let sequence = self.mapping_type.get_slice_sequence();
            proof {
                vstd::arithmetic::power2::lemma2_to64();
                lemma_map_addr(given.addr, self.addr_bits@, self.mapping_type, req.addr_vec@);
            }
            setup_addr_vec(addr, self.addr_bits.as_slice(), req.addr_vec.as_mut_slice(), sequence.as_slice());
            req.done_setup = true;
            proof {
                assert(self@.fits(req.addr_vec@));
            }
        }
        let ghost sent = req;
        proof {
            assert(sent.addr_vec@[0] < self.controllers.len());
        }
        let channel = req.addr_vec[0] as usize;
        let result = self.controllers[channel].try_enqueue(req);
        proof {
            assert(self@.controllers =~= old(self)@.send(sent).controllers);
            old(self)@.lemma_send_wf(sent);
        }
        result
    }

    /// Takes the oldest completed request, if there is one.
    fn try_recv(&mut self) -> (req: Option<Request>)
        ensures
            match req {
                Some(r) => old(self)@.ret_queue.len() > 0 && r == old(self)@.ret_queue[0] && final(self)@ == (
                MemoryView { ret_queue: old(self)@.ret_queue.drop_first(), ..old(self)@ }),
                None => old(self)@.ret_queue.len() == 0 && final(self)@ == old(self)@,
            },
            old(self)@.wf() ==> final(self)@.wf(),
    {
        let req = self.ret_queue.pop_front();
        proof {
            if old(self)@.wf() {
                assert forall|coords: Seq<u64>| #[trigger] self@.fits(coords) implies self@.routes(coords) by {
                    assert(old(self)@.fits(coords));
                }
            }
        }
        req
    }

    /// The number of requests that wait for a command, over all
    /// controllers.
    fn pending_requests(&self) -> (n: usize)
        ensures
            n == waiting(self@.controllers),
    {
        let mut total: usize = 0;
        let mut i: usize = 0;
        while i < self.controllers.len()
            invariant
                i <= self.controllers@.len(),
                total == waiting(self@.controllers.take(i as int)),
                waiting(self@.controllers) <= usize::MAX,
            decreases self.controllers@.len() - i,
        {
            proof {
                assert(self@.controllers.take(i + 1).drop_last() =~= self@.controllers.take(i as int));
                lemma_waiting_grows(self@.controllers, i + 1);
            }
            let c = &self.controllers[i];
            total = total + c.read_queue.size() + c.write_queue.size() + c.act_queue.size() + c.other_queue.size();
            i += 1;
        }
        assert(self@.controllers.take(i as int) =~= self@.controllers);
        total
    }
}

/// The requests that wait in the first `n` controllers are among those
/// that wait in all of them.
pub proof fn lemma_waiting_grows<T: DramSpec>(controllers: Seq<ControllerView<T>>, n: int)
    requires
        0 <= n <= controllers.len(),
    ensures
        waiting(controllers.take(n)) <= waiting(controllers),
    decreases controllers.len(),
{
    if n < controllers.len() {
        assert(controllers.drop_last().take(n) =~= controllers.take(n));
        lemma_waiting_grows(controllers.drop_last(), n);
    } else {
        assert(controllers.take(n) =~= controllers);
    }
}

impl<T: DramSpec> MemoryView<T> {
    /// Offering a request that names a bank keeps the memory well formed.
    pub proof fn lemma_send_wf(self, sent: Request)
        requires
            self.wf(),
            self.routes(sent.addr_vec@),
        ensures
            self.send(sent).wf(),
            self.send(sent).same_techs(self),
    {
        let after = self.send(sent);
        let channel = sent.addr_vec@[0] as int;
        let before = self.controllers[channel];
        assert forall|i: int| 0 <= i < after.controllers.len() implies (#[trigger] after.controllers[i]).wf() by {}
        assert forall|coords: Seq<u64>| #[trigger] after.fits(coords) implies after.routes(coords) by {
            assert(self.fits(coords));
        }
    }

    /// A cycle keeps the memory well formed.
    pub proof fn lemma_tick_wf(self)
        requires
            self.wf(),
            self.can_tick(),
        ensures
            self.tick().wf(),
            self.tick().same_techs(self),
    {
        let after = self.tick();
        let clk = (self.clk + 1) as u64;
        assert forall|i: int| 0 <= i < after.controllers.len() implies (#[trigger] after.controllers[i]).wf()
            && self.controllers[i].channel.same_shape(after.controllers[i].channel) by {
            self.controllers[i].lemma_tick_wf(clk);
            let ticked = self.controllers[i].tick(clk);
        }
        assert forall|coords: Seq<u64>| #[trigger] after.fits(coords) implies after.routes(coords) by {
            assert(self.fits(coords));
            let c = coords[0] as int;
            self.controllers[c].channel.lemma_same_shape_paths(after.controllers[c].channel, coords);
        }
    }
}

} // verus!
