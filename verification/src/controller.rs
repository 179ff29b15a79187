use vstd::prelude::*;
use std::collections::VecDeque;
use crate::command::Command;
use crate::config::Config;
use crate::dram::{Dram, DramSpec, DramView};
use crate::request::{ReqType, Request};
use crate::scheduler::{Scheduler, SchedulerType};

verus! {

/// Capacity of a queue made by `Queue::default`.
pub const DEFAULT_QUEUE_SIZE: usize = 512;

/// A bounded queue of requests, served from the front. It counts as full
/// from `max` requests on.
pub struct Queue {
    pub queue: VecDeque<Request>,
    pub max: usize,
}

impl Default for Queue {
    fn default() -> (q: Self)
        ensures
            q.queue@ == Seq::<Request>::empty(),
            q.max == DEFAULT_QUEUE_SIZE,
    {
        Self { queue: VecDeque::new(), max: 512 }
    }
}

impl Queue {
    /// An empty queue of capacity `max`.
    pub fn new(max: usize) -> (q: Self)
        ensures
            q.queue@ == Seq::<Request>::empty(),
            q.max == max,
    {
        Self { queue: VecDeque::new(), max }
    }

    /// The number of requests in the queue.
    pub fn size(&self) -> (n: usize)
        ensures
            n == self.queue@.len(),
    {
        self.queue.len()
    }

    /// Whether the queue holds as many requests as its capacity, or more.
    pub fn full(&self) -> (b: bool)
        ensures
            b == (self.queue@.len() >= self.max),
    {
        self.queue.len() >= self.max
    }
}

/// The queues of a controller.
#[derive(Debug, Clone, Copy, PartialEq, Eq, Structural)]
pub enum QueueType {
    Read,
    Write,
    /// Requests whose row has been activated.
    Act,
    /// Maintenance requests.
    Other,
}

/// Which of the two request queues a controller serves.
#[derive(Debug, Clone, Copy, PartialEq, Eq, Structural)]
pub enum RunningMode {
    Reading,
    Writing,
}

/// The fraction `num / den` of a queue's capacity.
#[derive(Debug, Clone, Copy)]
pub struct Watermark {
    pub num: usize,
    pub den: usize,
}

impl Watermark {
    /// Whether `occupancy` is more than this fraction of `capacity`.
    pub open spec fn exceeded_by(self, occupancy: nat, capacity: nat) -> bool {
        occupancy * self.den > self.num * capacity
    }

    /// Whether `occupancy` is less than this fraction of `capacity`.
    pub open spec fn above(self, occupancy: nat, capacity: nat) -> bool {
        occupancy * self.den < self.num * capacity
    }

    /// This fraction of `capacity`, rounded up.
    pub open spec fn ceil_of(self, capacity: nat) -> int {
        (self.num * capacity + self.den - 1) / (self.den as int)
    }

    /// Whether `occupancy` is more than this fraction of `capacity`.
    pub fn is_exceeded_by(&self, occupancy: usize, capacity: usize) -> (b: bool)
        ensures
            b == self.exceeded_by(occupancy as nat, capacity as nat),
    {
        assert(occupancy * self.den <= usize::MAX * usize::MAX) by (nonlinear_arith)
            requires
                0 <= occupancy <= usize::MAX,
                0 <= self.den <= usize::MAX,
        ;
        assert(self.num * capacity <= usize::MAX * usize::MAX) by (nonlinear_arith)
            requires
                0 <= capacity <= usize::MAX,
                0 <= self.num <= usize::MAX,
        ;
        assert(usize::MAX * usize::MAX <= u128::MAX) by (nonlinear_arith)
            requires
                usize::MAX <= 0xFFFF_FFFF_FFFF_FFFF,
        ;
        (occupancy as u128) * (self.den as u128) > (self.num as u128) * (capacity as u128)
    }

    /// Whether `occupancy` is less than this fraction of `capacity`.
    pub fn is_above(&self, occupancy: usize, capacity: usize) -> (b: bool)
        ensures
            b == self.above(occupancy as nat, capacity as nat),
    {
        assert(occupancy * self.den <= usize::MAX * usize::MAX) by (nonlinear_arith)
            requires
                0 <= occupancy <= usize::MAX,
                0 <= self.den <= usize::MAX,
        ;
        assert(self.num * capacity <= usize::MAX * usize::MAX) by (nonlinear_arith)
            requires
                0 <= capacity <= usize::MAX,
                0 <= self.num <= usize::MAX,
        ;
        assert(usize::MAX * usize::MAX <= u128::MAX) by (nonlinear_arith)
            requires
                usize::MAX <= 0xFFFF_FFFF_FFFF_FFFF,
        ;
        (occupancy as u128) * (self.den as u128) < (self.num as u128) * (capacity as u128)
    }
}

/// The mode after the watermark check. A reading controller turns to
/// writing once the write queue holds more than the high fraction of its
/// capacity. A writing controller turns back only when a read is waiting
/// and the write queue holds less than the low fraction.
pub open spec fn next_mode(
    mode: RunningMode,
    reads: nat,
    writes: nat,
    capacity: nat,
    high: Watermark,
    low: Watermark,
) -> RunningMode {
    match mode {
        RunningMode::Reading => if high.exceeded_by(writes, capacity) {
            RunningMode::Writing
        } else {
            RunningMode::Reading
        },
        RunningMode::Writing => if reads > 0 && low.above(writes, capacity) {
            RunningMode::Reading
        } else {
            RunningMode::Writing
        },
    }
}

/// Hysteresis of the mode: a reading controller whose write queue holds
/// more than the high fraction of its capacity, rounded up, turns to
/// writing; a writing controller stays writing, whatever reads are
/// waiting, while its write queue holds at least the low fraction, rounded
/// up.
pub proof fn lemma_mode_hysteresis(reads: nat, writes: nat, capacity: nat, high: Watermark, low: Watermark)
    requires
        high.den > 0,
        low.den > 0,
    ensures
        writes >= high.ceil_of(capacity) + 1 ==> next_mode(
            RunningMode::Reading,
            reads,
            writes,
            capacity,
            high,
            low,
        ) == RunningMode::Writing,
        writes >= low.ceil_of(capacity) ==> next_mode(RunningMode::Writing, reads, writes, capacity, high, low)
            == RunningMode::Writing,
{
    lemma_ceil_bounds(high, capacity);
    lemma_ceil_bounds(low, capacity);
    if writes >= high.ceil_of(capacity) + 1 {
        assert(writes * high.den >= (high.ceil_of(capacity) + 1) * high.den) by (nonlinear_arith)
            requires
                writes >= high.ceil_of(capacity) + 1,
                high.den > 0,
        ;
        assert((high.ceil_of(capacity) + 1) * high.den == high.ceil_of(capacity) * high.den + high.den)
            by (nonlinear_arith);
    }
    if writes >= low.ceil_of(capacity) {
        assert(writes * low.den >= low.ceil_of(capacity) * low.den) by (nonlinear_arith)
            requires
                writes >= low.ceil_of(capacity),
                low.den > 0,
        ;
    }
}

/// A fraction rounded up is not less than the fraction.
pub proof fn lemma_ceil_bounds(w: Watermark, capacity: nat)
    requires
        w.den > 0,
    ensures
        w.ceil_of(capacity) * w.den >= w.num * capacity,
{
    let x = w.num * capacity + w.den - 1;
    let d = w.den as int;
    vstd::arithmetic::div_mod::lemma_fundamental_div_mod(x, d);
    vstd::arithmetic::div_mod::lemma_mod_bound(x, d);
    assert(d * (x / d) == (x / d) * d) by (nonlinear_arith);
}

/// The mathematical value of a controller: its channel, the requests of
/// each queue in order, the capacities, the mode and the watermarks.
pub ghost struct ControllerView<T> {
    pub channel: DramView<T>,
    pub scheduler: SchedulerType,
    pub read: Seq<Request>,
    pub write: Seq<Request>,
    pub act: Seq<Request>,
    pub other: Seq<Request>,
    pub pending: Seq<Request>,
    pub finished: Seq<Request>,
    pub read_max: usize,
    pub write_max: usize,
    pub act_max: usize,
    pub other_max: usize,
    pub mode: RunningMode,
    pub high: Watermark,
    pub low: Watermark,
}

impl<T: DramSpec> ControllerView<T> {
    /// A new controller over `channel`: empty queues of the default
    /// capacity, served in order of arrival, reading, with the high
    /// watermark at four fifths and the low watermark at one fifth.
    pub open spec fn fresh(channel: DramView<T>) -> ControllerView<T> {
        ControllerView {
            channel,
            scheduler: SchedulerType::FCFS,
            read: Seq::empty(),
            write: Seq::empty(),
            act: Seq::empty(),
            other: Seq::empty(),
            pending: Seq::empty(),
            finished: Seq::empty(),
            read_max: DEFAULT_QUEUE_SIZE,
            write_max: DEFAULT_QUEUE_SIZE,
            act_max: DEFAULT_QUEUE_SIZE,
            other_max: DEFAULT_QUEUE_SIZE,
            mode: RunningMode::Reading,
            high: Watermark { num: 4, den: 5 },
            low: Watermark { num: 1, den: 5 },
        }
    }

    /// The requests of a queue.
    pub open spec fn queue(self, kind: QueueType) -> Seq<Request> {
        match kind {
            QueueType::Read => self.read,
            QueueType::Write => self.write,
            QueueType::Act => self.act,
            QueueType::Other => self.other,
        }
    }

    /// The controller with the requests of one queue replaced.
    pub open spec fn with_queue(self, kind: QueueType, queue: Seq<Request>) -> ControllerView<T> {
        match kind {
            QueueType::Read => ControllerView { read: queue, ..self },
            QueueType::Write => ControllerView { write: queue, ..self },
            QueueType::Act => ControllerView { act: queue, ..self },
            QueueType::Other => ControllerView { other: queue, ..self },
        }
    }

    /// Whether every request of a queue is addressed to a bank of the
    /// channel.
    pub open spec fn queue_ok(self, kind: QueueType) -> bool {
        forall|i: int|
            0 <= i < self.queue(kind).len() ==> self.channel.reaches_bank(
                (#[trigger] self.queue(kind)[i]).addr_vec@,
            )
    }

    /// Well-formedness: the channel is well formed, the scheduler serves
    /// in order of arrival, and every waiting request is addressed to a
    /// bank of the channel.
    pub open spec fn wf(self) -> bool {
        &&& self.channel.wf()
        &&& self.scheduler is FCFS
        &&& self.queue_ok(QueueType::Read)
        &&& self.queue_ok(QueueType::Write)
        &&& self.queue_ok(QueueType::Act)
        &&& self.queue_ok(QueueType::Other)
    }

    /// Whether a command can be issued at `clk` without overflow of a
    /// clock.
    pub open spec fn clock_ok(self, clk: u64) -> bool {
        &&& clk + self.channel.tech.max_delay() <= u64::MAX
        &&& clk + self.channel.tech.read_latency() <= u64::MAX
    }

    /// The controller after admission of `req`: at the back of the read
    /// or the write queue, by its kind, unless that queue is full.
    pub open spec fn enqueue(self, req: Request) -> ControllerView<T> {
        match req.req_type {
            ReqType::Read => if self.read.len() >= self.read_max {
                self
            } else {
                ControllerView { read: self.read.push(req), ..self }
            },
            ReqType::Write => if self.write.len() >= self.write_max {
                self
            } else {
                ControllerView { write: self.write.push(req), ..self }
            },
        }
    }

    /// Whether the queue that `req` belongs in is full.
    pub open spec fn rejects(self, req: Request) -> bool {
        match req.req_type {
            ReqType::Read => self.read.len() >= self.read_max,
            ReqType::Write => self.write.len() >= self.write_max,
        }
    }

    /// The completion check: the front of the pending queue moves to the
    /// finished queue once its finish clock has come.
    pub open spec fn serve_pending(self, clk: u64) -> ControllerView<T> {
        if self.pending.len() > 0 && self.pending[0].finish_time <= clk {
            ControllerView {
                pending: self.pending.drop_first(),
                finished: self.finished.push(self.pending[0]),
                ..self
            }
        } else {
            self
        }
    }

    /// The watermark check.
    pub open spec fn switch_mode(self) -> ControllerView<T> {
        ControllerView {
            mode: next_mode(
                self.mode,
                self.read.len(),
                self.write.len(),
                self.write_max as nat,
                self.high,
                self.low,
            ),
            ..self
        }
    }

    /// The queue that is served when no activated request can go ahead:
    /// the maintenance queue if it holds a request, else the read or the
    /// write queue, by the mode.
    pub open spec fn active_queue(self) -> QueueType {
        if self.other.len() > 0 {
            QueueType::Other
        } else {
            match self.mode {
                RunningMode::Reading => QueueType::Read,
                RunningMode::Writing => QueueType::Write,
            }
        }
    }

    /// The command that `req` needs next.
    pub open spec fn next_cmd(self, req: Request) -> Command {
        self.channel.resolve(T::first_cmd(req.req_type), req.addr_vec@)
    }

    /// Whether the front of a queue can have its next command issued at
    /// `clk`.
    pub open spec fn ready(self, kind: QueueType, clk: u64) -> bool {
        &&& self.queue(kind).len() > 0
        &&& self.channel.legal(
            self.next_cmd(self.queue(kind)[0]),
            self.queue(kind)[0].addr_vec@,
            clk,
        )
    }

    /// The bookkeeping after `cmd` has been issued for the request at
    /// `index` of a queue. After its column command (`is_last`) the
    /// request leaves the queue: a read for the pending queue, with its
    /// finish clock set to `clk` plus the read latency, a write for the
    /// finished queue. After an `ACT` it moves to the back of the act
    /// queue. After any other command it stays where it is.
    pub open spec fn after_issue(
        self,
        index: int,
        cmd: Command,
        is_last: bool,
        kind: QueueType,
        clk: u64,
    ) -> ControllerView<T> {
        let req = self.queue(kind)[index];
        let taken = self.with_queue(kind, self.queue(kind).remove(index));
        if is_last {
            match req.req_type {
                ReqType::Read => ControllerView {
                    pending: taken.pending.push(
                        Request { finish_time: (clk + self.channel.tech.read_latency()) as u64, ..req },
                    ),
                    ..taken
                },
                ReqType::Write => ControllerView { finished: taken.finished.push(req), ..taken },
            }
        } else if cmd is ACT {
            ControllerView { act: taken.act.push(req), ..taken }
        } else {
            self
        }
    }

    /// The controller after the next command of the front of a queue has
    /// been issued at `clk`.
    pub open spec fn issue(self, kind: QueueType, clk: u64) -> ControllerView<T> {
        let req = self.queue(kind)[0];
        let cmd = self.next_cmd(req);
        ControllerView { channel: self.channel.apply(cmd, req.addr_vec@, clk), ..self }.after_issue(
            0,
            cmd,
            cmd == T::first_cmd(req.req_type),
            kind,
            clk,
        )
    }

    /// The scheduling step: the watermark check, then at most one
    /// command, for the front of the act queue if it is ready, else for
    /// the front of the active queue if that is ready.
    pub open spec fn schedule(self, clk: u64) -> ControllerView<T> {
        let v = self.switch_mode();
        if v.ready(QueueType::Act, clk) {
            v.issue(QueueType::Act, clk)
        } else if v.ready(v.active_queue(), clk) {
            v.issue(v.active_queue(), clk)
        } else {
            v
        }
    }

    /// One cycle: the completion check, then the scheduling step.
    pub open spec fn tick(self, clk: u64) -> ControllerView<T> {
        self.serve_pending(clk).schedule(clk)
    }

    /// The number of requests that wait for a command.
    pub open spec fn waiting(self) -> nat {
        self.read.len() + self.write.len() + self.act.len() + self.other.len()
    }

    /// Issuing for the front of a queue keeps the controller well formed
    /// and the shape of its channel.
    pub proof fn lemma_issue_wf(self, kind: QueueType, clk: u64)
        requires
            self.wf(),
            self.clock_ok(clk),
            self.queue(kind).len() > 0,
        ensures
            self.issue(kind, clk).wf(),
            self.channel.same_shape(self.issue(kind, clk).channel),
            self.channel.not_after(self.issue(kind, clk).channel),
    {
        let req = self.queue(kind)[0];
        let cmd = self.next_cmd(req);
        let after = self.issue(kind, clk);
        self.channel.lemma_reaches_in_range(req.addr_vec@);
        T::lemma_first_cmd_real(req.req_type);
        self.channel.lemma_resolve_real(T::first_cmd(req.req_type), req.addr_vec@);
        self.channel.lemma_apply(cmd, req.addr_vec@, clk);
        self.channel.lemma_apply_monotonic(cmd, req.addr_vec@, clk);
        let moved = ControllerView { channel: self.channel.apply(cmd, req.addr_vec@, clk), ..self };
        assert forall|k: QueueType, i: int| 0 <= i < moved.queue(k).len() implies moved.channel.reaches_bank(
            (#[trigger] moved.queue(k)[i]).addr_vec@,
        ) by {
            self.channel.lemma_same_shape_paths(moved.channel, self.queue(k)[i].addr_vec@);
        }
        assert forall|k: QueueType| #[trigger] after.queue_ok(k) by {
            assert forall|i: int| 0 <= i < after.queue(k).len() implies after.channel.reaches_bank(
                (#[trigger] after.queue(k)[i]).addr_vec@,
            ) by {
                // a request of `after` is a request of `moved`, in its old
                // place or moved to the back of a queue
                let r = after.queue(k)[i];
                if k == kind {
                    if after.queue(k) != moved.queue(k) && i < moved.queue(k).len() - 1 {
                        assert(r == moved.queue(k)[i + 1]);
                    }
                } else if i >= moved.queue(k).len() {
                    assert(r == req);
                }
            }
        }
    }

    /// The mode after a cycle is the mode after the watermark check on
    /// the queues as they were before the cycle: no command changes it.
    pub proof fn lemma_tick_mode(self, clk: u64)
        ensures
            self.tick(clk).mode == next_mode(
                self.mode,
                self.read.len(),
                self.write.len(),
                self.write_max as nat,
                self.high,
                self.low,
            ),
    {
    }

    /// The scheduling step keeps the controller well formed, keeps the
    /// shape of its channel and lowers no clock of it.
    pub proof fn lemma_schedule_wf(self, clk: u64)
        requires
            self.wf(),
            self.clock_ok(clk),
        ensures
            self.schedule(clk).wf(),
            self.channel.same_shape(self.schedule(clk).channel),
            self.channel.not_after(self.schedule(clk).channel),
    {
        let v = self.switch_mode();
        self.channel.lemma_same_shape_refl();
        self.channel.lemma_not_after_refl();
        assert(v.queue_ok(QueueType::Read));
        assert(v.queue_ok(QueueType::Write));
        assert(v.queue_ok(QueueType::Act));
        assert(v.queue_ok(QueueType::Other));
        if v.ready(QueueType::Act, clk) {
            v.lemma_issue_wf(QueueType::Act, clk);
        } else if v.ready(v.active_queue(), clk) {
            v.lemma_issue_wf(v.active_queue(), clk);
        }
    }

    /// A cycle keeps the controller well formed, keeps the shape of its
    /// channel and lowers no clock of it.
    pub proof fn lemma_tick_wf(self, clk: u64)
        requires
            self.wf(),
            self.clock_ok(clk),
        ensures
            self.tick(clk).wf(),
            self.channel.same_shape(self.tick(clk).channel),
            self.channel.not_after(self.tick(clk).channel),
    {
        let v = self.serve_pending(clk);
        assert(v.queue_ok(QueueType::Read));
        assert(v.queue_ok(QueueType::Write));
        assert(v.queue_ok(QueueType::Act));
        assert(v.queue_ok(QueueType::Other));
        v.lemma_schedule_wf(clk);
    }
}

/// The controller of one channel: the device tree of the channel, the
/// queues of waiting requests, the reads whose data is on its way
/// (`pending_queue`) and the requests that are done (`finished_queue`).
pub struct Controller<'a, T> {
    pub channel: Dram<'a, T>,
    pub scheduler: Scheduler,
    pub read_queue: Queue,
    pub write_queue: Queue,
    pub act_queue: Queue,
    pub other_queue: Queue,
    pub pending_queue: VecDeque<Request>,
    pub finished_queue: VecDeque<Request>,
    pub running_mode: RunningMode,
    pub wr_hight_watermark: Watermark,
    pub wr_low_watermark: Watermark,
}

impl<'a, T: DramSpec> Controller<'a, T> {
    /// The mathematical value of the controller.
    pub open spec fn view(&self) -> ControllerView<T> {
        ControllerView {
            channel: self.channel@,
            scheduler: self.scheduler.scheduler_type,
            read: self.read_queue.queue@,
            write: self.write_queue.queue@,
            act: self.act_queue.queue@,
            other: self.other_queue.queue@,
            pending: self.pending_queue@,
            finished: self.finished_queue@,
            read_max: self.read_queue.max,
            write_max: self.write_queue.max,
            act_max: self.act_queue.max,
            other_max: self.other_queue.max,
            mode: self.running_mode,
            high: self.wr_hight_watermark,
            low: self.wr_low_watermark,
        }
    }

    /// A controller for the channel `dram`: empty queues of the default
    /// capacity, reading, with watermarks at four fifths and one fifth of
    /// the write queue.
    pub fn new(config: &Config, dram: Dram<'a, T>) -> (controller: Self)
        ensures
            controller@ == ControllerView::fresh(dram@),
            dram@.wf() ==> controller@.wf(),
    {
        Self {
            channel: dram,
            scheduler: Scheduler::default(),
            read_queue: Queue::default(),
            write_queue: Queue::default(),
            act_queue: Queue::default(),
            other_queue: Queue::default(),
            pending_queue: VecDeque::new(),
            finished_queue: VecDeque::new(),
            running_mode: RunningMode::Reading,
            wr_hight_watermark: Watermark { num: 4, den: 5 },
            wr_low_watermark: Watermark { num: 1, den: 5 },
        }
    }

    /// Admission: `req` goes to the back of the read or the write queue,
    /// by its kind; if that queue is full, the controller stays as it is
    /// and hands `req` back.
    pub fn try_enqueue(&mut self, req: Request) -> (result: Result<(), Request>)
        ensures
            result is Err <==> old(self)@.rejects(req),
            result matches Err(back) ==> back == req,
            final(self)@ == old(self)@.enqueue(req),
            old(self)@.wf() && old(self)@.channel.reaches_bank(req.addr_vec@) ==> final(self)@.wf(),
    {
        match req.req_type {
            ReqType::Read => {
                if self.read_queue.full() {
                    return Err(req);
                } else {
                    self.read_queue.queue.push_back(req);
                }
            },
            ReqType::Write => {
                if self.write_queue.full() {
                    return Err(req);
                } else {
                    self.write_queue.queue.push_back(req);
                }
            },
        }
        Ok(())
    }

    /// One cycle at clock `clk`: the completion check, then the
    /// scheduling step.
    ///
    /// A refresh policy is not part of the controller. A caller that has
    /// one calls `serve_pending`, runs the policy's step, which may put
    /// requests in `other_queue`, and calls `schedule`.
    pub fn tick(&mut self, clk: u64)
        requires
            old(self)@.wf(),
            old(self)@.clock_ok(clk),
        ensures
            final(self)@ == old(self)@.tick(clk),
            final(self)@.wf(),
            old(self)@.channel.same_shape(final(self)@.channel),
    {
        self.serve_pending(clk);
        self.schedule(clk);
    }

    /// The completion check: the front of the pending queue moves to the
    /// finished queue if its finish clock has come. Only the front is
    /// looked at: reads complete in the order of their issue.
    pub fn serve_pending(&mut self, clk: u64)
        ensures
            final(self)@ == old(self)@.serve_pending(clk),
            old(self)@.wf() ==> final(self)@.wf(),
    {
        if let Some(req) = self.pending_queue.pop_front() {
            if req.finish_time <= clk {
                self.finished_queue.push_back(req);
            } else {
                self.pending_queue.push_front(req);
            }
        }
        proof {
            assert(self.pending_queue@ =~= old(self)@.serve_pending(clk).pending);
            if old(self)@.wf() {
                assert(self@.queue_ok(QueueType::Read));
                assert(self@.queue_ok(QueueType::Write));
                assert(self@.queue_ok(QueueType::Act));
                assert(self@.queue_ok(QueueType::Other));
            }
        }
    }

    /// The scheduling step at clock `clk`: the watermark check, then at
    /// most one command, for the front of the act queue if it is ready,
    /// else for the front of the active queue if that is ready.
    pub fn schedule(&mut self, clk: u64)
        requires
            old(self)@.wf(),
            old(self)@.clock_ok(clk),
        ensures
            final(self)@ == old(self)@.schedule(clk),
            final(self)@.wf(),
            old(self)@.channel.same_shape(final(self)@.channel),
    {
        proof {
            old(self)@.lemma_schedule_wf(clk);
        }
        match self.running_mode {
            RunningMode::Reading => {
                if self.wr_hight_watermark.is_exceeded_by(self.write_queue.size(), self.write_queue.max) {
                    self.running_mode = RunningMode::Writing;
                }
            },
            RunningMode::Writing => {
                if self.read_queue.size() > 0 && self.wr_low_watermark.is_above(
                    self.write_queue.size(),
                    self.write_queue.max,
                ) {
                    self.running_mode = RunningMode::Reading;
                }
            },
        }
        proof {
            assert(self@ == old(self)@.switch_mode());
            assert(self@.queue_ok(QueueType::Read));
            assert(self@.queue_ok(QueueType::Write));
            assert(self@.queue_ok(QueueType::Act));
            assert(self@.queue_ok(QueueType::Other));
        }
        if self.try_issue(QueueType::Act, clk) {
            return;
        }
        let (_, queue_type) = self.get_best_queue();
        self.try_issue(queue_type, clk);
    }

    /// Tries the front of a queue: resolves the command that it needs
    /// next, and if that command is legal at `clk`, issues it and does the
    /// bookkeeping. Says whether a command was issued.
    pub fn try_issue(&mut self, queue_type: QueueType, clk: u64) -> (issued: bool)
        requires
            old(self)@.wf(),
            old(self)@.clock_ok(clk),
        ensures
            issued == old(self)@.ready(queue_type, clk),
            issued ==> final(self)@ == old(self)@.issue(queue_type, clk),
            !issued ==> final(self)@ == old(self)@,
    {
        let queue = match queue_type {
            QueueType::Read => &self.read_queue,
            QueueType::Write => &self.write_queue,
            QueueType::Act => &self.act_queue,
            QueueType::Other => &self.other_queue,
        };
        if let Some((index, req)) = self.scheduler.get_best_req(queue, &self.channel) {
            proof {
                self@.channel.lemma_reaches_in_range(req.addr_vec@);
            }
            let cmd = self.get_first_cmd(req);
            let is_last = cmd == T::get_first_cmd(&req.req_type);
            if self.is_ready_cmd(&cmd, &req.addr_vec, clk) {
                let addr_vec = req.addr_vec.clone();
                self.issue_cmd(cmd, &addr_vec, clk);
                self.handle_after_issue(index, &cmd, is_last, queue_type, clk);
                return true;
            }
        }
        false
    }

    /// Whether `cmd` may be issued at `clk`.
    pub fn is_ready_cmd(&self, cmd: &Command, addr_vec: &[u64], clk: u64) -> (ready: bool)
        requires
            self@.channel.wf(),
            self@.channel.in_range(addr_vec@),
            !(*cmd is Max),
        ensures
            ready == self@.channel.legal(*cmd, addr_vec@, clk),
    {
        self.channel.check(cmd, addr_vec, clk)
    }

    /// The command that `req` needs next.
    pub fn get_first_cmd(&self, req: &Request) -> (cmd: Command)
        requires
            self@.channel.wf(),
            self@.channel.reaches_bank(req.addr_vec@),
        ensures
            cmd == self@.next_cmd(*req),
            !(cmd is Max),
    {
        let first_cmd = self.channel.get_first_cmd(&req.req_type);
        self.channel.decode(&first_cmd, req.addr_vec.as_slice())
    }

    /// Issues `cmd` to the channel at `clk`.
    pub fn issue_cmd(&mut self, cmd: Command, addr_vec: &[u64], clk: u64)
        requires
            old(self)@.channel.wf(),
            old(self)@.channel.in_range(addr_vec@),
            !(cmd is Max),
            clk + old(self)@.channel.tech.max_delay() <= u64::MAX,
        ensures
            final(self)@ == (ControllerView {
                channel: old(self)@.channel.apply(cmd, addr_vec@, clk),
                ..old(self)@
            }),
            final(self)@.channel.wf(),
    {
        self.channel.update(&cmd, addr_vec, clk);
    }

    /// The bookkeeping after `cmd` has been issued for the request at
    /// `cmd_index` of a queue.
    pub fn handle_after_issue(
        &mut self,
        cmd_index: usize,
        cmd: &Command,
        is_last: bool,
        queue_type: QueueType,
        clk: u64,
    )
        requires
            cmd_index < old(self)@.queue(queue_type).len(),
            is_last && old(self)@.queue(queue_type)[cmd_index as int].req_type is Read ==> clk
                + old(self)@.channel.tech.read_latency() <= u64::MAX,
        ensures
            final(self)@ == old(self)@.after_issue(cmd_index as int, *cmd, is_last, queue_type, clk),
    {
        if is_last {
            let mut req = self.take(queue_type, cmd_index);
            match req.req_type {
                ReqType::Read => {
                    req.finish_time = clk + self.channel.spec.get_read_latency();
                    self.pending_queue.push_back(req);
                },
                ReqType::Write => {
                    self.finished_queue.push_back(req);
                },
            }
        } else {
            if cmd.is_act() {
                let req = self.take(queue_type, cmd_index);
                self.act_queue.queue.push_back(req);
            }
        }
    }

    /// Takes the request at `index` out of a queue.
    pub fn take(&mut self, queue_type: QueueType, index: usize) -> (req: Request)
        requires
            index < old(self)@.queue(queue_type).len(),
        ensures
            req == old(self)@.queue(queue_type)[index as int],
            final(self)@ == old(self)@.with_queue(
                queue_type,
                old(self)@.queue(queue_type).remove(index as int),
            ),
    {
        match queue_type {
            QueueType::Read => self.read_queue.queue.remove(index).unwrap(),
            QueueType::Write => self.write_queue.queue.remove(index).unwrap(),
            QueueType::Act => self.act_queue.queue.remove(index).unwrap(),
            QueueType::Other => self.other_queue.queue.remove(index).unwrap(),
        }
    }

    /// The queue that is served when no activated request can go ahead.
    pub fn get_best_queue(&self) -> (best: (&Queue, QueueType))
        ensures
            best.1 == self@.active_queue(),
            *best.0 == match best.1 {
                QueueType::Read => self.read_queue,
                QueueType::Write => self.write_queue,
                QueueType::Act => self.act_queue,
                QueueType::Other => self.other_queue,
            },
    {
        match self.other_queue.size() {
            0 => match self.running_mode {
                RunningMode::Reading => (&self.read_queue, QueueType::Read),
                RunningMode::Writing => (&self.write_queue, QueueType::Write),
            },
            _ => (&self.other_queue, QueueType::Other),
        }
    }
}

impl<'a, T: DramSpec> Controller<'a, T> {
    /// The queue that is served when no activated request can go ahead,
    /// to be changed in place.
    pub fn get_best_queue_mut(&mut self) -> (queue: &mut Queue)
        ensures
            match old(self)@.active_queue() {
                QueueType::Read => *queue == old(self).read_queue && *final(self) == (Controller {
                    read_queue: *final(queue),
                    ..*old(self)
                }),
                QueueType::Write => *queue == old(self).write_queue && *final(self) == (Controller {
                    write_queue: *final(queue),
                    ..*old(self)
                }),
                _ => *queue == old(self).other_queue && *final(self) == (Controller {
                    other_queue: *final(queue),
                    ..*old(self)
                }),
            },
    {
        match self.other_queue.size() {
            0 => match self.running_mode {
                RunningMode::Reading => &mut self.read_queue,
                RunningMode::Writing => &mut self.write_queue,
            },
            _ => &mut self.other_queue,
        }
    }
}

/// Admission is bounded: a controller whose queue for `req` is full stays
/// as it is, and any other controller takes `req` at the back of that
/// queue, which grows by exactly this one request.
pub proof fn lemma_enqueue_bounded<T: DramSpec>(controller: ControllerView<T>, req: Request)
    ensures
        controller.rejects(req) ==> controller.enqueue(req) == controller,
        !controller.rejects(req) ==> {
            &&& controller.enqueue(req).waiting() == controller.waiting() + 1
            &&& req.req_type is Read ==> controller.enqueue(req).read == controller.read.push(req)
                && controller.enqueue(req).write == controller.write
            &&& req.req_type is Write ==> controller.enqueue(req).write == controller.write.push(req)
                && controller.enqueue(req).read == controller.read
        },
{
}

} // verus!
