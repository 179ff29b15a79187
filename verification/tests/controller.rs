use ramu_pim_rust::command::Command;
use ramu_pim_rust::config::Config;
use ramu_pim_rust::controller::{Controller, Queue, QueueType, RunningMode, Watermark};
use ramu_pim_rust::ddr4::DDR4;
use ramu_pim_rust::dram::{Dram, DramSpec};
use ramu_pim_rust::memory::Level;
use ramu_pim_rust::request::{ReqType, Request};
use ramu_pim_rust::scheduler::{Scheduler, SchedulerType};

fn request(req_type: ReqType, bank_group: u64, bank: u64, row: u64, tag: u64) -> Request {
    let mut req = Request::new(tag, req_type);
    req.addr_vec = vec![0, 0, bank_group, bank, row, 0];
    req.done_setup = true;
    req
}

fn controller(ddr4: &DDR4) -> Controller<'_, DDR4> {
    let config = Config::default();
    Controller::new(&config, Dram::new(ddr4, Level::Channel, ddr4.get_child_size()))
}

#[test]
fn new_controller_is_empty_and_reading() {
    let ddr4 = DDR4::new(&Config::default());
    let c = controller(&ddr4);
    assert_eq!(c.read_queue.size(), 0);
    assert_eq!(c.write_queue.size(), 0);
    assert_eq!(c.act_queue.size(), 0);
    assert_eq!(c.other_queue.size(), 0);
    assert_eq!(c.read_queue.max, 512);
    assert_eq!(c.write_queue.max, 512);
    assert!(c.pending_queue.is_empty());
    assert!(c.finished_queue.is_empty());
    assert_eq!(c.running_mode, RunningMode::Reading);
    assert_eq!((c.wr_hight_watermark.num, c.wr_hight_watermark.den), (4, 5));
    assert_eq!((c.wr_low_watermark.num, c.wr_low_watermark.den), (1, 5));
    assert_eq!(c.scheduler.scheduler_type, SchedulerType::FCFS);
}

#[test]
fn queue_counts_as_full_from_its_capacity() {
    let mut q = Queue::new(2);
    assert_eq!(q.size(), 0);
    assert!(!q.full());
    q.queue.push_back(Request::new(1, ReqType::Read));
    assert!(!q.full());
    q.queue.push_back(Request::new(2, ReqType::Read));
    assert_eq!(q.size(), 2);
    assert!(q.full());
    assert!(Queue::new(0).full());
    let d = Queue::default();
    assert_eq!(d.max, 512);
    assert_eq!(d.size(), 0);
}

#[test]
fn full_queue_rejects_and_hands_the_request_back() {
    let ddr4 = DDR4::new(&Config::default());
    let mut c = controller(&ddr4);
    c.read_queue = Queue::new(3);
    for tag in 0..3 {
        let before = c.read_queue.size();
        assert!(c.try_enqueue(request(ReqType::Read, 0, 0, 1, tag)).is_ok());
        assert_eq!(c.read_queue.size(), before + 1);
    }
    for _ in 0..2 {
        let back = c.try_enqueue(request(ReqType::Read, 1, 2, 77, 0xFEED)).unwrap_err();
        assert_eq!(back.addr, 0xFEED);
        assert_eq!(back.addr_vec, vec![0, 0, 1, 2, 77, 0]);
        assert!(back.done_setup);
        assert_eq!(back.req_type, ReqType::Read);
        assert_eq!(c.read_queue.size(), 3);
    }
    // the write queue has its own bound
    assert!(c.try_enqueue(request(ReqType::Write, 0, 0, 1, 9)).is_ok());
    assert_eq!(c.write_queue.size(), 1);
    assert_eq!(c.read_queue.size(), 3);
    // requests stay in the order of their arrival
    let tags: Vec<u64> = c.read_queue.queue.iter().map(|r| r.addr).collect();
    assert_eq!(tags, vec![0, 1, 2]);
}

#[test]
fn default_queue_takes_512_requests() {
    let ddr4 = DDR4::new(&Config::default());
    let mut c = controller(&ddr4);
    for tag in 0..512 {
        assert!(c.try_enqueue(request(ReqType::Write, 0, 0, 1, tag)).is_ok());
    }
    assert!(c.try_enqueue(request(ReqType::Write, 0, 0, 1, 512)).is_err());
    assert_eq!(c.write_queue.size(), 512);
}

#[test]
fn first_come_first_served_picks_the_front() {
    let ddr4 = DDR4::new(&Config::default());
    let channel = Dram::new(&ddr4, Level::Channel, ddr4.get_child_size());
    let scheduler = Scheduler::default();
    let mut q = Queue::new(8);
    assert!(scheduler.get_best_req(&q, &channel).is_none());
    q.queue.push_back(request(ReqType::Read, 0, 0, 1, 11));
    q.queue.push_back(request(ReqType::Write, 0, 0, 1, 22));
    q.queue.push_back(request(ReqType::Read, 0, 0, 1, 33));
    let (index, req) = scheduler.get_best_req(&q, &channel).unwrap();
    assert_eq!(index, 0);
    assert_eq!(req.addr, 11);
    q.queue.pop_front();
    let (index, req) = scheduler.get_best_req(&q, &channel).unwrap();
    assert_eq!(index, 0);
    assert_eq!(req.addr, 22);
    assert_eq!(SchedulerType::default(), SchedulerType::FCFS);
}

#[test]
fn watermarks_compare_exactly() {
    let high = Watermark { num: 4, den: 5 };
    let low = Watermark { num: 1, den: 5 };
    // four fifths of 512 is 409.6
    assert!(!high.is_exceeded_by(409, 512));
    assert!(high.is_exceeded_by(410, 512));
    // one fifth of 512 is 102.4
    assert!(low.is_above(102, 512));
    assert!(!low.is_above(103, 512));
    // exact fractions are neither exceeded nor undercut
    assert!(!high.is_exceeded_by(8, 10));
    assert!(high.is_exceeded_by(9, 10));
    assert!(!low.is_above(2, 10));
    assert!(low.is_above(1, 10));
    // products beyond 64 bits
    let wide = Watermark { num: usize::MAX, den: usize::MAX };
    assert!(!wide.is_exceeded_by(usize::MAX, usize::MAX));
    assert!(wide.is_exceeded_by(usize::MAX, usize::MAX - 1));
}

#[test]
fn mode_turns_to_writing_and_holds() {
    let ddr4 = DDR4::new(&Config::default());
    // four fifths of 512 is 409.6: 409 writes leave the controller reading
    let mut c = controller(&ddr4);
    for tag in 0..409 {
        c.write_queue.queue.push_back(request(ReqType::Write, 0, 0, 1, tag));
    }
    c.read_queue.queue.push_back(request(ReqType::Read, 1, 0, 1, 0));
    c.tick(1);
    assert_eq!(c.running_mode, RunningMode::Reading);
    // rounded up and one more: 411 writes turn it to writing
    let mut c = controller(&ddr4);
    for tag in 0..411 {
        c.write_queue.queue.push_back(request(ReqType::Write, 0, 0, 1, tag));
    }
    c.read_queue.queue.push_back(request(ReqType::Read, 1, 0, 1, 0));
    c.tick(1);
    assert_eq!(c.running_mode, RunningMode::Writing);
    // a read is waiting, but while 103 writes or more wait, one fifth of
    // 512 rounded up, the controller keeps writing
    let mut clk = 1;
    while c.write_queue.size() >= 103 {
        clk += 1;
        c.tick(clk);
        if c.write_queue.size() >= 103 {
            assert_eq!(c.running_mode, RunningMode::Writing);
        }
        assert_eq!(c.read_queue.size(), 1);
    }
    assert!(clk > 300);
}

#[test]
fn writing_turns_back_only_with_a_read_waiting() {
    let ddr4 = DDR4::new(&Config::default());
    let mut c = controller(&ddr4);
    c.running_mode = RunningMode::Writing;
    c.tick(1);
    // the write queue is empty, but no read is waiting
    assert_eq!(c.running_mode, RunningMode::Writing);
    c.read_queue.queue.push_back(request(ReqType::Read, 0, 0, 1, 0));
    c.tick(2);
    assert_eq!(c.running_mode, RunningMode::Reading);
}

#[test]
fn read_is_activated_read_and_completed() {
    let ddr4 = DDR4::new(&Config::default());
    let mut c = controller(&ddr4);
    assert!(c.try_enqueue(request(ReqType::Read, 2, 3, 40, 7)).is_ok());
    assert_eq!(c.get_first_cmd(&c.read_queue.queue[0]), Command::ACT);
    c.tick(5);
    // ACT went out: the request waits in the act queue
    assert_eq!(c.read_queue.size(), 0);
    assert_eq!(c.act_queue.size(), 1);
    assert_eq!(c.get_first_cmd(&c.act_queue.queue[0]), Command::RD);
    for clk in 6..27 {
        c.tick(clk);
        assert_eq!(c.act_queue.size(), 1);
    }
    // nRCD = 22 after the ACT at 5
    c.tick(27);
    assert_eq!(c.act_queue.size(), 0);
    assert_eq!(c.pending_queue.len(), 1);
    // nCL + nBL = 26 after the RD at 27
    assert_eq!(c.pending_queue[0].finish_time, 53);
    for clk in 28..53 {
        c.tick(clk);
        assert!(c.finished_queue.is_empty());
    }
    c.tick(53);
    assert!(c.pending_queue.is_empty());
    assert_eq!(c.finished_queue.len(), 1);
    assert_eq!(c.finished_queue[0].addr, 7);
    assert_eq!(c.finished_queue[0].finish_time, 53);
}

#[test]
fn write_completes_at_issue() {
    let ddr4 = DDR4::new(&Config::default());
    let mut c = controller(&ddr4);
    c.running_mode = RunningMode::Writing;
    assert!(c.try_enqueue(request(ReqType::Write, 0, 1, 3, 4)).is_ok());
    c.tick(1);
    assert_eq!(c.act_queue.size(), 1);
    assert!(c.finished_queue.is_empty());
    c.tick(22);
    assert!(c.finished_queue.is_empty());
    c.tick(23);
    assert_eq!(c.finished_queue.len(), 1);
    assert_eq!(c.finished_queue[0].finish_time, 0);
    assert!(c.pending_queue.is_empty());
    assert_eq!(c.act_queue.size(), 0);
}

#[test]
fn row_conflict_is_precharged_in_place() {
    let ddr4 = DDR4::new(&Config::default());
    let mut c = controller(&ddr4);
    c.channel.update(&Command::ACT, &[0, 0, 1, 1, 5, 0], 0);
    assert!(c.try_enqueue(request(ReqType::Read, 1, 1, 7, 1)).is_ok());
    assert_eq!(c.get_first_cmd(&c.read_queue.queue[0]), Command::PRE);
    // PRE waits for nRAS = 56
    c.tick(55);
    assert_eq!(c.get_first_cmd(&c.read_queue.queue[0]), Command::PRE);
    c.tick(56);
    // PRE went out: the request stays in the read queue and now needs ACT
    assert_eq!(c.read_queue.size(), 1);
    assert_eq!(c.act_queue.size(), 0);
    assert_eq!(c.get_first_cmd(&c.read_queue.queue[0]), Command::ACT);
}

#[test]
fn one_command_per_cycle_and_act_queue_first() {
    let ddr4 = DDR4::new(&Config::default());
    let mut c = controller(&ddr4);
    assert!(c.try_enqueue(request(ReqType::Read, 0, 0, 1, 1)).is_ok());
    assert!(c.try_enqueue(request(ReqType::Read, 3, 0, 1, 2)).is_ok());
    c.tick(1);
    assert_eq!((c.read_queue.size(), c.act_queue.size()), (1, 1));
    // the timing update of the first ACT reached every bank: the second
    // ACT waits for nRC = 78, not only for nRRDS = 8 at the rank
    c.tick(9);
    assert_eq!((c.read_queue.size(), c.act_queue.size()), (1, 1));
    // at 23 the first read is ready: the act queue is served
    c.tick(23);
    assert_eq!((c.read_queue.size(), c.act_queue.size()), (1, 0));
    assert_eq!(c.pending_queue[0].addr, 1);
    c.tick(78);
    assert_eq!((c.read_queue.size(), c.act_queue.size()), (1, 0));
    c.tick(79);
    assert_eq!((c.read_queue.size(), c.act_queue.size()), (0, 1));
    assert_eq!(c.act_queue.queue[0].addr, 2);
    // one command per cycle: the completion at 49 was not checked yet,
    // and the check at 79 moved the read on while the ACT went out
    assert_eq!(c.finished_queue.len(), 1);
    assert!(c.pending_queue.is_empty());
}

#[test]
fn maintenance_queue_goes_before_reads_and_writes() {
    let ddr4 = DDR4::new(&Config::default());
    let mut c = controller(&ddr4);
    assert!(c.try_enqueue(request(ReqType::Read, 0, 0, 1, 1)).is_ok());
    c.other_queue.queue.push_back(request(ReqType::Write, 2, 0, 1, 2));
    let (queue, kind) = c.get_best_queue();
    assert_eq!(kind, QueueType::Other);
    assert_eq!(queue.size(), 1);
    c.tick(1);
    assert_eq!(c.read_queue.size(), 1);
    assert_eq!(c.other_queue.size(), 0);
    assert_eq!(c.act_queue.queue[0].addr, 2);
    let (_, kind) = c.get_best_queue();
    assert_eq!(kind, QueueType::Read);
    c.running_mode = RunningMode::Writing;
    let (_, kind) = c.get_best_queue();
    assert_eq!(kind, QueueType::Write);
    c.get_best_queue_mut().queue.push_back(request(ReqType::Write, 0, 0, 1, 3));
    assert_eq!(c.write_queue.size(), 1);
}

#[test]
fn writes_drain_before_the_controller_turns_back() {
    let ddr4 = DDR4::new(&Config::default());
    let mut c = controller(&ddr4);
    c.write_queue = Queue::new(10);
    // nine of ten exceed four fifths
    for tag in 0..9 {
        assert!(c.try_enqueue(request(ReqType::Write, 0, 0, 1, tag)).is_ok());
    }
    for tag in 0..3 {
        assert!(c.try_enqueue(request(ReqType::Read, 1, 0, 2, 100 + tag)).is_ok());
    }
    c.tick(1);
    assert_eq!(c.running_mode, RunningMode::Writing);
    let mut clk = 1;
    let mut writes_done_while_writing = 0;
    while c.running_mode == RunningMode::Writing {
        clk += 1;
        assert!(clk < 1000);
        let occupancy = c.write_queue.size();
        let reads = c.read_queue.size();
        c.tick(clk);
        if c.running_mode == RunningMode::Reading {
            // turned back: fewer than two of ten writes waited, with reads pending
            assert!(occupancy < 2);
            assert_eq!(reads, 3);
        } else {
            writes_done_while_writing = c.finished_queue.len();
            assert!(c.pending_queue.is_empty());
        }
    }
    assert!(writes_done_while_writing >= 7);
    assert!(c.finished_queue.iter().all(|r| r.req_type == ReqType::Write));
    // the reads are served after the turn
    let mut reads_done = 0;
    while reads_done < 3 {
        clk += 1;
        assert!(clk < 2000);
        c.tick(clk);
        reads_done = c.finished_queue.iter().filter(|r| r.req_type == ReqType::Read).count();
    }
    // the write that waited at the turn still waits
    assert_eq!(c.finished_queue.len(), 11);
    assert_eq!(c.write_queue.size(), 1);
    assert_eq!(c.running_mode, RunningMode::Reading);
}

#[test]
fn bookkeeping_after_issue() {
    let ddr4 = DDR4::new(&Config::default());
    let mut c = controller(&ddr4);
    for tag in 0..3 {
        assert!(c.try_enqueue(request(ReqType::Read, 0, 0, 1, tag)).is_ok());
    }
    // a prerequisite other than ACT leaves the queues alone
    c.handle_after_issue(1, &Command::PRE, false, QueueType::Read, 10);
    assert_eq!((c.read_queue.size(), c.act_queue.size()), (3, 0));
    // ACT moves the request to the back of the act queue
    c.handle_after_issue(1, &Command::ACT, false, QueueType::Read, 10);
    assert_eq!((c.read_queue.size(), c.act_queue.size()), (2, 1));
    assert_eq!(c.act_queue.queue[0].addr, 1);
    // the column command of a read stamps the finish clock
    c.handle_after_issue(0, &Command::RD, true, QueueType::Act, 100);
    assert_eq!(c.act_queue.size(), 0);
    assert_eq!(c.pending_queue[0].finish_time, 126);
    let taken = c.take(QueueType::Read, 1);
    assert_eq!(taken.addr, 2);
    assert_eq!(c.read_queue.size(), 1);
    assert!(c.is_ready_cmd(&Command::ACT, &[0, 0, 0, 0, 1, 0], 0));
    c.issue_cmd(Command::ACT, &[0, 0, 0, 0, 1, 0], 0);
    assert!(!c.is_ready_cmd(&Command::ACT, &[0, 0, 0, 0, 1, 0], 77));
    assert!(c.is_ready_cmd(&Command::ACT, &[0, 0, 0, 0, 1, 0], 78));
    assert!(c.try_issue(QueueType::Read, 22));
    assert!(!c.try_issue(QueueType::Read, 23));
    assert!(!c.try_issue(QueueType::Other, 23));
}

#[test]
fn maintenance_can_be_queued_between_the_two_steps() {
    let ddr4 = DDR4::new(&Config::default());
    let mut c = controller(&ddr4);
    assert!(c.try_enqueue(request(ReqType::Read, 0, 0, 1, 1)).is_ok());
    let mut done = request(ReqType::Read, 1, 0, 1, 9);
    done.finish_time = 4;
    c.pending_queue.push_back(done);
    c.serve_pending(3);
    assert!(c.finished_queue.is_empty());
    assert_eq!(c.pending_queue.len(), 1);
    c.serve_pending(4);
    assert_eq!(c.finished_queue.len(), 1);
    assert!(c.pending_queue.is_empty());
    // nothing else moved
    assert_eq!((c.read_queue.size(), c.act_queue.size()), (1, 0));
    // a maintenance request that arrives now is served in this cycle
    c.other_queue.queue.push_back(request(ReqType::Read, 2, 0, 1, 2));
    c.schedule(4);
    assert_eq!(c.other_queue.size(), 0);
    assert_eq!(c.read_queue.size(), 1);
    assert_eq!(c.act_queue.queue[0].addr, 2);
}
