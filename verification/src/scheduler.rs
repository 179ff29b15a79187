use vstd::prelude::*;
use crate::controller::Queue;
use crate::dram::Dram;
use crate::request::Request;

verus! {

/// The policy by which a scheduler picks a request from a queue.
///
/// `FCFS` serves requests in the order of their arrival. `FRFCFS` names
/// the policy that prefers a request whose command is already legal; the
/// scheduler does not serve it yet.
#[allow(clippy::upper_case_acronyms)]
#[derive(Debug, Clone, Copy, PartialEq, Eq, Structural)]
pub enum SchedulerType {
    FCFS,
    FRFCFS,
}

impl Default for SchedulerType {
    fn default() -> (t: Self)
        ensures
            t == SchedulerType::FCFS,
    {
        SchedulerType::FCFS
    }
}

/// Picks the request that a controller tries next.
pub struct Scheduler {
    pub scheduler_type: SchedulerType,
}

impl Default for Scheduler {
    fn default() -> (s: Self)
        ensures
            s.scheduler_type == SchedulerType::FCFS,
    {
        Scheduler { scheduler_type: SchedulerType::FCFS }
    }
}

impl Scheduler {
    /// What first-come-first-served picks from a queue: the front and its
    /// index, nothing from an empty queue.
    pub open spec fn best(queue: Seq<Request>) -> Option<(usize, Request)> {
        if queue.len() == 0 {
            None
        } else {
            Some((0usize, queue[0]))
        }
    }

    /// The request to try next, with its index in the queue.
    pub fn get_best_req<'a, 'b, T>(&self, queue: &'b Queue, dram: &Dram<'a, T>) -> (best: Option<
        (usize, &'b Request),
    >)
        requires
            self.scheduler_type is FCFS,
        ensures
            match best {
                Some((index, req)) => Self::best(queue.queue@) == Some((index, *req)),
                None => Self::best(queue.queue@) is None,
            },
    {
        if queue.size() == 0 {
            None
        } else {
            Some((0, &queue.queue[0]))
        }
    }
}

} // verus!
