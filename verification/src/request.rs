use vstd::prelude::*;

verus! {

/// What a request asks of the memory.
#[derive(Debug, Clone, Copy, PartialEq, Eq, Structural)]
pub enum ReqType {
    Read,
    Write,
}

/// One memory request.
///
/// `addr_vec` holds one coordinate per hierarchy level once `done_setup` is
/// set; `finish_time` is stamped when the column command of a read is
/// issued.
#[derive(Debug)]
pub struct Request {
    pub addr: u64,
    pub addr_vec: Vec<u64>,
    pub done_setup: bool,
    pub req_type: ReqType,
    pub arrival_time: u64,
    pub finish_time: u64,
}

impl Request {
    /// A fresh request for `addr`: not yet mapped, both clocks at zero.
    pub fn new(addr: u64, req_type: ReqType) -> (r: Self)
        ensures
            r.addr == addr,
            r.addr_vec@ == Seq::<u64>::empty(),
            !r.done_setup,
            r.req_type == req_type,
            r.arrival_time == 0,
            r.finish_time == 0,
    {
        Self { addr, addr_vec: Vec::new(), done_setup: false, req_type, arrival_time: 0, finish_time: 0 }
    }
}

} // verus!
