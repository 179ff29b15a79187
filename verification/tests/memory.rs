use ramu_pim_rust::config::Config;
use ramu_pim_rust::controller::Controller;
use ramu_pim_rust::ddr4::DDR4;
use ramu_pim_rust::dram::{Dram, DramSpec};
use ramu_pim_rust::memory::{
    clear_lower_bits, setup_addr_vec, slicing_lower_bits, Level, MappingType, MemoryTrait, SimpleMemory,
};
use ramu_pim_rust::request::{ReqType, Request};

#[test]
fn test_memory() {
    let config = Config::default();
    let ddr4 = DDR4::new(&config);
    let child_size = ddr4.get_child_size();
    let num_channels = child_size[0];
    let mut controllers = vec![];
    for _i in 0..num_channels {
        let channel = Dram::new(&ddr4, Level::Channel, &child_size);
        let controller = Controller::new(&config, channel);
        controllers.push(controller);
    }
    let mut mem = SimpleMemory::new(&config, controllers, &ddr4);
    let req = Request::new(0, ReqType::Read);
    mem.try_send(req).unwrap();
    mem.tick();
}

#[test]
fn slicing_takes_the_low_bits() {
    let mut addr = 0b1011_0110u64;
    assert_eq!(slicing_lower_bits(&mut addr, 3), 0b110);
    assert_eq!(addr, 0b1_0110);
    assert_eq!(slicing_lower_bits(&mut addr, 0), 0);
    assert_eq!(addr, 0b1_0110);
    let mut addr = u64::MAX;
    assert_eq!(slicing_lower_bits(&mut addr, 63), u64::MAX >> 1);
    assert_eq!(addr, 1);
    let mut addr = 0xFFFF_FFC0_u64 + 0x2A;
    clear_lower_bits(&mut addr, 6);
    assert_eq!(addr, 0x3FF_FFFF);
}

#[test]
fn slice_sequences_name_every_level_once() {
    assert_eq!(MappingType::ChRaBaRoCo.get_slice_sequence(), [5, 4, 3, 2, 1, 0]);
    assert_eq!(MappingType::RoBaRaCoCh.get_slice_sequence(), [0, 5, 1, 2, 3, 4]);
    assert_eq!(MappingType::CoRoBaRaCh.get_slice_sequence(), [0, 1, 2, 3, 4, 5]);
    assert_eq!(MappingType::RoCoBaRaCh.get_slice_sequence(), [0, 1, 2, 3, 5, 4]);
}

#[test]
fn fields_are_taken_in_the_order_of_the_mapping() {
    let bits = [1usize, 1, 2, 2, 15, 10];
    // from the top: row 0x1234, bank 2, bank group 1, rank 1, column 0x155, channel 1
    let addr: u64 = (((((0x1234 << 2 | 2) << 2 | 1) << 1 | 1) << 10 | 0x155) << 1) | 1;
    let mut coords = vec![0u64; 6];
    setup_addr_vec(addr, &bits, &mut coords, &MappingType::RoBaRaCoCh.get_slice_sequence());
    assert_eq!(coords, vec![1, 1, 1, 2, 0x1234, 0x155]);
    // from the top: channel 1, rank 0, bank group 3, bank 1, row 0x7FFF, column 0x3FF
    let addr: u64 = ((((1 << 1 | 0) << 2 | 3) << 2 | 1) << 15 | 0x7FFF) << 10 | 0x3FF;
    let mut coords = vec![9u64; 6];
    setup_addr_vec(addr, &bits, &mut coords, &MappingType::ChRaBaRoCo.get_slice_sequence());
    assert_eq!(coords, vec![1, 0, 3, 1, 0x7FFF, 0x3FF]);
    // from the top: column 5, row 6, bank 3, bank group 2, rank 1, channel 0
    let addr: u64 = ((((5 << 15 | 6) << 2 | 3) << 2 | 2) << 1 | 1) << 1;
    let mut coords = vec![0u64; 6];
    setup_addr_vec(addr, &bits, &mut coords, &MappingType::CoRoBaRaCh.get_slice_sequence());
    assert_eq!(coords, vec![0, 1, 2, 3, 6, 5]);
    // from the top: row 6, column 5, bank 3, bank group 2, rank 1, channel 0
    let addr: u64 = ((((6 << 10 | 5) << 2 | 3) << 2 | 2) << 1 | 1) << 1;
    let mut coords = vec![0u64; 6];
    setup_addr_vec(addr, &bits, &mut coords, &MappingType::RoCoBaRaCh.get_slice_sequence());
    assert_eq!(coords, vec![0, 1, 2, 3, 6, 5]);
    // levels that the sequence does not name keep what they had
    let mut coords = vec![7u64; 6];
    setup_addr_vec(0b1_01, &bits, &mut coords, &[2, 0]);
    assert_eq!(coords, vec![1, 7, 1, 7, 7, 7]);
}

fn reassemble(coords: &[u64], bits: &[usize], order: &[usize]) -> u64 {
    let mut addr = 0u64;
    for &level in order.iter().rev() {
        addr = (addr << bits[level]) | coords[level];
    }
    addr << 6
}

#[test]
fn mapping_round_trip() {
    let bits = [1usize, 2, 2, 2, 16, 10];
    let mappings = [
        MappingType::ChRaBaRoCo,
        MappingType::RoBaRaCoCh,
        MappingType::CoRoBaRaCh,
        MappingType::RoCoBaRaCh,
    ];
    let addrs = [0u64, 1, 63, 64, 0x1234_5678, 0x7_FFFF_FFFF, 0x5_A5A5_A5A5, 0x0_DEAD_BEEF, (1 << 39) - 1];
    for mapping in mappings {
        let order = mapping.get_slice_sequence();
        for addr in addrs {
            let mut block = addr;
            clear_lower_bits(&mut block, 6);
            let mut coords = vec![0u64; 6];
            setup_addr_vec(block, &bits, &mut coords, &order);
            for l in 0..6 {
                assert!(coords[l] < 1 << bits[l]);
            }
            assert_eq!(reassemble(&coords, &bits, &order), addr & !63);
        }
        // bits above the mapped ones are dropped: 33 mapped bits above 6 block bits
        let mut block = 1u64 << 39;
        clear_lower_bits(&mut block, 6);
        let mut coords = vec![0u64; 6];
        setup_addr_vec(block, &bits, &mut coords, &order);
        assert_eq!(coords, vec![0; 6]);
    }
}

#[test]
fn read_completes_26_cycles_after_its_column_command() {
    let config = Config::default();
    let ddr4 = DDR4::new(&config);
    let mut mem = SimpleMemory::with_config(&config, &ddr4);
    assert_eq!(mem.pending_requests(), 0);
    // row 3, bank 1, bank group 2, column 9
    let addr: u64 = ((((3 << 2 | 1) << 2 | 2) << 10) | 9) << 6 | 0x15;
    mem.try_send(Request::new(addr, ReqType::Read)).unwrap();
    assert_eq!(mem.pending_requests(), 1);
    // cycle 1: ACT; cycles 2..22: nothing is legal; cycle 23: RD (nRCD = 22)
    for _ in 0..22 {
        mem.tick();
        assert_eq!(mem.pending_requests(), 1);
        assert!(mem.try_recv().is_none());
    }
    mem.tick();
    assert_eq!(mem.pending_requests(), 0);
    // the data is there at 23 + 26 = 49
    for _ in 24..49 {
        mem.tick();
        assert!(mem.try_recv().is_none());
    }
    mem.tick();
    let done = mem.try_recv().unwrap();
    assert_eq!(done.addr, addr);
    assert_eq!(done.finish_time, 49);
    assert_eq!(done.addr_vec, vec![0, 0, 2, 1, 3, 9]);
    assert!(done.done_setup);
    assert_eq!(done.req_type, ReqType::Read);
    assert!(mem.try_recv().is_none());
}

#[test]
fn requests_go_to_the_controller_of_their_channel() {
    let config = Config { channels: 2, ranks: 2, mapping_type: MappingType::ChRaBaRoCo, ..Config::default() };
    let ddr4 = DDR4::new(&config);
    assert_eq!(ddr4.get_addr_bits(), &[1, 1, 2, 2, 15, 10]);
    let mut mem = SimpleMemory::with_config(&config, &ddr4);
    // from the top: channel, rank, bank group, bank, row, column
    let on_channel = |c: u64, row: u64| -> u64 { (((((c << 1 | 1) << 2 | 1) << 2 | 1) << 15 | row) << 10) << 6 };
    mem.try_send(Request::new(on_channel(1, 4), ReqType::Read)).unwrap();
    mem.try_send(Request::new(on_channel(0, 5), ReqType::Read)).unwrap();
    assert_eq!(mem.pending_requests(), 2);
    // both channels issue in the same cycle: ACT at 1, RD at 23, data at 49
    for _ in 0..48 {
        mem.tick();
    }
    assert!(mem.try_recv().is_none());
    mem.tick();
    // collected in channel order
    let first = mem.try_recv().unwrap();
    let second = mem.try_recv().unwrap();
    assert_eq!(first.addr_vec, vec![0, 1, 1, 1, 5, 0]);
    assert_eq!(second.addr_vec, vec![1, 1, 1, 1, 4, 0]);
    assert_eq!((first.finish_time, second.finish_time), (49, 49));
    assert!(mem.try_recv().is_none());
    assert_eq!(mem.pending_requests(), 0);
}

#[test]
fn request_set_up_by_its_sender_keeps_its_coordinates() {
    let config = Config::default();
    let ddr4 = DDR4::new(&config);
    let mut mem = SimpleMemory::with_config(&config, &ddr4);
    let mut req = Request::new(0xFFFF_FFFF, ReqType::Read);
    req.addr_vec = vec![0, 0, 3, 3, 100, 200];
    req.done_setup = true;
    mem.try_send(req).unwrap();
    for _ in 0..49 {
        mem.tick();
    }
    let done = mem.try_recv().unwrap();
    assert_eq!(done.addr_vec, vec![0, 0, 3, 3, 100, 200]);
    assert_eq!(done.addr, 0xFFFF_FFFF);
}

#[test]
fn single_write_waits_while_the_controller_reads() {
    let config = Config::default();
    let ddr4 = DDR4::new(&config);
    let mut mem = SimpleMemory::with_config(&config, &ddr4);
    mem.try_send(Request::new(0, ReqType::Write)).unwrap();
    for _ in 0..200 {
        mem.tick();
    }
    // one write does not reach the high mark: the controller stays reading
    assert_eq!(mem.pending_requests(), 1);
    assert!(mem.try_recv().is_none());
}

#[test]
fn full_memory_hands_the_request_back_set_up() {
    let config = Config::default();
    let ddr4 = DDR4::new(&config);
    let mut mem = SimpleMemory::with_config(&config, &ddr4);
    for i in 0..512u64 {
        mem.try_send(Request::new(i << 6, ReqType::Read)).unwrap();
    }
    assert_eq!(mem.pending_requests(), 512);
    let back = mem.try_send(Request::new(0x7C0, ReqType::Read)).unwrap_err();
    assert_eq!(back.addr, 0x7C0);
    assert!(back.done_setup);
    assert_eq!(back.addr_vec, vec![0, 0, 0, 0, 0, 31]);
    assert_eq!(mem.pending_requests(), 512);
    // writes have their own queue
    mem.try_send(Request::new(0, ReqType::Write)).unwrap();
    assert_eq!(mem.pending_requests(), 513);
    // a request that was handed back can be offered again
    mem.tick();
    assert_eq!(mem.pending_requests(), 513);
}
