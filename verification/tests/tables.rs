use ramu_pim_rust::command::Command;
use ramu_pim_rust::config::Config;
use ramu_pim_rust::ddr4::{log2, DDR4Org, Speed, DDR4};
use ramu_pim_rust::dram::{DramSpec, TimeEntry};
use ramu_pim_rust::memory::{Level, MappingType};
use ramu_pim_rust::request::{ReqType, Request};

fn entry(e: &TimeEntry) -> (Command, usize, u64, bool) {
    (e.cmd, e.dist, e.val, e.sibling)
}

#[test]
fn log2_is_the_floor_of_the_logarithm() {
    assert_eq!(log2(0), 0);
    assert_eq!(log2(1), 0);
    assert_eq!(log2(2), 1);
    assert_eq!(log2(3), 1);
    assert_eq!(log2(4), 2);
    assert_eq!(log2(1023), 9);
    assert_eq!(log2(1024), 10);
    assert_eq!(log2(1 << 17), 17);
    assert_eq!(log2(usize::MAX), usize::BITS as usize - 1);
}

#[test]
fn command_positions() {
    let all = [
        Command::ACT,
        Command::PRE,
        Command::PREA,
        Command::RD,
        Command::WR,
        Command::RDA,
        Command::WRA,
        Command::REF,
        Command::PDE,
        Command::PDX,
        Command::SRE,
        Command::SRX,
        Command::Max,
    ];
    for (i, c) in all.iter().enumerate() {
        assert_eq!(c.index(), i);
        assert_eq!(Command::from_index(i), Some(*c));
        assert_eq!(c.is_act(), i == 0);
    }
    assert_eq!(Command::from_index(13), None);
    assert!(Command::ACT < Command::PRE);
}

#[test]
fn level_positions_and_next_level() {
    let all = [
        Level::Channel,
        Level::Rank,
        Level::BankGroup,
        Level::Bank,
        Level::Row,
        Level::Column,
        Level::Max,
    ];
    for (i, l) in all.iter().enumerate() {
        assert_eq!(l.index(), i);
        assert_eq!(Level::from_index(i), Some(*l));
        if i < 6 {
            assert_eq!(l.next_level(), Some(all[i + 1]));
        }
    }
    assert_eq!(Level::Max.next_level(), None);
    assert_eq!(Level::from_index(7), None);
}

#[test]
fn default_config() {
    let config = Config::default();
    assert_eq!(config.channels, 1);
    assert_eq!(config.ranks, 1);
    assert_eq!(config.mapping_type, MappingType::RoBaRaCoCh);
    assert_eq!(config.ddr4_org, DDR4Org::DDR4_2Gb_x4);
    assert_eq!(config.ddr4_speed, Speed::DDR4_3200);
}

#[test]
fn new_request_is_not_set_up() {
    let req = Request::new(0xABCD, ReqType::Write);
    assert_eq!(req.addr, 0xABCD);
    assert!(req.addr_vec.is_empty());
    assert!(!req.done_setup);
    assert_eq!(req.req_type, ReqType::Write);
    assert_eq!(req.arrival_time, 0);
    assert_eq!(req.finish_time, 0);
}

#[test]
fn speed_grades() {
    let s = DDR4::get_speed(&Speed::DDR4_3200);
    assert_eq!(s.rate, 3200);
    assert_eq!((s.nBL, s.nCCDS, s.nCCDL, s.nRTRS), (4, 4, 10, 2));
    assert_eq!((s.nCL, s.nRCD, s.nRP, s.nCWL), (22, 22, 22, 16));
    assert_eq!((s.nRAS, s.nRC, s.nRTP), (56, 78, 12));
    assert_eq!((s.nWTRS, s.nWTRL, s.nWR), (4, 12, 24));
    assert_eq!((s.nRRDS, s.nRRDL, s.nFAW), (8, 10, 40));
    assert_eq!((s.nRFC, s.nREFI, s.nPD, s.nXP), (0, 0, 8, 10));
    assert_eq!((s.nXPDLL, s.nCKESR, s.nXS, s.nXSDLL), (0, 8, 0, 0));
    let grades = [
        (Speed::DDR4_1600K, 1600, 11, 9, 28, 39, 6, 12, 4, 5),
        (Speed::DDR4_1600L, 1600, 12, 9, 28, 40, 6, 12, 4, 5),
        (Speed::DDR4_1866M, 1866, 13, 10, 32, 45, 7, 14, 5, 6),
        (Speed::DDR4_1866N, 1866, 14, 10, 32, 46, 7, 14, 5, 6),
        (Speed::DDR4_2133P, 2133, 15, 11, 36, 51, 8, 16, 6, 7),
        (Speed::DDR4_2133R, 2133, 16, 11, 36, 52, 8, 16, 6, 7),
        (Speed::DDR4_2400R, 2400, 16, 12, 39, 55, 9, 18, 6, 8),
        (Speed::DDR4_2400U, 2400, 18, 12, 39, 57, 9, 18, 6, 8),
    ];
    for (speed, rate, cl, cwl, ras, rc, rtp, wr, pd, xp) in grades {
        let s = DDR4::get_speed(&speed);
        assert_eq!(s.rate, rate);
        assert_eq!((s.nCL, s.nRCD, s.nRP), (cl, cl, cl));
        assert_eq!((s.nCWL, s.nRAS, s.nRC, s.nRTP, s.nWR), (cwl, ras, rc, rtp, wr));
        assert_eq!((s.nPD, s.nXP), (pd, xp));
        assert_eq!((s.nBL, s.nCCDS, s.nRTRS), (4, 4, 2));
        assert_eq!((s.nRRDS, s.nRRDL, s.nFAW, s.nRFC), (0, 0, 0, 0));
    }
}

#[test]
fn organizations() {
    let cases = [
        (DDR4Org::DDR4_2Gb_x4, 4, 1 << 15),
        (DDR4Org::DDR4_2Gb_x8, 4, 1 << 14),
        (DDR4Org::DDR4_2Gb_x16, 2, 1 << 14),
        (DDR4Org::DDR4_4Gb_x4, 4, 1 << 16),
        (DDR4Org::DDR4_4Gb_x8, 4, 1 << 15),
        (DDR4Org::DDR4_4Gb_x16, 2, 1 << 15),
        (DDR4Org::DDR4_8Gb_x4, 4, 1 << 17),
        (DDR4Org::DDR4_8Gb_x8, 4, 1 << 16),
        (DDR4Org::DDR4_8Gb_x16, 2, 1 << 16),
    ];
    for (org, groups, rows) in cases {
        let ddr4 = DDR4::new(&Config { channels: 2, ranks: 3, ddr4_org: org, ..Config::default() });
        assert_eq!(ddr4.get_child_size(), &[2, 3, groups, 4, rows, 1024]);
        assert_eq!(ddr4.get_addr_bits(), &[1, 1, log2(groups), 2, log2(rows), 10]);
    }
}

#[test]
fn table_rows_of_ddr4_3200() {
    let ddr4 = DDR4::new(&Config::default());
    let row: Vec<_> = ddr4.get_timming(&Level::Channel, &Command::RD).iter().map(entry).collect();
    assert_eq!(row, vec![(Command::RD, 1, 4, false), (Command::RDA, 1, 4, false)]);
    let row: Vec<_> = ddr4.get_timming(&Level::Channel, &Command::WRA).iter().map(entry).collect();
    assert_eq!(row, vec![(Command::WR, 1, 4, false), (Command::WRA, 1, 4, false)]);
    assert!(ddr4.get_timming(&Level::Channel, &Command::ACT).is_empty());
    let row: Vec<_> = ddr4.get_timming(&Level::Rank, &Command::ACT).iter().map(entry).collect();
    assert_eq!(
        row,
        vec![
            (Command::ACT, 1, 8, false),
            (Command::ACT, 4, 40, false),
            (Command::PREA, 1, 56, false),
            (Command::REF, 1, 78, false),
            (Command::PDE, 1, 1, false),
        ]
    );
    let row: Vec<_> = ddr4.get_timming(&Level::Rank, &Command::RD).iter().map(entry).collect();
    assert_eq!(
        row,
        vec![
            (Command::RD, 1, 4, false),
            (Command::RDA, 1, 4, false),
            (Command::WR, 1, 12, false),
            (Command::WRA, 1, 12, false),
            (Command::RD, 1, 6, true),
            (Command::RDA, 1, 6, true),
            (Command::WR, 1, 6, true),
            (Command::WRA, 1, 6, true),
            (Command::WR, 1, 12, true),
            (Command::WRA, 1, 12, true),
            (Command::PREA, 1, 12, false),
            (Command::PDE, 1, 27, false),
        ]
    );
    let row: Vec<_> = ddr4.get_timming(&Level::Rank, &Command::WRA).iter().map(entry).collect();
    assert_eq!(
        row,
        vec![
            (Command::WR, 1, 4, false),
            (Command::WRA, 1, 4, false),
            (Command::RD, 1, 24, false),
            (Command::RDA, 1, 24, false),
            (Command::RD, 1, 0, true),
            (Command::RDA, 1, 0, true),
            (Command::PDE, 1, 45, false),
            (Command::REF, 1, 66, false),
        ]
    );
    let row: Vec<_> = ddr4.get_timming(&Level::Rank, &Command::PDX).iter().map(entry).collect();
    assert_eq!(row.len(), 10);
    assert!(row.iter().all(|e| e.1 == 1 && e.2 == 10 && !e.3));
    let row: Vec<_> = ddr4.get_timming(&Level::Rank, &Command::SRE).iter().map(entry).collect();
    assert_eq!(row, vec![(Command::SRX, 1, 8, false)]);
    let row: Vec<_> = ddr4.get_timming(&Level::BankGroup, &Command::WR).iter().map(entry).collect();
    assert_eq!(
        row,
        vec![
            (Command::WR, 1, 10, false),
            (Command::WRA, 1, 10, false),
            (Command::RD, 1, 32, false),
            (Command::RDA, 1, 32, false),
        ]
    );
    let row: Vec<_> = ddr4.get_timming(&Level::Bank, &Command::ACT).iter().map(entry).collect();
    assert_eq!(
        row,
        vec![
            (Command::RD, 1, 22, false),
            (Command::RDA, 1, 22, false),
            (Command::WR, 1, 22, false),
            (Command::WRA, 1, 22, false),
            (Command::ACT, 1, 78, false),
            (Command::PRE, 1, 56, false),
        ]
    );
    let row: Vec<_> = ddr4.get_timming(&Level::Bank, &Command::WRA).iter().map(entry).collect();
    assert_eq!(row, vec![(Command::ACT, 1, 66, false)]);
    assert!(ddr4.get_timming(&Level::Row, &Command::ACT).is_empty());
    assert!(ddr4.get_timming(&Level::Column, &Command::RD).is_empty());
    let mut total = 0;
    for l in 0..6 {
        for c in 0..12 {
            let level = Level::from_index(l).unwrap();
            let cmd = Command::from_index(c).unwrap();
            total += ddr4.get_timming(&level, &cmd).len();
            assert_eq!(
                ddr4.get_timming(&level, &cmd).len(),
                DDR4::timing_row(&DDR4::get_speed(&Speed::DDR4_3200), &level, &cmd).len()
            );
        }
    }
    assert_eq!(total, 101);
}

#[test]
fn init_timing_appends_to_the_rows() {
    let s = DDR4::get_speed(&Speed::DDR4_2400R);
    let mut table: Vec<Vec<Vec<TimeEntry>>> = vec![vec![vec![]; 12]; 6];
    table[3][1].push(TimeEntry::new(Command::SRX, 7, 99, true));
    DDR4::init_timing(&mut table, &s);
    let row: Vec<_> = table[3][1].iter().map(entry).collect();
    // the entry that was there, then Bank PRE -> ACT after nRP = 16
    assert_eq!(row, vec![(Command::SRX, 7, 99, true), (Command::ACT, 1, 16, false)]);
    assert_eq!(table.len(), 6);
    assert!(table.iter().all(|rows| rows.len() == 12));
    assert!(table[4].iter().all(|row| row.is_empty()));
    assert!(table[5].iter().all(|row| row.is_empty()));
}
