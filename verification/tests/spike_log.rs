use boat::difftest::SpikeCommit;
use boat::spike_log::parse_commit_line;

#[test]
fn register_write_line() {
    let e = parse_commit_line(b"core   0: 3 0x0000000080000004 (0x02028593) x11 0x0000000080000040").unwrap();
    assert_eq!(e.pc, 0x8000_0004);
    assert_eq!(e.commits, vec![SpikeCommit::Register { idx: 11, value: 0x8000_0040 }]);
}

#[test]
fn store_and_load_lines() {
    let store = parse_commit_line(b"core   0: 3 0x000000008000000c (0x00b52023) mem 0x0000000010000000 0x00000000deadbeef").unwrap();
    assert_eq!(store.commits, vec![SpikeCommit::MemoryWrite { address: 0x1000_0000, data: 0xdead_beef }]);
    let load = parse_commit_line(b"core   0: 3 0x0000000080000010 (0x00052503) x10 0x0000000000000001 mem 0x0000000080001000").unwrap();
    assert_eq!(
        load.commits,
        vec![SpikeCommit::Register { idx: 10, value: 1 }, SpikeCommit::MemoryRead { address: 0x8000_1000 }]
    );
}

#[test]
fn other_committed_state_is_passed_over() {
    let e = parse_commit_line(b"core   0: 3 0x0000000080000014 (0x30200073) c768_mstatus 0x0000000000000080 x1 0x5").unwrap();
    assert_eq!(e.commits, vec![SpikeCommit::Register { idx: 1, value: 5 }]);
    let f = parse_commit_line(b"core\t0:\t3 0x20 (0x1) f3 0x3ff0000000000000").unwrap();
    assert_eq!(f.pc, 0x20);
    assert!(f.commits.is_empty());
}

#[test]
fn non_commit_lines_give_nothing() {
    assert!(parse_commit_line(b"").is_none());
    assert!(parse_commit_line(b"core   0: 0x0000000000001000 (0x00000297) auipc   t0, 0x0").is_none());
    assert!(parse_commit_line(b"bbl loader").is_none());
    assert!(parse_commit_line(b"core   0: 3 0x0000000000001000").is_none());
    assert!(parse_commit_line(b"core   0: 3 0x0000000000001000 0x00000297 x5 0x1000").is_none());
}

#[test]
fn register_index_must_be_a_register() {
    let e = parse_commit_line(b"core 0: 3 0x4 (0x0) x32 0x1 x31 0x2").unwrap();
    assert_eq!(e.commits, vec![SpikeCommit::Register { idx: 31, value: 2 }]);
}
