use boat::boat::BoatEvent;
use boat::difftest::{diff, DiffMeta, EndPattern, SpikeCommit, SpikeEvent};

fn reg(idx: u8, value: u64) -> SpikeCommit {
    SpikeCommit::Register { idx, value }
}

fn spike(pc: u64, commits: Vec<SpikeCommit>) -> SpikeEvent {
    SpikeEvent { pc, commits }
}

fn arch(pc: u64, reg_idx: u8, data: u64) -> BoatEvent {
    BoatEvent::ArchState { action: String::from("write"), pc, reg_idx, data }
}

fn end_pattern() -> EndPattern {
    EndPattern { action: String::from("write"), memory_address: 0x1000_0000, data: 0xdead_beef }
}

fn end_event(pc: u64) -> SpikeEvent {
    spike(pc, vec![SpikeCommit::MemoryWrite { address: 0x1000_0000, data: 0xdead_beef }])
}

fn spike_log() -> Vec<SpikeEvent> {
    vec![
        spike(0x1000, vec![reg(5, 0x1000)]),
        spike(0x8000_0000, vec![reg(5, 7)]),
        spike(0x8000_0004, vec![SpikeCommit::MemoryRead { address: 0x10 }]),
        spike(0x8000_0008, vec![SpikeCommit::MemoryRead { address: 0x20 }, reg(6, 9)]),
        end_event(0x8000_000c),
        spike(0x8000_0010, vec![reg(7, 1)]),
    ]
}

#[test]
fn matching_logs_pass() {
    let boat = vec![
        BoatEvent::ResetVector { new_addr: 0x8000_0000 },
        arch(0x8000_0000, 5, 7),
        BoatEvent::InstructionFetch { data: 0x13 },
        arch(0x8000_0008, 6, 9),
    ];
    let result = diff(&spike_log(), &boat, &end_pattern());
    assert!(result.is_same);
    assert_eq!(result.context, "");
}

#[test]
fn missing_end_pattern_fails() {
    let log = vec![spike(0x8000_0000, vec![reg(5, 7)])];
    let boat = vec![BoatEvent::ResetVector { new_addr: 0x8000_0000 }];
    let result = diff(&log, &boat, &end_pattern());
    assert!(!result.is_same);
    assert_eq!(result.context, "Can't find any end pattern from spike log");
}

#[test]
fn spike_write_missing_in_boat_fails() {
    let boat = vec![BoatEvent::ResetVector { new_addr: 0x8000_0000 }, arch(0x8000_0000, 5, 7)];
    let result = diff(&spike_log(), &boat, &end_pattern());
    assert!(!result.is_same);
    assert_eq!(
        result.context,
        "At PC=0x0000000080000008 spike have following commit events that are not occur at boat side:\n\n\
         PC=0x0000000080000008 mem 0x0000000000000020 x6 0x0000000000000009\n"
    );
}

#[test]
fn different_register_value_fails() {
    let boat = vec![
        BoatEvent::ResetVector { new_addr: 0x8000_0000 },
        arch(0x8000_0000, 5, 8),
    ];
    let result = diff(&spike_log(), &boat, &end_pattern());
    assert!(!result.is_same);
    assert_eq!(
        result.context,
        "At PC=0x0000000080000000 boat write 0x0000000000000008 to register x5,\n\
         but this action was not found at spike side.\n\n\
         ------------\n|Event Dump|\n------------\n\n\
         We get boat:\n\
         PC=0x0000000080000000 write to register [x5] with [0x0000000000000008]\n\n\
         But have spike:\n\
         PC=0x0000000080000000 x5 0x0000000000000007\n"
    );
}

#[test]
fn events_before_reset_and_after_end_are_ignored() {
    let log = vec![
        spike(0x10, vec![reg(1, 1)]),
        spike(0x8000_0000, vec![]),
        end_event(0x8000_0004),
        spike(0x8000_0008, vec![reg(2, 2)]),
    ];
    let boat = vec![BoatEvent::ResetVector { new_addr: 0x8000_0000 }];
    assert!(diff(&log, &boat, &end_pattern()).is_same);
}

#[test]
fn cursor_moves_by_the_distance_found() {
    let log = vec![
        spike(0x100, vec![reg(1, 1)]),
        spike(0x104, vec![reg(2, 2)]),
        spike(0x108, vec![reg(3, 3)]),
        end_event(0x10c),
    ];
    let boat = vec![
        BoatEvent::ResetVector { new_addr: 0x100 },
        BoatEvent::InstructionFetch { data: 0 },
        arch(0x100, 1, 1),
        arch(0x104, 2, 2),
        arch(0x108, 3, 3),
    ];
    assert!(diff(&log, &boat, &end_pattern()).is_same);
}

#[test]
fn first_memory_write_decides_the_end() {
    let log = vec![
        spike(0x100, vec![SpikeCommit::MemoryWrite { address: 0x1000_0000, data: 1 },
            SpikeCommit::MemoryWrite { address: 0x1000_0000, data: 0xdead_beef }]),
        spike(0x104, vec![reg(1, 1)]),
        end_event(0x108),
    ];
    let boat = vec![BoatEvent::ResetVector { new_addr: 0x100 }];
    let result = diff(&log, &boat, &end_pattern());
    assert!(!result.is_same);
    assert!(result.context.starts_with("At PC=0x0000000000000104 spike have"));
}

#[test]
fn spike_event_queries() {
    let e = spike(0x40, vec![SpikeCommit::MemoryRead { address: 1 }, reg(3, 4),
        SpikeCommit::MemoryWrite { address: 2, data: 5 }, SpikeCommit::MemoryWrite { address: 6, data: 7 }]);
    assert_eq!(e.get_mem_write(), Some((2, 5)));
    assert!(e.has_reg_write_commit());
    assert!(e.writes_register(3, 4));
    assert!(!e.writes_register(3, 5));
    assert_eq!(
        e.display_text(),
        "PC=0x0000000000000040 mem 0x0000000000000001 x3 0x0000000000000004 \
         mem 0x0000000000000002 0x0000000000000005 mem 0x0000000000000006 0x0000000000000007"
    );
    let quiet = spike(0x44, vec![]);
    assert_eq!(quiet.get_mem_write(), None);
    assert!(!quiet.has_reg_write_commit());
}

#[test]
fn diff_meta_constructors() {
    let ok = DiffMeta::passed();
    assert!(ok.is_same);
    assert!(ok.context.is_empty());
    let bad = DiffMeta::failed(String::from("why"));
    assert!(!bad.is_same);
    assert_eq!(bad.context, "why");
}

#[test]
fn events_before_the_reset_vector_change_nothing() {
    let boat = vec![BoatEvent::ResetVector { new_addr: 0x8000_0000 }, arch(0x8000_0000, 5, 7)];
    let plain = diff(&spike_log(), &boat, &end_pattern());
    let mut prefixed = vec![spike(0x20, vec![reg(9, 9)]), spike(0x24, vec![SpikeCommit::MemoryRead { address: 0 }])];
    prefixed.extend(spike_log());
    let with_prefix = diff(&prefixed, &boat, &end_pattern());
    assert_eq!(plain.is_same, with_prefix.is_same);
    assert_eq!(plain.context, with_prefix.context);
    assert!(!plain.is_same);
}
