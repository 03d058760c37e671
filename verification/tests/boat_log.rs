use boat::boat::{split_log_lines, BoatEvent, BoatLogLine};

fn arch_state(pc: u64, reg_idx: u8, data: u64) -> BoatEvent {
    BoatEvent::ArchState { action: String::from("write"), pc, reg_idx, data }
}

#[test]
fn reset_vector_only_from_reset_events() {
    assert_eq!(BoatEvent::ResetVector { new_addr: 0x8000_0000 }.get_reset_vector(), Some(0x8000_0000));
    assert_eq!(arch_state(0x8000_0000, 1, 2).get_reset_vector(), None);
    assert_eq!(BoatEvent::InstructionFetch { data: 0x13 }.get_reset_vector(), None);
    let memory = BoatEvent::PhysicalMemory { action: String::from("read"), bytes: 4, address: 0x1000 };
    assert_eq!(memory.get_reset_vector(), None);
}

#[test]
fn log_line_holds_its_event() {
    let line = BoatLogLine { fields: BoatEvent::ResetVector { new_addr: 0x1000 } };
    assert_eq!(line.fields.get_reset_vector(), Some(0x1000));
}

#[test]
fn arch_state_text_uses_full_width_hex_and_decimal_register() {
    let text = arch_state(0x8000_0004, 11, 0x40).display_text();
    assert_eq!(
        text.as_deref(),
        Some("PC=0x0000000080000004 write to register [x11] with [0x0000000000000040]")
    );
    let max = arch_state(u64::MAX, 255, u64::MAX).display_text().unwrap();
    assert_eq!(max, "PC=0xffffffffffffffff write to register [x255] with [0xffffffffffffffff]");
}

#[test]
fn other_events_have_no_arch_state_text() {
    assert_eq!(BoatEvent::ResetVector { new_addr: 1 }.display_text(), None);
    assert_eq!(BoatEvent::InstructionFetch { data: 1 }.display_text(), None);
}

fn lines(raw: &[u8]) -> Vec<String> {
    split_log_lines(raw).into_iter().map(|l| String::from_utf8(l).unwrap()).collect()
}

#[test]
fn log_splits_at_newlines_and_crlf() {
    assert_eq!(lines(b"a\nb\r\n\nc"), vec!["a", "b", "", "c"]);
}

#[test]
fn final_line_ending_adds_no_line() {
    assert_eq!(lines(b"a\nb\n"), vec!["a", "b"]);
    assert_eq!(lines(b"\n"), vec![""]);
    assert!(lines(b"").is_empty());
}

#[test]
fn lone_carriage_return_stays_in_the_last_line() {
    assert_eq!(lines(b"a\r"), vec!["a\r"]);
    assert_eq!(lines(b"a\r\r\n"), vec!["a\r"]);
}

#[test]
fn log_lines_match_str_lines() {
    let raw = "{\"fields\":{}}\r\n\n x \r\ny";
    let expected: Vec<&str> = raw.lines().collect();
    assert_eq!(lines(raw.as_bytes()), expected);
}

fn event_from_json(value: &serde_json::Value) -> BoatEvent {
    let fields = &value["fields"];
    let num = |name: &str| fields[name].as_u64().unwrap();
    let action = || fields["action"].as_str().unwrap().to_string();
    match fields["event_type"].as_str().unwrap() {
        "physical_memory" => BoatEvent::PhysicalMemory { action: action(), bytes: num("bytes") as u8, address: num("address") },
        "arch_state" => BoatEvent::ArchState { action: action(), pc: num("pc"), reg_idx: num("reg_idx") as u8, data: num("data") },
        "instruction_fetch" => BoatEvent::InstructionFetch { data: num("data") as u32 },
        "reset_vector" => BoatEvent::ResetVector { new_addr: num("new_addr") },
        other => panic!("unknown event type {other}"),
    }
}

#[test]
fn test_parsing_boat_log() {
    let sample_log = [
        "{\"fields\":{\"event_type\":\"reset_vector\",\"new_addr\":2147483648}}",
        "{\"fields\":{\"event_type\":\"instruction_fetch\",\"data\":663}}",
        "{\"fields\":{\"event_type\":\"arch_state\",\"action\":\"write\",\"pc\":2147483648,\"reg_idx\":5,\"data\":2147483648}}",
        "{\"fields\":{\"event_type\":\"physical_memory\",\"action\":\"read\",\"bytes\":4,\"address\":4096}}",
        "",
    ]
    .join("\n")
    .into_bytes();
    let sample_log = sample_log.as_slice();
    assert!(!sample_log.is_empty());
    let log: Vec<BoatEvent> = split_log_lines(sample_log)
        .iter()
        .map(|line| event_from_json(&serde_json::from_slice(line).unwrap()))
        .collect();
    assert!(!log.is_empty());
    assert_eq!(log.len(), 4);
    assert_eq!(log[0].get_reset_vector(), Some(0x8000_0000));
    assert_eq!(
        log[2].display_text().as_deref(),
        Some("PC=0x0000000080000000 write to register [x5] with [0x0000000080000000]")
    );
}
