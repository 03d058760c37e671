use boat::elf::{load_elf, ElfBuffer, ElfLoadError};
use boat::simulator::{SailImpl, Simulator, SimulatorHandler, EXIT_ADDR, EXIT_CODE, SAIL_UNIT};

/// A 64-bit little-endian ELF header for `machine` with the program header
/// table right after it, followed by the given program headers and then `data`.
fn elf_image(machine: u16, entry: u64, headers: &[(u32, u64, u64, u64)], data: &[u8]) -> Vec<u8> {
    let mut b = vec![0x7f, b'E', b'L', b'F', 2, 1, 1, 0];
    b.extend_from_slice(&[0; 8]);
    b.extend_from_slice(&2u16.to_le_bytes());
    b.extend_from_slice(&machine.to_le_bytes());
    b.extend_from_slice(&1u32.to_le_bytes());
    b.extend_from_slice(&entry.to_le_bytes());
    b.extend_from_slice(&64u64.to_le_bytes());
    b.extend_from_slice(&0u64.to_le_bytes());
    b.extend_from_slice(&0u32.to_le_bytes());
    b.extend_from_slice(&64u16.to_le_bytes());
    b.extend_from_slice(&56u16.to_le_bytes());
    b.extend_from_slice(&(headers.len() as u16).to_le_bytes());
    b.extend_from_slice(&[0; 6]);
    for (kind, offset, vaddr, size) in headers {
        b.extend_from_slice(&kind.to_le_bytes());
        b.extend_from_slice(&5u32.to_le_bytes());
        b.extend_from_slice(&offset.to_le_bytes());
        b.extend_from_slice(&vaddr.to_le_bytes());
        b.extend_from_slice(&vaddr.to_le_bytes());
        b.extend_from_slice(&size.to_le_bytes());
        b.extend_from_slice(&size.to_le_bytes());
        b.extend_from_slice(&8u64.to_le_bytes());
    }
    b.extend_from_slice(data);
    b
}

const RISC_V: u16 = 0xf3;

fn buffer(bytes: &[u8]) -> ElfBuffer {
    ElfBuffer::copy_from(bytes).unwrap()
}

fn data_offset(headers: usize) -> u64 {
    64 + 56 * headers as u64
}

#[test]
fn new_loads_segments_and_gives_entry() {
    let data = [0x13, 0x05, 0x10, 0x00, 0xaa, 0xbb];
    let off = data_offset(2);
    let elf = elf_image(RISC_V, 0x20, &[(1, off, 0x20, 4), (1, off + 4, 0x30, 2)], &data);
    let (sim, entry) = Simulator::new(64, &buffer(&elf)).unwrap();
    assert_eq!(entry, 0x20);
    assert_eq!(sim.memory_size(), 64);
    assert_eq!(sim.phy_readmem(0x20, 4), 0x0010_0513);
    assert_eq!(sim.phy_readmem(0x30, 2), 0xbbaa);
    assert_eq!(sim.phy_readmem(0x00, 8), 0);
    assert_eq!(sim.instruction_count(), 0);
    assert_eq!(sim.fetch_count(), 0);
    assert_eq!(sim.step_count(), 0);
    assert!(!sim.is_finished());
}

#[test]
fn non_load_segments_are_skipped() {
    let data = [1, 2, 3, 4];
    let off = data_offset(1);
    let elf = elf_image(RISC_V, 0, &[(4, off, 0x10, 4)], &data);
    let (sim, _) = Simulator::new(32, &buffer(&elf)).unwrap();
    assert_eq!(sim.phy_readmem(0x10, 4), 0);
}

#[test]
fn later_segments_overwrite_earlier_ones() {
    let data = [1, 2, 3, 4];
    let off = data_offset(2);
    let elf = elf_image(RISC_V, 0, &[(1, off, 0x8, 4), (1, off + 2, 0x9, 2)], &data);
    let mut mem = vec![0u8; 16];
    assert_eq!(load_elf(&buffer(&elf), &mut mem), Ok(0));
    assert_eq!(&mem[8..12], &[1, 3, 4, 4]);
}

#[test]
fn load_errors() {
    let mut mem = vec![0u8; 16];
    assert_eq!(load_elf(&buffer(b"not an elf image at all, sorry"), &mut mem), Err(ElfLoadError::InvalidHeader));
    let off = data_offset(1);
    let x86 = elf_image(0x3e, 0, &[(1, off, 0, 4)], &[1, 2, 3, 4]);
    assert_eq!(load_elf(&buffer(&x86), &mut mem), Err(ElfLoadError::NotRiscV));
    let too_big = elf_image(RISC_V, 0, &[(1, off, 14, 4)], &[1, 2, 3, 4]);
    assert_eq!(load_elf(&buffer(&too_big), &mut mem), Err(ElfLoadError::SegmentOutOfMemory(0)));
    let past_file = elf_image(RISC_V, 0, &[(1, off, 0, 8)], &[1, 2, 3, 4]);
    assert_eq!(load_elf(&buffer(&past_file), &mut mem), Err(ElfLoadError::SegmentOutOfFile(0)));
    let mut truncated = elf_image(RISC_V, 0, &[(1, off, 0, 4)], &[]);
    truncated.truncate(100);
    assert_eq!(load_elf(&buffer(&truncated), &mut mem), Err(ElfLoadError::ProgramHeaderOutOfFile(0)));
    assert_eq!(mem, vec![0u8; 16]);
}

#[test]
fn write_then_read_back() {
    let mut sim = Simulator::with_memory(32);
    assert_eq!(sim.writemem(8, 0x1122_3344_5566_7788, 8, 0), SAIL_UNIT);
    assert_eq!(sim.readmem(8, 0), 0x1122_3344_5566_7788);
    assert_eq!(sim.writemem(8, 0xffff_ffff_ffff_abcd, 2, 0), SAIL_UNIT);
    assert_eq!(sim.readmem(8, 0), 0x1122_3344_5566_abcd);
    assert_eq!(sim.phy_readmem(8, 1), 0xcd);
    sim.phy_write_mem(0, 0xdead_beef, 4);
    assert_eq!(sim.phy_readmem(0, 8), 0xdead_beef);
    assert_eq!(sim.writemem(16, 0x55, 0, 0), SAIL_UNIT);
    assert_eq!(sim.phy_readmem(16, 8), 0);
}

#[test]
fn instruction_fetch_reads_a_little_endian_word() {
    let mut sim = Simulator::with_memory(16);
    sim.phy_write_mem(4, 0x0010_0513, 4);
    assert_eq!(sim.inst_fetch(4), 0x0010_0513);
    assert_eq!(sim.inst_fetch(4), 0x0010_0513);
    assert_eq!(sim.fetch_count(), 2);
}

#[test]
fn exit_write_finishes_without_touching_memory() {
    let mut sim = Simulator::with_memory(16);
    assert_eq!(sim.check_step(), Ok(()));
    assert_eq!(sim.check_step(), Ok(()));
    assert_eq!(sim.step_count(), 2);
    assert_eq!(sim.instruction_count(), 2);
    assert_eq!(sim.writemem(EXIT_ADDR, EXIT_CODE, 8, 0), SAIL_UNIT);
    assert!(sim.is_finished());
    assert_eq!(sim.check_step(), Err(()));
    assert_eq!(sim.check_step(), Err(()));
    assert_eq!(sim.step_count(), 2);
}

#[test]
fn other_writes_to_the_exit_address_are_plain_writes() {
    let mut sim = Simulator::with_memory(EXIT_ADDR as usize + 8);
    sim.writemem(EXIT_ADDR, 1, 8, 0);
    assert!(!sim.is_finished());
    assert_eq!(sim.readmem(EXIT_ADDR, 0), 1);
}

#[test]
fn reset_is_reported_once() {
    let mut sim = Simulator::with_memory(8);
    assert!(sim.is_reset(0));
    assert!(!sim.is_reset(0));
    assert!(!sim.is_reset(0));
}

#[test]
fn no_exceptions_and_fences_are_free() {
    let sim = Simulator::with_memory(8);
    assert!(!sim.exception_raised(0));
    assert_eq!(sim.get_exception(0), 0);
    assert_eq!(sim.fence_i(1, 2), SAIL_UNIT);
}

#[test]
fn handler_lifecycle() {
    let mut handler: SimulatorHandler<Simulator> = SimulatorHandler::new();
    assert_eq!(handler.with_optional(|sim| { let held = sim.is_some(); (sim, held) }), false);
    handler.init(|| Simulator::with_memory(16));
    let fetched = handler.with(|mut sim| {
        sim.phy_write_mem(0, 0x13, 4);
        let inst = sim.inst_fetch(0);
        (sim, inst)
    });
    assert_eq!(fetched, 0x13);
    assert_eq!(handler.with(|sim| { let n = sim.fetch_count(); (sim, n) }), 1);
    assert_eq!(handler.with_optional(|sim| { let held = sim.is_some(); (sim, held) }), true);
    handler.dispose();
    assert_eq!(handler.with_optional(|sim| { let held = sim.is_some(); (sim, held) }), false);
    handler.init(|| Simulator::with_memory(8));
    assert_eq!(handler.with(|sim| { let n = sim.memory_size(); (sim, n) }), 8);
}

/// A 32-bit little-endian RISC-V ELF image with one loadable segment.
fn elf32_image(entry: u32, vaddr: u32, data: &[u8]) -> Vec<u8> {
    let mut b = vec![0x7f, b'E', b'L', b'F', 1, 1, 1, 0];
    b.extend_from_slice(&[0; 8]);
    b.extend_from_slice(&2u16.to_le_bytes());
    b.extend_from_slice(&RISC_V.to_le_bytes());
    b.extend_from_slice(&1u32.to_le_bytes());
    b.extend_from_slice(&entry.to_le_bytes());
    b.extend_from_slice(&52u32.to_le_bytes());
    b.extend_from_slice(&0u32.to_le_bytes());
    b.extend_from_slice(&0u32.to_le_bytes());
    b.extend_from_slice(&52u16.to_le_bytes());
    b.extend_from_slice(&32u16.to_le_bytes());
    b.extend_from_slice(&1u16.to_le_bytes());
    b.extend_from_slice(&[0; 6]);
    for field in [1u32, 84, vaddr, vaddr, data.len() as u32, data.len() as u32, 5, 4] {
        b.extend_from_slice(&field.to_le_bytes());
    }
    b.extend_from_slice(data);
    b
}

#[test]
fn only_64_bit_segments_are_loaded() {
    let elf = elf32_image(0x40, 0x4, &[9, 9, 9, 9]);
    let mut mem = vec![0u8; 16];
    assert_eq!(load_elf(&buffer(&elf), &mut mem), Ok(0x40));
    assert_eq!(mem, vec![0u8; 16]);
}

#[test]
fn elf_buffer_copies_from_any_address() {
    let data = [0x13, 0x05, 0x10, 0x00];
    let elf = elf_image(RISC_V, 0x8, &[(1, data_offset(1), 0x8, 4)], &data);
    let mut shifted = vec![0xffu8];
    shifted.extend_from_slice(&elf);
    let copy = buffer(&shifted[1..]);
    assert_eq!(copy.as_slice(), elf.as_slice());
    let mut mem = vec![0u8; 16];
    assert_eq!(load_elf(&copy, &mut mem), Ok(0x8));
    assert_eq!(&mem[8..12], &data);
}

#[test]
fn misaligned_program_header_is_refused() {
    let mut elf = elf_image(RISC_V, 0, &[(1, data_offset(1) + 4, 0, 4)], &[1, 2, 3, 4]);
    elf[32] = 68;
    elf.splice(64..64, [0u8; 4]);
    let mut mem = vec![0u8; 16];
    assert_eq!(load_elf(&buffer(&elf), &mut mem), Err(ElfLoadError::ProgramHeaderMisaligned(0)));
    assert_eq!(mem, vec![0u8; 16]);
}

#[test]
fn header_must_be_complete_for_its_class() {
    let elf = elf_image(RISC_V, 0, &[], &[]);
    let mut mem = vec![0u8; 8];
    assert_eq!(load_elf(&buffer(&elf[..63]), &mut mem), Err(ElfLoadError::InvalidHeader));
    let mut bad_class = elf.clone();
    bad_class[4] = 3;
    assert_eq!(load_elf(&buffer(&bad_class), &mut mem), Err(ElfLoadError::InvalidHeader));
    assert_eq!(load_elf(&buffer(&elf), &mut mem), Ok(0));
}

#[test]
fn exit_stays_final_and_reset_stays_reported() {
    let mut sim = Simulator::with_memory(16);
    assert!(sim.is_reset(0));
    sim.writemem(EXIT_ADDR, EXIT_CODE, 4, 0);
    sim.writemem(0, 1, 8, 0);
    sim.phy_write_mem(8, 2, 8);
    sim.phy_write_mem(0, 0x13, 4);
    assert_eq!(sim.inst_fetch(0), 0x13);
    assert_eq!(sim.check_step(), Err(()));
    assert!(!sim.is_reset(0));
    assert_eq!(sim.check_step(), Err(()));
    assert!(sim.is_finished());
}

#[test]
fn elf_buffer_copies_every_image() {
    for len in 0..20usize {
        let bytes: Vec<u8> = (0..len as u8).collect();
        let copy = ElfBuffer::copy_from(&bytes[..]).unwrap();
        assert_eq!(copy.as_slice(), &bytes[..]);
        assert_eq!(copy.as_slice().as_ptr() as usize % 8, 0);
    }
}
