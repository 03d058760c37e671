//! Loading the loadable segments of a RISC-V ELF image into emulated memory.
//!
//! The ELF header and the program headers are read by `xmas_elf`; this
//! module decides which segments go where and copies them.
use vstd::prelude::*;
use xmas_elf::program::{ProgramHeader, Type};

verus! {

#[verifier::external_type_specification]
#[verifier::external_body]
pub struct ExElfFile<'a>(xmas_elf::ElfFile<'a>);

/// What the loader needs of one program header.
#[derive(Clone, Copy, Debug, PartialEq, Eq, Structural)]
pub struct SegmentHeader {
    /// The header is a 64-bit one.
    pub is_64: bool,
    /// The segment's type is `PT_LOAD`.
    pub is_load: bool,
    pub offset: u64,
    pub file_size: u64,
    pub virtual_addr: u64,
}

/// Why an image could not be loaded.
#[derive(Clone, Copy, Debug, PartialEq, Eq, Structural)]
pub enum ElfLoadError {
    /// `xmas_elf` does not accept the ELF header.
    InvalidHeader,
    /// The image is not built for RISC-V.
    NotRiscV,
    /// The program header with this index lies outside the image.
    ProgramHeaderOutOfFile(u16),
    /// The bytes of this loadable segment lie outside the image.
    SegmentOutOfFile(u16),
    /// The program header with this index is not aligned for its class.
    ProgramHeaderMisaligned(u16),
    /// This loadable segment does not fit in the emulated memory.
    SegmentOutOfMemory(u16),
}

/// Whether `xmas_elf::ElfFile::new` accepts the image: it starts with the
/// ELF magic number, its class byte says 32 or 64 bits, and it is long
/// enough for both parts of the header of that class (16 bytes, then 36 or
/// 48).
pub open spec fn elf_opens(bytes: Seq<u8>) -> bool {
    &&& bytes.len() >= 16
    &&& bytes[0] == 0x7f && bytes[1] == 0x45 && bytes[2] == 0x4c && bytes[3] == 0x46
    &&& (bytes[4] == 1 && bytes.len() >= 16 + 36 || bytes[4] == 2 && bytes.len() >= 16 + 48)
}

/// The header fields below are read by `xmas_elf` straight from the bytes
/// in the host's byte order, so what they give for given bytes depends on the
/// host; they are named here rather than written out as reads of the bytes.
///
/// Whether the image's header names RISC-V as its machine.
pub uninterp spec fn elf_is_risc_v(bytes: Seq<u8>) -> bool;

/// Whether the image's class byte says it is a 64-bit image.
pub open spec fn elf_is_64(bytes: Seq<u8>) -> bool {
    bytes.len() > 4 && bytes[4] == 2
}

/// The entry point in the image's header.
pub uninterp spec fn elf_entry_point(bytes: Seq<u8>) -> u64;

/// The number of program headers in the image's header.
pub uninterp spec fn elf_ph_count(bytes: Seq<u8>) -> u16;

/// The offset of the program header table in the image's header.
pub uninterp spec fn elf_ph_offset(bytes: Seq<u8>) -> u64;

/// The size of one program header entry in the image's header.
pub uninterp spec fn elf_ph_entry_size(bytes: Seq<u8>) -> u16;

/// The program header with the given index, as `xmas_elf` reads it.
pub uninterp spec fn elf_program_header(bytes: Seq<u8>, index: u16) -> Option<SegmentHeader>;

/// `xmas_elf` reads a program header only where the header table names one.
pub open spec fn names_program_header(bytes: Seq<u8>, index: u16) -> bool {
    index < elf_ph_count(bytes) && elf_ph_offset(bytes) > 0 && elf_ph_entry_size(bytes) > 0
}

/// The table entry with this index lies inside the image and is large enough
/// for a program header of the image's class.
pub open spec fn program_header_in_file(bytes: Seq<u8>, index: u16) -> bool {
    &&& elf_ph_offset(bytes) + (index + 1) * elf_ph_entry_size(bytes) <= bytes.len()
    &&& elf_ph_entry_size(bytes) >= (if elf_is_64(bytes) { 56int } else { 32int })
}

/// The table entry with this index starts at an offset that is a multiple of
/// the alignment of a program header of the image's class (8 for 64-bit, 4
/// for 32-bit); from an `ElfBuffer`, such an entry is aligned in memory.
pub open spec fn program_header_aligned(bytes: Seq<u8>, index: u16) -> bool {
    (elf_ph_offset(bytes) + index * elf_ph_entry_size(bytes)) % (if elf_is_64(bytes) { 8int } else { 4int }) == 0
}

/// `<*const u8>::addr` of the first byte of `bytes`: its address in memory.
/// The address depends on where the bytes sit, so no clause states it.
#[verifier::external_body]
fn address_of(bytes: &[u8]) -> usize {
    bytes.as_ptr().addr()
}

/// A copy of an ELF image whose first byte sits at an address that is a
/// multiple of 8, so aligned for a `u64`, as `xmas_elf`'s header and program
/// header reads need. Only `copy_from` makes one: it starts the copy at the
/// offset into its storage that makes the address a multiple of 8, and never
/// resizes the storage afterwards.
pub struct ElfBuffer {
    storage: Vec<u8>,
    start: usize,
    end: usize,
}

impl View for ElfBuffer {
    type V = Seq<u8>;

    closed spec fn view(&self) -> Seq<u8> {
        self.storage@.subrange(self.start as int, self.end as int)
    }
}

impl ElfBuffer {
    #[verifier::type_invariant]
    closed spec fn well_formed(self) -> bool {
        self.start <= self.end <= self.storage@.len()
    }

    /// Copies `bytes` to an address that is a multiple of 8. The copy takes
    /// eight bytes more than the image, so it can be made for every image
    /// whose length leaves room for them in a `usize`.
    pub fn copy_from(bytes: &[u8]) -> (r: Option<ElfBuffer>)
        ensures
            r is Some <==> bytes@.len() <= usize::MAX - 8,
            r matches Some(buffer) ==> buffer@ == bytes@,
    {
        let len = bytes.len();
        if len > usize::MAX - 8 {
            return None;
        }
        let mut storage: Vec<u8> = vec![0u8; len + 8];
        let k: usize = (8 - address_of(storage.as_slice()) % 8) % 8;
        let mut i: usize = 0;
        while i < len
            invariant
                i <= len,
                k < 8,
                len <= usize::MAX - 8,
                len == bytes@.len(),
                storage@.len() == len + 8,
                forall|j: int| 0 <= j < i ==> #[trigger] storage@[k + j] == bytes@[j],
            decreases len - i,
        {
            storage.set(k + i, bytes[i]);
            i = i + 1;
        }
        let buffer = ElfBuffer { storage, start: k, end: k + len };
        assert forall|j: int| 0 <= j < len implies #[trigger] buffer@[j] == bytes@[j] by {
            assert(buffer@[j] == buffer.storage@[k + j]);
        }
        assert(buffer@ =~= bytes@);
        Some(buffer)
    }

    /// The bytes of the image.
    pub fn as_slice(&self) -> (r: &[u8])
        ensures
            r@ == self@,
    {
        proof {
            use_type_invariant(self);
        }
        vstd::slice::slice_subrange(self.storage.as_slice(), self.start, self.end)
    }
}

/// A parsed image together with the bytes it was parsed from.
pub(crate) struct ElfImage<'a> {
    file: xmas_elf::ElfFile<'a>,
    input: &'a [u8],
}

impl<'a> ElfImage<'a> {
    /// The bytes the image was parsed from.
    pub(crate) closed spec fn bytes(&self) -> Seq<u8> {
        self.input@
    }

    /// Parses the ELF header with `xmas_elf::ElfFile::new`; `None` where it
    /// refuses the bytes. The header reads need the bytes aligned for a
    /// `u64`, which every `ElfBuffer` is.
    #[verifier::external_body]
    pub(crate) fn open(buffer: &'a ElfBuffer) -> (r: Option<ElfImage<'a>>)
        ensures
            r is Some <==> elf_opens(buffer@),
            r matches Some(image) ==> image.bytes() == buffer@,
    {
        let input = &buffer.storage[buffer.start..buffer.end];
        match xmas_elf::ElfFile::new(input) {
            Ok(file) => Some(ElfImage { file, input }),
            Err(_) => None,
        }
    }

    /// Whether `HeaderPt2::machine` names RISC-V (`xmas_elf`'s `Machine::RISC_V`).
    #[verifier::external_body]
    pub(crate) fn is_risc_v(&self) -> (r: bool)
        ensures
            r == elf_is_risc_v(self.bytes()),
    {
        match self.file.header.pt2.machine().as_machine() {
            xmas_elf::header::Machine::RISC_V => true,
            _ => false,
        }
    }

    /// Whether `HeaderPt1::class` is `Class::SixtyFour`.
    #[verifier::external_body]
    pub(crate) fn is_64(&self) -> (r: bool)
        ensures
            r == elf_is_64(self.bytes()),
    {
        match self.file.header.pt1.class() {
            xmas_elf::header::Class::SixtyFour => true,
            _ => false,
        }
    }

    /// `HeaderPt2::entry_point`.
    #[verifier::external_body]
    pub(crate) fn entry_point(&self) -> (r: u64)
        ensures
            r == elf_entry_point(self.bytes()),
    {
        self.file.header.pt2.entry_point()
    }

    /// `HeaderPt2::ph_count`.
    #[verifier::external_body]
    pub(crate) fn ph_count(&self) -> (r: u16)
        ensures
            r == elf_ph_count(self.bytes()),
    {
        self.file.header.pt2.ph_count()
    }

    /// `HeaderPt2::ph_offset`.
    #[verifier::external_body]
    pub(crate) fn ph_offset(&self) -> (r: u64)
        ensures
            r == elf_ph_offset(self.bytes()),
    {
        self.file.header.pt2.ph_offset()
    }

    /// `HeaderPt2::ph_entry_size`.
    #[verifier::external_body]
    pub(crate) fn ph_entry_size(&self) -> (r: u16)
        ensures
            r == elf_ph_entry_size(self.bytes()),
    {
        self.file.header.pt2.ph_entry_size()
    }

    /// `ElfFile::program_header`, with the header's class, type and the
    /// fields the loader reads picked out. `xmas_elf` answers `Err` where
    /// the table names no header at `index`; where it names one, the entry
    /// must lie in the image and be aligned for a program header of its
    /// class, else `xmas_elf` panics. The image's bytes start aligned for a
    /// `u64` (they come from an `ElfBuffer`), so an entry offset that is a
    /// multiple of 8, or of 4 for 32-bit, is aligned.
    #[verifier::external_body]
    pub(crate) fn program_header(&self, index: u16) -> (r: Option<SegmentHeader>)
        requires
            names_program_header(self.bytes(), index) ==> program_header_in_file(self.bytes(), index)
                && program_header_aligned(self.bytes(), index),
        ensures
            r == elf_program_header(self.bytes(), index),
            r is Some <==> names_program_header(self.bytes(), index),
    {
        match self.file.program_header(index) {
            Ok(ProgramHeader::Ph64(ph)) => Some(SegmentHeader { is_64: true,
                is_load: matches!(ph.get_type(), Ok(Type::Load)), offset: ph.offset,
                file_size: ph.file_size, virtual_addr: ph.virtual_addr }),
            Ok(ProgramHeader::Ph32(ph)) => Some(SegmentHeader { is_64: false,
                is_load: matches!(ph.get_type(), Ok(Type::Load)), offset: ph.offset as u64,
                file_size: ph.file_size as u64, virtual_addr: ph.virtual_addr as u64 }),
            Err(_) => None,
        }
    }
}

/// Where loading the image got to: the memory so far and the error that
/// stopped it, if any.
pub struct LoadOutcome {
    pub memory: Seq<u8>,
    pub error: Option<ElfLoadError>,
}

/// `memory` with the file bytes of segment `ph` copied to its virtual address.
pub open spec fn copy_segment(bytes: Seq<u8>, memory: Seq<u8>, ph: SegmentHeader) -> Seq<u8> {
    Seq::new(memory.len(), |i: int|
        if ph.virtual_addr <= i < ph.virtual_addr + ph.file_size {
            bytes[ph.offset + (i - ph.virtual_addr)]
        } else {
            memory[i]
        })
}

/// Loads the segments named by the program headers from `index` on, in
/// table order, stopping at the first header `xmas_elf` does not read.
/// Only 64-bit `PT_LOAD` headers are loaded.
pub open spec fn load_segments_from(bytes: Seq<u8>, memory: Seq<u8>, index: nat) -> LoadOutcome
    decreases elf_ph_count(bytes) - index,
{
    if index >= elf_ph_count(bytes) {
        LoadOutcome { memory, error: None }
    } else if names_program_header(bytes, index as u16) && !program_header_in_file(bytes, index as u16) {
        LoadOutcome { memory, error: Some(ElfLoadError::ProgramHeaderOutOfFile(index as u16)) }
    } else if names_program_header(bytes, index as u16) && !program_header_aligned(bytes, index as u16) {
        LoadOutcome { memory, error: Some(ElfLoadError::ProgramHeaderMisaligned(index as u16)) }
    } else {
        match elf_program_header(bytes, index as u16) {
            None => LoadOutcome { memory, error: None },
            Some(ph) => if ph.is_64 && ph.is_load {
                if ph.offset + ph.file_size > bytes.len() {
                    LoadOutcome { memory, error: Some(ElfLoadError::SegmentOutOfFile(index as u16)) }
                } else if ph.virtual_addr + ph.file_size > memory.len() {
                    LoadOutcome { memory, error: Some(ElfLoadError::SegmentOutOfMemory(index as u16)) }
                } else {
                    load_segments_from(bytes, copy_segment(bytes, memory, ph), index + 1)
                }
            } else {
                load_segments_from(bytes, memory, index + 1)
            },
        }
    }
}

/// Program header `index` is a 64-bit loadable segment whose bytes go to
/// address `a`.
pub open spec fn segment_covers(bytes: Seq<u8>, index: int, a: int) -> bool {
    elf_program_header(bytes, index as u16) matches Some(ph) && ph.is_64 && ph.is_load
        && ph.virtual_addr <= a < ph.virtual_addr + ph.file_size
}

/// Loading writes only where a loadable segment goes: the memory keeps its
/// size, and a byte that no segment from `index` on covers keeps its value,
/// whether loading succeeds or stops on an error.
pub proof fn lemma_load_writes_only_segments(bytes: Seq<u8>, memory: Seq<u8>, index: nat, a: int)
    requires
        0 <= a < memory.len(),
        forall|i: int| index <= i < elf_ph_count(bytes) ==> !#[trigger] segment_covers(bytes, i, a),
    ensures
        load_segments_from(bytes, memory, index).memory.len() == memory.len(),
        load_segments_from(bytes, memory, index).memory[a] == memory[a],
    decreases elf_ph_count(bytes) - index,
{
    if index < elf_ph_count(bytes) {
        assert(!segment_covers(bytes, index as int, a));
        assert((index as int) as u16 == index as u16);
        if let Some(ph) = elf_program_header(bytes, index as u16) {
            if ph.is_64 && ph.is_load && ph.offset + ph.file_size <= bytes.len()
                && ph.virtual_addr + ph.file_size <= memory.len() {
                lemma_load_writes_only_segments(bytes, copy_segment(bytes, memory, ph), index + 1, a);
            } else {
                lemma_load_writes_only_segments(bytes, memory, index + 1, a);
            }
        }
    }
}

/// Loading from `index` on with no error copies every 64-bit loadable segment
/// that the table reaches: a byte of segment `i` that no later loadable
/// segment covers ends up in memory, whatever headers stand before it.
proof fn lemma_load_copies_segment(bytes: Seq<u8>, memory: Seq<u8>, index: nat, i: u16, t: int)
    requires
        load_segments_from(bytes, memory, index).error is None,
        index <= i < elf_ph_count(bytes),
        forall|j: u16| index <= j <= i ==> (#[trigger] elf_program_header(bytes, j)) is Some,
        elf_program_header(bytes, i) matches Some(ph) && ph.is_64 && ph.is_load && 0 <= t < ph.file_size,
        forall|j: int| i < j < elf_ph_count(bytes) ==> !#[trigger] segment_covers(bytes, j,
            elf_program_header(bytes, i).unwrap().virtual_addr + t),
    ensures
        ({
            let ph = elf_program_header(bytes, i).unwrap();
            &&& ph.virtual_addr + t < memory.len()
            &&& ph.offset + t < bytes.len()
            &&& load_segments_from(bytes, memory, index).memory[ph.virtual_addr + t] == bytes[ph.offset + t]
        }),
    decreases elf_ph_count(bytes) - index,
{
    let k = index as u16;
    assert(k as nat == index);
    assert(elf_program_header(bytes, k) is Some);
    let ph = elf_program_header(bytes, k).unwrap();
    if index == i as nat {
        let a = ph.virtual_addr + t;
        let copied = copy_segment(bytes, memory, ph);
        assert(copied[a] == bytes[ph.offset + t]);
        lemma_load_writes_only_segments(bytes, copied, index + 1, a);
    } else if ph.is_64 && ph.is_load {
        lemma_load_copies_segment(bytes, copy_segment(bytes, memory, ph), index + 1, i, t);
    } else {
        lemma_load_copies_segment(bytes, memory, index + 1, i, t);
    }
}

/// A successful load copies each 64-bit loadable segment that the header
/// table reaches into memory, so that a byte of the segment that no later
/// loadable segment overwrites holds the segment's byte from the file:
/// headers of other types and 32-bit headers before it are skipped, not a
/// reason to stop.
pub proof fn lemma_loaded_segment_bytes(bytes: Seq<u8>, memory: Seq<u8>, i: u16, t: int)
    requires
        load_outcome(bytes, memory).0 is Ok,
        i < elf_ph_count(bytes),
        forall|j: u16| j <= i ==> (#[trigger] elf_program_header(bytes, j)) is Some,
        elf_program_header(bytes, i) matches Some(ph) && ph.is_64 && ph.is_load && 0 <= t < ph.file_size,
        forall|j: int| i < j < elf_ph_count(bytes) ==> !#[trigger] segment_covers(bytes, j,
            elf_program_header(bytes, i).unwrap().virtual_addr + t),
    ensures
        ({
            let ph = elf_program_header(bytes, i).unwrap();
            &&& ph.virtual_addr + t < memory.len()
            &&& load_outcome(bytes, memory).1[ph.virtual_addr + t] == bytes[ph.offset + t]
        }),
{
    lemma_load_copies_segment(bytes, memory, 0, i, t);
}

/// What loading `bytes` into `memory` gives: the error, or the entry point,
/// and the memory afterwards.
pub open spec fn load_outcome(bytes: Seq<u8>, memory: Seq<u8>) -> (Result<u64, ElfLoadError>, Seq<u8>) {
    if !elf_opens(bytes) {
        (Err(ElfLoadError::InvalidHeader), memory)
    } else if !elf_is_risc_v(bytes) {
        (Err(ElfLoadError::NotRiscV), memory)
    } else {
        let outcome = load_segments_from(bytes, memory, 0);
        match outcome.error {
            Some(e) => (Err(e), outcome.memory),
            None => (Ok(elf_entry_point(bytes)), outcome.memory),
        }
    }
}

/// Copies `ph`'s bytes from the image into memory.
fn copy_segment_exec(bytes: &[u8], mem: &mut Vec<u8>, ph: SegmentHeader)
    requires
        ph.offset + ph.file_size <= bytes@.len(),
        ph.virtual_addr + ph.file_size <= old(mem)@.len(),
    ensures
        final(mem)@ == copy_segment(bytes@, old(mem)@, ph),
{
    let mem_len = mem.len();
    let bytes_len = bytes.len();
    let src = ph.offset as usize;
    let dst = ph.virtual_addr as usize;
    let size = ph.file_size as usize;
    let mut i: usize = 0;
    while i < size
        invariant
            i <= size,
            src + size <= bytes_len,
            bytes_len == bytes@.len(),
            dst + size <= mem_len,
            mem_len == mem@.len(),
            mem@.len() == old(mem)@.len(),
            src == ph.offset,
            dst == ph.virtual_addr,
            size == ph.file_size,
            forall|j: int| 0 <= j < mem@.len() ==> #[trigger] mem@[j] == (
                if dst <= j < dst + i { bytes@[src + (j - dst)] } else { old(mem)@[j] }
            ),
        decreases size - i,
    {
        mem.set(dst + i, bytes[src + i]);
        i = i + 1;
    }
    assert(mem@ =~= copy_segment(bytes@, old(mem)@, ph));
}

/// Loads the 64-bit loadable segments of a RISC-V ELF image into `mem` and
/// returns the entry point.
///
/// An image that cannot be loaded is answered with an `ElfLoadError`, never
/// with a panic: a header that `xmas_elf` refuses, a machine other than
/// RISC-V, a program header table entry outside the image or misaligned, and
/// a loadable segment outside the image or outside `mem`. Segments before the
/// failing one stay loaded, as `load_outcome` says. A caller that wants to
/// stop on a bad image panics on the error itself.
pub fn load_elf(elf: &ElfBuffer, mem: &mut Vec<u8>) -> (r: Result<u64, ElfLoadError>)
    ensures
        r == load_outcome(elf@, old(mem)@).0,
        final(mem)@ == load_outcome(elf@, old(mem)@).1,
{
    let bytes = elf.as_slice();
    let image = match ElfImage::open(elf) {
        Some(image) => image,
        None => return Err(ElfLoadError::InvalidHeader),
    };
    if !image.is_risc_v() {
        return Err(ElfLoadError::NotRiscV);
    }
    let bytes_len = bytes.len();
    let count = image.ph_count();
    let table_offset = image.ph_offset();
    let entry_size = image.ph_entry_size();
    let is_64 = image.is_64();
    let min_entry: u16 = if is_64 { 56 } else { 32 };
    let align: u64 = if is_64 { 8 } else { 4 };
    let mut index: u16 = 0;
    while index < count
        invariant
            image.bytes() == bytes@,
            bytes@ == elf@,
            bytes_len == bytes@.len(),
            count == elf_ph_count(bytes@),
            table_offset == elf_ph_offset(bytes@),
            entry_size == elf_ph_entry_size(bytes@),
            min_entry == (if elf_is_64(bytes@) { 56int } else { 32int }),
            align == (if elf_is_64(bytes@) { 8int } else { 4int }),
            index <= count,
            elf_opens(bytes@),
            elf_is_risc_v(bytes@),
            load_segments_from(bytes@, old(mem)@, 0) == load_segments_from(bytes@, mem@, index as nat),
        decreases count - index,
    {
        if table_offset > 0 && entry_size > 0 {
            assert((index + 1) * entry_size <= 0x1_0000 * 0x1_0000) by (nonlinear_arith)
                requires
                    index < 0x1_0000,
                    entry_size < 0x1_0000,
            ;
            let table_end: u64 = (index as u64 + 1) * (entry_size as u64);
            let fits = table_offset <= u64::MAX - table_end
                && table_offset + table_end <= bytes_len as u64
                && entry_size >= min_entry;
            if !fits {
                assert(!program_header_in_file(bytes@, index));
                assert(names_program_header(bytes@, index));
                return Err(ElfLoadError::ProgramHeaderOutOfFile(index));
            }
            assert(table_end - entry_size == index * entry_size) by (nonlinear_arith)
                requires
                    table_end == (index + 1) * entry_size,
            ;
            let entry_offset = table_offset + (table_end - entry_size as u64);
            if entry_offset % align != 0 {
                assert(!program_header_aligned(bytes@, index));
                return Err(ElfLoadError::ProgramHeaderMisaligned(index));
            }
        }
        let ph = match image.program_header(index) {
            Some(ph) => ph,
            None => return Ok(image.entry_point()),
        };
        if ph.is_64 && ph.is_load {
            if ph.offset > u64::MAX - ph.file_size || ph.offset + ph.file_size > bytes_len as u64 {
                return Err(ElfLoadError::SegmentOutOfFile(index));
            }
            let mem_len = mem.len();
            if ph.virtual_addr > u64::MAX - ph.file_size || ph.virtual_addr + ph.file_size > mem_len as u64 {
                return Err(ElfLoadError::SegmentOutOfMemory(index));
            }
            copy_segment_exec(bytes, mem, ph);
        }
        index = index + 1;
    }
    Ok(image.entry_point())
}

} // verus!
