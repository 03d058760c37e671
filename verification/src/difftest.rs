//! Comparing the commit log of the Spike reference simulator with the trace
//! of the Boat emulator.
use vstd::prelude::*;
use crate::boat::{arch_state_text, BoatEvent};
use crate::numbers::{parse_uint, parse_uint_spec, IntErrorKind};
use crate::memory_size::strip_hex_prefixes;
use crate::text::{decimal_text, hex_text, push_decimal, push_hex};
use vstd::utf8::encode_utf8;

verus! {

/// The memory write by which the test program signals its end.
pub struct EndPattern {
    /// The kind of memory action; only writes are supported.
    pub action: String,
    pub memory_address: u64,
    pub data: u64,
}

/// One effect that Spike commits for an instruction.
#[derive(Clone, Copy, Debug, PartialEq, Eq, Structural)]
pub enum SpikeCommit {
    /// Register `x<idx>` receives `value`.
    Register { idx: u8, value: u64 },
    /// `data` is written to memory at `address`.
    MemoryWrite { address: u64, data: u64 },
    /// Memory at `address` is read.
    MemoryRead { address: u64 },
}

/// One instruction in Spike's commit log and its effects, in log order.
pub struct SpikeEvent {
    pub pc: u64,
    pub commits: Vec<SpikeCommit>,
}

/// Spike's commit log, in execution order.
pub type SpikeLog = Vec<SpikeEvent>;

/// The outcome of a comparison.
pub struct DiffMeta {
    pub is_same: bool,
    pub context: String,
}

impl DiffMeta {
    pub fn passed() -> (m: Self)
        ensures
            m.is_same,
            m.context@ == Seq::<char>::empty(),
    {
        DiffMeta { is_same: true, context: String::new() }
    }

    pub fn failed(ctx: String) -> (m: Self)
        ensures
            !m.is_same,
            m.context@ == ctx@,
    {
        DiffMeta { is_same: false, context: ctx }
    }
}

/// The first memory write among `commits`, as address and data.
pub open spec fn first_mem_write(commits: Seq<SpikeCommit>) -> Option<(u64, u64)>
    decreases commits.len(),
{
    if commits.len() == 0 {
        None
    } else {
        match commits[0] {
            SpikeCommit::MemoryWrite { address, data } => Some((address, data)),
            _ => first_mem_write(commits.drop_first()),
        }
    }
}

/// Some commit writes a register.
pub open spec fn has_reg_write(commits: Seq<SpikeCommit>) -> bool {
    exists|i: int| 0 <= i < commits.len() && (#[trigger] commits[i]) is Register
}

/// Some commit writes `value` to register `x<idx>`.
pub open spec fn writes_register(commits: Seq<SpikeCommit>, idx: u8, value: u64) -> bool {
    exists|i: int| 0 <= i < commits.len() && #[trigger] commits[i] == (SpikeCommit::Register { idx, value })
}

/// The address of the first reset event of `boat` from index `i` on.
pub open spec fn first_reset_vector(boat: Seq<BoatEvent>, i: int) -> Option<u64>
    decreases boat.len() - i,
{
    if i < 0 || i >= boat.len() {
        None
    } else {
        match boat[i].spec_reset_vector() {
            Some(addr) => Some(addr),
            None => first_reset_vector(boat, i + 1),
        }
    }
}

/// The pc of the first Spike event from index `i` on whose first memory
/// write stores `data` at `address`.
pub open spec fn end_pc_from(spike: Seq<SpikeEvent>, address: u64, data: u64, i: int) -> Option<u64>
    decreases spike.len() - i,
{
    if i < 0 || i >= spike.len() {
        None
    } else if first_mem_write(spike[i].commits@) == Some((address, data)) {
        Some(spike[i].pc)
    } else {
        end_pc_from(spike, address, data, i + 1)
    }
}

/// The index of the first architectural state change of `boat` from index
/// `from` on that happened at `pc`.
pub open spec fn find_arch_state(boat: Seq<BoatEvent>, from: int, pc: u64) -> Option<int>
    decreases boat.len() - from,
{
    if from < 0 || from >= boat.len() {
        None
    } else if boat[from] matches BoatEvent::ArchState { pc: p, .. } && p == pc {
        Some(from)
    } else {
        find_arch_state(boat, from + 1, pc)
    }
}

/// A found state change lies at or after `from` and happened at `pc`.
pub proof fn lemma_find_arch_state(boat: Seq<BoatEvent>, from: int, pc: u64)
    ensures
        find_arch_state(boat, from, pc) matches Some(j) ==> {
            &&& from <= j < boat.len()
            &&& boat[j] matches BoatEvent::ArchState { pc: p, .. } && p == pc
        },
    decreases boat.len() - from,
{
    if 0 <= from < boat.len() {
        lemma_find_arch_state(boat, from + 1, pc);
    }
}

/// The search finds a state change exactly when the trace has one at `pc`
/// at or after `from`, and then the first of them, whatever it writes.
pub proof fn lemma_find_arch_state_exact(boat: Seq<BoatEvent>, from: int, pc: u64)
    requires
        0 <= from,
    ensures
        find_arch_state(boat, from, pc) is None <==> forall|j: int| from <= j < boat.len()
            ==> !(#[trigger] boat[j] matches BoatEvent::ArchState { pc: p, .. } && p == pc),
        find_arch_state(boat, from, pc) matches Some(j) ==> {
            &&& from <= j < boat.len()
            &&& boat[j] matches BoatEvent::ArchState { pc: p, .. } && p == pc
            &&& forall|m: int| from <= m < j ==> !(#[trigger] boat[m] matches BoatEvent::ArchState { pc: p, .. } && p == pc)
        },
    decreases boat.len() - from,
{
    if from < boat.len() {
        lemma_find_arch_state_exact(boat, from + 1, pc);
    }
}

/// What a comparison found.
pub enum DiffVerdict {
    Passed,
    /// Spike wrote no memory as the end pattern says.
    NoEndPattern,
    /// Boat has no state change at the pc of this Spike event.
    MissingInBoat(int),
    /// The Boat state change with the second index writes a register as no
    /// commit of the Spike event with the first index does.
    Mismatch(int, int),
}

/// Walks Spike's log from event `k` on. Events before the one at the reset
/// vector are skipped; the walk ends at the event at the end pc. Each event
/// that writes a register is matched with the next Boat state change at its
/// pc, searched from `cursor`; the cursor then moves to that change's
/// distance from the old cursor.
pub open spec fn walk(
    spike: Seq<SpikeEvent>,
    boat: Seq<BoatEvent>,
    reset: u64,
    end_pc: u64,
    k: int,
    is_reset: bool,
    cursor: int,
) -> DiffVerdict
    decreases spike.len() - k,
{
    if k < 0 || k >= spike.len() {
        DiffVerdict::Passed
    } else {
        let e = spike[k];
        if !is_reset && e.pc != reset {
            walk(spike, boat, reset, end_pc, k + 1, false, cursor)
        } else if e.pc == end_pc {
            DiffVerdict::Passed
        } else if !has_reg_write(e.commits@) {
            walk(spike, boat, reset, end_pc, k + 1, true, cursor)
        } else {
            match find_arch_state(boat, cursor, e.pc) {
                None => DiffVerdict::MissingInBoat(k),
                Some(j) => match boat[j] {
                    BoatEvent::ArchState { reg_idx, data, .. } => if writes_register(e.commits@, reg_idx, data) {
                        walk(spike, boat, reset, end_pc, k + 1, true, j - cursor)
                    } else {
                        DiffVerdict::Mismatch(k, j)
                    },
                    _ => DiffVerdict::Passed,
                },
            }
        }
    }
}

/// What comparing the two logs finds.
pub open spec fn diff_verdict(spike: Seq<SpikeEvent>, boat: Seq<BoatEvent>, address: u64, data: u64) -> DiffVerdict {
    match end_pc_from(spike, address, data, 0) {
        None => DiffVerdict::NoEndPattern,
        Some(end_pc) => walk(spike, boat, first_reset_vector(boat, 0).unwrap(), end_pc, 0, false, 0),
    }
}

/// The index of the first Spike event from `from` on that is at `pc`.
pub open spec fn first_at_pc(spike: Seq<SpikeEvent>, from: int, pc: u64) -> Option<int>
    decreases spike.len() - from,
{
    if from < 0 || from >= spike.len() {
        None
    } else if spike[from].pc == pc {
        Some(from)
    } else {
        first_at_pc(spike, from + 1, pc)
    }
}

pub proof fn lemma_first_at_pc(spike: Seq<SpikeEvent>, from: int, pc: u64)
    ensures
        first_at_pc(spike, from, pc) matches Some(r) ==> from <= r < spike.len() && spike[r].pc == pc,
    decreases spike.len() - from,
{
    if 0 <= from < spike.len() {
        lemma_first_at_pc(spike, from + 1, pc);
    }
}

/// The Boat trace has a state change at `e`'s pc that writes a register
/// value that `e` commits.
pub open spec fn boat_reproduces(boat: Seq<BoatEvent>, e: SpikeEvent) -> bool {
    exists|j: int| 0 <= j < boat.len() && (#[trigger] boat[j] matches BoatEvent::ArchState { pc, reg_idx, data, .. }
        && pc == e.pc && writes_register(e.commits@, reg_idx, data))
}

/// A walk that passes has matched every register-writing Spike event from
/// the one at the reset vector up to, not including, the first one at the
/// end pc after it.
pub proof fn lemma_passed_walk_reproduces(
    spike: Seq<SpikeEvent>,
    boat: Seq<BoatEvent>,
    reset: u64,
    end_pc: u64,
    k: int,
    is_reset: bool,
    cursor: int,
    m: int,
)
    requires
        walk(spike, boat, reset, end_pc, k, is_reset, cursor) is Passed,
        0 <= k <= m < spike.len(),
        is_reset || (first_at_pc(spike, k, reset) matches Some(r) && r <= m),
        forall|n: int|
            (if is_reset { k } else { first_at_pc(spike, k, reset).unwrap() }) <= n <= m
                ==> #[trigger] spike[n].pc != end_pc,
        has_reg_write(spike[m].commits@),
    ensures
        boat_reproduces(boat, spike[m]),
    decreases m - k,
{
    let e = spike[k];
    lemma_first_at_pc(spike, k + 1, reset);
    if !is_reset && e.pc != reset {
        assert(first_at_pc(spike, k, reset) == first_at_pc(spike, k + 1, reset));
        lemma_passed_walk_reproduces(spike, boat, reset, end_pc, k + 1, false, cursor, m);
    } else {
        assert(e.pc != end_pc);
        if k == m {
            lemma_find_arch_state(boat, cursor, e.pc);
            let j = find_arch_state(boat, cursor, e.pc).unwrap();
            assert(boat[j] matches BoatEvent::ArchState { pc, reg_idx, data, .. }
                && pc == e.pc && writes_register(e.commits@, reg_idx, data));
        } else if !has_reg_write(e.commits@) {
            lemma_passed_walk_reproduces(spike, boat, reset, end_pc, k + 1, true, cursor, m);
        } else {
            lemma_find_arch_state(boat, cursor, e.pc);
            let j = find_arch_state(boat, cursor, e.pc).unwrap();
            lemma_passed_walk_reproduces(spike, boat, reset, end_pc, k + 1, true, j - cursor, m);
        }
    }
}

/// When the comparison passes, every Spike event that writes a register,
/// from the first one at Boat's reset vector up to, not including, the first
/// one after it at the end pc, is reproduced by a Boat state change at its
/// pc that writes one of the register values the event commits.
pub proof fn lemma_passed_diff_reproduces(spike: Seq<SpikeEvent>, boat: Seq<BoatEvent>, address: u64, data: u64, m: int)
    requires
        diff_verdict(spike, boat, address, data) is Passed,
        0 <= m < spike.len(),
        first_at_pc(spike, 0, first_reset_vector(boat, 0).unwrap()) matches Some(r) && r <= m,
        forall|n: int|
            first_at_pc(spike, 0, first_reset_vector(boat, 0).unwrap()).unwrap() <= n <= m
                ==> #[trigger] spike[n].pc != end_pc_from(spike, address, data, 0).unwrap(),
        has_reg_write(spike[m].commits@),
    ensures
        boat_reproduces(boat, spike[m]),
{
    lemma_passed_walk_reproduces(
        spike,
        boat,
        first_reset_vector(boat, 0).unwrap(),
        end_pc_from(spike, address, data, 0).unwrap(),
        0,
        false,
        0,
        m,
    );
}

/// `v` with its Spike event index moved `n` on.
pub open spec fn shift_verdict(v: DiffVerdict, n: int) -> DiffVerdict {
    match v {
        DiffVerdict::MissingInBoat(k) => DiffVerdict::MissingInBoat(k + n),
        DiffVerdict::Mismatch(k, j) => DiffVerdict::Mismatch(k + n, j),
        DiffVerdict::Passed => DiffVerdict::Passed,
        DiffVerdict::NoEndPattern => DiffVerdict::NoEndPattern,
    }
}

/// No event of `prefix` is at the reset vector or writes the end pattern.
pub open spec fn ignorable_prefix(prefix: Seq<SpikeEvent>, reset: u64, address: u64, data: u64) -> bool {
    forall|i: int| 0 <= i < prefix.len() ==> (#[trigger] prefix[i]).pc != reset
        && first_mem_write(prefix[i].commits@) != Some((address, data))
}

proof fn lemma_walk_shift(
    prefix: Seq<SpikeEvent>,
    spike: Seq<SpikeEvent>,
    boat: Seq<BoatEvent>,
    reset: u64,
    end_pc: u64,
    k: int,
    is_reset: bool,
    cursor: int,
)
    requires
        0 <= k <= spike.len(),
    ensures
        walk(prefix + spike, boat, reset, end_pc, k + prefix.len(), is_reset, cursor)
            == shift_verdict(walk(spike, boat, reset, end_pc, k, is_reset, cursor), prefix.len() as int),
    decreases spike.len() - k,
{
    let all = prefix + spike;
    if k < spike.len() {
        assert(all[k + prefix.len()] == spike[k]);
        let e = spike[k];
        lemma_walk_shift(prefix, spike, boat, reset, end_pc, k + 1, false, cursor);
        lemma_walk_shift(prefix, spike, boat, reset, end_pc, k + 1, true, cursor);
        if let Some(j) = find_arch_state(boat, cursor, e.pc) {
            lemma_walk_shift(prefix, spike, boat, reset, end_pc, k + 1, true, j - cursor);
        }
    }
}

proof fn lemma_walk_skips_prefix(
    prefix: Seq<SpikeEvent>,
    spike: Seq<SpikeEvent>,
    boat: Seq<BoatEvent>,
    reset: u64,
    end_pc: u64,
    k: int,
    cursor: int,
)
    requires
        0 <= k <= prefix.len(),
        forall|i: int| 0 <= i < prefix.len() ==> (#[trigger] prefix[i]).pc != reset,
    ensures
        walk(prefix + spike, boat, reset, end_pc, k, false, cursor)
            == walk(prefix + spike, boat, reset, end_pc, prefix.len() as int, false, cursor),
    decreases prefix.len() - k,
{
    if k < prefix.len() {
        assert((prefix + spike)[k] == prefix[k]);
        lemma_walk_skips_prefix(prefix, spike, boat, reset, end_pc, k + 1, cursor);
    }
}

proof fn lemma_end_pc_skips_prefix(prefix: Seq<SpikeEvent>, spike: Seq<SpikeEvent>, address: u64, data: u64, k: int)
    requires
        0 <= k <= prefix.len(),
        forall|i: int| 0 <= i < prefix.len() ==> first_mem_write((#[trigger] prefix[i]).commits@) != Some((address, data)),
    ensures
        end_pc_from(prefix + spike, address, data, k) == end_pc_from(spike, address, data, 0),
    decreases prefix.len() + spike.len() - k,
{
    let all = prefix + spike;
    if k < prefix.len() {
        assert(all[k] == prefix[k]);
        lemma_end_pc_skips_prefix(prefix, spike, address, data, k + 1);
    } else {
        lemma_end_pc_shift(prefix, spike, address, data, 0);
    }
}

proof fn lemma_end_pc_shift(prefix: Seq<SpikeEvent>, spike: Seq<SpikeEvent>, address: u64, data: u64, k: int)
    requires
        0 <= k <= spike.len(),
    ensures
        end_pc_from(prefix + spike, address, data, k + prefix.len()) == end_pc_from(spike, address, data, k),
    decreases spike.len() - k,
{
    if k < spike.len() {
        assert((prefix + spike)[k + prefix.len()] == spike[k]);
        lemma_end_pc_shift(prefix, spike, address, data, k + 1);
    }
}

/// Spike events before the first one at the reset vector are ignored: a
/// prefix of events none of which is at Boat's reset vector or writes the
/// end pattern changes neither whether the comparison passes nor its
/// report; a failure points at the same event, moved by the prefix's length.
pub proof fn lemma_diff_ignores_prefix(
    prefix: Seq<SpikeEvent>,
    spike: Seq<SpikeEvent>,
    boat: Seq<BoatEvent>,
    address: u64,
    data: u64,
)
    requires
        ignorable_prefix(prefix, first_reset_vector(boat, 0).unwrap(), address, data),
    ensures
        diff_verdict(prefix + spike, boat, address, data)
            == shift_verdict(diff_verdict(spike, boat, address, data), prefix.len() as int),
        diff_verdict(prefix + spike, boat, address, data) is Passed
            <==> diff_verdict(spike, boat, address, data) is Passed,
        verdict_text(prefix + spike, boat, diff_verdict(prefix + spike, boat, address, data))
            == verdict_text(spike, boat, diff_verdict(spike, boat, address, data)),
{
    let reset = first_reset_vector(boat, 0).unwrap();
    lemma_end_pc_skips_prefix(prefix, spike, address, data, 0);
    if let Some(end_pc) = end_pc_from(spike, address, data, 0) {
        lemma_walk_skips_prefix(prefix, spike, boat, reset, end_pc, 0, 0);
        lemma_walk_shift(prefix, spike, boat, reset, end_pc, 0, false, 0);
        lemma_walk_in_range(spike, boat, reset, end_pc, 0, false, 0);
        let v = walk(spike, boat, reset, end_pc, 0, false, 0);
        match v {
            DiffVerdict::MissingInBoat(k) => {
                assert((prefix + spike)[k + prefix.len()] == spike[k]);
            },
            DiffVerdict::Mismatch(k, j) => {
                assert((prefix + spike)[k + prefix.len()] == spike[k]);
            },
            _ => {},
        }
    }
}

/// A failing walk points at a Spike event of the log.
proof fn lemma_walk_in_range(
    spike: Seq<SpikeEvent>,
    boat: Seq<BoatEvent>,
    reset: u64,
    end_pc: u64,
    k: int,
    is_reset: bool,
    cursor: int,
)
    requires
        0 <= k,
    ensures
        walk(spike, boat, reset, end_pc, k, is_reset, cursor) matches DiffVerdict::MissingInBoat(m) ==> 0 <= m < spike.len(),
        walk(spike, boat, reset, end_pc, k, is_reset, cursor) matches DiffVerdict::Mismatch(m, _) ==> 0 <= m < spike.len(),
    decreases spike.len() - k,
{
    if k < spike.len() {
        let e = spike[k];
        lemma_walk_in_range(spike, boat, reset, end_pc, k + 1, false, cursor);
        lemma_walk_in_range(spike, boat, reset, end_pc, k + 1, true, cursor);
        if let Some(j) = find_arch_state(boat, cursor, e.pc) {
            lemma_walk_in_range(spike, boat, reset, end_pc, k + 1, true, j - cursor);
        }
    }
}

/// How one commit is shown.
pub open spec fn commit_text(c: SpikeCommit) -> Seq<char> {
    match c {
        SpikeCommit::Register { idx, value } => " x"@ + decimal_text(idx as nat) + " "@ + hex_text(value),
        SpikeCommit::MemoryWrite { address, data } => " mem "@ + hex_text(address) + " "@ + hex_text(data),
        SpikeCommit::MemoryRead { address } => " mem "@ + hex_text(address),
    }
}

pub open spec fn commits_text(commits: Seq<SpikeCommit>) -> Seq<char>
    decreases commits.len(),
{
    if commits.len() == 0 {
        Seq::empty()
    } else {
        commits_text(commits.drop_last()) + commit_text(commits.last())
    }
}

/// How a Spike event is shown: its pc and then each of its commits.
pub open spec fn spike_event_text(e: SpikeEvent) -> Seq<char> {
    "PC="@ + hex_text(e.pc) + commits_text(e.commits@)
}

/// The report on a Spike event that Boat did not reproduce.
pub open spec fn missing_text(e: SpikeEvent) -> Seq<char> {
    "At PC="@ + hex_text(e.pc) + " spike have following commit events that are not occur at boat side:\n\n"@
        + spike_event_text(e) + "\n"@
}

/// The report on a Boat register write that Spike did not make.
pub open spec fn mismatch_text(action: Seq<char>, pc: u64, reg_idx: u8, data: u64, e: SpikeEvent) -> Seq<char> {
    "At PC="@ + hex_text(pc) + " boat write "@ + hex_text(data) + " to register x"@ + decimal_text(reg_idx as nat)
        + ",\nbut this action was not found at spike side.\n\n------------\n|Event Dump|\n------------\n\nWe get boat:\n"@
        + arch_state_text(action, pc, reg_idx, data) + "\n\nBut have spike:\n"@ + spike_event_text(e) + "\n"@
}

/// The report for a verdict.
pub open spec fn verdict_text(spike: Seq<SpikeEvent>, boat: Seq<BoatEvent>, v: DiffVerdict) -> Seq<char> {
    match v {
        DiffVerdict::Passed => Seq::empty(),
        DiffVerdict::NoEndPattern => "Can't find any end pattern from spike log"@,
        DiffVerdict::MissingInBoat(k) => missing_text(spike[k]),
        DiffVerdict::Mismatch(k, j) => match boat[j] {
            BoatEvent::ArchState { action, pc, reg_idx, data } => mismatch_text(action@, pc, reg_idx, data, spike[k]),
            _ => Seq::empty(),
        },
    }
}

impl SpikeEvent {
    /// The first memory write of the event, as address and data.
    pub fn get_mem_write(&self) -> (r: Option<(u64, u64)>)
        ensures
            r == first_mem_write(self.commits@),
    {
        let len = self.commits.len();
        let mut i: usize = 0;
        assert(self.commits@.subrange(0, len as int) =~= self.commits@);
        while i < len
            invariant
                i <= len,
                len == self.commits@.len(),
                first_mem_write(self.commits@) == first_mem_write(self.commits@.subrange(i as int, len as int)),
            decreases len - i,
        {
            let ghost rest = self.commits@.subrange(i as int, len as int);
            assert(rest.drop_first() =~= self.commits@.subrange(i + 1, len as int));
            if let SpikeCommit::MemoryWrite { address, data } = self.commits[i] {
                return Some((address, data));
            }
            i = i + 1;
        }
        None
    }

    /// Whether the event writes a register.
    pub fn has_reg_write_commit(&self) -> (r: bool)
        ensures
            r == has_reg_write(self.commits@),
    {
        let len = self.commits.len();
        let mut i: usize = 0;
        while i < len
            invariant
                i <= len,
                len == self.commits@.len(),
                forall|j: int| 0 <= j < i ==> !(self.commits@[j] is Register),
            decreases len - i,
        {
            if let SpikeCommit::Register { .. } = self.commits[i] {
                return true;
            }
            i = i + 1;
        }
        false
    }

    /// Whether the event writes `value` to register `x<idx>`.
    pub fn writes_register(&self, idx: u8, value: u64) -> (r: bool)
        ensures
            r == writes_register(self.commits@, idx, value),
    {
        let len = self.commits.len();
        let mut i: usize = 0;
        while i < len
            invariant
                i <= len,
                len == self.commits@.len(),
                forall|j: int| 0 <= j < i ==> self.commits@[j] != (SpikeCommit::Register { idx, value }),
            decreases len - i,
        {
            if let SpikeCommit::Register { idx: x, value: v } = self.commits[i] {
                if x == idx && v == value {
                    return true;
                }
            }
            i = i + 1;
        }
        false
    }

    /// The event as text: its pc and its commits.
    pub fn display_text(&self) -> (s: String)
        ensures
            s@ == spike_event_text(*self),
    {
        let mut s = String::from_str("PC=");
        push_hex(&mut s, self.pc);
        let len = self.commits.len();
        let mut i: usize = 0;
        while i < len
            invariant
                i <= len,
                len == self.commits@.len(),
                s@ == "PC="@ + hex_text(self.pc) + commits_text(self.commits@.subrange(0, i as int)),
            decreases len - i,
        {
            let ghost before = s@;
            match self.commits[i] {
                SpikeCommit::Register { idx, value } => {
                    s.append(" x");
                    push_decimal(&mut s, idx as u64);
                    s.append(" ");
                    push_hex(&mut s, value);
                },
                SpikeCommit::MemoryWrite { address, data } => {
                    s.append(" mem ");
                    push_hex(&mut s, address);
                    s.append(" ");
                    push_hex(&mut s, data);
                },
                SpikeCommit::MemoryRead { address } => {
                    s.append(" mem ");
                    push_hex(&mut s, address);
                },
            }
            assert(s@ =~= before + commit_text(self.commits@[i as int]));
            assert(self.commits@.subrange(0, i + 1).drop_last() =~= self.commits@.subrange(0, i as int));
            i = i + 1;
        }
        assert(self.commits@.subrange(0, len as int) =~= self.commits@);
        s
    }
}

/// Reads a `0x`-prefixed hexadecimal value of the difftest configuration:
/// every leading `0x` is dropped, the rest must be hexadecimal digits that
/// fit in 64 bits.
pub fn hex_to_u64(val: &str) -> (r: Result<u64, IntErrorKind>)
    ensures
        match r {
            Ok(v) => parse_uint_spec(strip_hex_prefixes(encode_utf8(val@)), 16, u64::MAX as nat)
                == Ok::<nat, IntErrorKind>(v as nat),
            Err(e) => parse_uint_spec(strip_hex_prefixes(encode_utf8(val@)), 16, u64::MAX as nat)
                == Err::<nat, IntErrorKind>(e),
        },
{
    let b = val.as_bytes();
    let len = b.len();
    let mut start: usize = 0;
    assert(b@.subrange(0, len as int) =~= b@);
    while len - start >= 2 && b[start] == 48 && b[start + 1] == 120
        invariant
            start <= len,
            len == b@.len(),
            strip_hex_prefixes(b@) == strip_hex_prefixes(b@.subrange(start as int, len as int)),
        decreases len - start,
    {
        let ghost rest = b@.subrange(start as int, len as int);
        assert(rest.subrange(2, rest.len() as int) =~= b@.subrange(start + 2, len as int));
        start = start + 2;
    }
    parse_uint(b, start, 16, u64::MAX)
}

fn find_reset_vector(boat: &Vec<BoatEvent>) -> (r: u64)
    requires
        first_reset_vector(boat@, 0) is Some,
    ensures
        r == first_reset_vector(boat@, 0).unwrap(),
{
    let len = boat.len();
    let mut i: usize = 0;
    while i < len
        invariant
            i <= len,
            len == boat@.len(),
            first_reset_vector(boat@, 0) == first_reset_vector(boat@, i as int),
        decreases len - i,
    {
        if let Some(addr) = boat[i].get_reset_vector() {
            return addr;
        }
        i = i + 1;
    }
    0
}

fn find_end_pc(spike: &Vec<SpikeEvent>, address: u64, data: u64) -> (r: Option<u64>)
    ensures
        r == end_pc_from(spike@, address, data, 0),
{
    let len = spike.len();
    let mut i: usize = 0;
    while i < len
        invariant
            i <= len,
            len == spike@.len(),
            end_pc_from(spike@, address, data, 0) == end_pc_from(spike@, address, data, i as int),
        decreases len - i,
    {
        if let Some((a, d)) = spike[i].get_mem_write() {
            if a == address && d == data {
                return Some(spike[i].pc);
            }
        }
        i = i + 1;
    }
    None
}

fn find_arch_state_exec(boat: &Vec<BoatEvent>, from: usize, pc: u64) -> (r: Option<usize>)
    requires
        from <= boat@.len(),
    ensures
        match r {
            Some(j) => find_arch_state(boat@, from as int, pc) == Some(j as int),
            None => find_arch_state(boat@, from as int, pc) is None,
        },
{
    let len = boat.len();
    let mut i: usize = from;
    while i < len
        invariant
            from <= i <= len,
            len == boat@.len(),
            find_arch_state(boat@, from as int, pc) == find_arch_state(boat@, i as int, pc),
        decreases len - i,
    {
        if let BoatEvent::ArchState { pc: p, .. } = &boat[i] {
            if *p == pc {
                return Some(i);
            }
        }
        i = i + 1;
    }
    None
}

fn missing_message(e: &SpikeEvent) -> (s: String)
    ensures
        s@ == missing_text(*e),
{
    let mut s = String::from_str("At PC=");
    push_hex(&mut s, e.pc);
    s.append(" spike have following commit events that are not occur at boat side:\n\n");
    let event = e.display_text();
    s.append(event.as_str());
    s.append("\n");
    assert(s@ =~= missing_text(*e));
    s
}

fn mismatch_message(boat_event: &BoatEvent, e: &SpikeEvent) -> (s: String)
    requires
        boat_event is ArchState,
    ensures
        match boat_event {
            BoatEvent::ArchState { action, pc, reg_idx, data } => s@ == mismatch_text(action@, *pc, *reg_idx, *data, *e),
            _ => true,
        },
{
    match boat_event {
        BoatEvent::ArchState { pc, data, reg_idx, action } => {
            let mut s = String::from_str("At PC=");
            push_hex(&mut s, *pc);
            s.append(" boat write ");
            push_hex(&mut s, *data);
            s.append(" to register x");
            push_decimal(&mut s, *reg_idx as u64);
            s.append(",\nbut this action was not found at spike side.\n\n------------\n|Event Dump|\n------------\n\nWe get boat:\n");
            let boat_text = boat_event.display_text();
            match boat_text {
                Some(t) => s.append(t.as_str()),
                None => {},
            }
            s.append("\n\nBut have spike:\n");
            let spike_text = e.display_text();
            s.append(spike_text.as_str());
            s.append("\n");
            assert(s@ =~= mismatch_text(action@, *pc, *reg_idx, *data, *e));
            s
        },
        _ => String::new(),
    }
}

/// Compares Spike's commit log with Boat's trace: from the event at Boat's
/// reset vector up to the event that writes the end pattern, every register
/// write that Spike commits must be found, at the same pc, in Boat's trace.
pub fn diff(spike_log: &SpikeLog, boat_log: &Vec<BoatEvent>, end_pattern: &EndPattern) -> (m: DiffMeta)
    requires
        spike_log@.len() > 0,
        boat_log@.len() > 0,
        first_reset_vector(boat_log@, 0) is Some,
    ensures
        m.is_same <==> diff_verdict(spike_log@, boat_log@, end_pattern.memory_address, end_pattern.data)
            is Passed,
        m.context@ == verdict_text(
            spike_log@,
            boat_log@,
            diff_verdict(spike_log@, boat_log@, end_pattern.memory_address, end_pattern.data),
        ),
{
    let reset_vector_addr = find_reset_vector(boat_log);
    let end_pc = match find_end_pc(spike_log, end_pattern.memory_address, end_pattern.data) {
        Some(pc) => pc,
        None => return DiffMeta::failed(String::from_str("Can't find any end pattern from spike log")),
    };
    let ghost spike = spike_log@;
    let ghost boat = boat_log@;
    let len = spike_log.len();
    let mut is_reset = false;
    let mut boat_log_cursor: usize = 0;
    let mut k: usize = 0;
    while k < len
        invariant
            k <= len,
            len == spike.len(),
            spike == spike_log@,
            boat == boat_log@,
            boat_log_cursor <= boat.len(),
            diff_verdict(spike, boat, end_pattern.memory_address, end_pattern.data)
                == walk(spike, boat, reset_vector_addr, end_pc, k as int, is_reset, boat_log_cursor as int),
        decreases len - k,
    {
        let spike_event = &spike_log[k];
        if !is_reset && spike_event.pc != reset_vector_addr {
            k = k + 1;
        } else {
            is_reset = true;
            if spike_event.pc == end_pc {
                return DiffMeta::passed();
            }
            if spike_event.has_reg_write_commit() {
                match find_arch_state_exec(boat_log, boat_log_cursor, spike_event.pc) {
                    None => return DiffMeta::failed(missing_message(spike_event)),
                    Some(j) => {
                        proof {
                            lemma_find_arch_state(boat, boat_log_cursor as int, spike_event.pc);
                        }
                        let matched = match &boat_log[j] {
                            BoatEvent::ArchState { reg_idx, data, .. } => spike_event.writes_register(*reg_idx, *data),
                            _ => true,
                        };
                        if !matched {
                            return DiffMeta::failed(mismatch_message(&boat_log[j], spike_event));
                        }
                        boat_log_cursor = j - boat_log_cursor;
                    },
                }
            }
            k = k + 1;
        }
    }
    DiffMeta::passed()
}

} // verus!
