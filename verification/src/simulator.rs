//! The emulated machine that the Sail RISC-V model calls back into, and the
//! handle that owns it between those calls.
use vstd::prelude::*;
use crate::elf::{load_elf, load_outcome, ElfBuffer, ElfLoadError};
use crate::memory::{le_bytes, le_value, lemma_le_value_concat, lemma_le_value_of_le_bytes, lemma_read_after_write, pow256, read_le, update_bytes, write_le};

verus! {

/// A machine word as the Sail model passes it.
pub type MarchBits = u64;

/// The Sail model's unit value.
pub type SailUnit = i32;

pub const SAIL_UNIT: SailUnit = 0;

/// Writing `EXIT_CODE` to this address ends the simulation.
pub const EXIT_ADDR: u64 = 0x10000000;

/// The value whose write to `EXIT_ADDR` ends the simulation.
pub const EXIT_CODE: u64 = 0xdeadbeef;

/// The callbacks that the Sail model needs from the emulator side.
///
/// The spec functions say on which arguments a callback may be made; outside
/// them the emulator has nothing sensible to answer.
pub trait SailImpl {
    /// An instruction can be fetched at `pc`.
    spec fn can_fetch(&self, pc: MarchBits) -> bool;

    /// A machine word can be read at `address`.
    spec fn can_read(&self, address: u64) -> bool;

    /// `bytes` bytes of `data` can be written at `address`.
    spec fn can_write(&self, address: u64, data: u64, bytes: u64) -> bool;

    fn inst_fetch(&mut self, pc: MarchBits) -> MarchBits
        requires
            old(self).can_fetch(pc),
    ;

    fn readmem(&self, address: u64, satp: u64) -> u64
        requires
            self.can_read(address),
    ;

    fn writemem(&mut self, address: u64, data: u64, bytes: u64, satp: u64) -> SailUnit
        requires
            old(self).can_write(address, data, bytes),
    ;

    fn exception_raised(&self, arg1: SailUnit) -> bool;

    fn get_exception(&self, arg1: SailUnit) -> u64;

    fn fence_i(&self, pred: u16, succ: u16) -> SailUnit;

    fn is_reset(&mut self, arg1: SailUnit) -> bool;
}

/// The abstract state of a `Simulator`.
pub struct SimulatorState {
    pub memory: Seq<u8>,
    pub instruction_count: u64,
    pub fetch_count: u64,
    pub step_count: u64,
    /// The next reset query answers `true`.
    pub reset_pending: bool,
    pub finished: bool,
}

/// The value of the `width` bytes at `address`, least significant first.
pub open spec fn memory_value(s: SimulatorState, address: int, width: nat) -> nat {
    le_value(s.memory.subrange(address, address + width))
}

/// The state after a memory write by the Sail model.
pub open spec fn state_after_write(s: SimulatorState, address: u64, data: u64, bytes: u64) -> SimulatorState {
    if is_exit_write(address, data) {
        SimulatorState { finished: true, ..s }
    } else {
        SimulatorState { memory: update_bytes(s.memory, address as int, le_bytes(data as nat, bytes as nat)), ..s }
    }
}

/// A write of `data` to `address` asks the simulation to end.
pub open spec fn is_exit_write(address: u64, data: u64) -> bool {
    address == EXIT_ADDR && data == EXIT_CODE
}

/// The state after a step of the Sail model has been checked.
pub open spec fn state_after_step(s: SimulatorState) -> SimulatorState {
    if s.finished {
        s
    } else {
        SimulatorState {
            instruction_count: (s.instruction_count + 1) as u64,
            step_count: (s.step_count + 1) as u64,
            ..s
        }
    }
}

/// What a write stores is what a read of the same width at the same address
/// gives back, cut to that width.
pub proof fn lemma_read_back_written(s: SimulatorState, address: u64, data: u64, bytes: u64)
    requires
        !is_exit_write(address, data),
        address + bytes <= s.memory.len(),
    ensures
        memory_value(state_after_write(s, address, data, bytes), address as int, bytes as nat)
            == data as nat % pow256(bytes as nat),
{
    lemma_read_after_write(s.memory, address as int, data, bytes as nat);
}

/// A wider read at the address of a write gives the bytes written, cut to
/// the write's width, and above them the bytes that were there before.
pub proof fn lemma_wide_read_after_write(s: SimulatorState, address: u64, data: u64, bytes: u64, width: u64)
    requires
        !is_exit_write(address, data),
        bytes <= width,
        address + width <= s.memory.len(),
    ensures
        memory_value(state_after_write(s, address, data, bytes), address as int, width as nat)
            == data as nat % pow256(bytes as nat)
                + pow256(bytes as nat) * memory_value(s, address + bytes, (width - bytes) as nat),
{
    let after = state_after_write(s, address, data, bytes).memory;
    let written = le_bytes(data as nat, bytes as nat);
    let rest = s.memory.subrange(address + bytes, address + width);
    assert(after.subrange(address as int, address + width) =~= written + rest);
    lemma_le_value_concat(written, rest);
    lemma_le_value_of_le_bytes(data as nat, bytes as nat);
}

/// Only the exit code written to the exit address ends the simulation: any
/// other write leaves `finished` and the counters as they were and stores the
/// written value, cut to the written width, at its address; the exit write
/// stores nothing and finishes the simulation.
pub proof fn lemma_write_effect(s: SimulatorState, address: u64, data: u64, bytes: u64)
    requires
        address + bytes <= s.memory.len(),
    ensures
        is_exit_write(address, data) <==> (address == EXIT_ADDR && data == EXIT_CODE),
        (address != EXIT_ADDR || data != EXIT_CODE) ==> {
            let after = state_after_write(s, address, data, bytes);
            &&& after.finished == s.finished
            &&& after.reset_pending == s.reset_pending
            &&& after.instruction_count == s.instruction_count
            &&& after.step_count == s.step_count
            &&& after.fetch_count == s.fetch_count
            &&& after.memory.len() == s.memory.len()
            &&& memory_value(after, address as int, bytes as nat) == data as nat % pow256(bytes as nat)
        },
        (address == EXIT_ADDR && data == EXIT_CODE) ==> {
            let after = state_after_write(s, address, data, bytes);
            &&& after.finished
            &&& after.memory == s.memory
        },
{
    if address != EXIT_ADDR || data != EXIT_CODE {
        lemma_read_after_write(s.memory, address as int, data, bytes as nat);
    }
}

/// A write leaves every byte outside the written range as it was, and the
/// memory's size too.
pub proof fn lemma_write_keeps_other_bytes(s: SimulatorState, address: u64, data: u64, bytes: u64, other: int)
    requires
        0 <= other < s.memory.len(),
        !(address <= other < address + bytes),
    ensures
        state_after_write(s, address, data, bytes).memory.len() == s.memory.len(),
        state_after_write(s, address, data, bytes).memory[other] == s.memory[other],
{
}

/// The exit write ends the simulation without touching memory, and from then
/// on every checked step is refused and changes nothing.
pub proof fn lemma_exit_write_ends_simulation(s: SimulatorState, bytes: u64)
    ensures
        state_after_write(s, EXIT_ADDR, EXIT_CODE, bytes).finished,
        state_after_write(s, EXIT_ADDR, EXIT_CODE, bytes).memory == s.memory,
        state_after_step(state_after_write(s, EXIT_ADDR, EXIT_CODE, bytes))
            == state_after_write(s, EXIT_ADDR, EXIT_CODE, bytes),
{
}

/// The state after the Sail model asked whether to reset.
pub open spec fn state_after_reset_query(s: SimulatorState) -> SimulatorState {
    SimulatorState { reset_pending: false, ..s }
}

/// A reset is reported once: after any query, the next one answers `false`.
pub proof fn lemma_reset_reported_once(s: SimulatorState)
    ensures
        !state_after_reset_query(s).reset_pending,
        state_after_reset_query(state_after_reset_query(s)) == state_after_reset_query(s),
{
}

/// The state after an instruction fetch.
pub open spec fn state_after_fetch(s: SimulatorState) -> SimulatorState {
    SimulatorState { fetch_count: (s.fetch_count + 1) as u64, ..s }
}

/// The state after a physical write of `width` bytes of `data` at `address`.
pub open spec fn state_after_phy_write(s: SimulatorState, address: u64, data: u64, width: u64) -> SimulatorState {
    SimulatorState { memory: update_bytes(s.memory, address as int, le_bytes(data as nat, width as nat)), ..s }
}

/// A call that changes a simulator's state; the other calls take it by
/// shared reference.
pub enum SimCall {
    /// `inst_fetch`
    Fetch(u64),
    /// `writemem` with address, data and byte count
    Write(u64, u64, u64),
    /// `phy_write_mem` with address, data and width
    PhyWrite(u64, u64, u64),
    /// `is_reset`
    ResetQuery,
    /// `check_step`
    Step,
}

/// The state after `call`, as that call's contract gives it.
pub open spec fn state_after_call(s: SimulatorState, call: SimCall) -> SimulatorState {
    match call {
        SimCall::Fetch(_) => state_after_fetch(s),
        SimCall::Write(address, data, bytes) => state_after_write(s, address, data, bytes),
        SimCall::PhyWrite(address, data, width) => state_after_phy_write(s, address, data, width),
        SimCall::ResetQuery => state_after_reset_query(s),
        SimCall::Step => state_after_step(s),
    }
}

/// The state after `calls`, in order.
pub open spec fn state_after_calls(s: SimulatorState, calls: Seq<SimCall>) -> SimulatorState
    decreases calls.len(),
{
    if calls.len() == 0 {
        s
    } else {
        state_after_call(state_after_calls(s, calls.drop_last()), calls.last())
    }
}

/// `call` is the exit write.
pub open spec fn is_exit_call(call: SimCall) -> bool {
    call matches SimCall::Write(address, data, _) && is_exit_write(address, data)
}

/// Over any sequence of calls the simulation is finished exactly when it was
/// finished before or one of the calls was the exit write; so once finished
/// it stays finished, and every later `check_step` answers `Err` and changes
/// nothing.
pub proof fn lemma_finished_over_calls(s: SimulatorState, calls: Seq<SimCall>)
    ensures
        state_after_calls(s, calls).finished
            <==> (s.finished || exists|i: int| 0 <= i < calls.len() && is_exit_call(#[trigger] calls[i])),
        state_after_calls(s, calls).finished ==>
            state_after_step(state_after_calls(s, calls)) == state_after_calls(s, calls),
    decreases calls.len(),
{
    if calls.len() > 0 {
        let init = calls.drop_last();
        lemma_finished_over_calls(s, init);
        if exists|i: int| 0 <= i < init.len() && is_exit_call(#[trigger] init[i]) {
            let i = choose|i: int| 0 <= i < init.len() && is_exit_call(#[trigger] init[i]);
            assert(calls[i] == init[i]);
        }
        if exists|i: int| 0 <= i < calls.len() && is_exit_call(#[trigger] calls[i]) {
            let i = choose|i: int| 0 <= i < calls.len() && is_exit_call(#[trigger] calls[i]);
            if i < init.len() {
                assert(init[i] == calls[i]);
            }
        }
    }
}

/// Over any sequence of calls the next reset query answers `true` exactly
/// when the simulator was waiting for its reset and none of the calls was a
/// reset query: a simulator reports its reset once.
pub proof fn lemma_reset_over_calls(s: SimulatorState, calls: Seq<SimCall>)
    ensures
        state_after_calls(s, calls).reset_pending
            <==> (s.reset_pending && forall|i: int| 0 <= i < calls.len() ==> !(#[trigger] calls[i] is ResetQuery)),
    decreases calls.len(),
{
    if calls.len() > 0 {
        let init = calls.drop_last();
        lemma_reset_over_calls(s, init);
        assert forall|i: int| 0 <= i < init.len() implies #[trigger] init[i] == calls[i] by {}
        let before = state_after_calls(s, init);
        assert(state_after_calls(s, calls).reset_pending == (before.reset_pending && !(calls.last() is ResetQuery)));
        if s.reset_pending && forall|i: int| 0 <= i < calls.len() ==> !(#[trigger] calls[i] is ResetQuery) {
            assert(!(calls[calls.len() - 1] is ResetQuery));
            assert forall|i: int| 0 <= i < init.len() implies !(#[trigger] init[i] is ResetQuery) by {
                assert(calls[i] == init[i]);
            }
        }
        if state_after_calls(s, calls).reset_pending {
            assert forall|i: int| 0 <= i < calls.len() implies !(#[trigger] calls[i] is ResetQuery) by {
                if i < init.len() {
                    assert(calls[i] == init[i]);
                }
            }
        }
    }
}

/// The emulator side of a simulation: a flat physical memory and counters.
pub struct Simulator {
    memory: Vec<u8>,
    instruction_count: u64,
    fetch_count: u64,
    step_count: u64,
    is_reset: bool,
    finished: bool,
}

impl View for Simulator {
    type V = SimulatorState;

    closed spec fn view(&self) -> SimulatorState {
        SimulatorState {
            memory: self.memory@,
            instruction_count: self.instruction_count,
            fetch_count: self.fetch_count,
            step_count: self.step_count,
            reset_pending: self.is_reset,
            finished: self.finished,
        }
    }
}

impl Simulator {
    /// A simulator with `memory_size` bytes of zeroed memory, waiting for its reset.
    pub fn with_memory(memory_size: usize) -> (sim: Self)
        ensures
            sim@.memory == Seq::new(memory_size as nat, |i: int| 0u8),
            sim@.instruction_count == 0,
            sim@.fetch_count == 0,
            sim@.step_count == 0,
            sim@.reset_pending,
            !sim@.finished,
    {
        let memory: Vec<u8> = vec![0u8; memory_size];
        let sim = Simulator {
            memory,
            instruction_count: 0,
            fetch_count: 0,
            step_count: 0,
            is_reset: true,
            finished: false,
        };
        assert(sim@.memory =~= Seq::new(memory_size as nat, |i: int| 0u8));
        sim
    }

    /// A simulator whose zeroed memory of `memory_size` bytes holds the
    /// loadable segments of the RISC-V ELF image `elf`, with the image's entry
    /// point to reset to.
    ///
    /// An image that `load_elf` cannot load gives its `ElfLoadError` and no
    /// simulator; this function does not panic on a bad image, and the
    /// emulator program stops on the error.
    pub fn new(memory_size: usize, elf: &ElfBuffer) -> (r: Result<(Simulator, u64), ElfLoadError>)
        ensures
            ({
                let outcome = load_outcome(elf@, Seq::new(memory_size as nat, |i: int| 0u8));
                match r {
                    Ok((sim, entry)) => {
                        &&& outcome.0 == Ok::<u64, ElfLoadError>(entry)
                        &&& sim@ == (SimulatorState {
                            memory: outcome.1,
                            instruction_count: 0,
                            fetch_count: 0,
                            step_count: 0,
                            reset_pending: true,
                            finished: false,
                        })
                    },
                    Err(e) => outcome.0 == Err::<u64, ElfLoadError>(e),
                }
            }),
    {
        let mut sim = Simulator::with_memory(memory_size);
        match load_elf(elf, &mut sim.memory) {
            Ok(entry) => Ok((sim, entry)),
            Err(e) => Err(e),
        }
    }

    /// Accounts for one step of the Sail model: `Err` once the program has
    /// written the exit code, otherwise the step and instruction counts grow.
    pub fn check_step(&mut self) -> (r: Result<(), ()>)
        requires
            !old(self)@.finished ==> old(self)@.instruction_count < u64::MAX && old(self)@.step_count < u64::MAX,
        ensures
            r is Err <==> old(self)@.finished,
            final(self)@ == state_after_step(old(self)@),
    {
        if self.finished {
            return Err(());
        }
        self.instruction_count = self.instruction_count + 1;
        self.step_count = self.step_count + 1;
        Ok(())
    }

    /// Reads `width` bytes of memory at `address` as a little-endian number.
    pub fn phy_readmem(&self, address: u64, width: u64) -> (v: u64)
        requires
            width <= 8,
            address + width <= self@.memory.len(),
        ensures
            v == memory_value(self@, address as int, width as nat),
    {
        read_le(&self.memory, address, width)
    }

    /// Writes the `width` least significant bytes of `data` at `address`.
    pub fn phy_write_mem(&mut self, address: u64, data: u64, width: u64)
        requires
            width <= 8,
            address + width <= old(self)@.memory.len(),
        ensures
            final(self)@ == state_after_phy_write(old(self)@, address, data, width),
    {
        write_le(&mut self.memory, address, data, width);
    }

    pub fn instruction_count(&self) -> (r: u64)
        ensures
            r == self@.instruction_count,
    {
        self.instruction_count
    }

    pub fn fetch_count(&self) -> (r: u64)
        ensures
            r == self@.fetch_count,
    {
        self.fetch_count
    }

    pub fn step_count(&self) -> (r: u64)
        ensures
            r == self@.step_count,
    {
        self.step_count
    }

    pub fn is_finished(&self) -> (r: bool)
        ensures
            r == self@.finished,
    {
        self.finished
    }

    pub fn memory_size(&self) -> (r: usize)
        ensures
            r == self@.memory.len(),
    {
        self.memory.len()
    }
}

impl SailImpl for Simulator {
    open spec fn can_fetch(&self, pc: MarchBits) -> bool {
        &&& pc + 4 <= self@.memory.len()
        &&& memory_value(self@, pc as int, 4) != 0
        &&& self@.fetch_count < u64::MAX
    }

    open spec fn can_read(&self, address: u64) -> bool {
        address + 8 <= self@.memory.len()
    }

    open spec fn can_write(&self, address: u64, data: u64, bytes: u64) -> bool {
        is_exit_write(address, data) || (bytes <= 8 && address + bytes <= self@.memory.len())
    }

    /// The little-endian instruction word at `pc`; a zero word is no instruction.
    fn inst_fetch(&mut self, pc: MarchBits) -> (inst: MarchBits)
        ensures
            inst == memory_value(old(self)@, pc as int, 4),
            final(self)@ == state_after_fetch(old(self)@),
    {
        let inst = read_le(&self.memory, pc, 4);
        self.fetch_count = self.fetch_count + 1;
        inst
    }

    /// The little-endian double word at `address`; the Sail side masks it.
    fn readmem(&self, address: u64, _satp: u64) -> (v: u64)
        ensures
            v == memory_value(self@, address as int, 8),
    {
        read_le(&self.memory, address, 8)
    }

    /// Stores `bytes` bytes of `src`, or ends the simulation on the exit write.
    fn writemem(&mut self, address: u64, src: u64, bytes: u64, _satp: u64) -> (r: SailUnit)
        ensures
            r == SAIL_UNIT,
            final(self)@ == state_after_write(old(self)@, address, src, bytes),
    {
        if address == EXIT_ADDR && src == EXIT_CODE {
            self.finished = true;
            return SAIL_UNIT;
        }
        write_le(&mut self.memory, address, src, bytes);
        SAIL_UNIT
    }

    fn exception_raised(&self, _arg1: SailUnit) -> (r: bool)
        ensures
            !r,
    {
        false
    }

    fn get_exception(&self, _arg1: SailUnit) -> (r: u64)
        ensures
            r == 0,
    {
        0x00000000
    }

    /// Fences need no work in this memory model.
    fn fence_i(&self, _pred: u16, _succ: u16) -> (r: SailUnit)
        ensures
            r == SAIL_UNIT,
    {
        SAIL_UNIT
    }

    /// `true` exactly once: on the first query after the simulator was made.
    fn is_reset(&mut self, _arg1: SailUnit) -> (r: bool)
        ensures
            r == old(self)@.reset_pending,
            final(self)@ == state_after_reset_query(old(self)@),
    {
        if self.is_reset {
            self.is_reset = false;
            true
        } else {
            false
        }
    }
}

/// Owns the simulator between two callbacks of the Sail model.
///
/// A callback finds the simulator here; it is put in once with `init` and
/// taken out with `dispose`.
pub struct SimulatorHandler<T: SailImpl> {
    simulator: Option<T>,
}

impl<T: SailImpl> SimulatorHandler<T> {
    /// The simulator held, if any.
    pub closed spec fn held(&self) -> Option<T> {
        self.simulator
    }

    /// A handler that holds no simulator yet.
    pub fn new() -> (h: Self)
        ensures
            h.held() is None,
    {
        SimulatorHandler { simulator: None }
    }

    /// Whether the handler holds a simulator.
    pub fn is_initialized(&self) -> (r: bool)
        ensures
            r == self.held() is Some,
    {
        self.simulator.is_some()
    }

    /// Puts the simulator that `init_fn` makes into the handler; a handler
    /// can be initialized once.
    pub fn init(&mut self, init_fn: impl FnOnce() -> T)
        requires
            old(self).held() is None,
            call_requires(init_fn, ()),
        ensures
            final(self).held() is Some,
            call_ensures(init_fn, (), final(self).held().unwrap()),
    {
        let sim = init_fn();
        self.simulator = Some(sim);
    }

    /// Runs `f` on the held simulator: `f` gets the simulator and hands it
    /// back, changed, together with its result.
    pub fn with<R>(&mut self, f: impl FnOnce(T) -> (T, R)) -> (r: R)
        requires
            old(self).held() is Some,
            call_requires(f, (old(self).held().unwrap(),)),
        ensures
            final(self).held() is Some,
            call_ensures(f, (old(self).held().unwrap(),), (final(self).held().unwrap(), r)),
    {
        let sim = self.simulator.take().unwrap();
        let (sim, r) = f(sim);
        self.simulator = Some(sim);
        r
    }

    /// Runs `f` on the held simulator if there is one, and on `None` if not.
    /// `f` hands back what it got, changed but held or not as before.
    pub fn with_optional<R>(&mut self, f: impl FnOnce(Option<T>) -> (Option<T>, R)) -> (r: R)
        requires
            call_requires(f, (old(self).held(),)),
            forall|arg: Option<T>, out: (Option<T>, R)|
                #[trigger] call_ensures(f, (arg,), out) ==> (out.0 is Some <==> arg is Some),
        ensures
            call_ensures(f, (old(self).held(),), (final(self).held(), r)),
            final(self).held() is Some <==> old(self).held() is Some,
    {
        let sim = self.simulator.take();
        let (sim, r) = f(sim);
        self.simulator = sim;
        r
    }

    /// Drops the held simulator; the handler must hold one.
    pub fn dispose(&mut self)
        requires
            old(self).held() is Some,
        ensures
            final(self).held() is None,
    {
        self.simulator = None;
    }
}

} // verus!
