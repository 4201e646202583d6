//! The machine: the cores, the bus and the interrupt controller, and the
//! tick that drives one core.
use std::collections::HashMap;
use vstd::prelude::*;

use crate::cpu::{reset_view, step_effect, wrap_add, Core, CoreView, StepOutcome};
use crate::interrupts::{devices_dispatched, input_dispatched};
use crate::dma::{dma_tick_effect, SdDma, SD0_DMA, SD1_DMA};
use crate::debugger::{reg_by_name, reg_name_spec, RegName, Watchpoint, WatchpointHit};
use vstd::string::StringSliceAdditionalSpecFns;
use crate::interrupts::{InterruptController, MAX_CORES};
use crate::memory::{boot_value, Memory, CLK_REG_START};

verus! {

/// The parts of one tick of core `c` from state `v`, memory `m0` and
/// controller `ic0` to `next`, `m_end`, `ic_end` with outcome `r`: `ic1`
/// after input routing, `ic2` after device routing of the bits the bus had
/// raised, `ma` the bus once those bits were taken, `ic3` after the core took
/// its pending bits, `mc` the bus when the core steps, `sv` the core after
/// the step (before its tick count advances).
pub open spec fn tick_parts(
    v: CoreView,
    m0: Memory,
    ic0: InterruptController,
    c: int,
    uart: bool,
    forced: bool,
    next: CoreView,
    m_end: Memory,
    ic_end: InterruptController,
    r: StepOutcome,
    ic1: InterruptController,
    ic2: InterruptController,
    ic3: InterruptController,
    ma: Memory,
    mc: Memory,
    sv: CoreView,
) -> bool {
    let w1 = v.polled(ic2.pending_view()[c], ic2.payload_view()[c], ma.word(crate::memory::PIT_START));
    let w2 = w1.interrupt_step(ma);
    let clk = ma.word(CLK_REG_START);
    let period: int = if clk == u32::MAX { 1 } else { clk + 1 };
    &&& input_dispatched(ic0, ic1, uart, m0.input().len() > 0)
    &&& devices_dispatched(ic1, ic2, m0.pending())
    &&& ma.pending() == 0
    &&& ma.input() == m0.input()
    &&& ma.output() == m0.output()
    &&& forall|x: u32| #[trigger] ma.peek(x) == m0.peek(x)
    &&& ic3.cores() == ic2.cores()
    &&& ic3.pending_view() == ic2.pending_view().update(c, 0)
    &&& ic3.payload_view() == ic2.payload_view()
    &&& ic3.kb_holder() == ic2.kb_holder()
    &&& ic3.uart_holder() == ic2.uart_holder()
    &&& ic3.input_cursor() == ic2.input_cursor()
    &&& ic3.device_cursors() == ic2.device_cursors()
    &&& mc.unchanged(&ma)
    &&& step_effect(w2, mc, m_end, ic3, ic_end, sv, forced || (w2.count as int) % period == 0, r)
    &&& next == (CoreView { count: wrap_add(sv.count, 1), ..sv })
}

pub struct Emulator {
    memory: Memory,
    ic: InterruptController,
    cores: Vec<Core>,
    use_uart_rx: bool,
    sd0: SdDma,
    sd1: SdDma,
}

impl Emulator {
    pub closed spec fn wf(&self) -> bool {
        &&& self.memory.wf()
        &&& self.ic.wf()
        &&& self.cores@.len() == self.ic.cores()
        &&& forall|c: int| 0 <= c < self.cores@.len() ==> (#[trigger] self.cores@[c]).wf()
        &&& self.sd0.wf()
        &&& self.sd1.wf()
        &&& self.sd0.register_base() == SD0_DMA
        &&& self.sd1.register_base() == SD1_DMA
    }

    /// The state of each core.
    pub closed spec fn core_views(&self) -> Seq<CoreView> {
        self.cores@.map_values(|c: Core| c.view())
    }

    pub closed spec fn mem(&self) -> Memory {
        self.memory
    }

    pub closed spec fn controller(&self) -> InterruptController {
        self.ic
    }

    /// A one-core machine running the program image `program` (bytes by
    /// physical address).
    pub fn new(program: HashMap<u32, u8>, use_uart_rx: bool) -> (r: Emulator)
        ensures
            r.wf(),
            r.core_views() == seq![reset_view(0)],
            r.controller().cores() == 1,
            forall|a: u32| #[trigger] r.mem().peek(a) == boot_value(program@, a),
            r.mem().uart_mode() == use_uart_rx,
            r.mem().input() == Seq::<u16>::empty(),
            r.mem().output() == Seq::<u8>::empty(),
            r.mem().pending() == 0,
    {
        let r = Self::with_cores(program, use_uart_rx, 1);
        assert(r.core_views() =~= seq![reset_view(0)]);
        r
    }

    /// A machine of `cores` cores: core 0 runs from the reset address, the
    /// others sleep until an inter-processor interrupt; memory holds the
    /// program image and every device is in its reset state.
    pub fn with_cores(program: HashMap<u32, u8>, use_uart_rx: bool, cores: usize) -> (r: Emulator)
        requires
            1 <= cores <= MAX_CORES,
        ensures
            r.wf(),
            r.core_views().len() == cores,
            r.controller().cores() == cores,
            forall|c: int| 0 <= c < cores ==> #[trigger] r.core_views()[c] == reset_view(c as u32),
            forall|a: u32| #[trigger] r.mem().peek(a) == boot_value(program@, a),
            r.mem().uart_mode() == use_uart_rx,
            r.mem().input() == Seq::<u16>::empty(),
            r.mem().output() == Seq::<u8>::empty(),
            r.mem().pending() == 0,
    {
        let ghost image = program@;
        let memory = Memory::new(program, use_uart_rx);
        let mut v: Vec<Core> = Vec::new();
        let mut i: usize = 0;
        while i < cores
            invariant
                i <= cores,
                cores <= MAX_CORES,
                v@.len() == i,
                forall|c: int| 0 <= c < i ==> (#[trigger] v@[c]).wf() && v@[c].view() == reset_view(c as u32),
            decreases cores - i,
        {
            let core = Core::new(i as u32);
            v.push(core);
            i += 1;
        }
        let r = Emulator {
            memory,
            ic: InterruptController::new(cores),
            cores: v,
            use_uart_rx,
            sd0: SdDma::new(SD0_DMA, crate::memory::SD_INTERRUPT_BIT, 0),
            sd1: SdDma::new(SD1_DMA, crate::interrupts::SD2_INTERRUPT_BIT, 0),
        };
        r
    }

    pub fn num_cores(&self) -> (r: usize)
        requires
            self.wf(),
        ensures
            r == self.core_views().len(),
    {
        self.cores.len()
    }

    pub fn get_core(&self, c: usize) -> (r: &Core)
        requires
            self.wf(),
            c < self.core_views().len(),
        ensures
            r.wf(),
            r.view() == self.core_views()[c as int],
    {
        &self.cores[c]
    }

    pub fn memory(&self) -> (r: &Memory)
        ensures
            *r == self.mem(),
    {
        &self.memory
    }

    /// Whether every core has halted.
    pub fn all_halted(&self) -> (r: bool)
        requires
            self.wf(),
        ensures
            r == forall|c: int| 0 <= c < self.core_views().len() ==> (#[trigger] self.core_views()[c]).halted,
    {
        let mut i: usize = 0;
        while i < self.cores.len()
            invariant
                self.wf(),
                i <= self.cores@.len(),
                forall|c: int| 0 <= c < i ==> (#[trigger] self.core_views()[c]).halted,
            decreases self.cores@.len() - i,
        {
            if !self.cores[i].is_halted() {
                assert(!self.core_views()[i as int].halted);
                return false;
            }
            i += 1;
        }
        true
    }

    /// One tick of core `c` (nothing for a halted core): input and device
    /// interrupts are routed, the core takes its pending bits and runs its
    /// timer, enters a handler if one is due, and then, unless asleep or held
    /// back by the clock divider, fetches and executes one instruction; its
    /// tick count then advances (see `tick_parts`).
    pub fn tick_core(&mut self, c: usize) -> (r: StepOutcome)
        requires
            old(self).wf(),
            c < old(self).core_views().len(),
        ensures
            final(self).wf(),
            final(self).core_views().len() == old(self).core_views().len(),
            forall|j: int| 0 <= j < old(self).core_views().len() && j != c ==> #[trigger] final(self).core_views()[j]
                == old(self).core_views()[j],
            old(self).core_views()[c as int].halted ==> r == StepOutcome::Idle && *final(self) == *old(self),
            !old(self).core_views()[c as int].halted ==> old(self).ticked(&*final(self), c as int, false, r),
    {
        if self.cores[c].is_halted() {
            return StepOutcome::Idle;
        }
        self.tick_one(c, false)
    }

    /// One step of core 0 for the debugger: interrupt polling and one
    /// instruction, whatever the clock divider says.
    pub fn step_instruction(&mut self) -> (r: StepOutcome)
        requires
            old(self).wf(),
        ensures
            final(self).wf(),
            final(self).core_views().len() == old(self).core_views().len(),
            forall|j: int| 0 < j < old(self).core_views().len() ==> #[trigger] final(self).core_views()[j]
                == old(self).core_views()[j],
            old(self).ticked(&*final(self), 0, true, r),
    {
        proof {
            self.ic.lemma_lengths();
        }
        self.tick_one(0, true)
    }

    /// `next` is this machine after one tick of core `c` that yields `r`;
    /// with `forced` the clock divider does not hold the core back.
    pub open spec fn ticked(&self, next: &Emulator, c: int, forced: bool, r: StepOutcome) -> bool {
        exists|ic1: InterruptController, ic2: InterruptController, ic3: InterruptController, ma: Memory, mc: Memory, sv: CoreView|
            #[trigger] tick_parts(
                self.core_views()[c],
                self.mem(),
                self.controller(),
                c,
                self.uart(),
                forced,
                next.core_views()[c],
                next.mem(),
                next.controller(),
                r,
                ic1,
                ic2,
                ic3,
                ma,
                mc,
                sv,
            )
    }

    pub closed spec fn uart(&self) -> bool {
        self.use_uart_rx
    }

    fn tick_one(&mut self, c: usize, forced: bool) -> (r: StepOutcome)
        requires
            old(self).wf(),
            c < old(self).core_views().len(),
        ensures
            final(self).wf(),
            final(self).core_views().len() == old(self).core_views().len(),
            forall|j: int| 0 <= j < old(self).core_views().len() && j != c ==> #[trigger] final(self).core_views()[j]
                == old(self).core_views()[j],
            old(self).ticked(&*final(self), c as int, forced, r),
    {
        let ghost m0 = self.memory;
        let nonempty = self.memory.get_io_buffer().len() > 0;
        self.ic.dispatch_input(self.use_uart_rx, nonempty);
        let ghost ic1 = self.ic;
        let bits = self.memory.check_interrupts();
        self.ic.dispatch_device_interrupts(bits);
        let ghost ic2 = self.ic;
        let ghost ma = self.memory;
        let divider = match self.memory.read32(CLK_REG_START) {
            Ok(w) => w,
            Err(_) => 0,
        };
        let ghost mb = self.memory;
        proof {
            assert(forall|i: int| 0 <= i < 4 ==> crate::memory::is_storage(#[trigger] crate::memory::word_addrs(CLK_REG_START)[i]));
            crate::memory::lemma_storage_word_no_error(CLK_REG_START);
            assert(!crate::memory::is_input_port(crate::memory::word_addrs(CLK_REG_START)[0]));
            crate::memory::lemma_unchanged(&ma, &mb);
        }
        let period = if divider == u32::MAX { 1 } else { divider + 1 };
        self.cores[c].check_for_interrupts(&mut self.memory, &mut self.ic, c);
        let ghost ic3 = self.ic;
        let ghost mc1 = self.memory;
        let ghost w1 = self.cores@[c as int].view();
        self.cores[c].handle_interrupts(&mut self.memory);
        let ghost mc = self.memory;
        let ghost w2 = self.cores@[c as int].view();
        let run = forced || self.cores[c].tick_count() % period == 0;
        let r = self.cores[c].step(&mut self.memory, &mut self.ic, run);
        let ghost sv = self.cores@[c as int].view();
        self.cores[c].count_tick();
        assert(self.core_views() =~= old(self).core_views().update(c as int, self.cores@[c as int].view()));
        proof {
            crate::memory::lemma_unchanged(&mb, &mc1);
            crate::memory::lemma_unchanged(&mc1, &mc);
            crate::memory::lemma_unchanged_trans(&ma, &mb, &mc1);
            crate::memory::lemma_unchanged_trans(&ma, &mc1, &mc);
            let v = old(self).core_views()[c as int];
            assert(w1 == v.polled(ic2.pending_view()[c as int], ic2.payload_view()[c as int], ma.word(crate::memory::PIT_START)));
            assert(w2 == w1.interrupt_step(ma));
            assert(tick_parts(v, old(self).mem(), old(self).controller(), c as int, old(self).uart(), forced,
                self.core_views()[c as int], self.mem(), self.controller(), r, ic1, ic2, ic3, ma, mc, sv));
        }
        r
    }

    /// The program's result: register r1 of core 0.
    pub fn result(&self) -> (r: u32)
        requires
            self.wf(),
        ensures
            r == self.core_views()[0].regs[1],
    {
        proof {
            self.ic.lemma_lengths();
        }
        self.cores[0].get_reg_raw(1)
    }

    /// Queues a key code (or UART byte) from the host.
    pub fn push_input(&mut self, code: u16)
        requires
            old(self).wf(),
        ensures
            final(self).wf(),
            final(self).core_views() == old(self).core_views(),
            final(self).mem().input() == old(self).mem().input().push(code),
    {
        self.memory.push_input(code);
    }

    /// Takes the bytes the program wrote to the UART.
    pub fn take_output(&mut self) -> (r: Vec<u8>)
        requires
            old(self).wf(),
        ensures
            final(self).wf(),
            final(self).core_views() == old(self).core_views(),
            r@ == old(self).mem().output(),
    {
        self.memory.take_output()
    }

    /// Publishes the display's status and frame counter and raises the
    /// display interrupt when a frame begins.
    pub fn display_frame(&mut self, status: u8, frame: (u8, u8, u8, u8), interrupt: bool)
        requires
            old(self).wf(),
        ensures
            final(self).wf(),
            final(self).core_views() == old(self).core_views(),
            final(self).mem().input() == old(self).mem().input(),
            final(self).mem().output() == old(self).mem().output(),
            final(self).mem().pending() == if interrupt {
                old(self).mem().pending() | crate::memory::VGA_INTERRUPT_BIT
            } else {
                old(self).mem().pending()
            },
            forall|a: u32| #[trigger] final(self).mem().peek(a) == if a == crate::memory::VGA_STATUS_REGISTER_START {
                status
            } else if a == crate::memory::VGA_FRAME_REGISTER_START {
                frame.0
            } else if a == crate::memory::VGA_FRAME_REGISTER_START + 1 {
                frame.1
            } else if a == crate::memory::VGA_FRAME_REGISTER_START + 2 {
                frame.2
            } else if a == crate::memory::VGA_FRAME_REGISTER_START + 3 {
                frame.3
            } else {
                old(self).mem().peek(a)
            },
    {
        self.memory.set_vga_state(status, frame);
        if interrupt {
            self.memory.raise_interrupts(crate::memory::VGA_INTERRUPT_BIT);
        }
    }

    /// One tick of the SD engines (see `SdDma::tick`); the machine's run
    /// loop calls it once per round of core ticks.
    pub fn tick_devices(&mut self)
        requires
            old(self).wf(),
        ensures
            final(self).wf(),
            final(self).core_views() == old(self).core_views(),
            final(self).controller() == old(self).controller(),
            exists|m: Memory| #[trigger] old(self).sd0_ticked(&*final(self), m),
    {
        let ghost m0 = self.memory;
        self.sd0.tick(&mut self.memory);
        let ghost m = self.memory;
        self.sd1.tick(&mut self.memory);
        assert(old(self).sd0_ticked(&*self, m));
    }

    /// The SD engine states of this machine and `next`, with `m` the bus
    /// between the two engines' ticks, are those of `SdDma::tick`.
    pub closed spec fn sd0_ticked(&self, next: &Emulator, m: Memory) -> bool {
        &&& dma_tick_effect(self.sd0, next.sd0, self.memory, m)
        &&& dma_tick_effect(self.sd1, next.sd1, m, next.memory)
    }

    /// Replaces core 0's watchpoints.
    pub fn set_watchpoints(&mut self, watchpoints: &Vec<Watchpoint>)
        requires
            old(self).wf(),
        ensures
            final(self).wf(),
            final(self).core_views().len() == old(self).core_views().len(),
            final(self).core_views()[0].watchpoints == watchpoints@,
    {
        proof {
            self.ic.lemma_lengths();
        }
        self.cores[0].set_watchpoints(watchpoints);
        assert(self.core_views() =~= old(self).core_views().update(0, self.cores@[0].view()));
    }

    /// Takes core 0's latched watchpoint hit.
    pub fn take_watchpoint_hit(&mut self) -> (r: Option<WatchpointHit>)
        requires
            old(self).wf(),
        ensures
            final(self).wf(),
            final(self).core_views().len() == old(self).core_views().len(),
            r == old(self).core_views()[0].hit,
            final(self).core_views()[0].hit is None,
    {
        proof {
            self.ic.lemma_lengths();
        }
        let r = self.cores[0].take_watchpoint_hit();
        assert(self.core_views() =~= old(self).core_views().update(0, self.cores@[0].view()));
        r
    }

    /// Sets the register of core 0 that `token` names, as the debugger's
    /// `set reg` does (a general register through the r31 alias); false
    /// when `token` names no register.
    pub fn set_reg_value(&mut self, token: &str, value: u32) -> (r: bool)
        requires
            old(self).wf(),
        ensures
            final(self).wf(),
            final(self).core_views().len() == old(self).core_views().len(),
            r == (reg_name_spec(token.spec_bytes()) is Some),
            ({
                let v = old(self).core_views()[0];
                let w = final(self).core_views()[0];
                match reg_name_spec(token.spec_bytes()) {
                    Some(RegName::Pc) => w == v.with_pc(value),
                    Some(RegName::Gpr(i)) => w == v.set_reg(i, value),
                    Some(RegName::Cr(c)) => w == v.set_creg(c as int, value),
                    None => w == v,
                }
            }),
    {
        proof {
            self.ic.lemma_lengths();
        }
        let r = match reg_by_name(token) {
            Some(RegName::Pc) => {
                self.cores[0].set_pc(value);
                true
            },
            Some(RegName::Gpr(i)) => {
                self.cores[0].write_reg(i, value);
                true
            },
            Some(RegName::Cr(c)) => {
                self.cores[0].write_creg(c, value);
                true
            },
            None => false,
        };
        assert(self.core_views() =~= old(self).core_views().update(0, self.cores@[0].view()));
        r
    }

    /// The register of core 0 that `token` names, as instructions see it.
    pub fn read_reg_value(&self, token: &str) -> (r: Option<u32>)
        requires
            self.wf(),
        ensures
            ({
                let v = self.core_views()[0];
                r == match reg_name_spec(token.spec_bytes()) {
                    Some(RegName::Pc) => Some(v.pc),
                    Some(RegName::Gpr(i)) => Some(v.reg(i)),
                    Some(RegName::Cr(c)) => Some(v.cregs[c as int]),
                    None => None::<u32>,
                }
            }),
    {
        proof {
            self.ic.lemma_lengths();
        }
        match reg_by_name(token) {
            Some(RegName::Pc) => Some(self.cores[0].pc()),
            Some(RegName::Gpr(i)) => Some(self.cores[0].get_reg(i)),
            Some(RegName::Cr(c)) => Some(self.cores[0].read_creg(c)),
            None => None,
        }
    }

    /// The byte at physical address `addr`, read without side effects.
    pub fn read_phys8_debug(&self, addr: u32) -> (r: Result<u8, crate::memory::BusError>)
        requires
            self.wf(),
        ensures
            r == match crate::memory::read_error(addr) {
                Some(e) => Err::<u8, crate::memory::BusError>(e),
                None => Ok::<u8, crate::memory::BusError>(self.mem().read_value(addr)),
            },
    {
        self.memory.read_phys8_debug(addr)
    }

    /// The physical address that core 0 reads virtual address `vaddr` at.
    pub fn translate_debug(&self, vaddr: u32) -> (r: Option<u32>)
        requires
            self.wf(),
        ensures
            r == self.core_views()[0].translate(vaddr, 0),
    {
        proof {
            self.ic.lemma_lengths();
        }
        self.cores[0].convert_mem_address(vaddr, 0)
    }

    /// Loads the card image of SD device `slot` (0 or 1).
    pub fn load_sd_image(&mut self, slot: usize, bytes: Vec<u8>)
        requires
            old(self).wf(),
            bytes@.len() <= u32::MAX,
        ensures
            final(self).wf(),
            final(self).core_views() == old(self).core_views(),
            slot == 0 ==> final(self).sd_images().0 == bytes@,
            slot != 0 ==> final(self).sd_images().1 == bytes@,
    {
        if slot == 0 {
            self.sd0.load_sd_image(bytes);
        } else {
            self.sd1.load_sd_image(bytes);
        }
    }

    /// The card images of the two SD devices.
    pub closed spec fn sd_images(&self) -> (Seq<u8>, Seq<u8>) {
        (self.sd0.image(), self.sd1.image())
    }

    /// The card image of SD device `slot` (0 or 1).
    pub fn sd_image(&self, slot: usize) -> (r: &Vec<u8>)
        ensures
            r@ == if slot == 0 { self.sd_images().0 } else { self.sd_images().1 },
    {
        if slot == 0 {
            self.sd0.sd_image()
        } else {
            self.sd1.sd_image()
        }
    }
}

/// Why a debugger run stopped.
#[derive(Clone, Copy, Debug, PartialEq, Eq, Structural)]
pub enum RunOutcome {
    Breakpoint(u32),
    Halted,
    Watchpoint(WatchpointHit),
    StepLimit,
}

/// Steps core 0 until it halts, reaches one of `breakpoints`, hits a
/// watchpoint, or `max_steps` steps have run.
pub fn run_until_breakpoint(cpu: &mut Emulator, breakpoints: &Vec<u32>, max_steps: u64) -> (r: RunOutcome)
    requires
        old(cpu).wf(),
    ensures
        final(cpu).wf(),
        final(cpu).core_views().len() == old(cpu).core_views().len(),
        r == RunOutcome::Halted ==> final(cpu).core_views()[0].halted,
        r matches RunOutcome::Breakpoint(a) ==> final(cpu).core_views()[0].pc == a && breakpoints@.contains(a),
        r == RunOutcome::StepLimit ==> !final(cpu).core_views()[0].halted
            && !breakpoints@.contains(final(cpu).core_views()[0].pc),
{
    let mut steps: u64 = 0;
    while steps < max_steps
        invariant
            cpu.wf(),
            cpu.core_views().len() == old(cpu).core_views().len(),
        decreases max_steps - steps,
    {
        proof {
            cpu.controller().lemma_lengths();
        }
        let core0 = cpu.get_core(0);
        if core0.is_halted() {
            return RunOutcome::Halted;
        }
        let pc = core0.pc();
        let mut i: usize = 0;
        while i < breakpoints.len()
            invariant
                i <= breakpoints@.len(),
                forall|j: int| 0 <= j < i ==> breakpoints@[j] != pc,
                cpu.wf(),
                cpu.core_views().len() == old(cpu).core_views().len(),
                cpu.core_views().len() >= 1,
                cpu.core_views()[0].pc == pc,
            decreases breakpoints@.len() - i,
        {
            if breakpoints[i] == pc {
                assert(breakpoints@[i as int] == pc);
                return RunOutcome::Breakpoint(pc);
            }
            i += 1;
        }
        cpu.step_instruction();
        if let Some(hit) = cpu.take_watchpoint_hit() {
            return RunOutcome::Watchpoint(hit);
        }
        steps += 1;
    }
    proof {
        cpu.controller().lemma_lengths();
    }
    let core0 = cpu.get_core(0);
    if core0.is_halted() {
        return RunOutcome::Halted;
    }
    let pc = core0.pc();
    let mut i: usize = 0;
    while i < breakpoints.len()
        invariant
            i <= breakpoints@.len(),
            forall|j: int| 0 <= j < i ==> breakpoints@[j] != pc,
            cpu.wf(),
            cpu.core_views().len() == old(cpu).core_views().len(),
            cpu.core_views().len() >= 1,
            cpu.core_views()[0].pc == pc,
        decreases breakpoints@.len() - i,
    {
        if breakpoints[i] == pc {
            assert(breakpoints@[i as int] == pc);
            return RunOutcome::Breakpoint(pc);
        }
        i += 1;
    }
    RunOutcome::StepLimit
}

} // verus!
