//! One processor core: registers, modes, exceptions and the instruction set.
use vstd::prelude::*;

use crate::debugger::{find_hit, first_hit, WatchAccess, Watchpoint, WatchpointHit};
use crate::alu::{alu_compute, alu_imm_spec, alu_spec, branch_condition, compute_flags, condition_spec, decode_alu_imm, flags_spec};
use crate::memory::{BusError, Memory, PHYSMEM_MAX};
use crate::interrupts::{broadcast_mask, InterruptController};
use crate::tlb::{inserted_with_eviction, translate, RandomCache, TLB_CAPACITY, TLB_G};

verus! {

/// Number of control registers.
pub const NUM_CREGS: usize = 12;
pub const CR_PSR: usize = 0;
pub const CR_PID: usize = 1;
pub const CR_ISR: usize = 2;
pub const CR_IMR: usize = 3;
pub const CR_EPC: usize = 4;
pub const CR_FLG: usize = 5;
pub const CR_CDV: usize = 6;
pub const CR_TLB: usize = 7;
pub const CR_KSP: usize = 8;
pub const CR_CID: usize = 9;
pub const CR_MBI: usize = 10;
pub const CR_MBO: usize = 11;

/// Exception vectors (word indices in low physical memory).
pub const VEC_EXIT: u32 = 0x01;
pub const VEC_ILLEGAL: u32 = 0x80;
pub const VEC_PRIVILEGED: u32 = 0x81;
pub const VEC_TLB_UMISS: u32 = 0x82;
pub const VEC_TLB_KMISS: u32 = 0x83;
pub const VEC_INTERRUPT_BASE: u32 = 0xF0;

/// Address of the first instruction after reset.
pub const RESET_PC: u32 = 0x400;
/// IMR bit that enables interrupts globally.
pub const IMR_ENABLE: u32 = 0x8000_0000;

/// A condition that stops the machine: the program image is broken.
#[derive(Clone, Copy, Debug, PartialEq, Eq, Structural)]
pub enum Fault {
    Bus(BusError),
    ExceptionNestOverflow,
}

/// The architectural state of a core.
pub struct CoreView {
    pub regs: Seq<u32>,
    pub cregs: Seq<u32>,
    pub pc: u32,
    pub kmode: bool,
    pub asleep: bool,
    pub halted: bool,
    pub timer: u32,
    pub count: u32,
    pub fault: Option<Fault>,
    pub tlb_private: Map<(u32, u32), u32>,
    pub tlb_global: Map<u32, u32>,
    /// Entries held in the private and the global table.
    pub tlb_sizes: (nat, nat),
    pub watchpoints: Seq<Watchpoint>,
    pub hit: Option<WatchpointHit>,
}

pub open spec fn wrap_add(a: u32, b: u32) -> u32 {
    ((a as int + b as int) % 0x1_0000_0000) as u32
}

impl CoreView {
    /// Register `r` as instructions see it: r31 is the kernel stack pointer
    /// in kernel mode.
    pub open spec fn reg(self, r: u32) -> u32 {
        if self.kmode && r == 31 {
            self.cregs[CR_KSP as int]
        } else {
            self.regs[r as int]
        }
    }

    /// The state after an instruction writes `v` to register `r`: r0 stays
    /// zero, r31 in kernel mode is the kernel stack pointer.
    pub open spec fn set_reg(self, r: u32, v: u32) -> CoreView {
        if self.kmode && r == 31 {
            CoreView { cregs: self.cregs.update(CR_KSP as int, v), ..self }
        } else if r == 0 {
            self
        } else {
            CoreView { regs: self.regs.update(r as int, v), ..self }
        }
    }

    pub open spec fn set_creg(self, c: int, v: u32) -> CoreView {
        CoreView { cregs: self.cregs.update(c, v), ..self }
    }

    pub open spec fn with_pc(self, pc: u32) -> CoreView {
        CoreView { pc, ..self }
    }

    /// The state after an instruction that falls through.
    pub open spec fn advance(self) -> CoreView {
        self.with_pc(wrap_add(self.pc, 4))
    }

    pub open spec fn psr(self) -> u32 {
        self.cregs[CR_PSR as int]
    }

    /// Exception entry with `epc` saved and `handler` (the vector's word)
    /// as the new PC: interrupts are disabled and PSR counts one more level;
    /// at the deepest level the core stops instead.
    pub open spec fn enter(self, epc: u32, handler: u32) -> CoreView {
        let saved = self.set_creg(CR_EPC as int, epc).set_creg(
            CR_IMR as int,
            self.cregs[CR_IMR as int] & 0x7FFF_FFFF,
        );
        if self.psr() == u32::MAX {
            CoreView { halted: true, fault: Some(Fault::ExceptionNestOverflow), ..saved }
        } else {
            CoreView {
                kmode: true,
                pc: handler,
                ..saved.set_creg(CR_PSR as int, (self.psr() + 1) as u32)
            }
        }
    }

    /// The state after a bus fault: the core stops.
    pub open spec fn bus_fault(self, e: BusError) -> CoreView {
        CoreView { halted: true, fault: Some(Fault::Bus(e)), ..self }
    }

    /// TLB fault information: the VPN with the PID above it.
    pub open spec fn fault_info(self, vaddr: u32) -> u32 {
        (vaddr >> 12u32) | (self.cregs[CR_PID as int] << 20u32)
    }

    /// Translation of `vaddr` for an access of kind `op`: identity for
    /// physical addresses in kernel mode, else through the TLB.
    pub open spec fn translate(self, vaddr: u32, op: u32) -> Option<u32> {
        if self.kmode && vaddr <= PHYSMEM_MAX {
            Some(vaddr)
        } else {
            match translate(self.tlb_private, self.tlb_global, self.cregs[CR_PID as int], vaddr >> 12u32, op, self.kmode) {
                Some(p) => Some(p | (vaddr & 0xFFF)),
                None => None,
            }
        }
    }
}

/// The address an access of `size` bytes (1, 2 or 4) really uses: the
/// low bits are cleared to align it.
pub open spec fn aligned(addr: u32, size: u32) -> u32 {
    if size == 4 {
        addr & 0xFFFF_FFFC
    } else if size == 2 {
        addr & 0xFFFF_FFFE
    } else {
        addr
    }
}

/// The `size` consecutive byte addresses from `a`.
pub open spec fn span(a: u32, size: u32) -> Seq<u32> {
    Seq::new(size as nat, |i: int| (a + i) as u32)
}

/// The `size` low bytes of `v`, least significant first.
pub open spec fn value_bytes(v: u32, size: u32) -> Seq<u8> {
    Seq::new(size as nat, |i: int| crate::memory::byte_of(v, i as u32))
}

/// Little-endian value of up to four bytes.
pub open spec fn compose(b: Seq<u8>) -> u32 {
    if b.len() == 1 {
        b[0] as u32
    } else if b.len() == 2 {
        crate::memory::le16(b[0], b[1]) as u32
    } else {
        crate::memory::le32(b[0], b[1], b[2], b[3])
    }
}

impl CoreView {
    /// Whether every byte address in `vas` translates for access `op`.
    pub open spec fn all_translate(self, vas: Seq<u32>, op: u32) -> bool {
        forall|i: int| 0 <= i < vas.len() ==> (#[trigger] self.translate(vas[i], op)) is Some
    }

    /// The physical addresses of `vas` for access `op`.
    pub open spec fn physical(self, vas: Seq<u32>, op: u32) -> Seq<u32> {
        Seq::new(vas.len(), |i: int| self.translate(vas[i], op)->Some_0)
    }

    pub open spec fn with_hit(self, hit: Option<WatchpointHit>) -> CoreView {
        CoreView { hit, ..self }
    }

    /// The latched watchpoint hit after byte accesses: the first one stays.
    pub open spec fn latch(self, vas: Seq<u32>, bytes: Seq<u8>, access: WatchAccess) -> CoreView {
        if self.hit is Some {
            self
        } else {
            self.with_hit(first_hit(self.watchpoints, vas, bytes, access))
        }
    }

    /// The state after a TLB miss at `vaddr`, given the memory it reads its
    /// handler from.
    pub open spec fn tlb_miss(self, vaddr: u32, m: Memory) -> CoreView {
        let vector = if self.kmode { VEC_TLB_KMISS } else { VEC_TLB_UMISS };
        self.set_creg(CR_TLB as int, self.fault_info(vaddr)).enter(self.pc, m.word((vector * 4) as u32))
    }
}

/// Register field A of an instruction.
pub open spec fn field_a(instr: u32) -> u32 {
    (instr >> 22u32) & 0x1F
}

/// Register field B of an instruction.
pub open spec fn field_b(instr: u32) -> u32 {
    (instr >> 17u32) & 0x1F
}

/// Sign extension of the low `bits` bits of `v`.
pub open spec fn sext(v: u32, bits: u32) -> u32 {
    if bits == 12 {
        if v & 0x800 != 0 { v | 0xFFFF_F000 } else { v }
    } else if bits == 16 {
        if v & 0x8000 != 0 { v | 0xFFFF_0000 } else { v }
    } else if bits == 21 {
        if v & 0x10_0000 != 0 { v | 0xFFE0_0000 } else { v }
    } else {
        if v & 0x20_0000 != 0 { v | 0xFFC0_0000 } else { v }
    }
}

impl CoreView {
    /// The illegal-instruction exception.
    pub open spec fn illegal(self, m: Memory) -> CoreView {
        self.enter(self.pc, m.word((VEC_ILLEGAL * 4) as u32))
    }

    /// An ALU instruction, register form (`imm` false) or immediate form.
    /// Subtraction in immediate form computes immediate minus register.
    pub open spec fn alu_step(self, m: Memory, instr: u32, imm: bool) -> CoreView {
        let op = if imm { (instr >> 12u32) & 0x1F } else { (instr >> 5u32) & 0x1F };
        let b = self.reg(field_b(instr));
        let c = if imm { alu_imm_spec(op, instr & 0xFFF) } else { Some(self.reg(instr & 0x1F)) };
        let cin = self.cregs[CR_FLG as int] & 1 != 0;
        match c {
            None => self.illegal(m),
            Some(c) => {
                let (lhs, rhs) = if imm && (op == 16 || op == 17) { (c, b) } else { (b, c) };
                match alu_spec(op, lhs, rhs, cin) {
                    None => self.illegal(m),
                    Some((res, carry)) => self.set_creg(
                        CR_FLG as int,
                        flags_spec(self.cregs[CR_FLG as int], op, res, lhs, rhs, carry),
                    ).set_reg(field_a(instr), res).advance(),
                }
            },
        }
    }

    /// LUI: the 22-bit immediate shifted left by 10 into register A.
    pub open spec fn lui_step(self, instr: u32) -> CoreView {
        self.set_reg(field_a(instr), (instr & 0x3F_FFFF) << 10u32).advance()
    }

    /// Branch with a 22-bit PC-relative immediate.
    pub open spec fn branch_imm_step(self, m: Memory, instr: u32) -> CoreView {
        match condition_spec((instr >> 22u32) & 0x1F, self.cregs[CR_FLG as int]) {
            None => self.illegal(m),
            Some(true) => self.with_pc(wrap_add(self.pc, wrap_add(4, sext(instr & 0x3F_FFFF, 22)))),
            Some(false) => self.advance(),
        }
    }

    /// Branch to register B (absolute) or to PC + 4 + register B
    /// (relative), saving the return address in register A when taken.
    pub open spec fn branch_reg_step(self, m: Memory, instr: u32, relative: bool) -> CoreView {
        let target = self.reg(instr & 0x1F);
        match condition_spec((instr >> 22u32) & 0x1F, self.cregs[CR_FLG as int]) {
            None => self.illegal(m),
            Some(true) => self.set_reg((instr >> 5u32) & 0x1F, wrap_add(self.pc, 4)).with_pc(
                if relative { wrap_add(self.pc, wrap_add(4, target)) } else { target },
            ),
            Some(false) => self.advance(),
        }
    }

    /// System call: number 1 (EXIT) enters its vector returning after the
    /// call; any other number is illegal.
    pub open spec fn syscall_step(self, m: Memory, instr: u32) -> CoreView {
        if instr & 0xFF == 1 {
            self.enter(wrap_add(self.pc, 4), m.word((VEC_EXIT * 4) as u32))
        } else {
            self.illegal(m)
        }
    }
}

/// Access size in bytes of a memory instruction's size code (0 byte, 1
/// halfword, 2 word).
pub open spec fn size_bytes(size: u32) -> u32 {
    if size == 0 { 1 } else if size == 1 { 2 } else { 4 }
}

/// The end of a successful memory instruction: the optional register
/// increment, then the PC step.
pub open spec fn finish_step(w: CoreView, incr: Option<(u32, u32)>) -> CoreView {
    match incr {
        Some((rb, val)) => w.set_reg(rb, val).advance(),
        None => w.advance(),
    }
}

/// The effect of a load of `n` bytes at virtual address `addr` into
/// register `ra`, from state `v` and memory `m0` to `next` and `m1`; on
/// success `incr` and the PC step follow.
pub open spec fn load_effect(
    v: CoreView,
    m0: Memory,
    m1: Memory,
    next: CoreView,
    addr: u32,
    n: u32,
    ra: u32,
    incr: Option<(u32, u32)>,
) -> bool {
    let vas = span(aligned(addr, n), n);
    let pas = v.physical(vas, 0);
    if !v.all_translate(vas, 0) {
        m1.unchanged(&m0) && next == v.tlb_miss(addr, m0)
    } else if crate::memory::first_error(pas, false) is Some {
        m1.unchanged(&m0) && next == v.bus_fault(crate::memory::first_error(pas, false)->Some_0)
    } else {
        &&& m1.same_but_input(&m0)
        &&& exists|bytes: Seq<u8>| {
            &&& bytes.len() == n
            &&& crate::memory::read_chain(m0, m1, pas, bytes)
            &&& next == finish_step(v.latch(vas, bytes, WatchAccess::Read).set_reg(ra, compose(bytes)), incr)
            &&& (forall|i: int| 0 <= i < n ==> !crate::memory::is_input_port(#[trigger] pas[i]))
                ==> m1.input() == m0.input() && bytes == Seq::new(n as nat, |i: int| m0.peek(pas[i]))
        }
    }
}

/// The effect of a store of the `n` low bytes of register `ra` at virtual
/// address `addr`; on success `incr` and the PC step follow.
pub open spec fn store_effect(
    v: CoreView,
    m0: Memory,
    m1: Memory,
    next: CoreView,
    addr: u32,
    n: u32,
    ra: u32,
    incr: Option<(u32, u32)>,
) -> bool {
    let vas = span(aligned(addr, n), n);
    let pas = v.physical(vas, 1);
    let data = value_bytes(v.reg(ra), n);
    if !v.all_translate(vas, 1) {
        m1.unchanged(&m0) && next == v.tlb_miss(addr, m0)
    } else if crate::memory::first_error(pas, true) is Some {
        m1.unchanged(&m0) && next == v.bus_fault(crate::memory::first_error(pas, true)->Some_0)
    } else {
        &&& next == finish_step(v.latch(vas, data, WatchAccess::Write), incr)
        &&& crate::memory::write_chain(m0, m1, pas, data)
        &&& (forall|i: int| 0 <= i < n ==> crate::memory::is_storage(#[trigger] pas[i])) ==> {
            &&& m1.input() == m0.input()
            &&& m1.output() == m0.output()
            &&& m1.pending() == m0.pending()
            &&& forall|x: u32| #[trigger] m1.peek(x) == crate::memory::written_value(m0.peek(x), pas, data, x)
        }
    }
}

/// The effect of a memory instruction of size code `size` at `addr`: a
/// load into, or a store from, register `ra`.
#[verifier::opaque]
pub open spec fn mem_effect(
    v: CoreView,
    m0: Memory,
    m1: Memory,
    next: CoreView,
    addr: u32,
    size: u32,
    is_load: bool,
    ra: u32,
    incr: Option<(u32, u32)>,
) -> bool {
    if is_load {
        load_effect(v, m0, m1, next, addr, size_bytes(size), ra, incr)
    } else {
        store_effect(v, m0, m1, next, addr, size_bytes(size), ra, incr)
    }
}

/// Effective address and increment of the absolute addressing mode:
/// register B plus the scaled 12-bit immediate, register B alone for
/// post-increment (y = 2); pre- and post-increment (y = 1, 2) write
/// register B plus the immediate back.
pub open spec fn absolute_mode(v: CoreView, instr: u32) -> (u32, Option<(u32, u32)>) {
    let y = (instr >> 14u32) & 3;
    let z = (instr >> 12u32) & 3;
    let imm = sext(instr & 0xFFF, 12) << z;
    let base = v.reg(field_b(instr));
    let addr = if y == 2 { base } else { wrap_add(base, imm) };
    (addr, if y == 1 || y == 2 { Some((field_b(instr), wrap_add(base, imm))) } else { None })
}

/// Effective address of the PC-relative mode: register B plus the 16-bit
/// immediate plus PC + 4.
pub open spec fn relative_addr(v: CoreView, instr: u32) -> u32 {
    wrap_add(wrap_add(wrap_add(v.reg(field_b(instr)), sext(instr & 0xFFFF, 16)), v.pc), 4)
}

/// Effective address of the immediate mode: the 21-bit immediate plus PC + 4.
pub open spec fn imm_addr(v: CoreView, instr: u32) -> u32 {
    wrap_add(wrap_add(sext(instr & 0x1F_FFFF, 21), v.pc), 4)
}

/// The raw payload for (pid, vpn) that `tlbr` reads: the private entry,
/// else the global one, else zero.
pub open spec fn tlb_read_value(private: Map<(u32, u32), u32>, global: Map<u32, u32>, pid: u32, vpn: u32) -> u32 {
    if private.contains_key((pid, vpn)) {
        private[(pid, vpn)]
    } else if global.contains_key(vpn) {
        global[vpn]
    } else {
        0
    }
}

impl CoreView {
    /// The state after a kernel instruction in user mode.
    pub open spec fn privileged(self, m: Memory) -> CoreView {
        self.enter(self.pc, m.word((VEC_PRIVILEGED * 4) as u32))
    }

    /// Same state but for the TLB.
    pub open spec fn same_but_tlb(self, other: CoreView) -> bool {
        CoreView { tlb_private: other.tlb_private, tlb_global: other.tlb_global, tlb_sizes: other.tlb_sizes, ..self } == other
    }

    /// TLB instruction: tlbr (0), tlbw (1), tlbi (2), tlbc (3) on the
    /// page of register B under the current PID.
    pub open spec fn tlb_step(self, next: CoreView, instr: u32) -> bool {
        let op = (instr >> 10u32) & 3;
        let ra = field_a(instr);
        let pid = self.cregs[CR_PID as int];
        let vpn = self.reg(field_b(instr)) >> 12u32;
        let cap = TLB_CAPACITY as nat;
        if op == 0 {
            next == self.set_reg(ra, tlb_read_value(self.tlb_private, self.tlb_global, pid, vpn)).advance()
        } else {
            &&& self.advance().same_but_tlb(next)
            &&& next.tlb_sizes.0 <= cap && next.tlb_sizes.1 <= cap
            &&& if op == 1 {
                let payload = self.reg(ra) & 0x7FF_FFFF;
                if payload & TLB_G != 0 {
                    &&& next.tlb_private == self.tlb_private
                    &&& inserted_with_eviction(self.tlb_global, next.tlb_global, vpn, payload, self.tlb_sizes.1 == cap)
                } else {
                    &&& next.tlb_global == self.tlb_global
                    &&& inserted_with_eviction(self.tlb_private, next.tlb_private, (pid, vpn), payload, self.tlb_sizes.0 == cap)
                }
            } else if op == 2 {
                &&& next.tlb_private == self.tlb_private.remove((pid, vpn))
                &&& next.tlb_global == self.tlb_global.remove(vpn)
            } else {
                &&& next.tlb_private == Map::<(u32, u32), u32>::empty()
                &&& next.tlb_global == Map::<u32, u32>::empty()
                &&& next.tlb_sizes == (0nat, 0nat)
            }
        }
    }

    /// Control register moves, which ignore the r31 alias: cr <- r (0),
    /// r <- cr (1), cr <- cr (2), r <- r (3). CID cannot be written; a
    /// control register number beyond the last is illegal.
    pub open spec fn crmv_step(self, m: Memory, instr: u32) -> CoreView {
        let op = (instr >> 10u32) & 3;
        let ra = field_a(instr);
        let rb = field_b(instr);
        let src = if op == 0 || op == 3 { self.regs[rb as int] } else { self.cregs[rb as int] };
        if (op == 0 || op == 2) && ra >= NUM_CREGS || (op == 1 || op == 2) && rb >= NUM_CREGS {
            self.illegal(m)
        } else if op == 0 || op == 2 {
            if ra == CR_CID { self.advance() } else { self.set_creg(ra as int, src).advance() }
        } else if ra == 0 {
            self.advance()
        } else {
            CoreView { regs: self.regs.update(ra as int, src), ..self }.advance()
        }
    }

    /// mode run (0) steps on, mode sleep (1) sleeps at this instruction,
    /// mode halt (2, 3) stops the core.
    pub open spec fn mode_step(self, instr: u32) -> CoreView {
        let op = (instr >> 10u32) & 3;
        if op == 0 {
            self.advance()
        } else if op == 1 {
            CoreView { asleep: true, ..self }
        } else {
            CoreView { halted: true, ..self }
        }
    }

    /// Return from exception: one nesting level less (never below zero),
    /// user mode at level zero, PC from EPC; `rfi` (bit 11) also enables
    /// interrupts.
    pub open spec fn rfe_step(self, instr: u32) -> CoreView {
        let psr = if self.psr() > 0 { (self.psr() - 1) as u32 } else { 0u32 };
        let imr = if (instr >> 11u32) & 1 == 1 {
            self.cregs[CR_IMR as int] | IMR_ENABLE
        } else {
            self.cregs[CR_IMR as int]
        };
        CoreView {
            kmode: if psr == 0 { false } else { self.kmode },
            pc: self.cregs[CR_EPC as int],
            ..self.set_creg(CR_PSR as int, psr).set_creg(CR_IMR as int, imr)
        }
    }
}

/// The effect of an atomic instruction on the word at `addr`: register `ra`
/// receives the old word, which is replaced by register `ra` (`swap`) or by
/// their wrapping sum (fetch-and-add).
#[verifier::opaque]
pub open spec fn atomic_effect(
    v: CoreView,
    m0: Memory,
    m1: Memory,
    next: CoreView,
    addr: u32,
    ra: u32,
    swap: bool,
) -> bool {
    let vas = span(aligned(addr, 4), 4);
    let pr = v.physical(vas, 0);
    let pw = v.physical(vas, 1);
    if !v.all_translate(vas, 0) || !v.all_translate(vas, 1) {
        m1.unchanged(&m0) && next == v.tlb_miss(addr, m0)
    } else if crate::memory::first_error(pr, false) is Some {
        m1.unchanged(&m0) && next == v.bus_fault(crate::memory::first_error(pr, false)->Some_0)
    } else if crate::memory::first_error(pw, true) is Some {
        m1.same_but_input(&m0) && next == v.bus_fault(crate::memory::first_error(pw, true)->Some_0)
    } else {
        exists|old_bytes: Seq<u8>| {
            let old = #[trigger] compose(old_bytes);
            let new = if swap { v.reg(ra) } else { wrap_add(old, v.reg(ra)) };
            &&& old_bytes.len() == 4
            &&& exists|mid: Memory| #[trigger] crate::memory::read_chain(m0, mid, pr, old_bytes)
                && crate::memory::write_chain(mid, m1, pw, value_bytes(new, 4))
            &&& next == v.latch(vas, old_bytes, WatchAccess::Read).latch(vas, value_bytes(new, 4), WatchAccess::Write)
                .set_reg(ra, old).advance()
            &&& (forall|i: int| 0 <= i < 4 ==> !crate::memory::is_input_port(#[trigger] pr[i]))
                ==> old_bytes == Seq::new(4, |i: int| m0.peek(pr[i]))
            &&& (forall|i: int| 0 <= i < 4 ==> !crate::memory::is_input_port(#[trigger] pr[i])
                && crate::memory::is_storage(pw[i])) ==> {
                &&& m1.input() == m0.input()
                &&& m1.output() == m0.output()
                &&& m1.pending() == m0.pending()
                &&& forall|x: u32| #[trigger] m1.peek(x) == crate::memory::written_value(m0.peek(x), pw, value_bytes(new, 4), x)
            }
        }
    }
}

/// The effect of an IPI instruction on the core and the controller.
pub open spec fn ipi_effect(v: CoreView, ic0: InterruptController, ic1: InterruptController, next: CoreView, instr: u32) -> bool {
    let me = v.cregs[CR_CID as int] as usize;
    let payload = v.cregs[CR_MBO as int];
    let target = (instr & 3) as usize;
    let ok = target < ic0.cores();
    &&& ic1.cores() == ic0.cores()
    &&& if (instr >> 11u32) & 1 == 1 {
        &&& next == v.set_reg(field_a(instr), broadcast_mask(ic0.cores() as u32, me)).advance()
        &&& forall|c: int| 0 <= c < ic0.cores() ==> #[trigger] ic1.payload_view()[c] == if c == me { ic0.payload_view()[c] } else { payload }
        &&& forall|c: int| 0 <= c < ic0.cores() ==> #[trigger] ic1.pending_view()[c] == if c == me {
            ic0.pending_view()[c]
        } else {
            ic0.pending_view()[c] | crate::memory::IPI_INTERRUPT_BIT
        }
    } else {
        &&& next == v.set_reg(field_a(instr), if ok { 1 } else { 0 }).advance()
        &&& ic1.payload_view() == if ok { ic0.payload_view().update(target as int, payload) } else { ic0.payload_view() }
        &&& ic1.pending_view() == if ok {
            ic0.pending_view().update(target as int, ic0.pending_view()[target as int] | crate::memory::IPI_INTERRUPT_BIT)
        } else {
            ic0.pending_view()
        }
    }
}

/// The effect of a kernel instruction (opcode 31): privileged in user
/// mode; else TLB (0), crmv (1), mode (2), rfe (3) or IPI (4) by bits
/// 12 to 16, anything else illegal.
pub open spec fn kernel_effect(
    v: CoreView,
    m0: Memory,
    m1: Memory,
    ic0: InterruptController,
    ic1: InterruptController,
    next: CoreView,
    instr: u32,
) -> bool {
    let op = (instr >> 12u32) & 0x1F;
    &&& m1.unchanged(&m0)
    &&& if !v.kmode {
        ic1 == ic0 && next == v.privileged(m0)
    } else if op == 0 {
        ic1 == ic0 && v.tlb_step(next, instr)
    } else if op == 1 {
        let sub = (instr >> 10u32) & 3;
        let writes_isr = field_a(instr) == CR_ISR && (sub == 0 || (sub == 2 && field_b(instr) < NUM_CREGS));
        let cleared = v.cregs[CR_ISR as int] & !next.cregs[CR_ISR as int];
        let core = v.cregs[CR_CID as int] as usize;
        &&& next == v.crmv_step(m0, instr)
        &&& ic1.cores() == ic0.cores()
        &&& ic1.pending_view() == ic0.pending_view()
        &&& ic1.payload_view() == ic0.payload_view()
        &&& ic1.kb_holder() == if writes_isr && cleared & crate::memory::KB_INTERRUPT_BIT != 0 && ic0.kb_holder() == Some(core) {
            None
        } else {
            ic0.kb_holder()
        }
        &&& ic1.uart_holder() == if writes_isr && cleared & crate::memory::UART_INTERRUPT_BIT != 0 && ic0.uart_holder() == Some(core) {
            None
        } else {
            ic0.uart_holder()
        }
    } else if op == 2 {
        ic1 == ic0 && next == v.mode_step(instr)
    } else if op == 3 {
        ic1 == ic0 && next == v.rfe_step(instr)
    } else if op == 4 {
        ipi_effect(v, ic0, ic1, next, instr)
    } else {
        ic1 == ic0 && next == v.illegal(m0)
    }
}

/// The effect of executing `instr`, by its opcode (top five bits).
#[verifier::opaque]
pub open spec fn exec_effect(
    v: CoreView,
    m0: Memory,
    m1: Memory,
    ic0: InterruptController,
    ic1: InterruptController,
    next: CoreView,
    instr: u32,
) -> bool {
    let opcode = instr >> 27u32;
    let ra = field_a(instr);
    if opcode == 31 {
        kernel_effect(v, m0, m1, ic0, ic1, next, instr)
    } else {
        &&& ic1 == ic0
        &&& if opcode <= 1 {
            m1.unchanged(&m0) && next == v.alu_step(m0, instr, opcode == 1)
        } else if opcode == 2 {
            m1.unchanged(&m0) && next == v.lui_step(instr)
        } else if opcode <= 11 {
            let size = (2 - (opcode - 3) / 3) as u32;
            let form = (opcode - 3) % 3;
            if form == 0 {
                mem_effect(v, m0, m1, next, absolute_mode(v, instr).0, size, (instr >> 16u32) & 1 != 0, ra,
                    absolute_mode(v, instr).1)
            } else if form == 1 {
                mem_effect(v, m0, m1, next, relative_addr(v, instr), size, (instr >> 16u32) & 1 != 0, ra, None)
            } else {
                mem_effect(v, m0, m1, next, imm_addr(v, instr), size, (instr >> 21u32) & 1 != 0, ra, None)
            }
        } else if opcode == 12 {
            m1.unchanged(&m0) && next == v.branch_imm_step(m0, instr)
        } else if opcode <= 14 {
            m1.unchanged(&m0) && next == v.branch_reg_step(m0, instr, opcode == 14)
        } else if opcode == 15 {
            m1.unchanged(&m0) && next == v.syscall_step(m0, instr)
        } else if opcode <= 21 {
            let form = (opcode - 16) % 3;
            let addr = if form == 0 { absolute_mode(v, instr).0 } else if form == 1 { relative_addr(v, instr) } else { imm_addr(v, instr) };
            atomic_effect(v, m0, m1, next, addr, ra, opcode >= 19)
        } else {
            m1.unchanged(&m0) && next == v.illegal(m0)
        }
    }
}

/// The highest set bit of `x` at or below bit `k`, zero when none is.
pub open spec fn highest_from(x: u32, k: u32) -> u32
    decreases k,
{
    if k == 0 {
        0
    } else if x & (1u32 << k) != 0 {
        k
    } else {
        highest_from(x, (k - 1) as u32)
    }
}

impl CoreView {
    /// Interrupt polling: the bits `taken` from the controller join ISR
    /// (an IPI among them brings `payload` into MBI); then the timer counts
    /// down, and at zero reloads from the PIT value `reload` and raises the
    /// timer bit if that value is not zero.
    pub open spec fn polled(self, taken: u32, payload: u32, reload: u32) -> CoreView {
        let mbi = if taken & crate::memory::IPI_INTERRUPT_BIT != 0 { payload } else { self.cregs[CR_MBI as int] };
        let isr = self.cregs[CR_ISR as int] | taken;
        let w = self.set_creg(CR_MBI as int, mbi).set_creg(CR_ISR as int, isr);
        if self.timer == 0 {
            if reload != 0 {
                CoreView { timer: reload, ..w.set_creg(CR_ISR as int, isr | crate::memory::TIMER_INTERRUPT_BIT) }
            } else {
                w
            }
        } else {
            CoreView { timer: (self.timer - 1) as u32, ..w }
        }
    }

    /// The bits of ISR that IMR lets through (bits 0 to 15).
    pub open spec fn active_interrupts(self) -> u32 {
        self.cregs[CR_IMR as int] & self.cregs[CR_ISR as int] & 0xFFFF
    }

    /// Interrupt dispatch: with interrupts enabled and an active bit, a
    /// sleeping core wakes past its sleep instruction, and the core enters
    /// the handler of the highest active bit.
    pub open spec fn interrupt_step(self, m: Memory) -> CoreView {
        let active = self.active_interrupts();
        if self.cregs[CR_IMR as int] & IMR_ENABLE != 0 && active != 0 {
            let w = if self.asleep { CoreView { pc: wrap_add(self.pc, 4), asleep: false, ..self } } else { self };
            w.enter(w.pc, m.word(((VEC_INTERRUPT_BASE + highest_from(active, 15)) * 4) as u32))
        } else {
            self
        }
    }
}

/// What one step of a core did.
#[derive(Clone, Copy, Debug, PartialEq, Eq, Structural)]
pub enum StepOutcome {
    Executed { pc: u32, instr: u32 },
    Sleeping,
    TlbMiss { pc: u32 },
    Idle,
}

/// The fetch-execute part of a tick from state `v` with memory `m0` and
/// controller `ic0`: nothing while halted or held back (`run` false), nothing
/// while asleep; else the instruction at PC is fetched (a miss raises the
/// TLB-miss exception, a bus error stops the core) and executed.
pub open spec fn step_effect(
    v: CoreView,
    m0: Memory,
    m1: Memory,
    ic0: InterruptController,
    ic1: InterruptController,
    next: CoreView,
    run: bool,
    r: StepOutcome,
) -> bool {
    let vas = span(aligned(v.pc, 4), 4);
    let pas = v.physical(vas, 2);
    if v.halted || !run {
        r == StepOutcome::Idle && next == v && m1.unchanged(&m0) && ic1 == ic0
    } else if v.asleep {
        r == StepOutcome::Sleeping && next == v && m1.unchanged(&m0) && ic1 == ic0
    } else if !v.all_translate(vas, 2) {
        r == (StepOutcome::TlbMiss { pc: v.pc }) && next == v.tlb_miss(v.pc, m0) && m1.unchanged(&m0) && ic1 == ic0
    } else if crate::memory::first_error(pas, false) is Some {
        &&& r == StepOutcome::Idle
        &&& next == v.bus_fault(crate::memory::first_error(pas, false)->Some_0)
        &&& m1.unchanged(&m0)
        &&& ic1 == ic0
    } else {
        match r {
            StepOutcome::Executed { pc, instr } => {
                &&& pc == v.pc
                &&& exists|m: Memory, b: Seq<u8>| #[trigger] crate::memory::read_chain(m0, m, pas, b) && b.len() == 4
                    && instr == compose(b) && exec_effect(v, m, m1, ic0, ic1, next, instr)
            },
            _ => false,
        }
    }
}

/// A core after reset with core number `id`: kernel mode at nesting level
/// one, PC at the reset address, every register zero but PSR, CID and (on
/// cores other than 0, which sleep) IMR with the IPI interrupt enabled, an
/// empty TLB, no watchpoints.
pub open spec fn reset_view(id: u32) -> CoreView {
    CoreView {
        regs: Seq::new(32, |i: int| 0u32),
        cregs: Seq::new(NUM_CREGS as nat, |i: int| 0u32).update(CR_PSR as int, 1).update(CR_CID as int, id).update(
            CR_IMR as int,
            if id == 0 { 0 } else { IMR_ENABLE | crate::memory::IPI_INTERRUPT_BIT },
        ),
        pc: RESET_PC,
        kmode: true,
        asleep: id != 0,
        halted: false,
        timer: 0,
        count: 0,
        fault: None,
        tlb_private: Map::empty(),
        tlb_global: Map::empty(),
        tlb_sizes: (0, 0),
        watchpoints: Seq::empty(),
        hit: None,
    }
}

pub struct Core {
    kmode: bool,
    regfile: Vec<u32>,
    cregfile: Vec<u32>,
    tlb: RandomCache,
    pc: u32,
    asleep: bool,
    halted: bool,
    timer: u32,
    count: u32,
    fault: Option<Fault>,
    watchpoints: Vec<Watchpoint>,
    watchpoint_hit: Option<WatchpointHit>,
}

impl Core {
    pub closed spec fn view(&self) -> CoreView {
        CoreView {
            regs: self.regfile@,
            cregs: self.cregfile@,
            pc: self.pc,
            kmode: self.kmode,
            asleep: self.asleep,
            halted: self.halted,
            timer: self.timer,
            count: self.count,
            fault: self.fault,
            tlb_private: self.tlb.private_view(),
            tlb_global: self.tlb.global_view(),
            tlb_sizes: (self.tlb.private_size(), self.tlb.global_size()),
            watchpoints: self.watchpoints@,
            hit: self.watchpoint_hit,
        }
    }

    /// Entries each TLB table can hold.
    pub closed spec fn tlb_capacity(&self) -> nat {
        self.tlb.capacity()
    }

    /// The shape every well-formed core has.
    pub proof fn lemma_shape(&self)
        requires
            self.wf(),
        ensures
            self.view().regs.len() == 32,
            self.view().cregs.len() == NUM_CREGS,
            self.view().regs[0] == 0,
            self.tlb_capacity() == TLB_CAPACITY,
            self.view().tlb_sizes.0 <= TLB_CAPACITY,
            self.view().tlb_sizes.1 <= TLB_CAPACITY,
            self.view().fault is Some ==> self.view().halted,
    {
        crate::tlb::lemma_tlb_capacity(&self.tlb);
    }

    pub closed spec fn wf(&self) -> bool {
        &&& self.regfile@.len() == 32
        &&& self.cregfile@.len() == NUM_CREGS
        &&& self.regfile@[0] == 0
        &&& self.tlb.wf()
        &&& self.tlb.capacity() == TLB_CAPACITY
        &&& (self.fault is Some ==> self.halted)
    }

    /// A core after reset with core number `id`: kernel mode at nesting
    /// level one, PC at the reset address. Core 0 runs; the others sleep
    /// with inter-processor interrupts enabled.
    pub fn new(id: u32) -> (r: Core)
        ensures
            r.wf(),
            r.view() == reset_view(id),
            r.tlb_capacity() == TLB_CAPACITY,
    {
        let mut cregfile = vec![0u32; NUM_CREGS];
        cregfile.set(CR_PSR, 1);
        cregfile.set(CR_CID, id);
        cregfile.set(CR_IMR, if id == 0 { 0 } else { IMR_ENABLE | crate::memory::IPI_INTERRUPT_BIT });
        let r = Core {
            kmode: true,
            regfile: vec![0u32; 32],
            cregfile,
            tlb: RandomCache::new(TLB_CAPACITY),
            pc: RESET_PC,
            asleep: id != 0,
            halted: false,
            timer: 0,
            count: 0,
            fault: None,
            watchpoints: Vec::new(),
            watchpoint_hit: None,
        };
        assert(r.view().regs =~= Seq::new(32, |i: int| 0u32));
        assert(r.view().cregs =~= Seq::new(NUM_CREGS as nat, |i: int| 0u32).update(CR_PSR as int, 1).update(
            CR_CID as int,
            id,
        ).update(CR_IMR as int, if id == 0 { 0 } else { IMR_ENABLE | crate::memory::IPI_INTERRUPT_BIT }));
        r
    }

    /// Register `regnum` as instructions see it.
    pub fn get_reg(&self, regnum: u32) -> (r: u32)
        requires
            self.wf(),
            regnum < 32,
        ensures
            r == self.view().reg(regnum),
    {
        if self.kmode && regnum == 31 {
            self.cregfile[CR_KSP]
        } else {
            self.regfile[regnum as usize]
        }
    }

    /// General register `regnum` itself, without the r31 alias.
    pub fn get_reg_raw(&self, regnum: u32) -> (r: u32)
        requires
            self.wf(),
            regnum < 32,
        ensures
            r == self.view().regs[regnum as int],
    {
        self.regfile[regnum as usize]
    }

    /// Writes register `regnum` as instructions do.
    pub fn write_reg(&mut self, regnum: u32, value: u32)
        requires
            old(self).wf(),
            regnum < 32,
        ensures
            final(self).wf(),
            final(self).view() == old(self).view().set_reg(regnum, value),
    {
        if self.kmode && regnum == 31 {
            self.cregfile.set(CR_KSP, value);
        } else if regnum != 0 {
            self.regfile.set(regnum as usize, value);
        }
    }

    /// Control register `c`.
    pub fn read_creg(&self, c: usize) -> (r: u32)
        requires
            self.wf(),
            c < NUM_CREGS,
        ensures
            r == self.view().cregs[c as int],
    {
        self.cregfile[c]
    }

    /// Sets control register `c`.
    pub fn write_creg(&mut self, c: usize, value: u32)
        requires
            old(self).wf(),
            c < NUM_CREGS,
        ensures
            final(self).wf(),
            final(self).view() == old(self).view().set_creg(c as int, value),
    {
        self.cregfile.set(c, value);
    }

    pub fn pc(&self) -> (r: u32)
        ensures
            r == self.view().pc,
    {
        self.pc
    }

    pub fn set_pc(&mut self, pc: u32)
        requires
            old(self).wf(),
        ensures
            final(self).wf(),
            final(self).view() == old(self).view().with_pc(pc),
    {
        self.pc = pc;
    }

    pub fn is_kmode(&self) -> (r: bool)
        ensures
            r == self.view().kmode,
    {
        self.kmode
    }

    pub fn is_asleep(&self) -> (r: bool)
        ensures
            r == self.view().asleep,
    {
        self.asleep
    }

    pub fn is_halted(&self) -> (r: bool)
        ensures
            r == self.view().halted,
    {
        self.halted
    }

    pub fn fault(&self) -> (r: Option<Fault>)
        ensures
            r == self.view().fault,
    {
        self.fault
    }

    /// Translates `vaddr` for an access of kind `op` (0 read, 1 write, 2 fetch).
    pub fn convert_mem_address(&self, vaddr: u32, op: u32) -> (r: Option<u32>)
        requires
            self.wf(),
            op <= 2,
        ensures
            r == self.view().translate(vaddr, op),
    {
        if self.kmode && vaddr <= PHYSMEM_MAX {
            Some(vaddr)
        } else {
            match self.tlb.access(self.cregfile[CR_PID], vaddr >> 12u32, op, self.kmode) {
                Some(p) => Some(p | (vaddr & 0xFFF)),
                None => None,
            }
        }
    }

    /// Enters an exception: saves `epc`, disables interrupts, counts one
    /// more nesting level and jumps to the handler whose address is the
    /// word at vector `vector`.
    fn raise(&mut self, mem: &mut Memory, vector: u32, epc: u32)
        requires
            old(self).wf(),
            old(mem).wf(),
            vector < 0x100,
        ensures
            final(self).wf(),
            final(mem).wf(),
            final(mem).unchanged(&*old(mem)),
            final(self).view() == old(self).view().enter(epc, old(mem).word((vector * 4) as u32)),
    {
        self.cregfile.set(CR_EPC, epc);
        let imr = self.cregfile[CR_IMR] & 0x7FFF_FFFF;
        self.cregfile.set(CR_IMR, imr);
        let psr = self.cregfile[CR_PSR];
        if psr == u32::MAX {
            proof {
                crate::memory::lemma_unchanged_refl(mem);
            }
            self.halted = true;
            self.fault = Some(Fault::ExceptionNestOverflow);
            return;
        }
        self.cregfile.set(CR_PSR, psr + 1);
        self.kmode = true;
        proof {
            assert(forall|i: int| 0 <= i < 4 ==> crate::memory::is_storage(#[trigger] crate::memory::word_addrs((vector * 4) as u32)[i]));
            crate::memory::lemma_storage_word_no_error((vector * 4) as u32);
        }
        let handler = mem.read32(vector * 4);
        proof {
            assert(forall|i: int| 0 <= i < 4 ==> crate::memory::is_storage(#[trigger] crate::memory::word_addrs((vector * 4) as u32)[i]));
            crate::memory::lemma_storage_word_no_error((vector * 4) as u32);
        }
        self.pc = match handler {
            Ok(w) => w,
            Err(_) => 0,
        };
        proof {
            crate::memory::lemma_unchanged(old(mem), mem);
            assert(self.view() == old(self).view().enter(epc, old(mem).word((vector * 4) as u32)));
        }
    }

    fn span_vec(a: u32, size: u32) -> (r: Vec<u32>)
        requires
            size == 1 || size == 2 || size == 4,
            a == aligned(a, size),
        ensures
            r@ == span(a, size),
    {
        assert(a & 0xFFFF_FFFC <= 0xFFFF_FFFC) by (bit_vector);
        assert(a & 0xFFFF_FFFE <= 0xFFFF_FFFE) by (bit_vector);
        let mut r: Vec<u32> = Vec::new();
        let mut i: u32 = 0;
        while i < size
            invariant
                i <= size,
                size == 1 || size == 2 || size == 4,
                a as int + size <= 0x1_0000_0000,
                r@ == span(a, size).take(i as int),
            decreases size - i,
        {
            r.push(a + i);
            i += 1;
            assert(r@ =~= span(a, size).take(i as int));
        }
        assert(span(a, size).take(size as int) =~= span(a, size));
        r
    }

    /// Translates every byte address of `vas`; `None` when one misses.
    fn translate_all(&self, vas: &Vec<u32>, op: u32) -> (r: Option<Vec<u32>>)
        requires
            self.wf(),
            op <= 2,
        ensures
            r is Some <==> self.view().all_translate(vas@, op),
            r matches Some(p) ==> p@ == self.view().physical(vas@, op),
    {
        let mut out: Vec<u32> = Vec::new();
        let mut i: usize = 0;
        while i < vas.len()
            invariant
                self.wf(),
                op <= 2,
                i <= vas@.len(),
                out@.len() == i,
                forall|k: int| 0 <= k < i ==> (#[trigger] self.view().translate(vas@[k], op)) is Some,
                forall|k: int| 0 <= k < i ==> #[trigger] out@[k] == self.view().translate(vas@[k], op)->Some_0,
            decreases vas@.len() - i,
        {
            match self.convert_mem_address(vas[i], op) {
                Some(p) => out.push(p),
                None => {
                    return None;
                },
            }
            i += 1;
        }
        assert(out@ =~= self.view().physical(vas@, op));
        Some(out)
    }

    fn latch_hit(&mut self, vas: &Vec<u32>, bytes: &Vec<u8>, access: WatchAccess)
        requires
            old(self).wf(),
            vas@.len() == bytes@.len(),
        ensures
            final(self).wf(),
            final(self).view() == old(self).view().latch(vas@, bytes@, access),
    {
        if self.watchpoint_hit.is_none() {
            self.watchpoint_hit = find_hit(&self.watchpoints, vas, bytes, access);
        }
    }

    /// Loads `size` bytes (1, 2 or 4) from the aligned virtual address of
    /// `vaddr` into register `ra`. A translation miss raises the TLB-miss
    /// exception, a bus error stops the core. Returns whether it loaded.
    fn load(&mut self, mem: &mut Memory, vaddr: u32, size: u32, ra: u32) -> (r: bool)
        requires
            old(self).wf(),
            old(mem).wf(),
            size == 1 || size == 2 || size == 4,
            ra < 32,
        ensures
            final(self).wf(),
            final(mem).wf(),
            ({
                let v = old(self).view();
                let vas = span(aligned(vaddr, size), size);
                if !v.all_translate(vas, 0) {
                    &&& !r
                    &&& final(mem).unchanged(&*old(mem))
                    &&& final(self).view() == v.tlb_miss(vaddr, *old(mem))
                } else if crate::memory::first_error(v.physical(vas, 0), false) is Some {
                    &&& !r
                    &&& final(mem).unchanged(&*old(mem))
                    &&& final(self).view() == v.bus_fault(crate::memory::first_error(v.physical(vas, 0), false)->Some_0)
                } else {
                    let pas = v.physical(vas, 0);
                    &&& r
                    &&& final(mem).same_but_input(&*old(mem))
                    &&& exists|bytes: Seq<u8>| {
                        &&& bytes.len() == size
                        &&& crate::memory::read_chain(*old(mem), *final(mem), pas, bytes)
                        &&& final(self).view() == v.latch(vas, bytes, WatchAccess::Read).set_reg(ra, compose(bytes))
                        &&& (forall|i: int| 0 <= i < size ==> !crate::memory::is_input_port(#[trigger] pas[i]))
                            ==> final(mem).input() == old(mem).input()
                                && bytes == Seq::new(size as nat, |i: int| old(mem).peek(pas[i]))
                    }
                }
            }),
    {
        let va = if size == 4 { vaddr & 0xFFFF_FFFC } else if size == 2 { vaddr & 0xFFFF_FFFE } else { vaddr };
        assert((vaddr & 0xFFFF_FFFC) & 0xFFFF_FFFC == vaddr & 0xFFFF_FFFC) by (bit_vector);
        assert((vaddr & 0xFFFF_FFFE) & 0xFFFF_FFFE == vaddr & 0xFFFF_FFFE) by (bit_vector);
        let vas = Self::span_vec(va, size);
        let pas = match self.translate_all(&vas, 0) {
            Some(p) => p,
            None => {
                let info = (vaddr >> 12u32) | (self.cregfile[CR_PID] << 20u32);
                self.cregfile.set(CR_TLB, info);
                let vector = if self.kmode { VEC_TLB_KMISS } else { VEC_TLB_UMISS };
                let epc = self.pc;
                self.raise(mem, vector, epc);
                return false;
            },
        };
        match mem.read_phys_bytes(&pas) {
            Err(e) => {
                proof {
                    crate::memory::lemma_unchanged_refl(mem);
                }
                self.halted = true;
                self.fault = Some(Fault::Bus(e));
                false
            },
            Ok(bytes) => {
                self.latch_hit(&vas, &bytes, WatchAccess::Read);
                let value: u32 = if size == 1 {
                    bytes[0] as u32
                } else if size == 2 {
                    (bytes[0] as u32) | ((bytes[1] as u32) << 8u32)
                } else {
                    (bytes[0] as u32) | ((bytes[1] as u32) << 8u32) | ((bytes[2] as u32) << 16u32) | ((bytes[3] as u32) << 24u32)
                };
                proof {
                    if size == 2 {
                        let b0 = bytes@[0];
                        let b1 = bytes@[1];
                        assert((b0 as u32) | ((b1 as u32) << 8u32) == (((b0 as u16) | ((b1 as u16) << 8u16)) as u32)) by (bit_vector);
                    }
                    if forall|i: int| 0 <= i < size ==> !crate::memory::is_input_port(#[trigger] pas@[i]) {
                        assert(bytes@ =~= Seq::new(size as nat, |i: int| old(mem).peek(pas@[i])));
                    }
                }
                self.write_reg(ra, value);
                true
            },
        }
    }

    fn bytes_of_value(value: u32, size: u32) -> (r: Vec<u8>)
        requires
            size <= 4,
        ensures
            r@ == value_bytes(value, size),
    {
        let mut r: Vec<u8> = Vec::new();
        let mut i: u32 = 0;
        while i < size
            invariant
                i <= size,
                size <= 4,
                r@ == value_bytes(value, size).take(i as int),
            decreases size - i,
        {
            r.push(((value >> (8 * i)) & 0xFF) as u8);
            i += 1;
            assert(r@ =~= value_bytes(value, size).take(i as int));
        }
        assert(value_bytes(value, size).take(size as int) =~= value_bytes(value, size));
        r
    }

    /// Stores the `size` low bytes (1, 2 or 4) of `value` at the aligned
    /// virtual address of `vaddr`. A translation miss raises the TLB-miss
    /// exception, a bus error stops the core. Returns whether it stored.
    fn store(&mut self, mem: &mut Memory, vaddr: u32, size: u32, value: u32) -> (r: bool)
        requires
            old(self).wf(),
            old(mem).wf(),
            size == 1 || size == 2 || size == 4,
        ensures
            final(self).wf(),
            final(mem).wf(),
            ({
                let v = old(self).view();
                let vas = span(aligned(vaddr, size), size);
                let data = value_bytes(value, size);
                if !v.all_translate(vas, 1) {
                    &&& !r
                    &&& final(mem).unchanged(&*old(mem))
                    &&& final(self).view() == v.tlb_miss(vaddr, *old(mem))
                } else if crate::memory::first_error(v.physical(vas, 1), true) is Some {
                    &&& !r
                    &&& final(mem).unchanged(&*old(mem))
                    &&& final(self).view() == v.bus_fault(crate::memory::first_error(v.physical(vas, 1), true)->Some_0)
                } else {
                    let pas = v.physical(vas, 1);
                    &&& r
                    &&& final(self).view() == v.latch(vas, data, WatchAccess::Write)
                    &&& crate::memory::write_chain(*old(mem), *final(mem), pas, data)
                    &&& (forall|i: int| 0 <= i < size ==> crate::memory::is_storage(#[trigger] pas[i])) ==> {
                        &&& final(mem).input() == old(mem).input()
                        &&& final(mem).output() == old(mem).output()
                        &&& final(mem).pending() == old(mem).pending()
                        &&& forall|x: u32| #[trigger] final(mem).peek(x) == crate::memory::written_value(old(mem).peek(x), pas, data, x)
                    }
                }
            }),
    {
        let va = if size == 4 { vaddr & 0xFFFF_FFFC } else if size == 2 { vaddr & 0xFFFF_FFFE } else { vaddr };
        assert((vaddr & 0xFFFF_FFFC) & 0xFFFF_FFFC == vaddr & 0xFFFF_FFFC) by (bit_vector);
        assert((vaddr & 0xFFFF_FFFE) & 0xFFFF_FFFE == vaddr & 0xFFFF_FFFE) by (bit_vector);
        let vas = Self::span_vec(va, size);
        let pas = match self.translate_all(&vas, 1) {
            Some(p) => p,
            None => {
                let info = (vaddr >> 12u32) | (self.cregfile[CR_PID] << 20u32);
                self.cregfile.set(CR_TLB, info);
                let vector = if self.kmode { VEC_TLB_KMISS } else { VEC_TLB_UMISS };
                let epc = self.pc;
                self.raise(mem, vector, epc);
                return false;
            },
        };
        let data = Self::bytes_of_value(value, size);
        match mem.write_phys_bytes(&pas, &data) {
            Err(e) => {
                proof {
                    crate::memory::lemma_unchanged_refl(mem);
                }
                self.halted = true;
                self.fault = Some(Fault::Bus(e));
                false
            },
            Ok(()) => {
                self.latch_hit(&vas, &data, WatchAccess::Write);
                true
            },
        }
    }

    fn raise_exc_instr(&mut self, mem: &mut Memory)
        requires
            old(self).wf(),
            old(mem).wf(),
        ensures
            final(self).wf(),
            final(mem).wf(),
            final(mem).unchanged(&*old(mem)),
            final(self).view() == old(self).view().illegal(*old(mem)),
    {
        let epc = self.pc;
        self.raise(mem, VEC_ILLEGAL, epc);
    }

    fn advance(&mut self)
        requires
            old(self).wf(),
        ensures
            final(self).wf(),
            final(self).view() == old(self).view().advance(),
    {
        self.pc = self.pc.wrapping_add(4);
    }

    fn alu_op(&mut self, mem: &mut Memory, instr: u32, imm: bool)
        requires
            old(self).wf(),
            old(mem).wf(),
        ensures
            final(self).wf(),
            final(mem).wf(),
            final(mem).unchanged(&*old(mem)),
            final(self).view() == old(self).view().alu_step(*old(mem), instr, imm),
    {
        let r_a = (instr >> 22u32) & 0x1F;
        let r_b = (instr >> 17u32) & 0x1F;
        let op = if imm { (instr >> 12u32) & 0x1F } else { (instr >> 5u32) & 0x1F };
        assert(r_a < 32 && r_b < 32 && (instr & 0x1F) < 32 && (instr & 0xFFF) < 0x1000) by (bit_vector)
            requires r_a == (instr >> 22u32) & 0x1F, r_b == (instr >> 17u32) & 0x1F;
        let b = self.get_reg(r_b);
        let c = if imm {
            decode_alu_imm(op, instr & 0xFFF)
        } else {
            Some(self.get_reg(instr & 0x1F))
        };
        let c = match c {
            Some(c) => c,
            None => {
                self.raise_exc_instr(mem);
                return;
            },
        };
        let (lhs, rhs) = if imm && (op == 16 || op == 17) { (c, b) } else { (b, c) };
        let cin = self.cregfile[CR_FLG] & 1 != 0;
        match alu_compute(op, lhs, rhs, cin) {
            None => {
                self.raise_exc_instr(mem);
            },
            Some((res, carry)) => {
                proof {
                    crate::memory::lemma_unchanged_refl(mem);
                }
                let flags = compute_flags(self.cregfile[CR_FLG], op, res, lhs, rhs, carry);
                self.cregfile.set(CR_FLG, flags);
                self.write_reg(r_a, res);
                self.advance();
            },
        }
    }

    fn load_upper_immediate(&mut self, instr: u32)
        requires
            old(self).wf(),
        ensures
            final(self).wf(),
            final(self).view() == old(self).view().lui_step(instr),
    {
        let r_a = (instr >> 22u32) & 0x1F;
        assert(r_a < 32) by (bit_vector)
            requires r_a == (instr >> 22u32) & 0x1F;
        self.write_reg(r_a, (instr & 0x3F_FFFF) << 10u32);
        self.advance();
    }

    fn branch_imm(&mut self, mem: &mut Memory, instr: u32)
        requires
            old(self).wf(),
            old(mem).wf(),
        ensures
            final(self).wf(),
            final(mem).wf(),
            final(mem).unchanged(&*old(mem)),
            final(self).view() == old(self).view().branch_imm_step(*old(mem), instr),
    {
        let op = (instr >> 22u32) & 0x1F;
        let imm = instr & 0x3F_FFFF;
        let imm = if imm & 0x20_0000 != 0 { imm | 0xFFC0_0000 } else { imm };
        match branch_condition(op, self.cregfile[CR_FLG]) {
            None => self.raise_exc_instr(mem),
            Some(taken) => {
                proof {
                    crate::memory::lemma_unchanged_refl(mem);
                }
                if taken {
                    self.pc = self.pc.wrapping_add(4u32.wrapping_add(imm));
                } else {
                    self.advance();
                }
            },
        }
    }

    fn branch_reg(&mut self, mem: &mut Memory, instr: u32, relative: bool)
        requires
            old(self).wf(),
            old(mem).wf(),
        ensures
            final(self).wf(),
            final(mem).wf(),
            final(mem).unchanged(&*old(mem)),
            final(self).view() == old(self).view().branch_reg_step(*old(mem), instr, relative),
    {
        let op = (instr >> 22u32) & 0x1F;
        let r_a = (instr >> 5u32) & 0x1F;
        assert(r_a < 32 && (instr & 0x1F) < 32) by (bit_vector)
            requires r_a == (instr >> 5u32) & 0x1F;
        let target = self.get_reg(instr & 0x1F);
        match branch_condition(op, self.cregfile[CR_FLG]) {
            None => self.raise_exc_instr(mem),
            Some(taken) => {
                proof {
                    crate::memory::lemma_unchanged_refl(mem);
                }
                if taken {
                    let pc = self.pc;
                    self.write_reg(r_a, pc.wrapping_add(4));
                    self.pc = if relative { pc.wrapping_add(4u32.wrapping_add(target)) } else { target };
                } else {
                    self.advance();
                }
            },
        }
    }

    fn syscall(&mut self, mem: &mut Memory, instr: u32)
        requires
            old(self).wf(),
            old(mem).wf(),
        ensures
            final(self).wf(),
            final(mem).wf(),
            final(mem).unchanged(&*old(mem)),
            final(self).view() == old(self).view().syscall_step(*old(mem), instr),
    {
        if instr & 0xFF == 1 {
            let epc = self.pc.wrapping_add(4);
            self.raise(mem, VEC_EXIT, epc);
        } else {
            self.raise_exc_instr(mem);
        }
    }

    fn load_access(&mut self, mem: &mut Memory, addr: u32, n: u32, ra: u32, incr: Option<(u32, u32)>)
        requires
            old(self).wf(),
            old(mem).wf(),
            n == 1 || n == 2 || n == 4,
            ra < 32,
            incr matches Some((rb, _)) ==> rb < 32,
        ensures
            final(self).wf(),
            final(mem).wf(),
            load_effect(old(self).view(), *old(mem), *final(mem), final(self).view(), addr, n, ra, incr),
    {
        let ghost v = self.view();
        let ghost m0 = *mem;
        let ghost vas = span(aligned(addr, n), n);
        let ok = self.load(mem, addr, n, ra);
        let ghost after = self.view();
        if ok {
            if let Some((rb, val)) = incr {
                self.write_reg(rb, val);
            }
            self.advance();
            proof {
                let pas = v.physical(vas, 0);
                let bytes = choose|bytes: Seq<u8>| {
                    &&& bytes.len() == n
                    &&& crate::memory::read_chain(m0, *mem, pas, bytes)
                    &&& after == v.latch(vas, bytes, WatchAccess::Read).set_reg(ra, compose(bytes))
                    &&& (forall|i: int| 0 <= i < n ==> !crate::memory::is_input_port(#[trigger] pas[i]))
                        ==> mem.input() == m0.input() && bytes == Seq::new(n as nat, |i: int| m0.peek(pas[i]))
                };
                assert(self.view() == finish_step(v.latch(vas, bytes, WatchAccess::Read).set_reg(ra, compose(bytes)), incr));
            }
        }
    }

    fn store_access(&mut self, mem: &mut Memory, addr: u32, n: u32, ra: u32, incr: Option<(u32, u32)>)
        requires
            old(self).wf(),
            old(mem).wf(),
            n == 1 || n == 2 || n == 4,
            ra < 32,
            incr matches Some((rb, _)) ==> rb < 32,
        ensures
            final(self).wf(),
            final(mem).wf(),
            store_effect(old(self).view(), *old(mem), *final(mem), final(self).view(), addr, n, ra, incr),
    {
        let data = self.get_reg(ra);
        let ok = self.store(mem, addr, n, data);
        if ok {
            if let Some((rb, val)) = incr {
                self.write_reg(rb, val);
            }
            self.advance();
        }
    }

    /// Performs a load or store at `addr` and, on success, the increment
    /// and the PC step.
    fn mem_access(&mut self, mem: &mut Memory, addr: u32, size: u32, is_load: bool, ra: u32, incr: Option<(u32, u32)>)
        requires
            old(self).wf(),
            old(mem).wf(),
            size <= 2,
            ra < 32,
            incr matches Some((rb, _)) ==> rb < 32,
        ensures
            final(self).wf(),
            final(mem).wf(),
            mem_effect(old(self).view(), *old(mem), *final(mem), final(self).view(), addr, size, is_load, ra, incr),
    {
        proof {
            reveal(mem_effect);
        }
        let n: u32 = if size == 0 { 1 } else if size == 1 { 2 } else { 4 };
        if is_load {
            self.load_access(mem, addr, n, ra, incr);
        } else {
            self.store_access(mem, addr, n, ra, incr);
        }
    }

    fn mem_absolute(&mut self, mem: &mut Memory, instr: u32, size: u32)
        requires
            old(self).wf(),
            old(mem).wf(),
            size <= 2,
        ensures
            final(self).wf(),
            final(mem).wf(),
            ({
                let (addr, incr) = absolute_mode(old(self).view(), instr);
                mem_effect(old(self).view(), *old(mem), *final(mem), final(self).view(), addr, size,
                    (instr >> 16u32) & 1 != 0, field_a(instr), incr)
            }),
    {
        let r_a = (instr >> 22u32) & 0x1F;
        let r_b = (instr >> 17u32) & 0x1F;
        assert(r_a < 32 && r_b < 32) by (bit_vector)
            requires r_a == (instr >> 22u32) & 0x1F, r_b == (instr >> 17u32) & 0x1F;
        let is_load = (instr >> 16u32) & 1 != 0;
        let y = (instr >> 14u32) & 3;
        let z = (instr >> 12u32) & 3;
        assert(z < 4) by (bit_vector)
            requires z == (instr >> 12u32) & 3;
        let imm = instr & 0xFFF;
        let imm = if imm & 0x800 != 0 { imm | 0xFFFF_F000 } else { imm };
        let imm = imm << z;
        let base = self.get_reg(r_b);
        let addr = if y == 2 { base } else { base.wrapping_add(imm) };
        let incr = if y == 1 || y == 2 { Some((r_b, base.wrapping_add(imm))) } else { None };
        self.mem_access(mem, addr, size, is_load, r_a, incr);
    }

    fn mem_relative(&mut self, mem: &mut Memory, instr: u32, size: u32)
        requires
            old(self).wf(),
            old(mem).wf(),
            size <= 2,
        ensures
            final(self).wf(),
            final(mem).wf(),
            mem_effect(old(self).view(), *old(mem), *final(mem), final(self).view(),
                relative_addr(old(self).view(), instr), size, (instr >> 16u32) & 1 != 0, field_a(instr), None),
    {
        let r_a = (instr >> 22u32) & 0x1F;
        let r_b = (instr >> 17u32) & 0x1F;
        assert(r_a < 32 && r_b < 32) by (bit_vector)
            requires r_a == (instr >> 22u32) & 0x1F, r_b == (instr >> 17u32) & 0x1F;
        let is_load = (instr >> 16u32) & 1 != 0;
        let imm = instr & 0xFFFF;
        let imm = if imm & 0x8000 != 0 { imm | 0xFFFF_0000 } else { imm };
        let addr = self.get_reg(r_b).wrapping_add(imm).wrapping_add(self.pc).wrapping_add(4);
        self.mem_access(mem, addr, size, is_load, r_a, None);
    }

    fn mem_imm(&mut self, mem: &mut Memory, instr: u32, size: u32)
        requires
            old(self).wf(),
            old(mem).wf(),
            size <= 2,
        ensures
            final(self).wf(),
            final(mem).wf(),
            mem_effect(old(self).view(), *old(mem), *final(mem), final(self).view(),
                imm_addr(old(self).view(), instr), size, (instr >> 21u32) & 1 != 0, field_a(instr), None),
    {
        let r_a = (instr >> 22u32) & 0x1F;
        assert(r_a < 32) by (bit_vector)
            requires r_a == (instr >> 22u32) & 0x1F;
        let is_load = (instr >> 21u32) & 1 != 0;
        let imm = instr & 0x1F_FFFF;
        let imm = if imm & 0x10_0000 != 0 { imm | 0xFFE0_0000 } else { imm };
        let addr = imm.wrapping_add(self.pc).wrapping_add(4);
        self.mem_access(mem, addr, size, is_load, r_a, None);
    }

    fn tlb_op(&mut self, instr: u32)
        requires
            old(self).wf(),
        ensures
            final(self).wf(),
            old(self).view().tlb_step(final(self).view(), instr),
    {
        let op = (instr >> 10u32) & 3;
        let ra = (instr >> 22u32) & 0x1F;
        let rb = (instr >> 17u32) & 0x1F;
        assert(ra < 32 && rb < 32 && op <= 3) by (bit_vector)
            requires ra == (instr >> 22u32) & 0x1F, rb == (instr >> 17u32) & 0x1F, op == (instr >> 10u32) & 3;
        let vpn = self.get_reg(rb) >> 12u32;
        let pid = self.cregfile[CR_PID];
        proof {
            crate::tlb::lemma_tlb_capacity(&self.tlb);
        }
        if op == 0 {
            let val = match self.tlb.read(pid, vpn) {
                Some(v) => v,
                None => 0,
            };
            self.write_reg(ra, val);
        } else if op == 1 {
            let payload = self.get_reg(ra) & 0x7FF_FFFF;
            self.tlb.write(pid, vpn, payload);
        } else if op == 2 {
            self.tlb.invalidate(pid, vpn);
        } else {
            self.tlb.clear();
        }
        proof {
            crate::tlb::lemma_tlb_capacity(&self.tlb);
        }
        self.advance();
    }

    fn crmv_op(&mut self, mem: &mut Memory, ic: &mut InterruptController, instr: u32)
        requires
            old(self).wf(),
            old(mem).wf(),
            old(ic).wf(),
        ensures
            final(self).wf(),
            final(mem).wf(),
            final(ic).wf(),
            final(mem).unchanged(&*old(mem)),
            final(ic).cores() == old(ic).cores(),
            final(self).view() == old(self).view().crmv_step(*old(mem), instr),
            ({
                let v = old(self).view();
                let n = final(self).view().cregs[CR_ISR as int];
                let cleared = v.cregs[CR_ISR as int] & !n;
                let core = v.cregs[CR_CID as int] as usize;
                let op = (instr >> 10u32) & 3;
                let writes_isr = field_a(instr) == CR_ISR && (op == 0 || (op == 2 && field_b(instr) < NUM_CREGS));
                if writes_isr {
                    &&& final(ic).pending_view() == old(ic).pending_view()
                    &&& final(ic).payload_view() == old(ic).payload_view()
                    &&& final(ic).kb_holder() == if cleared & crate::memory::KB_INTERRUPT_BIT != 0 && old(ic).kb_holder() == Some(core) { None } else { old(ic).kb_holder() }
                    &&& final(ic).uart_holder() == if cleared & crate::memory::UART_INTERRUPT_BIT != 0 && old(ic).uart_holder() == Some(core) { None } else { old(ic).uart_holder() }
                } else {
                    *final(ic) == *old(ic)
                }
            }),
    {
        let op = (instr >> 10u32) & 3;
        let ra = (instr >> 22u32) & 0x1F;
        let rb = (instr >> 17u32) & 0x1F;
        assert(ra < 32 && rb < 32 && op <= 3) by (bit_vector)
            requires ra == (instr >> 22u32) & 0x1F, rb == (instr >> 17u32) & 0x1F, op == (instr >> 10u32) & 3;
        let ra = ra as usize;
        let rb = rb as usize;
        if ((op == 0 || op == 2) && ra >= NUM_CREGS) || ((op == 1 || op == 2) && rb >= NUM_CREGS) {
            self.raise_exc_instr(mem);
            return;
        }
        proof {
            crate::memory::lemma_unchanged_refl(mem);
        }
        let src = if op == 0 || op == 3 { self.regfile[rb] } else { self.cregfile[rb] };
        if op == 0 || op == 2 {
            if ra != CR_CID {
                let old_isr = self.cregfile[CR_ISR];
                self.cregfile.set(ra, src);
                if ra == CR_ISR {
                    let core = self.cregfile[CR_CID] as usize;
                    ic.ack_input(core, old_isr & !src);
                }
            }
        } else if ra != 0 {
            self.regfile.set(ra, src);
        }
        self.advance();
    }

    fn mode_op(&mut self, instr: u32)
        requires
            old(self).wf(),
        ensures
            final(self).wf(),
            final(self).view() == old(self).view().mode_step(instr),
    {
        let op = (instr >> 10u32) & 3;
        if op == 0 {
            self.advance();
        } else if op == 1 {
            self.asleep = true;
        } else {
            self.halted = true;
        }
    }

    fn rfe(&mut self, instr: u32)
        requires
            old(self).wf(),
        ensures
            final(self).wf(),
            final(self).view() == old(self).view().rfe_step(instr),
    {
        let psr = self.cregfile[CR_PSR];
        let psr = if psr > 0 { psr - 1 } else { 0 };
        self.cregfile.set(CR_PSR, psr);
        if psr == 0 {
            self.kmode = false;
        }
        let imr = if (instr >> 11u32) & 1 == 1 { self.cregfile[CR_IMR] | IMR_ENABLE } else { self.cregfile[CR_IMR] };
        self.cregfile.set(CR_IMR, imr);
        self.pc = self.cregfile[CR_EPC];
    }

    /// Sends the MBO payload to one core (the low two bits) or, with bit 11,
    /// to all others; register A receives 1 or 0 for success, or the mask of
    /// cores reached.
    fn ipi_op(&mut self, ic: &mut InterruptController, instr: u32)
        requires
            old(self).wf(),
            old(ic).wf(),
        ensures
            final(self).wf(),
            final(ic).wf(),
            final(ic).cores() == old(ic).cores(),
            ipi_effect(old(self).view(), *old(ic), *final(ic), final(self).view(), instr),
            (instr >> 11u32) & 1 == 1 ==> final(self).view() == old(self).view().set_reg(
                field_a(instr),
                broadcast_mask(old(ic).cores() as u32, old(self).view().cregs[CR_CID as int] as usize),
            ).advance(),
            (instr >> 11u32) & 1 == 1 ==> forall|c: int| 0 <= c < old(ic).cores() ==> #[trigger] final(ic).payload_view()[c]
                == if c == old(self).view().cregs[CR_CID as int] as usize {
                old(ic).payload_view()[c]
            } else {
                old(self).view().cregs[CR_MBO as int]
            },
            (instr >> 11u32) & 1 == 1 ==> forall|c: int| 0 <= c < old(ic).cores() ==> #[trigger] final(ic).pending_view()[c]
                == if c == old(self).view().cregs[CR_CID as int] as usize {
                old(ic).pending_view()[c]
            } else {
                old(ic).pending_view()[c] | crate::memory::IPI_INTERRUPT_BIT
            },
            (instr >> 11u32) & 1 != 1 ==> final(self).view() == old(self).view().set_reg(
                field_a(instr),
                if ((instr & 3) as usize) < old(ic).cores() { 1 } else { 0 },
            ).advance(),
            (instr >> 11u32) & 1 != 1 ==> final(ic).payload_view() == if ((instr & 3) as usize) < old(ic).cores() {
                old(ic).payload_view().update((instr & 3) as int, old(self).view().cregs[CR_MBO as int])
            } else {
                old(ic).payload_view()
            },
            (instr >> 11u32) & 1 != 1 ==> final(ic).pending_view() == if ((instr & 3) as usize) < old(ic).cores() {
                old(ic).pending_view().update((instr & 3) as int, old(ic).pending_view()[(instr & 3) as int] | crate::memory::IPI_INTERRUPT_BIT)
            } else {
                old(ic).pending_view()
            },
    {
        let ra = (instr >> 22u32) & 0x1F;
        assert(ra < 32) by (bit_vector)
            requires ra == (instr >> 22u32) & 0x1F;
        let payload = self.cregfile[CR_MBO];
        let me = self.cregfile[CR_CID] as usize;
        proof {
            ic.lemma_lengths();
        }
        if (instr >> 11u32) & 1 == 1 {
            let mask = ic.send_ipi_all(me, payload);
            self.write_reg(ra, mask);
        } else {
            let ok = ic.send_ipi((instr & 3) as usize, payload);
            self.write_reg(ra, if ok { 1 } else { 0 });
        }
        self.advance();
    }

    fn atomic_op(&mut self, mem: &mut Memory, addr: u32, ra: u32, swap: bool)
        requires
            old(self).wf(),
            old(mem).wf(),
            ra < 32,
        ensures
            final(self).wf(),
            final(mem).wf(),
            atomic_effect(old(self).view(), *old(mem), *final(mem), final(self).view(), addr, ra, swap),
    {
        proof {
            reveal(atomic_effect);
        }
        let ghost v = self.view();
        let ghost m0 = *mem;
        let va = addr & 0xFFFF_FFFC;
        assert((addr & 0xFFFF_FFFC) & 0xFFFF_FFFC == addr & 0xFFFF_FFFC) by (bit_vector);
        let vas = Self::span_vec(va, 4);
        let pr = self.translate_all(&vas, 0);
        let pw = self.translate_all(&vas, 1);
        if pr.is_none() || pw.is_none() {
            let info = (addr >> 12u32) | (self.cregfile[CR_PID] << 20u32);
            self.cregfile.set(CR_TLB, info);
            let vector = if self.kmode { VEC_TLB_KMISS } else { VEC_TLB_UMISS };
            let epc = self.pc;
            self.raise(mem, vector, epc);
            return;
        }
        let pr = pr.unwrap();
        let pw = pw.unwrap();
        let old_bytes = match mem.read_phys_bytes(&pr) {
            Ok(b) => b,
            Err(e) => {
                proof {
                    crate::memory::lemma_unchanged_refl(mem);
                }
                self.halted = true;
                self.fault = Some(Fault::Bus(e));
                return;
            },
        };
        let ghost m_mid = *mem;
        let old = (old_bytes[0] as u32) | ((old_bytes[1] as u32) << 8u32) | ((old_bytes[2] as u32) << 16u32)
            | ((old_bytes[3] as u32) << 24u32);
        let operand = self.get_reg(ra);
        let new = if swap { operand } else { old.wrapping_add(operand) };
        let data = Self::bytes_of_value(new, 4);
        match mem.write_phys_bytes(&pw, &data) {
            Err(e) => {
                self.halted = true;
                self.fault = Some(Fault::Bus(e));
                return;
            },
            Ok(()) => {},
        }
        self.latch_hit(&vas, &old_bytes, WatchAccess::Read);
        self.latch_hit(&vas, &data, WatchAccess::Write);
        self.write_reg(ra, old);
        self.advance();
        proof {
            let b = old_bytes@;
            assert(compose(b) == old);
            if forall|i: int| 0 <= i < 4 ==> !crate::memory::is_input_port(#[trigger] pr@[i]) {
                assert(b =~= Seq::new(4, |i: int| m0.peek(pr@[i])));
                crate::memory::lemma_unchanged(&m0, &m_mid);
            }
            assert(self.view() == v.latch(vas@, b, WatchAccess::Read).latch(vas@, value_bytes(new, 4), WatchAccess::Write)
                .set_reg(ra, old).advance());
            assert(crate::memory::read_chain(m0, m_mid, pr@, b));
        }
    }

    #[verifier::rlimit(50)]
    fn atomic_absolute(&mut self, mem: &mut Memory, instr: u32, swap: bool)
        requires
            old(self).wf(),
            old(mem).wf(),
        ensures
            final(self).wf(),
            final(mem).wf(),
            atomic_effect(old(self).view(), *old(mem), *final(mem), final(self).view(),
                absolute_mode(old(self).view(), instr).0, field_a(instr), swap),
    {
        let r_a = (instr >> 22u32) & 0x1F;
        let r_b = (instr >> 17u32) & 0x1F;
        assert(r_a < 32 && r_b < 32) by (bit_vector)
            requires r_a == (instr >> 22u32) & 0x1F, r_b == (instr >> 17u32) & 0x1F;
        let y = (instr >> 14u32) & 3;
        let z = (instr >> 12u32) & 3;
        assert(z < 4) by (bit_vector)
            requires z == (instr >> 12u32) & 3;
        let imm = instr & 0xFFF;
        let imm = if imm & 0x800 != 0 { imm | 0xFFFF_F000 } else { imm };
        let imm = imm << z;
        let base = self.get_reg(r_b);
        let addr = if y == 2 { base } else { base.wrapping_add(imm) };
        self.atomic_op(mem, addr, r_a, swap);
    }

    #[verifier::rlimit(50)]
    fn atomic_relative(&mut self, mem: &mut Memory, instr: u32, swap: bool)
        requires
            old(self).wf(),
            old(mem).wf(),
        ensures
            final(self).wf(),
            final(mem).wf(),
            atomic_effect(old(self).view(), *old(mem), *final(mem), final(self).view(),
                relative_addr(old(self).view(), instr), field_a(instr), swap),
    {
        let r_a = (instr >> 22u32) & 0x1F;
        assert(r_a < 32) by (bit_vector)
            requires r_a == (instr >> 22u32) & 0x1F;
        let addr = self.relative_address(instr);
        self.atomic_op(mem, addr, r_a, swap);
    }

    #[verifier::rlimit(50)]
    fn relative_address(&self, instr: u32) -> (r: u32)
        requires
            self.wf(),
        ensures
            r == relative_addr(self.view(), instr),
    {
        let r_b = (instr >> 17u32) & 0x1F;
        assert(r_b < 32) by (bit_vector)
            requires r_b == (instr >> 17u32) & 0x1F;
        let imm = instr & 0xFFFF;
        let imm = if imm & 0x8000 != 0 { imm | 0xFFFF_0000 } else { imm };
        self.get_reg(r_b).wrapping_add(imm).wrapping_add(self.pc).wrapping_add(4)
    }

    #[verifier::rlimit(50)]
    fn atomic_imm(&mut self, mem: &mut Memory, instr: u32, swap: bool)
        requires
            old(self).wf(),
            old(mem).wf(),
        ensures
            final(self).wf(),
            final(mem).wf(),
            atomic_effect(old(self).view(), *old(mem), *final(mem), final(self).view(),
                imm_addr(old(self).view(), instr), field_a(instr), swap),
    {
        let r_a = (instr >> 22u32) & 0x1F;
        assert(r_a < 32) by (bit_vector)
            requires r_a == (instr >> 22u32) & 0x1F;
        let imm = instr & 0x1F_FFFF;
        let imm = if imm & 0x10_0000 != 0 { imm | 0xFFE0_0000 } else { imm };
        let addr = imm.wrapping_add(self.pc).wrapping_add(4);
        self.atomic_op(mem, addr, r_a, swap);
    }

    fn kernel_instr(&mut self, mem: &mut Memory, ic: &mut InterruptController, instr: u32)
        requires
            old(self).wf(),
            old(mem).wf(),
            old(ic).wf(),
        ensures
            final(self).wf(),
            final(mem).wf(),
            final(ic).wf(),
            kernel_effect(old(self).view(), *old(mem), *final(mem), *old(ic), *final(ic), final(self).view(), instr),
    {
        if !self.kmode {
            let epc = self.pc;
            self.raise(mem, VEC_PRIVILEGED, epc);
            return;
        }
        proof {
            crate::memory::lemma_unchanged_refl(mem);
        }
        let op = (instr >> 12u32) & 0x1F;
        if op == 0 {
            self.tlb_op(instr);
        } else if op == 1 {
            self.crmv_op(mem, ic, instr);
        } else if op == 2 {
            self.mode_op(instr);
        } else if op == 3 {
            self.rfe(instr);
        } else if op == 4 {
            self.ipi_op(ic, instr);
        } else {
            self.raise_exc_instr(mem);
        }
    }

    /// Executes one instruction.
    #[verifier::rlimit(50)]
    pub fn execute(&mut self, mem: &mut Memory, ic: &mut InterruptController, instr: u32)
        requires
            old(self).wf(),
            old(mem).wf(),
            old(ic).wf(),
        ensures
            final(self).wf(),
            final(mem).wf(),
            final(ic).wf(),
            final(ic).cores() == old(ic).cores(),
            exec_effect(old(self).view(), *old(mem), *final(mem), *old(ic), *final(ic), final(self).view(), instr),
    {
        proof {
            reveal(exec_effect);
            crate::memory::lemma_unchanged_refl(mem);
        }
        let opcode = instr >> 27u32;
        match opcode {
            0 => self.alu_op(mem, instr, false),
            1 => self.alu_op(mem, instr, true),
            2 => self.load_upper_immediate(instr),
            3 => self.mem_absolute(mem, instr, 2),
            4 => self.mem_relative(mem, instr, 2),
            5 => self.mem_imm(mem, instr, 2),
            6 => self.mem_absolute(mem, instr, 1),
            7 => self.mem_relative(mem, instr, 1),
            8 => self.mem_imm(mem, instr, 1),
            9 => self.mem_absolute(mem, instr, 0),
            10 => self.mem_relative(mem, instr, 0),
            11 => self.mem_imm(mem, instr, 0),
            12 => self.branch_imm(mem, instr),
            13 => self.branch_reg(mem, instr, false),
            14 => self.branch_reg(mem, instr, true),
            15 => self.syscall(mem, instr),
            16 | 19 => self.atomic_absolute(mem, instr, opcode == 19),
            17 | 20 => self.atomic_relative(mem, instr, opcode == 20),
            18 | 21 => self.atomic_imm(mem, instr, opcode == 21),
            31 => self.kernel_instr(mem, ic, instr),
            _ => self.raise_exc_instr(mem),
        }
    }

    /// Takes this core's pending bits from the controller into ISR and runs
    /// the timer (see `CoreView::polled`).
    pub fn check_for_interrupts(&mut self, mem: &mut Memory, ic: &mut InterruptController, core: usize)
        requires
            old(self).wf(),
            old(mem).wf(),
            old(ic).wf(),
            core < old(ic).cores(),
        ensures
            final(self).wf(),
            final(mem).wf(),
            final(ic).wf(),
            final(mem).unchanged(&*old(mem)),
            final(ic).cores() == old(ic).cores(),
            final(ic).pending_view() == old(ic).pending_view().update(core as int, 0),
            final(ic).payload_view() == old(ic).payload_view(),
            final(ic).kb_holder() == old(ic).kb_holder(),
            final(ic).uart_holder() == old(ic).uart_holder(),
            final(ic).input_cursor() == old(ic).input_cursor(),
            final(ic).device_cursors() == old(ic).device_cursors(),
            final(self).view() == old(self).view().polled(
                old(ic).pending_view()[core as int],
                old(ic).payload_view()[core as int],
                old(mem).word(crate::memory::PIT_START),
            ),
    {
        proof {
            ic.lemma_lengths();
        }
        let taken = ic.take_pending(core);
        let mbi = if taken & crate::memory::IPI_INTERRUPT_BIT != 0 { ic.ipi_payload(core) } else { self.cregfile[CR_MBI] };
        self.cregfile.set(CR_MBI, mbi);
        let isr = self.cregfile[CR_ISR] | taken;
        self.cregfile.set(CR_ISR, isr);
        if self.timer == 0 {
            proof {
                assert(forall|i: int| 0 <= i < 4 ==> crate::memory::is_storage(#[trigger] crate::memory::word_addrs(crate::memory::PIT_START)[i]));
                crate::memory::lemma_storage_word_no_error(crate::memory::PIT_START);
            }
            let reload = match mem.read32(crate::memory::PIT_START) {
                Ok(w) => w,
                Err(_) => 0,
            };
            proof {
                crate::memory::lemma_unchanged(old(mem), mem);
            }
            if reload != 0 {
                self.timer = reload;
                self.cregfile.set(CR_ISR, isr | crate::memory::TIMER_INTERRUPT_BIT);
            }
        } else {
            proof {
                crate::memory::lemma_unchanged_refl(mem);
            }
            self.timer = self.timer - 1;
        }
    }

    fn highest_interrupt(active: u32) -> (r: u32)
        ensures
            r == highest_from(active, 15),
            r <= 15,
    {
        let mut k: u32 = 15;
        while k > 0
            invariant
                k <= 15,
                highest_from(active, 15) == highest_from(active, k),
            decreases k,
        {
            if active & (1u32 << k) != 0 {
                return k;
            }
            k -= 1;
        }
        0
    }

    /// Enters the handler of the highest active interrupt, if interrupts
    /// are enabled and one is active (see `CoreView::interrupt_step`).
    pub fn handle_interrupts(&mut self, mem: &mut Memory)
        requires
            old(self).wf(),
            old(mem).wf(),
        ensures
            final(self).wf(),
            final(mem).wf(),
            final(mem).unchanged(&*old(mem)),
            final(self).view() == old(self).view().interrupt_step(*old(mem)),
    {
        let active = self.cregfile[CR_IMR] & self.cregfile[CR_ISR] & 0xFFFF;
        if self.cregfile[CR_IMR] & IMR_ENABLE == 0 || active == 0 {
            proof {
                crate::memory::lemma_unchanged_refl(mem);
            }
            return;
        }
        if self.asleep {
            self.pc = self.pc.wrapping_add(4);
            self.asleep = false;
        }
        let k = Self::highest_interrupt(active);
        let epc = self.pc;
        self.raise(mem, VEC_INTERRUPT_BASE + k, epc);
    }

    /// Fetches the instruction at PC; a miss raises the TLB-miss exception
    /// and a bus error stops the core, both giving `None`.
    fn fetch(&mut self, mem: &mut Memory) -> (r: Option<u32>)
        requires
            old(self).wf(),
            old(mem).wf(),
        ensures
            final(self).wf(),
            final(mem).wf(),
            ({
                let v = old(self).view();
                let vas = span(aligned(v.pc, 4), 4);
                let pas = v.physical(vas, 2);
                if !v.all_translate(vas, 2) {
                    r is None && final(mem).unchanged(&*old(mem)) && final(self).view() == v.tlb_miss(v.pc, *old(mem))
                } else if crate::memory::first_error(pas, false) is Some {
                    &&& r is None
                    &&& final(mem).unchanged(&*old(mem))
                    &&& final(self).view() == v.bus_fault(crate::memory::first_error(pas, false)->Some_0)
                } else {
                    &&& r is Some
                    &&& final(self).view() == v
                    &&& final(mem).same_but_input(&*old(mem))
                    &&& exists|b: Seq<u8>| #[trigger] crate::memory::read_chain(*old(mem), *final(mem), pas, b)
                        && b.len() == 4 && r == Some(compose(b))
                    &&& (forall|i: int| 0 <= i < 4 ==> !crate::memory::is_input_port(#[trigger] pas[i])) ==> {
                        &&& final(mem).input() == old(mem).input()
                        &&& r == Some(compose(Seq::new(4, |i: int| old(mem).peek(pas[i]))))
                    }
                }
            }),
    {
        let pc0 = self.pc;
        let va = pc0 & 0xFFFF_FFFC;
        assert((pc0 & 0xFFFF_FFFC) & 0xFFFF_FFFC == pc0 & 0xFFFF_FFFC) by (bit_vector);
        let vas = Self::span_vec(va, 4);
        let pas = match self.translate_all(&vas, 2) {
            Some(p) => p,
            None => {
                let pc = self.pc;
                let info = (pc >> 12u32) | (self.cregfile[CR_PID] << 20u32);
                self.cregfile.set(CR_TLB, info);
                let vector = if self.kmode { VEC_TLB_KMISS } else { VEC_TLB_UMISS };
                self.raise(mem, vector, pc);
                return None;
            },
        };
        match mem.read_phys_bytes(&pas) {
            Err(e) => {
                proof {
                    crate::memory::lemma_unchanged_refl(mem);
                }
                self.halted = true;
                self.fault = Some(Fault::Bus(e));
                None
            },
            Ok(b) => {
                let w = (b[0] as u32) | ((b[1] as u32) << 8u32) | ((b[2] as u32) << 16u32) | ((b[3] as u32) << 24u32);
                proof {
                    assert(compose(b@) == w);
                    if forall|i: int| 0 <= i < 4 ==> !crate::memory::is_input_port(#[trigger] pas@[i]) {
                        assert(b@ =~= Seq::new(4, |i: int| old(mem).peek(pas@[i])));
                    }
                }
                Some(w)
            },
        }
    }

    /// Runs the fetch-execute part of a tick: nothing while halted or
    /// asleep or when `run` is false (the clock divider holds it back);
    /// else fetches and executes one instruction.
    pub fn step(&mut self, mem: &mut Memory, ic: &mut InterruptController, run: bool) -> (r: StepOutcome)
        requires
            old(self).wf(),
            old(mem).wf(),
            old(ic).wf(),
        ensures
            final(self).wf(),
            final(mem).wf(),
            final(ic).wf(),
            final(ic).cores() == old(ic).cores(),
            step_effect(old(self).view(), *old(mem), *final(mem), *old(ic), *final(ic), final(self).view(), run, r),
    {
        if self.halted || !run {
            proof {
                crate::memory::lemma_unchanged_refl(mem);
            }
            return StepOutcome::Idle;
        }
        if self.asleep {
            proof {
                crate::memory::lemma_unchanged_refl(mem);
            }
            return StepOutcome::Sleeping;
        }
        let pc = self.pc;
        let ghost v = self.view();
        let ghost vas = span(aligned(v.pc, 4), 4);
        match self.fetch(mem) {
            Some(instr) => {
                let ghost m = *mem;
                self.execute(mem, ic, instr);
                proof {
                    let pas = v.physical(vas, 2);
                    let b = choose|b: Seq<u8>| #[trigger] crate::memory::read_chain(*old(mem), m, pas, b) && b.len() == 4
                        && Some(instr) == Some(compose(b));
                    assert(crate::memory::read_chain(*old(mem), m, pas, b) && exec_effect(v, m, *mem, *old(ic), *ic, self.view(), instr));
                }
                StepOutcome::Executed { pc, instr }
            },
            None => {
                match self.fault {
                    Some(Fault::Bus(_)) => StepOutcome::Idle,
                    _ => StepOutcome::TlbMiss { pc },
                }
            },
        }
    }

    /// Counts one tick.
    pub fn count_tick(&mut self)
        requires
            old(self).wf(),
        ensures
            final(self).wf(),
            final(self).view() == (CoreView { count: wrap_add(old(self).view().count, 1), ..old(self).view() }),
    {
        self.count = self.count.wrapping_add(1);
    }

    pub fn tick_count(&self) -> (r: u32)
        ensures
            r == self.view().count,
    {
        self.count
    }

    /// Replaces the watchpoints.
    pub fn set_watchpoints(&mut self, watchpoints: &Vec<Watchpoint>)
        requires
            old(self).wf(),
        ensures
            final(self).wf(),
            final(self).view() == (CoreView { watchpoints: watchpoints@, ..old(self).view() }),
    {
        self.watchpoints = watchpoints.clone();
        assert(self.watchpoints@ =~= watchpoints@);
    }

    /// Takes the latched watchpoint hit, if any.
    pub fn take_watchpoint_hit(&mut self) -> (r: Option<WatchpointHit>)
        requires
            old(self).wf(),
        ensures
            final(self).wf(),
            r == old(self).view().hit,
            final(self).view() == (CoreView { hit: None, ..old(self).view() }),
    {
        let r = self.watchpoint_hit;
        self.watchpoint_hit = None;
        r
    }

    /// The TLB, for inspection.
    pub fn tlb(&self) -> (r: &RandomCache)
        requires
            self.wf(),
        ensures
            r.private_view() == self.view().tlb_private,
            r.global_view() == self.view().tlb_global,
    {
        &self.tlb
    }
}

/// r0 reads as zero in every well-formed core, and writing it changes
/// nothing.
pub proof fn lemma_r0_is_zero(c: &Core, v: u32)
    requires
        c.wf(),
    ensures
        c.view().reg(0) == 0,
        c.view().set_reg(0, v) == c.view(),
{
}

/// In kernel mode r31 is the kernel stack pointer, for reads and writes.
pub proof fn lemma_r31_is_ksp(v: CoreView, x: u32)
    requires
        v.kmode,
        v.cregs.len() == NUM_CREGS,
    ensures
        v.reg(31) == v.cregs[CR_KSP as int],
        v.set_reg(31, x).cregs[CR_KSP as int] == x,
        v.set_reg(31, x).regs == v.regs,
{
}

/// Exception entry raises PSR by one (the core stops rather than wrap),
/// and rfe lowers it by one but never below zero.
pub proof fn lemma_psr_counts_nesting(v: CoreView, epc: u32, handler: u32, instr: u32)
    requires
        v.cregs.len() == NUM_CREGS,
    ensures
        v.psr() < u32::MAX ==> v.enter(epc, handler).psr() == v.psr() + 1,
        v.psr() == u32::MAX ==> v.enter(epc, handler).halted,
        v.rfe_step(instr).psr() == if v.psr() > 0 { v.psr() - 1 } else { 0 },
{
}

/// A TLB miss at `vaddr` below the deepest nesting level saves the fault
/// information (VPN with the PID above it) and the PC, disables interrupts,
/// counts one more level, enters kernel mode and jumps to the kernel- or
/// user-miss handler; the general registers are untouched.
pub proof fn lemma_tlb_miss_entry(v: CoreView, vaddr: u32, m: Memory)
    requires
        v.cregs.len() == NUM_CREGS,
        v.psr() < u32::MAX,
    ensures
        ({
            let w = v.tlb_miss(vaddr, m);
            &&& w.cregs[CR_TLB as int] == (vaddr >> 12u32) | (v.cregs[CR_PID as int] << 20u32)
            &&& w.cregs[CR_EPC as int] == v.pc
            &&& w.cregs[CR_IMR as int] == v.cregs[CR_IMR as int] & 0x7FFF_FFFF
            &&& w.psr() == v.psr() + 1
            &&& w.kmode
            &&& w.pc == m.word(((if v.kmode { VEC_TLB_KMISS } else { VEC_TLB_UMISS }) * 4) as u32)
            &&& w.regs == v.regs
        }),
{
}

/// Returning from an exception whose EPC was not changed resumes at the
/// EPC saved on entry.
pub proof fn lemma_rfe_returns_to_epc(v: CoreView, epc: u32, handler: u32, instr: u32)
    requires
        v.cregs.len() == NUM_CREGS,
        v.psr() < u32::MAX,
    ensures
        v.enter(epc, handler).rfe_step(instr).pc == epc,
{
}

/// An IPI sent to a core and then taken by its interrupt polling puts the
/// payload in MBI and the IPI bit in ISR.
pub proof fn lemma_ipi_delivery(
    before: InterruptController,
    after: InterruptController,
    target: usize,
    payload: u32,
    v: CoreView,
    reload: u32,
)
    requires
        before.wf(),
        target < before.cores(),
        v.cregs.len() == NUM_CREGS,
        after.payload_view() == before.payload_view().update(target as int, payload),
        after.pending_view() == before.pending_view().update(
            target as int,
            before.pending_view()[target as int] | crate::memory::IPI_INTERRUPT_BIT,
        ),
    ensures
        ({
            let w = v.polled(after.pending_view()[target as int], after.payload_view()[target as int], reload);
            &&& w.cregs[CR_MBI as int] == payload
            &&& w.cregs[CR_ISR as int] & crate::memory::IPI_INTERRUPT_BIT != 0
        }),
{
    before.lemma_lengths();
    let p = before.pending_view()[target as int];
    let isr = v.cregs[CR_ISR as int];
    assert(1u32 << 5u32 == 32u32) by (bit_vector);
    assert(1u32 << 0u32 == 1u32) by (bit_vector);
    let taken = after.pending_view()[target as int];
    assert(taken == p | 32u32);
    assert(((p | 32u32) & 32u32) != 0u32) by (bit_vector);
    assert(((isr | (p | 32u32)) & 32u32) != 0u32) by (bit_vector);
    assert((((isr | (p | 32u32)) | 1u32) & 32u32) != 0u32) by (bit_vector);
    assert(after.payload_view()[target as int] == payload);
}

} // verus!
