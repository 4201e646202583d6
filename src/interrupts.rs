//! The interrupt controller shared by all cores: a pending word and an IPI
//! payload slot per core, round-robin routing of device interrupts, and
//! in-flight tracking of input interrupts.
use vstd::prelude::*;

use crate::memory::{IPI_INTERRUPT_BIT, KB_INTERRUPT_BIT, SD_INTERRUPT_BIT, UART_INTERRUPT_BIT, VGA_INTERRUPT_BIT};

verus! {

/// Interrupt bit of the second SD device.
pub const SD2_INTERRUPT_BIT: u32 = 1 << 6;
/// Largest number of cores.
pub const MAX_CORES: usize = 4;

pub struct InterruptController {
    pending: Vec<u32>,
    ipi_payload: Vec<u32>,
    rr_input: usize,
    rr_sd: usize,
    rr_vga: usize,
    rr_sd2: usize,
    kb_inflight: Option<usize>,
    uart_inflight: Option<usize>,
}

/// The core after `c` in round-robin order among `n` cores.
pub open spec fn rr_next(c: nat, n: nat) -> nat {
    if c + 1 >= n { 0 } else { c + 1 }
}

/// The mask of cores `0..n` but `sender`: bit c set for each core reached.
pub open spec fn broadcast_mask(n: u32, sender: usize) -> u32 {
    let all = ((1u32 << n) - 1) as u32;
    if sender < n {
        all & !(1u32 << (sender as u32))
    } else {
        all
    }
}

/// The controller `next` after routing input: with input waiting and no
/// such interrupt in flight, the keyboard (or UART) bit is raised on the
/// next core in turn, which then holds it; otherwise nothing changes.
pub open spec fn input_dispatched(prev: InterruptController, next: InterruptController, uart_mode: bool, io_nonempty: bool) -> bool {
    &&& next.cores() == prev.cores()
    &&& next.payload_view() == prev.payload_view()
    &&& next.device_cursors() == prev.device_cursors()
    &&& ({
        let holder = if uart_mode { prev.uart_holder() } else { prev.kb_holder() };
        let c = prev.input_cursor();
        let bit = if uart_mode { UART_INTERRUPT_BIT } else { KB_INTERRUPT_BIT };
        if io_nonempty && holder is None {
            &&& next.pending_view() == prev.pending_view().update(
                c as int,
                prev.pending_view()[c as int] | bit,
            )
            &&& next.input_cursor() == rr_next(c as nat, prev.cores())
            &&& if uart_mode {
                next.uart_holder() == Some(c) && next.kb_holder() == prev.kb_holder()
            } else {
                next.kb_holder() == Some(c) && next.uart_holder() == prev.uart_holder()
            }
        } else {
            &&& next.pending_view() == prev.pending_view()
            &&& next.input_cursor() == prev.input_cursor()
            &&& next.kb_holder() == prev.kb_holder()
            &&& next.uart_holder() == prev.uart_holder()
        }
    })
}

/// The controller `next` after routing the device bits `bits`: each of the
/// SD, display and second SD bits present is raised on one core, each
/// device with its own round-robin cursor.
pub open spec fn devices_dispatched(prev: InterruptController, next: InterruptController, bits: u32) -> bool {
    &&& next.cores() == prev.cores()
    &&& next.payload_view() == prev.payload_view()
    &&& next.kb_holder() == prev.kb_holder()
    &&& next.uart_holder() == prev.uart_holder()
    &&& next.input_cursor() == prev.input_cursor()
    &&& ({
        let (s0, v0, t0) = prev.device_cursors();
        let n = prev.cores();
        let p0 = prev.pending_view();
        let p1 = if bits & SD_INTERRUPT_BIT != 0 { p0.update(s0 as int, p0[s0 as int] | SD_INTERRUPT_BIT) } else { p0 };
        let p2 = if bits & VGA_INTERRUPT_BIT != 0 { p1.update(v0 as int, p1[v0 as int] | VGA_INTERRUPT_BIT) } else { p1 };
        let p3 = if bits & SD2_INTERRUPT_BIT != 0 { p2.update(t0 as int, p2[t0 as int] | SD2_INTERRUPT_BIT) } else { p2 };
        &&& next.pending_view() == p3
        &&& next.device_cursors().0 == if bits & SD_INTERRUPT_BIT != 0 { rr_next(s0 as nat, n) } else { s0 as nat }
        &&& next.device_cursors().1 == if bits & VGA_INTERRUPT_BIT != 0 { rr_next(v0 as nat, n) } else { v0 as nat }
        &&& next.device_cursors().2 == if bits & SD2_INTERRUPT_BIT != 0 { rr_next(t0 as nat, n) } else { t0 as nat }
    })
}

impl InterruptController {
    pub closed spec fn wf(&self) -> bool {
        &&& 1 <= self.pending@.len() <= MAX_CORES
        &&& self.ipi_payload@.len() == self.pending@.len()
        &&& self.rr_input < self.pending@.len()
        &&& self.rr_sd < self.pending@.len()
        &&& self.rr_vga < self.pending@.len()
        &&& self.rr_sd2 < self.pending@.len()
        &&& (self.kb_inflight matches Some(c) ==> c < self.pending@.len())
        &&& (self.uart_inflight matches Some(c) ==> c < self.pending@.len())
    }

    /// Number of cores served.
    pub closed spec fn cores(&self) -> nat {
        self.pending@.len()
    }

    /// One pending word and one payload slot per core.
    pub proof fn lemma_lengths(&self)
        requires
            self.wf(),
        ensures
            self.pending_view().len() == self.cores(),
            self.payload_view().len() == self.cores(),
            1 <= self.cores() <= MAX_CORES,
    {
    }

    /// Pending bits of each core.
    pub closed spec fn pending_view(&self) -> Seq<u32> {
        self.pending@
    }

    /// IPI payload slot of each core.
    pub closed spec fn payload_view(&self) -> Seq<u32> {
        self.ipi_payload@
    }

    /// Core that holds the keyboard interrupt in flight, if any.
    pub closed spec fn kb_holder(&self) -> Option<usize> {
        self.kb_inflight
    }

    /// Core that holds the UART interrupt in flight, if any.
    pub closed spec fn uart_holder(&self) -> Option<usize> {
        self.uart_inflight
    }

    /// Next core to receive an input interrupt.
    pub closed spec fn input_cursor(&self) -> usize {
        self.rr_input
    }

    /// Next core to receive the SD, display and second SD interrupts.
    pub closed spec fn device_cursors(&self) -> (usize, usize, usize) {
        (self.rr_sd, self.rr_vga, self.rr_sd2)
    }

    pub fn new(cores: usize) -> (r: InterruptController)
        requires
            1 <= cores <= MAX_CORES,
        ensures
            r.wf(),
            r.cores() == cores,
            r.pending_view() == Seq::new(cores as nat, |i: int| 0u32),
            r.payload_view() == Seq::new(cores as nat, |i: int| 0u32),
            r.kb_holder() is None,
            r.uart_holder() is None,
            r.input_cursor() == 0,
            r.device_cursors() == (0usize, 0usize, 0usize),
    {
        let r = InterruptController {
            pending: vec![0u32; cores],
            ipi_payload: vec![0u32; cores],
            rr_input: 0,
            rr_sd: 0,
            rr_vga: 0,
            rr_sd2: 0,
            kb_inflight: None,
            uart_inflight: None,
        };
        assert(r.pending_view() =~= Seq::new(cores as nat, |i: int| 0u32));
        assert(r.payload_view() =~= Seq::new(cores as nat, |i: int| 0u32));
        r
    }

    pub fn num_cores(&self) -> (r: usize)
        requires
            self.wf(),
        ensures
            r == self.cores(),
    {
        self.pending.len()
    }

    /// ORs `bits` into the pending word of `core`.
    pub fn set_pending_bits(&mut self, core: usize, bits: u32)
        requires
            old(self).wf(),
            core < old(self).cores(),
        ensures
            final(self).wf(),
            final(self).cores() == old(self).cores(),
            final(self).pending_view() == old(self).pending_view().update(
                core as int,
                old(self).pending_view()[core as int] | bits,
            ),
            final(self).payload_view() == old(self).payload_view(),
            final(self).kb_holder() == old(self).kb_holder(),
            final(self).uart_holder() == old(self).uart_holder(),
            final(self).input_cursor() == old(self).input_cursor(),
            final(self).device_cursors() == old(self).device_cursors(),
    {
        let v = self.pending[core] | bits;
        self.pending.set(core, v);
    }

    /// Returns the pending word of `core` and clears it.
    pub fn take_pending(&mut self, core: usize) -> (r: u32)
        requires
            old(self).wf(),
            core < old(self).cores(),
        ensures
            final(self).wf(),
            final(self).cores() == old(self).cores(),
            r == old(self).pending_view()[core as int],
            final(self).pending_view() == old(self).pending_view().update(core as int, 0),
            final(self).payload_view() == old(self).payload_view(),
            final(self).kb_holder() == old(self).kb_holder(),
            final(self).uart_holder() == old(self).uart_holder(),
            final(self).input_cursor() == old(self).input_cursor(),
            final(self).device_cursors() == old(self).device_cursors(),
    {
        let v = self.pending[core];
        self.pending.set(core, 0);
        v
    }

    /// The IPI payload last sent to `core`.
    pub fn ipi_payload(&self, core: usize) -> (r: u32)
        requires
            self.wf(),
            core < self.cores(),
        ensures
            r == self.payload_view()[core as int],
    {
        self.ipi_payload[core]
    }

    /// Raises the keyboard (or, in UART mode, the UART) interrupt on the
    /// next core in turn, when input is waiting and no such interrupt is in
    /// flight; that core then holds it until it acknowledges.
    pub fn dispatch_input(&mut self, uart_mode: bool, io_nonempty: bool)
        requires
            old(self).wf(),
        ensures
            final(self).wf(),
            final(self).cores() == old(self).cores(),
            input_dispatched(*old(self), *final(self), uart_mode, io_nonempty),
    {
        if !io_nonempty {
            return;
        }
        let n = self.pending.len();
        let c = self.rr_input;
        if uart_mode {
            if self.uart_inflight.is_some() {
                return;
            }
            self.set_pending_bits(c, UART_INTERRUPT_BIT);
            self.uart_inflight = Some(c);
        } else {
            if self.kb_inflight.is_some() {
                return;
            }
            self.set_pending_bits(c, KB_INTERRUPT_BIT);
            self.kb_inflight = Some(c);
        }
        self.rr_input = if c + 1 >= n { 0 } else { c + 1 };
    }

    /// Raises each of the SD, display and second SD interrupts present in
    /// `bits` on one core, each device with its own round-robin cursor.
    pub fn dispatch_device_interrupts(&mut self, bits: u32)
        requires
            old(self).wf(),
        ensures
            final(self).wf(),
            final(self).cores() == old(self).cores(),
            devices_dispatched(*old(self), *final(self), bits),
    {
        let n = self.pending.len();
        if bits & SD_INTERRUPT_BIT != 0 {
            let c = self.rr_sd;
            self.set_pending_bits(c, SD_INTERRUPT_BIT);
            self.rr_sd = if c + 1 >= n { 0 } else { c + 1 };
        }
        if bits & VGA_INTERRUPT_BIT != 0 {
            let c = self.rr_vga;
            self.set_pending_bits(c, VGA_INTERRUPT_BIT);
            self.rr_vga = if c + 1 >= n { 0 } else { c + 1 };
        }
        if bits & SD2_INTERRUPT_BIT != 0 {
            let c = self.rr_sd2;
            self.set_pending_bits(c, SD2_INTERRUPT_BIT);
            self.rr_sd2 = if c + 1 >= n { 0 } else { c + 1 };
        }
    }

    /// Releases the keyboard or UART interrupt held by `core` when its
    /// software clears that bit in its ISR.
    pub fn ack_input(&mut self, core: usize, cleared_bits: u32)
        requires
            old(self).wf(),
        ensures
            final(self).wf(),
            final(self).cores() == old(self).cores(),
            final(self).pending_view() == old(self).pending_view(),
            final(self).payload_view() == old(self).payload_view(),
            final(self).input_cursor() == old(self).input_cursor(),
            final(self).device_cursors() == old(self).device_cursors(),
            final(self).kb_holder() == if cleared_bits & KB_INTERRUPT_BIT != 0 && old(self).kb_holder() == Some(core) {
                None
            } else {
                old(self).kb_holder()
            },
            final(self).uart_holder() == if cleared_bits & UART_INTERRUPT_BIT != 0 && old(self).uart_holder() == Some(core) {
                None
            } else {
                old(self).uart_holder()
            },
    {
        if cleared_bits & KB_INTERRUPT_BIT != 0 && self.kb_inflight == Some(core) {
            self.kb_inflight = None;
        }
        if cleared_bits & UART_INTERRUPT_BIT != 0 && self.uart_inflight == Some(core) {
            self.uart_inflight = None;
        }
    }

    /// Stores `payload` in the IPI slot of `target` and raises its IPI bit;
    /// false (and nothing done) when there is no such core.
    pub fn send_ipi(&mut self, target: usize, payload: u32) -> (r: bool)
        requires
            old(self).wf(),
        ensures
            final(self).wf(),
            final(self).cores() == old(self).cores(),
            r == (target < old(self).cores()),
            final(self).payload_view() == if r {
                old(self).payload_view().update(target as int, payload)
            } else {
                old(self).payload_view()
            },
            final(self).pending_view() == if r {
                old(self).pending_view().update(target as int, old(self).pending_view()[target as int] | IPI_INTERRUPT_BIT)
            } else {
                old(self).pending_view()
            },
            final(self).kb_holder() == old(self).kb_holder(),
            final(self).uart_holder() == old(self).uart_holder(),
            final(self).input_cursor() == old(self).input_cursor(),
            final(self).device_cursors() == old(self).device_cursors(),
    {
        if target >= self.pending.len() {
            return false;
        }
        self.ipi_payload.set(target, payload);
        self.set_pending_bits(target, IPI_INTERRUPT_BIT);
        true
    }

    /// Sends `payload` to every core but `sender`; returns the mask of the
    /// cores reached.
    pub fn send_ipi_all(&mut self, sender: usize, payload: u32) -> (r: u32)
        requires
            old(self).wf(),
        ensures
            final(self).wf(),
            final(self).cores() == old(self).cores(),
            forall|c: int| 0 <= c < old(self).cores() ==> #[trigger] final(self).payload_view()[c] == if c == sender {
                old(self).payload_view()[c]
            } else {
                payload
            },
            forall|c: int| 0 <= c < old(self).cores() ==> #[trigger] final(self).pending_view()[c] == if c == sender {
                old(self).pending_view()[c]
            } else {
                old(self).pending_view()[c] | IPI_INTERRUPT_BIT
            },
            r == broadcast_mask(old(self).cores() as u32, sender),
            final(self).cores() == old(self).cores(),
            final(self).kb_holder() == old(self).kb_holder(),
            final(self).uart_holder() == old(self).uart_holder(),
            final(self).input_cursor() == old(self).input_cursor(),
            final(self).device_cursors() == old(self).device_cursors(),
    {
        let n = self.pending.len();
        let mut c: usize = 0;
        assert(1u32 << (n as u32) >= 1) by (bit_vector)
            requires n as u32 <= 4;
        while c < n
            invariant
                self.wf(),
                n == self.cores(),
                self.cores() == old(self).cores(),
                c <= n,
                n <= 4,
                self.payload_view().len() == n,
                self.pending_view().len() == n,
                old(self).payload_view().len() == n,
                old(self).pending_view().len() == n,
                forall|k: int| 0 <= k < n ==> #[trigger] self.payload_view()[k] == if k < c && k != sender {
                    payload
                } else {
                    old(self).payload_view()[k]
                },
                forall|k: int| 0 <= k < n ==> #[trigger] self.pending_view()[k] == if k < c && k != sender {
                    old(self).pending_view()[k] | IPI_INTERRUPT_BIT
                } else {
                    old(self).pending_view()[k]
                },
                self.kb_holder() == old(self).kb_holder(),
                self.uart_holder() == old(self).uart_holder(),
                self.input_cursor() == old(self).input_cursor(),
                self.device_cursors() == old(self).device_cursors(),
            decreases n - c,
        {
            if c != sender {
                self.send_ipi(c, payload);
            }
            c += 1;
        }
        let all: u32 = (1u32 << (n as u32)) - 1;
        if sender < n {
            all & !(1u32 << (sender as u32))
        } else {
            all
        }
    }
}

/// Setting pending bits keeps every bit already pending on every core and
/// adds `bits` on `core`: a later `take_pending(core)` returns all the bits
/// set since the previous take.
pub proof fn lemma_pending_accumulates(before: &InterruptController, after: &InterruptController, core: int, bits: u32)
    requires
        0 <= core < before.cores(),
        after.pending_view() == before.pending_view().update(core, before.pending_view()[core] | bits),
    ensures
        forall|c: int| 0 <= c < before.cores() ==> #[trigger] after.pending_view()[c] & before.pending_view()[c]
            == before.pending_view()[c],
        after.pending_view()[core] & bits == bits,
{
    assert forall|c: int| 0 <= c < before.cores() implies #[trigger] after.pending_view()[c] & before.pending_view()[c]
        == before.pending_view()[c] by {
        let p = before.pending_view()[c];
        assert((p | bits) & p == p) by (bit_vector);
        assert(p & p == p) by (bit_vector);
    }
    let p = before.pending_view()[core];
    assert((p | bits) & bits == bits) by (bit_vector);
}

/// Over any run of `set_pending_bits` calls (on any cores, `cores[i]`,
/// `bits[i]`) with no take in between, the pending word of each core keeps
/// every bit ever set on it: a later `take_pending` returns them all.
pub proof fn lemma_pending_accumulates_run(ics: Seq<InterruptController>, cores: Seq<int>, bits: Seq<u32>, core: int)
    requires
        ics.len() == cores.len() + 1,
        bits.len() == cores.len(),
        forall|i: int| 0 <= i < ics.len() ==> (#[trigger] ics[i]).wf() && ics[i].cores() == ics[0].cores(),
        0 <= core < ics[0].cores(),
        forall|i: int| 0 <= i < cores.len() ==> 0 <= #[trigger] cores[i] < ics[0].cores(),
        forall|i: int| 0 <= i < cores.len() ==> (#[trigger] ics[i + 1]).pending_view() == ics[i].pending_view().update(
            cores[i],
            ics[i].pending_view()[cores[i]] | bits[i],
        ),
    ensures
        forall|i: int| 0 <= i < cores.len() && cores[i] == core ==> ics.last().pending_view()[core] & #[trigger] bits[i]
            == bits[i],
        ics.last().pending_view()[core] & ics[0].pending_view()[core] == ics[0].pending_view()[core],
    decreases cores.len(),
{
    ics[0].lemma_lengths();
    let p0 = ics[0].pending_view()[core];
    assert(p0 & p0 == p0) by (bit_vector);
    if cores.len() > 0 {
        let n = cores.len() - 1;
        let prev = ics.drop_last();
        assert forall|i: int| 0 <= i < n implies (#[trigger] prev[i + 1]).pending_view() == prev[i].pending_view().update(
            cores.drop_last()[i],
            prev[i].pending_view()[cores.drop_last()[i]] | bits.drop_last()[i],
        ) by {
            assert(prev[i + 1] == ics[i + 1] && prev[i] == ics[i]);
        }
        assert forall|i: int| 0 <= i < prev.len() implies (#[trigger] prev[i]).wf() && prev[i].cores() == prev[0].cores() by {
            assert(prev[i] == ics[i]);
        }
        assert forall|i: int| 0 <= i < n implies 0 <= #[trigger] cores.drop_last()[i] < prev[0].cores() by {
            assert(cores.drop_last()[i] == cores[i]);
        }
        lemma_pending_accumulates_run(prev, cores.drop_last(), bits.drop_last(), core);
        let p = ics[n].pending_view()[core];
        let q = ics[n + 1].pending_view()[core];
        assert(ics[n] == prev.last());
        assert(ics[n + 1] == ics.last());
        ics[n].lemma_lengths();
        ics[n + 1].lemma_lengths();
        assert(q == if cores[n] == core { p | bits[n] } else { p });
        assert(forall|x: u32, y: u32, z: u32| x & z == z ==> (x | y) & z == z) by (bit_vector);
        assert(forall|x: u32, y: u32| (x | y) & y == y) by (bit_vector);
        assert forall|i: int| 0 <= i < cores.len() && cores[i] == core implies q & #[trigger] bits[i] == bits[i] by {
            if i < n {
                assert(bits.drop_last()[i] == bits[i] && cores.drop_last()[i] == cores[i]);
                assert(p & bits[i] == bits[i]);
            }
        }
    }
}

} // verus!
