//! SD DMA engines: a block of six little-endian word registers on the bus
//! (MEM_ADDR, SD_BLOCK, LEN, CTRL, STATUS, ERR) and a card image. Setting
//! CTRL.START launches a transfer between memory and the card, one word
//! every few ticks; STATUS reports BUSY, then DONE (and ERR on failure).
use vstd::prelude::*;

use crate::memory::{first_error, is_storage, read_chain, word_addrs, write_chain, BusError, Memory};

verus! {

/// Register blocks of the two engines.
pub const SD0_DMA: u32 = 0x07FE_5810;
pub const SD1_DMA: u32 = 0x07FE_5828;

pub const DMA_MEM_ADDR: u32 = 0x00;
pub const DMA_SD_BLOCK: u32 = 0x04;
pub const DMA_LEN: u32 = 0x08;
pub const DMA_CTRL: u32 = 0x0C;
pub const DMA_STATUS: u32 = 0x10;
pub const DMA_ERR: u32 = 0x14;

pub const CTRL_START: u32 = 0x1;
pub const CTRL_DIR_RAM_TO_SD: u32 = 0x2;
pub const CTRL_IRQ_EN: u32 = 0x4;

pub const STATUS_BUSY: u32 = 0x1;
pub const STATUS_DONE: u32 = 0x2;
pub const STATUS_ERR: u32 = 0x4;

/// ERR codes.
pub const DMA_ERR_NONE: u32 = 0;
pub const DMA_ERR_BUSY: u32 = 1;
pub const DMA_ERR_ZERO_LEN: u32 = 2;
pub const DMA_ERR_RANGE: u32 = 3;

pub const SD_BLOCK_BYTES: u32 = 512;

/// How a START request is answered: `Err(code)` or the aligned transfer
/// (memory address, card offset, length).
pub open spec fn start_spec(busy: bool, mem_addr: u32, block: u32, len: u32) -> Result<(u32, int, u32), u32> {
    let aligned_len = len & 0xFFFF_FFFC;
    if busy {
        Err(DMA_ERR_BUSY)
    } else if aligned_len == 0 {
        Err(DMA_ERR_ZERO_LEN)
    } else {
        Ok((mem_addr & 0xFFFF_FFFC, block as int * SD_BLOCK_BYTES as int, aligned_len))
    }
}

/// The four card bytes from offset `sd`, zero past the end of the image.
pub open spec fn card_word(image: Seq<u8>, sd: int) -> Seq<u8> {
    Seq::new(4, |k: int| if sd + k < image.len() { image[sd + k] } else { 0u8 })
}

/// Four card bytes from `sd`, zero past the end of the image.
fn get_word(storage: &Vec<u8>, sd: usize) -> (r: Vec<u8>)
    requires
        sd <= 0x7FFF_FFFF,
    ensures
        r@ == card_word(storage@, sd as int),
{
    let mut data: Vec<u8> = Vec::new();
    let mut k: usize = 0;
    while k < 4
        invariant
            k <= 4,
            data@.len() == k,
            sd <= 0x7FFF_FFFF,
            forall|j: int| 0 <= j < k ==> #[trigger] data@[j] == if sd + j < storage@.len() { storage@[sd + j] } else { 0u8 },
        decreases 4 - k,
    {
        data.push(if sd + k < storage.len() { storage[sd + k] } else { 0 });
        k += 1;
    }
    assert(data@ =~= card_word(storage@, sd as int));
    data
}

/// Writes `bytes` (four) at card offset `sd`, growing the image with zeros
/// when needed; false, with nothing written, when the image would exceed
/// `u32::MAX` bytes.
fn put_word(storage: &mut Vec<u8>, sd: usize, bytes: &Vec<u8>) -> (r: bool)
    requires
        old(storage)@.len() <= u32::MAX,
        sd <= 0x7FFF_FFFF,
        bytes@.len() == 4,
    ensures
        final(storage)@.len() <= u32::MAX,
        r,
        final(storage)@.len() >= sd + 4,
        r ==> forall|k: int| 0 <= k < 4 ==> #[trigger] final(storage)@[sd + k] == bytes@[k],
        r ==> forall|j: int| 0 <= j < old(storage)@.len() && !(sd <= j < sd + 4) ==> #[trigger] final(storage)@[j] == old(storage)@[j],
        !r ==> final(storage)@ == old(storage)@,
{
    while storage.len() < sd + 4
        invariant
            storage@.len() <= sd + 4 || storage@.len() == old(storage)@.len(),
            storage@.len() >= old(storage)@.len(),
            storage@.len() <= u32::MAX,
            sd <= 0x7FFF_FFFF,
            forall|j: int| 0 <= j < old(storage)@.len() ==> #[trigger] storage@[j] == old(storage)@[j],
        decreases sd + 4 - storage@.len(),
    {
        storage.push(0);
    }
    let mut k: usize = 0;
    while k < 4
        invariant
            k <= 4,
            bytes@.len() == 4,
            storage@.len() >= sd + 4,
            storage@.len() >= old(storage)@.len(),
            storage@.len() <= u32::MAX,
            sd <= 0x7FFF_FFFF,
            forall|j: int| 0 <= j < k ==> #[trigger] storage@[sd + j] == bytes@[j],
            forall|j: int| 0 <= j < old(storage)@.len() && !(sd <= j < sd + 4) ==> #[trigger] storage@[j] == old(storage)@[j],
        decreases 4 - k,
    {
        storage.set(sd + k, bytes[k]);
        k += 1;
    }
    true
}

/// One tick of an engine from `prev` (bus `m0`) to `next` (bus `m1`): a
/// START request in CTRL is taken and START cleared; else a busy engine
/// counts down, and at zero moves a word (see `SdDma::moved`), stopping with
/// a range error when the word cannot move.
pub open spec fn dma_tick_effect(prev: SdDma, next: SdDma, m0: Memory, m1: Memory) -> bool {
    let b = prev.register_base();
    let ctrl = m0.word((b + DMA_CTRL) as u32);
    if ctrl & CTRL_START != 0 {
        &&& m1.word((b + DMA_CTRL) as u32) == ctrl & !CTRL_START
        &&& match start_spec(
            prev.is_busy(),
            m0.word(b),
            m0.word((b + DMA_SD_BLOCK) as u32),
            m0.word((b + DMA_LEN) as u32),
        ) {
            Err(code) => m1.word((b + DMA_ERR) as u32) == code
                && m1.word((b + DMA_STATUS) as u32) == (if prev.is_busy() { STATUS_BUSY } else { 0 })
                | STATUS_DONE | STATUS_ERR,
            Ok((_, _, len)) => next.is_busy() && next.remaining_bytes() == len
                && m1.word((b + DMA_STATUS) as u32) == STATUS_BUSY,
        }
    } else if !prev.is_busy() {
        m1.unchanged(&m0) && next == prev
    } else if prev.countdown_of() > 0 {
        m1.unchanged(&m0) && next == prev.counted_down()
    } else {
        let ok = prev.remaining_bytes() >= 4 && prev.cursors().0 <= u32::MAX - 3
            && prev.cursors().1 <= 0x7FFF_FFFF
            && first_error(word_addrs(prev.cursors().0), !prev.to_card()) is None;
        &&& ok ==> prev.moved(&next, m0, m1)
        &&& !ok ==> next.failed(m1)
    }
}

pub struct SdDma {
    base: u32,
    irq_bit: u32,
    storage: Vec<u8>,
    busy: bool,
    to_sd: bool,
    irq: bool,
    mem_cursor: u32,
    sd_cursor: u64,
    remaining: u32,
    countdown: u32,
    ticks_per_word: u32,
}

impl SdDma {
    pub closed spec fn wf(&self) -> bool {
        &&& self.base as int + 0x18 <= crate::memory::FRAME_BUFFER_START
            || (self.base == SD0_DMA || self.base == SD1_DMA)
        &&& self.remaining % 4 == 0
        &&& self.sd_cursor <= u64::MAX / 2
        &&& self.storage@.len() <= u32::MAX
    }

    pub closed spec fn is_busy(&self) -> bool {
        self.busy
    }

    pub closed spec fn remaining_bytes(&self) -> u32 {
        self.remaining
    }

    pub closed spec fn image(&self) -> Seq<u8> {
        self.storage@
    }

    pub closed spec fn register_base(&self) -> u32 {
        self.base
    }

    /// Ticks left before the next word moves.
    pub closed spec fn countdown_of(&self) -> u32 {
        self.countdown
    }

    /// The next memory address and card offset of the transfer.
    pub closed spec fn cursors(&self) -> (u32, u64) {
        (self.mem_cursor, self.sd_cursor)
    }

    /// Whether the transfer goes from memory to the card.
    pub closed spec fn to_card(&self) -> bool {
        self.to_sd
    }

    /// Whether the transfer raises its interrupt when done, and which bit.
    pub closed spec fn irq_of(&self) -> (bool, u32) {
        (self.irq, self.irq_bit)
    }

    pub closed spec fn pacing(&self) -> u32 {
        self.ticks_per_word
    }

    /// The engine after one tick of waiting.
    pub closed spec fn counted_down(&self) -> SdDma {
        SdDma { countdown: (self.countdown - 1) as u32, ..*self }
    }

    /// The transfer stopped with a range error.
    pub open spec fn failed(&self, m: Memory) -> bool {
        &&& !self.is_busy()
        &&& m.word((self.register_base() + DMA_ERR) as u32) == DMA_ERR_RANGE
        &&& m.word((self.register_base() + DMA_STATUS) as u32) == STATUS_DONE | STATUS_ERR
    }

    /// One word moved from `self` (with memory `m0`) to `next` (with `m1`):
    /// from the card (zero past its image) into memory, or from memory into
    /// the card image, both cursors advancing by four; after the last word
    /// the engine is idle with STATUS DONE and its interrupt raised if asked.
    pub open spec fn moved(&self, next: &SdDma, m0: Memory, m1: Memory) -> bool {
        let (mc, sc) = self.cursors();
        let pas = word_addrs(mc);
        let sd = sc as int;
        let b = self.register_base();
        &&& next.register_base() == b
        &&& next.cursors() == ((mc + 4) as u32, (sc + 4) as u64)
        &&& next.remaining_bytes() == self.remaining_bytes() - 4
        &&& next.countdown_of() == self.pacing()
        &&& next.pacing() == self.pacing()
        &&& next.to_card() == self.to_card()
        &&& next.irq_of() == self.irq_of()
        &&& if self.to_card() {
            exists|mr: Memory, bytes: Seq<u8>| {
                &&& #[trigger] read_chain(m0, mr, pas, bytes)
                &&& next.image().len() >= sd + 4
                &&& forall|k: int| 0 <= k < 4 ==> #[trigger] next.image()[sd + k] == bytes[k]
                &&& forall|j: int| 0 <= j < self.image().len() && !(sd <= j < sd + 4) ==> #[trigger] next.image()[j] == self.image()[j]
                &&& next.is_busy() ==> m1 == mr
            }
        } else {
            &&& next.image() == self.image()
            &&& exists|mw: Memory| #[trigger] write_chain(m0, mw, pas, card_word(self.image(), sd)) && (next.is_busy() ==> m1 == mw)
        }
        &&& if next.remaining_bytes() == 0 {
            &&& !next.is_busy()
            &&& m1.word((b + DMA_STATUS) as u32) == STATUS_DONE
            &&& self.irq_of().0 ==> m1.pending() & self.irq_of().1 == self.irq_of().1
        } else {
            next.is_busy()
        }
    }

    /// An idle engine with registers at `base` raising `irq_bit`, moving a
    /// word every `ticks_per_word + 1` ticks.
    pub fn new(base: u32, irq_bit: u32, ticks_per_word: u32) -> (r: SdDma)
        requires
            base == SD0_DMA || base == SD1_DMA,
        ensures
            r.wf(),
            !r.is_busy(),
            r.image() == Seq::<u8>::empty(),
            r.register_base() == base,
    {
        SdDma {
            base,
            irq_bit,
            storage: Vec::new(),
            busy: false,
            to_sd: false,
            irq: false,
            mem_cursor: 0,
            sd_cursor: 0,
            remaining: 0,
            countdown: 0,
            ticks_per_word,
        }
    }

    /// Loads the card image.
    pub fn load_sd_image(&mut self, bytes: Vec<u8>)
        requires
            old(self).wf(),
            bytes@.len() <= u32::MAX,
        ensures
            final(self).wf(),
            final(self).image() == bytes@,
            final(self).is_busy() == old(self).is_busy(),
            final(self).register_base() == old(self).register_base(),
    {
        self.storage = bytes;
    }

    /// The card image.
    pub fn sd_image(&self) -> (r: &Vec<u8>)
        ensures
            r@ == self.image(),
    {
        &self.storage
    }

    fn reg(&self, mem: &Memory, off: u32) -> (r: u32)
        requires
            self.wf(),
            mem.wf(),
            off <= DMA_ERR,
            self.base == SD0_DMA || self.base == SD1_DMA,
        ensures
            r == mem.word((self.base + off) as u32),
    {
        mem.word_at(self.base + off)
    }

    fn set_reg(&self, mem: &mut Memory, off: u32, v: u32)
        requires
            old(mem).wf(),
            off <= DMA_ERR,
            self.base == SD0_DMA || self.base == SD1_DMA,
        ensures
            final(mem).wf(),
            final(mem).input() == old(mem).input(),
            final(mem).pending() == old(mem).pending(),
            final(mem).word((self.base + off) as u32) == v,
            forall|x: u32| !(self.base + off <= x <= self.base + off + 3) ==> #[trigger] final(mem).peek(x) == old(mem).peek(x),
    {
        let a = self.base + off;
        proof {
            assert(forall|i: int| 0 <= i < 4 ==> is_storage(#[trigger] word_addrs(a)[i]));
            crate::memory::lemma_storage_word_no_error(a);
        }
        let _ = mem.write32(a, v);
        proof {
            crate::memory::lemma_word_round_trip(mem, a, v);
        }
    }

    /// Handles a START request found in CTRL: clears START and either
    /// reports an error (ERR code, STATUS with DONE and ERR) or launches the
    /// transfer (STATUS BUSY, ERR cleared).
    fn start(&mut self, mem: &mut Memory, ctrl: u32)
        requires
            old(self).wf(),
            old(mem).wf(),
            old(self).base == SD0_DMA || old(self).base == SD1_DMA,
        ensures
            final(self).wf(),
            final(mem).wf(),
            final(self).base == old(self).base,
            final(mem).input() == old(mem).input(),
            final(mem).pending() == old(mem).pending(),
            final(self).image() == old(self).image(),
            final(mem).word((old(self).base + DMA_CTRL) as u32) == old(mem).word((old(self).base + DMA_CTRL) as u32),
            ({
                let b = old(self).base;
                let req = start_spec(
                    old(self).busy,
                    old(mem).word(b),
                    old(mem).word((b + DMA_SD_BLOCK) as u32),
                    old(mem).word((b + DMA_LEN) as u32),
                );
                match req {
                    Err(code) => {
                        &&& final(self).busy == old(self).busy
                        &&& final(self).remaining == old(self).remaining
                        &&& final(mem).word((b + DMA_ERR) as u32) == code
                        &&& final(mem).word((b + DMA_STATUS) as u32) == (if old(self).busy { STATUS_BUSY } else { 0 })
                            | STATUS_DONE | STATUS_ERR
                    },
                    Ok((ma, so, len)) => {
                        &&& final(self).busy
                        &&& final(self).remaining == len
                        &&& final(self).mem_cursor == ma
                        &&& final(self).sd_cursor == so
                        &&& final(self).to_sd == (ctrl & CTRL_DIR_RAM_TO_SD != 0)
                        &&& final(self).irq == (ctrl & CTRL_IRQ_EN != 0)
                        &&& final(mem).word((b + DMA_ERR) as u32) == DMA_ERR_NONE
                        &&& final(mem).word((b + DMA_STATUS) as u32) == STATUS_BUSY
                    },
                }
            }),
    {
        let ghost m0 = *mem;
        let mem_addr = self.reg(&*mem, DMA_MEM_ADDR);
        let ghost m1 = *mem;
        let block = self.reg(&*mem, DMA_SD_BLOCK);
        let ghost m2 = *mem;
        let len = self.reg(&*mem, DMA_LEN);
        proof {
            assert(block == m0.word((self.base + DMA_SD_BLOCK) as u32));
            assert(len == m0.word((self.base + DMA_LEN) as u32));
        }
        let aligned_len = len & 0xFFFF_FFFC;
        if self.busy || aligned_len == 0 {
            let code = if self.busy { DMA_ERR_BUSY } else { DMA_ERR_ZERO_LEN };
            let status = (if self.busy { STATUS_BUSY } else { 0 }) | STATUS_DONE | STATUS_ERR;
            self.set_reg(mem, DMA_ERR, code);
            self.set_reg(mem, DMA_STATUS, status);
            return;
        }
        assert(aligned_len % 4 == 0) by (bit_vector)
            requires aligned_len == len & 0xFFFF_FFFC;
        self.busy = true;
        self.to_sd = ctrl & CTRL_DIR_RAM_TO_SD != 0;
        self.irq = ctrl & CTRL_IRQ_EN != 0;
        self.mem_cursor = mem_addr & 0xFFFF_FFFC;
        self.sd_cursor = block as u64 * SD_BLOCK_BYTES as u64;
        self.remaining = aligned_len;
        self.countdown = self.ticks_per_word;
        self.set_reg(mem, DMA_ERR, DMA_ERR_NONE);
        self.set_reg(mem, DMA_STATUS, STATUS_BUSY);
    }

    /// Ends the transfer with an error.
    fn fail(&mut self, mem: &mut Memory)
        requires
            old(self).wf(),
            old(mem).wf(),
            old(self).base == SD0_DMA || old(self).base == SD1_DMA,
        ensures
            final(self).wf(),
            final(mem).wf(),
            final(self).base == old(self).base,
            final(self).image() == old(self).image(),
            !final(self).busy,
            final(mem).input() == old(mem).input(),
            final(mem).word((old(self).base + DMA_ERR) as u32) == DMA_ERR_RANGE,
            final(mem).word((old(self).base + DMA_STATUS) as u32) == STATUS_DONE | STATUS_ERR,
    {
        self.busy = false;
        self.remaining = 0;
        self.set_reg(mem, DMA_ERR, DMA_ERR_RANGE);
        self.set_reg(mem, DMA_STATUS, STATUS_DONE | STATUS_ERR);
    }

    /// Moves one word between memory and the card and, after the last,
    /// reports DONE and raises the interrupt if CTRL asked for it. Card
    /// bytes past the end of the image read as zero; writing past it grows
    /// the image.
    fn transfer_word(&mut self, mem: &mut Memory)
        requires
            old(self).wf(),
            old(mem).wf(),
            old(self).busy,
            old(self).remaining >= 4,
            old(self).base == SD0_DMA || old(self).base == SD1_DMA,
        ensures
            final(self).wf(),
            final(mem).wf(),
            final(self).base == old(self).base,
            final(self).image().len() <= u32::MAX,
            ({
                let ok = old(self).mem_cursor <= u32::MAX - 3 && old(self).sd_cursor <= 0x7FFF_FFFF
                    && first_error(word_addrs(old(self).mem_cursor), !old(self).to_sd) is None;
                &&& ok ==> old(self).moved(&*final(self), *old(mem), *final(mem))
                &&& !ok ==> final(self).failed(*final(mem))
            }),
    {
        if self.mem_cursor > u32::MAX - 3 || self.sd_cursor > 0x7FFF_FFFF {
            self.fail(mem);
            return;
        }
        let mut pas: Vec<u32> = Vec::new();
        pas.push(self.mem_cursor);
        pas.push(self.mem_cursor + 1);
        pas.push(self.mem_cursor + 2);
        pas.push(self.mem_cursor + 3);
        let sd = self.sd_cursor as usize;
        assert(pas@ =~= word_addrs(self.mem_cursor));
        let ghost mut mid = *mem;
        let ghost mut bv: Seq<u8> = Seq::empty();
        if self.to_sd {
            let bytes = match mem.read_phys_bytes(&pas) {
                Ok(b) => b,
                Err(_) => {
                    self.fail(mem);
                    return;
                },
            };
            proof {
                mid = *mem;
                bv = bytes@;
            }
            if !put_word(&mut self.storage, sd, &bytes) {
                self.fail(mem);
                return;
            }
        } else {
            let data = get_word(&self.storage, sd);
            match mem.write_phys_bytes(&pas, &data) {
                Ok(()) => {},
                Err(_) => {
                    self.fail(mem);
                    return;
                },
            }
            proof {
                mid = *mem;
            }
        }
        proof {
            if old(self).to_sd {
                assert(read_chain(*old(mem), mid, word_addrs(old(self).cursors().0), bv));
            } else {
                assert(write_chain(*old(mem), mid, word_addrs(old(self).cursors().0), card_word(old(self).image(), old(self).cursors().1 as int)));
            }
        }
        self.mem_cursor = self.mem_cursor + 4;
        self.sd_cursor = self.sd_cursor + 4;
        self.remaining = self.remaining - 4;
        self.countdown = self.ticks_per_word;
        if self.remaining == 0 {
            self.busy = false;
            self.set_reg(mem, DMA_STATUS, STATUS_DONE);
            if self.irq {
                let ghost p = mem.pending();
                mem.raise_interrupts(self.irq_bit);
                let b = self.irq_bit;
                assert((p | b) & b == b) by (bit_vector);
            }
        }
    }

    /// One tick of the engine: a START request in CTRL is taken (START is
    /// cleared); else a busy engine counts down, and at zero moves a word
    /// (see `moved`), stopping with a range error when the word cannot move.
    pub fn tick(&mut self, mem: &mut Memory)
        requires
            old(self).wf(),
            old(mem).wf(),
            old(self).register_base() == SD0_DMA || old(self).register_base() == SD1_DMA,
        ensures
            final(self).wf(),
            final(mem).wf(),
            final(self).register_base() == old(self).register_base(),
            dma_tick_effect(*old(self), *final(self), *old(mem), *final(mem)),
    {
        let ctrl = self.reg(&*mem, DMA_CTRL);
        if ctrl & CTRL_START != 0 {
            let ghost m0 = *mem;
            self.set_reg(mem, DMA_CTRL, ctrl & !CTRL_START);
            let ghost m1 = *mem;
            proof {
                let b = self.base;
                assert(m1.word(b) == old(mem).word(b));
                assert(m1.word((b + DMA_SD_BLOCK) as u32) == old(mem).word((b + DMA_SD_BLOCK) as u32));
                assert(m1.word((b + DMA_LEN) as u32) == old(mem).word((b + DMA_LEN) as u32));
            }
            self.start(mem, ctrl);
            return;
        }
        proof {
            crate::memory::lemma_unchanged_refl(mem);
        }
        if !self.busy {
            return;
        }
        if self.countdown > 0 {
            self.countdown = self.countdown - 1;
            return;
        }
        if self.remaining < 4 {
            self.fail(mem);
            return;
        }
        self.transfer_word(mem);
    }
}

} // verus!
