//! Physical memory and the memory-mapped device bus.
use std::collections::HashMap;
use std::collections::VecDeque;
use vstd::prelude::*;

use crate::sdcard::{SdCard, SD_BLOCK_SIZE, SD_CMD_BUF_LEN};
use crate::video::{FrameBuffer, SpriteMap, TileMap, FRAME_HEIGHT, FRAME_WIDTH, SPRITE_SIZE, TILE_SIZE};

verus! {

broadcast use vstd::std_specs::hash::group_hash_axioms;

/// Highest physical address.
pub const PHYSMEM_MAX: u32 = 0x07FF_FFFF;

/// Interrupt bits raised by devices (ISR bit numbers).
pub const TIMER_INTERRUPT_BIT: u32 = 1 << 0;
pub const KB_INTERRUPT_BIT: u32 = 1 << 1;
pub const UART_INTERRUPT_BIT: u32 = 1 << 2;
pub const SD_INTERRUPT_BIT: u32 = 1 << 3;
pub const VGA_INTERRUPT_BIT: u32 = 1 << 4;
pub const IPI_INTERRUPT_BIT: u32 = 1 << 5;

pub const FRAME_BUFFER_START: u32 = 0x07FC_0000;
/// 320 x 240 pixels of two bytes.
pub const FRAME_BUFFER_SIZE: u32 = 0x2_5800;

pub const PS2_STREAM: u32 = 0x07FE_5800;
pub const UART_TX: u32 = 0x07FE_5802;
pub const UART_RX: u32 = 0x07FE_5803;
pub const PIT_START: u32 = 0x07FE_5804;

pub const SD_SEND_BYTE: u32 = 0x07FE_58F9;
pub const SD_CMD_BUF: u32 = 0x07FE_58FA;
pub const SD_BUF_START: u32 = 0x07FE_5900;

/// Four bytes per sprite: x low, x high, y low, y high.
pub const SPRITE_REGISTERS_START: u32 = 0x07FE_5B00;
pub const SPRITE_REGISTERS_SIZE: u32 = 0x40;

pub const H_SCROLL_START: u32 = 0x07FE_5B40;
pub const V_SCROLL_START: u32 = 0x07FE_5B42;
/// Each pixel is repeated 2^n times.
pub const SCALE_REGISTER_START: u32 = 0x07FE_5B44;
pub const VGA_MODE_REGISTER_START: u32 = 0x07FE_5B45;
pub const VGA_STATUS_REGISTER_START: u32 = 0x07FE_5B46;
pub const VGA_FRAME_REGISTER_START: u32 = 0x07FE_5B48;
/// Clock divider: instructions run once every divider + 1 ticks.
pub const CLK_REG_START: u32 = 0x07FE_5B4C;

pub const TILE_MAP_START: u32 = 0x07FE_8000;
pub const TILE_MAP_SIZE: u32 = 0x8000;

pub const SPRITE_MAP_START: u32 = 0x07FF_0000;
pub const SPRITE_MAP_SIZE: u32 = 0x8000;

/// A bus access that a program image should never make.
#[derive(Clone, Copy, Debug, PartialEq, Eq, Structural)]
pub enum BusError {
    BadPhysicalAddress(u32),
    WriteToReadOnly(u32),
    ReadFromWriteOnly(u32),
}

/// What `addr` holds at boot when the program image is `image`: the sprite
/// pixels are transparent (0xFF), every other device byte is zero, and
/// plain memory holds the image (zero where it has nothing).
pub open spec fn boot_value(image: Map<u32, u8>, addr: u32) -> u8 {
    if SPRITE_MAP_START <= addr < SPRITE_MAP_START + SPRITE_MAP_SIZE {
        0xFF
    } else if (TILE_MAP_START <= addr < TILE_MAP_START + TILE_MAP_SIZE)
        || (FRAME_BUFFER_START <= addr < FRAME_BUFFER_START + FRAME_BUFFER_SIZE) || addr == SD_SEND_BYTE
        || (SPRITE_REGISTERS_START <= addr < SPRITE_REGISTERS_START + SPRITE_REGISTERS_SIZE)
        || (H_SCROLL_START <= addr < H_SCROLL_START + 4) || addr == SCALE_REGISTER_START
        || addr == VGA_MODE_REGISTER_START || addr == VGA_STATUS_REGISTER_START
        || (VGA_FRAME_REGISTER_START <= addr < VGA_FRAME_REGISTER_START + 4) || (PIT_START <= addr < PIT_START + 4) {
        0
    } else if image.contains_key(addr) {
        image[addr]
    } else {
        0
    }
}

/// The error, if any, that a write of any byte to `addr` meets.
pub open spec fn write_error(addr: u32) -> Option<BusError> {
    if addr > PHYSMEM_MAX {
        Some(BusError::BadPhysicalAddress(addr))
    } else if addr == PS2_STREAM || addr == UART_RX || addr == VGA_STATUS_REGISTER_START
        || (VGA_FRAME_REGISTER_START <= addr < VGA_FRAME_REGISTER_START + 4) {
        Some(BusError::WriteToReadOnly(addr))
    } else {
        None
    }
}

/// The error, if any, that a read of `addr` meets.
pub open spec fn read_error(addr: u32) -> Option<BusError> {
    if addr > PHYSMEM_MAX {
        Some(BusError::BadPhysicalAddress(addr))
    } else if addr == UART_TX {
        Some(BusError::ReadFromWriteOnly(addr))
    } else {
        None
    }
}

/// Addresses whose reads consume keyboard or UART input.
pub open spec fn is_input_port(addr: u32) -> bool {
    addr == PS2_STREAM || addr == PS2_STREAM + 1 || addr == UART_RX
}

/// Addresses that hold what was last written to them: everything readable
/// and writable that is neither an input port, the UART output nor an SD
/// card register.
pub open spec fn is_storage(addr: u32) -> bool {
    &&& addr <= PHYSMEM_MAX
    &&& write_error(addr) is None
    &&& read_error(addr) is None
    &&& !is_input_port(addr)
    &&& addr != UART_TX
    &&& addr != SD_SEND_BYTE
    &&& !(SD_CMD_BUF <= addr < SD_CMD_BUF + SD_CMD_BUF_LEN)
    &&& !(SD_BUF_START <= addr < SD_BUF_START + SD_BLOCK_SIZE)
}

/// Little-endian composition of two bytes.
pub open spec fn le16(b0: u8, b1: u8) -> u16 {
    (b0 as u16) | ((b1 as u16) << 8u16)
}

/// Little-endian composition of four bytes.
pub open spec fn le32(b0: u8, b1: u8, b2: u8, b3: u8) -> u32 {
    (b0 as u32) | ((b1 as u32) << 8u32) | ((b2 as u32) << 16u32) | ((b3 as u32) << 24u32)
}

/// Byte `i` (0 least significant) of `v`.
pub open spec fn byte_of(v: u32, i: u32) -> u8 {
    ((v >> ((8 * i) as u32)) & 0xFF) as u8
}

/// The four bytes of `v`, least significant first.
pub open spec fn word_bytes(v: u32) -> Seq<u8> {
    seq![byte_of(v, 0), byte_of(v, 1), byte_of(v, 2), byte_of(v, 3)]
}

/// The addresses of the word at `a`.
pub open spec fn word_addrs(a: u32) -> Seq<u32> {
    seq![a, (a + 1) as u32, (a + 2) as u32, (a + 3) as u32]
}

/// Splitting a word into its bytes and composing them gives the word back.
pub proof fn lemma_le32_bytes(v: u32)
    ensures
        le32(byte_of(v, 0), byte_of(v, 1), byte_of(v, 2), byte_of(v, 3)) == v,
{
    assert((((v >> 0u32) & 0xFF) as u8 as u32) | ((((v >> 8u32) & 0xFF) as u8 as u32) << 8u32)
        | ((((v >> 16u32) & 0xFF) as u8 as u32) << 16u32) | ((((v >> 24u32) & 0xFF) as u8 as u32) << 24u32) == v)
        by (bit_vector);
}

/// The first error met by accesses to `addrs` in order, reading or writing.
pub open spec fn first_error(addrs: Seq<u32>, write: bool) -> Option<BusError>
    decreases addrs.len(),
{
    if addrs.len() == 0 {
        None
    } else {
        let e = if write { write_error(addrs[0]) } else { read_error(addrs[0]) };
        if e is Some { e } else { first_error(addrs.drop_first(), write) }
    }
}

pub struct Memory {
    ram: HashMap<u32, u8>,
    frame_buffer: FrameBuffer,
    tile_map: TileMap,
    io_buffer: VecDeque<u16>,
    vscroll_register: (u8, u8),
    hscroll_register: (u8, u8),
    scale_register: u8,
    vga_mode_register: u8,
    vga_status_register: u8,
    vga_frame_register: (u8, u8, u8, u8),
    pit: (u8, u8, u8, u8),
    sprite_map: SpriteMap,
    sd_card: SdCard,
    pending_interrupt: u32,
    use_uart_rx: bool,
    uart_out: Vec<u8>,
}


impl Memory {
    pub closed spec fn wf(&self) -> bool {
        &&& self.frame_buffer.wf()
        &&& self.frame_buffer.bytes().len() == FRAME_WIDTH * FRAME_HEIGHT
        &&& self.tile_map.wf()
        &&& self.tile_map.tiles@.len() == TILE_MAP_SIZE / TILE_SIZE
        &&& self.sprite_map.wf()
        &&& self.sprite_map.sprites@.len() == SPRITE_MAP_SIZE / SPRITE_SIZE
        &&& self.sd_card.wf()
    }

    /// The byte of plain memory at `a` (zero where nothing was written).
    pub closed spec fn ram_byte(&self, a: u32) -> u8 {
        if self.ram@.contains_key(a) {
            self.ram@[a]
        } else {
            0
        }
    }

    /// Keyboard or UART input waiting to be read, oldest first.
    pub closed spec fn input(&self) -> Seq<u16> {
        self.io_buffer@
    }

    /// Bytes written to the UART so far and not yet taken.
    pub closed spec fn output(&self) -> Seq<u8> {
        self.uart_out@
    }

    /// Interrupt bits raised by devices and not yet taken.
    pub closed spec fn pending(&self) -> u32 {
        self.pending_interrupt
    }

    /// Whether input is read through the UART (else through the PS/2 port).
    pub closed spec fn uart_mode(&self) -> bool {
        self.use_uart_rx
    }

    /// The SD card behind the bus.
    pub closed spec fn sd(&self) -> SdCard {
        self.sd_card
    }

    /// What a read of `addr` yields, for every address but the input ports.
    pub closed spec fn peek(&self, addr: u32) -> u8 {
        if TILE_MAP_START <= addr < TILE_MAP_START + TILE_MAP_SIZE {
            self.tile_map.byte(addr - TILE_MAP_START)
        } else if FRAME_BUFFER_START <= addr < FRAME_BUFFER_START + FRAME_BUFFER_SIZE {
            self.frame_buffer.bytes()[addr - FRAME_BUFFER_START]
        } else if addr == SD_SEND_BYTE {
            if self.sd_card.busy { 1 } else { 0 }
        } else if SPRITE_MAP_START <= addr < SPRITE_MAP_START + SPRITE_MAP_SIZE {
            self.sprite_map.byte(addr - SPRITE_MAP_START)
        } else if SPRITE_REGISTERS_START <= addr < SPRITE_REGISTERS_START + SPRITE_REGISTERS_SIZE {
            self.sprite_map.reg(addr - SPRITE_REGISTERS_START)
        } else if addr == V_SCROLL_START {
            self.vscroll_register.0
        } else if addr == V_SCROLL_START + 1 {
            self.vscroll_register.1
        } else if addr == H_SCROLL_START {
            self.hscroll_register.0
        } else if addr == H_SCROLL_START + 1 {
            self.hscroll_register.1
        } else if addr == SCALE_REGISTER_START {
            self.scale_register
        } else if addr == VGA_MODE_REGISTER_START {
            self.vga_mode_register
        } else if addr == VGA_STATUS_REGISTER_START {
            self.vga_status_register
        } else if addr == VGA_FRAME_REGISTER_START {
            self.vga_frame_register.0
        } else if addr == VGA_FRAME_REGISTER_START + 1 {
            self.vga_frame_register.1
        } else if addr == VGA_FRAME_REGISTER_START + 2 {
            self.vga_frame_register.2
        } else if addr == VGA_FRAME_REGISTER_START + 3 {
            self.vga_frame_register.3
        } else if addr == PIT_START {
            self.pit.0
        } else if addr == PIT_START + 1 {
            self.pit.1
        } else if addr == PIT_START + 2 {
            self.pit.2
        } else if addr == PIT_START + 3 {
            self.pit.3
        } else {
            self.ram_byte(addr)
        }
    }

    /// The little-endian word held at `a`.
    pub open spec fn word(&self, a: u32) -> u32 {
        le32(self.peek(a), self.peek((a + 1) as u32), self.peek((a + 2) as u32), self.peek((a + 3) as u32))
    }

    /// What a read of `addr` yields. The PS/2 port yields the low byte of
    /// the oldest key code at `PS2_STREAM` and its high byte at the next
    /// address; the UART yields the oldest code if it is a plain byte.
    pub closed spec fn read_value(&self, addr: u32) -> u8 {
        let q = self.io_buffer@;
        if addr == PS2_STREAM {
            if self.use_uart_rx || q.len() == 0 { 0 } else { (q[0] & 0xFF) as u8 }
        } else if addr == PS2_STREAM + 1 {
            if self.use_uart_rx || q.len() == 0 { 0 } else { (q[0] >> 8u16) as u8 }
        } else if addr == UART_RX {
            if !self.use_uart_rx || q.len() == 0 || q[0] & 0xFF00 != 0 { 0 } else { (q[0] & 0xFF) as u8 }
        } else {
            self.peek(addr)
        }
    }

    /// Whether a read of `addr` takes the oldest input code.
    pub closed spec fn consumes(&self, addr: u32) -> bool {
        &&& self.io_buffer@.len() > 0
        &&& if self.use_uart_rx { addr == UART_RX } else { addr == PS2_STREAM + 1 }
    }

    /// The two states cannot be told apart.
    pub open spec fn unchanged(&self, other: &Memory) -> bool {
        self.same_but_input(other) && self.input() == other.input()
    }

    /// Every part of the state but the input queue is the same.
    pub closed spec fn same_but_input(&self, other: &Memory) -> bool {
        &&& self.ram@ == other.ram@
        &&& self.frame_buffer == other.frame_buffer
        &&& self.tile_map == other.tile_map
        &&& self.vscroll_register == other.vscroll_register
        &&& self.hscroll_register == other.hscroll_register
        &&& self.scale_register == other.scale_register
        &&& self.vga_mode_register == other.vga_mode_register
        &&& self.vga_status_register == other.vga_status_register
        &&& self.vga_frame_register == other.vga_frame_register
        &&& self.pit == other.pit
        &&& self.sprite_map == other.sprite_map
        &&& self.sd_card == other.sd_card
        &&& self.pending_interrupt == other.pending_interrupt
        &&& self.use_uart_rx == other.use_uart_rx
        &&& self.uart_out == other.uart_out
    }

    fn ram_get(&self, addr: u32) -> (r: u8)
        ensures
            r == self.ram_byte(addr),
    {
        match self.ram.get(&addr) {
            Some(v) => *v,
            None => 0,
        }
    }

    /// Reads the byte at physical address `addr`.
    pub fn read(&mut self, addr: u32) -> (r: Result<u8, BusError>)
        requires
            old(self).wf(),
        ensures
            final(self).wf(),
            match read_error(addr) {
                Some(e) => r == Err::<u8, BusError>(e) && *final(self) == *old(self),
                None => {
                    &&& r == Ok::<u8, BusError>(old(self).read_value(addr))
                    &&& final(self).same_but_input(&*old(self))
                    &&& final(self).input() == if old(self).consumes(addr) {
                        old(self).input().drop_first()
                    } else {
                        old(self).input()
                    }
                },
            },
    {
        if addr > PHYSMEM_MAX {
            return Err(BusError::BadPhysicalAddress(addr));
        }
        if addr == UART_TX {
            return Err(BusError::ReadFromWriteOnly(addr));
        }
        if addr == PS2_STREAM {
            if self.use_uart_rx || self.io_buffer.len() == 0 {
                return Ok(0);
            }
            return Ok((self.io_buffer[0] & 0xFF) as u8);
        }
        if addr == PS2_STREAM + 1 {
            if self.use_uart_rx {
                return Ok(0);
            }
            return match self.io_buffer.pop_front() {
                Some(v) => Ok((v >> 8u16) as u8),
                None => Ok(0),
            };
        }
        if addr == UART_RX {
            if !self.use_uart_rx {
                return Ok(0);
            }
            return match self.io_buffer.pop_front() {
                Some(v) => if v & 0xFF00 != 0 { Ok(0) } else { Ok((v & 0xFF) as u8) },
                None => Ok(0),
            };
        }
        Ok(self.peek_byte(addr))
    }

    /// The value of `addr` for an address that is not an input port.
    fn peek_byte(&self, addr: u32) -> (r: u8)
        requires
            self.wf(),
        ensures
            r == self.peek(addr),
    {
        if TILE_MAP_START <= addr && addr < TILE_MAP_START + TILE_MAP_SIZE {
            self.tile_map.get_tile_byte(addr - TILE_MAP_START)
        } else if FRAME_BUFFER_START <= addr && addr < FRAME_BUFFER_START + FRAME_BUFFER_SIZE {
            self.frame_buffer.get_tile_pair(addr - FRAME_BUFFER_START)
        } else if addr == SD_SEND_BYTE {
            self.sd_card.status()
        } else if SPRITE_MAP_START <= addr && addr < SPRITE_MAP_START + SPRITE_MAP_SIZE {
            self.sprite_map.get_sprite_byte(addr - SPRITE_MAP_START)
        } else if SPRITE_REGISTERS_START <= addr && addr < SPRITE_REGISTERS_START + SPRITE_REGISTERS_SIZE {
            self.sprite_map.get_sprite_reg(addr - SPRITE_REGISTERS_START)
        } else if addr == V_SCROLL_START {
            self.vscroll_register.0
        } else if addr == V_SCROLL_START + 1 {
            self.vscroll_register.1
        } else if addr == H_SCROLL_START {
            self.hscroll_register.0
        } else if addr == H_SCROLL_START + 1 {
            self.hscroll_register.1
        } else if addr == SCALE_REGISTER_START {
            self.scale_register
        } else if addr == VGA_MODE_REGISTER_START {
            self.vga_mode_register
        } else if addr == VGA_STATUS_REGISTER_START {
            self.vga_status_register
        } else if addr == VGA_FRAME_REGISTER_START {
            self.vga_frame_register.0
        } else if addr == VGA_FRAME_REGISTER_START + 1 {
            self.vga_frame_register.1
        } else if addr == VGA_FRAME_REGISTER_START + 2 {
            self.vga_frame_register.2
        } else if addr == VGA_FRAME_REGISTER_START + 3 {
            self.vga_frame_register.3
        } else if addr == PIT_START {
            self.pit.0
        } else if addr == PIT_START + 1 {
            self.pit.1
        } else if addr == PIT_START + 2 {
            self.pit.2
        } else if addr == PIT_START + 3 {
            self.pit.3
        } else {
            self.ram_get(addr)
        }
    }

    /// The state after a write of `data` to `addr` (not the SD send
    /// register): that byte reads back as `data`, the SD card sees command
    /// and buffer bytes, and a UART byte is queued for output.
    pub open spec fn plain_write(&self, next: &Memory, addr: u32, data: u8) -> bool {
        &&& next.input() == self.input()
        &&& next.pending() == self.pending()
        &&& next.uart_mode() == self.uart_mode()
        &&& next.output() == if addr == UART_TX { self.output().push(data) } else { self.output() }
        &&& forall|a: u32| #[trigger] next.peek(a) == if a == addr { data } else { self.peek(a) }
        &&& next.sd().blocks() == self.sd().blocks()
        &&& next.sd().command@ == if SD_CMD_BUF <= addr < SD_CMD_BUF + SD_CMD_BUF_LEN {
            self.sd().command@.update(addr - SD_CMD_BUF, data)
        } else {
            self.sd().command@
        }
        &&& next.sd().data_buffer@ == if SD_BUF_START <= addr < SD_BUF_START + SD_BLOCK_SIZE {
            self.sd().data_buffer@.update(addr - SD_BUF_START, data)
        } else {
            self.sd().data_buffer@
        }
    }

    /// The state after a write to the SD send register: the card executes
    /// its command, its response (and, after a block read, its data buffer)
    /// is copied into the mirrored bytes, and the SD interrupt is raised.
    pub open spec fn sd_sent(&self, next: &Memory) -> bool {
        &&& self.sd().executed(&next.sd())
        &&& next.input() == self.input()
        &&& next.pending() == self.pending() | SD_INTERRUPT_BIT
        &&& next.uart_mode() == self.uart_mode()
        &&& next.output() == self.output()
        &&& forall|a: u32| #[trigger] next.peek(a) == if SD_CMD_BUF <= a < SD_CMD_BUF + SD_CMD_BUF_LEN {
            next.sd().response@[a - SD_CMD_BUF]
        } else if SD_BUF_START <= a < SD_BUF_START + SD_BLOCK_SIZE && self.sd().cmd_index() == 17
            && self.sd().block_ok() {
            next.sd().data_buffer@[a - SD_BUF_START]
        } else if a == SD_SEND_BYTE {
            0
        } else {
            self.peek(a)
        }
    }

    /// The state after a write of `data` to `addr` (the SD send register
    /// executes the card's command; any other address is a plain write).
    pub open spec fn write_step(&self, next: &Memory, addr: u32, data: u8) -> bool {
        if addr == SD_SEND_BYTE {
            self.sd_sent(next)
        } else {
            self.plain_write(next, addr, data)
        }
    }

    /// The state after a read of `addr` that yields `b`: the byte is what
    /// the bus gives there, and the oldest input code is taken when the
    /// address consumes it.
    pub open spec fn read_step(&self, next: &Memory, addr: u32, b: u8) -> bool {
        &&& b == self.read_value(addr)
        &&& next.same_but_input(self)
        &&& next.input() == if self.consumes(addr) { self.input().drop_first() } else { self.input() }
    }

    fn ram_set(&mut self, addr: u32, data: u8)
        ensures
            final(self).ram@ == old(self).ram@.insert(addr, data),
            final(self).frame_buffer == old(self).frame_buffer,
            final(self).tile_map == old(self).tile_map,
            final(self).io_buffer == old(self).io_buffer,
            final(self).vscroll_register == old(self).vscroll_register,
            final(self).hscroll_register == old(self).hscroll_register,
            final(self).scale_register == old(self).scale_register,
            final(self).vga_mode_register == old(self).vga_mode_register,
            final(self).vga_status_register == old(self).vga_status_register,
            final(self).vga_frame_register == old(self).vga_frame_register,
            final(self).pit == old(self).pit,
            final(self).sprite_map == old(self).sprite_map,
            final(self).sd_card == old(self).sd_card,
            final(self).pending_interrupt == old(self).pending_interrupt,
            final(self).use_uart_rx == old(self).use_uart_rx,
            final(self).uart_out == old(self).uart_out,
    {
        self.ram.insert(addr, data);
    }

    /// Executes the SD card's command and mirrors its results into memory.
    fn sd_send(&mut self)
        requires
            old(self).wf(),
        ensures
            final(self).wf(),
            old(self).sd_sent(&*final(self)),
    {
        let result = self.sd_card.execute();
        let mut i: usize = 0;
        while i < SD_CMD_BUF_LEN
            invariant
                self.wf(),
                old(self).sd_card.executed(&self.sd_card),
                self.sd_card.response_len == result.response_len,
                i <= SD_CMD_BUF_LEN,
                self.frame_buffer == old(self).frame_buffer,
                self.tile_map == old(self).tile_map,
                self.io_buffer == old(self).io_buffer,
                self.vscroll_register == old(self).vscroll_register,
                self.hscroll_register == old(self).hscroll_register,
                self.scale_register == old(self).scale_register,
                self.vga_mode_register == old(self).vga_mode_register,
                self.vga_status_register == old(self).vga_status_register,
                self.vga_frame_register == old(self).vga_frame_register,
                self.pit == old(self).pit,
                self.sprite_map == old(self).sprite_map,
                self.pending_interrupt == old(self).pending_interrupt,
                self.use_uart_rx == old(self).use_uart_rx,
                self.uart_out == old(self).uart_out,
                forall|a: u32| #[trigger] self.ram@.contains_key(a) || old(self).ram@.contains_key(a) ==> (
                    if SD_CMD_BUF <= a < SD_CMD_BUF + i {
                        self.ram@.contains_key(a) && self.ram@[a] == self.sd_card.response@[a - SD_CMD_BUF]
                    } else {
                        self.ram@.contains_key(a) == old(self).ram@.contains_key(a) && self.ram@[a] == old(self).ram@[a]
                    }),
                forall|a: u32| SD_CMD_BUF <= a < SD_CMD_BUF + i ==> #[trigger] self.ram@.contains_key(a),
            decreases SD_CMD_BUF_LEN - i,
        {
            let value = if i < result.response_len { self.sd_card.response[i] } else { 0 };
            assert(i >= result.response_len ==> self.sd_card.response@[i as int] == 0);
            self.ram_set(SD_CMD_BUF + i as u32, value);
            i += 1;
        }
        if result.update_data_buffer {
            let mut j: usize = 0;
            while j < SD_BLOCK_SIZE
                invariant
                    self.wf(),
                    old(self).sd_card.executed(&self.sd_card),
                    j <= SD_BLOCK_SIZE,
                    self.frame_buffer == old(self).frame_buffer,
                    self.tile_map == old(self).tile_map,
                    self.io_buffer == old(self).io_buffer,
                    self.vscroll_register == old(self).vscroll_register,
                    self.hscroll_register == old(self).hscroll_register,
                    self.scale_register == old(self).scale_register,
                    self.vga_mode_register == old(self).vga_mode_register,
                    self.vga_status_register == old(self).vga_status_register,
                    self.vga_frame_register == old(self).vga_frame_register,
                    self.pit == old(self).pit,
                    self.sprite_map == old(self).sprite_map,
                    self.pending_interrupt == old(self).pending_interrupt,
                    self.use_uart_rx == old(self).use_uart_rx,
                    self.uart_out == old(self).uart_out,
                    forall|a: u32| #[trigger] self.ram@.contains_key(a) || old(self).ram@.contains_key(a) ==> (
                        if SD_CMD_BUF <= a < SD_CMD_BUF + SD_CMD_BUF_LEN {
                            self.ram@.contains_key(a) && self.ram@[a] == self.sd_card.response@[a - SD_CMD_BUF]
                        } else if SD_BUF_START <= a < SD_BUF_START + j {
                            self.ram@.contains_key(a) && self.ram@[a] == self.sd_card.data_buffer@[a - SD_BUF_START]
                        } else {
                            self.ram@.contains_key(a) == old(self).ram@.contains_key(a) && self.ram@[a] == old(self).ram@[a]
                        }),
                    forall|a: u32| SD_CMD_BUF <= a < SD_CMD_BUF + SD_CMD_BUF_LEN ==> #[trigger] self.ram@.contains_key(a),
                    forall|a: u32| SD_BUF_START <= a < SD_BUF_START + j ==> #[trigger] self.ram@.contains_key(a),
                decreases SD_BLOCK_SIZE - j,
            {
                let value = self.sd_card.data_buffer[j];
                self.ram_set(SD_BUF_START + j as u32, value);
                j += 1;
            }
        }
        self.pending_interrupt = self.pending_interrupt | SD_INTERRUPT_BIT;
        assert forall|a: u32| #[trigger] self.peek(a) == if SD_CMD_BUF <= a < SD_CMD_BUF + SD_CMD_BUF_LEN {
            self.sd_card.response@[a - SD_CMD_BUF]
        } else if SD_BUF_START <= a < SD_BUF_START + SD_BLOCK_SIZE && old(self).sd_card.cmd_index() == 17
            && old(self).sd_card.block_ok() {
            self.sd_card.data_buffer@[a - SD_BUF_START]
        } else if a == SD_SEND_BYTE {
            0
        } else {
            old(self).peek(a)
        } by {
            if self.ram@.contains_key(a) || old(self).ram@.contains_key(a) {
            }
        }
    }

    /// Writes `data` to the byte at physical address `addr`, which must be
    /// writable (a bad or read-only address stops the machine: callers test
    /// `write_error` first).
    pub fn write(&mut self, addr: u32, data: u8)
        requires
            old(self).wf(),
            write_error(addr) is None,
        ensures
            final(self).wf(),
            old(self).write_step(&*final(self), addr, data),
    {
        if addr == SD_SEND_BYTE {
            self.sd_send();
            return;
        }
        if TILE_MAP_START <= addr && addr < TILE_MAP_START + TILE_MAP_SIZE {
            self.tile_map.set_tile_byte(addr - TILE_MAP_START, data);
        } else if FRAME_BUFFER_START <= addr && addr < FRAME_BUFFER_START + FRAME_BUFFER_SIZE {
            self.frame_buffer.set_tile_pair(addr - FRAME_BUFFER_START, data);
        } else if SPRITE_MAP_START <= addr && addr < SPRITE_MAP_START + SPRITE_MAP_SIZE {
            self.sprite_map.set_sprite_byte(addr - SPRITE_MAP_START, data);
        } else if SPRITE_REGISTERS_START <= addr && addr < SPRITE_REGISTERS_START + SPRITE_REGISTERS_SIZE {
            self.sprite_map.set_sprite_reg(addr - SPRITE_REGISTERS_START, data);
        } else if addr == V_SCROLL_START {
            self.vscroll_register.0 = data;
        } else if addr == V_SCROLL_START + 1 {
            self.vscroll_register.1 = data;
        } else if addr == H_SCROLL_START {
            self.hscroll_register.0 = data;
        } else if addr == H_SCROLL_START + 1 {
            self.hscroll_register.1 = data;
        } else if addr == SCALE_REGISTER_START {
            self.scale_register = data;
        } else if addr == VGA_MODE_REGISTER_START {
            self.vga_mode_register = data;
        } else if addr == PIT_START {
            self.pit.0 = data;
        } else if addr == PIT_START + 1 {
            self.pit.1 = data;
        } else if addr == PIT_START + 2 {
            self.pit.2 = data;
        } else if addr == PIT_START + 3 {
            self.pit.3 = data;
        } else {
            if SD_CMD_BUF <= addr && addr < SD_CMD_BUF + SD_CMD_BUF_LEN as u32 {
                self.sd_card.write_command_byte((addr - SD_CMD_BUF) as usize, data);
            } else if SD_BUF_START <= addr && addr < SD_BUF_START + SD_BLOCK_SIZE as u32 {
                self.sd_card.write_data_byte((addr - SD_BUF_START) as usize, data);
            } else if addr == UART_TX {
                self.uart_out.push(data);
            }
            self.ram_set(addr, data);
        }
        assert forall|a: u32| #[trigger] self.peek(a) == if a == addr { data } else { old(self).peek(a) } by {
            if TILE_MAP_START <= a < TILE_MAP_START + TILE_MAP_SIZE {
                assert(self.tile_map.size() == 0x8000);
                if TILE_MAP_START <= addr < TILE_MAP_START + TILE_MAP_SIZE {
                    assert(self.tile_map.byte(a - TILE_MAP_START) == if a == addr { data } else {
                        old(self).tile_map.byte(a - TILE_MAP_START)
                    });
                }
            }
            if SPRITE_MAP_START <= a < SPRITE_MAP_START + SPRITE_MAP_SIZE {
                assert(self.sprite_map.size() == 0x8000);
                if SPRITE_MAP_START <= addr < SPRITE_MAP_START + SPRITE_MAP_SIZE {
                    assert(self.sprite_map.byte(a - SPRITE_MAP_START) == if a == addr { data } else {
                        old(self).sprite_map.byte(a - SPRITE_MAP_START)
                    });
                }
                if SPRITE_REGISTERS_START <= addr < SPRITE_REGISTERS_START + SPRITE_REGISTERS_SIZE {
                    assert(self.sprite_map.byte(a - SPRITE_MAP_START) == old(self).sprite_map.byte(a - SPRITE_MAP_START));
                }
            }
            if SPRITE_REGISTERS_START <= a < SPRITE_REGISTERS_START + SPRITE_REGISTERS_SIZE {
                if SPRITE_MAP_START <= addr < SPRITE_MAP_START + SPRITE_MAP_SIZE {
                    assert(self.sprite_map.reg(a - SPRITE_REGISTERS_START) == old(self).sprite_map.reg(a - SPRITE_REGISTERS_START));
                }
                if SPRITE_REGISTERS_START <= addr < SPRITE_REGISTERS_START + SPRITE_REGISTERS_SIZE {
                    assert(self.sprite_map.reg(a - SPRITE_REGISTERS_START) == if a == addr { data } else {
                        old(self).sprite_map.reg(a - SPRITE_REGISTERS_START)
                    });
                }
            }
        }
    }

    /// A bus over the program image `ram` with every device in its reset
    /// state; `use_uart_rx` routes input through the UART instead of PS/2.
    pub fn new(ram: HashMap<u32, u8>, use_uart_rx: bool) -> (r: Memory)
        ensures
            r.wf(),
            forall|a: u32| #[trigger] r.ram_byte(a) == if ram@.contains_key(a) { ram@[a] } else { 0u8 },
            r.input() == Seq::<u16>::empty(),
            r.output() == Seq::<u8>::empty(),
            r.pending() == 0,
            r.uart_mode() == use_uart_rx,
            forall|a: u32| #[trigger] r.peek(a) == boot_value(ram@, a),
            forall|a: u32| a < FRAME_BUFFER_START ==> #[trigger] r.peek(a) == r.ram_byte(a),
    {
        let ghost image = ram@;
        let r = Memory {
            ram,
            frame_buffer: FrameBuffer::new(FRAME_WIDTH, FRAME_HEIGHT),
            tile_map: TileMap::new(TILE_MAP_SIZE),
            io_buffer: VecDeque::new(),
            vscroll_register: (0, 0),
            hscroll_register: (0, 0),
            scale_register: 0,
            vga_mode_register: 0,
            vga_status_register: 0,
            vga_frame_register: (0, 0, 0, 0),
            pit: (0, 0, 0, 0),
            sprite_map: SpriteMap::new(SPRITE_MAP_SIZE),
            sd_card: SdCard::new(),
            pending_interrupt: 0,
            use_uart_rx,
            uart_out: Vec::new(),
        };
        assert forall|a: u32| #[trigger] r.peek(a) == boot_value(image, a) by {
            assert(r.tile_map.size() == 0x8000);
            assert(r.sprite_map.size() == 0x8000);
            assert(4 * r.sprite_map.sprites@.len() == 0x40);
        }
        r
    }

    /// The framebuffer.
    pub closed spec fn frame_buffer_view(&self) -> FrameBuffer {
        self.frame_buffer
    }

    /// The tile patterns.
    pub closed spec fn tile_map_view(&self) -> TileMap {
        self.tile_map
    }

    /// The sprites.
    pub closed spec fn sprite_map_view(&self) -> SpriteMap {
        self.sprite_map
    }

    pub fn get_frame_buffer(&self) -> (r: &FrameBuffer)
        ensures
            *r == self.frame_buffer_view(),
    {
        &self.frame_buffer
    }

    pub fn get_tile_map(&self) -> (r: &TileMap)
        ensures
            *r == self.tile_map_view(),
    {
        &self.tile_map
    }

    pub fn get_io_buffer(&self) -> (r: &VecDeque<u16>)
        ensures
            r@ == self.input(),
    {
        &self.io_buffer
    }

    pub fn get_vscroll_register(&self) -> (r: (u8, u8))
        ensures
            r == (self.peek(V_SCROLL_START), self.peek((V_SCROLL_START + 1) as u32)),
    {
        self.vscroll_register
    }

    pub fn get_hscroll_register(&self) -> (r: (u8, u8))
        ensures
            r == (self.peek(H_SCROLL_START), self.peek((H_SCROLL_START + 1) as u32)),
    {
        self.hscroll_register
    }

    pub fn get_scale_register(&self) -> (r: u8)
        ensures
            r == self.peek(SCALE_REGISTER_START),
    {
        self.scale_register
    }

    pub fn get_sprite_map(&self) -> (r: &SpriteMap)
        ensures
            *r == self.sprite_map_view(),
    {
        &self.sprite_map
    }

    pub fn get_vga_mode_register(&self) -> (r: u8)
        ensures
            r == self.peek(VGA_MODE_REGISTER_START),
    {
        self.vga_mode_register
    }

    pub fn get_vga_status_register(&self) -> (r: u8)
        ensures
            r == self.peek(VGA_STATUS_REGISTER_START),
    {
        self.vga_status_register
    }

    pub fn get_vga_frame_register(&self) -> (r: (u8, u8, u8, u8))
        ensures
            r == (
                self.peek(VGA_FRAME_REGISTER_START),
                self.peek((VGA_FRAME_REGISTER_START + 1) as u32),
                self.peek((VGA_FRAME_REGISTER_START + 2) as u32),
                self.peek((VGA_FRAME_REGISTER_START + 3) as u32),
            ),
    {
        self.vga_frame_register
    }

    pub fn get_pending_interrupt(&self) -> (r: u32)
        ensures
            r == self.pending(),
    {
        self.pending_interrupt
    }

    /// Per-cycle device work; no device here needs any.
    pub fn clock() {
    }

    /// Takes the interrupt bits raised by devices, leaving none pending.
    pub fn check_interrupts(&mut self) -> (r: u32)
        requires
            old(self).wf(),
        ensures
            final(self).wf(),
            r == old(self).pending(),
            final(self).pending() == 0,
            final(self).input() == old(self).input(),
            final(self).output() == old(self).output(),
            forall|a: u32| #[trigger] final(self).peek(a) == old(self).peek(a),
    {
        let pending = self.pending_interrupt;
        self.pending_interrupt = 0;
        pending
    }

    /// Raises device interrupt bits (the display does so at each frame).
    pub fn raise_interrupts(&mut self, bits: u32)
        requires
            old(self).wf(),
        ensures
            final(self).wf(),
            final(self).pending() == old(self).pending() | bits,
            final(self).input() == old(self).input(),
            final(self).output() == old(self).output(),
            forall|a: u32| #[trigger] final(self).peek(a) == old(self).peek(a),
    {
        self.pending_interrupt = self.pending_interrupt | bits;
    }

    /// Queues a key code (or UART byte) from the host.
    pub fn push_input(&mut self, code: u16)
        requires
            old(self).wf(),
        ensures
            final(self).wf(),
            final(self).input() == old(self).input().push(code),
            final(self).same_but_input(&*old(self)),
    {
        self.io_buffer.push_back(code);
    }

    /// Takes the bytes written to the UART since the last call.
    pub fn take_output(&mut self) -> (r: Vec<u8>)
        requires
            old(self).wf(),
        ensures
            final(self).wf(),
            r@ == old(self).output(),
            final(self).output() == Seq::<u8>::empty(),
            final(self).input() == old(self).input(),
            final(self).pending() == old(self).pending(),
            forall|a: u32| #[trigger] final(self).peek(a) == old(self).peek(a),
    {
        let mut out: Vec<u8> = Vec::new();
        std::mem::swap(&mut out, &mut self.uart_out);
        out
    }

    /// Sets the display status and frame counter registers, which programs
    /// can only read.
    pub fn set_vga_state(&mut self, status: u8, frame: (u8, u8, u8, u8))
        requires
            old(self).wf(),
        ensures
            final(self).wf(),
            final(self).input() == old(self).input(),
            final(self).output() == old(self).output(),
            final(self).pending() == old(self).pending(),
            forall|a: u32| #[trigger] final(self).peek(a) == if a == VGA_STATUS_REGISTER_START {
                status
            } else if a == VGA_FRAME_REGISTER_START {
                frame.0
            } else if a == VGA_FRAME_REGISTER_START + 1 {
                frame.1
            } else if a == VGA_FRAME_REGISTER_START + 2 {
                frame.2
            } else if a == VGA_FRAME_REGISTER_START + 3 {
                frame.3
            } else {
                old(self).peek(a)
            },
    {
        self.vga_status_register = status;
        self.vga_frame_register = frame;
    }

    fn check_addrs(addrs: &Vec<u32>, write: bool) -> (r: Option<BusError>)
        ensures
            r == first_error(addrs@, write),
    {
        let mut i: usize = 0;
        assert(addrs@.subrange(0, addrs@.len() as int) =~= addrs@);
        while i < addrs.len()
            invariant
                i <= addrs@.len(),
                first_error(addrs@, write) == first_error(addrs@.subrange(i as int, addrs@.len() as int), write),
            decreases addrs@.len() - i,
        {
            let a = addrs[i];
            assert(addrs@.subrange(i as int, addrs@.len() as int).drop_first() =~= addrs@.subrange(i + 1, addrs@.len() as int));
            if a > PHYSMEM_MAX {
                return Some(BusError::BadPhysicalAddress(a));
            }
            if write {
                if a == PS2_STREAM || a == UART_RX || a == VGA_STATUS_REGISTER_START
                    || (VGA_FRAME_REGISTER_START <= a && a < VGA_FRAME_REGISTER_START + 4) {
                    return Some(BusError::WriteToReadOnly(a));
                }
            } else if a == UART_TX {
                return Some(BusError::ReadFromWriteOnly(a));
            }
            i += 1;
        }
        assert(addrs@.subrange(i as int, addrs@.len() as int).len() == 0);
        None
    }

    /// Reads the bytes at the physical addresses `addrs`, in order, as one
    /// access: when any of them is in error nothing is read. Without input
    /// ports among them, reading changes nothing.
    pub fn read_phys_bytes(&mut self, addrs: &Vec<u32>) -> (r: Result<Vec<u8>, BusError>)
        requires
            old(self).wf(),
        ensures
            final(self).wf(),
            match first_error(addrs@, false) {
                Some(e) => r == Err::<Vec<u8>, BusError>(e) && *final(self) == *old(self),
                None => {
                    &&& r is Ok
                    &&& r->Ok_0@.len() == addrs@.len()
                    &&& read_chain(*old(self), *final(self), addrs@, r->Ok_0@)
                    &&& final(self).same_but_input(&*old(self))
                    &&& (forall|i: int| 0 <= i < addrs@.len() ==> !is_input_port(#[trigger] addrs@[i])) ==> {
                        &&& final(self).input() == old(self).input()
                        &&& forall|i: int| 0 <= i < addrs@.len() ==> #[trigger] r->Ok_0@[i] == old(self).peek(addrs@[i])
                    }
                },
            },
    {
        if let Some(e) = Self::check_addrs(addrs, false) {
            return Err(e);
        }
        let mut out: Vec<u8> = Vec::new();
        let mut i: usize = 0;
        let ghost quiet = forall|k: int| 0 <= k < addrs@.len() ==> !is_input_port(#[trigger] addrs@[k]);
        let ghost mut ms: Seq<Memory> = seq![*self];
        while i < addrs.len()
            invariant
                self.wf(),
                i <= addrs@.len(),
                out@.len() == i,
                read_states(ms, *old(self), *self, addrs@.take(i as int), out@),
                first_error(addrs@, false) is None,
                self.same_but_input(&*old(self)),
                quiet == (forall|k: int| 0 <= k < addrs@.len() ==> !is_input_port(#[trigger] addrs@[k])),
                quiet ==> self.input() == old(self).input(),
                quiet ==> forall|k: int| 0 <= k < i ==> #[trigger] out@[k] == old(self).peek(addrs@[k]),
            decreases addrs@.len() - i,
        {
            proof {
                lemma_first_error_none(addrs@, false, i as int);
            }
            let ghost before = *self;
            let ghost prev = out@;
            let b = match self.read(addrs[i]) {
                Ok(b) => b,
                Err(_) => 0,
            };
            out.push(b);
            proof {
                let ms2 = ms.push(*self);
                let t = addrs@.take(i + 1);
                assert forall|j: int| 0 <= j < t.len() implies #[trigger] ms2[j].read_step(&ms2[j + 1], t[j], out@[j]) by {
                    if j < i {
                        assert(ms2[j] == ms[j] && ms2[j + 1] == ms[j + 1]);
                        assert(t[j] == addrs@.take(i as int)[j]);
                        assert(out@[j] == prev[j]);
                    } else {
                        assert(ms2[j] == before);
                    }
                }
                ms = ms2;
            }
            i += 1;
        }
        assert(addrs@.take(i as int) =~= addrs@);
        assert(read_states(ms, *old(self), *self, addrs@, out@));
        Ok(out)
    }

    /// Writes `data[i]` to each physical address `addrs[i]`, in order, as
    /// one access: when any of them is in error nothing is written. When all
    /// are storage addresses, exactly those bytes change.
    pub fn write_phys_bytes(&mut self, addrs: &Vec<u32>, data: &Vec<u8>) -> (r: Result<(), BusError>)
        requires
            old(self).wf(),
            addrs@.len() == data@.len(),
        ensures
            final(self).wf(),
            match first_error(addrs@, true) {
                Some(e) => r == Err::<(), BusError>(e) && *final(self) == *old(self),
                None => {
                    &&& r is Ok
                    &&& write_chain(*old(self), *final(self), addrs@, data@)
                    &&& (forall|i: int| 0 <= i < addrs@.len() ==> is_storage(#[trigger] addrs@[i])) ==> {
                        &&& final(self).input() == old(self).input()
                        &&& final(self).output() == old(self).output()
                        &&& final(self).pending() == old(self).pending()
                        &&& forall|a: u32| #[trigger] final(self).peek(a) == written_value(old(self).peek(a), addrs@, data@, a)
                    }
                },
            },
    {
        if let Some(e) = Self::check_addrs(addrs, true) {
            return Err(e);
        }
        let mut i: usize = 0;
        let ghost plain = forall|k: int| 0 <= k < addrs@.len() ==> is_storage(#[trigger] addrs@[k]);
        let ghost mut ms: Seq<Memory> = seq![*self];
        while i < addrs.len()
            invariant
                self.wf(),
                i <= addrs@.len(),
                addrs@.len() == data@.len(),
                write_states(ms, *old(self), *self, addrs@.take(i as int), data@.take(i as int)),
                first_error(addrs@, true) is None,
                plain == (forall|k: int| 0 <= k < addrs@.len() ==> is_storage(#[trigger] addrs@[k])),
                plain ==> {
                    &&& self.input() == old(self).input()
                    &&& self.output() == old(self).output()
                    &&& self.pending() == old(self).pending()
                    &&& forall|a: u32| #[trigger] self.peek(a) == written_value(old(self).peek(a), addrs@.take(i as int), data@.take(i as int), a)
                },
            decreases addrs@.len() - i,
        {
            proof {
                lemma_first_error_none(addrs@, true, i as int);
            }
            let ghost before = *self;
            self.write(addrs[i], data[i]);
            proof {
                let ms2 = ms.push(*self);
                let t = addrs@.take(i + 1);
                let d = data@.take(i + 1);
                assert forall|j: int| 0 <= j < t.len() implies #[trigger] ms2[j].write_step(&ms2[j + 1], t[j], d[j]) by {
                    if j < i {
                        assert(ms2[j] == ms[j] && ms2[j + 1] == ms[j + 1]);
                        assert(t[j] == addrs@.take(i as int)[j]);
                        assert(d[j] == data@.take(i as int)[j]);
                    } else {
                        assert(ms2[j] == before);
                    }
                }
                ms = ms2;
                if plain {
                    assert(is_storage(addrs@[i as int]));
                    assert(addrs@.take(i + 1).drop_last() =~= addrs@.take(i as int));
                    assert(data@.take(i + 1).drop_last() =~= data@.take(i as int));
                    assert forall|a: u32| #[trigger] self.peek(a) == written_value(old(self).peek(a), addrs@.take(i + 1), data@.take(i + 1), a) by {
                        assert(before.peek(a) == written_value(old(self).peek(a), addrs@.take(i as int), data@.take(i as int), a));
                    }
                }
            }
            i += 1;
        }
        proof {
            assert(addrs@.take(addrs@.len() as int) =~= addrs@);
            assert(data@.take(data@.len() as int) =~= data@);
            assert(write_states(ms, *old(self), *self, addrs@, data@));
        }
        Ok(())
    }

    fn word_vec(a: u32) -> (r: Vec<u32>)
        requires
            a <= u32::MAX - 3,
        ensures
            r@ == word_addrs(a),
    {
        let r = vec![a, a + 1, a + 2, a + 3];
        assert(r@ =~= word_addrs(a));
        r
    }

    /// Reads the little-endian word at physical address `a`.
    pub fn read32(&mut self, a: u32) -> (r: Result<u32, BusError>)
        requires
            old(self).wf(),
            a <= u32::MAX - 3,
        ensures
            final(self).wf(),
            match first_error(word_addrs(a), false) {
                Some(e) => r == Err::<u32, BusError>(e) && *final(self) == *old(self),
                None => {
                    &&& r is Ok
                    &&& final(self).same_but_input(&*old(self))
                    &&& exists|b: Seq<u8>| #[trigger] read_chain(*old(self), *final(self), word_addrs(a), b)
                        && r == Ok::<u32, BusError>(le32(b[0], b[1], b[2], b[3]))
                    &&& (forall|i: int| 0 <= i < 4 ==> !is_input_port(#[trigger] word_addrs(a)[i])) ==> {
                        &&& final(self).input() == old(self).input()
                        &&& r == Ok::<u32, BusError>(le32(
                            old(self).peek(a),
                            old(self).peek((a + 1) as u32),
                            old(self).peek((a + 2) as u32),
                            old(self).peek((a + 3) as u32),
                        ))
                    }
                },
            },
    {
        let addrs = Self::word_vec(a);
        let bytes = self.read_phys_bytes(&addrs)?;
        assert(read_chain(*old(self), *self, word_addrs(a), bytes@));
        Ok((bytes[0] as u32) | ((bytes[1] as u32) << 8u32) | ((bytes[2] as u32) << 16u32) | ((bytes[3] as u32) << 24u32))
    }

    /// Writes `v` little-endian to the word at physical address `a`.
    pub fn write32(&mut self, a: u32, v: u32) -> (r: Result<(), BusError>)
        requires
            old(self).wf(),
            a <= u32::MAX - 3,
        ensures
            final(self).wf(),
            match first_error(word_addrs(a), true) {
                Some(e) => r == Err::<(), BusError>(e) && *final(self) == *old(self),
                None => {
                    &&& r is Ok
                    &&& write_chain(*old(self), *final(self), word_addrs(a), word_bytes(v))
                    &&& (forall|i: int| 0 <= i < 4 ==> is_storage(#[trigger] word_addrs(a)[i])) ==> {
                        &&& final(self).input() == old(self).input()
                        &&& final(self).output() == old(self).output()
                        &&& final(self).pending() == old(self).pending()
                        &&& forall|x: u32| #[trigger] final(self).peek(x) == if x == a {
                            byte_of(v, 0)
                        } else if x == a + 1 {
                            byte_of(v, 1)
                        } else if x == a + 2 {
                            byte_of(v, 2)
                        } else if x == a + 3 {
                            byte_of(v, 3)
                        } else {
                            old(self).peek(x)
                        }
                    }
                },
            },
    {
        let addrs = Self::word_vec(a);
        let data = vec![((v >> 0u32) & 0xFF) as u8, ((v >> 8u32) & 0xFF) as u8, ((v >> 16u32) & 0xFF) as u8, ((v >> 24u32) & 0xFF) as u8];
        assert(data@[0] == byte_of(v, 0));
        assert(data@[1] == byte_of(v, 1));
        assert(data@[2] == byte_of(v, 2));
        assert(data@[3] == byte_of(v, 3));
        assert(data@ =~= word_bytes(v));
        let r = self.write_phys_bytes(&addrs, &data);
        proof {
            assert forall|x: u32| #[trigger] written_value(old(self).peek(x), addrs@, data@, x) == if x == a {
                data@[0]
            } else if x == a + 1 {
                data@[1]
            } else if x == a + 2 {
                data@[2]
            } else if x == a + 3 {
                data@[3]
            } else {
                old(self).peek(x)
            } by {
                lemma_written_word(old(self).peek(x), a, data@, x);
            }
        }
        r
    }

    /// Atomically replaces the word at physical address `a` by `v` and
    /// returns what it held.
    pub fn atomic_swap32(&mut self, a: u32, v: u32) -> (r: Result<u32, BusError>)
        requires
            old(self).wf(),
            a <= u32::MAX - 3,
        ensures
            final(self).wf(),
            first_error(word_addrs(a), false) is Some ==> r == Err::<u32, BusError>(
                first_error(word_addrs(a), false)->Some_0,
            ) && *final(self) == *old(self),
            first_error(word_addrs(a), false) is None && first_error(word_addrs(a), true) is Some
                ==> r == Err::<u32, BusError>(first_error(word_addrs(a), true)->Some_0),
            first_error(word_addrs(a), false) is None && first_error(word_addrs(a), true) is None ==> exists|mid: Memory, b: Seq<u8>|
                #[trigger] read_chain(*old(self), mid, word_addrs(a), b) && r == Ok::<u32, BusError>(le32(b[0], b[1], b[2], b[3]))
                && write_chain(mid, *final(self), word_addrs(a), word_bytes(v)),
            (forall|i: int| 0 <= i < 4 ==> is_storage(#[trigger] word_addrs(a)[i])) ==> {
                &&& r == Ok::<u32, BusError>(old(self).word(a))
                &&& final(self).word(a) == v
                &&& forall|x: u32| !(a <= x <= a + 3) ==> #[trigger] final(self).peek(x) == old(self).peek(x)
                &&& final(self).input() == old(self).input()
                &&& final(self).output() == old(self).output()
                &&& final(self).pending() == old(self).pending()
            },
    {
        proof {
            if forall|i: int| 0 <= i < 4 ==> is_storage(#[trigger] word_addrs(a)[i]) {
                lemma_storage_word_no_error(a);
            }
        }
        let prev = self.read32(a)?;
        self.write32(a, v)?;
        proof {
            lemma_le32_bytes(v);
        }
        Ok(prev)
    }

    /// Atomically adds `v` (wrapping) to the word at physical address `a`
    /// and returns what it held.
    pub fn atomic_add32(&mut self, a: u32, v: u32) -> (r: Result<u32, BusError>)
        requires
            old(self).wf(),
            a <= u32::MAX - 3,
        ensures
            final(self).wf(),
            first_error(word_addrs(a), false) is Some ==> r == Err::<u32, BusError>(
                first_error(word_addrs(a), false)->Some_0,
            ) && *final(self) == *old(self),
            first_error(word_addrs(a), false) is None && first_error(word_addrs(a), true) is Some
                ==> r == Err::<u32, BusError>(first_error(word_addrs(a), true)->Some_0),
            first_error(word_addrs(a), false) is None && first_error(word_addrs(a), true) is None ==> exists|mid: Memory, b: Seq<u8>|
                #[trigger] read_chain(*old(self), mid, word_addrs(a), b) && r == Ok::<u32, BusError>(le32(b[0], b[1], b[2], b[3]))
                && write_chain(mid, *final(self), word_addrs(a), word_bytes(((le32(b[0], b[1], b[2], b[3]) as int + v as int) % 0x1_0000_0000) as u32)),
            (forall|i: int| 0 <= i < 4 ==> is_storage(#[trigger] word_addrs(a)[i])) ==> {
                &&& r == Ok::<u32, BusError>(old(self).word(a))
                &&& final(self).word(a) == (old(self).word(a) as int + v as int) % 0x1_0000_0000
                &&& forall|x: u32| !(a <= x <= a + 3) ==> #[trigger] final(self).peek(x) == old(self).peek(x)
                &&& final(self).input() == old(self).input()
                &&& final(self).output() == old(self).output()
                &&& final(self).pending() == old(self).pending()
            },
    {
        proof {
            if forall|i: int| 0 <= i < 4 ==> is_storage(#[trigger] word_addrs(a)[i]) {
                lemma_storage_word_no_error(a);
            }
        }
        let prev = self.read32(a)?;
        let sum = prev.wrapping_add(v);
        self.write32(a, sum)?;
        proof {
            lemma_le32_bytes(sum);
        }
        Ok(prev)
    }

    /// The little-endian word at `a`, as `word` states it (input ports are
    /// not consumed).
    pub fn word_at(&self, a: u32) -> (r: u32)
        requires
            self.wf(),
            a <= u32::MAX - 3,
        ensures
            r == self.word(a),
    {
        let b0 = self.peek_byte(a);
        let b1 = self.peek_byte(a + 1);
        let b2 = self.peek_byte(a + 2);
        let b3 = self.peek_byte(a + 3);
        (b0 as u32) | ((b1 as u32) << 8u32) | ((b2 as u32) << 16u32) | ((b3 as u32) << 24u32)
    }

    /// Reads the byte at `addr` for a debugger: the value a read would
    /// give, without taking input or changing anything.
    pub fn read_phys8_debug(&self, addr: u32) -> (r: Result<u8, BusError>)
        requires
            self.wf(),
        ensures
            r == match read_error(addr) {
                Some(e) => Err::<u8, BusError>(e),
                None => Ok::<u8, BusError>(self.read_value(addr)),
            },
    {
        if addr > PHYSMEM_MAX {
            return Err(BusError::BadPhysicalAddress(addr));
        }
        if addr == UART_TX {
            return Err(BusError::ReadFromWriteOnly(addr));
        }
        let empty = self.io_buffer.len() == 0;
        if addr == PS2_STREAM {
            return Ok(if self.use_uart_rx || empty { 0 } else { (self.io_buffer[0] & 0xFF) as u8 });
        }
        if addr == PS2_STREAM + 1 {
            return Ok(if self.use_uart_rx || empty { 0 } else { (self.io_buffer[0] >> 8u16) as u8 });
        }
        if addr == UART_RX {
            return Ok(
                if !self.use_uart_rx || empty || self.io_buffer[0] & 0xFF00 != 0 { 0 } else { (self.io_buffer[0] & 0xFF) as u8 },
            );
        }
        Ok(self.peek_byte(addr))
    }
}

/// What `a` holds after `data[i]` was written to each `addrs[i]` in order,
/// when it held `v` before.
pub open spec fn written_value(v: u8, addrs: Seq<u32>, data: Seq<u8>, a: u32) -> u8
    decreases addrs.len(),
{
    if addrs.len() == 0 || data.len() == 0 {
        v
    } else if addrs.last() == a {
        data[addrs.len() - 1]
    } else {
        written_value(v, addrs.drop_last(), data.take(addrs.len() - 1), a)
    }
}

proof fn lemma_written_word(v: u8, a: u32, d: Seq<u8>, x: u32)
    requires
        a <= u32::MAX - 3,
        d.len() == 4,
    ensures
        written_value(v, word_addrs(a), d, x) == if x == a {
            d[0]
        } else if x == a + 1 {
            d[1]
        } else if x == a + 2 {
            d[2]
        } else if x == a + 3 {
            d[3]
        } else {
            v
        },
{
    let ad = word_addrs(a);
    assert(ad.drop_last() =~= seq![a, (a + 1) as u32, (a + 2) as u32]);
    assert(ad.drop_last().drop_last() =~= seq![a, (a + 1) as u32]);
    assert(ad.drop_last().drop_last().drop_last() =~= seq![a]);
    assert(ad.drop_last().drop_last().drop_last().drop_last() =~= Seq::<u32>::empty());
    assert(d.take(3) =~= seq![d[0], d[1], d[2]]);
    assert(d.take(3).take(2) =~= seq![d[0], d[1]]);
    assert(d.take(3).take(2).take(1) =~= seq![d[0]]);
    assert(d.take(3).take(2).take(1).take(0) =~= Seq::<u8>::empty());
    reveal_with_fuel(written_value, 5);
}

/// A word made of storage addresses meets no bus error.
pub proof fn lemma_storage_word_no_error(a: u32)
    requires
        a <= u32::MAX - 3,
        forall|i: int| 0 <= i < 4 ==> is_storage(#[trigger] word_addrs(a)[i]),
    ensures
        first_error(word_addrs(a), false) is None,
        first_error(word_addrs(a), true) is None,
{
    let ad = word_addrs(a);
    assert(is_storage(ad[0]));
    assert(is_storage(ad[1]));
    assert(is_storage(ad[2]));
    assert(is_storage(ad[3]));
    assert(ad.drop_first() =~= seq![(a + 1) as u32, (a + 2) as u32, (a + 3) as u32]);
    assert(ad.drop_first().drop_first() =~= seq![(a + 2) as u32, (a + 3) as u32]);
    assert(ad.drop_first().drop_first().drop_first() =~= seq![(a + 3) as u32]);
    assert(ad.drop_first().drop_first().drop_first().drop_first() =~= Seq::<u32>::empty());
    reveal_with_fuel(first_error, 5);
}

proof fn lemma_first_error_none(addrs: Seq<u32>, write: bool, i: int)
    requires
        first_error(addrs, write) is None,
        0 <= i < addrs.len(),
    ensures
        (if write { write_error(addrs[i]) } else { read_error(addrs[i]) }) is None,
    decreases addrs.len(),
{
    if i > 0 {
        lemma_first_error_none(addrs.drop_first(), write, i - 1);
    }
}

/// Indistinguishable states are indistinguishable through every view.
pub proof fn lemma_unchanged(a: &Memory, b: &Memory)
    requires
        b.unchanged(a),
    ensures
        a.unchanged(a),
        a.unchanged(b),
        b.wf() == a.wf(),
        forall|x: u32| #[trigger] b.peek(x) == a.peek(x),
        forall|x: u32| #[trigger] b.read_value(x) == a.read_value(x),
        forall|x: u32| #[trigger] b.consumes(x) == a.consumes(x),
        b.pending() == a.pending(),
        b.output() == a.output(),
        b.uart_mode() == a.uart_mode(),
        b.sd() == a.sd(),
{
}

/// Every state is indistinguishable from itself.
pub proof fn lemma_unchanged_refl(a: &Memory)
    ensures
        a.unchanged(a),
{
}

/// Indistinguishability is transitive.
pub proof fn lemma_unchanged_trans(a: &Memory, b: &Memory, c: &Memory)
    requires
        b.unchanged(a),
        c.unchanged(b),
    ensures
        c.unchanged(a),
{
}

/// The four bytes of a word, stored little-endian, read back as the word.
pub proof fn lemma_word_round_trip(m: &Memory, a: u32, v: u32)
    requires
        m.peek(a) == byte_of(v, 0),
        m.peek((a + 1) as u32) == byte_of(v, 1),
        m.peek((a + 2) as u32) == byte_of(v, 2),
        m.peek((a + 3) as u32) == byte_of(v, 3),
    ensures
        m.word(a) == v,
{
    lemma_le32_bytes(v);
}

/// `ms` are the states of a run of reads of `addrs` from `m0` to `m1`
/// that yields `bytes`.
pub open spec fn read_states(ms: Seq<Memory>, m0: Memory, m1: Memory, addrs: Seq<u32>, bytes: Seq<u8>) -> bool {
    &&& bytes.len() == addrs.len()
    &&& ms.len() == addrs.len() + 1
    &&& ms[0] == m0
    &&& ms.last() == m1
    &&& forall|i: int| 0 <= i < addrs.len() ==> #[trigger] ms[i].read_step(&ms[i + 1], addrs[i], bytes[i])
}

/// Memory goes from `m0` to `m1` by reading `addrs` in order, which yields
/// `bytes`.
pub open spec fn read_chain(m0: Memory, m1: Memory, addrs: Seq<u32>, bytes: Seq<u8>) -> bool {
    exists|ms: Seq<Memory>| #[trigger] read_states(ms, m0, m1, addrs, bytes)
}

/// `ms` are the states of a run of writes of `data[i]` to each `addrs[i]`
/// from `m0` to `m1`.
pub open spec fn write_states(ms: Seq<Memory>, m0: Memory, m1: Memory, addrs: Seq<u32>, data: Seq<u8>) -> bool {
    &&& data.len() == addrs.len()
    &&& ms.len() == addrs.len() + 1
    &&& ms[0] == m0
    &&& ms.last() == m1
    &&& forall|i: int| 0 <= i < addrs.len() ==> #[trigger] ms[i].write_step(&ms[i + 1], addrs[i], data[i])
}

/// Memory goes from `m0` to `m1` by writing `data[i]` to each `addrs[i]`
/// in order.
pub open spec fn write_chain(m0: Memory, m1: Memory, addrs: Seq<u32>, data: Seq<u8>) -> bool {
    exists|ms: Seq<Memory>| #[trigger] write_states(ms, m0, m1, addrs, data)
}

/// A byte written to any writable address that reads back plain memory or
/// a device register (not an input port, the UART output or the SD send
/// register) reads back unchanged, whatever else the bus held.
pub proof fn lemma_write_then_read(before: &Memory, after: &Memory, addr: u32, data: u8)
    requires
        write_error(addr) is None,
        read_error(addr) is None,
        !is_input_port(addr),
        addr != SD_SEND_BYTE,
        before.write_step(after, addr, data),
    ensures
        after.read_value(addr) == data,
{
}

/// Four bytes written one by one to the four addresses of a word, all
/// writable and readable back, read back as their little-endian word.
pub proof fn lemma_word_from_byte_writes(
    m0: &Memory,
    m1: &Memory,
    m2: &Memory,
    m3: &Memory,
    m4: &Memory,
    a: u32,
    b: Seq<u8>,
)
    requires
        a <= u32::MAX - 3,
        b.len() == 4,
        forall|i: int| 0 <= i < 4 ==> is_storage(#[trigger] word_addrs(a)[i]),
        m0.write_step(m1, a, b[0]),
        m1.write_step(m2, (a + 1) as u32, b[1]),
        m2.write_step(m3, (a + 2) as u32, b[2]),
        m3.write_step(m4, (a + 3) as u32, b[3]),
    ensures
        m4.word(a) == le32(b[0], b[1], b[2], b[3]),
{
    assert(is_storage(word_addrs(a)[0]) && is_storage(word_addrs(a)[1]));
    assert(is_storage(word_addrs(a)[2]) && is_storage(word_addrs(a)[3]));
    assert(m4.peek(a) == b[0]);
    assert(m4.peek((a + 1) as u32) == b[1]);
    assert(m4.peek((a + 2) as u32) == b[2]);
}

} // verus!
