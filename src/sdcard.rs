//! A minimal SD card that answers single-block commands: the command bytes
//! and a 512-byte data buffer are written through the bus, and a write to the
//! send register executes the command.
use std::collections::HashMap;
use vstd::prelude::*;

verus! {

broadcast use vstd::std_specs::hash::group_hash_axioms;

/// Bytes in a command (and in a response).
pub const SD_CMD_BUF_LEN: usize = 6;
/// Bytes in a block.
pub const SD_BLOCK_SIZE: usize = 512;
/// Operating conditions register reported by CMD58.
pub const SD_OCR: u32 = 0x00FF_8000;

pub struct SdCard {
    pub command: Vec<u8>,
    pub response: Vec<u8>,
    pub response_len: usize,
    pub data_buffer: Vec<u8>,
    pub storage: HashMap<u32, Vec<u8>>,
    pub idle: bool,
    pub initialized: bool,
    pub high_capacity: bool,
    pub awaiting_app_cmd: bool,
    pub ocr: u32,
    pub busy: bool,
}

/// What executing a command reports back to the bus.
pub struct SdCommandResult {
    pub response_len: usize,
    pub update_data_buffer: bool,
    pub interrupt: bool,
}

pub open spec fn zero_block() -> Seq<u8> {
    Seq::new(SD_BLOCK_SIZE as nat, |i: int| 0u8)
}

/// The first six of `bytes`, followed by zeros up to six bytes.
pub open spec fn pad_response(bytes: Seq<u8>) -> Seq<u8> {
    Seq::new(SD_CMD_BUF_LEN as nat, |i: int| if i < bytes.len() { bytes[i] } else { 0u8 })
}

/// The 32-bit big-endian argument held in command bytes 1 to 4.
pub open spec fn command_arg(c: Seq<u8>) -> u32 {
    ((c[1] as u32) << 24u32) | ((c[2] as u32) << 16u32) | ((c[3] as u32) << 8u32) | (c[4] as u32)
}

impl SdCard {
    pub open spec fn wf(&self) -> bool {
        &&& self.command@.len() == SD_CMD_BUF_LEN
        &&& self.response@.len() == SD_CMD_BUF_LEN
        &&& self.response_len <= SD_CMD_BUF_LEN
        &&& self.data_buffer@.len() == SD_BLOCK_SIZE
        &&& forall|b: u32| #[trigger] self.storage@.contains_key(b) ==> self.storage@[b]@.len() == SD_BLOCK_SIZE
    }

    /// Stored blocks, by block index.
    pub open spec fn blocks(&self) -> Map<u32, Seq<u8>> {
        self.storage@.map_values(|v: Vec<u8>| v@)
    }

    pub open spec fn cmd_index(&self) -> u8 {
        self.command@[0] & 0x3F
    }

    pub open spec fn arg(&self) -> u32 {
        command_arg(self.command@)
    }

    /// Status byte of most replies: 0 once initialised, else 1 (idle).
    pub open spec fn status_byte(&self) -> u8 {
        if self.initialized { 0 } else { 1 }
    }

    /// Whether a block command may proceed.
    pub open spec fn block_ok(&self) -> bool {
        self.initialized && (self.high_capacity || self.arg() % 512 == 0)
    }

    /// Block addressed by a block command: the argument is a block number
    /// on a high-capacity card, a byte address otherwise.
    pub open spec fn block_index(&self) -> u32 {
        if self.high_capacity { self.arg() } else { self.arg() / 512 }
    }

    /// Contents of a block: what was stored, or zeros.
    pub open spec fn block_data(&self, b: u32) -> Seq<u8> {
        if self.blocks().contains_key(b) { self.blocks()[b] } else { zero_block() }
    }

    /// OCR as reported: bit 30 tells a high-capacity card.
    pub open spec fn reported_ocr(&self) -> u32 {
        if self.high_capacity { self.ocr | 0x4000_0000 } else { self.ocr & !0x4000_0000u32 }
    }

    /// The reply to the current command.
    pub open spec fn reply(&self) -> Seq<u8> {
        let cmd = self.cmd_index();
        let c = self.command@;
        if cmd == 0 {
            seq![1u8]
        } else if cmd == 8 {
            seq![self.status_byte(), c[1], c[2], c[3], c[4]]
        } else if cmd == 55 {
            seq![self.status_byte()]
        } else if cmd == 41 {
            if self.awaiting_app_cmd { seq![0u8] } else { seq![5u8] }
        } else if cmd == 58 {
            let o = self.reported_ocr();
            seq![self.status_byte(), (o >> 24u32) as u8, ((o >> 16u32) & 0xFF) as u8, ((o >> 8u32) & 0xFF) as u8, (o & 0xFF) as u8]
        } else if cmd == 17 || cmd == 24 {
            if self.block_ok() { seq![0u8] } else { seq![5u8] }
        } else {
            seq![5u8]
        }
    }

    /// The card state after the current command: flags, buffer and blocks.
    pub open spec fn executed(&self, next: &SdCard) -> bool {
        let cmd = self.cmd_index();
        let acmd_ok = cmd == 41 && self.awaiting_app_cmd;
        &&& next.command@ == self.command@
        &&& next.ocr == self.ocr
        &&& !next.busy
        &&& next.response@ == pad_response(self.reply())
        &&& next.response_len == self.reply().len()
        &&& next.idle == if cmd == 0 { true } else if acmd_ok { false } else { self.idle }
        &&& next.initialized == if cmd == 0 { false } else if acmd_ok { true } else { self.initialized }
        &&& next.high_capacity == if cmd == 0 { false } else if acmd_ok {
            self.arg() & 0x4000_0000 != 0
        } else {
            self.high_capacity
        }
        &&& next.awaiting_app_cmd == (cmd == 55)
        &&& next.data_buffer@ == if cmd == 17 && self.block_ok() {
            self.block_data(self.block_index())
        } else {
            self.data_buffer@
        }
        &&& next.blocks() == if (cmd == 17 || cmd == 24) && self.block_ok() {
            self.blocks().insert(
                self.block_index(),
                if cmd == 17 { self.block_data(self.block_index()) } else { self.data_buffer@ },
            )
        } else {
            self.blocks()
        }
    }

    /// A card in the idle state with no stored blocks.
    pub fn new() -> (r: SdCard)
        ensures
            r.wf(),
            r.idle,
            !r.initialized,
            !r.high_capacity,
            !r.awaiting_app_cmd,
            !r.busy,
            r.ocr == SD_OCR,
            r.response_len == 0,
            r.blocks() == Map::<u32, Seq<u8>>::empty(),
            r.data_buffer@ == zero_block(),
    {
        let r = SdCard {
            command: vec![0u8; SD_CMD_BUF_LEN],
            response: vec![0u8; SD_CMD_BUF_LEN],
            response_len: 0,
            data_buffer: vec![0u8; SD_BLOCK_SIZE],
            storage: HashMap::new(),
            idle: true,
            initialized: false,
            high_capacity: false,
            awaiting_app_cmd: false,
            ocr: SD_OCR,
            busy: false,
        };
        assert(r.blocks() =~= Map::<u32, Seq<u8>>::empty());
        assert(r.data_buffer@ =~= zero_block());
        r
    }

    /// The busy byte read back through the bus.
    pub fn status(&self) -> (r: u8)
        ensures
            r == if self.busy { 1u8 } else { 0u8 },
    {
        if self.busy { 1 } else { 0 }
    }

    /// Stores command byte `offset`; the byte is echoed in the response.
    pub fn write_command_byte(&mut self, offset: usize, value: u8)
        requires
            old(self).wf(),
        ensures
            final(self).wf(),
            offset < SD_CMD_BUF_LEN ==> {
                &&& final(self).command@ == old(self).command@.update(offset as int, value)
                &&& final(self).response@ == old(self).response@.update(offset as int, value)
                &&& final(self).response_len == if offset + 1 > old(self).response_len {
                    offset + 1
                } else {
                    old(self).response_len as int
                }
            },
            offset >= SD_CMD_BUF_LEN ==> *final(self) == *old(self),
            final(self).data_buffer == old(self).data_buffer,
            final(self).storage == old(self).storage,
            final(self).idle == old(self).idle,
            final(self).initialized == old(self).initialized,
            final(self).high_capacity == old(self).high_capacity,
            final(self).awaiting_app_cmd == old(self).awaiting_app_cmd,
            final(self).ocr == old(self).ocr,
            final(self).busy == old(self).busy,
    {
        if offset < SD_CMD_BUF_LEN {
            self.command.set(offset, value);
            self.response.set(offset, value);
            if offset + 1 > self.response_len {
                self.response_len = offset + 1;
            }
        }
    }

    /// Stores byte `offset` of the data buffer.
    pub fn write_data_byte(&mut self, offset: usize, value: u8)
        requires
            old(self).wf(),
        ensures
            final(self).wf(),
            final(self).data_buffer@ == if offset < SD_BLOCK_SIZE {
                old(self).data_buffer@.update(offset as int, value)
            } else {
                old(self).data_buffer@
            },
            final(self).command == old(self).command,
            final(self).response == old(self).response,
            final(self).response_len == old(self).response_len,
            final(self).storage == old(self).storage,
            final(self).idle == old(self).idle,
            final(self).initialized == old(self).initialized,
            final(self).high_capacity == old(self).high_capacity,
            final(self).awaiting_app_cmd == old(self).awaiting_app_cmd,
            final(self).ocr == old(self).ocr,
            final(self).busy == old(self).busy,
    {
        if offset < SD_BLOCK_SIZE {
            self.data_buffer.set(offset, value);
        }
    }

    /// A copy of stored block `b`, or zeros when nothing was stored there.
    fn load_block(&self, b: u32) -> (r: Vec<u8>)
        requires
            self.wf(),
        ensures
            r@ == self.block_data(b),
    {
        match self.storage.get(&b) {
            Some(v) => {
                let d = v.clone();
                assert(d@ =~= v@);
                d
            },
            None => {
                let d = vec![0u8; SD_BLOCK_SIZE];
                assert(d@ =~= zero_block());
                d
            },
        }
    }

    /// Stores `data` as block `b`.
    fn store_block(&mut self, b: u32, data: Vec<u8>)
        requires
            old(self).wf(),
            data@.len() == SD_BLOCK_SIZE,
        ensures
            final(self).wf(),
            final(self).blocks() == old(self).blocks().insert(b, data@),
            final(self).command == old(self).command,
            final(self).response == old(self).response,
            final(self).response_len == old(self).response_len,
            final(self).data_buffer == old(self).data_buffer,
            final(self).idle == old(self).idle,
            final(self).initialized == old(self).initialized,
            final(self).high_capacity == old(self).high_capacity,
            final(self).awaiting_app_cmd == old(self).awaiting_app_cmd,
            final(self).ocr == old(self).ocr,
            final(self).busy == old(self).busy,
    {
        let ghost d = data@;
        self.storage.insert(b, data);
        assert(self.blocks() =~= old(self).blocks().insert(b, d));
    }

    /// Executes the command held in the command bytes: sets the response
    /// and the card state as `executed` describes, and always asks for an
    /// interrupt.
    pub fn execute(&mut self) -> (r: SdCommandResult)
        requires
            old(self).wf(),
        ensures
            final(self).wf(),
            old(self).executed(&*final(self)),
            r.response_len == old(self).reply().len(),
            r.update_data_buffer == (old(self).cmd_index() == 17 && old(self).block_ok()),
            r.interrupt,
    {
        self.busy = true;
        let cmd = self.command[0] & 0x3F;
        let arg = ((self.command[1] as u32) << 24u32) | ((self.command[2] as u32) << 16u32)
            | ((self.command[3] as u32) << 8u32) | (self.command[4] as u32);
        let status: u8 = if self.initialized { 0 } else { 1 };
        let is_acmd = cmd == 41;
        if cmd != 55 && !is_acmd {
            self.awaiting_app_cmd = false;
        }
        let mut update_data_buffer = false;
        if cmd == 0 {
            self.idle = true;
            self.initialized = false;
            self.high_capacity = false;
            self.awaiting_app_cmd = false;
            self.set_response(&[0x01u8]);
        } else if cmd == 8 {
            let resp = [status, self.command[1], self.command[2], self.command[3], self.command[4]];
            self.set_response(&resp);
        } else if cmd == 55 {
            self.awaiting_app_cmd = true;
            self.set_response(&[status]);
        } else if cmd == 41 {
            if !self.awaiting_app_cmd {
                self.set_response(&[0x05u8]);
            } else {
                self.awaiting_app_cmd = false;
                self.initialized = true;
                self.idle = false;
                self.high_capacity = (arg & 0x4000_0000) != 0;
                self.set_response(&[0x00u8]);
            }
        } else if cmd == 58 {
            let ocr = if self.high_capacity { self.ocr | 0x4000_0000 } else { self.ocr & !0x4000_0000u32 };
            let resp = [
                status,
                (ocr >> 24u32) as u8,
                ((ocr >> 16u32) & 0xFF) as u8,
                ((ocr >> 8u32) & 0xFF) as u8,
                (ocr & 0xFF) as u8,
            ];
            self.set_response(&resp);
        } else if cmd == 17 || cmd == 24 {
            if !self.initialized || (!self.high_capacity && arg % 512 != 0) {
                self.set_response(&[0x05u8]);
            } else {
                let block = if self.high_capacity { arg } else { arg / 512 };
                if cmd == 17 {
                    let data = self.load_block(block);
                    let copy = self.load_block(block);
                    self.store_block(block, copy);
                    self.data_buffer = data;
                    update_data_buffer = true;
                } else {
                    let data = self.data_buffer.clone();
                    assert(data@ =~= self.data_buffer@);
                    self.store_block(block, data);
                }
                self.set_response(&[0x00u8]);
            }
        } else {
            self.set_response(&[0x05u8]);
        }
        assert(self.response@ =~= pad_response(old(self).reply()));
        self.busy = false;
        SdCommandResult { response_len: self.response_len, update_data_buffer, interrupt: true }
    }

    /// Sets the response to `bytes` (at most six kept), padded with zeros;
    /// the response length is at least one.
    pub fn set_response(&mut self, bytes: &[u8])
        requires
            old(self).wf(),
        ensures
            final(self).wf(),
            final(self).response@ == pad_response(bytes@),
            final(self).response_len == if bytes@.len() == 0 {
                1
            } else if bytes@.len() > 6 {
                6
            } else {
                bytes@.len() as int
            },
            final(self).command == old(self).command,
            final(self).data_buffer == old(self).data_buffer,
            final(self).storage == old(self).storage,
            final(self).idle == old(self).idle,
            final(self).initialized == old(self).initialized,
            final(self).high_capacity == old(self).high_capacity,
            final(self).awaiting_app_cmd == old(self).awaiting_app_cmd,
            final(self).ocr == old(self).ocr,
            final(self).busy == old(self).busy,
    {
        let mut i: usize = 0;
        while i < SD_CMD_BUF_LEN
            invariant
                i <= SD_CMD_BUF_LEN,
                self.response@.len() == SD_CMD_BUF_LEN,
                forall|j: int| 0 <= j < i ==> self.response@[j] == pad_response(bytes@)[j],
                self.command == old(self).command,
                self.data_buffer == old(self).data_buffer,
                self.storage == old(self).storage,
                self.idle == old(self).idle,
                self.initialized == old(self).initialized,
                self.high_capacity == old(self).high_capacity,
                self.awaiting_app_cmd == old(self).awaiting_app_cmd,
                self.ocr == old(self).ocr,
                self.busy == old(self).busy,
                self.response_len == old(self).response_len,
            decreases SD_CMD_BUF_LEN - i,
        {
            let v = if i < bytes.len() { bytes[i] } else { 0u8 };
            assert(pad_response(bytes@)[i as int] == v);
            self.response.set(i, v);
            i += 1;
        }
        assert(self.response@ =~= pad_response(bytes@));
        let n = if bytes.len() > SD_CMD_BUF_LEN { SD_CMD_BUF_LEN } else { bytes.len() };
        self.response_len = if n == 0 { 1 } else { n };
    }
}

} // verus!
