use std::collections::HashMap;

use dioptase::interrupts::InterruptController;
use dioptase::memory::{
    BusError, Memory, PHYSMEM_MAX, PS2_STREAM, SD_BUF_START, SD_CMD_BUF, SD_SEND_BYTE, TILE_MAP_START, UART_RX, UART_TX,
    VGA_STATUS_REGISTER_START,
};
use dioptase::sdcard::SdCard;
use dioptase::tlb::{RandomCache, TLB_CAPACITY};
use dioptase::video::{is_transparent, next_frame, pixel_color, wrap_scroll, FrameBuffer, Rgba, SpriteMap, Tile, TileMap};

#[test]
fn write_then_read_same_byte() {
    let mut m = Memory::new(HashMap::new(), false);
    assert_eq!(m.read(0x1234), Ok(0));
    m.write(0x1234, 0x5A);
    assert_eq!(m.read(0x1234), Ok(0x5A));
    m.write(TILE_MAP_START + 3, 9);
    assert_eq!(m.read(TILE_MAP_START + 3), Ok(9));
}

#[test]
fn word_is_little_endian() {
    let mut m = Memory::new(HashMap::new(), false);
    for (i, b) in [0x11u8, 0x22, 0x33, 0x44].iter().enumerate() {
        m.write(0x800 + i as u32, *b);
    }
    assert_eq!(m.read32(0x800), Ok(0x4433_2211));
    m.write32(0x900, 0xDEAD_BEEF).unwrap();
    assert_eq!(m.read(0x900), Ok(0xEF));
    assert_eq!(m.read(0x903), Ok(0xDE));
}

#[test]
fn bus_errors() {
    let mut m = Memory::new(HashMap::new(), false);
    assert_eq!(m.read(PHYSMEM_MAX + 1), Err(BusError::BadPhysicalAddress(PHYSMEM_MAX + 1)));
    assert_eq!(m.write_phys_bytes(&vec![PHYSMEM_MAX + 1], &vec![0]), Err(BusError::BadPhysicalAddress(PHYSMEM_MAX + 1)));
    assert_eq!(
        m.write_phys_bytes(&vec![0x10, VGA_STATUS_REGISTER_START], &vec![1, 1]),
        Err(BusError::WriteToReadOnly(VGA_STATUS_REGISTER_START))
    );
    assert_eq!(m.read(0x10), Ok(0));
    assert_eq!(m.write_phys_bytes(&vec![UART_RX], &vec![1]), Err(BusError::WriteToReadOnly(UART_RX)));
    assert_eq!(m.read(UART_TX), Err(BusError::ReadFromWriteOnly(UART_TX)));
}

#[test]
fn atomic_swap_and_add() {
    let mut m = Memory::new(HashMap::new(), false);
    m.write32(0x40, 5).unwrap();
    assert_eq!(m.atomic_swap32(0x40, 9), Ok(5));
    assert_eq!(m.read32(0x40), Ok(9));
    assert_eq!(m.atomic_add32(0x40, 0xFFFF_FFFF), Ok(9));
    assert_eq!(m.read32(0x40), Ok(8));
}

#[test]
fn ps2_stream_peeks_then_pops() {
    let mut m = Memory::new(HashMap::new(), false);
    m.push_input(0x1234);
    m.push_input(0x0041);
    assert_eq!(m.read(PS2_STREAM), Ok(0x34));
    assert_eq!(m.read(PS2_STREAM), Ok(0x34));
    assert_eq!(m.read(PS2_STREAM + 1), Ok(0x12));
    assert_eq!(m.read(PS2_STREAM), Ok(0x41));
}

#[test]
fn uart_input_and_output() {
    let mut m = Memory::new(HashMap::new(), true);
    m.push_input(0x0141);
    m.push_input(0x0042);
    assert_eq!(m.read(UART_RX), Ok(0));
    assert_eq!(m.read(UART_RX), Ok(0x42));
    assert_eq!(m.read(UART_RX), Ok(0));
    m.write(UART_TX, b'h');
    m.write(UART_TX, b'i');
    assert_eq!(m.take_output(), b"hi".to_vec());
    assert!(m.take_output().is_empty());
}

#[test]
fn sd_card_through_the_bus() {
    let mut m = Memory::new(HashMap::new(), false);
    // CMD55 then ACMD41 initialise the card
    let send = |m: &mut Memory, cmd: [u8; 6]| {
        for (i, b) in cmd.iter().enumerate() {
            m.write(SD_CMD_BUF + i as u32, *b);
        }
        m.write(SD_SEND_BYTE, 1);
    };
    send(&mut m, [0x40, 0, 0, 0, 0, 0x95]);
    assert_eq!(m.read(SD_CMD_BUF), Ok(0x01));
    assert_eq!(m.check_interrupts(), 1 << 3);
    assert_eq!(m.check_interrupts(), 0);
    send(&mut m, [0x77, 0, 0, 0, 0, 0]);
    send(&mut m, [0x69, 0x40, 0, 0, 0, 0]);
    assert_eq!(m.read(SD_CMD_BUF), Ok(0x00));
    // write a block, then read it back
    m.write(SD_BUF_START, 0xAB);
    send(&mut m, [0x58, 0, 0, 0, 7, 0]);
    assert_eq!(m.read(SD_CMD_BUF), Ok(0x00));
    m.write(SD_BUF_START, 0);
    send(&mut m, [0x51, 0, 0, 0, 7, 0]);
    assert_eq!(m.read(SD_BUF_START), Ok(0xAB));
    assert_eq!(m.read(SD_SEND_BYTE), Ok(0));
}

#[test]
fn sd_card_commands() {
    let mut sd = SdCard::new();
    for (i, b) in [0x48u8, 0, 0, 0x01, 0xAA, 0].iter().enumerate() {
        sd.write_command_byte(i, *b);
    }
    let r = sd.execute();
    assert_eq!(r.response_len, 5);
    assert_eq!(sd.response, vec![0x01, 0, 0, 0x01, 0xAA, 0]);
    sd.write_command_byte(0, 0x7A);
    let r = sd.execute();
    assert_eq!(r.response_len, 5);
    assert_eq!(sd.response[1..5].to_vec(), vec![0x00, 0xFF, 0x80, 0x00]);
    sd.write_command_byte(0, 0x51);
    sd.execute();
    assert_eq!(sd.response[0], 0x05);
    sd.write_command_byte(0, 0x69);
    sd.execute();
    assert_eq!(sd.response[0], 0x05);
    assert_eq!(sd.status(), 0);
}

#[test]
fn tlb_lookup_permissions_and_eviction() {
    let mut t = RandomCache::new(TLB_CAPACITY);
    t.write(1, 0x12345, 0x0007_7000 | 0x1 | 0x8);
    assert_eq!(t.access(1, 0x12345, 0, false), Some(0x0007_7000));
    assert_eq!(t.access(1, 0x12345, 1, false), None);
    assert_eq!(t.access(2, 0x12345, 0, true), None);
    t.write(0, 0x55, 0x0009_9000 | 0x10 | 0x4);
    assert_eq!(t.access(7, 0x55, 2, true), Some(0x0009_9000));
    assert_eq!(t.access(7, 0x55, 2, false), None);
    assert_eq!(t.read(3, 0x55), Some(0x0009_9014));
    t.invalidate(0, 0x55);
    assert_eq!(t.read(3, 0x55), None);
    for v in 0..(TLB_CAPACITY as u32 + 5) {
        t.write(4, v, 0x1000 | 0x1);
    }
    let mut held = 0;
    for v in 0..(TLB_CAPACITY as u32 + 5) {
        if t.read(4, v).is_some() {
            held += 1;
        }
    }
    assert_eq!(held, TLB_CAPACITY);
    assert_eq!(t.read(4, TLB_CAPACITY as u32 + 4), Some(0x1001));
    t.clear();
    assert_eq!(t.read(1, 0x12345), None);
}

#[test]
fn tlb_private_entry_refusing_is_a_miss() {
    let mut t = RandomCache::new(TLB_CAPACITY);
    // private entry readable only, global entry writable
    t.write(1, 0x40, 0x0001_0000 | 0x1);
    t.write(1, 0x40, 0x0002_0000 | 0x2 | 0x10);
    assert_eq!(t.access(1, 0x40, 1, true), None);
    assert_eq!(t.access(1, 0x40, 0, true), Some(0x0001_0000));
    assert_eq!(t.access(2, 0x40, 1, true), Some(0x0002_0000));
}

#[test]
fn interrupt_controller_routing() {
    let mut ic = InterruptController::new(2);
    ic.set_pending_bits(1, 0b100);
    ic.set_pending_bits(1, 0b1);
    assert_eq!(ic.take_pending(1), 0b101);
    assert_eq!(ic.take_pending(1), 0);
    ic.dispatch_input(false, true);
    ic.dispatch_input(false, true);
    assert_eq!(ic.take_pending(0), 0b10);
    assert_eq!(ic.take_pending(1), 0);
    ic.ack_input(0, 0b10);
    ic.dispatch_input(false, true);
    assert_eq!(ic.take_pending(1), 0b10);
    ic.dispatch_device_interrupts((1 << 3) | (1 << 4));
    ic.dispatch_device_interrupts(1 << 3);
    assert_eq!(ic.take_pending(0), (1 << 3) | (1 << 4));
    assert_eq!(ic.take_pending(1), 1 << 3);
    assert!(ic.send_ipi(1, 77));
    assert!(!ic.send_ipi(2, 77));
    assert_eq!(ic.ipi_payload(1), 77);
    assert_eq!(ic.send_ipi_all(0, 5), 0b10);
}

#[test]
fn video_memory() {
    let mut fb = FrameBuffer::new(640, 480);
    assert_eq!(fb.width_tiles, 80);
    fb.set_tile_pair(2, 0x34);
    fb.set_tile_pair(3, 0x12);
    assert_eq!(fb.get_tile_pair(2), 0x34);
    assert_eq!(fb.get_pixel(1, 0), 0x1234);
    assert_eq!(fb.get_tile(2, 0), 0x34);
    let mut tm = TileMap::new(0x8000);
    assert_eq!(tm.tiles.len(), 256);
    tm.set_tile_byte(130, 7);
    assert_eq!(tm.get_tile_byte(130), 7);
    assert_eq!(tm.tiles[1].pixels[2], 7);
    assert_eq!(Tile::white().pixels[0], 0xFF);
    let mut sm = SpriteMap::new(0x8000);
    assert_eq!(sm.sprites.len(), 16);
    assert_eq!(sm.get_sprite_byte(5), 0xFF);
    sm.set_sprite_reg(6, 3);
    assert_eq!(sm.get_sprite_reg(6), 3);
    assert_eq!(sm.sprites[1].y.0, 3);
    sm.set_sprite_byte(2048, 1);
    assert_eq!(sm.sprites[1].pixels[0], 1);
}

#[test]
fn display_helpers() {
    assert_eq!(pixel_color(0x21, 0x03), Rgba { red: 16, green: 32, blue: 48, alpha: 255 });
    assert!(is_transparent(0xF0));
    assert!(!is_transparent(0x70));
    assert_eq!(next_frame((1, 0, 0, 0)), (2, 0, 0, 0));
    assert_eq!(next_frame((255, 255, 0, 0)), (0, 0, 1, 0));
    assert_eq!(next_frame((255, 255, 255, 255)), (0, 0, 0, 0));
    assert_eq!(wrap_scroll(630, 20, 640), 10);
}

#[test]
fn debug_reads_do_not_consume_input() {
    let mut m = Memory::new(HashMap::new(), false);
    m.push_input(0x0102);
    assert_eq!(m.read_phys8_debug(PS2_STREAM + 1), Ok(0x01));
    assert_eq!(m.read_phys8_debug(PS2_STREAM + 1), Ok(0x01));
    assert_eq!(m.read(PS2_STREAM + 1), Ok(0x01));
    assert_eq!(m.read_phys8_debug(PS2_STREAM), Ok(0));
    assert_eq!(m.read_phys8_debug(UART_TX), Err(BusError::ReadFromWriteOnly(UART_TX)));
}
