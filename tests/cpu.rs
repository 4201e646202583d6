use std::collections::HashMap;

use dioptase::cpu::{Core, StepOutcome, CR_CID, CR_EPC, CR_FLG, CR_IMR, CR_ISR, CR_KSP, CR_MBI, CR_MBO, CR_PSR, CR_TLB};
use dioptase::interrupts::InterruptController;
use dioptase::memory::{Memory, PIT_START};

fn alu_reg(op: u32, ra: u32, rb: u32, rc: u32) -> u32 {
    (ra << 22) | (rb << 17) | (op << 5) | rc
}

fn alu_imm(op: u32, ra: u32, rb: u32, imm: u32) -> u32 {
    (1 << 27) | (ra << 22) | (rb << 17) | (op << 12) | (imm & 0xFFF)
}

fn kernel(op: u32, sub: u32, ra: u32, rb: u32, low: u32) -> u32 {
    (31 << 27) | (ra << 22) | (rb << 17) | (op << 12) | (sub << 10) | low
}

/// A bus whose low memory holds `vectors` (vector number, handler).
fn bus(vectors: &[(u32, u32)]) -> Memory {
    let mut ram = HashMap::new();
    for (v, h) in vectors {
        for i in 0..4 {
            ram.insert(v * 4 + i, (h >> (8 * i)) as u8);
        }
    }
    Memory::new(ram, false)
}

#[test]
fn alu_add_sets_carry_and_zero() {
    let mut mem = bus(&[]);
    let mut ic = InterruptController::new(1);
    let mut c = Core::new(0);
    c.write_reg(2, 0xFFFF_FFFF);
    c.write_reg(3, 1);
    c.execute(&mut mem, &mut ic, alu_reg(14, 1, 2, 3));
    assert_eq!(c.get_reg(1), 0);
    assert_eq!(c.read_creg(CR_FLG) & 0xF, 0b0011);
    assert_eq!(c.pc(), 0x404);
}

#[test]
fn alu_add_signed_overflow() {
    let mut mem = bus(&[]);
    let mut ic = InterruptController::new(1);
    let mut c = Core::new(0);
    c.write_reg(2, 0x7FFF_FFFF);
    c.write_reg(3, 1);
    c.execute(&mut mem, &mut ic, alu_reg(14, 1, 2, 3));
    assert_eq!(c.get_reg(1), 0x8000_0000);
    assert_eq!(c.read_creg(CR_FLG) & 0xF, 0b1100);
}

#[test]
fn subtract_immediate_takes_register_from_immediate() {
    let mut mem = bus(&[]);
    let mut ic = InterruptController::new(1);
    let mut c = Core::new(0);
    c.write_reg(2, 3);
    c.execute(&mut mem, &mut ic, alu_imm(16, 1, 2, 10));
    assert_eq!(c.get_reg(1), 7);
}

#[test]
fn r0_stays_zero() {
    let mut mem = bus(&[]);
    let mut ic = InterruptController::new(1);
    let mut c = Core::new(0);
    c.write_reg(2, 5);
    c.execute(&mut mem, &mut ic, alu_imm(14, 0, 2, 1));
    assert_eq!(c.get_reg(0), 0);
    c.write_reg(0, 9);
    assert_eq!(c.get_reg(0), 0);
}

#[test]
fn r31_is_kernel_stack_pointer_in_kernel_mode() {
    let mut c = Core::new(0);
    assert!(c.is_kmode());
    c.write_reg(31, 0x1234);
    assert_eq!(c.read_creg(CR_KSP), 0x1234);
    assert_eq!(c.get_reg(31), 0x1234);
    assert_eq!(c.get_reg_raw(31), 0);
}

#[test]
fn illegal_opcode_enters_vector() {
    let mut mem = bus(&[(0x80, 0x3000)]);
    let mut ic = InterruptController::new(1);
    let mut c = Core::new(0);
    c.execute(&mut mem, &mut ic, 25 << 27);
    assert_eq!(c.pc(), 0x3000);
    assert_eq!(c.read_creg(CR_EPC), 0x400);
    assert_eq!(c.read_creg(CR_PSR), 2);
}

#[test]
fn exception_then_rfe_returns_to_epc() {
    let mut mem = bus(&[(0x01, 0x3000)]);
    let mut ic = InterruptController::new(1);
    let mut c = Core::new(0);
    c.execute(&mut mem, &mut ic, (15 << 27) | 1);
    assert_eq!(c.pc(), 0x3000);
    assert_eq!(c.read_creg(CR_EPC), 0x404);
    assert_eq!(c.read_creg(CR_PSR), 2);
    c.execute(&mut mem, &mut ic, kernel(3, 0, 0, 0, 0));
    assert_eq!(c.pc(), 0x404);
    assert_eq!(c.read_creg(CR_PSR), 1);
    assert!(c.is_kmode());
    c.write_creg(CR_EPC, 0x500);
    c.execute(&mut mem, &mut ic, kernel(3, 0, 0, 0, 0));
    assert_eq!(c.pc(), 0x500);
    assert_eq!(c.read_creg(CR_PSR), 0);
    assert!(!c.is_kmode());
}

#[test]
fn rfe_at_level_zero_stays_at_zero() {
    let mut mem = bus(&[]);
    let mut ic = InterruptController::new(1);
    let mut c = Core::new(0);
    c.write_creg(CR_PSR, 0);
    c.write_creg(CR_EPC, 0x600);
    c.execute(&mut mem, &mut ic, kernel(3, 0, 0, 0, 0));
    assert_eq!(c.read_creg(CR_PSR), 0);
    assert_eq!(c.pc(), 0x600);
    assert!(!c.is_kmode());
}

#[test]
fn tlb_user_miss() {
    // user code page 0x1000 mapped R|X|U to itself; vector 0x82 at 0x2000
    let mut mem = bus(&[(0x82, 0x2000)]);
    let mut ic = InterruptController::new(1);
    let mut c = Core::new(0);
    c.write_reg(1, 0x1000 | 0xD);
    c.write_reg(2, 0x1000);
    c.execute(&mut mem, &mut ic, kernel(0, 1, 1, 2, 0));
    c.write_creg(CR_EPC, 0x1000);
    c.execute(&mut mem, &mut ic, kernel(3, 0, 0, 0, 0));
    assert!(!c.is_kmode());
    assert_eq!(c.pc(), 0x1000);
    c.write_reg(3, 0x1234_5000);
    // ldw r4, [r3]
    c.execute(&mut mem, &mut ic, (3 << 27) | (4 << 22) | (3 << 17) | (1 << 16));
    assert_eq!(c.pc(), 0x2000);
    assert_eq!(c.read_creg(CR_EPC), 0x1000);
    assert!(c.is_kmode());
    assert_eq!(c.read_creg(CR_TLB), 0x12345);
}

#[test]
fn privileged_instruction_in_user_mode() {
    let mut mem = bus(&[(0x81, 0x2400)]);
    let mut ic = InterruptController::new(1);
    let mut c = Core::new(0);
    c.write_creg(CR_EPC, 0x700);
    c.execute(&mut mem, &mut ic, kernel(3, 0, 0, 0, 0));
    assert!(!c.is_kmode());
    c.execute(&mut mem, &mut ic, kernel(2, 2, 0, 0, 0));
    assert_eq!(c.pc(), 0x2400);
    assert!(!c.is_halted());
}

#[test]
fn store_and_load_words_and_bytes() {
    let mut mem = bus(&[]);
    let mut ic = InterruptController::new(1);
    let mut c = Core::new(0);
    c.write_reg(1, 0xA1B2_C3D4);
    c.write_reg(2, 0x5000);
    // stw r1, [r2]
    c.execute(&mut mem, &mut ic, (3 << 27) | (1 << 22) | (2 << 17));
    assert_eq!(mem.read32(0x5000), Ok(0xA1B2_C3D4));
    // ldb r3, [r2 + 1]
    c.execute(&mut mem, &mut ic, (9 << 27) | (3 << 22) | (2 << 17) | (1 << 16) | 1);
    assert_eq!(c.get_reg(3), 0xC3);
    // ldd r4, [r2 + 2]
    c.execute(&mut mem, &mut ic, (6 << 27) | (4 << 22) | (2 << 17) | (1 << 16) | 2);
    assert_eq!(c.get_reg(4), 0xA1B2);
    // post-increment word load: r5 <- [r2]; r2 += 4
    c.execute(&mut mem, &mut ic, (3 << 27) | (5 << 22) | (2 << 17) | (1 << 16) | (2 << 14) | 4);
    assert_eq!(c.get_reg(5), 0xA1B2_C3D4);
    assert_eq!(c.get_reg(2), 0x5004);
}

#[test]
fn atomic_swap_across_two_cores() {
    for order in 0..2 {
        let mut mem = bus(&[]);
        let mut ic = InterruptController::new(2);
        let mut a = Core::new(0);
        let mut b = Core::new(1);
        mem.write32(0x6000, 7).unwrap();
        a.write_reg(1, 0xAAAA);
        a.write_reg(2, 0x6000);
        b.write_reg(1, 0xBBBB);
        b.write_reg(2, 0x6000);
        let swap = (19 << 27) | (1 << 22) | (2 << 17);
        if order == 0 {
            a.execute(&mut mem, &mut ic, swap);
            b.execute(&mut mem, &mut ic, swap);
            assert_eq!((a.get_reg(1), b.get_reg(1)), (7, 0xAAAA));
            assert_eq!(mem.read32(0x6000), Ok(0xBBBB));
        } else {
            b.execute(&mut mem, &mut ic, swap);
            a.execute(&mut mem, &mut ic, swap);
            assert_eq!((a.get_reg(1), b.get_reg(1)), (0xBBBB, 7));
            assert_eq!(mem.read32(0x6000), Ok(0xAAAA));
        }
    }
}

#[test]
fn fetch_and_add() {
    let mut mem = bus(&[]);
    let mut ic = InterruptController::new(1);
    let mut c = Core::new(0);
    mem.write32(0x6000, 40).unwrap();
    c.write_reg(1, 2);
    c.write_reg(2, 0x6000);
    c.execute(&mut mem, &mut ic, (16 << 27) | (1 << 22) | (2 << 17));
    assert_eq!(c.get_reg(1), 40);
    assert_eq!(mem.read32(0x6000), Ok(42));
}

#[test]
fn ipi_payload_delivery() {
    let mut mem = bus(&[(0xF5, 0x2800)]);
    let mut ic = InterruptController::new(2);
    let mut c0 = Core::new(0);
    let mut c1 = Core::new(1);
    assert_eq!(c1.read_creg(CR_CID), 1);
    assert!(c1.is_asleep());
    c0.write_creg(CR_MBO, 0xCAFE_BABE);
    // ipi r3, core 1
    c0.execute(&mut mem, &mut ic, kernel(4, 0, 3, 0, 1));
    assert_eq!(c0.get_reg(3), 1);
    c1.check_for_interrupts(&mut mem, &mut ic, 1);
    c1.handle_interrupts(&mut mem);
    assert_eq!(c1.read_creg(CR_MBI), 0xCAFE_BABE);
    assert_eq!(c1.read_creg(CR_ISR) & (1 << 5), 1 << 5);
    assert_eq!(c1.pc(), 0x2800);
    assert!(!c1.is_asleep());
}

#[test]
fn ipi_broadcast_mask() {
    let mut mem = bus(&[]);
    let mut ic = InterruptController::new(3);
    let mut c0 = Core::new(0);
    c0.execute(&mut mem, &mut ic, kernel(4, 0, 3, 0, 1 << 11));
    assert_eq!(c0.get_reg(3), 0b110);
    let mut ic1 = InterruptController::new(2);
    c0.execute(&mut mem, &mut ic1, kernel(4, 0, 3, 0, 3));
    assert_eq!(c0.get_reg(3), 0);
}

#[test]
fn sleep_then_timer_interrupt_resumes_after_sleep() {
    let p = 0x400;
    let mut mem = bus(&[(0xF0, 0x2C00)]);
    mem.write32(PIT_START, 5).unwrap();
    let mut ic = InterruptController::new(1);
    let mut c = Core::new(0);
    c.write_creg(CR_IMR, 0x8000_0001);
    c.execute(&mut mem, &mut ic, kernel(2, 1, 0, 0, 0));
    assert!(c.is_asleep());
    assert_eq!(c.pc(), p);
    assert_eq!(c.step(&mut mem, &mut ic, true), StepOutcome::Sleeping);
    c.check_for_interrupts(&mut mem, &mut ic, 0);
    c.handle_interrupts(&mut mem);
    assert_eq!(c.pc(), 0x2C00);
    assert_eq!(c.read_creg(CR_EPC), p + 4);
    // rfi
    c.execute(&mut mem, &mut ic, kernel(3, 0, 0, 0, 1 << 11));
    assert_eq!(c.pc(), p + 4);
    assert_eq!(c.read_creg(CR_IMR) >> 31, 1);
}

#[test]
fn branch_and_link() {
    let mut mem = bus(&[]);
    let mut ic = InterruptController::new(1);
    let mut c = Core::new(0);
    c.write_reg(2, 0x900);
    // br r29, r2 (absolute, always)
    c.execute(&mut mem, &mut ic, (13 << 27) | (29 << 5) | 2);
    assert_eq!(c.pc(), 0x900);
    assert_eq!(c.get_reg(29), 0x404);
    // bz +8 with Z clear falls through
    c.execute(&mut mem, &mut ic, (12 << 27) | (1 << 22) | 8);
    assert_eq!(c.pc(), 0x904);
    // br -4
    c.execute(&mut mem, &mut ic, (12 << 27) | 0x3F_FFFC);
    assert_eq!(c.pc(), 0x904);
}

#[test]
fn lui_and_crmv() {
    let mut mem = bus(&[]);
    let mut ic = InterruptController::new(1);
    let mut c = Core::new(0);
    c.execute(&mut mem, &mut ic, (2 << 27) | (1 << 22) | 0x48D14);
    assert_eq!(c.get_reg(1), 0x1234_5000);
    // crmv cr11, r1
    c.execute(&mut mem, &mut ic, kernel(1, 0, 11, 1, 0));
    assert_eq!(c.read_creg(CR_MBO), 0x1234_5000);
    // crmv cr9, r1 is ignored
    c.execute(&mut mem, &mut ic, kernel(1, 0, 9, 1, 0));
    assert_eq!(c.read_creg(CR_CID), 0);
    // crmv r5, cr11
    c.execute(&mut mem, &mut ic, kernel(1, 1, 5, 11, 0));
    assert_eq!(c.get_reg(5), 0x1234_5000);
}

#[test]
fn mode_halt_stops_the_core() {
    let mut mem = bus(&[]);
    let mut ic = InterruptController::new(1);
    let mut c = Core::new(0);
    c.execute(&mut mem, &mut ic, kernel(2, 2, 0, 0, 0));
    assert!(c.is_halted());
    assert_eq!(c.step(&mut mem, &mut ic, true), StepOutcome::Idle);
}
