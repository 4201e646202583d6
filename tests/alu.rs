use dioptase::alu::{alu_compute, branch_condition, compute_flags, decode_alu_imm, FLAG_C, FLAG_S, FLAG_V, FLAG_Z};

fn flags_after(op: u32, lhs: u32, rhs: u32) -> (u32, u32) {
    let (res, carry) = alu_compute(op, lhs, rhs, false).unwrap();
    (res, compute_flags(0, op, res, lhs, rhs, carry))
}

#[test]
fn add_carry_and_zero() {
    let (r, f) = flags_after(14, 0xFFFF_FFFF, 1);
    assert_eq!(r, 0);
    assert_eq!(f & FLAG_C, FLAG_C);
    assert_eq!(f & FLAG_Z, FLAG_Z);
    assert_eq!(f & FLAG_S, 0);
    assert_eq!(f & FLAG_V, 0);
}

#[test]
fn add_signed_overflow() {
    let (r, f) = flags_after(14, 0x7FFF_FFFF, 1);
    assert_eq!(r, 0x8000_0000);
    assert_eq!(f & FLAG_C, 0);
    assert_eq!(f & FLAG_Z, 0);
    assert_eq!(f & FLAG_S, FLAG_S);
    assert_eq!(f & FLAG_V, FLAG_V);
}

#[test]
fn logic_and_shift_results() {
    assert_eq!(alu_compute(0, 0xF0F0, 0xFF00, false), Some((0xF000, false)));
    assert_eq!(alu_compute(6, 0, 0, false), Some((0xFFFF_FFFF, false)));
    assert_eq!(alu_compute(7, 0x8000_0001, 1, false), Some((2, true)));
    assert_eq!(alu_compute(8, 3, 1, false), Some((1, true)));
    assert_eq!(alu_compute(9, 0x8000_0000, 4, false), Some((0xF800_0000, false)));
    assert_eq!(alu_compute(10, 0x8000_0001, 1, false), Some((3, true)));
    assert_eq!(alu_compute(11, 1, 1, false), Some((0x8000_0000, true)));
    assert_eq!(alu_compute(12, 0, 1, true), Some((1, false)));
    assert_eq!(alu_compute(13, 0, 1, true), Some((0x8000_0000, false)));
}

#[test]
fn arithmetic_results() {
    assert_eq!(alu_compute(15, 1, 1, true), Some((3, false)));
    assert_eq!(alu_compute(16, 5, 3, false), Some((2, true)));
    assert_eq!(alu_compute(16, 3, 5, false), Some((0xFFFF_FFFE, false)));
    assert_eq!(alu_compute(17, 5, 3, false), Some((1, true)));
    assert_eq!(alu_compute(18, 0, 0x80, false), Some((0xFFFF_FF80, false)));
    assert_eq!(alu_compute(19, 0, 0x7FFF, false), Some((0x7FFF, false)));
    assert_eq!(alu_compute(20, 0, 0x1234, false), Some((0x34, false)));
    assert_eq!(alu_compute(21, 0, 0x12345, false), Some((0x2345, false)));
    assert_eq!(alu_compute(22, 0, 0, false), None);
}

#[test]
fn subtraction_overflow_flag() {
    let (r, f) = flags_after(16, 0x8000_0000, 1);
    assert_eq!(r, 0x7FFF_FFFF);
    assert_eq!(f & FLAG_V, FLAG_V);
}

#[test]
fn immediate_decoding() {
    assert_eq!(decode_alu_imm(0, 0x2AB), Some(0xAB_0000));
    assert_eq!(decode_alu_imm(7, 0xFFF), Some(0x1F));
    assert_eq!(decode_alu_imm(14, 0x800), Some(0xFFFF_F800));
    assert_eq!(decode_alu_imm(14, 0x7FF), Some(0x7FF));
    assert_eq!(decode_alu_imm(30, 0), None);
}

#[test]
fn branch_conditions() {
    assert_eq!(branch_condition(0, 0), Some(true));
    assert_eq!(branch_condition(1, FLAG_Z), Some(true));
    assert_eq!(branch_condition(2, FLAG_Z), Some(false));
    assert_eq!(branch_condition(11, 0), Some(true));
    assert_eq!(branch_condition(11, FLAG_S), Some(false));
    assert_eq!(branch_condition(15, FLAG_C), Some(true));
    assert_eq!(branch_condition(17, 0), Some(true));
    assert_eq!(branch_condition(19, 0), None);
}
