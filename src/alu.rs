//! The arithmetic/logic unit, the flag word and the branch conditions.
use vstd::prelude::*;

verus! {

/// Flag bits of the FLG control register.
pub const FLAG_C: u32 = 0x1;
pub const FLAG_Z: u32 = 0x2;
pub const FLAG_S: u32 = 0x4;
pub const FLAG_V: u32 = 0x8;

pub const ALU_SUB: u32 = 16;
pub const ALU_SUBB: u32 = 17;
/// Largest valid ALU operation number.
pub const ALU_MAX_OP: u32 = 21;

pub open spec fn sign_extend12(imm: u32) -> u32 {
    if imm & 0x800 != 0 {
        imm | 0xFFFF_F000
    } else {
        imm
    }
}

/// The second operand that the immediate form of operation `op` uses, from
/// the 12-bit immediate field; `None` for an operation that does not exist.
pub open spec fn alu_imm_spec(op: u32, imm: u32) -> Option<u32> {
    if op <= 6 {
        Some((imm & 0xFF) << (8 * ((imm >> 8) & 3)))
    } else if op <= 13 {
        Some(imm & 0x1F)
    } else if op <= ALU_MAX_OP {
        Some(sign_extend12(imm))
    } else {
        None
    }
}

/// Mask of the low `s` bits (s < 32).
pub open spec fn low_mask(s: u32) -> u32 {
    ((1u32 << s) - 1) as u32
}

pub open spec fn wrap32(x: int) -> u32 {
    (x % 0x1_0000_0000) as u32
}

/// Result and carry of ALU operation `op` on `lhs` and `rhs`, with the
/// previous carry `cin`; `None` for an operation that does not exist.
/// Shift amounts are taken modulo 32.
pub open spec fn alu_spec(op: u32, lhs: u32, rhs: u32, cin: bool) -> Option<(u32, bool)> {
    let s = rhs & 0x1F;
    let c: u32 = if cin { 1 } else { 0 };
    if op == 0 {
        Some((lhs & rhs, false))
    } else if op == 1 {
        Some((!(lhs & rhs), false))
    } else if op == 2 {
        Some((lhs | rhs, false))
    } else if op == 3 {
        Some((!(lhs | rhs), false))
    } else if op == 4 {
        Some((lhs ^ rhs, false))
    } else if op == 5 {
        Some((!(lhs ^ rhs), false))
    } else if op == 6 {
        Some((!rhs, false))
    } else if op == 7 {
        Some((lhs << s, s > 0 && lhs >> ((32 - s) as u32) != 0))
    } else if op == 8 {
        Some((lhs >> s, lhs & low_mask(s) != 0))
    } else if op == 9 {
        Some((if lhs >> 31 == 0 { lhs >> s } else { !((!lhs) >> s) }, lhs & low_mask(s) != 0))
    } else if s == 0 && 10 <= op <= 13 {
        Some((lhs, false))
    } else if op == 10 {
        Some(((lhs << s) | (lhs >> ((32 - s) as u32)), lhs >> ((32 - s) as u32) != 0))
    } else if op == 11 {
        Some(((lhs >> s) | (lhs << ((32 - s) as u32)), lhs & low_mask(s) != 0))
    } else if op == 12 {
        Some(((lhs << s) | (c << ((s - 1) as u32)), lhs >> ((32 - s) as u32) != 0))
    } else if op == 13 {
        Some(((lhs >> s) | (c << ((32 - s) as u32)), lhs & low_mask(s) != 0))
    } else if op == 14 {
        Some((wrap32(lhs + rhs), lhs + rhs >= 0x1_0000_0000))
    } else if op == 15 {
        Some((wrap32(lhs + rhs + c), lhs + rhs + c >= 0x1_0000_0000))
    } else if op == 16 {
        Some((wrap32(lhs - rhs + 0x1_0000_0000), lhs >= rhs))
    } else if op == 17 {
        Some((wrap32(lhs - rhs - (1 - c) + 0x1_0000_0000), lhs >= rhs + (1 - c)))
    } else if op == 18 {
        Some((if rhs & 0x80 != 0 { rhs | 0xFFFF_FF00 } else { rhs & 0xFF }, false))
    } else if op == 19 {
        Some((if rhs & 0x8000 != 0 { rhs | 0xFFFF_0000 } else { rhs & 0xFFFF }, false))
    } else if op == 20 {
        Some((rhs & 0xFF, false))
    } else if op == 21 {
        Some((rhs & 0xFFFF, false))
    } else {
        None
    }
}

/// The FLG word after an operation: the four arithmetic flags are replaced,
/// the other bits kept. Z and S come from the result; V compares signs, the
/// rule depending on whether the operation subtracts.
pub open spec fn flags_spec(old_flags: u32, op: u32, result: u32, lhs: u32, rhs: u32, carry: bool) -> u32 {
    let rs = result >> 31;
    let ls = lhs >> 31;
    let hs = rhs >> 31;
    let v = if op == ALU_SUB || op == ALU_SUBB {
        rs != ls && ls != hs
    } else {
        rs != ls && ls == hs
    };
    (old_flags & 0xFFFF_FFF0) | (if carry { FLAG_C } else { 0 }) | (if result == 0 { FLAG_Z } else { 0 })
        | (if rs != 0 { FLAG_S } else { 0 }) | (if v { FLAG_V } else { 0 })
}

/// Decodes the 12-bit immediate of an ALU instruction for operation `op`.
pub fn decode_alu_imm(op: u32, imm: u32) -> (r: Option<u32>)
    requires
        imm < 0x1000,
    ensures
        r == alu_imm_spec(op, imm),
{
    if op <= 6 {
        let lane = (imm >> 8) & 3;
        assert(lane <= 3) by (bit_vector)
            requires lane == (imm >> 8) & 3;
        Some((imm & 0xFF) << (8 * lane))
    } else if op <= 13 {
        Some(imm & 0x1F)
    } else if op <= ALU_MAX_OP {
        if imm & 0x800 != 0 {
            Some(imm | 0xFFFF_F000)
        } else {
            Some(imm)
        }
    } else {
        None
    }
}

fn low_bits(s: u32) -> (r: u32)
    requires
        s < 32,
    ensures
        r == low_mask(s),
{
    assert(1u32 << s >= 1) by (bit_vector)
        requires s < 32;
    (1u32 << s) - 1
}

/// Computes ALU operation `op` on `lhs` and `rhs` with previous carry `cin`.
pub fn alu_compute(op: u32, lhs: u32, rhs: u32, cin: bool) -> (r: Option<(u32, bool)>)
    ensures
        r == alu_spec(op, lhs, rhs, cin),
{
    let s: u32 = rhs & 0x1F;
    assert(s < 32) by (bit_vector)
        requires s == rhs & 0x1F;
    let c: u32 = if cin { 1 } else { 0 };
    if op == 0 {
        Some((lhs & rhs, false))
    } else if op == 1 {
        Some((!(lhs & rhs), false))
    } else if op == 2 {
        Some((lhs | rhs, false))
    } else if op == 3 {
        Some((!(lhs | rhs), false))
    } else if op == 4 {
        Some((lhs ^ rhs, false))
    } else if op == 5 {
        Some((!(lhs ^ rhs), false))
    } else if op == 6 {
        Some((!rhs, false))
    } else if op == 7 {
        Some((lhs << s, s > 0 && lhs >> (32 - s) != 0))
    } else if op == 8 {
        Some((lhs >> s, lhs & low_bits(s) != 0))
    } else if op == 9 {
        Some((if lhs >> 31 == 0 { lhs >> s } else { !((!lhs) >> s) }, lhs & low_bits(s) != 0))
    } else if s == 0 && 10 <= op && op <= 13 {
        Some((lhs, false))
    } else if op == 10 {
        Some(((lhs << s) | (lhs >> (32 - s)), lhs >> (32 - s) != 0))
    } else if op == 11 {
        Some(((lhs >> s) | (lhs << (32 - s)), lhs & low_bits(s) != 0))
    } else if op == 12 {
        Some(((lhs << s) | (c << (s - 1)), lhs >> (32 - s) != 0))
    } else if op == 13 {
        Some(((lhs >> s) | (c << (32 - s)), lhs & low_bits(s) != 0))
    } else if op == 14 {
        let sum: u64 = lhs as u64 + rhs as u64;
        Some(((sum % 0x1_0000_0000) as u32, sum >= 0x1_0000_0000))
    } else if op == 15 {
        let sum: u64 = lhs as u64 + rhs as u64 + c as u64;
        Some(((sum % 0x1_0000_0000) as u32, sum >= 0x1_0000_0000))
    } else if op == 16 {
        let d: u64 = lhs as u64 + 0x1_0000_0000 - rhs as u64;
        Some(((d % 0x1_0000_0000) as u32, lhs >= rhs))
    } else if op == 17 {
        let d: u64 = lhs as u64 + 0x1_0000_0000 - rhs as u64 - (1 - c) as u64;
        Some(((d % 0x1_0000_0000) as u32, lhs as u64 >= rhs as u64 + (1 - c) as u64))
    } else if op == 18 {
        Some((if rhs & 0x80 != 0 { rhs | 0xFFFF_FF00 } else { rhs & 0xFF }, false))
    } else if op == 19 {
        Some((if rhs & 0x8000 != 0 { rhs | 0xFFFF_0000 } else { rhs & 0xFFFF }, false))
    } else if op == 20 {
        Some((rhs & 0xFF, false))
    } else if op == 21 {
        Some((rhs & 0xFFFF, false))
    } else {
        None
    }
}

/// The new FLG word after an operation; see `flags_spec`.
pub fn compute_flags(old_flags: u32, op: u32, result: u32, lhs: u32, rhs: u32, carry: bool) -> (r: u32)
    ensures
        r == flags_spec(old_flags, op, result, lhs, rhs, carry),
{
    let rs = result >> 31;
    let ls = lhs >> 31;
    let hs = rhs >> 31;
    let v = if op == ALU_SUB || op == ALU_SUBB {
        rs != ls && ls != hs
    } else {
        rs != ls && ls == hs
    };
    (old_flags & 0xFFFF_FFF0) | (if carry { FLAG_C } else { 0 }) | (if result == 0 { FLAG_Z } else { 0 })
        | (if rs != 0 { FLAG_S } else { 0 }) | (if v { FLAG_V } else { 0 })
}

/// Whether branch condition `op` holds for the flag word `flags`; `None`
/// for a condition that does not exist.
pub open spec fn condition_spec(op: u32, flags: u32) -> Option<bool> {
    let c = flags & FLAG_C != 0;
    let z = flags & FLAG_Z != 0;
    let s = flags & FLAG_S != 0;
    let v = flags & FLAG_V != 0;
    if op == 0 { Some(true) }
    else if op == 1 { Some(z) }
    else if op == 2 { Some(!z) }
    else if op == 3 { Some(s) }
    else if op == 4 { Some(!s) }
    else if op == 5 { Some(c) }
    else if op == 6 { Some(!c) }
    else if op == 7 { Some(v) }
    else if op == 8 { Some(!v) }
    else if op == 9 { Some(!z && !s) }
    else if op == 10 { Some(z || s) }
    else if op == 11 { Some(s == v && !z) }
    else if op == 12 { Some(s == v) }
    else if op == 13 { Some(s != v && !z) }
    else if op == 14 { Some(s != v || z) }
    else if op == 15 { Some(!z && c) }
    else if op == 16 { Some(c || z) }
    else if op == 17 { Some(!c && !z) }
    else if op == 18 { Some(!c || z) }
    else { None }
}

/// Evaluates branch condition `op` against the flag word.
pub fn branch_condition(op: u32, flags: u32) -> (r: Option<bool>)
    ensures
        r == condition_spec(op, flags),
{
    let c = flags & FLAG_C != 0;
    let z = flags & FLAG_Z != 0;
    let s = flags & FLAG_S != 0;
    let v = flags & FLAG_V != 0;
    match op {
        0 => Some(true),
        1 => Some(z),
        2 => Some(!z),
        3 => Some(s),
        4 => Some(!s),
        5 => Some(c),
        6 => Some(!c),
        7 => Some(v),
        8 => Some(!v),
        9 => Some(!z && !s),
        10 => Some(z || s),
        11 => Some(s == v && !z),
        12 => Some(s == v),
        13 => Some(s != v && !z),
        14 => Some(s != v || z),
        15 => Some(!z && c),
        16 => Some(c || z),
        17 => Some(!c && !z),
        18 => Some(!c || z),
        _ => None,
    }
}

} // verus!
