use krun::decode::AluOp;
use krun::exec::{alu, alu32};

#[test]
fn m_multiply() {
    assert_eq!(alu(AluOp::Mul, 7, 6), 42);
    let m1 = u64::MAX; // -1
    assert_eq!(alu(AluOp::Mulh, m1, m1), 0); // (-1)*(-1) = 1
    assert_eq!(alu(AluOp::Mulhu, m1, m1), u64::MAX - 1);
    assert_eq!(alu(AluOp::Mulhsu, m1, m1), u64::MAX); // -1 * (2^64-1)
    assert_eq!(alu(AluOp::Mulh, 1 << 63, 2), u64::MAX); // MIN*2 >> 64
    assert_eq!(alu32(AluOp::Mul, 0x7fff_ffff, 2), 0xffff_ffff_ffff_fffe);
}

#[test]
fn m_divide_edge_cases() {
    let neg = |v: i64| v as u64;
    // Division by zero: quotient all-ones, remainder = dividend.
    assert_eq!(alu(AluOp::Div, 42, 0), u64::MAX);
    assert_eq!(alu(AluOp::Divu, 42, 0), u64::MAX);
    assert_eq!(alu(AluOp::Rem, 42, 0), 42);
    assert_eq!(alu(AluOp::Remu, neg(-42), 0), neg(-42));
    // Signed overflow: MIN / -1 = MIN, remainder 0.
    assert_eq!(alu(AluOp::Div, neg(i64::MIN), neg(-1)), neg(i64::MIN));
    assert_eq!(alu(AluOp::Rem, neg(i64::MIN), neg(-1)), 0);
    // Truncating division.
    assert_eq!(alu(AluOp::Div, 20, neg(-6)), neg(-3));
    assert_eq!(alu(AluOp::Rem, 20, neg(-6)), 2);
    assert_eq!(alu(AluOp::Rem, neg(-20), 6), neg(-2));
    // Word forms sign-extend and use 32-bit edge values.
    assert_eq!(alu32(AluOp::Div, 42, 0), u64::MAX);
    assert_eq!(alu32(AluOp::Divu, 42, 0), u64::MAX);
    assert_eq!(alu32(AluOp::Rem, neg(-42), 0), neg(-42));
    assert_eq!(alu32(AluOp::Remu, 0x8000_0000, 0), 0xffff_ffff_8000_0000);
    assert_eq!(
        alu32(AluOp::Div, i32::MIN as u32 as u64, u32::MAX as u64),
        i32::MIN as i64 as u64
    );
    assert_eq!(
        alu32(AluOp::Rem, i32::MIN as u32 as u64, u32::MAX as u64),
        0
    );
    assert_eq!(alu32(AluOp::Divu, 0x8000_0000, 1), 0xffff_ffff_8000_0000);
}
