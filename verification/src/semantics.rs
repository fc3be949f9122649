//! What the integer instructions compute, in terms of numbers and of single
//! bits.

use vstd::prelude::*;

use crate::cpu::{extended, Hart};
use crate::decode::{AluOp, AmoOp, BranchOp, Instr};
use crate::exec::{
    alu32_of, alu_of, amo_of, branches, int_executed, quotient, remainder, s32, s64, u32_of, wrap32,
    wrap64,
};

verus! {

/// A register read as a two's complement number: its topmost bit counts
/// negatively.
pub open spec fn twos(v: u64) -> int {
    v % 0x8000_0000_0000_0000 - 0x8000_0000_0000_0000 * (v / 0x8000_0000_0000_0000)
}

/// Bit `i` of a register.
pub open spec fn bit_at(v: u64, i: u64) -> u64 {
    (v >> i) & 1
}

/// The low word of a register, with its topmost bit copied upward.
pub open spec fn word_signed(v: u64) -> u64 {
    let low = v % 0x1_0000_0000;
    (low + 0xffff_ffff_0000_0000 * (low / 0x8000_0000)) as u64
}

/// The low word of a register.
pub open spec fn word_unsigned(v: u64) -> u64 {
    v % 0x1_0000_0000
}

proof fn lemma_views(v: u64)
    ensures
        s64(v) == twos(v),
        wrap32(v as int) == word_signed(v),
{
}

/// Sums, differences and products are those of the numbers, as far as they
/// fit; the upper halves of products belong to the lower ones.
#[verifier::rlimit(50)]
pub proof fn arithmetic_is_that_of_numbers(a: u64, b: u64)
    ensures
        (alu_of(AluOp::Add, a, b) - (a + b)) % 0x1_0000_0000_0000_0000 == 0,
        (alu_of(AluOp::Sub, a, b) - (a - b)) % 0x1_0000_0000_0000_0000 == 0,
        alu_of(AluOp::Mulhu, a, b) * 0x1_0000_0000_0000_0000 + alu_of(AluOp::Mul, a, b) == a * b,
        twos(alu_of(AluOp::Mulh, a, b)) * 0x1_0000_0000_0000_0000 + alu_of(AluOp::Mul, a, b)
            == twos(a) * twos(b),
        twos(alu_of(AluOp::Mulhsu, a, b)) * 0x1_0000_0000_0000_0000 + alu_of(AluOp::Mul, a, b)
            == twos(a) * b,
        alu_of(AluOp::Slt, a, b) == (if twos(a) < twos(b) {
            1u64
        } else {
            0
        }),
        alu_of(AluOp::Sltu, a, b) == (if a < b {
            1u64
        } else {
            0
        }),
{
    reveal(alu_of);
    lemma_views(a);
    lemma_views(b);
    let k = 0x1_0000_0000_0000_0000int;
    let (x, y) = (twos(a), twos(b));
    let (i, j) = ((a / 0x8000_0000_0000_0000) as int, (b / 0x8000_0000_0000_0000) as int);
    assert(x == a - k * i && y == b - k * j);
    assert(0 <= a * b < k * k) by (nonlinear_arith)
        requires
            0 <= a < k,
            0 <= b < k,
    ;
    assert(x * y == a * b - k * (i * b + j * a - k * i * j)) by (nonlinear_arith)
        requires
            x == a - k * i,
            y == b - k * j,
    ;
    assert(x * b == a * b - k * (i * b)) by (nonlinear_arith)
        requires
            x == a - k * i,
    ;
    let h = k / 2;
    assert(-(h * h) <= x * y <= h * h) by (nonlinear_arith)
        requires
            -h <= x < h,
            -h <= y < h,
    ;
    assert(-(h * k) <= x * b < h * k) by (nonlinear_arith)
        requires
            -h <= x < h,
            0 <= b < k,
            h > 0,
    ;
    lemma_halves(a * b, 0);
    lemma_halves(a * b, i * b + j * a - k * i * j);
    lemma_halves(a * b, i * b);
}

/// Two numbers that differ by a multiple of the word have the same low half.
proof fn lemma_halves(p: int, n: int)
    ensures
        ({
            let k = 0x1_0000_0000_0000_0000int;
            let q = p - k * n;
            &&& q % k == p % k
            &&& q == (q / k) * k + p % k
            &&& -(k / 2) * k <= q < (k / 2) * k ==> -(k / 2) <= q / k < k / 2
        }),
{
}

/// Logic works bit by bit; shifts move bits by the low six bits of the amount,
/// fill with zeros, or with copies of the topmost bit where the shift is
/// arithmetic.
pub proof fn logic_and_shifts_work_bit_by_bit(a: u64, b: u64, i: u64)
    requires
        i < 64,
    ensures
        ({
            let n = b % 64;
            &&& bit_at(alu_of(AluOp::And, a, b), i) == 1 <==> bit_at(a, i) == 1 && bit_at(b, i) == 1
            &&& bit_at(alu_of(AluOp::Or, a, b), i) == 1 <==> bit_at(a, i) == 1 || bit_at(b, i) == 1
            &&& bit_at(alu_of(AluOp::Xor, a, b), i) == 1 <==> bit_at(a, i) != bit_at(b, i)
            &&& bit_at(alu_of(AluOp::Sll, a, b), i) == (if i < n {
                0
            } else {
                bit_at(a, (i - n) as u64)
            })
            &&& bit_at(alu_of(AluOp::Srl, a, b), i) == (if i + n < 64 {
                bit_at(a, (i + n) as u64)
            } else {
                0
            })
            &&& bit_at(alu_of(AluOp::Sra, a, b), i) == (if i + n < 64 {
                bit_at(a, (i + n) as u64)
            } else {
                bit_at(a, 63)
            })
        }),
{
    reveal(alu_of);
    lemma_bits(a, b, i, b % 64);
}

proof fn lemma_bits(a: u64, b: u64, i: u64, n: u64)
    by (bit_vector)
    requires
        i < 64,
        n < 64,
    ensures
        (((a & b) >> i) & 1 == 1) == ((a >> i) & 1 == 1 && (b >> i) & 1 == 1),
        (((a | b) >> i) & 1 == 1) == ((a >> i) & 1 == 1 || (b >> i) & 1 == 1),
        (((a ^ b) >> i) & 1 == 1) == ((a >> i) & 1 != (b >> i) & 1),
        i < n ==> ((a << n) >> i) & 1 == 0,
        i >= n ==> ((a << n) >> i) & 1 == (a >> ((i - n) as u64)) & 1,
        i + n < 64 ==> ((a >> n) >> i) & 1 == (a >> ((i + n) as u64)) & 1,
        i + n >= 64 ==> ((a >> n) >> i) & 1 == 0,
        i + n < 64 ==> ((((a as i64) >> n) as u64) >> i) & 1 == (a >> ((i + n) as u64)) & 1,
        i + n >= 64 ==> ((((a as i64) >> n) as u64) >> i) & 1 == (a >> 63) & 1,
{
}

/// An instruction on words is the one on whole registers, on the words of its
/// operands, with its result cut to a word and sign-extended. Shifts go by the
/// low five bits of the amount.
pub proof fn word_instructions_work_on_words(a: u64, b: u64)
    ensures
        alu32_of(AluOp::Add, a, b) == word_signed(alu_of(AluOp::Add, a, b)),
        alu32_of(AluOp::Sub, a, b) == word_signed(alu_of(AluOp::Sub, a, b)),
        alu32_of(AluOp::Mul, a, b) == word_signed(alu_of(AluOp::Mul, a, b)),
        alu32_of(AluOp::Sll, a, b) == word_signed(alu_of(AluOp::Sll, a, b % 32)),
        alu32_of(AluOp::Srl, a, b) == word_signed(alu_of(AluOp::Srl, word_unsigned(a), b % 32)),
        alu32_of(AluOp::Sra, a, b) == word_signed(alu_of(AluOp::Sra, word_signed(a), b % 32)),
        alu32_of(AluOp::Div, a, b) == word_signed(
            alu_of(AluOp::Div, word_signed(a), word_signed(b)),
        ),
        alu32_of(AluOp::Divu, a, b) == word_signed(
            alu_of(AluOp::Divu, word_unsigned(a), word_unsigned(b)),
        ),
        alu32_of(AluOp::Rem, a, b) == word_signed(
            alu_of(AluOp::Rem, word_signed(a), word_signed(b)),
        ),
        alu32_of(AluOp::Remu, a, b) == word_signed(
            alu_of(AluOp::Remu, word_unsigned(a), word_unsigned(b)),
        ),
{
    lemma_word_sums(a, b);
    lemma_word_moves(a, b);
    lemma_word_div(a, b);
    lemma_word_divu(a, b);
    lemma_word_rem(a, b);
    lemma_word_remu(a, b);
}

proof fn lemma_word_sums(a: u64, b: u64)
    ensures
        alu32_of(AluOp::Add, a, b) == word_signed(alu_of(AluOp::Add, a, b)),
        alu32_of(AluOp::Sub, a, b) == word_signed(alu_of(AluOp::Sub, a, b)),
        alu32_of(AluOp::Mul, a, b) == word_signed(alu_of(AluOp::Mul, a, b)),
{
    reveal(alu_of);
    reveal(alu32_of);
    lemma_word_of_wrapped(a + b);
    lemma_word_of_wrapped(a - b);
    lemma_word_of_wrapped(a * b);
}

#[verifier::rlimit(50)]
proof fn lemma_word_moves(a: u64, b: u64)
    ensures
        alu32_of(AluOp::Sll, a, b) == word_signed(alu_of(AluOp::Sll, a, b % 32)),
        alu32_of(AluOp::Srl, a, b) == word_signed(alu_of(AluOp::Srl, word_unsigned(a), b % 32)),
        alu32_of(AluOp::Sra, a, b) == word_signed(alu_of(AluOp::Sra, word_signed(a), b % 32)),
{
    reveal(alu_of);
    reveal(alu32_of);
    let n = b % 32;
    assert(n % 64 == n);
    lemma_word_shifts(a, n);
    lemma_word_back((word_signed(a) as i64) >> n);
}

proof fn lemma_word_back(v: i64)
    ensures
        word_signed(v as u64) == wrap32(v as int),
{
    lemma_steps(v, 0);
}

#[verifier::rlimit(50)]
proof fn lemma_word_div(a: u64, b: u64)
    ensures
        alu32_of(AluOp::Div, a, b) == word_signed(alu_of(AluOp::Div, word_signed(a), word_signed(b))),
{
    let (v, w) = (word_signed(a), word_signed(b));
    lemma_word_parts(a);
    lemma_word_parts(b);
    assert(alu32_of(AluOp::Div, a, b) == word_signed(alu_of(AluOp::Div, v, w))) by {
        reveal(alu_of);
        reveal(alu32_of);
        if w != 0 {
            let q = quotient(s32(a), s32(b));
            assert(alu32_of(AluOp::Div, a, b) == wrap32(q));
            assert(alu_of(AluOp::Div, v, w) == wrap64(q));
            lemma_word_of_wrapped(q);
        } else {
            lemma_word_of_wrapped(u64::MAX as int);
            lemma_word_of_wrapped(v as int);
        }
    }
}

proof fn lemma_word_divu(a: u64, b: u64)
    ensures
        alu32_of(AluOp::Divu, a, b) == word_signed(alu_of(AluOp::Divu, word_unsigned(a), word_unsigned(b))),
{
    let (v, w) = (word_unsigned(a), word_unsigned(b));
    lemma_word_parts(a);
    lemma_word_parts(b);
    assert(alu32_of(AluOp::Divu, a, b) == word_signed(alu_of(AluOp::Divu, v, w))) by {
        reveal(alu_of);
        reveal(alu32_of);
        if w != 0 {
            let q = v / w;
            assert(q <= v) by (nonlinear_arith)
                requires
                    w > 0,
                    q == v / w,
            ;
            assert(alu32_of(AluOp::Divu, a, b) == wrap32(q as int));
            assert(alu_of(AluOp::Divu, v, w) == q);
        } else {
            lemma_word_of_wrapped(u64::MAX as int);
            lemma_word_of_wrapped(v as int);
        }
    }
}

#[verifier::rlimit(50)]
proof fn lemma_word_rem(a: u64, b: u64)
    ensures
        alu32_of(AluOp::Rem, a, b) == word_signed(alu_of(AluOp::Rem, word_signed(a), word_signed(b))),
{
    let (v, w) = (word_signed(a), word_signed(b));
    lemma_word_parts(a);
    lemma_word_parts(b);
    assert(alu32_of(AluOp::Rem, a, b) == word_signed(alu_of(AluOp::Rem, v, w))) by {
        reveal(alu_of);
        reveal(alu32_of);
        if w != 0 {
            let q = remainder(s32(a), s32(b));
            assert(alu32_of(AluOp::Rem, a, b) == wrap32(q));
            assert(alu_of(AluOp::Rem, v, w) == wrap64(q));
            lemma_word_of_wrapped(q);
        } else {
            lemma_word_of_wrapped(u64::MAX as int);
            lemma_word_of_wrapped(v as int);
        }
    }
}

proof fn lemma_word_remu(a: u64, b: u64)
    ensures
        alu32_of(AluOp::Remu, a, b) == word_signed(alu_of(AluOp::Remu, word_unsigned(a), word_unsigned(b))),
{
    let (v, w) = (word_unsigned(a), word_unsigned(b));
    lemma_word_parts(a);
    lemma_word_parts(b);
    assert(alu32_of(AluOp::Remu, a, b) == word_signed(alu_of(AluOp::Remu, v, w))) by {
        reveal(alu_of);
        reveal(alu32_of);
        if w != 0 {
            let q = v % w;
            assert(q < w) by (nonlinear_arith)
                requires
                    w > 0,
                    q == v % w,
            ;
            assert(alu32_of(AluOp::Remu, a, b) == wrap32(q as int));
            assert(alu_of(AluOp::Remu, v, w) == q);
        } else {
            lemma_word_of_wrapped(u64::MAX as int);
            lemma_word_of_wrapped(v as int);
        }
    }
}

/// The word of a register, both ways.
proof fn lemma_word_parts(a: u64)
    ensures
        s64(word_signed(a)) == s32(a),
        word_signed(a) == 0 <==> u32_of(a) == 0,
        word_unsigned(a) == u32_of(a),
        wrap32(a as int) == word_signed(a),
        wrap32(word_signed(a) as int) == word_signed(a),
        wrap32(word_unsigned(a) as int) == word_signed(a),
{
}

proof fn lemma_word_of_wrapped(v: int)
    ensures
        word_signed(wrap64(v)) == wrap32(v),
{
    let k = 0x1_0000_0000int;
    vstd::arithmetic::div_mod::lemma_mod_mod(v, k, k);
    assert(k * k == 0x1_0000_0000_0000_0000);
    let w = wrap64(v);
    assert(w as int == v % (k * k));
    let low = w % 0x1_0000_0000;
    assert(low as int == v % k);
    assert(low < 0x8000_0000 ==> low / 0x8000_0000 == 0);
    assert(low >= 0x8000_0000 ==> low / 0x8000_0000 == 1);
}

proof fn lemma_word_shifts(a: u64, n: u64)
    by (bit_vector)
    requires
        n < 32,
    ensures
        ((a as u32) << n) as u64 == (a << n) % 0x1_0000_0000,
        ((a as u32) >> n) as u64 == (a % 0x1_0000_0000) >> n,
        a % 0x1_0000_0000 < 0x8000_0000 ==> (a as i32) >> n == ((a % 0x1_0000_0000) as i64) >> n,
        a % 0x1_0000_0000 >= 0x8000_0000 ==> (a as i32) >> n == (((a % 0x1_0000_0000
            + 0xffff_ffff_0000_0000) as u64) as i64) >> n,
{
}

/// Branches compare as numbers, signed or unsigned.
pub proof fn branches_compare_as_numbers(a: u64, b: u64)
    ensures
        branches(BranchOp::Eq, a, b) == (a == b),
        branches(BranchOp::Ne, a, b) == (a != b),
        branches(BranchOp::Lt, a, b) == (twos(a) < twos(b)),
        branches(BranchOp::Ge, a, b) == (twos(a) >= twos(b)),
        branches(BranchOp::Ltu, a, b) == (a < b),
        branches(BranchOp::Geu, a, b) == (a >= b),
{
}

/// The number that a datum of `size` bytes stands for.
pub open spec fn datum(v: u64, size: int, sign: bool) -> int {
    if size == 1 {
        v % 0x100 - if sign {
            0x100 * (v / 0x80 % 2)
        } else {
            0
        }
    } else if size == 2 {
        v % 0x1_0000 - if sign {
            0x1_0000 * (v / 0x8000 % 2)
        } else {
            0
        }
    } else if size == 4 {
        v % 0x1_0000_0000 - if sign {
            0x1_0000_0000 * (v / 0x8000_0000 % 2)
        } else {
            0
        }
    } else {
        v - if sign {
            0x1_0000_0000_0000_0000 * (v / 0x8000_0000_0000_0000)
        } else {
            0
        }
    }
}

/// What a load puts in a register is the number that was loaded: as a two's
/// complement number where the load is signed, and else as it is.
pub proof fn loads_keep_the_number(v: u64, size: int)
    requires
        size == 1 || size == 2 || size == 4 || size == 8,
    ensures
        twos(extended(v, size, true)) == datum(v, size, true),
        extended(v, size, false) == datum(v, size, false),
{
}

/// Atomic operations on what memory holds: a swap stores the operand, a sum is
/// that of the numbers, and the least or greatest is one of the two, none of
/// which is less or greater; words compare as words.
pub proof fn atomics_work_on_numbers(cur: u64, src: u64, width: int)
    requires
        width == 4 || width == 8,
        width == 4 ==> cur < 0x1_0000_0000 && src < 0x1_0000_0000,
    ensures
        ({
            let num = |v: u64| datum(v, width, true);
            let word = if width == 4 {
                0x1_0000_0000int
            } else {
                0x1_0000_0000_0000_0000
            };
            let sum = amo_of(AmoOp::Add, cur, src, width);
            let (min, max) = (
                amo_of(AmoOp::Min, cur, src, width),
                amo_of(AmoOp::Max, cur, src, width),
            );
            let (minu, maxu) = (
                amo_of(AmoOp::Minu, cur, src, width),
                amo_of(AmoOp::Maxu, cur, src, width),
            );
            &&& amo_of(AmoOp::Swap, cur, src, width) == src
            &&& 0 <= sum < word && (sum - (cur + src)) % word == 0
            &&& amo_of(AmoOp::And, cur, src, width) == cur & src
            &&& amo_of(AmoOp::Or, cur, src, width) == cur | src
            &&& amo_of(AmoOp::Xor, cur, src, width) == cur ^ src
            &&& min == cur || min == src
            &&& max == cur || max == src
            &&& minu == cur || minu == src
            &&& maxu == cur || maxu == src
            &&& num(min) <= num(cur) && num(min) <= num(src)
            &&& num(max) >= num(cur) && num(max) >= num(src)
            &&& minu <= cur && minu <= src
            &&& maxu >= cur && maxu >= src
        }),
{
    reveal(amo_of);
    lemma_views(cur);
    lemma_views(src);
}

/// Where an address plus an offset leads: around the end of the address space.
pub open spec fn stepped(at: u64, by: i64) -> int {
    (at + by) % 0x1_0000_0000_0000_0000
}

/// The registers of a hart after one of them, which is not the zero register,
/// has been set.
pub open spec fn set_alone(before: Hart, after: Hart, rd: u8, v: int) -> bool {
    &&& after == (Hart { x: after.x, ..before })
    &&& after.x.len() == before.x.len()
    &&& forall|r: int|
        0 <= r < before.x.len() && (r != rd || rd == 0) ==> #[trigger] after.x[r] == before.x[r]
    &&& rd != 0 ==> after.x[rd as int] == v
}

/// Jumps link the instruction that follows and go to where they point; a
/// branch goes where it points if its condition holds and else on; the other
/// integer instructions set their destination and go on. Nothing else changes.
#[verifier::rlimit(50)]
pub proof fn instructions_set_one_register(
    h: Hart,
    rd: u8,
    rs1: u8,
    rs2: u8,
    imm: i64,
    pc: u64,
    next: u64,
    op: AluOp,
    cond: BranchOp,
)
    requires
        h.x.len() == 32,
        rd < 32,
        rs1 < 32,
        rs2 < 32,
    ensures
        ({
            let run = |i: Instr| int_executed(h, i, pc, next);
            let (a, b) = (h.x[rs1 as int], h.x[rs2 as int]);
            let lui = run(Instr::Lui { rd, imm });
            let auipc = run(Instr::Auipc { rd, imm });
            let jal = run(Instr::Jal { rd, imm });
            let jalr = run(Instr::Jalr { rd, rs1, imm });
            let branch = run(Instr::Branch { op: cond, rs1, rs2, imm });
            let opi = run(Instr::OpImm { op, rd, rs1, imm });
            let opiw = run(Instr::OpImm32 { op, rd, rs1, imm });
            let opr = run(Instr::Op { op, rd, rs1, rs2 });
            let oprw = run(Instr::Op32 { op, rd, rs1, rs2 });
            let second = stepped(0, imm) as u64;
            &&& set_alone(h, lui.0, rd, stepped(0, imm)) && lui.1 == next
            &&& set_alone(h, auipc.0, rd, stepped(pc, imm)) && auipc.1 == next
            &&& set_alone(h, jal.0, rd, next as int) && jal.1 == stepped(pc, imm)
            &&& set_alone(h, jalr.0, rd, next as int) && jalr.1 == stepped(a, imm) - stepped(a, imm)
                % 2
            &&& branch.0 == h && branch.1 == (if branches(cond, a, b) {
                stepped(pc, imm)
            } else {
                next as int
            })
            &&& set_alone(h, opi.0, rd, alu_of(op, a, second) as int) && opi.1 == next
            &&& set_alone(h, opiw.0, rd, alu32_of(op, a, second) as int) && opiw.1 == next
            &&& set_alone(h, opr.0, rd, alu_of(op, a, b) as int) && opr.1 == next
            &&& set_alone(h, oprw.0, rd, alu32_of(op, a, b) as int) && oprw.1 == next
        }),
{
    reveal(int_executed);
    lemma_steps(imm, 0);
    let a = h.x[rs1 as int];
    lemma_steps(imm, a.wrapping_add(imm as u64));
}

proof fn lemma_steps(imm: i64, v: u64)
    by (bit_vector)
    ensures
        imm >= 0 ==> imm as u64 == imm,
        imm < 0 ==> imm as u64 == imm + 0x1_0000_0000_0000_0000,
        v & !1 == v - v % 2,
{
}

} // verus!
