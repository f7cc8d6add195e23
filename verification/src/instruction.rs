//! The instruction set and its binary codec. An instruction is one opcode
//! word, optionally an addressing-mode word, per-operand payload words, and,
//! for time-displaced operands, a two-word time offset. Encoding and decoding
//! are exact inverses for every well-formed instruction.

use vstd::prelude::*;

use crate::machine::{
    addr_add, lemma_tape_shift, same_except_pc, tape, Machine, MachineModel, CpuModel,
};
use crate::word::{as_signed6, as_unsigned6, iLong, iWord, uLong, uWord};

verus! {

broadcast use crate::word::group_word_lemmas, crate::machine::lemma_addr_add_chain;

/// Addressable registers.
#[derive(Debug, Clone, Copy, PartialEq, Eq, Structural)]
pub enum Register {
    A,
    BH,
    BL,
    CH,
    CL,
    X,
}

/// An operand together with its time offset, in cycles relative to the
/// instruction's own execution point; zero means the present.
#[derive(Debug, Clone, Copy, PartialEq, Eq, Structural)]
pub struct Timed<T> {
    pub op: T,
    /// Relative time of the access, in cycles.
    pub time: iLong,
}

/// The basic addressing modes.
#[derive(Debug, Clone, Copy, PartialEq, Eq, Structural)]
pub enum Op {
    /// Named register.
    Reg(Register),
    /// Literal one-word value.
    Imm(uWord),
    /// Absolute address (byte order: lo, hi).
    Abs(uLong),
    /// Absolute address indexed by the X register.
    Abx(uLong),
    /// Indirect access: the address names a cell holding the address of the
    /// operand (lo, hi order).
    Ind(uLong),
}

/// The argument of an instruction that takes one operand.
pub type Operand = Timed<Op>;

/// The arguments of an instruction that takes two operands.
#[derive(Debug, Clone, Copy, PartialEq, Eq, Structural)]
pub struct Operands {
    pub src: Operand,
    pub dst: Operand,
}

/// The argument of an instruction that is a PC-relative offset.
pub type Offset = iWord;

/// The instruction set.
#[derive(Debug, Clone, Copy, PartialEq, Eq, Structural)]
pub enum Instruction {
    Mov(Operands),
    Psh(Operand),
    Pop(Operand),
    Add(Operands),
    Sub(Operands),
    Mul(Operands),
    Muh(Operands),
    Mus(Operands),
    Div(Operands),
    Mod(Operands),
    And(Operands),
    Or(Operands),
    Xor(Operands),
    Not(Operand),
    Lsl(Operand),
    Lsr(Operand),
    Asr(Operand),
    Inc(Operand),
    Dec(Operand),
    Cmp(Operands),
    Bit(Operands),
    Jmp(uLong),
    Bcc(Offset),
    Bcs(Offset),
    Bne(Offset),
    Beq(Offset),
    Bpl(Offset),
    Bmi(Offset),
    Clc,
    Sec,
    Cal(uLong),
    Ret,
    Nop,
    Hcf,
}

// Well-formedness of ghost instruction values: the word components are in
// range and immediates carry no time offset. (Executable values satisfy the
// range parts by construction.)

impl Op {
    pub open spec fn wf(self) -> bool {
        match self {
            Op::Reg(_) => true,
            Op::Imm(w) => w@ < 64,
            Op::Abs(a) => a@ < 4096,
            Op::Abx(a) => a@ < 4096,
            Op::Ind(a) => a@ < 4096,
        }
    }
}

impl Timed<Op> {
    pub open spec fn wf(self) -> bool {
        &&& self.op.wf()
        &&& -2048 <= self.time@ < 2048
        &&& (self.op is Imm ==> self.time@ == 0)
    }
}

impl Operands {
    pub open spec fn wf(self) -> bool {
        self.src.wf() && self.dst.wf()
    }
}

impl Instruction {
    pub open spec fn wf(self) -> bool {
        match self {
            Instruction::Mov(x) => x.wf(),
            Instruction::Psh(x) => x.wf(),
            Instruction::Pop(x) => x.wf(),
            Instruction::Add(x) => x.wf(),
            Instruction::Sub(x) => x.wf(),
            Instruction::Mul(x) => x.wf(),
            Instruction::Muh(x) => x.wf(),
            Instruction::Mus(x) => x.wf(),
            Instruction::Div(x) => x.wf(),
            Instruction::Mod(x) => x.wf(),
            Instruction::And(x) => x.wf(),
            Instruction::Or(x) => x.wf(),
            Instruction::Xor(x) => x.wf(),
            Instruction::Not(x) => x.wf(),
            Instruction::Lsl(x) => x.wf(),
            Instruction::Lsr(x) => x.wf(),
            Instruction::Asr(x) => x.wf(),
            Instruction::Inc(x) => x.wf(),
            Instruction::Dec(x) => x.wf(),
            Instruction::Cmp(x) => x.wf(),
            Instruction::Bit(x) => x.wf(),
            Instruction::Jmp(a) => a@ < 4096,
            Instruction::Bcc(o) => -32 <= o@ < 32,
            Instruction::Bcs(o) => -32 <= o@ < 32,
            Instruction::Bne(o) => -32 <= o@ < 32,
            Instruction::Beq(o) => -32 <= o@ < 32,
            Instruction::Bpl(o) => -32 <= o@ < 32,
            Instruction::Bmi(o) => -32 <= o@ < 32,
            Instruction::Clc => true,
            Instruction::Sec => true,
            Instruction::Cal(a) => a@ < 4096,
            Instruction::Ret => true,
            Instruction::Nop => true,
            Instruction::Hcf => true,
        }
    }
}

// The binary encoding, at the level of 6-bit word sequences.

/// The payload word naming a register.
pub open spec fn reg_code(r: Register) -> u8 {
    match r {
        Register::A => 0x0,
        Register::BH => 0x2,
        Register::BL => 0x3,
        Register::CH => 0x4,
        Register::CL => 0x5,
        Register::X => 0x6,
    }
}

/// The addressing-kind field of the mode word.
pub open spec fn kind_code(op: Op) -> u8 {
    match op {
        Op::Reg(_) => 0x0,
        Op::Abs(_) => 0x1,
        Op::Ind(_) => 0x2,
        Op::Abx(_) => 0x3,
        Op::Imm(_) => 0x4,
    }
}

/// A 12-bit address as two words, low digit first.
pub open spec fn enc_addr(a: u16) -> Seq<u8> {
    seq![(a % 64) as u8, (a / 64) as u8]
}

/// The 12-bit two's-complement pattern of a time offset in [-2048, 2047].
pub open spec fn time_bits(t: i16) -> int {
    if t < 0 {
        t + 4096
    } else {
        t as int
    }
}

/// A time offset as two words: low digit of the pattern, then the high digit
/// (the signed word's pattern).
pub open spec fn enc_time(t: i16) -> Seq<u8> {
    seq![(time_bits(t) % 64) as u8, (time_bits(t) / 64) as u8]
}

/// The payload words of one operand, without mode word or time offset.
pub open spec fn enc_payload(op: Op) -> Seq<u8> {
    match op {
        Op::Reg(r) => seq![reg_code(r)],
        Op::Imm(w) => seq![w@],
        Op::Abs(a) => enc_addr(a@),
        Op::Abx(a) => enc_addr(a@),
        Op::Ind(a) => enc_addr(a@),
    }
}

/// Whether an operand is time-displaced.
pub open spec fn has_time(x: Operand) -> bool {
    x.time@ != 0
}

/// The payload of one operand under a shared time flag: the time offset
/// follows the payload for every addressing kind but an immediate, which is
/// never time-displaced.
pub open spec fn enc_operand_body(x: Operand, tf: bool) -> Seq<u8> {
    if x.op is Imm || !tf {
        enc_payload(x.op)
    } else {
        enc_payload(x.op) + enc_time(x.time@)
    }
}

/// A single operand with its own mode word: bit 5 is the time flag, the low
/// bits the addressing kind.
pub open spec fn enc_operand(x: Operand) -> Seq<u8> {
    let tf = has_time(x);
    seq![(kind_code(x.op) + if tf { 32int } else { 0 }) as u8] + enc_operand_body(x, tf)
}

/// An operand pair with one shared mode word: the two addressing kinds are
/// composed base-5, and the time flag applies to both operands.
pub open spec fn enc_operands(x: Operands) -> Seq<u8> {
    let tf = has_time(x.src) || has_time(x.dst);
    seq![(kind_code(x.src.op) + 5 * kind_code(x.dst.op) + if tf { 32int } else { 0 }) as u8]
        + enc_operand_body(x.src, tf) + enc_operand_body(x.dst, tf)
}

/// The opcode word of an instruction.
pub open spec fn opcode_of(i: Instruction) -> u8 {
    match i {
        Instruction::Nop => 0x00,
        Instruction::Mov(_) => 0x01,
        Instruction::Psh(_) => 0x03,
        Instruction::Pop(_) => 0x04,
        Instruction::Add(_) => 0x10,
        Instruction::Sub(_) => 0x11,
        Instruction::Mul(_) => 0x12,
        Instruction::Muh(_) => 0x13,
        Instruction::Mus(_) => 0x14,
        Instruction::Div(_) => 0x15,
        Instruction::Mod(_) => 0x16,
        Instruction::And(_) => 0x17,
        Instruction::Or(_) => 0x18,
        Instruction::Xor(_) => 0x19,
        Instruction::Not(_) => 0x1a,
        Instruction::Lsl(_) => 0x1b,
        Instruction::Lsr(_) => 0x1c,
        Instruction::Asr(_) => 0x1d,
        Instruction::Inc(_) => 0x1e,
        Instruction::Dec(_) => 0x1f,
        Instruction::Cmp(_) => 0x20,
        Instruction::Bit(_) => 0x21,
        Instruction::Jmp(_) => 0x30,
        Instruction::Bcc(_) => 0x31,
        Instruction::Bcs(_) => 0x32,
        Instruction::Bne(_) => 0x33,
        Instruction::Beq(_) => 0x34,
        Instruction::Bpl(_) => 0x35,
        Instruction::Bmi(_) => 0x36,
        Instruction::Cal(_) => 0x37,
        Instruction::Clc => 0x38,
        Instruction::Sec => 0x39,
        Instruction::Hcf => 0x3e,
        Instruction::Ret => 0x3f,
    }
}

/// The full binary encoding of an instruction.
pub open spec fn enc_instr(i: Instruction) -> Seq<u8> {
    seq![opcode_of(i)] + match i {
        Instruction::Mov(x) => enc_operands(x),
        Instruction::Psh(x) => enc_operand(x),
        Instruction::Pop(x) => enc_operand(x),
        Instruction::Add(x) => enc_operands(x),
        Instruction::Sub(x) => enc_operands(x),
        Instruction::Mul(x) => enc_operands(x),
        Instruction::Muh(x) => enc_operands(x),
        Instruction::Mus(x) => enc_operands(x),
        Instruction::Div(x) => enc_operands(x),
        Instruction::Mod(x) => enc_operands(x),
        Instruction::And(x) => enc_operands(x),
        Instruction::Or(x) => enc_operands(x),
        Instruction::Xor(x) => enc_operands(x),
        Instruction::Not(x) => enc_operand(x),
        Instruction::Lsl(x) => enc_operand(x),
        Instruction::Lsr(x) => enc_operand(x),
        Instruction::Asr(x) => enc_operand(x),
        Instruction::Inc(x) => enc_operand(x),
        Instruction::Dec(x) => enc_operand(x),
        Instruction::Cmp(x) => enc_operands(x),
        Instruction::Bit(x) => enc_operands(x),
        Instruction::Jmp(a) => enc_addr(a@),
        Instruction::Bcc(o) => seq![crate::word::as_unsigned6(o@)],
        Instruction::Bcs(o) => seq![crate::word::as_unsigned6(o@)],
        Instruction::Bne(o) => seq![crate::word::as_unsigned6(o@)],
        Instruction::Beq(o) => seq![crate::word::as_unsigned6(o@)],
        Instruction::Bpl(o) => seq![crate::word::as_unsigned6(o@)],
        Instruction::Bmi(o) => seq![crate::word::as_unsigned6(o@)],
        Instruction::Cal(a) => enc_addr(a@),
        Instruction::Clc => seq![],
        Instruction::Sec => seq![],
        Instruction::Nop => seq![],
        Instruction::Hcf => seq![],
        Instruction::Ret => seq![],
    }
}

// The binary decoding, at the level of 6-bit word sequences. Each function
// returns the decoded value and the number of words consumed, or `None` on a
// decode fault; a decoder inspects only the words it consumes.

/// The register named by a payload word, if any.
pub open spec fn dec_reg(code: u8) -> Option<Register> {
    if code == 0x0 {
        Some(Register::A)
    } else if code == 0x2 {
        Some(Register::BH)
    } else if code == 0x3 {
        Some(Register::BL)
    } else if code == 0x4 {
        Some(Register::CH)
    } else if code == 0x5 {
        Some(Register::CL)
    } else if code == 0x6 {
        Some(Register::X)
    } else {
        None
    }
}

/// The address held by two payload words, low digit first.
pub open spec fn dec_addr(lo: u8, hi: u8) -> u16 {
    (lo + 64 * hi) as u16
}

/// The time offset held by two payload words: the high word is read as a
/// signed digit.
pub open spec fn dec_time(lo: u8, hi: u8) -> i16 {
    (as_signed6(hi) * 64 + lo) as i16
}

/// Decodes one operand, given its addressing kind and the shared time flag;
/// the sequence starts at the operand's payload.
pub open spec fn dec_operand(s: Seq<u8>, kind: u8, tf: bool) -> Option<(Operand, int)> {
    if kind == 0x0 {
        if s.len() < 1 {
            None
        } else {
            match dec_reg(s[0]) {
                None => None,
                Some(r) => if tf {
                    if s.len() < 3 {
                        None
                    } else {
                        Some(
                            (
                                Timed {
                                    op: Op::Reg(r),
                                    time: iLong::spec_new(dec_time(s[1], s[2])),
                                },
                                3int,
                            ),
                        )
                    }
                } else {
                    Some((Timed { op: Op::Reg(r), time: iLong::spec_new(0) }, 1int))
                },
            }
        }
    } else if kind == 0x1 || kind == 0x2 || kind == 0x3 {
        if s.len() < 2 {
            None
        } else {
            let a = uLong::spec_new(dec_addr(s[0], s[1]));
            let op = if kind == 0x1 {
                Op::Abs(a)
            } else if kind == 0x2 {
                Op::Ind(a)
            } else {
                Op::Abx(a)
            };
            if tf {
                if s.len() < 4 {
                    None
                } else {
                    Some((Timed { op, time: iLong::spec_new(dec_time(s[2], s[3])) }, 4int))
                }
            } else {
                Some((Timed { op, time: iLong::spec_new(0) }, 2int))
            }
        }
    } else if kind == 0x4 {
        if s.len() < 1 {
            None
        } else {
            Some((Timed { op: Op::Imm(uWord::spec_new(s[0])), time: iLong::spec_new(0) }, 1int))
        }
    } else {
        None
    }
}

/// Whether a mode word has the time flag (bit 5) set.
pub open spec fn mode_tf(mode: u8) -> bool {
    (mode / 32) % 2 == 1
}

/// The addressing-kind field of a mode word (its low five bits).
pub open spec fn mode_kind(mode: u8) -> u8 {
    mode % 32
}

/// Decodes an operand pair, given its shared mode word; the sequence starts
/// at the first operand's payload.
pub open spec fn dec_operands(s: Seq<u8>, mode: u8) -> Option<(Operands, int)> {
    let tf = mode_tf(mode);
    let low5 = mode_kind(mode);
    if low5 >= 25 {
        None
    } else {
        match dec_operand(s, low5 % 5, tf) {
            None => None,
            Some((src, n1)) => match dec_operand(s.skip(n1), low5 / 5, tf) {
                None => None,
                Some((dst, n2)) => Some((Operands { src, dst }, n1 + n2)),
            },
        }
    }
}

/// Decodes one whole instruction from the start of the sequence, yielding
/// the instruction and the number of words it occupies, or `None` on a
/// decode fault.
pub open spec fn dec_instr(s: Seq<u8>) -> Option<(Instruction, int)> {
    if s.len() < 1 {
        None
    } else {
        let opcode = s[0];
        if opcode == 0x00 {
            Some((Instruction::Nop, 1int))
        } else if opcode == 0x38 {
            Some((Instruction::Clc, 1int))
        } else if opcode == 0x39 {
            Some((Instruction::Sec, 1int))
        } else if opcode == 0x3e {
            Some((Instruction::Hcf, 1int))
        } else if opcode == 0x3f {
            Some((Instruction::Ret, 1int))
        } else if opcode == 0x30 || opcode == 0x37 {
            if s.len() < 3 {
                None
            } else {
                let a = uLong::spec_new(dec_addr(s[1], s[2]));
                if opcode == 0x30 {
                    Some((Instruction::Jmp(a), 3int))
                } else {
                    Some((Instruction::Cal(a), 3int))
                }
            }
        } else if 0x31 <= opcode <= 0x36 {
            if s.len() < 2 {
                None
            } else {
                let o = iWord::spec_new(as_signed6(s[1]));
                if opcode == 0x31 {
                    Some((Instruction::Bcc(o), 2int))
                } else if opcode == 0x32 {
                    Some((Instruction::Bcs(o), 2int))
                } else if opcode == 0x33 {
                    Some((Instruction::Bne(o), 2int))
                } else if opcode == 0x34 {
                    Some((Instruction::Beq(o), 2int))
                } else if opcode == 0x35 {
                    Some((Instruction::Bpl(o), 2int))
                } else {
                    Some((Instruction::Bmi(o), 2int))
                }
            }
        } else if is_one_operand_opcode(opcode) {
            if s.len() < 2 {
                None
            } else {
                match dec_operand(s.skip(2), mode_kind(s[1]), mode_tf(s[1])) {
                    None => None,
                    Some((x, n)) => Some((one_operand_instr(opcode, x), 2 + n)),
                }
            }
        } else if is_two_operand_opcode(opcode) {
            if s.len() < 2 {
                None
            } else {
                match dec_operands(s.skip(2), s[1]) {
                    None => None,
                    Some((x, n)) => Some((two_operand_instr(opcode, x), 2 + n)),
                }
            }
        } else {
            None
        }
    }
}

/// Whether an opcode takes a single operand with its own mode word.
pub open spec fn is_one_operand_opcode(opcode: u8) -> bool {
    opcode == 0x03 || opcode == 0x04 || (0x1a <= opcode <= 0x1f)
}

/// The single-operand instruction an opcode stands for.
pub open spec fn one_operand_instr(opcode: u8, x: Operand) -> Instruction {
    if opcode == 0x03 {
        Instruction::Psh(x)
    } else if opcode == 0x04 {
        Instruction::Pop(x)
    } else if opcode == 0x1a {
        Instruction::Not(x)
    } else if opcode == 0x1b {
        Instruction::Lsl(x)
    } else if opcode == 0x1c {
        Instruction::Lsr(x)
    } else if opcode == 0x1d {
        Instruction::Asr(x)
    } else if opcode == 0x1e {
        Instruction::Inc(x)
    } else {
        Instruction::Dec(x)
    }
}

/// Whether an opcode takes an operand pair with a shared mode word.
pub open spec fn is_two_operand_opcode(opcode: u8) -> bool {
    opcode == 0x01 || (0x10 <= opcode <= 0x19) || opcode == 0x20 || opcode == 0x21
}

/// Decoding inverts encoding for one operand: the payload words of a
/// well-formed operand, under a time flag that is set whenever the operand
/// is time-displaced, decode back to the operand itself, whatever follows.
proof fn lemma_operand_body_round_trip(x: Operand, tf: bool, rest: Seq<u8>)
    requires
        x.wf(),
        has_time(x) ==> tf,
    ensures
        dec_operand(enc_operand_body(x, tf) + rest, kind_code(x.op), tf) == Some(
            (x, enc_operand_body(x, tf).len() as int),
        ),
{
    let s = enc_operand_body(x, tf) + rest;
    if tf && !(x.op is Imm) {
        assert(-2048 <= x.time@ < 2048);
        let t = x.time@;
        let bits = time_bits(t);
        assert(0 <= bits < 4096);
        assert(bits / 64 < 64);
        assert(dec_time((bits % 64) as u8, (bits / 64) as u8) == t) by {
            if t < 0 {
                assert(bits / 64 >= 32) by {
                    assert(bits >= 2048);
                }
                assert(as_signed6((bits / 64) as u8) == bits / 64 - 64);
                assert(64 * (bits / 64) + bits % 64 == bits);
            } else {
                assert(bits / 64 < 32);
                assert(64 * (bits / 64) + bits % 64 == bits);
            }
        }
        assert(iLong::spec_new(t) == x.time);
    } else {
        assert(iLong::spec_new(0) == x.time || x.op is Imm);
        if x.op is Imm {
            assert(x.time@ == 0);
            assert(iLong::spec_new(0) == x.time);
        }
    }
    match x.op {
        Op::Reg(r) => {
            assert(s[0] == reg_code(r));
            assert(dec_reg(reg_code(r)) == Some(r));
        },
        Op::Imm(w) => {
            assert(s[0] == w@);
            assert(uWord::spec_new(w@) == w);
        },
        Op::Abs(a) => {
            assert(s[0] == a@ % 64 && s[1] == a@ / 64);
            assert(dec_addr((a@ % 64) as u8, (a@ / 64) as u8) == a@);
            assert(uLong::spec_new(a@) == a);
        },
        Op::Abx(a) => {
            assert(dec_addr((a@ % 64) as u8, (a@ / 64) as u8) == a@);
            assert(uLong::spec_new(a@) == a);
        },
        Op::Ind(a) => {
            assert(dec_addr((a@ % 64) as u8, (a@ / 64) as u8) == a@);
            assert(uLong::spec_new(a@) == a);
        },
    }
}

/// Decoding inverts encoding for an operand pair: mode word and payloads of
/// a well-formed pair decode back to the pair itself, whatever follows.
#[verifier::rlimit(50)]
proof fn lemma_operands_round_trip(x: Operands, rest: Seq<u8>)
    requires
        x.wf(),
    ensures
        dec_operands(enc_operands(x).skip(1) + rest, enc_operands(x)[0]) == Some(
            (x, enc_operands(x).len() - 1),
        ),
{
    let tf = has_time(x.src) || has_time(x.dst);
    let sk = kind_code(x.src.op);
    let dk = kind_code(x.dst.op);
    let mode = (sk + 5 * dk + if tf { 32int } else { 0 }) as u8;
    assert(enc_operands(x)[0] == mode);
    assert(sk <= 4 && dk <= 4);
    assert(mode_tf(mode) == tf);
    assert(mode_kind(mode) == sk + 5 * dk);
    assert(mode_kind(mode) < 25);
    assert((sk + 5 * dk) % 5 == sk && (sk + 5 * dk) / 5 == dk) by (nonlinear_arith)
        requires
            0 <= sk < 5 && 0 <= dk < 5,
    ;
    let bs = enc_operand_body(x.src, tf);
    let bd = enc_operand_body(x.dst, tf);
    let s = enc_operands(x).skip(1) + rest;
    assert(s =~= bs + (bd + rest));
    lemma_operand_body_round_trip(x.src, tf, bd + rest);
    let n1 = bs.len() as int;
    assert(dec_operand(s, sk, tf) == Some((x.src, n1)));
    assert(s.skip(n1) =~= bd + rest);
    lemma_operand_body_round_trip(x.dst, tf, rest);
    assert(dec_operand(s.skip(n1), dk, tf) == Some((x.dst, bd.len() as int)));
    assert(enc_operands(x).len() - 1 == n1 + bd.len());
}

/// The two-operand instruction an opcode stands for.
pub open spec fn two_operand_instr(opcode: u8, x: Operands) -> Instruction {
    if opcode == 0x01 {
        Instruction::Mov(x)
    } else if opcode == 0x10 {
        Instruction::Add(x)
    } else if opcode == 0x11 {
        Instruction::Sub(x)
    } else if opcode == 0x12 {
        Instruction::Mul(x)
    } else if opcode == 0x13 {
        Instruction::Muh(x)
    } else if opcode == 0x14 {
        Instruction::Mus(x)
    } else if opcode == 0x15 {
        Instruction::Div(x)
    } else if opcode == 0x16 {
        Instruction::Mod(x)
    } else if opcode == 0x17 {
        Instruction::And(x)
    } else if opcode == 0x18 {
        Instruction::Or(x)
    } else if opcode == 0x19 {
        Instruction::Xor(x)
    } else if opcode == 0x20 {
        Instruction::Cmp(x)
    } else {
        Instruction::Bit(x)
    }
}

// Executable decoding. Each function reads words through the program
// counter, which wraps at the end of the address space; its contract speaks
// of the tape of words starting at the entry program counter.

/// A successful operand decode consumes between one and four words.
proof fn lemma_dec_operand_bounds(s: Seq<u8>, kind: u8, tf: bool)
    ensures
        dec_operand(s, kind, tf) matches Some((x, n)) ==> 1 <= n <= 4 && n <= s.len(),
{
}

/// Operand decoding depends only on the words it can consume: a decode from
/// a prefix agrees with a decode from the full sequence.
proof fn lemma_dec_operand_agree(s1: Seq<u8>, s2: Seq<u8>, kind: u8, tf: bool)
    requires
        4 <= s1.len() <= s2.len(),
        s2.take(s1.len() as int) == s1,
    ensures
        dec_operand(s1, kind, tf) == dec_operand(s2, kind, tf),
{
    assert forall|j: int| 0 <= j < s1.len() implies s1[j] == s2[j] by {
        assert(s2.take(s1.len() as int)[j] == s2[j]);
    }
}

/// Operand-pair decoding depends only on the words it can consume.
proof fn lemma_dec_operands_agree(s1: Seq<u8>, s2: Seq<u8>, mode: u8)
    requires
        8 <= s1.len() <= s2.len(),
        s2.take(s1.len() as int) == s1,
    ensures
        dec_operands(s1, mode) == dec_operands(s2, mode),
{
    let tf = mode_tf(mode);
    let low5 = mode_kind(mode);
    if low5 < 25 {
        lemma_dec_operand_agree(s1, s2, low5 % 5, tf);
        match dec_operand(s1, low5 % 5, tf) {
            None => {},
            Some((x, n1)) => {
                lemma_dec_operand_bounds(s1, low5 % 5, tf);
                assert(s2.skip(n1).take(s1.len() - n1) =~= s1.skip(n1)) by {
                    assert forall|j: int| 0 <= j < s1.len() - n1 implies s2.skip(n1)[j] == s1.skip(
                        n1,
                    )[j] by {
                        assert(s2.take(s1.len() as int)[n1 + j] == s2[n1 + j]);
                    }
                }
                lemma_dec_operand_agree(s1.skip(n1), s2.skip(n1), low5 / 5, tf);
            },
        }
    }
}

fn read_register(m: &mut Machine) -> (r: Option<Register>)
    ensures
        final(m)@.ram == old(m)@.ram,
        same_except_pc(old(m)@.cpu, final(m)@.cpu),
        final(m)@.cpu.pc == addr_add(old(m)@.cpu.pc, 1),
        r == dec_reg(old(m)@.ram[old(m)@.cpu.pc as int]),
{
    let w = m.read_pc();
    let v = w.value();
    if v == 0x0 {
        Some(Register::A)
    } else if v == 0x2 {
        Some(Register::BH)
    } else if v == 0x3 {
        Some(Register::BL)
    } else if v == 0x4 {
        Some(Register::CH)
    } else if v == 0x5 {
        Some(Register::CL)
    } else if v == 0x6 {
        Some(Register::X)
    } else {
        None
    }
}

fn read_word(m: &mut Machine) -> (r: uWord)
    ensures
        final(m)@.ram == old(m)@.ram,
        same_except_pc(old(m)@.cpu, final(m)@.cpu),
        final(m)@.cpu.pc == addr_add(old(m)@.cpu.pc, 1),
        r@ == old(m)@.ram[old(m)@.cpu.pc as int],
{
    m.read_pc()
}

fn read_address(m: &mut Machine) -> (r: uLong)
    ensures
        final(m)@.ram == old(m)@.ram,
        same_except_pc(old(m)@.cpu, final(m)@.cpu),
        final(m)@.cpu.pc == addr_add(old(m)@.cpu.pc, 2),
        r@ == dec_addr(
            old(m)@.ram[old(m)@.cpu.pc as int],
            old(m)@.ram[addr_add(old(m)@.cpu.pc, 1) as int],
        ),
{
    let lo = m.read_pc();
    let hi = m.read_pc();
    proof {
        use_type_invariant(&lo);
        use_type_invariant(&hi);
    }
    uLong::from_hi_lo(hi, lo)
}

fn read_offset(m: &mut Machine) -> (r: Offset)
    ensures
        final(m)@.ram == old(m)@.ram,
        same_except_pc(old(m)@.cpu, final(m)@.cpu),
        final(m)@.cpu.pc == addr_add(old(m)@.cpu.pc, 1),
        r@ == as_signed6(old(m)@.ram[old(m)@.cpu.pc as int]),
{
    m.read_pc().as_iword()
}

fn read_time(m: &mut Machine) -> (r: iLong)
    ensures
        final(m)@.ram == old(m)@.ram,
        same_except_pc(old(m)@.cpu, final(m)@.cpu),
        final(m)@.cpu.pc == addr_add(old(m)@.cpu.pc, 2),
        r@ == dec_time(
            old(m)@.ram[old(m)@.cpu.pc as int],
            old(m)@.ram[addr_add(old(m)@.cpu.pc, 1) as int],
        ),
{
    let lo = m.read_pc();
    let hiw = m.read_pc();
    proof {
        use_type_invariant(&lo);
        use_type_invariant(&hiw);
    }
    let hi = hiw.as_iword();
    iLong::from_hi_lo(hi, lo)
}

impl Timed<Op> {
    /// Decodes one operand at `PC`, given its mode word: payload words, then
    /// the time offset when the mode has the time flag and the addressing
    /// kind admits one. `None` on a decode fault.
    fn decode(m: &mut Machine, mode: uWord) -> (r: Option<Operand>)
        ensures
            final(m)@.ram == old(m)@.ram,
            same_except_pc(old(m)@.cpu, final(m)@.cpu),
            ({
                let d = dec_operand(
                    tape(old(m)@, old(m)@.cpu.pc, 16),
                    mode_kind(mode@),
                    mode_tf(mode@),
                );
                match d {
                    Some((x, n)) => r == Some(x) && final(m)@.cpu.pc == addr_add(
                        old(m)@.cpu.pc,
                        n,
                    ),
                    None => r is None,
                }
            }),
    {
        proof {
            use_type_invariant(&mode);
            use_type_invariant(&m.cpu.pc);
        }
        let ghost t = tape(old(m)@, old(m)@.cpu.pc, 16);
        proof {
            assert(t[0] == old(m)@.ram[old(m)@.cpu.pc as int]);
        }
        let mv = mode.value();
        let tf = (mv / 32) % 2 == 1;
        let kind = mv % 32;
        if kind == 0x0 {
            match read_register(m) {
                None => None,
                Some(rg) => {
                    if tf {
                        let time = read_time(m);
                        Some(Timed { op: Op::Reg(rg), time })
                    } else {
                        Some(Timed { op: Op::Reg(rg), time: iLong::zero() })
                    }
                },
            }
        } else if kind == 0x1 || kind == 0x2 || kind == 0x3 {
            let a = read_address(m);
            let op = if kind == 0x1 {
                Op::Abs(a)
            } else if kind == 0x2 {
                Op::Ind(a)
            } else {
                Op::Abx(a)
            };
            if tf {
                let time = read_time(m);
                Some(Timed { op, time })
            } else {
                Some(Timed { op, time: iLong::zero() })
            }
        } else if kind == 0x4 {
            let w = read_word(m);
            Some(Timed { op: Op::Imm(w), time: iLong::zero() })
        } else {
            None
        }
    }
}

impl Operands {
    /// Decodes an operand pair at `PC`, given the shared mode word. `None`
    /// on a decode fault.
    #[verifier::rlimit(100)]
    #[verifier::spinoff_prover]
    fn decode(m: &mut Machine, mode: uWord) -> (r: Option<Operands>)
        ensures
            final(m)@.ram == old(m)@.ram,
            same_except_pc(old(m)@.cpu, final(m)@.cpu),
            ({
                let d = dec_operands(tape(old(m)@, old(m)@.cpu.pc, 16), mode@);
                match d {
                    Some((x, n)) => r == Some(x) && final(m)@.cpu.pc == addr_add(
                        old(m)@.cpu.pc,
                        n,
                    ),
                    None => r is None,
                }
            }),
    {
        proof {
            use_type_invariant(&mode);
            use_type_invariant(&m.cpu.pc);
        }
        let ghost pc0 = old(m)@.cpu.pc;
        let ghost t = tape(old(m)@, pc0, 16);
        let mv = mode.value();
        let tbits = mv / 32 * 32;
        let low5 = mv % 32;
        if low5 >= 25 {
            return None;
        }
        let sk = low5 % 5;
        let dk = low5 / 5;
        let tf = (mv / 32) % 2 == 1;
        let smode = uWord::lit(sk + tbits);
        let dmode = uWord::lit(dk + tbits);
        proof {
            assert(mode_kind(smode@) == sk && mode_tf(smode@) == mode_tf(mode@));
            assert(mode_kind(dmode@) == dk && mode_tf(dmode@) == mode_tf(mode@));
        }
        match Timed::<Op>::decode(m, smode) {
            None => None,
            Some(src) => {
                let ghost d1 = dec_operand(t, sk, mode_tf(mode@));
                let ghost n1 = d1->Some_0.1;
                proof {
                    lemma_dec_operand_bounds(t, sk, mode_tf(mode@));
                    lemma_tape_shift(old(m)@, pc0, n1);
                    assert(tape(m@, m@.cpu.pc, 16) =~= tape(old(m)@, addr_add(pc0, n1), 16));
                    lemma_dec_operand_agree(
                        t.skip(n1),
                        tape(old(m)@, addr_add(pc0, n1), 16),
                        dk,
                        mode_tf(mode@),
                    );
                }
                match Timed::<Op>::decode(m, dmode) {
                    None => None,
                    Some(dst) => Some(Operands { src, dst }),
                }
            },
        }
    }
}

impl Instruction {
    /// Decodes one instruction at `PC`, advancing `PC` past it. `None` on a
    /// decode fault (an opcode, addressing kind or register code outside the
    /// table), exactly when the words at `PC` decode to no instruction.
    #[verifier::rlimit(100)]
    #[verifier::spinoff_prover]
    pub fn decode(m: &mut Machine) -> (r: Option<Instruction>)
        ensures
            final(m)@.ram == old(m)@.ram,
            same_except_pc(old(m)@.cpu, final(m)@.cpu),
            ({
                let d = dec_instr(tape(old(m)@, old(m)@.cpu.pc, 16));
                match d {
                    Some((i, n)) => r == Some(i) && final(m)@.cpu.pc == addr_add(
                        old(m)@.cpu.pc,
                        n,
                    ),
                    None => r is None,
                }
            }),
    {
        proof {
            use_type_invariant(&m.cpu.pc);
        }
        let ghost pc0 = old(m)@.cpu.pc;
        let ghost t = tape(old(m)@, pc0, 16);
        proof {
            assert(t[0] == old(m)@.ram[pc0 as int]);
            assert(t[1] == old(m)@.ram[addr_add(pc0, 1) as int]);
        }
        let opcode = m.read_pc();
        let oc = opcode.value();
        if oc == 0x00 {
            Some(Instruction::Nop)
        } else if oc == 0x38 {
            Some(Instruction::Clc)
        } else if oc == 0x39 {
            Some(Instruction::Sec)
        } else if oc == 0x3e {
            Some(Instruction::Hcf)
        } else if oc == 0x3f {
            Some(Instruction::Ret)
        } else if oc == 0x30 {
            let a = read_address(m);
            Some(Instruction::Jmp(a))
        } else if oc == 0x37 {
            let a = read_address(m);
            Some(Instruction::Cal(a))
        } else if 0x31 <= oc && oc <= 0x36 {
            let o = read_offset(m);
            if oc == 0x31 {
                Some(Instruction::Bcc(o))
            } else if oc == 0x32 {
                Some(Instruction::Bcs(o))
            } else if oc == 0x33 {
                Some(Instruction::Bne(o))
            } else if oc == 0x34 {
                Some(Instruction::Beq(o))
            } else if oc == 0x35 {
                Some(Instruction::Bpl(o))
            } else {
                Some(Instruction::Bmi(o))
            }
        } else if oc == 0x03 || oc == 0x04 || (0x1a <= oc && oc <= 0x1f) {
            let mode = m.read_pc();
            let ghost m2 = m@;
            let x = Timed::<Op>::decode(m, mode);
            proof {
                lemma_tape_shift(old(m)@, pc0, 2);
                assert(tape(m2, m2.cpu.pc, 16) =~= tape(old(m)@, addr_add(pc0, 2), 16));
                lemma_dec_operand_agree(
                    t.skip(2),
                    tape(old(m)@, addr_add(pc0, 2), 16),
                    mode_kind(t[1]),
                    mode_tf(t[1]),
                );
            }
            match x {
                None => None,
                Some(x) => {
                    if oc == 0x03 {
                        Some(Instruction::Psh(x))
                    } else if oc == 0x04 {
                        Some(Instruction::Pop(x))
                    } else if oc == 0x1a {
                        Some(Instruction::Not(x))
                    } else if oc == 0x1b {
                        Some(Instruction::Lsl(x))
                    } else if oc == 0x1c {
                        Some(Instruction::Lsr(x))
                    } else if oc == 0x1d {
                        Some(Instruction::Asr(x))
                    } else if oc == 0x1e {
                        Some(Instruction::Inc(x))
                    } else {
                        Some(Instruction::Dec(x))
                    }
                },
            }
        } else if oc == 0x01 || (0x10 <= oc && oc <= 0x19) || oc == 0x20 || oc == 0x21 {
            let mode = m.read_pc();
            let ghost m2 = m@;
            let x = Operands::decode(m, mode);
            proof {
                lemma_tape_shift(old(m)@, pc0, 2);
                assert(tape(m2, m2.cpu.pc, 16) =~= tape(old(m)@, addr_add(pc0, 2), 16));
                lemma_dec_operands_agree(
                    t.skip(2),
                    tape(old(m)@, addr_add(pc0, 2), 16),
                    t[1],
                );
            }
            match x {
                None => None,
                Some(x) => {
                    if oc == 0x01 {
                        Some(Instruction::Mov(x))
                    } else if oc == 0x10 {
                        Some(Instruction::Add(x))
                    } else if oc == 0x11 {
                        Some(Instruction::Sub(x))
                    } else if oc == 0x12 {
                        Some(Instruction::Mul(x))
                    } else if oc == 0x13 {
                        Some(Instruction::Muh(x))
                    } else if oc == 0x14 {
                        Some(Instruction::Mus(x))
                    } else if oc == 0x15 {
                        Some(Instruction::Div(x))
                    } else if oc == 0x16 {
                        Some(Instruction::Mod(x))
                    } else if oc == 0x17 {
                        Some(Instruction::And(x))
                    } else if oc == 0x18 {
                        Some(Instruction::Or(x))
                    } else if oc == 0x19 {
                        Some(Instruction::Xor(x))
                    } else if oc == 0x20 {
                        Some(Instruction::Cmp(x))
                    } else {
                        Some(Instruction::Bit(x))
                    }
                },
            }
        } else {
            None
        }
    }
}

// Executable encoding. Each function writes words through the program
// counter; its contract says that the RAM ends up holding the encoding,
// stored word by word from the entry program counter, wrapping at the end of
// the address space.

/// A word sequence stored into RAM one word at a time from an address,
/// wrapping at the end of the address space.
pub open spec fn stores(ram: Seq<u8>, pc: u16, ws: Seq<u8>) -> Seq<u8>
    decreases ws.len(),
{
    if ws.len() == 0 {
        ram
    } else {
        stores(ram.update(pc as int, ws[0]), addr_add(pc, 1), ws.skip(1))
    }
}

/// Storing a single word is one update.
proof fn lemma_stores_one(ram: Seq<u8>, pc: u16, w: u8)
    ensures
        stores(ram, pc, seq![w]) == ram.update(pc as int, w),
{
    let e = seq![w].skip(1);
    assert(e =~= Seq::<u8>::empty());
    assert(e.len() == 0);
    assert(stores(ram.update(pc as int, w), addr_add(pc, 1), e) == ram.update(pc as int, w));
    assert(stores(ram, pc, seq![w]) == stores(ram.update(pc as int, w), addr_add(pc, 1), e));
}

/// Storing a concatenation stores the first part, then the second just past
/// it.
proof fn lemma_stores_concat(ram: Seq<u8>, pc: u16, w1: Seq<u8>, w2: Seq<u8>)
    requires
        pc < 4096,
    ensures
        stores(ram, pc, w1 + w2) == stores(
            stores(ram, pc, w1),
            addr_add(pc, w1.len() as int),
            w2,
        ),
    decreases w1.len(),
{
    if w1.len() == 0 {
        assert(w1 + w2 =~= w2);
        assert(addr_add(pc, 0) == pc);
    } else {
        assert((w1 + w2)[0] == w1[0]);
        assert((w1 + w2).skip(1) =~= w1.skip(1) + w2);
        assert(addr_add(pc, 1) < 4096);
        lemma_stores_concat(ram.update(pc as int, w1[0]), addr_add(pc, 1), w1.skip(1), w2);
    }
}

fn write_register(m: &mut Machine, x: &Register)
    ensures
        final(m)@.ram == stores(old(m)@.ram, old(m)@.cpu.pc, seq![reg_code(*x)]),
        same_except_pc(old(m)@.cpu, final(m)@.cpu),
        final(m)@.cpu.pc == addr_add(old(m)@.cpu.pc, 1),
{
    proof {
        lemma_stores_one(old(m)@.ram, old(m)@.cpu.pc, reg_code(*x));
    }
    let code: u8 = match x {
        Register::A => 0x0,
        Register::BH => 0x2,
        Register::BL => 0x3,
        Register::CH => 0x4,
        Register::CL => 0x5,
        Register::X => 0x6,
    };
    m.write_pc(uWord::lit(code));
}

fn write_word(m: &mut Machine, x: &uWord)
    ensures
        final(m)@.ram == stores(old(m)@.ram, old(m)@.cpu.pc, seq![x@]),
        same_except_pc(old(m)@.cpu, final(m)@.cpu),
        final(m)@.cpu.pc == addr_add(old(m)@.cpu.pc, 1),
{
    proof {
        lemma_stores_one(old(m)@.ram, old(m)@.cpu.pc, x@);
    }
    m.write_pc(*x);
}

fn write_address(m: &mut Machine, x: &uLong)
    ensures
        final(m)@.ram == stores(old(m)@.ram, old(m)@.cpu.pc, enc_addr(x@)),
        same_except_pc(old(m)@.cpu, final(m)@.cpu),
        final(m)@.cpu.pc == addr_add(old(m)@.cpu.pc, 2),
{
    let ghost ram0 = old(m)@.ram;
    let ghost pc0 = old(m)@.cpu.pc;
    m.write_pc(x.lo());
    m.write_pc(x.hi());
    proof {
        assert(enc_addr(x@).skip(1) =~= seq![(x@ / 64) as u8]);
        lemma_stores_one(
            ram0.update(pc0 as int, (x@ % 64) as u8),
            addr_add(pc0, 1),
            (x@ / 64) as u8,
        );
    }
}

fn write_offset(m: &mut Machine, x: &Offset)
    ensures
        final(m)@.ram == stores(
            old(m)@.ram,
            old(m)@.cpu.pc,
            seq![crate::word::as_unsigned6(x@)],
        ),
        same_except_pc(old(m)@.cpu, final(m)@.cpu),
        final(m)@.cpu.pc == addr_add(old(m)@.cpu.pc, 1),
{
    proof {
        lemma_stores_one(old(m)@.ram, old(m)@.cpu.pc, crate::word::as_unsigned6(x@));
    }
    m.write_pc(x.as_uword());
}

#[verifier::rlimit(100)]
#[verifier::spinoff_prover]
fn write_time(m: &mut Machine, x: &iLong)
    ensures
        final(m)@.ram == stores(old(m)@.ram, old(m)@.cpu.pc, enc_time(x@)),
        same_except_pc(old(m)@.cpu, final(m)@.cpu),
        final(m)@.cpu.pc == addr_add(old(m)@.cpu.pc, 2),
{
    let ghost ram0 = old(m)@.ram;
    let ghost pc0 = old(m)@.cpu.pc;
    proof {
        use_type_invariant(&*x);
        let t = x@ as int;
        let bits = time_bits(x@);
        if x@ < 0 {
            vstd::arithmetic::div_mod::lemma_fundamental_div_mod(t, 64);
            vstd::arithmetic::div_mod::lemma_mod_bound(t, 64);
            vstd::arithmetic::div_mod::lemma_fundamental_div_mod_converse_div(
                t + 4096,
                64,
                t / 64 + 64,
                t % 64,
            );
            vstd::arithmetic::div_mod::lemma_fundamental_div_mod_converse_mod(
                t + 4096,
                64,
                t / 64 + 64,
                t % 64,
            );
        }
        assert(bits % 64 == x@ % 64);
        assert(as_unsigned6((x@ / 64) as i8) == bits / 64);
    }
    m.write_pc(x.lo());
    m.write_pc(x.hi().as_uword());
    proof {
        assert(enc_time(x@).skip(1) =~= seq![(time_bits(x@) / 64) as u8]);
        lemma_stores_one(
            ram0.update(pc0 as int, (time_bits(x@) % 64) as u8),
            addr_add(pc0, 1),
            (time_bits(x@) / 64) as u8,
        );
    }
}

/// Writes the payload of one operand under a shared time flag: the time
/// offset follows the payload unless the operand is an immediate.
#[verifier::rlimit(100)]
#[verifier::spinoff_prover]
fn write_operand_body(m: &mut Machine, x: &Operand, tf: bool)
    ensures
        final(m)@.ram == stores(old(m)@.ram, old(m)@.cpu.pc, enc_operand_body(*x, tf)),
        same_except_pc(old(m)@.cpu, final(m)@.cpu),
        final(m)@.cpu.pc == addr_add(
            old(m)@.cpu.pc,
            enc_operand_body(*x, tf).len() as int,
        ),
{
    proof {
        use_type_invariant(&m.cpu.pc);
    }
    let ghost ram0 = old(m)@.ram;
    let ghost pc0 = old(m)@.cpu.pc;
    match &x.op {
        Op::Reg(y) => {
            write_register(m, y);
            if tf {
                write_time(m, &x.time);
                proof {
                    lemma_stores_concat(ram0, pc0, seq![reg_code(*y)], enc_time(x.time@));
                }
            }
        },
        Op::Abs(y) => {
            write_address(m, y);
            if tf {
                write_time(m, &x.time);
                proof {
                    lemma_stores_concat(ram0, pc0, enc_addr(y@), enc_time(x.time@));
                }
            }
        },
        Op::Ind(y) => {
            write_address(m, y);
            if tf {
                write_time(m, &x.time);
                proof {
                    lemma_stores_concat(ram0, pc0, enc_addr(y@), enc_time(x.time@));
                }
            }
        },
        Op::Abx(y) => {
            write_address(m, y);
            if tf {
                write_time(m, &x.time);
                proof {
                    lemma_stores_concat(ram0, pc0, enc_addr(y@), enc_time(x.time@));
                }
            }
        },
        Op::Imm(y) => {
            write_word(m, y);
        },
    }
}


/// Storing a word and then a sequence stores their concatenation.
proof fn lemma_stores_prefix_one(ram: Seq<u8>, pc: u16, w: u8, ws: Seq<u8>)
    requires
        pc < 4096,
    ensures
        stores(ram, pc, seq![w] + ws) == stores(ram.update(pc as int, w), addr_add(pc, 1), ws),
{
    lemma_stores_concat(ram, pc, seq![w], ws);
    lemma_stores_one(ram, pc, w);
}

impl Timed<Op> {
    /// Encodes one operand at `PC`: its own mode word, the payload, and the
    /// time offset when the operand is time-displaced.
    fn encode(m: &mut Machine, x: &Operand)
        ensures
            final(m)@.ram == stores(old(m)@.ram, old(m)@.cpu.pc, enc_operand(*x)),
            same_except_pc(old(m)@.cpu, final(m)@.cpu),
            final(m)@.cpu.pc == addr_add(old(m)@.cpu.pc, enc_operand(*x).len() as int),
    {
        proof {
            use_type_invariant(&m.cpu.pc);
        }
        let ghost ram0 = old(m)@.ram;
        let ghost pc0 = old(m)@.cpu.pc;
        let tf = x.time.value() != 0;
        let kind: u8 = match &x.op {
            Op::Reg(_) => 0x0,
            Op::Abs(_) => 0x1,
            Op::Ind(_) => 0x2,
            Op::Abx(_) => 0x3,
            Op::Imm(_) => 0x4,
        };
        let mode = uWord::lit(kind + if tf { 32 } else { 0 });
        m.write_pc(mode);
        write_operand_body(m, x, tf);
        proof {
            lemma_stores_prefix_one(ram0, pc0, mode@, enc_operand_body(*x, tf));
        }
    }
}

impl Operands {
    /// Encodes an operand pair at `PC`: the shared mode word, then the two
    /// operand payloads, each followed by its time offset when the pair is
    /// time-displaced.
    #[verifier::rlimit(50)]
    #[verifier::spinoff_prover]
    fn encode(m: &mut Machine, x: &Operands)
        ensures
            final(m)@.ram == stores(old(m)@.ram, old(m)@.cpu.pc, enc_operands(*x)),
            same_except_pc(old(m)@.cpu, final(m)@.cpu),
            final(m)@.cpu.pc == addr_add(old(m)@.cpu.pc, enc_operands(*x).len() as int),
    {
        proof {
            use_type_invariant(&m.cpu.pc);
        }
        let ghost ram0 = old(m)@.ram;
        let ghost pc0 = old(m)@.cpu.pc;
        let tf = x.src.time.value() != 0 || x.dst.time.value() != 0;
        let sk: u8 = match &x.src.op {
            Op::Reg(_) => 0x0,
            Op::Abs(_) => 0x1,
            Op::Ind(_) => 0x2,
            Op::Abx(_) => 0x3,
            Op::Imm(_) => 0x4,
        };
        let dk: u8 = match &x.dst.op {
            Op::Reg(_) => 0x0,
            Op::Abs(_) => 0x1,
            Op::Ind(_) => 0x2,
            Op::Abx(_) => 0x3,
            Op::Imm(_) => 0x4,
        };
        let mode = uWord::lit(sk + 5 * dk + if tf { 32 } else { 0 });
        let ghost bs = enc_operand_body(x.src, tf);
        let ghost bd = enc_operand_body(x.dst, tf);
        proof {
            assert(tf == (has_time(x.src) || has_time(x.dst)));
            assert(mode@ == (kind_code(x.src.op) + 5 * kind_code(x.dst.op) + if has_time(x.src)
                || has_time(x.dst) { 32int } else { 0 }) as u8);
            assert(enc_operands(*x) =~= seq![mode@] + (bs + bd));
        }
        m.write_pc(mode);
        let ghost ram1 = m@.ram;
        let ghost pc1 = m@.cpu.pc;
        write_operand_body(m, &x.src, tf);
        let ghost ram2 = m@.ram;
        let ghost pc2 = m@.cpu.pc;
        write_operand_body(m, &x.dst, tf);
        proof {
            assert(ram1 == ram0.update(pc0 as int, mode@));
            assert(pc1 == addr_add(pc0, 1) && pc1 < 4096);
            assert(ram2 == stores(ram1, pc1, bs));
            assert(pc2 == addr_add(pc1, bs.len() as int));
            assert(m@.ram == stores(ram2, pc2, bd));
            lemma_stores_concat(ram1, pc1, bs, bd);
            assert(stores(ram1, pc1, bs + bd) == m@.ram);
            lemma_stores_prefix_one(ram0, pc0, mode@, bs + bd);
            assert(stores(ram0, pc0, seq![mode@] + (bs + bd)) == m@.ram);
            assert(enc_operands(*x).len() == 1 + bs.len() + bd.len());
        }
    }
}

impl Instruction {
    /// Encodes the instruction at `PC`, advancing `PC` past it: the RAM ends
    /// up holding the instruction's binary encoding, stored word by word
    /// from the entry `PC`.
    #[verifier::rlimit(100)]
    #[verifier::spinoff_prover]
    pub fn encode(&self, m: &mut Machine)
        ensures
            final(m)@.ram == stores(old(m)@.ram, old(m)@.cpu.pc, enc_instr(*self)),
            same_except_pc(old(m)@.cpu, final(m)@.cpu),
            final(m)@.cpu.pc == addr_add(old(m)@.cpu.pc, enc_instr(*self).len() as int),
    {
        proof {
            use_type_invariant(&m.cpu.pc);
        }
        let ghost ram0 = old(m)@.ram;
        let ghost pc0 = old(m)@.cpu.pc;
        match self {
            Instruction::Nop => {
                m.write_pc(uWord::lit(0x00));
                proof {
                    lemma_stores_one(ram0, pc0, 0x00);
                    assert(enc_instr(*self) =~= seq![0x00u8]);
                }
            },
            Instruction::Clc => {
                m.write_pc(uWord::lit(0x38));
                proof {
                    lemma_stores_one(ram0, pc0, 0x38);
                    assert(enc_instr(*self) =~= seq![0x38u8]);
                }
            },
            Instruction::Sec => {
                m.write_pc(uWord::lit(0x39));
                proof {
                    lemma_stores_one(ram0, pc0, 0x39);
                    assert(enc_instr(*self) =~= seq![0x39u8]);
                }
            },
            Instruction::Hcf => {
                m.write_pc(uWord::lit(0x3e));
                proof {
                    lemma_stores_one(ram0, pc0, 0x3e);
                    assert(enc_instr(*self) =~= seq![0x3eu8]);
                }
            },
            Instruction::Ret => {
                m.write_pc(uWord::lit(0x3f));
                proof {
                    lemma_stores_one(ram0, pc0, 0x3f);
                    assert(enc_instr(*self) =~= seq![0x3fu8]);
                }
            },
            Instruction::Jmp(a) => {
                m.write_pc(uWord::lit(0x30));
                write_address(m, a);
                proof {
                    lemma_stores_prefix_one(ram0, pc0, 0x30, enc_addr(a@));
                }
            },
            Instruction::Cal(a) => {
                m.write_pc(uWord::lit(0x37));
                write_address(m, a);
                proof {
                    lemma_stores_prefix_one(ram0, pc0, 0x37, enc_addr(a@));
                }
            },
            Instruction::Bcc(o) => {
                m.write_pc(uWord::lit(0x31));
                write_offset(m, o);
                proof {
                    lemma_stores_prefix_one(ram0, pc0, 0x31, seq![as_unsigned6(o@)]);
                }
            },
            Instruction::Bcs(o) => {
                m.write_pc(uWord::lit(0x32));
                write_offset(m, o);
                proof {
                    lemma_stores_prefix_one(ram0, pc0, 0x32, seq![as_unsigned6(o@)]);
                }
            },
            Instruction::Bne(o) => {
                m.write_pc(uWord::lit(0x33));
                write_offset(m, o);
                proof {
                    lemma_stores_prefix_one(ram0, pc0, 0x33, seq![as_unsigned6(o@)]);
                }
            },
            Instruction::Beq(o) => {
                m.write_pc(uWord::lit(0x34));
                write_offset(m, o);
                proof {
                    lemma_stores_prefix_one(ram0, pc0, 0x34, seq![as_unsigned6(o@)]);
                }
            },
            Instruction::Bpl(o) => {
                m.write_pc(uWord::lit(0x35));
                write_offset(m, o);
                proof {
                    lemma_stores_prefix_one(ram0, pc0, 0x35, seq![as_unsigned6(o@)]);
                }
            },
            Instruction::Bmi(o) => {
                m.write_pc(uWord::lit(0x36));
                write_offset(m, o);
                proof {
                    lemma_stores_prefix_one(ram0, pc0, 0x36, seq![as_unsigned6(o@)]);
                }
            },
            Instruction::Psh(x) => {
                m.write_pc(uWord::lit(0x03));
                Timed::<Op>::encode(m, x);
                proof {
                    lemma_stores_prefix_one(ram0, pc0, 0x03, enc_operand(*x));
                }
            },
            Instruction::Pop(x) => {
                m.write_pc(uWord::lit(0x04));
                Timed::<Op>::encode(m, x);
                proof {
                    lemma_stores_prefix_one(ram0, pc0, 0x04, enc_operand(*x));
                }
            },
            Instruction::Not(x) => {
                m.write_pc(uWord::lit(0x1a));
                Timed::<Op>::encode(m, x);
                proof {
                    lemma_stores_prefix_one(ram0, pc0, 0x1a, enc_operand(*x));
                }
            },
            Instruction::Lsl(x) => {
                m.write_pc(uWord::lit(0x1b));
                Timed::<Op>::encode(m, x);
                proof {
                    lemma_stores_prefix_one(ram0, pc0, 0x1b, enc_operand(*x));
                }
            },
            Instruction::Lsr(x) => {
                m.write_pc(uWord::lit(0x1c));
                Timed::<Op>::encode(m, x);
                proof {
                    lemma_stores_prefix_one(ram0, pc0, 0x1c, enc_operand(*x));
                }
            },
            Instruction::Asr(x) => {
                m.write_pc(uWord::lit(0x1d));
                Timed::<Op>::encode(m, x);
                proof {
                    lemma_stores_prefix_one(ram0, pc0, 0x1d, enc_operand(*x));
                }
            },
            Instruction::Inc(x) => {
                m.write_pc(uWord::lit(0x1e));
                Timed::<Op>::encode(m, x);
                proof {
                    lemma_stores_prefix_one(ram0, pc0, 0x1e, enc_operand(*x));
                }
            },
            Instruction::Dec(x) => {
                m.write_pc(uWord::lit(0x1f));
                Timed::<Op>::encode(m, x);
                proof {
                    lemma_stores_prefix_one(ram0, pc0, 0x1f, enc_operand(*x));
                }
            },
            Instruction::Mov(x) => {
                m.write_pc(uWord::lit(0x01));
                Operands::encode(m, x);
                proof {
                    lemma_stores_prefix_one(ram0, pc0, 0x01, enc_operands(*x));
                }
            },
            Instruction::Add(x) => {
                m.write_pc(uWord::lit(0x10));
                Operands::encode(m, x);
                proof {
                    lemma_stores_prefix_one(ram0, pc0, 0x10, enc_operands(*x));
                }
            },
            Instruction::Sub(x) => {
                m.write_pc(uWord::lit(0x11));
                Operands::encode(m, x);
                proof {
                    lemma_stores_prefix_one(ram0, pc0, 0x11, enc_operands(*x));
                }
            },
            Instruction::Mul(x) => {
                m.write_pc(uWord::lit(0x12));
                Operands::encode(m, x);
                proof {
                    lemma_stores_prefix_one(ram0, pc0, 0x12, enc_operands(*x));
                }
            },
            Instruction::Muh(x) => {
                m.write_pc(uWord::lit(0x13));
                Operands::encode(m, x);
                proof {
                    lemma_stores_prefix_one(ram0, pc0, 0x13, enc_operands(*x));
                }
            },
            Instruction::Mus(x) => {
                m.write_pc(uWord::lit(0x14));
                Operands::encode(m, x);
                proof {
                    lemma_stores_prefix_one(ram0, pc0, 0x14, enc_operands(*x));
                }
            },
            Instruction::Div(x) => {
                m.write_pc(uWord::lit(0x15));
                Operands::encode(m, x);
                proof {
                    lemma_stores_prefix_one(ram0, pc0, 0x15, enc_operands(*x));
                }
            },
            Instruction::Mod(x) => {
                m.write_pc(uWord::lit(0x16));
                Operands::encode(m, x);
                proof {
                    lemma_stores_prefix_one(ram0, pc0, 0x16, enc_operands(*x));
                }
            },
            Instruction::And(x) => {
                m.write_pc(uWord::lit(0x17));
                Operands::encode(m, x);
                proof {
                    lemma_stores_prefix_one(ram0, pc0, 0x17, enc_operands(*x));
                }
            },
            Instruction::Or(x) => {
                m.write_pc(uWord::lit(0x18));
                Operands::encode(m, x);
                proof {
                    lemma_stores_prefix_one(ram0, pc0, 0x18, enc_operands(*x));
                }
            },
            Instruction::Xor(x) => {
                m.write_pc(uWord::lit(0x19));
                Operands::encode(m, x);
                proof {
                    lemma_stores_prefix_one(ram0, pc0, 0x19, enc_operands(*x));
                }
            },
            Instruction::Cmp(x) => {
                m.write_pc(uWord::lit(0x20));
                Operands::encode(m, x);
                proof {
                    lemma_stores_prefix_one(ram0, pc0, 0x20, enc_operands(*x));
                }
            },
            Instruction::Bit(x) => {
                m.write_pc(uWord::lit(0x21));
                Operands::encode(m, x);
                proof {
                    lemma_stores_prefix_one(ram0, pc0, 0x21, enc_operands(*x));
                }
            },
        }
    }
}

/// Round trip of the codec: decoding the encoding of any well-formed
/// instruction yields that instruction back, consuming exactly its encoding,
/// whatever words follow it.
pub proof fn lemma_codec_round_trip(i: Instruction, rest: Seq<u8>)
    requires
        i.wf(),
    ensures
        dec_instr(enc_instr(i) + rest) == Some((i, enc_instr(i).len() as int)),
{
    let s = enc_instr(i) + rest;
    let opcode = opcode_of(i);
    assert(s[0] == opcode);
    match i {
        Instruction::Nop => {},
        Instruction::Clc => {},
        Instruction::Sec => {},
        Instruction::Hcf => {},
        Instruction::Ret => {},
        Instruction::Jmp(a) => {
            assert(s[1] == a@ % 64 && s[2] == a@ / 64);
            assert(dec_addr((a@ % 64) as u8, (a@ / 64) as u8) == a@);
            assert(uLong::spec_new(a@) == a);
        },
        Instruction::Cal(a) => {
            assert(s[1] == a@ % 64 && s[2] == a@ / 64);
            assert(dec_addr((a@ % 64) as u8, (a@ / 64) as u8) == a@);
            assert(uLong::spec_new(a@) == a);
        },
        Instruction::Bcc(o) => {
            lemma_branch_offset_round_trip(o);
        },
        Instruction::Bcs(o) => {
            lemma_branch_offset_round_trip(o);
        },
        Instruction::Bne(o) => {
            lemma_branch_offset_round_trip(o);
        },
        Instruction::Beq(o) => {
            lemma_branch_offset_round_trip(o);
        },
        Instruction::Bpl(o) => {
            lemma_branch_offset_round_trip(o);
        },
        Instruction::Bmi(o) => {
            lemma_branch_offset_round_trip(o);
        },
        Instruction::Psh(x) => {
            lemma_one_operand_round_trip(i, x, rest);
        },
        Instruction::Pop(x) => {
            lemma_one_operand_round_trip(i, x, rest);
        },
        Instruction::Not(x) => {
            lemma_one_operand_round_trip(i, x, rest);
        },
        Instruction::Lsl(x) => {
            lemma_one_operand_round_trip(i, x, rest);
        },
        Instruction::Lsr(x) => {
            lemma_one_operand_round_trip(i, x, rest);
        },
        Instruction::Asr(x) => {
            lemma_one_operand_round_trip(i, x, rest);
        },
        Instruction::Inc(x) => {
            lemma_one_operand_round_trip(i, x, rest);
        },
        Instruction::Dec(x) => {
            lemma_one_operand_round_trip(i, x, rest);
        },
        Instruction::Mov(x) => {
            lemma_two_operand_round_trip(i, x, rest);
        },
        Instruction::Add(x) => {
            lemma_two_operand_round_trip(i, x, rest);
        },
        Instruction::Sub(x) => {
            lemma_two_operand_round_trip(i, x, rest);
        },
        Instruction::Mul(x) => {
            lemma_two_operand_round_trip(i, x, rest);
        },
        Instruction::Muh(x) => {
            lemma_two_operand_round_trip(i, x, rest);
        },
        Instruction::Mus(x) => {
            lemma_two_operand_round_trip(i, x, rest);
        },
        Instruction::Div(x) => {
            lemma_two_operand_round_trip(i, x, rest);
        },
        Instruction::Mod(x) => {
            lemma_two_operand_round_trip(i, x, rest);
        },
        Instruction::And(x) => {
            lemma_two_operand_round_trip(i, x, rest);
        },
        Instruction::Or(x) => {
            lemma_two_operand_round_trip(i, x, rest);
        },
        Instruction::Xor(x) => {
            lemma_two_operand_round_trip(i, x, rest);
        },
        Instruction::Cmp(x) => {
            lemma_two_operand_round_trip(i, x, rest);
        },
        Instruction::Bit(x) => {
            lemma_two_operand_round_trip(i, x, rest);
        },
    }
}

/// A branch offset decodes back from its 6-bit two's-complement pattern.
proof fn lemma_branch_offset_round_trip(o: iWord)
    requires
        -32 <= o@ < 32,
    ensures
        iWord::spec_new(as_signed6(crate::word::as_unsigned6(o@))) == o,
{
    assert(as_signed6(crate::word::as_unsigned6(o@)) == o@);
}

/// Round trip of a single-operand instruction, given its operand.
proof fn lemma_one_operand_round_trip(i: Instruction, x: Operand, rest: Seq<u8>)
    requires
        x.wf(),
        is_one_operand_opcode(opcode_of(i)),
        enc_instr(i) == seq![opcode_of(i)] + enc_operand(x),
        one_operand_instr(opcode_of(i), x) == i,
    ensures
        dec_instr(enc_instr(i) + rest) == Some((i, enc_instr(i).len() as int)),
{
    let s = enc_instr(i) + rest;
    let tf = has_time(x);
    let mode = (kind_code(x.op) + if tf { 32int } else { 0 }) as u8;
    assert(s[0] == opcode_of(i));
    assert(s[1] == mode);
    assert(kind_code(x.op) <= 4);
    assert(mode_tf(mode) == tf);
    assert(mode_kind(mode) == kind_code(x.op));
    let body = enc_operand_body(x, tf);
    assert(s.skip(2) =~= body + rest);
    lemma_operand_body_round_trip(x, tf, rest);
    assert(dec_operand(s.skip(2), kind_code(x.op), tf) == Some((x, body.len() as int)));
    assert(enc_instr(i).len() == 2 + body.len());
}

/// Round trip of a two-operand instruction, given its operand pair.
proof fn lemma_two_operand_round_trip(i: Instruction, x: Operands, rest: Seq<u8>)
    requires
        x.wf(),
        is_two_operand_opcode(opcode_of(i)),
        enc_instr(i) == seq![opcode_of(i)] + enc_operands(x),
        two_operand_instr(opcode_of(i), x) == i,
    ensures
        dec_instr(enc_instr(i) + rest) == Some((i, enc_instr(i).len() as int)),
{
    let s = enc_instr(i) + rest;
    assert(s[0] == opcode_of(i));
    assert(s[1] == enc_operands(x)[0]);
    assert(s.skip(2) =~= enc_operands(x).skip(1) + rest);
    lemma_operands_round_trip(x, rest);
    assert(dec_operands(s.skip(2), s[1]) == Some((x, enc_operands(x).len() - 1)));
    assert(enc_instr(i).len() == 1 + enc_operands(x).len());
}

} // verus!
