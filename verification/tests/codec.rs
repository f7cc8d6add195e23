use timecore::instruction::{Instruction, Op, Operand, Operands, Register, Timed};
use timecore::machine::Machine;
use timecore::word::{iLong, iWord, uLong, uWord};

fn reg(r: Register) -> Operand {
    Timed { op: Op::Reg(r), time: iLong::zero() }
}

fn imm(v: u8) -> Operand {
    Timed { op: Op::Imm(uWord::lit(v)), time: iLong::zero() }
}

fn timed(op: Op, dt: i16) -> Operand {
    Timed { op, time: iLong::try_new(dt).unwrap() }
}

fn addr(a: u16) -> uLong {
    uLong::try_new(a).unwrap()
}

fn sample_instructions() -> Vec<Instruction> {
    vec![
        Instruction::Nop,
        Instruction::Mov(Operands { src: imm(0x2a), dst: reg(Register::A) }),
        Instruction::Mov(Operands {
            src: timed(Op::Reg(Register::A), 2),
            dst: reg(Register::A),
        }),
        Instruction::Mov(Operands {
            src: imm(1),
            dst: timed(Op::Abs(addr(0x123)), -7),
        }),
        Instruction::Psh(timed(Op::Ind(addr(0xfff)), -2048)),
        Instruction::Pop(reg(Register::X)),
        Instruction::Add(Operands { src: reg(Register::BH), dst: reg(Register::BL) }),
        Instruction::Sub(Operands { src: imm(63), dst: reg(Register::CH) }),
        Instruction::Mul(Operands { src: reg(Register::CL), dst: reg(Register::A) }),
        Instruction::Muh(Operands { src: imm(7), dst: reg(Register::A) }),
        Instruction::Mus(Operands { src: imm(33), dst: reg(Register::A) }),
        Instruction::Div(Operands { src: imm(3), dst: reg(Register::A) }),
        Instruction::Mod(Operands { src: imm(0), dst: reg(Register::A) }),
        Instruction::And(Operands {
            src: timed(Op::Abx(addr(0x040)), 2047),
            dst: reg(Register::A),
        }),
        Instruction::Or(Operands { src: imm(0x15), dst: reg(Register::A) }),
        Instruction::Xor(Operands { src: imm(0x3f), dst: reg(Register::A) }),
        Instruction::Not(reg(Register::A)),
        Instruction::Lsl(timed(Op::Reg(Register::X), 1)),
        Instruction::Lsr(reg(Register::A)),
        Instruction::Asr(reg(Register::A)),
        Instruction::Inc(timed(Op::Abs(addr(0)), -1)),
        Instruction::Dec(reg(Register::CL)),
        Instruction::Cmp(Operands { src: imm(9), dst: reg(Register::A) }),
        Instruction::Bit(Operands { src: imm(8), dst: reg(Register::A) }),
        Instruction::Jmp(addr(0xabc)),
        Instruction::Bcc(iWord::try_new(-32).unwrap()),
        Instruction::Bcs(iWord::try_new(31).unwrap()),
        Instruction::Bne(iWord::zero()),
        Instruction::Beq(iWord::try_new(1).unwrap()),
        Instruction::Bpl(iWord::try_new(-1).unwrap()),
        Instruction::Bmi(iWord::try_new(5).unwrap()),
        Instruction::Clc,
        Instruction::Sec,
        Instruction::Cal(addr(0x084)),
        Instruction::Ret,
        Instruction::Hcf,
    ]
}

#[test]
fn encode_then_decode_round_trips() {
    let prog = sample_instructions();
    let mut m = Machine::new();
    for i in &prog {
        i.encode(&mut m);
    }
    m.reset_cpu();
    for i in &prog {
        let back = Instruction::decode(&mut m).expect("well-formed instruction must decode");
        assert_eq!(back, *i);
    }
}

#[test]
fn unknown_opcode_is_a_decode_fault() {
    let mut m = Machine::new();
    m.ram.write(uLong::try_new(0x80).unwrap(), uWord::lit(0x22));
    assert!(Instruction::decode(&mut m).is_none());
}

#[test]
fn invalid_register_payload_is_a_decode_fault() {
    let mut m = Machine::new();
    // opcode Psh, mode Reg, register code 1 names no register
    m.ram.write(uLong::try_new(0x80).unwrap(), uWord::lit(0x03));
    m.ram.write(uLong::try_new(0x81).unwrap(), uWord::lit(0x00));
    m.ram.write(uLong::try_new(0x82).unwrap(), uWord::lit(0x01));
    assert!(Instruction::decode(&mut m).is_none());
}

#[test]
fn invalid_mode_composition_is_a_decode_fault() {
    let mut m = Machine::new();
    // opcode Mov, mode-kind field 25 exceeds the base-5 composition
    m.ram.write(uLong::try_new(0x80).unwrap(), uWord::lit(0x01));
    m.ram.write(uLong::try_new(0x81).unwrap(), uWord::lit(25));
    assert!(Instruction::decode(&mut m).is_none());
}
