use timecore::instruction::{Instruction, Op, Operand, Operands, Register, Timed};
use timecore::interpreter::{execute, step, step_micro_begin, step_micro_commit};
use timecore::machine::Machine;
use timecore::universe::Universe;
use timecore::word::{iLong, uLong, uWord};

fn reg_a() -> Operand {
    Timed { op: Op::Reg(Register::A), time: iLong::zero() }
}

fn imm(v: u8) -> Operand {
    Timed { op: Op::Imm(uWord::lit(v)), time: iLong::zero() }
}

fn timed_reg_a(dt: i16) -> Operand {
    Timed { op: Op::Reg(Register::A), time: iLong::try_new(dt).unwrap() }
}

fn pair(src: Operand, dst: Operand) -> Operands {
    Operands { src, dst }
}

/// A fresh engine, ready to run instructions cycle by cycle.
fn bench() -> Universe {
    Universe::with_machine(Machine::new())
}

/// Runs one instruction in a fresh cycle: operand reads resolve against the
/// previous cycle's snapshot.
fn run1(u: &mut Universe, i: &Instruction) {
    u.push_new_state();
    execute(u, i);
}

fn set_a(u: &mut Universe, v: u8) {
    run1(u, &Instruction::Mov(pair(imm(v), reg_a())));
}

fn set_carry(u: &mut Universe, c: bool) {
    run1(u, &(if c { Instruction::Sec } else { Instruction::Clc }));
}

fn flags(u: &Universe) -> (bool, bool, bool, bool) {
    let f = u.now().cpu.flags;
    (f.n, f.v, f.z, f.c)
}

#[test]
fn add_boundary_truth_table() {
    // (a, b, c_in) -> (result, n, v, z, c_out), hand-computed
    let cases: [(u8, u8, bool, u8, bool, bool, bool, bool); 6] = [
        (0, 0, false, 0, false, false, true, false),
        (63, 0, false, 63, true, true, false, false),
        (0, 63, false, 63, true, true, false, false),
        (63, 63, false, 62, true, false, false, true),
        (63, 63, true, 63, true, false, false, true),
        (1, 31, false, 32, true, true, false, false),
    ];
    for &(a, b, c_in, r, n, v, z, c_out) in cases.iter() {
        let mut u = bench();
        set_a(&mut u, b);
        set_carry(&mut u, c_in);
        run1(&mut u, &Instruction::Add(pair(imm(a), reg_a())));
        assert_eq!(u.now().cpu.a.value(), r, "result of {} + {} + {}", a, b, c_in);
        assert_eq!(flags(&u), (n, v, z, c_out), "flags of {} + {} + {}", a, b, c_in);
    }
}

#[test]
fn sub_boundary_truth_table() {
    // Sub computes 64 + dst - src - (1 - c_in); carry-out clears on borrow
    let cases: [(u8, u8, bool, u8, bool); 4] = [
        (0, 0, true, 0, true),
        (1, 0, true, 63, false),
        (32, 31, true, 63, false),
        (31, 32, true, 1, true),
    ];
    for &(a, b, c_in, r, c_out) in cases.iter() {
        let mut u = bench();
        set_a(&mut u, b);
        set_carry(&mut u, c_in);
        run1(&mut u, &Instruction::Sub(pair(imm(a), reg_a())));
        assert_eq!(u.now().cpu.a.value(), r, "result of {} - {}", b, a);
        assert_eq!(u.now().cpu.flags.c, c_out, "carry of {} - {}", b, a);
    }
}

#[test]
fn add_then_sub_with_complemented_carry_is_identity() {
    for &a in [0u8, 1, 31, 32, 63].iter() {
        for &b in [0u8, 1, 31, 32, 63].iter() {
            for &c in [false, true].iter() {
                let mut u = bench();
                set_a(&mut u, b);
                set_carry(&mut u, c);
                run1(&mut u, &Instruction::Add(pair(imm(a), reg_a())));
                set_carry(&mut u, !c);
                run1(&mut u, &Instruction::Sub(pair(imm(a), reg_a())));
                assert_eq!(u.now().cpu.a.value(), b, "inverse of a={} b={} c={}", a, b, c);
            }
        }
    }
}

#[test]
fn shift_right_takes_incoming_bit_from_carry() {
    // Lsr and Asr both take the incoming top bit from the current carry
    // flag and leave the carry itself untouched
    for &(instr_is_asr, v, c, expected) in [
        (false, 0u8, true, 32u8),
        (true, 0, true, 32),
        (false, 63, false, 31),
        (true, 63, false, 31),
        (true, 62, true, 63),
    ].iter() {
        let mut u = bench();
        set_a(&mut u, v);
        set_carry(&mut u, c);
        let i = if instr_is_asr {
            Instruction::Asr(reg_a())
        } else {
            Instruction::Lsr(reg_a())
        };
        run1(&mut u, &i);
        assert_eq!(u.now().cpu.a.value(), expected, "shift of {} with C={}", v, c);
        assert_eq!(u.now().cpu.flags.c, c, "carry untouched");
    }
}

#[test]
fn psh_rederives_nvz_from_the_moved_value() {
    let mut u = bench();
    run1(&mut u, &Instruction::Psh(imm(0x20)));
    let f = u.now().cpu.flags;
    assert!(f.n && !f.z);
    run1(&mut u, &Instruction::Psh(imm(0)));
    let f = u.now().cpu.flags;
    assert!(!f.n && f.z);
}

#[test]
fn div_by_zero_is_an_exact_no_op() {
    let mut u = bench();
    set_a(&mut u, 7);
    set_carry(&mut u, true);
    u.push_new_state();
    let before = u.now().clone();
    execute(&mut u, &Instruction::Div(pair(imm(0), reg_a())));
    assert_eq!(*u.now(), before);
    execute(&mut u, &Instruction::Mod(pair(imm(0), reg_a())));
    assert_eq!(*u.now(), before);
    // and a real division still works
    run1(&mut u, &Instruction::Div(pair(imm(2), reg_a())));
    assert_eq!(u.now().cpu.a.value(), 3);
}

fn run_program(prog: &[Instruction]) -> Universe {
    let mut m = Machine::new();
    for i in prog {
        i.encode(&mut m);
    }
    m.reset_cpu();
    Universe::with_machine(m)
}

#[test]
fn cal_then_ret_restores_pc_through_hundred_nested_calls() {
    // start: cal f1; hcf --- f_k: cal f_(k+1); ret --- f_100: ret
    let base: u16 = 0x84;
    let mut prog: Vec<Instruction> = Vec::new();
    prog.push(Instruction::Cal(uLong::try_new(base).unwrap()));
    prog.push(Instruction::Hcf);
    for k in 0..99u16 {
        prog.push(Instruction::Cal(uLong::try_new(base + 4 * (k + 1)).unwrap()));
        prog.push(Instruction::Ret);
    }
    prog.push(Instruction::Ret);
    let mut u = run_program(&prog);
    let mut reached_hcf = false;
    for _ in 0..260 {
        let (machine, instruction) = step(&mut u).expect("program must step");
        if instruction == Instruction::Hcf {
            // every nested call returned: PC is back at the halt after the
            // outermost call
            assert_eq!(machine.cpu.pc.value(), 0x83);
            reached_hcf = true;
            break;
        }
    }
    assert!(reached_hcf);
}

#[test]
fn future_read_of_identity_cycle_converges() {
    // A is written from its own value two cycles ahead; the future cycle
    // keeps A unchanged, so the assumed value is confirmed.
    let prog = vec![
        Instruction::Mov(pair(timed_reg_a(2), reg_a())),
        Instruction::Mov(pair(reg_a(), reg_a())),
        Instruction::Hcf,
    ];
    let mut u = run_program(&prog);
    let mut machines: Vec<Machine> = Vec::new();
    for _ in 0..6 {
        let (machine, _) = step(&mut u).expect("consistent program must converge");
        machines.push(machine);
    }
    assert!(u.is_consistent());
    // the writing cycle and the future cycle observe the same value of A
    assert_eq!(machines[1].cpu.a.value(), machines[3].cpu.a.value());
}

#[test]
fn conflicting_past_writes_do_not_converge() {
    // two instructions write different values into the same past slot
    let prog = vec![
        Instruction::Nop,
        Instruction::Nop,
        Instruction::Nop,
        Instruction::Mov(pair(imm(1), timed_reg_a(-2))),
        Instruction::Mov(pair(imm(2), timed_reg_a(-3))),
        Instruction::Hcf,
    ];
    let mut u = run_program(&prog);
    assert!(step(&mut u).is_none());
}

#[test]
fn peripheral_runs_between_micro_step_halves() {
    // a clock-style collaborator writes a memory-mapped cell after the
    // snapshot is cloned forward and before the instruction executes
    let prog = vec![
        Instruction::Nop,
        Instruction::Mov(pair(
            Timed { op: Op::Abs(uLong::try_new(0x10).unwrap()), time: iLong::zero() },
            reg_a(),
        )),
        Instruction::Hcf,
    ];
    let mut u = run_program(&prog);
    for _ in 0..2 {
        step_micro_begin(&mut u).expect("below the horizon");
        let mut m = u.now().clone();
        m.ram.write(uLong::try_new(0x10).unwrap(), uWord::lit(7));
        u.put_now(m);
        step_micro_commit(&mut u).expect("program must decode");
    }
    // the move read the collaborator's cell as of the previous cycle
    assert_eq!(u.now().cpu.a.value(), 7);
}
