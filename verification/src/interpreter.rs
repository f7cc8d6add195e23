//! The execution engine: operand resolution through the timeline, the ALU
//! and control-flow semantics of each instruction, and the per-cycle
//! stepping protocol that resolves time-displaced accesses into a
//! never-to-be-revised snapshot.

use vstd::prelude::*;

use crate::instruction::{dec_instr, Instruction, Op, Operand, Operands, Register};
use crate::machine::{
    addr_add, m_with_pc, m_with_ram, m_with_sp, tape, CpuModel, Flag, FlagWord, Machine,
    MachineModel,
};
use crate::universe::{
    mode_widen, Mode, PendingRead, PendingWrite, Universe, UniverseModel, MAX_WINDOW,
    TIME_HORIZON,
};
use crate::word::{as_signed6, iWord, uLong, uWord};

verus! {

broadcast use crate::word::group_word_lemmas, crate::machine::lemma_addr_add_chain;

// Reading and writing one operand location on a single machine. The spec
// functions resolve the five addressing kinds through the RAM model.

/// The 12-bit address an X-indexed operand resolves to.
pub open spec fn abx_target(m: MachineModel, a: u16) -> u16 {
    addr_add(a, m.cpu.x as int)
}

/// The 12-bit address an indirect operand resolves to: the pointer stored
/// lo, hi at the given address.
pub open spec fn ind_target(m: MachineModel, a: u16) -> u16 {
    (m.ram[a as int] + 64 * m.ram[addr_add(a, 1) as int]) as u16
}

/// The word an operand location holds on a machine.
pub open spec fn spec_operand_read(m: MachineModel, op: Op) -> u8 {
    match op {
        Op::Reg(Register::A) => m.cpu.a,
        Op::Reg(Register::BH) => m.cpu.bh,
        Op::Reg(Register::BL) => m.cpu.bl,
        Op::Reg(Register::CH) => m.cpu.ch,
        Op::Reg(Register::CL) => m.cpu.cl,
        Op::Reg(Register::X) => m.cpu.x,
        Op::Imm(w) => w@,
        Op::Abs(a) => m.ram[a@ as int],
        Op::Abx(a) => m.ram[abx_target(m, a@) as int],
        Op::Ind(a) => m.ram[ind_target(m, a@) as int],
    }
}

/// The register file with one register replaced.
pub open spec fn cpu_set_reg(c: CpuModel, r: Register, v: u8) -> CpuModel {
    match r {
        Register::A => CpuModel { a: v, ..c },
        Register::BH => CpuModel { bh: v, ..c },
        Register::BL => CpuModel { bl: v, ..c },
        Register::CH => CpuModel { ch: v, ..c },
        Register::CL => CpuModel { cl: v, ..c },
        Register::X => CpuModel { x: v, ..c },
    }
}

/// The machine with one operand location written; writing an immediate
/// changes nothing (the executable writer refuses it).
pub open spec fn spec_operand_write(m: MachineModel, op: Op, v: u8) -> MachineModel {
    match op {
        Op::Reg(r) => MachineModel { cpu: cpu_set_reg(m.cpu, r, v), ram: m.ram },
        Op::Imm(_) => m,
        Op::Abs(a) => MachineModel { cpu: m.cpu, ram: m.ram.update(a@ as int, v) },
        Op::Abx(a) => MachineModel { cpu: m.cpu, ram: m.ram.update(abx_target(m, a@) as int, v) },
        Op::Ind(a) => MachineModel { cpu: m.cpu, ram: m.ram.update(ind_target(m, a@) as int, v) },
    }
}

/// Reads one operand location on a machine.
pub fn operand_read(m: &Machine, op: &Op) -> (r: uWord)
    ensures
        r@ == spec_operand_read(m@, *op),
{
    match op {
        Op::Reg(Register::A) => m.cpu.a,
        Op::Reg(Register::BH) => m.cpu.bh,
        Op::Reg(Register::BL) => m.cpu.bl,
        Op::Reg(Register::CH) => m.cpu.ch,
        Op::Reg(Register::CL) => m.cpu.cl,
        Op::Reg(Register::X) => m.cpu.x,
        Op::Imm(w) => *w,
        Op::Abs(a) => m.ram.read(*a),
        Op::Abx(a) => m.ram.read(a.wrapping_add(m.cpu.x.value() as i16)),
        Op::Ind(a) => {
            let lo = m.ram.read(*a);
            let hi = m.ram.read(a.wrapping_add(1));
            proof {
                use_type_invariant(&lo);
                use_type_invariant(&hi);
            }
            m.ram.read(uLong::from_hi_lo(hi, lo))
        },
    }
}

/// Writes one operand location on a machine; an immediate is no location.
pub fn operand_write(m: &mut Machine, op: &Op, value: uWord)
    requires
        !(op is Imm),
    ensures
        final(m)@ == spec_operand_write(old(m)@, *op, value@),
{
    match op {
        Op::Reg(Register::A) => m.cpu.a = value,
        Op::Reg(Register::BH) => m.cpu.bh = value,
        Op::Reg(Register::BL) => m.cpu.bl = value,
        Op::Reg(Register::CH) => m.cpu.ch = value,
        Op::Reg(Register::CL) => m.cpu.cl = value,
        Op::Reg(Register::X) => m.cpu.x = value,
        Op::Imm(_) => (),
        Op::Abs(a) => m.ram.write(*a, value),
        Op::Abx(a) => {
            let t = a.wrapping_add(m.cpu.x.value() as i16);
            m.ram.write(t, value);
        },
        Op::Ind(a) => {
            let lo = m.ram.read(*a);
            let hi = m.ram.read(a.wrapping_add(1));
            proof {
                use_type_invariant(&lo);
                use_type_invariant(&hi);
            }
            let t = uLong::from_hi_lo(hi, lo);
            m.ram.write(t, value);
        },
    }
}

// Flag computation. N, V and Z are re-derived from a result value; V pairs
// the current carry with the result's sign bit; C is only written by the
// operations that define a carry.

/// The machine with its flag word replaced.
pub open spec fn m_with_flags(m: MachineModel, f: FlagWord) -> MachineModel {
    MachineModel { cpu: CpuModel { flags: f, ..m.cpu }, ram: m.ram }
}

/// The flag word after the N, V and Z flags are re-derived from a value:
/// N is the value's sign bit, V pairs the carry with the sign bit, Z marks
/// zero; C is kept.
pub open spec fn flags_nvz(f: FlagWord, v: u8) -> FlagWord {
    FlagWord { n: v >= 32, v: f.c != (v >= 32), z: v == 0, c: f.c }
}

/// The flag word with the carry replaced.
pub open spec fn flags_c(f: FlagWord, c: bool) -> FlagWord {
    FlagWord { c, ..f }
}

fn set_flag_z(state: &mut Machine, value: &uWord)
    ensures
        final(state)@ == m_with_flags(
            old(state)@,
            FlagWord { z: value@ == 0, ..old(state)@.cpu.flags },
        ),
{
    let z = value.value() == 0;
    state.cpu.flags.write(Flag::Z, z);
}

fn set_flag_n(state: &mut Machine, value: &uWord)
    ensures
        final(state)@ == m_with_flags(
            old(state)@,
            FlagWord { n: value@ >= 32, ..old(state)@.cpu.flags },
        ),
{
    let n = value.sign_bit();
    state.cpu.flags.write(Flag::N, n);
}

fn set_flag_v(state: &mut Machine, value: &uWord)
    ensures
        final(state)@ == m_with_flags(
            old(state)@,
            FlagWord {
                v: old(state)@.cpu.flags.c != (value@ >= 32),
                ..old(state)@.cpu.flags
            },
        ),
{
    let v = get_flag_c(state) != value.sign_bit();
    state.cpu.flags.write(Flag::V, v);
}

fn set_flag_nvz(state: &mut Machine, value: &uWord)
    ensures
        final(state)@ == m_with_flags(old(state)@, flags_nvz(old(state)@.cpu.flags, value@)),
{
    set_flag_n(state, value);
    set_flag_v(state, value);
    set_flag_z(state, value);
}

fn set_flag_c(state: &mut Machine, carry: bool)
    ensures
        final(state)@ == m_with_flags(old(state)@, flags_c(old(state)@.cpu.flags, carry)),
{
    state.cpu.flags.write(Flag::C, carry);
}

fn get_flag_c(state: &Machine) -> (r: bool)
    ensures
        r == state@.cpu.flags.c,
{
    state.cpu.flags.read(Flag::C)
}

/// Splits a raw result into its low six bits and whether any higher bit is
/// set: the wrapped word and the carry out.
pub fn normalise(x: u8) -> (r: (uWord, bool))
    ensures
        r.0@ == x % 64,
        r.1 == (x / 64 != 0),
{
    (uWord::lit(x % 64), x / 64 != 0)
}

// The ALU, as functions from the 6-bit operand values and the carry-in to
// the wrapped result and the carry-out. All intermediate arithmetic is done
// on the wide representation, with the 6-bit wrap applied at the end.

/// The carry as a summand.
pub open spec fn c01(c: bool) -> int {
    if c {
        1
    } else {
        0
    }
}

/// Addition with carry-in: `src + dst + C`, wrapped; the carry-out marks
/// overflow past the word.
pub open spec fn alu_add(src: u8, dst: u8, c: bool) -> (u8, bool) {
    let s = src + dst + c01(c);
    (((s % 64) as u8), s >= 64)
}

/// Subtraction with borrow: `64 + dst - src - (1 - C)`, wrapped; the
/// carry-out clears exactly when the subtraction borrows.
pub open spec fn alu_sub(src: u8, dst: u8, c: bool) -> (u8, bool) {
    let s = 64 + dst - src - (1 - c01(c));
    (((s % 64) as u8), s >= 64)
}

/// The low half of the unsigned product, wrapped.
pub open spec fn alu_mul(src: u8, dst: u8) -> u8 {
    ((src * dst) % 64) as u8
}

/// The high six bits of the unsigned 12-bit product.
pub open spec fn alu_muh(src: u8, dst: u8) -> (u8, bool) {
    let h = (src * dst) / 64;
    (((h % 64) as u8), h / 64 != 0)
}

/// The high six bits of the signed product: both operands are read as
/// 6-bit signed values, and the product's shifted low byte is wrapped.
pub open spec fn alu_mus(src: u8, dst: u8) -> (u8, bool) {
    let p = as_signed6(src) * as_signed6(dst);
    let low8 = (p / 64) % 256;
    (((low8 % 64) as u8), low8 / 64 != 0)
}

/// Bitwise conjunction, wrapped.
pub open spec fn alu_and(src: u8, dst: u8) -> u8 {
    ((src & dst) % 64) as u8
}

/// Bitwise disjunction, wrapped.
pub open spec fn alu_or(src: u8, dst: u8) -> u8 {
    ((src | dst) % 64) as u8
}

/// Bitwise exclusive disjunction, wrapped.
pub open spec fn alu_xor(src: u8, dst: u8) -> u8 {
    ((src ^ dst) % 64) as u8
}

/// Bitwise complement on the 8-bit representation, wrapped.
pub open spec fn alu_not(v: u8) -> u8 {
    (((255 - v) % 64) as u8)
}

/// Shift left by one; the carry-out is the bit shifted out of the word.
pub open spec fn alu_lsl(v: u8) -> (u8, bool) {
    (((2 * v) % 64) as u8, (2 * v) / 64 != 0)
}

/// Shift right by one; the incoming top bit is the current carry flag, and
/// the carry flag itself is not updated.
pub open spec fn alu_lsr(v: u8, c: bool) -> u8 {
    (v / 2 + 32 * c01(c)) as u8
}

/// Arithmetic shift right by one: like the logical shift, the incoming top
/// bit is taken from the current carry flag, not from the shifted-out or
/// sign bit, and the carry flag is not updated.
pub open spec fn alu_asr(v: u8, c: bool) -> u8 {
    (v / 2 + 32 * c01(c)) as u8
}

/// Increment modulo the word; the carry flag is untouched.
pub open spec fn alu_inc(v: u8) -> u8 {
    (((v + 1) % 64) as u8)
}

/// Decrement modulo the word; the carry flag is untouched.
pub open spec fn alu_dec(v: u8) -> u8 {
    (((v + 63) % 64) as u8)
}

/// The additive inverse law: adding an operand with carry-in and then
/// subtracting the same operand with the complemented carry discipline
/// returns the original value, for every 6-bit pair and carry.
pub proof fn lemma_add_sub_inverse(a: u8, b: u8, c: bool)
    requires
        a < 64,
        b < 64,
    ensures
        alu_sub(a, alu_add(a, b, c).0, !c).0 == b,
{
    let s = a + b + c01(c);
    vstd::arithmetic::div_mod::lemma_fundamental_div_mod(s, 64);
    vstd::arithmetic::div_mod::lemma_mod_bound(s, 64);
    let r1 = s % 64;
    let s2 = 64 + r1 - a - (1 - c01(!c));
    assert(s2 == b + 64 - 64 * (s / 64));
    assert(0 <= s / 64 <= 1);
    if s / 64 == 0 {
        assert(s2 % 64 == b);
    } else {
        assert(s2 == b);
    }
}


// Operand resolution through the timeline. A read or write whose operand
// carries a time offset `dt` targets cycle `t1 + dt`, where `t1` is the
// cycle just before the instruction for reads and the current cycle for
// writes. Reads from cycles not yet simulated assume zero; both kinds of
// future access are queued for later resolution; a write into the past that
// disagrees with the recorded value overwrites it and marks the interval up
// to the present as inconsistent.

/// The machine after a stack push: the word stored at `SP`, then `SP`
/// decremented.
pub open spec fn m_push(m: MachineModel, v: u8) -> MachineModel {
    m_with_sp(m_with_ram(m, m.cpu.sp as int, v), addr_add(m.cpu.sp, -1))
}

/// The engine with the current snapshot's flag word replaced.
pub open spec fn now_flags(u: UniverseModel, f: FlagWord) -> UniverseModel {
    u.with_now(m_with_flags(u.now(), f))
}

/// When a timed read is legal: the instruction is past cycle zero and a
/// read from the present or past stays within the retained window.
pub open spec fn get_pre(u: UniverseModel, x: Operand) -> bool {
    u.t >= 1 && (x.time@ <= 0 ==> u.t0 <= u.t - 1 + x.time@)
}

/// When a timed write is legal: the target is a real location and a write
/// into the past stays within the retained window.
pub open spec fn set_pre(u: UniverseModel, x: Operand) -> bool {
    !(x.op is Imm) && (x.time@ < 0 ==> u.t0 <= u.t + x.time@)
}

/// The value a timed read yields: the recorded word for the present or
/// past, the recorded word of an already-simulated future cycle, and zero
/// for a future that does not exist yet.
pub open spec fn get_value(u: UniverseModel, x: Operand) -> u8 {
    let t2 = u.t - 1 + x.time@;
    if x.time@ <= 0 {
        spec_operand_read(u.states[t2 - u.t0], x.op)
    } else if t2 >= u.tf() || u.tf() == u.t + 1 {
        0
    } else {
        spec_operand_read(u.states[t2 - u.t0], x.op)
    }
}

/// The engine after a timed read: a read from the future queues its assumed
/// value for the consistency check when that cycle arrives.
pub open spec fn get_model(u: UniverseModel, x: Operand) -> UniverseModel {
    let t2 = u.t - 1 + x.time@;
    if x.time@ > 0 {
        UniverseModel {
            pending_reads: u.pending_reads.push(
                PendingRead {
                    t: t2 as usize,
                    origin: (u.t - 1) as usize,
                    loc: x.op,
                    expected: uWord::spec_new(get_value(u, x)),
                },
            ),
            ..u
        }
    } else {
        u
    }
}

/// The engine after a timed write: applied now for the present, queued for
/// the future, and compared against the record for the past — on a
/// disagreement the record is overwritten and the interval up to the
/// present marked inconsistent.
pub open spec fn set_model(u: UniverseModel, x: Operand, v: u8) -> UniverseModel {
    let t2 = u.t + x.time@;
    if x.time@ == 0 {
        u.with_now(spec_operand_write(u.now(), x.op, v))
    } else if x.time@ > 0 {
        UniverseModel {
            pending_writes: u.pending_writes.push(
                PendingWrite { t: t2 as usize, loc: x.op, value: uWord::spec_new(v) },
            ),
            ..u
        }
    } else {
        if spec_operand_read(u.states[t2 - u.t0], x.op) == v {
            u
        } else {
            UniverseModel {
                states: u.states.update(
                    t2 - u.t0,
                    spec_operand_write(u.states[t2 - u.t0], x.op, v),
                ),
                mode: mode_widen(u.mode, t2 as usize, u.t as usize),
                ..u
            }
        }
    }
}

/// Resolves a timed operand for reading.
pub fn operand_get(u: &mut Universe, x: &Operand) -> (r: uWord)
    requires
        old(u).wf(),
        get_pre(old(u)@, *x),
    ensures
        final(u).wf(),
        r@ == get_value(old(u)@, *x),
        final(u)@ == get_model(old(u)@, *x),
{
    proof {
        use_type_invariant(&x.time);
    }
    let t = u.t();
    let t1 = t - 1;
    let d: i32 = x.time.value() as i32;
    if d <= 0 {
        proof {
            assert(old(u)@.t0 >= 0);
            assert(old(u)@.t - 1 + x.time@ >= old(u)@.t0);
            assert(t1 >= (-d) as int);
        }
        let t2 = t1 - ((-d) as usize);
        operand_read(u.get_at(t2), &x.op)
    } else {
        proof {
            assert(old(u)@.t < old(u)@.t0 + old(u)@.states.len());
            assert(old(u)@.t0 <= TIME_HORIZON);
            assert(old(u)@.states.len() <= 2 * MAX_WINDOW);
            assert(t1 + d <= usize::MAX);
        }
        let t2 = t1 + (d as usize);
        let tfv = u.tf();
        if t2 >= tfv || tfv == t + 1 {
            u.push_pending_read(
                PendingRead { t: t2, origin: t1, loc: x.op, expected: uWord::zero() },
            );
            uWord::zero()
        } else {
            let value = operand_read(u.get_at(t2), &x.op);
            u.push_pending_read(PendingRead { t: t2, origin: t1, loc: x.op, expected: value });
            value
        }
    }
}

/// Resolves a timed operand for writing.
pub fn operand_set(u: &mut Universe, x: &Operand, value: uWord)
    requires
        old(u).wf(),
        set_pre(old(u)@, *x),
    ensures
        final(u).wf(),
        final(u)@ == set_model(old(u)@, *x, value@),
{
    proof {
        use_type_invariant(&x.time);
    }
    let t1 = u.t();
    let d: i32 = x.time.value() as i32;
    if d == 0 {
        let mut m = u.now().clone();
        operand_write(&mut m, &x.op, value);
        u.put_now(m);
    } else if d > 0 {
        proof {
            assert(old(u)@.t < old(u)@.t0 + old(u)@.states.len());
            assert(old(u)@.t0 <= TIME_HORIZON);
            assert(old(u)@.states.len() <= 2 * MAX_WINDOW);
            assert(t1 + d <= usize::MAX);
        }
        let t2 = t1 + (d as usize);
        u.push_pending_write(PendingWrite { t: t2, loc: x.op, value });
    } else {
        proof {
            assert(old(u)@.t0 >= 0);
            assert(old(u)@.t + x.time@ >= old(u)@.t0);
            assert(t1 >= (-d) as int);
        }
        let t2 = t1 - ((-d) as usize);
        let existing = operand_read(u.get_at(t2), &x.op);
        if existing == value {
        } else {
            let mut m = u.get_at(t2).clone();
            operand_write(&mut m, &x.op, value);
            u.set_at(t2, m);
            u.mark_inconsistent(t2, t1);
        }
    }
}

fn now_set_flag_c(u: &mut Universe, c: bool)
    requires
        old(u).wf(),
    ensures
        final(u).wf(),
        final(u)@ == now_flags(old(u)@, flags_c(old(u)@.now().cpu.flags, c)),
{
    let mut m = u.now().clone();
    set_flag_c(&mut m, c);
    u.put_now(m);
}

fn now_set_flags_nvz(u: &mut Universe, w: &uWord)
    requires
        old(u).wf(),
    ensures
        final(u).wf(),
        final(u)@ == now_flags(old(u)@, flags_nvz(old(u)@.now().cpu.flags, w@)),
{
    let mut m = u.now().clone();
    set_flag_nvz(&mut m, w);
    u.put_now(m);
}

fn now_set_flag_z(u: &mut Universe, w: &uWord)
    requires
        old(u).wf(),
    ensures
        final(u).wf(),
        final(u)@ == now_flags(
            old(u)@,
            FlagWord { z: w@ == 0, ..old(u)@.now().cpu.flags },
        ),
{
    let mut m = u.now().clone();
    set_flag_z(&mut m, w);
    u.put_now(m);
}

/// When an instruction's timed operands can all be resolved: every access
/// into the past stays within the retained window, and every written
/// operand names a real location.
pub open spec fn exec_pre(u: UniverseModel, i: Instruction) -> bool {
    match i {
        Instruction::Mov(x) => get_pre(u, x.src) && set_pre(u, x.dst),
        Instruction::Psh(x) => get_pre(u, x),
        Instruction::Pop(x) => set_pre(u, x),
        Instruction::Add(x) => get_pre(u, x.src) && get_pre(u, x.dst) && set_pre(u, x.dst),
        Instruction::Sub(x) => get_pre(u, x.src) && get_pre(u, x.dst) && set_pre(u, x.dst),
        Instruction::Mul(x) => get_pre(u, x.src) && get_pre(u, x.dst) && set_pre(u, x.dst),
        Instruction::Muh(x) => get_pre(u, x.src) && get_pre(u, x.dst) && set_pre(u, x.dst),
        Instruction::Mus(x) => get_pre(u, x.src) && get_pre(u, x.dst) && set_pre(u, x.dst),
        Instruction::And(x) => get_pre(u, x.src) && get_pre(u, x.dst) && set_pre(u, x.dst),
        Instruction::Or(x) => get_pre(u, x.src) && get_pre(u, x.dst) && set_pre(u, x.dst),
        Instruction::Xor(x) => get_pre(u, x.src) && get_pre(u, x.dst) && set_pre(u, x.dst),
        Instruction::Div(x) => get_pre(u, x.src) && (get_value(u, x.src) != 0
            ==> get_pre(u, x.dst) && set_pre(u, x.dst)),
        Instruction::Mod(x) => get_pre(u, x.src) && (get_value(u, x.src) != 0
            ==> get_pre(u, x.dst) && set_pre(u, x.dst)),
        Instruction::Cmp(x) => get_pre(u, x.src) && get_pre(u, x.dst),
        Instruction::Bit(x) => get_pre(u, x.src) && get_pre(u, x.dst),
        Instruction::Not(x) => get_pre(u, x) && set_pre(u, x),
        Instruction::Lsl(x) => get_pre(u, x) && set_pre(u, x),
        Instruction::Lsr(x) => get_pre(u, x) && set_pre(u, x),
        Instruction::Asr(x) => get_pre(u, x) && set_pre(u, x),
        Instruction::Inc(x) => get_pre(u, x) && set_pre(u, x),
        Instruction::Dec(x) => get_pre(u, x) && set_pre(u, x),
        Instruction::Jmp(_) => true,
        Instruction::Cal(_) => true,
        Instruction::Bcc(_) => true,
        Instruction::Bcs(_) => true,
        Instruction::Bne(_) => true,
        Instruction::Beq(_) => true,
        Instruction::Bpl(_) => true,
        Instruction::Bmi(_) => true,
        Instruction::Ret => true,
        Instruction::Clc => true,
        Instruction::Sec => true,
        Instruction::Nop => true,
        Instruction::Hcf => true,
    }
}

/// The engine after one instruction executes against the current cycle,
/// following the per-opcode semantics and the timed operand resolution
/// rules.
pub open spec fn spec_execute(u: UniverseModel, i: Instruction) -> UniverseModel {
    match i {
        Instruction::Mov(x) => {
            let w = get_value(u, x.src);
            let u1 = get_model(u, x.src);
            let u2 = set_model(u1, x.dst, w);
            now_flags(u2, flags_nvz(u2.now().cpu.flags, w))
        },
        Instruction::Psh(x) => {
            let w = get_value(u, x);
            let u1 = get_model(u, x);
            let u2 = u1.with_now(m_push(u1.now(), w));
            now_flags(u2, flags_nvz(u2.now().cpu.flags, w))
        },
        Instruction::Pop(x) => {
            let now0 = u.now();
            let w = now0.ram[addr_add(now0.cpu.sp, 1) as int];
            let u1 = u.with_now(m_with_sp(now0, addr_add(now0.cpu.sp, 1)));
            let u2 = set_model(u1, x, w);
            now_flags(u2, flags_nvz(u2.now().cpu.flags, w))
        },
        Instruction::Add(x) => {
            let a = get_value(u, x.src);
            let u1 = get_model(u, x.src);
            let b = get_value(u1, x.dst);
            let u2 = get_model(u1, x.dst);
            let p = alu_add(a, b, u2.now().cpu.flags.c);
            let u3 = set_model(u2, x.dst, p.0);
            let u4 = now_flags(u3, flags_c(u3.now().cpu.flags, p.1));
            now_flags(u4, flags_nvz(u4.now().cpu.flags, p.0))
        },
        Instruction::Sub(x) => {
            let a = get_value(u, x.src);
            let u1 = get_model(u, x.src);
            let b = get_value(u1, x.dst);
            let u2 = get_model(u1, x.dst);
            let p = alu_sub(a, b, u2.now().cpu.flags.c);
            let u3 = set_model(u2, x.dst, p.0);
            let u4 = now_flags(u3, flags_c(u3.now().cpu.flags, p.1));
            now_flags(u4, flags_nvz(u4.now().cpu.flags, p.0))
        },
        Instruction::Mul(x) => {
            let a = get_value(u, x.src);
            let u1 = get_model(u, x.src);
            let b = get_value(u1, x.dst);
            let u2 = get_model(u1, x.dst);
            let r = alu_mul(a, b);
            let u3 = set_model(u2, x.dst, r);
            now_flags(u3, flags_nvz(u3.now().cpu.flags, r))
        },
        Instruction::Muh(x) => {
            let a = get_value(u, x.src);
            let u1 = get_model(u, x.src);
            let b = get_value(u1, x.dst);
            let u2 = get_model(u1, x.dst);
            let p = alu_muh(a, b);
            let u3 = set_model(u2, x.dst, p.0);
            let u4 = now_flags(u3, flags_c(u3.now().cpu.flags, p.1));
            now_flags(u4, flags_nvz(u4.now().cpu.flags, p.0))
        },
        Instruction::Mus(x) => {
            let a = get_value(u, x.src);
            let u1 = get_model(u, x.src);
            let b = get_value(u1, x.dst);
            let u2 = get_model(u1, x.dst);
            let p = alu_mus(a, b);
            let u3 = set_model(u2, x.dst, p.0);
            let u4 = now_flags(u3, flags_c(u3.now().cpu.flags, p.1));
            now_flags(u4, flags_nvz(u4.now().cpu.flags, p.0))
        },
        Instruction::Div(x) => {
            let g = get_value(u, x.src);
            let u1 = get_model(u, x.src);
            if g == 0 {
                u1
            } else {
                let a = get_value(u1, x.src);
                let u2 = get_model(u1, x.src);
                let b = get_value(u2, x.dst);
                let u3 = get_model(u2, x.dst);
                let r = (((b / a) % 64) as u8);
                let u4 = set_model(u3, x.dst, r);
                now_flags(
                    u4,
                    FlagWord { z: r == 0, ..u4.now().cpu.flags },
                )
            }
        },
        Instruction::Mod(x) => {
            let g = get_value(u, x.src);
            let u1 = get_model(u, x.src);
            if g == 0 {
                u1
            } else {
                let a = get_value(u1, x.src);
                let u2 = get_model(u1, x.src);
                let b = get_value(u2, x.dst);
                let u3 = get_model(u2, x.dst);
                let r = (((b % a) % 64) as u8);
                let u4 = set_model(u3, x.dst, r);
                now_flags(
                    u4,
                    FlagWord { z: r == 0, ..u4.now().cpu.flags },
                )
            }
        },
        Instruction::And(x) => {
            let a = get_value(u, x.src);
            let u1 = get_model(u, x.src);
            let b = get_value(u1, x.dst);
            let u2 = get_model(u1, x.dst);
            let r = alu_and(a, b);
            let u3 = set_model(u2, x.dst, r);
            now_flags(u3, flags_nvz(u3.now().cpu.flags, r))
        },
        Instruction::Or(x) => {
            let a = get_value(u, x.src);
            let u1 = get_model(u, x.src);
            let b = get_value(u1, x.dst);
            let u2 = get_model(u1, x.dst);
            let r = alu_or(a, b);
            let u3 = set_model(u2, x.dst, r);
            now_flags(u3, flags_nvz(u3.now().cpu.flags, r))
        },
        Instruction::Xor(x) => {
            let a = get_value(u, x.src);
            let u1 = get_model(u, x.src);
            let b = get_value(u1, x.dst);
            let u2 = get_model(u1, x.dst);
            let r = alu_xor(a, b);
            let u3 = set_model(u2, x.dst, r);
            now_flags(u3, flags_nvz(u3.now().cpu.flags, r))
        },
        Instruction::Not(x) => {
            let a = get_value(u, x);
            let u1 = get_model(u, x);
            let r = alu_not(a);
            let u2 = set_model(u1, x, r);
            now_flags(u2, flags_nvz(u2.now().cpu.flags, r))
        },
        Instruction::Lsl(x) => {
            let a = get_value(u, x);
            let u1 = get_model(u, x);
            let p = alu_lsl(a);
            let u2 = set_model(u1, x, p.0);
            let u3 = now_flags(u2, flags_nvz(u2.now().cpu.flags, p.0));
            now_flags(u3, flags_c(u3.now().cpu.flags, p.1))
        },
        Instruction::Lsr(x) => {
            let a = get_value(u, x);
            let u1 = get_model(u, x);
            let r = alu_lsr(a, u1.now().cpu.flags.c);
            let u2 = set_model(u1, x, r);
            now_flags(u2, flags_nvz(u2.now().cpu.flags, r))
        },
        Instruction::Asr(x) => {
            let a = get_value(u, x);
            let u1 = get_model(u, x);
            let r = alu_asr(a, u1.now().cpu.flags.c);
            let u2 = set_model(u1, x, r);
            now_flags(u2, flags_nvz(u2.now().cpu.flags, r))
        },
        Instruction::Inc(x) => {
            let a = get_value(u, x);
            let u1 = get_model(u, x);
            let r = alu_inc(a);
            let u2 = set_model(u1, x, r);
            now_flags(u2, flags_nvz(u2.now().cpu.flags, r))
        },
        Instruction::Dec(x) => {
            let a = get_value(u, x);
            let u1 = get_model(u, x);
            let r = alu_dec(a);
            let u2 = set_model(u1, x, r);
            now_flags(u2, flags_nvz(u2.now().cpu.flags, r))
        },
        Instruction::Cmp(x) => {
            let a = get_value(u, x.src);
            let u1 = get_model(u, x.src);
            let b = get_value(u1, x.dst);
            let u2 = get_model(u1, x.dst);
            let p = alu_sub(a, b, u2.now().cpu.flags.c);
            let u3 = now_flags(u2, flags_c(u2.now().cpu.flags, p.1));
            now_flags(u3, flags_nvz(u3.now().cpu.flags, p.0))
        },
        Instruction::Bit(x) => {
            let a = get_value(u, x.src);
            let u1 = get_model(u, x.src);
            let b = get_value(u1, x.dst);
            let u2 = get_model(u1, x.dst);
            let r = alu_and(a, b);
            now_flags(u2, flags_nvz(u2.now().cpu.flags, r))
        },
        Instruction::Jmp(a) => u.with_now(m_with_pc(u.now(), a@)),
        Instruction::Cal(a) => {
            let now0 = u.now();
            let m1 = m_push(now0, (now0.cpu.pc % 64) as u8);
            let m2 = m_push(m1, (now0.cpu.pc / 64) as u8);
            u.with_now(m_with_pc(m2, a@))
        },
        Instruction::Ret => {
            let now0 = u.now();
            let hi = now0.ram[addr_add(now0.cpu.sp, 1) as int];
            let lo = now0.ram[addr_add(now0.cpu.sp, 2) as int];
            u.with_now(
                m_with_pc(m_with_sp(now0, addr_add(now0.cpu.sp, 2)), (hi * 64 + lo) as u16),
            )
        },
        Instruction::Bcc(o) => {
            if !u.now().cpu.flags.c {
                u.with_now(m_with_pc(u.now(), addr_add(u.now().cpu.pc, o@ as int)))
            } else {
                u
            }
        },
        Instruction::Bcs(o) => {
            if u.now().cpu.flags.c {
                u.with_now(m_with_pc(u.now(), addr_add(u.now().cpu.pc, o@ as int)))
            } else {
                u
            }
        },
        Instruction::Bne(o) => {
            if !u.now().cpu.flags.z {
                u.with_now(m_with_pc(u.now(), addr_add(u.now().cpu.pc, o@ as int)))
            } else {
                u
            }
        },
        Instruction::Beq(o) => {
            if u.now().cpu.flags.z {
                u.with_now(m_with_pc(u.now(), addr_add(u.now().cpu.pc, o@ as int)))
            } else {
                u
            }
        },
        Instruction::Bpl(o) => {
            if !u.now().cpu.flags.n {
                u.with_now(m_with_pc(u.now(), addr_add(u.now().cpu.pc, o@ as int)))
            } else {
                u
            }
        },
        Instruction::Bmi(o) => {
            if u.now().cpu.flags.n {
                u.with_now(m_with_pc(u.now(), addr_add(u.now().cpu.pc, o@ as int)))
            } else {
                u
            }
        },
        Instruction::Clc => now_flags(u, flags_c(u.now().cpu.flags, false)),
        Instruction::Sec => now_flags(u, flags_c(u.now().cpu.flags, true)),
        Instruction::Nop => u,
        Instruction::Hcf => u.with_now(m_with_pc(u.now(), addr_add(u.now().cpu.pc, -1))),
    }
}

// Per-opcode executors; each resolves its operands, computes per the ALU
// semantics, writes back, and re-derives the flags its opcode defines.

fn exec_mov(u: &mut Universe, x: &Operands)
    requires
        old(u).wf(),
        exec_pre(old(u)@, Instruction::Mov(*x)),
    ensures
        final(u).wf(),
        final(u)@ == spec_execute(old(u)@, Instruction::Mov(*x)),
{

        let w = operand_get(u, &x.src);
        operand_set(u, &x.dst, w);
        now_set_flags_nvz(u, &w);

}

fn exec_psh(u: &mut Universe, x: &Operand)
    requires
        old(u).wf(),
        exec_pre(old(u)@, Instruction::Psh(*x)),
    ensures
        final(u).wf(),
        final(u)@ == spec_execute(old(u)@, Instruction::Psh(*x)),
{

        let w = operand_get(u, x);
        let mut m = u.now().clone();
        m.write_sp(w);
        u.put_now(m);
        now_set_flags_nvz(u, &w);

}

fn exec_pop(u: &mut Universe, x: &Operand)
    requires
        old(u).wf(),
        exec_pre(old(u)@, Instruction::Pop(*x)),
    ensures
        final(u).wf(),
        final(u)@ == spec_execute(old(u)@, Instruction::Pop(*x)),
{

        let mut m = u.now().clone();
        let w = m.read_sp();
        u.put_now(m);
        operand_set(u, x, w);
        now_set_flags_nvz(u, &w);

}

fn exec_add(u: &mut Universe, x: &Operands)
    requires
        old(u).wf(),
        exec_pre(old(u)@, Instruction::Add(*x)),
    ensures
        final(u).wf(),
        final(u)@ == spec_execute(old(u)@, Instruction::Add(*x)),
{

        let a = operand_get(u, &x.src);
        let b = operand_get(u, &x.dst);
        let cin: u8 = if get_flag_c(u.now()) {
            1
        } else {
            0
        };
        let (result, carry) = normalise(a.value() + b.value() + cin);
        operand_set(u, &x.dst, result);
        now_set_flag_c(u, carry);
        now_set_flags_nvz(u, &result);

}

fn exec_sub(u: &mut Universe, x: &Operands)
    requires
        old(u).wf(),
        exec_pre(old(u)@, Instruction::Sub(*x)),
    ensures
        final(u).wf(),
        final(u)@ == spec_execute(old(u)@, Instruction::Sub(*x)),
{

        let a = operand_get(u, &x.src);
        let b = operand_get(u, &x.dst);
        let cin: u8 = if get_flag_c(u.now()) {
            1
        } else {
            0
        };
        let (result, carry) = normalise(64 + b.value() - a.value() - (1 - cin));
        operand_set(u, &x.dst, result);
        now_set_flag_c(u, carry);
        now_set_flags_nvz(u, &result);

}

fn exec_mul(u: &mut Universe, x: &Operands)
    requires
        old(u).wf(),
        exec_pre(old(u)@, Instruction::Mul(*x)),
    ensures
        final(u).wf(),
        final(u)@ == spec_execute(old(u)@, Instruction::Mul(*x)),
{

        let a = operand_get(u, &x.src);
        let b = operand_get(u, &x.dst);
        let av = a.value();
        let bv = b.value();
        proof {
            assert(av * bv < 4096) by (nonlinear_arith)
                requires
                    av < 64 && bv < 64,
            ;
        }
        let prod: u16 = (av as u16) * (bv as u16);
        let result = uWord::lit((prod % 64) as u8);
        operand_set(u, &x.dst, result);
        now_set_flags_nvz(u, &result);

}

fn exec_muh(u: &mut Universe, x: &Operands)
    requires
        old(u).wf(),
        exec_pre(old(u)@, Instruction::Muh(*x)),
    ensures
        final(u).wf(),
        final(u)@ == spec_execute(old(u)@, Instruction::Muh(*x)),
{

        let a = operand_get(u, &x.src);
        let b = operand_get(u, &x.dst);
        let av = a.value();
        let bv = b.value();
        proof {
            assert(av * bv < 4096) by (nonlinear_arith)
                requires
                    av < 64 && bv < 64,
            ;
        }
        let prod: u16 = (av as u16) * (bv as u16);
        let (result, carry) = normalise((prod / 64) as u8);
        operand_set(u, &x.dst, result);
        now_set_flag_c(u, carry);
        now_set_flags_nvz(u, &result);

}

fn exec_mus(u: &mut Universe, x: &Operands)
    requires
        old(u).wf(),
        exec_pre(old(u)@, Instruction::Mus(*x)),
    ensures
        final(u).wf(),
        final(u)@ == spec_execute(old(u)@, Instruction::Mus(*x)),
{

        let a = operand_get(u, &x.src);
        let b = operand_get(u, &x.dst);
        let sa: i16 = a.as_iword().value() as i16;
        let sb: i16 = b.as_iword().value() as i16;
        proof {
            assert(-1024 <= sa * sb <= 1024) by (nonlinear_arith)
                requires
                    -32 <= sa < 32 && -32 <= sb < 32,
            ;
        }
        let p: i16 = sa * sb;
        let shifted: i16 = if p >= 0 {
            p / 64
        } else {
            (p - 63) / 64
        };
        proof {
            vstd::arithmetic::div_mod::lemma_fundamental_div_mod(p as int, 64);
            vstd::arithmetic::div_mod::lemma_mod_bound(p as int, 64);
            assert(shifted == (p as int) / 64);
            assert(-16 <= shifted <= 16);
            if shifted < 0 {
                vstd::arithmetic::div_mod::lemma_fundamental_div_mod_converse_mod(
                    shifted as int,
                    256,
                    -1,
                    shifted + 256,
                );
            } else {
                vstd::arithmetic::div_mod::lemma_small_mod(shifted as nat, 256);
            }
        }
        let low8: u8 = if shifted < 0 {
            (shifted + 256) as u8
        } else {
            shifted as u8
        };
        let (result, carry) = normalise(low8);
        operand_set(u, &x.dst, result);
        now_set_flag_c(u, carry);
        now_set_flags_nvz(u, &result);

}

fn exec_div(u: &mut Universe, x: &Operands)
    requires
        old(u).wf(),
        exec_pre(old(u)@, Instruction::Div(*x)),
    ensures
        final(u).wf(),
        final(u)@ == spec_execute(old(u)@, Instruction::Div(*x)),
{

        let g = operand_get(u, &x.src);
        if g.value() != 0 {
            let a = operand_get(u, &x.src);
            let b = operand_get(u, &x.dst);
            let (result, _) = normalise(b.value() / a.value());
            operand_set(u, &x.dst, result);
            now_set_flag_z(u, &result);
        }

}

fn exec_mod(u: &mut Universe, x: &Operands)
    requires
        old(u).wf(),
        exec_pre(old(u)@, Instruction::Mod(*x)),
    ensures
        final(u).wf(),
        final(u)@ == spec_execute(old(u)@, Instruction::Mod(*x)),
{

        let g = operand_get(u, &x.src);
        if g.value() != 0 {
            let a = operand_get(u, &x.src);
            let b = operand_get(u, &x.dst);
            let (result, _) = normalise(b.value() % a.value());
            operand_set(u, &x.dst, result);
            now_set_flag_z(u, &result);
        }

}

fn exec_and(u: &mut Universe, x: &Operands)
    requires
        old(u).wf(),
        exec_pre(old(u)@, Instruction::And(*x)),
    ensures
        final(u).wf(),
        final(u)@ == spec_execute(old(u)@, Instruction::And(*x)),
{

        let a = operand_get(u, &x.src);
        let b = operand_get(u, &x.dst);
        let (result, _) = normalise(a.value() & b.value());
        operand_set(u, &x.dst, result);
        now_set_flags_nvz(u, &result);

}

fn exec_or(u: &mut Universe, x: &Operands)
    requires
        old(u).wf(),
        exec_pre(old(u)@, Instruction::Or(*x)),
    ensures
        final(u).wf(),
        final(u)@ == spec_execute(old(u)@, Instruction::Or(*x)),
{

        let a = operand_get(u, &x.src);
        let b = operand_get(u, &x.dst);
        let (result, _) = normalise(a.value() | b.value());
        operand_set(u, &x.dst, result);
        now_set_flags_nvz(u, &result);

}

fn exec_xor(u: &mut Universe, x: &Operands)
    requires
        old(u).wf(),
        exec_pre(old(u)@, Instruction::Xor(*x)),
    ensures
        final(u).wf(),
        final(u)@ == spec_execute(old(u)@, Instruction::Xor(*x)),
{

        let a = operand_get(u, &x.src);
        let b = operand_get(u, &x.dst);
        let (result, _) = normalise(a.value() ^ b.value());
        operand_set(u, &x.dst, result);
        now_set_flags_nvz(u, &result);

}

fn exec_not(u: &mut Universe, x: &Operand)
    requires
        old(u).wf(),
        exec_pre(old(u)@, Instruction::Not(*x)),
    ensures
        final(u).wf(),
        final(u)@ == spec_execute(old(u)@, Instruction::Not(*x)),
{

        let a = operand_get(u, x);
        let (result, _) = normalise(255 - a.value());
        operand_set(u, x, result);
        now_set_flags_nvz(u, &result);

}

fn exec_lsl(u: &mut Universe, x: &Operand)
    requires
        old(u).wf(),
        exec_pre(old(u)@, Instruction::Lsl(*x)),
    ensures
        final(u).wf(),
        final(u)@ == spec_execute(old(u)@, Instruction::Lsl(*x)),
{

        let a = operand_get(u, x);
        let (result, carry) = normalise(2 * a.value());
        operand_set(u, x, result);
        now_set_flags_nvz(u, &result);
        now_set_flag_c(u, carry);

}

fn exec_lsr(u: &mut Universe, x: &Operand)
    requires
        old(u).wf(),
        exec_pre(old(u)@, Instruction::Lsr(*x)),
    ensures
        final(u).wf(),
        final(u)@ == spec_execute(old(u)@, Instruction::Lsr(*x)),
{

        let a = operand_get(u, x);
        let cbit: u8 = if get_flag_c(u.now()) {
            32
        } else {
            0
        };
        let result = uWord::lit(a.value() / 2 + cbit);
        operand_set(u, x, result);
        now_set_flags_nvz(u, &result);

}

fn exec_asr(u: &mut Universe, x: &Operand)
    requires
        old(u).wf(),
        exec_pre(old(u)@, Instruction::Asr(*x)),
    ensures
        final(u).wf(),
        final(u)@ == spec_execute(old(u)@, Instruction::Asr(*x)),
{

        let a = operand_get(u, x);
        let cbit: u8 = if get_flag_c(u.now()) {
            32
        } else {
            0
        };
        let result = uWord::lit(a.value() / 2 + cbit);
        operand_set(u, x, result);
        now_set_flags_nvz(u, &result);

}

fn exec_inc(u: &mut Universe, x: &Operand)
    requires
        old(u).wf(),
        exec_pre(old(u)@, Instruction::Inc(*x)),
    ensures
        final(u).wf(),
        final(u)@ == spec_execute(old(u)@, Instruction::Inc(*x)),
{

        let a = operand_get(u, x);
        let (result, _) = normalise(a.value() + 1);
        operand_set(u, x, result);
        now_set_flags_nvz(u, &result);

}

fn exec_dec(u: &mut Universe, x: &Operand)
    requires
        old(u).wf(),
        exec_pre(old(u)@, Instruction::Dec(*x)),
    ensures
        final(u).wf(),
        final(u)@ == spec_execute(old(u)@, Instruction::Dec(*x)),
{

        let a = operand_get(u, x);
        let (result, _) = normalise(a.value() + 63);
        operand_set(u, x, result);
        now_set_flags_nvz(u, &result);

}

fn exec_cmp(u: &mut Universe, x: &Operands)
    requires
        old(u).wf(),
        exec_pre(old(u)@, Instruction::Cmp(*x)),
    ensures
        final(u).wf(),
        final(u)@ == spec_execute(old(u)@, Instruction::Cmp(*x)),
{

        let a = operand_get(u, &x.src);
        let b = operand_get(u, &x.dst);
        let cin: u8 = if get_flag_c(u.now()) {
            1
        } else {
            0
        };
        let (result, carry) = normalise(64 + b.value() - a.value() - (1 - cin));
        now_set_flag_c(u, carry);
        now_set_flags_nvz(u, &result);

}

fn exec_bit(u: &mut Universe, x: &Operands)
    requires
        old(u).wf(),
        exec_pre(old(u)@, Instruction::Bit(*x)),
    ensures
        final(u).wf(),
        final(u)@ == spec_execute(old(u)@, Instruction::Bit(*x)),
{

        let a = operand_get(u, &x.src);
        let b = operand_get(u, &x.dst);
        let (result, _) = normalise(a.value() & b.value());
        now_set_flags_nvz(u, &result);

}

fn exec_jmp(u: &mut Universe, x: &uLong)
    requires
        old(u).wf(),
        exec_pre(old(u)@, Instruction::Jmp(*x)),
    ensures
        final(u).wf(),
        final(u)@ == spec_execute(old(u)@, Instruction::Jmp(*x)),
{

        let mut m = u.now().clone();
        m.cpu.pc = *x;
        u.put_now(m);

}

fn exec_cal(u: &mut Universe, x: &uLong)
    requires
        old(u).wf(),
        exec_pre(old(u)@, Instruction::Cal(*x)),
    ensures
        final(u).wf(),
        final(u)@ == spec_execute(old(u)@, Instruction::Cal(*x)),
{

        let mut m = u.now().clone();
        let cur = m.cpu.pc;
        m.write_sp(cur.lo());
        m.write_sp(cur.hi());
        m.cpu.pc = *x;
        u.put_now(m);

}

fn exec_ret(u: &mut Universe)
    requires
        old(u).wf(),
        exec_pre(old(u)@, Instruction::Ret),
    ensures
        final(u).wf(),
        final(u)@ == spec_execute(old(u)@, Instruction::Ret),
{

        let mut m = u.now().clone();
        let hi = m.read_sp();
        let lo = m.read_sp();
        proof {
            use_type_invariant(&hi);
            use_type_invariant(&lo);
        }
        m.cpu.pc = uLong::from_hi_lo(hi, lo);
        u.put_now(m);

}

fn exec_bcc(u: &mut Universe, x: &iWord)
    requires
        old(u).wf(),
        exec_pre(old(u)@, Instruction::Bcc(*x)),
    ensures
        final(u).wf(),
        final(u)@ == spec_execute(old(u)@, Instruction::Bcc(*x)),
{

        if !u.now().cpu.flags.read(Flag::C) {
            let mut m = u.now().clone();
            m.cpu.pc = m.cpu.pc.wrapping_add(x.value() as i16);
            u.put_now(m);
        }

}

fn exec_bcs(u: &mut Universe, x: &iWord)
    requires
        old(u).wf(),
        exec_pre(old(u)@, Instruction::Bcs(*x)),
    ensures
        final(u).wf(),
        final(u)@ == spec_execute(old(u)@, Instruction::Bcs(*x)),
{

        if u.now().cpu.flags.read(Flag::C) {
            let mut m = u.now().clone();
            m.cpu.pc = m.cpu.pc.wrapping_add(x.value() as i16);
            u.put_now(m);
        }

}

fn exec_bne(u: &mut Universe, x: &iWord)
    requires
        old(u).wf(),
        exec_pre(old(u)@, Instruction::Bne(*x)),
    ensures
        final(u).wf(),
        final(u)@ == spec_execute(old(u)@, Instruction::Bne(*x)),
{

        if !u.now().cpu.flags.read(Flag::Z) {
            let mut m = u.now().clone();
            m.cpu.pc = m.cpu.pc.wrapping_add(x.value() as i16);
            u.put_now(m);
        }

}

fn exec_beq(u: &mut Universe, x: &iWord)
    requires
        old(u).wf(),
        exec_pre(old(u)@, Instruction::Beq(*x)),
    ensures
        final(u).wf(),
        final(u)@ == spec_execute(old(u)@, Instruction::Beq(*x)),
{

        if u.now().cpu.flags.read(Flag::Z) {
            let mut m = u.now().clone();
            m.cpu.pc = m.cpu.pc.wrapping_add(x.value() as i16);
            u.put_now(m);
        }

}

fn exec_bpl(u: &mut Universe, x: &iWord)
    requires
        old(u).wf(),
        exec_pre(old(u)@, Instruction::Bpl(*x)),
    ensures
        final(u).wf(),
        final(u)@ == spec_execute(old(u)@, Instruction::Bpl(*x)),
{

        if !u.now().cpu.flags.read(Flag::N) {
            let mut m = u.now().clone();
            m.cpu.pc = m.cpu.pc.wrapping_add(x.value() as i16);
            u.put_now(m);
        }

}

fn exec_bmi(u: &mut Universe, x: &iWord)
    requires
        old(u).wf(),
        exec_pre(old(u)@, Instruction::Bmi(*x)),
    ensures
        final(u).wf(),
        final(u)@ == spec_execute(old(u)@, Instruction::Bmi(*x)),
{

        if u.now().cpu.flags.read(Flag::N) {
            let mut m = u.now().clone();
            m.cpu.pc = m.cpu.pc.wrapping_add(x.value() as i16);
            u.put_now(m);
        }

}

fn exec_clc(u: &mut Universe)
    requires
        old(u).wf(),
        exec_pre(old(u)@, Instruction::Clc),
    ensures
        final(u).wf(),
        final(u)@ == spec_execute(old(u)@, Instruction::Clc),
{

        now_set_flag_c(u, false);

}

fn exec_sec(u: &mut Universe)
    requires
        old(u).wf(),
        exec_pre(old(u)@, Instruction::Sec),
    ensures
        final(u).wf(),
        final(u)@ == spec_execute(old(u)@, Instruction::Sec),
{

        now_set_flag_c(u, true);

}

fn exec_nop(u: &mut Universe)
    requires
        old(u).wf(),
        exec_pre(old(u)@, Instruction::Nop),
    ensures
        final(u).wf(),
        final(u)@ == spec_execute(old(u)@, Instruction::Nop),
{
            ();
}

fn exec_hcf(u: &mut Universe)
    requires
        old(u).wf(),
        exec_pre(old(u)@, Instruction::Hcf),
    ensures
        final(u).wf(),
        final(u)@ == spec_execute(old(u)@, Instruction::Hcf),
{

        let mut m = u.now().clone();
        m.cpu.pc = m.cpu.pc.wrapping_add(-1);
        u.put_now(m);

}

/// Executes one instruction against the current cycle.
pub fn execute(u: &mut Universe, i: &Instruction)
    requires
        old(u).wf(),
        exec_pre(old(u)@, *i),
    ensures
        final(u).wf(),
        final(u)@ == spec_execute(old(u)@, *i),
{
    match i {
        Instruction::Mov(x) => {
            exec_mov(u, x);
        },
        Instruction::Psh(x) => {
            exec_psh(u, x);
        },
        Instruction::Pop(x) => {
            exec_pop(u, x);
        },
        Instruction::Add(x) => {
            exec_add(u, x);
        },
        Instruction::Sub(x) => {
            exec_sub(u, x);
        },
        Instruction::Mul(x) => {
            exec_mul(u, x);
        },
        Instruction::Muh(x) => {
            exec_muh(u, x);
        },
        Instruction::Mus(x) => {
            exec_mus(u, x);
        },
        Instruction::Div(x) => {
            exec_div(u, x);
        },
        Instruction::Mod(x) => {
            exec_mod(u, x);
        },
        Instruction::And(x) => {
            exec_and(u, x);
        },
        Instruction::Or(x) => {
            exec_or(u, x);
        },
        Instruction::Xor(x) => {
            exec_xor(u, x);
        },
        Instruction::Not(x) => {
            exec_not(u, x);
        },
        Instruction::Lsl(x) => {
            exec_lsl(u, x);
        },
        Instruction::Lsr(x) => {
            exec_lsr(u, x);
        },
        Instruction::Asr(x) => {
            exec_asr(u, x);
        },
        Instruction::Inc(x) => {
            exec_inc(u, x);
        },
        Instruction::Dec(x) => {
            exec_dec(u, x);
        },
        Instruction::Cmp(x) => {
            exec_cmp(u, x);
        },
        Instruction::Bit(x) => {
            exec_bit(u, x);
        },
        Instruction::Jmp(x) => {
            exec_jmp(u, x);
        },
        Instruction::Cal(x) => {
            exec_cal(u, x);
        },
        Instruction::Ret => {
            exec_ret(u);
        },
        Instruction::Bcc(x) => {
            exec_bcc(u, x);
        },
        Instruction::Bcs(x) => {
            exec_bcs(u, x);
        },
        Instruction::Bne(x) => {
            exec_bne(u, x);
        },
        Instruction::Beq(x) => {
            exec_beq(u, x);
        },
        Instruction::Bpl(x) => {
            exec_bpl(u, x);
        },
        Instruction::Bmi(x) => {
            exec_bmi(u, x);
        },
        Instruction::Clc => {
            exec_clc(u);
        },
        Instruction::Sec => {
            exec_sec(u);
        },
        Instruction::Nop => {
            exec_nop(u);
        },
        Instruction::Hcf => {
            exec_hcf(u);
        },
    }
}

/// Division by zero is a silent no-op: with a zero divisor the destination,
/// the flags, the whole timeline and the queued writes are left exactly as
/// they were (only the divisor's own timed read can be queued).
pub proof fn lemma_div_by_zero_is_no_op(u: UniverseModel, x: Operands)
    requires
        get_value(u, x.src) == 0,
    ensures
        spec_execute(u, Instruction::Div(x)).states == u.states,
        spec_execute(u, Instruction::Div(x)).t == u.t,
        spec_execute(u, Instruction::Div(x)).t0 == u.t0,
        spec_execute(u, Instruction::Div(x)).mode == u.mode,
        spec_execute(u, Instruction::Div(x)).pending_writes == u.pending_writes,
{
}

/// Remainder by zero is a silent no-op, exactly like division.
pub proof fn lemma_mod_by_zero_is_no_op(u: UniverseModel, x: Operands)
    requires
        get_value(u, x.src) == 0,
    ensures
        spec_execute(u, Instruction::Mod(x)).states == u.states,
        spec_execute(u, Instruction::Mod(x)).t == u.t,
        spec_execute(u, Instruction::Mod(x)).t0 == u.t0,
        spec_execute(u, Instruction::Mod(x)).mode == u.mode,
        spec_execute(u, Instruction::Mod(x)).pending_writes == u.pending_writes,
{
}


// The per-cycle stepping protocol. Each micro-step checks the pending reads
// that have come due, clones the current snapshot forward, decodes and
// executes one instruction at the new snapshot's program counter, applies
// the pending writes that have come due, and takes the mode transition; a
// full step repeats micro-steps until the window is full and consistent,
// then emits the oldest snapshot, which can never be revised again.
// Peripheral modules run outside, between micro-steps, against `now`.

/// Why a step could not complete.
#[derive(Debug, Clone, Copy, PartialEq, Eq, Structural)]
pub enum StepError {
    /// The cycle counter reached the engine's horizon.
    CycleLimit,
    /// The words at the program counter decode to no instruction.
    DecodeFault,
    /// A time offset reached outside the retained window.
    OutOfWindow,
}

/// The mode after every due pending read is checked in order: a read whose
/// recorded expectation disagrees with the now-actual value marks the span
/// from its origin to its target inconsistent.
pub open spec fn reads_mode(reads: Seq<PendingRead>, now0: MachineModel, t: int, m: Mode) -> Mode
    decreases reads.len(),
{
    if reads.len() == 0 {
        m
    } else {
        let m2 = if reads[0].t == t && spec_operand_read(now0, reads[0].loc)
            != reads[0].expected@ {
            mode_widen(m, reads[0].origin, reads[0].t)
        } else {
            m
        };
        reads_mode(reads.skip(1), now0, t, m2)
    }
}

/// The pending reads that remain after the due ones are checked.
pub open spec fn reads_kept(reads: Seq<PendingRead>, t: int) -> Seq<PendingRead>
    decreases reads.len(),
{
    if reads.len() == 0 {
        reads
    } else if reads[0].t == t {
        reads_kept(reads.skip(1), t)
    } else {
        seq![reads[0]] + reads_kept(reads.skip(1), t)
    }
}

/// The machine after every due pending write lands, in queue order.
pub open spec fn writes_applied(ws: Seq<PendingWrite>, t: int, m: MachineModel) -> MachineModel
    decreases ws.len(),
{
    if ws.len() == 0 {
        m
    } else {
        let m2 = if ws[0].t == t {
            spec_operand_write(m, ws[0].loc, ws[0].value@)
        } else {
            m
        };
        writes_applied(ws.skip(1), t, m2)
    }
}

/// The pending writes that remain after the due ones land.
pub open spec fn writes_kept(ws: Seq<PendingWrite>, t: int) -> Seq<PendingWrite>
    decreases ws.len(),
{
    if ws.len() == 0 {
        ws
    } else if ws[0].t == t {
        writes_kept(ws.skip(1), t)
    } else {
        seq![ws[0]] + writes_kept(ws.skip(1), t)
    }
}

/// The engine after the current snapshot is cloned into the next cycle:
/// appended past the window, overwriting inside it, evicting the oldest
/// snapshot at twice the window capacity.
pub open spec fn push_model(u: UniverseModel) -> UniverseModel {
    let m = u.now();
    if u.t + 1 < u.tf() {
        UniverseModel { states: u.states.update(u.t + 1 - u.t0, m), t: u.t + 1, ..u }
    } else if u.states.len() < 2 * MAX_WINDOW {
        UniverseModel { states: u.states.push(m), t: u.t + 1, ..u }
    } else {
        UniverseModel { t0: u.t0 + 1, states: u.states.skip(1).push(m), t: u.t + 1, ..u }
    }
}

/// After a decode fault the machinery stops mid-cycle: everything matches
/// the post-clone state but the faulting snapshot's program counter.
pub open spec fn decode_fault_frame(u2: UniverseModel, post: UniverseModel) -> bool {
    &&& post.t == u2.t
    &&& post.t0 == u2.t0
    &&& post.mode == u2.mode
    &&& post.pending_reads == u2.pending_reads
    &&& post.pending_writes == u2.pending_writes
    &&& post.states.len() == u2.states.len()
    &&& forall|k: int|
        0 <= k < u2.states.len() && k != u2.t - u2.t0 ==> post.states[k] == u2.states[k]
    &&& post.now().ram == u2.now().ram
    &&& crate::machine::same_except_pc(u2.now().cpu, post.now().cpu)
}

/// What one micro-step does, phase by phase: due reads checked, the
/// snapshot cloned forward, one instruction decoded and executed, due
/// writes applied, and the mode transition taken — rewinding an
/// inconsistent window for an optimistic re-run, or confirming a re-run
/// window as consistent.
#[verifier::opaque]
pub open spec fn step_micro_rel(
    pre: UniverseModel,
    post: UniverseModel,
    r: Result<Instruction, StepError>,
) -> bool {
    if pre.t0 >= TIME_HORIZON {
        r == Result::<Instruction, StepError>::Err(StepError::CycleLimit) && post == pre
    } else {
        let u1 = UniverseModel {
            mode: reads_mode(pre.pending_reads, pre.now(), pre.t, pre.mode),
            pending_reads: reads_kept(pre.pending_reads, pre.t),
            ..pre
        };
        let u2 = push_model(u1);
        let d = dec_instr(tape(u2.now(), u2.now().cpu.pc, 16));
        match d {
            Option::None => r == Result::<Instruction, StepError>::Err(StepError::DecodeFault)
                && decode_fault_frame(u2, post),
            Option::Some((i, n)) => {
                let u3 = u2.with_now(m_with_pc(u2.now(), addr_add(u2.now().cpu.pc, n)));
                if !exec_pre(u3, i) {
                    r == Result::<Instruction, StepError>::Err(StepError::OutOfWindow) && post
                        == u3
                } else {
                    let u4 = spec_execute(u3, i);
                    let u5 = UniverseModel {
                        states: u4.states.update(
                            u4.t - u4.t0,
                            writes_applied(u4.pending_writes, u4.t, u4.now()),
                        ),
                        pending_writes: writes_kept(u4.pending_writes, u4.t),
                        ..u4
                    };
                    match u5.mode {
                        Mode::Consistent => r == Result::<Instruction, StepError>::Ok(i) && post
                            == u5,
                        Mode::Maybe(a, b) => if u5.t == b {
                            r == Result::<Instruction, StepError>::Ok(i) && post
                                == (UniverseModel { mode: Mode::Consistent, ..u5 })
                        } else {
                            r == Result::<Instruction, StepError>::Ok(i) && post == u5
                        },
                        Mode::Inconsistent(a, b) => if u5.t == b {
                            if u5.t0 <= a < u5.tf() {
                                r == Result::<Instruction, StepError>::Ok(i) && post
                                    == (UniverseModel {
                                    mode: Mode::Maybe(a, b),
                                    t: a as int,
                                    ..u5
                                })
                            } else {
                                r == Result::<Instruction, StepError>::Err(
                                    StepError::OutOfWindow,
                                ) && post == u5
                            }
                        } else {
                            r == Result::<Instruction, StepError>::Ok(i) && post == u5
                        },
                    }
                }
            },
        }
    }
}

fn check_get(u: &Universe, x: &Operand) -> (r: bool)
    requires
        u.wf(),
    ensures
        r == get_pre(u@, *x),
{
    proof {
        use_type_invariant(&x.time);
    }
    let t = u.t();
    let d: i32 = x.time.value() as i32;
    if t < 1 {
        false
    } else if d > 0 {
        true
    } else {
        t - 1 >= u.ti() + ((-d) as usize)
    }
}

fn check_set(u: &Universe, x: &Operand) -> (r: bool)
    requires
        u.wf(),
    ensures
        r == set_pre(u@, *x),
{
    proof {
        use_type_invariant(&x.time);
    }
    let imm = match x.op {
        Op::Imm(_) => true,
        _ => false,
    };
    let d: i32 = x.time.value() as i32;
    if imm {
        false
    } else if d >= 0 {
        true
    } else {
        u.t() >= u.ti() + ((-d) as usize)
    }
}

/// Reads the value a timed operand would yield, without queueing anything.
fn peek_get(u: &Universe, x: &Operand) -> (r: uWord)
    requires
        u.wf(),
        get_pre(u@, *x),
    ensures
        r@ == get_value(u@, *x),
{
    proof {
        use_type_invariant(&x.time);
    }
    let t = u.t();
    let t1 = t - 1;
    let d: i32 = x.time.value() as i32;
    if d <= 0 {
        proof {
            assert(u@.t0 >= 0);
            assert(u@.t - 1 + x.time@ >= u@.t0);
        }
        let t2 = t1 - ((-d) as usize);
        operand_read(u.get_at(t2), &x.op)
    } else {
        proof {
            assert(u@.t < u@.t0 + u@.states.len());
            assert(u@.t0 <= TIME_HORIZON);
            assert(u@.states.len() <= 2 * MAX_WINDOW);
        }
        let t2 = t1 + (d as usize);
        let tfv = u.tf();
        if t2 >= tfv || tfv == t + 1 {
            uWord::zero()
        } else {
            operand_read(u.get_at(t2), &x.op)
        }
    }
}

/// Decides at run time whether an instruction's timed operands can all be
/// resolved.
fn check_instruction(u: &Universe, i: &Instruction) -> (r: bool)
    requires
        u.wf(),
    ensures
        r == exec_pre(u@, *i),
{
    match i {
        Instruction::Mov(x) => check_get(u, &x.src) && check_set(u, &x.dst),
        Instruction::Psh(x) => check_get(u, x),
        Instruction::Pop(x) => check_set(u, x),
        Instruction::Add(x) => check_get(u, &x.src) && check_get(u, &x.dst) && check_set(
            u,
            &x.dst,
        ),
        Instruction::Sub(x) => check_get(u, &x.src) && check_get(u, &x.dst) && check_set(
            u,
            &x.dst,
        ),
        Instruction::Mul(x) => check_get(u, &x.src) && check_get(u, &x.dst) && check_set(
            u,
            &x.dst,
        ),
        Instruction::Muh(x) => check_get(u, &x.src) && check_get(u, &x.dst) && check_set(
            u,
            &x.dst,
        ),
        Instruction::Mus(x) => check_get(u, &x.src) && check_get(u, &x.dst) && check_set(
            u,
            &x.dst,
        ),
        Instruction::Div(x) => check_get(u, &x.src) && (peek_get(u, &x.src).value() == 0 || (
        check_get(u, &x.dst) && check_set(u, &x.dst))),
        Instruction::Mod(x) => check_get(u, &x.src) && (peek_get(u, &x.src).value() == 0 || (
        check_get(u, &x.dst) && check_set(u, &x.dst))),
        Instruction::And(x) => check_get(u, &x.src) && check_get(u, &x.dst) && check_set(
            u,
            &x.dst,
        ),
        Instruction::Or(x) => check_get(u, &x.src) && check_get(u, &x.dst) && check_set(
            u,
            &x.dst,
        ),
        Instruction::Xor(x) => check_get(u, &x.src) && check_get(u, &x.dst) && check_set(
            u,
            &x.dst,
        ),
        Instruction::Not(x) => check_get(u, x) && check_set(u, x),
        Instruction::Lsl(x) => check_get(u, x) && check_set(u, x),
        Instruction::Lsr(x) => check_get(u, x) && check_set(u, x),
        Instruction::Asr(x) => check_get(u, x) && check_set(u, x),
        Instruction::Inc(x) => check_get(u, x) && check_set(u, x),
        Instruction::Dec(x) => check_get(u, x) && check_set(u, x),
        Instruction::Cmp(x) => check_get(u, &x.src) && check_get(u, &x.dst),
        Instruction::Bit(x) => check_get(u, &x.src) && check_get(u, &x.dst),
        Instruction::Jmp(_) => true,
        Instruction::Cal(_) => true,
        Instruction::Ret => true,
        Instruction::Bcc(_) => true,
        Instruction::Bcs(_) => true,
        Instruction::Bne(_) => true,
        Instruction::Beq(_) => true,
        Instruction::Bpl(_) => true,
        Instruction::Bmi(_) => true,
        Instruction::Clc => true,
        Instruction::Sec => true,
        Instruction::Nop => true,
        Instruction::Hcf => true,
    }
}

/// What the first half of a micro-step does: the due pending reads are
/// checked and removed (a mismatch widens the inconsistent interval), and
/// the current snapshot is cloned into the next cycle. Fails only at the
/// engine's cycle horizon.
pub open spec fn micro_begin_rel(
    pre: UniverseModel,
    post: UniverseModel,
    r: Result<(), StepError>,
) -> bool {
    if pre.t0 >= TIME_HORIZON {
        r == Result::<(), StepError>::Err(StepError::CycleLimit) && post == pre
    } else {
        r == Result::<(), StepError>::Ok(()) && post == push_model(
            UniverseModel {
                mode: reads_mode(pre.pending_reads, pre.now(), pre.t, pre.mode),
                pending_reads: reads_kept(pre.pending_reads, pre.t),
                ..pre
            },
        )
    }
}

/// What the second half of a micro-step does: one instruction is decoded
/// and executed at the new snapshot's program counter, the due pending
/// writes are applied, and the mode transition is taken.
pub open spec fn micro_commit_rel(
    pre: UniverseModel,
    post: UniverseModel,
    r: Result<Instruction, StepError>,
) -> bool {
    let d = dec_instr(tape(pre.now(), pre.now().cpu.pc, 16));
    match d {
        Option::None => r == Result::<Instruction, StepError>::Err(StepError::DecodeFault)
            && decode_fault_frame(pre, post),
        Option::Some((i, n)) => {
            let u3 = pre.with_now(m_with_pc(pre.now(), addr_add(pre.now().cpu.pc, n)));
            if !exec_pre(u3, i) {
                r == Result::<Instruction, StepError>::Err(StepError::OutOfWindow) && post == u3
            } else {
                let u4 = spec_execute(u3, i);
                let u5 = UniverseModel {
                    states: u4.states.update(
                        u4.t - u4.t0,
                        writes_applied(u4.pending_writes, u4.t, u4.now()),
                    ),
                    pending_writes: writes_kept(u4.pending_writes, u4.t),
                    ..u4
                };
                match u5.mode {
                    Mode::Consistent => r == Result::<Instruction, StepError>::Ok(i) && post
                        == u5,
                    Mode::Maybe(a, b) => if u5.t == b {
                        r == Result::<Instruction, StepError>::Ok(i) && post == (UniverseModel {
                            mode: Mode::Consistent,
                            ..u5
                        })
                    } else {
                        r == Result::<Instruction, StepError>::Ok(i) && post == u5
                    },
                    Mode::Inconsistent(a, b) => if u5.t == b {
                        if u5.t0 <= a < u5.tf() {
                            r == Result::<Instruction, StepError>::Ok(i) && post
                                == (UniverseModel { mode: Mode::Maybe(a, b), t: a as int, ..u5 })
                        } else {
                            r == Result::<Instruction, StepError>::Err(StepError::OutOfWindow)
                                && post == u5
                        }
                    } else {
                        r == Result::<Instruction, StepError>::Ok(i) && post == u5
                    },
                }
            }
        },
    }
}

/// The first half of a micro-step: checks the due pending reads and clones
/// the current snapshot into the next cycle. Between this and
/// `step_micro_commit` the peripheral collaborators may run against `now`,
/// as the per-cycle protocol provides.
pub fn step_micro_begin(u: &mut Universe) -> (r: Result<(), StepError>)
    requires
        old(u).wf(),
    ensures
        final(u).wf(),
        micro_begin_rel(old(u)@, final(u)@, r),
{
    if u.ti() >= TIME_HORIZON {
        return Err(StepError::CycleLimit);
    }
    let t = u.t();
    let ghost now0 = old(u)@.now();
    let pending = u.take_pending_reads();
    let mut kept: Vec<PendingRead> = Vec::new();
    proof {
        assert(pending@.skip(0) =~= pending@);
        assert(Seq::<PendingRead>::empty() + reads_kept(pending@, t as int) =~= reads_kept(
            pending@,
            t as int,
        ));
    }
    let mut k: usize = 0;
    while k < pending.len()
        invariant
            u.wf(),
            k <= pending@.len(),
            t == u@.t,
            u@.t0 == old(u)@.t0,
            u@.states == old(u)@.states,
            u@.pending_writes == old(u)@.pending_writes,
            u@.pending_reads == Seq::<PendingRead>::empty(),
            now0 == u@.now(),
            reads_mode(pending@, now0, t as int, old(u)@.mode) == reads_mode(
                pending@.skip(k as int),
                now0,
                t as int,
                u@.mode,
            ),
            reads_kept(pending@, t as int) == kept@ + reads_kept(
                pending@.skip(k as int),
                t as int,
            ),
        decreases pending@.len() - k,
    {
        proof {
            assert(pending@.skip(k as int)[0] == pending@[k as int]);
            assert(pending@.skip(k as int).skip(1) =~= pending@.skip(k as int + 1));
        }
        let pr = pending[k];
        if pr.t == t {
            let actual = operand_read(u.get_at(pr.t), &pr.loc);
            if actual != pr.expected {
                u.mark_inconsistent(pr.origin, pr.t);
            }
        } else {
            kept.push(pr);
            proof {
                assert(kept@.drop_last() + (seq![pr] + reads_kept(
                    pending@.skip(k as int + 1),
                    t as int,
                )) =~= kept@ + reads_kept(pending@.skip(k as int + 1), t as int));
            }
        }
        k = k + 1;
    }
    proof {
        assert(pending@.skip(pending@.len() as int) =~= Seq::<PendingRead>::empty());
        assert(kept@ + reads_kept(pending@.skip(pending@.len() as int), t as int) =~= kept@);
    }
    u.set_pending_reads(kept);
    let ghost u1 = u@;
    u.push_new_state();
    let ghost u2 = u@;
    proof {
        assert(u2 == push_model(u1));
    }
    Ok(())
}

/// The second half of a micro-step: decodes and executes one instruction
/// at the new snapshot's program counter, applies the due pending writes,
/// and takes the mode transition.
#[verifier::rlimit(100)]
#[verifier::spinoff_prover]
pub fn step_micro_commit(u: &mut Universe) -> (r: Result<Instruction, StepError>)
    requires
        old(u).wf(),
    ensures
        final(u).wf(),
        micro_commit_rel(old(u)@, final(u)@, r),
{
    let mut m = u.now().clone();
    let dec = Instruction::decode(&mut m);
    u.put_now(m);
    let instr = match dec {
        None => {
            return Err(StepError::DecodeFault);
        },
        Some(i) => i,
    };
    let ghost u3 = u@;
    if !check_instruction(u, &instr) {
        return Err(StepError::OutOfWindow);
    }
    execute(u, &instr);
    let ghost u4 = u@;
    let wpending = u.take_pending_writes();
    let mut wkept: Vec<PendingWrite> = Vec::new();
    let t2 = u.t();
    let mut mnow = u.now().clone();
    proof {
        assert(wpending@.skip(0) =~= wpending@);
        assert(Seq::<PendingWrite>::empty() + writes_kept(wpending@, t2 as int) =~= writes_kept(
            wpending@,
            t2 as int,
        ));
    }
    let mut j: usize = 0;
    while j < wpending.len()
        invariant
            j <= wpending@.len(),
            writes_applied(wpending@, t2 as int, u4.now()) == writes_applied(
                wpending@.skip(j as int),
                t2 as int,
                mnow@,
            ),
            writes_kept(wpending@, t2 as int) == wkept@ + writes_kept(
                wpending@.skip(j as int),
                t2 as int,
            ),
        decreases wpending@.len() - j,
    {
        proof {
            assert(wpending@.skip(j as int)[0] == wpending@[j as int]);
            assert(wpending@.skip(j as int).skip(1) =~= wpending@.skip(j as int + 1));
        }
        let pw = wpending[j];
        if pw.t == t2 {
            let imm = match pw.loc {
                Op::Imm(_) => true,
                _ => false,
            };
            if !imm {
                operand_write(&mut mnow, &pw.loc, pw.value);
            }
        } else {
            wkept.push(pw);
            proof {
                assert(wkept@.drop_last() + (seq![pw] + writes_kept(
                    wpending@.skip(j as int + 1),
                    t2 as int,
                )) =~= wkept@ + writes_kept(wpending@.skip(j as int + 1), t2 as int));
            }
        }
        j = j + 1;
    }
    proof {
        assert(wpending@.skip(wpending@.len() as int) =~= Seq::<PendingWrite>::empty());
        assert(wkept@ + writes_kept(wpending@.skip(wpending@.len() as int), t2 as int)
            =~= wkept@);
    }
    u.put_now(mnow);
    u.set_pending_writes(wkept);
    match u.mode() {
        Mode::Consistent => {},
        Mode::Maybe(_, b) => {
            if u.t() == b {
                u.set_mode(Mode::Consistent);
            }
        },
        Mode::Inconsistent(a, b) => {
            if u.t() == b {
                if a >= u.ti() && a < u.tf() {
                    u.set_mode(Mode::Maybe(a, b));
                    u.set_t(a);
                } else {
                    return Err(StepError::OutOfWindow);
                }
            }
        },
    }
    Ok(instr)
}

/// Performs one micro-step: the begin half, then — with no peripheral
/// attached — the commit half. `Ok` carries the instruction that executed;
/// `Err` names the fault: a decode fault, a time offset outside the
/// retained window (including a rewind target that was already evicted), or
/// the engine's cycle horizon.
pub fn step_micro(u: &mut Universe) -> (r: Result<Instruction, StepError>)
    requires
        old(u).wf(),
    ensures
        final(u).wf(),
        step_micro_rel(old(u)@, final(u)@, r),
{
    proof {
        reveal(step_micro_rel);
    }
    match step_micro_begin(u) {
        Err(e) => Err(e),
        Ok(()) => step_micro_commit(u),
    }
}

/// How many consecutive micro-steps a full step may spend in an
/// inconsistent state before it gives up.
pub const INCONSISTENT_ITERATIONS_LIMIT: usize = 10000;

/// How many convergence attempts a full step may spend filling the window
/// before it gives up; far beyond any real program's needs.
pub const STEP_FUEL: u64 = 0xffff_ffff;

/// A chain of micro-step transitions: consecutive models are related by
/// `step_micro_rel` under the recorded outcomes.
pub open spec fn micro_trace(
    tr: Seq<UniverseModel>,
    rs: Seq<Result<Instruction, StepError>>,
) -> bool {
    &&& tr.len() == rs.len() + 1
    &&& forall|k: int| 0 <= k < rs.len() ==> step_micro_rel(tr[k], tr[k + 1], #[trigger] rs[k])
}

/// The pending reads whose target cycle is still retained.
pub open spec fn prune_reads(rds: Seq<PendingRead>, t0: int) -> Seq<PendingRead>
    decreases rds.len(),
{
    if rds.len() == 0 {
        rds
    } else if rds[0].t >= t0 {
        seq![rds[0]] + prune_reads(rds.skip(1), t0)
    } else {
        prune_reads(rds.skip(1), t0)
    }
}

/// The pending writes whose target cycle is still retained.
pub open spec fn prune_writes(ws: Seq<PendingWrite>, t0: int) -> Seq<PendingWrite>
    decreases ws.len(),
{
    if ws.len() == 0 {
        ws
    } else if ws[0].t >= t0 {
        seq![ws[0]] + prune_writes(ws.skip(1), t0)
    } else {
        prune_writes(ws.skip(1), t0)
    }
}

/// Housekeeping at the start of a full step: every 4096 cycles, pending
/// entries whose target fell behind the retained window start are pruned,
/// to bound memory.
pub open spec fn prune_model(u: UniverseModel) -> UniverseModel {
    if u.t % 4096 == 0 {
        UniverseModel {
            pending_reads: prune_reads(u.pending_reads, u.t0),
            pending_writes: prune_writes(u.pending_writes, u.t0),
            ..u
        }
    } else {
        u
    }
}

/// What `step_one` does, witnessed by its micro-step chain: after the
/// periodic pruning, micro-steps run while the mode is not `Consistent`.
/// `true` means the chain ended consistent within the retry ceiling;
/// `false` means the last micro-step faulted, or a whole ceiling of
/// micro-steps ran without the mode coming back to `Consistent`.
pub open spec fn step_one_rel(
    pre: UniverseModel,
    post: UniverseModel,
    r: bool,
    tr: Seq<UniverseModel>,
    rs: Seq<Result<Instruction, StepError>>,
) -> bool {
    &&& micro_trace(tr, rs)
    &&& tr.len() >= 2
    &&& rs.len() <= INCONSISTENT_ITERATIONS_LIMIT + 1
    &&& tr[0] == prune_model(pre)
    &&& tr[tr.len() - 1] == post
    &&& forall|k: int| 1 <= k < tr.len() - 1 ==> !((#[trigger] tr[k]).mode is Consistent)
    &&& forall|k: int| 0 <= k < rs.len() - 1 ==> (#[trigger] rs[k]) is Ok
    &&& if r {
        rs[rs.len() - 1] is Ok && post.mode is Consistent
    } else {
        rs[rs.len() - 1] is Err || (rs.len() == INCONSISTENT_ITERATIONS_LIMIT + 1 && rs[rs.len()
            - 1] is Ok && !(post.mode is Consistent))
    }
}

/// Runs micro-steps until the timeline is consistent again, after pruning
/// the stale pending entries every 4096 cycles. `true` exactly when the
/// chain of micro-steps it ran (the witness in its contract) reconverged
/// within the retry ceiling; `false` when a micro-step faulted or the
/// ceiling of consecutive inconsistent micro-steps was exceeded.
#[verifier::rlimit(100)]
#[verifier::spinoff_prover]
pub fn step_one(u: &mut Universe) -> (r: bool)
    requires
        old(u).wf(),
    ensures
        final(u).wf(),
        r ==> final(u)@.mode is Consistent,
        exists|tr: Seq<UniverseModel>, rs: Seq<Result<Instruction, StepError>>|
            step_one_rel(old(u)@, final(u)@, r, tr, rs),
{
    if u.t() % 4096 == 0 {
        let t0 = u.ti();
        let pend = u.take_pending_reads();
        let mut kept: Vec<PendingRead> = Vec::new();
        proof {
            assert(pend@.skip(0) =~= pend@);
            assert(Seq::<PendingRead>::empty() + prune_reads(pend@, t0 as int) =~= prune_reads(
                pend@,
                t0 as int,
            ));
        }
        let mut k: usize = 0;
        while k < pend.len()
            invariant
                k <= pend@.len(),
                prune_reads(pend@, t0 as int) == kept@ + prune_reads(
                    pend@.skip(k as int),
                    t0 as int,
                ),
            decreases pend@.len() - k,
        {
            proof {
                assert(pend@.skip(k as int)[0] == pend@[k as int]);
                assert(pend@.skip(k as int).skip(1) =~= pend@.skip(k as int + 1));
            }
            let pr = pend[k];
            if pr.t >= t0 {
                kept.push(pr);
                proof {
                    assert(kept@.drop_last() + (seq![pr] + prune_reads(
                        pend@.skip(k as int + 1),
                        t0 as int,
                    )) =~= kept@ + prune_reads(pend@.skip(k as int + 1), t0 as int));
                }
            }
            k = k + 1;
        }
        proof {
            assert(pend@.skip(pend@.len() as int) =~= Seq::<PendingRead>::empty());
            assert(kept@ + prune_reads(pend@.skip(pend@.len() as int), t0 as int) =~= kept@);
        }
        u.set_pending_reads(kept);
        let wpend = u.take_pending_writes();
        let mut wkept: Vec<PendingWrite> = Vec::new();
        proof {
            assert(wpend@.skip(0) =~= wpend@);
            assert(Seq::<PendingWrite>::empty() + prune_writes(wpend@, t0 as int)
                =~= prune_writes(wpend@, t0 as int));
        }
        let mut j: usize = 0;
        while j < wpend.len()
            invariant
                j <= wpend@.len(),
                prune_writes(wpend@, t0 as int) == wkept@ + prune_writes(
                    wpend@.skip(j as int),
                    t0 as int,
                ),
            decreases wpend@.len() - j,
        {
            proof {
                assert(wpend@.skip(j as int)[0] == wpend@[j as int]);
                assert(wpend@.skip(j as int).skip(1) =~= wpend@.skip(j as int + 1));
            }
            let pw = wpend[j];
            if pw.t >= t0 {
                wkept.push(pw);
                proof {
                    assert(wkept@.drop_last() + (seq![pw] + prune_writes(
                        wpend@.skip(j as int + 1),
                        t0 as int,
                    )) =~= wkept@ + prune_writes(wpend@.skip(j as int + 1), t0 as int));
                }
            }
            j = j + 1;
        }
        proof {
            assert(wpend@.skip(wpend@.len() as int) =~= Seq::<PendingWrite>::empty());
            assert(wkept@ + prune_writes(wpend@.skip(wpend@.len() as int), t0 as int)
                =~= wkept@);
        }
        u.set_pending_writes(wkept);
    }
    proof {
        assert(u@ == prune_model(old(u)@));
    }
    let ghost u0 = u@;
    let r0 = step_micro(u);
    let ghost mut tr: Seq<UniverseModel> = seq![u0, u@];
    let ghost mut rs: Seq<Result<Instruction, StepError>> = seq![r0];
    proof {
        assert(micro_trace(tr, rs)) by {
            assert(step_micro_rel(tr[0], tr[1], rs[0]));
        }
    }
    match r0 {
        Err(_) => {
            proof {
                assert(step_one_rel(old(u)@, u@, false, tr, rs));
            }
            return false;
        },
        Ok(_) => {},
    }
    let mut iterations: usize = 0;
    while !u.is_consistent()
        invariant
            u.wf(),
            iterations <= INCONSISTENT_ITERATIONS_LIMIT,
            micro_trace(tr, rs),
            tr.len() >= 2,
            rs.len() == iterations + 1,
            tr[0] == prune_model(old(u)@),
            tr[tr.len() - 1] == u@,
            forall|k: int| 1 <= k < tr.len() - 1 ==> !((#[trigger] tr[k]).mode is Consistent),
            forall|k: int| 0 <= k < rs.len() ==> (#[trigger] rs[k]) is Ok,
        decreases INCONSISTENT_ITERATIONS_LIMIT - iterations,
    {
        if iterations == INCONSISTENT_ITERATIONS_LIMIT {
            proof {
                assert(step_one_rel(old(u)@, u@, false, tr, rs));
            }
            return false;
        }
        let ghost uprev = u@;
        let rk = step_micro(u);
        proof {
            let tr2 = tr.push(u@);
            let rs2 = rs.push(rk);
            assert(micro_trace(tr2, rs2)) by {
                assert forall|m: int| 0 <= m < rs2.len() implies step_micro_rel(
                    tr2[m],
                    tr2[m + 1],
                    #[trigger] rs2[m],
                ) by {
                    if m < rs.len() {
                        assert(tr2[m] == tr[m] && tr2[m + 1] == tr[m + 1] && rs2[m] == rs[m]);
                    } else {
                        assert(tr2[m] == uprev && tr2[m + 1] == u@ && rs2[m] == rk);
                    }
                }
            }
            assert(forall|k: int|
                1 <= k < tr2.len() - 1 ==> !((#[trigger] tr2[k]).mode is Consistent)) by {
                assert(tr2[tr2.len() - 2] == uprev);
                assert(!(uprev.mode is Consistent));
            }
            tr = tr2;
            rs = rs2;
        }
        match rk {
            Err(_) => {
                proof {
                    assert(rs[rs.len() - 1] is Err);
                    assert(step_one_rel(old(u)@, u@, false, tr, rs));
                }
                return false;
            },
            Ok(_) => {},
        }
        iterations = iterations + 1;
    }
    proof {
        assert(step_one_rel(old(u)@, u@, true, tr, rs));
    }
    true
}

/// One forward transition of the engine: a successful micro-step, or the
/// periodic pruning of stale pending entries.
pub open spec fn engine_link(a: UniverseModel, b: UniverseModel) -> bool {
    (exists|i: Instruction|
        step_micro_rel(a, b, Result::<Instruction, StepError>::Ok(i))) || b == prune_model(a)
}

/// A chain of forward transitions of the engine.
pub open spec fn engine_trace(tr: Seq<UniverseModel>) -> bool {
    tr.len() >= 1 && forall|k: int| 0 <= k < tr.len() - 1 ==> engine_link(
        tr[k],
        #[trigger] tr[k + 1],
    )
}

/// The window state `w` can emit its oldest snapshot: full capacity in
/// `Consistent` mode, a poppable window start, and a decodable snapshot.
/// `m` is that snapshot, `i` the instruction at its program counter, and
/// `post` the engine with the snapshot popped: the window start advanced by
/// one and nothing else changed.
pub open spec fn step_emits(
    w: UniverseModel,
    m: MachineModel,
    i: Instruction,
    post: UniverseModel,
) -> bool {
    &&& w.states.len() >= MAX_WINDOW
    &&& w.mode is Consistent
    &&& w.t0 < w.t
    &&& w.t0 < TIME_HORIZON
    &&& m == w.states[0]
    &&& dec_instr(tape(m, m.cpu.pc, 16)) matches Some(q) && q.0 == i
    &&& post == (UniverseModel { t0: w.t0 + 1, states: w.states.skip(1), ..w })
}

/// Why a full step stopped at `w` without emitting a snapshot: a
/// convergence attempt from `w` failed (fault or retry ceiling), or the
/// window is full and consistent but its oldest snapshot cannot be emitted
/// (window start not poppable, or its instruction does not decode), or the
/// fill loop exhausted its fuel after `n` transitions.
pub open spec fn step_blocked(w: UniverseModel, post: UniverseModel, n: int) -> bool {
    ||| exists|tr1: Seq<UniverseModel>, rs1: Seq<Result<Instruction, StepError>>|
        step_one_rel(w, post, false, tr1, rs1)
    ||| (w.states.len() >= MAX_WINDOW && w.mode is Consistent && post == w && (w.t0 >= w.t
        || w.t0 >= TIME_HORIZON || dec_instr(
        tape(w.states[0], w.states[0].cpu.pc, 16),
    ) is None))
    ||| (n > STEP_FUEL && post == w)
}

/// Appending an all-successful micro chain, reached through a pruning link,
/// keeps an engine trace an engine trace.
proof fn lemma_engine_trace_extend(
    btr: Seq<UniverseModel>,
    tr1: Seq<UniverseModel>,
    rs1: Seq<Result<Instruction, StepError>>,
)
    requires
        engine_trace(btr),
        micro_trace(tr1, rs1),
        forall|k: int| 0 <= k < rs1.len() ==> (#[trigger] rs1[k]) is Ok,
        tr1.len() >= 1,
        tr1[0] == prune_model(btr[btr.len() - 1]),
    ensures
        engine_trace(btr + tr1),
        (btr + tr1)[0] == btr[0],
        (btr + tr1)[(btr + tr1).len() - 1] == tr1[tr1.len() - 1],
{
    let all = btr + tr1;
    assert forall|k: int| 0 <= k < all.len() - 1 implies engine_link(all[k], #[trigger] all[k
        + 1]) by {
        if k < btr.len() - 1 {
            assert(all[k] == btr[k] && all[k + 1] == btr[k + 1]);
        } else if k == btr.len() - 1 {
            assert(all[k] == btr[k]);
            assert(all[k + 1] == tr1[0]);
        } else {
            let j = k - btr.len();
            assert(all[k] == tr1[j] && all[k + 1] == tr1[j + 1]);
            assert(step_micro_rel(tr1[j], tr1[j + 1], rs1[j]));
            assert(rs1[j] is Ok);
            assert(rs1[j] == Result::<Instruction, StepError>::Ok(rs1[j]->Ok_0));
        }
    }
}

/// Advances the engine by one stable cycle: convergence attempts run until
/// the window holds its full capacity in a consistent state, so the oldest
/// snapshot can never again be revised; that snapshot is popped and
/// returned with the instruction decoded at its program counter. `Some`
/// comes with a witness chain of engine transitions from the entry state to
/// a full, consistent window whose oldest snapshot is the returned machine;
/// `None` comes with a chain ending where a convergence attempt failed, an
/// emission was blocked, or the fill fuel ran out.
#[verifier::rlimit(100)]
#[verifier::spinoff_prover]
pub fn step(u: &mut Universe) -> (r: Option<(Machine, Instruction)>)
    requires
        old(u).wf(),
    ensures
        final(u).wf(),
        r matches Some(p) ==> exists|tr: Seq<UniverseModel>|
            engine_trace(tr) && tr[0] == old(u)@ && step_emits(
                tr[tr.len() - 1],
                p.0@,
                p.1,
                final(u)@,
            ),
        r is None ==> exists|tr: Seq<UniverseModel>|
            engine_trace(tr) && tr[0] == old(u)@ && step_blocked(
                tr[tr.len() - 1],
                final(u)@,
                tr.len() as int,
            ),
{
    let ghost mut btr: Seq<UniverseModel> = seq![old(u)@];
    let mut fuel: u64 = STEP_FUEL;
    while fuel > 0 && !(u.is_full() && u.is_consistent())
        invariant
            u.wf(),
            engine_trace(btr),
            btr.len() >= 1,
            btr[0] == old(u)@,
            btr[btr.len() - 1] == u@,
            btr.len() > STEP_FUEL - fuel,
        decreases fuel,
    {
        let ghost prev = u@;
        if !step_one(u) {
            proof {
                assert(step_blocked(prev, u@, btr.len() as int));
            }
            return None;
        }
        proof {
            let (tr1, rs1) = choose|tr1: Seq<UniverseModel>, rs1: Seq<
                Result<Instruction, StepError>,
            >| step_one_rel(prev, u@, true, tr1, rs1);
            assert(forall|k: int| 0 <= k < rs1.len() ==> (#[trigger] rs1[k]) is Ok) by {
                assert(rs1[rs1.len() - 1] is Ok);
            }
            lemma_engine_trace_extend(btr, tr1, rs1);
            btr = btr + tr1;
        }
        fuel = fuel - 1;
    }
    if !(u.is_full() && u.is_consistent()) {
        proof {
            assert(step_blocked(u@, u@, btr.len() as int));
        }
        return None;
    }
    if !(u.ti() < u.t() && u.ti() < TIME_HORIZON) {
        proof {
            assert(step_blocked(u@, u@, btr.len() as int));
        }
        return None;
    }
    let ghost w = u@;
    let mut mc = u.get_at(u.ti()).clone();
    match Instruction::decode(&mut mc) {
        None => {
            proof {
                assert(step_blocked(w, u@, btr.len() as int));
            }
            None
        },
        Some(i) => {
            let machine = u.pop_state();
            proof {
                assert(u@.states =~= w.states.skip(1));
                assert(step_emits(w, machine@, i, u@));
            }
            Some((machine, i))
        },
    }
}

} // verus!
