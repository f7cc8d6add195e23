//! Machine state: register file with flags, a lazily growing RAM addressed
//! by 12-bit addresses, and the fetch/push/pop primitives on top of them.

use vstd::prelude::*;

use crate::word::{uLong, uWord};

verus! {

broadcast use crate::word::group_word_lemmas;

/// Adds a displacement to a 12-bit address, wrapping around the address
/// space.
pub open spec fn addr_add(a: u16, d: int) -> u16 {
    ((a + d) % 4096) as u16
}

/// Chaining two wrapped displacements adds them.
pub broadcast proof fn lemma_addr_add_chain(a: u16, d1: int, d2: int)
    ensures
        #[trigger] addr_add(addr_add(a, d1), d2) == addr_add(a, d1 + d2),
{
    let m = 4096int;
    vstd::arithmetic::div_mod::lemma_mod_bound(a + d1, m);
    vstd::arithmetic::div_mod::lemma_add_mod_noop(a + d1, d2, m);
    vstd::arithmetic::div_mod::lemma_add_mod_noop_right((a + d1) % m, d2, m);
    vstd::arithmetic::div_mod::lemma_mod_twice(a + d1, m);
}

/// The `n` words of RAM starting at an address, following the wrap-around
/// of the program counter.
pub open spec fn tape(m: MachineModel, pc: u16, n: int) -> Seq<u8> {
    Seq::new(n as nat, |k: int| m.ram[addr_add(pc, k) as int])
}

/// Shifting the origin of a tape skips its first words.
pub proof fn lemma_tape_shift(m: MachineModel, pc: u16, k: int)
    requires
        0 <= k <= 16,
    ensures
        tape(m, addr_add(pc, k), 16).take(16 - k) == tape(m, pc, 16).skip(k),
{
    broadcast use lemma_addr_add_chain;

    assert(tape(m, addr_add(pc, k), 16).take(16 - k) =~= tape(m, pc, 16).skip(k));
}

/// The two register files agree on everything but the program counter.
pub open spec fn same_except_pc(c1: CpuModel, c2: CpuModel) -> bool {
    c2 == (CpuModel { pc: c2.pc, ..c1 })
}

/// The four condition flags.
#[derive(Debug, Clone, Copy, PartialEq, Eq, Structural)]
pub enum Flag {
    /// Negative: set if the value's sign bit is set.
    N,
    /// Overflow: set if signed arithmetic overflows.
    V,
    /// Zero: set if the value is zero.
    Z,
    /// Carry: set if unsigned arithmetic overflows the word.
    C,
}

/// The flag register: one bit per condition flag.
#[derive(Debug, Clone, Copy, PartialEq, Eq, Structural)]
pub struct FlagWord {
    pub n: bool,
    pub v: bool,
    pub z: bool,
    pub c: bool,
}

impl FlagWord {
    pub fn new() -> (r: Self)
        ensures
            r == FlagWord::clear(),
    {
        FlagWord { n: false, v: false, z: false, c: false }
    }

    /// All flags cleared.
    pub open spec fn clear() -> Self {
        FlagWord { n: false, v: false, z: false, c: false }
    }

    pub open spec fn spec_read(self, flag: Flag) -> bool {
        match flag {
            Flag::N => self.n,
            Flag::V => self.v,
            Flag::Z => self.z,
            Flag::C => self.c,
        }
    }

    pub fn read(&self, flag: Flag) -> (r: bool)
        ensures
            r == self.spec_read(flag),
    {
        match flag {
            Flag::N => self.n,
            Flag::V => self.v,
            Flag::Z => self.z,
            Flag::C => self.c,
        }
    }

    /// The written flag word: `flag` set to `value`, the others kept.
    pub open spec fn spec_write(self, flag: Flag, value: bool) -> Self {
        match flag {
            Flag::N => FlagWord { n: value, ..self },
            Flag::V => FlagWord { v: value, ..self },
            Flag::Z => FlagWord { z: value, ..self },
            Flag::C => FlagWord { c: value, ..self },
        }
    }

    pub fn write(&mut self, flag: Flag, value: bool)
        ensures
            *final(self) == old(self).spec_write(flag, value),
    {
        match flag {
            Flag::N => self.n = value,
            Flag::V => self.v = value,
            Flag::Z => self.z = value,
            Flag::C => self.c = value,
        }
    }

    /// The flag bits packed into one word: N, V, Z, C at bits 0 to 3.
    pub fn word(&self) -> (r: uWord)
        ensures
            r@ == (if self.n { 1int } else { 0 }) + (if self.v { 2int } else { 0 }) + (if self.z {
                4int
            } else {
                0
            }) + (if self.c { 8int } else { 0 }),
    {
        let mut bits: u8 = 0;
        if self.n {
            bits = bits + 1;
        }
        if self.v {
            bits = bits + 2;
        }
        if self.z {
            bits = bits + 4;
        }
        if self.c {
            bits = bits + 8;
        }
        uWord::lit(bits)
    }
}

/// The register file as a plain value: each register is its view.
pub ghost struct CpuModel {
    pub a: u8,
    pub flags: FlagWord,
    pub bh: u8,
    pub bl: u8,
    pub ch: u8,
    pub cl: u8,
    pub x: u8,
    pub sp: u16,
    pub pc: u16,
}

/// The register file: six general-purpose words, the flag word, and the
/// stack and program counters.
#[derive(Debug, Clone, Copy, PartialEq, Eq, Structural)]
pub struct Cpu {
    pub a: uWord,
    pub flags: FlagWord,
    pub bh: uWord,
    pub bl: uWord,
    pub ch: uWord,
    pub cl: uWord,
    pub x: uWord,
    pub sp: uLong,
    pub pc: uLong,
}

impl View for Cpu {
    type V = CpuModel;

    open spec fn view(&self) -> CpuModel {
        CpuModel {
            a: self.a@,
            flags: self.flags,
            bh: self.bh@,
            bl: self.bl@,
            ch: self.ch@,
            cl: self.cl@,
            x: self.x@,
            sp: self.sp@,
            pc: self.pc@,
        }
    }
}

impl Cpu {
    /// The reset register file: all registers zero, `PC` at 0x80, `SP` at the
    /// top of the reserved stack page (0x7f).
    pub open spec fn reset() -> CpuModel {
        CpuModel {
            a: 0,
            flags: FlagWord::clear(),
            bh: 0,
            bl: 0,
            ch: 0,
            cl: 0,
            x: 0,
            sp: 0x7f,
            pc: 0x80,
        }
    }

    pub fn new() -> (r: Cpu)
        ensures
            r@ == Cpu::reset(),
    {
        let zero = uWord::zero();
        Cpu {
            a: zero,
            flags: FlagWord::new(),
            bh: zero,
            bl: zero,
            ch: zero,
            cl: zero,
            x: zero,
            sp: uLong::from_hi_lo(uWord::lit(0x01), uWord::lit(0x3f)),
            pc: uLong::from_hi_lo(uWord::lit(0x02), uWord::lit(0x00)),
        }
    }
}

impl Default for Cpu {
    fn default() -> (r: Cpu)
        ensures
            r@ == Cpu::reset(),
    {
        Cpu::new()
    }
}

/// RAM: a sparse, auto-growing sequence of words. Reads past the stored
/// length yield zero; writes past it extend the storage. The view is the
/// full 4096-word address space, zero-padded.
#[derive(Debug)]
pub struct Ram {
    words: Vec<uWord>,
}

impl View for Ram {
    type V = Seq<u8>;

    closed spec fn view(&self) -> Seq<u8> {
        Seq::new(4096, |i: int| if i < self.words@.len() { self.words@[i]@ } else { 0 })
    }
}

/// The contents of a freshly created RAM: 4096 zero words.
pub open spec fn ram_zeros() -> Seq<u8> {
    Seq::new(4096, |i: int| 0u8)
}

/// Every RAM models the whole 4096-word address space.
pub broadcast proof fn lemma_ram_len(r: Ram)
    ensures
        (#[trigger] r@).len() == 4096,
{
}

impl Ram {
    pub fn new() -> (r: Self)
        ensures
            r@ == ram_zeros(),
    {
        let r = Ram { words: Vec::new() };
        proof {
            assert(r@ =~= ram_zeros());
        }
        r
    }

    /// Reads the word at a plain index.
    pub fn read_at(&self, i: usize) -> (r: uWord)
        requires
            i < 4096,
        ensures
            r@ == self@[i as int],
    {
        if i >= self.words.len() {
            uWord::zero()
        } else {
            self.words[i]
        }
    }

    /// Reads the word at an address.
    pub fn read(&self, a: uLong) -> (r: uWord)
        ensures
            r@ == self@[a@ as int],
    {
        self.read_at(a.value() as usize)
    }

    /// Writes the word at a plain index, growing the storage if needed.
    pub fn write_at(&mut self, i: usize, w: uWord)
        requires
            i < 4096,
        ensures
            final(self)@ == old(self)@.update(i as int, w@),
    {
        while self.words.len() <= i
            invariant
                i < 4096,
                self@ == old(self)@,
            decreases i + 1 - self.words@.len(),
        {
            self.words.push(uWord::zero());
            proof {
                assert(self@ =~= old(self)@);
            }
        }
        self.words[i] = w;
        proof {
            assert(self@ =~= old(self)@.update(i as int, w@));
        }
    }

    /// Writes the word at an address, growing the storage if needed.
    pub fn write(&mut self, a: uLong, w: uWord)
        ensures
            final(self)@ == old(self)@.update(a@ as int, w@),
    {
        self.write_at(a.value() as usize, w);
    }
}

impl Clone for Ram {
    /// A clone holds the same words over the whole address space.
    fn clone(&self) -> (r: Self)
        ensures
            r@ == self@,
    {
        let w = self.words.clone();
        let r = Ram { words: w };
        proof {
            assert forall|i: int| 0 <= i < self.words@.len() implies r.words@[i]@
                == self.words@[i]@ by {
                assert(vstd::pervasive::cloned::<uWord>(self.words@[i], r.words@[i]));
            }
            assert(r@ =~= self@);
        }
        r
    }
}

impl PartialEq for Ram {
    /// Two RAMs are equal when they hold the same words over the whole
    /// address space: a zero-padded prefix of a longer RAM compares equal
    /// to it.
    fn eq(&self, other: &Self) -> (r: bool) {
        let mut i: usize = 0;
        while i < 4096
            invariant
                i <= 4096,
                forall|k: int| 0 <= k < i ==> self@[k] == other@[k],
            decreases 4096 - i,
        {
            if self.read_at(i).value() != other.read_at(i).value() {
                assert(self@[i as int] != other@[i as int]);
                return false;
            }
            i = i + 1;
        }
        proof {
            assert(self@ =~= other@);
        }
        true
    }
}

impl Eq for Ram {

}

impl vstd::std_specs::cmp::PartialEqSpecImpl for Ram {
    open spec fn obeys_eq_spec() -> bool {
        true
    }

    open spec fn eq_spec(&self, other: &Ram) -> bool {
        self@ == other@
    }
}

/// The machine model a `Machine` stands for: the register file as a plain
/// value and the RAM as the zero-padded 4096-word sequence.
pub ghost struct MachineModel {
    pub cpu: CpuModel,
    pub ram: Seq<u8>,
}

/// A whole machine: registers plus RAM.
#[derive(Debug)]
pub struct Machine {
    pub ram: Ram,
    pub cpu: Cpu,
}

impl View for Machine {
    type V = MachineModel;

    open spec fn view(&self) -> MachineModel {
        MachineModel { cpu: self.cpu@, ram: self.ram@ }
    }
}

/// The model with the program counter replaced.
pub open spec fn m_with_pc(m: MachineModel, pc: u16) -> MachineModel {
    MachineModel { cpu: CpuModel { pc, ..m.cpu }, ram: m.ram }
}

/// The model with the stack pointer replaced.
pub open spec fn m_with_sp(m: MachineModel, sp: u16) -> MachineModel {
    MachineModel { cpu: CpuModel { sp, ..m.cpu }, ram: m.ram }
}

/// The model with one RAM word replaced.
pub open spec fn m_with_ram(m: MachineModel, i: int, v: u8) -> MachineModel {
    MachineModel { cpu: m.cpu, ram: m.ram.update(i, v) }
}

impl Machine {
    pub fn new() -> (r: Self)
        ensures
            r@ == (MachineModel { cpu: Cpu::reset(), ram: ram_zeros() }),
    {
        Machine { ram: Ram::new(), cpu: Cpu::new() }
    }

    fn increment_pc(&mut self)
        ensures
            final(self)@ == m_with_pc(old(self)@, addr_add(old(self).cpu.pc@, 1)),
    {
        self.cpu.pc = self.cpu.pc.wrapping_add(1);
    }

    /// Reads the word at `PC` and advances `PC` by one, wrapping at the end
    /// of the address space.
    pub fn read_pc(&mut self) -> (r: uWord)
        ensures
            r@ == old(self)@.ram[old(self).cpu.pc@ as int],
            final(self)@ == m_with_pc(old(self)@, addr_add(old(self).cpu.pc@, 1)),
    {
        let word = self.ram.read(self.cpu.pc);
        self.increment_pc();
        word
    }

    /// Writes a word at `PC` and advances `PC` by one, wrapping at the end
    /// of the address space.
    pub fn write_pc(&mut self, word: uWord)
        ensures
            final(self)@ == m_with_pc(
                m_with_ram(old(self)@, old(self).cpu.pc@ as int, word@),
                addr_add(old(self).cpu.pc@, 1),
            ),
    {
        self.ram.write(self.cpu.pc, word);
        self.increment_pc();
    }

    /// Pops a word from the stack: increments `SP`, then reads at the new
    /// `SP`.
    pub fn read_sp(&mut self) -> (r: uWord)
        ensures
            r@ == old(self)@.ram[addr_add(old(self).cpu.sp@, 1) as int],
            final(self)@ == m_with_sp(old(self)@, addr_add(old(self).cpu.sp@, 1)),
    {
        self.cpu.sp = self.cpu.sp.wrapping_add(1);
        self.ram.read(self.cpu.sp)
    }

    /// Pushes a word onto the stack: writes at `SP`, then decrements `SP`.
    pub fn write_sp(&mut self, word: uWord)
        ensures
            final(self)@ == m_with_sp(
                m_with_ram(old(self)@, old(self).cpu.sp@ as int, word@),
                addr_add(old(self).cpu.sp@, -1),
            ),
    {
        self.ram.write(self.cpu.sp, word);
        self.cpu.sp = self.cpu.sp.wrapping_add(-1);
    }

    /// Reinitializes the register file, leaving RAM untouched.
    pub fn reset_cpu(&mut self)
        ensures
            final(self)@ == (MachineModel { cpu: Cpu::reset(), ram: old(self)@.ram }),
    {
        self.cpu = Cpu::new();
    }
}

impl Clone for Machine {
    /// A clone holds the same registers and the same RAM contents.
    fn clone(&self) -> (r: Self)
        ensures
            r@ == self@,
    {
        Machine { ram: self.ram.clone(), cpu: self.cpu }
    }
}

impl PartialEq for Machine {
    /// Two machines are equal when their register files are equal and their
    /// RAMs hold the same words over the whole address space.
    fn eq(&self, other: &Self) -> (r: bool) {
        let r = self.cpu == other.cpu && self.ram == other.ram;
        proof {
            broadcast use crate::word::lemma_uword_view_injective;
            broadcast use crate::word::lemma_ulong_view_injective;
        }
        r
    }
}

impl Eq for Machine {

}

impl vstd::std_specs::cmp::PartialEqSpecImpl for Machine {
    open spec fn obeys_eq_spec() -> bool {
        true
    }

    open spec fn eq_spec(&self, other: &Machine) -> bool {
        self@ == other@
    }
}

} // verus!
