use timecore::machine::{Machine, Ram};
use timecore::word::{uLong, uWord};

#[test]
fn zero_padded_rams_compare_equal() {
    let mut shorter = Ram::new();
    shorter.write(uLong::try_new(3).unwrap(), uWord::lit(9));
    let mut longer = Ram::new();
    longer.write(uLong::try_new(3).unwrap(), uWord::lit(9));
    // extend the longer RAM's storage with explicit zeros
    longer.write(uLong::try_new(2000).unwrap(), uWord::zero());
    longer.write(uLong::try_new(4095).unwrap(), uWord::zero());
    assert_eq!(shorter, longer);
    assert_eq!(longer, shorter);
    longer.write(uLong::try_new(2000).unwrap(), uWord::lit(1));
    assert_ne!(shorter, longer);
}

#[test]
fn stack_push_then_pop_returns_the_word() {
    let mut m = Machine::new();
    let sp0 = m.cpu.sp;
    m.write_sp(uWord::lit(0x21));
    m.write_sp(uWord::lit(0x22));
    assert_eq!(m.read_sp().value(), 0x22);
    assert_eq!(m.read_sp().value(), 0x21);
    assert_eq!(m.cpu.sp, sp0);
}

#[test]
fn reset_cpu_keeps_ram() {
    let mut m = Machine::new();
    m.ram.write(uLong::try_new(0x300).unwrap(), uWord::lit(5));
    m.write_pc(uWord::lit(7));
    m.reset_cpu();
    assert_eq!(m.cpu.pc.value(), 0x80);
    assert_eq!(m.cpu.sp.value(), 0x7f);
    assert_eq!(m.ram.read(uLong::try_new(0x300).unwrap()).value(), 5);
    assert_eq!(m.ram.read(uLong::try_new(0x80).unwrap()).value(), 7);
}
