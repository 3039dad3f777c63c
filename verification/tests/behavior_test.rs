use nand_computer::alu::ALU;
use nand_computer::gates::{self, Bit16};
use nand_computer::mem::ram512::RAM512;
use nand_computer::mem::register::Register;
use nand_computer::mux;

/// The 16 bits of `n`, most significant first.
fn word(n: u16) -> Bit16 {
    let mut w: Bit16 = [0; 16];
    for i in 0..16 {
        w[i] = ((n >> (15 - i)) & 1) as u8;
    }
    w
}

fn value(w: Bit16) -> u16 {
    let mut n: u16 = 0;
    for bit in w {
        n = (n << 1) | bit as u16;
    }
    n
}

/// Every documented control combination, on x = 1 and y = 2.
#[test]
fn test_full_control_table() {
    let x = word(1);
    let y = word(2);
    let rows: [([u8; 6], u16, u8, u8); 18] = [
        ([1, 0, 1, 0, 1, 0], 0, 1, 0),      // 0
        ([1, 1, 1, 1, 1, 1], 1, 0, 0),      // 1
        ([1, 1, 1, 0, 1, 0], 0xFFFF, 0, 1), // -1
        ([0, 0, 1, 1, 0, 0], 1, 0, 0),      // x
        ([1, 1, 0, 0, 0, 0], 2, 0, 0),      // y
        ([0, 0, 1, 1, 0, 1], 0xFFFE, 0, 1), // !x
        ([1, 1, 0, 0, 0, 1], 0xFFFD, 0, 1), // !y
        ([0, 0, 1, 1, 1, 1], 0xFFFF, 0, 1), // -x
        ([1, 1, 0, 0, 1, 1], 0xFFFE, 0, 1), // -y
        ([0, 1, 1, 1, 1, 1], 2, 0, 0),      // x+1
        ([1, 1, 0, 1, 1, 1], 3, 0, 0),      // y+1
        ([0, 0, 1, 1, 1, 0], 0, 1, 0),      // x-1
        ([1, 1, 0, 0, 1, 0], 1, 0, 0),      // y-1
        ([0, 0, 0, 0, 1, 0], 3, 0, 0),      // x+y
        ([0, 1, 0, 0, 1, 1], 0xFFFF, 0, 1), // x-y
        ([0, 0, 0, 1, 1, 1], 1, 0, 0),      // y-x
        ([0, 0, 0, 0, 0, 0], 0, 1, 0),      // x&y
        ([0, 1, 0, 1, 0, 1], 3, 0, 0),      // x|y
    ];
    for (controls, expected, ezr, eng) in rows {
        let mut alu = ALU::new(x, y);
        alu.set_controls(controls);
        let (out, zr, ng) = alu.exc();
        assert_eq!(out, word(expected), "controls {:?}", controls);
        assert_eq!(zr, ezr, "zr for controls {:?}", controls);
        assert_eq!(ng, eng, "ng for controls {:?}", controls);
    }
}

/// For every 16-bit output word: zr is set exactly on zero, ng exactly on a
/// set most significant bit. The pass-x control routes each value through.
#[test]
fn test_flags_exhaustive() {
    for n in 0..=u16::MAX {
        let mut alu = ALU::new(word(n), [0; 16]);
        alu.set_controls([0, 0, 1, 1, 0, 0]);
        let (out, zr, ng) = alu.exc();
        assert_eq!(value(out), n);
        assert_eq!(zr, if n == 0 { 1 } else { 0 });
        assert_eq!(ng, if n >= 0x8000 { 1 } else { 0 });
    }
}

/// The unit retains no state across runs: the same controls on the same
/// operands give the same answer every time, complement controls included.
#[test]
fn test_exc_repeatable() {
    let mut alu = ALU::new([0; 16], [0; 16]);
    alu.set_controls([0, 1, 1, 1, 0, 0]);
    let first = alu.exc();
    let second = alu.exc();
    assert_eq!(first, ([1; 16], 0, 1));
    assert_eq!(second, first);
    let mut alu = ALU::new(word(25), word(17));
    alu.set_controls([0, 1, 0, 0, 1, 1]); // x-y
    let first = alu.exc();
    let second = alu.exc();
    assert_eq!(first.0, word(8));
    assert_eq!(second, first);
}

/// A tick with load low never changes a register; with load high it takes
/// the input.
#[test]
fn test_register_load_gating() {
    let pattern = word(0xBEEF);
    let other = word(0x1234);
    let mut reg = Register::new();
    reg.tick(pattern, 0);
    assert_eq!(reg.output(), [0; 16]);
    reg.tick(pattern, 1);
    assert_eq!(reg.output(), pattern);
    reg.tick(other, 0);
    assert_eq!(reg.output(), pattern);
    reg.tick(other, 1);
    assert_eq!(reg.output(), other);
}

/// Writing 1234 at address 0 of a RAM512 is visible in the same tick and
/// survives a write to address 511.
#[test]
fn test_ram512_end_to_end() {
    let mut ram = RAM512::default();
    let input = word(1234);
    let same_tick = ram.tick([0; 9], 1, input);
    assert_eq!(same_tick, input);
    let read_back = ram.tick([0; 9], 0, [0; 16]);
    assert_eq!(read_back, input);
    ram.tick([1; 9], 1, word(4321));
    assert_eq!(ram.tick([1; 9], 0, [0; 16]), word(4321));
    assert_eq!(ram.tick([0; 9], 0, [0; 16]), input);
}

/// Addition wraps around modulo 2^16.
#[test]
fn test_add_16_wraparound() {
    assert_eq!(gates::add_16(word(0xFFFF), word(1)), word(0));
    assert_eq!(gates::add_16(word(0x8000), word(0x8000)), word(0));
    assert_eq!(gates::add_16(word(40000), word(30000)), word(4464));
    assert_eq!(gates::inc_16(word(0xFFFF)), word(0));
    assert_eq!(gates::inc_16(word(41)), word(42));
}

/// The OR gates, wide and narrow.
#[test]
fn test_or_gates() {
    assert_eq!(gates::or_16(word(0xF0F0), word(0x0F0F)), word(0xFFFF));
    assert_eq!(gates::or_16(word(0x1200), word(0x0034)), word(0x1234));
    let bundle = [0, 1, 0, 1, 1, 0, 0, 1];
    assert_eq!(gates::or_8_way(bundle), bundle);
}

/// The 4-way demultiplexer routes to exactly one output.
#[test]
fn test_dmux4way() {
    assert_eq!(gates::dmux4way(1, [0, 0]), (1, 0, 0, 0));
    assert_eq!(gates::dmux4way(1, [1, 0]), (0, 1, 0, 0));
    assert_eq!(gates::dmux4way(1, [0, 1]), (0, 0, 1, 0));
    assert_eq!(gates::dmux4way(1, [1, 1]), (0, 0, 0, 1));
}

/// The routing gates under their long names select the same way.
#[test]
fn test_mux_module() {
    assert_eq!(mux::mux(0, 1, 1), 1);
    assert_eq!(mux::dmux(1, 1), (0, 1));
    let a = word(0x00FF);
    let b = word(0xFF00);
    assert_eq!(mux::mux_16(a, b, 0), a);
    assert_eq!(mux::mux_16(a, b, 1), b);
    let c = word(3);
    let d = word(4);
    assert_eq!(mux::mux_4_way_16(a, b, c, d, [0, 1]), c);
    assert_eq!(mux::mux_8_way_16(a, b, c, d, a, b, c, d, [1, 1, 0]), c);
    assert_eq!(mux::dmux_4_way(1, [1, 1]), (0, 0, 0, 1));
    assert_eq!(mux::dmux_8_way(1, [1, 1, 1]), (0, 0, 0, 0, 0, 0, 0, 1));
}
