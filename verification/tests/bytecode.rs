use librlox::bytecode::{BcInstr, Chunk, Register};

#[test]
fn size_of_instr() {
    let size = std::mem::size_of::<BcInstr>();
    assert!(size <= 4, "BcInstr is size {}", size);
}

#[test]
fn get_instr_line() {
    let mut instrs = Chunk::new();
    instrs.write(BcInstr::Ret, 0);
    instrs.write(BcInstr::Ret, 0);
    instrs.write(BcInstr::Ret, 0);
    instrs.write(BcInstr::Ret, 1);
    instrs.write(BcInstr::Ret, 2);
    instrs.write(BcInstr::Ret, 3);

    assert_eq!(instrs.get_line(0), 0);
    assert_eq!(instrs.get_line(1), 0);
    assert_eq!(instrs.get_line(2), 0);
    assert_eq!(instrs.get_line(3), 1);
    assert_eq!(instrs.get_line(4), 2);
    assert_eq!(instrs.get_line(5), 3);
}

#[test]
fn register_numbers() {
    assert_eq!(Register::new(7).num(), 7);
    assert_eq!(Register::new(255).num(), 255);
    assert_eq!(Register::ret().num(), 0);
    assert_eq!(Register::ret(), Register::new(0));
}

#[test]
fn constants_are_found_again() {
    let mut chunk = Chunk::new();
    let a = chunk.add_constant(10);
    let b = chunk.add_constant(20);
    assert_eq!(a, 0);
    assert_eq!(b, 1);
    // a constant that is there already keeps its ID
    assert_eq!(chunk.add_constant(10), 0);
    assert_eq!(chunk.add_constant(20), 1);
    assert_eq!(chunk.constants(), &[10, 20]);
    assert_eq!(chunk.constant(0), 10);
    assert_eq!(chunk.constant(1), 20);
    assert_eq!(chunk.add_constant(30), 2);
    assert_eq!(chunk.constant(2), 30);
}

#[test]
fn lines_that_come_back_start_a_new_run() {
    let mut chunk = Chunk::new();
    chunk.write(BcInstr::Ret, 7);
    chunk.write(BcInstr::Ret, 8);
    chunk.write(BcInstr::Ret, 7);
    chunk.write(BcInstr::Ret, 7);
    assert_eq!(chunk.get_line(0), 7);
    assert_eq!(chunk.get_line(1), 8);
    assert_eq!(chunk.get_line(2), 7);
    assert_eq!(chunk.get_line(3), 7);
}

#[test]
fn instructions_come_back_in_order() {
    let mut chunk = Chunk::new();
    let r1 = Register::new(1);
    let r2 = Register::new(2);
    chunk.write(BcInstr::LoadConst { dest: r1, id: 0 }, 1);
    chunk.write(BcInstr::Neg { dest: r2, a: r1 }, 1);
    chunk.write(BcInstr::Ret, 2);
    assert_eq!(
        chunk.instrs(),
        &[
            BcInstr::LoadConst { dest: r1, id: 0 },
            BcInstr::Neg { dest: r2, a: r1 },
            BcInstr::Ret,
        ]
    );
}

#[test]
fn clear_keeps_the_constants() {
    let mut chunk = Chunk::new();
    chunk.add_constant(42);
    chunk.write(BcInstr::Ret, 5);
    chunk.write(BcInstr::Ret, 5);
    chunk.clear();
    assert!(chunk.instrs().is_empty());
    assert_eq!(chunk.constant(0), 42);
    // lines start over after a clear
    chunk.write(BcInstr::Ret, 9);
    assert_eq!(chunk.get_line(0), 9);
    assert_eq!(chunk.instrs().len(), 1);
}

#[test]
fn a_pushed_constant_is_not_looked_for() {
    let mut chunk = Chunk::new();
    assert_eq!(chunk.push_constant(5), 0);
    assert_eq!(chunk.push_constant(5), 1);
    assert_eq!(chunk.constants(), &[5, 5]);
    // the first of the two is the one that is found
    assert_eq!(chunk.add_constant(5), 0);
    assert_eq!(chunk.constants().len(), 2);
}

#[test]
fn an_id_is_an_index_cut_down_to_16_bits() {
    let mut chunk = Chunk::new();
    for v in 0..65536u64 {
        assert_eq!(chunk.push_constant(v) as u64, v);
    }
    assert_eq!(chunk.add_constant(65535), 65535);
    // index 65536 does not fit an ID
    assert_eq!(chunk.add_constant(65536), 0);
    assert_eq!(chunk.constants().len(), 65537);
    assert_eq!(chunk.constant(0), 0);
}
