use chip8::error::ChipError;
use chip8::instruction::decode;
use chip8::operators::{
    first_held, handle0, handle8, handleC, handleE, handleF, handle_random,
};
use chip8::runtime::{Mode, Runtime};
use chip8::storage::{FONT_START, START_SLOT};

fn machine(program: &[u8], mode: Mode) -> Runtime {
    Runtime::initialize(&program.to_vec(), mode).unwrap()
}

/// Runs `word` once on a machine whose registers hold `vars`.
fn exec(word: u16, vars: &[(usize, u8)], mode: Mode) -> (Runtime, Result<(), ChipError>) {
    let mut rt = machine(&word.to_be_bytes(), mode);
    for &(r, v) in vars {
        rt.storage.variables[r] = v;
    }
    let result = rt.step();
    (rt, result)
}

#[test]
fn add_sets_carry_above_255() {
    let (rt, r) = exec(0x8014, &[(0, 200), (1, 100)], Mode::CHIP8);
    assert_eq!(r, Ok(()));
    assert_eq!(rt.storage.variables[0], 44);
    assert_eq!(rt.storage.variables[0xF], 1);
    let (rt, _) = exec(0x8014, &[(0, 200), (1, 55)], Mode::CHIP8);
    assert_eq!(rt.storage.variables[0], 255);
    assert_eq!(rt.storage.variables[0xF], 0);
    let (rt, _) = exec(0x8014, &[(0, 200), (1, 56)], Mode::CHIP8);
    assert_eq!(rt.storage.variables[0], 0);
    assert_eq!(rt.storage.variables[0xF], 1);
}

#[test]
fn sub_flag_means_no_borrow() {
    let (rt, _) = exec(0x8015, &[(0, 10), (1, 3)], Mode::CHIP8);
    assert_eq!((rt.storage.variables[0], rt.storage.variables[0xF]), (7, 1));
    let (rt, _) = exec(0x8015, &[(0, 5), (1, 5)], Mode::CHIP8);
    assert_eq!((rt.storage.variables[0], rt.storage.variables[0xF]), (0, 1));
    let (rt, _) = exec(0x8015, &[(0, 3), (1, 10)], Mode::CHIP8);
    assert_eq!((rt.storage.variables[0], rt.storage.variables[0xF]), (249, 0));
}

#[test]
fn reverse_sub_flag_means_no_borrow() {
    let (rt, _) = exec(0x8017, &[(0, 3), (1, 10)], Mode::CHIP8);
    assert_eq!((rt.storage.variables[0], rt.storage.variables[0xF]), (7, 1));
    let (rt, _) = exec(0x8017, &[(0, 10), (1, 3)], Mode::CHIP8);
    assert_eq!((rt.storage.variables[0], rt.storage.variables[0xF]), (249, 0));
}

#[test]
fn flag_register_as_target_keeps_flag() {
    let (rt, _) = exec(0x8F14, &[(0xF, 200), (1, 100)], Mode::CHIP8);
    assert_eq!(rt.storage.variables[0xF], 1);
}

#[test]
fn logic_ops() {
    let (rt, _) = exec(0x8011, &[(0, 0b1100), (1, 0b1010)], Mode::CHIP8);
    assert_eq!(rt.storage.variables[0], 0b1110);
    let (rt, _) = exec(0x8012, &[(0, 0b1100), (1, 0b1010)], Mode::CHIP8);
    assert_eq!(rt.storage.variables[0], 0b1000);
    let (rt, _) = exec(0x8013, &[(0, 0b1100), (1, 0b1010)], Mode::CHIP8);
    assert_eq!(rt.storage.variables[0], 0b0110);
    let (rt, _) = exec(0x8010, &[(0, 1), (1, 77)], Mode::CHIP8);
    assert_eq!(rt.storage.variables[0], 77);
}

#[test]
fn shifts_read_vy_on_baseline_machine() {
    let (rt, _) = exec(0x8016, &[(0, 0xFF), (1, 0b101)], Mode::CHIP8);
    assert_eq!((rt.storage.variables[0], rt.storage.variables[0xF]), (0b10, 1));
    let (rt, _) = exec(0x801E, &[(0, 0), (1, 0x81)], Mode::X0CHIP);
    assert_eq!((rt.storage.variables[0], rt.storage.variables[0xF]), (0x02, 1));
}

#[test]
fn shifts_work_in_place_on_extended_machine() {
    let (rt, _) = exec(0x8016, &[(0, 0b110), (1, 0xFF)], Mode::SCHIP);
    assert_eq!((rt.storage.variables[0], rt.storage.variables[0xF]), (0b11, 0));
    let (rt, _) = exec(0x801E, &[(0, 0x40), (1, 0xFF)], Mode::SCHIP);
    assert_eq!((rt.storage.variables[0], rt.storage.variables[0xF]), (0x80, 0));
}

#[test]
fn add_immediate_wraps_without_flag() {
    let (rt, _) = exec(0x7510, &[(5, 0xF8), (0xF, 9)], Mode::CHIP8);
    assert_eq!(rt.storage.variables[5], 0x08);
    assert_eq!(rt.storage.variables[0xF], 9);
}

#[test]
fn skips() {
    let (rt, _) = exec(0x3207, &[(2, 7)], Mode::CHIP8);
    assert_eq!(rt.storage.program_counter, START_SLOT + 4);
    let (rt, _) = exec(0x3207, &[(2, 8)], Mode::CHIP8);
    assert_eq!(rt.storage.program_counter, START_SLOT + 2);
    let (rt, _) = exec(0x4207, &[(2, 8)], Mode::CHIP8);
    assert_eq!(rt.storage.program_counter, START_SLOT + 4);
    let (rt, _) = exec(0x5230, &[(2, 8), (3, 8)], Mode::CHIP8);
    assert_eq!(rt.storage.program_counter, START_SLOT + 4);
    let (rt, _) = exec(0x9230, &[(2, 8), (3, 8)], Mode::CHIP8);
    assert_eq!(rt.storage.program_counter, START_SLOT + 2);
}

#[test]
fn jumps_and_index() {
    let (rt, _) = exec(0x1ABC, &[], Mode::CHIP8);
    assert_eq!(rt.storage.program_counter, 0xABC);
    let (rt, _) = exec(0xB300, &[(0, 0x10)], Mode::CHIP8);
    assert_eq!(rt.storage.program_counter, 0x310);
    let (rt, _) = exec(0xA123, &[], Mode::CHIP8);
    assert_eq!(rt.storage.index_register, 0x123);
}

#[test]
fn random_is_masked() {
    let mut rt = machine(&[], Mode::CHIP8);
    handle_random(&mut rt, decode(0xC40F), 0xABCD);
    assert_eq!(rt.storage.variables[4], 0x0D);
    for _ in 0..20 {
        handleC(&mut rt, decode(0xC4A5));
        assert_eq!(rt.storage.variables[4] & !0xA5, 0);
    }
}

#[test]
fn clear_screen_opcode() {
    let mut rt = machine(&[], Mode::CHIP8);
    rt.display.representation[7] = true;
    assert_eq!(handle0(&mut rt, decode(0x00E0)), Ok(()));
    assert!(rt.display.representation.iter().all(|p| !p));
}

#[test]
fn unsupported_words_fault() {
    let mut rt = machine(&[], Mode::CHIP8);
    rt.storage.program_counter = 0x202;
    assert_eq!(handle0(&mut rt, decode(0x0123)), Err(ChipError::UnsupportedOpcode(0x0123)));
    assert_eq!(handle8(&mut rt, decode(0x8128)), Err(ChipError::UnsupportedOpcode(0x8128)));
    assert_eq!(handleE(&mut rt, decode(0xE1FF)), Err(ChipError::UnsupportedOpcode(0xE1FF)));
    assert_eq!(handleF(&mut rt, decode(0xF1FF)), Err(ChipError::UnsupportedOpcode(0xF1FF)));
    assert_eq!(rt.storage.program_counter, 0x202);
}

#[test]
fn key_skip_uses_logical_keys() {
    let mut rt = machine(&[], Mode::CHIP8);
    rt.storage.program_counter = 0x202;
    rt.storage.variables[1] = 0x1C; // low nibble C
    rt.held_keys[0xC] = true;
    assert_eq!(handleE(&mut rt, decode(0xE19E)), Ok(()));
    assert_eq!(rt.storage.program_counter, 0x204);
    assert_eq!(handleE(&mut rt, decode(0xE1A1)), Ok(()));
    assert_eq!(rt.storage.program_counter, 0x204);
    rt.held_keys[0xC] = false;
    assert_eq!(handleE(&mut rt, decode(0xE1A1)), Ok(()));
    assert_eq!(rt.storage.program_counter, 0x206);
}

#[test]
fn lowest_held_key() {
    let mut keys = [false; 16];
    assert_eq!(first_held(&keys), None);
    keys[12] = true;
    keys[5] = true;
    assert_eq!(first_held(&keys), Some(5));
}

#[test]
fn timers_move_through_registers() {
    let (rt, _) = exec(0xF215, &[(2, 40)], Mode::CHIP8);
    assert_eq!(rt.delay_timer, 40);
    let (rt, _) = exec(0xF218, &[(2, 41)], Mode::CHIP8);
    assert_eq!(rt.sound_timer, 41);
    let mut rt = machine(&[0xF3, 0x07], Mode::CHIP8);
    rt.delay_timer = 42;
    rt.step().unwrap();
    assert_eq!(rt.storage.variables[3], 42);
}

#[test]
fn index_add_flags_past_twelve_bits() {
    let mut rt = machine(&[0xF1, 0x1E], Mode::CHIP8);
    rt.storage.index_register = 0xFFE;
    rt.storage.variables[1] = 3;
    rt.step().unwrap();
    assert_eq!(rt.storage.index_register, 0x1001);
    assert_eq!(rt.storage.variables[0xF], 1);
    let mut rt = machine(&[0xF1, 0x1E], Mode::CHIP8);
    rt.storage.index_register = 0x100;
    rt.storage.variables[1] = 3;
    rt.storage.variables[0xF] = 7;
    rt.step().unwrap();
    assert_eq!(rt.storage.index_register, 0x103);
    assert_eq!(rt.storage.variables[0xF], 7);
}

#[test]
fn font_glyph_address_uses_low_nibble() {
    let (rt, _) = exec(0xF229, &[(2, 0xA)], Mode::CHIP8);
    assert_eq!(rt.storage.index_register as usize, FONT_START + 50);
    let (rt, _) = exec(0xF229, &[(2, 0x1B)], Mode::CHIP8);
    assert_eq!(rt.storage.index_register as usize, FONT_START + 55);
}

#[test]
fn decimal_digits() {
    let mut rt = machine(&[0xF0, 0x33], Mode::CHIP8);
    rt.storage.index_register = 0x300;
    rt.storage.variables[0] = 254;
    rt.step().unwrap();
    assert_eq!(&rt.storage.memory[0x300..0x303], &[2, 5, 4]);
    let mut rt = machine(&[0xF0, 0x33], Mode::CHIP8);
    rt.storage.index_register = 0xFFE;
    assert_eq!(rt.step(), Err(ChipError::AddressOutOfRange));
    assert_eq!(rt.storage.program_counter, START_SLOT);
}

#[test]
fn bulk_store_and_load_move_index_on_baseline_machine() {
    let mut rt = machine(&[0xF2, 0x55, 0xF2, 0x65], Mode::CHIP8);
    rt.storage.index_register = 0x300;
    rt.storage.variables[0] = 1;
    rt.storage.variables[1] = 2;
    rt.storage.variables[2] = 3;
    rt.storage.variables[3] = 4;
    rt.step().unwrap();
    assert_eq!(&rt.storage.memory[0x300..0x304], &[1, 2, 3, 0]);
    assert_eq!(rt.storage.index_register, 0x303);
    rt.storage.memory[0x303] = 9;
    rt.storage.memory[0x304] = 8;
    rt.storage.memory[0x305] = 7;
    rt.step().unwrap();
    assert_eq!(&rt.storage.variables[0..4], &[9, 8, 7, 4]);
    assert_eq!(rt.storage.index_register, 0x306);
}

#[test]
fn bulk_store_keeps_index_on_extended_machine() {
    let mut rt = machine(&[0xF1, 0x55], Mode::SCHIP);
    rt.storage.index_register = 0x300;
    rt.storage.variables[0] = 5;
    rt.storage.variables[1] = 6;
    rt.step().unwrap();
    assert_eq!(&rt.storage.memory[0x300..0x302], &[5, 6]);
    assert_eq!(rt.storage.index_register, 0x300);
}

#[test]
fn bulk_store_past_memory_end_faults() {
    let mut rt = machine(&[0xF3, 0x55], Mode::CHIP8);
    rt.storage.index_register = 0xFFD;
    assert_eq!(rt.step(), Err(ChipError::AddressOutOfRange));
    let mut rt = machine(&[0xF3, 0x65], Mode::CHIP8);
    rt.storage.index_register = 0xFFC;
    assert_eq!(rt.step(), Ok(()));
}

#[test]
fn draw_past_memory_end_faults() {
    let mut rt = machine(&[0xD0, 0x13], Mode::CHIP8);
    rt.storage.index_register = 0xFFE;
    assert_eq!(rt.step(), Err(ChipError::AddressOutOfRange));
    assert!(rt.display.representation.iter().all(|p| !p));
}

