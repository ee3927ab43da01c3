use chip8::display::{Display, SCREEN_SIZE};
use chip8::error::ChipError;
use chip8::instruction::decode;
use chip8::keyboard::held_keys;
use chip8::runtime::{Mode, Runtime};
use chip8::storage::{Storage, FONT_START, MEM_SIZE, START_SLOT};

fn machine(program: &[u8], mode: Mode) -> Runtime {
    Runtime::initialize(&program.to_vec(), mode).unwrap()
}

#[test]
fn add_program_leaves_sum_and_clear_flag() {
    let mut rt = machine(&[0x60, 0x05, 0x61, 0x03, 0x80, 0x14], Mode::CHIP8);
    let start = rt.storage.program_counter;
    for _ in 0..3 {
        rt.step().unwrap();
    }
    assert_eq!(rt.storage.variables[0], 8);
    assert_eq!(rt.storage.variables[0xF], 0);
    assert_eq!(rt.storage.program_counter, start + 6);
}

#[test]
fn load_places_program_and_font() {
    let program = vec![0xAB, 0xCD, 0x12];
    let s = Storage::initialize(&program).unwrap();
    assert_eq!(s.program_counter, START_SLOT);
    assert_eq!(&s.memory[START_SLOT..START_SLOT + 3], &[0xAB, 0xCD, 0x12]);
    assert_eq!(&s.memory[FONT_START..FONT_START + 5], &[0xF0, 0x90, 0x90, 0x90, 0xF0]);
    assert_eq!(s.memory[FONT_START + 79], 0x80);
    for a in 0..MEM_SIZE {
        let in_font = (FONT_START..FONT_START + 80).contains(&a);
        let in_program = (START_SLOT..START_SLOT + 3).contains(&a);
        if !in_font && !in_program {
            assert_eq!(s.memory[a], 0, "cell {a:#x}");
        }
    }
    assert!(s.stack.is_empty());
    assert_eq!(s.variables, [0u8; 16]);
}

#[test]
fn load_accepts_largest_image() {
    let program = vec![0x11; MEM_SIZE - START_SLOT];
    let s = Storage::initialize(&program).unwrap();
    assert_eq!(s.memory[MEM_SIZE - 1], 0x11);
}

#[test]
fn load_rejects_oversized_image() {
    let program = vec![0u8; MEM_SIZE - START_SLOT + 1];
    assert!(matches!(Storage::initialize(&program), Err(ChipError::LoadError)));
    assert!(matches!(Runtime::initialize(&program, Mode::SCHIP), Err(ChipError::LoadError)));
}

#[test]
fn decode_splits_fields() {
    let i = decode(0xD12F);
    assert_eq!((i.identifier, i.x, i.y, i.n, i.nn, i.nnn), (0xD, 0x1, 0x2, 0xF, 0x2F, 0x12F));
    assert_eq!(i.raw(), 0xD12F);
    assert_eq!(decode(0xD12F), i);
}

#[test]
fn fetch_reads_big_endian_without_moving() {
    let s = Storage::initialize(&vec![0x12, 0x34]).unwrap();
    assert_eq!(s.fetch_word(START_SLOT), 0x1234);
    assert_eq!(s.program_counter, START_SLOT);
}

#[test]
fn get_instruction_advances_program_counter() {
    let mut s = Storage::initialize(&vec![0x6A, 0x42]).unwrap();
    let i = s.get_instruction().unwrap();
    assert_eq!((i.identifier, i.x, i.nn), (6, 0xA, 0x42));
    assert_eq!(s.program_counter, START_SLOT + 2);
}

#[test]
fn fetch_past_memory_end_faults() {
    let mut s = Storage::initialize(&vec![]).unwrap();
    s.program_counter = MEM_SIZE - 1;
    assert!(matches!(s.get_instruction(), Err(ChipError::AddressOutOfRange)));
    assert_eq!(s.program_counter, MEM_SIZE - 1);
    let mut rt = machine(&[0x1F, 0xFF], Mode::CHIP8);
    rt.step().unwrap();
    assert_eq!(rt.storage.program_counter, 0xFFF);
    assert_eq!(rt.step(), Err(ChipError::AddressOutOfRange));
}

#[test]
fn sixteen_calls_fit_and_seventeenth_overflows() {
    let mut s = Storage::initialize(&vec![]).unwrap();
    for k in 0..16 {
        assert_eq!(s.push_return(0x200 + 2 * k), Ok(()));
    }
    assert_eq!(s.push_return(0x300), Err(ChipError::StackOverflow));
    assert_eq!(s.stack.len(), 16);
    assert_eq!(s.pop_pc_from_stack(), Ok(()));
    assert_eq!(s.program_counter, 0x200 + 2 * 15);
}

#[test]
fn pop_on_fresh_stack_underflows() {
    let mut s = Storage::initialize(&vec![]).unwrap();
    assert_eq!(s.pop_pc_from_stack(), Err(ChipError::StackUnderflow));
    assert_eq!(s.program_counter, START_SLOT);
}

#[test]
fn seventeenth_nested_call_instruction_overflows() {
    // every instruction calls the one right after it
    let mut program = Vec::new();
    for k in 0..17u16 {
        let target = 0x202 + 2 * k;
        program.push(0x20 | (target >> 8) as u8);
        program.push((target & 0xFF) as u8);
    }
    let mut rt = machine(&program, Mode::CHIP8);
    for _ in 0..16 {
        assert_eq!(rt.step(), Ok(()));
    }
    let pc = rt.storage.program_counter;
    assert_eq!(rt.step(), Err(ChipError::StackOverflow));
    assert_eq!(rt.storage.program_counter, pc);
    assert_eq!(rt.storage.stack.len(), 16);
}

#[test]
fn return_on_empty_stack_underflows() {
    let mut rt = machine(&[0x00, 0xEE], Mode::CHIP8);
    assert_eq!(rt.step(), Err(ChipError::StackUnderflow));
    assert_eq!(rt.storage.program_counter, START_SLOT);
}

#[test]
fn call_and_return_round_trip() {
    // 200: call 206; 202: V0 = 1; 206: return
    let mut rt = machine(&[0x22, 0x06, 0x60, 0x01, 0x00, 0x00, 0x00, 0xEE], Mode::CHIP8);
    rt.step().unwrap();
    assert_eq!(rt.storage.program_counter, 0x206);
    assert_eq!(rt.storage.stack, vec![0x202]);
    rt.step().unwrap();
    assert_eq!(rt.storage.program_counter, 0x202);
    assert!(rt.storage.stack.is_empty());
}

#[test]
fn draw_twice_restores_screen() {
    let mut d = Display::initialize();
    let mut flips = [false; SCREEN_SIZE];
    flips[0] = true;
    flips[65] = true;
    d.representation[65] = true;
    let before = d.representation;
    assert!(d.draw(&flips));
    assert!(d.representation[0]);
    assert!(!d.representation[65]);
    assert!(d.draw(&flips));
    assert_eq!(d.representation, before);
}

#[test]
fn second_draw_collides_where_first_lit() {
    let mut d = Display::initialize();
    let mut flips = [false; SCREEN_SIZE];
    flips[10] = true;
    assert!(!d.draw(&flips));
    assert!(d.draw(&flips));
    assert!(d.representation.iter().all(|p| !p));
}

#[test]
fn clear_darkens_everything() {
    let mut d = Display::initialize();
    d.representation[100] = true;
    d.clear();
    assert!(d.representation.iter().all(|p| !p));
}

#[test]
fn sprite_drawn_twice_at_same_place_restores_screen() {
    // I = font glyph 0; V0 = 62, V1 = 30 (clipped on both edges); draw twice
    let mut rt = machine(&[0xA0, 0x50, 0x60, 62, 0x61, 30, 0xD0, 0x15, 0xD0, 0x15], Mode::CHIP8);
    for _ in 0..3 {
        rt.step().unwrap();
    }
    rt.display.representation[30 * 64 + 63] = true;
    let before = rt.display.representation;
    rt.step().unwrap();
    // glyph 0 row 0 is 0xF0: columns 62 and 63 of row 30 are toggled
    assert!(rt.display.representation[30 * 64 + 62]);
    assert!(!rt.display.representation[30 * 64 + 63]);
    // row 1 is 0x90: column 62 of row 31 toggled, 63 not
    assert!(rt.display.representation[31 * 64 + 62]);
    assert!(!rt.display.representation[31 * 64 + 63]);
    // nothing wrapped to the left edge or the top
    assert!(!rt.display.representation[30 * 64]);
    assert!(!rt.display.representation[62]);
    assert_eq!(rt.storage.variables[0xF], 1);
    rt.step().unwrap();
    assert_eq!(rt.display.representation, before);
    assert_eq!(rt.storage.variables[0xF], 1);
}

#[test]
fn held_keys_follow_key_map() {
    let keys = held_keys(&vec![45, 47, 999]);
    let mut expected = [false; 16];
    expected[0] = true;
    expected[15] = true;
    assert_eq!(keys, expected);
    assert_eq!(held_keys(&vec![]), [false; 16]);
}

#[test]
fn key_wait_idles_while_no_key_is_held() {
    let mut rt = machine(&[0xF3, 0x0A], Mode::CHIP8);
    rt.delay_timer = 5;
    for _ in 0..3 {
        assert_eq!(rt.frame(&[false; 16]), Ok(false));
        assert_eq!(rt.storage.program_counter, START_SLOT);
        assert_eq!(rt.current_key_press, None);
    }
    assert_eq!(rt.delay_timer, 2);
}

#[test]
fn key_wait_takes_key_on_release() {
    let mut rt = machine(&[0xF3, 0x0A, 0x12, 0x02], Mode::CHIP8);
    let mut down = [false; 16];
    down[7] = true;
    down[9] = true;
    rt.held_keys = down;
    rt.step().unwrap();
    assert_eq!(rt.current_key_press, Some(7));
    assert_eq!(rt.storage.program_counter, START_SLOT);
    rt.step().unwrap();
    assert_eq!(rt.storage.program_counter, START_SLOT);
    let mut up = [false; 16];
    up[9] = true;
    rt.held_keys = up;
    rt.step().unwrap();
    assert_eq!(rt.storage.variables[3], 7);
    assert_eq!(rt.current_key_press, None);
    assert_eq!(rt.storage.program_counter, START_SLOT + 2);
}

#[test]
fn key_wait_across_frames() {
    let mut rt = machine(&[0xF3, 0x0A, 0x12, 0x02], Mode::CHIP8);
    let mut down = [false; 16];
    down[0xA] = true;
    rt.frame(&down).unwrap();
    assert_eq!(rt.storage.program_counter, START_SLOT);
    assert_eq!(rt.current_key_press, Some(0xA));
    rt.frame(&[false; 16]).unwrap();
    assert_eq!(rt.storage.variables[3], 0xA);
    assert_eq!(rt.storage.program_counter, START_SLOT + 2);
}

#[test]
fn frame_counts_timers_down_once_and_beeps() {
    // V0 = 2; sound = V0; delay = V0; then spin
    let mut rt = machine(&[0x60, 0x02, 0xF0, 0x18, 0xF0, 0x15, 0x12, 0x06], Mode::CHIP8);
    assert_eq!(rt.frame(&[false; 16]), Ok(true));
    assert_eq!((rt.sound_timer, rt.delay_timer), (1, 1));
    assert_eq!(rt.frame(&[false; 16]), Ok(true));
    assert_eq!((rt.sound_timer, rt.delay_timer), (0, 0));
    assert_eq!(rt.frame(&[false; 16]), Ok(false));
    assert_eq!((rt.sound_timer, rt.delay_timer), (0, 0));
}

#[test]
fn update_timers_reports_beep() {
    let mut rt = machine(&[], Mode::CHIP8);
    rt.sound_timer = 1;
    assert!(rt.update_timers());
    assert_eq!(rt.sound_timer, 0);
    assert!(!rt.update_timers());
}

#[test]
fn frame_stops_at_fault() {
    let mut rt = machine(&[0x60, 0x01, 0x00, 0x00], Mode::CHIP8);
    rt.sound_timer = 3;
    assert_eq!(rt.frame(&[false; 16]), Err(ChipError::UnsupportedOpcode(0x0000)));
    assert_eq!(rt.storage.variables[0], 1);
    assert_eq!(rt.storage.program_counter, START_SLOT + 2);
    assert_eq!(rt.sound_timer, 3);
}

#[test]
fn same_bytes_decode_alike_anywhere() {
    let mut s = Storage::initialize(&vec![0x8A, 0xB5, 0x00, 0x00, 0x8A, 0xB5]).unwrap();
    let first = decode(s.fetch_word(START_SLOT));
    let again = decode(s.fetch_word(START_SLOT + 4));
    assert_eq!(first, again);
    assert_eq!(first, decode(s.fetch_word(START_SLOT)));
    s.memory[START_SLOT + 2] = 0xFF;
    assert_eq!(decode(s.fetch_word(START_SLOT)), first);
    assert_eq!((first.identifier, first.x, first.y, first.n, first.nn, first.nnn), (8, 0xA, 0xB, 5, 0xB5, 0xAB5));
}
