use chip8::chip8::{Chip8, Step};
use chip8::decode::{decode, Decoded};
use chip8::display::Display;
use chip8::error::Chip8Error;
use chip8::memory::Memory;

fn run(c: &mut Chip8, program: &[u16]) {
    for &w in program {
        c.execute_intruction(w, 0).unwrap();
    }
}

fn loaded(program: &[u8]) -> Chip8 {
    let mut c = Chip8::new();
    c.load(program).unwrap();
    c
}

#[test]
fn decode_splits_fields() {
    let d = decode(0xD123);
    assert_eq!(
        d,
        Decoded { family: 0xD, nnn: 0x123, n: 0x3, x: 0x1, y: 0x2, kk: 0x23 }
    );
    assert_eq!(decode(0xD123), d);
    let e = decode(0xFFFF);
    assert_eq!(e, Decoded { family: 0xF, nnn: 0xFFF, n: 0xF, x: 0xF, y: 0xF, kk: 0xFF });
    let z = decode(0x0000);
    assert_eq!(z, Decoded { family: 0, nnn: 0, n: 0, x: 0, y: 0, kk: 0 });
}

#[test]
fn add_with_carry_wraps() {
    let mut c = Chip8::new();
    run(&mut c, &[0x60FF, 0x6101, 0x8014]);
    assert_eq!(c.memory().v[0], 0x00);
    assert_eq!(c.memory().v[0xF], 1);
    run(&mut c, &[0x6010, 0x6120, 0x8014]);
    assert_eq!(c.memory().v[0], 0x30);
    assert_eq!(c.memory().v[0xF], 0);
}

#[test]
fn add_immediate_wraps_without_flag() {
    let mut c = Chip8::new();
    run(&mut c, &[0x6F07, 0x60FE, 0x7003]);
    assert_eq!(c.memory().v[0], 0x01);
    assert_eq!(c.memory().v[0xF], 0x07);
}

#[test]
fn subtract_sets_not_borrow() {
    let mut c = Chip8::new();
    run(&mut c, &[0x6005, 0x6107, 0x8015]);
    assert_eq!(c.memory().v[0], 0xFE);
    assert_eq!(c.memory().v[0xF], 0);
    run(&mut c, &[0x6007, 0x6105, 0x8015]);
    assert_eq!(c.memory().v[0], 0x02);
    assert_eq!(c.memory().v[0xF], 1);
    run(&mut c, &[0x6005, 0x6105, 0x8015]);
    assert_eq!(c.memory().v[0], 0x00);
    assert_eq!(c.memory().v[0xF], 1);
}

#[test]
fn reverse_subtract_sets_not_borrow() {
    let mut c = Chip8::new();
    run(&mut c, &[0x6007, 0x6105, 0x8017]);
    assert_eq!(c.memory().v[0], 0xFE);
    assert_eq!(c.memory().v[0xF], 0);
    run(&mut c, &[0x6005, 0x6107, 0x8017]);
    assert_eq!(c.memory().v[0], 0x02);
    assert_eq!(c.memory().v[0xF], 1);
}

#[test]
fn shifts_report_shifted_out_bit() {
    let mut c = Chip8::new();
    run(&mut c, &[0x6081, 0x8006]);
    assert_eq!(c.memory().v[0], 0x40);
    assert_eq!(c.memory().v[0xF], 1);
    run(&mut c, &[0x6081, 0x800E]);
    assert_eq!(c.memory().v[0], 0x02);
    assert_eq!(c.memory().v[0xF], 1);
    run(&mut c, &[0x6042, 0x800E]);
    assert_eq!(c.memory().v[0], 0x84);
    assert_eq!(c.memory().v[0xF], 0);
}

#[test]
fn logic_operations() {
    let mut c = Chip8::new();
    run(&mut c, &[0x600C, 0x610A, 0x8011]);
    assert_eq!(c.memory().v[0], 0x0E);
    run(&mut c, &[0x600C, 0x8012]);
    assert_eq!(c.memory().v[0], 0x08);
    run(&mut c, &[0x600C, 0x8013]);
    assert_eq!(c.memory().v[0], 0x06);
    run(&mut c, &[0x8010]);
    assert_eq!(c.memory().v[0], 0x0A);
}

#[test]
fn drawing_twice_restores_screen() {
    let mut c = loaded(&[]);
    run(&mut c, &[0xA000, 0x6003, 0x6104, 0xD015]);
    assert!(c.display().pixel(3, 4));
    assert_eq!(c.memory().v[0xF], 0);
    run(&mut c, &[0xD015]);
    assert_eq!(c.memory().v[0xF], 1);
    for y in 0..32 {
        for x in 0..64 {
            assert!(!c.display().pixel(x, y));
        }
    }
}

#[test]
fn non_overlapping_sprites_do_not_collide() {
    let mut c = loaded(&[]);
    run(&mut c, &[0xA000, 0x6000, 0x6100, 0xD015, 0x6008, 0xD015]);
    assert_eq!(c.memory().v[0xF], 0);
    assert!(c.display().pixel(0, 0));
    assert!(c.display().pixel(8, 0));
}

#[test]
fn overlapping_sprites_collide() {
    let mut c = loaded(&[]);
    // glyph 0 at the origin, then glyph 1 shifted so that their pixels meet
    run(&mut c, &[0xA000, 0x6000, 0x6100, 0xD015, 0xA005, 0xD015]);
    assert_eq!(c.memory().v[0xF], 1);
}

#[test]
fn sprites_wrap_around_edges() {
    let mut c = loaded(&[]);
    // glyph 0, whose top row is 0xF0, at column 62 and row 31
    run(&mut c, &[0xA000, 0x603E, 0x611F, 0xD015]);
    assert!(c.display().pixel(62, 31));
    assert!(c.display().pixel(63, 31));
    assert!(c.display().pixel(0, 31));
    assert!(c.display().pixel(1, 31));
    assert!(!c.display().pixel(2, 31));
    // the second row, 0x90, wraps to row 0
    assert!(c.display().pixel(62, 0));
    assert!(!c.display().pixel(63, 0));
    assert!(c.display().pixel(1, 0));
}

#[test]
fn clear_screen_blanks_display() {
    let mut c = loaded(&[]);
    run(&mut c, &[0xA000, 0xD005]);
    assert!(c.display().pixel(0, 0));
    assert_eq!(c.execute_intruction(0x00E0, 0), Ok(true));
    assert!(!c.display().pixel(0, 0));
}

#[test]
fn sixteen_nested_calls_then_overflow() {
    let mut c = Chip8::new();
    for k in 0..16u16 {
        assert_eq!(c.execute_intruction(0x2300 + 2 * k, 0), Ok(false));
        assert_eq!(c.memory().sp as u16, k + 1);
        assert_eq!(c.memory().pc, 0x300 + 2 * k);
    }
    assert_eq!(c.execute_intruction(0x2400, 0), Err(Chip8Error::StackOverflow));
    assert_eq!(c.memory().sp, 16);
    assert_eq!(c.memory().pc, 0x31E);
}

#[test]
fn return_on_empty_stack_underflows() {
    let mut c = Chip8::new();
    assert_eq!(c.execute_intruction(0x00EE, 0), Err(Chip8Error::StackUnderflow));
    assert_eq!(c.memory().pc, 0x200);
}

#[test]
fn call_then_return_resumes_after_call() {
    let mut c = Chip8::new();
    run(&mut c, &[0x2345]);
    assert_eq!(c.memory().pc, 0x345);
    assert_eq!(c.memory().stack[0], 0x200);
    run(&mut c, &[0x00EE]);
    assert_eq!(c.memory().pc, 0x202);
    assert_eq!(c.memory().sp, 0);
}

#[test]
fn largest_program_loads() {
    let mut c = Chip8::new();
    let rom = vec![0xABu8; 4096 - 0x200];
    assert_eq!(c.load(&rom), Ok(()));
    assert_eq!(c.memory().ram[0x200], 0xAB);
    assert_eq!(c.memory().ram[4095], 0xAB);
    assert_eq!(c.memory().ram[0], 0xF0);
    assert_eq!(c.memory().ram[79], 0x80);
}

#[test]
fn oversized_program_is_refused() {
    let mut c = Chip8::new();
    let rom = vec![0xABu8; 4096 - 0x200 + 1];
    assert_eq!(c.load(&rom), Err(Chip8Error::LoadError));
    assert_eq!(c.memory().ram[0x200], 0);
    assert_eq!(c.memory().ram[0], 0);
}

#[test]
fn jump_to_self_halts() {
    let mut c = loaded(&[0x60, 0x05, 0x12, 0x02]);
    assert_eq!(c.step(), Ok(Step::Running { redraw: false }));
    assert_eq!(c.memory().v[0], 5);
    assert_eq!(c.step(), Ok(Step::Halted));
    assert_eq!(c.step(), Ok(Step::Halted));
    assert_eq!(c.memory().pc, 0x202);
}

#[test]
fn jump_past_program_end_reaches_unknown_opcode() {
    // 0x1204 sits at 0x202, so it jumps forward to an empty word
    let mut c = loaded(&[0x60, 0x05, 0x12, 0x04]);
    assert_eq!(c.step(), Ok(Step::Running { redraw: false }));
    assert_eq!(c.memory().v[0], 5);
    assert_eq!(c.step(), Ok(Step::Running { redraw: false }));
    assert_eq!(c.memory().pc, 0x204);
    assert_eq!(
        c.step(),
        Err(Chip8Error::UnknownOpcode { instruction: 0x0000, pc: 0x204 })
    );
}

#[test]
fn draws_digit_glyph_at_origin() {
    let mut c = loaded(&[0xA0, 0x00, 0x60, 0x00, 0x61, 0x00, 0xD0, 0x05, 0x12, 0x08]);
    for _ in 0..3 {
        assert_eq!(c.step(), Ok(Step::Running { redraw: false }));
    }
    assert_eq!(c.step(), Ok(Step::Running { redraw: true }));
    assert_eq!(c.memory().v[0xF], 0);
    let glyph = [0xF0u8, 0x90, 0x90, 0x90, 0xF0];
    for y in 0..32 {
        for x in 0..64 {
            let want = y < 5 && x < 8 && (glyph[y] >> (7 - x)) & 1 == 1;
            assert_eq!(c.display().pixel(x, y), want);
        }
    }
    assert_eq!(c.step(), Ok(Step::Halted));
}

#[test]
fn skips_follow_comparisons() {
    let mut c = Chip8::new();
    run(&mut c, &[0x6005]);
    run(&mut c, &[0x3005]);
    assert_eq!(c.memory().pc, 0x206);
    run(&mut c, &[0x3006]);
    assert_eq!(c.memory().pc, 0x208);
    run(&mut c, &[0x4006]);
    assert_eq!(c.memory().pc, 0x20C);
    run(&mut c, &[0x6105, 0x5010]);
    assert_eq!(c.memory().pc, 0x212);
    run(&mut c, &[0x9010]);
    assert_eq!(c.memory().pc, 0x214);
}

#[test]
fn jump_with_offset() {
    let mut c = Chip8::new();
    run(&mut c, &[0x6004, 0xB300]);
    assert_eq!(c.memory().pc, 0x304);
    run(&mut c, &[0x60FF]);
    assert_eq!(c.execute_intruction(0xBFFF, 0), Err(Chip8Error::OutOfBoundsAccess));
    assert_eq!(c.memory().pc, 0x306);
}

#[test]
fn unknown_opcodes_are_reported() {
    let mut c = Chip8::new();
    assert_eq!(
        c.execute_intruction(0x0123, 0),
        Err(Chip8Error::UnknownOpcode { instruction: 0x0123, pc: 0x200 })
    );
    assert_eq!(
        c.execute_intruction(0x8008, 0),
        Err(Chip8Error::UnknownOpcode { instruction: 0x8008, pc: 0x200 })
    );
    assert_eq!(
        c.execute_intruction(0xF0FF, 0),
        Err(Chip8Error::UnknownOpcode { instruction: 0xF0FF, pc: 0x200 })
    );
    assert_eq!(
        c.execute_intruction(0x5011, 0),
        Err(Chip8Error::UnknownOpcode { instruction: 0x5011, pc: 0x200 })
    );
    assert_eq!(
        c.execute_intruction(0xE000, 0),
        Err(Chip8Error::UnknownOpcode { instruction: 0xE000, pc: 0x200 })
    );
}

#[test]
fn index_register_out_of_range_is_refused() {
    let mut c = Chip8::new();
    run(&mut c, &[0xAFFF, 0x6101]);
    assert_eq!(c.execute_intruction(0xF11E, 0), Err(Chip8Error::OutOfBoundsAccess));
    assert_eq!(c.memory().i, 0xFFF);
    assert_eq!(c.execute_intruction(0xD002, 0), Err(Chip8Error::OutOfBoundsAccess));
    assert_eq!(c.execute_intruction(0xF155, 0), Err(Chip8Error::OutOfBoundsAccess));
    assert_eq!(c.execute_intruction(0xF033, 0), Err(Chip8Error::OutOfBoundsAccess));
}

#[test]
fn program_counter_past_memory_is_refused() {
    let mut c = Chip8::new();
    run(&mut c, &[0x1FFE]);
    assert_eq!(c.execute_intruction(0x6001, 0), Err(Chip8Error::OutOfBoundsAccess));
    run(&mut c, &[0x1FFF]);
    assert_eq!(c.step(), Err(Chip8Error::OutOfBoundsAccess));
}

#[test]
fn binary_coded_decimal_store() {
    let mut c = Chip8::new();
    run(&mut c, &[0x60EA, 0xA300, 0xF033]);
    assert_eq!(c.memory().ram[0x300], 2);
    assert_eq!(c.memory().ram[0x301], 3);
    assert_eq!(c.memory().ram[0x302], 4);
}

#[test]
fn store_and_load_registers_inclusive() {
    let mut c = Chip8::new();
    run(&mut c, &[0x6011, 0x6122, 0x6233, 0x6344, 0xA300, 0xF255]);
    assert_eq!(c.memory().ram[0x300], 0x11);
    assert_eq!(c.memory().ram[0x301], 0x22);
    assert_eq!(c.memory().ram[0x302], 0x33);
    assert_eq!(c.memory().ram[0x303], 0);
    run(&mut c, &[0x6000, 0x6100, 0x6200, 0xA301, 0xF165]);
    assert_eq!(c.memory().v[0], 0x22);
    assert_eq!(c.memory().v[1], 0x33);
    assert_eq!(c.memory().v[2], 0);
    assert_eq!(c.memory().v[3], 0x44);
}

#[test]
fn timers_and_font_address() {
    let mut c = Chip8::new();
    run(&mut c, &[0x6030, 0xF015, 0xF018, 0xF107]);
    assert_eq!(c.memory().dt, 0x30);
    assert_eq!(c.memory().st, 0x30);
    assert_eq!(c.memory().v[1], 0x30);
    run(&mut c, &[0x600A, 0xF029]);
    assert_eq!(c.memory().i, 50);
    run(&mut c, &[0xF01E]);
    assert_eq!(c.memory().i, 60);
}

#[test]
fn random_byte_is_masked() {
    let mut c = Chip8::new();
    run(&mut c, &[0x60FF]);
    assert_eq!(c.execute_intruction(0xC00F, 0xAB), Ok(false));
    assert_eq!(c.memory().v[0], 0x0B);
    let mut d = loaded(&[0xC0, 0x00, 0xC1, 0x0F]);
    assert_eq!(d.step(), Ok(Step::Running { redraw: false }));
    assert_eq!(d.memory().v[0], 0);
    assert_eq!(d.step(), Ok(Step::Running { redraw: false }));
    assert!(d.memory().v[1] <= 0x0F);
}

#[test]
fn keypad_instructions_are_stubs() {
    let mut c = Chip8::new();
    run(&mut c, &[0x6009, 0xE09E]);
    assert_eq!(c.memory().pc, 0x204);
    run(&mut c, &[0xE0A1]);
    assert_eq!(c.memory().pc, 0x206);
    run(&mut c, &[0xF00A]);
    assert_eq!(c.memory().v[0], 0);
}

#[test]
fn display_blit_row_wraps_and_reports() {
    let mut d = Display::new();
    assert!(!d.blit_row(60, 33, 0xFF));
    for x in [60usize, 61, 62, 63, 0, 1, 2, 3] {
        assert!(d.pixel(x, 1));
    }
    assert!(!d.pixel(4, 1));
    assert!(d.blit_row(0, 1, 0x80));
    assert!(!d.pixel(0, 1));
    d.clear();
    assert!(!d.pixel(60, 1));
}

#[test]
fn memory_starts_zeroed_and_loads_font() {
    let mut m = Memory::new();
    assert_eq!(m.pc, 0x200);
    assert!(m.ram.iter().all(|&b| b == 0));
    assert_eq!(m.load(&[1, 2, 3]), Ok(()));
    assert_eq!(&m.ram[0..5], &[0xF0, 0x90, 0x90, 0x90, 0xF0]);
    assert_eq!(&m.ram[75..80], &[0xF0, 0x80, 0xF0, 0x80, 0x80]);
    assert_eq!(&m.ram[0x200..0x204], &[1, 2, 3, 0]);
}

#[test]
fn memory_accessors_check_bounds() {
    let mut m = Memory::new();
    assert_eq!(m.write_byte(0x300, 0x12), Ok(()));
    assert_eq!(m.write_byte(0x301, 0x34), Ok(()));
    assert_eq!(m.read_byte(0x300), Ok(0x12));
    assert_eq!(m.read_word(0x300), Ok(0x1234));
    assert_eq!(m.read_word(4095), Err(Chip8Error::OutOfBoundsAccess));
    assert_eq!(m.read_byte(4096), Err(Chip8Error::OutOfBoundsAccess));
    assert_eq!(m.write_byte(4096, 1), Err(Chip8Error::OutOfBoundsAccess));
    assert_eq!(m.set_register(3, 9), Ok(()));
    assert_eq!(m.register(3), Ok(9));
    assert_eq!(m.register(16), Err(Chip8Error::OutOfBoundsAccess));
    assert_eq!(m.set_register(16, 1), Err(Chip8Error::OutOfBoundsAccess));
}
