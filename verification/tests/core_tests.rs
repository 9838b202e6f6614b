use crust8cean::Chip8Error;
use crust8cean::Config;
use crust8cean::Cpu;
use crust8cean::Keymap;
use crust8cean::MiniFbDisplay;
use crust8cean::MAX_PROGRAM_SIZE;

fn init(program: Vec<u8>) -> Cpu {
    Cpu::new(&program, Config::new(false, true, 0xFFFFFF, true)).unwrap()
}

fn tick(cpu: &mut Cpu) {
    let keys = vec![false; 16];
    cpu.run(&keys, true);
}

#[test]
fn test_config_new() {
    let c = Config::new(true, false, 0xABCDEF, false);
    assert_eq!(c.debug, true);
    assert_eq!(c.render_screen, false);
    assert_eq!(c.initial_color, 0xABCDEF);
    assert_eq!(c.play_sound, false);
}

#[test]
fn test_font_loaded_low_memory() {
    let cpu = init(vec![]);
    assert_eq!(cpu.read(0).unwrap(), 0xF0);
    assert_eq!(cpu.read(79).unwrap(), 0x80);
    assert_eq!(cpu.read(80).unwrap(), 0);
    assert_eq!(cpu.read(0x1FF).unwrap(), 0);
}

#[test]
fn test_empty_program_executes_nop() {
    let mut cpu = init(vec![]);
    tick(&mut cpu);
    assert_eq!(cpu.program_counter, 0x202);
    assert!(cpu.is_running());
}

#[test]
fn test_program_too_large_rejected() {
    let big = vec![0u8; MAX_PROGRAM_SIZE + 1];
    match Cpu::new(&big, Config::new(false, true, 0xFFFFFF, true)) {
        Ok(_) => panic!("oversized program accepted"),
        Err(e) => assert_eq!(e, Chip8Error::OutOfBoundsAccess),
    }
}

#[test]
fn test_largest_program_accepted() {
    let big = vec![0u8; MAX_PROGRAM_SIZE];
    assert!(Cpu::new(&big, Config::new(false, true, 0xFFFFFF, true)).is_ok());
}

#[test]
fn test_memory_read_write_bounds() {
    let mut cpu = init(vec![]);
    assert!(cpu.read(4095).is_ok());
    assert_eq!(cpu.read(4096), Err(Chip8Error::OutOfBoundsAccess));
    assert!(cpu.write(0x300, 7).is_ok());
    assert_eq!(cpu.read(0x300).unwrap(), 7);
    assert_eq!(cpu.write(4096, 7), Err(Chip8Error::OutOfBoundsAccess));
}

#[test]
fn test_read_word_big_endian() {
    let cpu = init(vec![0xAB, 0xCD]);
    assert_eq!(cpu.read_word(0x200).unwrap(), 0xABCD);
    assert_eq!(cpu.read_word(4095), Err(Chip8Error::OutOfBoundsAccess));
}

#[test]
fn test_stack_underflow_halts() {
    let mut cpu = init(vec![0x00, 0xEE]);
    tick(&mut cpu);
    assert!(!cpu.is_running());
    assert_eq!(cpu.fault, Some(Chip8Error::StackUnderflow));
}

#[test]
fn test_stack_overflow_error() {
    let mut cpu = init(vec![]);
    for k in 0..16 {
        assert!(cpu.push(k as u16).is_ok());
    }
    assert_eq!(cpu.push(99), Err(Chip8Error::StackOverflow));
    assert_eq!(cpu.pop().unwrap(), 15);
}

#[test]
fn test_pop_empty_stack_error() {
    let mut cpu = init(vec![]);
    assert_eq!(cpu.pop(), Err(Chip8Error::StackUnderflow));
}

#[test]
fn test_unrecognized_opcode_halts() {
    let mut cpu = init(vec![0xFF, 0xFF]);
    tick(&mut cpu);
    assert!(!cpu.is_running());
    assert_eq!(cpu.fault, Some(Chip8Error::UnrecognizedOpcode));
}

#[test]
fn test_jump_to_last_byte_is_out_of_bounds() {
    let mut cpu = init(vec![0x1F, 0xFF]);
    tick(&mut cpu);
    assert!(!cpu.is_running());
    assert_eq!(cpu.fault, Some(Chip8Error::OutOfBoundsAccess));
}

#[test]
fn test_self_jump_finishes_run() {
    // JMP 0x200 stored at 0x200: a deliberate termination signal.
    let mut cpu = init(vec![0x12, 0x00]);
    tick(&mut cpu);
    assert!(!cpu.is_running());
    assert_eq!(cpu.fault, None);
    assert_eq!(cpu.program_counter, 0x200);
}

#[test]
fn test_dead_machine_ignores_ticks() {
    let mut cpu = init(vec![0x12, 0x00]);
    tick(&mut cpu);
    assert_eq!(cpu.get_total_cycles(), 1);
    tick(&mut cpu);
    assert_eq!(cpu.get_total_cycles(), 1);
}

#[test]
fn test_rnd_masked_with_zero() {
    let mut cpu = init(vec![0xC0, 0x00]);
    cpu.registers[0] = 0xAA;
    tick(&mut cpu);
    assert_eq!(cpu.registers[0], 0);
}

#[test]
fn test_bcd_decomposition() {
    let mut cpu = init(vec![0xF0, 0x33]);
    cpu.registers[0] = 234;
    cpu.i = 0x300;
    tick(&mut cpu);
    assert_eq!(cpu.read(0x300).unwrap(), 2);
    assert_eq!(cpu.read(0x301).unwrap(), 3);
    assert_eq!(cpu.read(0x302).unwrap(), 4);
}

#[test]
fn test_add_i_vx_range_flag() {
    let mut cpu = init(vec![0xF0, 0x1E]);
    cpu.registers[0] = 1;
    cpu.i = 0xF00;
    tick(&mut cpu);
    assert_eq!(cpu.i, 0xF01);
    assert_eq!(cpu.registers[0x0F], 1);
}

#[test]
fn test_store_registers_to_memory() {
    let mut cpu = init(vec![0xF2, 0x55]);
    cpu.registers[0] = 1;
    cpu.registers[1] = 2;
    cpu.registers[2] = 3;
    cpu.registers[3] = 4;
    cpu.i = 0x300;
    tick(&mut cpu);
    assert_eq!(cpu.read(0x300).unwrap(), 1);
    assert_eq!(cpu.read(0x301).unwrap(), 2);
    assert_eq!(cpu.read(0x302).unwrap(), 3);
    // V3 is past the named range and must not be stored
    assert_eq!(cpu.read(0x303).unwrap(), 0);
}

#[test]
fn test_load_registers_from_memory() {
    let mut cpu = init(vec![0xF2, 0x65]);
    cpu.write(0x300, 9).unwrap();
    cpu.write(0x301, 8).unwrap();
    cpu.write(0x302, 7).unwrap();
    cpu.write(0x303, 6).unwrap();
    cpu.registers[3] = 0xEE;
    cpu.i = 0x300;
    tick(&mut cpu);
    assert_eq!(cpu.registers[0], 9);
    assert_eq!(cpu.registers[1], 8);
    assert_eq!(cpu.registers[2], 7);
    // V3 is past the named range and must keep its value
    assert_eq!(cpu.registers[3], 0xEE);
}

#[test]
fn test_sub_equal_operands_flag_clear() {
    let mut cpu = init(vec![0x80, 0x15]);
    cpu.registers[0] = 5;
    cpu.registers[1] = 5;
    tick(&mut cpu);
    assert_eq!(cpu.registers[0], 0);
    assert_eq!(cpu.registers[0x0F], 0);
}

#[test]
fn test_draw_sets_pixels_no_collision() {
    // I = 0: the first font scanline is 0xF0
    let mut cpu = init(vec![0xD0, 0x01]);
    tick(&mut cpu);
    assert_eq!(cpu.display.read(0), 1);
    assert_eq!(cpu.display.read(1), 1);
    assert_eq!(cpu.display.read(2), 1);
    assert_eq!(cpu.display.read(3), 1);
    assert_eq!(cpu.display.read(4), 0);
    assert_eq!(cpu.registers[0x0F], 0);
}

#[test]
fn test_draw_twice_restores_and_flags_collision() {
    let mut cpu = init(vec![0xD0, 0x01, 0xD0, 0x01]);
    tick(&mut cpu);
    tick(&mut cpu);
    for p in 0..8 {
        assert_eq!(cpu.display.read(p), 0);
    }
    assert_eq!(cpu.registers[0x0F], 1);
}

#[test]
fn test_draw_wraps_around_edges() {
    // Draw at column 62: pixels wrap to columns 62, 63, 0, 1.
    let mut cpu = init(vec![0xD0, 0x11]);
    cpu.registers[0] = 62;
    cpu.registers[1] = 0;
    tick(&mut cpu);
    assert_eq!(cpu.display.read(62), 1);
    assert_eq!(cpu.display.read(63), 1);
    assert_eq!(cpu.display.read(0), 1);
    assert_eq!(cpu.display.read(1), 1);
}

#[test]
fn test_clear_screen() {
    let mut cpu = init(vec![0xD0, 0x01, 0x00, 0xE0]);
    tick(&mut cpu);
    assert_eq!(cpu.display.read(0), 1);
    tick(&mut cpu);
    for p in 0..8 {
        assert_eq!(cpu.display.read(p), 0);
    }
}

#[test]
fn test_skip_if_key_pressed() {
    let mut cpu = init(vec![0xE0, 0x9E]);
    cpu.registers[0] = 4;
    let mut keys = vec![false; 16];
    keys[4] = true;
    cpu.run(&keys, false);
    assert_eq!(cpu.program_counter, 0x204);
}

#[test]
fn test_skip_if_key_not_pressed() {
    let mut cpu = init(vec![0xE0, 0xA1]);
    cpu.registers[0] = 4;
    let keys = vec![false; 16];
    cpu.run(&keys, false);
    assert_eq!(cpu.program_counter, 0x204);
}

#[test]
fn test_key_wait_blocks_until_press() {
    let mut cpu = init(vec![0xF5, 0x0A, 0x00, 0x00]);
    tick(&mut cpu);
    assert_eq!(cpu.program_counter, 0x202);
    // no key: the machine waits, executing nothing
    tick(&mut cpu);
    assert_eq!(cpu.program_counter, 0x202);
    // key 7 pressed: resolved into V5, still no instruction this tick
    let mut keys = vec![false; 16];
    keys[7] = true;
    cpu.run(&keys, false);
    assert_eq!(cpu.registers[5], 7);
    assert_eq!(cpu.program_counter, 0x202);
    // the next tick executes again
    tick(&mut cpu);
    assert_eq!(cpu.program_counter, 0x204);
}

#[test]
fn test_key_wait_lowest_index_wins() {
    let mut cpu = init(vec![0xF0, 0x0A]);
    tick(&mut cpu);
    let mut keys = vec![false; 16];
    keys[9] = true;
    keys[3] = true;
    cpu.run(&keys, false);
    assert_eq!(cpu.registers[0], 3);
}

#[test]
fn test_timers_saturate_at_zero() {
    let mut cpu = init(vec![0x00, 0x00, 0x00, 0x00]);
    cpu.delay_timer = 1;
    tick(&mut cpu);
    assert_eq!(cpu.delay_timer, 0);
    tick(&mut cpu);
    assert_eq!(cpu.delay_timer, 0);
}

#[test]
fn test_timer_untouched_when_not_due() {
    let mut cpu = init(vec![0x00, 0x00]);
    cpu.delay_timer = 5;
    let keys = vec![false; 16];
    cpu.run(&keys, false);
    assert_eq!(cpu.delay_timer, 5);
}

#[test]
fn test_sound_timer_signals_tone() {
    let mut cpu = init(vec![0x00, 0x00, 0x00, 0x00, 0x00, 0x00]);
    cpu.sound_timer = 2;
    let keys = vec![false; 16];
    assert!(cpu.run(&keys, true));
    assert_eq!(cpu.sound_timer, 1);
    assert!(cpu.run(&keys, true));
    assert_eq!(cpu.sound_timer, 0);
    assert!(!cpu.run(&keys, true));
}

#[test]
fn test_sound_disabled_by_config() {
    let program = vec![0x00, 0x00];
    let mut cpu = Cpu::new(&program, Config::new(false, true, 0xFFFFFF, false)).unwrap();
    cpu.sound_timer = 2;
    let keys = vec![false; 16];
    assert!(!cpu.run(&keys, true));
    assert_eq!(cpu.sound_timer, 1);
}

#[test]
fn test_total_cycles_counted() {
    let mut cpu = init(vec![0x00, 0x00, 0x00, 0x00]);
    assert_eq!(cpu.get_total_cycles(), 0);
    tick(&mut cpu);
    tick(&mut cpu);
    assert_eq!(cpu.get_total_cycles(), 2);
}

#[test]
fn test_render_is_pull_based() {
    let mut cpu = init(vec![]);
    assert_eq!(cpu.get_times_screen_rendered(), 0);
    let frame = cpu.display.render().expect("fresh machine is dirty");
    assert_eq!(frame.len(), 2048);
    assert_eq!(cpu.get_times_screen_rendered(), 1);
    assert!(cpu.display.render().is_none());
    assert_eq!(cpu.get_times_screen_rendered(), 1);
}

#[test]
fn test_render_paints_lit_cells() {
    let mut d = MiniFbDisplay::new(0x00FF00);
    d.write(5, 1);
    d.set_redraw(true);
    let frame = d.render().unwrap();
    assert_eq!(frame[5], 0x00FF00);
    assert_eq!(frame[4], 0);
}

#[test]
fn test_change_color_cycles_palette() {
    let mut d = MiniFbDisplay::new(0xFFFFFF);
    d.write(0, 1);
    d.change_color();
    d.set_redraw(true);
    let frame = d.render().unwrap();
    assert_eq!(frame[0], 0xFF0000);
}

#[test]
fn test_change_color_wraps_palette() {
    let mut d = MiniFbDisplay::new(0x808080);
    d.write(0, 1);
    d.change_color();
    d.set_redraw(true);
    let frame = d.render().unwrap();
    assert_eq!(frame[0], 0xFFFFFF);
}

#[test]
fn test_change_color_keeps_unknown_color() {
    let mut d = MiniFbDisplay::new(0x123456);
    d.write(0, 1);
    d.change_color();
    d.set_redraw(true);
    let frame = d.render().unwrap();
    assert_eq!(frame[0], 0x123456);
}

#[test]
fn test_display_clear_marks_dirty_only_if_lit() {
    let mut d = MiniFbDisplay::new(0xFFFFFF);
    d.clear();
    assert!(d.render().is_none());
    d.write(0, 1);
    d.clear();
    let frame = d.render().unwrap();
    assert_eq!(frame[0], 0);
}

#[test]
fn test_keymap_await_and_tiebreak() {
    let mut k = Keymap::new();
    assert!(!k.is_awaiting_keypress());
    k.set_awaiting_keypress(true);
    k.set_awaiting_keypress_register(3);
    assert!(k.is_awaiting_keypress());
    assert_eq!(k.get_awaiting_keypress_register(), 3);
    assert_eq!(k.await_keypress(), None);
    assert!(k.is_awaiting_keypress());
    let mut keys = vec![false; 16];
    keys[2] = true;
    keys[11] = true;
    k.update(&keys);
    assert!(k.is_key_pressed(2));
    assert!(!k.is_key_pressed(3));
    assert_eq!(k.await_keypress(), Some(2));
    assert!(!k.is_awaiting_keypress());
}
