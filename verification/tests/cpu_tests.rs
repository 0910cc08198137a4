use chip_8_core::{Emu, EmuError, TickOutcome, TimerOutcome, MEMORY_SIZE, ROM_OFFSET, SCREEN_WIDTH};

#[test]
fn new_has_font_and_clear_state() {
    let e = Emu::new();
    assert_eq!(e.p_counter, 0x200);
    assert_eq!(e.read_byte(0), 0xF0);
    assert_eq!(e.read_byte(79), 0x80);
    assert_eq!(e.read_byte(80), 0);
    assert_eq!(e.read_byte(0x200), 0);
    assert_eq!(e.index_reg(), 0);
    assert_eq!(e.delay_timer(), 0);
    assert_eq!(e.sound_timer(), 0);
    assert!(e.framebuffer().iter().all(|&p| !p));
}

#[test]
fn scenario_add_three_ticks() {
    let mut e = Emu::new();
    e.load(&[0x60, 0x0A, 0x61, 0x05, 0x80, 0x14]).unwrap();
    assert_eq!(e.tick(), Ok(TickOutcome::Continued));
    assert_eq!(e.tick(), Ok(TickOutcome::Continued));
    assert_eq!(e.tick(), Ok(TickOutcome::Continued));
    assert_eq!(e.register(0), 15);
    assert_eq!(e.register(15), 0);
    assert_eq!(e.p_counter, 0x200 + 6);
}

#[test]
fn scenario_add_overflow() {
    let mut e = Emu::new();
    e.load(&[0x60, 0xFF, 0x61, 0x01, 0x80, 0x14]).unwrap();
    e.tick().unwrap();
    e.tick().unwrap();
    e.tick().unwrap();
    assert_eq!(e.register(0), 0);
    assert_eq!(e.register(15), 1);
}

#[test]
fn scenario_clear_after_draw() {
    // D005 draws glyph 0 (I starts at 0) at (V0, V0) = (0, 0); 00E0 clears.
    let mut e = Emu::new();
    e.load(&[0xD0, 0x05, 0x00, 0xE0]).unwrap();
    assert_eq!(e.tick(), Ok(TickOutcome::Redraw));
    assert!(e.framebuffer()[0]);
    assert_eq!(e.tick(), Ok(TickOutcome::Redraw));
    assert!(e.framebuffer().iter().all(|&p| !p));
}

#[test]
fn rom_too_large_leaves_memory_unchanged() {
    let mut e = Emu::new();
    let rom = vec![0xAB; MEMORY_SIZE - ROM_OFFSET + 1];
    assert_eq!(e.load(&rom), Err(EmuError::RomTooLarge));
    assert_eq!(e.read_byte(0x200), 0);
    assert_eq!(e.read_byte(MEMORY_SIZE - 1), 0);
    assert_eq!(e.read_byte(0), 0xF0);
    assert_eq!(e.p_counter, 0x200);
}

#[test]
fn rom_of_maximum_size_fits() {
    let mut e = Emu::new();
    let rom = vec![0xCD; MEMORY_SIZE - ROM_OFFSET];
    assert_eq!(e.load(&rom), Ok(()));
    assert_eq!(e.read_byte(0x200), 0xCD);
    assert_eq!(e.read_byte(MEMORY_SIZE - 1), 0xCD);
    assert_eq!(e.read_byte(0x1FF), 0);
}

#[test]
fn jump_sets_pc() {
    let mut e = Emu::new();
    e.load(&[0x1A, 0xBC]).unwrap();
    assert_eq!(e.tick(), Ok(TickOutcome::Continued));
    assert_eq!(e.p_counter, 0xABC);
}

#[test]
fn call_and_return() {
    let mut e = Emu::new();
    e.load(&[0x22, 0x04, 0x00, 0x00, 0x00, 0xEE]).unwrap();
    assert_eq!(e.tick(), Ok(TickOutcome::Continued));
    assert_eq!(e.p_counter, 0x204);
    assert_eq!(e.tick(), Ok(TickOutcome::Continued));
    assert_eq!(e.p_counter, 0x202);
}

#[test]
fn stack_overflow_on_seventeenth_call() {
    let mut e = Emu::new();
    e.load(&[0x22, 0x00]).unwrap();
    for _ in 0..16 {
        assert_eq!(e.tick(), Ok(TickOutcome::Continued));
        assert_eq!(e.p_counter, 0x200);
    }
    assert_eq!(e.tick(), Err(EmuError::StackOverflow));
}

#[test]
fn stack_underflow_on_bare_return() {
    let mut e = Emu::new();
    e.load(&[0x00, 0xEE]).unwrap();
    assert_eq!(e.tick(), Err(EmuError::StackUnderflow));
}

#[test]
fn unknown_instruction_carries_word() {
    let mut e = Emu::new();
    e.load(&[0x00, 0x00]).unwrap();
    assert_eq!(e.tick(), Err(EmuError::UnknownInstruction(0x0000)));

    let mut e2 = Emu::new();
    e2.load(&[0xFF, 0xFF]).unwrap();
    assert_eq!(e2.tick(), Err(EmuError::UnknownInstruction(0xFFFF)));
}

#[test]
fn skip_equal_immediate() {
    let mut e = Emu::new();
    e.load(&[0x60, 0x05, 0x30, 0x05]).unwrap();
    e.tick().unwrap();
    e.tick().unwrap();
    assert_eq!(e.p_counter, 0x202 + 4);

    let mut e2 = Emu::new();
    e2.load(&[0x60, 0x05, 0x30, 0x06]).unwrap();
    e2.tick().unwrap();
    e2.tick().unwrap();
    assert_eq!(e2.p_counter, 0x202 + 2);
}

#[test]
fn skip_not_equal_immediate() {
    let mut e = Emu::new();
    e.load(&[0x60, 0x05, 0x40, 0x06]).unwrap();
    e.tick().unwrap();
    e.tick().unwrap();
    assert_eq!(e.p_counter, 0x202 + 4);
}

#[test]
fn skip_on_register_compare() {
    let mut e = Emu::new();
    e.load(&[0x60, 0x07, 0x61, 0x07, 0x50, 0x10]).unwrap();
    e.tick().unwrap();
    e.tick().unwrap();
    e.tick().unwrap();
    assert_eq!(e.p_counter, 0x204 + 4);

    let mut e2 = Emu::new();
    e2.load(&[0x60, 0x07, 0x61, 0x08, 0x90, 0x10]).unwrap();
    e2.tick().unwrap();
    e2.tick().unwrap();
    e2.tick().unwrap();
    assert_eq!(e2.p_counter, 0x204 + 4);
}

#[test]
fn add_immediate_wraps_without_flag() {
    let mut e = Emu::new();
    e.load(&[0x70, 0xFF, 0x70, 0xFF]).unwrap();
    e.tick().unwrap();
    assert_eq!(e.register(0), 0xFF);
    e.tick().unwrap();
    assert_eq!(e.register(0), 0xFE);
    assert_eq!(e.register(15), 0);
}

#[test]
fn bitwise_register_ops() {
    let mut e = Emu::new();
    e.load(&[
        0x60, 0xF0, 0x61, 0x3C, 0x80, 0x11, // V0 |= V1
        0x62, 0xF0, 0x63, 0x3C, 0x82, 0x32, // V2 &= V3
        0x64, 0xF0, 0x65, 0x3C, 0x84, 0x53, // V4 ^= V5
        0x66, 0x12, 0x87, 0x60, // V7 = V6
    ])
    .unwrap();
    for _ in 0..11 {
        e.tick().unwrap();
    }
    assert_eq!(e.register(0), 0xF0 | 0x3C);
    assert_eq!(e.register(2), 0xF0 & 0x3C);
    assert_eq!(e.register(4), 0xF0 ^ 0x3C);
    assert_eq!(e.register(7), 0x12);
}

#[test]
fn subtract_sets_no_borrow_flag() {
    let mut e = Emu::new();
    e.load(&[0x60, 0x0A, 0x61, 0x03, 0x80, 0x15]).unwrap();
    e.tick().unwrap();
    e.tick().unwrap();
    e.tick().unwrap();
    assert_eq!(e.register(0), 7);
    assert_eq!(e.register(15), 1);

    let mut e2 = Emu::new();
    e2.load(&[0x60, 0x03, 0x61, 0x0A, 0x80, 0x15]).unwrap();
    e2.tick().unwrap();
    e2.tick().unwrap();
    e2.tick().unwrap();
    assert_eq!(e2.register(0), 0xF9);
    assert_eq!(e2.register(15), 0);
}

#[test]
fn reverse_subtract() {
    let mut e = Emu::new();
    e.load(&[0x60, 0x03, 0x61, 0x0A, 0x80, 0x17]).unwrap();
    e.tick().unwrap();
    e.tick().unwrap();
    e.tick().unwrap();
    assert_eq!(e.register(0), 7);
    assert_eq!(e.register(15), 1);
}

#[test]
fn shifts_capture_edge_bits() {
    let mut e = Emu::new();
    e.load(&[0x60, 0x05, 0x80, 0x06]).unwrap();
    e.tick().unwrap();
    e.tick().unwrap();
    assert_eq!(e.register(0), 2);
    assert_eq!(e.register(15), 1);

    let mut e2 = Emu::new();
    e2.load(&[0x60, 0x81, 0x80, 0x0E]).unwrap();
    e2.tick().unwrap();
    e2.tick().unwrap();
    assert_eq!(e2.register(0), 2);
    assert_eq!(e2.register(15), 1);
}

#[test]
fn set_index_and_jump_offset() {
    let mut e = Emu::new();
    e.load(&[0xA1, 0x23]).unwrap();
    e.tick().unwrap();
    assert_eq!(e.index_reg(), 0x123);

    let mut e2 = Emu::new();
    e2.load(&[0x60, 0x10, 0xB3, 0x00]).unwrap();
    e2.tick().unwrap();
    e2.tick().unwrap();
    assert_eq!(e2.p_counter, 0x310);
}

#[test]
fn random_is_masked_and_deterministic() {
    // The generator starts from seed 1; its first step yields
    // (1 * 25173 + 13849) % 65536 = 39022 = 0x986E, whose high byte is 0x98.
    let mut e = Emu::new();
    e.load(&[0xC0, 0xFF, 0xC1, 0x0F]).unwrap();
    e.tick().unwrap();
    assert_eq!(e.register(0), 0x98);
    e.tick().unwrap();
    assert_eq!(e.register(1) & 0xF0, 0);
}

#[test]
fn draw_twice_cancels_and_collides() {
    let mut e = Emu::new();
    e.load(&[0xD0, 0x05, 0xD0, 0x05]).unwrap();
    assert_eq!(e.tick(), Ok(TickOutcome::Redraw));
    // glyph 0, first row 0xF0: pixels (0..4, 0) are set
    assert!(e.framebuffer()[0] && e.framebuffer()[1] && e.framebuffer()[2] && e.framebuffer()[3]);
    assert!(!e.framebuffer()[4]);
    assert_eq!(e.register(15), 0);
    assert_eq!(e.tick(), Ok(TickOutcome::Redraw));
    assert_eq!(e.register(15), 1);
    assert!(e.framebuffer().iter().all(|&p| !p));
}

#[test]
fn draw_wraps_at_screen_edge() {
    let mut e = Emu::new();
    // V0 = 62, V1 = 0; draw one row of glyph 0 (0xF0) at (62, 0)
    e.load(&[0x60, 0x3E, 0x61, 0x00, 0xD0, 0x11]).unwrap();
    e.tick().unwrap();
    e.tick().unwrap();
    assert_eq!(e.tick(), Ok(TickOutcome::Redraw));
    let fb = e.framebuffer();
    assert!(fb[62] && fb[63] && fb[0] && fb[1]);
    assert!(!fb[2] && !fb[61]);
    assert!(!fb[SCREEN_WIDTH + 62]);
}

#[test]
fn draw_out_of_memory_range_is_reported() {
    let mut e = Emu::new();
    e.load(&[0xAF, 0xFF, 0xD0, 0x02]).unwrap();
    e.tick().unwrap();
    assert_eq!(e.tick(), Err(EmuError::IndexOutOfRange));
}

#[test]
fn glyph_address_is_five_bytes_per_digit() {
    let mut e = Emu::new();
    e.load(&[0x60, 0x0A, 0xF0, 0x29]).unwrap();
    e.tick().unwrap();
    e.tick().unwrap();
    assert_eq!(e.index_reg(), 50);
    assert_eq!(e.read_byte(50), 0xF0);
}

#[test]
fn bcd_store_round_trips() {
    let mut e = Emu::new();
    e.load(&[0x60, 0xEA, 0xA3, 0x00, 0xF0, 0x33]).unwrap();
    e.tick().unwrap();
    e.tick().unwrap();
    e.tick().unwrap();
    assert_eq!(e.read_byte(0x300), 2);
    assert_eq!(e.read_byte(0x301), 3);
    assert_eq!(e.read_byte(0x302), 4);
    let reconstructed =
        100 * e.read_byte(0x300) as u16 + 10 * e.read_byte(0x301) as u16 + e.read_byte(0x302) as u16;
    assert_eq!(reconstructed, 0xEA);
}

#[test]
fn store_and_load_register_block() {
    let mut e = Emu::new();
    e.load(&[
        0x60, 0x11, 0x61, 0x22, 0x62, 0x33, 0xA3, 0x00, 0xF2, 0x55, // store V0..=V2
        0x60, 0x00, 0x61, 0x00, 0x62, 0x00, // clear them
        0xF2, 0x65, // load V0..=V2 back
    ])
    .unwrap();
    for _ in 0..9 {
        e.tick().unwrap();
    }
    assert_eq!(e.read_byte(0x300), 0x11);
    assert_eq!(e.read_byte(0x301), 0x22);
    assert_eq!(e.read_byte(0x302), 0x33);
    assert_eq!(e.register(0), 0x11);
    assert_eq!(e.register(1), 0x22);
    assert_eq!(e.register(2), 0x33);
    assert_eq!(e.read_byte(0x303), 0);
}

#[test]
fn register_block_out_of_range_is_reported() {
    let mut e = Emu::new();
    e.load(&[0xAF, 0xFF, 0xF1, 0x55]).unwrap();
    e.tick().unwrap();
    assert_eq!(e.tick(), Err(EmuError::IndexOutOfRange));

    let mut e2 = Emu::new();
    e2.load(&[0xAF, 0xFE, 0xF0, 0x33]).unwrap();
    e2.tick().unwrap();
    assert_eq!(e2.tick(), Err(EmuError::IndexOutOfRange));
}

#[test]
fn add_index_is_sixteen_bit() {
    let mut e = Emu::new();
    e.load(&[0x60, 0x05, 0xA1, 0x00, 0xF0, 0x1E]).unwrap();
    e.tick().unwrap();
    e.tick().unwrap();
    e.tick().unwrap();
    assert_eq!(e.index_reg(), 0x105);
    assert_eq!(e.register(15), 0);
}

#[test]
fn key_wait_blocks_until_pressed() {
    let mut e = Emu::new();
    e.load(&[0xF0, 0x0A]).unwrap();
    assert_eq!(e.tick(), Ok(TickOutcome::Blocked));
    assert_eq!(e.tick(), Ok(TickOutcome::Blocked));
    assert_eq!(e.p_counter, 0x200);
    e.set_key(7, true);
    assert_eq!(e.tick(), Ok(TickOutcome::Continued));
    assert_eq!(e.register(0), 7);
    assert_eq!(e.p_counter, 0x202);
}

#[test]
fn key_wait_resolves_to_lowest_pressed_key() {
    let mut e = Emu::new();
    e.load(&[0xF0, 0x0A]).unwrap();
    assert_eq!(e.tick(), Ok(TickOutcome::Blocked));
    e.set_key(9, true);
    e.set_key(4, true);
    assert_eq!(e.tick(), Ok(TickOutcome::Continued));
    assert_eq!(e.register(0), 4);
}

#[test]
fn key_wait_immediate_when_already_pressed() {
    let mut e = Emu::new();
    e.load(&[0xF0, 0x0A]).unwrap();
    e.set_key(2, true);
    assert_eq!(e.tick(), Ok(TickOutcome::Continued));
    assert_eq!(e.register(0), 2);
    assert_eq!(e.p_counter, 0x202);
}

#[test]
fn skip_on_key_state() {
    let mut e = Emu::new();
    e.load(&[0x60, 0x03, 0xE0, 0x9E]).unwrap();
    e.tick().unwrap();
    e.set_key(3, true);
    e.tick().unwrap();
    assert_eq!(e.p_counter, 0x202 + 4);

    let mut e2 = Emu::new();
    e2.load(&[0x60, 0x03, 0xE0, 0xA1]).unwrap();
    e2.tick().unwrap();
    e2.tick().unwrap();
    assert_eq!(e2.p_counter, 0x202 + 4);
}

#[test]
fn delay_timer_set_and_read() {
    let mut e = Emu::new();
    e.load(&[0x60, 0x02, 0xF0, 0x15, 0xF1, 0x07]).unwrap();
    e.tick().unwrap();
    e.tick().unwrap();
    assert_eq!(e.delay_timer(), 2);
    e.tick().unwrap();
    assert_eq!(e.register(1), 2);
}

#[test]
fn timer_ticks_report_sound_edges() {
    let mut e = Emu::new();
    assert_eq!(e.tick_timers(), TimerOutcome::NoChange);
    e.load(&[0x60, 0x02, 0xF0, 0x18, 0xF0, 0x15]).unwrap();
    e.tick().unwrap();
    e.tick().unwrap();
    e.tick().unwrap();
    assert_eq!(e.sound_timer(), 2);
    assert_eq!(e.delay_timer(), 2);
    assert_eq!(e.tick_timers(), TimerOutcome::SoundStarted);
    assert_eq!(e.sound_timer(), 1);
    assert_eq!(e.delay_timer(), 1);
    assert_eq!(e.tick_timers(), TimerOutcome::SoundStopped);
    assert_eq!(e.sound_timer(), 0);
    assert_eq!(e.delay_timer(), 0);
    assert_eq!(e.tick_timers(), TimerOutcome::NoChange);
    assert_eq!(e.delay_timer(), 0);
}

#[test]
fn reset_restores_construction_state() {
    let mut e = Emu::new();
    e.load(&[0x60, 0x55, 0xA1, 0x23, 0xD0, 0x05]).unwrap();
    e.tick().unwrap();
    e.tick().unwrap();
    e.tick().unwrap();
    e.set_key(3, true);
    e.reset();
    assert_eq!(e.p_counter, 0x200);
    assert_eq!(e.register(0), 0);
    assert_eq!(e.index_reg(), 0);
    assert_eq!(e.read_byte(0x200), 0);
    assert_eq!(e.read_byte(0), 0xF0);
    assert!(e.framebuffer().iter().all(|&p| !p));
}

#[test]
fn fetch_past_end_of_memory_is_reported() {
    let mut e = Emu::new();
    e.load(&[0x1F, 0xFF]).unwrap();
    e.tick().unwrap();
    assert_eq!(e.p_counter, 0xFFF);
    assert_eq!(e.tick(), Err(EmuError::IndexOutOfRange));
}

#[test]
fn draw_of_zero_rows_reports_redraw_only() {
    let mut e = Emu::new();
    e.load(&[0xD0, 0x00]).unwrap();
    assert_eq!(e.tick(), Ok(TickOutcome::Redraw));
    assert!(e.framebuffer().iter().all(|&p| !p));
    assert_eq!(e.register(15), 0);
}

#[test]
fn releasing_a_key_keeps_the_wait_blocked() {
    let mut e = Emu::new();
    e.load(&[0xF0, 0x0A]).unwrap();
    assert_eq!(e.tick(), Ok(TickOutcome::Blocked));
    e.set_key(5, true);
    e.set_key(5, false);
    assert_eq!(e.tick(), Ok(TickOutcome::Blocked));
    assert_eq!(e.p_counter, 0x200);
}

#[test]
fn sound_timer_of_one_reports_stop_on_first_tick() {
    let mut e = Emu::new();
    e.load(&[0x60, 0x01, 0xF0, 0x18]).unwrap();
    e.tick().unwrap();
    e.tick().unwrap();
    assert_eq!(e.sound_timer(), 1);
    assert_eq!(e.tick_timers(), TimerOutcome::SoundStopped);
    assert_eq!(e.sound_timer(), 0);
}

#[test]
fn clearing_sound_timer_reports_no_edge() {
    let mut e = Emu::new();
    e.load(&[0x60, 0x02, 0xF0, 0x18, 0x61, 0x00, 0xF1, 0x18]).unwrap();
    e.tick().unwrap();
    e.tick().unwrap();
    assert_eq!(e.tick_timers(), TimerOutcome::SoundStarted);
    e.tick().unwrap();
    e.tick().unwrap();
    assert_eq!(e.sound_timer(), 0);
    assert_eq!(e.tick_timers(), TimerOutcome::NoChange);
}

#[test]
fn pc_accessor_matches_field() {
    let mut e = Emu::new();
    assert_eq!(e.pc(), 0x200);
    e.load(&[0x1A, 0xBC]).unwrap();
    e.tick().unwrap();
    assert_eq!(e.pc(), 0xABC);
    assert_eq!(e.pc(), e.p_counter);
}
