use ch347_core::bits::load_le_u64;
use ch347_core::jtag::{tap_scan_start, JtagError, Jtager, Register};

/// Feeds every pending batch through a loopback: each clock samples the
/// TDI bit it drove out, read back from the outbound frame itself.
fn pump_loopback(j: &mut Jtager) {
    while j.pending_clocks() > 0 {
        let cmd = j.flush_command();
        let mut resp: Vec<u8> = vec![0, 0, 0];
        let mut k = 3;
        while k < cmd.len() {
            resp.push(if cmd[k] & 0x10 != 0 { 1 } else { 0 });
            k += 2;
        }
        j.apply_flush_response(&resp);
    }
}

#[test]
fn jtag_init_command_bytes() {
    assert_eq!(
        Jtager::init_command(4),
        vec![0xD0, 0x06, 0x00, 0x00, 4, 0x00, 0x00, 0x00, 0x00]
    );
}

#[test]
fn flush_command_encodes_reset_sequence() {
    let mut j = Jtager::new();
    j.reset_idle();
    assert_eq!(j.pending_clocks(), 6);
    let cmd = j.flush_command();
    // TMS-high clocks encode as 0x12/0x13 pairs, the final TMS-low one
    // as 0x10/0x11; two bytes per clock after the 3-byte header.
    assert_eq!(
        cmd,
        vec![
            0xD2, 12, 0, 0x12, 0x13, 0x12, 0x13, 0x12, 0x13, 0x12, 0x13, 0x12, 0x13, 0x10, 0x11
        ]
    );
}

#[test]
fn capture_count_matches_capture_flags() {
    // Six steering clocks capture nothing; 32 identifier clocks capture
    // everything, in submission order.
    let mut j = Jtager::new();
    j.reset_idle();
    j.queue_idcode_word();
    assert_eq!(j.pending_clocks(), 38);

    let mut resp: Vec<u8> = vec![0, 0, 0];
    for i in 0..38 {
        resp.push(if i % 2 == 0 { 1 } else { 0 });
    }
    j.apply_flush_response(&resp);
    assert_eq!(j.pending_clocks(), 0);
    assert_eq!(j.captured_len(), 32);

    let bits = j.drain_bits();
    for (k, bit) in bits.iter().enumerate() {
        // Bit k came from clock 6 + k.
        assert_eq!(*bit, (6 + k) % 2 == 0);
    }
    assert_eq!(j.captured_len(), 0);
}

#[test]
fn short_response_appends_only_sampled_bits() {
    let mut j = Jtager::new();
    j.queue_idcode_word();
    // Only 10 of the 32 clocks answered.
    let mut resp: Vec<u8> = vec![0, 0, 0];
    for _ in 0..10 {
        resp.push(1);
    }
    j.apply_flush_response(&resp);
    assert_eq!(j.captured_len(), 10);
}

#[test]
fn timeout_during_flush_leaves_buffer_undrained() {
    // A timed-out exchange is never applied: the bit buffer gains no
    // partial capture and the queue still holds the whole batch.
    let mut j = Jtager::new();
    j.write_dr(0xDEAD_BEEF, 32);
    let pending = j.pending_clocks();
    let _cmd = j.flush_command();
    // The transport timed out: no response is applied.
    assert_eq!(j.captured_len(), 0);
    assert_eq!(j.pending_clocks(), pending);
    assert_eq!(j.drain_bits(), Vec::<bool>::new());
}

#[test]
fn write_dr_loopback_returns_value() {
    let mut j = Jtager::new();
    j.write_dr(0xDEAD_BEEF, 32);
    pump_loopback(&mut j);
    let bits = j.drain_bits();
    assert_eq!(bits.len(), 32);
    assert_eq!(load_le_u64(&bits), 0xDEAD_BEEF);
}

#[test]
fn write_dr_loopback_masks_to_length() {
    let mut j = Jtager::new();
    j.write_dr(0xDEAD_BEEF, 16);
    pump_loopback(&mut j);
    let bits = j.drain_bits();
    assert_eq!(bits.len(), 16);
    assert_eq!(load_le_u64(&bits), 0xBEEF);
}

#[test]
fn write_ir_loopback_returns_instruction() {
    let mut j = Jtager::new();
    j.write_ir(0x0B, 4);
    pump_loopback(&mut j);
    let bits = j.drain_bits();
    assert_eq!(bits.len(), 4);
    assert_eq!(load_le_u64(&bits), 0x0B);
}

#[test]
fn write_dr_pads_around_selected_target() {
    // With one TAP before and one after the target, a 4-bit shift still
    // captures exactly the 4 data bits; padding is never captured.
    let mut j = Jtager::new();
    j.taps = vec![4, 5, 6];
    j.select_target(1).unwrap();
    j.write_dr(0x5, 4);
    // Enter Shift-DR (3) + 1 bypass bit + 4 data bits + 1 trailing
    // bypass bit + exit to Idle (2).
    assert_eq!(j.pending_clocks(), 11);
    pump_loopback(&mut j);
    let bits = j.drain_bits();
    assert_eq!(bits.len(), 4);
    assert_eq!(load_le_u64(&bits), 0x5);
}

#[test]
fn idcode_scan_stops_at_terminator() {
    // Simulated identifiers 0x1234 and 0x5678 are recorded; the all-ones
    // word terminates the scan and is not recorded.
    let mut idcodes: Vec<u32> = Vec::new();
    assert!(Jtager::idcode_step(&mut idcodes, 0x1234));
    assert!(Jtager::idcode_step(&mut idcodes, 0x5678));
    assert!(!Jtager::idcode_step(&mut idcodes, 0xFFFF_FFFF));
    assert_eq!(idcodes, vec![0x1234, 0x5678]);
}

#[test]
fn tap_scan_finds_ir_lengths() {
    // A captured stream whose run lengths are 4, 5 and 6: each register
    // starts with a one and pads with zeros; a repeated one ends it.
    let stream = [
        true, false, false, false, // run of 4
        true, false, false, false, false, // run of 5
        true, false, false, false, false, false, // run of 6
        true, true, // terminator
    ];
    let mut j = Jtager::new();
    let mut scan = tap_scan_start(stream[0]);
    let mut i = 1;
    loop {
        let cont = j.tap_scan_step(&mut scan, stream[i]);
        i += 1;
        if !cont {
            break;
        }
    }
    assert_eq!(j.taps, vec![4, 5, 6]);
    assert_eq!(i, stream.len());
}

#[test]
fn select_target_middle_of_three() {
    let mut j = Jtager::new();
    j.taps = vec![4, 5, 6];
    assert_eq!(j.select_target(1), Ok(()));
    assert_eq!(j.ir_pre, 4);
    assert_eq!(j.ir_pos, 6);
    assert_eq!(j.pre, 1);
    assert_eq!(j.pos, 1);
}

#[test]
fn select_target_ends_of_chain() {
    let mut j = Jtager::new();
    j.taps = vec![4, 5, 6];
    assert_eq!(j.select_target(0), Ok(()));
    assert_eq!((j.ir_pre, j.ir_pos, j.pre, j.pos), (0, 11, 0, 2));
    assert_eq!(j.select_target(2), Ok(()));
    assert_eq!((j.ir_pre, j.ir_pos, j.pre, j.pos), (9, 0, 2, 0));
}

#[test]
fn select_target_out_of_range() {
    let mut j = Jtager::new();
    j.taps = vec![4, 5, 6];
    assert_eq!(j.select_target(4), Err(JtagError::IndexOutOfRange));
    // The selection fields are untouched by the refusal.
    assert_eq!((j.ir_pre, j.ir_pos, j.pre, j.pos), (0, 0, 0, 0));
}

#[test]
fn access_ir_codes() {
    assert_eq!(Jtager::access_ir_code(&Register::Ap(0x00)), 0x0B);
    assert_eq!(Jtager::access_ir_code(&Register::Dp(0x0C)), 0x0A);
}

#[test]
fn access_dr_words() {
    // A read of DP offset 0x0C: header bits are offset>>1 with the
    // read bit set.
    assert_eq!(Jtager::access_dr_word(&Register::Dp(0x0C), None), 0x7);
    // A write puts the data above the 3 header bits.
    assert_eq!(
        Jtager::access_dr_word(&Register::Ap(0x04), Some(1)),
        (1 << 3) | 0x2
    );
}

#[test]
fn register_accessors() {
    assert!(Register::Ap(0x04).is_ap());
    assert!(!Register::Dp(0x04).is_ap());
    assert_eq!(Register::Ap(0x0C).l2_l3(), 0x0C);
    assert_eq!(Register::Dp(0x08).l2_l3(), 0x08);
}

#[test]
fn interpret_access_ok_on_ack_2() {
    // A 35-bit capture holding value 0xCAFEBABE above ack code 2.
    let word: u64 = (0xCAFE_BABEu64 << 3) | 2;
    let mut bits: Vec<bool> = Vec::new();
    for i in 0..35 {
        bits.push((word >> i) & 1 == 1);
    }
    assert_eq!(Jtager::interpret_access(&bits), Ok(0xCAFE_BABE));
}

#[test]
fn interpret_access_faults_on_other_acks() {
    for ack in [0u64, 1, 3, 4, 5, 6, 7] {
        let word: u64 = (0x1234_5678u64 << 3) | ack;
        let mut bits: Vec<bool> = Vec::new();
        for i in 0..35 {
            bits.push((word >> i) & 1 == 1);
        }
        assert_eq!(
            Jtager::interpret_access(&bits),
            Err(JtagError::AccessFault { ack: ack as u8 })
        );
    }
}

#[test]
fn pipelined_access_over_loopback() {
    // The full access pattern: select the instruction, shift the 35-bit
    // word twice, and interpret the second capture.  A loopback echoes
    // the shifted word itself, whose low bits are the header `...110`;
    // the ack field of the echo is 6, an access fault carrying code 6.
    let mut j = Jtager::new();
    j.write_ir(0x0A, 4);
    pump_loopback(&mut j);
    let _ = j.drain_bits();

    let word = Jtager::access_dr_word(&Register::Dp(0x0C), Some(0));
    j.write_dr(word, 35);
    pump_loopback(&mut j);
    let _stale = j.drain_bits();

    j.write_dr(word, 35);
    pump_loopback(&mut j);
    let bits = j.drain_bits();
    assert_eq!(bits.len(), 35);
    assert_eq!(
        Jtager::interpret_access(&bits),
        Err(JtagError::AccessFault { ack: 6 })
    );
}
