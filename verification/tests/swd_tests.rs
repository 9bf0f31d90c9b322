use ch347_core::swd::{
    decode_header, header_byte_for, parse_read_response, parse_write_response, SubCommand,
    SwdCommandSeq, SwdError,
};

#[test]
fn header_roundtrip_read_dp_0c() {
    // A RegisterRead of DP offset 0x0C: decoding its header recovers the
    // address bits [3:2], the port and the direction.
    let header = header_byte_for(0x0C, true, true);
    assert_eq!(decode_header(header), Some((0x0C, true, true)));
}

#[test]
fn header_roundtrip_all_offsets() {
    for offset in [0x00u8, 0x04, 0x08, 0x0C] {
        for is_dp in [false, true] {
            for is_read in [false, true] {
                let header = header_byte_for(offset, is_dp, is_read);
                assert_eq!(decode_header(header), Some((offset, is_dp, is_read)));
            }
        }
    }
}

#[test]
fn header_idcode_read_is_a5() {
    // The canonical SWD header for reading DP register 0 (IDCODE).
    assert_eq!(header_byte_for(0x00, true, true), 0xA5);
}

#[test]
fn decode_rejects_malformed() {
    // Park bit cleared.
    assert_eq!(decode_header(0x25), None);
    // Start bit cleared.
    assert_eq!(decode_header(0xA4), None);
    // Parity bit flipped on the IDCODE read header.
    assert_eq!(decode_header(0xA5 ^ 0x20), None);
}

#[test]
fn write_parity_zero_word() {
    let seq = SwdCommandSeq::new();
    let frame = seq.write_dp_reg(0x00, 0x0000_0000);
    assert_eq!(*frame.last().unwrap(), 0);
}

#[test]
fn write_parity_all_ones_word() {
    // 32 set bits: an even count, so the parity byte is 0 as well.
    let seq = SwdCommandSeq::new();
    let frame = seq.write_dp_reg(0x00, 0xFFFF_FFFF);
    assert_eq!(*frame.last().unwrap(), 0);
}

#[test]
fn write_parity_odd_words() {
    let seq = SwdCommandSeq::new();
    assert_eq!(*seq.write_dp_reg(0, 0x0000_0001).last().unwrap(), 1);
    assert_eq!(*seq.write_dp_reg(0, 0x8000_0000).last().unwrap(), 1);
    assert_eq!(*seq.write_ap_reg(4, 0x0000_0007).last().unwrap(), 1);
    assert_eq!(*seq.write_ap_reg(4, 0x0000_0003).last().unwrap(), 0);
}

#[test]
fn write_reg_frame_layout() {
    let seq = SwdCommandSeq::new();
    let frame = seq.write_dp_reg(0x04, 0x1234_5678);
    let header = header_byte_for(0x04, true, false);
    assert_eq!(
        frame,
        vec![0xE8, 9, 0, 0xA0, 0x29, 0x00, header, 0x78, 0x56, 0x34, 0x12, 1]
    );
}

#[test]
fn read_reg_frame_layout() {
    let seq = SwdCommandSeq::new();
    assert_eq!(seq.read_dp_reg(0x00), vec![0xE8, 4, 0, 0xA2, 0x22, 0, 0xA5]);
    let ap_header = header_byte_for(0x0C, false, true);
    assert_eq!(
        seq.read_ap_reg(0x0C),
        vec![0xE8, 4, 0, 0xA2, 0x22, 0, ap_header]
    );
}

#[test]
fn push_take_and_flush_batch() {
    let mut seq = SwdCommandSeq::new();
    seq.push(SubCommand::RegR { address: 0x00, is_dp: true });
    seq.push(SubCommand::RegW { address: 0x04, is_dp: true, data: 0x0000_0001 });
    // One read earns 7 response bytes, one write 2.
    assert_eq!(seq.pending_response_len(), 9);

    let bytes = seq.take();
    let read_header = header_byte_for(0x00, true, true);
    let write_header = header_byte_for(0x04, true, false);
    let mut expected = vec![0xA2, 0x22, 0x00, read_header];
    expected.extend_from_slice(&[0xA0, 0x29, 0x00, write_header, 1, 0, 0, 0, 1]);
    assert_eq!(bytes, expected);

    // take leaves the queue as it was; flush prefixes and clears it.
    let frame = seq.flush();
    assert_eq!(frame[0], 0xE8);
    assert_eq!(frame[1], expected.len() as u8);
    assert_eq!(frame[2], 0);
    assert_eq!(&frame[3..], &expected[..]);
    assert_eq!(seq.pending_response_len(), 0);
    assert_eq!(seq.take(), Vec::<u8>::new());
}

#[test]
fn seq_frame_layout() {
    let seq = SwdCommandSeq::new();
    let frame = seq.seq(&[0xAB, 0xCD]);
    // Subcommand length 5, bit length 16.
    assert_eq!(frame, vec![0xE8, 5, 0, 0xA1, 16, 0, 0xAB, 0xCD]);
}

#[test]
fn reset_and_idle_frames() {
    let seq = SwdCommandSeq::new();
    assert_eq!(
        seq.reset(),
        vec![0xE8, 10, 0, 0xA1, 56, 0, 0xFF, 0xFF, 0xFF, 0xFF, 0xFF, 0xFF, 0xFF]
    );
    assert_eq!(seq.idle(), vec![0xE8, 4, 0, 0xA1, 8, 0, 0x00]);
    let both = seq.reset_and_idle();
    assert_eq!(both.len(), 2);
    assert_eq!(both[0], seq.reset());
    assert_eq!(both[1], seq.idle());
}

#[test]
fn jtag_to_swd_frames() {
    let seq = SwdCommandSeq::new();
    let frames = seq.jtag_to_swd();
    assert_eq!(frames.len(), 3);
    assert_eq!(frames[0], seq.reset());
    // The 16-bit switch sequence 0xE79E, LSB-first bytes.
    assert_eq!(frames[1], vec![0xE8, 5, 0, 0xA1, 16, 0, 0x9E, 0xE7]);
    assert_eq!(frames[2], seq.reset());
}

#[test]
fn swd_init_command_bytes() {
    assert_eq!(
        SwdCommandSeq::init_command(3),
        vec![0xE5, 0x08, 0x00, 0x40, 0x42, 0x0F, 0x00, 3, 0x00, 0x00, 0x00]
    );
}

#[test]
fn parse_read_ok_and_faults() {
    // Header echo, ack 1 (OK), value 0x12345678 little-endian, turnaround.
    let resp = [0xE8, 7, 0, 0xA2, 1, 0x78, 0x56, 0x34, 0x12, 0];
    assert_eq!(parse_read_response(&resp), Ok(0x1234_5678));

    for ack in [0u8, 2, 3, 4, 5, 6, 7] {
        let resp = [0xE8, 7, 0, 0xA2, ack, 0, 0, 0, 0, 0];
        assert_eq!(
            parse_read_response(&resp),
            Err(SwdError::AccessFault { ack })
        );
    }
}

#[test]
fn parse_write_ok_and_faults() {
    let resp = [0xE8, 2, 0, 0xA0, 1];
    assert_eq!(parse_write_response(&resp), Ok(()));
    for ack in [0u8, 2, 3, 4, 5, 6, 7] {
        let resp = [0xE8, 2, 0, 0xA0, ack];
        assert_eq!(
            parse_write_response(&resp),
            Err(SwdError::AccessFault { ack })
        );
    }
}

#[test]
fn subcommand_default_reads_idcode() {
    let c = SubCommand::default();
    assert_eq!(c, SubCommand::RegR { address: 0, is_dp: true });
    assert!(c.is_read());
    assert_eq!(c.header_byte(), 0xA5);
}
