//! SWD sequence engine.
//!
//! Serial Wire Debug work goes to the bridge as framed subcommands: raw
//! bit sequences (line resets, the JTAG-to-SWD switch) and single
//! register transactions, each a fixed-size slice of one outbound batch.
//! This module encodes packet headers with their parity bit, builds the
//! batch frames, and interprets the acknowledgment and data bytes the
//! bridge returns.  The USB transfer of a finished frame happens outside
//! the crate.

use crate::bits::{compute_parity, le16_hi, le16_lo, parity32, popcount32, u32_from_le};
use vstd::prelude::*;

verus! {

/// Most subcommands the engine will queue before one flush.  Keeps the
/// batched frame and its response within the 16-bit length prefixes.
pub const MAX_QUEUED_SUBCOMMANDS: usize = 6000;

/// A failed SWD transaction: the 3-bit acknowledgment was not OK (`1`).
#[derive(Debug, Clone, Copy, PartialEq, Eq, Structural)]
pub enum SwdError {
    AccessFault { ack: u8 },
}

/// The packet header before its parity bit: start (bit 0) and park
/// (bit 7) set, APnDP in bit 1, RnW in bit 2, the address bits [3:2] in
/// bits 3 and 4.
pub open spec fn header_base(address: u8, is_dp: bool, is_read: bool) -> u8 {
    0x81u8 | (if is_dp {
        0u8
    } else {
        2u8
    }) | (if is_read {
        4u8
    } else {
        0u8
    }) | ((address & 0x0C) << 1u8)
}

/// Whether bits 1 through 4 of a header byte hold an odd number of ones.
pub open spec fn header_parity_odd(c: u8) -> bool {
    ((c >> 1u8) ^ (c >> 2u8) ^ (c >> 3u8) ^ (c >> 4u8)) & 1 == 1
}

/// The full packet header: the base with bit 5 carrying the parity of
/// APnDP, RnW and the two address bits.
pub open spec fn swd_header(address: u8, is_dp: bool, is_read: bool) -> u8 {
    let c = header_base(address, is_dp, is_read);
    if header_parity_odd(c) {
        c | 0x20
    } else {
        c
    }
}

/// What a header byte says, if it is well formed: the address bits
/// [3:2], whether the target is the Debug Port, and whether it reads.
/// Malformed start/stop/park bits or a wrong parity yield nothing.
pub open spec fn decode_header_spec(byte: u8) -> Option<(u8, bool, bool)> {
    if byte & 0xC1 == 0x81 && ((byte >> 5u8) & 1 == 1) == header_parity_odd(byte) {
        Some((((byte >> 3u8) & 3) << 2u8, byte & 2 == 0, byte & 4 == 4))
    } else {
        None
    }
}

/// Builds a packet header byte.
pub fn header_byte_for(address: u8, is_dp: bool, is_read: bool) -> (r: u8)
    ensures
        r == swd_header(address, is_dp, is_read),
{
    let c: u8 = 0x81 | (if is_dp {
        0
    } else {
        2
    }) | (if is_read {
        4
    } else {
        0
    }) | ((address & 0x0C) << 1);
    if ((c >> 1) ^ (c >> 2) ^ (c >> 3) ^ (c >> 4)) & 1 == 1 {
        c | 0x20
    } else {
        c
    }
}

/// Reads a packet header byte back.
pub fn decode_header(byte: u8) -> (r: Option<(u8, bool, bool)>)
    ensures
        r == decode_header_spec(byte),
{
    if byte & 0xC1 == 0x81 && (((byte >> 5) & 1 == 1) == (((byte >> 1) ^ (byte >> 2) ^ (byte >> 3)
        ^ (byte >> 4)) & 1 == 1)) {
        Some((((byte >> 3) & 3) << 2, byte & 2 == 0, byte & 4 == 4))
    } else {
        None
    }
}

/// Encoding a register transaction and reading its header byte back
/// recovers the address bits [3:2], the port and the direction.
pub proof fn lemma_header_roundtrip(address: u8, is_dp: bool, is_read: bool)
    ensures
        decode_header_spec(swd_header(address, is_dp, is_read)) == Some(
            (address & 0x0C, is_dp, is_read),
        ),
{
    assert(swd_header(address, is_dp, is_read) & 0xC1 == 0x81) by (bit_vector);
    assert(((swd_header(address, is_dp, is_read) >> 5u8) & 1 == 1) == header_parity_odd(
        swd_header(address, is_dp, is_read),
    )) by (bit_vector);
    assert(((swd_header(address, is_dp, is_read) >> 3u8) & 3) << 2u8 == address & 0x0C)
        by (bit_vector);
    assert((swd_header(address, is_dp, is_read) & 2 == 0) == is_dp) by (bit_vector);
    assert((swd_header(address, is_dp, is_read) & 4 == 4) == is_read) by (bit_vector);
}

/// One queued register transaction.
#[derive(Debug, Clone, Copy, PartialEq, Eq, Structural)]
pub enum SubCommand {
    RegW { address: u8, is_dp: bool, data: u32 },
    RegR { address: u8, is_dp: bool },
}

impl Default for SubCommand {
    /// The default transaction reads the Debug Port's first register,
    /// the identification code.
    fn default() -> (r: Self)
        ensures
            r == (SubCommand::RegR { address: 0, is_dp: true }),
    {
        SubCommand::RegR { address: 0, is_dp: true }
    }
}

impl SubCommand {
    /// Whether this transaction reads rather than writes.
    pub open spec fn is_read_spec(self) -> bool {
        self matches SubCommand::RegR { .. }
    }

    /// The register address the transaction names.
    pub open spec fn address_spec(self) -> u8 {
        match self {
            SubCommand::RegW { address, .. } => address,
            SubCommand::RegR { address, .. } => address,
        }
    }

    /// Whether the transaction targets the Debug Port.
    pub open spec fn is_dp_spec(self) -> bool {
        match self {
            SubCommand::RegW { is_dp, .. } => is_dp,
            SubCommand::RegR { is_dp, .. } => is_dp,
        }
    }

    /// The packet header this transaction encodes to.
    pub open spec fn header_spec(self) -> u8 {
        swd_header(self.address_spec(), self.is_dp_spec(), self.is_read_spec())
    }

    /// Whether this transaction reads rather than writes.
    pub fn is_read(&self) -> (r: bool)
        ensures
            r == self.is_read_spec(),
    {
        match self {
            SubCommand::RegR { .. } => true,
            SubCommand::RegW { .. } => false,
        }
    }

    /// This transaction's packet header byte.
    pub fn header_byte(&self) -> (r: u8)
        ensures
            r == self.header_spec(),
    {
        match self {
            SubCommand::RegW { address, is_dp, .. } => header_byte_for(*address, *is_dp, false),
            SubCommand::RegR { address, is_dp } => header_byte_for(*address, *is_dp, true),
        }
    }
}

/// The four bytes of a 32-bit word, least-significant first.
pub open spec fn le_bytes_u32(d: u32) -> Seq<u8> {
    seq![
        (d & 0xFF) as u8,
        ((d >> 8u32) & 0xFF) as u8,
        ((d >> 16u32) & 0xFF) as u8,
        ((d >> 24u32) & 0xFF) as u8,
    ]
}

/// The slice one transaction contributes to a batched frame: opcode and
/// fixed prefix, the header byte, and for writes the data bytes followed
/// by their parity byte.
pub open spec fn subcommand_frame(c: SubCommand) -> Seq<u8> {
    match c {
        SubCommand::RegR { .. } => seq![0xA2u8, 0x22u8, 0x00u8, c.header_spec()],
        SubCommand::RegW { data, .. } => seq![0xA0u8, 0x29u8, 0x00u8, c.header_spec()]
            + le_bytes_u32(data) + seq![parity32(data)],
    }
}

/// The concatenated slices of a queue of transactions, in order.
pub open spec fn frames_bytes(s: Seq<SubCommand>) -> Seq<u8>
    decreases s.len(),
{
    if s.len() == 0 {
        Seq::empty()
    } else {
        frames_bytes(s.drop_last()) + subcommand_frame(s.last())
    }
}

/// How many response bytes one transaction earns: opcode, ack, and for
/// reads four data bytes and a turnaround byte.
pub open spec fn response_len(c: SubCommand) -> nat {
    if c.is_read_spec() {
        7
    } else {
        2
    }
}

/// The response bytes a whole queue earns.
pub open spec fn responses_len(s: Seq<SubCommand>) -> nat
    decreases s.len(),
{
    if s.len() == 0 {
        0
    } else {
        responses_len(s.drop_last()) + response_len(s.last())
    }
}

/// A queue's response is at most seven bytes per transaction.
pub proof fn lemma_responses_len_bound(s: Seq<SubCommand>)
    ensures
        responses_len(s) <= 7 * s.len(),
    decreases s.len(),
{
    if s.len() > 0 {
        lemma_responses_len_bound(s.drop_last());
    }
}

/// A queue's frame is at most ten bytes per transaction.
pub proof fn lemma_frames_bytes_bound(s: Seq<SubCommand>)
    ensures
        frames_bytes(s).len() <= 10 * s.len(),
    decreases s.len(),
{
    if s.len() > 0 {
        lemma_frames_bytes_bound(s.drop_last());
    }
}

/// Every register write's frame carries, as its final byte, the parity
/// of the 32-bit data word: its population count modulo two.
pub proof fn lemma_write_frame_parity(address: u8, is_dp: bool, data: u32)
    ensures
        subcommand_frame(SubCommand::RegW { address, is_dp, data }).len() == 9,
        subcommand_frame(SubCommand::RegW { address, is_dp, data })[8] == (popcount32(data, 32)
            % 2) as u8,
{
    let c = SubCommand::RegW { address, is_dp, data };
    assert(subcommand_frame(c) =~= seq![0xA0u8, 0x29u8, 0x00u8, c.header_spec()] + le_bytes_u32(
        data,
    ) + seq![parity32(data)]);
}

/// A batch of SWD transactions, queued until one flush sends them as a
/// single frame.
pub struct SwdCommandSeq {
    subcommand: Vec<SubCommand>,
    rlen: u16,
}

impl SwdCommandSeq {
    /// The transactions queued so far, in submission order.
    pub closed spec fn queue(self) -> Seq<SubCommand> {
        self.subcommand@
    }

    /// The running response-length counter.
    pub closed spec fn rlen_spec(self) -> u16 {
        self.rlen
    }

    /// The running response-length counter matches the queue, and the
    /// queue is small enough for the frame's 16-bit length prefix.
    pub open spec fn wf(self) -> bool {
        &&& self.rlen_spec() == responses_len(self.queue())
        &&& self.queue().len() <= MAX_QUEUED_SUBCOMMANDS
    }

    /// An empty batch.
    pub fn new() -> (r: SwdCommandSeq)
        ensures
            r.queue() == Seq::<SubCommand>::empty(),
            r.wf(),
    {
        SwdCommandSeq { subcommand: Vec::new(), rlen: 0 }
    }

    /// The byte sequence that configures the bridge for SWD at the given
    /// clock-rate code; the shell sends it once, before any transaction.
    pub fn init_command(speed: u8) -> (r: Vec<u8>)
        ensures
            r@ == seq![
                0xE5u8,
                0x08u8,
                0x00u8,
                0x40u8,
                0x42u8,
                0x0Fu8,
                0x00u8,
                speed,
                0x00u8,
                0x00u8,
                0x00u8,
            ],
    {
        let mut r: Vec<u8> = Vec::new();
        r.push(0xE5);
        r.push(0x08);
        r.push(0x00);
        r.push(0x40);
        r.push(0x42);
        r.push(0x0F);
        r.push(0x00);
        r.push(speed);
        r.push(0x00);
        r.push(0x00);
        r.push(0x00);
        proof {
            assert(r@ =~= seq![
                0xE5u8,
                0x08u8,
                0x00u8,
                0x40u8,
                0x42u8,
                0x0Fu8,
                0x00u8,
                speed,
                0x00u8,
                0x00u8,
                0x00u8,
            ]);
        }
        r
    }

    /// How many response bytes the queued transactions will earn.
    pub fn pending_response_len(&self) -> (r: u16)
        requires
            self.wf(),
        ensures
            r == responses_len(self.queue()),
    {
        self.rlen
    }

    /// Queues one transaction.
    pub fn push(&mut self, c: SubCommand)
        requires
            old(self).wf(),
            old(self).queue().len() < MAX_QUEUED_SUBCOMMANDS,
        ensures
            final (self).queue() == old(self).queue().push(c),
            final (self).wf(),
    {
        proof {
            lemma_responses_len_bound(self.queue());
            assert(self.queue().push(c).drop_last() =~= self.queue());
        }
        let len: u16 = if c.is_read() {
            7
        } else {
            2
        };
        self.rlen = self.rlen + len;
        self.subcommand.push(c);
    }

    /// Encodes the queued transactions as their concatenated frame
    /// slices, leaving the queue as it is.
    pub fn take(&mut self) -> (r: Vec<u8>)
        ensures
            *final (self) == *old(self),
            r@ == frames_bytes(old(self).queue()),
    {
        let ghost q = self.subcommand@;
        let mut buf: Vec<u8> = Vec::new();
        let mut i: usize = 0;
        while i < self.subcommand.len()
            invariant
                i <= q.len(),
                self.subcommand@ == q,
                buf@ == frames_bytes(q.take(i as int)),
            decreases q.len() - i,
        {
            let c = self.subcommand[i];
            proof {
                assert(q.take(i as int + 1).drop_last() =~= q.take(i as int));
                assert(q.take(i as int + 1).last() == q[i as int]);
            }
            let ghost before = buf@;
            if c.is_read() {
                buf.push(0xA2);
                buf.push(0x22);
                buf.push(0x00);
                buf.push(c.header_byte());
                proof {
                    assert(buf@ =~= before + subcommand_frame(q[i as int]));
                }
            } else {
                match c {
                    SubCommand::RegW { data, .. } => {
                        buf.push(0xA0);
                        buf.push(0x29);
                        buf.push(0x00);
                        buf.push(c.header_byte());
                        buf.push((data & 0xFF) as u8);
                        buf.push(((data >> 8) & 0xFF) as u8);
                        buf.push(((data >> 16) & 0xFF) as u8);
                        buf.push(((data >> 24) & 0xFF) as u8);
                        buf.push(compute_parity(data));
                        proof {
                            assert(buf@ =~= before + subcommand_frame(q[i as int]));
                        }
                    },
                    SubCommand::RegR { .. } => {
                        proof {
                            assert(false);
                        }
                    },
                }
            }
            i = i + 1;
        }
        proof {
            assert(q.take(q.len() as int) =~= q);
        }
        buf
    }

    /// Encodes the queue as one outbound batch frame with its opcode and
    /// length prefix, and empties the queue.  The shell sends the frame
    /// and reads the matching response in a single exchange.
    pub fn flush(&mut self) -> (r: Vec<u8>)
        requires
            old(self).wf(),
        ensures
            r@ == seq![
                0xE8u8,
                le16_lo(frames_bytes(old(self).queue()).len() as u16),
                le16_hi(frames_bytes(old(self).queue()).len() as u16),
            ] + frames_bytes(old(self).queue()),
            final (self).queue() == Seq::<SubCommand>::empty(),
            final (self).wf(),
    {
        proof {
            lemma_frames_bytes_bound(self.queue());
        }
        let sub = self.take();
        let n: u16 = sub.len() as u16;
        let mut obuf: Vec<u8> = Vec::new();
        obuf.push(0xE8);
        obuf.push((n & 0xFF) as u8);
        obuf.push((n >> 8) as u8);
        let mut sub = sub;
        obuf.append(&mut sub);
        self.subcommand.clear();
        self.rlen = 0;
        proof {
            assert(obuf@ =~= seq![
                0xE8u8,
                le16_lo(frames_bytes(old(self).queue()).len() as u16),
                le16_hi(frames_bytes(old(self).queue()).len() as u16),
            ] + frames_bytes(old(self).queue()));
        }
        obuf
    }

    /// The batch frame that clocks a raw bit sequence out on the line:
    /// the raw-sequence opcode with the bit count, then the bytes
    /// themselves, LSB-first on the wire.
    pub fn seq(&self, data: &[u8]) -> (r: Vec<u8>)
        requires
            data@.len() <= 8191,
        ensures
            r@ == swd_seq_frame(data@),
    {
        let sublen: u16 = (data.len() as u16) + 3;
        let bitlen: u16 = (data.len() as u16) * 8;
        let mut r: Vec<u8> = Vec::new();
        r.push(0xE8);
        r.push((sublen & 0xFF) as u8);
        r.push((sublen >> 8) as u8);
        r.push(0xA1);
        r.push((bitlen & 0xFF) as u8);
        r.push((bitlen >> 8) as u8);
        let mut i: usize = 0;
        while i < data.len()
            invariant
                i <= data@.len() <= 8191,
                r@ == seq![
                    0xE8u8,
                    le16_lo((data@.len() + 3) as u16),
                    le16_hi((data@.len() + 3) as u16),
                    0xA1u8,
                    le16_lo((data@.len() * 8) as u16),
                    le16_hi((data@.len() * 8) as u16),
                ] + data@.take(i as int),
            decreases data@.len() - i,
        {
            r.push(data[i]);
            proof {
                assert(data@.take(i as int + 1) =~= data@.take(i as int).push(data@[i as int]));
            }
            i = i + 1;
        }
        proof {
            assert(data@.take(data@.len() as int) =~= data@);
        }
        r
    }

    /// The line-reset sequence: 56 clocks with the line held high, more
    /// than the 50 the protocol requires.
    pub fn reset(&self) -> (r: Vec<u8>)
        ensures
            r@ == swd_seq_frame(reset_payload()),
    {
        let data: Vec<u8> = vec![0xFF, 0xFF, 0xFF, 0xFF, 0xFF, 0xFF, 0xFF];
        proof {
            assert(data@ =~= reset_payload());
        }
        self.seq(data.as_slice())
    }

    /// At least one idle clock with the line low, so the next start bit
    /// is recognized cleanly.
    pub fn idle(&self) -> (r: Vec<u8>)
        ensures
            r@ == swd_seq_frame(seq![0u8]),
    {
        let data: Vec<u8> = vec![0x00];
        proof {
            assert(data@ =~= seq![0u8]);
        }
        self.seq(data.as_slice())
    }

    /// A line reset followed by an idle clock, each its own exchange.
    pub fn reset_and_idle(&self) -> (r: Vec<Vec<u8>>)
        ensures
            r@.len() == 2,
            r@[0]@ == swd_seq_frame(reset_payload()),
            r@[1]@ == swd_seq_frame(seq![0u8]),
    {
        let mut r: Vec<Vec<u8>> = Vec::new();
        r.push(self.reset());
        r.push(self.idle());
        r
    }

    /// The standard JTAG-to-SWD switch: a line reset, the 16-bit magic
    /// sequence `0xE79E` LSB-first, and a second line reset.
    pub fn jtag_to_swd(&self) -> (r: Vec<Vec<u8>>)
        ensures
            r@.len() == 3,
            r@[0]@ == swd_seq_frame(reset_payload()),
            r@[1]@ == swd_seq_frame(seq![0x9Eu8, 0xE7u8]),
            r@[2]@ == swd_seq_frame(reset_payload()),
    {
        let mut r: Vec<Vec<u8>> = Vec::new();
        r.push(self.reset());
        let data: Vec<u8> = vec![0x9E, 0xE7];
        proof {
            assert(data@ =~= seq![0x9Eu8, 0xE7u8]);
        }
        r.push(self.seq(data.as_slice()));
        r.push(self.reset());
        r
    }

    /// The single-transaction frame that reads an Access Port register.
    /// The value that comes back belongs to the access issued one
    /// transaction earlier: issue the read twice, or read RDBUFF, to
    /// retrieve the latched result.
    pub fn read_ap_reg(&self, address: u8) -> (r: Vec<u8>)
        ensures
            r@ == single_read_frame(address, false),
    {
        self.single_read(address, false)
    }

    /// The single-transaction frame that reads a Debug Port register.
    pub fn read_dp_reg(&self, address: u8) -> (r: Vec<u8>)
        ensures
            r@ == single_read_frame(address, true),
    {
        self.single_read(address, true)
    }

    fn single_read(&self, address: u8, is_dp: bool) -> (r: Vec<u8>)
        ensures
            r@ == single_read_frame(address, is_dp),
    {
        let mut r: Vec<u8> = Vec::new();
        r.push(0xE8);
        r.push(4);
        r.push(0);
        r.push(0xA2);
        r.push(0x22);
        r.push(0);
        r.push(header_byte_for(address, is_dp, true));
        proof {
            assert(r@ =~= single_read_frame(address, is_dp));
        }
        r
    }

    /// The single-transaction frame that writes a register, data and
    /// parity byte included.
    pub fn write_reg(&self, address: u8, is_dp: bool, data: u32) -> (r: Vec<u8>)
        ensures
            r@ == seq![0xE8u8, 9u8, 0u8] + subcommand_frame(
                SubCommand::RegW { address, is_dp, data },
            ),
    {
        let mut r: Vec<u8> = Vec::new();
        r.push(0xE8);
        r.push(9);
        r.push(0);
        r.push(0xA0);
        r.push(0x29);
        r.push(0x00);
        r.push(header_byte_for(address, is_dp, false));
        r.push((data & 0xFF) as u8);
        r.push(((data >> 8) & 0xFF) as u8);
        r.push(((data >> 16) & 0xFF) as u8);
        r.push(((data >> 24) & 0xFF) as u8);
        r.push(compute_parity(data));
        proof {
            assert(r@ =~= seq![0xE8u8, 9u8, 0u8] + subcommand_frame(
                SubCommand::RegW { address, is_dp, data },
            ));
        }
        r
    }

    /// The frame that writes an Access Port register.
    pub fn write_ap_reg(&self, address: u8, data: u32) -> (r: Vec<u8>)
        ensures
            r@ == seq![0xE8u8, 9u8, 0u8] + subcommand_frame(
                SubCommand::RegW { address, is_dp: false, data },
            ),
    {
        self.write_reg(address, false, data)
    }

    /// The frame that writes a Debug Port register.
    pub fn write_dp_reg(&self, address: u8, data: u32) -> (r: Vec<u8>)
        ensures
            r@ == seq![0xE8u8, 9u8, 0u8] + subcommand_frame(
                SubCommand::RegW { address, is_dp: true, data },
            ),
    {
        self.write_reg(address, true, data)
    }
}

/// The bytes the bridge is told to clock out for a line reset.
pub open spec fn reset_payload() -> Seq<u8> {
    Seq::new(7, |i: int| 0xFFu8)
}

/// The batch frame around one raw bit sequence.
pub open spec fn swd_seq_frame(data: Seq<u8>) -> Seq<u8> {
    seq![
        0xE8u8,
        le16_lo((data.len() + 3) as u16),
        le16_hi((data.len() + 3) as u16),
        0xA1u8,
        le16_lo((data.len() * 8) as u16),
        le16_hi((data.len() * 8) as u16),
    ] + data
}

/// The single-transaction frame around one register read.
pub open spec fn single_read_frame(address: u8, is_dp: bool) -> Seq<u8> {
    seq![0xE8u8, 4u8, 0u8, 0xA2u8, 0x22u8, 0u8, swd_header(address, is_dp, true)]
}

/// Interprets the response to a register read: the acknowledgment code
/// sits in the low three bits of the byte after the echoed opcode, the
/// value in the four little-endian bytes after it.  OK is `1`; any other
/// code is an access fault carrying that code.
pub fn parse_read_response(resp: &[u8]) -> (r: Result<u32, SwdError>)
    requires
        resp@.len() >= 9,
    ensures
        resp@[4] & 7 == 1 ==> r == Ok::<u32, SwdError>(
            u32_from_le(resp@[5], resp@[6], resp@[7], resp@[8]),
        ),
        resp@[4] & 7 != 1 ==> r == Err::<u32, SwdError>(
            SwdError::AccessFault { ack: resp@[4] & 7 },
        ),
{
    let ack = resp[4] & 7;
    if ack == 1 {
        let value = resp[5] as u32 | (resp[6] as u32) << 8 | (resp[7] as u32) << 16 | (
        resp[8] as u32) << 24;
        Ok(value)
    } else {
        Err(SwdError::AccessFault { ack })
    }
}

/// Interprets the response to a register write: the acknowledgment byte
/// follows the echoed opcode.  OK is `1`; any other code is an access
/// fault carrying that code.
pub fn parse_write_response(resp: &[u8]) -> (r: Result<(), SwdError>)
    requires
        resp@.len() >= 5,
    ensures
        resp@[4] & 7 == 1 ==> r == Ok::<(), SwdError>(()),
        resp@[4] & 7 != 1 ==> r == Err::<(), SwdError>(
            SwdError::AccessFault { ack: resp@[4] & 7 },
        ),
{
    let ack = resp[4] & 7;
    if ack == 1 {
        Ok(())
    } else {
        Err(SwdError::AccessFault { ack })
    }
}

} // verus!
