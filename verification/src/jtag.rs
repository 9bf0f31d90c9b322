//! JTAG TAP engine.
//!
//! The engine queues primitive clock units — TMS and TDI levels for one
//! test-clock cycle, with a flag saying whether the sampled TDO bit is
//! retained — and encodes a queued batch as one outbound byte frame, two
//! bytes per clock.  The bytes the bridge returns, one sample per clock,
//! are demultiplexed back into the bit buffer.  On top of that sit the
//! scan-chain operations: reset to Run-Test/Idle, identifier and
//! instruction-register-length discovery, target selection with bypass
//! padding, and shifting the instruction and data registers.
//!
//! The engine holds no transport: a caller sends `flush_command`'s bytes
//! to the bridge, reads the response, and hands it to
//! `apply_flush_response`, repeating while clocks are pending.  A failed
//! exchange is simply never applied, so no partial capture ever reaches
//! the bit buffer.

use crate::bits::{bit64, bits_of_u64, bits_value, load_le_u64};
use vstd::arithmetic::power2::pow2;
use vstd::prelude::*;

verus! {

/// Most clocks one flush will carry: the response, one byte per clock
/// after a three-byte header, must fit the bridge's 130-byte buffer.
pub const MAX_FLUSH_CLOCKS: usize = 127;

/// A Debug Port or Access Port register address.  Only offset bits [3:2]
/// reach the wire; selecting a bank for the higher bits is a SELECT
/// write the caller issues separately.
#[derive(Debug, Clone, Copy, PartialEq, Eq, Structural)]
pub enum Register {
    Ap(u8),
    Dp(u8),
}

impl Register {
    /// Whether this address names an Access Port register.
    pub open spec fn is_ap_spec(self) -> bool {
        self matches Register::Ap(_)
    }

    /// The register offset within its port.
    pub open spec fn offset_spec(self) -> u8 {
        match self {
            Register::Ap(addr) => addr,
            Register::Dp(addr) => addr,
        }
    }

    /// Whether this address names an Access Port register.
    pub fn is_ap(&self) -> (r: bool)
        ensures
            r == self.is_ap_spec(),
    {
        match self {
            Register::Ap(_) => true,
            Register::Dp(_) => false,
        }
    }

    /// The register offset within its port.
    pub fn l2_l3(&self) -> (r: u8)
        ensures
            r == self.offset_spec(),
    {
        match self {
            Register::Ap(addr) => *addr,
            Register::Dp(addr) => *addr,
        }
    }
}

/// Failures of the TAP engine: a register access acknowledged with a
/// code other than OK (`2`), or a target index past the discovered
/// chain.
#[derive(Debug, Clone, Copy, PartialEq, Eq, Structural)]
pub enum JtagError {
    AccessFault { ack: u8 },
    IndexOutOfRange,
}

/// One test-clock cycle: the TMS and TDI levels held for it, and whether
/// the sampled TDO bit is retained.
#[derive(Debug, Clone, Copy, PartialEq, Eq, Structural)]
pub struct Clock {
    pub tms: bool,
    pub tdi: bool,
    pub capture: bool,
}

/// A state-steering clock: drives TMS, holds TDI high, retains nothing.
pub open spec fn ctl_clock(tms: bool) -> Clock {
    Clock { tms, tdi: true, capture: false }
}

/// The low-phase byte of a clock: TMS in bit 1, TDI in bit 4, clock low.
/// The high phase is the same byte with bit 0 set.
pub open spec fn clock_low_byte(c: Clock) -> u8 {
    (if c.tms {
        2u8
    } else {
        0u8
    }) | (if c.tdi {
        0x10u8
    } else {
        0u8
    })
}

/// The wire encoding of a clock batch: per clock its low-phase byte then
/// the same byte with the clock bit set.
pub open spec fn clocks_bytes(cs: Seq<Clock>) -> Seq<u8>
    decreases cs.len(),
{
    if cs.len() == 0 {
        Seq::empty()
    } else {
        clocks_bytes(cs.drop_last()) + seq![
            clock_low_byte(cs.last()),
            clock_low_byte(cs.last()) | 1,
        ]
    }
}

/// The bits a batch retains when clock `i` samples `samples[i]`: the
/// samples of the capture-flagged clocks, in submission order.  A short
/// sample sequence (a short read) retains only what was sampled.
pub open spec fn captured_bits(cs: Seq<Clock>, samples: Seq<bool>) -> Seq<bool>
    decreases cs.len(),
{
    if cs.len() == 0 || samples.len() == 0 {
        Seq::empty()
    } else {
        (if cs[0].capture {
            seq![samples[0]]
        } else {
            Seq::<bool>::empty()
        }) + captured_bits(cs.skip(1), samples.skip(1))
    }
}

/// How many clocks of a batch retain their sample.
pub open spec fn count_captures(cs: Seq<Clock>) -> nat
    decreases cs.len(),
{
    if cs.len() == 0 {
        0
    } else {
        (if cs[0].capture {
            1nat
        } else {
            0nat
        }) + count_captures(cs.skip(1))
    }
}

/// With a full response — at least one sample per queued clock — a flush
/// retains exactly one bit per capture-flagged clock.
pub proof fn lemma_flush_capture_count(cs: Seq<Clock>, samples: Seq<bool>)
    requires
        samples.len() >= cs.len(),
    ensures
        captured_bits(cs, samples).len() == count_captures(cs),
    decreases cs.len(),
{
    if cs.len() > 0 {
        lemma_flush_capture_count(cs.skip(1), samples.skip(1));
    }
}

/// Appending one sampled clock appends its capture, if any.
pub proof fn lemma_captured_bits_snoc(cs: Seq<Clock>, samples: Seq<bool>, c: Clock, s: bool)
    requires
        cs.len() == samples.len(),
    ensures
        captured_bits(cs.push(c), samples.push(s)) == captured_bits(cs, samples) + (if c.capture {
            seq![s]
        } else {
            Seq::<bool>::empty()
        }),
    decreases cs.len(),
{
    if cs.len() == 0 {
        assert(cs.push(c).skip(1) =~= Seq::<Clock>::empty());
        assert(samples.push(s).skip(1) =~= Seq::<bool>::empty());
        assert(cs.push(c)[0] == c);
        assert(samples.push(s)[0] == s);
        assert(captured_bits(cs.push(c).skip(1), samples.push(s).skip(1)) =~= Seq::<bool>::empty());
        assert(captured_bits(cs.push(c), samples.push(s)) =~= captured_bits(cs, samples) + (
        if c.capture {
            seq![s]
        } else {
            Seq::<bool>::empty()
        }));
    } else {
        assert(cs.push(c).skip(1) =~= cs.skip(1).push(c));
        assert(samples.push(s).skip(1) =~= samples.skip(1).push(s));
        lemma_captured_bits_snoc(cs.skip(1), samples.skip(1), c, s);
        assert(cs.push(c)[0] == cs[0]);
        assert(samples.push(s)[0] == samples[0]);
        assert(captured_bits(cs.push(c), samples.push(s)) =~= captured_bits(cs, samples) + (
        if c.capture {
            seq![s]
        } else {
            Seq::<bool>::empty()
        }));
    }
}

/// Captures split over concatenation, as long as the samples split at
/// the same point.
pub proof fn lemma_captured_bits_concat(
    a: Seq<Clock>,
    sa: Seq<bool>,
    b: Seq<Clock>,
    sb: Seq<bool>,
)
    requires
        a.len() == sa.len(),
    ensures
        captured_bits(a + b, sa + sb) == captured_bits(a, sa) + captured_bits(b, sb),
    decreases a.len(),
{
    if a.len() == 0 {
        assert(a + b =~= b);
        assert(sa + sb =~= sb);
        assert(captured_bits(a, sa) + captured_bits(b, sb) =~= captured_bits(b, sb));
    } else {
        assert((a + b).skip(1) =~= a.skip(1) + b);
        assert((sa + sb).skip(1) =~= sa.skip(1) + sb);
        assert((a + b)[0] == a[0]);
        assert((sa + sb)[0] == sa[0]);
        lemma_captured_bits_concat(a.skip(1), sa.skip(1), b, sb);
        assert(captured_bits(a + b, sa + sb) =~= captured_bits(a, sa) + captured_bits(b, sb));
    }
}

/// A batch with no capture-flagged clock retains nothing.
pub proof fn lemma_captured_bits_none(cs: Seq<Clock>, samples: Seq<bool>)
    requires
        forall|i: int| 0 <= i < cs.len() ==> !(#[trigger] cs[i]).capture,
    ensures
        captured_bits(cs, samples) == Seq::<bool>::empty(),
    decreases cs.len(),
{
    if cs.len() > 0 && samples.len() > 0 {
        lemma_captured_bits_none(cs.skip(1), samples.skip(1));
        assert(captured_bits(cs, samples) =~= Seq::<bool>::empty());
    }
}

/// A batch of capture-only clocks retains every sample.
pub proof fn lemma_captured_bits_all(cs: Seq<Clock>, samples: Seq<bool>)
    requires
        cs.len() == samples.len(),
        forall|i: int| 0 <= i < cs.len() ==> (#[trigger] cs[i]).capture,
    ensures
        captured_bits(cs, samples) == samples,
    decreases cs.len(),
{
    if cs.len() > 0 {
        lemma_captured_bits_all(cs.skip(1), samples.skip(1));
        assert(captured_bits(cs, samples) =~= samples);
    } else {
        assert(captured_bits(cs, samples) =~= samples);
    }
}

/// Five clocks with TMS high force Test-Logic-Reset from any state; one
/// with TMS low then enters Run-Test/Idle.
pub open spec fn reset_idle_clocks() -> Seq<Clock> {
    seq![
        ctl_clock(true),
        ctl_clock(true),
        ctl_clock(true),
        ctl_clock(true),
        ctl_clock(true),
        ctl_clock(false),
    ]
}

/// From Run-Test/Idle into Shift-DR (TMS 1,0,0), or into Shift-IR with
/// one more TMS-high clock in front.
pub open spec fn enter_shift_clocks(shiftdr: bool) -> Seq<Clock> {
    if shiftdr {
        seq![ctl_clock(true), ctl_clock(false), ctl_clock(false)]
    } else {
        seq![ctl_clock(true), ctl_clock(true), ctl_clock(false), ctl_clock(false)]
    }
}

/// From Exit1 back to Run-Test/Idle (TMS 1,0).
pub open spec fn exit_idle_clocks() -> Seq<Clock> {
    seq![ctl_clock(true), ctl_clock(false)]
}

/// From a Shift state straight back to Run-Test/Idle (TMS 1,1,0).
pub open spec fn shift_to_idle_clocks() -> Seq<Clock> {
    seq![ctl_clock(true), ctl_clock(true), ctl_clock(false)]
}

/// Leading padding: one TDI-high clock per bit, staying in Shift.  For
/// the instruction register this drives every earlier TAP to BYPASS; for
/// the data register it steps over each earlier TAP's bypass bit.
pub open spec fn pre_pad_clocks(n: nat) -> Seq<Clock> {
    Seq::new(n, |i: int| Clock { tms: false, tdi: true, capture: false })
}

/// Trailing padding: as the leading padding, except that the last clock
/// carries TMS high to leave the Shift state.
pub open spec fn pos_pad_clocks(n: nat) -> Seq<Clock> {
    Seq::new(n, |i: int| Clock { tms: i == n - 1, tdi: true, capture: false })
}

/// The data bits of a shift, LSB-first, every sample retained; the last
/// bit carries TMS high when no trailing padding will follow.
pub open spec fn data_shift_clocks(value: u64, len: nat, exit_on_last: bool) -> Seq<Clock> {
    Seq::new(
        len,
        |i: int| Clock { tms: exit_on_last && i == len - 1, tdi: bit64(value, i as nat), capture: true },
    )
}

/// One 32-bit identifier word: TDI held high, every sample retained.
pub open spec fn idcode_word_clocks() -> Seq<Clock> {
    Seq::new(32, |i: int| Clock { tms: false, tdi: true, capture: true })
}

/// Everything a data-register write clocks out: into Shift-DR, the
/// leading bypass padding, the data bits, the trailing padding, and the
/// return to Run-Test/Idle.
pub open spec fn write_dr_clocks(value: u64, len: nat, pre: nat, pos: nat) -> Seq<Clock> {
    enter_shift_clocks(true) + pre_pad_clocks(pre) + data_shift_clocks(value, len, pos == 0)
        + pos_pad_clocks(pos) + exit_idle_clocks()
}

/// Everything an instruction-register write clocks out.  The data bits
/// exit Shift directly exactly when no TAP follows the target (`pos` is
/// zero), as for the data register.
pub open spec fn write_ir_clocks(value: u32, len: nat, ir_pre: nat, ir_pos: nat, pos: nat) -> Seq<
    Clock,
> {
    enter_shift_clocks(false) + pre_pad_clocks(ir_pre) + data_shift_clocks(
        value as u64,
        len,
        pos == 0,
    ) + pos_pad_clocks(ir_pos) + exit_idle_clocks()
}

/// The sum of discovered instruction-register lengths.
pub open spec fn sum_usize(s: Seq<usize>) -> nat
    decreases s.len(),
{
    if s.len() == 0 {
        0
    } else {
        sum_usize(s.drop_last()) + s.last() as nat
    }
}

/// Sums add over concatenation.
pub proof fn lemma_sum_concat(a: Seq<usize>, b: Seq<usize>)
    ensures
        sum_usize(a + b) == sum_usize(a) + sum_usize(b),
    decreases b.len(),
{
    if b.len() == 0 {
        assert(a + b =~= a);
    } else {
        assert((a + b).drop_last() =~= a + b.drop_last());
        lemma_sum_concat(a, b.drop_last());
    }
}

/// The TAP engine's state: the discovered chain and the selection
/// derived from it, the bit buffer of retained samples, and the queue of
/// clocks not yet flushed to the bridge.
pub struct Jtager {
    /// Discovered instruction-register lengths, one per TAP, in
    /// discovery order.
    pub taps: Vec<usize>,
    /// Instruction-register bits belonging to TAPs before the selected
    /// one.
    pub ir_pre: usize,
    /// Instruction-register bits belonging to TAPs after it.
    pub ir_pos: usize,
    /// TAPs before the selected one: one data-register bypass bit each.
    pub pre: usize,
    /// TAPs after it.
    pub pos: usize,
    /// Captured bits, oldest first, until they are drained.
    pub bits: Vec<bool>,
    /// Clock units queued for the next flush.
    pub clocks: Vec<Clock>,
}

/// The step from `pre` to `post` only queued `added` clocks: everything
/// else, the bit buffer included, stands as it was.
pub open spec fn queues(pre: Jtager, post: Jtager, added: Seq<Clock>) -> bool {
    &&& post.clocks@ == pre.clocks@ + added
    &&& post.bits@ == pre.bits@
    &&& post.taps@ == pre.taps@
    &&& post.ir_pre == pre.ir_pre
    &&& post.ir_pos == pre.ir_pos
    &&& post.pre == pre.pre
    &&& post.pos == pre.pos
}

/// How many clocks the next flush will carry.
pub open spec fn batch_size(j: Jtager) -> int {
    if j.clocks@.len() <= MAX_FLUSH_CLOCKS {
        j.clocks@.len() as int
    } else {
        MAX_FLUSH_CLOCKS as int
    }
}

/// The samples a response carries for the first `m` clocks: one byte per
/// clock after the three-byte header, nonzero meaning TDO was high.
pub open spec fn response_samples(resp: Seq<u8>, m: int) -> Seq<bool> {
    Seq::new(m as nat, |i: int| resp[3 + i] != 0)
}

/// How many queued clocks the response actually covers: the batch, or
/// fewer after a short read.
pub open spec fn sampled_count(j: Jtager, resp: Seq<u8>) -> int {
    let avail = if resp.len() >= 3 {
        resp.len() - 3
    } else {
        0
    };
    if batch_size(j) <= avail {
        batch_size(j)
    } else {
        avail as int
    }
}

impl Jtager {
    /// An engine with nothing discovered, nothing selected, and both
    /// buffers empty.
    pub fn new() -> (r: Jtager)
        ensures
            r.taps@ == Seq::<usize>::empty(),
            r.ir_pre == 0,
            r.ir_pos == 0,
            r.pre == 0,
            r.pos == 0,
            r.bits@ == Seq::<bool>::empty(),
            r.clocks@ == Seq::<Clock>::empty(),
    {
        Jtager {
            taps: Vec::new(),
            ir_pre: 0,
            ir_pos: 0,
            pre: 0,
            pos: 0,
            bits: Vec::new(),
            clocks: Vec::new(),
        }
    }

    /// The byte sequence that configures the bridge for JTAG at the
    /// given clock-rate code; the shell sends it once, before any batch.
    pub fn init_command(speed: u8) -> (r: Vec<u8>)
        ensures
            r@ == seq![0xD0u8, 0x06u8, 0x00u8, 0x00u8, speed, 0x00u8, 0x00u8, 0x00u8, 0x00u8],
    {
        let mut r: Vec<u8> = Vec::new();
        r.push(0xD0);
        r.push(0x06);
        r.push(0x00);
        r.push(0x00);
        r.push(speed);
        r.push(0x00);
        r.push(0x00);
        r.push(0x00);
        r.push(0x00);
        proof {
            assert(r@ =~= seq![
                0xD0u8,
                0x06u8,
                0x00u8,
                0x00u8,
                speed,
                0x00u8,
                0x00u8,
                0x00u8,
                0x00u8,
            ]);
        }
        r
    }

    /// Queues one clock unit.
    fn shift_bits(&mut self, tms: bool, tdi: bool, capture: bool)
        ensures
            queues(*old(self), *final (self), seq![Clock { tms, tdi, capture }]),
    {
        self.clocks.push(Clock { tms, tdi, capture });
        proof {
            assert(self.clocks@ =~= old(self).clocks@ + seq![Clock { tms, tdi, capture }]);
        }
    }

    /// How many clocks are waiting for a flush.
    pub fn pending_clocks(&self) -> (r: usize)
        ensures
            r == self.clocks@.len(),
    {
        self.clocks.len()
    }

    /// How many bits the buffer holds.
    pub fn captured_len(&self) -> (r: usize)
        ensures
            r == self.bits@.len(),
    {
        self.bits.len()
    }

    /// Queues the reset sequence: five TMS-high clocks force
    /// Test-Logic-Reset from any state, one TMS-low clock enters
    /// Run-Test/Idle.  Nothing is captured.
    pub fn reset_idle(&mut self)
        ensures
            queues(*old(self), *final (self), reset_idle_clocks()),
    {
        self.shift_bits(true, true, false);
        self.shift_bits(true, true, false);
        self.shift_bits(true, true, false);
        self.shift_bits(true, true, false);
        self.shift_bits(true, true, false);
        self.shift_bits(false, true, false);
        proof {
            assert(self.clocks@ =~= old(self).clocks@ + reset_idle_clocks());
        }
    }

    /// Queues the steps from Run-Test/Idle into Shift-DR, or into
    /// Shift-IR when `shiftdr` is false.
    pub fn enter_shift(&mut self, shiftdr: bool)
        ensures
            queues(*old(self), *final (self), enter_shift_clocks(shiftdr)),
    {
        if !shiftdr {
            self.shift_bits(true, true, false);
        }
        self.shift_bits(true, true, false);
        self.shift_bits(false, true, false);
        self.shift_bits(false, true, false);
        proof {
            assert(self.clocks@ =~= old(self).clocks@ + enter_shift_clocks(shiftdr));
        }
    }

    /// Queues the steps from Exit1 back to Run-Test/Idle.
    pub fn exit_idle(&mut self)
        ensures
            queues(*old(self), *final (self), exit_idle_clocks()),
    {
        self.shift_bits(true, true, false);
        self.shift_bits(false, true, false);
        proof {
            assert(self.clocks@ =~= old(self).clocks@ + exit_idle_clocks());
        }
    }

    /// Queues the steps from a Shift state straight back to
    /// Run-Test/Idle.
    pub fn shift_to_idle(&mut self)
        ensures
            queues(*old(self), *final (self), shift_to_idle_clocks()),
    {
        self.shift_bits(true, true, false);
        self.shift_bits(true, true, false);
        self.shift_bits(false, true, false);
        proof {
            assert(self.clocks@ =~= old(self).clocks@ + shift_to_idle_clocks());
        }
    }

    /// The outbound frame for the next batch: the clock opcode, the
    /// byte count as a 16-bit little-endian prefix, and two bytes per
    /// clock.  Reads nothing and changes nothing: a batch leaves the
    /// queue only when its response is applied.
    pub fn flush_command(&self) -> (r: Vec<u8>)
        ensures
            r@ == seq![0xD2u8, (2 * batch_size(*self)) as u8, 0u8] + clocks_bytes(
                self.clocks@.take(batch_size(*self)),
            ),
    {
        let batch: usize = if self.clocks.len() <= MAX_FLUSH_CLOCKS {
            self.clocks.len()
        } else {
            MAX_FLUSH_CLOCKS
        };
        let mut r: Vec<u8> = Vec::new();
        r.push(0xD2);
        r.push((2 * batch) as u8);
        r.push(0u8);
        let ghost header = seq![0xD2u8, (2 * batch_size(*self)) as u8, 0u8];
        proof {
            assert(r@ =~= header + clocks_bytes(self.clocks@.take(0)));
        }
        let mut i: usize = 0;
        while i < batch
            invariant
                i <= batch,
                batch == batch_size(*self),
                batch <= self.clocks@.len(),
                r@ == header + clocks_bytes(self.clocks@.take(i as int)),
            decreases batch - i,
        {
            let c = self.clocks[i];
            let low = (if c.tms {
                2u8
            } else {
                0u8
            }) | (if c.tdi {
                0x10u8
            } else {
                0u8
            });
            r.push(low);
            r.push(low | 1);
            proof {
                let taken = self.clocks@.take(i as int + 1);
                assert(taken.drop_last() =~= self.clocks@.take(i as int));
                assert(taken.last() == self.clocks@[i as int]);
                assert(r@ =~= header + clocks_bytes(taken));
            }
            i = i + 1;
        }
        r
    }

    /// Applies the bridge's response to the pending batch: the sample
    /// byte of every capture-flagged clock the response covers is
    /// appended to the bit buffer, in submission order, and the batch
    /// leaves the queue.  Everything else stands as it was.
    pub fn apply_flush_response(&mut self, resp: &[u8])
        ensures
            final (self).clocks@ == old(self).clocks@.skip(batch_size(*old(self))),
            final (self).bits@ == old(self).bits@ + captured_bits(
                old(self).clocks@.take(sampled_count(*old(self), resp@)),
                response_samples(resp@, sampled_count(*old(self), resp@)),
            ),
            final (self).taps@ == old(self).taps@,
            final (self).ir_pre == old(self).ir_pre,
            final (self).ir_pos == old(self).ir_pos,
            final (self).pre == old(self).pre,
            final (self).pos == old(self).pos,
    {
        let batch: usize = if self.clocks.len() <= MAX_FLUSH_CLOCKS {
            self.clocks.len()
        } else {
            MAX_FLUSH_CLOCKS
        };
        let avail: usize = if resp.len() >= 3 {
            resp.len() - 3
        } else {
            0
        };
        let m: usize = if batch <= avail {
            batch
        } else {
            avail
        };
        let ghost samples = response_samples(resp@, m as int);
        proof {
            assert(self.clocks@.take(0) =~= Seq::<Clock>::empty());
            assert(samples.take(0) =~= Seq::<bool>::empty());
            assert(self.bits@ + captured_bits(
                self.clocks@.take(0),
                samples.take(0),
            ) =~= self.bits@);
        }
        let mut i: usize = 0;
        while i < m
            invariant
                i <= m,
                m == sampled_count(*old(self), resp@),
                m + 3 <= resp@.len() || m == 0,
                m <= self.clocks@.len(),
                samples == response_samples(resp@, m as int),
                self.clocks@ == old(self).clocks@,
                self.taps@ == old(self).taps@,
                self.ir_pre == old(self).ir_pre,
                self.ir_pos == old(self).ir_pos,
                self.pre == old(self).pre,
                self.pos == old(self).pos,
                self.bits@ == old(self).bits@ + captured_bits(
                    self.clocks@.take(i as int),
                    samples.take(i as int),
                ),
            decreases m - i,
        {
            let c = self.clocks[i];
            let ghost taken_cs = self.clocks@.take(i as int);
            let ghost taken_ss = samples.take(i as int);
            proof {
                assert(self.clocks@.take(i as int + 1) =~= taken_cs.push(self.clocks@[i as int]));
                assert(samples.take(i as int + 1) =~= taken_ss.push(samples[i as int]));
                lemma_captured_bits_snoc(taken_cs, taken_ss, self.clocks@[i as int], samples[i as int]);
            }
            if c.capture {
                let sample = resp[3 + i];
                self.bits.push(sample != 0x00);
                proof {
                    assert(self.bits@ =~= old(self).bits@ + captured_bits(
                        self.clocks@.take(i as int + 1),
                        samples.take(i as int + 1),
                    ));
                }
            } else {
                proof {
                    assert(self.bits@ =~= old(self).bits@ + captured_bits(
                        self.clocks@.take(i as int + 1),
                        samples.take(i as int + 1),
                    ));
                }
            }
            i = i + 1;
        }
        proof {
            assert(samples.take(m as int) =~= samples);
        }
        let mut rest: Vec<Clock> = Vec::new();
        let mut j: usize = batch;
        while j < self.clocks.len()
            invariant
                batch <= j <= self.clocks@.len(),
                batch == batch_size(*old(self)),
                self.clocks@ == old(self).clocks@,
                self.taps@ == old(self).taps@,
                self.ir_pre == old(self).ir_pre,
                self.ir_pos == old(self).ir_pos,
                self.pre == old(self).pre,
                self.pos == old(self).pos,
                self.bits@ == old(self).bits@ + captured_bits(
                    old(self).clocks@.take(sampled_count(*old(self), resp@)),
                    response_samples(resp@, sampled_count(*old(self), resp@)),
                ),
                rest@ == self.clocks@.subrange(batch as int, j as int),
            decreases self.clocks@.len() - j,
        {
            let c = self.clocks[j];
            rest.push(c);
            proof {
                assert(self.clocks@.subrange(batch as int, j as int + 1) =~= self.clocks@.subrange(
                    batch as int,
                    j as int,
                ).push(self.clocks@[j as int]));
            }
            j = j + 1;
        }
        proof {
            assert(rest@ =~= old(self).clocks@.skip(batch_size(*old(self))));
        }
        self.clocks = rest;
    }

    /// Drains the bit buffer: hands out every captured bit, oldest
    /// first, and leaves the buffer empty.
    pub fn drain_bits(&mut self) -> (r: Vec<bool>)
        ensures
            r@ == old(self).bits@,
            final (self).bits@ == Seq::<bool>::empty(),
            final (self).clocks@ == old(self).clocks@,
            final (self).taps@ == old(self).taps@,
            final (self).ir_pre == old(self).ir_pre,
            final (self).ir_pos == old(self).ir_pos,
            final (self).pre == old(self).pre,
            final (self).pos == old(self).pos,
    {
        let mut r: Vec<bool> = Vec::new();
        core::mem::swap(&mut r, &mut self.bits);
        r
    }

    /// Queues the leading padding for the selected target: the
    /// instruction-register bit count when `is_ir`, else one bypass bit
    /// per earlier TAP.
    fn fill_pre(&mut self, is_ir: bool)
        ensures
            queues(
                *old(self),
                *final (self),
                pre_pad_clocks(
                    (if is_ir {
                        old(self).ir_pre
                    } else {
                        old(self).pre
                    }) as nat,
                ),
            ),
    {
        let nums: usize = if is_ir {
            self.ir_pre
        } else {
            self.pre
        };
        proof {
            assert(self.clocks@ =~= old(self).clocks@ + pre_pad_clocks(0));
        }
        let mut k: usize = 0;
        while k < nums
            invariant
                k <= nums,
                nums == (if is_ir {
                    old(self).ir_pre
                } else {
                    old(self).pre
                }),
                queues(*old(self), *self, pre_pad_clocks(k as nat)),
            decreases nums - k,
        {
            self.shift_bits(false, true, false);
            proof {
                assert(pre_pad_clocks((k + 1) as nat) =~= pre_pad_clocks(k as nat).push(
                    Clock { tms: false, tdi: true, capture: false },
                ));
                assert(self.clocks@ =~= old(self).clocks@ + pre_pad_clocks((k + 1) as nat));
            }
            k = k + 1;
        }
    }

    /// Queues the trailing padding, whose last clock carries TMS high to
    /// leave the Shift state.  With nothing to pad it queues nothing.
    fn fill_pos(&mut self, is_ir: bool)
        ensures
            queues(
                *old(self),
                *final (self),
                pos_pad_clocks(
                    (if is_ir {
                        old(self).ir_pos
                    } else {
                        old(self).pos
                    }) as nat,
                ),
            ),
    {
        let nums: usize = if is_ir {
            self.ir_pos
        } else {
            self.pos
        };
        if nums == 0 {
            proof {
                assert(self.clocks@ =~= old(self).clocks@ + pos_pad_clocks(0));
            }
            return ;
        }
        let ghost pad = pos_pad_clocks(nums as nat);
        let mut k: usize = 0;
        proof {
            assert(self.clocks@ =~= old(self).clocks@ + pad.take(0));
        }
        while k < nums - 1
            invariant
                k <= nums - 1,
                1 <= nums,
                pad == pos_pad_clocks(nums as nat),
                nums == (if is_ir {
                    old(self).ir_pos
                } else {
                    old(self).pos
                }),
                queues(*old(self), *self, pad.take(k as int)),
            decreases nums - 1 - k,
        {
            self.shift_bits(false, true, false);
            proof {
                assert(pad.take(k as int + 1) =~= pad.take(k as int).push(
                    Clock { tms: false, tdi: true, capture: false },
                ));
                assert(self.clocks@ =~= old(self).clocks@ + pad.take(k as int + 1));
            }
            k = k + 1;
        }
        self.shift_bits(true, true, false);
        proof {
            assert(pad =~= pad.take(nums - 1).push(Clock { tms: true, tdi: true, capture: false }));
            assert(self.clocks@ =~= old(self).clocks@ + pad);
        }
    }

    /// Queues an instruction-register write: into Shift-IR, the leading
    /// bypass padding, the instruction's bits LSB-first (every sample
    /// retained), the trailing padding, and back to Run-Test/Idle.  The
    /// captured bits arrive in the bit buffer as the queued batches are
    /// flushed and their responses applied.
    pub fn write_ir(&mut self, cmd: u32, ir_len: usize)
        requires
            1 <= ir_len <= 32,
        ensures
            queues(
                *old(self),
                *final (self),
                write_ir_clocks(
                    cmd,
                    ir_len as nat,
                    old(self).ir_pre as nat,
                    old(self).ir_pos as nat,
                    old(self).pos as nat,
                ),
            ),
    {
        let ghost a = enter_shift_clocks(false);
        let ghost b = pre_pad_clocks(old(self).ir_pre as nat);
        let ghost c = data_shift_clocks(cmd as u64, ir_len as nat, old(self).pos == 0);
        let ghost d = pos_pad_clocks(old(self).ir_pos as nat);
        let ghost e = exit_idle_clocks();
        self.enter_shift(false);
        self.fill_pre(true);
        proof {
            assert(self.clocks@ =~= old(self).clocks@ + (a + b) + c.take(0));
        }
        let exit = self.pos == 0;
        let mut i: usize = 0;
        while i < ir_len - 1
            invariant
                i <= ir_len - 1,
                1 <= ir_len <= 32,
                exit == (old(self).pos == 0),
                c == data_shift_clocks(cmd as u64, ir_len as nat, exit),
                self.clocks@ == old(self).clocks@ + (a + b) + c.take(i as int),
                self.bits@ == old(self).bits@,
                self.taps@ == old(self).taps@,
                self.ir_pre == old(self).ir_pre,
                self.ir_pos == old(self).ir_pos,
                self.pre == old(self).pre,
                self.pos == old(self).pos,
            decreases ir_len - 1 - i,
        {
            let bit = ((cmd as u64) >> (i as u64)) & 1 == 1;
            self.shift_bits(false, bit, true);
            proof {
                assert(c.take(i as int + 1) =~= c.take(i as int).push(
                    Clock { tms: false, tdi: bit64(cmd as u64, i as nat), capture: true },
                ));
                assert(self.clocks@ =~= old(self).clocks@ + (a + b) + c.take(i as int + 1));
            }
            i = i + 1;
        }
        let last = ((cmd as u64) >> ((ir_len - 1) as u64)) & 1 == 1;
        if self.pos != 0 {
            self.shift_bits(false, last, true);
        } else {
            self.shift_bits(true, last, true);
        }
        proof {
            assert(c =~= c.take(ir_len - 1).push(
                Clock { tms: exit, tdi: bit64(cmd as u64, (ir_len - 1) as nat), capture: true },
            ));
            assert(self.clocks@ =~= old(self).clocks@ + (a + b) + c);
        }
        self.fill_pos(true);
        self.exit_idle();
        proof {
            assert(self.clocks@ =~= old(self).clocks@ + (a + b + c + d + e));
        }
    }

    /// Queues a data-register write: into Shift-DR, one bypass bit per
    /// earlier TAP, the data bits LSB-first (every sample retained), the
    /// trailing bypass bits, and back to Run-Test/Idle.
    pub fn write_dr(&mut self, data: u64, dr_len: usize)
        requires
            1 <= dr_len <= 64,
        ensures
            queues(
                *old(self),
                *final (self),
                write_dr_clocks(
                    data,
                    dr_len as nat,
                    old(self).pre as nat,
                    old(self).pos as nat,
                ),
            ),
    {
        let ghost a = enter_shift_clocks(true);
        let ghost b = pre_pad_clocks(old(self).pre as nat);
        let ghost c = data_shift_clocks(data, dr_len as nat, old(self).pos == 0);
        let ghost d = pos_pad_clocks(old(self).pos as nat);
        let ghost e = exit_idle_clocks();
        self.enter_shift(true);
        self.fill_pre(false);
        proof {
            assert(self.clocks@ =~= old(self).clocks@ + (a + b) + c.take(0));
        }
        let exit = self.pos == 0;
        let mut i: usize = 0;
        while i < dr_len - 1
            invariant
                i <= dr_len - 1,
                1 <= dr_len <= 64,
                exit == (old(self).pos == 0),
                c == data_shift_clocks(data, dr_len as nat, exit),
                self.clocks@ == old(self).clocks@ + (a + b) + c.take(i as int),
                self.bits@ == old(self).bits@,
                self.taps@ == old(self).taps@,
                self.ir_pre == old(self).ir_pre,
                self.ir_pos == old(self).ir_pos,
                self.pre == old(self).pre,
                self.pos == old(self).pos,
            decreases dr_len - 1 - i,
        {
            let bit = (data >> (i as u64)) & 1 == 1;
            self.shift_bits(false, bit, true);
            proof {
                assert(c.take(i as int + 1) =~= c.take(i as int).push(
                    Clock { tms: false, tdi: bit64(data, i as nat), capture: true },
                ));
                assert(self.clocks@ =~= old(self).clocks@ + (a + b) + c.take(i as int + 1));
            }
            i = i + 1;
        }
        let last = (data >> ((dr_len - 1) as u64)) & 1 == 1;
        if self.pos != 0 {
            self.shift_bits(false, last, true);
        } else {
            self.shift_bits(true, last, true);
        }
        proof {
            assert(c =~= c.take(dr_len - 1).push(
                Clock { tms: exit, tdi: bit64(data, (dr_len - 1) as nat), capture: true },
            ));
            assert(self.clocks@ =~= old(self).clocks@ + (a + b) + c);
        }
        self.fill_pos(false);
        self.exit_idle();
        proof {
            assert(self.clocks@ =~= old(self).clocks@ + (a + b + c + d + e));
        }
    }

    /// Queues one 32-bit identifier word's worth of capture clocks, TDI
    /// held high.
    pub fn queue_idcode_word(&mut self)
        ensures
            queues(*old(self), *final (self), idcode_word_clocks()),
    {
        let ghost w = idcode_word_clocks();
        proof {
            assert(self.clocks@ =~= old(self).clocks@ + w.take(0));
        }
        let mut k: usize = 0;
        while k < 32
            invariant
                k <= 32,
                queues(*old(self), *self, w.take(k as int)),
                w == idcode_word_clocks(),
            decreases 32 - k,
        {
            self.shift_bits(false, true, true);
            proof {
                assert(w.take(k as int + 1) =~= w.take(k as int).push(
                    Clock { tms: false, tdi: true, capture: true },
                ));
                assert(self.clocks@ =~= old(self).clocks@ + w.take(k as int + 1));
            }
            k = k + 1;
        }
        proof {
            assert(w.take(32) =~= w);
        }
    }

    /// Queues one capture clock of an instruction-register-length scan.
    pub fn queue_tap_bit(&mut self)
        ensures
            queues(*old(self), *final (self), seq![Clock { tms: false, tdi: true, capture: true }]),
    {
        self.shift_bits(false, true, true);
    }

    /// One decision of the identifier scan: a captured word that is not
    /// all-ones is a discovered device and the scan goes on; an all-ones
    /// word is the terminator and the scan stops, recording nothing.
    pub fn idcode_step(idcodes: &mut Vec<u32>, word: u32) -> (cont: bool)
        ensures
            cont == (word != 0xFFFF_FFFFu32),
            word != 0xFFFF_FFFFu32 ==> final (idcodes)@ == old(idcodes)@.push(word),
            word == 0xFFFF_FFFFu32 ==> final (idcodes)@ == old(idcodes)@,
    {
        if word != 0xFFFF_FFFF {
            idcodes.push(word);
            true
        } else {
            false
        }
    }

    /// One decision of the instruction-register-length scan, fed the
    /// next captured bit.  A zero bit extends the current run; a rising
    /// edge closes one register's length and starts the next run; a
    /// repeated high bit ends the scan.  Returns whether to keep
    /// scanning.
    pub fn tap_scan_step(&mut self, scan: &mut TapScan, bit: bool) -> (cont: bool)
        requires
            old(scan).run < usize::MAX,
        ensures
            final (self).bits@ == old(self).bits@,
            final (self).clocks@ == old(self).clocks@,
            final (self).ir_pre == old(self).ir_pre,
            final (self).ir_pos == old(self).ir_pos,
            final (self).pre == old(self).pre,
            final (self).pos == old(self).pos,
            cont == !(bit && old(scan).prev),
            !bit ==> final (self).taps@ == old(self).taps@ && final (scan).run == old(scan).run + 1
                && final (scan).prev == false,
            bit && !old(scan).prev ==> final (self).taps@ == old(self).taps@.push(old(scan).run)
                && final (scan).run == 1 && final (scan).prev == true,
            bit && old(scan).prev ==> final (self).taps@ == old(self).taps@ && final (scan).run == 0
                && final (scan).prev == old(scan).prev,
    {
        if !bit {
            scan.run = scan.run + 1;
            scan.prev = false;
            true
        } else if !scan.prev {
            self.taps.push(scan.run);
            scan.run = 1;
            scan.prev = true;
            true
        } else {
            scan.run = 0;
            false
        }
    }

    /// Selects the TAP at `target` in the discovered chain: records how
    /// many instruction-register bits and how many bypass bits sit
    /// before and after it, for the padding of later shifts.  An index
    /// past the discovered count is refused and changes nothing.
    pub fn select_target(&mut self, target: usize) -> (r: Result<(), JtagError>)
        requires
            sum_usize(old(self).taps@) <= usize::MAX,
        ensures
            final (self).taps@ == old(self).taps@,
            final (self).bits@ == old(self).bits@,
            final (self).clocks@ == old(self).clocks@,
            target > old(self).taps@.len() ==> r == Err::<(), JtagError>(JtagError::IndexOutOfRange)
                && final (self).ir_pre == old(self).ir_pre && final (self).ir_pos == old(
                self,
            ).ir_pos && final (self).pre == old(self).pre && final (self).pos == old(self).pos,
            target <= old(self).taps@.len() ==> {
                &&& r == Ok::<(), JtagError>(())
                &&& final (self).ir_pre == sum_usize(old(self).taps@.take(target as int))
                &&& final (self).pre == target
                &&& final (self).ir_pos == (if target < old(self).taps@.len() {
                    sum_usize(old(self).taps@.skip(target as int + 1))
                } else {
                    0nat
                })
                &&& final (self).pos as int == (if target < old(self).taps@.len() {
                    old(self).taps@.len() - target - 1
                } else {
                    0int
                })
            },
    {
        if target > self.taps.len() {
            return Err(JtagError::IndexOutOfRange);
        }
        let ghost t = self.taps@;
        let mut ir_pre: usize = 0;
        let mut ir_pos: usize = 0;
        let mut pre: usize = 0;
        let mut pos: usize = 0;
        let mut i: usize = 0;
        proof {
            assert(t.take(0) =~= Seq::<usize>::empty());
        }
        while i < self.taps.len()
            invariant
                i <= t.len(),
                target <= t.len(),
                self.taps@ == t,
                self == old(self),
                sum_usize(t) <= usize::MAX,
                ir_pre == sum_usize(
                    t.take(if i <= target {
                        i as int
                    } else {
                        target as int
                    }),
                ),
                pre == (if i <= target {
                    i as int
                } else {
                    target as int
                }),
                i > target ==> ir_pos == sum_usize(t.subrange(target as int + 1, i as int)) && pos
                    == i - target - 1,
                i <= target ==> ir_pos == 0 && pos == 0,
            decreases t.len() - i,
        {
            let ir_len = self.taps[i];
            proof {
                assert(t =~= t.take(i as int + 1) + t.skip(i as int + 1));
                lemma_sum_concat(t.take(i as int + 1), t.skip(i as int + 1));
                assert(t.take(i as int + 1).drop_last() =~= t.take(i as int));
                assert(t.take(i as int + 1).last() == t[i as int]);
            }
            if i < target {
                ir_pre = ir_pre + ir_len;
                pre = pre + 1;
            } else if i == target {
                // the selected TAP itself contributes no padding
            } else {
                proof {
                    assert(t.take(i as int + 1) =~= t.take(target as int + 1) + t.subrange(
                        target as int + 1,
                        i as int + 1,
                    ));
                    lemma_sum_concat(
                        t.take(target as int + 1),
                        t.subrange(target as int + 1, i as int + 1),
                    );
                    assert(t.subrange(target as int + 1, i as int + 1).drop_last() =~= t.subrange(
                        target as int + 1,
                        i as int,
                    ));
                    assert(t.subrange(target as int + 1, i as int + 1).last() == t[i as int]);
                }
                ir_pos = ir_pos + ir_len;
                pos = pos + 1;
            }
            i = i + 1;
        }
        proof {
            if target < t.len() {
                assert(t.subrange(target as int + 1, t.len() as int) =~= t.skip(target as int + 1));
            }
            if target >= t.len() {
                assert(t.take(target as int) =~= t.take(t.len() as int));
            }
            assert(t.take(t.len() as int) =~= t);
        }
        self.ir_pre = ir_pre;
        self.ir_pos = ir_pos;
        self.pre = pre;
        self.pos = pos;
        Ok(())
    }

    /// The 4-bit instruction that selects register access: `0xB` for the
    /// Access Port, `0xA` for the Debug Port.
    pub fn access_ir_code(address: &Register) -> (r: u32)
        ensures
            r == (if address.is_ap_spec() {
                0x0Bu32
            } else {
                0x0Au32
            }),
    {
        if address.is_ap() {
            0x0B
        } else {
            0x0A
        }
    }

    /// The 35-bit data-register word of one access: the register offset
    /// bits [3:2] in bits 2 and 1, read-not-write in bit 0, and for a
    /// write the 32 data bits above them.
    pub fn access_dr_word(address: &Register, value: Option<u32>) -> (r: u64)
        ensures
            value is None ==> r == (address.offset_spec() >> 1u8) as u64 | 1,
            value matches Some(d) ==> r == (d as u64) << 3u64 | (address.offset_spec() >> 1u8) as u64,
    {
        let header = (address.l2_l3() >> 1) as u64;
        match value {
            None => header | 1,
            Some(d) => (d as u64) << 3 | header,
        }
    }

    /// Interprets a captured 35-bit access result: the low three bits
    /// are the acknowledgment, the rest the register value.  OK is `2`;
    /// any other code is an access fault carrying that code.  Every
    /// access is pipelined: the value belongs to the access issued one
    /// shift earlier, so a caller shifts twice to read a register.
    pub fn interpret_access(bits: &Vec<bool>) -> (r: Result<u32, JtagError>)
        requires
            bits@.len() == 35,
        ensures
            bits_value(bits@) % 8 == 2 ==> r == Ok::<u32, JtagError>(
                (bits_value(bits@) / 8) as u32,
            ),
            bits_value(bits@) % 8 != 2 ==> r == Err::<u32, JtagError>(
                JtagError::AccessFault { ack: (bits_value(bits@) % 8) as u8 },
            ),
    {
        let w = load_le_u64(bits);
        proof {
            crate::bits::lemma_bits_value_bound(bits@);
            vstd::arithmetic::power2::lemma2_to64();
            vstd::arithmetic::power2::lemma2_to64_rest();
            assert(w & 7 == w % 8) by (bit_vector);
            assert(w >> 3u64 == w / 8) by (bit_vector);
        }
        let ack = w & 7;
        if ack == 2 {
            Ok((w >> 3) as u32)
        } else {
            Err(JtagError::AccessFault { ack: ack as u8 })
        }
    }
}

/// The running state of an instruction-register-length scan: the
/// previously captured bit and the length of the current run of zeros.
pub struct TapScan {
    /// The bit captured one step earlier.
    pub prev: bool,
    /// How many bits the current register has spanned so far.
    pub run: usize,
}

/// Starts a register-length scan from its first captured bit.
pub fn tap_scan_start(first_bit: bool) -> (s: TapScan)
    ensures
        s.prev == first_bit,
        s.run == 1,
{
    TapScan { prev: first_bit, run: 1 }
}

/// On a loopback fixture every sampled bit equals the bit just driven
/// out.  A data-register write of `value` over `len` bits then captures
/// exactly the low `len` bits of `value`, whose value is `value` reduced
/// modulo two to the `len`.
pub proof fn lemma_write_dr_loopback(
    value: u64,
    len: nat,
    pre: nat,
    pos: nat,
    samples: Seq<bool>,
)
    requires
        1 <= len <= 64,
        samples.len() == write_dr_clocks(value, len, pre, pos).len(),
        forall|i: int|
            0 <= i < samples.len() ==> samples[i] == write_dr_clocks(value, len, pre, pos)[i].tdi,
    ensures
        captured_bits(write_dr_clocks(value, len, pre, pos), samples) == bits_of_u64(value, len),
        bits_value(bits_of_u64(value, len)) == (value as nat) % pow2(len),
        bits_value(bits_of_u64(value, len)) == value & (
        vstd::bits::low_bits_mask(len) as u64),
{
    let a = enter_shift_clocks(true);
    let b = pre_pad_clocks(pre);
    let c = data_shift_clocks(value, len, pos == 0);
    let d = pos_pad_clocks(pos);
    let e = exit_idle_clocks();
    let cs = write_dr_clocks(value, len, pre, pos);
    let la = 3int;
    let lb = pre as int;
    let lc = len as int;
    let ld = pos as int;
    let sa = samples.subrange(0, la);
    let sb = samples.subrange(la, la + lb);
    let sc = samples.subrange(la + lb, la + lb + lc);
    let sd = samples.subrange(la + lb + lc, la + lb + lc + ld);
    let se = samples.subrange(la + lb + lc + ld, samples.len() as int);
    assert(cs =~= a + (b + (c + (d + e))));
    assert(samples =~= sa + (sb + (sc + (sd + se))));
    lemma_captured_bits_concat(a, sa, b + (c + (d + e)), sb + (sc + (sd + se)));
    lemma_captured_bits_concat(b, sb, c + (d + e), sc + (sd + se));
    lemma_captured_bits_concat(c, sc, d + e, sd + se);
    lemma_captured_bits_concat(d, sd, e, se);
    assert forall|i: int| 0 <= i < a.len() implies !(#[trigger] a[i]).capture by {
        if i == 0 {
            assert(a[0] == ctl_clock(true));
        } else if i == 1 {
            assert(a[1] == ctl_clock(false));
        } else {
            assert(a[2] == ctl_clock(false));
        }
    }
    lemma_captured_bits_none(a, sa);
    lemma_captured_bits_none(b, sb);
    assert forall|i: int| 0 <= i < d.len() implies !(#[trigger] d[i]).capture by {}
    lemma_captured_bits_none(d, sd);
    assert forall|i: int| 0 <= i < e.len() implies !(#[trigger] e[i]).capture by {
        if i == 0 {
            assert(e[0] == ctl_clock(true));
        } else {
            assert(e[1] == ctl_clock(false));
        }
    }
    lemma_captured_bits_none(e, se);
    lemma_captured_bits_all(c, sc);
    assert(sc =~= bits_of_u64(value, len)) by {
        assert forall|i: int| 0 <= i < lc implies sc[i] == bit64(value, i as nat) by {
            assert(sc[i] == samples[la + lb + i]);
            assert(cs[la + lb + i] == c[i]);
            assert(c[i].tdi == bit64(value, i as nat));
        }
    }
    assert(captured_bits(cs, samples) =~= bits_of_u64(value, len));
    crate::bits::lemma_bits_of_u64_value(value, len);
    crate::bits::lemma_bits_of_u64_masked(value, len);
}

} // verus!
