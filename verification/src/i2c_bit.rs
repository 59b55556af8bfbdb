use vstd::prelude::*;
use crate::error::Error;
use crate::i2c::{I2cBusOps, I2cMsg, I2C_ADDR_10BIT, I2C_IGNORE_NACK, I2C_NO_READ_ACK, I2C_NO_START, I2C_RD};

verus! {

/// A call served by the line operations of a bit-banged bus, with the level
/// driven, the level sampled, or the wait in microseconds.
#[derive(PartialEq, Eq, Structural, Copy, Clone, Debug)]
pub enum LineOp {
    SetSda(usize),
    SetScl(usize),
    GetSda(usize),
    GetScl(usize),
    Udelay(usize),
}

/// The line operations of a bit-banged bus: drive or sample SDA and SCL
/// (0 is low, anything else high) and wait some microseconds. The lines keep,
/// for proofs, the calls they have served in order: each operation adds its
/// own, with the level it sampled.
pub trait I2cBitOps {
    /// The calls served so far, oldest first.
    open spec fn line_ops(&self) -> Seq<LineOp> {
        Seq::empty()
    }

    fn set_sda(&mut self, state: usize)
        ensures
            final(self).line_ops() == old(self).line_ops().push(LineOp::SetSda(state)),
    ;

    fn set_scl(&mut self, state: usize)
        ensures
            final(self).line_ops() == old(self).line_ops().push(LineOp::SetScl(state)),
    ;

    fn get_sda(&mut self) -> (v: usize)
        ensures
            final(self).line_ops() == old(self).line_ops().push(LineOp::GetSda(v)),
    ;

    fn get_scl(&mut self) -> (v: usize)
        ensures
            final(self).line_ops() == old(self).line_ops().push(LineOp::GetScl(v)),
    ;

    fn udelay(&mut self, us: usize)
        ensures
            final(self).line_ops() == old(self).line_ops().push(LineOp::Udelay(us)),
    ;
}

/// The levels driven in the calls `t`, in order.
pub open spec fn writes_of(t: Seq<LineOp>) -> Seq<LineWrite>
    decreases t.len(),
{
    if t.len() == 0 {
        Seq::empty()
    } else {
        let w = writes_of(t.drop_last());
        match t.last() {
            LineOp::SetSda(v) => w.push(LineWrite::Sda(v)),
            LineOp::SetScl(v) => w.push(LineWrite::Scl(v)),
            _ => w,
        }
    }
}

/// The SDA samples in the calls `t`, in order.
pub open spec fn sda_reads_of(t: Seq<LineOp>) -> Seq<usize>
    decreases t.len(),
{
    if t.len() == 0 {
        Seq::empty()
    } else {
        let r = sda_reads_of(t.drop_last());
        match t.last() {
            LineOp::GetSda(v) => r.push(v),
            _ => r,
        }
    }
}

/// The SCL samples in the calls `t`, in order.
pub open spec fn scl_reads_of(t: Seq<LineOp>) -> Seq<usize>
    decreases t.len(),
{
    if t.len() == 0 {
        Seq::empty()
    } else {
        let r = scl_reads_of(t.drop_last());
        match t.last() {
            LineOp::GetScl(v) => r.push(v),
            _ => r,
        }
    }
}

/// The waits in the calls `t`, in order.
pub open spec fn waits_of(t: Seq<LineOp>) -> Seq<usize>
    decreases t.len(),
{
    if t.len() == 0 {
        Seq::empty()
    } else {
        let r = waits_of(t.drop_last());
        match t.last() {
            LineOp::Udelay(v) => r.push(v),
            _ => r,
        }
    }
}

/// One more call adds to the record of its own kind only.
pub proof fn lemma_line_op_push(t: Seq<LineOp>, op: LineOp)
    ensures
        writes_of(t.push(op)) == (match op {
            LineOp::SetSda(v) => writes_of(t).push(LineWrite::Sda(v)),
            LineOp::SetScl(v) => writes_of(t).push(LineWrite::Scl(v)),
            _ => writes_of(t),
        }),
        sda_reads_of(t.push(op)) == (match op {
            LineOp::GetSda(v) => sda_reads_of(t).push(v),
            _ => sda_reads_of(t),
        }),
        scl_reads_of(t.push(op)) == (match op {
            LineOp::GetScl(v) => scl_reads_of(t).push(v),
            _ => scl_reads_of(t),
        }),
        waits_of(t.push(op)) == (match op {
            LineOp::Udelay(v) => waits_of(t).push(v),
            _ => waits_of(t),
        }),
{
    assert(t.push(op).drop_last() =~= t);
}

/// A level driven onto one of the two lines.
#[derive(PartialEq, Eq, Structural, Copy, Clone, Debug)]
pub enum LineWrite {
    Sda(usize),
    Scl(usize),
}

/// `b` continues `a`: it holds the calls of `a` followed by more.
pub open spec fn extends(a: Seq<LineOp>, b: Seq<LineOp>) -> bool {
    a.len() <= b.len() && b.subrange(0, a.len() as int) == a
}

/// The SCL samples taken by the calls of `b` that follow those of `a`.
pub open spec fn new_scl(a: Seq<LineOp>, b: Seq<LineOp>) -> Seq<usize> {
    scl_reads_of(b.skip(a.len() as int))
}

/// `s` holds `timeout + 1` low SCL samples in a row: a wait for the clock
/// that timed out.
pub open spec fn timed_out(s: Seq<usize>, timeout: usize) -> bool {
    exists|k: int| #[trigger] low_run(s, k, timeout)
}

/// The samples of `s` from `k` on are `timeout + 1` low ones.
pub open spec fn low_run(s: Seq<usize>, k: int, timeout: usize) -> bool {
    0 <= k && k + timeout + 1 <= s.len() && (forall|j: int| k <= j < k + timeout + 1 ==> #[trigger] s[j] == 0)
}

/// Every run of calls continues itself.
pub proof fn lemma_extends_refl(a: Seq<LineOp>)
    ensures
        extends(a, a),
{
    assert(a.subrange(0, a.len() as int) =~= a);
}

/// One call more continues a run of calls.
pub proof fn lemma_extends_push(a: Seq<LineOp>, op: LineOp)
    ensures
        extends(a, a.push(op)),
{
    assert(a.push(op).subrange(0, a.len() as int) =~= a);
}

/// Continuing a continuation continues the start.
pub proof fn lemma_extends_trans(a: Seq<LineOp>, b: Seq<LineOp>, c: Seq<LineOp>)
    requires
        extends(a, b),
        extends(b, c),
    ensures
        extends(a, c),
{
    assert(c.subrange(0, a.len() as int) =~= b.subrange(0, a.len() as int));
}

/// The SCL samples of two runs of calls are those of each, in order.
pub proof fn lemma_scl_reads_concat(a: Seq<LineOp>, b: Seq<LineOp>)
    ensures
        scl_reads_of(a + b) == scl_reads_of(a) + scl_reads_of(b),
    decreases b.len(),
{
    if b.len() == 0 {
        assert(a + b =~= a);
        assert(scl_reads_of(a) + scl_reads_of(b) =~= scl_reads_of(a));
    } else {
        lemma_scl_reads_concat(a, b.drop_last());
        assert((a + b).drop_last() =~= a + b.drop_last());
        assert((a + b).last() == b.last());
        match b.last() {
            LineOp::GetScl(v) => {
                assert(scl_reads_of(a) + scl_reads_of(b) =~= (scl_reads_of(a) + scl_reads_of(b.drop_last())).push(v));
            },
            _ => {},
        }
    }
}

/// A timed-out wait among the calls from `t1` to `t2` is one among the calls
/// from `t0` to `t3`, when each of these continues the one before.
pub proof fn lemma_timed_out_within(t0: Seq<LineOp>, t1: Seq<LineOp>, t2: Seq<LineOp>, t3: Seq<LineOp>, timeout: usize)
    requires
        extends(t0, t1),
        extends(t1, t2),
        extends(t2, t3),
        timed_out(new_scl(t1, t2), timeout),
    ensures
        extends(t0, t3),
        timed_out(new_scl(t0, t3), timeout),
{
    let x = t1.skip(t0.len() as int);
    let y = t2.skip(t1.len() as int);
    let z = t3.skip(t2.len() as int);
    assert(t1 =~= t0 + x);
    assert(t2 =~= t1 + y);
    assert(t3 =~= t2 + z);
    assert(t3.skip(t0.len() as int) =~= x + y + z);
    assert(t3.subrange(0, t0.len() as int) =~= t0);
    lemma_scl_reads_concat(x, y);
    lemma_scl_reads_concat(x + y, z);
    let sx = scl_reads_of(x);
    let sy = scl_reads_of(y);
    let all = scl_reads_of(x + y + z);
    let k = choose|k: int| #[trigger] low_run(sy, k, timeout);
    assert forall|j: int| k + sx.len() <= j < k + sx.len() + timeout + 1 implies #[trigger] all[j] == 0 by {
        assert(all[j] == sy[j - sx.len()]);
    }
    assert(low_run(all, k + sx.len(), timeout));
}

/// A bus driven by toggling two lines through its line operations.
pub struct I2cBit<O: I2cBitOps> {
    pub data: Option<usize>,
    pub delay_us: usize,
    pub timeout: usize,
    pub retries: usize,
    pub ops: Option<O>,
    pub xfer_log: XferLog,
}

/// The transfers a bit-banged bus has run: each with its messages before
/// and after the transfer and what the transfer gave. Only this module adds
/// to it.
pub struct XferLog {
    entries: Ghost<Seq<(Seq<I2cMsg>, Seq<I2cMsg>, usize)>>,
}

impl XferLog {
    /// The transfers, oldest first.
    pub closed spec fn entries(&self) -> Seq<(Seq<I2cMsg>, Seq<I2cMsg>, usize)> {
        self.entries@
    }

    /// A log of no transfers.
    pub fn new() -> (l: XferLog)
        ensures
            l.entries() == Seq::<(Seq<I2cMsg>, Seq<I2cMsg>, usize)>::empty(),
    {
        XferLog { entries: Ghost(Seq::empty()) }
    }
}

impl<O: I2cBitOps> I2cBit<O> {
    /// The calls the line operations have served (none without them).
    pub open spec fn trace(&self) -> Seq<LineOp> {
        match self.ops {
            Some(o) => o.line_ops(),
            None => Seq::empty(),
        }
    }

    /// The levels driven onto the lines, in order.
    pub open spec fn writes(&self) -> Seq<LineWrite> {
        writes_of(self.trace())
    }

    /// The SDA samples taken, in order.
    pub open spec fn sda_reads(&self) -> Seq<usize> {
        sda_reads_of(self.trace())
    }

    /// The SCL samples taken, in order.
    pub open spec fn scl_reads(&self) -> Seq<usize> {
        scl_reads_of(self.trace())
    }

    /// The waits made, in microseconds, in order.
    pub open spec fn waits(&self) -> Seq<usize> {
        waits_of(self.trace())
    }
}

/// Configuration, presence of the line operations and SDA samples are the same.
pub open spec fn same_setup<O: I2cBitOps>(a: I2cBit<O>, b: I2cBit<O>) -> bool {
    &&& a.data == b.data
    &&& a.delay_us == b.delay_us
    &&& a.timeout == b.timeout
    &&& a.retries == b.retries
    &&& (a.ops is Some <==> b.ops is Some)
    &&& a.sda_reads() == b.sda_reads()
}

/// Configuration and presence of the line operations are the same.
pub open spec fn same_config<O: I2cBitOps>(a: I2cBit<O>, b: I2cBit<O>) -> bool {
    &&& a.data == b.data
    &&& a.delay_us == b.delay_us
    &&& a.timeout == b.timeout
    &&& a.retries == b.retries
    &&& (a.ops is Some <==> b.ops is Some)
}

/// Half of the delay `d`, rounded up: the wait within a clock phase.
pub open spec fn half_of(d: usize) -> usize {
    (d / 2 + d % 2) as usize
}

/// The calls of `n` polls of SCL that found it low, each followed by a wait
/// of `half`.
pub open spec fn low_polls(n: nat, half: usize) -> Seq<LineOp>
    decreases n,
{
    if n == 0 {
        Seq::empty()
    } else {
        low_polls((n - 1) as nat, half) + seq![LineOp::GetScl(0), LineOp::Udelay(half)]
    }
}

/// The calls of polling SCL with the samples `s`: each sample, and a wait of
/// `half` after each one but the last.
pub open spec fn scl_poll_ops(s: Seq<usize>, half: usize) -> Seq<LineOp> {
    low_polls((s.len() - 1) as nat, half).push(LineOp::GetScl(s.last()))
}

/// SCL was released and polled: the samples `r1` extend `r0` by the new
/// samples, the waits `w1` extend `w0` by one `half` wait after each low
/// sample but the last. The clock came up (`up`) exactly when the last new
/// sample is high, after at most `timeout` low ones; otherwise `timeout + 1`
/// low samples were taken.
pub open spec fn scl_waited(r0: Seq<usize>, r1: Seq<usize>, w0: Seq<usize>, w1: Seq<usize>, timeout: usize, half: usize, up: bool) -> bool {
    let s = r1.skip(r0.len() as int);
    &&& r1.len() >= r0.len()
    &&& r1.subrange(0, r0.len() as int) == r0
    &&& w1.len() >= w0.len()
    &&& w1.subrange(0, w0.len() as int) == w0
    &&& 1 <= s.len() <= timeout + 1
    &&& forall|k: int| 0 <= k < s.len() - 1 ==> #[trigger] s[k] == 0
    &&& w1.skip(w0.len() as int) == Seq::new((s.len() - 1) as nat, |k: int| half)
    &&& up <==> s.last() != 0
    &&& !up ==> s.len() == timeout + 1
}

/// The start condition: SDA low, then SCL low.
pub open spec fn start_seq() -> Seq<LineWrite> {
    seq![LineWrite::Sda(0), LineWrite::Scl(0)]
}

/// The repeated start condition: SDA high, SCL high, SDA low, SCL low.
pub open spec fn restart_seq() -> Seq<LineWrite> {
    seq![LineWrite::Sda(1), LineWrite::Scl(1), LineWrite::Sda(0), LineWrite::Scl(0)]
}

/// The stop condition: SDA low, SCL high, SDA high.
pub open spec fn stop_seq() -> Seq<LineWrite> {
    seq![LineWrite::Sda(0), LineWrite::Scl(1), LineWrite::Sda(1)]
}

/// Bit `i` of `data`, least significant first.
pub open spec fn bit_of(data: u8, i: int) -> usize {
    ((data >> (i as u8)) & 1u8) as usize
}

/// The writes that send the first `n` bits of `data`, least significant
/// first: for each, SCL low, SDA to the bit, SCL high.
pub open spec fn writeb_seq(data: u8, n: nat) -> Seq<LineWrite>
    decreases n,
{
    if n == 0 {
        Seq::empty()
    } else {
        writeb_seq(data, (n - 1) as nat) + seq![
            LineWrite::Scl(0),
            LineWrite::Sda(bit_of(data, n - 1)),
            LineWrite::Scl(1),
        ]
    }
}

/// The writes of reading `n` bits: SDA released high, then for each bit SCL
/// high and low again.
pub open spec fn readb_seq(n: nat) -> Seq<LineWrite>
    decreases n,
{
    if n == 0 {
        seq![LineWrite::Sda(1)]
    } else {
        readb_seq((n - 1) as nat) + seq![LineWrite::Scl(1), LineWrite::Scl(0)]
    }
}

/// The byte that SDA samples `s[0..n]` spell, first sample most significant.
pub open spec fn assemble(s: Seq<usize>, n: nat) -> int
    decreases n,
{
    if n == 0 {
        0
    } else {
        2 * assemble(s, (n - 1) as nat) + (if s[n - 1] != 0 {
            1int
        } else {
            0int
        })
    }
}

/// The writes of acknowledging (`ack > 0`: SDA low first) or not a byte.
pub open spec fn ack_seq(ack: usize) -> Seq<LineWrite> {
    if ack > 0 {
        seq![LineWrite::Sda(0), LineWrite::Scl(1), LineWrite::Scl(0)]
    } else {
        seq![LineWrite::Scl(1), LineWrite::Scl(0)]
    }
}

/// `u` repeated `n` times.
pub open spec fn repeat(u: Seq<LineWrite>, n: nat) -> Seq<LineWrite>
    decreases n,
{
    if n == 0 {
        Seq::empty()
    } else {
        repeat(u, (n - 1) as nat) + u
    }
}

/// The writes of sending address byte `addr` with `retries` attempts, each
/// one the byte, a stop and a start.
pub open spec fn send_addr_seq(addr: u8, retries: nat) -> Seq<LineWrite> {
    repeat(writeb_seq(addr, 8) + stop_seq() + start_seq(), retries)
}

/// The address bytes of a message: for seven-bit addresses the address
/// shifted left with the read bit; for ten-bit addresses the marker 0xf0 with
/// bits 8-9 of the address, then its low byte (and the first byte again with
/// the read bit, after a repeated start, for reads).
pub open spec fn address_bytes(addr: u16, flags: u16) -> (u8, u8) {
    if flags & I2C_ADDR_10BIT != 0 {
        ((0xf0u8 | (((addr >> 7u16) as u8) & 0x06u8)), (addr & 0xffu16) as u8)
    } else if flags & I2C_RD != 0 {
        (((addr << 1u16) as u8) | 1u8, 0)
    } else {
        ((addr << 1u16) as u8, 0)
    }
}

/// All the writes of `send_address` when nothing is cut short: the first
/// address byte with its retries and, for a ten-bit address, the low byte
/// and, for a read, a repeated start and the first byte again with the read
/// bit.
pub open spec fn address_writes(addr: u16, flags: u16, retries: nat) -> Seq<LineWrite> {
    let (a1, a2) = address_bytes(addr, flags);
    if flags & I2C_ADDR_10BIT == 0 {
        send_addr_seq(a1, retries)
    } else if flags & I2C_RD != 0 {
        send_addr_seq(a1, retries) + writeb_seq(a2, 8) + restart_seq() + send_addr_seq(a1 | 1u8, retries)
    } else {
        send_addr_seq(a1, retries) + writeb_seq(a2, 8)
    }
}

/// One more run of calls after `ta`, ending at `tb`: a wait that timed out
/// before it, or during it, is one since `t0`.
pub proof fn lemma_timeout_step(t0: Seq<LineOp>, ta: Seq<LineOp>, tb: Seq<LineOp>, timeout: usize, was: bool, failed: bool)
    requires
        extends(t0, ta),
        extends(ta, tb),
        was ==> timed_out(new_scl(t0, ta), timeout),
        failed ==> timed_out(new_scl(ta, tb), timeout),
    ensures
        extends(t0, tb),
        was || failed ==> timed_out(new_scl(t0, tb), timeout),
{
    lemma_extends_trans(t0, ta, tb);
    lemma_extends_refl(t0);
    lemma_extends_refl(tb);
    if was {
        lemma_timed_out_within(t0, t0, ta, tb, timeout);
    } else if failed {
        lemma_timed_out_within(t0, ta, tb, tb, timeout);
    }
}

/// The number of attempts at each address byte: none when a missing
/// acknowledge is to be ignored.
pub open spec fn effective_retries(flags: u16, retries: usize) -> nat {
    if flags & I2C_IGNORE_NACK == 0 {
        retries as nat
    } else {
        0
    }
}

/// `w` is a prefix of `full`.
pub open spec fn prefix_of(w: Seq<LineWrite>, full: Seq<LineWrite>) -> bool {
    w.len() <= full.len() && full.subrange(0, w.len() as int) == w
}

/// The writes of `send_address`: each address byte sent (or the part of it
/// sent before a failure that the message's flags let pass).
pub open spec fn send_address_writes(w: Seq<LineWrite>, addr: u16, flags: u16, retries: nat) -> bool {
    let (a1, a2) = address_bytes(addr, flags);
    if flags & I2C_ADDR_10BIT == 0 {
        prefix_of(w, send_addr_seq(a1, retries))
    } else {
        exists|p1: Seq<LineWrite>, p2: Seq<LineWrite>, p3: Seq<LineWrite>, p4: Seq<LineWrite>|
            {
                &&& prefix_of(p1, send_addr_seq(a1, retries))
                &&& prefix_of(p2, writeb_seq(a2, 8))
                &&& prefix_of(p3, restart_seq())
                &&& prefix_of(p4, send_addr_seq(a1 | 1u8, retries))
                &&& (flags & I2C_RD == 0 ==> p3.len() == 0 && p4.len() == 0)
                &&& w == p1 + p2 + p3 + p4
            }
    }
}

/// The writes of message `index` of a transfer, each part possibly cut short by
/// a failure: the start (or, after the first message, repeated start)
/// condition and the address unless the message asks for none, the bytes
/// received, and a stop condition for a write.
pub open spec fn xfer_msg_writes(w: Seq<LineWrite>, m: I2cMsg, index: int, retries: usize) -> bool {
    exists|a: Seq<LineWrite>, b: Seq<LineWrite>, c: Seq<LineWrite>, d: Seq<LineWrite>|
        {
            &&& m.spec_flags() & I2C_NO_START == 0 ==> {
                &&& prefix_of(a, if index == 0 { start_seq() } else { restart_seq() })
                &&& send_address_writes(b, m.spec_addr(), m.spec_flags(), effective_retries(m.spec_flags(), retries))
            }
            &&& m.spec_flags() & I2C_NO_START != 0 ==> a.len() == 0 && b.len() == 0
            &&& prefix_of(c, recv_seq(m.spec_len() as nat, m.spec_len() as nat, acks(m.spec_flags())))
            &&& m.spec_flags() & I2C_RD == 0 ==> prefix_of(d, stop_seq())
            &&& m.spec_flags() & I2C_RD != 0 ==> d.len() == 0
            &&& w == a + b + c + d
        }
}

/// The first `n` sequences of `segs`, one after the other.
pub open spec fn concat_all(segs: Seq<Seq<LineWrite>>, n: nat) -> Seq<LineWrite>
    decreases n,
{
    if n == 0 {
        Seq::empty()
    } else {
        concat_all(segs, (n - 1) as nat) + segs[n - 1]
    }
}

/// Appending a sequence appends its writes.
proof fn lemma_concat_push(segs: Seq<Seq<LineWrite>>, seg: Seq<LineWrite>, n: nat)
    requires
        segs.len() == n,
    ensures
        concat_all(segs.push(seg), n + 1) == concat_all(segs, n) + seg,
{
    lemma_concat_prefix(segs, segs.push(seg), n);
}

/// Only the first `n` sequences count.
proof fn lemma_concat_prefix(segs: Seq<Seq<LineWrite>>, more: Seq<Seq<LineWrite>>, n: nat)
    requires
        n <= segs.len(),
        n <= more.len(),
        forall|k: int| 0 <= k < n ==> segs[k] == more[k],
    ensures
        concat_all(segs, n) == concat_all(more, n),
    decreases n,
{
    if n > 0 {
        lemma_concat_prefix(segs, more, (n - 1) as nat);
    }
}

proof fn lemma_prefix_refl(w: Seq<LineWrite>)
    ensures
        prefix_of(w, w),
{
    assert(w.subrange(0, w.len() as int) =~= w);
}

proof fn lemma_prefix_empty(full: Seq<LineWrite>)
    ensures
        prefix_of(Seq::empty(), full),
{
    assert(full.subrange(0, 0) =~= Seq::<LineWrite>::empty());
}

/// A prefix of `u` after `i` copies of `u` is a prefix of `n > i` copies.
proof fn lemma_repeat_prefix(u: Seq<LineWrite>, i: nat, n: nat, a: Seq<LineWrite>)
    requires
        i < n,
        prefix_of(a, u),
    ensures
        prefix_of(repeat(u, i) + a, repeat(u, n)),
    decreases n,
{
    if n == i + 1 {
        assert((repeat(u, i) + u).subrange(0, (repeat(u, i) + a).len() as int) =~= repeat(u, i) + a);
    } else {
        lemma_repeat_prefix(u, i, (n - 1) as nat, a);
        let r = repeat(u, (n - 1) as nat);
        assert((r + u).subrange(0, (repeat(u, i) + a).len() as int) =~= r.subrange(
            0,
            (repeat(u, i) + a).len() as int,
        ));
    }
}

/// Two to the power `n`.
pub open spec fn p2(n: nat) -> int
    decreases n,
{
    if n == 0 {
        1
    } else {
        2 * p2((n - 1) as nat)
    }
}

proof fn lemma_p2_pos(n: nat)
    ensures
        p2(n) >= 1,
    decreases n,
{
    if n > 0 {
        lemma_p2_pos((n - 1) as nat);
    }
}

proof fn lemma_p2_monotone(i: nat, j: nat)
    requires
        i <= j,
    ensures
        1 <= p2(i) <= p2(j),
    decreases j,
{
    lemma_p2_pos(i);
    if j > i {
        lemma_p2_monotone(i, (j - 1) as nat);
        lemma_p2_pos((j - 1) as nat);
    }
}

proof fn lemma_p2_seven()
    ensures
        p2(7) == 128,
{
    reveal_with_fuel(p2, 8);
}

/// `n` samples spell a number below two to the `n`.
proof fn lemma_assemble_bound(s: Seq<usize>, n: nat)
    ensures
        0 <= assemble(s, n) < p2(n),
    decreases n,
{
    if n > 0 {
        lemma_assemble_bound(s, (n - 1) as nat);
    }
}

/// The first `n` samples decide what they spell.
proof fn lemma_assemble_prefix(s: Seq<usize>, t: Seq<usize>, n: nat)
    requires
        n <= s.len(),
        n <= t.len(),
        s.subrange(0, n as int) == t.subrange(0, n as int),
    ensures
        assemble(s, n) == assemble(t, n),
    decreases n,
{
    if n > 0 {
        assert(s.subrange(0, n - 1) =~= s.subrange(0, n as int).subrange(0, n - 1));
        assert(t.subrange(0, n - 1) =~= t.subrange(0, n as int).subrange(0, n - 1));
        assert(s[n - 1] == s.subrange(0, n as int)[n - 1]);
        assert(t[n - 1] == t.subrange(0, n as int)[n - 1]);
        lemma_assemble_prefix(s, t, (n - 1) as nat);
    }
}

proof fn lemma_prefix_take(s: Seq<LineWrite>, n: int)
    requires
        0 <= n <= s.len(),
    ensures
        prefix_of(s.take(n), s),
{
    assert(s.subrange(0, n) =~= s.take(n));
}

/// Extending both sides after a common start keeps a prefix a prefix.
proof fn lemma_prefix_concat(x: Seq<LineWrite>, a: Seq<LineWrite>, b: Seq<LineWrite>, c: Seq<LineWrite>)
    requires
        prefix_of(a, b),
    ensures
        prefix_of(x + a, x + b + c),
{
    assert((x + b + c).subrange(0, (x + a).len() as int) =~= x + a);
}

/// Fewer bits sent are a prefix of more.
proof fn lemma_writeb_prefix(data: u8, j: nat, k: nat)
    requires
        j <= k,
    ensures
        prefix_of(writeb_seq(data, j), writeb_seq(data, k)),
    decreases k,
{
    if j == k {
        lemma_prefix_refl(writeb_seq(data, k));
    } else {
        lemma_writeb_prefix(data, j, (k - 1) as nat);
        let a = writeb_seq(data, j);
        let b = writeb_seq(data, (k - 1) as nat);
        let c = seq![LineWrite::Scl(0), LineWrite::Sda(bit_of(data, k - 1)), LineWrite::Scl(1)];
        lemma_prefix_concat(Seq::empty(), a, b, c);
        assert(Seq::<LineWrite>::empty() + a =~= a);
        assert(Seq::<LineWrite>::empty() + b + c =~= writeb_seq(data, k));
    }
}

/// Whether received bytes are to be acknowledged under `flags`.
pub open spec fn acks(flags: u16) -> bool {
    flags & I2C_NO_READ_ACK == 0
}

/// The writes of receiving byte `k` of a message of `len` bytes: the byte is
/// read, then (`ack`) acknowledged, the last byte not.
pub open spec fn recv_byte_seq(len: nat, k: nat, ack: bool) -> Seq<LineWrite> {
    readb_seq(8) + (if ack {
        ack_seq((len - k - 1) as usize)
    } else {
        Seq::<LineWrite>::empty()
    })
}

/// The writes of receiving the first `n` bytes of a message of `len` bytes.
pub open spec fn recv_seq(len: nat, n: nat, ack: bool) -> Seq<LineWrite>
    decreases n,
{
    if n == 0 {
        Seq::empty()
    } else {
        recv_seq(len, (n - 1) as nat, ack) + recv_byte_seq(len, (n - 1) as nat, ack)
    }
}

proof fn lemma_prefix_trans(a: Seq<LineWrite>, b: Seq<LineWrite>, c: Seq<LineWrite>)
    requires
        prefix_of(a, b),
        prefix_of(b, c),
    ensures
        prefix_of(a, c),
{
    assert(c.subrange(0, a.len() as int) =~= b.subrange(0, a.len() as int));
}

/// Fewer bits read are a prefix of more.
proof fn lemma_readb_prefix(i: nat, k: nat)
    requires
        i <= k,
    ensures
        prefix_of(readb_seq(i), readb_seq(k)),
    decreases k,
{
    if i == k {
        lemma_prefix_refl(readb_seq(k));
    } else {
        lemma_readb_prefix(i, (k - 1) as nat);
        lemma_prefix_refl(readb_seq((k - 1) as nat));
        lemma_prefix_concat(Seq::empty(), readb_seq((k - 1) as nat), readb_seq((k - 1) as nat), seq![LineWrite::Scl(1), LineWrite::Scl(0)]);
        assert(Seq::<LineWrite>::empty() + readb_seq((k - 1) as nat) =~= readb_seq((k - 1) as nat));
        assert(Seq::<LineWrite>::empty() + readb_seq((k - 1) as nat) + seq![LineWrite::Scl(1), LineWrite::Scl(0)] =~= readb_seq(k));
        lemma_prefix_trans(readb_seq(i), readb_seq((k - 1) as nat), readb_seq(k));
    }
}

/// Fewer bytes received are a prefix of more.
proof fn lemma_recv_prefix(len: nat, i: nat, k: nat, ack: bool)
    requires
        i <= k,
    ensures
        prefix_of(recv_seq(len, i, ack), recv_seq(len, k, ack)),
    decreases k,
{
    if i == k {
        lemma_prefix_refl(recv_seq(len, k, ack));
    } else {
        lemma_recv_prefix(len, i, (k - 1) as nat, ack);
        let a = recv_seq(len, (k - 1) as nat, ack);
        lemma_prefix_refl(a);
        lemma_prefix_concat(Seq::empty(), a, a, recv_byte_seq(len, (k - 1) as nat, ack));
        assert(Seq::<LineWrite>::empty() + a =~= a);
        assert(Seq::<LineWrite>::empty() + a + recv_byte_seq(len, (k - 1) as nat, ack) =~= recv_seq(len, k, ack));
        lemma_prefix_trans(recv_seq(len, i, ack), a, recv_seq(len, k, ack));
    }
}

/// Writes that stop inside the receipt of byte `k` are a prefix of
/// receiving all `len` bytes.
proof fn lemma_recv_partial(len: nat, k: nat, ack: bool, part: Seq<LineWrite>)
    requires
        k < len,
        prefix_of(part, recv_byte_seq(len, k, ack)),
    ensures
        prefix_of(recv_seq(len, k, ack) + part, recv_seq(len, len, ack)),
{
    lemma_prefix_concat(recv_seq(len, k, ack), part, recv_byte_seq(len, k, ack), Seq::empty());
    assert(recv_seq(len, k, ack) + recv_byte_seq(len, k, ack) + Seq::<LineWrite>::empty() =~= recv_seq(len, k + 1, ack));
    lemma_recv_prefix(len, k + 1, len, ack);
    lemma_prefix_trans(recv_seq(len, k, ack) + part, recv_seq(len, k + 1, ack), recv_seq(len, len, ack));
}

/// Writes that stop while reading byte `k`, after `j` of its bits, are a
/// prefix of receiving all `len` bytes.
proof fn lemma_recv_stop_in_read(len: nat, k: nat, ack: bool, j: nat)
    requires
        k < len,
        j < 8,
    ensures
        prefix_of(recv_seq(len, k, ack) + (readb_seq(j) + seq![LineWrite::Scl(1)]), recv_seq(len, len, ack)),
{
    let part = readb_seq(j) + seq![LineWrite::Scl(1)];
    assert(prefix_of(part, readb_seq(j + 1))) by {
        assert(readb_seq(j + 1).subrange(0, part.len() as int) =~= part);
    }
    lemma_readb_prefix(j + 1, 8);
    lemma_prefix_trans(part, readb_seq(j + 1), readb_seq(8));
    let tail = if ack { ack_seq((len - k - 1) as usize) } else { Seq::<LineWrite>::empty() };
    lemma_prefix_concat(Seq::empty(), part, readb_seq(8), tail);
    assert(Seq::<LineWrite>::empty() + part =~= part);
    assert(Seq::<LineWrite>::empty() + readb_seq(8) + tail =~= recv_byte_seq(len, k, ack));
    lemma_recv_partial(len, k, ack, part);
}

/// Writes that stop while acknowledging byte `k` are a prefix of receiving
/// all `len` bytes.
proof fn lemma_recv_stop_in_ack(len: nat, k: nat)
    requires
        k < len,
    ensures
        prefix_of(recv_seq(len, k, true) + (readb_seq(8) + ack_seq((len - k - 1) as usize).take(
            ack_seq((len - k - 1) as usize).len() - 1,
        )), recv_seq(len, len, true)),
{
    let aseq = ack_seq((len - k - 1) as usize);
    let part = readb_seq(8) + aseq.take(aseq.len() - 1);
    assert(recv_byte_seq(len, k, true) == readb_seq(8) + aseq);
    assert((readb_seq(8) + aseq).subrange(0, part.len() as int) =~= part);
    lemma_recv_partial(len, k, true, part);
}

impl<O: I2cBitOps> I2cBit<O> {
    /// A bus without line operations: 1 µs delay, 100 polls timeout, no retries.
    pub fn new() -> (b: I2cBit<O>)
        ensures
            b.data is None,
            b.delay_us == 1,
            b.timeout == 100,
            b.retries == 0,
            b.ops is None,
            b.writes() == Seq::<LineWrite>::empty(),
            b.sda_reads() == Seq::<usize>::empty(),
            b.scl_reads() == Seq::<usize>::empty(),
            b.waits() == Seq::<usize>::empty(),
            b.xfer_log.entries().len() == 0,
    {
        I2cBit {
            data: None,
            delay_us: 1,
            timeout: 100,
            retries: 0,
            ops: None,
            xfer_log: XferLog::new(),
        }
    }

    /// A bus without line operations, with user data `data`, half-period
    /// `delay_us` and `timeout`; no retries.
    pub fn init(data: Option<usize>, delay_us: usize, timeout: usize) -> (b: I2cBit<O>)
        ensures
            b.data == data,
            b.delay_us == delay_us,
            b.timeout == timeout,
            b.retries == 0,
            b.ops is None,
            b.writes() == Seq::<LineWrite>::empty(),
            b.sda_reads() == Seq::<usize>::empty(),
            b.scl_reads() == Seq::<usize>::empty(),
            b.waits() == Seq::<usize>::empty(),
            b.xfer_log.entries().len() == 0,
    {
        I2cBit {
            data,
            delay_us,
            timeout,
            retries: 0,
            ops: None,
            xfer_log: XferLog::new(),
        }
    }

    /// The line operations.
    pub fn ops(&mut self) -> (o: &mut O)
        requires
            old(self).ops is Some,
        ensures
            *o == old(self).ops->0,
            final(self).ops == Some(*final(o)),
            same_config(*old(self), *final(self)),
    {
        self.ops.as_mut().unwrap()
    }

    /// Half the delay, rounded up.
    fn half_delay(&self) -> (h: usize)
        ensures
            h == self.delay_us / 2 + self.delay_us % 2,
    {
        self.delay_us / 2 + self.delay_us % 2
    }

    /// Drives SDA to `state` (when there are line operations).
    fn line_sda(&mut self, state: usize)
        ensures
            same_setup(*old(self), *final(self)),
            final(self).trace() == (if old(self).ops is Some {
                old(self).trace().push(LineOp::SetSda(state))
            } else {
                old(self).trace()
            }),
            final(self).scl_reads() == old(self).scl_reads(),
            final(self).waits() == old(self).waits(),
            final(self).writes() == (if old(self).ops is Some {
                old(self).writes().push(LineWrite::Sda(state))
            } else {
                old(self).writes()
            }),
    {
        if let Some(ops) = &mut self.ops {
            let ghost t = ops.line_ops();
            ops.set_sda(state);
            proof {
                lemma_line_op_push(t, LineOp::SetSda(state));
            }
        }
    }

    /// Drives SCL to `state` (when there are line operations).
    fn line_scl(&mut self, state: usize)
        ensures
            same_setup(*old(self), *final(self)),
            final(self).trace() == (if old(self).ops is Some {
                old(self).trace().push(LineOp::SetScl(state))
            } else {
                old(self).trace()
            }),
            final(self).scl_reads() == old(self).scl_reads(),
            final(self).waits() == old(self).waits(),
            final(self).writes() == (if old(self).ops is Some {
                old(self).writes().push(LineWrite::Scl(state))
            } else {
                old(self).writes()
            }),
    {
        if let Some(ops) = &mut self.ops {
            let ghost t = ops.line_ops();
            ops.set_scl(state);
            proof {
                lemma_line_op_push(t, LineOp::SetScl(state));
            }
        }
    }

    /// Waits `us` microseconds (when there are line operations); the wait is
    /// recorded.
    fn wait(&mut self, us: usize)
        ensures
            same_setup(*old(self), *final(self)),
            final(self).trace() == (if old(self).ops is Some {
                old(self).trace().push(LineOp::Udelay(us))
            } else {
                old(self).trace()
            }),
            final(self).writes() == old(self).writes(),
            final(self).scl_reads() == old(self).scl_reads(),
            final(self).waits() == (if old(self).ops is Some {
                old(self).waits().push(us)
            } else {
                old(self).waits()
            }),
    {
        if let Some(ops) = &mut self.ops {
            let ghost t = ops.line_ops();
            ops.udelay(us);
            proof {
                lemma_line_op_push(t, LineOp::Udelay(us));
            }
        }
    }

    /// Samples SDA (0 without line operations).
    fn sample_sda(&mut self) -> (v: usize)
        ensures
            same_config(*old(self), *final(self)),
            final(self).trace() == (if old(self).ops is Some {
                old(self).trace().push(LineOp::GetSda(v))
            } else {
                old(self).trace()
            }),
            final(self).writes() == old(self).writes(),
            final(self).sda_reads() == (if old(self).ops is Some {
                old(self).sda_reads().push(v)
            } else {
                old(self).sda_reads()
            }),
    {
        if let Some(ops) = &mut self.ops {
            let ghost t = ops.line_ops();
            let v = ops.get_sda();
            proof {
                lemma_line_op_push(t, LineOp::GetSda(v));
            }
            v
        } else {
            0
        }
    }

    /// Samples SCL (0 without line operations); the sample is recorded.
    fn sample_scl(&mut self) -> (v: usize)
        ensures
            same_setup(*old(self), *final(self)),
            final(self).trace() == (if old(self).ops is Some {
                old(self).trace().push(LineOp::GetScl(v))
            } else {
                old(self).trace()
            }),
            final(self).writes() == old(self).writes(),
            final(self).waits() == old(self).waits(),
            old(self).ops is None ==> v == 0 && final(self).scl_reads() == old(self).scl_reads(),
            old(self).ops is Some ==> final(self).scl_reads() == old(self).scl_reads().push(v),
    {
        if let Some(ops) = &mut self.ops {
            let ghost t = ops.line_ops();
            let v = ops.get_scl();
            proof {
                lemma_line_op_push(t, LineOp::GetScl(v));
            }
            v
        } else {
            0
        }
    }

    /// Releases SCL high and waits until it reads high, polling at most
    /// `timeout` more times (a device may hold the clock low).
    fn scl_h(&mut self) -> (r: Result<(), Error>)
        ensures
            same_setup(*old(self), *final(self)),
            old(self).ops is None ==> r == Err::<(), Error>(Error::Intr) && final(self).writes()
                == old(self).writes() && final(self).scl_reads() == old(self).scl_reads()
                && final(self).waits() == old(self).waits(),
            old(self).ops is Some ==> (r is Ok || r == Err::<(), Error>(Error::TimeOut))
                && final(self).writes() == old(self).writes().push(LineWrite::Scl(1))
                && scl_waited(old(self).scl_reads(), final(self).scl_reads(), old(self).waits(), final(self).waits(),
                    old(self).timeout, half_of(old(self).delay_us), r is Ok)
                && final(self).trace() == old(self).trace().push(LineOp::SetScl(1)) + scl_poll_ops(
                    final(self).scl_reads().skip(old(self).scl_reads().len() as int), half_of(old(self).delay_us)),
            old(self).ops is None ==> final(self).trace() == old(self).trace(),
            extends(old(self).trace(), final(self).trace()),
            old(self).ops is Some && r is Err ==> timed_out(new_scl(old(self).trace(), final(self).trace()), old(self).timeout),
    {
        if self.ops.is_none() {
            proof {
                assert(self.trace().subrange(0, self.trace().len() as int) =~= self.trace());
            }
            return Err(Error::Intr);
        }
        self.line_scl(1);
        let half: usize = self.half_delay();
        let mut polls: usize = 0;
        let ghost r0 = self.scl_reads();
        let ghost w0 = self.waits();
        let ghost t0 = self.trace();
        assert(t0 == old(self).trace().push(LineOp::SetScl(1)));
        assert(t0 + low_polls(0, half) =~= t0);
        loop
            invariant
                self.ops is Some,
                polls <= self.timeout,
                same_setup(*old(self), *self),
                self.writes() == old(self).writes().push(LineWrite::Scl(1)),
                half == self.delay_us / 2 + self.delay_us % 2,
                r0 == old(self).scl_reads(),
                w0 == old(self).waits(),
                self.scl_reads() == r0 + Seq::new(polls as nat, |k: int| 0usize),
                self.waits() == w0 + Seq::new(polls as nat, |k: int| half),
                t0 == old(self).trace().push(LineOp::SetScl(1)),
                self.trace() == t0 + low_polls(polls as nat, half),
            decreases self.timeout - polls,
        {
            let ghost before = self.scl_reads();
            let v: usize = self.sample_scl();
            if v != 0 {
                proof {
                    assert(self.scl_reads().skip(r0.len() as int) =~= Seq::new(polls as nat, |k: int| 0usize).push(v));
                    assert(self.waits().skip(w0.len() as int) =~= Seq::new(polls as nat, |k: int| half));
                    assert(self.scl_reads().subrange(0, r0.len() as int) =~= r0);
                    assert(self.waits().subrange(0, w0.len() as int) =~= w0);
                    let sm = self.scl_reads().skip(r0.len() as int);
                    assert(sm.len() - 1 == polls && sm.last() == v);
                    assert(self.trace() =~= t0 + scl_poll_ops(sm, half));
                    assert(self.trace().subrange(0, old(self).trace().len() as int) =~= old(self).trace());
                }
                return Ok(());
            }
            if polls >= self.timeout {
                proof {
                    assert(self.scl_reads().skip(r0.len() as int) =~= Seq::new(polls as nat + 1, |k: int| 0usize));
                    assert(self.waits().skip(w0.len() as int) =~= Seq::new(polls as nat, |k: int| half));
                    assert(self.scl_reads().subrange(0, r0.len() as int) =~= r0);
                    assert(self.waits().subrange(0, w0.len() as int) =~= w0);
                    let sm = self.scl_reads().skip(r0.len() as int);
                    assert(sm.len() - 1 == polls && sm.last() == 0);
                    assert(self.trace() =~= t0 + scl_poll_ops(sm, half));
                    let x = self.trace().skip(old(self).trace().len() as int);
                    assert(self.trace() =~= old(self).trace() + x);
                    assert(self.trace().subrange(0, old(self).trace().len() as int) =~= old(self).trace());
                    lemma_scl_reads_concat(old(self).trace(), x);
                    assert(scl_reads_of(x) =~= sm);
                    assert(low_run(sm, 0, self.timeout));
                }
                return Err(Error::TimeOut);
            }
            polls = polls + 1;
            self.wait(half);
            proof {
                assert(self.scl_reads() =~= r0 + Seq::new(polls as nat, |k: int| 0usize));
                assert(self.waits() =~= w0 + Seq::new(polls as nat, |k: int| half));
                assert(self.trace() =~= t0 + low_polls(polls as nat, half));
            }
        }
    }

    /// A repeated start condition.
    pub fn restart(&mut self) -> (r: Result<(), Error>)
        ensures
            same_setup(*old(self), *final(self)),
            old(self).ops is None <==> r == Err::<(), Error>(Error::Intr),
            old(self).ops is None ==> final(self).writes() == old(self).writes(),
            old(self).ops is Some ==> (r is Ok || r == Err::<(), Error>(Error::TimeOut)),
            r is Ok ==> final(self).writes() == old(self).writes() + restart_seq(),
            r == Err::<(), Error>(Error::TimeOut) ==> final(self).writes() == old(self).writes()
                + restart_seq().take(2),
            exists|w: Seq<LineWrite>|
                final(self).writes() == old(self).writes() + w && #[trigger] prefix_of(w, restart_seq()),
            old(self).ops is None ==> final(self).scl_reads() == old(self).scl_reads() && final(self).waits() == old(self).waits(),
            old(self).ops is Some && r is Err ==> scl_waited(old(self).scl_reads(), final(self).scl_reads(),
                old(self).waits(), final(self).waits(), old(self).timeout, half_of(old(self).delay_us), false),
            old(self).ops is Some && r is Ok ==> final(self).waits().len() >= 2
                && final(self).waits().skip(final(self).waits().len() - 2) == seq![half_of(old(self).delay_us), half_of(old(self).delay_us)]
                && scl_waited(old(self).scl_reads(), final(self).scl_reads(), old(self).waits(),
                    final(self).waits().take(final(self).waits().len() - 2), old(self).timeout, half_of(old(self).delay_us), true),
            old(self).ops is None ==> final(self).trace() == old(self).trace(),
            old(self).ops is Some ==> final(self).trace() == old(self).trace() + seq![LineOp::SetSda(1), LineOp::SetScl(1)]
                + scl_poll_ops(final(self).scl_reads().skip(old(self).scl_reads().len() as int), half_of(old(self).delay_us))
                + (if r is Ok {
                    seq![LineOp::Udelay(half_of(old(self).delay_us)), LineOp::SetSda(0),
                        LineOp::Udelay(half_of(old(self).delay_us)), LineOp::SetScl(0)]
                } else {
                    Seq::<LineOp>::empty()
                }),
            extends(old(self).trace(), final(self).trace()),
            old(self).ops is Some && r is Err ==> timed_out(new_scl(old(self).trace(), final(self).trace()), old(self).timeout),
    {
        proof {
            lemma_extends_refl(self.trace());
        }
        self.line_sda(1);
        proof {
            if old(self).ops is Some {
                lemma_extends_push(old(self).trace(), LineOp::SetSda(1));
            }
        }
        let half: usize = self.half_delay();
        let ghost t1 = self.trace();
        let ghost r1 = self.scl_reads();
        let res = self.scl_h();
        let ghost t2 = self.trace();
        proof {
            lemma_extends_trans(old(self).trace(), t1, t2);
        }
        if res.is_err() {
            proof {
                if old(self).ops is Some {
                    lemma_extends_refl(t2);
                    lemma_timed_out_within(old(self).trace(), t1, t2, t2, self.timeout);
                }
                if old(self).ops is Some {
                    let pl = scl_poll_ops(self.scl_reads().skip(r1.len() as int), half);
                    assert(self.trace() =~= old(self).trace() + seq![LineOp::SetSda(1), LineOp::SetScl(1)] + pl + Seq::<LineOp>::empty());
                }
                if old(self).ops is Some {
                    assert(self.writes() =~= old(self).writes() + restart_seq().take(2));
                    lemma_prefix_take(restart_seq(), 2);
                } else {
                    lemma_prefix_empty(restart_seq());
                    assert(self.writes() =~= old(self).writes() + Seq::<LineWrite>::empty());
                }
            }
            return res;
        }
        let ghost mid = self.waits();
        self.wait(half);
        self.line_sda(0);
        self.wait(half);
        self.line_scl(0);
        proof {
            assert(self.writes() =~= old(self).writes() + restart_seq());
            lemma_prefix_refl(restart_seq());
            if old(self).ops is Some {
                let pl = scl_poll_ops(self.scl_reads().skip(r1.len() as int), half);
                assert(self.trace() =~= old(self).trace() + seq![LineOp::SetSda(1), LineOp::SetScl(1)] + pl
                    + seq![LineOp::Udelay(half), LineOp::SetSda(0), LineOp::Udelay(half), LineOp::SetScl(0)]);
                assert(self.trace().subrange(0, old(self).trace().len() as int) =~= old(self).trace());
            }
            assert(self.waits().take(self.waits().len() - 2) =~= mid);
            assert(self.waits().skip(self.waits().len() - 2) =~= seq![half, half]);
        }
        Ok(())
    }

    /// A start condition.
    pub fn start(&mut self) -> (r: Result<(), Error>)
        ensures
            same_setup(*old(self), *final(self)),
            old(self).ops is None <==> r == Err::<(), Error>(Error::Intr),
            old(self).ops is None ==> final(self).writes() == old(self).writes(),
            old(self).ops is Some ==> r is Ok && final(self).writes() == old(self).writes() + start_seq(),
            exists|w: Seq<LineWrite>|
                final(self).writes() == old(self).writes() + w && #[trigger] prefix_of(w, start_seq()),
            final(self).scl_reads() == old(self).scl_reads(),
            final(self).waits() == (if old(self).ops is Some {
                old(self).waits().push(half_of(old(self).delay_us))
            } else {
                old(self).waits()
            }),
            final(self).trace() == old(self).trace() + (if old(self).ops is Some {
                seq![LineOp::SetSda(0), LineOp::Udelay(half_of(old(self).delay_us)), LineOp::SetScl(0)]
            } else {
                Seq::<LineOp>::empty()
            }),
            extends(old(self).trace(), final(self).trace()),
    {
        if self.ops.is_none() {
            proof {
                lemma_prefix_empty(start_seq());
                assert(self.writes() =~= old(self).writes() + Seq::<LineWrite>::empty());
                assert(self.trace() =~= old(self).trace() + Seq::<LineOp>::empty());
                lemma_extends_refl(self.trace());
            }
            return Err(Error::Intr);
        }
        let half: usize = self.half_delay();
        self.line_sda(0);
        self.wait(half);
        self.line_scl(0);
        proof {
            assert(final(self).writes() =~= old(self).writes() + start_seq());
            lemma_prefix_refl(start_seq());
            assert(self.trace() =~= old(self).trace() + seq![LineOp::SetSda(0), LineOp::Udelay(half), LineOp::SetScl(0)]);
            assert(self.trace().subrange(0, old(self).trace().len() as int) =~= old(self).trace());
        }
        Ok(())
    }

    /// A stop condition.
    pub fn stop(&mut self) -> (r: Result<(), Error>)
        ensures
            same_setup(*old(self), *final(self)),
            old(self).ops is None <==> r == Err::<(), Error>(Error::Intr),
            old(self).ops is None ==> final(self).writes() == old(self).writes(),
            old(self).ops is Some ==> (r is Ok || r == Err::<(), Error>(Error::TimeOut)),
            r is Ok ==> final(self).writes() == old(self).writes() + stop_seq(),
            r == Err::<(), Error>(Error::TimeOut) ==> final(self).writes() == old(self).writes()
                + stop_seq().take(2),
            exists|w: Seq<LineWrite>|
                final(self).writes() == old(self).writes() + w && #[trigger] prefix_of(w, stop_seq()),
            old(self).ops is None ==> final(self).scl_reads() == old(self).scl_reads() && final(self).waits() == old(self).waits(),
            old(self).ops is Some && r is Err ==> scl_waited(old(self).scl_reads(), final(self).scl_reads(),
                old(self).waits().push(half_of(old(self).delay_us)), final(self).waits(), old(self).timeout,
                half_of(old(self).delay_us), false),
            old(self).ops is Some && r is Ok ==> final(self).waits().len() >= 2
                && final(self).waits().skip(final(self).waits().len() - 2) == seq![half_of(old(self).delay_us), old(self).delay_us]
                && scl_waited(old(self).scl_reads(), final(self).scl_reads(), old(self).waits().push(half_of(old(self).delay_us)),
                    final(self).waits().take(final(self).waits().len() - 2), old(self).timeout, half_of(old(self).delay_us), true),
            old(self).ops is None ==> final(self).trace() == old(self).trace(),
            old(self).ops is Some ==> final(self).trace() == old(self).trace() + seq![LineOp::SetSda(0),
                LineOp::Udelay(half_of(old(self).delay_us)), LineOp::SetScl(1)]
                + scl_poll_ops(final(self).scl_reads().skip(old(self).scl_reads().len() as int), half_of(old(self).delay_us))
                + (if r is Ok {
                    seq![LineOp::Udelay(half_of(old(self).delay_us)), LineOp::SetSda(1), LineOp::Udelay(old(self).delay_us)]
                } else {
                    Seq::<LineOp>::empty()
                }),
            extends(old(self).trace(), final(self).trace()),
            old(self).ops is Some && r is Err ==> timed_out(new_scl(old(self).trace(), final(self).trace()), old(self).timeout),
    {
        let half: usize = self.half_delay();
        self.line_sda(0);
        self.wait(half);
        let ghost r1 = self.scl_reads();
        let ghost t1 = self.trace();
        proof {
            lemma_extends_refl(old(self).trace());
            if old(self).ops is Some {
                assert(t1.subrange(0, old(self).trace().len() as int) =~= old(self).trace());
            }
        }
        let res = self.scl_h();
        proof {
            lemma_extends_trans(old(self).trace(), t1, self.trace());
        }
        if res.is_err() {
            proof {
                if old(self).ops is Some {
                    lemma_extends_refl(self.trace());
                    lemma_timed_out_within(old(self).trace(), t1, self.trace(), self.trace(), self.timeout);
                }
                if old(self).ops is Some {
                    let pl = scl_poll_ops(self.scl_reads().skip(r1.len() as int), half);
                    assert(self.trace() =~= old(self).trace() + seq![LineOp::SetSda(0), LineOp::Udelay(half), LineOp::SetScl(1)] + pl + Seq::<LineOp>::empty());
                }
                if old(self).ops is Some {
                    assert(self.writes() =~= old(self).writes() + stop_seq().take(2));
                    lemma_prefix_take(stop_seq(), 2);
                } else {
                    lemma_prefix_empty(stop_seq());
                    assert(self.writes() =~= old(self).writes() + Seq::<LineWrite>::empty());
                }
            }
            return res;
        }
        let ghost mid = self.waits();
        self.wait(half);
        self.line_sda(1);
        let d: usize = self.delay_us;
        self.wait(d);
        proof {
            assert(final(self).writes() =~= old(self).writes() + stop_seq());
            lemma_prefix_refl(stop_seq());
            assert(self.waits().take(self.waits().len() - 2) =~= mid);
            assert(self.waits().skip(self.waits().len() - 2) =~= seq![half, d]);
            if old(self).ops is Some {
                let pl = scl_poll_ops(self.scl_reads().skip(r1.len() as int), half);
                assert(self.trace() =~= old(self).trace() + seq![LineOp::SetSda(0), LineOp::Udelay(half), LineOp::SetScl(1)] + pl
                    + seq![LineOp::Udelay(half), LineOp::SetSda(1), LineOp::Udelay(d)]);
                assert(self.trace().subrange(0, old(self).trace().len() as int) =~= old(self).trace());
            }
        }
        Ok(())
    }

    /// Sends the eight bits of `data`, least significant first.
    fn writeb(&mut self, data: u8) -> (r: Result<(), Error>)
        ensures
            same_setup(*old(self), *final(self)),
            old(self).ops is None <==> r == Err::<(), Error>(Error::Intr),
            old(self).ops is None ==> final(self).writes() == old(self).writes(),
            old(self).ops is Some ==> (r is Ok || r == Err::<(), Error>(Error::TimeOut)),
            r is Ok ==> final(self).writes() == old(self).writes() + writeb_seq(data, 8),
            r == Err::<(), Error>(Error::TimeOut) ==> exists|j: nat|
                1 <= j <= 8 && final(self).writes() == old(self).writes() + #[trigger] writeb_seq(data, j),
            exists|w: Seq<LineWrite>|
                final(self).writes() == old(self).writes() + w && #[trigger] prefix_of(w, writeb_seq(data, 8)),
            extends(old(self).trace(), final(self).trace()),
            old(self).ops is Some && r is Err ==> timed_out(new_scl(old(self).trace(), final(self).trace()), old(self).timeout),
    {
        proof {
            lemma_extends_refl(self.trace());
        }
        if self.ops.is_none() {
            proof {
                lemma_prefix_empty(writeb_seq(data, 8));
                assert(self.writes() =~= old(self).writes() + Seq::<LineWrite>::empty());
            }
            return Err(Error::Intr);
        }
        let half: usize = self.half_delay();
        let mut i: u8 = 0;
        while i < 8
            invariant
                0 <= i <= 8,
                self.ops is Some,
                same_setup(*old(self), *self),
                self.writes() == old(self).writes() + writeb_seq(data, i as nat),
                half == self.delay_us / 2 + self.delay_us % 2,
                extends(old(self).trace(), self.trace()),
            decreases 8 - i,
        {
            let bit: usize = ((data >> i) & 1u8) as usize;
            let ghost ta = self.trace();
            self.line_scl(0);
            proof { lemma_extends_push(ta, LineOp::SetScl(0)); }
            let ghost tb = self.trace();
            self.line_sda(bit);
            proof { lemma_extends_push(tb, LineOp::SetSda(bit)); }
            let ghost tc = self.trace();
            self.wait(half);
            proof {
                lemma_extends_push(tc, LineOp::Udelay(half));
                lemma_extends_trans(ta, tb, tc);
                lemma_extends_trans(ta, tc, self.trace());
                lemma_extends_trans(old(self).trace(), ta, self.trace());
            }
            let ghost t1 = self.trace();
            let res = self.scl_h();
            proof {
                assert(self.writes() =~= old(self).writes() + writeb_seq(data, (i + 1) as nat));
                lemma_extends_trans(old(self).trace(), t1, self.trace());
            }
            if res.is_err() {
                proof {
                    lemma_writeb_prefix(data, (i + 1) as nat, 8);
                    assert(self.writes() == old(self).writes() + writeb_seq(data, (i as nat) + 1));
                    lemma_extends_refl(self.trace());
                    lemma_timed_out_within(old(self).trace(), t1, self.trace(), self.trace(), self.timeout);
                }
                return res;
            }
            i = i + 1;
        }
        proof {
            lemma_prefix_refl(writeb_seq(data, 8));
        }
        Ok(())
    }

    /// Reads eight bits, the first one most significant, releasing SDA first
    /// and clocking each bit in.
    #[verifier::spinoff_prover]
    fn readb(&mut self) -> (r: Result<u8, Error>)
        ensures
            same_config(*old(self), *final(self)),
            old(self).ops is None <==> r == Err::<u8, Error>(Error::Intr),
            old(self).ops is None ==> final(self).writes() == old(self).writes()
                && final(self).sda_reads() == old(self).sda_reads(),
            old(self).ops is Some ==> (r is Ok || r == Err::<u8, Error>(Error::TimeOut)),
            old(self).sda_reads().len() <= final(self).sda_reads().len(),
            final(self).sda_reads().subrange(0, old(self).sda_reads().len() as int)
                == old(self).sda_reads(),
            r matches Ok(v) ==> {
                &&& final(self).writes() == old(self).writes() + readb_seq(8)
                &&& final(self).sda_reads().len() == old(self).sda_reads().len() + 8
                &&& v == assemble(
                    final(self).sda_reads().subrange(old(self).sda_reads().len() as int, final(self).sda_reads().len() as int),
                    8,
                )
            },
            r == Err::<u8, Error>(Error::TimeOut) ==> exists|j: nat|
                j < 8 && final(self).writes() == old(self).writes() + #[trigger] readb_seq(j) + seq![LineWrite::Scl(1)],
    {
        let mut data: u8 = 0;
        let half: usize = self.half_delay();
        let ghost r0 = self.sda_reads();
        if self.ops.is_none() {
            proof {
                assert(r0.subrange(0, r0.len() as int) =~= r0);
            }
            return Err(Error::Intr);
        }
        self.line_sda(1);
        self.wait(half);
        proof {
            assert(self.writes() =~= old(self).writes() + readb_seq(0));
            assert(self.sda_reads().subrange(0, r0.len() as int) =~= r0);
            assert(self.sda_reads().subrange(r0.len() as int, self.sda_reads().len() as int) =~= Seq::<usize>::empty());
        }
        let mut i: u8 = 0;
        while i < 8
            invariant
                0 <= i <= 8,
                self.ops is Some,
                same_config(*old(self), *self),
                r0 == old(self).sda_reads(),
                self.writes() == old(self).writes() + readb_seq(i as nat),
                self.sda_reads().len() == r0.len() + i,
                self.sda_reads().subrange(0, r0.len() as int) == r0,
                data as int == assemble(
                    self.sda_reads().subrange(r0.len() as int, self.sda_reads().len() as int),
                    i as nat,
                ),
            decreases 8 - i,
        {
            let ghost before = self.sda_reads();
            let ghost s_old = before.subrange(r0.len() as int, before.len() as int);
            proof {
                lemma_assemble_bound(s_old, i as nat);
                lemma_p2_monotone(i as nat, 7);
                lemma_p2_seven();
            }
            let doubled: u8 = data << 1u8;
            assert(doubled == 2 * data && doubled % 2 == 0) by (bit_vector)
                requires
                    doubled == data << 1u8,
                    data < 128u8,
            ;
            data = doubled;
            let res = self.scl_h();
            if res.is_err() {
                assert(self.writes() =~= old(self).writes() + readb_seq(i as nat) + seq![LineWrite::Scl(1)]);
                return Err(Error::TimeOut);
            }
            let v: usize = self.sample_sda();
            if v != 0 {
                let d2: u8 = data | 1u8;
                assert(d2 == data + 1) by (bit_vector)
                    requires
                        d2 == data | 1u8,
                        data % 2 == 0,
                ;
                data = d2;
            }
            self.line_scl(0);
            let d: usize = self.delay_us;
            self.wait(d);
            proof {
                let s_new = self.sda_reads().subrange(r0.len() as int, self.sda_reads().len() as int);
                assert(s_new.subrange(0, i as int) =~= s_old);
                assert(s_old.subrange(0, i as int) =~= s_old);
                assert(s_new[i as int] == v);
                lemma_assemble_prefix(s_new, s_old, i as nat);
                assert(self.sda_reads().subrange(0, r0.len() as int) =~= r0);
                assert(self.writes() =~= old(self).writes() + readb_seq((i + 1) as nat));
            }
            i = i + 1;
        }
        Ok(data)
    }

    /// Sends address byte `addr` `retries` times, each time followed by a
    /// stop and a start condition.
    #[verifier::spinoff_prover]
    fn send_addr(&mut self, addr: u8, retries: usize) -> (r: Result<(), Error>)
        ensures
            same_setup(*old(self), *final(self)),
            exists|w: Seq<LineWrite>|
                final(self).writes() == old(self).writes() + w && #[trigger] prefix_of(
                    w,
                    send_addr_seq(addr, retries as nat),
                ),
            r is Ok ==> final(self).writes() == old(self).writes() + send_addr_seq(addr, retries as nat),
            retries == 0 ==> r is Ok && *final(self) == *old(self),
            r is Err ==> (r == Err::<(), Error>(Error::Intr) <==> old(self).ops is None),
            r is Err ==> (r == Err::<(), Error>(Error::Intr) || r == Err::<(), Error>(Error::TimeOut)),
            old(self).ops is None ==> final(self).writes() == old(self).writes(),
            extends(old(self).trace(), final(self).trace()),
            old(self).ops is Some && r is Err ==> timed_out(new_scl(old(self).trace(), final(self).trace()), old(self).timeout),
    {
        let ghost unit = writeb_seq(addr, 8) + stop_seq() + start_seq();
        proof {
            lemma_extends_refl(self.trace());
        }
        let mut i: usize = 0;
        while i < retries
            invariant
                i <= retries,
                same_setup(*old(self), *self),
                unit == writeb_seq(addr, 8) + stop_seq() + start_seq(),
                self.writes() == old(self).writes() + repeat(unit, i as nat),
                i > 0 ==> old(self).ops is Some,
                i == 0 ==> *self == *old(self),
                extends(old(self).trace(), self.trace()),
            decreases retries - i,
        {
            let ghost before = self.writes();
            let ghost t1 = self.trace();
            let r1 = self.writeb(addr);
            proof {
                lemma_extends_trans(old(self).trace(), t1, self.trace());
                lemma_extends_refl(self.trace());
            }
            if r1.is_err() {
                proof {
                    if old(self).ops is Some {
                        lemma_timed_out_within(old(self).trace(), t1, self.trace(), self.trace(), self.timeout);
                    }
                    if old(self).ops is Some {
                        let j = choose|j: nat| 1 <= j <= 8 && self.writes() == before + #[trigger] writeb_seq(addr, j);
                        lemma_writeb_prefix(addr, j, 8);
                        lemma_prefix_concat(Seq::empty(), writeb_seq(addr, j), writeb_seq(addr, 8), stop_seq() + start_seq());
                        assert(Seq::<LineWrite>::empty() + writeb_seq(addr, j) =~= writeb_seq(addr, j));
                        assert(writeb_seq(addr, 8) + stop_seq() + start_seq() =~= Seq::<LineWrite>::empty() + writeb_seq(addr, 8) + (stop_seq() + start_seq()));
                        lemma_repeat_prefix(unit, i as nat, retries as nat, writeb_seq(addr, j));
                        let w = repeat(unit, i as nat) + writeb_seq(addr, j);
                        assert(self.writes() =~= old(self).writes() + w);
                        assert(prefix_of(w, send_addr_seq(addr, retries as nat)));
                    } else {
                        lemma_prefix_empty(send_addr_seq(addr, retries as nat));
                        assert(self.writes() =~= old(self).writes() + Seq::<LineWrite>::empty());
                        assert(prefix_of(Seq::<LineWrite>::empty(), send_addr_seq(addr, retries as nat)));
                    }
                }
                return r1;
            }
            let ghost mid = self.writes();
            let ghost t2 = self.trace();
            let r2 = self.stop();
            proof {
                lemma_extends_trans(old(self).trace(), t2, self.trace());
                lemma_extends_refl(self.trace());
            }
            if r2.is_err() {
                proof {
                    lemma_timed_out_within(old(self).trace(), t2, self.trace(), self.trace(), self.timeout);
                    lemma_prefix_take(stop_seq(), 2);
                    lemma_prefix_concat(writeb_seq(addr, 8), stop_seq().take(2), stop_seq(), start_seq());
                    assert(Seq::<LineWrite>::empty() + writeb_seq(addr, 8) =~= writeb_seq(addr, 8));
                    lemma_repeat_prefix(unit, i as nat, retries as nat, writeb_seq(addr, 8) + stop_seq().take(2));
                    let w = repeat(unit, i as nat) + (writeb_seq(addr, 8) + stop_seq().take(2));
                    assert(self.writes() =~= old(self).writes() + w);
                    assert(prefix_of(w, send_addr_seq(addr, retries as nat)));
                }
                return r2;
            }
            let d: usize = self.delay_us;
            let ghost t3 = self.trace();
            self.wait(d);
            proof {
                lemma_extends_push(t3, LineOp::Udelay(d));
                lemma_extends_trans(old(self).trace(), t3, self.trace());
            }
            let ghost t4 = self.trace();
            let r3 = self.start();
            proof {
                lemma_extends_trans(old(self).trace(), t4, self.trace());
            }
            if r3.is_err() {
                return r3;
            }
            proof {
                assert(self.writes() =~= old(self).writes() + repeat(unit, (i + 1) as nat));
            }
            i = i + 1;
        }
        proof {
            lemma_prefix_refl(send_addr_seq(addr, retries as nat));
            assert(prefix_of(send_addr_seq(addr, retries as nat), send_addr_seq(addr, retries as nat)));
        }
        Ok(())
    }

    /// Sends the address bytes of `msg` (see `address_bytes`). Failures to
    /// send are passed over unless the message's flags say to ignore a missing
    /// acknowledge, which also turns off retries; a ten-bit address failing
    /// then gives `Err(Error::IO)`. A failed repeated start is passed on.
    #[verifier::spinoff_prover]
    #[verifier::rlimit(100)]
    pub fn send_address(&mut self, msg: &I2cMsg) -> (r: Result<(), Error>)
        ensures
            same_setup(*old(self), *final(self)),
            exists|w: Seq<LineWrite>|
                final(self).writes() == old(self).writes() + w && #[trigger] send_address_writes(
                    w,
                    msg.spec_addr(),
                    msg.spec_flags(),
                    effective_retries(msg.spec_flags(), old(self).retries),
                ),
            msg.spec_flags() & I2C_ADDR_10BIT == 0 ==> r is Ok,
            msg.spec_flags() & I2C_ADDR_10BIT == 0 && effective_retries(msg.spec_flags(), old(self).retries) == 0
                ==> *final(self) == *old(self),
            r == Err::<(), Error>(Error::IO) ==> msg.spec_flags() & I2C_ADDR_10BIT != 0
                && msg.spec_flags() & I2C_IGNORE_NACK != 0,
            old(self).ops is Some ==> (r is Ok || r == Err::<(), Error>(Error::IO) || r == Err::<(), Error>(Error::TimeOut)),
            old(self).ops is None ==> final(self).writes() == old(self).writes(),
            old(self).ops is None && msg.spec_flags() & I2C_ADDR_10BIT != 0 ==> r == (
                if msg.spec_flags() & I2C_IGNORE_NACK != 0 {
                    Err::<(), Error>(Error::IO)
                } else if msg.spec_flags() & I2C_RD != 0 {
                    Err::<(), Error>(Error::Intr)
                } else {
                    Ok::<(), Error>(())
                }),
            extends(old(self).trace(), final(self).trace()),
            old(self).ops is Some ==> final(self).writes() == old(self).writes() + address_writes(msg.spec_addr(),
                msg.spec_flags(), effective_retries(msg.spec_flags(), old(self).retries))
                || timed_out(new_scl(old(self).trace(), final(self).trace()), old(self).timeout),
    {
        let flags: u16 = msg.flags();
        let ignore_nack: u16 = flags & I2C_IGNORE_NACK;
        let mut retries: usize = 0;
        if ignore_nack == 0 {
            retries = self.retries;
        }
        let ghost w0 = self.writes();
        let ghost a1 = address_bytes(msg.spec_addr(), flags).0;
        let ghost a2 = address_bytes(msg.spec_addr(), flags).1;
        let ghost e: Seq<LineWrite> = Seq::empty();
        proof {
            lemma_prefix_empty(writeb_seq(a2, 8));
            lemma_prefix_empty(restart_seq());
            lemma_prefix_empty(send_addr_seq(a1 | 1u8, retries as nat));
        }
        if (flags & I2C_ADDR_10BIT) != 0 {
            let addr: u16 = msg.addr();
            let mut addr1: u8 = 0xf0u8 | (((addr >> 7u16) as u8) & 0x06u8);
            let addr2: u8 = (addr & 0xffu16) as u8;
            let ghost t0 = self.trace();
            let e1 = self.send_addr(addr1, retries).is_err();
            let ghost t1 = self.trace();
            let ghost to1: bool = e1 && old(self).ops is Some;
            proof {
                lemma_extends_refl(t0);
                lemma_timeout_step(t0, t0, t1, self.timeout, false, to1);
            }
            let ghost p1 = choose|w: Seq<LineWrite>|
                self.writes() == w0 + w && #[trigger] prefix_of(w, send_addr_seq(a1, retries as nat));
            if e1 && ignore_nack != 0 {
                proof {
                    assert(self.writes() =~= w0 + (p1 + e + e + e));
                    assert(send_address_writes(p1 + e + e + e, msg.spec_addr(), flags, effective_retries(flags, self.retries)));
                }
                return Err(Error::IO);
            }
            let ghost w1 = self.writes();
            let e2 = self.writeb(addr2).is_err();
            let ghost t2 = self.trace();
            let ghost to2: bool = to1 || (e2 && old(self).ops is Some);
            proof {
                lemma_timeout_step(t0, t1, t2, self.timeout, to1, e2 && old(self).ops is Some);
            }
            let ghost p2 = choose|w: Seq<LineWrite>|
                self.writes() == w1 + w && #[trigger] prefix_of(w, writeb_seq(a2, 8));
            if e2 && ignore_nack != 0 {
                proof {
                    assert(self.writes() =~= w0 + (p1 + p2 + e + e));
                    assert(send_address_writes(p1 + p2 + e + e, msg.spec_addr(), flags, effective_retries(flags, self.retries)));
                }
                return Err(Error::IO);
            }
            if (flags & I2C_RD) != 0 {
                let ghost w2 = self.writes();
                let rr = self.restart();
                let ghost t3 = self.trace();
                let ghost to3: bool = to2 || (rr is Err && old(self).ops is Some);
                proof {
                    lemma_timeout_step(t0, t2, t3, self.timeout, to2, rr is Err && old(self).ops is Some);
                }
                let ghost p3 = choose|w: Seq<LineWrite>|
                    self.writes() == w2 + w && #[trigger] prefix_of(w, restart_seq());
                if rr.is_err() {
                    proof {
                        assert(self.writes() =~= w0 + (p1 + p2 + p3 + e));
                        assert(send_address_writes(p1 + p2 + p3 + e, msg.spec_addr(), flags, effective_retries(flags, self.retries)));
                    }
                    return rr;
                }
                addr1 = addr1 | 1u8;
                let ghost w3 = self.writes();
                let e3 = self.send_addr(addr1, retries).is_err();
                let ghost t4 = self.trace();
                proof {
                    lemma_timeout_step(t0, t3, t4, self.timeout, to3, e3 && old(self).ops is Some);
                    if old(self).ops is Some && !to3 && !e3 {
                        assert(self.writes() =~= w0 + address_writes(msg.spec_addr(), flags, retries as nat));
                    }
                }
                let ghost p4 = choose|w: Seq<LineWrite>|
                    self.writes() == w3 + w && #[trigger] prefix_of(w, send_addr_seq(a1 | 1u8, retries as nat));
                proof {
                    assert(self.writes() =~= w0 + (p1 + p2 + p3 + p4));
                    assert(send_address_writes(p1 + p2 + p3 + p4, msg.spec_addr(), flags, effective_retries(flags, self.retries)));
                }
                if e3 && ignore_nack != 0 {
                    return Err(Error::IO);
                }
            } else {
                proof {
                    assert(self.writes() =~= w0 + (p1 + p2 + e + e));
                    assert(send_address_writes(p1 + p2 + e + e, msg.spec_addr(), flags, effective_retries(flags, self.retries)));
                    if old(self).ops is Some && !to2 {
                        assert(self.writes() =~= w0 + address_writes(msg.spec_addr(), flags, retries as nat));
                    }
                }
            }
        } else {
            let mut addr1: u8 = (msg.addr() << 1u16) as u8;
            if (flags & I2C_RD) != 0 {
                addr1 = addr1 | 1u8;
            }
            let ghost t0 = self.trace();
            let e1 = self.send_addr(addr1, retries).is_err();
            let ghost p1 = choose|w: Seq<LineWrite>|
                self.writes() == w0 + w && #[trigger] prefix_of(w, send_addr_seq(a1, retries as nat));
            proof {
                assert(send_address_writes(p1, msg.spec_addr(), flags, effective_retries(flags, self.retries)));
                lemma_extends_refl(t0);
                lemma_timeout_step(t0, t0, self.trace(), self.timeout, false, e1 && old(self).ops is Some);
            }
            if e1 && ignore_nack != 0 {
                return Err(Error::IO);
            }
        }
        Ok(())
    }

    /// Acknowledges (`ack > 0`: SDA driven low first) or not the byte just
    /// received, with one clock pulse.
    fn send_ack_or_nack(&mut self, ack: usize) -> (r: Result<(), Error>)
        ensures
            same_setup(*old(self), *final(self)),
            old(self).ops is None <==> r == Err::<(), Error>(Error::Intr),
            old(self).ops is None ==> final(self).writes() == old(self).writes(),
            old(self).ops is Some ==> (r is Ok || r == Err::<(), Error>(Error::TimeOut)),
            r is Ok ==> final(self).writes() == old(self).writes() + ack_seq(ack),
            r == Err::<(), Error>(Error::TimeOut) ==> final(self).writes() == old(self).writes()
                + ack_seq(ack).take(ack_seq(ack).len() - 1),
    {
        let half: usize = self.half_delay();
        if self.ops.is_some() {
            if ack > 0 {
                self.line_sda(0);
            }
            self.wait(half);
        }
        let res = self.scl_h();
        if res.is_err() {
            proof {
                if old(self).ops is Some {
                    assert(self.writes() =~= old(self).writes() + ack_seq(ack).take(ack_seq(ack).len() - 1));
                }
            }
            return res;
        }
        self.line_scl(0);
        proof {
            assert(self.writes() =~= old(self).writes() + ack_seq(ack));
        }
        Ok(())
    }

    /// Receives up to `msg.len()` bytes into the message's buffer, stopping at
    /// the first byte that cannot be read; acknowledges each (the last one
    /// not) unless the message says not to. Gives the number of bytes
    /// received; a failed acknowledge is passed on.
    #[verifier::spinoff_prover]
    #[verifier::rlimit(60)]
    pub fn recv_bytes(&mut self, msg: &mut I2cMsg) -> (r: Result<usize, Error>)
        ensures
            same_config(*old(self), *final(self)),
            final(msg).spec_addr() == old(msg).spec_addr(),
            final(msg).spec_flags() == old(msg).spec_flags(),
            final(msg).spec_len() == old(msg).spec_len(),
            final(msg).buffer() is Some <==> old(msg).buffer() is Some,
            r is Ok || r == Err::<usize, Error>(Error::TimeOut),
            old(self).ops is None ==> r == Ok::<usize, Error>(0) && *final(msg) == *old(msg)
                && final(self).writes() == old(self).writes(),
            exists|w: Seq<LineWrite>|
                final(self).writes() == old(self).writes() + w && #[trigger] prefix_of(
                    w,
                    recv_seq(old(msg).spec_len() as nat, old(msg).spec_len() as nat, acks(old(msg).spec_flags())),
                ),
            r == Ok::<usize, Error>(old(msg).spec_len()) ==> final(self).writes() == old(self).writes()
                + recv_seq(old(msg).spec_len() as nat, old(msg).spec_len() as nat, acks(old(msg).spec_flags())),
            r matches Ok(n) ==> {
                let r0 = old(self).sda_reads().len() as int;
                let reads = final(self).sda_reads();
                &&& n <= old(msg).spec_len()
                &&& r0 + 8 * n <= reads.len()
                &&& reads.subrange(0, r0) == old(self).sda_reads()
                &&& (old(msg).buffer() matches Some(b) ==> {
                    let b2 = final(msg).buffer()->0;
                    &&& b2.len() == b.len()
                    &&& forall|k: int| 0 <= k < b.len() ==> #[trigger] b2[k] == (if k < n {
                        assemble(reads.subrange(r0 + 8 * k, r0 + 8 * k + 8), 8) as u8
                    } else {
                        b[k]
                    })
                })
            },
    {
        let mut count: usize = msg.len();
        let mut bytes: usize = 0;
        let flags: u16 = msg.flags();
        let ghost r0 = self.sda_reads();
        let ghost b0 = msg.buffer();
        let ghost len: nat = old(msg).spec_len() as nat;
        let ghost ack: bool = acks(flags);
        let ghost full = recv_seq(len, len, ack);
        proof {
            lemma_prefix_refl(full);
        }
        while count > 0
            invariant_except_break
                bytes + count == old(msg).spec_len(),
                r0.len() + 8 * bytes == self.sda_reads().len(),
                self.writes() == old(self).writes() + recv_seq(len, bytes as nat, ack),
            invariant
                len == old(msg).spec_len(),
                ack == acks(flags),
                full == recv_seq(len, len, ack),
                prefix_of(full, full),
                same_config(*old(self), *self),
                flags == old(msg).spec_flags(),
                r0 == old(self).sda_reads(),
                b0 == old(msg).buffer(),
                msg.spec_addr() == old(msg).spec_addr(),
                msg.spec_flags() == old(msg).spec_flags(),
                msg.spec_len() == old(msg).spec_len(),
                msg.buffer() is Some <==> b0 is Some,
                bytes <= old(msg).spec_len(),
                r0.len() + 8 * bytes <= self.sda_reads().len(),
                self.sda_reads().subrange(0, r0.len() as int) == r0,
                old(self).ops is None ==> bytes == 0 && *msg == *old(msg) && self.writes() == old(self).writes()
                    && self.sda_reads() == old(self).sda_reads(),
                b0 matches Some(b) ==> {
                    let b2 = msg.buffer()->0;
                    &&& b2.len() == b.len()
                    &&& forall|k: int| 0 <= k < b.len() ==> #[trigger] b2[k] == (if k < bytes {
                        assemble(self.sda_reads().subrange(r0.len() + 8 * k, r0.len() + 8 * k + 8), 8) as u8
                    } else {
                        b[k]
                    })
                },
            ensures
                same_config(*old(self), *self),
                bytes <= old(msg).spec_len(),
                exists|w: Seq<LineWrite>| self.writes() == old(self).writes() + w && #[trigger] prefix_of(w, full),
                bytes == len ==> self.writes() == old(self).writes() + full,
            decreases count,
        {
            let ghost before = self.sda_reads();
            let ghost wb = self.writes();
            let res = self.readb();
            match res {
                Ok(val) => {
                    proof {
                        let base = before.len() as int;
                        assert forall|k: int| 0 <= k < bytes implies #[trigger] self.sda_reads().subrange(
                            r0.len() + 8 * k,
                            r0.len() + 8 * k + 8,
                        ) == before.subrange(r0.len() + 8 * k, r0.len() + 8 * k + 8) by {
                            assert(self.sda_reads().subrange(0, base) =~= before);
                            assert(self.sda_reads().subrange(r0.len() + 8 * k, r0.len() + 8 * k + 8)
                                =~= before.subrange(r0.len() + 8 * k, r0.len() + 8 * k + 8));
                        }
                        assert(self.sda_reads().subrange(0, r0.len() as int) =~= r0) by {
                            assert(self.sda_reads().subrange(0, base) =~= before);
                            assert(before.subrange(0, r0.len() as int) == r0);
                        }
                    }
                    msg.buf_offset(bytes, val);
                    proof {
                        assert(self.sda_reads().subrange(r0.len() + 8 * bytes, r0.len() + 8 * bytes + 8)
                            == self.sda_reads().subrange(before.len() as int, self.sda_reads().len() as int));
                    }
                    bytes = bytes + 1;
                },
                Err(_) => {
                    proof {
                        if old(self).ops is Some {
                            let j = choose|j: nat| j < 8 && self.writes() == wb + #[trigger] readb_seq(j) + seq![LineWrite::Scl(1)];
                            lemma_recv_stop_in_read(len, bytes as nat, ack, j);
                            let w = recv_seq(len, bytes as nat, ack) + (readb_seq(j) + seq![LineWrite::Scl(1)]);
                            assert(self.writes() =~= old(self).writes() + w);
                            assert(prefix_of(w, full));
                        } else {
                            lemma_prefix_empty(full);
                            assert(self.writes() =~= old(self).writes() + Seq::<LineWrite>::empty());
                            assert(prefix_of(Seq::<LineWrite>::empty(), full));
                        }
                    }
                    proof {
                        assert(self.sda_reads().subrange(0, r0.len() as int) =~= r0) by {
                            assert(self.sda_reads().subrange(0, before.len() as int) =~= before);
                            assert(before.subrange(0, r0.len() as int) == r0);
                        }
                        assert forall|k: int| 0 <= k < bytes implies #[trigger] self.sda_reads().subrange(
                            r0.len() + 8 * k,
                            r0.len() + 8 * k + 8,
                        ) == before.subrange(r0.len() + 8 * k, r0.len() + 8 * k + 8) by {
                            assert(self.sda_reads().subrange(0, before.len() as int) =~= before);
                            assert(self.sda_reads().subrange(r0.len() + 8 * k, r0.len() + 8 * k + 8)
                                =~= before.subrange(r0.len() + 8 * k, r0.len() + 8 * k + 8));
                        }
                    }
                    break;
                },
            }
            count = count - 1;
            let ghost wr = self.writes();
            proof {
                assert(wr == wb + readb_seq(8));
            }
            if flags & I2C_NO_READ_ACK == 0 {
                let a = self.send_ack_or_nack(count);
                if a.is_err() {
                    proof {
                        let k = (bytes - 1) as nat;
                        lemma_recv_stop_in_ack(len, k);
                        let w = recv_seq(len, k, true) + (readb_seq(8) + ack_seq(count).take(ack_seq(count).len() - 1));
                        assert(self.writes() =~= old(self).writes() + w);
                        assert(prefix_of(w, full));
                    }
                    return Err(Error::TimeOut);
                }
                proof {
                    let k = (bytes - 1) as nat;
                    assert(self.writes() =~= old(self).writes() + recv_seq(len, bytes as nat, ack));
                }
            } else {
                proof {
                    assert(self.writes() =~= old(self).writes() + recv_seq(len, bytes as nat, ack));
                }
            }
        }
        proof {
            if bytes == len {
                lemma_prefix_refl(full);
                assert(prefix_of(full, full));
            }
        }
        Ok(bytes)
    }
}

impl<O: I2cBitOps> I2cBusOps for I2cBit<O> {
    /// The transfers this bus has run, each with the messages before and
    /// after and what it gave.
    closed spec fn xfers(&self) -> Seq<(Seq<I2cMsg>, Seq<I2cMsg>, usize)> {
        self.xfer_log.entries()
    }

    /// Runs the messages as one transfer: each starts with a start condition
    /// (a repeated one after the first) and its address unless it asks for
    /// none, then its bytes are received, then writes end with a stop
    /// condition. Failures are passed over; gives 0.
    #[verifier::spinoff_prover]
    #[verifier::rlimit(80)]
    fn master_xfer(&mut self, msgs: &mut Vec<I2cMsg>) -> (r: usize)
        ensures
            r == 0,
            final(msgs)@.len() == old(msgs)@.len(),
            forall|i: int| 0 <= i < old(msgs)@.len() ==> {
                &&& (#[trigger] final(msgs)@[i]).spec_addr() == old(msgs)@[i].spec_addr()
                &&& final(msgs)@[i].spec_flags() == old(msgs)@[i].spec_flags()
                &&& final(msgs)@[i].spec_len() == old(msgs)@[i].spec_len()
            },
            same_config(*old(self), *final(self)),
            old(self).ops is None ==> final(self).writes() == old(self).writes() && final(msgs)@ == old(msgs)@,
            exists|segs: Seq<Seq<LineWrite>>| {
                &&& segs.len() == old(msgs)@.len()
                &&& final(self).writes() == old(self).writes() + concat_all(segs, segs.len())
                &&& forall|i: int| 0 <= i < segs.len() ==> #[trigger] xfer_msg_writes(segs[i], old(msgs)@[i], i, old(self).retries)
            },
    {
        let ghost m0 = msgs@;
        let num: usize = msgs.len();
        let ghost segs: Seq<Seq<LineWrite>> = Seq::empty();
        if num == 0 {
            proof {
                self.xfer_log.entries@ = self.xfer_log.entries@.push((m0, msgs@, 0usize));
                assert(self.writes() =~= old(self).writes() + concat_all(segs, segs.len()));
                assert(segs.len() == old(msgs)@.len());
            }
            return 0;
        }
        let mut i: usize = 0;
        while i < num
            invariant
                num == old(msgs)@.len(),
                msgs@.len() == num,
                i <= num,
                same_config(*old(self), *self),
                old(self).ops is None ==> self.writes() == old(self).writes() && msgs@ == old(msgs)@,
                forall|k: int| 0 <= k < num ==> {
                    &&& (#[trigger] msgs@[k]).spec_addr() == old(msgs)@[k].spec_addr()
                    &&& msgs@[k].spec_flags() == old(msgs)@[k].spec_flags()
                    &&& msgs@[k].spec_len() == old(msgs)@[k].spec_len()
                },
                segs.len() == i,
                self.writes() == old(self).writes() + concat_all(segs, i as nat),
                forall|k: int| 0 <= k < i ==> #[trigger] xfer_msg_writes(segs[k], old(msgs)@[k], k, old(self).retries),
            decreases num - i,
        {
            let ghost w0 = self.writes();
            let ghost m = old(msgs)@[i as int];
            let flags: u16 = msgs[i].flags();
            let ghost a: Seq<LineWrite> = Seq::empty();
            let ghost b: Seq<LineWrite> = Seq::empty();
            if (flags & I2C_NO_START) == 0 {
                if i == 0 {
                    let _ = self.start();
                    proof {
                        a = choose|w: Seq<LineWrite>| self.writes() == w0 + w && #[trigger] prefix_of(w, start_seq());
                    }
                } else {
                    let _ = self.restart();
                    proof {
                        a = choose|w: Seq<LineWrite>| self.writes() == w0 + w && #[trigger] prefix_of(w, restart_seq());
                    }
                }
                let ghost w1 = self.writes();
                let _ = self.send_address(&msgs[i]);
                proof {
                    b = choose|w: Seq<LineWrite>| self.writes() == w1 + w && #[trigger] send_address_writes(
                        w,
                        m.spec_addr(),
                        m.spec_flags(),
                        effective_retries(m.spec_flags(), self.retries),
                    );
                }
            }
            let ghost w2 = self.writes();
            if (flags & I2C_RD) == 0 {
                let _ = self.recv_bytes(&mut msgs[i]);
            } else {
                let _ = self.recv_bytes(&mut msgs[i]);
            }
            let ghost c = choose|w: Seq<LineWrite>| self.writes() == w2 + w && #[trigger] prefix_of(
                w,
                recv_seq(m.spec_len() as nat, m.spec_len() as nat, acks(m.spec_flags())),
            );
            let ghost w3 = self.writes();
            let ghost d: Seq<LineWrite> = Seq::empty();
            if (flags & I2C_RD) == 0 {
                let _ = self.stop();
                proof {
                    d = choose|w: Seq<LineWrite>| self.writes() == w3 + w && #[trigger] prefix_of(w, stop_seq());
                }
            }
            proof {
                let seg = a + b + c + d;
                assert(self.writes() =~= w0 + seg);
                assert(xfer_msg_writes(seg, m, i as int, old(self).retries));
                lemma_concat_push(segs, seg, i as nat);
                assert(self.writes() =~= old(self).writes() + concat_all(segs.push(seg), (i + 1) as nat));
                assert forall|k: int| 0 <= k < i + 1 implies #[trigger] xfer_msg_writes(segs.push(seg)[k], old(msgs)@[k], k, old(self).retries) by {
                    if k < i {
                        assert(segs.push(seg)[k] == segs[k]);
                    }
                }
                segs = segs.push(seg);
            }
            i = i + 1;
        }
        proof {
            self.xfer_log.entries@ = old(self).xfer_log.entries@.push((m0, msgs@, 0usize));
        }
        0
    }
}

/// A seven-bit address goes out as a single byte: the address in its upper
/// seven bits and, at the bottom, the read bit, set exactly for reads.
pub proof fn lemma_seven_bit_address_byte(addr: u16, flags: u16)
    requires
        flags & I2C_ADDR_10BIT == 0,
    ensures
        address_bytes(addr, flags).0 & 1u8 == (if flags & I2C_RD != 0 { 1u8 } else { 0u8 }),
        address_bytes(addr, flags).0 >> 1u8 == (addr & 0x7fu16) as u8,
{
    let b: u8 = (addr << 1u16) as u8;
    assert(b & 1u8 == 0u8) by (bit_vector)
        requires
            b == (addr << 1u16) as u8,
    ;
    assert(b >> 1u8 == (addr & 0x7fu16) as u8) by (bit_vector)
        requires
            b == (addr << 1u16) as u8,
    ;
    assert((b | 1u8) & 1u8 == 1u8) by (bit_vector);
    assert((b | 1u8) >> 1u8 == b >> 1u8) by (bit_vector);
}

/// Every byte of an acknowledged read but the last is acknowledged, SDA
/// pulled low before its acknowledge clock; the last byte is not: SDA stays
/// released and only the clock pulses, which ends the read.
pub proof fn lemma_last_byte_not_acknowledged(len: nat, k: nat)
    requires
        k < len <= usize::MAX,
    ensures
        k + 1 < len ==> recv_byte_seq(len, k, true) == readb_seq(8) + seq![
            LineWrite::Sda(0),
            LineWrite::Scl(1),
            LineWrite::Scl(0),
        ],
        k + 1 == len ==> recv_byte_seq(len, k, true) == readb_seq(8) + seq![LineWrite::Scl(1), LineWrite::Scl(0)],
        !ack_seq(0).contains(LineWrite::Sda(0)),
{
    let s = ack_seq(0);
    assert(s =~= seq![LineWrite::Scl(1), LineWrite::Scl(0)]);
    assert forall|i: int| 0 <= i < s.len() implies s[i] != LineWrite::Sda(0) by {}
}

} // verus!
