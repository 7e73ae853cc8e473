use crate::addr::Endpoint;
use crate::utils::{is_would_block, would_block};
use ringbuffer::{ConstGenericRingBuffer, RingBuffer};
use vstd::prelude::*;

verus! {

/// The largest payload a packet carries.
pub const UDP_BUF_SIZE: usize = 1452;

/// How many packets a socket holds back while it is not writable.
pub const RING_BUF_SIZE: usize = 64;

/// A datagram and where it goes: the first `len` bytes of `data` to `dst`.
#[derive(Clone, Debug)]
pub struct Packet {
    pub data: [u8; UDP_BUF_SIZE],
    pub len: usize,
    pub dst: Endpoint,
}

/// `ringbuffer::ConstGenericRingBuffer`, a fixed-capacity FIFO queue.
#[verifier::external_type_specification]
#[verifier::external_body]
#[verifier::reject_recursive_types(T)]
pub struct ExConstGenericRingBuffer<T, const CAP: usize>(ConstGenericRingBuffer<T, CAP>);

/// The packets a ring buffer holds, oldest first.
pub uninterp spec fn queued_packets(buf: ConstGenericRingBuffer<Packet, RING_BUF_SIZE>) -> Seq<Packet>;

/// `ConstGenericRingBuffer::new`: a buffer that holds nothing.
#[verifier::external_body]
fn ring_new() -> (b: ConstGenericRingBuffer<Packet, RING_BUF_SIZE>)
    ensures
        queued_packets(b) == Seq::<Packet>::empty(),
{
    ConstGenericRingBuffer::new()
}

/// `RingBuffer::is_full`: in the crate's source, whether the length equals
/// the capacity, which for this buffer is `RING_BUF_SIZE`.
#[verifier::external_body]
fn ring_is_full(b: &ConstGenericRingBuffer<Packet, RING_BUF_SIZE>) -> (r: bool)
    ensures
        r == (queued_packets(*b).len() == RING_BUF_SIZE),
{
    b.is_full()
}

/// `RingBuffer::enqueue` on a buffer that is not full: the crate's `push`
/// then writes the packet behind the others and drops none.
#[verifier::external_body]
fn ring_enqueue(b: &mut ConstGenericRingBuffer<Packet, RING_BUF_SIZE>, pkt: Packet)
    requires
        queued_packets(*old(b)).len() < RING_BUF_SIZE,
    ensures
        queued_packets(*final(b)) == queued_packets(*old(b)).push(pkt),
{
    b.enqueue(pkt)
}

/// `RingBuffer::len`: how many packets the buffer holds.
#[verifier::external_body]
fn ring_len(b: &ConstGenericRingBuffer<Packet, RING_BUF_SIZE>) -> (n: usize)
    ensures
        n == queued_packets(*b).len(),
{
    b.len()
}

/// `RingBuffer::dequeue`: removes and returns the oldest packet, or
/// returns `None` and changes nothing when the buffer is empty.
#[verifier::external_body]
fn ring_dequeue(b: &mut ConstGenericRingBuffer<Packet, RING_BUF_SIZE>) -> (r: Option<Packet>)
    ensures
        queued_packets(*old(b)).len() == 0 ==> r is None && queued_packets(*final(b))
            == queued_packets(*old(b)),
        queued_packets(*old(b)).len() > 0 ==> r == Some(queued_packets(*old(b))[0])
            && queued_packets(*final(b)) == queued_packets(*old(b)).drop_first(),
{
    b.dequeue()
}

/// `RingBuffer::peek`: the oldest packet, left in place, or `None` when the
/// buffer is empty.
#[verifier::external_body]
fn ring_peek(b: &ConstGenericRingBuffer<Packet, RING_BUF_SIZE>) -> (r: Option<&Packet>)
    ensures
        queued_packets(*b).len() == 0 ==> r is None,
        queued_packets(*b).len() > 0 ==> r == Some(&queued_packets(*b)[0]),
{
    b.peek()
}

impl Packet {
    /// The length fits the data.
    pub open spec fn wf(&self) -> bool {
        self.len <= UDP_BUF_SIZE
    }

    /// A packet of the first `len` bytes of `data`, to `dst`.
    pub fn new(data: [u8; UDP_BUF_SIZE], len: usize, dst: Endpoint) -> (p: Packet)
        requires
            len <= UDP_BUF_SIZE,
        ensures
            p.wf(),
            p.data == data,
            p.len == len,
            p.dst == dst,
    {
        Packet { data, len, dst }
    }

    /// The bytes the packet carries.
    pub fn payload(&self) -> (b: &[u8])
        requires
            self.wf(),
        ensures
            b@ == self.data@.subrange(0, self.len as int),
    {
        vstd::slice::slice_subrange(self.data.as_slice(), 0, self.len)
    }
}

/// What `send_one` decided for a packet.
pub enum SendAction {
    /// The socket is writable: send the packet now, then report the result
    /// to `complete_send_one`.
    Transmit(Packet),
    /// The socket is not writable: the packet waits in the buffer.
    Queued,
    /// The socket is not writable and the buffer is full: the packet is lost.
    Dropped,
}

/// What became of a packet that was sent at once.
#[derive(Clone, Copy, Debug, PartialEq, Eq, Structural)]
pub enum SendOutcome {
    /// It went out.
    Sent,
    /// The socket would have blocked: the packet waits in the buffer.
    Queued,
    /// The socket would have blocked and the buffer is full: the packet is lost.
    Dropped,
}

/// What a flush of the buffer does next, after one packet was tried.
pub enum FlushStep {
    /// The packet went out; try the next one (`try_send`).
    Continue,
    /// The flush is over, with this outcome.
    Done(std::io::Result<()>),
}

/// The sending side of a non-blocking UDP socket: whether the socket is
/// writable, and the packets that wait, oldest first, until it is.
pub struct BufferedSocket {
    writable: bool,
    buffer: ConstGenericRingBuffer<Packet, RING_BUF_SIZE>,
}

impl BufferedSocket {
    pub closed spec fn is_writable(&self) -> bool {
        self.writable
    }

    /// The packets waiting to be sent, oldest first.
    pub closed spec fn queue(&self) -> Seq<Packet> {
        queued_packets(self.buffer)
    }

    /// At most `RING_BUF_SIZE` packets wait, each of a length that fits.
    pub open spec fn wf(&self) -> bool {
        &&& self.queue().len() <= RING_BUF_SIZE
        &&& forall|i: int| 0 <= i < self.queue().len() ==> (#[trigger] self.queue()[i]).wf()
    }

    /// Nothing waits while the socket is writable: the state between two
    /// turns of an event loop whose flushes run to their end.
    pub open spec fn settled(&self) -> bool {
        self.is_writable() ==> self.queue().len() == 0
    }

    /// One call of `send_one` took `pre` to `post`, deciding `a` for `pkt`.
    pub open spec fn send_one_step(pre: Self, post: Self, pkt: Packet, a: SendAction) -> bool {
        &&& post.is_writable() == pre.is_writable()
        &&& pre.is_writable() ==> a == SendAction::Transmit(pkt) && post.queue() == pre.queue()
        &&& !pre.is_writable() && pre.queue().len() < RING_BUF_SIZE ==> a == SendAction::Queued
            && post.queue() == pre.queue().push(pkt)
        &&& !pre.is_writable() && pre.queue().len() >= RING_BUF_SIZE ==> a == SendAction::Dropped
            && post.queue() == pre.queue()
    }

    /// One call of `complete_send_one` took `pre` to `post` for `pkt`,
    /// whose send gave `res`, and returned `r`.
    pub open spec fn complete_send_one_step(
        pre: Self,
        post: Self,
        pkt: Packet,
        res: std::io::Result<usize>,
        r: std::io::Result<SendOutcome>,
    ) -> bool {
        match res {
            Ok(_) => r == Ok::<SendOutcome, std::io::Error>(SendOutcome::Sent) && post == pre,
            Err(e) => if is_would_block(e) {
                &&& !post.is_writable()
                &&& pre.queue().len() < RING_BUF_SIZE ==> r == Ok::<
                    SendOutcome,
                    std::io::Error,
                >(SendOutcome::Queued) && post.queue() == pre.queue().push(pkt)
                &&& pre.queue().len() >= RING_BUF_SIZE ==> r == Ok::<
                    SendOutcome,
                    std::io::Error,
                >(SendOutcome::Dropped) && post.queue() == pre.queue()
            } else {
                r == Err::<SendOutcome, std::io::Error>(e) && post == pre
            },
        }
    }

    /// One call of `complete_try_send` took `pre` to `post`, the send of
    /// the oldest packet having given `res`, and returned `step`.
    pub open spec fn complete_try_send_step(
        pre: Self,
        post: Self,
        res: std::io::Result<usize>,
        step: FlushStep,
    ) -> bool {
        match res {
            Ok(_) => {
                &&& post.is_writable()
                &&& post.queue() == pre.queue().drop_first()
                &&& (post.queue().len() > 0 ==> step is Continue)
                &&& (post.queue().len() == 0 ==> step == FlushStep::Done(
                    Ok::<(), std::io::Error>(()),
                ))
            },
            Err(e) => {
                &&& post.queue() == pre.queue()
                &&& if is_would_block(e) {
                    !post.is_writable() && step == FlushStep::Done(Ok::<(), std::io::Error>(()))
                } else {
                    post.is_writable() && step == FlushStep::Done(Err::<(), std::io::Error>(e))
                }
            },
        }
    }

    /// A writable socket with nothing waiting.
    pub fn new() -> (s: BufferedSocket)
        ensures
            s.wf(),
            s.settled(),
            s.is_writable(),
            s.queue() == Seq::<Packet>::empty(),
    {
        BufferedSocket { writable: true, buffer: ring_new() }
    }

    pub fn writable(&self) -> (r: bool)
        ensures
            r == self.is_writable(),
    {
        self.writable
    }

    /// How many packets wait.
    pub fn pending(&self) -> (n: usize)
        ensures
            n == self.queue().len(),
            self.wf() ==> n <= RING_BUF_SIZE,
    {
        ring_len(&self.buffer)
    }

    /// The poller reported that the socket can be written again.
    pub fn set_writable(&mut self)
        requires
            old(self).wf(),
        ensures
            final(self).wf(),
            final(self).is_writable(),
            final(self).queue() == old(self).queue(),
    {
        self.writable = true;
    }

    /// Puts the packet behind the waiting ones, unless the buffer is full,
    /// in which case the packet is dropped. Returns whether it was kept.
    fn try_enqueue(&mut self, pkt: Packet) -> (kept: bool)
        requires
            old(self).wf(),
            pkt.wf(),
        ensures
            final(self).wf(),
            final(self).is_writable() == old(self).is_writable(),
            kept == (old(self).queue().len() < RING_BUF_SIZE),
            kept ==> final(self).queue() == old(self).queue().push(pkt),
            !kept ==> final(self).queue() == old(self).queue(),
    {
        if ring_is_full(&self.buffer) {
            false
        } else {
            ring_enqueue(&mut self.buffer, pkt);
            proof {
                let q = self.queue();
                assert forall|i: int| 0 <= i < q.len() implies (#[trigger] q[i]).wf() by {
                    if i < q.len() - 1 {
                        assert(q[i] == old(self).queue()[i]);
                    }
                }
            }
            true
        }
    }

    /// Sends one packet: at once while the socket is writable, else it
    /// waits in the buffer, or is dropped when the buffer is full.
    pub fn send_one(&mut self, pkt: Packet) -> (a: SendAction)
        requires
            old(self).wf(),
            pkt.wf(),
        ensures
            final(self).wf(),
            Self::send_one_step(*old(self), *final(self), pkt, a),
    {
        if self.writable {
            SendAction::Transmit(pkt)
        } else if self.try_enqueue(pkt) {
            SendAction::Queued
        } else {
            SendAction::Dropped
        }
    }

    /// The result of sending a packet that `send_one` handed out. If the
    /// socket would have blocked, it is no longer writable and the packet
    /// waits, or is dropped when the buffer is full, which the outcome
    /// reports; either way that counts as done. Any other error is passed
    /// on and the packet is lost.
    pub fn complete_send_one(&mut self, pkt: Packet, res: std::io::Result<usize>) -> (r:
        std::io::Result<SendOutcome>)
        requires
            old(self).wf(),
            pkt.wf(),
        ensures
            final(self).wf(),
            Self::complete_send_one_step(*old(self), *final(self), pkt, res, r),
    {
        match res {
            Ok(_bytes) => Ok(SendOutcome::Sent),
            Err(e) => {
                if would_block(&e) {
                    self.writable = false;
                    if self.try_enqueue(pkt) {
                        Ok(SendOutcome::Queued)
                    } else {
                        Ok(SendOutcome::Dropped)
                    }
                } else {
                    Err(e)
                }
            },
        }
    }

    /// The next packet a flush sends: the oldest waiting one, while the
    /// socket is writable. `None` ends the flush successfully.
    pub fn try_send(&self) -> (r: Option<&Packet>)
        requires
            self.wf(),
        ensures
            self.is_writable() && self.queue().len() > 0 ==> r == Some(&self.queue()[0]),
            !(self.is_writable() && self.queue().len() > 0) ==> r is None,
            r matches Some(p) ==> p.wf(),
    {
        if self.writable {
            ring_peek(&self.buffer)
        } else {
            None
        }
    }

    /// The result of sending the packet that `try_send` handed out. On
    /// success it leaves the buffer and the flush goes on while packets
    /// wait; if the socket would have blocked, it stays and the socket is
    /// no longer writable; any other error stops the flush, the packet
    /// staying in the buffer.
    pub fn complete_try_send(&mut self, res: std::io::Result<usize>) -> (step: FlushStep)
        requires
            old(self).wf(),
            old(self).is_writable(),
            old(self).queue().len() > 0,
        ensures
            final(self).wf(),
            Self::complete_try_send_step(*old(self), *final(self), res, step),
    {
        match res {
            Ok(_bytes) => {
                let _sent = ring_dequeue(&mut self.buffer);
                proof {
                    let q = self.queue();
                    assert forall|i: int| 0 <= i < q.len() implies (#[trigger] q[i]).wf() by {
                        assert(q[i] == old(self).queue()[i + 1]);
                    }
                }
                if ring_peek(&self.buffer).is_some() {
                    FlushStep::Continue
                } else {
                    FlushStep::Done(Ok(()))
                }
            },
            Err(e) => {
                if would_block(&e) {
                    self.writable = false;
                    FlushStep::Done(Ok(()))
                } else {
                    FlushStep::Done(Err(e))
                }
            },
        }
    }
}

/// Whether a send just took away the socket's writability, so that the
/// poller must be asked to report when it can be written again.
pub fn lost_writability(prev_writable: bool, now_writable: bool) -> (r: bool)
    ensures
        r == (prev_writable && !now_writable),
{
    prev_writable && !now_writable
}

/// Whether a send result is one the relay's flow goes on after: success,
/// or a socket that would have blocked.
pub open spec fn benign(res: std::io::Result<usize>) -> bool {
    match res {
        Ok(_) => true,
        Err(e) => is_would_block(e),
    }
}

/// A step of a socket's sending side accepted `took` for sending, and
/// `out` left it in successful sends: what waits afterwards, behind what
/// left, is what waited before followed by what was accepted. Nothing is
/// lost, duplicated or reordered.
pub open spec fn conserves(pre: BufferedSocket, post: BufferedSocket, took: Seq<Packet>, out: Seq<
    Packet,
>) -> bool {
    out + post.queue() == pre.queue() + took
}

/// `send_one` on a socket that is not writable keeps the packets in order:
/// it accepts the packet unless it drops it for a full buffer, and nothing
/// goes out. A settled socket stays settled.
pub proof fn lemma_send_one_queued_conserves(
    pre: BufferedSocket,
    post: BufferedSocket,
    pkt: Packet,
    a: SendAction,
)
    requires
        BufferedSocket::send_one_step(pre, post, pkt, a),
        !pre.is_writable(),
    ensures
        a is Queued ==> conserves(pre, post, seq![pkt], Seq::empty()),
        a is Dropped ==> conserves(pre, post, Seq::empty(), Seq::empty()),
        !(a is Transmit),
        post.settled(),
{
    assert(Seq::<Packet>::empty() + post.queue() =~= post.queue());
    assert(pre.queue() + Seq::<Packet>::empty() =~= pre.queue());
    assert(pre.queue() + seq![pkt] =~= pre.queue().push(pkt));
}

/// A packet that a settled socket sends at once, followed by its result:
/// with a benign result the packet is accepted, and goes out unless the
/// socket would have blocked, in which case it waits as the only packet.
/// The socket stays settled.
pub proof fn lemma_transmit_conserves(
    pre: BufferedSocket,
    mid: BufferedSocket,
    post: BufferedSocket,
    pkt: Packet,
    res: std::io::Result<usize>,
    r: std::io::Result<SendOutcome>,
)
    requires
        pre.settled(),
        pre.is_writable(),
        BufferedSocket::send_one_step(pre, mid, pkt, SendAction::Transmit(pkt)),
        BufferedSocket::complete_send_one_step(mid, post, pkt, res, r),
        benign(res),
    ensures
        res is Ok ==> conserves(pre, post, seq![pkt], seq![pkt]),
        res is Err ==> conserves(pre, post, seq![pkt], Seq::empty()) && r == Ok::<
            SendOutcome,
            std::io::Error,
        >(SendOutcome::Queued),
        post.settled(),
{
    assert(pre.queue().len() == 0);
    assert(pre.queue() + seq![pkt] =~= seq![pkt]);
    if res is Ok {
        assert(post.queue() =~= Seq::<Packet>::empty());
        assert(seq![pkt] + post.queue() =~= seq![pkt]);
    } else {
        assert(post.queue() =~= seq![pkt]);
        assert(Seq::<Packet>::empty() + post.queue() =~= seq![pkt]);
    }
}

/// A step of a flush keeps the packets in order: with a benign result the
/// oldest packet goes out, or nothing does when the socket would have
/// blocked. A flush that ends without error leaves the socket settled.
pub proof fn lemma_flush_conserves(
    pre: BufferedSocket,
    post: BufferedSocket,
    res: std::io::Result<usize>,
    step: FlushStep,
)
    requires
        pre.queue().len() > 0,
        BufferedSocket::complete_try_send_step(pre, post, res, step),
        benign(res),
    ensures
        res is Ok ==> conserves(pre, post, Seq::empty(), seq![pre.queue()[0]]),
        res is Err ==> conserves(pre, post, Seq::empty(), Seq::empty()),
        step is Done ==> post.settled(),
{
    assert(pre.queue() + Seq::<Packet>::empty() =~= pre.queue());
    if res is Ok {
        assert(seq![pre.queue()[0]] + post.queue() =~= pre.queue());
    } else {
        assert(Seq::<Packet>::empty() + post.queue() =~= post.queue());
    }
}

/// Over any run of steps that each keep the packets in order, everything
/// that left, followed by what still waits, is what waited at the start
/// followed by everything accepted: each accepted packet leaves at most
/// once, and the packets leave in the order they were accepted.
pub proof fn lemma_sending_is_fifo(
    states: Seq<BufferedSocket>,
    took: Seq<Seq<Packet>>,
    out: Seq<Seq<Packet>>,
)
    requires
        states.len() == took.len() + 1,
        out.len() == took.len(),
        forall|i: int| 0 <= i < took.len() ==> conserves(#[trigger] states[i], states[i + 1], took[i], out[i]),
    ensures
        out.flatten_alt() + states.last().queue() == states[0].queue() + took.flatten_alt(),
    decreases took.len(),
{
    if took.len() > 0 {
        let n = took.len() - 1;
        lemma_sending_is_fifo(states.drop_last(), took.drop_last(), out.drop_last());
        assert(conserves(states[n], states[n + 1], took[n], out[n]));
        let a = out.drop_last().flatten_alt();
        let b = took.drop_last().flatten_alt();
        assert(states.drop_last().last() == states[n]);
        assert(a + states[n].queue() == states[0].queue() + b);
        assert(out[n] + states[n + 1].queue() == states[n].queue() + took[n]);
        assert(out.flatten_alt() == a + out[n]);
        assert(took.flatten_alt() == b + took[n]);
        assert((a + out[n]) + states[n + 1].queue() =~= a + (out[n] + states[n + 1].queue()));
        assert(a + (states[n].queue() + took[n]) =~= (a + states[n].queue()) + took[n]);
        assert((states[0].queue() + b) + took[n] =~= states[0].queue() + (b + took[n]));
    } else {
        assert(out.flatten_alt() + states.last().queue() =~= states[0].queue() + took.flatten_alt());
    }
}

/// One call on a socket's sending side, with what it was given and what
/// it returned.
pub enum SendCall {
    /// `send_one(pkt)` returned the action.
    SendOne(Packet, SendAction),
    /// `complete_send_one(pkt, res)` returned the outcome.
    CompleteSendOne(Packet, std::io::Result<usize>, std::io::Result<SendOutcome>),
    /// `set_writable()`.
    SetWritable,
    /// `complete_try_send(res)` returned the step.
    CompleteTrySend(std::io::Result<usize>, FlushStep),
}

/// The call `c` took `pre` to `post`, as its contract says.
pub open spec fn call_step(pre: BufferedSocket, post: BufferedSocket, c: SendCall) -> bool {
    match c {
        SendCall::SendOne(pkt, a) => BufferedSocket::send_one_step(pre, post, pkt, a),
        SendCall::CompleteSendOne(pkt, res, r) => BufferedSocket::complete_send_one_step(
            pre,
            post,
            pkt,
            res,
            r,
        ),
        SendCall::SetWritable => post.is_writable() && post.queue() == pre.queue(),
        SendCall::CompleteTrySend(res, step) => {
            &&& pre.is_writable()
            &&& pre.queue().len() > 0
            &&& BufferedSocket::complete_try_send_step(pre, post, res, step)
        },
    }
}

/// The packets a call accepted for sending.
pub open spec fn call_took(c: SendCall) -> Seq<Packet> {
    match c {
        SendCall::SendOne(pkt, a) => if a is Queued {
            seq![pkt]
        } else {
            Seq::empty()
        },
        SendCall::CompleteSendOne(pkt, _, r) => if r == Ok::<SendOutcome, std::io::Error>(
            SendOutcome::Sent,
        ) || r == Ok::<SendOutcome, std::io::Error>(SendOutcome::Queued) {
            seq![pkt]
        } else {
            Seq::empty()
        },
        _ => Seq::empty(),
    }
}

/// The packets a call sent successfully.
pub open spec fn call_out(pre: BufferedSocket, c: SendCall) -> Seq<Packet> {
    match c {
        SendCall::CompleteSendOne(pkt, _, r) => if r == Ok::<SendOutcome, std::io::Error>(
            SendOutcome::Sent,
        ) {
            seq![pkt]
        } else {
            Seq::empty()
        },
        SendCall::CompleteTrySend(res, _) => if res is Ok {
            seq![pre.queue()[0]]
        } else {
            Seq::empty()
        },
        _ => Seq::empty(),
    }
}

/// Everything a run of calls accepted for sending, in order.
pub open spec fn run_took(calls: Seq<SendCall>) -> Seq<Packet> {
    Seq::new(calls.len(), |i: int| call_took(calls[i])).flatten_alt()
}

/// Everything a run of calls sent successfully, in order.
pub open spec fn run_out(states: Seq<BufferedSocket>, calls: Seq<SendCall>) -> Seq<Packet> {
    Seq::new(calls.len(), |i: int| call_out(states[i], calls[i])).flatten_alt()
}

/// Whether the call before `states[i]` left a flush going (a flush starts
/// with `set_writable` and goes on after each `Continue`).
pub open spec fn flushing(calls: Seq<SendCall>, i: int) -> bool {
    i > 0 && match calls[i - 1] {
        SendCall::SetWritable => true,
        SendCall::CompleteTrySend(_, step) => step is Continue,
        _ => false,
    }
}

/// A run of calls on a socket, used the way the relay uses it: it starts
/// settled; `complete_send_one` follows the `send_one` that handed the
/// packet out; a flush runs to its end (after `set_writable` or a
/// `Continue`, the next call is `complete_try_send` while packets wait);
/// and every send gives success or would-block.
pub open spec fn run_wf(states: Seq<BufferedSocket>, calls: Seq<SendCall>) -> bool {
    &&& states.len() == calls.len() + 1
    &&& states[0].settled()
    &&& forall|i: int|
        0 <= i < calls.len() ==> call_step(#[trigger] states[i], states[i + 1], calls[i])
    &&& forall|i: int|
        0 <= i < calls.len() ==> match #[trigger] calls[i] {
            SendCall::CompleteSendOne(_, res, _) => {
                &&& benign(res)
                &&& i > 0
                &&& calls[i - 1] matches SendCall::SendOne(_, a) && a is Transmit
            },
            SendCall::CompleteTrySend(res, _) => benign(res),
            _ => true,
        }
    &&& forall|i: int|
        0 <= i < calls.len() && flushing(calls, i) && states[i].queue().len() > 0 ==> (
        #[trigger] calls[i]) is CompleteTrySend
}

/// In such a run, the socket is settled wherever no flush is going.
proof fn lemma_run_settled(states: Seq<BufferedSocket>, calls: Seq<SendCall>, i: int)
    requires
        run_wf(states, calls),
        0 <= i < states.len(),
    ensures
        states[i].settled() || flushing(calls, i),
        i < calls.len() && calls[i] is SendOne ==> states[i].settled(),
    decreases i,
{
    if i > 0 {
        lemma_run_settled(states, calls, i - 1);
        let pre = states[i - 1];
        let post = states[i];
        assert(call_step(pre, post, calls[i - 1]));
        match calls[i - 1] {
            SendCall::SendOne(pkt, a) => {
                assert(pre.settled());
            },
            SendCall::CompleteSendOne(pkt, res, r) => {
                assert(i - 1 > 0);
                lemma_run_settled(states, calls, i - 2);
                assert(call_step(states[i - 2], pre, calls[i - 2]));
                assert(pre.queue().len() == 0);
            },
            SendCall::SetWritable => {},
            SendCall::CompleteTrySend(res, step) => {
                lemma_flush_conserves(pre, post, res, step);
            },
        }
    }
    if i < calls.len() && calls[i] is SendOne && !states[i].settled() {
        assert(flushing(calls, i));
        assert(states[i].queue().len() == 0);
    }
}

/// In such a run, every call keeps the packets in order.
proof fn lemma_run_call_conserves(states: Seq<BufferedSocket>, calls: Seq<SendCall>, i: int)
    requires
        run_wf(states, calls),
        0 <= i < calls.len(),
    ensures
        conserves(states[i], states[i + 1], call_took(calls[i]), call_out(states[i], calls[i])),
{
    let pre = states[i];
    let post = states[i + 1];
    assert(call_step(pre, post, calls[i]));
    assert(Seq::<Packet>::empty() + post.queue() =~= post.queue());
    assert(pre.queue() + Seq::<Packet>::empty() =~= pre.queue());
    match calls[i] {
        SendCall::SendOne(pkt, a) => {
            if !pre.is_writable() {
                lemma_send_one_queued_conserves(pre, post, pkt, a);
            }
        },
        SendCall::CompleteSendOne(pkt, res, r) => {
            lemma_run_settled(states, calls, i - 1);
            assert(call_step(states[i - 1], pre, calls[i - 1]));
            assert(pre.queue().len() == 0);
            assert(pre.queue() + seq![pkt] =~= seq![pkt]);
            assert(seq![pkt] + pre.queue() =~= seq![pkt]);
        },
        SendCall::SetWritable => {},
        SendCall::CompleteTrySend(res, step) => {
            lemma_flush_conserves(pre, post, res, step);
        },
    }
}

/// First in, first out over a whole run: in any run of `send_one`,
/// `complete_send_one`, `set_writable` and `complete_try_send` calls used
/// as the relay uses them (see `run_wf`), what was sent successfully,
/// followed by what still waits, is what waited at the start followed by
/// everything accepted. From a socket with nothing waiting, the packets
/// sent are a prefix of the packets accepted, in the same order: each
/// accepted packet is sent at most once and none overtakes another.
pub proof fn lemma_run_sends_in_order(states: Seq<BufferedSocket>, calls: Seq<SendCall>)
    requires
        run_wf(states, calls),
    ensures
        run_out(states, calls) + states.last().queue() == states[0].queue() + run_took(calls),
        states[0].queue().len() == 0 ==> run_took(calls) == run_out(states, calls)
            + states.last().queue(),
{
    let took = Seq::new(calls.len(), |i: int| call_took(calls[i]));
    let out = Seq::new(calls.len(), |i: int| call_out(states[i], calls[i]));
    assert forall|i: int| 0 <= i < took.len() implies conserves(
        #[trigger] states[i],
        states[i + 1],
        took[i],
        out[i],
    ) by {
        lemma_run_call_conserves(states, calls, i);
    }
    lemma_sending_is_fifo(states, took, out);
    if states[0].queue().len() == 0 {
        assert(states[0].queue() + run_took(calls) =~= run_took(calls));
    }
}

} // verus!
