//! The decisions of the background loop that keeps a session alive: when to
//! reconnect, draining inbound frames, and flushing the outbound queue.
//!
//! The loop itself (the thread, the timed wait, the locks) belongs to the
//! caller; each wake-up runs `update_client` once.
use std::collections::VecDeque;
use vstd::prelude::*;

use crate::client::{
    idle_end, is_control, open_spec, pongs, Client, ClientView, State, MAX_CONTROL_FRAMES,
};
use crate::connection::Connection;
use crate::connection::ChannelView;
use crate::message::{fits_frame, frame_of, Message, MessageType, MessageView};

verus! {

/// The default minimum delay between two connection attempts, in milliseconds.
pub const RECONNECT_DELAY_MS: u64 = 1000;

/// The default interval between two wake-ups of the loop, in milliseconds.
pub const WAKE_INTERVAL_MS: u64 = 500;

/// Upper bound on the application frames drained in one cycle; the rest wait
/// for the next cycle.
pub const MAX_FRAMES_PER_CYCLE: usize = 64;

/// Whether an attempt at time `now` respects the backoff after the last
/// attempt. Before the first attempt every time is fine; a clock that went
/// backwards allows none.
pub open spec fn may_attempt(last: Option<u64>, interval: u64, now: u64) -> bool {
    match last {
        None => true,
        Some(t) => t <= now && now - t >= interval,
    }
}

/// What a backoff is: the time of the last attempt, if any, and the minimum
/// delay between attempts.
pub struct BackoffView {
    pub last_attempt: Option<u64>,
    pub interval: u64,
}

/// The reconnection state: when the last attempt was made.
pub struct Backoff {
    last_attempt: Option<u64>,
    interval: u64,
}

impl View for Backoff {
    type V = BackoffView;

    closed spec fn view(&self) -> BackoffView {
        BackoffView { last_attempt: self.last_attempt, interval: self.interval }
    }
}

impl Backoff {
    /// A backoff with no attempt yet and the given minimum delay in
    /// milliseconds.
    pub fn new(interval: u64) -> (r: Backoff)
        ensures
            r@ == (BackoffView { last_attempt: None, interval }),
    {
        Backoff { last_attempt: None, interval }
    }

    /// Returns the time of the last attempt, if any.
    pub fn last_attempt(&self) -> (r: Option<u64>)
        ensures
            r == self@.last_attempt,
    {
        self.last_attempt
    }

    /// Decides whether an attempt may be made at time `now` (milliseconds) and,
    /// if so, records it.
    pub fn try_attempt(&mut self, now: u64) -> (r: bool)
        ensures
            r == may_attempt(old(self)@.last_attempt, old(self)@.interval, now),
            final(self)@ == (if r {
                BackoffView { last_attempt: Some(now), ..old(self)@ }
            } else {
                old(self)@
            }),
    {
        let ok = match self.last_attempt {
            None => true,
            Some(t) => t <= now && now - t >= self.interval,
        };
        if ok {
            self.last_attempt = Some(now);
        }
        ok
    }
}

/// Two attempts that the backoff allowed one after the other are at least its
/// delay apart.
pub proof fn lemma_attempts_spaced(b: BackoffView, t1: u64, t2: u64)
    requires
        may_attempt(b.last_attempt, b.interval, t1),
        may_attempt(Some(t1), b.interval, t2),
    ensures
        t2 >= t1 + b.interval,
{
}

/// The views of a sequence of messages.
pub open spec fn views(ms: Seq<Message>) -> Seq<MessageView> {
    ms.map_values(|m: Message| m@)
}

/// The frames of a sequence of messages.
pub open spec fn frames(ms: Seq<MessageView>) -> Seq<Seq<u8>> {
    ms.map_values(|m: MessageView| frame_of(m))
}

/// The application frames (`Frame` messages) among the given messages, in
/// order.
pub open spec fn app_frames(ms: Seq<MessageView>) -> Seq<MessageView>
    decreases ms.len(),
{
    if ms.len() == 0 {
        Seq::empty()
    } else if ms.last().kind == MessageType::Frame {
        app_frames(ms.drop_last()).push(ms.last())
    } else {
        app_frames(ms.drop_last())
    }
}

proof fn lemma_pongs_append(a: Seq<MessageView>, b: Seq<MessageView>)
    ensures
        pongs(a + b) == pongs(a) + pongs(b),
    decreases b.len(),
{
    if b.len() == 0 {
        assert(a + b =~= a);
        assert(pongs(a) + pongs(b) =~= pongs(a));
    } else {
        lemma_pongs_append(a, b.drop_last());
        assert((a + b).drop_last() =~= a + b.drop_last());
        assert((a + b).last() == b.last());
        if b.last().kind == MessageType::Ping {
            assert(pongs(a) + pongs(b) =~= (pongs(a) + pongs(b.drop_last())).push(
                frame_of(MessageView { kind: MessageType::Pong, ..b.last() }),
            ));
        }
    }
}

proof fn lemma_app_frames_append(a: Seq<MessageView>, b: Seq<MessageView>)
    ensures
        app_frames(a + b) == app_frames(a) + app_frames(b),
    decreases b.len(),
{
    if b.len() == 0 {
        assert(a + b =~= a);
        assert(app_frames(a) + app_frames(b) =~= app_frames(a));
    } else {
        lemma_app_frames_append(a, b.drop_last());
        assert((a + b).drop_last() =~= a + b.drop_last());
        assert((a + b).last() == b.last());
        if b.last().kind == MessageType::Frame {
            assert(app_frames(a) + app_frames(b) =~= (app_frames(a) + app_frames(
                b.drop_last(),
            )).push(b.last()));
        }
    }
}

/// The application frames among controls followed by one frame.
proof fn lemma_app_frames_one(ms: Seq<MessageView>)
    requires
        ms.len() > 0,
        ms.last().kind == MessageType::Frame,
        forall|i: int| 0 <= i < ms.len() - 1 ==> (#[trigger] ms[i]).kind != MessageType::Frame,
    ensures
        app_frames(ms) == seq![ms.last()],
{
    lemma_app_frames_none(ms.drop_last());
    assert(seq![ms.last()] =~= Seq::<MessageView>::empty().push(ms.last()));
}

proof fn lemma_app_frames_none(ms: Seq<MessageView>)
    requires
        forall|i: int| 0 <= i < ms.len() ==> (#[trigger] ms[i]).kind != MessageType::Frame,
    ensures
        app_frames(ms) == Seq::<MessageView>::empty(),
    decreases ms.len(),
{
    if ms.len() > 0 {
        assert(ms.last() == ms[ms.len() - 1]);
        lemma_app_frames_none(ms.drop_last());
    }
}

/// Whether the messages end with the control frames that one `read` may
/// handle before it yields.
pub open spec fn control_burst(new: Seq<MessageView>) -> bool {
    &&& new.len() >= MAX_CONTROL_FRAMES
    &&& forall|i: int| new.len() - MAX_CONTROL_FRAMES <= i < new.len() ==> is_control(
        #[trigger] new[i],
    )
}

/// What draining does: the messages read, the pongs written for the pings
/// among them, and the application frames handed out. A drain that leaves
/// the session open stops only after the bound of frames, after a `read` that
/// yielded at its own bound of control frames, or when the transport had
/// nothing more.
pub open spec fn drain_spec(
    before: ClientView,
    after: ClientView,
    out: Seq<MessageView>,
) -> bool {
    let new = after.received.subrange(before.received.len() as int, after.received.len() as int);
    &&& after.app_id == before.app_id
    &&& before.received.len() <= after.received.len()
    &&& after.received.subrange(0, before.received.len() as int) == before.received
    &&& out == app_frames(new)
    &&& after.state == before.state || after.state == State::Disconnected
    &&& after.sent == before.sent + pongs(new) || (after.state == State::Disconnected && new.len()
        > 0 && new.last().kind == MessageType::Ping && after.sent == before.sent + pongs(
        new.drop_last(),
    ))
    &&& before.transport.reads.len() <= after.transport.reads.len()
    &&& before.transport.checks.len() <= after.transport.checks.len()
    &&& before.transport.writes.len() <= after.transport.writes.len()
    &&& after.state == State::Connected ==> (out.len() == MAX_FRAMES_PER_CYCLE || idle_end(
        before.transport,
        after.transport,
    ) || control_burst(new))
}

/// Reads the frames that are available now, up to a bound, and returns the
/// application frames among them.
fn drain<C: Connection>(client: &mut Client<C>) -> (r: Vec<Message>)
    requires
        old(client)@.state == State::Connected,
    ensures
        drain_spec(old(client)@, final(client)@, views(r@)),
{
    let ghost start = client@;
    let mut out: Vec<Message> = Vec::new();
    let mut n: usize = 0;
    while n < MAX_FRAMES_PER_CYCLE
        invariant
            start == old(client)@,
            start.state == State::Connected,
            client@.state == State::Connected,
            client@.app_id == start.app_id,
            start.received.len() <= client@.received.len(),
            client@.received.subrange(0, start.received.len() as int) == start.received,
            views(out@) == app_frames(
                client@.received.subrange(
                    start.received.len() as int,
                    client@.received.len() as int,
                ),
            ),
            client@.sent == start.sent + pongs(
                client@.received.subrange(
                    start.received.len() as int,
                    client@.received.len() as int,
                ),
            ),
            start.transport.reads.len() <= client@.transport.reads.len(),
            start.transport.checks.len() <= client@.transport.checks.len(),
            start.transport.writes.len() <= client@.transport.writes.len(),
            out@.len() == n,
            n <= MAX_FRAMES_PER_CYCLE,
        decreases MAX_FRAMES_PER_CYCLE - n,
    {
        let ghost before = client@;
        let ghost done = before.received.subrange(
            start.received.len() as int,
            before.received.len() as int,
        );
        let got = client.read();
        let ghost after = client@;
        let ghost new = after.received.subrange(
            before.received.len() as int,
            after.received.len() as int,
        );
        let ghost all = after.received.subrange(
            start.received.len() as int,
            after.received.len() as int,
        );
        proof {
            assert(all =~= done + new);
            assert(after.received.subrange(0, start.received.len() as int)
                =~= before.received.subrange(0, start.received.len() as int));
            lemma_pongs_append(done, new);
            lemma_app_frames_append(done, new);
            if new.len() > 0 {
                assert(all.drop_last() =~= done + new.drop_last());
                lemma_pongs_append(done, new.drop_last());
            }
        }
        match got {
            Some(m) => {
                proof {
                    assert forall|i: int| 0 <= i < new.len() - 1 implies (#[trigger] new[i]).kind
                        != MessageType::Frame by {
                        assert(is_control(new[i]));
                    }
                    lemma_app_frames_one(new);
                }
                assert(start.sent + pongs(done) + pongs(new) =~= start.sent + (pongs(done)
                    + pongs(new)));
                let ghost prev = out@;
                out.push(m);
                assert(views(out@) =~= views(prev).push(m@));
            },
            None => {
                proof {
                    assert forall|i: int| 0 <= i < new.len() implies (#[trigger] new[i]).kind
                        != MessageType::Frame by {
                        if i < new.len() - 1 {
                            assert(is_control(new[i]));
                        }
                    }
                    lemma_app_frames_none(new);
                    if after.state == State::Connected && new.len() == MAX_CONTROL_FRAMES {
                        assert forall|k: int| all.len() - MAX_CONTROL_FRAMES <= k < all.len()
                            implies is_control(#[trigger] all[k]) by {
                            assert(all[k] == new[k - done.len()]);
                            if k - done.len() < new.len() - 1 {
                                assert(is_control(new[k - done.len()]));
                            }
                        }
                    }
                    if new.len() > 0 {
                        assert(all.last() == new.last());
                        assert(start.sent + pongs(done) + pongs(new.drop_last()) =~= start.sent + (
                        pongs(done) + pongs(new.drop_last())));
                    }
                    assert(start.sent + pongs(done) + pongs(new) =~= start.sent + (pongs(done)
                        + pongs(new)));
                }
                return out;
            },
        }
        n = n + 1;
    }
    out
}

/// Write attempts that the transport accepted, one for each frame.
pub open spec fn accepted_all(fs: Seq<Seq<u8>>) -> Seq<(Seq<u8>, bool)> {
    fs.map_values(|f: Seq<u8>| (f, true))
}

/// The write attempts of a flush that sent the first `r` of the queue `q0`:
/// each of those accepted, then, if the queue was not emptied, the refused
/// attempt at the next one, or no attempt when it is too long for a frame.
pub open spec fn flush_writes(
    w0: Seq<(Seq<u8>, bool)>,
    q0: Seq<MessageView>,
    r: int,
    w1: Seq<(Seq<u8>, bool)>,
) -> bool {
    let sent = w0 + accepted_all(frames(q0.take(r)));
    if r == q0.len() {
        w1 == sent
    } else if fits_frame(q0[r]) {
        w1 == sent.push((frame_of(q0[r]), false))
    } else {
        w1 == sent
    }
}

/// Writes the queued messages in order and returns how many went out; it stops
/// at the first one the transport refuses, which stays queued with all that
/// follow it.
fn flush<C: Connection>(client: &mut Client<C>, outbox: &mut VecDeque<Message>) -> (r: usize)
    ensures
        r <= old(outbox)@.len(),
        views(final(outbox)@) == views(old(outbox)@).skip(r as int),
        flush_writes(
            old(client)@.transport.writes,
            views(old(outbox)@),
            r as int,
            final(client)@.transport.writes,
        ),
        final(client)@ == (ClientView {
            sent: old(client)@.sent + frames(views(old(outbox)@).take(r as int)),
            transport: ChannelView { writes: final(client)@.transport.writes, ..old(client)@.transport },
            ..old(client)@
        }),
{
    let ghost q0 = views(outbox@);
    let ghost c0 = client@;
    let mut written: usize = 0;
    while outbox.len() > 0
        invariant
            q0 == views(old(outbox)@),
            q0.len() == old(outbox)@.len(),
            old(outbox)@.len() == old(outbox).len(),
            c0 == old(client)@,
            written <= q0.len(),
            views(outbox@) == q0.skip(written as int),
            client@ == (ClientView {
                sent: c0.sent + frames(q0.take(written as int)),
                transport: ChannelView {
                    writes: c0.transport.writes + accepted_all(frames(q0.take(written as int))),
                    ..c0.transport
                },
                ..c0
            }),
        decreases outbox@.len(),
    {
        assert(views(outbox@).len() == outbox@.len());
        assert(views(outbox@)[0] == outbox@[0]@);
        assert(q0.skip(written as int)[0] == q0[written as int]);
        assert(written < q0.len());
        let next = outbox[0].duplicate();
        if !client.write(next) {
            assert(q0.take(written as int) =~= q0.take(written as int));
            return written;
        }
        let ghost before = outbox@;
        outbox.pop_front();
        assert(outbox@ =~= before.subrange(1, before.len() as int));
        assert(views(outbox@) =~= q0.skip(written as int + 1)) by {
            assert forall|i: int| 0 <= i < views(outbox@).len() implies views(outbox@)[i]
                == q0.skip(written as int + 1)[i] by {
                assert(views(before)[i + 1] == before[i + 1]@);
                assert(q0.skip(written as int)[i + 1] == q0[written + i + 1]);
            }
        }
        assert(frames(q0.take(written as int + 1)) =~= frames(q0.take(written as int)).push(
            frame_of(q0[written as int]),
        ));
        assert(c0.sent + frames(q0.take(written as int + 1)) =~= (c0.sent + frames(
            q0.take(written as int),
        )).push(frame_of(q0[written as int])));
        assert(c0.transport.writes + accepted_all(frames(q0.take(written as int + 1))) =~= (
        c0.transport.writes + accepted_all(frames(q0.take(written as int)))).push(
            (frame_of(q0[written as int]), true),
        ));
        written = written + 1;
    }
    assert(views(outbox@).len() == outbox@.len());
    written
}

/// What one cycle does to a client that is not connected: it opens the client
/// when the backoff allows an attempt now, and leaves it as it is otherwise.
pub open spec fn reconnect_spec(
    before: ClientView,
    after: ClientView,
    b0: BackoffView,
    b1: BackoffView,
    now: u64,
) -> bool {
    if may_attempt(b0.last_attempt, b0.interval, now) {
        &&& b1 == BackoffView { last_attempt: Some(now), ..b0 }
        &&& open_spec(before, after)
    } else {
        &&& b1 == b0
        &&& after == before
    }
}

/// What one cycle does to a connected client: it reads what is available,
/// answering pings first, then writes queued messages in order while the
/// session stays open. `flushed` is how many queued messages went out.
pub open spec fn session_spec(
    before: ClientView,
    after: ClientView,
    q0: Seq<MessageView>,
    q1: Seq<MessageView>,
    out: Seq<MessageView>,
) -> bool {
    let new = after.received.subrange(before.received.len() as int, after.received.len() as int);
    let flushed = q0.len() - q1.len();
    &&& after.app_id == before.app_id
    &&& before.received.len() <= after.received.len()
    &&& after.received.subrange(0, before.received.len() as int) == before.received
    &&& out == app_frames(new)
    &&& after.state == before.state || after.state == State::Disconnected
    &&& 0 <= flushed <= q0.len()
    &&& q1 == q0.skip(flushed)
    &&& after.state == State::Disconnected ==> flushed == 0
    &&& (flushed < q0.len() && after.state != State::Disconnected && fits_frame(q0[flushed]))
        ==> after.transport.writes.len() > before.transport.writes.len()
        && after.transport.writes.last() == (frame_of(q0[flushed]), false)
    &&& after.state != State::Disconnected ==> (out.len() == MAX_FRAMES_PER_CYCLE || idle_end(
        before.transport,
        after.transport,
    ) || control_burst(new))
    &&& after.sent == before.sent + pongs(new) + frames(q0.take(flushed)) || (after.state
        == State::Disconnected && new.len() > 0 && new.last().kind == MessageType::Ping
        && after.sent == before.sent + pongs(new.drop_last()))
}

/// Runs one cycle of the background loop at time `now` (milliseconds): a
/// client that is not connected is opened when the backoff allows; a
/// connected one has its inbound frames drained, pings answered first, and
/// then the queued messages written in order. A message the transport
/// refuses stays queued for the next cycle. Returns the application frames
/// read, for `PendingRequests::route` to deliver.
pub fn update_client<C: Connection>(
    client: &mut Client<C>,
    backoff: &mut Backoff,
    now: u64,
    outbox: &mut VecDeque<Message>,
) -> (r: Vec<Message>)
    ensures
        old(client)@.state != State::Connected ==> {
            &&& r@.len() == 0
            &&& final(outbox)@ == old(outbox)@
            &&& reconnect_spec(old(client)@, final(client)@, old(backoff)@, final(backoff)@, now)
        },
        old(client)@.state == State::Connected ==> {
            &&& final(backoff)@ == old(backoff)@
            &&& session_spec(
                old(client)@,
                final(client)@,
                views(old(outbox)@),
                views(final(outbox)@),
                views(r@),
            )
        },
{
    if !client.is_open() {
        if backoff.try_attempt(now) {
            client.open();
        }
        return Vec::new();
    }
    let ghost c0 = client@;
    let frames_read = drain(client);
    let ghost c1 = client@;
    if client.is_open() {
        let ghost q0 = views(outbox@);
        let n = flush(client, outbox);
        proof {
            let new = c1.received.subrange(c0.received.len() as int, c1.received.len() as int);
            assert(q0.len() - views(outbox@).len() == n);
            assert(c1.sent == c0.sent + pongs(new));
        }
    } else {
        assert(views(outbox@).skip(0) =~= views(outbox@));
        assert(views(outbox@).take(0) =~= Seq::<MessageView>::empty());
        assert(c1.sent + frames(Seq::<MessageView>::empty()) =~= c1.sent);
    }
    frames_read
}

} // verus!
