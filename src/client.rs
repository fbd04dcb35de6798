//! The RPC client based on a `Connection`: handshake, session and teardown.
use vstd::prelude::*;

use crate::connection::{Channel, ChannelView, Connection};
use crate::document::{
    decimal_text, json_quoted, key_index, member_int, member_str, object_text, Document,
};
use crate::error::Error;
use crate::message::{
    decode_spec, fits_frame, frame_of, lemma_decoded_is_frame, lemma_round_trip,
    lemma_stream_round_trip, valid_message, Message, MessageType, MessageView,
};

verus! {

/// Upper bound on the control frames (`Ping`, `Pong`) that one `read` handles
/// before it yields, so that a peer cannot keep the caller in the loop.
pub const MAX_CONTROL_FRAMES: usize = 64;

/// The states a `Client` can be in.
#[derive(Debug, Clone, Copy, PartialEq, Eq, Structural)]
pub enum State {
    Disconnected,
    SentHandshake,
    Connected,
}

/// What the client reports to its owner, in the order it happened.
#[derive(Debug, Clone, PartialEq, Eq)]
pub enum Notification {
    /// The handshake completed: the session is open.
    Connected,
    /// A handshaking or open session ended.
    Disconnected,
    /// An error ended, or came up in, the session.
    Failed(Error),
}

/// What a client is: its state, its application ID, the notifications not yet
/// taken, the frames the transport accepted from it and the messages it
/// decoded, oldest first, and the record of its transport's answers.
pub struct ClientView {
    pub state: State,
    pub app_id: Seq<char>,
    pub notifications: Seq<Notification>,
    pub sent: Seq<Seq<u8>>,
    pub received: Seq<MessageView>,
    pub transport: ChannelView,
}

/// The payload of the handshake: the protocol version and the client's
/// identity.
pub open spec fn handshake_members(app_id: Seq<char>) -> Seq<(Seq<char>, Seq<char>)> {
    seq![("v"@, decimal_text(1)), ("client_id"@, json_quoted(app_id))]
}

/// The handshake message of a client.
pub open spec fn handshake_of(app_id: Seq<char>) -> MessageView {
    MessageView { kind: MessageType::Handshake, payload: object_text(handshake_members(app_id)) }
}

/// Whether a message is the peer's signal that the session is ready.
pub open spec fn is_ready(m: MessageView) -> bool {
    &&& m.kind == MessageType::Frame
    &&& member_str(m.payload, "cmd"@) == Some("DISPATCH"@)
    &&& member_str(m.payload, "evt"@) == Some("READY"@)
}

/// Whether a message is a control frame that `read` handles and goes on.
pub open spec fn is_control(m: MessageView) -> bool {
    m.kind == MessageType::Ping || m.kind == MessageType::Pong
}

/// The code that a `Close` frame carries; 0 when it has none that fits.
pub open spec fn close_code(m: MessageView) -> i32 {
    match member_int(m.payload, "code"@) {
        Some(n) => if i32::MIN <= n <= i32::MAX {
            n as i32
        } else {
            0
        },
        None => 0,
    }
}

/// The description that a `Close` frame carries; `<none>` when it has none.
pub open spec fn close_message(m: MessageView) -> Seq<char> {
    match member_str(m.payload, "message"@) {
        Some(s) => s,
        None => "<none>"@,
    }
}

/// The frames that answer the pings among the given messages, in order.
pub open spec fn pongs(ms: Seq<MessageView>) -> Seq<Seq<u8>>
    decreases ms.len(),
{
    if ms.len() == 0 {
        Seq::empty()
    } else if ms.last().kind == MessageType::Ping {
        pongs(ms.drop_last()).push(frame_of(MessageView { kind: MessageType::Pong, ..ms.last() }))
    } else {
        pongs(ms.drop_last())
    }
}

proof fn lemma_pongs_push(ms: Seq<MessageView>, m: MessageView)
    ensures
        pongs(ms.push(m)) == if m.kind == MessageType::Ping {
            pongs(ms).push(frame_of(MessageView { kind: MessageType::Pong, ..m }))
        } else {
            pongs(ms)
        },
{
    assert(ms.push(m).drop_last() =~= ms);
}

/// The transport record after taking the frames of `new` and then `tail`.
proof fn lemma_inbound(before: ClientView, after: ClientView, tail: Seq<u8>)
    requires
        before.received.len() <= after.received.len(),
        after.transport.received == before.transport.received + frames_bytes(
            new_received(before, after),
        ) + tail,
    ensures
        before.transport.received.len() <= after.transport.received.len(),
        after.transport.received.subrange(0, before.transport.received.len() as int)
            == before.transport.received,
        new_inbound(before, after) == frames_bytes(new_received(before, after)) + tail,
        frames_bytes(new_received(before, after)).len() <= new_inbound(before, after).len(),
        new_inbound(before, after).subrange(
            0,
            frames_bytes(new_received(before, after)).len() as int,
        ) == frames_bytes(new_received(before, after)),
        read_tail(before, after) == tail,
{
    let f = frames_bytes(new_received(before, after));
    assert(after.transport.received.subrange(0, before.transport.received.len() as int)
        =~= before.transport.received);
    assert(new_inbound(before, after) =~= f + tail);
    assert((f + tail).subrange(0, f.len() as int) =~= f);
    assert(read_tail(before, after) =~= tail);
}

proof fn lemma_frames_push(ms: Seq<MessageView>, m: MessageView)
    ensures
        frames_bytes(ms.push(m)) == frames_bytes(ms) + frame_of(m),
{
    assert(ms.push(m).drop_last() =~= ms);
}

/// The client after `close`: disconnected, with one disconnect notification
/// when a session was handshaking or open.
pub open spec fn close_spec(v: ClientView) -> ClientView {
    ClientView {
        state: State::Disconnected,
        notifications: if v.state == State::Disconnected {
            v.notifications
        } else {
            v.notifications.push(Notification::Disconnected)
        },
        transport: ChannelView { open: false, ..v.transport },
        ..v
    }
}

/// Whether `after` is `before` followed by a failure that `err` describes and
/// a disconnect notification.
pub open spec fn failed_then_closed(
    before: Seq<Notification>,
    after: Seq<Notification>,
    err: spec_fn(Error) -> bool,
) -> bool {
    &&& after.len() == before.len() + 2
    &&& after.subrange(0, before.len() as int) == before
    &&& after[before.len() as int] matches Notification::Failed(e) && err(e)
    &&& after[before.len() + 1int] == Notification::Disconnected
}

/// The messages that a call added to the received log.
pub open spec fn new_received(before: ClientView, after: ClientView) -> Seq<MessageView> {
    after.received.subrange(before.received.len() as int, after.received.len() as int)
}

/// The frames of the given messages, one after another.
pub open spec fn frames_bytes(ms: Seq<MessageView>) -> Seq<u8>
    decreases ms.len(),
{
    if ms.len() == 0 {
        Seq::empty()
    } else {
        frames_bytes(ms.drop_last()) + frame_of(ms.last())
    }
}

/// The bytes that a call took from the transport.
pub open spec fn new_inbound(before: ClientView, after: ClientView) -> Seq<u8> {
    after.transport.received.subrange(
        before.transport.received.len() as int,
        after.transport.received.len() as int,
    )
}

/// What is left of those bytes after the frames of the messages read: the
/// bytes of a frame that did not decode.
pub open spec fn read_tail(before: ClientView, after: ClientView) -> Seq<u8> {
    let b = new_inbound(before, after);
    b.subrange(frames_bytes(new_received(before, after)).len() as int, b.len() as int)
}

/// The error that `read` reports when it ends a session: the decoding error
/// of a frame that did not decode; `TransportError` when a `Pong` was
/// refused; the code and description of a `Close` frame; `InvalidMessage`
/// for a frame the peer may not send; otherwise `PipeClosed`, when the
/// transport had nothing more and, asked in this call, reported itself
/// closed.
pub open spec fn read_failure(before: ClientView, after: ClientView, e: Error) -> bool {
    let new = new_received(before, after);
    let tail = read_tail(before, after);
    if tail.len() > 0 {
        decode_spec(tail) == Err::<Option<(MessageView, int)>, Error>(e)
    } else if after.sent != before.sent + pongs(new) {
        e == Error::TransportError
    } else if new.len() > 0 && new.last().kind == MessageType::Close {
        e matches Error::ConnectionClosed { code, message } && code == close_code(new.last())
            && message@ == close_message(new.last())
    } else if new.len() > 0 && new.last().kind == MessageType::Handshake {
        e is InvalidMessage
    } else {
        &&& e is PipeClosed
        &&& after.transport.checks.len() > before.transport.checks.len()
        &&& !after.transport.checks.last()
    }
}

/// Whether a call ended idle: its last read was a refused four-byte header
/// read and, asked afterwards in the same call, the transport reported itself
/// open.
pub open spec fn idle_end(before: ChannelView, after: ChannelView) -> bool {
    &&& after.reads.len() > before.reads.len()
    &&& after.reads.last() == (4nat, false)
    &&& after.checks.len() > before.checks.len()
    &&& after.checks.last()
}

/// What `read` does, stated over the client before and after the call.
pub open spec fn read_spec(before: ClientView, after: ClientView, r: Option<MessageView>) -> bool {
    let new = new_received(before, after);
    let inbound = new_inbound(before, after);
    if before.state == State::Disconnected {
        r is None && after == before
    } else {
        &&& after.app_id == before.app_id
        &&& before.received.len() <= after.received.len()
        &&& after.received.subrange(0, before.received.len() as int) == before.received
        &&& before.transport.received.len() <= after.transport.received.len()
        &&& after.transport.received.subrange(0, before.transport.received.len() as int)
            == before.transport.received
        &&& frames_bytes(new).len() <= inbound.len()
        &&& inbound.subrange(0, frames_bytes(new).len() as int) == frames_bytes(new)
        &&& read_tail(before, after).len() > 0 ==> after.state == State::Disconnected
            && forall|i: int| 0 <= i < new.len() ==> is_control(#[trigger] new[i])
        &&& forall|i: int| 0 <= i < new.len() - 1 ==> is_control(#[trigger] new[i])
        &&& forall|i: int| 0 <= i < new.len() ==> valid_message(#[trigger] new[i])
        &&& after.state == before.state || after.state == State::Disconnected
        &&& after.state == before.state ==> after.notifications == before.notifications
        &&& before.transport.reads.len() <= after.transport.reads.len()
        &&& before.transport.checks.len() <= after.transport.checks.len()
        &&& before.transport.writes.len() <= after.transport.writes.len()
        &&& (after.transport.checks.len() > before.transport.checks.len()
            && after.transport.checks.last()) ==> after.state == before.state
        &&& (r is None && after.state == before.state) ==> (new.len() == MAX_CONTROL_FRAMES
            || idle_end(before.transport, after.transport))
        &&& after.state == State::Disconnected ==> {
            &&& !after.transport.open
            &&& failed_then_closed(
                before.notifications,
                after.notifications,
                |e: Error| read_failure(before, after, e),
            )
        }
        &&& after.sent == before.sent + pongs(new) || (after.state == State::Disconnected
            && new.len() > 0 && new.last().kind == MessageType::Ping && after.sent == before.sent
            + pongs(new.drop_last()))
        &&& r matches Some(m) ==> {
            &&& new.len() > 0
            &&& new.last() == m
            &&& m.kind == MessageType::Frame
            &&& after.state == before.state
        }
        &&& (r is None && new.len() > 0 && !is_control(new.last())) ==> after.state
            == State::Disconnected
        &&& (new.len() > 0 && new.last().kind == MessageType::Frame) ==> r == Some(new.last())
    }
}

/// What `open` does, stated over the client before and after the call.
pub open spec fn open_spec(before: ClientView, after: ClientView) -> bool {
    let new = new_received(before, after);
    if before.state == State::Connected {
        after == before
    } else if before.state == State::Disconnected {
        let hs = frame_of(handshake_of(before.app_id));
        let t0 = before.transport;
        let t1 = after.transport;
        &&& after.app_id == before.app_id
        &&& after.received == before.received
        &&& t1.opens.len() == t0.opens.len() + 1
        &&& after.notifications == (if t1.opens.last() {
            before.notifications
        } else {
            before.notifications.push(Notification::Failed(Error::PeerUnavailable))
        })
        &&& t1.received == t0.received
        &&& t1.reads == t0.reads
        &&& t1.checks == t0.checks
        &&& if after.state == State::SentHandshake {
            &&& t1.opens == t0.opens.push(true)
            &&& t1.writes == t0.writes.push((hs, true))
            &&& t1.open
            &&& after.sent == before.sent.push(hs)
        } else {
            &&& after.state == State::Disconnected
            &&& after.sent == before.sent
            &&& !t1.open
            &&& (t1.opens == t0.opens.push(false) && t1.writes == t0.writes) || (t1.opens
                == t0.opens.push(true) && t1.writes == t0.writes.push((hs, false))) || (t1.opens
                == t0.opens.push(true) && t1.writes == t0.writes && !fits_frame(
                handshake_of(before.app_id),
            ))
        }
    } else if after.state == State::Connected {
        &&& new.len() > 0
        &&& is_ready(new.last())
        &&& after.notifications.len() > 0
        &&& after.notifications.last() == Notification::Connected
        &&& read_spec(
            before,
            ClientView {
                state: State::SentHandshake,
                notifications: after.notifications.drop_last(),
                ..after
            },
            Some(new.last()),
        )
    } else {
        read_spec(before, after, None) || (new.len() > 0 && !is_ready(new.last()) && read_spec(
            before,
            after,
            Some(new.last()),
        ))
    }
}

/// An RPC client with a `Connection`.
pub struct Client<C: Connection> {
    connection: Channel<C>,
    state: State,
    app_id: String,
    notifications: Vec<Notification>,
    sent: Ghost<Seq<Seq<u8>>>,
    received: Ghost<Seq<MessageView>>,
}

impl<C: Connection> View for Client<C> {
    type V = ClientView;

    closed spec fn view(&self) -> ClientView {
        ClientView {
            state: self.state,
            app_id: self.app_id@,
            notifications: self.notifications@,
            sent: self.sent@,
            received: self.received@,
            transport: self.connection@,
        }
    }
}

impl<C: Connection> Client<C> {
    /// Creates a new `Client` with the given `Connection` and application ID.
    pub fn with_connection(connection: C, app_id: &str) -> (r: Self)
        ensures
            r@ == (ClientView {
                state: State::Disconnected,
                app_id: app_id@,
                notifications: Seq::empty(),
                sent: Seq::empty(),
                received: Seq::empty(),
                transport: ChannelView {
                    open: false,
                    opens: Seq::empty(),
                    checks: Seq::empty(),
                    reads: Seq::empty(),
                    received: Seq::empty(),
                    writes: Seq::empty(),
                },
            }),
    {
        let r = Client {
            connection: Channel::new(connection),
            state: State::Disconnected,
            app_id: app_id.to_owned(),
            notifications: Vec::new(),
            sent: Ghost(Seq::empty()),
            received: Ghost(Seq::empty()),
        };
        assert(r@.notifications =~= Seq::<Notification>::empty());
        r
    }

    /// Returns `true` if the session is open.
    pub fn is_open(&self) -> (r: bool)
        ensures
            r == (self@.state == State::Connected),
    {
        self.state == State::Connected
    }

    /// Returns the state of the session.
    pub fn state(&self) -> (r: State)
        ensures
            r == self@.state,
    {
        self.state
    }

    /// Hands over the notifications gathered so far, oldest first.
    pub fn take_notifications(&mut self) -> (r: Vec<Notification>)
        ensures
            r@ == old(self)@.notifications,
            final(self)@ == (ClientView { notifications: Seq::empty(), ..old(self)@ }),
    {
        let mut r = Vec::new();
        std::mem::swap(&mut r, &mut self.notifications);
        assert(self@.notifications =~= Seq::<Notification>::empty());
        r
    }

    /// Closes the `Client` from further communication.
    pub fn close(&mut self)
        ensures
            final(self)@ == close_spec(old(self)@),
    {
        if self.state == State::Connected || self.state == State::SentHandshake {
            self.notifications.push(Notification::Disconnected);
        }
        self.connection.close();
        self.state = State::Disconnected;
    }

    /// Reports an error and closes the session.
    fn fail(&mut self, e: Error)
        requires
            old(self)@.state != State::Disconnected,
        ensures
            final(self)@ == (ClientView {
                state: State::Disconnected,
                notifications: old(self)@.notifications.push(Notification::Failed(e)).push(
                    Notification::Disconnected,
                ),
                transport: ChannelView { open: false, ..old(self)@.transport },
                ..old(self)@
            }),
    {
        self.notifications.push(Notification::Failed(e));
        self.close();
    }

    /// Opens the `Client` for communication: opens the transport and sends the
    /// handshake, or, once the handshake is sent, waits for the peer's ready
    /// signal. A transport that finds no peer is reported as
    /// `PeerUnavailable`.
    pub fn open(&mut self)
        ensures
            open_spec(old(self)@, final(self)@),
    {
        if self.state == State::Connected {
            return;
        }
        if self.state == State::Disconnected && !self.connection.open() {
            self.notifications.push(Notification::Failed(Error::PeerUnavailable));
            return;
        }
        if self.state == State::SentHandshake {
            if let Some(message) = self.read() {
                if Self::signals_ready(&message) {
                    let ghost mid = self@;
                    self.state = State::Connected;
                    self.notifications.push(Notification::Connected);
                    assert(self@.notifications.drop_last() =~= mid.notifications);
                    assert((ClientView {
                        state: State::SentHandshake,
                        notifications: self@.notifications.drop_last(),
                        ..self@
                    }) == mid);
                }
            }
        } else {
            let mut doc = Document::new();
            doc.set_int("v", 1);
            let ghost first = doc@;
            assert(first =~= seq![("v"@, decimal_text(1))]);
            doc.set_str("client_id", self.app_id.as_str());
            proof {
                reveal_strlit("v");
                reveal_strlit("client_id");
                assert("v"@.len() != "client_id"@.len());
                assert(first.drop_last() =~= Seq::<(Seq<char>, Seq<char>)>::empty());
                reveal_with_fuel(key_index, 2);
                assert(key_index(first, "client_id"@) is None);
                assert(doc@ =~= handshake_members(self.app_id@));
            }
            let handshake = Message::new(MessageType::Handshake, doc);
            if self.write(handshake) {
                self.state = State::SentHandshake;
            } else {
                self.close();
            }
        }
    }

    /// Whether a message is the peer's ready signal.
    fn signals_ready(message: &Message) -> (r: bool)
        ensures
            r == is_ready(message@),
    {
        if message.ty() != MessageType::Frame {
            return false;
        }
        let cmd_ok = match message.value("cmd") {
            Some(cmd) => cmd == "DISPATCH".to_owned(),
            None => false,
        };
        let evt_ok = match message.value("evt") {
            Some(evt) => evt == "READY".to_owned(),
            None => false,
        };
        cmd_ok && evt_ok
    }

    /// Tries to read an application `Message` from the peer.
    ///
    /// Answers each `Ping` with a `Pong`, skips `Pong`s, and returns the first
    /// `Frame`. A `Close` frame, a frame the peer may not send, a decoding
    /// error or a dropped channel is reported and closes the session. Returns
    /// `None` when nothing is available now.
    pub fn read(&mut self) -> (r: Option<Message>)
        ensures
            read_spec(
                old(self)@,
                final(self)@,
                match r {
                    Some(m) => Some(m@),
                    None => None,
                },
            ),
    {
        if self.state != State::Connected && self.state != State::SentHandshake {
            return None;
        }
        let ghost start = self@;
        let mut handled: usize = 0;
        while handled < MAX_CONTROL_FRAMES
            invariant
                start == old(self)@,
                start.state != State::Disconnected,
                self@.state == start.state,
                self@.app_id == start.app_id,
                self@.notifications == start.notifications,
                start.received.len() <= self@.received.len(),
                self@.received.subrange(0, start.received.len() as int) == start.received,
                forall|i: int|
                    0 <= i < new_received(start, self@).len() ==> is_control(
                        #[trigger] new_received(start, self@)[i],
                    ) && valid_message(new_received(start, self@)[i]),
                self@.sent == start.sent + pongs(new_received(start, self@)),
                self@.transport.checks == start.transport.checks,
                start.transport.reads.len() <= self@.transport.reads.len(),
                start.transport.writes.len() <= self@.transport.writes.len(),
                new_received(start, self@).len() == handled,
                handled <= MAX_CONTROL_FRAMES,
                self@.transport.received == start.transport.received + frames_bytes(
                    new_received(start, self@),
                ),
            decreases MAX_CONTROL_FRAMES - handled,
        {
            let ghost before = self@;
            let ghost done = new_received(start, before);
            let decoded = Message::decode_from(&mut self.connection);
            let ghost b = self@.transport.received.skip(before.transport.received.len() as int);
            proof {
                assert(self@.transport.received =~= before.transport.received + b);
                assert(self@.transport.received =~= start.transport.received + (frames_bytes(done)
                    + b));
            }
            match decoded {
                Err(e) => {
                    self.fail(e);
                    assert(new_received(start, self@) =~= done);
                    assert(new_inbound(start, self@) =~= frames_bytes(done) + b);
                    proof {
                        assert(self@.transport.received =~= start.transport.received
                            + frames_bytes(done) + b);
                        lemma_inbound(start, self@, b);
                    }
                    assert(read_failure(start, self@, e));
                    proof {
                        Self::lemma_failed(before, self@, start);
                    }
                    return None;
                },
                Ok(None) => {
                    assert(b.len() == 0);
                    proof {
                        let rs = self@.transport.reads.skip(before.transport.reads.len() as int);
                        assert(rs.len() == 1 && rs[0] == (4nat, false));
                        assert(self@.transport.reads.last() == rs[0]);
                    }
                    proof {
                        assert(self@.transport.received =~= start.transport.received
                            + frames_bytes(done) + b);
                        lemma_inbound(start, self@, b);
                    }
                    if !self.connection.is_open() {
                        let e = Error::PipeClosed("Unknown reason".to_owned());
                        self.fail(e);
                        assert(new_received(start, self@) =~= done);
                        proof {
                            lemma_inbound(start, self@, b);
                        }
                        proof {
                            if done.len() > 0 {
                                assert(is_control(done[done.len() - 1]));
                            }
                        }
                        assert(read_failure(start, self@, e));
                        proof {
                            Self::lemma_failed(before, self@, start);
                        }
                    }
                    return None;
                },
                Ok(Some(message)) => {
                    proof {
                        lemma_decoded_is_frame(b, message@);
                    }
                    self.received = Ghost(self.received@.push(message@));
                    let ghost got = self@;
                    assert(new_received(start, got) =~= done.push(message@));
                    proof {
                        lemma_pongs_push(done, message@);
                        lemma_frames_push(done, message@);
                    }
                    proof {
                        assert(got.transport.received =~= start.transport.received
                            + frames_bytes(new_received(start, got)) + Seq::<u8>::empty());
                        lemma_inbound(start, got, Seq::empty());
                    }
                    assert(got.received.subrange(0, start.received.len() as int)
                        =~= start.received);
                    match message.ty() {
                        MessageType::Close => {
                            let code = match message.int_value("code") {
                                Some(n) => if n >= -2147483648i64 && n <= 2147483647i64 {
                                    n as i32
                                } else {
                                    0
                                },
                                None => 0,
                            };
                            let text = match message.value("message") {
                                Some(s) => s,
                                None => "<none>".to_owned(),
                            };
                            let e = Error::ConnectionClosed { code, message: text };
                            self.fail(e);
                            assert(new_received(start, self@) == new_received(start, got));
                            proof {
                                lemma_inbound(start, self@, Seq::empty());
                            }
                            assert(read_failure(start, self@, e));
                            proof {
                                Self::lemma_failed(got, self@, start);
                            }
                            return None;
                        },
                        MessageType::Frame => {
                            proof {
                                lemma_inbound(start, self@, Seq::empty());
                            }
                            return Some(message);
                        },
                        MessageType::Ping => {
                            let mut pong = message;
                            pong.set_ty(MessageType::Pong);
                            if !self.write(pong) {
                                self.fail(Error::TransportError);
                                assert(new_received(start, self@) == new_received(start, got));
                                proof {
                                lemma_inbound(start, self@, Seq::empty());
                            }
                                assert((start.sent + pongs(done)).len() != (start.sent + pongs(
                                    new_received(start, got),
                                )).len());
                                assert(read_failure(start, self@, Error::TransportError));
                                proof {
                                    Self::lemma_failed(got, self@, start);
                                    assert(new_received(start, self@).drop_last()
                                        =~= new_received(start, before));
                                }
                                return None;
                            }
                        },
                        MessageType::Pong => {},
                        MessageType::Handshake => {
                            let e = Error::InvalidMessage(
                                "Message of type Handshake can't be sent by the server!".to_owned(),
                            );
                            self.fail(e);
                            assert(new_received(start, self@) == new_received(start, got));
                            proof {
                                lemma_inbound(start, self@, Seq::empty());
                            }
                            assert(read_failure(start, self@, e));
                            proof {
                                Self::lemma_failed(got, self@, start);
                            }
                            return None;
                        },
                    }
                },
            }
            handled = handled + 1;
        }
        proof {
            assert(self@.transport.received =~= start.transport.received + frames_bytes(
                new_received(start, self@),
            ) + Seq::<u8>::empty());
            lemma_inbound(start, self@, Seq::empty());
        }
        None
    }

    /// After a failure the notifications are the earlier ones, the failure and
    /// the disconnect.
    proof fn lemma_failed(before: ClientView, after: ClientView, start: ClientView)
        requires
            before.notifications == start.notifications,
            after.notifications.len() == before.notifications.len() + 2,
            after.notifications == before.notifications.push(
                after.notifications[before.notifications.len() as int],
            ).push(Notification::Disconnected),
        ensures
            after.notifications.subrange(0, start.notifications.len() as int)
                == start.notifications,
            after.notifications[start.notifications.len() + 1int] == Notification::Disconnected,
    {
        assert(after.notifications.subrange(0, start.notifications.len() as int)
            =~= start.notifications);
    }

    /// Tries to write a `Message` to the peer. Returns `false` on failure:
    /// when the transport refuses the frame, or, without writing, when the
    /// payload is too long for a frame.
    pub fn write(&mut self, message: Message) -> (r: bool)
        ensures
            r ==> fits_frame(message@),
            final(self)@ == (ClientView {
                sent: if r {
                    old(self)@.sent.push(frame_of(message@))
                } else {
                    old(self)@.sent
                },
                transport: if fits_frame(message@) {
                    ChannelView {
                        writes: old(self)@.transport.writes.push((frame_of(message@), r)),
                        ..old(self)@.transport
                    }
                } else {
                    old(self)@.transport
                },
                ..old(self)@
            }),
    {
        match message.encode() {
            Some(bytes) => {
                let ok = self.connection.write(bytes.as_slice());
                if ok {
                    self.sent = Ghost(self.sent@.push(bytes@));
                }
                ok
            },
            None => false,
        }
    }
}

impl<C: Connection + Default> Client<C> {
    /// Creates a new `Client` with the default `Connection` of its type and
    /// the given application ID.
    pub fn new(app_id: &str) -> (r: Self)
        ensures
            r@ == (ClientView {
                state: State::Disconnected,
                app_id: app_id@,
                notifications: Seq::empty(),
                sent: Seq::empty(),
                received: Seq::empty(),
                transport: ChannelView {
                    open: false,
                    opens: Seq::empty(),
                    checks: Seq::empty(),
                    reads: Seq::empty(),
                    received: Seq::empty(),
                    writes: Seq::empty(),
                },
            }),
    {
        Self::with_connection(C::default(), app_id)
    }
}

/// Closing is idempotent: a second `close` changes nothing, so a session
/// notifies its end once however often it is closed, and only if it was
/// handshaking or open.
pub proof fn lemma_close_twice(v: ClientView)
    ensures
        close_spec(close_spec(v)) == close_spec(v),
        close_spec(v).state == State::Disconnected,
        close_spec(v).notifications == (if v.state == State::Disconnected {
            v.notifications
        } else {
            v.notifications.push(Notification::Disconnected)
        }),
{
}

/// A `Close` frame read in a handshaking or open session leaves the client
/// disconnected with exactly one disconnect notification after the error,
/// and a `close` that follows adds nothing.
pub proof fn lemma_close_frame_disconnects(
    before: ClientView,
    after: ClientView,
    r: Option<MessageView>,
)
    requires
        read_spec(before, after, r),
        before.state != State::Disconnected,
        new_received(before, after).len() > 0,
        new_received(before, after).last().kind == MessageType::Close,
    ensures
        r is None,
        after.state == State::Disconnected,
        after.notifications.len() == before.notifications.len() + 2,
        after.notifications.last() == Notification::Disconnected,
        close_spec(after) == after,
{
}

/// The session becomes `Connected` only through `open` from `SentHandshake`,
/// after reading the peer's ready signal; reading and closing never connect.
pub proof fn lemma_connected_only_after_ready(
    before: ClientView,
    after: ClientView,
    r: Option<MessageView>,
)
    requires
        before.state != State::Connected,
        after.state == State::Connected,
    ensures
        open_spec(before, after) ==> {
            &&& before.state == State::SentHandshake
            &&& new_received(before, after).len() > 0
            &&& is_ready(new_received(before, after).last())
            &&& after.notifications.last() == Notification::Connected
        },
        !read_spec(before, after, r),
        close_spec(before) != after,
{
}

/// The frames of a sequence of messages begin with the frame of the first.
proof fn lemma_frames_first(ms: Seq<MessageView>)
    requires
        ms.len() > 0,
    ensures
        frame_of(ms[0]).len() <= frames_bytes(ms).len(),
        frames_bytes(ms).subrange(0, frame_of(ms[0]).len() as int) == frame_of(ms[0]),
    decreases ms.len(),
{
    if ms.len() == 1 {
        assert(ms.drop_last() =~= Seq::<MessageView>::empty());
        assert(frames_bytes(ms) =~= frame_of(ms[0]));
    } else {
        lemma_frames_first(ms.drop_last());
        assert(ms.drop_last()[0] == ms[0]);
        let f = frames_bytes(ms.drop_last());
        assert((f + frame_of(ms.last())).subrange(0, frame_of(ms[0]).len() as int)
            =~= f.subrange(0, frame_of(ms[0]).len() as int));
    }
}

/// Messages read from a stream that starts with the frame of a valid message
/// `m` start with `m`: frames delimit themselves, so the bytes taken cannot
/// decode to anything else.
pub proof fn lemma_first_message(m: MessageView, rest: Seq<u8>, ms: Seq<MessageView>, tail: Seq<u8>)
    requires
        valid_message(m),
        ms.len() > 0,
        valid_message(ms[0]),
        (frames_bytes(ms) + tail).len() <= (frame_of(m) + rest).len(),
        frames_bytes(ms) + tail == (frame_of(m) + rest).subrange(
            0,
            (frames_bytes(ms) + tail).len() as int,
        ),
    ensures
        ms[0] == m,
{
    lemma_frames_first(ms);
    let b = frame_of(ms[0]);
    let whole = frame_of(m) + rest;
    assert(b == whole.subrange(0, b.len() as int)) by {
        assert((frames_bytes(ms) + tail).subrange(0, b.len() as int) =~= frames_bytes(
            ms,
        ).subrange(0, b.len() as int));
        assert(whole.subrange(0, (frames_bytes(ms) + tail).len() as int).subrange(
            0,
            b.len() as int,
        ) =~= whole.subrange(0, b.len() as int));
    }
    lemma_round_trip(ms[0], Seq::empty());
    assert(b + Seq::<u8>::empty() =~= b);
    lemma_stream_round_trip(m, rest, b, ms[0]);
}

/// When `read` takes a message from a stream that starts with the frame of a
/// `Close` message, the session ends: `read` returns nothing, the transport
/// is closed, and the error reported carries the frame's code and
/// description, followed by one disconnect notification.
pub proof fn lemma_close_frame_on_wire(
    before: ClientView,
    after: ClientView,
    r: Option<MessageView>,
    m: MessageView,
    rest: Seq<u8>,
)
    requires
        read_spec(before, after, r),
        before.state != State::Disconnected,
        valid_message(m),
        m.kind == MessageType::Close,
        new_received(before, after).len() > 0,
        new_inbound(before, after).len() <= (frame_of(m) + rest).len(),
        new_inbound(before, after) == (frame_of(m) + rest).subrange(
            0,
            new_inbound(before, after).len() as int,
        ),
    ensures
        r is None,
        after.state == State::Disconnected,
        !after.transport.open,
        failed_then_closed(
            before.notifications,
            after.notifications,
            |e: Error|
                e matches Error::ConnectionClosed { code, message } && code == close_code(m)
                    && message@ == close_message(m),
        ),
{
    let new = new_received(before, after);
    let inbound = new_inbound(before, after);
    let tail = read_tail(before, after);
    assert(inbound =~= frames_bytes(new) + tail);
    lemma_first_message(m, rest, new, tail);
    assert(!is_control(new[0]));
    assert(new.len() == 1);
    assert(new.last() == m);
    assert(tail.len() == 0);
    assert(pongs(new) == pongs(new.drop_last()));
}

/// When `open`, after the handshake, takes a message from a stream that
/// starts with the frame of the peer's ready signal, the session is
/// connected and the connect notification fires once.
pub proof fn lemma_ready_frame_on_wire(
    before: ClientView,
    after: ClientView,
    m: MessageView,
    rest: Seq<u8>,
)
    requires
        open_spec(before, after),
        before.state == State::SentHandshake,
        valid_message(m),
        is_ready(m),
        new_received(before, after).len() > 0,
        new_inbound(before, after).len() <= (frame_of(m) + rest).len(),
        new_inbound(before, after) == (frame_of(m) + rest).subrange(
            0,
            new_inbound(before, after).len() as int,
        ),
    ensures
        after.state == State::Connected,
        after.notifications == before.notifications.push(Notification::Connected),
{
    let new = new_received(before, after);
    let tail = read_tail(before, after);
    if after.state == State::Connected {
        let mid = ClientView {
            state: State::SentHandshake,
            notifications: after.notifications.drop_last(),
            ..after
        };
        assert(new_received(before, mid) == new);
        assert(after.notifications =~= mid.notifications.push(Notification::Connected));
    } else {
        assert(new_inbound(before, after) =~= frames_bytes(new) + tail);
        lemma_first_message(m, rest, new, tail);
        assert(!is_control(new[0]));
        assert(new.len() == 1);
        assert(new.last() == m);
    }
}

} // verus!
