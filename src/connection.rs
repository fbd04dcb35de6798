//! The transport that a client talks through, and the channel that records
//! what the transport answered.
use vstd::prelude::*;

verus! {

/// A bidirectional, non-blocking byte channel to the peer. Every platform
/// provides its own (a named pipe, a Unix domain socket, ...).
pub trait Connection {
    /// Tries to open the channel; `true` when it is open afterwards.
    fn open(&mut self) -> bool;

    /// Returns `true` if the channel is currently open.
    fn is_open(&self) -> bool;

    /// Closes the channel.
    fn close(&mut self);

    /// Tries to fill the whole buffer with incoming bytes without blocking.
    /// Returns `true` when it did; `false` when fewer bytes are available or
    /// the read failed (`is_open` then tells the two apart).
    fn read(&mut self, buffer: &mut [u8]) -> (r: bool)
        ensures
            final(buffer)@.len() == old(buffer)@.len(),
    ;

    /// Tries to write all the bytes; `true` when all of them were accepted.
    fn write(&mut self, buffer: &[u8]) -> bool;
}

/// What a channel has seen of its connection: whether the connection last
/// reported itself open, the answers to each attempt to open it and to each
/// question whether it is open, every read attempt with the number of bytes
/// asked for and the answer, the bytes its successful reads handed out, and
/// every write attempt with the bytes offered and the connection's answer.
pub struct ChannelView {
    pub open: bool,
    pub opens: Seq<bool>,
    pub checks: Seq<bool>,
    pub reads: Seq<(nat, bool)>,
    pub received: Seq<u8>,
    pub writes: Seq<(Seq<u8>, bool)>,
}

/// A connection together with a record of the calls made on it and their
/// answers.
pub struct Channel<C: Connection> {
    conn: C,
    open: Ghost<bool>,
    opens: Ghost<Seq<bool>>,
    checks: Ghost<Seq<bool>>,
    reads: Ghost<Seq<(nat, bool)>>,
    received: Ghost<Seq<u8>>,
    writes: Ghost<Seq<(Seq<u8>, bool)>>,
}

impl<C: Connection> View for Channel<C> {
    type V = ChannelView;

    closed spec fn view(&self) -> ChannelView {
        ChannelView { open: self.open@, opens: self.opens@, checks: self.checks@, reads: self.reads@, received: self.received@, writes: self.writes@ }
    }
}

impl<C: Connection> Channel<C> {
    /// A channel over a connection, with nothing recorded yet.
    pub fn new(conn: C) -> (r: Self)
        ensures
            r@ == (ChannelView {
                open: false,
                opens: Seq::empty(),
                checks: Seq::empty(),
                reads: Seq::empty(),
                received: Seq::empty(),
                writes: Seq::empty(),
            }),
    {
        Channel {
            conn,
            open: Ghost(false),
            opens: Ghost(Seq::empty()),
            checks: Ghost(Seq::empty()),
            reads: Ghost(Seq::empty()),
            received: Ghost(Seq::empty()),
            writes: Ghost(Seq::empty()),
        }
    }

    /// Opens the connection; `true` when it reports itself open.
    pub fn open(&mut self) -> (r: bool)
        ensures
            final(self)@ == (ChannelView { open: r, opens: old(self)@.opens.push(r), ..old(self)@ }),
    {
        let r = self.conn.open();
        self.open = Ghost(r);
        self.opens = Ghost(self.opens@.push(r));
        r
    }

    /// Asks the connection whether it is open.
    pub fn is_open(&mut self) -> (r: bool)
        ensures
            final(self)@ == (ChannelView { open: r, checks: old(self)@.checks.push(r), ..old(self)@ }),
    {
        let r = self.conn.is_open();
        self.open = Ghost(r);
        self.checks = Ghost(self.checks@.push(r));
        r
    }

    /// Closes the connection.
    pub fn close(&mut self)
        ensures
            final(self)@ == (ChannelView { open: false, ..old(self)@ }),
    {
        self.conn.close();
        self.open = Ghost(false);
    }

    /// Reads exactly `buffer.len()` bytes, or nothing.
    pub fn read(&mut self, buffer: &mut [u8]) -> (r: bool)
        ensures
            final(buffer)@.len() == old(buffer)@.len(),
            final(self)@ == (ChannelView {
                reads: old(self)@.reads.push((old(buffer)@.len(), r)),
                received: if r {
                    old(self)@.received + final(buffer)@
                } else {
                    old(self)@.received
                },
                ..old(self)@
            }),
    {
        let ghost asked = buffer@.len();
        let r = self.conn.read(buffer);
        self.reads = Ghost(self.reads@.push((asked, r)));
        if r {
            self.received = Ghost(self.received@ + buffer@);
        }
        r
    }

    /// Writes the bytes; `true` when the connection accepted all of them.
    pub fn write(&mut self, buffer: &[u8]) -> (r: bool)
        ensures
            final(self)@ == (ChannelView {
                writes: old(self)@.writes.push((buffer@, r)),
                ..old(self)@
            }),
    {
        let r = self.conn.write(buffer);
        self.writes = Ghost(self.writes@.push((buffer@, r)));
        r
    }
}

} // verus!
