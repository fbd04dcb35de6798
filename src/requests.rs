//! Correlation of requests and responses by nonce.
//!
//! A caller registers a nonce, with an optional deadline, when it sends a
//! request. Each response that arrives is delivered to the waiter registered
//! under the nonce it carries, and to no other: the waiter's entry leaves the
//! table and the response waits in the waiter's slot until the caller polls
//! for it. A caller that polls after its deadline, with no response in its
//! slot, gets a timeout and its entry leaves the table.
use vstd::prelude::*;

use crate::document::{json_quoted, member_str, object_text, with_member, Document};
use crate::message::{Message, MessageType, MessageView};

verus! {

/// Relies on `uuid::Uuid::new_v4` and the hyphenated text form of a `Uuid`
/// (`Display`, which writes 32 hex digits in five hyphen-separated groups):
/// a fresh random identifier of 36 characters.
#[verifier::external_body]
pub(crate) fn nonce() -> (r: String)
    ensures
        r@.len() == 36,
{
    uuid::Uuid::new_v4().to_string()
}

/// A request: the payload with the nonce under the reserved key `nonce`.
pub open spec fn request_view(
    kind: MessageType,
    payload: Seq<(Seq<char>, Seq<char>)>,
    nonce: Seq<char>,
) -> MessageView {
    MessageView { kind, payload: object_text(with_member(payload, "nonce"@, json_quoted(nonce))) }
}

/// One request that waits for its response: its nonce and its deadline.
pub struct WaiterView {
    pub nonce: Seq<char>,
    pub deadline: Option<u64>,
}

/// What the table is: the requests that wait, and the responses delivered to
/// their waiters and not yet collected, each under its nonce.
pub struct TableView {
    pub waiting: Seq<WaiterView>,
    pub answered: Seq<(Seq<char>, MessageView)>,
}

/// The position of the last waiter registered under `nonce`, if any.
pub open spec fn find(ws: Seq<WaiterView>, nonce: Seq<char>) -> Option<int>
    decreases ws.len(),
{
    if ws.len() == 0 {
        None
    } else if ws.last().nonce == nonce {
        Some(ws.len() - 1)
    } else {
        find(ws.drop_last(), nonce)
    }
}

/// The position of the last response filed under `nonce`, if any.
pub open spec fn find_answer(a: Seq<(Seq<char>, MessageView)>, nonce: Seq<char>) -> Option<int>
    decreases a.len(),
{
    if a.len() == 0 {
        None
    } else if a.last().0 == nonce {
        Some(a.len() - 1)
    } else {
        find_answer(a.drop_last(), nonce)
    }
}

/// The nonce that a response carries, under the reserved key `nonce`.
pub open spec fn nonce_of(m: MessageView) -> Option<Seq<char>> {
    member_str(m.payload, "nonce"@)
}

/// Whether a response goes to a waiter: one waits under its nonce.
pub open spec fn has_taker(t: TableView, m: MessageView) -> bool {
    match nonce_of(m) {
        Some(n) => find(t.waiting, n) is Some,
        None => false,
    }
}

/// The table after a response arrives: the waiter under its nonce leaves the
/// table and the response is filed in that waiter's slot; with no such
/// waiter nothing changes.
pub open spec fn deliver_spec(t: TableView, m: MessageView) -> TableView {
    match nonce_of(m) {
        Some(n) => match find(t.waiting, n) {
            Some(j) => TableView { waiting: t.waiting.remove(j), answered: t.answered.push((n, m)) },
            None => t,
        },
        None => t,
    }
}

/// The views of a sequence of messages.
pub open spec fn msg_views(ms: Seq<Message>) -> Seq<MessageView> {
    ms.map_values(|m: Message| m@)
}

/// The table and the unanswered frames after routing `ms` in order: a frame
/// that has a waiter is delivered to it, the others are kept in order.
pub open spec fn route_spec(t: TableView, ms: Seq<MessageView>) -> (TableView, Seq<MessageView>)
    decreases ms.len(),
{
    if ms.len() == 0 {
        (t, Seq::empty())
    } else {
        let prev = route_spec(t, ms.drop_last());
        if has_taker(prev.0, ms.last()) {
            (deliver_spec(prev.0, ms.last()), prev.1)
        } else {
            (prev.0, prev.1.push(ms.last()))
        }
    }
}

/// Routing frames of which none answers a waiting request changes nothing
/// in the table and hands every frame back, in order.
pub proof fn lemma_route_unmatched(t: TableView, ms: Seq<MessageView>)
    requires
        forall|i: int| 0 <= i < ms.len() ==> !has_taker(t, #[trigger] ms[i]),
    ensures
        route_spec(t, ms) == (t, ms),
    decreases ms.len(),
{
    if ms.len() > 0 {
        assert forall|i: int| 0 <= i < ms.drop_last().len() implies !has_taker(
            t,
            #[trigger] ms.drop_last()[i],
        ) by {
            assert(ms.drop_last()[i] == ms[i]);
        }
        lemma_route_unmatched(t, ms.drop_last());
        assert(ms.last() == ms[ms.len() - 1]);
        assert(ms.drop_last().push(ms.last()) =~= ms);
    }
}

/// Whether a waiter's deadline has passed at time `now`.
pub open spec fn expired(w: WaiterView, now: u64) -> bool {
    w.deadline matches Some(d) && d <= now
}

proof fn lemma_find_bounds(ws: Seq<WaiterView>, nonce: Seq<char>)
    ensures
        find(ws, nonce) matches Some(j) ==> 0 <= j < ws.len() && ws[j].nonce == nonce,
        find(ws, nonce) is None ==> forall|i: int| 0 <= i < ws.len() ==> (#[trigger] ws[i]).nonce
            != nonce,
    decreases ws.len(),
{
    if ws.len() > 0 {
        lemma_find_bounds(ws.drop_last(), nonce);
        assert forall|i: int| 0 <= i < ws.len() - 1 implies ws[i] == ws.drop_last()[i] by {}
    }
}

proof fn lemma_find_answer_bounds(a: Seq<(Seq<char>, MessageView)>, nonce: Seq<char>)
    ensures
        find_answer(a, nonce) matches Some(j) ==> 0 <= j < a.len() && a[j].0 == nonce,
    decreases a.len(),
{
    if a.len() > 0 && a.last().0 != nonce {
        lemma_find_answer_bounds(a.drop_last(), nonce);
    }
}

/// A response is delivered only to the waiter registered under the nonce it
/// carries: every waiter under another nonce keeps waiting, the response is
/// filed only under its own nonce with that waiter's entry removed, and a
/// response that matches no waiter changes nothing.
pub proof fn lemma_delivered_only_to_owner(t: TableView, m: MessageView)
    ensures
        forall|w: WaiterView|
            t.waiting.contains(w) && nonce_of(m) != Some(w.nonce) ==> #[trigger] deliver_spec(
                t,
                m,
            ).waiting.contains(w),
        has_taker(t, m) ==> {
            &&& deliver_spec(t, m).waiting.len() == t.waiting.len() - 1
            &&& deliver_spec(t, m).answered == t.answered.push((nonce_of(m)->Some_0, m))
        },
        !has_taker(t, m) ==> deliver_spec(t, m) == t,
{
    if let Some(n) = nonce_of(m) {
        lemma_find_bounds(t.waiting, n);
        if let Some(j) = find(t.waiting, n) {
            assert forall|w: WaiterView|
                t.waiting.contains(w) && nonce_of(m) != Some(w.nonce) implies #[trigger] deliver_spec(
                t,
                m,
            ).waiting.contains(w) by {
                let i = choose|i: int| 0 <= i < t.waiting.len() && t.waiting[i] == w;
                let rest = t.waiting.remove(j);
                if i < j {
                    assert(rest[i] == w);
                } else {
                    assert(i != j);
                    assert(rest[i - 1] == w);
                }
            }
        }
    }
}

/// What polling a request gives.
pub enum RequestStatus {
    /// The response arrived; the request is done.
    Delivered(Message),
    /// No response yet, and the deadline, if any, has not passed.
    Waiting,
    /// The deadline passed before a response arrived; the request is done.
    TimedOut,
    /// No request is registered under the nonce.
    Unknown,
}

struct Waiter {
    nonce: String,
    deadline: Option<u64>,
}

impl View for Waiter {
    type V = WaiterView;

    closed spec fn view(&self) -> WaiterView {
        WaiterView { nonce: self.nonce@, deadline: self.deadline }
    }
}

/// The table of requests that wait for a response, keyed by nonce.
pub struct PendingRequests {
    waiters: Vec<Waiter>,
    answers: Vec<(String, Message)>,
}

impl View for PendingRequests {
    type V = TableView;

    closed spec fn view(&self) -> TableView {
        TableView {
            waiting: self.waiters@.map_values(|w: Waiter| w@),
            answered: self.answers@.map_values(|a: (String, Message)| (a.0@, a.1@)),
        }
    }
}

impl PendingRequests {
    /// An empty table.
    pub fn new() -> (r: PendingRequests)
        ensures
            r@ == (TableView { waiting: Seq::empty(), answered: Seq::empty() }),
    {
        let r = PendingRequests { waiters: Vec::new(), answers: Vec::new() };
        assert(r@.waiting =~= Seq::<WaiterView>::empty());
        assert(r@.answered =~= Seq::<(Seq<char>, MessageView)>::empty());
        r
    }

    /// The number of requests that wait for their response.
    pub fn len(&self) -> (r: usize)
        ensures
            r == self@.waiting.len(),
    {
        self.waiters.len()
    }

    fn position(&self, nonce: &str) -> (r: Option<usize>)
        ensures
            match r {
                Some(j) => find(self@.waiting, nonce@) == Some(j as int),
                None => find(self@.waiting, nonce@) is None,
            },
    {
        let ghost ws = self@.waiting;
        let key = nonce.to_owned();
        let n = self.waiters.len();
        let mut found: Option<usize> = None;
        let mut i: usize = 0;
        while i < n
            invariant
                n == self.waiters@.len(),
                ws == self@.waiting,
                key@ == nonce@,
                i <= n,
                match found {
                    Some(j) => find(ws.subrange(0, i as int), nonce@) == Some(j as int),
                    None => find(ws.subrange(0, i as int), nonce@) is None,
                },
            decreases n - i,
        {
            let ghost prefix = ws.subrange(0, i as int + 1);
            assert(prefix.drop_last() =~= ws.subrange(0, i as int));
            assert(prefix.last() == ws[i as int]);
            if self.waiters[i].nonce == key {
                found = Some(i);
            }
            i = i + 1;
        }
        assert(ws.subrange(0, n as int) =~= ws);
        found
    }

    fn answer_position(&self, nonce: &str) -> (r: Option<usize>)
        ensures
            match r {
                Some(j) => find_answer(self@.answered, nonce@) == Some(j as int),
                None => find_answer(self@.answered, nonce@) is None,
            },
    {
        let ghost a = self@.answered;
        let key = nonce.to_owned();
        let n = self.answers.len();
        let mut found: Option<usize> = None;
        let mut i: usize = 0;
        while i < n
            invariant
                n == self.answers@.len(),
                a == self@.answered,
                key@ == nonce@,
                i <= n,
                match found {
                    Some(j) => find_answer(a.subrange(0, i as int), nonce@) == Some(j as int),
                    None => find_answer(a.subrange(0, i as int), nonce@) is None,
                },
            decreases n - i,
        {
            let ghost prefix = a.subrange(0, i as int + 1);
            assert(prefix.drop_last() =~= a.subrange(0, i as int));
            assert(prefix.last() == a[i as int]);
            if self.answers[i].0 == key {
                found = Some(i);
            }
            i = i + 1;
        }
        assert(a.subrange(0, n as int) =~= a);
        found
    }

    /// Returns `true` if a request waits for its response under `nonce`.
    pub fn contains(&self, nonce: &str) -> (r: bool)
        ensures
            r == find(self@.waiting, nonce@) is Some,
    {
        self.position(nonce).is_some()
    }

    /// Registers a request under `nonce`, with an optional deadline in
    /// milliseconds. Returns `false`, and changes nothing, when a request
    /// under that nonce still waits or has a response not yet collected.
    pub fn register(&mut self, nonce: &str, deadline: Option<u64>) -> (r: bool)
        ensures
            r == (find(old(self)@.waiting, nonce@) is None && find_answer(
                old(self)@.answered,
                nonce@,
            ) is None),
            final(self)@ == (if r {
                TableView {
                    waiting: old(self)@.waiting.push(WaiterView { nonce: nonce@, deadline }),
                    ..old(self)@
                }
            } else {
                old(self)@
            }),
    {
        if self.position(nonce).is_some() || self.answer_position(nonce).is_some() {
            return false;
        }
        let ghost t = self@;
        self.waiters.push(Waiter { nonce: nonce.to_owned(), deadline });
        assert(self@.waiting =~= t.waiting.push(WaiterView { nonce: nonce@, deadline }));
        true
    }

    /// Delivers a response to the request that waits under the nonce it
    /// carries: that request leaves the table and the response is kept for
    /// its caller. Returns `false`, and changes nothing, when the response has
    /// no nonce or no request waits under it.
    pub fn deliver(&mut self, message: Message) -> (r: bool)
        ensures
            r == has_taker(old(self)@, message@),
            final(self)@ == deliver_spec(old(self)@, message@),
    {
        let ghost t = self@;
        let nonce = match message.value("nonce") {
            Some(n) => n,
            None => return false,
        };
        assert(nonce_of(message@) == Some(nonce@));
        let j = match self.position(nonce.as_str()) {
            Some(j) => j,
            None => return false,
        };
        proof {
            lemma_find_bounds(t.waiting, nonce@);
        }
        self.waiters.remove(j);
        let ghost m = message@;
        self.answers.push((nonce, message));
        assert(self@.waiting =~= t.waiting.remove(j as int));
        assert(self@.answered =~= t.answered.push((nonce_of(m)->Some_0, m)));
        true
    }

    /// Polls the request registered under `nonce` at time `now`: its response
    /// when one was delivered, a timeout once its deadline has passed without
    /// one, and `Waiting` otherwise. A collected response and a timed-out
    /// request leave the table.
    pub fn poll(&mut self, nonce: &str, now: u64) -> (r: RequestStatus)
        ensures
            match find_answer(old(self)@.answered, nonce@) {
                Some(k) => (r matches RequestStatus::Delivered(d) && d@ == old(self)@.answered[k].1)
                    && final(self)@ == (TableView {
                    answered: old(self)@.answered.remove(k),
                    ..old(self)@
                }),
                None => match find(old(self)@.waiting, nonce@) {
                    None => r is Unknown && final(self)@ == old(self)@,
                    Some(j) => if expired(old(self)@.waiting[j], now) {
                        r is TimedOut && final(self)@ == (TableView {
                            waiting: old(self)@.waiting.remove(j),
                            ..old(self)@
                        })
                    } else {
                        r is Waiting && final(self)@ == old(self)@
                    },
                },
            },
    {
        let ghost t = self@;
        if let Some(k) = self.answer_position(nonce) {
            proof {
                lemma_find_answer_bounds(t.answered, nonce@);
            }
            let (_, m) = self.answers.remove(k);
            assert(self@.answered =~= t.answered.remove(k as int));
            return RequestStatus::Delivered(m);
        }
        let j = match self.position(nonce) {
            Some(j) => j,
            None => return RequestStatus::Unknown,
        };
        proof {
            lemma_find_bounds(t.waiting, nonce@);
        }
        let due = match self.waiters[j].deadline {
            Some(d) => d <= now,
            None => false,
        };
        if !due {
            return RequestStatus::Waiting;
        }
        self.waiters.remove(j);
        assert(self@.waiting =~= t.waiting.remove(j as int));
        RequestStatus::TimedOut
    }

    /// Starts a request under `nonce`: registers it, with an optional deadline
    /// in milliseconds, and returns the message to send, whose payload carries
    /// the nonce. Returns `None`, and changes nothing, when `register` refuses
    /// the nonce.
    pub fn request(
        &mut self,
        kind: MessageType,
        payload: Document,
        nonce: &str,
        deadline: Option<u64>,
    ) -> (r: Option<Message>)
        ensures
            (r is Some) == (find(old(self)@.waiting, nonce@) is None && find_answer(
                old(self)@.answered,
                nonce@,
            ) is None),
            match r {
                Some(m) => {
                    &&& final(self)@ == (TableView {
                        waiting: old(self)@.waiting.push(WaiterView { nonce: nonce@, deadline }),
                        ..old(self)@
                    })
                    &&& m@ == request_view(kind, payload@, nonce@)
                },
                None => final(self)@ == old(self)@,
            },
    {
        if !self.register(nonce, deadline) {
            return None;
        }
        let mut payload = payload;
        payload.set_str("nonce", nonce);
        Some(Message::new(kind, payload))
    }

    /// Starts a request under a fresh random nonce, as `request` does, and
    /// returns the nonce with the message to send. The message is `None`, and
    /// nothing changes, only when the drawn nonce is already in use; on an
    /// empty table the request always starts.
    pub fn request_fresh(
        &mut self,
        kind: MessageType,
        payload: Document,
        deadline: Option<u64>,
    ) -> (r: (String, Option<Message>))
        ensures
            r.0@.len() == 36,
            (r.1 is Some) == (find(old(self)@.waiting, r.0@) is None && find_answer(
                old(self)@.answered,
                r.0@,
            ) is None),
            match r.1 {
                Some(m) => {
                    &&& final(self)@ == (TableView {
                        waiting: old(self)@.waiting.push(WaiterView { nonce: r.0@, deadline }),
                        ..old(self)@
                    })
                    &&& m@ == request_view(kind, payload@, r.0@)
                },
                None => final(self)@ == old(self)@,
            },
            old(self)@.waiting.len() == 0 && old(self)@.answered.len() == 0 ==> r.1 is Some,
    {
        let n = nonce();
        let m = self.request(kind, payload, n.as_str(), deadline);
        (n, m)
    }

    /// Routes application frames that arrived: each one that answers a
    /// waiting request is delivered to it, in order; the others are returned,
    /// in order, for the application.
    pub fn route(&mut self, frames: Vec<Message>) -> (r: Vec<Message>)
        ensures
            final(self)@ == route_spec(old(self)@, msg_views(frames@)).0,
            msg_views(r@) == route_spec(old(self)@, msg_views(frames@)).1,
    {
        let ghost t0 = self@;
        let ghost fs = msg_views(frames@);
        let mut out: Vec<Message> = Vec::new();
        let n = frames.len();
        let mut i: usize = 0;
        while i < n
            invariant
                n == frames@.len(),
                fs == msg_views(frames@),
                t0 == old(self)@,
                i <= n,
                (self@, msg_views(out@)) == route_spec(t0, fs.subrange(0, i as int)),
            decreases n - i,
        {
            let ghost prefix = fs.subrange(0, i as int + 1);
            assert(prefix.drop_last() =~= fs.subrange(0, i as int));
            assert(prefix.last() == frames@[i as int]@);
            let copy = frames[i].duplicate();
            let ghost prev = out@;
            if !self.deliver(frames[i].duplicate()) {
                out.push(copy);
                assert(msg_views(out@) =~= msg_views(prev).push(copy@));
            }
            i = i + 1;
        }
        assert(fs.subrange(0, n as int) =~= fs);
        out
    }

    /// Drops every pending request and every uncollected response, as on
    /// shutdown.
    pub fn clear(&mut self)
        ensures
            final(self)@ == (TableView { waiting: Seq::empty(), answered: Seq::empty() }),
    {
        self.waiters.clear();
        self.answers.clear();
        assert(self@.waiting =~= Seq::<WaiterView>::empty());
        assert(self@.answered =~= Seq::<(Seq<char>, MessageView)>::empty());
    }
}

} // verus!
