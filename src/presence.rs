//! The presence update: the `SET_ACTIVITY` request built from a
//! `RichPresence`.
use vstd::prelude::*;

use crate::document::{bool_text, decimal_text, json_quoted, object_text, pair_text, with_member, Document};
use crate::message::{Message, MessageType, MessageView};
use crate::requests::nonce;

verus! {

/// A rich-presence description. Timestamps are seconds since the Unix epoch.
#[derive(Debug, Default, Clone)]
pub struct RichPresence {
    pub state: String,
    pub details: String,
    pub start_timestamp: Option<u64>,
    pub end_timestamp: Option<u64>,
    pub large_image_key: String,
    pub large_image_text: String,
    pub small_image_key: String,
    pub small_image_text: String,
    pub party_id: String,
    pub party_size: usize,
    pub party_max: usize,
    pub match_secret: String,
    pub join_secret: String,
    pub spectate_secret: String,
    pub instance: bool,
}

type Members = Seq<(Seq<char>, Seq<char>)>;

/// The members with `key` set to the string `val`, unless `val` is empty.
pub open spec fn with_text(ms: Members, key: Seq<char>, val: Seq<char>) -> Members {
    if val.len() == 0 {
        ms
    } else {
        with_member(ms, key, json_quoted(val))
    }
}

/// The members with `key` set to the integer `val`, if there is one.
pub open spec fn with_time(ms: Members, key: Seq<char>, val: Option<u64>) -> Members {
    match val {
        Some(t) => with_member(ms, key, decimal_text(t as int)),
        None => ms,
    }
}

/// The `timestamps` object of a presence.
pub open spec fn timestamps_members(rp: RichPresence) -> Members {
    with_time(with_time(Seq::empty(), "start"@, rp.start_timestamp), "end"@, rp.end_timestamp)
}

/// The `assets` object of a presence.
pub open spec fn assets_members(rp: RichPresence) -> Members {
    let a = with_text(Seq::empty(), "large_image"@, rp.large_image_key@);
    let a = with_text(a, "large_text"@, rp.large_image_text@);
    let a = with_text(a, "small_image"@, rp.small_image_key@);
    with_text(a, "small_text"@, rp.small_image_text@)
}

/// The `party` object of a presence: its ID, and its size as `[size, max]`
/// when both are positive.
pub open spec fn party_members(rp: RichPresence) -> Members {
    let p = with_text(Seq::empty(), "id"@, rp.party_id@);
    if rp.party_size > 0 && rp.party_max > 0 {
        with_member(p, "size"@, pair_text(rp.party_size as int, rp.party_max as int))
    } else {
        p
    }
}

/// The `secrets` object of a presence.
pub open spec fn secrets_members(rp: RichPresence) -> Members {
    let s = with_text(Seq::empty(), "match"@, rp.match_secret@);
    let s = with_text(s, "join"@, rp.join_secret@);
    with_text(s, "spectate"@, rp.spectate_secret@)
}

/// The `activity` object of a presence: the non-empty texts, the instance
/// flag, and each sub-object that has something in it.
pub open spec fn activity_members(rp: RichPresence) -> Members {
    let a = with_text(Seq::empty(), "state"@, rp.state@);
    let a = with_text(a, "details"@, rp.details@);
    let a = with_member(a, "instance"@, bool_text(rp.instance));
    let a = if rp.start_timestamp is Some || rp.end_timestamp is Some {
        with_member(a, "timestamps"@, object_text(timestamps_members(rp)))
    } else {
        a
    };
    let a = if rp.large_image_key@.len() > 0 || rp.large_image_text@.len() > 0
        || rp.small_image_key@.len() > 0 || rp.small_image_text@.len() > 0 {
        with_member(a, "assets"@, object_text(assets_members(rp)))
    } else {
        a
    };
    let a = if rp.party_id@.len() > 0 || rp.party_size > 0 || rp.party_max > 0 {
        with_member(a, "party"@, object_text(party_members(rp)))
    } else {
        a
    };
    if rp.match_secret@.len() > 0 || rp.join_secret@.len() > 0 || rp.spectate_secret@.len() > 0 {
        with_member(a, "secrets"@, object_text(secrets_members(rp)))
    } else {
        a
    }
}

/// The `args` object of a presence update: the process ID and, when a
/// presence is set, its activity.
pub open spec fn args_members(rp: Option<RichPresence>, pid: u32) -> Members {
    let a = with_member(Seq::empty(), "pid"@, decimal_text(pid as int));
    match rp {
        Some(p) => with_member(a, "activity"@, object_text(activity_members(p))),
        None => a,
    }
}

/// The presence update request: a `Frame` with the nonce, the
/// `SET_ACTIVITY` command and its arguments.
pub open spec fn presence_view(rp: Option<RichPresence>, pid: u32, nonce: Seq<char>) -> MessageView {
    let d = with_member(Seq::empty(), "nonce"@, json_quoted(nonce));
    let d = with_member(d, "cmd"@, json_quoted("SET_ACTIVITY"@));
    let d = with_member(d, "args"@, object_text(args_members(rp, pid)));
    MessageView { kind: MessageType::Frame, payload: object_text(d) }
}

/// Sets `key` to `val` unless `val` is empty.
fn set_text(doc: &mut Document, key: &str, val: &str)
    ensures
        final(doc)@ == with_text(old(doc)@, key@, val@),
{
    if !val.is_empty() {
        doc.set_str(key, val);
    }
}

/// Sets `key` to the time, if there is one.
fn set_time(doc: &mut Document, key: &str, val: Option<u64>)
    ensures
        final(doc)@ == with_time(old(doc)@, key@, val),
{
    if let Some(t) = val {
        doc.set_int(key, t as i128);
    }
}

fn activity(rp: &RichPresence) -> (r: Document)
    ensures
        r@ == activity_members(*rp),
{
    let mut a = Document::new();
    set_text(&mut a, "state", rp.state.as_str());
    set_text(&mut a, "details", rp.details.as_str());
    a.set_bool("instance", rp.instance);
    if rp.start_timestamp.is_some() || rp.end_timestamp.is_some() {
        let mut t = Document::new();
        set_time(&mut t, "start", rp.start_timestamp);
        set_time(&mut t, "end", rp.end_timestamp);
        a.set_document("timestamps", &t);
    }
    if !rp.large_image_key.as_str().is_empty() || !rp.large_image_text.as_str().is_empty()
        || !rp.small_image_key.as_str().is_empty() || !rp.small_image_text.as_str().is_empty() {
        let mut assets = Document::new();
        set_text(&mut assets, "large_image", rp.large_image_key.as_str());
        set_text(&mut assets, "large_text", rp.large_image_text.as_str());
        set_text(&mut assets, "small_image", rp.small_image_key.as_str());
        set_text(&mut assets, "small_text", rp.small_image_text.as_str());
        a.set_document("assets", &assets);
    }
    if !rp.party_id.as_str().is_empty() || rp.party_size > 0 || rp.party_max > 0 {
        let mut party = Document::new();
        set_text(&mut party, "id", rp.party_id.as_str());
        if rp.party_size > 0 && rp.party_max > 0 {
            party.set_int_pair("size", rp.party_size as i128, rp.party_max as i128);
        }
        a.set_document("party", &party);
    }
    if !rp.match_secret.as_str().is_empty() || !rp.join_secret.as_str().is_empty() || !rp.spectate_secret.as_str().is_empty() {
        let mut secrets = Document::new();
        set_text(&mut secrets, "match", rp.match_secret.as_str());
        set_text(&mut secrets, "join", rp.join_secret.as_str());
        set_text(&mut secrets, "spectate", rp.spectate_secret.as_str());
        a.set_document("secrets", &secrets);
    }
    a
}

impl Message {
    /// Creates the request that sets the given presence, or clears it when
    /// `rp` is `None`, for the process `pid`, under the given nonce.
    pub fn rich_presence_with_nonce(rp: Option<RichPresence>, pid: u32, nonce: &str) -> (r: Message)
        ensures
            r@ == presence_view(rp, pid, nonce@),
    {
        let mut json = Document::new();
        json.set_str("nonce", nonce);
        json.set_str("cmd", "SET_ACTIVITY");
        let mut args = Document::new();
        args.set_int("pid", pid as i128);
        if let Some(p) = &rp {
            let a = activity(p);
            args.set_document("activity", &a);
        }
        json.set_document("args", &args);
        Message::new(MessageType::Frame, json)
    }

    /// Creates the request that sets the given presence, or clears it when
    /// `rp` is `None`, for the process `pid`, under a fresh random nonce.
    pub fn rich_presence(rp: Option<RichPresence>, pid: u32) -> (r: Message)
        ensures
            exists|n: Seq<char>| r@ == presence_view(rp, pid, n),
    {
        let n = nonce();
        let r = Self::rich_presence_with_nonce(rp, pid, n.as_str());
        assert(r@ == presence_view(rp, pid, n@));
        r
    }
}

} // verus!
