//! The per-validator network dispatch layer: the handler table shared by
//! all listeners, the reply markers written back to senders, and the
//! per-connection state machine that takes each length-delimited frame from
//! `AwaitingVersion` through version check and handler lookup to dispatch.
//! The sockets themselves live outside; this module decides, for given frame
//! bytes and table state, what to reply, whether to stay open, and what to
//! hand which validator instance.

use vstd::prelude::*;
use crate::codec::{PROTOCOL_VERSION, decode_envelope, u64_of};

verus! {

/// A raw marker written back on the connection.
#[derive(Clone, Copy, PartialEq, Eq, Structural, Debug)]
pub enum Reply {
    /// A proposal was received and forwarded.
    Ack,
    /// The frame carried the wrong protocol version; the connection stays.
    VersionMismatch,
    /// No handler serves this validator yet; the connection stays.
    NoHandler,
    /// The frame or payload cannot be decoded; the connection closes.
    InvalidMessage,
}

/// The exact marker bytes of one reply.
pub open spec fn reply_marker(r: Reply) -> Seq<u8> {
    match r {
        Reply::Ack => seq![65, 99, 107],
        Reply::VersionMismatch => seq![
            86, 101, 114, 115, 105, 111, 110, 32, 109, 105, 115, 109, 97, 116,
            99, 104,
        ],
        Reply::NoHandler => seq![
            78, 111, 32, 104, 97, 110, 100, 108, 101, 114, 32, 102, 111, 117,
            110, 100,
        ],
        Reply::InvalidMessage => seq![
            73, 110, 118, 97, 108, 105, 100, 32, 109, 101, 115, 115, 97, 103,
            101,
        ],
    }
}

impl Reply {
    /// The marker bytes to write back.
    pub fn marker(&self) -> (r: Vec<u8>)
        ensures
            r@ == reply_marker(*self),
    {
        let mut out: Vec<u8> = Vec::new();
        match self {
            Reply::Ack => {
                out.push(65);
                out.push(99);
                out.push(107);
            },
            Reply::VersionMismatch => {
                out.push(86);
                out.push(101);
                out.push(114);
                out.push(115);
                out.push(105);
                out.push(111);
                out.push(110);
                out.push(32);
                out.push(109);
                out.push(105);
                out.push(115);
                out.push(109);
                out.push(97);
                out.push(116);
                out.push(99);
                out.push(104);
            },
            Reply::NoHandler => {
                out.push(78);
                out.push(111);
                out.push(32);
                out.push(104);
                out.push(97);
                out.push(110);
                out.push(100);
                out.push(108);
                out.push(101);
                out.push(114);
                out.push(32);
                out.push(102);
                out.push(111);
                out.push(117);
                out.push(110);
                out.push(100);
            },
            Reply::InvalidMessage => {
                out.push(73);
                out.push(110);
                out.push(118);
                out.push(97);
                out.push(108);
                out.push(105);
                out.push(100);
                out.push(32);
                out.push(109);
                out.push(101);
                out.push(115);
                out.push(115);
                out.push(97);
                out.push(103);
                out.push(101);
            },
        }
        proof {
            assert(out@ =~= reply_marker(*self));
        }
        out
    }
}

/// The validator identifiers whose handlers have finished registering.
/// Lookups may race with registration: an identifier not here yet is
/// soft-rejected, never an error about the message.
pub struct HandlerTable {
    pub ids: Vec<u64>,
}

/// Whether `id` is registered in `ids`.
pub open spec fn registered(ids: Seq<u64>, id: u64) -> bool {
    exists|i: int| 0 <= i < ids.len() && ids[i] == id
}

impl HandlerTable {
    pub open spec fn wf(self) -> bool {
        forall|i: int, j: int|
            0 <= i < self.ids@.len() && 0 <= j < self.ids@.len() && i != j ==> self.ids@[i]
                != self.ids@[j]
    }

    pub fn new() -> (r: HandlerTable)
        ensures
            r.wf(),
            r.ids@.len() == 0,
    {
        HandlerTable { ids: Vec::new() }
    }

    /// Whether a handler serves `id` already.
    pub fn contains(&self, id: u64) -> (r: bool)
        ensures
            r == registered(self.ids@, id),
    {
        let n = self.ids.len();
        let mut i: usize = 0;
        while i < n
            invariant
                n == self.ids@.len(),
                0 <= i <= n,
                forall|j: int| 0 <= j < i ==> self.ids@[j] != id,
            decreases n - i,
        {
            if self.ids[i] == id {
                return true;
            }
            i += 1;
        }
        false
    }

    /// Registers a handler for `id`; registering twice changes nothing.
    pub fn register(&mut self, id: u64)
        requires
            old(self).wf(),
        ensures
            final(self).wf(),
            registered(final(self).ids@, id),
            registered(old(self).ids@, id) ==> *final(self) == *old(self),
            forall|x: u64|
                registered(final(self).ids@, x) == (registered(old(self).ids@, x) || x == id),
    {
        let n = self.ids.len();
        let mut i: usize = 0;
        while i < n
            invariant
                *self == *old(self),
                self.wf(),
                n == self.ids@.len(),
                0 <= i <= n,
                forall|j: int| 0 <= j < i ==> self.ids@[j] != id,
            decreases n - i,
        {
            if self.ids[i] == id {
                return ;
            }
            i += 1;
        }
        self.ids.push(id);
        proof {
            assert(forall|j: int| 0 <= j < n ==> self.ids@[j] == old(self).ids@[j]);
            assert(self.ids@[n as int] == id);
            assert forall|x: u64|
                registered(self.ids@, x) == (registered(old(self).ids@, x) || x == id) by {
                if registered(old(self).ids@, x) {
                    let w = choose|w: int| 0 <= w < n && old(self).ids@[w] == x;
                    assert(self.ids@[w] == x);
                }
                if x == id {
                    assert(self.ids@[n as int] == x);
                }
                if registered(self.ids@, x) {
                    let w = choose|w: int| 0 <= w < self.ids@.len() && self.ids@[w] == x;
                    if w < n {
                        assert(old(self).ids@[w] == x);
                    }
                }
            }
        }
    }
}

/// One accepted connection's dispatch state.
pub struct Connection {
    /// False once a fatal frame closed this connection.
    pub open: bool,
    /// The validator whose handler this connection resolved, kept after the
    /// first successful lookup.
    pub cached: Option<u64>,
}

/// What one frame led to.
pub struct FrameOutcome {
    /// The marker to write back, if one is owed at this layer.
    pub reply: Option<Reply>,
    /// The payload to hand to the handler of this validator, if dispatched.
    pub deliver: Option<(u64, Vec<u8>)>,
}

impl Connection {
    pub fn new() -> (r: Connection)
        ensures
            r.open,
            r.cached is None,
    {
        Connection { open: true, cached: None }
    }

    /// Consumes one length-delimited frame. A frame too short for the
    /// envelope is invalid and closes the connection. A frame with the wrong
    /// protocol version is answered with the version-mismatch marker and the
    /// connection stays open and otherwise untouched, so later well-versed
    /// frames still go through. An unregistered target is answered with the
    /// no-handler marker, the connection stays open, and the lookup is
    /// retried on the next frame. Otherwise the payload is handed to the
    /// resolved validator's handler, which is cached from then on.
    pub fn on_frame(&mut self, table: &HandlerTable, frame: &Vec<u8>) -> (r: FrameOutcome)
        requires
            old(self).open,
        ensures
            frame@.len() < 16 ==> !final(self).open && r.reply == Some(Reply::InvalidMessage)
                && r.deliver is None,
            frame@.len() >= 16 ==> final(self).open,
            frame@.len() >= 16 && u64_of(frame@, 0) != PROTOCOL_VERSION ==> *final(self) == *old(
                self,
            ) && r.reply == Some(Reply::VersionMismatch) && r.deliver is None,
            frame@.len() >= 16 && u64_of(frame@, 0) == PROTOCOL_VERSION && old(self).cached is None
                && !registered(table.ids@, u64_of(frame@, 8)) ==> *final(self) == *old(self)
                && r.reply == Some(Reply::NoHandler) && r.deliver is None,
            frame@.len() >= 16 && u64_of(frame@, 0) == PROTOCOL_VERSION && old(self).cached is None
                && registered(table.ids@, u64_of(frame@, 8)) ==> {
                &&& final(self).cached == Some(u64_of(frame@, 8))
                &&& r.reply is None
                &&& (r.deliver matches Some((id, p)) && id == u64_of(frame@, 8) && p@
                    == frame@.subrange(16, frame@.len() as int))
            },
            (frame@.len() >= 16 && u64_of(frame@, 0) == PROTOCOL_VERSION) ==> (old(self).cached
                matches Some(h) ==> {
                &&& *final(self) == *old(self)
                &&& r.reply is None
                &&& (r.deliver matches Some((id, p)) && id == h && p@ == frame@.subrange(
                    16,
                    frame@.len() as int,
                ))
            }),
    {
        let decoded = decode_envelope(frame);
        let (version, validator_id, payload) = match decoded {
            None => {
                self.open = false;
                return FrameOutcome { reply: Some(Reply::InvalidMessage), deliver: None };
            },
            Some(x) => x,
        };
        if version != PROTOCOL_VERSION {
            return FrameOutcome { reply: Some(Reply::VersionMismatch), deliver: None };
        }
        let target = match self.cached {
            Some(h) => h,
            None => {
                if table.contains(validator_id) {
                    self.cached = Some(validator_id);
                    validator_id
                } else {
                    return FrameOutcome { reply: Some(Reply::NoHandler), deliver: None };
                }
            },
        };
        FrameOutcome { reply: None, deliver: Some((target, payload)) }
    }
}

} // verus!
