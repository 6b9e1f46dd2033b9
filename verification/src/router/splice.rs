//! Two upgraded connections, joined until both have ended or nothing moves.

use vstd::prelude::*;

use crate::config::duration::Span;

verus! {

/// One of the two ends.
#[derive(Debug, Clone, Copy, PartialEq, Eq, Structural)]
pub enum Side {
    Client,
    Server,
}

impl Side {
    pub open spec fn opposite(self) -> Side {
        match self {
            Side::Client => Side::Server,
            Side::Server => Side::Client,
        }
    }

    pub fn other(self) -> (r: Side)
        ensures
            r == self.opposite(),
    {
        match self {
            Side::Client => Side::Server,
            Side::Server => Side::Client,
        }
    }
}

/// How far a splice has got. Times are measured from its start.
#[derive(Debug, Clone, Copy, PartialEq, Eq, Structural)]
pub struct Splice {
    /// The client has sent everything.
    pub client_ended: bool,
    /// The server has sent everything.
    pub server_ended: bool,
    /// When bytes last came in, from either side.
    pub last: Span,
    /// How long nothing may move.
    pub idle: Span,
}

/// What happens to a splice.
#[derive(Debug, Clone, Copy, PartialEq, Eq, Structural)]
pub enum SpliceEvent {
    /// Bytes came in from a side.
    Data { from: Side, now: Span },
    /// A side has sent everything.
    Eof { from: Side },
    /// A read or a write failed.
    Failed,
    /// Time to look whether anything moves.
    Tick { now: Span },
}

/// What to do.
#[derive(Debug, Clone, Copy, PartialEq, Eq, Structural)]
pub enum SpliceAction {
    /// Write what came in to the given side.
    Write(Side),
    /// Tell the given side that nothing more will come.
    ShutDown(Side),
    /// Go on waiting.
    Wait,
    /// Drop both connections: nothing has moved for too long.
    Close,
    /// Drop both connections: one of them is broken.
    Abort,
}

/// How long ago bytes last came in.
pub open spec fn quiet_for(last: Span, now: Span) -> nat {
    if now.total() >= last.total() {
        (now.total() - last.total()) as nat
    } else {
        0
    }
}

impl Splice {
    /// Nothing has ended yet, and the clock starts.
    pub fn start(idle: Span) -> (r: Splice)
        ensures
            r == (Splice {
                client_ended: false,
                server_ended: false,
                last: Span { secs: 0, nanos: 0 },
                idle,
            }),
    {
        Splice {
            client_ended: false,
            server_ended: false,
            last: Span { secs: 0, nanos: 0 },
            idle,
        }
    }

    /// Both sides have sent everything.
    pub open spec fn done(self) -> bool {
        self.client_ended && self.server_ended
    }

    pub fn is_done(&self) -> (r: bool)
        ensures
            r == self.done(),
    {
        self.client_ended && self.server_ended
    }

    /// The state after an event and what is to be done about it.
    pub open spec fn after(self, e: SpliceEvent) -> (Splice, SpliceAction) {
        match e {
            SpliceEvent::Data { from, now } => (
                Splice { last: now, ..self },
                SpliceAction::Write(from.opposite()),
            ),
            SpliceEvent::Eof { from } => (
                match from {
                    Side::Client => Splice { client_ended: true, ..self },
                    Side::Server => Splice { server_ended: true, ..self },
                },
                SpliceAction::ShutDown(from.opposite()),
            ),
            SpliceEvent::Failed => (self, SpliceAction::Abort),
            SpliceEvent::Tick { now } => (
                self,
                if quiet_for(self.last, now) >= self.idle.total() {
                    SpliceAction::Close
                } else {
                    SpliceAction::Wait
                },
            ),
        }
    }

    /// Take an event in.
    pub fn step(&mut self, e: SpliceEvent) -> (r: SpliceAction)
        ensures
            (*final(self), r) == old(self).after(e),
    {
        match e {
            SpliceEvent::Data { from, now } => {
                self.last = now;
                SpliceAction::Write(from.other())
            },
            SpliceEvent::Eof { from } => {
                match from {
                    Side::Client => {
                        self.client_ended = true;
                    },
                    Side::Server => {
                        self.server_ended = true;
                    },
                }
                SpliceAction::ShutDown(from.other())
            },
            SpliceEvent::Failed => SpliceAction::Abort,
            SpliceEvent::Tick { now } => {
                let n: u128 = now.as_nanos();
                let l: u128 = self.last.as_nanos();
                let quiet: u128 = if n >= l {
                    n - l
                } else {
                    0
                };
                if quiet >= self.idle.as_nanos() {
                    SpliceAction::Close
                } else {
                    SpliceAction::Wait
                }
            },
        }
    }
}

/// How often to look whether anything moves: twice in the time that nothing may
/// move.
pub fn watch_interval(idle: Span) -> (r: Span)
    requires
        idle.nanos < 1_000_000_000,
    ensures
        r.total() == idle.total() / 2,
        r.nanos < 1_000_000_000,
{
    let half: u64 = idle.secs / 2;
    let odd: u32 = (idle.secs % 2) as u32;
    let nanos: u32 = (odd * 1_000_000_000 + idle.nanos) / 2;
    Span { secs: half, nanos }
}

/// One side's end is no end for the other: bytes go on from the side that has
/// not ended, and the splice is done only when both have.
pub proof fn lemma_half_closed(s: Splice, from: Side, now: Span)
    requires
        !s.done(),
    ensures
        s.after(SpliceEvent::Eof { from }).1 == SpliceAction::ShutDown(from.opposite()),
        s.after(SpliceEvent::Eof { from }).0.after(
            SpliceEvent::Data { from: from.opposite(), now },
        ).1 == SpliceAction::Write(from),
        s.after(SpliceEvent::Eof { from }).0.after(
            SpliceEvent::Eof { from: from.opposite() },
        ).0.done(),
        !s.client_ended && !s.server_ended ==> !s.after(SpliceEvent::Eof { from }).0.done(),
{
}

/// A splice is closed for silence only when no bytes have come in from either
/// side for the whole time that nothing may move.
pub proof fn lemma_traffic_keeps_open(s: Splice, from: Side, at: Span, now: Span)
    requires
        at.total() <= now.total() < at.total() + s.idle.total(),
    ensures
        s.after(SpliceEvent::Data { from, now: at }).0.after(SpliceEvent::Tick { now }).1
            == SpliceAction::Wait,
{
}

/// What becomes of each event: bytes go to the other side and set the clock; the
/// end of one side is told to the other; a failure ends everything; and a look at
/// the clock closes the splice exactly if the time since bytes last came in is at
/// least the time that nothing may move.
pub proof fn lemma_events(s: Splice, from: Side, now: Span)
    ensures
        ({
            let to = if from is Client {
                Side::Server
            } else {
                Side::Client
            };
            let data = s.after(SpliceEvent::Data { from, now });
            let eof = s.after(SpliceEvent::Eof { from });
            let failed = s.after(SpliceEvent::Failed);
            let tick = s.after(SpliceEvent::Tick { now });
            &&& data.1 == SpliceAction::Write(to)
            &&& data.0.last == now
            &&& data.0.client_ended == s.client_ended && data.0.server_ended == s.server_ended
                && data.0.idle == s.idle
            &&& eof.1 == SpliceAction::ShutDown(to)
            &&& eof.0.client_ended == (s.client_ended || from is Client)
            &&& eof.0.server_ended == (s.server_ended || from is Server)
            &&& eof.0.last == s.last && eof.0.idle == s.idle
            &&& failed == (s, SpliceAction::Abort)
            &&& tick.0 == s
            &&& tick.1 == if s.idle.secs * 1_000_000_000 + s.idle.nanos == 0 || now.secs
                * 1_000_000_000 + now.nanos >= s.last.secs * 1_000_000_000 + s.last.nanos
                + s.idle.secs * 1_000_000_000 + s.idle.nanos {
                SpliceAction::Close
            } else {
                SpliceAction::Wait
            }
        }),
        s.done() <==> s.client_ended && s.server_ended,
        from.opposite() != from,
{
}

} // verus!
