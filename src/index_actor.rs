use vstd::prelude::*;

verus! {

/// The requests the index actor serves.
#[derive(PartialEq, Eq, Structural, Clone, Copy, Debug)]
pub enum IndexMsgKind {
    CreateIndex,
    Update,
    Search,
    Settings,
    Documents,
    Document,
    Delete,
    GetMeta,
}

/// The two mailboxes of the index actor.
#[derive(PartialEq, Eq, Structural, Clone, Copy, Debug)]
pub enum Channel {
    Read,
    Write,
}

/// Requests that change an index go through the write mailbox.
pub open spec fn is_write(kind: IndexMsgKind) -> bool {
    kind == IndexMsgKind::CreateIndex || kind == IndexMsgKind::Update || kind == IndexMsgKind::Delete
}

/// The mailbox a request is sent to.
pub fn channel_of(kind: IndexMsgKind) -> (r: Channel)
    ensures
        r == (if is_write(kind) {
            Channel::Write
        } else {
            Channel::Read
        }),
{
    match kind {
        IndexMsgKind::CreateIndex | IndexMsgKind::Update | IndexMsgKind::Delete => Channel::Write,
        _ => Channel::Read,
    }
}

/// Read requests served at the same time, at most.
pub const READ_CONCURRENCY: usize = 10;

/// Write requests served at the same time, at most.
pub const WRITE_CONCURRENCY: usize = 1;

pub open spec fn limit(ch: Channel) -> usize {
    match ch {
        Channel::Read => READ_CONCURRENCY,
        Channel::Write => WRITE_CONCURRENCY,
    }
}

/// Counts of the requests in flight on each mailbox.
pub struct Dispatcher {
    reads: usize,
    writes: usize,
}

impl Dispatcher {
    pub closed spec fn in_flight(&self, ch: Channel) -> usize {
        match ch {
            Channel::Read => self.reads,
            Channel::Write => self.writes,
        }
    }

    /// Never more requests in flight than a mailbox allows.
    pub open spec fn wf(&self) -> bool {
        self.in_flight(Channel::Read) <= READ_CONCURRENCY && self.in_flight(Channel::Write)
            <= WRITE_CONCURRENCY
    }

    pub fn new() -> (r: Dispatcher)
        ensures
            r.wf(),
            r.in_flight(Channel::Read) == 0,
            r.in_flight(Channel::Write) == 0,
    {
        Dispatcher { reads: 0, writes: 0 }
    }

    /// Starts serving a request of mailbox `ch` if that mailbox has room;
    /// returns whether it did.
    pub fn try_start(&mut self, ch: Channel) -> (r: bool)
        requires
            old(self).wf(),
        ensures
            final(self).wf(),
            r == (old(self).in_flight(ch) < limit(ch)),
            final(self).in_flight(ch) == if r {
                old(self).in_flight(ch) + 1
            } else {
                old(self).in_flight(ch) as int
            },
            forall|c: Channel| c != ch ==> final(self).in_flight(c) == old(self).in_flight(c),
    {
        match ch {
            Channel::Read => {
                if self.reads < READ_CONCURRENCY {
                    self.reads = self.reads + 1;
                    true
                } else {
                    false
                }
            },
            Channel::Write => {
                if self.writes < WRITE_CONCURRENCY {
                    self.writes = self.writes + 1;
                    true
                } else {
                    false
                }
            },
        }
    }

    /// A request of mailbox `ch` is done.
    pub fn complete(&mut self, ch: Channel)
        requires
            old(self).wf(),
            old(self).in_flight(ch) > 0,
        ensures
            final(self).wf(),
            final(self).in_flight(ch) == old(self).in_flight(ch) - 1,
            forall|c: Channel| c != ch ==> final(self).in_flight(c) == old(self).in_flight(c),
    {
        match ch {
            Channel::Read => {
                self.reads = self.reads - 1;
            },
            Channel::Write => {
                self.writes = self.writes - 1;
            },
        }
    }
}

} // verus!
