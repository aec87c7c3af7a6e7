//! The byte source the parser pulls from, and a scripted in-memory source.
//!
//! The parser only needs a blocking `read`-like operation with the usual
//! partial-read semantics: a call appends at most `max` fresh bytes to the
//! buffer, zero bytes read signals end of input, and an error leaves the
//! buffer untouched.  `ReadSource` states exactly that.  `QueueSource` is a
//! verified in-memory implementation driven by a script of chunks and
//! injected errors, so that chunked delivery and transient failures can be
//! exercised deterministically.

use vstd::prelude::*;

verus! {

/// Discriminates the kinds of I/O failure a byte source can report.
#[derive(Clone, Copy, Debug, PartialEq, Eq, Structural)]
pub enum IoErrorKind {
    /// The operation would have to block to make progress.
    WouldBlock,
    /// The operation was interrupted before any data arrived.
    Interrupted,
    /// The operation ran out of time.
    TimedOut,
    /// Any other failure.
    Other,
}

/// An I/O failure reported by a byte source.
#[derive(Clone, Copy, Debug, PartialEq, Eq, Structural)]
pub struct IoError {
    /// What went wrong.
    pub kind: IoErrorKind,
    /// The operating system error code, when one is known.
    pub raw_os_error: Option<i32>,
}

/// A blocking source of bytes with standard partial-read semantics.
///
/// `remaining` is a ghost upper bound on how much work the source can still
/// hand out; every successful read of at least one byte must shrink it, which
/// is what lets the pull loop of the parser terminate.
pub trait ReadSource {
    /// Ghost measure of the data and events the source can still deliver.
    spec fn remaining(&self) -> nat;

    /// Append at most `max` fresh bytes to `buf` and report how many arrived.
    ///
    /// Reading zero bytes while `max > 0` signals end of input.  On an error
    /// nothing is appended.
    fn read(&mut self, buf: &mut Vec<u8>, max: usize) -> (r: Result<usize, IoError>)
        ensures
            final(self).remaining() <= old(self).remaining(),
            match r {
                Ok(n) => {
                    &&& n <= max
                    &&& final(buf)@.len() == old(buf)@.len() + n
                    &&& final(buf)@.subrange(0, old(buf)@.len() as int) == old(buf)@
                    &&& n > 0 ==> final(self).remaining() < old(self).remaining()
                },
                Err(_) => final(buf)@ == old(buf)@,
            },
    ;
}

/// One step of a [`QueueSource`] script.
pub enum ReadEvent {
    /// Deliver these bytes (possibly over several reads).
    Chunk(Vec<u8>),
    /// Report this error once.
    Fault(IoError),
}

/// The mathematical image of a [`ReadEvent`].
pub enum EventModel {
    /// Bytes waiting to be delivered.
    Bytes(Seq<u8>),
    /// An error waiting to be reported.
    Fault(IoError),
}

impl ReadEvent {
    /// The mathematical image of this event.
    pub open spec fn model(self) -> EventModel {
        match self {
            ReadEvent::Chunk(d) => EventModel::Bytes(d@),
            ReadEvent::Fault(e) => EventModel::Fault(e),
        }
    }
}

/// Ghost weight of one pending event: an error counts one unit, a chunk one
/// unit plus one per byte.
pub open spec fn event_weight(e: EventModel) -> nat {
    match e {
        EventModel::Bytes(d) => d.len() + 1,
        EventModel::Fault(_) => 1,
    }
}

/// Ghost weight of a whole script.
pub open spec fn script_weight(evs: Seq<EventModel>) -> nat
    decreases evs.len(),
{
    if evs.len() == 0 {
        0
    } else {
        event_weight(evs[0]) + script_weight(evs.drop_first())
    }
}

proof fn lemma_script_weight_first(evs: Seq<EventModel>)
    requires
        evs.len() > 0,
    ensures
        script_weight(evs) == event_weight(evs[0]) + script_weight(evs.drop_first()),
{
}

/// An in-memory byte source that plays back a script of chunks and injected
/// errors, front to back.
pub struct QueueSource {
    events: Vec<ReadEvent>,
}

impl QueueSource {
    /// The pending script, in the order it will be played.
    pub closed spec fn model(&self) -> Seq<EventModel> {
        self.events@.map(|i: int, e: ReadEvent| e.model())
    }

    /// All stored chunks are non-empty, so that reading zero bytes keeps
    /// meaning end of input.
    pub open spec fn wf(&self) -> bool {
        forall|i: int|
            0 <= i < self.model().len() ==> match #[trigger] self.model()[i] {
                EventModel::Bytes(d) => d.len() > 0,
                EventModel::Fault(_) => true,
            }
    }

    /// A source with nothing to deliver: it reports end of input at once.
    pub fn new() -> (r: QueueSource)
        ensures
            r.model() == Seq::<EventModel>::empty(),
            r.wf(),
    {
        let r = QueueSource { events: Vec::new() };
        proof {
            assert(r.model() =~= Seq::<EventModel>::empty());
        }
        r
    }

    /// Schedule `d` to be delivered after everything already queued.  An
    /// empty chunk is dropped, since it could not be told from end of input.
    pub fn push_chunk(&mut self, d: Vec<u8>)
        ensures
            old(self).wf() ==> final(self).wf(),
            d@.len() > 0 ==> final(self).model() == old(self).model().push(
                EventModel::Bytes(d@),
            ),
            d@.len() == 0 ==> final(self).model() == old(self).model(),
    {
        if d.len() > 0 {
            let ghost m = d@;
            self.events.push(ReadEvent::Chunk(d));
            proof {
                assert(self.model() =~= old(self).model().push(EventModel::Bytes(m)));
            }
        }
    }

    /// Schedule an error to be reported after everything already queued.
    pub fn push_fault(&mut self, e: IoError)
        ensures
            old(self).wf() ==> final(self).wf(),
            final(self).model() == old(self).model().push(EventModel::Fault(e)),
    {
        self.events.push(ReadEvent::Fault(e));
        proof {
            assert(self.model() =~= old(self).model().push(EventModel::Fault(e)));
        }
    }
}

impl ReadSource for QueueSource {
    closed spec fn remaining(&self) -> nat {
        script_weight(self.model())
    }

    fn read(&mut self, buf: &mut Vec<u8>, max: usize) -> (r: Result<usize, IoError>)
        ensures
            match r {
                Ok(n) => {
                    &&& old(self).model().len() == 0 ==> {
                        &&& n == 0
                        &&& final(self).model() == old(self).model()
                    }
                    &&& old(self).model().len() > 0 ==> {
                        &&& old(self).model()[0] matches EventModel::Bytes(d)
                        &&& n == if max < d.len() {
                            max as int
                        } else {
                            d.len() as int
                        }
                        &&& final(buf)@ == old(buf)@ + d.take(n as int)
                        &&& final(self).model() == if n < d.len() {
                            old(self).model().drop_first().insert(
                                0,
                                EventModel::Bytes(d.skip(n as int)),
                            )
                        } else {
                            old(self).model().drop_first()
                        }
                    }
                },
                Err(e) => {
                    &&& old(self).model().len() > 0
                    &&& old(self).model()[0] == EventModel::Fault(e)
                    &&& final(self).model() == old(self).model().drop_first()
                },
            },
    {
        if self.events.len() == 0 {
            return Ok(0);
        }
        let ghost pre = self.model();
        proof {
            lemma_script_weight_first(pre);
        }
        let ev = self.events.remove(0);
        proof {
            assert(self.model() =~= pre.drop_first());
        }
        match ev {
            ReadEvent::Fault(e) => Err(e),
            ReadEvent::Chunk(d) => {
                let n = if max < d.len() {
                    max
                } else {
                    d.len()
                };
                let ghost dv = d@;
                let mut i: usize = 0;
                while i < n
                    invariant
                        n <= dv.len(),
                        i <= n,
                        d@ == dv,
                        buf@ == old(buf)@ + dv.take(i as int),
                    decreases n - i,
                {
                    buf.push(d[i]);
                    proof {
                        assert(buf@ =~= old(buf)@ + dv.take(i + 1 as int));
                    }
                    i = i + 1;
                }
                if n < d.len() {
                    // Keep the undelivered tail of the chunk at the front.
                    let mut tail: Vec<u8> = Vec::new();
                    let mut j: usize = n;
                    while j < d.len()
                        invariant
                            n <= j <= dv.len(),
                            d@ == dv,
                            tail@ == dv.subrange(n as int, j as int),
                        decreases d@.len() - j,
                    {
                        tail.push(d[j]);
                        proof {
                            assert(tail@ =~= dv.subrange(n as int, j + 1 as int));
                        }
                        j = j + 1;
                    }
                    proof {
                        assert(tail@ =~= dv.skip(n as int));
                    }
                    let ghost mid = self.model();
                    self.events.insert(0, ReadEvent::Chunk(tail));
                    proof {
                        assert(self.model() =~= mid.insert(0, EventModel::Bytes(dv.skip(n as int))));
                        lemma_script_weight_first(self.model());
                        assert(self.model().drop_first() =~= mid);
                    }
                } else {
                    proof {
                        assert(dv.take(n as int) =~= dv);
                    }
                }
                Ok(n)
            },
        }
    }
}

} // verus!
