//! What watchers of a timeline are told.
use crate::bevy_motiongfx::remote::batch::op::EditOp;
use crate::seqs::take_one_more;
use crate::time::Ticks;
use std::collections::VecDeque;
use std::sync::Arc;
use vstd::prelude::*;

verus! {

/// How many stream events are buffered per timeline. A watcher that falls
/// further behind than this misses events.
pub const EVENT_CAP: usize = 256;

/// What happened to a timeline.
#[derive(Debug)]
pub enum EventKind {
    Edit { version: u64, ops: Vec<EditOp> },
    Undo { version: u64 },
    Redo { version: u64 },
    TrackAdd { track_count: usize, version: u64 },
    Renamed { name: Option<String>, version: u64 },
    MarkerSet { marker: String, track: usize, time: Ticks, version: u64 },
    MarkerRemoved { marker: String, version: u64 },
}

/// A numbered event.
#[derive(Debug)]
pub struct StreamEvent {
    pub seq: u64,
    pub kind: EventKind,
}

/// The latest events of a timeline.
pub struct EventLog {
    events: VecDeque<Arc<StreamEvent>>,
    /// The number of the latest event.
    seq: u64,
}

/// The buffered events, the oldest first, and the number of the latest.
#[verifier::ext_equal]
pub struct EventsModel {
    pub events: Seq<StreamEvent>,
    pub seq: u64,
}

/// The number behind a number.
pub open spec fn next_number(n: u64) -> u64 {
    if n == u64::MAX {
        n
    } else {
        (n + 1) as u64
    }
}

impl EventsModel {
    /// No events.
    pub open spec fn empty() -> Self {
        EventsModel { events: Seq::empty(), seq: 0 }
    }

    /// The log with one more event: the oldest one makes room where there is
    /// none.
    pub open spec fn pushed(self, kind: EventKind) -> Self {
        let kept = if self.events.len() == EVENT_CAP {
            self.events.skip(1)
        } else {
            self.events
        };
        let seq = next_number(self.seq);
        EventsModel { events: kept.push(StreamEvent { seq, kind }), seq }
    }

    /// The events after a number, the oldest first.
    pub open spec fn since(self, after: u64) -> Seq<StreamEvent> {
        self.events.filter(|event: StreamEvent| event.seq > after)
    }

    /// Whether the buffer is not too long and holds the latest event, and as
    /// long as the counter has not reached its end, the buffered events are the
    /// latest ones without a gap.
    pub open spec fn without_gaps(self) -> bool {
        &&& self.events.len() <= EVENT_CAP
        &&& self.seq > 0 ==> self.events.len() > 0
        &&& self.seq < u64::MAX ==> {
            &&& self.events.len() <= self.seq
            &&& forall|i: int|
                0 <= i < self.events.len() ==> (#[trigger] self.events[i]).seq == self.seq
                    - self.events.len() + 1 + i
        }
    }
}

/// The events themselves.
pub open spec fn event_models(events: Seq<Arc<StreamEvent>>) -> Seq<StreamEvent> {
    events.map_values(|event: Arc<StreamEvent>| *event)
}

impl View for EventLog {
    type V = EventsModel;

    closed spec fn view(&self) -> EventsModel {
        EventsModel { events: event_models(self.events@), seq: self.seq }
    }
}

impl EventLog {
    #[verifier::type_invariant]
    spec fn numbered(self) -> bool {
        self@.without_gaps()
    }

    /// No events.
    pub fn new() -> (log: Self)
        ensures
            log@ == EventsModel::empty(),
    {
        let log = EventLog { events: VecDeque::new(), seq: 0 };
        assert(log@ =~= EventsModel::empty());
        log
    }

    /// The number of the latest event (`0` = no events yet).
    pub fn seq(&self) -> (seq: u64)
        ensures
            seq == self@.seq,
            self@.without_gaps(),
    {
        proof {
            use_type_invariant(self);
        }
        self.seq
    }

    /// Adds an event. Returns its number.
    pub fn push(&mut self, kind: EventKind) -> (seq: u64)
        ensures
            final(self)@ == old(self)@.pushed(kind),
            seq == final(self)@.seq,
    {
        let mut taken = EventLog::new();
        core::mem::swap(self, &mut taken);
        proof {
            use_type_invariant(&taken);
        }
        let EventLog { mut events, seq } = taken;
        let ghost before = event_models(events@);
        let seq = seq.saturating_add(1);
        if events.len() == EVENT_CAP {
            events.pop_front();
            assert(event_models(events@) =~= before.skip(1));
        }
        let ghost kept = event_models(events@);
        events.push_back(Arc::new(StreamEvent { seq, kind }));
        proof {
            assert(event_models(events@) =~= kept.push(StreamEvent { seq, kind }));
        }
        *self = EventLog { events, seq };
        assert(self@ =~= old(self)@.pushed(kind));
        seq
    }

    /// All buffered events behind a number, the oldest first.
    pub fn since(&self, after: u64) -> (events: Vec<Arc<StreamEvent>>)
        ensures
            event_models(events@) == self@.since(after),
    {
        let mut found: Vec<Arc<StreamEvent>> = Vec::new();
        let ghost all = event_models(self.events@);
        let ghost newer = |event: StreamEvent| event.seq > after;
        let mut i: usize = 0;
        proof {
            reveal(Seq::filter);
            assert(event_models(found@) =~= all.take(0).filter(newer));
        }
        while i < self.events.len()
            invariant
                i <= self.events@.len(),
                all == event_models(self.events@),
                newer == (|event: StreamEvent| event.seq > after),
                event_models(found@) == all.take(i as int).filter(newer),
            decreases self.events@.len() - i,
        {
            proof {
                take_one_more(all, i as int);
                reveal(Seq::filter);
            }
            let ghost before = event_models(found@);
            if self.events[i].seq > after {
                found.push(self.events[i].clone());
                assert(event_models(found@) =~= before.push(all[i as int]));
            }
            i += 1;
        }
        assert(all.take(i as int) =~= all);
        found
    }

    /// The number of the oldest buffered event.
    pub fn oldest(&self) -> (seq: Option<u64>)
        ensures
            seq == (if self@.events.len() > 0 {
                Some(self@.events[0].seq)
            } else {
                None
            }),
    {
        if self.events.len() > 0 {
            Some(self.events[0].seq)
        } else {
            None
        }
    }
}

/// Events stay without a gap: the next one has the next number.
pub proof fn pushing_leaves_no_gap(log: EventsModel, kind: EventKind)
    requires
        log.without_gaps(),
        log.seq < u64::MAX,
    ensures
        log.pushed(kind).without_gaps(),
        log.pushed(kind).seq == log.seq + 1,
        log.pushed(kind).events.last().seq == log.seq + 1,
{
}

/// A watcher that has seen everything up to a number still in the buffer
/// misses nothing: it is told of every later event, each once and in order.
pub proof fn since_misses_nothing(log: EventsModel, after: u64)
    requires
        log.without_gaps(),
        log.seq < u64::MAX,
        log.events.len() > 0,
        log.events[0].seq <= after + 1,
        after <= log.seq,
    ensures
        log.since(after).len() == log.seq - after,
        forall|i: int|
            0 <= i < log.since(after).len() ==> (#[trigger] log.since(after)[i]).seq == after + 1 + i,
{
    let newer = |event: StreamEvent| event.seq > after;
    let first = after + 1 - log.events[0].seq;
    assert(log.events =~= log.events.take(log.events.len() as int));
    filter_of_suffix(log.events, newer, first, log.events.len() as int);
    assert(log.since(after) =~= log.events.skip(first));
}

/// Filtering out a front part leaves the rest.
proof fn filter_of_suffix(
    events: Seq<StreamEvent>,
    keep: spec_fn(StreamEvent) -> bool,
    first: int,
    n: int,
)
    requires
        0 <= first <= events.len(),
        0 <= n <= events.len(),
        forall|i: int| 0 <= i < first ==> !keep(#[trigger] events[i]),
        forall|i: int| first <= i < events.len() ==> keep(#[trigger] events[i]),
    ensures
        n >= first ==> events.take(n).filter(keep) == events.subrange(first, n),
        n < first ==> events.take(n).filter(keep) == Seq::<StreamEvent>::empty(),
        n == events.len() ==> events.filter(keep) == events.skip(first),
    decreases n,
{
    reveal(Seq::filter);
    if n > 0 {
        filter_of_suffix(events, keep, first, n - 1);
        take_one_more(events, n - 1);
        if n - 1 >= first {
            assert(events.subrange(first, n - 1).push(events[n - 1]) =~= events.subrange(first, n));
        } else if n == first {
            assert(events.subrange(first, n) =~= Seq::<StreamEvent>::empty());
        }
    } else if first == 0 {
        assert(events.subrange(0, 0) =~= Seq::<StreamEvent>::empty());
    }
    if n == events.len() {
        assert(events.take(n) =~= events);
        assert(events.subrange(first, n) =~= events.skip(first));
    }
}

} // verus!
