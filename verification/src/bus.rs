//! The in-process typed publish/subscribe event bus.
//!
//! Publishing appends an event to a shared log and never blocks on any
//! consumer.  Each subscription names the event kinds it wants and owns a
//! cursor into the log; polling hands over, exactly once and in publish
//! order, every logged event of a subscribed kind that was published after
//! the subscription was made.  A slow or failing consumer only leaves its
//! own cursor behind; it cannot affect the log or any other subscription.

use vstd::prelude::*;
use crate::messages::{Event, EventKind};

verus! {

/// One subscription: the kinds wanted, the scan cursor, and the ghost
/// record of everything handed over so far.
pub struct Subscription {
    pub kinds: Vec<EventKind>,
    pub cursor: usize,
    /// Index where this subscription entered the log.
    pub start: Ghost<int>,
    /// Every event handed over so far, in order.
    pub delivered: Ghost<Seq<Event>>,
}

/// The bus: an append-only event log and the registered subscriptions.
pub struct EventBus {
    pub log: Vec<Event>,
    pub subs: Vec<Subscription>,
}

/// Whether a subscription with these kinds takes the event.
pub open spec fn wants(kinds: Seq<EventKind>, e: Event) -> bool {
    kinds.contains(e.spec_kind())
}

impl Subscription {
    /// The events this subscription must see from a log: those of a wanted
    /// kind, published at or after its start, up to its cursor.
    pub open spec fn seen(&self, log: Seq<Event>) -> Seq<Event> {
        log.subrange(self.start@, self.cursor as int).filter(
            |e: Event| wants(self.kinds@, e),
        )
    }

    /// The subscription is consistent with the log.
    pub open spec fn wf(&self, log: Seq<Event>) -> bool {
        &&& 0 <= self.start@ <= self.cursor <= log.len()
        &&& self.delivered@ == self.seen(log)
    }
}

impl EventBus {
    /// Every subscription is consistent with the log.
    pub open spec fn wf(&self) -> bool {
        forall|i: int| 0 <= i < self.subs@.len() ==> (#[trigger] self.subs@[i]).wf(self.log@)
    }

    /// An empty bus.
    pub fn new() -> (r: EventBus)
        ensures
            r.wf(),
            r.log@.len() == 0,
            r.subs@.len() == 0,
    {
        EventBus { log: Vec::new(), subs: Vec::new() }
    }

    /// Register a subscription for the given kinds.  Only events published
    /// from now on are handed to it.  Returns the subscription's id.
    pub fn subscribe(&mut self, kinds: Vec<EventKind>) -> (id: usize)
        requires
            old(self).wf(),
        ensures
            final(self).wf(),
            id == old(self).subs@.len(),
            final(self).log@ == old(self).log@,
            final(self).subs@.len() == old(self).subs@.len() + 1,
            forall|i: int|
                0 <= i < old(self).subs@.len() ==> final(self).subs@[i] == old(self).subs@[i],
            final(self).subs@[id as int].kinds@ == kinds@,
            final(self).subs@[id as int].cursor == old(self).log@.len(),
            final(self).subs@[id as int].delivered@ == Seq::<Event>::empty(),
    {
        let id = self.subs.len();
        let cursor = self.log.len();
        let sub = Subscription {
            kinds,
            cursor,
            start: Ghost(cursor as int),
            delivered: Ghost(Seq::empty()),
        };
        proof {
            assert(self.log@.subrange(cursor as int, cursor as int) =~= Seq::<Event>::empty());
            assert(Seq::<Event>::empty().filter(|e: Event| wants(sub.kinds@, e))
                =~= Seq::<Event>::empty()) by {
                reveal(Seq::filter);
            }
        }
        self.subs.push(sub);
        id
    }

    /// Append an event to the log.  No subscription's view of the past
    /// changes, and the publisher never waits on a consumer.
    pub fn publish(&mut self, e: Event)
        requires
            old(self).wf(),
        ensures
            final(self).wf(),
            final(self).log@ == old(self).log@.push(e),
            final(self).subs@ == old(self).subs@,
    {
        self.log.push(e);
        proof {
            assert forall|i: int| 0 <= i < self.subs@.len() implies (#[trigger] self.subs@[i]).wf(
                self.log@,
            ) by {
                let s = self.subs@[i];
                assert(s.wf(old(self).log@));
                assert(self.log@.subrange(s.start@, s.cursor as int) =~= old(self).log@.subrange(
                    s.start@,
                    s.cursor as int,
                ));
            }
        }
    }

    /// The number of registered subscriptions.
    pub fn sub_count(&self) -> (n: usize)
        ensures
            n == self.subs@.len(),
    {
        self.subs.len()
    }

    /// Read the event at a log position.
    pub fn event_at(&self, i: usize) -> (e: &Event)
        requires
            i < self.log@.len(),
        ensures
            *e == self.log@[i as int],
    {
        &self.log[i]
    }

    /// Hand subscription `id` its next event, as a log position.
    ///
    /// Returns the position of the first not-yet-scanned logged event of a
    /// wanted kind, advancing the cursor past it, or `None` after scanning
    /// to the end of the log.  Each logged event of a wanted kind is
    /// returned exactly once over the life of the subscription, in publish
    /// order, as the ghost `delivered` record states.
    pub fn poll(&mut self, id: usize) -> (r: Option<usize>)
        requires
            old(self).wf(),
            id < old(self).subs@.len(),
        ensures
            final(self).wf(),
            final(self).log@ == old(self).log@,
            final(self).subs@.len() == old(self).subs@.len(),
            forall|i: int|
                0 <= i < old(self).subs@.len() && i != id ==> final(self).subs@[i] == old(
                    self,
                ).subs@[i],
            final(self).subs@[id as int].kinds@ == old(self).subs@[id as int].kinds@,
            final(self).subs@[id as int].start@ == old(self).subs@[id as int].start@,
            match r {
                Some(pos) => {
                    &&& old(self).subs@[id as int].cursor <= pos < old(self).log@.len()
                    &&& wants(old(self).subs@[id as int].kinds@, old(self).log@[pos as int])
                    &&& forall|j: int|
                        old(self).subs@[id as int].cursor <= j < pos ==> !wants(
                            old(self).subs@[id as int].kinds@,
                            old(self).log@[j],
                        )
                    &&& final(self).subs@[id as int].cursor == pos + 1
                    &&& final(self).subs@[id as int].delivered@ == old(
                        self,
                    ).subs@[id as int].delivered@.push(old(self).log@[pos as int])
                },
                None => {
                    &&& forall|j: int|
                        old(self).subs@[id as int].cursor <= j < old(self).log@.len() ==> !wants(
                            old(self).subs@[id as int].kinds@,
                            old(self).log@[j],
                        )
                    &&& final(self).subs@[id as int].cursor == old(self).log@.len()
                    &&& final(self).subs@[id as int].delivered@ == old(
                        self,
                    ).subs@[id as int].delivered@
                },
            },
    {
        let ghost start = self.subs@[id as int].start@;
        let ghost kinds0 = self.subs@[id as int].kinds@;
        let ghost delivered0 = self.subs@[id as int].delivered@;
        let ghost cursor0 = self.subs@[id as int].cursor as int;
        let total = self.log.len();
        let mut cur = self.subs[id].cursor;
        loop
            invariant
                self.wf(),
                id < self.subs@.len(),
                self.log@.len() == total,
                self.subs@[id as int].cursor <= cur <= total,
                self.subs@[id as int].start@ == start,
                self.subs@[id as int].kinds@ == kinds0,
                self.subs@[id as int].delivered@ == delivered0,
                self.subs@[id as int].cursor == cursor0,
                cursor0 <= cur,
                forall|j: int| cursor0 <= j < cur ==> !wants(kinds0, self.log@[j]),
                self.log@ == old(self).log@,
                self.subs@ == old(self).subs@,
            ensures
                self.log@ == old(self).log@,
                self.subs@ == old(self).subs@,
                cursor0 <= cur <= total,
                forall|j: int| cursor0 <= j < cur ==> !wants(kinds0, self.log@[j]),
                cur < total ==> wants(kinds0, self.log@[cur as int]),
                cur == total || wants(kinds0, self.log@[cur as int]),
            decreases total - cur,
        {
            if cur == total {
                break;
            }
            let e = &self.log[cur];
            let ghost ek = e.spec_kind();
            let mut matched = false;
            let mut k: usize = 0;
            let klen = self.subs[id].kinds.len();
            while k < klen
                invariant
                    id < self.subs@.len(),
                    self.subs@[id as int].kinds@ == kinds0,
                    ek == e.spec_kind(),
                    klen == kinds0.len(),
                    k <= klen,
                    matched ==> kinds0.contains(ek),
                    !matched ==> forall|t: int| 0 <= t < k ==> kinds0[t] != ek,
                decreases klen - k,
            {
                if self.subs[id].kinds[k] == e.kind() {
                    proof {
                        assert(kinds0[k as int] == ek);
                    }
                    matched = true;
                    k = klen;
                } else {
                    k = k + 1;
                }
            }
            if matched {
                proof {
                    assert(wants(kinds0, self.log@[cur as int]));
                }
                break;
            }
            proof {
                assert(forall|t: int| 0 <= t < kinds0.len() ==> kinds0[t] != ek);
                assert(!kinds0.contains(ek));
                assert(!wants(kinds0, self.log@[cur as int]));
            }
            cur = cur + 1;
        }
        if cur == total {
            let sub = &mut self.subs[id];
            sub.cursor = total;
            proof {
                lemma_filter_skip_unwanted(self.log@, kinds0, start, cursor0, total as int);
                let s = self.subs@[id as int];
                assert(s.wf(self.log@));
                assert forall|i: int| 0 <= i < self.subs@.len() implies (
                #[trigger] self.subs@[i]).wf(self.log@) by {
                    if i != id {
                        assert(self.subs@[i] == old(self).subs@[i]);
                    }
                }
            }
            None
        } else {
            let ghost e = self.log@[cur as int];
            let sub = &mut self.subs[id];
            sub.cursor = cur + 1;
            sub.delivered = Ghost(delivered0.push(e));
            proof {
                lemma_filter_skip_unwanted(self.log@, kinds0, start, cursor0, cur as int);
                lemma_filter_extend(self.log@, kinds0, start, cur as int);
                let s = self.subs@[id as int];
                assert(s.wf(self.log@));
                assert forall|i: int| 0 <= i < self.subs@.len() implies (
                #[trigger] self.subs@[i]).wf(self.log@) by {
                    if i != id {
                        assert(self.subs@[i] == old(self).subs@[i]);
                    }
                }
            }
            Some(cur)
        }
    }
}

/// Filtering is unchanged by widening the window over unwanted events.
proof fn lemma_filter_skip_unwanted(
    log: Seq<Event>,
    kinds: Seq<EventKind>,
    start: int,
    a: int,
    b: int,
)
    requires
        0 <= start <= a <= b <= log.len(),
        forall|j: int| a <= j < b ==> !wants(kinds, log[j]),
    ensures
        log.subrange(start, b).filter(|e: Event| wants(kinds, e)) == log.subrange(start, a).filter(
            |e: Event| wants(kinds, e),
        ),
    decreases b - a,
{
    if a < b {
        lemma_filter_skip_unwanted(log, kinds, start, a, b - 1);
        assert(log.subrange(start, b).drop_last() =~= log.subrange(start, b - 1));
        assert(log.subrange(start, b).last() == log[b - 1]);
        reveal(Seq::filter);
    }
}

/// Filtering over one more, wanted, event appends that event.
proof fn lemma_filter_extend(log: Seq<Event>, kinds: Seq<EventKind>, start: int, p: int)
    requires
        0 <= start <= p < log.len(),
        wants(kinds, log[p]),
    ensures
        log.subrange(start, p + 1).filter(|e: Event| wants(kinds, e)) == log.subrange(
            start,
            p,
        ).filter(|e: Event| wants(kinds, e)).push(log[p]),
{
    assert(log.subrange(start, p + 1).drop_last() =~= log.subrange(start, p));
    assert(log.subrange(start, p + 1).last() == log[p]);
    reveal(Seq::filter);
}

} // verus!
