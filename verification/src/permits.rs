//! Fetches that go on at the same time, and the request permits that they share.

use vstd::prelude::*;

use crate::fetch::{FetchView, ReplyView, fetch_start};
use crate::storage::MAX_CONCURRENT_REQUESTS;

verus! {

/// What happens to the fetches of a storage, one thing at a time.
pub enum FetchEvent {
    /// A fetch begins.
    Start { piece: nat, url: Seq<char>, range: Seq<char> },
    /// The fetch with this number gets a reply.
    Reply { fetch: int, reply: ReplyView },
    /// The fetch with this number is over, or is given up.
    Leave { fetch: int },
}

/// How many of the fetches hold a request permit. These are the fetches whose request has been
/// sent and whose attempt is not over.
pub open spec fn holders(fetches: Seq<FetchView>) -> nat
    decreases fetches.len(),
{
    if fetches.len() == 0 {
        0
    } else {
        holders(fetches.drop_last()) + held(fetches.last())
    }
}

/// How many permits a fetch holds.
pub open spec fn held(fetch: FetchView) -> nat {
    if fetch.holds_permit() {
        1
    } else {
        0
    }
}

/// How many permits can still be granted.
pub open spec fn permits_left(fetches: Seq<FetchView>) -> int {
    MAX_CONCURRENT_REQUESTS - holders(fetches)
}

/// Whether `event` can happen: a reply answers what its fetch waits for, and a permit is granted
/// only while there is one left.
pub open spec fn can_happen(fetches: Seq<FetchView>, event: FetchEvent) -> bool {
    match event {
        FetchEvent::Start { .. } => true,
        FetchEvent::Reply { fetch, reply } => {
            &&& 0 <= fetch < fetches.len()
            &&& fetches[fetch].expects(reply)
            &&& reply is PermitGranted ==> permits_left(fetches) > 0
        },
        FetchEvent::Leave { fetch } => 0 <= fetch < fetches.len(),
    }
}

/// The fetches after `event`.
pub open spec fn fetches_after(fetches: Seq<FetchView>, event: FetchEvent) -> Seq<FetchView> {
    match event {
        FetchEvent::Start { piece, url, range } => fetches.push(fetch_start(piece, url, range)),
        FetchEvent::Reply { fetch, reply } => fetches.update(
            fetch,
            fetches[fetch].next(reply).0,
        ),
        FetchEvent::Leave { fetch } => fetches.remove(fetch),
    }
}

/// The fetches after all of `events`, where there were none before.
pub open spec fn fetches_after_all(events: Seq<FetchEvent>) -> Seq<FetchView>
    decreases events.len(),
{
    if events.len() == 0 {
        Seq::empty()
    } else {
        fetches_after(fetches_after_all(events.drop_last()), events.last())
    }
}

/// Whether `events` can happen one after the other, where there were no fetches before.
pub open spec fn all_can_happen(events: Seq<FetchEvent>) -> bool
    decreases events.len(),
{
    events.len() > 0 ==> {
        &&& all_can_happen(events.drop_last())
        &&& can_happen(fetches_after_all(events.drop_last()), events.last())
    }
}

proof fn lemma_update_holders(fetches: Seq<FetchView>, at: int, fetch: FetchView)
    requires
        0 <= at < fetches.len(),
    ensures
        holders(fetches.update(at, fetch)) == holders(fetches) - held(fetches[at]) + held(fetch),
    decreases fetches.len(),
{
    let updated = fetches.update(at, fetch);
    if at == fetches.len() - 1 {
        assert(updated.drop_last() =~= fetches.drop_last());
    } else {
        lemma_update_holders(fetches.drop_last(), at, fetch);
        assert(updated.drop_last() =~= fetches.drop_last().update(at, fetch));
    }
}

proof fn lemma_remove_holders(fetches: Seq<FetchView>, at: int)
    requires
        0 <= at < fetches.len(),
    ensures
        holders(fetches.remove(at)) == holders(fetches) - held(fetches[at]),
    decreases fetches.len(),
{
    let left = fetches.remove(at);
    if at == fetches.len() - 1 {
        assert(left =~= fetches.drop_last());
    } else {
        lemma_remove_holders(fetches.drop_last(), at);
        assert(left.drop_last() =~= fetches.drop_last().remove(at));
        assert(left.last() == fetches.last());
    }
}

/// A permit leaves the pool exactly where one is granted, with the request that is sent for it,
/// and comes back to the pool exactly where the attempt that holds it is over, whatever the
/// reply, or where its fetch leaves. No other event moves a permit.
pub proof fn law_permits_are_conserved(fetches: Seq<FetchView>, event: FetchEvent)
    requires
        can_happen(fetches, event),
    ensures
        match event {
            FetchEvent::Start { .. } => permits_left(fetches_after(fetches, event))
                == permits_left(fetches),
            FetchEvent::Reply { fetch, reply } => {
                let (next, step) = fetches[fetch].next(reply);
                &&& permits_left(fetches_after(fetches, event)) == permits_left(fetches) + (
                if step is Send {
                    -1int
                } else if held(fetches[fetch]) == 1 && !(step is ReadBody) {
                    1int
                } else {
                    0int
                })
                &&& step is Send <==> reply is PermitGranted
                &&& next.holds_permit() <==> step is Send || step is ReadBody
            },
            FetchEvent::Leave { fetch } => permits_left(fetches_after(fetches, event))
                == permits_left(fetches) + held(fetches[fetch]),
        },
{
    match event {
        FetchEvent::Start { piece, url, range } => {
            let started = fetches.push(fetch_start(piece, url, range));
            assert(started.drop_last() =~= fetches);
        },
        FetchEvent::Reply { fetch, reply } => {
            lemma_update_holders(fetches, fetch, fetches[fetch].next(reply).0);
        },
        FetchEvent::Leave { fetch } => {
            lemma_remove_holders(fetches, fetch);
        },
    }
}

/// Where no fetch holds a permit, all of them can be granted.
pub proof fn law_idle_fetches_leave_all_permits(fetches: Seq<FetchView>)
    requires
        forall|i: int| 0 <= i < fetches.len() ==> !(#[trigger] fetches[i]).holds_permit(),
    ensures
        permits_left(fetches) == 8,
    decreases fetches.len(),
{
    if fetches.len() > 0 {
        assert forall|i: int| 0 <= i < fetches.len() - 1 implies !(
        #[trigger] fetches.drop_last()[i]).holds_permit() by {
            assert(!fetches[i].holds_permit());
        }
        law_idle_fetches_leave_all_permits(fetches.drop_last());
    }
}

/// Where at most as many requests as allowed are under way, no event makes them more.
pub proof fn law_event_keeps_the_limit(fetches: Seq<FetchView>, event: FetchEvent)
    requires
        can_happen(fetches, event),
        holders(fetches) <= MAX_CONCURRENT_REQUESTS,
    ensures
        holders(fetches_after(fetches, event)) <= MAX_CONCURRENT_REQUESTS,
{
    law_permits_are_conserved(fetches, event);
}

/// However many fetches go on at the same time, and whatever happens to them, at no moment are
/// more requests under way than `MAX_CONCURRENT_REQUESTS`.
pub proof fn law_requests_stay_within_the_limit(events: Seq<FetchEvent>, moment: int)
    requires
        all_can_happen(events),
        0 <= moment <= events.len(),
    ensures
        holders(fetches_after_all(events.take(moment))) <= MAX_CONCURRENT_REQUESTS,
        holders(fetches_after_all(events.take(moment))) <= 8,
    decreases events.len(),
{
    if events.len() == 0 {
        assert(events.take(moment).len() == 0);
    } else if moment < events.len() {
        law_requests_stay_within_the_limit(events.drop_last(), moment);
        assert(events.drop_last().take(moment) =~= events.take(moment));
    } else {
        let before = events.drop_last();
        law_requests_stay_within_the_limit(before, before.len() as int);
        assert(before.take(before.len() as int) =~= before);
        assert(events.take(moment) =~= events);
        law_event_keeps_the_limit(fetches_after_all(before), events.last());
    }
}

} // verus!
