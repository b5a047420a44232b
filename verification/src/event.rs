//! The signature event, and the rule that keeps only complete ones.

use crate::datetime::Timestamp;
use crate::text::string_of;
use vstd::prelude::*;

verus! {

/// A signature event as the contracts speak of it.
pub struct EventView {
    pub geolocation: Option<Seq<char>>,
    pub ip_address: Option<Seq<char>>,
    pub signed_at: Timestamp,
    pub user_agent: Option<Seq<char>>,
}

impl EventView {
    /// Geolocation, IP address and user agent are all present.
    pub open spec fn is_complete(self) -> bool {
        self.geolocation is Some && self.ip_address is Some && self.user_agent is Some
    }
}

/// Who signed from where: the time of the event, and the geolocation, IP
/// address and device text that the audit trail gives for it.
#[derive(Debug, PartialEq, Eq, Clone)]
pub struct SignatureEvent {
    pub geolocation: Option<String>,
    pub ip_address: Option<String>,
    pub signed_at: Timestamp,
    pub user_agent: Option<String>,
}

/// The view of a text that may be absent.
pub open spec fn string_view(text: Option<String>) -> Option<Seq<char>> {
    match text {
        Some(s) => Some(s@),
        None => None,
    }
}

impl View for SignatureEvent {
    type V = EventView;

    open spec fn view(&self) -> EventView {
        EventView {
            geolocation: string_view(self.geolocation),
            ip_address: string_view(self.ip_address),
            signed_at: self.signed_at,
            user_agent: string_view(self.user_agent),
        }
    }
}

/// The views of a sequence of events.
pub open spec fn event_views(events: Seq<SignatureEvent>) -> Seq<EventView> {
    events.map_values(|e: SignatureEvent| e@)
}

/// The view of an event that may be absent.
pub open spec fn candidate_view(candidate: Option<SignatureEvent>) -> Option<EventView> {
    match candidate {
        Some(e) => Some(e@),
        None => None,
    }
}

/// The views of a sequence of events that may be absent.
pub open spec fn candidate_views(candidates: Seq<Option<SignatureEvent>>) -> Seq<
    Option<EventView>,
> {
    candidates.map_values(|c: Option<SignatureEvent>| candidate_view(c))
}

/// Whether a candidate is an event with all its fields.
pub open spec fn is_kept(candidate: Option<EventView>) -> bool {
    candidate matches Some(e) && e.is_complete()
}

/// The complete events among the candidates, in the candidates' order.
pub open spec fn complete_events(candidates: Seq<Option<EventView>>) -> Seq<EventView>
    decreases candidates.len(),
{
    if candidates.len() == 0 {
        Seq::empty()
    } else if is_kept(candidates.last()) {
        complete_events(candidates.drop_last()).push(candidates.last().unwrap())
    } else {
        complete_events(candidates.drop_last())
    }
}

/// Every event that is kept is complete.
pub proof fn lemma_kept_events_are_complete(candidates: Seq<Option<EventView>>)
    ensures
        forall|k: int|
            0 <= k < complete_events(candidates).len() ==> (#[trigger] complete_events(
                candidates,
            )[k]).is_complete(),
    decreases candidates.len(),
{
    if candidates.len() > 0 {
        let head = complete_events(candidates.drop_last());
        lemma_kept_events_are_complete(candidates.drop_last());
        assert forall|k: int| 0 <= k < complete_events(candidates).len() implies (
        #[trigger] complete_events(candidates)[k]).is_complete() by {
            if k < head.len() {
                assert(complete_events(candidates)[k] == head[k]);
            }
        }
    }
}

/// The events kept from two runs of candidates, one after the other, are
/// those kept from the first followed by those kept from the second.
pub proof fn lemma_complete_events_concat(
    first: Seq<Option<EventView>>,
    second: Seq<Option<EventView>>,
)
    ensures
        complete_events(first + second) == complete_events(first) + complete_events(second),
    decreases second.len(),
{
    if second.len() == 0 {
        assert(first + second =~= first);
        assert(complete_events(first) + complete_events(second) =~= complete_events(first));
    } else {
        lemma_complete_events_concat(first, second.drop_last());
        assert((first + second).drop_last() =~= first + second.drop_last());
        assert((first + second).last() == second.last());
        if is_kept(second.last()) {
            assert((complete_events(first) + complete_events(second.drop_last())).push(
                second.last().unwrap(),
            ) =~= complete_events(first) + complete_events(second));
        }
    }
}

/// A candidate that is absent or incomplete leaves no trace: the events
/// kept are the same with it as without it, wherever it stands.
pub proof fn lemma_dropped_candidate_leaves_no_trace(
    before: Seq<Option<EventView>>,
    candidate: Option<EventView>,
    after: Seq<Option<EventView>>,
)
    requires
        !is_kept(candidate),
    ensures
        complete_events(before.push(candidate) + after) == complete_events(before + after),
{
    lemma_complete_events_concat(before.push(candidate), after);
    lemma_complete_events_concat(before, after);
    assert(before.push(candidate).drop_last() =~= before);
}

/// Where every candidate is a complete event, all of them are kept, each in
/// its place.
pub proof fn lemma_complete_candidates_are_all_kept(candidates: Seq<Option<EventView>>)
    requires
        forall|i: int| 0 <= i < candidates.len() ==> is_kept(#[trigger] candidates[i]),
    ensures
        complete_events(candidates).len() == candidates.len(),
        forall|i: int|
            0 <= i < candidates.len() ==> candidates[i] == Some(
                #[trigger] complete_events(candidates)[i],
            ),
    decreases candidates.len(),
{
    if candidates.len() > 0 {
        let head = candidates.drop_last();
        assert forall|i: int| 0 <= i < head.len() implies is_kept(#[trigger] head[i]) by {
            assert(head[i] == candidates[i]);
        }
        lemma_complete_candidates_are_all_kept(head);
        assert(is_kept(candidates.last()));
        assert forall|i: int| 0 <= i < candidates.len() implies candidates[i] == Some(
            #[trigger] complete_events(candidates)[i],
        ) by {
            if i < head.len() {
                assert(head[i] == candidates[i]);
            }
        }
    }
}

/// The events kept are exactly the complete candidates, in the candidates'
/// order: `positions[k]` is the place among the candidates of the `k`-th
/// event kept, the places rise, and no complete candidate is missing.
pub proof fn lemma_kept_events_keep_their_order(candidates: Seq<Option<EventView>>) -> (positions:
    Seq<int>)
    ensures
        positions.len() == complete_events(candidates).len(),
        forall|k: int|
            0 <= k < positions.len() ==> 0 <= #[trigger] positions[k] < candidates.len()
                && candidates[positions[k]] == Some(complete_events(candidates)[k]),
        forall|j: int, k: int|
            0 <= j < k < positions.len() ==> #[trigger] positions[j] < #[trigger] positions[k],
        forall|i: int|
            0 <= i < candidates.len() && is_kept(#[trigger] candidates[i]) ==> positions.contains(
                i,
            ),
    decreases candidates.len(),
{
    if candidates.len() == 0 {
        Seq::empty()
    } else {
        let head = candidates.drop_last();
        let inner = lemma_kept_events_keep_their_order(head);
        let last = candidates.len() - 1;
        assert forall|k: int| 0 <= k < inner.len() implies candidates[#[trigger] inner[k]]
            == head[inner[k]] by {}
        if is_kept(candidates.last()) {
            let positions = inner.push(last);
            assert forall|i: int|
                0 <= i < candidates.len() && is_kept(
                    #[trigger] candidates[i],
                ) implies positions.contains(i) by {
                if i < last {
                    assert(head[i] == candidates[i]);
                    let k = choose|k: int| 0 <= k < inner.len() && inner[k] == i;
                    assert(positions[k] == i);
                } else {
                    assert(positions[inner.len() as int] == i);
                }
            }
            positions
        } else {
            assert forall|i: int|
                0 <= i < candidates.len() && is_kept(#[trigger] candidates[i]) implies inner.contains(
                i,
            ) by {
                assert(head[i] == candidates[i]);
            }
            inner
        }
    }
}

/// A text as an owned string, where there is one.
pub fn optional_string(text: &Option<Vec<char>>) -> (r: Option<String>)
    ensures
        match text {
            Some(t) => r matches Some(s) && s@ == t@,
            None => r is None,
        },
{
    match text {
        Some(t) => Some(string_of(t)),
        None => None,
    }
}

impl SignatureEvent {
    /// Whether geolocation, IP address and user agent are all present.
    pub fn is_complete(&self) -> (r: bool)
        ensures
            r == self@.is_complete(),
    {
        self.geolocation.is_some() && self.ip_address.is_some() && self.user_agent.is_some()
    }
}

/// Keeps the candidates that are complete events, in their order.
pub fn retain_complete(candidates: Vec<Option<SignatureEvent>>) -> (r: Vec<SignatureEvent>)
    ensures
        event_views(r@) == complete_events(candidate_views(candidates@)),
        forall|k: int| 0 <= k < r@.len() ==> candidates@.contains(Some(#[trigger] r@[k])),
{
    let mut events: Vec<SignatureEvent> = Vec::new();
    let ghost all = candidate_views(candidates@);
    assert(all.take(0) =~= Seq::<Option<EventView>>::empty());
    for candidate in it: candidates
        invariant
            it.seq() == candidates@,
            all == candidate_views(candidates@),
            event_views(events@) == complete_events(all.take(it.index())),
            forall|k: int|
                0 <= k < events@.len() ==> candidates@.contains(Some(#[trigger] events@[k])),
    {
        proof {
            let i = it.index();
            assert(all.take(i + 1).drop_last() =~= all.take(i));
            assert(all.take(i + 1).last() == candidate_view(candidate));
        }
        if let Some(event) = candidate {
            if event.is_complete() {
                proof {
                    assert(event_views(events@.push(event)) =~= event_views(events@).push(event@));
                    assert(candidates@[it.index()] == Some(event));
                }
                events.push(event);
            }
        }
    }
    assert(all.take(candidates@.len() as int) =~= all);
    events
}

} // verus!
