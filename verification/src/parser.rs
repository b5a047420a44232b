//! From the text of a document to its signature events.

use crate::datetime::{parsed_datetime, TIMESTAMP_LAYOUT, TIMESTAMP_PATTERN};
use crate::error::AppError;
use crate::event::{
    candidate_view, candidate_views, complete_events, event_views, is_kept,
    lemma_kept_events_are_complete, lemma_kept_events_keep_their_order, retain_complete,
    EventView, SignatureEvent,
};
use crate::extractor::{candidate_of, extract_record};
use crate::locator::{lemma_section_needs_marker, locate_section, section_of, SECTION_MARKER};
use crate::pattern::{compile_failure, first_match, Pattern};
use crate::segmenter::{content_lines, records_of, segment_records};
use crate::text::{chars_of, lines_of, occurs_at, texts};
use vstd::prelude::*;
use vstd::string::StringExecFns;

verus! {

/// How the message begins where the pattern of time stamps does not
/// compile.
pub const PATTERN_FAILURE: &'static str = "Erro ao compilar regex de data: ";

/// The candidate event of each record.
pub open spec fn candidates_of(pattern: Seq<char>, records: Seq<Seq<char>>) -> Seq<
    Option<EventView>,
> {
    records.map_values(|record: Seq<char>| candidate_of(pattern, record))
}

/// The events of a section: the complete ones among the candidates of its
/// records, in the order of the records.
pub open spec fn events_of(pattern: Seq<char>, section: Seq<char>) -> Seq<EventView> {
    complete_events(candidates_of(pattern, records_of(pattern, section)))
}

/// Every event has a time whose fields lie in the ranges of their units.
pub open spec fn well_timed(events: Seq<SignatureEvent>) -> bool {
    forall|k: int| 0 <= k < events.len() ==> (#[trigger] events[k]).signed_at.well_formed()
}

/// Whether `result` is the outcome of parsing `text`.
///
/// - Without a section marker in `text`, the outcome is `EventsLogs`.
/// - With one, and where the pattern of time stamps does not compile, it is
///   `ParseSignature` with the reason after `PATTERN_FAILURE`.
/// - Else it is the events of the section where there are any, and
///   `DataNotFound` where there are none.
pub open spec fn parse_outcome(text: Seq<char>, result: Result<Vec<SignatureEvent>, AppError>)
    -> bool {
    match section_of(text) {
        None => result matches Err(error) && error is EventsLogs,
        Some(section) => match result {
            Ok(events) => compile_failure(TIMESTAMP_PATTERN@) is None && events@.len() > 0
                && event_views(events@) == events_of(TIMESTAMP_PATTERN@, section) && well_timed(
                events@,
            ),
            Err(AppError::DataNotFound) => compile_failure(TIMESTAMP_PATTERN@) is None
                && events_of(TIMESTAMP_PATTERN@, section).len() == 0,
            Err(AppError::ParseSignature(message)) => compile_failure(
                TIMESTAMP_PATTERN@,
            ) matches Some(reason) && message@ == PATTERN_FAILURE@ + reason,
            Err(_) => false,
        },
    }
}

/// A text in which the section marker occurs nowhere has one outcome:
/// `EventsLogs`.
pub proof fn lemma_no_marker_gives_events_logs(
    text: Seq<char>,
    result: Result<Vec<SignatureEvent>, AppError>,
)
    requires
        forall|at: int| !occurs_at(text, SECTION_MARKER@, at),
        parse_outcome(text, result),
    ensures
        result matches Err(error) && error is EventsLogs,
{
    lemma_section_needs_marker(text);
}

/// A section without a line of content has no events.
pub proof fn lemma_section_without_content_has_no_events(pattern: Seq<char>, section: Seq<char>)
    requires
        content_lines(lines_of(section)).len() == 0,
    ensures
        events_of(pattern, section).len() == 0,
{
    assert(records_of(pattern, section) =~= Seq::<Seq<char>>::empty());
    assert(candidates_of(pattern, records_of(pattern, section)) =~= Seq::<
        Option<EventView>,
    >::empty());
}

/// The events returned are exactly the records of the section that have a
/// readable time stamp and all three fields, in the order of the records.
/// `positions[k]` is the place among the records of the one that gave the
/// `k`-th event: the places rise, no such record is missing, and the time of
/// each event is the date and time read from the leftmost time stamp of its
/// record.
pub proof fn lemma_events_are_the_complete_records(
    text: Seq<char>,
    events: Vec<SignatureEvent>,
) -> (positions: Seq<int>)
    requires
        parse_outcome(text, Ok(events)),
    ensures
        section_of(text) is Some,
        positions.len() == events@.len(),
        ({
            let records = records_of(TIMESTAMP_PATTERN@, section_of(text).unwrap());
            &&& forall|k: int|
                0 <= k < positions.len() ==> 0 <= #[trigger] positions[k] < records.len()
                    && candidate_of(TIMESTAMP_PATTERN@, records[positions[k]]) == Some(
                    events@[k]@,
                )
            &&& forall|k: int|
                0 <= k < positions.len() ==> (first_match(
                    TIMESTAMP_PATTERN@,
                    records[#[trigger] positions[k]],
                ) matches Some(parts) && parsed_datetime(parts.1, TIMESTAMP_LAYOUT@) == Some(
                    events@[k]@.signed_at,
                ))
            &&& forall|i: int|
                0 <= i < records.len() && is_kept(
                    candidate_of(TIMESTAMP_PATTERN@, #[trigger] records[i]),
                ) ==> positions.contains(i)
        }),
        forall|j: int, k: int|
            0 <= j < k < positions.len() ==> #[trigger] positions[j] < #[trigger] positions[k],
{
    let records = records_of(TIMESTAMP_PATTERN@, section_of(text).unwrap());
    let candidates = candidates_of(TIMESTAMP_PATTERN@, records);
    let positions = lemma_kept_events_keep_their_order(candidates);
    assert forall|k: int| 0 <= k < positions.len() implies 0 <= #[trigger] positions[k]
        < records.len() && candidate_of(TIMESTAMP_PATTERN@, records[positions[k]]) == Some(
        events@[k]@,
    ) by {
        assert(event_views(events@)[k] == events@[k]@);
        assert(candidates[positions[k]] == candidate_of(
            TIMESTAMP_PATTERN@,
            records[positions[k]],
        ));
    }
    assert forall|i: int|
        0 <= i < records.len() && is_kept(
            candidate_of(TIMESTAMP_PATTERN@, #[trigger] records[i]),
        ) implies positions.contains(i) by {
        assert(candidates[i] == candidate_of(TIMESTAMP_PATTERN@, records[i]));
    }
    positions
}

/// No event that is returned lacks its geolocation, its IP address or its
/// device text: a record that does is left out, whatever the other records
/// hold.
pub proof fn lemma_returned_events_are_complete(text: Seq<char>, events: Vec<SignatureEvent>)
    requires
        parse_outcome(text, Ok(events)),
    ensures
        forall|k: int| 0 <= k < events@.len() ==> (#[trigger] events@[k])@.is_complete(),
{
    let section = section_of(text).unwrap();
    let candidates = candidates_of(
        TIMESTAMP_PATTERN@,
        records_of(TIMESTAMP_PATTERN@, section),
    );
    lemma_kept_events_are_complete(candidates);
    assert forall|k: int| 0 <= k < events@.len() implies (#[trigger] events@[k])@.is_complete() by {
        assert(event_views(events@)[k] == events@[k]@);
    }
}

/// Parsing has no hidden state: two outcomes for one text are the same
/// events in the same order, or the same failure.
pub proof fn lemma_parse_is_deterministic(
    text: Seq<char>,
    first: Result<Vec<SignatureEvent>, AppError>,
    second: Result<Vec<SignatureEvent>, AppError>,
)
    requires
        parse_outcome(text, first),
        parse_outcome(text, second),
    ensures
        match (first, second) {
            (Ok(a), Ok(b)) => event_views(a@) == event_views(b@),
            (Err(AppError::EventsLogs), Err(AppError::EventsLogs)) => true,
            (Err(AppError::DataNotFound), Err(AppError::DataNotFound)) => true,
            (Err(AppError::ParseSignature(a)), Err(AppError::ParseSignature(b))) => a@ == b@,
            _ => false,
        },
{
}

/// Reads the candidate event of each record.
pub fn extract_records(pattern: &Pattern, records: &Vec<Vec<char>>) -> (r: Vec<
    Option<SignatureEvent>,
>)
    ensures
        candidate_views(r@) == candidates_of(pattern@, texts(records@)),
        forall|i: int|
            0 <= i < r@.len() ==> (#[trigger] r@[i] matches Some(event)
                ==> event.signed_at.well_formed()),
{
    let mut candidates: Vec<Option<SignatureEvent>> = Vec::new();
    let mut i: usize = 0;
    while i < records.len()
        invariant
            i <= records.len(),
            candidate_views(candidates@) == candidates_of(pattern@, texts(records@)).take(
                i as int,
            ),
            forall|j: int|
                0 <= j < candidates@.len() ==> (#[trigger] candidates@[j] matches Some(event)
                    ==> event.signed_at.well_formed()),
        decreases records.len() - i,
    {
        let candidate = extract_record(pattern, &records[i]);
        proof {
            let all = candidates_of(pattern@, texts(records@));
            assert(texts(records@)[i as int] == records@[i as int]@);
            assert(all[i as int] == candidate_view(candidate));
            assert(all.take(i + 1) =~= all.take(i as int).push(candidate_view(candidate)));
            assert(candidate_views(candidates@.push(candidate)) =~= candidate_views(
                candidates@,
            ).push(candidate_view(candidate)));
        }
        candidates.push(candidate);
        i += 1;
    }
    assert(candidates_of(pattern@, texts(records@)).take(records@.len() as int)
        =~= candidates_of(pattern@, texts(records@)));
    candidates
}

/// The events of an audit-log section, `pattern` telling where a time stamp
/// stands; `DataNotFound` where the section has no complete event.
pub fn parse_section(pattern: &Pattern, section: &Vec<char>) -> (r: Result<
    Vec<SignatureEvent>,
    AppError,
>)
    ensures
        match r {
            Ok(events) => events@.len() > 0 && event_views(events@) == events_of(
                pattern@,
                section@,
            ) && well_timed(events@),
            Err(error) => error is DataNotFound && events_of(pattern@, section@).len() == 0,
        },
{
    let records = segment_records(pattern, section);
    let candidates = extract_records(pattern, &records);
    let ghost all = candidates@;
    let events = retain_complete(candidates);
    assert forall|k: int| 0 <= k < events@.len() implies (
    #[trigger] events@[k]).signed_at.well_formed() by {
        let i = choose|i: int| 0 <= i < all.len() && all[i] == Some(events@[k]);
        assert(all[i] matches Some(event) ==> event.signed_at.well_formed());
    }
    if events.len() == 0 {
        Err(AppError::DataNotFound)
    } else {
        Ok(events)
    }
}

/// The signature events in the text of a document.
///
/// Fails with `EventsLogs` where the text holds no section marker, with
/// `ParseSignature` where there is a section but the pattern of time stamps
/// does not compile, and with `DataNotFound` where the section holds no
/// complete event. Records that are incomplete or have no readable time
/// stamp are left out and are no failure.
pub fn parse_signature_events(full_text: &str) -> (r: Result<Vec<SignatureEvent>, AppError>)
    ensures
        parse_outcome(full_text@, r),
        section_of(full_text@) is None <==> (r matches Err(error) && error is EventsLogs),
        section_of(full_text@) is Some && compile_failure(TIMESTAMP_PATTERN@) is Some <==> (
        r matches Err(error) && error is ParseSignature),
        r matches Ok(events) ==> events@.len() > 0 && well_timed(events@) && event_views(events@)
            == events_of(TIMESTAMP_PATTERN@, section_of(full_text@).unwrap()),
{
    let text = chars_of(full_text);
    let section = match locate_section(&text) {
        Ok(section) => section,
        Err(error) => { return Err(error); },
    };
    match Pattern::new(TIMESTAMP_PATTERN) {
        Ok(pattern) => parse_section(&pattern, &section),
        Err(reason) => {
            let mut message = String::from_str(PATTERN_FAILURE);
            message.append(reason.as_str());
            Err(AppError::ParseSignature(message))
        },
    }
}

} // verus!
