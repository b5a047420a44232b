//! Reads the fields of one record: the time stamp, and what the labelled
//! lines give for geolocation, IP address and device.

use crate::datetime::{parsed_datetime, Timestamp, TIMESTAMP_LAYOUT, TIMESTAMP_PATTERN};
use crate::event::{candidate_view, optional_string, EventView, SignatureEvent};
use crate::pattern::{compile_failure, first_match, without_first_match, Pattern};
use crate::text::{
    chars_of, has_prefix, join_lines, joined, lines_of, split_lines, starts_with, string_of,
    subrange, texts, trim, trimmed,
};
use vstd::prelude::*;

verus! {

/// The label before the device text.
pub const DEVICE_LABEL: &'static str = "Dispositivo:";

/// The label before the geolocation, in decimal degrees.
pub const GEOLOCATION_LABEL: &'static str = "Geolocalização (DD):";

/// The label before the IP address.
pub const IP_LABEL: &'static str = "IP de acesso:";

/// The phrase that marks a line as device text although it has no label.
pub const CONTINUATION_PHRASE: &'static str = "Sistema Unico";

/// The label of the logical port, which no event keeps.
pub const LOGICAL_PORT_LABEL: &'static str = "Porta lógica:";

/// What a line of a record is, going by how it begins.
#[derive(Clone, Copy, Debug, PartialEq, Eq, Structural)]
pub enum LineKind {
    /// Begins with the device label.
    Device,
    /// Begins with the geolocation label.
    Geolocation,
    /// Begins with the IP address label.
    IpAddress,
    /// Begins with the continuation phrase.
    Continuation,
    /// Begins with the logical port label.
    LogicalPort,
    /// Begins with none of these.
    Other,
}

/// The kind of a line. Where a line begins with more than one of the
/// markers, the first in the order of `LineKind` decides.
pub open spec fn kind_of(line: Seq<char>) -> LineKind {
    if has_prefix(line, DEVICE_LABEL@) {
        LineKind::Device
    } else if has_prefix(line, GEOLOCATION_LABEL@) {
        LineKind::Geolocation
    } else if has_prefix(line, IP_LABEL@) {
        LineKind::IpAddress
    } else if has_prefix(line, CONTINUATION_PHRASE@) {
        LineKind::Continuation
    } else if has_prefix(line, LOGICAL_PORT_LABEL@) {
        LineKind::LogicalPort
    } else {
        LineKind::Other
    }
}

/// What stands after the label of a line, trimmed.
pub open spec fn value_after(line: Seq<char>, label: Seq<char>) -> Seq<char> {
    trimmed(line.skip(label.len() as int))
}

/// The fields gathered so far from the lines of a record, as the contracts
/// speak of them.
pub struct FieldsView {
    pub geolocation: Option<Seq<char>>,
    pub ip_address: Option<Seq<char>>,
    /// The pieces of device text, in the order they were met.
    pub user_agent_parts: Seq<Seq<char>>,
    /// Whether an unlabelled line now counts as device text.
    pub in_user_agent: bool,
}

impl FieldsView {
    /// No field seen, and not within device text.
    pub open spec fn empty() -> FieldsView {
        FieldsView {
            geolocation: None,
            ip_address: None,
            user_agent_parts: Seq::empty(),
            in_user_agent: false,
        }
    }

    /// These fields with one more piece of device text; unlabelled lines that
    /// follow count as device text.
    pub open spec fn with_user_agent_part(self, part: Seq<char>) -> FieldsView {
        FieldsView {
            geolocation: self.geolocation,
            ip_address: self.ip_address,
            user_agent_parts: self.user_agent_parts.push(part),
            in_user_agent: true,
        }
    }

    /// The fields after one more line, which is trimmed and not empty.
    pub open spec fn absorb(self, line: Seq<char>) -> FieldsView {
        match kind_of(line) {
            LineKind::Device => self.with_user_agent_part(value_after(line, DEVICE_LABEL@)),
            LineKind::Geolocation => FieldsView {
                geolocation: Some(value_after(line, GEOLOCATION_LABEL@)),
                ip_address: self.ip_address,
                user_agent_parts: self.user_agent_parts,
                in_user_agent: false,
            },
            LineKind::IpAddress => FieldsView {
                geolocation: self.geolocation,
                ip_address: Some(value_after(line, IP_LABEL@)),
                user_agent_parts: self.user_agent_parts,
                in_user_agent: false,
            },
            LineKind::Continuation => self.with_user_agent_part(line),
            LineKind::LogicalPort => self,
            LineKind::Other => if self.in_user_agent {
                self.with_user_agent_part(line)
            } else {
                self
            },
        }
    }

    /// The fields after the given lines, taken in order; empty lines count
    /// for nothing.
    pub open spec fn absorb_all(self, lines: Seq<Seq<char>>) -> FieldsView
        decreases lines.len(),
    {
        if lines.len() == 0 {
            self
        } else if lines.last().len() == 0 {
            self.absorb_all(lines.drop_last())
        } else {
            self.absorb_all(lines.drop_last()).absorb(lines.last())
        }
    }

    /// The device text: its pieces joined by line feeds, or nothing where
    /// there is no piece.
    pub open spec fn user_agent(self) -> Option<Seq<char>> {
        if self.user_agent_parts.len() == 0 {
            None
        } else {
            Some(joined(self.user_agent_parts))
        }
    }

    /// The event that these fields make with the given time.
    pub open spec fn event(self, signed_at: Timestamp) -> EventView {
        EventView {
            geolocation: self.geolocation,
            ip_address: self.ip_address,
            signed_at,
            user_agent: self.user_agent(),
        }
    }
}

/// The fields that the given lines make, taken in order from nothing.
pub open spec fn collected(lines: Seq<Seq<char>>) -> FieldsView {
    FieldsView::empty().absorb_all(lines)
}

/// Whether a line goes on with device text that has begun: it is not empty
/// and has no label of its own.
pub open spec fn continues_device_text(line: Seq<char>) -> bool {
    line.len() > 0 && (kind_of(line) is Continuation || kind_of(line) is Other)
}

/// A line of a record without its time stamp, if it has one, and trimmed.
pub open spec fn cleaned_line(pattern: Seq<char>, line: Seq<char>) -> Seq<char> {
    trimmed(without_first_match(pattern, line))
}

/// Each of the lines cleaned.
pub open spec fn cleaned_lines(pattern: Seq<char>, lines: Seq<Seq<char>>) -> Seq<Seq<char>> {
    lines.map_values(|line: Seq<char>| cleaned_line(pattern, line))
}

/// The candidate event of a record: none where `pattern` matches nowhere in
/// the record or the leftmost match is no date and time; else the event made
/// of that time and of the fields that the cleaned lines give.
pub open spec fn candidate_of(pattern: Seq<char>, record: Seq<char>) -> Option<EventView> {
    match first_match(pattern, record) {
        None => None,
        Some(parts) => match parsed_datetime(parts.1, TIMESTAMP_LAYOUT@) {
            None => None,
            Some(signed_at) => Some(
                collected(cleaned_lines(pattern, lines_of(record))).event(signed_at),
            ),
        },
    }
}

/// Taking two runs of lines one after the other is taking them as one run.
pub proof fn lemma_absorb_all_concat(
    fields: FieldsView,
    first: Seq<Seq<char>>,
    second: Seq<Seq<char>>,
)
    ensures
        fields.absorb_all(first + second) == fields.absorb_all(first).absorb_all(second),
    decreases second.len(),
{
    if second.len() == 0 {
        assert(first + second =~= first);
    } else {
        lemma_absorb_all_concat(fields, first, second.drop_last());
        assert((first + second).drop_last() =~= first + second.drop_last());
        assert((first + second).last() == second.last());
    }
}

/// Lines without a label that follow device text are added to it as they
/// stand, in their order, and change no other field.
pub proof fn lemma_unlabelled_lines_extend_device_text(fields: FieldsView, more: Seq<Seq<char>>)
    requires
        fields.in_user_agent,
        forall|i: int| 0 <= i < more.len() ==> continues_device_text(#[trigger] more[i]),
    ensures
        fields.absorb_all(more) == (FieldsView {
            geolocation: fields.geolocation,
            ip_address: fields.ip_address,
            user_agent_parts: fields.user_agent_parts + more,
            in_user_agent: true,
        }),
    decreases more.len(),
{
    if more.len() == 0 {
        assert(fields.user_agent_parts + more =~= fields.user_agent_parts);
    } else {
        let head = more.drop_last();
        assert forall|i: int| 0 <= i < head.len() implies continues_device_text(
            #[trigger] head[i],
        ) by {
            assert(head[i] == more[i]);
        }
        lemma_unlabelled_lines_extend_device_text(fields, head);
        assert(continues_device_text(more.last()));
        assert((fields.user_agent_parts + head).push(more.last()) =~= fields.user_agent_parts
            + more);
    }
}

/// Device text that runs over several lines is kept verbatim: after a line
/// with the device label and the lines without a label that follow it, the
/// pieces of device text are those held before, what stood after the label,
/// and each following line as it stands, in that order. This holds too where
/// one of the following lines begins with the continuation phrase.
pub proof fn lemma_device_text_is_kept_verbatim(
    fields: FieldsView,
    first: Seq<char>,
    more: Seq<Seq<char>>,
)
    requires
        kind_of(first) is Device,
        forall|i: int| 0 <= i < more.len() ==> continues_device_text(#[trigger] more[i]),
    ensures
        fields.absorb_all(seq![first] + more) == (FieldsView {
            geolocation: fields.geolocation,
            ip_address: fields.ip_address,
            user_agent_parts: fields.user_agent_parts.push(value_after(first, DEVICE_LABEL@))
                + more,
            in_user_agent: true,
        }),
        fields.user_agent_parts.len() == 0 ==> fields.absorb_all(
            seq![first] + more,
        ).user_agent() == Some(joined(seq![value_after(first, DEVICE_LABEL@)] + more)),
{
    let started = fields.absorb(first);
    assert(first.len() > 0) by {
        reveal_strlit("Dispositivo:");
    }
    assert(fields.absorb_all(seq![first]) == started) by {
        assert(seq![first].drop_last() =~= Seq::<Seq<char>>::empty());
        assert(seq![first].last() == first);
        assert(fields.absorb_all(Seq::<Seq<char>>::empty()) == fields);
    }
    lemma_absorb_all_concat(fields, seq![first], more);
    lemma_unlabelled_lines_extend_device_text(started, more);
    if fields.user_agent_parts.len() == 0 {
        assert(fields.user_agent_parts.push(value_after(first, DEVICE_LABEL@)) =~= seq![
            value_after(first, DEVICE_LABEL@),
        ]);
    }
}

/// Whether `signed_at` is the date and time read from the leftmost match of
/// the pattern in `record`, the match being a piece of the record.
pub open spec fn stamped_within(pattern: Seq<char>, record: Seq<char>, signed_at: Timestamp)
    -> bool {
    first_match(pattern, record) matches Some(parts) && parts.0 + parts.1 + parts.2 == record
        && parsed_datetime(parts.1, TIMESTAMP_LAYOUT@) == Some(signed_at)
}

/// The fields gathered so far from the lines of a record.
pub struct Fields {
    geolocation: Option<Vec<char>>,
    ip_address: Option<Vec<char>>,
    user_agent_parts: Vec<Vec<char>>,
    in_user_agent: bool,
}

/// The view of a text that may be absent.
pub open spec fn optional_text(text: Option<Vec<char>>) -> Option<Seq<char>> {
    match text {
        Some(t) => Some(t@),
        None => None,
    }
}

impl View for Fields {
    type V = FieldsView;

    closed spec fn view(&self) -> FieldsView {
        FieldsView {
            geolocation: optional_text(self.geolocation),
            ip_address: optional_text(self.ip_address),
            user_agent_parts: texts(self.user_agent_parts@),
            in_user_agent: self.in_user_agent,
        }
    }
}

/// The kind of a line.
pub fn classify_line(line: &Vec<char>) -> (kind: LineKind)
    ensures
        kind == kind_of(line@),
{
    if starts_with(line, &chars_of(DEVICE_LABEL)) {
        LineKind::Device
    } else if starts_with(line, &chars_of(GEOLOCATION_LABEL)) {
        LineKind::Geolocation
    } else if starts_with(line, &chars_of(IP_LABEL)) {
        LineKind::IpAddress
    } else if starts_with(line, &chars_of(CONTINUATION_PHRASE)) {
        LineKind::Continuation
    } else if starts_with(line, &chars_of(LOGICAL_PORT_LABEL)) {
        LineKind::LogicalPort
    } else {
        LineKind::Other
    }
}

/// What stands after the label that the line begins with, trimmed.
fn label_value(line: &Vec<char>, label: &str) -> (r: Vec<char>)
    requires
        has_prefix(line@, label@),
    ensures
        r@ == value_after(line@, label@),
{
    let label_chars = chars_of(label);
    let rest = subrange(line, label_chars.len(), line.len());
    trim(&rest)
}

impl Fields {
    /// No field seen yet.
    pub fn new() -> (r: Fields)
        ensures
            r@ == FieldsView::empty(),
    {
        let r = Fields {
            geolocation: None,
            ip_address: None,
            user_agent_parts: Vec::new(),
            in_user_agent: false,
        };
        assert(r@.user_agent_parts =~= Seq::empty());
        r
    }

    /// Adds a piece of device text.
    fn push_user_agent_part(&mut self, part: Vec<char>)
        ensures
            final(self)@ == old(self)@.with_user_agent_part(part@),
    {
        self.user_agent_parts.push(part);
        self.in_user_agent = true;
        assert(self@.user_agent_parts =~= old(self)@.user_agent_parts.push(part@));
    }

    /// Takes one line of a record, trimmed and not empty, and files it by
    /// its kind.
    pub fn absorb(&mut self, line: &Vec<char>)
        ensures
            final(self)@ == old(self)@.absorb(line@),
    {
        match classify_line(line) {
            LineKind::Device => {
                let value = label_value(line, DEVICE_LABEL);
                self.push_user_agent_part(value);
            },
            LineKind::Geolocation => {
                self.geolocation = Some(label_value(line, GEOLOCATION_LABEL));
                self.in_user_agent = false;
            },
            LineKind::IpAddress => {
                self.ip_address = Some(label_value(line, IP_LABEL));
                self.in_user_agent = false;
            },
            LineKind::Continuation => {
                let part = subrange(line, 0, line.len());
                assert(part@ =~= line@);
                self.push_user_agent_part(part);
            },
            LineKind::LogicalPort => {},
            LineKind::Other => {
                if self.in_user_agent {
                    let part = subrange(line, 0, line.len());
                    assert(part@ =~= line@);
                    self.push_user_agent_part(part);
                }
            },
        }
    }

    /// The event that the fields make with the given time.
    pub fn into_event(self, signed_at: Timestamp) -> (r: SignatureEvent)
        ensures
            r@ == self@.event(signed_at),
    {
        let user_agent = if self.user_agent_parts.len() == 0 {
            None
        } else {
            Some(string_of(&join_lines(&self.user_agent_parts)))
        };
        SignatureEvent {
            geolocation: optional_string(&self.geolocation),
            ip_address: optional_string(&self.ip_address),
            signed_at,
            user_agent,
        }
    }
}

/// Gathers the fields from lines that are cleaned already.
pub fn collect_fields(lines: &Vec<Vec<char>>) -> (r: Fields)
    ensures
        r@ == collected(texts(lines@)),
{
    let mut fields = Fields::new();
    let mut i: usize = 0;
    assert(texts(lines@).take(0) =~= Seq::<Seq<char>>::empty());
    while i < lines.len()
        invariant
            i <= lines.len(),
            fields@ == collected(texts(lines@).take(i as int)),
        decreases lines.len() - i,
    {
        proof {
            assert(texts(lines@).take(i + 1).drop_last() =~= texts(lines@).take(i as int));
            assert(texts(lines@).take(i + 1).last() == lines@[i as int]@);
        }
        if lines[i].len() > 0 {
            fields.absorb(&lines[i]);
        }
        i += 1;
    }
    assert(texts(lines@).take(lines@.len() as int) =~= texts(lines@));
    fields
}

/// Takes the time stamp out of each line, if it has one, and trims it.
pub fn clean_lines(pattern: &Pattern, lines: &Vec<Vec<char>>) -> (r: Vec<Vec<char>>)
    ensures
        texts(r@) == cleaned_lines(pattern@, texts(lines@)),
{
    let mut cleaned: Vec<Vec<char>> = Vec::new();
    let mut i: usize = 0;
    while i < lines.len()
        invariant
            i <= lines.len(),
            texts(cleaned@) == cleaned_lines(pattern@, texts(lines@)).take(i as int),
        decreases lines.len() - i,
    {
        let line = trim(&pattern.remove_match(&lines[i]));
        proof {
            let all = cleaned_lines(pattern@, texts(lines@));
            assert(texts(lines@)[i as int] == lines@[i as int]@);
            assert(all[i as int] == line@);
            assert(all.take(i + 1) =~= all.take(i as int).push(line@));
            assert(texts(cleaned@.push(line)) =~= texts(cleaned@).push(line@));
        }
        cleaned.push(line);
        i += 1;
    }
    assert(cleaned_lines(pattern@, texts(lines@)).take(lines@.len() as int) =~= cleaned_lines(
        pattern@,
        texts(lines@),
    ));
    cleaned
}

/// Reads the candidate event of one record, `pattern` telling where a time
/// stamp stands.
pub fn extract_record(pattern: &Pattern, record: &Vec<char>) -> (r: Option<SignatureEvent>)
    ensures
        candidate_view(r) == candidate_of(pattern@, record@),
        r matches Some(event) ==> event.signed_at.well_formed() && stamped_within(
            pattern@,
            record@,
            event.signed_at,
        ),
{
    let parts = match pattern.split_at_match(record) {
        Some(parts) => parts,
        None => { return None; },
    };
    let signed_at = match Timestamp::parse(string_of(&parts.1).as_str()) {
        Some(signed_at) => signed_at,
        None => { return None; },
    };
    let lines = clean_lines(pattern, &split_lines(record));
    Some(collect_fields(&lines).into_event(signed_at))
}

/// Reads the candidate event of one record: the first time stamp in it, and
/// the fields that its lines give. A record without a readable time stamp
/// gives `None`, and so does every record where the pattern of time stamps
/// does not compile.
pub fn parse_record_to_details(record_text: &str) -> (r: Option<SignatureEvent>)
    ensures
        compile_failure(TIMESTAMP_PATTERN@) is None ==> candidate_view(r) == candidate_of(
            TIMESTAMP_PATTERN@,
            record_text@,
        ),
        compile_failure(TIMESTAMP_PATTERN@) is Some ==> r is None,
        r matches Some(event) ==> event.signed_at.well_formed() && stamped_within(
            TIMESTAMP_PATTERN@,
            record_text@,
            event.signed_at,
        ),
{
    extract_with(Pattern::new(TIMESTAMP_PATTERN), &chars_of(record_text))
}

/// Reads the candidate event of one record, given how setting up the search
/// for time stamps ended: with a pattern, the candidate is the one that
/// `extract_record` reads with it; with a failure, there is none.
pub fn extract_with(compiled: Result<Pattern, String>, record: &Vec<char>) -> (r: Option<
    SignatureEvent,
>)
    ensures
        match compiled {
            Ok(pattern) => candidate_view(r) == candidate_of(pattern@, record@) && (r matches Some(
                event,
            ) ==> event.signed_at.well_formed() && stamped_within(
                pattern@,
                record@,
                event.signed_at,
            )),
            Err(_) => r is None,
        },
{
    match compiled {
        Ok(pattern) => extract_record(&pattern, record),
        Err(_) => None,
    }
}

} // verus!
