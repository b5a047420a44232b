//! Finds the audit-log section in the text of a document.

use crate::error::AppError;
use crate::text::{
    chars_of, find, first_occurrence, lemma_first_occurrence_is_leftmost, occurs_at, remove_all,
    subrange, trim, trimmed, without_all,
};
use vstd::prelude::*;

verus! {

/// The line that opens the audit-log section.
pub const SECTION_MARKER: &'static str = "2. Log's e eventos do processo de assinatura:";

/// The header of the table of events, which is no event itself.
pub const COLUMN_HEADER: &'static str = "Evento: Dados do Dispositivo: Data e hora (UTC -3):";

/// The audit-log section of `text`: what follows the first section marker,
/// without the column headers and without the whitespace around it. `None`
/// where `text` holds no marker.
pub open spec fn section_of(text: Seq<char>) -> Option<Seq<char>> {
    match first_occurrence(text, SECTION_MARKER@) {
        Some(at) => Some(
            trimmed(without_all(text.skip(at + SECTION_MARKER@.len()), COLUMN_HEADER@)),
        ),
        None => None,
    }
}

/// A text has an audit-log section exactly where the section marker occurs
/// in it.
pub proof fn lemma_section_needs_marker(text: Seq<char>)
    ensures
        section_of(text) is Some <==> exists|at: int| occurs_at(text, SECTION_MARKER@, at),
{
    lemma_first_occurrence_is_leftmost(text, SECTION_MARKER@);
}

/// The audit-log section of the text, or `EventsLogs` where the text holds
/// no section marker.
pub fn locate_section(text: &Vec<char>) -> (r: Result<Vec<char>, AppError>)
    ensures
        match r {
            Ok(section) => section_of(text@) == Some(section@),
            Err(error) => error is EventsLogs && section_of(text@) is None,
        },
{
    let marker = chars_of(SECTION_MARKER);
    match find(text, &marker) {
        Some(at) => {
            let end = text.len();
            let after = subrange(text, at + marker.len(), end);
            assert(after@ =~= text@.skip(at + marker@.len()));
            let header = chars_of(COLUMN_HEADER);
            let body = remove_all(&after, &header);
            Ok(trim(&body))
        },
        None => Err(AppError::EventsLogs),
    }
}

} // verus!
