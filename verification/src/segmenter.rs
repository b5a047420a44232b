//! Splits the audit-log section into records, one per candidate event.
//!
//! A line that holds a time stamp opens a record. It closes the record
//! before it only if that record has lines already, and it is itself the
//! first line of the record it opens.

use crate::pattern::{has_match, Pattern};
use crate::text::{
    chars_of, has_prefix, is_plain_line, is_whitespace, join_lines, joined,
    lemma_lines_hold_no_line_feed, lemma_lines_of_joined,
    lemma_trimmed_has_no_whitespace_at_its_ends, lemma_trimmed_holds_no_line_feed, lines_of,
    split_lines, starts_with, texts, trim, trimmed,
};
use vstd::prelude::*;

verus! {

/// The word that a page footer begins with.
pub const PAGE_FOOTER: &'static str = "Página";

/// Whether a trimmed line carries nothing of a record: it is empty or a page
/// footer.
pub open spec fn is_noise(line: Seq<char>) -> bool {
    line.len() == 0 || has_prefix(line, PAGE_FOOTER@)
}

/// The lines that carry content, each trimmed, in their order.
pub open spec fn content_lines(raw: Seq<Seq<char>>) -> Seq<Seq<char>>
    decreases raw.len(),
{
    if raw.len() == 0 {
        Seq::empty()
    } else if is_noise(trimmed(raw.last())) {
        content_lines(raw.drop_last())
    } else {
        content_lines(raw.drop_last()).push(trimmed(raw.last()))
    }
}

/// The two things a segmenter holds, as the contracts speak of them.
pub struct SegmenterView {
    /// The lines of the record that is being gathered.
    pub pending: Seq<Seq<char>>,
    /// The records that are closed, each as one text.
    pub finished: Seq<Seq<char>>,
}

impl SegmenterView {
    /// Nothing gathered, nothing closed.
    pub open spec fn empty() -> SegmenterView {
        SegmenterView { pending: Seq::empty(), finished: Seq::empty() }
    }

    /// The state after one more line. A line that opens a record closes the
    /// pending one if that has lines, and becomes the first line of the next.
    pub open spec fn push_line(self, line: Seq<char>, opens_record: bool) -> SegmenterView {
        if opens_record && self.pending.len() > 0 {
            SegmenterView {
                pending: seq![line],
                finished: self.finished.push(joined(self.pending)),
            }
        } else {
            SegmenterView { pending: self.pending.push(line), finished: self.finished }
        }
    }

    /// The records once the input has ended: the pending lines, if any, make
    /// the last one.
    pub open spec fn finish(self) -> Seq<Seq<char>> {
        if self.pending.len() > 0 {
            self.finished.push(joined(self.pending))
        } else {
            self.finished
        }
    }
}

/// The state after the given content lines, a line opening a record where
/// the pattern matches in it.
pub open spec fn segmented(pattern: Seq<char>, lines: Seq<Seq<char>>) -> SegmenterView
    decreases lines.len(),
{
    if lines.len() == 0 {
        SegmenterView::empty()
    } else {
        segmented(pattern, lines.drop_last()).push_line(
            lines.last(),
            has_match(pattern, lines.last()),
        )
    }
}

/// The records of a section, where `pattern` tells which lines hold a time
/// stamp.
pub open spec fn records_of(pattern: Seq<char>, section: Seq<char>) -> Seq<Seq<char>> {
    segmented(pattern, content_lines(lines_of(section))).finish()
}

/// The content lines as they fall into records: the first line opens a
/// group, a line in which the pattern matches opens the next one, and any
/// other line goes to the group that is open.
pub open spec fn grouped(pattern: Seq<char>, lines: Seq<Seq<char>>) -> Seq<Seq<Seq<char>>>
    decreases lines.len(),
{
    if lines.len() == 0 {
        Seq::empty()
    } else {
        let before = grouped(pattern, lines.drop_last());
        if before.len() == 0 || has_match(pattern, lines.last()) {
            before.push(seq![lines.last()])
        } else {
            before.drop_last().push(before.last().push(lines.last()))
        }
    }
}

/// The lines of all groups, one group after the other.
pub open spec fn flattened(groups: Seq<Seq<Seq<char>>>) -> Seq<Seq<char>>
    decreases groups.len(),
{
    if groups.len() == 0 {
        Seq::empty()
    } else {
        flattened(groups.drop_last()) + groups.last()
    }
}

/// Each group as one text.
pub open spec fn joined_groups(groups: Seq<Seq<Seq<char>>>) -> Seq<Seq<char>> {
    groups.map_values(|group: Seq<Seq<char>>| joined(group))
}

/// Whether `groups` cuts `lines` into records by the boundary rule: the
/// groups are runs of the lines in their order and none is empty; every
/// group but the first begins with a line in which the pattern matches; and
/// the pattern matches in no line that is not the first of its group.
pub open spec fn is_segmentation(
    pattern: Seq<char>,
    lines: Seq<Seq<char>>,
    groups: Seq<Seq<Seq<char>>>,
) -> bool {
    &&& flattened(groups) == lines
    &&& forall|g: int| 0 <= g < groups.len() ==> (#[trigger] groups[g]).len() > 0
    &&& forall|g: int| 0 < g < groups.len() ==> has_match(pattern, (#[trigger] groups[g]).first())
    &&& forall|g: int, i: int|
        0 <= g < groups.len() && 0 < i < groups[g].len() ==> !has_match(
            pattern,
            #[trigger] groups[g][i],
        )
}

/// The groups of `grouped` cut the lines by the boundary rule.
pub proof fn lemma_grouped_is_segmentation(pattern: Seq<char>, lines: Seq<Seq<char>>)
    ensures
        is_segmentation(pattern, lines, grouped(pattern, lines)),
        lines.len() > 0 ==> grouped(pattern, lines).len() > 0,
    decreases lines.len(),
{
    if lines.len() > 0 {
        let head = lines.drop_last();
        let line = lines.last();
        let before = grouped(pattern, head);
        let groups = grouped(pattern, lines);
        lemma_grouped_is_segmentation(pattern, head);
        assert(lines =~= head.push(line));
        if before.len() == 0 || has_match(pattern, line) {
            assert(groups.drop_last() =~= before);
            assert(flattened(groups) =~= lines);
            assert forall|g: int| 0 <= g < groups.len() implies (#[trigger] groups[g]).len()
                > 0 by {
                if g < before.len() {
                    assert(groups[g] == before[g]);
                }
            }
            assert forall|g: int| 0 < g < groups.len() implies has_match(
                pattern,
                (#[trigger] groups[g]).first(),
            ) by {
                if g < before.len() {
                    assert(groups[g] == before[g]);
                }
            }
            assert forall|g: int, i: int|
                0 <= g < groups.len() && 0 < i < groups[g].len() implies !has_match(
                pattern,
                #[trigger] groups[g][i],
            ) by {
                if g < before.len() {
                    assert(groups[g] == before[g]);
                }
            }
        } else {
            let open = before.last();
            assert(groups.drop_last() =~= before.drop_last());
            assert(groups.last() == open.push(line));
            assert(flattened(before) == flattened(before.drop_last()) + open);
            assert(flattened(groups) =~= lines);
            assert forall|g: int| 0 <= g < groups.len() implies (#[trigger] groups[g]).len()
                > 0 by {
                if g < before.len() - 1 {
                    assert(groups[g] == before[g]);
                }
            }
            assert forall|g: int| 0 < g < groups.len() implies has_match(
                pattern,
                (#[trigger] groups[g]).first(),
            ) by {
                if g < before.len() - 1 {
                    assert(groups[g] == before[g]);
                } else {
                    assert(groups[g].first() == before[g].first());
                }
            }
            assert forall|g: int, i: int|
                0 <= g < groups.len() && 0 < i < groups[g].len() implies !has_match(
                pattern,
                #[trigger] groups[g][i],
            ) by {
                if g < before.len() - 1 {
                    assert(groups[g] == before[g]);
                } else if i < open.len() {
                    assert(groups[g][i] == before[g][i]);
                }
            }
        }
    } else {
        assert(flattened(grouped(pattern, lines)) =~= lines);
    }
}

/// The segmenter holds the groups of `grouped`: the last group is pending,
/// the groups before it are finished, each as one text.
pub proof fn lemma_segmented_holds_the_groups(pattern: Seq<char>, lines: Seq<Seq<char>>)
    ensures
        lines.len() == 0 ==> segmented(pattern, lines) == SegmenterView::empty(),
        lines.len() > 0 ==> grouped(pattern, lines).len() > 0 && segmented(
            pattern,
            lines,
        ).pending == grouped(pattern, lines).last() && segmented(pattern, lines).finished
            == joined_groups(grouped(pattern, lines).drop_last()),
        segmented(pattern, lines).finish() == joined_groups(grouped(pattern, lines)),
    decreases lines.len(),
{
    if lines.len() == 0 {
        assert(joined_groups(grouped(pattern, lines)) =~= Seq::<Seq<char>>::empty());
    } else {
        let head = lines.drop_last();
        let line = lines.last();
        let before = grouped(pattern, head);
        let groups = grouped(pattern, lines);
        let state = segmented(pattern, head);
        lemma_segmented_holds_the_groups(pattern, head);
        lemma_grouped_is_segmentation(pattern, head);
        lemma_grouped_is_segmentation(pattern, lines);
        if head.len() == 0 {
            assert(before.len() == 0);
            assert(state.pending.push(line) =~= seq![line]);
            assert(groups.drop_last() =~= before);
            assert(joined_groups(groups.drop_last()) =~= Seq::<Seq<char>>::empty());
        } else if has_match(pattern, line) {
            assert(state.pending.len() > 0);
            assert(groups.drop_last() =~= before);
            assert(joined_groups(before) =~= joined_groups(before.drop_last()).push(
                joined(before.last()),
            ));
        } else {
            assert(groups.drop_last() =~= before.drop_last());
        }
        assert(joined_groups(groups) =~= joined_groups(groups.drop_last()).push(
            joined(groups.last()),
        ));
    }
}

/// Content lines are plain: none is empty, holds a line feed or ends in a
/// carriage return.
pub proof fn lemma_content_lines_are_plain(raw: Seq<Seq<char>>)
    requires
        forall|i: int, k: int|
            0 <= i < raw.len() && 0 <= k < raw[i].len() ==> #[trigger] raw[i][k] != '\n',
    ensures
        forall|j: int|
            0 <= j < content_lines(raw).len() ==> is_plain_line(#[trigger] content_lines(raw)[j]),
    decreases raw.len(),
{
    if raw.len() > 0 {
        let head = raw.drop_last();
        assert forall|i: int, k: int| 0 <= i < head.len() && 0 <= k < head[i].len() implies
            #[trigger] head[i][k] != '\n' by {
            assert(head[i][k] == raw[i][k]);
        }
        lemma_content_lines_are_plain(head);
        let line = trimmed(raw.last());
        if !is_noise(line) {
            assert forall|k: int| 0 <= k < raw.last().len() implies raw.last()[k] != '\n' by {
                assert(raw.last()[k] == raw[raw.len() - 1][k]);
            }
            lemma_trimmed_holds_no_line_feed(raw.last());
            lemma_trimmed_has_no_whitespace_at_its_ends(raw.last());
            assert(is_whitespace('\r'));
            assert(is_plain_line(line));
            assert forall|j: int| 0 <= j < content_lines(raw).len() implies is_plain_line(
                #[trigger] content_lines(raw)[j],
            ) by {
                if j < content_lines(head).len() {
                    assert(content_lines(raw)[j] == content_lines(head)[j]);
                }
            }
        }
    }
}

/// The lines of the groups are lines that were grouped, so they are plain
/// where those are.
proof fn lemma_grouped_lines_are_plain(pattern: Seq<char>, lines: Seq<Seq<char>>)
    requires
        forall|i: int| 0 <= i < lines.len() ==> is_plain_line(#[trigger] lines[i]),
    ensures
        forall|g: int, i: int|
            0 <= g < grouped(pattern, lines).len() && 0 <= i < grouped(pattern, lines)[g].len()
                ==> is_plain_line(#[trigger] grouped(pattern, lines)[g][i]),
    decreases lines.len(),
{
    if lines.len() > 0 {
        let head = lines.drop_last();
        let line = lines.last();
        let before = grouped(pattern, head);
        let groups = grouped(pattern, lines);
        assert forall|i: int| 0 <= i < head.len() implies is_plain_line(#[trigger] head[i]) by {
            assert(head[i] == lines[i]);
        }
        lemma_grouped_lines_are_plain(pattern, head);
        assert(is_plain_line(line));
        assert forall|g: int, i: int|
            0 <= g < groups.len() && 0 <= i < groups[g].len() implies is_plain_line(
            #[trigger] groups[g][i],
        ) by {
            if before.len() == 0 || has_match(pattern, line) {
                if g < before.len() {
                    assert(groups[g][i] == before[g][i]);
                }
            } else {
                if g < before.len() - 1 {
                    assert(groups[g][i] == before[g][i]);
                } else if i < before.last().len() {
                    assert(groups[g][i] == before[g][i]);
                }
            }
        }
    }
}

/// The records of a section are the groups into which its content lines
/// fall by the boundary rule, each group joined into one text; and the lines
/// of a record are the lines of its group.
pub proof fn lemma_records_are_the_groups(pattern: Seq<char>, section: Seq<char>)
    ensures
        ({
            let lines = content_lines(lines_of(section));
            let groups = grouped(pattern, lines);
            let records = records_of(pattern, section);
            &&& is_segmentation(pattern, lines, groups)
            &&& records.len() == groups.len()
            &&& forall|r: int|
                0 <= r < records.len() ==> #[trigger] records[r] == joined(groups[r]) && lines_of(
                    records[r],
                ) == groups[r]
        }),
{
    let lines = content_lines(lines_of(section));
    let groups = grouped(pattern, lines);
    let records = records_of(pattern, section);
    lemma_grouped_is_segmentation(pattern, lines);
    lemma_segmented_holds_the_groups(pattern, lines);
    lemma_lines_hold_no_line_feed(section);
    lemma_content_lines_are_plain(lines_of(section));
    lemma_grouped_lines_are_plain(pattern, lines);
    assert forall|r: int| 0 <= r < records.len() implies #[trigger] records[r] == joined(
        groups[r],
    ) && lines_of(records[r]) == groups[r] by {
        assert forall|i: int| 0 <= i < groups[r].len() implies is_plain_line(
            #[trigger] groups[r][i],
        ) by {}
        lemma_lines_of_joined(groups[r]);
    }
}

/// Gathers lines into records.
pub struct Segmenter {
    pending_lines: Vec<Vec<char>>,
    finished_records: Vec<Vec<char>>,
}

impl View for Segmenter {
    type V = SegmenterView;

    closed spec fn view(&self) -> SegmenterView {
        SegmenterView {
            pending: texts(self.pending_lines@),
            finished: texts(self.finished_records@),
        }
    }
}

impl Segmenter {
    /// A segmenter that has seen no line.
    pub fn new() -> (r: Segmenter)
        ensures
            r@ == SegmenterView::empty(),
    {
        let r = Segmenter { pending_lines: Vec::new(), finished_records: Vec::new() };
        assert(r@.pending =~= Seq::empty());
        assert(r@.finished =~= Seq::empty());
        r
    }

    /// Takes one content line. `opens_record` says whether the line holds a
    /// time stamp.
    pub fn push_line(&mut self, line: Vec<char>, opens_record: bool)
        ensures
            final(self)@ == old(self)@.push_line(line@, opens_record),
    {
        if opens_record && self.pending_lines.len() > 0 {
            let record = join_lines(&self.pending_lines);
            self.finished_records.push(record);
            self.pending_lines = Vec::new();
        }
        self.pending_lines.push(line);
        proof {
            if opens_record && old(self).pending_lines@.len() > 0 {
                assert(self@.pending =~= seq![line@]);
                assert(self@.finished =~= old(self)@.finished.push(joined(old(self)@.pending)));
            } else {
                assert(self@.pending =~= old(self)@.pending.push(line@));
                assert(self@.finished =~= old(self)@.finished);
            }
        }
    }

    /// Ends the input and hands out the records.
    pub fn finish(self) -> (r: Vec<Vec<char>>)
        ensures
            texts(r@) == self@.finish(),
    {
        let mut records = self.finished_records;
        if self.pending_lines.len() > 0 {
            let record = join_lines(&self.pending_lines);
            records.push(record);
            assert(texts(records@) =~= self@.finished.push(joined(self@.pending)));
        }
        records
    }
}

/// Trims each line and drops the empty ones and the page footers.
pub fn keep_content_lines(raw: &Vec<Vec<char>>) -> (r: Vec<Vec<char>>)
    ensures
        texts(r@) == content_lines(texts(raw@)),
{
    let footer = chars_of(PAGE_FOOTER);
    let mut kept: Vec<Vec<char>> = Vec::new();
    let mut i: usize = 0;
    assert(texts(raw@).take(0) =~= Seq::<Seq<char>>::empty());
    while i < raw.len()
        invariant
            i <= raw.len(),
            footer@ == PAGE_FOOTER@,
            texts(kept@) == content_lines(texts(raw@).take(i as int)),
        decreases raw.len() - i,
    {
        let line = trim(&raw[i]);
        proof {
            assert(texts(raw@).take(i + 1).drop_last() =~= texts(raw@).take(i as int));
            assert(texts(raw@).take(i + 1).last() == raw@[i as int]@);
        }
        if !(line.len() == 0 || starts_with(&line, &footer)) {
            proof {
                assert(texts(kept@.push(line)) =~= texts(kept@).push(line@));
            }
            kept.push(line);
        }
        i += 1;
    }
    assert(texts(raw@).take(raw@.len() as int) =~= texts(raw@));
    kept
}

/// Splits a section into records. A line opens a record where `pattern`
/// matches in it.
pub fn segment_records(pattern: &Pattern, section: &Vec<char>) -> (r: Vec<Vec<char>>)
    ensures
        texts(r@) == records_of(pattern@, section@),
{
    let raw = split_lines(section);
    let lines = keep_content_lines(&raw);
    let mut segmenter = Segmenter::new();
    let ghost all = texts(lines@);
    assert(all.take(0) =~= Seq::<Seq<char>>::empty());
    for line in it: lines
        invariant
            it.seq() == lines@,
            all == texts(lines@),
            segmenter@ == segmented(pattern@, all.take(it.index())),
    {
        proof {
            let i = it.index();
            assert(all.take(i + 1).drop_last() =~= all.take(i));
            assert(all.take(i + 1).last() == line@);
        }
        let opens_record = pattern.is_match(&line);
        segmenter.push_line(line, opens_record);
    }
    assert(all.take(lines@.len() as int) =~= all);
    segmenter.finish()
}

} // verus!
