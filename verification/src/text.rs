//! Text as a sequence of Unicode scalar values: the executable code works on
//! `Vec<char>`, the contracts on `Seq<char>`.

use vstd::prelude::*;

verus! {

/// The code points with the Unicode property `White_Space`.
pub open spec fn is_whitespace(c: char) -> bool {
    let n = c as u32;
    ||| 0x09 <= n <= 0x0D
    ||| n == 0x20
    ||| n == 0x85
    ||| n == 0xA0
    ||| n == 0x1680
    ||| 0x2000 <= n <= 0x200A
    ||| n == 0x2028
    ||| n == 0x2029
    ||| n == 0x202F
    ||| n == 0x205F
    ||| n == 0x3000
}

/// `s` without its leading whitespace.
pub open spec fn trimmed_start(s: Seq<char>) -> Seq<char>
    decreases s.len(),
{
    if s.len() > 0 && is_whitespace(s.first()) {
        trimmed_start(s.drop_first())
    } else {
        s
    }
}

/// `s` without its trailing whitespace.
pub open spec fn trimmed_end(s: Seq<char>) -> Seq<char>
    decreases s.len(),
{
    if s.len() > 0 && is_whitespace(s.last()) {
        trimmed_end(s.drop_last())
    } else {
        s
    }
}

/// `s` without the whitespace at either end.
pub open spec fn trimmed(s: Seq<char>) -> Seq<char> {
    trimmed_end(trimmed_start(s))
}

/// Whether `s` begins with `prefix`.
pub open spec fn has_prefix(s: Seq<char>, prefix: Seq<char>) -> bool {
    prefix.len() <= s.len() && s.subrange(0, prefix.len() as int) == prefix
}

/// Whether `needle` occurs in `hay` at position `at`.
pub open spec fn occurs_at(hay: Seq<char>, needle: Seq<char>, at: int) -> bool {
    0 <= at && at + needle.len() <= hay.len() && hay.subrange(at, at + needle.len()) == needle
}

/// The position of the leftmost occurrence of `needle` in `hay`, if there is one.
pub open spec fn first_occurrence(hay: Seq<char>, needle: Seq<char>) -> Option<int>
    decreases hay.len(),
{
    if has_prefix(hay, needle) {
        Some(0)
    } else if hay.len() == 0 {
        None
    } else {
        match first_occurrence(hay.drop_first(), needle) {
            Some(i) => Some(i + 1),
            None => None,
        }
    }
}

/// `hay` with every occurrence of `needle` taken out, the occurrences being
/// found from the left and never overlapping. An empty `needle` takes
/// nothing out.
pub open spec fn without_all(hay: Seq<char>, needle: Seq<char>) -> Seq<char>
    decreases hay.len(),
{
    if needle.len() == 0 || hay.len() == 0 {
        hay
    } else if has_prefix(hay, needle) {
        without_all(hay.skip(needle.len() as int), needle)
    } else {
        seq![hay.first()] + without_all(hay.drop_first(), needle)
    }
}

/// The length of the first line of `s`: the position of its first line feed,
/// or its length if it has none.
pub open spec fn line_end(s: Seq<char>) -> nat
    decreases s.len(),
{
    if s.len() == 0 || s.first() == '\n' {
        0
    } else {
        1 + line_end(s.drop_first())
    }
}

/// A line as it stood before its line feed, without the carriage return that
/// may precede the line feed.
pub open spec fn without_carriage_return(s: Seq<char>) -> Seq<char> {
    if s.len() > 0 && s.last() == '\r' {
        s.drop_last()
    } else {
        s
    }
}

/// The lines of `s`. A line ends at a line feed, or at a carriage return
/// directly followed by one; neither is part of the line. What follows the
/// last line feed is a line only if it is not empty, and keeps a carriage
/// return at its end.
pub open spec fn lines_of(s: Seq<char>) -> Seq<Seq<char>>
    decreases s.len(),
{
    if s.len() == 0 {
        Seq::empty()
    } else {
        let end = line_end(s);
        if end >= s.len() {
            seq![s]
        } else {
            seq![without_carriage_return(s.take(end as int))] + lines_of(s.skip(end as int + 1))
        }
    }
}

/// The lines with a line feed between each two of them.
pub open spec fn joined(lines: Seq<Seq<char>>) -> Seq<char>
    decreases lines.len(),
{
    if lines.len() == 0 {
        Seq::empty()
    } else if lines.len() == 1 {
        lines.first()
    } else {
        joined(lines.drop_last()) + seq!['\n'] + lines.last()
    }
}

/// Whether a text is a line that `joined` and `lines_of` leave as it is: it
/// is not empty, holds no line feed and does not end in a carriage return.
pub open spec fn is_plain_line(line: Seq<char>) -> bool {
    &&& line.len() > 0
    &&& forall|k: int| 0 <= k < line.len() ==> line[k] != '\n'
    &&& line.last() != '\r'
}

/// The views of a vector of texts.
pub open spec fn texts(v: Seq<Vec<char>>) -> Seq<Seq<char>> {
    v.map_values(|t: Vec<char>| t@)
}

/// `String::push` of the standard library puts the character at the end of
/// the string and leaves the rest as it was.
pub assume_specification[ String::push ](s: &mut String, c: char)
    ensures
        final(s)@ == old(s)@.push(c),
;

/// Whether the character is whitespace.
pub fn char_is_whitespace(c: char) -> (r: bool)
    ensures
        r == is_whitespace(c),
{
    let n: u32 = c as u32;
    (0x09 <= n && n <= 0x0D) || n == 0x20 || n == 0x85 || n == 0xA0 || n == 0x1680 || (0x2000 <= n
        && n <= 0x200A) || n == 0x2028 || n == 0x2029 || n == 0x202F || n == 0x205F || n == 0x3000
}

/// The characters of a string, in order.
pub fn chars_of(s: &str) -> (v: Vec<char>)
    ensures
        v@ == s@,
{
    let mut v: Vec<char> = Vec::new();
    let chars = s.chars();
    for c in it: chars
        invariant
            it.seq() == s@,
            v@ == s@.take(it.index()),
    {
        v.push(c);
    }
    v
}

/// The string made of the given characters.
pub fn string_of(v: &Vec<char>) -> (s: String)
    ensures
        s@ == v@,
{
    let mut s = String::new();
    let mut i: usize = 0;
    while i < v.len()
        invariant
            i <= v.len(),
            s@ == v@.take(i as int),
        decreases v.len() - i,
    {
        s.push(v[i]);
        i += 1;
    }
    s
}

/// A copy of the characters at positions `from..to`.
pub fn subrange(v: &Vec<char>, from: usize, to: usize) -> (r: Vec<char>)
    requires
        from <= to <= v.len(),
    ensures
        r@ == v@.subrange(from as int, to as int),
{
    let mut r: Vec<char> = Vec::new();
    let mut i: usize = from;
    while i < to
        invariant
            from <= i <= to <= v.len(),
            r@ == v@.subrange(from as int, i as int),
        decreases to - i,
    {
        r.push(v[i]);
        i += 1;
    }
    r
}

/// `a` followed by `b`.
pub fn append(a: &Vec<char>, b: &Vec<char>) -> (r: Vec<char>)
    ensures
        r@ == a@ + b@,
{
    let mut r: Vec<char> = Vec::new();
    let mut i: usize = 0;
    while i < a.len()
        invariant
            i <= a.len(),
            r@ == a@.take(i as int),
        decreases a.len() - i,
    {
        r.push(a[i]);
        i += 1;
    }
    let mut j: usize = 0;
    while j < b.len()
        invariant
            j <= b.len(),
            r@ == a@ + b@.take(j as int),
        decreases b.len() - j,
    {
        r.push(b[j]);
        j += 1;
    }
    r
}

/// Dropping leading whitespace one character at a time reaches `trimmed_start`.
proof fn lemma_trimmed_start_skip(s: Seq<char>, n: int)
    requires
        0 <= n <= s.len(),
        forall|i: int| 0 <= i < n ==> is_whitespace(#[trigger] s[i]),
    ensures
        trimmed_start(s) == trimmed_start(s.skip(n)),
    decreases n,
{
    if n > 0 {
        assert(s.drop_first().skip(n - 1) =~= s.skip(n));
        lemma_trimmed_start_skip(s.drop_first(), n - 1);
    } else {
        assert(s.skip(0) =~= s);
    }
}

/// Dropping trailing whitespace one character at a time reaches `trimmed_end`.
proof fn lemma_trimmed_end_take(s: Seq<char>, n: int)
    requires
        0 <= n <= s.len(),
        forall|i: int| n <= i < s.len() ==> is_whitespace(#[trigger] s[i]),
    ensures
        trimmed_end(s) == trimmed_end(s.take(n)),
    decreases s.len() - n,
{
    if n < s.len() {
        assert(s.drop_last().take(n) =~= s.take(n));
        lemma_trimmed_end_take(s.drop_last(), n);
    } else {
        assert(s.take(n) =~= s);
    }
}

/// `trimmed(s)` is the part of `s` between its first and its last character
/// that is not whitespace.
pub proof fn lemma_trimmed_is_subrange(s: Seq<char>) -> (bounds: (int, int))
    ensures
        0 <= bounds.0 <= bounds.1 <= s.len(),
        trimmed(s) == s.subrange(bounds.0, bounds.1),
        forall|i: int| 0 <= i < bounds.0 ==> is_whitespace(#[trigger] s[i]),
        forall|i: int| bounds.1 <= i < s.len() ==> is_whitespace(#[trigger] s[i]),
        bounds.0 < bounds.1 ==> !is_whitespace(s[bounds.0]) && !is_whitespace(s[bounds.1 - 1]),
    decreases s.len(),
{
    if s.len() > 0 && is_whitespace(s.first()) {
        let inner = lemma_trimmed_is_subrange(s.drop_first());
        assert(s.drop_first().subrange(inner.0, inner.1) =~= s.subrange(inner.0 + 1, inner.1 + 1));
        assert forall|i: int| 0 <= i < inner.0 + 1 implies is_whitespace(#[trigger] s[i]) by {
            if i > 0 {
                assert(s[i] == s.drop_first()[i - 1]);
            }
        }
        assert forall|i: int| inner.1 + 1 <= i < s.len() implies is_whitespace(#[trigger] s[i]) by {
            assert(s[i] == s.drop_first()[i - 1]);
        }
        (inner.0 + 1, inner.1 + 1)
    } else if s.len() > 0 && is_whitespace(s.last()) {
        let inner = lemma_trimmed_is_subrange(s.drop_last());
        assert(trimmed_start(s.drop_last()) == s.drop_last());
        assert(s.drop_last().subrange(inner.0, inner.1) =~= s.subrange(inner.0, inner.1));
        assert(inner.0 == 0 || inner.0 == inner.1) by {
            if inner.0 > 0 {
                assert(is_whitespace(s.drop_last()[0]));
            }
        }
        if inner.0 < inner.1 {
            assert forall|i: int| inner.1 <= i < s.len() implies is_whitespace(#[trigger] s[i]) by {
                if i < s.len() - 1 {
                    assert(s[i] == s.drop_last()[i]);
                }
            }
            inner
        } else {
            assert(s.subrange(0, 0) =~= s.subrange(inner.0, inner.1));
            assert forall|i: int| 0 <= i < s.len() implies is_whitespace(#[trigger] s[i]) by {
                if i < s.len() - 1 {
                    assert(s[i] == s.drop_last()[i]);
                }
            }
            (0, 0)
        }
    } else {
        assert(s.subrange(0, s.len() as int) =~= s);
        (0, s.len() as int)
    }
}

/// The text without the whitespace at either end.
pub fn trim(text: &Vec<char>) -> (r: Vec<char>)
    ensures
        r@ == trimmed(text@),
{
    let mut start: usize = 0;
    while start < text.len() && char_is_whitespace(text[start])
        invariant
            start <= text.len(),
            forall|i: int| 0 <= i < start ==> is_whitespace(#[trigger] text@[i]),
        decreases text.len() - start,
    {
        start += 1;
    }
    let mut end: usize = text.len();
    while end > start && char_is_whitespace(text[end - 1])
        invariant
            start <= end <= text.len(),
            forall|i: int| end <= i < text.len() ==> is_whitespace(#[trigger] text@[i]),
        decreases end,
    {
        end -= 1;
    }
    proof {
        let rest = text@.skip(start as int);
        lemma_trimmed_start_skip(text@, start as int);
        assert(trimmed_start(rest) == rest);
        lemma_trimmed_end_take(rest, end - start);
        assert(rest.take(end - start) =~= text@.subrange(start as int, end as int));
    }
    subrange(text, start, end)
}


/// Whether `needle` stands in `hay` at position `at`.
pub fn matches_at(hay: &Vec<char>, needle: &Vec<char>, at: usize) -> (r: bool)
    ensures
        r == occurs_at(hay@, needle@, at as int),
{
    if at > hay.len() || needle.len() > hay.len() - at {
        return false;
    }
    let mut i: usize = 0;
    while i < needle.len()
        invariant
            i <= needle.len(),
            at + needle.len() <= hay.len(),
            forall|k: int| 0 <= k < i ==> hay@[at + k] == needle@[k],
        decreases needle.len() - i,
    {
        if hay[at + i] != needle[i] {
            assert(hay@.subrange(at as int, at + needle.len())[i as int] == hay@[at + i]);
            return false;
        }
        i += 1;
    }
    assert(hay@.subrange(at as int, at + needle.len()) =~= needle@);
    true
}

/// Whether the text begins with `prefix`.
pub fn starts_with(text: &Vec<char>, prefix: &Vec<char>) -> (r: bool)
    ensures
        r == has_prefix(text@, prefix@),
{
    matches_at(text, prefix, 0)
}

/// What follows `prefix` in the text, if the text begins with it.
pub fn strip_prefix(text: &Vec<char>, prefix: &Vec<char>) -> (r: Option<Vec<char>>)
    ensures
        r is Some <==> has_prefix(text@, prefix@),
        r matches Some(rest) ==> rest@ == text@.skip(prefix@.len() as int),
{
    if starts_with(text, prefix) {
        Some(subrange(text, prefix.len(), text.len()))
    } else {
        None
    }
}

/// An occurrence in `hay` one place to the right is one in `hay` without its
/// first character.
proof fn lemma_occurs_at_shift(hay: Seq<char>, needle: Seq<char>, at: int)
    requires
        hay.len() > 0,
        at >= 0,
    ensures
        occurs_at(hay.drop_first(), needle, at) == occurs_at(hay, needle, at + 1),
{
    if at + 1 + needle.len() <= hay.len() {
        assert(hay.drop_first().subrange(at, at + needle.len()) =~= hay.subrange(
            at + 1,
            at + 1 + needle.len(),
        ));
    }
}

/// `first_occurrence` is the least position at which `needle` occurs, and is
/// `None` exactly when it occurs nowhere.
pub proof fn lemma_first_occurrence_is_leftmost(hay: Seq<char>, needle: Seq<char>)
    ensures
        match first_occurrence(hay, needle) {
            Some(i) => occurs_at(hay, needle, i) && forall|j: int|
                0 <= j < i ==> !occurs_at(hay, needle, j),
            None => forall|j: int| !occurs_at(hay, needle, j),
        },
    decreases hay.len(),
{
    if has_prefix(hay, needle) {
    } else if hay.len() == 0 {
        assert forall|j: int| !occurs_at(hay, needle, j) by {
            if occurs_at(hay, needle, j) {
                assert(j == 0);
            }
        }
    } else {
        lemma_first_occurrence_is_leftmost(hay.drop_first(), needle);
        assert forall|j: int| j >= 1 implies occurs_at(hay.drop_first(), needle, j - 1)
            == occurs_at(hay, needle, j) by {
            lemma_occurs_at_shift(hay, needle, j - 1);
        }
        match first_occurrence(hay.drop_first(), needle) {
            Some(i) => {
                assert forall|j: int| 0 <= j < i + 1 implies !occurs_at(hay, needle, j) by {
                    if j >= 1 {
                        assert(!occurs_at(hay.drop_first(), needle, j - 1));
                    }
                }
            },
            None => {
                assert forall|j: int| !occurs_at(hay, needle, j) by {
                    if j >= 1 {
                        assert(!occurs_at(hay.drop_first(), needle, j - 1));
                    }
                }
            },
        }
    }
}

/// The position of the leftmost occurrence of `needle` in `hay`.
pub fn find(hay: &Vec<char>, needle: &Vec<char>) -> (r: Option<usize>)
    ensures
        r is Some <==> first_occurrence(hay@, needle@) is Some,
        r matches Some(i) ==> first_occurrence(hay@, needle@) == Some(i as int),
        r matches Some(i) ==> occurs_at(hay@, needle@, i as int),
{
    proof {
        lemma_first_occurrence_is_leftmost(hay@, needle@);
    }
    if needle.len() > hay.len() {
        return None;
    }
    let last: usize = hay.len() - needle.len();
    let mut i: usize = 0;
    loop
        invariant
            i <= last,
            last == hay.len() - needle.len(),
            forall|j: int| 0 <= j < i ==> !occurs_at(hay@, needle@, j),
        decreases last - i,
    {
        if matches_at(hay, needle, i) {
            proof {
                lemma_first_occurrence_is_leftmost(hay@, needle@);
            }
            return Some(i);
        }
        if i == last {
            proof {
                lemma_first_occurrence_is_leftmost(hay@, needle@);
            }
            return None;
        }
        i += 1;
    }
}

/// Taking out the occurrences of `needle` goes by the leftmost one: what
/// stands before it stays, and the rest is treated in the same way.
pub proof fn lemma_without_all_by_occurrence(hay: Seq<char>, needle: Seq<char>)
    requires
        needle.len() > 0,
    ensures
        match first_occurrence(hay, needle) {
            Some(i) => without_all(hay, needle) == hay.take(i) + without_all(
                hay.skip(i + needle.len()),
                needle,
            ),
            None => without_all(hay, needle) == hay,
        },
    decreases hay.len(),
{
    if hay.len() == 0 {
    } else if has_prefix(hay, needle) {
        assert(hay.take(0) + without_all(hay.skip(needle.len() as int), needle) =~= without_all(
            hay,
            needle,
        ));
    } else {
        let rest = hay.drop_first();
        lemma_without_all_by_occurrence(rest, needle);
        match first_occurrence(rest, needle) {
            Some(i) => {
                lemma_first_occurrence_is_leftmost(rest, needle);
                assert(rest.skip(i + needle.len()) =~= hay.skip(i + 1 + needle.len()));
                assert(seq![hay.first()] + rest.take(i) =~= hay.take(i + 1));
                assert(seq![hay.first()] + (rest.take(i) + without_all(
                    rest.skip(i + needle.len()),
                    needle,
                )) =~= (seq![hay.first()] + rest.take(i)) + without_all(
                    rest.skip(i + needle.len()),
                    needle,
                ));
            },
            None => {
                assert(seq![hay.first()] + rest =~= hay);
            },
        }
    }
}

/// The text with every occurrence of `needle` taken out.
pub fn remove_all(hay: &Vec<char>, needle: &Vec<char>) -> (r: Vec<char>)
    ensures
        r@ == without_all(hay@, needle@),
{
    let mut out: Vec<char> = Vec::new();
    let mut pos: usize = 0;
    if needle.len() == 0 {
        assert(hay@.subrange(0, hay@.len() as int) =~= hay@);
        return subrange(hay, 0, hay.len());
    }
    assert(hay@.skip(0) =~= hay@);
    assert(out@ + without_all(hay@, needle@) =~= without_all(hay@, needle@));
    while pos < hay.len()
        invariant
            pos <= hay.len(),
            needle.len() > 0,
            out@ + without_all(hay@.skip(pos as int), needle@) == without_all(hay@, needle@),
        decreases hay.len() - pos,
    {
        let ghost rest = hay@.skip(pos as int);
        if matches_at(hay, needle, pos) {
            proof {
                assert(rest.subrange(0, needle@.len() as int) =~= hay@.subrange(
                    pos as int,
                    pos + needle@.len(),
                ));
                assert(rest.skip(needle@.len() as int) =~= hay@.skip(pos + needle@.len()));
            }
            pos += needle.len();
        } else {
            proof {
                if needle@.len() <= rest.len() {
                    assert(rest.subrange(0, needle@.len() as int) =~= hay@.subrange(
                        pos as int,
                        pos + needle@.len(),
                    ));
                }
                assert(rest.drop_first() =~= hay@.skip(pos + 1));
                assert(out@.push(hay@[pos as int]) + without_all(rest.drop_first(), needle@)
                    =~= out@ + (seq![rest.first()] + without_all(rest.drop_first(), needle@)));
            }
            out.push(hay[pos]);
            pos += 1;
        }
    }
    assert(hay@.skip(pos as int) =~= Seq::<char>::empty());
    assert(out@ + Seq::<char>::empty() =~= out@);
    out
}

/// The first line of `s` ends at the first line feed.
proof fn lemma_line_end(s: Seq<char>, end: int)
    requires
        0 <= end <= s.len(),
        forall|k: int| 0 <= k < end ==> s[k] != '\n',
        end < s.len() ==> s[end] == '\n',
    ensures
        line_end(s) == end,
    decreases end,
{
    if end > 0 {
        lemma_line_end(s.drop_first(), end - 1);
    }
}

/// The lines of the text.
pub fn split_lines(text: &Vec<char>) -> (r: Vec<Vec<char>>)
    ensures
        texts(r@) == lines_of(text@),
{
    let mut lines: Vec<Vec<char>> = Vec::new();
    let mut start: usize = 0;
    let mut i: usize = 0;
    assert(text@.skip(0) =~= text@);
    while i < text.len()
        invariant
            start <= i <= text.len(),
            texts(lines@) + lines_of(text@.skip(start as int)) == lines_of(text@),
            forall|k: int| start <= k < i ==> text@[k] != '\n',
        decreases text.len() - i,
    {
        if text[i] == '\n' {
            let mut end: usize = i;
            if end > start && text[end - 1] == '\r' {
                end -= 1;
            }
            let line = subrange(text, start, end);
            proof {
                let rest = text@.skip(start as int);
                lemma_line_end(rest, i - start);
                assert(rest.take(i - start) =~= text@.subrange(start as int, i as int));
                assert(line@ =~= without_carriage_return(rest.take(i - start)));
                assert(rest.skip(i - start + 1) =~= text@.skip(i + 1));
                assert(texts(lines@.push(line)) =~= texts(lines@) + seq![line@]);
                assert((texts(lines@) + seq![line@]) + lines_of(text@.skip(i + 1)) =~= texts(
                    lines@,
                ) + (seq![line@] + lines_of(text@.skip(i + 1))));
            }
            lines.push(line);
            start = i + 1;
        }
        i += 1;
    }
    if start < text.len() {
        let line = subrange(text, start, text.len());
        proof {
            let rest = text@.skip(start as int);
            lemma_line_end(rest, text.len() - start);
            assert(line@ =~= rest);
            assert(texts(lines@.push(line)) =~= texts(lines@) + seq![line@]);
        }
        lines.push(line);
    } else {
        assert(texts(lines@) + Seq::<Seq<char>>::empty() =~= texts(lines@));
    }
    lines
}

/// The lines with a line feed between each two of them.
pub fn join_lines(lines: &Vec<Vec<char>>) -> (r: Vec<char>)
    ensures
        r@ == joined(texts(lines@)),
{
    let mut out: Vec<char> = Vec::new();
    let mut i: usize = 0;
    assert(texts(lines@).take(0) =~= Seq::<Seq<char>>::empty());
    while i < lines.len()
        invariant
            i <= lines.len(),
            out@ == joined(texts(lines@).take(i as int)),
        decreases lines.len() - i,
    {
        let ghost before = texts(lines@).take(i as int);
        let ghost after = texts(lines@).take(i + 1);
        proof {
            assert(after.drop_last() =~= before);
            assert(after.last() == lines@[i as int]@);
        }
        if i > 0 {
            out.push('\n');
        }
        let line = &lines[i];
        let mut j: usize = 0;
        let ghost head = out@;
        while j < line.len()
            invariant
                j <= line.len(),
                out@ == head + line@.take(j as int),
            decreases line.len() - j,
        {
            out.push(line[j]);
            j += 1;
        }
        proof {
            assert(line@.take(line@.len() as int) =~= line@);
            if i == 0 {
                assert(head + line@ =~= line@);
            } else {
                assert(head =~= joined(before) + seq!['\n']);
            }
        }
        i += 1;
    }
    assert(texts(lines@).take(lines@.len() as int) =~= texts(lines@));
    out
}


/// The first line of a text ends within it, at its first line feed.
pub proof fn lemma_line_end_is_first_line_feed(s: Seq<char>)
    ensures
        line_end(s) <= s.len(),
        forall|k: int| 0 <= k < line_end(s) ==> s[k] != '\n',
        line_end(s) < s.len() ==> s[line_end(s) as int] == '\n',
    decreases s.len(),
{
    if s.len() == 0 || s.first() == '\n' {
    } else {
        let rest = s.drop_first();
        lemma_line_end_is_first_line_feed(rest);
        assert forall|k: int| 0 <= k < line_end(s) implies s[k] != '\n' by {
            if k > 0 {
                assert(s[k] == rest[k - 1]);
            }
        }
        if line_end(s) < s.len() {
            assert(s[line_end(s) as int] == rest[line_end(rest) as int]);
        }
    }
}

/// No line of a text holds a line feed.
pub proof fn lemma_lines_hold_no_line_feed(s: Seq<char>)
    ensures
        forall|i: int, k: int|
            0 <= i < lines_of(s).len() && 0 <= k < lines_of(s)[i].len() ==> #[trigger] lines_of(
                s,
            )[i][k] != '\n',
    decreases s.len(),
{
    if s.len() > 0 {
        lemma_line_end_is_first_line_feed(s);
        let end = line_end(s) as int;
        if end < s.len() {
            let first = without_carriage_return(s.take(end));
            let rest = lines_of(s.skip(end + 1));
            lemma_lines_hold_no_line_feed(s.skip(end + 1));
            assert forall|i: int, k: int|
                0 <= i < lines_of(s).len() && 0 <= k < lines_of(s)[i].len() implies #[trigger] lines_of(
                s,
            )[i][k] != '\n' by {
                if i == 0 {
                    assert(lines_of(s)[0] == first);
                    assert(first[k] == s[k]);
                } else {
                    assert(lines_of(s)[i] == rest[i - 1]);
                }
            }
        }
    }
}

/// A text that is trimmed and not empty neither begins nor ends with
/// whitespace.
pub proof fn lemma_trimmed_has_no_whitespace_at_its_ends(s: Seq<char>)
    requires
        trimmed(s).len() > 0,
    ensures
        !is_whitespace(trimmed(s).first()),
        !is_whitespace(trimmed(s).last()),
{
    let bounds = lemma_trimmed_is_subrange(s);
}

/// Trimming a text that holds no line feed gives one that holds none.
pub proof fn lemma_trimmed_holds_no_line_feed(s: Seq<char>)
    requires
        forall|k: int| 0 <= k < s.len() ==> s[k] != '\n',
    ensures
        forall|k: int| 0 <= k < trimmed(s).len() ==> trimmed(s)[k] != '\n',
{
    let bounds = lemma_trimmed_is_subrange(s);
    assert forall|k: int| 0 <= k < trimmed(s).len() implies trimmed(s)[k] != '\n' by {
        assert(trimmed(s)[k] == s[bounds.0 + k]);
    }
}

/// Joining a first line and further lines puts the first line, a line feed
/// and the further lines joined.
pub proof fn lemma_joined_from_the_front(first: Seq<char>, rest: Seq<Seq<char>>)
    requires
        rest.len() > 0,
    ensures
        joined(seq![first] + rest) == first + seq!['\n'] + joined(rest),
    decreases rest.len(),
{
    let all = seq![first] + rest;
    assert(all.drop_last() =~= seq![first] + rest.drop_last());
    assert(all.last() == rest.last());
    if rest.len() == 1 {
        assert(all.drop_last() =~= seq![first]);
        assert(joined(seq![first]) == first);
        assert(joined(rest) == rest.last());
    } else {
        lemma_joined_from_the_front(first, rest.drop_last());
        assert((first + seq!['\n'] + joined(rest.drop_last())) + seq!['\n'] + rest.last() =~= first
            + seq!['\n'] + (joined(rest.drop_last()) + seq!['\n'] + rest.last()));
    }
}

/// Joining plain lines and splitting the result gives the lines back.
pub proof fn lemma_lines_of_joined(lines: Seq<Seq<char>>)
    requires
        forall|i: int| 0 <= i < lines.len() ==> is_plain_line(#[trigger] lines[i]),
    ensures
        lines_of(joined(lines)) == lines,
    decreases lines.len(),
{
    if lines.len() == 0 {
        assert(lines_of(joined(lines)) =~= lines);
    } else {
        let first = lines.first();
        let rest = lines.drop_first();
        assert(is_plain_line(first));
        assert(lines =~= seq![first] + rest);
        if rest.len() == 0 {
            assert(joined(lines) == first);
            lemma_line_end(first, first.len() as int);
            assert(lines_of(first) =~= lines);
        } else {
            lemma_joined_from_the_front(first, rest);
            let text = joined(lines);
            let cut = first.len() as int;
            assert(text == first + seq!['\n'] + joined(rest));
            assert forall|k: int| 0 <= k < cut implies text[k] != '\n' by {
                assert(text[k] == first[k]);
            }
            assert(text[cut] == '\n');
            lemma_line_end(text, cut);
            assert(text.take(cut) =~= first);
            assert(text.skip(cut + 1) =~= joined(rest));
            assert forall|i: int| 0 <= i < rest.len() implies is_plain_line(#[trigger] rest[i]) by {
                assert(rest[i] == lines[i + 1]);
            }
            lemma_lines_of_joined(rest);
            assert(lines_of(text) =~= seq![first] + rest);
        }
    }
}

} // verus!
