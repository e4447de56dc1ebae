//! The scanner: where the placeholders of a text stand.
//!
//! A placeholder opens at an occurrence of the start delimiter and closes at
//! the end delimiter that brings the nesting level back to zero, so that a key
//! may hold balanced pairs of delimiters of its own.
//!
//! Delimiters are matched character by character, and the model of a scan
//! (`spec_scan`) counts in characters. What a scan hands out counts in bytes:
//! a `Placeholder` holds the byte offsets, in the UTF-8 form of the text, of
//! the character positions that the model gives.
use crate::text::{
    byte_at, byte_len, byte_offset, chars_of, find, lemma_byte_at_grows, lemma_byte_len_encoded,
    lemma_find, matches_at, occurs_at, spec_find,
};
use vstd::prelude::*;

verus! {

/// Where a placeholder stands in a text: four positions, all counted in
/// characters or all counted in bytes.
pub struct Span {
    /// Where the start delimiter begins.
    pub start: int,
    /// Where the key begins.
    pub key_start: int,
    /// Where the key ends and the end delimiter begins.
    pub key_end: int,
    /// Just past the end delimiter.
    pub end: int,
}

/// Where a placeholder stands in a text, counted in characters. The
/// renderer walks the text by these.
#[derive(Clone, Copy, Debug, PartialEq, Eq, Structural)]
pub struct Mark {
    /// Where the start delimiter begins.
    pub start: usize,
    /// Where the key begins.
    pub key_start: usize,
    /// Where the key ends and the end delimiter begins.
    pub key_end: usize,
    /// Just past the end delimiter.
    pub end: usize,
}

impl View for Mark {
    type V = Span;

    open spec fn view(&self) -> Span {
        Span {
            start: self.start as int,
            key_start: self.key_start as int,
            key_end: self.key_end as int,
            end: self.end as int,
        }
    }
}

/// The spans, in characters, that a sequence of marks stands for.
pub open spec fn marks(v: Seq<Mark>) -> Seq<Span> {
    v.map_values(|p: Mark| p@)
}

/// Where a placeholder stands in a text: the byte span `start..end` of the
/// text in UTF-8, and within it the byte span `key_start..key_end` of the
/// key. A placeholder of length zero is the sentinel that a scan leaves where
/// it found no further start delimiter.
#[derive(Clone, Copy, Debug, PartialEq, Eq, Structural)]
pub struct Placeholder {
    /// The byte at which the start delimiter begins.
    pub start: usize,
    /// The byte at which the key begins.
    pub key_start: usize,
    /// The byte at which the key ends and the end delimiter begins.
    pub key_end: usize,
    /// The byte just past the end delimiter.
    pub end: usize,
}

impl View for Placeholder {
    type V = Span;

    open spec fn view(&self) -> Span {
        Span {
            start: self.start as int,
            key_start: self.key_start as int,
            key_end: self.key_end as int,
            end: self.end as int,
        }
    }
}

/// The spans, in bytes, that a sequence of placeholders stands for.
pub open spec fn placed(v: Seq<Placeholder>) -> Seq<Span> {
    v.map_values(|p: Placeholder| p@)
}

/// The byte span of `text` in UTF-8 that the character span `span` covers.
pub open spec fn byte_span(text: Seq<char>, span: Span) -> Span {
    Span {
        start: byte_at(text, span.start),
        key_start: byte_at(text, span.key_start),
        key_end: byte_at(text, span.key_end),
        end: byte_at(text, span.end),
    }
}

/// The byte spans of `text` in UTF-8 that the character spans `spans` cover.
pub open spec fn byte_spans(text: Seq<char>, spans: Seq<Span>) -> Seq<Span> {
    spans.map_values(|s: Span| byte_span(text, s))
}

/// The sentinel at position `at`.
pub open spec fn sentinel(at: int) -> Span {
    Span { start: at, key_start: at, key_end: at, end: at }
}

/// Where the nesting level, `level` on arrival at position `at`, comes back to
/// zero: every occurrence of `open` raises it, every occurrence of `close`
/// lowers it, and `open` is looked for first.
pub open spec fn spec_close(
    text: Seq<char>,
    open: Seq<char>,
    close: Seq<char>,
    at: int,
    level: int,
) -> Option<int>
    decreases text.len() - at,
{
    if at < 0 || at >= text.len() {
        None
    } else if open.len() > 0 && matches_at(text, open, at) {
        spec_close(text, open, close, at + 1, level + 1)
    } else if close.len() > 0 && matches_at(text, close, at) {
        if level == 1 {
            Some(at)
        } else {
            spec_close(text, open, close, at + 1, level - 1)
        }
    } else {
        spec_close(text, open, close, at + 1, level)
    }
}

/// A close stands at or after the position from which it was looked for, at
/// an occurrence of a non-empty end delimiter; after `open` at `at`, it stands
/// after `at`.
pub proof fn lemma_close(text: Seq<char>, open: Seq<char>, close: Seq<char>, at: int, level: int)
    ensures
        match spec_close(text, open, close, at, level) {
            Some(stop) => {
                &&& 0 <= at <= stop
                &&& close.len() > 0
                &&& matches_at(text, close, stop)
                &&& (open.len() > 0 && matches_at(text, open, at)) ==> at < stop
            },
            None => true,
        },
    decreases text.len() - at,
{
    if at < 0 || at >= text.len() {
    } else if open.len() > 0 && matches_at(text, open, at) {
        lemma_close(text, open, close, at + 1, level + 1);
    } else if close.len() > 0 && matches_at(text, close, at) {
        if level != 1 {
            lemma_close(text, open, close, at + 1, level - 1);
        }
    } else {
        lemma_close(text, open, close, at + 1, level);
    }
}

/// While the level is not above zero and nothing can raise it, nothing closes.
pub proof fn lemma_close_needs_open(text: Seq<char>, close: Seq<char>, at: int, level: int)
    requires
        level <= 0,
    ensures
        spec_close(text, Seq::empty(), close, at, level) is None,
    decreases text.len() - at,
{
    if 0 <= at < text.len() {
        if close.len() > 0 && matches_at(text, close, at) {
            lemma_close_needs_open(text, close, at + 1, level - 1);
        } else {
            lemma_close_needs_open(text, close, at + 1, level);
        }
    }
}

/// The placeholders of `text` from `cursor` on. Where no start delimiter is
/// left the scan ends with the sentinel; where a placeholder does not close
/// it ends at once, and the rest of the text is literal.
pub open spec fn spec_scan_from(text: Seq<char>, open: Seq<char>, close: Seq<char>, cursor: int) -> Seq<
    Span,
>
    decreases text.len() - cursor,
{
    match spec_find(text, open, cursor) {
        None => seq![sentinel(cursor)],
        Some(start) => match spec_close(text, open, close, start, 0) {
            None => Seq::empty(),
            Some(stop) => {
                let end = stop + close.len();
                let key_start = if start + open.len() <= stop {
                    start + open.len()
                } else {
                    stop
                };
                proof {
                    if cursor >= 0 {
                        lemma_find(text, open, cursor);
                    }
                    lemma_close(text, open, close, start, 0);
                }
                seq![Span { start, key_start, key_end: stop, end }] + spec_scan_from(
                    text,
                    open,
                    close,
                    end,
                )
            },
        },
    }
}

/// The placeholders of `text`, in order. An empty text has none.
pub open spec fn spec_scan(text: Seq<char>, open: Seq<char>, close: Seq<char>) -> Seq<Span> {
    if text.len() == 0 {
        Seq::empty()
    } else {
        spec_scan_from(text, open, close, 0)
    }
}

/// Whether `spans` lie in `text` from `from` on, one after the other, each
/// with its key between its delimiters.
pub open spec fn ordered(spans: Seq<Span>, from: int, len: int) -> bool {
    &&& forall|i: int|
        0 <= i < spans.len() ==> {
            &&& from <= (#[trigger] spans[i]).start <= spans[i].key_start
            &&& spans[i].key_start <= spans[i].key_end <= spans[i].end <= len
        }
    &&& forall|i: int, j: int|
        0 <= i < j < spans.len() ==> (#[trigger] spans[i]).end <= (#[trigger] spans[j]).start
            && spans[i].start < spans[j].start
}

/// The placeholders of a scan do not overlap and stand in the order of their
/// positions.
pub proof fn lemma_scan_ordered(text: Seq<char>, open: Seq<char>, close: Seq<char>, cursor: int)
    requires
        0 <= cursor <= text.len(),
    ensures
        ordered(spec_scan_from(text, open, close, cursor), cursor, text.len() as int),
    decreases text.len() - cursor,
{
    lemma_find(text, open, cursor);
    match spec_find(text, open, cursor) {
        None => {},
        Some(start) => {
            lemma_close(text, open, close, start, 0);
            match spec_close(text, open, close, start, 0) {
                None => {},
                Some(stop) => {
                    let end = stop + close.len();
                    if open.len() == 0 {
                        lemma_close_needs_open(text, close, start, 0);
                        assert(open =~= Seq::empty());
                    }
                    lemma_scan_ordered(text, open, close, end);
                    let rest = spec_scan_from(text, open, close, end);
                    let all = spec_scan_from(text, open, close, cursor);
                    assert forall|i: int| 0 <= i < all.len() implies {
                        &&& cursor <= (#[trigger] all[i]).start <= all[i].key_start
                        &&& all[i].key_start <= all[i].key_end <= all[i].end <= text.len()
                    } by {
                        if i > 0 {
                            assert(all[i] == rest[i - 1]);
                        }
                    }
                    assert forall|i: int, j: int| 0 <= i < j < all.len() implies (
                    #[trigger] all[i]).end <= (#[trigger] all[j]).start && all[i].start
                        < all[j].start by {
                        assert(all[j] == rest[j - 1]);
                        if i > 0 {
                            assert(all[i] == rest[i - 1]);
                        }
                    }
                },
            }
        },
    }
}

/// Whether each of `spans` but a sentinel at their end opens at an occurrence
/// of `open` and closes at an occurrence of `close`, with its key ending where
/// that occurrence begins.
pub open spec fn delimited(spans: Seq<Span>, text: Seq<char>, open: Seq<char>, close: Seq<char>) -> bool {
    &&& forall|i: int|
        0 <= i < spans.len() && (#[trigger] spans[i]).start < spans[i].end ==> {
            &&& matches_at(text, open, spans[i].start)
            &&& matches_at(text, close, spans[i].key_end)
            &&& spans[i].end == spans[i].key_end + close.len()
            &&& spans[i].start < spans[i].key_end
        }
    &&& forall|i: int| 0 <= i < spans.len() - 1 ==> (#[trigger] spans[i]).start < spans[i].end
}

/// Every placeholder of a scan stands between an occurrence of the start
/// delimiter and one of the end delimiter, and only the last can be the
/// sentinel.
pub proof fn lemma_scan_delimited(text: Seq<char>, open: Seq<char>, close: Seq<char>, cursor: int)
    requires
        0 <= cursor <= text.len(),
    ensures
        delimited(spec_scan_from(text, open, close, cursor), text, open, close),
    decreases text.len() - cursor,
{
    lemma_find(text, open, cursor);
    match spec_find(text, open, cursor) {
        None => {},
        Some(start) => {
            lemma_close(text, open, close, start, 0);
            match spec_close(text, open, close, start, 0) {
                None => {},
                Some(stop) => {
                    let end = stop + close.len();
                    if open.len() == 0 {
                        lemma_close_needs_open(text, close, start, 0);
                        assert(open =~= Seq::empty());
                    }
                    lemma_scan_delimited(text, open, close, end);
                    let rest = spec_scan_from(text, open, close, end);
                    let all = spec_scan_from(text, open, close, cursor);
                    assert forall|i: int|
                        0 <= i < all.len() && (#[trigger] all[i]).start < all[i].end implies {
                        &&& matches_at(text, open, all[i].start)
                        &&& matches_at(text, close, all[i].key_end)
                        &&& all[i].end == all[i].key_end + close.len()
                        &&& all[i].start < all[i].key_end
                    } by {
                        if i > 0 {
                            assert(all[i] == rest[i - 1]);
                        }
                    }
                    assert forall|i: int| 0 <= i < all.len() - 1 implies (#[trigger] all[i]).start
                        < all[i].end by {
                        if i > 0 {
                            assert(all[i] == rest[i - 1]);
                        }
                    }
                },
            }
        },
    }
}

/// Finds where the placeholder that opens at `start` closes.
fn find_close(text: &Vec<char>, open: &Vec<char>, close: &Vec<char>, start: usize) -> (r: Option<
    usize,
>)
    requires
        open@.len() > 0,
        matches_at(text@, open@, start as int),
    ensures
        match r {
            Some(stop) => spec_close(text@, open@, close@, start as int, 0) == Some(stop as int),
            None => spec_close(text@, open@, close@, start as int, 0) is None,
        },
{
    let n = text.len();
    let mut at: usize = start;
    let mut level: usize = 0;
    while at < n
        invariant
            start <= at <= n,
            n == text.len(),
            open@.len() > 0,
            matches_at(text@, open@, start as int),
            at == start ==> level == 0,
            at > start ==> 1 <= level <= at - start,
            spec_close(text@, open@, close@, at as int, level as int) == spec_close(
                text@,
                open@,
                close@,
                start as int,
                0,
            ),
        decreases n - at,
    {
        if occurs_at(text, open, at) {
            level += 1;
        } else if close.len() > 0 && occurs_at(text, close, at) {
            if level == 1 {
                return Some(at);
            }
            level -= 1;
        }
        at += 1;
    }
    None
}

/// Scans `text` for its placeholders.
pub fn scan_marks(text: &Vec<char>, open: &Vec<char>, close: &Vec<char>) -> (r: Vec<Mark>)
    ensures
        marks(r@) == spec_scan(text@, open@, close@),
        ordered(marks(r@), 0, text@.len() as int),
{
    let mut r: Vec<Mark> = Vec::new();
    if text.len() == 0 {
        assert(marks(r@) =~= Seq::<Span>::empty());
        return r;
    }
    let mut cursor: usize = 0;
    proof {
        lemma_scan_ordered(text@, open@, close@, 0);
        assert(marks(r@) + spec_scan_from(text@, open@, close@, 0) =~= spec_scan_from(
            text@,
            open@,
            close@,
            0,
        ));
    }
    loop
        invariant
            cursor <= text.len(),
            text.len() > 0,
            marks(r@) + spec_scan_from(text@, open@, close@, cursor as int) == spec_scan(
                text@,
                open@,
                close@,
            ),
            ordered(spec_scan(text@, open@, close@), 0, text@.len() as int),
        decreases text.len() - cursor,
    {
        let ghost before = r@;
        proof {
            lemma_find(text@, open@, cursor as int);
        }
        match find(text, open, cursor) {
            None => {
                r.push(Mark { start: cursor, key_start: cursor, key_end: cursor, end: cursor });
                assert(marks(r@) =~= marks(before) + seq![sentinel(cursor as int)]);
                return r;
            },
            Some(start) => {
                if open.len() == 0 {
                    proof {
                        assert(open@ =~= Seq::empty());
                        lemma_close_needs_open(text@, close@, start as int, 0);
                        assert(marks(r@) =~= marks(r@) + Seq::<Span>::empty());
                    }
                    return r;
                }
                proof {
                    lemma_close(text@, open@, close@, start as int, 0);
                }
                match find_close(text, open, close, start) {
                    None => {
                        assert(marks(r@) =~= marks(r@) + Seq::<Span>::empty());
                        return r;
                    },
                    Some(stop) => {
                        let end = stop + close.len();
                        let key_start = if open.len() <= stop - start {
                            start + open.len()
                        } else {
                            stop
                        };
                        r.push(Mark { start, key_start, key_end: stop, end });
                        proof {
                            let span = Span {
                                start: start as int,
                                key_start: key_start as int,
                                key_end: stop as int,
                                end: end as int,
                            };
                            let rest = spec_scan_from(text@, open@, close@, end as int);
                            assert(spec_scan_from(text@, open@, close@, cursor as int) == seq![span]
                                + rest);
                            assert(marks(r@) =~= marks(before) + seq![span]);
                            assert(marks(r@) + rest =~= marks(before) + (seq![span] + rest));
                        }
                        cursor = end;
                    },
                }
            },
        }
    }
}

/// Spans that are in order in characters are in order in bytes.
pub proof fn lemma_byte_spans_ordered(text: Seq<char>, spans: Seq<Span>)
    requires
        ordered(spans, 0, text.len() as int),
    ensures
        ordered(byte_spans(text, spans), 0, byte_len(text)),
{
    let bytes = byte_spans(text, spans);
    assert forall|i: int| 0 <= i < bytes.len() implies {
        &&& 0 <= (#[trigger] bytes[i]).start <= bytes[i].key_start
        &&& bytes[i].key_start <= bytes[i].key_end <= bytes[i].end <= byte_len(text)
    } by {
        let s = spans[i];
        lemma_byte_at_grows(text, 0, s.start);
        lemma_byte_at_grows(text, s.start, s.key_start);
        lemma_byte_at_grows(text, s.key_start, s.key_end);
        lemma_byte_at_grows(text, s.key_end, s.end);
        lemma_byte_at_grows(text, s.end, text.len() as int);
    }
    assert forall|i: int, j: int| 0 <= i < j < bytes.len() implies (#[trigger] bytes[i]).end <= (
    #[trigger] bytes[j]).start && bytes[i].start < bytes[j].start by {
        let a = spans[i];
        let b = spans[j];
        lemma_byte_at_grows(text, a.end, b.start);
        lemma_byte_at_grows(text, a.start, b.start);
    }
}

/// Counts the positions of `found` in bytes.
pub(crate) fn to_placeholders(text: &Vec<char>, found: &Vec<Mark>) -> (r: Vec<Placeholder>)
    requires
        ordered(marks(found@), 0, text@.len() as int),
        byte_len(text@) <= usize::MAX,
    ensures
        placed(r@) == byte_spans(text@, marks(found@)),
{
    let ghost sp = marks(found@);
    let mut r: Vec<Placeholder> = Vec::new();
    let mut at: usize = 0;
    let mut offset: usize = 0;
    let mut i: usize = 0;
    while i < found.len()
        invariant
            i <= found.len(),
            sp == marks(found@),
            ordered(sp, 0, text@.len() as int),
            byte_len(text@) <= usize::MAX,
            at <= text.len(),
            i == 0 ==> at == 0,
            i > 0 ==> at == sp[i - 1].end,
            offset == byte_at(text@, at as int),
            placed(r@) == byte_spans(text@, sp.take(i as int)),
        decreases found.len() - i,
    {
        let m = found[i];
        assert(sp[i as int] == m@);
        proof {
            if i > 0 {
                assert(sp[i - 1].end <= sp[i as int].start);
            }
        }
        let ghost before = r@;
        let start = byte_offset(text, at, offset, m.start);
        let key_start = byte_offset(text, m.start, start, m.key_start);
        let key_end = byte_offset(text, m.key_start, key_start, m.key_end);
        let end = byte_offset(text, m.key_end, key_end, m.end);
        r.push(Placeholder { start, key_start, key_end, end });
        proof {
            assert(sp.take(i + 1) =~= sp.take(i as int).push(sp[i as int]));
            assert(placed(r@) =~= placed(before).push(byte_span(text@, sp[i as int])));
            assert(byte_spans(text@, sp.take(i + 1)) =~= byte_spans(text@, sp.take(i as int)).push(
                byte_span(text@, sp[i as int]),
            ));
        }
        at = m.end;
        offset = end;
        i += 1;
    }
    assert(sp.take(found.len() as int) =~= sp);
    r
}

/// Scans `text` for its placeholders, and gives where each stands, in bytes.
pub fn scan(text: &str, open: &str, close: &str) -> (r: Vec<Placeholder>)
    ensures
        placed(r@) == byte_spans(text@, spec_scan(text@, open@, close@)),
        ordered(placed(r@), 0, byte_len(text@)),
{
    let chars = chars_of(text);
    // The bytes of a string are counted by a `usize`, so every byte offset
    // into it fits in one.
    let size: usize = text.as_bytes().len();
    let found = scan_marks(&chars, &chars_of(open), &chars_of(close));
    proof {
        lemma_byte_len_encoded(text@);
        assert(byte_len(text@) == size);
        lemma_byte_spans_ordered(text@, marks(found@));
    }
    to_placeholders(&chars, &found)
}

} // verus!
