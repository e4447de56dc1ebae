//! Character sequences: whitespace, trimming, searching and splitting.
//!
//! Texts are held as `Vec<char>` and modelled as `Seq<char>`. The functions
//! of this module count positions in characters; `byte_at` gives the UTF-8
//! byte offset of a character position.
use vstd::prelude::*;

verus! {

/// Whether `c` has the Unicode property `White_Space`.
pub open spec fn is_space(c: char) -> bool {
    let n = c as u32;
    ||| 0x09 <= n <= 0x0D
    ||| n == 0x20
    ||| n == 0x85
    ||| n == 0xA0
    ||| n == 0x1680
    ||| 0x2000 <= n <= 0x200A
    ||| n == 0x2028
    ||| n == 0x2029
    ||| n == 0x202F
    ||| n == 0x205F
    ||| n == 0x3000
}

/// Tests a character for the Unicode property `White_Space`.
pub fn is_whitespace(c: char) -> (r: bool)
    ensures
        r == is_space(c),
{
    let n: u32 = c as u32;
    (0x09 <= n && n <= 0x0D) || n == 0x20 || n == 0x85 || n == 0xA0 || n == 0x1680 || (0x2000 <= n
        && n <= 0x200A) || n == 0x2028 || n == 0x2029 || n == 0x202F || n == 0x205F || n == 0x3000
}

/// Whether `c` has the Unicode property `Alphabetic`, as `char::is_alphabetic`
/// reports it.
pub uninterp spec fn is_letter(c: char) -> bool;

/// `char::is_alphabetic`: the answer depends on the character alone, so it is
/// the value of `is_letter` at that character.
#[verifier::external_body]
pub(crate) fn is_alphabetic(c: char) -> (r: bool)
    ensures
        r == is_letter(c),
{
    c.is_alphabetic()
}

/// `String::push`: the string grows by the one character at its end.
#[verifier::external_body]
pub(crate) fn push_char(s: &mut String, c: char)
    ensures
        final(s)@ == old(s)@.push(c),
{
    s.push(c)
}

/// Copies the characters of a string slice into a vector.
pub fn chars_of(s: &str) -> (v: Vec<char>)
    ensures
        v@ == s@,
{
    let mut v: Vec<char> = Vec::new();
    for c in it: s.chars()
        invariant
            v@ == it.seq().take(it.index()),
            it.seq() == s@,
    {
        v.push(c);
    }
    v
}

/// Builds a string from a vector of characters.
pub fn string_of(v: &Vec<char>) -> (s: String)
    ensures
        s@ == v@,
{
    let mut s = String::new();
    let mut i: usize = 0;
    while i < v.len()
        invariant
            i <= v.len(),
            s@ == v@.take(i as int),
        decreases v.len() - i,
    {
        push_char(&mut s, v[i]);
        i += 1;
    }
    s
}

/// Copies the characters of `v` from `from` up to `to`.
pub fn slice(v: &Vec<char>, from: usize, to: usize) -> (r: Vec<char>)
    requires
        from <= to <= v.len(),
    ensures
        r@ == v@.subrange(from as int, to as int),
{
    let mut r: Vec<char> = Vec::new();
    let mut i: usize = from;
    while i < to
        invariant
            from <= i <= to <= v.len(),
            r@ == v@.subrange(from as int, i as int),
        decreases to - i,
    {
        r.push(v[i]);
        i += 1;
    }
    r
}

/// Appends the characters of `src` to `dst`.
pub fn append(dst: &mut Vec<char>, src: &Vec<char>)
    ensures
        final(dst)@ == old(dst)@ + src@,
{
    let mut i: usize = 0;
    while i < src.len()
        invariant
            i <= src.len(),
            dst@ == old(dst)@ + src@.take(i as int),
        decreases src.len() - i,
    {
        dst.push(src[i]);
        i += 1;
    }
}

/// Whether two texts hold the same characters.
pub fn same(a: &Vec<char>, b: &Vec<char>) -> (r: bool)
    ensures
        r == (a@ == b@),
{
    if a.len() != b.len() {
        return false;
    }
    let mut i: usize = 0;
    while i < a.len()
        invariant
            i <= a.len(),
            a.len() == b.len(),
            a@.take(i as int) == b@.take(i as int),
        decreases a.len() - i,
    {
        if a[i] != b[i] {
            return false;
        }
        assert(a@.take(i + 1) == a@.take(i as int).push(a@[i as int]));
        assert(b@.take(i + 1) == b@.take(i as int).push(b@[i as int]));
        i += 1;
    }
    assert(a@.take(a.len() as int) == a@);
    assert(b@.take(b.len() as int) == b@);
    true
}

/// The first position at or after `from` that holds no whitespace, or the
/// length of `s` if there is none.
pub open spec fn skip_spaces(s: Seq<char>, from: int) -> int
    decreases s.len() - from,
{
    if 0 <= from < s.len() && is_space(s[from]) {
        skip_spaces(s, from + 1)
    } else {
        from
    }
}

/// The end of the last run of non-whitespace before `to`: the least `t` such
/// that everything from `t` up to `to` is whitespace.
pub open spec fn drop_spaces(s: Seq<char>, to: int) -> int
    decreases to,
{
    if 0 < to <= s.len() && is_space(s[to - 1]) {
        drop_spaces(s, to - 1)
    } else {
        to
    }
}

/// `s` without its leading and trailing whitespace.
pub open spec fn spec_trim(s: Seq<char>) -> Seq<char> {
    let from = skip_spaces(s, 0);
    let to = drop_spaces(s, s.len() as int);
    if from < to {
        s.subrange(from, to)
    } else {
        Seq::empty()
    }
}

/// `skip_spaces` moves forward and stays within the text.
pub proof fn lemma_skip_spaces_bounds(s: Seq<char>, from: int)
    requires
        0 <= from <= s.len(),
    ensures
        from <= skip_spaces(s, from) <= s.len(),
    decreases s.len() - from,
{
    if from < s.len() && is_space(s[from]) {
        lemma_skip_spaces_bounds(s, from + 1);
    }
}

/// `drop_spaces` moves backward and stays within the text.
pub proof fn lemma_drop_spaces_bounds(s: Seq<char>, to: int)
    requires
        0 <= to <= s.len(),
    ensures
        0 <= drop_spaces(s, to) <= to,
    decreases to,
{
    if 0 < to && is_space(s[to - 1]) {
        lemma_drop_spaces_bounds(s, to - 1);
    }
}

/// A text that neither begins nor ends with whitespace is its own trim.
pub proof fn lemma_trim_clean(s: Seq<char>)
    requires
        s.len() == 0 || (!is_space(s[0]) && !is_space(s[s.len() - 1])),
    ensures
        spec_trim(s) == s,
{
    if s.len() > 0 {
        assert(s.subrange(0, s.len() as int) =~= s);
    } else {
        assert(s =~= Seq::<char>::empty());
    }
}

/// Removes leading and trailing whitespace.
pub fn trim(v: &Vec<char>) -> (r: Vec<char>)
    ensures
        r@ == spec_trim(v@),
{
    let n = v.len();
    let mut from: usize = 0;
    while from < n && is_whitespace(v[from])
        invariant
            from <= n,
            n == v.len(),
            skip_spaces(v@, from as int) == skip_spaces(v@, 0),
        decreases n - from,
    {
        from += 1;
    }
    let mut to: usize = n;
    while to > from && is_whitespace(v[to - 1])
        invariant
            from <= to <= n,
            n == v.len(),
            drop_spaces(v@, to as int) == drop_spaces(v@, n as int),
        decreases to,
    {
        to -= 1;
    }
    proof {
        lemma_drop_spaces_bounds(v@, to as int);
    }
    slice(v, from, to)
}

/// Whether `needle` stands in `hay` at position `at`.
pub open spec fn matches_at(hay: Seq<char>, needle: Seq<char>, at: int) -> bool {
    &&& 0 <= at
    &&& at + needle.len() <= hay.len()
    &&& hay.subrange(at, at + needle.len()) == needle
}

/// The first position at or after `from` at which `needle` stands in `hay`.
pub open spec fn spec_find(hay: Seq<char>, needle: Seq<char>, from: int) -> Option<int>
    decreases hay.len() + 1 - from,
{
    if from < 0 || from + needle.len() > hay.len() {
        None
    } else if matches_at(hay, needle, from) {
        Some(from)
    } else {
        spec_find(hay, needle, from + 1)
    }
}

/// Whether `needle` stands somewhere in `hay`.
pub open spec fn spec_contains(hay: Seq<char>, needle: Seq<char>) -> bool {
    spec_find(hay, needle, 0) is Some
}

/// Whether `hay` ends with `needle`.
pub open spec fn spec_ends_with(hay: Seq<char>, needle: Seq<char>) -> bool {
    matches_at(hay, needle, hay.len() - needle.len())
}

/// What `spec_find` returns is the least match at or after `from`.
pub proof fn lemma_find(hay: Seq<char>, needle: Seq<char>, from: int)
    requires
        0 <= from,
    ensures
        match spec_find(hay, needle, from) {
            Some(at) => {
                &&& from <= at
                &&& matches_at(hay, needle, at)
                &&& forall|j: int| from <= j < at ==> !matches_at(hay, needle, j)
            },
            None => forall|j: int| from <= j ==> !matches_at(hay, needle, j),
        },
    decreases hay.len() + 1 - from,
{
    if from + needle.len() > hay.len() {
    } else if matches_at(hay, needle, from) {
    } else {
        lemma_find(hay, needle, from + 1);
    }
}

/// A match before which nothing matches is the one that `spec_find` gives.
pub proof fn lemma_find_first(hay: Seq<char>, needle: Seq<char>, from: int, at: int)
    requires
        0 <= from <= at,
        matches_at(hay, needle, at),
        forall|j: int| from <= j < at ==> !matches_at(hay, needle, j),
    ensures
        spec_find(hay, needle, from) == Some(at),
    decreases at - from,
{
    if from < at {
        lemma_find_first(hay, needle, from + 1, at);
    }
}

/// Tests whether `needle` stands in `hay` at position `at`.
pub fn occurs_at(hay: &Vec<char>, needle: &Vec<char>, at: usize) -> (r: bool)
    ensures
        r == matches_at(hay@, needle@, at as int),
{
    let n = needle.len();
    if at > hay.len() || n > hay.len() - at {
        return false;
    }
    let mut i: usize = 0;
    while i < n
        invariant
            i <= n,
            n == needle.len(),
            at + n <= hay.len(),
            forall|j: int| 0 <= j < i ==> hay@[at + j] == needle@[j],
        decreases n - i,
    {
        if hay[at + i] != needle[i] {
            assert(hay@.subrange(at as int, at + n)[i as int] != needle@[i as int]);
            return false;
        }
        i += 1;
    }
    assert(hay@.subrange(at as int, at + n) =~= needle@);
    true
}

/// Finds the first position at or after `from` at which `needle` stands.
pub fn find(hay: &Vec<char>, needle: &Vec<char>, from: usize) -> (r: Option<usize>)
    ensures
        match r {
            Some(at) => spec_find(hay@, needle@, from as int) == Some(at as int),
            None => spec_find(hay@, needle@, from as int) is None,
        },
{
    let n = needle.len();
    let m = hay.len();
    if from > m || n > m - from {
        return None;
    }
    if n == 0 {
        assert(hay@.subrange(from as int, from as int) =~= needle@);
        return Some(from);
    }
    let mut at: usize = from;
    while at <= m - n
        invariant
            from <= at,
            n == needle.len(),
            m == hay.len(),
            0 < n <= m,
            at <= m - n + 1,
            spec_find(hay@, needle@, at as int) == spec_find(hay@, needle@, from as int),
        decreases m - n + 1 - at,
    {
        if occurs_at(hay, needle, at) {
            return Some(at);
        }
        at += 1;
    }
    None
}

/// Tests whether `needle` stands somewhere in `hay`.
pub fn contains(hay: &Vec<char>, needle: &Vec<char>) -> (r: bool)
    ensures
        r == spec_contains(hay@, needle@),
{
    find(hay, needle, 0).is_some()
}

/// Tests whether `c` occurs in `hay`.
pub fn contains_char(hay: &Vec<char>, c: char) -> (r: bool)
    ensures
        r == spec_contains(hay@, seq![c]),
{
    let needle: Vec<char> = vec![c];
    assert(needle@ =~= seq![c]);
    contains(hay, &needle)
}

/// The pieces of `s` between the occurrences of `sep`, taken from the left
/// without overlap. An empty separator splits nothing.
pub open spec fn spec_split(s: Seq<char>, sep: Seq<char>) -> Seq<Seq<char>>
    decreases s.len(),
{
    if sep.len() == 0 {
        seq![s]
    } else {
        match spec_find(s, sep, 0) {
            None => seq![s],
            Some(at) => {
                proof {
                    lemma_find(s, sep, 0);
                }
                seq![s.subrange(0, at)] + spec_split(s.subrange(at + sep.len(), s.len() as int), sep)
            },
        }
    }
}

/// A split has at least one piece.
pub proof fn lemma_split_nonempty(s: Seq<char>, sep: Seq<char>)
    ensures
        spec_split(s, sep).len() >= 1,
{
}

/// The texts that a sequence of vectors holds.
pub open spec fn views(v: Seq<Vec<char>>) -> Seq<Seq<char>> {
    v.map_values(|x: Vec<char>| x@)
}

/// Splits `s` at the occurrences of `sep`.
pub fn split(s: &Vec<char>, sep: &Vec<char>) -> (r: Vec<Vec<char>>)
    ensures
        views(r@) == spec_split(s@, sep@),
{
    let mut r: Vec<Vec<char>> = Vec::new();
    if sep.len() == 0 {
        r.push(slice(s, 0, s.len()));
        assert(s@.subrange(0, s@.len() as int) =~= s@);
        assert(views(r@) =~= seq![s@]);
        return r;
    }
    let mut from: usize = 0;
    assert(s@.subrange(0, s@.len() as int) =~= s@);
    assert(views(r@) + spec_split(s@, sep@) =~= spec_split(s@, sep@));
    loop
        invariant
            from <= s.len(),
            sep.len() > 0,
            views(r@) + spec_split(s@.subrange(from as int, s@.len() as int), sep@) == spec_split(
                s@,
                sep@,
            ),
        decreases s.len() - from,
    {
        let ghost rest = s@.subrange(from as int, s@.len() as int);
        let ghost before = r@;
        proof {
            lemma_find(s@, sep@, from as int);
            lemma_find_shift(s@, sep@, from as int);
        }
        match find(s, sep, from) {
            None => {
                r.push(slice(s, from, s.len()));
                assert(views(r@) =~= views(before) + seq![rest]);
                return r;
            },
            Some(at) => {
                let piece = slice(s, from, at);
                r.push(piece);
                proof {
                    let next = s@.subrange(at + sep@.len(), s@.len() as int);
                    assert(rest.subrange(0, at - from) =~= s@.subrange(from as int, at as int));
                    assert(rest.subrange(at - from + sep@.len(), rest.len() as int) =~= next);
                    assert(spec_split(rest, sep@) == seq![rest.subrange(0, at - from)]
                        + spec_split(next, sep@));
                    assert(views(r@) =~= views(before) + seq![rest.subrange(0, at - from)]);
                    assert(views(r@) + spec_split(next, sep@) =~= views(before) + spec_split(
                        rest,
                        sep@,
                    ));
                }
                from = at + sep.len();
            },
        }
    }
}

/// Searching the rest of a text from its start is searching the text from
/// where the rest begins.
pub proof fn lemma_find_shift(s: Seq<char>, sep: Seq<char>, from: int)
    requires
        0 <= from <= s.len(),
    ensures
        spec_find(s.subrange(from, s.len() as int), sep, 0) == match spec_find(s, sep, from) {
            Some(at) => Some(at - from),
            None => None,
        },
{
    let rest = s.subrange(from, s.len() as int);
    lemma_find(rest, sep, 0);
    lemma_find(s, sep, from);
    assert forall|j: int| 0 <= j implies (matches_at(rest, sep, j) <==> matches_at(
        s,
        sep,
        j + from,
    )) by {
        if j + sep.len() <= rest.len() {
            assert(rest.subrange(j, j + sep.len()) =~= s.subrange(j + from, j + from + sep.len()));
        }
    }
    match spec_find(s, sep, from) {
        Some(at) => {
            assert(matches_at(rest, sep, at - from));
            match spec_find(rest, sep, 0) {
                Some(b) => {
                    assert(matches_at(s, sep, b + from));
                    if b < at - from {
                        assert(!matches_at(s, sep, b + from));
                    }
                    if at - from < b {
                        assert(!matches_at(rest, sep, at - from));
                    }
                },
                None => {},
            }
        },
        None => {
            match spec_find(rest, sep, 0) {
                Some(b) => {
                    assert(matches_at(s, sep, b + from));
                },
                None => {},
            }
        },
    }
}

/// The number of bytes that `c` takes in UTF-8.
pub open spec fn utf8_width(c: char) -> int {
    let n = c as u32;
    if n < 0x80 {
        1
    } else if n < 0x800 {
        2
    } else if n < 0x10000 {
        3
    } else {
        4
    }
}

/// The UTF-8 byte offset of character position `i` of `text`: the number of
/// bytes that the first `i` characters take.
pub open spec fn byte_at(text: Seq<char>, i: int) -> int
    decreases i,
{
    if i <= 0 {
        0
    } else {
        byte_at(text, i - 1) + utf8_width(text[i - 1])
    }
}

/// The number of bytes that `text` takes in UTF-8.
pub open spec fn byte_len(text: Seq<char>) -> int {
    byte_at(text, text.len() as int)
}

/// A later character stands at a later byte: each character takes at least
/// one byte.
pub proof fn lemma_byte_at_grows(text: Seq<char>, i: int, j: int)
    requires
        0 <= i <= j,
    ensures
        byte_at(text, i) + (j - i) <= byte_at(text, j),
        0 <= byte_at(text, i),
    decreases j,
{
    if i < j {
        lemma_byte_at_grows(text, i, j - 1);
    } else if i > 0 {
        lemma_byte_at_grows(text, i - 1, i - 1);
    }
}

/// The byte offsets within a part of a text are those within the text, less
/// the offset at which the part begins.
pub proof fn lemma_byte_at_subrange(text: Seq<char>, from: int, to: int, k: int)
    requires
        0 <= from <= to <= text.len(),
        0 <= k <= to - from,
    ensures
        byte_at(text.subrange(from, to), k) == byte_at(text, from + k) - byte_at(text, from),
    decreases k,
{
    if k > 0 {
        lemma_byte_at_subrange(text, from, to, k - 1);
    }
}

/// In two texts put together, the first keeps its byte offsets and the
/// second has its own, after the bytes of the first.
pub proof fn lemma_byte_at_concat(a: Seq<char>, b: Seq<char>, k: int)
    requires
        0 <= k,
    ensures
        k <= a.len() ==> byte_at(a + b, k) == byte_at(a, k),
        k <= b.len() ==> byte_at(a + b, a.len() + k) == byte_len(a) + byte_at(b, k),
    decreases k,
{
    if k > 0 {
        lemma_byte_at_concat(a, b, k - 1);
        if k <= a.len() {
            assert((a + b)[k - 1] == a[k - 1]);
        }
        if k <= b.len() {
            assert((a + b)[a.len() + k - 1] == b[k - 1]);
        }
    } else {
        lemma_byte_at_concat_first(a, b, a.len() as int);
    }
}

/// In two texts put together, the first keeps its byte offsets.
proof fn lemma_byte_at_concat_first(a: Seq<char>, b: Seq<char>, k: int)
    requires
        0 <= k <= a.len(),
    ensures
        byte_at(a + b, k) == byte_at(a, k),
    decreases k,
{
    if k > 0 {
        lemma_byte_at_concat_first(a, b, k - 1);
        assert((a + b)[k - 1] == a[k - 1]);
    }
}

/// A character takes as many bytes as its UTF-8 encoding has.
pub proof fn lemma_width_encoded(c: char)
    ensures
        vstd::utf8::encode_scalar(c as u32).len() == utf8_width(c),
{
    vstd::utf8::char_is_scalar(c);
}

/// A text takes as many bytes as its UTF-8 encoding has.
pub proof fn lemma_byte_len_encoded(text: Seq<char>)
    ensures
        byte_len(text) == vstd::utf8::encode_utf8(text).len(),
    decreases text.len(),
{
    if text.len() > 0 {
        let rest = text.drop_first();
        lemma_byte_len_encoded(rest);
        lemma_width_encoded(text[0]);
        assert(rest =~= text.subrange(1, text.len() as int));
        lemma_byte_at_subrange(text, 1, text.len() as int, text.len() - 1);
        assert(byte_at(text, 1) == byte_at(text, 0) + utf8_width(text[0]));
    }
}

/// A trimmed text takes no more bytes than the text.
pub proof fn lemma_trim_byte_len(text: Seq<char>)
    ensures
        0 <= byte_len(spec_trim(text)) <= byte_len(text),
{
    let from = skip_spaces(text, 0);
    let to = drop_spaces(text, text.len() as int);
    lemma_skip_spaces_bounds(text, 0);
    lemma_drop_spaces_bounds(text, text.len() as int);
    lemma_byte_at_grows(text, 0, text.len() as int);
    if from < to {
        let part = text.subrange(from, to);
        assert(part.len() == to - from);
        lemma_byte_at_subrange(text, from, to, to - from);
        lemma_byte_at_grows(text, 0, from);
        lemma_byte_at_grows(text, from, to);
        lemma_byte_at_grows(text, to, text.len() as int);
    } else {
        assert(byte_at(Seq::<char>::empty(), 0) == 0);
    }
}

/// The number of bytes that `c` takes in UTF-8.
pub fn width_of(c: char) -> (n: usize)
    ensures
        n == utf8_width(c),
{
    let n: u32 = c as u32;
    if n < 0x80 {
        1
    } else if n < 0x800 {
        2
    } else if n < 0x10000 {
        3
    } else {
        4
    }
}

/// The byte offset of character position `to`, given the offset `offset` of
/// the position `from` before it.
pub(crate) fn byte_offset(text: &Vec<char>, from: usize, offset: usize, to: usize) -> (r: usize)
    requires
        from <= to <= text.len(),
        offset == byte_at(text@, from as int),
        byte_len(text@) <= usize::MAX,
    ensures
        r == byte_at(text@, to as int),
{
    let mut at: usize = from;
    let mut r: usize = offset;
    while at < to
        invariant
            from <= at <= to <= text.len(),
            r == byte_at(text@, at as int),
            byte_len(text@) <= usize::MAX,
        decreases to - at,
    {
        proof {
            lemma_byte_at_grows(text@, at + 1, text@.len() as int);
        }
        r = r + width_of(text[at]);
        at += 1;
    }
    r
}

} // verus!
