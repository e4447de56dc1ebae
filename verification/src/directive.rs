//! The directive classifier: what the key of a placeholder asks for.
use crate::text::{
    contains, is_alphabetic, is_letter, lemma_split_nonempty, occurs_at, slice, spec_contains,
    spec_ends_with, spec_split, split,
};
use vstd::prelude::*;

verus! {

/// When a `DefaultOr` directive was written to fall back. Both forms fall
/// back when the variable is missing or empty.
#[derive(Clone, Copy, Debug, PartialEq, Eq, Structural)]
pub enum Fallback {
    /// Written with `:-`.
    IfMissingOrEmpty,
    /// Written with `:=`.
    IfMissingOnly,
}

/// What a placeholder asks for. `T` is the type of the texts it holds:
/// `Vec<char>` in running code, `Seq<char>` in the model.
#[derive(Debug)]
pub enum Directive<T> {
    /// `name`: the value of a variable.
    Plain { name: T },
    /// `name:-fallback` or `name:=fallback`: the value of a variable, or a
    /// fallback text.
    DefaultOr { name: T, fallback: T, mode: Fallback },
    /// `!path.inc`: the content of a file.
    Include { path: T },
    /// `?name=expected:-then_text`: a text, if a variable has a given value.
    ConditionalEquals { name: T, expected: T, then_text: T },
    /// `*inner` or `*,inner`: a template expanded once for each element of
    /// the value lists that it refers to.
    MultiValue { inner: T, join: char },
    /// `=name`: the value of a variable, never expanded again.
    LiteralCopy { name: T },
    /// `#name`: the next element of a value list.
    CycleNext { name: T },
    /// Nothing.
    Empty,
}

impl View for Directive<Vec<char>> {
    type V = Directive<Seq<char>>;

    open spec fn view(&self) -> Directive<Seq<char>> {
        match *self {
            Directive::Plain { name } => Directive::Plain { name: name@ },
            Directive::DefaultOr { name, fallback, mode } => Directive::DefaultOr {
                name: name@,
                fallback: fallback@,
                mode,
            },
            Directive::Include { path } => Directive::Include { path: path@ },
            Directive::ConditionalEquals { name, expected, then_text } => {
                Directive::ConditionalEquals {
                    name: name@,
                    expected: expected@,
                    then_text: then_text@,
                }
            },
            Directive::MultiValue { inner, join } => Directive::MultiValue { inner: inner@, join },
            Directive::LiteralCopy { name } => Directive::LiteralCopy { name: name@ },
            Directive::CycleNext { name } => Directive::CycleNext { name: name@ },
            Directive::Empty => Directive::Empty,
        }
    }
}

/// The suffix `.inc` of an include path.
pub open spec fn inc_suffix() -> Seq<char> {
    seq!['.', 'i', 'n', 'c']
}

/// The separator `:-`.
pub open spec fn dash_separator() -> Seq<char> {
    seq![':', '-']
}

/// The separator `:=`.
pub open spec fn assign_separator() -> Seq<char> {
    seq![':', '=']
}

/// The sign `=`.
pub open spec fn equals_sign() -> Seq<char> {
    seq!['=']
}

/// `s` without its first character.
pub open spec fn without_first(s: Seq<char>) -> Seq<char> {
    if s.len() > 0 {
        s.subrange(1, s.len() as int)
    } else {
        s
    }
}

/// Whether `key` begins with the character `c`.
pub open spec fn begins_with(key: Seq<char>, c: char) -> bool {
    key.len() > 0 && key[0] == c
}

/// Whether `key` asks for a file: `!`, then a path that ends in `.inc`.
pub open spec fn is_include(key: Seq<char>) -> bool {
    begins_with(key, '!') && spec_ends_with(key, inc_suffix())
}

/// Whether `key` is a test for equality: `?`, an `=` and one of the two
/// separators.
pub open spec fn is_conditional(key: Seq<char>) -> bool {
    &&& begins_with(key, '?')
    &&& spec_contains(key, equals_sign())
    &&& spec_contains(key, dash_separator()) || spec_contains(key, assign_separator())
}

/// The test that `key` writes down: `?name=expected`, a separator, and the
/// text to give. The separator is `:-` if it stands in the key exactly once,
/// else `:=` if that stands in it exactly once. A key that has neither, or
/// whose left side does not hold exactly one `=`, gives nothing.
pub open spec fn spec_conditional(key: Seq<char>) -> Directive<Seq<char>> {
    let by_dash = spec_split(key, dash_separator());
    let parts = if by_dash.len() == 2 {
        by_dash
    } else {
        spec_split(key, assign_separator())
    };
    if parts.len() == 2 {
        let left = spec_split(without_first(parts[0]), equals_sign());
        if left.len() == 2 {
            Directive::ConditionalEquals { name: left[0], expected: left[1], then_text: parts[1] }
        } else {
            Directive::Empty
        }
    } else {
        Directive::Empty
    }
}

/// The fan-out that the text after `*` writes down, given whether its first
/// character is a letter: where it is, or where the text is empty, the text
/// is the name and the elements are joined by a line feed; else the first
/// character joins them and the name follows.
pub open spec fn spec_multi_given(rest: Seq<char>, letter: bool) -> Directive<Seq<char>> {
    if rest.len() == 0 || letter {
        Directive::MultiValue { inner: rest, join: '\n' }
    } else {
        Directive::MultiValue { inner: without_first(rest), join: rest[0] }
    }
}

/// The fan-out that the text after `*` writes down.
pub open spec fn spec_multi(rest: Seq<char>) -> Directive<Seq<char>> {
    spec_multi_given(rest, rest.len() > 0 && is_letter(rest[0]))
}

/// The variable with a fallback that `key` writes down around `separator`:
/// the name before its first occurrence, and as fallback the text from there
/// to its next occurrence, or to the end.
pub open spec fn spec_default(key: Seq<char>, separator: Seq<char>, mode: Fallback) -> Directive<
    Seq<char>,
> {
    let parts = spec_split(key, separator);
    Directive::DefaultOr { name: parts[0], fallback: parts[1], mode }
}

/// What `key` asks for. The forms are tried in this order, and the first that
/// fits is taken.
pub open spec fn spec_classify(key: Seq<char>) -> Directive<Seq<char>> {
    if is_include(key) {
        Directive::Include { path: without_first(key) }
    } else if is_conditional(key) {
        spec_conditional(key)
    } else if begins_with(key, '*') {
        spec_multi(without_first(key))
    } else if begins_with(key, '=') {
        Directive::LiteralCopy { name: without_first(key) }
    } else if begins_with(key, '#') {
        Directive::CycleNext { name: without_first(key) }
    } else if spec_contains(key, dash_separator()) {
        spec_default(key, dash_separator(), Fallback::IfMissingOrEmpty)
    } else if spec_contains(key, assign_separator()) {
        spec_default(key, assign_separator(), Fallback::IfMissingOnly)
    } else {
        Directive::Plain { name: key }
    }
}

/// A text that holds a separator splits into two pieces or more.
pub proof fn lemma_split_found(s: Seq<char>, separator: Seq<char>)
    requires
        separator.len() > 0,
        spec_contains(s, separator),
    ensures
        spec_split(s, separator).len() >= 2,
{
    let at = crate::text::spec_find(s, separator, 0)->0;
    lemma_split_nonempty(s.subrange(at + separator.len(), s.len() as int), separator);
}

/// Copies `s` without its first character.
fn drop_first(s: &Vec<char>) -> (r: Vec<char>)
    ensures
        r@ == without_first(s@),
{
    if s.len() > 0 {
        slice(s, 1, s.len())
    } else {
        let r = slice(s, 0, 0);
        assert(r@ =~= s@);
        r
    }
}

/// Tests whether `key` begins with `c`.
fn first_is(key: &Vec<char>, c: char) -> (r: bool)
    ensures
        r == begins_with(key@, c),
{
    key.len() > 0 && key[0] == c
}

/// Copies a text.
fn copy(s: &Vec<char>) -> (r: Vec<char>)
    ensures
        r@ == s@,
{
    let r = slice(s, 0, s.len());
    assert(r@ =~= s@);
    r
}

/// Reads the fan-out that the text after `*` writes down, given whether its
/// first character is a letter.
pub fn multi_given(rest: &Vec<char>, letter: bool) -> (d: Directive<Vec<char>>)
    ensures
        d@ == spec_multi_given(rest@, letter),
{
    if rest.len() == 0 || letter {
        Directive::MultiValue { inner: copy(rest), join: '\n' }
    } else {
        let join = rest[0];
        Directive::MultiValue { inner: drop_first(rest), join }
    }
}

/// Reads the test for equality that `key` writes down.
fn conditional(key: &Vec<char>) -> (d: Directive<Vec<char>>)
    ensures
        d@ == spec_conditional(key@),
{
    let dash: Vec<char> = vec![':', '-'];
    let assign: Vec<char> = vec![':', '='];
    let equals: Vec<char> = vec!['='];
    assert(dash@ =~= dash_separator());
    assert(assign@ =~= assign_separator());
    assert(equals@ =~= equals_sign());
    let by_dash = split(key, &dash);
    let parts = if by_dash.len() == 2 {
        by_dash
    } else {
        split(key, &assign)
    };
    if parts.len() == 2 {
        let head = drop_first(&parts[0]);
        let left = split(&head, &equals);
        if left.len() == 2 {
            Directive::ConditionalEquals {
                name: copy(&left[0]),
                expected: copy(&left[1]),
                then_text: copy(&parts[1]),
            }
        } else {
            Directive::Empty
        }
    } else {
        Directive::Empty
    }
}

/// Reads the variable with a fallback that `key` writes down.
fn default_or(key: &Vec<char>, separator: &Vec<char>, mode: Fallback) -> (d: Directive<Vec<char>>)
    requires
        separator@.len() > 0,
        spec_contains(key@, separator@),
    ensures
        d@ == spec_default(key@, separator@, mode),
{
    proof {
        lemma_split_found(key@, separator@);
    }
    let parts = split(key, separator);
    Directive::DefaultOr { name: copy(&parts[0]), fallback: copy(&parts[1]), mode }
}

/// Classifies the key of a placeholder.
pub fn classify(key: &Vec<char>) -> (d: Directive<Vec<char>>)
    ensures
        d@ == spec_classify(key@),
{
    let inc: Vec<char> = vec!['.', 'i', 'n', 'c'];
    let dash: Vec<char> = vec![':', '-'];
    let assign: Vec<char> = vec![':', '='];
    let equals: Vec<char> = vec!['='];
    assert(inc@ =~= inc_suffix());
    assert(dash@ =~= dash_separator());
    assert(assign@ =~= assign_separator());
    assert(equals@ =~= equals_sign());
    let n = key.len();
    if first_is(key, '!') && n >= 4 && occurs_at(key, &inc, n - 4) {
        Directive::Include { path: drop_first(key) }
    } else if first_is(key, '?') && contains(key, &equals) && (contains(key, &dash) || contains(
        key,
        &assign,
    )) {
        conditional(key)
    } else if first_is(key, '*') {
        let rest = drop_first(key);
        let letter = rest.len() > 0 && is_alphabetic(rest[0]);
        multi_given(&rest, letter)
    } else if first_is(key, '=') {
        Directive::LiteralCopy { name: drop_first(key) }
    } else if first_is(key, '#') {
        Directive::CycleNext { name: drop_first(key) }
    } else if contains(key, &dash) {
        default_or(key, &dash, Fallback::IfMissingOrEmpty)
    } else if contains(key, &assign) {
        default_or(key, &assign, Fallback::IfMissingOnly)
    } else {
        Directive::Plain { name: copy(key) }
    }
}

} // verus!
