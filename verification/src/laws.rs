//! Laws of rendering.
use crate::directive::{
    dash_separator, inc_suffix, is_include, spec_classify, without_first, Directive,
    Fallback,
};
use crate::model::{
    directive_at, gap_start, plain_value, rendering, spec_fan_out, spec_include, spec_multi_value,
    spec_nested, spec_pass, spec_render, spec_substitute, Outcome, Pass, Rendered, Scope,
    MAX_DEPTH,
};
use crate::multi::{overlay, width};
use crate::scanner::{byte_spans, sentinel, spec_close, spec_scan, spec_scan_from, Span};
use crate::template::{default_end, default_start};
use crate::text::{
    byte_len, lemma_byte_at_concat, lemma_find, lemma_find_first, lemma_trim_clean, matches_at, spec_contains, spec_ends_with, spec_find, spec_split,
    spec_trim,
};
use vstd::prelude::*;

verus! {

/// `scope`, for a render that takes an include path of which nothing is
/// known as unreadable.
pub open spec fn lenient(scope: Scope) -> Scope {
    Scope { open: scope.open, close: scope.close, env: scope.env, files: scope.files, strict: false }
}

/// `scope`, for a render that stops at an include path of which nothing is
/// known.
pub open spec fn strict(scope: Scope) -> Scope {
    Scope { open: scope.open, close: scope.close, env: scope.env, files: scope.files, strict: true }
}

/// Whether of two outcomes, one of a lenient and one of a strict run of the
/// same computation, the first is a result and the second, where it is a
/// result too, is the same.
pub open spec fn settled<T>(loose: Outcome<T>, tight: Outcome<T>) -> bool {
    &&& loose is Done
    &&& tight is Done ==> tight == loose
}

/// A text without a start delimiter renders to itself.
pub proof fn lemma_plain_text(scope: Scope, vars: Map<Seq<char>, Seq<char>>, text: Seq<char>)
    requires
        !spec_contains(text, scope.open),
    ensures
        rendering(scope, vars, text) == Outcome::Done(text),
{
    let spans = spec_scan(text, scope.open, scope.close);
    let first = Pass::start(Map::empty());
    if text.len() == 0 {
        assert(spans =~= Seq::<Span>::empty());
        assert(spec_pass(scope, vars, text, spans, 0, 0, first) == Outcome::Done(first));
        assert(first.out + text.subrange(0, 0) =~= text);
    } else {
        assert(spans =~= seq![sentinel(0)]);
        assert(text.subrange(0, 0) =~= Seq::<char>::empty());
        assert(directive_at(text, spans[0]) == Directive::<Seq<char>>::Empty);
        assert(first.write(Seq::empty()).out =~= first.out);
        assert(first.write(text.subrange(0, 0)) == first);
        assert(spec_substitute(scope, vars, Directive::Empty, 0, first) == Outcome::Done(first));
        assert(spec_pass(scope, vars, text, spans, 1, 0, first) == Outcome::Done(first));
        assert(spec_pass(scope, vars, text, spans, 0, 0, first) == Outcome::Done(first));
        assert(gap_start(spans, 1) == 0);
        assert(first.out + text.subrange(0, text.len() as int) =~= text);
    }
}

/// A lenient nested render ends with a result, the one of the strict render
/// where that ends with a result.
pub proof fn lemma_nested_settled(
    scope: Scope,
    vars: Map<Seq<char>, Seq<char>>,
    text: Seq<char>,
    depth: nat,
    cycles: Map<Seq<char>, nat>,
)
    ensures
        settled(
            spec_nested(lenient(scope), vars, text, depth, cycles),
            spec_nested(strict(scope), vars, text, depth, cycles),
        ),
    decreases MAX_DEPTH - depth, 1int, 0int,
{
    if depth < MAX_DEPTH {
        lemma_render_settled(scope, vars, spec_trim(text), depth + 1, cycles);
    }
}

/// A lenient fan-out ends with a result, the one of the strict fan-out where
/// that ends with a result.
pub proof fn lemma_fan_out_settled(
    scope: Scope,
    vars: Map<Seq<char>, Seq<char>>,
    body: Seq<char>,
    join: char,
    depth: nat,
    width: nat,
    i: nat,
    so_far: Rendered,
)
    ensures
        settled(
            spec_fan_out(lenient(scope), vars, body, join, depth, width, i, so_far),
            spec_fan_out(strict(scope), vars, body, join, depth, width, i, so_far),
        ),
    decreases MAX_DEPTH - depth, 2int, width - i,
{
    if i < width {
        let round_vars = overlay(scope.open, scope.close, vars, body, i as int);
        lemma_nested_settled(scope, round_vars, body, depth, so_far.cycles);
        let round = spec_nested(lenient(scope), round_vars, body, depth, so_far.cycles)->Done_0;
        let joined = if i + 1 < width {
            round.text.push(join)
        } else {
            round.text
        };
        lemma_fan_out_settled(
            scope,
            vars,
            body,
            join,
            depth,
            width,
            i + 1,
            Rendered { text: so_far.text + joined, cycles: round.cycles },
        );
    }
}

/// A lenient multi-value directive ends with a result, the one of the strict
/// directive where that ends with a result.
pub proof fn lemma_multi_value_settled(
    scope: Scope,
    vars: Map<Seq<char>, Seq<char>>,
    inner: Seq<char>,
    join: char,
    depth: nat,
    pass: Pass,
)
    ensures
        settled(
            spec_multi_value(lenient(scope), vars, inner, join, depth, pass),
            spec_multi_value(strict(scope), vars, inner, join, depth, pass),
        ),
    decreases MAX_DEPTH - depth, 3int, 0int,
{
    if vars.contains_key(inner) {
        let body = vars[inner];
        match width(scope.open, scope.close, vars, body) {
            None => {
                lemma_nested_settled(scope, vars, body, depth, pass.cycles);
            },
            Some(n) => {
                lemma_fan_out_settled(
                    scope,
                    vars,
                    body,
                    join,
                    depth,
                    n,
                    0,
                    Rendered { text: Seq::empty(), cycles: pass.cycles },
                );
            },
        }
    }
}

/// A lenient include directive ends with a result, the one of the strict
/// directive where that ends with a result.
pub proof fn lemma_include_settled(
    scope: Scope,
    vars: Map<Seq<char>, Seq<char>>,
    path: Seq<char>,
    depth: nat,
    pass: Pass,
)
    ensures
        settled(
            spec_include(lenient(scope), vars, path, depth, pass),
            spec_include(strict(scope), vars, path, depth, pass),
        ),
    decreases MAX_DEPTH - depth, 3int, 0int,
{
    if scope.files.contains_key(path) {
        match scope.files[path] {
            None => {},
            Some(content) => {
                let trimmed = spec_trim(content);
                if spec_contains(trimmed, scope.open) {
                    lemma_nested_settled(scope, vars, trimmed, depth, pass.cycles);
                }
            },
        }
    }
}

/// A lenient directive ends with a result, the one of the strict directive
/// where that ends with a result.
pub proof fn lemma_substitute_settled(
    scope: Scope,
    vars: Map<Seq<char>, Seq<char>>,
    directive: Directive<Seq<char>>,
    depth: nat,
    pass: Pass,
)
    ensures
        settled(
            spec_substitute(lenient(scope), vars, directive, depth, pass),
            spec_substitute(strict(scope), vars, directive, depth, pass),
        ),
    decreases MAX_DEPTH - depth, 4int, 0int,
{
    match directive {
        Directive::Include { path } => {
            lemma_include_settled(scope, vars, path, depth, pass);
        },
        Directive::MultiValue { inner, join } => {
            lemma_multi_value_settled(scope, vars, inner, join, depth, pass);
        },
        _ => {},
    }
}

/// A lenient pass ends with a result, the one of the strict pass where that
/// ends with a result.
pub proof fn lemma_pass_settled(
    scope: Scope,
    vars: Map<Seq<char>, Seq<char>>,
    text: Seq<char>,
    spans: Seq<Span>,
    k: nat,
    depth: nat,
    pass: Pass,
)
    ensures
        settled(
            spec_pass(lenient(scope), vars, text, spans, k, depth, pass),
            spec_pass(strict(scope), vars, text, spans, k, depth, pass),
        ),
    decreases MAX_DEPTH - depth, 5int, spans.len() - k,
{
    if k < spans.len() {
        let literal = text.subrange(gap_start(spans, k as int), spans[k as int].start);
        let directive = directive_at(text, spans[k as int]);
        lemma_substitute_settled(scope, vars, directive, depth, pass.write(literal));
        let next = spec_substitute(lenient(scope), vars, directive, depth, pass.write(literal))->Done_0;
        lemma_pass_settled(scope, vars, text, spans, k + 1, depth, next);
    }
}

/// A lenient render ends with a result, the one of the strict render where
/// that ends with a result.
pub proof fn lemma_render_settled(
    scope: Scope,
    vars: Map<Seq<char>, Seq<char>>,
    text: Seq<char>,
    depth: nat,
    cycles: Map<Seq<char>, nat>,
)
    ensures
        settled(
            spec_render(lenient(scope), vars, text, depth, cycles),
            spec_render(strict(scope), vars, text, depth, cycles),
        ),
    decreases MAX_DEPTH - depth, 6int, 0int,
{
    let spans = spec_scan(text, scope.open, scope.close);
    lemma_pass_settled(scope, vars, text, spans, 0, depth, Pass::start(cycles));
    let pass = spec_pass(lenient(scope), vars, text, spans, 0, depth, Pass::start(cycles))->Done_0;
    let out = pass.out + text.subrange(gap_start(spans, spans.len() as int), text.len() as int);
    if !pass.literal && depth < MAX_DEPTH && spec_contains(out, scope.open) {
        lemma_render_settled(scope, vars, spec_trim(out), depth + 1, pass.cycles);
    }
}

/// A render that takes unknown include paths as unreadable always gives a
/// text. Where the render that stops at such a path gives a text, the host
/// knows every path that the render reads, and the two give the same text.
pub proof fn lemma_rendering_settled(scope: Scope, vars: Map<Seq<char>, Seq<char>>, text: Seq<char>)
    ensures
        rendering(lenient(scope), vars, text) is Done,
        rendering(strict(scope), vars, text) is Done ==> rendering(strict(scope), vars, text)
            == rendering(lenient(scope), vars, text),
{
    lemma_render_settled(scope, vars, text, 0, Map::empty());
}

/// The text of one placeholder: `key` between the two delimiters.
pub open spec fn placeholder(open: Seq<char>, key: Seq<char>, close: Seq<char>) -> Seq<char> {
    open + key + close
}

/// Whether, in the placeholder of `key`, no delimiter stands after the start
/// of the first and before the end delimiter.
#[verifier::opaque]
pub open spec fn undivided(open: Seq<char>, key: Seq<char>, close: Seq<char>) -> bool {
    let text = placeholder(open, key, close);
    &&& open.len() > 0
    &&& close.len() > 0
    &&& forall|at: int|
        0 < at < open.len() + key.len() ==> !matches_at(text, open, at) && !matches_at(
            text,
            close,
            at,
        )
    &&& !matches_at(text, open, (open.len() + key.len()) as int)
}

/// In an undivided placeholder, the level that its start delimiter raised
/// comes back to zero at its end delimiter.
proof fn lemma_closes_at_end(open: Seq<char>, key: Seq<char>, close: Seq<char>, at: int)
    requires
        undivided(open, key, close),
        0 < at <= open.len() + key.len(),
    ensures
        spec_close(placeholder(open, key, close), open, close, at, 1) == Some(
            (open.len() + key.len()) as int,
        ),
    decreases open.len() + key.len() - at,
{
    reveal(undivided);
    let text = placeholder(open, key, close);
    let stop = (open.len() + key.len()) as int;
    if at < stop {
        lemma_closes_at_end(open, key, close, at + 1);
    } else {
        assert(text.subrange(stop, stop + close.len()) =~= close);
    }
}

/// The scan of an undivided placeholder finds it, whole, and then the
/// sentinel at the end of the text.
pub proof fn lemma_scan_placeholder(open: Seq<char>, key: Seq<char>, close: Seq<char>)
    requires
        undivided(open, key, close),
    ensures
        spec_scan(placeholder(open, key, close), open, close) == seq![
            Span {
                start: 0,
                key_start: open.len() as int,
                key_end: (open.len() + key.len()) as int,
                end: (open.len() + key.len() + close.len()) as int,
            },
            sentinel((open.len() + key.len() + close.len()) as int),
        ],
{
    reveal(undivided);
    let text = placeholder(open, key, close);
    let stop = (open.len() + key.len()) as int;
    let end = stop + close.len();
    assert(text.subrange(0, open.len() as int) =~= open);
    assert(spec_find(text, open, 0) == Some(0int));
    if stop > 0 {
        lemma_closes_at_end(open, key, close, 1);
    }
    assert(spec_close(text, open, close, 0, 0) == Some(stop));
    assert(spec_find(text, open, end) is None);
    assert(spec_scan_from(text, open, close, end) =~= seq![sentinel(end)]);
    let span = Span { start: 0, key_start: open.len() as int, key_end: stop, end };
    assert(spec_scan_from(text, open, close, 0) =~= seq![span] + seq![sentinel(end)]);
    assert(seq![span] + seq![sentinel(end)] =~= seq![span, sentinel(end)]);
}

/// The byte spans of an undivided placeholder: it takes the bytes of the
/// whole text, its key takes the bytes between those of the two delimiters,
/// and the sentinel stands at the last byte's end.
pub proof fn lemma_placeholder_bytes(open: Seq<char>, key: Seq<char>, close: Seq<char>)
    requires
        undivided(open, key, close),
    ensures
        byte_len(placeholder(open, key, close)) == byte_len(open) + byte_len(key) + byte_len(close),
        byte_spans(
            placeholder(open, key, close),
            spec_scan(placeholder(open, key, close), open, close),
        ) == seq![
            Span {
                start: 0,
                key_start: byte_len(open),
                key_end: byte_len(open) + byte_len(key),
                end: byte_len(open) + byte_len(key) + byte_len(close),
            },
            sentinel(byte_len(open) + byte_len(key) + byte_len(close)),
        ],
{
    let text = placeholder(open, key, close);
    lemma_scan_placeholder(open, key, close);
    lemma_byte_at_concat(open + key, close, 0);
    lemma_byte_at_concat(open + key, close, close.len() as int);
    lemma_byte_at_concat(open + key, close, (open.len() + key.len()) as int);
    lemma_byte_at_concat(open, key, key.len() as int);
    lemma_byte_at_concat(open, key, open.len() as int);
    lemma_byte_at_concat(open + key, close, open.len() as int);
    let spans = spec_scan(text, open, close);
    let bytes = byte_spans(text, spans);
    let end = byte_len(open) + byte_len(key) + byte_len(close);
    assert(bytes =~= seq![
        Span {
            start: 0,
            key_start: byte_len(open),
            key_end: byte_len(open) + byte_len(key),
            end,
        },
        sentinel(end),
    ]);
}

/// What the render of a template that is one undivided placeholder gives:
/// what the directive of its key gives, rendered again, one level deeper,
/// where the render of any text would be.
pub proof fn lemma_render_placeholder(
    scope: Scope,
    vars: Map<Seq<char>, Seq<char>>,
    key: Seq<char>,
    depth: nat,
    cycles: Map<Seq<char>, nat>,
)
    requires
        undivided(scope.open, key, scope.close),
    ensures
        spec_render(scope, vars, placeholder(scope.open, key, scope.close), depth, cycles) == match
        spec_substitute(scope, vars, spec_classify(key), depth, Pass::start(cycles)) {
            Outcome::Missing(path) => Outcome::Missing(path),
            Outcome::Done(pass) => if !pass.literal && depth < MAX_DEPTH && spec_contains(
                pass.out,
                scope.open,
            ) {
                spec_render(scope, vars, spec_trim(pass.out), depth + 1, pass.cycles)
            } else {
                Outcome::Done(Rendered { text: pass.out, cycles: pass.cycles })
            },
        },
{
    let text = placeholder(scope.open, key, scope.close);
    let stop = (scope.open.len() + key.len()) as int;
    let end = stop + scope.close.len();
    lemma_scan_placeholder(scope.open, key, scope.close);
    let spans = spec_scan(text, scope.open, scope.close);
    let first = Pass::start(cycles);
    assert(text.subrange(0, 0) =~= Seq::<char>::empty());
    assert(first.out + Seq::<char>::empty() =~= first.out);
    assert(first.write(text.subrange(0, 0)) == first);
    assert(text.subrange(scope.open.len() as int, stop) =~= key);
    assert(directive_at(text, spans[0]) == spec_classify(key));
    match spec_substitute(scope, vars, spec_classify(key), depth, first) {
        Outcome::Missing(path) => {
            assert(spec_pass(scope, vars, text, spans, 0, depth, first) == Outcome::<
                Pass,
            >::Missing(path));
        },
        Outcome::Done(pass) => {
            assert(text.subrange(end, end) =~= Seq::<char>::empty());
            assert(pass.out + Seq::<char>::empty() =~= pass.out);
            assert(pass.write(text.subrange(end, end)) == pass);
            assert(directive_at(text, spans[1]) == Directive::<Seq<char>>::Empty);
            assert(spec_substitute(scope, vars, Directive::Empty, depth, pass) == Outcome::Done(
                pass,
            ));
            assert(spec_pass(scope, vars, text, spans, 2, depth, pass) == Outcome::Done(pass));
            assert(spec_pass(scope, vars, text, spans, 1, depth, pass) == Outcome::Done(pass));
            assert(spec_pass(scope, vars, text, spans, 0, depth, first) == Outcome::Done(pass));
            assert(gap_start(spans, 2) == end);
            assert(pass.out + text.subrange(end, text.len() as int) =~= pass.out);
        },
    }
}

/// With the delimiters `${` and `}`, the placeholder of a key that holds
/// neither `$` nor `}` is undivided, and trimming leaves it as it is.
pub proof fn lemma_default_placeholder(key: Seq<char>)
    requires
        forall|i: int| 0 <= i < key.len() ==> key[i] != '$' && key[i] != '}',
    ensures
        undivided(default_start(), key, default_end()),
        spec_trim(placeholder(default_start(), key, default_end())) == placeholder(
            default_start(),
            key,
            default_end(),
        ),
{
    reveal(undivided);
    let open = default_start();
    let close = default_end();
    let text = placeholder(open, key, close);
    assert forall|at: int| 0 < at <= open.len() + key.len() implies !matches_at(text, open, at) by {
        if matches_at(text, open, at) {
            assert(text.subrange(at, at + 2)[0] == '$');
        }
    }
    assert forall|at: int| 0 < at < open.len() + key.len() implies !matches_at(text, close, at) by {
        if matches_at(text, close, at) {
            assert(text.subrange(at, at + 1)[0] == '}');
        }
    }
    lemma_trim_clean(text);
}

/// A literal copy gives the value of its variable as it is, whatever that
/// value holds: `${=name}` renders to the value of `name`, untrimmed and
/// not expanded.
pub proof fn lemma_literal_copy(scope: Scope, vars: Map<Seq<char>, Seq<char>>, name: Seq<char>)
    requires
        scope.open == default_start(),
        scope.close == default_end(),
        forall|i: int| 0 <= i < name.len() ==> name[i] != '$' && name[i] != '}',
        vars.contains_key(name),
    ensures
        rendering(scope, vars, placeholder(default_start(), seq!['='] + name, default_end()))
            == Outcome::Done(vars[name]),
{
    let key = seq!['='] + name;
    lemma_default_placeholder(key);
    lemma_render_placeholder(scope, vars, key, 0, Map::empty());
    assert(without_first(key) =~= name);
    assert(spec_classify(key) == Directive::LiteralCopy { name });
    assert(Pass::start(Map::empty()).out + vars[name] =~= vars[name]);
}

/// An include directive gives nothing for a file that cannot be read, and
/// for one that can, its content, trimmed, where that holds no start
/// delimiter. `${!path}` renders to that, for a path that ends in `.inc`.
pub proof fn lemma_include_file(scope: Scope, vars: Map<Seq<char>, Seq<char>>, path: Seq<char>)
    requires
        scope.open == default_start(),
        scope.close == default_end(),
        forall|i: int| 0 <= i < path.len() ==> path[i] != '$' && path[i] != '}',
        spec_ends_with(path, inc_suffix()),
        scope.files.contains_key(path),
        scope.files[path] matches Some(content) ==> !spec_contains(spec_trim(content), scope.open),
    ensures
        rendering(scope, vars, placeholder(default_start(), seq!['!'] + path, default_end()))
            == Outcome::Done(
            match scope.files[path] {
                Some(content) => spec_trim(content),
                None => Seq::empty(),
            },
        ),
{
    let key = seq!['!'] + path;
    lemma_default_placeholder(key);
    lemma_render_placeholder(scope, vars, key, 0, Map::empty());
    assert(without_first(key) =~= path);
    assert(key.subrange(key.len() - 4, key.len() as int) =~= path.subrange(
        path.len() - 4,
        path.len() as int,
    ));
    assert(is_include(key));
    assert(spec_classify(key) == Directive::Include { path });
    let first = Pass::start(Map::empty());
    match scope.files[path] {
        Some(content) => {
            assert(first.out + spec_trim(content) =~= spec_trim(content));
        },
        None => {},
    }
}

/// The render, at any level, of an undivided placeholder whose key is the
/// name of a plain variable that is bound to that same placeholder.
proof fn lemma_self_reference_at(
    scope: Scope,
    vars: Map<Seq<char>, Seq<char>>,
    name: Seq<char>,
    depth: nat,
    cycles: Map<Seq<char>, nat>,
)
    requires
        undivided(scope.open, name, scope.close),
        spec_trim(placeholder(scope.open, name, scope.close)) == placeholder(
            scope.open,
            name,
            scope.close,
        ),
        spec_classify(name) == (Directive::Plain { name }),
        vars.contains_key(name),
        vars[name] == placeholder(scope.open, name, scope.close),
        depth <= MAX_DEPTH,
    ensures
        spec_render(scope, vars, placeholder(scope.open, name, scope.close), depth, cycles)
            == Outcome::Done(Rendered { text: placeholder(scope.open, name, scope.close), cycles }),
    decreases MAX_DEPTH - depth,
{
    let text = placeholder(scope.open, name, scope.close);
    lemma_render_placeholder(scope, vars, name, depth, cycles);
    let first = Pass::start(cycles);
    let pass = Pass { out: text, cycles, multi: false, literal: false };
    assert(spec_substitute(scope, vars, spec_classify(name), depth, first) == Outcome::Done(pass))
        by {
        assert(first.out + text =~= text);
    }
    if depth < MAX_DEPTH {
        lemma_self_reference_at(scope, vars, name, depth + 1, cycles);
    }
}

/// A variable that is bound to the placeholder of its own name does not
/// make a render run on: the render stops at the depth limit and gives the
/// placeholder, as text.
pub proof fn lemma_self_reference(scope: Scope, vars: Map<Seq<char>, Seq<char>>, name: Seq<char>)
    requires
        scope.open == default_start(),
        scope.close == default_end(),
        forall|i: int| 0 <= i < name.len() ==> name[i] != '$' && name[i] != '}',
        spec_classify(name) == (Directive::Plain { name }),
        vars.contains_key(name),
        vars[name] == placeholder(default_start(), name, default_end()),
    ensures
        rendering(scope, vars, placeholder(default_start(), name, default_end()))
            == Outcome::Done(placeholder(default_start(), name, default_end())),
{
    lemma_default_placeholder(name);
    lemma_self_reference_at(scope, vars, name, 0, Map::empty());
}

/// A plain variable gives its value, trimmed: `${name}` renders to the
/// trimmed value of `name` in the variables, else in the environment, else
/// to nothing, where that value holds no start delimiter.
pub proof fn lemma_plain_variable(scope: Scope, vars: Map<Seq<char>, Seq<char>>, name: Seq<char>)
    requires
        scope.open == default_start(),
        scope.close == default_end(),
        forall|i: int| 0 <= i < name.len() ==> name[i] != '$' && name[i] != '}',
        spec_classify(name) == (Directive::Plain { name }),
        !spec_contains(spec_trim(plain_value(scope, vars, name)), default_start()),
    ensures
        rendering(scope, vars, placeholder(default_start(), name, default_end())) == Outcome::Done(
            spec_trim(plain_value(scope, vars, name)),
        ),
{
    lemma_default_placeholder(name);
    lemma_render_placeholder(scope, vars, name, 0, Map::empty());
    let value = spec_trim(plain_value(scope, vars, name));
    assert(Pass::start(Map::empty()).out + value =~= value);
}

/// The key `name:-fallback`, the text of a variable with a fallback.
pub open spec fn default_key(name: Seq<char>, fallback: Seq<char>) -> Seq<char> {
    name + dash_separator() + fallback
}

/// Whether `name` can stand before `:-` as the name of a variable with a
/// fallback: it holds no `:` and begins with none of the signs of the other
/// directives.
pub open spec fn names_default(name: Seq<char>) -> bool {
    &&& forall|i: int| 0 <= i < name.len() ==> name[i] != ':'
    &&& name.len() > 0 ==> name[0] != '!' && name[0] != '?' && name[0] != '*' && name[0] != '='
        && name[0] != '#'
}

/// In the key `name:-fallback`, the first `:-` stands right after `name`.
proof fn lemma_find_default(name: Seq<char>, fallback: Seq<char>)
    requires
        forall|i: int| 0 <= i < name.len() ==> name[i] != ':',
    ensures
        spec_find(default_key(name, fallback), dash_separator(), 0) == Some(name.len() as int),
{
    let dash = dash_separator();
    let key = default_key(name, fallback);
    let at = name.len() as int;
    assert(key.subrange(at, at + 2) =~= dash);
    assert forall|j: int| 0 <= j < at implies !matches_at(key, dash, j) by {
        if j + 2 <= key.len() {
            assert(key.subrange(j, j + 2)[0] == name[j]);
            assert(dash[0] == ':');
        }
    }
    lemma_find_first(key, dash, 0, at);
}

/// The key `name:-fallback` splits at `:-` into `name` and `fallback`.
proof fn lemma_split_default(name: Seq<char>, fallback: Seq<char>)
    requires
        forall|i: int| 0 <= i < name.len() ==> name[i] != ':',
        !spec_contains(fallback, dash_separator()),
    ensures
        spec_contains(default_key(name, fallback), dash_separator()),
        spec_split(default_key(name, fallback), dash_separator()) == seq![name, fallback],
{
    let dash = dash_separator();
    let key = default_key(name, fallback);
    let at = name.len() as int;
    lemma_find_default(name, fallback);
    assert(key.subrange(0, at) =~= name);
    assert(key.subrange(at + 2, key.len() as int) =~= fallback);
    assert(spec_split(fallback, dash) == seq![fallback]);
    assert(spec_split(key, dash) == seq![name] + seq![fallback]);
    assert(seq![name] + seq![fallback] =~= seq![name, fallback]);
}

/// The key `name:-fallback` asks for the variable `name` with the fallback
/// `fallback`.
pub proof fn lemma_classify_default(name: Seq<char>, fallback: Seq<char>)
    requires
        names_default(name),
        !spec_contains(fallback, dash_separator()),
    ensures
        spec_classify(default_key(name, fallback)) == (Directive::DefaultOr {
            name,
            fallback,
            mode: Fallback::IfMissingOrEmpty,
        }),
{
    let key = default_key(name, fallback);
    lemma_split_default(name, fallback);
    let first = key[0];
    assert(first != '!' && first != '?' && first != '*' && first != '=' && first != '#') by {
        if name.len() > 0 {
            assert(key[0] == name[0]);
        } else {
            assert(key[0] == ':');
        }
    }
    assert(!is_include(key));
    assert(!crate::directive::is_conditional(key));
}

/// A variable with a fallback gives its value where it is bound to a text
/// that is not empty, and its fallback where neither the variables nor the
/// environment bind it: `${name:-fallback}` renders to the trimmed value or
/// to the fallback, where what it gives holds no start delimiter.
pub proof fn lemma_default_or(
    scope: Scope,
    vars: Map<Seq<char>, Seq<char>>,
    name: Seq<char>,
    fallback: Seq<char>,
)
    requires
        scope.open == default_start(),
        scope.close == default_end(),
        names_default(name),
        !spec_contains(fallback, dash_separator()),
        forall|i: int| 0 <= i < name.len() ==> name[i] != '$' && name[i] != '}',
        forall|i: int| 0 <= i < fallback.len() ==> fallback[i] != '$' && fallback[i] != '}',
        vars.contains_key(name) && vars[name].len() > 0 ==> !spec_contains(
            spec_trim(vars[name]),
            default_start(),
        ),
    ensures
        vars.contains_key(name) && vars[name].len() > 0 ==> rendering(
            scope,
            vars,
            placeholder(default_start(), default_key(name, fallback), default_end()),
        ) == Outcome::Done(spec_trim(vars[name])),
        !vars.contains_key(name) && !scope.env.contains_key(name) ==> rendering(
            scope,
            vars,
            placeholder(default_start(), default_key(name, fallback), default_end()),
        ) == Outcome::Done(fallback),
{
    let key = default_key(name, fallback);
    lemma_classify_default(name, fallback);
    lemma_default_placeholder(key);
    lemma_render_placeholder(scope, vars, key, 0, Map::empty());
    let first = Pass::start(Map::empty());
    if vars.contains_key(name) && vars[name].len() > 0 {
        assert(first.out + spec_trim(vars[name]) =~= spec_trim(vars[name]));
    }
    if !vars.contains_key(name) && !scope.env.contains_key(name) {
        assert(first.out + fallback =~= fallback);
        assert(!spec_contains(fallback, default_start())) by {
            lemma_find(fallback, default_start(), 0);
            if spec_find(fallback, default_start(), 0) is Some {
                let at = spec_find(fallback, default_start(), 0)->0;
                assert(fallback.subrange(at, at + 2)[0] == '$');
            }
        }
    }
}

} // verus!
