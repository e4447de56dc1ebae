//! What a render gives, as mathematics.
//!
//! A render walks the placeholders of a text in order. Before each it copies
//! the literal text since the one before, then what the placeholder's
//! directive gives. After the last it copies the rest of the text. While the
//! result still holds a start delimiter, no literal copy was made and the
//! depth is below the limit, the result is trimmed and rendered again, one
//! level deeper. Includes and multi-value bodies are rendered one level
//! deeper too; at the limit they are taken as they are.
//!
//! Nothing but the depth limit bounds the work of a render. Each level may
//! expand every placeholder of the level above, and a fan-out of `n` rounds
//! inside one of `m` rounds renders its body `n * m` times: the cost grows
//! with the product of the fan-outs, not with the length of the text.
use crate::directive::{spec_classify, Directive};
use crate::multi::{overlay, pipe, width};
use crate::scanner::{spec_scan, Span};
use crate::text::{spec_contains, spec_split, spec_trim};
use crate::variables::cycle_index;
use vstd::prelude::*;

verus! {

/// The deepest level at which a text is expanded.
pub const MAX_DEPTH: usize = 16;

/// Where a render looks things up.
pub struct Scope {
    /// The start delimiter.
    pub open: Seq<char>,
    /// The end delimiter.
    pub close: Seq<char>,
    /// The environment variables.
    pub env: Map<Seq<char>, Seq<char>>,
    /// What is known of the include files: the content of each path that was
    /// read, `None` for each that could not be read.
    pub files: Map<Seq<char>, Option<Seq<char>>>,
    /// Whether the render stops at an include path of which nothing is
    /// known, instead of taking it as unreadable.
    pub strict: bool,
}

/// How a computation ended: with a result, or at an include path of which
/// nothing is known.
pub enum Outcome<T> {
    /// The result.
    Done(T),
    /// The path.
    Missing(Seq<char>),
}

/// A rendered text, and where the cycle directives stand after it.
pub struct Rendered {
    pub text: Seq<char>,
    pub cycles: Map<Seq<char>, nat>,
}

/// The state of one pass over the placeholders of a text.
pub struct Pass {
    /// The output so far.
    pub out: Seq<char>,
    /// Where the cycle directives stand.
    pub cycles: Map<Seq<char>, nat>,
    /// Whether a multi-value directive came earlier in this pass.
    pub multi: bool,
    /// Whether a literal copy was made in this pass.
    pub literal: bool,
}

impl Pass {
    /// The state at the start of a pass.
    pub open spec fn start(cycles: Map<Seq<char>, nat>) -> Pass {
        Pass { out: Seq::empty(), cycles, multi: false, literal: false }
    }

    /// The state after `text` was written.
    pub open spec fn write(self, text: Seq<char>) -> Pass {
        Pass { out: self.out + text, cycles: self.cycles, multi: self.multi, literal: self.literal }
    }

    /// The state after a nested render was written.
    pub open spec fn write_rendered(self, text: Seq<char>, cycles: Map<Seq<char>, nat>) -> Pass {
        Pass { out: self.out + text, cycles, multi: self.multi, literal: self.literal }
    }
}

/// The value of the variable `name`: from the variables, else from the
/// environment, else empty.
pub open spec fn plain_value(scope: Scope, vars: Map<Seq<char>, Seq<char>>, name: Seq<char>) -> Seq<
    char,
> {
    if vars.contains_key(name) {
        vars[name]
    } else if scope.env.contains_key(name) {
        scope.env[name]
    } else {
        Seq::empty()
    }
}

/// The pass after the value of a variable was written, trimmed. After a
/// multi-value directive in the same pass a value list is not written.
pub open spec fn write_value(pass: Pass, value: Seq<char>) -> Pass {
    if pass.multi && spec_contains(value, pipe()) {
        pass
    } else {
        pass.write(spec_trim(value))
    }
}

/// The pass after a variable with a fallback: the value of `name` where the
/// variables bind it to a text that is not empty, else its value in the
/// environment, both written as the value of a plain variable is; else
/// `fallback`, as it stands.
pub open spec fn write_default(
    pass: Pass,
    scope: Scope,
    vars: Map<Seq<char>, Seq<char>>,
    name: Seq<char>,
    fallback: Seq<char>,
) -> Pass {
    if vars.contains_key(name) && vars[name].len() > 0 {
        write_value(pass, vars[name])
    } else if scope.env.contains_key(name) {
        write_value(pass, scope.env[name])
    } else {
        pass.write(fallback)
    }
}

/// The pass after a test for equality: `then_text`, trimmed, where the
/// variable `name` is bound to exactly `expected`.
pub open spec fn write_conditional(
    pass: Pass,
    vars: Map<Seq<char>, Seq<char>>,
    name: Seq<char>,
    expected: Seq<char>,
    then_text: Seq<char>,
) -> Pass {
    if vars.contains_key(name) && vars[name] == expected {
        pass.write(spec_trim(then_text))
    } else {
        pass
    }
}

/// The pass after a literal copy: the value of `name` as it is, and no
/// further expansion of this pass's output.
pub open spec fn write_literal(pass: Pass, vars: Map<Seq<char>, Seq<char>>, name: Seq<char>) -> Pass {
    if vars.contains_key(name) {
        Pass { out: pass.out + vars[name], cycles: pass.cycles, multi: pass.multi, literal: true }
    } else {
        pass
    }
}

/// The pass after a cycle directive: the element of the list at the index
/// that the cycle stands at, and the cycle moved on by one, around the end of
/// the list.
pub open spec fn write_cycle(pass: Pass, vars: Map<Seq<char>, Seq<char>>, name: Seq<char>) -> Pass {
    if vars.contains_key(name) {
        let parts = spec_split(vars[name], pipe());
        let at = cycle_index(pass.cycles, name) as int % parts.len() as int;
        Pass {
            out: pass.out + parts[at],
            cycles: pass.cycles.insert(name, ((at + 1) % parts.len() as int) as nat),
            multi: pass.multi,
            literal: pass.literal,
        }
    } else {
        pass
    }
}

/// The directive of the placeholder at `span`: nothing for the sentinel, else
/// what its key asks for.
pub open spec fn directive_at(text: Seq<char>, span: Span) -> Directive<Seq<char>> {
    if span.start == span.end {
        Directive::Empty
    } else {
        spec_classify(text.subrange(span.key_start, span.key_end))
    }
}

/// Where the literal text before placeholder `k` begins; for `k` the number
/// of placeholders, where the rest of the text begins.
pub open spec fn gap_start(spans: Seq<Span>, k: int) -> int {
    if k <= 0 {
        0
    } else {
        spans[k - 1].end
    }
}

/// The render of a text that stands inside another: one level deeper, or,
/// at the depth limit, the text as it is. Either way it is trimmed first.
pub open spec fn spec_nested(
    scope: Scope,
    vars: Map<Seq<char>, Seq<char>>,
    text: Seq<char>,
    depth: nat,
    cycles: Map<Seq<char>, nat>,
) -> Outcome<Rendered>
    decreases MAX_DEPTH - depth, 1int, 0int,
{
    if depth < MAX_DEPTH {
        spec_render(scope, vars, spec_trim(text), depth + 1, cycles)
    } else {
        Outcome::Done(Rendered { text: spec_trim(text), cycles })
    }
}

/// Rounds `i` to `width` of a fan-out: each renders `body` with the variables
/// of its round, and all but the last are followed by `join`.
pub open spec fn spec_fan_out(
    scope: Scope,
    vars: Map<Seq<char>, Seq<char>>,
    body: Seq<char>,
    join: char,
    depth: nat,
    width: nat,
    i: nat,
    so_far: Rendered,
) -> Outcome<Rendered>
    decreases MAX_DEPTH - depth, 2int, width - i,
{
    if i >= width {
        Outcome::Done(so_far)
    } else {
        match spec_nested(
            scope,
            overlay(scope.open, scope.close, vars, body, i as int),
            body,
            depth,
            so_far.cycles,
        ) {
            Outcome::Missing(path) => Outcome::Missing(path),
            Outcome::Done(round) => {
                let joined = if i + 1 < width {
                    round.text.push(join)
                } else {
                    round.text
                };
                spec_fan_out(
                    scope,
                    vars,
                    body,
                    join,
                    depth,
                    width,
                    i + 1,
                    Rendered { text: so_far.text + joined, cycles: round.cycles },
                )
            },
        }
    }
}

/// The pass after a multi-value directive. Where `inner` is bound, its value
/// is the body: it is rendered once for each element of the shortest value
/// list that fans it out, or once as it is where none does.
pub open spec fn spec_multi_value(
    scope: Scope,
    vars: Map<Seq<char>, Seq<char>>,
    inner: Seq<char>,
    join: char,
    depth: nat,
    pass: Pass,
) -> Outcome<Pass>
    decreases MAX_DEPTH - depth, 3int, 0int,
{
    let marked = Pass { out: pass.out, cycles: pass.cycles, multi: true, literal: pass.literal };
    if !vars.contains_key(inner) {
        Outcome::Done(marked)
    } else {
        let body = vars[inner];
        let expanded = match width(scope.open, scope.close, vars, body) {
            None => spec_nested(scope, vars, body, depth, pass.cycles),
            Some(n) => spec_fan_out(
                scope,
                vars,
                body,
                join,
                depth,
                n,
                0,
                Rendered { text: Seq::empty(), cycles: pass.cycles },
            ),
        };
        match expanded {
            Outcome::Missing(path) => Outcome::Missing(path),
            Outcome::Done(r) => Outcome::Done(marked.write_rendered(r.text, r.cycles)),
        }
    }
}

/// The pass after an include directive. A file that cannot be read gives
/// nothing; one that can gives its content, trimmed, and rendered one level
/// deeper where it holds a start delimiter. A path of which nothing is known
/// ends a strict render and gives nothing in any other.
pub open spec fn spec_include(
    scope: Scope,
    vars: Map<Seq<char>, Seq<char>>,
    path: Seq<char>,
    depth: nat,
    pass: Pass,
) -> Outcome<Pass>
    decreases MAX_DEPTH - depth, 3int, 0int,
{
    if !scope.files.contains_key(path) {
        if scope.strict {
            Outcome::Missing(path)
        } else {
            Outcome::Done(pass)
        }
    } else {
        match scope.files[path] {
            None => Outcome::Done(pass),
            Some(content) => {
                let trimmed = spec_trim(content);
                if spec_contains(trimmed, scope.open) {
                    match spec_nested(scope, vars, trimmed, depth, pass.cycles) {
                        Outcome::Missing(missing) => Outcome::Missing(missing),
                        Outcome::Done(r) => Outcome::Done(
                            pass.write_rendered(spec_trim(r.text), r.cycles),
                        ),
                    }
                } else {
                    Outcome::Done(pass.write(trimmed))
                }
            },
        }
    }
}

/// The pass after the directive `directive`.
pub open spec fn spec_substitute(
    scope: Scope,
    vars: Map<Seq<char>, Seq<char>>,
    directive: Directive<Seq<char>>,
    depth: nat,
    pass: Pass,
) -> Outcome<Pass>
    decreases MAX_DEPTH - depth, 4int, 0int,
{
    match directive {
        Directive::Plain { name } => Outcome::Done(
            write_value(pass, plain_value(scope, vars, name)),
        ),
        Directive::DefaultOr { name, fallback, mode } => Outcome::Done(
            write_default(pass, scope, vars, name, fallback),
        ),
        Directive::Include { path } => spec_include(scope, vars, path, depth, pass),
        Directive::ConditionalEquals { name, expected, then_text } => Outcome::Done(
            write_conditional(pass, vars, name, expected, then_text),
        ),
        Directive::MultiValue { inner, join } => spec_multi_value(
            scope,
            vars,
            inner,
            join,
            depth,
            pass,
        ),
        Directive::LiteralCopy { name } => Outcome::Done(write_literal(pass, vars, name)),
        Directive::CycleNext { name } => Outcome::Done(write_cycle(pass, vars, name)),
        Directive::Empty => Outcome::Done(pass),
    }
}

/// The pass from placeholder `k` on.
pub open spec fn spec_pass(
    scope: Scope,
    vars: Map<Seq<char>, Seq<char>>,
    text: Seq<char>,
    spans: Seq<Span>,
    k: nat,
    depth: nat,
    pass: Pass,
) -> Outcome<Pass>
    decreases MAX_DEPTH - depth, 5int, spans.len() - k,
{
    if k >= spans.len() {
        Outcome::Done(pass)
    } else {
        let literal = text.subrange(gap_start(spans, k as int), spans[k as int].start);
        match spec_substitute(
            scope,
            vars,
            directive_at(text, spans[k as int]),
            depth,
            pass.write(literal),
        ) {
            Outcome::Missing(path) => Outcome::Missing(path),
            Outcome::Done(next) => spec_pass(scope, vars, text, spans, k + 1, depth, next),
        }
    }
}

/// The render of the template source `text` at level `depth`.
pub open spec fn spec_render(
    scope: Scope,
    vars: Map<Seq<char>, Seq<char>>,
    text: Seq<char>,
    depth: nat,
    cycles: Map<Seq<char>, nat>,
) -> Outcome<Rendered>
    decreases MAX_DEPTH - depth, 6int, 0int,
{
    let spans = spec_scan(text, scope.open, scope.close);
    match spec_pass(scope, vars, text, spans, 0, depth, Pass::start(cycles)) {
        Outcome::Missing(path) => Outcome::Missing(path),
        Outcome::Done(pass) => {
            let out = pass.out + text.subrange(gap_start(spans, spans.len() as int), text.len() as int);
            if !pass.literal && depth < MAX_DEPTH && spec_contains(out, scope.open) {
                spec_render(scope, vars, spec_trim(out), depth + 1, pass.cycles)
            } else {
                Outcome::Done(Rendered { text: out, cycles: pass.cycles })
            }
        },
    }
}

/// The text of a render from the top: at level zero, with every cycle at its
/// start.
pub open spec fn rendering(scope: Scope, vars: Map<Seq<char>, Seq<char>>, text: Seq<char>) -> Outcome<
    Seq<char>,
> {
    match spec_render(scope, vars, text, 0, Map::empty()) {
        Outcome::Missing(path) => Outcome::Missing(path),
        Outcome::Done(r) => Outcome::Done(r.text),
    }
}

} // verus!
