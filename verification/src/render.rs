//! The renderer: the pass over the placeholders of a text, the directives,
//! and the expansion of what they give.
use crate::directive::{classify, Directive};
use crate::model::{
    directive_at, gap_start, plain_value, spec_fan_out, spec_include,
    spec_multi_value, spec_nested, spec_pass, spec_render, spec_substitute, write_conditional,
    write_cycle, write_default, write_literal, write_value, Outcome, Pass, Rendered, Scope, MAX_DEPTH,
};
use crate::multi::{fan_width, is_width, overlay_at, pipe};
use crate::scanner::{marks, ordered, scan_marks, spec_scan, Mark};
use crate::text::{
    append, contains, contains_char, lemma_split_nonempty, same, slice, split, trim,
};
use crate::variables::{Cycles, Host, Variables};
use vstd::prelude::*;

verus! {

/// Where a render looks things up.
pub struct Frame<'a> {
    /// The start delimiter.
    pub open: &'a Vec<char>,
    /// The end delimiter.
    pub close: &'a Vec<char>,
    /// The environment and the include files.
    pub host: &'a Host,
    /// Whether the render stops at an include path of which nothing is known.
    pub strict: bool,
}

impl<'a> View for Frame<'a> {
    type V = Scope;

    open spec fn view(&self) -> Scope {
        Scope {
            open: self.open@,
            close: self.close@,
            env: self.host.env(),
            files: self.host.files(),
            strict: self.strict,
        }
    }
}

/// The state of one pass over the placeholders of a text.
pub struct State {
    /// The output so far.
    pub out: Vec<char>,
    /// Where the cycle directives stand.
    pub cycles: Cycles,
    /// Whether a multi-value directive came earlier in this pass.
    pub multi: bool,
    /// Whether a literal copy was made in this pass.
    pub literal: bool,
}

impl View for State {
    type V = Pass;

    open spec fn view(&self) -> Pass {
        Pass { out: self.out@, cycles: self.cycles@, multi: self.multi, literal: self.literal }
    }
}

/// A rendered text, and where the cycle directives stand after it.
pub struct Output {
    pub text: Vec<char>,
    pub cycles: Cycles,
}

impl View for Output {
    type V = Rendered;

    open spec fn view(&self) -> Rendered {
        Rendered { text: self.text@, cycles: self.cycles@ }
    }
}

/// Whether `r` is the outcome `o` of a step of a pass.
pub open spec fn passed(r: Result<State, Vec<char>>, o: Outcome<Pass>) -> bool {
    match r {
        Ok(state) => o == Outcome::Done(state@),
        Err(path) => o == Outcome::<Pass>::Missing(path@),
    }
}

/// Whether `r` is the outcome `o` of a render.
pub open spec fn rendered(r: Result<Output, Vec<char>>, o: Outcome<Rendered>) -> bool {
    match r {
        Ok(output) => o == Outcome::Done(output@),
        Err(path) => o == Outcome::<Rendered>::Missing(path@),
    }
}

/// Copies a text.
fn copy(s: &Vec<char>) -> (r: Vec<char>)
    ensures
        r@ == s@,
{
    let r = slice(s, 0, s.len());
    assert(r@ =~= s@);
    r
}

/// Writes `text` to the output of a pass.
fn put(state: State, text: &Vec<char>) -> (r: State)
    ensures
        r@ == state@.write(text@),
{
    let State { out, cycles, multi, literal } = state;
    let mut out = out;
    append(&mut out, text);
    State { out, cycles, multi, literal }
}

/// Writes the value of a variable.
fn put_value(state: State, value: &Vec<char>) -> (r: State)
    ensures
        r@ == write_value(state@, value@),
{
    if state.multi && contains_char(value, '|') {
        state
    } else {
        let trimmed = trim(value);
        put(state, &trimmed)
    }
}

/// Resolves a plain variable and writes its value.
fn put_plain(frame: &Frame, vars: &Variables, name: &Vec<char>, state: State) -> (r: State)
    ensures
        r@ == write_value(state@, plain_value(frame@, vars@, name@)),
{
    match vars.get(name) {
        Some(value) => put_value(state, value),
        None => match frame.host.env_var(name) {
            Some(value) => put_value(state, value),
            None => {
                let empty: Vec<char> = Vec::new();
                put_value(state, &empty)
            },
        },
    }
}

/// Resolves a variable with a fallback and writes its value.
fn put_default(
    frame: &Frame,
    vars: &Variables,
    name: &Vec<char>,
    fallback: &Vec<char>,
    state: State,
) -> (r: State)
    ensures
        r@ == write_default(state@, frame@, vars@, name@, fallback@),
{
    match vars.get(name) {
        Some(value) => {
            if value.len() > 0 {
                return put_value(state, value);
            }
        },
        None => {},
    }
    match frame.host.env_var(name) {
        Some(value) => put_value(state, value),
        None => put(state, fallback),
    }
}

/// Writes what a test for equality gives.
fn put_conditional(
    vars: &Variables,
    name: &Vec<char>,
    expected: &Vec<char>,
    then_text: &Vec<char>,
    state: State,
) -> (r: State)
    ensures
        r@ == write_conditional(state@, vars@, name@, expected@, then_text@),
{
    match vars.get(name) {
        Some(value) => {
            if same(value, expected) {
                let trimmed = trim(then_text);
                put(state, &trimmed)
            } else {
                state
            }
        },
        None => state,
    }
}

/// Writes a literal copy.
fn put_literal(vars: &Variables, name: &Vec<char>, state: State) -> (r: State)
    ensures
        r@ == write_literal(state@, vars@, name@),
{
    match vars.get(name) {
        Some(value) => {
            let State { out, cycles, multi, literal } = state;
            let mut out = out;
            append(&mut out, value);
            State { out, cycles, multi, literal: true }
        },
        None => state,
    }
}

/// Writes the next element of a cycle and moves the cycle on.
fn put_cycle(vars: &Variables, name: &Vec<char>, state: State) -> (r: State)
    ensures
        r@ == write_cycle(state@, vars@, name@),
{
    match vars.get(name) {
        Some(value) => {
            let bar: Vec<char> = vec!['|'];
            assert(bar@ =~= pipe());
            proof {
                lemma_split_nonempty(value@, pipe());
            }
            let parts = split(value, &bar);
            let n = parts.len();
            let State { out, cycles, multi, literal } = state;
            let at = cycles.index(name) % n;
            let mut out = out;
            append(&mut out, &parts[at]);
            let mut cycles = cycles;
            cycles.set(copy(name), (at + 1) % n);
            State { out, cycles, multi, literal }
        },
        None => state,
    }
}

/// Renders a text that stands inside another.
pub(crate) fn nested(frame: &Frame, vars: &Variables, text: &Vec<char>, depth: usize, cycles: Cycles) -> (r:
    Result<Output, Vec<char>>)
    ensures
        rendered(r, spec_nested(frame@, vars@, text@, depth as nat, cycles@)),
        r is Err ==> frame.strict,
    decreases MAX_DEPTH - depth, 1int,
{
    let trimmed = trim(text);
    if depth < MAX_DEPTH {
        let placeholders = scan_marks(&trimmed, frame.open, frame.close);
        render_scanned(frame, vars, &trimmed, &placeholders, depth + 1, cycles)
    } else {
        Ok(Output { text: trimmed, cycles })
    }
}

/// Renders `body` once for each of `n` rounds.
pub(crate) fn fan_out(
    frame: &Frame,
    vars: &Variables,
    body: &Vec<char>,
    join: char,
    depth: usize,
    n: usize,
    cycles: Cycles,
) -> (r: Result<Output, Vec<char>>)
    requires
        is_width(frame.open@, frame.close@, vars@, body@, n as nat),
    ensures
        rendered(
            r,
            spec_fan_out(
                frame@,
                vars@,
                body@,
                join,
                depth as nat,
                n as nat,
                0,
                Rendered { text: Seq::empty(), cycles: cycles@ },
            ),
        ),
        r is Err ==> frame.strict,
    decreases MAX_DEPTH - depth, 2int,
{
    let ghost first = cycles@;
    let ghost goal = spec_fan_out(
        frame@,
        vars@,
        body@,
        join,
        depth as nat,
        n as nat,
        0,
        Rendered { text: Seq::empty(), cycles: first },
    );
    let mut text: Vec<char> = Vec::new();
    let mut current = cycles;
    let mut i: usize = 0;
    while i < n
        invariant
            i <= n,
            first == cycles@,
            is_width(frame.open@, frame.close@, vars@, body@, n as nat),
            goal == spec_fan_out(
                frame@,
                vars@,
                body@,
                join,
                depth as nat,
                n as nat,
                0,
                Rendered { text: Seq::empty(), cycles: first },
            ),
            spec_fan_out(
                frame@,
                vars@,
                body@,
                join,
                depth as nat,
                n as nat,
                i as nat,
                Rendered { text: text@, cycles: current@ },
            ) == goal,
        decreases n - i,
    {
        let ghost before = text@;
        let round_vars = overlay_at(frame.open, frame.close, vars, body, i);
        match nested(frame, &round_vars, body, depth, current) {
            Err(path) => {
                return Err(path);
            },
            Ok(round) => {
                let Output { text: round_text, cycles: round_cycles } = round;
                append(&mut text, &round_text);
                if i + 1 < n {
                    text.push(join);
                }
                current = round_cycles;
                assert(text@ =~= before + if i + 1 < n {
                    round_text@.push(join)
                } else {
                    round_text@
                });
            },
        }
        i += 1;
    }
    Ok(Output { text, cycles: current })
}

/// Expands a multi-value directive.
pub(crate) fn multi_value(
    frame: &Frame,
    vars: &Variables,
    inner: &Vec<char>,
    join: char,
    depth: usize,
    state: State,
) -> (r: Result<State, Vec<char>>)
    ensures
        passed(r, spec_multi_value(frame@, vars@, inner@, join, depth as nat, state@)),
        r is Err ==> frame.strict,
    decreases MAX_DEPTH - depth, 3int,
{
    let State { out, cycles, multi, literal } = state;
    match vars.get(inner) {
        None => Ok(State { out, cycles, multi: true, literal }),
        Some(body) => {
            let expanded = match fan_width(frame.open, frame.close, vars, body) {
                None => nested(frame, vars, body, depth, cycles),
                Some(n) => fan_out(frame, vars, body, join, depth, n, cycles),
            };
            match expanded {
                Err(path) => Err(path),
                Ok(output) => {
                    let Output { text, cycles } = output;
                    let mut out = out;
                    append(&mut out, &text);
                    Ok(State { out, cycles, multi: true, literal })
                },
            }
        },
    }
}

/// Expands an include directive.
pub(crate) fn include_file(frame: &Frame, vars: &Variables, path: &Vec<char>, depth: usize, state: State) -> (r:
    Result<State, Vec<char>>)
    ensures
        passed(r, spec_include(frame@, vars@, path@, depth as nat, state@)),
        r is Err ==> frame.strict,
    decreases MAX_DEPTH - depth, 3int,
{
    match frame.host.file(path) {
        None => {
            if frame.strict {
                Err(copy(path))
            } else {
                Ok(state)
            }
        },
        Some(known) => match known {
            None => Ok(state),
            Some(content) => {
                let trimmed = trim(content);
                if contains(&trimmed, frame.open) {
                    let State { out, cycles, multi, literal } = state;
                    match nested(frame, vars, &trimmed, depth, cycles) {
                        Err(missing) => Err(missing),
                        Ok(output) => {
                            let Output { text, cycles } = output;
                            let again = trim(&text);
                            let mut out = out;
                            append(&mut out, &again);
                            Ok(State { out, cycles, multi, literal })
                        },
                    }
                } else {
                    Ok(put(state, &trimmed))
                }
            },
        },
    }
}

/// Expands one directive.
pub(crate) fn substitute(
    frame: &Frame,
    vars: &Variables,
    directive: &Directive<Vec<char>>,
    depth: usize,
    state: State,
) -> (r: Result<State, Vec<char>>)
    ensures
        passed(r, spec_substitute(frame@, vars@, directive@, depth as nat, state@)),
        r is Err ==> frame.strict,
    decreases MAX_DEPTH - depth, 4int,
{
    match directive {
        Directive::Plain { name } => Ok(put_plain(frame, vars, name, state)),
        Directive::DefaultOr { name, fallback, mode } => Ok(
            put_default(frame, vars, name, fallback, state),
        ),
        Directive::Include { path } => include_file(frame, vars, path, depth, state),
        Directive::ConditionalEquals { name, expected, then_text } => Ok(
            put_conditional(vars, name, expected, then_text, state),
        ),
        Directive::MultiValue { inner, join } => multi_value(
            frame,
            vars,
            inner,
            *join,
            depth,
            state,
        ),
        Directive::LiteralCopy { name } => Ok(put_literal(vars, name, state)),
        Directive::CycleNext { name } => Ok(put_cycle(vars, name, state)),
        Directive::Empty => Ok(state),
    }
}

/// Renders the template source `text`, whose placeholders are `placeholders`,
/// at level `depth`.
pub(crate) fn render_scanned(
    frame: &Frame,
    vars: &Variables,
    text: &Vec<char>,
    placeholders: &Vec<Mark>,
    depth: usize,
    cycles: Cycles,
) -> (r: Result<Output, Vec<char>>)
    requires
        marks(placeholders@) == spec_scan(text@, frame.open@, frame.close@),
        ordered(marks(placeholders@), 0, text@.len() as int),
    ensures
        rendered(r, spec_render(frame@, vars@, text@, depth as nat, cycles@)),
        r is Err ==> frame.strict,
    decreases MAX_DEPTH - depth, 6int,
{
    let ghost sp = marks(placeholders@);
    let ghost first = cycles@;
    let ghost goal = spec_pass(frame@, vars@, text@, sp, 0, depth as nat, Pass::start(first));
    let mut state = State { out: Vec::new(), cycles, multi: false, literal: false };
    let mut cursor: usize = 0;
    let mut k: usize = 0;
    while k < placeholders.len()
        invariant
            k <= placeholders.len(),
            first == cycles@,
            sp == marks(placeholders@),
            sp == spec_scan(text@, frame.open@, frame.close@),
            goal == spec_pass(frame@, vars@, text@, sp, 0, depth as nat, Pass::start(first)),
            ordered(sp, 0, text@.len() as int),
            cursor == gap_start(sp, k as int),
            cursor <= text.len(),
            spec_pass(frame@, vars@, text@, sp, k as nat, depth as nat, state@) == goal,
        decreases placeholders.len() - k,
    {
        let p = placeholders[k];
        assert(sp[k as int] == p@);
        proof {
            if k > 0 {
                assert(sp[k - 1].end <= sp[k as int].start);
            }
        }
        let literal = slice(text, cursor, p.start);
        let written = put(state, &literal);
        let directive = if p.start == p.end {
            Directive::Empty
        } else {
            let key = slice(text, p.key_start, p.key_end);
            classify(&key)
        };
        assert(directive@ == directive_at(text@, sp[k as int]));
        match substitute(frame, vars, &directive, depth, written) {
            Err(path) => {
                return Err(path);
            },
            Ok(next) => {
                state = next;
            },
        }
        cursor = p.end;
        k += 1;
    }
    let State { out, cycles: after, multi, literal } = state;
    let rest = slice(text, cursor, text.len());
    let mut out = out;
    append(&mut out, &rest);
    if !literal && depth < MAX_DEPTH && contains(&out, frame.open) {
        let trimmed = trim(&out);
        let again = scan_marks(&trimmed, frame.open, frame.close);
        render_scanned(frame, vars, &trimmed, &again, depth + 1, after)
    } else {
        Ok(Output { text: out, cycles: after })
    }
}

} // verus!
