//! Templates: a source text, its two delimiters and its placeholders.
use crate::model::{rendering, Outcome, Scope};
use crate::render::{render_scanned, Frame};
use crate::scanner::{
    byte_spans, lemma_byte_spans_ordered, marks, ordered, placed, scan_marks, spec_scan, to_placeholders, Mark, Placeholder,
    Span,
};
use crate::text::{
    byte_len, chars_of, lemma_byte_len_encoded, lemma_trim_byte_len, spec_trim, string_of, trim,
};
use crate::variables::{bindings, Cycles, Host, Variables};
use vstd::prelude::*;

verus! {

/// The start delimiter of a template made with `new`: `${`.
pub open spec fn default_start() -> Seq<char> {
    seq!['$', '{']
}

/// The end delimiter of a template made with `new`: `}`.
pub open spec fn default_end() -> Seq<char> {
    seq!['}']
}

/// A text with placeholders, scanned once when it is made.
#[derive(Debug)]
pub struct Template {
    text: Vec<char>,
    open: Vec<char>,
    close: Vec<char>,
    found: Vec<Mark>,
}

impl Template {
    #[verifier::type_invariant]
    spec fn scanned(&self) -> bool {
        &&& marks(self.found@) == spec_scan(self.text@, self.open@, self.close@)
        &&& ordered(marks(self.found@), 0, self.text@.len() as int)
        &&& byte_len(self.text@) <= usize::MAX
    }

    /// The source text, trimmed.
    pub closed spec fn source(&self) -> Seq<char> {
        self.text@
    }

    /// The start delimiter.
    pub closed spec fn start_delimiter(&self) -> Seq<char> {
        self.open@
    }

    /// The end delimiter.
    pub closed spec fn end_delimiter(&self) -> Seq<char> {
        self.close@
    }

    /// Where the placeholders that were found stand in the source text, in
    /// bytes of its UTF-8 form.
    pub closed spec fn spans(&self) -> Seq<Span> {
        byte_spans(self.text@, marks(self.found@))
    }

    /// Where a render of this template looks things up.
    pub open spec fn scope(&self, host: &Host, strict: bool) -> Scope {
        Scope {
            open: self.start_delimiter(),
            close: self.end_delimiter(),
            env: host.env(),
            files: host.files(),
            strict,
        }
    }

    /// A template with the delimiters `${` and `}`. The text is trimmed.
    pub fn new(expanded: &str) -> (t: Template)
        ensures
            t.source() == spec_trim(expanded@),
            t.start_delimiter() == default_start(),
            t.end_delimiter() == default_end(),
            t.spans() == byte_spans(
                t.source(),
                spec_scan(t.source(), default_start(), default_end()),
            ),
    {
        proof {
            reveal_strlit("${");
            reveal_strlit("}");
            assert("${"@ =~= default_start());
            assert("}"@ =~= default_end());
        }
        Template::new_delimit(expanded, "${", "}")
    }

    /// A template with delimiters of the caller's choice. The text is
    /// trimmed and scanned for its placeholders.
    pub fn new_delimit(expanded: &str, sdlim: &str, edlim: &str) -> (t: Template)
        ensures
            t.source() == spec_trim(expanded@),
            t.start_delimiter() == sdlim@,
            t.end_delimiter() == edlim@,
            t.spans() == byte_spans(t.source(), spec_scan(t.source(), sdlim@, edlim@)),
    {
        let raw = chars_of(expanded);
        // The bytes of a string are counted by a `usize`, so every byte
        // offset into its trimmed text fits in one.
        let size: usize = expanded.as_bytes().len();
        let text = trim(&raw);
        proof {
            lemma_byte_len_encoded(expanded@);
            lemma_trim_byte_len(expanded@);
            assert(byte_len(text@) <= size);
        }
        let open = chars_of(sdlim);
        let close = chars_of(edlim);
        let found = scan_marks(&text, &open, &close);
        Template { text, open, close, found }
    }

    /// The placeholders that were found in the source text, in order, each
    /// with its byte span in the source.
    pub fn placeholders(&self) -> (r: Vec<Placeholder>)
        ensures
            placed(r@) == self.spans(),
            self.spans() == byte_spans(
                self.source(),
                spec_scan(self.source(), self.start_delimiter(), self.end_delimiter()),
            ),
            ordered(placed(r@), 0, byte_len(self.source())),
    {
        proof {
            use_type_invariant(self);
            lemma_byte_spans_ordered(self.text@, marks(self.found@));
        }
        to_placeholders(&self.text, &self.found)
    }

    /// Renders the template with `vars`. An include path of which the host
    /// knows nothing is taken as unreadable.
    pub fn render(&self, vars: &Variables, host: &Host) -> (s: String)
        ensures
            rendering(self.scope(host, false), vars@, self.source()) == Outcome::Done(s@),
    {
        proof {
            use_type_invariant(self);
        }
        let frame = Frame { open: &self.open, close: &self.close, host, strict: false };
        match render_scanned(&frame, vars, &self.text, &self.found, 0, Cycles::new()) {
            Ok(output) => string_of(&output.text),
            Err(_) => String::new(),
        }
    }

    /// Renders the template with the variables that a list of pairs binds, a
    /// later pair in place of an earlier one of the same name.
    pub fn render_strings(&self, vars: &Vec<(String, String)>, host: &Host) -> (s: String)
        ensures
            rendering(self.scope(host, false), bindings(vars@), self.source()) == Outcome::Done(s@),
    {
        let bound = Variables::from_pairs(vars);
        self.render(&bound, host)
    }

    /// Renders the template with no variables but those of the host's
    /// environment.
    pub fn render_env(&self, host: &Host) -> (s: String)
        ensures
            rendering(self.scope(host, false), Map::empty(), self.source()) == Outcome::Done(s@),
    {
        let none = Variables::new();
        self.render(&none, host)
    }

    /// The first include path that a render with `vars` comes to and of which
    /// the host knows nothing, or `None` where the host knows every path
    /// that the render reads.
    pub fn pending_include(&self, vars: &Variables, host: &Host) -> (r: Option<String>)
        ensures
            match r {
                Some(path) => rendering(self.scope(host, true), vars@, self.source())
                    == Outcome::<Seq<char>>::Missing(path@),
                None => rendering(self.scope(host, true), vars@, self.source()) is Done,
            },
    {
        proof {
            use_type_invariant(self);
        }
        let frame = Frame { open: &self.open, close: &self.close, host, strict: true };
        match render_scanned(&frame, vars, &self.text, &self.found, 0, Cycles::new()) {
            Ok(_) => None,
            Err(path) => Some(string_of(&path)),
        }
    }
}

} // verus!
