//! The statement parser: a placeholder around the lexer's output. Its error
//! type already follows the uniform error contract; the parsing logic itself
//! is left to be designed afresh.

use vstd::prelude::*;
use vstd::string::*;

use crate::ast::Statement;
use crate::error::{CompilerError, ErrV, ErrorBucket};
use crate::scan::position_label;
use crate::token::{Span, Token};

verus! {

/// A parser over a token stream. No parsing rule is implemented yet.
pub struct Parser<'a> {
    /// Current token.
    token: Token,
    /// Final abstract syntax tree.
    ast: Statement,
    /// The caller-owned error sink.
    error_bucket: &'a mut ErrorBucket<ParserError>,
}

/// A recoverable error produced while parsing.
pub struct ParserError {
    id: usize,
    title: String,
    line_snippet: String,
    description: String,
}

impl View for ParserError {
    type V = ErrV;

    closed spec fn view(&self) -> ErrV {
        ErrV {
            id: self.id as nat,
            title: self.title@,
            snippet: self.line_snippet@,
            description: self.description@,
        }
    }
}

impl ParserError {
    /// A parser-stage error record at the given position.
    pub fn new(title: String, description: String, span: &Span) -> (e: Self)
        ensures
            e@ == (ErrV {
                id: 0x2,
                title: title@,
                snippet: position_label(span@),
                description: description@,
            }),
    {
        let mut line_snippet = crate::render::u32_to_string(span.line);
        crate::render::push_char(&mut line_snippet, ':');
        let col_label = crate::render::u32_to_string(span.col);
        line_snippet.append(col_label.as_str());
        proof {
            reveal_strlit(":");
            assert(line_snippet@ =~= position_label(span@));
        }
        Self { id: 0x2, line_snippet, title, description }
    }

    /// The uniform rendering of an error record:
    /// `<stage> | <title> at <position_label> => <description>`.
    pub fn render(&self) -> (r: String)
        ensures
            r@ == crate::error::rendered_line(self.stage_name(), self@),
    {
        let mut r = String::new();
        r.append(self.stage());
        r.append(" | ");
        r.append(self.title());
        r.append(" at ");
        r.append(self.summary());
        r.append(" => ");
        r.append(self.description());
        r
    }
}

impl CompilerError for ParserError {
    open spec fn stage_name(&self) -> Seq<char> {
        "Parser"@
    }

    fn id(&self) -> (r: usize) {
        self.id
    }

    fn title(&self) -> (r: &str) {
        self.title.as_str()
    }

    fn summary(&self) -> (r: &str) {
        self.line_snippet.as_str()
    }

    fn description(&self) -> (r: &str) {
        self.description.as_str()
    }

    fn stage(&self) -> (r: &'static str) {
        "Parser"
    }
}

} // verus!
