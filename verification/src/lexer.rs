//! The lexer: a stateful scanner that consumes a character stream and
//! produces classified tokens, routing illegal characters and overflowing
//! number literals into a caller-owned error sink without ever aborting.

use vstd::prelude::*;
use vstd::string::*;

use crate::error::{CompilerError, ErrV, ErrorBucket, ErrorReporter};
use crate::render::{push_char, u32_to_string};
use crate::scan::{
    digit_run_end, digit_val, digits_value, err_seq, illegal_err_of, is_digit, is_letter,
    lemma_digit_run_end, lemma_letter_run_end, lemma_scan_step_bounds, letter_run_end, number_err,
    position_label, scan_errs, scan_step, scan_tokens, span_at, start_pos, ScanPos,
};
use crate::token::{token_views, Span, Token, TokenKind, TokenV};

verus! {

/// A recoverable error produced while scanning.
#[derive(Clone)]
pub struct LexerError {
    id: usize,
    title: String,
    line_snippet: String,
    description: String,
}

impl View for LexerError {
    type V = ErrV;

    closed spec fn view(&self) -> ErrV {
        ErrV {
            id: self.id as nat,
            title: self.title@,
            snippet: self.line_snippet@,
            description: self.description@,
        }
    }
}

impl LexerError {
    /// A lexer-stage error record at the given position.
    pub fn new(title: String, description: String, span: &Span) -> (e: Self)
        ensures
            e@ == (ErrV {
                id: 0x1,
                title: title@,
                snippet: position_label(span@),
                description: description@,
            }),
    {
        let mut line_snippet = u32_to_string(span.line);
        push_char(&mut line_snippet, ':');
        let col_label = u32_to_string(span.col);
        line_snippet.append(col_label.as_str());
        proof {
            reveal_strlit(":");
            assert(line_snippet@ =~= position_label(span@));
        }
        Self { id: 0x1, line_snippet, title, description }
    }

    /// The uniform rendering of an error record:
    /// `<stage> | <title> at <position_label> => <description>`.
    pub fn render(&self) -> (r: String)
        ensures
            r@ == crate::error::rendered_line(self.stage_name(), self@),
    {
        let mut r = String::new();
        r.append(self.stage());
        r.append(" | ");
        r.append(self.title());
        r.append(" at ");
        r.append(self.summary());
        r.append(" => ");
        r.append(self.description());
        r
    }
}

impl CompilerError for LexerError {
    open spec fn stage_name(&self) -> Seq<char> {
        "Lexer"@
    }

    fn id(&self) -> (r: usize) {
        self.id
    }

    fn title(&self) -> (r: &str) {
        self.title.as_str()
    }

    fn summary(&self) -> (r: &str) {
        self.line_snippet.as_str()
    }

    fn description(&self) -> (r: &str) {
        self.description.as_str()
    }

    fn stage(&self) -> (r: &'static str) {
        "Lexer"
    }
}

/// True iff `c` is an ASCII decimal digit.
fn ascii_digit(c: char) -> (r: bool)
    ensures
        r == is_digit(c),
{
    let u = c as u32;
    48 <= u && u <= 57
}

/// True iff `c` is an ASCII alphabetic character.
fn ascii_letter(c: char) -> (r: bool)
    ensures
        r == is_letter(c),
{
    let u = c as u32;
    (97 <= u && u <= 122) || (65 <= u && u <= 90)
}

/// The numeric value of an ASCII digit character.
fn digit_value(c: char) -> (d: usize)
    requires
        is_digit(c),
    ensures
        d == digit_val(c),
        d < 10,
{
    ((c as u32) - 48) as usize
}

/// A stateful scanner over one source string. It borrows the source for its
/// lifetime; the caller owns the error sink and passes it to each pull.
pub struct Lexer<'a> {
    input: &'a str,
    len: usize,
    pos: usize,
    line: u32,
    col: u32,
}

impl<'a> Lexer<'a> {
    /// The characters being scanned.
    pub closed spec fn src(&self) -> Seq<char> {
        self.input@
    }

    /// The scanner's cursor, as the model sees it.
    pub closed spec fn pos_v(&self) -> ScanPos {
        ScanPos { i: self.pos as nat, line: self.line as nat, col: self.col as nat }
    }

    /// The scanner's invariant: the cursor stays inside the input and the
    /// 1-based position counters stay small enough never to overflow, since
    /// each consumed character advances exactly one of them.
    pub closed spec fn wf(&self) -> bool {
        &&& self.len == self.input@.len()
        &&& self.pos <= self.len
        &&& self.input@.len() < u32::MAX as nat
        &&& 1 <= self.line
        &&& 1 <= self.col
        &&& self.line as nat + self.col as nat <= self.pos as nat + 2
    }

    /// A scanner over `input`, at line 1 and column 1.
    pub fn new(input: &'a str) -> (l: Lexer<'a>)
        requires
            input@.len() < u32::MAX as nat,
        ensures
            l.wf(),
            l.src() == input@,
            l.pos_v() == start_pos(),
    {
        let len = input.unicode_len();
        Self { input, len, pos: 0, line: 1, col: 1 }
    }

    /// Scans one token: skips whitespace, then classifies. At the end of
    /// input it produces the `Eof` sentinel and stays put. The only error
    /// this can append is a malformed number literal; the scan continues
    /// regardless.
    fn lex(&mut self, errors: &mut ErrorBucket<LexerError>) -> (t: Token)
        requires
            old(self).wf(),
        ensures
            final(self).wf(),
            final(self).src() == old(self).src(),
            ({
                let st = scan_step(old(self).src(), old(self).pos_v());
                &&& t@ == st.token
                &&& final(self).pos_v() == st.next
                &&& final(errors)@ == old(errors)@ + err_seq(st.err)
            }),
    {
        loop
            invariant
                self.wf(),
                self.src() == old(self).src(),
                errors@ == old(errors)@,
                scan_step(self.src(), self.pos_v()) == scan_step(
                    old(self).src(),
                    old(self).pos_v(),
                ),
            decreases self.len - self.pos,
        {
            let ghost st = scan_step(self.src(), self.pos_v());
            if self.pos >= self.len {
                proof {
                    assert(errors@ =~= old(errors)@ + err_seq(st.err));
                }
                return Token::new(TokenKind::Eof, Span::new(self.line, self.col));
            }
            let c = self.input.get_char(self.pos);
            if ascii_digit(c) {
                return self.lex_number(c, errors);
            } else if ascii_letter(c) {
                let t = self.lex_keyword_or_ident(c);
                proof {
                    assert(errors@ =~= old(errors)@ + err_seq(st.err));
                }
                return t;
            } else if c == ' ' {
                self.col = self.col + 1;
                self.pos = self.pos + 1;
            } else if c == '\n' || c == '\r' {
                self.line = self.line + 1;
                self.pos = self.pos + 1;
            } else {
                let line = self.line;
                let col = self.col;
                self.col = self.col + 1;
                self.pos = self.pos + 1;
                proof {
                    crate::token::lemma_from_char_is_char_kind(c);
                    assert(errors@ =~= old(errors)@ + err_seq(st.err));
                }
                return Token::new(TokenKind::from(c), Span::new(line, col));
            }
        }
    }

    /// Scans a run of consecutive ASCII digits into a number token. A value
    /// past the unsigned integer range is reported to the sink and the token
    /// carries `0` instead; scanning continues either way.
    fn lex_number(&mut self, current_char: char, errors: &mut ErrorBucket<LexerError>) -> (t:
        Token)
        requires
            old(self).wf(),
            old(self).pos_v().i < old(self).src().len(),
            old(self).src()[old(self).pos_v().i as int] == current_char,
            is_digit(current_char),
        ensures
            final(self).wf(),
            final(self).src() == old(self).src(),
            ({
                let st = scan_step(old(self).src(), old(self).pos_v());
                &&& t@ == st.token
                &&& final(self).pos_v() == st.next
                &&& final(errors)@ == old(errors)@ + err_seq(st.err)
            }),
    {
        let ghost s = self.src();
        let ghost start = self.pos as nat;
        let ghost p = self.pos_v();
        let line = self.line;
        let col = self.col;
        let mut value: usize = digit_value(current_char);
        let mut overflow = false;
        self.pos = self.pos + 1;
        self.col = self.col + 1;
        proof {
            lemma_digit_run_end(s, start + 1);
            assert(s.subrange(start as int, start as int + 1) =~= seq![current_char]);
            assert(digits_value(seq![current_char]) == digit_val(current_char)) by {
                assert(seq![current_char].drop_last() =~= Seq::<char>::empty());
                assert(seq![current_char].last() == current_char);
                assert(digits_value(Seq::<char>::empty()) == 0);
            };
        }
        loop
            invariant
                self.wf(),
                self.src() == s,
                errors@ == old(errors)@,
                start < self.pos as nat <= digit_run_end(s, start),
                digit_run_end(s, start) == digit_run_end(s, self.pos as nat),
                digit_run_end(s, start) <= s.len(),
                self.line == p.line,
                self.col as nat == p.col + (self.pos as nat - start),
                !overflow ==> value as nat == digits_value(
                    s.subrange(start as int, self.pos as int),
                ),
                overflow ==> digits_value(s.subrange(start as int, self.pos as int))
                    > usize::MAX as nat,
            ensures
                self.wf(),
                self.src() == s,
                errors@ == old(errors)@,
                self.pos as nat == digit_run_end(s, start),
                self.line == p.line,
                self.col as nat == p.col + (self.pos as nat - start),
                !overflow ==> value as nat == digits_value(
                    s.subrange(start as int, self.pos as int),
                ),
                overflow ==> digits_value(s.subrange(start as int, self.pos as int))
                    > usize::MAX as nat,
            decreases self.len - self.pos,
        {
            if self.pos >= self.len {
                proof {
                    assert(digit_run_end(s, self.pos as nat) == self.pos as nat);
                }
                break ;
            }
            let c = self.input.get_char(self.pos);
            if !ascii_digit(c) {
                proof {
                    assert(digit_run_end(s, self.pos as nat) == self.pos as nat);
                }
                break ;
            }
            proof {
                assert(digit_run_end(s, self.pos as nat) == digit_run_end(s, self.pos as nat + 1));
                lemma_digit_run_end(s, self.pos as nat + 1);
                assert(s.subrange(start as int, self.pos as int + 1).drop_last() =~= s.subrange(
                    start as int,
                    self.pos as int,
                ));
                assert(s.subrange(start as int, self.pos as int + 1).last() == c);
            }
            let d = digit_value(c);
            if !overflow {
                match value.checked_mul(10) {
                    Some(v10) => {
                        match v10.checked_add(d) {
                            Some(v) => {
                                value = v;
                            },
                            None => {
                                overflow = true;
                            },
                        }
                    },
                    None => {
                        overflow = true;
                    },
                }
            } else {
                proof {
                    assert(digits_value(s.subrange(start as int, self.pos as int + 1))
                        >= digits_value(s.subrange(start as int, self.pos as int)));
                }
            }
            self.pos = self.pos + 1;
            self.col = self.col + 1;
        }
        let span = Span::new(line, col);
        if overflow {
            let err = LexerError::new(
                String::from_str("Couldn't Parse the number!"),
                String::from_str("ERRR"),
                &span,
            );
            errors.report(err);
            proof {
                assert(errors@ =~= old(errors)@ + err_seq(Some(number_err(span_at(p)))));
            }
            Token::new(TokenKind::Number(0), span)
        } else {
            proof {
                assert(errors@ =~= old(errors)@ + err_seq(scan_step(s, p).err));
            }
            Token::new(TokenKind::Number(value), span)
        }
    }

    /// Scans a run of consecutive ASCII alphabetic characters, then
    /// classifies it against the keyword table. Digits never continue an
    /// identifier: that is a known scope limitation, not a defect.
    fn lex_keyword_or_ident(&mut self, current_char: char) -> (t: Token)
        requires
            old(self).wf(),
            old(self).pos_v().i < old(self).src().len(),
            old(self).src()[old(self).pos_v().i as int] == current_char,
            is_letter(current_char),
        ensures
            final(self).wf(),
            final(self).src() == old(self).src(),
            ({
                let st = scan_step(old(self).src(), old(self).pos_v());
                &&& t@ == st.token
                &&& final(self).pos_v() == st.next
                &&& st.err is None
            }),
    {
        let ghost s = self.src();
        let ghost start = self.pos as nat;
        let ghost p = self.pos_v();
        let line = self.line;
        let col = self.col;
        let mut ident_string = String::new();
        push_char(&mut ident_string, current_char);
        self.pos = self.pos + 1;
        self.col = self.col + 1;
        proof {
            lemma_letter_run_end(s, start + 1);
            assert(ident_string@ =~= s.subrange(start as int, start as int + 1));
        }
        loop
            invariant
                self.wf(),
                self.src() == s,
                start < self.pos as nat <= letter_run_end(s, start),
                letter_run_end(s, start) == letter_run_end(s, self.pos as nat),
                letter_run_end(s, start) <= s.len(),
                self.line == p.line,
                self.col as nat == p.col + (self.pos as nat - start),
                ident_string@ == s.subrange(start as int, self.pos as int),
            ensures
                self.wf(),
                self.src() == s,
                self.pos as nat == letter_run_end(s, start),
                self.line == p.line,
                self.col as nat == p.col + (self.pos as nat - start),
                ident_string@ == s.subrange(start as int, self.pos as int),
            decreases self.len - self.pos,
        {
            if self.pos >= self.len {
                proof {
                    assert(letter_run_end(s, self.pos as nat) == self.pos as nat);
                }
                break ;
            }
            let c = self.input.get_char(self.pos);
            if !ascii_letter(c) {
                proof {
                    assert(letter_run_end(s, self.pos as nat) == self.pos as nat);
                }
                break ;
            }
            proof {
                assert(letter_run_end(s, self.pos as nat) == letter_run_end(
                    s,
                    self.pos as nat + 1,
                ));
                lemma_letter_run_end(s, self.pos as nat + 1);
            }
            push_char(&mut ident_string, c);
            proof {
                assert(ident_string@ =~= s.subrange(start as int, self.pos as int + 1));
            }
            self.pos = self.pos + 1;
            self.col = self.col + 1;
        }
        proof {
            crate::token::lemma_from_word_is_word_kind(ident_string);
        }
        Token::new(TokenKind::from(ident_string), Span::new(line, col))
    }

    /// Pulls the next token, or `None` once the end of input is reached:
    /// the `Eof` sentinel terminates iteration and is never yielded. An
    /// `Illegal` token is reported to the sink before it is yielded;
    /// lexing never stops because of it.
    pub fn next(&mut self, errors: &mut ErrorBucket<LexerError>) -> (r: Option<Token>)
        requires
            old(self).wf(),
        ensures
            final(self).wf(),
            final(self).src() == old(self).src(),
            ({
                let st = scan_step(old(self).src(), old(self).pos_v());
                &&& final(self).pos_v() == st.next
                &&& match r {
                    None => st.token.kind is Eof && final(errors)@ == old(errors)@,
                    Some(t) => {
                        &&& t@ == st.token
                        &&& !(st.token.kind is Eof)
                        &&& final(errors)@ == old(errors)@ + err_seq(st.err) + err_seq(
                            illegal_err_of(st.token),
                        )
                    },
                }
            }),
    {
        let ghost st = scan_step(old(self).src(), old(self).pos_v());
        proof {
            lemma_scan_step_bounds(old(self).src(), old(self).pos_v());
        }
        let token = self.lex(errors);
        match &token.kind {
            TokenKind::Eof => {
                proof {
                    assert(old(errors)@ + err_seq(st.err) =~= old(errors)@);
                }
                None
            },
            TokenKind::Illegal(c) => {
                let mut description = String::from_str("Couldn't lex this char '");
                push_char(&mut description, *c);
                push_char(&mut description, '\'');
                let err = LexerError::new(
                    String::from_str("Illegal char"),
                    description,
                    &token.span,
                );
                errors.report(err);
                proof {
                    assert(err@ == illegal_err_of(st.token).unwrap());
                    assert(errors@ =~= old(errors)@ + err_seq(st.err) + err_seq(
                        illegal_err_of(st.token),
                    ));
                }
                Some(token)
            },
            _ => {
                proof {
                    assert(errors@ =~= old(errors)@ + err_seq(st.err) + err_seq(
                        illegal_err_of(st.token),
                    ));
                }
                Some(token)
            },
        }
    }
}

/// Scans a whole source string into its token sequence, reporting every
/// recoverable error to the caller-owned sink, in scan order.
pub fn tokenize(input: &str, errors: &mut ErrorBucket<LexerError>) -> (tokens: Vec<Token>)
    requires
        input@.len() < u32::MAX as nat,
    ensures
        token_views(tokens@) == scan_tokens(input@, start_pos()),
        final(errors)@ == old(errors)@ + scan_errs(input@, start_pos()),
{
    let mut lexer = Lexer::new(input);
    let mut tokens: Vec<Token> = Vec::new();
    proof {
        assert(token_views(tokens@) =~= Seq::<TokenV>::empty());
        assert(errors@ =~= old(errors)@ + Seq::<ErrV>::empty());
    }
    loop
        invariant
            lexer.wf(),
            lexer.src() == input@,
            scan_tokens(input@, start_pos()) == token_views(tokens@) + scan_tokens(
                input@,
                lexer.pos_v(),
            ),
            old(errors)@ + scan_errs(input@, start_pos()) == errors@ + scan_errs(
                input@,
                lexer.pos_v(),
            ),
        ensures
            token_views(tokens@) == scan_tokens(input@, start_pos()),
            errors@ == old(errors)@ + scan_errs(input@, start_pos()),
        decreases input@.len() - lexer.pos_v().i,
    {
        let ghost p = lexer.pos_v();
        let ghost st = scan_step(input@, p);
        proof {
            lemma_scan_step_bounds(input@, p);
        }
        match lexer.next(errors) {
            None => {
                proof {
                    assert(scan_tokens(input@, p) =~= Seq::<TokenV>::empty());
                    assert(scan_errs(input@, p) =~= Seq::<ErrV>::empty());
                    assert(token_views(tokens@) + Seq::<TokenV>::empty() =~= token_views(
                        tokens@,
                    ));
                    assert(errors@ + Seq::<ErrV>::empty() =~= errors@);
                }
                break ;
            },
            Some(t) => {
                let ghost old_tokens = tokens@;
                tokens.push(t);
                proof {
                    assert(token_views(tokens@) =~= token_views(old_tokens) + seq![st.token]);
                    assert(scan_tokens(input@, p) == seq![st.token] + scan_tokens(
                        input@,
                        st.next,
                    ));
                    assert(token_views(tokens@) + scan_tokens(input@, st.next) =~= token_views(
                        old_tokens,
                    ) + scan_tokens(input@, p));
                    assert(scan_errs(input@, p) == err_seq(st.err) + err_seq(
                        illegal_err_of(st.token),
                    ) + scan_errs(input@, st.next));
                    assert(errors@ + scan_errs(input@, st.next) =~= old(errors)@ + scan_errs(
                        input@,
                        start_pos(),
                    ));
                }
            },
        }
    }
    tokens
}

} // verus!
