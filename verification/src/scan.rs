//! The mathematical model of the scanner: what token the next pull produces,
//! where the cursor and the position counters move, and which error records
//! are appended to the sink. The executable `Lexer` is proved equal to this
//! model.

use vstd::prelude::*;

use crate::error::ErrV;
use crate::render::dec_rep;
use crate::token::{char_kind, word_kind, KindV, SpanV, TokenV};

verus! {

/// An ASCII decimal digit.
pub open spec fn is_digit(c: char) -> bool {
    ('0' as u32) <= (c as u32) && (c as u32) <= ('9' as u32)
}

/// An ASCII alphabetic character.
pub open spec fn is_letter(c: char) -> bool {
    ||| ('a' as u32) <= (c as u32) && (c as u32) <= ('z' as u32)
    ||| ('A' as u32) <= (c as u32) && (c as u32) <= ('Z' as u32)
}

/// A space, which advances the column counter without producing a token.
pub open spec fn is_space(c: char) -> bool {
    c == ' '
}

/// A carriage return or line feed, which advances the line counter without
/// producing a token. The column counter is deliberately left untouched on a
/// line break: a documented design choice, not an oversight.
pub open spec fn is_newline(c: char) -> bool {
    c == '\n' || c == '\r'
}

/// Any character the scanner skips without producing a token.
pub open spec fn is_whitespace(c: char) -> bool {
    is_space(c) || is_newline(c)
}

/// The scanner's cursor: an index into the character sequence and the
/// 1-based position counters.
pub struct ScanPos {
    pub i: nat,
    pub line: nat,
    pub col: nat,
}

/// Where every scan begins.
pub open spec fn start_pos() -> ScanPos {
    ScanPos { i: 0, line: 1, col: 1 }
}

/// The position tag a token produced at `p` carries.
pub open spec fn span_at(p: ScanPos) -> SpanV {
    SpanV { line: p.line, col: p.col }
}

/// The outcome of scanning one token: the token itself, the cursor after it,
/// and the error record a malformed number literal appends to the sink.
pub struct ScanStep {
    pub token: TokenV,
    pub next: ScanPos,
    pub err: Option<ErrV>,
}

/// The numeric value of a digit character.
pub open spec fn digit_val(c: char) -> nat
    recommends
        is_digit(c),
{
    ((c as u32) - ('0' as u32)) as nat
}

/// The decimal value of a digit run.
pub open spec fn digits_value(s: Seq<char>) -> nat
    decreases s.len(),
{
    if s.len() == 0 {
        0
    } else {
        digits_value(s.drop_last()) * 10 + digit_val(s.last())
    }
}

/// The first index at or after `i` that ends a run of consecutive digits.
pub open spec fn digit_run_end(s: Seq<char>, i: nat) -> nat
    decreases s.len() - i,
{
    if i < s.len() && is_digit(s[i as int]) {
        digit_run_end(s, i + 1)
    } else {
        i
    }
}

/// The first index at or after `i` that ends a run of consecutive letters.
pub open spec fn letter_run_end(s: Seq<char>, i: nat) -> nat
    decreases s.len() - i,
{
    if i < s.len() && is_letter(s[i as int]) {
        letter_run_end(s, i + 1)
    } else {
        i
    }
}

/// The rendered `"line:col"` label of a position.
pub open spec fn position_label(sp: SpanV) -> Seq<char> {
    dec_rep(sp.line) + ":"@ + dec_rep(sp.col)
}

/// The error record for a digit run whose value does not fit the unsigned
/// integer range.
pub open spec fn number_err(sp: SpanV) -> ErrV {
    ErrV {
        id: 0x1,
        title: "Couldn't Parse the number!"@,
        snippet: position_label(sp),
        description: "ERRR"@,
    }
}

/// The error record for a character outside every recognized set.
pub open spec fn illegal_err(c: char, sp: SpanV) -> ErrV {
    ErrV {
        id: 0x1,
        title: "Illegal char"@,
        snippet: position_label(sp),
        description: "Couldn't lex this char '"@.push(c).push('\''),
    }
}

/// The error record the pull boundary appends when it yields an `Illegal`
/// token, if any.
pub open spec fn illegal_err_of(t: TokenV) -> Option<ErrV> {
    match t.kind {
        KindV::Illegal(c) => Some(illegal_err(c, t.span)),
        _ => None,
    }
}

/// An optional error as a (possibly empty) sequence of appended records.
pub open spec fn err_seq(e: Option<ErrV>) -> Seq<ErrV> {
    match e {
        Some(v) => seq![v],
        None => Seq::empty(),
    }
}

/// Scans one token starting at `p`: skips whitespace, then classifies by the
/// first significant character. At or past the end of input the token is the
/// `Eof` sentinel and the cursor does not move.
pub open spec fn scan_step(s: Seq<char>, p: ScanPos) -> ScanStep
    decreases s.len() - p.i,
{
    if p.i >= s.len() {
        ScanStep { token: TokenV { kind: KindV::Eof, span: span_at(p) }, next: p, err: None }
    } else {
        let c = s[p.i as int];
        if is_digit(c) {
            let e = digit_run_end(s, p.i);
            let run = s.subrange(p.i as int, e as int);
            let next = ScanPos { i: e, line: p.line, col: (p.col + e - p.i) as nat };
            if digits_value(run) > usize::MAX as nat {
                ScanStep {
                    token: TokenV { kind: KindV::Number(0), span: span_at(p) },
                    next,
                    err: Some(number_err(span_at(p))),
                }
            } else {
                ScanStep {
                    token: TokenV { kind: KindV::Number(digits_value(run)), span: span_at(p) },
                    next,
                    err: None,
                }
            }
        } else if is_letter(c) {
            let e = letter_run_end(s, p.i);
            let run = s.subrange(p.i as int, e as int);
            ScanStep {
                token: TokenV { kind: word_kind(run), span: span_at(p) },
                next: ScanPos { i: e, line: p.line, col: (p.col + e - p.i) as nat },
                err: None,
            }
        } else if is_space(c) {
            scan_step(s, ScanPos { i: p.i + 1, line: p.line, col: p.col + 1 })
        } else if is_newline(c) {
            scan_step(s, ScanPos { i: p.i + 1, line: p.line + 1, col: p.col })
        } else {
            ScanStep {
                token: TokenV { kind: char_kind(c), span: span_at(p) },
                next: ScanPos { i: p.i + 1, line: p.line, col: p.col + 1 },
                err: None,
            }
        }
    }
}

/// A digit run is bounded by the input, consists of digits, and ends at the
/// input's end or at the first non-digit.
pub proof fn lemma_digit_run_end(s: Seq<char>, i: nat)
    requires
        i <= s.len(),
    ensures
        i <= digit_run_end(s, i) <= s.len(),
        forall|j: int| i <= j < digit_run_end(s, i) ==> is_digit(#[trigger] s[j]),
        digit_run_end(s, i) == s.len() || !is_digit(s[digit_run_end(s, i) as int]),
    decreases s.len() - i,
{
    if i < s.len() && is_digit(s[i as int]) {
        lemma_digit_run_end(s, i + 1);
    }
}

/// The end of a digit run is the one index with digits before it that sits
/// at the input's end or on a non-digit.
pub proof fn lemma_digit_run_end_unique(s: Seq<char>, i: nat, e: nat)
    requires
        i <= e <= s.len(),
        forall|j: int| i <= j < e ==> is_digit(#[trigger] s[j]),
        e == s.len() || !is_digit(s[e as int]),
    ensures
        digit_run_end(s, i) == e,
    decreases e - i,
{
    if i < e {
        lemma_digit_run_end_unique(s, i + 1, e);
    }
}

/// The end of a letter run is the one index with letters before it that sits
/// at the input's end or on a non-letter.
pub proof fn lemma_letter_run_end_unique(s: Seq<char>, i: nat, e: nat)
    requires
        i <= e <= s.len(),
        forall|j: int| i <= j < e ==> is_letter(#[trigger] s[j]),
        e == s.len() || !is_letter(s[e as int]),
    ensures
        letter_run_end(s, i) == e,
    decreases e - i,
{
    if i < e {
        lemma_letter_run_end_unique(s, i + 1, e);
    }
}

/// A letter run is bounded by the input, consists of letters, and ends at
/// the input's end or at the first non-letter.
pub proof fn lemma_letter_run_end(s: Seq<char>, i: nat)
    requires
        i <= s.len(),
    ensures
        i <= letter_run_end(s, i) <= s.len(),
        forall|j: int| i <= j < letter_run_end(s, i) ==> is_letter(#[trigger] s[j]),
        letter_run_end(s, i) == s.len() || !is_letter(s[letter_run_end(s, i) as int]),
    decreases s.len() - i,
{
    if i < s.len() && is_letter(s[i as int]) {
        lemma_letter_run_end(s, i + 1);
    }
}

/// One scan step never moves the cursor backwards or past the end, moves it
/// strictly forward unless it produced the `Eof` sentinel, stops exactly at
/// the end on `Eof`, and appends an error only for a `Number` token.
pub proof fn lemma_scan_step_bounds(s: Seq<char>, p: ScanPos)
    requires
        p.i <= s.len(),
    ensures
        ({
            let st = scan_step(s, p);
            &&& p.i <= st.next.i <= s.len()
            &&& (!(st.token.kind is Eof) ==> st.next.i > p.i)
            &&& (st.token.kind is Eof ==> st.next.i == s.len() && st.err is None)
            &&& (st.err is Some ==> st.token.kind is Number)
        }),
    decreases s.len() - p.i,
{
    if p.i < s.len() {
        let c = s[p.i as int];
        if is_digit(c) {
            lemma_digit_run_end(s, p.i);
        } else if is_letter(c) {
            lemma_letter_run_end(s, p.i);
        } else if is_space(c) {
            lemma_scan_step_bounds(s, ScanPos { i: p.i + 1, line: p.line, col: p.col + 1 });
        } else if is_newline(c) {
            lemma_scan_step_bounds(s, ScanPos { i: p.i + 1, line: p.line + 1, col: p.col });
        }
    }
}

/// One scan step never moves the line counter backwards: the produced token
/// sits at or after the cursor's line, and the cursor after the step sits at
/// or after the token.
pub proof fn lemma_scan_step_line_monotone(s: Seq<char>, p: ScanPos)
    requires
        p.i <= s.len(),
    ensures
        p.line <= scan_step(s, p).token.span.line,
        scan_step(s, p).token.span.line <= scan_step(s, p).next.line,
    decreases s.len() - p.i,
{
    if p.i < s.len() {
        let c = s[p.i as int];
        if !is_digit(c) && !is_letter(c) && is_space(c) {
            lemma_scan_step_line_monotone(s, ScanPos { i: p.i + 1, line: p.line, col: p.col + 1 });
        } else if !is_digit(c) && !is_letter(c) && is_newline(c) {
            lemma_scan_step_line_monotone(s, ScanPos { i: p.i + 1, line: p.line + 1, col: p.col });
        }
    }
}

/// The tokens of a whole scan from `p`, in order, without the terminating
/// `Eof` sentinel.
pub open spec fn scan_tokens(s: Seq<char>, p: ScanPos) -> Seq<TokenV>
    decreases s.len() - p.i,
    via scan_tokens_dec
{
    let st = scan_step(s, p);
    if st.token.kind is Eof {
        Seq::empty()
    } else {
        seq![st.token] + scan_tokens(s, st.next)
    }
}

#[via_fn]
proof fn scan_tokens_dec(s: Seq<char>, p: ScanPos) {
    if p.i <= s.len() {
        lemma_scan_step_bounds(s, p);
    }
}

/// The error records of a whole scan from `p`, in the order they are
/// appended to the sink.
pub open spec fn scan_errs(s: Seq<char>, p: ScanPos) -> Seq<ErrV>
    decreases s.len() - p.i,
    via scan_errs_dec
{
    let st = scan_step(s, p);
    if st.token.kind is Eof {
        Seq::empty()
    } else {
        err_seq(st.err) + err_seq(illegal_err_of(st.token)) + scan_errs(s, st.next)
    }
}

#[via_fn]
proof fn scan_errs_dec(s: Seq<char>, p: ScanPos) {
    if p.i <= s.len() {
        lemma_scan_step_bounds(s, p);
    }
}

} // verus!
