//! General laws of the scanner, stated over the scan model and proved once
//! and for all: whole-input classification of digit and letter runs, the
//! behaviour on unrecognized characters, and determinism of scanning.

use vstd::prelude::*;

use crate::error::ErrV;
use crate::scan::{
    digit_run_end, digits_value, illegal_err, is_digit, is_letter, is_space, is_whitespace,
    lemma_digit_run_end, lemma_digit_run_end_unique, lemma_letter_run_end,
    lemma_letter_run_end_unique, letter_run_end, number_err, scan_errs, scan_step, scan_tokens,
    start_pos, ScanPos,
};
use crate::token::{char_kind, word_kind, KindV, SpanV, TokenV};

verus! {

/// An input consisting solely of ASCII digits, whose value fits the unsigned
/// integer range, scans to exactly one `Number` token carrying the decimal
/// value of the whole input, at line 1 and column 1, and the error sink
/// remains empty.
pub proof fn lemma_all_digits_scan_to_one_number(s: Seq<char>)
    requires
        s.len() > 0,
        forall|j: int| 0 <= j < s.len() ==> is_digit(#[trigger] s[j]),
        digits_value(s) <= usize::MAX as nat,
    ensures
        scan_tokens(s, start_pos()) == seq![
            TokenV { kind: KindV::Number(digits_value(s)), span: SpanV { line: 1, col: 1 } },
        ],
        scan_errs(s, start_pos()) == Seq::<ErrV>::empty(),
{
    lemma_whole_digit_run(s);
    let st = scan_step(s, start_pos());
    assert(scan_tokens(s, st.next) =~= Seq::<TokenV>::empty());
    assert(scan_tokens(s, start_pos()) =~= seq![st.token]);
    assert(scan_errs(s, st.next) =~= Seq::<ErrV>::empty());
    assert(scan_errs(s, start_pos()) =~= Seq::<ErrV>::empty());
}

/// An input consisting solely of ASCII digits, whose value is past the
/// unsigned integer range, scans to exactly one `Number` token carrying the
/// substitute value `0`, and appends exactly one malformed-number record.
pub proof fn lemma_overflowing_digits_scan_to_zero(s: Seq<char>)
    requires
        s.len() > 0,
        forall|j: int| 0 <= j < s.len() ==> is_digit(#[trigger] s[j]),
        digits_value(s) > usize::MAX as nat,
    ensures
        scan_tokens(s, start_pos()) == seq![
            TokenV { kind: KindV::Number(0), span: SpanV { line: 1, col: 1 } },
        ],
        scan_errs(s, start_pos()) == seq![number_err(SpanV { line: 1, col: 1 })],
{
    lemma_whole_digit_run(s);
    let st = scan_step(s, start_pos());
    assert(scan_tokens(s, st.next) =~= Seq::<TokenV>::empty());
    assert(scan_tokens(s, start_pos()) =~= seq![st.token]);
    assert(scan_errs(s, st.next) =~= Seq::<ErrV>::empty());
    assert(scan_errs(s, start_pos()) =~= seq![number_err(SpanV { line: 1, col: 1 })]);
}

/// On an all-digit input the first scan step consumes the whole input as one
/// digit run.
proof fn lemma_whole_digit_run(s: Seq<char>)
    requires
        s.len() > 0,
        forall|j: int| 0 <= j < s.len() ==> is_digit(#[trigger] s[j]),
    ensures
        digit_run_end(s, 0) == s.len(),
        s.subrange(0, s.len() as int) == s,
        scan_step(s, start_pos()).next.i == s.len(),
{
    lemma_digit_run_end(s, 0);
    assert(s.subrange(0, s.len() as int) =~= s);
}

/// A letter run that spans the whole input scans to exactly one token, at
/// line 1 and column 1, classified by the keyword table: the `Keyword`
/// variant on one of the five fixed spellings, otherwise an `Identifier`
/// carrying the exact text. No error is appended.
pub proof fn lemma_all_letters_scan_to_one_word(s: Seq<char>)
    requires
        s.len() > 0,
        forall|j: int| 0 <= j < s.len() ==> is_letter(#[trigger] s[j]),
    ensures
        scan_tokens(s, start_pos()) == seq![
            TokenV { kind: word_kind(s), span: SpanV { line: 1, col: 1 } },
        ],
        scan_errs(s, start_pos()) == Seq::<ErrV>::empty(),
{
    lemma_letter_run_end(s, 0);
    assert(s.subrange(0, s.len() as int) =~= s);
    let st = scan_step(s, start_pos());
    assert(!(word_kind(s) is Illegal));
    assert(scan_tokens(s, st.next) =~= Seq::<TokenV>::empty());
    assert(scan_tokens(s, start_pos()) =~= seq![st.token]);
    assert(scan_errs(s, st.next) =~= Seq::<ErrV>::empty());
    assert(scan_errs(s, start_pos()) =~= Seq::<ErrV>::empty());
}

/// A single character outside the recognized punctuation, operator, digit
/// and letter sets scans to exactly one `Illegal` token carrying that
/// character, and appends exactly one error record for it.
pub proof fn lemma_illegal_char_scans_to_illegal(c: char)
    requires
        !is_digit(c),
        !is_letter(c),
        !is_whitespace(c),
        char_kind(c) == KindV::Illegal(c),
    ensures
        scan_tokens(seq![c], start_pos()) == seq![
            TokenV { kind: KindV::Illegal(c), span: SpanV { line: 1, col: 1 } },
        ],
        scan_errs(seq![c], start_pos()) == seq![illegal_err(c, SpanV { line: 1, col: 1 })],
{
    let s = seq![c];
    let st = scan_step(s, start_pos());
    assert(st.token.kind == KindV::Illegal(c));
    assert(scan_tokens(s, st.next) =~= Seq::<TokenV>::empty());
    assert(scan_tokens(s, start_pos()) =~= seq![st.token]);
    assert(scan_errs(s, st.next) =~= Seq::<ErrV>::empty());
    assert(scan_errs(s, start_pos()) =~= seq![illegal_err(c, SpanV { line: 1, col: 1 })]);
}

/// The token kinds of a token sequence, with the position tags dropped.
pub open spec fn kinds_of(ts: Seq<TokenV>) -> Seq<KindV> {
    Seq::new(ts.len(), |i: int| ts[i].kind)
}

/// A sequence consisting solely of whitespace characters.
pub open spec fn all_whitespace(w: Seq<char>) -> bool {
    forall|j: int| 0 <= j < w.len() ==> is_whitespace(#[trigger] w[j])
}

/// Whitespace never starts or continues a digit or letter run.
proof fn lemma_ws_not_run_char(c: char)
    requires
        is_whitespace(c),
    ensures
        !is_digit(c),
        !is_letter(c),
{
}

/// One scan step looks only at the characters from the cursor on: on equal
/// suffixes it produces the same token kind and consumes the same number of
/// characters, whatever stands before the cursor and whatever the position
/// counters read.
proof fn lemma_step_shift(s1: Seq<char>, p1: ScanPos, s2: Seq<char>, p2: ScanPos)
    requires
        p1.i <= s1.len(),
        p2.i <= s2.len(),
        s1.subrange(p1.i as int, s1.len() as int) == s2.subrange(p2.i as int, s2.len() as int),
    ensures
        scan_step(s1, p1).token.kind == scan_step(s2, p2).token.kind,
        scan_step(s1, p1).next.i - p1.i == scan_step(s2, p2).next.i - p2.i,
    decreases s1.len() - p1.i,
{
    let t1 = s1.subrange(p1.i as int, s1.len() as int);
    let t2 = s2.subrange(p2.i as int, s2.len() as int);
    assert(t1.len() == t2.len());
    assert(s1.len() - p1.i == s2.len() - p2.i);
    assert forall|j: int| p1.i <= j < s1.len() implies #[trigger] s1[j] == s2[j - p1.i + p2.i]
        by {
        assert(t1[j - p1.i] == s1[j]);
        assert(t2[j - p1.i] == s2[j - p1.i + p2.i]);
    }
    if p1.i < s1.len() {
        let c = s1[p1.i as int];
        assert(s1[p1.i as int + 0] == s2[p2.i as int + 0]);
        assert(s2[p2.i as int] == c);
        if is_digit(c) {
            lemma_digit_run_end(s1, p1.i);
            let e1 = digit_run_end(s1, p1.i);
            let k = e1 - p1.i;
            assert forall|j: int| p2.i <= j < p2.i + k implies is_digit(#[trigger] s2[j]) by {
                assert(s1[p1.i + (j - p2.i)] == s2[p2.i + (j - p2.i)]);
            }
            if e1 < s1.len() {
                assert(s1[p1.i + k] == s2[p2.i + k]);
            }
            lemma_digit_run_end_unique(s2, p2.i, (p2.i + k) as nat);
            assert(s1.subrange(p1.i as int, e1 as int) =~= s2.subrange(
                p2.i as int,
                p2.i + k,
            )) by {
                assert forall|j: int|
                    0 <= j < k implies s1.subrange(p1.i as int, e1 as int)[j] == s2.subrange(
                    p2.i as int,
                    p2.i + k,
                )[j] by {
                    assert(s1[p1.i + j] == s2[p2.i + j]);
                }
            }
        } else if is_letter(c) {
            lemma_letter_run_end(s1, p1.i);
            let e1 = letter_run_end(s1, p1.i);
            let k = e1 - p1.i;
            assert forall|j: int| p2.i <= j < p2.i + k implies is_letter(#[trigger] s2[j]) by {
                assert(s1[p1.i + (j - p2.i)] == s2[p2.i + (j - p2.i)]);
            }
            if e1 < s1.len() {
                assert(s1[p1.i + k] == s2[p2.i + k]);
            }
            lemma_letter_run_end_unique(s2, p2.i, (p2.i + k) as nat);
            assert(s1.subrange(p1.i as int, e1 as int) =~= s2.subrange(
                p2.i as int,
                p2.i + k,
            )) by {
                assert forall|j: int|
                    0 <= j < k implies s1.subrange(p1.i as int, e1 as int)[j] == s2.subrange(
                    p2.i as int,
                    p2.i + k,
                )[j] by {
                    assert(s1[p1.i + j] == s2[p2.i + j]);
                }
            }
        } else if is_whitespace(c) {
            let q1 = ScanPos {
                i: p1.i + 1,
                line: if is_space(c) { p1.line } else { p1.line + 1 },
                col: if is_space(c) { p1.col + 1 } else { p1.col },
            };
            let q2 = ScanPos {
                i: p2.i + 1,
                line: if is_space(c) { p2.line } else { p2.line + 1 },
                col: if is_space(c) { p2.col + 1 } else { p2.col },
            };
            assert(scan_step(s1, p1) == scan_step(s1, q1));
            assert(scan_step(s2, p2) == scan_step(s2, q2));
            assert(s1.subrange(q1.i as int, s1.len() as int) =~= s2.subrange(
                q2.i as int,
                s2.len() as int,
            )) by {
                assert forall|j: int|
                    0 <= j < s1.len() - q1.i implies s1.subrange(q1.i as int, s1.len() as int)[j]
                    == s2.subrange(q2.i as int, s2.len() as int)[j] by {
                    assert(s1[p1.i + (j + 1)] == s2[p2.i + (j + 1)]);
                }
            }
            lemma_step_shift(s1, q1, s2, q2);
        }
    }
}

/// A whole scan looks only at the characters from the cursor on: on equal
/// suffixes it produces the same sequence of token kinds.
proof fn lemma_scan_kinds_shift(s1: Seq<char>, p1: ScanPos, s2: Seq<char>, p2: ScanPos)
    requires
        p1.i <= s1.len(),
        p2.i <= s2.len(),
        s1.subrange(p1.i as int, s1.len() as int) == s2.subrange(p2.i as int, s2.len() as int),
    ensures
        kinds_of(scan_tokens(s1, p1)) == kinds_of(scan_tokens(s2, p2)),
    decreases s1.len() - p1.i,
{
    lemma_step_shift(s1, p1, s2, p2);
    crate::scan::lemma_scan_step_bounds(s1, p1);
    crate::scan::lemma_scan_step_bounds(s2, p2);
    let st1 = scan_step(s1, p1);
    let st2 = scan_step(s2, p2);
    if st1.token.kind is Eof {
        assert(kinds_of(scan_tokens(s1, p1)) =~= kinds_of(scan_tokens(s2, p2)));
    } else {
        let t1 = s1.subrange(p1.i as int, s1.len() as int);
        let t2 = s2.subrange(p2.i as int, s2.len() as int);
        assert(t1.len() == t2.len());
        assert(s1.len() - p1.i == s2.len() - p2.i);
        assert forall|j: int| p1.i <= j < s1.len() implies #[trigger] s1[j] == s2[j - p1.i
            + p2.i] by {
            assert(t1[j - p1.i] == s1[j]);
            assert(t2[j - p1.i] == s2[j - p1.i + p2.i]);
        }
        assert(s1.subrange(st1.next.i as int, s1.len() as int) =~= s2.subrange(
            st2.next.i as int,
            s2.len() as int,
        )) by {
            assert forall|j: int|
                0 <= j < s1.len() - st1.next.i implies s1.subrange(
                st1.next.i as int,
                s1.len() as int,
            )[j] == s2.subrange(st2.next.i as int, s2.len() as int)[j] by {
                assert(s1[st1.next.i + j] == s2[st1.next.i + j - p1.i + p2.i]);
                assert(s1.subrange(st1.next.i as int, s1.len() as int)[j] == s1[st1.next.i + j]);
                assert(s2.subrange(st2.next.i as int, s2.len() as int)[j] == s2[st2.next.i + j]);
            }
        }
        lemma_scan_kinds_shift(s1, st1.next, s2, st2.next);
        assert(scan_tokens(s1, p1) == seq![st1.token] + scan_tokens(s1, st1.next));
        assert(scan_tokens(s2, p2) == seq![st2.token] + scan_tokens(s2, st2.next));
        assert(kinds_of(seq![st1.token] + scan_tokens(s1, st1.next)) =~= seq![st1.token.kind]
            + kinds_of(scan_tokens(s1, st1.next)));
        assert(kinds_of(seq![st2.token] + scan_tokens(s2, st2.next)) =~= seq![st2.token.kind]
            + kinds_of(scan_tokens(s2, st2.next)));
    }
}

/// A whitespace prefix never produces a token: scanning with it yields the
/// token kinds of the rest of the input.
proof fn lemma_ws_prefix_kinds(w: Seq<char>, b: Seq<char>)
    requires
        all_whitespace(w),
    ensures
        kinds_of(scan_tokens(w + b, start_pos())) == kinds_of(scan_tokens(b, start_pos())),
    decreases w.len(),
{
    if w.len() == 0 {
        assert(w + b =~= b);
    } else {
        let s = w + b;
        let c = s[0];
        assert(c == w[0]);
        lemma_ws_not_run_char(c);
        let p = start_pos();
        let q = ScanPos {
            i: 1,
            line: if is_space(c) { 1nat } else { 2nat },
            col: if is_space(c) { 2nat } else { 1nat },
        };
        assert(scan_step(s, p) == scan_step(s, q));
        assert(scan_tokens(s, p) == scan_tokens(s, q));
        let w1 = w.subrange(1, w.len() as int);
        assert(s.subrange(q.i as int, s.len() as int) =~= (w1 + b).subrange(
            0,
            (w1 + b).len() as int,
        )) by {
            assert forall|j: int|
                0 <= j < s.len() - 1 implies s.subrange(1, s.len() as int)[j] == (w1
                + b).subrange(0, (w1 + b).len() as int)[j] by {
                assert(s.subrange(1, s.len() as int)[j] == s[1 + j]);
                if j < w.len() - 1 {
                    assert(s[1 + j] == w[1 + j]);
                    assert((w1 + b)[j] == w1[j]);
                    assert(w1[j] == w[1 + j]);
                } else {
                    assert(s[1 + j] == b[j - (w.len() - 1)]);
                    assert((w1 + b)[j] == b[j - (w.len() - 1)]);
                }
            }
        }
        lemma_scan_kinds_shift(s, q, w1 + b, start_pos());
        assert(all_whitespace(w1)) by {
            assert forall|j: int| 0 <= j < w1.len() implies is_whitespace(#[trigger] w1[j]) by {
                assert(w1[j] == w[1 + j]);
            }
        }
        lemma_ws_prefix_kinds(w1, b);
    }
}

/// A digit or letter run that begins a prefix is cut off by the whitespace
/// that follows the prefix: its end is the same whether or not the rest of
/// the input stands behind it.
proof fn lemma_run_stops_at_ws(a: Seq<char>, u: Seq<char>, b: Seq<char>)
    requires
        a.len() > 0,
        u.len() > 0,
        all_whitespace(u),
    ensures
        is_digit(a[0]) ==> digit_run_end(a + u + b, 0) == digit_run_end(a, 0),
        is_letter(a[0]) ==> letter_run_end(a + u + b, 0) == letter_run_end(a, 0),
{
    let s = a + u + b;
    assert(s[a.len() as int] == u[0]);
    lemma_ws_not_run_char(u[0]);
    if is_digit(a[0]) {
        lemma_digit_run_end(a, 0);
        let e = digit_run_end(a, 0);
        assert forall|j: int| 0 <= j < e implies is_digit(#[trigger] s[j]) by {
            assert(s[j] == a[j]);
        }
        if e < a.len() {
            assert(s[e as int] == a[e as int]);
        }
        lemma_digit_run_end_unique(s, 0, e);
    }
    if is_letter(a[0]) {
        lemma_letter_run_end(a, 0);
        let e = letter_run_end(a, 0);
        assert forall|j: int| 0 <= j < e implies is_letter(#[trigger] s[j]) by {
            assert(s[j] == a[j]);
        }
        if e < a.len() {
            assert(s[e as int] == a[e as int]);
        }
        lemma_letter_run_end_unique(s, 0, e);
    }
}

/// Dropping a prefix of the leading piece of a three-piece input leaves the
/// suffix of the whole input equal to the shortened input.
proof fn lemma_tail_reroot(a: Seq<char>, u: Seq<char>, b: Seq<char>, k: nat)
    requires
        k <= a.len(),
    ensures
        (a + u + b).subrange(k as int, (a + u + b).len() as int) == (a.subrange(
            k as int,
            a.len() as int,
        ) + u + b).subrange(
            0,
            (a.subrange(k as int, a.len() as int) + u + b).len() as int,
        ),
{
    let s = a + u + b;
    let a1 = a.subrange(k as int, a.len() as int);
    let t = a1 + u + b;
    assert(s.subrange(k as int, s.len() as int) =~= t.subrange(0, t.len() as int)) by {
        assert forall|j: int|
            0 <= j < s.len() - k implies s.subrange(k as int, s.len() as int)[j] == t.subrange(
            0,
            t.len() as int,
        )[j] by {
            assert(s.subrange(k as int, s.len() as int)[j] == s[k + j]);
            assert(t.subrange(0, t.len() as int)[j] == t[j]);
            if j < a.len() - k {
                assert(s[k + j] == a[k + j]);
                assert(t[j] == a1[j]);
            } else if j < a.len() - k + u.len() {
                assert(s[k + j] == u[k + j - a.len()]);
                assert(t[j] == u[j - a1.len()]);
            } else {
                assert(s[k + j] == b[k + j - a.len() - u.len()]);
                assert(t[j] == b[j - a1.len() - u.len()]);
            }
        }
    }
}

/// Whitespace runs between two scannable units never themselves produce a
/// token: replacing one nonempty whitespace run by any other — removing
/// characters from it or duplicating them — leaves the scanned token
/// sequence unchanged, position tags aside.
pub proof fn lemma_whitespace_runs_interchangeable(
    a: Seq<char>,
    u: Seq<char>,
    v: Seq<char>,
    b: Seq<char>,
)
    requires
        u.len() > 0,
        v.len() > 0,
        all_whitespace(u),
        all_whitespace(v),
    ensures
        kinds_of(scan_tokens(a + u + b, start_pos())) == kinds_of(
            scan_tokens(a + v + b, start_pos()),
        ),
    decreases a.len(),
{
    let s1 = a + u + b;
    let s2 = a + v + b;
    if a.len() == 0 {
        assert(s1 =~= u + b);
        assert(s2 =~= v + b);
        lemma_ws_prefix_kinds(u, b);
        lemma_ws_prefix_kinds(v, b);
    } else {
        let c = a[0];
        assert(s1[0] == c);
        assert(s2[0] == c);
        let st1 = scan_step(s1, start_pos());
        let st2 = scan_step(s2, start_pos());
        if is_whitespace(c) {
            lemma_ws_not_run_char(c);
            let q1 = ScanPos {
                i: 1,
                line: if is_space(c) { 1nat } else { 2nat },
                col: if is_space(c) { 2nat } else { 1nat },
            };
            assert(scan_step(s1, start_pos()) == scan_step(s1, q1));
            assert(scan_tokens(s1, start_pos()) == scan_tokens(s1, q1));
            assert(scan_step(s2, start_pos()) == scan_step(s2, q1));
            assert(scan_tokens(s2, start_pos()) == scan_tokens(s2, q1));
            let a1 = a.subrange(1, a.len() as int);
            lemma_tail_reroot(a, u, b, 1);
            lemma_tail_reroot(a, v, b, 1);
            lemma_scan_kinds_shift(s1, q1, a1 + u + b, start_pos());
            lemma_scan_kinds_shift(s2, q1, a1 + v + b, start_pos());
            lemma_whitespace_runs_interchangeable(a1, u, v, b);
        } else {
            // A digit run, a letter run, or a single punctuation or illegal
            // character: the step consumes characters inside `a` only, the
            // same number on both sides, and produces the same kind.
            let consumed: nat = if is_digit(c) {
                digit_run_end(a, 0)
            } else if is_letter(c) {
                letter_run_end(a, 0)
            } else {
                1
            };
            if is_digit(c) {
                lemma_digit_run_end(a, 0);
                lemma_run_stops_at_ws(a, u, b);
                lemma_run_stops_at_ws(a, v, b);
                assert(s1.subrange(0, consumed as int) =~= a.subrange(0, consumed as int));
                assert(s2.subrange(0, consumed as int) =~= a.subrange(0, consumed as int));
            } else if is_letter(c) {
                lemma_letter_run_end(a, 0);
                lemma_run_stops_at_ws(a, u, b);
                lemma_run_stops_at_ws(a, v, b);
                assert(s1.subrange(0, consumed as int) =~= a.subrange(0, consumed as int));
                assert(s2.subrange(0, consumed as int) =~= a.subrange(0, consumed as int));
            }
            assert(st1.token.kind == st2.token.kind);
            assert(st1.next.i == consumed);
            assert(st2.next.i == consumed);
            assert(1 <= consumed <= a.len());
            assert(!(st1.token.kind is Eof));
            assert(!(st2.token.kind is Eof));
            let a1 = a.subrange(consumed as int, a.len() as int);
            lemma_tail_reroot(a, u, b, consumed);
            lemma_tail_reroot(a, v, b, consumed);
            lemma_scan_kinds_shift(s1, st1.next, a1 + u + b, start_pos());
            lemma_scan_kinds_shift(s2, st2.next, a1 + v + b, start_pos());
            lemma_whitespace_runs_interchangeable(a1, u, v, b);
            assert(scan_tokens(s1, start_pos()) == seq![st1.token] + scan_tokens(s1, st1.next));
            assert(scan_tokens(s2, start_pos()) == seq![st2.token] + scan_tokens(s2, st2.next));
            assert(kinds_of(seq![st1.token] + scan_tokens(s1, st1.next)) =~= seq![st1.token.kind]
                + kinds_of(scan_tokens(s1, st1.next)));
            assert(kinds_of(seq![st2.token] + scan_tokens(s2, st2.next)) =~= seq![st2.token.kind]
                + kinds_of(scan_tokens(s2, st2.next)));
        }
    }
}

/// Every token of a scan from `p` sits at or after the cursor's line.
proof fn lemma_token_lines_bounded_below(s: Seq<char>, p: ScanPos)
    requires
        p.i <= s.len(),
    ensures
        forall|k: int|
            0 <= k < scan_tokens(s, p).len() ==> p.line <= #[trigger] scan_tokens(
                s,
                p,
            )[k].span.line,
    decreases s.len() - p.i,
{
    crate::scan::lemma_scan_step_bounds(s, p);
    crate::scan::lemma_scan_step_line_monotone(s, p);
    let st = scan_step(s, p);
    if !(st.token.kind is Eof) {
        lemma_token_lines_bounded_below(s, st.next);
        assert forall|k: int|
            0 <= k < scan_tokens(s, p).len() implies p.line <= #[trigger] scan_tokens(
            s,
            p,
        )[k].span.line by {
            if k > 0 {
                assert(scan_tokens(s, p)[k] == scan_tokens(s, st.next)[k - 1]);
            }
        }
    }
}

/// Spans are monotonically non-decreasing in scan order: the line of a token
/// never decreases along the token sequence of one scan.
pub proof fn lemma_token_lines_monotone(s: Seq<char>, i: int, j: int)
    requires
        0 <= i <= j < scan_tokens(s, start_pos()).len(),
    ensures
        scan_tokens(s, start_pos())[i].span.line <= scan_tokens(s, start_pos())[j].span.line,
{
    lemma_token_lines_monotone_from(s, start_pos(), i, j);
}

/// The line-monotonicity of spans, generalized over the starting cursor.
proof fn lemma_token_lines_monotone_from(s: Seq<char>, p: ScanPos, i: int, j: int)
    requires
        p.i <= s.len(),
        0 <= i <= j < scan_tokens(s, p).len(),
    ensures
        scan_tokens(s, p)[i].span.line <= scan_tokens(s, p)[j].span.line,
    decreases s.len() - p.i,
{
    crate::scan::lemma_scan_step_bounds(s, p);
    crate::scan::lemma_scan_step_line_monotone(s, p);
    let st = scan_step(s, p);
    if i == 0 {
        if j > 0 {
            lemma_token_lines_bounded_below(s, st.next);
            assert(scan_tokens(s, p)[j] == scan_tokens(s, st.next)[j - 1]);
        }
    } else {
        lemma_token_lines_monotone_from(s, st.next, i - 1, j - 1);
        assert(scan_tokens(s, p)[i] == scan_tokens(s, st.next)[i - 1]);
        assert(scan_tokens(s, p)[j] == scan_tokens(s, st.next)[j - 1]);
    }
}

/// Scanning is deterministic: any two scans of the same source that meet the
/// scanner's contract produce identical token sequences and identical error
/// sequences, whatever sinks they were given.
pub proof fn lemma_scan_idempotent(
    s: Seq<char>,
    tokens1: Seq<TokenV>,
    errs1: Seq<ErrV>,
    tokens2: Seq<TokenV>,
    errs2: Seq<ErrV>,
)
    requires
        tokens1 == scan_tokens(s, start_pos()),
        errs1 == scan_errs(s, start_pos()),
        tokens2 == scan_tokens(s, start_pos()),
        errs2 == scan_errs(s, start_pos()),
    ensures
        tokens1 == tokens2,
        errs1 == errs2,
{
}

} // verus!
