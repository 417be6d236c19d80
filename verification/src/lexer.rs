//! Lexer for the Ato hardware description language.
//!
//! Turns source text into tokens, handling Python-style indentation with
//! INDENT and DEDENT tokens, implicit line joining inside brackets, and
//! hiding comments, blank lines and explicit line continuations.

use vstd::prelude::*;
use crate::token::{Span, Token, TokenKind, TokenView, spec_is_hidden, spec_is_keyword, spec_is_reserved, spec_kind_name};
use crate::scan::{CharClass, class_run, scan, scan_at, class_run_at, chars_eq_lit, lemma_keyword_scans_as_keyword};
use crate::text::{string_from_chars, to_string};

verus! {

/// Errors that can occur during lexing.
#[derive(Debug, Clone, Copy, PartialEq, Eq, Structural)]
pub enum LexerError {
    UnexpectedCharacter { ch: char, line: usize, column: usize },
    InconsistentIndentation { line: usize },
    InconsistentDedent { line: usize },
    FirstStatementIndented { line: usize },
    UnterminatedString { line: usize },
}

/// Number of bytes in the UTF-8 encoding of `c`.
pub open spec fn char_width(c: char) -> nat {
    if (c as u32) < 0x80 {
        1
    } else if (c as u32) < 0x800 {
        2
    } else if (c as u32) < 0x10000 {
        3
    } else {
        4
    }
}

/// Byte offset of the character at index `i` of `s` (the UTF-8 length of `s[..i]`).
pub open spec fn byte_offset(s: Seq<char>, i: int) -> nat
    decreases i,
{
    if i <= 0 || i > s.len() {
        0
    } else {
        byte_offset(s, i - 1) + char_width(s[i - 1])
    }
}

/// Sources whose offsets and indentation widths fit in machine integers.
pub open spec fn within_limits(s: Seq<char>) -> bool {
    byte_offset(s, s.len() as int) <= usize::MAX / 16
}

/// The state of the lexer as a mathematical value.
#[verifier::ext_equal]
pub struct LexState {
    pub chars: Seq<char>,
    pub pos: int,
    pub indent_stack: Seq<usize>,
    pub pending: Seq<TokenView>,
    pub opened_brackets: int,
    pub line: int,
    pub line_start_offset: int,
    pub seen_first_statement: bool,
    pub finished: bool,
    pub was_space_indent: bool,
    pub was_tab_indent: bool,
    pub errors: Seq<LexerError>,
}

/// The initial lexer state for a source.
pub open spec fn initial_state(s: Seq<char>) -> LexState {
    LexState {
        chars: s,
        pos: 0,
        indent_stack: seq![0usize],
        pending: seq![],
        opened_brackets: 0,
        line: 1,
        line_start_offset: 0,
        seen_first_statement: false,
        finished: false,
        was_space_indent: false,
        was_tab_indent: false,
        errors: seq![],
    }
}

/// A synthetic token with the given kind, span and text.
pub open spec fn synthetic(kind: TokenKind, span: Span, text: Seq<char>) -> TokenView {
    TokenView { kind, span, text }
}

/// The span of the `n` characters at character index `p`, on the current line.
pub open spec fn span_at(st: LexState, p: int, n: int) -> Span {
    let start = byte_offset(st.chars, p);
    Span {
        start: start as usize,
        end: byte_offset(st.chars, p + n) as usize,
        line: st.line as usize,
        column: (start - st.line_start_offset + 1) as usize,
    }
}

/// The source token of the `n` characters at character index `p`.
pub open spec fn token_at(st: LexState, kind: TokenKind, p: int, n: int) -> TokenView {
    TokenView { kind, span: span_at(st, p, n), text: st.chars.subrange(p, p + n) }
}

/// Indentation width of `ws[k..]` starting from `length`, with the space and tab
/// flags: a space adds one, a tab moves to the next multiple of eight, a form feed
/// resets the width; any other character ends the indentation.
pub open spec fn indent_fold(ws: Seq<char>, k: int, length: int, sp: bool, tab: bool) -> (int, bool, bool)
    decreases ws.len() - k,
{
    if k < 0 || k >= ws.len() {
        (length, sp, tab)
    } else if ws[k] == ' ' {
        indent_fold(ws, k + 1, length + 1, true, tab)
    } else if ws[k] == '\t' {
        indent_fold(ws, k + 1, length + 8 - length % 8, sp, true)
    } else if ws[k] == '\x0C' {
        indent_fold(ws, k + 1, 0, sp, tab)
    } else {
        (length, sp, tab)
    }
}

/// Measures the indentation `chars[from..to]`, recording whether spaces and tabs
/// were seen; no width when both have been used in the source so far.
pub open spec fn spec_indentation_length(st: LexState, from: int, to: int) -> (LexState, Option<usize>) {
    let r = indent_fold(st.chars.subrange(from, to), 0, 0, st.was_space_indent, st.was_tab_indent);
    let st2 = LexState { was_space_indent: r.1, was_tab_indent: r.2, ..st };
    if r.1 && r.2 { (st2, None) } else { (st2, Some(r.0 as usize)) }
}

/// Pops indentation levels above `indent`, one DEDENT each, stopping with an
/// error when `indent` falls between two levels.
pub open spec fn spec_dedent(st: LexState, indent: usize, span: Span) -> LexState
    decreases st.indent_stack.len(),
{
    if st.indent_stack.len() >= 2 && indent < st.indent_stack.last() {
        let stack = st.indent_stack.drop_last();
        if indent <= stack.last() {
            spec_dedent(
                LexState {
                    indent_stack: stack,
                    pending: st.pending.push(synthetic(TokenKind::Dedent, span, "<DEDENT>"@)),
                    ..st
                },
                indent,
                span,
            )
        } else {
            LexState {
                indent_stack: stack,
                errors: st.errors.push(LexerError::InconsistentDedent { line: st.line as usize }),
                ..st
            }
        }
    } else {
        st
    }
}

/// INDENT when `indent` is deeper than the current level, else DEDENTs.
pub open spec fn spec_insert_indent_or_dedent(st: LexState, indent: usize, span: Span) -> LexState {
    if indent > st.indent_stack.last() {
        LexState {
            indent_stack: st.indent_stack.push(indent),
            pending: st.pending.push(synthetic(TokenKind::Indent, span, "<INDENT>"@)),
            ..st
        }
    } else {
        spec_dedent(st, indent, span)
    }
}

/// Whether the line that starts at `q` is blank or holds only a comment
/// (a pragma is not a comment).
pub open spec fn blank_or_comment_at(s: Seq<char>, q: int) -> bool {
    q >= s.len() || s[q] == '\n' || s[q] == '\r' || (s[q] == '#' && !(q + 7 <= s.len()
        && s.subrange(q, q + 7) == "#pragma"@))
}

/// After a NEWLINE (already counted in `st`): outside brackets and before a
/// line that is neither blank nor a comment, emit the NEWLINE and the
/// INDENT/DEDENT tokens that the next line's indentation calls for.
pub open spec fn spec_handle_newline(st: LexState, newline: TokenView) -> LexState {
    if st.opened_brackets > 0 {
        st
    } else {
        let p = st.pos;
        let w = class_run(st.chars, p, CharClass::Blank) as int;
        if blank_or_comment_at(st.chars, p + w) {
            st
        } else {
            let st1 = LexState { pending: st.pending.push(newline), ..st };
            let (st2, il) = spec_indentation_length(st1, p, p + w);
            match il {
                None => LexState {
                    errors: st2.errors.push(
                        LexerError::InconsistentIndentation { line: (st.line + 1) as usize },
                    ),
                    ..st2
                },
                Some(len) => {
                    let start = byte_offset(st.chars, p) + w;
                    let span = Span {
                        start: start as usize,
                        end: start as usize,
                        line: st.line as usize,
                        column: (start - st.line_start_offset + 1) as usize,
                    };
                    spec_insert_indent_or_dedent(st2, len, span)
                },
            }
        }
    }
}

pub proof fn lemma_dedent_frame(st: LexState, indent: usize, span: Span)
    ensures
        spec_dedent(st, indent, span).chars == st.chars,
        spec_dedent(st, indent, span).pos == st.pos,
        spec_dedent(st, indent, span).finished == st.finished,
    decreases st.indent_stack.len(),
{
    if st.indent_stack.len() >= 2 && indent < st.indent_stack.last() {
        let stack = st.indent_stack.drop_last();
        if indent <= stack.last() {
            lemma_dedent_frame(
                LexState {
                    indent_stack: stack,
                    pending: st.pending.push(synthetic(TokenKind::Dedent, span, "<DEDENT>"@)),
                    ..st
                },
                indent,
                span,
            );
        }
    }
}

pub proof fn lemma_handle_newline_frame(st: LexState, tok: TokenView)
    ensures
        spec_handle_newline(st, tok).chars == st.chars,
        spec_handle_newline(st, tok).pos == st.pos,
        spec_handle_newline(st, tok).finished == st.finished,
{
    let p = st.pos;
    let w = class_run(st.chars, p, CharClass::Blank) as int;
    let st1 = LexState { pending: st.pending.push(tok), ..st };
    let (st2, il) = spec_indentation_length(st1, p, p + w);
    if let Some(len) = il {
        let start = byte_offset(st.chars, p) + w;
        let span = Span {
            start: start as usize,
            end: start as usize,
            line: st.line as usize,
            column: (start - st.line_start_offset + 1) as usize,
        };
        lemma_dedent_frame(st2, len, span);
    }
}

/// Index of the last newline in `s[..i]`.
pub open spec fn last_newline_before(s: Seq<char>, i: int) -> Option<int>
    decreases i,
{
    if i <= 0 || i > s.len() {
        None
    } else if s[i - 1] == '\n' {
        Some(i - 1)
    } else {
        last_newline_before(s, i - 1)
    }
}

pub open spec fn all_space_tab(s: Seq<char>, from: int, to: int) -> bool {
    forall|k: int| from <= k < to ==> (s[k] == ' ' || s[k] == '\t')
}

/// On the first statement token at `p`: mark the first statement seen, and report
/// an error when it is indented.
pub open spec fn spec_first_statement(st: LexState, p: int) -> LexState {
    if st.seen_first_statement {
        st
    } else {
        let st1 = LexState { seen_first_statement: true, ..st };
        if p > 0 {
            match last_newline_before(st.chars, p) {
                Some(nl) => {
                    if nl + 1 < p && all_space_tab(st.chars, nl + 1, p) {
                        let (st2, il) = spec_indentation_length(st1, nl + 1, p);
                        match il {
                            Some(len) => if len > 0 {
                                LexState {
                                    errors: st2.errors.push(
                                        LexerError::FirstStatementIndented { line: st.line as usize },
                                    ),
                                    ..st2
                                }
                            } else {
                                st2
                            },
                            None => st2,
                        }
                    } else {
                        st1
                    }
                },
                None => st1,
            }
        } else {
            st1
        }
    }
}

/// Takes the first pending token.
pub open spec fn pop_pending(st: LexState) -> (LexState, Option<TokenView>) {
    (LexState { pending: st.pending.drop_first(), ..st }, Some(st.pending[0]))
}

/// At the end of the source: a final NEWLINE and a DEDENT per open indentation
/// level when a statement was seen, then EOF.
pub open spec fn spec_eof(st: LexState) -> (LexState, Option<TokenView>) {
    pop_pending(spec_eof_pre(st))
}

/// The state at the end of the source, with the final tokens queued.
pub open spec fn spec_eof_pre(st: LexState) -> LexState {
    let total = byte_offset(st.chars, st.chars.len() as int) as usize;
    let span = Span { start: total, end: total, line: st.line as usize, column: 1 };
    let st1 = LexState { finished: true, ..st };
    let st2 = if st.seen_first_statement {
        LexState {
            indent_stack: st.indent_stack.take(1),
            pending: st.pending.push(synthetic(TokenKind::Newline, span, seq![])) + Seq::new(
                (st.indent_stack.len() - 1) as nat,
                |k: int| synthetic(TokenKind::Dedent, span, "<DEDENT>"@),
            ),
            ..st1
        }
    } else {
        st1
    };
    LexState { pending: st2.pending.push(synthetic(TokenKind::Eof, span, seq![])), ..st2 }
}

/// Reads raw tokens from `st.pos` on until one is emitted (with no pending
/// tokens on entry).
pub open spec fn spec_advance(st: LexState) -> (LexState, Option<TokenView>)
    decreases st.chars.len() - st.pos,
{
    if st.pos < 0 || st.pos >= st.chars.len() {
        spec_eof(st)
    } else {
        let (kind, n) = scan(st.chars, st.pos);
        let tok = token_at(st, kind, st.pos, n as int);
        let end = byte_offset(st.chars, st.pos + n);
        let st1 = LexState { pos: st.pos + n, ..st };
        if n == 0 || st.pos + n > st.chars.len() {
            spec_eof(st)
        } else if kind == TokenKind::Newline {
            let st2 = LexState { line: st.line + 1, line_start_offset: end as int, ..st1 };
            if !st.seen_first_statement {
                spec_advance(st2)
            } else {
                let st3 = spec_handle_newline(st2, tok);
                proof {
                    lemma_handle_newline_frame(st2, tok);
                }
                if st3.pending.len() > 0 {
                    pop_pending(st3)
                } else {
                    spec_advance(st3)
                }
            }
        } else if kind == TokenKind::ExplicitLineJoining {
            spec_advance(LexState { line: st.line + 1, line_start_offset: end as int, ..st1 })
        } else if kind == TokenKind::Comment || kind == TokenKind::Whitespace {
            spec_advance(st1)
        } else if kind == TokenKind::OpenParen || kind == TokenKind::OpenBracket || kind
            == TokenKind::OpenBrace {
            (LexState { opened_brackets: st.opened_brackets + 1, seen_first_statement: true, ..st1 }, Some(tok))
        } else if kind == TokenKind::CloseParen || kind == TokenKind::CloseBracket || kind
            == TokenKind::CloseBrace {
            (
                LexState {
                    opened_brackets: if st.opened_brackets > 0 { st.opened_brackets - 1 } else { 0 },
                    seen_first_statement: true,
                    ..st1
                },
                Some(tok),
            )
        } else if kind == TokenKind::Error {
            (
                LexState {
                    errors: st.errors.push(
                        LexerError::UnexpectedCharacter {
                            ch: st.chars[st.pos],
                            line: st.line as usize,
                            column: tok.span.column,
                        },
                    ),
                    ..st1
                },
                Some(tok),
            )
        } else {
            (spec_first_statement(st1, st.pos), Some(tok))
        }
    }
}

/// One step of the token stream: a pending token first, nothing once finished,
/// else the next token read from the source.
pub open spec fn spec_next(st: LexState) -> (LexState, Option<TokenView>) {
    if st.pending.len() > 0 {
        pop_pending(st)
    } else if st.finished {
        (st, None)
    } else {
        spec_advance(st)
    }
}

/// The tokens of an optional token, as values.
pub open spec fn opt_view(o: Option<Token>) -> Option<TokenView> {
    match o {
        Some(t) => Some(t@),
        None => None,
    }
}

pub proof fn lemma_byte_offset_mono(s: Seq<char>, i: int, j: int)
    requires
        0 <= i <= j <= s.len(),
    ensures
        byte_offset(s, i) + (j - i) <= byte_offset(s, j),
    decreases j - i,
{
    if i < j {
        lemma_byte_offset_mono(s, i, j - 1);
    }
}

/// Whether a source is small enough for its offsets to fit in machine integers.
pub fn within_limits_exec(source: &str) -> (b: bool)
    ensures
        b == within_limits(source@),
{
    let chars = crate::text::chars_of(source);
    let limit: usize = usize::MAX / 16;
    let mut total: usize = 0;
    let mut i: usize = 0;
    while i < chars.len()
        invariant
            i <= chars@.len(),
            chars@ == source@,
            total == byte_offset(source@, i as int),
            total <= limit,
            limit == usize::MAX / 16,
        decreases chars@.len() - i,
    {
        let w = char_width_exec(chars[i]);
        if total > limit - w {
            proof {
                assert(byte_offset(source@, i + 1) == byte_offset(source@, i as int) + char_width(source@[i as int]));
                lemma_byte_offset_mono(source@, i + 1, source@.len() as int);
            }
            return false;
        }
        total = total + w;
        i = i + 1;
    }
    true
}

/// Number of bytes in the UTF-8 encoding of `c`.
fn char_width_exec(c: char) -> (w: usize)
    ensures
        w == char_width(c),
{
    let u = c as u32;
    if u < 0x80 {
        1
    } else if u < 0x800 {
        2
    } else if u < 0x10000 {
        3
    } else {
        4
    }
}

/// The Ato lexer.
///
/// Handles tokenization including Python-style INDENT/DEDENT generation.
pub struct Lexer {
    chars: Vec<char>,
    pos: usize,
    byte_pos: usize,
    indent_stack: Vec<usize>,
    pending: Vec<Token>,
    opened_brackets: usize,
    line: usize,
    line_start_offset: usize,
    seen_first_statement: bool,
    finished: bool,
    was_space_indent: bool,
    was_tab_indent: bool,
    errors: Vec<LexerError>,
}

impl View for Lexer {
    type V = LexState;

    closed spec fn view(&self) -> LexState {
        LexState {
            chars: self.chars@,
            pos: self.pos as int,
            indent_stack: self.indent_stack@,
            pending: self.pending@.map_values(|t: Token| t@),
            opened_brackets: self.opened_brackets as int,
            line: self.line as int,
            line_start_offset: self.line_start_offset as int,
            seen_first_statement: self.seen_first_statement,
            finished: self.finished,
            was_space_indent: self.was_space_indent,
            was_tab_indent: self.was_tab_indent,
            errors: self.errors@,
        }
    }
}

impl Lexer {
    /// The lexer's invariant.
    pub closed spec fn wf(&self) -> bool {
        &&& within_limits(self.chars@)
        &&& self.pos <= self.chars.len()
        &&& self.byte_pos == byte_offset(self.chars@, self.pos as int)
        &&& self.indent_stack.len() >= 1
        &&& self.indent_stack@[0] == 0
        &&& self.line_start_offset <= self.byte_pos
        &&& 1 <= self.line <= self.pos + 1
        &&& self.opened_brackets <= self.pos
    }

    /// Create a new lexer for the given source code.
    pub fn new(source: &str) -> (l: Self)
        requires
            within_limits(source@),
        ensures
            l.wf(),
            l@ == initial_state(source@),
    {
        let chars = crate::text::chars_of(source);
        let l = Lexer {
            chars,
            pos: 0,
            byte_pos: 0,
            indent_stack: vec![0],
            pending: Vec::new(),
            opened_brackets: 0,
            line: 1,
            line_start_offset: 0,
            seen_first_statement: false,
            finished: false,
            was_space_indent: false,
            was_tab_indent: false,
            errors: Vec::new(),
        };
        assert(l@.pending =~= Seq::<TokenView>::empty());
        assert(l@ =~= initial_state(source@));
        l
    }

    /// The errors accumulated so far.
    pub fn errors(&self) -> (e: &Vec<LexerError>)
        ensures
            e@ == self@.errors,
    {
        &self.errors
    }

    /// Take the errors, leaving an empty list.
    pub fn take_errors(&mut self) -> (e: Vec<LexerError>)
        requires
            old(self).wf(),
        ensures
            final(self).wf(),
            e@ == old(self)@.errors,
            final(self)@ == (LexState { errors: seq![], ..old(self)@ }),
    {
        let mut e = Vec::new();
        std::mem::swap(&mut e, &mut self.errors);
        assert(self@ =~= (LexState { errors: seq![], ..old(self)@ }));
        e
    }
}

/// The byte offset of character index `to`, given that of `from`.
fn advance_bytes(v: &Vec<char>, from: usize, to: usize, b: usize) -> (r: usize)
    requires
        from <= to <= v.len(),
        b == byte_offset(v@, from as int),
        within_limits(v@),
    ensures
        r == byte_offset(v@, to as int),
{
    let mut k = from;
    let mut r = b;
    while k < to
        invariant
            from <= k <= to <= v.len(),
            r == byte_offset(v@, k as int),
            within_limits(v@),
        decreases to - k,
    {
        proof {
            lemma_byte_offset_mono(v@, k + 1, v@.len() as int);
        }
        r = r + char_width_exec(v[k]);
        k = k + 1;
    }
    r
}

fn is_indent_char(c: char) -> (b: bool)
    ensures
        b == (c == ' ' || c == '\t' || c == '\x0C'),
{
    c == ' ' || c == '\t' || c == '\x0C'
}

impl Lexer {
    /// Measures the indentation `chars[from..to]`, tracking tab and space use.
    fn indentation_length(&mut self, from: usize, to: usize) -> (r: Option<usize>)
        requires
            old(self).wf(),
            from <= to <= old(self).chars.len(),
        ensures
            final(self).wf(),
            final(self)@ == spec_indentation_length(old(self)@, from as int, to as int).0,
            r == spec_indentation_length(old(self)@, from as int, to as int).1,
    {
        proof {
            lemma_byte_offset_mono(self.chars@, 0, self.chars@.len() as int);
        }
        let ghost ws = self.chars@.subrange(from as int, to as int);
        let mut length: usize = 0;
        let mut sp = self.was_space_indent;
        let mut tab = self.was_tab_indent;
        let mut k = from;
        while k < to && is_indent_char(self.chars[k])
            invariant
                from <= k <= to <= self.chars.len(),
                self.wf(),
                self@ == old(self)@,
                ws == self.chars@.subrange(from as int, to as int),
                length <= 8 * (k - from),
                self.chars.len() <= usize::MAX / 16,
                indent_fold(ws, 0, 0, old(self)@.was_space_indent, old(self)@.was_tab_indent)
                    == indent_fold(ws, k - from, length as int, sp, tab),
            decreases to - k,
        {
            let c = self.chars[k];
            if c == ' ' {
                sp = true;
                length = length + 1;
            } else if c == '\t' {
                tab = true;
                length = length + 8 - length % 8;
            } else {
                length = 0;
            }
            k = k + 1;
        }
        self.was_space_indent = sp;
        self.was_tab_indent = tab;
        proof {
            assert(self@ =~= spec_indentation_length(old(self)@, from as int, to as int).0);
        }
        if sp && tab {
            None
        } else {
            Some(length)
        }
    }

    /// INDENT when `indent` is deeper than the current level, else DEDENTs.
    fn insert_indent_or_dedent(&mut self, indent: usize, span: Span)
        requires
            old(self).wf(),
        ensures
            final(self).wf(),
            final(self)@ == spec_insert_indent_or_dedent(old(self)@, indent, span),
    {
        let prev = self.indent_stack[self.indent_stack.len() - 1];
        if indent > prev {
            self.indent_stack.push(indent);
            self.pending.push(Token { kind: TokenKind::Indent, span, text: to_string("<INDENT>") });
            proof {
                assert(self@ =~= spec_insert_indent_or_dedent(old(self)@, indent, span));
            }
            return;
        }
        let ghost target = spec_dedent(old(self)@, indent, span);
        let mut stop = false;
        while !stop && self.indent_stack.len() >= 2 && indent < self.indent_stack[self.indent_stack.len() - 1]
            invariant
                self.wf(),
                stop ==> self@ == target,
                !stop ==> spec_dedent(self@, indent, span) == target,
            decreases self.indent_stack.len(), if stop { 0int } else { 1int },
        {
            let ghost before = self@;
            self.indent_stack.pop();
            let cur = self.indent_stack[self.indent_stack.len() - 1];
            if indent <= cur {
                self.pending.push(Token { kind: TokenKind::Dedent, span, text: to_string("<DEDENT>") });
                proof {
                    let stack = before.indent_stack.drop_last();
                    assert(self@ =~= LexState {
                        indent_stack: stack,
                        pending: before.pending.push(synthetic(TokenKind::Dedent, span, "<DEDENT>"@)),
                        ..before
                    });
                }
            } else {
                self.errors.push(LexerError::InconsistentDedent { line: self.line });
                stop = true;
                proof {
                    let stack = before.indent_stack.drop_last();
                    assert(self@ =~= LexState {
                        indent_stack: stack,
                        errors: before.errors.push(LexerError::InconsistentDedent { line: before.line as usize }),
                        ..before
                    });
                }
            }
        }
    }

    /// After a NEWLINE: emit it, with INDENT/DEDENT tokens, when it ends a logical line.
    fn handle_newline(&mut self, tok: Token)
        requires
            old(self).wf(),
        ensures
            final(self).wf(),
            final(self)@ == spec_handle_newline(old(self)@, tok@),
    {
        if self.opened_brackets > 0 {
            return;
        }
        proof {
            lemma_byte_offset_mono(self.chars@, 0, self.chars@.len() as int);
        }
        let p = self.pos;
        let w = class_run_at(&self.chars, p, CharClass::Blank);
        let q = p + w;
        let blank = q >= self.chars.len() || self.chars[q] == '\n' || self.chars[q] == '\r' || (
        self.chars[q] == '#' && !(7 <= self.chars.len() - q && chars_eq_lit(&self.chars, q, q + 7, "#pragma")));
        if blank {
            return;
        }
        let ghost st = self@;
        self.pending.push(tok);
        proof {
            assert(self@ =~= LexState { pending: st.pending.push(tok@), ..st });
        }
        match self.indentation_length(p, q) {
            None => {
                self.errors.push(LexerError::InconsistentIndentation { line: self.line + 1 });
            },
            Some(len) => {
                proof {
                    lemma_byte_offset_mono(self.chars@, p as int, q as int);
                    lemma_byte_offset_mono(self.chars@, q as int, self.chars@.len() as int);
                }
                let start = self.byte_pos + w;
                let span = Span { start, end: start, line: self.line, column: start - self.line_start_offset + 1 };
                self.insert_indent_or_dedent(len, span);
            },
        }
    }

    /// Marks the first statement seen at `p`, reporting it when indented.
    fn first_statement(&mut self, p: usize)
        requires
            old(self).wf(),
            p <= old(self).chars.len(),
        ensures
            final(self).wf(),
            final(self)@ == spec_first_statement(old(self)@, p as int),
    {
        if self.seen_first_statement {
            return;
        }
        self.seen_first_statement = true;
        if p == 0 {
            return;
        }
        let mut j = p;
        while j > 0 && self.chars[j - 1] != '\n'
            invariant
                j <= p <= self.chars.len(),
                last_newline_before(self.chars@, p as int) == last_newline_before(self.chars@, j as int),
            decreases j,
        {
            j = j - 1;
        }
        if j == 0 {
            return;
        }
        let from = j;
        if from < p {
            let mut k = from;
            while k < p && (self.chars[k] == ' ' || self.chars[k] == '\t')
                invariant
                    from <= k <= p <= self.chars.len(),
                    all_space_tab(self.chars@, from as int, k as int),
                decreases p - k,
            {
                k = k + 1;
            }
            if k == p {
                let line = self.line;
                match self.indentation_length(from, p) {
                    Some(len) => {
                        if len > 0 {
                            self.errors.push(LexerError::FirstStatementIndented { line });
                        }
                    },
                    None => {},
                }
            }
        }
    }
}

impl Lexer {
    /// Takes the first pending token.
    fn pop_first(&mut self) -> (r: Option<Token>)
        requires
            old(self).wf(),
            old(self).pending.len() > 0,
        ensures
            final(self).wf(),
            final(self)@ == pop_pending(old(self)@).0,
            opt_view(r) == pop_pending(old(self)@).1,
    {
        let t = self.pending.remove(0);
        proof {
            assert(self@ =~= pop_pending(old(self)@).0);
        }
        Some(t)
    }

    /// End of the source: trailing NEWLINE and DEDENTs when a statement was seen, then EOF.
    fn eof(&mut self) -> (r: Option<Token>)
        requires
            old(self).wf(),
            old(self).pos >= old(self).chars.len(),
        ensures
            final(self).wf(),
            final(self)@ == spec_eof(old(self)@).0,
            opt_view(r) == spec_eof(old(self)@).1,
    {
        let ghost st = self@;
        self.finished = true;
        let total = self.byte_pos;
        let span = Span { start: total, end: total, line: self.line, column: 1 };
        let ghost span_g = span;
        if self.seen_first_statement {
            self.pending.push(Token { kind: TokenKind::Newline, span, text: String::new() });
            let ghost base = st.pending.push(synthetic(TokenKind::Newline, span, seq![]));
            let ghost n0 = st.indent_stack.len();
            proof {
                assert(self@.pending =~= base + Seq::new(0, |k: int| synthetic(TokenKind::Dedent, span_g, "<DEDENT>"@)));
            }
            while self.indent_stack.len() > 1
                invariant
                    self.wf(),
                    self.finished,
                    self.pos >= self.chars.len(),
                    self@.chars == st.chars,
                    self.line == st.line,
                    self.seen_first_statement == st.seen_first_statement,
                    1 <= self.indent_stack.len() <= n0,
                    n0 == st.indent_stack.len(),
                    span == span_g,
                    self.indent_stack@ == st.indent_stack.take(self.indent_stack.len() as int),
                    self@.pending == base + Seq::new((n0 - self.indent_stack.len()) as nat,
                        |k: int| synthetic(TokenKind::Dedent, span_g, "<DEDENT>"@)),
                    self@ == (LexState { indent_stack: self@.indent_stack, pending: self@.pending, finished: true, ..st }),
                decreases self.indent_stack.len(),
            {
                let ghost before = self@;
                let ghost before_pending = self.pending@;
                self.indent_stack.pop();
                let d = Token { kind: TokenKind::Dedent, span, text: to_string("<DEDENT>") };
                self.pending.push(d);
                proof {
                    assert(self.pending@ == before_pending.push(d));
                    assert(self@.pending =~= before.pending.push(d@));
                    assert(d@ == synthetic(TokenKind::Dedent, span_g, "<DEDENT>"@));
                    assert(self@.pending =~= base + Seq::new((n0 - self.indent_stack.len()) as nat,
                        |k: int| synthetic(TokenKind::Dedent, span_g, "<DEDENT>"@)));
                    assert(self.indent_stack@ =~= st.indent_stack.take(self.indent_stack.len() as int));
                    assert(self@ =~= (LexState { indent_stack: self@.indent_stack, pending: self@.pending, finished: true, ..st }));
                }
            }
        }
        self.pending.push(Token { kind: TokenKind::Eof, span, text: String::new() });
        let ghost pre = self@;
        proof {
            assert(pre =~= LexState { pending: spec_eof_pre(st).pending, ..spec_eof_pre(st) }) by {
                if st.seen_first_statement {
                    assert(self.indent_stack@ =~= st.indent_stack.take(1));
                }
            }
        }
        self.pop_first()
    }
}

impl Lexer {
    /// Reads raw tokens until one is emitted.
    fn advance(&mut self) -> (r: Option<Token>)
        requires
            old(self).wf(),
            old(self).pending.len() == 0,
            !old(self).finished,
        ensures
            final(self).wf(),
            final(self)@ == spec_advance(old(self)@).0,
            opt_view(r) == spec_advance(old(self)@).1,
    {
        let ghost target = spec_advance(self@);
        loop
            invariant
                self.wf(),
                self.pending.len() == 0,
                !self.finished,
                spec_advance(self@) == target,
                target == spec_advance(old(self)@),
            decreases self.chars.len() - self.pos,
        {
            if self.pos >= self.chars.len() {
                return self.eof();
            }
            let ghost st = self@;
            let p = self.pos;
            let (kind, n) = scan_at(&self.chars, p);
            proof {
                lemma_byte_offset_mono(self.chars@, p as int, (p + n) as int);
                lemma_byte_offset_mono(self.chars@, (p + n) as int, self.chars@.len() as int);
                lemma_byte_offset_mono(self.chars@, 0, self.chars@.len() as int);
            }
            let end = advance_bytes(&self.chars, p, p + n, self.byte_pos);
            let tok = Token {
                kind,
                span: Span {
                    start: self.byte_pos,
                    end,
                    line: self.line,
                    column: self.byte_pos - self.line_start_offset + 1,
                },
                text: string_from_chars(&self.chars, p, p + n),
            };
            assert(tok@ == token_at(st, kind, p as int, n as int));
            self.pos = p + n;
            self.byte_pos = end;
            let ghost st1 = LexState { pos: st.pos + n, ..st };
            assert(self@ =~= st1);
            if kind == TokenKind::Newline {
                self.line = self.line + 1;
                self.line_start_offset = end;
                if !self.seen_first_statement {
                    assert(self@ =~= LexState { line: st.line + 1, line_start_offset: end as int, ..st1 });
                    continue;
                }
                let ghost st2 = self@;
                assert(st2 =~= LexState { line: st.line + 1, line_start_offset: end as int, ..st1 });
                self.handle_newline(tok);
                if self.pending.len() > 0 {
                    return self.pop_first();
                }
                proof {
                    lemma_handle_newline_frame(st2, tok@);
                }
            } else if kind == TokenKind::ExplicitLineJoining {
                self.line = self.line + 1;
                self.line_start_offset = end;
                assert(self@ =~= LexState { line: st.line + 1, line_start_offset: end as int, ..st1 });
            } else if kind == TokenKind::Comment || kind == TokenKind::Whitespace {
            } else if kind == TokenKind::OpenParen || kind == TokenKind::OpenBracket || kind
                == TokenKind::OpenBrace {
                self.opened_brackets = self.opened_brackets + 1;
                self.seen_first_statement = true;
                assert(self@ =~= LexState { opened_brackets: st.opened_brackets + 1, seen_first_statement: true, ..st1 });
                return Some(tok);
            } else if kind == TokenKind::CloseParen || kind == TokenKind::CloseBracket || kind
                == TokenKind::CloseBrace {
                if self.opened_brackets > 0 {
                    self.opened_brackets = self.opened_brackets - 1;
                }
                self.seen_first_statement = true;
                assert(self@ =~= LexState {
                    opened_brackets: if st.opened_brackets > 0 { st.opened_brackets - 1 } else { 0 },
                    seen_first_statement: true,
                    ..st1
                });
                return Some(tok);
            } else if kind == TokenKind::Error {
                let column = tok.span.column;
                self.errors.push(LexerError::UnexpectedCharacter { ch: self.chars[p], line: self.line, column });
                assert(self@ =~= LexState {
                    errors: st.errors.push(
                        LexerError::UnexpectedCharacter {
                            ch: st.chars[st.pos],
                            line: st.line as usize,
                            column: tok@.span.column,
                        },
                    ),
                    ..st1
                });
                return Some(tok);
            } else {
                self.first_statement(p);
                return Some(tok);
            }
        }
    }

    /// The next token of the stream, or `None` after EOF.
    pub fn next_token(&mut self) -> (r: Option<Token>)
        requires
            old(self).wf(),
        ensures
            final(self).wf(),
            final(self)@ == spec_next(old(self)@).0,
            opt_view(r) == spec_next(old(self)@).1,
    {
        if self.pending.len() > 0 {
            return self.pop_first();
        }
        if self.finished {
            return None;
        }
        self.advance()
    }
}

pub proof fn lemma_first_statement_frame(st: LexState, p: int)
    ensures
        spec_first_statement(st, p).chars == st.chars,
        spec_first_statement(st, p).pos == st.pos,
        spec_first_statement(st, p).finished == st.finished,
        spec_first_statement(st, p).pending == st.pending,
{
}

/// Reading from the source either ends it or moves past at least one character,
/// and always yields a token.
pub proof fn lemma_advance_progress(st: LexState)
    requires
        0 <= st.pos <= st.chars.len(),
    ensures
        spec_advance(st).0.chars == st.chars,
        st.pos <= spec_advance(st).0.pos <= st.chars.len(),
        spec_advance(st).1.is_some(),
        spec_advance(st).0.finished || spec_advance(st).0.pos > st.pos,
    decreases st.chars.len() - st.pos,
{
    if st.pos < st.chars.len() {
        let (kind, n) = scan(st.chars, st.pos);
        let tok = token_at(st, kind, st.pos, n as int);
        let end = byte_offset(st.chars, st.pos + n);
        let st1 = LexState { pos: st.pos + n, ..st };
        if n == 0 || st.pos + n > st.chars.len() {
        } else if kind == TokenKind::Newline {
            let st2 = LexState { line: st.line + 1, line_start_offset: end as int, ..st1 };
            if !st.seen_first_statement {
                lemma_advance_progress(st2);
            } else {
                let st3 = spec_handle_newline(st2, tok);
                lemma_handle_newline_frame(st2, tok);
                if st3.pending.len() == 0 {
                    lemma_advance_progress(st3);
                }
            }
        } else if kind == TokenKind::ExplicitLineJoining {
            lemma_advance_progress(LexState { line: st.line + 1, line_start_offset: end as int, ..st1 });
        } else if kind == TokenKind::Comment || kind == TokenKind::Whitespace {
            lemma_advance_progress(st1);
        } else if kind == TokenKind::OpenParen || kind == TokenKind::OpenBracket || kind
            == TokenKind::OpenBrace {
        } else if kind == TokenKind::CloseParen || kind == TokenKind::CloseBracket || kind
            == TokenKind::CloseBrace {
        } else if kind == TokenKind::Error {
        } else {
            lemma_first_statement_frame(st1, st.pos);
        }
    }
}

/// Each step of the token stream yields a token and moves forward: to the end
/// state, further into the source, or through the queued tokens.
pub proof fn lemma_next_progress(st: LexState)
    requires
        0 <= st.pos <= st.chars.len(),
        spec_next(st).1.is_some(),
    ensures
        spec_next(st).0.chars == st.chars,
        0 <= spec_next(st).0.pos <= st.chars.len(),
        (spec_next(st).0.finished && !st.finished) || (spec_next(st).0.finished == st.finished && (
        spec_next(st).0.pos > st.pos || (spec_next(st).0.pos == st.pos
            && spec_next(st).0.pending.len() < st.pending.len()))),
{
    if st.pending.len() == 0 && !st.finished {
        lemma_advance_progress(st);
    }
}

/// The tokens that the stream yields from state `st` until it ends, and the state it ends in.
pub open spec fn spec_run(st: LexState) -> (Seq<TokenView>, LexState)
    decreases (if st.finished { 0int } else { 1int }), st.chars.len() - st.pos, st.pending.len(),
{
    if !(0 <= st.pos <= st.chars.len()) {
        (seq![], st)
    } else {
        let (st2, r) = spec_next(st);
        match r {
            None => (seq![], st2),
            Some(t) => {
                proof {
                    lemma_next_progress(st);
                }
                let rest = spec_run(st2);
                (seq![t] + rest.0, rest.1)
            },
        }
    }
}

/// All the tokens of a source.
pub open spec fn spec_lex(s: Seq<char>) -> Seq<TokenView> {
    spec_run(initial_state(s)).0
}

/// All the lexing errors of a source, in the order they were found.
pub open spec fn spec_lex_errors(s: Seq<char>) -> Seq<LexerError> {
    spec_run(initial_state(s)).1.errors
}

/// Convenience function to lex source code into a vector of tokens and the errors found.
pub fn lex(source: &str) -> (r: (Vec<Token>, Vec<LexerError>))
    requires
        within_limits(source@),
    ensures
        r.0@.map_values(|t: Token| t@) == spec_lex(source@),
        r.1@ == spec_lex_errors(source@),
{
    let mut lexer = Lexer::new(source);
    let mut tokens: Vec<Token> = Vec::new();
    loop
        invariant
            lexer.wf(),
            0 <= lexer@.pos <= lexer@.chars.len(),
            tokens@.map_values(|t: Token| t@) + spec_run(lexer@).0 == spec_lex(source@),
            spec_run(lexer@).1 == spec_run(initial_state(source@)).1,
        decreases (if lexer@.finished { 0int } else { 1int }), lexer@.chars.len() - lexer@.pos, lexer@.pending.len(),
    {
        let ghost before = lexer@;
        match lexer.next_token() {
            Some(t) => {
                proof {
                    lemma_next_progress(before);
                    assert(tokens@.push(t).map_values(|t: Token| t@) =~= tokens@.map_values(|t: Token| t@).push(t@));
                    assert(tokens@.map_values(|t: Token| t@) + spec_run(before).0 =~= tokens@.push(t).map_values(|t: Token| t@) + spec_run(lexer@).0);
                }
                tokens.push(t);
            },
            None => {
                let errors = lexer.take_errors();
                assert(tokens@.map_values(|t: Token| t@) =~= spec_lex(source@));
                return (tokens, errors);
            },
        }
    }
}

/// No queued token is of a hidden kind.
pub open spec fn pending_visible(st: LexState) -> bool {
    forall|k: int| 0 <= k < st.pending.len() ==> !spec_is_hidden(#[trigger] st.pending[k].kind)
}

/// Once the source is exhausted, the queue ends with EOF.
pub open spec fn ends_with_eof(st: LexState) -> bool {
    st.finished ==> (st.pending.len() > 0 ==> st.pending.last().kind == TokenKind::Eof)
}

proof fn lemma_dedent_visible(st: LexState, indent: usize, span: Span)
    requires
        pending_visible(st),
    ensures
        pending_visible(spec_dedent(st, indent, span)),
        spec_dedent(st, indent, span).finished == st.finished,
    decreases st.indent_stack.len(),
{
    if st.indent_stack.len() >= 2 && indent < st.indent_stack.last() {
        let stack = st.indent_stack.drop_last();
        if indent <= stack.last() {
            let st2 = LexState {
                indent_stack: stack,
                pending: st.pending.push(synthetic(TokenKind::Dedent, span, "<DEDENT>"@)),
                ..st
            };
            assert(pending_visible(st2)) by {
                assert forall|k: int| 0 <= k < st2.pending.len() implies !spec_is_hidden(
                    #[trigger] st2.pending[k].kind) by {
                    if k < st.pending.len() {
                        assert(st2.pending[k] == st.pending[k]);
                    }
                }
            }
            lemma_dedent_visible(st2, indent, span);
        }
    }
}

proof fn lemma_handle_newline_visible(st: LexState, tok: TokenView)
    requires
        pending_visible(st),
        tok.kind == TokenKind::Newline,
    ensures
        pending_visible(spec_handle_newline(st, tok)),
{
    let p = st.pos;
    let w = class_run(st.chars, p, CharClass::Blank) as int;
    if st.opened_brackets <= 0 && !blank_or_comment_at(st.chars, p + w) {
        let st1 = LexState { pending: st.pending.push(tok), ..st };
        assert(pending_visible(st1)) by {
            assert forall|k: int| 0 <= k < st1.pending.len() implies !spec_is_hidden(
                #[trigger] st1.pending[k].kind) by {
                if k < st.pending.len() {
                    assert(st1.pending[k] == st.pending[k]);
                }
            }
        }
        let (st2, il) = spec_indentation_length(st1, p, p + w);
        if let Some(len) = il {
            let start = byte_offset(st.chars, p) + w;
            let span = Span {
                start: start as usize,
                end: start as usize,
                line: st.line as usize,
                column: (start - st.line_start_offset + 1) as usize,
            };
            if len > st2.indent_stack.last() {
                let st3 = spec_insert_indent_or_dedent(st2, len, span);
                assert forall|k: int| 0 <= k < st3.pending.len() implies !spec_is_hidden(
                    #[trigger] st3.pending[k].kind) by {
                    if k < st2.pending.len() {
                        assert(st3.pending[k] == st2.pending[k]);
                    }
                }
            } else {
                lemma_dedent_visible(st2, len, span);
            }
        }
    }
}

proof fn lemma_eof_shape(st: LexState)
    requires
        pending_visible(st),
    ensures
        spec_eof(st).0.finished,
        pending_visible(spec_eof(st).0),
        ends_with_eof(spec_eof(st).0),
        spec_eof(st).1.is_some(),
        !spec_is_hidden(spec_eof(st).1.unwrap().kind),
        spec_eof(st).0.pending.len() == 0 ==> spec_eof(st).1.unwrap().kind == TokenKind::Eof,
{
    let pre = spec_eof_pre(st);
    assert(pending_visible(pre)) by {
        assert forall|k: int| 0 <= k < pre.pending.len() implies !spec_is_hidden(
            #[trigger] pre.pending[k].kind) by {
            if k < st.pending.len() {
                assert(pre.pending[k] == st.pending[k]);
            }
        }
    }
    let post = spec_eof(st).0;
    assert forall|k: int| 0 <= k < post.pending.len() implies !spec_is_hidden(
        #[trigger] post.pending[k].kind) by {
        assert(post.pending[k] == pre.pending[k + 1]);
    }
}

/// Reading from the source yields a visible token and leaves only visible tokens
/// queued; when it ends the source, EOF comes last.
proof fn lemma_advance_shape(st: LexState)
    requires
        0 <= st.pos <= st.chars.len(),
        pending_visible(st),
        !st.finished,
    ensures
        pending_visible(spec_advance(st).0),
        ends_with_eof(spec_advance(st).0),
        !spec_is_hidden(spec_advance(st).1.unwrap().kind),
        spec_advance(st).0.finished && spec_advance(st).0.pending.len() == 0
            ==> spec_advance(st).1.unwrap().kind == TokenKind::Eof,
    decreases st.chars.len() - st.pos,
{
    lemma_advance_progress(st);
    if st.pos >= st.chars.len() {
        lemma_eof_shape(st);
    } else {
        let (kind, n) = scan(st.chars, st.pos);
        let tok = token_at(st, kind, st.pos, n as int);
        let end = byte_offset(st.chars, st.pos + n);
        let st1 = LexState { pos: st.pos + n, ..st };
        if n == 0 || st.pos + n > st.chars.len() {
            lemma_eof_shape(st);
        } else if kind == TokenKind::Newline {
            let st2 = LexState { line: st.line + 1, line_start_offset: end as int, ..st1 };
            if !st.seen_first_statement {
                lemma_advance_shape(st2);
            } else {
                let st3 = spec_handle_newline(st2, tok);
                lemma_handle_newline_frame(st2, tok);
                lemma_handle_newline_visible(st2, tok);
                if st3.pending.len() == 0 {
                    lemma_advance_shape(st3);
                } else {
                    let post = pop_pending(st3).0;
                    assert forall|k: int| 0 <= k < post.pending.len() implies !spec_is_hidden(
                        #[trigger] post.pending[k].kind) by {
                        assert(post.pending[k] == st3.pending[k + 1]);
                    }
                    assert(!spec_is_hidden(st3.pending[0].kind));
                }
            }
        } else if kind == TokenKind::ExplicitLineJoining {
            lemma_advance_shape(LexState { line: st.line + 1, line_start_offset: end as int, ..st1 });
        } else if kind == TokenKind::Comment || kind == TokenKind::Whitespace {
            lemma_advance_shape(st1);
        } else if kind == TokenKind::OpenParen || kind == TokenKind::OpenBracket || kind
            == TokenKind::OpenBrace {
        } else if kind == TokenKind::CloseParen || kind == TokenKind::CloseBracket || kind
            == TokenKind::CloseBrace {
        } else if kind == TokenKind::Error {
        } else {
            lemma_first_statement_frame(st1, st.pos);
        }
    }
}

proof fn lemma_run_shape(st: LexState)
    requires
        0 <= st.pos <= st.chars.len(),
        pending_visible(st),
        ends_with_eof(st),
        !st.finished || st.pending.len() > 0,
    ensures
        spec_run(st).0.len() > 0,
        spec_run(st).0.last().kind == TokenKind::Eof,
        forall|k: int| 0 <= k < spec_run(st).0.len() ==> !spec_is_hidden(#[trigger] spec_run(st).0[k].kind),
    decreases (if st.finished { 0int } else { 1int }), st.chars.len() - st.pos, st.pending.len(),
{
    let (st2, r) = spec_next(st);
    if st.pending.len() > 0 {
        let post = pop_pending(st).0;
        assert forall|k: int| 0 <= k < post.pending.len() implies !spec_is_hidden(
            #[trigger] post.pending[k].kind) by {
            assert(post.pending[k] == st.pending[k + 1]);
        }
        assert(!spec_is_hidden(st.pending[0].kind));
    } else {
        lemma_advance_progress(st);
        lemma_advance_shape(st);
    }
    lemma_next_progress(st);
    let t = r.unwrap();
    let rest = spec_run(st2);
    if !st2.finished || st2.pending.len() > 0 {
        lemma_run_shape(st2);
    } else {
        if st.pending.len() > 0 {
            assert(st.pending.len() == 1);
        }
    }
    let out = spec_run(st).0;
    assert(out == seq![t] + rest.0);
    assert forall|k: int| 0 <= k < out.len() implies !spec_is_hidden(#[trigger] out[k].kind) by {
        if k > 0 {
            assert(out[k] == rest.0[k - 1]);
        }
    }
}

/// The token stream of every source is non-empty and ends with EOF, and holds no
/// comment, whitespace or line-continuation token.
pub proof fn lemma_lex_shape(s: Seq<char>)
    ensures
        spec_lex(s).len() > 0,
        spec_lex(s).last().kind == TokenKind::Eof,
        forall|k: int| 0 <= k < spec_lex(s).len() ==> !spec_is_hidden(#[trigger] spec_lex(s)[k].kind),
{
    lemma_run_shape(initial_state(s));
}


/// No end-of-file token waits in the queue.
pub open spec fn pending_plain(st: LexState) -> bool {
    forall|k: int| 0 <= k < st.pending.len() ==> #[trigger] st.pending[k].kind != TokenKind::Eof
}

/// An end-of-file token waits in the queue only last, and only once the source
/// is done.
pub open spec fn eof_last(st: LexState) -> bool {
    &&& forall|k: int| 0 <= k < st.pending.len() - 1 ==> #[trigger] st.pending[k].kind != TokenKind::Eof
    &&& !st.finished ==> pending_plain(st)
}

/// The scanner never reads an end-of-file token from the source.
proof fn lemma_scan_not_eof(s: Seq<char>, i: int)
    requires
        0 <= i < s.len(),
    ensures
        scan(s, i).0 != TokenKind::Eof,
{
}

proof fn lemma_dedent_plain(st: LexState, indent: usize, span: Span)
    requires
        pending_plain(st),
    ensures
        pending_plain(spec_dedent(st, indent, span)),
    decreases st.indent_stack.len(),
{
    if st.indent_stack.len() >= 2 && indent < st.indent_stack.last() {
        let stack = st.indent_stack.drop_last();
        if indent <= stack.last() {
            let st2 = LexState {
                indent_stack: stack,
                pending: st.pending.push(synthetic(TokenKind::Dedent, span, "<DEDENT>"@)),
                ..st
            };
            assert(pending_plain(st2)) by {
                assert forall|k: int| 0 <= k < st2.pending.len() implies #[trigger] st2.pending[k].kind
                    != TokenKind::Eof by {
                    if k < st.pending.len() {
                        assert(st2.pending[k] == st.pending[k]);
                    }
                }
            }
            lemma_dedent_plain(st2, indent, span);
        }
    }
}

proof fn lemma_handle_newline_plain(st: LexState, tok: TokenView)
    requires
        pending_plain(st),
        tok.kind == TokenKind::Newline,
    ensures
        pending_plain(spec_handle_newline(st, tok)),
{
    let p = st.pos;
    let w = class_run(st.chars, p, CharClass::Blank) as int;
    if st.opened_brackets <= 0 && !blank_or_comment_at(st.chars, p + w) {
        let st1 = LexState { pending: st.pending.push(tok), ..st };
        assert(pending_plain(st1)) by {
            assert forall|k: int| 0 <= k < st1.pending.len() implies #[trigger] st1.pending[k].kind
                != TokenKind::Eof by {
                if k < st.pending.len() {
                    assert(st1.pending[k] == st.pending[k]);
                }
            }
        }
        let (st2, il) = spec_indentation_length(st1, p, p + w);
        if let Some(len) = il {
            let start = byte_offset(st.chars, p) + w;
            let span = Span {
                start: start as usize,
                end: start as usize,
                line: st.line as usize,
                column: (start - st.line_start_offset + 1) as usize,
            };
            if len > st2.indent_stack.last() {
                let st3 = spec_insert_indent_or_dedent(st2, len, span);
                assert forall|k: int| 0 <= k < st3.pending.len() implies #[trigger] st3.pending[k].kind
                    != TokenKind::Eof by {
                    if k < st2.pending.len() {
                        assert(st3.pending[k] == st2.pending[k]);
                    }
                }
            } else {
                lemma_dedent_plain(st2, len, span);
            }
        }
    }
}

/// Ending the source yields EOF at once before any statement, else a NEWLINE
/// first; either way EOF is queued last.
proof fn lemma_eof_last(st: LexState)
    requires
        st.pending.len() == 0,
    ensures
        eof_last(spec_eof(st).0),
        spec_eof(st).0.finished,
        spec_eof(st).1.unwrap().kind == TokenKind::Eof ==> spec_eof(st).0.pending.len() == 0,
{
    let pre = spec_eof_pre(st);
    let post = spec_eof(st).0;
    assert forall|k: int| 0 <= k < post.pending.len() - 1 implies #[trigger] post.pending[k].kind
        != TokenKind::Eof by {
        assert(post.pending[k] == pre.pending[k + 1]);
    }
}

/// Reading from the source with nothing queued yields EOF only when it ends the
/// source with nothing left queued, and leaves EOF queued only last.
proof fn lemma_advance_eof(st: LexState)
    requires
        0 <= st.pos <= st.chars.len(),
        st.pending.len() == 0,
        !st.finished,
    ensures
        eof_last(spec_advance(st).0),
        spec_advance(st).1.unwrap().kind == TokenKind::Eof ==> spec_advance(st).0.finished
            && spec_advance(st).0.pending.len() == 0,
    decreases st.chars.len() - st.pos,
{
    lemma_advance_progress(st);
    if st.pos >= st.chars.len() {
        lemma_eof_last(st);
    } else {
        let (kind, n) = scan(st.chars, st.pos);
        lemma_scan_not_eof(st.chars, st.pos);
        let tok = token_at(st, kind, st.pos, n as int);
        let end = byte_offset(st.chars, st.pos + n);
        let st1 = LexState { pos: st.pos + n, ..st };
        if n == 0 || st.pos + n > st.chars.len() {
            lemma_eof_last(st);
        } else if kind == TokenKind::Newline {
            let st2 = LexState { line: st.line + 1, line_start_offset: end as int, ..st1 };
            if !st.seen_first_statement {
                lemma_advance_eof(st2);
            } else {
                let st3 = spec_handle_newline(st2, tok);
                lemma_handle_newline_frame(st2, tok);
                lemma_handle_newline_plain(st2, tok);
                if st3.pending.len() == 0 {
                    lemma_advance_eof(st3);
                } else {
                    let post = pop_pending(st3).0;
                    assert forall|k: int| 0 <= k < post.pending.len() implies #[trigger] post.pending[k].kind
                        != TokenKind::Eof by {
                        assert(post.pending[k] == st3.pending[k + 1]);
                    }
                    assert(st3.pending[0].kind != TokenKind::Eof);
                }
            }
        } else if kind == TokenKind::ExplicitLineJoining {
            lemma_advance_eof(LexState { line: st.line + 1, line_start_offset: end as int, ..st1 });
        } else if kind == TokenKind::Comment || kind == TokenKind::Whitespace {
            lemma_advance_eof(st1);
        } else if kind == TokenKind::OpenParen || kind == TokenKind::OpenBracket || kind
            == TokenKind::OpenBrace {
        } else if kind == TokenKind::CloseParen || kind == TokenKind::CloseBracket || kind
            == TokenKind::CloseBrace {
        } else if kind == TokenKind::Error {
        } else {
            lemma_first_statement_frame(st1, st.pos);
        }
    }
}

/// The rest of the token stream from a state with EOF queued only last holds EOF
/// only as its last token.
proof fn lemma_run_eof(st: LexState)
    requires
        0 <= st.pos <= st.chars.len(),
        eof_last(st),
    ensures
        forall|k: int| 0 <= k < spec_run(st).0.len() - 1 ==> #[trigger] spec_run(st).0[k].kind != TokenKind::Eof,
    decreases (if st.finished { 0int } else { 1int }), st.chars.len() - st.pos, st.pending.len(),
{
    let (st2, r) = spec_next(st);
    if r is None {
        return;
    }
    let t = r.unwrap();
    if st.pending.len() > 0 {
        assert(eof_last(st2)) by {
            assert forall|k: int| 0 <= k < st2.pending.len() - 1 implies #[trigger] st2.pending[k].kind
                != TokenKind::Eof by {
                assert(st2.pending[k] == st.pending[k + 1]);
            }
            if !st2.finished {
                assert forall|k: int| 0 <= k < st2.pending.len() implies #[trigger] st2.pending[k].kind
                    != TokenKind::Eof by {
                    assert(st2.pending[k] == st.pending[k + 1]);
                }
            }
        }
        if t.kind == TokenKind::Eof {
            assert(st.pending.len() == 1);
        }
    } else {
        lemma_advance_eof(st);
    }
    lemma_next_progress(st);
    lemma_run_eof(st2);
    let rest = spec_run(st2).0;
    let out = spec_run(st).0;
    assert(out == seq![t] + rest);
    if t.kind == TokenKind::Eof {
        assert(st2.finished && st2.pending.len() == 0);
        assert(spec_next(st2).1 is None);
        assert(rest.len() == 0);
    }
    assert forall|k: int| 0 <= k < out.len() - 1 implies #[trigger] out[k].kind != TokenKind::Eof by {
        if k > 0 {
            assert(out[k] == rest[k - 1]);
        }
    }
}

/// In the token stream of every source, the end-of-file token comes only last.
pub proof fn lemma_lex_eof_last(s: Seq<char>)
    ensures
        forall|k: int| 0 <= k < spec_lex(s).len() - 1 ==> #[trigger] spec_lex(s)[k].kind != TokenKind::Eof,
{
    lemma_run_eof(initial_state(s));
}


/// Every keyword and reserved word, lexed alone, gives a first token of its own
/// keyword kind whose text is the whole word: `False` lexes as the keyword
/// `False`, never as a name.
pub proof fn lemma_keyword_lexes_as_keyword(k: TokenKind)
    requires
        spec_is_keyword(k) || spec_is_reserved(k),
    ensures
        spec_lex(spec_kind_name(k)).len() > 0,
        spec_lex(spec_kind_name(k))[0].kind == k,
        spec_lex(spec_kind_name(k))[0].text == spec_kind_name(k),
{
    let w = spec_kind_name(k);
    lemma_keyword_scans_as_keyword(k);
    let st = initial_state(w);
    let tok = token_at(st, k, 0, w.len() as int);
    assert(st.pending.len() == 0);
    assert(spec_advance(st).1 == Some(tok));
    assert(spec_next(st).1 == Some(tok));
    assert(spec_run(st).0[0] == tok);
    assert(tok.text =~= w);
}

} // verus!
