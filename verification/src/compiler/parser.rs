use vstd::prelude::*;
use vstd::utf8::*;
use vstd::string::StringSliceAdditionalSpecFns;
use crate::scanner::{
    Scanner, is_alpha_byte, keyword_type, punctuation, ScannerView, byte_at, char_width, comment_end, digits_end, identifier_end, is_alphanumeric_byte,
    is_digit_byte, lex_token, rest_len, skip_trivia, string_end, token_in,
};
use crate::token::{ScanError, Token, TokenType};

verus! {

/// Where a compile error is reported: at the end of the source, at a lexeme, or with
/// no place (for a scanner error, whose message says enough).
pub enum ErrorPlace {
    AtEnd,
    AtLexeme(String),
    Unplaced,
}

/// One compile error: the line, the place and the message, as the user sees them.
pub struct Diagnostic {
    pub line: usize,
    pub place: ErrorPlace,
    pub message: &'static str,
}

pub enum PlaceView {
    AtEnd,
    AtLexeme(Seq<u8>),
    Unplaced,
}

pub struct DiagnosticView {
    pub line: nat,
    pub place: PlaceView,
    pub message: Seq<char>,
}

impl View for Diagnostic {
    type V = DiagnosticView;

    open spec fn view(&self) -> DiagnosticView {
        DiagnosticView {
            line: self.line as nat,
            place: match self.place {
                ErrorPlace::AtEnd => PlaceView::AtEnd,
                ErrorPlace::AtLexeme(s) => PlaceView::AtLexeme(encode_utf8(s@)),
                ErrorPlace::Unplaced => PlaceView::Unplaced,
            },
            message: self.message@,
        }
    }
}

/// The diagnostic for an error at `token` of a source whose bytes are `bytes`.
pub open spec fn diagnostic_for(bytes: Seq<u8>, token: Token, message: Seq<char>) -> DiagnosticView {
    DiagnosticView {
        line: token.line as nat,
        place: match token.token_type {
            TokenType::EOF => PlaceView::AtEnd,
            TokenType::Error(_) => PlaceView::Unplaced,
            _ => PlaceView::AtLexeme(bytes.subrange(token.start as int, token.start + token.length)),
        },
        message,
    }
}

/// Whether a diagnostic at `token` shows its lexeme: it is neither the end of the source
/// nor a scanner error.
pub open spec fn has_lexeme(token: Token) -> bool {
    !(token.token_type == TokenType::EOF) && !(token.token_type is Error)
}

/// The abstract state of a parser.
pub struct ParserView {
    pub scan: ScannerView,
    pub current: Token,
    pub previous: Token,
    pub had_error: bool,
    pub panic_mode: bool,
    pub can_assign: bool,
    pub diagnostics: Seq<DiagnosticView>,
}

/// Reports an error at `token`: the first error since the parser last recovered is
/// recorded and puts the parser in panic mode; later ones are suppressed.
pub open spec fn report(p: ParserView, token: Token, message: Seq<char>) -> ParserView {
    if p.panic_mode {
        p
    } else {
        ParserView {
            panic_mode: true,
            had_error: true,
            diagnostics: p.diagnostics.push(diagnostic_for(p.scan.bytes, token, message)),
            ..p
        }
    }
}

/// Reads tokens into `current` until one that is not a scanner error, reporting each
/// error token met on the way.
pub open spec fn fetch(p: ParserView) -> ParserView
    decreases rest_len(p.scan.bytes, p.scan.current),
{
    let (t, e, l) = lex_token(p.scan.bytes, p.scan.current, p.scan.line);
    let p1 = ParserView {
        scan: ScannerView { start: t.start as int, current: e, line: l, ..p.scan },
        current: t,
        ..p
    };
    if t.token_type is Error {
        proof {
            lemma_lex_error_progress(p.scan.bytes, p.scan.current, p.scan.line);
        }
        fetch(report(p1, t, t.token_type->0.message_spec()))
    } else {
        p1
    }
}

/// Moves one token forward.
pub open spec fn advance_spec(p: ParserView) -> ParserView {
    fetch(ParserView { previous: p.current, ..p })
}

/// The parser's measure of work left: bytes unread, plus one while the current token is
/// not the end of the source.
pub open spec fn progress_of(p: ParserView) -> nat {
    rest_len(p.scan.bytes, p.scan.current) + if p.current.token_type == TokenType::EOF {
        0nat
    } else {
        1nat
    }
}

/// Whether a token starts a statement, where error recovery stops.
pub open spec fn starts_statement(t: TokenType) -> bool {
    t == TokenType::Class || t == TokenType::Fun || t == TokenType::If || t == TokenType::While
        || t == TokenType::Var || t == TokenType::For || t == TokenType::Print || t
        == TokenType::Return
}

/// Error recovery: skips tokens until a statement boundary (just after a semicolon, or
/// before a statement keyword) or the end of the source.
pub open spec fn synchronize_spec(p: ParserView) -> ParserView
    decreases progress_of(p),
{
    if p.current.token_type == TokenType::EOF || p.previous.token_type == TokenType::Semicolon
        || starts_statement(p.current.token_type) {
        p
    } else {
        proof {
            lemma_fetch_progress(ParserView { previous: p.current, ..p });
        }
        synchronize_spec(advance_spec(p))
    }
}

/// `consume`: moves past the current token when it is of the expected kind, else reports.
pub open spec fn consume_spec(p: ParserView, token_type: TokenType, message: Seq<char>) -> ParserView {
    if p.current.token_type == token_type {
        advance_spec(p)
    } else {
        report(p, p.current, message)
    }
}

// ── Facts about scanning ─────────────────────────────────────────────────────

pub proof fn lemma_skip_trivia_grows(s: Seq<u8>, p: int, line: int)
    ensures
        skip_trivia(s, p, line).0 >= p,
        skip_trivia(s, p, line).1 >= line,
    decreases rest_len(s, p),
{
    if p < 0 || p >= s.len() {
    } else if s[p] == 32 || s[p] == 13 || s[p] == 9 {
        lemma_skip_trivia_grows(s, p + 1, line);
    } else if s[p] == 10 {
        lemma_skip_trivia_grows(s, p + 1, line + 1);
    } else if s[p] == 47 && byte_at(s, p + 1) == 47 {
        if comment_end(s, p) > p {
            lemma_skip_trivia_grows(s, comment_end(s, p), line);
        }
    }
}

pub proof fn lemma_string_end_grows(s: Seq<u8>, p: int, line: int)
    ensures
        string_end(s, p, line).0 >= p,
        string_end(s, p, line).1 >= line,
    decreases rest_len(s, p),
{
    if p < 0 || p >= s.len() || s[p] == 34 {
    } else if s[p] == 10 {
        lemma_string_end_grows(s, p + 1, line + 1);
    } else {
        lemma_string_end_grows(s, p + char_width(s[p]), line);
    }
}

pub proof fn lemma_digits_end_grows(s: Seq<u8>, p: int)
    ensures
        digits_end(s, p) >= p,
    decreases s.len() - p,
{
    if 0 <= p < s.len() && is_digit_byte(s[p]) {
        lemma_digits_end_grows(s, p + 1);
    }
}

pub proof fn lemma_identifier_end_grows(s: Seq<u8>, p: int)
    ensures
        identifier_end(s, p) >= p,
    decreases s.len() - p,
{
    if 0 <= p < s.len() && is_alphanumeric_byte(s[p]) {
        lemma_identifier_end_grows(s, p + 1);
    }
}

/// A string body ends at a closing quote or at the end of the source.
pub proof fn lemma_string_end_quote(s: Seq<u8>, p: int, line: int)
    requires
        p >= 0,
    ensures
        string_end(s, p, line).0 < s.len() ==> s[string_end(s, p, line).0] == 34,
    decreases rest_len(s, p),
{
    if p < 0 || p >= s.len() || s[p] == 34 {
    } else if s[p] == 10 {
        lemma_string_end_quote(s, p + 1, line + 1);
    } else {
        lemma_string_end_quote(s, p + char_width(s[p]), line);
    }
}

/// A token of kind `String` spans at least its two quotes.
pub open spec fn quoted(s: Seq<u8>, t: Token) -> bool {
    t.token_type == TokenType::String ==> {
        &&& t.length >= 2
        &&& t.start + t.length <= s.len()
        &&& s[t.start as int] == 34
        &&& s[t.start + t.length - 1] == 34
    }
}

/// The scanner yields string tokens with their quotes.
pub proof fn lemma_lex_quoted(s: Seq<u8>, p: int, line: int)
    requires
        0 <= p,
        s.len() < usize::MAX,
    ensures
        quoted(s, lex_token(s, p, line).0),
{
    lemma_skip_trivia_grows(s, p, line);
    let (q, l) = skip_trivia(s, p, line);
    if q < s.len() {
        let c = s[q];
        if is_digit_byte(c) {
        } else if is_alpha_byte(c) {
            let e = identifier_end(s, q + 1);
            let w = s.subrange(q, e);
            assert(keyword_type(w) != TokenType::String);
        } else if c == 34 {
            lemma_string_end_grows(s, q + 1, l);
            lemma_string_end_quote(s, q + 1, l);
        } else if punctuation(c, byte_at(s, q + 1)) is Some {
            assert(punctuation(c, byte_at(s, q + 1)).unwrap().0 != TokenType::String);
        }
    }
}

/// The scanner never moves back, and every token but the end of the source takes at
/// least one byte.
pub proof fn lemma_lex_progress(s: Seq<u8>, p: int, line: int)
    ensures
        lex_token(s, p, line).1 >= p,
        lex_token(s, p, line).0.token_type != TokenType::EOF ==> p < s.len() && lex_token(
            s,
            p,
            line,
        ).1 > p,
{
    lemma_skip_trivia_grows(s, p, line);
    let (q, l) = skip_trivia(s, p, line);
    if q < s.len() {
        lemma_digits_end_grows(s, q + 1);
        lemma_digits_end_grows(s, digits_end(s, q + 1) + 1);
        lemma_identifier_end_grows(s, q + 1);
        lemma_string_end_grows(s, q + 1, l);
    }
}

pub proof fn lemma_lex_error_progress(s: Seq<u8>, p: int, line: int)
    ensures
        lex_token(s, p, line).0.token_type is Error ==> rest_len(s, lex_token(s, p, line).1)
            < rest_len(s, p),
{
    lemma_lex_progress(s, p, line);
}

/// Fetching never moves back, and moves forward when it stops before the end.
pub proof fn lemma_fetch_progress(p: ParserView)
    ensures
        rest_len(fetch(p).scan.bytes, fetch(p).scan.current) <= rest_len(
            p.scan.bytes,
            p.scan.current,
        ),
        fetch(p).current.token_type != TokenType::EOF ==> rest_len(
            fetch(p).scan.bytes,
            fetch(p).scan.current,
        ) < rest_len(p.scan.bytes, p.scan.current),
        fetch(p).scan.bytes == p.scan.bytes,
        fetch(p).previous == p.previous,
        fetch(p).can_assign == p.can_assign,
        p.had_error ==> fetch(p).had_error,
    decreases rest_len(p.scan.bytes, p.scan.current),
{
    let (t, e, l) = lex_token(p.scan.bytes, p.scan.current, p.scan.line);
    lemma_lex_progress(p.scan.bytes, p.scan.current, p.scan.line);
    let p1 = ParserView {
        scan: ScannerView { start: t.start as int, current: e, line: l, ..p.scan },
        current: t,
        ..p
    };
    if t.token_type is Error {
        lemma_lex_error_progress(p.scan.bytes, p.scan.current, p.scan.line);
        lemma_fetch_progress(report(p1, t, t.token_type->0.message_spec()));
    }
}

// ── Parser ───────────────────────────────────────────────────────────────────

/// Reads tokens with one token of lookahead and records compile errors, recovering
/// from them in panic mode.
pub struct Parser {
    pub current_token: Token,
    pub previous_token: Token,
    pub scanner: Scanner,
    pub had_error: bool,
    pub panic_mode: bool,
    pub can_assign: bool,
    pub diagnostics: Vec<Diagnostic>,
}

impl View for Parser {
    type V = ParserView;

    open spec fn view(&self) -> ParserView {
        ParserView {
            scan: self.scanner@,
            current: self.current_token,
            previous: self.previous_token,
            had_error: self.had_error,
            panic_mode: self.panic_mode,
            can_assign: self.can_assign,
            diagnostics: self.diagnostics@.map_values(|d: Diagnostic| d@),
        }
    }
}

impl Parser {
    /// The parser's consistency: `wf_tokens`, and panic mode only after an error.
    pub open spec fn wf(&self) -> bool {
        &&& self.wf_tokens()
        &&& self.panic_mode ==> self.had_error
    }

    /// A consistent scanner, tokens that are pieces of its source, a current token that
    /// is no scanner error, the end of the source reached when the current token says
    /// so, and an error marked exactly when one is recorded.
    pub open spec fn wf_tokens(&self) -> bool {
        &&& self.scanner.wf()
        &&& token_in(self.scanner@.bytes, self.current_token)
        &&& token_in(self.scanner@.bytes, self.previous_token)
        &&& !(self.current_token.token_type is Error)
        &&& quoted(self.scanner@.bytes, self.current_token)
        &&& quoted(self.scanner@.bytes, self.previous_token)
        &&& self.had_error == (self.diagnostics@.len() > 0)
        &&& (self.current_token.token_type == TokenType::EOF ==> self.scanner@.current
            == self.scanner@.bytes.len())
    }

    /// The parser's measure of work left.
    pub open spec fn progress(&self) -> nat {
        progress_of(self@)
    }

    /// A parser over `scanner`, before its first token.
    pub fn new(scanner: Scanner) -> (p: Parser)
        requires
            scanner.wf(),
        ensures
            p.wf(),
            p@.scan == scanner@,
            p.current_token == (Token { token_type: TokenType::Empty, start: 0, length: 0, line: 0 }),
            p.previous_token == (Token { token_type: TokenType::Empty, start: 0, length: 0, line: 0 }),
            !p.had_error,
            !p.panic_mode,
            !p.can_assign,
            p@.diagnostics == Seq::<DiagnosticView>::empty(),
    {
        let p = Parser {
            current_token: Token::default(),
            previous_token: Token::default(),
            scanner,
            had_error: false,
            panic_mode: false,
            can_assign: false,
            diagnostics: Vec::new(),
        };
        proof {
            assert(p@.diagnostics =~= Seq::<DiagnosticView>::empty());
            assert(p.scanner@.bytes.subrange(0, 0) =~= Seq::<u8>::empty());
        }
        p
    }

    /// Reports a compile error at `token`, unless the parser is in panic mode.
    pub fn error_at(&mut self, token: Token, message: &'static str)
        requires
            old(self).scanner.wf(),
            !old(self).panic_mode && has_lexeme(token) ==> token_in(old(self).scanner@.bytes, token),
        ensures
            final(self)@ == report(old(self)@, token, message@),
            old(self).panic_mode ==> *final(self) == *old(self),
            final(self).scanner == old(self).scanner,
            final(self).current_token == old(self).current_token,
            final(self).previous_token == old(self).previous_token,
            old(self).had_error == (old(self).diagnostics@.len() > 0) ==> final(self).had_error == (
            final(self).diagnostics@.len() > 0),
            old(self).panic_mode ==> old(self).had_error ==> final(self).had_error,
            final(self).panic_mode,
    {
        if self.panic_mode {
            return;
        }
        self.panic_mode = true;
        let place = match token.token_type {
            TokenType::EOF => ErrorPlace::AtEnd,
            TokenType::Error(_) => ErrorPlace::Unplaced,
            _ => {
                let lexeme = self.scanner.get_lexeme(token);
                let text = lexeme.to_owned();
                proof {
                    assert(encode_utf8(text@) == lexeme.spec_bytes());
                }
                ErrorPlace::AtLexeme(text)
            },
        };
        let ghost old_diags = self@.diagnostics;
        self.diagnostics.push(Diagnostic { line: token.line, place, message });
        self.had_error = true;
        proof {
            assert(self@.diagnostics =~= old_diags.push(
                diagnostic_for(self.scanner@.bytes, token, message@),
            ));
        }
    }

    /// Skips tokens after an error until a statement boundary, leaving panic mode.
    pub fn synchronize(&mut self)
        requires
            old(self).wf_tokens(),
        ensures
            final(self).wf(),
            final(self)@ == synchronize_spec(ParserView { panic_mode: false, ..old(self)@ }),
            final(self).scanner@.bytes == old(self).scanner@.bytes,
            final(self).progress() <= old(self).progress(),
            old(self).had_error ==> final(self).had_error,
    {
        self.panic_mode = false;
        while self.current_token.token_type != TokenType::EOF
            invariant
                self.wf(),
                synchronize_spec(self@) == synchronize_spec(
                    ParserView { panic_mode: false, ..old(self)@ },
                ),
                self.scanner@.bytes == old(self).scanner@.bytes,
                self.progress() <= old(self).progress(),
                old(self).had_error ==> self.had_error,
            decreases self.progress(),
        {
            if self.previous_token.token_type == TokenType::Semicolon {
                return;
            }
            match self.current_token.token_type {
                TokenType::Class
                | TokenType::Fun
                | TokenType::If
                | TokenType::While
                | TokenType::Var
                | TokenType::For
                | TokenType::Print
                | TokenType::Return => return,
                _ => {},
            }
            proof {
                lemma_fetch_progress(ParserView { previous: self@.current, ..self@ });
            }
            self.advance();
        }
    }

    /// Moves one token forward, reporting the scanner errors met on the way.
    pub fn advance(&mut self)
        requires
            old(self).wf(),
        ensures
            final(self).wf(),
            final(self)@ == advance_spec(old(self)@),
            final(self).scanner@.bytes == old(self).scanner@.bytes,
            final(self).previous_token == old(self).current_token,
            old(self).had_error ==> final(self).had_error,
            final(self).progress() <= old(self).progress(),
            old(self).current_token.token_type != TokenType::EOF ==> final(self).progress() < old(
                self,
            ).progress(),
    {
        proof {
            lemma_fetch_progress(ParserView { previous: self@.current, ..self@ });
        }
        self.previous_token = self.current_token;
        let ghost target = fetch(self@);
        loop
            invariant
                self.scanner.wf(),
                token_in(self.scanner@.bytes, self.previous_token),
                quoted(self.scanner@.bytes, self.previous_token),
                self.previous_token == old(self).current_token,
                self.had_error == (self.diagnostics@.len() > 0),
                self.panic_mode ==> self.had_error,
                old(self).had_error ==> self.had_error,
                self.scanner@.bytes == old(self).scanner@.bytes,
                fetch(self@) == target,
                target == advance_spec(old(self)@),
                progress_of(target) <= old(self).progress(),
                old(self).current_token.token_type != TokenType::EOF ==> progress_of(target) < old(
                    self,
                ).progress(),
            decreases rest_len(self.scanner@.bytes, self.scanner@.current),
        {
            let ghost before = self@;
            self.current_token = self.scanner.next_token();
            proof {
                lemma_lex_error_progress(before.scan.bytes, before.scan.current, before.scan.line);
                lemma_lex_quoted(before.scan.bytes, before.scan.current, before.scan.line);
            }
            match self.current_token.token_type {
                TokenType::Error(e) => {
                    let token = self.current_token;
                    self.error_at(token, e.message());
                },
                _ => {
                    proof {
                        let (t, e, l) = lex_token(before.scan.bytes, before.scan.current, before.scan.line);
                        assert(self.current_token == t);
                        assert(self@.scan == ScannerView { start: t.start as int, current: e, line: l, ..before.scan });
                        assert(self@ == fetch(before));
                    }
                    return;
                },
            }
        }
    }

    /// Moves past the current token when it is of kind `token_type`; otherwise reports
    /// `message` at it.
    pub fn consume(&mut self, token_type: TokenType, message: &'static str)
        requires
            old(self).wf(),
        ensures
            final(self).wf(),
            final(self)@ == consume_spec(old(self)@, token_type, message@),
            final(self).scanner@.bytes == old(self).scanner@.bytes,
            final(self).progress() <= old(self).progress(),
            old(self).had_error ==> final(self).had_error,
    {
        if self.current_token.token_type != token_type {
            let token = self.current_token;
            self.error_at(token, message);
        } else {
            self.advance();
        }
    }

    /// Whether the current token is of kind `token_type`.
    pub fn check(&self, token_type: TokenType) -> (r: bool)
        ensures
            r == (self.current_token.token_type == token_type),
    {
        self.current_token.token_type == token_type
    }

    /// Moves past the current token when it is of kind `token_type`, saying whether it did.
    pub fn match_token_type(&mut self, token_type: TokenType) -> (r: bool)
        requires
            old(self).wf(),
        ensures
            final(self).wf(),
            r == (old(self).current_token.token_type == token_type),
            r ==> final(self)@ == advance_spec(old(self)@),
            r ==> final(self).previous_token == old(self).current_token,
            old(self).had_error ==> final(self).had_error,
            !r ==> *final(self) == *old(self),
            final(self).scanner@.bytes == old(self).scanner@.bytes,
            final(self).progress() <= old(self).progress(),
            r && token_type != TokenType::EOF ==> final(self).progress() < old(self).progress(),
    {
        if !self.check(token_type) {
            false
        } else {
            self.advance();
            true
        }
    }
}

} // verus!
