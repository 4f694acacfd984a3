use vstd::prelude::*;
use vstd::utf8::*;
use vstd::string::StringSliceAdditionalSpecFns;
use crate::token::{ScanError, Token, TokenType};

verus! {

broadcast use vstd::seq_lib::group_seq_properties;

// ── Characters ───────────────────────────────────────────────────────────────

/// Whether `b` is an ASCII digit.
pub open spec fn is_digit_byte(b: u8) -> bool {
    48 <= b <= 57
}

/// Whether `b` may start an identifier: an ASCII letter or an underscore.
pub open spec fn is_alpha_byte(b: u8) -> bool {
    (65 <= b <= 90) || (97 <= b <= 122) || b == 95
}

/// Whether `b` may continue an identifier.
pub open spec fn is_alphanumeric_byte(b: u8) -> bool {
    is_alpha_byte(b) || is_digit_byte(b)
}

/// Whether `c` is an ASCII decimal digit.
pub fn is_digit(c: u8) -> (r: bool)
    ensures
        r == is_digit_byte(c),
{
    c >= 48 && c <= 57
}

/// Whether `c` may start an identifier: an ASCII letter or an underscore.
pub fn is_alpha(c: u8) -> (r: bool)
    ensures
        r == is_alpha_byte(c),
{
    (c >= 65 && c <= 90) || (c >= 97 && c <= 122) || c == 95
}

/// Whether `c` may continue an identifier.
pub fn is_alphanumeric(c: u8) -> (r: bool)
    ensures
        r == is_alphanumeric_byte(c),
{
    is_alpha(c) || is_digit(c)
}

/// The number of bytes of the UTF-8 encoded character whose first byte is `b`.
pub open spec fn char_width(b: u8) -> int {
    if b < 0x80 {
        1
    } else if b < 0xe0 {
        2
    } else if b < 0xf0 {
        3
    } else {
        4
    }
}

/// The byte at `i`, or NUL past the end of the source.
pub open spec fn byte_at(s: Seq<u8>, i: int) -> u8 {
    if 0 <= i < s.len() {
        s[i]
    } else {
        0
    }
}

/// How many bytes of `s` lie at or after `p`.
pub open spec fn rest_len(s: Seq<u8>, p: int) -> nat {
    if p < s.len() {
        (s.len() - p) as nat
    } else {
        0
    }
}

/// The first byte of the character `n` characters after the one that starts at `p`,
/// or NUL past the end.
pub open spec fn nth_char_byte(s: Seq<u8>, p: int, n: nat) -> u8
    decreases n,
{
    if n == 0 {
        byte_at(s, p)
    } else if p < 0 || p >= s.len() {
        0
    } else {
        nth_char_byte(s, p + char_width(s[p]), (n - 1) as nat)
    }
}

// ── Lexical structure ───────────────────────────────────────────────────────

/// The end of the comment that starts at `p`: the next newline or the end of the source.
pub open spec fn comment_end(s: Seq<u8>, p: int) -> int
    decreases rest_len(s, p),
{
    if p < 0 || p >= s.len() || s[p] == 10 {
        p
    } else {
        comment_end(s, p + char_width(s[p]))
    }
}

/// Skips blanks, newlines (counting them) and line comments from `p`:
/// the position of the next token and its line.
pub open spec fn skip_trivia(s: Seq<u8>, p: int, line: int) -> (int, int)
    decreases rest_len(s, p),
{
    if p < 0 || p >= s.len() {
        (p, line)
    } else if s[p] == 32 || s[p] == 13 || s[p] == 9 {
        skip_trivia(s, p + 1, line)
    } else if s[p] == 10 {
        skip_trivia(s, p + 1, line + 1)
    } else if s[p] == 47 && byte_at(s, p + 1) == 47 {
        if comment_end(s, p) > p {
            skip_trivia(s, comment_end(s, p), line)
        } else {
            (p, line)
        }
    } else {
        (p, line)
    }
}

/// The end of the run of digits that starts at `p`.
pub open spec fn digits_end(s: Seq<u8>, p: int) -> int
    decreases s.len() - p,
{
    if 0 <= p < s.len() && is_digit_byte(s[p]) {
        digits_end(s, p + 1)
    } else {
        p
    }
}

/// The end of a number literal whose digits continue at `p`:
/// digits, then optionally a dot followed by at least one digit and more digits.
pub open spec fn number_end(s: Seq<u8>, p: int) -> int {
    let e = digits_end(s, p);
    if byte_at(s, e) == 46 && is_digit_byte(byte_at(s, e + 1)) {
        digits_end(s, e + 1)
    } else {
        e
    }
}

/// The end of the run of letters, digits and underscores that starts at `p`.
pub open spec fn identifier_end(s: Seq<u8>, p: int) -> int
    decreases s.len() - p,
{
    if 0 <= p < s.len() && is_alphanumeric_byte(s[p]) {
        identifier_end(s, p + 1)
    } else {
        p
    }
}

/// Scans the body of a string literal from `p`: the position of the closing quote
/// (or the end of the source) and the line reached, counting the newlines inside.
pub open spec fn string_end(s: Seq<u8>, p: int, line: int) -> (int, int)
    decreases rest_len(s, p),
{
    if p < 0 || p >= s.len() || s[p] == 34 {
        (p, line)
    } else if s[p] == 10 {
        string_end(s, p + 1, line + 1)
    } else {
        string_end(s, p + char_width(s[p]), line)
    }
}

/// The kind of a word made of letters, digits and underscores: the keyword it spells,
/// or an identifier.
pub open spec fn keyword_type(w: Seq<u8>) -> TokenType {
    if w.len() == 3 && w[0] == 97 && w[1] == 110 && w[2] == 100 {
        // and
        TokenType::And
    } else if w.len() == 5 && w[0] == 97 && w[1] == 114 && w[2] == 114 && w[3] == 97 && w[4] == 121 {
        // array
        TokenType::Array
    } else if w.len() == 5 && w[0] == 98 && w[1] == 114 && w[2] == 101 && w[3] == 97 && w[4] == 107 {
        // break
        TokenType::Break
    } else if w.len() == 4 && w[0] == 99 && w[1] == 97 && w[2] == 115 && w[3] == 101 {
        // case
        TokenType::Case
    } else if w.len() == 5 && w[0] == 99 && w[1] == 108 && w[2] == 97 && w[3] == 115 && w[4] == 115 {
        // class
        TokenType::Class
    } else if w.len() == 8 && w[0] == 99 && w[1] == 111 && w[2] == 110 && w[3] == 116 && w[4] == 105 && w[5] == 110 && w[6] == 117 && w[7] == 101 {
        // continue
        TokenType::Continue
    } else if w.len() == 7 && w[0] == 100 && w[1] == 101 && w[2] == 102 && w[3] == 97 && w[4] == 117 && w[5] == 108 && w[6] == 116 {
        // default
        TokenType::Default
    } else if w.len() == 4 && w[0] == 101 && w[1] == 108 && w[2] == 115 && w[3] == 101 {
        // else
        TokenType::Else
    } else if w.len() == 5 && w[0] == 102 && w[1] == 97 && w[2] == 108 && w[3] == 115 && w[4] == 101 {
        // false
        TokenType::False
    } else if w.len() == 3 && w[0] == 102 && w[1] == 111 && w[2] == 114 {
        // for
        TokenType::For
    } else if w.len() == 3 && w[0] == 102 && w[1] == 117 && w[2] == 110 {
        // fun
        TokenType::Fun
    } else if w.len() == 2 && w[0] == 105 && w[1] == 102 {
        // if
        TokenType::If
    } else if w.len() == 3 && w[0] == 108 && w[1] == 101 && w[2] == 110 {
        // len
        TokenType::Len
    } else if w.len() == 3 && w[0] == 110 && w[1] == 105 && w[2] == 108 {
        // nil
        TokenType::Nil
    } else if w.len() == 2 && w[0] == 111 && w[1] == 114 {
        // or
        TokenType::Or
    } else if w.len() == 5 && w[0] == 112 && w[1] == 114 && w[2] == 105 && w[3] == 110 && w[4] == 116 {
        // print
        TokenType::Print
    } else if w.len() == 6 && w[0] == 114 && w[1] == 101 && w[2] == 116 && w[3] == 117 && w[4] == 114 && w[5] == 110 {
        // return
        TokenType::Return
    } else if w.len() == 5 && w[0] == 115 && w[1] == 117 && w[2] == 112 && w[3] == 101 && w[4] == 114 {
        // super
        TokenType::Super
    } else if w.len() == 6 && w[0] == 115 && w[1] == 119 && w[2] == 105 && w[3] == 116 && w[4] == 99 && w[5] == 104 {
        // switch
        TokenType::Switch
    } else if w.len() == 4 && w[0] == 116 && w[1] == 104 && w[2] == 105 && w[3] == 115 {
        // this
        TokenType::This
    } else if w.len() == 4 && w[0] == 116 && w[1] == 114 && w[2] == 117 && w[3] == 101 {
        // true
        TokenType::True
    } else if w.len() == 3 && w[0] == 118 && w[1] == 97 && w[2] == 114 {
        // var
        TokenType::Var
    } else if w.len() == 5 && w[0] == 119 && w[1] == 104 && w[2] == 105 && w[3] == 108 && w[4] == 101 {
        // while
        TokenType::While
    } else if w.len() == 5 && w[0] == 121 && w[1] == 105 && w[2] == 101 && w[3] == 108 && w[4] == 100 {
        // yield
        TokenType::Yield
    } else {
        TokenType::Identifier
    }
}

/// The kind of the operator or punctuation token that starts with `c`,
/// where `next` is the byte after it; and its length.
pub open spec fn punctuation(c: u8, next: u8) -> Option<(TokenType, int)> {
    if c == 40 {
        Some((TokenType::LeftParen, 1))
    } else if c == 41 {
        Some((TokenType::RightParen, 1))
    } else if c == 123 {
        Some((TokenType::LeftBrace, 1))
    } else if c == 125 {
        Some((TokenType::RightBrace, 1))
    } else if c == 91 {
        Some((TokenType::LeftBracket, 1))
    } else if c == 93 {
        Some((TokenType::RightBracket, 1))
    } else if c == 44 {
        Some((TokenType::Comma, 1))
    } else if c == 46 {
        Some((TokenType::Dot, 1))
    } else if c == 45 {
        if next == 45 {
            Some((TokenType::MinusMinus, 2))
        } else {
            Some((TokenType::Minus, 1))
        }
    } else if c == 43 {
        if next == 43 {
            Some((TokenType::PlusPlus, 2))
        } else {
            Some((TokenType::Plus, 1))
        }
    } else if c == 59 {
        Some((TokenType::Semicolon, 1))
    } else if c == 42 {
        Some((TokenType::Star, 1))
    } else if c == 47 {
        Some((TokenType::Slash, 1))
    } else if c == 33 {
        if next == 61 {
            Some((TokenType::BangEqual, 2))
        } else {
            Some((TokenType::Bang, 1))
        }
    } else if c == 61 {
        if next == 61 {
            Some((TokenType::EqualEqual, 2))
        } else if next == 62 {
            Some((TokenType::EqualGreater, 2))
        } else {
            Some((TokenType::Equal, 1))
        }
    } else if c == 62 {
        if next == 61 {
            Some((TokenType::GreaterEqual, 2))
        } else {
            Some((TokenType::Greater, 1))
        }
    } else if c == 60 {
        if next == 61 {
            Some((TokenType::LessEqual, 2))
        } else {
            Some((TokenType::Less, 1))
        }
    } else {
        None
    }
}

/// The token of kind `token_type` spanning bytes `start` to `end`, on line `line`.
pub open spec fn mk_token(token_type: TokenType, start: int, end: int, line: int) -> Token {
    Token {
        token_type,
        start: start as usize,
        length: (end - start) as usize,
        line: line as usize,
    }
}

/// The token that the scanner yields from position `p` on line `line`, the position
/// after it and the line reached.
pub open spec fn lex_token(s: Seq<u8>, p: int, line: int) -> (Token, int, int) {
    let (q, l) = skip_trivia(s, p, line);
    if q >= s.len() {
        (mk_token(TokenType::EOF, q, q, l), q, l)
    } else {
        let c = s[q];
        if is_digit_byte(c) {
            let e = number_end(s, q + 1);
            (mk_token(TokenType::Number, q, e, l), e, l)
        } else if is_alpha_byte(c) {
            let e = identifier_end(s, q + 1);
            (mk_token(keyword_type(s.subrange(q, e)), q, e, l), e, l)
        } else if c == 34 {
            let (e, l2) = string_end(s, q + 1, l);
            if e >= s.len() {
                (mk_token(TokenType::Error(ScanError::UnterminatedString), q, e, l2), e, l2)
            } else {
                (mk_token(TokenType::String, q, e + 1, l2), e + 1, l2)
            }
        } else if punctuation(c, byte_at(s, q + 1)) is Some {
            let (t, n) = punctuation(c, byte_at(s, q + 1)).unwrap();
            (mk_token(t, q, q + n, l), q + n, l)
        } else {
            let e = q + char_width(c);
            (mk_token(TokenType::Error(ScanError::UnexpectedCharacter), q, e, l), e, l)
        }
    }
}

/// The number literals among the tokens that the scanner yields from position `p` on
/// line `line` to the end of the source, in order.
pub open spec fn number_tokens(s: Seq<u8>, p: int, line: int) -> Seq<Token>
    decreases rest_len(s, p),
{
    let (t, e, l) = lex_token(s, p, line);
    if t.token_type == TokenType::EOF {
        Seq::empty()
    } else {
        proof {
            crate::compiler::parser::lemma_lex_progress(s, p, line);
        }
        let rest = number_tokens(s, e, l);
        if t.token_type == TokenType::Number {
            seq![t] + rest
        } else {
            rest
        }
    }
}

/// A comment never ends before it starts.
pub proof fn lemma_comment_end_grows(s: Seq<u8>, p: int)
    ensures
        comment_end(s, p) >= p,
    decreases rest_len(s, p),
{
    if !(p < 0 || p >= s.len() || s[p] == 10) {
        lemma_comment_end_grows(s, p + char_width(s[p]));
    }
}

// ── UTF-8 facts ──────────────────────────────────────────────────────────────

/// A character of a valid UTF-8 sequence: its width is that of its first byte, and
/// both it and what follows it are valid UTF-8.
pub proof fn lemma_char_step(s: Seq<u8>, p: int)
    requires
        0 <= p < s.len(),
        valid_utf8(s.subrange(p, s.len() as int)),
    ensures
        1 <= char_width(s[p]),
        p + char_width(s[p]) <= s.len(),
        valid_utf8(s.subrange(p + char_width(s[p]), s.len() as int)),
        valid_utf8(s.subrange(p, p + char_width(s[p]))),
        s[p] < 0x80 ==> char_width(s[p]) == 1,
{
    let t = s.subrange(p, s.len() as int);
    assert(t[0] == s[p]);
    let w = char_width(s[p]);
    assert(valid_first_scalar(t));
    assert(length_of_first_scalar(t) == w);
    assert(pop_first_scalar(t) =~= s.subrange(p + w, s.len() as int));
    let h = s.subrange(p, p + w);
    assert(h =~= take_first_scalar(t));
    reveal_with_fuel(valid_utf8, 2);
    assert(h.len() == w);
    assert forall|i: int| 0 <= i < w implies h[i] == t[i] by {}
    assert(valid_first_scalar(h));
    assert(pop_first_scalar(h) =~= Seq::<u8>::empty());
}

/// Two adjacent valid UTF-8 pieces make a valid UTF-8 piece.
pub proof fn lemma_join(s: Seq<u8>, a: int, b: int, c: int)
    requires
        0 <= a <= b <= c <= s.len(),
        valid_utf8(s.subrange(a, b)),
        valid_utf8(s.subrange(b, c)),
    ensures
        valid_utf8(s.subrange(a, c)),
{
    valid_utf8_concat(s.subrange(a, b), s.subrange(b, c));
    assert(s.subrange(a, b) + s.subrange(b, c) =~= s.subrange(a, c));
}

/// Any empty piece is valid UTF-8.
pub proof fn lemma_empty_valid(s: Seq<u8>, a: int)
    requires
        0 <= a <= s.len(),
    ensures
        valid_utf8(s.subrange(a, a)),
{
}

// ── Scanner ──────────────────────────────────────────────────────────────────

/// The abstract state of a scanner: the UTF-8 bytes of its source, where the token
/// being scanned starts, how far it has read, and the current line.
pub struct ScannerView {
    pub bytes: Seq<u8>,
    pub start: int,
    pub current: int,
    pub line: int,
}

/// Splits source text into tokens, one at a time, on demand.
pub struct Scanner {
    source: String,
    start: usize,
    current: usize,
    line: usize,
}

impl View for Scanner {
    type V = ScannerView;

    closed spec fn view(&self) -> ScannerView {
        ScannerView {
            bytes: encode_utf8(self.source@),
            start: self.start as int,
            current: self.current as int,
            line: self.line as int,
        }
    }
}

/// The bytes of a token's lexeme.
pub open spec fn lexeme_of(s: Seq<u8>, t: Token) -> Seq<u8> {
    s.subrange(t.start as int, t.start + t.length)
}

/// Whether `t` names a valid UTF-8 piece of `s`.
pub open spec fn token_in(s: Seq<u8>, t: Token) -> bool {
    &&& t.start + t.length <= s.len()
    &&& valid_utf8(s.subrange(t.start as int, t.start + t.length))
}

impl Scanner {
    /// The scanner's internal consistency: positions in order, the piece being
    /// scanned and the rest of the source valid UTF-8, and the line bounded by the
    /// number of bytes read.
    pub open spec fn wf(&self) -> bool {
        let v = self@;
        &&& 0 <= v.start <= v.current <= v.bytes.len()
        &&& v.bytes.len() < usize::MAX
        &&& valid_utf8(v.bytes.subrange(v.start, v.current))
        &&& valid_utf8(v.bytes.subrange(v.current, v.bytes.len() as int))
        &&& 1 <= v.line <= v.current + 1
    }

    fn bytes(&self) -> (b: &[u8])
        ensures
            b@ == self@.bytes,
    {
        self.source.as_str().as_bytes()
    }

    /// A scanner at the start of `source`, on line 1.
    pub fn new(source: String) -> (s: Scanner)
        requires
            encode_utf8(source@).len() < usize::MAX,
        ensures
            s.wf(),
            s@.bytes == encode_utf8(source@),
            s@.start == 0,
            s@.current == 0,
            s@.line == 1,
    {
        let s = Scanner { source, start: 0, current: 0, line: 1 };
        proof {
            broadcast use encode_utf8_valid_utf8;

            let b = s@.bytes;
            assert(b.subrange(0, b.len() as int) =~= b);
        }
        s
    }

    /// The source text of a token of this scanner.
    pub fn get_lexeme(&self, token: Token) -> (r: &str)
        requires
            self.wf(),
            token_in(self@.bytes, token),
        ensures
            r.spec_bytes() == self@.bytes.subrange(token.start as int, token.start + token.length),
    {
        let b = self.bytes();
        let piece = &b[token.start..token.start + token.length];
        match str_from_utf8(piece) {
            Some(text) => text,
            None => {
                proof {
                    assert(false);
                }
                ""
            },
        }
    }

    /// The bytes of the lexeme of a token of this scanner.
    pub fn lexeme_bytes(&self, token: Token) -> (r: &[u8])
        requires
            self.wf(),
            token_in(self@.bytes, token),
        ensures
            r@ == self@.bytes.subrange(token.start as int, token.start + token.length),
    {
        let b = self.bytes();
        &b[token.start..token.start + token.length]
    }

    /// The first byte of the character `offset` characters after the one at `start`.
    fn char_at_nth(&self, start: usize, offset: usize) -> (c: u8)
        requires
            self.wf(),
            start <= self@.bytes.len(),
            valid_utf8(self@.bytes.subrange(start as int, self@.bytes.len() as int)),
        ensures
            c == nth_char_byte(self@.bytes, start as int, offset as nat),
    {
        let b = self.bytes();
        let mut p = start;
        let mut n = offset;
        while n > 0 && p < b.len()
            invariant
                b@ == self@.bytes,
                p <= b@.len(),
                valid_utf8(b@.subrange(p as int, b@.len() as int)),
                nth_char_byte(b@, start as int, offset as nat) == nth_char_byte(
                    b@,
                    p as int,
                    n as nat,
                ),
            decreases n,
        {
            proof {
                lemma_char_step(b@, p as int);
            }
            p = p + width_of(b[p]);
            n = n - 1;
        }
        if p < b.len() {
            b[p]
        } else {
            0
        }
    }

    fn peek(&self) -> (c: u8)
        requires
            self.wf(),
        ensures
            c == byte_at(self@.bytes, self@.current),
    {
        self.char_at_nth(self.current, 0)
    }

    fn peek_next(&self) -> (c: u8)
        requires
            self.wf(),
        ensures
            c == nth_char_byte(self@.bytes, self@.current, 1),
            self@.current < self@.bytes.len() && self@.bytes[self@.current] < 0x80 ==> c == byte_at(
                self@.bytes,
                self@.current + 1,
            ),
    {
        proof {
            reveal_with_fuel(nth_char_byte, 2);
        }
        self.char_at_nth(self.current, 1)
    }

    /// Moves past the current character, returning its first byte.
    fn advance(&mut self) -> (c: u8)
        requires
            old(self).wf(),
            old(self)@.current < old(self)@.bytes.len(),
        ensures
            final(self).wf(),
            c == old(self)@.bytes[old(self)@.current],
            final(self)@ == (ScannerView {
                current: old(self)@.current + char_width(c),
                ..old(self)@
            }),
    {
        let c = self.peek();
        proof {
            let s = self@.bytes;
            lemma_char_step(s, self@.current);
            lemma_join(s, self@.start, self@.current, self@.current + char_width(c));
        }
        self.current = self.current + width_of(c);
        c
    }

    /// Moves past the current character if it is `expected`.
    fn if_next_char_then_advance(&mut self, expected: u8) -> (r: bool)
        requires
            old(self).wf(),
            expected < 0x80,
            expected != 0,
        ensures
            final(self).wf(),
            r == (byte_at(old(self)@.bytes, old(self)@.current) == expected),
            r ==> final(self)@ == (ScannerView { current: old(self)@.current + 1, ..old(self)@ }),
            !r ==> final(self)@ == old(self)@,
    {
        if self.peek() != expected {
            return false;
        }
        self.advance();
        true
    }

    /// Skips blanks, newlines and line comments.
    pub fn skip_whitespaces(&mut self)
        requires
            old(self).wf(),
        ensures
            final(self).wf(),
            (final(self)@.current, final(self)@.line) == skip_trivia(
                old(self)@.bytes,
                old(self)@.current,
                old(self)@.line,
            ),
            final(self)@.bytes == old(self)@.bytes,
            final(self)@.start == old(self)@.start,
            final(self)@.current >= old(self)@.current,
    {
        let ghost s = self@.bytes;
        loop
            invariant
                self.wf(),
                self@.bytes == s,
                s == old(self)@.bytes,
                self@.start == old(self)@.start,
                self@.current >= old(self)@.current,
                skip_trivia(s, old(self)@.current, old(self)@.line) == skip_trivia(
                    s,
                    self@.current,
                    self@.line,
                ),
            decreases s.len() - self@.current,
        {
            let c = self.peek();
            if c == 32 || c == 13 || c == 9 {
                self.advance();
            } else if c == 10 {
                self.advance();
                self.line = self.line + 1;
            } else if c == 47 {
                if self.peek_next() == 47 {
                    let ghost p0 = self@.current;
                    proof {
                        assert(char_width(s[p0]) == 1);
                    }
                    self.skip_comment();
                    proof {
                        lemma_comment_end_grows(s, p0 + 1);
                        if self@.current == p0 {
                            // a '/' is not a newline, so the comment has at least one byte
                            assert(false);
                        }
                    }
                } else {
                    return;
                }
            } else {
                return;
            }
        }
    }

    /// Skips a line comment, up to the newline that ends it or the end of the source.
    fn skip_comment(&mut self)
        requires
            old(self).wf(),
        ensures
            final(self).wf(),
            final(self)@ == (ScannerView {
                current: comment_end(old(self)@.bytes, old(self)@.current),
                ..old(self)@
            }),
    {
        let ghost s = self@.bytes;
        while self.peek() != 10 && !self.is_at_end()
            invariant
                self.wf(),
                self@ == (ScannerView { current: self@.current, ..old(self)@ }),
                s == old(self)@.bytes,
                comment_end(s, old(self)@.current) == comment_end(s, self@.current),
            decreases s.len() - self@.current,
        {
            self.advance();
        }
    }

    /// Scans the rest of a number literal.
    fn number(&mut self) -> (t: Token)
        requires
            old(self).wf(),
            old(self)@.start < old(self)@.current,
        ensures
            final(self).wf(),
            final(self)@ == (ScannerView {
                current: number_end(old(self)@.bytes, old(self)@.current),
                ..old(self)@
            }),
            t == mk_token(TokenType::Number, old(self)@.start, final(self)@.current, old(self)@.line),
            final(self)@.current >= old(self)@.current,
    {
        let ghost s = self@.bytes;
        while is_digit(self.peek())
            invariant
                self.wf(),
                self@.bytes == s,
                s == old(self)@.bytes,
                self@.start == old(self)@.start,
                self@.line == old(self)@.line,
                self@.current >= old(self)@.current,
                digits_end(s, old(self)@.current) == digits_end(s, self@.current),
            decreases s.len() - self@.current,
        {
            self.advance();
        }
        let ghost e = self@.current;
        if self.peek() == 46 && is_digit(self.peek_next()) {
            proof {
                assert(char_width(s[e]) == 1);
            }
            self.advance();
            while is_digit(self.peek())
                invariant
                    self.wf(),
                    self@.bytes == s,
                s == old(self)@.bytes,
                    self@.start == old(self)@.start,
                    self@.line == old(self)@.line,
                    self@.current >= old(self)@.current,
                    digits_end(s, e + 1) == digits_end(s, self@.current),
                decreases s.len() - self@.current,
            {
                self.advance();
            }
        }
        self.make_token(TokenType::Number)
    }

    /// Scans the rest of an identifier or keyword.
    fn identifier(&mut self) -> (t: Token)
        requires
            old(self).wf(),
            old(self)@.current == old(self)@.start + 1,
            is_alpha_byte(old(self)@.bytes[old(self)@.start]),
        ensures
            final(self).wf(),
            final(self)@ == (ScannerView {
                current: identifier_end(old(self)@.bytes, old(self)@.current),
                ..old(self)@
            }),
            t == mk_token(
                keyword_type(old(self)@.bytes.subrange(old(self)@.start, final(self)@.current)),
                old(self)@.start,
                final(self)@.current,
                old(self)@.line,
            ),
            final(self)@.current >= old(self)@.current,
    {
        let ghost s = self@.bytes;
        while is_alphanumeric(self.peek())
            invariant
                self.wf(),
                self@.bytes == s,
                s == old(self)@.bytes,
                self@.start == old(self)@.start,
                self@.line == old(self)@.line,
                old(self)@.current <= self@.current,
                identifier_end(s, old(self)@.current) == identifier_end(s, self@.current),
                forall|i: int|
                    self@.start <= i < self@.current ==> #[trigger] is_alphanumeric_byte(s[i]),
            decreases s.len() - self@.current,
        {
            self.advance();
        }
        let bytes = self.bytes();
        let w = &bytes[self.start..self.current];
        let token_type = if w[0] == 97 {
            if w.len() == 3 && w[0] == 97 && w[1] == 110 && w[2] == 100 {
                TokenType::And
            } else if w.len() == 5 && w[0] == 97 && w[1] == 114 && w[2] == 114 && w[3] == 97 && w[4] == 121 {
                TokenType::Array
            } else {
                TokenType::Identifier
            }
        } else if w[0] == 98 {
            if w.len() == 5 && w[0] == 98 && w[1] == 114 && w[2] == 101 && w[3] == 97 && w[4] == 107 {
                TokenType::Break
            } else {
                TokenType::Identifier
            }
        } else if w[0] == 99 {
            if w.len() == 4 && w[0] == 99 && w[1] == 97 && w[2] == 115 && w[3] == 101 {
                TokenType::Case
            } else if w.len() == 5 && w[0] == 99 && w[1] == 108 && w[2] == 97 && w[3] == 115 && w[4] == 115 {
                TokenType::Class
            } else if w.len() == 8 && w[0] == 99 && w[1] == 111 && w[2] == 110 && w[3] == 116 && w[4] == 105 && w[5] == 110 && w[6] == 117 && w[7] == 101 {
                TokenType::Continue
            } else {
                TokenType::Identifier
            }
        } else if w[0] == 100 {
            if w.len() == 7 && w[0] == 100 && w[1] == 101 && w[2] == 102 && w[3] == 97 && w[4] == 117 && w[5] == 108 && w[6] == 116 {
                TokenType::Default
            } else {
                TokenType::Identifier
            }
        } else if w[0] == 101 {
            if w.len() == 4 && w[0] == 101 && w[1] == 108 && w[2] == 115 && w[3] == 101 {
                TokenType::Else
            } else {
                TokenType::Identifier
            }
        } else if w[0] == 102 {
            if w.len() == 5 && w[0] == 102 && w[1] == 97 && w[2] == 108 && w[3] == 115 && w[4] == 101 {
                TokenType::False
            } else if w.len() == 3 && w[0] == 102 && w[1] == 111 && w[2] == 114 {
                TokenType::For
            } else if w.len() == 3 && w[0] == 102 && w[1] == 117 && w[2] == 110 {
                TokenType::Fun
            } else {
                TokenType::Identifier
            }
        } else if w[0] == 105 {
            if w.len() == 2 && w[0] == 105 && w[1] == 102 {
                TokenType::If
            } else {
                TokenType::Identifier
            }
        } else if w[0] == 108 {
            if w.len() == 3 && w[0] == 108 && w[1] == 101 && w[2] == 110 {
                TokenType::Len
            } else {
                TokenType::Identifier
            }
        } else if w[0] == 110 {
            if w.len() == 3 && w[0] == 110 && w[1] == 105 && w[2] == 108 {
                TokenType::Nil
            } else {
                TokenType::Identifier
            }
        } else if w[0] == 111 {
            if w.len() == 2 && w[0] == 111 && w[1] == 114 {
                TokenType::Or
            } else {
                TokenType::Identifier
            }
        } else if w[0] == 112 {
            if w.len() == 5 && w[0] == 112 && w[1] == 114 && w[2] == 105 && w[3] == 110 && w[4] == 116 {
                TokenType::Print
            } else {
                TokenType::Identifier
            }
        } else if w[0] == 114 {
            if w.len() == 6 && w[0] == 114 && w[1] == 101 && w[2] == 116 && w[3] == 117 && w[4] == 114 && w[5] == 110 {
                TokenType::Return
            } else {
                TokenType::Identifier
            }
        } else if w[0] == 115 {
            if w.len() == 5 && w[0] == 115 && w[1] == 117 && w[2] == 112 && w[3] == 101 && w[4] == 114 {
                TokenType::Super
            } else if w.len() == 6 && w[0] == 115 && w[1] == 119 && w[2] == 105 && w[3] == 116 && w[4] == 99 && w[5] == 104 {
                TokenType::Switch
            } else {
                TokenType::Identifier
            }
        } else if w[0] == 116 {
            if w.len() == 4 && w[0] == 116 && w[1] == 104 && w[2] == 105 && w[3] == 115 {
                TokenType::This
            } else if w.len() == 4 && w[0] == 116 && w[1] == 114 && w[2] == 117 && w[3] == 101 {
                TokenType::True
            } else {
                TokenType::Identifier
            }
        } else if w[0] == 118 {
            if w.len() == 3 && w[0] == 118 && w[1] == 97 && w[2] == 114 {
                TokenType::Var
            } else {
                TokenType::Identifier
            }
        } else if w[0] == 119 {
            if w.len() == 5 && w[0] == 119 && w[1] == 104 && w[2] == 105 && w[3] == 108 && w[4] == 101 {
                TokenType::While
            } else {
                TokenType::Identifier
            }
        } else if w[0] == 121 {
            if w.len() == 5 && w[0] == 121 && w[1] == 105 && w[2] == 101 && w[3] == 108 && w[4] == 100 {
                TokenType::Yield
            } else {
                TokenType::Identifier
            }
        } else {
            TokenType::Identifier
        };
        self.make_token(token_type)
    }

    /// Scans the rest of the source and gives its number literals, in order.
    pub fn number_literals(&mut self) -> (r: Vec<Token>)
        requires
            old(self).wf(),
        ensures
            final(self).wf(),
            final(self)@.bytes == old(self)@.bytes,
            r@ == number_tokens(old(self)@.bytes, old(self)@.current, old(self)@.line),
            forall|k: int| 0 <= k < r@.len() ==> token_in(final(self)@.bytes, #[trigger] r@[k]),
    {
        let mut out: Vec<Token> = Vec::new();
        loop
            invariant
                self.wf(),
                self@.bytes == old(self)@.bytes,
                number_tokens(old(self)@.bytes, old(self)@.current, old(self)@.line) == out@ + number_tokens(
                    self@.bytes,
                    self@.current,
                    self@.line,
                ),
                forall|k: int| 0 <= k < out@.len() ==> token_in(self@.bytes, #[trigger] out@[k]),
            ensures
                self.wf(),
                self@.bytes == old(self)@.bytes,
                number_tokens(old(self)@.bytes, old(self)@.current, old(self)@.line) == out@,
                forall|k: int| 0 <= k < out@.len() ==> token_in(self@.bytes, #[trigger] out@[k]),
            decreases rest_len(self@.bytes, self@.current),
        {
            let ghost before = self@;
            let t = self.next_token();
            proof {
                crate::compiler::parser::lemma_lex_progress(before.bytes, before.current, before.line);
            }
            if t.token_type == TokenType::EOF {
                proof {
                    assert(out@ + Seq::<Token>::empty() =~= out@);
                }
                break;
            }
            if t.token_type == TokenType::Number {
                let ghost o = out@;
                out.push(t);
                proof {
                    let rest = number_tokens(self@.bytes, self@.current, self@.line);
                    assert(o + (seq![t] + rest) =~= out@ + rest);
                }
            }
        }
        out
    }

    /// Scans the next token, skipping blanks and comments before it.
    pub fn next_token(&mut self) -> (t: Token)
        requires
            old(self).wf(),
        ensures
            final(self).wf(),
            (t, final(self)@.current, final(self)@.line) == lex_token(
                old(self)@.bytes,
                old(self)@.current,
                old(self)@.line,
            ),
            final(self)@.bytes == old(self)@.bytes,
            final(self)@.start == t.start,
            token_in(final(self)@.bytes, t),
            t.start >= old(self)@.current,
            final(self)@.current == t.start + t.length,
            t.token_type != TokenType::EOF ==> t.length >= 1,
            t.token_type == TokenType::EOF ==> final(self)@.current == final(self)@.bytes.len(),
    {
        self.skip_whitespaces();
        self.start = self.current;
        proof {
            lemma_empty_valid(self@.bytes, self@.current);
        }
        let ghost s = self@.bytes;
        let ghost q = self@.current;
        let ghost l = self@.line;
        if self.is_at_end() {
            return self.make_token(TokenType::EOF);
        }
        let next = self.peek_next();
        let c = self.advance();
        proof {
            lemma_char_step(s, q);
            assert(self@.current > self@.start);
        }
        if is_digit(c) {
            return self.number();
        }
        if is_alpha(c) {
            return self.identifier();
        }
        proof {
            assert(c < 0x80 ==> next == byte_at(s, q + 1));
        }
        if c == 40 {
            self.make_token(TokenType::LeftParen)
        } else if c == 41 {
            self.make_token(TokenType::RightParen)
        } else if c == 123 {
            self.make_token(TokenType::LeftBrace)
        } else if c == 125 {
            self.make_token(TokenType::RightBrace)
        } else if c == 91 {
            self.make_token(TokenType::LeftBracket)
        } else if c == 93 {
            self.make_token(TokenType::RightBracket)
        } else if c == 44 {
            self.make_token(TokenType::Comma)
        } else if c == 46 {
            self.make_token(TokenType::Dot)
        } else if c == 45 {
            if self.if_next_char_then_advance(45) {
                self.make_token(TokenType::MinusMinus)
            } else {
                self.make_token(TokenType::Minus)
            }
        } else if c == 43 {
            if self.if_next_char_then_advance(43) {
                self.make_token(TokenType::PlusPlus)
            } else {
                self.make_token(TokenType::Plus)
            }
        } else if c == 59 {
            self.make_token(TokenType::Semicolon)
        } else if c == 42 {
            self.make_token(TokenType::Star)
        } else if c == 47 {
            self.make_token(TokenType::Slash)
        } else if c == 33 {
            if self.if_next_char_then_advance(61) {
                self.make_token(TokenType::BangEqual)
            } else {
                self.make_token(TokenType::Bang)
            }
        } else if c == 61 {
            if self.if_next_char_then_advance(61) {
                self.make_token(TokenType::EqualEqual)
            } else if self.if_next_char_then_advance(62) {
                self.make_token(TokenType::EqualGreater)
            } else {
                self.make_token(TokenType::Equal)
            }
        } else if c == 62 {
            if self.if_next_char_then_advance(61) {
                self.make_token(TokenType::GreaterEqual)
            } else {
                self.make_token(TokenType::Greater)
            }
        } else if c == 60 {
            if self.if_next_char_then_advance(61) {
                self.make_token(TokenType::LessEqual)
            } else {
                self.make_token(TokenType::Less)
            }
        } else if c == 34 {
            self.string()
        } else {
            self.make_error_token(ScanError::UnexpectedCharacter)
        }
    }

    /// Scans the rest of a string literal, up to and including its closing quote.
    fn string(&mut self) -> (t: Token)
        requires
            old(self).wf(),
            old(self)@.start + 1 == old(self)@.current,
        ensures
            final(self).wf(),
            ({
                let (e, l2) = string_end(old(self)@.bytes, old(self)@.current, old(self)@.line);
                if e >= old(self)@.bytes.len() {
                    &&& t == mk_token(
                        TokenType::Error(ScanError::UnterminatedString),
                        old(self)@.start,
                        e,
                        l2,
                    )
                    &&& final(self)@ == (ScannerView { current: e, line: l2, ..old(self)@ })
                } else {
                    &&& t == mk_token(TokenType::String, old(self)@.start, e + 1, l2)
                    &&& final(self)@ == (ScannerView { current: e + 1, line: l2, ..old(self)@ })
                }
            }),
            final(self)@.current >= old(self)@.current,
    {
        let ghost s = self@.bytes;
        while self.peek() != 34 && !self.is_at_end()
            invariant
                self.wf(),
                self@.bytes == s,
                s == old(self)@.bytes,
                self@.current >= old(self)@.current,
                self@.start == old(self)@.start,
                string_end(s, old(self)@.current, old(self)@.line) == string_end(
                    s,
                    self@.current,
                    self@.line,
                ),
            decreases s.len() - self@.current,
        {
            if self.peek() == 10 {
                self.advance();
                self.line = self.line + 1;
            } else {
                self.advance();
            }
        }
        if self.is_at_end() {
            self.make_error_token(ScanError::UnterminatedString)
        } else {
            self.advance();
            self.make_token(TokenType::String)
        }
    }

    /// An error token spanning the lexeme being scanned.
    pub fn make_error_token(&mut self, error: ScanError) -> (t: Token)
        requires
            old(self).wf(),
        ensures
            *final(self) == *old(self),
            t == mk_token(TokenType::Error(error), old(self)@.start, old(self)@.current, old(self)@.line),
    {
        Token {
            token_type: TokenType::Error(error),
            start: self.start,
            length: self.current - self.start,
            line: self.line,
        }
    }

    /// Whether the whole source has been read.
    pub fn is_at_end(&self) -> (r: bool)
        requires
            self.wf(),
        ensures
            r == (self@.current >= self@.bytes.len()),
    {
        self.current >= self.bytes().len()
    }

    fn make_token(&self, token_type: TokenType) -> (t: Token)
        requires
            self.wf(),
        ensures
            t == mk_token(token_type, self@.start, self@.current, self@.line),
    {
        Token {
            token_type,
            start: self.start,
            length: self.current - self.start,
            line: self.line,
        }
    }
}

/// The byte width of the character whose first byte is `b`.
fn width_of(b: u8) -> (w: usize)
    ensures
        w == char_width(b),
{
    if b < 0x80 {
        1
    } else if b < 0xe0 {
        2
    } else if b < 0xf0 {
        3
    } else {
        4
    }
}

/// Calls `core::str::from_utf8`. Trusted: the contract claims, as std documents, that
/// it succeeds exactly when `b` is valid UTF-8 and then gives the text whose bytes are
/// `b`.
#[verifier::external_body]
fn str_from_utf8(b: &[u8]) -> (r: Option<&str>)
    ensures
        r is Some <==> valid_utf8(b@),
        r matches Some(text) ==> text.spec_bytes() == b@,
{
    core::str::from_utf8(b).ok()
}

} // verus!
