//! The scanner: from characters to tokens.
//!
//! A `Scanner` walks a character sequence with a cursor. Every method is
//! specified as a function on `ScannerView`, the mathematical state of the
//! scanner, so the token that `next` yields is pinned down for every input.

use vstd::prelude::*;
use crate::error::{ErrorView, RloxError};
use crate::text::{
    chars_of, is_alphanumeric, is_alphanumeric_spec, is_digit, is_digit_spec, is_whitespace,
    is_whitespace_spec, text_of,
};
use crate::tokens::{reserved_spec, Literal, LiteralView, Token, TokenType, TokenView};

verus! {

/// What one call of `next` yields: a token or a lexical error.
pub type Scanned = Result<Token, RloxError>;

pub type ScannedView = Result<TokenView, ErrorView>;

pub open spec fn scanned_view(s: Scanned) -> ScannedView {
    match s {
        Ok(t) => Ok(t@),
        Err(e) => Err(e@),
    }
}

pub open spec fn opt_scanned_view(s: Option<Scanned>) -> Option<ScannedView> {
    match s {
        Some(r) => Some(scanned_view(r)),
        None => None,
    }
}

/// The classes of characters that a run may be made of.
pub enum CharClass {
    Digit,
    Alphanumeric,
}

impl CharClass {
    pub open spec fn holds(self, c: char) -> bool {
        match self {
            CharClass::Digit => is_digit_spec(c),
            CharClass::Alphanumeric => is_alphanumeric_spec(c),
        }
    }
}

/// The state of a scanner as a mathematical value.
pub struct ScannerView {
    /// The whole input.
    pub src: Seq<char>,
    /// How many characters of the input have been consumed.
    pub pos: int,
    /// The text of the token being formed.
    pub lexeme: Seq<char>,
    /// The current line, counted from 1.
    pub line: int,
    /// Characters consumed since the last line break seen between tokens.
    pub offset: int,
    /// Whether the end-of-input token has been reached.
    pub eof: bool,
}

impl ScannerView {
    /// A scanner at the start of `src`.
    pub open spec fn start(src: Seq<char>) -> ScannerView {
        ScannerView { src, pos: 0, lexeme: Seq::empty(), line: 1, offset: 0, eof: false }
    }

    /// The `n`-th character ahead, or NUL beyond the end of the input.
    pub open spec fn lookahead(self, n: int) -> char {
        if 0 <= self.pos + n - 1 < self.src.len() {
            self.src[self.pos + n - 1]
        } else {
            '\0'
        }
    }

    pub open spec fn peek(self) -> char {
        self.lookahead(1)
    }

    pub open spec fn peek_next(self) -> char {
        self.lookahead(2)
    }

    /// Consumes one character into the lexeme. At the end of the input the
    /// character is NUL and the scanner is finished; a finished scanner
    /// yields nothing.
    pub open spec fn advance(self) -> (ScannerView, Option<char>) {
        if self.eof {
            (self, None)
        } else if 0 <= self.pos < self.src.len() {
            let ch = self.src[self.pos];
            (
                ScannerView {
                    pos: self.pos + 1,
                    lexeme: self.lexeme.push(ch),
                    offset: self.offset + 1,
                    ..self
                },
                Some(ch),
            )
        } else {
            (
                ScannerView {
                    lexeme: self.lexeme.push('\0'),
                    offset: self.offset + 1,
                    eof: true,
                    ..self
                },
                Some('\0'),
            )
        }
    }

    /// Consumes the next character if it is `ch`.
    pub open spec fn match_advance(self, ch: char) -> (ScannerView, bool) {
        if self.peek() == ch {
            (self.advance().0, true)
        } else {
            (self, false)
        }
    }

    /// Consumes characters up to, not including, the first one that is in
    /// `charset` or is NUL. Yields the last character consumed, or `last`
    /// if none was.
    pub open spec fn advance_until(self, charset: Seq<char>, last: char) -> (ScannerView, char)
        decreases self.src.len() - self.pos,
    {
        let ch = self.peek();
        if self.eof || charset.contains(ch) || ch == '\0' || !(0 <= self.pos < self.src.len()) {
            (self, last)
        } else {
            self.advance().0.advance_until(charset, ch)
        }
    }

    /// Consumes the longest run of characters of the class `class`.
    pub open spec fn advance_while(self, class: CharClass) -> ScannerView
        decreases self.src.len() - self.pos,
    {
        if !self.eof && 0 <= self.pos < self.src.len() && class.holds(self.peek()) {
            self.advance().0.advance_while(class)
        } else {
            self
        }
    }

    /// The scanner with an empty lexeme.
    pub open spec fn clear(self) -> ScannerView {
        ScannerView { lexeme: Seq::empty(), ..self }
    }

    /// The token of kind `token_type` whose text is the current lexeme.
    pub open spec fn token(self, token_type: TokenType, literal: Option<LiteralView>) -> TokenView {
        TokenView {
            token_type,
            lexeme: self.lexeme,
            literal,
            line: self.line as usize,
            offset: (self.offset - self.lexeme.len()) as usize,
        }
    }

    /// A two-character token if the next character is `expected`, else the
    /// one-character token.
    pub open spec fn match_token(self, expected: char, t: TokenType, u: TokenType) -> (
        ScannerView,
        Option<ScannedView>,
    ) {
        let (v, matched) = self.match_advance(expected);
        if matched {
            (v, Some(Ok(v.token(t, None))))
        } else {
            (v, Some(Ok(v.token(u, None))))
        }
    }

    /// The rest of a string literal whose opening quote has been consumed on
    /// line `opening`. A line break inside the literal counts as a line; a
    /// quote right after a backslash stays in the text and the backslash is
    /// dropped.
    pub open spec fn string(self, opening: int) -> (ScannerView, Option<ScannedView>)
        decreases self.src.len() - self.pos,
    {
        let (v1, last) = self.advance_until(seq!['\n', '"'], '\0');
        let c = v1.peek();
        if v1.eof || c == '\0' || !(self.pos <= v1.pos < v1.src.len()) || v1.src.len()
            != self.src.len() {
            (
                v1,
                Some(Err(ErrorView::Lexical(opening as usize, "Unterminated String"@, v1.lexeme))),
            )
        } else if c == '"' && last == '\\' {
            let v2 = ScannerView { lexeme: v1.lexeme.drop_last(), ..v1 };
            v2.advance().0.string(opening)
        } else if c == '"' {
            let v2 = v1.advance().0;
            let text = v2.lexeme.subrange(1, v2.lexeme.len() - 1);
            (v2, Some(Ok(v2.token(TokenType::StringLiteral, Some(LiteralView::String(text))))))
        } else {
            let v2 = v1.advance().0;
            (ScannerView { line: v2.line + 1, ..v2 }).string(opening)
        }
    }

    /// The rest of a number whose first digit has been consumed: more digits,
    /// then a point and digits if a digit follows the point.
    pub open spec fn number(self) -> (ScannerView, Option<ScannedView>) {
        let v1 = self.advance_while(CharClass::Digit);
        let v2 = if v1.peek() == '.' && is_digit_spec(v1.peek_next()) {
            v1.advance().0.advance_while(CharClass::Digit)
        } else {
            v1
        };
        (v2, Some(Ok(v2.token(TokenType::Number, Some(LiteralView::Number(v2.lexeme))))))
    }

    /// The rest of a word whose first character has been consumed: a keyword
    /// if it is reserved, an identifier if not.
    pub open spec fn identifier(self) -> (ScannerView, Option<ScannedView>) {
        let v = self.advance_while(CharClass::Alphanumeric);
        let token_type = match reserved_spec(v.lexeme) {
            Some(t) => t,
            None => TokenType::Ident,
        };
        let literal = match token_type {
            TokenType::Nil => Some(LiteralView::Nil),
            TokenType::True => Some(LiteralView::Boolean(true)),
            TokenType::False => Some(LiteralView::Boolean(false)),
            _ => None,
        };
        (v, Some(Ok(v.token(token_type, literal))))
    }

    /// The next token from a scanner that is not finished and has an empty
    /// lexeme: blanks and comments are passed over, then one token or one
    /// error is formed.
    pub open spec fn scan(self) -> (ScannerView, Option<ScannedView>)
        decreases self.src.len() - self.pos,
    {
        let (v, got) = self.advance();
        let c = got->0;
        if self.eof {
            (self, None)
        } else if c == '\0' {
            let done = ScannerView { eof: true, ..v };
            (done, Some(Ok(done.token(TokenType::Eof, None))))
        } else if c == '(' {
            (v, Some(Ok(v.token(TokenType::LParen, None))))
        } else if c == ')' {
            (v, Some(Ok(v.token(TokenType::RParen, None))))
        } else if c == '{' {
            (v, Some(Ok(v.token(TokenType::LBrace, None))))
        } else if c == '}' {
            (v, Some(Ok(v.token(TokenType::RBrace, None))))
        } else if c == ',' {
            (v, Some(Ok(v.token(TokenType::Comma, None))))
        } else if c == '.' {
            (v, Some(Ok(v.token(TokenType::Dot, None))))
        } else if c == '-' {
            (v, Some(Ok(v.token(TokenType::Minus, None))))
        } else if c == '+' {
            (v, Some(Ok(v.token(TokenType::Plus, None))))
        } else if c == ';' {
            (v, Some(Ok(v.token(TokenType::SemiColon, None))))
        } else if c == '*' {
            (v, Some(Ok(v.token(TokenType::Star, None))))
        } else if c == '!' {
            v.match_token('=', TokenType::BangEqual, TokenType::Bang)
        } else if c == '=' {
            v.match_token('=', TokenType::EqualEqual, TokenType::Equal)
        } else if c == '>' {
            v.match_token('=', TokenType::GreaterEqual, TokenType::Greater)
        } else if c == '<' {
            v.match_token('=', TokenType::LessEqual, TokenType::Less)
        } else if c == '/' {
            if v.peek() == '/' {
                let v2 = v.advance_until(seq!['\n'], '\0').0;
                if self.pos < v2.pos <= v2.src.len() && v2.src.len() == self.src.len() {
                    v2.clear().scan()
                } else {
                    (v2, None)
                }
            } else {
                (v, Some(Ok(v.token(TokenType::Slash, None))))
            }
        } else if is_whitespace_spec(c) {
            if c == '\n' {
                (ScannerView { line: v.line + 1, offset: 0, ..v.clear() }).scan()
            } else {
                v.clear().scan()
            }
        } else if c == '"' {
            v.string(v.line)
        } else if is_digit_spec(c) {
            v.number()
        } else if is_alphanumeric_spec(c) {
            v.identifier()
        } else {
            (v, Some(Err(ErrorView::Lexical(v.line as usize, "Unexpected Character"@, v.lexeme))))
        }
    }

    /// One step of the token sequence: nothing once the end-of-input token
    /// has been yielded, otherwise the next token or error.
    pub open spec fn next(self) -> (ScannerView, Option<ScannedView>) {
        if self.eof {
            (self, None)
        } else {
            self.clear().scan()
        }
    }

    /// The bounds that keep every counter of a running scanner in range.
    pub open spec fn wf(self) -> bool {
        &&& 0 <= self.pos <= self.src.len() < usize::MAX
        &&& 0 <= self.lexeme.len() <= self.offset
        &&& self.offset <= self.pos + (if self.eof { 1int } else { 0int })
        &&& 0 <= self.line <= self.pos + 1
    }
}

/// What `advance_until` leaves behind: the input is the same, the cursor has
/// not moved back, and the scanner stands before a character of the set, a
/// NUL or the end. If anything was consumed, the lexeme ends with the
/// character that is reported as the last one.
pub proof fn lemma_advance_until(v: ScannerView, charset: Seq<char>, last: char)
    requires
        v.wf(),
    ensures
        ({
            let (r, l) = v.advance_until(charset, last);
            &&& r.wf()
            &&& r.src == v.src
            &&& r.pos >= v.pos
            &&& r.line == v.line
            &&& r.eof == v.eof
            &&& r.offset - r.lexeme.len() == v.offset - v.lexeme.len()
            &&& r.lexeme.len() >= v.lexeme.len()
            &&& (r.eof || charset.contains(r.peek()) || r.peek() == '\0')
            &&& (r.lexeme.len() == v.lexeme.len() ==> l == last && r == v)
            &&& (r.lexeme.len() > v.lexeme.len() ==> r.lexeme.last() == l && !charset.contains(l))
        }),
    decreases v.src.len() - v.pos,
{
    let ch = v.peek();
    if v.eof || charset.contains(ch) || ch == '\0' || !(0 <= v.pos < v.src.len()) {
    } else {
        lemma_advance_until(v.advance().0, charset, ch);
    }
}

/// What `advance_while` leaves behind: the input is the same and the cursor
/// has not moved back.
pub proof fn lemma_advance_while(v: ScannerView, class: CharClass)
    requires
        v.wf(),
    ensures
        ({
            let r = v.advance_while(class);
            &&& r.wf()
            &&& r.src == v.src
            &&& r.pos >= v.pos
            &&& r.line == v.line
            &&& r.eof == v.eof
            &&& r.offset - r.lexeme.len() == v.offset - v.lexeme.len()
            &&& r.lexeme.len() >= v.lexeme.len()
        }),
    decreases v.src.len() - v.pos,
{
    if !v.eof && 0 <= v.pos < v.src.len() && class.holds(v.peek()) {
        lemma_advance_while(v.advance().0, class);
    }
}

impl ScannerView {
    /// How much is left to do: the characters not yet consumed, and the
    /// end-of-input token if it has not been yielded.
    pub open spec fn left(self) -> nat {
        let chars = if 0 <= self.pos <= self.src.len() {
            self.src.len() - self.pos
        } else {
            0
        };
        (chars + if self.eof { 0int } else { 1int }) as nat
    }

    /// Every token and error that the scanner yields from here on, in order.
    pub open spec fn drain(self) -> Seq<ScannedView>
        decreases self.left(),
    {
        let (v, t) = self.next();
        match t {
            Some(t) => if v.left() < self.left() {
                seq![t] + v.drain()
            } else {
                seq![t]
            },
            None => seq![],
        }
    }
}

/// A string literal is scanned to its end, or to the end of the input, and
/// never moves the scanner back.
pub proof fn lemma_string(v: ScannerView, opening: int)
    requires
        v.wf(),
        !v.eof,
    ensures
        ({
            let (r, t) = v.string(opening);
            &&& r.wf()
            &&& !r.eof
            &&& r.src == v.src
            &&& r.pos >= v.pos
            &&& t is Some
        }),
    decreases v.src.len() - v.pos,
{
    lemma_advance_until(v, seq!['\n', '"'], '\0');
    let (v1, last) = v.advance_until(seq!['\n', '"'], '\0');
    let c = v1.peek();
    if v1.eof || c == '\0' || !(v.pos <= v1.pos < v1.src.len()) || v1.src.len() != v.src.len() {
    } else if c == '"' && last == '\\' {
        let v2 = ScannerView { lexeme: v1.lexeme.drop_last(), ..v1 };
        lemma_string(v2.advance().0, opening);
    } else if c == '"' {
    } else {
        let v2 = v1.advance().0;
        lemma_string(ScannerView { line: v2.line + 1, ..v2 }, opening);
    }
}

/// Scanning one token always yields something and always gets nearer to the
/// end of the input.
pub proof fn lemma_scan(v: ScannerView)
    requires
        v.wf(),
        !v.eof,
    ensures
        ({
            let (r, t) = v.scan();
            &&& r.wf()
            &&& r.src == v.src
            &&& r.left() < v.left()
            &&& t is Some
        }),
    decreases v.src.len() - v.pos,
{
    let (w, got) = v.advance();
    let c = got->0;
    if c == '\0' || c == '(' || c == ')' || c == '{' || c == '}' || c == ',' || c == '.' || c == '-'
        || c == '+' || c == ';' || c == '*' || c == '!' || c == '=' || c == '>' || c == '<' {
    } else if c == '/' {
        if w.peek() == '/' {
            lemma_advance_until(w, seq!['\n'], '\0');
            let w2 = w.advance_until(seq!['\n'], '\0').0;
            lemma_scan(w2.clear());
        }
    } else if is_whitespace_spec(c) {
        if c == '\n' {
            lemma_scan(ScannerView { line: w.line + 1, offset: 0, ..w.clear() });
        } else {
            lemma_scan(w.clear());
        }
    } else if c == '"' {
        lemma_string(w, w.line);
    } else if is_digit_spec(c) {
        lemma_advance_while(w, CharClass::Digit);
        let w1 = w.advance_while(CharClass::Digit);
        if w1.peek() == '.' && is_digit_spec(w1.peek_next()) {
            lemma_advance_while(w1.advance().0, CharClass::Digit);
        }
    } else if is_alphanumeric_spec(c) {
        lemma_advance_while(w, CharClass::Alphanumeric);
    }
}

/// The token sequence of any input ends with the end-of-input token, and
/// that is the only place where one occurs.
pub proof fn law_tokens_end_with_eof(v: ScannerView)
    requires
        v.wf(),
        !v.eof,
    ensures
        v.drain().len() > 0,
        v.drain().last() matches Ok(t) && t.token_type == TokenType::Eof,
        forall|i: int|
            0 <= i < v.drain().len() - 1 ==> !(#[trigger] v.drain()[i] matches Ok(t)
                && t.token_type == TokenType::Eof),
    decreases v.left(),
{
    lemma_scan(v.clear());
    let (r, t) = v.next();
    lemma_token_kinds(v.clear());
    if !r.eof {
        law_tokens_end_with_eof(r);
        assert(v.drain() =~= seq![t->0] + r.drain());
        assert forall|i: int| 0 <= i < v.drain().len() - 1 implies !(#[trigger] v.drain()[i] matches Ok(
            t,
        ) && t.token_type == TokenType::Eof) by {
            if i > 0 {
                assert(v.drain()[i] == r.drain()[i - 1]);
            }
        }
    } else {
        assert(r.drain() =~= seq![]);
        assert(v.drain() =~= seq![t->0]);
    }
}

/// The end-of-input token is yielded exactly when the scanner finishes.
pub proof fn lemma_token_kinds(v: ScannerView)
    requires
        v.wf(),
        !v.eof,
    ensures
        ({
            let (r, t) = v.scan();
            r.eof <==> (t matches Some(Ok(tok)) && tok.token_type == TokenType::Eof)
        }),
    decreases v.src.len() - v.pos,
{
    let (w, got) = v.advance();
    let c = got->0;
    if c == '\0' || c == '(' || c == ')' || c == '{' || c == '}' || c == ',' || c == '.' || c == '-'
        || c == '+' || c == ';' || c == '*' {
    } else if c == '!' || c == '=' || c == '>' || c == '<' {
    } else if c == '/' {
        if w.peek() == '/' {
            lemma_advance_until(w, seq!['\n'], '\0');
            let w2 = w.advance_until(seq!['\n'], '\0').0;
            lemma_token_kinds(w2.clear());
        }
    } else if is_whitespace_spec(c) {
        if c == '\n' {
            lemma_token_kinds(ScannerView { line: w.line + 1, offset: 0, ..w.clear() });
        } else {
            lemma_token_kinds(w.clear());
        }
    } else if c == '"' {
        lemma_string(w, w.line);
        lemma_string_kind(w, w.line);
    } else if is_digit_spec(c) {
        lemma_advance_while(w, CharClass::Digit);
        let w1 = w.advance_while(CharClass::Digit);
        if w1.peek() == '.' && is_digit_spec(w1.peek_next()) {
            lemma_advance_while(w1.advance().0, CharClass::Digit);
        }
    } else if is_alphanumeric_spec(c) {
        lemma_advance_while(w, CharClass::Alphanumeric);
    }
}

/// A string literal never yields the end-of-input token.
pub proof fn lemma_string_kind(v: ScannerView, opening: int)
    requires
        v.wf(),
        !v.eof,
    ensures
        !(v.string(opening).1 matches Some(Ok(tok)) && tok.token_type == TokenType::Eof),
    decreases v.src.len() - v.pos,
{
    lemma_advance_until(v, seq!['\n', '"'], '\0');
    let (v1, last) = v.advance_until(seq!['\n', '"'], '\0');
    let c = v1.peek();
    if v1.eof || c == '\0' || !(v.pos <= v1.pos < v1.src.len()) || v1.src.len() != v.src.len() {
    } else if c == '"' && last == '\\' {
        let v2 = ScannerView { lexeme: v1.lexeme.drop_last(), ..v1 };
        lemma_string_kind(v2.advance().0, opening);
    } else if c == '"' {
    } else {
        let v2 = v1.advance().0;
        lemma_string_kind(ScannerView { line: v2.line + 1, ..v2 }, opening);
    }
}

/// The keywords `this` and `super` are spelled so, and no identifier is.
pub open spec fn spelled_token(t: ScannedView) -> bool {
    t matches Ok(token) ==> {
        &&& token.token_type == TokenType::Super ==> token.lexeme == "super"@
        &&& token.token_type == TokenType::This ==> token.lexeme == "this"@
        &&& token.token_type == TokenType::Ident ==> token.lexeme != "super"@ && token.lexeme != "this"@
    }
}

/// A string literal is neither a keyword nor an identifier.
pub proof fn lemma_string_spelled(v: ScannerView, opening: int)
    requires
        v.wf(),
        !v.eof,
    ensures
        v.string(opening).1 matches Some(t) ==> spelled_token(t),
    decreases v.src.len() - v.pos,
{
    lemma_advance_until(v, seq!['\n', '"'], '\0');
    let (v1, last) = v.advance_until(seq!['\n', '"'], '\0');
    let c = v1.peek();
    if v1.eof || c == '\0' || !(v.pos <= v1.pos < v1.src.len()) || v1.src.len() != v.src.len() {
    } else if c == '"' && last == '\\' {
        let v2 = ScannerView { lexeme: v1.lexeme.drop_last(), ..v1 };
        lemma_string_spelled(v2.advance().0, opening);
    } else if c == '"' {
    } else {
        let v2 = v1.advance().0;
        lemma_string_spelled(ScannerView { line: v2.line + 1, ..v2 }, opening);
    }
}

/// The scanner yields the keywords `this` and `super` for these words only,
/// and never an identifier for them.
pub proof fn lemma_scan_spelled(v: ScannerView)
    requires
        v.wf(),
        !v.eof,
    ensures
        v.scan().1 matches Some(t) ==> spelled_token(t),
    decreases v.src.len() - v.pos,
{
    let (w, got) = v.advance();
    let c = got->0;
    if c == '\0' || c == '(' || c == ')' || c == '{' || c == '}' || c == ',' || c == '.' || c == '-'
        || c == '+' || c == ';' || c == '*' || c == '!' || c == '=' || c == '>' || c == '<' {
    } else if c == '/' {
        if w.peek() == '/' {
            lemma_advance_until(w, seq!['\n'], '\0');
            let w2 = w.advance_until(seq!['\n'], '\0').0;
            if v.pos < w2.pos <= w2.src.len() && w2.src.len() == v.src.len() {
                lemma_scan_spelled(w2.clear());
            }
        }
    } else if is_whitespace_spec(c) {
        if c == '\n' {
            lemma_scan_spelled(ScannerView { line: w.line + 1, offset: 0, ..w.clear() });
        } else {
            lemma_scan_spelled(w.clear());
        }
    } else if c == '"' {
        lemma_string_spelled(w, w.line);
    } else if is_digit_spec(c) {
    } else if is_alphanumeric_spec(c) {
    }
}

/// Among the tokens, `this` and `super` are spelled so, and no identifier
/// is.
#[verifier::opaque]
pub open spec fn all_spelled(tokens: Seq<ScannedView>) -> bool {
    forall|i: int| 0 <= i < tokens.len() ==> spelled_token(#[trigger] tokens[i])
}

/// Among all the tokens of an input, `this` and `super` are spelled so, and
/// no identifier is.
pub proof fn lemma_drain_spelled(v: ScannerView)
    requires
        v.wf(),
    ensures
        forall|i: int| 0 <= i < v.drain().len() ==> spelled_token(#[trigger] v.drain()[i]),
        all_spelled(v.drain()),
    decreases v.left(),
{
    reveal(all_spelled);
    if !v.eof {
        lemma_scan(v.clear());
        lemma_scan_spelled(v.clear());
        let (r, t) = v.next();
        lemma_drain_spelled(r);
        assert(v.drain() =~= seq![t->0] + r.drain());
        assert forall|i: int| 0 <= i < v.drain().len() implies spelled_token(#[trigger] v.drain()[i]) by {
            if i > 0 {
                assert(v.drain()[i] == r.drain()[i - 1]);
            }
        }
    } else {
        assert(v.drain() =~= seq![]);
    }
}

pub struct Scanner {
    pub src: Vec<char>,
    pub pos: usize,
    pub lexeme: Vec<char>,
    pub line: usize,
    pub offset: usize,
    pub eof: bool,
}

impl View for Scanner {
    type V = ScannerView;

    open spec fn view(&self) -> ScannerView {
        ScannerView {
            src: self.src@,
            pos: self.pos as int,
            lexeme: self.lexeme@,
            line: self.line as int,
            offset: self.offset as int,
            eof: self.eof,
        }
    }
}

impl Scanner {
    pub open spec fn wf(&self) -> bool {
        self@.wf()
    }

    /// A scanner at the start of `src`.
    pub fn new(src: &str) -> (s: Self)
        requires
            src@.len() < usize::MAX,
        ensures
            s.wf(),
            s@ == ScannerView::start(src@),
    {
        Scanner { src: chars_of(src), pos: 0, lexeme: Vec::new(), line: 1, offset: 0, eof: false }
    }

    pub fn advance(&mut self) -> (r: Option<char>)
        requires
            old(self).wf(),
        ensures
            final(self).wf(),
            (final(self)@, r) == old(self)@.advance(),
    {
        if self.eof {
            return None;
        }
        let ch = if self.pos < self.src.len() {
            let ch = self.src[self.pos];
            self.pos += 1;
            ch
        } else {
            self.eof = true;
            '\0'
        };
        self.lexeme.push(ch);
        self.offset += 1;
        Some(ch)
    }

    /// Looks ahead `n` characters without consuming any.
    pub fn lookahead(&self, n: usize) -> (r: char)
        requires
            self.wf(),
            n > 0,
        ensures
            r == self@.lookahead(n as int),
    {
        if n - 1 < self.src.len() - self.pos {
            self.src[self.pos + (n - 1)]
        } else {
            '\0'
        }
    }

    pub fn peek(&self) -> (r: char)
        requires
            self.wf(),
        ensures
            r == self@.peek(),
    {
        self.lookahead(1)
    }

    pub fn peek_next(&self) -> (r: char)
        requires
            self.wf(),
        ensures
            r == self@.peek_next(),
    {
        self.lookahead(2)
    }

    /// Conditional advance: consumes the next character only if it is `ch`.
    pub fn match_advance(&mut self, ch: char) -> (r: bool)
        requires
            old(self).wf(),
        ensures
            final(self).wf(),
            (final(self)@, r) == old(self)@.match_advance(ch),
    {
        if self.peek() == ch {
            self.advance();
            return true;
        }
        false
    }

    pub fn advance_until(&mut self, charset: &[char]) -> (last: char)
        requires
            old(self).wf(),
        ensures
            final(self).wf(),
            (final(self)@, last) == old(self)@.advance_until(charset@, '\0'),
    {
        let mut last = '\0';
        loop
            invariant
                self.wf(),
                old(self)@.advance_until(charset@, '\0') == self@.advance_until(charset@, last),
            ensures
                (self@, last) == old(self)@.advance_until(charset@, '\0'),
            decreases self.src.len() - self.pos,
        {
            let ch = self.peek();
            if self.eof || contains(charset, ch) || ch == '\0' || self.pos >= self.src.len() {
                break;
            }
            last = ch;
            self.advance();
        }
        last
    }

    fn advance_while(&mut self, class: CharClass)
        requires
            old(self).wf(),
        ensures
            final(self).wf(),
            final(self)@ == old(self)@.advance_while(class),
    {
        loop
            invariant
                self.wf(),
                old(self)@.advance_while(class) == self@.advance_while(class),
            ensures
                self@ == old(self)@.advance_while(class),
            decreases self.src.len() - self.pos,
        {
            if self.eof || self.pos >= self.src.len() {
                break;
            }
            let ch = self.peek();
            let held = match class {
                CharClass::Digit => is_digit(ch),
                CharClass::Alphanumeric => is_alphanumeric(ch),
            };
            if !held {
                break;
            }
            self.advance();
        }
    }

    fn err(&self, line: usize, msg: &str) -> (r: Option<Scanned>)
        ensures
            opt_scanned_view(r) == Some::<ScannedView>(
                Err(ErrorView::Lexical(line, msg@, self@.lexeme)),
            ),
    {
        let what = text_of(&self.lexeme, 0, self.lexeme.len());
        assert(self.lexeme@.subrange(0, self.lexeme@.len() as int) =~= self.lexeme@);
        Some(Err(RloxError::lexical(line, msg, &what)))
    }

    fn token(&self, token_type: TokenType, literal: Option<Literal>) -> (r: Option<Scanned>)
        requires
            self.wf(),
        ensures
            opt_scanned_view(r) == Some::<ScannedView>(
                Ok(self@.token(token_type, crate::tokens::literal_view(literal))),
            ),
    {
        let lexeme = text_of(&self.lexeme, 0, self.lexeme.len());
        assert(self.lexeme@.subrange(0, self.lexeme@.len() as int) =~= self.lexeme@);
        Some(Ok(Token::new(token_type, lexeme, literal, self.line, self.offset - self.lexeme.len())))
    }

    fn match_token(&mut self, expected: char, t: TokenType, u: TokenType) -> (r: Option<Scanned>)
        requires
            old(self).wf(),
        ensures
            final(self).wf(),
            (final(self)@, opt_scanned_view(r)) == old(self)@.match_token(expected, t, u),
    {
        if self.match_advance(expected) {
            self.token(t, None)
        } else {
            self.token(u, None)
        }
    }

    fn string(&mut self) -> (r: Option<Scanned>)
        requires
            old(self).wf(),
            old(self).lexeme.len() >= 1,
        ensures
            final(self).wf(),
            (final(self)@, opt_scanned_view(r)) == old(self)@.string(old(self).line as int),
    {
        let opening = self.line;
        loop
            invariant
                self.wf(),
                self.lexeme.len() >= 1,
                self.src@ == old(self).src@,
                opening == old(self).line,
                old(self)@.string(opening as int) == self@.string(opening as int),
            decreases self.src.len() - self.pos,
        {
            let ghost before = self@;
            proof {
                lemma_advance_until(before, seq!['\n', '"'], '\0');
            }
            let set = ['\n', '"'];
            assert(set@ =~= seq!['\n', '"']);
            let last = self.advance_until(&set);
            let c = self.peek();
            if self.eof || c == '\0' || self.pos >= self.src.len() {
                return self.err(opening, "Unterminated String");
            }
            if c == '"' && last == '\\' {
                self.lexeme.pop();
                self.advance();
            } else if c == '"' {
                self.advance();
                let text = text_of(&self.lexeme, 1, self.lexeme.len() - 1);
                return self.token(TokenType::StringLiteral, Some(Literal::String(text)));
            } else {
                self.advance();
                self.line += 1;
            }
        }
    }

    fn number(&mut self) -> (r: Option<Scanned>)
        requires
            old(self).wf(),
        ensures
            final(self).wf(),
            (final(self)@, opt_scanned_view(r)) == old(self)@.number(),
    {
        proof {
            lemma_advance_while(self@, CharClass::Digit);
        }
        self.advance_while(CharClass::Digit);
        if self.peek() == '.' && is_digit(self.peek_next()) {
            self.advance();
            proof {
                lemma_advance_while(self@, CharClass::Digit);
            }
            self.advance_while(CharClass::Digit);
        }
        let numeral = text_of(&self.lexeme, 0, self.lexeme.len());
        assert(self.lexeme@.subrange(0, self.lexeme@.len() as int) =~= self.lexeme@);
        self.token(TokenType::Number, Some(Literal::Number(numeral)))
    }

    fn identifer(&mut self) -> (r: Option<Scanned>)
        requires
            old(self).wf(),
        ensures
            final(self).wf(),
            (final(self)@, opt_scanned_view(r)) == old(self)@.identifier(),
    {
        proof {
            lemma_advance_while(self@, CharClass::Alphanumeric);
        }
        self.advance_while(CharClass::Alphanumeric);
        let word = text_of(&self.lexeme, 0, self.lexeme.len());
        assert(self.lexeme@.subrange(0, self.lexeme@.len() as int) =~= self.lexeme@);
        let token_type = match TokenType::reserved(word.as_str()) {
            Some(t) => t,
            None => TokenType::Ident,
        };
        match token_type {
            TokenType::Nil => self.token(token_type, Some(Literal::Nil)),
            TokenType::True => self.token(token_type, Some(Literal::Boolean(true))),
            TokenType::False => self.token(token_type, Some(Literal::Boolean(false))),
            _ => self.token(token_type, None),
        }
    }

    /// The next token of the input, or the next lexical error. The last
    /// token is always `Eof`; after it there is nothing.
    pub fn next(&mut self) -> (r: Option<Scanned>)
        requires
            old(self).wf(),
        ensures
            final(self).wf(),
            (final(self)@, opt_scanned_view(r)) == old(self)@.next(),
    {
        if self.eof {
            return None;
        }
        self.lexeme.clear();
        loop
            invariant
                self.wf(),
                !self.eof,
                self.lexeme@.len() == 0,
                self.src@ == old(self).src@,
                old(self)@.next() == self@.scan(),
            decreases self.src.len() - self.pos,
        {
            let ghost before = self@;
            assert(before.lexeme =~= Seq::empty());
            let c = match self.advance() {
                Some(c) => c,
                None => '\0',
            };
            if c == '\0' {
                self.eof = true;
                return self.token(TokenType::Eof, None);
            } else if c == '(' {
                return self.token(TokenType::LParen, None);
            } else if c == ')' {
                return self.token(TokenType::RParen, None);
            } else if c == '{' {
                return self.token(TokenType::LBrace, None);
            } else if c == '}' {
                return self.token(TokenType::RBrace, None);
            } else if c == ',' {
                return self.token(TokenType::Comma, None);
            } else if c == '.' {
                return self.token(TokenType::Dot, None);
            } else if c == '-' {
                return self.token(TokenType::Minus, None);
            } else if c == '+' {
                return self.token(TokenType::Plus, None);
            } else if c == ';' {
                return self.token(TokenType::SemiColon, None);
            } else if c == '*' {
                return self.token(TokenType::Star, None);
            } else if c == '!' {
                return self.match_token('=', TokenType::BangEqual, TokenType::Bang);
            } else if c == '=' {
                return self.match_token('=', TokenType::EqualEqual, TokenType::Equal);
            } else if c == '>' {
                return self.match_token('=', TokenType::GreaterEqual, TokenType::Greater);
            } else if c == '<' {
                return self.match_token('=', TokenType::LessEqual, TokenType::Less);
            } else if c == '/' {
                if self.peek() == '/' {
                    proof {
                        lemma_advance_until(self@, seq!['\n'], '\0');
                    }
                    let set = ['\n'];
                    assert(set@ =~= seq!['\n']);
                    self.advance_until(&set);
                    self.lexeme.clear();
                } else {
                    return self.token(TokenType::Slash, None);
                }
            } else if is_whitespace(c) {
                self.lexeme.clear();
                if c == '\n' {
                    self.offset = 0;
                    self.line += 1;
                }
            } else if c == '"' {
                return self.string();
            } else if is_digit(c) {
                return self.number();
            } else if is_alphanumeric(c) {
                return self.identifer();
            } else {
                return self.err(self.line, "Unexpected Character");
            }
        }
    }
}

/// Whether `c` occurs in `set`.
fn contains(set: &[char], c: char) -> (r: bool)
    ensures
        r == set@.contains(c),
{
    let mut i: usize = 0;
    while i < set.len()
        invariant
            i <= set.len(),
            forall|j: int| 0 <= j < i ==> set@[j] != c,
        decreases set.len() - i,
    {
        if set[i] == c {
            return true;
        }
        i += 1;
    }
    false
}

} // verus!
