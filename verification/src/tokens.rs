//! Tokens: the lexical units that the scanner produces and the parser consumes.

use vstd::prelude::*;

verus! {

#[derive(Debug, Clone, Copy, PartialEq, Eq, Structural)]
pub enum TokenType {
    // Single character
    LParen,
    RParen,
    LBrace,
    RBrace,
    Comma,
    Dot,
    Minus,
    Plus,
    SemiColon,
    Slash,
    Star,
    // One or two characters
    Bang,
    Equal,
    BangEqual,
    EqualEqual,
    Greater,
    GreaterEqual,
    Less,
    LessEqual,
    // Literals
    Ident,
    StringLiteral,
    Number,
    // Keywords
    And,
    Break,
    Class,
    Else,
    False,
    Fun,
    For,
    If,
    Nil,
    Or,
    Print,
    Return,
    Super,
    This,
    True,
    Var,
    While,
    Eof,
}

/// The keyword that a word stands for, if it is one of the reserved words.
pub open spec fn reserved_spec(word: Seq<char>) -> Option<TokenType> {
    if word == "and"@ {
        Some(TokenType::And)
    } else if word == "break"@ {
        Some(TokenType::Break)
    } else if word == "class"@ {
        Some(TokenType::Class)
    } else if word == "else"@ {
        Some(TokenType::Else)
    } else if word == "false"@ {
        Some(TokenType::False)
    } else if word == "for"@ {
        Some(TokenType::For)
    } else if word == "fun"@ {
        Some(TokenType::Fun)
    } else if word == "if"@ {
        Some(TokenType::If)
    } else if word == "nil"@ {
        Some(TokenType::Nil)
    } else if word == "or"@ {
        Some(TokenType::Or)
    } else if word == "print"@ {
        Some(TokenType::Print)
    } else if word == "return"@ {
        Some(TokenType::Return)
    } else if word == "super"@ {
        Some(TokenType::Super)
    } else if word == "this"@ {
        Some(TokenType::This)
    } else if word == "true"@ {
        Some(TokenType::True)
    } else if word == "var"@ {
        Some(TokenType::Var)
    } else if word == "while"@ {
        Some(TokenType::While)
    } else {
        None
    }
}

/// Whether `word` spells exactly the text `lit`.
fn spells(word: &String, lit: &str) -> (r: bool)
    ensures
        r == (word@ == lit@),
{
    *word == lit.to_string()
}

impl TokenType {
    /// The name under which a kind of token is written out.
    pub open spec fn name_spec(self) -> Seq<char> {
        match self {
            TokenType::LParen => "L_PAREN"@,
            TokenType::RParen => "R_PAREN"@,
            TokenType::LBrace => "L_BRACE"@,
            TokenType::RBrace => "R_BRACE"@,
            TokenType::Comma => "COMMA"@,
            TokenType::Dot => "DOT"@,
            TokenType::Minus => "MINUS"@,
            TokenType::Plus => "PLUS"@,
            TokenType::SemiColon => "SEMICOLON"@,
            TokenType::Slash => "SLASH"@,
            TokenType::Star => "STAR"@,
            TokenType::Bang => "BANG"@,
            TokenType::Equal => "EQUAL"@,
            TokenType::BangEqual => "BANG_EQ"@,
            TokenType::EqualEqual => "EQ_EQ"@,
            TokenType::Greater => "GREATER"@,
            TokenType::GreaterEqual => "GREATER_EQ"@,
            TokenType::Less => "LESS"@,
            TokenType::LessEqual => "LESS_EQ"@,
            TokenType::Ident => "IDENT"@,
            TokenType::StringLiteral => "STRING"@,
            TokenType::Number => "NUM"@,
            TokenType::And => "AND"@,
            TokenType::Break => "BREAK"@,
            TokenType::Class => "CLASS"@,
            TokenType::Else => "ELSE"@,
            TokenType::False => "FALSE"@,
            TokenType::Fun => "FUN"@,
            TokenType::For => "FOR"@,
            TokenType::If => "IF"@,
            TokenType::Nil => "NIL"@,
            TokenType::Or => "OR"@,
            TokenType::Print => "PRINT"@,
            TokenType::Return => "RETURN"@,
            TokenType::Super => "SUPER"@,
            TokenType::This => "THIS"@,
            TokenType::True => "TRUE"@,
            TokenType::Var => "VAR"@,
            TokenType::While => "WHILE"@,
            TokenType::Eof => "EOF"@,
        }
    }

    /// The name under which this kind of token is written out.
    pub fn name(self) -> (r: &'static str)
        ensures
            r@ == self.name_spec(),
    {
        match self {
            TokenType::LParen => "L_PAREN",
            TokenType::RParen => "R_PAREN",
            TokenType::LBrace => "L_BRACE",
            TokenType::RBrace => "R_BRACE",
            TokenType::Comma => "COMMA",
            TokenType::Dot => "DOT",
            TokenType::Minus => "MINUS",
            TokenType::Plus => "PLUS",
            TokenType::SemiColon => "SEMICOLON",
            TokenType::Slash => "SLASH",
            TokenType::Star => "STAR",
            TokenType::Bang => "BANG",
            TokenType::Equal => "EQUAL",
            TokenType::BangEqual => "BANG_EQ",
            TokenType::EqualEqual => "EQ_EQ",
            TokenType::Greater => "GREATER",
            TokenType::GreaterEqual => "GREATER_EQ",
            TokenType::Less => "LESS",
            TokenType::LessEqual => "LESS_EQ",
            TokenType::Ident => "IDENT",
            TokenType::StringLiteral => "STRING",
            TokenType::Number => "NUM",
            TokenType::And => "AND",
            TokenType::Break => "BREAK",
            TokenType::Class => "CLASS",
            TokenType::Else => "ELSE",
            TokenType::False => "FALSE",
            TokenType::Fun => "FUN",
            TokenType::For => "FOR",
            TokenType::If => "IF",
            TokenType::Nil => "NIL",
            TokenType::Or => "OR",
            TokenType::Print => "PRINT",
            TokenType::Return => "RETURN",
            TokenType::Super => "SUPER",
            TokenType::This => "THIS",
            TokenType::True => "TRUE",
            TokenType::Var => "VAR",
            TokenType::While => "WHILE",
            TokenType::Eof => "EOF",
        }
    }

    /// Looks a word up among the reserved words of the language.
    pub fn reserved(keyword: &str) -> (r: Option<TokenType>)
        ensures
            r == reserved_spec(keyword@),
    {
        let word = keyword.to_string();
        if spells(&word, "and") {
            Some(TokenType::And)
        } else if spells(&word, "break") {
            Some(TokenType::Break)
        } else if spells(&word, "class") {
            Some(TokenType::Class)
        } else if spells(&word, "else") {
            Some(TokenType::Else)
        } else if spells(&word, "false") {
            Some(TokenType::False)
        } else if spells(&word, "for") {
            Some(TokenType::For)
        } else if spells(&word, "fun") {
            Some(TokenType::Fun)
        } else if spells(&word, "if") {
            Some(TokenType::If)
        } else if spells(&word, "nil") {
            Some(TokenType::Nil)
        } else if spells(&word, "or") {
            Some(TokenType::Or)
        } else if spells(&word, "print") {
            Some(TokenType::Print)
        } else if spells(&word, "return") {
            Some(TokenType::Return)
        } else if spells(&word, "super") {
            Some(TokenType::Super)
        } else if spells(&word, "this") {
            Some(TokenType::This)
        } else if spells(&word, "true") {
            Some(TokenType::True)
        } else if spells(&word, "var") {
            Some(TokenType::Var)
        } else if spells(&word, "while") {
            Some(TokenType::While)
        } else {
            None
        }
    }

    /// Whether this kind is one of `types`.
    pub fn in_types(self, types: &[TokenType]) -> (r: bool)
        ensures
            r == types@.contains(self),
    {
        let mut i: usize = 0;
        while i < types.len()
            invariant
                i <= types.len(),
                forall|j: int| 0 <= j < i ==> types@[j] != self,
            decreases types.len() - i,
        {
            if types[i] == self {
                return true;
            }
            i += 1;
        }
        false
    }
}

/// The value that a literal token stands for.
///
/// A number is kept as the decimal numeral that was written; turning it into
/// a binary64 is the host's work, asked for when the literal is evaluated.
#[derive(Debug)]
pub enum Literal {
    Nil,
    Boolean(bool),
    Number(String),
    String(String),
}

pub enum LiteralView {
    Nil,
    Boolean(bool),
    Number(Seq<char>),
    String(Seq<char>),
}

impl View for Literal {
    type V = LiteralView;

    open spec fn view(&self) -> LiteralView {
        match self {
            Literal::Nil => LiteralView::Nil,
            Literal::Boolean(b) => LiteralView::Boolean(*b),
            Literal::Number(n) => LiteralView::Number(n@),
            Literal::String(s) => LiteralView::String(s@),
        }
    }
}

impl LiteralView {
    /// The literal as it is written out: a number as its numeral, a string
    /// as its characters.
    pub open spec fn text(self) -> Seq<char> {
        match self {
            LiteralView::Nil => "nil"@,
            LiteralView::Boolean(b) => if b {
                "true"@
            } else {
                "false"@
            },
            LiteralView::Number(n) => n,
            LiteralView::String(s) => s,
        }
    }
}

impl Literal {
    /// The literal as it is written out.
    pub fn text(&self) -> (r: String)
        ensures
            r@ == self@.text(),
    {
        match self {
            Literal::Nil => "nil".to_string(),
            Literal::Boolean(true) => "true".to_string(),
            Literal::Boolean(false) => "false".to_string(),
            Literal::Number(n) => n.clone(),
            Literal::String(s) => s.clone(),
        }
    }
}

impl Clone for Literal {
    fn clone(&self) -> (r: Self)
        ensures
            r == *self,
    {
        match self {
            Literal::Nil => Literal::Nil,
            Literal::Boolean(b) => Literal::Boolean(*b),
            Literal::Number(n) => Literal::Number(n.clone()),
            Literal::String(s) => Literal::String(s.clone()),
        }
    }
}

#[derive(Debug)]
pub struct Token {
    pub token_type: TokenType,
    pub lexeme: String,
    pub literal: Option<Literal>,
    pub line: usize,
    pub offset: usize,
}

pub struct TokenView {
    pub token_type: TokenType,
    pub lexeme: Seq<char>,
    pub literal: Option<LiteralView>,
    pub line: usize,
    pub offset: usize,
}

pub open spec fn literal_view(literal: Option<Literal>) -> Option<LiteralView> {
    match literal {
        Some(l) => Some(l@),
        None => None,
    }
}

impl View for Token {
    type V = TokenView;

    open spec fn view(&self) -> TokenView {
        TokenView {
            token_type: self.token_type,
            lexeme: self.lexeme@,
            literal: literal_view(self.literal),
            line: self.line,
            offset: self.offset,
        }
    }
}

impl Token {
    pub fn new(
        token_type: TokenType,
        lexeme: String,
        literal: Option<Literal>,
        line: usize,
        offset: usize,
    ) -> (t: Self)
        ensures
            t == (Token { token_type, lexeme, literal, line, offset }),
    {
        Token { token_type, lexeme, literal, line, offset }
    }

    /// Whether the token's kind is one of `types`.
    pub fn in_types(&self, types: &[TokenType]) -> (r: bool)
        ensures
            r == types@.contains(self.token_type),
    {
        self.token_type.in_types(types)
    }
}

impl Clone for Token {
    fn clone(&self) -> (r: Self)
        ensures
            r == *self,
    {
        let literal = match &self.literal {
            Some(l) => Some(l.clone()),
            None => None,
        };
        Token {
            token_type: self.token_type,
            lexeme: self.lexeme.clone(),
            literal,
            line: self.line,
            offset: self.offset,
        }
    }
}

impl Default for Token {
    /// An end-of-input token at line 0 with an empty lexeme.
    fn default() -> (t: Self)
        ensures
            t@ == (TokenView {
                token_type: TokenType::Eof,
                lexeme: Seq::<char>::empty(),
                literal: None,
                line: 0,
                offset: 0,
            }),
    {
        Token { token_type: TokenType::Eof, lexeme: String::new(), literal: None, line: 0, offset: 0 }
    }
}

} // verus!
