//! The lexical scanner: source text to a sequence of classified,
//! positioned tokens.
//!
//! `scan_from` is the specification: it walks the characters, tracking the
//! current line and the index of the last newline (a column is an index
//! minus that marker), and never aborts — lexically invalid input becomes
//! in-band `Invalid` tokens. The executable `scan` is proved to produce
//! exactly that token sequence.

use vstd::prelude::*;

verus! {

use crate::position::Position;
use crate::text::push_char;
use crate::value::{
    Num, acc_digit, build_num, char_digit, digits_val, is_digit_char, lemma_digits_val_bound,
    lemma_digits_val_push, lemma_pow10_mono, num_of_digits, pow10,
};
use vstd::string::StringExecFns;

/// The classified kind of a token: punctuation and operators, the
/// reserved keywords, literals, identifiers, and the in-band lexical
/// error.
#[derive(Clone, Debug)]
pub enum TokenType {
    LeftParen,
    RightParen,
    LeftBrace,
    RightBrace,
    Star,
    Dot,
    Comma,
    Plus,
    Minus,
    Slash,
    SemiColon,
    Equal,
    Bang,
    Greater,
    Less,
    Carrot,
    If,
    And,
    Class,
    Else,
    False,
    For,
    Fun,
    Nil,
    Or,
    Print,
    Return,
    Super,
    This,
    True,
    Var,
    While,
    EqualEqual,
    BangEqual,
    LessEqual,
    GreaterEqual,
    Number(Num),
    StringLitteral(String),
    Identifier(String),
    Invalid(String),
}

/// The ghost mirror of `TokenType`.
pub enum TokenTypeV {
    LeftParen,
    RightParen,
    LeftBrace,
    RightBrace,
    Star,
    Dot,
    Comma,
    Plus,
    Minus,
    Slash,
    SemiColon,
    Equal,
    Bang,
    Greater,
    Less,
    Carrot,
    If,
    And,
    Class,
    Else,
    False,
    For,
    Fun,
    Nil,
    Or,
    Print,
    Return,
    Super,
    This,
    True,
    Var,
    While,
    EqualEqual,
    BangEqual,
    LessEqual,
    GreaterEqual,
    Number(Num),
    StringLitteral(Seq<char>),
    Identifier(Seq<char>),
    Invalid(Seq<char>),
}

impl View for TokenType {
    type V = TokenTypeV;

    open spec fn view(&self) -> TokenTypeV {
        match self {
            TokenType::LeftParen => TokenTypeV::LeftParen,
            TokenType::RightParen => TokenTypeV::RightParen,
            TokenType::LeftBrace => TokenTypeV::LeftBrace,
            TokenType::RightBrace => TokenTypeV::RightBrace,
            TokenType::Star => TokenTypeV::Star,
            TokenType::Dot => TokenTypeV::Dot,
            TokenType::Comma => TokenTypeV::Comma,
            TokenType::Plus => TokenTypeV::Plus,
            TokenType::Minus => TokenTypeV::Minus,
            TokenType::Slash => TokenTypeV::Slash,
            TokenType::SemiColon => TokenTypeV::SemiColon,
            TokenType::Equal => TokenTypeV::Equal,
            TokenType::Bang => TokenTypeV::Bang,
            TokenType::Greater => TokenTypeV::Greater,
            TokenType::Less => TokenTypeV::Less,
            TokenType::Carrot => TokenTypeV::Carrot,
            TokenType::If => TokenTypeV::If,
            TokenType::And => TokenTypeV::And,
            TokenType::Class => TokenTypeV::Class,
            TokenType::Else => TokenTypeV::Else,
            TokenType::False => TokenTypeV::False,
            TokenType::For => TokenTypeV::For,
            TokenType::Fun => TokenTypeV::Fun,
            TokenType::Nil => TokenTypeV::Nil,
            TokenType::Or => TokenTypeV::Or,
            TokenType::Print => TokenTypeV::Print,
            TokenType::Return => TokenTypeV::Return,
            TokenType::Super => TokenTypeV::Super,
            TokenType::This => TokenTypeV::This,
            TokenType::True => TokenTypeV::True,
            TokenType::Var => TokenTypeV::Var,
            TokenType::While => TokenTypeV::While,
            TokenType::EqualEqual => TokenTypeV::EqualEqual,
            TokenType::BangEqual => TokenTypeV::BangEqual,
            TokenType::LessEqual => TokenTypeV::LessEqual,
            TokenType::GreaterEqual => TokenTypeV::GreaterEqual,
            TokenType::Number(n) => TokenTypeV::Number(*n),
            TokenType::StringLitteral(s) => TokenTypeV::StringLitteral(s@),
            TokenType::Identifier(s) => TokenTypeV::Identifier(s@),
            TokenType::Invalid(s) => TokenTypeV::Invalid(s@),
        }
    }
}

/// A token: its classified kind, the raw text it was scanned from, and
/// the span of the characters consumed for it.
#[derive(Clone, Debug)]
pub struct Token {
    pub token_type: TokenType,
    pub raw: String,
    pub position: Position,
}

/// The ghost mirror of `Token`.
pub struct TokenV {
    pub token_type: TokenTypeV,
    pub raw: Seq<char>,
    pub position: Position,
}

impl View for Token {
    type V = TokenV;

    open spec fn view(&self) -> TokenV {
        TokenV { token_type: self.token_type@, raw: self.raw@, position: self.position }
    }
}

/// A number token carries a positive denominator; every other token is
/// unconstrained.
pub open spec fn token_wf(t: TokenV) -> bool {
    match t.token_type {
        TokenTypeV::Number(n) => n.wf(),
        _ => true,
    }
}

impl TokenType {
    /// An owned copy with the same view.
    pub fn duplicate(&self) -> (r: TokenType)
        ensures
            r@ == self@,
    {
        match self {
            TokenType::LeftParen => TokenType::LeftParen,
            TokenType::RightParen => TokenType::RightParen,
            TokenType::LeftBrace => TokenType::LeftBrace,
            TokenType::RightBrace => TokenType::RightBrace,
            TokenType::Star => TokenType::Star,
            TokenType::Dot => TokenType::Dot,
            TokenType::Comma => TokenType::Comma,
            TokenType::Plus => TokenType::Plus,
            TokenType::Minus => TokenType::Minus,
            TokenType::Slash => TokenType::Slash,
            TokenType::SemiColon => TokenType::SemiColon,
            TokenType::Equal => TokenType::Equal,
            TokenType::Bang => TokenType::Bang,
            TokenType::Greater => TokenType::Greater,
            TokenType::Less => TokenType::Less,
            TokenType::Carrot => TokenType::Carrot,
            TokenType::If => TokenType::If,
            TokenType::And => TokenType::And,
            TokenType::Class => TokenType::Class,
            TokenType::Else => TokenType::Else,
            TokenType::False => TokenType::False,
            TokenType::For => TokenType::For,
            TokenType::Fun => TokenType::Fun,
            TokenType::Nil => TokenType::Nil,
            TokenType::Or => TokenType::Or,
            TokenType::Print => TokenType::Print,
            TokenType::Return => TokenType::Return,
            TokenType::Super => TokenType::Super,
            TokenType::This => TokenType::This,
            TokenType::True => TokenType::True,
            TokenType::Var => TokenType::Var,
            TokenType::While => TokenType::While,
            TokenType::EqualEqual => TokenType::EqualEqual,
            TokenType::BangEqual => TokenType::BangEqual,
            TokenType::LessEqual => TokenType::LessEqual,
            TokenType::GreaterEqual => TokenType::GreaterEqual,
            TokenType::Number(n) => TokenType::Number(*n),
            TokenType::StringLitteral(s) => TokenType::StringLitteral(s.clone()),
            TokenType::Identifier(s) => TokenType::Identifier(s.clone()),
            TokenType::Invalid(s) => TokenType::Invalid(s.clone()),
        }
    }
}

/// The listing name of a token kind, as the tokenize mode prints it.
pub open spec fn token_kind_name(t: TokenTypeV) -> Seq<char> {
    match t {
        TokenTypeV::LeftParen => "LEFT_PAREN"@,
        TokenTypeV::RightParen => "RIGHT_PAREN"@,
        TokenTypeV::LeftBrace => "LEFT_BRACE"@,
        TokenTypeV::RightBrace => "RIGHT_BRACE"@,
        TokenTypeV::Star => "STAR"@,
        TokenTypeV::Dot => "DOT"@,
        TokenTypeV::Comma => "COMMA"@,
        TokenTypeV::Plus => "PLUS"@,
        TokenTypeV::Minus => "MINUS"@,
        TokenTypeV::Slash => "SLASH"@,
        TokenTypeV::SemiColon => "SEMICOLON"@,
        TokenTypeV::Equal => "EQUAL"@,
        TokenTypeV::Bang => "BANG"@,
        TokenTypeV::Greater => "GREATER"@,
        TokenTypeV::Less => "LESS"@,
        TokenTypeV::Carrot => "CARROT"@,
        TokenTypeV::If => "IF"@,
        TokenTypeV::And => "AND"@,
        TokenTypeV::Class => "CLASS"@,
        TokenTypeV::Else => "ELSE"@,
        TokenTypeV::False => "FALSE"@,
        TokenTypeV::For => "FOR"@,
        TokenTypeV::Fun => "FUN"@,
        TokenTypeV::Nil => "NIL"@,
        TokenTypeV::Or => "OR"@,
        TokenTypeV::Print => "PRINT"@,
        TokenTypeV::Return => "RETURN"@,
        TokenTypeV::Super => "SUPER"@,
        TokenTypeV::This => "THIS"@,
        TokenTypeV::True => "TRUE"@,
        TokenTypeV::Var => "VAR"@,
        TokenTypeV::While => "WHILE"@,
        TokenTypeV::EqualEqual => "EQUAL_EQUAL"@,
        TokenTypeV::BangEqual => "BANG_EQUAL"@,
        TokenTypeV::LessEqual => "LESS_EQUAL"@,
        TokenTypeV::GreaterEqual => "GREATER_EQUAL"@,
        TokenTypeV::Number(n) => "NUMBER"@,
        TokenTypeV::StringLitteral(s) => "STRING"@,
        TokenTypeV::Identifier(s) => "IDENTIFIER"@,
        TokenTypeV::Invalid(s) => "INVALID"@,
    }
}

/// The listing line of a token: its kind name, its raw text and its
/// literal value (`null` when it has none); an `Invalid` token is
/// reported as a lexical error with its line.
pub open spec fn token_describe(t: TokenV) -> Seq<char> {
    match t.token_type {
        TokenTypeV::Invalid(m) => "[line "@ + crate::value::dec_str(t.position.to.0 as nat)
            + "]: Error: "@ + m,
        TokenTypeV::Number(n) => token_kind_name(t.token_type) + " "@ + t.raw + " "@
            + n.debug_seq(),
        TokenTypeV::StringLitteral(s) => token_kind_name(t.token_type) + " "@ + t.raw + " "@ + s,
        _ => token_kind_name(t.token_type) + " "@ + t.raw + " null"@,
    }
}

/// The listing name of this kind.
fn kind_name(t: &TokenType) -> (s: String)
    ensures
        s@ == token_kind_name(t@),
{
    match t {
        TokenType::LeftParen => String::from_str("LEFT_PAREN"),
        TokenType::RightParen => String::from_str("RIGHT_PAREN"),
        TokenType::LeftBrace => String::from_str("LEFT_BRACE"),
        TokenType::RightBrace => String::from_str("RIGHT_BRACE"),
        TokenType::Star => String::from_str("STAR"),
        TokenType::Dot => String::from_str("DOT"),
        TokenType::Comma => String::from_str("COMMA"),
        TokenType::Plus => String::from_str("PLUS"),
        TokenType::Minus => String::from_str("MINUS"),
        TokenType::Slash => String::from_str("SLASH"),
        TokenType::SemiColon => String::from_str("SEMICOLON"),
        TokenType::Equal => String::from_str("EQUAL"),
        TokenType::Bang => String::from_str("BANG"),
        TokenType::Greater => String::from_str("GREATER"),
        TokenType::Less => String::from_str("LESS"),
        TokenType::Carrot => String::from_str("CARROT"),
        TokenType::If => String::from_str("IF"),
        TokenType::And => String::from_str("AND"),
        TokenType::Class => String::from_str("CLASS"),
        TokenType::Else => String::from_str("ELSE"),
        TokenType::False => String::from_str("FALSE"),
        TokenType::For => String::from_str("FOR"),
        TokenType::Fun => String::from_str("FUN"),
        TokenType::Nil => String::from_str("NIL"),
        TokenType::Or => String::from_str("OR"),
        TokenType::Print => String::from_str("PRINT"),
        TokenType::Return => String::from_str("RETURN"),
        TokenType::Super => String::from_str("SUPER"),
        TokenType::This => String::from_str("THIS"),
        TokenType::True => String::from_str("TRUE"),
        TokenType::Var => String::from_str("VAR"),
        TokenType::While => String::from_str("WHILE"),
        TokenType::EqualEqual => String::from_str("EQUAL_EQUAL"),
        TokenType::BangEqual => String::from_str("BANG_EQUAL"),
        TokenType::LessEqual => String::from_str("LESS_EQUAL"),
        TokenType::GreaterEqual => String::from_str("GREATER_EQUAL"),
        TokenType::Number(n) => String::from_str("NUMBER"),
        TokenType::StringLitteral(s) => String::from_str("STRING"),
        TokenType::Identifier(s) => String::from_str("IDENTIFIER"),
        TokenType::Invalid(s) => String::from_str("INVALID"),
    }
}

impl Token {
    /// The listing line of this token; see `token_describe`.
    pub fn describe(&self) -> (s: String)
        requires
            token_wf(self@),
        ensures
            s@ == token_describe(self@),
    {
        match &self.token_type {
            TokenType::Invalid(m) => {
                let mut s = String::from_str("[line ");
                crate::value::push_dec(&mut s, self.position.line() as u64);
                s.append("]: Error: ");
                s.append(m.as_str());
                proof {
                    assert(s@ =~= token_describe(self@));
                }
                s
            },
            TokenType::Number(n) => {
                let mut s = kind_name(&self.token_type);
                s.append(" ");
                s.append(self.raw.as_str());
                s.append(" ");
                let d = n.debug_string();
                s.append(d.as_str());
                proof {
                    assert(s@ =~= token_describe(self@));
                }
                s
            },
            TokenType::StringLitteral(v) => {
                let mut s = kind_name(&self.token_type);
                s.append(" ");
                s.append(self.raw.as_str());
                s.append(" ");
                s.append(v.as_str());
                proof {
                    assert(s@ =~= token_describe(self@));
                }
                s
            },
            _ => {
                let mut s = kind_name(&self.token_type);
                s.append(" ");
                s.append(self.raw.as_str());
                s.append(" null");
                proof {
                    assert(s@ =~= token_describe(self@));
                }
                s
            },
        }
    }

    /// An owned copy with the same view.
    pub fn duplicate(&self) -> (r: Token)
        ensures
            r@ == self@,
    {
        Token {
            token_type: self.token_type.duplicate(),
            raw: self.raw.clone(),
            position: self.position,
        }
    }

    /// Whether this token is lexically valid, that is, not an `Invalid`
    /// token.
    pub fn is_valid(&self) -> (r: bool)
        ensures
            r == !(self@.token_type is Invalid),
    {
        match self.token_type {
            TokenType::Invalid(_) => false,
            _ => true,
        }
    }
}

/// Whether `c` is an ASCII letter.
pub open spec fn is_alpha_char(c: char) -> bool {
    (65 <= c as u32 && c as u32 <= 90) || (97 <= c as u32 && c as u32 <= 122)
}

/// Whether `c` may start an identifier: a letter or `_`.
pub open spec fn is_ident_start(c: char) -> bool {
    is_alpha_char(c) || c == '_'
}

/// Whether `c` may continue an identifier: a letter, a digit or `_`.
pub open spec fn is_ident_char(c: char) -> bool {
    is_alpha_char(c) || is_digit_char(c) || c == '_'
}

/// The end of the run of digits starting at `i`.
pub open spec fn digits_end(src: Seq<char>, i: int) -> int
    decreases src.len() - i
        when 0 <= i <= src.len()
{
    if i < src.len() && is_digit_char(src[i]) {
        digits_end(src, i + 1)
    } else {
        i
    }
}

/// The end of the run of identifier characters starting at `i`.
pub open spec fn ident_end(src: Seq<char>, i: int) -> int
    decreases src.len() - i
        when 0 <= i <= src.len()
{
    if i < src.len() && is_ident_char(src[i]) {
        ident_end(src, i + 1)
    } else {
        i
    }
}

/// The first index at or after `i` holding `c`, or the end of the text.
pub open spec fn scan_until(src: Seq<char>, i: int, c: char) -> int
    decreases src.len() - i
        when 0 <= i <= src.len()
{
    if i < src.len() && src[i] != c {
        scan_until(src, i + 1, c)
    } else {
        i
    }
}

/// How many times `c` occurs in `src[a..b]`.
pub open spec fn count_char(src: Seq<char>, a: int, b: int, c: char) -> int
    decreases b - a
        when a <= b
{
    if b <= a {
        0
    } else {
        count_char(src, a, b - 1, c) + if src[b - 1] == c {
            1int
        } else {
            0int
        }
    }
}

/// The last index in `src[a..b]` holding `c`, or `-1`.
pub open spec fn last_index_of(src: Seq<char>, a: int, b: int, c: char) -> int
    decreases b - a
        when a <= b
{
    if b <= a {
        -1
    } else if src[b - 1] == c {
        b - 1
    } else {
        last_index_of(src, a, b - 1, c)
    }
}

/// The kind of a scanned word: one of the sixteen reserved keywords, or
/// an identifier carrying the word.
pub open spec fn keyword_kind(w: Seq<char>) -> TokenTypeV {
    if w == "if"@ {
        TokenTypeV::If
    } else if w == "and"@ {
        TokenTypeV::And
    } else if w == "class"@ {
        TokenTypeV::Class
    } else if w == "else"@ {
        TokenTypeV::Else
    } else if w == "false"@ {
        TokenTypeV::False
    } else if w == "for"@ {
        TokenTypeV::For
    } else if w == "fun"@ {
        TokenTypeV::Fun
    } else if w == "nil"@ {
        TokenTypeV::Nil
    } else if w == "or"@ {
        TokenTypeV::Or
    } else if w == "print"@ {
        TokenTypeV::Print
    } else if w == "return"@ {
        TokenTypeV::Return
    } else if w == "super"@ {
        TokenTypeV::Super
    } else if w == "this"@ {
        TokenTypeV::This
    } else if w == "true"@ {
        TokenTypeV::True
    } else if w == "var"@ {
        TokenTypeV::Var
    } else if w == "while"@ {
        TokenTypeV::While
    } else {
        TokenTypeV::Identifier(w)
    }
}

/// The kind of a one-character token, or an `Invalid` kind carrying the
/// unexpected character.
pub open spec fn single_char_kind(c: char) -> TokenTypeV {
    if c == '(' {
        TokenTypeV::LeftParen
    } else if c == ')' {
        TokenTypeV::RightParen
    } else if c == '{' {
        TokenTypeV::LeftBrace
    } else if c == '}' {
        TokenTypeV::RightBrace
    } else if c == '*' {
        TokenTypeV::Star
    } else if c == '.' {
        TokenTypeV::Dot
    } else if c == ',' {
        TokenTypeV::Comma
    } else if c == '+' {
        TokenTypeV::Plus
    } else if c == '-' {
        TokenTypeV::Minus
    } else if c == '/' {
        TokenTypeV::Slash
    } else if c == ';' {
        TokenTypeV::SemiColon
    } else if c == '=' {
        TokenTypeV::Equal
    } else if c == '!' {
        TokenTypeV::Bang
    } else if c == '>' {
        TokenTypeV::Greater
    } else if c == '<' {
        TokenTypeV::Less
    } else if c == '^' {
        TokenTypeV::Carrot
    } else {
        TokenTypeV::Invalid("Unexpected character: "@ + seq![c])
    }
}

/// Clamps a computed end index so the scan always advances and stays in
/// bounds; with the ends computed above, the clamp never fires.
pub open spec fn step_to(i: int, j: int, len: int) -> int {
    if j <= i {
        i + 1
    } else if j > len {
        len
    } else {
        j
    }
}

/// The tokens of `src` from index `i` on, on line `line`, where the last
/// newline stood at index `nl` (columns are indices minus that marker).
///
/// Spaces and tabs are skipped; a newline advances the line counter and
/// resets the column origin. A run of digits, optionally continuing with
/// one `.` and further digits, is a number literal. A `"` opens a string,
/// which may span newlines; an unterminated string becomes one `Invalid`
/// token. `==`, `!=`, `<=`, `>=` are preferred over their one-character
/// prefixes; `//` discards the rest of the line; words are matched
/// against the keyword set; any other character yields its one-character
/// kind or an `Invalid` token.
pub open spec fn scan_from(src: Seq<char>, i: int, line: int, nl: int) -> Seq<TokenV>
    decreases src.len() - i
        when 0 <= i <= src.len()
{
    if i >= src.len() {
        Seq::empty()
    } else {
        let c = src[i];
        if c == ' ' || c == '\t' {
            scan_from(src, i + 1, line, nl)
        } else if c == '\n' {
            scan_from(src, i + 1, line + 1, i)
        } else if is_digit_char(c) {
            let de = digits_end(src, i);
            let stop = if de < src.len() && src[de] == '.' {
                digits_end(src, de + 1)
            } else {
                de
            };
            let frac = if de < src.len() && src[de] == '.' {
                src.subrange(de + 1, stop)
            } else {
                Seq::empty()
            };
            let tok = TokenV {
                token_type: TokenTypeV::Number(num_of_digits(src.subrange(i, de), frac)),
                raw: src.subrange(i, stop),
                position: Position {
                    from: (line as usize, (i - nl) as usize),
                    to: (line as usize, (stop - nl) as usize),
                },
            };
            seq![tok] + scan_from(src, step_to(i, stop, src.len() as int), line, nl)
        } else if c == '"' {
            let start = i + 1;
            let se = scan_until(src, start, '"');
            let cnt = count_char(src, start, se, '\n');
            let lastn = last_index_of(src, start, se, '\n');
            let nl2 = if lastn >= 0 {
                lastn
            } else {
                nl
            };
            let line2 = line + cnt;
            if se >= src.len() {
                let tok = TokenV {
                    token_type: TokenTypeV::Invalid("Unterminated string."@),
                    raw: src.subrange(start, src.len() as int),
                    position: Position {
                        from: (line as usize, (start - nl) as usize),
                        to: (line2 as usize, (src.len() - nl2) as usize),
                    },
                };
                seq![tok]
            } else {
                let value = src.subrange(start, se);
                let tok = TokenV {
                    token_type: TokenTypeV::StringLitteral(value),
                    raw: seq!['"'] + value + seq!['"'],
                    position: Position {
                        from: (line as usize, (start - nl) as usize),
                        to: (line2 as usize, (se - nl2) as usize),
                    },
                };
                seq![tok] + scan_from(src, step_to(i, se + 1, src.len() as int), line2, nl2)
            }
        } else if (c == '=' || c == '!' || c == '<' || c == '>') && i + 1 < src.len() && src[i + 1]
            == '=' {
            let kind = if c == '=' {
                TokenTypeV::EqualEqual
            } else if c == '!' {
                TokenTypeV::BangEqual
            } else if c == '>' {
                TokenTypeV::GreaterEqual
            } else {
                TokenTypeV::LessEqual
            };
            let tok = TokenV {
                token_type: kind,
                raw: seq![c, '='],
                position: Position {
                    from: (line as usize, (i - nl) as usize),
                    to: (line as usize, (i + 1 - nl) as usize),
                },
            };
            seq![tok] + scan_from(src, i + 2, line, nl)
        } else if c == '/' && i + 1 < src.len() && src[i + 1] == '/' {
            let ce = scan_until(src, i + 2, '\n');
            scan_from(src, step_to(i, ce, src.len() as int), line, nl)
        } else if is_ident_start(c) {
            let ie = ident_end(src, i);
            let word = src.subrange(i, ie);
            let tok = TokenV {
                token_type: keyword_kind(word),
                raw: word,
                position: Position {
                    from: (line as usize, (i - nl) as usize),
                    to: (line as usize, (ie - nl) as usize),
                },
            };
            seq![tok] + scan_from(src, step_to(i, ie, src.len() as int), line, nl)
        } else {
            let tok = TokenV {
                token_type: single_char_kind(c),
                raw: seq![c],
                position: Position {
                    from: (line as usize, (i - nl) as usize),
                    to: (line as usize, (i - nl) as usize),
                },
            };
            seq![tok] + scan_from(src, i + 1, line, nl)
        }
    }
}

pub proof fn lemma_digits_end_chars(src: Seq<char>, a: int)
    requires
        0 <= a <= src.len(),
    ensures
        a <= digits_end(src, a) <= src.len(),
        forall|k: int| a <= k < digits_end(src, a) ==> is_digit_char(#[trigger] src[k]),
    decreases src.len() - a,
{
    if a < src.len() && is_digit_char(src[a]) {
        lemma_digits_end_chars(src, a + 1);
    }
}

pub proof fn lemma_ident_end_chars(src: Seq<char>, a: int)
    requires
        0 <= a <= src.len(),
    ensures
        a <= ident_end(src, a) <= src.len(),
    decreases src.len() - a,
{
    if a < src.len() && is_ident_char(src[a]) {
        lemma_ident_end_chars(src, a + 1);
    }
}

pub proof fn lemma_scan_until_bounds(src: Seq<char>, a: int, c: char)
    requires
        0 <= a <= src.len(),
    ensures
        a <= scan_until(src, a, c) <= src.len(),
    decreases src.len() - a,
{
    if a < src.len() && src[a] != c {
        lemma_scan_until_bounds(src, a + 1, c);
    }
}

pub proof fn lemma_count_char_bounds(src: Seq<char>, a: int, b: int, c: char)
    requires
        a <= b,
    ensures
        0 <= count_char(src, a, b, c) <= b - a,
        last_index_of(src, a, b, c) == -1 || a <= last_index_of(src, a, b, c) < b,
    decreases b - a,
{
    if b > a {
        lemma_count_char_bounds(src, a, b - 1, c);
    }
}

/// The end of the run of digits starting at `from`.
fn run_digits(source: &str, from: usize, len: usize) -> (j: usize)
    requires
        len == source@.len(),
        from <= len,
    ensures
        j as int == digits_end(source@, from as int),
        from <= j <= len,
{
    let mut j = from;
    loop
        invariant
            len == source@.len(),
            from <= j <= len,
            digits_end(source@, from as int) == digits_end(source@, j as int),
        decreases len - j,
    {
        if j >= len {
            return j;
        }
        let cj = source.get_char(j);
        if !(48 <= cj as u32 && cj as u32 <= 57) {
            return j;
        }
        j = j + 1;
    }
}

/// The end of the run of identifier characters starting at `from`.
fn run_ident(source: &str, from: usize, len: usize) -> (j: usize)
    requires
        len == source@.len(),
        from <= len,
    ensures
        j as int == ident_end(source@, from as int),
        from <= j <= len,
{
    let mut j = from;
    loop
        invariant
            len == source@.len(),
            from <= j <= len,
            ident_end(source@, from as int) == ident_end(source@, j as int),
        decreases len - j,
    {
        if j >= len {
            return j;
        }
        let cj = source.get_char(j);
        let cu = cj as u32;
        if !((65 <= cu && cu <= 90) || (97 <= cu && cu <= 122) || (48 <= cu && cu <= 57) || cj
            == '_') {
            return j;
        }
        j = j + 1;
    }
}

/// The first index at or after `from` holding `target`, or the end.
fn run_until(source: &str, from: usize, len: usize, target: char) -> (j: usize)
    requires
        len == source@.len(),
        from <= len,
    ensures
        j as int == scan_until(source@, from as int, target),
        from <= j <= len,
{
    let mut j = from;
    loop
        invariant
            len == source@.len(),
            from <= j <= len,
            scan_until(source@, from as int, target) == scan_until(source@, j as int, target),
        decreases len - j,
    {
        if j >= len {
            return j;
        }
        let cj = source.get_char(j);
        if cj == target {
            return j;
        }
        j = j + 1;
    }
}

/// An owned copy of the characters `source[a..b]`.
fn copy_range(source: &str, a: usize, b: usize) -> (s: String)
    requires
        a <= b <= source@.len(),
    ensures
        s@ == source@.subrange(a as int, b as int),
{
    let mut s = String::new();
    let mut k = a;
    while k < b
        invariant
            a <= k <= b <= source@.len(),
            s@ == source@.subrange(a as int, k as int),
        decreases b - k,
    {
        let c = source.get_char(k);
        push_char(&mut s, c);
        proof {
            assert(source@.subrange(a as int, k as int).push(c) =~= source@.subrange(
                a as int,
                k + 1,
            ));
        }
        k = k + 1;
    }
    s
}

/// The accumulated integer part of the digits `source[a..b]`, with its
/// overflow flag; see `acc_digit`.
fn collect_int(source: &str, a: usize, b: usize) -> (res: (u128, bool))
    requires
        a <= b <= source@.len(),
        forall|k: int| a <= k < b ==> is_digit_char(#[trigger] source@[k]),
    ensures
        !res.1 ==> res.0 as nat == digits_val(source@.subrange(a as int, b as int)),
        res.1 ==> digits_val(source@.subrange(a as int, b as int)) > u128::MAX,
{
    let mut acc: u128 = 0;
    let mut ovf = false;
    let mut k = a;
    proof {
        assert(source@.subrange(a as int, a as int) =~= Seq::<char>::empty());
    }
    while k < b
        invariant
            a <= k <= b <= source@.len(),
            forall|q: int| a <= q < b ==> is_digit_char(#[trigger] source@[q]),
            !ovf ==> acc as nat == digits_val(source@.subrange(a as int, k as int)),
            ovf ==> digits_val(source@.subrange(a as int, k as int)) > u128::MAX,
        decreases b - k,
    {
        let c = source.get_char(k);
        let ghost pre = source@.subrange(a as int, k as int);
        let res2 = acc_digit(acc, ovf, c);
        proof {
            lemma_digits_val_push(pre, c);
            assert(pre.push(c) =~= source@.subrange(a as int, k + 1));
            if ovf {
                assert(digits_val(pre) * 10 + char_digit(c) >= digits_val(pre));
            }
        }
        acc = res2.0;
        ovf = res2.1;
        k = k + 1;
    }
    (acc, ovf)
}

/// The accumulated fraction part of the digits `source[a..b]`: the value
/// of the first nineteen digits and the matching power of ten.
fn collect_frac(source: &str, a: usize, b: usize) -> (res: (u64, u64))
    requires
        a <= b <= source@.len(),
        forall|k: int| a <= k < b ==> is_digit_char(#[trigger] source@[k]),
    ensures
        ({
            let flen = if b - a <= 19 { (b - a) as int } else { 19int };
            res.1 as nat == pow10(flen as nat) && res.0 as nat == digits_val(
                source@.subrange(a as int, a + flen),
            )
        }),
{
    let lim = if b - a > 19 {
        a + 19
    } else {
        b
    };
    let mut facc: u64 = 0;
    let mut den: u64 = 1;
    let mut k = a;
    proof {
        assert(source@.subrange(a as int, a as int) =~= Seq::<char>::empty());
        reveal_with_fuel(pow10, 21);
        assert(pow10(18) == 1000000000000000000);
        assert(pow10(19) == 10000000000000000000);
    }
    while k < lim
        invariant
            a <= k <= lim <= b <= source@.len(),
            lim - a <= 19,
            forall|q: int| a <= q < b ==> is_digit_char(#[trigger] source@[q]),
            den as nat == pow10((k - a) as nat),
            facc as nat == digits_val(source@.subrange(a as int, k as int)),
            pow10(18) == 1000000000000000000,
            pow10(19) == 10000000000000000000,
        decreases lim - k,
    {
        let c = source.get_char(k);
        let d = crate::value::char_digit_u64(c);
        let ghost pre = source@.subrange(a as int, k as int);
        proof {
            lemma_digits_val_push(pre, c);
            assert(pre.push(c) =~= source@.subrange(a as int, k + 1));
            lemma_digits_val_bound(pre);
            lemma_pow10_mono((k - a) as nat, 18);
            lemma_pow10_mono((k - a + 1) as nat, 19);
        }
        facc = facc * 10 + d;
        den = den * 10;
        k = k + 1;
    }
    (facc, den)
}

/// The keyword kind of a scanned word, or an identifier token kind.
fn word_kind(word: String) -> (t: TokenType)
    ensures
        t@ == keyword_kind(word@),
{
    if word.eq(&String::from_str("if")) {
        TokenType::If
    } else if word.eq(&String::from_str("and")) {
        TokenType::And
    } else if word.eq(&String::from_str("class")) {
        TokenType::Class
    } else if word.eq(&String::from_str("else")) {
        TokenType::Else
    } else if word.eq(&String::from_str("false")) {
        TokenType::False
    } else if word.eq(&String::from_str("for")) {
        TokenType::For
    } else if word.eq(&String::from_str("fun")) {
        TokenType::Fun
    } else if word.eq(&String::from_str("nil")) {
        TokenType::Nil
    } else if word.eq(&String::from_str("or")) {
        TokenType::Or
    } else if word.eq(&String::from_str("print")) {
        TokenType::Print
    } else if word.eq(&String::from_str("return")) {
        TokenType::Return
    } else if word.eq(&String::from_str("super")) {
        TokenType::Super
    } else if word.eq(&String::from_str("this")) {
        TokenType::This
    } else if word.eq(&String::from_str("true")) {
        TokenType::True
    } else if word.eq(&String::from_str("var")) {
        TokenType::Var
    } else if word.eq(&String::from_str("while")) {
        TokenType::While
    } else {
        TokenType::Identifier(word)
    }
}

/// The kind of a one-character token.
fn char_token_type(c: char) -> (t: TokenType)
    ensures
        t@ == single_char_kind(c),
{
    if c == '(' {
        TokenType::LeftParen
    } else if c == ')' {
        TokenType::RightParen
    } else if c == '{' {
        TokenType::LeftBrace
    } else if c == '}' {
        TokenType::RightBrace
    } else if c == '*' {
        TokenType::Star
    } else if c == '.' {
        TokenType::Dot
    } else if c == ',' {
        TokenType::Comma
    } else if c == '+' {
        TokenType::Plus
    } else if c == '-' {
        TokenType::Minus
    } else if c == '/' {
        TokenType::Slash
    } else if c == ';' {
        TokenType::SemiColon
    } else if c == '=' {
        TokenType::Equal
    } else if c == '!' {
        TokenType::Bang
    } else if c == '>' {
        TokenType::Greater
    } else if c == '<' {
        TokenType::Less
    } else if c == '^' {
        TokenType::Carrot
    } else {
        let mut m = String::from_str("Unexpected character: ");
        push_char(&mut m, c);
        proof {
            assert(m@ =~= "Unexpected character: "@ + seq![c]);
        }
        TokenType::Invalid(m)
    }
}

/// Converts a source text into its token sequence; follows `scan_from`
/// starting at the first character, on line one, with the column origin
/// at index zero. Never fails: lexically invalid input is reported as
/// in-band `Invalid` tokens.
#[verifier::rlimit(80)]
pub fn scan(source: &str) -> (tokens: Vec<Token>)
    requires
        source@.len() < usize::MAX,
    ensures
        tokens@.map_values(|t: Token| t@) == scan_from(source@, 0, 1, 0),
        forall|j: int| 0 <= j < tokens@.len() ==> token_wf(#[trigger] tokens@[j]@),
{
    let len = source.unicode_len();
    let mut out: Vec<Token> = Vec::new();
    let mut i: usize = 0;
    let mut line: usize = 1;
    let mut nl: usize = 0;
    proof {
        assert(out@.map_values(|t: Token| t@) =~= Seq::<TokenV>::empty());
    }
    while i < len
        invariant
            source@.len() < usize::MAX,
            len == source@.len(),
            i <= len,
            nl <= i,
            1 <= line,
            line <= i + 1,
            scan_from(source@, 0, 1, 0) =~= out@.map_values(|t: Token| t@) + scan_from(
                source@,
                i as int,
                line as int,
                nl as int,
            ),
            forall|j: int| 0 <= j < out@.len() ==> token_wf(#[trigger] out@[j]@),
        decreases len - i,
    {
        let ghost pre_toks = out@.map_values(|t: Token| t@);
        let c = source.get_char(i);
        let cu = c as u32;
        let next = if i + 1 < len {
            source.get_char(i + 1)
        } else {
            ' '
        };
        if c == ' ' || c == '\t' {
            i = i + 1;
        } else if c == '\n' {
            line = line + 1;
            nl = i;
            i = i + 1;
        } else if 48 <= cu && cu <= 57 {
            let de = run_digits(source, i, len);
            proof {
                lemma_digits_end_chars(source@, i as int);
                assert(digits_end(source@, i as int) == digits_end(source@, i + 1));
                lemma_digits_end_chars(source@, i + 1);
            }
            let dot = de < len && source.get_char(de) == '.';
            let stop = if dot {
                let fe = run_digits(source, de + 1, len);
                proof {
                    lemma_digits_end_chars(source@, de + 1);
                }
                fe
            } else {
                de
            };
            let (iacc, iovf) = collect_int(source, i, de);
            let (facc, den) = if dot {
                collect_frac(source, de + 1, stop)
            } else {
                (0u64, 1u64)
            };
            let ghost ds = source@.subrange(i as int, de as int);
            let ghost fs = if dot {
                source@.subrange(de + 1, stop as int)
            } else {
                Seq::<char>::empty()
            };
            proof {
                if !dot {
                    assert(fs.take(0) =~= Seq::<char>::empty());
                } else {
                    let flen = if fs.len() <= 19 { fs.len() } else { 19nat };
                    assert(fs.take(flen as int) =~= source@.subrange(de + 1, de + 1 + flen));
                }
            }
            let value = build_num(iacc, iovf, facc, den, Ghost(ds), Ghost(fs));
            let raw = copy_range(source, i, stop);
            let tok = Token {
                token_type: TokenType::Number(value),
                raw,
                position: Position::new(line, i - nl, line, stop - nl),
            };
            out.push(tok);
            proof {
                assert(out@.map_values(|t: Token| t@) =~= pre_toks.push(tok@));
                assert(scan_from(source@, i as int, line as int, nl as int) =~= seq![tok@]
                    + scan_from(source@, stop as int, line as int, nl as int));
                assert(pre_toks.push(tok@) + scan_from(source@, stop as int, line as int, nl as int)
                    =~= pre_toks + (seq![tok@] + scan_from(
                    source@,
                    stop as int,
                    line as int,
                    nl as int,
                )));
            }
            i = stop;
        } else if c == '"' {
            let start = i + 1;
            let se = run_until(source, start, len, '"');
            let mut line2 = line;
            let mut nl2 = nl;
            let mut k = start;
            while k < se
                invariant
                    len == source@.len(),
                    start <= k <= se <= len,
                    nl <= i,
                    i + 1 == start,
                    1 <= line,
                    line <= i + 1,
                    line2 as int == line + count_char(source@, start as int, k as int, '\n'),
                    nl2 as int == ({
                        let ln = last_index_of(source@, start as int, k as int, '\n');
                        if ln >= 0 {
                            ln
                        } else {
                            nl as int
                        }
                    }),
                    nl2 < k || nl2 == nl,
                decreases se - k,
            {
                proof {
                    lemma_count_char_bounds(source@, start as int, k as int, '\n');
                }
                let ck = source.get_char(k);
                if ck == '\n' {
                    line2 = line2 + 1;
                    nl2 = k;
                }
                k = k + 1;
            }
            proof {
                lemma_count_char_bounds(source@, start as int, se as int, '\n');
            }
            if se >= len {
                let raw = copy_range(source, start, len);
                let tok = Token {
                    token_type: TokenType::Invalid(String::from_str("Unterminated string.")),
                    raw,
                    position: Position::new(line, start - nl, line2, len - nl2),
                };
                out.push(tok);
                proof {
                    assert(out@.map_values(|t: Token| t@) =~= pre_toks.push(tok@));
                    assert(scan_from(source@, i as int, line as int, nl as int) =~= seq![tok@]);
                    assert(pre_toks.push(tok@) + scan_from(
                        source@,
                        len as int,
                        line2 as int,
                        nl2 as int,
                    ) =~= pre_toks + seq![tok@]);
                }
                i = len;
                line = line2;
                nl = nl2;
            } else {
                let value = copy_range(source, start, se);
                let mut raw = String::new();
                push_char(&mut raw, '"');
                raw.append(value.as_str());
                push_char(&mut raw, '"');
                let tok = Token {
                    token_type: TokenType::StringLitteral(value),
                    raw,
                    position: Position::new(line, start - nl, line2, se - nl2),
                };
                out.push(tok);
                proof {
                    assert(tok@.raw =~= seq!['"'] + source@.subrange(start as int, se as int)
                        + seq!['"']);
                    assert(out@.map_values(|t: Token| t@) =~= pre_toks.push(tok@));
                    assert(scan_from(source@, i as int, line as int, nl as int) =~= seq![tok@]
                        + scan_from(source@, se + 1, line2 as int, nl2 as int));
                    assert(pre_toks.push(tok@) + scan_from(source@, se + 1, line2 as int, nl2 as int)
                        =~= pre_toks + (seq![tok@] + scan_from(
                        source@,
                        se + 1,
                        line2 as int,
                        nl2 as int,
                    )));
                }
                i = se + 1;
                line = line2;
                nl = nl2;
            }
        } else if (c == '=' || c == '!' || c == '<' || c == '>') && i + 1 < len && next == '=' {
            let kind = if c == '=' {
                TokenType::EqualEqual
            } else if c == '!' {
                TokenType::BangEqual
            } else if c == '>' {
                TokenType::GreaterEqual
            } else {
                TokenType::LessEqual
            };
            let mut raw = String::new();
            push_char(&mut raw, c);
            push_char(&mut raw, '=');
            let tok = Token {
                token_type: kind,
                raw,
                position: Position::new(line, i - nl, line, i + 1 - nl),
            };
            out.push(tok);
            proof {
                assert(tok@.raw =~= seq![c, '=']);
                assert(out@.map_values(|t: Token| t@) =~= pre_toks.push(tok@));
                assert(scan_from(source@, i as int, line as int, nl as int) =~= seq![tok@]
                    + scan_from(source@, i + 2, line as int, nl as int));
                assert(pre_toks.push(tok@) + scan_from(source@, i + 2, line as int, nl as int)
                    =~= pre_toks + (seq![tok@] + scan_from(source@, i + 2, line as int, nl as int)));
            }
            i = i + 2;
        } else if c == '/' && i + 1 < len && next == '/' {
            let ce = run_until(source, i + 2, len, '\n');
            i = ce;
        } else if (65 <= cu && cu <= 90) || (97 <= cu && cu <= 122) || c == '_' {
            let ie = run_ident(source, i, len);
            proof {
                lemma_ident_end_chars(source@, i as int);
                assert(ident_end(source@, i as int) == ident_end(source@, i + 1));
                lemma_ident_end_chars(source@, i + 1);
            }
            let word = copy_range(source, i, ie);
            let raw = copy_range(source, i, ie);
            let tok = Token {
                token_type: word_kind(word),
                raw,
                position: Position::new(line, i - nl, line, ie - nl),
            };
            out.push(tok);
            proof {
                assert(out@.map_values(|t: Token| t@) =~= pre_toks.push(tok@));
                assert(scan_from(source@, i as int, line as int, nl as int) =~= seq![tok@]
                    + scan_from(source@, ie as int, line as int, nl as int));
                assert(pre_toks.push(tok@) + scan_from(source@, ie as int, line as int, nl as int)
                    =~= pre_toks + (seq![tok@] + scan_from(
                    source@,
                    ie as int,
                    line as int,
                    nl as int,
                )));
            }
            i = ie;
        } else {
            let mut raw = String::new();
            push_char(&mut raw, c);
            let tok = Token {
                token_type: char_token_type(c),
                raw,
                position: Position::new(line, i - nl, line, i - nl),
            };
            out.push(tok);
            proof {
                assert(tok@.raw =~= seq![c]);
                assert(out@.map_values(|t: Token| t@) =~= pre_toks.push(tok@));
                assert(scan_from(source@, i as int, line as int, nl as int) =~= seq![tok@]
                    + scan_from(source@, i + 1, line as int, nl as int));
                assert(pre_toks.push(tok@) + scan_from(source@, i + 1, line as int, nl as int)
                    =~= pre_toks + (seq![tok@] + scan_from(source@, i + 1, line as int, nl as int)));
            }
            i = i + 1;
        }
    }
    proof {
        assert(scan_from(source@, i as int, line as int, nl as int) =~= Seq::<TokenV>::empty());
        assert(out@.map_values(|t: Token| t@) + Seq::<TokenV>::empty() =~= out@.map_values(
            |t: Token| t@,
        ));
    }
    out
}

} // verus!
