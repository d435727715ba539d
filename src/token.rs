use vstd::prelude::*;

verus! {

/// A location in the source buffer, as a character offset.
#[derive(Clone, Copy, Debug, PartialEq, Eq, Structural)]
pub struct Position {
    pub Offset: usize,
}

/// The span of a production: from its first token to just after its last one.
#[derive(Clone, Copy, Debug, PartialEq, Eq, Structural)]
pub struct PosRange {
    pub Begin: Position,
    pub End: Position,
}

/// Numeric format of an integer literal.
#[derive(Clone, Copy, Debug, PartialEq, Eq, Structural)]
pub enum IntFormat {
    Decimal,
    Hex,
}

/// Shape of a token as the basic scanner classifies it.
#[derive(Clone, Copy, Debug, PartialEq, Eq, Structural)]
pub enum BasicTokenKind {
    Ident,
    Operator,
    Delimiter,
    Newline,
    Int(IntFormat),
    Float,
    Str,
    Char,
    Comment,
}

/// Kind of a language-level token.
#[derive(Clone, Copy, Debug, PartialEq, Eq, Structural)]
pub enum TokenKind {
    Invalid,
    EOF,
    Ident,
    Operator,
    Int(IntFormat),
    Float,
    Str,
    Char,
    NEWLINE,
    SEMICOLON,
    COMMA,
    LPAREN,
    RPAREN,
    LBRACK,
    RBRACK,
    LBRACE,
    RBRACE,
    QUO,
    PASS,
    STRUCT,
    TRAIT,
    FUNC,
    IMPORT,
    RETURN,
}

/// A token of the basic scanner: its span, shape and text.
#[derive(Clone, Debug)]
pub struct BasicToken {
    pub Pos: Position,
    pub End: Position,
    pub Kind: BasicTokenKind,
    pub Literal: Vec<char>,
}

/// A language-level token: its span, kind and text.
#[derive(Clone, Debug)]
pub struct Token {
    pub Pos: Position,
    pub End: Position,
    pub Kind: TokenKind,
    pub Literal: Vec<char>,
}

/// The mathematical value of a token.
pub ghost struct TokenModel {
    pub pos: Position,
    pub end: Position,
    pub kind: TokenKind,
    pub text: Seq<char>,
}

impl View for Token {
    type V = TokenModel;

    open spec fn view(&self) -> TokenModel {
        TokenModel { pos: self.Pos, end: self.End, kind: self.Kind, text: self.Literal@ }
    }
}

impl Token {
    /// The placeholder token: no kind, no text, at offset zero.
    pub fn Placeholder() -> (r: Token)
        ensures
            r@ == placeholder_token(),
    {
        Token {
            Pos: Position { Offset: 0 },
            End: Position { Offset: 0 },
            Kind: TokenKind::Invalid,
            Literal: Vec::new(),
        }
    }

    /// A copy of this token.
    pub fn Duplicate(&self) -> (r: Token)
        ensures
            r@ == self@,
    {
        Token { Pos: self.Pos, End: self.End, Kind: self.Kind, Literal: CopyChars(&self.Literal) }
    }
}

/// A copy of a character sequence.
pub fn CopyChars(v: &Vec<char>) -> (r: Vec<char>)
    ensures
        r@ == v@,
{
    let mut out: Vec<char> = Vec::new();
    let mut i: usize = 0;
    while i < v.len()
        invariant
            i <= v.len(),
            out@ == v@.subrange(0, i as int),
        decreases v.len() - i,
    {
        out.push(v[i]);
        i = i + 1;
    }
    assert(out@ =~= v@);
    out
}

pub open spec fn placeholder_token() -> TokenModel {
    TokenModel {
        pos: Position { Offset: 0 },
        end: Position { Offset: 0 },
        kind: TokenKind::Invalid,
        text: Seq::empty(),
    }
}

/// Two kinds carry the same tag; the numeric format of an integer is ignored.
pub open spec fn same_tag(a: TokenKind, b: TokenKind) -> bool {
    match (a, b) {
        (TokenKind::Int(_), TokenKind::Int(_)) => true,
        _ => a == b,
    }
}

/// Compares two kinds by tag alone.
pub fn TagMatches(a: &TokenKind, b: &TokenKind) -> (r: bool)
    ensures
        r == same_tag(*a, *b),
{
    match (a, b) {
        (TokenKind::Int(_), TokenKind::Int(_)) => true,
        _ => *a == *b,
    }
}

/// The reserved spellings of the language and the kinds they stand for.
pub open spec fn keyword_of(s: Seq<char>) -> Option<TokenKind> {
    if s == seq!['s', 't', 'r', 'u', 'c', 't'] {
        Some(TokenKind::STRUCT)
    } else if s == seq!['t', 'r', 'a', 'i', 't'] {
        Some(TokenKind::TRAIT)
    } else if s == seq!['f', 'u', 'n', 'c'] {
        Some(TokenKind::FUNC)
    } else if s == seq!['i', 'm', 'p', 'o', 'r', 't'] {
        Some(TokenKind::IMPORT)
    } else if s == seq!['r', 'e', 't', 'u', 'r', 'n'] {
        Some(TokenKind::RETURN)
    } else if s == seq!['-', '>'] {
        Some(TokenKind::PASS)
    } else if s == seq!['('] {
        Some(TokenKind::LPAREN)
    } else if s == seq![')'] {
        Some(TokenKind::RPAREN)
    } else if s == seq!['['] {
        Some(TokenKind::LBRACK)
    } else if s == seq![']'] {
        Some(TokenKind::RBRACK)
    } else if s == seq!['{'] {
        Some(TokenKind::LBRACE)
    } else if s == seq!['}'] {
        Some(TokenKind::RBRACE)
    } else if s == seq![','] {
        Some(TokenKind::COMMA)
    } else if s == seq![';'] {
        Some(TokenKind::SEMICOLON)
    } else if s == seq!['/'] {
        Some(TokenKind::QUO)
    } else {
        None
    }
}

/// Looks a spelling up in the keyword table.
pub fn KeywordLookup(s: &Vec<char>) -> (r: Option<TokenKind>)
    ensures
        r == keyword_of(s@),
{
    if s.len() == 6 && s[0] == 's' && s[1] == 't' && s[2] == 'r' && s[3] == 'u' && s[4] == 'c' && s[5] == 't' {
        assert(s@ =~= seq!['s', 't', 'r', 'u', 'c', 't']);
        Some(TokenKind::STRUCT)
    } else if s.len() == 5 && s[0] == 't' && s[1] == 'r' && s[2] == 'a' && s[3] == 'i' && s[4] == 't' {
        assert(s@ =~= seq!['t', 'r', 'a', 'i', 't']);
        Some(TokenKind::TRAIT)
    } else if s.len() == 4 && s[0] == 'f' && s[1] == 'u' && s[2] == 'n' && s[3] == 'c' {
        assert(s@ =~= seq!['f', 'u', 'n', 'c']);
        Some(TokenKind::FUNC)
    } else if s.len() == 6 && s[0] == 'i' && s[1] == 'm' && s[2] == 'p' && s[3] == 'o' && s[4] == 'r' && s[5] == 't' {
        assert(s@ =~= seq!['i', 'm', 'p', 'o', 'r', 't']);
        Some(TokenKind::IMPORT)
    } else if s.len() == 6 && s[0] == 'r' && s[1] == 'e' && s[2] == 't' && s[3] == 'u' && s[4] == 'r' && s[5] == 'n' {
        assert(s@ =~= seq!['r', 'e', 't', 'u', 'r', 'n']);
        Some(TokenKind::RETURN)
    } else if s.len() == 2 && s[0] == '-' && s[1] == '>' {
        assert(s@ =~= seq!['-', '>']);
        Some(TokenKind::PASS)
    } else if s.len() == 1 && s[0] == '(' {
        assert(s@ =~= seq!['(']);
        Some(TokenKind::LPAREN)
    } else if s.len() == 1 && s[0] == ')' {
        assert(s@ =~= seq![')']);
        Some(TokenKind::RPAREN)
    } else if s.len() == 1 && s[0] == '[' {
        assert(s@ =~= seq!['[']);
        Some(TokenKind::LBRACK)
    } else if s.len() == 1 && s[0] == ']' {
        assert(s@ =~= seq![']']);
        Some(TokenKind::RBRACK)
    } else if s.len() == 1 && s[0] == '{' {
        assert(s@ =~= seq!['{']);
        Some(TokenKind::LBRACE)
    } else if s.len() == 1 && s[0] == '}' {
        assert(s@ =~= seq!['}']);
        Some(TokenKind::RBRACE)
    } else if s.len() == 1 && s[0] == ',' {
        assert(s@ =~= seq![',']);
        Some(TokenKind::COMMA)
    } else if s.len() == 1 && s[0] == ';' {
        assert(s@ =~= seq![';']);
        Some(TokenKind::SEMICOLON)
    } else if s.len() == 1 && s[0] == '/' {
        assert(s@ =~= seq!['/']);
        Some(TokenKind::QUO)
    } else {
        None
    }
}

} // verus!
